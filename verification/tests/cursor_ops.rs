use repl_expect::cursor::ValueCursor;
use repl_expect::values::{Layout, Value};

fn str_small(content: &[u8]) -> Vec<u8> {
    assert!(content.len() <= 22);
    let mut r = vec![0u8; 24];
    r[..content.len()].copy_from_slice(content);
    r[23] = 0x80 | (content.len() as u8);
    r
}

#[test]
fn fixed_size_unsigned() {
    let mut buf = Vec::new();
    buf.extend_from_slice(&0xabcdu16.to_le_bytes());
    buf.extend_from_slice(&0xdeadbeefu32.to_le_bytes());
    let mut c = ValueCursor::new(&buf, 0);
    assert!(matches!(c.read_fixed_size(Layout::U16), Value::Uint(0xabcd)));
    assert_eq!(c.offset, 2);
    assert_eq!(c.view.bytes_read, 2);
    assert!(matches!(c.read_fixed_size(Layout::U32), Value::Uint(0xdeadbeef)));
    assert_eq!(c.offset, 6);
    assert_eq!(c.view.bytes_read, 4);
}

#[test]
fn fixed_size_signed_and_bool() {
    let mut buf = Vec::new();
    buf.push(1);
    buf.extend_from_slice(&(-7i64).to_le_bytes());
    buf.extend_from_slice(&(-40000i128).to_le_bytes());
    let mut c = ValueCursor::new(&buf, 0);
    assert!(matches!(c.read_fixed_size(Layout::Bool), Value::Bool(true)));
    assert!(matches!(c.read_fixed_size(Layout::I64), Value::Int(-7)));
    assert!(matches!(c.read_fixed_size(Layout::I128), Value::Int(-40000)));
    assert_eq!(c.offset, 25);
}

#[test]
fn fixed_size_float_bits() {
    let mut buf = Vec::new();
    buf.extend_from_slice(&1.5f32.to_bits().to_le_bytes());
    buf.extend_from_slice(&(-2.25f64).to_bits().to_le_bytes());
    let mut c = ValueCursor::new(&buf, 0);
    match c.read_fixed_size(Layout::F32) {
        Value::F32Bits(bits) => assert_eq!(f32::from_bits(bits), 1.5f32),
        _ => panic!("expected a 32-bit float slot"),
    }
    match c.read_fixed_size(Layout::F64) {
        Value::F64Bits(bits) => assert_eq!(f64::from_bits(bits), -2.25f64),
        _ => panic!("expected a 64-bit float slot"),
    }
    assert_eq!(c.offset, 12);
}

#[test]
fn dynamic_size_hands_bytes_back() {
    let buf: Vec<u8> = vec![9, 8, 7, 6, 5, 4];
    let mut c = ValueCursor::new(&buf, 1);
    match c.read_dynamic_size(4) {
        Value::Opaque(bytes) => assert_eq!(bytes, vec![8, 7, 6, 5]),
        _ => panic!("expected undecoded bytes"),
    }
    assert_eq!(c.offset, 5);
    assert_eq!(c.view.bytes_read, 4);
}

#[test]
fn heap_string_small_advances_record_only() {
    let mut buf = str_small(b"hi");
    buf.push(0x2a);
    let mut c = ValueCursor::new(&buf, 0);
    match c.read_heap_string_result() {
        Value::Str(bytes) => assert_eq!(bytes, b"hi".to_vec()),
        _ => panic!("expected a string"),
    }
    assert_eq!(c.offset, 24);
    assert_eq!(c.view.bytes_read, 24);
}

#[test]
fn heap_string_large_skips_payload() {
    let payload = b"a string so long that it cannot be short";
    let mut buf = Vec::new();
    buf.extend_from_slice(&24u64.to_le_bytes());
    buf.extend_from_slice(&(payload.len() as u64).to_le_bytes());
    buf.extend_from_slice(&(payload.len() as u64).to_le_bytes());
    buf.extend_from_slice(payload);
    buf.push(0x2a);
    let mut c = ValueCursor::new(&buf, 0);
    match c.read_heap_string_result() {
        Value::Str(bytes) => assert_eq!(bytes, payload.to_vec()),
        _ => panic!("expected a string"),
    }
    assert_eq!(c.offset, 24 + payload.len());
    assert_eq!(c.view.bytes_read, 24);
    assert!(matches!(c.read_fixed_size(Layout::U8), Value::Uint(0x2a)));
}

#[test]
fn offsets_monotone_over_calls() {
    let mut buf = Vec::new();
    buf.extend_from_slice(&1u64.to_le_bytes());
    buf.extend_from_slice(&str_small(b""));
    buf.push(3);
    let mut c = ValueCursor::new(&buf, 0);
    let o0 = c.offset;
    c.read_fixed_size(Layout::U64);
    let o1 = c.offset;
    c.read_heap_string_result();
    let o2 = c.offset;
    c.read_fixed_size(Layout::U8);
    let o3 = c.offset;
    assert!(o0 <= o1 && o1 <= o2 && o2 <= o3);
    assert_eq!(o3, 33);
}
