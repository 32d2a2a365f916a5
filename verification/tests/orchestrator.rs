use repl_expect::values::{Layout, Value};
use repl_expect::{get_values, DecodeError, TypeEnv, Variable};

fn str_small(content: &[u8]) -> Vec<u8> {
    assert!(content.len() <= 22);
    let mut r = vec![0u8; 24];
    r[..content.len()].copy_from_slice(content);
    r[23] = 0x80 | (content.len() as u8);
    r
}

#[test]
fn sequential_packing() {
    let mut buf = Vec::new();
    buf.extend_from_slice(&42u64.to_le_bytes());
    buf.extend_from_slice(&str_small(b"hi"));
    let env = TypeEnv { layouts: vec![Some(Layout::I64), Some(Layout::Str)] };
    let vars = [Variable(0), Variable(1)];
    let (end, values) = get_values(&env, &buf, 0, &vars).unwrap();
    assert_eq!(end, 32);
    assert_eq!(values.len(), 2);
    assert!(matches!(values[0], Value::Int(42)));
    match &values[1] {
        Value::Str(bytes) => assert_eq!(bytes, &b"hi".to_vec()),
        _ => panic!("expected a string"),
    }
}

#[test]
fn fail_fast_on_second_of_three() {
    let buf = vec![0u8; 64];
    let env = TypeEnv { layouts: vec![Some(Layout::U8), None, Some(Layout::U8)] };
    let vars = [Variable(0), Variable(1), Variable(2)];
    let r = get_values(&env, &buf, 0, &vars);
    assert_eq!(r.unwrap_err(), DecodeError::UnresolvedLayout(Variable(1)));
}

#[test]
fn unknown_handle_fails() {
    let buf = vec![0u8; 8];
    let env = TypeEnv { layouts: vec![Some(Layout::U8)] };
    let vars = [Variable(5)];
    let r = get_values(&env, &buf, 0, &vars);
    assert_eq!(r.unwrap_err(), DecodeError::UnresolvedLayout(Variable(5)));
}

#[test]
fn empty_request_keeps_offset() {
    let buf = vec![1u8, 2, 3];
    let env = TypeEnv { layouts: vec![] };
    let (end, values) = get_values(&env, &buf, 2, &[]).unwrap();
    assert_eq!(end, 2);
    assert!(values.is_empty());
}

#[test]
fn mixed_values_and_final_offset() {
    let payload = b"a string so long that it cannot be short";
    let mut buf = Vec::new();
    buf.push(1); // Bool at 0
    buf.extend_from_slice(&0xbeefu16.to_le_bytes()); // U16 at 1
    // large string record at 3; payload at 27
    buf.extend_from_slice(&27u64.to_le_bytes());
    buf.extend_from_slice(&(payload.len() as u64).to_le_bytes());
    buf.extend_from_slice(&(payload.len() as u64).to_le_bytes());
    buf.extend_from_slice(payload);
    // U32 right after the payload, at 27 + 40 = 67
    buf.extend_from_slice(&7u32.to_le_bytes());
    // raw aggregate of 3 bytes at 71
    buf.extend_from_slice(&[0xaa, 0xbb, 0xcc]);

    let env = TypeEnv {
        layouts: vec![
            Some(Layout::Bool),
            Some(Layout::U16),
            Some(Layout::Str),
            Some(Layout::U32),
            Some(Layout::Opaque { size: 3 }),
        ],
    };
    let vars = [Variable(0), Variable(1), Variable(2), Variable(3), Variable(4)];
    let (end, values) = get_values(&env, &buf, 0, &vars).unwrap();
    assert_eq!(end, 74);
    assert_eq!(values.len(), 5);
    assert!(matches!(values[0], Value::Bool(true)));
    assert!(matches!(values[1], Value::Uint(0xbeef)));
    match &values[2] {
        Value::Str(bytes) => assert_eq!(bytes, &payload.to_vec()),
        _ => panic!("expected a string"),
    }
    assert!(matches!(values[3], Value::Uint(7)));
    match &values[4] {
        Value::Opaque(bytes) => assert_eq!(bytes, &vec![0xaa, 0xbb, 0xcc]),
        _ => panic!("expected undecoded bytes"),
    }
}

#[test]
fn start_offset_respected() {
    let mut buf = vec![0u8; 4];
    buf.extend_from_slice(&0x55aau16.to_le_bytes());
    let env = TypeEnv { layouts: vec![Some(Layout::U16)] };
    let (end, values) = get_values(&env, &buf, 4, &[Variable(0)]).unwrap();
    assert_eq!(end, 6);
    assert!(matches!(values[0], Value::Uint(0x55aa)));
}
