//! The value cursor: sequences whole-value decodes over one memory view.
//!
//! The cursor owns the offset at which the next undecoded value begins.
//! Each operation clears the view's accumulator, decodes one value, and
//! advances the offset by the bytes the decode consumed — plus, for a large
//! string, the trailing heap payload that is packed after the record and
//! must be skipped before the next value.

use vstd::prelude::*;

use crate::memory::{
    lemma_pow256_values, lemma_word_of_byte, str_content, str_is_small, str_total_size, str_wf,
    MemoryView,
};
use crate::values::{value_model_of, value_size_of, value_wf, Layout, Value, ValueModel};

verus! {

/// Sequences reads of values packed one after another in the same buffer.
pub struct ValueCursor<'a> {
    pub view: MemoryView<'a>,
    pub offset: usize,
}

impl<'a> ValueCursor<'a> {
    /// A cursor over `buf` whose first value begins at `start_offset`.
    pub fn new(buf: &'a [u8], start_offset: usize) -> (r: ValueCursor<'a>)
        ensures
            r.view.buf@ == buf@,
            r.view.bytes_read == 0,
            r.offset == start_offset,
    {
        ValueCursor { view: MemoryView::new(buf), offset: start_offset }
    }

    /// Decodes the scalar return slot of statically known width at the
    /// cursor: clears the accumulator, reads the slot, and advances the
    /// offset by exactly the bytes the decode consumed.
    pub fn read_fixed_size(&mut self, layout: Layout) -> (v: Value)
        requires
            layout.is_scalar(),
            value_wf(old(self).view.buf@, old(self).offset as int, layout),
        ensures
            final(self).view.buf@ == old(self).view.buf@,
            v@ == value_model_of(old(self).view.buf@, old(self).offset as int, layout),
            final(self).offset == old(self).offset + value_size_of(
                old(self).view.buf@,
                old(self).offset as int,
                layout,
            ),
            final(self).view.bytes_read == layout.scalar_size(),
    {
        let buf_len: usize = self.view.buf.len();
        self.view.reset();
        let addr = self.offset;
        let v = match layout {
            Layout::Bool => Value::Bool(self.view.read_bool(addr)),
            Layout::U8 => Value::Uint(self.view.read_u8(addr) as u128),
            Layout::U16 => Value::Uint(self.view.read_u16(addr) as u128),
            Layout::U32 => Value::Uint(self.view.read_u32(addr) as u128),
            Layout::U64 => Value::Uint(self.view.read_u64(addr) as u128),
            Layout::U128 => Value::Uint(self.view.read_u128(addr)),
            Layout::I8 => Value::Int(self.view.read_i8(addr) as i128),
            Layout::I16 => Value::Int(self.view.read_i16(addr) as i128),
            Layout::I32 => Value::Int(self.view.read_i32(addr) as i128),
            Layout::I64 => Value::Int(self.view.read_i64(addr) as i128),
            Layout::I128 => Value::Int(self.view.read_i128(addr)),
            Layout::F32 => Value::F32Bits(self.view.read_u32(addr)),
            Layout::F64 => Value::F64Bits(self.view.read_u64(addr)),
            Layout::Str | Layout::Opaque { .. } => {
                proof {
                    assert(false);
                }
                Value::Bool(false)
            },
        };
        self.offset = self.offset + self.view.bytes_read;
        v
    }

    /// Decodes a return value whose shape only external layout metadata can
    /// interpret: clears the accumulator, hands back `size` bytes starting
    /// at the cursor undecoded, and advances the offset by the bytes the
    /// decode consumed. `size` itself is the hint callers pre-size buffers
    /// with; the advance comes from the accumulator.
    pub fn read_dynamic_size(&mut self, size: usize) -> (v: Value)
        requires
            old(self).offset + size <= old(self).view.buf@.len(),
        ensures
            final(self).view.buf@ == old(self).view.buf@,
            v@ == ValueModel::Opaque(
                old(self).view.buf@.subrange(
                    old(self).offset as int,
                    old(self).offset + size,
                ),
            ),
            final(self).offset == old(self).offset + size,
            final(self).view.bytes_read == size,
    {
        let ghost s = self.view.buf@;
        let buf_len: usize = self.view.buf.len();
        self.view.reset();
        let addr = self.offset;
        let mut out: Vec<u8> = Vec::new();
        let mut i: usize = 0;
        proof {
            assert(out@ =~= s.subrange(addr as int, addr as int));
        }
        while i < size
            invariant
                i <= size,
                addr + size <= s.len() <= usize::MAX,
                self.view.buf@ == s,
                self.offset == addr,
                self.view.bytes_read == i,
                out@ == s.subrange(addr as int, addr + i),
            decreases size - i,
        {
            let b = self.view.read_u8(addr + i);
            proof {
                lemma_word_of_byte(s, addr + i);
            }
            out.push(b);
            proof {
                assert(out@ =~= s.subrange(addr as int, addr + i + 1));
            }
            i = i + 1;
        }
        self.offset = self.offset + self.view.bytes_read;
        Value::Opaque(out)
    }

    /// Decodes a return value known to be a string. The fixed record is
    /// decoded like any dynamically sized value; in addition, when the
    /// record is large, the cursor peeks at the decoded length and advances
    /// past the heap payload packed after the record, so that the next
    /// value is read from the right place.
    pub fn read_heap_string_result(&mut self) -> (v: Value)
        requires
            str_wf(old(self).view.buf@, old(self).offset as int),
            old(self).offset + str_total_size(
                old(self).view.buf@,
                old(self).offset as int,
            ) <= usize::MAX,
        ensures
            final(self).view.buf@ == old(self).view.buf@,
            v@ == ValueModel::Str(str_content(old(self).view.buf@, old(self).offset as int)),
            final(self).offset == old(self).offset + str_total_size(
                old(self).view.buf@,
                old(self).offset as int,
            ),
            final(self).view.bytes_read == 24,
    {
        let ghost s = self.view.buf@;
        let buf_len: usize = self.view.buf.len();
        self.view.reset();
        let addr = self.offset;
        let probe = self.view.read_i8(addr + 23);
        proof {
            lemma_word_of_byte(s, addr + 23);
            lemma_pow256_values();
            assert((probe >= 0) == !str_is_small(s, addr as int));
        }
        let extra: usize = if probe >= 0 {
            let w = self.view.peek_word(addr + 8);
            w as usize
        } else {
            0
        };
        let bytes = self.view.read_str(addr);
        self.offset = self.offset + self.view.bytes_read;
        self.offset = self.offset + extra;
        Value::Str(bytes)
    }
}

/// One requested value: chooses the cursor operation that fits the layout
/// and decodes the value at the cursor.
pub fn reconstruct<'a>(cursor: &mut ValueCursor<'a>, layout: Layout) -> (v: Value)
    requires
        value_wf(old(cursor).view.buf@, old(cursor).offset as int, layout),
    ensures
        final(cursor).view.buf@ == old(cursor).view.buf@,
        v@ == value_model_of(old(cursor).view.buf@, old(cursor).offset as int, layout),
        final(cursor).offset == old(cursor).offset + value_size_of(
            old(cursor).view.buf@,
            old(cursor).offset as int,
            layout,
        ),
        old(cursor).offset <= final(cursor).offset,
{
    match layout {
        Layout::Str => cursor.read_heap_string_result(),
        Layout::Opaque { size } => cursor.read_dynamic_size(size),
        _ => cursor.read_fixed_size(layout),
    }
}

} // verus!
