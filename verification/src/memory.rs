//! Byte-level view of the shared buffer.
//!
//! [`MemoryView`] exposes unaligned little-endian reads of fixed-width values
//! and of the three-word string record, and keeps the count of bytes consumed
//! by the decode currently in flight. Higher layers reset that accumulator
//! before each logical value and consult it afterwards to learn how many
//! bytes the value occupied.

use vstd::prelude::*;

verus! {

/// Size in bytes of one machine word of the target this crate models.
pub const WORD_SIZE: usize = 8;

/// Size in bytes of the three-word string record.
pub const STR_RECORD_SIZE: usize = 24;

/// Bytes a single `read_str` call adds to the accumulator, on either path.
pub const STR_READ_DELTA: usize = 23;

/// The little-endian value of the `n` bytes of `s` starting at `addr`.
pub open spec fn word_of(s: Seq<u8>, addr: int, n: nat) -> nat
    decreases n,
{
    if n == 0 {
        0
    } else {
        s[addr] as nat + 256 * word_of(s, addr + 1, (n - 1) as nat)
    }
}

/// `256^n`: one more than the largest value `n` bytes can hold.
pub open spec fn pow256(n: nat) -> nat
    decreases n,
{
    if n == 0 {
        1
    } else {
        256 * pow256((n - 1) as nat)
    }
}

/// The two's-complement reading of an `n`-byte unsigned value `v`.
pub open spec fn signed_of(v: nat, n: nat) -> int {
    if v < pow256(n) / 2 {
        v as int
    } else {
        v as int - pow256(n) as int
    }
}

/// The values of `pow256` at every width this crate reads.
pub proof fn lemma_pow256_values()
    ensures
        pow256(0) == 1,
        pow256(1) == 0x100,
        pow256(2) == 0x1_0000,
        pow256(4) == 0x1_0000_0000,
        pow256(8) == 0x1_0000_0000_0000_0000,
        pow256(15) == 0x1_0000_0000_0000_0000_0000_0000_0000_00,
        pow256(16) == 0x1_0000_0000_0000_0000_0000_0000_0000_0000,
{
    reveal_with_fuel(pow256, 17);
}

/// An `n`-byte word is below `256^n`.
pub proof fn lemma_word_of_bound(s: Seq<u8>, addr: int, n: nat)
    ensures
        word_of(s, addr, n) < pow256(n),
    decreases n,
{
    if n > 0 {
        lemma_word_of_bound(s, addr + 1, (n - 1) as nat);
    }
}

/// `pow256` grows with its argument.
pub proof fn lemma_pow256_monotonic(a: nat, b: nat)
    requires
        a <= b,
    ensures
        pow256(a) <= pow256(b),
    decreases b,
{
    if a < b {
        lemma_pow256_monotonic(a, (b - 1) as nat);
        assert(pow256(b) == 256 * pow256((b - 1) as nat));
    }
}

/// A one-byte word is the byte itself.
pub proof fn lemma_word_of_byte(s: Seq<u8>, addr: int)
    ensures
        word_of(s, addr, 1) == s[addr] as nat,
{
    assert(word_of(s, addr + 1, 0) == 0);
}

/// Whether the string record at `addr` uses the small (inline)
/// representation: the high bit of its last byte is set.
pub open spec fn str_is_small(s: Seq<u8>, addr: int) -> bool {
    s[addr + STR_RECORD_SIZE - 1] >= 128
}

/// The length a small string record stores in the low bits of its
/// discriminator byte.
pub open spec fn small_str_len(s: Seq<u8>, addr: int) -> nat {
    (s[addr + STR_RECORD_SIZE - 1] - 128) as nat
}

/// The absolute buffer offset of a large string record's heap payload
/// (its first header word).
pub open spec fn large_str_offset(s: Seq<u8>, addr: int) -> nat {
    word_of(s, addr, WORD_SIZE as nat)
}

/// The payload length in bytes of a large string record
/// (its second header word).
pub open spec fn large_str_len(s: Seq<u8>, addr: int) -> nat {
    word_of(s, addr + WORD_SIZE, WORD_SIZE as nat)
}

/// The trust boundary for one string record: the record lies in the buffer,
/// a small string fits the inline region, and a large string's payload lies
/// in the buffer.
pub open spec fn str_wf(s: Seq<u8>, addr: int) -> bool {
    &&& 0 <= addr
    &&& addr + STR_RECORD_SIZE <= s.len()
    &&& str_is_small(s, addr) ==> small_str_len(s, addr) + 2 <= STR_RECORD_SIZE
    &&& !str_is_small(s, addr) ==> large_str_offset(s, addr) + large_str_len(s, addr) <= s.len()
}

/// The UTF-8 bytes the string record at `addr` denotes.
pub open spec fn str_content(s: Seq<u8>, addr: int) -> Seq<u8> {
    if str_is_small(s, addr) {
        s.subrange(addr, addr + small_str_len(s, addr))
    } else {
        s.subrange(
            large_str_offset(s, addr) as int,
            (large_str_offset(s, addr) + large_str_len(s, addr)) as int,
        )
    }
}

/// All bytes logically belonging to the string value at `addr`: the fixed
/// record, plus the trailing heap payload of a large string.
pub open spec fn str_total_size(s: Seq<u8>, addr: int) -> nat {
    if str_is_small(s, addr) {
        STR_RECORD_SIZE as nat
    } else {
        STR_RECORD_SIZE as nat + large_str_len(s, addr)
    }
}

/// Law: small-string round trip. A record whose discriminator byte encodes
/// the inline length `len` decodes to exactly its first `len` bytes, and the
/// record occupies exactly its three words.
pub proof fn lemma_small_str_round_trip(s: Seq<u8>, addr: int, len: nat)
    requires
        0 <= addr,
        addr + 24 <= s.len(),
        len <= 22,
        s[addr + 23] == 128 + len,
    ensures
        str_wf(s, addr),
        str_content(s, addr) == s.subrange(addr, addr + len),
        str_total_size(s, addr) == 24,
{
}

/// Law: large-string round trip. A record whose discriminator bit is clear
/// decodes to the `len` payload bytes its header words point at, and the
/// value occupies the record plus that payload.
pub proof fn lemma_large_str_round_trip(s: Seq<u8>, addr: int)
    requires
        0 <= addr,
        addr + 24 <= s.len(),
        s[addr + 23] < 128,
        large_str_offset(s, addr) + large_str_len(s, addr) <= s.len(),
    ensures
        str_wf(s, addr),
        str_content(s, addr) == s.subrange(
            large_str_offset(s, addr) as int,
            (large_str_offset(s, addr) + large_str_len(s, addr)) as int,
        ),
        str_total_size(s, addr) == 24 + large_str_len(s, addr),
{
}

/// A byte-level accessor over the shared buffer.
///
/// `bytes_read` is the read accumulator: the number of bytes the decode
/// currently in flight has consumed. It is reset before each top-level
/// decode and inspected afterwards; only one decode is in flight against a
/// given view at a time.
pub struct MemoryView<'a> {
    pub buf: &'a [u8],
    pub bytes_read: usize,
}

impl<'a> MemoryView<'a> {
    /// A fresh view over `buf` with a cleared accumulator.
    pub fn new(buf: &'a [u8]) -> (r: MemoryView<'a>)
        ensures
            r.buf@ == buf@,
            r.bytes_read == 0,
    {
        MemoryView { buf, bytes_read: 0 }
    }

    /// Clears the accumulator before a new logical decode.
    pub fn reset(&mut self)
        ensures
            final(self).buf@ == old(self).buf@,
            final(self).bytes_read == 0,
    {
        self.bytes_read = 0;
    }

    /// The little-endian value of `n <= 16` bytes at `addr`, read without
    /// touching the accumulator.
    fn le_bytes(&self, addr: usize, n: usize) -> (v: u128)
        requires
            n <= 16,
            addr + n <= self.buf@.len(),
        ensures
            v as nat == word_of(self.buf@, addr as int, n as nat),
    {
        let ghost s = self.buf@;
        let buf_len: usize = self.buf.len();
        let mut v: u128 = 0;
        let mut j: usize = n;
        while j > 0
            invariant
                j <= n <= 16,
                addr + n <= s.len() <= usize::MAX,
                s == self.buf@,
                v as nat == word_of(s, addr + j, (n - j) as nat),
            decreases j,
        {
            j = j - 1;
            let b = self.buf[addr + j];
            proof {
                lemma_word_of_bound(s, addr + j + 1, (n - j - 1) as nat);
                lemma_pow256_monotonic((n - j - 1) as nat, 15);
                lemma_pow256_values();
                assert(v * 256 + b < 256 * pow256(15)) by {
                    assert(v < pow256(15));
                };
            }
            v = v * 256 + (b as u128);
        }
        v
    }

    /// Reads one byte at `addr` as a boolean; the accumulator grows by 1.
    /// A boolean slot holds 0 or 1; anything else is a layout mismatch.
    pub fn read_bool(&mut self, addr: usize) -> (r: bool)
        requires
            addr + 1 <= old(self).buf@.len(),
            old(self).bytes_read + 1 <= usize::MAX,
            old(self).buf@[addr as int] <= 1,
        ensures
            final(self).buf@ == old(self).buf@,
            final(self).bytes_read == old(self).bytes_read + 1,
            r == (old(self).buf@[addr as int] == 1),
    {
        let v = self.le_bytes(addr, 1);
        proof {
            lemma_word_of_byte(self.buf@, addr as int);
        }
        self.bytes_read = self.bytes_read + 1;
        v == 1
    }

    /// Reads one unsigned byte at `addr`; the accumulator grows by 1.
    pub fn read_u8(&mut self, addr: usize) -> (r: u8)
        requires
            addr + 1 <= old(self).buf@.len(),
            old(self).bytes_read + 1 <= usize::MAX,
        ensures
            final(self).buf@ == old(self).buf@,
            final(self).bytes_read == old(self).bytes_read + 1,
            r as nat == word_of(old(self).buf@, addr as int, 1),
    {
        let v = self.le_bytes(addr, 1);
        proof {
            lemma_word_of_bound(self.buf@, addr as int, 1);
            lemma_pow256_values();
        }
        self.bytes_read = self.bytes_read + 1;
        v as u8
    }

    /// Reads a 16-bit unsigned value at `addr`; the accumulator grows by 2.
    pub fn read_u16(&mut self, addr: usize) -> (r: u16)
        requires
            addr + 2 <= old(self).buf@.len(),
            old(self).bytes_read + 2 <= usize::MAX,
        ensures
            final(self).buf@ == old(self).buf@,
            final(self).bytes_read == old(self).bytes_read + 2,
            r as nat == word_of(old(self).buf@, addr as int, 2),
    {
        let v = self.le_bytes(addr, 2);
        proof {
            lemma_word_of_bound(self.buf@, addr as int, 2);
            lemma_pow256_values();
        }
        self.bytes_read = self.bytes_read + 2;
        v as u16
    }

    /// Reads a 32-bit unsigned value at `addr`; the accumulator grows by 4.
    pub fn read_u32(&mut self, addr: usize) -> (r: u32)
        requires
            addr + 4 <= old(self).buf@.len(),
            old(self).bytes_read + 4 <= usize::MAX,
        ensures
            final(self).buf@ == old(self).buf@,
            final(self).bytes_read == old(self).bytes_read + 4,
            r as nat == word_of(old(self).buf@, addr as int, 4),
    {
        let v = self.le_bytes(addr, 4);
        proof {
            lemma_word_of_bound(self.buf@, addr as int, 4);
            lemma_pow256_values();
        }
        self.bytes_read = self.bytes_read + 4;
        v as u32
    }

    /// Reads a 64-bit unsigned value at `addr`; the accumulator grows by 8.
    /// Pointer-sized values of the modeled target are read through this.
    pub fn read_u64(&mut self, addr: usize) -> (r: u64)
        requires
            addr + 8 <= old(self).buf@.len(),
            old(self).bytes_read + 8 <= usize::MAX,
        ensures
            final(self).buf@ == old(self).buf@,
            final(self).bytes_read == old(self).bytes_read + 8,
            r as nat == word_of(old(self).buf@, addr as int, 8),
    {
        let v = self.le_bytes(addr, 8);
        proof {
            lemma_word_of_bound(self.buf@, addr as int, 8);
            lemma_pow256_values();
        }
        self.bytes_read = self.bytes_read + 8;
        v as u64
    }

    /// Reads a 128-bit unsigned value at `addr`; the accumulator grows by 16.
    pub fn read_u128(&mut self, addr: usize) -> (r: u128)
        requires
            addr + 16 <= old(self).buf@.len(),
            old(self).bytes_read + 16 <= usize::MAX,
        ensures
            final(self).buf@ == old(self).buf@,
            final(self).bytes_read == old(self).bytes_read + 16,
            r as nat == word_of(old(self).buf@, addr as int, 16),
    {
        let v = self.le_bytes(addr, 16);
        self.bytes_read = self.bytes_read + 16;
        v
    }

    /// Reads a signed byte at `addr`; the accumulator grows by 1.
    pub fn read_i8(&mut self, addr: usize) -> (r: i8)
        requires
            addr + 1 <= old(self).buf@.len(),
            old(self).bytes_read + 1 <= usize::MAX,
        ensures
            final(self).buf@ == old(self).buf@,
            final(self).bytes_read == old(self).bytes_read + 1,
            r == signed_of(word_of(old(self).buf@, addr as int, 1), 1),
    {
        let v = self.le_bytes(addr, 1);
        proof {
            lemma_word_of_bound(self.buf@, addr as int, 1);
            lemma_pow256_values();
        }
        self.bytes_read = self.bytes_read + 1;
        if v < 0x80 {
            v as i8
        } else {
            let mag: u128 = 0x100 - v;
            -(mag as i16) as i8
        }
    }

    /// Reads a 16-bit signed value at `addr`; the accumulator grows by 2.
    pub fn read_i16(&mut self, addr: usize) -> (r: i16)
        requires
            addr + 2 <= old(self).buf@.len(),
            old(self).bytes_read + 2 <= usize::MAX,
        ensures
            final(self).buf@ == old(self).buf@,
            final(self).bytes_read == old(self).bytes_read + 2,
            r == signed_of(word_of(old(self).buf@, addr as int, 2), 2),
    {
        let v = self.le_bytes(addr, 2);
        proof {
            lemma_word_of_bound(self.buf@, addr as int, 2);
            lemma_pow256_values();
        }
        self.bytes_read = self.bytes_read + 2;
        if v < 0x8000 {
            v as i16
        } else {
            let mag: u128 = 0x1_0000 - v;
            -(mag as i32) as i16
        }
    }

    /// Reads a 32-bit signed value at `addr`; the accumulator grows by 4.
    pub fn read_i32(&mut self, addr: usize) -> (r: i32)
        requires
            addr + 4 <= old(self).buf@.len(),
            old(self).bytes_read + 4 <= usize::MAX,
        ensures
            final(self).buf@ == old(self).buf@,
            final(self).bytes_read == old(self).bytes_read + 4,
            r == signed_of(word_of(old(self).buf@, addr as int, 4), 4),
    {
        let v = self.le_bytes(addr, 4);
        proof {
            lemma_word_of_bound(self.buf@, addr as int, 4);
            lemma_pow256_values();
        }
        self.bytes_read = self.bytes_read + 4;
        if v < 0x8000_0000 {
            v as i32
        } else {
            let mag: u128 = 0x1_0000_0000 - v;
            -(mag as i64) as i32
        }
    }

    /// Reads a 64-bit signed value at `addr`; the accumulator grows by 8.
    pub fn read_i64(&mut self, addr: usize) -> (r: i64)
        requires
            addr + 8 <= old(self).buf@.len(),
            old(self).bytes_read + 8 <= usize::MAX,
        ensures
            final(self).buf@ == old(self).buf@,
            final(self).bytes_read == old(self).bytes_read + 8,
            r == signed_of(word_of(old(self).buf@, addr as int, 8), 8),
    {
        let v = self.le_bytes(addr, 8);
        proof {
            lemma_word_of_bound(self.buf@, addr as int, 8);
            lemma_pow256_values();
        }
        self.bytes_read = self.bytes_read + 8;
        if v < 0x8000_0000_0000_0000 {
            v as i64
        } else {
            let mag: u128 = 0x1_0000_0000_0000_0000 - v;
            -(mag as i128) as i64
        }
    }

    /// Reads a 128-bit signed value at `addr`; the accumulator grows by 16.
    pub fn read_i128(&mut self, addr: usize) -> (r: i128)
        requires
            addr + 16 <= old(self).buf@.len(),
            old(self).bytes_read + 16 <= usize::MAX,
        ensures
            final(self).buf@ == old(self).buf@,
            final(self).bytes_read == old(self).bytes_read + 16,
            r == signed_of(word_of(old(self).buf@, addr as int, 16), 16),
    {
        let v = self.le_bytes(addr, 16);
        proof {
            lemma_word_of_bound(self.buf@, addr as int, 16);
            lemma_pow256_values();
        }
        self.bytes_read = self.bytes_read + 16;
        if v < 0x8000_0000_0000_0000_0000_0000_0000_0000 {
            v as i128
        } else if v == 0x8000_0000_0000_0000_0000_0000_0000_0000 {
            i128::MIN
        } else {
            let mag: u128 = (u128::MAX - v) + 1;
            -(mag as i128)
        }
    }

    /// One machine word at `addr`, read without touching the accumulator.
    /// The cursor peeks at a large record's length word through this to know
    /// how far the trailing payload reaches.
    pub fn peek_word(&self, addr: usize) -> (r: u64)
        requires
            addr + 8 <= self.buf@.len(),
        ensures
            r as nat == word_of(self.buf@, addr as int, 8),
    {
        let v = self.le_bytes(addr, 8);
        proof {
            lemma_word_of_bound(self.buf@, addr as int, 8);
            lemma_pow256_values();
        }
        v as u64
    }

    /// Copies `len` buffer bytes starting at `from` into a fresh vector.
    fn copy_bytes(&self, from: usize, len: usize) -> (r: Vec<u8>)
        requires
            from + len <= self.buf@.len(),
        ensures
            r@ == self.buf@.subrange(from as int, from + len),
    {
        let ghost s = self.buf@;
        let buf_len: usize = self.buf.len();
        let mut out: Vec<u8> = Vec::new();
        let mut i: usize = 0;
        proof {
            assert(out@ =~= s.subrange(from as int, from as int));
        }
        while i < len
            invariant
                i <= len,
                from + len <= s.len() <= usize::MAX,
                s == self.buf@,
                out@ == s.subrange(from as int, from + i),
            decreases len - i,
        {
            out.push(self.buf[from + i]);
            proof {
                assert(out@ =~= s.subrange(from as int, from + i + 1));
            }
            i = i + 1;
        }
        out
    }

    /// Decodes the three-word string record at `addr` and returns the
    /// string's UTF-8 bytes.
    ///
    /// Probing the discriminator byte counts 1; either representation then
    /// brings the call's accumulator total to `3 * WORD_SIZE - 1` bytes, the
    /// same on both paths, so that offset arithmetic downstream is uniform.
    /// On the large path the three header words overlap the byte the probe
    /// already counted, and their count is corrected to keep that total.
    pub fn read_str(&mut self, addr: usize) -> (r: Vec<u8>)
        requires
            str_wf(old(self).buf@, addr as int),
            old(self).bytes_read + STR_READ_DELTA <= usize::MAX,
        ensures
            final(self).buf@ == old(self).buf@,
            final(self).bytes_read == old(self).bytes_read + STR_READ_DELTA,
            r@ == str_content(old(self).buf@, addr as int),
    {
        let ghost s = self.buf@;
        let buf_len: usize = self.buf.len();
        let probe = self.read_i8(addr + 23);
        proof {
            lemma_word_of_byte(s, addr + 23);
            lemma_pow256_values();
            assert((probe < 0) == str_is_small(s, addr as int));
        }
        if probe < 0 {
            // Small: the discriminator's low bits carry the inline length.
            let len = (probe as i32 + 128) as usize;
            proof {
                assert(len == small_str_len(s, addr as int));
            }
            let out = self.copy_bytes(addr, len);
            self.bytes_read = self.bytes_read + 22;
            out
        } else {
            // Large: offset, length and (read but ignored) capacity words.
            let w_offset = self.le_bytes(addr, 8);
            let w_length = self.le_bytes(addr + 8, 8);
            let _w_capacity = self.le_bytes(addr + 16, 8);
            self.bytes_read = self.bytes_read + 22;
            let out = self.copy_bytes(w_offset as usize, w_length as usize);
            out
        }
    }
}

} // verus!
