//! Layouts and reconstructed values.
//!
//! A [`Layout`] describes the in-memory shape of one requested variable's
//! type; a [`Value`] is the structured result of decoding that shape from
//! the buffer. [`ValueModel`] is the mathematical image of a [`Value`], and
//! [`value_model_of`] says which model each layout decodes to at a given
//! address.

use vstd::prelude::*;

use crate::memory::{
    signed_of, str_content, str_total_size, str_wf, word_of,
};

verus! {

/// The in-memory shape of a type, as supplied by the layout resolver.
#[derive(Clone, Copy, Debug, PartialEq, Eq, Structural)]
pub enum Layout {
    Bool,
    U8,
    U16,
    U32,
    U64,
    U128,
    I8,
    I16,
    I32,
    I64,
    I128,
    F32,
    F64,
    /// The three-word small/heap string record.
    Str,
    /// An aggregate of statically known size, handed back undecoded for a
    /// type-aware layer to interpret.
    Opaque { size: usize },
}

impl Layout {
    /// Whether the layout is a fixed-width scalar.
    pub open spec fn is_scalar(self) -> bool {
        !(self is Str) && !(self is Opaque)
    }

    /// The width table: bytes a scalar layout occupies.
    pub open spec fn scalar_size(self) -> nat {
        match self {
            Layout::Bool => 1,
            Layout::U8 => 1,
            Layout::U16 => 2,
            Layout::U32 => 4,
            Layout::U64 => 8,
            Layout::U128 => 16,
            Layout::I8 => 1,
            Layout::I16 => 2,
            Layout::I32 => 4,
            Layout::I64 => 8,
            Layout::I128 => 16,
            Layout::F32 => 4,
            Layout::F64 => 8,
            Layout::Str => 0,
            Layout::Opaque { .. } => 0,
        }
    }
}

/// A decoded value in the host's generic representation.
///
/// Floating-point slots are carried as their raw bit patterns; turning them
/// into host floats is left to unverified presentation code.
#[derive(Debug)]
pub enum Value {
    Bool(bool),
    Uint(u128),
    Int(i128),
    F32Bits(u32),
    F64Bits(u64),
    Str(Vec<u8>),
    Opaque(Vec<u8>),
}

/// The mathematical image of a [`Value`].
pub enum ValueModel {
    Bool(bool),
    Uint(nat),
    Int(int),
    F32Bits(nat),
    F64Bits(nat),
    Str(Seq<u8>),
    Opaque(Seq<u8>),
}

impl View for Value {
    type V = ValueModel;

    open spec fn view(&self) -> ValueModel {
        match self {
            Value::Bool(b) => ValueModel::Bool(*b),
            Value::Uint(v) => ValueModel::Uint(*v as nat),
            Value::Int(v) => ValueModel::Int(*v as int),
            Value::F32Bits(v) => ValueModel::F32Bits(*v as nat),
            Value::F64Bits(v) => ValueModel::F64Bits(*v as nat),
            Value::Str(v) => ValueModel::Str(v@),
            Value::Opaque(v) => ValueModel::Opaque(v@),
        }
    }
}

/// The model a scalar layout decodes to at `addr`.
pub open spec fn scalar_model_of(s: Seq<u8>, addr: int, l: Layout) -> ValueModel {
    match l {
        Layout::Bool => ValueModel::Bool(s[addr] == 1),
        Layout::U8 => ValueModel::Uint(word_of(s, addr, 1)),
        Layout::U16 => ValueModel::Uint(word_of(s, addr, 2)),
        Layout::U32 => ValueModel::Uint(word_of(s, addr, 4)),
        Layout::U64 => ValueModel::Uint(word_of(s, addr, 8)),
        Layout::U128 => ValueModel::Uint(word_of(s, addr, 16)),
        Layout::I8 => ValueModel::Int(signed_of(word_of(s, addr, 1), 1)),
        Layout::I16 => ValueModel::Int(signed_of(word_of(s, addr, 2), 2)),
        Layout::I32 => ValueModel::Int(signed_of(word_of(s, addr, 4), 4)),
        Layout::I64 => ValueModel::Int(signed_of(word_of(s, addr, 8), 8)),
        Layout::I128 => ValueModel::Int(signed_of(word_of(s, addr, 16), 16)),
        Layout::F32 => ValueModel::F32Bits(word_of(s, addr, 4)),
        Layout::F64 => ValueModel::F64Bits(word_of(s, addr, 8)),
        Layout::Str => arbitrary(),
        Layout::Opaque { .. } => arbitrary(),
    }
}

/// The model the value with layout `l` at `addr` decodes to.
pub open spec fn value_model_of(s: Seq<u8>, addr: int, l: Layout) -> ValueModel {
    match l {
        Layout::Str => ValueModel::Str(str_content(s, addr)),
        Layout::Opaque { size } => ValueModel::Opaque(s.subrange(addr, addr + size)),
        _ => scalar_model_of(s, addr, l),
    }
}

/// All bytes logically belonging to the value with layout `l` at `addr`:
/// its return slot, plus any trailing variable-length payload.
pub open spec fn value_size_of(s: Seq<u8>, addr: int, l: Layout) -> nat {
    match l {
        Layout::Str => str_total_size(s, addr),
        Layout::Opaque { size } => size as nat,
        _ => l.scalar_size(),
    }
}

/// The trust boundary for one value: it lies within the buffer and is well
/// formed, so that decoding it is defined.
pub open spec fn value_wf(s: Seq<u8>, addr: int, l: Layout) -> bool {
    &&& 0 <= addr
    &&& match l {
        Layout::Str => str_wf(s, addr) && addr + str_total_size(s, addr) <= usize::MAX,
        Layout::Opaque { size } => addr + size <= s.len(),
        Layout::Bool => addr + 1 <= s.len() && s[addr] <= 1,
        _ => addr + l.scalar_size() <= s.len(),
    }
}

} // verus!
