//! The closed set of C-compatible types that can cross the call boundary,
//! and the values of those types.

use crate::buffer::CBuffer;
use crate::number::DecimalLiteral;
use vstd::prelude::*;

verus! {

/// How one value is laid out for a foreign call, and how a return slot is
/// read.
#[derive(Clone, Copy, Debug, PartialEq, Eq, Structural)]
pub enum TypeDescriptor {
    Int32,
    UInt32,
    Float32,
    Float64,
    Pointer,
    Void,
}

impl TypeDescriptor {
    /// Whether a value of this type can be passed as an argument: every
    /// type but `Void`, which describes a missing result only.
    pub open spec fn spec_is_argument(self) -> bool {
        self != TypeDescriptor::Void
    }

    pub fn is_argument(self) -> (r: bool)
        ensures
            r == self.spec_is_argument(),
    {
        !matches!(self, TypeDescriptor::Void)
    }
}

/// One argument of a call. A floating-point argument is held as the decimal
/// literal that spells it; a pointer argument owns the zero-terminated
/// buffer whose address is passed, so the buffer lives as long as the
/// argument does.
#[derive(Clone, Debug, PartialEq, Eq)]
pub enum ArgumentValue {
    Int32(i32),
    UInt32(u32),
    Float32(DecimalLiteral),
    Float64(DecimalLiteral),
    Pointer(CBuffer),
}

/// An argument as a mathematical value.
pub enum ArgumentView {
    Int32(i32),
    UInt32(u32),
    Float32(Seq<u8>),
    Float64(Seq<u8>),
    Pointer(Seq<u8>),
}

impl ArgumentView {
    /// The type that a value of this kind is passed as.
    pub open spec fn descriptor(self) -> TypeDescriptor {
        match self {
            ArgumentView::Int32(_) => TypeDescriptor::Int32,
            ArgumentView::UInt32(_) => TypeDescriptor::UInt32,
            ArgumentView::Float32(_) => TypeDescriptor::Float32,
            ArgumentView::Float64(_) => TypeDescriptor::Float64,
            ArgumentView::Pointer(_) => TypeDescriptor::Pointer,
        }
    }
}

impl View for ArgumentValue {
    type V = ArgumentView;

    open spec fn view(&self) -> ArgumentView {
        match self {
            ArgumentValue::Int32(v) => ArgumentView::Int32(*v),
            ArgumentValue::UInt32(v) => ArgumentView::UInt32(*v),
            ArgumentValue::Float32(v) => ArgumentView::Float32(v@),
            ArgumentValue::Float64(v) => ArgumentView::Float64(v@),
            ArgumentValue::Pointer(v) => ArgumentView::Pointer(v@),
        }
    }
}

impl ArgumentValue {
    /// The type that this value is passed as.
    pub fn descriptor(&self) -> (t: TypeDescriptor)
        ensures
            t == self@.descriptor(),
            t.spec_is_argument(),
    {
        match self {
            ArgumentValue::Int32(_) => TypeDescriptor::Int32,
            ArgumentValue::UInt32(_) => TypeDescriptor::UInt32,
            ArgumentValue::Float32(_) => TypeDescriptor::Float32,
            ArgumentValue::Float64(_) => TypeDescriptor::Float64,
            ArgumentValue::Pointer(_) => TypeDescriptor::Pointer,
        }
    }
}

/// What a call gave back, in the representation of the declared return
/// type. A floating-point result is held as the bits of its IEEE 754
/// encoding, a pointer as its address.
#[derive(Clone, Copy, Debug, PartialEq, Eq, Structural)]
pub enum ReturnValue {
    Int32(i32),
    UInt32(u32),
    Float32(u32),
    Float64(u64),
    Pointer(usize),
    Void,
}

impl ReturnValue {
    /// The return type that this value is a representation of.
    pub open spec fn spec_descriptor(self) -> TypeDescriptor {
        match self {
            ReturnValue::Int32(_) => TypeDescriptor::Int32,
            ReturnValue::UInt32(_) => TypeDescriptor::UInt32,
            ReturnValue::Float32(_) => TypeDescriptor::Float32,
            ReturnValue::Float64(_) => TypeDescriptor::Float64,
            ReturnValue::Pointer(_) => TypeDescriptor::Pointer,
            ReturnValue::Void => TypeDescriptor::Void,
        }
    }

    pub fn descriptor(self) -> (t: TypeDescriptor)
        ensures
            t == self.spec_descriptor(),
    {
        match self {
            ReturnValue::Int32(_) => TypeDescriptor::Int32,
            ReturnValue::UInt32(_) => TypeDescriptor::UInt32,
            ReturnValue::Float32(_) => TypeDescriptor::Float32,
            ReturnValue::Float64(_) => TypeDescriptor::Float64,
            ReturnValue::Pointer(_) => TypeDescriptor::Pointer,
            ReturnValue::Void => TypeDescriptor::Void,
        }
    }
}

} // verus!
