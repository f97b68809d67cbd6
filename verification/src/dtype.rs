//! Scalar element types for graph tensors.
use vstd::prelude::*;

verus! {

/// Scalar element type carried by a tensor.
#[derive(Debug, Clone, Copy, PartialEq, Eq, Hash, Structural)]
pub enum DType {
    /// IEEE single-precision floating-point storage.
    F32,
    /// IEEE double-precision floating-point storage.
    F64,
    /// Signed 32-bit integer storage.
    I32,
    /// Signed 64-bit integer storage.
    I64,
    /// Boolean storage.
    Bool,
}

impl DType {
    /// Whether tensor arithmetic is defined on this element type.
    pub open spec fn numeric(self) -> bool {
        self != DType::Bool
    }

    /// The name of this element type.
    pub open spec fn text(self) -> Seq<char> {
        match self {
            DType::F32 => "f32"@,
            DType::F64 => "f64"@,
            DType::I32 => "i32"@,
            DType::I64 => "i64"@,
            DType::Bool => "bool"@,
        }
    }

    /// Returns whether this dtype is a floating-point storage type.
    #[must_use]
    pub fn is_float(&self) -> (r: bool)
        ensures
            r == (*self == DType::F32 || *self == DType::F64),
    {
        matches!(self, DType::F32 | DType::F64)
    }

    /// Returns whether this dtype supports numeric tensor operations.
    #[must_use]
    pub fn is_numeric(&self) -> (r: bool)
        ensures
            r == self.numeric(),
    {
        matches!(self, DType::F32 | DType::F64 | DType::I32 | DType::I64)
    }

    /// Returns the name of this element type.
    pub fn to_text(&self) -> (r: &'static str)
        ensures
            r@ == self.text(),
    {
        match self {
            DType::F32 => "f32",
            DType::F64 => "f64",
            DType::I32 => "i32",
            DType::I64 => "i64",
            DType::Bool => "bool",
        }
    }
}

} // verus!
