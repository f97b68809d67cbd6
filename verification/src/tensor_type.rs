//! Tensor type metadata for graph values.
use vstd::prelude::*;

use crate::dtype::DType;
use crate::shape::Shape;

verus! {

/// Tensor element dtype and logical shape.
#[derive(Debug, PartialEq, Eq, Hash)]
pub struct TensorType {
    pub dtype: DType,
    pub shape: Shape,
}

/// The contents of a [`TensorType`].
pub struct TypeView {
    pub dtype: DType,
    pub shape: Seq<nat>,
}

impl View for TensorType {
    type V = TypeView;

    open spec fn view(&self) -> TypeView {
        TypeView { dtype: self.dtype, shape: self.shape@ }
    }
}

impl Clone for TensorType {
    fn clone(&self) -> (r: Self)
        ensures
            r@ == self@,
    {
        TensorType { dtype: self.dtype, shape: self.shape.clone() }
    }
}

impl TensorType {
    /// Creates a tensor type.
    #[must_use]
    pub fn new(dtype: DType, shape: Shape) -> (r: Self)
        ensures
            r@ == (TypeView { dtype, shape: shape@ }),
            r.dtype == dtype,
            r.shape == shape,
    {
        TensorType { dtype, shape }
    }

    /// Returns the tensor element dtype.
    #[must_use]
    pub fn dtype(&self) -> (r: DType)
        ensures
            r == self@.dtype,
    {
        self.dtype
    }

    /// Returns the tensor logical shape.
    #[must_use]
    pub fn shape(&self) -> (r: &Shape)
        ensures
            *r == self.shape,
            r@ == self@.shape,
    {
        &self.shape
    }
}

} // verus!
