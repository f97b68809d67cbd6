//! Literal tensor payloads for constants.
use vstd::prelude::*;

use crate::dtype::DType;

verus! {

/// Row-major, logical tensor data.
///
/// Floating-point payloads are kept as their IEEE bit patterns.
#[derive(Debug)]
pub enum TensorData {
    /// Single-precision payload, one bit pattern per element.
    F32(Vec<u32>),
    /// Double-precision payload, one bit pattern per element.
    F64(Vec<u64>),
    /// 32-bit integer payload.
    I32(Vec<i32>),
    /// 64-bit integer payload.
    I64(Vec<i64>),
    /// Boolean payload.
    Bool(Vec<bool>),
}

/// The contents of a [`TensorData`].
pub enum DataView {
    F32(Seq<u32>),
    F64(Seq<u64>),
    I32(Seq<i32>),
    I64(Seq<i64>),
    Bool(Seq<bool>),
}

impl DataView {
    /// The element type of the payload.
    pub open spec fn dtype(self) -> DType {
        match self {
            DataView::F32(_) => DType::F32,
            DataView::F64(_) => DType::F64,
            DataView::I32(_) => DType::I32,
            DataView::I64(_) => DType::I64,
            DataView::Bool(_) => DType::Bool,
        }
    }

    /// The number of elements of the payload.
    pub open spec fn len(self) -> nat {
        match self {
            DataView::F32(v) => v.len(),
            DataView::F64(v) => v.len(),
            DataView::I32(v) => v.len(),
            DataView::I64(v) => v.len(),
            DataView::Bool(v) => v.len(),
        }
    }
}

impl View for TensorData {
    type V = DataView;

    open spec fn view(&self) -> DataView {
        match *self {
            TensorData::F32(v) => DataView::F32(v@),
            TensorData::F64(v) => DataView::F64(v@),
            TensorData::I32(v) => DataView::I32(v@),
            TensorData::I64(v) => DataView::I64(v@),
            TensorData::Bool(v) => DataView::Bool(v@),
        }
    }
}

impl Clone for TensorData {
    fn clone(&self) -> (r: Self)
        ensures
            r@ == self@,
    {
        match self {
            TensorData::F32(v) => TensorData::F32(copied(v)),
            TensorData::F64(v) => TensorData::F64(copied(v)),
            TensorData::I32(v) => TensorData::I32(copied(v)),
            TensorData::I64(v) => TensorData::I64(copied(v)),
            TensorData::Bool(v) => TensorData::Bool(copied(v)),
        }
    }
}

impl TensorData {
    /// Returns the dtype represented by this payload.
    #[must_use]
    pub fn dtype(&self) -> (r: DType)
        ensures
            r == self@.dtype(),
    {
        match self {
            TensorData::F32(_) => DType::F32,
            TensorData::F64(_) => DType::F64,
            TensorData::I32(_) => DType::I32,
            TensorData::I64(_) => DType::I64,
            TensorData::Bool(_) => DType::Bool,
        }
    }

    /// Returns the number of logical elements stored in this payload.
    #[must_use]
    pub fn len(&self) -> (r: usize)
        ensures
            r == self@.len(),
    {
        match self {
            TensorData::F32(v) => v.len(),
            TensorData::F64(v) => v.len(),
            TensorData::I32(v) => v.len(),
            TensorData::I64(v) => v.len(),
            TensorData::Bool(v) => v.len(),
        }
    }
}

/// Copies a vector of plain values.
pub fn copied<T: Copy>(items: &Vec<T>) -> (r: Vec<T>)
    ensures
        r@ == items@,
{
    let mut out: Vec<T> = Vec::new();
    let mut i: usize = 0;
    while i < items.len()
        invariant
            i <= items@.len(),
            out@ == items@.take(i as int),
        decreases items@.len() - i,
    {
        out.push(items[i]);
        proof {
            assert(items@.take(i as int + 1) =~= items@.take(i as int).push(items@[i as int]));
        }
        i += 1;
    }
    proof {
        assert(items@.take(i as int) =~= items@);
    }
    out
}

} // verus!
