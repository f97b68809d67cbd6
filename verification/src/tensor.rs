//! Runtime tensor values.
use vstd::prelude::*;

use crate::data::{copied, DataView, TensorData};
use crate::domain::{Domain, Exact};
use crate::dtype::DType;
use crate::eval::{EvalError, EvalErrorView};
use crate::float::{
    finite32, finite64, from_int64, int_double, is_finite32, is_finite64, is_nan64, nan64,
    negative32, negative64, rounded_int, value32, value64, wide_double, widen32,
};
use crate::rational::Rational;
use crate::shape::{checked_numel, numel, numel_fits, Shape};
use crate::value_laws::doubles_keep_the_numbers;

verus! {

/// Runtime tensor value with row-major data.
#[derive(Debug, PartialEq)]
pub struct DenseTensor<E> {
    pub(crate) shape: Shape,
    pub(crate) data: Vec<E>,
}

/// A tensor of exact rationals.
pub type Tensor = DenseTensor<Rational>;

/// A tensor of IEEE doubles, held as bit patterns.
pub type TensorF64 = DenseTensor<u64>;

/// The contents of a tensor.
pub struct TensorView<V> {
    pub shape: Seq<nat>,
    pub data: Seq<V>,
}

impl<V> TensorView<V> {
    /// The data fills the shape.
    pub open spec fn filled(self) -> bool {
        numel_fits(self.shape) && self.data.len() == numel(self.shape)
    }
}

impl<E> View for DenseTensor<E> {
    type V = TensorView<E>;

    open(crate) spec fn view(&self) -> TensorView<E> {
        TensorView { shape: self.shape@, data: self.data@ }
    }
}

/// What the elements of the tensor stand for.
pub open spec fn meaning<D: Domain>(t: TensorView<D::Elem>) -> TensorView<D::V> {
    TensorView { shape: t.shape, data: t.data.map_values(|e: D::Elem| D::value(e)) }
}

/// Why `len` elements do not fill a shape.
pub open spec fn size_error(shape: Seq<nat>, len: nat) -> Option<EvalErrorView> {
    match checked_numel(shape) {
        Err(_) => Some(EvalErrorView::Internal("shape element count overflow"@)),
        Ok(expected) => if expected != len {
            Some(EvalErrorView::DataShapeMismatch { expected, got: len as usize })
        } else {
            None
        },
    }
}

/// A tensor of the given shape and data, or why there is none.
pub open spec fn shaped<V>(shape: Seq<nat>, data: Seq<V>) -> Result<
    TensorView<V>,
    EvalErrorView,
> {
    match size_error(shape, data.len()) {
        Some(e) => Err(e),
        None => Ok(TensorView { shape, data }),
    }
}

/// No element is an infinity or a NaN.
pub open spec fn singles_finite(v: Seq<u32>) -> bool {
    forall|i: int| 0 <= i < v.len() ==> finite32(#[trigger] v[i])
}

/// No element is an infinity or a NaN.
pub open spec fn doubles_finite(v: Seq<u64>) -> bool {
    forall|i: int| 0 <= i < v.len() ==> finite64(#[trigger] v[i])
}

/// Why a payload has no numeric value: it is boolean, or an element is not finite.
pub open spec fn data_error(data: DataView) -> Option<EvalErrorView> {
    match data {
        DataView::Bool(_) => Some(EvalErrorView::UnsupportedDtype { dtype: DType::Bool }),
        DataView::F32(v) => if singles_finite(v) {
            None
        } else {
            Some(EvalErrorView::NonFiniteFloat)
        },
        DataView::F64(v) => if doubles_finite(v) {
            None
        } else {
            Some(EvalErrorView::NonFiniteFloat)
        },
        _ => None,
    }
}

/// The scalars of a numeric payload.
pub open spec fn lifted<D: Domain>(data: DataView) -> Seq<D::V> {
    match data {
        DataView::F32(v) => v.map_values(|b: u32| D::single_value(b)),
        DataView::F64(v) => v.map_values(|b: u64| D::double_value(b)),
        DataView::I32(v) => v.map_values(|i: i32| D::int_value(i as int)),
        DataView::I64(v) => v.map_values(|i: i64| D::int_value(i as int)),
        DataView::Bool(_) => Seq::empty(),
    }
}

/// The double of each element of a numeric payload: floats keep their number and sign, integers
/// are rounded to the nearest double.
pub open spec fn doubles_of(data: DataView) -> Seq<u64> {
    match data {
        DataView::F32(v) => v.map_values(|b: u32| wide_double(b)),
        DataView::F64(v) => v,
        DataView::I32(v) => v.map_values(|i: i32| int_double(i as int)),
        DataView::I64(v) => v.map_values(|i: i64| int_double(i as int)),
        DataView::Bool(_) => Seq::empty(),
    }
}

/// The numbers are those of the payload's elements, one by one.
pub open spec fn holds_numbers(numbers: Seq<real>, data: DataView) -> bool {
    &&& numbers.len() == data.len()
    &&& forall|i: int|
        0 <= i < numbers.len() ==> #[trigger] numbers[i] == match data {
            DataView::I32(v) => (v[i] as int) as real,
            DataView::I64(v) => (v[i] as int) as real,
            DataView::F32(v) => value32(v[i]),
            DataView::F64(v) => value64(v[i]),
            DataView::Bool(_) => 0real,
        }
}

/// The doubles are those of the payload's elements, one by one: floats and 32-bit integers keep
/// their number, 64-bit integers are rounded to 53 bits, and all keep their sign.
pub open spec fn holds_doubles(bits: Seq<u64>, data: DataView) -> bool {
    &&& bits.len() == data.len()
    &&& forall|i: int|
        0 <= i < bits.len() ==> match data {
            DataView::I32(v) => value64(#[trigger] bits[i]) == (v[i] as int) as real && negative64(
                bits[i],
            ) == (v[i] < 0),
            DataView::I64(v) => value64(bits[i]) == rounded_int(v[i] as int) as real && negative64(
                bits[i],
            ) == (v[i] < 0),
            DataView::F32(v) => value64(bits[i]) == value32(v[i]) && negative64(bits[i])
                == negative32(v[i]),
            DataView::F64(v) => bits[i] == v[i],
            DataView::Bool(_) => false,
        }
}

fn all_finite32(values: &Vec<u32>) -> (r: bool)
    ensures
        r == singles_finite(values@),
{
    let mut i: usize = 0;
    while i < values.len()
        invariant
            i <= values@.len(),
            forall|j: int| 0 <= j < i ==> finite32(#[trigger] values@[j]),
        decreases values@.len() - i,
    {
        if !is_finite32(values[i]) {
            assert(!finite32(values@[i as int]));
            return false;
        }
        i += 1;
    }
    true
}

fn all_finite64(values: &Vec<u64>) -> (r: bool)
    ensures
        r == doubles_finite(values@),
{
    let mut i: usize = 0;
    while i < values.len()
        invariant
            i <= values@.len(),
            forall|j: int| 0 <= j < i ==> finite64(#[trigger] values@[j]),
        decreases values@.len() - i,
    {
        if !is_finite64(values[i]) {
            assert(!finite64(values@[i as int]));
            return false;
        }
        i += 1;
    }
    true
}

/// Finds why a payload has no numeric value.
pub(crate) fn data_problem(data: &TensorData) -> (r: Option<EvalError>)
    ensures
        match r {
            Some(e) => data_error(data@) == Some(e@),
            None => data_error(data@) is None,
        },
{
    match data {
        TensorData::Bool(_) => Some(EvalError::UnsupportedDtype { dtype: DType::Bool }),
        TensorData::F32(values) => if all_finite32(values) {
            None
        } else {
            Some(EvalError::NonFiniteFloat)
        },
        TensorData::F64(values) => if all_finite64(values) {
            None
        } else {
            Some(EvalError::NonFiniteFloat)
        },
        _ => None,
    }
}

/// Returns the scalars of a numeric payload.
pub(crate) fn lift<D: Domain>(data: &TensorData) -> (r: Vec<D::Elem>)
    requires
        data_error(data@) is None,
    ensures
        r@.map_values(|e: D::Elem| D::value(e)) == lifted::<D>(data@),
        r@.len() == data@.len(),
{
    let n: usize = data.len();
    let mut out: Vec<D::Elem> = Vec::new();
    let mut i: usize = 0;
    while i < n
        invariant
            i <= n,
            n == data@.len(),
            data_error(data@) is None,
            out@.len() == i,
            forall|j: int| 0 <= j < i ==> D::value(#[trigger] out@[j]) == lifted::<D>(data@)[j],
        decreases n - i,
    {
        let e: D::Elem = match data {
            TensorData::F32(values) => {
                assert(finite32(values@[i as int]));
                D::from_single(values[i])
            }
            TensorData::F64(values) => {
                assert(finite64(values@[i as int]));
                D::from_double(values[i])
            }
            TensorData::I32(values) => D::from_int(values[i] as i64),
            TensorData::I64(values) => D::from_int(values[i]),
            TensorData::Bool(_) => D::zero(),
        };
        assert(D::value(e) == lifted::<D>(data@)[i as int]);
        out.push(e);
        i += 1;
    }
    proof {
        assert(lifted::<D>(data@).len() == data@.len());
        assert(out@.map_values(|e: D::Elem| D::value(e)) =~= lifted::<D>(data@));
    }
    out
}

/// Returns the doubles of a numeric payload.
fn doubles(data: &TensorData) -> (r: Vec<u64>)
    requires
        data_error(data@) is None,
    ensures
        r@ == doubles_of(data@),
        r@.len() == data@.len(),
        doubles_finite(r@),
{
    let n: usize = data.len();
    let mut out: Vec<u64> = Vec::new();
    let mut i: usize = 0;
    while i < n
        invariant
            i <= n,
            n == data@.len(),
            data_error(data@) is None,
            out@.len() == i,
            forall|j: int|
                0 <= j < i ==> #[trigger] out@[j] == doubles_of(data@)[j] && finite64(out@[j]),
        decreases n - i,
    {
        let bits: u64 = match data {
            TensorData::F32(values) => {
                assert(finite32(values@[i as int]));
                widen32(values[i])
            }
            TensorData::F64(values) => {
                assert(finite64(values@[i as int]));
                values[i]
            }
            TensorData::I32(values) => from_int64(values[i] as i64),
            TensorData::I64(values) => from_int64(values[i]),
            TensorData::Bool(_) => 0,
        };
        assert(bits == doubles_of(data@)[i as int]);
        out.push(bits);
        i += 1;
    }
    proof {
        assert(doubles_of(data@).len() == data@.len());
        assert(out@ =~= doubles_of(data@));
    }
    out
}

/// Copies the elements of a tensor.
pub(crate) fn copy_all<D: Domain>(items: &Vec<D::Elem>) -> (r: Vec<D::Elem>)
    ensures
        r@.len() == items@.len(),
        r@.map_values(|e: D::Elem| D::value(e)) == items@.map_values(|e: D::Elem| D::value(e)),
{
    let mut out: Vec<D::Elem> = Vec::new();
    let mut i: usize = 0;
    while i < items.len()
        invariant
            i <= items@.len(),
            out@.len() == i,
            forall|j: int| 0 <= j < i ==> D::value(#[trigger] out@[j]) == D::value(items@[j]),
        decreases items@.len() - i,
    {
        out.push(D::copy(&items[i]));
        i += 1;
    }
    proof {
        let f = |e: D::Elem| D::value(e);
        assert(out@.map_values(f) =~= items@.map_values(f));
    }
    out
}

/// Copies a tensor.
pub(crate) fn copy_tensor<D: Domain>(t: &DenseTensor<D::Elem>) -> (r: DenseTensor<D::Elem>)
    ensures
        meaning::<D>(r@) == meaning::<D>(t@),
{
    proof {
        use_type_invariant(t);
    }
    DenseTensor { shape: t.shape.clone(), data: copy_all::<D>(&t.data) }
}

impl Clone for DenseTensor<Rational> {
    fn clone(&self) -> (r: Self)
        ensures
            meaning::<Exact>(r@) == meaning::<Exact>(self@),
    {
        copy_tensor::<Exact>(self)
    }
}

impl Clone for DenseTensor<u64> {
    fn clone(&self) -> (r: Self)
        ensures
            r@ == self@,
    {
        proof {
            use_type_invariant(self);
        }
        DenseTensor { shape: self.shape.clone(), data: crate::data::copied(&self.data) }
    }
}

impl<E> DenseTensor<E> {
    /// The data fills the shape.
    #[verifier::type_invariant]
    pub open(crate) spec fn filled(self) -> bool {
        numel_fits(self.shape@) && self.data@.len() == numel(self.shape@)
    }

    /// Creates a tensor from a shape and row-major data.
    ///
    /// # Errors
    ///
    /// Returns [`EvalError::DataShapeMismatch`] if the data length does not
    /// match the shape element count.
    pub fn new(shape: Shape, data: Vec<E>) -> (r: Result<Self, EvalError>)
        ensures
            match r {
                Ok(t) => shaped(shape@, data@) == Ok::<TensorView<E>, EvalErrorView>(t@),
                Err(e) => shaped(shape@, data@) == Err::<TensorView<E>, EvalErrorView>(e@),
            },
    {
        let expected: usize = match shape.numel() {
            Ok(expected) => expected,
            Err(_) => {
                return Err(EvalError::Internal(String::from_str("shape element count overflow")));
            }
        };
        let got: usize = data.len();
        if expected != got {
            return Err(EvalError::DataShapeMismatch { expected, got });
        }
        proof {
            crate::shape::lemma_numel_fits_prefix(shape@, 0);
        }
        Ok(DenseTensor { shape, data })
    }

    /// Returns this tensor's logical shape.
    #[must_use]
    pub fn shape(&self) -> (r: &Shape)
        ensures
            r@ == self@.shape,
            self@.filled(),
    {
        proof {
            use_type_invariant(self);
        }
        &self.shape
    }

    /// Returns this tensor's row-major data.
    #[must_use]
    pub fn data(&self) -> (r: &[E])
        ensures
            r@ == self@.data,
    {
        self.data.as_slice()
    }

    /// Returns this tensor's element count.
    #[must_use]
    pub fn numel(&self) -> (r: usize)
        ensures
            r == numel(self@.shape),
            r == self@.data.len(),
    {
        proof {
            use_type_invariant(self);
        }
        self.data.len()
    }
}

impl DenseTensor<Rational> {
    /// Losslessly lifts tensor data into exact rationals.
    ///
    /// Integers keep their value. Finite floats become their exact dyadic
    /// value. Booleans are rejected.
    ///
    /// # Errors
    ///
    /// Returns [`EvalError`] if a float is not finite, the dtype is
    /// unsupported, or the payload length mismatches the shape.
    pub fn from_data(data: &TensorData, shape: &Shape) -> (r: Result<Tensor, EvalError>)
        ensures
            match r {
                Ok(t) => data_error(data@) is None && shaped(shape@, lifted::<Exact>(data@)) == Ok::<
                    TensorView<real>,
                    EvalErrorView,
                >(meaning::<Exact>(t@)),
                Err(e) => data_error(data@) == Some(e@) || (data_error(data@) is None && shaped(
                    shape@,
                    lifted::<Exact>(data@),
                ) == Err::<TensorView<real>, EvalErrorView>(e@)),
            },
            r is Ok ==> holds_numbers(meaning::<Exact>(r->Ok_0@).data, data@),
    {
        match data_problem(data) {
            Some(e) => Err(e),
            None => DenseTensor::new(shape.clone(), lift::<Exact>(data)),
        }
    }

    /// Returns whether two tensors have the same shape and numbers.
    pub fn same(&self, other: &Tensor) -> (r: bool)
        ensures
            r == (meaning::<Exact>(self@) == meaning::<Exact>(other@)),
    {
        let ghost a = meaning::<Exact>(self@);
        let ghost b = meaning::<Exact>(other@);
        if !self.shape.same(&other.shape) {
            return false;
        }
        if self.data.len() != other.data.len() {
            assert(a.data.len() != b.data.len());
            return false;
        }
        let mut i: usize = 0;
        while i < self.data.len()
            invariant
                i <= self@.data.len(),
                self@.data.len() == other@.data.len(),
                a == meaning::<Exact>(self@),
                b == meaning::<Exact>(other@),
                forall|j: int| 0 <= j < i ==> a.data[j] == b.data[j],
            decreases self@.data.len() - i,
        {
            if !self.data[i].same(&other.data[i]) {
                assert(a.data[i as int] != b.data[i as int]);
                return false;
            }
            assert(a.data[i as int] == b.data[i as int]);
            i += 1;
        }
        assert(a.data =~= b.data);
        true
    }

    /// Losslessly lifts doubles, given as bit patterns, into exact rationals.
    ///
    /// # Errors
    ///
    /// Returns [`EvalError`] if a float is not finite or the payload length
    /// mismatches the shape.
    pub fn from_f64(shape: Shape, values: &[u64]) -> (r: Result<Tensor, EvalError>)
        ensures
            ({
                let data = DataView::F64(values@);
                match r {
                    Ok(t) => data_error(data) is None && shaped(shape@, lifted::<Exact>(data))
                        == Ok::<TensorView<real>, EvalErrorView>(meaning::<Exact>(t@)),
                    Err(e) => data_error(data) == Some(e@) || (data_error(data) is None && shaped(
                        shape@,
                        lifted::<Exact>(data),
                    ) == Err::<TensorView<real>, EvalErrorView>(e@)),
                }
            }),
    {
        let mut bits: Vec<u64> = Vec::new();
        let mut i: usize = 0;
        while i < values.len()
            invariant
                i <= values@.len(),
                bits@ == values@.take(i as int),
            decreases values@.len() - i,
        {
            bits.push(values[i]);
            proof {
                assert(values@.take(i as int + 1) =~= values@.take(i as int).push(
                    values@[i as int],
                ));
            }
            i += 1;
        }
        proof {
            assert(values@.take(i as int) =~= values@);
        }
        Tensor::from_data(&TensorData::F64(bits), &shape)
    }

    /// Losslessly lifts `i64` values into exact rationals.
    ///
    /// # Errors
    ///
    /// Returns [`EvalError::DataShapeMismatch`] if the payload length does not
    /// match the shape element count.
    pub fn from_i64(shape: Shape, values: &[i64]) -> (r: Result<Tensor, EvalError>)
        ensures
            match r {
                Ok(t) => shaped(shape@, values@.map_values(|v: i64| v as real)) == Ok::<
                    TensorView<real>,
                    EvalErrorView,
                >(meaning::<Exact>(t@)),
                Err(e) => shaped(shape@, values@.map_values(|v: i64| v as real)) == Err::<
                    TensorView<real>,
                    EvalErrorView,
                >(e@),
            },
    {
        let mut data: Vec<Rational> = Vec::new();
        let mut i: usize = 0;
        while i < values.len()
            invariant
                i <= values@.len(),
                data@.len() == i,
                forall|j: int| 0 <= j < i ==> (#[trigger] data@[j]).value() == values@[j] as real,
            decreases values@.len() - i,
        {
            data.push(Rational::from_integer(values[i]));
            i += 1;
        }
        proof {
            assert(data@.map_values(|e: Rational| Exact::value(e)) =~= values@.map_values(
                |v: i64| v as real,
            ));
        }
        DenseTensor::new(shape, data)
    }
}

/// Returns whether two lists of tensors have the same shapes and numbers.
pub fn same_tensors(left: &Vec<Tensor>, right: &Vec<Tensor>) -> (r: bool)
    ensures
        r == (left@.map_values(|t: Tensor| meaning::<Exact>(t@)) == right@.map_values(
            |t: Tensor| meaning::<Exact>(t@),
        )),
{
    let ghost a = left@.map_values(|t: Tensor| meaning::<Exact>(t@));
    let ghost b = right@.map_values(|t: Tensor| meaning::<Exact>(t@));
    if left.len() != right.len() {
        assert(a.len() != b.len());
        return false;
    }
    let mut i: usize = 0;
    while i < left.len()
        invariant
            i <= left@.len(),
            left@.len() == right@.len(),
            a == left@.map_values(|t: Tensor| meaning::<Exact>(t@)),
            b == right@.map_values(|t: Tensor| meaning::<Exact>(t@)),
            forall|j: int| 0 <= j < i ==> a[j] == b[j],
        decreases left@.len() - i,
    {
        if !left[i].same(&right[i]) {
            assert(a[i as int] != b[i as int]);
            return false;
        }
        assert(a[i as int] == b[i as int]);
        i += 1;
    }
    assert(a =~= b);
    true
}

/// Two doubles with the same bits, or both NaN.
pub open spec fn bits_agree(a: u64, b: u64) -> bool {
    a == b || (nan64(a) && nan64(b))
}

/// Equal shapes and agreeing bits throughout.
pub open spec fn tensors_bit_equal(a: TensorView<u64>, b: TensorView<u64>) -> bool {
    &&& a.shape == b.shape
    &&& a.data.len() == b.data.len()
    &&& forall|i: int| 0 <= i < a.data.len() ==> bits_agree(#[trigger] a.data[i], b.data[i])
}

proof fn lemma_holds_doubles(data: DataView)
    requires
        data_error(data) is None,
    ensures
        holds_doubles(doubles_of(data), data),
{
    let bits = doubles_of(data);
    if data.len() > 0 {
        doubles_keep_the_numbers(data, 0);
    }
    assert forall|i: int| 0 <= i < bits.len() implies match data {
        DataView::I32(v) => value64(#[trigger] bits[i]) == (v[i] as int) as real && negative64(
            bits[i],
        ) == (v[i] < 0),
        DataView::I64(v) => value64(bits[i]) == rounded_int(v[i] as int) as real && negative64(
            bits[i],
        ) == (v[i] < 0),
        DataView::F32(v) => value64(bits[i]) == value32(v[i]) && negative64(bits[i]) == negative32(
            v[i],
        ),
        DataView::F64(v) => bits[i] == v[i],
        DataView::Bool(_) => false,
    } by {
        doubles_keep_the_numbers(data, i);
    }
}

impl DenseTensor<u64> {
    /// Lifts tensor data into doubles.
    ///
    /// Integers are rounded to the nearest double, which is exact up to 2^53.
    /// Singles are widened exactly. Floating constants must be finite, and
    /// booleans are rejected.
    ///
    /// # Errors
    ///
    /// Returns [`EvalError`] if a float is not finite, the dtype is
    /// unsupported, or the payload length mismatches the shape.
    pub fn from_data(data: &TensorData, shape: &Shape) -> (r: Result<TensorF64, EvalError>)
        ensures
            match r {
                Ok(t) => data_error(data@) is None && doubles_finite(t@.data) && shaped(
                    shape@,
                    doubles_of(data@),
                ) == Ok::<TensorView<u64>, EvalErrorView>(t@),
                Err(e) => data_error(data@) == Some(e@) || (data_error(data@) is None && shaped(
                    shape@,
                    doubles_of(data@),
                ) == Err::<TensorView<u64>, EvalErrorView>(e@)),
            },
            r is Ok ==> holds_doubles(r->Ok_0@.data, data@),
    {
        proof {
            if data_error(data@) is None {
                lemma_holds_doubles(data@);
            }
        }
        match data_problem(data) {
            Some(e) => Err(e),
            None => {
                let bits = doubles(data);
                DenseTensor::new(shape.clone(), bits)
            }
        }
    }

    /// Creates a tensor of doubles, given as bit patterns.
    ///
    /// Inputs may hold NaN or infinities. The payload is only checked against
    /// the supplied shape.
    ///
    /// # Errors
    ///
    /// Returns [`EvalError::DataShapeMismatch`] if the payload length does not
    /// match the shape element count.
    pub fn from_f64(shape: Shape, values: &[u64]) -> (r: Result<TensorF64, EvalError>)
        ensures
            match r {
                Ok(t) => shaped(shape@, values@) == Ok::<TensorView<u64>, EvalErrorView>(t@),
                Err(e) => shaped(shape@, values@) == Err::<TensorView<u64>, EvalErrorView>(e@),
            },
    {
        let mut bits: Vec<u64> = Vec::new();
        let mut i: usize = 0;
        while i < values.len()
            invariant
                i <= values@.len(),
                bits@ == values@.take(i as int),
            decreases values@.len() - i,
        {
            bits.push(values[i]);
            proof {
                assert(values@.take(i as int + 1) =~= values@.take(i as int).push(
                    values@[i as int],
                ));
            }
            i += 1;
        }
        proof {
            assert(values@.take(i as int) =~= values@);
        }
        DenseTensor::new(shape, bits)
    }

    /// Creates a tensor of doubles by rounding integers.
    ///
    /// # Errors
    ///
    /// Returns [`EvalError::DataShapeMismatch`] if the payload length does not
    /// match the shape element count.
    pub fn from_i64(shape: Shape, values: &[i64]) -> (r: Result<TensorF64, EvalError>)
        ensures
            match r {
                Ok(t) => shaped(shape@, doubles_of(DataView::I64(values@))) == Ok::<
                    TensorView<u64>,
                    EvalErrorView,
                >(t@),
                Err(e) => shaped(shape@, doubles_of(DataView::I64(values@))) == Err::<
                    TensorView<u64>,
                    EvalErrorView,
                >(e@),
            },
            r is Ok ==> holds_doubles(r->Ok_0@.data, DataView::I64(values@)),
    {
        proof {
            lemma_holds_doubles(DataView::I64(values@));
        }
        let ghost want = doubles_of(DataView::I64(values@));
        let mut bits: Vec<u64> = Vec::new();
        let mut i: usize = 0;
        while i < values.len()
            invariant
                i <= values@.len(),
                bits@.len() == i,
                want == doubles_of(DataView::I64(values@)),
                forall|j: int| 0 <= j < i ==> #[trigger] bits@[j] == want[j],
            decreases values@.len() - i,
        {
            bits.push(from_int64(values[i]));
            i += 1;
        }
        proof {
            assert(bits@ =~= want);
        }
        DenseTensor::new(shape, bits)
    }

    /// Compares two tensors bit for bit.
    ///
    /// Shapes must match. Any NaN equals any other NaN, whatever its payload.
    /// Signed zero remains significant.
    #[must_use]
    pub fn bit_eq(&self, other: &TensorF64) -> (r: bool)
        ensures
            r == tensors_bit_equal(self@, other@),
    {
        if !self.shape.same(&other.shape) || self.data.len() != other.data.len() {
            return false;
        }
        let mut i: usize = 0;
        while i < self.data.len()
            invariant
                i <= self@.data.len(),
                self@.data.len() == other@.data.len(),
                forall|j: int|
                    0 <= j < i ==> bits_agree(#[trigger] self@.data[j], other@.data[j]),
            decreases self@.data.len() - i,
        {
            let a: u64 = self.data[i];
            let b: u64 = other.data[i];
            if !(a == b || (is_nan64(a) && is_nan64(b))) {
                assert(!bits_agree(self@.data[i as int], other@.data[i as int]));
                return false;
            }
            i += 1;
        }
        true
    }
}

/// Pairwise bit equality of two lists of tensors.
pub open spec fn all_bit_equal(a: Seq<TensorView<u64>>, b: Seq<TensorView<u64>>) -> bool {
    &&& a.len() == b.len()
    &&& forall|i: int| 0 <= i < a.len() ==> tensors_bit_equal(#[trigger] a[i], b[i])
}

/// The contents of the tensors.
pub open spec fn bit_views(ts: Seq<TensorF64>) -> Seq<TensorView<u64>> {
    ts.map_values(|t: TensorF64| t@)
}

/// Returns whether two lists of tensors are bit-equal throughout.
pub fn tensors_bit_eq(left: &Vec<TensorF64>, right: &Vec<TensorF64>) -> (r: bool)
    ensures
        r == all_bit_equal(bit_views(left@), bit_views(right@)),
{
    if left.len() != right.len() {
        return false;
    }
    let mut i: usize = 0;
    while i < left.len()
        invariant
            i <= left@.len(),
            left@.len() == right@.len(),
            forall|j: int|
                0 <= j < i ==> tensors_bit_equal(
                    #[trigger] bit_views(left@)[j],
                    bit_views(right@)[j],
                ),
        decreases left@.len() - i,
    {
        if !left[i].bit_eq(&right[i]) {
            assert(!tensors_bit_equal(bit_views(left@)[i as int], bit_views(right@)[i as int]));
            return false;
        }
        i += 1;
    }
    true
}

/// Bit equality is reflexive, symmetric and transitive.
pub proof fn bit_equality_is_an_equivalence(
    a: TensorView<u64>,
    b: TensorView<u64>,
    c: TensorView<u64>,
)
    ensures
        tensors_bit_equal(a, a),
        tensors_bit_equal(a, b) ==> tensors_bit_equal(b, a),
        tensors_bit_equal(a, b) && tensors_bit_equal(b, c) ==> tensors_bit_equal(a, c),
{
    if tensors_bit_equal(a, b) {
        assert forall|i: int| 0 <= i < b.data.len() implies bits_agree(
            #[trigger] b.data[i],
            a.data[i],
        ) by {
            assert(bits_agree(a.data[i], b.data[i]));
        }
        if tensors_bit_equal(b, c) {
            assert forall|i: int| 0 <= i < a.data.len() implies bits_agree(
                #[trigger] a.data[i],
                c.data[i],
            ) by {
                assert(bits_agree(a.data[i], b.data[i]));
                assert(bits_agree(b.data[i], c.data[i]));
            }
        }
    }
}

} // verus!
