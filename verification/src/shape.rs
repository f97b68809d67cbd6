//! Tensor dimension and shape types.
use vstd::prelude::*;

use crate::error::IrError;
use crate::text::{decimal, index_text, join};

verus! {

/// A non-negative tensor dimension.
#[derive(Debug, Clone, Copy, PartialEq, Eq, Hash, PartialOrd, Ord, Structural)]
pub struct Dim(pub usize);

impl Dim {
    /// Creates a dimension.
    #[must_use]
    pub fn new(value: usize) -> (r: Self)
        ensures
            r == Dim(value),
    {
        Dim(value)
    }

    /// Returns the dimension extent.
    #[must_use]
    pub fn get(self) -> (r: usize)
        ensures
            r == self.0,
    {
        self.0
    }

    /// Renders the extent in decimal.
    pub fn to_text(self) -> (r: String)
        ensures
            r@ == decimal(self.0 as nat),
    {
        index_text(self.0)
    }
}

/// Logical tensor shape.
#[derive(Debug, PartialEq, Eq, Hash)]
pub struct Shape {
    pub dims: Vec<Dim>,
}

impl View for Shape {
    type V = Seq<nat>;

    /// The extents, outermost first.
    open spec fn view(&self) -> Seq<nat> {
        self.dims@.map_values(|d: Dim| d.0 as nat)
    }
}

/// The product of the extents.
pub open spec fn numel(shape: Seq<nat>) -> nat
    decreases shape.len(),
{
    if shape.len() == 0 {
        1
    } else {
        numel(shape.drop_last()) * shape.last()
    }
}

/// Whether the product of the extents, taken from the left, never leaves `usize`.
pub open spec fn numel_fits(shape: Seq<nat>) -> bool
    decreases shape.len(),
{
    shape.len() == 0 || (numel_fits(shape.drop_last()) && numel(shape) <= usize::MAX)
}

/// The element count of a shape, or the error that it overflows.
pub open spec fn checked_numel(shape: Seq<nat>) -> Result<usize, IrError> {
    if numel_fits(shape) {
        Ok(numel(shape) as usize)
    } else {
        Err(IrError::ShapeOverflow)
    }
}

/// The text of a shape: its extents between square brackets.
pub open spec fn shape_text(shape: Seq<nat>) -> Seq<char> {
    "["@ + join(shape.map_values(|d: nat| decimal(d)), ", "@) + "]"@
}

/// Overflow of a prefix is overflow of the whole.
pub proof fn lemma_numel_fits_prefix(shape: Seq<nat>, n: int)
    requires
        0 <= n <= shape.len(),
        numel_fits(shape),
    ensures
        numel_fits(shape.take(n)),
        numel(shape) <= usize::MAX,
    decreases shape.len(),
{
    if shape.len() == 0 {
        assert(shape.take(n) =~= shape);
    } else if n == shape.len() {
        assert(shape.take(n) =~= shape);
    } else {
        lemma_numel_fits_prefix(shape.drop_last(), n);
        assert(shape.drop_last().take(n) =~= shape.take(n));
    }
}

impl Clone for Shape {
    fn clone(&self) -> (r: Self)
        ensures
            r@ == self@,
    {
        Shape { dims: crate::data::copied(&self.dims) }
    }
}

impl Shape {
    /// Creates a shape from dimensions.
    #[must_use]
    pub fn new(dims: Vec<Dim>) -> (r: Self)
        ensures
            r.dims == dims,
            r@ == dims@.map_values(|d: Dim| d.0 as nat),
    {
        Shape { dims }
    }

    /// Returns the shape rank.
    #[must_use]
    pub fn rank(&self) -> (r: usize)
        ensures
            r == self@.len(),
    {
        self.dims.len()
    }

    /// Returns the dimensions in order.
    #[must_use]
    pub fn dims(&self) -> (r: &[Dim])
        ensures
            r@ == self.dims@,
    {
        self.dims.as_slice()
    }

    /// Returns the extent of one axis.
    pub fn dim(&self, axis: usize) -> (r: usize)
        requires
            axis < self@.len(),
        ensures
            r == self@[axis as int],
    {
        self.dims[axis].0
    }

    /// Returns whether the two shapes have the same extents.
    pub fn same(&self, other: &Shape) -> (r: bool)
        ensures
            r == (self@ == other@),
    {
        if self.dims.len() != other.dims.len() {
            return false;
        }
        let mut i: usize = 0;
        while i < self.dims.len()
            invariant
                i <= self@.len(),
                self@.len() == other@.len(),
                forall|j: int| 0 <= j < i ==> self@[j] == other@[j],
            decreases self@.len() - i,
        {
            if self.dims[i].0 != other.dims[i].0 {
                assert(self@[i as int] != other@[i as int]);
                return false;
            }
            i += 1;
        }
        assert(self@ =~= other@);
        true
    }

    /// Returns the product of all dimensions.
    ///
    /// # Errors
    ///
    /// Returns [`IrError::ShapeOverflow`] if the product overflows `usize`.
    pub fn numel(&self) -> (r: Result<usize, IrError>)
        ensures
            r == checked_numel(self@),
    {
        let mut product: usize = 1;
        let mut i: usize = 0;
        while i < self.dims.len()
            invariant
                i <= self@.len(),
                numel_fits(self@.take(i as int)),
                product == numel(self@.take(i as int)),
            decreases self@.len() - i,
        {
            proof {
                let longer = self@.take(i as int + 1);
                assert(longer.drop_last() =~= self@.take(i as int));
                assert(longer.last() == self@[i as int]);
                if !numel_fits(longer) && numel_fits(self@) {
                    lemma_numel_fits_prefix(self@, i as int + 1);
                }
            }
            match product.checked_mul(self.dims[i].0) {
                Some(next) => {
                    product = next;
                }
                None => {
                    return Err(IrError::ShapeOverflow);
                }
            }
            i += 1;
        }
        proof {
            assert(self@.take(i as int) =~= self@);
        }
        Ok(product)
    }

    /// Renders the extents between square brackets.
    pub fn to_text(&self) -> (r: String)
        ensures
            r@ == shape_text(self@),
    {
        let mut parts: Vec<String> = Vec::new();
        let mut i: usize = 0;
        while i < self.dims.len()
            invariant
                i <= self@.len(),
                parts@.len() == i,
                forall|j: int| 0 <= j < i ==> parts@[j]@ == decimal(self@[j]),
            decreases self@.len() - i,
        {
            parts.push(index_text(self.dims[i].0));
            i += 1;
        }
        proof {
            assert(crate::text::string_views(parts@) =~= self@.map_values(|d: nat| decimal(d)));
        }
        String::from_str("[")
            .concat(crate::text::join_text(&parts, ", ").as_str())
            .concat("]")
    }
}

} // verus!
