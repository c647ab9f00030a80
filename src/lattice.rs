//! Two-dimensional arrays of `ndarray`, seen through their row-major contents.
use ndarray::Array2;
use vstd::prelude::*;

verus! {

/// Largest number of elements an array here may hold.
pub const MAX_CELLS: usize = 0x400_0000;

/// An `ndarray` array of accumulated values.
#[verifier::external_body]
pub struct FieldArray {
    inner: Array2<i128>,
}

/// An `ndarray` array of fixed-point gradient vectors.
#[verifier::external_body]
pub struct GradientArray {
    inner: Array2<(i64, i64)>,
}

/// The elements of an accumulator array, row by row.
pub uninterp spec fn field_cells(a: FieldArray) -> Seq<i128>;

/// The number of rows and columns of an accumulator array.
pub uninterp spec fn field_shape(a: FieldArray) -> (nat, nat);

/// The elements of a gradient array, row by row.
pub uninterp spec fn gradient_cells(a: GradientArray) -> Seq<(i64, i64)>;

/// The number of rows and columns of a gradient array.
pub uninterp spec fn gradient_shape(a: GradientArray) -> (nat, nat);

impl FieldArray {
    /// Relies on `Array2::from_elem`: a `rows` by `cols` array holding `v` everywhere. It
    /// panics where the product of the nonzero axis lengths, or the byte size, exceeds
    /// `isize::MAX`; bounding each side and the element count by `MAX_CELLS` rules both
    /// out.
    #[verifier::external_body]
    pub(crate) fn from_elem(rows: usize, cols: usize, v: i128) -> (r: FieldArray)
        requires
            rows <= MAX_CELLS,
            cols <= MAX_CELLS,
            rows * cols <= MAX_CELLS,
        ensures
            field_shape(r) == (rows as nat, cols as nat),
            field_cells(r) == Seq::new((rows * cols) as nat, |k: int| v),
    {
        FieldArray { inner: Array2::from_elem([rows, cols], v) }
    }

    /// Relies on `Index` of `Array2`: the element at row `i`, column `j`.
    #[verifier::external_body]
    pub(crate) fn get(&self, i: usize, j: usize) -> (r: i128)
        requires
            i < field_shape(*self).0,
            j < field_shape(*self).1,
        ensures
            r == field_cells(*self)[i * field_shape(*self).1 + j],
    {
        self.inner[[i, j]]
    }

    /// Relies on `IndexMut` of `Array2`: overwrites the element at row `i`, column `j`.
    #[verifier::external_body]
    pub(crate) fn set(&mut self, i: usize, j: usize, v: i128)
        requires
            i < field_shape(*old(self)).0,
            j < field_shape(*old(self)).1,
        ensures
            field_shape(*final(self)) == field_shape(*old(self)),
            field_cells(*final(self)) == field_cells(*old(self)).update(
                i * field_shape(*old(self)).1 + j,
                v,
            ),
    {
        self.inner[[i, j]] = v;
    }
}

impl GradientArray {
    /// Relies on `Array2::from_elem`: a `rows` by `cols` array holding `v` everywhere. It
    /// panics where the product of the nonzero axis lengths, or the byte size, exceeds
    /// `isize::MAX`; bounding each side and the element count by `MAX_CELLS` rules both
    /// out.
    #[verifier::external_body]
    pub(crate) fn from_elem(rows: usize, cols: usize, v: (i64, i64)) -> (r: GradientArray)
        requires
            rows <= MAX_CELLS,
            cols <= MAX_CELLS,
            rows * cols <= MAX_CELLS,
        ensures
            gradient_shape(r) == (rows as nat, cols as nat),
            gradient_cells(r) == Seq::new((rows * cols) as nat, |k: int| v),
    {
        GradientArray { inner: Array2::from_elem([rows, cols], v) }
    }

    /// Relies on `Index` of `Array2`: the element at row `i`, column `j`.
    #[verifier::external_body]
    pub(crate) fn get(&self, i: usize, j: usize) -> (r: (i64, i64))
        requires
            i < gradient_shape(*self).0,
            j < gradient_shape(*self).1,
        ensures
            r == gradient_cells(*self)[i * gradient_shape(*self).1 + j],
    {
        self.inner[[i, j]]
    }

    /// Relies on `IndexMut` of `Array2`: overwrites the element at row `i`, column `j`.
    #[verifier::external_body]
    pub(crate) fn set(&mut self, i: usize, j: usize, v: (i64, i64))
        requires
            i < gradient_shape(*old(self)).0,
            j < gradient_shape(*old(self)).1,
        ensures
            gradient_shape(*final(self)) == gradient_shape(*old(self)),
            gradient_cells(*final(self)) == gradient_cells(*old(self)).update(
                i * gradient_shape(*old(self)).1 + j,
                v,
            ),
    {
        self.inner[[i, j]] = v;
    }
}

} // verus!
