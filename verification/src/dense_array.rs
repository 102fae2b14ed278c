//! Whole-array storage, held in arrays of the `ndarray` crate, and the kernel that hands
//! the whole product to it.

use vstd::prelude::*;
use crate::error::KernelError;
use crate::layout::{lemma_flatten_len, lemma_unflatten_flatten, to_flattened};
use crate::model::{column_count, column_sum, ints, is_rectangular, layer_output, rows_of, unflatten};

verus! {

/// A two-dimensional array of `ndarray`, opaque to the verifier: what it holds is named
/// by [`array_cells`] and [`array_shape`]. Its cells are samples widened to `i128`, the
/// type in which `ndarray` multiplies and adds them.
#[verifier::external_body]
pub struct ArrayStorage {
    array: ndarray::Array2<i128>,
}

/// The error of `ndarray` for a shape that does not fit its data, opaque to the verifier.
#[verifier::external_type_specification]
#[verifier::external_body]
pub struct ExShapeError(ndarray::ShapeError);

/// The cells of an array, row by row, as the samples they were made from.
pub uninterp spec fn array_cells(array: ArrayStorage) -> Seq<Seq<i32>>;

/// The `(rows, columns)` of an array.
pub uninterp spec fn array_shape(array: ArrayStorage) -> (int, int);

/// The length of an axis as `ndarray` counts it when it bounds an array's size: an
/// empty axis counts as one.
pub open spec fn extent(len: int) -> int {
    if len == 0 {
        1
    } else {
        len
    }
}

/// Whether `ndarray` accepts `cells` cells for the shape `rows × cols`: the count is the
/// product of the axes, and the product of the non-empty axes is at most `isize::MAX`.
pub open spec fn array_fits(cells: int, rows: int, cols: int) -> bool {
    cells == rows * cols && extent(rows) * extent(cols) <= isize::MAX
}

/// `ndarray::Array2::from_shape_vec` on a row-major shape: the cells in rows of `cols`.
/// It fails where the number of cells is not `rows * cols`, or where the product of the
/// non-empty axes is more than `isize::MAX`.
#[verifier::external_body]
pub(crate) fn array_from_shape_vec(rows: usize, cols: usize, cells: &Vec<i32>) -> (result: Result<ArrayStorage, ndarray::ShapeError>)
    ensures
        result is Ok <==> array_fits(cells@.len() as int, rows as int, cols as int),
        result matches Ok(array) ==> array_shape(array) == (rows as int, cols as int)
            && array_cells(array) == unflatten(cells@, rows as nat, cols as nat),
{
    let wide: Vec<i128> = cells.iter().map(|&x| x as i128).collect();
    match ndarray::Array2::from_shape_vec((rows, cols), wide) {
        Ok(array) => Ok(ArrayStorage { array }),
        Err(e) => Err(e),
    }
}

/// `ndarray::ArrayBase::nrows`.
#[verifier::external_body]
pub(crate) fn array_rows(array: &ArrayStorage) -> (rows: usize)
    ensures
        rows == array_shape(*array).0,
{
    array.array.nrows()
}

/// `ndarray::ArrayBase::ncols`.
#[verifier::external_body]
pub(crate) fn array_cols(array: &ArrayStorage) -> (cols: usize)
    ensures
        cols == array_shape(*array).1,
{
    array.array.ncols()
}

/// `ndarray`'s `dot` of a one-dimensional array with a two-dimensional one: the vector
/// as a row, times the matrix. It panics where the vector's length is not the number of
/// rows, which the precondition leaves out. Sums of products of samples cannot leave
/// `i128`, in whatever order they are added.
#[verifier::external_body]
pub(crate) fn array_vector_dot(vector: &Vec<i32>, array: &ArrayStorage) -> (out: Vec<i128>)
    requires
        vector@.len() == array_shape(*array).0,
    ensures
        out@.len() == array_shape(*array).1,
        forall|j: int|
            0 <= j < out@.len() ==> #[trigger] out@[j] == column_sum(
                vector@,
                array_cells(*array),
                j,
                vector@.len() as int,
            ),
{
    let wide: Vec<i128> = vector.iter().map(|&x| x as i128).collect();
    ndarray::Array1::from_vec(wide).dot(&array.array).to_vec()
}

/// A dense matrix as one two-dimensional array.
pub struct DenseArray {
    storage: ArrayStorage,
}

impl DenseArray {
    /// The cells, row by row.
    pub closed spec fn cells(&self) -> Seq<Seq<i32>> {
        array_cells(self.storage)
    }

    /// The number of rows.
    pub closed spec fn row_count(&self) -> int {
        array_shape(self.storage).0
    }

    /// The number of columns.
    pub closed spec fn col_count(&self) -> int {
        array_shape(self.storage).1
    }

    /// The cells fill the shape.
    #[verifier::type_invariant]
    pub open spec fn well_formed(&self) -> bool {
        &&& self.cells().len() == self.row_count()
        &&& 0 <= self.col_count()
        &&& forall|i: int|
            0 <= i < self.cells().len() ==> (#[trigger] self.cells()[i]).len() == self.col_count()
    }

    /// The number of rows.
    pub fn rows(&self) -> (rows: usize)
        ensures
            rows == self.row_count(),
    {
        array_rows(&self.storage)
    }

    /// The number of columns.
    pub fn cols(&self) -> (cols: usize)
        ensures
            cols == self.col_count(),
    {
        array_cols(&self.storage)
    }
}

/// Builds the array form of a dense matrix: as many rows as the matrix has, as many
/// columns as its first row has cells.
///
/// Rows of unequal length are refused, and so is a shape that `ndarray` cannot hold.
pub fn convert_to_array2(matrix: &Vec<Vec<i32>>) -> (result: Result<DenseArray, KernelError>)
    ensures
        result is Ok <==> is_rectangular(rows_of(matrix)) && extent(matrix@.len() as int) * extent(
            column_count(rows_of(matrix)) as int,
        ) <= isize::MAX,
        result matches Ok(array) ==> {
            &&& array.row_count() == matrix@.len()
            &&& array.col_count() == column_count(rows_of(matrix))
            &&& array.cells() == rows_of(matrix)
        },
        result matches Err(e) ==> e == KernelError::ConversionError,
{
    let rows: usize = matrix.len();
    let cols: usize = if rows == 0 {
        0
    } else {
        matrix[0].len()
    };
    let flattened: Vec<i32> = match to_flattened(matrix) {
        Ok(flat) => flat,
        Err(e) => {
            return Err(KernelError::ConversionError);
        },
    };
    proof {
        lemma_flatten_len(rows_of(matrix));
        lemma_unflatten_flatten(rows_of(matrix));
    }
    match array_from_shape_vec(rows, cols, &flattened) {
        Ok(storage) => Ok(DenseArray { storage }),
        Err(_) => Err(KernelError::ConversionError),
    }
}

/// Dense-array kernel: the whole product is one multiply-accumulate of the array
/// library, with no skip of its own.
pub fn dot_product_array(vec: &Vec<i32>, array: &DenseArray) -> (result: Result<Vec<i128>, KernelError>)
    ensures
        result is Ok <==> array.row_count() == vec@.len() && array.col_count() == vec@.len(),
        result matches Ok(out) ==> ints(out@) == layer_output(vec@, array.cells()),
        result matches Err(e) ==> e == KernelError::DimensionMismatch,
{
    let n: usize = vec.len();
    if array.rows() != n || array.cols() != n {
        return Err(KernelError::DimensionMismatch);
    }
    let out: Vec<i128> = array_vector_dot(vec, &array.storage);
    assert(ints(out@) =~= layer_output(vec@, array.cells()));
    Ok(out)
}

} // verus!
