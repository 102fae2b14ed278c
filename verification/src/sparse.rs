//! Compressed sparse row storage, held in matrices of the `sprs` crate.

use vstd::prelude::*;
use crate::error::KernelError;
use crate::layout::is_uniform;
use crate::kernels::has_rank;
use crate::model::{
    column_count, column_sum, ints, is_rectangular, is_square, layer_output, lemma_add_term,
    lemma_zero_term, rows_of,
};

verus! {

/// A compressed matrix of `sprs`, opaque to the verifier: what it holds is named by
/// [`stored_entries`] and [`stored_shape`].
#[verifier::external_body]
pub struct CsrStorage {
    matrix: sprs::CsMat<i32>,
}

/// The triplet matrix of `sprs`, opaque to the verifier: what it holds is named by
/// [`triplet_entries`] and [`triplet_shape`].
#[verifier::external_type_specification]
#[verifier::external_body]
#[verifier::reject_recursive_types(IStorage)]
#[verifier::reject_recursive_types(DStorage)]
pub struct ExTriMatBase<IStorage, DStorage>(sprs::TriMatBase<IStorage, DStorage>);

/// What a triplet matrix holds: `(row, column, value)` in the order of insertion.
pub uninterp spec fn triplet_entries(triplets: sprs::TriMat<i32>) -> Seq<(int, int, int)>;

/// The `(rows, columns)` that a triplet matrix was created with.
pub uninterp spec fn triplet_shape(triplets: sprs::TriMat<i32>) -> (int, int);

/// What a compressed matrix stores: for each outer index (each row, in row storage),
/// the `(inner index, value)` of its entries in storage order.
pub uninterp spec fn stored_entries(matrix: CsrStorage) -> Seq<Seq<(int, int)>>;

/// The `(rows, columns)` of a compressed matrix.
pub uninterp spec fn stored_shape(matrix: CsrStorage) -> (int, int);

/// No two triplets name the same cell.
pub open spec fn distinct_cells(entries: Seq<(int, int, int)>) -> bool {
    forall|p: int, q: int|
        #![trigger entries[p], entries[q]]
        0 <= p < q < entries.len() ==> !(entries[p].0 == entries[q].0 && entries[p].1 == entries[q].1)
}

/// The inner indices of a row's entries strictly increase.
pub open spec fn ascending(row: Seq<(int, int)>) -> bool {
    forall|p: int, q: int| #![trigger row[p], row[q]] 0 <= p < q < row.len() ==> row[p].0 < row[q].0
}

/// The number of entries in all rows together.
pub open spec fn entry_count(rows: Seq<Seq<(int, int)>>) -> int
    decreases rows.len(),
{
    if rows.len() == 0 {
        0
    } else {
        entry_count(rows.drop_last()) + rows.last().len()
    }
}

/// `sprs::TriMat::new`: an empty triplet matrix of the given shape.
#[verifier::external_body]
pub(crate) fn new_triplets(rows: usize, cols: usize) -> (triplets: sprs::TriMat<i32>)
    ensures
        triplet_entries(triplets) == Seq::<(int, int, int)>::empty(),
        triplet_shape(triplets) == (rows as int, cols as int),
{
    sprs::TriMat::new((rows, cols))
}

/// `sprs::TriMat::add_triplet`: appends one entry. It panics on a position outside the
/// shape, which the precondition leaves out.
#[verifier::external_body]
pub(crate) fn add_triplet(triplets: &mut sprs::TriMat<i32>, row: usize, col: usize, val: i32)
    requires
        row < triplet_shape(*old(triplets)).0,
        col < triplet_shape(*old(triplets)).1,
    ensures
        triplet_entries(*final(triplets)) == triplet_entries(*old(triplets)).push(
            (row as int, col as int, val as int),
        ),
        triplet_shape(*final(triplets)) == triplet_shape(*old(triplets)),
{
    triplets.add_triplet(row, col, val)
}

/// `sprs::TriMat::to_csr`: sorts the triplets by row, then by column. Where no cell is
/// named twice nothing is summed, so row `i` of the result holds exactly the triplets of
/// row `i`, by ascending column.
#[verifier::external_body]
pub(crate) fn triplets_to_csr(triplets: &sprs::TriMat<i32>) -> (matrix: CsrStorage)
    requires
        distinct_cells(triplet_entries(*triplets)),
    ensures
        stored_shape(matrix) == triplet_shape(*triplets),
        stored_entries(matrix).len() == triplet_shape(*triplets).0,
        forall|i: int|
            0 <= i < stored_entries(matrix).len() ==> ascending(#[trigger] stored_entries(matrix)[i]),
        forall|i: int, c: int, v: int|
            0 <= i < stored_entries(matrix).len() ==> (#[trigger] stored_entries(matrix)[i].contains(
                (c, v),
            ) <==> triplet_entries(*triplets).contains((i, c, v))),
{
    CsrStorage { matrix: triplets.to_csr() }
}

/// `sprs::CsMat::rows`.
#[verifier::external_body]
pub(crate) fn csr_rows(matrix: &CsrStorage) -> (rows: usize)
    ensures
        rows == stored_shape(*matrix).0,
{
    matrix.matrix.rows()
}

/// `sprs::CsMat::cols`.
#[verifier::external_body]
pub(crate) fn csr_cols(matrix: &CsrStorage) -> (cols: usize)
    ensures
        cols == stored_shape(*matrix).1,
{
    matrix.matrix.cols()
}

/// `sprs::CsMat::nnz`: the number of stored entries.
#[verifier::external_body]
pub(crate) fn csr_nnz(matrix: &CsrStorage) -> (count: usize)
    ensures
        count == entry_count(stored_entries(*matrix)),
{
    matrix.matrix.nnz()
}

/// `sprs::CsMat::outer_view` and the iterator of the view: the entries of one outer
/// index in storage order. `outer_view` gives `None` past the last outer index, which the
/// precondition leaves out.
#[verifier::external_body]
pub(crate) fn csr_outer_entries(matrix: &CsrStorage, i: usize) -> (entries: Vec<(usize, i32)>)
    requires
        i < stored_entries(*matrix).len(),
    ensures
        entries@.len() == stored_entries(*matrix)[i as int].len(),
        forall|k: int|
            0 <= k < entries@.len() ==> (#[trigger] entries@[k].0 as int, entries@[k].1 as int)
                == stored_entries(*matrix)[i as int][k],
{
    matrix.matrix.outer_view(i).unwrap().iter().map(|(j, &v)| (j, v)).collect()
}

/// The value that a row stores at column `j`, and zero where it stores none.
pub open spec fn row_cell(row: Seq<(int, int)>, j: int) -> int
    decreases row.len(),
{
    if row.len() == 0 {
        0
    } else if row.last().0 == j {
        row.last().1
    } else {
        row_cell(row.drop_last(), j)
    }
}

/// The dense row of `cols` cells that a stored row stands for.
pub open spec fn expand_row(row: Seq<(int, int)>, cols: int) -> Seq<i32> {
    Seq::new(cols as nat, |j: int| row_cell(row, j) as i32)
}

/// The dense matrix of `cols` columns that stored rows stand for.
pub open spec fn expand_rows(rows: Seq<Seq<(int, int)>>, cols: int) -> Seq<Seq<i32>> {
    Seq::new(rows.len(), |i: int| expand_row(rows[i], cols))
}

/// Whether a row stores a value at column `j`.
pub open spec fn row_stores(row: Seq<(int, int)>, j: int) -> bool {
    exists|k: int| 0 <= k < row.len() && (#[trigger] row[k]).0 == j
}

/// A row as compressed storage keeps it: columns ascending and below `cols`, values
/// non-zero samples.
pub open spec fn valid_row(row: Seq<(int, int)>, cols: int) -> bool {
    &&& ascending(row)
    &&& forall|k: int|
        0 <= k < row.len() ==> 0 <= (#[trigger] row[k]).0 < cols && row[k].1 != 0 && i32::MIN
            <= row[k].1 <= i32::MAX
}

/// A row stores nothing at column `j`: the cell is zero.
pub proof fn lemma_row_cell_absent(row: Seq<(int, int)>, j: int)
    requires
        forall|k: int| 0 <= k < row.len() ==> (#[trigger] row[k]).0 != j,
    ensures
        row_cell(row, j) == 0,
    decreases row.len(),
{
    if row.len() > 0 {
        assert(row.last() == row[row.len() - 1]);
        let init = row.drop_last();
        assert forall|k: int| 0 <= k < init.len() implies (#[trigger] init[k]).0 != j by {
            assert(init[k] == row[k]);
        }
        lemma_row_cell_absent(init, j);
    }
}

/// A row with ascending columns stores `row[k].1` at column `row[k].0`.
pub proof fn lemma_row_cell_found(row: Seq<(int, int)>, k: int)
    requires
        ascending(row),
        0 <= k < row.len(),
    ensures
        row_cell(row, row[k].0) == row[k].1,
    decreases row.len(),
{
    let last = row.len() - 1;
    assert(row.last() == row[last]);
    if k < last {
        let init = row.drop_last();
        assert(row[k].0 < row[last].0);
        assert(init[k] == row[k]);
        assert(ascending(init)) by {
            assert forall|p: int, q: int|
                #![trigger init[p], init[q]]
                0 <= p < q < init.len() implies init[p].0 < init[q].0 by {
                assert(init[p] == row[p] && init[q] == row[q]);
            }
        }
        lemma_row_cell_found(init, k);
    }
}

/// A row's value is zero exactly at the columns where it stores nothing.
pub proof fn lemma_row_cell_zero(row: Seq<(int, int)>, cols: int, j: int)
    requires
        valid_row(row, cols),
    ensures
        row_cell(row, j) != 0 <==> row_stores(row, j),
        i32::MIN <= row_cell(row, j) <= i32::MAX,
{
    if row_stores(row, j) {
        let k = choose|k: int| 0 <= k < row.len() && (#[trigger] row[k]).0 == j;
        lemma_row_cell_found(row, k);
    } else {
        lemma_row_cell_absent(row, j);
    }
}

/// The entries that a dense row is stored as: its cells that are not zero, each with its
/// column, by ascending column.
pub open spec fn compress_row(row: Seq<i32>) -> Seq<(int, int)>
    decreases row.len(),
{
    if row.len() == 0 {
        Seq::empty()
    } else if row.last() != 0 {
        compress_row(row.drop_last()).push((row.len() - 1, row.last() as int))
    } else {
        compress_row(row.drop_last())
    }
}

/// The rows that a dense matrix is stored as.
pub open spec fn compress(w: Seq<Seq<i32>>) -> Seq<Seq<(int, int)>> {
    Seq::new(w.len(), |i: int| compress_row(w[i]))
}

/// A compressed row is valid, and it holds `(c, v)` exactly where `v` is the cell at
/// column `c` and is not zero.
pub proof fn lemma_compress_row(row: Seq<i32>)
    ensures
        valid_row(compress_row(row), row.len() as int),
        forall|c: int, v: int| #[trigger]
            compress_row(row).contains((c, v)) <==> 0 <= c < row.len() && row[c] == v && v != 0,
    decreases row.len(),
{
    let stored = compress_row(row);
    if row.len() == 0 {
        assert forall|c: int, v: int| #[trigger] stored.contains((c, v)) implies false by {
            let k = choose|k: int| 0 <= k < stored.len() && stored[k] == (c, v);
        }
    } else {
        let init = row.drop_last();
        let before = compress_row(init);
        let last = row.len() - 1;
        lemma_compress_row(init);
        assert forall|k: int| 0 <= k < before.len() implies 0 <= (#[trigger] before[k]).0 < last
            && before[k].1 == init[before[k].0] by {
            assert(before.contains((before[k].0, before[k].1)));
        }
        assert forall|c: int, v: int| #[trigger]
            stored.contains((c, v)) <==> 0 <= c < row.len() && row[c] == v && v != 0 by {
            if stored.contains((c, v)) {
                let k = choose|k: int| 0 <= k < stored.len() && stored[k] == (c, v);
                if k < before.len() {
                    assert(before[k] == (c, v));
                    assert(before.contains((c, v)));
                    assert(init[c] == row[c]);
                }
            }
            if 0 <= c < row.len() && row[c] == v && v != 0 {
                if c < last {
                    assert(init[c] == row[c]);
                    assert(before.contains((c, v)));
                    let k = choose|k: int| 0 <= k < before.len() && before[k] == (c, v);
                    assert(stored[k] == (c, v));
                } else {
                    assert(stored[before.len() as int] == (c, v));
                }
            }
        }
    }
}

/// Two rows with ascending columns that hold the same entries are the same row.
pub proof fn lemma_ascending_rows_equal(s: Seq<(int, int)>, t: Seq<(int, int)>)
    requires
        ascending(s),
        ascending(t),
        forall|x: (int, int)| s.contains(x) <==> t.contains(x),
    ensures
        s == t,
    decreases s.len(),
{
    if s.len() == 0 {
        if t.len() > 0 {
            assert(t.contains(t[0]));
            let k = choose|k: int| 0 <= k < s.len() && s[k] == t[0];
        }
        assert(s =~= t);
    } else {
        let x = s.last();
        assert(s[s.len() - 1] == x);
        assert(s.contains(x));
        let k = choose|k: int| 0 <= k < t.len() && t[k] == x;
        let y = t.last();
        assert(t[t.len() - 1] == y);
        assert(t.contains(y));
        let p = choose|p: int| 0 <= p < s.len() && s[p] == y;
        if p < s.len() - 1 {
            assert(s[p].0 < s[s.len() - 1].0);
            if k < t.len() - 1 {
                assert(t[k].0 < t[t.len() - 1].0);
            }
        }
        assert(x == y);
        let s1 = s.drop_last();
        let t1 = t.drop_last();
        assert(ascending(s1)) by {
            assert forall|a: int, b: int|
                #![trigger s1[a], s1[b]]
                0 <= a < b < s1.len() implies s1[a].0 < s1[b].0 by {
                assert(s1[a] == s[a] && s1[b] == s[b]);
            }
        }
        assert(ascending(t1)) by {
            assert forall|a: int, b: int|
                #![trigger t1[a], t1[b]]
                0 <= a < b < t1.len() implies t1[a].0 < t1[b].0 by {
                assert(t1[a] == t[a] && t1[b] == t[b]);
            }
        }
        assert forall|z: (int, int)| s1.contains(z) <==> t1.contains(z) by {
            if s1.contains(z) {
                let q = choose|q: int| 0 <= q < s1.len() && s1[q] == z;
                assert(s[q] == z);
                assert(s[q].0 < s[s.len() - 1].0);
                assert(s.contains(z));
                let r = choose|r: int| 0 <= r < t.len() && t[r] == z;
                assert(r < t.len() - 1);
                assert(t1[r] == z);
            }
            if t1.contains(z) {
                let q = choose|q: int| 0 <= q < t1.len() && t1[q] == z;
                assert(t[q] == z);
                assert(t[q].0 < t[t.len() - 1].0);
                assert(t.contains(z));
                let r = choose|r: int| 0 <= r < s.len() && s[r] == z;
                assert(r < s.len() - 1);
                assert(s1[r] == z);
            }
        }
        lemma_ascending_rows_equal(s1, t1);
        assert(s =~= s1.push(x));
        assert(t =~= t1.push(y));
    }
}

/// A compressed row stands for the dense row that it was made from.
pub proof fn lemma_expand_compress_row(row: Seq<i32>)
    ensures
        expand_row(compress_row(row), row.len() as int) == row,
        forall|j: int| 0 <= j < row.len() ==> (#[trigger] row_stores(compress_row(row), j) <==> row[j] != 0),
{
    let stored = compress_row(row);
    lemma_compress_row(row);
    assert forall|j: int| 0 <= j < row.len() implies #[trigger] row_cell(stored, j) == row[j] by {
        if row[j] != 0 {
            assert(stored.contains((j, row[j] as int)));
            let k = choose|k: int| 0 <= k < stored.len() && stored[k] == (j, row[j] as int);
            assert(stored[k].0 == j);
            lemma_row_cell_found(stored, k);
        } else {
            assert forall|k: int| 0 <= k < stored.len() implies (#[trigger] stored[k]).0 != j by {
                assert(stored.contains((stored[k].0, stored[k].1)));
            }
            lemma_row_cell_absent(stored, j);
        }
    }
    assert forall|j: int| 0 <= j < row.len() implies (#[trigger] row_stores(stored, j) <==> row[j]
        != 0) by {
        if row[j] != 0 {
            assert(stored.contains((j, row[j] as int)));
            let k = choose|k: int| 0 <= k < stored.len() && stored[k] == (j, row[j] as int);
            assert(stored[k].0 == j);
            lemma_row_cell_found(stored, k);
        } else {
            assert forall|k: int| 0 <= k < stored.len() implies (#[trigger] stored[k]).0 != j by {
                assert(stored.contains((stored[k].0, stored[k].1)));
            }
            lemma_row_cell_absent(stored, j);
        }
    }
    assert(expand_row(stored, row.len() as int) =~= row);
}

/// Compressing a dense matrix with even rows and expanding the result gives the matrix
/// back: the cells that are zero, and the cells that are not.
pub proof fn lemma_expand_compress(w: Seq<Seq<i32>>)
    requires
        is_rectangular(w),
    ensures
        expand_rows(compress(w), column_count(w) as int) == w,
{
    let back = expand_rows(compress(w), column_count(w) as int);
    assert forall|i: int| 0 <= i < w.len() implies back[i] == w[i] by {
        lemma_expand_compress_row(w[i]);
    }
    assert(back =~= w);
}

/// A square or rectangular matrix in compressed sparse row form: per row, the columns
/// and values of the cells that are not zero.
pub struct SparseMatrix {
    storage: CsrStorage,
}

impl SparseMatrix {
    /// The stored entries: for each row, `(column, value)` by ascending column.
    pub closed spec fn entries(&self) -> Seq<Seq<(int, int)>> {
        stored_entries(self.storage)
    }

    /// The number of rows.
    pub closed spec fn row_count(&self) -> int {
        stored_shape(self.storage).0
    }

    /// The number of columns.
    pub closed spec fn col_count(&self) -> int {
        stored_shape(self.storage).1
    }

    /// Every row is stored, and stored validly.
    #[verifier::type_invariant]
    pub open spec fn well_formed(&self) -> bool {
        &&& self.entries().len() == self.row_count()
        &&& 0 <= self.col_count()
        &&& forall|i: int|
            0 <= i < self.entries().len() ==> valid_row(#[trigger] self.entries()[i], self.col_count())
    }

    /// Whether a value is stored for the cell `(i, j)`.
    pub open spec fn stores(&self, i: int, j: int) -> bool {
        row_stores(self.entries()[i], j)
    }

    /// The value of the cell `(i, j)`: the stored value, or zero where none is stored.
    pub open spec fn cell(&self, i: int, j: int) -> int {
        row_cell(self.entries()[i], j)
    }

    /// The dense matrix that this one stands for.
    pub open spec fn expand(&self) -> Seq<Seq<i32>> {
        expand_rows(self.entries(), self.col_count())
    }

    /// The number of stored entries.
    pub open spec fn stored(&self) -> int {
        entry_count(self.entries())
    }

    /// The number of rows.
    pub fn rows(&self) -> (rows: usize)
        ensures
            rows == self.row_count(),
    {
        csr_rows(&self.storage)
    }

    /// The number of columns.
    pub fn cols(&self) -> (cols: usize)
        ensures
            cols == self.col_count(),
    {
        csr_cols(&self.storage)
    }

    /// The number of stored entries, all of them non-zero.
    pub fn nnz(&self) -> (count: usize)
        ensures
            count == self.stored(),
    {
        csr_nnz(&self.storage)
    }

    /// The stored entries of row `i`, by ascending column; `None` past the last row.
    pub fn row_entries(&self, i: usize) -> (result: Option<Vec<(usize, i32)>>)
        ensures
            result is Some <==> i < self.row_count(),
            result matches Some(entries) ==> {
                &&& entries@.len() == self.entries()[i as int].len()
                &&& forall|k: int|
                    0 <= k < entries@.len() ==> (#[trigger] entries@[k].0 as int, entries@[k].1 as int)
                        == self.entries()[i as int][k]
            },
    {
        proof {
            use_type_invariant(self);
        }
        if i < csr_rows(&self.storage) {
            Some(csr_outer_entries(&self.storage, i))
        } else {
            None
        }
    }
}

/// The cell `(r, c)` comes before `(i, j)` in row-major order.
spec fn before(r: int, c: int, i: int, j: int) -> bool {
    r < i || (r == i && c < j)
}

/// `entries` holds exactly the non-zero cells of `w` that come before `(i, j)`, each once.
spec fn holds_cells_before(
    entries: Seq<(int, int, int)>,
    w: Seq<Seq<i32>>,
    n: int,
    i: int,
    j: int,
) -> bool {
    &&& distinct_cells(entries)
    &&& forall|p: int|
        0 <= p < entries.len() ==> {
            let e = #[trigger] entries[p];
            &&& 0 <= e.0 < n
            &&& 0 <= e.1 < n
            &&& e.2 == w[e.0][e.1]
            &&& e.2 != 0
            &&& before(e.0, e.1, i, j)
        }
    &&& forall|r: int, c: int|
        0 <= r < n && 0 <= c < n && before(r, c, i, j) && #[trigger] w[r][c] != 0
            ==> entries.contains((r, c, w[r][c] as int))
}

proof fn lemma_cell_skipped(entries: Seq<(int, int, int)>, w: Seq<Seq<i32>>, n: int, i: int, j: int)
    requires
        holds_cells_before(entries, w, n, i, j),
        0 <= i < n,
        0 <= j < n,
        w[i][j] == 0,
    ensures
        holds_cells_before(entries, w, n, i, j + 1),
{
}

proof fn lemma_cell_added(entries: Seq<(int, int, int)>, w: Seq<Seq<i32>>, n: int, i: int, j: int)
    requires
        holds_cells_before(entries, w, n, i, j),
        0 <= i < n,
        0 <= j < n,
        w[i][j] != 0,
    ensures
        holds_cells_before(entries.push((i, j, w[i][j] as int)), w, n, i, j + 1),
{
    let added = (i, j, w[i][j] as int);
    let next = entries.push(added);
    assert forall|p: int, q: int|
        #![trigger next[p], next[q]]
        0 <= p < q < next.len() implies !(next[p].0 == next[q].0 && next[p].1 == next[q].1) by {
        assert(next[p] == entries[p]);
        if q < entries.len() {
            assert(next[q] == entries[q]);
        } else {
            assert(before(entries[p].0, entries[p].1, i, j));
        }
    }
    assert forall|p: int| 0 <= p < next.len() implies {
        let e = #[trigger] next[p];
        &&& 0 <= e.0 < n
        &&& 0 <= e.1 < n
        &&& e.2 == w[e.0][e.1]
        &&& e.2 != 0
        &&& before(e.0, e.1, i, j + 1)
    } by {
        if p < entries.len() {
            assert(next[p] == entries[p]);
        }
    }
    assert forall|r: int, c: int|
        0 <= r < n && 0 <= c < n && before(r, c, i, j + 1) && #[trigger] w[r][c] != 0 implies next.contains(
        (r, c, w[r][c] as int),
    ) by {
        if before(r, c, i, j) {
            let p = choose|p: int| 0 <= p < entries.len() && entries[p] == (r, c, w[r][c] as int);
            assert(next[p] == (r, c, w[r][c] as int));
        } else {
            assert(next[entries.len() as int] == added);
        }
    }
}

proof fn lemma_row_finished(entries: Seq<(int, int, int)>, w: Seq<Seq<i32>>, n: int, i: int)
    requires
        holds_cells_before(entries, w, n, i, n),
        0 <= i < n,
    ensures
        holds_cells_before(entries, w, n, i + 1, 0),
{
}

/// A row with ascending columns that holds exactly the triplets of row `i` is row `i` of
/// `w` compressed.
proof fn lemma_row_is_compressed(
    entries: Seq<(int, int, int)>,
    rows: Seq<Seq<(int, int)>>,
    w: Seq<Seq<i32>>,
    n: int,
    i: int,
)
    requires
        holds_cells_before(entries, w, n, n, 0),
        rows.len() == n,
        0 <= i < n,
        w[i].len() == n,
        ascending(rows[i]),
        forall|c: int, v: int| #[trigger] rows[i].contains((c, v)) <==> entries.contains((i, c, v)),
    ensures
        rows[i] == compress_row(w[i]),
{
    let row = rows[i];
    let stored = compress_row(w[i]);
    lemma_compress_row(w[i]);
    assert forall|x: (int, int)| row.contains(x) <==> stored.contains(x) by {
        let (c, v) = x;
        assert(x == (c, v));
        if row.contains((c, v)) {
            assert(entries.contains((i, c, v)));
            let p = choose|p: int| 0 <= p < entries.len() && entries[p] == (i, c, v);
            assert(entries[p].2 == w[entries[p].0][entries[p].1]);
            assert(stored.contains((c, v)));
        }
        if stored.contains((c, v)) {
            assert(w[i][c] != 0);
            assert(entries.contains((i, c, w[i][c] as int)));
            assert(row.contains((c, v)));
        }
    }
    lemma_ascending_rows_equal(row, stored);
}

/// Converts a dense matrix of rank `n` to compressed sparse row form: a cell is stored
/// if and only if it is not zero, and the stored value is the cell's value.
///
/// Rows of unequal length are a [`KernelError::ConversionError`]; a matrix with even rows
/// that is not `n × n` is a [`KernelError::DimensionMismatch`].
pub fn convert_to_sparse_matrix(dense_matrix: &Vec<Vec<i32>>, n: usize) -> (result: Result<SparseMatrix, KernelError>)
    ensures
        result is Ok <==> is_square(rows_of(dense_matrix), n as nat),
        result matches Ok(sparse) ==> {
            &&& sparse.row_count() == n
            &&& sparse.col_count() == n
            &&& sparse.entries() == compress(rows_of(dense_matrix))
            &&& sparse.expand() == rows_of(dense_matrix)
            &&& forall|i: int, j: int|
                0 <= i < n && 0 <= j < n ==> (#[trigger] sparse.stores(i, j) <==> rows_of(
                    dense_matrix,
                )[i][j] != 0)
        },
        result matches Err(e) ==> e == if is_rectangular(rows_of(dense_matrix)) {
            KernelError::DimensionMismatch
        } else {
            KernelError::ConversionError
        },
{
    if !is_uniform(dense_matrix) {
        return Err(KernelError::ConversionError);
    }
    if !has_rank(dense_matrix, n) {
        return Err(KernelError::DimensionMismatch);
    }
    let ghost w = rows_of(dense_matrix);
    let mut triplet = new_triplets(n, n);
    let mut i: usize = 0;
    while i < n
        invariant
            i <= n,
            w == rows_of(dense_matrix),
            is_square(w, n as nat),
            triplet_shape(triplet) == (n as int, n as int),
            holds_cells_before(triplet_entries(triplet), w, n as int, i as int, 0),
        decreases n - i,
    {
        let row: &Vec<i32> = &dense_matrix[i];
        assert(row@ == w[i as int]);
        let mut j: usize = 0;
        while j < n
            invariant
                i < n,
                j <= n,
                w == rows_of(dense_matrix),
                is_square(w, n as nat),
                row@ == w[i as int],
                triplet_shape(triplet) == (n as int, n as int),
                holds_cells_before(triplet_entries(triplet), w, n as int, i as int, j as int),
            decreases n - j,
        {
            let val: i32 = row[j];
            if val != 0 {
                proof {
                    lemma_cell_added(triplet_entries(triplet), w, n as int, i as int, j as int);
                }
                add_triplet(&mut triplet, i, j, val);
            } else {
                proof {
                    lemma_cell_skipped(triplet_entries(triplet), w, n as int, i as int, j as int);
                }
            }
            j += 1;
        }
        proof {
            lemma_row_finished(triplet_entries(triplet), w, n as int, i as int);
        }
        i += 1;
    }
    let storage = triplets_to_csr(&triplet);
    proof {
        let entries = triplet_entries(triplet);
        let rows = stored_entries(storage);
        assert forall|r: int| 0 <= r < n implies #[trigger] rows[r] == compress_row(w[r]) by {
            lemma_row_is_compressed(entries, rows, w, n as int, r);
        }
        assert(rows =~= compress(w));
        assert forall|r: int| 0 <= r < n implies valid_row(#[trigger] rows[r], n as int) by {
            lemma_compress_row(w[r]);
        }
    }
    let sparse = SparseMatrix { storage };
    proof {
        assert(is_rectangular(w) && (n > 0 ==> column_count(w) == n)) by {
            if n > 0 {
                assert(w[0].len() == n);
            }
        }
        lemma_expand_compress(w);
        assert(sparse.expand() =~= w) by {
            assert forall|r: int| 0 <= r < n implies #[trigger] sparse.expand()[r] == w[r] by {
                lemma_expand_compress_row(w[r]);
            }
        }
        assert forall|r: int, c: int| 0 <= r < n && 0 <= c < n implies (#[trigger] sparse.stores(
            r,
            c,
        ) <==> w[r][c] != 0) by {
            lemma_expand_compress_row(w[r]);
        }
    }
    Ok(sparse)
}

/// Sparse kernel: only the stored entries are visited, and the row of an input that is
/// exactly zero is skipped whole.
pub fn sparse_dot_product(vec: &Vec<i32>, matrix: &SparseMatrix) -> (result: Result<Vec<i128>, KernelError>)
    ensures
        result is Ok <==> matrix.row_count() == vec@.len() && matrix.col_count() == vec@.len(),
        result matches Ok(out) ==> ints(out@) == layer_output(vec@, matrix.expand()),
        result matches Err(e) ==> e == KernelError::DimensionMismatch,
{
    let n: usize = vec.len();
    if matrix.rows() != n || matrix.cols() != n {
        return Err(KernelError::DimensionMismatch);
    }
    proof {
        use_type_invariant(matrix);
    }
    let ghost a = vec@;
    let ghost w = matrix.expand();
    let mut result: Vec<i128> = vec![0i128; n];
    let mut i: usize = 0;
    while i < n
        invariant
            i <= n,
            a == vec@,
            w == matrix.expand(),
            a.len() == n,
            matrix.row_count() == n,
            matrix.col_count() == n,
            matrix.well_formed(),
            result@.len() == n,
            forall|j: int| 0 <= j < n ==> result@[j] == column_sum(a, w, j, i as int),
        decreases n - i,
    {
        let ghost row = matrix.entries()[i as int];
        proof {
            assert(valid_row(row, n as int));
            assert forall|j: int| 0 <= j < n implies #[trigger] w[i as int][j] == row_cell(row, j) by {
                lemma_row_cell_zero(row, n as int, j);
            }
        }
        if vec[i] != 0 {
            let entries: Vec<(usize, i32)> = match matrix.row_entries(i) {
                Some(entries) => entries,
                None => vstd::pervasive::unreached(),
            };
            let mut k: usize = 0;
            assert(row.take(0).len() == 0);
            while k < entries.len()
                invariant
                    i < n,
                    k <= entries@.len(),
                    a == vec@,
                    a.len() == n,
                    w.len() == n,
                    row == matrix.entries()[i as int],
                    valid_row(row, n as int),
                    entries@.len() == row.len(),
                    forall|p: int|
                        0 <= p < entries@.len() ==> (#[trigger] entries@[p].0 as int, entries@[p].1 as int)
                            == row[p],
                    forall|j: int| 0 <= j < n ==> #[trigger] w[i as int][j] == row_cell(row, j),
                    result@.len() == n,
                    forall|j: int|
                        0 <= j < n ==> result@[j] == column_sum(a, w, j, i as int) + a[i as int]
                            * row_cell(row.take(k as int), j),
                decreases entries@.len() - k,
            {
                let entry: (usize, i32) = entries[k];
                let j: usize = entry.0;
                let val: i32 = entry.1;
                proof {
                    let prefix = row.take(k as int);
                    let next = row.take(k + 1);
                    assert((entries@[k as int].0 as int, entries@[k as int].1 as int) == row[k as int]);
                    assert(row[k as int] == (j as int, val as int));
                    assert(next.drop_last() =~= prefix);
                    assert(next.last() == row[k as int]);
                    assert forall|p: int| 0 <= p < prefix.len() implies (#[trigger] prefix[p]).0
                        != j by {
                        assert(prefix[p] == row[p]);
                        assert(row[p].0 < row[k as int].0);
                    }
                    lemma_row_cell_absent(prefix, j as int);
                    lemma_row_cell_found(row, k as int);
                    assert(w[i as int][j as int] == val);
                    lemma_add_term(a, w, j as int, i as int);
                    assert(a[i as int] * 0 == 0) by (nonlinear_arith);
                    assert forall|c: int| 0 <= c < n implies #[trigger] row_cell(next, c) == if c
                        == j {
                        val as int
                    } else {
                        row_cell(prefix, c)
                    } by {}
                }
                result.set(j, result[j] + (vec[i] as i128) * (val as i128));
                k += 1;
            }
            proof {
                assert(row.take(row.len() as int) =~= row);
                assert forall|j: int| 0 <= j < n implies result@[j] == column_sum(a, w, j, i + 1) by {
                    assert(w[i as int][j] == row_cell(row, j));
                }
            }
        } else {
            proof {
                assert forall|j: int| 0 <= j < n implies result@[j] == column_sum(a, w, j, i + 1) by {
                    lemma_zero_term(a, w, i as int, j);
                }
            }
        }
        i += 1;
    }
    assert(ints(result@) =~= layer_output(a, w));
    Ok(result)
}

impl SparseMatrix {
    /// The dense matrix that this one stands for: the stored values at their cells, and
    /// zero at every other cell.
    pub fn to_dense(&self) -> (dense: Vec<Vec<i32>>)
        ensures
            rows_of(&dense) == self.expand(),
    {
        proof {
            use_type_invariant(self);
        }
        let rows: usize = self.rows();
        let cols: usize = self.cols();
        let mut dense: Vec<Vec<i32>> = Vec::new();
        let mut i: usize = 0;
        while i < rows
            invariant
                i <= rows,
                rows == self.row_count(),
                cols == self.col_count(),
                self.well_formed(),
                dense@.len() == i,
                forall|r: int| 0 <= r < i ==> (#[trigger] dense@[r])@ == expand_row(self.entries()[r], cols as int),
            decreases rows - i,
        {
            let ghost stored = self.entries()[i as int];
            assert(valid_row(stored, cols as int));
            let entries: Vec<(usize, i32)> = match self.row_entries(i) {
                Some(entries) => entries,
                None => vstd::pervasive::unreached(),
            };
            let mut row: Vec<i32> = vec![0i32; cols];
            let mut k: usize = 0;
            assert(stored.take(0).len() == 0);
            while k < entries.len()
                invariant
                    k <= entries@.len(),
                    valid_row(stored, cols as int),
                    entries@.len() == stored.len(),
                    forall|p: int|
                        0 <= p < entries@.len() ==> (#[trigger] entries@[p].0 as int, entries@[p].1 as int)
                            == stored[p],
                    row@.len() == cols,
                    forall|j: int| 0 <= j < cols ==> #[trigger] row@[j] == row_cell(stored.take(k as int), j),
                decreases entries@.len() - k,
            {
                let entry: (usize, i32) = entries[k];
                proof {
                    let next = stored.take(k + 1);
                    assert((entries@[k as int].0 as int, entries@[k as int].1 as int) == stored[k as int]);
                    assert(next.drop_last() =~= stored.take(k as int));
                    assert(next.last() == stored[k as int]);
                    assert forall|c: int| 0 <= c < cols implies #[trigger] row_cell(next, c) == if c
                        == entry.0 {
                        entry.1 as int
                    } else {
                        row_cell(stored.take(k as int), c)
                    } by {}
                }
                row.set(entry.0, entry.1);
                k += 1;
            }
            proof {
                assert(stored.take(stored.len() as int) =~= stored);
                assert forall|j: int| 0 <= j < cols implies row@[j] == expand_row(stored, cols as int)[j] by {
                    lemma_row_cell_zero(stored, cols as int, j);
                }
                assert(row@ =~= expand_row(stored, cols as int));
            }
            dense.push(row);
            i += 1;
        }
        assert(rows_of(&dense) =~= self.expand());
        dense
    }
}

} // verus!
