//! Owning matrices.

use crate::field::ComplexField;
use crate::mat_mut::MatMut;
use crate::mat_ref::MatRef;
use crate::memory::{Ptr, PtrMut};
use crate::model::{load, MatView, PtrView};
use crate::word::{lemma_wrap_affine, lemma_wrap_stable, signed, signed_word};
use core::ops::Index;
use vstd::arithmetic::div_mod::lemma_fundamental_div_mod_converse;
use vstd::layout;
use vstd::prelude::*;

verus! {

/// A matrix that is stored in column major format: the memory, in which the columns begin
/// `row_capacity` cells apart, the dimensions and the capacities.
#[verifier::ext_equal]
#[verifier::reject_recursive_types(T)]
pub struct OwnedView<T> {
    pub cells: Seq<Option<T>>,
    pub nrows: nat,
    pub ncols: nat,
    pub row_capacity: nat,
    pub col_capacity: nat,
}

/// Whether a matrix of `T` may have the given capacities and dimensions: its capacity in bytes is
/// at most `isize::MAX`. Where `T` takes up no bytes, each element still has to have an address.
pub open spec fn fits<T>(
    row_capacity: nat,
    col_capacity: nat,
    nrows: nat,
    ncols: nat,
) -> bool {
    if layout::size_of::<T>() != 0 {
        row_capacity * col_capacity * layout::size_of::<T>() <= isize::MAX
    } else {
        nrows > 0 && ncols > 0 ==> row_capacity * ncols <= usize::MAX
    }
}

/// The larger of two numbers.
pub open spec fn larger(a: nat, b: nat) -> nat {
    if a >= b {
        a
    } else {
        b
    }
}

impl<T> OwnedView<T> {
    /// The cell in row `i` and column `j`.
    pub open spec fn at(self, i: int, j: int) -> Option<T> {
        load(self.cells, j * self.row_capacity + i)
    }

    /// Whether there is a row `i` and a column `j`.
    pub open spec fn has(self, i: int, j: int) -> bool {
        0 <= i < self.nrows && 0 <= j < self.ncols
    }

    /// Whether the dimensions are within the capacities, which fit, and each element is there.
    pub open spec fn valid(self) -> bool {
        &&& self.nrows <= self.row_capacity
        &&& self.ncols <= self.col_capacity
        &&& fits::<T>(self.row_capacity, self.col_capacity, self.nrows, self.ncols)
        &&& forall|i: int, j: int| self.has(i, j) ==> (#[trigger] self.at(i, j)) is Some
    }

    /// Whether this is `before` with room for at least `row_capacity` rows and `col_capacity`
    /// columns, and with the same elements.
    pub open spec fn reserved_from(
        self,
        before: OwnedView<T>,
        row_capacity: nat,
        col_capacity: nat,
    ) -> bool {
        &&& self.valid()
        &&& self.nrows == before.nrows
        &&& self.ncols == before.ncols
        &&& self.row_capacity == larger(before.row_capacity, row_capacity)
        &&& self.col_capacity == larger(before.col_capacity, col_capacity)
        &&& forall|i: int, j: int|
            before.has(i, j) ==> #[trigger] self.at(i, j) == before.at(i, j)
    }

    /// Whether this is `before` with the dimensions `(nrows, ncols)`, with room for them, and with
    /// the elements of `before` that are still within bounds.
    pub open spec fn resized_from(self, before: OwnedView<T>, nrows: nat, ncols: nat) -> bool {
        &&& self.valid()
        &&& self.nrows == nrows
        &&& self.ncols == ncols
        &&& self.row_capacity == larger(before.row_capacity, nrows)
        &&& self.col_capacity == larger(before.col_capacity, ncols)
        &&& forall|i: int, j: int|
            self.has(i, j) && before.has(i, j) ==> #[trigger] self.at(i, j) == before.at(i, j)
    }

    /// Whether room for `row_capacity` rows is there, and memory has been allocated, so that
    /// columns are added behind those that are there.
    pub open spec fn stays_put(self, row_capacity: nat) -> bool {
        &&& self.row_capacity >= row_capacity
        &&& self.row_capacity != 0
        &&& self.col_capacity != 0
    }

    /// The matrix as a view over its memory.
    pub open spec fn as_mat(self) -> MatView<T> {
        MatView {
            ptr: PtrView { mem: self.cells, pos: 0 },
            nrows: self.nrows,
            ncols: self.ncols,
            row_stride: 1,
            col_stride: signed(self.row_capacity as int),
        }
    }
}

/// Each cell belongs to one row and one column.
pub proof fn lemma_cell_unique(row_capacity: int, i: int, j: int, k: int, l: int)
    requires
        0 <= i < row_capacity,
        0 <= k < row_capacity,
        j * row_capacity + i == l * row_capacity + k,
    ensures
        i == k,
        j == l,
{
    lemma_fundamental_div_mod_converse(j * row_capacity + i, row_capacity, j, i);
    lemma_fundamental_div_mod_converse(l * row_capacity + k, row_capacity, l, k);
}

/// The cell of an element lies before the end of the columns.
pub proof fn lemma_cell_bound(row_capacity: int, ncols: int, i: int, j: int)
    requires
        0 <= i < row_capacity,
        0 <= j < ncols,
    ensures
        0 <= j * row_capacity <= j * row_capacity + i < row_capacity * ncols,
{
    assert(j * row_capacity + i < row_capacity * ncols) by (nonlinear_arith)
        requires
            0 <= i < row_capacity,
            0 <= j < ncols,
    ;
    assert(0 <= j * row_capacity) by (nonlinear_arith)
        requires
            0 <= row_capacity,
            0 <= j,
    ;
}

/// Where the capacities fit and there are elements, the columns end within the address space.
pub proof fn lemma_columns_fit<T>(
    row_capacity: nat,
    col_capacity: nat,
    nrows: nat,
    ncols: nat,
)
    requires
        fits::<T>(row_capacity, col_capacity, nrows, ncols),
        ncols <= col_capacity,
    ensures
        nrows > 0 && ncols > 0 ==> row_capacity * ncols <= usize::MAX,
{
    if layout::size_of::<T>() != 0 {
        let size = layout::size_of::<T>();
        assert(row_capacity * ncols <= row_capacity * col_capacity * size) by (nonlinear_arith)
            requires
                ncols <= col_capacity,
                size >= 1,
        ;
    }
}

/// Capacities that fit still fit when they shrink, and so do dimensions.
pub proof fn lemma_fits_less<T>(
    row_capacity: nat,
    col_capacity: nat,
    nrows: nat,
    ncols: nat,
    row_capacity_less: nat,
    col_capacity_less: nat,
    nrows_less: nat,
    ncols_less: nat,
)
    requires
        fits::<T>(row_capacity, col_capacity, nrows, ncols),
        row_capacity_less <= row_capacity,
        col_capacity_less <= col_capacity,
        nrows_less <= nrows,
        ncols_less <= ncols,
    ensures
        fits::<T>(row_capacity_less, col_capacity_less, nrows_less, ncols_less),
{
    let size = layout::size_of::<T>();
    assert(row_capacity_less * col_capacity_less * size <= row_capacity * col_capacity * size)
        by (nonlinear_arith)
        requires
            row_capacity_less <= row_capacity,
            col_capacity_less <= col_capacity,
    ;
    assert(row_capacity_less * ncols_less <= row_capacity * ncols) by (nonlinear_arith)
        requires
            row_capacity_less <= row_capacity,
            ncols_less <= ncols,
    ;
}

/// The elements of a valid matrix are those of the view over it, and no two of them share a cell.
pub proof fn law_column_major<T>(m: OwnedView<T>)
    requires
        m.valid(),
    ensures
        forall|i: int, j: int|
            m.has(i, j) ==> #[trigger] m.as_mat().addr(i, j) == j * m.row_capacity + i,
        forall|i: int, j: int| m.has(i, j) ==> #[trigger] m.as_mat().at(i, j) == m.at(i, j),
        m.as_mat().readable(),
        m.as_mat().no_alias(),
{
    let v = m.as_mat();
    let rc = m.row_capacity as int;
    assert forall|i: int, j: int| m.has(i, j) implies #[trigger] v.addr(i, j) == j * rc + i by {
        lemma_wrap_stable(rc);
        lemma_wrap_affine(0, 1, signed(rc), 0, 1, rc, i, j);
        lemma_columns_fit::<T>(m.row_capacity, m.col_capacity, m.nrows, m.ncols);
        lemma_cell_bound(rc, m.ncols as int, i, j);
        lemma_wrap_stable(j * rc + i);
    }
    assert forall|i: int, j: int| m.has(i, j) implies #[trigger] v.at(i, j) == m.at(i, j) by {
        assert(v.addr(i, j) == j * rc + i);
    }
    assert forall|i: int, j: int, k: int, l: int|
        #![trigger v.addr(i, j), v.addr(k, l)]
        v.has(i, j) && v.has(k, l) && v.addr(i, j) == v.addr(k, l) implies i == k && j == l by {
        lemma_cell_unique(rc, i, j, k, l);
    }
}

/// Returns the number of bytes that `row_capacity` rows and `col_capacity` columns take up, unless
/// there are more than `isize::MAX` of them.
pub fn checked_capacity<T>(row_capacity: usize, col_capacity: usize) -> (r: Option<usize>)
    ensures
        match r {
            Some(bytes) => bytes == row_capacity * col_capacity * layout::size_of::<T>() && bytes
                <= isize::MAX,
            None => row_capacity * col_capacity * layout::size_of::<T>() > isize::MAX,
        },
{
    let size = core::mem::size_of::<T>();
    let ghost exact = row_capacity * col_capacity * size;
    if size == 0 {
        assert(exact == 0) by (nonlinear_arith)
            requires
                size == 0,
                exact == row_capacity * col_capacity * size,
        ;
        return Some(0);
    }
    assert(exact >= row_capacity * col_capacity) by (nonlinear_arith)
        requires
            size >= 1,
            exact == row_capacity * col_capacity * size,
    ;
    let cap = match row_capacity.checked_mul(col_capacity) {
        Some(cap) => cap,
        None => {
            return None;
        },
    };
    let cap_bytes = match cap.checked_mul(size) {
        Some(cap_bytes) => cap_bytes,
        None => {
            return None;
        },
    };
    if cap_bytes > isize::MAX as usize {
        None
    } else {
        Some(cap_bytes)
    }
}

/// The memory of a matrix, and how many rows and columns it has room for. The cells lie one behind
/// the other, with no alignment but their own, and cells at the end of the memory that have never
/// been written are not stored. Storage for all cells is reserved at once, so that a cell stays
/// where it is for as long as the capacities do. Where that much storage cannot be had, and where
/// `T` takes up no bytes, storage grows with the cells that are written. Each position up to the
/// last element then has a cell.
struct RawMat<T: 'static> {
    cells: Vec<Option<T>>,
    row_capacity: usize,
    col_capacity: usize,
}

impl<T: 'static> RawMat<T> {
    /// Returns memory that holds nothing, with room for `row_capacity` rows and `col_capacity`
    /// columns.
    fn new(row_capacity: usize, col_capacity: usize) -> (r: Self)
        requires
            fits::<T>(row_capacity as nat, col_capacity as nat, 0, 0),
        ensures
            r.cells@ == Seq::<Option<T>>::empty(),
            r.row_capacity == row_capacity,
            r.col_capacity == col_capacity,
    {
        let mut raw = RawMat { cells: Vec::new(), row_capacity, col_capacity };
        raw.reserve();
        raw
    }

    /// Reserves storage for the cells that there is room for.
    fn reserve(&mut self)
        ensures
            *final(self) == (RawMat { cells: final(self).cells, ..*old(self) }),
            final(self).cells@ == old(self).cells@,
    {
        if core::mem::size_of::<T>() == 0 {
            return;
        }
        match self.row_capacity.checked_mul(self.col_capacity) {
            Some(total) => {
                if total > self.cells.len() {
                    let _ = self.cells.try_reserve(total - self.cells.len());
                }
            },
            None => {},
        }
    }

    /// Writes `x` to the cell in row `i` and column `j`.
    fn write(&mut self, i: usize, j: usize, x: T)
        requires
            i < old(self).row_capacity,
            j * old(self).row_capacity + i <= usize::MAX,
        ensures
            final(self).row_capacity == old(self).row_capacity,
            final(self).col_capacity == old(self).col_capacity,
            load(final(self).cells@, j * old(self).row_capacity + i) == Some(x),
            forall|p: int|
                p != j * old(self).row_capacity + i ==> #[trigger] load(final(self).cells@, p)
                    == load(old(self).cells@, p),
    {
        assert(j * self.row_capacity >= 0) by (nonlinear_arith)
            requires
                j >= 0,
                self.row_capacity >= 0,
        ;
        let p: usize = j * self.row_capacity + i;
        while self.cells.len() <= p
            invariant
                self.row_capacity == old(self).row_capacity,
                self.col_capacity == old(self).col_capacity,
                forall|q: int| #[trigger] load(self.cells@, q) == load(old(self).cells@, q),
            decreases p + 1 - self.cells@.len(),
        {
            let ghost cells = self.cells@;
            self.cells.push(None);
            assert forall|q: int| #[trigger] load(self.cells@, q) == load(old(self).cells@, q) by {
                assert(load(cells, q) == load(old(self).cells@, q));
            }
        }
        let ghost cells = self.cells@;
        self.cells.set(p, Some(x));
        assert forall|q: int| q != p implies #[trigger] load(self.cells@, q) == load(
            old(self).cells@,
            q,
        ) by {
            assert(load(cells, q) == load(old(self).cells@, q));
        }
    }

    /// Moves what the cell in row `i` and column `j` holds out of it.
    fn read(&mut self, i: usize, j: usize) -> (r: Option<T>)
        requires
            i < old(self).row_capacity,
            j * old(self).row_capacity + i <= usize::MAX,
        ensures
            final(self).row_capacity == old(self).row_capacity,
            final(self).col_capacity == old(self).col_capacity,
            r == load(old(self).cells@, j * old(self).row_capacity + i),
            load(final(self).cells@, j * old(self).row_capacity + i) is None,
            forall|p: int|
                p != j * old(self).row_capacity + i ==> #[trigger] load(final(self).cells@, p)
                    == load(old(self).cells@, p),
    {
        assert(j * self.row_capacity >= 0) by (nonlinear_arith)
            requires
                j >= 0,
                self.row_capacity >= 0,
        ;
        let p: usize = j * self.row_capacity + i;
        if p < self.cells.len() {
            self.cells[p].take()
        } else {
            None
        }
    }
}

/// Owning 2D matrix stored in column major format.
pub struct Mat<T: 'static> {
    raw: RawMat<T>,
    nrows: usize,
    ncols: usize,
}

impl<T: 'static> View for Mat<T> {
    type V = OwnedView<T>;

    closed spec fn view(&self) -> OwnedView<T> {
        OwnedView {
            cells: self.raw.cells@,
            nrows: self.nrows as nat,
            ncols: self.ncols as nat,
            row_capacity: self.raw.row_capacity as nat,
            col_capacity: self.raw.col_capacity as nat,
        }
    }
}

impl<T: 'static> Mat<T> {
    /// The dimensions and the capacities are machine words.
    pub proof fn law_machine_numbers(&self)
        ensures
            self@.nrows <= usize::MAX,
            self@.ncols <= usize::MAX,
            self@.row_capacity <= usize::MAX,
            self@.col_capacity <= usize::MAX,
    {
    }

    /// Returns a new matrix with dimensions `(0, 0)`. This does not allocate.
    pub fn new() -> (r: Self)
        ensures
            r@ == (OwnedView::<T> {
                cells: Seq::empty(),
                nrows: 0,
                ncols: 0,
                row_capacity: 0,
                col_capacity: 0,
            }),
            r@.valid(),
    {
        assert(0 * 0 * layout::size_of::<T>() == 0) by (nonlinear_arith);
        Mat { raw: RawMat::new(0, 0), nrows: 0, ncols: 0 }
    }

    /// Returns a matrix from its memory, dimensions, and capacities, as `into_raw_parts` gives
    /// them.
    pub fn from_raw_parts(
        cells: Vec<Option<T>>,
        nrows: usize,
        ncols: usize,
        row_capacity: usize,
        col_capacity: usize,
    ) -> (r: Self)
        requires
            (OwnedView {
                cells: cells@,
                nrows: nrows as nat,
                ncols: ncols as nat,
                row_capacity: row_capacity as nat,
                col_capacity: col_capacity as nat,
            }).valid(),
        ensures
            r@ == (OwnedView {
                cells: cells@,
                nrows: nrows as nat,
                ncols: ncols as nat,
                row_capacity: row_capacity as nat,
                col_capacity: col_capacity as nat,
            }),
            r@.valid(),
    {
        Mat { raw: RawMat { cells, row_capacity, col_capacity }, nrows, ncols }
    }

    /// Consumes `self` and returns its raw parts in this order: memory, number of rows, number of
    /// columns, row capacity and column capacity.
    pub fn into_raw_parts(self) -> (r: (Vec<Option<T>>, usize, usize, usize, usize))
        ensures
            self@ == (OwnedView {
                cells: r.0@,
                nrows: r.1 as nat,
                ncols: r.2 as nat,
                row_capacity: r.3 as nat,
                col_capacity: r.4 as nat,
            }),
    {
        (self.raw.cells, self.nrows, self.ncols, self.raw.row_capacity, self.raw.col_capacity)
    }

    /// Returns a new matrix with dimensions `(0, 0)`, with enough capacity to hold a maximum of
    /// `row_capacity` rows and `col_capacity` columns without reallocating, as far as the storage
    /// can be had. If either is `0`, the matrix will not allocate. The total capacity in bytes may
    /// not exceed `isize::MAX`.
    pub fn with_capacity(row_capacity: usize, col_capacity: usize) -> (r: Self)
        requires
            fits::<T>(row_capacity as nat, col_capacity as nat, 0, 0),
        ensures
            r@ == (OwnedView::<T> {
                cells: Seq::empty(),
                nrows: 0,
                ncols: 0,
                row_capacity: row_capacity as nat,
                col_capacity: col_capacity as nat,
            }),
            r@.valid(),
    {
        Mat { raw: RawMat::new(row_capacity, col_capacity), nrows: 0, ncols: 0 }
    }

    /// Set the dimensions of the matrix. The elements that were previously out of bounds but are
    /// now in bounds must be initialized. The elements that are now out of bounds stay in their
    /// cells. They are dropped when the cell is written, when the columns move, or with the matrix.
    pub fn set_dims(&mut self, nrows: usize, ncols: usize)
        requires
            (OwnedView { nrows: nrows as nat, ncols: ncols as nat, ..old(self)@ }).valid(),
        ensures
            final(self)@ == (OwnedView { nrows: nrows as nat, ncols: ncols as nat, ..old(self)@ }),
            final(self)@.valid(),
    {
        self.nrows = nrows;
        self.ncols = ncols;
    }

    /// Returns a pointer to the data of the matrix.
    pub fn as_ptr(&self) -> (r: Ptr<'_, T>)
        ensures
            r@ == (PtrView { mem: self@.cells, pos: 0 }),
    {
        Ptr::from_cells(self.raw.cells.as_slice())
    }

    /// Returns a mutable pointer to the data of the matrix.
    pub fn as_mut_ptr<'a>(&'a mut self) -> (r: PtrMut<'a, T>)
        ensures
            final(self)@ == (OwnedView { cells: final(self)@.cells, ..old(self)@ }),
            final(self)@.cells.len() == old(self)@.cells.len(),
            r@.pos == 0,
            r@.mem.len() == old(self)@.cells.len(),
            forall|p: int|
                #![trigger r@.mem[p]]
                #![trigger final(self)@.cells[p]]
                0 <= p < r@.mem.len() ==> match old(self)@.cells[p] {
                    Some(x) => r@.mem[p] is Some && *r@.mem[p]->0 == x && final(self)@.cells[p]
                        == Some(*final(r@.mem[p]->0)),
                    None => r@.mem[p] is None && final(self)@.cells[p] is None,
                },
    {
        PtrMut::from_cells(self.raw.cells.as_mut_slice())
    }

    /// Returns the number of rows of the matrix.
    pub fn nrows(&self) -> (r: usize)
        ensures
            r == self@.nrows,
    {
        self.nrows
    }

    /// Returns the number of columns of the matrix.
    pub fn ncols(&self) -> (r: usize)
        ensures
            r == self@.ncols,
    {
        self.ncols
    }

    /// Returns the row capacity, that is, the number of rows that the matrix is able to hold
    /// without needing to reallocate, excluding column insertions.
    pub fn row_capacity(&self) -> (r: usize)
        ensures
            r == self@.row_capacity,
    {
        self.raw.row_capacity
    }

    /// Returns the column capacity, that is, the number of columns that the matrix is able to hold
    /// without needing to reallocate, excluding row insertions.
    pub fn col_capacity(&self) -> (r: usize)
        ensures
            r == self@.col_capacity,
    {
        self.raw.col_capacity
    }

    /// Returns the offset between the first elements of two successive rows in the matrix.
    /// Always returns `1` since the matrix is column major.
    pub fn row_stride(&self) -> (r: isize)
        ensures
            r == 1,
    {
        1
    }

    /// Returns the offset between the first elements of two successive columns in the matrix.
    pub fn col_stride(&self) -> (r: isize)
        ensures
            r == signed(self@.row_capacity as int),
    {
        signed_word(self.raw.row_capacity)
    }

    /// Makes room for at least `new_row_capacity` rows and `new_col_capacity` columns. Columns
    /// that stay where they are keep all of their cells, and columns that move keep their elements.
    fn do_reserve_exact(&mut self, new_row_capacity: usize, new_col_capacity: usize)
        requires
            old(self)@.valid(),
            fits::<T>(
                larger(old(self)@.row_capacity, new_row_capacity as nat),
                larger(old(self)@.col_capacity, new_col_capacity as nat),
                old(self)@.nrows,
                old(self)@.ncols,
            ),
        ensures
            final(self)@ == (OwnedView {
                cells: final(self)@.cells,
                nrows: old(self)@.nrows,
                ncols: old(self)@.ncols,
                row_capacity: larger(old(self)@.row_capacity, new_row_capacity as nat),
                col_capacity: larger(old(self)@.col_capacity, new_col_capacity as nat),
            }),
            final(self)@.valid(),
            old(self)@.stays_put(new_row_capacity as nat) ==> final(self)@.cells == old(self)@.cells,
            !old(self)@.stays_put(new_row_capacity as nat) ==> forall|i: int, j: int|
                0 <= i < final(self)@.row_capacity ==> #[trigger] final(self)@.at(i, j) == if old(
                    self)@.has(i, j) {
                    old(self)@.at(i, j)
                } else {
                    None
                },
    {
        let row_capacity = self.raw.row_capacity;
        let col_capacity = self.raw.col_capacity;
        let new_row_capacity = if row_capacity >= new_row_capacity {
            row_capacity
        } else {
            new_row_capacity
        };
        let new_col_capacity = if col_capacity >= new_col_capacity {
            col_capacity
        } else {
            new_col_capacity
        };
        if row_capacity == new_row_capacity && row_capacity != 0 && col_capacity != 0 {
            self.raw.col_capacity = new_col_capacity;
            self.raw.reserve();
            assert(self@.cells == old(self)@.cells);
            assert forall|i: int, j: int| self@.has(i, j) implies (#[trigger] self@.at(
                i,
                j,
            )) is Some by {
                assert(old(self)@.at(i, j) is Some);
            }
        } else {
            let ghost before = self@;
            proof {
                lemma_columns_fit::<T>(
                    row_capacity as nat,
                    col_capacity as nat,
                    self.nrows as nat,
                    self.ncols as nat,
                );
                lemma_columns_fit::<T>(
                    new_row_capacity as nat,
                    new_col_capacity as nat,
                    self.nrows as nat,
                    self.ncols as nat,
                );
                lemma_fits_less::<T>(
                    new_row_capacity as nat,
                    new_col_capacity as nat,
                    self.nrows as nat,
                    self.ncols as nat,
                    new_row_capacity as nat,
                    new_col_capacity as nat,
                    0,
                    0,
                );
            }
            let nrows = self.nrows;
            let ncols = self.ncols;
            let mut raw = RawMat::<T>::new(new_row_capacity, new_col_capacity);
            let mut j: usize = 0;
            while j < ncols
                invariant
                    j <= ncols,
                    nrows == before.nrows,
                    ncols == before.ncols,
                    row_capacity == before.row_capacity,
                    self.nrows == nrows,
                    self.ncols == ncols,
                    self.raw.row_capacity == row_capacity,
                    self.raw.col_capacity == col_capacity,
                    raw.row_capacity == new_row_capacity,
                    raw.col_capacity == new_col_capacity,
                    nrows <= row_capacity,
                    nrows <= new_row_capacity,
                    before.valid(),
                    nrows > 0 && ncols > 0 ==> row_capacity * ncols <= usize::MAX,
                    nrows > 0 && ncols > 0 ==> new_row_capacity * ncols <= usize::MAX,
                    forall|k: int, l: int|
                        0 <= k < nrows && j <= l < ncols ==> #[trigger] load(
                            self.raw.cells@,
                            l * row_capacity + k,
                        ) == before.at(k, l),
                    forall|k: int, l: int|
                        0 <= k < new_row_capacity ==> #[trigger] load(
                            raw.cells@,
                            l * new_row_capacity + k,
                        ) == if 0 <= k < nrows && 0 <= l < j {
                            before.at(k, l)
                        } else {
                            None
                        },
                decreases ncols - j,
            {
                let mut i: usize = 0;
                while i < nrows
                    invariant
                        i <= nrows,
                        j < ncols,
                        nrows == before.nrows,
                        ncols == before.ncols,
                        row_capacity == before.row_capacity,
                        self.nrows == nrows,
                        self.ncols == ncols,
                        self.raw.row_capacity == row_capacity,
                        self.raw.col_capacity == col_capacity,
                        raw.row_capacity == new_row_capacity,
                        raw.col_capacity == new_col_capacity,
                        nrows <= row_capacity,
                        nrows <= new_row_capacity,
                        before.valid(),
                        nrows > 0 && ncols > 0 ==> row_capacity * ncols <= usize::MAX,
                        nrows > 0 && ncols > 0 ==> new_row_capacity * ncols <= usize::MAX,
                        forall|k: int, l: int|
                            0 <= k < nrows && j <= l < ncols && (l > j || k >= i) ==> #[trigger] load(
                                self.raw.cells@,
                                l * row_capacity + k,
                            ) == before.at(k, l),
                        forall|k: int, l: int|
                            0 <= k < new_row_capacity ==> #[trigger] load(
                                raw.cells@,
                                l * new_row_capacity + k,
                            ) == if 0 <= k < nrows && 0 <= l && (l < j || l == j && k < i) {
                                before.at(k, l)
                            } else {
                                None
                            },
                    decreases nrows - i,
                {
                    proof {
                        lemma_cell_bound(row_capacity as int, ncols as int, i as int, j as int);
                        lemma_cell_bound(new_row_capacity as int, ncols as int, i as int, j as int);
                        assert(before.at(i as int, j as int) is Some);
                    }
                    let ghost cells = self.raw.cells@;
                    let ghost moved = raw.cells@;
                    match self.raw.read(i, j) {
                        Some(x) => raw.write(i, j, x),
                        None => {},
                    }
                    proof {
                        assert forall|k: int, l: int|
                            0 <= k < nrows && j <= l < ncols && (l > j || k >= i + 1)
                                implies #[trigger] load(
                            self.raw.cells@,
                            l * row_capacity + k,
                        ) == before.at(k, l) by {
                            if l * row_capacity + k == j * row_capacity + i {
                                lemma_cell_unique(
                                    row_capacity as int,
                                    i as int,
                                    j as int,
                                    k,
                                    l,
                                );
                            }
                            assert(load(cells, l * row_capacity + k) == before.at(k, l));
                        }
                        assert forall|k: int, l: int| 0 <= k < new_row_capacity implies #[trigger] load(
                            raw.cells@,
                            l * new_row_capacity + k,
                        ) == if 0 <= k < nrows && 0 <= l && (l < j || l == j && k < i + 1) {
                            before.at(k, l)
                        } else {
                            None
                        } by {
                            if l * new_row_capacity + k == j * new_row_capacity + i {
                                lemma_cell_unique(
                                    new_row_capacity as int,
                                    i as int,
                                    j as int,
                                    k,
                                    l,
                                );
                            }
                            assert(load(moved, l * new_row_capacity + k) == if 0 <= k < nrows && 0
                                <= l && (l < j || l == j && k < i) {
                                before.at(k, l)
                            } else {
                                None
                            });
                        }
                    }
                    i += 1;
                }
                j += 1;
            }
            self.raw = raw;
            assert forall|k: int, l: int| 0 <= k < new_row_capacity implies #[trigger] self@.at(k, l)
                == if before.has(k, l) {
                before.at(k, l)
            } else {
                None
            } by {
                assert(self@.at(k, l) == load(self.raw.cells@, l * new_row_capacity + k));
            }
        }
    }

    /// Reserves the minimum capacity for `row_capacity` rows and `col_capacity`
    /// columns without reallocating. Does nothing if the capacity is already sufficient. The new
    /// total capacity in bytes may not exceed `isize::MAX`.
    pub fn reserve_exact(&mut self, row_capacity: usize, col_capacity: usize)
        requires
            old(self)@.valid(),
            fits::<T>(
                larger(old(self)@.row_capacity, row_capacity as nat),
                larger(old(self)@.col_capacity, col_capacity as nat),
                old(self)@.nrows,
                old(self)@.ncols,
            ),
        ensures
            final(self)@.reserved_from(old(self)@, row_capacity as nat, col_capacity as nat),
            old(self)@.stays_put(row_capacity as nat) ==> final(self)@.cells == old(self)@.cells,
            old(self)@.row_capacity >= row_capacity && old(self)@.row_capacity > 0 && old(
                self,
            )@.col_capacity > 0 ==> final(self)@.cells == old(self)@.cells,
            final(self)@.nrows == old(self)@.nrows,
            final(self)@.ncols == old(self)@.ncols,
            old(self)@.row_capacity >= row_capacity && old(self)@.col_capacity >= col_capacity
                ==> final(self)@ == old(self)@,
            final(self)@.cells == old(self)@.cells && final(self)@.row_capacity
                == old(self)@.row_capacity || forall|i: int, j: int|
                0 <= i < final(self)@.row_capacity && !old(self)@.has(i, j) ==> (
                #[trigger] final(self)@.at(i, j)) is None,
    {
        if self.raw.row_capacity >= row_capacity && self.raw.col_capacity >= col_capacity {
            // do nothing
        } else {
            self.do_reserve_exact(row_capacity, col_capacity);
        }
    }

    /// Empties the cells of the rows from `row_start` to `row_end`, in the columns from `col_start`
    /// to `col_end`.
    fn erase_block(&mut self, row_start: usize, row_end: usize, col_start: usize, col_end: usize)
        requires
            row_start <= row_end <= old(self)@.row_capacity,
            col_start <= col_end,
            row_start < row_end && col_start < col_end ==> old(self)@.row_capacity * col_end
                <= usize::MAX,
        ensures
            final(self)@ == (OwnedView { cells: final(self)@.cells, ..old(self)@ }),
            forall|i: int, j: int|
                0 <= i < old(self)@.row_capacity ==> #[trigger] final(self)@.at(i, j) == if row_start
                    <= i < row_end && col_start <= j < col_end {
                    None
                } else {
                    old(self)@.at(i, j)
                },
    {
        let ghost before = self@;
        let mut j: usize = col_start;
        while j < col_end
            invariant
                col_start <= j <= col_end,
                row_start <= row_end <= before.row_capacity,
                row_start < row_end && col_start < col_end ==> before.row_capacity * col_end
                    <= usize::MAX,
                self@ == (OwnedView { cells: self@.cells, ..before }),
                forall|k: int, l: int|
                    0 <= k < before.row_capacity ==> #[trigger] self@.at(k, l) == if row_start <= k
                        < row_end && col_start <= l < j {
                        None
                    } else {
                        before.at(k, l)
                    },
            decreases col_end - j,
        {
            let mut i: usize = row_start;
            while i < row_end
                invariant
                    col_start <= j < col_end,
                    row_start <= i <= row_end <= before.row_capacity,
                    row_start < row_end && col_start < col_end ==> before.row_capacity * col_end
                        <= usize::MAX,
                    self@ == (OwnedView { cells: self@.cells, ..before }),
                    forall|k: int, l: int|
                        0 <= k < before.row_capacity ==> #[trigger] self@.at(k, l) == if row_start
                            <= k < row_end && col_start <= l && (l < j || l == j && k < i) {
                            None
                        } else {
                            before.at(k, l)
                        },
                decreases row_end - i,
            {
                let ghost mid = self@;
                let ghost rc = before.row_capacity as int;
                proof {
                    lemma_cell_bound(rc, col_end as int, i as int, j as int);
                }
                let _ = self.raw.read(i, j);
                proof {
                    assert forall|k: int, l: int| 0 <= k < rc implies #[trigger] self@.at(k, l)
                        == if row_start <= k < row_end && col_start <= l && (l < j || l == j && k
                        < i + 1) {
                        None
                    } else {
                        before.at(k, l)
                    } by {
                        if l * rc + k == j * rc + i {
                            lemma_cell_unique(rc, i as int, j as int, k, l);
                        } else {
                            assert(self@.at(k, l) == mid.at(k, l));
                        }
                    }
                }
                i += 1;
            }
            j += 1;
        }
    }

    /// Fills the cells of the rows from `row_start` to `row_end`, in the columns from `col_start`
    /// to `col_end`, with what `f` returns for the row and the column.
    fn insert_block_with<F: Fn(usize, usize) -> T>(
        &mut self,
        f: &F,
        row_start: usize,
        row_end: usize,
        col_start: usize,
        col_end: usize,
    )
        requires
            row_start <= row_end <= old(self)@.row_capacity,
            col_start <= col_end,
            row_start < row_end && col_start < col_end ==> old(self)@.row_capacity * col_end
                <= usize::MAX,
            forall|i: usize, j: usize|
                row_start <= i < row_end && col_start <= j < col_end ==> #[trigger] f.requires(
                    (i, j),
                ),
        ensures
            final(self)@ == (OwnedView { cells: final(self)@.cells, ..old(self)@ }),
            forall|i: usize, j: usize|
                row_start <= i < row_end && col_start <= j < col_end ==> (#[trigger] final(self)@.at(
                    i as int,
                    j as int,
                )) is Some && f.ensures((i, j), final(self)@.at(i as int, j as int)->0),
            forall|i: int, j: int|
                0 <= i < old(self)@.row_capacity && !(row_start <= i < row_end && col_start <= j
                    < col_end) ==> #[trigger] final(self)@.at(i, j) == old(self)@.at(i, j),
    {
        let ghost before = self@;
        let mut j: usize = col_start;
        while j < col_end
            invariant
                col_start <= j <= col_end,
                row_start <= row_end <= before.row_capacity,
                row_start < row_end && col_start < col_end ==> before.row_capacity * col_end
                    <= usize::MAX,
                forall|i: usize, j: usize|
                    row_start <= i < row_end && col_start <= j < col_end ==> #[trigger] f.requires(
                        (i, j),
                    ),
                self@ == (OwnedView { cells: self@.cells, ..before }),
                forall|k: usize, l: usize|
                    row_start <= k < row_end && col_start <= l < j ==> (#[trigger] self@.at(
                        k as int,
                        l as int,
                    )) is Some && f.ensures((k, l), self@.at(k as int, l as int)->0),
                forall|k: int, l: int|
                    0 <= k < before.row_capacity && !(row_start <= k < row_end && col_start <= l
                        < j) ==> #[trigger] self@.at(k, l) == before.at(k, l),
            decreases col_end - j,
        {
            let mut i: usize = row_start;
            while i < row_end
                invariant
                    col_start <= j < col_end,
                    row_start <= i <= row_end <= before.row_capacity,
                    row_start < row_end && col_start < col_end ==> before.row_capacity * col_end
                        <= usize::MAX,
                    forall|i: usize, j: usize|
                        row_start <= i < row_end && col_start <= j < col_end
                            ==> #[trigger] f.requires((i, j)),
                    self@ == (OwnedView { cells: self@.cells, ..before }),
                    forall|k: usize, l: usize|
                        row_start <= k < row_end && col_start <= l && (l < j || l == j && k < i)
                            ==> (#[trigger] self@.at(k as int, l as int)) is Some && f.ensures(
                            (k, l),
                            self@.at(k as int, l as int)->0,
                        ),
                    forall|k: int, l: int|
                        0 <= k < before.row_capacity && !(row_start <= k < row_end && col_start
                            <= l && (l < j || l == j && k < i)) ==> #[trigger] self@.at(k, l)
                            == before.at(k, l),
                decreases row_end - i,
            {
                let ghost mid = self@;
                let ghost rc = before.row_capacity as int;
                proof {
                    lemma_cell_bound(rc, col_end as int, i as int, j as int);
                }
                let x = f(i, j);
                self.raw.write(i, j, x);
                proof {
                    assert(self@.at(i as int, j as int) == Some(x));
                    assert forall|k: int, l: int| 0 <= k < rc && (k != i || l != j) implies
                        #[trigger] self@.at(k, l) == mid.at(k, l) by {
                        if l * rc + k == j * rc + i {
                            lemma_cell_unique(rc, i as int, j as int, k, l);
                        }
                    }
                    assert forall|k: usize, l: usize|
                        row_start <= k < row_end && col_start <= l && (l < j || l == j && k < i + 1)
                            implies (#[trigger] self@.at(k as int, l as int)) is Some && f.ensures(
                        (k, l),
                        self@.at(k as int, l as int)->0,
                    ) by {
                        if k != i || l != j {
                            assert(self@.at(k as int, l as int) == mid.at(k as int, l as int));
                        }
                    }
                }
                i += 1;
            }
            j += 1;
        }
    }

    /// Drops the columns from `new_ncols` on.
    fn erase_last_cols(&mut self, new_ncols: usize)
        requires
            old(self)@.valid(),
            new_ncols <= old(self)@.ncols,
        ensures
            final(self)@ == (OwnedView {
                cells: final(self)@.cells,
                ncols: new_ncols as nat,
                ..old(self)@
            }),
            final(self)@.valid(),
            forall|i: int, j: int|
                0 <= i < old(self)@.row_capacity ==> #[trigger] final(self)@.at(i, j) == if 0 <= i
                    < old(self)@.nrows && new_ncols <= j < old(self)@.ncols {
                    None
                } else {
                    old(self)@.at(i, j)
                },
    {
        let ghost before = self@;
        let old_ncols = self.ncols;
        let nrows = self.nrows;
        proof {
            lemma_columns_fit::<T>(
                before.row_capacity,
                before.col_capacity,
                before.nrows,
                before.ncols,
            );
            lemma_fits_less::<T>(
                before.row_capacity,
                before.col_capacity,
                before.nrows,
                before.ncols,
                before.row_capacity,
                before.col_capacity,
                before.nrows,
                new_ncols as nat,
            );
        }
        self.ncols = new_ncols;
        let ghost mid = self@;
        self.erase_block(0, nrows, new_ncols, old_ncols);
        proof {
            assert forall|i: int, j: int| 0 <= i < before.row_capacity implies mid.at(i, j)
                == #[trigger] before.at(i, j) by {}
            assert forall|i: int, j: int|
                0 <= i < before.row_capacity implies #[trigger] self@.at(i, j) == if 0 <= i
                < before.nrows && new_ncols <= j < before.ncols {
                None
            } else {
                before.at(i, j)
            } by {
                assert(mid.at(i, j) == before.at(i, j));
            }
        }
    }

    /// Drops the rows from `new_nrows` on.
    fn erase_last_rows(&mut self, new_nrows: usize)
        requires
            old(self)@.valid(),
            new_nrows <= old(self)@.nrows,
        ensures
            final(self)@ == (OwnedView {
                cells: final(self)@.cells,
                nrows: new_nrows as nat,
                ..old(self)@
            }),
            final(self)@.valid(),
            forall|i: int, j: int|
                0 <= i < old(self)@.row_capacity ==> #[trigger] final(self)@.at(i, j) == if new_nrows
                    <= i < old(self)@.nrows && 0 <= j < old(self)@.ncols {
                    None
                } else {
                    old(self)@.at(i, j)
                },
    {
        let ghost before = self@;
        let old_nrows = self.nrows;
        let ncols = self.ncols;
        proof {
            lemma_columns_fit::<T>(
                before.row_capacity,
                before.col_capacity,
                before.nrows,
                before.ncols,
            );
            lemma_fits_less::<T>(
                before.row_capacity,
                before.col_capacity,
                before.nrows,
                before.ncols,
                before.row_capacity,
                before.col_capacity,
                new_nrows as nat,
                before.ncols,
            );
        }
        self.nrows = new_nrows;
        let ghost mid = self@;
        self.erase_block(new_nrows, old_nrows, 0, ncols);
        proof {
            assert forall|i: int, j: int|
                0 <= i < before.row_capacity implies #[trigger] self@.at(i, j) == if new_nrows <= i
                < before.nrows && 0 <= j < before.ncols {
                None
            } else {
                before.at(i, j)
            } by {
                assert(mid.at(i, j) == before.at(i, j));
            }
        }
    }

    /// Appends the columns from the present number of columns to `new_ncols`.
    fn insert_last_cols_with<F: Fn(usize, usize) -> T>(&mut self, f: &F, new_ncols: usize)
        requires
            old(self)@.valid(),
            old(self)@.ncols <= new_ncols <= old(self)@.col_capacity,
            fits::<T>(
                old(self)@.row_capacity,
                old(self)@.col_capacity,
                old(self)@.nrows,
                new_ncols as nat,
            ),
            forall|i: usize, j: usize|
                i < old(self)@.nrows && old(self)@.ncols <= j < new_ncols ==> #[trigger] f.requires(
                    (i, j),
                ),
        ensures
            final(self)@ == (OwnedView {
                cells: final(self)@.cells,
                ncols: new_ncols as nat,
                ..old(self)@
            }),
            final(self)@.valid(),
            forall|i: int, j: int|
                0 <= i < old(self)@.row_capacity && !(0 <= i < old(self)@.nrows && old(self)@.ncols
                    <= j < new_ncols) ==> #[trigger] final(self)@.at(i, j) == old(self)@.at(i, j),
            forall|i: usize, j: usize|
                i < old(self)@.nrows && old(self)@.ncols <= j < new_ncols ==> f.ensures(
                    (i, j),
                    (#[trigger] final(self)@.at(i as int, j as int))->0,
                ),
    {
        let ghost before = self@;
        let old_ncols = self.ncols;
        let nrows = self.nrows;
        proof {
            lemma_columns_fit::<T>(
                before.row_capacity,
                before.col_capacity,
                before.nrows,
                new_ncols as nat,
            );
        }
        self.insert_block_with(f, 0, nrows, old_ncols, new_ncols);
        let ghost mid = self@;
        self.ncols = new_ncols;
        proof {
            assert forall|i: int, j: int| self@.at(i, j) == #[trigger] mid.at(i, j) by {}
            assert forall|i: int, j: int| self@.has(i, j) implies (#[trigger] self@.at(
                i,
                j,
            )) is Some by {
                if j < old_ncols {
                    assert(mid.at(i, j) == before.at(i, j));
                } else {
                    let (k, l) = (i as usize, j as usize);
                    assert(mid.at(k as int, l as int) is Some);
                }
            }
            assert forall|i: int, j: int|
                0 <= i < before.row_capacity && !(0 <= i < before.nrows && before.ncols <= j
                    < new_ncols) implies #[trigger] self@.at(i, j) == before.at(i, j) by {
                assert(mid.at(i, j) == before.at(i, j));
            }
            assert forall|i: usize, j: usize|
                i < before.nrows && before.ncols <= j < new_ncols implies f.ensures(
                (i, j),
                (#[trigger] self@.at(i as int, j as int))->0,
            ) by {
                assert(mid.at(i as int, j as int) is Some);
            }
        }
    }

    /// Appends the rows from the present number of rows to `new_nrows`.
    fn insert_last_rows_with<F: Fn(usize, usize) -> T>(&mut self, f: &F, new_nrows: usize)
        requires
            old(self)@.valid(),
            old(self)@.nrows <= new_nrows <= old(self)@.row_capacity,
            fits::<T>(
                old(self)@.row_capacity,
                old(self)@.col_capacity,
                new_nrows as nat,
                old(self)@.ncols,
            ),
            forall|i: usize, j: usize|
                old(self)@.nrows <= i < new_nrows && j < old(self)@.ncols ==> #[trigger] f.requires(
                    (i, j),
                ),
        ensures
            final(self)@ == (OwnedView {
                cells: final(self)@.cells,
                nrows: new_nrows as nat,
                ..old(self)@
            }),
            final(self)@.valid(),
            forall|i: int, j: int|
                0 <= i < old(self)@.row_capacity && !(old(self)@.nrows <= i < new_nrows && 0 <= j
                    < old(self)@.ncols) ==> #[trigger] final(self)@.at(i, j) == old(self)@.at(i, j),
            forall|i: usize, j: usize|
                old(self)@.nrows <= i < new_nrows && j < old(self)@.ncols ==> f.ensures(
                    (i, j),
                    (#[trigger] final(self)@.at(i as int, j as int))->0,
                ),
    {
        let ghost before = self@;
        let old_nrows = self.nrows;
        let ncols = self.ncols;
        proof {
            lemma_columns_fit::<T>(
                before.row_capacity,
                before.col_capacity,
                new_nrows as nat,
                before.ncols,
            );
        }
        self.insert_block_with(f, old_nrows, new_nrows, 0, ncols);
        let ghost mid = self@;
        self.nrows = new_nrows;
        proof {
            assert forall|i: int, j: int| self@.at(i, j) == #[trigger] mid.at(i, j) by {}
            assert forall|i: int, j: int| self@.has(i, j) implies (#[trigger] self@.at(
                i,
                j,
            )) is Some by {
                if i < old_nrows {
                    assert(mid.at(i, j) == before.at(i, j));
                } else {
                    let (k, l) = (i as usize, j as usize);
                    assert(mid.at(k as int, l as int) is Some);
                }
            }
            assert forall|i: int, j: int|
                0 <= i < before.row_capacity && !(before.nrows <= i < new_nrows && 0 <= j
                    < before.ncols) implies #[trigger] self@.at(i, j) == before.at(i, j) by {
                assert(mid.at(i, j) == before.at(i, j));
            }
            assert forall|i: usize, j: usize|
                before.nrows <= i < new_nrows && j < before.ncols implies f.ensures(
                (i, j),
                (#[trigger] self@.at(i as int, j as int))->0,
            ) by {
                assert(mid.at(i as int, j as int) is Some);
            }
        }
    }

    /// Resizes the matrix in-place so that the new dimensions are `(new_nrows, new_ncols)`.
    /// Elements that are now out of bounds are dropped, while new elements are created with the
    /// given function `f`, so that elements at position `(i, j)` are created by calling `f(i, j)`.
    /// The new total capacity in bytes may not exceed `isize::MAX`. Where `f` panics, the elements
    /// that it has created stay in their cells, out of bounds.
    pub fn resize_with<F: Fn(usize, usize) -> T>(
        &mut self,
        f: F,
        new_nrows: usize,
        new_ncols: usize,
    )
        requires
            old(self)@.valid(),
            fits::<T>(
                larger(old(self)@.row_capacity, new_nrows as nat),
                larger(old(self)@.col_capacity, new_ncols as nat),
                new_nrows as nat,
                new_ncols as nat,
            ),
            forall|i: usize, j: usize|
                i < new_nrows && j < new_ncols && !old(self)@.has(i as int, j as int)
                    ==> #[trigger] f.requires((i, j)),
        ensures
            final(self)@.resized_from(old(self)@, new_nrows as nat, new_ncols as nat),
            final(self)@.nrows == new_nrows,
            final(self)@.ncols == new_ncols,
            forall|i: int, j: int|
                0 <= i < new_nrows && 0 <= j < new_ncols && i < old(self)@.nrows && j < old(
                    self,
                )@.ncols ==> #[trigger] final(self)@.at(i, j) == old(self)@.at(i, j),
            forall|i: int, j: int|
                old(self)@.has(i, j) && !final(self)@.has(i, j) ==> (#[trigger] final(self)@.at(
                    i,
                    j,
                )) is None,
            forall|i: usize, j: usize|
                i < new_nrows && j < new_ncols && !old(self)@.has(i as int, j as int)
                    ==> f.ensures((i, j), (#[trigger] final(self)@.at(i as int, j as int))->0),
    {
        let ghost before = self@;
        let old_nrows = self.nrows;
        let old_ncols = self.ncols;
        proof {
            let rc = larger(before.row_capacity, new_nrows as nat);
            let cc = larger(before.col_capacity, new_ncols as nat);
            let nr = new_nrows as nat;
            let nc = new_ncols as nat;
            if old_nrows < nr {
                lemma_fits_less::<T>(rc, cc, nr, nc, rc, cc, before.nrows, nc);
            }
            if old_ncols < nc {
                lemma_fits_less::<T>(rc, cc, nr, nc, rc, cc, nr, before.ncols);
                if old_nrows < nr {
                    lemma_fits_less::<T>(rc, cc, nr, nc, rc, cc, before.nrows, before.ncols);
                }
            }
        }
        if new_ncols <= old_ncols {
            self.erase_last_cols(new_ncols);
            let ghost mid = self@;
            assert forall|i: int, j: int| before.has(i, j) implies #[trigger] mid.at(i, j) == if j
                < new_ncols {
                before.at(i, j)
            } else {
                None
            } by {}
            if new_nrows <= old_nrows {
                self.erase_last_rows(new_nrows);
                assert forall|i: int, j: int| before.has(i, j) implies #[trigger] self@.at(i, j)
                    == if self@.has(i, j) {
                    before.at(i, j)
                } else {
                    None
                } by {
                    assert(mid.at(i, j) == if j < new_ncols {
                        before.at(i, j)
                    } else {
                        None
                    });
                }
            } else {
                self.reserve_exact(new_nrows, new_ncols);
                let ghost grown = self@;
                self.insert_last_rows_with(&f, new_nrows);
                assert forall|i: int, j: int| before.has(i, j) implies #[trigger] self@.at(i, j)
                    == if self@.has(i, j) {
                    before.at(i, j)
                } else {
                    None
                } by {
                    assert(mid.at(i, j) == if j < new_ncols {
                        before.at(i, j)
                    } else {
                        None
                    });
                    assert(grown.at(i, j) == mid.at(i, j));
                }
            }
        } else {
            if new_nrows <= old_nrows {
                self.erase_last_rows(new_nrows);
            } else {
                self.reserve_exact(new_nrows, new_ncols);
                let ghost grown = self@;
                self.insert_last_rows_with(&f, new_nrows);
                assert forall|i: int, j: int| before.has(i, j) implies #[trigger] self@.at(i, j)
                    == before.at(i, j) by {
                    assert(grown.at(i, j) == before.at(i, j));
                }
            }
            let ghost tall = self@;
            assert forall|i: int, j: int| before.has(i, j) implies #[trigger] tall.at(i, j) == if i
                < new_nrows {
                before.at(i, j)
            } else {
                None
            } by {}
            self.reserve_exact(new_nrows, new_ncols);
            let ghost wide = self@;
            self.insert_last_cols_with(&f, new_ncols);
            proof {
                assert forall|i: int, j: int| tall.has(i, j) implies #[trigger] self@.at(i, j)
                    == tall.at(i, j) by {
                    assert(wide.at(i, j) == tall.at(i, j));
                }
                assert forall|i: int, j: int| before.has(i, j) implies #[trigger] self@.at(i, j)
                    == if self@.has(i, j) {
                    before.at(i, j)
                } else {
                    None
                } by {
                    assert(tall.at(i, j) == if i < new_nrows {
                        before.at(i, j)
                    } else {
                        None
                    });
                    assert(wide.at(i, j) == tall.at(i, j));
                }
            }
        }
    }

    /// Returns a view over the matrix.
    pub fn as_ref(&self) -> (r: MatRef<'_, T>)
        ensures
            r@ == self@.as_mat(),
            r@.nrows == self@.nrows,
            r@.ncols == self@.ncols,
            self@.valid() ==> forall|i: int, j: int|
                self@.has(i, j) ==> #[trigger] r@.at(i, j) == self@.at(i, j),
    {
        proof {
            if self@.valid() {
                law_column_major(self@);
            }
        }
        MatRef::from_raw_parts(self.as_ptr(), self.nrows, self.ncols, 1, self.col_stride())
    }

    /// Returns a mutable view over the matrix. What the view leaves in a cell is what the cell
    /// then holds.
    pub fn as_mut<'a>(&'a mut self) -> (r: MatMut<'a, T>)
        ensures
            r@ == (MatView {
                ptr: r@.ptr,
                nrows: old(self)@.nrows,
                ncols: old(self)@.ncols,
                row_stride: 1,
                col_stride: signed(old(self)@.row_capacity as int),
            }),
            r@.now() == old(self)@.as_mat(),
            final(self)@ == (OwnedView { cells: final(self)@.cells, ..old(self)@ }),
            r@.ptr.pos == 0,
            r@.ptr.mem.len() == old(self)@.cells.len(),
            final(self)@.cells.len() == old(self)@.cells.len(),
            forall|p: int|
                #![trigger r@.ptr.mem[p]]
                #![trigger final(self)@.cells[p]]
                0 <= p < r@.ptr.mem.len() ==> match old(self)@.cells[p] {
                    Some(x) => r@.ptr.mem[p] is Some && *r@.ptr.mem[p]->0 == x && final(self)@.cells[p]
                        == Some(*final(r@.ptr.mem[p]->0)),
                    None => r@.ptr.mem[p] is None && final(self)@.cells[p] is None,
                },
            old(self)@.valid() ==> final(self)@.valid() && r@.readable() && r@.no_alias(),
            old(self)@.valid() ==> forall|i: int, j: int|
                old(self)@.has(i, j) ==> *(#[trigger] r@.at(i, j))->0 == old(self)@.at(i, j)->0
                    && final(self)@.at(i, j) == Some(*final(r@.at(i, j)->0)),
    {
        let ghost before = self@;
        let ghost after = final(self)@;
        let nrows = self.nrows;
        let ncols = self.ncols;
        let col_stride = self.col_stride();
        let r = MatMut::from_raw_parts(self.as_mut_ptr(), nrows, ncols, 1, col_stride);
        proof {
            assert(r@.now().ptr.mem =~= before.cells);
            if before.valid() {
                law_column_major(before);
                let v = before.as_mat();
                assert forall|i: int, j: int| before.has(i, j) implies #[trigger] r@.at(i, j)
                    == r@.ptr.mem[j * before.row_capacity + i] && 0 <= j * before.row_capacity + i
                    < before.cells.len() by {
                    assert(before.at(i, j) is Some);
                    assert(r@.addr(i, j) == v.addr(i, j));
                }
                assert forall|i: int, j: int| after.has(i, j) implies (#[trigger] after.at(
                    i,
                    j,
                )) is Some by {
                    assert(before.at(i, j) is Some);
                    let p = j * before.row_capacity + i;
                    assert(after.cells[p] is Some);
                }
                assert forall|i: int, j: int, k: int, l: int|
                    #![trigger r@.addr(i, j), r@.addr(k, l)]
                    r@.has(i, j) && r@.has(k, l) && r@.addr(i, j) == r@.addr(k, l) implies i == k
                    && j == l by {
                    assert(r@.addr(i, j) == v.addr(i, j) && r@.addr(k, l) == v.addr(k, l));
                }
                assert forall|i: int, j: int| before.has(i, j) implies *(#[trigger] r@.at(i, j))->0
                    == before.at(i, j)->0 && after.at(i, j) == Some(*final(r@.at(i, j)->0)) by {
                    let p = j * before.row_capacity + i;
                    assert(before.at(i, j) is Some);
                    assert(after.cells[p] is Some);
                }
                assert forall|i: int, j: int| r@.has(i, j) implies (#[trigger] r@.at(
                    i,
                    j,
                )) is Some by {
                    assert(before.at(i, j) is Some);
                }
            }
        }
        r
    }

    /// Returns a new matrix with dimensions `(nrows, ncols)`, filled with the provided function.
    /// The total capacity in bytes may not exceed `isize::MAX`.
    pub fn with_dims<F: Fn(usize, usize) -> T>(f: F, nrows: usize, ncols: usize) -> (r: Self)
        requires
            fits::<T>(nrows as nat, ncols as nat, nrows as nat, ncols as nat),
            forall|i: usize, j: usize| i < nrows && j < ncols ==> #[trigger] f.requires((i, j)),
        ensures
            r@ == (OwnedView {
                cells: r@.cells,
                nrows: nrows as nat,
                ncols: ncols as nat,
                row_capacity: nrows as nat,
                col_capacity: ncols as nat,
            }),
            r@.valid(),
            forall|i: usize, j: usize|
                i < nrows && j < ncols ==> f.ensures(
                    (i, j),
                    (#[trigger] r@.at(i as int, j as int))->0,
                ),
    {
        let mut this = Self::new();
        this.resize_with(f, nrows, ncols);
        this
    }

    /// Returns a new matrix with dimensions `(nrows, ncols)`, filled with zeros. The total capacity
    /// in bytes may not exceed `isize::MAX`.
    pub fn zeros(nrows: usize, ncols: usize) -> (r: Self) where T: ComplexField
        requires
            fits::<T>(nrows as nat, ncols as nat, nrows as nat, ncols as nat),
        ensures
            r@ == (OwnedView {
                cells: r@.cells,
                nrows: nrows as nat,
                ncols: ncols as nat,
                row_capacity: nrows as nat,
                col_capacity: ncols as nat,
            }),
            r@.valid(),
            forall|i: int, j: int|
                r@.has(i, j) ==> call_ensures(T::zero, (), (#[trigger] r@.at(i, j))->0),
    {
        let f = |_i: usize, _j: usize| -> (x: T)
            ensures
                call_ensures(T::zero, (), x),
            { T::zero() };
        let r = Self::with_dims(f, nrows, ncols);
        assert forall|i: int, j: int| r@.has(i, j) implies call_ensures(
            T::zero,
            (),
            (#[trigger] r@.at(i, j))->0,
        ) by {
            let (k, l) = (i as usize, j as usize);
            assert(f.ensures((k, l), r@.at(k as int, l as int)->0));
        }
        r
    }

    /// Returns the element at position (i, j) for as long as `self` is borrowed. The other cells
    /// keep their values.
    pub fn index_mut<'a>(&'a mut self, index: (usize, usize)) -> (r: &'a mut T)
        requires
            old(self)@.valid(),
            old(self)@.has(index.0 as int, index.1 as int),
        ensures
            *r == old(self)@.at(index.0 as int, index.1 as int)->0,
            final(self)@ == (OwnedView { cells: final(self)@.cells, ..old(self)@ }),
            final(self)@.valid(),
            final(self)@.cells == old(self)@.cells.update(
                index.1 * old(self)@.row_capacity + index.0,
                Some(*final(r)),
            ),
            final(self)@.at(index.0 as int, index.1 as int) == Some(*final(r)),
            forall|i: int, j: int|
                old(self)@.has(i, j) && (i != index.0 || j != index.1)
                    ==> #[trigger] final(self)@.at(i, j) == old(self)@.at(i, j),
    {
        let ghost before = self@;
        let ghost after = final(self)@;
        let ghost i = index.0 as int;
        let ghost j = index.1 as int;
        let ghost q = j * before.row_capacity + i;
        proof {
            law_column_major(before);
            assert(before.at(i, j) is Some);
        }
        let view = self.as_mut();
        let ghost mem = view@.ptr.mem;
        proof {
            assert(view@.addr(i, j) == before.as_mat().addr(i, j));
            assert(mem[q] is Some);
        }
        let r = view.get(index.0, index.1);
        proof {
            assert forall|p: int| 0 <= p < before.cells.len() implies #[trigger] after.cells[p]
                == before.cells.update(q, Some(*final(r)))[p] by {
                assert(before.cells[p] is Some ==> mem[p] is Some);
            }
            assert forall|k: int, l: int|
                before.has(k, l) && (k != index.0 || l != index.1) implies #[trigger] after.at(k, l)
                == before.at(k, l) by {
                if l * before.row_capacity + k == q {
                    lemma_cell_unique(before.row_capacity as int, i, j, k, l);
                }
            }
        }
        r
    }
}

impl<T: 'static> Default for Mat<T> {
    fn default() -> (r: Self)
        ensures
            r@ == (OwnedView::<T> {
                cells: Seq::empty(),
                nrows: 0,
                ncols: 0,
                row_capacity: 0,
                col_capacity: 0,
            }),
            r@.valid(),
    {
        Self::new()
    }
}

impl<T: Clone + 'static> Clone for Mat<T> {
    fn clone(&self) -> (r: Self)
        ensures
            r@ == (OwnedView { cells: r@.cells, ..self@ }),
            self@.valid() ==> r@.valid(),
            self@.valid() ==> forall|i: int, j: int|
                self@.has(i, j) ==> cloned::<T>(self@.at(i, j)->0, (#[trigger] r@.at(i, j))->0),
            self@.valid() ==> forall|i: int, j: int|
                0 <= i < self@.row_capacity && !self@.has(i, j) ==> (#[trigger] r@.at(i, j)) is None,
    {
        let row_capacity = self.raw.row_capacity;
        let mut cells: Vec<Option<T>> = Vec::new();
        let mut p: usize = 0;
        while p < self.raw.cells.len()
            invariant
                row_capacity == self.raw.row_capacity,
                p <= self.raw.cells@.len(),
                cells@.len() == p,
                forall|q: int|
                    0 <= q < p ==> match (#[trigger] cells@[q]) {
                        Some(y) => row_capacity != 0 && q % (row_capacity as int) < self.nrows && q
                            / (row_capacity as int) < self.ncols && self.raw.cells@[q] is Some
                            && cloned::<T>(self.raw.cells@[q]->0, y),
                        None => row_capacity == 0 || q % (row_capacity as int) >= self.nrows || q
                            / (row_capacity as int) >= self.ncols || self.raw.cells@[q] is None,
                    },
            decreases self.raw.cells@.len() - p,
        {
            if row_capacity != 0 && p % row_capacity < self.nrows && p / row_capacity < self.ncols {
                match &self.raw.cells[p] {
                    Some(x) => cells.push(Some(x.clone())),
                    None => cells.push(None),
                }
            } else {
                cells.push(None);
            }
            p += 1;
        }
        let r = Mat {
            raw: RawMat { cells, row_capacity, col_capacity: self.raw.col_capacity },
            nrows: self.nrows,
            ncols: self.ncols,
        };
        proof {
            let rc = row_capacity as int;
            if self@.valid() {
                assert forall|i: int, j: int| self@.has(i, j) implies (#[trigger] r@.at(i, j)) is Some
                    && cloned::<T>(self@.at(i, j)->0, r@.at(i, j)->0) by {
                    assert(self@.at(i, j) is Some);
                    lemma_fundamental_div_mod_converse(j * rc + i, rc, j, i);
                    assert(cells@[j * rc + i] is Some);
                }
                assert forall|i: int, j: int|
                    0 <= i < self@.row_capacity && !self@.has(i, j) implies (#[trigger] r@.at(
                    i,
                    j,
                )) is None by {
                    lemma_fundamental_div_mod_converse(j * rc + i, rc, j, i);
                    if 0 <= j * rc + i < r@.cells.len() {
                        assert(j >= 0) by (nonlinear_arith)
                            requires
                                0 <= j * rc + i,
                                0 <= i < rc,
                        ;
                        assert(cells@[j * rc + i] is None);
                    }
                }
            }
        }
        r
    }
}

impl<T: 'static> Index<(usize, usize)> for Mat<T> {
    type Output = T;

    fn index(&self, index: (usize, usize)) -> (r: &T)
        ensures
            Some(*r) == self@.at(index.0 as int, index.1 as int),
    {
        proof {
            law_column_major(self@);
        }
        self.as_ref().get(index.0, index.1)
    }
}

impl<T: 'static> vstd::std_specs::core::IndexSpecImpl<(usize, usize)> for Mat<T> {
    open spec fn index_req(&self, index: &(usize, usize)) -> bool {
        self@.valid() && self@.has(index.0 as int, index.1 as int)
    }
}

/// Returns the matrix that has the given rows. There has to be at least one row and one column, and
/// the rows have to have the same length. The total capacity in bytes may not exceed `isize::MAX`.
pub fn mat<T: 'static>(rows: Vec<Vec<T>>) -> (r: Mat<T>)
    requires
        rows@.len() > 0,
        rows@[0]@.len() > 0,
        forall|i: int| 0 <= i < rows@.len() ==> (#[trigger] rows@[i])@.len() == rows@[0]@.len(),
        fits::<T>(rows@.len(), rows@[0]@.len(), rows@.len(), rows@[0]@.len()),
    ensures
        r@ == (OwnedView {
            cells: r@.cells,
            nrows: rows@.len(),
            ncols: rows@[0]@.len(),
            row_capacity: rows@.len(),
            col_capacity: rows@[0]@.len(),
        }),
        r@.valid(),
        forall|i: int, j: int|
            r@.has(i, j) ==> #[trigger] r@.at(i, j) == Some(rows@[i]@[j]),
{
    let ghost given = rows@;
    let nrows = rows.len();
    let ncols = rows[0].len();
    proof {
        lemma_columns_fit::<T>(nrows as nat, ncols as nat, nrows as nat, ncols as nat);
        lemma_fits_less::<T>(
            nrows as nat,
            ncols as nat,
            nrows as nat,
            ncols as nat,
            nrows as nat,
            ncols as nat,
            0,
            0,
        );
    }
    let mut rows = rows;
    let mut m = Mat::<T>::with_capacity(nrows, ncols);
    while rows.len() > 0
        invariant
            nrows == given.len(),
            ncols == given[0]@.len(),
            nrows * ncols <= usize::MAX,
            rows@.len() <= nrows,
            rows@ == given.subrange(0, rows@.len() as int),
            forall|i: int| 0 <= i < nrows ==> (#[trigger] given[i])@.len() == ncols,
            m@ == (OwnedView {
                cells: m@.cells,
                nrows: 0,
                ncols: 0,
                row_capacity: nrows as nat,
                col_capacity: ncols as nat,
            }),
            forall|k: int, l: int|
                rows@.len() <= k < nrows && 0 <= l < ncols ==> #[trigger] m@.at(k, l) == Some(
                    given[k]@[l],
                ),
        decreases rows@.len(),
    {
        let mut row = rows.pop().unwrap();
        let i = rows.len();
        assert(row@ == given[i as int]@);
        while row.len() > 0
            invariant
                nrows == given.len(),
                ncols == given[0]@.len(),
                nrows * ncols <= usize::MAX,
                i < nrows,
                row@.len() <= ncols,
                row@ == given[i as int]@.subrange(0, row@.len() as int),
                forall|i: int| 0 <= i < nrows ==> (#[trigger] given[i])@.len() == ncols,
                m@ == (OwnedView {
                    cells: m@.cells,
                    nrows: 0,
                    ncols: 0,
                    row_capacity: nrows as nat,
                    col_capacity: ncols as nat,
                }),
                forall|k: int, l: int|
                    0 <= l < ncols && (i < k < nrows || k == i && row@.len() <= l)
                        ==> #[trigger] m@.at(k, l) == Some(given[k]@[l]),
            decreases row@.len(),
        {
            let x = row.pop().unwrap();
            let j = row.len();
            let ghost before = m@;
            proof {
                lemma_cell_bound(nrows as int, ncols as int, i as int, j as int);
            }
            m.raw.write(i, j, x);
            proof {
                assert forall|k: int, l: int|
                    0 <= l < ncols && (i < k < nrows || k == i && row@.len() <= l)
                        implies #[trigger] m@.at(k, l) == Some(given[k]@[l]) by {
                    if l * nrows + k == j * nrows + i {
                        lemma_cell_unique(nrows as int, i as int, j as int, k, l);
                    } else {
                        assert(m@.at(k, l) == before.at(k, l));
                    }
                }
            }
        }
    }
    let ghost filled = m@;
    let ghost whole = OwnedView { nrows: nrows as nat, ncols: ncols as nat, ..filled };
    assert forall|i: int, j: int| whole.has(i, j) implies (#[trigger] whole.at(i, j)) is Some by {
        assert(filled.at(i, j) == Some(given[i]@[j]));
    }
    m.set_dims(nrows, ncols);
    assert forall|i: int, j: int| m@.has(i, j) implies #[trigger] m@.at(i, j) == Some(given[i]@[j]) by {
        assert(m@.at(i, j) == filled.at(i, j));
    }
    m
}

}
