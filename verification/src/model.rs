//! Mathematical models of pointers, strided vectors and strided matrices.
//!
//! Memory is a sequence of cells. A cell holds a value that may be read, or nothing. A view is a
//! position in memory together with dimensions and strides, and its elements are the cells that
//! the strides lead to.

use crate::word::{lemma_wrap_affine, lemma_wrap_stable, signed, word, wrap};
use vstd::prelude::*;

verus! {

/// What the cell at position `p` holds: nothing where the cell is not readable, and nothing
/// outside of the memory.
pub open spec fn load<E>(mem: Seq<Option<E>>, p: int) -> Option<E> {
    if 0 <= p < mem.len() {
        mem[p]
    } else {
        None
    }
}

/// A pointer: memory and a position.
#[verifier::ext_equal]
#[verifier::reject_recursive_types(E)]
pub struct PtrView<E> {
    pub mem: Seq<Option<E>>,
    pub pos: int,
}

/// A strided vector.
#[verifier::ext_equal]
#[verifier::reject_recursive_types(E)]
pub struct VecView<E> {
    pub ptr: PtrView<E>,
    pub len: nat,
    pub stride: int,
}

/// A strided matrix.
#[verifier::ext_equal]
#[verifier::reject_recursive_types(E)]
pub struct MatView<E> {
    pub ptr: PtrView<E>,
    pub nrows: nat,
    pub ncols: nat,
    pub row_stride: int,
    pub col_stride: int,
}

impl<E> PtrView<E> {
    /// The cell that lies `n` cells further on.
    pub open spec fn at(self, n: int) -> Option<E> {
        load(self.mem, wrap(self.pos + n))
    }

    /// The pointer `n` cells further on.
    pub open spec fn offset(self, n: int) -> PtrView<E> {
        PtrView { mem: self.mem, pos: wrap(self.pos + n) }
    }

    /// The same position, in a memory in which only the cells of which `keep` holds are readable.
    pub open spec fn keeping(self, keep: spec_fn(int) -> bool) -> PtrView<E> {
        PtrView {
            mem: Seq::new(
                self.mem.len(),
                |p: int|
                    if keep(p) {
                        self.mem[p]
                    } else {
                        None
                    },
            ),
            pos: self.pos,
        }
    }
}

impl<E> VecView<E> {
    /// The position of element `k`.
    pub open spec fn addr(self, k: int) -> int {
        wrap(self.ptr.pos + k * self.stride)
    }

    /// Element `k`.
    pub open spec fn at(self, k: int) -> Option<E> {
        load(self.ptr.mem, self.addr(k))
    }

    /// Whether the position is a word and the stride is a machine number.
    pub open spec fn machine_numbers(self) -> bool {
        &&& 0 <= self.ptr.pos < word()
        &&& isize::MIN <= self.stride <= isize::MAX
    }

    /// Whether each element may be read.
    pub open spec fn readable(self) -> bool {
        forall|k: int| 0 <= k < self.len ==> (#[trigger] self.at(k)) is Some
    }

    /// Whether no two elements share a cell.
    pub open spec fn no_alias(self) -> bool {
        forall|k: int, l: int|
            #![trigger self.addr(k), self.addr(l)]
            0 <= k < self.len && 0 <= l < self.len && self.addr(k) == self.addr(l) ==> k == l
    }

    /// Whether the cell at position `p` is an element.
    pub open spec fn covers(self, p: int) -> bool {
        exists|k: int| 0 <= k < self.len && #[trigger] self.addr(k) == p
    }

    /// The same vector, in a memory in which only its elements are readable.
    pub open spec fn alone(self) -> VecView<E> {
        VecView { ptr: self.ptr.keeping(|p: int| self.covers(p)), ..self }
    }

    /// The same vector, in a memory in which the cells of which `gone` holds are not readable.
    pub open spec fn without(self, gone: spec_fn(int) -> bool) -> VecView<E> {
        VecView { ptr: self.ptr.keeping(|p: int| !gone(p)), ..self }
    }

    /// The `len` elements from element `k` on.
    pub open spec fn sub(self, k: int, len: nat) -> VecView<E> {
        VecView { ptr: self.ptr.offset(k * self.stride), len, stride: self.stride }
    }

    /// The matrix that has this vector as its only row.
    pub open spec fn as_row(self) -> MatView<E> {
        MatView {
            ptr: self.ptr,
            nrows: 1,
            ncols: self.len,
            row_stride: 0,
            col_stride: self.stride,
        }
    }

    /// The matrix that has this vector as its only column.
    pub open spec fn as_col(self) -> MatView<E> {
        MatView {
            ptr: self.ptr,
            nrows: self.len,
            ncols: 1,
            row_stride: self.stride,
            col_stride: 0,
        }
    }
}

impl<E> MatView<E> {
    /// The position of the element in row `i` and column `j`.
    pub open spec fn addr(self, i: int, j: int) -> int {
        wrap(self.ptr.pos + i * self.row_stride + j * self.col_stride)
    }

    /// The element in row `i` and column `j`.
    pub open spec fn at(self, i: int, j: int) -> Option<E> {
        load(self.ptr.mem, self.addr(i, j))
    }

    /// Whether there is a row `i` and a column `j`.
    pub open spec fn has(self, i: int, j: int) -> bool {
        0 <= i < self.nrows && 0 <= j < self.ncols
    }

    /// Whether the position is a word and the strides are machine numbers.
    pub open spec fn machine_numbers(self) -> bool {
        &&& 0 <= self.ptr.pos < word()
        &&& isize::MIN <= self.row_stride <= isize::MAX
        &&& isize::MIN <= self.col_stride <= isize::MAX
    }

    /// Whether each element may be read.
    pub open spec fn readable(self) -> bool {
        forall|i: int, j: int| self.has(i, j) ==> (#[trigger] self.at(i, j)) is Some
    }

    /// Whether no two elements share a cell.
    pub open spec fn no_alias(self) -> bool {
        forall|i: int, j: int, k: int, l: int|
            #![trigger self.addr(i, j), self.addr(k, l)]
            self.has(i, j) && self.has(k, l) && self.addr(i, j) == self.addr(k, l) ==> i == k && j
                == l
    }

    /// Whether the cell at position `p` is an element.
    pub open spec fn covers(self, p: int) -> bool {
        exists|i: int, j: int| self.has(i, j) && #[trigger] self.addr(i, j) == p
    }

    /// The same matrix, in a memory in which only its elements are readable.
    pub open spec fn alone(self) -> MatView<E> {
        MatView { ptr: self.ptr.keeping(|p: int| self.covers(p)), ..self }
    }

    /// The same matrix, in a memory in which the cells of which `gone` holds are not readable.
    pub open spec fn without(self, gone: spec_fn(int) -> bool) -> MatView<E> {
        MatView { ptr: self.ptr.keeping(|p: int| !gone(p)), ..self }
    }

    /// The matrix of `nrows` rows and `ncols` columns that begins in row `i` and column `j`.
    pub open spec fn sub(self, i: int, j: int, nrows: nat, ncols: nat) -> MatView<E> {
        MatView {
            ptr: self.ptr.offset(i * self.row_stride + j * self.col_stride),
            nrows,
            ncols,
            row_stride: self.row_stride,
            col_stride: self.col_stride,
        }
    }

    /// Row `i`.
    pub open spec fn row(self, i: int) -> VecView<E> {
        VecView {
            ptr: self.ptr.offset(i * self.row_stride),
            len: self.ncols,
            stride: self.col_stride,
        }
    }

    /// Column `j`.
    pub open spec fn col(self, j: int) -> VecView<E> {
        VecView {
            ptr: self.ptr.offset(j * self.col_stride),
            len: self.nrows,
            stride: self.row_stride,
        }
    }

    /// The elements that have the same row and column, of which there are `nrows`.
    pub open spec fn diagonal(self) -> VecView<E> {
        VecView {
            ptr: self.ptr,
            len: self.nrows,
            stride: signed(self.row_stride + self.col_stride),
        }
    }

    /// Rows and columns exchanged.
    pub open spec fn transposed(self) -> MatView<E> {
        MatView {
            ptr: self.ptr,
            nrows: self.ncols,
            ncols: self.nrows,
            row_stride: self.col_stride,
            col_stride: self.row_stride,
        }
    }

    /// The row that the rows are counted from when they are counted backwards.
    pub open spec fn last_row(self) -> int {
        if self.nrows == 0 {
            0
        } else {
            self.nrows - 1
        }
    }

    /// The column that the columns are counted from when they are counted backwards.
    pub open spec fn last_col(self) -> int {
        if self.ncols == 0 {
            0
        } else {
            self.ncols - 1
        }
    }

    /// The rows in reverse order.
    pub open spec fn rows_reversed(self) -> MatView<E> {
        MatView {
            ptr: self.ptr.offset(self.last_row() * self.row_stride),
            row_stride: signed(-self.row_stride),
            ..self
        }
    }

    /// The columns in reverse order.
    pub open spec fn cols_reversed(self) -> MatView<E> {
        MatView {
            ptr: self.ptr.offset(self.last_col() * self.col_stride),
            col_stride: signed(-self.col_stride),
            ..self
        }
    }

    /// The rows and the columns in reverse order.
    pub open spec fn reversed(self) -> MatView<E> {
        MatView {
            ptr: self.ptr.offset(
                self.last_row() * self.row_stride + self.last_col() * self.col_stride,
            ),
            row_stride: signed(-self.row_stride),
            col_stride: signed(-self.col_stride),
            ..self
        }
    }
}

/// The values that cells with exclusive access hold now.
pub open spec fn values_now<'a, T>(cells: Seq<Option<&'a mut T>>) -> Seq<Option<T>> {
    cells.map_values(
        |c: Option<&'a mut T>|
            match c {
                Some(x) => Some(*x),
                None => None,
            },
    )
}

impl<'a, T> PtrView<&'a mut T> {
    /// The pointer, with the values that the cells hold now.
    pub open spec fn now(self) -> PtrView<T> {
        PtrView { mem: values_now(self.mem), pos: self.pos }
    }
}

impl<'a, T> VecView<&'a mut T> {
    /// The vector, with the values that the cells hold now.
    pub open spec fn now(self) -> VecView<T> {
        VecView { ptr: self.ptr.now(), len: self.len, stride: self.stride }
    }
}

impl<'a, T> MatView<&'a mut T> {
    /// The matrix, with the values that the cells hold now.
    pub open spec fn now(self) -> MatView<T> {
        MatView {
            ptr: self.ptr.now(),
            nrows: self.nrows,
            ncols: self.ncols,
            row_stride: self.row_stride,
            col_stride: self.col_stride,
        }
    }
}

/// Two offsets, one after the other, are the offset by their sum.
pub proof fn lemma_ptr_offset<E>(p: PtrView<E>, a: int, b: int)
    ensures
        p.offset(a).offset(b) == p.offset(a + b),
        p.offset(a).at(b) == p.at(a + b),
        0 <= p.pos < word() ==> p.offset(0) == p,
{
    lemma_wrap_stable(p.pos + a);
    lemma_wrap_stable(p.pos);
    lemma_wrap_affine(wrap(p.pos + a), 0, 0, p.pos + a, 0, 0, 0, 0);
    lemma_wrap_affine(wrap(p.pos + a), b, 0, p.pos + a, b, 0, 1, 0);
}

/// Hiding the other cells changes no element.
pub proof fn lemma_vec_alone<E>(v: VecView<E>)
    ensures
        forall|k: int| #[trigger] v.alone().addr(k) == v.addr(k),
        forall|k: int| 0 <= k < v.len ==> #[trigger] v.alone().at(k) == v.at(k),
{
    assert forall|k: int| 0 <= k < v.len implies #[trigger] v.alone().at(k) == v.at(k) by {
        assert(v.covers(v.addr(k)));
        lemma_wrap_stable(v.ptr.pos + k * v.stride);
    }
}

/// Hiding the other cells changes no element.
pub proof fn lemma_mat_alone<E>(m: MatView<E>)
    ensures
        forall|i: int, j: int| #[trigger] m.alone().addr(i, j) == m.addr(i, j),
        forall|i: int, j: int| m.has(i, j) ==> #[trigger] m.alone().at(i, j) == m.at(i, j),
{
    assert forall|i: int, j: int| m.has(i, j) implies #[trigger] m.alone().at(i, j) == m.at(
        i,
        j,
    ) by {
        assert(m.covers(m.addr(i, j)));
    }
}

/// A vector covers the same cells as the matrices that it is the only row or column of.
pub proof fn lemma_vec_covers<E>(v: VecView<E>)
    ensures
        forall|p: int| #[trigger] v.as_row().covers(p) == v.covers(p),
        forall|p: int| #[trigger] v.as_col().covers(p) == v.covers(p),
{
    lemma_vec_as_matrix(v);
    assert forall|p: int| #[trigger] v.as_row().covers(p) == v.covers(p) by {
        if v.covers(p) {
            let k = choose|k: int| 0 <= k < v.len && #[trigger] v.addr(k) == p;
            assert(v.as_row().has(0, k) && v.as_row().addr(0, k) == p);
        }
        if v.as_row().covers(p) {
            let (i, k) = choose|i: int, k: int|
                v.as_row().has(i, k) && #[trigger] v.as_row().addr(i, k) == p;
            assert(v.addr(k) == p);
        }
    }
    assert forall|p: int| #[trigger] v.as_col().covers(p) == v.covers(p) by {
        if v.covers(p) {
            let k = choose|k: int| 0 <= k < v.len && #[trigger] v.addr(k) == p;
            assert(v.as_col().has(k, 0) && v.as_col().addr(k, 0) == p);
        }
        if v.as_col().covers(p) {
            let (k, j) = choose|k: int, j: int|
                v.as_col().has(k, j) && #[trigger] v.as_col().addr(k, j) == p;
            assert(v.addr(k) == p);
        }
    }
}

/// Which cells a matrix covers does not depend on what they hold.
pub proof fn lemma_mat_same_cells<E, F>(a: MatView<E>, b: MatView<F>)
    requires
        a.ptr.pos == b.ptr.pos,
        a.nrows == b.nrows,
        a.ncols == b.ncols,
        a.row_stride == b.row_stride,
        a.col_stride == b.col_stride,
    ensures
        forall|i: int, j: int| #[trigger] a.addr(i, j) == b.addr(i, j),
        forall|p: int| #[trigger] a.covers(p) == b.covers(p),
{
    assert forall|p: int| #[trigger] a.covers(p) == b.covers(p) by {
        if a.covers(p) {
            let (i, j) = choose|i: int, j: int| a.has(i, j) && #[trigger] a.addr(i, j) == p;
            assert(b.has(i, j) && b.addr(i, j) == p);
        }
        if b.covers(p) {
            let (i, j) = choose|i: int, j: int| b.has(i, j) && #[trigger] b.addr(i, j) == p;
            assert(a.has(i, j) && a.addr(i, j) == p);
        }
    }
}

/// A part of one element covers the cell of that element alone.
pub proof fn lemma_vec_one<E>(v: VecView<E>, k: int)
    ensures
        forall|p: int| #[trigger] v.sub(k, 1).covers(p) == (p == v.addr(k)),
{
    lemma_vec_sub(v, k, 1);
    assert forall|p: int| #[trigger] v.sub(k, 1).covers(p) == (p == v.addr(k)) by {
        assert(v.sub(k, 1).addr(0) == v.addr(k + 0));
    }
}

/// Where no two elements share a cell, an element of another row lies outside of row `r`.
pub proof fn lemma_mat_row_cell<E>(m: MatView<E>, r: int, i: int, j: int)
    requires
        m.no_alias(),
        0 <= r < m.nrows,
        m.has(i, j),
        i != r,
    ensures
        !m.row(r).covers(m.addr(i, j)),
{
    lemma_mat_row(m, r);
    if m.row(r).covers(m.addr(i, j)) {
        let l = choose|l: int|
            0 <= l < m.row(r).len && #[trigger] m.row(r).addr(l) == m.addr(i, j);
        assert(m.has(r, l) && m.addr(r, l) == m.addr(i, j));
    }
}

/// Where no two elements share a cell, an element of another column lies outside of column `c`.
pub proof fn lemma_mat_col_cell<E>(m: MatView<E>, c: int, i: int, j: int)
    requires
        m.no_alias(),
        0 <= c < m.ncols,
        m.has(i, j),
        j != c,
    ensures
        !m.col(c).covers(m.addr(i, j)),
{
    lemma_mat_col(m, c);
    if m.col(c).covers(m.addr(i, j)) {
        let l = choose|l: int|
            0 <= l < m.col(c).len && #[trigger] m.col(c).addr(l) == m.addr(i, j);
        assert(m.has(l, c) && m.addr(l, c) == m.addr(i, j));
    }
}

/// A cell of a part is the cell of the element that the part begins at, moved on.
pub proof fn lemma_mat_sub_covers<E>(
    m: MatView<E>,
    i: int,
    j: int,
    nrows: nat,
    ncols: nat,
    p: int,
) -> (at: (int, int))
    requires
        m.sub(i, j, nrows, ncols).covers(p),
    ensures
        i <= at.0 < i + nrows,
        j <= at.1 < j + ncols,
        m.addr(at.0, at.1) == p,
{
    let s = m.sub(i, j, nrows, ncols);
    lemma_mat_sub(m, i, j, nrows, ncols);
    let (k, l) = choose|k: int, l: int| s.has(k, l) && #[trigger] s.addr(k, l) == p;
    (i + k, j + l)
}

/// The four parts on the sides of row `i` and column `j` cover the cells of the matrix, and where
/// no two elements share a cell, no cell is covered by two of them.
pub proof fn law_split_tiles<E>(m: MatView<E>, i: nat, j: nat)
    requires
        i <= m.nrows,
        j <= m.ncols,
    ensures
        ({
            let n = (m.nrows - i) as nat;
            let c = (m.ncols - j) as nat;
            let tl = m.sub(0, 0, i, j);
            let tr = m.sub(0, j as int, i, c);
            let bl = m.sub(i as int, 0, n, j);
            let br = m.sub(i as int, j as int, n, c);
            &&& forall|p: int| #[trigger]
                m.covers(p) == (tl.covers(p) || tr.covers(p) || bl.covers(p) || br.covers(p))
            &&& m.no_alias() ==> forall|p: int| #[trigger]
                tl.covers(p) ==> !tr.covers(p) && !bl.covers(p) && !br.covers(p)
            &&& m.no_alias() ==> forall|p: int| #[trigger]
                tr.covers(p) ==> !tl.covers(p) && !bl.covers(p) && !br.covers(p)
            &&& m.no_alias() ==> forall|p: int| #[trigger]
                bl.covers(p) ==> !tl.covers(p) && !tr.covers(p) && !br.covers(p)
            &&& m.no_alias() ==> forall|p: int| #[trigger]
                br.covers(p) ==> !tl.covers(p) && !tr.covers(p) && !bl.covers(p)
        }),
{
    let n = (m.nrows - i) as nat;
    let c = (m.ncols - j) as nat;
    let ii = i as int;
    let jj = j as int;
    let tl = m.sub(0, 0, i, j);
    let tr = m.sub(0, jj, i, c);
    let bl = m.sub(ii, 0, n, j);
    let br = m.sub(ii, jj, n, c);
    lemma_mat_sub(m, 0, 0, i, j);
    lemma_mat_sub(m, 0, jj, i, c);
    lemma_mat_sub(m, ii, 0, n, j);
    lemma_mat_sub(m, ii, jj, n, c);
    assert forall|p: int| #[trigger]
        m.covers(p) == (tl.covers(p) || tr.covers(p) || bl.covers(p) || br.covers(p)) by {
        if m.covers(p) {
            let (k, l) = choose|k: int, l: int| m.has(k, l) && #[trigger] m.addr(k, l) == p;
            if k < i && l < j {
                assert(tl.has(k, l) && tl.addr(k, l) == p);
            } else if k < i {
                assert(tr.has(k, l - j) && tr.addr(k, l - j) == p);
            } else if l < j {
                assert(bl.has(k - i, l) && bl.addr(k - i, l) == p);
            } else {
                assert(br.has(k - i, l - j) && br.addr(k - i, l - j) == p);
            }
        }
        if tl.covers(p) {
            let e = lemma_mat_sub_covers(m, 0, 0, i, j, p);
            assert(m.has(e.0, e.1) && m.addr(e.0, e.1) == p);
        }
        if tr.covers(p) {
            let e = lemma_mat_sub_covers(m, 0, jj, i, c, p);
            assert(m.has(e.0, e.1) && m.addr(e.0, e.1) == p);
        }
        if bl.covers(p) {
            let e = lemma_mat_sub_covers(m, ii, 0, n, j, p);
            assert(m.has(e.0, e.1) && m.addr(e.0, e.1) == p);
        }
        if br.covers(p) {
            let e = lemma_mat_sub_covers(m, ii, jj, n, c, p);
            assert(m.has(e.0, e.1) && m.addr(e.0, e.1) == p);
        }
    }
    if m.no_alias() {
        lemma_mat_disjoint(m, 0, 0, i, j, 0, jj, i, c);
        lemma_mat_disjoint(m, 0, 0, i, j, ii, 0, n, j);
        lemma_mat_disjoint(m, 0, 0, i, j, ii, jj, n, c);
        lemma_mat_disjoint(m, 0, jj, i, c, ii, 0, n, j);
        lemma_mat_disjoint(m, 0, jj, i, c, ii, jj, n, c);
        lemma_mat_disjoint(m, ii, 0, n, j, ii, jj, n, c);
    }
}

/// Where no two elements share a cell, parts that have no row or no column in common have no cell
/// in common.
pub proof fn lemma_mat_disjoint<E>(
    m: MatView<E>,
    i: int,
    j: int,
    nrows: nat,
    ncols: nat,
    k: int,
    l: int,
    other_nrows: nat,
    other_ncols: nat,
)
    requires
        m.no_alias(),
        0 <= i && i + nrows <= m.nrows,
        0 <= j && j + ncols <= m.ncols,
        0 <= k && k + other_nrows <= m.nrows,
        0 <= l && l + other_ncols <= m.ncols,
        i + nrows <= k || k + other_nrows <= i || j + ncols <= l || l + other_ncols <= j,
    ensures
        forall|p: int|
            !(#[trigger] m.sub(i, j, nrows, ncols).covers(p) && #[trigger] m.sub(
                k,
                l,
                other_nrows,
                other_ncols,
            ).covers(p)),
{
    assert forall|p: int|
        !(#[trigger] m.sub(i, j, nrows, ncols).covers(p) && #[trigger] m.sub(
            k,
            l,
            other_nrows,
            other_ncols,
        ).covers(p)) by {
        if m.sub(i, j, nrows, ncols).covers(p) && m.sub(k, l, other_nrows, other_ncols).covers(p) {
            let a = lemma_mat_sub_covers(m, i, j, nrows, ncols, p);
            let b = lemma_mat_sub_covers(m, k, l, other_nrows, other_ncols, p);
            assert(m.addr(a.0, a.1) == m.addr(b.0, b.1));
            assert(m.has(a.0, a.1) && m.has(b.0, b.1));
        }
    }
}

/// A part of a matrix in which cells are hidden is the part, in which they are hidden, and covers
/// the same cells.
pub proof fn lemma_mat_sub_of_without<E>(
    m: MatView<E>,
    gone: spec_fn(int) -> bool,
    i: int,
    j: int,
    nrows: nat,
    ncols: nat,
)
    ensures
        m.without(gone).sub(i, j, nrows, ncols) == m.sub(i, j, nrows, ncols).without(gone),
        forall|p: int| #[trigger]
            m.without(gone).sub(i, j, nrows, ncols).covers(p) == m.sub(i, j, nrows, ncols).covers(
                p,
            ),
{
    lemma_mat_same_cells(m.without(gone).sub(i, j, nrows, ncols), m.sub(i, j, nrows, ncols));
}

/// Hiding cells that a matrix does not cover does not change what the matrix is on its own.
pub proof fn lemma_mat_alone_without<E>(m: MatView<E>, gone: spec_fn(int) -> bool)
    requires
        forall|p: int| #[trigger] m.covers(p) ==> !gone(p),
    ensures
        m.without(gone).alone() == m.alone(),
{
    lemma_mat_same_cells(m.without(gone), m);
    assert(m.without(gone).alone().ptr.mem =~= m.alone().ptr.mem);
}

/// Two parts that lie one after the other cover the cells of the vector, and where no two elements
/// share a cell, no cell is covered by both.
pub proof fn law_split_vector_tiles<E>(v: VecView<E>, k: nat)
    requires
        k <= v.len,
    ensures
        forall|p: int| #[trigger]
            v.covers(p) == (v.sub(0, k).covers(p) || v.sub(k as int, (v.len - k) as nat).covers(p)),
        v.no_alias() ==> forall|p: int| #[trigger]
            v.sub(0, k).covers(p) ==> !v.sub(k as int, (v.len - k) as nat).covers(p),
{
    let a = v.sub(0, k);
    let b = v.sub(k as int, (v.len - k) as nat);
    lemma_vec_sub(v, 0, k);
    lemma_vec_sub(v, k as int, (v.len - k) as nat);
    assert forall|p: int| #[trigger] v.covers(p) == (a.covers(p) || b.covers(p)) by {
        if v.covers(p) {
            let l = choose|l: int| 0 <= l < v.len && #[trigger] v.addr(l) == p;
            if l < k {
                assert(a.addr(l) == p);
            } else {
                assert(b.addr(l - k) == p);
            }
        }
        if a.covers(p) {
            let l = choose|l: int| 0 <= l < a.len && #[trigger] a.addr(l) == p;
            assert(v.addr(0 + l) == p);
        }
        if b.covers(p) {
            let l = choose|l: int| 0 <= l < b.len && #[trigger] b.addr(l) == p;
            assert(v.addr(k + l) == p);
        }
    }
    if v.no_alias() {
        assert forall|p: int| #[trigger] a.covers(p) implies !b.covers(p) by {
            if b.covers(p) {
                let l = choose|l: int| 0 <= l < a.len && #[trigger] a.addr(l) == p;
                let m = choose|m: int| 0 <= m < b.len && #[trigger] b.addr(m) == p;
                assert(v.addr(0 + l) == v.addr(k + m));
            }
        }
    }
}

/// An element of a part of a vector is an element of the vector.
pub proof fn lemma_vec_sub<E>(v: VecView<E>, k: int, len: nat)
    ensures
        forall|l: int| #[trigger] v.sub(k, len).addr(l) == v.addr(k + l),
        forall|l: int| #[trigger] v.sub(k, len).at(l) == v.at(k + l),
{
    let s = v.sub(k, len);
    assert forall|l: int| #[trigger] s.addr(l) == v.addr(k + l) by {
        lemma_wrap_stable(v.ptr.pos + k * v.stride);
        lemma_wrap_affine(s.ptr.pos, v.stride, 0, v.ptr.pos + k * v.stride, v.stride, 0, l, 0);
        assert((k + l) * v.stride == k * v.stride + l * v.stride) by (nonlinear_arith);
    }
    assert forall|l: int| #[trigger] s.at(l) == v.at(k + l) by {
        assert(s.addr(l) == v.addr(k + l));
    }
}

/// The matrices that a vector is the only row or column of hold its elements in order.
pub proof fn lemma_vec_as_matrix<E>(v: VecView<E>)
    ensures
        forall|k: int| #[trigger] v.as_row().addr(0, k) == v.addr(k),
        forall|k: int| #[trigger] v.as_row().at(0, k) == v.at(k),
        forall|k: int| #[trigger] v.as_col().addr(k, 0) == v.addr(k),
        forall|k: int| #[trigger] v.as_col().at(k, 0) == v.at(k),
{
    assert forall|k: int| #[trigger] v.as_row().at(0, k) == v.at(k) by {
        assert(v.as_row().addr(0, k) == v.addr(k));
    }
    assert forall|k: int| #[trigger] v.as_col().at(k, 0) == v.at(k) by {
        assert(v.as_col().addr(k, 0) == v.addr(k));
    }
}

/// An element of a part of a matrix is an element of the matrix.
pub proof fn lemma_mat_sub<E>(m: MatView<E>, i: int, j: int, nrows: nat, ncols: nat)
    ensures
        forall|k: int, l: int|
            #[trigger] m.sub(i, j, nrows, ncols).addr(k, l) == m.addr(i + k, j + l),
        forall|k: int, l: int| #[trigger] m.sub(i, j, nrows, ncols).at(k, l) == m.at(i + k, j + l),
{
    let s = m.sub(i, j, nrows, ncols);
    let p = m.ptr.pos + i * m.row_stride + j * m.col_stride;
    assert forall|k: int, l: int| #[trigger] s.addr(k, l) == m.addr(i + k, j + l) by {
        lemma_wrap_stable(p);
        lemma_wrap_affine(s.ptr.pos, m.row_stride, m.col_stride, p, m.row_stride, m.col_stride, k, l);
        assert((i + k) * m.row_stride == i * m.row_stride + k * m.row_stride) by (nonlinear_arith);
        assert((j + l) * m.col_stride == j * m.col_stride + l * m.col_stride) by (nonlinear_arith);
    }
    assert forall|k: int, l: int| #[trigger] s.at(k, l) == m.at(i + k, j + l) by {
        assert(s.addr(k, l) == m.addr(i + k, j + l));
    }
}

/// An element of a row is the element of the matrix in that row.
pub proof fn lemma_mat_row<E>(m: MatView<E>, i: int)
    ensures
        forall|j: int| #[trigger] m.row(i).addr(j) == m.addr(i, j),
        forall|j: int| #[trigger] m.row(i).at(j) == m.at(i, j),
{
    let r = m.row(i);
    assert forall|j: int| #[trigger] r.addr(j) == m.addr(i, j) by {
        let p = m.ptr.pos + i * m.row_stride;
        lemma_wrap_stable(p);
        lemma_wrap_affine(r.ptr.pos, m.col_stride, 0, p, m.col_stride, 0, j, 0);
    }
    assert forall|j: int| #[trigger] r.at(j) == m.at(i, j) by {
        assert(r.addr(j) == m.addr(i, j));
    }
}

/// An element of a column is the element of the matrix in that column.
pub proof fn lemma_mat_col<E>(m: MatView<E>, j: int)
    ensures
        forall|i: int| #[trigger] m.col(j).addr(i) == m.addr(i, j),
        forall|i: int| #[trigger] m.col(j).at(i) == m.at(i, j),
{
    let c = m.col(j);
    assert forall|i: int| #[trigger] c.addr(i) == m.addr(i, j) by {
        let p = m.ptr.pos + j * m.col_stride;
        lemma_wrap_stable(p);
        lemma_wrap_affine(c.ptr.pos, m.row_stride, 0, p, m.row_stride, 0, i, 0);
    }
    assert forall|i: int| #[trigger] c.at(i) == m.at(i, j) by {
        assert(c.addr(i) == m.addr(i, j));
    }
}

/// Element `i` of the diagonal is the element in row `i` and column `i`.
pub proof fn lemma_mat_diagonal<E>(m: MatView<E>)
    ensures
        forall|i: int| #[trigger] m.diagonal().addr(i) == m.addr(i, i),
        forall|i: int| #[trigger] m.diagonal().at(i) == m.at(i, i),
{
    let d = m.diagonal();
    assert forall|i: int| #[trigger] d.addr(i) == m.addr(i, i) by {
        let s = m.row_stride + m.col_stride;
        lemma_wrap_stable(s);
        lemma_wrap_affine(m.ptr.pos, d.stride, 0, m.ptr.pos, s, 0, i, 0);
        assert(i * s == i * m.row_stride + i * m.col_stride) by (nonlinear_arith)
            requires
                s == m.row_stride + m.col_stride,
        ;
    }
    assert forall|i: int| #[trigger] d.at(i) == m.at(i, i) by {
        assert(d.addr(i) == m.addr(i, i));
    }
}

/// Transposition exchanges the row and the column of an element.
pub proof fn lemma_mat_transposed<E>(m: MatView<E>)
    ensures
        forall|i: int, j: int| #[trigger] m.transposed().addr(i, j) == m.addr(j, i),
        forall|i: int, j: int| #[trigger] m.transposed().at(i, j) == m.at(j, i),
{
    assert forall|i: int, j: int| #[trigger] m.transposed().at(i, j) == m.at(j, i) by {
        assert(m.transposed().addr(i, j) == m.addr(j, i));
    }
}

/// Row `i` of the rows in reverse order is row `i` counted backwards.
pub proof fn lemma_mat_rows_reversed<E>(m: MatView<E>)
    ensures
        forall|i: int, j: int|
            #[trigger] m.rows_reversed().addr(i, j) == m.addr(m.last_row() - i, j),
        forall|i: int, j: int| #[trigger] m.rows_reversed().at(i, j) == m.at(m.last_row() - i, j),
{
    let r = m.rows_reversed();
    let n = m.last_row();
    assert forall|i: int, j: int| #[trigger] r.addr(i, j) == m.addr(n - i, j) by {
        let p = m.ptr.pos + n * m.row_stride;
        lemma_wrap_stable(p);
        lemma_wrap_stable(-m.row_stride);
        lemma_wrap_affine(r.ptr.pos, r.row_stride, m.col_stride, p, -m.row_stride, m.col_stride, i, j);
        assert((n - i) * m.row_stride == n * m.row_stride + i * (-m.row_stride))
            by (nonlinear_arith);
    }
    assert forall|i: int, j: int| #[trigger] r.at(i, j) == m.at(n - i, j) by {
        assert(r.addr(i, j) == m.addr(n - i, j));
    }
}

/// Column `j` of the columns in reverse order is column `j` counted backwards.
pub proof fn lemma_mat_cols_reversed<E>(m: MatView<E>)
    ensures
        forall|i: int, j: int|
            #[trigger] m.cols_reversed().addr(i, j) == m.addr(i, m.last_col() - j),
        forall|i: int, j: int| #[trigger] m.cols_reversed().at(i, j) == m.at(i, m.last_col() - j),
{
    let r = m.cols_reversed();
    let n = m.last_col();
    assert forall|i: int, j: int| #[trigger] r.addr(i, j) == m.addr(i, n - j) by {
        let p = m.ptr.pos + n * m.col_stride;
        lemma_wrap_stable(p);
        lemma_wrap_stable(-m.col_stride);
        lemma_wrap_affine(r.ptr.pos, m.row_stride, r.col_stride, p, m.row_stride, -m.col_stride, i, j);
        assert((n - j) * m.col_stride == n * m.col_stride + j * (-m.col_stride))
            by (nonlinear_arith);
    }
    assert forall|i: int, j: int| #[trigger] r.at(i, j) == m.at(i, n - j) by {
        assert(r.addr(i, j) == m.addr(i, n - j));
    }
}

/// Reversal of both counts the rows and the columns backwards.
pub proof fn lemma_mat_reversed<E>(m: MatView<E>)
    ensures
        forall|i: int, j: int|
            #[trigger] m.reversed().addr(i, j) == m.addr(m.last_row() - i, m.last_col() - j),
        forall|i: int, j: int|
            #[trigger] m.reversed().at(i, j) == m.at(m.last_row() - i, m.last_col() - j),
{
    let r = m.reversed();
    let n = m.last_row();
    let k = m.last_col();
    assert forall|i: int, j: int| #[trigger] r.addr(i, j) == m.addr(n - i, k - j) by {
        let p = m.ptr.pos + n * m.row_stride + k * m.col_stride;
        lemma_wrap_stable(p);
        lemma_wrap_stable(-m.row_stride);
        lemma_wrap_stable(-m.col_stride);
        lemma_wrap_affine(
            r.ptr.pos,
            r.row_stride,
            r.col_stride,
            p,
            -m.row_stride,
            -m.col_stride,
            i,
            j,
        );
        assert((n - i) * m.row_stride == n * m.row_stride + i * (-m.row_stride))
            by (nonlinear_arith);
        assert((k - j) * m.col_stride == k * m.col_stride + j * (-m.col_stride))
            by (nonlinear_arith);
    }
    assert forall|i: int, j: int| #[trigger] r.at(i, j) == m.at(n - i, k - j) by {
        assert(r.addr(i, j) == m.addr(n - i, k - j));
    }
}

}
