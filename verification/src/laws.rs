//! Laws that relate the operations on views and matrices.
//!
//! They are stated over the models that the contracts of the operations speak of: `transpose` gives
//! `transposed`, `submatrix` gives `sub`, `invert_rows` gives `rows_reversed`, and so on.

use crate::col_mut::ColMut;
use crate::col_ref::ColRef;
use crate::complex::{interleaved, mat_part, vec_part};
use crate::mat::{checked_capacity, fits, larger, law_column_major, OwnedView};
use crate::mat_mut::MatMut;
use crate::mat_ref::MatRef;
use crate::memory::initialized;
use crate::model::{
    lemma_mat_alone, lemma_mat_col, lemma_mat_col_cell, lemma_mat_cols_reversed, lemma_mat_diagonal,
    lemma_mat_reversed, lemma_mat_row, lemma_mat_row_cell, lemma_mat_rows_reversed, lemma_mat_sub,
    lemma_mat_transposed, lemma_ptr_offset, lemma_vec_alone, lemma_vec_as_matrix, lemma_vec_sub,
    MatView, PtrView, VecView,
};
use crate::row_mut::RowMut;
use crate::row_ref::RowRef;
use crate::stack::{
    is_cacheline, is_vectorizable_size, law_round_up_smallest, rounded_up, temp_layout,
};
use crate::word::{
    lemma_wrap_affine, lemma_wrap_multiple, lemma_wrap_split, lemma_wrap_stable, signed, word, wrap,
};
use num_complex::Complex;
use vstd::prelude::*;

verus! {

/// Steps by strides that cancel out lead back.
proof fn lemma_there_and_back<E>(p: PtrView<E>, n: int, s: int)
    requires
        0 <= p.pos < word(),
    ensures
        p.offset(n * s).offset(n * signed(-s)) == p,
{
    lemma_wrap_stable(-s);
    lemma_wrap_stable(p.pos + n * s);
    lemma_wrap_stable(p.pos);
    lemma_wrap_affine(wrap(p.pos + n * s), signed(-s), 0, p.pos + n * s, -s, 0, n, 0);
    assert(n * s + n * (-s) == 0) by (nonlinear_arith);
}

/// The opposite of the opposite of a stride is the stride.
proof fn lemma_opposite_twice(s: int)
    requires
        isize::MIN <= s <= isize::MAX,
    ensures
        signed(-signed(-s)) == s,
{
    lemma_wrap_stable(-s);
    lemma_wrap_stable(s);
    lemma_wrap_affine(0, signed(-s), 0, 0, -s, 0, -1, 0);
    assert(-1 * signed(-s) == -signed(-s) && -1 * (-s) == s);
}

/// Transposing twice gives the matrix back.
pub proof fn law_transpose_twice<E>(m: MatView<E>)
    ensures
        m.transposed().transposed() == m,
{
}

/// Transposing a vector that is viewed as a matrix exchanges the two ways to view it.
pub proof fn law_transpose_vector<E>(v: VecView<E>)
    ensures
        v.as_row().transposed() == v.as_col(),
        v.as_col().transposed() == v.as_row(),
{
}

/// Rows of the transpose are columns, and columns of the transpose are rows.
pub proof fn law_transpose_rows_cols<E>(m: MatView<E>, k: int)
    ensures
        m.transposed().row(k) == m.col(k),
        m.transposed().col(k) == m.row(k),
{
}

/// The diagonal of a square matrix is the diagonal of its transpose.
pub proof fn law_transpose_diagonal<E>(m: MatView<E>)
    requires
        m.nrows == m.ncols,
    ensures
        m.transposed().diagonal() == m.diagonal(),
{
}

/// Transposing a part of a matrix gives that part of the transpose.
pub proof fn law_transpose_submatrix<E>(m: MatView<E>, i: int, j: int, nrows: nat, ncols: nat)
    ensures
        m.sub(i, j, nrows, ncols).transposed() == m.transposed().sub(j, i, ncols, nrows),
{
}

/// A vector that is viewed as a matrix has itself as the only row or column.
pub proof fn law_vector_as_matrix<E>(v: VecView<E>)
    requires
        v.machine_numbers(),
    ensures
        v.as_row().row(0) == v,
        v.as_col().col(0) == v,
{
    lemma_ptr_offset(v.ptr, 0, 0);
}

/// A part of a part is a part of the matrix.
pub proof fn law_submatrix_twice<E>(
    m: MatView<E>,
    i: int,
    j: int,
    nrows: nat,
    ncols: nat,
    k: int,
    l: int,
    inner_nrows: nat,
    inner_ncols: nat,
)
    ensures
        m.sub(i, j, nrows, ncols).sub(k, l, inner_nrows, inner_ncols) == m.sub(
            i + k,
            j + l,
            inner_nrows,
            inner_ncols,
        ),
{
    let r = m.row_stride;
    let c = m.col_stride;
    lemma_ptr_offset(m.ptr, i * r + j * c, k * r + l * c);
    assert(i * r + j * c + (k * r + l * c) == (i + k) * r + (j + l) * c) by (nonlinear_arith);
}

/// The part that begins at the first element and has all rows and columns is the matrix.
pub proof fn law_submatrix_whole<E>(m: MatView<E>)
    requires
        m.machine_numbers(),
    ensures
        m.sub(0, 0, m.nrows, m.ncols) == m,
{
    lemma_ptr_offset(m.ptr, 0, 0);
}

/// A part of a part of a vector is a part of the vector.
pub proof fn law_subvector_twice<E>(v: VecView<E>, k: int, len: nat, l: int, inner_len: nat)
    ensures
        v.sub(k, len).sub(l, inner_len) == v.sub(k + l, inner_len),
{
    lemma_ptr_offset(v.ptr, k * v.stride, l * v.stride);
    assert(k * v.stride + l * v.stride == (k + l) * v.stride) by (nonlinear_arith);
}

/// A row of a part of a matrix is a part of a row, and a column of a part is a part of a column.
pub proof fn law_submatrix_rows_cols<E>(
    m: MatView<E>,
    i: int,
    j: int,
    nrows: nat,
    ncols: nat,
    k: int,
)
    ensures
        m.sub(i, j, nrows, ncols).row(k) == m.row(i + k).sub(j, ncols),
        m.sub(i, j, nrows, ncols).col(k) == m.col(j + k).sub(i, nrows),
{
    let r = m.row_stride;
    let c = m.col_stride;
    lemma_ptr_offset(m.ptr, i * r + j * c, k * r);
    lemma_ptr_offset(m.ptr, (i + k) * r, j * c);
    lemma_ptr_offset(m.ptr, i * r + j * c, k * c);
    lemma_ptr_offset(m.ptr, (j + k) * c, i * r);
    assert(i * r + j * c + k * r == (i + k) * r + j * c) by (nonlinear_arith);
    assert(i * r + j * c + k * c == (j + k) * c + i * r) by (nonlinear_arith);
}

/// Reversing the rows twice gives the matrix back, and so does reversing the columns twice.
pub proof fn law_invert_twice<E>(m: MatView<E>)
    requires
        m.machine_numbers(),
    ensures
        m.rows_reversed().rows_reversed() == m,
        m.cols_reversed().cols_reversed() == m,
        m.reversed().reversed() == m,
{
    let r = m.row_stride;
    let c = m.col_stride;
    let n = m.last_row();
    let k = m.last_col();
    lemma_opposite_twice(r);
    lemma_opposite_twice(c);
    lemma_there_and_back(m.ptr, n, r);
    lemma_there_and_back(m.ptr, k, c);
    lemma_wrap_stable(-r);
    lemma_wrap_stable(-c);
    let p = m.ptr.pos + n * r + k * c;
    lemma_wrap_stable(p);
    lemma_wrap_stable(m.ptr.pos);
    lemma_wrap_affine(wrap(p), signed(-r), signed(-c), p, -r, -c, n, k);
    assert(p + n * (-r) + k * (-c) == m.ptr.pos) by (nonlinear_arith)
        requires
            p == m.ptr.pos + n * r + k * c,
    ;
}

/// Reversing the rows and the columns is reversing both, in either order.
pub proof fn law_invert_both<E>(m: MatView<E>)
    ensures
        m.rows_reversed().cols_reversed() == m.reversed(),
        m.cols_reversed().rows_reversed() == m.reversed(),
{
    let a = m.last_row() * m.row_stride;
    let b = m.last_col() * m.col_stride;
    lemma_ptr_offset(m.ptr, a, b);
    lemma_ptr_offset(m.ptr, b, a);
}

/// Transposing the matrix with its rows reversed gives the transpose with its columns reversed.
pub proof fn law_invert_transpose<E>(m: MatView<E>)
    ensures
        m.rows_reversed().transposed() == m.transposed().cols_reversed(),
        m.cols_reversed().transposed() == m.transposed().rows_reversed(),
        m.reversed().transposed() == m.transposed().reversed(),
{
}

/// Views that are made of a matrix in which each element may be read have the same property, as
/// long as they stay within its bounds.
pub proof fn law_readable_kept<E>(m: MatView<E>, i: int, j: int, nrows: nat, ncols: nat)
    requires
        m.readable(),
        0 <= i && i + nrows <= m.nrows,
        0 <= j && j + ncols <= m.ncols,
    ensures
        m.transposed().readable(),
        m.sub(i, j, nrows, ncols).readable(),
        i < m.nrows ==> m.row(i).readable(),
        j < m.ncols ==> m.col(j).readable(),
        m.nrows == m.ncols ==> m.diagonal().readable(),
        m.rows_reversed().readable(),
        m.cols_reversed().readable(),
        m.reversed().readable(),
{
    lemma_mat_transposed(m);
    lemma_mat_sub(m, i, j, nrows, ncols);
    lemma_mat_row(m, i);
    lemma_mat_col(m, j);
    lemma_mat_diagonal(m);
    lemma_mat_rows_reversed(m);
    lemma_mat_cols_reversed(m);
    lemma_mat_reversed(m);
}

/// Views that are made of a matrix in which no two elements share a cell have the same property, as
/// long as they stay within its bounds.
pub proof fn law_no_alias_kept<E>(m: MatView<E>, i: int, j: int, nrows: nat, ncols: nat)
    requires
        m.no_alias(),
        0 <= i && i + nrows <= m.nrows,
        0 <= j && j + ncols <= m.ncols,
    ensures
        m.transposed().no_alias(),
        m.sub(i, j, nrows, ncols).no_alias(),
        i < m.nrows ==> m.row(i).no_alias(),
        j < m.ncols ==> m.col(j).no_alias(),
        m.nrows == m.ncols ==> m.diagonal().no_alias(),
        m.rows_reversed().no_alias(),
        m.cols_reversed().no_alias(),
        m.reversed().no_alias(),
{
    let t = m.transposed();
    lemma_mat_transposed(m);
    assert forall|a: int, b: int, c: int, d: int|
        #![trigger t.addr(a, b), t.addr(c, d)]
        t.has(a, b) && t.has(c, d) && t.addr(a, b) == t.addr(c, d) implies a == c && b == d by {
        assert(m.addr(b, a) == m.addr(d, c));
    }
    let s = m.sub(i, j, nrows, ncols);
    lemma_mat_sub(m, i, j, nrows, ncols);
    assert forall|a: int, b: int, c: int, d: int|
        #![trigger s.addr(a, b), s.addr(c, d)]
        s.has(a, b) && s.has(c, d) && s.addr(a, b) == s.addr(c, d) implies a == c && b == d by {
        assert(m.addr(i + a, j + b) == m.addr(i + c, j + d));
    }
    let row = m.row(i);
    lemma_mat_row(m, i);
    if i < m.nrows {
        assert forall|a: int, b: int|
            #![trigger row.addr(a), row.addr(b)]
            0 <= a < row.len && 0 <= b < row.len && row.addr(a) == row.addr(b) implies a == b by {
            assert(m.addr(i, a) == m.addr(i, b));
        }
    }
    let col = m.col(j);
    lemma_mat_col(m, j);
    if j < m.ncols {
        assert forall|a: int, b: int|
            #![trigger col.addr(a), col.addr(b)]
            0 <= a < col.len && 0 <= b < col.len && col.addr(a) == col.addr(b) implies a == b by {
            assert(m.addr(a, j) == m.addr(b, j));
        }
    }
    let diagonal = m.diagonal();
    lemma_mat_diagonal(m);
    if m.nrows == m.ncols {
        assert forall|a: int, b: int|
            #![trigger diagonal.addr(a), diagonal.addr(b)]
            0 <= a < diagonal.len && 0 <= b < diagonal.len && diagonal.addr(a) == diagonal.addr(
                b,
            ) implies a == b by {
            assert(m.addr(a, a) == m.addr(b, b));
        }
    }
    lemma_no_alias_kept_reversed(m);
}

/// Where no two elements of a matrix share a cell, none do in reverse order.
proof fn lemma_no_alias_kept_reversed<E>(m: MatView<E>)
    requires
        m.no_alias(),
    ensures
        m.rows_reversed().no_alias(),
        m.cols_reversed().no_alias(),
        m.reversed().no_alias(),
{
    let n = m.last_row();
    let k = m.last_col();
    let r = m.rows_reversed();
    lemma_mat_rows_reversed(m);
    assert forall|a: int, b: int, c: int, d: int|
        #![trigger r.addr(a, b), r.addr(c, d)]
        r.has(a, b) && r.has(c, d) && r.addr(a, b) == r.addr(c, d) implies a == c && b == d by {
        assert(m.addr(n - a, b) == m.addr(n - c, d));
    }
    let q = m.cols_reversed();
    lemma_mat_cols_reversed(m);
    assert forall|a: int, b: int, c: int, d: int|
        #![trigger q.addr(a, b), q.addr(c, d)]
        q.has(a, b) && q.has(c, d) && q.addr(a, b) == q.addr(c, d) implies a == c && b == d by {
        assert(m.addr(a, k - b) == m.addr(c, k - d));
    }
    let w = m.reversed();
    lemma_mat_reversed(m);
    assert forall|a: int, b: int, c: int, d: int|
        #![trigger w.addr(a, b), w.addr(c, d)]
        w.has(a, b) && w.has(c, d) && w.addr(a, b) == w.addr(c, d) implies a == c && b == d by {
        assert(m.addr(n - a, k - b) == m.addr(n - c, k - d));
    }
}

/// Views that are made of a vector in which no two elements share a cell have the same property, as
/// long as they stay within its bounds.
pub proof fn law_no_alias_kept_vector<E>(v: VecView<E>, k: int, len: nat)
    requires
        v.no_alias(),
        0 <= k && k + len <= v.len,
    ensures
        v.sub(k, len).no_alias(),
        v.as_row().no_alias(),
        v.as_col().no_alias(),
{
    let s = v.sub(k, len);
    lemma_vec_sub(v, k, len);
    assert forall|a: int, b: int|
        #![trigger s.addr(a), s.addr(b)]
        0 <= a < s.len && 0 <= b < s.len && s.addr(a) == s.addr(b) implies a == b by {
        assert(v.addr(k + a) == v.addr(k + b));
    }
    lemma_vec_as_matrix(v);
    let r = v.as_row();
    assert forall|a: int, b: int, c: int, d: int|
        #![trigger r.addr(a, b), r.addr(c, d)]
        r.has(a, b) && r.has(c, d) && r.addr(a, b) == r.addr(c, d) implies a == c && b == d by {
        assert(r.addr(0, b) == v.addr(b) && r.addr(0, d) == v.addr(d));
    }
    let q = v.as_col();
    assert forall|a: int, b: int, c: int, d: int|
        #![trigger q.addr(a, b), q.addr(c, d)]
        q.has(a, b) && q.has(c, d) && q.addr(a, b) == q.addr(c, d) implies a == c && b == d by {
        assert(q.addr(a, 0) == v.addr(a) && q.addr(c, 0) == v.addr(c));
    }
}

/// Which cells are readable has no part in whether two elements share a cell.
pub proof fn law_no_alias_of_places<E, F>(m: MatView<E>, mem: Seq<Option<F>>)
    ensures
        m.no_alias() == (MatView {
            ptr: PtrView { mem, pos: m.ptr.pos },
            nrows: m.nrows,
            ncols: m.ncols,
            row_stride: m.row_stride,
            col_stride: m.col_stride,
        }).no_alias(),
{
    let n = MatView {
        ptr: PtrView { mem, pos: m.ptr.pos },
        nrows: m.nrows,
        ncols: m.ncols,
        row_stride: m.row_stride,
        col_stride: m.col_stride,
    };
    if m.no_alias() {
        assert forall|a: int, b: int, c: int, d: int|
            #![trigger n.addr(a, b), n.addr(c, d)]
            n.has(a, b) && n.has(c, d) && n.addr(a, b) == n.addr(c, d) implies a == c && b == d by {
            assert(m.addr(a, b) == m.addr(c, d));
        }
    }
    if n.no_alias() {
        assert forall|a: int, b: int, c: int, d: int|
            #![trigger m.addr(a, b), m.addr(c, d)]
            m.has(a, b) && m.has(c, d) && m.addr(a, b) == m.addr(c, d) implies a == c && b == d by {
            assert(n.addr(a, b) == n.addr(c, d));
        }
    }
}

/// A shared view of a mutable matrix has the same elements, with the values that they hold now.
pub proof fn law_shared_elements<'a, T>(m: MatView<&'a mut T>)
    ensures
        forall|i: int, j: int| #[trigger]
            m.now().at(i, j) == match m.at(i, j) {
                Some(x) => Some(*x),
                None => None,
            },
        m.readable() ==> m.now().readable(),
        m.no_alias() ==> m.now().no_alias(),
{
    let n = m.now();
    assert forall|i: int, j: int| #[trigger]
        n.at(i, j) == match m.at(i, j) {
            Some(x) => Some(*x),
            None => None,
        } by {
        assert(n.addr(i, j) == m.addr(i, j));
    }
    if m.readable() {
        assert forall|i: int, j: int| n.has(i, j) implies (#[trigger] n.at(i, j)) is Some by {
            assert(m.at(i, j) is Some);
        }
    }
    if m.no_alias() {
        assert forall|a: int, b: int, c: int, d: int|
            #![trigger n.addr(a, b), n.addr(c, d)]
            n.has(a, b) && n.has(c, d) && n.addr(a, b) == n.addr(c, d) implies a == c && b == d by {
            assert(m.addr(a, b) == m.addr(c, d));
        }
    }
}

/// An iterator over rows that has handed out `front` rows from the front and `back` rows from the
/// back has the rows in between left. The next row from the front is row `front`, the next one from
/// the back is the row in front of the last `back` rows, and what is left after either is again the
/// rows in between.
pub proof fn law_row_iteration<E>(m: MatView<E>, front: nat, back: nat)
    requires
        m.machine_numbers(),
        front + back < m.nrows,
    ensures
        ({
            let left = m.sub(front as int, 0, (m.nrows - front - back) as nat, m.ncols);
            &&& left.row(0) == m.row(front as int)
            &&& left.row(left.nrows - 1) == m.row(m.nrows - 1 - back)
            &&& left.sub(1, 0, (left.nrows - 1) as nat, left.ncols) == m.sub(
                front as int + 1,
                0,
                (m.nrows - (front + 1) - back) as nat,
                m.ncols,
            )
            &&& left.sub(0, 0, (left.nrows - 1) as nat, left.ncols) == m.sub(
                front as int,
                0,
                (m.nrows - front - (back + 1)) as nat,
                m.ncols,
            )
        }),
        m.sub(0, 0, m.nrows, m.ncols) == m,
{
    let f = front as int;
    let n = (m.nrows - front - back) as nat;
    let left = m.sub(f, 0, n, m.ncols);
    law_submatrix_whole(m);
    law_submatrix_rows_cols(m, f, 0, n, m.ncols, 0);
    law_submatrix_rows_cols(m, f, 0, n, m.ncols, n - 1);
    law_submatrix_twice(m, f, 0, n, m.ncols, 1, 0, (n - 1) as nat, m.ncols);
    law_submatrix_twice(m, f, 0, n, m.ncols, 0, 0, (n - 1) as nat, m.ncols);
    lemma_wrap_stable(m.ptr.pos + f * m.row_stride);
    lemma_wrap_stable(m.ptr.pos + (f + (n - 1)) * m.row_stride);
    lemma_ptr_offset(m.row(f).ptr, 0, 0);
    lemma_ptr_offset(m.row(f + (n - 1)).ptr, 0, 0);
    let _ = lemma_wrap_split(m.ptr.pos + f * m.row_stride);
    let _ = lemma_wrap_split(m.ptr.pos + (f + (n - 1)) * m.row_stride);
}

/// An iterator over columns that has handed out `front` columns from the front and `back` columns
/// from the back has the columns in between left. The next column from the front is column `front`,
/// the next one from the back is the column in front of the last `back` columns, and what is left
/// after either is again the columns in between.
pub proof fn law_col_iteration<E>(m: MatView<E>, front: nat, back: nat)
    requires
        m.machine_numbers(),
        front + back < m.ncols,
    ensures
        ({
            let left = m.sub(0, front as int, m.nrows, (m.ncols - front - back) as nat);
            &&& left.col(0) == m.col(front as int)
            &&& left.col(left.ncols - 1) == m.col(m.ncols - 1 - back)
            &&& left.sub(0, 1, left.nrows, (left.ncols - 1) as nat) == m.sub(
                0,
                front as int + 1,
                m.nrows,
                (m.ncols - (front + 1) - back) as nat,
            )
            &&& left.sub(0, 0, left.nrows, (left.ncols - 1) as nat) == m.sub(
                0,
                front as int,
                m.nrows,
                (m.ncols - front - (back + 1)) as nat,
            )
        }),
        m.sub(0, 0, m.nrows, m.ncols) == m,
{
    law_row_iteration(m.transposed(), front, back);
    let f = front as int;
    let n = (m.ncols - front - back) as nat;
    law_transpose_submatrix(m, 0, f, m.nrows, n);
    law_transpose_submatrix(m.sub(0, f, m.nrows, n), 0, 1, m.nrows, (n - 1) as nat);
    law_transpose_submatrix(m.sub(0, f, m.nrows, n), 0, 0, m.nrows, (n - 1) as nat);
    law_transpose_submatrix(m, 0, f + 1, m.nrows, (n - 1) as nat);
    law_transpose_submatrix(m, 0, f, m.nrows, (n - 1) as nat);
    law_submatrix_whole(m);
    let a = m.sub(0, f, m.nrows, n).sub(0, 1, m.nrows, (n - 1) as nat);
    let b = m.sub(0, f + 1, m.nrows, (n - 1) as nat);
    assert(a.transposed() == b.transposed());
    law_transpose_twice(a);
    law_transpose_twice(b);
    let c = m.sub(0, f, m.nrows, n).sub(0, 0, m.nrows, (n - 1) as nat);
    let d = m.sub(0, f, m.nrows, (n - 1) as nat);
    assert(c.transposed() == d.transposed());
    law_transpose_twice(c);
    law_transpose_twice(d);
}

/// An iterator over elements that has handed out `front` elements from the front and `back`
/// elements from the back has the elements in between left, and goes on with those at their ends.
pub proof fn law_elem_iteration<E>(v: VecView<E>, front: nat, back: nat)
    requires
        v.machine_numbers(),
        front + back < v.len,
    ensures
        ({
            let left = v.sub(front as int, (v.len - front - back) as nat);
            &&& left.at(0) == v.at(front as int)
            &&& left.at(left.len - 1) == v.at(v.len - 1 - back)
            &&& left.sub(1, (left.len - 1) as nat) == v.sub(
                front as int + 1,
                (v.len - (front + 1) - back) as nat,
            )
            &&& left.sub(0, (left.len - 1) as nat) == v.sub(
                front as int,
                (v.len - front - (back + 1)) as nat,
            )
        }),
        v.sub(0, v.len) == v,
{
    let f = front as int;
    let n = (v.len - front - back) as nat;
    lemma_vec_sub(v, f, n);
    lemma_ptr_offset(v.ptr, 0, 0);
    law_subvector_twice(v, f, n, 1, (n - 1) as nat);
    law_subvector_twice(v, f, n, 0, (n - 1) as nat);
    assert(v.sub(f, n).at(0) == v.at(f + 0));
    assert(v.sub(f, n).at(n - 1) == v.at(f + (n - 1)));
}

/// Where no two elements share a cell, no two rows do, and no two columns do.
pub proof fn law_rows_and_cols_apart<E>(m: MatView<E>, k: int, l: int, p: int)
    requires
        m.no_alias(),
        k != l,
    ensures
        0 <= k < m.nrows && 0 <= l < m.nrows ==> !(m.row(k).covers(p) && m.row(l).covers(p)),
        0 <= k < m.ncols && 0 <= l < m.ncols ==> !(m.col(k).covers(p) && m.col(l).covers(p)),
{
    if 0 <= k < m.nrows && 0 <= l < m.nrows && m.row(l).covers(p) {
        lemma_mat_row(m, l);
        let j = choose|j: int| 0 <= j < m.row(l).len && #[trigger] m.row(l).addr(j) == p;
        lemma_mat_row_cell(m, k, l, j);
    }
    if 0 <= k < m.ncols && 0 <= l < m.ncols && m.col(l).covers(p) {
        lemma_mat_col(m, l);
        let i = choose|i: int| 0 <= i < m.col(l).len && #[trigger] m.col(l).addr(i) == p;
        lemma_mat_col_cell(m, k, i, l);
    }
}

/// The rows of a matrix cover its cells, and so do its columns.
pub proof fn law_rows_and_cols_tile<E>(m: MatView<E>, p: int)
    ensures
        m.covers(p) == exists|i: int| 0 <= i < m.nrows && #[trigger] m.row(i).covers(p),
        m.covers(p) == exists|j: int| 0 <= j < m.ncols && #[trigger] m.col(j).covers(p),
{
    if m.covers(p) {
        let (i, j) = choose|i: int, j: int| m.has(i, j) && #[trigger] m.addr(i, j) == p;
        lemma_mat_row(m, i);
        lemma_mat_col(m, j);
        assert(m.row(i).addr(j) == p);
        assert(m.row(i).covers(p));
        assert(m.col(j).addr(i) == p);
        assert(m.col(j).covers(p));
    }
    if exists|i: int| 0 <= i < m.nrows && #[trigger] m.row(i).covers(p) {
        let i = choose|i: int| 0 <= i < m.nrows && #[trigger] m.row(i).covers(p);
        lemma_mat_row(m, i);
        let j = choose|j: int| 0 <= j < m.row(i).len && #[trigger] m.row(i).addr(j) == p;
        assert(m.has(i, j) && m.addr(i, j) == p);
    }
    if exists|j: int| 0 <= j < m.ncols && #[trigger] m.col(j).covers(p) {
        let j = choose|j: int| 0 <= j < m.ncols && #[trigger] m.col(j).covers(p);
        lemma_mat_col(m, j);
        let i = choose|i: int| 0 <= i < m.col(j).len && #[trigger] m.col(j).addr(i) == p;
        assert(m.has(i, j) && m.addr(i, j) == p);
    }
}

/// Whether `left` has the elements of `m`, without its first `front` and its last `back` rows.
pub open spec fn rows_between<E>(left: MatView<E>, m: MatView<E>, front: nat, back: nat) -> bool {
    &&& left.no_alias()
    &&& left.nrows + front + back == m.nrows
    &&& left.ncols == m.ncols
    &&& forall|i: int, j: int|
        left.has(i, j) ==> #[trigger] left.at(i, j) == m.at(front + i, j)
}

/// Whether `left` has the elements of `m`, without its first `front` and its last `back` columns.
pub open spec fn cols_between<E>(left: MatView<E>, m: MatView<E>, front: nat, back: nat) -> bool {
    &&& left.no_alias()
    &&& left.nrows == m.nrows
    &&& left.ncols + front + back == m.ncols
    &&& forall|i: int, j: int|
        left.has(i, j) ==> #[trigger] left.at(i, j) == m.at(i, front + j)
}

/// Whether `left` has the elements of `v`, without its first `front` and its last `back` elements.
pub open spec fn elems_between<E>(left: VecView<E>, v: VecView<E>, front: nat, back: nat) -> bool {
    &&& left.no_alias()
    &&& left.len + front + back == v.len
    &&& forall|k: int| 0 <= k < left.len ==> #[trigger] left.at(k) == v.at(front + k)
}

/// Handing out a row of a mutable matrix leaves the others as they were.
proof fn lemma_row_taken<E>(left: MatView<E>, k: int, i: int, n: nat)
    requires
        left.no_alias(),
        0 <= k < left.nrows,
        0 <= i && i + n <= left.nrows,
        k < i || i + n <= k,
    ensures
        ({
            let rest = left.without(|p: int| left.row(k).covers(p)).sub(i, 0, n, left.ncols);
            &&& rest.no_alias()
            &&& forall|a: int, b: int|
                rest.has(a, b) ==> #[trigger] rest.at(a, b) == left.at(i + a, b)
        }),
        forall|j: int|
            0 <= j < left.ncols ==> #[trigger] left.row(k).alone().at(j) == left.at(k, j),
{
    let hidden = left.without(|p: int| left.row(k).covers(p));
    let rest = hidden.sub(i, 0, n, left.ncols);
    lemma_mat_sub(hidden, i, 0, n, left.ncols);
    assert forall|a: int, b: int| rest.has(a, b) implies #[trigger] rest.at(a, b) == left.at(
        i + a,
        b,
    ) by {
        lemma_mat_row_cell(left, k, i + a, b);
        assert(rest.at(a, b) == hidden.at(i + a, 0 + b));
    }
    assert forall|a: int, b: int, c: int, d: int|
        #![trigger rest.addr(a, b), rest.addr(c, d)]
        rest.has(a, b) && rest.has(c, d) && rest.addr(a, b) == rest.addr(c, d) implies a == c && b
        == d by {
        assert(rest.addr(a, b) == left.addr(i + a, b));
        assert(rest.addr(c, d) == left.addr(i + c, d));
    }
    lemma_mat_row(left, k);
    lemma_vec_alone(left.row(k));
}

/// An iterator over the rows of a mutable matrix hands the rows out in order, from both ends: the
/// next row from the front is row `front`, the next one from the back is the row in front of the
/// last `back` rows, and what is left after either is again the rows in between.
pub proof fn law_row_iteration_mut<E>(left: MatView<E>, m: MatView<E>, front: nat, back: nat)
    requires
        rows_between(left, m, front, back),
        left.nrows > 0,
    ensures
        ({
            let n = (left.nrows - 1) as nat;
            let next = left.without(|p: int| left.row(0).covers(p)).sub(1, 0, n, left.ncols);
            let prev = left.without(|p: int| left.row(left.nrows - 1).covers(p)).sub(
                0,
                0,
                n,
                left.ncols,
            );
            &&& rows_between(next, m, front + 1, back)
            &&& rows_between(prev, m, front, back + 1)
        }),
        forall|j: int|
            0 <= j < m.ncols ==> #[trigger] left.row(0).alone().at(j) == m.at(front as int, j),
        forall|j: int|
            0 <= j < m.ncols ==> #[trigger] left.row(left.nrows - 1).alone().at(j) == m.at(
                m.nrows - 1 - back,
                j,
            ),
        m.no_alias() ==> rows_between(m, m, 0, 0),
{
    let n = (left.nrows - 1) as nat;
    lemma_row_taken(left, 0, 1, n);
    lemma_row_taken(left, left.nrows - 1, 0, n);
    let next = left.without(|p: int| left.row(0).covers(p)).sub(1, 0, n, left.ncols);
    let prev = left.without(|p: int| left.row(left.nrows - 1).covers(p)).sub(0, 0, n, left.ncols);
    assert forall|i: int, j: int| next.has(i, j) implies #[trigger] next.at(i, j) == m.at(
        (front + 1) as nat + i,
        j,
    ) by {
        assert(next.at(i, j) == left.at(1 + i, j));
        assert(left.at(1 + i, j) == m.at(front + (1 + i), j));
    }
    assert forall|i: int, j: int| prev.has(i, j) implies #[trigger] prev.at(i, j) == m.at(
        front + i,
        j,
    ) by {
        assert(prev.at(i, j) == left.at(0 + i, j));
        assert(left.at(i, j) == m.at(front + i, j));
    }
    assert forall|j: int| 0 <= j < m.ncols implies #[trigger] left.row(0).alone().at(j) == m.at(
        front as int,
        j,
    ) by {
        assert(left.at(0, j) == m.at(front as int + 0, j));
    }
    assert forall|j: int| 0 <= j < m.ncols implies #[trigger] left.row(left.nrows - 1).alone().at(j)
        == m.at(m.nrows - 1 - back, j) by {
        assert(left.at(left.nrows - 1, j) == m.at(front + (left.nrows - 1), j));
    }
}

/// Handing out a column of a mutable matrix leaves the others as they were.
proof fn lemma_col_taken<E>(left: MatView<E>, k: int, j: int, n: nat)
    requires
        left.no_alias(),
        0 <= k < left.ncols,
        0 <= j && j + n <= left.ncols,
        k < j || j + n <= k,
    ensures
        ({
            let rest = left.without(|p: int| left.col(k).covers(p)).sub(0, j, left.nrows, n);
            &&& rest.no_alias()
            &&& forall|a: int, b: int|
                rest.has(a, b) ==> #[trigger] rest.at(a, b) == left.at(a, j + b)
        }),
        forall|i: int|
            0 <= i < left.nrows ==> #[trigger] left.col(k).alone().at(i) == left.at(i, k),
{
    let hidden = left.without(|p: int| left.col(k).covers(p));
    let rest = hidden.sub(0, j, left.nrows, n);
    lemma_mat_sub(hidden, 0, j, left.nrows, n);
    assert forall|a: int, b: int| rest.has(a, b) implies #[trigger] rest.at(a, b) == left.at(
        a,
        j + b,
    ) by {
        lemma_mat_col_cell(left, k, a, j + b);
        assert(rest.at(a, b) == hidden.at(0 + a, j + b));
    }
    assert forall|a: int, b: int, c: int, d: int|
        #![trigger rest.addr(a, b), rest.addr(c, d)]
        rest.has(a, b) && rest.has(c, d) && rest.addr(a, b) == rest.addr(c, d) implies a == c && b
        == d by {
        assert(rest.addr(a, b) == left.addr(a, j + b));
        assert(rest.addr(c, d) == left.addr(c, j + d));
    }
    lemma_mat_col(left, k);
    lemma_vec_alone(left.col(k));
}

/// An iterator over the columns of a mutable matrix hands the columns out in order, from both ends:
/// the next column from the front is column `front`, the next one from the back is the column in
/// front of the last `back` columns, and what is left after either is again the columns in between.
pub proof fn law_col_iteration_mut<E>(left: MatView<E>, m: MatView<E>, front: nat, back: nat)
    requires
        cols_between(left, m, front, back),
        left.ncols > 0,
    ensures
        ({
            let n = (left.ncols - 1) as nat;
            let next = left.without(|p: int| left.col(0).covers(p)).sub(0, 1, left.nrows, n);
            let prev = left.without(|p: int| left.col(left.ncols - 1).covers(p)).sub(
                0,
                0,
                left.nrows,
                n,
            );
            &&& cols_between(next, m, front + 1, back)
            &&& cols_between(prev, m, front, back + 1)
        }),
        forall|i: int|
            0 <= i < m.nrows ==> #[trigger] left.col(0).alone().at(i) == m.at(i, front as int),
        forall|i: int|
            0 <= i < m.nrows ==> #[trigger] left.col(left.ncols - 1).alone().at(i) == m.at(
                i,
                m.ncols - 1 - back,
            ),
        m.no_alias() ==> cols_between(m, m, 0, 0),
{
    let n = (left.ncols - 1) as nat;
    lemma_col_taken(left, 0, 1, n);
    lemma_col_taken(left, left.ncols - 1, 0, n);
    let next = left.without(|p: int| left.col(0).covers(p)).sub(0, 1, left.nrows, n);
    let prev = left.without(|p: int| left.col(left.ncols - 1).covers(p)).sub(0, 0, left.nrows, n);
    assert forall|i: int, j: int| next.has(i, j) implies #[trigger] next.at(i, j) == m.at(
        i,
        (front + 1) as nat + j,
    ) by {
        assert(next.at(i, j) == left.at(i, 1 + j));
        assert(left.at(i, 1 + j) == m.at(i, front + (1 + j)));
    }
    assert forall|i: int, j: int| prev.has(i, j) implies #[trigger] prev.at(i, j) == m.at(
        i,
        front + j,
    ) by {
        assert(prev.at(i, j) == left.at(i, 0 + j));
        assert(left.at(i, j) == m.at(i, front + j));
    }
    assert forall|i: int| 0 <= i < m.nrows implies #[trigger] left.col(0).alone().at(i) == m.at(
        i,
        front as int,
    ) by {
        assert(left.at(i, 0) == m.at(i, front as int + 0));
    }
    assert forall|i: int| 0 <= i < m.nrows implies #[trigger] left.col(left.ncols - 1).alone().at(i)
        == m.at(i, m.ncols - 1 - back) by {
        assert(left.at(i, left.ncols - 1) == m.at(i, front + (left.ncols - 1)));
    }
}

/// Handing out an element of a mutable vector leaves the others as they were.
proof fn lemma_elem_taken<E>(left: VecView<E>, k: int, l: int, n: nat)
    requires
        left.no_alias(),
        0 <= k < left.len,
        0 <= l && l + n <= left.len,
        k < l || l + n <= k,
    ensures
        ({
            let rest = left.without(|p: int| p == left.addr(k)).sub(l, n);
            &&& rest.no_alias()
            &&& forall|a: int| 0 <= a < n ==> #[trigger] rest.at(a) == left.at(l + a)
        }),
{
    let hidden = left.without(|p: int| p == left.addr(k));
    let rest = hidden.sub(l, n);
    lemma_vec_sub(hidden, l, n);
    assert forall|a: int| 0 <= a < n implies #[trigger] rest.at(a) == left.at(l + a) by {
        assert(left.addr(l + a) != left.addr(k));
        assert(rest.at(a) == hidden.at(l + a));
    }
    assert forall|a: int, b: int|
        #![trigger rest.addr(a), rest.addr(b)]
        0 <= a < rest.len && 0 <= b < rest.len && rest.addr(a) == rest.addr(b) implies a == b by {
        assert(rest.addr(a) == left.addr(l + a));
        assert(rest.addr(b) == left.addr(l + b));
    }
}

/// An iterator over the elements of a mutable vector hands the elements out in order, from both
/// ends: what is left after the next element from either end is again the elements in between.
pub proof fn law_elem_iteration_mut<E>(left: VecView<E>, v: VecView<E>, front: nat, back: nat)
    requires
        elems_between(left, v, front, back),
        left.len > 0,
    ensures
        ({
            let n = (left.len - 1) as nat;
            let next = left.without(|p: int| p == left.addr(0)).sub(1, n);
            let prev = left.without(|p: int| p == left.addr(left.len - 1)).sub(0, n);
            &&& elems_between(next, v, front + 1, back)
            &&& elems_between(prev, v, front, back + 1)
        }),
        left.at(0) == v.at(front as int),
        left.at(left.len - 1) == v.at(v.len - 1 - back),
        v.no_alias() ==> elems_between(v, v, 0, 0),
{
    let n = (left.len - 1) as nat;
    lemma_elem_taken(left, 0, 1, n);
    lemma_elem_taken(left, left.len - 1, 0, n);
    let next = left.without(|p: int| p == left.addr(0)).sub(1, n);
    let prev = left.without(|p: int| p == left.addr(left.len - 1)).sub(0, n);
    assert forall|k: int| 0 <= k < next.len implies #[trigger] next.at(k) == v.at(
        (front + 1) as nat + k,
    ) by {
        assert(next.at(k) == left.at(1 + k));
        assert(left.at(1 + k) == v.at(front + (1 + k)));
    }
    assert forall|k: int| 0 <= k < prev.len implies #[trigger] prev.at(k) == v.at(front + k) by {
        assert(prev.at(k) == left.at(0 + k));
        assert(left.at(k) == v.at(front + k));
    }
    assert(left.at(0) == v.at(front as int + 0));
    assert(left.at(left.len - 1) == v.at(front + (left.len - 1)));
}

/// Real parts never share a cell with imaginary parts.
pub proof fn law_parts_apart<E, F>(
    m: MatView<E>,
    re: Seq<Option<F>>,
    im: Seq<Option<F>>,
    i: int,
    j: int,
    k: int,
    l: int,
)
    ensures
        mat_part(m, re, 0).addr(i, j) != mat_part(m, im, 1).addr(k, l),
{
    lemma_part_parity(m, re, 0, i, j);
    lemma_part_parity(m, im, 1, k, l);
}

/// Taking away an even number does not change whether a number is even.
proof fn lemma_parity(y: int, part: int, p: int, half: int, q: int)
    requires
        0 <= part < 2,
        part + 2 * p == y + 2 * half * q,
    ensures
        y % 2 == part,
{
    let t = p - half * q;
    assert(y == part + 2 * t) by (nonlinear_arith)
        requires
            part + 2 * p == y + 2 * half * q,
            t == p - half * q,
    ;
}

/// Real parts lie in even cells, and imaginary parts in odd ones.
proof fn lemma_part_parity<E, F>(m: MatView<E>, mem: Seq<Option<F>>, part: int, i: int, j: int)
    requires
        0 <= part < 2,
    ensures
        mat_part(m, mem, part).addr(i, j) % 2 == part,
{
    let r = m.row_stride;
    let c = m.col_stride;
    lemma_wrap_stable(2 * m.ptr.pos + part);
    lemma_wrap_stable(2 * r);
    lemma_wrap_stable(2 * c);
    lemma_wrap_affine(
        wrap(2 * m.ptr.pos + part),
        signed(2 * r),
        signed(2 * c),
        2 * m.ptr.pos + part,
        2 * r,
        2 * c,
        i,
        j,
    );
    let p = m.ptr.pos + i * r + j * c;
    let x = 2 * m.ptr.pos + part + i * (2 * r) + j * (2 * c);
    assert(x == part + 2 * p) by (nonlinear_arith)
        requires
            p == m.ptr.pos + i * r + j * c,
            x == 2 * m.ptr.pos + part + i * (2 * r) + j * (2 * c),
    ;
    let q = lemma_wrap_split(x);
    lemma_parity(wrap(x), part, p, word() / 2, q);
}

/// The parts of a transpose are the transposes of the parts.
pub proof fn law_parts_transpose<E, F>(m: MatView<E>, mem: Seq<Option<F>>, part: int)
    ensures
        mat_part(m.transposed(), mem, part) == mat_part(m, mem, part).transposed(),
{
}

/// The parts of a row are the row of the parts, and the parts of a column are the column of the
/// parts.
pub proof fn law_parts_rows_cols<E, F>(m: MatView<E>, mem: Seq<Option<F>>, part: int, k: int)
    ensures
        vec_part(m.row(k), mem, part) == mat_part(m, mem, part).row(k),
        vec_part(m.col(k), mem, part) == mat_part(m, mem, part).col(k),
{
    lemma_part_step(m.ptr.pos, part, k, m.row_stride);
    lemma_part_step(m.ptr.pos, part, k, m.col_stride);
}

/// Stepping and then going over to the cells of the parts is the same as the other way around.
proof fn lemma_part_step(pos: int, part: int, k: int, s: int)
    ensures
        wrap(2 * wrap(pos + k * s) + part) == wrap(wrap(2 * pos + part) + k * signed(2 * s)),
{
    lemma_wrap_stable(pos + k * s);
    lemma_wrap_stable(2 * pos + part);
    lemma_wrap_stable(2 * s);
    lemma_wrap_affine(part, wrap(pos + k * s), 0, part, pos + k * s, 0, 2, 0);
    lemma_wrap_affine(wrap(2 * pos + part), signed(2 * s), 0, 2 * pos + part, 2 * s, 0, k, 0);
    assert(part + 2 * (pos + k * s) == 2 * pos + part + k * (2 * s)) by (nonlinear_arith);
}

/// Reserving capacity twice is reserving the larger capacities once.
pub proof fn law_reserve_twice<T>(
    a: OwnedView<T>,
    b: OwnedView<T>,
    c: OwnedView<T>,
    row_capacity: nat,
    col_capacity: nat,
    more_rows: nat,
    more_cols: nat,
)
    requires
        b.reserved_from(a, row_capacity, col_capacity),
        c.reserved_from(b, more_rows, more_cols),
    ensures
        c.reserved_from(a, larger(row_capacity, more_rows), larger(col_capacity, more_cols)),
{
    assert forall|i: int, j: int| a.has(i, j) implies #[trigger] c.at(i, j) == a.at(i, j) by {
        assert(c.at(i, j) == b.at(i, j));
    }
}

/// Neither reserving capacity nor resizing takes capacity away, and after either the dimensions
/// are within the capacities.
pub proof fn law_capacity_never_shrinks<T>(a: OwnedView<T>, b: OwnedView<T>, rows: nat, cols: nat)
    requires
        b.reserved_from(a, rows, cols) || b.resized_from(a, rows, cols),
    ensures
        a.row_capacity <= b.row_capacity,
        a.col_capacity <= b.col_capacity,
        rows <= b.row_capacity,
        cols <= b.col_capacity,
        b.nrows <= b.row_capacity,
        b.ncols <= b.col_capacity,
{
}

/// Resizing within the capacities keeps the position of each element, and changes no capacity.
pub proof fn law_resize_within_capacity<T>(a: OwnedView<T>, b: OwnedView<T>, nrows: nat, ncols: nat)
    requires
        b.resized_from(a, nrows, ncols),
        nrows <= a.row_capacity,
        ncols <= a.col_capacity,
    ensures
        b.row_capacity == a.row_capacity,
        b.col_capacity == a.col_capacity,
        forall|i: int, j: int| #[trigger] b.as_mat().addr(i, j) == a.as_mat().addr(i, j),
{
}

/// Resizing a matrix to its own dimensions changes neither an element nor a capacity.
pub proof fn law_resize_to_same<T>(a: OwnedView<T>, b: OwnedView<T>)
    requires
        a.valid(),
        b.resized_from(a, a.nrows, a.ncols),
    ensures
        b.row_capacity == a.row_capacity,
        b.col_capacity == a.col_capacity,
        forall|i: int, j: int| a.has(i, j) ==> #[trigger] b.at(i, j) == a.at(i, j),
{
}

/// Resizing to smaller dimensions in two steps is resizing to them in one step.
pub proof fn law_shrink_twice<T>(
    a: OwnedView<T>,
    b: OwnedView<T>,
    c: OwnedView<T>,
    nrows: nat,
    ncols: nat,
)
    requires
        a.valid(),
        b.resized_from(a, b.nrows, b.ncols),
        c.resized_from(b, nrows, ncols),
        nrows <= b.nrows <= a.nrows,
        ncols <= b.ncols <= a.ncols,
    ensures
        c.resized_from(a, nrows, ncols),
{
    assert forall|i: int, j: int| c.has(i, j) && a.has(i, j) implies #[trigger] c.at(i, j) == a.at(
        i,
        j,
    ) by {
        assert(c.at(i, j) == b.at(i, j));
        assert(b.at(i, j) == a.at(i, j));
    }
}

/// Growing a matrix and then shrinking it to its first dimensions keeps its elements.
pub proof fn law_grow_then_shrink<T>(a: OwnedView<T>, b: OwnedView<T>, c: OwnedView<T>)
    requires
        a.valid(),
        b.resized_from(a, b.nrows, b.ncols),
        c.resized_from(b, a.nrows, a.ncols),
        a.nrows <= b.nrows,
        a.ncols <= b.ncols,
    ensures
        forall|i: int, j: int| a.has(i, j) ==> #[trigger] c.at(i, j) == a.at(i, j),
{
    assert forall|i: int, j: int| a.has(i, j) implies #[trigger] c.at(i, j) == a.at(i, j) by {
        assert(c.at(i, j) == b.at(i, j));
        assert(b.at(i, j) == a.at(i, j));
    }
}

/// The columns of a temporary matrix have room for its rows, and where its elements are
/// vectorizable, each column begins at the start of a cache line.
pub proof fn law_temp_columns_aligned(
    vectorizable: bool,
    cacheline: nat,
    size: nat,
    align: nat,
    nrows: nat,
)
    requires
        is_cacheline(cacheline),
        is_vectorizable_size(size),
    ensures
        ({
            let l = temp_layout(vectorizable, cacheline, size, align, nrows);
            &&& nrows <= l.col_stride
            &&& vectorizable ==> (l.col_stride * size) % l.align == 0
        }),
{
    let k = (cacheline / size) as int;
    assert(k >= 1 && k * size == cacheline) by (nonlinear_arith)
        requires
            k == cacheline / size,
            is_cacheline(cacheline),
            is_vectorizable_size(size),
    ;
    law_round_up_smallest(nrows as int, k);
    let c = rounded_up(nrows as int, k);
    vstd::arithmetic::div_mod::lemma_fundamental_div_mod(c, k);
    let q = c / k;
    assert(c * size == q * cacheline) by (nonlinear_arith)
        requires
            c == k * q,
            k * size == cacheline,
    ;
    vstd::arithmetic::div_mod::lemma_fundamental_div_mod_converse(
        c * size,
        cacheline as int,
        q,
        0,
    );
}

/// A step that stays within the address space is exact: it leads as many cells on as it says, within
/// the same memory, and the cell that it leads to is the one there. A cell that is not in the memory
/// holds nothing.
pub proof fn law_pointer_steps<E>(p: PtrView<E>, n: int)
    requires
        0 <= p.pos + n <= usize::MAX,
    ensures
        p.offset(n).mem == p.mem,
        p.offset(n).pos == p.pos + n,
        p.pos + n < p.mem.len() ==> p.at(n) == p.mem[p.pos + n],
        p.pos + n >= p.mem.len() ==> p.at(n) is None,
{
    lemma_wrap_stable(p.pos + n);
}

/// A step that leaves the address space goes on at its other end: steps of the size of the address
/// space lead nowhere, and the position stays a machine word.
pub proof fn law_pointer_wraps<E>(p: PtrView<E>, n: int, turns: int)
    ensures
        0 <= p.offset(n).pos <= usize::MAX,
        p.offset(n + (usize::MAX as int + 1) * turns) == p.offset(n),
        p.at(n + (usize::MAX as int + 1) * turns) == p.at(n),
{
    let _ = lemma_wrap_split(p.pos + n);
    lemma_wrap_multiple(p.pos + n, turns);
    assert(p.pos + (n + word() * turns) == p.pos + n + word() * turns);
}

/// The memory of a slice has a readable cell for each of its elements, in order, and no others.
pub proof fn law_slice_memory<T>(data: Seq<T>, k: int)
    ensures
        initialized(data).len() == data.len(),
        0 <= k < data.len() ==> initialized(data)[k] == Some(data[k]),
{
}

/// Element `(i, j)` of a matrix lies `i` row strides and `j` column strides behind the first one, as
/// long as that is within the address space.
pub proof fn law_matrix_elements<E>(m: MatView<E>, i: int, j: int)
    ensures
        ({
            let p = m.ptr.pos + i * m.row_stride + j * m.col_stride;
            &&& m.at(i, j) == m.ptr.at(i * m.row_stride + j * m.col_stride)
            &&& 0 <= p <= usize::MAX ==> m.addr(i, j) == p
            &&& 0 <= p < m.ptr.mem.len() && p <= usize::MAX ==> m.at(i, j) == m.ptr.mem[p]
            &&& m.ptr.mem.len() <= p <= usize::MAX ==> m.at(i, j) is None
            &&& m.has(i, j) <==> 0 <= i < m.nrows && 0 <= j < m.ncols
        }),
{
    lemma_wrap_stable(m.ptr.pos + i * m.row_stride + j * m.col_stride);
}

/// Element `k` of a vector lies `k` strides behind the first one, as long as that is within the
/// address space.
pub proof fn law_vector_elements<E>(v: VecView<E>, k: int)
    ensures
        ({
            let p = v.ptr.pos + k * v.stride;
            &&& v.at(k) == v.ptr.at(k * v.stride)
            &&& 0 <= p <= usize::MAX ==> v.addr(k) == p
            &&& 0 <= p < v.ptr.mem.len() && p <= usize::MAX ==> v.at(k) == v.ptr.mem[p]
            &&& v.ptr.mem.len() <= p <= usize::MAX ==> v.at(k) is None
        }),
{
    lemma_wrap_stable(v.ptr.pos + k * v.stride);
}

/// A matrix covers the cells of the elements within its bounds, and no others.
pub proof fn law_matrix_covers<E>(m: MatView<E>, p: int)
    ensures
        m.covers(p) <==> exists|i: int, j: int|
            0 <= i < m.nrows && 0 <= j < m.ncols && #[trigger] m.addr(i, j) == p,
{
    if m.covers(p) {
        let (i, j) = choose|i: int, j: int| m.has(i, j) && #[trigger] m.addr(i, j) == p;
        assert(0 <= i < m.nrows && 0 <= j < m.ncols && m.addr(i, j) == p);
    }
    if exists|i: int, j: int| 0 <= i < m.nrows && 0 <= j < m.ncols && #[trigger] m.addr(i, j) == p {
        let (i, j) = choose|i: int, j: int|
            0 <= i < m.nrows && 0 <= j < m.ncols && #[trigger] m.addr(i, j) == p;
        assert(m.has(i, j) && m.addr(i, j) == p);
    }
}

/// A vector covers the cells of the elements within its bounds, and no others.
pub proof fn law_vector_covers<E>(v: VecView<E>, p: int)
    ensures
        v.covers(p) <==> exists|k: int| 0 <= k < v.len && #[trigger] v.addr(k) == p,
{
}

/// A transpose has as many rows as the matrix has columns, and as many columns as it has rows. Its
/// element `(j, i)` is element `(i, j)`, in the same cell.
pub proof fn law_transpose_elements<E>(m: MatView<E>, i: int, j: int)
    ensures
        m.transposed().nrows == m.ncols,
        m.transposed().ncols == m.nrows,
        m.transposed().addr(j, i) == m.addr(i, j),
        m.transposed().at(j, i) == m.at(i, j),
{
    lemma_mat_transposed(m);
}

/// A part of a matrix has the dimensions that were asked for, and its first element is the one that
/// was asked for. Each of its elements is an element of the matrix, in the same cell.
pub proof fn law_submatrix_elements<E>(
    m: MatView<E>,
    i: int,
    j: int,
    nrows: nat,
    ncols: nat,
    k: int,
    l: int,
)
    ensures
        m.sub(i, j, nrows, ncols).nrows == nrows,
        m.sub(i, j, nrows, ncols).ncols == ncols,
        m.sub(i, j, nrows, ncols).ptr.mem == m.ptr.mem,
        m.sub(i, j, nrows, ncols).addr(k, l) == m.addr(i + k, j + l),
        m.sub(i, j, nrows, ncols).at(k, l) == m.at(i + k, j + l),
{
    lemma_mat_sub(m, i, j, nrows, ncols);
}

/// A part of a vector has the length that was asked for, and its first element is the one that was
/// asked for. Each of its elements is an element of the vector, in the same cell.
pub proof fn law_subvector_elements<E>(v: VecView<E>, k: int, len: nat, l: int)
    ensures
        v.sub(k, len).len == len,
        v.sub(k, len).ptr.mem == v.ptr.mem,
        v.sub(k, len).addr(l) == v.addr(k + l),
        v.sub(k, len).at(l) == v.at(k + l),
{
    lemma_vec_sub(v, k, len);
}

/// A row has an element for each column, and a column has an element for each row, in the same
/// cells.
pub proof fn law_row_and_col_elements<E>(m: MatView<E>, i: int, j: int)
    ensures
        m.row(i).len == m.ncols,
        m.row(i).addr(j) == m.addr(i, j),
        m.row(i).at(j) == m.at(i, j),
        m.col(j).len == m.nrows,
        m.col(j).addr(i) == m.addr(i, j),
        m.col(j).at(i) == m.at(i, j),
{
    lemma_mat_row(m, i);
    lemma_mat_col(m, j);
}

/// A vector that is viewed as a matrix has one row or one column, in which its elements are.
pub proof fn law_vector_as_matrix_elements<E>(v: VecView<E>, k: int)
    ensures
        v.as_row().nrows == 1,
        v.as_row().ncols == v.len,
        v.as_row().row_stride == 0,
        v.as_row().col_stride == v.stride,
        v.as_row().addr(0, k) == v.addr(k),
        v.as_row().at(0, k) == v.at(k),
        v.as_col().nrows == v.len,
        v.as_col().ncols == 1,
        v.as_col().row_stride == v.stride,
        v.as_col().col_stride == 0,
        v.as_col().addr(k, 0) == v.addr(k),
        v.as_col().at(k, 0) == v.at(k),
{
    lemma_vec_as_matrix(v);
}

/// Reversing the rows or the columns keeps the dimensions. The first row becomes the last one, and
/// in general the row that has `i` rows in front of it becomes the one that has `i` rows behind it.
/// The same holds of columns.
pub proof fn law_invert_elements<E>(m: MatView<E>, i: int, j: int)
    requires
        m.nrows > 0,
        m.ncols > 0,
    ensures
        m.rows_reversed().nrows == m.nrows,
        m.rows_reversed().ncols == m.ncols,
        m.rows_reversed().at(m.nrows - 1 - i, j) == m.at(i, j),
        m.rows_reversed().addr(m.nrows - 1 - i, j) == m.addr(i, j),
        m.cols_reversed().nrows == m.nrows,
        m.cols_reversed().ncols == m.ncols,
        m.cols_reversed().at(i, m.ncols - 1 - j) == m.at(i, j),
        m.cols_reversed().addr(i, m.ncols - 1 - j) == m.addr(i, j),
        m.reversed().nrows == m.nrows,
        m.reversed().ncols == m.ncols,
        m.reversed().at(m.nrows - 1 - i, m.ncols - 1 - j) == m.at(i, j),
        m.reversed().addr(m.nrows - 1 - i, m.ncols - 1 - j) == m.addr(i, j),
{
    lemma_mat_rows_reversed(m);
    lemma_mat_cols_reversed(m);
    lemma_mat_reversed(m);
}

/// Reversal keeps the dimensions of a matrix, also of one that has no elements, and where there are
/// no rows or no columns, it keeps the place that the matrix begins at.
pub proof fn law_invert_dimensions<E>(m: MatView<E>)
    requires
        m.machine_numbers(),
    ensures
        m.nrows == 0 ==> m.rows_reversed().ptr == m.ptr,
        m.ncols == 0 ==> m.cols_reversed().ptr == m.ptr,
        m.nrows == 0 ==> m.reversed().ptr == m.cols_reversed().ptr,
        m.ncols == 0 ==> m.reversed().ptr == m.rows_reversed().ptr,
        m.row_stride > isize::MIN ==> m.rows_reversed().row_stride == -m.row_stride,
        m.rows_reversed().col_stride == m.col_stride,
        m.col_stride > isize::MIN ==> m.cols_reversed().col_stride == -m.col_stride,
        m.cols_reversed().row_stride == m.row_stride,
        m.reversed().row_stride == m.rows_reversed().row_stride,
        m.reversed().col_stride == m.cols_reversed().col_stride,
        m.rows_reversed().nrows == m.nrows,
        m.rows_reversed().ncols == m.ncols,
        m.cols_reversed().nrows == m.nrows,
        m.cols_reversed().ncols == m.ncols,
        m.reversed().nrows == m.nrows,
        m.reversed().ncols == m.ncols,
{
    lemma_ptr_offset(m.ptr, 0, 0);
    lemma_wrap_stable(-m.row_stride);
    lemma_wrap_stable(-m.col_stride);
}

/// The diagonal of a square matrix has an element for each row: element `i` is the element in row
/// `i` and column `i`, in the same cell. It covers the cells of these elements, and no others.
pub proof fn law_diagonal_elements<E>(m: MatView<E>, p: int)
    requires
        m.nrows == m.ncols,
    ensures
        m.diagonal().len == m.nrows,
        m.diagonal().len == m.ncols,
        forall|i: int| #[trigger] m.diagonal().addr(i) == m.addr(i, i),
        forall|i: int| #[trigger] m.diagonal().at(i) == m.at(i, i),
        m.diagonal().covers(p) <==> exists|i: int| 0 <= i < m.nrows && #[trigger] m.addr(i, i) == p,
{
    let d = m.diagonal();
    lemma_mat_diagonal(m);
    if d.covers(p) {
        let i = choose|i: int| 0 <= i < d.len && #[trigger] d.addr(i) == p;
        assert(0 <= i < m.nrows && m.addr(i, i) == p);
    }
    if exists|i: int| 0 <= i < m.nrows && #[trigger] m.addr(i, i) == p {
        let i = choose|i: int| 0 <= i < m.nrows && #[trigger] m.addr(i, i) == p;
        assert(d.addr(i) == p);
    }
}

/// `diagonal` returns as many elements as the square matrix has rows, and element `i` is the one in
/// row `i` and column `i`.
pub proof fn law_diagonal<'a, T>(m: MatRef<'a, T>, d: ColRef<'a, T>)
    requires
        m@.nrows == m@.ncols,
        call_ensures(MatRef::<'a, T>::diagonal, (m,), d) || call_ensures(
            MatRef::<'a, T>::diagonal_unchecked,
            (m,),
            d,
        ),
    ensures
        d@.len == m@.nrows,
        forall|i: int| 0 <= i < m@.nrows ==> #[trigger] d@.at(i) == m@.at(i, i),
{
}

/// `diagonal` returns as many elements as the square matrix has rows, and element `i` is the one in
/// row `i` and column `i`.
pub proof fn law_diagonal_mut<'a, T>(m: MatMut<'a, T>, d: ColMut<'a, T>)
    requires
        m@.nrows == m@.ncols,
        call_ensures(MatMut::<'a, T>::diagonal, (m,), d) || call_ensures(
            MatMut::<'a, T>::diagonal_unchecked,
            (m,),
            d,
        ),
    ensures
        d@.len == m@.nrows,
        forall|i: int| 0 <= i < m@.nrows ==> #[trigger] d@.at(i) == m@.at(i, i),
{
}

/// The diagonal of a square matrix that has one row and one column more is the diagonal of the
/// matrix without them, followed by the element in the last row and column.
pub proof fn law_diagonal_grows<E>(m: MatView<E>, k: int)
    requires
        m.machine_numbers(),
        m.nrows == m.ncols,
        m.nrows > 0,
        0 <= k < m.nrows - 1,
    ensures
        ({
            let n = (m.nrows - 1) as nat;
            let inner = m.sub(0, 0, n, n);
            &&& m.diagonal().len == inner.diagonal().len + 1
            &&& m.diagonal().at(k) == inner.diagonal().at(k)
            &&& m.diagonal().at(n as int) == m.at(n as int, n as int)
        }),
{
    let n = (m.nrows - 1) as nat;
    lemma_mat_diagonal(m);
    lemma_mat_diagonal(m.sub(0, 0, n, n));
    lemma_mat_sub(m, 0, 0, n, n);
    assert(m.sub(0, 0, n, n).at(k, k) == m.at(0 + k, 0 + k));
}

/// Hiding the other cells of the memory keeps the dimensions and the places of the elements, and
/// what the elements hold. All other cells are hidden.
pub proof fn law_alone<E>(m: MatView<E>, i: int, j: int, p: int)
    ensures
        m.alone().nrows == m.nrows,
        m.alone().ncols == m.ncols,
        m.alone().addr(i, j) == m.addr(i, j),
        0 <= i < m.nrows && 0 <= j < m.ncols ==> m.alone().at(i, j) == m.at(i, j),
        m.alone().ptr.mem.len() == m.ptr.mem.len(),
        0 <= p < m.ptr.mem.len() && !m.covers(p) ==> m.alone().ptr.mem[p] is None,
        0 <= p < m.ptr.mem.len() && m.covers(p) ==> m.alone().ptr.mem[p] == m.ptr.mem[p],
{
    lemma_mat_alone(m);
}

/// Hiding the other cells of the memory keeps the length and the places of the elements, and what
/// the elements hold. All other cells are hidden.
pub proof fn law_alone_vector<E>(v: VecView<E>, k: int, p: int)
    ensures
        v.alone().len == v.len,
        v.alone().addr(k) == v.addr(k),
        0 <= k < v.len ==> v.alone().at(k) == v.at(k),
        v.alone().ptr.mem.len() == v.ptr.mem.len(),
        0 <= p < v.ptr.mem.len() && !v.covers(p) ==> v.alone().ptr.mem[p] is None,
        0 <= p < v.ptr.mem.len() && v.covers(p) ==> v.alone().ptr.mem[p] == v.ptr.mem[p],
{
    lemma_vec_alone(v);
}

/// Hiding cells of the memory keeps the dimensions and the places of the elements. The elements in
/// the cells that are hidden can no longer be read, and the others hold what they held.
pub proof fn law_without<E>(m: MatView<E>, gone: spec_fn(int) -> bool, i: int, j: int)
    ensures
        m.without(gone).nrows == m.nrows,
        m.without(gone).ncols == m.ncols,
        m.without(gone).addr(i, j) == m.addr(i, j),
        gone(m.addr(i, j)) ==> m.without(gone).at(i, j) is None,
        !gone(m.addr(i, j)) ==> m.without(gone).at(i, j) == m.at(i, j),
        m.without(gone).ptr.mem.len() == m.ptr.mem.len(),
{
}

/// Hiding cells of the memory keeps the length and the places of the elements. The elements in the
/// cells that are hidden can no longer be read, and the others hold what they held.
pub proof fn law_without_vector<E>(v: VecView<E>, gone: spec_fn(int) -> bool, k: int)
    ensures
        v.without(gone).len == v.len,
        v.without(gone).addr(k) == v.addr(k),
        gone(v.addr(k)) ==> v.without(gone).at(k) is None,
        !gone(v.addr(k)) ==> v.without(gone).at(k) == v.at(k),
        v.without(gone).ptr.mem.len() == v.ptr.mem.len(),
{
}

/// A matrix is readable where each element within its bounds is, and only there.
pub proof fn law_readable<E>(m: MatView<E>, v: VecView<E>)
    ensures
        m.readable() <==> forall|i: int, j: int|
            0 <= i < m.nrows && 0 <= j < m.ncols ==> (#[trigger] m.at(i, j)) is Some,
        v.readable() <==> forall|k: int| 0 <= k < v.len ==> (#[trigger] v.at(k)) is Some,
{
    if forall|i: int, j: int|
        0 <= i < m.nrows && 0 <= j < m.ncols ==> (#[trigger] m.at(i, j)) is Some {
        assert forall|i: int, j: int| m.has(i, j) implies (#[trigger] m.at(i, j)) is Some by {
            assert(0 <= i < m.nrows && 0 <= j < m.ncols);
        }
    }
    if m.readable() {
        assert forall|i: int, j: int| 0 <= i < m.nrows && 0 <= j < m.ncols implies (
        #[trigger] m.at(i, j)) is Some by {
            assert(m.has(i, j));
        }
    }
}

/// Elements within the bounds of a matrix that lie in the same cell are the same element, where the
/// matrix has no aliases.
pub proof fn law_no_alias<E>(m: MatView<E>, v: VecView<E>, i: int, j: int, k: int, l: int)
    requires
        0 <= i < m.nrows,
        0 <= k < m.nrows,
        0 <= j < m.ncols,
        0 <= l < m.ncols,
    ensures
        m.no_alias() && m.addr(i, j) == m.addr(k, l) ==> i == k && j == l,
        v.no_alias() && i < v.len && k < v.len && v.addr(i) == v.addr(k) ==> i == k,
        m.nrows <= 1 && m.ncols <= 1 ==> m.no_alias(),
        v.len <= 1 ==> v.no_alias(),
{
    assert(m.has(i, j) && m.has(k, l));
}

/// A shared view of a mutable view has the same dimensions and the same places, and the values that
/// the cells hold now.
pub proof fn law_shared_dimensions<'a, T>(
    m: MatView<&'a mut T>,
    v: VecView<&'a mut T>,
    p: PtrView<&'a mut T>,
    i: int,
    j: int,
)
    ensures
        p.now().pos == p.pos,
        p.now().mem.len() == p.mem.len(),
        p.now().at(i) is Some <==> p.at(i) is Some,
        p.at(i) matches Some(x) ==> p.now().at(i) == Some(*x),
        m.now().nrows == m.nrows,
        m.now().ncols == m.ncols,
        m.now().addr(i, j) == m.addr(i, j),
        m.now().at(i, j) is Some <==> m.at(i, j) is Some,
        m.at(i, j) matches Some(x) ==> m.now().at(i, j) == Some(*x),
        v.now().len == v.len,
        v.now().addr(i) == v.addr(i),
        v.now().at(i) is Some <==> v.at(i) is Some,
        v.at(i) matches Some(x) ==> v.now().at(i) == Some(*x),
{
}

/// The parts of a matrix have its dimensions, and the strides over the cells of the parts are twice
/// as large, as long as they are machine numbers.
pub proof fn law_parts_dimensions<E, F>(m: MatView<E>, mem: Seq<Option<F>>, part: int)
    ensures
        mat_part(m, mem, part).nrows == m.nrows,
        mat_part(m, mem, part).ncols == m.ncols,
        mat_part(m, mem, part).ptr.mem == mem,
        0 <= 2 * m.ptr.pos + part <= usize::MAX ==> mat_part(m, mem, part).ptr.pos == 2 * m.ptr.pos
            + part,
        isize::MIN <= 2 * m.row_stride <= isize::MAX ==> mat_part(m, mem, part).row_stride == 2
            * m.row_stride,
        isize::MIN <= 2 * m.col_stride <= isize::MAX ==> mat_part(m, mem, part).col_stride == 2
            * m.col_stride,
{
    lemma_wrap_stable(2 * m.ptr.pos + part);
    lemma_wrap_stable(2 * m.row_stride);
    lemma_wrap_stable(2 * m.col_stride);
}

/// The parts of a vector have its length, and the stride over the cells of the parts is twice as
/// large, as long as it is a machine number.
pub proof fn law_parts_length<E, F>(v: VecView<E>, mem: Seq<Option<F>>, part: int)
    ensures
        vec_part(v, mem, part).len == v.len,
        vec_part(v, mem, part).ptr.mem == mem,
        0 <= 2 * v.ptr.pos + part <= usize::MAX ==> vec_part(v, mem, part).ptr.pos == 2 * v.ptr.pos
            + part,
        isize::MIN <= 2 * v.stride <= isize::MAX ==> vec_part(v, mem, part).stride == 2 * v.stride,
{
    lemma_wrap_stable(2 * v.ptr.pos + part);
    lemma_wrap_stable(2 * v.stride);
}

/// Each complex cell becomes two: the first holds the real part and the second the imaginary part,
/// or neither holds anything.
pub proof fn law_parts_in_memory<T>(mem: Seq<Option<Complex<T>>>, k: int)
    requires
        0 <= k < mem.len(),
    ensures
        interleaved(mem).len() == 2 * mem.len(),
        mem[k] matches Some(z) ==> interleaved(mem)[2 * k] == Some(z.re),
        mem[k] matches Some(z) ==> interleaved(mem)[2 * k + 1] == Some(z.im),
        mem[k] is None ==> interleaved(mem)[2 * k] is None && interleaved(mem)[2 * k + 1] is None,
{
    assert((2 * k) / 2 == k && (2 * k + 1) / 2 == k && (2 * k) % 2 == 0 && (2 * k + 1) % 2 == 1);
}

/// Splitting a matrix view into its parts gives two views with its own dimensions, one of
/// the real parts and one of the imaginary parts, element by element.
pub proof fn law_real_imag<'a, T>(m: MatRef<'a, Complex<T>>, r: (MatRef<'a, T>, MatRef<'a, T>))
    requires
        call_ensures(MatRef::<'a, Complex<T>>::into_real_imag, (m,), r),
    ensures
        ({
            &&& r.0@.nrows == m@.nrows && r.1@.nrows == m@.nrows
            &&& r.0@.ncols == m@.ncols && r.1@.ncols == m@.ncols
            &&& forall|i: int, j: int|
                0 <= i < m@.nrows && 0 <= j < m@.ncols && m@.at(i, j) is Some ==> r.0@.at(i, j) == Some((#[trigger] m@.at(i, j))->0.re) && r.1@.at(i, j)
                    == Some(m@.at(i, j)->0.im)
        }),
{
}

/// Splitting a mutable matrix view into its parts gives two views with its own dimensions, one of
/// the real parts and one of the imaginary parts, element by element. What the views leave
/// in the parts is what the element then holds.
pub proof fn law_real_imag_mut<'a, T>(m: MatMut<'a, Complex<T>>, r: (MatMut<'a, T>, MatMut<'a, T>))
    requires
        call_ensures(MatMut::<'a, Complex<T>>::into_real_imag, (m,), r),
    ensures
        ({
            &&& r.0@.nrows == m@.nrows && r.1@.nrows == m@.nrows
            &&& r.0@.ncols == m@.ncols && r.1@.ncols == m@.ncols
            &&& forall|i: int, j: int|
                0 <= i < m@.nrows && 0 <= j < m@.ncols && m@.at(i, j) is Some ==> *r.0@.at(i, j)->0 == (#[trigger] m@.at(i, j))->0.re
                    && *r.1@.at(i, j)->0 == m@.at(i, j)->0.im
            &&& forall|i: int, j: int|
                0 <= i < m@.nrows && 0 <= j < m@.ncols && (#[trigger] m@.at(i, j)) is Some ==> r.0@.at(i, j) is Some
                    && r.1@.at(i, j) is Some
            &&& forall|i: int, j: int|
                0 <= i < m@.nrows && 0 <= j < m@.ncols && (#[trigger] m@.at(i, j)) is Some ==> final(m@.at(i, j)->0).re
                    == *final(r.0@.at(i, j)->0) && final(m@.at(i, j)->0).im == *final(r.1@.at(i, j)->0)
        }),
{
}

/// Splitting a row vector view into its parts gives two views with its own dimensions, one of
/// the real parts and one of the imaginary parts, element by element.
pub proof fn law_real_imag_row<'a, T>(m: RowRef<'a, Complex<T>>, r: (RowRef<'a, T>, RowRef<'a, T>))
    requires
        call_ensures(RowRef::<'a, Complex<T>>::into_real_imag, (m,), r),
    ensures
        ({
            &&& r.0@.len == m@.len && r.1@.len == m@.len
            &&& forall|k: int|
                0 <= k < m@.len && m@.at(k) is Some ==> r.0@.at(k) == Some((#[trigger] m@.at(k))->0.re) && r.1@.at(k)
                    == Some(m@.at(k)->0.im)
        }),
{
}

/// Splitting a mutable row vector view into its parts gives two views with its own dimensions, one of
/// the real parts and one of the imaginary parts, element by element. What the views leave
/// in the parts is what the element then holds.
pub proof fn law_real_imag_row_mut<'a, T>(m: RowMut<'a, Complex<T>>, r: (RowMut<'a, T>, RowMut<'a, T>))
    requires
        call_ensures(RowMut::<'a, Complex<T>>::into_real_imag, (m,), r),
    ensures
        ({
            &&& r.0@.len == m@.len && r.1@.len == m@.len
            &&& forall|k: int|
                0 <= k < m@.len && m@.at(k) is Some ==> *r.0@.at(k)->0 == (#[trigger] m@.at(k))->0.re
                    && *r.1@.at(k)->0 == m@.at(k)->0.im
            &&& forall|k: int|
                0 <= k < m@.len && (#[trigger] m@.at(k)) is Some ==> r.0@.at(k) is Some
                    && r.1@.at(k) is Some
            &&& forall|k: int|
                0 <= k < m@.len && (#[trigger] m@.at(k)) is Some ==> final(m@.at(k)->0).re
                    == *final(r.0@.at(k)->0) && final(m@.at(k)->0).im == *final(r.1@.at(k)->0)
        }),
{
}

/// Splitting a column vector view into its parts gives two views with its own dimensions, one of
/// the real parts and one of the imaginary parts, element by element.
pub proof fn law_real_imag_col<'a, T>(m: ColRef<'a, Complex<T>>, r: (ColRef<'a, T>, ColRef<'a, T>))
    requires
        call_ensures(ColRef::<'a, Complex<T>>::into_real_imag, (m,), r),
    ensures
        ({
            &&& r.0@.len == m@.len && r.1@.len == m@.len
            &&& forall|k: int|
                0 <= k < m@.len && m@.at(k) is Some ==> r.0@.at(k) == Some((#[trigger] m@.at(k))->0.re) && r.1@.at(k)
                    == Some(m@.at(k)->0.im)
        }),
{
}

/// Splitting a mutable column vector view into its parts gives two views with its own dimensions, one of
/// the real parts and one of the imaginary parts, element by element. What the views leave
/// in the parts is what the element then holds.
pub proof fn law_real_imag_col_mut<'a, T>(m: ColMut<'a, Complex<T>>, r: (ColMut<'a, T>, ColMut<'a, T>))
    requires
        call_ensures(ColMut::<'a, Complex<T>>::into_real_imag, (m,), r),
    ensures
        ({
            &&& r.0@.len == m@.len && r.1@.len == m@.len
            &&& forall|k: int|
                0 <= k < m@.len && m@.at(k) is Some ==> *r.0@.at(k)->0 == (#[trigger] m@.at(k))->0.re
                    && *r.1@.at(k)->0 == m@.at(k)->0.im
            &&& forall|k: int|
                0 <= k < m@.len && (#[trigger] m@.at(k)) is Some ==> r.0@.at(k) is Some
                    && r.1@.at(k) is Some
            &&& forall|k: int|
                0 <= k < m@.len && (#[trigger] m@.at(k)) is Some ==> final(m@.at(k)->0).re
                    == *final(r.0@.at(k)->0) && final(m@.at(k)->0).im == *final(r.1@.at(k)->0)
        }),
{
}

/// A matrix that owns its elements has the same dimensions as the view over it. It is stored column
/// by column: each column begins as many cells behind the one in front of it as there is room for
/// rows, and its elements follow one another. No more rows or columns are there than there is room
/// for.
pub proof fn law_owned_view<T>(m: OwnedView<T>, i: int, j: int)
    requires
        m.valid(),
    ensures
        m.as_mat().nrows == m.nrows,
        m.as_mat().ncols == m.ncols,
        m.as_mat().row_stride == 1,
        m.row_capacity <= isize::MAX ==> m.as_mat().col_stride == m.row_capacity,
        m.nrows <= m.row_capacity,
        m.ncols <= m.col_capacity,
        0 <= i < m.nrows && 0 <= j < m.ncols ==> {
            &&& m.as_mat().addr(i, j) == j * m.row_capacity + i
            &&& 0 <= j * m.row_capacity + i < m.cells.len()
            &&& m.at(i, j) is Some
            &&& m.at(i, j) == m.cells[j * m.row_capacity + i]
            &&& m.as_mat().at(i, j) == m.at(i, j)
        },
{
    law_column_major(m);
    lemma_wrap_stable(m.row_capacity as int);
    if 0 <= i < m.nrows && 0 <= j < m.ncols {
        assert(m.has(i, j));
        assert(m.at(i, j) is Some);
    }
}

/// Capacities whose bytes can be counted are ones that a matrix may have.
pub proof fn law_capacity_fits<T>(
    row_capacity: usize,
    col_capacity: usize,
    bytes: usize,
    nrows: nat,
    ncols: nat,
)
    requires
        vstd::layout::size_of::<T>() != 0,
        call_ensures(checked_capacity::<T>, (row_capacity, col_capacity), Some(bytes)),
    ensures
        fits::<T>(row_capacity as nat, col_capacity as nat, nrows, ncols),
{
}

/// Resizing gives the matrix exactly the dimensions that were asked for. It makes room for them and
/// for no more than that, unless there was more room before. The elements that are within the bounds
/// before and after stay, and there is an element at each position within the bounds.
pub proof fn law_resize<T>(a: OwnedView<T>, b: OwnedView<T>, nrows: nat, ncols: nat, i: int, j: int)
    requires
        b.resized_from(a, nrows, ncols),
    ensures
        b.nrows == nrows,
        b.ncols == ncols,
        0 <= i < nrows && 0 <= j < ncols ==> b.at(i, j) is Some,
        0 <= i < nrows && 0 <= j < ncols && i < a.nrows && j < a.ncols ==> b.at(i, j) == a.at(i, j),
        nrows <= a.row_capacity ==> b.row_capacity == a.row_capacity,
        nrows > a.row_capacity ==> b.row_capacity == nrows,
        ncols <= a.col_capacity ==> b.col_capacity == a.col_capacity,
        ncols > a.col_capacity ==> b.col_capacity == ncols,
{
    if 0 <= i < nrows && 0 <= j < ncols {
        assert(b.has(i, j));
        assert(b.at(i, j) is Some);
        if i < a.nrows && j < a.ncols {
            assert(a.has(i, j));
        }
    }
}

/// Reserving capacity keeps the dimensions and the elements. It makes room for what was asked for
/// and for no more than that, unless there was more room before.
pub proof fn law_reserve<T>(a: OwnedView<T>, b: OwnedView<T>, rows: nat, cols: nat, i: int, j: int)
    requires
        b.reserved_from(a, rows, cols),
    ensures
        b.nrows == a.nrows,
        b.ncols == a.ncols,
        0 <= i < a.nrows && 0 <= j < a.ncols ==> b.at(i, j) == a.at(i, j),
        rows <= a.row_capacity ==> b.row_capacity == a.row_capacity,
        rows > a.row_capacity ==> b.row_capacity == rows,
        cols <= a.col_capacity ==> b.col_capacity == a.col_capacity,
        cols > a.col_capacity ==> b.col_capacity == cols,
{
    if 0 <= i < a.nrows && 0 <= j < a.ncols {
        assert(a.has(i, j));
    }
}

}
