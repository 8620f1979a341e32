//! Iterators over the rows, the columns and the elements of a view, from both ends.

use crate::col_mut::ColMut;
use crate::col_ref::ColRef;
use crate::mat_mut::MatMut;
use crate::mat_ref::MatRef;
use crate::model::{
    lemma_mat_col, lemma_mat_col_cell, lemma_mat_row, lemma_mat_row_cell, lemma_mat_sub,
    lemma_vec_alone, lemma_vec_one, lemma_vec_sub, MatView, VecView,
};
use crate::row_mut::RowMut;
use crate::row_ref::RowRef;
use vstd::prelude::*;

verus! {

/// Iterator over the rows of a matrix.
pub struct RowIter<'a, T>(MatRef<'a, T>);

impl<'a, T> View for RowIter<'a, T> {
    type V = MatView<T>;

    closed spec fn view(&self) -> MatView<T> {
        self.0@
    }
}

impl<'a, T> Clone for RowIter<'a, T> {
    fn clone(&self) -> (r: Self)
        ensures
            r@ == self@,
    {
        RowIter(self.0.clone())
    }
}

impl<'a, T> RowIter<'a, T> {
    /// Returns an iterator over the rows of `matrix`.
    pub fn new(matrix: MatRef<'a, T>) -> (r: Self)
        ensures
            r@ == matrix@,
    {
        RowIter(matrix)
    }

    /// Returns the rows that are left.
    pub fn into_matrix(self) -> (r: MatRef<'a, T>)
        ensures
            r@ == self@,
    {
        self.0
    }

    /// Returns the first row that is left, and leaves the others.
    pub fn next(&mut self) -> (r: Option<RowRef<'a, T>>)
        ensures
            match r {
                Some(row) => {
                    &&& old(self)@.nrows > 0
                    &&& row@.len == old(self)@.ncols
                    &&& final(self)@.nrows == old(self)@.nrows - 1
                    &&& final(self)@.ncols == old(self)@.ncols
                    &&& row@ == old(self)@.row(0)
                    &&& final(self)@ == old(self)@.sub(
                        1,
                        0,
                        (old(self)@.nrows - 1) as nat,
                        old(self)@.ncols,
                    )
                    &&& forall|k: int| #[trigger] row@.at(k) == old(self)@.at(0, k)
                    &&& forall|i: int, j: int| #[trigger]
                        final(self)@.at(i, j) == old(self)@.at(1 + i, j)
                },
                None => old(self)@.nrows == 0 && final(self)@ == old(self)@,
            },
    {
        let nrows = self.0.nrows();
        if nrows == 0 {
            None
        } else {
            let ncols = self.0.ncols();
            let top = self.0.clone().row(0);
            let others = self.0.clone().submatrix(1, 0, nrows - 1, ncols);
            self.0 = others;
            Some(top)
        }
    }

    /// Returns the last row that is left, and leaves the others.
    pub fn next_back(&mut self) -> (r: Option<RowRef<'a, T>>)
        ensures
            match r {
                Some(row) => {
                    &&& old(self)@.nrows > 0
                    &&& row@.len == old(self)@.ncols
                    &&& final(self)@.nrows == old(self)@.nrows - 1
                    &&& final(self)@.ncols == old(self)@.ncols
                    &&& row@ == old(self)@.row(old(self)@.nrows - 1)
                    &&& final(self)@ == old(self)@.sub(
                        0,
                        0,
                        (old(self)@.nrows - 1) as nat,
                        old(self)@.ncols,
                    )
                    &&& forall|k: int| #[trigger] row@.at(k) == old(self)@.at(old(self)@.nrows - 1, k)
                    &&& forall|i: int, j: int| #[trigger]
                        final(self)@.at(i, j) == old(self)@.at(i, j)
                },
                None => old(self)@.nrows == 0 && final(self)@ == old(self)@,
            },
    {
        let nrows = self.0.nrows();
        if nrows == 0 {
            None
        } else {
            let ncols = self.0.ncols();
            let others = self.0.clone().submatrix(0, 0, nrows - 1, ncols);
            let bot = self.0.clone().row(nrows - 1);
            self.0 = others;
            Some(bot)
        }
    }

    /// Returns bounds on the number of rows that are left, which are exact.
    pub fn size_hint(&self) -> (r: (usize, Option<usize>))
        ensures
            r.0 == self@.nrows,
            r.1 == Some(r.0),
    {
        let len = self.0.nrows();
        (len, Some(len))
    }

    /// Returns the same iterator, for as long as `self` is borrowed.
    pub fn rb<'b>(&'b self) -> (r: RowIter<'b, T>)
        ensures
            r@ == self@,
    {
        RowIter(self.0.rb())
    }

    /// Returns the same iterator, for as long as `self` is borrowed.
    pub fn rb_mut<'b>(&'b mut self) -> (r: RowIter<'b, T>)
        ensures
            r@ == old(self)@,
            *final(self) == *old(self),
    {
        RowIter(self.0.clone())
    }
}

/// Iterator over the rows of a mutable matrix.
pub struct RowIterMut<'a, T>(MatMut<'a, T>);

impl<'a, T> View for RowIterMut<'a, T> {
    type V = MatView<&'a mut T>;

    closed spec fn view(&self) -> MatView<&'a mut T> {
        self.0@
    }
}

impl<'a, T> RowIterMut<'a, T> {
    /// Once an iterator is no longer used, the cells of its memory keep their values.
    pub proof fn law_resolved(self)
        ensures
            has_resolved(self) ==> forall|p: int|
                0 <= p < self@.ptr.mem.len() && (#[trigger] self@.ptr.mem[p]) is Some ==> *final(
                    self@.ptr.mem[p]->0) == *self@.ptr.mem[p]->0,
    {
        self.0.law_resolved();
    }

    /// Returns an iterator over the rows of `matrix`.
    pub fn new(matrix: MatMut<'a, T>) -> (r: Self)
        ensures
            r@ == matrix@,
    {
        RowIterMut(matrix)
    }

    /// Returns the rows that are left.
    pub fn into_matrix(self) -> (r: MatMut<'a, T>)
        ensures
            r@ == self@,
    {
        self.0
    }

    /// Returns the first row that is left, and leaves the others.
    pub fn next(&mut self) -> (r: Option<RowMut<'a, T>>)
        ensures
            match r {
                Some(row) => {
                    &&& old(self)@.nrows > 0
                    &&& row@.len == old(self)@.ncols
                    &&& final(self)@.nrows == old(self)@.nrows - 1
                    &&& final(self)@.ncols == old(self)@.ncols
                    &&& row@ == old(self)@.row(0).alone()
                    &&& final(self)@ == old(self)@.without(
                        |p: int| old(self)@.row(0).covers(p),
                    ).sub(
                        1,
                        0,
                        (old(self)@.nrows - 1) as nat,
                        old(self)@.ncols,
                    )
                    &&& forall|k: int|
                        0 <= k < old(self)@.ncols ==> #[trigger] row@.at(k) == old(self)@.at(0, k)
                    &&& old(self)@.no_alias() ==> forall|i: int, j: int|
                        final(self)@.has(i, j) ==> #[trigger] final(self)@.at(i, j) == old(self)@.at(
                            1 + i, j,
                        )
                },
                None => old(self)@.nrows == 0 && final(self)@ == old(self)@,
            },
    {
        let nrows = self.0.nrows();
        if nrows == 0 {
            None
        } else {
            let ncols = self.0.ncols();
            proof {
                lemma_mat_row(self@, 0);
                lemma_vec_alone(self@.row(0));
            }
            let top = self.0.take_row(0);
            let ghost m = self@;
            self.0.narrow(1, 0, nrows - 1, ncols);
            proof {
                let v = old(self)@;
                lemma_mat_sub(m, 1, 0, (nrows - 1) as nat, ncols as nat);
                if v.no_alias() {
                    assert forall|i: int, j: int|
                        self@.has(i, j) implies #[trigger] self@.at(i, j) == v.at(1 + i, j) by {
                        lemma_mat_row_cell(v, 0, 1 + i, j);
                    }
                }
            }
            Some(top)
        }
    }

    /// Returns the last row that is left, and leaves the others.
    pub fn next_back(&mut self) -> (r: Option<RowMut<'a, T>>)
        ensures
            match r {
                Some(row) => {
                    &&& old(self)@.nrows > 0
                    &&& row@.len == old(self)@.ncols
                    &&& final(self)@.nrows == old(self)@.nrows - 1
                    &&& final(self)@.ncols == old(self)@.ncols
                    &&& row@ == old(self)@.row(old(self)@.nrows - 1).alone()
                    &&& final(self)@ == old(self)@.without(
                        |p: int| old(self)@.row(old(self)@.nrows - 1).covers(p),
                    ).sub(
                        0,
                        0,
                        (old(self)@.nrows - 1) as nat,
                        old(self)@.ncols,
                    )
                    &&& forall|k: int|
                        0 <= k < old(self)@.ncols ==> #[trigger] row@.at(k) == old(self)@.at(
                            old(self)@.nrows - 1, k,
                        )
                    &&& old(self)@.no_alias() ==> forall|i: int, j: int|
                        final(self)@.has(i, j) ==> #[trigger] final(self)@.at(i, j) == old(self)@.at(
                            i,
                            j,
                        )
                },
                None => old(self)@.nrows == 0 && final(self)@ == old(self)@,
            },
    {
        let nrows = self.0.nrows();
        if nrows == 0 {
            None
        } else {
            let ncols = self.0.ncols();
            proof {
                lemma_mat_row(self@, nrows - 1);
                lemma_vec_alone(self@.row(nrows - 1));
            }
            let bot = self.0.take_row(nrows - 1);
            let ghost m = self@;
            self.0.narrow(0, 0, nrows - 1, ncols);
            proof {
                let v = old(self)@;
                lemma_mat_sub(m, 0, 0, (nrows - 1) as nat, ncols as nat);
                if v.no_alias() {
                    assert forall|i: int, j: int|
                        self@.has(i, j) implies #[trigger] self@.at(i, j) == v.at(i, j) by {
                        lemma_mat_row_cell(v, nrows - 1, i, j);
                    }
                }
            }
            Some(bot)
        }
    }

    /// Returns bounds on the number of rows that are left, which are exact.
    pub fn size_hint(&self) -> (r: (usize, Option<usize>))
        ensures
            r.0 == self@.nrows,
            r.1 == Some(r.0),
    {
        let len = self.0.nrows();
        (len, Some(len))
    }

    /// Shares the iterator for as long as `self` is borrowed.
    pub fn rb<'b>(&'b self) -> (r: RowIter<'b, T>)
        ensures
            r@ == self@.now(),
    {
        RowIter::new(self.0.rb())
    }

    /// Lends the rows out for as long as `self` is borrowed. What the loan leaves in a cell is
    /// what the cell then holds.
    pub fn rb_mut<'b>(&'b mut self) -> (r: RowIterMut<'b, T>)
        ensures
            r@ == (MatView {
                ptr: r@.ptr,
                nrows: old(self)@.nrows,
                ncols: old(self)@.ncols,
                row_stride: old(self)@.row_stride,
                col_stride: old(self)@.col_stride,
            }),
            final(self)@ == (MatView { ptr: final(self)@.ptr, ..old(self)@ }),
            r@.ptr.pos == old(self)@.ptr.pos,
            final(self)@.ptr.pos == old(self)@.ptr.pos,
            r@.ptr.mem.len() == old(self)@.ptr.mem.len(),
            final(self)@.ptr.mem.len() == old(self)@.ptr.mem.len(),
            forall|p: int|
                #![trigger r@.ptr.mem[p]]
                #![trigger final(self)@.ptr.mem[p]]
                0 <= p < r@.ptr.mem.len() ==> match old(self)@.ptr.mem[p] {
                    Some(x) => {
                        &&& r@.ptr.mem[p] is Some
                        &&& *r@.ptr.mem[p]->0 == *x
                        &&& final(self)@.ptr.mem[p] is Some
                        &&& *final(self)@.ptr.mem[p]->0 == *final(r@.ptr.mem[p]->0)
                        &&& *final(final(self)@.ptr.mem[p]->0) == *final(x)
                    },
                    None => r@.ptr.mem[p] is None && final(self)@.ptr.mem[p] is None,
                },
    {
        RowIterMut(self.0.rb_mut())
    }
}

/// Iterator over the columns of a matrix.
pub struct ColIter<'a, T>(MatRef<'a, T>);

impl<'a, T> View for ColIter<'a, T> {
    type V = MatView<T>;

    closed spec fn view(&self) -> MatView<T> {
        self.0@
    }
}

impl<'a, T> Clone for ColIter<'a, T> {
    fn clone(&self) -> (r: Self)
        ensures
            r@ == self@,
    {
        ColIter(self.0.clone())
    }
}

impl<'a, T> ColIter<'a, T> {
    /// Returns an iterator over the columns of `matrix`.
    pub fn new(matrix: MatRef<'a, T>) -> (r: Self)
        ensures
            r@ == matrix@,
    {
        ColIter(matrix)
    }

    /// Returns the columns that are left.
    pub fn into_matrix(self) -> (r: MatRef<'a, T>)
        ensures
            r@ == self@,
    {
        self.0
    }

    /// Returns the first column that is left, and leaves the others.
    pub fn next(&mut self) -> (r: Option<ColRef<'a, T>>)
        ensures
            match r {
                Some(col) => {
                    &&& old(self)@.ncols > 0
                    &&& col@.len == old(self)@.nrows
                    &&& final(self)@.ncols == old(self)@.ncols - 1
                    &&& final(self)@.nrows == old(self)@.nrows
                    &&& col@ == old(self)@.col(0)
                    &&& final(self)@ == old(self)@.sub(
                        0,
                        1,
                        old(self)@.nrows,
                        (old(self)@.ncols - 1) as nat,
                    )
                    &&& forall|k: int| #[trigger] col@.at(k) == old(self)@.at(k, 0)
                    &&& forall|i: int, j: int| #[trigger]
                        final(self)@.at(i, j) == old(self)@.at(i, 1 + j)
                },
                None => old(self)@.ncols == 0 && final(self)@ == old(self)@,
            },
    {
        let ncols = self.0.ncols();
        if ncols == 0 {
            None
        } else {
            let nrows = self.0.nrows();
            let left = self.0.clone().col(0);
            let others = self.0.clone().submatrix(0, 1, nrows, ncols - 1);
            self.0 = others;
            Some(left)
        }
    }

    /// Returns the last column that is left, and leaves the others.
    pub fn next_back(&mut self) -> (r: Option<ColRef<'a, T>>)
        ensures
            match r {
                Some(col) => {
                    &&& old(self)@.ncols > 0
                    &&& col@.len == old(self)@.nrows
                    &&& final(self)@.ncols == old(self)@.ncols - 1
                    &&& final(self)@.nrows == old(self)@.nrows
                    &&& col@ == old(self)@.col(old(self)@.ncols - 1)
                    &&& final(self)@ == old(self)@.sub(
                        0,
                        0,
                        old(self)@.nrows,
                        (old(self)@.ncols - 1) as nat,
                    )
                    &&& forall|k: int| #[trigger] col@.at(k) == old(self)@.at(k, old(self)@.ncols - 1)
                    &&& forall|i: int, j: int| #[trigger]
                        final(self)@.at(i, j) == old(self)@.at(i, j)
                },
                None => old(self)@.ncols == 0 && final(self)@ == old(self)@,
            },
    {
        let ncols = self.0.ncols();
        if ncols == 0 {
            None
        } else {
            let nrows = self.0.nrows();
            let others = self.0.clone().submatrix(0, 0, nrows, ncols - 1);
            let right = self.0.clone().col(ncols - 1);
            self.0 = others;
            Some(right)
        }
    }

    /// Returns bounds on the number of columns that are left, which are exact.
    pub fn size_hint(&self) -> (r: (usize, Option<usize>))
        ensures
            r.0 == self@.ncols,
            r.1 == Some(r.0),
    {
        let len = self.0.ncols();
        (len, Some(len))
    }

    /// Returns the same iterator, for as long as `self` is borrowed.
    pub fn rb<'b>(&'b self) -> (r: ColIter<'b, T>)
        ensures
            r@ == self@,
    {
        ColIter(self.0.rb())
    }

    /// Returns the same iterator, for as long as `self` is borrowed.
    pub fn rb_mut<'b>(&'b mut self) -> (r: ColIter<'b, T>)
        ensures
            r@ == old(self)@,
            *final(self) == *old(self),
    {
        ColIter(self.0.clone())
    }
}

/// Iterator over the columns of a mutable matrix.
pub struct ColIterMut<'a, T>(MatMut<'a, T>);

impl<'a, T> View for ColIterMut<'a, T> {
    type V = MatView<&'a mut T>;

    closed spec fn view(&self) -> MatView<&'a mut T> {
        self.0@
    }
}

impl<'a, T> ColIterMut<'a, T> {
    /// Once an iterator is no longer used, the cells of its memory keep their values.
    pub proof fn law_resolved(self)
        ensures
            has_resolved(self) ==> forall|p: int|
                0 <= p < self@.ptr.mem.len() && (#[trigger] self@.ptr.mem[p]) is Some ==> *final(
                    self@.ptr.mem[p]->0) == *self@.ptr.mem[p]->0,
    {
        self.0.law_resolved();
    }

    /// Returns an iterator over the columns of `matrix`.
    pub fn new(matrix: MatMut<'a, T>) -> (r: Self)
        ensures
            r@ == matrix@,
    {
        ColIterMut(matrix)
    }

    /// Returns the columns that are left.
    pub fn into_matrix(self) -> (r: MatMut<'a, T>)
        ensures
            r@ == self@,
    {
        self.0
    }

    /// Returns the first column that is left, and leaves the others.
    pub fn next(&mut self) -> (r: Option<ColMut<'a, T>>)
        ensures
            match r {
                Some(col) => {
                    &&& old(self)@.ncols > 0
                    &&& col@.len == old(self)@.nrows
                    &&& final(self)@.ncols == old(self)@.ncols - 1
                    &&& final(self)@.nrows == old(self)@.nrows
                    &&& col@ == old(self)@.col(0).alone()
                    &&& final(self)@ == old(self)@.without(
                        |p: int| old(self)@.col(0).covers(p),
                    ).sub(
                        0,
                        1,
                        old(self)@.nrows,
                        (old(self)@.ncols - 1) as nat,
                    )
                    &&& forall|k: int|
                        0 <= k < old(self)@.nrows ==> #[trigger] col@.at(k) == old(self)@.at(k, 0)
                    &&& old(self)@.no_alias() ==> forall|i: int, j: int|
                        final(self)@.has(i, j) ==> #[trigger] final(self)@.at(i, j) == old(self)@.at(
                            i, 1 + j,
                        )
                },
                None => old(self)@.ncols == 0 && final(self)@ == old(self)@,
            },
    {
        let ncols = self.0.ncols();
        if ncols == 0 {
            None
        } else {
            let nrows = self.0.nrows();
            proof {
                lemma_mat_col(self@, 0);
                lemma_vec_alone(self@.col(0));
            }
            let left = self.0.take_col(0);
            let ghost m = self@;
            self.0.narrow(0, 1, nrows, ncols - 1);
            proof {
                let v = old(self)@;
                lemma_mat_sub(m, 0, 1, nrows as nat, (ncols - 1) as nat);
                if v.no_alias() {
                    assert forall|i: int, j: int|
                        self@.has(i, j) implies #[trigger] self@.at(i, j) == v.at(i, 1 + j) by {
                        lemma_mat_col_cell(v, 0, i, 1 + j);
                    }
                }
            }
            Some(left)
        }
    }

    /// Returns the last column that is left, and leaves the others.
    pub fn next_back(&mut self) -> (r: Option<ColMut<'a, T>>)
        ensures
            match r {
                Some(col) => {
                    &&& old(self)@.ncols > 0
                    &&& col@.len == old(self)@.nrows
                    &&& final(self)@.ncols == old(self)@.ncols - 1
                    &&& final(self)@.nrows == old(self)@.nrows
                    &&& col@ == old(self)@.col(old(self)@.ncols - 1).alone()
                    &&& final(self)@ == old(self)@.without(
                        |p: int| old(self)@.col(old(self)@.ncols - 1).covers(p),
                    ).sub(
                        0,
                        0,
                        old(self)@.nrows,
                        (old(self)@.ncols - 1) as nat,
                    )
                    &&& forall|k: int|
                        0 <= k < old(self)@.nrows ==> #[trigger] col@.at(k) == old(self)@.at(
                            k, old(self)@.ncols - 1,
                        )
                    &&& old(self)@.no_alias() ==> forall|i: int, j: int|
                        final(self)@.has(i, j) ==> #[trigger] final(self)@.at(i, j) == old(self)@.at(
                            i,
                            j,
                        )
                },
                None => old(self)@.ncols == 0 && final(self)@ == old(self)@,
            },
    {
        let ncols = self.0.ncols();
        if ncols == 0 {
            None
        } else {
            let nrows = self.0.nrows();
            proof {
                lemma_mat_col(self@, ncols - 1);
                lemma_vec_alone(self@.col(ncols - 1));
            }
            let right = self.0.take_col(ncols - 1);
            let ghost m = self@;
            self.0.narrow(0, 0, nrows, ncols - 1);
            proof {
                let v = old(self)@;
                lemma_mat_sub(m, 0, 0, nrows as nat, (ncols - 1) as nat);
                if v.no_alias() {
                    assert forall|i: int, j: int|
                        self@.has(i, j) implies #[trigger] self@.at(i, j) == v.at(i, j) by {
                        lemma_mat_col_cell(v, ncols - 1, i, j);
                    }
                }
            }
            Some(right)
        }
    }

    /// Returns bounds on the number of columns that are left, which are exact.
    pub fn size_hint(&self) -> (r: (usize, Option<usize>))
        ensures
            r.0 == self@.ncols,
            r.1 == Some(r.0),
    {
        let len = self.0.ncols();
        (len, Some(len))
    }

    /// Shares the iterator for as long as `self` is borrowed.
    pub fn rb<'b>(&'b self) -> (r: ColIter<'b, T>)
        ensures
            r@ == self@.now(),
    {
        ColIter::new(self.0.rb())
    }

    /// Lends the columns out for as long as `self` is borrowed. What the loan leaves in a cell is
    /// what the cell then holds.
    pub fn rb_mut<'b>(&'b mut self) -> (r: ColIterMut<'b, T>)
        ensures
            r@ == (MatView {
                ptr: r@.ptr,
                nrows: old(self)@.nrows,
                ncols: old(self)@.ncols,
                row_stride: old(self)@.row_stride,
                col_stride: old(self)@.col_stride,
            }),
            final(self)@ == (MatView { ptr: final(self)@.ptr, ..old(self)@ }),
            r@.ptr.pos == old(self)@.ptr.pos,
            final(self)@.ptr.pos == old(self)@.ptr.pos,
            r@.ptr.mem.len() == old(self)@.ptr.mem.len(),
            final(self)@.ptr.mem.len() == old(self)@.ptr.mem.len(),
            forall|p: int|
                #![trigger r@.ptr.mem[p]]
                #![trigger final(self)@.ptr.mem[p]]
                0 <= p < r@.ptr.mem.len() ==> match old(self)@.ptr.mem[p] {
                    Some(x) => {
                        &&& r@.ptr.mem[p] is Some
                        &&& *r@.ptr.mem[p]->0 == *x
                        &&& final(self)@.ptr.mem[p] is Some
                        &&& *final(self)@.ptr.mem[p]->0 == *final(r@.ptr.mem[p]->0)
                        &&& *final(final(self)@.ptr.mem[p]->0) == *final(x)
                    },
                    None => r@.ptr.mem[p] is None && final(self)@.ptr.mem[p] is None,
                },
    {
        ColIterMut(self.0.rb_mut())
    }
}

/// Iterator over the elements of a vector.
pub struct ElemIter<'a, T>(ColRef<'a, T>);

impl<'a, T> View for ElemIter<'a, T> {
    type V = VecView<T>;

    closed spec fn view(&self) -> VecView<T> {
        self.0@
    }
}

impl<'a, T> Clone for ElemIter<'a, T> {
    fn clone(&self) -> (r: Self)
        ensures
            r@ == self@,
    {
        ElemIter(self.0.clone())
    }
}

impl<'a, T> ElemIter<'a, T> {
    /// Returns an iterator over the elements of `col`.
    pub fn new(col: ColRef<'a, T>) -> (r: Self)
        ensures
            r@ == col@,
    {
        ElemIter(col)
    }

    /// Returns the elements that are left, as a column vector.
    pub fn into_col(self) -> (r: ColRef<'a, T>)
        ensures
            r@ == self@,
    {
        self.0
    }

    /// Returns the elements that are left, as a row vector.
    pub fn into_row(self) -> (r: RowRef<'a, T>)
        ensures
            r@ == self@,
    {
        self.0.transpose()
    }

    /// Returns the first element that is left, and leaves the others.
    pub fn next(&mut self) -> (r: Option<&'a T>)
        requires
            old(self)@.len > 0 ==> old(self)@.at(0) is Some,
        ensures
            match r {
                Some(x) => {
                    &&& old(self)@.len > 0
                    &&& final(self)@.len == old(self)@.len - 1
                    &&& Some(*x) == old(self)@.at(0)
                    &&& final(self)@ == old(self)@.sub(1, (old(self)@.len - 1) as nat)
                    &&& forall|k: int| #[trigger] final(self)@.at(k) == old(self)@.at(1 + k)
                },
                None => old(self)@.len == 0 && final(self)@ == old(self)@,
            },
    {
        let nrows = self.0.nrows();
        if nrows == 0 {
            None
        } else {
            let top = self.0.clone().get(0);
            let (_, bot) = self.0.clone().split_at(1);
            self.0 = bot;
            Some(top)
        }
    }

    /// Returns the last element that is left, and leaves the others.
    pub fn next_back(&mut self) -> (r: Option<&'a T>)
        requires
            old(self)@.len > 0 ==> old(self)@.at(old(self)@.len - 1) is Some,
        ensures
            match r {
                Some(x) => {
                    &&& old(self)@.len > 0
                    &&& final(self)@.len == old(self)@.len - 1
                    &&& Some(*x) == old(self)@.at(old(self)@.len - 1)
                    &&& final(self)@ == old(self)@.sub(0, (old(self)@.len - 1) as nat)
                    &&& forall|k: int| #[trigger] final(self)@.at(k) == old(self)@.at(k)
                },
                None => old(self)@.len == 0 && final(self)@ == old(self)@,
            },
    {
        let nrows = self.0.nrows();
        if nrows == 0 {
            None
        } else {
            let (top, _) = self.0.clone().split_at(nrows - 1);
            let bot = self.0.clone().get(nrows - 1);
            self.0 = top;
            Some(bot)
        }
    }

    /// Returns bounds on the number of elements that are left, which are exact.
    pub fn size_hint(&self) -> (r: (usize, Option<usize>))
        ensures
            r.0 == self@.len,
            r.1 == Some(r.0),
    {
        let len = self.0.nrows();
        (len, Some(len))
    }

    /// Returns the same iterator, for as long as `self` is borrowed.
    pub fn rb<'b>(&'b self) -> (r: ElemIter<'b, T>)
        ensures
            r@ == self@,
    {
        ElemIter(self.0.rb())
    }

    /// Returns the same iterator, for as long as `self` is borrowed.
    pub fn rb_mut<'b>(&'b mut self) -> (r: ElemIter<'b, T>)
        ensures
            r@ == old(self)@,
            *final(self) == *old(self),
    {
        ElemIter(self.0.clone())
    }
}

/// Iterator over the elements of a mutable vector.
pub struct ElemIterMut<'a, T>(ColMut<'a, T>);

impl<'a, T> View for ElemIterMut<'a, T> {
    type V = VecView<&'a mut T>;

    closed spec fn view(&self) -> VecView<&'a mut T> {
        self.0@
    }
}

impl<'a, T> ElemIterMut<'a, T> {
    /// Once an iterator is no longer used, the cells of its memory keep their values.
    pub proof fn law_resolved(self)
        ensures
            has_resolved(self) ==> forall|p: int|
                0 <= p < self@.ptr.mem.len() && (#[trigger] self@.ptr.mem[p]) is Some ==> *final(
                    self@.ptr.mem[p]->0) == *self@.ptr.mem[p]->0,
    {
        self.0.law_resolved();
    }

    /// Returns an iterator over the elements of `col`.
    pub fn new(col: ColMut<'a, T>) -> (r: Self)
        ensures
            r@ == col@,
    {
        ElemIterMut(col)
    }

    /// Returns the elements that are left, as a column vector.
    pub fn into_col(self) -> (r: ColMut<'a, T>)
        ensures
            r@ == self@,
    {
        self.0
    }

    /// Returns the elements that are left, as a row vector.
    pub fn into_row(self) -> (r: RowMut<'a, T>)
        ensures
            r@ == self@,
    {
        self.0.transpose()
    }

    /// Returns the first element that is left, and leaves the others.
    pub fn next(&mut self) -> (r: Option<&'a mut T>)
        requires
            old(self)@.len > 0 ==> old(self)@.at(0) is Some,
        ensures
            match r {
                Some(x) => {
                    &&& old(self)@.len > 0
                    &&& final(self)@.len == old(self)@.len - 1
                    &&& Some(x) == old(self)@.at(0)
                    &&& final(self)@ == old(self)@.without(
                        |p: int| p == old(self)@.addr(0),
                    ).sub(1, (old(self)@.len - 1) as nat)
                    &&& old(self)@.no_alias() ==> forall|k: int|
                        0 <= k < final(self)@.len ==> #[trigger] final(self)@.at(k) == old(self)@.at(
                            1 + k,
                        )
                },
                None => old(self)@.len == 0 && final(self)@ == old(self)@,
            },
    {
        let nrows = self.0.nrows();
        if nrows == 0 {
            None
        } else {
            let ghost v = self@;
            let top = self.0.take(0, 1);
            let ghost m = self@;
            proof {
                lemma_vec_one(v, 0);
                lemma_vec_sub(v, 0, 1);
                lemma_vec_alone(v.sub(0, 1));
                assert(m.ptr.mem =~= v.without(|p: int| p == v.addr(0)).ptr.mem);
                assert(v.sub(0, 1).at(0) == v.at(0));
            }
            self.0.narrow(1, nrows - 1);
            proof {
                lemma_vec_sub(m, 1, (nrows - 1) as nat);
                if v.no_alias() {
                    assert forall|k: int|
                        0 <= k < self@.len implies #[trigger] self@.at(k) == v.at(1 + k) by {
                        assert(v.addr(0) != v.addr(1 + k));
                    }
                }
            }
            Some(top.get(0))
        }
    }

    /// Returns the last element that is left, and leaves the others.
    pub fn next_back(&mut self) -> (r: Option<&'a mut T>)
        requires
            old(self)@.len > 0 ==> old(self)@.at(old(self)@.len - 1) is Some,
        ensures
            match r {
                Some(x) => {
                    &&& old(self)@.len > 0
                    &&& final(self)@.len == old(self)@.len - 1
                    &&& Some(x) == old(self)@.at(old(self)@.len - 1)
                    &&& final(self)@ == old(self)@.without(
                        |p: int| p == old(self)@.addr(old(self)@.len - 1),
                    ).sub(0, (old(self)@.len - 1) as nat)
                    &&& old(self)@.no_alias() ==> forall|k: int|
                        0 <= k < final(self)@.len ==> #[trigger] final(self)@.at(k) == old(self)@.at(k)
                },
                None => old(self)@.len == 0 && final(self)@ == old(self)@,
            },
    {
        let nrows = self.0.nrows();
        if nrows == 0 {
            None
        } else {
            let ghost v = self@;
            let bot = self.0.take(nrows - 1, 1);
            let ghost m = self@;
            proof {
                lemma_vec_one(v, nrows - 1);
                lemma_vec_sub(v, nrows - 1, 1);
                lemma_vec_alone(v.sub(nrows - 1, 1));
                assert(m.ptr.mem =~= v.without(|p: int| p == v.addr(nrows - 1)).ptr.mem);
                assert(v.sub(nrows - 1, 1).at(0) == v.at(nrows - 1 + 0));
            }
            self.0.narrow(0, nrows - 1);
            proof {
                lemma_vec_sub(m, 0, (nrows - 1) as nat);
                if v.no_alias() {
                    assert forall|k: int|
                        0 <= k < self@.len implies #[trigger] self@.at(k) == v.at(k) by {
                        assert(v.addr(nrows - 1) != v.addr(k));
                    }
                }
            }
            Some(bot.get(0))
        }
    }

    /// Returns bounds on the number of elements that are left, which are exact.
    pub fn size_hint(&self) -> (r: (usize, Option<usize>))
        ensures
            r.0 == self@.len,
            r.1 == Some(r.0),
    {
        let len = self.0.nrows();
        (len, Some(len))
    }

    /// Shares the iterator for as long as `self` is borrowed.
    pub fn rb<'b>(&'b self) -> (r: ElemIter<'b, T>)
        ensures
            r@ == self@.now(),
    {
        ElemIter::new(self.0.rb())
    }

    /// Lends the elements out for as long as `self` is borrowed. What the loan leaves in a cell
    /// is what the cell then holds.
    pub fn rb_mut<'b>(&'b mut self) -> (r: ElemIterMut<'b, T>)
        ensures
            r@ == (VecView { ptr: r@.ptr, len: old(self)@.len, stride: old(self)@.stride }),
            final(self)@ == (VecView { ptr: final(self)@.ptr, ..old(self)@ }),
            r@.ptr.pos == old(self)@.ptr.pos,
            final(self)@.ptr.pos == old(self)@.ptr.pos,
            r@.ptr.mem.len() == old(self)@.ptr.mem.len(),
            final(self)@.ptr.mem.len() == old(self)@.ptr.mem.len(),
            forall|p: int|
                #![trigger r@.ptr.mem[p]]
                #![trigger final(self)@.ptr.mem[p]]
                0 <= p < r@.ptr.mem.len() ==> match old(self)@.ptr.mem[p] {
                    Some(x) => {
                        &&& r@.ptr.mem[p] is Some
                        &&& *r@.ptr.mem[p]->0 == *x
                        &&& final(self)@.ptr.mem[p] is Some
                        &&& *final(self)@.ptr.mem[p]->0 == *final(r@.ptr.mem[p]->0)
                        &&& *final(final(self)@.ptr.mem[p]->0) == *final(x)
                    },
                    None => r@.ptr.mem[p] is None && final(self)@.ptr.mem[p] is None,
                },
    {
        ElemIterMut(self.0.rb_mut())
    }
}

}
