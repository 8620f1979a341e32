//! Mutable matrix views.

use crate::col_mut::ColMut;
use crate::iter::{ColIterMut, RowIterMut};
use crate::mat_ref::MatRef;
use crate::memory::PtrMut;
use crate::model::{
    law_split_tiles, lemma_mat_alone, lemma_mat_alone_without, lemma_mat_col,
    lemma_mat_cols_reversed, lemma_mat_diagonal, lemma_mat_reversed, lemma_mat_row,
    lemma_mat_rows_reversed, lemma_mat_sub, lemma_mat_sub_of_without, lemma_mat_transposed,
    lemma_ptr_offset, lemma_vec_covers, MatView, PtrView,
};
use crate::row_mut::RowMut;
use crate::word::{add_words, negate_word, stride_from};
use crate::zip::ZipMat;
use core::ops::Index;
use vstd::prelude::*;

verus! {

/// Mutable 2D matrix view.
pub struct MatMut<'a, T> {
    ptr: PtrMut<'a, T>,
    nrows: usize,
    ncols: usize,
    row_stride: isize,
    col_stride: isize,
}

impl<'a, T> View for MatMut<'a, T> {
    type V = MatView<&'a mut T>;

    closed spec fn view(&self) -> MatView<&'a mut T> {
        MatView {
            ptr: self.ptr@,
            nrows: self.nrows as nat,
            ncols: self.ncols as nat,
            row_stride: self.row_stride as int,
            col_stride: self.col_stride as int,
        }
    }
}

impl<'a, T> MatMut<'a, T> {
    /// Returns a mutable matrix view from the given arguments.
    /// `ptr`: pointer to the first element of the matrix.
    /// `nrows`: number of rows of the matrix.
    /// `ncols`: number of columns of the matrix.
    /// `row_stride`: offset between the first elements of two successive rows in the matrix.
    /// `col_stride`: offset between the first elements of two successive columns in the matrix.
    pub fn from_raw_parts(
        ptr: PtrMut<'a, T>,
        nrows: usize,
        ncols: usize,
        row_stride: isize,
        col_stride: isize,
    ) -> (r: Self)
        ensures
            r@ == (MatView {
                ptr: ptr@,
                nrows: nrows as nat,
                ncols: ncols as nat,
                row_stride: row_stride as int,
                col_stride: col_stride as int,
            }),
    {
        MatMut { ptr, nrows, ncols, row_stride, col_stride }
    }

    /// The dimensions and the strides are machine numbers, and the position is a word.
    pub proof fn law_machine_numbers(&self)
        ensures
            self@.machine_numbers(),
            self@.nrows <= usize::MAX,
            self@.ncols <= usize::MAX,
    {
        self.ptr.lemma_position();
    }

    /// Once a view is no longer used, the cells of its memory keep their values.
    pub proof fn law_resolved(self)
        ensures
            has_resolved(self) ==> forall|p: int|
                0 <= p < self@.ptr.mem.len() && (#[trigger] self@.ptr.mem[p]) is Some ==> *final(
                    self@.ptr.mem[p]->0) == *self@.ptr.mem[p]->0,
    {
        self.ptr.law_resolved();
    }

    /// Returns a pointer to the first element of the matrix.
    pub fn as_ptr(self) -> (r: PtrMut<'a, T>)
        ensures
            r@ == self@.ptr,
    {
        self.ptr
    }

    /// Returns the number of rows of the matrix.
    pub fn nrows(&self) -> (r: usize)
        ensures
            r == self@.nrows,
    {
        self.nrows
    }

    /// Returns the number of columns of the matrix.
    pub fn ncols(&self) -> (r: usize)
        ensures
            r == self@.ncols,
    {
        self.ncols
    }

    /// Returns the offset between the first elements of two successive rows in the matrix.
    pub fn row_stride(&self) -> (r: isize)
        ensures
            r == self@.row_stride,
    {
        self.row_stride
    }

    /// Returns the offset between the first elements of two successive columns in the matrix.
    pub fn col_stride(&self) -> (r: isize)
        ensures
            r == self@.col_stride,
    {
        self.col_stride
    }

    /// Returns a pointer to the element at position (i, j) in the matrix.
    pub fn ptr_at(self, i: usize, j: usize) -> (r: PtrMut<'a, T>)
        ensures
            r@ == self@.ptr.offset(i * self@.row_stride + j * self@.col_stride),
            r@.at(0) == self@.at(i as int, j as int),
    {
        proof {
            lemma_ptr_offset(self@.ptr, i * self@.row_stride, j * self@.col_stride);
            lemma_ptr_offset(self@.ptr, i * self@.row_stride + j * self@.col_stride, 0);
        }
        self.ptr.wrapping_strides(i, self.row_stride).wrapping_strides(j, self.col_stride)
    }

    /// Returns a pointer to the element at position (i, j) in the matrix, which has to lie within
    /// its bounds.
    pub fn ptr_in_bounds_at_unchecked(self, i: usize, j: usize) -> (r: PtrMut<'a, T>)
        requires
            i < self@.nrows,
            j < self@.ncols,
        ensures
            r@ == self@.ptr.offset(i * self@.row_stride + j * self@.col_stride),
            r@.at(0) == self@.at(i as int, j as int),
    {
        self.ptr_at(i, j)
    }

    /// Returns a pointer to the element at position (i, j) in the matrix, which has to lie within
    /// its bounds.
    pub fn ptr_in_bounds_at(self, i: usize, j: usize) -> (r: PtrMut<'a, T>)
        requires
            i < self@.nrows,
            j < self@.ncols,
        ensures
            r@ == self@.ptr.offset(i * self@.row_stride + j * self@.col_stride),
            r@.at(0) == self@.at(i as int, j as int),
    {
        self.ptr_in_bounds_at_unchecked(i, j)
    }

    /// Takes the matrix of `nrows` rows and `ncols` columns that begins in row `i` and column `j`
    /// out of the memory, and returns it as a view.
    pub(crate) fn take(&mut self, i: usize, j: usize, nrows: usize, ncols: usize) -> (r: Self)
        ensures
            r@ == old(self)@.sub(i as int, j as int, nrows as nat, ncols as nat).alone(),
            final(self)@ == old(self)@.without(
                |p: int|
                    old(self)@.sub(i as int, j as int, nrows as nat, ncols as nat).covers(p),
            ),
    {
        let ghost b = self@.sub(i as int, j as int, nrows as nat, ncols as nat);
        proof {
            lemma_ptr_offset(self@.ptr, i * self@.row_stride, j * self@.col_stride);
        }
        let pos = stride_from(
            stride_from(self.ptr.position(), i, self.row_stride),
            j,
            self.col_stride,
        );
        let ptr = self.ptr.take_block(pos, nrows, ncols, self.row_stride, self.col_stride);
        proof {
            assert(ptr@.mem =~= b.alone().ptr.mem);
            assert(self@.ptr.mem =~= old(self)@.without(|p: int| b.covers(p)).ptr.mem);
        }
        MatMut { ptr, nrows, ncols, row_stride: self.row_stride, col_stride: self.col_stride }
    }

    /// Takes row `i` out of the memory, and returns it as a view.
    pub(crate) fn take_row(&mut self, i: usize) -> (r: RowMut<'a, T>)
        ensures
            r@ == old(self)@.row(i as int).alone(),
            final(self)@ == old(self)@.without(|p: int| old(self)@.row(i as int).covers(p)),
    {
        let ghost v = self@.row(i as int);
        let pos = stride_from(self.ptr.position(), i, self.row_stride);
        let ptr = self.ptr.take_block(pos, 1, self.ncols, 0, self.col_stride);
        proof {
            let b = MatView {
                ptr: PtrView { mem: old(self)@.ptr.mem, pos: pos as int },
                nrows: 1,
                ncols: self.ncols as nat,
                row_stride: 0,
                col_stride: self.col_stride as int,
            };
            assert(b == v.as_row());
            lemma_vec_covers(v);
            assert(ptr@.mem =~= v.alone().ptr.mem);
            assert(self@.ptr.mem =~= old(self)@.without(|p: int| v.covers(p)).ptr.mem);
        }
        RowMut::from_raw_parts(ptr, self.ncols, self.col_stride)
    }

    /// Takes column `j` out of the memory, and returns it as a view.
    pub(crate) fn take_col(&mut self, j: usize) -> (r: ColMut<'a, T>)
        ensures
            r@ == old(self)@.col(j as int).alone(),
            final(self)@ == old(self)@.without(|p: int| old(self)@.col(j as int).covers(p)),
    {
        let ghost v = self@.col(j as int);
        let pos = stride_from(self.ptr.position(), j, self.col_stride);
        let ptr = self.ptr.take_block(pos, self.nrows, 1, self.row_stride, 0);
        proof {
            let b = MatView {
                ptr: PtrView { mem: old(self)@.ptr.mem, pos: pos as int },
                nrows: self.nrows as nat,
                ncols: 1,
                row_stride: self.row_stride as int,
                col_stride: 0,
            };
            assert(b == v.as_col());
            lemma_vec_covers(v);
            assert(ptr@.mem =~= v.alone().ptr.mem);
            assert(self@.ptr.mem =~= old(self)@.without(|p: int| v.covers(p)).ptr.mem);
        }
        ColMut::from_raw_parts(ptr, self.nrows, self.row_stride)
    }

    /// Keeps the matrix of `nrows` rows and `ncols` columns that begins in row `i` and column `j`.
    pub(crate) fn narrow(&mut self, i: usize, j: usize, nrows: usize, ncols: usize)
        ensures
            final(self)@ == old(self)@.sub(i as int, j as int, nrows as nat, ncols as nat),
    {
        proof {
            lemma_ptr_offset(self@.ptr, i * self@.row_stride, j * self@.col_stride);
        }
        self.ptr.advance(i, self.row_stride);
        self.ptr.advance(j, self.col_stride);
        self.nrows = nrows;
        self.ncols = ncols;
    }

    /// Splits the matrix into four corner parts in the following order: top left, top right,
    /// bottom left, bottom right. A cell that belongs to several parts goes to the first of them.
    /// Cells that are not elements keep their values.
    pub fn split_at_unchecked(self, i: usize, j: usize) -> (r: (Self, Self, Self, Self))
        requires
            i <= self@.nrows,
            j <= self@.ncols,
        ensures
            r.0@.nrows == i,
            r.0@.ncols == j,
            r.1@.nrows == i,
            r.1@.ncols == self@.ncols - j,
            r.2@.nrows == self@.nrows - i,
            r.2@.ncols == j,
            r.3@.nrows == self@.nrows - i,
            r.3@.ncols == self@.ncols - j,
            r.0@ == self@.sub(0, 0, i as nat, j as nat).alone(),
            ({
                let tl = self@.sub(0, 0, i as nat, j as nat);
                let tr = self@.sub(0, j as int, i as nat, (self@.ncols - j) as nat);
                let bl = self@.sub(i as int, 0, (self@.nrows - i) as nat, j as nat);
                let br = self@.sub(
                    i as int,
                    j as int,
                    (self@.nrows - i) as nat,
                    (self@.ncols - j) as nat,
                );
                &&& r.1@ == tr.without(|p: int| tl.covers(p)).alone()
                &&& r.2@ == bl.without(|p: int| tl.covers(p) || tr.covers(p)).alone()
                &&& r.3@ == br.without(
                    |p: int| tl.covers(p) || tr.covers(p) || bl.covers(p),
                ).alone()
                &&& self@.no_alias() ==> r.1@ == tr.alone() && r.2@ == bl.alone() && r.3@
                    == br.alone()
            }),
            forall|k: int, l: int|
                r.0@.has(k, l) ==> #[trigger] r.0@.at(k, l) == self@.at(k, l),
            self@.no_alias() ==> forall|k: int, l: int|
                r.1@.has(k, l) ==> #[trigger] r.1@.at(k, l) == self@.at(k, j + l),
            self@.no_alias() ==> forall|k: int, l: int|
                r.2@.has(k, l) ==> #[trigger] r.2@.at(k, l) == self@.at(i + k, l),
            self@.no_alias() ==> forall|k: int, l: int|
                r.3@.has(k, l) ==> #[trigger] r.3@.at(k, l) == self@.at(i + k, j + l),
            forall|p: int|
                0 <= p < self@.ptr.mem.len() && !self@.covers(p) && (
                #[trigger] self@.ptr.mem[p]) is Some ==> *final(self@.ptr.mem[p]->0)
                    == *self@.ptr.mem[p]->0,
    {
        let ghost v = self@;
        let mut this = self;
        let below = this.nrows - i;
        let right = this.ncols - j;
        proof {
            law_split_tiles(v, i as nat, j as nat);
        }
        let ghost tl = v.sub(0, 0, i as nat, j as nat);
        let ghost tr = v.sub(0, j as int, i as nat, right as nat);
        let ghost bl = v.sub(i as int, 0, below as nat, j as nat);
        let ghost br = v.sub(i as int, j as int, below as nat, right as nat);
        let ghost one = |p: int| tl.covers(p);
        let ghost two = |p: int| tl.covers(p) || tr.covers(p);
        let ghost three = |p: int| tl.covers(p) || tr.covers(p) || bl.covers(p);
        let top_left = this.take(0, 0, i, j);
        proof {
            lemma_mat_sub_of_without(v, one, 0, j as int, i as nat, right as nat);
            assert(this@.ptr.mem =~= v.without(one).ptr.mem);
        }
        let top_right = this.take(0, j, i, right);
        proof {
            lemma_mat_sub_of_without(v, two, i as int, 0, below as nat, j as nat);
            assert(this@.ptr.mem =~= v.without(two).ptr.mem);
        }
        let bot_left = this.take(i, 0, below, j);
        proof {
            lemma_mat_sub_of_without(v, three, i as int, j as int, below as nat, right as nat);
            assert(this@.ptr.mem =~= v.without(three).ptr.mem);
        }
        let bot_right = this.take(i, j, below, right);
        proof {
            lemma_mat_alone(tl);
            lemma_mat_alone(tr);
            lemma_mat_alone(bl);
            lemma_mat_alone(br);
            if v.no_alias() {
                lemma_mat_alone_without(tr, one);
                lemma_mat_alone_without(bl, two);
                lemma_mat_alone_without(br, three);
            }
            lemma_mat_sub(v, 0, 0, i as nat, j as nat);
            lemma_mat_sub(v, 0, j as int, i as nat, right as nat);
            lemma_mat_sub(v, i as int, 0, below as nat, j as nat);
            lemma_mat_sub(v, i as int, j as int, below as nat, right as nat);
            assert forall|p: int|
                0 <= p < v.ptr.mem.len() && !v.covers(p) && (
                #[trigger] v.ptr.mem[p]) is Some implies this@.ptr.mem[p] == v.ptr.mem[p] by {}
        }
        this.ptr.release();
        (top_left, top_right, bot_left, bot_right)
    }

    /// Splits the matrix into four corner parts in the following order: top left, top right,
    /// bottom left, bottom right. A cell that belongs to several parts goes to the first of them.
    /// Cells that are not elements keep their values.
    pub fn split_at(self, i: usize, j: usize) -> (r: (Self, Self, Self, Self))
        requires
            i <= self@.nrows,
            j <= self@.ncols,
        ensures
            r.0@.nrows == i,
            r.0@.ncols == j,
            r.1@.nrows == i,
            r.1@.ncols == self@.ncols - j,
            r.2@.nrows == self@.nrows - i,
            r.2@.ncols == j,
            r.3@.nrows == self@.nrows - i,
            r.3@.ncols == self@.ncols - j,
            r.0@ == self@.sub(0, 0, i as nat, j as nat).alone(),
            ({
                let tl = self@.sub(0, 0, i as nat, j as nat);
                let tr = self@.sub(0, j as int, i as nat, (self@.ncols - j) as nat);
                let bl = self@.sub(i as int, 0, (self@.nrows - i) as nat, j as nat);
                let br = self@.sub(
                    i as int,
                    j as int,
                    (self@.nrows - i) as nat,
                    (self@.ncols - j) as nat,
                );
                &&& r.1@ == tr.without(|p: int| tl.covers(p)).alone()
                &&& r.2@ == bl.without(|p: int| tl.covers(p) || tr.covers(p)).alone()
                &&& r.3@ == br.without(
                    |p: int| tl.covers(p) || tr.covers(p) || bl.covers(p),
                ).alone()
                &&& self@.no_alias() ==> r.1@ == tr.alone() && r.2@ == bl.alone() && r.3@
                    == br.alone()
            }),
            forall|k: int, l: int|
                r.0@.has(k, l) ==> #[trigger] r.0@.at(k, l) == self@.at(k, l),
            self@.no_alias() ==> forall|k: int, l: int|
                r.1@.has(k, l) ==> #[trigger] r.1@.at(k, l) == self@.at(k, j + l),
            self@.no_alias() ==> forall|k: int, l: int|
                r.2@.has(k, l) ==> #[trigger] r.2@.at(k, l) == self@.at(i + k, l),
            self@.no_alias() ==> forall|k: int, l: int|
                r.3@.has(k, l) ==> #[trigger] r.3@.at(k, l) == self@.at(i + k, j + l),
            forall|p: int|
                0 <= p < self@.ptr.mem.len() && !self@.covers(p) && (
                #[trigger] self@.ptr.mem[p]) is Some ==> *final(self@.ptr.mem[p]->0)
                    == *self@.ptr.mem[p]->0,
    {
        self.split_at_unchecked(i, j)
    }

    /// Returns a mutable reference to the element at position (i, j). The other cells keep
    /// their values.
    pub fn get_unchecked(self, i: usize, j: usize) -> (r: &'a mut T)
        requires
            i < self@.nrows,
            j < self@.ncols,
            self@.at(i as int, j as int) is Some,
        ensures
            Some(r) == self@.at(i as int, j as int),
            forall|p: int|
                0 <= p < self@.ptr.mem.len() && p != self@.addr(i as int, j as int) && (
                #[trigger] self@.ptr.mem[p]) is Some ==> *final(self@.ptr.mem[p]->0)
                    == *self@.ptr.mem[p]->0,
    {
        self.ptr_in_bounds_at_unchecked(i, j).as_mut()
    }

    /// Returns a mutable reference to the element at position (i, j). The other cells keep
    /// their values.
    pub fn get(self, i: usize, j: usize) -> (r: &'a mut T)
        requires
            i < self@.nrows,
            j < self@.ncols,
            self@.at(i as int, j as int) is Some,
        ensures
            Some(r) == self@.at(i as int, j as int),
            forall|p: int|
                0 <= p < self@.ptr.mem.len() && p != self@.addr(i as int, j as int) && (
                #[trigger] self@.ptr.mem[p]) is Some ==> *final(self@.ptr.mem[p]->0)
                    == *self@.ptr.mem[p]->0,
    {
        self.get_unchecked(i, j)
    }

    /// Returns the `i`-th row of the matrix.
    pub fn row_unchecked(self, i: usize) -> (r: RowMut<'a, T>)
        requires
            i < self@.nrows,
        ensures
            r@ == self@.row(i as int),
            r@.len == self@.ncols,
            forall|j: int| #[trigger] r@.at(j) == self@.at(i as int, j),
    {
        proof {
            lemma_mat_row(self@, i as int);
        }
        let ncols = self.ncols;
        let cs = self.col_stride;
        RowMut::from_raw_parts(self.ptr_at(i, 0), ncols, cs)
    }

    /// Returns the `i`-th row of the matrix.
    pub fn row(self, i: usize) -> (r: RowMut<'a, T>)
        requires
            i < self@.nrows,
        ensures
            r@ == self@.row(i as int),
            r@.len == self@.ncols,
            forall|j: int| #[trigger] r@.at(j) == self@.at(i as int, j),
    {
        self.row_unchecked(i)
    }

    /// Returns the `j`-th column of the matrix.
    pub fn col_unchecked(self, j: usize) -> (r: ColMut<'a, T>)
        requires
            j < self@.ncols,
        ensures
            r@ == self@.col(j as int),
            r@.len == self@.nrows,
            forall|i: int| #[trigger] r@.at(i) == self@.at(i, j as int),
    {
        proof {
            lemma_mat_col(self@, j as int);
        }
        let nrows = self.nrows;
        let rs = self.row_stride;
        ColMut::from_raw_parts(self.ptr_at(0, j), nrows, rs)
    }

    /// Returns the `j`-th column of the matrix.
    pub fn col(self, j: usize) -> (r: ColMut<'a, T>)
        requires
            j < self@.ncols,
        ensures
            r@ == self@.col(j as int),
            r@.len == self@.nrows,
            forall|i: int| #[trigger] r@.at(i) == self@.at(i, j as int),
    {
        self.col_unchecked(j)
    }

    /// Returns the transpose of `self`.
    pub fn transpose(self) -> (r: MatMut<'a, T>)
        ensures
            r@ == self@.transposed(),
            r@.nrows == self@.ncols,
            r@.ncols == self@.nrows,
            forall|i: int, j: int| #[trigger] r@.at(i, j) == self@.at(j, i),
    {
        proof {
            lemma_mat_transposed(self@);
        }
        MatMut::from_raw_parts(
            self.ptr,
            self.ncols,
            self.nrows,
            self.col_stride,
            self.row_stride,
        )
    }

    /// Returns the matrix with its rows in reverse order.
    pub fn invert_rows(self) -> (r: Self)
        ensures
            r@ == self@.rows_reversed(),
            r@.nrows == self@.nrows,
            r@.ncols == self@.ncols,
            forall|i: int, j: int|
                0 <= i < self@.nrows ==> #[trigger] r@.at(i, j) == self@.at(
                    self@.nrows - 1 - i,
                    j,
                ),
    {
        proof {
            lemma_mat_rows_reversed(self@);
        }
        let nrows = self.nrows;
        let ncols = self.ncols;
        let row_stride = negate_word(self.row_stride);
        let col_stride = self.col_stride;
        let ptr = self.ptr_at(
            if nrows == 0 {
                0
            } else {
                nrows - 1
            },
            0,
        );
        Self::from_raw_parts(ptr, nrows, ncols, row_stride, col_stride)
    }

    /// Returns the matrix with its columns in reverse order.
    pub fn invert_cols(self) -> (r: Self)
        ensures
            r@ == self@.cols_reversed(),
            r@.nrows == self@.nrows,
            r@.ncols == self@.ncols,
            forall|i: int, j: int|
                0 <= j < self@.ncols ==> #[trigger] r@.at(i, j) == self@.at(
                    i,
                    self@.ncols - 1 - j,
                ),
    {
        proof {
            lemma_mat_cols_reversed(self@);
        }
        let nrows = self.nrows;
        let ncols = self.ncols;
        let row_stride = self.row_stride;
        let col_stride = negate_word(self.col_stride);
        let ptr = self.ptr_at(
            0,
            if ncols == 0 {
                0
            } else {
                ncols - 1
            },
        );
        Self::from_raw_parts(ptr, nrows, ncols, row_stride, col_stride)
    }

    /// Returns the matrix with its rows and its columns in reverse order.
    pub fn invert(self) -> (r: Self)
        ensures
            r@ == self@.reversed(),
            r@.nrows == self@.nrows,
            r@.ncols == self@.ncols,
            forall|i: int, j: int|
                self@.has(i, j) ==> #[trigger] r@.at(i, j) == self@.at(
                    self@.nrows - 1 - i,
                    self@.ncols - 1 - j,
                ),
    {
        proof {
            lemma_mat_reversed(self@);
        }
        let nrows = self.nrows;
        let ncols = self.ncols;
        let row_stride = negate_word(self.row_stride);
        let col_stride = negate_word(self.col_stride);
        let ptr = self.ptr_at(
            if nrows == 0 {
                0
            } else {
                nrows - 1
            },
            if ncols == 0 {
                0
            } else {
                ncols - 1
            },
        );
        Self::from_raw_parts(ptr, nrows, ncols, row_stride, col_stride)
    }

    /// Returns the diagonal of the matrix, which has to be square, as a column vector.
    pub fn diagonal_unchecked(self) -> (r: ColMut<'a, T>)
        requires
            self@.nrows == self@.ncols,
        ensures
            r@ == self@.diagonal(),
            r@.len == self@.nrows,
            forall|i: int| #[trigger] r@.at(i) == self@.at(i, i),
    {
        proof {
            lemma_mat_diagonal(self@);
        }
        let stride = add_words(self.row_stride, self.col_stride);
        ColMut::from_raw_parts(self.ptr, self.nrows, stride)
    }

    /// Returns the diagonal of the matrix, which has to be square, as a column vector.
    pub fn diagonal(self) -> (r: ColMut<'a, T>)
        requires
            self@.nrows == self@.ncols,
        ensures
            r@ == self@.diagonal(),
            r@.len == self@.nrows,
            forall|i: int| #[trigger] r@.at(i) == self@.at(i, i),
    {
        self.diagonal_unchecked()
    }

    /// Returns an iterator over the rows of the matrix.
    pub fn into_row_iter(self) -> (r: RowIterMut<'a, T>)
        ensures
            r@ == self@,
    {
        RowIterMut::new(self)
    }

    /// Returns an iterator over the columns of the matrix.
    pub fn into_col_iter(self) -> (r: ColIterMut<'a, T>)
        ensures
            r@ == self@,
    {
        ColIterMut::new(self)
    }

    /// Returns a view over a submatrix of `self`, starting at position `(i, j)`
    /// with dimensions `(nrows, ncols)`.
    pub fn submatrix_unchecked(self, i: usize, j: usize, nrows: usize, ncols: usize) -> (r: Self)
        requires
            i <= self@.nrows,
            j <= self@.ncols,
            nrows <= self@.nrows - i,
            ncols <= self@.ncols - j,
        ensures
            r@ == self@.sub(i as int, j as int, nrows as nat, ncols as nat),
            r@.nrows == nrows,
            r@.ncols == ncols,
            forall|k: int, l: int| #[trigger] r@.at(k, l) == self@.at(i + k, j + l),
    {
        proof {
            lemma_mat_sub(self@, i as int, j as int, nrows as nat, ncols as nat);
        }
        let row_stride = self.row_stride;
        let col_stride = self.col_stride;
        Self::from_raw_parts(self.ptr_at(i, j), nrows, ncols, row_stride, col_stride)
    }

    /// Returns a view over a submatrix of `self`, starting at position `(i, j)`
    /// with dimensions `(nrows, ncols)`.
    pub fn submatrix(self, i: usize, j: usize, nrows: usize, ncols: usize) -> (r: Self)
        requires
            i <= self@.nrows,
            j <= self@.ncols,
            nrows <= self@.nrows - i,
            ncols <= self@.ncols - j,
        ensures
            r@ == self@.sub(i as int, j as int, nrows as nat, ncols as nat),
            r@.nrows == nrows,
            r@.ncols == ncols,
            forall|k: int, l: int| #[trigger] r@.at(k, l) == self@.at(i + k, j + l),
    {
        self.submatrix_unchecked(i, j, nrows, ncols)
    }

    /// Returns the matrix as the only one to be walked element by element.
    pub fn cwise(self) -> (r: ZipMat<(Self,)>)
        ensures
            r.tuple == (self,),
    {
        ZipMat { tuple: (self,) }
    }

    /// Shares the view for as long as `self` is borrowed.
    pub fn rb<'b>(&'b self) -> (r: MatRef<'b, T>)
        ensures
            r@ == self@.now(),
            r@.nrows == self@.nrows,
            r@.ncols == self@.ncols,
    {
        MatRef::from_raw_parts(
            self.ptr.rb(),
            self.nrows,
            self.ncols,
            self.row_stride,
            self.col_stride,
        )
    }

    /// Lends the view out for as long as `self` is borrowed. What the loan leaves in a cell is
    /// what the cell then holds.
    pub fn rb_mut<'b>(&'b mut self) -> (r: MatMut<'b, T>)
        ensures
            r@ == (MatView {
                ptr: r@.ptr,
                nrows: old(self)@.nrows,
                ncols: old(self)@.ncols,
                row_stride: old(self)@.row_stride,
                col_stride: old(self)@.col_stride,
            }),
            final(self)@ == (MatView { ptr: final(self)@.ptr, ..old(self)@ }),
            r@.ptr.pos == old(self)@.ptr.pos,
            final(self)@.ptr.pos == old(self)@.ptr.pos,
            r@.ptr.mem.len() == old(self)@.ptr.mem.len(),
            final(self)@.ptr.mem.len() == old(self)@.ptr.mem.len(),
            forall|p: int|
                #![trigger r@.ptr.mem[p]]
                #![trigger final(self)@.ptr.mem[p]]
                0 <= p < r@.ptr.mem.len() ==> match old(self)@.ptr.mem[p] {
                    Some(x) => {
                        &&& r@.ptr.mem[p] is Some
                        &&& *r@.ptr.mem[p]->0 == *x
                        &&& final(self)@.ptr.mem[p] is Some
                        &&& *final(self)@.ptr.mem[p]->0 == *final(r@.ptr.mem[p]->0)
                        &&& *final(final(self)@.ptr.mem[p]->0) == *final(x)
                    },
                    None => r@.ptr.mem[p] is None && final(self)@.ptr.mem[p] is None,
                },
    {
        let nrows = self.nrows;
        let ncols = self.ncols;
        let row_stride = self.row_stride;
        let col_stride = self.col_stride;
        MatMut::from_raw_parts(self.ptr.rb_mut(), nrows, ncols, row_stride, col_stride)
    }

    /// Gives up exclusive access. The cells keep their values.
    pub fn into_const(self) -> (r: MatRef<'a, T>)
        ensures
            r@ == self@.now(),
            r@.nrows == self@.nrows,
            r@.ncols == self@.ncols,
            forall|p: int|
                0 <= p < self@.ptr.mem.len() && (#[trigger] self@.ptr.mem[p]) is Some ==> *final(
                    self@.ptr.mem[p]->0) == *self@.ptr.mem[p]->0,
    {
        MatRef::from_raw_parts(
            self.ptr.into_const(),
            self.nrows,
            self.ncols,
            self.row_stride,
            self.col_stride,
        )
    }

    /// Returns the element at position (i, j) for as long as `self` is borrowed. The other cells
    /// keep their values.
    pub fn index_mut<'b>(&'b mut self, index: (usize, usize)) -> (r: &'b mut T)
        requires
            index.0 < old(self)@.nrows,
            index.1 < old(self)@.ncols,
            old(self)@.at(index.0 as int, index.1 as int) is Some,
        ensures
            *r == *old(self)@.at(index.0 as int, index.1 as int)->0,
            final(self)@ == (MatView { ptr: final(self)@.ptr, ..old(self)@ }),
            final(self)@.ptr.pos == old(self)@.ptr.pos,
            final(self)@.ptr.mem.len() == old(self)@.ptr.mem.len(),
            forall|p: int|
                0 <= p < old(self)@.ptr.mem.len() ==> match old(self)@.ptr.mem[p] {
                    Some(x) => (#[trigger] final(self)@.ptr.mem[p]) is Some && *final(
                        final(self)@.ptr.mem[p]->0) == *final(x) && *final(self)@.ptr.mem[p]->0
                        == if p == old(self)@.addr(index.0 as int, index.1 as int) {
                        *final(r)
                    } else {
                        *x
                    },
                    None => final(self)@.ptr.mem[p] is None,
                },
    {
        self.rb_mut().get(index.0, index.1)
    }
}

impl<'a, T> Index<(usize, usize)> for MatMut<'a, T> {
    type Output = T;

    fn index(&self, index: (usize, usize)) -> (r: &T)
        ensures
            *r == *self@.at(index.0 as int, index.1 as int)->0,
    {
        self.rb().get(index.0, index.1)
    }
}

impl<'a, T> vstd::std_specs::core::IndexSpecImpl<(usize, usize)> for MatMut<'a, T> {
    open spec fn index_req(&self, index: &(usize, usize)) -> bool {
        &&& index.0 < self@.nrows
        &&& index.1 < self@.ncols
        &&& self@.at(index.0 as int, index.1 as int) is Some
    }
}

}
