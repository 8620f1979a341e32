//! Matrix views.

use crate::col_ref::ColRef;
use crate::iter::{ColIter, RowIter};
use crate::memory::Ptr;
use crate::model::{
    lemma_mat_col, lemma_mat_cols_reversed, lemma_mat_diagonal, lemma_mat_reversed, lemma_mat_row,
    lemma_mat_rows_reversed, lemma_mat_sub, lemma_mat_transposed, lemma_ptr_offset, MatView,
};
use crate::row_ref::RowRef;
use crate::word::{add_words, negate_word};
use crate::zip::ZipMat;
use core::ops::Index;
use vstd::prelude::*;

verus! {

/// 2D matrix view.
pub struct MatRef<'a, T> {
    ptr: Ptr<'a, T>,
    nrows: usize,
    ncols: usize,
    row_stride: isize,
    col_stride: isize,
}

impl<'a, T> View for MatRef<'a, T> {
    type V = MatView<T>;

    closed spec fn view(&self) -> MatView<T> {
        MatView {
            ptr: self.ptr@,
            nrows: self.nrows as nat,
            ncols: self.ncols as nat,
            row_stride: self.row_stride as int,
            col_stride: self.col_stride as int,
        }
    }
}

impl<'a, T> Clone for MatRef<'a, T> {
    fn clone(&self) -> (r: Self)
        ensures
            r@ == self@,
    {
        MatRef {
            ptr: self.ptr.clone(),
            nrows: self.nrows,
            ncols: self.ncols,
            row_stride: self.row_stride,
            col_stride: self.col_stride,
        }
    }
}

impl<'a, T> MatRef<'a, T> {
    /// Returns a matrix view from the given arguments.
    /// `ptr`: pointer to the first element of the matrix.
    /// `nrows`: number of rows of the matrix.
    /// `ncols`: number of columns of the matrix.
    /// `row_stride`: offset between the first elements of two successive rows in the matrix.
    /// `col_stride`: offset between the first elements of two successive columns in the matrix.
    pub fn from_raw_parts(
        ptr: Ptr<'a, T>,
        nrows: usize,
        ncols: usize,
        row_stride: isize,
        col_stride: isize,
    ) -> (r: Self)
        ensures
            r@ == (MatView {
                ptr: ptr@,
                nrows: nrows as nat,
                ncols: ncols as nat,
                row_stride: row_stride as int,
                col_stride: col_stride as int,
            }),
    {
        MatRef { ptr, nrows, ncols, row_stride, col_stride }
    }

    /// The dimensions and the strides are machine numbers, and the position is a word.
    pub proof fn law_machine_numbers(&self)
        ensures
            self@.machine_numbers(),
            self@.nrows <= usize::MAX,
            self@.ncols <= usize::MAX,
    {
        self.ptr.lemma_position();
    }

    /// Returns a pointer to the first element of the matrix.
    pub fn as_ptr(self) -> (r: Ptr<'a, T>)
        ensures
            r@ == self@.ptr,
    {
        self.ptr
    }

    /// Returns the number of rows of the matrix.
    pub fn nrows(&self) -> (r: usize)
        ensures
            r == self@.nrows,
    {
        self.nrows
    }

    /// Returns the number of columns of the matrix.
    pub fn ncols(&self) -> (r: usize)
        ensures
            r == self@.ncols,
    {
        self.ncols
    }

    /// Returns the offset between the first elements of two successive rows in the matrix.
    pub fn row_stride(&self) -> (r: isize)
        ensures
            r == self@.row_stride,
    {
        self.row_stride
    }

    /// Returns the offset between the first elements of two successive columns in the matrix.
    pub fn col_stride(&self) -> (r: isize)
        ensures
            r == self@.col_stride,
    {
        self.col_stride
    }

    /// Returns a pointer to the element at position (i, j) in the matrix.
    pub fn ptr_at(self, i: usize, j: usize) -> (r: Ptr<'a, T>)
        ensures
            r@ == self@.ptr.offset(i * self@.row_stride + j * self@.col_stride),
            r@.at(0) == self@.at(i as int, j as int),
    {
        proof {
            lemma_ptr_offset(self@.ptr, i * self@.row_stride, j * self@.col_stride);
            lemma_ptr_offset(self@.ptr, i * self@.row_stride + j * self@.col_stride, 0);
        }
        self.ptr.wrapping_strides(i, self.row_stride).wrapping_strides(j, self.col_stride)
    }

    /// Returns a pointer to the element at position (i, j) in the matrix, which has to lie within
    /// its bounds.
    pub fn ptr_in_bounds_at_unchecked(self, i: usize, j: usize) -> (r: Ptr<'a, T>)
        requires
            i < self@.nrows,
            j < self@.ncols,
        ensures
            r@ == self@.ptr.offset(i * self@.row_stride + j * self@.col_stride),
            r@.at(0) == self@.at(i as int, j as int),
    {
        self.ptr_at(i, j)
    }

    /// Returns a pointer to the element at position (i, j) in the matrix, which has to lie within
    /// its bounds.
    pub fn ptr_in_bounds_at(self, i: usize, j: usize) -> (r: Ptr<'a, T>)
        requires
            i < self@.nrows,
            j < self@.ncols,
        ensures
            r@ == self@.ptr.offset(i * self@.row_stride + j * self@.col_stride),
            r@.at(0) == self@.at(i as int, j as int),
    {
        self.ptr_in_bounds_at_unchecked(i, j)
    }

    /// Splits the matrix into four corner parts in the following order: top left, top right,
    /// bottom left, bottom right.
    pub fn split_at_unchecked(self, i: usize, j: usize) -> (r: (Self, Self, Self, Self))
        requires
            i <= self@.nrows,
            j <= self@.ncols,
        ensures
            r.0@ == self@.sub(0, 0, i as nat, j as nat),
            r.1@ == self@.sub(0, j as int, i as nat, (self@.ncols - j) as nat),
            r.2@ == self@.sub(i as int, 0, (self@.nrows - i) as nat, j as nat),
            r.3@ == self@.sub(
                i as int,
                j as int,
                (self@.nrows - i) as nat,
                (self@.ncols - j) as nat,
            ),
            r.0@.nrows == i,
            r.0@.ncols == j,
            r.1@.nrows == i,
            r.1@.ncols == self@.ncols - j,
            r.2@.nrows == self@.nrows - i,
            r.2@.ncols == j,
            r.3@.nrows == self@.nrows - i,
            r.3@.ncols == self@.ncols - j,
            forall|k: int, l: int| #[trigger] r.0@.at(k, l) == self@.at(k, l),
            forall|k: int, l: int| #[trigger] r.1@.at(k, l) == self@.at(k, j + l),
            forall|k: int, l: int| #[trigger] r.2@.at(k, l) == self@.at(i + k, l),
            forall|k: int, l: int| #[trigger] r.3@.at(k, l) == self@.at(i + k, j + l),
    {
        proof {
            self.ptr.lemma_position();
            lemma_ptr_offset(self@.ptr, 0, 0);
            lemma_ptr_offset(self@.ptr, i * self@.row_stride, j * self@.col_stride);
            lemma_mat_sub(self@, 0, 0, i as nat, j as nat);
            lemma_mat_sub(self@, 0, j as int, i as nat, (self@.ncols - j) as nat);
            lemma_mat_sub(self@, i as int, 0, (self@.nrows - i) as nat, j as nat);
            lemma_mat_sub(
                self@,
                i as int,
                j as int,
                (self@.nrows - i) as nat,
                (self@.ncols - j) as nat,
            );
        }
        let cs = self.col_stride;
        let rs = self.row_stride;
        let top_right = self.ptr.clone().wrapping_strides(j, cs);
        let bot_left = self.ptr.clone().wrapping_strides(i, rs);
        let bot_right = self.ptr.clone().wrapping_strides(i, rs).wrapping_strides(j, cs);
        (
            Self::from_raw_parts(self.ptr, i, j, rs, cs),
            Self::from_raw_parts(top_right, i, self.ncols - j, rs, cs),
            Self::from_raw_parts(bot_left, self.nrows - i, j, rs, cs),
            Self::from_raw_parts(bot_right, self.nrows - i, self.ncols - j, rs, cs),
        )
    }

    /// Splits the matrix into four corner parts in the following order: top left, top right,
    /// bottom left, bottom right.
    pub fn split_at(self, i: usize, j: usize) -> (r: (Self, Self, Self, Self))
        requires
            i <= self@.nrows,
            j <= self@.ncols,
        ensures
            r.0@ == self@.sub(0, 0, i as nat, j as nat),
            r.1@ == self@.sub(0, j as int, i as nat, (self@.ncols - j) as nat),
            r.2@ == self@.sub(i as int, 0, (self@.nrows - i) as nat, j as nat),
            r.3@ == self@.sub(
                i as int,
                j as int,
                (self@.nrows - i) as nat,
                (self@.ncols - j) as nat,
            ),
            r.0@.nrows == i,
            r.0@.ncols == j,
            r.1@.nrows == i,
            r.1@.ncols == self@.ncols - j,
            r.2@.nrows == self@.nrows - i,
            r.2@.ncols == j,
            r.3@.nrows == self@.nrows - i,
            r.3@.ncols == self@.ncols - j,
            forall|k: int, l: int| #[trigger] r.0@.at(k, l) == self@.at(k, l),
            forall|k: int, l: int| #[trigger] r.1@.at(k, l) == self@.at(k, j + l),
            forall|k: int, l: int| #[trigger] r.2@.at(k, l) == self@.at(i + k, l),
            forall|k: int, l: int| #[trigger] r.3@.at(k, l) == self@.at(i + k, j + l),
    {
        self.split_at_unchecked(i, j)
    }

    /// Returns a reference to the element at position (i, j).
    pub fn get_unchecked(self, i: usize, j: usize) -> (r: &'a T)
        requires
            i < self@.nrows,
            j < self@.ncols,
            self@.at(i as int, j as int) is Some,
        ensures
            Some(*r) == self@.at(i as int, j as int),
    {
        self.ptr_in_bounds_at_unchecked(i, j).as_ref()
    }

    /// Returns a reference to the element at position (i, j).
    pub fn get(self, i: usize, j: usize) -> (r: &'a T)
        requires
            i < self@.nrows,
            j < self@.ncols,
            self@.at(i as int, j as int) is Some,
        ensures
            Some(*r) == self@.at(i as int, j as int),
    {
        self.get_unchecked(i, j)
    }

    /// Returns the `i`-th row of the matrix.
    pub fn row_unchecked(self, i: usize) -> (r: RowRef<'a, T>)
        requires
            i < self@.nrows,
        ensures
            r@ == self@.row(i as int),
            r@.len == self@.ncols,
            forall|j: int| #[trigger] r@.at(j) == self@.at(i as int, j),
    {
        proof {
            lemma_mat_row(self@, i as int);
        }
        let ncols = self.ncols;
        let cs = self.col_stride;
        RowRef::from_raw_parts(self.ptr_at(i, 0), ncols, cs)
    }

    /// Returns the `i`-th row of the matrix.
    pub fn row(self, i: usize) -> (r: RowRef<'a, T>)
        requires
            i < self@.nrows,
        ensures
            r@ == self@.row(i as int),
            r@.len == self@.ncols,
            forall|j: int| #[trigger] r@.at(j) == self@.at(i as int, j),
    {
        self.row_unchecked(i)
    }

    /// Returns the `j`-th column of the matrix.
    pub fn col_unchecked(self, j: usize) -> (r: ColRef<'a, T>)
        requires
            j < self@.ncols,
        ensures
            r@ == self@.col(j as int),
            r@.len == self@.nrows,
            forall|i: int| #[trigger] r@.at(i) == self@.at(i, j as int),
    {
        proof {
            lemma_mat_col(self@, j as int);
        }
        let nrows = self.nrows;
        let rs = self.row_stride;
        ColRef::from_raw_parts(self.ptr_at(0, j), nrows, rs)
    }

    /// Returns the `j`-th column of the matrix.
    pub fn col(self, j: usize) -> (r: ColRef<'a, T>)
        requires
            j < self@.ncols,
        ensures
            r@ == self@.col(j as int),
            r@.len == self@.nrows,
            forall|i: int| #[trigger] r@.at(i) == self@.at(i, j as int),
    {
        self.col_unchecked(j)
    }

    /// Returns the transpose of `self`.
    pub fn transpose(self) -> (r: MatRef<'a, T>)
        ensures
            r@ == self@.transposed(),
            r@.nrows == self@.ncols,
            r@.ncols == self@.nrows,
            forall|i: int, j: int| #[trigger] r@.at(i, j) == self@.at(j, i),
    {
        proof {
            lemma_mat_transposed(self@);
        }
        MatRef::from_raw_parts(
            self.ptr,
            self.ncols,
            self.nrows,
            self.col_stride,
            self.row_stride,
        )
    }

    /// Returns the matrix with its rows in reverse order.
    pub fn invert_rows(self) -> (r: Self)
        ensures
            r@ == self@.rows_reversed(),
            r@.nrows == self@.nrows,
            r@.ncols == self@.ncols,
            forall|i: int, j: int|
                0 <= i < self@.nrows ==> #[trigger] r@.at(i, j) == self@.at(
                    self@.nrows - 1 - i,
                    j,
                ),
    {
        proof {
            lemma_mat_rows_reversed(self@);
        }
        let nrows = self.nrows;
        let ncols = self.ncols;
        let row_stride = negate_word(self.row_stride);
        let col_stride = self.col_stride;
        let ptr = self.ptr_at(
            if nrows == 0 {
                0
            } else {
                nrows - 1
            },
            0,
        );
        Self::from_raw_parts(ptr, nrows, ncols, row_stride, col_stride)
    }

    /// Returns the matrix with its columns in reverse order.
    pub fn invert_cols(self) -> (r: Self)
        ensures
            r@ == self@.cols_reversed(),
            r@.nrows == self@.nrows,
            r@.ncols == self@.ncols,
            forall|i: int, j: int|
                0 <= j < self@.ncols ==> #[trigger] r@.at(i, j) == self@.at(
                    i,
                    self@.ncols - 1 - j,
                ),
    {
        proof {
            lemma_mat_cols_reversed(self@);
        }
        let nrows = self.nrows;
        let ncols = self.ncols;
        let row_stride = self.row_stride;
        let col_stride = negate_word(self.col_stride);
        let ptr = self.ptr_at(
            0,
            if ncols == 0 {
                0
            } else {
                ncols - 1
            },
        );
        Self::from_raw_parts(ptr, nrows, ncols, row_stride, col_stride)
    }

    /// Returns the matrix with its rows and its columns in reverse order.
    pub fn invert(self) -> (r: Self)
        ensures
            r@ == self@.reversed(),
            r@.nrows == self@.nrows,
            r@.ncols == self@.ncols,
            forall|i: int, j: int|
                self@.has(i, j) ==> #[trigger] r@.at(i, j) == self@.at(
                    self@.nrows - 1 - i,
                    self@.ncols - 1 - j,
                ),
    {
        proof {
            lemma_mat_reversed(self@);
        }
        let nrows = self.nrows;
        let ncols = self.ncols;
        let row_stride = negate_word(self.row_stride);
        let col_stride = negate_word(self.col_stride);
        let ptr = self.ptr_at(
            if nrows == 0 {
                0
            } else {
                nrows - 1
            },
            if ncols == 0 {
                0
            } else {
                ncols - 1
            },
        );
        Self::from_raw_parts(ptr, nrows, ncols, row_stride, col_stride)
    }

    /// Returns the diagonal of the matrix, which has to be square, as a column vector.
    pub fn diagonal_unchecked(self) -> (r: ColRef<'a, T>)
        requires
            self@.nrows == self@.ncols,
        ensures
            r@ == self@.diagonal(),
            r@.len == self@.nrows,
            forall|i: int| #[trigger] r@.at(i) == self@.at(i, i),
    {
        proof {
            lemma_mat_diagonal(self@);
        }
        let stride = add_words(self.row_stride, self.col_stride);
        ColRef::from_raw_parts(self.ptr, self.nrows, stride)
    }

    /// Returns the diagonal of the matrix, which has to be square, as a column vector.
    pub fn diagonal(self) -> (r: ColRef<'a, T>)
        requires
            self@.nrows == self@.ncols,
        ensures
            r@ == self@.diagonal(),
            r@.len == self@.nrows,
            forall|i: int| #[trigger] r@.at(i) == self@.at(i, i),
    {
        self.diagonal_unchecked()
    }

    /// Returns an iterator over the rows of the matrix.
    pub fn into_row_iter(self) -> (r: RowIter<'a, T>)
        ensures
            r@ == self@,
    {
        RowIter::new(self)
    }

    /// Returns an iterator over the columns of the matrix.
    pub fn into_col_iter(self) -> (r: ColIter<'a, T>)
        ensures
            r@ == self@,
    {
        ColIter::new(self)
    }

    /// Returns a view over a submatrix of `self`, starting at position `(i, j)`
    /// with dimensions `(nrows, ncols)`.
    pub fn submatrix_unchecked(self, i: usize, j: usize, nrows: usize, ncols: usize) -> (r: Self)
        requires
            i <= self@.nrows,
            j <= self@.ncols,
            nrows <= self@.nrows - i,
            ncols <= self@.ncols - j,
        ensures
            r@ == self@.sub(i as int, j as int, nrows as nat, ncols as nat),
            r@.nrows == nrows,
            r@.ncols == ncols,
            forall|k: int, l: int| #[trigger] r@.at(k, l) == self@.at(i + k, j + l),
    {
        proof {
            lemma_mat_sub(self@, i as int, j as int, nrows as nat, ncols as nat);
        }
        let row_stride = self.row_stride;
        let col_stride = self.col_stride;
        Self::from_raw_parts(self.ptr_at(i, j), nrows, ncols, row_stride, col_stride)
    }

    /// Returns a view over a submatrix of `self`, starting at position `(i, j)`
    /// with dimensions `(nrows, ncols)`.
    pub fn submatrix(self, i: usize, j: usize, nrows: usize, ncols: usize) -> (r: Self)
        requires
            i <= self@.nrows,
            j <= self@.ncols,
            nrows <= self@.nrows - i,
            ncols <= self@.ncols - j,
        ensures
            r@ == self@.sub(i as int, j as int, nrows as nat, ncols as nat),
            r@.nrows == nrows,
            r@.ncols == ncols,
            forall|k: int, l: int| #[trigger] r@.at(k, l) == self@.at(i + k, j + l),
    {
        self.submatrix_unchecked(i, j, nrows, ncols)
    }

    /// Returns the matrix as the only one to be walked element by element.
    pub fn cwise(self) -> (r: ZipMat<(Self,)>)
        ensures
            r.tuple == (self,),
    {
        ZipMat { tuple: (self,) }
    }

    /// Returns the same view, for as long as `self` is borrowed.
    pub fn rb<'b>(&'b self) -> (r: MatRef<'b, T>)
        ensures
            r@ == self@,
    {
        self.clone()
    }

    /// Returns the same view, for as long as `self` is borrowed.
    pub fn rb_mut<'b>(&'b mut self) -> (r: MatRef<'b, T>)
        ensures
            r@ == old(self)@,
            *final(self) == *old(self),
    {
        self.clone()
    }

    /// Returns the view, which is shared already.
    pub fn into_const(self) -> (r: MatRef<'a, T>)
        ensures
            r == self,
    {
        self
    }
}

impl<'a, T> Index<(usize, usize)> for MatRef<'a, T> {
    type Output = T;

    fn index(&self, index: (usize, usize)) -> (r: &T)
        ensures
            Some(*r) == self@.at(index.0 as int, index.1 as int),
    {
        self.rb().get(index.0, index.1)
    }
}

impl<'a, T> vstd::std_specs::core::IndexSpecImpl<(usize, usize)> for MatRef<'a, T> {
    open spec fn index_req(&self, index: &(usize, usize)) -> bool {
        &&& index.0 < self@.nrows
        &&& index.1 < self@.ncols
        &&& self@.at(index.0 as int, index.1 as int) is Some
    }
}

}
