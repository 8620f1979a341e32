//! Row vector views.

use crate::col_ref::ColRef;
use crate::iter::ElemIter;
use crate::mat_ref::MatRef;
use crate::memory::Ptr;
use crate::model::{lemma_ptr_offset, lemma_vec_as_matrix, lemma_vec_sub, VecView};
use crate::zip::ZipRow;
use core::ops::Index;
use vstd::prelude::*;

verus! {

/// Row vector view.
pub struct RowRef<'a, T> {
    ptr: Ptr<'a, T>,
    ncols: usize,
    col_stride: isize,
}

impl<'a, T> View for RowRef<'a, T> {
    type V = VecView<T>;

    closed spec fn view(&self) -> VecView<T> {
        VecView { ptr: self.ptr@, len: self.ncols as nat, stride: self.col_stride as int }
    }
}

impl<'a, T> Clone for RowRef<'a, T> {
    fn clone(&self) -> (r: Self)
        ensures
            r@ == self@,
    {
        RowRef { ptr: self.ptr.clone(), ncols: self.ncols, col_stride: self.col_stride }
    }
}

impl<'a, T> RowRef<'a, T> {
    /// Returns a row vector view from the given arguments.
    /// `ptr`: pointer to the first element of the row vector.
    /// `ncols`: number of columns of the row vector.
    /// `col_stride`: offset between two successive columns of the row vector.
    pub fn from_raw_parts(ptr: Ptr<'a, T>, ncols: usize, col_stride: isize) -> (r: Self)
        ensures
            r@ == (VecView { ptr: ptr@, len: ncols as nat, stride: col_stride as int }),
    {
        RowRef { ptr, ncols, col_stride }
    }

    /// The length and the stride are machine numbers, and the position is a word.
    pub proof fn law_machine_numbers(&self)
        ensures
            self@.machine_numbers(),
            self@.len <= usize::MAX,
    {
        self.ptr.lemma_position();
    }

    /// Returns a pointer to the first element of the row vector.
    pub fn as_ptr(self) -> (r: Ptr<'a, T>)
        ensures
            r@ == self@.ptr,
    {
        self.ptr
    }

    /// Returns the number of rows of the row vector. Always returns `1`.
    pub fn nrows(&self) -> (r: usize)
        ensures
            r == 1,
    {
        1
    }

    /// Returns the number of columns of the row vector.
    pub fn ncols(&self) -> (r: usize)
        ensures
            r == self@.len,
    {
        self.ncols
    }

    /// Returns the offset between two successive columns of the row vector.
    pub fn col_stride(&self) -> (r: isize)
        ensures
            r == self@.stride,
    {
        self.col_stride
    }

    /// Returns a pointer to element `j` of the row vector.
    pub fn ptr_at(self, j: usize) -> (r: Ptr<'a, T>)
        ensures
            r@ == self@.ptr.offset(j * self@.stride),
            r@.at(0) == self@.at(j as int),
    {
        proof {
            lemma_ptr_offset(self@.ptr, j * self@.stride, 0);
        }
        self.ptr.wrapping_strides(j, self.col_stride)
    }

    /// Returns a pointer to element `j` of the row vector, which has to lie within its bounds.
    pub fn ptr_in_bounds_at_unchecked(self, j: usize) -> (r: Ptr<'a, T>)
        requires
            j < self@.len,
        ensures
            r@ == self@.ptr.offset(j * self@.stride),
            r@.at(0) == self@.at(j as int),
    {
        self.ptr_at(j)
    }

    /// Returns a pointer to element `j` of the row vector, which has to lie within its bounds.
    pub fn ptr_in_bounds_at(self, j: usize) -> (r: Ptr<'a, T>)
        requires
            j < self@.len,
        ensures
            r@ == self@.ptr.offset(j * self@.stride),
            r@.at(0) == self@.at(j as int),
    {
        self.ptr_in_bounds_at_unchecked(j)
    }

    /// Splits the row vector into two parts in the following order: left, right.
    pub fn split_at_unchecked(self, j: usize) -> (r: (Self, Self))
        requires
            j <= self@.len,
        ensures
            r.0@ == self@.sub(0, j as nat),
            r.0@.len == j,
            r.1@.len == self@.len - j,
            r.1@ == self@.sub(j as int, (self@.len - j) as nat),
            forall|k: int| #[trigger] r.0@.at(k) == self@.at(k),
            forall|k: int| #[trigger] r.1@.at(k) == self@.at(j + k),
    {
        proof {
            self.ptr.lemma_position();
            lemma_ptr_offset(self@.ptr, 0, 0);
            lemma_vec_sub(self@, 0, j as nat);
            lemma_vec_sub(self@, j as int, (self@.len - j) as nat);
        }
        let col_stride = self.col_stride;
        let right = self.ptr.clone().wrapping_strides(j, col_stride);
        (
            Self::from_raw_parts(self.ptr, j, col_stride),
            Self::from_raw_parts(right, self.ncols - j, col_stride),
        )
    }

    /// Splits the row vector into two parts in the following order: left, right.
    pub fn split_at(self, j: usize) -> (r: (Self, Self))
        requires
            j <= self@.len,
        ensures
            r.0@ == self@.sub(0, j as nat),
            r.0@.len == j,
            r.1@.len == self@.len - j,
            r.1@ == self@.sub(j as int, (self@.len - j) as nat),
            forall|k: int| #[trigger] r.0@.at(k) == self@.at(k),
            forall|k: int| #[trigger] r.1@.at(k) == self@.at(j + k),
    {
        self.split_at_unchecked(j)
    }

    /// Returns element `j`.
    pub fn get_unchecked(self, j: usize) -> (r: &'a T)
        requires
            j < self@.len,
            self@.at(j as int) is Some,
        ensures
            Some(*r) == self@.at(j as int),
    {
        self.ptr_in_bounds_at_unchecked(j).as_ref()
    }

    /// Returns element `j`.
    pub fn get(self, j: usize) -> (r: &'a T)
        requires
            j < self@.len,
            self@.at(j as int) is Some,
        ensures
            Some(*r) == self@.at(j as int),
    {
        self.get_unchecked(j)
    }

    /// Returns an equivalent matrix view over the same data.
    pub fn as_2d(self) -> (r: MatRef<'a, T>)
        ensures
            r@ == self@.as_row(),
            r@.nrows == 1,
            r@.ncols == self@.len,
            forall|k: int| #[trigger] r@.at(0, k) == self@.at(k),
    {
        proof {
            lemma_vec_as_matrix(self@);
        }
        MatRef::from_raw_parts(self.ptr, 1, self.ncols, 0, self.col_stride)
    }

    /// Returns the transpose of `self`.
    pub fn transpose(self) -> (r: ColRef<'a, T>)
        ensures
            r@ == self@,
    {
        ColRef::from_raw_parts(self.ptr, self.ncols, self.col_stride)
    }

    /// Returns the vector as the only one to be walked element by element.
    pub fn cwise(self) -> (r: ZipRow<(Self,)>)
        ensures
            r.tuple == (self,),
    {
        ZipRow { tuple: (self,) }
    }

    /// Returns an iterator over the elements of the row vector.
    pub fn into_iter(self) -> (r: ElemIter<'a, T>)
        ensures
            r@ == self@,
    {
        ElemIter::new(self.transpose())
    }

    /// Returns the same view, for as long as `self` is borrowed.
    pub fn rb<'b>(&'b self) -> (r: RowRef<'b, T>)
        ensures
            r@ == self@,
    {
        self.clone()
    }

    /// Returns the same view, for as long as `self` is borrowed.
    pub fn rb_mut<'b>(&'b mut self) -> (r: RowRef<'b, T>)
        ensures
            r@ == old(self)@,
            *final(self) == *old(self),
    {
        self.clone()
    }

    /// Returns the view, which is shared already.
    pub fn into_const(self) -> (r: RowRef<'a, T>)
        ensures
            r == self,
    {
        self
    }
}

impl<'a, T> Index<usize> for RowRef<'a, T> {
    type Output = T;

    fn index(&self, j: usize) -> (r: &T)
        ensures
            Some(*r) == self@.at(j as int),
    {
        self.rb().get(j)
    }
}

impl<'a, T> vstd::std_specs::core::IndexSpecImpl<usize> for RowRef<'a, T> {
    open spec fn index_req(&self, j: &usize) -> bool {
        *j < self@.len && self@.at(*j as int) is Some
    }
}

}
