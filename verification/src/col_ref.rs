//! Column vector views.

use crate::row_ref::RowRef;
use crate::iter::ElemIter;
use crate::mat_ref::MatRef;
use crate::memory::Ptr;
use crate::model::{lemma_ptr_offset, lemma_vec_as_matrix, lemma_vec_sub, VecView};
use crate::zip::ZipCol;
use core::ops::Index;
use vstd::prelude::*;

verus! {

/// Column vector view.
pub struct ColRef<'a, T> {
    ptr: Ptr<'a, T>,
    nrows: usize,
    row_stride: isize,
}

impl<'a, T> View for ColRef<'a, T> {
    type V = VecView<T>;

    closed spec fn view(&self) -> VecView<T> {
        VecView { ptr: self.ptr@, len: self.nrows as nat, stride: self.row_stride as int }
    }
}

impl<'a, T> Clone for ColRef<'a, T> {
    fn clone(&self) -> (r: Self)
        ensures
            r@ == self@,
    {
        ColRef { ptr: self.ptr.clone(), nrows: self.nrows, row_stride: self.row_stride }
    }
}

impl<'a, T> ColRef<'a, T> {
    /// Returns a column vector view from the given arguments.
    /// `ptr`: pointer to the first element of the column vector.
    /// `nrows`: number of rows of the column vector.
    /// `row_stride`: offset between two successive rows of the column vector.
    pub fn from_raw_parts(ptr: Ptr<'a, T>, nrows: usize, row_stride: isize) -> (r: Self)
        ensures
            r@ == (VecView { ptr: ptr@, len: nrows as nat, stride: row_stride as int }),
    {
        ColRef { ptr, nrows, row_stride }
    }

    /// The length and the stride are machine numbers, and the position is a word.
    pub proof fn law_machine_numbers(&self)
        ensures
            self@.machine_numbers(),
            self@.len <= usize::MAX,
    {
        self.ptr.lemma_position();
    }

    /// Returns a pointer to the first element of the column vector.
    pub fn as_ptr(self) -> (r: Ptr<'a, T>)
        ensures
            r@ == self@.ptr,
    {
        self.ptr
    }

    /// Returns the number of rows of the column vector.
    pub fn nrows(&self) -> (r: usize)
        ensures
            r == self@.len,
    {
        self.nrows
    }

    /// Returns the number of columns of the column vector. Always returns `1`.
    pub fn ncols(&self) -> (r: usize)
        ensures
            r == 1,
    {
        1
    }

    /// Returns the offset between two successive rows of the column vector.
    pub fn row_stride(&self) -> (r: isize)
        ensures
            r == self@.stride,
    {
        self.row_stride
    }

    /// Returns a pointer to element `i` of the column vector.
    pub fn ptr_at(self, i: usize) -> (r: Ptr<'a, T>)
        ensures
            r@ == self@.ptr.offset(i * self@.stride),
            r@.at(0) == self@.at(i as int),
    {
        proof {
            lemma_ptr_offset(self@.ptr, i * self@.stride, 0);
        }
        self.ptr.wrapping_strides(i, self.row_stride)
    }

    /// Returns a pointer to element `i` of the column vector, which has to lie within its bounds.
    pub fn ptr_in_bounds_at_unchecked(self, i: usize) -> (r: Ptr<'a, T>)
        requires
            i < self@.len,
        ensures
            r@ == self@.ptr.offset(i * self@.stride),
            r@.at(0) == self@.at(i as int),
    {
        self.ptr_at(i)
    }

    /// Returns a pointer to element `i` of the column vector, which has to lie within its bounds.
    pub fn ptr_in_bounds_at(self, i: usize) -> (r: Ptr<'a, T>)
        requires
            i < self@.len,
        ensures
            r@ == self@.ptr.offset(i * self@.stride),
            r@.at(0) == self@.at(i as int),
    {
        self.ptr_in_bounds_at_unchecked(i)
    }

    /// Splits the column vector into two parts in the following order: top, bottom.
    pub fn split_at_unchecked(self, i: usize) -> (r: (Self, Self))
        requires
            i <= self@.len,
        ensures
            r.0@ == self@.sub(0, i as nat),
            r.0@.len == i,
            r.1@.len == self@.len - i,
            r.1@ == self@.sub(i as int, (self@.len - i) as nat),
            forall|k: int| #[trigger] r.0@.at(k) == self@.at(k),
            forall|k: int| #[trigger] r.1@.at(k) == self@.at(i + k),
    {
        proof {
            self.ptr.lemma_position();
            lemma_ptr_offset(self@.ptr, 0, 0);
            lemma_vec_sub(self@, 0, i as nat);
            lemma_vec_sub(self@, i as int, (self@.len - i) as nat);
        }
        let row_stride = self.row_stride;
        let bot = self.ptr.clone().wrapping_strides(i, row_stride);
        (
            Self::from_raw_parts(self.ptr, i, row_stride),
            Self::from_raw_parts(bot, self.nrows - i, row_stride),
        )
    }

    /// Splits the column vector into two parts in the following order: top, bottom.
    pub fn split_at(self, i: usize) -> (r: (Self, Self))
        requires
            i <= self@.len,
        ensures
            r.0@ == self@.sub(0, i as nat),
            r.0@.len == i,
            r.1@.len == self@.len - i,
            r.1@ == self@.sub(i as int, (self@.len - i) as nat),
            forall|k: int| #[trigger] r.0@.at(k) == self@.at(k),
            forall|k: int| #[trigger] r.1@.at(k) == self@.at(i + k),
    {
        self.split_at_unchecked(i)
    }

    /// Returns element `i`.
    pub fn get_unchecked(self, i: usize) -> (r: &'a T)
        requires
            i < self@.len,
            self@.at(i as int) is Some,
        ensures
            Some(*r) == self@.at(i as int),
    {
        self.ptr_in_bounds_at_unchecked(i).as_ref()
    }

    /// Returns element `i`.
    pub fn get(self, i: usize) -> (r: &'a T)
        requires
            i < self@.len,
            self@.at(i as int) is Some,
        ensures
            Some(*r) == self@.at(i as int),
    {
        self.get_unchecked(i)
    }

    /// Returns an equivalent matrix view over the same data.
    pub fn as_2d(self) -> (r: MatRef<'a, T>)
        ensures
            r@ == self@.as_col(),
            r@.nrows == self@.len,
            r@.ncols == 1,
            forall|k: int| #[trigger] r@.at(k, 0) == self@.at(k),
    {
        proof {
            lemma_vec_as_matrix(self@);
        }
        MatRef::from_raw_parts(self.ptr, self.nrows, 1, self.row_stride, 0)
    }

    /// Returns the transpose of `self`.
    pub fn transpose(self) -> (r: RowRef<'a, T>)
        ensures
            r@ == self@,
    {
        RowRef::from_raw_parts(self.ptr, self.nrows, self.row_stride)
    }

    /// Returns the vector as the only one to be walked element by element.
    pub fn cwise(self) -> (r: ZipCol<(Self,)>)
        ensures
            r.tuple == (self,),
    {
        ZipCol { tuple: (self,) }
    }

    /// Returns an iterator over the elements of the column vector.
    pub fn into_iter(self) -> (r: ElemIter<'a, T>)
        ensures
            r@ == self@,
    {
        ElemIter::new(self)
    }

    /// Returns the same view, for as long as `self` is borrowed.
    pub fn rb<'b>(&'b self) -> (r: ColRef<'b, T>)
        ensures
            r@ == self@,
    {
        self.clone()
    }

    /// Returns the same view, for as long as `self` is borrowed.
    pub fn rb_mut<'b>(&'b mut self) -> (r: ColRef<'b, T>)
        ensures
            r@ == old(self)@,
            *final(self) == *old(self),
    {
        self.clone()
    }

    /// Returns the view, which is shared already.
    pub fn into_const(self) -> (r: ColRef<'a, T>)
        ensures
            r == self,
    {
        self
    }
}

impl<'a, T> Index<usize> for ColRef<'a, T> {
    type Output = T;

    fn index(&self, i: usize) -> (r: &T)
        ensures
            Some(*r) == self@.at(i as int),
    {
        self.rb().get(i)
    }
}

impl<'a, T> vstd::std_specs::core::IndexSpecImpl<usize> for ColRef<'a, T> {
    open spec fn index_req(&self, i: &usize) -> bool {
        *i < self@.len && self@.at(*i as int) is Some
    }
}

}
