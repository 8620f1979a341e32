//! Mutable row vector views.

use crate::col_mut::ColMut;
use crate::iter::ElemIterMut;
use crate::mat_mut::MatMut;
use crate::memory::PtrMut;
use crate::model::{
    lemma_mat_same_cells, lemma_ptr_offset, lemma_vec_alone, lemma_vec_as_matrix, lemma_vec_covers,
    law_split_vector_tiles, lemma_vec_sub, MatView, PtrView, VecView,
};
use crate::row_ref::RowRef;
use crate::word::stride_from;
use crate::zip::ZipRow;
use core::ops::Index;
use vstd::prelude::*;

verus! {

/// Mutable row vector view.
pub struct RowMut<'a, T> {
    ptr: PtrMut<'a, T>,
    ncols: usize,
    col_stride: isize,
}

impl<'a, T> View for RowMut<'a, T> {
    type V = VecView<&'a mut T>;

    closed spec fn view(&self) -> VecView<&'a mut T> {
        VecView { ptr: self.ptr@, len: self.ncols as nat, stride: self.col_stride as int }
    }
}

impl<'a, T> RowMut<'a, T> {
    /// Returns a mutable row vector view from the given arguments.
    /// `ptr`: pointer to the first element of the row vector.
    /// `ncols`: number of columns of the row vector.
    /// `col_stride`: offset between two successive columns of the row vector.
    pub fn from_raw_parts(ptr: PtrMut<'a, T>, ncols: usize, col_stride: isize) -> (r: Self)
        ensures
            r@ == (VecView { ptr: ptr@, len: ncols as nat, stride: col_stride as int }),
    {
        RowMut { ptr, ncols, col_stride }
    }

    /// The length and the stride are machine numbers, and the position is a word.
    pub proof fn law_machine_numbers(&self)
        ensures
            self@.machine_numbers(),
            self@.len <= usize::MAX,
    {
        self.ptr.lemma_position();
    }

    /// Once a view is no longer used, the cells of its memory keep their values.
    pub proof fn law_resolved(self)
        ensures
            has_resolved(self) ==> forall|p: int|
                0 <= p < self@.ptr.mem.len() && (#[trigger] self@.ptr.mem[p]) is Some ==> *final(
                    self@.ptr.mem[p]->0) == *self@.ptr.mem[p]->0,
    {
        self.ptr.law_resolved();
    }

    /// Returns a pointer to the first element of the row vector.
    pub fn as_ptr(self) -> (r: PtrMut<'a, T>)
        ensures
            r@ == self@.ptr,
    {
        self.ptr
    }

    /// Returns the number of rows of the row vector. Always returns `1`.
    pub fn nrows(&self) -> (r: usize)
        ensures
            r == 1,
    {
        1
    }

    /// Returns the number of columns of the row vector.
    pub fn ncols(&self) -> (r: usize)
        ensures
            r == self@.len,
    {
        self.ncols
    }

    /// Returns the offset between two successive columns of the row vector.
    pub fn col_stride(&self) -> (r: isize)
        ensures
            r == self@.stride,
    {
        self.col_stride
    }

    /// Returns a pointer to element `j` of the row vector.
    pub fn ptr_at(self, j: usize) -> (r: PtrMut<'a, T>)
        ensures
            r@ == self@.ptr.offset(j * self@.stride),
            r@.at(0) == self@.at(j as int),
    {
        proof {
            lemma_ptr_offset(self@.ptr, j * self@.stride, 0);
        }
        self.ptr.wrapping_strides(j, self.col_stride)
    }

    /// Returns a pointer to element `j` of the row vector, which has to lie within its bounds.
    pub fn ptr_in_bounds_at_unchecked(self, j: usize) -> (r: PtrMut<'a, T>)
        requires
            j < self@.len,
        ensures
            r@ == self@.ptr.offset(j * self@.stride),
            r@.at(0) == self@.at(j as int),
    {
        self.ptr_at(j)
    }

    /// Returns a pointer to element `j` of the row vector, which has to lie within its bounds.
    pub fn ptr_in_bounds_at(self, j: usize) -> (r: PtrMut<'a, T>)
        requires
            j < self@.len,
        ensures
            r@ == self@.ptr.offset(j * self@.stride),
            r@.at(0) == self@.at(j as int),
    {
        self.ptr_in_bounds_at_unchecked(j)
    }

    /// Takes the elements from `k` to `k + len` out of the memory, and returns them as a view.
    pub(crate) fn take(&mut self, k: usize, len: usize) -> (r: Self)
        requires
            k + len <= old(self)@.len,
        ensures
            r@ == old(self)@.sub(k as int, len as nat).alone(),
            final(self)@ == old(self)@.without(
                |p: int| old(self)@.sub(k as int, len as nat).covers(p),
            ),
    {
        let ghost v = self@.sub(k as int, len as nat);
        let pos = stride_from(self.ptr.position(), k, self.col_stride);
        let ptr = self.ptr.take_block(pos, len, 1, self.col_stride, 0);
        proof {
            let b = MatView {
                ptr: PtrView { mem: old(self)@.ptr.mem, pos: pos as int },
                nrows: len as nat,
                ncols: 1,
                row_stride: self.col_stride as int,
                col_stride: 0,
            };
            assert(b == v.as_col());
            lemma_vec_covers(v);
            assert(ptr@.mem =~= v.alone().ptr.mem);
            assert(self@.ptr.mem =~= old(self)@.without(|p: int| v.covers(p)).ptr.mem);
        }
        RowMut { ptr, ncols: len, col_stride: self.col_stride }
    }

    /// Splits the row vector into two parts in the following order: left, right. A cell that
    /// belongs to both parts goes to the first. Cells that are not elements keep their values.
    pub fn split_at_unchecked(self, j: usize) -> (r: (Self, Self))
        requires
            j <= self@.len,
        ensures
            r.0@.len == j,
            r.1@.len == self@.len - j,
            r.0@ == self@.sub(0, j as nat).alone(),
            r.1@ == self@.sub(j as int, (self@.len - j) as nat).without(
                |p: int| self@.sub(0, j as nat).covers(p),
            ).alone(),
            self@.no_alias() ==> r.1@ == self@.sub(j as int, (self@.len - j) as nat).alone(),
            forall|k: int| 0 <= k < j ==> #[trigger] r.0@.at(k) == self@.at(k),
            self@.no_alias() ==> forall|k: int|
                0 <= k < self@.len - j ==> #[trigger] r.1@.at(k) == self@.at(j + k),
            forall|p: int|
                0 <= p < self@.ptr.mem.len() && !self@.covers(p) && (
                #[trigger] self@.ptr.mem[p]) is Some ==> *final(self@.ptr.mem[p]->0)
                    == *self@.ptr.mem[p]->0,
    {
        let ghost v = self@;
        let mut this = self;
        let rest = this.ncols - j;
        let left = this.take(0, j);
        let ghost mid = this@;
        let right = this.take(j, rest);
        proof {
            law_split_vector_tiles(v, j as nat);
            let a = v.sub(0, j as nat);
            let b = v.sub(j as int, rest as nat);
            let c = mid.sub(j as int, rest as nat);
            lemma_vec_covers(b);
            lemma_vec_covers(c);
            lemma_mat_same_cells(b.as_col(), c.as_col());
            assert(forall|p: int| #[trigger] c.as_col().covers(p) == b.as_col().covers(p));
            assert forall|p: int| #[trigger] c.covers(p) == b.covers(p) by {
                assert(c.as_col().covers(p) == b.as_col().covers(p));
            }
            let w = b.without(|p: int| a.covers(p));
            lemma_vec_covers(w);
            lemma_mat_same_cells(b.as_col(), w.as_col());
            assert forall|p: int| #[trigger] w.covers(p) == b.covers(p) by {
                assert(w.as_col().covers(p) == b.as_col().covers(p));
            }
            assert(c.alone().ptr.mem =~= w.alone().ptr.mem);
            if v.no_alias() {
                assert(w.alone().ptr.mem =~= b.alone().ptr.mem);
            }
            lemma_vec_alone(a);
            lemma_vec_alone(b);
            lemma_vec_sub(v, 0, j as nat);
            lemma_vec_sub(v, j as int, rest as nat);
            assert forall|p: int|
                0 <= p < v.ptr.mem.len() && !v.covers(p) && (
                #[trigger] v.ptr.mem[p]) is Some implies this@.ptr.mem[p] == v.ptr.mem[p] by {
                assert(!a.covers(p) && !b.covers(p));
            }
        }
        this.ptr.release();
        (left, right)
    }

    /// Splits the row vector into two parts in the following order: left, right. A cell that
    /// belongs to both parts goes to the first. Cells that are not elements keep their values.
    pub fn split_at(self, j: usize) -> (r: (Self, Self))
        requires
            j <= self@.len,
        ensures
            r.0@.len == j,
            r.1@.len == self@.len - j,
            r.0@ == self@.sub(0, j as nat).alone(),
            r.1@ == self@.sub(j as int, (self@.len - j) as nat).without(
                |p: int| self@.sub(0, j as nat).covers(p),
            ).alone(),
            self@.no_alias() ==> r.1@ == self@.sub(j as int, (self@.len - j) as nat).alone(),
            forall|k: int| 0 <= k < j ==> #[trigger] r.0@.at(k) == self@.at(k),
            self@.no_alias() ==> forall|k: int|
                0 <= k < self@.len - j ==> #[trigger] r.1@.at(k) == self@.at(j + k),
            forall|p: int|
                0 <= p < self@.ptr.mem.len() && !self@.covers(p) && (
                #[trigger] self@.ptr.mem[p]) is Some ==> *final(self@.ptr.mem[p]->0)
                    == *self@.ptr.mem[p]->0,
    {
        self.split_at_unchecked(j)
    }

    /// Returns element `j`. The other cells keep their values.
    pub fn get_unchecked(self, j: usize) -> (r: &'a mut T)
        requires
            j < self@.len,
            self@.at(j as int) is Some,
        ensures
            Some(r) == self@.at(j as int),
            forall|p: int|
                0 <= p < self@.ptr.mem.len() && p != self@.addr(j as int) && (
                #[trigger] self@.ptr.mem[p]) is Some ==> *final(self@.ptr.mem[p]->0)
                    == *self@.ptr.mem[p]->0,
    {
        self.ptr_in_bounds_at_unchecked(j).as_mut()
    }

    /// Returns element `j`. The other cells keep their values.
    pub fn get(self, j: usize) -> (r: &'a mut T)
        requires
            j < self@.len,
            self@.at(j as int) is Some,
        ensures
            Some(r) == self@.at(j as int),
            forall|p: int|
                0 <= p < self@.ptr.mem.len() && p != self@.addr(j as int) && (
                #[trigger] self@.ptr.mem[p]) is Some ==> *final(self@.ptr.mem[p]->0)
                    == *self@.ptr.mem[p]->0,
    {
        self.get_unchecked(j)
    }

    /// Returns an equivalent matrix view over the same data.
    pub fn as_2d(self) -> (r: MatMut<'a, T>)
        ensures
            r@ == self@.as_row(),
            r@.nrows == 1,
            r@.ncols == self@.len,
            forall|k: int| #[trigger] r@.at(0, k) == self@.at(k),
    {
        proof {
            lemma_vec_as_matrix(self@);
        }
        MatMut::from_raw_parts(self.ptr, 1, self.ncols, 0, self.col_stride)
    }

    /// Returns the transpose of `self`.
    pub fn transpose(self) -> (r: ColMut<'a, T>)
        ensures
            r@ == self@,
    {
        ColMut::from_raw_parts(self.ptr, self.ncols, self.col_stride)
    }

    /// Returns the vector as the only one to be walked element by element.
    pub fn cwise(self) -> (r: ZipRow<(Self,)>)
        ensures
            r.tuple == (self,),
    {
        ZipRow { tuple: (self,) }
    }

    /// Returns an iterator over the elements of the row vector.
    pub fn into_iter(self) -> (r: ElemIterMut<'a, T>)
        ensures
            r@ == self@,
    {
        ElemIterMut::new(self.transpose())
    }

    /// Shares the view for as long as `self` is borrowed.
    pub fn rb<'b>(&'b self) -> (r: RowRef<'b, T>)
        ensures
            r@ == self@.now(),
            r@.len == self@.len,
    {
        RowRef::from_raw_parts(self.ptr.rb(), self.ncols, self.col_stride)
    }

    /// Lends the view out for as long as `self` is borrowed. What the loan leaves in a cell is
    /// what the cell then holds.
    pub fn rb_mut<'b>(&'b mut self) -> (r: RowMut<'b, T>)
        ensures
            r@ == (VecView { ptr: r@.ptr, len: old(self)@.len, stride: old(self)@.stride }),
            final(self)@ == (VecView { ptr: final(self)@.ptr, ..old(self)@ }),
            r@.ptr.pos == old(self)@.ptr.pos,
            final(self)@.ptr.pos == old(self)@.ptr.pos,
            r@.ptr.mem.len() == old(self)@.ptr.mem.len(),
            final(self)@.ptr.mem.len() == old(self)@.ptr.mem.len(),
            forall|p: int|
                #![trigger r@.ptr.mem[p]]
                #![trigger final(self)@.ptr.mem[p]]
                0 <= p < r@.ptr.mem.len() ==> match old(self)@.ptr.mem[p] {
                    Some(x) => {
                        &&& r@.ptr.mem[p] is Some
                        &&& *r@.ptr.mem[p]->0 == *x
                        &&& final(self)@.ptr.mem[p] is Some
                        &&& *final(self)@.ptr.mem[p]->0 == *final(r@.ptr.mem[p]->0)
                        &&& *final(final(self)@.ptr.mem[p]->0) == *final(x)
                    },
                    None => r@.ptr.mem[p] is None && final(self)@.ptr.mem[p] is None,
                },
    {
        let ncols = self.ncols;
        let col_stride = self.col_stride;
        RowMut::from_raw_parts(self.ptr.rb_mut(), ncols, col_stride)
    }

    /// Gives up exclusive access. The cells keep their values.
    pub fn into_const(self) -> (r: RowRef<'a, T>)
        ensures
            r@ == self@.now(),
            r@.len == self@.len,
            forall|p: int|
                0 <= p < self@.ptr.mem.len() && (#[trigger] self@.ptr.mem[p]) is Some ==> *final(
                    self@.ptr.mem[p]->0) == *self@.ptr.mem[p]->0,
    {
        RowRef::from_raw_parts(self.ptr.into_const(), self.ncols, self.col_stride)
    }

    /// Returns element `j` for as long as `self` is borrowed. The other cells keep their values.
    pub fn index_mut<'b>(&'b mut self, j: usize) -> (r: &'b mut T)
        requires
            j < old(self)@.len,
            old(self)@.at(j as int) is Some,
        ensures
            *r == *old(self)@.at(j as int)->0,
            final(self)@ == (VecView { ptr: final(self)@.ptr, ..old(self)@ }),
            final(self)@.ptr.pos == old(self)@.ptr.pos,
            final(self)@.ptr.mem.len() == old(self)@.ptr.mem.len(),
            forall|p: int|
                0 <= p < old(self)@.ptr.mem.len() ==> match old(self)@.ptr.mem[p] {
                    Some(x) => (#[trigger] final(self)@.ptr.mem[p]) is Some && *final(
                        final(self)@.ptr.mem[p]->0) == *final(x) && *final(self)@.ptr.mem[p]->0
                        == if p == old(self)@.addr(j as int) {
                        *final(r)
                    } else {
                        *x
                    },
                    None => final(self)@.ptr.mem[p] is None,
                },
    {
        self.rb_mut().get(j)
    }
}

impl<'a, T> Index<usize> for RowMut<'a, T> {
    type Output = T;

    fn index(&self, j: usize) -> (r: &T)
        ensures
            *r == *self@.at(j as int)->0,
    {
        self.rb().get(j)
    }
}

impl<'a, T> vstd::std_specs::core::IndexSpecImpl<usize> for RowMut<'a, T> {
    open spec fn index_req(&self, j: &usize) -> bool {
        *j < self@.len && self@.at(*j as int) is Some
    }
}

}
