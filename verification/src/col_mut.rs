//! Mutable column vector views.

use crate::row_mut::RowMut;
use crate::iter::ElemIterMut;
use crate::mat_mut::MatMut;
use crate::memory::PtrMut;
use crate::model::{
    lemma_mat_same_cells, lemma_ptr_offset, lemma_vec_alone, lemma_vec_as_matrix, lemma_vec_covers,
    law_split_vector_tiles, lemma_vec_sub, MatView, PtrView, VecView,
};
use crate::col_ref::ColRef;
use crate::word::stride_from;
use crate::zip::ZipCol;
use core::ops::Index;
use vstd::prelude::*;

verus! {

/// Mutable column vector view.
pub struct ColMut<'a, T> {
    ptr: PtrMut<'a, T>,
    nrows: usize,
    row_stride: isize,
}

impl<'a, T> View for ColMut<'a, T> {
    type V = VecView<&'a mut T>;

    closed spec fn view(&self) -> VecView<&'a mut T> {
        VecView { ptr: self.ptr@, len: self.nrows as nat, stride: self.row_stride as int }
    }
}

impl<'a, T> ColMut<'a, T> {
    /// Returns a mutable column vector view from the given arguments.
    /// `ptr`: pointer to the first element of the column vector.
    /// `nrows`: number of rows of the column vector.
    /// `row_stride`: offset between two successive rows of the column vector.
    pub fn from_raw_parts(ptr: PtrMut<'a, T>, nrows: usize, row_stride: isize) -> (r: Self)
        ensures
            r@ == (VecView { ptr: ptr@, len: nrows as nat, stride: row_stride as int }),
    {
        ColMut { ptr, nrows, row_stride }
    }

    /// The length and the stride are machine numbers, and the position is a word.
    pub proof fn law_machine_numbers(&self)
        ensures
            self@.machine_numbers(),
            self@.len <= usize::MAX,
    {
        self.ptr.lemma_position();
    }

    /// Once a view is no longer used, the cells of its memory keep their values.
    pub proof fn law_resolved(self)
        ensures
            has_resolved(self) ==> forall|p: int|
                0 <= p < self@.ptr.mem.len() && (#[trigger] self@.ptr.mem[p]) is Some ==> *final(
                    self@.ptr.mem[p]->0) == *self@.ptr.mem[p]->0,
    {
        self.ptr.law_resolved();
    }

    /// Returns a pointer to the first element of the column vector.
    pub fn as_ptr(self) -> (r: PtrMut<'a, T>)
        ensures
            r@ == self@.ptr,
    {
        self.ptr
    }

    /// Returns the number of rows of the column vector.
    pub fn nrows(&self) -> (r: usize)
        ensures
            r == self@.len,
    {
        self.nrows
    }

    /// Returns the number of columns of the column vector. Always returns `1`.
    pub fn ncols(&self) -> (r: usize)
        ensures
            r == 1,
    {
        1
    }

    /// Returns the offset between two successive rows of the column vector.
    pub fn row_stride(&self) -> (r: isize)
        ensures
            r == self@.stride,
    {
        self.row_stride
    }

    /// Returns a pointer to element `i` of the column vector.
    pub fn ptr_at(self, i: usize) -> (r: PtrMut<'a, T>)
        ensures
            r@ == self@.ptr.offset(i * self@.stride),
            r@.at(0) == self@.at(i as int),
    {
        proof {
            lemma_ptr_offset(self@.ptr, i * self@.stride, 0);
        }
        self.ptr.wrapping_strides(i, self.row_stride)
    }

    /// Returns a pointer to element `i` of the column vector, which has to lie within its bounds.
    pub fn ptr_in_bounds_at_unchecked(self, i: usize) -> (r: PtrMut<'a, T>)
        requires
            i < self@.len,
        ensures
            r@ == self@.ptr.offset(i * self@.stride),
            r@.at(0) == self@.at(i as int),
    {
        self.ptr_at(i)
    }

    /// Returns a pointer to element `i` of the column vector, which has to lie within its bounds.
    pub fn ptr_in_bounds_at(self, i: usize) -> (r: PtrMut<'a, T>)
        requires
            i < self@.len,
        ensures
            r@ == self@.ptr.offset(i * self@.stride),
            r@.at(0) == self@.at(i as int),
    {
        self.ptr_in_bounds_at_unchecked(i)
    }

    /// Takes the elements from `k` to `k + len` out of the memory, and returns them as a view.
    pub(crate) fn take(&mut self, k: usize, len: usize) -> (r: Self)
        requires
            k + len <= old(self)@.len,
        ensures
            r@ == old(self)@.sub(k as int, len as nat).alone(),
            final(self)@ == old(self)@.without(
                |p: int| old(self)@.sub(k as int, len as nat).covers(p),
            ),
    {
        let ghost v = self@.sub(k as int, len as nat);
        let pos = stride_from(self.ptr.position(), k, self.row_stride);
        let ptr = self.ptr.take_block(pos, len, 1, self.row_stride, 0);
        proof {
            let b = MatView {
                ptr: PtrView { mem: old(self)@.ptr.mem, pos: pos as int },
                nrows: len as nat,
                ncols: 1,
                row_stride: self.row_stride as int,
                col_stride: 0,
            };
            assert(b == v.as_col());
            lemma_vec_covers(v);
            assert(ptr@.mem =~= v.alone().ptr.mem);
            assert(self@.ptr.mem =~= old(self)@.without(|p: int| v.covers(p)).ptr.mem);
        }
        ColMut { ptr, nrows: len, row_stride: self.row_stride }
    }

    /// Keeps the `len` elements from element `k` on.
    pub(crate) fn narrow(&mut self, k: usize, len: usize)
        ensures
            final(self)@ == old(self)@.sub(k as int, len as nat),
    {
        self.ptr.advance(k, self.row_stride);
        self.nrows = len;
    }

    /// Splits the column vector into two parts in the following order: top, bottom. A cell that
    /// belongs to both parts goes to the first. Cells that are not elements keep their values.
    pub fn split_at_unchecked(self, i: usize) -> (r: (Self, Self))
        requires
            i <= self@.len,
        ensures
            r.0@.len == i,
            r.1@.len == self@.len - i,
            r.0@ == self@.sub(0, i as nat).alone(),
            r.1@ == self@.sub(i as int, (self@.len - i) as nat).without(
                |p: int| self@.sub(0, i as nat).covers(p),
            ).alone(),
            self@.no_alias() ==> r.1@ == self@.sub(i as int, (self@.len - i) as nat).alone(),
            forall|k: int| 0 <= k < i ==> #[trigger] r.0@.at(k) == self@.at(k),
            self@.no_alias() ==> forall|k: int|
                0 <= k < self@.len - i ==> #[trigger] r.1@.at(k) == self@.at(i + k),
            forall|p: int|
                0 <= p < self@.ptr.mem.len() && !self@.covers(p) && (
                #[trigger] self@.ptr.mem[p]) is Some ==> *final(self@.ptr.mem[p]->0)
                    == *self@.ptr.mem[p]->0,
    {
        let ghost v = self@;
        let mut this = self;
        let rest = this.nrows - i;
        let top = this.take(0, i);
        let ghost mid = this@;
        let bot = this.take(i, rest);
        proof {
            law_split_vector_tiles(v, i as nat);
            let a = v.sub(0, i as nat);
            let b = v.sub(i as int, rest as nat);
            let c = mid.sub(i as int, rest as nat);
            lemma_vec_covers(b);
            lemma_vec_covers(c);
            lemma_mat_same_cells(b.as_col(), c.as_col());
            assert(forall|p: int| #[trigger] c.as_col().covers(p) == b.as_col().covers(p));
            assert forall|p: int| #[trigger] c.covers(p) == b.covers(p) by {
                assert(c.as_col().covers(p) == b.as_col().covers(p));
            }
            let w = b.without(|p: int| a.covers(p));
            lemma_vec_covers(w);
            lemma_mat_same_cells(b.as_col(), w.as_col());
            assert forall|p: int| #[trigger] w.covers(p) == b.covers(p) by {
                assert(w.as_col().covers(p) == b.as_col().covers(p));
            }
            assert(c.alone().ptr.mem =~= w.alone().ptr.mem);
            if v.no_alias() {
                assert(w.alone().ptr.mem =~= b.alone().ptr.mem);
            }
            lemma_vec_alone(a);
            lemma_vec_alone(b);
            lemma_vec_sub(v, 0, i as nat);
            lemma_vec_sub(v, i as int, rest as nat);
            assert forall|p: int|
                0 <= p < v.ptr.mem.len() && !v.covers(p) && (
                #[trigger] v.ptr.mem[p]) is Some implies this@.ptr.mem[p] == v.ptr.mem[p] by {
                assert(!a.covers(p) && !b.covers(p));
            }
        }
        this.ptr.release();
        (top, bot)
    }

    /// Splits the column vector into two parts in the following order: top, bottom. A cell that
    /// belongs to both parts goes to the first. Cells that are not elements keep their values.
    pub fn split_at(self, i: usize) -> (r: (Self, Self))
        requires
            i <= self@.len,
        ensures
            r.0@.len == i,
            r.1@.len == self@.len - i,
            r.0@ == self@.sub(0, i as nat).alone(),
            r.1@ == self@.sub(i as int, (self@.len - i) as nat).without(
                |p: int| self@.sub(0, i as nat).covers(p),
            ).alone(),
            self@.no_alias() ==> r.1@ == self@.sub(i as int, (self@.len - i) as nat).alone(),
            forall|k: int| 0 <= k < i ==> #[trigger] r.0@.at(k) == self@.at(k),
            self@.no_alias() ==> forall|k: int|
                0 <= k < self@.len - i ==> #[trigger] r.1@.at(k) == self@.at(i + k),
            forall|p: int|
                0 <= p < self@.ptr.mem.len() && !self@.covers(p) && (
                #[trigger] self@.ptr.mem[p]) is Some ==> *final(self@.ptr.mem[p]->0)
                    == *self@.ptr.mem[p]->0,
    {
        self.split_at_unchecked(i)
    }

    /// Returns element `i`. The other cells keep their values.
    pub fn get_unchecked(self, i: usize) -> (r: &'a mut T)
        requires
            i < self@.len,
            self@.at(i as int) is Some,
        ensures
            Some(r) == self@.at(i as int),
            forall|p: int|
                0 <= p < self@.ptr.mem.len() && p != self@.addr(i as int) && (
                #[trigger] self@.ptr.mem[p]) is Some ==> *final(self@.ptr.mem[p]->0)
                    == *self@.ptr.mem[p]->0,
    {
        self.ptr_in_bounds_at_unchecked(i).as_mut()
    }

    /// Returns element `i`. The other cells keep their values.
    pub fn get(self, i: usize) -> (r: &'a mut T)
        requires
            i < self@.len,
            self@.at(i as int) is Some,
        ensures
            Some(r) == self@.at(i as int),
            forall|p: int|
                0 <= p < self@.ptr.mem.len() && p != self@.addr(i as int) && (
                #[trigger] self@.ptr.mem[p]) is Some ==> *final(self@.ptr.mem[p]->0)
                    == *self@.ptr.mem[p]->0,
    {
        self.get_unchecked(i)
    }

    /// Returns an equivalent matrix view over the same data.
    pub fn as_2d(self) -> (r: MatMut<'a, T>)
        ensures
            r@ == self@.as_col(),
            r@.nrows == self@.len,
            r@.ncols == 1,
            forall|k: int| #[trigger] r@.at(k, 0) == self@.at(k),
    {
        proof {
            lemma_vec_as_matrix(self@);
        }
        MatMut::from_raw_parts(self.ptr, self.nrows, 1, self.row_stride, 0)
    }

    /// Returns the transpose of `self`.
    pub fn transpose(self) -> (r: RowMut<'a, T>)
        ensures
            r@ == self@,
    {
        RowMut::from_raw_parts(self.ptr, self.nrows, self.row_stride)
    }

    /// Returns the vector as the only one to be walked element by element.
    pub fn cwise(self) -> (r: ZipCol<(Self,)>)
        ensures
            r.tuple == (self,),
    {
        ZipCol { tuple: (self,) }
    }

    /// Returns an iterator over the elements of the column vector.
    pub fn into_iter(self) -> (r: ElemIterMut<'a, T>)
        ensures
            r@ == self@,
    {
        ElemIterMut::new(self)
    }

    /// Shares the view for as long as `self` is borrowed.
    pub fn rb<'b>(&'b self) -> (r: ColRef<'b, T>)
        ensures
            r@ == self@.now(),
            r@.len == self@.len,
    {
        ColRef::from_raw_parts(self.ptr.rb(), self.nrows, self.row_stride)
    }

    /// Lends the view out for as long as `self` is borrowed. What the loan leaves in a cell is
    /// what the cell then holds.
    pub fn rb_mut<'b>(&'b mut self) -> (r: ColMut<'b, T>)
        ensures
            r@ == (VecView { ptr: r@.ptr, len: old(self)@.len, stride: old(self)@.stride }),
            final(self)@ == (VecView { ptr: final(self)@.ptr, ..old(self)@ }),
            r@.ptr.pos == old(self)@.ptr.pos,
            final(self)@.ptr.pos == old(self)@.ptr.pos,
            r@.ptr.mem.len() == old(self)@.ptr.mem.len(),
            final(self)@.ptr.mem.len() == old(self)@.ptr.mem.len(),
            forall|p: int|
                #![trigger r@.ptr.mem[p]]
                #![trigger final(self)@.ptr.mem[p]]
                0 <= p < r@.ptr.mem.len() ==> match old(self)@.ptr.mem[p] {
                    Some(x) => {
                        &&& r@.ptr.mem[p] is Some
                        &&& *r@.ptr.mem[p]->0 == *x
                        &&& final(self)@.ptr.mem[p] is Some
                        &&& *final(self)@.ptr.mem[p]->0 == *final(r@.ptr.mem[p]->0)
                        &&& *final(final(self)@.ptr.mem[p]->0) == *final(x)
                    },
                    None => r@.ptr.mem[p] is None && final(self)@.ptr.mem[p] is None,
                },
    {
        let nrows = self.nrows;
        let row_stride = self.row_stride;
        ColMut::from_raw_parts(self.ptr.rb_mut(), nrows, row_stride)
    }

    /// Gives up exclusive access. The cells keep their values.
    pub fn into_const(self) -> (r: ColRef<'a, T>)
        ensures
            r@ == self@.now(),
            r@.len == self@.len,
            forall|p: int|
                0 <= p < self@.ptr.mem.len() && (#[trigger] self@.ptr.mem[p]) is Some ==> *final(
                    self@.ptr.mem[p]->0) == *self@.ptr.mem[p]->0,
    {
        ColRef::from_raw_parts(self.ptr.into_const(), self.nrows, self.row_stride)
    }

    /// Returns element `i` for as long as `self` is borrowed. The other cells keep their values.
    pub fn index_mut<'b>(&'b mut self, i: usize) -> (r: &'b mut T)
        requires
            i < old(self)@.len,
            old(self)@.at(i as int) is Some,
        ensures
            *r == *old(self)@.at(i as int)->0,
            final(self)@ == (VecView { ptr: final(self)@.ptr, ..old(self)@ }),
            final(self)@.ptr.pos == old(self)@.ptr.pos,
            final(self)@.ptr.mem.len() == old(self)@.ptr.mem.len(),
            forall|p: int|
                0 <= p < old(self)@.ptr.mem.len() ==> match old(self)@.ptr.mem[p] {
                    Some(x) => (#[trigger] final(self)@.ptr.mem[p]) is Some && *final(
                        final(self)@.ptr.mem[p]->0) == *final(x) && *final(self)@.ptr.mem[p]->0
                        == if p == old(self)@.addr(i as int) {
                        *final(r)
                    } else {
                        *x
                    },
                    None => final(self)@.ptr.mem[p] is None,
                },
    {
        self.rb_mut().get(i)
    }
}

impl<'a, T> Index<usize> for ColMut<'a, T> {
    type Output = T;

    fn index(&self, i: usize) -> (r: &T)
        ensures
            *r == *self@.at(i as int)->0,
    {
        self.rb().get(i)
    }
}

impl<'a, T> vstd::std_specs::core::IndexSpecImpl<usize> for ColMut<'a, T> {
    open spec fn index_req(&self, i: &usize) -> bool {
        *i < self@.len && self@.at(*i as int) is Some
    }
}

}
