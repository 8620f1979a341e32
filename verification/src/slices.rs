//! Matrix views over slices.

use crate::mat_mut::MatMut;
use crate::memory::PtrMut;
use crate::model::MatView;
use crate::word::{signed, signed_word};
use vstd::prelude::*;

verus! {

/// Returns a pointer to the first of the cells that hold the elements of `slice`.
pub fn as_uninit<'a, T>(slice: &'a mut [T]) -> (r: PtrMut<'a, T>)
    ensures
        r@.pos == 0,
        r@.mem.len() == old(slice)@.len(),
        final(slice)@.len() == old(slice)@.len(),
        forall|k: int|
            #![trigger r@.mem[k]]
            #![trigger final(slice)@[k]]
            0 <= k < r@.mem.len() ==> r@.mem[k] is Some && *r@.mem[k]->0 == old(slice)@[k]
                && *final(r@.mem[k]->0) == final(slice)@[k],
{
    PtrMut::from_slice(slice)
}

/// Returns a mutable matrix view over the elements of `slice`, the first of which is the first
/// element of the matrix. What the view leaves in a cell is what the slice then holds.
pub fn from_mut_slice<'a, T>(
    slice: &'a mut [T],
    nrows: usize,
    ncols: usize,
    row_stride: usize,
    col_stride: usize,
) -> (r: MatMut<'a, T>)
    ensures
        r@ == (MatView {
            ptr: r@.ptr,
            nrows: nrows as nat,
            ncols: ncols as nat,
            row_stride: signed(row_stride as int),
            col_stride: signed(col_stride as int),
        }),
        r@.ptr.pos == 0,
        r@.ptr.mem.len() == old(slice)@.len(),
        final(slice)@.len() == old(slice)@.len(),
        forall|k: int|
            #![trigger r@.ptr.mem[k]]
            #![trigger final(slice)@[k]]
            0 <= k < r@.ptr.mem.len() ==> r@.ptr.mem[k] is Some && *r@.ptr.mem[k]->0 == old(
                slice)@[k] && *final(r@.ptr.mem[k]->0) == final(slice)@[k],
{
    from_uninit_mut_slice(as_uninit(slice), nrows, ncols, row_stride, col_stride)
}

/// Returns a mutable matrix view over the cells that `slice` points to, the first of which is the
/// first element of the matrix. A cell that holds nothing is no readable element.
pub fn from_uninit_mut_slice<'a, T>(
    slice: PtrMut<'a, T>,
    nrows: usize,
    ncols: usize,
    row_stride: usize,
    col_stride: usize,
) -> (r: MatMut<'a, T>)
    ensures
        r@ == (MatView {
            ptr: slice@,
            nrows: nrows as nat,
            ncols: ncols as nat,
            row_stride: signed(row_stride as int),
            col_stride: signed(col_stride as int),
        }),
{
    MatMut::from_raw_parts(slice, nrows, ncols, signed_word(row_stride), signed_word(col_stride))
}

}
