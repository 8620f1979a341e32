//! Views over the real and the imaginary parts of complex elements.
//!
//! A complex number takes up two cells: the first holds the real part, and the second the imaginary
//! part.

use crate::col_mut::ColMut;
use crate::col_ref::ColRef;
use crate::mat_mut::MatMut;
use crate::mat_ref::MatRef;
use crate::memory::{values, Ptr, PtrMut};
use crate::model::{lemma_vec_as_matrix, MatView, PtrView, VecView};
use crate::row_mut::RowMut;
use crate::row_ref::RowRef;
use crate::word::{
    double_word, lemma_wrap_affine, lemma_wrap_split, lemma_wrap_stable, signed, stride_from, wrap,
};
use num_complex::Complex;
use vstd::prelude::*;

verus! {

/// `num_complex::Complex`: a pair of the public fields `re` and `im`, and nothing else.
#[verifier::external_type_specification]
pub struct ExComplex<T>(Complex<T>);

/// The cells of the parts: each complex cell becomes two.
pub open spec fn interleaved<T>(mem: Seq<Option<Complex<T>>>) -> Seq<Option<T>> {
    Seq::new(
        2 * mem.len(),
        |p: int|
            match mem[p / 2] {
                Some(z) => Some(
                    if p % 2 == 0 {
                        z.re
                    } else {
                        z.im
                    },
                ),
                None => None,
            },
    )
}

/// The vector that begins at cell `part` of the first element, with strides over the cells of the
/// parts, in the memory `mem`.
pub open spec fn vec_part<E, F>(v: VecView<E>, mem: Seq<Option<F>>, part: int) -> VecView<F> {
    VecView {
        ptr: PtrView { mem, pos: wrap(2 * v.ptr.pos + part) },
        len: v.len,
        stride: signed(2 * v.stride),
    }
}

/// The matrix that begins at cell `part` of the first element, with strides over the cells of the
/// parts, in the memory `mem`.
pub open spec fn mat_part<E, F>(m: MatView<E>, mem: Seq<Option<F>>, part: int) -> MatView<F> {
    MatView {
        ptr: PtrView { mem, pos: wrap(2 * m.ptr.pos + part) },
        nrows: m.nrows,
        ncols: m.ncols,
        row_stride: signed(2 * m.row_stride),
        col_stride: signed(2 * m.col_stride),
    }
}

/// A part of an element in memory lies in the first or the second of the two cells of the element.
proof fn lemma_mat_part_addr<E, F>(m: MatView<E>, mem: Seq<Option<F>>, part: int, i: int, j: int)
    requires
        0 <= part < 2,
        2 * m.ptr.mem.len() <= usize::MAX,
        m.addr(i, j) < m.ptr.mem.len(),
    ensures
        mat_part(m, mem, part).addr(i, j) == 2 * m.addr(i, j) + part,
{
    let r = m.row_stride;
    let c = m.col_stride;
    let p = m.ptr.pos + i * r + j * c;
    lemma_wrap_stable(p);
    lemma_wrap_stable(2 * m.ptr.pos + part);
    lemma_wrap_stable(2 * r);
    lemma_wrap_stable(2 * c);
    lemma_wrap_affine(
        wrap(2 * m.ptr.pos + part),
        signed(2 * r),
        signed(2 * c),
        2 * m.ptr.pos + part,
        2 * r,
        2 * c,
        i,
        j,
    );
    assert(2 * m.ptr.pos + part + i * (2 * r) + j * (2 * c) == part + 2 * p) by (nonlinear_arith)
        requires
            p == m.ptr.pos + i * r + j * c,
    ;
    lemma_wrap_affine(part, wrap(p), 0, part, p, 0, 2, 0);
    let _ = lemma_wrap_split(p);
    lemma_wrap_stable(part + 2 * wrap(p));
}

/// A part of an element in memory lies in the first or the second of the two cells of the element.
proof fn lemma_vec_part_addr<E, F>(v: VecView<E>, mem: Seq<Option<F>>, part: int, k: int)
    requires
        0 <= part < 2,
        2 * v.ptr.mem.len() <= usize::MAX,
        v.addr(k) < v.ptr.mem.len(),
    ensures
        vec_part(v, mem, part).addr(k) == 2 * v.addr(k) + part,
{
    let m = v.as_col();
    lemma_vec_as_matrix(v);
    lemma_wrap_stable(0);
    lemma_mat_part_addr(m, mem, part, k, 0);
    assert(mat_part(m, mem, part).addr(k, 0) == vec_part(v, mem, part).addr(k));
}

impl<'a, T> Ptr<'a, Complex<T>> {
    /// Returns a pointer to the real part and a pointer to the imaginary part, for as long as both
    /// parts of the memory fit the address space.
    pub fn into_real_imag(self) -> (r: (Ptr<'a, T>, Ptr<'a, T>))
        requires
            2 * self@.mem.len() <= usize::MAX,
        ensures
            r.0@ == (PtrView { mem: interleaved(self@.mem), pos: wrap(2 * self@.pos) }),
            r.1@ == (PtrView { mem: interleaved(self@.mem), pos: wrap(2 * self@.pos + 1) }),
    {
        let ghost mem = self@.mem;
        let (given, pos) = self.into_parts();
        let mut cells: Vec<Option<&'a T>> = Vec::new();
        let mut k: usize = 0;
        while k < given.len()
            invariant
                k <= given@.len(),
                mem == values(given@),
                cells@.len() == 2 * k,
                forall|p: int|
                    0 <= p < 2 * k ==> match #[trigger] cells@[p] {
                        Some(x) => interleaved(mem)[p] == Some(*x),
                        None => interleaved(mem)[p] is None,
                    },
            decreases given@.len() - k,
        {
            match given[k] {
                Some(z) => {
                    cells.push(Some(&z.re));
                    cells.push(Some(&z.im));
                },
                None => {
                    cells.push(None);
                    cells.push(None);
                },
            }
            k += 1;
        }
        proof {
            assert(values(cells@) =~= interleaved(mem));
            lemma_wrap_stable(2 * pos);
            lemma_wrap_affine(wrap(2 * pos), 1, 0, 2 * pos, 1, 0, 1, 0);
            lemma_wrap_affine(0, pos as int, 0, 0, pos as int, 0, 2, 0);
        }
        let pos_re = stride_from(pos, pos, 1);
        let pos_im = stride_from(pos_re, 1, 1);
        let re = Ptr::from_parts(cells, pos_re);
        let (cells, _) = re.clone().into_parts();
        (re, Ptr::from_parts(cells, pos_im))
    }
}

impl<'a, T> PtrMut<'a, Complex<T>> {
    /// Returns a pointer to the real part and a pointer to the imaginary part, for as long as both
    /// parts of the memory fit the address space. What the pointers leave in the two cells of an
    /// element is what the element then holds.
    pub fn into_real_imag(self) -> (r: (PtrMut<'a, T>, PtrMut<'a, T>))
        requires
            2 * self@.mem.len() <= usize::MAX,
        ensures
            r.0@.pos == wrap(2 * self@.pos),
            r.1@.pos == wrap(2 * self@.pos + 1),
            r.0@.mem.len() == 2 * self@.mem.len(),
            r.1@.mem.len() == 2 * self@.mem.len(),
            forall|k: int|
                0 <= k < self@.mem.len() ==> r.0@.mem[2 * k + 1] is None && r.1@.mem[2 * k] is None
                    && match #[trigger] self@.mem[k] {
                    Some(z) => {
                        &&& r.0@.mem[2 * k] is Some
                        &&& r.1@.mem[2 * k + 1] is Some
                        &&& *r.0@.mem[2 * k]->0 == z.re
                        &&& *r.1@.mem[2 * k + 1]->0 == z.im
                        &&& final(z).re == *final(r.0@.mem[2 * k]->0)
                        &&& final(z).im == *final(r.1@.mem[2 * k + 1]->0)
                    },
                    None => r.0@.mem[2 * k] is None && r.1@.mem[2 * k + 1] is None,
                },
    {
        let (given, pos) = self.into_parts();
        let ghost mem = given@;
        let n = given.len();
        let mut left = given;
        let mut re: Vec<Option<&'a mut T>> = Vec::new();
        let mut im: Vec<Option<&'a mut T>> = Vec::new();
        while re.len() < 2 * n
            invariant
                2 * n <= usize::MAX,
                re@.len() <= 2 * n,
                re@.len() == im@.len(),
                forall|p: int| 0 <= p < re@.len() ==> (#[trigger] re@[p]) is None,
                forall|p: int| 0 <= p < im@.len() ==> (#[trigger] im@[p]) is None,
            decreases 2 * n - re@.len(),
        {
            re.push(None);
            im.push(None);
        }
        while left.len() > 0
            invariant
                2 * n <= usize::MAX,
                n == mem.len(),
                left@.len() <= n,
                left@ == mem.subrange(0, left@.len() as int),
                re@.len() == 2 * n,
                im@.len() == 2 * n,
                forall|p: int| 0 <= p < 2 * left@.len() ==> (#[trigger] re@[p]) is None,
                forall|p: int| 0 <= p < 2 * left@.len() ==> (#[trigger] im@[p]) is None,
                forall|k: int|
                    left@.len() <= k < n ==> re@[2 * k + 1] is None && im@[2 * k] is None
                        && match #[trigger] mem[k] {
                        Some(z) => {
                            &&& re@[2 * k] is Some
                            &&& im@[2 * k + 1] is Some
                            &&& *re@[2 * k]->0 == z.re
                            &&& *im@[2 * k + 1]->0 == z.im
                            &&& final(z).re == *final(re@[2 * k]->0)
                            &&& final(z).im == *final(im@[2 * k + 1]->0)
                        },
                        None => re@[2 * k] is None && im@[2 * k + 1] is None,
                    },
            decreases left@.len(),
        {
            let cell = left.pop().unwrap();
            let k = left.len();
            match cell {
                Some(z) => {
                    let z_re: &'a mut T = &mut z.re;
                    let z_im: &'a mut T = &mut z.im;
                    re.set(2 * k, Some(z_re));
                    im.set(2 * k + 1, Some(z_im));
                },
                None => {},
            }
        }
        proof {
            lemma_wrap_stable(2 * pos);
            lemma_wrap_affine(wrap(2 * pos), 1, 0, 2 * pos, 1, 0, 1, 0);
        }
        let pos_re = stride_from(pos, pos, 1);
        let pos_im = stride_from(pos_re, 1, 1);
        (PtrMut::from_parts(re, pos_re), PtrMut::from_parts(im, pos_im))
    }
}

impl<'a, T> MatRef<'a, Complex<T>> {
    /// Returns a view over the real parts and a view over the imaginary parts.
    pub fn into_real_imag(self) -> (r: (MatRef<'a, T>, MatRef<'a, T>))
        requires
            2 * self@.ptr.mem.len() <= usize::MAX,
        ensures
            r.0@ == mat_part(self@, interleaved(self@.ptr.mem), 0),
            r.1@ == mat_part(self@, interleaved(self@.ptr.mem), 1),
            r.0@.nrows == self@.nrows,
            r.0@.ncols == self@.ncols,
            r.1@.nrows == self@.nrows,
            r.1@.ncols == self@.ncols,
            forall|i: int, j: int|
                #![trigger r.0@.at(i, j)]
                #![trigger r.1@.at(i, j)]
                #![trigger self@.at(i, j)]
                self@.at(i, j) matches Some(z) ==> r.0@.at(i, j) == Some(z.re) && r.1@.at(i, j)
                    == Some(z.im),
    {
        proof {
            let v = self@;
            let mem = interleaved(v.ptr.mem);
            assert forall|i: int, j: int| v.at(i, j) is Some implies #[trigger] mat_part(
                v,
                mem,
                0,
            ).at(i, j) == Some(v.at(i, j)->0.re) && #[trigger] mat_part(v, mem, 1).at(i, j)
                == Some(v.at(i, j)->0.im) by {
                lemma_mat_part_addr(v, mem, 0, i, j);
                lemma_mat_part_addr(v, mem, 1, i, j);
                let a = v.addr(i, j);
                assert((2 * a) / 2 == a && (2 * a + 1) / 2 == a && (2 * a + 1) % 2 == 1);
            }
        }
        let nrows = self.nrows();
        let ncols = self.ncols();
        let rs = double_word(self.row_stride());
        let cs = double_word(self.col_stride());
        let (ptr_re, ptr_im) = self.as_ptr().into_real_imag();
        (
            MatRef::from_raw_parts(ptr_re, nrows, ncols, rs, cs),
            MatRef::from_raw_parts(ptr_im, nrows, ncols, rs, cs),
        )
    }
}

impl<'a, T> MatMut<'a, Complex<T>> {
    /// Returns a mutable view over the real parts and a mutable view over the imaginary parts. What
    /// the views leave in the parts of an element is what the element then holds.
    pub fn into_real_imag(self) -> (r: (MatMut<'a, T>, MatMut<'a, T>))
        requires
            2 * self@.ptr.mem.len() <= usize::MAX,
        ensures
            r.0@ == mat_part(self@, r.0@.ptr.mem, 0),
            r.1@ == mat_part(self@, r.1@.ptr.mem, 1),
            r.0@.nrows == self@.nrows,
            r.0@.ncols == self@.ncols,
            r.1@.nrows == self@.nrows,
            r.1@.ncols == self@.ncols,
            r.0@.ptr.mem.len() == 2 * self@.ptr.mem.len(),
            r.1@.ptr.mem.len() == 2 * self@.ptr.mem.len(),
            forall|i: int, j: int|
                #![trigger r.0@.at(i, j)]
                #![trigger r.1@.at(i, j)]
                #![trigger self@.at(i, j)]
                self@.at(i, j) matches Some(z) ==> {
                    &&& r.0@.at(i, j) is Some
                    &&& r.1@.at(i, j) is Some
                    &&& *r.0@.at(i, j)->0 == z.re
                    &&& *r.1@.at(i, j)->0 == z.im
                    &&& final(z).re == *final(r.0@.at(i, j)->0)
                    &&& final(z).im == *final(r.1@.at(i, j)->0)
                },
            forall|k: int|
                0 <= k < self@.ptr.mem.len() && (#[trigger] self@.ptr.mem[k]) is Some ==> {
                    let z = self@.ptr.mem[k]->0;
                    &&& r.0@.ptr.mem[2 * k] is Some
                    &&& r.1@.ptr.mem[2 * k + 1] is Some
                    &&& final(z).re == *final(r.0@.ptr.mem[2 * k]->0)
                    &&& final(z).im == *final(r.1@.ptr.mem[2 * k + 1]->0)
                },
            self@.readable() && self@.no_alias() ==> r.0@.no_alias() && r.1@.no_alias(),
    {
        let ghost v = self@;
        let nrows = self.nrows();
        let ncols = self.ncols();
        let rs = double_word(self.row_stride());
        let cs = double_word(self.col_stride());
        let (ptr_re, ptr_im) = self.as_ptr().into_real_imag();
        let re = MatMut::from_raw_parts(ptr_re, nrows, ncols, rs, cs);
        let im = MatMut::from_raw_parts(ptr_im, nrows, ncols, rs, cs);
        proof {
            assert forall|i: int, j: int| #[trigger] v.addr(i, j) < v.ptr.mem.len() implies re@.addr(
                i,
                j,
            ) == 2 * v.addr(i, j) && im@.addr(i, j) == 2 * v.addr(i, j) + 1 by {
                lemma_mat_part_addr(v, re@.ptr.mem, 0, i, j);
                lemma_mat_part_addr(v, im@.ptr.mem, 1, i, j);
            }
            assert forall|i: int, j: int|
                #![trigger re@.at(i, j)]
                #![trigger im@.at(i, j)]
                #![trigger v.at(i, j)]
                v.at(i, j) matches Some(z) ==> {
                    &&& re@.at(i, j) is Some
                    &&& im@.at(i, j) is Some
                    &&& *re@.at(i, j)->0 == z.re
                    &&& *im@.at(i, j)->0 == z.im
                    &&& final(z).re == *final(re@.at(i, j)->0)
                    &&& final(z).im == *final(im@.at(i, j)->0)
                } by {
                if v.at(i, j) is Some {
                    let a = v.addr(i, j);
                    assert(v.ptr.mem[a] is Some);
                }
            }
            if v.readable() && v.no_alias() {
                assert forall|i: int, j: int| v.has(i, j) implies #[trigger] v.addr(i, j)
                    < v.ptr.mem.len() by {
                    assert(v.at(i, j) is Some);
                }
                assert forall|i: int, j: int, k: int, l: int|
                    #![trigger re@.addr(i, j), re@.addr(k, l)]
                    re@.has(i, j) && re@.has(k, l) && re@.addr(i, j) == re@.addr(k, l) implies i
                    == k && j == l by {
                    assert(v.addr(i, j) == v.addr(k, l));
                }
                assert forall|i: int, j: int, k: int, l: int|
                    #![trigger im@.addr(i, j), im@.addr(k, l)]
                    im@.has(i, j) && im@.has(k, l) && im@.addr(i, j) == im@.addr(k, l) implies i
                    == k && j == l by {
                    assert(v.addr(i, j) == v.addr(k, l));
                }
            }
        }
        (re, im)
    }
}

impl<'a, T> ColRef<'a, Complex<T>> {
    /// Returns a view over the real parts and a view over the imaginary parts.
    pub fn into_real_imag(self) -> (r: (ColRef<'a, T>, ColRef<'a, T>))
        requires
            2 * self@.ptr.mem.len() <= usize::MAX,
        ensures
            r.0@ == vec_part(self@, interleaved(self@.ptr.mem), 0),
            r.1@ == vec_part(self@, interleaved(self@.ptr.mem), 1),
            r.0@.len == self@.len,
            r.1@.len == self@.len,
            forall|k: int|
                #![trigger r.0@.at(k)]
                #![trigger r.1@.at(k)]
                #![trigger self@.at(k)]
                self@.at(k) matches Some(z) ==> r.0@.at(k) == Some(z.re) && r.1@.at(k) == Some(
                    z.im,
                ),
    {
        proof {
            let v = self@;
            let mem = interleaved(v.ptr.mem);
            assert forall|k: int| v.at(k) is Some implies #[trigger] vec_part(v, mem, 0).at(k)
                == Some(v.at(k)->0.re) && #[trigger] vec_part(v, mem, 1).at(k) == Some(
                v.at(k)->0.im,
            ) by {
                lemma_vec_part_addr(v, mem, 0, k);
                lemma_vec_part_addr(v, mem, 1, k);
                let a = v.addr(k);
                assert((2 * a) / 2 == a && (2 * a + 1) / 2 == a && (2 * a + 1) % 2 == 1);
            }
        }
        let nrows = self.nrows();
        let rs = double_word(self.row_stride());
        let (ptr_re, ptr_im) = self.as_ptr().into_real_imag();
        (
            ColRef::from_raw_parts(ptr_re, nrows, rs),
            ColRef::from_raw_parts(ptr_im, nrows, rs),
        )
    }
}

impl<'a, T> ColMut<'a, Complex<T>> {
    /// Returns a mutable view over the real parts and a mutable view over the imaginary parts. What
    /// the views leave in the parts of an element is what the element then holds.
    pub fn into_real_imag(self) -> (r: (ColMut<'a, T>, ColMut<'a, T>))
        requires
            2 * self@.ptr.mem.len() <= usize::MAX,
        ensures
            r.0@ == vec_part(self@, r.0@.ptr.mem, 0),
            r.1@ == vec_part(self@, r.1@.ptr.mem, 1),
            r.0@.len == self@.len,
            r.1@.len == self@.len,
            r.0@.ptr.mem.len() == 2 * self@.ptr.mem.len(),
            r.1@.ptr.mem.len() == 2 * self@.ptr.mem.len(),
            forall|k: int|
                #![trigger r.0@.at(k)]
                #![trigger r.1@.at(k)]
                #![trigger self@.at(k)]
                self@.at(k) matches Some(z) ==> {
                    &&& r.0@.at(k) is Some
                    &&& r.1@.at(k) is Some
                    &&& *r.0@.at(k)->0 == z.re
                    &&& *r.1@.at(k)->0 == z.im
                    &&& final(z).re == *final(r.0@.at(k)->0)
                    &&& final(z).im == *final(r.1@.at(k)->0)
                },
            forall|k: int|
                0 <= k < self@.ptr.mem.len() && (#[trigger] self@.ptr.mem[k]) is Some ==> {
                    let z = self@.ptr.mem[k]->0;
                    &&& r.0@.ptr.mem[2 * k] is Some
                    &&& r.1@.ptr.mem[2 * k + 1] is Some
                    &&& final(z).re == *final(r.0@.ptr.mem[2 * k]->0)
                    &&& final(z).im == *final(r.1@.ptr.mem[2 * k + 1]->0)
                },
            self@.readable() && self@.no_alias() ==> r.0@.no_alias() && r.1@.no_alias(),
    {
        let ghost v = self@;
        let nrows = self.nrows();
        let rs = double_word(self.row_stride());
        let (ptr_re, ptr_im) = self.as_ptr().into_real_imag();
        let re = ColMut::from_raw_parts(ptr_re, nrows, rs);
        let im = ColMut::from_raw_parts(ptr_im, nrows, rs);
        proof {
            assert forall|k: int| #[trigger] v.addr(k) < v.ptr.mem.len() implies re@.addr(k) == 2
                * v.addr(k) && im@.addr(k) == 2 * v.addr(k) + 1 by {
                lemma_vec_part_addr(v, re@.ptr.mem, 0, k);
                lemma_vec_part_addr(v, im@.ptr.mem, 1, k);
            }
            assert forall|k: int|
                #![trigger re@.at(k)]
                #![trigger im@.at(k)]
                #![trigger v.at(k)]
                v.at(k) matches Some(z) ==> {
                    &&& re@.at(k) is Some
                    &&& im@.at(k) is Some
                    &&& *re@.at(k)->0 == z.re
                    &&& *im@.at(k)->0 == z.im
                    &&& final(z).re == *final(re@.at(k)->0)
                    &&& final(z).im == *final(im@.at(k)->0)
                } by {
                if v.at(k) is Some {
                    let a = v.addr(k);
                    assert(v.ptr.mem[a] is Some);
                }
            }
            if v.readable() && v.no_alias() {
                assert forall|k: int| 0 <= k < v.len implies #[trigger] v.addr(k)
                    < v.ptr.mem.len() by {
                    assert(v.at(k) is Some);
                }
                assert forall|k: int, l: int|
                    #![trigger re@.addr(k), re@.addr(l)]
                    0 <= k < re@.len && 0 <= l < re@.len && re@.addr(k) == re@.addr(l) implies k
                    == l by {
                    assert(v.addr(k) == v.addr(l));
                }
                assert forall|k: int, l: int|
                    #![trigger im@.addr(k), im@.addr(l)]
                    0 <= k < im@.len && 0 <= l < im@.len && im@.addr(k) == im@.addr(l) implies k
                    == l by {
                    assert(v.addr(k) == v.addr(l));
                }
            }
        }
        (re, im)
    }
}

impl<'a, T> RowRef<'a, Complex<T>> {
    /// Returns a view over the real parts and a view over the imaginary parts.
    pub fn into_real_imag(self) -> (r: (RowRef<'a, T>, RowRef<'a, T>))
        requires
            2 * self@.ptr.mem.len() <= usize::MAX,
        ensures
            r.0@ == vec_part(self@, interleaved(self@.ptr.mem), 0),
            r.1@ == vec_part(self@, interleaved(self@.ptr.mem), 1),
            r.0@.len == self@.len,
            r.1@.len == self@.len,
            forall|k: int|
                #![trigger r.0@.at(k)]
                #![trigger r.1@.at(k)]
                #![trigger self@.at(k)]
                self@.at(k) matches Some(z) ==> r.0@.at(k) == Some(z.re) && r.1@.at(k) == Some(
                    z.im,
                ),
    {
        proof {
            let v = self@;
            let mem = interleaved(v.ptr.mem);
            assert forall|k: int| v.at(k) is Some implies #[trigger] vec_part(v, mem, 0).at(k)
                == Some(v.at(k)->0.re) && #[trigger] vec_part(v, mem, 1).at(k) == Some(
                v.at(k)->0.im,
            ) by {
                lemma_vec_part_addr(v, mem, 0, k);
                lemma_vec_part_addr(v, mem, 1, k);
                let a = v.addr(k);
                assert((2 * a) / 2 == a && (2 * a + 1) / 2 == a && (2 * a + 1) % 2 == 1);
            }
        }
        let ncols = self.ncols();
        let cs = double_word(self.col_stride());
        let (ptr_re, ptr_im) = self.as_ptr().into_real_imag();
        (
            RowRef::from_raw_parts(ptr_re, ncols, cs),
            RowRef::from_raw_parts(ptr_im, ncols, cs),
        )
    }
}

impl<'a, T> RowMut<'a, Complex<T>> {
    /// Returns a mutable view over the real parts and a mutable view over the imaginary parts. What
    /// the views leave in the parts of an element is what the element then holds.
    pub fn into_real_imag(self) -> (r: (RowMut<'a, T>, RowMut<'a, T>))
        requires
            2 * self@.ptr.mem.len() <= usize::MAX,
        ensures
            r.0@ == vec_part(self@, r.0@.ptr.mem, 0),
            r.1@ == vec_part(self@, r.1@.ptr.mem, 1),
            r.0@.len == self@.len,
            r.1@.len == self@.len,
            r.0@.ptr.mem.len() == 2 * self@.ptr.mem.len(),
            r.1@.ptr.mem.len() == 2 * self@.ptr.mem.len(),
            forall|k: int|
                #![trigger r.0@.at(k)]
                #![trigger r.1@.at(k)]
                #![trigger self@.at(k)]
                self@.at(k) matches Some(z) ==> {
                    &&& r.0@.at(k) is Some
                    &&& r.1@.at(k) is Some
                    &&& *r.0@.at(k)->0 == z.re
                    &&& *r.1@.at(k)->0 == z.im
                    &&& final(z).re == *final(r.0@.at(k)->0)
                    &&& final(z).im == *final(r.1@.at(k)->0)
                },
            forall|k: int|
                0 <= k < self@.ptr.mem.len() && (#[trigger] self@.ptr.mem[k]) is Some ==> {
                    let z = self@.ptr.mem[k]->0;
                    &&& r.0@.ptr.mem[2 * k] is Some
                    &&& r.1@.ptr.mem[2 * k + 1] is Some
                    &&& final(z).re == *final(r.0@.ptr.mem[2 * k]->0)
                    &&& final(z).im == *final(r.1@.ptr.mem[2 * k + 1]->0)
                },
            self@.readable() && self@.no_alias() ==> r.0@.no_alias() && r.1@.no_alias(),
    {
        let ghost v = self@;
        let ncols = self.ncols();
        let cs = double_word(self.col_stride());
        let (ptr_re, ptr_im) = self.as_ptr().into_real_imag();
        let re = RowMut::from_raw_parts(ptr_re, ncols, cs);
        let im = RowMut::from_raw_parts(ptr_im, ncols, cs);
        proof {
            assert forall|k: int| #[trigger] v.addr(k) < v.ptr.mem.len() implies re@.addr(k) == 2
                * v.addr(k) && im@.addr(k) == 2 * v.addr(k) + 1 by {
                lemma_vec_part_addr(v, re@.ptr.mem, 0, k);
                lemma_vec_part_addr(v, im@.ptr.mem, 1, k);
            }
            assert forall|k: int|
                #![trigger re@.at(k)]
                #![trigger im@.at(k)]
                #![trigger v.at(k)]
                v.at(k) matches Some(z) ==> {
                    &&& re@.at(k) is Some
                    &&& im@.at(k) is Some
                    &&& *re@.at(k)->0 == z.re
                    &&& *im@.at(k)->0 == z.im
                    &&& final(z).re == *final(re@.at(k)->0)
                    &&& final(z).im == *final(im@.at(k)->0)
                } by {
                if v.at(k) is Some {
                    let a = v.addr(k);
                    assert(v.ptr.mem[a] is Some);
                }
            }
            if v.readable() && v.no_alias() {
                assert forall|k: int| 0 <= k < v.len implies #[trigger] v.addr(k)
                    < v.ptr.mem.len() by {
                    assert(v.at(k) is Some);
                }
                assert forall|k: int, l: int|
                    #![trigger re@.addr(k), re@.addr(l)]
                    0 <= k < re@.len && 0 <= l < re@.len && re@.addr(k) == re@.addr(l) implies k
                    == l by {
                    assert(v.addr(k) == v.addr(l));
                }
                assert forall|k: int, l: int|
                    #![trigger im@.addr(k), im@.addr(l)]
                    0 <= k < im@.len && 0 <= l < im@.len && im@.addr(k) == im@.addr(l) implies k
                    == l by {
                    assert(v.addr(k) == v.addr(l));
                }
            }
        }
        (re, im)
    }
}

}
