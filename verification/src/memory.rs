//! Pointers into memory.
//!
//! A pointer knows the memory that it was made from, so that following it is safe: it holds the
//! addresses of the cells that it may follow, and a position among them. Stepping wraps around at
//! the end of the address space, and only a step that lands on a readable cell may be followed.

use crate::model::{values_now, MatView, PtrView};
use crate::word::{lemma_wrap_affine, lemma_wrap_stable, stride_from, word, wrap};
use vstd::prelude::*;

verus! {

/// The values that the cells of a shared memory hold.
pub open spec fn values<'a, T>(cells: Seq<Option<&'a T>>) -> Seq<Option<T>> {
    cells.map_values(
        |c: Option<&'a T>|
            match c {
                Some(x) => Some(*x),
                None => None,
            },
    )
}

/// The cells that hold the elements of `data`.
pub open spec fn initialized<T>(data: Seq<T>) -> Seq<Option<T>> {
    data.map_values(|x: T| Some(x))
}

/// A pointer to a shared cell.
pub struct Ptr<'a, T> {
    cells: Vec<Option<&'a T>>,
    pos: usize,
}

/// A pointer to a cell that nothing else has access to.
pub struct PtrMut<'a, T> {
    cells: Vec<Option<&'a mut T>>,
    pos: usize,
}

impl<'a, T> View for Ptr<'a, T> {
    type V = PtrView<T>;

    closed spec fn view(&self) -> PtrView<T> {
        PtrView { mem: values(self.cells@), pos: self.pos as int }
    }
}

impl<'a, T> View for PtrMut<'a, T> {
    type V = PtrView<&'a mut T>;

    closed spec fn view(&self) -> PtrView<&'a mut T> {
        PtrView { mem: self.cells@, pos: self.pos as int }
    }
}

/// Whether the cell at position `p` is an element of `b` in one of the first `j` columns, or in
/// one of the first `i` rows of column `j`.
spec fn covers_before<E>(b: MatView<E>, i: int, j: int, p: int) -> bool {
    exists|k: int, l: int|
        b.has(k, l) && (l < j || l == j && k < i) && #[trigger] b.addr(k, l) == p
}

impl<'a, T> Clone for Ptr<'a, T> {
    fn clone(&self) -> (r: Self)
        ensures
            r@ == self@,
    {
        let mut cells: Vec<Option<&'a T>> = Vec::new();
        let mut k: usize = 0;
        while k < self.cells.len()
            invariant
                k <= self.cells@.len(),
                cells@ == self.cells@.subrange(0, k as int),
            decreases self.cells@.len() - k,
        {
            cells.push(self.cells[k]);
            k += 1;
        }
        assert(cells@ == self.cells@);
        Ptr { cells, pos: self.pos }
    }
}

impl<'a, T> Ptr<'a, T> {
    /// Returns a pointer to the cell at position `pos` among `cells`.
    pub(crate) fn from_parts(cells: Vec<Option<&'a T>>, pos: usize) -> (r: Self)
        ensures
            r@ == (PtrView { mem: values(cells@), pos: pos as int }),
    {
        Ptr { cells, pos }
    }

    /// Returns the cells of the memory and the position.
    pub(crate) fn into_parts(self) -> (r: (Vec<Option<&'a T>>, usize))
        ensures
            self@ == (PtrView { mem: values(r.0@), pos: r.1 as int }),
    {
        (self.cells, self.pos)
    }

    /// Returns a pointer to the first element of `data`.
    pub fn from_slice(data: &'a [T]) -> (r: Self)
        ensures
            r@ == (PtrView { mem: initialized(data@), pos: 0 }),
            r@.mem.len() == data@.len(),
            forall|k: int| 0 <= k < data@.len() ==> #[trigger] r@.mem[k] == Some(data@[k]),
    {
        let mut cells: Vec<Option<&'a T>> = Vec::new();
        let mut k: usize = 0;
        while k < data.len()
            invariant
                k <= data@.len(),
                cells@.len() == k,
                forall|l: int| 0 <= l < k ==> #[trigger] cells@[l] == Some(&data@[l]),
            decreases data@.len() - k,
        {
            cells.push(Some(&data[k]));
            k += 1;
        }
        assert(values(cells@) =~= initialized(data@));
        Ptr { cells, pos: 0 }
    }

    /// Returns a pointer to the first of `data`, in which a cell that holds nothing is not
    /// readable.
    pub fn from_cells(data: &'a [Option<T>]) -> (r: Self)
        ensures
            r@ == (PtrView { mem: data@, pos: 0 }),
    {
        let mut cells: Vec<Option<&'a T>> = Vec::new();
        let mut k: usize = 0;
        while k < data.len()
            invariant
                k <= data@.len(),
                cells@.len() == k,
                forall|l: int|
                    0 <= l < k ==> #[trigger] cells@[l] == match data@[l] {
                        Some(x) => Some(&x),
                        None => None,
                    },
            decreases data@.len() - k,
        {
            cells.push(data[k].as_ref());
            k += 1;
        }
        assert(values(cells@) =~= data@);
        Ptr { cells, pos: 0 }
    }

    /// A position is a word.
    pub proof fn lemma_position(&self)
        ensures
            0 <= self@.pos < word(),
    {
    }

    /// Returns the position of the cell in its memory.
    pub fn position(&self) -> (r: usize)
        ensures
            r == self@.pos,
    {
        self.pos
    }

    /// Returns the pointer `count` cells further on.
    pub fn wrapping_offset(self, count: isize) -> (r: Self)
        ensures
            r@ == self@.offset(count as int),
    {
        self.wrapping_strides(1, count)
    }

    /// Returns the pointer `count` strides further on.
    pub fn wrapping_strides(self, count: usize, stride: isize) -> (r: Self)
        ensures
            r@ == self@.offset(count * stride),
    {
        let pos = stride_from(self.pos, count, stride);
        Ptr { cells: self.cells, pos }
    }

    /// Returns the value that the pointer leads to.
    pub fn as_ref(&self) -> (r: &'a T)
        requires
            self@.at(0) is Some,
        ensures
            Some(*r) == self@.at(0),
    {
        proof {
            lemma_wrap_stable(self.pos as int);
        }
        self.cells[self.pos].unwrap()
    }
}

impl<'a, T> PtrMut<'a, T> {
    /// Returns a pointer to the cell at position `pos` among `cells`.
    pub(crate) fn from_parts(cells: Vec<Option<&'a mut T>>, pos: usize) -> (r: Self)
        ensures
            r@ == (PtrView { mem: cells@, pos: pos as int }),
    {
        PtrMut { cells, pos }
    }

    /// Returns the cells of the memory and the position.
    pub(crate) fn into_parts(self) -> (r: (Vec<Option<&'a mut T>>, usize))
        ensures
            self@ == (PtrView { mem: r.0@, pos: r.1 as int }),
    {
        (self.cells, self.pos)
    }

    /// Returns a pointer to the first element of `data`.
    pub fn from_slice(data: &'a mut [T]) -> (r: Self)
        ensures
            r@.pos == 0,
            r@.mem.len() == old(data)@.len(),
            final(data)@.len() == old(data)@.len(),
            forall|k: int|
                0 <= k < r@.mem.len() ==> {
                    &&& (#[trigger] r@.mem[k]) is Some
                    &&& *r@.mem[k]->0 == old(data)@[k]
                    &&& *final(r@.mem[k]->0) == final(data)@[k]
                },
    {
        let ghost before = data@;
        let ghost after = final(data)@;
        let n = data.len();
        let mut cells: Vec<Option<&'a mut T>> = Vec::new();
        let mut rest: &'a mut [T] = data;
        let mut k: usize = 0;
        while k < n
            invariant
                k <= n,
                n == before.len(),
                cells@.len() == k,
                rest@ == before.subrange(k as int, n as int),
                after.len() == k + final(rest)@.len(),
                after.subrange(k as int, after.len() as int) == final(rest)@,
                forall|l: int|
                    0 <= l < k ==> (#[trigger] cells@[l]) is Some && *cells@[l]->0 == before[l]
                        && *final(cells@[l]->0) == after[l],
            decreases n - k,
        {
            let (head, tail) = rest.split_at_mut(1);
            let cell = head.first_mut();
            proof {
                let from_k = after.subrange(k as int, after.len() as int);
                assert(from_k[0] == after[k as int]);
                assert(from_k.subrange(1, after.len() - k) =~= after.subrange(
                    k as int + 1,
                    after.len() as int,
                ));
                assert(after.subrange(k as int + 1, after.len() as int) =~= final(tail)@);
            }
            cells.push(cell);
            rest = tail;
            k += 1;
        }
        PtrMut { cells, pos: 0 }
    }

    /// Returns a pointer to the first of `data`, in which a cell that holds nothing is not
    /// readable.
    pub fn from_cells(data: &'a mut [Option<T>]) -> (r: Self)
        ensures
            r@.pos == 0,
            r@.mem.len() == old(data)@.len(),
            final(data)@.len() == old(data)@.len(),
            forall|k: int|
                0 <= k < r@.mem.len() ==> match old(data)@[k] {
                    Some(x) => {
                        &&& (#[trigger] r@.mem[k]) is Some
                        &&& *r@.mem[k]->0 == x
                        &&& final(data)@[k] == Some(*final(r@.mem[k]->0))
                    },
                    None => r@.mem[k] is None && final(data)@[k] is None,
                },
    {
        let ghost before = data@;
        let ghost after = final(data)@;
        let n = data.len();
        let mut cells: Vec<Option<&'a mut T>> = Vec::new();
        let mut rest: &'a mut [Option<T>] = data;
        let mut k: usize = 0;
        while k < n
            invariant
                k <= n,
                n == before.len(),
                cells@.len() == k,
                rest@ == before.subrange(k as int, n as int),
                after.len() == k + final(rest)@.len(),
                after.subrange(k as int, after.len() as int) == final(rest)@,
                forall|l: int|
                    0 <= l < k ==> match before[l] {
                        Some(x) => (#[trigger] cells@[l]) is Some && *cells@[l]->0 == x && after[l]
                            == Some(*final(cells@[l]->0)),
                        None => cells@[l] is None && after[l] is None,
                    },
            decreases n - k,
        {
            let (head, tail) = rest.split_at_mut(1);
            let first = head.first_mut();
            proof {
                let from_k = after.subrange(k as int, after.len() as int);
                assert(from_k[0] == after[k as int]);
                assert(from_k.subrange(1, after.len() - k) =~= after.subrange(
                    k as int + 1,
                    after.len() as int,
                ));
                assert(after.subrange(k as int + 1, after.len() as int) =~= final(tail)@);
            }
            match first {
                Some(cell) => cells.push(cell.as_mut()),
                None => {},
            }
            rest = tail;
            k += 1;
        }
        PtrMut { cells, pos: 0 }
    }

    /// A position is a word.
    pub proof fn lemma_position(&self)
        ensures
            0 <= self@.pos < word(),
    {
    }

    /// Returns the position of the cell in its memory.
    pub fn position(&self) -> (r: usize)
        ensures
            r == self@.pos,
    {
        self.pos
    }

    /// Returns the pointer `count` cells further on.
    pub fn wrapping_offset(self, count: isize) -> (r: Self)
        ensures
            r@ == self@.offset(count as int),
    {
        self.wrapping_strides(1, count)
    }

    /// Returns the pointer `count` strides further on.
    pub fn wrapping_strides(self, count: usize, stride: isize) -> (r: Self)
        ensures
            r@ == self@.offset(count * stride),
    {
        let pos = stride_from(self.pos, count, stride);
        PtrMut { cells: self.cells, pos }
    }

    /// Moves the pointer `count` strides on.
    pub fn advance(&mut self, count: usize, stride: isize)
        ensures
            final(self)@ == old(self)@.offset(count * stride),
    {
        self.pos = stride_from(self.pos, count, stride);
    }

    /// Returns the value that the pointer leads to. The other cells keep their values.
    pub fn as_mut(self) -> (r: &'a mut T)
        requires
            self@.at(0) is Some,
        ensures
            Some(r) == self@.at(0),
            forall|k: int|
                0 <= k < self@.mem.len() && k != self@.pos && (#[trigger] self@.mem[k]) is Some
                    ==> *final(self@.mem[k]->0) == *self@.mem[k]->0,
    {
        proof {
            lemma_wrap_stable(self.pos as int);
        }
        let pos = self.pos;
        let mut cells = self.cells;
        let ghost before = cells@;
        let cell = cells.swap_remove(pos);
        assert forall|k: int|
            0 <= k < before.len() && k != pos && (#[trigger] before[k]) is Some implies *final(
            before[k]->0) == *before[k]->0 by {
            let m = if k == before.len() - 1 {
                pos as int
            } else {
                k
            };
            assert(has_resolved(cells));
            assert(has_resolved(cells@[m]));
        }
        cell.unwrap()
    }

    /// Shares the memory for as long as the pointer is borrowed.
    pub fn rb<'b>(&'b self) -> (r: Ptr<'b, T>)
        ensures
            r@ == self@.now(),
    {
        let mut cells: Vec<Option<&'b T>> = Vec::new();
        let mut k: usize = 0;
        while k < self.cells.len()
            invariant
                k <= self.cells@.len(),
                cells@.len() == k,
                forall|l: int|
                    0 <= l < k ==> #[trigger] cells@[l] == match self.cells@[l] {
                        Some(x) => Some(&*x),
                        None => None,
                    },
            decreases self.cells@.len() - k,
        {
            match &self.cells[k] {
                Some(x) => cells.push(Some(&**x)),
                None => cells.push(None),
            }
            k += 1;
        }
        assert(values(cells@) =~= values_now(self.cells@));
        Ptr { cells, pos: self.pos }
    }

    /// Lends the memory out for as long as the pointer is borrowed. What the loan leaves in a
    /// cell is what the cell then holds.
    pub fn rb_mut<'b>(&'b mut self) -> (r: PtrMut<'b, T>)
        ensures
            r@.pos == old(self)@.pos,
            final(self)@.pos == old(self)@.pos,
            r@.mem.len() == old(self)@.mem.len(),
            final(self)@.mem.len() == old(self)@.mem.len(),
            forall|k: int|
                #![trigger r@.mem[k]]
                #![trigger final(self)@.mem[k]]
                0 <= k < r@.mem.len() ==> match old(self)@.mem[k] {
                    Some(x) => {
                        &&& r@.mem[k] is Some
                        &&& *r@.mem[k]->0 == *x
                        &&& final(self)@.mem[k] is Some
                        &&& *final(self)@.mem[k]->0 == *final(r@.mem[k]->0)
                        &&& *final(final(self)@.mem[k]->0) == *final(x)
                    },
                    None => r@.mem[k] is None && final(self)@.mem[k] is None,
                },
    {
        let ghost before = self.cells@;
        let ghost after = final(self).cells@;
        let pos = self.pos;
        let n = self.cells.len();
        let mut cells: Vec<Option<&'b mut T>> = Vec::new();
        let mut rest: &'b mut [Option<&'a mut T>] = self.cells.as_mut_slice();
        let mut k: usize = 0;
        while k < n
            invariant
                k <= n,
                n == before.len(),
                cells@.len() == k,
                rest@ == before.subrange(k as int, n as int),
                after.len() == k + final(rest)@.len(),
                after.subrange(k as int, after.len() as int) == final(rest)@,
                forall|l: int|
                    0 <= l < k ==> match before[l] {
                        Some(x) => (#[trigger] cells@[l]) is Some && *cells@[l]->0 == *x && after[l]
                            is Some && *after[l]->0 == *final(cells@[l]->0) && *final(after[l]->0)
                            == *final(x),
                        None => cells@[l] is None && after[l] is None,
                    },
            decreases n - k,
        {
            let (head, tail) = rest.split_at_mut(1);
            let first = head.first_mut();
            proof {
                let from_k = after.subrange(k as int, after.len() as int);
                assert(from_k[0] == after[k as int]);
                assert(from_k.subrange(1, after.len() - k) =~= after.subrange(
                    k as int + 1,
                    after.len() as int,
                ));
                assert(after.subrange(k as int + 1, after.len() as int) =~= final(tail)@);
            }
            match first {
                Some(cell) => match cell.as_mut() {
                    Some(x) => {
                        let y: &'b mut T = &mut **x;
                        cells.push(Some(y));
                    },
                    None => cells.push(None),
                },
                None => {},
            }
            rest = tail;
            k += 1;
        }
        PtrMut { cells, pos }
    }

    /// Once a pointer is no longer used, the cells that it leads to keep their values.
    pub proof fn law_resolved(self)
        ensures
            has_resolved(self) ==> forall|k: int|
                0 <= k < self@.mem.len() && (#[trigger] self@.mem[k]) is Some ==> *final(
                    self@.mem[k]->0) == *self@.mem[k]->0,
    {
        if has_resolved(self) {
            assert forall|k: int|
                0 <= k < self@.mem.len() && (#[trigger] self@.mem[k]) is Some implies *final(
                self@.mem[k]->0) == *self@.mem[k]->0 by {
                assert(has_resolved(self.cells));
                assert(has_resolved(self.cells@[k]));
            }
        }
    }

    /// Gives up access. The cells keep their values.
    pub fn release(self)
        ensures
            forall|k: int|
                0 <= k < self@.mem.len() && (#[trigger] self@.mem[k]) is Some ==> *final(
                    self@.mem[k]->0) == *self@.mem[k]->0,
    {
        let cells = self.cells;
        assert forall|k: int|
            0 <= k < cells@.len() && (#[trigger] cells@[k]) is Some implies *final(cells@[k]->0)
            == *cells@[k]->0 by {
            assert(has_resolved(cells));
            assert(has_resolved(cells@[k]));
        }
    }

    /// Gives up exclusive access. The cells keep their values.
    pub fn into_const(self) -> (r: Ptr<'a, T>)
        ensures
            r@ == self@.now(),
            forall|k: int|
                0 <= k < self@.mem.len() && (#[trigger] self@.mem[k]) is Some ==> *final(
                    self@.mem[k]->0) == *self@.mem[k]->0,
    {
        let ghost before = self.cells@;
        let pos = self.pos;
        let mut left = self.cells;
        let mut cells: Vec<Option<&'a T>> = Vec::new();
        let n = left.len();
        while cells.len() < n
            invariant
                cells@.len() <= n,
                forall|l: int| 0 <= l < cells@.len() ==> (#[trigger] cells@[l]) is None,
            decreases n - cells@.len(),
        {
            cells.push(None);
        }
        while left.len() > 0
            invariant
                n == before.len(),
                cells@.len() == n,
                left@.len() <= n,
                left@ == before.subrange(0, left@.len() as int),
                forall|l: int|
                    left@.len() <= l < n ==> #[trigger] cells@[l] == match before[l] {
                        Some(x) => Some(&*x),
                        None => None,
                    },
                forall|l: int|
                    left@.len() <= l < n && (#[trigger] before[l]) is Some ==> *final(before[l]->0)
                        == *before[l]->0,
            decreases left@.len(),
        {
            let cell = left.pop().unwrap();
            let k = left.len();
            match cell {
                Some(x) => {
                    let y: &'a T = &*x;
                    cells.set(k, Some(y));
                },
                None => {
                    cells.set(k, None);
                },
            }
        }
        assert(values(cells@) =~= values_now(before));
        Ptr { cells, pos }
    }

    /// Takes the cells of a strided matrix that begins at position `pos` out of the memory, and
    /// returns a pointer to the first of them.
    pub fn take_block(
        &mut self,
        pos: usize,
        nrows: usize,
        ncols: usize,
        row_stride: isize,
        col_stride: isize,
    ) -> (r: PtrMut<'a, T>)
        ensures
            ({
                let b = MatView {
                    ptr: PtrView { mem: old(self)@.mem, pos: pos as int },
                    nrows: nrows as nat,
                    ncols: ncols as nat,
                    row_stride: row_stride as int,
                    col_stride: col_stride as int,
                };
                &&& r@ == b.alone().ptr
                &&& final(self)@ == old(self)@.keeping(|p: int| !b.covers(p))
            }),
    {
        let ghost b = MatView {
            ptr: PtrView { mem: self@.mem, pos: pos as int },
            nrows: nrows as nat,
            ncols: ncols as nat,
            row_stride: row_stride as int,
            col_stride: col_stride as int,
        };
        let ghost before = self.cells@;
        let n = self.cells.len();
        let mut taken: Vec<Option<&'a mut T>> = Vec::new();
        while taken.len() < n
            invariant
                taken@.len() <= n,
                forall|p: int| 0 <= p < taken@.len() ==> (#[trigger] taken@[p]) is None,
            decreases n - taken@.len(),
        {
            taken.push(None);
        }
        let mut j: usize = 0;
        while j < ncols
            invariant
                n == before.len(),
                b.ptr.mem == before,
                b.ptr.pos == pos,
                b.nrows == nrows,
                b.ncols == ncols,
                b.row_stride == row_stride,
                b.col_stride == col_stride,
                self.pos == old(self).pos,
                j <= ncols,
                taken@.len() == n,
                self.cells@.len() == n,
                forall|p: int|
                    0 <= p < n ==> #[trigger] taken@[p] == if covers_before(b, 0, j as int, p) {
                        before[p]
                    } else {
                        None
                    },
                forall|p: int|
                    0 <= p < n ==> #[trigger] self.cells@[p] == if covers_before(
                        b,
                        0,
                        j as int,
                        p,
                    ) {
                        None
                    } else {
                        before[p]
                    },
            decreases ncols - j,
        {
            let top = stride_from(pos, j, col_stride);
            let mut i: usize = 0;
            while i < nrows
                invariant
                    n == before.len(),
                    b.ptr.mem == before,
                    b.ptr.pos == pos,
                    b.nrows == nrows,
                    b.ncols == ncols,
                    b.row_stride == row_stride,
                    b.col_stride == col_stride,
                    self.pos == old(self).pos,
                    i <= nrows,
                    j < ncols,
                    top == wrap(pos + j * col_stride),
                    taken@.len() == n,
                    self.cells@.len() == n,
                    forall|p: int|
                        0 <= p < n ==> #[trigger] taken@[p] == if covers_before(
                            b,
                            i as int,
                            j as int,
                            p,
                        ) {
                            before[p]
                        } else {
                            None
                        },
                    forall|p: int|
                        0 <= p < n ==> #[trigger] self.cells@[p] == if covers_before(
                            b,
                            i as int,
                            j as int,
                            p,
                        ) {
                            None
                        } else {
                            before[p]
                        },
                decreases nrows - i,
            {
                let q = stride_from(top, i, row_stride);
                proof {
                    lemma_wrap_stable(pos + j * col_stride);
                    lemma_wrap_affine(
                        top as int,
                        row_stride as int,
                        0,
                        pos + j * col_stride,
                        row_stride as int,
                        0,
                        i as int,
                        0,
                    );
                    assert(q == b.addr(i as int, j as int));
                    assert forall|p: int|
                        covers_before(b, i + 1, j as int, p) == (covers_before(
                            b,
                            i as int,
                            j as int,
                            p,
                        ) || p == q) by {
                        if p == q {
                            assert(b.has(i as int, j as int));
                        }
                    }
                }
                if q < n {
                    let cell = self.cells[q].take();
                    if cell.is_some() {
                        taken.set(q, cell);
                    }
                }
                i += 1;
            }
            proof {
                assert forall|p: int|
                    covers_before(b, nrows as int, j as int, p) == covers_before(
                        b,
                        0,
                        j + 1,
                        p,
                    ) by {}
            }
            j += 1;
        }
        proof {
            assert forall|p: int| covers_before(b, 0, ncols as int, p) == b.covers(p) by {}
            assert(taken@ =~= b.alone().ptr.mem);
            assert(self@.mem =~= old(self)@.keeping(|p: int| !b.covers(p)).mem);
        }
        PtrMut { cells: taken, pos }
    }
}

}
