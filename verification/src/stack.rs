//! How much stack memory temporary matrices take up.

use core::any::TypeId;
use core::mem::{align_of, size_of};
use vstd::arithmetic::div_mod::{lemma_fundamental_div_mod, lemma_fundamental_div_mod_converse};
use vstd::arithmetic::power2::is_pow2;
use vstd::layout;
use vstd::prelude::*;

verus! {

/// One of two values.
pub enum Either<A, B> {
    Left(A),
    Right(B),
}

/// The smallest multiple of `k` that is at least `n`.
pub open spec fn rounded_up(n: int, k: int) -> int {
    (n + (k - 1)) / k * k
}

/// Rounding up gives the smallest multiple of `k` that is at least `n`.
pub proof fn law_round_up_smallest(n: int, k: int)
    requires
        k > 0,
    ensures
        n <= rounded_up(n, k) < n + k,
        rounded_up(n, k) % k == 0,
        forall|m: int| n <= m && #[trigger] (m % k) == 0 ==> rounded_up(n, k) <= m,
{
    let q = (n + (k - 1)) / k;
    lemma_fundamental_div_mod(n + (k - 1), k);
    assert(q * k == k * q) by (nonlinear_arith);
    lemma_fundamental_div_mod_converse(q * k, k, q, 0);
    assert forall|m: int| n <= m && #[trigger] (m % k) == 0 implies rounded_up(n, k) <= m by {
        let p = m / k;
        lemma_fundamental_div_mod(m, k);
        assert(k * q <= k * p) by (nonlinear_arith)
            requires
                k > 0,
                k * q < n + k,
                n <= k * p,
        ;
    }
}

/// A multiple of `k` is rounded up to itself, so rounding up twice is rounding up once.
pub proof fn law_round_up_idempotent(n: int, k: int)
    requires
        k > 0,
    ensures
        n % k == 0 ==> rounded_up(n, k) == n,
        rounded_up(rounded_up(n, k), k) == rounded_up(n, k),
{
    law_round_up_smallest(n, k);
    law_round_up_smallest(rounded_up(n, k), k);
}

/// Returns the smallest multiple of `k` that is at least `n`.
pub fn round_up_to(n: usize, k: usize) -> (r: usize)
    requires
        k > 0,
        n + (k - 1) <= usize::MAX,
    ensures
        r == rounded_up(n as int, k as int),
{
    proof {
        lemma_fundamental_div_mod(n + (k - 1), k as int);
        let q = (n + (k - 1)) / k as int;
        assert(q * k == k * q) by (nonlinear_arith);
        assert(q >= 0) by (nonlinear_arith)
            requires
                q == (n + (k - 1)) / k as int,
                k > 0,
        ;
    }
    (n + (k - 1)) / k * k
}

/// Size overflow error during the computation of stack allocation requirements.
#[derive(Clone, Copy, Debug, PartialEq, Eq, Structural)]
pub struct SizeOverflow;

/// Stack allocation requirements.
#[derive(Clone, Copy, Debug, PartialEq, Eq, Structural)]
pub struct StackReq {
    size: usize,
    align: usize,
}

/// A size and an alignment in bytes.
pub struct StackReqView {
    pub size: nat,
    pub align: nat,
}

impl View for StackReq {
    type V = StackReqView;

    closed spec fn view(&self) -> StackReqView {
        StackReqView { size: self.size as nat, align: self.align as nat }
    }
}

impl StackReqView {
    /// Whether the alignment is a power of two, and both are machine words.
    pub open spec fn valid(self) -> bool {
        &&& is_pow2(self.align as int)
        &&& self.align <= usize::MAX
        &&& self.size <= usize::MAX
    }

    /// The alignment that is enough for both.
    pub open spec fn common_align(self, other: StackReqView) -> nat {
        if self.align > other.align {
            self.align
        } else {
            other.align
        }
    }

    /// What is enough for both at the same time: the sum of the sizes, each rounded up to the
    /// common alignment. Nothing, where a number that comes up in this is no machine word.
    pub open spec fn both(self, other: StackReqView) -> Option<StackReqView> {
        let align = self.common_align(other);
        let a = rounded_up(self.size as int, align as int);
        let b = rounded_up(other.size as int, align as int);
        if self.size + (align - 1) > usize::MAX || other.size + (align - 1) > usize::MAX || a + b
            > usize::MAX {
            None
        } else {
            Some(StackReqView { size: (a + b) as nat, align })
        }
    }

    /// What is enough for either of them: the larger of the sizes, rounded up to the common
    /// alignment. Nothing, where a number that comes up in this is no machine word.
    pub open spec fn either(self, other: StackReqView) -> Option<StackReqView> {
        let align = self.common_align(other);
        let a = rounded_up(self.size as int, align as int);
        let b = rounded_up(other.size as int, align as int);
        if self.size + (align - 1) > usize::MAX || other.size + (align - 1) > usize::MAX {
            None
        } else {
            Some(
                StackReqView {
                    size: (if a > b {
                        a
                    } else {
                        b
                    }) as nat,
                    align,
                },
            )
        }
    }
}

/// `dyn_stack::StackReq::try_and`, on the requirements `a` and `b`, each a size and an alignment.
/// The alignments are powers of two, since `dyn_stack::StackReq::new_aligned` panics on others.
/// Claimed: the result is the larger alignment and the sum of the sizes, each rounded up to that
/// alignment, and nothing, for its error, comes exactly where rounding up or the sum overflows.
#[verifier::external_body]
fn dyn_stack_try_and(
    a: (usize, usize),
    b: (usize, usize),
) -> (r: Option<(usize, usize)>)
    requires
        is_pow2(a.1 as int),
        is_pow2(b.1 as int),
    ensures
        match (StackReqView { size: a.0 as nat, align: a.1 as nat }).both(
            StackReqView { size: b.0 as nat, align: b.1 as nat },
        ) {
            Some(q) => r matches Some(t) && t.0 == q.size && t.1 == q.align,
            None => r is None,
        },
{
    let a = dyn_stack::StackReq::new_aligned::<u8>(a.0, a.1);
    let b = dyn_stack::StackReq::new_aligned::<u8>(b.0, b.1);
    a.try_and(b).ok().map(|q| (q.size_bytes(), q.align_bytes()))
}

/// `dyn_stack::StackReq::try_or`, on the requirements `a` and `b`, each a size and an alignment.
/// The alignments are powers of two, since `dyn_stack::StackReq::new_aligned` panics on others.
/// Claimed: the result is the larger alignment and the larger of the sizes, each rounded up to that
/// alignment, and nothing, for its error, comes exactly where rounding up overflows.
#[verifier::external_body]
fn dyn_stack_try_or(
    a: (usize, usize),
    b: (usize, usize),
) -> (r: Option<(usize, usize)>)
    requires
        is_pow2(a.1 as int),
        is_pow2(b.1 as int),
    ensures
        match (StackReqView { size: a.0 as nat, align: a.1 as nat }).either(
            StackReqView { size: b.0 as nat, align: b.1 as nat },
        ) {
            Some(q) => r matches Some(t) && t.0 == q.size && t.1 == q.align,
            None => r is None,
        },
{
    let a = dyn_stack::StackReq::new_aligned::<u8>(a.0, a.1);
    let b = dyn_stack::StackReq::new_aligned::<u8>(b.0, b.1);
    a.try_or(b).ok().map(|q| (q.size_bytes(), q.align_bytes()))
}

/// `dyn_stack::StackReq::try_new_aligned`. It panics where `align` is no power of two, or is less
/// than the alignment of `T`. Claimed: the result is the size of `n` elements of type `T`, and
/// `align`, and nothing, for its error, comes exactly where that size overflows.
#[verifier::external_body]
fn dyn_stack_try_new_aligned<T>(
    n: usize,
    align: usize,
) -> (r: Option<(usize, usize)>)
    requires
        is_pow2(align as int),
        align >= layout::align_of::<T>(),
    ensures
        match r {
            Some(q) => q.0 == layout::size_of::<T>() * n && q.1 == align,
            None => layout::size_of::<T>() * n > usize::MAX,
        },
{
    dyn_stack::StackReq::try_new_aligned::<T>(n, align).ok().map(
        |q| (q.size_bytes(), q.align_bytes()),
    )
}

impl StackReq {
    /// Returns the requirements for `n` elements of type `T`, overaligned with alignment `align`,
    /// which has to be a power of two and enough for `T`.
    pub fn try_new_aligned<T>(n: usize, align: usize) -> (r: Result<StackReq, SizeOverflow>)
        requires
            is_pow2(align as int),
            align >= layout::align_of::<T>(),
        ensures
            match r {
                Ok(q) => q@ == (StackReqView {
                    size: layout::size_of::<T>() * n as nat,
                    align: align as nat,
                }) && q@.valid(),
                Err(_) => layout::size_of::<T>() * n > usize::MAX,
            },
    {
        match dyn_stack_try_new_aligned::<T>(n, align) {
            Some(q) => Ok(StackReq { size: q.0, align: q.1 }),
            None => Err(SizeOverflow),
        }
    }

    /// Returns the number of allocated bytes required.
    pub fn size_bytes(&self) -> (r: usize)
        ensures
            r == self@.size,
    {
        self.size
    }

    /// Returns the alignment of allocated bytes required.
    pub fn align_bytes(&self) -> (r: usize)
        ensures
            r == self@.align,
    {
        self.align
    }

    /// Returns the requirements for both of `self` and `other`, simultaneously and in any order.
    pub fn try_and(self, other: StackReq) -> (r: Result<StackReq, SizeOverflow>)
        requires
            self@.valid(),
            other@.valid(),
        ensures
            match r {
                Ok(q) => Some(q@) == self@.both(other@) && q@.valid(),
                Err(_) => self@.both(other@) is None,
            },
    {
        match dyn_stack_try_and((self.size, self.align), (other.size, other.align)) {
            Some(q) => Ok(StackReq { size: q.0, align: q.1 }),
            None => Err(SizeOverflow),
        }
    }

    /// Returns the requirements for either of `self` and `other`, with only one being active at a
    /// time.
    pub fn try_or(self, other: StackReq) -> (r: Result<StackReq, SizeOverflow>)
        requires
            self@.valid(),
            other@.valid(),
        ensures
            match r {
                Ok(q) => Some(q@) == self@.either(other@) && q@.valid(),
                Err(_) => self@.either(other@) is None,
            },
    {
        match dyn_stack_try_or((self.size, self.align), (other.size, other.align)) {
            Some(q) => Ok(StackReq { size: q.0, align: q.1 }),
            None => Err(SizeOverflow),
        }
    }
}

/// What is enough for both is enough for either, and has the same alignment.
pub proof fn law_both_covers_either(a: StackReqView, b: StackReqView)
    requires
        a.valid(),
        b.valid(),
        a.both(b) is Some,
    ensures
        a.either(b) is Some,
        a.either(b)->0.size <= a.both(b)->0.size,
        a.either(b)->0.align == a.both(b)->0.align,
        a.size <= a.either(b)->0.size,
        b.size <= a.either(b)->0.size,
        a.size + b.size <= a.both(b)->0.size,
{
    reveal(is_pow2);
    let align = a.common_align(b) as int;
    law_round_up_smallest(a.size as int, align);
    law_round_up_smallest(b.size as int, align);
}

/// What is enough for both, and for either, has the larger of the two alignments. Each size is
/// rounded up to the multiple of the alignment that comes next. What is enough for both at the same
/// time is the sum of the two multiples, and what is enough for either is the larger of them.
/// Returns the alignment and the two multiples.
pub proof fn law_requirements_exact(a: StackReqView, b: StackReqView) -> (r: (int, int, int))
    requires
        a.valid(),
        b.valid(),
    ensures
        ({
            let (align, x, y) = r;
            let rounds = a.size + (align - 1) <= usize::MAX && b.size + (align - 1) <= usize::MAX;
            &&& a.align <= align && b.align <= align
            &&& align == a.align || align == b.align
            &&& a.size <= x < a.size + align && x % align == 0
            &&& b.size <= y < b.size + align && y % align == 0
            &&& a.both(b) is Some <==> rounds && x + y <= usize::MAX
            &&& a.either(b) is Some <==> rounds
            &&& a.both(b) matches Some(q) ==> q.size == x + y && q.align == align
            &&& a.either(b) matches Some(q) ==> {
                &&& x <= q.size && y <= q.size
                &&& q.size == x || q.size == y
                &&& q.align == align
            }
        }),
{
    reveal(is_pow2);
    let align = a.common_align(b) as int;
    let x = rounded_up(a.size as int, align);
    let y = rounded_up(b.size as int, align);
    law_round_up_smallest(a.size as int, align);
    law_round_up_smallest(b.size as int, align);
    (align, x, y)
}

/// Where one of two operations needs more, the two of them need no less, together or one at a time.
pub proof fn law_requirements_grow(a: StackReqView, b: StackReqView, c: StackReqView)
    requires
        a.valid(),
        b.valid(),
        c.valid(),
        a.size <= c.size,
        a.align == c.align,
    ensures
        c.both(b) is Some ==> a.both(b) is Some && a.both(b)->0.size <= c.both(b)->0.size,
        c.either(b) is Some ==> a.either(b) is Some && a.either(b)->0.size <= c.either(b)->0.size,
{
    reveal(is_pow2);
    let align = a.common_align(b) as int;
    law_round_up_smallest(a.size as int, align);
    law_round_up_smallest(b.size as int, align);
    law_round_up_smallest(c.size as int, align);
    assert(rounded_up(c.size as int, align) % align == 0);
}

/// What is enough does not depend on the order.
pub proof fn law_requirements_commute(a: StackReqView, b: StackReqView)
    ensures
        a.both(b) == b.both(a),
        a.either(b) == b.either(a),
{
}

/// `core::any::TypeId::of`, compared with `==`: whether `T` is `num_complex::Complex32`. Claimed:
/// it then takes up eight bytes, as a pair of parts of four bytes each does that is laid out as in
/// the language C. That no other type gives `true` is not stated, since Verus has no equality of
/// types.
#[verifier::external_body]
fn is_complex_32<T: 'static>() -> (r: bool)
    ensures
        r ==> layout::size_of::<T>() == 8,
{
    TypeId::of::<T>() == TypeId::of::<num_complex::Complex32>()
}

/// `core::any::TypeId::of`, compared with `==`: whether `T` is `num_complex::Complex64`. Claimed:
/// it then takes up sixteen bytes, as a pair of parts of eight bytes each does that is laid out as
/// in the language C. That no other type gives `true` is not stated, since Verus has no equality of
/// types.
#[verifier::external_body]
fn is_complex_64<T: 'static>() -> (r: bool)
    ensures
        r ==> layout::size_of::<T>() == 16,
{
    TypeId::of::<T>() == TypeId::of::<num_complex::Complex64>()
}

/// `core::any::TypeId::of`, compared with `==`: whether `T` is the single precision type of the
/// parts of `num_complex::Complex32`. Claimed: it then takes up four bytes. That no other type
/// gives `true` is not stated, since Verus has no equality of types.
#[verifier::external_body]
fn is_part_of_complex_32<T: 'static>() -> (r: bool)
    ensures
        r ==> layout::size_of::<T>() == 4,
{
    TypeId::of::<T>() == TypeId::of::<
        <num_complex::Complex32 as num_complex::ComplexFloat>::Real,
    >()
}

/// `core::any::TypeId::of`, compared with `==`: whether `T` is the double precision type of the
/// parts of `num_complex::Complex64`. Claimed: it then takes up eight bytes. That no other type
/// gives `true` is not stated, since Verus has no equality of types.
#[verifier::external_body]
fn is_part_of_complex_64<T: 'static>() -> (r: bool)
    ensures
        r ==> layout::size_of::<T>() == 8,
{
    TypeId::of::<T>() == TypeId::of::<
        <num_complex::Complex64 as num_complex::ComplexFloat>::Real,
    >()
}

/// `aligned_vec::CACHELINE_ALIGN`. Claimed: it is one of the values that it has on the various
/// machines.
#[verifier::external_body]
fn cacheline_align() -> (r: usize)
    ensures
        r == 32 || r == 64 || r == 128 || r == 256,
{
    aligned_vec::CACHELINE_ALIGN
}

/// Whether `cacheline` is the alignment of a cache line on some machine.
pub open spec fn is_cacheline(cacheline: nat) -> bool {
    cacheline == 32 || cacheline == 64 || cacheline == 128 || cacheline == 256
}

/// Whether a type that is processed in vectors may take up `size` bytes.
pub open spec fn is_vectorizable_size(size: nat) -> bool {
    size == 4 || size == 8 || size == 16
}

/// Whether `r` is an answer of the comparison of the identity of `T` with that of the single
/// precision type of the parts of `num_complex::Complex32`.
pub closed spec fn answers_part_of_complex_32<T: 'static>(r: bool) -> bool {
    call_ensures(is_part_of_complex_32::<T>, (), r)
}

/// Whether `r` is an answer of the comparison of the identity of `T` with that of the double
/// precision type of the parts of `num_complex::Complex64`.
pub closed spec fn answers_part_of_complex_64<T: 'static>(r: bool) -> bool {
    call_ensures(is_part_of_complex_64::<T>, (), r)
}

/// Whether `r` is an answer of the comparison of the identity of `T` with that of
/// `num_complex::Complex32`.
pub closed spec fn answers_complex_32<T: 'static>(r: bool) -> bool {
    call_ensures(is_complex_32::<T>, (), r)
}

/// Whether `r` is an answer of the comparison of the identity of `T` with that of
/// `num_complex::Complex64`.
pub closed spec fn answers_complex_64<T: 'static>(r: bool) -> bool {
    call_ensures(is_complex_64::<T>, (), r)
}

/// Returns whether vectors of `T` are processed in one instruction: `T` is a single or double
/// precision number, or a complex number with such parts. The answer is `true` exactly where one of
/// the four comparisons of types is.
pub fn is_vectorizable<T: 'static>() -> (r: bool)
    ensures
        exists|single: bool, double: bool, complex_single: bool, complex_double: bool|
            {
                &&& #[trigger] answers_part_of_complex_32::<T>(single)
                &&& #[trigger] answers_part_of_complex_64::<T>(double)
                &&& #[trigger] answers_complex_32::<T>(complex_single)
                &&& #[trigger] answers_complex_64::<T>(complex_double)
                &&& r == (single || double || complex_single || complex_double)
            },
        r ==> is_vectorizable_size(layout::size_of::<T>()),
{
    let double = is_part_of_complex_64::<T>();
    let single = is_part_of_complex_32::<T>();
    let complex_double = is_complex_64::<T>();
    let complex_single = is_complex_32::<T>();
    assert(answers_part_of_complex_64::<T>(double));
    assert(answers_part_of_complex_32::<T>(single));
    assert(answers_complex_64::<T>(complex_double));
    assert(answers_complex_32::<T>(complex_single));
    double || single || complex_double || complex_single
}

/// Whether `r` is an answer of `is_vectorizable`, for `T`.
pub open spec fn answers_vectorizable<T: 'static>(r: bool) -> bool {
    call_ensures(is_vectorizable::<T>, (), r)
}

/// Whether `r` is what `aligned_vec::CACHELINE_ALIGN` was read as.
pub closed spec fn answers_cacheline(r: usize) -> bool {
    call_ensures(cacheline_align, (), r)
}

/// The answers of the comparisons of types are what the comparisons returned.
proof fn lemma_answers<T: 'static>(r: bool)
    ensures
        answers_part_of_complex_32::<T>(r) ==> call_ensures(is_part_of_complex_32::<T>, (), r),
        answers_part_of_complex_64::<T>(r) ==> call_ensures(is_part_of_complex_64::<T>, (), r),
        answers_complex_32::<T>(r) ==> call_ensures(is_complex_32::<T>, (), r),
        answers_complex_64::<T>(r) ==> call_ensures(is_complex_64::<T>, (), r),
{
}

/// A type that one of the comparisons of types is true of takes up as many bytes as the type that it
/// was compared with.
pub proof fn law_compared_sizes<T: 'static>()
    ensures
        answers_part_of_complex_32::<T>(true) ==> layout::size_of::<T>() == 4,
        answers_part_of_complex_64::<T>(true) ==> layout::size_of::<T>() == 8,
        answers_complex_32::<T>(true) ==> layout::size_of::<T>() == 8,
        answers_complex_64::<T>(true) ==> layout::size_of::<T>() == 16,
{
    lemma_answers::<T>(true);
}

/// A type that is vectorizable takes up a number of bytes that such types take up.
pub proof fn law_vectorizable_size<T: 'static>(vectorizable: bool)
    requires
        answers_vectorizable::<T>(vectorizable),
    ensures
        vectorizable ==> is_vectorizable_size(layout::size_of::<T>()),
{
}

/// What the alignment of a cache line was read as is that of some machine.
pub proof fn law_cacheline_align(cacheline: usize)
    requires
        answers_cacheline(cacheline),
    ensures
        is_cacheline(cacheline as nat),
{
}

/// The alignment of a temporary matrix, and the offset between its columns, in elements.
pub struct TempLayout {
    pub align: nat,
    pub col_stride: nat,
}

/// The layout of a temporary matrix of `nrows` rows, whose elements take up `size` bytes and have
/// the alignment `align`. Where the elements are vectorizable, each column begins at the start of a
/// cache line.
pub open spec fn temp_layout(
    vectorizable: bool,
    cacheline: nat,
    size: nat,
    align: nat,
    nrows: nat,
) -> TempLayout {
    if vectorizable {
        TempLayout {
            align: cacheline,
            col_stride: rounded_up(nrows as int, (cacheline / size) as int) as nat,
        }
    } else {
        TempLayout { align, col_stride: nrows }
    }
}

/// Returns the alignment of vectorizable elements or of other elements.
pub fn align_of_elements(vectorizable: bool, cacheline: usize, align: usize) -> (r: usize)
    ensures
        r == if vectorizable {
            cacheline
        } else {
            align
        },
{
    if vectorizable {
        cacheline
    } else {
        align
    }
}

/// Returns the alignment that matrices of `T` are given: that of a cache line where `T` is
/// vectorizable, and that of `T` otherwise.
pub fn align_for<T: 'static>() -> (r: usize)
    ensures
        exists|vectorizable: bool, cacheline: usize|
            {
                &&& #[trigger] answers_vectorizable::<T>(vectorizable)
                &&& #[trigger] answers_cacheline(cacheline)
                &&& r == if vectorizable {
                    cacheline as nat
                } else {
                    layout::align_of::<T>()
                }
            },
        is_pow2(r as int),
        r >= layout::align_of::<T>(),
{
    layout::layout_for_type_is_valid::<T>();
    let vectorizable = is_vectorizable::<T>();
    let cacheline = cacheline_align();
    proof {
        lemma_align_enough::<T>();
        assert(answers_vectorizable::<T>(vectorizable));
        assert(answers_cacheline(cacheline));
    }
    align_of_elements(vectorizable, cacheline, align_of::<T>())
}

/// The alignment of a cache line is a power of two, and enough for a vectorizable type.
proof fn lemma_align_enough<T>()
    ensures
        is_pow2(32),
        is_pow2(64),
        is_pow2(128),
        is_pow2(256),
        is_vectorizable_size(layout::size_of::<T>()) && layout::align_of::<T>() > 0
            && layout::size_of::<T>() % layout::align_of::<T>() == 0 ==> layout::align_of::<T>()
            <= 16,
{
    reveal_with_fuel(is_pow2, 10);
    let size = layout::size_of::<T>() as int;
    let align = layout::align_of::<T>() as int;
    if 0 < align && align > size && size > 0 {
        vstd::arithmetic::div_mod::lemma_small_mod(size as nat, align as nat);
    }
}

/// Returns the offset between the columns of a temporary matrix of `nrows` rows, in elements of
/// `size` bytes.
pub fn temp_col_stride(vectorizable: bool, cacheline: usize, size: usize, nrows: usize) -> (r: usize)
    requires
        vectorizable ==> 0 < size <= cacheline && nrows + (cacheline / size - 1) <= usize::MAX,
    ensures
        r == temp_layout(vectorizable, cacheline as nat, size as nat, 0, nrows as nat).col_stride,
        !vectorizable ==> r == nrows,
        vectorizable ==> nrows <= r < nrows + cacheline / size && r % (cacheline / size) == 0,
{
    if vectorizable {
        proof {
            lemma_fundamental_div_mod_converse(size as int, size as int, 1, 0);
            vstd::arithmetic::div_mod::lemma_div_is_ordered(
                size as int,
                cacheline as int,
                size as int,
            );
            law_round_up_smallest(nrows as int, (cacheline / size) as int);
        }
        round_up_to(nrows, cacheline / size)
    } else {
        nrows
    }
}

/// The offset between the columns of a temporary matrix, and the number of elements that it takes
/// up. Nothing, where that number, or one on the way to it, is no machine word.
pub open spec fn temp_len(
    vectorizable: bool,
    cacheline: nat,
    size: nat,
    nrows: nat,
    ncols: nat,
) -> Option<(nat, nat)> {
    let col_stride = temp_layout(vectorizable, cacheline, size, 0, nrows).col_stride;
    if vectorizable && nrows + (cacheline / size - 1) > usize::MAX || col_stride * ncols
        > usize::MAX {
        None
    } else {
        Some((col_stride, col_stride * ncols))
    }
}

/// The stack allocation requirements of a temporary matrix. Nothing, where a number that comes up
/// in them is no machine word.
pub open spec fn temp_req(
    vectorizable: bool,
    cacheline: nat,
    size: nat,
    align: nat,
    nrows: nat,
    ncols: nat,
) -> Option<StackReqView> {
    match temp_len(vectorizable, cacheline, size, nrows, ncols) {
        Some(len) => if size * len.1 > usize::MAX {
            None
        } else {
            Some(
                StackReqView {
                    size: size * len.1,
                    align: temp_layout(vectorizable, cacheline, size, align, nrows).align,
                },
            )
        },
        None => None,
    }
}

/// Returns the offset between the columns of a temporary matrix of `nrows` rows and `ncols` columns
/// of elements of `size` bytes, and the number of elements that it takes up, unless that number, or
/// one on the way to it, is no machine word.
pub fn temp_len_with(
    vectorizable: bool,
    cacheline: usize,
    size: usize,
    nrows: usize,
    ncols: usize,
) -> (r: Option<(usize, usize)>)
    requires
        vectorizable ==> 0 < size <= cacheline,
    ensures
        match temp_len(
            vectorizable,
            cacheline as nat,
            size as nat,
            nrows as nat,
            ncols as nat,
        ) {
            Some(len) => r matches Some(t) && t.0 == len.0 && t.1 == len.1,
            None => r is None,
        },
        r matches Some(t) ==> nrows <= t.0 && t.1 == t.0 * ncols,
{
    proof {
        lemma_temp_col_stride(vectorizable, cacheline as nat, size as nat, 0, nrows as nat);
    }
    if vectorizable {
        proof {
            lemma_fundamental_div_mod_converse(size as int, size as int, 1, 0);
            vstd::arithmetic::div_mod::lemma_div_is_ordered(
                size as int,
                cacheline as int,
                size as int,
            );
        }
        if nrows > usize::MAX - (cacheline / size - 1) {
            return None;
        }
    }
    let col_stride = temp_col_stride(vectorizable, cacheline, size, nrows);
    match col_stride.checked_mul(ncols) {
        Some(len) => Some((col_stride, len)),
        None => None,
    }
}

/// Returns the stack allocation requirements of a temporary matrix of `nrows` rows and `ncols`
/// columns of elements of type `T`, which are vectorizable or not, on a machine with the given
/// alignment of cache lines.
pub fn temp_mat_req_with<T: 'static>(
    vectorizable: bool,
    cacheline: usize,
    nrows: usize,
    ncols: usize,
) -> (r: Result<StackReq, SizeOverflow>)
    requires
        is_cacheline(cacheline as nat),
        vectorizable ==> is_vectorizable_size(layout::size_of::<T>()),
    ensures
        match temp_req(
            vectorizable,
            cacheline as nat,
            layout::size_of::<T>(),
            layout::align_of::<T>(),
            nrows as nat,
            ncols as nat,
        ) {
            Some(q) => r matches Ok(req) && req@ == q && q.valid(),
            None => r is Err,
        },
{
    layout::layout_for_type_is_valid::<T>();
    proof {
        lemma_align_enough::<T>();
    }
    let len = match temp_len_with(vectorizable, cacheline, size_of::<T>(), nrows, ncols) {
        Some(len) => len.1,
        None => {
            return Err(SizeOverflow);
        },
    };
    let align = align_of_elements(vectorizable, cacheline, align_of::<T>());
    StackReq::try_new_aligned::<T>(len, align)
}

/// Returns the stack allocation requirements of a temporary matrix of `nrows` rows and `ncols`
/// columns of elements of type `T`.
pub fn temp_mat_req<T: 'static>(nrows: usize, ncols: usize) -> (r: Result<StackReq, SizeOverflow>)
    ensures
        exists|vectorizable: bool, cacheline: usize|
            {
                &&& #[trigger] answers_vectorizable::<T>(vectorizable)
                &&& #[trigger] answers_cacheline(cacheline)
                &&& match temp_req(
                    vectorizable,
                    cacheline as nat,
                    layout::size_of::<T>(),
                    layout::align_of::<T>(),
                    nrows as nat,
                    ncols as nat,
                ) {
                    Some(q) => r matches Ok(req) && req@ == q && q.valid(),
                    None => r is Err,
                }
            },
{
    let vectorizable = is_vectorizable::<T>();
    let cacheline = cacheline_align();
    assert(answers_vectorizable::<T>(vectorizable));
    assert(answers_cacheline(cacheline));
    temp_mat_req_with::<T>(vectorizable, cacheline, nrows, ncols)
}

/// Returns the offset between the columns of a temporary matrix of `nrows` rows and `ncols` columns
/// of elements of type `T`, and the number of elements that it takes up, unless that number, or one
/// on the way to it, is no machine word.
pub fn temp_mat_len<T: 'static>(nrows: usize, ncols: usize) -> (r: Option<(usize, usize)>)
    ensures
        exists|vectorizable: bool, cacheline: usize|
            {
                &&& #[trigger] answers_vectorizable::<T>(vectorizable)
                &&& #[trigger] answers_cacheline(cacheline)
                &&& match temp_len(
                    vectorizable,
                    cacheline as nat,
                    layout::size_of::<T>(),
                    nrows as nat,
                    ncols as nat,
                ) {
                    Some(len) => r matches Some(t) && t.0 == len.0 && t.1 == len.1,
                    None => r is None,
                }
            },
{
    let vectorizable = is_vectorizable::<T>();
    let cacheline = cacheline_align();
    assert(answers_vectorizable::<T>(vectorizable));
    assert(answers_cacheline(cacheline));
    temp_len_with(vectorizable, cacheline, size_of::<T>(), nrows, ncols)
}

/// Returns whether the elements of type `T` are shown as sums of their parts, which is so for the
/// two types of complex numbers, and whether their parts are then double precision.
pub fn imaginary_form<T: 'static>() -> (r: Option<bool>)
    ensures
        exists|complex_single: bool, complex_double: bool|
            {
                &&& #[trigger] answers_complex_32::<T>(complex_single)
                &&& #[trigger] answers_complex_64::<T>(complex_double)
                &&& r == if complex_single {
                    Some(false)
                } else if complex_double {
                    Some(true)
                } else {
                    None
                }
            },
{
    let complex_single = is_complex_32::<T>();
    let complex_double = is_complex_64::<T>();
    assert(answers_complex_32::<T>(complex_single));
    assert(answers_complex_64::<T>(complex_double));
    if complex_single {
        Some(false)
    } else if complex_double {
        Some(true)
    } else {
        None
    }
}

/// The elements of a temporary matrix have places of their own: the columns begin `col_stride`
/// elements apart, which is no less than the number of rows, so that each element lies in front of
/// the end of the last column, and no two elements have the same place.
proof fn lemma_temp_places(nrows: int, ncols: int, col_stride: int, i: int, j: int, k: int, l: int)
    requires
        nrows <= col_stride,
        0 <= i < nrows,
        0 <= j < ncols,
        0 <= k < nrows,
        0 <= l < ncols,
    ensures
        0 <= j * col_stride + i < ncols * col_stride,
        j * col_stride + i == l * col_stride + k ==> i == k && j == l,
{
    assert(0 <= j * col_stride + i < ncols * col_stride) by (nonlinear_arith)
        requires
            0 <= i < col_stride,
            0 <= j < ncols,
    ;
    if j * col_stride + i == l * col_stride + k {
        lemma_fundamental_div_mod_converse(j * col_stride + i, col_stride, j, i);
        lemma_fundamental_div_mod_converse(l * col_stride + k, col_stride, l, k);
    }
}

/// The offset between the columns of a temporary matrix: the number of rows or, where the elements
/// are vectorizable, the next multiple of the number of elements in a cache line.
proof fn lemma_temp_col_stride(vectorizable: bool, cacheline: nat, size: nat, align: nat, nrows: nat)
    requires
        vectorizable ==> 0 < size <= cacheline,
    ensures
        ({
            let l = temp_layout(vectorizable, cacheline, size, align, nrows);
            let lanes = (cacheline / size) as int;
            &&& !vectorizable ==> l.col_stride == nrows && l.align == align
            &&& vectorizable ==> l.align == cacheline && lanes >= 1
            &&& vectorizable ==> nrows <= l.col_stride < nrows + lanes
            &&& vectorizable ==> l.col_stride as int % lanes == 0
        }),
{
    if vectorizable {
        lemma_fundamental_div_mod_converse(size as int, size as int, 1, 0);
        vstd::arithmetic::div_mod::lemma_div_is_ordered(
            size as int,
            cacheline as int,
            size as int,
        );
        law_round_up_smallest(nrows as int, (cacheline / size) as int);
    }
}

/// A temporary matrix takes up as many elements as its columns do, which are `ncols` times the
/// offset between two of them. That offset is the number of rows or, where the elements are
/// vectorizable, the next multiple of the number of elements in a cache line. There is room for
/// every element, and no two elements share a place. There is no result only where one of the
/// numbers is no machine word. Returns the offset.
pub proof fn law_temp_len(
    vectorizable: bool,
    cacheline: usize,
    size: usize,
    nrows: usize,
    ncols: usize,
    r: Option<(usize, usize)>,
) -> (col_stride: int)
    requires
        vectorizable ==> 0 < size <= cacheline,
        call_ensures(temp_len_with, (vectorizable, cacheline, size, nrows, ncols), r),
    ensures
        !vectorizable ==> col_stride == nrows,
        vectorizable ==> nrows <= col_stride < nrows + cacheline / size,
        vectorizable ==> col_stride % (cacheline / size) as int == 0,
        r is Some <==> ncols * col_stride <= usize::MAX && (vectorizable ==> nrows + (cacheline
            / size - 1) <= usize::MAX),
        r matches Some(t) ==> t.0 == col_stride && t.1 == ncols * col_stride,
        r matches Some(t) ==> forall|i: int, j: int|
            0 <= i < nrows && 0 <= j < ncols ==> 0 <= #[trigger] (j * t.0 + i) < t.1,
        r matches Some(t) ==> forall|i: int, j: int, k: int, l: int|
            0 <= i < nrows && 0 <= j < ncols && 0 <= k < nrows && 0 <= l < ncols
                && #[trigger] (j * t.0 + i) == #[trigger] (l * t.0 + k) ==> i == k && j == l,
{
    let layout = temp_layout(vectorizable, cacheline as nat, size as nat, 0, nrows as nat);
    let col_stride = layout.col_stride as int;
    lemma_temp_col_stride(vectorizable, cacheline as nat, size as nat, 0, nrows as nat);
    assert(ncols * col_stride == col_stride * ncols) by (nonlinear_arith);
    assert forall|i: int, j: int| 0 <= i < nrows && 0 <= j < ncols implies 0 <= #[trigger] (j
        * col_stride + i) < ncols * col_stride by {
        lemma_temp_places(nrows as int, ncols as int, col_stride, i, j, i, j);
    }
    assert forall|i: int, j: int, k: int, l: int|
        0 <= i < nrows && 0 <= j < ncols && 0 <= k < nrows && 0 <= l < ncols && #[trigger] (j
            * col_stride + i) == #[trigger] (l * col_stride + k) implies i == k && j == l by {
        lemma_temp_places(nrows as int, ncols as int, col_stride, i, j, k, l);
    }
    col_stride
}

/// A column of a multiple of the number of elements in a cache line takes up whole cache lines.
proof fn lemma_lanes(cacheline: int, size: int, col_stride: int)
    requires
        is_cacheline(cacheline as nat),
        is_vectorizable_size(size as nat),
        cacheline >= 0,
        size >= 0,
        col_stride % (cacheline / size) == 0,
    ensures
        (col_stride * size) % cacheline == 0,
{
    let lanes = cacheline / size;
    assert(lanes * size == cacheline && lanes >= 1) by (nonlinear_arith)
        requires
            lanes == cacheline / size,
            cacheline == 32 || cacheline == 64 || cacheline == 128 || cacheline == 256,
            size == 4 || size == 8 || size == 16,
    ;
    lemma_fundamental_div_mod(col_stride, lanes);
    let q = col_stride / lanes;
    assert(col_stride * size == q * cacheline) by (nonlinear_arith)
        requires
            col_stride == lanes * q,
            lanes * size == cacheline,
    ;
    lemma_fundamental_div_mod_converse(col_stride * size, cacheline, q, 0);
}

/// The requirements of a temporary matrix of `T` are those of `ncols` columns, each of which takes
/// up the offset between two of them. The alignment is that of a cache line where the elements are
/// vectorizable, and that of `T` otherwise. There is an error only where a number is no machine
/// word. Returns the offset between the columns, in elements.
pub proof fn law_temp_mat_req_with<T: 'static>(
    vectorizable: bool,
    cacheline: usize,
    nrows: usize,
    ncols: usize,
    r: Result<StackReq, SizeOverflow>,
) -> (col_stride: int)
    requires
        is_cacheline(cacheline as nat),
        vectorizable ==> is_vectorizable_size(layout::size_of::<T>()),
        call_ensures(temp_mat_req_with::<T>, (vectorizable, cacheline, nrows, ncols), r),
    ensures
        ({
            let size = layout::size_of::<T>() as int;
            &&& !vectorizable ==> col_stride == nrows
            &&& vectorizable ==> nrows <= col_stride < nrows + cacheline as int / size
            &&& vectorizable ==> (col_stride * size) % cacheline as int == 0
            &&& r is Ok <==> {
                &&& ncols * col_stride <= usize::MAX
                &&& size * (ncols * col_stride) <= usize::MAX
                &&& vectorizable ==> nrows + (cacheline as int / size - 1) <= usize::MAX
            }
            &&& r matches Ok(q) ==> q@.size == size * (ncols * col_stride)
            &&& r matches Ok(q) ==> q@.align == if vectorizable {
                cacheline as nat
            } else {
                layout::align_of::<T>()
            }
            &&& r matches Ok(q) ==> forall|i: int, j: int|
                0 <= i < nrows && 0 <= j < ncols ==> size * (#[trigger] (j * col_stride + i)) + size
                    <= q@.size
        }),
{
    let size = layout::size_of::<T>() as int;
    let align = layout::align_of::<T>();
    let layout = temp_layout(vectorizable, cacheline as nat, size as nat, align, nrows as nat);
    let col_stride = layout.col_stride as int;
    lemma_temp_col_stride(vectorizable, cacheline as nat, size as nat, align, nrows as nat);
    lemma_temp_col_stride(vectorizable, cacheline as nat, size as nat, 0, nrows as nat);
    assert(ncols * col_stride == col_stride * ncols) by (nonlinear_arith);
    if vectorizable {
        lemma_lanes(cacheline as int, size, col_stride);
    }
    assert forall|i: int, j: int| 0 <= i < nrows && 0 <= j < ncols implies size * (#[trigger] (j
        * col_stride + i)) + size <= size * (ncols * col_stride) by {
        lemma_temp_places(nrows as int, ncols as int, col_stride, i, j, i, j);
        let p = j * col_stride + i;
        let n = ncols * col_stride;
        assert(size * p + size <= size * n) by (nonlinear_arith)
            requires
                size >= 0,
                p < n,
        ;
    }
    col_stride
}

/// `temp_mat_req` gives the requirements that `law_temp_mat_req_with` describes, for whether `T` is
/// vectorizable and for the alignment of a cache line. Returns these, and the offset between the
/// columns, in elements.
pub proof fn law_temp_mat_req<T: 'static>(
    nrows: usize,
    ncols: usize,
    r: Result<StackReq, SizeOverflow>,
) -> (found: (bool, usize, int))
    requires
        call_ensures(temp_mat_req::<T>, (nrows, ncols), r),
    ensures
        ({
            let (vectorizable, cacheline, col_stride) = found;
            let size = layout::size_of::<T>() as int;
            &&& answers_vectorizable::<T>(vectorizable)
            &&& answers_cacheline(cacheline)
            &&& !vectorizable ==> col_stride == nrows
            &&& vectorizable ==> nrows <= col_stride < nrows + cacheline as int / size
            &&& vectorizable ==> (col_stride * size) % cacheline as int == 0
            &&& r is Ok <==> {
                &&& ncols * col_stride <= usize::MAX
                &&& size * (ncols * col_stride) <= usize::MAX
                &&& vectorizable ==> nrows + (cacheline as int / size - 1) <= usize::MAX
            }
            &&& r matches Ok(q) ==> q@.size == size * (ncols * col_stride)
            &&& r matches Ok(q) ==> q@.align == if vectorizable {
                cacheline as nat
            } else {
                layout::align_of::<T>()
            }
        }),
{
    let size = layout::size_of::<T>() as int;
    let align = layout::align_of::<T>();
    let (vectorizable, cacheline) = choose|vectorizable: bool, cacheline: usize|
        {
            &&& #[trigger] answers_vectorizable::<T>(vectorizable)
            &&& #[trigger] answers_cacheline(cacheline)
            &&& match temp_req(
                vectorizable,
                cacheline as nat,
                layout::size_of::<T>(),
                layout::align_of::<T>(),
                nrows as nat,
                ncols as nat,
            ) {
                Some(q) => r matches Ok(req) && req@ == q && q.valid(),
                None => r is Err,
            }
        };
    law_vectorizable_size::<T>(vectorizable);
    law_cacheline_align(cacheline);
    let layout = temp_layout(vectorizable, cacheline as nat, size as nat, align, nrows as nat);
    let col_stride = layout.col_stride as int;
    lemma_temp_col_stride(vectorizable, cacheline as nat, size as nat, align, nrows as nat);
    lemma_temp_col_stride(vectorizable, cacheline as nat, size as nat, 0, nrows as nat);
    assert(ncols * col_stride == col_stride * ncols) by (nonlinear_arith);
    if vectorizable {
        lemma_lanes(cacheline as int, size, col_stride);
    }
    (vectorizable, cacheline, col_stride)
}

/// `temp_mat_len` gives the offset between the columns, and `ncols` times that offset, as
/// `law_temp_len` describes them, for whether `T` is vectorizable and for the alignment of a cache
/// line. Returns these, and the offset.
pub proof fn law_temp_mat_len<T: 'static>(
    nrows: usize,
    ncols: usize,
    r: Option<(usize, usize)>,
) -> (found: (bool, usize, int))
    requires
        call_ensures(temp_mat_len::<T>, (nrows, ncols), r),
    ensures
        ({
            let (vectorizable, cacheline, col_stride) = found;
            let size = layout::size_of::<T>() as int;
            &&& answers_vectorizable::<T>(vectorizable)
            &&& answers_cacheline(cacheline)
            &&& !vectorizable ==> col_stride == nrows
            &&& vectorizable ==> nrows <= col_stride < nrows + cacheline as int / size
            &&& vectorizable ==> (col_stride * size) % cacheline as int == 0
            &&& r is Some <==> ncols * col_stride <= usize::MAX && (vectorizable ==> nrows + (
            cacheline as int / size - 1) <= usize::MAX)
            &&& r matches Some(t) ==> t.0 == col_stride && t.1 == ncols * col_stride
        }),
{
    let size = layout::size_of::<T>() as int;
    let (vectorizable, cacheline) = choose|vectorizable: bool, cacheline: usize|
        {
            &&& #[trigger] answers_vectorizable::<T>(vectorizable)
            &&& #[trigger] answers_cacheline(cacheline)
            &&& match temp_len(
                vectorizable,
                cacheline as nat,
                layout::size_of::<T>(),
                nrows as nat,
                ncols as nat,
            ) {
                Some(len) => r matches Some(t) && t.0 == len.0 && t.1 == len.1,
                None => r is None,
            }
        };
    law_vectorizable_size::<T>(vectorizable);
    law_cacheline_align(cacheline);
    let layout = temp_layout(vectorizable, cacheline as nat, size as nat, 0, nrows as nat);
    let col_stride = layout.col_stride as int;
    lemma_temp_col_stride(vectorizable, cacheline as nat, size as nat, 0, nrows as nat);
    assert(ncols * col_stride == col_stride * ncols) by (nonlinear_arith);
    if vectorizable {
        lemma_lanes(cacheline as int, size, col_stride);
    }
    (vectorizable, cacheline, col_stride)
}

}
