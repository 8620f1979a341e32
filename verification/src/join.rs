//! Running two operations, in parallel or one after the other.

use crate::stack::{
    law_both_covers_either, law_requirements_exact, SizeOverflow, StackReq, StackReqView,
};
use core::mem::MaybeUninit;
use dyn_stack::{DynArray, DynStack};
use vstd::arithmetic::power2::is_pow2;
use vstd::prelude::*;

verus! {

/// Whether two operations run in parallel.
#[derive(Copy, Clone, Debug, PartialEq, Eq, Structural)]
pub enum Parallelism {
    Sequential,
    Rayon,
}

/// `dyn_stack::DynStack`: a buffer of bytes that arrays are taken from.
#[verifier::external_type_specification]
#[verifier::external_body]
pub struct ExDynStack<'a>(DynStack<'a>);

/// `dyn_stack::DynArray`: an array that was taken from a stack.
#[verifier::external_type_specification]
#[verifier::external_body]
#[verifier::reject_recursive_types(T)]
pub struct ExDynArray<'a, T>(DynArray<'a, T>);

/// The number of bytes in the buffer of `stack`.
pub uninterp spec fn stack_len(stack: DynStack<'_>) -> nat;

/// Whether the buffer of `stack` has room for `size` bytes behind its first address that is a
/// multiple of `align`.
pub uninterp spec fn stack_can_hold(stack: DynStack<'_>, size: usize, align: usize) -> bool;

/// The number of bytes in `array`.
pub uninterp spec fn array_len(array: DynArray<'_, MaybeUninit<u8>>) -> nat;

/// Whether `array` has room for `size` bytes behind its first address that is a multiple of
/// `align`.
pub uninterp spec fn array_can_hold(
    array: DynArray<'_, MaybeUninit<u8>>,
    size: usize,
    align: usize,
) -> bool;

/// Whether the buffers of two stacks have the same length, and room for the same.
pub open spec fn same_room(s: DynStack<'_>, stack: DynStack<'_>) -> bool {
    &&& stack_len(s) == stack_len(stack)
    &&& forall|size: usize, align: usize| #[trigger]
        stack_can_hold(s, size, align) == stack_can_hold(stack, size, align)
}

/// Whether the buffer of `s` has the bytes that `req` asks for, and holds them at the alignment that
/// `req` asks for.
pub open spec fn asked_room(s: DynStack<'_>, req: StackReqView) -> bool {
    &&& stack_len(s) == req.size
    &&& stack_can_hold(s, req.size as usize, req.align as usize)
}

/// Whether the buffer of `s` has the bytes of `stack` that are left over when what `req` asks for
/// has been taken, and less than an alignment of bytes has been skipped in front of it.
pub open spec fn left_over_room(s: DynStack<'_>, stack: DynStack<'_>, req: StackReqView) -> bool {
    stack_len(s) + req.size <= stack_len(stack) < stack_len(s) + req.size + req.align
}

/// `rayon::join`, which runs both operations, possibly in parallel, and returns what they return.
/// Claimed: each of the operations has been called once, and its result is handed back. It panics
/// only where an operation does.
#[verifier::external_body]
fn rayon_join<A, B, RA, RB>(op_a: A, op_b: B) -> (r: (RA, RB)) where
    A: FnOnce() -> RA + Send,
    B: FnOnce() -> RB + Send,
    RA: Send,
    RB: Send,

    requires
        call_requires(op_a, ()),
        call_requires(op_b, ()),
    ensures
        call_ensures(op_a, (), r.0),
        call_ensures(op_b, (), r.1),
{
    rayon::join(op_a, op_b)
}

/// `dyn_stack::DynStack::can_hold`, on the requirement of `size` bytes with alignment `align`. The
/// alignment is a power of two, since `dyn_stack::StackReq::new_aligned` panics on others. Claimed:
/// the answer depends on the stack, the size and the alignment alone.
#[verifier::external_body]
fn can_hold(stack: &DynStack<'_>, size: usize, align: usize) -> (r: bool)
    requires
        is_pow2(align as int),
    ensures
        r == stack_can_hold(*stack, size, align),
{
    stack.can_hold(dyn_stack::StackReq::new_aligned::<u8>(size, align))
}

/// `dyn_stack::DynStack::make_aligned_uninit`, for bytes. It panics where `align` is no power of
/// two, or the stack cannot hold the array. Claimed: the array has `size` bytes, and begins at a
/// multiple of `align`, so that it can hold them all. The remaining stack has the bytes behind the
/// array, and fewer bytes than `align` are skipped in front of it. How many depends on the address
/// of the buffer, and is not stated.
#[verifier::external_body]
fn make_aligned_uninit<'a>(
    stack: DynStack<'a>,
    size: usize,
    align: usize,
) -> (r: (DynArray<'a, MaybeUninit<u8>>, DynStack<'a>))
    requires
        is_pow2(align as int),
        stack_can_hold(stack, size, align),
    ensures
        array_len(r.0) == size,
        array_can_hold(r.0, size, align),
        stack_len(r.1) + size <= stack_len(stack),
        stack_len(stack) < stack_len(r.1) + size + align,
{
    stack.make_aligned_uninit::<u8>(size, align)
}

/// `dyn_stack::DynStack::new`, over the bytes of an array. Claimed: the buffer of the stack is
/// those bytes, so that it has their number, and room for the same.
#[verifier::external_body]
fn stack_over<'b>(array: &'b mut DynArray<'_, MaybeUninit<u8>>) -> (r: DynStack<'b>)
    ensures
        stack_len(r) == array_len(*old(array)),
        forall|size: usize, align: usize| #[trigger]
            stack_can_hold(r, size, align) == array_can_hold(*old(array), size, align),
{
    DynStack::new(array)
}

/// `dyn_stack::ReborrowMut::rb_mut` of `dyn_stack::DynStack`. Claimed: the result is a stack over
/// the same buffer, and the stack that was borrowed keeps its buffer.
#[verifier::external_body]
fn stack_rb_mut<'b>(stack: &'b mut DynStack<'_>) -> (r: DynStack<'b>)
    ensures
        same_room(r, *old(stack)),
        same_room(*final(stack), *old(stack)),
{
    dyn_stack::ReborrowMut::rb_mut(stack)
}

/// Whether `rayon::join` has been called on the two operations.
pub closed spec fn handed_to_rayon<A, B, RA, RB>(op_a: A, op_b: B) -> bool where
    A: FnOnce() -> RA + Send,
    B: FnOnce() -> RB + Send,
    RA: Send,
    RB: Send,
 {
    exists|r: (RA, RB)| #[trigger] call_ensures(rayon_join::<A, B, RA, RB>, (op_a, op_b), r)
}

/// Where `rayon::join` has been called on two operations, there is something that it returned, and
/// each operation has returned its part of it.
pub proof fn law_handed_to_rayon<A, B, RA, RB>(op_a: A, op_b: B) -> (r: (RA, RB)) where
    A: FnOnce() -> RA + Send,
    B: FnOnce() -> RB + Send,
    RA: Send,
    RB: Send,

    requires
        handed_to_rayon::<A, B, RA, RB>(op_a, op_b),
    ensures
        call_ensures(op_a, (), r.0),
        call_ensures(op_b, (), r.1),
{
    lemma_handed_to_rayon::<A, B, RA, RB>(op_a, op_b)
}

/// Where `rayon::join` has been called on two operations, there is something that it returned.
proof fn lemma_handed_to_rayon<A, B, RA, RB>(op_a: A, op_b: B) -> (r: (RA, RB)) where
    A: FnOnce() -> RA + Send,
    B: FnOnce() -> RB + Send,
    RA: Send,
    RB: Send,

    requires
        handed_to_rayon::<A, B, RA, RB>(op_a, op_b),
    ensures
        call_ensures(rayon_join::<A, B, RA, RB>, (op_a, op_b), r),
{
    choose|r: (RA, RB)| #[trigger] call_ensures(rayon_join::<A, B, RA, RB>, (op_a, op_b), r)
}

/// Runs both operations, in parallel or one after the other. Where they run one after the other,
/// the second may rely on the first having returned.
pub fn join_raw<A: Send + FnOnce(), B: Send + FnOnce()>(
    op_a: A,
    op_b: B,
    parallelism: Parallelism,
)
    requires
        call_requires(op_a, ()),
        parallelism == Parallelism::Rayon ==> call_requires(op_b, ()),
        call_ensures(op_a, (), ()) ==> call_requires(op_b, ()),
    ensures
        call_ensures(op_a, (), ()),
        call_ensures(op_b, (), ()),
        parallelism == Parallelism::Rayon ==> handed_to_rayon::<A, B, (), ()>(op_a, op_b),
{
    match parallelism {
        Parallelism::Sequential => {
            op_a();
            op_b();
        },
        Parallelism::Rayon => {
            let _ = rayon_join(op_a, op_b);
        },
    }
}

/// What two operations need together: one thread runs them one after the other, so that what is
/// enough for either is enough, and several threads run them at the same time.
pub open spec fn joined_req(n_threads: usize, a: StackReqView, b: StackReqView) -> Option<
    StackReqView,
> {
    if n_threads <= 1 {
        a.either(b)
    } else {
        a.both(b)
    }
}

/// Returns the stack allocation requirements of two operations that run with `n_threads` threads,
/// from those of each operation. The first operation whose requirements overflow decides which
/// error is returned, and where it is the first one, the second is not asked.
pub fn join_req<
    A: Fn(usize) -> Result<StackReq, SizeOverflow>,
    B: Fn(usize) -> Result<StackReq, SizeOverflow>,
    N: Fn(usize) -> usize,
>(req_a: A, req_b: B, n_threads_a: N, n_threads: usize) -> (r: Result<StackReq, SizeOverflow>)
    requires
        call_requires(req_a, (n_threads,)),
        forall|q: StackReq| #[trigger]
            call_ensures(req_a, (n_threads,), Ok(q)) ==> q@.valid() && call_requires(
                req_b,
                (n_threads,),
            ),
        forall|q: StackReq| #[trigger]
            call_ensures(req_b, (n_threads,), Ok(q)) ==> q@.valid(),
    ensures
        match r {
            Ok(q) => q@.valid() && exists|a: StackReq, b: StackReq|
                {
                    &&& #[trigger] call_ensures(req_a, (n_threads,), Ok(a))
                    &&& #[trigger] call_ensures(req_b, (n_threads,), Ok(b))
                    &&& joined_req(n_threads, a@, b@) == Some(q@)
                    &&& n_threads > 1 ==> a@.both(b@) == Some(q@)
                    &&& n_threads <= 1 ==> a@.either(b@) == Some(q@)
                },
            Err(e) => {
                ||| call_ensures(req_a, (n_threads,), Err(e))
                ||| call_ensures(req_b, (n_threads,), Err(e)) && exists|a: StackReq| #[trigger]
                    call_ensures(req_a, (n_threads,), Ok(a))
                ||| exists|a: StackReq, b: StackReq|
                    {
                        &&& #[trigger] call_ensures(req_a, (n_threads,), Ok(a))
                        &&& #[trigger] call_ensures(req_b, (n_threads,), Ok(b))
                        &&& joined_req(n_threads, a@, b@) is None
                        &&& n_threads > 1 ==> a@.both(b@) is None
                        &&& n_threads <= 1 ==> a@.either(b@) is None
                    }
            },
        },
{
    let a = match req_a(n_threads) {
        Ok(a) => a,
        Err(e) => {
            return Err(e);
        },
    };
    let b = match req_b(n_threads) {
        Ok(b) => b,
        Err(e) => {
            return Err(e);
        },
    };
    if n_threads <= 1 {
        a.try_or(b)
    } else {
        a.try_and(b)
    }
}

/// With several threads, however many there are, two operations need their requirements added up,
/// each rounded up to the alignment. One thread needs no more than the larger of them. There is no
/// room that is enough only where a number is no machine word. Returns the alignment, and the sizes
/// rounded up.
pub proof fn law_joined_req(n_threads: usize, a: StackReqView, b: StackReqView) -> (r: (
    int,
    int,
    int,
))
    requires
        a.valid(),
        b.valid(),
    ensures
        ({
            let (align, x, y) = r;
            let joined = joined_req(n_threads, a, b);
            let rounds = a.size + (align - 1) <= usize::MAX && b.size + (align - 1) <= usize::MAX;
            &&& a.align <= align && b.align <= align
            &&& align == a.align || align == b.align
            &&& a.size <= x < a.size + align && x % align == 0
            &&& b.size <= y < b.size + align && y % align == 0
            &&& n_threads > 1 ==> (joined is Some <==> rounds && x + y <= usize::MAX)
            &&& n_threads <= 1 ==> (joined is Some <==> rounds)
            &&& joined matches Some(q) ==> q.align == align
            &&& joined matches Some(q) ==> (n_threads > 1 ==> q.size == x + y)
            &&& joined matches Some(q) ==> (n_threads <= 1 ==> {
                &&& x <= q.size && y <= q.size
                &&& q.size == x || q.size == y
            })
        }),
{
    law_requirements_exact(a, b)
}

/// What `join_req` returns has room for each of the two operations and, where there are several
/// threads, for both of them at the same time. Returns the requirements of the two operations.
pub proof fn law_join_req_room<
    A: Fn(usize) -> Result<StackReq, SizeOverflow>,
    B: Fn(usize) -> Result<StackReq, SizeOverflow>,
    N: Fn(usize) -> usize,
>(req_a: A, req_b: B, n_threads_a: N, n_threads: usize, q: StackReq) -> (r: (StackReq, StackReq))
    requires
        forall|q: StackReq| #[trigger]
            call_ensures(req_a, (n_threads,), Ok(q)) ==> q@.valid(),
        forall|q: StackReq| #[trigger]
            call_ensures(req_b, (n_threads,), Ok(q)) ==> q@.valid(),
        call_ensures(join_req::<A, B, N>, (req_a, req_b, n_threads_a, n_threads), Ok(q)),
    ensures
        ({
            let (a, b) = r;
            &&& call_ensures(req_a, (n_threads,), Ok(a))
            &&& call_ensures(req_b, (n_threads,), Ok(b))
            &&& a@.size <= q@.size && b@.size <= q@.size
            &&& a@.align <= q@.align && b@.align <= q@.align
            &&& q@.align == a@.align || q@.align == b@.align
            &&& q@.size as int % q@.align as int == 0
            &&& n_threads > 1 ==> a@.size + b@.size <= q@.size < a@.size + b@.size + 2 * q@.align
            &&& n_threads <= 1 ==> q@.size < a@.size + q@.align || q@.size < b@.size + q@.align
        }),
{
    let (a, b) = choose|a: StackReq, b: StackReq|
        {
            &&& #[trigger] call_ensures(req_a, (n_threads,), Ok(a))
            &&& #[trigger] call_ensures(req_b, (n_threads,), Ok(b))
            &&& joined_req(n_threads, a@, b@) == Some(q@)
        };
    let (align, x, y) = law_joined_req(n_threads, a@, b@);
    if n_threads > 1 {
        vstd::arithmetic::div_mod::lemma_add_mod_noop(x, y, align);
        law_both_covers_either(a@, b@);
    }
    (a, b)
}

/// More than one thread never needs less than one thread does, and needs the same however many
/// threads there are.
pub proof fn law_joined_req_threads(n: usize, m: usize, a: StackReqView, b: StackReqView)
    requires
        a.valid(),
        b.valid(),
        n > 1,
    ensures
        m > 1 ==> joined_req(n, a, b) == joined_req(m, a, b),
        m <= 1 && joined_req(n, a, b) is Some ==> {
            &&& joined_req(m, a, b) is Some
            &&& joined_req(m, a, b)->0.size <= joined_req(n, a, b)->0.size
            &&& joined_req(m, a, b)->0.align == joined_req(n, a, b)->0.align
        },
{
    if a.both(b) is Some {
        law_both_covers_either(a, b);
    }
}

/// What the two operations are handed lies in the stack: the first has what it asked for, at the
/// alignment that it asked for, the second has the rest, and fewer bytes than the alignment are lost
/// between them.
pub proof fn law_stack_shared_out(
    a: DynStack<'_>,
    b: DynStack<'_>,
    stack: DynStack<'_>,
    req: StackReqView,
)
    requires
        asked_room(a, req),
        left_over_room(b, stack, req),
    ensures
        stack_can_hold(a, req.size as usize, req.align as usize),
        stack_len(a) == req.size,
        stack_len(a) + stack_len(b) <= stack_len(stack) < stack_len(a) + stack_len(b) + req.align,
{
}

/// Stacks with the same room have the same number of bytes and can hold the same, and any of them
/// may stand for another.
pub proof fn law_same_room(a: DynStack<'_>, b: DynStack<'_>, c: DynStack<'_>)
    ensures
        same_room(a, a),
        same_room(a, b) ==> same_room(b, a),
        same_room(a, b) && same_room(b, c) ==> same_room(a, c),
        same_room(a, b) ==> stack_len(a) == stack_len(b),
        same_room(a, b) ==> forall|size: usize, align: usize| #[trigger]
            stack_can_hold(a, size, align) == stack_can_hold(b, size, align),
{
}

/// Runs two operations one after the other, each with the whole stack. The second may rely on the
/// first having returned.
pub fn join_one_by_one<
    ReturnA: Send,
    ReturnB: Send,
    A: Send + for <'a>FnOnce(usize, DynStack<'a>) -> ReturnA,
    B: Send + for <'a>FnOnce(usize, DynStack<'a>) -> ReturnB,
>(op_a: A, op_b: B, n_threads: usize, stack: DynStack<'_>)
    requires
        forall|s: DynStack<'_>| #[trigger]
            same_room(s, stack) ==> call_requires(op_a, (n_threads, s)),
        forall|s: DynStack<'_>, r: ReturnA, t: DynStack<'_>|
            #![trigger call_ensures(op_a, (n_threads, s), r), same_room(t, stack)]
            call_ensures(op_a, (n_threads, s), r) && same_room(s, stack) && same_room(t, stack)
                ==> call_requires(op_b, (n_threads, t)),
    ensures
        exists|s: DynStack<'_>, r: ReturnA| #[trigger]
            call_ensures(op_a, (n_threads, s), r) && same_room(s, stack),
        exists|s: DynStack<'_>, r: ReturnB| #[trigger]
            call_ensures(op_b, (n_threads, s), r) && same_room(s, stack),
{
    let ghost whole = stack;
    let mut stack = stack;
    let stack_a = stack_rb_mut(&mut stack);
    assert(same_room(stack_a, whole));
    let _ = op_a(n_threads, stack_a);
    let stack_b = stack_rb_mut(&mut stack);
    assert(same_room(stack_b, whole));
    let _ = op_b(n_threads, stack_b);
}

/// Runs two operations in parallel: the first has the bytes that `req` asks for, and the second has
/// what is left over.
pub fn join_in_parallel<
    ReturnA: Send,
    ReturnB: Send,
    A: Send + for <'a>FnOnce(usize, DynStack<'a>) -> ReturnA,
    B: Send + for <'a>FnOnce(usize, DynStack<'a>) -> ReturnB,
>(op_a: A, op_b: B, req: StackReq, n_threads: usize, stack: DynStack<'_>)
    requires
        req@.valid(),
        stack_can_hold(stack, req@.size as usize, req@.align as usize),
        forall|s: DynStack<'_>| #[trigger]
            asked_room(s, req@) ==> call_requires(op_a, (n_threads, s)),
        forall|s: DynStack<'_>|
            #[trigger] left_over_room(s, stack, req@) ==> call_requires(
                op_b,
                (n_threads, s),
            ),
    ensures
        exists|s: DynStack<'_>, r: ReturnA| #[trigger]
            call_ensures(op_a, (n_threads, s), r) && asked_room(s, req@),
        exists|s: DynStack<'_>, r: ReturnB| #[trigger]
            call_ensures(op_b, (n_threads, s), r) && left_over_room(s, stack, req@),
{
    let (mut stack_a_mem, stack_b) = make_aligned_uninit(
        stack,
        req.size_bytes(),
        req.align_bytes(),
    );
    let stack_a = stack_over(&mut stack_a_mem);
    assert(asked_room(stack_a, req@));
    assert(left_over_room(stack_b, stack, req@));
    let run_a = move || -> (r: ReturnA)
        requires
            call_requires(op_a, (n_threads, stack_a)),
        ensures
            call_ensures(op_a, (n_threads, stack_a), r),
        { op_a(n_threads, stack_a) };
    let run_b = move || -> (r: ReturnB)
        requires
            call_requires(op_b, (n_threads, stack_b)),
        ensures
            call_ensures(op_b, (n_threads, stack_b), r),
        { op_b(n_threads, stack_b) };
    let _ = rayon_join(run_a, run_b);
}

/// Runs two operations with `n_threads` threads. One thread runs them one after the other, each
/// with the whole stack, and the second may rely on the first having returned. Several threads run
/// them in parallel: the first has the bytes that `req_a` asks for, which the stack has to hold, and
/// the second has what is left over.
pub fn join<
    ReturnA: Send,
    ReturnB: Send,
    A: Send + for <'a>FnOnce(usize, DynStack<'a>) -> ReturnA,
    B: Send + for <'a>FnOnce(usize, DynStack<'a>) -> ReturnB,
    R: Fn(usize) -> StackReq,
    N: Fn(usize) -> usize,
>(op_a: A, op_b: B, req_a: R, n_threads_a: N, n_threads: usize, stack: DynStack<'_>)
    requires
        n_threads <= 1 ==> forall|s: DynStack<'_>| #[trigger]
            same_room(s, stack) ==> call_requires(op_a, (n_threads, s)),
        n_threads <= 1 ==> forall|s: DynStack<'_>, r: ReturnA, t: DynStack<'_>|
            #![trigger call_ensures(op_a, (n_threads, s), r), same_room(t, stack)]
            call_ensures(op_a, (n_threads, s), r) && same_room(s, stack) && same_room(t, stack)
                ==> call_requires(op_b, (n_threads, t)),
        n_threads > 1 ==> call_requires(req_a, (n_threads,)) && forall|q: StackReq| #[trigger]
            call_ensures(req_a, (n_threads,), q) ==> {
                &&& q@.valid()
                &&& stack_can_hold(stack, q@.size as usize, q@.align as usize)
                &&& forall|s: DynStack<'_>| #[trigger]
                    asked_room(s, q@) ==> call_requires(op_a, (n_threads, s))
                &&& forall|s: DynStack<'_>|
                    #[trigger] left_over_room(s, stack, q@) ==> call_requires(
                        op_b,
                        (n_threads, s),
                    )
            },
    ensures
        n_threads <= 1 ==> exists|s: DynStack<'_>, r: ReturnA| #[trigger]
            call_ensures(op_a, (n_threads, s), r) && same_room(s, stack),
        n_threads <= 1 ==> exists|s: DynStack<'_>, r: ReturnB| #[trigger]
            call_ensures(op_b, (n_threads, s), r) && same_room(s, stack),
        n_threads > 1 ==> exists|q: StackReq| #[trigger]
            call_ensures(req_a, (n_threads,), q) && (exists|s: DynStack<'_>, r: ReturnA| #[trigger]
                call_ensures(op_a, (n_threads, s), r) && asked_room(s, q@)) && (exists|
                s: DynStack<'_>,
                r: ReturnB,
            | #[trigger]
                call_ensures(op_b, (n_threads, s), r) && left_over_room(s, stack, q@)),
{
    if n_threads <= 1 {
        join_one_by_one(op_a, op_b, n_threads, stack);
    } else {
        let req = req_a(n_threads);
        join_in_parallel(op_a, op_b, req, n_threads, stack);
    }
}

/// Runs two operations with `n_threads` threads, as `join` does, and returns `true`. Where the
/// stack cannot hold the bytes that `req_a` asks for, runs neither operation, and returns `false`.
pub fn try_join<
    ReturnA: Send,
    ReturnB: Send,
    A: Send + for <'a>FnOnce(usize, DynStack<'a>) -> ReturnA,
    B: Send + for <'a>FnOnce(usize, DynStack<'a>) -> ReturnB,
    R: Fn(usize) -> StackReq,
    N: Fn(usize) -> usize,
>(op_a: A, op_b: B, req_a: R, n_threads_a: N, n_threads: usize, stack: DynStack<'_>) -> (done: bool)
    requires
        n_threads <= 1 ==> forall|s: DynStack<'_>| #[trigger]
            same_room(s, stack) ==> call_requires(op_a, (n_threads, s)),
        n_threads <= 1 ==> forall|s: DynStack<'_>, r: ReturnA, t: DynStack<'_>|
            #![trigger call_ensures(op_a, (n_threads, s), r), same_room(t, stack)]
            call_ensures(op_a, (n_threads, s), r) && same_room(s, stack) && same_room(t, stack)
                ==> call_requires(op_b, (n_threads, t)),
        n_threads > 1 ==> call_requires(req_a, (n_threads,)) && forall|q: StackReq| #[trigger]
            call_ensures(req_a, (n_threads,), q) ==> {
                &&& q@.valid()
                &&& forall|s: DynStack<'_>| #[trigger]
                    asked_room(s, q@) ==> call_requires(op_a, (n_threads, s))
                &&& forall|s: DynStack<'_>|
                    #[trigger] left_over_room(s, stack, q@) ==> call_requires(
                        op_b,
                        (n_threads, s),
                    )
            },
    ensures
        n_threads <= 1 ==> done && (exists|s: DynStack<'_>, r: ReturnA| #[trigger]
            call_ensures(op_a, (n_threads, s), r) && same_room(s, stack)) && (exists|
            s: DynStack<'_>,
            r: ReturnB,
        | #[trigger]
            call_ensures(op_b, (n_threads, s), r) && same_room(s, stack)),
        n_threads > 1 ==> exists|q: StackReq| #[trigger]
            call_ensures(req_a, (n_threads,), q) && done == stack_can_hold(
                stack,
                q@.size as usize,
                q@.align as usize,
            ) && (done ==> (exists|s: DynStack<'_>, r: ReturnA| #[trigger]
                call_ensures(op_a, (n_threads, s), r) && asked_room(s, q@)) && (exists|
                s: DynStack<'_>,
                r: ReturnB,
            | #[trigger]
                call_ensures(op_b, (n_threads, s), r) && left_over_room(s, stack, q@))),
{
    if n_threads <= 1 {
        join_one_by_one(op_a, op_b, n_threads, stack);
        true
    } else {
        let req = req_a(n_threads);
        if can_hold(&stack, req.size_bytes(), req.align_bytes()) {
            join_in_parallel(op_a, op_b, req, n_threads, stack);
            true
        } else {
            false
        }
    }
}

}
