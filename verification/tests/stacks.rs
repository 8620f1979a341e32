use dyn_stack::{DynStack, GlobalMemBuffer};
use faer_core::join::{join_in_parallel, join_one_by_one};
use faer_core::stack::{align_of_elements, temp_col_stride, temp_len_with, temp_mat_len, temp_mat_req_with};
use faer_core::{
    align_for, is_vectorizable, join, join_raw, join_req, round_up_to, temp_mat_req, try_join,
    Either, Parallelism, SizeOverflow, StackReq,
};
use num_complex::{Complex, Complex32, Complex64};
use std::sync::atomic::{AtomicUsize, Ordering};

#[test]
fn rounding_up() {
    assert_eq!(round_up_to(0, 4), 0);
    assert_eq!(round_up_to(1, 4), 4);
    assert_eq!(round_up_to(4, 4), 4);
    assert_eq!(round_up_to(5, 4), 8);
    assert_eq!(round_up_to(7, 3), 9);
    assert_eq!(round_up_to(round_up_to(7, 3), 3), 9);
    assert_eq!(round_up_to(9, 1), 9);
}

#[test]
fn vectorizable_types() {
    assert!(is_vectorizable::<f32>());
    assert!(is_vectorizable::<f64>());
    assert!(is_vectorizable::<Complex32>());
    assert!(is_vectorizable::<Complex64>());
    assert!(!is_vectorizable::<u64>());
    assert!(!is_vectorizable::<Complex<u32>>());
    assert!(!is_vectorizable::<()>());
}

#[test]
fn alignment_of_matrices() {
    assert_eq!(align_for::<f64>(), aligned_vec::CACHELINE_ALIGN);
    assert_eq!(align_for::<Complex32>(), aligned_vec::CACHELINE_ALIGN);
    assert_eq!(align_for::<u8>(), 1);
    assert_eq!(align_for::<u64>(), std::mem::align_of::<u64>());
    assert_eq!(align_of_elements(true, 128, 8), 128);
    assert_eq!(align_of_elements(false, 128, 8), 8);
}

#[test]
fn requirements_of_temporary_matrices() {
    assert_eq!(temp_col_stride(true, 128, 8, 5), 16);
    assert_eq!(temp_col_stride(true, 64, 16, 5), 8);
    assert_eq!(temp_col_stride(true, 128, 8, 16), 16);
    assert_eq!(temp_col_stride(false, 128, 8, 5), 5);

    let q = temp_mat_req_with::<f64>(true, 64, 5, 3).unwrap();
    assert_eq!((q.size_bytes(), q.align_bytes()), (8 * 8 * 3, 64));
    let q = temp_mat_req_with::<f64>(false, 64, 5, 3).unwrap();
    assert_eq!((q.size_bytes(), q.align_bytes()), (8 * 5 * 3, std::mem::align_of::<f64>()));

    let q = temp_mat_req::<u16>(5, 3).unwrap();
    assert_eq!((q.size_bytes(), q.align_bytes()), (30, 2));
    let q = temp_mat_req::<f64>(5, 3).unwrap();
    let per_line = aligned_vec::CACHELINE_ALIGN / 8;
    assert_eq!(q.size_bytes(), round_up_to(5, per_line) * 3 * 8);
    assert_eq!(q.align_bytes(), aligned_vec::CACHELINE_ALIGN);
    assert_eq!(temp_mat_req::<u32>(usize::MAX / 8, 8), Err(SizeOverflow));
    assert_eq!(temp_mat_req::<f32>(usize::MAX, 0), Err(SizeOverflow));
    assert_eq!(temp_mat_req::<u8>(usize::MAX, 2), Err(SizeOverflow));
    assert_eq!(temp_mat_req::<u32>(usize::MAX, 0).unwrap().size_bytes(), 0);
    assert_eq!(temp_mat_req_with::<f64>(true, 64, usize::MAX - 6, 0), Err(SizeOverflow));
    assert_eq!(temp_mat_req_with::<f64>(true, 64, usize::MAX - 7, 0).unwrap().size_bytes(), 0);
    assert_eq!(temp_len_with(true, 64, 8, 5, 3), Some((8, 24)));
    assert_eq!(temp_len_with(false, 64, 8, 5, 3), Some((5, 15)));
}

#[test]
fn requirements_of_elements() {
    let q = StackReq::try_new_aligned::<u32>(3, 16).unwrap();
    assert_eq!((q.size_bytes(), q.align_bytes()), (12, 16));
    assert_eq!(StackReq::try_new_aligned::<u32>(usize::MAX, 16), Err(SizeOverflow));
}

#[test]
fn requirements_of_both_and_either() {
    let a = StackReq::try_new_aligned::<u8>(5, 4).unwrap();
    let b = StackReq::try_new_aligned::<u8>(9, 8).unwrap();
    let both = a.try_and(b).unwrap();
    assert_eq!((both.size_bytes(), both.align_bytes()), (8 + 16, 8));
    let either = a.try_or(b).unwrap();
    assert_eq!((either.size_bytes(), either.align_bytes()), (16, 8));
    assert_eq!(b.try_and(a), Ok(both));
    assert_eq!(b.try_or(a), Ok(either));
    let full = StackReq::try_new_aligned::<u8>(usize::MAX, 1).unwrap();
    assert_eq!(full.try_and(a), Err(SizeOverflow));
    assert_eq!(full.try_or(a), Err(SizeOverflow));
    assert_eq!(full.try_or(full), Ok(full));
    assert_eq!(full.try_and(full), Err(SizeOverflow));
}

#[test]
fn joined_requirements() {
    let a = |n: usize| StackReq::try_new_aligned::<u8>(10 * n, 1);
    let b = |n: usize| StackReq::try_new_aligned::<u8>(7 * n, 1);
    let all = |n: usize| n;
    assert_eq!(join_req(a, b, all, 1).unwrap().size_bytes(), 10);
    assert_eq!(join_req(a, b, all, 0).unwrap().size_bytes(), 0);
    assert_eq!(join_req(a, b, all, 2).unwrap().size_bytes(), 34);
    let fails = |_: usize| Err(SizeOverflow);
    assert_eq!(join_req(a, fails, all, 2), Err(SizeOverflow));
    assert_eq!(join_req(fails, b, all, 1), Err(SizeOverflow));
    let full = |_: usize| StackReq::try_new_aligned::<u8>(usize::MAX, 1);
    assert_eq!(join_req(full, a, all, 2), Err(SizeOverflow));
    assert_eq!(join_req(full, a, all, 1).unwrap().size_bytes(), usize::MAX);
}

#[test]
fn raw_join_runs_both() {
    for parallelism in [Parallelism::Sequential, Parallelism::Rayon] {
        let count = AtomicUsize::new(0);
        join_raw(
            || {
                count.fetch_add(1, Ordering::SeqCst);
            },
            || {
                count.fetch_add(10, Ordering::SeqCst);
            },
            parallelism,
        );
        assert_eq!(count.load(Ordering::SeqCst), 11);
    }
}

fn bytes(n: usize) -> StackReq {
    StackReq::try_new_aligned::<u8>(n, 1).unwrap()
}

#[test]
fn join_hands_out_the_stack() {
    let mut buf = GlobalMemBuffer::new(dyn_stack::StackReq::new::<u8>(100));
    let a = AtomicUsize::new(0);
    let b = AtomicUsize::new(0);
    join(
        |n, stack: DynStack<'_>| a.store(1000 * n + stack.len_bytes(), Ordering::SeqCst),
        |n, stack: DynStack<'_>| b.store(1000 * n + stack.len_bytes(), Ordering::SeqCst),
        |_| bytes(30),
        |n| n,
        1,
        DynStack::new(&mut buf),
    );
    assert_eq!((a.load(Ordering::SeqCst), b.load(Ordering::SeqCst)), (1100, 1100));
    join(
        |n, stack: DynStack<'_>| a.store(1000 * n + stack.len_bytes(), Ordering::SeqCst),
        |n, stack: DynStack<'_>| b.store(1000 * n + stack.len_bytes(), Ordering::SeqCst),
        |n| bytes(15 * n),
        |n| n,
        2,
        DynStack::new(&mut buf),
    );
    assert_eq!((a.load(Ordering::SeqCst), b.load(Ordering::SeqCst)), (2030, 2070));
}

#[test]
fn try_join_asks_the_stack() {
    let mut buf = GlobalMemBuffer::new(dyn_stack::StackReq::new::<u8>(100));
    let ran = AtomicUsize::new(0);
    let mut run = |size: usize, n_threads: usize| {
        ran.store(0, Ordering::SeqCst);
        let done = try_join(
            |_, stack: DynStack<'_>| {
                ran.fetch_add(stack.len_bytes(), Ordering::SeqCst);
            },
            |_, stack: DynStack<'_>| {
                ran.fetch_add(1000 * stack.len_bytes(), Ordering::SeqCst);
            },
            |_| bytes(size),
            |n| n,
            n_threads,
            DynStack::new(&mut buf),
        );
        (done, ran.load(Ordering::SeqCst))
    };
    assert_eq!(run(40, 2), (true, 60040));
    assert_eq!(run(101, 2), (false, 0));
    assert_eq!(run(101, 1), (true, 100100));
    assert_eq!(run(100, 3), (true, 100));
}

#[test]
fn join_forms() {
    let mut buf = GlobalMemBuffer::new(dyn_stack::StackReq::new::<u8>(8));
    let sum = AtomicUsize::new(0);
    let op = |_: usize, stack: DynStack<'_>| {
        sum.fetch_add(stack.len_bytes(), Ordering::SeqCst);
    };
    join_one_by_one(op, op, 1, DynStack::new(&mut buf));
    assert_eq!(sum.load(Ordering::SeqCst), 16);
    join_in_parallel(op, op, bytes(3), 2, DynStack::new(&mut buf));
    assert_eq!(sum.load(Ordering::SeqCst), 24);
}

#[test]
fn either_value() {
    let x: Either<i32, &str> = Either::Left(3);
    let y: Either<i32, &str> = Either::Right("r");
    assert!(matches!(x, Either::Left(3)));
    assert!(matches!(y, Either::Right("r")));
}

#[test]
fn columns_begin_at_cache_lines() {
    for size in [4, 8, 16] {
        for cacheline in [32, 64, 128, 256] {
            for nrows in [0, 1, 7, 64, 65] {
                let stride = temp_col_stride(true, cacheline, size, nrows);
                assert!(stride >= nrows);
                assert_eq!(stride * size % cacheline, 0);
            }
        }
    }
}

#[test]
fn enough_for_both_is_enough_for_either() {
    for (m, n) in [(0, 0), (5, 9), (16, 3)] {
        let a = StackReq::try_new_aligned::<u8>(m, 4).unwrap();
        let b = StackReq::try_new_aligned::<u8>(n, 16).unwrap();
        let both = a.try_and(b).unwrap();
        let either = a.try_or(b).unwrap();
        assert!(either.size_bytes() <= both.size_bytes());
        assert!(m <= either.size_bytes() && n <= either.size_bytes());
        assert!(m + n <= both.size_bytes());
        assert_eq!(either.align_bytes(), both.align_bytes());
    }
}

#[test]
fn lengths_of_temporary_matrices() {
    assert_eq!(temp_mat_len::<u16>(5, 3), Some((5, 15)));
    let stride = round_up_to(5, aligned_vec::CACHELINE_ALIGN / 8);
    assert_eq!(temp_mat_len::<f64>(5, 3), Some((stride, 3 * stride)));
    assert_eq!(temp_mat_len::<f64>(usize::MAX, 0), None);
    assert_eq!(temp_mat_len::<u8>(usize::MAX, 0), Some((usize::MAX, 0)));
    assert_eq!(temp_mat_len::<u8>(usize::MAX, 2), None);
}

#[test]
fn join_hands_out_aligned_bytes() {
    let mut buf = GlobalMemBuffer::new(dyn_stack::StackReq::new_aligned::<u8>(256, 64));
    let mut stack = DynStack::new(&mut buf);
    for skip in [0, 1, 5] {
        let (_, rest) = dyn_stack::ReborrowMut::rb_mut(&mut stack).make_uninit::<u8>(skip);
        let len = rest.len_bytes();
        let left = AtomicUsize::new(0);
        join(
            |_, s: DynStack<'_>| {
                assert_eq!(s.len_bytes(), 24);
                assert!(s.can_hold(dyn_stack::StackReq::new_aligned::<u8>(24, 32)));
                assert_eq!(s.as_ptr() as usize % 32, 0);
            },
            |_, s: DynStack<'_>| left.store(s.len_bytes(), Ordering::SeqCst),
            |_| StackReq::try_new_aligned::<u8>(24, 32).unwrap(),
            |n| n,
            2,
            rest,
        );
        let left = left.load(Ordering::SeqCst);
        assert!(left + 24 <= len && len < left + 24 + 32);
        assert_eq!(left, 256 - (skip + 31) / 32 * 32 - 24);
    }
}

#[test]
fn second_requirement_is_not_asked_for_after_an_overflow() {
    let asked = AtomicUsize::new(0);
    let b = |n: usize| {
        asked.fetch_add(1, Ordering::SeqCst);
        StackReq::try_new_aligned::<u8>(n, 1)
    };
    assert_eq!(join_req(|_| Err(SizeOverflow), b, |n| n, 2), Err(SizeOverflow));
    assert_eq!(asked.load(Ordering::SeqCst), 0);
}

#[test]
fn one_thread_keeps_the_order() {
    let last = AtomicUsize::new(0);
    let step = |from: usize, to: usize| assert_eq!(last.swap(to, Ordering::SeqCst), from);
    join_raw(|| step(0, 1), || step(1, 2), Parallelism::Sequential);

    let mut buf = [core::mem::MaybeUninit::new(0u8); 8];
    join_one_by_one(
        |_: usize, _: DynStack<'_>| step(2, 3),
        |_: usize, _: DynStack<'_>| step(3, 4),
        1,
        DynStack::new(&mut buf),
    );
    for n_threads in 0..2 {
        let start = 4 + 4 * n_threads;
        join(
            |_: usize, _: DynStack<'_>| step(start, start + 1),
            |_: usize, _: DynStack<'_>| step(start + 1, start + 2),
            |_| bytes(100),
            |n| n,
            n_threads,
            DynStack::new(&mut buf),
        );
        assert!(try_join(
            |_: usize, _: DynStack<'_>| step(start + 2, start + 3),
            |_: usize, _: DynStack<'_>| step(start + 3, start + 4),
            |_| bytes(100),
            |n| n,
            n_threads,
            DynStack::new(&mut buf),
        ));
    }
    assert_eq!(last.load(Ordering::SeqCst), 12);
}
