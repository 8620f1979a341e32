use faer_core::mat::checked_capacity;
use faer_core::{mat, ComplexField, Mat};
use std::ops::{Add, Div, Mul, Neg, Sub};
use std::rc::Rc;

#[test]
fn empty() {
    {
        let m = Mat::<f64>::new();
        assert!(m.nrows() == 0);
        assert!(m.ncols() == 0);
        assert!(m.row_capacity() == 0);
        assert!(m.col_capacity() == 0);
    }

    {
        let m = Mat::<f64>::with_capacity(100, 120);
        assert!(m.nrows() == 0);
        assert!(m.ncols() == 0);
        assert!(m.row_capacity() == 100);
        assert!(m.col_capacity() == 120);
    }
}

#[test]
fn reserve() {
    let mut m = Mat::<f64>::new();

    m.reserve_exact(0, 0);
    assert!(m.row_capacity() == 0);
    assert!(m.col_capacity() == 0);

    m.reserve_exact(1, 1);
    assert!(m.row_capacity() == 1);
    assert!(m.col_capacity() == 1);

    m.reserve_exact(2, 0);
    assert!(m.row_capacity() == 2);
    assert!(m.col_capacity() == 1);

    m.reserve_exact(2, 3);
    assert!(m.row_capacity() == 2);
    assert!(m.col_capacity() == 3);
}

#[test]
fn reserve_zst() {
    let mut m = Mat::<()>::new();

    m.reserve_exact(0, 0);
    assert!(m.row_capacity() == 0);
    assert!(m.col_capacity() == 0);

    m.reserve_exact(1, 1);
    assert!(m.row_capacity() == 1);
    assert!(m.col_capacity() == 1);

    m.reserve_exact(2, 0);
    assert!(m.row_capacity() == 2);
    assert!(m.col_capacity() == 1);

    m.reserve_exact(2, 3);
    assert!(m.row_capacity() == 2);
    assert!(m.col_capacity() == 3);

    m.reserve_exact(usize::MAX, usize::MAX);
}

#[test]
fn resize() {
    let mut m = Mat::new();
    let f = |i, j| i as f64 - j as f64;
    m.resize_with(f, 2, 3);
    assert!(m[(0, 0)] == 0.0);
    assert!(m[(0, 1)] == -1.0);
    assert!(m[(0, 2)] == -2.0);
    assert!(m[(1, 0)] == 1.0);
    assert!(m[(1, 1)] == 0.0);
    assert!(m[(1, 2)] == -1.0);

    m.resize_with(f, 1, 2);
    assert!(m[(0, 0)] == 0.0);
    assert!(m[(0, 1)] == -1.0);

    m.resize_with(f, 2, 1);
    assert!(m[(0, 0)] == 0.0);
    assert!(m[(1, 0)] == 1.0);

    m.resize_with(f, 1, 2);
    assert!(m[(0, 0)] == 0.0);
    assert!(m[(0, 1)] == -1.0);
}

#[test]
fn matrix_macro() {
    let x = mat(vec![
        vec![1.0, 2.0, 3.0],
        vec![4.0, 5.0, 6.0],
        vec![7.0, 8.0, 9.0],
        vec![10.0, 11.0, 12.0],
    ]);

    assert!(x[(0, 0)] == 1.0);
    assert!(x[(0, 1)] == 2.0);
    assert!(x[(0, 2)] == 3.0);

    assert!(x[(1, 0)] == 4.0);
    assert!(x[(1, 1)] == 5.0);
    assert!(x[(1, 2)] == 6.0);

    assert!(x[(2, 0)] == 7.0);
    assert!(x[(2, 1)] == 8.0);
    assert!(x[(2, 2)] == 9.0);

    assert!(x[(3, 0)] == 10.0);
    assert!(x[(3, 1)] == 11.0);
    assert!(x[(3, 2)] == 12.0);
}

#[test]
fn resize_zst() {
    let mut m = Mat::new();
    let f = |_i, _j| ();
    m.resize_with(f, 2, 3);
    m.resize_with(f, 1, 2);
    m.resize_with(f, 2, 1);
    m.resize_with(f, 1, 2);
    assert_eq!((m.nrows(), m.ncols()), (1, 2));
    assert_eq!((m.row_capacity(), m.col_capacity()), (2, 3));
}

#[test]
fn capacity_overflow_is_found() {
    assert_eq!(checked_capacity::<f64>(isize::MAX as usize, 1), None);
    assert_eq!(checked_capacity::<f64>(isize::MAX as usize, isize::MAX as usize), None);
    assert_eq!(checked_capacity::<f64>(usize::MAX, 2), None);
    assert_eq!(checked_capacity::<f64>(100, 120), Some(96000));
    assert_eq!(checked_capacity::<f64>(usize::MAX, 0), Some(0));
    assert_eq!(checked_capacity::<u8>(isize::MAX as usize, 1), Some(isize::MAX as usize));
    assert_eq!(checked_capacity::<u8>(isize::MAX as usize + 1, 1), None);
    assert_eq!(checked_capacity::<()>(usize::MAX, usize::MAX), Some(0));
}

#[test]
fn resize_calls_the_function_on_new_elements_only() {
    let mut m = Mat::with_dims(|i, j| (0, i, j), 2, 2);
    m.resize_with(|i, j| (1, i, j), 3, 3);
    for i in 0..3 {
        for j in 0..3 {
            let kept = i < 2 && j < 2;
            assert_eq!(m[(i, j)], (if kept { 0 } else { 1 }, i, j));
        }
    }
    m.resize_with(|i, j| (2, i, j), 1, 4);
    assert_eq!(m[(0, 1)], (0, 0, 1));
    assert_eq!(m[(0, 2)], (1, 0, 2));
    assert_eq!(m[(0, 3)], (2, 0, 3));
    assert_eq!((m.row_capacity(), m.col_capacity()), (3, 4));
    m.resize_with(|i, j| (3, i, j), 2, 1);
    assert_eq!((m[(0, 0)], m[(1, 0)]), ((0, 0, 0), (3, 1, 0)));
    assert_eq!((m.row_capacity(), m.col_capacity()), (3, 4));
}

#[test]
fn resize_to_the_same_dimensions() {
    let mut m = Mat::with_dims(|i, j| 10 * i + j, 2, 3);
    m.resize_with(|_, _| 99, 2, 3);
    assert_eq!((m[(0, 0)], m[(1, 2)]), (0, 12));
    assert_eq!((m.row_capacity(), m.col_capacity()), (2, 3));
}

#[test]
fn grow_and_shrink_back() {
    let mut m = Mat::with_dims(|i, j| 10 * i + j, 2, 2);
    m.resize_with(|_, _| 99, 5, 7);
    m.resize_with(|_, _| 98, 2, 2);
    assert_eq!((m[(0, 0)], m[(0, 1)], m[(1, 0)], m[(1, 1)]), (0, 1, 10, 11));
    m.resize_with(|_, _| 97, 1, 1);
    assert_eq!(m[(0, 0)], 0);
}

#[test]
fn reserve_keeps_the_elements() {
    let mut m = Mat::with_dims(|i, j| 10 * i + j, 2, 2);
    m.reserve_exact(2, 5);
    assert_eq!((m.row_capacity(), m.col_capacity(), m.col_stride()), (2, 5, 2));
    assert_eq!((m[(0, 1)], m[(1, 0)]), (1, 10));
    m.reserve_exact(4, 1);
    assert_eq!((m.row_capacity(), m.col_capacity(), m.col_stride()), (4, 5, 4));
    assert_eq!((m[(0, 1)], m[(1, 0)]), (1, 10));
    m.reserve_exact(3, 3);
    assert_eq!((m.row_capacity(), m.col_capacity()), (4, 5));
    assert_eq!(m.row_stride(), 1);
}

#[test]
fn dropped_elements_are_released() {
    let shared = Rc::new(());
    let mut m = Mat::with_dims(|_, _| shared.clone(), 2, 3);
    assert_eq!(Rc::strong_count(&shared), 7);
    m.resize_with(|_, _| shared.clone(), 1, 2);
    assert_eq!(Rc::strong_count(&shared), 3);
    m.resize_with(|_, _| shared.clone(), 3, 3);
    assert_eq!(Rc::strong_count(&shared), 10);
    drop(m);
    assert_eq!(Rc::strong_count(&shared), 1);
}

#[test]
fn column_major_memory() {
    let mut m = Mat::with_dims(|i, j| 10 * i + j, 2, 2);
    assert_eq!(*m.as_ptr().wrapping_offset(1).as_ref(), 10);
    assert_eq!(*m.as_ptr().wrapping_offset(2).as_ref(), 1);
    *m.as_mut_ptr().wrapping_offset(3).as_mut() = 77;
    assert_eq!(m[(1, 1)], 77);
    assert_eq!((m.as_ref().row_stride(), m.as_ref().col_stride()), (1, 2));
}

#[test]
fn raw_parts_round_trip() {
    let mut m = Mat::with_dims(|i, j| 10 * i + j, 2, 2);
    m.reserve_exact(3, 4);
    let (cells, nrows, ncols, row_capacity, col_capacity) = m.into_raw_parts();
    assert_eq!((nrows, ncols, row_capacity, col_capacity), (2, 2, 3, 4));
    assert_eq!(cells, vec![Some(0), Some(10), None, Some(1), Some(11)]);
    let m = Mat::from_raw_parts(cells, nrows, ncols, row_capacity, col_capacity);
    assert_eq!((m[(0, 0)], m[(1, 0)], m[(0, 1)], m[(1, 1)]), (0, 10, 1, 11));
}

#[test]
fn set_dims_over_initialized_cells() {
    let cells = vec![Some(1), Some(2), Some(3), Some(4)];
    let mut m = Mat::from_raw_parts(cells, 1, 1, 2, 2);
    m.set_dims(2, 2);
    assert_eq!((m[(0, 0)], m[(1, 0)], m[(0, 1)], m[(1, 1)]), (1, 2, 3, 4));
    m.set_dims(2, 1);
    assert_eq!((m.nrows(), m.ncols()), (2, 1));
}

#[test]
fn writes_through_a_view_stay() {
    let mut m = Mat::with_dims(|i, j| 10 * i + j, 2, 3);
    *m.index_mut((0, 1)) = 5;
    *m.as_mut().transpose().get(2, 1) = 6;
    let mut rows = m.as_mut().into_row_iter();
    *rows.next_back().unwrap().get(0) = 7;
    assert_eq!((m[(0, 0)], m[(0, 1)], m[(0, 2)]), (0, 5, 2));
    assert_eq!((m[(1, 0)], m[(1, 1)], m[(1, 2)]), (7, 11, 6));
}

#[test]
fn clone_copies_elements_and_capacities() {
    let mut m = Mat::with_dims(|i, j| format!("{}{}", i, j), 2, 2);
    m.reserve_exact(5, 6);
    let mut c = m.clone();
    assert_eq!((c.nrows(), c.ncols()), (2, 2));
    assert_eq!((c.row_capacity(), c.col_capacity()), (5, 6));
    *c.index_mut((0, 0)) = String::from("x");
    assert_eq!((c[(0, 0)].as_str(), c[(1, 0)].as_str(), c[(0, 1)].as_str()), ("x", "10", "01"));
    assert_eq!(m[(0, 0)], "00");
    let d = Mat::<u8>::default();
    assert_eq!((d.nrows(), d.ncols(), d.row_capacity(), d.col_capacity()), (0, 0, 0, 0));
}

#[derive(Clone, Copy, Debug, PartialEq)]
struct Gauss(i64, i64);

impl Add for Gauss {
    type Output = Gauss;
    fn add(self, b: Gauss) -> Gauss {
        Gauss(self.0 + b.0, self.1 + b.1)
    }
}
impl Sub for Gauss {
    type Output = Gauss;
    fn sub(self, b: Gauss) -> Gauss {
        Gauss(self.0 - b.0, self.1 - b.1)
    }
}
impl Mul for Gauss {
    type Output = Gauss;
    fn mul(self, b: Gauss) -> Gauss {
        Gauss(self.0 * b.0 - self.1 * b.1, self.0 * b.1 + self.1 * b.0)
    }
}
impl Div for Gauss {
    type Output = Gauss;
    fn div(self, b: Gauss) -> Gauss {
        self * b.inv()
    }
}
impl Neg for Gauss {
    type Output = Gauss;
    fn neg(self) -> Gauss {
        Gauss(-self.0, -self.1)
    }
}
impl ComplexField for Gauss {
    type Real = i64;
    fn from_real(x: i64) -> Gauss {
        Gauss(x, 0)
    }
    fn into_real_imag(self) -> (i64, i64) {
        (self.0, self.1)
    }
    fn zero() -> Gauss {
        Gauss(0, 0)
    }
    fn one() -> Gauss {
        Gauss(1, 0)
    }
    fn inv(self) -> Gauss {
        let n = self.0 * self.0 + self.1 * self.1;
        Gauss(self.0 / n, -self.1 / n)
    }
    fn conj(self) -> Gauss {
        Gauss(self.0, -self.1)
    }
    fn sqrt(self) -> Gauss {
        Gauss((self.0 as f64).sqrt() as i64, 0)
    }
}

#[test]
fn zeros_and_field_defaults() {
    let m = Mat::<Gauss>::zeros(2, 3);
    assert_eq!((m.nrows(), m.ncols(), m.row_capacity(), m.col_capacity()), (2, 3, 2, 3));
    assert_eq!((m[(0, 0)], m[(1, 2)]), (Gauss(0, 0), Gauss(0, 0)));
    let z = Gauss(3, 4);
    assert_eq!(z.real_part(), 3);
    assert_eq!(z.imag(), 4);
    assert_eq!(z.scale(10), Gauss(30, 40));
}

#[test]
fn reserve_twice_is_reserving_the_larger() {
    let mut a = Mat::with_dims(|i, j| 10 * i + j, 2, 2);
    a.reserve_exact(3, 7);
    a.reserve_exact(5, 4);
    let mut b = Mat::with_dims(|i, j| 10 * i + j, 2, 2);
    b.reserve_exact(5, 7);
    assert_eq!((a.row_capacity(), a.col_capacity()), (b.row_capacity(), b.col_capacity()));
    assert_eq!((a[(1, 0)], a[(0, 1)]), (b[(1, 0)], b[(0, 1)]));
}

#[test]
fn shrink_twice_is_shrinking_once() {
    let mut a = Mat::with_dims(|i, j| 10 * i + j, 4, 4);
    a.resize_with(|_, _| 99, 3, 3);
    a.resize_with(|_, _| 99, 1, 2);
    let mut b = Mat::with_dims(|i, j| 10 * i + j, 4, 4);
    b.resize_with(|_, _| 99, 1, 2);
    assert_eq!((a.nrows(), a.ncols()), (b.nrows(), b.ncols()));
    assert_eq!((a.row_capacity(), a.col_capacity()), (4, 4));
    assert_eq!((a[(0, 0)], a[(0, 1)]), (b[(0, 0)], b[(0, 1)]));
}

#[test]
fn resize_within_capacity_moves_nothing() {
    let mut m = Mat::with_capacity(4, 5);
    m.resize_with(|i, j| 10 * i + j, 2, 2);
    let before = m.as_ref().ptr_at(1, 1).position();
    m.resize_with(|i, j| 10 * i + j, 4, 5);
    assert_eq!(m.as_ref().ptr_at(1, 1).position(), before);
    assert_eq!((m.row_capacity(), m.col_capacity()), (4, 5));
    assert_eq!((m[(1, 1)], m[(3, 4)]), (11, 34));
}
