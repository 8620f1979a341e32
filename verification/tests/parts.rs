use faer_core::{ColMut, ColRef, MatMut, MatRef, Ptr, PtrMut, RowMut, RowRef};
use num_complex::Complex;

fn z(re: i32, im: i32) -> Complex<i32> {
    Complex { re, im }
}

#[test]
fn parts_of_a_matrix() {
    let data = [z(1, 2), z(3, 4), z(5, 6), z(7, 8), z(9, 10), z(11, 12)];
    let m = MatRef::from_raw_parts(Ptr::from_slice(&data), 2, 3, 3, 1);
    let (re, im) = m.rb().into_real_imag();
    assert_eq!((re.nrows(), re.ncols(), re.row_stride(), re.col_stride()), (2, 3, 6, 2));
    assert_eq!((im.row_stride(), im.col_stride()), (6, 2));
    assert_eq!((re.rb().as_ptr().position(), im.rb().as_ptr().position()), (0, 1));
    for i in 0..2 {
        for j in 0..3 {
            assert_eq!((re[(i, j)], im[(i, j)]), (m[(i, j)].re, m[(i, j)].im));
        }
    }
    let (re, im) = m.rb().invert().into_real_imag();
    assert_eq!((re[(0, 0)], im[(0, 0)], re[(1, 2)], im[(1, 2)]), (11, 12, 1, 2));
    let (re, _) = m.transpose().into_real_imag();
    assert_eq!(re[(2, 1)], 11);
}

#[test]
fn parts_of_a_mutable_matrix() {
    let mut data = [z(1, 2), z(3, 4), z(5, 6), z(7, 8)];
    let m = MatMut::from_raw_parts(PtrMut::from_slice(&mut data), 2, 2, 1, 2);
    let (re, im) = m.into_real_imag();
    *re.get(1, 0) = 30;
    *im.get(0, 1) = 60;
    assert_eq!(data, [z(1, 2), z(30, 4), z(5, 60), z(7, 8)]);
}

#[test]
fn parts_of_vectors() {
    let mut data = [z(1, 2), z(3, 4), z(5, 6)];
    {
        let r = RowRef::from_raw_parts(Ptr::from_slice(&data), 2, 2);
        let (re, im) = r.into_real_imag();
        assert_eq!((re.ncols(), re.col_stride(), im.col_stride()), (2, 4, 4));
        assert_eq!((re[0], re[1], im[0], im[1]), (1, 5, 2, 6));
        let c = ColRef::from_raw_parts(Ptr::from_slice(&data), 3, 1);
        let (re, im) = c.into_real_imag();
        assert_eq!((re.nrows(), re.row_stride()), (3, 2));
        assert_eq!((re[2], im[2]), (5, 6));
    }
    {
        let (re, im) = RowMut::from_raw_parts(PtrMut::from_slice(&mut data), 3, 1).into_real_imag();
        *re.get(0) = 10;
        *im.get(2) = 60;
    }
    {
        let (re, im) = ColMut::from_raw_parts(PtrMut::from_slice(&mut data), 3, 1).into_real_imag();
        *re.get(1) = 30;
        *im.get(0) = 20;
    }
    assert_eq!(data, [z(10, 20), z(30, 4), z(5, 60)]);
}

#[test]
fn parts_of_a_row_are_rows_of_the_parts() {
    let data = [z(1, 2), z(3, 4), z(5, 6), z(7, 8)];
    let m = MatRef::from_raw_parts(Ptr::from_slice(&data), 2, 2, 2, 1);
    let (row_re, row_im) = m.clone().row(1).into_real_imag();
    let (re, im) = m.into_real_imag();
    assert_eq!(row_re.rb().as_ptr().position(), re.rb().row(1).as_ptr().position());
    assert_eq!(row_im.rb().as_ptr().position(), im.rb().row(1).as_ptr().position());
    assert_eq!((row_re[0], row_im[1]), (5, 8));
}
