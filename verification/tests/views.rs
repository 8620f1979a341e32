use faer_core::{
    as_uninit, from_mut_slice, from_uninit_mut_slice, ColMut, ColRef, MatMut, MatRef, Ptr, PtrMut,
    RowMut, RowRef,
};

#[test]
fn basic_slice() {
    let data = [1.0, 2.0, 3.0, 4.0, 5.0, 6.0];
    let slice = MatRef::from_raw_parts(Ptr::from_slice(&data), 2, 3, 3, 1);

    assert!(slice.rb().get(0, 0) == &1.0);
    assert!(slice.rb().get(0, 1) == &2.0);
    assert!(slice.rb().get(0, 2) == &3.0);

    assert!(slice.rb().get(1, 0) == &4.0);
    assert!(slice.rb().get(1, 1) == &5.0);
    assert!(slice.rb().get(1, 2) == &6.0);

    let mut rows = slice.rb().into_row_iter();
    while let Some(r) = rows.next() {
        let mut elems = r.into_iter();
        while let Some(_) = elems.next() {}
    }
    let mut rows = slice.rb().into_row_iter();
    while let Some(r) = rows.next_back() {
        let mut elems = r.into_iter();
        while let Some(_) = elems.next_back() {}
    }

    let mut cols = slice.rb().into_col_iter();
    while let Some(c) = cols.next() {
        let mut elems = c.into_iter();
        while let Some(_) = elems.next() {}
    }
    let mut cols = slice.rb().into_col_iter();
    while let Some(c) = cols.next_back() {
        let mut elems = c.into_iter();
        while let Some(_) = elems.next_back() {}
    }
}

#[test]
fn basic_slice_mut() {
    let mut data = [1.0, 2.0, 3.0, 4.0, 5.0, 6.0];
    let mut slice = MatMut::from_raw_parts(PtrMut::from_slice(&mut data), 2, 3, 3, 1);

    assert!(slice.rb_mut().get(0, 0) == &mut 1.0);
    assert!(slice.rb_mut().get(0, 1) == &mut 2.0);
    assert!(slice.rb_mut().get(0, 2) == &mut 3.0);

    assert!(slice.rb_mut().get(1, 0) == &mut 4.0);
    assert!(slice.rb_mut().get(1, 1) == &mut 5.0);
    assert!(slice.rb_mut().get(1, 2) == &mut 6.0);

    let mut rows = slice.rb_mut().into_row_iter();
    while let Some(r) = rows.next() {
        let mut elems = r.into_iter();
        while let Some(_) = elems.next() {}
    }
    let mut rows = slice.rb_mut().into_row_iter();
    while let Some(r) = rows.next_back() {
        let mut elems = r.into_iter();
        while let Some(_) = elems.next_back() {}
    }

    let mut cols = slice.rb_mut().into_col_iter();
    while let Some(c) = cols.next() {
        let mut elems = c.into_iter();
        while let Some(_) = elems.next() {}
    }
    let mut cols = slice.rb_mut().into_col_iter();
    while let Some(c) = cols.next_back() {
        let mut elems = c.into_iter();
        while let Some(_) = elems.next_back() {}
    }
}

const DATA: [i32; 6] = [1, 2, 3, 4, 5, 6];

fn two_by_three() -> MatRef<'static, i32> {
    MatRef::from_raw_parts(Ptr::from_slice(&DATA), 2, 3, 3, 1)
}

fn elements(m: &MatRef<'_, i32>) -> Vec<Vec<i32>> {
    let mut rows = Vec::new();
    for i in 0..m.nrows() {
        let mut row = Vec::new();
        for j in 0..m.ncols() {
            row.push(*m.rb().get(i, j));
        }
        rows.push(row);
    }
    rows
}

fn row_elements(r: RowRef<'_, i32>) -> Vec<i32> {
    let mut v = Vec::new();
    let mut it = r.into_iter();
    while let Some(x) = it.next() {
        v.push(*x);
    }
    v
}

fn col_elements(c: ColRef<'_, i32>) -> Vec<i32> {
    row_elements(c.transpose())
}

#[test]
fn dimensions_and_strides() {
    let m = two_by_three();
    assert_eq!((m.nrows(), m.ncols()), (2, 3));
    assert_eq!((m.row_stride(), m.col_stride()), (3, 1));
    assert_eq!(m.rb().as_ptr().position(), 0);
    assert_eq!(m.rb().ptr_at(1, 2).position(), 5);
    assert_eq!(m.rb().ptr_in_bounds_at(1, 0).position(), 3);
    assert_eq!(m.rb().ptr_in_bounds_at_unchecked(0, 2).position(), 2);
    assert_eq!(*m.ptr_at(1, 2).as_ref(), 6);
    let r = two_by_three().row(1);
    assert_eq!((r.nrows(), r.ncols(), r.col_stride()), (1, 3, 1));
    assert_eq!(r.ptr_at(2).position(), 5);
    let c = two_by_three().col(1);
    assert_eq!((c.nrows(), c.ncols(), c.row_stride()), (2, 1, 3));
    assert_eq!(c.ptr_at(1).position(), 4);
}

#[test]
fn transpose_exchanges_rows_and_columns() {
    let t = two_by_three().transpose();
    assert_eq!(elements(&t), vec![vec![1, 4], vec![2, 5], vec![3, 6]]);
    assert_eq!((t.row_stride(), t.col_stride()), (1, 3));
    assert_eq!(elements(&t.transpose()), elements(&two_by_three()));
}

#[test]
fn transpose_rows_are_columns() {
    assert_eq!(row_elements(two_by_three().transpose().row(2)), vec![3, 6]);
    assert_eq!(col_elements(two_by_three().col(2)), vec![3, 6]);
    assert_eq!(col_elements(two_by_three().transpose().col(1)), vec![4, 5, 6]);
}

#[test]
fn inversions_reverse_and_undo() {
    let m = two_by_three();
    assert_eq!(elements(&m.rb().invert_rows()), vec![vec![4, 5, 6], vec![1, 2, 3]]);
    assert_eq!(elements(&m.rb().invert_cols()), vec![vec![3, 2, 1], vec![6, 5, 4]]);
    assert_eq!(elements(&m.rb().invert()), vec![vec![6, 5, 4], vec![3, 2, 1]]);
    assert_eq!(m.rb().invert_rows().row_stride(), -3);
    assert_eq!(m.rb().invert_cols().col_stride(), -1);
    assert_eq!(elements(&m.rb().invert_rows().invert_rows()), elements(&m));
    assert_eq!(elements(&m.rb().invert().invert()), elements(&m));
    assert_eq!(
        elements(&m.rb().invert_rows().invert_cols()),
        elements(&m.rb().invert())
    );
    assert_eq!(
        elements(&m.rb().invert_rows().transpose()),
        elements(&m.rb().transpose().invert_cols())
    );
}

#[test]
fn inversion_of_an_empty_matrix() {
    let data: [i32; 0] = [];
    let m = MatRef::from_raw_parts(Ptr::from_slice(&data), 0, 0, 1, 1);
    let r = m.invert();
    assert_eq!((r.nrows(), r.ncols(), r.row_stride(), r.col_stride()), (0, 0, -1, -1));
    assert_eq!(r.as_ptr().position(), 0);
}

#[test]
fn inversion_of_the_least_stride() {
    let data = [7];
    let m = MatRef::from_raw_parts(Ptr::from_slice(&data), 1, 1, isize::MIN, 1);
    assert_eq!(m.invert_rows().row_stride(), isize::MIN);
}

#[test]
fn split_into_corners() {
    let (a, b, c, d) = two_by_three().split_at(1, 2);
    assert_eq!(elements(&a), vec![vec![1, 2]]);
    assert_eq!(elements(&b), vec![vec![3]]);
    assert_eq!(elements(&c), vec![vec![4, 5]]);
    assert_eq!(elements(&d), vec![vec![6]]);
    let (a, b, c, d) = two_by_three().split_at_unchecked(2, 3);
    assert_eq!(elements(&a), elements(&two_by_three()));
    assert_eq!((b.nrows(), b.ncols()), (2, 0));
    assert_eq!((c.nrows(), c.ncols()), (0, 3));
    assert_eq!((d.nrows(), d.ncols()), (0, 0));
}

#[test]
fn split_vectors() {
    let (a, b) = two_by_three().row(1).split_at(1);
    assert_eq!(row_elements(a), vec![4]);
    assert_eq!(row_elements(b), vec![5, 6]);
    let (a, b) = two_by_three().col(1).split_at_unchecked(0);
    assert_eq!(col_elements(a), Vec::<i32>::new());
    assert_eq!(col_elements(b), vec![2, 5]);
}

#[test]
fn submatrix_of_a_submatrix() {
    let m = two_by_three().submatrix(0, 1, 2, 2);
    assert_eq!(elements(&m), vec![vec![2, 3], vec![5, 6]]);
    assert_eq!(elements(&m.rb().submatrix(1, 0, 1, 2)), vec![vec![5, 6]]);
    assert_eq!(elements(&two_by_three().submatrix_unchecked(1, 1, 1, 2)), vec![vec![5, 6]]);
    assert_eq!(elements(&two_by_three().submatrix(0, 0, 2, 3)), elements(&two_by_three()));
    assert_eq!(row_elements(m.rb().row(1)), vec![5, 6]);
    assert_eq!(col_elements(m.col(0)), vec![2, 5]);
}

#[test]
fn diagonal_of_a_square() {
    let square = two_by_three().submatrix(0, 1, 2, 2);
    assert_eq!(square.rb().diagonal().row_stride(), 4);
    assert_eq!(col_elements(square.rb().diagonal()), vec![2, 6]);
    assert_eq!(col_elements(square.transpose().diagonal_unchecked()), vec![2, 6]);
}

#[test]
fn vectors_as_matrices() {
    let r = two_by_three().row(0).as_2d();
    assert_eq!(elements(&r), vec![vec![1, 2, 3]]);
    assert_eq!((r.row_stride(), r.col_stride()), (0, 1));
    assert_eq!(row_elements(r.row(0)), vec![1, 2, 3]);
    let c = two_by_three().col(2).as_2d();
    assert_eq!(elements(&c), vec![vec![3], vec![6]]);
    assert_eq!(elements(&c.transpose()), vec![vec![3, 6]]);
}

#[test]
fn indexing() {
    let m = two_by_three();
    assert_eq!(m[(1, 0)], 4);
    assert_eq!(m.rb().row(1)[2], 6);
    assert_eq!(m.rb().col(0)[1], 4);
    let mut data = [1, 2, 3, 4];
    let mut m = from_mut_slice(&mut data, 2, 2, 1, 2);
    *m.index_mut((1, 0)) = 20;
    assert_eq!(m[(1, 0)], 20);
    let mut r = m.rb_mut().row(0);
    *r.index_mut(1) = 30;
    assert_eq!(r[1], 30);
    let mut c = m.rb_mut().col(1);
    *c.index_mut(1) = 40;
    assert_eq!(c[1], 40);
    assert_eq!(data, [1, 20, 30, 40]);
}

#[test]
fn overlapping_shared_elements() {
    let data = [8];
    let m = MatRef::from_raw_parts(Ptr::from_slice(&data), 2, 2, 0, 0);
    assert_eq!(elements(&m), vec![vec![8, 8], vec![8, 8]]);
}

#[test]
fn wrapping_pointers() {
    let data = [1, 2, 3];
    let p = Ptr::from_slice(&data);
    assert_eq!(*p.clone().wrapping_offset(2).wrapping_offset(-1).as_ref(), 2);
    assert_eq!(p.clone().wrapping_offset(-1).position(), usize::MAX);
    assert_eq!(*p.wrapping_offset(-1).wrapping_offset(3).as_ref(), 3);
}

#[test]
fn uninitialized_cells() {
    let cells = [Some(1), None, Some(3)];
    let p = Ptr::from_cells(&cells);
    assert_eq!(*p.wrapping_offset(2).as_ref(), 3);
    let mut cells = [Some(1), None, Some(3)];
    *PtrMut::from_cells(&mut cells).wrapping_offset(2).as_mut() = 30;
    assert_eq!(cells, [Some(1), None, Some(30)]);
}

#[test]
fn mutable_corners_are_written_apart() {
    let mut data = [1, 2, 3, 4, 5, 6];
    let m = MatMut::from_raw_parts(PtrMut::from_slice(&mut data), 2, 3, 3, 1);
    let (a, b, c, d) = m.split_at(1, 2);
    *a.get(0, 1) = 20;
    *b.get(0, 0) = 30;
    *c.get(0, 0) = 40;
    *d.get(0, 0) = 60;
    assert_eq!(data, [1, 20, 30, 40, 5, 60]);
}

#[test]
fn mutable_views_reach_the_same_cells() {
    let mut data = [1, 2, 3, 4, 5, 6];
    let mut m = MatMut::from_raw_parts(PtrMut::from_slice(&mut data), 2, 3, 3, 1);
    assert_eq!((m.nrows(), m.ncols(), m.row_stride(), m.col_stride()), (2, 3, 3, 1));
    *m.rb_mut().transpose().get(2, 0) = 30;
    *m.rb_mut().invert_rows().get(0, 0) = 40;
    *m.rb_mut().invert_cols().get(0, 1) = 20;
    *m.rb_mut().invert().get(0, 0) = 60;
    *m.rb_mut().submatrix(1, 1, 1, 1).get(0, 0) = 50;
    *m.rb_mut().submatrix(0, 0, 1, 1).diagonal().get(0) = 10;
    assert_eq!(elements(&m.rb()), vec![vec![10, 20, 30], vec![40, 50, 60]]);
    assert_eq!(elements(&m.into_const()), vec![vec![10, 20, 30], vec![40, 50, 60]]);
    assert_eq!(data, [10, 20, 30, 40, 50, 60]);
}

#[test]
fn mutable_vectors() {
    let mut data = [1, 2, 3, 4];
    let r = RowMut::from_raw_parts(PtrMut::from_slice(&mut data), 2, 2);
    assert_eq!((r.nrows(), r.ncols(), r.col_stride()), (1, 2, 2));
    let (a, b) = r.split_at(1);
    *a.get(0) = 10;
    *b.get(0) = 30;
    let c = ColMut::from_raw_parts(PtrMut::from_slice(&mut data), 4, 1);
    assert_eq!((c.nrows(), c.ncols(), c.row_stride()), (4, 1, 1));
    let (a, b) = c.split_at(3);
    *a.get(1) = 20;
    *b.as_2d().get(0, 0) = 40;
    assert_eq!(data, [10, 20, 30, 40]);
    let mut r = RowMut::from_raw_parts(PtrMut::from_slice(&mut data), 4, 1);
    *r.rb_mut().transpose().get(0) = 11;
    assert_eq!(row_elements(r.rb()), vec![11, 20, 30, 40]);
    assert_eq!(row_elements(r.into_const()), vec![11, 20, 30, 40]);
}

#[test]
fn views_over_slices() {
    let mut data = [1, 2, 3, 4, 5, 6];
    {
        let m = from_mut_slice(&mut data, 2, 2, 1, 3);
        assert_eq!(elements(&m.rb()), vec![vec![1, 4], vec![2, 5]]);
        *m.get(1, 1) = 50;
    }
    {
        let m = from_uninit_mut_slice(as_uninit(&mut data), 3, 2, 2, 1);
        assert_eq!(elements(&m.rb()), vec![vec![1, 2], vec![3, 4], vec![50, 6]]);
        *m.get(2, 1) = 60;
    }
    assert_eq!(data, [1, 2, 3, 4, 50, 60]);
}

#[test]
fn cwise_holds_the_view() {
    let z = two_by_three().cwise();
    assert_eq!(elements(&z.tuple.0), elements(&two_by_three()));
    assert_eq!(row_elements(two_by_three().row(0).cwise().tuple.0), vec![1, 2, 3]);
    assert_eq!(col_elements(two_by_three().col(0).cwise().tuple.0), vec![1, 4]);
}

#[test]
fn transpose_of_a_submatrix() {
    assert_eq!(
        elements(&two_by_three().submatrix(0, 1, 2, 2).transpose()),
        elements(&two_by_three().transpose().submatrix(1, 0, 2, 2))
    );
}

#[test]
fn aliased_cells_go_to_the_first_part() {
    let mut data = [1, 2, 3];
    let m = MatMut::from_raw_parts(PtrMut::from_slice(&mut data), 2, 2, 1, 1);
    let (a, b, _, d) = m.split_at(1, 1);
    *a.get(0, 0) = 10;
    *b.get(0, 0) = 20;
    *d.get(0, 0) = 30;
    assert_eq!(data, [10, 20, 30]);
}

#[test]
fn a_loan_ends_where_it_was_made() {
    let mut data = [1, 2];
    let mut m = from_mut_slice(&mut data, 1, 2, 2, 1);
    {
        let mut loan = m.rb_mut();
        *loan.index_mut((0, 0)) = 10;
        *loan.rb_mut().get(0, 1) = 20;
        assert_eq!((loan[(0, 0)], loan[(0, 1)]), (10, 20));
    }
    assert_eq!((m[(0, 0)], m[(0, 1)]), (10, 20));
    *m.get(0, 0) = 11;
    assert_eq!(data, [11, 20]);
}
