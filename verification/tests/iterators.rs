use faer_core::{from_mut_slice, MatRef, Ptr};

const DATA: [i32; 6] = [1, 2, 3, 4, 5, 6];

fn two_by_three() -> MatRef<'static, i32> {
    MatRef::from_raw_parts(Ptr::from_slice(&DATA), 2, 3, 3, 1)
}

#[test]
fn rows_from_the_front() {
    let mut it = two_by_three().into_row_iter();
    assert_eq!(it.size_hint(), (2, Some(2)));
    let r = it.next().unwrap();
    assert_eq!((*r.rb().get(0), *r.rb().get(1), *r.get(2)), (1, 2, 3));
    assert_eq!(it.size_hint(), (1, Some(1)));
    let r = it.next().unwrap();
    assert_eq!((*r.rb().get(0), *r.rb().get(1), *r.get(2)), (4, 5, 6));
    assert!(it.next().is_none());
    assert!(it.next_back().is_none());
    assert_eq!(it.size_hint(), (0, Some(0)));
}

#[test]
fn columns_from_both_ends() {
    let mut it = two_by_three().into_col_iter();
    let c = it.next_back().unwrap();
    assert_eq!((*c.rb().get(0), *c.get(1)), (3, 6));
    let c = it.next().unwrap();
    assert_eq!((*c.rb().get(0), *c.get(1)), (1, 4));
    assert_eq!(it.size_hint(), (1, Some(1)));
    let left = it.into_matrix();
    assert_eq!((left.nrows(), left.ncols()), (2, 1));
    assert_eq!((left[(0, 0)], left[(1, 0)]), (2, 5));
}

#[test]
fn elements_from_both_ends() {
    let mut it = two_by_three().row(1).into_iter();
    assert_eq!(it.size_hint(), (3, Some(3)));
    assert_eq!(it.next(), Some(&4));
    assert_eq!(it.next_back(), Some(&6));
    assert_eq!(it.clone().into_col().nrows(), 1);
    assert_eq!(it.rb().into_row()[0], 5);
    assert_eq!(it.next(), Some(&5));
    assert_eq!(it.next(), None);
    assert_eq!(it.next_back(), None);
}

#[test]
fn row_iterator_reborrows() {
    let mut it = two_by_three().into_row_iter();
    it.next();
    assert_eq!(it.rb().next().unwrap()[0], 4);
    assert_eq!(it.rb_mut().next_back().unwrap()[1], 5);
    assert_eq!(it.clone().into_matrix().nrows(), 1);
    assert_eq!(it.size_hint(), (1, Some(1)));
}

#[test]
fn mutable_rows_are_written_apart() {
    let mut data = [1, 2, 3, 4, 5, 6];
    let mut it = from_mut_slice(&mut data, 3, 2, 2, 1).into_row_iter();
    let first = it.next().unwrap();
    let last = it.next_back().unwrap();
    assert_eq!(it.size_hint(), (1, Some(1)));
    *first.get(0) = 10;
    *last.get(1) = 60;
    let middle = it.into_matrix();
    assert_eq!((middle.nrows(), middle.ncols()), (1, 2));
    *middle.get(0, 1) = 40;
    assert_eq!(data, [10, 2, 3, 40, 5, 60]);
}

#[test]
fn mutable_columns_are_written_apart() {
    let mut data = [1, 2, 3, 4, 5, 6];
    let mut it = from_mut_slice(&mut data, 2, 3, 3, 1).into_col_iter();
    let last = it.next_back().unwrap();
    let first = it.next().unwrap();
    let middle = it.next().unwrap();
    assert!(it.next().is_none());
    assert!(it.next_back().is_none());
    *first.get(1) = 40;
    *middle.get(0) = 20;
    *last.get(1) = 60;
    assert_eq!(data, [1, 20, 3, 40, 5, 60]);
}

#[test]
fn mutable_elements_are_written_apart() {
    let mut data = [1, 2, 3, 4];
    let mut it = from_mut_slice(&mut data, 1, 4, 4, 1).row(0).into_iter();
    let a = it.next().unwrap();
    let d = it.next_back().unwrap();
    assert_eq!(it.size_hint(), (2, Some(2)));
    *a += 10;
    *d += 40;
    assert_eq!(it.rb().next(), Some(&2));
    *it.rb_mut().next().unwrap() += 20;
    *it.into_col().get(1) += 30;
    assert_eq!(data, [11, 22, 33, 44]);
}

#[test]
fn iterators_over_nothing() {
    let data: [i32; 0] = [];
    let m = MatRef::from_raw_parts(Ptr::from_slice(&data), 0, 2, 1, 1);
    assert!(m.rb().into_row_iter().next().is_none());
    assert!(m.rb().into_row_iter().next_back().is_none());
    let mut cols = m.into_col_iter();
    assert_eq!(cols.next().unwrap().into_iter().next(), None);
    assert_eq!(cols.next_back().unwrap().nrows(), 0);
    assert!(cols.next().is_none());
}
