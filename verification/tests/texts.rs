use faer_core::debug::{complex_text, imaginary_suffix, row_text};
use faer_core::stack::imaginary_form;
use faer_core::{from_mut_slice, mat, Mat, MatRef, Ptr};
use num_complex::{Complex, Complex32, Complex64};

fn entry(x: &i32) -> String {
    format!("{:?}", x)
}

struct Raw<'a>(&'a str);
impl std::fmt::Debug for Raw<'_> {
    fn fmt(&self, f: &mut std::fmt::Formatter<'_>) -> std::fmt::Result {
        f.write_str(self.0)
    }
}

#[test]
fn matrix_text() {
    let m = mat(vec![vec![1, 2, 3], vec![4, 5, 6]]);
    assert_eq!(m.fmt(&entry, false), "[\n[1, 2, 3],\n[4, 5, 6],\n]");
    assert_eq!(m.as_ref().fmt(&entry, false), "[\n[1, 2, 3],\n[4, 5, 6],\n]");
    assert_eq!(m.as_ref().transpose().fmt(&entry, false), "[\n[1, 4],\n[2, 5],\n[3, 6],\n]");
}

#[test]
fn matrix_text_in_the_alternate_form() {
    let m = mat(vec![vec![1, 2], vec![3, 4]]);
    let mut expected = String::from("[\n");
    for row in [[1, 2], [3, 4]] {
        expected += &format!("{:#?}", row);
        expected += ",\n";
    }
    expected += "]";
    assert_eq!(m.fmt(&entry, true), expected);
}

#[test]
fn row_texts_agree_with_lists() {
    let lists: [Vec<&str>; 4] = [vec![], vec!["a"], vec!["a\nb", ""], vec!["x\n", "\ny", "z"]];
    for list in lists {
        let entries: Vec<String> = list.iter().map(|s| s.to_string()).collect();
        let raw: Vec<Raw<'_>> = list.iter().map(|s| Raw(s)).collect();
        assert_eq!(row_text(&entries, false), format!("{:?}", raw));
        assert_eq!(row_text(&entries, true), format!("{:#?}", raw));
    }
}

#[test]
fn texts_of_empty_matrices() {
    let m = Mat::<i32>::new();
    assert_eq!(m.fmt(&entry, false), "[\n]");
    let data: [i32; 0] = [];
    let m = MatRef::from_raw_parts(Ptr::from_slice(&data), 2, 0, 1, 1);
    assert_eq!(m.fmt(&entry, false), "[\n[],\n[],\n]");
    assert_eq!(m.fmt(&entry, true), "[\n[],\n[],\n]");
}

#[test]
fn texts_of_other_views() {
    let mut data = [1, 2, 3, 4];
    let mut m = from_mut_slice(&mut data, 2, 2, 2, 1);
    assert_eq!(m.fmt(&entry, false), "[\n[1, 2],\n[3, 4],\n]");
    assert_eq!(m.rb().row(1).fmt(&entry, false), "[\n[3, 4],\n]");
    assert_eq!(m.rb().col(1).fmt(&entry, false), "[\n[2],\n[4],\n]");
    assert_eq!(m.rb_mut().row(0).fmt(&entry, false), "[\n[1, 2],\n]");
    assert_eq!(m.rb_mut().col(0).fmt(&entry, false), "[\n[1],\n[3],\n]");
}

#[test]
fn complex_texts() {
    assert_eq!(complex_text("1.5", "-2.0", false), "1.5 + -2.0I");
    assert_eq!(complex_text("1.5", "-2.0", true), "1.5 + -2.0 * I");
}

#[test]
fn forms_of_complex_types() {
    assert_eq!(imaginary_form::<Complex32>(), Some(false));
    assert_eq!(imaginary_form::<Complex64>(), Some(true));
    assert_eq!(imaginary_form::<f64>(), None);
    assert_eq!(imaginary_form::<Complex<i32>>(), None);
    assert_eq!((imaginary_suffix(false), imaginary_suffix(true)), ("I", " * I"));
}
