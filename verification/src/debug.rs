//! How matrices are shown for debugging: one row in each line.

use crate::col_mut::ColMut;
use crate::col_ref::ColRef;
use crate::mat::{law_column_major, Mat};
use crate::mat_mut::MatMut;
use crate::mat_ref::MatRef;
use crate::model::{lemma_vec_as_matrix, MatView};
use crate::row_mut::RowMut;
use crate::row_ref::RowRef;
use vstd::prelude::*;

verus! {

/// `text` with four spaces in front of each line. The first line is `fresh`, or continues a line.
pub open spec fn indented(text: Seq<char>, fresh: bool) -> Seq<char>
    decreases text.len(),
{
    if text.len() == 0 {
        text
    } else {
        let last = text.last();
        let before = text.drop_last();
        let starts = if before.len() == 0 {
            fresh
        } else {
            before.last() == '\n'
        };
        indented(before, fresh) + (if starts {
            "    "@
        } else {
            Seq::empty()
        }) + seq![last]
    }
}

/// The entries, separated by commas.
pub open spec fn listed(entries: Seq<String>) -> Seq<char>
    decreases entries.len(),
{
    if entries.len() == 0 {
        Seq::empty()
    } else if entries.len() == 1 {
        entries[0]@
    } else {
        listed(entries.drop_last()) + ", "@ + entries.last()@
    }
}

/// The entries, each followed by a comma, and indented on lines of its own.
pub open spec fn lines(entries: Seq<String>) -> Seq<char>
    decreases entries.len(),
{
    if entries.len() == 0 {
        Seq::empty()
    } else {
        lines(entries.drop_last()) + indented(entries.last()@ + ",\n"@, true)
    }
}

/// A row in brackets. In the alternate form each entry has lines of its own.
pub open spec fn shown_row(entries: Seq<String>, alternate: bool) -> Seq<char> {
    if alternate && entries.len() > 0 {
        "[\n"@ + lines(entries) + "]"@
    } else {
        "["@ + listed(entries) + "]"@
    }
}

/// The rows, each followed by a comma and the end of the line.
pub open spec fn shown_rows(rows: Seq<Seq<String>>, alternate: bool) -> Seq<char>
    decreases rows.len(),
{
    if rows.len() == 0 {
        Seq::empty()
    } else {
        shown_rows(rows.drop_last(), alternate) + shown_row(rows.last(), alternate) + ",\n"@
    }
}

/// The rows in brackets.
pub open spec fn shown_matrix(rows: Seq<Seq<String>>, alternate: bool) -> Seq<char> {
    "[\n"@ + shown_rows(rows, alternate) + "]"@
}

/// Whether `rows` holds what `entry` returns for each element of `m`.
pub open spec fn entries_of<T, F: Fn(&T) -> String>(
    m: MatView<T>,
    entry: F,
    rows: Seq<Seq<String>>,
) -> bool {
    &&& rows.len() == m.nrows
    &&& forall|i: int| 0 <= i < m.nrows ==> (#[trigger] rows[i]).len() == m.ncols
    &&& forall|i: int, j: int|
        m.has(i, j) ==> call_ensures(entry, (&m.at(i, j)->0,), #[trigger] rows[i][j])
}

/// Appends `text` to `out`, with four spaces in front of each line.
fn append_indented(out: &mut String, text: &str)
    ensures
        final(out)@ == old(out)@ + indented(text@, true),
{
    let n = text.unicode_len();
    let mut fresh = true;
    let mut k: usize = 0;
    assert(text@.subrange(0, 0) =~= Seq::empty());
    while k < n
        invariant
            n == text@.len(),
            k <= n,
            fresh == if k == 0 {
                true
            } else {
                text@[k - 1] == '\n'
            },
            out@ == old(out)@ + indented(text@.subrange(0, k as int), true),
        decreases n - k,
    {
        let ghost before = out@;
        let c = text.get_char(k);
        if fresh {
            out.append("    ");
        }
        out.append(text.substring_char(k, k + 1));
        fresh = c == '\n';
        proof {
            let next = text@.subrange(0, k + 1);
            assert(next.drop_last() =~= text@.subrange(0, k as int));
            assert(text@.subrange(k as int, k + 1) =~= seq![next.last()]);
            assert(out@ =~= old(out)@ + indented(next, true));
        }
        k += 1;
    }
    assert(text@.subrange(0, n as int) =~= text@);
}

/// Returns a row in brackets. In the alternate form each entry has lines of its own.
pub fn row_text(entries: &Vec<String>, alternate: bool) -> (r: String)
    ensures
        r@ == shown_row(entries@, alternate),
{
    let n = entries.len();
    let mut out = String::new();
    let mut k: usize = 0;
    if alternate && n > 0 {
        out.append("[\n");
        assert(out@ =~= "[\n"@ + lines(entries@.subrange(0, 0)));
        while k < n
            invariant
                n == entries@.len(),
                k <= n,
                out@ == "[\n"@ + lines(entries@.subrange(0, k as int)),
            decreases n - k,
        {
            let ghost next = entries@.subrange(0, k + 1);
            let mut text = entries[k].clone();
            text.append(",\n");
            append_indented(&mut out, text.as_str());
            proof {
                assert(next.drop_last() =~= entries@.subrange(0, k as int));
                assert(next.last() == entries@[k as int]);
                assert(out@ =~= "[\n"@ + lines(next));
            }
            k += 1;
        }
    } else {
        out.append("[");
        assert(out@ =~= "["@ + listed(entries@.subrange(0, 0)));
        while k < n
            invariant
                n == entries@.len(),
                k <= n,
                out@ == "["@ + listed(entries@.subrange(0, k as int)),
            decreases n - k,
        {
            let ghost next = entries@.subrange(0, k + 1);
            if k > 0 {
                out.append(", ");
            }
            out.append(entries[k].as_str());
            proof {
                assert(next.drop_last() =~= entries@.subrange(0, k as int));
                assert(next.last() == entries@[k as int]);
                assert(out@ =~= "["@ + listed(next));
            }
            k += 1;
        }
    }
    out.append("]");
    assert(entries@.subrange(0, n as int) =~= entries@);
    out
}

/// What stands behind the imaginary part of a complex number: the imaginary unit, with a product
/// sign in front of it where the parts are double precision.
pub open spec fn shown_suffix(double: bool) -> Seq<char> {
    if double {
        " * I"@
    } else {
        "I"@
    }
}

/// Returns what stands behind the imaginary part of a complex number: the imaginary unit, with a
/// product sign in front of it where the parts are double precision.
pub fn imaginary_suffix(double: bool) -> (r: &'static str)
    ensures
        r@ == shown_suffix(double),
        double ==> r@ == " * I"@,
        !double ==> r@ == "I"@,
{
    if double {
        " * I"
    } else {
        "I"
    }
}

/// Returns a complex number as a sum of its parts, which are given as text.
pub fn complex_text(re: &str, im: &str, double: bool) -> (r: String)
    ensures
        r@ == re@ + " + "@ + im@ + shown_suffix(double),
{
    let mut out = String::from_str(re);
    out.append(" + ");
    out.append(im);
    out.append(imaginary_suffix(double));
    out
}

impl<'a, T> MatRef<'a, T> {
    /// Returns the matrix as text, one row in each line, with what `entry` returns for each
    /// element.
    pub fn fmt<F: Fn(&T) -> String>(&self, entry: &F, alternate: bool) -> (r: String)
        requires
            self@.readable(),
            forall|i: int, j: int|
                self@.has(i, j) ==> call_requires(entry, (&(#[trigger] self@.at(i, j))->0,)),
        ensures
            exists|rows: Seq<Seq<String>>| #[trigger]
                entries_of(self@, *entry, rows) && r@ == shown_matrix(rows, alternate),
    {
        let nrows = self.nrows();
        let ncols = self.ncols();
        let ghost mut rows: Seq<Seq<String>> = Seq::empty();
        let mut out = String::new();
        out.append("[\n");
        assert(out@ =~= "[\n"@ + shown_rows(rows, alternate));
        let mut i: usize = 0;
        while i < nrows
            invariant
                nrows == self@.nrows,
                ncols == self@.ncols,
                i <= nrows,
                self@.readable(),
                forall|k: int, l: int|
                    self@.has(k, l) ==> call_requires(entry, (&(#[trigger] self@.at(k, l))->0,)),
                rows.len() == i,
                forall|k: int| 0 <= k < i ==> (#[trigger] rows[k]).len() == ncols,
                forall|k: int, l: int|
                    0 <= k < i && 0 <= l < ncols ==> call_ensures(
                        *entry,
                        (&self@.at(k, l)->0,),
                        #[trigger] rows[k][l],
                    ),
                out@ == "[\n"@ + shown_rows(rows, alternate),
            decreases nrows - i,
        {
            let row = self.rb().row(i);
            let mut entries: Vec<String> = Vec::new();
            let mut j: usize = 0;
            while j < ncols
                invariant
                    nrows == self@.nrows,
                    ncols == self@.ncols,
                    i < nrows,
                    j <= ncols,
                    row@.len == ncols,
                    forall|l: int| #[trigger] row@.at(l) == self@.at(i as int, l),
                    self@.readable(),
                    forall|k: int, l: int|
                        self@.has(k, l) ==> call_requires(
                            entry,
                            (&(#[trigger] self@.at(k, l))->0,),
                        ),
                    entries@.len() == j,
                    forall|l: int|
                        0 <= l < j ==> call_ensures(
                            *entry,
                            (&self@.at(i as int, l)->0,),
                            #[trigger] entries@[l],
                        ),
                decreases ncols - j,
            {
                assert(self@.has(i as int, j as int));
                assert(row@.at(j as int) == self@.at(i as int, j as int));
                let x = row.rb().get(j);
                entries.push(entry(x));
                j += 1;
            }
            let text = row_text(&entries, alternate);
            out.append(text.as_str());
            out.append(",\n");
            proof {
                let next = rows.push(entries@);
                assert(next.drop_last() =~= rows);
                assert(out@ =~= "[\n"@ + shown_rows(next, alternate));
                rows = next;
            }
            i += 1;
        }
        out.append("]");
        assert(entries_of(self@, *entry, rows));
        out
    }
}

impl<'a, T> MatMut<'a, T> {
    /// Returns the matrix as text, one row in each line, with what `entry` returns for each
    /// element.
    pub fn fmt<F: Fn(&T) -> String>(&self, entry: &F, alternate: bool) -> (r: String)
        requires
            self@.now().readable(),
            forall|i: int, j: int|
                self@.has(i, j) ==> call_requires(entry, (&(#[trigger] self@.now().at(i, j))->0,)),
        ensures
            exists|rows: Seq<Seq<String>>| #[trigger]
                entries_of(self@.now(), *entry, rows) && r@ == shown_matrix(rows, alternate),
    {
        self.rb().fmt(entry, alternate)
    }
}

impl<'a, T> RowRef<'a, T> {
    /// Returns the row as text, as a matrix of one row.
    pub fn fmt<F: Fn(&T) -> String>(&self, entry: &F, alternate: bool) -> (r: String)
        requires
            self@.readable(),
            forall|k: int|
                0 <= k < self@.len ==> call_requires(entry, (&(#[trigger] self@.at(k))->0,)),
        ensures
            exists|rows: Seq<Seq<String>>| #[trigger]
                entries_of(self@.as_row(), *entry, rows) && r@ == shown_matrix(rows, alternate),
    {
        proof {
            lemma_vec_as_matrix(self@);
            assert forall|i: int, j: int| self@.as_row().has(i, j) implies (
            #[trigger] self@.as_row().at(i, j)) == self@.at(j) by {
                assert(self@.as_row().at(0, j) == self@.at(j));
            }
        }
        self.rb().as_2d().fmt(entry, alternate)
    }
}

impl<'a, T> RowMut<'a, T> {
    /// Returns the row as text, as a matrix of one row.
    pub fn fmt<F: Fn(&T) -> String>(&self, entry: &F, alternate: bool) -> (r: String)
        requires
            self@.now().readable(),
            forall|k: int|
                0 <= k < self@.len ==> call_requires(entry, (&(#[trigger] self@.now().at(k))->0,)),
        ensures
            exists|rows: Seq<Seq<String>>| #[trigger]
                entries_of(self@.now().as_row(), *entry, rows) && r@ == shown_matrix(
                    rows,
                    alternate,
                ),
    {
        self.rb().fmt(entry, alternate)
    }
}

impl<'a, T> ColRef<'a, T> {
    /// Returns the column as text, as a matrix of one column.
    pub fn fmt<F: Fn(&T) -> String>(&self, entry: &F, alternate: bool) -> (r: String)
        requires
            self@.readable(),
            forall|k: int|
                0 <= k < self@.len ==> call_requires(entry, (&(#[trigger] self@.at(k))->0,)),
        ensures
            exists|rows: Seq<Seq<String>>| #[trigger]
                entries_of(self@.as_col(), *entry, rows) && r@ == shown_matrix(rows, alternate),
    {
        proof {
            lemma_vec_as_matrix(self@);
            assert forall|i: int, j: int| self@.as_col().has(i, j) implies (
            #[trigger] self@.as_col().at(i, j)) == self@.at(i) by {
                assert(self@.as_col().at(i, 0) == self@.at(i));
            }
        }
        self.rb().as_2d().fmt(entry, alternate)
    }
}

impl<'a, T> ColMut<'a, T> {
    /// Returns the column as text, as a matrix of one column.
    pub fn fmt<F: Fn(&T) -> String>(&self, entry: &F, alternate: bool) -> (r: String)
        requires
            self@.now().readable(),
            forall|k: int|
                0 <= k < self@.len ==> call_requires(entry, (&(#[trigger] self@.now().at(k))->0,)),
        ensures
            exists|rows: Seq<Seq<String>>| #[trigger]
                entries_of(self@.now().as_col(), *entry, rows) && r@ == shown_matrix(
                    rows,
                    alternate,
                ),
    {
        self.rb().fmt(entry, alternate)
    }
}

impl<T: 'static> Mat<T> {
    /// Returns the matrix as text, one row in each line, with what `entry` returns for each
    /// element.
    pub fn fmt<F: Fn(&T) -> String>(&self, entry: &F, alternate: bool) -> (r: String)
        requires
            self@.valid(),
            forall|i: int, j: int|
                self@.has(i, j) ==> call_requires(entry, (&(#[trigger] self@.at(i, j))->0,)),
        ensures
            exists|rows: Seq<Seq<String>>| #[trigger]
                entries_of(self@.as_mat(), *entry, rows) && r@ == shown_matrix(rows, alternate),
    {
        proof {
            law_column_major(self@);
        }
        self.as_ref().fmt(entry, alternate)
    }
}

/// The text of a row that is not in the alternate form: an empty row is a pair of brackets, one
/// entry stands between the brackets, and each further entry is put in front of the closing bracket,
/// with a comma and a space in front of it, however many entries there are.
pub proof fn law_row_text_entry(
    entries: Vec<String>,
    longer: Vec<String>,
    last: String,
    r: String,
    longer_r: String,
)
    requires
        longer@ == entries@.push(last),
        call_ensures(row_text, (&entries, false), r),
        call_ensures(row_text, (&longer, false), longer_r),
    ensures
        r@.len() >= 2,
        r@.first() == '[',
        r@.last() == ']',
        entries@.len() == 0 ==> r@ == seq!['[', ']'],
        longer_r@ == r@.drop_last() + (if entries@.len() == 0 {
            seq![]
        } else {
            seq![',', ' ']
        }) + last@ + seq![']'],
{
    reveal_strlit("[");
    reveal_strlit("]");
    reveal_strlit(", ");
    let text = listed(entries@);
    assert(longer@.drop_last() =~= entries@);
    assert(longer@.last() == last);
    assert(r@.drop_last() =~= seq!['['] + text);
    if entries@.len() == 0 {
        assert(longer@[0] == last);
    }
    assert(longer_r@ =~= r@.drop_last() + (if entries@.len() == 0 {
        seq![]
    } else {
        seq![',', ' ']
    }) + last@ + seq![']']);
}

/// The text of a row in the alternate form: an empty row is a pair of brackets, and each entry is
/// put in front of the closing bracket, followed by a comma and the end of the line, and indented.
/// The first entry begins on a line of its own.
pub proof fn law_row_text_entry_alternate(
    entries: Vec<String>,
    longer: Vec<String>,
    last: String,
    r: String,
    longer_r: String,
)
    requires
        longer@ == entries@.push(last),
        call_ensures(row_text, (&entries, true), r),
        call_ensures(row_text, (&longer, true), longer_r),
    ensures
        r@.len() >= 2,
        r@.first() == '[',
        r@.last() == ']',
        entries@.len() == 0 ==> r@ == seq!['[', ']'],
        longer_r@ == r@.drop_last() + (if entries@.len() == 0 {
            seq!['\n']
        } else {
            seq![]
        }) + indented(last@ + seq![',', '\n'], true) + seq![']'],
{
    reveal_strlit("[");
    reveal_strlit("[\n");
    reveal_strlit("]");
    reveal_strlit(",\n");
    assert(longer@.drop_last() =~= entries@);
    assert(longer@.last() == last);
    assert(last@ + ",\n"@ =~= last@ + seq![',', '\n']);
    if entries@.len() == 0 {
        assert(lines(entries@) =~= seq![]);
        assert(longer_r@ =~= seq!['[', '\n'] + indented(last@ + seq![',', '\n'], true) + seq![']']);
        assert(r@.drop_last() =~= seq!['[']);
    } else {
        assert(r@.drop_last() =~= seq!['[', '\n'] + lines(entries@));
    }
    assert(longer_r@ =~= r@.drop_last() + (if entries@.len() == 0 {
        seq!['\n']
    } else {
        seq![]
    }) + indented(last@ + seq![',', '\n'], true) + seq![']']);
}

/// Indenting goes on behind the text that it has indented, and takes notice of nothing but whether
/// that text ends a line.
proof fn lemma_indented_append(a: Seq<char>, b: Seq<char>, fresh: bool)
    requires
        a.len() > 0,
    ensures
        indented(a + b, fresh) == indented(a, fresh) + indented(b, a.last() == '\n'),
    decreases b.len(),
{
    if b.len() == 0 {
        assert(a + b =~= a);
        assert(indented(a, fresh) + indented(b, a.last() == '\n') =~= indented(a, fresh));
    } else {
        let c = b.drop_last();
        lemma_indented_append(a, c, fresh);
        assert((a + b).drop_last() =~= a + c);
        assert((a + b).last() == b.last());
        let starts = if c.len() == 0 {
            a.last() == '\n'
        } else {
            c.last() == '\n'
        };
        assert((a + c).last() == if c.len() == 0 {
            a.last()
        } else {
            c.last()
        });
        let pad = if starts {
            "    "@
        } else {
            Seq::empty()
        };
        assert(indented(a + b, fresh) =~= indented(a + c, fresh) + pad + seq![b.last()]);
        assert(indented(b, a.last() == '\n') =~= indented(c, a.last() == '\n') + pad + seq![
            b.last(),
        ]);
        assert(indented(a + b, fresh) =~= indented(a, fresh) + indented(b, a.last() == '\n'));
    }
}

/// A line that ends nowhere is not changed but for what is put in front of it.
proof fn lemma_indented_line(line: Seq<char>, fresh: bool)
    requires
        forall|k: int| 0 <= k < line.len() ==> line[k] != '\n',
        line.len() > 0,
    ensures
        indented(line, fresh) == (if fresh {
            seq![' ', ' ', ' ', ' ']
        } else {
            seq![]
        }) + line,
    decreases line.len(),
{
    reveal_strlit("    ");
    let before = line.drop_last();
    assert("    "@ =~= seq![' ', ' ', ' ', ' ']);
    if before.len() == 0 {
        assert(indented(before, fresh) =~= seq![]);
        assert(line =~= seq![line.last()]);
    } else {
        lemma_indented_line(before, fresh);
        assert(before.last() == line[line.len() - 2]);
        assert(line =~= before + seq![line.last()]);
    }
    assert(indented(line, fresh) =~= (if fresh {
        seq![' ', ' ', ' ', ' ']
    } else {
        seq![]
    }) + line);
}

/// Indenting puts four spaces in front of each line, whether or not the line is empty, and changes
/// nothing else: a text that begins with a line is that line behind four spaces, and then the rest
/// of the text, indented. No text stays no text, and a last line without an end is a line too.
pub proof fn law_indented_lines(line: Seq<char>, rest: Seq<char>)
    requires
        forall|k: int| 0 <= k < line.len() ==> line[k] != '\n',
    ensures
        indented(Seq::empty(), true) == Seq::<char>::empty(),
        line.len() > 0 ==> indented(line, true) == seq![' ', ' ', ' ', ' '] + line,
        indented(line + seq!['\n'] + rest, true) == seq![' ', ' ', ' ', ' '] + line + seq!['\n']
            + indented(rest, true),
{
    reveal_strlit("    ");
    assert("    "@ =~= seq![' ', ' ', ' ', ' ']);
    let end = seq!['\n'];
    assert(end.drop_last() =~= seq![]);
    assert(indented(end.drop_last(), false) =~= seq![]);
    assert(indented(end.drop_last(), true) =~= seq![]);
    assert(indented(end, false) =~= end);
    assert(indented(end, true) =~= seq![' ', ' ', ' ', ' '] + end);
    let whole = line + end;
    if line.len() > 0 {
        lemma_indented_line(line, true);
        lemma_indented_append(line, end, true);
        assert(line.last() != '\n');
        assert(indented(whole, true) =~= seq![' ', ' ', ' ', ' '] + line + end);
    } else {
        assert(whole =~= end);
        assert(indented(whole, true) =~= seq![' ', ' ', ' ', ' '] + line + end);
    }
    assert(whole.last() == '\n');
    lemma_indented_append(whole, rest, true);
}

/// The text of a matrix: without rows it is two brackets on two lines, and each row is put on a line
/// of its own in front of the closing bracket, followed by a comma.
pub proof fn law_shown_matrix_row(
    rows: Seq<Seq<String>>,
    last: Vec<String>,
    alternate: bool,
    last_r: String,
)
    requires
        call_ensures(row_text, (&last, alternate), last_r),
    ensures
        shown_matrix(Seq::empty(), alternate) == seq!['[', '\n', ']'],
        shown_matrix(rows, alternate).len() >= 3,
        shown_matrix(rows, alternate).last() == ']',
        shown_matrix(rows.push(last@), alternate) == shown_matrix(rows, alternate).drop_last()
            + last_r@ + seq![',', '\n', ']'],
{
    reveal_strlit("[\n");
    reveal_strlit("]");
    reveal_strlit(",\n");
    let longer = rows.push(last@);
    assert(shown_rows(Seq::empty(), alternate) =~= seq![]);
    assert(shown_matrix(Seq::empty(), alternate) =~= seq!['[', '\n', ']']);
    assert(longer.drop_last() =~= rows);
    assert(longer.last() == last@);
    assert(shown_matrix(rows, alternate).drop_last() =~= seq!['[', '\n'] + shown_rows(
        rows,
        alternate,
    ));
    assert(shown_matrix(longer, alternate) =~= shown_matrix(rows, alternate).drop_last() + last_r@
        + seq![',', '\n', ']']);
}

/// A matrix is shown with one row of entries for each of its rows, and one entry for each of its
/// columns in each of them: the entry of row `i` and column `j` is what the element there is shown
/// as. Returns the entries.
pub proof fn law_fmt_entries<'a, T, F: Fn(&T) -> String>(
    m: MatRef<'a, T>,
    entry: F,
    alternate: bool,
    r: String,
) -> (rows: Seq<Seq<String>>)
    requires
        call_ensures(MatRef::<'a, T>::fmt::<F>, (&m, &entry, alternate), r),
    ensures
        rows.len() == m@.nrows,
        forall|i: int| 0 <= i < m@.nrows ==> (#[trigger] rows[i]).len() == m@.ncols,
        forall|i: int, j: int|
            0 <= i < m@.nrows && 0 <= j < m@.ncols ==> call_ensures(
                entry,
                (&m@.at(i, j)->0,),
                #[trigger] rows[i][j],
            ),
        r@ == shown_matrix(rows, alternate),
{
    choose|rows: Seq<Seq<String>>| #[trigger]
        entries_of(m@, entry, rows) && r@ == shown_matrix(rows, alternate)
}

/// A complex number is shown as its real part, a plus sign, its imaginary part and the imaginary
/// unit, with a product sign in front of the unit where the parts are double precision.
pub proof fn law_complex_text(re: &str, im: &str, double: bool, r: String)
    requires
        call_ensures(complex_text, (re, im, double), r),
    ensures
        r@ == re@ + seq![' ', '+', ' '] + im@ + (if double {
            seq![' ', '*', ' ', 'I']
        } else {
            seq!['I']
        }),
{
    reveal_strlit(" + ");
    reveal_strlit(" * I");
    reveal_strlit("I");
    assert(" + "@ =~= seq![' ', '+', ' ']);
    assert(" * I"@ =~= seq![' ', '*', ' ', 'I']);
    assert("I"@ =~= seq!['I']);
}

}
