//! Delimiter-separated text for frames: rendering and parsing, both exact.
//!
//! A frame renders to one header line (optional) and one line per row, each
//! line the cells' texts joined by the delimiter and terminated by a
//! newline.  Parsing reads every cell back as text (the documented narrowing
//! to text dtypes: a parsed frame is all Utf8, and a null renders as the
//! empty field).  `lemma_csv_round_trip` proves that parsing rendered text
//! yields exactly the frame's textual image.  Only the in-memory halves live
//! here; moving text to and from disk is the host layer's business.

use vstd::prelude::*;

use crate::error::EngineError;
use crate::frame::{frame_wf, spec_height, DataFrame};
use crate::numtext::{render_digits, render_i64, spec_render_int};
use crate::series::{series_wf, Series, SeriesModel};
use crate::value::val_matches;
use crate::value::{str_eq, Dtype, TypedValue, Val};

verus! {

/// Relies on std's `String::push`: appends exactly the given character.
pub assume_specification[ String::push ](s: &mut String, ch: char)
    ensures
        final(s)@ == old(s)@.push(ch),
;

/// Whether `c` occurs nowhere in `s`.
pub open spec fn no_char(s: Seq<char>, c: char) -> bool {
    forall|i: int| 0 <= i < s.len() ==> s[i] != c
}

/// The fields of `s` separated by `sep`: always at least one field, the
/// empty text giving one empty field.
pub open spec fn spec_split(s: Seq<char>, sep: char) -> Seq<Seq<char>>
    decreases s.len(),
{
    if s.len() == 0 {
        seq![Seq::<char>::empty()]
    } else {
        let p = spec_split(s.drop_last(), sep);
        if s.last() == sep {
            p.push(Seq::<char>::empty())
        } else {
            p.update(p.len() - 1, p.last().push(s.last()))
        }
    }
}

/// The fields joined by `sep`.
pub open spec fn spec_join(fields: Seq<Seq<char>>, sep: char) -> Seq<char>
    decreases fields.len(),
{
    if fields.len() == 0 {
        Seq::empty()
    } else if fields.len() == 1 {
        fields[0]
    } else {
        spec_join(fields.drop_last(), sep) + seq![sep] + fields.last()
    }
}

/// Splitting yields at least one field.
pub proof fn lemma_split_len(s: Seq<char>, sep: char)
    ensures
        spec_split(s, sep).len() >= 1,
    decreases s.len(),
{
    if s.len() > 0 {
        lemma_split_len(s.drop_last(), sep);
    }
}

/// A text free of the separator splits into itself alone.
pub proof fn lemma_split_no_sep(s: Seq<char>, sep: char)
    requires
        no_char(s, sep),
    ensures
        spec_split(s, sep) =~~= seq![s],
    decreases s.len(),
{
    if s.len() == 0 {
        assert(spec_split(s, sep) =~~= seq![s]);
    } else {
        assert(no_char(s.drop_last(), sep)) by {
            assert(forall|i: int|
                0 <= i < s.len() - 1 ==> #[trigger] s.drop_last()[i] == s[i]);
        }
        lemma_split_no_sep(s.drop_last(), sep);
        assert(s.last() != sep);
        assert(s.drop_last().push(s.last()) =~= s);
        assert(spec_split(s, sep) =~~= seq![s]);
    }
}

/// Appending separator-free text extends the last field.
pub proof fn lemma_split_append(x: Seq<char>, b: Seq<char>, sep: char)
    requires
        no_char(b, sep),
    ensures
        spec_split(x + b, sep) =~~= spec_split(x, sep).update(
            spec_split(x, sep).len() - 1,
            spec_split(x, sep).last() + b,
        ),
    decreases b.len(),
{
    lemma_split_len(x, sep);
    let p = spec_split(x, sep);
    if b.len() == 0 {
        assert(x + b =~= x);
        assert(p.last() + b =~= p.last());
        assert(p.update(p.len() - 1, p.last() + b) =~~= p);
    } else {
        assert(no_char(b.drop_last(), sep)) by {
            assert(forall|i: int|
                0 <= i < b.len() - 1 ==> #[trigger] b.drop_last()[i] == b[i]);
        }
        lemma_split_append(x, b.drop_last(), sep);
        let q = spec_split(x + b.drop_last(), sep);
        assert(q =~~= p.update(p.len() - 1, p.last() + b.drop_last()));
        assert((x + b).drop_last() =~= x + b.drop_last());
        assert((x + b).last() == b.last());
        assert(b.last() != sep);
        assert(spec_split(x + b, sep) =~~= q.update(q.len() - 1, q.last().push(b.last())));
        assert(q.len() == p.len());
        assert(q.last() =~= p.last() + b.drop_last());
        assert((p.last() + b.drop_last()).push(b.last()) =~= p.last() + b);
        assert(spec_split(x + b, sep) =~~= p.update(p.len() - 1, p.last() + b));
    }
}

/// Appending one separator opens a fresh empty field.
pub proof fn lemma_split_sep(x: Seq<char>, sep: char)
    ensures
        spec_split(x + seq![sep], sep) =~~= spec_split(x, sep).push(Seq::<char>::empty()),
{
    assert((x + seq![sep]).drop_last() =~= x);
    assert((x + seq![sep]).last() == sep);
}

/// Splitting undoes joining when no field holds the separator.
pub proof fn lemma_split_join(fields: Seq<Seq<char>>, sep: char)
    requires
        fields.len() >= 1,
        forall|i: int| 0 <= i < fields.len() ==> no_char(#[trigger] fields[i], sep),
    ensures
        spec_split(spec_join(fields, sep), sep) =~~= fields,
    decreases fields.len(),
{
    if fields.len() == 1 {
        assert(spec_join(fields, sep) == fields[0]);
        lemma_split_no_sep(fields[0], sep);
        assert(spec_split(spec_join(fields, sep), sep) =~~= fields);
    } else {
        let front = fields.drop_last();
        assert(forall|i: int|
            0 <= i < front.len() ==> no_char(#[trigger] front[i], sep));
        lemma_split_join(front, sep);
        let j = spec_join(front, sep);
        assert(spec_join(fields, sep) =~= (j + seq![sep]) + fields.last());
        lemma_split_sep(j, sep);
        lemma_split_append(j + seq![sep], fields.last(), sep);
        let mid = spec_split(j + seq![sep], sep);
        assert(mid =~~= front.push(Seq::<char>::empty()));
        assert(mid.len() == front.len() + 1);
        assert(mid.last() =~= Seq::<char>::empty());
        assert(mid.last() + fields.last() =~= fields.last());
        assert(spec_split(spec_join(fields, sep), sep) =~~= mid.update(
            mid.len() - 1,
            mid.last() + fields.last(),
        ));
        assert(mid.update(mid.len() - 1, mid.last() + fields.last()) =~~= fields);
    }
}

/// A join of separator-free fields holds no character foreign to them.
pub proof fn lemma_join_no_char(fields: Seq<Seq<char>>, sep: char, c: char)
    requires
        c != sep,
        forall|i: int| 0 <= i < fields.len() ==> no_char(#[trigger] fields[i], c),
    ensures
        no_char(spec_join(fields, sep), c),
    decreases fields.len(),
{
    if fields.len() > 1 {
        let front = fields.drop_last();
        assert(forall|i: int| 0 <= i < front.len() ==> no_char(#[trigger] front[i], c));
        lemma_join_no_char(front, sep, c);
        assert forall|i: int| 0 <= i < spec_join(fields, sep).len() implies spec_join(
            fields,
            sep,
        )[i] != c by {
            let j = spec_join(front, sep);
            if i < j.len() {
                assert(spec_join(fields, sep)[i] == j[i]);
            } else if i == j.len() {
                assert(spec_join(fields, sep)[i] == sep);
            } else {
                assert(spec_join(fields, sep)[i] == fields.last()[i - j.len() - 1]);
            }
        }
    }
}

/// Splits a text at every occurrence of `sep`, in order.
pub fn split_text(s: &str, sep: char) -> (r: Vec<String>)
    ensures
        r@.len() == spec_split(s@, sep).len(),
        forall|i: int| 0 <= i < r@.len() ==> (#[trigger] r@[i])@ == spec_split(s@, sep)[i],
{
    let n = s.unicode_len();
    let mut out: Vec<String> = Vec::new();
    let mut cur = String::new();
    let mut i: usize = 0;
    while i < n
        invariant
            n == s@.len(),
            i <= n,
            out@.len() + 1 == spec_split(s@.take(i as int), sep).len(),
            forall|j: int|
                0 <= j < out@.len() ==> (#[trigger] out@[j])@ == spec_split(
                    s@.take(i as int),
                    sep,
                )[j],
            cur@ == spec_split(s@.take(i as int), sep).last(),
        decreases n - i,
    {
        proof {
            lemma_split_len(s@.take(i as int), sep);
            assert(s@.take(i + 1).drop_last() =~= s@.take(i as int));
            assert(s@.take(i + 1).last() == s@[i as int]);
        }
        let c = s.get_char(i);
        if c == sep {
            out.push(cur);
            cur = String::new();
        } else {
            cur.push(c);
        }
        i = i + 1;
    }
    proof {
        assert(s@.take(n as int) =~= s@);
    }
    out.push(cur);
    out
}

/// The text one cell renders to: decimal for the integer-backed dtypes,
/// `true`/`false` for booleans, the string itself for text, the empty field
/// for a null.  Binary cells have no text form.
pub open spec fn spec_cell_text(v: Val) -> Seq<char> {
    match v {
        Val::Null => Seq::empty(),
        Val::Int64(x) => spec_render_int(x),
        Val::Boolean(b) => if b {
            "true"@
        } else {
            "false"@
        },
        Val::Utf8(t) => t,
        Val::Binary(_) => Seq::empty(),
        Val::Date(x) => spec_render_int(x),
        Val::Datetime(x) => spec_render_int(x),
    }
}

/// The field texts of one row.
pub open spec fn spec_row_fields(cols: Seq<SeriesModel>, r: int) -> Seq<Seq<char>> {
    Seq::new(cols.len(), |c: int| spec_cell_text(cols[c].values[r]))
}

/// The column names as field texts.
pub open spec fn spec_name_fields(cols: Seq<SeriesModel>) -> Seq<Seq<char>> {
    Seq::new(cols.len(), |c: int| cols[c].name)
}

/// One data line: the row's fields joined by the delimiter.
pub open spec fn spec_csv_line(cols: Seq<SeriesModel>, r: int, d: char) -> Seq<char> {
    spec_join(spec_row_fields(cols, r), d)
}

/// The first `h` data lines, each terminated by a newline.
pub open spec fn spec_rows_text(cols: Seq<SeriesModel>, h: int, d: char) -> Seq<char>
    decreases h,
{
    if h <= 0 {
        Seq::empty()
    } else {
        spec_rows_text(cols, h - 1, d) + spec_csv_line(cols, h - 1, d) + seq!['\n']
    }
}

/// The whole rendered text: an optional header line, then one line per row.
pub open spec fn spec_csv_text(cols: Seq<SeriesModel>, d: char, has_headers: bool) -> Seq<
    char,
> {
    (if has_headers {
        spec_join(spec_name_fields(cols), d) + seq!['\n']
    } else {
        Seq::empty()
    }) + spec_rows_text(cols, spec_height(cols), d)
}

/// Renders one cell's text.
fn cell_text(v: &TypedValue) -> (r: String)
    requires
        !(v@ is Binary),
    ensures
        r@ == spec_cell_text(v@),
{
    match v {
        TypedValue::Int64(x) => render_i64(*x),
        TypedValue::Boolean(b) => {
            if *b {
                String::from_str("true")
            } else {
                String::from_str("false")
            }
        },
        TypedValue::Utf8(t) => t.clone(),
        TypedValue::Date(x) => render_i64(*x as i64),
        TypedValue::Datetime(x) => render_i64(*x),
        TypedValue::Null => String::new(),
        TypedValue::Binary(_) => {
            proof {
                assert(false);
            }
            String::new()
        },
    }
}

/// Joins field texts with a separator.
fn join_fields(fields: &Vec<String>, sep: char) -> (r: String)
    ensures
        r@ == spec_join(Seq::new(fields@.len(), |i: int| fields@[i]@), sep),
{
    let ghost fv = Seq::new(fields@.len(), |i: int| fields@[i]@);
    let mut out = String::new();
    let mut i: usize = 0;
    while i < fields.len()
        invariant
            fv == Seq::new(fields@.len(), |j: int| fields@[j]@),
            i <= fields@.len(),
            out@ == spec_join(fv.take(i as int), sep),
        decreases fields@.len() - i,
    {
        proof {
            assert(fv.take(i + 1).drop_last() =~= fv.take(i as int));
            assert(fv.take(i + 1).last() == fv[i as int]);
            assert(fv[i as int] == fields@[i as int]@);
        }
        if i > 0 {
            out.push(sep);
        }
        out.append(fields[i].as_str());
        proof {
            if i == 0 {
                assert(fv.take(1).len() == 1);
                assert(spec_join(fv.take(1), sep) == fv.take(1)[0]);
                assert(fv.take(1)[0] == fv[0]);
            }
        }
        i = i + 1;
    }
    proof {
        assert(fv.take(fv.len() as int) =~= fv);
    }
    out
}

impl DataFrame {
    /// Renders the frame as delimiter-separated text, one newline-terminated
    /// line per row, after an optional header line.  Fails with `IOFailure`
    /// exactly when a column is Binary, which has no text form.
    pub fn to_csv(&self, delimiter: char, has_headers: bool) -> (r: Result<String, EngineError>)
        requires
            self.wf(),
        ensures
            r is Ok <==> (forall|c: int|
                0 <= c < self@.len() ==> (#[trigger] self@[c].dtype) != Dtype::Binary),
            r matches Err(e) ==> e is IOFailure,
            r matches Ok(t) ==> t@ == spec_csv_text(self@, delimiter, has_headers),
    {
        let mut c: usize = 0;
        while c < self.columns.len()
            invariant
                self.wf(),
                c <= self@.len(),
                forall|x: int| 0 <= x < c ==> (#[trigger] self@[x].dtype) != Dtype::Binary,
            decreases self@.len() - c,
        {
            if self.columns[c].dtype() == Dtype::Binary {
                proof {
                    assert(self@[c as int].dtype == Dtype::Binary);
                }
                return Err(
                    EngineError::IOFailure(
                        String::from_str("a binary column has no text form"),
                    ),
                );
            }
            c = c + 1;
        }
        let mut out = String::new();
        if has_headers {
            let names = self.names();
            let line = join_fields(&names, delimiter);
            proof {
                assert(Seq::new(names@.len(), |i: int| names@[i]@) =~= spec_name_fields(
                    self@,
                ));
            }
            out.append(line.as_str());
            out.push('\n');
        }
        let h = self.height();
        let mut r: usize = 0;
        while r < h
            invariant
                self.wf(),
                forall|x: int| 0 <= x < self@.len() ==> (#[trigger] self@[x].dtype)
                    != Dtype::Binary,
                h == spec_height(self@),
                r <= h,
                out@ == (if has_headers {
                    spec_join(spec_name_fields(self@), delimiter) + seq!['\n']
                } else {
                    Seq::<char>::empty()
                }) + spec_rows_text(self@, r as int, delimiter),
            decreases h - r,
        {
            let mut fields: Vec<String> = Vec::new();
            let mut c: usize = 0;
            while c < self.columns.len()
                invariant
                    self.wf(),
                    forall|x: int| 0 <= x < self@.len() ==> (#[trigger] self@[x].dtype)
                        != Dtype::Binary,
                    h == spec_height(self@),
                    r < h,
                    c <= self@.len(),
                    fields@.len() == c,
                    forall|x: int|
                        0 <= x < c ==> (#[trigger] fields@[x])@ == spec_cell_text(
                            self@[x].values[r as int],
                        ),
                decreases self@.len() - c,
            {
                proof {
                    assert(self@[c as int].values[r as int] == self.columns@[c as int]@.values[
                        r as int]);
                    assert(self@[c as int].values[r as int] == self.columns@[c as int].values@[
                        r as int]@);
                    assert(crate::value::val_matches(
                        self@[c as int].values[r as int],
                        self@[c as int].dtype,
                    ));
                }
                let t = cell_text(&self.columns[c].values[r]);
                fields.push(t);
                c = c + 1;
            }
            let line = join_fields(&fields, delimiter);
            proof {
                assert(Seq::new(fields@.len(), |i: int| fields@[i]@) =~= spec_row_fields(
                    self@,
                    r as int,
                ));
            }
            out.append(line.as_str());
            out.push('\n');
            proof {
                assert(out@ =~= (if has_headers {
                    spec_join(spec_name_fields(self@), delimiter) + seq!['\n']
                } else {
                    Seq::<char>::empty()
                }) + spec_rows_text(self@, r + 1, delimiter));
            }
            r = r + 1;
        }
        Ok(out)
    }
}

/// The lines of a newline-terminated text: all split fields but the trailing
/// empty one.
pub open spec fn spec_csv_lines(text: Seq<char>) -> Seq<Seq<char>> {
    spec_split(text, '\n').drop_last()
}

/// The header fields: the first line split by the delimiter.
pub open spec fn spec_csv_header(text: Seq<char>, d: char) -> Seq<Seq<char>> {
    spec_split(spec_csv_lines(text)[0], d)
}

/// The column name the parsed frame gives column `c`.
pub open spec fn spec_csv_name(text: Seq<char>, d: char, has_headers: bool, c: int) -> Seq<
    char,
> {
    if has_headers {
        spec_csv_header(text, d)[c]
    } else {
        "column_"@ + crate::numtext::spec_digits(c + 1)
    }
}

/// Whether a text parses as a frame: non-empty, newline-terminated, every
/// line with as many fields as the first, and (with headers) no two header
/// fields alike.
pub open spec fn spec_csv_wf(text: Seq<char>, d: char, has_headers: bool) -> bool {
    &&& text.len() > 0
    &&& text.last() == '\n'
    &&& forall|r: int|
        0 <= r < spec_csv_lines(text).len() ==> spec_split(
            #[trigger] spec_csv_lines(text)[r],
            d,
        ).len() == spec_csv_header(text, d).len()
    &&& has_headers ==> forall|a: int, b: int|
        0 <= a < b < spec_csv_header(text, d).len() ==> (#[trigger] spec_csv_header(text, d)[a])
            != (#[trigger] spec_csv_header(text, d)[b])
}

/// The frame a well-formed text parses to: all columns Utf8, every cell the
/// field's text.
pub open spec fn spec_csv_frame(text: Seq<char>, d: char, has_headers: bool) -> Seq<
    SeriesModel,
> {
    let lines = spec_csv_lines(text);
    let data = if has_headers {
        lines.skip(1)
    } else {
        lines
    };
    Seq::new(
        spec_csv_header(text, d).len(),
        |c: int|
            SeriesModel {
                name: spec_csv_name(text, d, has_headers, c),
                dtype: Dtype::Utf8,
                values: Seq::new(data.len(), |r: int| Val::Utf8(spec_split(data[r], d)[c])),
            },
    )
}

/// Two synthesized column names never coincide.
proof fn lemma_synth_names_distinct(a: int, b: int)
    requires
        0 <= a < b,
    ensures
        "column_"@ + crate::numtext::spec_digits(a + 1) != "column_"@
            + crate::numtext::spec_digits(b + 1),
{
    crate::numtext::lemma_digits_of_value(a + 1);
    crate::numtext::lemma_digits_of_value(b + 1);
    let p = "column_"@;
    let x = crate::numtext::spec_digits(a + 1);
    let y = crate::numtext::spec_digits(b + 1);
    if p + x == p + y {
        assert(x =~= (p + x).skip(p.len() as int));
        assert(y =~= (p + y).skip(p.len() as int));
        assert(crate::numtext::digits_value(x) == crate::numtext::digits_value(y));
        assert(false);
    }
}

/// Parses delimiter-separated text as a frame of text columns.  Succeeds
/// exactly on well-formed text (`spec_csv_wf`); every failure is an
/// `IOFailure`.
pub fn read_csv(text: &str, delimiter: char, has_headers: bool) -> (r: Result<
    DataFrame,
    EngineError,
>)
    ensures
        r is Ok <==> spec_csv_wf(text@, delimiter, has_headers),
        r matches Err(e) ==> e is IOFailure,
        r matches Ok(d) ==> {
            &&& d.wf()
            &&& d@ == spec_csv_frame(text@, delimiter, has_headers)
        },
{
    let n = text.unicode_len();
    if n == 0 {
        return Err(EngineError::IOFailure(String::from_str("the text is empty")));
    }
    if text.get_char(n - 1) != '\n' {
        return Err(
            EngineError::IOFailure(String::from_str("the text must end with a newline")),
        );
    }
    let mut lines = split_text(text, '\n');
    proof {
        lemma_split_len(text@.drop_last(), '\n');
        assert(spec_split(text@, '\n') == spec_split(text@.drop_last(), '\n').push(
            Seq::<char>::empty(),
        ));
        assert(lines@.len() >= 2);
    }
    let _trailing = lines.pop();
    proof {
        assert(lines@.len() == spec_csv_lines(text@).len());
        assert(forall|j: int|
            0 <= j < lines@.len() ==> (#[trigger] lines@[j])@ == spec_csv_lines(text@)[j]);
        assert(lines@.len() >= 1);
    }
    let header_fields = split_text(lines[0].as_str(), delimiter);
    let w = header_fields.len();
    proof {
        assert(header_fields@.len() == spec_csv_header(text@, delimiter).len());
        assert(forall|j: int|
            0 <= j < w ==> (#[trigger] header_fields@[j])@ == spec_csv_header(
                text@,
                delimiter,
            )[j]);
    }
    // Every line must carry as many fields as the first.
    let mut rows_fields: Vec<Vec<String>> = Vec::new();
    let mut r: usize = 0;
    while r < lines.len()
        invariant
            lines@.len() == spec_csv_lines(text@).len(),
            forall|j: int|
                0 <= j < lines@.len() ==> (#[trigger] lines@[j])@ == spec_csv_lines(text@)[j],
            w == spec_csv_header(text@, delimiter).len(),
            r <= lines@.len(),
            rows_fields@.len() == r,
            forall|j: int|
                0 <= j < r ==> (#[trigger] rows_fields@[j])@.len() == w,
            forall|j: int|
                0 <= j < r ==> spec_split(#[trigger] spec_csv_lines(text@)[j], delimiter).len()
                    == w,
            forall|j: int, c: int|
                #![trigger rows_fields@[j]@[c]]
                0 <= j < r && 0 <= c < w ==> (rows_fields@[j]@[c])@ == spec_split(
                    spec_csv_lines(text@)[j],
                    delimiter,
                )[c],
        decreases lines@.len() - r,
    {
        let f = split_text(lines[r].as_str(), delimiter);
        if f.len() != w {
            proof {
                assert(spec_split(spec_csv_lines(text@)[r as int], delimiter).len() != w);
                assert(!spec_csv_wf(text@, delimiter, has_headers));
            }
            return Err(
                EngineError::IOFailure(
                    String::from_str("the lines carry unequal field counts"),
                ),
            );
        }
        rows_fields.push(f);
        r = r + 1;
    }
    // With headers, the header fields must be pairwise distinct.
    if has_headers {
        let mut a: usize = 0;
        while a < w
            invariant
                has_headers,
                w == header_fields@.len(),
                w == spec_csv_header(text@, delimiter).len(),
                forall|j: int|
                    0 <= j < w ==> (#[trigger] header_fields@[j])@ == spec_csv_header(
                        text@,
                        delimiter,
                    )[j],
                a <= w,
                forall|x: int, y: int|
                    0 <= x < y < a ==> (#[trigger] header_fields@[x])@ != (
                    #[trigger] header_fields@[y])@,
            decreases w - a,
        {
            let mut b: usize = 0;
            while b < a
                invariant
                    has_headers,
                    w == header_fields@.len(),
                    w == spec_csv_header(text@, delimiter).len(),
                    forall|j: int|
                        0 <= j < w ==> (#[trigger] header_fields@[j])@ == spec_csv_header(
                            text@,
                            delimiter,
                        )[j],
                    a < w,
                    b <= a,
                    forall|x: int|
                        0 <= x < b ==> (#[trigger] header_fields@[x])@ != header_fields@[
                        a as int]@,
                decreases a - b,
            {
                if str_eq(header_fields[b].as_str(), header_fields[a].as_str()) {
                    proof {
                        assert(spec_csv_header(text@, delimiter)[b as int] == spec_csv_header(
                            text@,
                            delimiter,
                        )[a as int]);
                        assert(!spec_csv_wf(text@, delimiter, has_headers));
                    }
                    return Err(
                        EngineError::IOFailure(
                            String::from_str("two header fields coincide"),
                        ),
                    );
                }
                b = b + 1;
            }
            a = a + 1;
        }
    }
    let data_start: usize = if has_headers {
        1
    } else {
        0
    };
    let ghost fm = spec_csv_frame(text@, delimiter, has_headers);
    let nrows = lines.len() - data_start;
    let mut cols: Vec<Series> = Vec::new();
    let mut c: usize = 0;
    while c < w
        invariant
            lines@.len() == spec_csv_lines(text@).len(),
            lines@.len() >= 1,
            w == spec_csv_header(text@, delimiter).len(),
            w == header_fields@.len(),
            forall|j: int|
                0 <= j < w ==> (#[trigger] header_fields@[j])@ == spec_csv_header(
                    text@,
                    delimiter,
                )[j],
            rows_fields@.len() == lines@.len(),
            forall|j: int| 0 <= j < lines@.len() ==> (#[trigger] rows_fields@[j])@.len() == w,
            forall|j: int|
                0 <= j < lines@.len() ==> spec_split(
                    #[trigger] spec_csv_lines(text@)[j],
                    delimiter,
                ).len() == w,
            has_headers ==> forall|x2: int, y2: int|
                0 <= x2 < y2 < w ==> (#[trigger] header_fields@[x2])@ != (
                #[trigger] header_fields@[y2])@,
            forall|j: int, x: int|
                #![trigger rows_fields@[j]@[x]]
                0 <= j < lines@.len() && 0 <= x < w ==> (rows_fields@[j]@[x])@
                    == spec_split(spec_csv_lines(text@)[j], delimiter)[x],
            has_headers ==> forall|x: int, y: int|
                0 <= x < y < w ==> (#[trigger] header_fields@[x])@ != (
                #[trigger] header_fields@[y])@,
            data_start == (if has_headers {
                1int
            } else {
                0int
            }),
            data_start <= lines@.len(),
            nrows == lines@.len() - data_start,
            fm == spec_csv_frame(text@, delimiter, has_headers),
            fm.len() == w,
            c <= w,
            cols@.len() == c,
            forall|x: int| 0 <= x < c ==> #[trigger] cols@[x]@ == fm[x],
            forall|x: int| 0 <= x < c ==> series_wf(#[trigger] cols@[x]@),
        decreases w - c,
    {
        let name: String = if has_headers {
            header_fields[c].clone()
        } else {
            let mut m = String::from_str("column_");
            m.append(render_digits((c + 1) as u64).as_str());
            m
        };
        let mut cells: Vec<TypedValue> = Vec::new();
        let mut r: usize = 0;
        while r < nrows
            invariant
                lines@.len() == spec_csv_lines(text@).len(),
                w == spec_csv_header(text@, delimiter).len(),
                rows_fields@.len() == lines@.len(),
                forall|j: int|
                    0 <= j < lines@.len() ==> (#[trigger] rows_fields@[j])@.len() == w,
                forall|j: int, x: int|
                    #![trigger rows_fields@[j]@[x]]
                    0 <= j < lines@.len() && 0 <= x < w ==> (rows_fields@[j]@[x])@
                        == spec_split(spec_csv_lines(text@)[j], delimiter)[x],
                data_start == (if has_headers {
                    1int
                } else {
                    0int
                }),
                data_start <= lines@.len(),
                nrows == lines@.len() - data_start,
                c < w,
                r <= nrows,
                cells@.len() == r,
                forall|j: int|
                    0 <= j < r ==> (#[trigger] cells@[j])@ == Val::Utf8(
                        spec_split(
                            spec_csv_lines(text@)[data_start + j],
                            delimiter,
                        )[c as int],
                    ),
            decreases nrows - r,
        {
            let field = rows_fields[data_start + r][c].clone();
            cells.push(TypedValue::Utf8(field));
            r = r + 1;
        }
        let s = Series { name, dtype: Dtype::Utf8, values: cells };
        proof {
            let lines_m = spec_csv_lines(text@);
            let data = if has_headers {
                lines_m.skip(1)
            } else {
                lines_m
            };
            assert(data.len() == nrows);
            assert(forall|j: int| 0 <= j < nrows ==> #[trigger] data[j] == lines_m[data_start
                + j]);
            assert(s@.values =~= fm[c as int].values);
            assert(s@.name == fm[c as int].name);
            assert(s@ == fm[c as int]);
            assert(series_wf(s@));
        }
        cols.push(s);
        c = c + 1;
    }
    let d = DataFrame { columns: cols };
    proof {
        assert(d@ =~= fm);
        if has_headers {
            assert forall|a2: int, b2: int|
                0 <= a2 < b2 < spec_csv_header(text@, delimiter).len() implies (
            #[trigger] spec_csv_header(text@, delimiter)[a2]) != (#[trigger] spec_csv_header(
                text@,
                delimiter,
            )[b2]) by {
                assert(header_fields@[a2]@ == spec_csv_header(text@, delimiter)[a2]);
                assert(header_fields@[b2]@ == spec_csv_header(text@, delimiter)[b2]);
            }
        }
        assert(spec_csv_wf(text@, delimiter, has_headers));
        assert forall|x: int, y: int| 0 <= x < y < d@.len() implies (#[trigger] d@[x].name) != (
        #[trigger] d@[y].name) by {
            if has_headers {
                assert(d@[x].name == header_fields@[x]@);
                assert(d@[y].name == header_fields@[y]@);
            } else {
                lemma_synth_names_distinct(x, y);
            }
        }
        assert forall|x: int| 0 <= x < d@.len() implies (#[trigger] d@[x]).values.len()
            == spec_height(d@) by {}
    }
    Ok(d)
}

/// Parsing rendered text gives the frame's textual image back: the same
/// names and, cell for cell, the text of the original cell as a Utf8 value
/// (the documented narrowing: dtypes become text and a null becomes the
/// empty field).
pub proof fn lemma_csv_round_trip(cols: Seq<SeriesModel>, d: char)
    requires
        frame_wf(cols),
        cols.len() >= 1,
        d != '\n',
        forall|c: int|
            0 <= c < cols.len() ==> no_char((#[trigger] cols[c]).name, d) && no_char(
                cols[c].name,
                '\n',
            ),
        forall|c: int, r: int|
            0 <= c < cols.len() && 0 <= r < spec_height(cols) ==> no_char(
                spec_cell_text(#[trigger] cols[c].values[r]),
                d,
            ) && no_char(spec_cell_text(cols[c].values[r]), '\n'),
    ensures
        spec_csv_wf(spec_csv_text(cols, d, true), d, true),
        spec_csv_frame(spec_csv_text(cols, d, true), d, true) =~~= Seq::new(
            cols.len(),
            |c: int|
                SeriesModel {
                    name: cols[c].name,
                    dtype: Dtype::Utf8,
                    values: Seq::new(
                        spec_height(cols) as nat,
                        |r: int| Val::Utf8(spec_cell_text(cols[c].values[r])),
                    ),
                },
        ),
{
    let h = spec_height(cols);
    let text = spec_csv_text(cols, d, true);
    let all_lines = seq![spec_join(spec_name_fields(cols), d)] + Seq::new(
        h as nat,
        |r: int| spec_csv_line(cols, r, d),
    );
    lemma_csv_text_is_lines(cols, h, d);
    assert(text =~= spec_join_lines(all_lines));
    // No line holds a newline.
    assert forall|i: int| 0 <= i < all_lines.len() implies no_char(
        #[trigger] all_lines[i],
        '\n',
    ) by {
        if i == 0 {
            assert(forall|c: int|
                0 <= c < cols.len() ==> no_char(#[trigger] spec_name_fields(cols)[c], '\n'));
            lemma_join_no_char(spec_name_fields(cols), d, '\n');
        } else {
            let r = i - 1;
            assert(forall|c: int|
                0 <= c < cols.len() ==> no_char(#[trigger] spec_row_fields(cols, r)[c], '\n'));
            lemma_join_no_char(spec_row_fields(cols, r), d, '\n');
            assert(all_lines[i] == spec_csv_line(cols, r, d));
        }
    }
    lemma_join_lines_split(all_lines);
    assert(spec_csv_lines(text) =~~= all_lines);
    assert(text.len() > 0 && text.last() == '\n') by {
        lemma_join_lines_shape(all_lines);
    }
    // Each line splits back into its fields.
    assert forall|i: int| 0 <= i < all_lines.len() implies spec_split(
        #[trigger] spec_csv_lines(text)[i],
        d,
    ) =~~= (if i == 0 {
        spec_name_fields(cols)
    } else {
        spec_row_fields(cols, i - 1)
    }) by {
        if i == 0 {
            assert(forall|c: int|
                0 <= c < cols.len() ==> no_char(#[trigger] spec_name_fields(cols)[c], d));
            lemma_split_join(spec_name_fields(cols), d);
            assert(spec_csv_lines(text)[0] == spec_join(spec_name_fields(cols), d));
        } else {
            let r = i - 1;
            assert(forall|c: int|
                0 <= c < cols.len() ==> no_char(#[trigger] spec_row_fields(cols, r)[c], d));
            lemma_split_join(spec_row_fields(cols, r), d);
            assert(spec_csv_lines(text)[i] == spec_join(spec_row_fields(cols, r), d));
        }
    }
    assert(spec_csv_header(text, d) =~~= spec_name_fields(cols));
    assert(spec_csv_header(text, d).len() == cols.len());
    assert(spec_csv_wf(text, d, true)) by {
        assert forall|r: int| 0 <= r < spec_csv_lines(text).len() implies spec_split(
            #[trigger] spec_csv_lines(text)[r],
            d,
        ).len() == spec_csv_header(text, d).len() by {}
        assert forall|a: int, b: int|
            0 <= a < b < spec_csv_header(text, d).len() implies (#[trigger] spec_csv_header(
            text,
            d,
        )[a]) != (#[trigger] spec_csv_header(text, d)[b]) by {
            assert(spec_csv_header(text, d)[a] == cols[a].name);
            assert(spec_csv_header(text, d)[b] == cols[b].name);
        }
    }
    let parsed = spec_csv_frame(text, d, true);
    assert forall|c: int| 0 <= c < cols.len() implies #[trigger] parsed[c] == (SeriesModel {
        name: cols[c].name,
        dtype: Dtype::Utf8,
        values: Seq::new(h as nat, |r: int| Val::Utf8(spec_cell_text(cols[c].values[r]))),
    }) by {
        let data = spec_csv_lines(text).skip(1);
        assert(data.len() == h);
        assert(parsed[c].name == spec_csv_header(text, d)[c]);
        assert(parsed[c].name == cols[c].name);
        assert forall|r: int| 0 <= r < h implies #[trigger] parsed[c].values[r] == Val::Utf8(
            spec_cell_text(cols[c].values[r]),
        ) by {
            assert(data[r] == spec_csv_lines(text)[r + 1]);
            assert(spec_split(data[r], d) =~~= spec_row_fields(cols, r));
            assert(spec_row_fields(cols, r)[c] == spec_cell_text(cols[c].values[r]));
        }
        assert(parsed[c].values =~= Seq::new(
            h as nat,
            |r: int| Val::Utf8(spec_cell_text(cols[c].values[r])),
        ));
    }
}

/// The lines joined by newlines, each line terminated.
pub open spec fn spec_join_lines(lines: Seq<Seq<char>>) -> Seq<char>
    decreases lines.len(),
{
    if lines.len() == 0 {
        Seq::empty()
    } else {
        spec_join_lines(lines.drop_last()) + lines.last() + seq!['\n']
    }
}

/// The rendered text is exactly its lines, each terminated by a newline.
proof fn lemma_csv_text_is_lines(cols: Seq<SeriesModel>, h: int, d: char)
    requires
        0 <= h,
    ensures
        (spec_join(spec_name_fields(cols), d) + seq!['\n']) + spec_rows_text(cols, h, d)
            =~= spec_join_lines(
            seq![spec_join(spec_name_fields(cols), d)] + Seq::new(
                h as nat,
                |r: int| spec_csv_line(cols, r, d),
            ),
        ),
    decreases h,
{
    let header = spec_join(spec_name_fields(cols), d);
    if h == 0 {
        assert(Seq::new(0, |r: int| spec_csv_line(cols, r, d)) =~= Seq::<Seq<char>>::empty());
        assert(seq![header] + Seq::<Seq<char>>::empty() =~= seq![header]);
        assert(seq![header].drop_last() =~= Seq::<Seq<char>>::empty());
        assert(seq![header].last() == header);
        assert(spec_join_lines(seq![header].drop_last()) == Seq::<char>::empty());
        assert(spec_join_lines(seq![header]) =~= (header + seq!['\n']));
        assert((header + seq!['\n']) + spec_rows_text(cols, 0, d) =~= header + seq!['\n']);
    } else {
        lemma_csv_text_is_lines(cols, h - 1, d);
        let prev = seq![header] + Seq::new((h - 1) as nat, |r: int| spec_csv_line(cols, r, d));
        let full = seq![header] + Seq::new(h as nat, |r: int| spec_csv_line(cols, r, d));
        assert(full.drop_last() =~= prev);
        assert(full.last() == spec_csv_line(cols, h - 1, d));
        assert(spec_join_lines(full) =~= spec_join_lines(prev) + spec_csv_line(cols, h - 1, d)
            + seq!['\n']);
        assert((header + seq!['\n']) + spec_rows_text(cols, h, d) =~= ((header + seq!['\n'])
            + spec_rows_text(cols, h - 1, d)) + spec_csv_line(cols, h - 1, d) + seq!['\n']);
    }
}

/// A joined line text is non-empty and newline-terminated.
proof fn lemma_join_lines_shape(lines: Seq<Seq<char>>)
    requires
        lines.len() >= 1,
    ensures
        spec_join_lines(lines).len() > 0,
        spec_join_lines(lines).last() == '\n',
{
}

/// Splitting a joined line text by newlines gives the lines back, plus the
/// trailing empty field.
proof fn lemma_join_lines_split(lines: Seq<Seq<char>>)
    requires
        forall|i: int| 0 <= i < lines.len() ==> no_char(#[trigger] lines[i], '\n'),
    ensures
        spec_split(spec_join_lines(lines), '\n').drop_last() =~~= lines,
    decreases lines.len(),
{
    if lines.len() == 0 {
        assert(spec_join_lines(lines) =~= Seq::<char>::empty());
        assert(spec_split(Seq::<char>::empty(), '\n') =~~= seq![Seq::<char>::empty()]);
    } else {
        let front = lines.drop_last();
        assert(forall|i: int| 0 <= i < front.len() ==> no_char(#[trigger] front[i], '\n'));
        lemma_join_lines_split(front);
        let jf = spec_join_lines(front);
        let whole = jf + lines.last() + seq!['\n'];
        assert(spec_join_lines(lines) =~= whole);
        lemma_split_append(jf, lines.last(), '\n');
        let p = spec_split(jf, '\n');
        lemma_split_len(jf, '\n');
        let q = spec_split(jf + lines.last(), '\n');
        assert(q =~~= p.update(p.len() - 1, p.last() + lines.last()));
        lemma_split_sep(jf + lines.last(), '\n');
        assert((jf + lines.last()) + seq!['\n'] =~= whole);
        assert(spec_split(whole, '\n') =~~= q.push(Seq::<char>::empty()));
        // p = front plus a trailing empty field; extending that empty field
        // appends the last line.
        assert(p.drop_last() =~~= front);
        assert(p.last() =~= Seq::<char>::empty()) by {
            lemma_split_last_empty(jf, front);
        }
        assert(p.last() + lines.last() =~= lines.last());
        assert(q.push(Seq::<char>::empty()).drop_last() =~~= q);
        assert(q =~~= lines) by {
            assert(q.len() == p.len());
            assert(p.len() == front.len() + 1);
            assert forall|i: int| 0 <= i < q.len() implies q[i] =~= lines[i] by {
                if i < p.len() - 1 {
                    assert(q[i] == p[i]);
                    assert(p[i] == p.drop_last()[i]);
                } else {
                    assert(q[i] =~= p.last() + lines.last());
                }
            }
        }
    }
}

/// A joined line text ends in a newline or is empty, so its final split
/// field is empty.
proof fn lemma_split_last_empty(jf: Seq<char>, front: Seq<Seq<char>>)
    requires
        jf == spec_join_lines(front),
    ensures
        spec_split(jf, '\n').last() =~= Seq::<char>::empty(),
{
    if front.len() == 0 {
        assert(jf =~= Seq::<char>::empty());
    } else {
        assert(jf =~= (spec_join_lines(front.drop_last()) + front.last()) + seq!['\n']);
        lemma_split_sep(spec_join_lines(front.drop_last()) + front.last(), '\n');
    }
}


/// The textual form of a series: its name, then one line per cell.
pub open spec fn spec_series_text(m: SeriesModel) -> Seq<char> {
    m.name + seq!['\n'] + spec_cells_text(m.values, m.values.len() as int)
}

/// The first `h` cells, each rendered and terminated by a newline.
pub open spec fn spec_cells_text(values: Seq<Val>, h: int) -> Seq<char>
    decreases h,
{
    if h <= 0 {
        Seq::empty()
    } else {
        spec_cells_text(values, h - 1) + spec_cell_text(values[h - 1]) + seq!['\n']
    }
}

impl Series {
    /// Renders the series as text: the name, then one line per cell.  Fails
    /// with `IOFailure` exactly on a Binary series, which has no text form.
    pub fn as_str(&self) -> (r: Result<String, EngineError>)
        requires
            self.wf(),
        ensures
            r is Ok <==> self@.dtype != Dtype::Binary,
            r matches Err(e) ==> e is IOFailure,
            r matches Ok(t) ==> t@ == spec_series_text(self@),
    {
        if self.dtype == Dtype::Binary {
            return Err(
                EngineError::IOFailure(String::from_str("a binary series has no text form")),
            );
        }
        let mut out = self.name.clone();
        out.push('\n');
        let mut i: usize = 0;
        while i < self.values.len()
            invariant
                self.wf(),
                self@.dtype != Dtype::Binary,
                i <= self@.values.len(),
                out@ == self@.name + seq!['\n'] + spec_cells_text(self@.values, i as int),
            decreases self@.values.len() - i,
        {
            proof {
                assert(self@.values[i as int] == self.values@[i as int]@);
                assert(val_matches(self@.values[i as int], self@.dtype));
            }
            let t = cell_text(&self.values[i]);
            out.append(t.as_str());
            out.push('\n');
            proof {
                assert(out@ =~= self@.name + seq!['\n'] + spec_cells_text(
                    self@.values,
                    i + 1,
                ));
            }
            i = i + 1;
        }
        Ok(out)
    }
}

} // verus!
