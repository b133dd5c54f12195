//! Typed scalar values crossing the boundary, and their mathematical model.
//!
//! A `TypedValue` is the tagged union that every cell of a series holds:
//! 64-bit integers, booleans, UTF-8 strings, raw binaries, day-resolution
//! dates, millisecond-resolution datetimes, and the dtype-polymorphic null.
//! Its ghost counterpart `Val` is what contracts speak about.

use vstd::prelude::*;

verus! {

/// The static element type of a series.
#[derive(Clone, Copy, PartialEq, Eq, Structural, Debug)]
pub enum Dtype {
    Int64,
    Boolean,
    Utf8,
    Binary,
    /// Days since the epoch.
    Date,
    /// Milliseconds since the epoch.
    Datetime,
}

/// One typed scalar value, as held and moved at run time.
#[derive(Debug)]
pub enum TypedValue {
    Int64(i64),
    Boolean(bool),
    Utf8(String),
    Binary(Vec<u8>),
    /// Days since the epoch.
    Date(i32),
    /// Milliseconds since the epoch.
    Datetime(i64),
    /// The absent value; unifies with every dtype.
    Null,
}

/// The mathematical model of a `TypedValue`.
pub enum Val {
    Int64(int),
    Boolean(bool),
    Utf8(Seq<char>),
    Binary(Seq<u8>),
    Date(int),
    Datetime(int),
    Null,
}

impl View for TypedValue {
    type V = Val;

    open spec fn view(&self) -> Val {
        match self {
            TypedValue::Int64(i) => Val::Int64(*i as int),
            TypedValue::Boolean(b) => Val::Boolean(*b),
            TypedValue::Utf8(s) => Val::Utf8(s@),
            TypedValue::Binary(b) => Val::Binary(b@),
            TypedValue::Date(d) => Val::Date(*d as int),
            TypedValue::Datetime(t) => Val::Datetime(*t as int),
            TypedValue::Null => Val::Null,
        }
    }
}

/// The dtype a non-null value belongs to; `None` for null.
pub open spec fn val_dtype(v: Val) -> Option<Dtype> {
    match v {
        Val::Int64(_) => Some(Dtype::Int64),
        Val::Boolean(_) => Some(Dtype::Boolean),
        Val::Utf8(_) => Some(Dtype::Utf8),
        Val::Binary(_) => Some(Dtype::Binary),
        Val::Date(_) => Some(Dtype::Date),
        Val::Datetime(_) => Some(Dtype::Datetime),
        Val::Null => None,
    }
}

/// Whether a value may sit in a column of the given dtype: either it is null,
/// or its own tag equals the column's.
pub open spec fn val_matches(v: Val, dt: Dtype) -> bool {
    v is Null || val_dtype(v) == Some(dt)
}

impl TypedValue {
    /// Returns a structurally equal copy of the value.
    pub fn dup(&self) -> (r: TypedValue)
        ensures
            r@ == self@,
    {
        match self {
            TypedValue::Int64(i) => TypedValue::Int64(*i),
            TypedValue::Boolean(b) => TypedValue::Boolean(*b),
            TypedValue::Utf8(s) => TypedValue::Utf8(s.clone()),
            TypedValue::Binary(b) => {
                let c = copy_bytes(b);
                TypedValue::Binary(c)
            },
            TypedValue::Date(d) => TypedValue::Date(*d),
            TypedValue::Datetime(t) => TypedValue::Datetime(*t),
            TypedValue::Null => TypedValue::Null,
        }
    }

    /// Whether this value is the null marker.
    pub fn is_null(&self) -> (r: bool)
        ensures
            r == (self@ is Null),
    {
        match self {
            TypedValue::Null => true,
            _ => false,
        }
    }

    /// Whether this value may sit in a column of dtype `dt`.
    pub fn matches_dtype(&self, dt: Dtype) -> (r: bool)
        ensures
            r == val_matches(self@, dt),
    {
        match self {
            TypedValue::Int64(_) => dt == Dtype::Int64,
            TypedValue::Boolean(_) => dt == Dtype::Boolean,
            TypedValue::Utf8(_) => dt == Dtype::Utf8,
            TypedValue::Binary(_) => dt == Dtype::Binary,
            TypedValue::Date(_) => dt == Dtype::Date,
            TypedValue::Datetime(_) => dt == Dtype::Datetime,
            TypedValue::Null => true,
        }
    }
}

/// Returns a copy of a byte vector.
pub fn copy_bytes(b: &Vec<u8>) -> (r: Vec<u8>)
    ensures
        r@ == b@,
{
    let mut r: Vec<u8> = Vec::new();
    let mut i: usize = 0;
    while i < b.len()
        invariant
            i <= b.len(),
            r@ == b@.subrange(0, i as int),
        decreases b.len() - i,
    {
        r.push(b[i]);
        assert(r@ =~= b@.subrange(0, i + 1 as int));
        i = i + 1;
    }
    assert(r@ =~= b@);
    r
}

/// Structural equality of two values: same tag and same payload; null equals
/// only null.
pub fn values_equal(a: &TypedValue, b: &TypedValue) -> (r: bool)
    ensures
        r == (a@ == b@),
{
    match a {
        TypedValue::Int64(x) => match b {
            TypedValue::Int64(y) => *x == *y,
            _ => false,
        },
        TypedValue::Boolean(x) => match b {
            TypedValue::Boolean(y) => *x == *y,
            _ => false,
        },
        TypedValue::Utf8(x) => match b {
            TypedValue::Utf8(y) => *x == *y,
            _ => false,
        },
        TypedValue::Binary(x) => match b {
            TypedValue::Binary(y) => bytes_equal(x, y),
            _ => false,
        },
        TypedValue::Date(x) => match b {
            TypedValue::Date(y) => *x == *y,
            _ => false,
        },
        TypedValue::Datetime(x) => match b {
            TypedValue::Datetime(y) => *x == *y,
            _ => false,
        },
        TypedValue::Null => match b {
            TypedValue::Null => true,
            _ => false,
        },
    }
}

/// Equality of two string slices, character by character.
pub fn str_eq(a: &str, b: &str) -> (r: bool)
    ensures
        r == (a@ == b@),
{
    let an = a.unicode_len();
    let bn = b.unicode_len();
    if an != bn {
        assert(a@ != b@) by {
            assert(a@.len() != b@.len());
        }
        return false;
    }
    let mut i: usize = 0;
    while i < an
        invariant
            an == a@.len(),
            a@.len() == b@.len(),
            i <= an,
            forall|j: int| 0 <= j < i ==> a@[j] == b@[j],
        decreases an - i,
    {
        if a.get_char(i) != b.get_char(i) {
            return false;
        }
        i = i + 1;
    }
    assert(a@ =~= b@);
    true
}

/// Elementwise equality of two byte vectors.
pub fn bytes_equal(a: &Vec<u8>, b: &Vec<u8>) -> (r: bool)
    ensures
        r == (a@ == b@),
{
    if a.len() != b.len() {
        assert(a@ != b@) by {
            assert(a@.len() != b@.len());
        }
        return false;
    }
    let mut i: usize = 0;
    while i < a.len()
        invariant
            i <= a.len(),
            a@.len() == b@.len(),
            forall|j: int| 0 <= j < i ==> a@[j] == b@[j],
        decreases a.len() - i,
    {
        if a[i] != b[i] {
            return false;
        }
        i = i + 1;
    }
    assert(a@ =~= b@);
    true
}

} // verus!
