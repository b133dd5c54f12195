//! Conversion between dynamic host values and typed native values.
//!
//! The host side is dynamically typed: a value arrives as one of a few plain
//! shapes, or as something the bridge does not accept.  `to_native` resolves
//! each accepted shape to exactly one `TypedValue` tag — rejecting, never
//! coercing, an ambiguous value — and `to_host` maps a typed value back.
//! Dates cross the boundary as epoch days, datetimes as epoch milliseconds.

use vstd::prelude::*;

use crate::error::EngineError;
use crate::value::{val_matches, Dtype, TypedValue, Val};

verus! {

/// A dynamic value as the host hands it over.
#[derive(Debug)]
pub enum HostValue {
    /// A host integer.
    Int(i64),
    /// A host boolean.
    Bool(bool),
    /// A host string.
    Text(String),
    /// A host binary.
    Bytes(Vec<u8>),
    /// A calendar date, as days since the epoch.
    DateDays(i32),
    /// A calendar instant, as milliseconds since the epoch.
    DatetimeMs(i64),
    /// The host's absent marker.
    Nil,
    /// Anything else: a composite the bridge does not accept.
    Composite,
}

/// The model of a host value.
pub enum HostModel {
    Int(int),
    Bool(bool),
    Text(Seq<char>),
    Bytes(Seq<u8>),
    DateDays(int),
    DatetimeMs(int),
    Nil,
    Composite,
}

impl View for HostValue {
    type V = HostModel;

    open spec fn view(&self) -> HostModel {
        match self {
            HostValue::Int(x) => HostModel::Int(*x as int),
            HostValue::Bool(b) => HostModel::Bool(*b),
            HostValue::Text(s) => HostModel::Text(s@),
            HostValue::Bytes(b) => HostModel::Bytes(b@),
            HostValue::DateDays(d) => HostModel::DateDays(*d as int),
            HostValue::DatetimeMs(t) => HostModel::DatetimeMs(*t as int),
            HostValue::Nil => HostModel::Nil,
            HostValue::Composite => HostModel::Composite,
        }
    }
}

/// The typed value a host value resolves to, when it resolves at all.
pub open spec fn spec_to_native(h: HostModel) -> Option<Val> {
    match h {
        HostModel::Int(x) => Some(Val::Int64(x)),
        HostModel::Bool(b) => Some(Val::Boolean(b)),
        HostModel::Text(s) => Some(Val::Utf8(s)),
        HostModel::Bytes(b) => Some(Val::Binary(b)),
        HostModel::DateDays(d) => Some(Val::Date(d)),
        HostModel::DatetimeMs(t) => Some(Val::Datetime(t)),
        HostModel::Nil => Some(Val::Null),
        HostModel::Composite => None,
    }
}

/// The host value a typed value maps back to.
pub open spec fn spec_to_host(v: Val) -> HostModel {
    match v {
        Val::Int64(x) => HostModel::Int(x),
        Val::Boolean(b) => HostModel::Bool(b),
        Val::Utf8(s) => HostModel::Text(s),
        Val::Binary(b) => HostModel::Bytes(b),
        Val::Date(d) => HostModel::DateDays(d),
        Val::Datetime(t) => HostModel::DatetimeMs(t),
        Val::Null => HostModel::Nil,
    }
}

/// Resolves a host value to a typed value, optionally against an expected
/// dtype.  Fails with `Conversion` exactly when the value is a composite the
/// bridge does not accept, or resolves to a tag that contradicts the hint
/// (null unifies with every hint).
pub fn to_native(h: &HostValue, hint: Option<Dtype>) -> (r: Result<TypedValue, EngineError>)
    ensures
        r is Ok <==> (spec_to_native(h@) matches Some(v) && (hint matches Some(dt) ==> val_matches(
            v,
            dt,
        ))),
        r matches Err(e) ==> e is Conversion,
        r matches Ok(tv) ==> Some(tv@) == spec_to_native(h@),
{
    let tv = match h {
        HostValue::Int(x) => TypedValue::Int64(*x),
        HostValue::Bool(b) => TypedValue::Boolean(*b),
        HostValue::Text(s) => TypedValue::Utf8(s.clone()),
        HostValue::Bytes(b) => TypedValue::Binary(crate::value::copy_bytes(b)),
        HostValue::DateDays(d) => TypedValue::Date(*d),
        HostValue::DatetimeMs(t) => TypedValue::Datetime(*t),
        HostValue::Nil => TypedValue::Null,
        HostValue::Composite => {
            return Err(
                EngineError::Conversion(
                    String::from_str("host value does not resolve to one typed tag"),
                ),
            );
        },
    };
    match hint {
        Some(dt) => {
            if tv.matches_dtype(dt) {
                Ok(tv)
            } else {
                Err(
                    EngineError::Conversion(
                        String::from_str("host value contradicts the expected dtype"),
                    ),
                )
            }
        },
        None => Ok(tv),
    }
}

/// Maps a typed value back to the host's shape.
pub fn to_host(v: &TypedValue) -> (r: HostValue)
    ensures
        r@ == spec_to_host(v@),
{
    match v {
        TypedValue::Int64(x) => HostValue::Int(*x),
        TypedValue::Boolean(b) => HostValue::Bool(*b),
        TypedValue::Utf8(s) => HostValue::Text(s.clone()),
        TypedValue::Binary(b) => HostValue::Bytes(crate::value::copy_bytes(b)),
        TypedValue::Date(d) => HostValue::DateDays(*d),
        TypedValue::Datetime(t) => HostValue::DatetimeMs(*t),
        TypedValue::Null => HostValue::Nil,
    }
}

/// Conversion is lossless both ways: a host value that resolves maps back to
/// itself, and a typed value always survives the round trip to the host.
pub proof fn lemma_conversion_round_trip(h: HostModel, v: Val)
    ensures
        spec_to_native(h) matches Some(w) ==> spec_to_host(w) == h,
        spec_to_native(spec_to_host(v)) == Some(v),
{
}

} // verus!
