//! A JSON value, for the free-form fields of `package.json`.
use crate::strmap::StrMap;
use vstd::prelude::*;

verus! {

/// A JSON value. Numbers keep their source text; objects are ordered by key.
#[derive(Debug)]
pub enum JsonValue {
    Null,
    Bool(bool),
    Number(String),
    Str(String),
    Array(Vec<JsonValue>),
    Object(StrMap<JsonValue>),
}

} // verus!
