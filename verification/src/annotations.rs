//! Field values harvested from an instrumented call site.
//!
//! A value is a small tagged union paired with the static name of the
//! field it came from.  Floating-point values are carried as their raw
//! IEEE-754 bit pattern, which is all the wire format needs.

use vstd::prelude::*;

verus! {

/// One captured value.
pub enum SpanValue {
    Bool(bool),
    U64(u64),
    I64(i64),
    /// An owned rendering of the producer's value.
    Str(String),
    /// An IEEE-754 double, by its bits.
    F64(u64),
}

/// The spec-level image of a `SpanValue`.
#[verifier::ext_equal]
pub enum SpanValueV {
    Bool(bool),
    U64(u64),
    I64(i64),
    Str(Seq<char>),
    F64(u64),
}

impl View for SpanValue {
    type V = SpanValueV;

    open spec fn view(&self) -> SpanValueV {
        match self {
            SpanValue::Bool(b) => SpanValueV::Bool(*b),
            SpanValue::U64(v) => SpanValueV::U64(*v),
            SpanValue::I64(v) => SpanValueV::I64(*v),
            SpanValue::Str(s) => SpanValueV::Str(s@),
            SpanValue::F64(bits) => SpanValueV::F64(*bits),
        }
    }
}

/// A named captured value.
pub struct FieldValue {
    pub name: &'static str,
    pub value: SpanValue,
}

/// The spec-level image of a `FieldValue`.
#[verifier::ext_equal]
pub struct FieldValueV {
    pub name: Seq<char>,
    pub value: SpanValueV,
}

impl View for FieldValue {
    type V = FieldValueV;

    open spec fn view(&self) -> FieldValueV {
        FieldValueV { name: self.name@, value: self.value@ }
    }
}

} // verus!
