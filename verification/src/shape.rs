//! The trusted boundary to the TOML reader: parsing manifest text into a
//! document value, and reading the one level of structure that the
//! dependency schema cares about — is a value a string, a table, or
//! something else.

use vstd::prelude::*;

use crate::order::keys_sorted;

verus! {

#[verifier::external_type_specification]
#[verifier::external_body]
pub struct ExTomlValue(toml::Value);

/// What a TOML value looks like at the one level the dependency schema
/// reads: a string, a table of named sub-values, or any other form.
pub enum ShapeSpec {
    Str(Seq<char>),
    Table(Seq<(Seq<char>, toml::Value)>),
    Other,
}

/// The result of parsing text as a TOML document: `Some` exactly on valid
/// documents. Parsing is a function of the text alone; what the document
/// holds is left unstated here and is read off through `shape_of`.
pub uninterp spec fn toml_parsed(text: Seq<char>) -> Option<toml::Value>;

/// The outermost form of a TOML value: which variant it is, and, for a
/// string or a table, what it directly holds.
pub uninterp spec fn shape_of(v: toml::Value) -> ShapeSpec;

/// The executable counterpart of `ShapeSpec`, handed out by `toml_classify`.
pub enum Shape {
    Str(String),
    Table(Vec<(String, toml::Value)>),
    Other(toml::Value),
}

/// The key/value entries of a raw table, with keys abstracted to sequences.
pub open spec fn raw_entries_view(es: Seq<(String, toml::Value)>) -> Seq<(Seq<char>, toml::Value)> {
    es.map_values(|p: (String, toml::Value)| (p.0@, p.1))
}

impl View for Shape {
    type V = ShapeSpec;

    open spec fn view(&self) -> ShapeSpec {
        match self {
            Shape::Str(s) => ShapeSpec::Str(s@),
            Shape::Table(es) => ShapeSpec::Table(raw_entries_view(es@)),
            Shape::Other(_) => ShapeSpec::Other,
        }
    }
}

/// Relies on `toml::from_str::<toml::Value>`: deterministic parsing of the
/// full text, succeeding exactly on well-formed TOML documents.
#[verifier::external_body]
pub(crate) fn toml_parse(text: &str) -> (r: Option<toml::Value>)
    ensures
        r == toml_parsed(text@),
{
    toml::from_str::<toml::Value>(text).ok()
}

/// Relies on `toml::Value` being an enum whose `String` and `Table` variants
/// carry the payloads read here, and on `toml::map::Map` (a `BTreeMap` keyed
/// by `String`) handing its entries out with strictly increasing, hence
/// distinct, keys.
#[verifier::external_body]
pub(crate) fn toml_classify(v: toml::Value) -> (r: Shape)
    ensures
        r@ == shape_of(v),
        (r@ matches ShapeSpec::Table(es) ==> keys_sorted(es)),
{
    match v {
        toml::Value::String(s) => Shape::Str(s),
        toml::Value::Table(t) => Shape::Table(t.into_iter().collect()),
        other => Shape::Other(other),
    }
}

/// Relies on `toml::Value::String`: wrapping a string yields a value whose
/// outermost form is exactly that string.
#[verifier::external_body]
pub(crate) fn toml_string(s: String) -> (r: toml::Value)
    ensures
        shape_of(r) == ShapeSpec::Str(s@),
{
    toml::Value::String(s)
}

} // verus!
