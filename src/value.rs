//! A single value contributed to a node by a feeder.
use vstd::prelude::*;

verus! {

/// An immutable pair of the name of the feeder that produced it and its raw text.
#[derive(Debug)]
pub struct Value {
    feeder: String,
    value: String,
}

impl View for Value {
    type V = (Seq<char>, Seq<char>);

    closed spec fn view(&self) -> (Seq<char>, Seq<char>) {
        (self.feeder@, self.value@)
    }
}

impl Value {
    pub fn new(feeder: String, value: String) -> (r: Self)
        ensures
            r@ == (feeder@, value@),
    {
        Value { feeder, value }
    }

    /// Name of the feeder that produced this value.
    pub fn feeder(&self) -> (r: &str)
        ensures
            r@ == self@.0,
    {
        self.feeder.as_str()
    }

    /// The raw text, as the feeder resolved it.
    pub fn raw(&self) -> (r: &str)
        ensures
            r@ == self@.1,
    {
        self.value.as_str()
    }

    /// A copy of this value.
    pub fn duplicate(&self) -> (r: Value)
        ensures
            r@ == self@,
    {
        Value { feeder: self.feeder.clone(), value: self.value.clone() }
    }

    /// Reads the raw text as a `V`, through `V`'s `FromStr`.
    pub fn value<V: core::str::FromStr>(&self) -> (r: Result<V, ParseError>)
        ensures
            r matches Err(e) ==> e@ == self@.1,
    {
        match parse_as::<V>(self.value.as_str()) {
            Some(v) => Ok(v),
            None => Err(ParseError { raw: self.value.clone() }),
        }
    }
}

/// A raw value that could not be read as the requested type.
#[derive(Debug)]
pub struct ParseError {
    pub raw: String,
}

impl View for ParseError {
    type V = Seq<char>;

    open spec fn view(&self) -> Seq<char> {
        self.raw@
    }
}

/// Relies on `str::parse`: `None` when `V`'s `FromStr` rejects the text.
#[verifier::external_body]
fn parse_as<V: core::str::FromStr>(s: &str) -> (r: Option<V>) {
    s.parse::<V>().ok()
}

} // verus!
