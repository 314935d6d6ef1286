//! The JSON values that patterns are rendered against.
//!
//! The values are `serde_json`'s own, and Verus does not look inside them. What this
//! module states of them is not proved: it is what `serde_json` does. Everything else in
//! the library is proved from it.

use serde_json::Value;
use vstd::prelude::*;

verus! {

/// `serde_json::Value`, a JSON value of any kind. Opaque to Verus.
#[verifier::external_type_specification]
#[verifier::external_body]
pub struct ExValue(serde_json::Value);

/// `serde_json::Error`, the error of the serializer. Opaque to Verus.
#[verifier::external_type_specification]
#[verifier::external_body]
pub struct ExJsonError(serde_json::Error);

/// What a JSON value holds one level down, as far as a path can tell.
pub enum Shape {
    /// `null`, a boolean, a number or a string: nothing to step into.
    Scalar,
    /// An array, with its elements in order.
    List(Seq<Value>),
    /// An object, with its members by key.
    Mapping(Map<Seq<char>, Value>),
}

/// The shape of a JSON value: which of the three it is, and the values it holds.
pub uninterp spec fn json_shape(v: Value) -> Shape;

/// What `serde_json::to_string` makes of a value: its compact JSON text, or the error
/// it gives up with.
pub uninterp spec fn json_text(v: Value) -> Result<Seq<char>, serde_json::Error>;

/// `serde_json::Value::as_array`: the elements of an array as they lie in it, and `None`
/// for any other value.
pub assume_specification[ serde_json::Value::as_array ](v: &Value) -> (r: Option<&Vec<Value>>)
    ensures
        match r {
            Some(items) => json_shape(*v) == Shape::List(items@),
            None => !(json_shape(*v) is List),
        },
;

/// `serde_json::Value::get` with a key: the member under `name` if `v` is an object that
/// has one, and `None` for an object without it or any other value.
#[verifier::external_body]
pub(crate) fn member<'v>(v: &'v Value, name: &str) -> (r: Option<&'v Value>)
    ensures
        r == (match json_shape(*v) {
            Shape::Mapping(entries) => if entries.dom().contains(name@) {
                Some(&entries[name@])
            } else {
                None
            },
            _ => None,
        }),
{
    v.get(name)
}

/// `serde_json::to_string` on a value: the same value gives the same text, or the same
/// error. Nothing is claimed of what the text looks like, nor that there is one.
#[verifier::external_body]
pub(crate) fn to_text(v: &Value) -> (r: Result<String, serde_json::Error>)
    ensures
        match r {
            Ok(s) => json_text(*v) == Ok::<Seq<char>, serde_json::Error>(s@),
            Err(e) => json_text(*v) == Err::<Seq<char>, serde_json::Error>(e),
        },
{
    serde_json::to_string(v)
}

} // verus!
