//! What JSON objects are for.

use vstd::prelude::*;

use crate::json::{empty_object, field, or_null, text_of, JsonV};

verus! {

/// A field that is set has the value that it was set to, whether it was there or not, and
/// every other field stays as it was. What was no object is one then.
pub proof fn law_field_that_is_set_is_there(value: JsonV, key: Seq<char>, set: JsonV, other: Seq<char>)
    ensures
        value.with(key, set) is Object,
        field(value.with(key, set), key) == Some(set),
        other != key ==> field(value.with(key, set), other) == field(value, other),
        field(empty_object(), key) is None,
{
}

/// The text of a field is there if and only if the field is a text; a field that is missing
/// is null.
pub proof fn law_text_of_a_field(value: JsonV, key: Seq<char>, text: Seq<char>)
    ensures
        text_of(field(value, key)) == Some(text) <==> field(value, key) == Some(JsonV::Text(text)),
        !(value is Object) ==> field(value, key) is None,
        or_null(field(value, key)) == JsonV::Null <==> field(value, key) is None || field(value, key) == Some(
            JsonV::Null,
        ),
{
}

}
