//! JSON values: the tree that the protocol reads and builds, and its text form.

use serde_json::{Map as ValueMap, Number, Value};
use vstd::prelude::*;

use crate::text::same;

verus! {

/// A JSON value.
///
/// Integers come signed or unsigned; a real number is held by the bits of its
/// IEEE 754 double. Of two fields with the same key the later one counts.
#[derive(Debug, PartialEq, Eq)]
pub enum Json {
    Null,
    Bool(bool),
    Signed(i64),
    Unsigned(u64),
    Real(u64),
    Text(String),
    Array(Vec<Json>),
    Object(Vec<Field>),
}

/// One field of a JSON object.
#[derive(Debug, PartialEq, Eq)]
pub struct Field {
    pub key: String,
    pub value: Json,
}

/// What a JSON value says.
pub enum JsonV {
    Null,
    Bool(bool),
    Integer(int),
    Real(u64),
    Text(Seq<char>),
    Array(Seq<JsonV>),
    Object(Map<Seq<char>, JsonV>),
}

/// The bits of a double that is neither infinite nor NaN: its exponent field is
/// not all ones.
pub open spec fn is_finite(bits: u64) -> bool {
    (bits / 0x10_0000_0000_0000) % 0x800 != 0x7ff
}

/// What a list of values says, item by item.
pub open spec fn items_view(items: Seq<Json>) -> Seq<JsonV>
    decreases items,
{
    if items.len() == 0 {
        Seq::empty()
    } else {
        items_view(items.drop_last()).push(items.last().deep_view())
    }
}

/// What a list of fields says: each key with the value of its last field.
pub open spec fn fields_view(fields: Seq<Field>) -> Map<Seq<char>, JsonV>
    decreases fields,
{
    if fields.len() == 0 {
        Map::empty()
    } else {
        fields_view(fields.drop_last()).insert(fields.last().key@, fields.last().value.deep_view())
    }
}

impl DeepView for Json {
    type V = JsonV;

    open spec fn deep_view(&self) -> JsonV
        decreases self,
    {
        match *self {
            Json::Null => JsonV::Null,
            Json::Bool(b) => JsonV::Bool(b),
            Json::Signed(n) => JsonV::Integer(n as int),
            Json::Unsigned(n) => JsonV::Integer(n as int),
            Json::Real(bits) => if is_finite(bits) {
                JsonV::Real(bits)
            } else {
                JsonV::Null
            },
            Json::Text(t) => JsonV::Text(t@),
            Json::Array(items) => JsonV::Array(items_view(items@)),
            Json::Object(fields) => JsonV::Object(fields_view(fields@)),
        }
    }
}

/// The field `key` of a value; none where the value is no object or lacks it.
pub open spec fn field(value: JsonV, key: Seq<char>) -> Option<JsonV> {
    match value {
        JsonV::Object(m) => if m.contains_key(key) {
            Some(m[key])
        } else {
            None
        },
        _ => None,
    }
}

/// The text of a value that may be missing; none where it is no text.
pub open spec fn text_of(value: Option<JsonV>) -> Option<Seq<char>> {
    match value {
        Some(JsonV::Text(t)) => Some(t),
        _ => None,
    }
}

/// `value`, or null where it is missing.
pub open spec fn or_null(value: Option<JsonV>) -> JsonV {
    match value {
        Some(v) => v,
        None => JsonV::Null,
    }
}

/// An object without fields.
pub open spec fn empty_object() -> JsonV {
    JsonV::Object(Map::empty())
}

impl JsonV {
    /// This object with the field `key` set to `value`.
    pub open spec fn with(self, key: Seq<char>, value: JsonV) -> JsonV {
        match self {
            JsonV::Object(m) => JsonV::Object(m.insert(key, value)),
            _ => JsonV::Object(Map::empty().insert(key, value)),
        }
    }
}

/// A list of texts, each as a value.
pub open spec fn text_items(list: Seq<&str>) -> Seq<JsonV> {
    Seq::new(list.len(), |i: int| JsonV::Text(list[i]@))
}

/// `value` holds no real number, and at most `depth` arrays and objects stand
/// one inside the other in it.
pub open spec fn plain(value: JsonV, depth: nat) -> bool
    decreases depth,
{
    match value {
        JsonV::Real(_) => false,
        JsonV::Array(items) => depth > 0 && forall|i: int|
            0 <= i < items.len() ==> plain(#[trigger] items[i], (depth - 1) as nat),
        JsonV::Object(m) => depth > 0 && forall|k: Seq<char>|
            m.contains_key(k) ==> plain(#[trigger] m[k], (depth - 1) as nat),
        _ => true,
    }
}

/// How deep `serde_json` reads arrays and objects that stand inside each other.
pub const MAX_DEPTH: usize = 127;

#[verifier::external_type_specification]
#[verifier::external_body]
pub struct ExValue(serde_json::Value);

/// What a `serde_json::Value` holds.
pub uninterp spec fn tree(value: Value) -> JsonV;

/// The value that a JSON text denotes for `serde_json::from_str`; none where it
/// refuses the text.
pub uninterp spec fn parsed(text: Seq<char>) -> Option<JsonV>;

/// The compact text that `serde_json` writes for a value.
pub uninterp spec fn rendered(value: JsonV) -> Seq<char>;

/// `serde_json::from_str`: whether it succeeds, and the value, depend on the
/// text alone.
#[verifier::external_body]
fn read_value(text: &str) -> (r: Option<Value>)
    ensures
        match r {
            Some(v) => parsed(text@) == Some(tree(v)),
            None => parsed(text@) is None,
        },
{
    serde_json::from_str(text).ok()
}

/// `<Value as Display>::to_string`: the text depends on what the value holds
/// alone. Reading it back gives the same value where no real number occurs
/// (their digits may be read back one unit off) and where the nesting stays
/// within what `from_str` reads.
#[verifier::external_body]
fn write_value(value: &Value) -> (r: String)
    ensures
        r@ == rendered(tree(*value)),
        plain(tree(*value), MAX_DEPTH as nat) ==> parsed(r@) == Some(tree(*value)),
{
    value.to_string()
}

/// Copies a `serde_json::Value` into a `Json`, variant by variant. A number that
/// is no integer keeps the bits of its double.
#[verifier::external_body]
fn from_value(value: &Value) -> (r: Json)
    ensures
        r.deep_view() == tree(*value),
{
    match value {
        Value::Null => Json::Null,
        Value::Bool(b) => Json::Bool(*b),
        Value::Number(n) => match (n.as_u64(), n.as_i64()) {
            (Some(u), _) => Json::Unsigned(u),
            (None, Some(i)) => Json::Signed(i),
            (None, None) => n.as_f64().map_or(Json::Null, |x| Json::Real(x.to_bits())),
        },
        Value::String(s) => Json::Text(s.clone()),
        Value::Array(a) => Json::Array(a.iter().map(from_value).collect()),
        Value::Object(m) => Json::Object(m.iter().map(|(k, v)| read_field(k, v)).collect()),
    }
}

/// Copies an entry of a `serde_json` object into a field.
fn read_field(key: &str, value: &Value) -> (r: Field)
    ensures
        r.key@ == key@,
        r.value.deep_view() == tree(*value),
{
    Field { key: key.to_owned(), value: from_value(value) }
}

/// Copies a `Json` into a `serde_json::Value`, variant by variant. A real number
/// that is not finite becomes null, as `Number::from_f64` has none for it.
#[verifier::external_body]
fn to_value(json: &Json) -> (r: Value)
    ensures
        tree(r) == json.deep_view(),
{
    match json {
        Json::Null => Value::Null,
        Json::Bool(b) => Value::Bool(*b),
        Json::Signed(n) => Value::from(*n),
        Json::Unsigned(n) => Value::from(*n),
        Json::Real(bits) => Number::from_f64(bytemuck::cast(*bits)).map_or(Value::Null, Value::Number),
        Json::Text(t) => Value::String(t.clone()),
        Json::Array(items) => Value::Array(items.iter().map(to_value).collect()),
        Json::Object(fields) => Value::Object(fields.iter().fold(ValueMap::new(), |mut m, f| {
            m.insert(f.key.clone(), to_value(&f.value));
            m
        })),
    }
}

/// Reads a JSON text.
pub fn parse(text: &str) -> (r: Option<Json>)
    ensures
        match r {
            Some(j) => parsed(text@) == Some(j.deep_view()),
            None => parsed(text@) is None,
        },
{
    match read_value(text) {
        Some(value) => Some(from_value(&value)),
        None => None,
    }
}

/// Writes a value as JSON text.
pub fn render(json: &Json) -> (r: String)
    ensures
        r@ == rendered(json.deep_view()),
        plain(json.deep_view(), MAX_DEPTH as nat) ==> parsed(r@) == Some(json.deep_view()),
{
    write_value(&to_value(json))
}

/// The view of a longer list of fields, seen from any of its fields on.
proof fn lemma_field_found(fields: Seq<Field>, at: int)
    requires
        0 <= at < fields.len(),
        forall|j: int| at < j < fields.len() ==> (#[trigger] fields[j]).key@ != fields[at].key@,
    ensures
        fields_view(fields).contains_key(fields[at].key@),
        fields_view(fields)[fields[at].key@] == fields[at].value.deep_view(),
    decreases fields.len(),
{
    reveal_with_fuel(fields_view, 2);
    if at < fields.len() - 1 {
        assert(fields.drop_last()[at] == fields[at]);
        assert forall|j: int| at < j < fields.drop_last().len() implies (#[trigger] fields.drop_last()[j]).key@
            != fields[at].key@ by {
            assert(fields.drop_last()[j] == fields[j]);
        }
        lemma_field_found(fields.drop_last(), at);
        assert(fields[fields.len() - 1].key@ != fields[at].key@);
    }
}

/// A key that no field has is not in the view.
proof fn lemma_field_missing(fields: Seq<Field>, key: Seq<char>)
    requires
        forall|j: int| 0 <= j < fields.len() ==> (#[trigger] fields[j]).key@ != key,
    ensures
        !fields_view(fields).contains_key(key),
    decreases fields.len(),
{
    reveal_with_fuel(fields_view, 2);
    if fields.len() > 0 {
        assert forall|j: int| 0 <= j < fields.drop_last().len() implies (#[trigger] fields.drop_last()[j]).key@
            != key by {
            assert(fields.drop_last()[j] == fields[j]);
        }
        lemma_field_missing(fields.drop_last(), key);
        assert(fields[fields.len() - 1].key@ != key);
    }
}

/// The view of a list of values has as many items, each the view of its value.
pub proof fn lemma_items_view(items: Seq<Json>)
    ensures
        items_view(items).len() == items.len(),
        forall|i: int| 0 <= i < items.len() ==> #[trigger] items_view(items)[i] == items[i].deep_view(),
    decreases items.len(),
{
    if items.len() > 0 {
        reveal_with_fuel(items_view, 2);
        lemma_items_view(items.drop_last());
    }
}

impl Json {
    /// An object without fields.
    pub fn object() -> (r: Json)
        ensures
            r is Object,
            r.deep_view() == empty_object(),
    {
        Json::Object(Vec::new())
    }

    /// A text.
    pub fn text(text: &str) -> (r: Json)
        ensures
            r.deep_view() == JsonV::Text(text@),
    {
        Json::Text(text.to_owned())
    }

    /// This object with the field `key` set to `value`.
    pub fn with(self, key: &str, value: Json) -> (r: Json)
        requires
            self is Object,
        ensures
            r is Object,
            r.deep_view() == self.deep_view().with(key@, value.deep_view()),
    {
        let mut fields = match self {
            Json::Object(fields) => fields,
            _ => Vec::new(),
        };
        let ghost before = fields@;
        fields.push(Field { key: key.to_owned(), value });
        assert(fields@.drop_last() =~= before);
        Json::Object(fields)
    }

    /// A list without items.
    pub fn empty_array() -> (r: Json)
        ensures
            r.deep_view() == JsonV::Array(Seq::empty()),
    {
        Json::Array(Vec::new())
    }

    /// A list of one item.
    pub fn one(item: Json) -> (r: Json)
        ensures
            r.deep_view() == JsonV::Array(seq![item.deep_view()]),
    {
        let items = vec![item];
        proof {
            lemma_items_view(items@);
            assert(items_view(items@) =~= seq![item.deep_view()]);
        }
        Json::Array(items)
    }

    /// A list of texts.
    pub fn texts(list: &[&str]) -> (r: Json)
        ensures
            r.deep_view() == JsonV::Array(text_items(list@)),
    {
        let mut items: Vec<Json> = Vec::new();
        let mut i: usize = 0;
        while i < list.len()
            invariant
                i <= list.len(),
                items.len() == i,
                forall|j: int| 0 <= j < i ==> (#[trigger] items[j]).deep_view() == JsonV::Text(list[j]@),
            decreases list.len() - i,
        {
            items.push(Json::text(list[i]));
            i = i + 1;
        }
        proof {
            lemma_items_view(items@);
            assert(items_view(items@) =~= text_items(list@));
        }
        Json::Array(items)
    }

    /// The field `key` of an object.
    pub fn get(&self, key: &str) -> (r: Option<&Json>)
        ensures
            match r {
                Some(v) => field(self.deep_view(), key@) == Some(v.deep_view()),
                None => field(self.deep_view(), key@) is None,
            },
    {
        match self {
            Json::Object(fields) => {
                let mut i: usize = fields.len();
                while i > 0
                    invariant
                        *self == Json::Object(*fields),
                        i <= fields.len(),
                        forall|j: int| i <= j < fields.len() ==> (#[trigger] fields[j]).key@ != key@,
                    decreases i,
                {
                    i = i - 1;
                    if same(fields[i].key.as_str(), key) {
                        proof {
                            lemma_field_found(fields@, i as int);
                        }
                        return Some(&fields[i].value);
                    }
                }
                proof {
                    lemma_field_missing(fields@, key@);
                }
                None
            },
            _ => None,
        }
    }

    /// The text of a text value.
    pub fn as_text(&self) -> (r: Option<&str>)
        ensures
            match r {
                Some(t) => text_of(Some(self.deep_view())) == Some(t@),
                None => text_of(Some(self.deep_view())) is None,
            },
    {
        match self {
            Json::Text(t) => Some(t.as_str()),
            _ => None,
        }
    }

    /// The text of the field `key`.
    pub fn get_text(&self, key: &str) -> (r: Option<&str>)
        ensures
            match r {
                Some(t) => text_of(field(self.deep_view(), key@)) == Some(t@),
                None => text_of(field(self.deep_view(), key@)) is None,
            },
    {
        match self.get(key) {
            Some(v) => v.as_text(),
            None => None,
        }
    }

    /// Is this value an object?
    pub fn is_object(&self) -> (r: bool)
        ensures
            r == (self.deep_view() is Object),
    {
        match self {
            Json::Object(_) => true,
            _ => false,
        }
    }

    /// The value of an integer that fits in 64 bits without a sign.
    pub fn as_u64(&self) -> (r: Option<u64>)
        ensures
            match r {
                Some(n) => self.deep_view() == JsonV::Integer(n as int),
                None => !(self.deep_view() matches JsonV::Integer(n) && 0 <= n <= u64::MAX),
            },
    {
        match self {
            Json::Unsigned(n) => Some(*n),
            Json::Signed(n) => if *n >= 0 {
                Some(*n as u64)
            } else {
                None
            },
            _ => None,
        }
    }

    /// A value that says the same.
    pub fn copy(&self) -> (r: Json)
        ensures
            r.deep_view() == self.deep_view(),
        decreases self,
    {
        match self {
            Json::Null => Json::Null,
            Json::Bool(b) => Json::Bool(*b),
            Json::Signed(n) => Json::Signed(*n),
            Json::Unsigned(n) => Json::Unsigned(*n),
            Json::Real(bits) => Json::Real(*bits),
            Json::Text(t) => Json::Text(t.clone()),
            Json::Array(items) => {
                let mut copies: Vec<Json> = Vec::new();
                let mut i: usize = 0;
                while i < items.len()
                    invariant
                        i <= items.len(),
                        decreases_to!(self => items@),
                        items_view(copies@) == items_view(items@.take(i as int)),
                    decreases items.len() - i,
                {
                    let ghost before = copies@;
                    assert(decreases_to!(items@ => items@[i as int]));
                    copies.push(items[i].copy());
                    assert(copies@.drop_last() =~= before);
                    assert(items@.take(i + 1).drop_last() =~= items@.take(i as int));
                    i = i + 1;
                }
                assert(items@.take(items@.len() as int) =~= items@);
                Json::Array(copies)
            },
            Json::Object(fields) => {
                let mut copies: Vec<Field> = Vec::new();
                let mut i: usize = 0;
                while i < fields.len()
                    invariant
                        i <= fields.len(),
                        decreases_to!(self => fields@),
                        fields_view(copies@) == fields_view(fields@.take(i as int)),
                    decreases fields.len() - i,
                {
                    let ghost before = copies@;
                    assert(decreases_to!(fields@ => fields@[i as int]));
                    assert(decreases_to!(fields@[i as int] => fields@[i as int].value));
                    copies.push(Field { key: fields[i].key.clone(), value: fields[i].value.copy() });
                    assert(copies@.drop_last() =~= before);
                    assert(fields@.take(i + 1).drop_last() =~= fields@.take(i as int));
                    i = i + 1;
                }
                assert(fields@.take(fields@.len() as int) =~= fields@);
                Json::Object(copies)
            },
        }
    }

    /// A copy of the field `key`, or null where there is none.
    pub fn field_or_null(&self, key: &str) -> (r: Json)
        ensures
            r.deep_view() == or_null(field(self.deep_view(), key@)),
    {
        match self.get(key) {
            Some(v) => v.copy(),
            None => Json::Null,
        }
    }
}

}
