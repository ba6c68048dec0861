//! JSON values: building, reading, rendering to text and parsing.
//!
//! [`Json`] is what the library computes on; its view is a
//! [`JsonView`], in which an object is a map from keys to values. Text is
//! produced and read by `serde_json`.

use vstd::prelude::*;

use crate::text::{same, views};

verus! {

// ---------------------------------------------------------------------
// Model
// ---------------------------------------------------------------------

/// A number. One that is no 64-bit integer is told apart by the text it is
/// written as.
pub ghost enum NumberView {
    Unsigned(u64),
    Negative(i64),
    Float(Seq<char>),
}

/// What a JSON value is.
#[verifier::ext_equal]
pub ghost enum JsonView {
    Null,
    Bool(bool),
    Number(NumberView),
    Text(Seq<char>),
    Array(Seq<JsonView>),
    Object(Map<Seq<char>, JsonView>),
}

impl JsonView {
    /// The object without entries.
    pub open spec fn object() -> JsonView {
        JsonView::Object(Map::empty())
    }

    /// The object with one more entry, or with that entry replaced.
    pub open spec fn with(self, key: Seq<char>, value: JsonView) -> JsonView {
        JsonView::Object(self->Object_0.insert(key, value))
    }

    /// The entry under `key`, if this is an object that has one.
    pub open spec fn get(self, key: Seq<char>) -> Option<JsonView> {
        match self {
            JsonView::Object(m) => if m.contains_key(key) {
                Some(m[key])
            } else {
                None
            },
            _ => None,
        }
    }

    pub open spec fn as_text(self) -> Option<Seq<char>> {
        match self {
            JsonView::Text(t) => Some(t),
            _ => None,
        }
    }

    pub open spec fn as_bool(self) -> Option<bool> {
        match self {
            JsonView::Bool(b) => Some(b),
            _ => None,
        }
    }

    pub open spec fn as_u64(self) -> Option<u64> {
        match self {
            JsonView::Number(NumberView::Unsigned(n)) => Some(n),
            _ => None,
        }
    }

    /// The text under `key`.
    pub open spec fn text_at(self, key: Seq<char>) -> Option<Seq<char>> {
        match self.get(key) {
            Some(v) => v.as_text(),
            None => None,
        }
    }

    /// The truth value under `key`; false if there is none.
    pub open spec fn flag_at(self, key: Seq<char>) -> bool {
        match self.get(key) {
            Some(JsonView::Bool(b)) => b,
            _ => false,
        }
    }

    /// The unsigned number under `key`.
    pub open spec fn number_at(self, key: Seq<char>) -> Option<u64> {
        match self.get(key) {
            Some(v) => v.as_u64(),
            None => None,
        }
    }
}

/// The array of texts.
pub open spec fn text_array(items: Seq<Seq<char>>) -> JsonView {
    JsonView::Array(Seq::new(items.len(), |i: int| JsonView::Text(items[i])))
}

// ---------------------------------------------------------------------
// Values
// ---------------------------------------------------------------------

/// A JSON number. `Other` keeps a number as `serde_json` holds it, such as
/// one that is no 64-bit integer.
pub enum JsonNumber {
    Unsigned(u64),
    Negative(i64),
    Other(serde_json::Number),
}

/// A JSON value. In `Object` a later entry hides an earlier one with the
/// same key.
pub enum Json {
    Null,
    Bool(bool),
    Number(JsonNumber),
    Text(String),
    Array(Vec<Json>),
    Object(Vec<(String, Json)>),
}

pub open spec fn number_model(n: JsonNumber) -> NumberView {
    match n {
        JsonNumber::Unsigned(u) => NumberView::Unsigned(u),
        JsonNumber::Negative(i) => if i < 0 {
            NumberView::Negative(i)
        } else {
            NumberView::Unsigned(i as u64)
        },
        JsonNumber::Other(f) => number_view(f),
    }
}

/// What `v` stands for.
pub open spec fn model(v: Json) -> JsonView
    decreases v,
{
    match v {
        Json::Null => JsonView::Null,
        Json::Bool(b) => JsonView::Bool(b),
        Json::Number(n) => JsonView::Number(number_model(n)),
        Json::Text(t) => JsonView::Text(t@),
        Json::Array(items) => JsonView::Array(models(items@)),
        Json::Object(fields) => JsonView::Object(field_models(fields@)),
    }
}

pub open spec fn models(items: Seq<Json>) -> Seq<JsonView>
    decreases items,
{
    Seq::new(
        items.len(),
        |i: int|
            if 0 <= i < items.len() {
                model(items[i])
            } else {
                JsonView::Null
            },
    )
}

pub open spec fn field_models(fields: Seq<(String, Json)>) -> Map<Seq<char>, JsonView>
    decreases fields,
{
    if fields.len() == 0 {
        Map::empty()
    } else {
        let (key, value) = fields.last();
        field_models(fields.drop_last()).insert(key@, model(value))
    }
}

impl View for Json {
    type V = JsonView;

    open spec fn view(&self) -> JsonView {
        model(*self)
    }
}

/// The entry of a key is that of the last field with the key.
proof fn lemma_field_models(fields: Seq<(String, Json)>, key: Seq<char>, at: int)
    requires
        0 <= at < fields.len(),
        fields[at].0@ == key,
        forall|k: int| at < k < fields.len() ==> fields[k].0@ != key,
    ensures
        field_models(fields).contains_key(key),
        field_models(fields)[key] == model(fields[at].1),
    decreases fields.len(),
{
    if at < fields.len() - 1 {
        lemma_field_models(fields.drop_last(), key, at);
    }
}

proof fn lemma_field_models_absent(fields: Seq<(String, Json)>, key: Seq<char>)
    requires
        forall|k: int| 0 <= k < fields.len() ==> fields[k].0@ != key,
    ensures
        !field_models(fields).contains_key(key),
    decreases fields.len(),
{
    if fields.len() > 0 {
        lemma_field_models_absent(fields.drop_last(), key);
    }
}

proof fn lemma_item_smaller(v: Json, i: int)
    requires
        v is Array,
        0 <= i < v->Array_0@.len(),
    ensures
        decreases_to!(v => v->Array_0@[i]),
{
    assert(decreases_to!(v => v->Array_0));
    assert(decreases_to!(v->Array_0 => v->Array_0@));
    assert(decreases_to!(v->Array_0@ => v->Array_0@[i]));
}

proof fn lemma_field_smaller(v: Json, i: int)
    requires
        v is Object,
        0 <= i < v->Object_0@.len(),
    ensures
        decreases_to!(v => v->Object_0@[i].1),
{
    assert(decreases_to!(v => v->Object_0));
    assert(decreases_to!(v->Object_0 => v->Object_0@));
    assert(decreases_to!(v->Object_0@ => v->Object_0@[i]));
    assert(decreases_to!(v->Object_0@[i] => v->Object_0@[i].1));
}

impl Json {
    pub fn object() -> (r: Json)
        ensures
            r@ == JsonView::object(),
    {
        Json::Object(Vec::new())
    }

    pub fn with(self, key: &str, value: Json) -> (r: Json)
        requires
            self@ is Object,
        ensures
            r@ == self@.with(key@, value@),
    {
        match self {
            Json::Object(mut fields) => {
                let ghost before = fields@;
                fields.push((key.to_owned(), value));
                assert(fields@.drop_last() =~= before);
                Json::Object(fields)
            },
            other => other,
        }
    }

    pub fn text(s: &str) -> (r: Json)
        ensures
            r@ == JsonView::Text(s@),
    {
        Json::Text(s.to_owned())
    }

    pub fn boolean(b: bool) -> (r: Json)
        ensures
            r@ == JsonView::Bool(b),
    {
        Json::Bool(b)
    }

    pub fn unsigned(n: u64) -> (r: Json)
        ensures
            r@ == JsonView::Number(NumberView::Unsigned(n)),
    {
        Json::Number(JsonNumber::Unsigned(n))
    }

    pub fn integer(n: i64) -> (r: Json)
        ensures
            r@ == JsonView::Number(
                if n < 0 {
                    NumberView::Negative(n)
                } else {
                    NumberView::Unsigned(n as u64)
                },
            ),
    {
        Json::Number(JsonNumber::Negative(n))
    }

    pub fn array(items: Vec<Json>) -> (r: Json)
        ensures
            r@ == JsonView::Array(models(items@)),
    {
        Json::Array(items)
    }

    pub fn texts(items: &Vec<String>) -> (r: Json)
        ensures
            r@ == text_array(views(items@)),
    {
        let mut out: Vec<Json> = Vec::new();
        let mut i: usize = 0;
        while i < items.len()
            invariant
                i <= items@.len(),
                out@.len() == i,
                forall|k: int| 0 <= k < i ==> model(out@[k]) == JsonView::Text(items@[k]@),
            decreases items.len() - i,
        {
            out.push(Json::Text(items[i].clone()));
            i += 1;
        }
        assert(models(out@) =~= text_array(views(items@))->Array_0);
        Json::Array(out)
    }

    /// The entry under `key`.
    pub fn get(&self, key: &str) -> (r: Option<&Json>)
        ensures
            match r {
                Some(v) => self@.get(key@) == Some(v@),
                None => self@.get(key@) is None,
            },
    {
        match self {
            Json::Object(fields) => {
                let mut i: usize = fields.len();
                while i > 0
                    invariant
                        i <= fields@.len(),
                        *self == Json::Object(*fields),
                        forall|k: int| i <= k < fields@.len() ==> fields@[k].0@ != key@,
                    decreases i,
                {
                    i -= 1;
                    if same(fields[i].0.as_str(), key) {
                        proof {
                            lemma_field_models(fields@, key@, i as int);
                        }
                        return Some(&fields[i].1);
                    }
                }
                proof {
                    lemma_field_models_absent(fields@, key@);
                }
                None
            },
            _ => None,
        }
    }

    pub fn as_str(&self) -> (r: Option<&str>)
        ensures
            match r {
                Some(s) => self@.as_text() == Some(s@),
                None => self@.as_text() is None,
            },
    {
        match self {
            Json::Text(s) => Some(s.as_str()),
            _ => None,
        }
    }

    pub fn as_bool(&self) -> (r: Option<bool>)
        ensures
            r == self@.as_bool(),
    {
        match self {
            Json::Bool(b) => Some(*b),
            _ => None,
        }
    }

    pub fn as_u64(&self) -> (r: Option<u64>)
        ensures
            r == self@.as_u64(),
    {
        match self {
            Json::Number(JsonNumber::Unsigned(n)) => Some(*n),
            Json::Number(JsonNumber::Negative(i)) => if *i < 0 {
                None
            } else {
                Some(*i as u64)
            },
            Json::Number(JsonNumber::Other(n)) => number_as_u64(n),
            _ => None,
        }
    }

    pub fn text_at(&self, key: &str) -> (r: Option<&str>)
        ensures
            match r {
                Some(s) => self@.text_at(key@) == Some(s@),
                None => self@.text_at(key@) is None,
            },
    {
        match self.get(key) {
            Some(v) => v.as_str(),
            None => None,
        }
    }

    pub fn flag_at(&self, key: &str) -> (r: bool)
        ensures
            r == self@.flag_at(key@),
    {
        match self.get(key) {
            Some(v) => match v.as_bool() {
                Some(b) => b,
                None => false,
            },
            None => false,
        }
    }

    pub fn number_at(&self, key: &str) -> (r: Option<u64>)
        ensures
            r == self@.number_at(key@),
    {
        match self.get(key) {
            Some(v) => v.as_u64(),
            None => None,
        }
    }

    /// A copy of the value.
    pub fn copy(&self) -> (r: Json)
        ensures
            r@ == self@,
        decreases self,
    {
        match self {
            Json::Null => Json::Null,
            Json::Bool(b) => Json::Bool(*b),
            Json::Number(JsonNumber::Unsigned(n)) => Json::Number(JsonNumber::Unsigned(*n)),
            Json::Number(JsonNumber::Negative(i)) => Json::Number(JsonNumber::Negative(*i)),
            Json::Number(JsonNumber::Other(f)) => Json::Number(JsonNumber::Other(copy_number(f))),
            Json::Text(t) => Json::Text(t.clone()),
            Json::Array(items) => {
                let mut out: Vec<Json> = Vec::new();
                let mut i: usize = 0;
                while i < items.len()
                    invariant
                        i <= items@.len(),
                        *self == Json::Array(*items),
                        out@.len() == i,
                        forall|k: int| 0 <= k < i ==> model(out@[k]) == model(items@[k]),
                    decreases items.len() - i,
                {
                    proof {
                        lemma_item_smaller(*self, i as int);
                    }
                    let item = items[i].copy();
                    out.push(item);
                    i += 1;
                }
                assert(models(out@) =~= models(items@));
                Json::Array(out)
            },
            Json::Object(fields) => {
                let mut out: Vec<(String, Json)> = Vec::new();
                let mut i: usize = 0;
                while i < fields.len()
                    invariant
                        i <= fields@.len(),
                        *self == Json::Object(*fields),
                        out@.len() == i,
                        field_models(out@) == field_models(fields@.take(i as int)),
                    decreases fields.len() - i,
                {
                    proof {
                        lemma_field_smaller(*self, i as int);
                    }
                    let value = fields[i].1.copy();
                    let ghost before = out@;
                    out.push((fields[i].0.clone(), value));
                    proof {
                        assert(out@.drop_last() =~= before);
                        assert(fields@.take(i + 1).drop_last() =~= fields@.take(i as int));
                    }
                    i += 1;
                }
                assert(fields@.take(fields@.len() as int) =~= fields@);
                Json::Object(out)
            },
        }
    }
}

// ---------------------------------------------------------------------
// serde_json
// ---------------------------------------------------------------------

#[verifier::external_type_specification]
#[verifier::external_body]
pub struct ExNumber(serde_json::Number);

#[verifier::external_type_specification]
#[verifier::external_body]
pub struct ExValue(serde_json::Value);

/// Which number a `serde_json::Number` is.
pub uninterp spec fn number_view(n: serde_json::Number) -> NumberView;

/// `serde_json::Number::clone` gives the same number.
#[verifier::external_body]
fn copy_number(n: &serde_json::Number) -> (r: serde_json::Number)
    ensures
        number_view(r) == number_view(*n),
{
    n.clone()
}

/// `serde_json::Number::as_u64`: the number, if it is an unsigned 64-bit
/// integer.
#[verifier::external_body]
fn number_as_u64(n: &serde_json::Number) -> (r: Option<u64>)
    ensures
        r == JsonView::Number(number_view(*n)).as_u64(),
{
    n.as_u64()
}

/// What a `serde_json::Value` holds.
pub uninterp spec fn value_model(v: serde_json::Value) -> JsonView;

/// One level of a `serde_json::Value`.
pub enum Shape {
    Null,
    Bool(bool),
    Number(JsonNumber),
    Text(String),
    Array(Vec<serde_json::Value>),
    Object(Vec<(String, serde_json::Value)>),
}

pub open spec fn field_values(fields: Seq<(String, serde_json::Value)>) -> Map<
    Seq<char>,
    JsonView,
>
    decreases fields.len(),
{
    if fields.len() == 0 {
        Map::empty()
    } else {
        let (key, value) = fields.last();
        field_values(fields.drop_last()).insert(key@, value_model(value))
    }
}

pub open spec fn shape_model(s: Shape) -> JsonView {
    match s {
        Shape::Null => JsonView::Null,
        Shape::Bool(b) => JsonView::Bool(b),
        Shape::Number(n) => JsonView::Number(number_model(n)),
        Shape::Text(t) => JsonView::Text(t@),
        Shape::Array(items) => JsonView::Array(
            Seq::new(items@.len(), |i: int| value_model(items@[i])),
        ),
        Shape::Object(fields) => JsonView::Object(field_values(fields@)),
    }
}

/// Builds the `serde_json::Value` with the given top level; collecting
/// fields into a `serde_json::Map` keeps the last one of each key.
#[verifier::external_body]
fn close_value(s: Shape) -> (r: serde_json::Value)
    ensures
        value_model(r) == shape_model(s),
{
    match s {
        Shape::Null => serde_json::Value::Null,
        Shape::Bool(b) => serde_json::Value::Bool(b),
        Shape::Number(JsonNumber::Unsigned(n)) => serde_json::Value::from(n),
        Shape::Number(JsonNumber::Negative(i)) => serde_json::Value::from(i),
        Shape::Number(JsonNumber::Other(f)) => serde_json::Value::Number(f),
        Shape::Text(t) => serde_json::Value::String(t),
        Shape::Array(items) => serde_json::Value::Array(items),
        Shape::Object(fields) => serde_json::Value::Object(fields.into_iter().collect()),
    }
}

/// `serde_json::Value`'s `Display`, compact: a function of what the value
/// holds.
#[verifier::external_body]
fn value_to_text(v: &serde_json::Value) -> (r: String)
    ensures
        r@ == json_text(value_model(*v)),
{
    v.to_string()
}

/// The compact text of a JSON value.
pub uninterp spec fn json_text(v: JsonView) -> Seq<char>;

impl Json {
    /// The `serde_json` form of the value.
    pub fn to_value(&self) -> (r: serde_json::Value)
        ensures
            value_model(r) == self@,
        decreases self,
    {
        match self {
            Json::Null => close_value(Shape::Null),
            Json::Bool(b) => close_value(Shape::Bool(*b)),
            Json::Number(JsonNumber::Unsigned(n)) => close_value(
                Shape::Number(JsonNumber::Unsigned(*n)),
            ),
            Json::Number(JsonNumber::Negative(i)) => close_value(
                Shape::Number(JsonNumber::Negative(*i)),
            ),
            Json::Number(JsonNumber::Other(f)) => close_value(
                Shape::Number(JsonNumber::Other(copy_number(f))),
            ),
            Json::Text(t) => close_value(Shape::Text(t.clone())),
            Json::Array(items) => {
                let mut out: Vec<serde_json::Value> = Vec::new();
                let mut i: usize = 0;
                while i < items.len()
                    invariant
                        i <= items@.len(),
                        *self == Json::Array(*items),
                        out@.len() == i,
                        forall|k: int| 0 <= k < i ==> value_model(out@[k]) == model(items@[k]),
                    decreases items.len() - i,
                {
                    proof {
                        lemma_item_smaller(*self, i as int);
                    }
                    let item = items[i].to_value();
                    out.push(item);
                    i += 1;
                }
                assert(Seq::new(out@.len(), |i: int| value_model(out@[i])) =~= models(items@));
                close_value(Shape::Array(out))
            },
            Json::Object(fields) => {
                let mut out: Vec<(String, serde_json::Value)> = Vec::new();
                let mut i: usize = 0;
                while i < fields.len()
                    invariant
                        i <= fields@.len(),
                        *self == Json::Object(*fields),
                        out@.len() == i,
                        field_values(out@) == field_models(fields@.take(i as int)),
                    decreases fields.len() - i,
                {
                    proof {
                        lemma_field_smaller(*self, i as int);
                    }
                    let value = fields[i].1.to_value();
                    let ghost before = out@;
                    out.push((fields[i].0.clone(), value));
                    proof {
                        assert(out@.drop_last() =~= before);
                        assert(fields@.take(i + 1).drop_last() =~= fields@.take(i as int));
                    }
                    i += 1;
                }
                assert(fields@.take(fields@.len() as int) =~= fields@);
                close_value(Shape::Object(out))
            },
        }
    }

    /// The value as compact JSON text.
    pub fn render(&self) -> (r: String)
        ensures
            r@ == json_text(self@),
    {
        let v = self.to_value();
        value_to_text(&v)
    }
}

/// The value that a JSON text reads as, if it is one.
pub uninterp spec fn json_read(text: Seq<char>) -> Option<JsonView>;

/// `serde_json::from_str` into a `Value`, without its error.
#[verifier::external_body]
fn read_value(text: &str) -> (r: Option<serde_json::Value>)
    ensures
        match r {
            Some(v) => json_read(text@) == Some(value_model(v)),
            None => json_read(text@) is None,
        },
{
    serde_json::from_str(text).ok()
}

/// No key occurs twice in an object.
pub open spec fn distinct_keys(s: Shape) -> bool {
    s matches Shape::Object(fields) ==> forall|i: int, j: int|
        0 <= i < j < fields@.len() ==> #[trigger] fields@[i].0@ != #[trigger] fields@[j].0@
}

/// Takes the top level of a `serde_json::Value` apart: `as_u64` and
/// `as_i64` tell the integers from the other numbers, and a
/// `serde_json::Map` has each key once.
#[verifier::external_body]
fn open_value(v: serde_json::Value) -> (r: Shape)
    ensures
        shape_model(r) == value_model(v),
        distinct_keys(r),
{
    match v {
        serde_json::Value::Null => Shape::Null,
        serde_json::Value::Bool(b) => Shape::Bool(b),
        serde_json::Value::Number(n) => match (n.as_u64(), n.as_i64()) {
            (Some(u), _) => Shape::Number(JsonNumber::Unsigned(u)),
            (None, Some(i)) => Shape::Number(JsonNumber::Negative(i)),
            (None, None) => Shape::Number(JsonNumber::Other(n)),
        },
        serde_json::Value::String(t) => Shape::Text(t),
        serde_json::Value::Array(items) => Shape::Array(items),
        serde_json::Value::Object(fields) => Shape::Object(fields.into_iter().collect()),
    }
}

proof fn lemma_field_values(fields: Seq<(String, serde_json::Value)>, at: int)
    requires
        0 <= at < fields.len(),
        forall|i: int, j: int|
            0 <= i < j < fields.len() ==> #[trigger] fields[i].0@ != #[trigger] fields[j].0@,
    ensures
        field_values(fields).dom().finite(),
        field_values(fields).contains_key(fields[at].0@),
        field_values(fields)[fields[at].0@] == value_model(fields[at].1),
    decreases fields.len(),
{
    let rest = fields.drop_last();
    if rest.len() > 0 {
        let k = if at < rest.len() {
            at
        } else {
            0
        };
        lemma_field_values(rest, k);
        assert(rest[k] == fields[k]);
    } else {
        assert(field_values(rest) == Map::<Seq<char>, JsonView>::empty());
    }
    assert(field_values(fields).dom() =~= field_values(rest).dom().insert(fields.last().0@));
}

proof fn lemma_shape_smaller(v: JsonView, key: Seq<char>)
    requires
        v is Object,
        v->Object_0.dom().finite(),
        v->Object_0.contains_key(key),
    ensures
        decreases_to!(v => v->Object_0[key]),
{
    broadcast use vstd::map::group_map_axioms;

    assert(decreases_to!(v => v->Object_0));
    assert(decreases_to!(v->Object_0 => v->Object_0[key]));
}

proof fn lemma_array_smaller(v: JsonView, i: int)
    requires
        v is Array,
        0 <= i < v->Array_0.len(),
    ensures
        decreases_to!(v => v->Array_0[i]),
{
    assert(decreases_to!(v => v->Array_0));
    assert(decreases_to!(v->Array_0 => v->Array_0[i]));
}

impl Json {
    /// The value held by a `serde_json` value.
    pub fn from_value(v: serde_json::Value) -> (r: Json)
        ensures
            r@ == value_model(v),
        decreases value_model(v),
    {
        let ghost whole = value_model(v);
        let shape = open_value(v);
        match shape {
            Shape::Null => Json::Null,
            Shape::Bool(b) => Json::Bool(b),
            Shape::Number(n) => Json::Number(n),
            Shape::Text(t) => Json::Text(t),
            Shape::Array(items) => {
                let ghost all = items@;
                let mut out: Vec<Json> = Vec::new();
                for item in it: items
                    invariant
                        it.seq() == all,
                        out@.len() == it.index(),
                        forall|k: int|
                            0 <= k < out@.len() ==> model(out@[k]) == value_model(all[k]),
                        whole == JsonView::Array(
                            Seq::new(all.len(), |i: int| value_model(all[i])),
                        ),
                        whole == value_model(v),
                {
                    proof {
                        lemma_array_smaller(whole, out@.len() as int);
                    }
                    let one = Json::from_value(item);
                    out.push(one);
                }
                assert(models(out@) =~= whole->Array_0);
                Json::Array(out)
            },
            Shape::Object(fields) => {
                let ghost all = fields@;
                let mut out: Vec<(String, Json)> = Vec::new();
                for pair in it: fields
                    invariant
                        it.seq() == all,
                        out@.len() == it.index(),
                        field_models(out@) == field_values(all.take(out@.len() as int)),
                        forall|i: int, j: int|
                            0 <= i < j < all.len() ==> #[trigger] all[i].0@ != #[trigger] all[j].0@,
                        whole == JsonView::Object(field_values(all)),
                        whole == value_model(v),
                {
                    let ghost at = out@.len() as int;
                    proof {
                        lemma_field_values(all, at);
                        lemma_shape_smaller(whole, pair.0@);
                    }
                    let one = Json::from_value(pair.1);
                    let ghost before = out@;
                    out.push((pair.0, one));
                    proof {
                        assert(out@.drop_last() =~= before);
                        assert(all.take(at + 1).drop_last() =~= all.take(at));
                    }
                }
                assert(all.take(all.len() as int) =~= all);
                Json::Object(out)
            },
        }
    }

    /// Reads JSON text.
    pub fn parse(text: &str) -> (r: Option<Json>)
        ensures
            match r {
                Some(v) => json_read(text@) == Some(v@),
                None => json_read(text@) is None,
            },
    {
        match read_value(text) {
            Some(v) => Some(Json::from_value(v)),
            None => None,
        }
    }
}

/// An entry is what was put there last, and putting it there leaves every
/// other entry alone.
pub proof fn law_entries_are_kept(
    fields: Map<Seq<char>, JsonView>,
    key: Seq<char>,
    value: JsonView,
    other: Seq<char>,
)
    requires
        other != key,
    ensures
        JsonView::Object(fields).with(key, value).get(key) == Some(value),
        JsonView::Object(fields).with(key, value).get(other) == JsonView::Object(fields).get(other),
        JsonView::object().get(key) is None,
{
}

/// What stands under a key is read as what it is: a text, a truth value or
/// an unsigned number, and as nothing else.
pub proof fn law_entries_are_read_by_kind(
    fields: Map<Seq<char>, JsonView>,
    key: Seq<char>,
    t: Seq<char>,
    b: bool,
    n: u64,
)
    ensures
        JsonView::Object(fields).with(key, JsonView::Text(t)).text_at(key) == Some(t),
        JsonView::Object(fields).with(key, JsonView::Text(t)).number_at(key) is None,
        !JsonView::Object(fields).with(key, JsonView::Text(t)).flag_at(key),
        JsonView::Object(fields).with(key, JsonView::Bool(b)).flag_at(key) == b,
        JsonView::Object(fields).with(key, JsonView::Bool(b)).text_at(key) is None,
        JsonView::Object(fields).with(
            key,
            JsonView::Number(NumberView::Unsigned(n)),
        ).number_at(key) == Some(n),
        JsonView::Object(fields).with(
            key,
            JsonView::Number(NumberView::Unsigned(n)),
        ).text_at(key) is None,
        JsonView::object().text_at(key) is None,
        JsonView::object().number_at(key) is None,
        !JsonView::object().flag_at(key),
{
}

/// An array of texts holds each of them, in order.
pub proof fn law_text_array_holds_all(items: Seq<Seq<char>>, i: int)
    requires
        0 <= i < items.len(),
    ensures
        text_array(items) is Array,
        text_array(items)->Array_0.len() == items.len(),
        text_array(items)->Array_0[i] == JsonView::Text(items[i]),
{
}

} // verus!
