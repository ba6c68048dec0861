//! Building JSON schemas of tool parameters.

use vstd::prelude::*;

use crate::json::{text_array, Json, JsonView, NumberView};
use crate::text::views;

verus! {

/// A parameter of a type, with its description.
pub open spec fn typed(kind: Seq<char>, description: Seq<char>) -> JsonView {
    JsonView::object().with("type"@, JsonView::Text(kind)).with(
        "description"@,
        JsonView::Text(description),
    )
}

pub fn typed_param(kind: &str, description: &str) -> (r: Json)
    ensures
        r@ == typed(kind@, description@),
{
    Json::object().with("type", Json::text(kind)).with("description", Json::text(description))
}

/// A truth value that is false unless it is given.
pub open spec fn flag(description: Seq<char>) -> JsonView {
    typed("boolean"@, description).with("default"@, JsonView::Bool(false))
}

pub fn flag_param(description: &str) -> (r: Json)
    ensures
        r@ == flag(description@),
{
    typed_param("boolean", description).with("default", Json::boolean(false))
}

/// One of some words, the first unless another is given.
pub open spec fn choice(words: Seq<Seq<char>>, description: Seq<char>) -> JsonView {
    typed("string"@, description).with("enum"@, text_array(words)).with(
        "default"@,
        JsonView::Text(words[0]),
    )
}

pub fn choice_param(words: &Vec<String>, description: &str) -> (r: Json)
    requires
        words@.len() > 0,
    ensures
        r@ == choice(views(words@), description@),
{
    typed_param("string", description).with("enum", Json::texts(words)).with(
        "default",
        Json::text(words[0].as_str()),
    )
}

pub open spec fn number(n: u64) -> JsonView {
    JsonView::Number(NumberView::Unsigned(n))
}

/// The schema of an object with these properties and no others.
pub open spec fn object_schema(properties: JsonView, required: Seq<Seq<char>>) -> JsonView {
    JsonView::object().with("type"@, JsonView::Text("object"@)).with(
        "properties"@,
        properties,
    ).with("required"@, text_array(required)).with("additionalProperties"@, JsonView::Bool(false))
}

pub fn object_schema_json(properties: Json, required: &Vec<String>) -> (r: Json)
    ensures
        r@ == object_schema(properties@, views(required@)),
{
    Json::object().with("type", Json::text("object")).with("properties", properties).with(
        "required",
        Json::texts(required),
    ).with("additionalProperties", Json::boolean(false))
}

/// A list of one string.
pub fn words1(a: &str) -> (r: Vec<String>)
    ensures
        views(r@) == seq![a@],
        r@.len() == 1,
{
    let mut out: Vec<String> = Vec::new();
    out.push(a.to_owned());
    assert(views(out@) =~= seq![a@]);
    out
}

/// A list of two strings.
pub fn words2(a: &str, b: &str) -> (r: Vec<String>)
    ensures
        views(r@) == seq![a@, b@],
        r@.len() == 2,
{
    let mut out: Vec<String> = Vec::new();
    out.push(a.to_owned());
    out.push(b.to_owned());
    assert(views(out@) =~= seq![a@, b@]);
    out
}

/// A list of three strings.
pub fn words3(a: &str, b: &str, c: &str) -> (r: Vec<String>)
    ensures
        views(r@) == seq![a@, b@, c@],
        r@.len() == 3,
{
    let mut out: Vec<String> = Vec::new();
    out.push(a.to_owned());
    out.push(b.to_owned());
    out.push(c.to_owned());
    assert(views(out@) =~= seq![a@, b@, c@]);
    out
}

// ---------------------------------------------------------------------
// Laws
// ---------------------------------------------------------------------

/// The schema of an object asks for an object, names its properties and
/// those that it needs, and takes no others.
pub proof fn law_object_schema_names_its_properties(
    properties: JsonView,
    required: Seq<Seq<char>>,
)
    ensures
        ({
            let s = object_schema(properties, required);
            &&& s.text_at("type"@) == Some("object"@)
            &&& s.get("properties"@) == Some(properties)
            &&& s.get("required"@) == Some(text_array(required))
            &&& s.get("additionalProperties"@) == Some(JsonView::Bool(false))
        }),
{
    reveal_strlit("type");
    reveal_strlit("properties");
    reveal_strlit("required");
    reveal_strlit("additionalProperties");
    assert("type"@.len() == 4 && "properties"@.len() == 10 && "required"@.len() == 8
        && "additionalProperties"@.len() == 20);
}

/// A parameter has the type and the description that it is given; a truth
/// value is false and a choice is the first word unless another is given.
pub proof fn law_parameters_are_described(
    kind: Seq<char>,
    words: Seq<Seq<char>>,
    description: Seq<char>,
)
    ensures
        typed(kind, description).text_at("type"@) == Some(kind),
        typed(kind, description).text_at("description"@) == Some(description),
        flag(description).text_at("type"@) == Some("boolean"@),
        flag(description).text_at("description"@) == Some(description),
        flag(description).get("default"@) == Some(JsonView::Bool(false)),
        choice(words, description).text_at("type"@) == Some("string"@),
        choice(words, description).text_at("description"@) == Some(description),
        choice(words, description).get("enum"@) == Some(text_array(words)),
        words.len() > 0 ==> choice(words, description).text_at("default"@) == Some(words.first()),
{
    reveal_strlit("type");
    reveal_strlit("description");
    reveal_strlit("default");
    reveal_strlit("enum");
    assert("type"@.len() == 4 && "description"@.len() == 11 && "default"@.len() == 7
        && "enum"@.len() == 4);
    assert("type"@[0] == 't' && "enum"@[0] == 'e');
}

} // verus!
