//! Token counts and argument checks.

use vstd::prelude::*;
use vstd::string::*;

use crate::json::{value_model, Json, JsonView};
use crate::message::{prompt_tokens, Usage};
use crate::text::{join, join_text, views};

verus! {

/// The prompt tokens of a provider's answer, cached ones too.
pub fn prompt_context_tokens_from_usage(usage: Usage) -> (r: u64)
    ensures
        r == prompt_tokens(usage),
{
    usage.prompt_context_tokens()
}

/// What a schema says of a value.
pub enum SchemaCheck {
    /// What is wrong with the value, one text for each failure. There is
    /// none if the value meets the schema.
    Checked(Vec<String>),
    /// The schema itself is not one.
    BadSchema(String),
}

#[verifier::ext_equal]
pub ghost enum CheckView {
    Checked(Seq<Seq<char>>),
    BadSchema(Seq<char>),
}

impl View for SchemaCheck {
    type V = CheckView;

    open spec fn view(&self) -> CheckView {
        match self {
            SchemaCheck::Checked(failures) => CheckView::Checked(views(failures@)),
            SchemaCheck::BadSchema(e) => CheckView::BadSchema(e@),
        }
    }
}

/// What a draft 7 JSON schema says of a value.
pub uninterp spec fn schema_check(schema: JsonView, value: JsonView) -> CheckView;

/// `jsonschema::draft7::options().build` on the schema and `iter_errors` on
/// the value: whether the schema is one, and the text of every failure of
/// the value, in the order in which they come. The outcome is a function of
/// the two values.
#[verifier::external_body]
fn check_schema(schema: &serde_json::Value, value: &serde_json::Value) -> (r: SchemaCheck)
    ensures
        r@ == schema_check(value_model(*schema), value_model(*value)),
{
    match jsonschema::draft7::options().build(schema) {
        Err(e) => SchemaCheck::BadSchema(e.to_string()),
        Ok(validator) => SchemaCheck::Checked(
            validator.iter_errors(value).map(|e| e.to_string()).collect(),
        ),
    }
}

/// What a check leads to: the arguments as they are, or the texts of all
/// failures with semicolons between them, or the text of what is wrong with
/// the schema, marked as such.
pub open spec fn checked_args(args: JsonView, check: CheckView) -> Result<JsonView, Seq<char>> {
    match check {
        CheckView::Checked(failures) => if failures.len() == 0 {
            Ok(args)
        } else {
            Err(join(failures, "; "@))
        },
        CheckView::BadSchema(e) => Err("schema compile: "@ + e),
    }
}

/// The view of checked arguments.
pub open spec fn args_view(r: Result<Json, String>) -> Result<JsonView, Seq<char>> {
    match r {
        Ok(v) => Ok(v@),
        Err(e) => Err(e@),
    }
}

pub fn conclude_check(args: &Json, check: SchemaCheck) -> (r: Result<Json, String>)
    ensures
        args_view(r) == checked_args(args@, check@),
{
    match check {
        SchemaCheck::Checked(failures) => {
            assert(views(failures@).len() == failures@.len());
            if failures.len() == 0 {
                Ok(args.copy())
            } else {
                Err(join_text(&failures, "; "))
            }
        },
        SchemaCheck::BadSchema(e) => {
            let mut out = "schema compile: ".to_owned();
            out.append(e.as_str());
            Err(out)
        },
    }
}

/// Holds the arguments of a tool call against a JSON schema: they come
/// back unchanged, or the text of all that is wrong does.
pub fn validate_args(args: &Json, schema: &Json) -> (r: Result<Json, String>)
    ensures
        args_view(r) == checked_args(args@, schema_check(schema@, args@)),
{
    let s = schema.to_value();
    let a = args.to_value();
    conclude_check(args, check_schema(&s, &a))
}

/// Every failure of the arguments is told, in order and with a semicolon
/// between two; arguments without one come back as they are, and those that
/// cannot be checked do not.
pub proof fn law_every_failure_is_told(
    args: JsonView,
    a: Seq<Seq<char>>,
    b: Seq<Seq<char>>,
    f: Seq<char>,
)
    ensures
        checked_args(args, CheckView::Checked(Seq::empty())) == Ok::<JsonView, Seq<char>>(args),
        checked_args(args, CheckView::Checked(seq![f])) == Err::<JsonView, Seq<char>>(f),
        a.len() > 0 && b.len() > 0 ==> ({
            let both = checked_args(args, CheckView::Checked(a + b));
            let first = checked_args(args, CheckView::Checked(a));
            let second = checked_args(args, CheckView::Checked(b));
            &&& both is Err && first is Err && second is Err
            &&& both->Err_0 == first->Err_0 + "; "@ + second->Err_0
        }),
        checked_args(args, CheckView::BadSchema(f)) is Err,
        crate::text::ends_with(checked_args(args, CheckView::BadSchema(f))->Err_0, f),
{
    if a.len() > 0 && b.len() > 0 {
        crate::text::law_join_of_two(a, b, "; "@);
    }
    assert(join(seq![f], "; "@) == f);
    let t = "schema compile: "@ + f;
    assert(t.skip(t.len() - f.len()) =~= f);
}

} // verus!
