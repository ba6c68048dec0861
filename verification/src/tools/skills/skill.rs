//! Skills as they were found on disk.

use vstd::prelude::*;
use vstd::string::*;

use crate::json::{Json, JsonView};
use crate::tool::opt_view;

verus! {

/// A skill: a directory with a `SKILL.md` file at `source_path`.
pub struct Skill {
    pub name: String,
    /// The name with its category in front.
    pub qualified_name: String,
    pub description: String,
    pub category: Option<String>,
    pub source_path: String,
}

pub ghost struct SkillView {
    pub name: Seq<char>,
    pub qualified_name: Seq<char>,
    pub description: Seq<char>,
    pub category: Option<Seq<char>>,
    pub source_path: Seq<char>,
}

impl View for Skill {
    type V = SkillView;

    open spec fn view(&self) -> SkillView {
        SkillView {
            name: self.name@,
            qualified_name: self.qualified_name@,
            description: self.description@,
            category: opt_view(self.category),
            source_path: self.source_path@,
        }
    }
}

impl Skill {
    pub fn copy(&self) -> (r: Skill)
        ensures
            r@ == self@,
    {
        Skill {
            name: self.name.clone(),
            qualified_name: self.qualified_name.clone(),
            description: self.description.clone(),
            category: match &self.category {
                Some(c) => Some(c.clone()),
                None => None,
            },
            source_path: self.source_path.clone(),
        }
    }
}

pub open spec fn skill_views(skills: Seq<Skill>) -> Seq<SkillView> {
    Seq::new(skills.len(), |i: int| skills[i]@)
}

/// The reply that reports that a skill tool failed.
pub open spec fn skill_error(message: Seq<char>) -> JsonView {
    JsonView::object().with("success"@, JsonView::Bool(false)).with(
        "error"@,
        JsonView::Text(message),
    )
}

pub fn skill_error_text(message: &str) -> (r: Json)
    ensures
        r@ == skill_error(message@),
{
    Json::object().with("success", Json::boolean(false)).with("error", Json::text(message))
}

pub fn skill_error_reply(start: &str, rest: &str) -> (r: Json)
    ensures
        r@ == skill_error(start@ + rest@),
{
    let mut out = start.to_owned();
    out.append(rest);
    skill_error_text(out.as_str())
}

/// The text, or null.
pub open spec fn text_or_null(t: Option<Seq<char>>) -> JsonView {
    match t {
        Some(s) => JsonView::Text(s),
        None => JsonView::Null,
    }
}

pub fn text_or_null_json(t: &Option<String>) -> (r: Json)
    ensures
        r@ == text_or_null(opt_view(*t)),
{
    match t {
        Some(s) => Json::text(s.as_str()),
        None => Json::Null,
    }
}

} // verus!
