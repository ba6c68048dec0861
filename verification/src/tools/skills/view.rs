//! `SkillViewTool`: the content of a skill and of the files that belong to
//! it.

use vstd::prelude::*;
use vstd::string::*;

use crate::json::{text_array, Json, JsonView};
use crate::path::{
    extension, extension_text, file_name, file_name_text, is_within, join_path, join_paths,
    parent, parent_text, same_path, same_paths, within,
};
use crate::text::{
    chars_of, contains, contains_text, decimal, decimal_text, find_char, find_char_at,
    lemma_find_char, push_text, same, skip_text, starts_with, starts_with_text, string_between,
    strip_prefix, strip_prefix_text, views,
};
use crate::tool::{opt_view, ToolError, ToolErrorView};
use crate::tools::bash::{truncate_output, truncated};
use crate::tools::skills::skill::{
    skill_error, skill_error_reply, skill_error_text, skill_views, text_or_null, text_or_null_json,
    Skill, SkillView,
};
use crate::tools::support::content::{decode_lossy, lossy_text};
use crate::tools::support::schema::{
    object_schema, object_schema_json, typed, typed_param, words1,
};

verus! {

pub const SKILL_VIEW_DESCRIPTION: &'static str = "Skills allow for loading information about specific tasks and workflows, as well as scripts and templates. Load a skill's full content or access its linked files (references, templates, scripts). First call returns SKILL.md content plus a 'linked_files' dict showing available references/templates/scripts. To access those, call again with file_path parameter.";

/// How much of a skill is shown, in characters.
pub const MAX_SKILL_CHARS: usize = 100_000;

// ---------------------------------------------------------------------
// Front matter
// ---------------------------------------------------------------------

/// A line without the carriage returns at its end.
pub open spec fn without_returns(s: Seq<char>) -> Seq<char>
    decreases s.len(),
{
    if s.len() > 0 && s.last() == '\r' {
        without_returns(s.drop_last())
    } else {
        s
    }
}

/// Where the first line at or after `from` starts that is `---`.
pub open spec fn closing_line(s: Seq<char>, from: int) -> Option<int>
    decreases s.len() - from,
{
    if from < 0 || from >= s.len() {
        None
    } else {
        let n = find_char(s, '\n', from);
        proof {
            lemma_find_char(s, '\n', from);
        }
        if without_returns(s.subrange(from, n)) == "---"@ {
            Some(from)
        } else if n < s.len() {
            closing_line(s, n + 1)
        } else {
            None
        }
    }
}

/// `s` without the `---` at its start, however often it stands there.
pub open spec fn without_dashes(s: Seq<char>) -> Seq<char>
    decreases s.len(),
{
    if starts_with(s, seq!['-', '-', '-']) {
        without_dashes(s.skip(3))
    } else {
        s
    }
}

/// `s` without the line feeds at its start.
pub open spec fn without_leading_newlines(s: Seq<char>) -> Seq<char>
    decreases s.len(),
{
    if s.len() > 0 && s[0] == '\n' {
        without_leading_newlines(s.skip(1))
    } else {
        s
    }
}

/// `text` without a byte order mark.
pub open spec fn without_mark(text: Seq<char>) -> Seq<char> {
    match strip_prefix(text, "\u{feff}"@) {
        Some(rest) => rest,
        None => text,
    }
}

/// The body of a skill file: what follows the front matter, which stands
/// between two lines `---`. A file without front matter is all body.
pub open spec fn skill_body(text: Seq<char>) -> Seq<char> {
    let whole = without_mark(text);
    let n = find_char(whole, '\n', 0);
    if !starts_with(whole, "---"@) || n >= whole.len() {
        whole
    } else {
        let after = whole.skip(n + 1);
        match closing_line(after, 0) {
            Some(at) => without_leading_newlines(without_dashes(after.skip(at))),
            None => whole,
        }
    }
}

fn strip_returns(s: &Vec<char>, from: usize, to: usize) -> (r: String)
    requires
        from <= to <= s@.len(),
    ensures
        r@ == without_returns(s@.subrange(from as int, to as int)),
{
    let mut n: usize = to;
    while n > from && s[n - 1] == '\r'
        invariant
            from <= n <= to <= s@.len(),
            without_returns(s@.subrange(from as int, n as int)) == without_returns(
                s@.subrange(from as int, to as int),
            ),
        decreases n,
    {
        assert(s@.subrange(from as int, n as int).drop_last() =~= s@.subrange(
            from as int,
            n - 1,
        ));
        n -= 1;
    }
    assert(n > from ==> s@.subrange(from as int, n as int).last() == s@[n - 1]);
    string_between(s, from, n)
}

fn find_closing_line(s: &Vec<char>) -> (r: Option<usize>)
    ensures
        match r {
            Some(p) => closing_line(s@, 0) == Some(p as int) && p < s@.len(),
            None => closing_line(s@, 0) is None,
        },
{
    let mut from: usize = 0;
    while from < s.len()
        invariant
            from <= s@.len(),
            closing_line(s@, 0) == closing_line(s@, from as int),
        decreases s.len() - from,
    {
        proof {
            lemma_find_char(s@, '\n', from as int);
        }
        let n: usize = find_char_at(s, '\n', from);
        let line = strip_returns(s, from, n);
        if same(line.as_str(), "---") {
            return Some(from);
        }
        if n >= s.len() {
            return None;
        }
        from = n + 1;
    }
    None
}

fn strip_dashes(s: &Vec<char>, from: usize) -> (r: usize)
    requires
        from <= s@.len(),
    ensures
        from <= r <= s@.len(),
        s@.skip(r as int) == without_dashes(s@.skip(from as int)),
{
    let mut i: usize = from;
    while s.len() - i >= 3 && s[i] == '-' && s[i + 1] == '-' && s[i + 2] == '-'
        invariant
            from <= i <= s@.len(),
            without_dashes(s@.skip(i as int)) == without_dashes(s@.skip(from as int)),
        decreases s.len() - i,
    {
        assert(s@.skip(i as int).take(3) =~= seq!['-', '-', '-']);
        assert(s@.skip(i as int).skip(3) =~= s@.skip(i + 3));
        i += 3;
    }
    proof {
        let rest = s@.skip(i as int);
        if starts_with(rest, seq!['-', '-', '-']) {
            let t = rest.take(3);
            assert(t[0] == '-' && t[1] == '-' && t[2] == '-');
            assert(rest[0] == s@[i as int] && rest[1] == s@[i + 1] && rest[2] == s@[i + 2]);
        }
    }
    i
}

/// The body of a skill file.
pub fn strip_frontmatter(text: &str) -> (r: String)
    ensures
        r@ == skill_body(text@),
{
    let whole = match strip_prefix_text(text, "\u{feff}") {
        Some(rest) => rest,
        None => text.to_owned(),
    };
    if !starts_with_text(whole.as_str(), "---") {
        return whole;
    }
    let cs = chars_of(whole.as_str());
    proof {
        lemma_find_char(whole@, '\n', 0);
    }
    let n: usize = find_char_at(&cs, '\n', 0);
    if n >= cs.len() {
        return whole;
    }
    let after_text = skip_text(whole.as_str(), n + 1);
    let after = chars_of(after_text.as_str());
    let at: usize = match find_closing_line(&after) {
        Some(p) => p,
        None => {
            return whole;
        },
    };
    let body_at: usize = strip_dashes(&after, at);
    let ghost body = after@.skip(body_at as int);
    let mut i: usize = body_at;
    assert(after@.skip(i as int) == body);
    while i < after.len() && after[i] == '\n'
        invariant
            body_at <= i <= after@.len(),
            without_leading_newlines(after@.skip(i as int)) == without_leading_newlines(body),
        decreases after.len() - i,
    {
        assert(after@.skip(i as int).skip(1) =~= after@.skip(i + 1));
        i += 1;
    }
    assert(after@.skip(i as int) =~= after@.subrange(i as int, after@.len() as int));
    string_between(&after, i, after.len())
}

// ---------------------------------------------------------------------
// Finding the skill
// ---------------------------------------------------------------------

/// A skill that a call asks for, and perhaps one of its files.
pub struct SkillRequest {
    pub name: String,
    pub file_path: Option<String>,
}

pub ghost struct SkillRequestView {
    pub name: Seq<char>,
    pub file_path: Option<Seq<char>>,
}

impl View for SkillRequest {
    type V = SkillRequestView;

    open spec fn view(&self) -> SkillRequestView {
        SkillRequestView { name: self.name@, file_path: opt_view(self.file_path) }
    }
}

/// What a call asks for, or a reply at once.
pub enum SkillPlan {
    Reply(Json),
    Show(SkillRequest),
}

pub ghost enum SkillPlanView {
    Reply(JsonView),
    Show(SkillRequestView),
}

impl View for SkillPlan {
    type V = SkillPlanView;

    open spec fn view(&self) -> SkillPlanView {
        match self {
            SkillPlan::Reply(j) => SkillPlanView::Reply(j@),
            SkillPlan::Show(r) => SkillPlanView::Show(r@),
        }
    }
}

pub open spec fn skill_plan(args: JsonView) -> Result<SkillPlanView, ToolErrorView> {
    match args.text_at("name"@) {
        None => Err(ToolErrorView::InvalidArgs("missing 'name'"@)),
        Some(name) => Ok(
            if contains(name, ":"@) {
                SkillPlanView::Reply(
                    skill_error(
                        "Plugin-qualified names (e.g. 'plugin:skill') are not supported in this build. Use a local skill name."@,
                    ),
                )
            } else {
                SkillPlanView::Show(
                    SkillRequestView { name, file_path: args.text_at("file_path"@) },
                )
            },
        ),
    }
}

/// What is in the skills directory.
pub enum SkillScan {
    /// The directory does not exist.
    NoDir,
    Failed(String),
    /// The skills; `direct_dir` tells whether the name that is asked for is
    /// a directory in it.
    Found { skills: Vec<Skill>, direct_dir: bool },
}

/// Whether a skill has the name, alone or with its category.
pub open spec fn has_name(s: SkillView, name: Seq<char>) -> bool {
    s.name == name || s.qualified_name == name
}

/// Whether a skill lies in the directory that the name leads to, or is
/// named as that directory.
pub open spec fn lies_at(s: SkillView, direct: Seq<char>) -> bool {
    let named = match file_name(direct) {
        Some(n) => n,
        None => Seq::empty(),
    };
    s.name == named || match parent(s.source_path) {
        Some(dir) => same_path(dir, direct),
        None => false,
    }
}

/// The indices below `n` of skills that have the name.
pub open spec fn named_skills(skills: Seq<SkillView>, name: Seq<char>, n: int) -> Seq<int>
    decreases n,
{
    if n <= 0 {
        Seq::empty()
    } else if has_name(skills[n - 1], name) {
        named_skills(skills, name, n - 1).push(n - 1)
    } else {
        named_skills(skills, name, n - 1)
    }
}

/// The indices below `n` of skills that lie at `direct`.
pub open spec fn skills_at(skills: Seq<SkillView>, direct: Seq<char>, n: int) -> Seq<int>
    decreases n,
{
    if n <= 0 {
        Seq::empty()
    } else if lies_at(skills[n - 1], direct) {
        skills_at(skills, direct, n - 1).push(n - 1)
    } else {
        skills_at(skills, direct, n - 1)
    }
}

/// The skills that a name can mean: those that have it; if none has and
/// the name is a directory, those that lie there.
pub open spec fn candidates(
    skills: Seq<SkillView>,
    name: Seq<char>,
    skills_dir: Seq<char>,
    direct_dir: bool,
) -> Seq<int> {
    let by_name = named_skills(skills, name, skills.len() as int);
    if by_name.len() == 0 && direct_dir {
        skills_at(skills, join_path(skills_dir, name), skills.len() as int)
    } else {
        by_name
    }
}

/// The skill that a name means, or the reply if it means none or more than
/// one.
pub open spec fn chosen_skill(scan: SkillScan, name: Seq<char>, skills_dir: Seq<char>) -> Result<
    int,
    JsonView,
> {
    match scan {
        SkillScan::NoDir => Err(skill_error("Skills directory does not exist: "@ + skills_dir)),
        SkillScan::Failed(e) => Err(skill_error("scan failed: "@ + e@)),
        SkillScan::Found { skills, direct_dir } => {
            let all = skill_views(skills@);
            let found = candidates(all, name, skills_dir, direct_dir);
            if found.len() == 0 {
                Err(
                    skill_error("Skill '"@ + name + "' not found"@).with(
                        "available_skills"@,
                        text_array(Seq::new(all.len(), |i: int| all[i].name)),
                    ),
                )
            } else if found.len() > 1 {
                Err(
                    skill_error(
                        "Ambiguous skill name '"@ + name + "': "@ + decimal(found.len())
                            + " candidates"@,
                    ).with(
                        "candidates"@,
                        text_array(
                            Seq::new(found.len(), |i: int| all[found[i]].qualified_name),
                        ),
                    ),
                )
            } else {
                Ok(found[0])
            }
        },
    }
}

/// Indices as mathematical integers.
pub open spec fn as_ints(s: Seq<usize>) -> Seq<int> {
    Seq::new(s.len(), |i: int| s[i] as int)
}

fn find_named(skills: &Vec<Skill>, name: &str) -> (r: Vec<usize>)
    ensures
        as_ints(r@) == named_skills(skill_views(skills@), name@, skills@.len() as int),
        forall|i: int| 0 <= i < r@.len() ==> r@[i] < skills@.len(),
{
    let ghost all = skill_views(skills@);
    let mut out: Vec<usize> = Vec::new();
    let mut i: usize = 0;
    assert(as_ints(out@) =~= Seq::<int>::empty());
    while i < skills.len()
        invariant
            i <= skills@.len(),
            all == skill_views(skills@),
            as_ints(out@) == named_skills(all, name@, i as int),
            forall|k: int| 0 <= k < out@.len() ==> out@[k] < skills@.len(),
        decreases skills.len() - i,
    {
        assert(all[i as int] == skills@[i as int]@);
        if same(skills[i].name.as_str(), name) || same(skills[i].qualified_name.as_str(), name) {
            let ghost before = as_ints(out@);
            out.push(i);
            assert(as_ints(out@) =~= before.push(i as int));
        }
        i += 1;
    }
    out
}

fn find_at(skills: &Vec<Skill>, direct: &str) -> (r: Vec<usize>)
    ensures
        as_ints(r@) == skills_at(skill_views(skills@), direct@, skills@.len() as int),
        forall|i: int| 0 <= i < r@.len() ==> r@[i] < skills@.len(),
{
    let ghost all = skill_views(skills@);
    let named = match file_name_text(direct) {
        Some(n) => n,
        None => String::new(),
    };
    assert(file_name(direct@) is None ==> named@ =~= Seq::<char>::empty());
    let mut out: Vec<usize> = Vec::new();
    let mut i: usize = 0;
    assert(as_ints(out@) =~= Seq::<int>::empty());
    while i < skills.len()
        invariant
            i <= skills@.len(),
            all == skill_views(skills@),
            named@ == match file_name(direct@) {
                Some(n) => n,
                None => Seq::empty(),
            },
            as_ints(out@) == skills_at(all, direct@, i as int),
            forall|k: int| 0 <= k < out@.len() ==> out@[k] < skills@.len(),
        decreases skills.len() - i,
    {
        assert(all[i as int] == skills@[i as int]@);
        let inside = match parent_text(skills[i].source_path.as_str()) {
            Some(dir) => same_paths(dir.as_str(), direct),
            None => false,
        };
        if same(skills[i].name.as_str(), named.as_str()) || inside {
            let ghost before = as_ints(out@);
            out.push(i);
            assert(as_ints(out@) =~= before.push(i as int));
        }
        i += 1;
    }
    out
}

/// The directory of a skill.
pub open spec fn skill_root(skill: SkillView, skills_dir: Seq<char>) -> Seq<char> {
    match parent(skill.source_path) {
        Some(dir) => dir,
        None => skills_dir,
    }
}

pub struct SkillViewTool {
    pub skills_dir: String,
}

/// The schema of the tool's parameters.
pub open spec fn skill_view_schema() -> JsonView {
    object_schema(
        JsonView::object().with(
            "name"@,
            typed(
                "string"@,
                "The skill name (use skills_list to see available skills). For plugin-provided skills, use the qualified form 'plugin:skill' (e.g. 'superpowers:writing-plans')."@,
            ),
        ).with(
            "file_path"@,
            typed(
                "string"@,
                "OPTIONAL: Path to a linked file within the skill (e.g., 'references/api.md', 'templates/config.yaml', 'scripts/validate.py'). Omit to get the main SKILL.md content."@,
            ),
        ),
        seq!["name"@],
    )
}

impl SkillViewTool {
    pub fn new(skills_dir: String) -> (r: Self)
        ensures
            r.skills_dir@ == skills_dir@,
    {
        SkillViewTool { skills_dir }
    }

    pub fn name(&self) -> (r: &'static str)
        ensures
            r@ == "skill_view"@,
    {
        "skill_view"
    }

    pub fn description(&self) -> (r: &'static str)
        ensures
            r@ == SKILL_VIEW_DESCRIPTION@,
    {
        SKILL_VIEW_DESCRIPTION
    }

    pub fn toolset(&self) -> (r: &'static str)
        ensures
            r@ == "skills"@,
    {
        "skills"
    }

    pub fn parameters_schema(&self) -> (r: Json)
        ensures
            r@ == skill_view_schema(),
    {
        let properties = Json::object().with(
            "name",
            typed_param(
                "string",
                "The skill name (use skills_list to see available skills). For plugin-provided skills, use the qualified form 'plugin:skill' (e.g. 'superpowers:writing-plans').",
            ),
        ).with(
            "file_path",
            typed_param(
                "string",
                "OPTIONAL: Path to a linked file within the skill (e.g., 'references/api.md', 'templates/config.yaml', 'scripts/validate.py'). Omit to get the main SKILL.md content.",
            ),
        );
        object_schema_json(properties, &words1("name"))
    }

    /// What a call asks for.
    pub fn plan(&self, args: &Json) -> (r: Result<SkillPlan, ToolError>)
        ensures
            match r {
                Ok(p) => skill_plan(args@) == Ok::<SkillPlanView, ToolErrorView>(p@),
                Err(e) => skill_plan(args@) == Err::<SkillPlanView, ToolErrorView>(e@),
            },
    {
        let name = match args.text_at("name") {
            Some(n) => n,
            None => {
                return Err(ToolError::invalid("missing 'name'"));
            },
        };
        if contains_text(name, ":") {
            return Ok(
                SkillPlan::Reply(
                    skill_error_text(
                        "Plugin-qualified names (e.g. 'plugin:skill') are not supported in this build. Use a local skill name.",
                    ),
                ),
            );
        }
        let file_path = match args.text_at("file_path") {
            Some(p) => Some(p.to_owned()),
            None => None,
        };
        Ok(SkillPlan::Show(SkillRequest { name: name.to_owned(), file_path }))
    }

    /// Which of the scanned skills is meant.
    pub fn select(&self, name: &str, scan: &SkillScan) -> (r: Result<usize, Json>)
        ensures
            match r {
                Ok(i) => chosen_skill(*scan, name@, self.skills_dir@) == Ok::<int, JsonView>(
                    i as int,
                ) && (scan matches SkillScan::Found { skills, .. } && i < skills@.len()),
                Err(j) => chosen_skill(*scan, name@, self.skills_dir@) == Err::<int, JsonView>(j@),
            },
    {
        match scan {
            SkillScan::NoDir => Err(
                skill_error_reply("Skills directory does not exist: ", self.skills_dir.as_str()),
            ),
            SkillScan::Failed(e) => Err(skill_error_reply("scan failed: ", e.as_str())),
            SkillScan::Found { skills, direct_dir } => {
                let ghost all = skill_views(skills@);
                let mut found = find_named(skills, name);
                assert(as_ints(found@).len() == found@.len());
                if found.len() == 0 && *direct_dir {
                    let direct = join_paths(self.skills_dir.as_str(), name);
                    found = find_at(skills, direct.as_str());
                }
                let ghost ids = as_ints(found@);
                assert(ids == candidates(all, name@, self.skills_dir@, *direct_dir));
                assert(ids.len() == found@.len());
                if found.len() == 0 {
                    let mut names: Vec<String> = Vec::new();
                    let mut i: usize = 0;
                    while i < skills.len()
                        invariant
                            i <= skills@.len(),
                            all == skill_views(skills@),
                            views(names@) =~= Seq::new(i as nat, |k: int| all[k].name),
                        decreases skills.len() - i,
                    {
                        push_text(&mut names, skills[i].name.as_str());
                        i += 1;
                    }
                    assert(views(names@) =~= Seq::new(all.len(), |i: int| all[i].name));
                    let mut rest = name.to_owned();
                    rest.append("' not found");
                    assert("Skill '"@ + (name@ + "' not found"@) =~= "Skill '"@ + name@
                        + "' not found"@);
                    return Err(
                        skill_error_reply("Skill '", rest.as_str()).with(
                            "available_skills",
                            Json::texts(&names),
                        ),
                    );
                }
                if found.len() > 1 {
                    let mut names: Vec<String> = Vec::new();
                    let mut i: usize = 0;
                    while i < found.len()
                        invariant
                            i <= found@.len(),
                            all == skill_views(skills@),
                            ids == as_ints(found@),
                            forall|k: int| 0 <= k < found@.len() ==> found@[k] < skills@.len(),
                            views(names@) =~= Seq::new(
                                i as nat,
                                |k: int| all[ids[k]].qualified_name,
                            ),
                        decreases found.len() - i,
                    {
                        let at: usize = found[i];
                        assert(all[ids[i as int]] == skills@[at as int]@);
                        push_text(&mut names, skills[at].qualified_name.as_str());
                        i += 1;
                    }
                    assert(views(names@) =~= Seq::new(
                        ids.len(),
                        |i: int| all[ids[i]].qualified_name,
                    ));
                    let mut rest = name.to_owned();
                    rest.append("': ");
                    rest.append(decimal_text(found.len() as u64).as_str());
                    rest.append(" candidates");
                    assert("Ambiguous skill name '"@ + (name@ + "': "@ + decimal(ids.len())
                        + " candidates"@) =~= "Ambiguous skill name '"@ + name@ + "': "@ + decimal(
                        ids.len(),
                    ) + " candidates"@);
                    return Err(
                        skill_error_reply("Ambiguous skill name '", rest.as_str()).with(
                            "candidates",
                            Json::texts(&names),
                        ),
                    );
                }
                let at: usize = found[0];
                assert(ids[0] == at);
                Ok(at)
            },
        }
    }

    /// The directory of a skill.
    pub fn root_of(&self, skill: &Skill) -> (r: String)
        ensures
            r@ == skill_root(skill@, self.skills_dir@),
    {
        match parent_text(skill.source_path.as_str()) {
            Some(dir) => dir,
            None => self.skills_dir.clone(),
        }
    }
}

// ---------------------------------------------------------------------
// Replies
// ---------------------------------------------------------------------

/// The reply that shows a skill whose file holds `text`.
pub open spec fn skill_reply(skill: SkillView, text: Seq<char>, linked: JsonView) -> JsonView {
    JsonView::object().with("success"@, JsonView::Bool(true)).with(
        "name"@,
        JsonView::Text(skill.name),
    ).with(
        "content"@,
        JsonView::Text(truncated(skill_body(text), MAX_SKILL_CHARS as nat)),
    ).with("description"@, JsonView::Text(skill.description)).with("linked_files"@, linked).with(
        "readiness_status"@,
        JsonView::Text("available"@),
    )
}

/// The reply that shows a skill, given its file or why that could not be
/// read.
pub open spec fn shown_skill(
    skill: SkillView,
    read: Result<Seq<u8>, Seq<char>>,
    linked: JsonView,
) -> JsonView {
    match read {
        Err(e) => skill_error("read SKILL.md failed: "@ + e),
        Ok(bytes) => skill_reply(skill, lossy_text(bytes), linked),
    }
}

/// The view of what reading a file gave.
pub open spec fn read_view(read: Result<Vec<u8>, String>) -> Result<Seq<u8>, Seq<char>> {
    match read {
        Ok(bytes) => Ok(bytes@),
        Err(e) => Err(e@),
    }
}

/// The reply that shows a skill whose file holds `text`.
pub fn show_skill_text(skill: &Skill, text: &str, linked: Json) -> (r: Json)
    ensures
        r@ == skill_reply(skill@, text@, linked@),
{
    let body = strip_frontmatter(text);
    let shown = truncate_output(body.as_str(), MAX_SKILL_CHARS);
    Json::object().with("success", Json::boolean(true)).with(
        "name",
        Json::text(skill.name.as_str()),
    ).with("content", Json::text(shown.as_str())).with(
        "description",
        Json::text(skill.description.as_str()),
    ).with("linked_files", linked).with("readiness_status", Json::text("available"))
}

/// The reply that shows a skill.
pub fn show_skill(skill: &Skill, read: &Result<Vec<u8>, String>, linked: Json) -> (r: Json)
    ensures
        r@ == shown_skill(skill@, read_view(*read), linked@),
{
    match read {
        Err(e) => skill_error_reply("read SKILL.md failed: ", e.as_str()),
        Ok(bytes) => {
            let text = decode_lossy(bytes.as_slice());
            show_skill_text(skill, text.as_str(), linked)
        },
    }
}

/// What is known of a file of a skill, with links followed.
pub enum LinkedProbe {
    RootFailed(String),
    Missing,
    Found { root: String, target: String, is_file: bool },
}

/// The reply if a file path is not to be looked at.
pub open spec fn path_refusal(file_path: Seq<char>) -> Option<JsonView> {
    if contains(file_path, ".."@) {
        Some(skill_error("file_path escapes skill directory: "@ + file_path))
    } else {
        None
    }
}

/// The reply if the file is not to be read.
pub open spec fn probe_refusal(file_path: Seq<char>, probe: LinkedProbe) -> Option<JsonView> {
    match probe {
        LinkedProbe::RootFailed(e) => Some(skill_error("canonicalize skill root failed: "@ + e@)),
        LinkedProbe::Missing => Some(skill_error("file_path not found: "@ + file_path)),
        LinkedProbe::Found { root, target, is_file } => if !is_within(target@, root@) {
            Some(skill_error("file_path escapes skill directory: "@ + file_path))
        } else if !is_file {
            Some(skill_error("file_path is not a regular file: "@ + file_path))
        } else {
            None
        },
    }
}

/// A file is read only if it lies in the skill's directory, with links
/// followed, and its path does not climb.
pub proof fn law_linked_files_stay_inside(file_path: Seq<char>, probe: LinkedProbe)
    requires
        path_refusal(file_path) is None,
        probe_refusal(file_path, probe) is None,
    ensures
        probe is Found,
        is_within(probe->target@, probe->root@),
        !contains(file_path, ".."@),
        probe->is_file,
{
}

/// The reply that shows a file of a skill; `target` is where it is.
pub open spec fn linked_reply(
    skill: SkillView,
    file_path: Seq<char>,
    target: Seq<char>,
    content: Seq<char>,
) -> JsonView {
    JsonView::object().with("success"@, JsonView::Bool(true)).with(
        "name"@,
        JsonView::Text(skill.name),
    ).with("file"@, JsonView::Text(file_path)).with("content"@, JsonView::Text(content)).with(
        "file_type"@,
        text_or_null(
            match extension(target) {
                Some(ext) => Some("."@ + ext),
                None => None,
            },
        ),
    ).with("description"@, JsonView::Text(skill.description))
}

pub fn refuse_path(file_path: &str) -> (r: Option<Json>)
    ensures
        match r {
            Some(j) => path_refusal(file_path@) == Some(j@),
            None => path_refusal(file_path@) is None,
        },
{
    if contains_text(file_path, "..") {
        Some(skill_error_reply("file_path escapes skill directory: ", file_path))
    } else {
        None
    }
}

pub fn refuse_probe(file_path: &str, probe: &LinkedProbe) -> (r: Option<Json>)
    ensures
        match r {
            Some(j) => probe_refusal(file_path@, *probe) == Some(j@),
            None => probe_refusal(file_path@, *probe) is None,
        },
{
    match probe {
        LinkedProbe::RootFailed(e) => Some(
            skill_error_reply("canonicalize skill root failed: ", e.as_str()),
        ),
        LinkedProbe::Missing => Some(skill_error_reply("file_path not found: ", file_path)),
        LinkedProbe::Found { root, target, is_file } => if !within(target.as_str(), root.as_str()) {
            Some(skill_error_reply("file_path escapes skill directory: ", file_path))
        } else if !*is_file {
            Some(skill_error_reply("file_path is not a regular file: ", file_path))
        } else {
            None
        },
    }
}

/// The reply that shows a file of a skill, given its text.
pub fn show_linked_text(skill: &Skill, file_path: &str, target: &str, content: &str) -> (r: Json)
    ensures
        r@ == linked_reply(skill@, file_path@, target@, content@),
{
    let kind = match extension_text(target) {
        Some(ext) => {
            let mut out = ".".to_owned();
            out.append(ext.as_str());
            Some(out)
        },
        None => None,
    };
    Json::object().with("success", Json::boolean(true)).with(
        "name",
        Json::text(skill.name.as_str()),
    ).with("file", Json::text(file_path)).with("content", Json::text(content)).with(
        "file_type",
        text_or_null_json(&kind),
    ).with("description", Json::text(skill.description.as_str()))
}

/// The reply that shows a file of a skill, given what reading it gave.
pub fn read_linked_file(
    skill: &Skill,
    file_path: &str,
    target: &str,
    read: &Result<Vec<u8>, String>,
) -> (r: Json)
    ensures
        r@ == match read_view(*read) {
            Err(e) => skill_error("read failed: "@ + e),
            Ok(bytes) => linked_reply(skill@, file_path@, target@, lossy_text(bytes)),
        },
{
    match read {
        Err(e) => skill_error_reply("read failed: ", e.as_str()),
        Ok(bytes) => {
            let content = decode_lossy(bytes.as_slice());
            show_linked_text(skill, file_path, target, content.as_str())
        },
    }
}

// ---------------------------------------------------------------------
// Laws
// ---------------------------------------------------------------------

proof fn lemma_find_in_front(f: Seq<char>, rest: Seq<char>, from: int)
    requires
        0 <= from < f.len(),
        f.last() == '\n',
    ensures
        find_char(f + rest, '\n', from) == find_char(f, '\n', from),
        find_char(f, '\n', from) < f.len(),
    decreases f.len() - from,
{
    assert((f + rest)[from] == f[from]);
    if f[from] != '\n' {
        assert(from < f.len() - 1);
        lemma_find_in_front(f, rest, from + 1);
    }
}

proof fn lemma_closing_behind(f: Seq<char>, body: Seq<char>, from: int)
    requires
        f.len() > 0,
        f.last() == '\n',
        0 <= from <= f.len(),
        closing_line(f, from) is None,
    ensures
        closing_line(f + "---\n"@ + body, from) == Some(f.len() as int),
    decreases f.len() - from,
{
    reveal_strlit("---\n");
    reveal_strlit("---");
    let rest = "---\n"@ + body;
    let s = f + "---\n"@ + body;
    assert(s =~= f + rest);
    if from < f.len() {
        lemma_find_in_front(f, rest, from);
        lemma_find_char(f, '\n', from);
        let n = find_char(f, '\n', from);
        assert(s.subrange(from, n) =~= f.subrange(from, n));
        lemma_closing_behind(f, body, n + 1);
    } else {
        let at = f.len() as int;
        assert(s[at] == '-' && s[at + 1] == '-' && s[at + 2] == '-' && s[at + 3] == '\n');
        assert(find_char(s, '\n', at + 3) == at + 3);
        assert(find_char(s, '\n', at + 2) == at + 3);
        assert(find_char(s, '\n', at + 1) == at + 3);
        assert(find_char(s, '\n', at) == at + 3);
        assert(s.subrange(at, at + 3) =~= "---"@);
        assert(without_returns("---"@) == "---"@);
    }
}

/// The body of a skill file is what stands behind its front matter: all of
/// it, but for blank lines in front. `front` is the front matter, with a
/// line feed at its end, and holds no line that would close it.
pub proof fn law_body_follows_the_front_matter(front: Seq<char>, body: Seq<char>)
    requires
        front.len() > 0,
        front.last() == '\n',
        closing_line(front, 0) is None,
        body.len() == 0 || (body[0] != '\n' && body[0] != '-'),
    ensures
        skill_body("---\n"@ + front + "---\n"@ + body) == body,
        skill_body("---\n"@ + front + "---\n\n"@ + body) == body,
{
    reveal_strlit("---\n");
    reveal_strlit("---\n\n");
    reveal_strlit("---");
    reveal_strlit("\u{feff}");
    lemma_body(front, body, body);
    let spaced = seq!['\n'] + body;
    assert("---\n"@ + front + "---\n\n"@ + body =~= "---\n"@ + front + "---\n"@ + spaced);
    assert(spaced.skip(1) =~= body);
    assert(without_leading_newlines(spaced) == without_leading_newlines(body));
    lemma_body(front, spaced, body);
}

proof fn lemma_body(front: Seq<char>, behind: Seq<char>, body: Seq<char>)
    requires
        front.len() > 0,
        front.last() == '\n',
        closing_line(front, 0) is None,
        body.len() == 0 || (body[0] != '\n' && body[0] != '-'),
        without_leading_newlines(behind) == without_leading_newlines(body),
    ensures
        skill_body("---\n"@ + front + "---\n"@ + behind) == body,
{
    reveal_strlit("---\n");
    reveal_strlit("---");
    reveal_strlit("\u{feff}");
    let text = "---\n"@ + front + "---\n"@ + behind;
    if starts_with(text, "\u{feff}"@) {
        assert(text.take(1)[0] == '-');
    }
    assert(without_mark(text) == text);
    assert(text.take(3) =~= "---"@);
    assert(find_char(text, '\n', 3) == 3);
    assert(find_char(text, '\n', 2) == 3);
    assert(find_char(text, '\n', 1) == 3);
    assert(find_char(text, '\n', 0) == 3);
    let after = text.skip(4);
    assert(after =~= front + "---\n"@ + behind);
    lemma_closing_behind(front, behind, 0);
    let at = front.len() as int;
    let tail = after.skip(at);
    assert(tail =~= "---\n"@ + behind);
    assert(tail.take(3) =~= seq!['-', '-', '-']);
    let open = tail.skip(3);
    assert(open =~= seq!['\n'] + behind);
    if starts_with(open, seq!['-', '-', '-']) {
        assert(open.take(3)[0] == '\n');
    }
    assert(without_dashes(open) == open);
    assert(without_dashes(tail) == open);
    assert(open.skip(1) =~= behind);
}

/// A file that does not start with front matter, or in which it is never
/// closed, is shown whole.
pub proof fn law_file_without_front_matter_is_all_body(text: Seq<char>)
    requires
        text.len() == 0 || text[0] != '\u{feff}',
    ensures
        text.len() == 0 || text[0] != '-' ==> skill_body(text) == text,
        closing_line(text.skip(find_char(text, '\n', 0) + 1), 0) is None ==> skill_body(text)
            == text,
{
    reveal_strlit("---");
    reveal_strlit("\u{feff}");
    if starts_with(text, "\u{feff}"@) {
        assert(text.take(1)[0] == '\u{feff}');
    }
    if starts_with(text, "---"@) {
        assert(text.take(3)[0] == '-');
    }
}

proof fn lemma_named_skills(skills: Seq<SkillView>, name: Seq<char>, n: int)
    requires
        0 <= n <= skills.len(),
    ensures
        forall|i: int|
            0 <= i < n && has_name(#[trigger] skills[i], name) ==> named_skills(
                skills,
                name,
                n,
            ).contains(i),
        forall|k: int|
            0 <= k < named_skills(skills, name, n).len() ==> 0 <= #[trigger] named_skills(
                skills,
                name,
                n,
            )[k] < n && has_name(skills[named_skills(skills, name, n)[k]], name),
        named_skills(skills, name, n).no_duplicates(),
    decreases n,
{
    if n > 0 {
        lemma_named_skills(skills, name, n - 1);
        let before = named_skills(skills, name, n - 1);
        let now = named_skills(skills, name, n);
        assert forall|i: int| 0 <= i < n && has_name(#[trigger] skills[i], name) implies now.contains(
            i,
        ) by {
            if i < n - 1 {
                assert(before.contains(i));
                let w = choose|w: int| 0 <= w < before.len() && before[w] == i;
                assert(now[w] == i);
            } else {
                assert(now[now.len() - 1] == i);
            }
        }
    }
}

/// A name that just one skill has means that skill; one that two have means
/// none, and neither does one that no skill has and no directory bears.
pub proof fn law_name_means_one_skill(
    skills: Vec<Skill>,
    direct_dir: bool,
    name: Seq<char>,
    skills_dir: Seq<char>,
    i: int,
    j: int,
)
    requires
        0 <= i < skills@.len(),
        0 <= j < skills@.len(),
    ensures
        ({
            let all = skill_views(skills@);
            let chosen = chosen_skill(SkillScan::Found { skills, direct_dir }, name, skills_dir);
            let named = |k: int| all[k].name == name || all[k].qualified_name == name;
            &&& named(i) && (forall|k: int|
                0 <= k < all.len() && k != i ==> (#[trigger] all[k]).name != name
                    && all[k].qualified_name != name) ==> chosen == Ok::<int, JsonView>(i)
            &&& named(i) && named(j) && i != j ==> chosen is Err
            &&& !direct_dir && (forall|k: int|
                0 <= k < all.len() ==> (#[trigger] all[k]).name != name && all[k].qualified_name
                    != name) ==> chosen is Err
            &&& chosen matches Ok(c) ==> 0 <= c < all.len() && (!direct_dir ==> named(c))
        }),
{
    let all = skill_views(skills@);
    let n = all.len() as int;
    lemma_named_skills(all, name, n);
    let found = named_skills(all, name, n);
    if has_name(all[i], name) {
        assert(found.contains(i));
        let w = choose|w: int| 0 <= w < found.len() && found[w] == i;
        if forall|k: int|
            0 <= k < all.len() && k != i ==> (#[trigger] all[k]).name != name
                && all[k].qualified_name != name {
            if found.len() > 1 {
                let x = if w == 0 {
                    1int
                } else {
                    0
                };
                assert(found[x] != found[w]);
                assert(has_name(all[found[x]], name));
            }
            assert(found[0] == i);
        }
        if has_name(all[j], name) && i != j {
            assert(found.contains(j));
            let v = choose|v: int| 0 <= v < found.len() && found[v] == j;
            assert(v != w);
        }
    }
    if found.len() > 0 {
        assert(has_name(all[found[0]], name));
    }
    lemma_skills_at(all, join_path(skills_dir, name), n);
}

proof fn lemma_skills_at(skills: Seq<SkillView>, direct: Seq<char>, n: int)
    requires
        0 <= n <= skills.len(),
    ensures
        forall|k: int|
            0 <= k < skills_at(skills, direct, n).len() ==> 0 <= #[trigger] skills_at(
                skills,
                direct,
                n,
            )[k] < n && lies_at(skills[skills_at(skills, direct, n)[k]], direct),
        forall|i: int|
            0 <= i < n && lies_at(#[trigger] skills[i], direct) ==> skills_at(
                skills,
                direct,
                n,
            ).contains(i),
        skills_at(skills, direct, n).no_duplicates(),
    decreases n,
{
    if n > 0 {
        lemma_skills_at(skills, direct, n - 1);
        let before = skills_at(skills, direct, n - 1);
        let now = skills_at(skills, direct, n);
        assert forall|i: int| 0 <= i < n && lies_at(#[trigger] skills[i], direct) implies now.contains(
            i,
        ) by {
            if i < n - 1 {
                assert(before.contains(i));
                let w = choose|w: int| 0 <= w < before.len() && before[w] == i;
                assert(now[w] == i);
            } else {
                assert(now[now.len() - 1] == i);
            }
        }
    }
}

/// A name that no skill has but that is a directory means the skill that
/// lies there, if there is just one.
pub proof fn law_directory_means_its_skill(
    skills: Vec<Skill>,
    name: Seq<char>,
    skills_dir: Seq<char>,
    i: int,
)
    requires
        0 <= i < skills@.len(),
        forall|k: int|
            0 <= k < skills@.len() ==> (#[trigger] skill_views(skills@)[k]).name != name
                && skill_views(skills@)[k].qualified_name != name,
    ensures
        chosen_skill(
            SkillScan::Found { skills, direct_dir: true },
            name,
            skills_dir,
        ) matches Ok(c) ==> 0 <= c < skills@.len() && lies_at(
            skill_views(skills@)[c],
            join_path(skills_dir, name),
        ),
        lies_at(skill_views(skills@)[i], join_path(skills_dir, name)) && (forall|k: int|
            0 <= k < skills@.len() && k != i ==> !lies_at(
                #[trigger] skill_views(skills@)[k],
                join_path(skills_dir, name),
            )) ==> chosen_skill(SkillScan::Found { skills, direct_dir: true }, name, skills_dir)
            == Ok::<int, JsonView>(i),
        chosen_skill(SkillScan::Found { skills, direct_dir: false }, name, skills_dir) is Err,
        chosen_skill(SkillScan::NoDir, name, skills_dir) is Err,
{
    let all = skill_views(skills@);
    let n = all.len() as int;
    lemma_named_skills(all, name, n);
    let found = named_skills(all, name, n);
    if found.len() > 0 {
        assert(has_name(all[found[0]], name));
        assert(all[found[0]].name == name || all[found[0]].qualified_name == name);
    }
    let direct = join_path(skills_dir, name);
    lemma_skills_at(all, direct, n);
    if lies_at(all[i], direct) && (forall|k: int|
        0 <= k < skills@.len() && k != i ==> !lies_at(#[trigger] all[k], direct)) {
        let there = skills_at(all, direct, n);
        assert(there.contains(i));
        let w = choose|w: int| 0 <= w < there.len() && there[w] == i;
        if there.len() > 1 {
            let x = if w == 0 {
                1int
            } else {
                0
            };
            assert(there[x] != there[w]);
            assert(lies_at(all[there[x]], direct));
        }
    }
}

proof fn lemma_reply_words()
    ensures
        "success"@ != "name"@,
        "success"@ != "content"@,
        "success"@ != "description"@,
        "success"@ != "linked_files"@,
        "success"@ != "readiness_status"@,
        "success"@ != "file"@,
        "success"@ != "file_type"@,
        "success"@ != "error"@,
        "name"@ != "content"@,
        "name"@ != "description"@,
        "name"@ != "linked_files"@,
        "name"@ != "readiness_status"@,
        "name"@ != "file"@,
        "name"@ != "file_type"@,
        "content"@ != "description"@,
        "content"@ != "linked_files"@,
        "content"@ != "readiness_status"@,
        "content"@ != "file"@,
        "content"@ != "file_type"@,
        "description"@ != "linked_files"@,
        "description"@ != "readiness_status"@,
        "description"@ != "file_type"@,
        "linked_files"@ != "readiness_status"@,
        "file"@ != "description"@,
        "file"@ != "file_type"@,
        "error"@ != "content"@,
{
    reveal_strlit("success");
    reveal_strlit("name");
    reveal_strlit("content");
    reveal_strlit("description");
    reveal_strlit("linked_files");
    reveal_strlit("readiness_status");
    reveal_strlit("file");
    reveal_strlit("file_type");
    reveal_strlit("error");
    assert("success"@.len() == 7 && "name"@.len() == 4 && "content"@.len() == 7
        && "description"@.len() == 11 && "linked_files"@.len() == 12 && "readiness_status"@.len()
        == 16 && "file"@.len() == 4 && "file_type"@.len() == 9 && "error"@.len() == 5);
    assert("success"@[0] == 's' && "content"@[0] == 'c' && "name"@[0] == 'n' && "file"@[0] == 'f');
}

/// A skill is shown with its name, its description, its files and its whole
/// body, if that is not too long.
pub proof fn law_skill_is_shown_whole(skill: SkillView, text: Seq<char>, linked: JsonView)
    ensures
        ({
            let reply = skill_reply(skill, text, linked);
            &&& reply.flag_at("success"@)
            &&& reply.text_at("name"@) == Some(skill.name)
            &&& reply.text_at("description"@) == Some(skill.description)
            &&& reply.get("linked_files"@) == Some(linked)
            &&& skill_body(text).len() <= 100_000 ==> reply.text_at("content"@) == Some(
                skill_body(text),
            )
            &&& skill_body(text).len() > 100_000 ==> reply.text_at("content"@) == Some(
                truncated(skill_body(text), 100_000),
            )
        }),
{
    lemma_reply_words();
}

/// A file of a skill is shown whole, with the path that was asked for; what
/// could not be read is an error.
pub proof fn law_linked_file_is_shown_whole(
    skill: SkillView,
    file_path: Seq<char>,
    target: Seq<char>,
    content: Seq<char>,
    e: Seq<char>,
    linked: JsonView,
)
    ensures
        ({
            let reply = linked_reply(skill, file_path, target, content);
            &&& reply.flag_at("success"@)
            &&& reply.text_at("name"@) == Some(skill.name)
            &&& reply.text_at("file"@) == Some(file_path)
            &&& reply.text_at("content"@) == Some(content)
            &&& extension(target) matches Some(ext) ==> reply.text_at("file_type"@) == Some(
                "."@ + ext,
            )
            &&& extension(target) is None ==> reply.get("file_type"@) == Some(JsonView::Null)
        }),
        !shown_skill(skill, Err(e), linked).flag_at("success"@),
        shown_skill(skill, Err(e), linked).text_at("error"@) == Some(
            "read SKILL.md failed: "@ + e,
        ),
{
    lemma_reply_words();
}

/// A file that lies in the skill, and whose path does not climb, is read; a
/// path that climbs, a file elsewhere and what is no file are refused.
pub proof fn law_linked_files_are_refused_outside(
    file_path: Seq<char>,
    root: String,
    target: String,
    is_file: bool,
    a: Seq<char>,
    b: Seq<char>,
)
    ensures
        probe_refusal(file_path, LinkedProbe::Found { root, target, is_file }) is None
            <==> is_within(target@, root@) && is_file,
        probe_refusal(file_path, LinkedProbe::Missing) is Some,
        path_refusal(a + ".."@ + b) is Some,
        crate::text::find_from(file_path, ".."@, 0) is None ==> path_refusal(file_path) is None,
{
    let p = a + ".."@ + b;
    crate::text::lemma_find_from(p, ".."@, 0);
    let at = a.len() as int;
    assert(p.subrange(at, at + ".."@.len()) =~= ".."@);
}

/// A call names a skill, and perhaps a file of it; without a name it is an
/// error, and a name with a colon is not looked up.
pub proof fn law_skill_call_is_taken_as_given(args: JsonView)
    ensures
        skill_plan(args) is Err <==> args.text_at("name"@) is None,
        skill_plan(args) matches Ok(SkillPlanView::Show(r)) ==> args.text_at("name"@) == Some(
            r.name,
        ) && r.file_path == args.text_at("file_path"@) && !contains(r.name, ":"@),
        args.text_at("name"@) matches Some(n) ==> (!contains(n, ":"@) ==> (skill_plan(args)
            matches Ok(SkillPlanView::Show(_)))),
{
}

/// The directory of a skill is the one that its file lies in.
pub proof fn law_skill_lies_beside_its_file(
    skill: SkillView,
    skills_dir: Seq<char>,
    d: Seq<char>,
    dir: Seq<char>,
    name: Seq<char>,
)
    requires
        d.len() == 0 || d.last() == '/',
        crate::path::is_plain_name(dir),
        crate::path::is_plain_name(name),
        skill.source_path == join_path(d + dir, name),
    ensures
        skill_root(skill, skills_dir) == d + dir,
{
    crate::path::law_last_component(d, dir, name);
}

/// Front matter is closed by the first line that is `---`, but for carriage
/// returns behind it; it is not closed if there is no such line.
pub proof fn law_dashes_close_the_front_matter(s: Seq<char>, from: int)
    requires
        0 <= from <= s.len(),
        from == 0 || s[from - 1] == '\n',
    ensures
        ({
            let line = |i: int| s.subrange(i, find_char(s, '\n', i));
            let starts = |i: int| i == 0 || s[i - 1] == '\n';
            &&& closing_line(s, from) matches Some(at) ==> {
                &&& from <= at < s.len()
                &&& starts(at)
                &&& without_returns(line(at)) == "---"@
                &&& forall|i: int|
                    from <= i < at && #[trigger] starts(i) ==> without_returns(line(i)) != "---"@
            }
            &&& closing_line(s, from) is None ==> forall|i: int|
                from <= i < s.len() && #[trigger] starts(i) ==> without_returns(line(i)) != "---"@
        }),
    decreases s.len() - from,
{
    let line = |i: int| s.subrange(i, find_char(s, '\n', i));
    let starts = |i: int| i == 0 || s[i - 1] == '\n';
    if from < s.len() {
        lemma_find_char(s, '\n', from);
        let n = find_char(s, '\n', from);
        assert(starts(from));
        if without_returns(line(from)) != "---"@ {
            let end = if n < s.len() {
                law_dashes_close_the_front_matter(s, n + 1);
                n + 1
            } else {
                n
            };
            assert forall|i: int| from <= i < end && #[trigger] starts(i) implies without_returns(
                line(i),
            ) != "---"@ by {
                if i > from {
                    assert(s[i - 1] != '\n');
                }
            }
        }
    }
}

/// Carriage returns at the end of a line do not count, and nothing else is
/// taken from it.
pub proof fn law_returns_are_taken_from_the_end(s: Seq<char>)
    ensures
        without_returns(s).is_prefix_of(s),
        without_returns(s).len() > 0 ==> without_returns(s).last() != '\r',
        forall|i: int| without_returns(s).len() <= i < s.len() ==> s[i] == '\r',
    decreases s.len(),
{
    if s.len() > 0 && s.last() == '\r' {
        law_returns_are_taken_from_the_end(s.drop_last());
        let t = without_returns(s);
        assert(t =~= s.take(t.len() as int)) by {
            assert(t == s.drop_last().take(t.len() as int));
        }
        assert forall|i: int| t.len() <= i < s.len() implies s[i] == '\r' by {
            if i < s.len() - 1 {
                assert(s.drop_last()[i] == '\r');
            }
        }
    } else {
        assert(s =~= s.take(s.len() as int));
    }
}

/// A byte order mark in front of a skill file does not count.
pub proof fn law_mark_does_not_count(text: Seq<char>)
    requires
        text.len() == 0 || text[0] != '\u{feff}',
    ensures
        skill_body(seq!['\u{feff}'] + text) == skill_body(text) || skill_body(text) == text,
        without_mark(seq!['\u{feff}'] + text) == text,
        without_mark(text) == text,
{
    reveal_strlit("\u{feff}");
    let mark = "\u{feff}"@;
    let whole = seq!['\u{feff}'] + text;
    assert(mark =~= seq!['\u{feff}']);
    assert(whole.take(1) =~= mark);
    assert(whole.skip(1) =~= text);
    if starts_with(text, mark) {
        assert(text.take(1)[0] == '\u{feff}');
    }
}

/// A skill lies in the directory of its file, and in no other that does not
/// bear its name.
pub proof fn law_skill_lies_where_its_file_is(
    skill: SkillView,
    d: Seq<char>,
    dir: Seq<char>,
    name: Seq<char>,
    other: Seq<char>,
)
    requires
        d.len() == 0 || d.last() == '/',
        crate::path::is_plain_name(dir),
        crate::path::is_plain_name(name),
        skill.source_path == join_path(d + dir, name),
    ensures
        lies_at(skill, d + dir),
        !same_path(d + dir, d + other) && crate::path::is_plain_name(other) && skill.name != other
            ==> !lies_at(skill, d + other),
{
    crate::path::law_last_component(d, dir, name);
    if crate::path::is_plain_name(other) {
        crate::path::law_last_component(d, other, name);
    }
}

/// What is not shown is told with what was asked for: the skill that is not
/// found or not clear, the directory that is not there, the file that is
/// refused.
pub proof fn law_refusals_name_what_was_asked(
    skills: Vec<Skill>,
    direct_dir: bool,
    name: Seq<char>,
    skills_dir: Seq<char>,
    e: String,
    file_path: Seq<char>,
    probe: LinkedProbe,
)
    ensures
        ({
            let said = |r: JsonView, t: Seq<char>|
                !r.flag_at("success"@) && r.text_at("error"@) is Some
                    && crate::context::summary::holds(r.text_at("error"@)->0, t);
            &&& chosen_skill(
                SkillScan::Found { skills, direct_dir },
                name,
                skills_dir,
            ) matches Err(r) ==> said(r, name)
            &&& chosen_skill(SkillScan::NoDir, name, skills_dir) matches Err(r) ==> said(
                r,
                skills_dir,
            )
            &&& chosen_skill(SkillScan::Failed(e), name, skills_dir) matches Err(r) ==> said(r, e@)
            &&& path_refusal(file_path) matches Some(r) ==> said(r, file_path)
            &&& !(probe is RootFailed) ==> (probe_refusal(file_path, probe) matches Some(r) ==> said(
                r,
                file_path,
            ))
            &&& probe_refusal(file_path, LinkedProbe::RootFailed(e)) matches Some(r) && said(r, e@)
        }),
{
    lemma_reply_words();
    reveal_strlit("available_skills");
    reveal_strlit("candidates");
    reveal_strlit("success");
    reveal_strlit("error");
    assert("available_skills"@.len() == 16 && "candidates"@.len() == 10 && "success"@.len() == 7
        && "error"@.len() == 5);
    let none = Seq::<char>::empty();
    let all = skill_views(skills@);
    let found = candidates(all, name, skills_dir, direct_dir);
    crate::context::summary::lemma_holds("Skill '"@, name, "' not found"@);
    let n = decimal(found.len());
    crate::context::summary::lemma_holds(
        "Ambiguous skill name '"@,
        name,
        "': "@ + n + " candidates"@,
    );
    assert("Ambiguous skill name '"@ + name + ("': "@ + n + " candidates"@)
        =~= "Ambiguous skill name '"@ + name + "': "@ + n + " candidates"@);
    crate::context::summary::lemma_holds("Skills directory does not exist: "@, skills_dir, none);
    crate::context::summary::lemma_holds("scan failed: "@, e@, none);
    crate::context::summary::lemma_holds("file_path escapes skill directory: "@, file_path, none);
    crate::context::summary::lemma_holds("file_path not found: "@, file_path, none);
    crate::context::summary::lemma_holds("file_path is not a regular file: "@, file_path, none);
    crate::context::summary::lemma_holds("canonicalize skill root failed: "@, e@, none);
}

/// A skill lies in a directory that bears its name.
pub proof fn law_skill_lies_where_its_name_is(skill: SkillView, d: Seq<char>, name: Seq<char>)
    requires
        d.len() == 0 || d.last() == '/',
        crate::path::is_plain_name(name),
        skill.name == name,
    ensures
        lies_at(skill, d + name),
{
    crate::path::law_last_component(d, name, name);
}

} // verus!
