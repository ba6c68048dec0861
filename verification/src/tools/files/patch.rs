//! `PatchTool`: targeted edits and multi-file patches.
//!
//! Mode `replace` edits one file by a find-and-replace that must be
//! unique. Mode `patch` applies a patch body that adds, updates, deletes
//! and moves files:
//!
//! ```text
//! *** Begin Patch
//! *** Update File: notes.txt
//! @@
//!  context line
//! -removed line
//! +added line
//! *** End Patch
//! ```

use vstd::prelude::*;
use vstd::string::*;

use crate::json::{model, models, text_array, Json, JsonView};
use crate::path::{parent, parent_text};
use crate::text::{
    chars_of, count_from, count_text, decimal, decimal_text, find_char, find_from, holds_text, join,
    join_text, lemma_find_char, lemma_find_from, lines, lines_text, replace_first,
    replace_first_text, replace_from, replace_text, same, split, split_from, split_inclusive,
    split_inclusive_text, split_text, starts_with, starts_with_text, strip_prefix,
    strip_prefix_text, trim, trim_start, trim_start_text, trim_text, views,
};
use crate::tool::{error_json, error_reply, error_reply2, opt_view, Environment, EnvironmentView};
use crate::tools::files::outcome::{FileText, FileTextView, Stored, StoredView};
use crate::tools::files::policy::{
    is_internal_file_status_text, is_status_text, refuse_write, temp_path, temp_sibling,
    write_refusal,
};
use crate::tools::support::path::{resolve_user_path, resolved};
use crate::tools::support::schema::{
    choice, choice_param, flag, flag_param, object_schema, object_schema_json, typed,
    typed_param, words1, words2,
};

verus! {

// ---------------------------------------------------------------------
// Patch bodies
// ---------------------------------------------------------------------

/// What an operation does.
#[derive(Clone, Copy, Debug, PartialEq, Eq, Structural)]
pub enum OpKind {
    Add,
    Update,
    Delete,
    Move,
}

pub open spec fn kind_name(k: OpKind) -> Seq<char> {
    match k {
        OpKind::Add => "add"@,
        OpKind::Update => "update"@,
        OpKind::Delete => "delete"@,
        OpKind::Move => "move"@,
    }
}

impl OpKind {
    pub fn kind_str(&self) -> (r: &'static str)
        ensures
            r@ == kind_name(*self),
    {
        match self {
            OpKind::Add => "add",
            OpKind::Update => "update",
            OpKind::Delete => "delete",
            OpKind::Move => "move",
        }
    }
}

/// One place of a file to change.
pub struct Hunk {
    /// Lines that must stand in the file one after the other: the context
    /// and the removed lines.
    pub search: Vec<String>,
    /// Lines that take their place: the context and the added lines.
    pub replace: Vec<String>,
}

#[verifier::ext_equal]
pub ghost struct HunkView {
    pub search: Seq<Seq<char>>,
    pub replace: Seq<Seq<char>>,
}

impl View for Hunk {
    type V = HunkView;

    open spec fn view(&self) -> HunkView {
        HunkView { search: views(self.search@), replace: views(self.replace@) }
    }
}

/// One operation of a patch.
pub struct V4aOp {
    pub kind: OpKind,
    pub path: String,
    /// For `Add`, the content of the new file.
    pub body: String,
    /// For `Update`, the changes, in order.
    pub hunks: Vec<Hunk>,
    /// For `Move`, where the file goes.
    pub move_to: Option<String>,
}

#[verifier::ext_equal]
pub ghost struct OpView {
    pub kind: OpKind,
    pub path: Seq<char>,
    pub body: Seq<char>,
    pub hunks: Seq<HunkView>,
    pub move_to: Option<Seq<char>>,
}

pub open spec fn hunk_views(hunks: Seq<Hunk>) -> Seq<HunkView> {
    Seq::new(hunks.len(), |i: int| hunks[i]@)
}

impl View for V4aOp {
    type V = OpView;

    open spec fn view(&self) -> OpView {
        OpView {
            kind: self.kind,
            path: self.path@,
            body: self.body@,
            hunks: hunk_views(self.hunks@),
            move_to: opt_view(self.move_to),
        }
    }
}

pub open spec fn op_views(ops: Seq<V4aOp>) -> Seq<OpView> {
    Seq::new(ops.len(), |i: int| ops[i]@)
}

/// A line that ends the patch: `*** End Patch` or `*** End of Patch`, with
/// anything behind it.
pub open spec fn is_end_marker(line: Seq<char>) -> bool {
    match strip_prefix(line, "*** End"@) {
        Some(rest) => starts_with(trim_start(rest), "Patch"@) || starts_with(
            trim_start(rest),
            "of Patch"@,
        ),
        None => false,
    }
}

pub fn is_v4a_end_marker(trimmed: &str) -> (r: bool)
    ensures
        r == is_end_marker(trimmed@),
{
    match strip_prefix_text(trimmed, "*** End") {
        Some(rest) => {
            let after = trim_start_text(rest.as_str());
            starts_with_text(after.as_str(), "Patch") || starts_with_text(
                after.as_str(),
                "of Patch",
            )
        },
        None => false,
    }
}

/// A line that starts an operation: its kind and the path it names.
pub open spec fn directive(line: Seq<char>) -> Option<(OpKind, Seq<char>)> {
    match strip_prefix(line, "*** Add File:"@) {
        Some(rest) => Some((OpKind::Add, trim(rest))),
        None => match strip_prefix(line, "*** Update File:"@) {
            Some(rest) => Some((OpKind::Update, trim(rest))),
            None => match strip_prefix(line, "*** Delete File:"@) {
                Some(rest) => Some((OpKind::Delete, trim(rest))),
                None => match strip_prefix(line, "*** Move File:"@) {
                    Some(rest) => Some((OpKind::Move, trim(rest))),
                    None => None,
                },
            },
        },
    }
}

fn read_directive(line: &str) -> (r: Option<(OpKind, String)>)
    ensures
        match r {
            Some(d) => directive(line@) == Some((d.0, d.1@)),
            None => directive(line@) is None,
        },
{
    if let Some(rest) = strip_prefix_text(line, "*** Add File:") {
        return Some((OpKind::Add, trim_text(rest.as_str())));
    }
    if let Some(rest) = strip_prefix_text(line, "*** Update File:") {
        return Some((OpKind::Update, trim_text(rest.as_str())));
    }
    if let Some(rest) = strip_prefix_text(line, "*** Delete File:") {
        return Some((OpKind::Delete, trim_text(rest.as_str())));
    }
    if let Some(rest) = strip_prefix_text(line, "*** Move File:") {
        return Some((OpKind::Move, trim_text(rest.as_str())));
    }
    None
}

/// A fresh operation.
pub open spec fn new_op(kind: OpKind, path: Seq<char>) -> OpView {
    OpView { kind, path, body: Seq::empty(), hunks: Seq::empty(), move_to: None }
}

/// `hunk` with one more line: ` ` keeps, `-` removes and `+` adds what
/// follows; an empty line keeps an empty line.
pub open spec fn hunk_line(hunk: HunkView, line: Seq<char>) -> Option<HunkView> {
    if line.len() == 0 {
        Some(
            HunkView {
                search: hunk.search.push(Seq::empty()),
                replace: hunk.replace.push(Seq::empty()),
            },
        )
    } else if line[0] == ' ' {
        Some(
            HunkView {
                search: hunk.search.push(line.skip(1)),
                replace: hunk.replace.push(line.skip(1)),
            },
        )
    } else if line[0] == '-' {
        Some(HunkView { search: hunk.search.push(line.skip(1)), ..hunk })
    } else if line[0] == '+' {
        Some(HunkView { replace: hunk.replace.push(line.skip(1)), ..hunk })
    } else {
        None
    }
}

/// `op` with one more line of its body.
pub open spec fn body_line(op: OpView, line: Seq<char>) -> Result<OpView, Seq<char>> {
    match op.kind {
        OpKind::Add => if line.len() == 0 {
            Ok(OpView { body: op.body.push('\n'), ..op })
        } else if line[0] == '+' {
            Ok(OpView { body: (op.body + line.skip(1)).push('\n'), ..op })
        } else {
            Err("Add File body lines must start with '+'"@)
        },
        OpKind::Update => if trim_start(line) == "@@"@ {
            Ok(
                OpView {
                    hunks: op.hunks.push(
                        HunkView { search: Seq::empty(), replace: Seq::empty() },
                    ),
                    ..op
                },
            )
        } else if op.hunks.len() == 0 {
            Err("Update File requires '@@' marker before hunks"@)
        } else {
            match hunk_line(op.hunks.last(), line) {
                Some(h) => Ok(OpView { hunks: op.hunks.drop_last().push(h), ..op }),
                None => Err("Update File hunk lines must start with ' ', '-', or '+'"@),
            }
        },
        OpKind::Delete | OpKind::Move => Err(
            "Unexpected body line for "@ + kind_name(op.kind) + " op: "@ + line,
        ),
    }
}

/// The operations so far, with the one being read.
#[verifier::ext_equal]
pub ghost struct ParseState {
    pub ops: Seq<OpView>,
    pub current: Option<OpView>,
}

impl ParseState {
    /// All operations, the one being read as the last.
    pub open spec fn closed(self) -> Seq<OpView> {
        match self.current {
            Some(op) => self.ops.push(op),
            None => self.ops,
        }
    }
}

/// The state after one more line.
pub open spec fn read_line(st: ParseState, line: Seq<char>) -> Result<ParseState, Seq<char>> {
    let t = trim_start(line);
    match directive(t) {
        Some((kind, path)) => Ok(
            ParseState { ops: st.closed(), current: Some(new_op(kind, path)) },
        ),
        None => match strip_prefix(t, "*** Move to:"@) {
            Some(rest) => match st.current {
                Some(op) => if op.kind == OpKind::Move {
                    Ok(
                        ParseState {
                            current: Some(OpView { move_to: Some(trim(rest)), ..op }),
                            ..st
                        },
                    )
                } else {
                    Err("'*** Move to:' must follow a '*** Move File:'"@)
                },
                None => Err("'*** Move to:' must follow a '*** Move File:'"@),
            },
            None => match st.current {
                Some(op) => match body_line(op, line) {
                    Ok(next) => Ok(ParseState { current: Some(next), ..st }),
                    Err(e) => Err(e),
                },
                None => Err("Unexpected line in patch: "@ + line),
            },
        },
    }
}

/// The operations that the lines from `i` on lead to.
pub open spec fn read_lines(st: ParseState, all: Seq<Seq<char>>, i: int) -> Result<
    Seq<OpView>,
    Seq<char>,
>
    decreases all.len() - i,
{
    if i >= all.len() || is_end_marker(trim_start(all[i])) {
        if st.closed().len() == 0 {
            Err("patch body contained no operations"@)
        } else {
            Ok(st.closed())
        }
    } else {
        match read_line(st, all[i]) {
            Ok(next) => read_lines(next, all, i + 1),
            Err(e) => Err(e),
        }
    }
}

/// The operations of a patch body.
pub open spec fn parsed(body: Seq<char>) -> Result<Seq<OpView>, Seq<char>> {
    let all = lines(body);
    if all.len() == 0 {
        Err("empty patch body"@)
    } else if !starts_with(trim_start(all[0]), "*** Begin Patch"@) {
        Err("patch must start with '*** Begin Patch'"@)
    } else {
        read_lines(ParseState { ops: Seq::empty(), current: None }, all, 1)
    }
}

fn push_hunk_line(hunk: Hunk, line: &str) -> (r: Option<Hunk>)
    ensures
        match r {
            Some(h) => hunk_line(hunk@, line@) == Some(h@),
            None => hunk_line(hunk@, line@) is None,
        },
{
    let cs = chars_of(line);
    let Hunk { mut search, mut replace } = hunk;
    let ghost s0 = views(search@);
    let ghost r0 = views(replace@);
    if cs.len() == 0 {
        search.push(String::new());
        replace.push(String::new());
        assert(views(search@) =~= s0.push(Seq::empty()));
        assert(views(replace@) =~= r0.push(Seq::empty()));
        return Some(Hunk { search, replace });
    }
    let rest = crate::text::skip_text(line, 1);
    let c = cs[0];
    if c == ' ' {
        search.push(rest.clone());
        replace.push(rest);
        assert(views(search@) =~= s0.push(line@.skip(1)));
        assert(views(replace@) =~= r0.push(line@.skip(1)));
        Some(Hunk { search, replace })
    } else if c == '-' {
        search.push(rest);
        assert(views(search@) =~= s0.push(line@.skip(1)));
        Some(Hunk { search, replace })
    } else if c == '+' {
        replace.push(rest);
        assert(views(replace@) =~= r0.push(line@.skip(1)));
        Some(Hunk { search, replace })
    } else {
        None
    }
}

/// The view of a result.
pub open spec fn op_result(r: Result<V4aOp, String>) -> Result<OpView, Seq<char>> {
    match r {
        Ok(op) => Ok(op@),
        Err(e) => Err(e@),
    }
}

fn push_body_line(op: V4aOp, line: &str) -> (r: Result<V4aOp, String>)
    ensures
        op_result(r) == body_line(op@, line@),
{
    let cs = chars_of(line);
    let mut op = op;
    match op.kind {
        OpKind::Add => {
            if cs.len() == 0 {
                op.body.push('\n');
                Ok(op)
            } else if cs[0] == '+' {
                let rest = crate::text::skip_text(line, 1);
                op.body.append(rest.as_str());
                op.body.push('\n');
                Ok(op)
            } else {
                Err("Add File body lines must start with '+'".to_owned())
            }
        },
        OpKind::Update => {
            let ghost before = op@;
            if same(trim_start_text(line).as_str(), "@@") {
                let fresh = Hunk { search: Vec::new(), replace: Vec::new() };
                assert(fresh@ =~= HunkView { search: Seq::empty(), replace: Seq::empty() });
                op.hunks.push(fresh);
                assert(op@.hunks =~= before.hunks.push(fresh@));
                return Ok(op);
            }
            match op.hunks.pop() {
                None => Err("Update File requires '@@' marker before hunks".to_owned()),
                Some(last) => {
                    assert(last@ == before.hunks.last());
                    assert(op@.hunks =~= before.hunks.drop_last());
                    match push_hunk_line(last, line) {
                        Some(h) => {
                            op.hunks.push(h);
                            assert(op@.hunks =~= before.hunks.drop_last().push(h@));
                            Ok(op)
                        },
                        None => Err(
                            "Update File hunk lines must start with ' ', '-', or '+'".to_owned(),
                        ),
                    }
                },
            }
        },
        OpKind::Delete | OpKind::Move => {
            let mut out = "Unexpected body line for ".to_owned();
            out.append(op.kind.kind_str());
            out.append(" op: ");
            out.append(line);
            Err(out)
        },
    }
}

/// The state that executable values stand for.
pub open spec fn state_of(ops: Seq<V4aOp>, current: Option<V4aOp>) -> ParseState {
    ParseState {
        ops: op_views(ops),
        current: match current {
            Some(op) => Some(op@),
            None => None,
        },
    }
}

fn close_op(ops: Vec<V4aOp>, current: Option<V4aOp>) -> (r: Vec<V4aOp>)
    ensures
        op_views(r@) == state_of(ops@, current).closed(),
{
    let mut ops = ops;
    let ghost before = op_views(ops@);
    match current {
        Some(op) => {
            ops.push(op);
            assert(op_views(ops@) =~= before.push(op@));
        },
        None => {},
    }
    ops
}

fn take_line(ops: Vec<V4aOp>, current: Option<V4aOp>, line: &str) -> (r: Result<
    (Vec<V4aOp>, Option<V4aOp>),
    String,
>)
    ensures
        match r {
            Ok(next) => read_line(state_of(ops@, current), line@) == Ok::<ParseState, Seq<char>>(
                state_of(next.0@, next.1),
            ),
            Err(e) => read_line(state_of(ops@, current), line@) == Err::<ParseState, Seq<char>>(e@),
        },
{
    let trimmed = trim_start_text(line);
    let t = trimmed.as_str();
    if let Some((kind, path)) = read_directive(t) {
        let done = close_op(ops, current);
        let op = V4aOp { kind, path, body: String::new(), hunks: Vec::new(), move_to: None };
        proof {
            assert(op@ =~= new_op(kind, path@));
        }
        return Ok((done, Some(op)));
    }
    if let Some(rest) = strip_prefix_text(t, "*** Move to:") {
        return match current {
            Some(op) => {
                let mut op = op;
                if op.kind == OpKind::Move {
                    op.move_to = Some(trim_text(rest.as_str()));
                    Ok((ops, Some(op)))
                } else {
                    Err("'*** Move to:' must follow a '*** Move File:'".to_owned())
                }
            },
            None => Err("'*** Move to:' must follow a '*** Move File:'".to_owned()),
        };
    }
    match current {
        Some(op) => match push_body_line(op, line) {
            Ok(next) => Ok((ops, Some(next))),
            Err(e) => Err(e),
        },
        None => {
            let mut out = "Unexpected line in patch: ".to_owned();
            out.append(line);
            Err(out)
        },
    }
}

/// Reads a patch body.
pub fn parse_v4a(body: &str) -> (r: Result<Vec<V4aOp>, String>)
    ensures
        match r {
            Ok(ops) => parsed(body@) == Ok::<Seq<OpView>, Seq<char>>(op_views(ops@)),
            Err(e) => parsed(body@) == Err::<Seq<OpView>, Seq<char>>(e@),
        },
{
    let all = lines_text(body);
    let ghost spec_lines = lines(body@);
    if all.len() == 0 {
        assert(views(all@).len() == 0);
        return Err("empty patch body".to_owned());
    }
    assert(views(all@)[0] == all@[0]@);
    if !starts_with_text(trim_start_text(all[0].as_str()).as_str(), "*** Begin Patch") {
        return Err("patch must start with '*** Begin Patch'".to_owned());
    }
    let mut ops: Vec<V4aOp> = Vec::new();
    let mut current: Option<V4aOp> = None;
    let mut i: usize = 1;
    assert(state_of(ops@, current) =~= ParseState { ops: Seq::empty(), current: None });
    while i < all.len()
        invariant
            1 <= i <= all@.len(),
            views(all@) == spec_lines,
            spec_lines == lines(body@),
            parsed(body@) == read_lines(state_of(ops@, current), spec_lines, i as int),
        ensures
            i >= spec_lines.len() || is_end_marker(trim_start(spec_lines[i as int])),
        decreases all.len() - i,
    {
        let line = all[i].as_str();
        assert(spec_lines[i as int] == line@);
        if is_v4a_end_marker(trim_start_text(line).as_str()) {
            break;
        }
        match take_line(ops, current, line) {
            Ok(next) => {
                ops = next.0;
                current = next.1;
            },
            Err(e) => {
                return Err(e);
            },
        }
        i += 1;
    }
    let done = close_op(ops, current);
    if done.len() == 0 {
        return Err("patch body contained no operations".to_owned());
    }
    Ok(done)
}

// ---------------------------------------------------------------------
// Applying hunks
// ---------------------------------------------------------------------

/// The lines of a text; what follows a last line feed is no line.
pub open spec fn text_lines(text: Seq<char>) -> Seq<Seq<char>> {
    if ends_with_newline(text) {
        split(text, '\n').drop_last()
    } else {
        split(text, '\n')
    }
}

pub open spec fn ends_with_newline(text: Seq<char>) -> bool {
    text.len() > 0 && text.last() == '\n'
}

/// The text with the given lines, which ends in a line feed if `newline`.
pub open spec fn lines_joined(all: Seq<Seq<char>>, newline: bool) -> Seq<char> {
    if newline {
        join(all, "\n"@).push('\n')
    } else {
        join(all, "\n"@)
    }
}

/// `all` with the lines at `at` that `hunk` looks for replaced.
pub open spec fn spliced(all: Seq<Seq<char>>, hunk: HunkView, at: int) -> Seq<Seq<char>> {
    all.take(at) + hunk.replace + all.skip(at + hunk.search.len())
}

/// The start of what is said of the hunk with index `k`.
pub open spec fn hunk_label(k: int, path: Seq<char>) -> Seq<char> {
    "hunk #"@ + decimal((k + 1) as nat) + " for '"@ + path
}

/// The lines after one hunk, if the place it means is clear.
pub open spec fn hunk_applied(
    all: Seq<Seq<char>>,
    hunk: HunkView,
    k: int,
    path: Seq<char>,
) -> Result<Seq<Seq<char>>, Seq<char>> {
    let n = count_from(all, hunk.search, 0);
    if hunk.search.len() == 0 {
        Err(
            hunk_label(k, path)
                + "' has no search context (every line is '+'); include a context (' ') or deletion ('-') line to anchor the position"@,
        )
    } else if n == 0 {
        Err(
            hunk_label(k, path)
                + "' did not apply: search text not found in file. Re-read the file to confirm current contents, or include more context lines."@,
        )
    } else if n > 1 {
        Err(
            hunk_label(k, path) + "' matched "@ + decimal(n)
                + " locations. Add more context lines to make the match unique."@,
        )
    } else {
        Ok(spliced(all, hunk, find_from(all, hunk.search, 0)->0))
    }
}

/// The lines after the hunks from `k` on, each applied to what the one
/// before it left.
pub open spec fn hunks_applied(
    all: Seq<Seq<char>>,
    hunks: Seq<HunkView>,
    k: int,
    path: Seq<char>,
) -> Result<Seq<Seq<char>>, Seq<char>>
    decreases hunks.len() - k,
{
    if k >= hunks.len() {
        Ok(all)
    } else {
        match hunk_applied(all, hunks[k], k, path) {
            Ok(next) => hunks_applied(next, hunks, k + 1, path),
            Err(e) => Err(e),
        }
    }
}

/// The text after all hunks.
pub open spec fn text_patched(text: Seq<char>, hunks: Seq<HunkView>, path: Seq<char>) -> Result<
    Seq<char>,
    Seq<char>,
> {
    match hunks_applied(text_lines(text), hunks, 0, path) {
        Ok(all) => Ok(lines_joined(all, ends_with_newline(text))),
        Err(e) => Err(e),
    }
}

fn lines_match_at(haystack: &[String], needle: &[String], at: usize) -> (r: bool)
    requires
        at + needle@.len() <= haystack@.len(),
    ensures
        r == (views(haystack@).subrange(at as int, at + needle@.len()) == views(needle@)),
{
    let total: usize = haystack.len();
    let mut k: usize = 0;
    let ghost part = views(haystack@).subrange(at as int, at + needle@.len());
    while k < needle.len()
        invariant
            k <= needle@.len(),
            at + needle@.len() <= haystack@.len() == total,
            part == views(haystack@).subrange(at as int, at + needle@.len()),
            forall|m: int| 0 <= m < k ==> haystack@[at + m]@ == needle@[m]@,
        decreases needle.len() - k,
    {
        if !same(haystack[at + k].as_str(), needle[k].as_str()) {
            assert(part[k as int] != views(needle@)[k as int]);
            return false;
        }
        k += 1;
    }
    assert(part =~= views(needle@));
    true
}

fn find_subsequence_from(haystack: &[String], needle: &[String], from: usize) -> (r: Option<usize>)
    requires
        from <= haystack@.len(),
    ensures
        match r {
            Some(p) => find_from(views(haystack@), views(needle@), from as int) == Some(p as int)
                && from <= p && p + needle@.len() <= haystack@.len(),
            None => find_from(views(haystack@), views(needle@), from as int) is None,
        },
{
    if needle.len() > haystack.len() {
        return None;
    }
    let last: usize = haystack.len() - needle.len();
    let mut i: usize = from;
    while i <= last
        invariant
            from <= i <= haystack@.len(),
            last + needle@.len() == haystack@.len(),
            find_from(views(haystack@), views(needle@), from as int) == find_from(
                views(haystack@),
                views(needle@),
                i as int,
            ),
        decreases haystack.len() - i + 1,
    {
        if lines_match_at(haystack, needle, i) {
            return Some(i);
        }
        if i == last {
            assert(find_from(views(haystack@), views(needle@), i + 1) is None);
            return None;
        }
        i += 1;
    }
    None
}

/// Where the lines of `needle` first stand in `haystack` one after the
/// other.
pub fn find_subsequence(haystack: &[String], needle: &[String]) -> (r: Option<usize>)
    ensures
        match r {
            Some(p) => find_from(views(haystack@), views(needle@), 0) == Some(p as int),
            None => find_from(views(haystack@), views(needle@), 0) is None,
        },
{
    find_subsequence_from(haystack, needle, 0)
}

/// How often they do, not counting places that overlap.
pub fn count_subsequence(haystack: &[String], needle: &[String]) -> (r: usize)
    ensures
        r == count_from(views(haystack@), views(needle@), 0),
{
    if needle.len() == 0 {
        return 0;
    }
    let mut n: usize = 0;
    let mut i: usize = 0;
    loop
        invariant
            0 <= n <= i <= haystack@.len(),
            needle@.len() > 0,
            n + count_from(views(haystack@), views(needle@), i as int) == count_from(
                views(haystack@),
                views(needle@),
                0,
            ),
        ensures
            n == count_from(views(haystack@), views(needle@), 0),
        decreases haystack.len() - i,
    {
        let total: usize = haystack.len();
        match find_subsequence_from(haystack, needle, i) {
            None => {
                break;
            },
            Some(p) => {
                n += 1;
                i = p + needle.len();
            },
        }
    }
    n
}

fn label_hunk(k: usize, path: &str) -> (r: String)
    ensures
        r@ == hunk_label(k as int, path@),
{
    let mut out = "hunk #".to_owned();
    out.append(crate::text::decimal_wide(k as u128 + 1).as_str());
    out.append(" for '");
    out.append(path);
    out
}

/// The lines `all` with those at `at..at + n` replaced by `new`.
fn splice_lines(all: &Vec<String>, at: usize, n: usize, new: &Vec<String>) -> (r: Vec<String>)
    requires
        at + n <= all@.len(),
    ensures
        views(r@) == views(all@).take(at as int) + views(new@) + views(all@).skip(at + n),
{
    let mut out: Vec<String> = Vec::new();
    let mut i: usize = 0;
    while i < at
        invariant
            i <= at <= all@.len(),
            views(out@) =~= views(all@).take(i as int),
        decreases at - i,
    {
        let ghost before = views(out@);
        out.push(all[i].clone());
        assert(views(out@) =~= before.push(all@[i as int]@));
        i += 1;
    }
    let mut j: usize = 0;
    while j < new.len()
        invariant
            j <= new@.len(),
            views(out@) =~= views(all@).take(at as int) + views(new@).take(j as int),
        decreases new.len() - j,
    {
        let ghost before = views(out@);
        out.push(new[j].clone());
        assert(views(out@) =~= before.push(new@[j as int]@));
        j += 1;
    }
    let total: usize = all.len();
    let mut k: usize = at + n;
    let ghost head = views(all@).take(at as int) + views(new@);
    while k < all.len()
        invariant
            at + n <= k <= all@.len(),
            head == views(all@).take(at as int) + views(new@),
            views(out@) =~= head + views(all@).subrange(at + n, k as int),
        decreases all.len() - k,
    {
        let ghost before = views(out@);
        out.push(all[k].clone());
        assert(views(out@) =~= before.push(all@[k as int]@));
        k += 1;
    }
    assert(views(all@).subrange(at + n, all@.len() as int) =~= views(all@).skip(at + n));
    out
}

fn apply_hunk(all: &Vec<String>, hunk: &Hunk, k: usize, path: &str) -> (r: Result<
    Vec<String>,
    String,
>)
    ensures
        match r {
            Ok(next) => hunk_applied(views(all@), hunk@, k as int, path@) == Ok::<
                Seq<Seq<char>>,
                Seq<char>,
            >(views(next@)),
            Err(e) => hunk_applied(views(all@), hunk@, k as int, path@) == Err::<
                Seq<Seq<char>>,
                Seq<char>,
            >(e@),
        },
{
    assert(hunk@.search.len() == hunk.search@.len());
    if hunk.search.len() == 0 {
        let mut out = label_hunk(k, path);
        out.append(
            "' has no search context (every line is '+'); include a context (' ') or deletion ('-') line to anchor the position",
        );
        return Err(out);
    }
    let n: usize = count_subsequence(all.as_slice(), hunk.search.as_slice());
    if n == 0 {
        let mut out = label_hunk(k, path);
        out.append(
            "' did not apply: search text not found in file. Re-read the file to confirm current contents, or include more context lines.",
        );
        return Err(out);
    }
    if n > 1 {
        let mut out = label_hunk(k, path);
        out.append("' matched ");
        out.append(decimal_text(n as u64).as_str());
        out.append(" locations. Add more context lines to make the match unique.");
        return Err(out);
    }
    proof {
        lemma_find_from(views(all@), hunk@.search, 0);
    }
    match find_subsequence(all.as_slice(), hunk.search.as_slice()) {
        Some(at) => Ok(splice_lines(all, at, hunk.search.len(), &hunk.replace)),
        None => Ok(Vec::new()),
    }
}

/// Applies hunks to a text. Lines outside the matched ranges stay as they
/// are, and so does a line feed at the end.
pub fn apply_hunks_to_text(original: &str, hunks: &Vec<Hunk>, path_for_error: &str) -> (r: Result<
    String,
    String,
>)
    ensures
        match r {
            Ok(t) => text_patched(original@, hunk_views(hunks@), path_for_error@) == Ok::<
                Seq<char>,
                Seq<char>,
            >(t@),
            Err(e) => text_patched(original@, hunk_views(hunks@), path_for_error@) == Err::<
                Seq<char>,
                Seq<char>,
            >(e@),
        },
{
    let cs = chars_of(original);
    let newline = cs.len() > 0 && cs[cs.len() - 1] == '\n';
    let mut all = split_text(original, '\n');
    let ghost pieces = views(all@);
    if newline {
        let _ = all.pop();
        assert(views(all@) =~= pieces.drop_last());
    }
    let ghost views_of = hunk_views(hunks@);
    let mut k: usize = 0;
    while k < hunks.len()
        invariant
            k <= hunks@.len(),
            views_of == hunk_views(hunks@),
            hunks_applied(text_lines(original@), views_of, 0, path_for_error@) == hunks_applied(
                views(all@),
                views_of,
                k as int,
                path_for_error@,
            ),
        decreases hunks.len() - k,
    {
        assert(views_of[k as int] == hunks@[k as int]@);
        match apply_hunk(&all, &hunks[k], k, path_for_error) {
            Ok(next) => {
                all = next;
            },
            Err(e) => {
                return Err(e);
            },
        }
        k += 1;
    }
    let mut out = join_text(&all, "\n");
    if newline {
        out.push('\n');
    }
    Ok(out)
}

/// A patch without hunks leaves the text as it is.
pub proof fn law_no_hunks_keep_text(text: Seq<char>, path: Seq<char>)
    ensures
        text_patched(text, Seq::empty(), path) == Ok::<Seq<char>, Seq<char>>(text),
{
    crate::text::law_split_then_join(text, '\n');
    reveal_strlit("\n");
    assert("\n"@ =~= seq!['\n']);
    if ends_with_newline(text) {
        lemma_split_trailing(text);
    }
}

/// A text that ends in a line feed still does after it was patched.
pub proof fn law_final_newline_stays(text: Seq<char>, hunks: Seq<HunkView>, path: Seq<char>)
    requires
        ends_with_newline(text),
        text_patched(text, hunks, path) is Ok,
    ensures
        ends_with_newline(text_patched(text, hunks, path)->Ok_0),
{
}

/// Hunks compose in order: after some of them, the rest work on the lines
/// that those left.
pub proof fn law_hunks_compose(
    all: Seq<Seq<char>>,
    hunks: Seq<HunkView>,
    from: int,
    mid: int,
    path: Seq<char>,
)
    requires
        0 <= from <= mid <= hunks.len(),
        hunks_applied(all, hunks.take(mid), from, path) is Ok,
    ensures
        hunks_applied(all, hunks, from, path) == hunks_applied(
            hunks_applied(all, hunks.take(mid), from, path)->Ok_0,
            hunks,
            mid,
            path,
        ),
    decreases mid - from,
{
    if from < mid {
        let next = hunk_applied(all, hunks[from], from, path)->Ok_0;
        assert(hunks.take(mid)[from] == hunks[from]);
        law_hunks_compose(next, hunks, from + 1, mid, path);
    }
}

/// One hunk changes only the lines that it looks for: all before and all
/// after that one place stay.
pub proof fn law_hunk_keeps_other_lines(
    all: Seq<Seq<char>>,
    hunk: HunkView,
    k: int,
    path: Seq<char>,
)
    requires
        hunk_applied(all, hunk, k, path) is Ok,
    ensures
        exists|at: int|
            0 <= at && at + hunk.search.len() <= all.len() && #[trigger] all.subrange(
                at,
                at + hunk.search.len(),
            ) == hunk.search && hunk_applied(all, hunk, k, path)->Ok_0 == all.take(at)
                + hunk.replace + all.skip(at + hunk.search.len()),
{
    lemma_find_from(all, hunk.search, 0);
    let at = find_from(all, hunk.search, 0)->0;
    assert(all.subrange(at, at + hunk.search.len()) == hunk.search);
}

/// The pieces of a text that ends in a line feed: those of the text before
/// it, and an empty one.
proof fn lemma_split_trailing_from(s: Seq<char>, from: int)
    requires
        0 <= from <= s.len(),
        ends_with_newline(s),
    ensures
        split_from(s, '\n', from).last() == Seq::<char>::empty(),
        from < s.len() ==> split_from(s, '\n', from).len() >= 2,
        split_from(s, '\n', from).len() >= 1,
    decreases s.len() - from,
{
    lemma_find_char(s, '\n', from);
    let n = find_char(s, '\n', from);
    if n < s.len() {
        lemma_split_trailing_from(s, n + 1);
        let rest = split_from(s, '\n', n + 1);
        assert((seq![s.subrange(from, n)] + rest).last() == rest.last());
    } else {
        assert(from == s.len()) by {
            if from < s.len() {
                assert(s[s.len() - 1] != '\n');
            }
        }
        assert(s.subrange(from, n) =~= Seq::<char>::empty());
    }
}

proof fn lemma_split_trailing(s: Seq<char>)
    requires
        ends_with_newline(s),
    ensures
        join(split(s, '\n').drop_last(), seq!['\n']).push('\n') == s,
{
    lemma_split_trailing_from(s, 0);
    crate::text::law_split_then_join(s, '\n');
    let all = split(s, '\n');
    let head = join(all.drop_last(), seq!['\n']);
    assert(join(all, seq!['\n']) == head + seq!['\n'] + all.last());
    assert(head + seq!['\n'] + Seq::<char>::empty() =~= head.push('\n'));
}

// ---------------------------------------------------------------------
// Showing a change
// ---------------------------------------------------------------------

/// The first `n` lines, each behind `mark` and with a line feed.
pub open spec fn marked(mark: char, all: Seq<Seq<char>>, n: int) -> Seq<char>
    decreases n,
{
    if n <= 0 {
        Seq::empty()
    } else {
        let line = all[n - 1];
        let whole = if ends_with_newline(line) {
            line
        } else {
            line.push('\n')
        };
        marked(mark, all, n - 1).push(mark) + whole
    }
}

/// All old lines as removed, then all new lines as added.
pub open spec fn diff(old_text: Seq<char>, new_text: Seq<char>) -> Seq<char> {
    let a = split_inclusive(old_text);
    let b = split_inclusive(new_text);
    "--- before\n+++ after\n"@ + marked('-', a, a.len() as int) + marked('+', b, b.len() as int)
}

fn mark_lines(mark: char, text: &str) -> (r: String)
    ensures
        r@ == marked(mark, split_inclusive(text@), split_inclusive(text@).len() as int),
{
    let all = split_inclusive_text(text);
    let ghost spec_lines = split_inclusive(text@);
    let mut out = String::new();
    let mut i: usize = 0;
    while i < all.len()
        invariant
            i <= all@.len(),
            views(all@) == spec_lines,
            out@ == marked(mark, spec_lines, i as int),
        decreases all.len() - i,
    {
        let line = all[i].as_str();
        assert(spec_lines[i as int] == line@);
        let cs = chars_of(line);
        let ghost before = out@;
        out.push(mark);
        out.append(line);
        if !(cs.len() > 0 && cs[cs.len() - 1] == '\n') {
            out.push('\n');
            assert(before.push(mark) + line@.push('\n') =~= (before.push(mark) + line@).push(
                '\n',
            ));
        }
        i += 1;
    }
    assert(all@.len() == spec_lines.len());
    out
}

pub fn render_diff(original: &str, updated: &str) -> (r: String)
    ensures
        r@ == diff(original@, updated@),
{
    let mut out = "--- before\n+++ after\n".to_owned();
    out.append(mark_lines('-', original).as_str());
    out.append(mark_lines('+', updated).as_str());
    out
}

// ---------------------------------------------------------------------
// The tool
// ---------------------------------------------------------------------

pub const PATCH_DESCRIPTION: &'static str = "Apply a targeted edit to a file, or a V4A multi-file patch. Prefer this over wholesale rewrites via write_file. Two modes:\n- 'replace': unique-string find-and-replace on a single file. Requires path + old_string + new_string. Set replace_all=true to replace every occurrence; otherwise the tool rejects ambiguous matches.\n- 'patch': a V4A patch body that can add, update, delete, and move files in one call. Requires patch. Path is unused in this mode.\nSet cross_profile=true to opt out of the soft guard that blocks writes to other Perry Hermes profiles.";

pub struct PatchTool;

/// A find-and-replace that is to be done.
pub struct ReplaceRequest {
    pub path: String,
    pub resolved: String,
    pub old_string: String,
    pub new_string: String,
    pub replace_all: bool,
}

pub ghost struct ReplaceView {
    pub path: Seq<char>,
    pub resolved: Seq<char>,
    pub old_string: Seq<char>,
    pub new_string: Seq<char>,
    pub replace_all: bool,
}

impl View for ReplaceRequest {
    type V = ReplaceView;

    open spec fn view(&self) -> ReplaceView {
        ReplaceView {
            path: self.path@,
            resolved: self.resolved@,
            old_string: self.old_string@,
            new_string: self.new_string@,
            replace_all: self.replace_all,
        }
    }
}

/// What a call of the tool asks for.
pub enum PatchPlan {
    /// Nothing is to be done; this is the reply.
    Reply(Json),
    Replace(ReplaceRequest),
    Apply { ops: Vec<V4aOp>, cross_profile: bool },
}

pub ghost enum PatchPlanView {
    Reply(JsonView),
    Replace(ReplaceView),
    Apply { ops: Seq<OpView>, cross_profile: bool },
}

impl View for PatchPlan {
    type V = PatchPlanView;

    open spec fn view(&self) -> PatchPlanView {
        match self {
            PatchPlan::Reply(j) => PatchPlanView::Reply(j@),
            PatchPlan::Replace(r) => PatchPlanView::Replace(r@),
            PatchPlan::Apply { ops, cross_profile } => PatchPlanView::Apply {
                ops: op_views(ops@),
                cross_profile: *cross_profile,
            },
        }
    }
}

/// What a call in mode `replace` asks for.
pub open spec fn replace_plan(
    args: JsonView,
    working_dir: Seq<char>,
    env: EnvironmentView,
) -> PatchPlanView {
    match (args.text_at("path"@), args.text_at("old_string"@), args.text_at("new_string"@)) {
        (None, _, _) => PatchPlanView::Reply(error_json("mode='replace' requires 'path'"@)),
        (_, None, _) => PatchPlanView::Reply(error_json("mode='replace' requires 'old_string'"@)),
        (_, _, None) => PatchPlanView::Reply(error_json("mode='replace' requires 'new_string'"@)),
        (Some(path), Some(old_string), Some(new_string)) => if is_status_text(new_string) {
            PatchPlanView::Reply(
                error_json(
                    "Refusing to write internal read_file status text as file content."@,
                ),
            )
        } else {
            match resolved(path, working_dir, env.home) {
                Err(m) => PatchPlanView::Reply(error_json(m)),
                Ok(target) => match write_refusal(
                    path,
                    target,
                    args.flag_at("cross_profile"@),
                    env,
                ) {
                    Some(m) => PatchPlanView::Reply(error_json(m)),
                    None => PatchPlanView::Replace(
                        ReplaceView {
                            path,
                            resolved: target,
                            old_string,
                            new_string,
                            replace_all: args.flag_at("replace_all"@),
                        },
                    ),
                },
            }
        },
    }
}

/// What a call in mode `patch` asks for.
pub open spec fn apply_plan(args: JsonView) -> PatchPlanView {
    match args.text_at("patch"@) {
        None => PatchPlanView::Reply(error_json("mode='patch' requires 'patch'"@)),
        Some(body) => match parsed(body) {
            Ok(ops) => PatchPlanView::Apply {
                ops,
                cross_profile: args.flag_at("cross_profile"@),
            },
            Err(e) => PatchPlanView::Reply(error_json(e)),
        },
    }
}

/// What a call asks for.
pub open spec fn patch_plan(
    args: JsonView,
    working_dir: Seq<char>,
    env: EnvironmentView,
) -> PatchPlanView {
    match args.text_at("mode"@) {
        None => PatchPlanView::Reply(error_json("missing 'mode'"@)),
        Some(mode) => if mode == "replace"@ {
            replace_plan(args, working_dir, env)
        } else if mode == "patch"@ {
            apply_plan(args)
        } else {
            PatchPlanView::Reply(
                error_json(
                    "Unknown patch mode '"@ + mode + "'. Expected 'replace' or 'patch'."@,
                ),
            )
        },
    }
}

/// The new content of a file, how it differs and where to put it before it
/// takes the file's place.
pub struct Edit {
    pub updated: String,
    pub diff: String,
    pub temp: String,
}

pub ghost struct EditView {
    pub updated: Seq<char>,
    pub diff: Seq<char>,
    pub temp: Seq<char>,
}

impl View for Edit {
    type V = EditView;

    open spec fn view(&self) -> EditView {
        EditView { updated: self.updated@, diff: self.diff@, temp: self.temp@ }
    }
}

/// The content after a find-and-replace that is clear, or the reply if it
/// is not.
pub open spec fn replaced(req: ReplaceView, text: Seq<char>) -> Result<Seq<char>, JsonView> {
    let n = count_from(text, req.old_string, 0);
    if n == 0 {
        Err(
            error_json(
                "old_string not found in file. Re-read the file to confirm current contents."@,
            ).with(
                "_hint"@,
                JsonView::Text(
                    "old_string must match exactly including whitespace and newlines."@,
                ),
            ),
        )
    } else if n > 1 && !req.replace_all {
        Err(
            error_json(
                "old_string matches multiple ("@ + decimal(n)
                    + ") locations. Pass replace_all=true to replace all, or include more surrounding context to make the match unique."@,
            ),
        )
    } else if req.replace_all {
        Ok(replace_from(text, req.old_string, req.new_string, 0))
    } else {
        Ok(replace_first(text, req.old_string, req.new_string))
    }
}

/// Where a text occurs once, replacing the first and replacing all is the
/// same.
pub proof fn law_unique_match_needs_no_replace_all(
    text: Seq<char>,
    old_string: Seq<char>,
    new_string: Seq<char>,
)
    requires
        count_from(text, old_string, 0) == 1,
    ensures
        replace_from(text, old_string, new_string, 0) == replace_first(text, old_string, new_string),
{
    lemma_find_from(text, old_string, 0);
    let p = find_from(text, old_string, 0)->0;
    let after = p + old_string.len();
    assert(count_from(text, old_string, after) == 0);
    assert(find_from(text, old_string, after) is None);
    assert(replace_from(text, old_string, new_string, after) == text.subrange(
        after,
        text.len() as int,
    ));
    assert(text.subrange(0, p) =~= text.take(p));
    assert(text.subrange(after, text.len() as int) =~= text.skip(after));
}

/// What to store after reading the file, or what to reply.
pub open spec fn replace_edit(req: ReplaceView, found: FileTextView, pid: u32) -> Result<
    EditView,
    JsonView,
> {
    match found {
        FileTextView::Missing => Err(error_json("File not found: "@ + req.path)),
        FileTextView::Failed(e) => Err(error_json("read failed: "@ + e)),
        FileTextView::Text(text) => match replaced(req, text) {
            Err(reply) => Err(reply),
            Ok(updated) => match temp_path(req.resolved, pid) {
                Err(m) => Err(error_json(m)),
                Ok(temp) => Ok(EditView { updated, diff: diff(text, updated), temp }),
            },
        },
    }
}

/// The reply after storing.
pub open spec fn replace_reply(req: ReplaceView, change: Seq<char>, stored: StoredView) -> JsonView {
    match stored.place(req.resolved) {
        Err(reply) => reply,
        Ok(place) => JsonView::object().with("files_modified"@, text_array(seq![place])).with(
            "resolved_path"@,
            JsonView::Text(place),
        ).with("diff"@, JsonView::Text(change)).with("replace_all"@, JsonView::Bool(req.replace_all)),
    }
}

/// The schema of the tool's parameters.
pub open spec fn patch_schema() -> JsonView {
    object_schema(
        JsonView::object().with(
            "mode"@,
            choice(
                seq!["replace"@, "patch"@],
                "Edit mode. 'replace' for targeted find-and-replace; 'patch' for a V4A multi-file patch."@,
            ),
        ).with("path"@, typed("string"@, "File to edit. Required for mode='replace'."@)).with(
            "old_string"@,
            typed("string"@, "Exact text to replace. Required for mode='replace'."@),
        ).with(
            "new_string"@,
            typed("string"@, "Replacement text. Required for mode='replace'."@),
        ).with(
            "replace_all"@,
            flag("Replace every occurrence of old_string. mode='replace' only. Default false."@),
        ).with("patch"@, typed("string"@, "V4A patch body. Required for mode='patch'."@)).with(
            "cross_profile"@,
            flag("Opt out of the cross-profile soft guard. Same semantics as write_file."@),
        ),
        seq!["mode"@],
    )
}

impl PatchTool {
    pub fn new() -> (r: Self)
        ensures
            r == PatchTool,
    {
        PatchTool
    }

    pub fn name(&self) -> (r: &'static str)
        ensures
            r@ == "patch"@,
    {
        "patch"
    }

    pub fn description(&self) -> (r: &'static str)
        ensures
            r@ == PATCH_DESCRIPTION@,
    {
        PATCH_DESCRIPTION
    }

    pub fn toolset(&self) -> (r: &'static str)
        ensures
            r@ == "file"@,
    {
        "file"
    }

    pub fn parameters_schema(&self) -> (r: Json)
        ensures
            r@ == patch_schema(),
    {
        let properties = Json::object().with(
            "mode",
            choice_param(
                &words2("replace", "patch"),
                "Edit mode. 'replace' for targeted find-and-replace; 'patch' for a V4A multi-file patch.",
            ),
        ).with("path", typed_param("string", "File to edit. Required for mode='replace'.")).with(
            "old_string",
            typed_param("string", "Exact text to replace. Required for mode='replace'."),
        ).with(
            "new_string",
            typed_param("string", "Replacement text. Required for mode='replace'."),
        ).with(
            "replace_all",
            flag_param(
                "Replace every occurrence of old_string. mode='replace' only. Default false.",
            ),
        ).with("patch", typed_param("string", "V4A patch body. Required for mode='patch'.")).with(
            "cross_profile",
            flag_param("Opt out of the cross-profile soft guard. Same semantics as write_file."),
        );
        object_schema_json(properties, &words1("mode"))
    }

    /// What a call asks for.
    pub fn plan(&self, args: &Json, working_dir: &str, env: &Environment) -> (r: PatchPlan)
        ensures
            r@ == patch_plan(args@, working_dir@, env@),
    {
        let mode = match args.text_at("mode") {
            Some(m) => m,
            None => {
                return PatchPlan::Reply(error_reply("missing 'mode'"));
            },
        };
        if same(mode, "replace") {
            replace_mode(args, working_dir, env)
        } else if same(mode, "patch") {
            patch_mode(args)
        } else {
            let mut out = "Unknown patch mode '".to_owned();
            out.append(mode);
            out.append("'. Expected 'replace' or 'patch'.");
            PatchPlan::Reply(error_reply(out.as_str()))
        }
    }
}

/// What a call in mode `replace` asks for.
pub fn replace_mode(args: &Json, working_dir: &str, env: &Environment) -> (r: PatchPlan)
    ensures
        r@ == replace_plan(args@, working_dir@, env@),
{
    let path = match args.text_at("path") {
        Some(p) => p,
        None => {
            return PatchPlan::Reply(error_reply("mode='replace' requires 'path'"));
        },
    };
    let old_string = match args.text_at("old_string") {
        Some(s) => s,
        None => {
            return PatchPlan::Reply(error_reply("mode='replace' requires 'old_string'"));
        },
    };
    let new_string = match args.text_at("new_string") {
        Some(s) => s,
        None => {
            return PatchPlan::Reply(error_reply("mode='replace' requires 'new_string'"));
        },
    };
    if is_internal_file_status_text(new_string) {
        return PatchPlan::Reply(
            error_reply("Refusing to write internal read_file status text as file content."),
        );
    }
    let target = match resolve_user_path(path, working_dir, env) {
        Ok(p) => p,
        Err(m) => {
            return PatchPlan::Reply(error_reply(m.as_str()));
        },
    };
    match refuse_write(path, target.as_str(), args.flag_at("cross_profile"), env) {
        Some(m) => PatchPlan::Reply(error_reply(m.as_str())),
        None => PatchPlan::Replace(
            ReplaceRequest {
                path: path.to_owned(),
                resolved: target,
                old_string: old_string.to_owned(),
                new_string: new_string.to_owned(),
                replace_all: args.flag_at("replace_all"),
            },
        ),
    }
}

/// What a call in mode `patch` asks for.
pub fn patch_mode(args: &Json) -> (r: PatchPlan)
    ensures
        r@ == apply_plan(args@),
{
    match args.text_at("patch") {
        None => PatchPlan::Reply(error_reply("mode='patch' requires 'patch'")),
        Some(body) => match parse_v4a(body) {
            Ok(ops) => PatchPlan::Apply { ops, cross_profile: args.flag_at("cross_profile") },
            Err(e) => PatchPlan::Reply(error_reply(e.as_str())),
        },
    }
}

impl ReplaceRequest {
    /// The content of the file after the edit.
    pub fn replace_in(&self, text: &str) -> (r: Result<String, Json>)
        ensures
            match r {
                Ok(t) => replaced(self@, text@) == Ok::<Seq<char>, JsonView>(t@),
                Err(j) => replaced(self@, text@) == Err::<Seq<char>, JsonView>(j@),
            },
    {
        let n: usize = count_text(text, self.old_string.as_str());
        if n == 0 {
            return Err(
                error_reply(
                    "old_string not found in file. Re-read the file to confirm current contents.",
                ).with(
                    "_hint",
                    Json::text("old_string must match exactly including whitespace and newlines."),
                ),
            );
        }
        if n > 1 && !self.replace_all {
            let mut out = "old_string matches multiple (".to_owned();
            out.append(decimal_text(n as u64).as_str());
            out.append(
                ") locations. Pass replace_all=true to replace all, or include more surrounding context to make the match unique.",
            );
            return Err(error_reply(out.as_str()));
        }
        if self.replace_all {
            Ok(replace_text(text, self.old_string.as_str(), self.new_string.as_str()))
        } else {
            Ok(replace_first_text(text, self.old_string.as_str(), self.new_string.as_str()))
        }
    }

    /// What to store after reading the file.
    pub fn edit(&self, found: &FileText, pid: u32) -> (r: Result<Edit, Json>)
        ensures
            match r {
                Ok(e) => replace_edit(self@, found@, pid) == Ok::<EditView, JsonView>(e@),
                Err(j) => replace_edit(self@, found@, pid) == Err::<EditView, JsonView>(j@),
            },
    {
        match found {
            FileText::Missing => Err(error_reply2("File not found: ", self.path.as_str())),
            FileText::Failed(e) => Err(error_reply2("read failed: ", e.as_str())),
            FileText::Text(text) => match self.replace_in(text.as_str()) {
                Err(reply) => Err(reply),
                Ok(updated) => {
                    let change = render_diff(text.as_str(), updated.as_str());
                    match temp_sibling(self.resolved.as_str(), pid) {
                        Err(m) => Err(error_reply(m.as_str())),
                        Ok(temp) => Ok(Edit { updated, diff: change, temp }),
                    }
                },
            },
        }
    }

    /// The reply after storing.
    pub fn reply(&self, change: &str, stored: &Stored) -> (r: Json)
        ensures
            r@ == replace_reply(self@, change@, stored@),
    {
        match stored.place(self.resolved.as_str()) {
            Err(reply) => reply,
            Ok(place) => Json::object().with(
                "files_modified",
                Json::texts(&words1(place.as_str())),
            ).with("resolved_path", Json::text(place.as_str())).with(
                "diff",
                Json::text(change),
            ).with("replace_all", Json::boolean(self.replace_all)),
        }
    }
}

// ---------------------------------------------------------------------
// Operations
// ---------------------------------------------------------------------

/// The directory that has to exist for `target`, if that can be missing.
pub open spec fn needed_dir(target: Seq<char>) -> Option<Seq<char>> {
    match parent(target) {
        Some(dir) => if dir.len() > 0 {
            Some(dir)
        } else {
            None
        },
        None => None,
    }
}

pub fn needed_dir_text(target: &str) -> (r: Option<String>)
    ensures
        opt_view(r) == needed_dir(target@),
{
    match parent_text(target) {
        Some(dir) => if chars_of(dir.as_str()).len() > 0 {
            Some(dir)
        } else {
            None
        },
        None => None,
    }
}

/// What an operation does to files. `dir` is to be created if it is none.
pub enum OpPlan {
    Add { target: String, dir: Option<String> },
    Update { target: String },
    Delete { target: String },
    Move { target: String, dest: String, dir: Option<String> },
}

pub ghost enum OpPlanView {
    Add { target: Seq<char>, dir: Option<Seq<char>> },
    Update { target: Seq<char> },
    Delete { target: Seq<char> },
    Move { target: Seq<char>, dest: Seq<char>, dir: Option<Seq<char>> },
}

impl View for OpPlan {
    type V = OpPlanView;

    open spec fn view(&self) -> OpPlanView {
        match self {
            OpPlan::Add { target, dir } => OpPlanView::Add { target: target@, dir: opt_view(*dir) },
            OpPlan::Update { target } => OpPlanView::Update { target: target@ },
            OpPlan::Delete { target } => OpPlanView::Delete { target: target@ },
            OpPlan::Move { target, dest, dir } => OpPlanView::Move {
                target: target@,
                dest: dest@,
                dir: opt_view(*dir),
            },
        }
    }
}

/// What the operation does to files, or why it is rejected.
pub open spec fn op_plan(
    op: OpView,
    working_dir: Seq<char>,
    env: EnvironmentView,
    cross_profile: bool,
) -> Result<OpPlanView, Seq<char>> {
    match resolved(op.path, working_dir, env.home) {
        Err(e) => Err("path resolution failed: "@ + e),
        Ok(target) => match write_refusal(op.path, target, cross_profile, env) {
            Some(m) => Err(m),
            None => match op.kind {
                OpKind::Add => Ok(OpPlanView::Add { target, dir: needed_dir(target) }),
                OpKind::Update => if op.hunks.len() == 0 {
                    Err("Update File has no hunks (missing '@@' marker)"@)
                } else {
                    Ok(OpPlanView::Update { target })
                },
                OpKind::Delete => Ok(OpPlanView::Delete { target }),
                OpKind::Move => match op.move_to {
                    None => Err("Move op requires '*** Move to:'"@),
                    Some(to) => match resolved(to, working_dir, env.home) {
                        Err(e) => Err("destination path resolution failed: "@ + e),
                        Ok(dest) => match write_refusal(to, dest, cross_profile, env) {
                            Some(m) => Err(m),
                            None => Ok(OpPlanView::Move { target, dest, dir: needed_dir(dest) }),
                        },
                    },
                },
            },
        },
    }
}

/// What the operation does to files.
pub fn apply_v4a_op(op: &V4aOp, working_dir: &str, env: &Environment, cross_profile: bool) -> (r:
    Result<OpPlan, String>)
    ensures
        match r {
            Ok(p) => op_plan(op@, working_dir@, env@, cross_profile) == Ok::<
                OpPlanView,
                Seq<char>,
            >(p@),
            Err(e) => op_plan(op@, working_dir@, env@, cross_profile) == Err::<
                OpPlanView,
                Seq<char>,
            >(e@),
        },
{
    let target = match resolve_user_path(op.path.as_str(), working_dir, env) {
        Ok(p) => p,
        Err(e) => {
            let mut out = "path resolution failed: ".to_owned();
            out.append(e.as_str());
            return Err(out);
        },
    };
    if let Some(m) = refuse_write(op.path.as_str(), target.as_str(), cross_profile, env) {
        return Err(m);
    }
    match op.kind {
        OpKind::Add => {
            let dir = needed_dir_text(target.as_str());
            Ok(OpPlan::Add { target, dir })
        },
        OpKind::Update => {
            assert(op@.hunks.len() == op.hunks@.len());
            if op.hunks.len() == 0 {
                Err("Update File has no hunks (missing '@@' marker)".to_owned())
            } else {
                Ok(OpPlan::Update { target })
            }
        },
        OpKind::Delete => Ok(OpPlan::Delete { target }),
        OpKind::Move => {
            let to = match &op.move_to {
                Some(t) => t.as_str(),
                None => {
                    return Err("Move op requires '*** Move to:'".to_owned());
                },
            };
            let dest = match resolve_user_path(to, working_dir, env) {
                Ok(p) => p,
                Err(e) => {
                    let mut out = "destination path resolution failed: ".to_owned();
                    out.append(e.as_str());
                    return Err(out);
                },
            };
            if let Some(m) = refuse_write(to, dest.as_str(), cross_profile, env) {
                return Err(m);
            }
            let dir = needed_dir_text(dest.as_str());
            Ok(OpPlan::Move { target, dest, dir })
        },
    }
}

/// The new content of an updated file and where to put it first, or why
/// the update is rejected: the text, then the place.
pub open spec fn update_edit(op: OpView, target: Seq<char>, found: FileTextView, pid: u32) -> Result<
    (Seq<char>, Seq<char>),
    Seq<char>,
> {
    match found {
        FileTextView::Missing => Err("Update target file not found: "@ + op.path),
        FileTextView::Failed(e) => Err("read failed: "@ + e),
        FileTextView::Text(text) => match text_patched(text, op.hunks, op.path) {
            Err(e) => Err(e),
            Ok(updated) => match temp_path(target, pid) {
                Err(m) => Err(m),
                Ok(temp) => Ok((updated, temp)),
            },
        },
    }
}

impl V4aOp {
    /// The new content of an updated file and where to put it first.
    pub fn update(&self, target: &str, found: &FileText, pid: u32) -> (r: Result<
        (String, String),
        String,
    >)
        ensures
            match r {
                Ok(u) => update_edit(self@, target@, found@, pid) == Ok::<
                    (Seq<char>, Seq<char>),
                    Seq<char>,
                >((u.0@, u.1@)),
                Err(e) => update_edit(self@, target@, found@, pid) == Err::<
                    (Seq<char>, Seq<char>),
                    Seq<char>,
                >(e@),
            },
    {
        match found {
            FileText::Missing => {
                let mut out = "Update target file not found: ".to_owned();
                out.append(self.path.as_str());
                Err(out)
            },
            FileText::Failed(e) => {
                let mut out = "read failed: ".to_owned();
                out.append(e.as_str());
                Err(out)
            },
            FileText::Text(text) => match apply_hunks_to_text(
                text.as_str(),
                &self.hunks,
                self.path.as_str(),
            ) {
                Err(e) => Err(e),
                Ok(updated) => match temp_sibling(target, pid) {
                    Err(m) => Err(m),
                    Ok(temp) => Ok((updated, temp)),
                },
            },
        }
    }
}

/// A step of an operation that failed.
#[derive(Clone, Copy)]
pub enum OpStep {
    ParentDir,
    Write,
    TempWrite,
    Rename,
    Delete,
    DestinationDir,
    Move,
}

/// What is said of a failed step.
pub open spec fn step_failed(step: OpStep, error: Seq<char>) -> Seq<char> {
    match step {
        OpStep::ParentDir => "failed to create parent dir: "@ + error,
        OpStep::Write => "failed to write file: "@ + error,
        OpStep::TempWrite => "failed to write temp file: "@ + error,
        OpStep::Rename => "atomic rename failed: "@ + error,
        OpStep::Delete => "failed to delete file: "@ + error,
        OpStep::DestinationDir => "failed to create destination dir: "@ + error,
        OpStep::Move => "failed to move file: "@ + error,
    }
}

impl OpStep {
    pub fn failed(self, error: &str) -> (r: String)
        ensures
            r@ == step_failed(self, error@),
    {
        let mut out = match self {
            OpStep::ParentDir => "failed to create parent dir: ".to_owned(),
            OpStep::Write => "failed to write file: ".to_owned(),
            OpStep::TempWrite => "failed to write temp file: ".to_owned(),
            OpStep::Rename => "atomic rename failed: ".to_owned(),
            OpStep::Delete => "failed to delete file: ".to_owned(),
            OpStep::DestinationDir => "failed to create destination dir: ".to_owned(),
            OpStep::Move => "failed to move file: ".to_owned(),
        };
        out.append(error);
        out
    }
}

/// What came of an operation: the file that it changed, or why it was
/// rejected.
pub enum OpOutcome {
    Applied(String),
    Rejected(String),
}

pub ghost enum OutcomeView {
    Applied(Seq<char>),
    Rejected(Seq<char>),
}

impl View for OpOutcome {
    type V = OutcomeView;

    open spec fn view(&self) -> OutcomeView {
        match self {
            OpOutcome::Applied(p) => OutcomeView::Applied(p@),
            OpOutcome::Rejected(m) => OutcomeView::Rejected(m@),
        }
    }
}

pub open spec fn outcome_views(outcomes: Seq<OpOutcome>) -> Seq<OutcomeView> {
    Seq::new(outcomes.len(), |i: int| outcomes[i]@)
}

/// What is reported of one operation.
pub open spec fn op_report(op: OpView, outcome: OutcomeView) -> JsonView {
    let start = JsonView::object().with("op"@, JsonView::Text(kind_name(op.kind))).with(
        "path"@,
        JsonView::Text(op.path),
    );
    match outcome {
        OutcomeView::Applied(_) => start.with("status"@, JsonView::Text("applied"@)),
        OutcomeView::Rejected(reason) => start.with("status"@, JsonView::Text("rejected"@)).with(
            "reason"@,
            JsonView::Text(reason),
        ),
    }
}

/// The files that the first `n` operations changed, each once.
pub open spec fn changed_files(outcomes: Seq<OutcomeView>, n: int) -> Seq<Seq<char>>
    decreases n,
{
    if n <= 0 {
        Seq::empty()
    } else {
        let before = changed_files(outcomes, n - 1);
        match outcomes[n - 1] {
            OutcomeView::Applied(p) => if p.len() > 0 && !before.contains(p) {
                before.push(p)
            } else {
                before
            },
            OutcomeView::Rejected(_) => before,
        }
    }
}

/// The reply of mode `patch`.
pub open spec fn patch_reply(ops: Seq<OpView>, outcomes: Seq<OutcomeView>) -> JsonView {
    JsonView::object().with(
        "success"@,
        JsonView::Bool(forall|i: int| 0 <= i < outcomes.len() ==> outcomes[i] is Applied),
    ).with(
        "files_modified"@,
        text_array(changed_files(outcomes, outcomes.len() as int)),
    ).with(
        "results"@,
        JsonView::Array(Seq::new(ops.len(), |i: int| op_report(ops[i], outcomes[i]))),
    )
}

/// No changed file is listed twice.
pub proof fn law_changed_files_listed_once(outcomes: Seq<OutcomeView>, n: int)
    requires
        n <= outcomes.len(),
    ensures
        changed_files(outcomes, n).no_duplicates(),
        forall|i: int|
            0 <= i < n && outcomes[i] is Applied && outcomes[i]->Applied_0.len() > 0
                ==> changed_files(outcomes, n).contains(#[trigger] outcomes[i]->Applied_0),
    decreases n,
{
    if n > 0 {
        law_changed_files_listed_once(outcomes, n - 1);
        let before = changed_files(outcomes, n - 1);
        let after = changed_files(outcomes, n);
        assert forall|i: int|
            0 <= i < n && outcomes[i] is Applied && outcomes[i]->Applied_0.len()
                > 0 implies after.contains(#[trigger] outcomes[i]->Applied_0) by {
            let p = outcomes[i]->Applied_0;
            if before.contains(p) {
                let k = choose|k: int| 0 <= k < before.len() && before[k] == p;
                assert(after[k] == p);
            } else {
                assert(i == n - 1);
                assert(after[after.len() - 1] == p);
            }
        }
    }
}

/// The reply after all operations; `outcomes` has one entry for each.
pub fn report_patch(ops: &Vec<V4aOp>, outcomes: &Vec<OpOutcome>) -> (r: Json)
    requires
        ops@.len() == outcomes@.len(),
    ensures
        r@ == patch_reply(op_views(ops@), outcome_views(outcomes@)),
{
    let ghost o = op_views(ops@);
    let ghost u = outcome_views(outcomes@);
    let mut results: Vec<Json> = Vec::new();
    let mut files: Vec<String> = Vec::new();
    let mut success = true;
    let mut i: usize = 0;
    assert(views(files@) =~= changed_files(u, 0));
    while i < ops.len()
        invariant
            i <= ops@.len() == outcomes@.len(),
            o == op_views(ops@),
            u == outcome_views(outcomes@),
            results@.len() == i,
            forall|k: int| 0 <= k < i ==> model(results@[k]) == op_report(o[k], u[k]),
            views(files@) == changed_files(u, i as int),
            success == (forall|k: int| 0 <= k < i ==> u[k] is Applied),
        decreases ops.len() - i,
    {
        let start = Json::object().with("op", Json::text(ops[i].kind.kind_str())).with(
            "path",
            Json::text(ops[i].path.as_str()),
        );
        assert(u[i as int] == outcomes@[i as int]@);
        assert(o[i as int] == ops@[i as int]@);
        match &outcomes[i] {
            OpOutcome::Applied(place) => {
                let ghost before = views(files@);
                if chars_of(place.as_str()).len() > 0 && !holds_text(&files, place.as_str()) {
                    files.push(place.clone());
                    assert(views(files@) =~= before.push(place@));
                }
                let one = start.with("status", Json::text("applied"));
                results.push(one);
            },
            OpOutcome::Rejected(reason) => {
                success = false;
                assert(!(u[i as int] is Applied));
                let one = start.with("status", Json::text("rejected")).with(
                    "reason",
                    Json::text(reason.as_str()),
                );
                results.push(one);
            },
        }
        i += 1;
    }
    assert(models(results@) =~= Seq::new(o.len(), |i: int| op_report(o[i], u[i])));
    Json::object().with("success", Json::boolean(success)).with(
        "files_modified",
        Json::texts(&files),
    ).with("results", Json::array(results))
}

// ---------------------------------------------------------------------
// Laws
// ---------------------------------------------------------------------

/// A line that starts an operation ends the one before it and opens a fresh
/// one of its kind, for the path that it names.
pub proof fn law_directive_opens_an_operation(st: ParseState, p: Seq<char>)
    ensures
        ({
            let fresh = |kind: OpKind|
                Ok::<ParseState, Seq<char>>(
                    ParseState {
                        ops: match st.current {
                            Some(op) => st.ops.push(op),
                            None => st.ops,
                        },
                        current: Some(
                            OpView {
                                kind,
                                path: trim(p),
                                body: Seq::empty(),
                                hunks: Seq::empty(),
                                move_to: None,
                            },
                        ),
                    },
                );
            &&& read_line(st, "*** Add File:"@ + p) == fresh(OpKind::Add)
            &&& read_line(st, "*** Update File:"@ + p) == fresh(OpKind::Update)
            &&& read_line(st, "*** Delete File:"@ + p) == fresh(OpKind::Delete)
            &&& read_line(st, "*** Move File:"@ + p) == fresh(OpKind::Move)
        }),
{
    reveal_strlit("*** Add File:");
    reveal_strlit("*** Update File:");
    reveal_strlit("*** Delete File:");
    reveal_strlit("*** Move File:");
    let a = "*** Add File:"@ + p;
    let u = "*** Update File:"@ + p;
    let d = "*** Delete File:"@ + p;
    let m = "*** Move File:"@ + p;
    assert(a[0] == '*' && u[0] == '*' && d[0] == '*' && m[0] == '*');
    assert(a[4] == 'A' && u[4] == 'U' && d[4] == 'D' && m[4] == 'M');
    lemma_prefix_at("*** Add File:"@, p);
    lemma_prefix_at("*** Update File:"@, p);
    lemma_prefix_at("*** Delete File:"@, p);
    lemma_prefix_at("*** Move File:"@, p);
    lemma_other_prefix(u, "*** Add File:"@, 4);
    lemma_other_prefix(d, "*** Add File:"@, 4);
    lemma_other_prefix(d, "*** Update File:"@, 4);
    lemma_other_prefix(m, "*** Add File:"@, 4);
    lemma_other_prefix(m, "*** Update File:"@, 4);
    lemma_other_prefix(m, "*** Delete File:"@, 4);
}

proof fn lemma_prefix_at(prefix: Seq<char>, p: Seq<char>)
    ensures
        strip_prefix(prefix + p, prefix) == Some(p),
{
    assert((prefix + p).take(prefix.len() as int) =~= prefix);
    assert((prefix + p).skip(prefix.len() as int) =~= p);
}

proof fn lemma_other_prefix(line: Seq<char>, prefix: Seq<char>, i: int)
    requires
        0 <= i < prefix.len(),
        i < line.len() ==> line[i] != prefix[i],
    ensures
        strip_prefix(line, prefix) is None,
{
    if starts_with(line, prefix) {
        assert(line.take(prefix.len() as int)[i] == prefix[i]);
    }
}

/// A line that starts with another character than `*` and white space is no
/// directive and does not end a patch.
proof fn lemma_plain_line(line: Seq<char>)
    requires
        line.len() == 0 || (line[0] != '*' && !crate::text::is_space(line[0])),
    ensures
        trim_start(line) == line,
        directive(line) is None,
        strip_prefix(line, "*** Move to:"@) is None,
        !is_end_marker(line),
{
    reveal_strlit("*** Add File:");
    reveal_strlit("*** Update File:");
    reveal_strlit("*** Delete File:");
    reveal_strlit("*** Move File:");
    reveal_strlit("*** Move to:");
    reveal_strlit("*** End");
    lemma_other_prefix(line, "*** Add File:"@, 0);
    lemma_other_prefix(line, "*** Update File:"@, 0);
    lemma_other_prefix(line, "*** Delete File:"@, 0);
    lemma_other_prefix(line, "*** Move File:"@, 0);
    lemma_other_prefix(line, "*** Move to:"@, 0);
    lemma_other_prefix(line, "*** End"@, 0);
}

/// Lines, each with a line feed behind it.
pub open spec fn with_feeds(all: Seq<Seq<char>>) -> Seq<char>
    decreases all.len(),
{
    if all.len() == 0 {
        Seq::empty()
    } else {
        with_feeds(all.drop_last()) + all.last().push('\n')
    }
}

proof fn lemma_with_feeds_front(all: Seq<Seq<char>>)
    requires
        all.len() > 0,
    ensures
        with_feeds(all) == all[0].push('\n') + with_feeds(all.skip(1)),
    decreases all.len(),
{
    let rest = all.skip(1);
    if all.len() == 1 {
        assert(all.drop_last() =~= Seq::<Seq<char>>::empty());
        assert(rest =~= Seq::<Seq<char>>::empty());
        assert(Seq::<char>::empty() + all[0].push('\n') =~= all[0].push('\n') + Seq::<
            char,
        >::empty());
    } else {
        lemma_with_feeds_front(all.drop_last());
        assert(all.drop_last().skip(1) =~= rest.drop_last());
        assert((all[0].push('\n') + with_feeds(rest.drop_last())) + all.last().push('\n')
            =~= all[0].push('\n') + (with_feeds(rest.drop_last()) + all.last().push('\n')));
    }
}

/// The lines of a file that is added, each behind a plus sign, become its
/// content one after the other, behind what has been read of it before.
pub proof fn law_added_lines_become_the_file(
    st: ParseState,
    all: Seq<Seq<char>>,
    i: int,
    content: Seq<Seq<char>>,
)
    requires
        0 <= i,
        i + content.len() <= all.len(),
        st.current is Some,
        st.current->0.kind == OpKind::Add,
        forall|j: int| 0 <= j < content.len() ==> #[trigger] all[i + j] == seq!['+'] + content[j],
    ensures
        ({
            let op = st.current->0;
            read_lines(st, all, i) == read_lines(
                ParseState {
                    current: Some(OpView { body: op.body + with_feeds(content), ..op }),
                    ..st
                },
                all,
                i + content.len(),
            )
        }),
    decreases content.len(),
{
    let op = st.current->0;
    if content.len() == 0 {
        assert(op.body + with_feeds(content) =~= op.body);
    } else {
        let line = all[i];
        assert(line == all[i + 0]);
        assert(line =~= seq!['+'] + content[0]);
        assert(line.skip(1) =~= content[0]);
        lemma_plain_line(line);
        let next = OpView { body: op.body + content[0].push('\n'), ..op };
        assert((op.body + line.skip(1)).push('\n') =~= op.body + content[0].push('\n'));
        let st2 = ParseState { current: Some(next), ..st };
        assert(read_line(st, line) == Ok::<ParseState, Seq<char>>(st2));
        let rest = content.skip(1);
        assert forall|j: int| 0 <= j < rest.len() implies #[trigger] all[(i + 1) + j] == seq!['+']
            + rest[j] by {
            assert(all[i + (j + 1)] == seq!['+'] + content[j + 1]);
        }
        law_added_lines_become_the_file(st2, all, i + 1, rest);
        lemma_with_feeds_front(content);
        assert((op.body + content[0].push('\n')) + with_feeds(rest) =~= op.body + with_feeds(
            content,
        ));
    }
}

/// The lines of a hunk, each with its mark, that are not marked by `gone`.
pub open spec fn side(marked_lines: Seq<(char, Seq<char>)>, gone: char) -> Seq<Seq<char>>
    decreases marked_lines.len(),
{
    if marked_lines.len() == 0 {
        Seq::empty()
    } else {
        let before = side(marked_lines.drop_last(), gone);
        if marked_lines.last().0 == gone {
            before
        } else {
            before.push(marked_lines.last().1)
        }
    }
}

proof fn lemma_side_front(marked_lines: Seq<(char, Seq<char>)>, gone: char)
    requires
        marked_lines.len() > 0,
    ensures
        side(marked_lines, gone) == (if marked_lines[0].0 == gone {
            Seq::empty()
        } else {
            seq![marked_lines[0].1]
        }) + side(marked_lines.skip(1), gone),
    decreases marked_lines.len(),
{
    let rest = marked_lines.skip(1);
    let first = if marked_lines[0].0 == gone {
        Seq::empty()
    } else {
        seq![marked_lines[0].1]
    };
    if marked_lines.len() == 1 {
        assert(marked_lines.drop_last() =~= Seq::<(char, Seq<char>)>::empty());
        assert(rest =~= Seq::<(char, Seq<char>)>::empty());
        assert(side(marked_lines.drop_last(), gone) =~= Seq::<Seq<char>>::empty());
        assert(side(rest, gone) =~= Seq::<Seq<char>>::empty());
        assert(marked_lines.last() == marked_lines[0]);
        assert(side(marked_lines, gone) =~= first + Seq::<Seq<char>>::empty());
    } else {
        lemma_side_front(marked_lines.drop_last(), gone);
        assert(marked_lines.drop_last().skip(1) =~= rest.drop_last());
        assert(side(marked_lines, gone) =~= first + side(rest, gone));
    }
}

/// The lines of a hunk become what it looks for and what takes its place:
/// those marked by a blank are in both, those marked by a minus sign are
/// looked for, and those marked by a plus sign are put in. The order stays,
/// and so do the hunks before it.
pub proof fn law_hunk_lines_become_both_sides(
    st: ParseState,
    all: Seq<Seq<char>>,
    i: int,
    marked_lines: Seq<(char, Seq<char>)>,
)
    requires
        0 <= i,
        i + marked_lines.len() <= all.len(),
        st.current is Some,
        st.current->0.kind == OpKind::Update,
        st.current->0.hunks.len() > 0,
        forall|j: int|
            #![trigger marked_lines[j]]
            0 <= j < marked_lines.len() ==> {
                let l = marked_lines[j];
                &&& l.0 == ' ' || l.0 == '-' || l.0 == '+'
                &&& all[i + j] == seq![l.0] + l.1
                &&& l.0 == ' ' ==> {
                    let t = trim_start(seq![' '] + l.1);
                    t != "@@"@ && (t.len() == 0 || t[0] != '*')
                }
            },
    ensures
        ({
            let op = st.current->0;
            let h = op.hunks.last();
            read_lines(st, all, i) == read_lines(
                ParseState {
                    current: Some(
                        OpView {
                            hunks: op.hunks.drop_last().push(
                                HunkView {
                                    search: h.search + side(marked_lines, '+'),
                                    replace: h.replace + side(marked_lines, '-'),
                                },
                            ),
                            ..op
                        },
                    ),
                    ..st
                },
                all,
                i + marked_lines.len(),
            )
        }),
    decreases marked_lines.len(),
{
    let op = st.current->0;
    let h = op.hunks.last();
    if marked_lines.len() == 0 {
        assert(h.search + side(marked_lines, '+') =~= h.search);
        assert(h.replace + side(marked_lines, '-') =~= h.replace);
        assert(op.hunks.drop_last().push(h) =~= op.hunks);
        assert(op.hunks.drop_last().push(
            HunkView {
                search: h.search + side(marked_lines, '+'),
                replace: h.replace + side(marked_lines, '-'),
            },
        ) =~= op.hunks);
    } else {
        let l = marked_lines[0];
        let line = all[i];
        assert(line == all[i + 0]);
        assert(line =~= seq![l.0] + l.1);
        assert(line.skip(1) =~= l.1);
        reveal_strlit("@@");
        let t = trim_start(line);
        if l.0 == ' ' {
            lemma_trimmed_plain(t);
        } else {
            lemma_plain_line(line);
        }
        let h2 = HunkView {
            search: if l.0 == '+' {
                h.search
            } else {
                h.search.push(l.1)
            },
            replace: if l.0 == '-' {
                h.replace
            } else {
                h.replace.push(l.1)
            },
        };
        let next = OpView { hunks: op.hunks.drop_last().push(h2), ..op };
        let st2 = ParseState { current: Some(next), ..st };
        assert(read_line(st, line) == Ok::<ParseState, Seq<char>>(st2));
        let rest = marked_lines.skip(1);
        assert forall|j: int| #![trigger rest[j]] 0 <= j < rest.len() implies {
            let m = rest[j];
            &&& m.0 == ' ' || m.0 == '-' || m.0 == '+'
            &&& all[(i + 1) + j] == seq![m.0] + m.1
            &&& m.0 == ' ' ==> {
                let u = trim_start(seq![' '] + m.1);
                u != "@@"@ && (u.len() == 0 || u[0] != '*')
            }
        } by {
            assert(rest[j] == marked_lines[j + 1]);
            assert(all[i + (j + 1)] == all[(i + 1) + j]);
        }
        law_hunk_lines_become_both_sides(st2, all, i + 1, rest);
        lemma_side_front(marked_lines, '+');
        lemma_side_front(marked_lines, '-');
        assert(next.hunks.drop_last() =~= op.hunks.drop_last());
        assert(next.hunks.last() == h2);
        assert(h2.search + side(rest, '+') =~= h.search + side(marked_lines, '+'));
        assert(h2.replace + side(rest, '-') =~= h.replace + side(marked_lines, '-'));
    }
}

proof fn lemma_trimmed_plain(t: Seq<char>)
    requires
        t.len() == 0 || t[0] != '*',
    ensures
        directive(t) is None,
        strip_prefix(t, "*** Move to:"@) is None,
        !is_end_marker(t),
{
    reveal_strlit("*** Add File:");
    reveal_strlit("*** Update File:");
    reveal_strlit("*** Delete File:");
    reveal_strlit("*** Move File:");
    reveal_strlit("*** Move to:");
    reveal_strlit("*** End");
    lemma_other_prefix(t, "*** Add File:"@, 0);
    lemma_other_prefix(t, "*** Update File:"@, 0);
    lemma_other_prefix(t, "*** Delete File:"@, 0);
    lemma_other_prefix(t, "*** Move File:"@, 0);
    lemma_other_prefix(t, "*** Move to:"@, 0);
    lemma_other_prefix(t, "*** End"@, 0);
}

/// The marker `@@` opens one more hunk in an update, and a destination is
/// taken by a move and by nothing else.
pub proof fn law_markers_reach_their_operation(st: ParseState, p: Seq<char>)
    requires
        st.current is Some,
    ensures
        ({
            let op = st.current->0;
            &&& op.kind == OpKind::Update ==> read_line(st, "@@"@) == Ok::<ParseState, Seq<char>>(
                ParseState {
                    current: Some(
                        OpView {
                            hunks: op.hunks.push(
                                HunkView { search: Seq::empty(), replace: Seq::empty() },
                            ),
                            ..op
                        },
                    ),
                    ..st
                },
            )
            &&& op.kind == OpKind::Move ==> read_line(st, "*** Move to:"@ + p) == Ok::<
                ParseState,
                Seq<char>,
            >(ParseState { current: Some(OpView { move_to: Some(trim(p)), ..op }), ..st })
            &&& op.kind != OpKind::Move ==> read_line(st, "*** Move to:"@ + p) is Err
        }),
{
    reveal_strlit("@@");
    lemma_plain_line("@@"@);
    reveal_strlit("*** Move to:");
    reveal_strlit("*** Add File:");
    reveal_strlit("*** Update File:");
    reveal_strlit("*** Delete File:");
    reveal_strlit("*** Move File:");
    let line = "*** Move to:"@ + p;
    assert(line[0] == '*' && line[4] == 'M' && line[9] == 't');
    lemma_prefix_at("*** Move to:"@, p);
    lemma_other_prefix(line, "*** Add File:"@, 4);
    lemma_other_prefix(line, "*** Update File:"@, 4);
    lemma_other_prefix(line, "*** Delete File:"@, 4);
    lemma_other_prefix(line, "*** Move File:"@, 9);
}

/// A line that has no place is an error: one before any operation, one
/// below a deletion or a move, a line of an added file without a plus sign,
/// and a line of an update before its first hunk or without a mark.
pub proof fn law_stray_lines_are_refused(st: ParseState, line: Seq<char>)
    requires
        line.len() > 0,
        line[0] != '*' && line[0] != '+' && line[0] != '-' && line[0] != '@',
        !crate::text::is_space(line[0]),
    ensures
        read_line(st, line) is Err,
        st.current is Some && st.current->0.kind == OpKind::Update && st.current->0.hunks.len() == 0
            ==> read_line(st, seq!['+'] + line) is Err && read_line(st, seq!['-'] + line) is Err,
        st.current is Some && (st.current->0.kind == OpKind::Delete || st.current->0.kind
            == OpKind::Move) ==> read_line(st, seq!['+'] + line) is Err,
        st.current is None ==> read_line(st, seq!['+'] + line) is Err,
{
    lemma_plain_line(line);
    reveal_strlit("@@");
    assert("@@"@[0] == '@');
    let plus = seq!['+'] + line;
    let minus = seq!['-'] + line;
    assert(plus[0] == '+' && minus[0] == '-');
    lemma_plain_line(plus);
    lemma_plain_line(minus);
}

/// Reading on keeps every operation that was read before, in its place, and
/// the one being read keeps its kind, its path and the content it has.
pub proof fn law_operations_are_kept(st: ParseState, all: Seq<Seq<char>>, i: int)
    requires
        0 <= i,
        read_lines(st, all, i) is Ok,
    ensures
        ({
            let ops = read_lines(st, all, i)->Ok_0;
            &&& ops.len() >= st.ops.len()
            &&& ops.len() > 0
            &&& forall|k: int| 0 <= k < st.ops.len() ==> #[trigger] ops[k] == st.ops[k]
            &&& st.current matches Some(op) ==> {
                &&& ops.len() > st.ops.len()
                &&& ops[st.ops.len() as int].kind == op.kind
                &&& ops[st.ops.len() as int].path == op.path
                &&& op.body.is_prefix_of(ops[st.ops.len() as int].body)
                &&& ops[st.ops.len() as int].hunks.len() >= op.hunks.len()
            }
        }),
    decreases all.len() - i,
{
    let ops = read_lines(st, all, i)->Ok_0;
    if i >= all.len() || is_end_marker(trim_start(all[i])) {
        assert(ops == st.closed());
        if let Some(op) = st.current {
            assert(op.body.is_prefix_of(op.body));
        }
    } else {
        let next = read_line(st, all[i])->Ok_0;
        law_operations_are_kept(next, all, i + 1);
        if directive(trim_start(all[i])) is Some {
            if let Some(op) = st.current {
                assert(next.ops[st.ops.len() as int] == op);
                assert(ops[st.ops.len() as int] == op);
                assert(op.body.is_prefix_of(op.body));
            }
            assert forall|k: int| 0 <= k < st.ops.len() implies #[trigger] ops[k] == st.ops[k] by {
                assert(next.ops[k] == st.ops[k]);
            }
        } else if let Some(op) = st.current {
            let now = next.current->0;
            assert(op.body.is_prefix_of(now.body));
            assert(now.kind == op.kind && now.path == op.path);
            assert(now.hunks.len() >= op.hunks.len());
            let last = ops[st.ops.len() as int];
            assert(op.body =~= last.body.take(op.body.len() as int)) by {
                assert(now.body == last.body.take(now.body.len() as int));
                assert(op.body == now.body.take(op.body.len() as int));
            }
        }
    }
}

/// What follows the end of a patch is not read, and a patch without a
/// beginning or without an operation is refused.
pub proof fn law_patch_has_a_frame(body: Seq<char>, all: Seq<Seq<char>>, st: ParseState, i: int)
    requires
        0 <= i < all.len(),
    ensures
        all[i] == "*** End Patch"@ || all[i] == "*** End of Patch"@ ==> read_lines(st, all, i)
            == read_lines(st, all.take(i), i),
        st.ops.len() == 0 && st.current is None ==> read_lines(st, all.take(i), i) is Err,
        st.ops.len() > 0 || st.current is Some ==> read_lines(st, all.take(i), i) == Ok::<
            Seq<OpView>,
            Seq<char>,
        >(
            match st.current {
                Some(op) => st.ops.push(op),
                None => st.ops,
            },
        ),
        parsed(body) is Ok ==> lines(body).len() > 0 && starts_with(
            trim_start(lines(body)[0]),
            "*** Begin Patch"@,
        ),
{
    reveal_strlit("*** End Patch");
    reveal_strlit("*** End of Patch");
    reveal_strlit("*** End");
    reveal_strlit("Patch");
    reveal_strlit("of Patch");
    let a = "*** End Patch"@;
    let b = "*** End of Patch"@;
    assert(a =~= "*** End"@ + (seq![' '] + "Patch"@));
    assert(b =~= "*** End"@ + (seq![' '] + "of Patch"@));
    lemma_prefix_at("*** End"@, seq![' '] + "Patch"@);
    lemma_prefix_at("*** End"@, seq![' '] + "of Patch"@);
    assert((seq![' '] + "Patch"@).skip(1) =~= "Patch"@);
    assert((seq![' '] + "of Patch"@).skip(1) =~= "of Patch"@);
    assert(crate::text::is_space(' '));
    assert(trim_start(seq![' '] + "Patch"@) == trim_start("Patch"@));
    assert(trim_start(seq![' '] + "of Patch"@) == trim_start("of Patch"@));
    assert("Patch"@.take(5) =~= "Patch"@);
    assert("of Patch"@.take(8) =~= "of Patch"@);
    assert(is_end_marker(a));
    assert(is_end_marker(b));
}

proof fn lemma_two_places<T>(s: Seq<T>, pat: Seq<T>, p: int, q: int)
    requires
        pat.len() > 0,
        0 <= p,
        p + pat.len() <= q,
        q + pat.len() <= s.len(),
        s.subrange(p, p + pat.len()) == pat,
        s.subrange(q, q + pat.len()) == pat,
    ensures
        count_from(s, pat, 0) >= 2,
{
    lemma_find_from(s, pat, 0);
    let f = find_from(s, pat, 0)->0;
    assert(f <= p);
    lemma_find_from(s, pat, f + pat.len());
    assert(s.subrange(q, q + pat.len()) == pat);
    assert(find_from(s, pat, f + pat.len()) is Some);
    assert(count_from(s, pat, f + pat.len()) >= 1);
    assert(count_from(s, pat, 0) == 1 + count_from(s, pat, f + pat.len()));
}

/// A hunk is applied where its place is clear: not if it looks for nothing,
/// not if its lines stand nowhere or in two places, and always if they stand
/// in one place only.
pub proof fn law_hunk_needs_one_place(
    all: Seq<Seq<char>>,
    hunk: HunkView,
    k: int,
    path: Seq<char>,
    p: int,
    q: int,
)
    requires
        0 <= p,
        p + hunk.search.len() <= all.len(),
    ensures
        hunk.search.len() == 0 ==> hunk_applied(all, hunk, k, path) is Err,
        hunk.search.len() > 0 && (forall|x: int|
            0 <= x <= all.len() - hunk.search.len() ==> #[trigger] all.subrange(
                x,
                x + hunk.search.len(),
            ) != hunk.search) ==> hunk_applied(all, hunk, k, path) is Err,
        hunk.search.len() > 0 && all.subrange(p, p + hunk.search.len()) == hunk.search && p
            + hunk.search.len() <= q <= all.len() - hunk.search.len() && all.subrange(
            q,
            q + hunk.search.len(),
        ) == hunk.search ==> hunk_applied(all, hunk, k, path) is Err,
        hunk.search.len() > 0 && all.subrange(p, p + hunk.search.len()) == hunk.search && (forall|
            x: int,
        |
            0 <= x <= all.len() - hunk.search.len() && x != p ==> #[trigger] all.subrange(
                x,
                x + hunk.search.len(),
            ) != hunk.search) ==> hunk_applied(all, hunk, k, path) == Ok::<
            Seq<Seq<char>>,
            Seq<char>,
        >(all.take(p) + hunk.replace + all.skip(p + hunk.search.len())),
{
    if hunk.search.len() > 0 {
        lemma_find_from(all, hunk.search, 0);
        if all.subrange(p, p + hunk.search.len()) == hunk.search {
            if p + hunk.search.len() <= q <= all.len() - hunk.search.len() && all.subrange(
                q,
                q + hunk.search.len(),
            ) == hunk.search {
                lemma_two_places(all, hunk.search, p, q);
            }
            if forall|x: int|
                0 <= x <= all.len() - hunk.search.len() && x != p ==> #[trigger] all.subrange(
                    x,
                    x + hunk.search.len(),
                ) != hunk.search {
                assert(find_from(all, hunk.search, 0) == Some(p));
                let after = p + hunk.search.len();
                lemma_find_from(all, hunk.search, after);
                if let Some(x) = find_from(all, hunk.search, after) {
                    assert(all.subrange(x, x + hunk.search.len()) == hunk.search);
                }
                assert(count_from(all, hunk.search, after) == 0);
                assert(count_from(all, hunk.search, 0) == 1 + count_from(all, hunk.search, after));
            }
        }
    }
}

/// A patched file is made of the lines that the hunks leave, with the line
/// end that the file had; one hunk that does not apply leaves the file as it
/// is.
pub proof fn law_failed_hunk_fails_the_update(
    op: OpView,
    target: Seq<char>,
    text: Seq<char>,
    pid: u32,
)
    ensures
        text_patched(text, op.hunks, op.path) is Err ==> update_edit(
            op,
            target,
            FileTextView::Text(text),
            pid,
        ) is Err,
        update_edit(op, target, FileTextView::Text(text), pid) matches Ok(u) ==> text_patched(
            text,
            op.hunks,
            op.path,
        ) == Ok::<Seq<char>, Seq<char>>(u.0) && temp_path(target, pid) == Ok::<
            Seq<char>,
            Seq<char>,
        >(u.1),
        update_edit(op, target, FileTextView::Missing, pid) is Err,
        op.hunks.len() > 0 && hunk_applied(text_lines(text), op.hunks[0], 0, op.path) is Err
            ==> text_patched(text, op.hunks, op.path) is Err,
{
}

/// A line as it is shown: behind its mark and with a line feed.
pub open spec fn shown_line(mark: char, line: Seq<char>) -> Seq<char> {
    if line.len() > 0 && line.last() == '\n' {
        seq![mark] + line
    } else {
        seq![mark] + line + seq!['\n']
    }
}

proof fn lemma_marked(mark: char, all: Seq<Seq<char>>, n: int)
    requires
        0 <= n <= all.len(),
    ensures
        marked(mark, all, n) == crate::text::flat(Seq::new(n as nat, |i: int| shown_line(mark, all[i]))),
    decreases n,
{
    let shown = Seq::new(n as nat, |i: int| shown_line(mark, all[i]));
    if n > 0 {
        lemma_marked(mark, all, n - 1);
        assert(shown.drop_last() =~= Seq::new((n - 1) as nat, |i: int| shown_line(mark, all[i])));
        assert(shown.last() == shown_line(mark, all[n - 1]));
        assert(marked(mark, all, n) =~= marked(mark, all, n - 1) + shown_line(mark, all[n - 1]));
    }
}

/// A change is shown by all old lines, marked as removed, and then all new
/// ones, marked as added.
pub proof fn law_every_line_of_a_change_is_shown(old_text: Seq<char>, new_text: Seq<char>)
    ensures
        diff(old_text, new_text) == "--- before\n+++ after\n"@ + crate::text::flat(
            Seq::new(
                split_inclusive(old_text).len(),
                |i: int| shown_line('-', split_inclusive(old_text)[i]),
            ),
        ) + crate::text::flat(
            Seq::new(
                split_inclusive(new_text).len(),
                |i: int| shown_line('+', split_inclusive(new_text)[i]),
            ),
        ),
{
    lemma_marked('-', split_inclusive(old_text), split_inclusive(old_text).len() as int);
    lemma_marked('+', split_inclusive(new_text), split_inclusive(new_text).len() as int);
}

/// A find-and-replace is done just if the text is there, and once only or
/// all are asked for. One occurrence is replaced where it stands and all
/// else stays; replacing all changes the length once for each.
pub proof fn law_replace_is_clear_or_refused(req: ReplaceView, text: Seq<char>)
    requires
        req.old_string.len() > 0,
    ensures
        replaced(req, text) is Ok <==> count_from(text, req.old_string, 0) == 1 || (req.replace_all
            && count_from(text, req.old_string, 0) > 0),
        find_from(text, req.old_string, 0) is None ==> replaced(req, text) is Err,
        replaced(req, text) is Ok && count_from(text, req.old_string, 0) == 1 ==> exists|p: int|
            0 <= p <= text.len() - req.old_string.len() && #[trigger] text.subrange(
                p,
                p + req.old_string.len(),
            ) == req.old_string && replaced(req, text)->Ok_0 == text.take(p) + req.new_string
                + text.skip(p + req.old_string.len()),
        replaced(req, text) matches Ok(now) ==> now.len() + count_from(text, req.old_string, 0)
            * req.old_string.len() == text.len() + count_from(text, req.old_string, 0)
            * req.new_string.len(),
        replaced(req, text) is Ok && req.new_string == req.old_string ==> replaced(req, text)->Ok_0
            == text,
{
    crate::text::law_replacing_all(text, req.old_string, req.new_string, 0);
    assert(text.skip(0) =~= text);
    if count_from(text, req.old_string, 0) == 1 {
        crate::text::law_replacing_the_only_one(text, req.old_string, req.new_string);
        law_unique_match_needs_no_replace_all(text, req.old_string, req.new_string);
    }
}

/// What is stored is the replaced text, and the change that is shown is the
/// one from the old text to it; a file that is not there is not written.
pub proof fn law_replaced_text_is_stored(req: ReplaceView, found: FileTextView, pid: u32)
    ensures
        replace_edit(req, found, pid) matches Ok(e) ==> found is Text && replaced(
            req,
            found->Text_0,
        ) == Ok::<Seq<char>, JsonView>(e.updated) && e.diff == diff(found->Text_0, e.updated)
            && temp_path(req.resolved, pid) == Ok::<Seq<char>, Seq<char>>(e.temp),
        found is Text && replaced(req, found->Text_0) is Ok && temp_path(req.resolved, pid) is Ok
            ==> replace_edit(req, found, pid) is Ok,
{
}

/// A call is carried out with just what it says, and never on a path that
/// must not be written.
pub proof fn law_patch_call_is_taken_as_given(
    args: JsonView,
    working_dir: Seq<char>,
    env: EnvironmentView,
)
    ensures
        patch_plan(args, working_dir, env) matches PatchPlanView::Replace(r) ==> {
            &&& args.text_at("mode"@) == Some("replace"@)
            &&& args.text_at("path"@) == Some(r.path)
            &&& args.text_at("old_string"@) == Some(r.old_string)
            &&& args.text_at("new_string"@) == Some(r.new_string)
            &&& args.flag_at("replace_all"@) == r.replace_all
            &&& resolved(r.path, working_dir, env.home) == Ok::<Seq<char>, Seq<char>>(r.resolved)
            &&& write_refusal(r.path, r.resolved, args.flag_at("cross_profile"@), env) is None
            &&& !is_status_text(r.new_string)
        },
        patch_plan(args, working_dir, env) matches PatchPlanView::Apply { ops, cross_profile } ==> {
            &&& args.text_at("mode"@) == Some("patch"@)
            &&& args.text_at("patch"@) is Some
            &&& parsed(args.text_at("patch"@)->0) == Ok::<Seq<OpView>, Seq<char>>(ops)
            &&& cross_profile == args.flag_at("cross_profile"@)
        },
        args.text_at("mode"@) == Some("replace"@) && args.text_at("path"@) is Some && args.text_at(
            "old_string"@,
        ) is Some && args.text_at("new_string"@) is Some && !is_status_text(
            args.text_at("new_string"@)->0,
        ) && resolved(args.text_at("path"@)->0, working_dir, env.home) is Ok && write_refusal(
            args.text_at("path"@)->0,
            resolved(args.text_at("path"@)->0, working_dir, env.home)->Ok_0,
            args.flag_at("cross_profile"@),
            env,
        ) is None ==> patch_plan(args, working_dir, env) is Replace,
        args.text_at("mode"@) == Some("patch"@) && args.text_at("patch"@) is Some && parsed(
            args.text_at("patch"@)->0,
        ) is Ok ==> patch_plan(args, working_dir, env) is Apply,
{
    reveal_strlit("replace");
    reveal_strlit("patch");
    assert("replace"@.len() != "patch"@.len());
}

/// Whatever an operation does, it does it to the paths that it names, and
/// neither end of it is a path that must not be written.
pub proof fn law_operations_touch_allowed_paths_only(
    op: OpView,
    working_dir: Seq<char>,
    env: EnvironmentView,
    cross_profile: bool,
)
    ensures
        op_plan(op, working_dir, env, cross_profile) matches Ok(plan) ==> {
            let target = resolved(op.path, working_dir, env.home);
            &&& target is Ok
            &&& write_refusal(op.path, target->Ok_0, cross_profile, env) is None
            &&& op.kind == OpKind::Add <==> plan is Add
            &&& op.kind == OpKind::Update <==> plan is Update
            &&& op.kind == OpKind::Delete <==> plan is Delete
            &&& op.kind == OpKind::Move <==> plan is Move
            &&& plan is Add ==> plan->Add_target == target->Ok_0
            &&& plan is Update ==> plan->Update_target == target->Ok_0 && op.hunks.len() > 0
            &&& plan is Delete ==> plan->Delete_target == target->Ok_0
            &&& plan is Move ==> plan->Move_target == target->Ok_0 && op.move_to is Some
                && resolved(op.move_to->0, working_dir, env.home) == Ok::<Seq<char>, Seq<char>>(
                plan->dest,
            ) && write_refusal(op.move_to->0, plan->dest, cross_profile, env) is None
        },
        resolved(op.path, working_dir, env.home) is Ok && write_refusal(
            op.path,
            resolved(op.path, working_dir, env.home)->Ok_0,
            cross_profile,
            env,
        ) is None && (op.kind == OpKind::Add || op.kind == OpKind::Delete || (op.kind
            == OpKind::Update && op.hunks.len() > 0)) ==> op_plan(
            op,
            working_dir,
            env,
            cross_profile,
        ) is Ok,
{
}

/// A patch succeeds just if every operation was applied; each has its own
/// report, with its path and the reason if it was rejected.
pub proof fn law_every_operation_is_reported(
    ops: Seq<OpView>,
    outcomes: Seq<OutcomeView>,
    i: int,
)
    requires
        ops.len() == outcomes.len(),
        0 <= i < ops.len(),
    ensures
        patch_reply(ops, outcomes).flag_at("success"@) ==> outcomes[i] is Applied,
        (forall|k: int| 0 <= k < outcomes.len() ==> (#[trigger] outcomes[k]) is Applied)
            ==> patch_reply(ops, outcomes).flag_at("success"@),
        ({
            let results = patch_reply(ops, outcomes).get("results"@);
            &&& results is Some
            &&& results->0 is Array
            &&& results->0->Array_0.len() == ops.len()
            &&& results->0->Array_0[i].text_at("path"@) == Some(ops[i].path)
            &&& outcomes[i] is Applied ==> results->0->Array_0[i].text_at("status"@) == Some(
                "applied"@,
            )
            &&& outcomes[i] matches OutcomeView::Rejected(m) ==> results->0->Array_0[i].text_at(
                "status"@,
            ) == Some("rejected"@) && results->0->Array_0[i].text_at("reason"@) == Some(m)
        }),
{
    reveal_strlit("success");
    reveal_strlit("files_modified");
    reveal_strlit("results");
    reveal_strlit("op");
    reveal_strlit("path");
    reveal_strlit("status");
    reveal_strlit("reason");
    assert("success"@.len() == 7 && "files_modified"@.len() == 14 && "results"@.len() == 7);
    assert("success"@[0] == 's' && "results"@[0] == 'r');
    assert("op"@.len() == 2 && "path"@.len() == 4 && "status"@.len() == 6 && "reason"@.len() == 6);
    assert("status"@[0] == 's' && "reason"@[0] == 'r');
    let all = Seq::new(ops.len(), |k: int| op_report(ops[k], outcomes[k]));
    assert(all[i] == op_report(ops[i], outcomes[i]));
}

/// An empty line is a line too: it becomes an empty line of a file that is
/// added, and one of both sides of a hunk.
pub proof fn law_empty_lines_are_kept(st: ParseState)
    requires
        st.current is Some,
    ensures
        ({
            let op = st.current->0;
            let next = read_line(st, Seq::empty());
            &&& op.kind == OpKind::Add ==> next == Ok::<ParseState, Seq<char>>(
                ParseState {
                    current: Some(OpView { body: op.body + seq!['\n'], ..op }),
                    ..st
                },
            )
            &&& op.kind == OpKind::Update && op.hunks.len() > 0 ==> {
                &&& next is Ok && next->Ok_0.current is Some && next->Ok_0.ops == st.ops
                &&& next->Ok_0.current->0.hunks.drop_last() == op.hunks.drop_last()
                &&& next->Ok_0.current->0.hunks.last().search == op.hunks.last().search.push(
                    Seq::empty(),
                )
                &&& next->Ok_0.current->0.hunks.last().replace == op.hunks.last().replace.push(
                    Seq::empty(),
                )
            }
        }),
{
    let op = st.current->0;
    let line = Seq::<char>::empty();
    lemma_trimmed_plain(trim_start(line));
    reveal_strlit("@@");
    assert("@@"@.len() == 2);
    assert(op.body.push('\n') =~= op.body + seq!['\n']);
    if op.kind == OpKind::Update && op.hunks.len() > 0 {
        let now = read_line(st, line)->Ok_0.current->0;
        assert(now.hunks.drop_last() =~= op.hunks.drop_last());
    }
}

/// A hunk that is not applied says why: it has nothing to look for, it was
/// not found, or it was found in so many places. A patch without a line is
/// empty.
pub proof fn law_failed_hunk_says_why(
    all: Seq<Seq<char>>,
    hunk: HunkView,
    k: int,
    path: Seq<char>,
    body: Seq<char>,
)
    ensures
        hunk_applied(all, hunk, k, path) matches Err(e) ==> {
            &&& starts_with(e, hunk_label(k, path))
            &&& hunk.search.len() == 0 ==> crate::context::summary::holds(
                e,
                "has no search context"@,
            )
            &&& hunk.search.len() > 0 && find_from(all, hunk.search, 0) is None
                ==> crate::context::summary::holds(e, "search text not found in file"@)
            &&& hunk.search.len() > 0 && find_from(all, hunk.search, 0) is Some
                ==> crate::context::summary::holds(
                e,
                decimal(count_from(all, hunk.search, 0)) + " locations"@,
            )
        },
        lines(body).len() == 0 ==> parsed(body) == Err::<Seq<OpView>, Seq<char>>(
            "empty patch body"@,
        ),
{
    let label = hunk_label(k, path);
    let n = count_from(all, hunk.search, 0);
    let at = label.len() as int;
    if let Err(e) = hunk_applied(all, hunk, k, path) {
        assert(e.take(at) =~= label);
        if hunk.search.len() == 0 {
            reveal_strlit("' has no search context (every line is '+'); include a context (' ') or deletion ('-') line to anchor the position");
            reveal_strlit("has no search context");
            assert(e.subrange(at + 2, at + 2 + "has no search context"@.len())
                =~= "has no search context"@);
        } else if find_from(all, hunk.search, 0) is None {
            assert(n == 0);
            reveal_strlit("' did not apply: search text not found in file. Re-read the file to confirm current contents, or include more context lines.");
            reveal_strlit("search text not found in file");
            assert(e.subrange(at + 17, at + 17 + "search text not found in file"@.len())
                =~= "search text not found in file"@);
        } else {
            assert(n >= 1);
            reveal_strlit("' matched ");
            reveal_strlit(" locations. Add more context lines to make the match unique.");
            reveal_strlit(" locations");
            let part = decimal(n) + " locations"@;
            assert(e.subrange(at + 10, at + 10 + part.len()) =~= part);
        }
    }
}

/// The directory that a file needs is the one it lies in; a bare name needs
/// none.
pub proof fn law_file_needs_its_directory(d: Seq<char>, a: Seq<char>, b: Seq<char>)
    requires
        d.len() == 0 || d.last() == '/',
        crate::path::is_plain_name(a),
        crate::path::is_plain_name(b),
    ensures
        needed_dir(crate::path::join_path(d + a, b)) == Some(d + a),
        needed_dir(b) is None,
{
    crate::path::law_last_component(d, a, b);
    crate::path::law_bare_name_has_no_directory(b);
}

/// A patch that starts as one does is read from its second line on, with no
/// operation read before.
pub proof fn law_patch_is_read_behind_its_start(body: Seq<char>)
    requires
        lines(body).len() > 0,
        starts_with(trim_start(lines(body)[0]), "*** Begin Patch"@),
    ensures
        parsed(body) == read_lines(
            ParseState { ops: Seq::empty(), current: None },
            lines(body),
            1,
        ),
{
}

/// A hunk is named by its number, counted from one, and the path of its
/// file.
pub proof fn law_hunk_is_named(k: int, path: Seq<char>)
    requires
        0 <= k,
    ensures
        crate::context::summary::holds(hunk_label(k, path), "#"@ + decimal((k + 1) as nat) + " "@),
        crate::text::ends_with(hunk_label(k, path), path),
{
    reveal_strlit("hunk #");
    reveal_strlit(" for '");
    reveal_strlit("#");
    reveal_strlit(" ");
    let n = decimal((k + 1) as nat);
    let part = "#"@ + n + " "@;
    let l = hunk_label(k, path);
    let at: int = 5;
    assert(l.subrange(at, at + part.len()) =~= part);
    assert(l.skip(l.len() - path.len()) =~= path);
}

/// What goes wrong with a patch is told with what it is about: the line
/// that has no place, the mode that is unknown, the file that is not there,
/// how often a text was found, and the words of the system.
pub proof fn law_patch_errors_say_what_is_wrong(
    st: ParseState,
    line: Seq<char>,
    args: JsonView,
    working_dir: Seq<char>,
    env: EnvironmentView,
    step: OpStep,
    e: Seq<char>,
)
    ensures
        st.current is None && directive(trim_start(line)) is None && strip_prefix(
            trim_start(line),
            "*** Move to:"@,
        ) is None ==> (read_line(st, line) matches Err(m) && crate::context::summary::holds(m, line)),
        st.current matches Some(op) ==> ((op.kind == OpKind::Delete || op.kind == OpKind::Move)
            ==> (body_line(op, line) matches Err(m) && crate::context::summary::holds(m, line)
            && crate::context::summary::holds(m, kind_name(op.kind)))),
        args.text_at("mode"@) matches Some(mode) ==> (mode != "replace"@ && mode != "patch"@ ==> (
        patch_plan(args, working_dir, env) matches PatchPlanView::Reply(r) && r.text_at(
            "error"@,
        ) is Some && crate::context::summary::holds(r.text_at("error"@)->0, mode))),
        crate::context::summary::holds(step_failed(step, e), e),
{
    let none = Seq::<char>::empty();
    crate::context::summary::lemma_holds("Unexpected line in patch: "@, line, none);
    if let Some(op) = st.current {
        let name = kind_name(op.kind);
        let start = "Unexpected body line for "@;
        crate::context::summary::lemma_holds(start, name, " op: "@ + line);
        assert(start + name + (" op: "@ + line) =~= start + name + " op: "@ + line);
        crate::context::summary::lemma_holds(start + name + " op: "@, line, none);
    }
    if let Some(mode) = args.text_at("mode"@) {
        crate::context::summary::lemma_holds(
            "Unknown patch mode '"@,
            mode,
            "'. Expected 'replace' or 'patch'."@,
        );
    }
    crate::context::summary::lemma_holds("failed to create parent dir: "@, e, none);
    crate::context::summary::lemma_holds("failed to write file: "@, e, none);
    crate::context::summary::lemma_holds("failed to write temp file: "@, e, none);
    crate::context::summary::lemma_holds("atomic rename failed: "@, e, none);
    crate::context::summary::lemma_holds("failed to delete file: "@, e, none);
    crate::context::summary::lemma_holds("failed to create destination dir: "@, e, none);
    crate::context::summary::lemma_holds("failed to move file: "@, e, none);
}

/// A file that is not there is named, a failure to read it is told in the
/// words of the system, and a text that is found too often is told with how
/// often.
pub proof fn law_failed_edit_says_why(
    op: OpView,
    req: ReplaceView,
    target: Seq<char>,
    text: Seq<char>,
    pid: u32,
    e: Seq<char>,
)
    ensures
        ({
            let said = |r: JsonView, t: Seq<char>|
                r.text_at("error"@) is Some && crate::context::summary::holds(
                    r.text_at("error"@)->0,
                    t,
                );
            &&& update_edit(op, target, FileTextView::Missing, pid) matches Err(m)
                && crate::context::summary::holds(m, op.path)
            &&& update_edit(op, target, FileTextView::Failed(e), pid) matches Err(m)
                && crate::context::summary::holds(m, e)
            &&& replace_edit(req, FileTextView::Missing, pid) matches Err(r) && said(r, req.path)
            &&& replace_edit(req, FileTextView::Failed(e), pid) matches Err(r) && said(r, e)
            &&& count_from(text, req.old_string, 0) > 1 && !req.replace_all ==> (replaced(
                req,
                text,
            ) matches Err(r) && said(r, decimal(count_from(text, req.old_string, 0))))
        }),
{
    let none = Seq::<char>::empty();
    crate::context::summary::lemma_holds("Update target file not found: "@, op.path, none);
    crate::context::summary::lemma_holds("read failed: "@, e, none);
    crate::context::summary::lemma_holds("File not found: "@, req.path, none);
    crate::context::summary::lemma_holds(
        "old_string matches multiple ("@,
        decimal(count_from(text, req.old_string, 0)),
        ") locations. Pass replace_all=true to replace all, or include more surrounding context to make the match unique."@,
    );
}

} // verus!
