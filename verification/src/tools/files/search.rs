//! `SearchFilesTool`: finding text in files, and files by name.
//!
//! Content is searched by ripgrep where it is installed, and by a plain
//! walk that looks for the pattern as it stands where it is not. Both give
//! the same kind of reply.

use vstd::prelude::*;
use vstd::string::*;

use crate::json::{json_read, model, models, text_array, Json, JsonView};
use crate::order::{sort_distinct, sorted_distinct};
use crate::path::{extension, extension_text, file_name, file_name_text};
use crate::text::{
    byte_count, byte_len, chars_of, decimal, decimal_text, find_chars, find_from, lemma_find_from,
    lines, lines_text, lower, push_text, same, string_between, take_text, trim, trim_text, views,
};
use crate::tool::{
    error_json, error_reply, error_reply2, opt_view, Environment, EnvironmentView,
};
use crate::tools::files::policy::{is_binary_extension, names_binary};
use crate::tools::support::content::{decode_lossy, lossy_text};
use crate::tools::support::path::{resolve_user_path, resolved};
use crate::tools::support::schema::{
    choice, choice_param, number, object_schema, object_schema_json, typed, typed_param, words1,
    words2, words3,
};

verus! {

// ---------------------------------------------------------------------
// Wildcards
// ---------------------------------------------------------------------

/// Whether the first `i` characters of the pattern match the first `j` of
/// the name; `*` stands for any characters, also for none.
pub open spec fn globs(pattern: Seq<char>, name: Seq<char>, i: int, j: int) -> bool
    decreases i, j,
{
    if i <= 0 {
        j <= 0
    } else if pattern[i - 1] == '*' {
        globs(pattern, name, i - 1, j) || (j > 0 && globs(pattern, name, i, j - 1))
    } else {
        j > 0 && pattern[i - 1] == name[j - 1] && globs(pattern, name, i - 1, j - 1)
    }
}

/// Whether a pattern matches a name as a whole.
pub open spec fn glob_matches(pattern: Seq<char>, name: Seq<char>) -> bool {
    globs(pattern, name, pattern.len() as int, name.len() as int)
}

/// A pattern that ends in `*` after a matching start matches any rest.
proof fn lemma_star_takes_rest(pattern: Seq<char>, name: Seq<char>, i: int, j: int)
    requires
        0 < i <= pattern.len(),
        0 <= j <= name.len(),
        pattern[i - 1] == '*',
        globs(pattern, name, i - 1, 0),
    ensures
        globs(pattern, name, i, j),
    decreases j,
{
    if j > 0 {
        lemma_star_takes_rest(pattern, name, i, j - 1);
    }
}

/// `*` alone matches every name.
pub proof fn law_star_matches_all(name: Seq<char>)
    ensures
        glob_matches(seq!['*'], name),
{
    lemma_star_takes_rest(seq!['*'], name, 1, name.len() as int);
}

proof fn lemma_plain_globs(pattern: Seq<char>, name: Seq<char>, i: int, j: int)
    requires
        0 <= i <= pattern.len(),
        0 <= j <= name.len(),
        forall|k: int| 0 <= k < pattern.len() ==> pattern[k] != '*',
    ensures
        globs(pattern, name, i, j) <==> i == j && pattern.take(i) == name.take(j),
    decreases i,
{
    if i > 0 && j > 0 {
        lemma_plain_globs(pattern, name, i - 1, j - 1);
        assert(pattern.take(i) =~= pattern.take(i - 1).push(pattern[i - 1]));
        assert(name.take(j) =~= name.take(j - 1).push(name[j - 1]));
        if i == j && pattern.take(i) == name.take(j) {
            assert(pattern.take(i)[i - 1] == name.take(j)[j - 1]);
            assert(pattern.take(i - 1) =~= pattern.take(i).drop_last());
            assert(name.take(j - 1) =~= name.take(j).drop_last());
        }
    } else if i <= 0 && j <= 0 {
        assert(pattern.take(0) =~= name.take(0));
    }
}

/// A pattern without `*` matches just the name that is written the same.
pub proof fn law_plain_pattern_matches_itself_only(pattern: Seq<char>, name: Seq<char>)
    requires
        forall|k: int| 0 <= k < pattern.len() ==> pattern[k] != '*',
    ensures
        glob_matches(pattern, name) <==> pattern == name,
{
    lemma_plain_globs(pattern, name, pattern.len() as int, name.len() as int);
    assert(pattern.take(pattern.len() as int) =~= pattern);
    assert(name.take(name.len() as int) =~= name);
}

/// One row of the table of matches: the answers for one more character of
/// the pattern, from those without it.
fn next_row(pat: &Vec<char>, nam: &Vec<char>, i: usize, above: &Vec<bool>) -> (r: Vec<bool>)
    requires
        0 < i <= pat@.len(),
        above@.len() == nam@.len() + 1,
        forall|j: int| 0 <= j < above@.len() ==> above@[j] == globs(pat@, nam@, i - 1, j),
    ensures
        r@.len() == nam@.len() + 1,
        forall|j: int| 0 <= j < r@.len() ==> r@[j] == globs(pat@, nam@, i as int, j),
{
    let mut row: Vec<bool> = Vec::new();
    let star = pat[i - 1] == '*';
    row.push(star && above[0]);
    let mut j: usize = 0;
    while j < nam.len()
        invariant
            0 < i <= pat@.len(),
            j <= nam@.len(),
            star == (pat@[i - 1] == '*'),
            above@.len() == nam@.len() + 1,
            row@.len() == j + 1,
            forall|k: int| 0 <= k < above@.len() ==> above@[k] == globs(pat@, nam@, i - 1, k),
            forall|k: int| 0 <= k <= j ==> row@[k] == globs(pat@, nam@, i as int, k),
        decreases nam.len() - j,
    {
        let cell = if star {
            above[j + 1] || row[j]
        } else {
            pat[i - 1] == nam[j] && above[j]
        };
        row.push(cell);
        j += 1;
    }
    row
}

/// Whether `name` matches a pattern in which only `*` is special.
pub fn glob_match(pattern: &str, name: &str) -> (r: bool)
    ensures
        r == glob_matches(pattern@, name@),
{
    let pat = chars_of(pattern);
    let nam = chars_of(name);
    let mut row: Vec<bool> = Vec::new();
    row.push(true);
    let mut j: usize = 0;
    while j < nam.len()
        invariant
            j <= nam@.len(),
            row@.len() == j + 1,
            forall|k: int| 0 <= k < row@.len() ==> row@[k] == globs(pat@, nam@, 0, k),
        decreases nam.len() - j,
    {
        row.push(false);
        j += 1;
    }
    let mut i: usize = 0;
    while i < pat.len()
        invariant
            i <= pat@.len(),
            row@.len() == nam@.len() + 1,
            forall|k: int| 0 <= k < row@.len() ==> row@[k] == globs(pat@, nam@, i as int, k),
        decreases pat.len() - i,
    {
        row = next_row(&pat, &nam, i + 1, &row);
        i += 1;
    }
    row[nam.len()]
}

// ---------------------------------------------------------------------
// Walking
// ---------------------------------------------------------------------

/// Directories that a walk does not go into.
pub open spec fn is_noise_dir(name: Seq<char>) -> bool {
    ||| name == ".git"@
    ||| name == "target"@
    ||| name == "node_modules"@
    ||| name == ".venv"@
    ||| name == "__pycache__"@
}

/// Whether a walk goes into the directory `path`.
pub fn enters_dir(path: &str) -> (r: bool)
    ensures
        r == match file_name(path@) {
            Some(name) => !is_noise_dir(name),
            None => true,
        },
{
    match file_name_text(path) {
        Some(n) => {
            let name = n.as_str();
            !(same(name, ".git") || same(name, "target") || same(name, "node_modules") || same(
                name,
                ".venv",
            ) || same(name, "__pycache__"))
        },
        None => {
            true
        },
    }
}

/// Whether a walk keeps the file `path`: its name matches the pattern, if
/// there is one.
pub open spec fn is_kept(path: Seq<char>, file_glob: Option<Seq<char>>) -> bool {
    match file_glob {
        Some(glob) => glob_matches(
            glob,
            match file_name(path) {
                Some(name) => name,
                None => Seq::empty(),
            },
        ),
        None => true,
    }
}

pub fn keeps_file(path: &str, file_glob: &Option<String>) -> (r: bool)
    ensures
        r == is_kept(path@, opt_view(*file_glob)),
{
    match file_glob {
        Some(glob) => {
            let name = match file_name_text(path) {
                Some(n) => n,
                None => String::new(),
            };
            assert(file_name(path@) is None ==> name@ =~= Seq::<char>::empty());
            glob_match(glob.as_str(), name.as_str())
        },
        None => true,
    }
}

// ---------------------------------------------------------------------
// Matches
// ---------------------------------------------------------------------

/// Lines around a match.
pub struct MatchContext {
    pub before: Vec<String>,
    pub after: Vec<String>,
}

/// A place where the pattern was found. Lines and columns count from 1;
/// columns count bytes.
pub struct Match {
    pub path: String,
    pub line: u64,
    pub column: u64,
    pub content: String,
    pub context: Option<MatchContext>,
}

#[verifier::ext_equal]
pub ghost struct ContextView {
    pub before: Seq<Seq<char>>,
    pub after: Seq<Seq<char>>,
}

#[verifier::ext_equal]
pub ghost struct MatchView {
    pub path: Seq<char>,
    pub line: u64,
    pub column: u64,
    pub content: Seq<char>,
    pub context: Option<ContextView>,
}

impl View for MatchContext {
    type V = ContextView;

    open spec fn view(&self) -> ContextView {
        ContextView { before: views(self.before@), after: views(self.after@) }
    }
}

impl View for Match {
    type V = MatchView;

    open spec fn view(&self) -> MatchView {
        MatchView {
            path: self.path@,
            line: self.line,
            column: self.column,
            content: self.content@,
            context: match self.context {
                Some(c) => Some(c@),
                None => None,
            },
        }
    }
}

pub open spec fn match_views(found: Seq<Match>) -> Seq<MatchView> {
    Seq::new(found.len(), |i: int| found[i]@)
}

/// The paths of matches.
pub open spec fn match_paths(found: Seq<MatchView>) -> Seq<Seq<char>> {
    Seq::new(found.len(), |i: int| found[i].path)
}

/// What is reported of a match.
pub open spec fn match_json(m: MatchView) -> JsonView {
    let start = JsonView::object().with("path"@, JsonView::Text(m.path)).with(
        "line"@,
        number(m.line),
    ).with("column"@, number(m.column)).with("content"@, JsonView::Text(m.content));
    match m.context {
        Some(c) => start.with(
            "context"@,
            JsonView::object().with("before"@, text_array(c.before)).with(
                "after"@,
                text_array(c.after),
            ),
        ),
        None => start,
    }
}

impl Match {
    pub fn to_json(&self) -> (r: Json)
        ensures
            r@ == match_json(self@),
    {
        let start = Json::object().with("path", Json::text(self.path.as_str())).with(
            "line",
            Json::unsigned(self.line),
        ).with("column", Json::unsigned(self.column)).with(
            "content",
            Json::text(self.content.as_str()),
        );
        match &self.context {
            Some(c) => start.with(
                "context",
                Json::object().with("before", Json::texts(&c.before)).with(
                    "after",
                    Json::texts(&c.after),
                ),
            ),
            None => start,
        }
    }
}

/// The items of one page: `limit` of them, after the first `offset`.
pub open spec fn page_of<T>(items: Seq<T>, offset: nat, limit: nat) -> Seq<T> {
    items.subrange(page_bound(items.len(), offset), page_bound(items.len(), offset + limit))
}

/// `n`, but no more than there are items.
pub open spec fn page_bound(total: nat, n: nat) -> int {
    if n < total {
        n as int
    } else {
        total as int
    }
}

/// Going on where a page ends, one item after another, shows each item in
/// turn.
pub proof fn law_pages_follow<T>(items: Seq<T>, offset: nat, a: nat, b: nat)
    ensures
        page_of(items, offset, a) + page_of(items, offset + a, b) == page_of(items, offset, a + b),
{
    assert(page_of(items, offset, a) + page_of(items, offset + a, b) =~= page_of(
        items,
        offset,
        a + b,
    ));
}

fn bound(total: usize, n: u64) -> (r: usize)
    ensures
        r == page_bound(total as nat, n as nat),
{
    if n < total as u64 {
        n as usize
    } else {
        total
    }
}

fn bound2(total: usize, n: u64, m: u64) -> (r: usize)
    ensures
        r == page_bound(total as nat, (n + m) as nat),
{
    if n as u128 + m as u128 >= total as u128 {
        total
    } else {
        (n + m) as usize
    }
}

/// How often `p` is among the first `n` paths.
pub open spec fn path_count(paths: Seq<Seq<char>>, p: Seq<char>, n: int) -> nat
    decreases n,
{
    if n <= 0 {
        0
    } else {
        path_count(paths, p, n - 1) + if paths[n - 1] == p {
            1nat
        } else {
            0nat
        }
    }
}

/// How many entries at the start of `s`, from `i` on, count at least `c`.
pub open spec fn rank_of(s: Seq<(Seq<char>, nat)>, c: nat, i: int) -> int
    decreases s.len() - i,
{
    if i < s.len() && s[i].1 >= c {
        rank_of(s, c, i + 1)
    } else {
        i
    }
}

/// The first `n` of the sorted paths with their counts: larger counts
/// first, equal counts in the order of the paths.
pub open spec fn ranked_counts(paths: Seq<Seq<char>>, sorted: Seq<Seq<char>>, n: int) -> Seq<
    (Seq<char>, nat),
>
    decreases n,
{
    if n <= 0 {
        Seq::empty()
    } else {
        let before = ranked_counts(paths, sorted, n - 1);
        let c = path_count(paths, sorted[n - 1], paths.len() as int);
        before.insert(rank_of(before, c, 0), (sorted[n - 1], c))
    }
}

pub proof fn lemma_rank_of(s: Seq<(Seq<char>, nat)>, c: nat, i: int)
    requires
        0 <= i <= s.len(),
    ensures
        i <= rank_of(s, c, i) <= s.len(),
        forall|k: int| i <= k < rank_of(s, c, i) ==> #[trigger] s[k].1 >= c,
        rank_of(s, c, i) < s.len() ==> s[rank_of(s, c, i)].1 < c,
    decreases s.len() - i,
{
    if i < s.len() && s[i].1 >= c {
        lemma_rank_of(s, c, i + 1);
    }
}

/// Counts come in falling order.
pub proof fn law_counts_fall(paths: Seq<Seq<char>>, sorted: Seq<Seq<char>>, n: int)
    requires
        0 <= n <= sorted.len(),
    ensures
        ranked_counts(paths, sorted, n).len() == n,
        forall|i: int, j: int|
            0 <= i < j < n ==> #[trigger] ranked_counts(paths, sorted, n)[i].1
                >= #[trigger] ranked_counts(paths, sorted, n)[j].1,
    decreases n,
{
    if n > 0 {
        law_counts_fall(paths, sorted, n - 1);
        let before = ranked_counts(paths, sorted, n - 1);
        let c = path_count(paths, sorted[n - 1], paths.len() as int);
        lemma_rank_of(before, c, 0);
        let at = rank_of(before, c, 0);
        let now = ranked_counts(paths, sorted, n);
        assert forall|i: int, j: int| 0 <= i < j < n implies #[trigger] now[i].1
            >= #[trigger] now[j].1 by {
            let bi = if i < at {
                i
            } else {
                i - 1
            };
            let bj = if j < at {
                j
            } else {
                j - 1
            };
            if i != at && j != at {
                assert(before[bi].1 >= before[bj].1);
            } else if i == at {
                if j - 1 > at {
                    assert(before[at].1 >= before[j - 1].1);
                }
            }
        }
    }
}

fn count_path(paths: &Vec<String>, p: &str) -> (r: usize)
    ensures
        r == path_count(views(paths@), p@, paths@.len() as int),
{
    let mut n: usize = 0;
    let mut i: usize = 0;
    while i < paths.len()
        invariant
            n <= i <= paths@.len(),
            n == path_count(views(paths@), p@, i as int),
        decreases paths.len() - i,
    {
        assert(views(paths@)[i as int] == paths@[i as int]@);
        if same(paths[i].as_str(), p) {
            n += 1;
        }
        i += 1;
    }
    n
}

pub open spec fn count_views(counts: Seq<(String, usize)>) -> Seq<(Seq<char>, nat)> {
    Seq::new(counts.len(), |i: int| (counts[i].0@, counts[i].1 as nat))
}

fn rank_counts(paths: &Vec<String>, sorted: &Vec<String>) -> (r: Vec<(String, usize)>)
    ensures
        count_views(r@) == ranked_counts(views(paths@), views(sorted@), sorted@.len() as int),
{
    let mut out: Vec<(String, usize)> = Vec::new();
    let mut k: usize = 0;
    assert(count_views(out@) =~= Seq::<(Seq<char>, nat)>::empty());
    while k < sorted.len()
        invariant
            k <= sorted@.len(),
            count_views(out@) == ranked_counts(views(paths@), views(sorted@), k as int),
        decreases sorted.len() - k,
    {
        assert(views(sorted@)[k as int] == sorted@[k as int]@);
        let c: usize = count_path(paths, sorted[k].as_str());
        let ghost before = count_views(out@);
        let mut i: usize = 0;
        while i < out.len() && out[i].1 >= c
            invariant
                i <= out@.len(),
                before == count_views(out@),
                rank_of(before, c as nat, 0) == rank_of(before, c as nat, i as int),
            decreases out.len() - i,
        {
            i += 1;
        }
        out.insert(i, (sorted[k].clone(), c));
        assert(count_views(out@) =~= before.insert(i as int, (sorted@[k as int]@, c as nat)));
        k += 1;
    }
    out
}

/// What is reported of a file's count.
pub open spec fn count_json(entry: (Seq<char>, nat)) -> JsonView {
    JsonView::object().with("path"@, JsonView::Text(entry.0)).with(
        "count"@,
        number(entry.1 as u64),
    )
}

/// The reply of a content search.
pub open spec fn search_payload(
    found: Seq<MatchView>,
    output_mode: Seq<char>,
    limit: u64,
    offset: u64,
) -> JsonView {
    let paths = match_paths(found);
    let files = sorted_distinct(paths, paths.len() as int);
    let total = number(found.len() as u64);
    if output_mode == "files_only"@ {
        JsonView::object().with("files"@, text_array(files)).with("total"@, total).with(
            "truncated"@,
            JsonView::Bool(found.len() > limit),
        )
    } else if output_mode == "count"@ {
        let page = page_of(
            ranked_counts(paths, files, files.len() as int),
            offset as nat,
            limit as nat,
        );
        JsonView::object().with(
            "counts"@,
            JsonView::Array(Seq::new(page.len(), |i: int| count_json(page[i]))),
        ).with("total"@, total).with("truncated"@, JsonView::Bool(files.len() > offset + limit))
    } else {
        let page = page_of(found, offset as nat, limit as nat);
        JsonView::object().with(
            "matches"@,
            JsonView::Array(Seq::new(page.len(), |i: int| match_json(page[i]))),
        ).with("total"@, total).with("truncated"@, JsonView::Bool(found.len() > offset + limit))
    }
}

fn paths_of(found: &Vec<Match>) -> (r: Vec<String>)
    ensures
        views(r@) == match_paths(match_views(found@)),
{
    let mut out: Vec<String> = Vec::new();
    let mut i: usize = 0;
    while i < found.len()
        invariant
            i <= found@.len(),
            out@.len() == i,
            forall|k: int| 0 <= k < i ==> out@[k]@ == found@[k].path@,
        decreases found.len() - i,
    {
        out.push(found[i].path.clone());
        i += 1;
    }
    assert(views(out@) =~= match_paths(match_views(found@)));
    out
}

/// The reply of a content search.
pub fn build_payload(found: &Vec<Match>, output_mode: &str, limit: u64, offset: u64) -> (r: Json)
    ensures
        r@ == search_payload(match_views(found@), output_mode@, limit, offset),
{
    let ghost ms = match_views(found@);
    let total = Json::unsigned(found.len() as u64);
    let paths = paths_of(found);
    let files = sort_distinct(&paths);
    assert(paths@.len() == views(paths@).len());
    assert(files@.len() == views(files@).len());
    if same(output_mode, "files_only") {
        return Json::object().with("files", Json::texts(&files)).with("total", total).with(
            "truncated",
            Json::boolean(found.len() as u64 > limit),
        );
    }
    if same(output_mode, "count") {
        let counts = rank_counts(&paths, &files);
        let ghost ranked = count_views(counts@);
        proof {
            law_counts_fall(views(paths@), views(files@), files@.len() as int);
        }
        let from: usize = bound(counts.len(), offset);
        let to: usize = bound2(counts.len(), offset, limit);
        let ghost page = page_of(ranked, offset as nat, limit as nat);
        let mut out: Vec<Json> = Vec::new();
        let mut i: usize = from;
        while i < to
            invariant
                from <= i <= to <= counts@.len(),
                ranked == count_views(counts@),
                page == ranked.subrange(from as int, to as int),
                out@.len() == i - from,
                forall|k: int| 0 <= k < i - from ==> model(out@[k]) == count_json(page[k]),
            decreases to - i,
        {
            let one = Json::object().with("path", Json::text(counts[i].0.as_str())).with(
                "count",
                Json::unsigned(counts[i].1 as u64),
            );
            assert(page[i - from] == (counts@[i as int].0@, counts@[i as int].1 as nat));
            out.push(one);
            i += 1;
        }
        assert(models(out@) =~= Seq::new(page.len(), |i: int| count_json(page[i])));
        let more = files.len() as u128 > offset as u128 + limit as u128;
        return Json::object().with("counts", Json::array(out)).with("total", total).with(
            "truncated",
            Json::boolean(more),
        );
    }
    let from: usize = bound(found.len(), offset);
    let to: usize = bound2(found.len(), offset, limit);
    let ghost page = page_of(ms, offset as nat, limit as nat);
    let mut out: Vec<Json> = Vec::new();
    let mut i: usize = from;
    while i < to
        invariant
            from <= i <= to <= found@.len(),
            ms == match_views(found@),
            page == ms.subrange(from as int, to as int),
            out@.len() == i - from,
            forall|k: int| 0 <= k < i - from ==> model(out@[k]) == match_json(page[k]),
        decreases to - i,
    {
        assert(page[i - from] == found@[i as int]@);
        let one = found[i].to_json();
        out.push(one);
        i += 1;
    }
    assert(models(out@) =~= Seq::new(page.len(), |i: int| match_json(page[i])));
    let more = found.len() as u128 > offset as u128 + limit as u128;
    Json::object().with("matches", Json::array(out)).with("total", total).with(
        "truncated",
        Json::boolean(more),
    )
}

// ---------------------------------------------------------------------
// Searching content by a walk
// ---------------------------------------------------------------------

/// A file that a walk came by, with its text if it could be read.
pub struct WalkedFile {
    pub path: String,
    pub text: Option<String>,
}

pub ghost struct WalkedView {
    pub path: Seq<char>,
    pub text: Option<Seq<char>>,
}

impl View for WalkedFile {
    type V = WalkedView;

    open spec fn view(&self) -> WalkedView {
        WalkedView { path: self.path@, text: opt_view(self.text) }
    }
}

pub open spec fn walked_views(files: Seq<WalkedFile>) -> Seq<WalkedView> {
    Seq::new(files.len(), |i: int| files[i]@)
}

/// The matches of `pattern` in one line from character `from` on.
pub open spec fn line_matches(
    path: Seq<char>,
    line_no: u64,
    line: Seq<char>,
    pattern: Seq<char>,
    from: int,
) -> Seq<MatchView>
    decreases line.len() - from,
{
    if from < 0 || pattern.len() == 0 {
        Seq::empty()
    } else {
        proof {
            lemma_find_from(line, pattern, from);
        }
        match find_from(line, pattern, from) {
            None => Seq::empty(),
            Some(p) => seq![
                MatchView {
                    path,
                    line: line_no,
                    column: (byte_count(line.take(p)) + 1) as u64,
                    content: line,
                    context: None,
                },
            ] + line_matches(path, line_no, line, pattern, p + pattern.len()),
        }
    }
}

/// The matches in the first `n` lines of a text.
pub open spec fn text_matches(path: Seq<char>, all: Seq<Seq<char>>, pattern: Seq<char>, n: int) -> Seq<
    MatchView,
>
    decreases n,
{
    if n <= 0 {
        Seq::empty()
    } else {
        text_matches(path, all, pattern, n - 1) + line_matches(
            path,
            n as u64,
            all[n - 1],
            pattern,
            0,
        )
    }
}

/// The matches in one file: none in one that is not text.
pub open spec fn file_matches(file: WalkedView, pattern: Seq<char>) -> Seq<MatchView> {
    let binary = match extension(file.path) {
        Some(ext) => names_binary(lower(ext)),
        None => false,
    };
    match file.text {
        Some(text) => if binary {
            Seq::empty()
        } else {
            text_matches(file.path, lines(text), pattern, lines(text).len() as int)
        },
        None => Seq::empty(),
    }
}

/// The matches in the first `n` files.
pub open spec fn walk_matches(files: Seq<WalkedView>, pattern: Seq<char>, n: int) -> Seq<MatchView>
    decreases n,
{
    if n <= 0 {
        Seq::empty()
    } else {
        walk_matches(files, pattern, n - 1) + file_matches(files[n - 1], pattern)
    }
}

fn add_line_matches(out: &mut Vec<Match>, path: &str, line_no: u64, line: &str, pattern: &str)
    requires
        pattern@.len() > 0,
    ensures
        match_views(final(out)@) == match_views(old(out)@) + line_matches(
            path@,
            line_no,
            line@,
            pattern@,
            0,
        ),
{
    let cs = chars_of(line);
    let ps = chars_of(pattern);
    let ghost start = match_views(out@);
    let ghost whole = line_matches(path@, line_no, line@, pattern@, 0);
    let mut i: usize = 0;
    assert(match_views(out@) + whole =~= start + whole);
    loop
        invariant
            i <= cs@.len(),
            cs@ == line@,
            ps@ == pattern@,
            ps@.len() > 0,
            match_views(out@) + line_matches(path@, line_no, line@, pattern@, i as int) == start
                + whole,
        ensures
            match_views(out@) == start + whole,
        decreases cs.len() - i,
    {
        let total: usize = cs.len();
        proof {
            lemma_find_from(line@, pattern@, i as int);
        }
        match find_chars(&cs, &ps, i) {
            None => {
                assert(match_views(out@) + Seq::<MatchView>::empty() =~= match_views(out@));
                break;
            },
            Some(p) => {
                let ghost before = match_views(out@);
                let head = take_text(line, p);
                let at: usize = byte_len(head.as_str());
                proof {
                    lemma_prefix_bytes(line@, p as int);
                }
                let whole_len: usize = byte_len(line);
                let one = Match {
                    path: path.to_owned(),
                    line: line_no,
                    column: at as u64 + 1,
                    content: line.to_owned(),
                    context: None,
                };
                let ghost seen = one@;
                out.push(one);
                i = p + ps.len();
                proof {
                    assert(match_views(out@) =~= before.push(seen));
                    let rest = line_matches(path@, line_no, line@, pattern@, i as int);
                    assert(before + (seq![seen] + rest) =~= match_views(out@) + rest);
                }
            },
        }
    }
}

/// The text before a character takes fewer bytes than the whole.
proof fn lemma_prefix_bytes(s: Seq<char>, p: int)
    requires
        0 <= p < s.len(),
    ensures
        byte_count(s.take(p)) < byte_count(s),
    decreases p,
{
    if p > 0 {
        lemma_prefix_bytes(s.drop_first(), p - 1);
        assert(s.take(p).drop_first() =~= s.drop_first().take(p - 1));
        assert(s.take(p)[0] == s[0]);
    } else {
        assert(byte_count(s.take(0)) == 0);
    }
}

fn add_file_matches(out: &mut Vec<Match>, file: &WalkedFile, pattern: &str)
    requires
        pattern@.len() > 0,
    ensures
        match_views(final(out)@) == match_views(old(out)@) + file_matches(file@, pattern@),
{
    let ghost start = match_views(out@);
    assert(start + Seq::<MatchView>::empty() =~= start);
    let text = match &file.text {
        Some(t) => t,
        None => {
            return;
        },
    };
    if let Some(ext) = extension_text(file.path.as_str()) {
        if is_binary_extension(ext.as_str()) {
            return;
        }
    }
    let all = lines_text(text.as_str());
    let ghost spec_lines = lines(text@);
    let mut i: usize = 0;
    while i < all.len()
        invariant
            i <= all@.len(),
            pattern@.len() > 0,
            views(all@) == spec_lines,
            match_views(out@) == start + text_matches(file.path@, spec_lines, pattern@, i as int),
        decreases all.len() - i,
    {
        let ghost so_far = text_matches(file.path@, spec_lines, pattern@, i as int);
        assert(spec_lines[i as int] == all@[i as int]@);
        add_line_matches(out, file.path.as_str(), i as u64 + 1, all[i].as_str(), pattern);
        proof {
            let more = line_matches(
                file.path@,
                (i + 1) as u64,
                spec_lines[i as int],
                pattern@,
                0,
            );
            assert(start + so_far + more =~= start + (so_far + more));
        }
        i += 1;
    }
    assert(all@.len() == spec_lines.len());
}

/// All matches of `pattern` in the files of a walk, in order.
pub fn walk_search(files: &Vec<WalkedFile>, pattern: &str) -> (r: Vec<Match>)
    requires
        pattern@.len() > 0,
    ensures
        match_views(r@) == walk_matches(walked_views(files@), pattern@, files@.len() as int),
{
    let ghost fs = walked_views(files@);
    let mut out: Vec<Match> = Vec::new();
    let mut i: usize = 0;
    assert(match_views(out@) =~= Seq::<MatchView>::empty());
    while i < files.len()
        invariant
            i <= files@.len(),
            pattern@.len() > 0,
            fs == walked_views(files@),
            match_views(out@) == walk_matches(fs, pattern@, i as int),
        decreases files.len() - i,
    {
        assert(fs[i as int] == files@[i as int]@);
        add_file_matches(&mut out, &files[i], pattern);
        i += 1;
    }
    out
}

/// The reply of a content search by a walk.
pub fn content_mode_walk(
    files: &Vec<WalkedFile>,
    pattern: &str,
    output_mode: &str,
    limit: u64,
    offset: u64,
) -> (r: Json)
    requires
        pattern@.len() > 0,
    ensures
        r@ == search_payload(
            walk_matches(walked_views(files@), pattern@, files@.len() as int),
            output_mode@,
            limit,
            offset,
        ),
{
    let found = walk_search(files, pattern);
    build_payload(&found, output_mode, limit, offset)
}

// ---------------------------------------------------------------------
// Searching content by ripgrep
// ---------------------------------------------------------------------

/// The arguments of the ripgrep command.
pub open spec fn rg_args(
    pattern: Seq<char>,
    root: Seq<char>,
    file_glob: Option<Seq<char>>,
    context: u64,
) -> Seq<Seq<char>> {
    let start = Seq::empty().push("--json"@).push("--no-heading"@).push("-e"@).push(
        pattern,
    ).push(root);
    let with_glob = match file_glob {
        Some(g) => start.push("-g"@).push(g),
        None => start,
    };
    if context > 0 {
        with_glob.push("-C"@).push(decimal(context as nat))
    } else {
        with_glob
    }
}

pub fn rg_arguments(pattern: &str, root: &str, file_glob: &Option<String>, context: u64) -> (r: Vec<
    String,
>)
    ensures
        views(r@) == rg_args(pattern@, root@, opt_view(*file_glob), context),
{
    let mut out: Vec<String> = Vec::new();
    assert(views(out@) =~= Seq::<Seq<char>>::empty());
    push_text(&mut out, "--json");
    push_text(&mut out, "--no-heading");
    push_text(&mut out, "-e");
    push_text(&mut out, pattern);
    push_text(&mut out, root);
    if let Some(g) = file_glob {
        push_text(&mut out, "-g");
        push_text(&mut out, g.as_str());
    }
    if context > 0 {
        push_text(&mut out, "-C");
        push_text(&mut out, decimal_text(context).as_str());
    }
    out
}

/// The entry under `key`, or null.
pub open spec fn entry(v: JsonView, key: Seq<char>) -> JsonView {
    match v.get(key) {
        Some(e) => e,
        None => JsonView::Null,
    }
}

/// The text of a value, or nothing.
pub open spec fn text_or_empty(v: JsonView) -> Seq<char> {
    match v.as_text() {
        Some(t) => t,
        None => Seq::empty(),
    }
}

/// A line without the line feeds at its end.
pub open spec fn without_newlines(s: Seq<char>) -> Seq<char>
    decreases s.len(),
{
    if s.len() > 0 && s.last() == '\n' {
        without_newlines(s.drop_last())
    } else {
        s
    }
}

/// The line that an event shows.
pub open spec fn event_line(event: JsonView) -> Seq<char> {
    without_newlines(text_or_empty(entry(entry(entry(event, "data"@), "lines"@), "text"@)))
}

/// The first element of an array, or null.
pub open spec fn first_item(v: JsonView) -> JsonView {
    match v {
        JsonView::Array(items) => if items.len() > 0 {
            items[0]
        } else {
            JsonView::Null
        },
        _ => JsonView::Null,
    }
}

/// The column of a match: one more than the byte it starts at.
pub open spec fn event_column(event: JsonView) -> u64 {
    match entry(first_item(entry(entry(event, "data"@), "submatches"@)), "start"@).as_u64() {
        Some(n) => if n < u64::MAX {
            (n + 1) as u64
        } else {
            n
        },
        None => 1,
    }
}

/// What has been read of ripgrep's events.
#[verifier::ext_equal]
pub ghost struct RgState {
    pub found: Seq<MatchView>,
    /// The last context lines, for the next match.
    pub pending: Seq<Seq<char>>,
    /// How many more context lines belong to the last match.
    pub after_left: u64,
}

/// The last `n` elements.
pub open spec fn last_items(s: Seq<Seq<char>>, n: u64) -> Seq<Seq<char>> {
    if s.len() > n {
        s.skip(s.len() - n)
    } else {
        s
    }
}

/// The matches with one more line after the last of them.
pub open spec fn with_line_after(found: Seq<MatchView>, line: Seq<char>) -> Seq<MatchView> {
    if found.len() == 0 {
        found
    } else {
        let last = found.last();
        match last.context {
            Some(c) => found.drop_last().push(
                MatchView {
                    context: Some(ContextView { after: c.after.push(line), ..c }),
                    ..last
                },
            ),
            None => found,
        }
    }
}

/// The state after one more event. A context line belongs to the match
/// before it as long as that has room, and is kept for the next match; a
/// match takes the lines that were kept.
pub open spec fn rg_event(st: RgState, event: JsonView, context: u64) -> RgState {
    let kind = entry(event, "type"@).as_text();
    if kind == Some("context"@) {
        RgState {
            found: if st.after_left > 0 {
                with_line_after(st.found, event_line(event))
            } else {
                st.found
            },
            pending: last_items(st.pending.push(event_line(event)), context),
            after_left: if st.after_left > 0 {
                (st.after_left - 1) as u64
            } else {
                0
            },
        }
    } else if kind == Some("match"@) {
        RgState {
            found: st.found.push(
                MatchView {
                    path: text_or_empty(entry(entry(entry(event, "data"@), "path"@), "text"@)),
                    line: match entry(entry(event, "data"@), "line_number"@).as_u64() {
                        Some(n) => n,
                        None => 0,
                    },
                    column: event_column(event),
                    content: event_line(event),
                    context: Some(ContextView { before: st.pending, after: Seq::empty() }),
                },
            ),
            pending: Seq::empty(),
            after_left: context,
        }
    } else {
        st
    }
}

/// The state after the first `n` events.
pub open spec fn rg_state(events: Seq<JsonView>, context: u64, n: int) -> RgState
    decreases n,
{
    if n <= 0 {
        RgState { found: Seq::empty(), pending: Seq::empty(), after_left: 0 }
    } else {
        rg_event(rg_state(events, context, n - 1), events[n - 1], context)
    }
}

/// No match is given more context lines on either side than were asked
/// for.
pub proof fn law_context_is_bounded(events: Seq<JsonView>, context: u64, n: int)
    requires
        0 <= n <= events.len(),
    ensures
        ({
            let st = rg_state(events, context, n);
            &&& st.pending.len() <= context
            &&& forall|i: int|
                0 <= i < st.found.len() ==> {
                    &&& (#[trigger] st.found[i]).context is Some
                    &&& st.found[i].context->0.before.len() <= context
                    &&& st.found[i].context->0.after.len() <= context
                }
            &&& st.found.len() > 0 ==> st.found.last().context->0.after.len() + st.after_left
                <= context
            &&& st.found.len() == 0 ==> st.after_left == 0
        }),
    decreases n,
{
    if n > 0 {
        law_context_is_bounded(events, context, n - 1);
    }
}

fn entry_of<'a>(v: Option<&'a Json>, key: &str) -> (r: Option<&'a Json>)
    ensures
        opt_json(r) == entry(opt_json(v), key@),
{
    match v {
        Some(j) => j.get(key),
        None => None,
    }
}

/// An absent value is null.
pub open spec fn opt_json(v: Option<&Json>) -> JsonView {
    match v {
        Some(j) => j@,
        None => JsonView::Null,
    }
}

fn text_of(v: Option<&Json>) -> (r: String)
    ensures
        r@ == text_or_empty(opt_json(v)),
{
    match v {
        Some(j) => match j.as_str() {
            Some(t) => t.to_owned(),
            None => String::new(),
        },
        None => String::new(),
    }
}

fn strip_newlines(s: &str) -> (r: String)
    ensures
        r@ == without_newlines(s@),
{
    let cs = chars_of(s);
    let mut n: usize = cs.len();
    assert(s@.take(s@.len() as int) =~= s@);
    while n > 0 && cs[n - 1] == '\n'
        invariant
            n <= cs@.len(),
            cs@ == s@,
            without_newlines(s@.take(n as int)) == without_newlines(s@),
        decreases n,
    {
        assert(s@.take(n as int).drop_last() =~= s@.take(n - 1));
        n -= 1;
    }
    assert(s@.take(n as int) =~= s@.subrange(0, n as int));
    string_between(&cs, 0, n)
}

fn line_of(event: &Json) -> (r: String)
    ensures
        r@ == event_line(event@),
{
    let data = event.get("data");
    let text = text_of(entry_of(entry_of(data, "lines"), "text"));
    strip_newlines(text.as_str())
}

fn column_of(event: &Json) -> (r: u64)
    ensures
        r == event_column(event@),
{
    let subs = entry_of(event.get("data"), "submatches");
    let first = match subs {
        Some(Json::Array(items)) => if items.len() > 0 {
            assert(models(items@)[0] == model(items@[0]));
            Some(&items[0])
        } else {
            None
        },
        _ => None,
    };
    match entry_of(first, "start") {
        Some(j) => match j.as_u64() {
            Some(n) => if n < u64::MAX {
                n + 1
            } else {
                n
            },
            None => 1,
        },
        None => 1,
    }
}

fn kind_is(event: &Json, kind: &str) -> (r: bool)
    ensures
        r == (entry(event@, "type"@).as_text() == Some(kind@)),
{
    match event.get("type") {
        Some(j) => match j.as_str() {
            Some(t) => same(t, kind),
            None => false,
        },
        None => false,
    }
}

fn add_line_after(found: &mut Vec<Match>, line: &str)
    ensures
        match_views(final(found)@) == with_line_after(match_views(old(found)@), line@),
{
    let ghost before = match_views(found@);
    match found.pop() {
        None => {
            assert(match_views(found@) =~= before);
        },
        Some(mut last) => {
            assert(last@ == before.last());
            assert(match_views(found@) =~= before.drop_last());
            let Match { path, line: line_no, column, content, context } = last;
            let context = match context {
                Some(c) => {
                    let MatchContext { before: b, after: mut a } = c;
                    let ghost a0 = views(a@);
                    a.push(line.to_owned());
                    assert(views(a@) =~= a0.push(line@));
                    Some(MatchContext { before: b, after: a })
                },
                None => None,
            };
            let changed = Match { path, line: line_no, column, content, context };
            let ghost c = changed@;
            found.push(changed);
            assert(match_views(found@) =~= before.drop_last().push(c));
            assert(before.drop_last().push(before.last()) =~= before);
        },
    }
}

fn keep_last(pending: &mut Vec<String>, line: &str, n: u64)
    ensures
        views(final(pending)@) == last_items(views(old(pending)@).push(line@), n),
{
    let ghost before = views(pending@);
    pending.push(line.to_owned());
    let ghost full = before.push(line@);
    assert(views(pending@) =~= full);
    let total: usize = pending.len();
    if total as u64 > n {
        let drop_count: usize = total - n as usize;
        let mut kept: Vec<String> = Vec::new();
        let mut i: usize = drop_count;
        while i < total
            invariant
                drop_count <= i <= total == pending@.len(),
                views(pending@) == full,
                views(kept@) =~= full.subrange(drop_count as int, i as int),
            decreases total - i,
        {
            let ghost k0 = views(kept@);
            kept.push(pending[i].clone());
            assert(full[i as int] == pending@[i as int]@);
            assert(views(kept@) =~= k0.push(full[i as int]));
            i += 1;
        }
        assert(full.subrange(drop_count as int, total as int) =~= full.skip(full.len() - n));
        *pending = kept;
    }
}

pub open spec fn event_views(events: Seq<Json>) -> Seq<JsonView> {
    models(events)
}

/// The matches that ripgrep's events tell of.
pub fn rg_matches(events: &Vec<Json>, context: u64) -> (r: Vec<Match>)
    ensures
        match_views(r@) == rg_state(
            event_views(events@),
            context,
            events@.len() as int,
        ).found,
{
    let ghost es = event_views(events@);
    let mut found: Vec<Match> = Vec::new();
    let mut pending: Vec<String> = Vec::new();
    let mut after_left: u64 = 0;
    let mut i: usize = 0;
    assert(match_views(found@) =~= Seq::<MatchView>::empty());
    assert(views(pending@) =~= Seq::<Seq<char>>::empty());
    while i < events.len()
        invariant
            i <= events@.len(),
            es == event_views(events@),
            rg_state(es, context, i as int) == (RgState {
                found: match_views(found@),
                pending: views(pending@),
                after_left,
            }),
        decreases events.len() - i,
    {
        let event = &events[i];
        assert(es[i as int] == event@);
        if kind_is(event, "context") {
            let line = line_of(event);
            if after_left > 0 {
                add_line_after(&mut found, line.as_str());
                after_left -= 1;
            }
            keep_last(&mut pending, line.as_str(), context);
        } else if kind_is(event, "match") {
            let data = event.get("data");
            let path = text_of(entry_of(entry_of(data, "path"), "text"));
            let line_no: u64 = match entry_of(data, "line_number") {
                Some(j) => match j.as_u64() {
                    Some(n) => n,
                    None => 0,
                },
                None => 0,
            };
            let ghost before = match_views(found@);
            let after: Vec<String> = Vec::new();
            assert(views(after@) =~= Seq::<Seq<char>>::empty());
            let one = Match {
                path,
                line: line_no,
                column: column_of(event),
                content: line_of(event),
                context: Some(MatchContext { before: pending, after }),
            };
            let ghost seen = one@;
            found.push(one);
            assert(match_views(found@) =~= before.push(seen));
            pending = Vec::new();
            assert(views(pending@) =~= Seq::<Seq<char>>::empty());
            after_left = context;
        }
        i += 1;
    }
    found
}

/// The JSON values on the first `n` lines; other lines do not count.
pub open spec fn json_lines(all: Seq<Seq<char>>, n: int) -> Seq<JsonView>
    decreases n,
{
    if n <= 0 {
        Seq::empty()
    } else {
        let before = json_lines(all, n - 1);
        if all[n - 1].len() == 0 {
            before
        } else {
            match json_read(all[n - 1]) {
                Some(v) => before.push(v),
                None => before,
            }
        }
    }
}

/// The JSON values on the lines of a text.
pub fn read_json_lines(text: &str) -> (r: Vec<Json>)
    ensures
        event_views(r@) == json_lines(lines(text@), lines(text@).len() as int),
{
    let all = lines_text(text);
    let ghost spec_lines = lines(text@);
    let mut out: Vec<Json> = Vec::new();
    let mut i: usize = 0;
    assert(event_views(out@) =~= Seq::<JsonView>::empty());
    while i < all.len()
        invariant
            i <= all@.len(),
            views(all@) == spec_lines,
            event_views(out@) == json_lines(spec_lines, i as int),
        decreases all.len() - i,
    {
        let line = all[i].as_str();
        assert(spec_lines[i as int] == line@);
        if chars_of(line).len() > 0 {
            if let Some(v) = Json::parse(line) {
                let ghost before = event_views(out@);
                let ghost seen = v@;
                out.push(v);
                assert(event_views(out@) =~= before.push(seen));
            }
        }
        i += 1;
    }
    assert(all@.len() == spec_lines.len());
    out
}

/// How the ripgrep command ended.
pub enum RgEnd {
    SpawnFailed(String),
    Done { code: Option<i32>, stdout: Vec<u8>, stderr: Vec<u8> },
}

/// The reply of a content search by ripgrep. Exit code 1 means that there
/// is no match, and a larger one that it failed.
pub open spec fn rg_reply(
    end: RgEnd,
    output_mode: Seq<char>,
    context: u64,
    limit: u64,
    offset: u64,
) -> JsonView {
    match end {
        RgEnd::SpawnFailed(e) => error_json("rg spawn failed: "@ + e@),
        RgEnd::Done { code, stdout, stderr } => if code is Some && code->0 >= 2 {
            error_json("rg error: "@ + trim(lossy_text(stderr@)))
        } else {
            let all = lines(lossy_text(stdout@));
            let events = json_lines(all, all.len() as int);
            search_payload(
                rg_state(events, context, events.len() as int).found,
                output_mode,
                limit,
                offset,
            )
        },
    }
}

/// The reply of a content search by ripgrep.
pub fn rg_content_search(end: &RgEnd, output_mode: &str, context: u64, limit: u64, offset: u64) -> (r:
    Json)
    ensures
        r@ == rg_reply(*end, output_mode@, context, limit, offset),
{
    match end {
        RgEnd::SpawnFailed(e) => error_reply2("rg spawn failed: ", e.as_str()),
        RgEnd::Done { code, stdout, stderr } => {
            let failed = match code {
                Some(c) => *c >= 2,
                None => false,
            };
            if failed {
                let text = decode_lossy(stderr.as_slice());
                return error_reply2("rg error: ", trim_text(text.as_str()).as_str());
            }
            let text = decode_lossy(stdout.as_slice());
            let events = read_json_lines(text.as_str());
            let found = rg_matches(&events, context);
            assert(event_views(events@).len() == events@.len());
            build_payload(&found, output_mode, limit, offset)
        },
    }
}

// ---------------------------------------------------------------------
// Finding files
// ---------------------------------------------------------------------

/// A file that a walk came by, with when it was changed, in any unit.
pub struct FoundFile {
    pub path: String,
    pub modified: Option<i128>,
}

pub ghost struct FoundView {
    pub path: Seq<char>,
    pub modified: Option<i128>,
}

impl View for FoundFile {
    type V = FoundView;

    open spec fn view(&self) -> FoundView {
        FoundView { path: self.path@, modified: self.modified }
    }
}

pub open spec fn found_views(files: Seq<FoundFile>) -> Seq<FoundView> {
    Seq::new(files.len(), |i: int| files[i]@)
}

/// Whether a time is later than another; an unknown one is the earliest.
pub open spec fn is_later(a: Option<i128>, b: Option<i128>) -> bool {
    match (a, b) {
        (Some(x), Some(y)) => x > y,
        (Some(_), None) => true,
        _ => false,
    }
}

/// How many entries at the start of `s`, from `i` on, are later than `t`.
pub open spec fn newer_count(s: Seq<FoundView>, t: Option<i128>, i: int) -> int
    decreases s.len() - i,
{
    if i < s.len() && is_later(s[i].modified, t) {
        newer_count(s, t, i + 1)
    } else {
        i
    }
}

/// Whether the name of a file matches the pattern.
pub open spec fn name_matches(pattern: Seq<char>, path: Seq<char>) -> bool {
    match file_name(path) {
        Some(name) => glob_matches(pattern, name),
        None => false,
    }
}

/// Those of the first `n` files whose name matches, the newest first; of
/// two with the same time the one that was found later comes first.
pub open spec fn newest_matching(files: Seq<FoundView>, pattern: Seq<char>, n: int) -> Seq<
    FoundView,
>
    decreases n,
{
    if n <= 0 {
        Seq::empty()
    } else {
        let before = newest_matching(files, pattern, n - 1);
        let f = files[n - 1];
        if name_matches(pattern, f.path) {
            before.insert(newer_count(before, f.modified, 0), f)
        } else {
            before
        }
    }
}

pub proof fn lemma_newer_count(s: Seq<FoundView>, t: Option<i128>, i: int)
    requires
        0 <= i <= s.len(),
    ensures
        i <= newer_count(s, t, i) <= s.len(),
        forall|k: int| i <= k < newer_count(s, t, i) ==> is_later(#[trigger] s[k].modified, t),
        newer_count(s, t, i) < s.len() ==> !is_later(s[newer_count(s, t, i)].modified, t),
    decreases s.len() - i,
{
    if i < s.len() && is_later(s[i].modified, t) {
        lemma_newer_count(s, t, i + 1);
    }
}

/// No file comes after one that was changed before it.
pub proof fn law_newest_first(files: Seq<FoundView>, pattern: Seq<char>, n: int)
    requires
        0 <= n <= files.len(),
    ensures
        forall|i: int, j: int|
            0 <= i < j < newest_matching(files, pattern, n).len() ==> !is_later(
                (#[trigger] newest_matching(files, pattern, n)[j]).modified,
                (#[trigger] newest_matching(files, pattern, n)[i]).modified,
            ),
    decreases n,
{
    if n > 0 {
        law_newest_first(files, pattern, n - 1);
        let before = newest_matching(files, pattern, n - 1);
        let f = files[n - 1];
        lemma_newer_count(before, f.modified, 0);
        let at = newer_count(before, f.modified, 0);
        let now = newest_matching(files, pattern, n);
        if name_matches(pattern, f.path) {
            assert forall|i: int, j: int| 0 <= i < j < now.len() implies !is_later(
                (#[trigger] now[j]).modified,
                (#[trigger] now[i]).modified,
            ) by {
                let bi = if i < at {
                    i
                } else {
                    i - 1
                };
                let bj = if j < at {
                    j
                } else {
                    j - 1
                };
                if i != at && j != at {
                    assert(!is_later(before[bj].modified, before[bi].modified));
                } else if i == at && j - 1 > at {
                    assert(!is_later(before[j - 1].modified, before[at].modified));
                }
            }
        }
    }
}

/// The reply of a search for files.
pub open spec fn files_reply(
    files: Seq<FoundView>,
    pattern: Seq<char>,
    limit: u64,
    offset: u64,
) -> JsonView {
    let found = newest_matching(files, pattern, files.len() as int);
    let page = page_of(found, offset as nat, limit as nat);
    JsonView::object().with(
        "files"@,
        text_array(Seq::new(page.len(), |i: int| page[i].path)),
    ).with("total"@, number(found.len() as u64)).with(
        "truncated"@,
        JsonView::Bool(found.len() > offset + limit),
    )
}

fn later(a: Option<i128>, b: Option<i128>) -> (r: bool)
    ensures
        r == is_later(a, b),
{
    match (a, b) {
        (Some(x), Some(y)) => x > y,
        (Some(_), None) => true,
        _ => false,
    }
}

/// The reply of a search for files by name.
pub fn files_mode(files: &Vec<FoundFile>, pattern: &str, limit: u64, offset: u64) -> (r: Json)
    ensures
        r@ == files_reply(found_views(files@), pattern@, limit, offset),
{
    let ghost fs = found_views(files@);
    let mut found: Vec<FoundFile> = Vec::new();
    let mut k: usize = 0;
    assert(found_views(found@) =~= Seq::<FoundView>::empty());
    while k < files.len()
        invariant
            k <= files@.len(),
            fs == found_views(files@),
            found_views(found@) == newest_matching(fs, pattern@, k as int),
        decreases files.len() - k,
    {
        assert(fs[k as int] == files@[k as int]@);
        let keep = match file_name_text(files[k].path.as_str()) {
            Some(name) => glob_match(pattern, name.as_str()),
            None => false,
        };
        if keep {
            let t = files[k].modified;
            let ghost before = found_views(found@);
            let mut i: usize = 0;
            while i < found.len() && later(found[i].modified, t)
                invariant
                    i <= found@.len(),
                    before == found_views(found@),
                    newer_count(before, t, 0) == newer_count(before, t, i as int),
                decreases found.len() - i,
            {
                assert(before[i as int] == found@[i as int]@);
                i += 1;
            }
            assert(i < found@.len() ==> before[i as int] == found@[i as int]@);
            found.insert(i, FoundFile { path: files[k].path.clone(), modified: t });
            assert(found_views(found@) =~= before.insert(i as int, fs[k as int]));
        }
        k += 1;
    }
    let ghost all = found_views(found@);
    let from: usize = bound(found.len(), offset);
    let to: usize = bound2(found.len(), offset, limit);
    let ghost page = page_of(all, offset as nat, limit as nat);
    let mut out: Vec<String> = Vec::new();
    let mut i: usize = from;
    while i < to
        invariant
            from <= i <= to <= found@.len(),
            all == found_views(found@),
            page == all.subrange(from as int, to as int),
            out@.len() == i - from,
            forall|m: int| 0 <= m < i - from ==> out@[m]@ == page[m].path,
        decreases to - i,
    {
        out.push(found[i].path.clone());
        i += 1;
    }
    assert(views(out@) =~= Seq::new(page.len(), |i: int| page[i].path));
    let more = found.len() as u128 > offset as u128 + limit as u128;
    Json::object().with("files", Json::texts(&out)).with(
        "total",
        Json::unsigned(found.len() as u64),
    ).with("truncated", Json::boolean(more))
}

// ---------------------------------------------------------------------
// The tool
// ---------------------------------------------------------------------

pub const SEARCH_FILES_DESCRIPTION: &'static str = "Search for text across files or find files by name. Two search modes:\n- target='content' (default): ripgrep-backed regex search inside files. Honors file_glob (e.g. '*.rs'), output_mode (content | files_only | count), and offset/limit for pagination. Binary files are auto-skipped. Returns matches with line, column, and the matching line content.\n- target='files': find files whose name matches the pattern (uses simple '*' wildcards). Sorted by modification time, newest first.\nSet path to scope the search; defaults to the current working directory. Falls back to a pure-Rust walk if ripgrep is not installed.";

pub struct SearchFilesTool;

/// What is searched: file names, contents, or something unknown.
pub enum SearchTarget {
    Files,
    Content,
    Other(String),
}

/// A search that is to be done. The pattern is not empty.
pub struct SearchRequest {
    pub pattern: String,
    pub target: SearchTarget,
    pub root: String,
    pub file_glob: Option<String>,
    pub limit: u64,
    pub offset: u64,
    pub output_mode: String,
    pub context: u64,
}

pub ghost enum TargetView {
    Files,
    Content,
    Other(Seq<char>),
}

pub ghost struct SearchView {
    pub pattern: Seq<char>,
    pub target: TargetView,
    pub root: Seq<char>,
    pub file_glob: Option<Seq<char>>,
    pub limit: u64,
    pub offset: u64,
    pub output_mode: Seq<char>,
    pub context: u64,
}

impl View for SearchTarget {
    type V = TargetView;

    open spec fn view(&self) -> TargetView {
        match self {
            SearchTarget::Files => TargetView::Files,
            SearchTarget::Content => TargetView::Content,
            SearchTarget::Other(t) => TargetView::Other(t@),
        }
    }
}

impl View for SearchRequest {
    type V = SearchView;

    open spec fn view(&self) -> SearchView {
        SearchView {
            pattern: self.pattern@,
            target: self.target@,
            root: self.root@,
            file_glob: opt_view(self.file_glob),
            limit: self.limit,
            offset: self.offset,
            output_mode: self.output_mode@,
            context: self.context,
        }
    }
}

pub enum SearchPlan {
    Reply(Json),
    Search(SearchRequest),
}

pub ghost enum SearchPlanView {
    Reply(JsonView),
    Search(SearchView),
}

impl View for SearchPlan {
    type V = SearchPlanView;

    open spec fn view(&self) -> SearchPlanView {
        match self {
            SearchPlan::Reply(j) => SearchPlanView::Reply(j@),
            SearchPlan::Search(s) => SearchPlanView::Search(s@),
        }
    }
}

pub open spec fn target_of(word: Option<Seq<char>>) -> TargetView {
    match word {
        None => TargetView::Content,
        Some(t) => if t == "files"@ {
            TargetView::Files
        } else if t == "content"@ {
            TargetView::Content
        } else {
            TargetView::Other(t)
        },
    }
}

/// What a call asks for.
pub open spec fn search_plan(args: JsonView, working_dir: Seq<char>, env: EnvironmentView) -> SearchPlanView {
    let root = match args.text_at("path"@) {
        Some(p) => resolved(p, working_dir, env.home),
        None => Ok(working_dir),
    };
    match args.text_at("pattern"@) {
        Some(pattern) => if pattern.len() == 0 {
            SearchPlanView::Reply(error_json("missing 'pattern'"@))
        } else {
            match root {
                Err(m) => SearchPlanView::Reply(error_json(m)),
                Ok(dir) => SearchPlanView::Search(
                    SearchView {
                        pattern,
                        target: target_of(args.text_at("target"@)),
                        root: dir,
                        file_glob: args.text_at("file_glob"@),
                        limit: match args.number_at("limit"@) {
                            Some(n) => if n < 1 {
                                1
                            } else {
                                n
                            },
                            None => 50,
                        },
                        offset: match args.number_at("offset"@) {
                            Some(n) => n,
                            None => 0,
                        },
                        output_mode: match args.text_at("output_mode"@) {
                            Some(m) => m,
                            None => "content"@,
                        },
                        context: match args.number_at("context"@) {
                            Some(n) => n,
                            None => 0,
                        },
                    },
                ),
            }
        },
        None => SearchPlanView::Reply(error_json("missing 'pattern'"@)),
    }
}

/// The reply if nothing is to be searched.
pub open spec fn search_refusal(req: SearchView, is_dir: bool) -> Option<JsonView> {
    if !is_dir {
        Some(error_json("search path is not a directory: "@ + req.root))
    } else {
        match req.target {
            TargetView::Other(t) => Some(
                error_json(
                    "Unknown target '"@ + t + "'. Expected 'content' or 'files'."@,
                ),
            ),
            _ => None,
        }
    }
}

/// The schema of the tool's parameters.
pub open spec fn search_files_schema() -> JsonView {
    object_schema(
        JsonView::object().with(
            "pattern"@,
            typed("string"@, "Pattern to search for. Regex for target='content' (escape special chars with backslash to match literally); simple '*' wildcard for target='files'."@),
        ).with(
            "target"@,
            choice(
                seq!["content"@, "files"@],
                "Search mode. 'content' greps inside files; 'files' matches filenames."@,
            ),
        ).with(
            "path"@,
            typed("string"@, "Root directory to search. Defaults to the current working directory."@),
        ).with(
            "file_glob"@,
            typed("string"@, "Optional filename pattern using simple '*' wildcards (target='content' only)."@),
        ).with(
            "limit"@,
            typed("integer"@, "Maximum number of items to return. Defaults to 50."@).with("default"@, number(50)).with("minimum"@, number(1)),
        ).with(
            "offset"@,
            typed("integer"@, "Number of items to skip for pagination. Defaults to 0."@).with("default"@, number(0)).with("minimum"@, number(0)),
        ).with(
            "output_mode"@,
            choice(
                seq!["content"@, "files_only"@, "count"@],
                "What to return. 'content' returns match lines; 'files_only' returns the file list; 'count' returns per-file match counts."@,
            ),
        ).with(
            "context"@,
            typed("integer"@, "Number of context lines to include before and after each match. Each match entry then carries `context.before` and `context.after` arrays. Default 0 (no context)."@).with("minimum"@, number(0)),
        ),
        seq!["pattern"@],
    )
}

impl SearchFilesTool {
    pub fn new() -> (r: Self)
        ensures
            r == SearchFilesTool,
    {
        SearchFilesTool
    }

    pub fn name(&self) -> (r: &'static str)
        ensures
            r@ == "search_files"@,
    {
        "search_files"
    }

    pub fn description(&self) -> (r: &'static str)
        ensures
            r@ == SEARCH_FILES_DESCRIPTION@,
    {
        SEARCH_FILES_DESCRIPTION
    }

    pub fn toolset(&self) -> (r: &'static str)
        ensures
            r@ == "file"@,
    {
        "file"
    }

    pub fn parameters_schema(&self) -> (r: Json)
        ensures
            r@ == search_files_schema(),
    {
        let properties = Json::object().with(
            "pattern",
            typed_param("string", "Pattern to search for. Regex for target='content' (escape special chars with backslash to match literally); simple '*' wildcard for target='files'."),
        ).with(
            "target",
            choice_param(
                &words2("content", "files"),
                "Search mode. 'content' greps inside files; 'files' matches filenames.",
            ),
        ).with(
            "path",
            typed_param("string", "Root directory to search. Defaults to the current working directory."),
        ).with(
            "file_glob",
            typed_param("string", "Optional filename pattern using simple '*' wildcards (target='content' only)."),
        ).with(
            "limit",
            typed_param("integer", "Maximum number of items to return. Defaults to 50.").with("default", Json::unsigned(50)).with("minimum", Json::unsigned(1)),
        ).with(
            "offset",
            typed_param("integer", "Number of items to skip for pagination. Defaults to 0.").with("default", Json::unsigned(0)).with("minimum", Json::unsigned(0)),
        ).with(
            "output_mode",
            choice_param(
                &words3("content", "files_only", "count"),
                "What to return. 'content' returns match lines; 'files_only' returns the file list; 'count' returns per-file match counts.",
            ),
        ).with(
            "context",
            typed_param("integer", "Number of context lines to include before and after each match. Each match entry then carries `context.before` and `context.after` arrays. Default 0 (no context).").with("minimum", Json::unsigned(0)),
        );
        object_schema_json(properties, &words1("pattern"))
    }

    /// What a call asks for.
    pub fn plan(&self, args: &Json, working_dir: &str, env: &Environment) -> (r: SearchPlan)
        ensures
            r@ == search_plan(args@, working_dir@, env@),
            r matches SearchPlan::Search(req) ==> req.pattern@.len() > 0,
    {
        let pattern = match args.text_at("pattern") {
            Some(p) => p,
            None => {
                return SearchPlan::Reply(error_reply("missing 'pattern'"));
            },
        };
        if chars_of(pattern).len() == 0 {
            return SearchPlan::Reply(error_reply("missing 'pattern'"));
        }
        let root = match args.text_at("path") {
            Some(p) => match resolve_user_path(p, working_dir, env) {
                Ok(dir) => dir,
                Err(m) => {
                    return SearchPlan::Reply(error_reply(m.as_str()));
                },
            },
            None => working_dir.to_owned(),
        };
        let target = match args.text_at("target") {
            None => SearchTarget::Content,
            Some(t) => if same(t, "files") {
                SearchTarget::Files
            } else if same(t, "content") {
                SearchTarget::Content
            } else {
                SearchTarget::Other(t.to_owned())
            },
        };
        let file_glob = match args.text_at("file_glob") {
            Some(g) => Some(g.to_owned()),
            None => None,
        };
        let limit: u64 = match args.number_at("limit") {
            Some(n) => if n < 1 {
                1
            } else {
                n
            },
            None => 50,
        };
        let offset: u64 = match args.number_at("offset") {
            Some(n) => n,
            None => 0,
        };
        let output_mode = match args.text_at("output_mode") {
            Some(m) => m.to_owned(),
            None => "content".to_owned(),
        };
        let context: u64 = match args.number_at("context") {
            Some(n) => n,
            None => 0,
        };
        SearchPlan::Search(
            SearchRequest {
                pattern: pattern.to_owned(),
                target,
                root,
                file_glob,
                limit,
                offset,
                output_mode,
                context,
            },
        )
    }
}

impl SearchRequest {
    /// The reply if nothing is to be searched. `is_dir` tells whether the
    /// root is a directory.
    pub fn refuse(&self, is_dir: bool) -> (r: Option<Json>)
        ensures
            match r {
                Some(j) => search_refusal(self@, is_dir) == Some(j@),
                None => search_refusal(self@, is_dir) is None,
            },
    {
        if !is_dir {
            return Some(error_reply2("search path is not a directory: ", self.root.as_str()));
        }
        match &self.target {
            SearchTarget::Other(t) => {
                let mut out = "Unknown target '".to_owned();
                out.append(t.as_str());
                out.append("'. Expected 'content' or 'files'.");
                Some(error_reply(out.as_str()))
            },
            _ => None,
        }
    }
}

// ---------------------------------------------------------------------
// Laws
// ---------------------------------------------------------------------

proof fn lemma_globs_locally(p: Seq<char>, q: Seq<char>, x: Seq<char>, y: Seq<char>, i: int, j: int)
    requires
        0 <= i <= p.len(),
        0 <= j <= x.len(),
    ensures
        globs(p + q, x + y, i, j) == globs(p, x, i, j),
    decreases i, j,
{
    if i > 0 {
        assert((p + q)[i - 1] == p[i - 1]);
        if p[i - 1] == '*' {
            lemma_globs_locally(p, q, x, y, i - 1, j);
            if j > 0 {
                lemma_globs_locally(p, q, x, y, i, j - 1);
            }
        } else if j > 0 {
            assert((x + y)[j - 1] == x[j - 1]);
            lemma_globs_locally(p, q, x, y, i - 1, j - 1);
        }
    }
}

proof fn lemma_globs_behind(p: Seq<char>, q: Seq<char>, x: Seq<char>, y: Seq<char>, i: int, j: int)
    requires
        0 <= i <= q.len(),
        0 <= j <= y.len(),
        globs(p, x, p.len() as int, x.len() as int),
        globs(q, y, i, j),
    ensures
        globs(p + q, x + y, p.len() + i, x.len() + j),
    decreases i, j,
{
    if i == 0 {
        lemma_globs_locally(p, q, x, y, p.len() as int, x.len() as int);
    } else {
        assert((p + q)[p.len() + i - 1] == q[i - 1]);
        if q[i - 1] == '*' {
            if globs(q, y, i - 1, j) {
                lemma_globs_behind(p, q, x, y, i - 1, j);
            } else {
                lemma_globs_behind(p, q, x, y, i, j - 1);
            }
        } else {
            assert((x + y)[x.len() + j - 1] == y[j - 1]);
            lemma_globs_behind(p, q, x, y, i - 1, j - 1);
        }
    }
}

/// Two patterns one after the other match two names one after the other.
pub proof fn law_patterns_match_piece_by_piece(
    p: Seq<char>,
    q: Seq<char>,
    x: Seq<char>,
    y: Seq<char>,
)
    requires
        glob_matches(p, x),
        glob_matches(q, y),
    ensures
        glob_matches(p + q, x + y),
{
    lemma_globs_behind(p, q, x, y, q.len() as int, y.len() as int);
}

proof fn lemma_plain_end(pattern: Seq<char>, name: Seq<char>, i: int, j: int, k: int)
    requires
        0 <= i - k,
        0 <= k,
        i <= pattern.len(),
        0 <= j <= name.len(),
        forall|x: int| i - k <= x < i ==> pattern[x] != '*',
        globs(pattern, name, i, j),
    ensures
        k <= j,
        pattern.subrange(i - k, i) == name.subrange(j - k, j),
        globs(pattern, name, i - k, j - k),
    decreases k,
{
    if k > 0 {
        assert(pattern[i - 1] != '*');
        lemma_plain_end(pattern, name, i - 1, j - 1, k - 1);
        assert(pattern.subrange(i - k, i) =~= pattern.subrange(i - k, i - 1).push(pattern[i - 1]));
        assert(name.subrange(j - k, j) =~= name.subrange(j - k, j - 1).push(name[j - 1]));
    } else {
        assert(pattern.subrange(i, i) =~= name.subrange(j, j));
    }
}

proof fn lemma_star_drops(pattern: Seq<char>, name: Seq<char>, i: int, j: int) -> (r: int)
    requires
        0 < i <= pattern.len(),
        0 <= j <= name.len(),
        pattern[i - 1] == '*',
        globs(pattern, name, i, j),
    ensures
        0 <= r <= j,
        globs(pattern, name, i - 1, r),
    decreases j,
{
    if globs(pattern, name, i - 1, j) {
        j
    } else {
        lemma_star_drops(pattern, name, i, j - 1)
    }
}

/// A pattern with one `*` matches just the names that start with what stands
/// before it and end, behind that, with what stands after it.
pub proof fn law_star_stands_for_any_text(a: Seq<char>, b: Seq<char>, name: Seq<char>)
    requires
        forall|k: int| 0 <= k < a.len() ==> a[k] != '*',
        forall|k: int| 0 <= k < b.len() ==> b[k] != '*',
    ensures
        glob_matches(a + seq!['*'] + b, name) <==> exists|mid: Seq<char>|
            name == #[trigger] (a + mid + b),
{
    let p = a + seq!['*'] + b;
    let n = name.len() as int;
    let m = p.len() as int;
    if glob_matches(p, name) {
        assert forall|x: int| m - b.len() <= x < m implies p[x] != '*' by {
            assert(p[x] == b[x - a.len() - 1]);
        }
        lemma_plain_end(p, name, m, n, b.len() as int);
        let j = n - b.len();
        let i = m - b.len();
        assert(p[i - 1] == '*');
        let r = lemma_star_drops(p, name, i, j);
        assert forall|x: int| 0 <= x < a.len() implies p[x] != '*' by {
            assert(p[x] == a[x]);
        }
        lemma_plain_end(p, name, i - 1, r, i - 1);
        assert(globs(p, name, 0, r - (i - 1)));
        assert(r == a.len());
        let mid = name.subrange(r, j);
        assert(p.subrange(0, i - 1) =~= a);
        assert(p.subrange(m - b.len(), m) =~= b);
        assert(name.subrange(0, r) == a);
        assert(name.subrange(j, n) == b);
        assert(name =~= a + mid + b) by {
            assert(name =~= name.subrange(0, r) + name.subrange(r, j) + name.subrange(j, n));
        }
    }
    if exists|mid: Seq<char>| name == #[trigger] (a + mid + b) {
        let mid = choose|mid: Seq<char>| name == #[trigger] (a + mid + b);
        law_plain_pattern_matches_itself_only(a, a);
        law_plain_pattern_matches_itself_only(b, b);
        law_star_matches_all(mid);
        law_patterns_match_piece_by_piece(a, seq!['*'], a, mid);
        law_patterns_match_piece_by_piece(a + seq!['*'], b, a + mid, b);
    }
}

/// Whether an event reports a match.
pub open spec fn reports_match(event: JsonView) -> bool {
    event.text_at("type"@) == Some("match"@)
}

/// How many of the first `n` events report a match.
pub open spec fn match_count(events: Seq<JsonView>, n: int) -> nat
    decreases n,
{
    if n <= 0 {
        0
    } else {
        match_count(events, n - 1) + if reports_match(events[n - 1]) {
            1nat
        } else {
            0nat
        }
    }
}

proof fn lemma_match_count_grows(events: Seq<JsonView>, m: int, n: int)
    requires
        m <= n,
    ensures
        match_count(events, m) <= match_count(events, n),
    decreases n - m,
{
    if m < n {
        lemma_match_count_grows(events, m, n - 1);
    }
}

proof fn lemma_event_words()
    ensures
        "match"@ != "context"@,
{
    reveal_strlit("match");
    reveal_strlit("context");
    assert("match"@.len() != "context"@.len());
}

proof fn lemma_event_keeps_matches(st: RgState, event: JsonView, context: u64, i: int)
    requires
        0 <= i < st.found.len(),
    ensures
        st.found.len() <= rg_event(st, event, context).found.len(),
        ({
            let a = st.found[i];
            let b = rg_event(st, event, context).found[i];
            &&& b.path == a.path
            &&& b.line == a.line
            &&& b.column == a.column
            &&& b.content == a.content
            &&& a.context is Some <==> b.context is Some
            &&& a.context is Some ==> b.context->0.before == a.context->0.before
                && a.context->0.after.is_prefix_of(b.context->0.after)
        }),
{
    let a = st.found[i];
    if a.context is Some {
        let x = a.context->0.after;
        assert(x.is_prefix_of(x));
        assert(x.is_prefix_of(x.push(event_line(event))));
    }
}

/// A line as it is shown: the text without the line feeds at its end.
pub open spec fn is_shown_line(line: Seq<char>, text: Seq<char>) -> bool {
    &&& line.is_prefix_of(text)
    &&& forall|i: int| line.len() <= i < text.len() ==> #[trigger] text[i] == '\n'
    &&& line.len() == 0 || line.last() != '\n'
}

proof fn lemma_without_newlines(s: Seq<char>)
    ensures
        is_shown_line(without_newlines(s), s),
    decreases s.len(),
{
    if s.len() > 0 && s.last() == '\n' {
        let t = s.drop_last();
        lemma_without_newlines(t);
        let r = without_newlines(s);
        assert(r =~= s.take(r.len() as int)) by {
            assert(r == t.take(r.len() as int));
        }
        assert forall|i: int| r.len() <= i < s.len() implies #[trigger] s[i] == '\n' by {
            if i < s.len() - 1 {
                assert(t[i] == '\n');
            }
        }
    } else {
        assert(s.is_prefix_of(s));
    }
}

/// There is one match for each event that reports one, in the order of the
/// events, with the path, the line, the column and the text that the event
/// has. No later event takes a match away.
pub proof fn law_every_reported_match_is_found(
    events: Seq<JsonView>,
    context: u64,
    n: int,
    e: int,
)
    requires
        0 <= e < n <= events.len(),
        reports_match(events[e]),
    ensures
        rg_state(events, context, n).found.len() == match_count(events, n),
        match_count(events, e) < match_count(events, n),
        ({
            let m = rg_state(events, context, n).found[match_count(events, e) as int];
            events[e].get("data"@) matches Some(data) ==> {
                &&& data.get("path"@) matches Some(p) ==> (p.text_at("text"@) matches Some(t)
                    ==> m.path == t)
                &&& data.number_at("line_number"@) matches Some(k) ==> m.line == k
                &&& data.get("lines"@) matches Some(l) ==> (l.text_at("text"@) matches Some(t)
                    ==> is_shown_line(m.content, t))
                &&& data.get("submatches"@) matches Some(JsonView::Array(items)) ==> (items.len()
                    > 0 ==> (items[0].number_at("start"@) matches Some(k) ==> (k < u64::MAX
                    ==> m.column == k + 1)))
            }
        }),
    decreases n,
{
    lemma_event_words();
    lemma_found_count(events, context, n);
    lemma_match_count_grows(events, e + 1, n);
    if e == n - 1 {
        lemma_found_count(events, context, n - 1);
        lemma_without_newlines(
            text_or_empty(entry(entry(entry(events[e], "data"@), "lines"@), "text"@)),
        );
    } else {
        law_every_reported_match_is_found(events, context, n - 1, e);
        lemma_found_count(events, context, n - 1);
        lemma_match_count_grows(events, e + 1, n - 1);
        lemma_event_keeps_matches(
            rg_state(events, context, n - 1),
            events[n - 1],
            context,
            match_count(events, e) as int,
        );
    }
}

proof fn lemma_found_count(events: Seq<JsonView>, context: u64, n: int)
    requires
        0 <= n <= events.len(),
    ensures
        rg_state(events, context, n).found.len() == match_count(events, n),
    decreases n,
{
    if n > 0 {
        lemma_event_words();
        lemma_found_count(events, context, n - 1);
    }
}

/// The number of matches is the number of events that report one.
pub proof fn law_matches_are_counted(events: Seq<JsonView>, context: u64, n: int)
    requires
        0 <= n <= events.len(),
    ensures
        rg_state(events, context, n).found.len() == match_count(events, n),
{
    lemma_found_count(events, context, n);
}

/// The lines that follow a match are shown with it, in order, as far as
/// context was asked for.
pub proof fn law_lines_after_a_match_belong_to_it(
    st: RgState,
    event: JsonView,
    after: Seq<JsonView>,
    context: u64,
    n: int,
)
    requires
        reports_match(event),
        0 <= n <= after.len(),
        n <= context,
        forall|k: int|
            0 <= k < after.len() ==> (#[trigger] after[k]).text_at("type"@) == Some("context"@),
    ensures
        ({
            let now = events_from(rg_event(st, event, context), after, context, n);
            &&& now.found.len() == st.found.len() + 1
            &&& now.found.last().context is Some
            &&& now.found.last().context->0.after == Seq::new(n as nat, |k: int| event_line(after[k]))
            &&& now.found.last().context->0.before == st.pending
            &&& now.after_left == context - n
        }),
    decreases n,
{
    lemma_event_words();
    if n > 0 {
        law_lines_after_a_match_belong_to_it(st, event, after, context, n - 1);
        let before = events_from(rg_event(st, event, context), after, context, n - 1);
        assert(after[n - 1].text_at("type"@) == Some("context"@));
        assert(Seq::new((n - 1) as nat, |k: int| event_line(after[k])).push(event_line(after[n - 1]))
            =~= Seq::new(n as nat, |k: int| event_line(after[k])));
    } else {
        assert(Seq::new(0, |k: int| event_line(after[k])) =~= Seq::<Seq<char>>::empty());
    }
}

/// The state after the first `n` of some more events.
pub open spec fn events_from(st: RgState, events: Seq<JsonView>, context: u64, n: int) -> RgState
    decreases n,
{
    if n <= 0 {
        st
    } else {
        rg_event(events_from(st, events, context, n - 1), events[n - 1], context)
    }
}

/// The lines that come before a match are shown with it: the last of them,
/// in order, as far as context was asked for, and none twice.
pub proof fn law_lines_before_a_match_belong_to_it(
    st: RgState,
    before: Seq<JsonView>,
    event: JsonView,
    context: u64,
)
    requires
        reports_match(event),
        st.pending.len() == 0,
        forall|k: int|
            0 <= k < before.len() ==> (#[trigger] before[k]).text_at("type"@) == Some("context"@),
    ensures
        ({
            let waiting = events_from(st, before, context, before.len() as int);
            let now = rg_event(waiting, event, context);
            let shown = Seq::new(before.len(), |k: int| event_line(before[k]));
            &&& now.pending.len() == 0
            &&& now.found.last().context is Some
            &&& now.found.last().context->0.after.len() == 0
            &&& before.len() <= context ==> now.found.last().context->0.before == shown
            &&& before.len() > context ==> now.found.last().context->0.before == shown.skip(
                shown.len() - context,
            )
        }),
{
    lemma_event_words();
    lemma_pending(st, before, context, before.len() as int);
}

proof fn lemma_pending(st: RgState, before: Seq<JsonView>, context: u64, n: int)
    requires
        0 <= n <= before.len(),
        st.pending.len() == 0,
        forall|k: int|
            0 <= k < before.len() ==> (#[trigger] before[k]).text_at("type"@) == Some("context"@),
    ensures
        ({
            let shown = Seq::new(n as nat, |k: int| event_line(before[k]));
            let pending = events_from(st, before, context, n).pending;
            &&& n <= context ==> pending == shown
            &&& n > context ==> pending == shown.skip(n - context)
        }),
    decreases n,
{
    let shown = Seq::new(n as nat, |k: int| event_line(before[k]));
    if n > 0 {
        lemma_pending(st, before, context, n - 1);
        let less = Seq::new((n - 1) as nat, |k: int| event_line(before[k]));
        assert(before[n - 1].text_at("type"@) == Some("context"@));
        let line = event_line(before[n - 1]);
        assert(less.push(line) =~= shown);
        let old_pending = events_from(st, before, context, n - 1).pending;
        let pending = events_from(st, before, context, n).pending;
        if n <= context {
            assert(pending =~= shown);
        } else if n - 1 <= context {
            assert(pending =~= shown.skip(n - context));
        } else {
            assert(old_pending == less.skip(n - 1 - context));
            assert(pending =~= shown.skip(n - context));
        }
    } else {
        assert(shown =~= st.pending);
    }
}

/// How many of the first `n` lines hold a JSON value.
pub open spec fn readable_count(all: Seq<Seq<char>>, n: int) -> nat
    decreases n,
{
    if n <= 0 {
        0
    } else {
        readable_count(all, n - 1) + if all[n - 1].len() > 0 && json_read(all[n - 1]) is Some {
            1nat
        } else {
            0nat
        }
    }
}

/// Every line that holds a JSON value gives that value, in the order of the
/// lines, and no other line gives anything.
pub proof fn law_json_lines_are_all_read(all: Seq<Seq<char>>, n: int, k: int)
    requires
        0 <= k < n <= all.len(),
        all[k].len() > 0,
        json_read(all[k]) is Some,
    ensures
        json_lines(all, n).len() == readable_count(all, n),
        readable_count(all, k) < readable_count(all, n),
        json_lines(all, n)[readable_count(all, k) as int] == json_read(all[k])->0,
    decreases n,
{
    lemma_json_lines_len(all, n);
    lemma_json_lines_len(all, n - 1);
    if k < n - 1 {
        law_json_lines_are_all_read(all, n - 1, k);
    }
}

proof fn lemma_json_lines_len(all: Seq<Seq<char>>, n: int)
    ensures
        json_lines(all, n).len() == readable_count(all, n),
    decreases n,
{
    if n > 0 {
        lemma_json_lines_len(all, n - 1);
    }
}

proof fn lemma_path_count(paths: Seq<Seq<char>>, p: Seq<char>, n: int)
    requires
        0 <= n <= paths.len(),
    ensures
        path_count(paths, p, n) == paths.take(n).to_multiset().count(p),
    decreases n,
{
    broadcast use vstd::multiset::group_multiset_axioms;

    if n > 0 {
        lemma_path_count(paths, p, n - 1);
        assert(paths.take(n) =~= paths.take(n - 1).push(paths[n - 1]));
        paths.take(n - 1).to_multiset_ensures();
    } else {
        paths.take(0).to_multiset_ensures();
        assert(!paths.take(0).contains(p));
    }
}

/// Every file is listed with the number of its matches, and nothing else
/// is.
pub proof fn law_counts_are_right(paths: Seq<Seq<char>>, sorted: Seq<Seq<char>>, n: int)
    requires
        0 <= n <= sorted.len(),
    ensures
        forall|k: int|
            0 <= k < n ==> ranked_counts(paths, sorted, n).contains(
                (#[trigger] sorted[k], paths.to_multiset().count(sorted[k])),
            ),
        forall|i: int|
            0 <= i < ranked_counts(paths, sorted, n).len() ==> sorted.take(n).contains(
                (#[trigger] ranked_counts(paths, sorted, n)[i]).0,
            ) && ranked_counts(paths, sorted, n)[i].1 == paths.to_multiset().count(
                ranked_counts(paths, sorted, n)[i].0,
            ),
    decreases n,
{
    if n > 0 {
        law_counts_are_right(paths, sorted, n - 1);
        let before = ranked_counts(paths, sorted, n - 1);
        let now = ranked_counts(paths, sorted, n);
        let p = sorted[n - 1];
        let c = path_count(paths, p, paths.len() as int);
        assert(c == paths.to_multiset().count(p)) by {
            lemma_path_count(paths, p, paths.len() as int);
            assert(paths.take(paths.len() as int) =~= paths);
        }
        lemma_rank_of(before, c, 0);
        let at = rank_of(before, c, 0);
        assert(now =~= before.insert(at, (p, c)));
        assert forall|k: int| 0 <= k < n implies now.contains(
            (#[trigger] sorted[k], paths.to_multiset().count(sorted[k])),
        ) by {
            let e = (sorted[k], paths.to_multiset().count(sorted[k]));
            if k < n - 1 {
                assert(before.contains(e));
                let w = choose|w: int| 0 <= w < before.len() && before[w] == e;
                if w < at {
                    assert(now[w] == e);
                } else {
                    assert(now[w + 1] == e);
                }
            } else {
                assert(now[at] == e);
            }
        }
        assert forall|i: int| 0 <= i < now.len() implies sorted.take(n).contains(
            (#[trigger] now[i]).0,
        ) && now[i].1 == paths.to_multiset().count(now[i].0) by {
            if i == at {
                assert(sorted.take(n)[n - 1] == p);
            } else {
                let k = if i < at {
                    i
                } else {
                    i - 1
                };
                assert(now[i] == before[k]);
                assert(sorted.take(n - 1).contains(before[k].0));
                let w = choose|w: int|
                    0 <= w < n - 1 && #[trigger] sorted.take(n - 1)[w] == before[k].0;
                assert(sorted.take(n)[w] == before[k].0);
            }
        }
    }
}

/// Of two files with the same number of matches the one first in order
/// comes first.
pub proof fn law_equal_counts_keep_the_order(
    paths: Seq<Seq<char>>,
    sorted: Seq<Seq<char>>,
    n: int,
)
    requires
        0 <= n <= sorted.len(),
        crate::order::strictly_sorted(sorted),
    ensures
        forall|i: int, j: int|
            0 <= i < j < ranked_counts(paths, sorted, n).len() && ranked_counts(
                paths,
                sorted,
                n,
            )[i].1 == ranked_counts(paths, sorted, n)[j].1 ==> crate::order::precedes(
                (#[trigger] ranked_counts(paths, sorted, n)[i]).0,
                (#[trigger] ranked_counts(paths, sorted, n)[j]).0,
            ),
    decreases n,
{
    if n > 0 {
        law_equal_counts_keep_the_order(paths, sorted, n - 1);
        law_counts_fall(paths, sorted, n - 1);
        law_counts_are_right(paths, sorted, n - 1);
        let before = ranked_counts(paths, sorted, n - 1);
        let now = ranked_counts(paths, sorted, n);
        let p = sorted[n - 1];
        let c = path_count(paths, p, paths.len() as int);
        lemma_rank_of(before, c, 0);
        let at = rank_of(before, c, 0);
        assert(now =~= before.insert(at, (p, c)));
        assert forall|i: int, j: int|
            0 <= i < j < now.len() && now[i].1 == now[j].1 implies crate::order::precedes(
            (#[trigger] now[i]).0,
            (#[trigger] now[j]).0,
        ) by {
            if j == at {
                assert(now[i] == before[i]);
                lemma_earlier_name(paths, sorted, n, i);
            } else if i == at {
                assert(now[j] == before[j - 1]);
                if j - 1 > at {
                    assert(before[at].1 >= before[j - 1].1);
                }
            } else {
                let bi = if i < at {
                    i
                } else {
                    i - 1
                };
                let bj = if j < at {
                    j
                } else {
                    j - 1
                };
                assert(now[i] == before[bi] && now[j] == before[bj]);
            }
        }
    }
}

proof fn lemma_earlier_name(paths: Seq<Seq<char>>, sorted: Seq<Seq<char>>, n: int, i: int)
    requires
        0 < n <= sorted.len(),
        crate::order::strictly_sorted(sorted),
        0 <= i < ranked_counts(paths, sorted, n - 1).len(),
    ensures
        crate::order::precedes(ranked_counts(paths, sorted, n - 1)[i].0, sorted[n - 1]),
{
    law_counts_are_right(paths, sorted, n - 1);
    let name = ranked_counts(paths, sorted, n - 1)[i].0;
    assert(sorted.take(n - 1).contains(name));
    let w = choose|w: int| 0 <= w < n - 1 && #[trigger] sorted.take(n - 1)[w] == name;
    assert(sorted[w] == name);
}

proof fn lemma_payload_words()
    ensures
        "matches"@ != "total"@,
        "matches"@ != "truncated"@,
        "counts"@ != "total"@,
        "counts"@ != "truncated"@,
        "files"@ != "total"@,
        "files"@ != "truncated"@,
        "total"@ != "truncated"@,
        "files_only"@ != "count"@,
        "path"@ != "line"@,
        "path"@ != "column"@,
        "path"@ != "content"@,
        "path"@ != "context"@,
        "path"@ != "count"@,
        "line"@ != "column"@,
        "line"@ != "content"@,
        "line"@ != "context"@,
        "column"@ != "content"@,
        "column"@ != "context"@,
        "content"@ != "context"@,
        "before"@ != "after"@,
{
    reveal_strlit("matches");
    reveal_strlit("total");
    reveal_strlit("truncated");
    reveal_strlit("counts");
    reveal_strlit("files");
    reveal_strlit("files_only");
    reveal_strlit("count");
    reveal_strlit("path");
    reveal_strlit("line");
    reveal_strlit("column");
    reveal_strlit("content");
    reveal_strlit("context");
    reveal_strlit("before");
    reveal_strlit("after");
    assert("matches"@.len() == 7 && "total"@.len() == 5 && "truncated"@.len() == 9);
    assert("counts"@.len() == 6 && "files"@[0] == 'f' && "total"@[0] == 't');
    assert("files_only"@.len() == 10 && "count"@.len() == 5);
    assert("path"@[0] == 'p' && "line"@[0] == 'l' && "column"@.len() == 6);
    assert("content"@[4] == 'e' && "context"@[4] == 'e' && "content"@[5] == 'n' && "context"@[5]
        == 'x');
    assert("content"@.len() == 7 && "before"@.len() == 6 && "after"@.len() == 5);
}

/// What is reported of a match is the match.
pub proof fn law_match_is_reported_as_it_is(m: MatchView)
    ensures
        match_json(m).text_at("path"@) == Some(m.path),
        match_json(m).number_at("line"@) == Some(m.line),
        match_json(m).number_at("column"@) == Some(m.column),
        match_json(m).text_at("content"@) == Some(m.content),
        m.context is None ==> match_json(m).get("context"@) is None,
        m.context matches Some(c) ==> (match_json(m).get("context"@) matches Some(j) && j.get(
            "before"@,
        ) == Some(text_array(c.before)) && j.get("after"@) == Some(text_array(c.after))),
{
    lemma_payload_words();
}

/// A content search shows the matches from the offset on, as many as the
/// limit allows, tells how many there are in all, and whether some follow.
pub proof fn law_page_of_matches_is_shown(
    found: Seq<MatchView>,
    limit: u64,
    offset: u64,
    i: int,
)
    requires
        found.len() <= u64::MAX,
    ensures
        ({
            let reply = search_payload(found, "content"@, limit, offset);
            let all = reply.get("matches"@);
            &&& all is Some && all->0 is Array
            &&& all->0->Array_0.len() <= limit
            &&& 0 <= i < limit && offset + i < found.len() ==> i < all->0->Array_0.len()
                && all->0->Array_0[i] == match_json(found[offset + i])
            &&& 0 <= i < all->0->Array_0.len() ==> offset + i < found.len()
            &&& reply.number_at("total"@) == Some(found.len() as u64)
            &&& reply.flag_at("truncated"@) <==> offset + limit < found.len()
        }),
{
    lemma_payload_words();
    reveal_strlit("content");
    reveal_strlit("files_only");
    reveal_strlit("count");
    assert("content"@.len() == 7 && "files_only"@.len() == 10 && "count"@.len() == 5);
}

/// A search for files only names every file with a match, once and in
/// order; one for counts shows a page of the counts.
pub proof fn law_files_with_matches_are_shown(
    found: Seq<MatchView>,
    limit: u64,
    offset: u64,
    i: int,
)
    requires
        found.len() <= u64::MAX,
    ensures
        ({
            let reply = search_payload(found, "files_only"@, limit, offset);
            let files = reply.get("files"@);
            exists|names: Seq<Seq<char>>|
                {
                    &&& files == Some(#[trigger] text_array(names))
                    &&& crate::order::strictly_sorted(names)
                    &&& forall|p: Seq<char>|
                        #![trigger names.contains(p)]
                        names.contains(p) <==> exists|k: int|
                            0 <= k < found.len() && (#[trigger] found[k]).path == p
                }
        }),
        search_payload(found, "files_only"@, limit, offset).number_at("total"@) == Some(
            found.len() as u64,
        ),
        search_payload(found, "files_only"@, limit, offset).flag_at("truncated"@) <==> found.len()
            > limit,
        search_payload(found, "count"@, limit, offset).number_at("total"@) == Some(
            found.len() as u64,
        ),
        ({
            let names = sorted_distinct(match_paths(found), found.len() as int);
            let counts = ranked_counts(match_paths(found), names, names.len() as int);
            let shown = search_payload(found, "count"@, limit, offset).get("counts"@);
            &&& shown is Some && shown->0 is Array
            &&& shown->0->Array_0.len() <= limit
            &&& 0 <= i < limit && offset + i < counts.len() ==> i < shown->0->Array_0.len()
                && shown->0->Array_0[i].text_at("path"@) == Some(counts[offset + i].0)
            &&& search_payload(found, "count"@, limit, offset).flag_at("truncated"@)
                <==> names.len() > offset + limit
        }),
{
    lemma_payload_words();
    let paths = match_paths(found);
    let n = paths.len() as int;
    crate::order::law_sorted_distinct(paths, n);
    let names = sorted_distinct(paths, n);
    assert(paths.take(n) =~= paths);
    assert forall|p: Seq<char>| #![trigger names.contains(p)] names.contains(p) <==> exists|k: int|
        0 <= k < found.len() && (#[trigger] found[k]).path == p by {
        if names.contains(p) {
            assert(paths.take(n).contains(p));
            let k = choose|k: int| 0 <= k < paths.len() && paths[k] == p;
            assert(found[k].path == p);
        }
        if exists|k: int| 0 <= k < found.len() && (#[trigger] found[k]).path == p {
            let k = choose|k: int| 0 <= k < found.len() && (#[trigger] found[k]).path == p;
            assert(paths.take(n)[k] == p);
            assert(paths.take(n).contains(p));
        }
    }
    assert(search_payload(found, "files_only"@, limit, offset).get("files"@) == Some(
        text_array(names),
    ));
    law_counts_fall(paths, names, names.len() as int);
}

/// A file's count is reported as it is.
pub proof fn law_count_is_reported_as_it_is(entry: (Seq<char>, nat))
    requires
        entry.1 <= u64::MAX,
    ensures
        count_json(entry).text_at("path"@) == Some(entry.0),
        count_json(entry).number_at("count"@) == Some(entry.1 as u64),
{
    lemma_payload_words();
}

/// A line gives one match for each place of the pattern, from left to
/// right, with the line as it is and the column of the place in bytes.
pub proof fn law_every_place_in_a_line_is_found(
    path: Seq<char>,
    line_no: u64,
    line: Seq<char>,
    pattern: Seq<char>,
    from: int,
)
    requires
        pattern.len() > 0,
        0 <= from <= line.len(),
        byte_count(line) < u64::MAX,
    ensures
        line_matches(path, line_no, line, pattern, from).len() == crate::text::count_from(
            line,
            pattern,
            from,
        ),
        (exists|p: int|
            from <= p <= line.len() - pattern.len() && #[trigger] line.subrange(
                p,
                p + pattern.len(),
            ) == pattern) <==> line_matches(path, line_no, line, pattern, from).len() > 0,
        forall|i: int|
            0 <= i < line_matches(path, line_no, line, pattern, from).len() ==> {
                let m = #[trigger] line_matches(path, line_no, line, pattern, from)[i];
                &&& m.path == path
                &&& m.line == line_no
                &&& m.content == line
                &&& m.context is None
                &&& exists|p: int|
                    from <= p <= line.len() - pattern.len() && #[trigger] line.subrange(
                        p,
                        p + pattern.len(),
                    ) == pattern && m.column == byte_count(line.take(p)) + 1
            },
    decreases line.len() - from,
{
    lemma_find_from(line, pattern, from);
    let all = line_matches(path, line_no, line, pattern, from);
    if let Some(p) = find_from(line, pattern, from) {
        let next = p + pattern.len();
        law_every_place_in_a_line_is_found(path, line_no, line, pattern, next);
        let rest = line_matches(path, line_no, line, pattern, next);
        lemma_prefix_bytes(line, p);
        assert forall|i: int| 0 <= i < all.len() implies {
            let m = #[trigger] all[i];
            &&& m.path == path
            &&& m.line == line_no
            &&& m.content == line
            &&& m.context is None
            &&& exists|q: int|
                from <= q <= line.len() - pattern.len() && #[trigger] line.subrange(
                    q,
                    q + pattern.len(),
                ) == pattern && m.column == byte_count(line.take(q)) + 1
        } by {
            if i > 0 {
                assert(all[i] == rest[i - 1]);
                let q = choose|q: int|
                    next <= q <= line.len() - pattern.len() && #[trigger] line.subrange(
                        q,
                        q + pattern.len(),
                    ) == pattern && rest[i - 1].column == byte_count(line.take(q)) + 1;
                assert(from <= q <= line.len() - pattern.len() && line.subrange(
                    q,
                    q + pattern.len(),
                ) == pattern);
            } else {
                assert(line.subrange(p, p + pattern.len()) == pattern);
            }
        }
    }
}

/// A text gives matches for just the lines that hold the pattern, each with
/// its number, counted from one, and its text.
pub proof fn law_every_line_with_the_pattern_is_found(
    path: Seq<char>,
    all: Seq<Seq<char>>,
    pattern: Seq<char>,
    n: int,
)
    requires
        pattern.len() > 0,
        0 <= n <= all.len() <= u64::MAX,
        forall|k: int| 0 <= k < all.len() ==> byte_count(#[trigger] all[k]) < u64::MAX,
    ensures
        forall|i: int|
            0 <= i < text_matches(path, all, pattern, n).len() ==> {
                let m = #[trigger] text_matches(path, all, pattern, n)[i];
                &&& 1 <= m.line <= n
                &&& m.path == path
                &&& m.content == all[m.line - 1]
                &&& crate::text::contains(all[m.line - 1], pattern)
            },
        forall|k: int|
            0 <= k < n && crate::text::contains(#[trigger] all[k], pattern) ==> exists|i: int|
                0 <= i < text_matches(path, all, pattern, n).len() && (#[trigger] text_matches(
                    path,
                    all,
                    pattern,
                    n,
                )[i]).line == k + 1,
    decreases n,
{
    if n > 0 {
        law_every_line_with_the_pattern_is_found(path, all, pattern, n - 1);
        let line = all[n - 1];
        assert(byte_count(all[n - 1]) < u64::MAX);
        law_every_place_in_a_line_is_found(path, n as u64, line, pattern, 0);
        lemma_find_from(line, pattern, 0);
        let before = text_matches(path, all, pattern, n - 1);
        let more = line_matches(path, n as u64, line, pattern, 0);
        let now = text_matches(path, all, pattern, n);
        assert(now =~= before + more);
        assert forall|i: int| 0 <= i < now.len() implies {
            let m = #[trigger] now[i];
            &&& 1 <= m.line <= n
            &&& m.path == path
            &&& m.content == all[m.line - 1]
            &&& crate::text::contains(all[m.line - 1], pattern)
        } by {
            if i < before.len() {
                assert(now[i] == before[i]);
            } else {
                assert(now[i] == more[i - before.len()]);
                assert(more.len() > 0);
                assert(crate::text::count_from(line, pattern, 0) > 0);
            }
        }
        assert forall|k: int|
            0 <= k < n && crate::text::contains(#[trigger] all[k], pattern) implies exists|i: int|
            0 <= i < now.len() && (#[trigger] now[i]).line == k + 1 by {
            if k < n - 1 {
                let i = choose|i: int| 0 <= i < before.len() && (#[trigger] before[i]).line == k
                    + 1;
                assert(now[i] == before[i]);
            } else {
                assert(crate::text::count_from(line, pattern, 0) > 0);
                assert(more.len() > 0);
                assert(now[before.len() as int] == more[0]);
            }
        }
    }
}

/// A walk gives the matches of its files one after the other: those of the
/// earlier ones stay in front, and those of each follow.
pub proof fn law_walk_goes_through_all_files(
    files: Seq<WalkedView>,
    pattern: Seq<char>,
    n: int,
    k: int,
)
    requires
        0 <= k < n <= files.len(),
    ensures
        walk_matches(files, pattern, k).is_prefix_of(walk_matches(files, pattern, n)),
        exists|at: int|
            0 <= at <= walk_matches(files, pattern, n).len() - file_matches(
                files[k],
                pattern,
            ).len() && #[trigger] walk_matches(files, pattern, n).subrange(
                at,
                at + file_matches(files[k], pattern).len(),
            ) == file_matches(files[k], pattern),
        files[k].text is None ==> file_matches(files[k], pattern).len() == 0,
        files[k].text matches Some(text) ==> (extension(files[k].path) is None ==> file_matches(
            files[k],
            pattern,
        ) == text_matches(files[k].path, lines(text), pattern, lines(text).len() as int)),
    decreases n,
{
    let now = walk_matches(files, pattern, n);
    let f = file_matches(files[k], pattern);
    if k == n - 1 {
        let before = walk_matches(files, pattern, k);
        assert(before =~= now.take(before.len() as int));
        let at = before.len() as int;
        assert(now.subrange(at, at + f.len()) =~= f);
    } else {
        law_walk_goes_through_all_files(files, pattern, n - 1, k);
        let before = walk_matches(files, pattern, n - 1);
        let first = walk_matches(files, pattern, k);
        assert(first =~= now.take(first.len() as int)) by {
            assert(first == before.take(first.len() as int));
        }
        let at = choose|at: int|
            0 <= at <= before.len() - f.len() && #[trigger] before.subrange(at, at + f.len()) == f;
        assert(now.subrange(at, at + f.len()) =~= before.subrange(at, at + f.len()));
    }
}

/// A file that ripgrep looks through, and what it looks for there, is what
/// the call says: the pattern stands behind `-e`, so that it is never taken
/// for an option, and the other options are there just if they were given.
pub proof fn law_ripgrep_gets_what_was_asked(
    pattern: Seq<char>,
    root: Seq<char>,
    file_glob: Option<Seq<char>>,
    context: u64,
)
    ensures
        ({
            let args = rg_args(pattern, root, file_glob, context);
            let glob = if file_glob is Some {
                2int
            } else {
                0
            };
            let around = if context > 0 {
                2int
            } else {
                0
            };
            &&& args.len() == 5 + glob + around
            &&& args[0] == "--json"@
            &&& args[2] == "-e"@
            &&& args[3] == pattern
            &&& args[4] == root
            &&& file_glob matches Some(g) ==> args[5] == "-g"@ && args[6] == g
            &&& context > 0 ==> args[args.len() - 2] == "-C"@ && args.last() == decimal(
                context as nat,
            )
        }),
{
}

/// A ripgrep that could not be run or that failed gives an error; otherwise
/// its matches are shown, also if there are none.
pub proof fn law_failed_search_is_told(
    code: Option<i32>,
    stdout: Vec<u8>,
    stderr: Vec<u8>,
    e: String,
    mode: Seq<char>,
    context: u64,
    limit: u64,
    offset: u64,
)
    ensures
        rg_reply(RgEnd::SpawnFailed(e), mode, context, limit, offset).get("error"@) is Some,
        code matches Some(c) ==> (c >= 2 ==> rg_reply(
            RgEnd::Done { code, stdout, stderr },
            mode,
            context,
            limit,
            offset,
        ).text_at("error"@) == Some("rg error: "@ + trim(lossy_text(stderr@)))),
        (code is None || code->0 < 2) ==> exists|events: Seq<JsonView>| {
            &&& events == json_lines(
                lines(lossy_text(stdout@)),
                lines(lossy_text(stdout@)).len() as int,
            )
            &&& rg_reply(RgEnd::Done { code, stdout, stderr }, mode, context, limit, offset)
                == search_payload(
                (#[trigger] rg_state(events, context, events.len() as int)).found,
                mode,
                limit,
                offset,
            )
        },
{
    let all = lines(lossy_text(stdout@));
    let events = json_lines(all, all.len() as int);
    let st = rg_state(events, context, events.len() as int);
}

/// Of the files just those whose name matches are listed, each as often as
/// it was found.
pub proof fn law_matching_files_are_listed(
    files: Seq<FoundView>,
    pattern: Seq<char>,
    n: int,
    f: FoundView,
)
    requires
        0 <= n <= files.len(),
    ensures
        newest_matching(files, pattern, n).to_multiset().count(f) == if name_matches(
            pattern,
            f.path,
        ) {
            files.take(n).to_multiset().count(f)
        } else {
            0
        },
    decreases n,
{
    broadcast use vstd::multiset::group_multiset_axioms;

    let now = newest_matching(files, pattern, n);
    if n > 0 {
        law_matching_files_are_listed(files, pattern, n - 1, f);
        let g = files[n - 1];
        let before = newest_matching(files, pattern, n - 1);
        assert(files.take(n) =~= files.take(n - 1).push(g));
        files.take(n - 1).to_multiset_ensures();
        if name_matches(pattern, g.path) {
            lemma_newer_count(before, g.modified, 0);
            let at = newer_count(before, g.modified, 0);
            now.to_multiset_ensures();
            assert(now.remove(at) =~= before);
            assert(now[at] == g);
            assert(now.contains(g));
            assert(now.remove(at).to_multiset() =~= now.to_multiset().remove(now[at]));
            assert(now.to_multiset().count(g) > 0);
        }
    } else {
        now.to_multiset_ensures();
        files.take(0).to_multiset_ensures();
        assert(!now.contains(f));
        assert(!files.take(0).contains(f));
    }
}

/// A search for files shows a page of what matches, how many there are and
/// whether some follow; a file matches by its name alone.
pub proof fn law_page_of_files_is_shown(
    files: Seq<FoundView>,
    pattern: Seq<char>,
    limit: u64,
    offset: u64,
    i: int,
    path: Seq<char>,
)
    requires
        files.len() <= u64::MAX,
    ensures
        ({
            let found = newest_matching(files, pattern, files.len() as int);
            let reply = files_reply(files, pattern, limit, offset);
            let shown = reply.get("files"@);
            &&& shown is Some && shown->0 is Array
            &&& shown->0->Array_0.len() <= limit
            &&& 0 <= i < limit && offset + i < found.len() ==> i < shown->0->Array_0.len()
                && shown->0->Array_0[i] == JsonView::Text(found[offset + i].path)
            &&& reply.number_at("total"@) == Some(found.len() as u64)
            &&& reply.flag_at("truncated"@) <==> found.len() > offset + limit
        }),
        name_matches(pattern, path) <==> file_name(path) is Some && glob_matches(
            pattern,
            file_name(path)->0,
        ),
{
    lemma_payload_words();
}

/// A search is done with what the call says; where it says nothing, the
/// content of the working directory is searched and fifty results are
/// shown, without context. A call without a pattern is refused.
pub proof fn law_search_is_done_as_given(
    args: JsonView,
    working_dir: Seq<char>,
    env: EnvironmentView,
)
    ensures
        search_plan(args, working_dir, env) is Search ==> args.text_at("pattern"@) is Some
            && args.text_at("pattern"@)->0.len() > 0,
        args.text_at("pattern"@) is Some && args.text_at("pattern"@)->0.len() > 0 && (args.text_at(
            "path"@,
        ) is None || resolved(args.text_at("path"@)->0, working_dir, env.home) is Ok)
            ==> search_plan(args, working_dir, env) is Search,
        search_plan(args, working_dir, env) matches SearchPlanView::Search(s) ==> {
            &&& args.text_at("pattern"@) == Some(s.pattern)
            &&& args.text_at("path"@) is None ==> s.root == working_dir
            &&& args.text_at("path"@) matches Some(p) ==> resolved(p, working_dir, env.home) == Ok::<
                Seq<char>,
                Seq<char>,
            >(s.root)
            &&& s.file_glob == args.text_at("file_glob"@)
            &&& args.number_at("limit"@) is None ==> s.limit == 50
            &&& args.number_at("limit"@) matches Some(n) ==> (n > 0 ==> s.limit == n) && s.limit
                >= 1
            &&& args.number_at("offset"@) is None ==> s.offset == 0
            &&& args.number_at("offset"@) matches Some(n) ==> s.offset == n
            &&& args.number_at("context"@) is None ==> s.context == 0
            &&& args.number_at("context"@) matches Some(n) ==> s.context == n
            &&& args.text_at("output_mode"@) is None ==> s.output_mode == "content"@
            &&& args.text_at("output_mode"@) matches Some(m) ==> s.output_mode == m
            &&& s.target is Files <==> args.text_at("target"@) == Some("files"@)
            &&& s.target is Content <==> (args.text_at("target"@) is None || args.text_at(
                "target"@,
            ) == Some("content"@))
            &&& search_refusal(s, false) is Some
            &&& search_refusal(s, true) is None <==> !(s.target is Other)
        },
{
    reveal_strlit("files");
    reveal_strlit("content");
    assert("files"@.len() != "content"@.len());
}

/// A walk keeps a file just if its name matches the pattern for files.
pub proof fn law_walk_keeps_matching_files(path: Seq<char>, name: Seq<char>, glob: Seq<char>)
    requires
        file_name(path) == Some(name),
    ensures
        is_kept(path, Some(glob)) <==> glob_matches(glob, name),
        is_kept(path, None),
{
}

/// A file that its extension marks as binary, or that could not be read as
/// text, gives no match; any other gives one for every line that holds the
/// pattern.
pub proof fn law_binary_files_are_not_searched(file: WalkedView, pattern: Seq<char>, k: int)
    requires
        pattern.len() > 0,
        file.text matches Some(t) ==> lines(t).len() <= u64::MAX && forall|i: int|
            0 <= i < lines(t).len() ==> byte_count(#[trigger] lines(t)[i]) < u64::MAX,
    ensures
        file.text is None ==> file_matches(file, pattern).len() == 0,
        extension(file.path) matches Some(ext) ==> names_binary(lower(ext)) ==> file_matches(
            file,
            pattern,
        ).len() == 0,
        file.text matches Some(t) ==> (extension(file.path) matches Some(ext) ==> !names_binary(
            lower(ext),
        )) && 0 <= k < lines(t).len() && crate::text::contains(lines(t)[k], pattern) ==> exists|
            i: int,
        |
            0 <= i < file_matches(file, pattern).len() && (#[trigger] file_matches(
                file,
                pattern,
            )[i]).line == k + 1 && file_matches(file, pattern)[i].path == file.path,
{
    if let Some(t) = file.text {
        let all = lines(t);
        let n = all.len() as int;
        law_every_line_with_the_pattern_is_found(file.path, all, pattern, n);
        let plain = match extension(file.path) {
            Some(ext) => !names_binary(lower(ext)),
            None => true,
        };
        if plain && 0 <= k < n && crate::text::contains(all[k], pattern) {
            let found = text_matches(file.path, all, pattern, n);
            assert(file_matches(file, pattern) == found);
            let i = choose|i: int| 0 <= i < found.len() && (#[trigger] found[i]).line == k + 1;
            assert(file_matches(file, pattern)[i].path == file.path);
        }
    }
}

/// Columns are counted from one, and a match of which no place is reported
/// stands at the first.
pub proof fn law_columns_start_at_one(event: JsonView)
    ensures
        event_column(event) >= 1,
        event.get("data"@) matches Some(data) ==> (data.get("submatches"@) == Some(
            JsonView::Array(Seq::empty()),
        ) ==> event_column(event) == 1),
{
    lemma_event_words();
}

/// A search that is refused names the directory that is none, or the target
/// that is unknown.
pub proof fn law_refused_search_says_why(req: SearchView, t: Seq<char>)
    ensures
        ({
            let said = |r: JsonView, t: Seq<char>|
                r.text_at("error"@) is Some && crate::context::summary::holds(
                    r.text_at("error"@)->0,
                    t,
                );
            &&& search_refusal(req, false) matches Some(r) && said(r, req.root)
            &&& req.target == TargetView::Other(t) ==> (search_refusal(req, true) matches Some(r)
                && said(r, t))
        }),
{
    crate::context::summary::lemma_holds(
        "search path is not a directory: "@,
        req.root,
        Seq::empty(),
    );
    crate::context::summary::lemma_holds(
        "Unknown target '"@,
        t,
        "'. Expected 'content' or 'files'."@,
    );
}

} // verus!
