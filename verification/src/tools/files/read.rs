//! `ReadFileTool`: text files with line numbers, page by page.

use vstd::prelude::*;
use vstd::string::*;

use crate::json::{text_array, Json, JsonView, NumberView};
use crate::path::{extension, extension_text, file_name, parent};
use crate::text::{
    chars_of, decimal, decimal_text, decimal_wide, lower, split_inclusive, split_inclusive_text,
    strip_prefix, strip_prefix_text, views,
};
use crate::tool::{
    error_json, error_reply, error_reply2, opt_view, Environment, EnvironmentView, ToolError,
    ToolErrorView,
};
use crate::tools::bash::{truncate_output, truncated};
use crate::tools::files::policy::{
    blocked_message, blocked_path_message, is_binary_extension, names_binary, similar_files,
    suggest_similar_files,
};
use crate::tools::support::content::{decode_lossy, is_binary, looks_binary, lossy_text};
use crate::tools::support::path::{resolve_user_path, resolved};
use crate::tools::support::schema::{
    number, object_schema, object_schema_json, typed, typed_param, words1,
};

verus! {

pub const READ_FILE_DESCRIPTION: &'static str = "Read a text file with line numbers and pagination. Use this instead of cat/head/tail in terminal. Output format: 'LINE_NUM|CONTENT'. Suggests similar filenames if not found. Use offset and limit for large files. Reads exceeding ~100K characters are rejected; use offset and limit to read specific sections of large files. NOTE: Cannot read images or binary files — use vision_analyze for images.";

/// How much content is handed to the model, in characters.
pub const MAX_READ_CHARS: usize = 100_000;

pub struct ReadFileTool;

/// A page of a file that is to be read: `limit` lines from line `offset`
/// on, counted from 1.
pub struct ReadRequest {
    pub path: String,
    pub resolved: String,
    pub offset: u64,
    pub limit: u64,
}

pub ghost struct ReadView {
    pub path: Seq<char>,
    pub resolved: Seq<char>,
    pub offset: u64,
    pub limit: u64,
}

impl View for ReadRequest {
    type V = ReadView;

    open spec fn view(&self) -> ReadView {
        ReadView {
            path: self.path@,
            resolved: self.resolved@,
            offset: self.offset,
            limit: self.limit,
        }
    }
}

impl ReadView {
    /// The page starts at a line and has a length that is allowed.
    pub open spec fn valid(self) -> bool {
        1 <= self.offset && 1 <= self.limit <= 2000
    }
}

/// The first line to show: 1 unless a later one is given.
pub open spec fn offset_of(args: JsonView) -> u64 {
    match args.number_at("offset"@) {
        Some(n) => if n < 1 {
            1
        } else {
            n
        },
        None => 1,
    }
}

/// How many lines to show: 500 unless given, from 1 to 2000.
pub open spec fn limit_of(args: JsonView) -> u64 {
    match args.number_at("limit"@) {
        Some(n) => if n < 1 {
            1
        } else if n > 2000 {
            2000
        } else {
            n
        },
        None => 500,
    }
}

/// What a call asks for: a page, a reply at once, or an error.
pub enum ReadPlan {
    Reply(Json),
    Read(ReadRequest),
}

pub ghost enum ReadPlanView {
    Reply(JsonView),
    Read(ReadView),
}

impl View for ReadPlan {
    type V = ReadPlanView;

    open spec fn view(&self) -> ReadPlanView {
        match self {
            ReadPlan::Reply(j) => ReadPlanView::Reply(j@),
            ReadPlan::Read(r) => ReadPlanView::Read(r@),
        }
    }
}

pub open spec fn read_plan(args: JsonView, working_dir: Seq<char>, env: EnvironmentView) -> Result<
    ReadPlanView,
    ToolErrorView,
> {
    match args.text_at("path"@) {
        None => Err(ToolErrorView::InvalidArgs("missing 'path'"@)),
        Some(path) => Ok(
            match resolved(path, working_dir, env.home) {
                Err(m) => ReadPlanView::Reply(error_json(m)),
                Ok(target) => ReadPlanView::Read(
                    ReadView {
                        path,
                        resolved: target,
                        offset: offset_of(args),
                        limit: limit_of(args),
                    },
                ),
            },
        ),
    }
}

/// The reply if the file is not to be opened at all.
pub open spec fn read_refusal(req: ReadView, canonical: Option<Seq<char>>) -> Option<JsonView> {
    match blocked_message(req.resolved, canonical) {
        Some(m) => Some(error_json(m)),
        None => match extension(req.resolved) {
            Some(ext) => if names_binary(lower(ext)) {
                Some(
                    error_json(
                        "Cannot read binary file '"@ + req.path + "' (."@ + ext
                            + "). Use terminal to inspect binary files."@,
                    ),
                )
            } else {
                None
            },
            None => None,
        },
    }
}

/// What came of opening a file.
pub enum FileProbe {
    /// There is no such file; its directory holds these names.
    Missing(Vec<String>),
    StatFailed(String),
    NotAFile,
    ReadFailed(String),
    Bytes { size: i64, bytes: Vec<u8> },
}

/// `text` at the right end of `width` characters.
pub open spec fn right_aligned(text: Seq<char>, width: nat) -> Seq<char>
    decreases width,
{
    if text.len() >= width {
        text
    } else {
        seq![' '] + right_aligned(text, (width - 1) as nat)
    }
}

/// The first `n` lines, each behind its number, counted from `first`.
pub open spec fn numbered(all: Seq<Seq<char>>, first: int, width: nat, n: int) -> Seq<char>
    decreases n,
{
    if n <= 0 {
        Seq::empty()
    } else {
        numbered(all, first, width, n - 1) + right_aligned(
            decimal((first + n - 1) as nat),
            width,
        ) + "|"@ + all[n - 1]
    }
}

/// The text of a page: a byte order mark at the start of the file is no
/// part of its first line.
pub open spec fn page_text(text: Seq<char>, offset: u64) -> Seq<char> {
    if offset == 1 {
        match strip_prefix(text, "\u{feff}"@) {
            Some(rest) => rest,
            None => text,
        }
    } else {
        text
    }
}

/// The line after the last one of a page.
pub open spec fn page_end(req: ReadView, total: nat) -> int {
    if req.offset - 1 + req.limit < total {
        req.offset - 1 + req.limit
    } else {
        total as int
    }
}

/// The reply that shows a page of `text`.
pub open spec fn page_reply(req: ReadView, text: Seq<char>, file_size: i64) -> JsonView {
    let all = split_inclusive(page_text(text, req.offset));
    let total = all.len();
    let start = req.offset - 1;
    if start >= total && req.offset > 1 {
        error_json(
            "offset "@ + decimal(req.offset as nat) + " is past end of file ("@ + decimal(total)
                + " lines)"@,
        )
    } else {
        let end = page_end(req, total);
        let content = numbered(
            all.subrange(start, end),
            req.offset as int,
            decimal((req.offset + req.limit) as nat).len(),
            end - start,
        );
        let counts = JsonView::object().with(
            "total_lines"@,
            JsonView::Number(NumberView::Unsigned(total as u64)),
        ).with("file_size"@, signed_number(file_size));
        if content.len() > MAX_READ_CHARS {
            counts.with(
                "content"@,
                JsonView::Text(truncated(content, MAX_READ_CHARS as nat)),
            ).with("truncated"@, JsonView::Bool(true)).with(
                "_hint"@,
                JsonView::Text(
                    "Read truncated at ~100000 chars; use offset+limit to read specific sections"@,
                ),
            )
        } else {
            counts.with("content"@, JsonView::Text(content)).with(
                "truncated"@,
                JsonView::Bool(total > end),
            ).with(
                "_hint"@,
                if total > end {
                    JsonView::Text(
                        "Use offset="@ + decimal((end + 1) as nat)
                            + " to continue reading (showing "@ + decimal(req.offset as nat)
                            + "-"@ + decimal(end as nat) + " of "@ + decimal(total) + " lines)"@,
                    )
                } else {
                    JsonView::Null
                },
            )
        }
    }
}

/// A number that may be negative.
pub open spec fn signed_number(n: i64) -> JsonView {
    JsonView::Number(
        if n < 0 {
            NumberView::Negative(n)
        } else {
            NumberView::Unsigned(n as u64)
        },
    )
}

/// The reply after opening the file.
pub open spec fn read_reply(req: ReadView, probe: FileProbe) -> JsonView {
    match probe {
        FileProbe::Missing(names) => error_json("File not found: "@ + req.path).with(
            "similar_files"@,
            text_array(
                match (parent(req.resolved), file_name(req.resolved)) {
                    (Some(dir), Some(target)) => similar_files(target, views(names@), dir),
                    _ => Seq::empty(),
                },
            ),
        ),
        FileProbe::StatFailed(e) => error_json("stat failed: "@ + e@),
        FileProbe::NotAFile => error_json(req.path + " is not a regular file"@),
        FileProbe::ReadFailed(e) => error_json("read failed: "@ + e@),
        FileProbe::Bytes { size, bytes } => if is_binary(bytes@) {
            error_json(
                "Binary file — cannot display as text. Use appropriate tools to handle this file type."@,
            )
        } else {
            page_reply(req, lossy_text(bytes@), size)
        },
    }
}

/// The schema of the tool's parameters.
pub open spec fn read_file_schema() -> JsonView {
    object_schema(
        JsonView::object().with(
            "path"@,
            typed("string"@, "Path to the file to read (absolute, relative, or ~/path)"@),
        ).with(
            "offset"@,
            typed(
                "integer"@,
                "Line number to start reading from (1-indexed, default: 1)"@,
            ).with("default"@, number(1)).with("minimum"@, number(1)),
        ).with(
            "limit"@,
            typed(
                "integer"@,
                "Maximum number of lines to read (default: 500, max: 2000)"@,
            ).with("default"@, number(500)).with("maximum"@, number(2000)),
        ),
        seq!["path"@],
    )
}

fn align_right(text: &str, width: usize) -> (r: String)
    ensures
        r@ == right_aligned(text@, width as nat),
    decreases width,
{
    if chars_of(text).len() >= width {
        text.to_owned()
    } else {
        let mut out = " ".to_owned();
        out.append(align_right(text, width - 1).as_str());
        proof {
            reveal_strlit(" ");
            assert(" "@ =~= seq![' ']);
        }
        out
    }
}

/// The lines `start..end`, each behind its number, counted from `first`.
pub fn number_lines(all: &Vec<String>, start: usize, end: usize, first: u64, width: usize) -> (r:
    String)
    requires
        start <= end <= all@.len(),
    ensures
        r@ == numbered(
            views(all@).subrange(start as int, end as int),
            first as int,
            width as nat,
            end - start,
        ),
{
    let ghost page = views(all@).subrange(start as int, end as int);
    let mut out = String::new();
    let mut i: usize = start;
    while i < end
        invariant
            start <= i <= end <= all@.len(),
            page == views(all@).subrange(start as int, end as int),
            out@ == numbered(page, first as int, width as nat, i - start),
        decreases end - i,
    {
        let label = decimal_wide(first as u128 + (i - start) as u128);
        let aligned = align_right(label.as_str(), width);
        out.append(aligned.as_str());
        out.append("|");
        assert(page[i - start] == all@[i as int]@);
        out.append(all[i].as_str());
        i += 1;
    }
    out
}

/// A number line of a page is its number, `|` and the line itself: the
/// page holds every one of its lines unchanged.
pub proof fn law_page_holds_its_lines(all: Seq<Seq<char>>, first: int, width: nat, n: int, k: int)
    requires
        0 <= k < n <= all.len(),
        0 <= first,
    ensures
        exists|at: int|
            0 <= at && at + all[k].len() + 1 <= numbered(all, first, width, n).len()
                && #[trigger] numbered(all, first, width, n).subrange(at, at + 1 + all[k].len())
                == "|"@ + all[k],
    decreases n,
{
    reveal_strlit("|");
    let whole = numbered(all, first, width, n);
    let head = numbered(all, first, width, n - 1);
    let label = right_aligned(decimal((first + n - 1) as nat), width);
    if k == n - 1 {
        let at = (head + label).len() as int;
        assert(whole.subrange(at, at + 1 + all[k].len()) =~= "|"@ + all[k]);
    } else {
        law_page_holds_its_lines(all, first, width, n - 1, k);
        let at = choose|at: int|
            0 <= at && at + all[k].len() + 1 <= head.len() && #[trigger] head.subrange(
                at,
                at + 1 + all[k].len(),
            ) == "|"@ + all[k];
        assert(whole.subrange(at, at + 1 + all[k].len()) =~= head.subrange(
            at,
            at + 1 + all[k].len(),
        ));
    }
}

/// Reading on where a page says to go on misses no line and repeats none.
pub proof fn law_next_page_follows(req: ReadView, next: ReadView, all: Seq<Seq<char>>)
    requires
        req.valid(),
        next.valid(),
        req.offset - 1 < all.len(),
        all.len() > page_end(req, all.len()),
        next.offset == page_end(req, all.len()) + 1,
    ensures
        all.subrange(req.offset - 1, page_end(req, all.len())) + all.subrange(
            next.offset - 1,
            page_end(next, all.len()),
        ) == all.subrange(req.offset - 1, page_end(next, all.len())),
        page_end(req, all.len()) < page_end(next, all.len()),
{
    assert(all.subrange(req.offset - 1, page_end(req, all.len())) + all.subrange(
        next.offset - 1,
        page_end(next, all.len()),
    ) =~= all.subrange(req.offset - 1, page_end(next, all.len())));
}

impl ReadFileTool {
    pub fn new() -> (r: Self)
        ensures
            r == ReadFileTool,
    {
        ReadFileTool
    }

    pub fn name(&self) -> (r: &'static str)
        ensures
            r@ == "read_file"@,
    {
        "read_file"
    }

    pub fn description(&self) -> (r: &'static str)
        ensures
            r@ == READ_FILE_DESCRIPTION@,
    {
        READ_FILE_DESCRIPTION
    }

    pub fn toolset(&self) -> (r: &'static str)
        ensures
            r@ == "file"@,
    {
        "file"
    }

    pub fn parameters_schema(&self) -> (r: Json)
        ensures
            r@ == read_file_schema(),
    {
        let properties = Json::object().with(
            "path",
            typed_param("string", "Path to the file to read (absolute, relative, or ~/path)"),
        ).with(
            "offset",
            typed_param(
                "integer",
                "Line number to start reading from (1-indexed, default: 1)",
            ).with("default", Json::unsigned(1)).with("minimum", Json::unsigned(1)),
        ).with(
            "limit",
            typed_param(
                "integer",
                "Maximum number of lines to read (default: 500, max: 2000)",
            ).with("default", Json::unsigned(500)).with("maximum", Json::unsigned(2000)),
        );
        object_schema_json(properties, &words1("path"))
    }

    /// What a call asks for.
    pub fn plan(&self, args: &Json, working_dir: &str, env: &Environment) -> (r: Result<
        ReadPlan,
        ToolError,
    >)
        ensures
            match r {
                Ok(p) => read_plan(args@, working_dir@, env@) == Ok::<ReadPlanView, ToolErrorView>(
                    p@,
                ) && (p matches ReadPlan::Read(req) ==> req@.valid()),
                Err(e) => read_plan(args@, working_dir@, env@) == Err::<
                    ReadPlanView,
                    ToolErrorView,
                >(e@),
            },
    {
        let path = match args.text_at("path") {
            Some(p) => p,
            None => {
                return Err(ToolError::invalid("missing 'path'"));
            },
        };
        let offset: u64 = match args.number_at("offset") {
            Some(n) => if n < 1 {
                1
            } else {
                n
            },
            None => 1,
        };
        let limit: u64 = match args.number_at("limit") {
            Some(n) => if n < 1 {
                1
            } else if n > 2000 {
                2000
            } else {
                n
            },
            None => 500,
        };
        match resolve_user_path(path, working_dir, env) {
            Err(m) => Ok(ReadPlan::Reply(error_reply(m.as_str()))),
            Ok(target) => Ok(
                ReadPlan::Read(
                    ReadRequest { path: path.to_owned(), resolved: target, offset, limit },
                ),
            ),
        }
    }
}

impl ReadRequest {
    /// The reply if the file is not to be opened at all. `canonical` is its
    /// path with links followed, if it exists.
    pub fn refuse(&self, canonical: &Option<String>) -> (r: Option<Json>)
        ensures
            match r {
                Some(j) => read_refusal(self@, opt_view(*canonical)) == Some(j@),
                None => read_refusal(self@, opt_view(*canonical)) is None,
            },
    {
        if let Some(m) = blocked_path_message(self.resolved.as_str(), canonical) {
            return Some(error_reply(m.as_str()));
        }
        match extension_text(self.resolved.as_str()) {
            Some(ext) => if is_binary_extension(ext.as_str()) {
                let mut out = "Cannot read binary file '".to_owned();
                out.append(self.path.as_str());
                out.append("' (.");
                out.append(ext.as_str());
                out.append("). Use terminal to inspect binary files.");
                Some(error_reply(out.as_str()))
            } else {
                None
            },
            None => None,
        }
    }

    /// The reply that shows the page of a text.
    pub fn show(&self, text: &str, file_size: i64) -> (r: Json)
        requires
            self@.valid(),
        ensures
            r@ == page_reply(self@, text@, file_size),
    {
        let body = if self.offset == 1 {
            match strip_prefix_text(text, "\u{feff}") {
                Some(rest) => rest,
                None => text.to_owned(),
            }
        } else {
            text.to_owned()
        };
        let all = split_inclusive_text(body.as_str());
        let total: usize = all.len();
        let ghost lines_of = split_inclusive(page_text(text@, self.offset));
        assert(views(all@) == lines_of);
        assert(lines_of.len() == total);
        if self.offset - 1 >= total as u64 && self.offset > 1 {
            let mut out = "offset ".to_owned();
            out.append(decimal_text(self.offset).as_str());
            out.append(" is past end of file (");
            out.append(decimal_text(total as u64).as_str());
            out.append(" lines)");
            return error_reply(out.as_str());
        }
        let start: usize = (self.offset - 1) as usize;
        let end: usize = if self.limit < (total - start) as u64 {
            start + self.limit as usize
        } else {
            total
        };
        let width_text = decimal_wide(self.offset as u128 + self.limit as u128);
        let width: usize = chars_of(width_text.as_str()).len();
        let content = number_lines(&all, start, end, self.offset, width);
        let counts = Json::object().with("total_lines", Json::unsigned(total as u64)).with(
            "file_size",
            Json::integer(file_size),
        );
        if chars_of(content.as_str()).len() > MAX_READ_CHARS {
            return counts.with(
                "content",
                Json::text(truncate_output(content.as_str(), MAX_READ_CHARS).as_str()),
            ).with("truncated", Json::boolean(true)).with(
                "_hint",
                Json::text(
                    "Read truncated at ~100000 chars; use offset+limit to read specific sections",
                ),
            );
        }
        let hint = if total > end {
            let mut out = "Use offset=".to_owned();
            out.append(decimal_wide(end as u128 + 1).as_str());
            out.append(" to continue reading (showing ");
            out.append(decimal_text(self.offset).as_str());
            out.append("-");
            out.append(decimal_text(end as u64).as_str());
            out.append(" of ");
            out.append(decimal_text(total as u64).as_str());
            out.append(" lines)");
            Json::text(out.as_str())
        } else {
            Json::Null
        };
        counts.with("content", Json::text(content.as_str())).with(
            "truncated",
            Json::boolean(total > end),
        ).with("_hint", hint)
    }

    /// The reply after opening the file.
    pub fn reply(&self, probe: &FileProbe) -> (r: Json)
        requires
            self@.valid(),
        ensures
            r@ == read_reply(self@, *probe),
    {
        match probe {
            FileProbe::Missing(names) => {
                let similar = suggest_similar_files(self.resolved.as_str(), names);
                error_reply2("File not found: ", self.path.as_str()).with(
                    "similar_files",
                    Json::texts(&similar),
                )
            },
            FileProbe::StatFailed(e) => error_reply2("stat failed: ", e.as_str()),
            FileProbe::NotAFile => error_reply2(self.path.as_str(), " is not a regular file"),
            FileProbe::ReadFailed(e) => error_reply2("read failed: ", e.as_str()),
            FileProbe::Bytes { size, bytes } => {
                if looks_binary(bytes.as_slice()) {
                    return error_reply(
                        "Binary file — cannot display as text. Use appropriate tools to handle this file type.",
                    );
                }
                let text = decode_lossy(bytes.as_slice());
                self.show(text.as_str(), *size)
            },
        }
    }
}

/// A file is read from the line that is asked for, counted from one, or
/// from its start, and five hundred lines are shown unless a number up to
/// two thousand is given. A call without a path is an error.
pub proof fn law_file_is_read_as_given(
    args: JsonView,
    working_dir: Seq<char>,
    env: EnvironmentView,
)
    ensures
        read_plan(args, working_dir, env) is Err <==> args.text_at("path"@) is None,
        read_plan(args, working_dir, env) matches Ok(ReadPlanView::Read(r)) ==> {
            &&& args.text_at("path"@) == Some(r.path)
            &&& resolved(r.path, working_dir, env.home) == Ok::<Seq<char>, Seq<char>>(r.resolved)
            &&& 1 <= r.offset
            &&& 1 <= r.limit <= 2000
            &&& args.number_at("offset"@) is None ==> r.offset == 1
            &&& args.number_at("offset"@) matches Some(n) ==> (n >= 1 ==> r.offset == n)
            &&& args.number_at("limit"@) is None ==> r.limit == 500
            &&& args.number_at("limit"@) matches Some(n) ==> (1 <= n <= 2000 ==> r.limit == n) && (n
                > 2000 ==> r.limit == 2000)
        },
        args.text_at("path"@) matches Some(p) ==> (resolved(p, working_dir, env.home) is Ok
            ==> (read_plan(args, working_dir, env) matches Ok(ReadPlanView::Read(_)))),
{
}

/// A number is moved to the right by blanks, and stays as it is.
pub proof fn law_numbers_are_aligned(text: Seq<char>, width: nat)
    ensures
        right_aligned(text, width).len() == if text.len() >= width {
            text.len()
        } else {
            width
        },
        right_aligned(text, width).skip(right_aligned(text, width).len() - text.len()) == text,
        forall|i: int|
            0 <= i < right_aligned(text, width).len() - text.len() ==> #[trigger] right_aligned(
                text,
                width,
            )[i] == ' ',
    decreases width,
{
    let r = right_aligned(text, width);
    if text.len() < width {
        let less = right_aligned(text, (width - 1) as nat);
        law_numbers_are_aligned(text, (width - 1) as nat);
        assert(r.skip(r.len() - text.len()) =~= less.skip(less.len() - text.len()));
        assert forall|i: int| 0 <= i < r.len() - text.len() implies #[trigger] r[i] == ' ' by {
            if i > 0 {
                assert(r[i] == less[i - 1]);
            }
        }
    } else {
        assert(r.skip(0) =~= text);
    }
}

/// A page is its lines one after the other, each behind its own number and
/// a bar.
pub proof fn law_page_is_its_numbered_lines(all: Seq<Seq<char>>, first: int, width: nat, n: int)
    requires
        0 <= n <= all.len(),
        0 <= first,
    ensures
        numbered(all, first, width, n) == crate::text::flat(
            Seq::new(
                n as nat,
                |k: int| right_aligned(decimal((first + k) as nat), width) + seq!['|'] + all[k],
            ),
        ),
    decreases n,
{
    let shown = Seq::new(
        n as nat,
        |k: int| right_aligned(decimal((first + k) as nat), width) + seq!['|'] + all[k],
    );
    if n > 0 {
        law_page_is_its_numbered_lines(all, first, width, n - 1);
        let less = Seq::new(
            (n - 1) as nat,
            |k: int| right_aligned(decimal((first + k) as nat), width) + seq!['|'] + all[k],
        );
        assert(shown.drop_last() =~= less);
        reveal_strlit("|");
        assert("|"@ =~= seq!['|']);
        let label = right_aligned(decimal((first + n - 1) as nat), width);
        assert(numbered(all, first, width, n) =~= numbered(all, first, width, n - 1) + (label
            + seq!['|'] + all[n - 1]));
    }
}

proof fn lemma_page_words()
    ensures
        "total_lines"@ != "file_size"@,
        "total_lines"@ != "content"@,
        "total_lines"@ != "truncated"@,
        "total_lines"@ != "_hint"@,
        "file_size"@ != "content"@,
        "file_size"@ != "truncated"@,
        "file_size"@ != "_hint"@,
        "content"@ != "truncated"@,
        "content"@ != "_hint"@,
        "truncated"@ != "_hint"@,
        "error"@ != "similar_files"@,
        "error"@ != "total_lines"@,
        "error"@ != "file_size"@,
        "error"@ != "content"@,
        "error"@ != "truncated"@,
        "error"@ != "_hint"@,
{
    reveal_strlit("total_lines");
    reveal_strlit("file_size");
    reveal_strlit("content");
    reveal_strlit("truncated");
    reveal_strlit("_hint");
    reveal_strlit("error");
    reveal_strlit("similar_files");
    assert("total_lines"@.len() == 11 && "file_size"@.len() == 9 && "content"@.len() == 7
        && "truncated"@.len() == 9 && "_hint"@.len() == 5 && "error"@.len() == 5
        && "similar_files"@.len() == 13);
    assert("file_size"@[0] == 'f' && "truncated"@[0] == 't' && "_hint"@[0] == '_' && "error"@[0]
        == 'e');
}

/// A page that is not too long shows all lines from its offset on, as many
/// as its limit allows, and says how many there are, how large the file is
/// and, if lines follow, where to go on.
pub proof fn law_page_shows_its_lines(req: ReadView, text: Seq<char>, file_size: i64)
    requires
        req.valid(),
        split_inclusive(page_text(text, req.offset)).len() <= u64::MAX,
    ensures
        ({
            let all = split_inclusive(page_text(text, req.offset));
            let start = req.offset - 1;
            let end = if start + req.limit < all.len() {
                start + req.limit
            } else {
                all.len() as int
            };
            let shown = numbered(
                all.subrange(start, end),
                req.offset as int,
                decimal((req.offset + req.limit) as nat).len(),
                end - start,
            );
            let reply = page_reply(req, text, file_size);
            &&& start >= all.len() && req.offset > 1 ==> reply.get("error"@) is Some && reply.get(
                "content"@,
            ) is None
            &&& start < all.len() || req.offset == 1 ==> {
                &&& reply.get("error"@) is None
                &&& reply.number_at("total_lines"@) == Some(all.len() as u64)
                &&& reply.get("file_size"@) == Some(signed_number(file_size))
                &&& shown.len() <= 100_000 ==> reply.text_at("content"@) == Some(shown)
                    && reply.flag_at("truncated"@) == (end < all.len())
                &&& shown.len() <= 100_000 && end < all.len() ==> reply.text_at("_hint"@) == Some(
                    "Use offset="@ + decimal((end + 1) as nat) + " to continue reading (showing "@
                        + decimal(req.offset as nat) + "-"@ + decimal(end as nat) + " of "@
                        + decimal(all.len()) + " lines)"@,
                )
                &&& shown.len() <= 100_000 && end == all.len() ==> reply.get("_hint"@) == Some(
                    JsonView::Null,
                )
                &&& shown.len() > 100_000 ==> reply.text_at("content"@) == Some(
                    truncated(shown, 100_000),
                ) && reply.flag_at("truncated"@)
            }
        }),
        file_size >= 0 ==> signed_number(file_size) == JsonView::Number(
            NumberView::Unsigned(file_size as u64),
        ),
        file_size < 0 ==> signed_number(file_size) == JsonView::Number(
            NumberView::Negative(file_size),
        ),
{
    lemma_page_words();
}

/// A byte order mark at the start of a file is not shown, and nothing else
/// is left out.
pub proof fn law_byte_order_mark_is_not_shown(text: Seq<char>, offset: u64)
    ensures
        page_text(seq!['\u{feff}'] + text, 1) == text,
        text.len() > 0 && text[0] != '\u{feff}' ==> page_text(text, 1) == text,
        offset != 1 ==> page_text(text, offset) == text,
{
    reveal_strlit("\u{feff}");
    let bom = "\u{feff}"@;
    assert(bom =~= seq!['\u{feff}']);
    let whole = seq!['\u{feff}'] + text;
    assert(whole.take(1) =~= bom);
    assert(whole.skip(1) =~= text);
    if text.len() > 0 && crate::text::starts_with(text, bom) {
        assert(text.take(1)[0] == bom[0]);
    }
}

/// A file is not opened just if it is blocked or its name says that it is
/// no text; what was opened is shown, unless it is no text.
pub proof fn law_only_text_is_shown(
    req: ReadView,
    canonical: Option<Seq<char>>,
    size: i64,
    bytes: Vec<u8>,
    names: Vec<String>,
    dir: Seq<char>,
    name: Seq<char>,
)
    requires
        parent(req.resolved) == Some(dir),
        file_name(req.resolved) == Some(name),
    ensures
        read_refusal(req, canonical) is Some <==> blocked_message(req.resolved, canonical) is Some
            || (extension(req.resolved) is Some && names_binary(
            lower(extension(req.resolved)->0),
        )),
        read_refusal(req, canonical) matches Some(r) ==> r.get("error"@) is Some,
        !is_binary(bytes@) ==> read_reply(req, FileProbe::Bytes { size, bytes }) == page_reply(
            req,
            lossy_text(bytes@),
            size,
        ),
        is_binary(bytes@) ==> read_reply(req, FileProbe::Bytes { size, bytes }).get("error"@) is Some
            && read_reply(req, FileProbe::Bytes { size, bytes }).get("content"@) is None,
        read_reply(req, FileProbe::Missing(names)).text_at("error"@) == Some(
            "File not found: "@ + req.path,
        ),
        read_reply(req, FileProbe::Missing(names)).get("similar_files"@) == Some(
            text_array(similar_files(name, views(names@), dir)),
        ),
        read_reply(req, FileProbe::NotAFile).get("error"@) is Some,
{
    lemma_page_words();
}

/// A file that is not read is named, with its extension if that is the
/// reason, and a failure to read it is told in the words of the system.
pub proof fn law_unread_file_is_named(
    req: ReadView,
    canonical: Option<Seq<char>>,
    ext: Seq<char>,
    names: Vec<String>,
    e: String,
)
    ensures
        ({
            let said = |r: JsonView, t: Seq<char>|
                r.text_at("error"@) is Some && crate::context::summary::holds(
                    r.text_at("error"@)->0,
                    t,
                );
            &&& blocked_message(req.resolved, canonical) is None && extension(req.resolved) == Some(
                ext,
            ) ==> (read_refusal(req, canonical) matches Some(r) ==> said(r, req.path) && said(
                r,
                ext,
            ))
            &&& said(read_reply(req, FileProbe::Missing(names)), req.path)
            &&& said(read_reply(req, FileProbe::NotAFile), req.path)
            &&& said(read_reply(req, FileProbe::StatFailed(e)), e@)
            &&& said(read_reply(req, FileProbe::ReadFailed(e)), e@)
        }),
{
    reveal_strlit("error");
    reveal_strlit("similar_files");
    assert("error"@.len() == 5 && "similar_files"@.len() == 13);
    let none = Seq::<char>::empty();
    let start = "Cannot read binary file '"@;
    let end = "). Use terminal to inspect binary files."@;
    crate::context::summary::lemma_holds(start, req.path, "' (."@ + ext + end);
    assert(start + req.path + ("' (."@ + ext + end) =~= start + req.path + "' (."@ + ext + end);
    crate::context::summary::lemma_holds(start + req.path + "' (."@, ext, end);
    crate::context::summary::lemma_holds("File not found: "@, req.path, none);
    crate::context::summary::lemma_holds(none, req.path, " is not a regular file"@);
    assert(none + req.path + " is not a regular file"@ =~= req.path + " is not a regular file"@);
    crate::context::summary::lemma_holds("stat failed: "@, e@, none);
    crate::context::summary::lemma_holds("read failed: "@, e@, none);
}

} // verus!
