//! `WriteFileTool`: replacing the whole content of a file.

use vstd::prelude::*;
use vstd::string::*;

use crate::json::{text_array, Json, JsonView};
use crate::text::{byte_count, byte_len};
use crate::tool::{
    error_json, error_reply, error_reply2, opt_view, Environment, EnvironmentView, ToolError,
    ToolErrorView,
};
use crate::tools::files::outcome::{Stored, StoredView};
use crate::tools::files::patch::{needed_dir, needed_dir_text};
use crate::tools::files::policy::{
    is_internal_file_status_text, is_status_text, refuse_write, temp_path, temp_sibling,
    write_refusal,
};
use crate::tools::support::path::{resolve_user_path, resolved};
use crate::tools::support::schema::{
    flag, flag_param, number, object_schema, object_schema_json, typed, typed_param, words1,
    words2,
};

verus! {

pub const WRITE_FILE_DESCRIPTION: &'static str = "Write content to a file, completely replacing existing content. Use this instead of echo/cat heredoc in terminal. Creates parent directories automatically. OVERWRITES the entire file — use 'patch' for targeted edits. Auto-runs syntax checks on .py/.json/.yaml/.toml and other linted languages; only NEW errors introduced by this write are surfaced (pre-existing errors are filtered out).";

pub struct WriteFileTool;

/// A file that is to be written. `dir` is to be created if it is no
/// directory.
pub struct WriteRequest {
    pub resolved: String,
    pub content: String,
    pub dir: Option<String>,
}

pub ghost struct WriteView {
    pub resolved: Seq<char>,
    pub content: Seq<char>,
    pub dir: Option<Seq<char>>,
}

impl View for WriteRequest {
    type V = WriteView;

    open spec fn view(&self) -> WriteView {
        WriteView {
            resolved: self.resolved@,
            content: self.content@,
            dir: opt_view(self.dir),
        }
    }
}

/// What a call asks for: a file to write, or a reply at once.
pub enum WritePlan {
    Reply(Json),
    Write(WriteRequest),
}

pub ghost enum WritePlanView {
    Reply(JsonView),
    Write(WriteView),
}

impl View for WritePlan {
    type V = WritePlanView;

    open spec fn view(&self) -> WritePlanView {
        match self {
            WritePlan::Reply(j) => WritePlanView::Reply(j@),
            WritePlan::Write(w) => WritePlanView::Write(w@),
        }
    }
}

pub open spec fn write_plan(args: JsonView, working_dir: Seq<char>, env: EnvironmentView) -> Result<
    WritePlanView,
    ToolErrorView,
> {
    match (args.text_at("path"@), args.text_at("content"@)) {
        (None, _) => Err(ToolErrorView::InvalidArgs("missing 'path'"@)),
        (_, None) => Err(ToolErrorView::InvalidArgs("missing 'content'"@)),
        (Some(path), Some(content)) => Ok(
            match resolved(path, working_dir, env.home) {
                Err(m) => WritePlanView::Reply(error_json(m)),
                Ok(target) => match write_refusal(
                    path,
                    target,
                    args.flag_at("cross_profile"@),
                    env,
                ) {
                    Some(m) => WritePlanView::Reply(error_json(m)),
                    None => if is_status_text(content) {
                        WritePlanView::Reply(
                            error_json(
                                "Refusing to write internal read_file status text as file content. Re-read the file or reconstruct the intended file contents before writing."@,
                            ),
                        )
                    } else {
                        WritePlanView::Write(
                            WriteView { resolved: target, content, dir: needed_dir(target) },
                        )
                    },
                },
            },
        ),
    }
}

/// No file is planned to be written at a path that is refused.
pub proof fn law_refused_paths_are_not_written(
    args: JsonView,
    working_dir: Seq<char>,
    env: EnvironmentView,
)
    requires
        write_plan(args, working_dir, env) is Ok,
    ensures
        write_plan(args, working_dir, env)->Ok_0 matches WritePlanView::Write(w) ==> {
            &&& write_refusal(
                args.text_at("path"@)->0,
                w.resolved,
                args.flag_at("cross_profile"@),
                env,
            ) is None
            &&& Ok::<Seq<char>, Seq<char>>(w.resolved) == resolved(
                args.text_at("path"@)->0,
                working_dir,
                env.home,
            )
            &&& args.text_at("content"@) == Some(w.content)
        },
{
}

/// The reply after storing.
pub open spec fn write_reply(req: WriteView, dirs_created: bool, stored: StoredView) -> JsonView {
    match stored.place(req.resolved) {
        Err(reply) => reply,
        Ok(place) => JsonView::object().with(
            "bytes_written"@,
            number(byte_count(req.content) as u64),
        ).with("dirs_created"@, JsonView::Bool(dirs_created)).with(
            "resolved_path"@,
            JsonView::Text(place),
        ).with("files_modified"@, text_array(seq![place])),
    }
}

/// The schema of the tool's parameters.
pub open spec fn write_file_schema() -> JsonView {
    object_schema(
        JsonView::object().with(
            "path"@,
            typed(
                "string"@,
                "Path to the file to write (will be created if it doesn't exist, overwritten if it does)"@,
            ),
        ).with("content"@, typed("string"@, "Complete content to write to the file"@)).with(
            "cross_profile"@,
            flag(
                "Opt out of the cross-profile soft guard. Defaults to false. Set true ONLY after explicit user direction to edit another Hermes profile's skills/plugins/cron/memories — by default these writes are blocked with a warning because they affect a different profile than the one this session is running under."@,
            ),
        ),
        seq!["path"@, "content"@],
    )
}

impl WriteFileTool {
    pub fn new() -> (r: Self)
        ensures
            r == WriteFileTool,
    {
        WriteFileTool
    }

    pub fn name(&self) -> (r: &'static str)
        ensures
            r@ == "write_file"@,
    {
        "write_file"
    }

    pub fn description(&self) -> (r: &'static str)
        ensures
            r@ == WRITE_FILE_DESCRIPTION@,
    {
        WRITE_FILE_DESCRIPTION
    }

    pub fn toolset(&self) -> (r: &'static str)
        ensures
            r@ == "file"@,
    {
        "file"
    }

    pub fn parameters_schema(&self) -> (r: Json)
        ensures
            r@ == write_file_schema(),
    {
        let properties = Json::object().with(
            "path",
            typed_param(
                "string",
                "Path to the file to write (will be created if it doesn't exist, overwritten if it does)",
            ),
        ).with("content", typed_param("string", "Complete content to write to the file")).with(
            "cross_profile",
            flag_param(
                "Opt out of the cross-profile soft guard. Defaults to false. Set true ONLY after explicit user direction to edit another Hermes profile's skills/plugins/cron/memories — by default these writes are blocked with a warning because they affect a different profile than the one this session is running under.",
            ),
        );
        object_schema_json(properties, &words2("path", "content"))
    }

    /// What a call asks for.
    pub fn plan(&self, args: &Json, working_dir: &str, env: &Environment) -> (r: Result<
        WritePlan,
        ToolError,
    >)
        ensures
            match r {
                Ok(p) => write_plan(args@, working_dir@, env@) == Ok::<
                    WritePlanView,
                    ToolErrorView,
                >(p@),
                Err(e) => write_plan(args@, working_dir@, env@) == Err::<
                    WritePlanView,
                    ToolErrorView,
                >(e@),
            },
    {
        let path = match args.text_at("path") {
            Some(p) => p,
            None => {
                return Err(ToolError::invalid("missing 'path'"));
            },
        };
        let content = match args.text_at("content") {
            Some(c) => c,
            None => {
                return Err(ToolError::invalid("missing 'content'"));
            },
        };
        let target = match resolve_user_path(path, working_dir, env) {
            Ok(p) => p,
            Err(m) => {
                return Ok(WritePlan::Reply(error_reply(m.as_str())));
            },
        };
        if let Some(m) = refuse_write(path, target.as_str(), args.flag_at("cross_profile"), env) {
            return Ok(WritePlan::Reply(error_reply(m.as_str())));
        }
        if is_internal_file_status_text(content) {
            return Ok(
                WritePlan::Reply(
                    error_reply(
                        "Refusing to write internal read_file status text as file content. Re-read the file or reconstruct the intended file contents before writing.",
                    ),
                ),
            );
        }
        let dir = needed_dir_text(target.as_str());
        Ok(WritePlan::Write(WriteRequest { resolved: target, content: content.to_owned(), dir }))
    }
}

impl WriteRequest {
    /// The file that the content goes to before it takes the target's place,
    /// or the reply if there is none.
    pub fn temp(&self, pid: u32) -> (r: Result<String, Json>)
        ensures
            match r {
                Ok(p) => temp_path(self.resolved@, pid) == Ok::<Seq<char>, Seq<char>>(p@),
                Err(j) => temp_path(self.resolved@, pid) is Err && j@ == error_json(
                    temp_path(self.resolved@, pid)->Err_0,
                ),
            },
    {
        match temp_sibling(self.resolved.as_str(), pid) {
            Ok(p) => Ok(p),
            Err(m) => Err(error_reply(m.as_str())),
        }
    }

    /// The reply if the directory could not be created.
    pub fn dir_failed(&self, error: &str) -> (r: Json)
        ensures
            r@ == error_json("Failed to create parent dir: "@ + error@),
    {
        error_reply2("Failed to create parent dir: ", error)
    }

    /// The reply after storing.
    pub fn reply(&self, dirs_created: bool, stored: &Stored) -> (r: Json)
        ensures
            r@ == write_reply(self@, dirs_created, stored@),
    {
        match stored.place(self.resolved.as_str()) {
            Err(reply) => reply,
            Ok(place) => Json::object().with(
                "bytes_written",
                Json::unsigned(byte_len(self.content.as_str()) as u64),
            ).with("dirs_created", Json::boolean(dirs_created)).with(
                "resolved_path",
                Json::text(place.as_str()),
            ).with("files_modified", Json::texts(&words1(place.as_str()))),
        }
    }
}

/// A file is written just as the call says: with all of its content, where
/// its path leads, if nothing speaks against it.
pub proof fn law_file_is_written_as_given(
    args: JsonView,
    working_dir: Seq<char>,
    env: EnvironmentView,
    path: Seq<char>,
    content: Seq<char>,
    target: Seq<char>,
)
    requires
        args.text_at("path"@) == Some(path),
        args.text_at("content"@) == Some(content),
        resolved(path, working_dir, env.home) == Ok::<Seq<char>, Seq<char>>(target),
    ensures
        write_refusal(path, target, args.flag_at("cross_profile"@), env) is None && !is_status_text(
            content,
        ) ==> (write_plan(args, working_dir, env) matches Ok(WritePlanView::Write(w)) && w.resolved
            == target && w.content == content && w.dir == needed_dir(target)),
        write_refusal(path, target, args.flag_at("cross_profile"@), env) is Some ==> (write_plan(
            args,
            working_dir,
            env,
        ) matches Ok(WritePlanView::Reply(_))),
        is_status_text(content) ==> (write_plan(args, working_dir, env) matches Ok(
            WritePlanView::Reply(_),
        )),
{
}

/// A call without a path or without content is an error.
pub proof fn law_write_needs_path_and_content(
    args: JsonView,
    working_dir: Seq<char>,
    env: EnvironmentView,
)
    ensures
        write_plan(args, working_dir, env) is Err <==> args.text_at("path"@) is None
            || args.text_at("content"@) is None,
{
}

/// The reply says where the content is, how many bytes it has and whether
/// directories were made; a failure is told and nothing is said to be
/// written.
pub proof fn law_write_is_told_as_it_was(
    req: WriteView,
    dirs_created: bool,
    place: Seq<char>,
    e: Seq<char>,
)
    requires
        byte_count(req.content) <= u64::MAX,
    ensures
        ({
            let done = write_reply(req, dirs_created, StoredView::Done(Some(place)));
            &&& done.number_at("bytes_written"@) == Some(byte_count(req.content) as u64)
            &&& done.flag_at("dirs_created"@) == dirs_created
            &&& done.text_at("resolved_path"@) == Some(place)
            &&& done.get("files_modified"@) == Some(text_array(seq![place]))
            &&& done.get("error"@) is None
        }),
        write_reply(req, dirs_created, StoredView::Done(None)).text_at("resolved_path"@) == Some(
            req.resolved,
        ),
        write_reply(req, dirs_created, StoredView::WriteFailed(e)).text_at("error"@) == Some(
            "Failed to write temp file: "@ + e,
        ),
        write_reply(req, dirs_created, StoredView::RenameFailed(e)).text_at("error"@) == Some(
            "Atomic rename failed: "@ + e,
        ),
        write_reply(req, dirs_created, StoredView::WriteFailed(e)).get("files_modified"@) is None,
        write_reply(req, dirs_created, StoredView::RenameFailed(e)).get("files_modified"@) is None,
{
    reveal_strlit("bytes_written");
    reveal_strlit("dirs_created");
    reveal_strlit("resolved_path");
    reveal_strlit("files_modified");
    reveal_strlit("error");
    assert("bytes_written"@.len() == 13 && "dirs_created"@.len() == 12 && "resolved_path"@.len()
        == 13 && "files_modified"@.len() == 14 && "error"@.len() == 5);
    assert("bytes_written"@[0] == 'b' && "resolved_path"@[0] == 'r');
}

} // verus!
