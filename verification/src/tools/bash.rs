//! `BashTool`: the `terminal` tool, which runs shell commands.

use vstd::prelude::*;
use vstd::string::*;

use crate::json::{Json, JsonView};
use crate::text::{
    chars_of, decimal, decimal_text, signed_decimal, signed_decimal_text, string_between,
};
use crate::tool::{ToolContext, ToolError, ToolErrorView, ToolOutput};
use crate::tools::support::content::{decode_lossy, lossy_text};
use crate::tools::support::schema::{
    flag, flag_param, number, object_schema, object_schema_json, typed, typed_param, words1,
};

verus! {

pub const TERMINAL_TOOL_DESCRIPTION: &'static str = "Execute shell commands on a Linux environment. Filesystem usually persists between calls.\n\nDo NOT use cat/head/tail to read files — use read_file instead.\nDo NOT use grep/rg/find to search — use search_files instead.\nDo NOT use ls to list directories — use search_files(target='files') instead.\nDo NOT use sed/awk to edit files — use patch instead.\nDo NOT use echo/cat heredoc to create files — use write_file instead.\nReserve terminal for: builds, installs, git, processes, scripts, network, package managers, and anything that needs a shell.\n\nForeground (default): Commands return INSTANTLY when done, even if the timeout is high. Set timeout=300 for long builds/scripts — you'll still get the result in seconds if it's fast. Prefer foreground for short commands.\nBackground: Set background=true to get a session_id. Almost always pair with notify_on_complete=true — bg without notify runs SILENTLY and you have no way to learn it finished short of calling process(action='poll') yourself. Two legitimate uses:\n(1) Long-lived processes that never exit (servers, watchers, daemons) — silent is correct, there's no exit to notify on.\n(2) Long-running bounded tasks (tests, builds, deploys, CI pollers, batch jobs) — MUST set notify_on_complete=true. Without it you'll either forget to poll or sit blocked waiting for the user to surface the result.\nFor servers/watchers, do NOT use shell-level background wrappers (nohup/disown/setsid/trailing '&') in foreground mode. Use background=true so Perry Hermes can track lifecycle and output.\nAfter starting a server, verify readiness with a health check or log signal, then run tests in a separate terminal() call. Avoid blind sleep loops.\nUse process(action=\"poll\") for progress checks, process(action=\"wait\") to block until done.\nWorking directory: Use 'workdir' for per-command cwd.\nPTY mode: Set pty=true for interactive CLI tools (Codex, Python REPL).\n\nDo NOT use vim/nano/interactive tools without pty=true — they hang without a pseudo-terminal. Pipe git output to cat if it might page.";

/// How long a command may run if the call does not say, in seconds.
pub const DEFAULT_TIMEOUT_SECS: u64 = 30;

/// How much output is handed to the model, in characters.
pub const MAX_OUTPUT_CHARS: usize = 50_000;

/// How many characters of a long text are kept from its start: two in five.
pub open spec fn head_chars(max: nat) -> nat {
    max * 2 / 5
}

/// A text of more than `max` characters loses its middle.
pub open spec fn truncated(s: Seq<char>, max: nat) -> Seq<char> {
    if s.len() <= max {
        s
    } else {
        let head = head_chars(max) as int;
        let tail = max - head;
        s.take(head) + "\n\n... [OUTPUT TRUNCATED - "@ + decimal((s.len() - max) as nat)
            + " chars omitted out of "@ + decimal(s.len()) + " total] ...\n\n"@ + s.skip(
            s.len() - tail,
        )
    }
}

pub fn truncate_output(s: &str, max_chars: usize) -> (r: String)
    ensures
        r@ == truncated(s@, max_chars as nat),
{
    let cs = chars_of(s);
    let n: usize = cs.len();
    if n <= max_chars {
        return s.to_owned();
    }
    let head: usize = ((max_chars as u128) * 2 / 5) as usize;
    let tail: usize = max_chars - head;
    let mut out = string_between(&cs, 0, head);
    assert(s@.take(head as int) =~= s@.subrange(0, head as int));
    out.append("\n\n... [OUTPUT TRUNCATED - ");
    out.append(decimal_text((n - max_chars) as u64).as_str());
    out.append(" chars omitted out of ");
    out.append(decimal_text(n as u64).as_str());
    out.append(" total] ...\n\n");
    out.append(string_between(&cs, n - tail, n).as_str());
    assert(s@.skip(n - tail) =~= s@.subrange(n - tail, n as int));
    out
}

/// Cutting a text down keeps its start and its end.
pub proof fn law_truncation_keeps_both_ends(s: Seq<char>, max: nat)
    requires
        s.len() > max,
    ensures
        truncated(s, max).len() >= max,
        head_chars(max) == max * 2 / 5,
        truncated(s, max).take(head_chars(max) as int) == s.take(head_chars(max) as int),
        truncated(s, max).skip(truncated(s, max).len() - (max - head_chars(max))) == s.skip(
            s.len() - (max - head_chars(max)),
        ),
{
    let head = s.take(head_chars(max) as int);
    let tail = s.skip(s.len() - (max - head_chars(max)));
    assert(truncated(s, max).take(head_chars(max) as int) =~= head);
    assert(truncated(s, max).skip(truncated(s, max).len() - tail.len()) =~= tail);
}

pub struct BashTool;

/// A command that is to be run.
pub struct CommandRequest {
    pub command: String,
    pub timeout_secs: u64,
    pub cwd: String,
}

pub ghost struct CommandView {
    pub command: Seq<char>,
    pub timeout_secs: u64,
    pub cwd: Seq<char>,
}

impl View for CommandRequest {
    type V = CommandView;

    open spec fn view(&self) -> CommandView {
        CommandView {
            command: self.command@,
            timeout_secs: self.timeout_secs,
            cwd: self.cwd@,
        }
    }
}

/// Whether a non-empty list stands under `key`.
pub open spec fn lists_something(args: JsonView, key: Seq<char>) -> bool {
    match args.get(key) {
        Some(JsonView::Array(items)) => items.len() > 0,
        _ => false,
    }
}

/// The command that a call asks for, or why it is refused.
pub open spec fn command_plan(args: JsonView, working_dir: Seq<char>, subprocess: bool) -> Result<
    CommandView,
    ToolErrorView,
> {
    if !subprocess {
        Err(ToolErrorView::Permission("subprocess execution not permitted"@))
    } else {
        match args.text_at("command"@) {
            None => Err(ToolErrorView::InvalidArgs("missing 'command'"@)),
            Some(command) => if args.flag_at("background"@) {
                Err(
                    ToolErrorView::InvalidArgs(
                        "background=true is not supported in this Rust runtime yet"@,
                    ),
                )
            } else if args.flag_at("pty"@) {
                Err(
                    ToolErrorView::InvalidArgs(
                        "pty=true is not supported in this Rust runtime yet"@,
                    ),
                )
            } else if args.flag_at("notify_on_complete"@) {
                Err(
                    ToolErrorView::InvalidArgs(
                        "notify_on_complete is not supported in this Rust runtime yet"@,
                    ),
                )
            } else if lists_something(args, "watch_patterns"@) {
                Err(
                    ToolErrorView::InvalidArgs(
                        "watch_patterns is not supported in this Rust runtime yet"@,
                    ),
                )
            } else {
                Ok(
                    CommandView {
                        command,
                        timeout_secs: match args.number_at("timeout"@) {
                            Some(n) => n,
                            None => DEFAULT_TIMEOUT_SECS,
                        },
                        cwd: match args.text_at("workdir"@) {
                            Some(dir) => dir,
                            None => working_dir,
                        },
                    },
                )
            },
        }
    }
}

/// How a command ended.
pub enum CommandEnd {
    /// It could not be started or waited for.
    Failed(String),
    Cancelled,
    TimedOut,
    /// It ran to its end; `code` is its exit code, if it has one.
    Done { stdout: Vec<u8>, stderr: Vec<u8>, success: bool, code: Option<i32> },
}

/// What the model reads of a command that ran to its end.
pub open spec fn command_text(out: Seq<char>, err: Seq<char>, success: bool, code: Option<i32>) -> Seq<
    char,
> {
    let all = if err.len() == 0 {
        out
    } else if out.len() == 0 {
        err
    } else {
        out + "\n--- stderr ---\n"@ + err
    };
    let shown = truncated(all, MAX_OUTPUT_CHARS as nat);
    if success {
        shown
    } else {
        shown + "\n[exit code "@ + signed_decimal(
            match code {
                Some(c) => c as int,
                None => -1,
            },
        ) + "]"@
    }
}

pub fn format_command_output(out: &str, err: &str, success: bool, code: Option<i32>) -> (r: String)
    ensures
        r@ == command_text(out@, err@, success, code),
{
    let all = if chars_of(err).len() == 0 {
        out.to_owned()
    } else if chars_of(out).len() == 0 {
        err.to_owned()
    } else {
        let mut both = out.to_owned();
        both.append("\n--- stderr ---\n");
        both.append(err);
        both
    };
    let mut shown = truncate_output(all.as_str(), MAX_OUTPUT_CHARS);
    if !success {
        let n: i64 = match code {
            Some(c) => c as i64,
            None => -1,
        };
        shown.append("\n[exit code ");
        shown.append(signed_decimal_text(n).as_str());
        shown.append("]");
    }
    shown
}

/// The schema of the tool's parameters.
pub open spec fn terminal_schema() -> JsonView {
    object_schema(
        JsonView::object().with(
            "command"@,
            typed("string"@, "The command to execute on the VM"@),
        ).with(
            "background"@,
            flag("Run the command in the background; returns a session_id"@),
        ).with(
            "timeout"@,
            typed("integer"@, "Maximum wall-clock seconds before the command is killed (default 30)"@).with("minimum"@, number(1)),
        ).with(
            "workdir"@,
            typed("string"@, "Working directory for this command (absolute path). Defaults to the session working directory."@),
        ).with(
            "pty"@,
            flag("Allocate a pseudo-terminal (for interactive CLIs)"@),
        ).with(
            "notify_on_complete"@,
            flag("When background=true, notify when the process exits"@),
        ).with(
            "watch_patterns"@,
            typed("array"@, "Glob patterns to watch for changes while the command runs"@).with("items"@, JsonView::object().with("type"@, JsonView::Text("string"@))),
        ),
        seq!["command"@],
    )
}

impl BashTool {
    pub fn new() -> (r: Self)
        ensures
            r == BashTool,
    {
        BashTool
    }

    pub fn name(&self) -> (r: &'static str)
        ensures
            r@ == "terminal"@,
    {
        "terminal"
    }

    pub fn description(&self) -> (r: &'static str)
        ensures
            r@ == TERMINAL_TOOL_DESCRIPTION@,
    {
        TERMINAL_TOOL_DESCRIPTION
    }

    pub fn toolset(&self) -> (r: &'static str)
        ensures
            r@ == "terminal"@,
    {
        "terminal"
    }

    pub fn parameters_schema(&self) -> (r: Json)
        ensures
            r@ == terminal_schema(),
    {
        let properties = Json::object().with(
            "command",
            typed_param("string", "The command to execute on the VM"),
        ).with(
            "background",
            flag_param("Run the command in the background; returns a session_id"),
        ).with(
            "timeout",
            typed_param("integer", "Maximum wall-clock seconds before the command is killed (default 30)").with("minimum", Json::unsigned(1)),
        ).with(
            "workdir",
            typed_param("string", "Working directory for this command (absolute path). Defaults to the session working directory."),
        ).with(
            "pty",
            flag_param("Allocate a pseudo-terminal (for interactive CLIs)"),
        ).with(
            "notify_on_complete",
            flag_param("When background=true, notify when the process exits"),
        ).with(
            "watch_patterns",
            typed_param("array", "Glob patterns to watch for changes while the command runs").with("items", Json::object().with("type", Json::text("string"))),
        );
        object_schema_json(properties, &words1("command"))
    }

    /// The command that a call asks for.
    pub fn plan(&self, args: &Json, ctx: &ToolContext) -> (r: Result<CommandRequest, ToolError>)
        ensures
            match r {
                Ok(c) => command_plan(args@, ctx.working_dir@, ctx.permissions.subprocess) == Ok::<
                    CommandView,
                    ToolErrorView,
                >(c@),
                Err(e) => command_plan(args@, ctx.working_dir@, ctx.permissions.subprocess)
                    == Err::<CommandView, ToolErrorView>(e@),
            },
    {
        if !ctx.permissions.subprocess {
            return Err(ToolError::Permission("subprocess execution not permitted".to_owned()));
        }
        let command = match args.text_at("command") {
            Some(c) => c,
            None => {
                return Err(ToolError::invalid("missing 'command'"));
            },
        };
        if args.flag_at("background") {
            return Err(
                ToolError::invalid("background=true is not supported in this Rust runtime yet"),
            );
        }
        if args.flag_at("pty") {
            return Err(ToolError::invalid("pty=true is not supported in this Rust runtime yet"));
        }
        if args.flag_at("notify_on_complete") {
            return Err(
                ToolError::invalid("notify_on_complete is not supported in this Rust runtime yet"),
            );
        }
        if let Some(Json::Array(items)) = args.get("watch_patterns") {
            if items.len() > 0 {
                return Err(
                    ToolError::invalid("watch_patterns is not supported in this Rust runtime yet"),
                );
            }
        }
        let timeout_secs: u64 = match args.number_at("timeout") {
            Some(n) => n,
            None => DEFAULT_TIMEOUT_SECS,
        };
        let cwd = match args.text_at("workdir") {
            Some(dir) => dir.to_owned(),
            None => ctx.working_dir.clone(),
        };
        Ok(CommandRequest { command: command.to_owned(), timeout_secs, cwd })
    }
}

impl CommandRequest {
    /// What the call returns after the command ended.
    pub fn finish(&self, end: &CommandEnd) -> (r: Result<ToolOutput, ToolError>)
        ensures
            match end {
                CommandEnd::Failed(e) => r is Err && r->Err_0@ == ToolErrorView::Execution(e@),
                CommandEnd::Cancelled => r is Err && r->Err_0@ == ToolErrorView::Cancelled,
                CommandEnd::TimedOut => r is Err && r->Err_0@ == ToolErrorView::Timeout(
                    self.timeout_secs,
                ),
                CommandEnd::Done { stdout, stderr, success, code } => r is Ok
                    && r->Ok_0.content@ == command_text(
                    lossy_text(stdout@),
                    lossy_text(stderr@),
                    *success,
                    *code,
                ),
            },
    {
        match end {
            CommandEnd::Failed(e) => Err(ToolError::Execution(e.clone())),
            CommandEnd::Cancelled => Err(ToolError::Cancelled),
            CommandEnd::TimedOut => Err(ToolError::Timeout(self.timeout_secs)),
            CommandEnd::Done { stdout, stderr, success, code } => {
                let out = decode_lossy(stdout.as_slice());
                let err = decode_lossy(stderr.as_slice());
                Ok(
                    ToolOutput {
                        content: format_command_output(
                            out.as_str(),
                            err.as_str(),
                            *success,
                            *code,
                        ),
                    },
                )
            },
        }
    }
}

/// What a command wrote is shown whether or not it succeeded: if it is
/// short enough, all of its output and behind that all of its errors, with
/// nothing but a mark between them.
pub proof fn law_all_output_is_shown(
    out: Seq<char>,
    err: Seq<char>,
    success: bool,
    code: Option<i32>,
)
    requires
        out.len() + err.len() + 16 <= 50_000,
    ensures
        out.is_prefix_of(command_text(out, err, success, code)),
        exists|p: int|
            out.len() <= p <= out.len() + 16 && p + err.len() <= command_text(
                out,
                err,
                success,
                code,
            ).len() && #[trigger] command_text(out, err, success, code).subrange(
                p,
                p + err.len(),
            ) == err,
        success && err.len() == 0 ==> command_text(out, err, success, code) == out,
        success && out.len() == 0 ==> command_text(out, err, success, code) == err,
        success && out.len() > 0 && err.len() > 0 ==> command_text(out, err, success, code) == out
            + "\n--- stderr ---\n"@ + err,
{
    reveal_strlit("\n--- stderr ---\n");
    assert("\n--- stderr ---\n"@.len() == 16);
    let text = command_text(out, err, success, code);
    let p = if err.len() == 0 || out.len() == 0 {
        out.len() as int
    } else {
        (out.len() + 16) as int
    };
    assert(out =~= text.take(out.len() as int));
    assert(text.subrange(p, p + err.len()) =~= err);
    assert(out.len() == 0 ==> out =~= Seq::empty());
}

/// A failed command shows what it would have shown if it had succeeded, and
/// behind that its exit code; one that has none shows -1.
pub proof fn law_exit_code_is_told(out: Seq<char>, err: Seq<char>, code: Option<i32>, c: i32)
    ensures
        command_text(out, err, false, Some(c)) == command_text(out, err, true, code)
            + "\n[exit code "@ + signed_decimal(c as int) + "]"@,
        command_text(out, err, false, None) == command_text(out, err, true, code)
            + "\n[exit code "@ + signed_decimal(-1) + "]"@,
{
}

/// Output of at most 50,000 characters is not cut; of a longer one the
/// first 20,000 and the last 30,000 are shown, and how much was left out.
pub proof fn law_long_output_keeps_both_ends(out: Seq<char>)
    ensures
        out.len() <= 50_000 ==> command_text(out, Seq::empty(), true, None) == out,
        out.len() > 50_000 ==> command_text(out, Seq::empty(), true, None) == out.take(20_000)
            + "\n\n... [OUTPUT TRUNCATED - "@ + decimal((out.len() - 50_000) as nat)
            + " chars omitted out of "@ + decimal(out.len()) + " total] ...\n\n"@ + out.skip(
            out.len() - 30_000,
        ),
{
}

/// Without the permission to run programs no command is run, and nothing is
/// asked of the call.
pub proof fn law_commands_need_permission(args: JsonView, working_dir: Seq<char>)
    ensures
        command_plan(args, working_dir, false) is Err,
        command_plan(args, working_dir, false)->Err_0 is Permission,
{
}

/// A command is run just if there is one and nothing is asked for that
/// cannot be done. It is run as it was given, where and for how long the
/// call says, or else in the working directory and for thirty seconds.
pub proof fn law_command_is_run_as_given(args: JsonView, working_dir: Seq<char>)
    ensures
        command_plan(args, working_dir, true) is Ok <==> (args.text_at("command"@) is Some
            && !args.flag_at("background"@) && !args.flag_at("pty"@) && !args.flag_at(
            "notify_on_complete"@,
        ) && !lists_something(args, "watch_patterns"@)),
        command_plan(args, working_dir, true) is Err ==> command_plan(
            args,
            working_dir,
            true,
        )->Err_0 is InvalidArgs,
        command_plan(args, working_dir, true) matches Ok(c) ==> {
            &&& args.text_at("command"@) == Some(c.command)
            &&& args.number_at("timeout"@) is Some ==> args.number_at("timeout"@) == Some(
                c.timeout_secs,
            )
            &&& args.number_at("timeout"@) is None ==> c.timeout_secs == 30
            &&& args.text_at("workdir"@) is Some ==> args.text_at("workdir"@) == Some(c.cwd)
            &&& args.text_at("workdir"@) is None ==> c.cwd == working_dir
        },
{
}

} // verus!
