//! What every tool shares: the context it runs in, its output and its
//! errors.

use vstd::prelude::*;
use vstd::string::*;

use crate::json::{json_text, Json, JsonView};
use crate::text::{decimal, decimal_text};

verus! {

/// What a tool may do.
#[derive(Clone, Copy)]
pub struct ToolPermissions {
    pub subprocess: bool,
}

/// The session a tool runs for.
pub struct ToolContext {
    pub session_id: String,
    pub working_dir: String,
    pub permissions: ToolPermissions,
}

/// The process environment that path rules read.
pub struct Environment {
    /// The user's home directory.
    pub home: Option<String>,
    /// The directory that holds this profile's files, if it is set.
    pub hermes_home: Option<String>,
    /// The active profile by name, if it is set.
    pub profile: Option<String>,
}

pub ghost struct EnvironmentView {
    pub home: Option<Seq<char>>,
    pub hermes_home: Option<Seq<char>>,
    pub profile: Option<Seq<char>>,
}

/// The characters of an optional string.
pub open spec fn opt_view(s: Option<String>) -> Option<Seq<char>> {
    match s {
        Some(t) => Some(t@),
        None => None,
    }
}

impl View for Environment {
    type V = EnvironmentView;

    open spec fn view(&self) -> EnvironmentView {
        EnvironmentView {
            home: opt_view(self.home),
            hermes_home: opt_view(self.hermes_home),
            profile: opt_view(self.profile),
        }
    }
}

/// What a tool hands back to the model.
pub struct ToolOutput {
    pub content: String,
}

impl ToolOutput {
    /// The output that holds a JSON value.
    pub fn of_json(value: &Json) -> (r: ToolOutput)
        ensures
            r.content@ == json_text(value@),
    {
        ToolOutput { content: value.render() }
    }
}

/// The reply that reports an error.
pub open spec fn error_json(message: Seq<char>) -> JsonView {
    JsonView::object().with("error"@, JsonView::Text(message))
}

pub fn error_reply(message: &str) -> (r: Json)
    ensures
        r@ == error_json(message@),
{
    Json::object().with("error", Json::text(message))
}

/// The error reply with a fixed start.
pub fn error_reply2(start: &str, rest: &str) -> (r: Json)
    ensures
        r@ == error_json(start@ + rest@),
{
    let mut out = start.to_owned();
    out.append(rest);
    error_reply(out.as_str())
}

/// Why a tool call failed.
pub enum ToolError {
    NotFound(String),
    InvalidArgs(String),
    Permission(String),
    Execution(String),
    Timeout(u64),
    Cancelled,
}

pub ghost enum ToolErrorView {
    NotFound(Seq<char>),
    InvalidArgs(Seq<char>),
    Permission(Seq<char>),
    Execution(Seq<char>),
    Timeout(u64),
    Cancelled,
}

impl View for ToolError {
    type V = ToolErrorView;

    open spec fn view(&self) -> ToolErrorView {
        match self {
            ToolError::NotFound(s) => ToolErrorView::NotFound(s@),
            ToolError::InvalidArgs(s) => ToolErrorView::InvalidArgs(s@),
            ToolError::Permission(s) => ToolErrorView::Permission(s@),
            ToolError::Execution(s) => ToolErrorView::Execution(s@),
            ToolError::Timeout(n) => ToolErrorView::Timeout(*n),
            ToolError::Cancelled => ToolErrorView::Cancelled,
        }
    }
}

/// The error as the model reads it.
pub open spec fn tool_error_text(e: ToolErrorView) -> Seq<char> {
    match e {
        ToolErrorView::NotFound(s) => "tool not found: "@ + s,
        ToolErrorView::InvalidArgs(s) => "invalid arguments: "@ + s,
        ToolErrorView::Permission(s) => "permission denied: "@ + s,
        ToolErrorView::Execution(s) => "execution failed: "@ + s,
        ToolErrorView::Timeout(n) => "timed out after "@ + decimal(n as nat) + "s"@,
        ToolErrorView::Cancelled => "cancelled"@,
    }
}

impl ToolError {
    pub fn invalid(message: &str) -> (r: ToolError)
        ensures
            r@ == ToolErrorView::InvalidArgs(message@),
    {
        ToolError::InvalidArgs(message.to_owned())
    }

    pub fn message(&self) -> (r: String)
        ensures
            r@ == tool_error_text(self@),
    {
        match self {
            ToolError::NotFound(s) => {
                let mut out = "tool not found: ".to_owned();
                out.append(s.as_str());
                out
            },
            ToolError::InvalidArgs(s) => {
                let mut out = "invalid arguments: ".to_owned();
                out.append(s.as_str());
                out
            },
            ToolError::Permission(s) => {
                let mut out = "permission denied: ".to_owned();
                out.append(s.as_str());
                out
            },
            ToolError::Execution(s) => {
                let mut out = "execution failed: ".to_owned();
                out.append(s.as_str());
                out
            },
            ToolError::Timeout(n) => {
                let mut out = "timed out after ".to_owned();
                out.append(decimal_text(*n).as_str());
                out.append("s");
                out
            },
            ToolError::Cancelled => "cancelled".to_owned(),
        }
    }

    pub fn copy(&self) -> (r: ToolError)
        ensures
            r@ == self@,
    {
        match self {
            ToolError::NotFound(s) => ToolError::NotFound(s.clone()),
            ToolError::InvalidArgs(s) => ToolError::InvalidArgs(s.clone()),
            ToolError::Permission(s) => ToolError::Permission(s.clone()),
            ToolError::Execution(s) => ToolError::Execution(s.clone()),
            ToolError::Timeout(n) => ToolError::Timeout(*n),
            ToolError::Cancelled => ToolError::Cancelled,
        }
    }
}

/// Two errors that read alike are one error.
pub proof fn law_errors_read_differently(a: ToolErrorView, b: ToolErrorView)
    requires
        tool_error_text(a) == tool_error_text(b),
    ensures
        a == b,
{
    reveal_strlit("tool not found: ");
    reveal_strlit("invalid arguments: ");
    reveal_strlit("permission denied: ");
    reveal_strlit("execution failed: ");
    reveal_strlit("timed out after ");
    reveal_strlit("s");
    reveal_strlit("cancelled");
    let t = tool_error_text(a);
    lemma_error_start(a);
    lemma_error_start(b);
    match (a, b) {
        (ToolErrorView::NotFound(x), ToolErrorView::NotFound(y)) => {
            assert(t.skip(16) =~= x);
            assert(t.skip(16) =~= y);
        },
        (ToolErrorView::InvalidArgs(x), ToolErrorView::InvalidArgs(y)) => {
            assert(t.skip(19) =~= x);
            assert(t.skip(19) =~= y);
        },
        (ToolErrorView::Permission(x), ToolErrorView::Permission(y)) => {
            assert(t.skip(19) =~= x);
            assert(t.skip(19) =~= y);
        },
        (ToolErrorView::Execution(x), ToolErrorView::Execution(y)) => {
            assert(t.skip(18) =~= x);
            assert(t.skip(18) =~= y);
        },
        (ToolErrorView::Timeout(x), ToolErrorView::Timeout(y)) => {
            assert(t.subrange(16, t.len() - 1) =~= decimal(x as nat));
            assert(t.subrange(16, t.len() - 1) =~= decimal(y as nat));
            crate::text::law_decimal_is_the_number(x as nat);
            crate::text::law_decimal_is_the_number(y as nat);
        },
        _ => {},
    }
}

/// Which character an error starts with, and which comes next.
proof fn lemma_error_start(e: ToolErrorView)
    ensures
        ({
            let t = tool_error_text(e);
            &&& t.len() > 1
            &&& match e {
                ToolErrorView::NotFound(_) => t[0] == 't' && t[1] == 'o',
                ToolErrorView::InvalidArgs(_) => t[0] == 'i',
                ToolErrorView::Permission(_) => t[0] == 'p',
                ToolErrorView::Execution(_) => t[0] == 'e',
                ToolErrorView::Timeout(_) => t[0] == 't' && t[1] == 'i',
                ToolErrorView::Cancelled => t[0] == 'c',
            }
        }),
{
    reveal_strlit("tool not found: ");
    reveal_strlit("invalid arguments: ");
    reveal_strlit("permission denied: ");
    reveal_strlit("execution failed: ");
    reveal_strlit("timed out after ");
    reveal_strlit("s");
    reveal_strlit("cancelled");
}

/// What is reported as an error is found under that name, whole.
pub proof fn law_error_is_reported_whole(message: Seq<char>)
    ensures
        error_json(message).text_at("error"@) == Some(message),
        forall|key: Seq<char>| key != "error"@ ==> #[trigger] error_json(message).get(key) is None,
{
}

} // verus!
