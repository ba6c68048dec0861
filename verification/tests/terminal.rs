use perry_hermes_agent::json::Json;
use perry_hermes_agent::tool::{ToolContext, ToolError, ToolPermissions};
use perry_hermes_agent::tools::bash::{
    format_command_output, truncate_output, BashTool, CommandEnd, CommandRequest,
};

fn ctx(subprocess: bool) -> ToolContext {
    ToolContext {
        session_id: "test".to_string(),
        working_dir: "/w".to_string(),
        permissions: ToolPermissions { subprocess },
    }
}

fn plan(args: &str) -> CommandRequest {
    BashTool::new().plan(&Json::parse(args).unwrap(), &ctx(true)).ok().unwrap()
}

fn done(stdout: &[u8], stderr: &[u8], code: i32) -> CommandEnd {
    CommandEnd::Done {
        stdout: stdout.to_vec(),
        stderr: stderr.to_vec(),
        success: code == 0,
        code: Some(code),
    }
}

#[test]
fn bash_tool_runs_a_simple_command_and_returns_stdout() {
    let request = plan("{\"command\":\"echo hello-from-bash\"}");
    assert_eq!(request.command, "echo hello-from-bash");
    assert_eq!(request.timeout_secs, 30);
    assert_eq!(request.cwd, "/w");
    let out = request.finish(&done(b"hello-from-bash\n", b"", 0)).ok().unwrap();
    assert!(out.content.contains("hello-from-bash"));
}

#[test]
fn bash_tool_returns_nonzero_exit_in_content() {
    let out = plan("{\"command\":\"false\"}").finish(&done(b"", b"", 1)).ok().unwrap();
    assert!(out.content.contains("exit code 1"));
}

#[test]
fn bash_tool_rejects_missing_command_arg() {
    let err = BashTool::new().plan(&Json::object(), &ctx(true)).err().unwrap();
    assert!(err.message().contains("command"));
    assert!(matches!(err, ToolError::InvalidArgs(_)));
}

#[test]
fn bash_tool_needs_permission() {
    let args = Json::parse("{\"command\":\"true\"}").unwrap();
    let err = BashTool::new().plan(&args, &ctx(false)).err().unwrap();
    assert!(matches!(err, ToolError::Permission(_)));
}

#[test]
fn bash_tool_takes_timeout_and_directory() {
    let request = plan("{\"command\":\"x\",\"timeout\":5,\"workdir\":\"/elsewhere\"}");
    assert_eq!(request.timeout_secs, 5);
    assert_eq!(request.cwd, "/elsewhere");
    assert!(matches!(request.finish(&CommandEnd::TimedOut), Err(ToolError::Timeout(5))));
    assert!(matches!(request.finish(&CommandEnd::Cancelled), Err(ToolError::Cancelled)));
    match request.finish(&CommandEnd::Failed("no shell".to_string())) {
        Err(e) => assert!(e.message().contains("no shell")),
        Ok(_) => panic!("it did not start"),
    }
}

#[test]
fn output_shows_both_streams() {
    let text = format_command_output("out", "err", false, Some(3));
    assert!(text.contains("out"));
    assert!(text.contains("err"));
    assert!(text.contains("exit code 3"));
    let out = plan("{\"command\":\"x\"}").finish(&done(b"a\xffb", b"", 0)).ok().unwrap();
    assert!(out.content.contains("a\u{fffd}b"));
}

#[test]
fn long_output_keeps_both_ends() {
    assert_eq!(truncate_output("short", 10), "short");
    let text: String = (0..1000).map(|i| format!("{i:04}")).collect();
    let cut = truncate_output(&text, 100);
    assert!(cut.starts_with("0000"));
    assert!(cut.ends_with("0999"));
    assert!(cut.chars().count() < text.len());
}
