use perry_hermes_agent::json::Json;
use perry_hermes_agent::tool::{Environment, ToolError};
use perry_hermes_agent::tools::files::outcome::{FileText, Stored};
use perry_hermes_agent::tools::files::patch::{
    apply_hunks_to_text, apply_v4a_op, count_subsequence, find_subsequence, is_v4a_end_marker,
    parse_v4a, render_diff, report_patch, OpKind, OpOutcome, OpPlan, OpStep, PatchPlan, PatchTool,
    ReplaceRequest, V4aOp,
};
use perry_hermes_agent::tools::files::policy::{
    blocked_path_message, has_path_prefix, is_binary_extension, is_internal_file_status_text,
    sensitive_write_path_message, suggest_similar_files, temp_sibling,
};
use perry_hermes_agent::tools::files::read::{FileProbe, ReadFileTool, ReadPlan, ReadRequest};
use perry_hermes_agent::tools::files::write::{WriteFileTool, WritePlan, WriteRequest};
use perry_hermes_agent::tools::support::content::looks_binary;
use perry_hermes_agent::tools::support::path::resolve_user_path;

fn env() -> Environment {
    Environment {
        home: Some("/home/u".to_string()),
        hermes_home: None,
        profile: None,
    }
}

fn profile_env(hermes_home: &str) -> Environment {
    Environment {
        home: Some("/home/u".to_string()),
        hermes_home: Some(hermes_home.to_string()),
        profile: None,
    }
}

fn json(text: &str) -> Json {
    Json::parse(text).unwrap()
}

fn strings(items: &[&str]) -> Vec<String> {
    items.iter().map(|s| s.to_string()).collect()
}

fn error_of(reply: &Json) -> String {
    reply.text_at("error").unwrap_or_default().to_string()
}

fn list_at(reply: &Json, key: &str) -> Vec<Json> {
    match reply.get(key) {
        Some(Json::Array(items)) => items.iter().map(|j| j.copy()).collect(),
        _ => panic!("no list under {key}"),
    }
}

// --- read_file -----------------------------------------------------------

fn read_request(args: &str) -> ReadRequest {
    match ReadFileTool::new().plan(&json(args), "/w", &env()) {
        Ok(ReadPlan::Read(r)) => r,
        _ => panic!("this is a file to read"),
    }
}

fn read(args: &str, text: &str) -> Json {
    read_request(args).reply(&FileProbe::Bytes {
        size: text.len() as i64,
        bytes: text.as_bytes().to_vec(),
    })
}

#[test]
fn read_file_returns_line_numbered_content() {
    let v = read("{\"path\":\"/w/hello.txt\"}", "alpha\nbeta\ngamma\n");
    let content = v.text_at("content").unwrap();
    assert!(content.contains("1|alpha"), "got: {content}");
    assert!(content.contains("2|beta"));
    assert!(content.contains("3|gamma"));
    assert_eq!(v.number_at("total_lines"), Some(3));
    assert!(!v.flag_at("truncated"));
}

#[test]
fn read_file_supports_offset_and_limit() {
    let body: String = (1..=10).map(|i| format!("line{i}\n")).collect();
    let v = read("{\"path\":\"/w/lines.txt\",\"offset\":4,\"limit\":2}", &body);
    let content = v.text_at("content").unwrap();
    assert!(content.contains("4|line4"));
    assert!(content.contains("5|line5"));
    assert!(!content.contains("6|line6"));
    assert_eq!(v.number_at("total_lines"), Some(10));
    assert!(v.flag_at("truncated"));
}

#[test]
fn read_file_rejects_blocked_device_path() {
    let request = read_request("{\"path\":\"/dev/zero\"}");
    let v = request.refuse(&None).expect("devices are refused");
    assert!(error_of(&v).contains("device"));
    let request = read_request("{\"path\":\"/w/link\"}");
    assert!(request.refuse(&None).is_none());
    assert!(request.refuse(&Some("/dev/zero".to_string())).is_some());
    assert!(blocked_path_message("/w/a", &None).is_none());
}

#[test]
fn read_file_rejects_known_binary_extension() {
    let v = read_request("{\"path\":\"/w/pic.png\"}").refuse(&None).expect("binary is refused");
    let err = error_of(&v);
    assert!(err.to_lowercase().contains("binary"), "got error: {err}");
    assert!(!err.contains("vision_analyze"));
    assert!(is_binary_extension("png"));
    assert!(!is_binary_extension("rs"));
}

#[test]
fn binary_extensions_are_known_in_any_case() {
    let v = read_request("{\"path\":\"/w/pic.PNG\"}").refuse(&None).expect("binary is refused");
    assert!(error_of(&v).to_lowercase().contains("binary"));
}

#[test]
fn read_file_errors_when_offset_past_eof() {
    let v = read("{\"path\":\"/w/small.txt\",\"offset\":100,\"limit\":10}", "a\nb\nc\n");
    assert!(error_of(&v).contains("past end of file"));
}

#[test]
fn read_file_reports_not_found_with_similar_files() {
    let v = read_request("{\"path\":\"/w/alpha.rs\"}")
        .reply(&FileProbe::Missing(strings(&["alpha.py", "zzz.md"])));
    assert!(error_of(&v).contains("not found"));
    let similar = list_at(&v, "similar_files");
    assert!(!similar.is_empty());
    assert!(similar.iter().any(|s| s.as_str().unwrap_or_default().ends_with("alpha.py")));
}

#[test]
fn read_file_resolves_relative_path_against_working_dir() {
    assert_eq!(read_request("{\"path\":\"nested.txt\"}").resolved, "/w/nested.txt");
    assert_eq!(read_request("{\"path\":\"~/a\"}").resolved, "/home/u/a");
}

#[test]
fn read_file_caps_content_at_100k_chars() {
    let mut body = String::new();
    for _ in 0..250 {
        body.push_str(&"a".repeat(1000));
        body.push('\n');
    }
    let v = read("{\"path\":\"/w/big.txt\",\"limit\":2000}", &body);
    let content = v.text_at("content").unwrap();
    assert!(content.chars().count() <= 110_000);
    assert!(content.contains("TRUNCATED"));
}

#[test]
fn read_file_tells_what_went_wrong() {
    let request = read_request("{\"path\":\"/w/a\"}");
    for probe in [
        FileProbe::StatFailed("denied".to_string()),
        FileProbe::NotAFile,
        FileProbe::ReadFailed("denied".to_string()),
        FileProbe::Bytes { size: 4, bytes: vec![0, 1, 2, 3] },
    ] {
        assert!(!error_of(&request.reply(&probe)).is_empty());
    }
    match ReadFileTool::new().plan(&json("{}"), "/w", &env()) {
        Err(ToolError::InvalidArgs(m)) => assert_eq!(m, "missing 'path'"),
        _ => panic!("the path is missing"),
    }
}

#[test]
fn read_file_shows_bytes_that_are_no_text_and_drops_a_byte_order_mark() {
    let rest = "x".repeat(100);
    let v = read("{\"path\":\"/w/a\"}", &format!("\u{feff}{rest}\n"));
    assert!(v.text_at("content").unwrap().contains("1|x"));
    let mut bytes = b"ab\xffcd".to_vec();
    bytes.extend(rest.as_bytes());
    let v = read_request("{\"path\":\"/w/a\"}").reply(&FileProbe::Bytes { size: 105, bytes });
    assert!(v.text_at("content").unwrap().contains("1|ab\u{fffd}cdx"));
}

#[test]
fn next_page_follows() {
    let body = "a\nb\nc\nd\n";
    let first = read("{\"path\":\"/w/p\",\"limit\":2}", body);
    let second = read("{\"path\":\"/w/p\",\"offset\":3,\"limit\":2}", body);
    assert_eq!(
        format!(
            "{}{}",
            first.text_at("content").unwrap(),
            second.text_at("content").unwrap()
        ),
        read("{\"path\":\"/w/p\",\"limit\":4}", body).text_at("content").unwrap()
    );
}

#[test]
fn binary_is_told_by_its_bytes() {
    assert!(looks_binary(&[0u8, 1, 2]));
    assert!(!looks_binary(b"plain text\n"));
    assert!(!looks_binary(b""));
}

#[test]
fn user_paths_are_resolved() {
    assert_eq!(resolve_user_path("/a/b", "/w", &env()).ok().unwrap(), "/a/b");
    assert_eq!(resolve_user_path("b", "/w", &env()).ok().unwrap(), "/w/b");
    assert_eq!(resolve_user_path("~/b", "/w", &env()).ok().unwrap(), "/home/u/b");
    let homeless = Environment { home: None, hermes_home: None, profile: None };
    assert!(resolve_user_path("~/b", "/w", &homeless).is_err());
}

// --- write_file ----------------------------------------------------------

fn write_request(args: &str) -> WriteRequest {
    match WriteFileTool::new().plan(&json(args), "/w", &env()) {
        Ok(WritePlan::Write(r)) => r,
        _ => panic!("this is a file to write"),
    }
}

fn write_refusal(args: &str, env: &Environment) -> String {
    match WriteFileTool::new().plan(&json(args), "/w", env) {
        Ok(WritePlan::Reply(r)) => error_of(&r),
        _ => panic!("this is refused"),
    }
}

#[test]
fn write_file_creates_new_file() {
    let request = write_request("{\"path\":\"/w/new.txt\",\"content\":\"hello\\n\"}");
    assert_eq!(request.content, "hello\n");
    assert_eq!(request.resolved, "/w/new.txt");
    let v = request.reply(false, &Stored::Done(None));
    assert_eq!(v.number_at("bytes_written"), Some(6));
    assert_eq!(list_at(&v, "files_modified").len(), 1);
}

#[test]
fn write_file_creates_parent_directories() {
    let request = write_request("{\"path\":\"/w/a/b/c/deep.txt\",\"content\":\"deep\"}");
    assert_eq!(request.dir.as_deref(), Some("/w/a/b/c"));
    let v = request.reply(true, &Stored::Done(None));
    assert!(v.flag_at("dirs_created"));
}

#[test]
fn write_file_includes_resolved_path() {
    let request = write_request("{\"path\":\"rel.txt\",\"content\":\"x\"}");
    let v = request.reply(false, &Stored::Done(Some("/real/rel.txt".to_string())));
    assert!(v.text_at("resolved_path").unwrap().ends_with("rel.txt"));
    let v = request.reply(false, &Stored::Done(None));
    assert_eq!(v.text_at("resolved_path"), Some("/w/rel.txt"));
}

#[test]
fn write_file_rejects_internal_status_text() {
    let status = "File unchanged since last read. The content from the earlier read_file result in this conversation is still current — refer to that instead of re-reading.";
    let args = Json::object().with("path", Json::text("/w/status.txt")).with("content", Json::text(status));
    let error = write_refusal(&args.render(), &env());
    assert!(error.contains("internal read_file status text"), "{error}");
    assert!(is_internal_file_status_text(status));
    assert!(!is_internal_file_status_text("my own words"));
}

#[test]
fn write_file_rejects_cross_profile_write_without_override() {
    let env = profile_env("/d/profiles/current");
    let args = "{\"path\":\"/d/profiles/other/skills/demo/SKILL.md\",\"content\":\"demo\"}";
    assert!(write_refusal(args, &env).contains("cross-profile"));
}

#[test]
fn write_file_rejects_perry_hermes_config_path() {
    let env = profile_env("/d/active-profile");
    let args = "{\"path\":\"/d/active-profile/config.toml\",\"content\":\"unsafe = true\"}";
    assert!(write_refusal(args, &env).contains("Perry Hermes config file"));
    assert!(sensitive_write_path_message("x", "/d/active-profile/config.toml", &env).is_some());
    assert!(sensitive_write_path_message("x", "/w/config.toml", &env).is_none());
}

#[test]
fn write_file_allows_cross_profile_write_with_override() {
    let env = profile_env("/d/profiles/current");
    let args = "{\"path\":\"/d/profiles/other/skills/demo/SKILL.md\",\"content\":\"demo\",\"cross_profile\":true}";
    match WriteFileTool::new().plan(&json(args), "/w", &env) {
        Ok(WritePlan::Write(r)) => assert_eq!(r.content, "demo"),
        _ => panic!("the override lets it be written"),
    }
}

#[test]
fn write_file_goes_through_a_hidden_sibling() {
    let request = write_request("{\"path\":\"/w/clean.txt\",\"content\":\"ok\"}");
    let temp = request.temp(42).ok().unwrap();
    assert!(temp.starts_with("/w/"));
    assert!(temp.contains(".perry-hermes-tmp-"));
    assert!(temp.contains("42"));
    assert!(temp_sibling("/", 1).is_err());
    for stored in [Stored::WriteFailed("full".to_string()), Stored::RenameFailed("busy".to_string())] {
        assert!(!error_of(&request.reply(false, &stored)).is_empty());
    }
    assert!(error_of(&request.dir_failed("denied")).contains("denied"));
}

#[test]
fn write_file_needs_path_and_content() {
    for args in ["{}", "{\"path\":\"/w/a\"}"] {
        assert!(WriteFileTool::new().plan(&json(args), "/w", &env()).is_err());
    }
}

#[test]
fn path_prefixes_end_at_a_separator() {
    assert!(has_path_prefix("/etc/passwd", "/etc"));
    assert!(has_path_prefix("/etc", "/etc"));
    assert!(!has_path_prefix("/etcetera", "/etc"));
    assert!(sensitive_write_path_message("/etc/shadow", "/etc/shadow", &env()).is_some());
    assert!(sensitive_write_path_message("/usr/bin/x", "/usr/bin/x", &env()).is_some());
    assert!(sensitive_write_path_message("/etc/hosts", "/etc/hosts", &env()).is_none());
}

#[test]
fn similar_files_come_closest_first() {
    let found = suggest_similar_files("/w/alpha.rs", &strings(&["beta.md", "alpha.py", "ALPHA.rs"]));
    assert!(found.iter().any(|p| p.ends_with("alpha.py")));
    assert!(!found.iter().any(|p| p.ends_with("beta.md")));
}

// --- patch ---------------------------------------------------------------

#[test]
fn patch_schema_matches_reference_name_and_required_mode() {
    let tool = PatchTool::new();
    assert_eq!(tool.name(), "patch");
    let schema = tool.parameters_schema();
    let props = schema.get("properties").unwrap();
    for key in [
        "mode",
        "path",
        "old_string",
        "new_string",
        "replace_all",
        "patch",
        "cross_profile",
    ] {
        assert!(props.get(key).is_some(), "missing parameter {key}");
    }
    assert_eq!(schema.get("required").unwrap().render(), "[\"mode\"]");
}

fn replace_request(args: &str) -> ReplaceRequest {
    match PatchTool::new().plan(&json(args), "/w", &env()) {
        PatchPlan::Replace(r) => r,
        _ => panic!("this is a replacement"),
    }
}

#[test]
fn patch_replace_mode_edits_unique_match() {
    let request = replace_request(
        "{\"mode\":\"replace\",\"path\":\"/w/demo.txt\",\"old_string\":\"beta\\n\",\"new_string\":\"BETA\\n\"}",
    );
    let edit = request.edit(&FileText::Text("alpha\nbeta\ngamma\n".to_string()), 7).ok().unwrap();
    assert_eq!(edit.updated, "alpha\nBETA\ngamma\n");
    assert!(edit.diff.contains("-beta"));
    assert!(edit.diff.contains("+BETA"));
    assert!(edit.temp.contains(".perry-hermes-tmp-"));
    let v = request.reply(&edit.diff, &Stored::Done(None));
    assert!(v.text_at("diff").unwrap().contains("-beta"));
    assert_eq!(list_at(&v, "files_modified").len(), 1);
}

#[test]
fn patch_replace_mode_rejects_duplicate_without_replace_all() {
    let request = replace_request(
        "{\"mode\":\"replace\",\"path\":\"/w/demo.txt\",\"old_string\":\"same\",\"new_string\":\"other\"}",
    );
    let v = request.edit(&FileText::Text("same\nsame\n".to_string()), 7).err().unwrap();
    assert!(error_of(&v).contains("multiple"));
}

#[test]
fn patch_replace_mode_supports_replace_all() {
    let request = replace_request(
        "{\"mode\":\"replace\",\"path\":\"/w/demo.txt\",\"old_string\":\"same\",\"new_string\":\"other\",\"replace_all\":true}",
    );
    let edit = request.edit(&FileText::Text("same\nsame\n".to_string()), 7).ok().unwrap();
    assert_eq!(edit.updated, "other\nother\n");
}

#[test]
fn patch_replace_mode_tells_what_went_wrong() {
    let request = replace_request(
        "{\"mode\":\"replace\",\"path\":\"/w/demo.txt\",\"old_string\":\"no\",\"new_string\":\"x\"}",
    );
    assert!(request.edit(&FileText::Missing, 7).is_err());
    assert!(request.edit(&FileText::Failed("denied".to_string()), 7).is_err());
    assert!(request.edit(&FileText::Text("yes".to_string()), 7).is_err());
    for args in [
        "{}",
        "{\"mode\":\"other\"}",
        "{\"mode\":\"replace\"}",
        "{\"mode\":\"patch\"}",
        "{\"mode\":\"replace\",\"path\":\"/etc/passwd\",\"old_string\":\"a\",\"new_string\":\"b\"}",
    ] {
        match PatchTool::new().plan(&json(args), "/w", &env()) {
            PatchPlan::Reply(v) => assert!(!error_of(&v).is_empty()),
            _ => panic!("{args} is refused"),
        }
    }
}

const PATCH: &str = "\
*** Begin Patch
*** Add File: added.txt
+created
*** Update File: update.txt
@@
-old
+new
 keep
*** Delete File: delete.txt
*** Move File: move.txt
*** Move to: moved.txt
*** End Patch";

#[test]
fn patch_v4a_add_update_delete_and_move_files() {
    let args = Json::object().with("mode", Json::text("patch")).with("patch", Json::text(PATCH));
    let ops: Vec<V4aOp> = match PatchTool::new().plan(&args, "/w", &env()) {
        PatchPlan::Apply { ops, cross_profile } => {
            assert!(!cross_profile);
            ops
        }
        _ => panic!("this is a patch"),
    };
    let kinds: Vec<&str> = ops.iter().map(|o| o.kind.kind_str()).collect();
    assert_eq!(kinds, vec!["add", "update", "delete", "move"]);
    assert_eq!(ops[0].body, "created\n");

    match apply_v4a_op(&ops[0], "/w", &env(), false) {
        Ok(OpPlan::Add { target, dir }) => {
            assert_eq!(target, "/w/added.txt");
            assert_eq!(dir.as_deref(), Some("/w"));
        }
        _ => panic!("a file is added"),
    }
    match apply_v4a_op(&ops[1], "/w", &env(), false) {
        Ok(OpPlan::Update { target }) => {
            let (updated, temp) = ops[1]
                .update(&target, &FileText::Text("old\nkeep\n".to_string()), 3)
                .ok()
                .unwrap();
            assert_eq!(updated, "new\nkeep\n");
            assert!(temp.contains("tmp"));
        }
        _ => panic!("a file is updated"),
    }
    assert!(matches!(apply_v4a_op(&ops[2], "/w", &env(), false), Ok(OpPlan::Delete { .. })));
    match apply_v4a_op(&ops[3], "/w", &env(), false) {
        Ok(OpPlan::Move { target, dest, .. }) => {
            assert_eq!(target, "/w/move.txt");
            assert_eq!(dest, "/w/moved.txt");
        }
        _ => panic!("a file is moved"),
    }

    let outcomes = vec![
        OpOutcome::Applied("/w/added.txt".to_string()),
        OpOutcome::Applied("/w/update.txt".to_string()),
        OpOutcome::Applied("/w/delete.txt".to_string()),
        OpOutcome::Applied("/w/moved.txt".to_string()),
    ];
    let v = report_patch(&ops, &outcomes);
    assert!(v.flag_at("success"), "output: {}", v.render());
    assert_eq!(list_at(&v, "files_modified").len(), 4);
}

#[test]
fn patch_report_lists_failures_and_files_once() {
    let ops = parse_v4a("*** Begin Patch\n*** Delete File: a\n*** Delete File: b\n*** Delete File: a\n*** End Patch")
        .ok()
        .unwrap();
    let v = report_patch(
        &ops,
        &vec![
            OpOutcome::Applied("/w/a".to_string()),
            OpOutcome::Rejected(OpStep::Delete.failed("denied")),
            OpOutcome::Applied("/w/a".to_string()),
        ],
    );
    assert!(!v.flag_at("success"));
    assert_eq!(list_at(&v, "files_modified").len(), 1);
    assert!(v.render().contains("denied"));
}

#[test]
fn patch_v4a_accepts_end_of_patch_with_optional_index() {
    let ops = parse_v4a("*** Begin Patch\n*** Add File: a.txt\n+hello\n*** End of Patch [0]").ok().unwrap();
    assert_eq!(ops.len(), 1);
    assert_eq!(ops[0].kind, OpKind::Add);
    assert_eq!(ops[0].body, "hello\n");
    assert!(is_v4a_end_marker("*** End Patch"));
    assert!(is_v4a_end_marker("*** End of Patch [3]"));
    assert!(!is_v4a_end_marker("*** End"));
}

#[test]
fn patches_that_are_none_are_refused() {
    for body in ["", "hello", "*** Begin Patch\n*** End Patch", "*** Begin Patch\n*** Move to: a\n*** End Patch"] {
        assert!(parse_v4a(body).is_err(), "{body}");
    }
    let ops = parse_v4a("*** Begin Patch\n*** Move File: a\n*** End Patch").ok().unwrap();
    assert!(apply_v4a_op(&ops[0], "/w", &env(), false).is_err());
}

#[test]
fn hunks_keep_the_other_lines() {
    let ops = parse_v4a(
        "*** Begin Patch\n*** Update File: a\n@@\n one\n-two\n+2\n three\n@@\n-five\n+5\n*** End Patch",
    )
    .ok()
    .unwrap();
    let out = apply_hunks_to_text("zero\none\ntwo\nthree\nfour\nfive\nsix", &ops[0].hunks, "a");
    assert_eq!(out.ok().unwrap(), "zero\none\n2\nthree\nfour\n5\nsix");
    assert!(apply_hunks_to_text("nothing of it\n", &ops[0].hunks, "a").is_err());
    assert_eq!(apply_hunks_to_text("as it is\n", &Vec::new(), "a").ok().unwrap(), "as it is\n");
}

#[test]
fn a_hunk_that_fits_twice_is_refused() {
    let ops = parse_v4a("*** Begin Patch\n*** Update File: a\n@@\n-x\n+y\n*** End Patch").ok().unwrap();
    assert!(apply_hunks_to_text("x\nx\n", &ops[0].hunks, "a").is_err());
}

#[test]
fn subsequences_are_found_and_counted() {
    let hay = strings(&["a", "b", "a", "b"]);
    assert_eq!(find_subsequence(&hay, &strings(&["a", "b"])), Some(0));
    assert_eq!(find_subsequence(&hay, &strings(&["b", "a"])), Some(1));
    assert_eq!(find_subsequence(&hay, &strings(&["c"])), None);
    assert_eq!(count_subsequence(&hay, &strings(&["a", "b"])), 2);
}

#[test]
fn diffs_show_both_sides() {
    let diff = render_diff("a\nb\n", "a\nc\n");
    assert!(diff.contains("-b"));
    assert!(diff.contains("+c"));
}
