use perry_hermes_agent::json::Json;
use perry_hermes_agent::tool::Environment;
use perry_hermes_agent::tools::files::search::{
    build_payload, content_mode_walk, enters_dir, files_mode, glob_match, keeps_file,
    read_json_lines, rg_arguments, rg_content_search, rg_matches, walk_search, FoundFile, Match,
    RgEnd, SearchFilesTool, SearchPlan, SearchRequest, SearchTarget, WalkedFile,
};

fn env() -> Environment {
    Environment { home: Some("/home/u".to_string()), hermes_home: None, profile: None }
}

fn request(args: &str) -> SearchRequest {
    match SearchFilesTool::new().plan(&Json::parse(args).unwrap(), "/w", &env()) {
        SearchPlan::Search(r) => r,
        SearchPlan::Reply(v) => panic!("refused: {}", v.render()),
    }
}

fn list_at(reply: &Json, key: &str) -> Vec<Json> {
    match reply.get(key) {
        Some(Json::Array(items)) => items.iter().map(|j| j.copy()).collect(),
        _ => panic!("no list under {key} in {}", reply.render()),
    }
}

fn walked(path: &str, text: &str) -> WalkedFile {
    WalkedFile { path: path.to_string(), text: Some(text.to_string()) }
}

#[test]
fn search_files_schema_matches_reference_name() {
    let tool = SearchFilesTool::new();
    assert_eq!(tool.name(), "search_files");
    let schema = tool.parameters_schema();
    let props = schema.get("properties").unwrap();
    for key in [
        "pattern",
        "target",
        "path",
        "file_glob",
        "limit",
        "offset",
        "output_mode",
        "context",
    ] {
        assert!(props.get(key).is_some(), "missing parameter {key}");
    }
}

#[test]
fn search_files_content_returns_line_column_and_content() {
    let v = content_mode_walk(
        &vec![walked("/w/a.txt", "alpha\nneedle here\n")],
        "needle",
        "content",
        50,
        0,
    );
    let first = &list_at(&v, "matches")[0];
    assert_eq!(first.number_at("line"), Some(2));
    assert_eq!(first.number_at("column"), Some(1));
    assert_eq!(first.text_at("content"), Some("needle here"));
}

#[test]
fn search_files_file_glob_restricts_content_search() {
    let glob = Some("*.rs".to_string());
    assert!(keeps_file("/w/a.rs", &glob));
    assert!(!keeps_file("/w/a.txt", &glob));
    assert!(keeps_file("/w/a.txt", &None));
}

#[test]
fn search_files_content_supports_offset_limit_and_files_only() {
    let v = content_mode_walk(
        &vec![walked("/w/a.txt", "needle 1\nneedle 2\nneedle 3\n")],
        "needle",
        "files_only",
        1,
        1,
    );
    assert_eq!(list_at(&v, "files").len(), 1);
    assert_eq!(v.number_at("total"), Some(3));
    assert!(v.flag_at("truncated"));
}

#[test]
fn search_files_content_supports_count_mode() {
    let v = content_mode_walk(&vec![walked("/w/a.txt", "needle\nneedle\n")], "needle", "count", 50, 0);
    assert_eq!(list_at(&v, "counts")[0].number_at("count"), Some(2));
}

#[test]
fn search_files_target_files_finds_glob_matches() {
    let v = files_mode(
        &vec![
            FoundFile { path: "/w/a.rs".to_string(), modified: Some(1) },
            FoundFile { path: "/w/b.txt".to_string(), modified: Some(2) },
        ],
        "*.rs",
        50,
        0,
    );
    let files = list_at(&v, "files");
    assert_eq!(files.len(), 1);
    assert!(files[0].as_str().unwrap().ends_with("a.rs"));
}

#[test]
fn found_files_come_newest_first() {
    let v = files_mode(
        &vec![
            FoundFile { path: "/w/old".to_string(), modified: Some(1) },
            FoundFile { path: "/w/unknown".to_string(), modified: None },
            FoundFile { path: "/w/new".to_string(), modified: Some(9) },
        ],
        "*",
        50,
        0,
    );
    let names: Vec<String> =
        list_at(&v, "files").iter().map(|j| j.as_str().unwrap().to_string()).collect();
    assert_eq!(names[0], "/w/new");
    assert_eq!(names[1], "/w/old");
    let v = files_mode(
        &vec![
            FoundFile { path: "/w/1".to_string(), modified: Some(1) },
            FoundFile { path: "/w/2".to_string(), modified: Some(2) },
        ],
        "*",
        1,
        1,
    );
    assert_eq!(list_at(&v, "files")[0].as_str(), Some("/w/1"));
}

#[test]
fn stars_match_anything_and_the_rest_itself() {
    assert!(glob_match("*", "anything"));
    assert!(glob_match("*.rs", "a.rs"));
    assert!(!glob_match("*.rs", "a.rsx"));
    assert!(glob_match("a?c", "a?c"));
    assert!(!glob_match("a?c", "abc"));
    assert!(glob_match("a*b*c", "a__b__c"));
    assert!(glob_match("plain", "plain"));
    assert!(!glob_match("plain", "plainer"));
    assert!(glob_match("", ""));
}

#[test]
fn hidden_and_build_directories_are_not_entered() {
    assert!(!enters_dir("/w/.git"));
    assert!(!enters_dir("/w/node_modules"));
    assert!(!enters_dir("/w/target"));
    assert!(enters_dir("/w/src"));
}

#[test]
fn requests_have_defaults_and_limits() {
    let r = request("{\"pattern\":\"x\"}");
    assert_eq!(r.root, "/w");
    assert_eq!(r.output_mode, "content");
    assert_eq!(r.limit, 50);
    assert_eq!(r.offset, 0);
    assert!(matches!(r.target, SearchTarget::Content));
    assert!(r.refuse(false).is_some());
    assert!(r.refuse(true).is_none());
    let r = request("{\"pattern\":\"x\",\"target\":\"files\",\"path\":\"sub\"}");
    assert!(matches!(r.target, SearchTarget::Files));
    assert_eq!(r.root, "/w/sub");
    match SearchFilesTool::new().plan(&Json::object(), "/w", &env()) {
        SearchPlan::Reply(v) => assert!(v.text_at("error").is_some()),
        _ => panic!("the pattern is missing"),
    }
}

const EVENTS: &str = "\
{\"type\":\"begin\",\"data\":{\"path\":{\"text\":\"/w/a.txt\"}}}
{\"type\":\"context\",\"data\":{\"path\":{\"text\":\"/w/a.txt\"},\"lines\":{\"text\":\"before\\n\"},\"line_number\":1}}
{\"type\":\"match\",\"data\":{\"path\":{\"text\":\"/w/a.txt\"},\"lines\":{\"text\":\"  alpha\\n\"},\"line_number\":2,\"submatches\":[{\"start\":2,\"end\":7}]}}
not json
{\"type\":\"context\",\"data\":{\"path\":{\"text\":\"/w/a.txt\"},\"lines\":{\"text\":\"after\\n\"},\"line_number\":3}}
{\"type\":\"end\",\"data\":{}}
";

const TWO_MATCHES: &str = "\
{\"type\":\"begin\",\"data\":{\"path\":{\"text\":\"/w/a.txt\"}}}
{\"type\":\"match\",\"data\":{\"path\":{\"text\":\"/w/a.txt\"},\"lines\":{\"text\":\"alpha\\n\"},\"line_number\":1,\"absolute_offset\":0,\"submatches\":[{\"match\":{\"text\":\"alpha\"},\"start\":0,\"end\":5}]}}
{\"type\":\"match\",\"data\":{\"path\":{\"text\":\"/w/a.txt\"},\"lines\":{\"text\":\"gamma\\n\"},\"line_number\":3,\"absolute_offset\":11,\"submatches\":[{\"match\":{\"text\":\"gamma\"},\"start\":0,\"end\":5}]}}
{\"type\":\"end\",\"data\":{\"path\":{\"text\":\"/w/a.txt\"}}}
";

#[test]
fn search_files_content_supports_regex_pattern() {
    let r = request("{\"pattern\":\"alpha|gamma\",\"path\":\"/w\"}");
    let args = rg_arguments(&r.pattern, &r.root, &r.file_glob, r.context);
    assert_eq!(args, vec!["--json", "--no-heading", "-e", "alpha|gamma", "/w"]);
    let end =
        RgEnd::Done { code: Some(0), stdout: TWO_MATCHES.as_bytes().to_vec(), stderr: Vec::new() };
    let v = rg_content_search(&end, &r.output_mode, r.context, r.limit, r.offset);
    let matches = list_at(&v, "matches");
    assert_eq!(matches.len(), 2);
    let contents: Vec<&str> = matches.iter().map(|m| m.text_at("content").unwrap()).collect();
    assert!(contents.contains(&"alpha"));
    assert!(contents.contains(&"gamma"));
    assert!(!contents.contains(&"beta"));
}

#[test]
fn search_events_become_matches_with_context() {
    let end = RgEnd::Done { code: Some(0), stdout: EVENTS.as_bytes().to_vec(), stderr: Vec::new() };
    let v = rg_content_search(&end, "content", 1, 50, 0);
    let matches = list_at(&v, "matches");
    assert_eq!(matches.len(), 1);
    assert_eq!(matches[0].number_at("line"), Some(2));
    assert_eq!(matches[0].number_at("column"), Some(3));
    assert_eq!(matches[0].text_at("content"), Some("  alpha"));
    let context = matches[0].get("context").expect("context was asked for").render();
    assert!(context.contains("before"), "{context}");
    assert!(context.contains("after"), "{context}");
    let events = read_json_lines(EVENTS);
    assert_eq!(events.len(), 5);
    assert_eq!(rg_matches(&events, 0).len(), 1);
}

#[test]
fn search_backend_failures_are_told() {
    let v = rg_content_search(&RgEnd::SpawnFailed("gone".to_string()), "content", 0, 50, 0);
    assert!(v.text_at("error").unwrap().contains("gone"));
    let v = rg_content_search(
        &RgEnd::Done { code: Some(2), stdout: Vec::new(), stderr: b"bad regex".to_vec() },
        "content",
        0,
        50,
        0,
    );
    assert!(v.text_at("error").unwrap().contains("bad regex"));
    let v = rg_content_search(
        &RgEnd::Done { code: Some(1), stdout: Vec::new(), stderr: Vec::new() },
        "content",
        0,
        50,
        0,
    );
    assert_eq!(list_at(&v, "matches").len(), 0);
}

#[test]
fn search_arguments_name_the_pattern_and_root() {
    let args = rg_arguments("-x", "/w", &Some("*.rs".to_string()), 2);
    assert_eq!(
        args,
        vec!["--json", "--no-heading", "-e", "-x", "/w", "-g", "*.rs", "-C", "2"]
    );
    assert_eq!(rg_arguments("x", "/w", &None, 0).len(), 5);
}

fn found(path: &str, line: u64) -> Match {
    Match {
        path: path.to_string(),
        line,
        column: 1,
        content: format!("line {line}"),
        context: None,
    }
}

#[test]
fn pages_of_matches_follow() {
    let all = vec![found("/a", 1), found("/a", 2), found("/b", 3)];
    let first = build_payload(&all, "content", 2, 0);
    let second = build_payload(&all, "content", 2, 2);
    assert_eq!(list_at(&first, "matches").len(), 2);
    assert!(first.flag_at("truncated"));
    assert_eq!(list_at(&second, "matches").len(), 1);
    assert!(!second.flag_at("truncated"));
    let counts = build_payload(&all, "count", 50, 0);
    assert_eq!(list_at(&counts, "counts")[0].number_at("count"), Some(2));
    assert_eq!(list_at(&counts, "counts")[1].number_at("count"), Some(1));
}

#[test]
fn files_that_are_no_text_are_passed_over() {
    let files = vec![
        WalkedFile { path: "/w/bin".to_string(), text: None },
        walked("/w/t", "x needle\nnone\nneedle needle\n"),
    ];
    let hits = walk_search(&files, "needle");
    assert_eq!(hits.len(), 3);
    assert_eq!(hits[0].column, 3);
    assert_eq!(hits[1].line, 3);
    assert_eq!(hits[2].column, 8);
    assert!(walk_search(&vec![walked("/w/t.png", "needle")], "needle").is_empty());
}
