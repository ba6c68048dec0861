use perry_hermes_agent::json::Json;
use perry_hermes_agent::message::ToolCall;
use perry_hermes_agent::tool::ToolError;
use perry_hermes_agent::tool_catalog::{build_registry, InMemoryRegistry, ToolSchema};

const SKILLS: &str = "/tmp/perry-hermes-test-skills";

fn names(disabled: &[&str]) -> Vec<String> {
    let disabled: Vec<String> = disabled.iter().map(|s| s.to_string()).collect();
    build_registry(&disabled, SKILLS).schemas().into_iter().map(|s| s.name).collect()
}

#[test]
fn runtime_disables_terminal_toolset_from_registry() {
    let names = names(&["terminal"]);
    assert!(!names.iter().any(|n| n == "terminal"));
}

#[test]
fn legacy_core_disables_shell_tool() {
    let names = names(&["core"]);
    assert!(!names.iter().any(|n| n == "terminal"));
}

#[test]
fn file_toolset_disables_read_write_patch_and_search() {
    let names = names(&["file"]);
    assert!(!names.iter().any(|n| n == "read_file"));
    assert!(!names.iter().any(|n| n == "write_file"));
    assert!(!names.iter().any(|n| n == "patch"));
    assert!(!names.iter().any(|n| n == "search_files"));
}

#[test]
fn skills_toolset_disables_list_and_view() {
    let names = names(&["skills"]);
    assert!(!names.iter().any(|n| n == "skills_list"));
    assert!(!names.iter().any(|n| n == "skill_view"));
}

#[test]
fn default_registry_includes_all_seven_tools() {
    let names = names(&[]);
    assert!(names.iter().any(|n| n == "terminal"));
    assert!(names.iter().any(|n| n == "read_file"));
    assert!(names.iter().any(|n| n == "write_file"));
    assert!(names.iter().any(|n| n == "patch"));
    assert!(names.iter().any(|n| n == "search_files"));
    assert!(names.iter().any(|n| n == "skills_list"));
    assert!(names.iter().any(|n| n == "skill_view"));
}

#[test]
fn patch_schema_carries_reference_parameters() {
    let registry = build_registry(&Vec::new(), SKILLS);
    let patch = &registry.get("patch").expect("patch must be registered").parameters;
    let props = patch.get("properties").expect("properties object");
    for key in [
        "mode",
        "path",
        "old_string",
        "new_string",
        "replace_all",
        "patch",
        "cross_profile",
    ] {
        assert!(props.get(key).is_some(), "patch missing parameter {key}");
    }
}

#[test]
fn search_files_schema_carries_reference_parameters() {
    let registry = build_registry(&Vec::new(), SKILLS);
    let search = &registry.get("search_files").expect("search_files must be registered").parameters;
    let props = search.get("properties").expect("properties object");
    for key in [
        "pattern",
        "target",
        "path",
        "file_glob",
        "limit",
        "offset",
        "output_mode",
        "context",
    ] {
        assert!(props.get(key).is_some(), "search_files missing parameter {key}");
    }
}

#[test]
fn registering_a_name_again_replaces_the_tool() {
    let registry = InMemoryRegistry::new()
        .register(ToolSchema::new("a", "first", Json::object()))
        .register(ToolSchema::new("b", "other", Json::object()))
        .register(ToolSchema::new("a", "second", Json::object()));
    assert_eq!(registry.schemas().len(), 2);
    assert_eq!(registry.get("a").unwrap().description, "second");
    assert_eq!(registry.get("b").unwrap().description, "other");
    assert!(registry.get("c").is_none());
}

fn call(name: &str, arguments: &str) -> ToolCall {
    ToolCall {
        id: "call_1".to_string(),
        name: name.to_string(),
        arguments: Json::parse(arguments).unwrap(),
    }
}

#[test]
fn unknown_tools_and_bad_arguments_are_refused() {
    let registry = build_registry(&Vec::new(), SKILLS);
    match registry.dispatch_tool(&call("nope", "{}")) {
        Err(ToolError::NotFound(name)) => assert_eq!(name, "nope"),
        _ => panic!("there is no such tool"),
    }
    match registry.dispatch_tool(&call("terminal", "{}")) {
        Err(e) => {
            assert!(matches!(e, ToolError::InvalidArgs(_)));
            assert!(e.message().contains("command"));
        }
        Ok(_) => panic!("the command is missing"),
    }
    let args = registry.dispatch_tool(&call("terminal", "{\"command\": \"true\"}")).ok().unwrap();
    assert_eq!(args.render(), "{\"command\":\"true\"}");
}
