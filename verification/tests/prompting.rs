use perry_hermes_agent::prompting::{
    build_system_message, compose_session_prompt_prefix, load_agents_md_block,
    resolve_home_dir, resolve_memories_dir, resolve_skills_dir, working_directory_hint,
    AgentsMdBlock, HomeLayoutBlock, LoadedBlock, MemoryBlock, MemoryTarget, DEFAULT_SYSTEM_PROMPT,
};
use perry_hermes_agent::tool::Environment;

fn env(home: Option<&str>, hermes_home: Option<&str>) -> Environment {
    Environment {
        home: home.map(|s| s.to_string()),
        hermes_home: hermes_home.map(|s| s.to_string()),
        profile: None,
    }
}

fn block(name: &str, body: Option<&str>) -> LoadedBlock {
    LoadedBlock { name: name.to_string(), body: body.map(|s| s.to_string()) }
}

fn text(working_dir: &str, blocks: Vec<LoadedBlock>) -> String {
    build_system_message(working_dir, "", &blocks).unwrap().content.as_text()
}

#[test]
fn resolve_returns_a_directory_path_that_ends_in_skills() {
    let dir = resolve_skills_dir(&env(None, Some("/tmp/h")), None).expect("skills dir should resolve");
    assert_eq!(dir, "/tmp/h/skills");
}

#[test]
fn resolve_skills_dir_falls_back_to_cwd_profile_when_env_is_unset() {
    let dir = resolve_skills_dir(&env(None, None), Some("/tmp/cwd"))
        .expect("skills dir should resolve from cwd fallback");
    assert_eq!(dir, "/tmp/cwd/.perry_hermes/skills");
    assert!(resolve_skills_dir(&env(None, None), None).is_none());
}

#[test]
fn resolve_memories_dir_returns_path_ending_in_memories() {
    let dir = resolve_memories_dir(&env(Some("/home/u"), Some("/tmp/h")), None)
        .expect("memories dir should resolve");
    assert_eq!(dir, "/tmp/h/memories");
    let dir = resolve_memories_dir(&env(Some("/home/u"), None), Some("/cwd")).unwrap();
    assert_eq!(dir, "/home/u/.perry_hermes/memories");
    assert_eq!(resolve_home_dir(&env(Some("/home/u"), None), None).unwrap(), "/home/u/.perry_hermes");
}

#[test]
fn load_agents_md_block_returns_none_when_file_is_missing() {
    assert!(load_agents_md_block(None).is_none());
}

#[test]
fn load_agents_md_block_returns_none_when_file_is_empty_or_whitespace() {
    assert!(load_agents_md_block(Some("")).is_none());
    assert!(load_agents_md_block(Some("   \n\n  \t\n")).is_none());
}

#[test]
fn load_agents_md_block_includes_body_with_project_guidance_label() {
    let block = load_agents_md_block(Some("Always run `cargo fmt` before commits.\n"))
        .expect("block should load");
    assert!(
        block.contains("Project guidance from `AGENTS.md`"),
        "block should label itself; got: {block}"
    );
    assert!(block.contains("Always run `cargo fmt` before commits."));
}

#[test]
fn load_agents_md_block_trims_surrounding_whitespace() {
    let block =
        load_agents_md_block(Some("\n\n  meaningful content  \n\n")).expect("block should load");
    assert!(block.contains("meaningful content"));
    assert!(!block.contains("  meaningful content  "));
}

#[test]
fn build_system_message_includes_working_dir_even_without_agents() {
    let text = text("/tmp/no-agents-md", Vec::new());
    assert!(text.contains("Current working directory: /tmp/no-agents-md"));
}

#[test]
fn build_system_message_includes_default_base_prompt_and_working_dir() {
    let text = text("/tmp/project", Vec::new());
    assert!(text.contains("Perry Hermes"));
    assert!(text.contains("Current working directory: /tmp/project"));
    assert!(!text.contains("Provider:"));
    assert!(!text.contains("Session ID:"));
}

#[test]
fn build_system_message_orders_base_agents_md_working_dir() {
    let agents = AgentsMdBlock::new("/elsewhere".to_string());
    assert_eq!(agents.path_for("/tmp/p"), "/tmp/p/AGENTS.md");
    let body = load_agents_md_block(Some("UNIQUE-AGENTS-MARKER-XYZ"));
    let text = text("/tmp/p", vec![LoadedBlock { name: agents.name().to_string(), body }]);

    let base_idx = text.find("Perry Hermes").expect("base present");
    let agents_idx = text.find("UNIQUE-AGENTS-MARKER-XYZ").expect("agents md present");
    let env_idx = text.find("Current working directory:").expect("env hints present");
    assert!(base_idx < agents_idx, "agents block should follow base");
    assert!(agents_idx < env_idx, "agents block should precede working-dir hint");
    assert_eq!(text.matches("UNIQUE-AGENTS-MARKER-XYZ").count(), 1);
}

#[test]
fn block_order_matches_input_slice() {
    let text = text(
        "/tmp",
        vec![block("ALPHA", Some("alpha body")), block("BETA", Some("beta body"))],
    );
    let alpha_idx = text.find("ALPHA\n\nalpha body").expect("alpha present");
    let beta_idx = text.find("BETA\n\nbeta body").expect("beta present");
    let dir_idx = text.find("Current working directory: /tmp").expect("dir present");
    assert!(alpha_idx < beta_idx, "alpha before beta");
    assert!(beta_idx < dir_idx, "blocks before working dir");
}

#[test]
fn none_block_is_silently_skipped() {
    let text = text("/tmp", vec![block("PRESENT", Some("p")), block("ABSENT", None)]);
    assert!(text.contains("PRESENT\n\np"));
    assert!(!text.contains("ABSENT"));
}

#[test]
fn empty_blocks_list_yields_only_base_and_working_dir() {
    let text = text("/tmp/project", Vec::new());
    assert_eq!(
        text,
        format!("{}\n\nCurrent working directory: /tmp/project", DEFAULT_SYSTEM_PROMPT.trim())
    );
}

#[test]
fn working_dir_hint_always_lands_last() {
    let text = text("/tmp/last", vec![block("Z_BLOCK", Some("z"))]);
    assert!(text.ends_with("Current working directory: /tmp/last"));
    assert_eq!(working_directory_hint("/tmp/last"), "Current working directory: /tmp/last");
}

#[test]
fn skills_follow_the_base_prompt() {
    let prefix = compose_session_prompt_prefix("Available skills: x");
    assert_eq!(prefix, format!("{DEFAULT_SYSTEM_PROMPT}\n\nAvailable skills: x"));
    assert_eq!(compose_session_prompt_prefix(""), DEFAULT_SYSTEM_PROMPT);
}

#[test]
fn memory_block_loads_entries_joined_by_blank_line() {
    let block = MemoryBlock::memory();
    let body = block
        .load(&vec!["first".to_string(), "second".to_string()])
        .expect("non-empty store should load");
    assert_eq!(body, "first\n\nsecond");
    assert_eq!(block.name(), "MEMORY");
    assert_eq!(block.target, MemoryTarget::Memory);
}

#[test]
fn memory_block_returns_none_for_empty_store() {
    let block = MemoryBlock::user();
    assert!(block.load(&Vec::new()).is_none());
    assert_eq!(block.name(), "USER");
    assert_eq!(block.target, MemoryTarget::User);
}

#[test]
fn home_layout_names_the_home_twice() {
    let block = HomeLayoutBlock;
    let text = block.load(Some("/srv/hermes"));
    assert_eq!(text.matches("/srv/hermes").count(), 2);
    assert!(text.contains("`/srv/hermes`"));
    assert!(text.contains("\n/srv/hermes/\n"));
    assert!(text.contains("config.toml"));
    assert!(block.load(None).contains("`$HOME/.perry_hermes`"));
    assert_eq!(block.name(), "PERRY_HERMES_HOME");
}
