use perry_hermes_agent::message::{Message, Role};
use perry_hermes_agent::session::{ArchivePlan, SessionRole};
use perry_hermes_agent::session_registry::{
    archive_timestamp, format_session_id, sub_session_key, StoredSession,
};
use perry_hermes_agent::tool::Environment;
use perry_hermes_agent::{default_sessions_dir, AgentSession, SessionRegistry};

fn texts(messages: &Vec<Message>) -> Vec<String> {
    messages.iter().map(|m| m.content.as_text()).collect()
}

#[test]
fn system_message_lives_in_its_own_field_not_in_messages() {
    let mut session = AgentSession::new("s", "/tmp", Some(Message::system("system prompt")));
    session.append_message(Message::user("first request"));

    assert_eq!(texts(&session.messages()), vec!["first request"]);
    assert_eq!(
        texts(&session.outbound_messages()),
        vec!["system prompt", "first request"]
    );
}

#[test]
fn reset_preserves_system_message_and_clears_business_log() {
    let mut session = AgentSession::new("s", "/tmp", Some(Message::system("system prompt")));
    session.append_message(Message::user("first"));
    session.append_message(Message::user("second"));
    session.reset();

    assert!(session.messages().is_empty());
    assert_eq!(texts(&session.outbound_messages()), vec!["system prompt"]);
}

#[test]
fn replace_messages_does_not_touch_system_message() {
    let mut session = AgentSession::new("s", "/tmp", Some(Message::system("system prompt")));
    session.replace_messages(vec![
        Message::user("first"),
        Message::user("[SUMMARY] condensed"),
    ]);
    assert_eq!(
        texts(&session.outbound_messages()),
        vec!["system prompt", "first", "[SUMMARY] condensed"]
    );
}

#[test]
fn session_owns_identity_and_working_directory_directly() {
    let session = AgentSession::new("s", "/tmp/project", None);
    assert_eq!(session.session_id, "s");
    assert_eq!(session.working_dir, "/tmp/project");
}

#[test]
fn json_file_store_asks_for_snapshots_to_be_written() {
    let mut session =
        AgentSession::new("session-1", "/tmp/project", Some(Message::system("system prompt")))
            .with_json_file_store("/data/sessions/session-1.json");

    let save = session.append_message(Message::user("hello")).unwrap();
    assert_eq!(save.dir.as_deref(), Some("/data/sessions"));
    assert_eq!(save.path, "/data/sessions/session-1.json");
    assert!(session.remember_context_usage_baseline(0).is_none());
    let save = session.remember_context_usage_baseline(123).unwrap();

    assert_eq!(save.snapshot.session_id, "session-1");
    assert_eq!(save.snapshot.working_dir, "/tmp/project");
    assert_eq!(save.snapshot.system_message.unwrap().role, Role::System);
    assert_eq!(save.snapshot.messages[0].role, Role::User);
    assert_eq!(save.snapshot.messages[0].content.as_text(), "hello");
    assert_eq!(save.snapshot.context_usage_baseline_tokens, Some(123));
}

#[test]
fn a_session_without_a_file_writes_nothing() {
    let mut session = AgentSession::new("s", "/tmp", None);
    assert!(session.append_message(Message::user("x")).is_none());
    assert!(session.replace_messages(Vec::new()).is_none());
    assert!(session.reset().is_none());
    assert!(session.remember_context_usage_baseline(5).is_none());
}

#[test]
fn json_file_store_loads_history_but_uses_current_cwd() {
    let mut original = AgentSession::new(
        "session-1",
        "/tmp/original-project",
        Some(Message::system("persisted system prompt")),
    )
    .with_json_file_store("/data/session-1.json");
    original.append_message(Message::user("hello"));
    let save = original.remember_context_usage_baseline(123).unwrap();

    let restored = AgentSession::load_json_file_with_system_message(
        "/data/session-1.json",
        save.snapshot,
        Some("/cwd".to_string()),
        None,
    );
    assert_eq!(restored.session_id, "session-1");
    assert_eq!(restored.working_dir, "/cwd");
    assert_eq!(
        texts(&restored.outbound_messages()),
        vec!["persisted system prompt", "hello"]
    );
    assert_eq!(restored.compacted_context_tokens(7), Some(130));
}

#[test]
fn reading_back_without_overrides_gives_the_session_back() {
    let mut session = AgentSession::new("id", "/w", Some(Message::system("sys")))
        .with_json_file_store("/d/id.json")
        .with_subagent_identity("parent");
    session.append_message(Message::user("a"));
    let save = session.remember_context_usage_baseline(9).unwrap();
    let back =
        AgentSession::load_json_file_with_system_message(&save.path, save.snapshot, None, None);
    assert_eq!(back.session_id, session.session_id);
    assert_eq!(back.working_dir, session.working_dir);
    assert_eq!(back.role, SessionRole::SubAgent);
    assert_eq!(back.parent_session_id.as_deref(), Some("parent"));
    assert_eq!(texts(&back.outbound_messages()), texts(&session.outbound_messages()));
    assert_eq!(back.context_usage_baseline_tokens, Some(9));
    assert_eq!(back.store.unwrap().path, "/d/id.json");
}

#[test]
fn only_the_first_tokens_are_remembered() {
    let mut session = AgentSession::new("s", "/tmp", None);
    assert_eq!(session.compacted_context_tokens(7), None);
    session.remember_context_usage_baseline(0);
    session.remember_context_usage_baseline(100);
    session.remember_context_usage_baseline(900);
    assert_eq!(session.compacted_context_tokens(7), Some(107));
    assert_eq!(session.compacted_context_tokens(u64::MAX), Some(u64::MAX));
    session.reset();
    assert_eq!(session.compacted_context_tokens(7), None);
}

#[test]
fn with_subagent_identity_preserves_log_and_stamps_role() {
    let mut original = AgentSession::new("k", "/tmp/p", None);
    original.append_message(Message::user("shared"));
    let patched = original.with_subagent_identity("parent_x");
    assert_eq!(patched.role, SessionRole::SubAgent);
    assert_eq!(patched.parent_session_id.as_deref(), Some("parent_x"));
    assert_eq!(texts(&patched.messages()), vec!["shared"]);
    assert_eq!(patched.session_id, "k");
    assert_eq!(patched.working_dir, "/tmp/p");
}

#[test]
fn archive_to_moves_file_to_target_dir() {
    let mut session = AgentSession::new("k", "/tmp/p", None).with_json_file_store("/s/k.json");
    session.append_message(Message::user("hello"));
    match session.archive_to("/archive", "20260101T000000000Z") {
        ArchivePlan::Move { dir, from, target, snapshot } => {
            assert_eq!(dir, "/archive");
            assert_eq!(from, "/s/k.json");
            assert_eq!(target, "/archive/k_20260101T000000000Z.json");
            assert_eq!(snapshot.messages.len(), 1);
        }
        ArchivePlan::NoStore { .. } => panic!("there is a file"),
    }
    session.clear_in_memory_only();
    assert!(session.messages().is_empty());
}

#[test]
fn archive_to_with_no_store_returns_ok_with_no_filesystem_effect() {
    let session = AgentSession::new("k", "/tmp/p", None);
    match session.archive_to("/archive", "x") {
        ArchivePlan::NoStore { target } => assert_eq!(target, "/archive/k_no-store.json"),
        ArchivePlan::Move { .. } => panic!("there is no file"),
    }
}

#[test]
fn format_session_id_replaces_colons_and_dashes() {
    assert_eq!(format_session_id("telegram:dm:123"), "telegram_dm_123");
}

#[test]
fn format_session_id_leaves_the_rest_alone() {
    assert_eq!(format_session_id("a-b:c d.é_"), "a_b_c d.é_");
    assert_eq!(format_session_id(""), "");
}

fn registry() -> SessionRegistry {
    SessionRegistry::new("/data/sessions", "/work", Some(Message::system("sys")))
}

#[test]
fn get_or_create_returns_shared_entry() {
    let mut registry = SessionRegistry::new("/data", "/work", None);
    assert_eq!(
        registry.pending_load("telegram:dm:123").as_deref(),
        Some("/data/telegram_dm_123.json")
    );
    let a = registry.get_or_create("telegram:dm:123", StoredSession::Absent, 5);
    registry.entries[a].session.append_message(Message::user("said"));
    assert!(registry.pending_load("telegram:dm:123").is_none());
    let b = registry.get_or_create("telegram:dm:123", StoredSession::Corrupt, 9);
    assert_eq!(a, b);
    assert_eq!(registry.entries[b].created_at, 5);
    assert_eq!(registry.entries[b].last_active, 9);
    assert_eq!(texts(&registry.entries[b].session.messages()), vec!["said"]);
    assert_eq!(registry.len(), 1);
}

#[test]
fn reset_archives_then_clears() {
    let mut registry = registry();
    let slot = registry.get_or_create("k", StoredSession::Absent, 1);
    registry.entries[slot].session.append_message(Message::user("hi"));

    match registry.archive_plan("k", "STAMP") {
        Some(ArchivePlan::Move { dir, from, target, snapshot }) => {
            assert_eq!(dir, "/data/sessions/.archive/k");
            assert_eq!(from, "/data/sessions/k.json");
            assert_eq!(target, "/data/sessions/.archive/k/STAMP.json");
            assert_eq!(snapshot.session_id, "k");
            assert_eq!(snapshot.messages[0].content.as_text(), "hi");
        }
        _ => panic!("k is in use and has a file"),
    }
    let (found, save) = registry.reset("k", 7);
    assert!(found);
    let save = save.unwrap();
    assert_eq!(save.path, "/data/sessions/k.json");
    assert!(save.snapshot.messages.is_empty());
    assert_eq!(registry.entries[slot].last_active, 7);
    let session = registry.get_session("k").unwrap();
    assert!(session.messages().is_empty());
    assert_eq!(texts(&session.outbound_messages()), vec!["sys"]);
}

#[test]
fn reset_nonexistent_returns_false() {
    let mut registry = registry();
    let (found, save) = registry.reset("nonexistent", 1);
    assert!(!found);
    assert!(save.is_none());
}

#[test]
fn get_or_create_loads_existing_snapshot() {
    let mut old = AgentSession::new("telegram_dm_123", "/tmp/old", None).with_json_file_store("/x");
    old.append_message(Message::user("hi"));
    let save = old.append_message(Message::assistant("hello")).unwrap();

    let mut registry = registry();
    let slot = registry.get_or_create("telegram:dm:123", StoredSession::Loaded(save.snapshot), 3);
    let session = &registry.entries[slot].session;
    assert_eq!(texts(&session.messages()), vec!["hi", "hello"]);
    assert_eq!(session.working_dir, "/work");
    assert_eq!(texts(&session.outbound_messages())[0], "sys");
}

#[test]
fn get_or_create_loads_sub_agent_identity() {
    let old = AgentSession::new("telegram_dm_sub", "/tmp/old", None)
        .with_subagent_identity("parent_key");
    let mut registry = registry();
    let slot =
        registry.get_or_create("telegram:dm:sub", StoredSession::Loaded(old.snapshot()), 3);
    assert_eq!(registry.entries[slot].session.role, SessionRole::SubAgent);
    assert_eq!(
        registry.entries[slot].session.parent_session_id.as_deref(),
        Some("parent_key")
    );
}

#[test]
fn get_or_create_recovers_from_corrupt_json() {
    let mut registry = registry();
    let (dir, target) = registry.corrupt_target("telegram:dm:123", "STAMP");
    assert_eq!(dir, "/data/sessions/.archive/telegram_dm_123");
    assert_eq!(target, "/data/sessions/.archive/telegram_dm_123/STAMP.corrupt.json");
    let slot = registry.get_or_create("telegram:dm:123", StoredSession::Corrupt, 1);
    assert!(registry.entries[slot].session.messages().is_empty());
    assert_eq!(registry.entries[slot].session.session_id, "telegram_dm_123");
}

#[test]
fn archive_active_moves_file_and_clears_in_memory_messages() {
    let mut registry = registry();
    let slot = registry.get_or_create("k", StoredSession::Absent, 1);
    registry.entries[slot].session.append_message(Message::user("hi"));
    assert!(registry.archive_active("k", "STAMP", false).is_none());
    assert_eq!(registry.entries[slot].session.messages().len(), 1);
    assert_eq!(
        registry.archive_active("k", "STAMP", true).as_deref(),
        Some("/data/sessions/.archive/k/STAMP.json")
    );
    assert!(registry.entries[slot].session.messages().is_empty());
    let again = registry.get_or_create("k", StoredSession::Absent, 2);
    assert!(registry.entries[again].session.messages().is_empty());
}

#[test]
fn archive_active_returns_none_for_missing_key() {
    let mut registry = registry();
    assert!(registry.archive_active("nope", "STAMP", true).is_none());
    assert!(registry.archive_plan("nope", "STAMP").is_none());
}

#[test]
fn create_sub_session_sets_role_and_parent() {
    let mut registry = registry();
    registry.get_or_create("parent_key", StoredSession::Absent, 1);
    let slot =
        registry.create_sub_session("parent_key", "sub-1", "STAMP", StoredSession::Absent, 2);
    let child = &registry.entries[slot].session;
    assert_eq!(child.role, SessionRole::SubAgent);
    assert_eq!(child.parent_session_id.as_deref(), Some("parent_key"));
    assert_eq!(child.session_id, "parent_key__sub_sub_1__STAMP");
    assert_eq!(registry.len(), 2);
    assert_eq!(sub_session_key("p", "s", "t"), "p__sub_s__t");
    assert!(registry.get_session("parent_key__sub_sub-1__STAMP").is_some());
    assert_eq!(registry.get_session("parent_key").unwrap().role, SessionRole::Root);
}

#[test]
fn an_empty_registry_holds_nothing() {
    let mut registry = registry();
    assert!(registry.is_empty());
    assert_eq!(registry.len(), 0);
    assert!(registry.get_session("a").is_none());
    for (i, key) in ["a", "b", "c", "a", "b"].iter().enumerate() {
        registry.get_or_create(key, StoredSession::Absent, i as i64);
    }
    assert_eq!(registry.len(), 3);
    assert!(!registry.is_empty());
    assert_eq!(registry.get_session("c").unwrap().session_id, "c");
}

#[test]
fn stamps_show_the_time_in_utc() {
    assert_eq!(archive_timestamp(947_638_923_004).as_deref(), Some("20000112T010203004Z"));
    assert_eq!(archive_timestamp(0).as_deref(), Some("19700101T000000000Z"));
    assert!(archive_timestamp(i64::MAX).is_none());
}

#[test]
fn sessions_are_kept_below_the_home() {
    let mut env = Environment { home: None, hermes_home: None, profile: None };
    assert_eq!(default_sessions_dir(&env), ".perry_hermes/sessions");
    env.home = Some("/home/u".to_string());
    assert_eq!(default_sessions_dir(&env), "/home/u/.perry_hermes/sessions");
    env.hermes_home = Some("/h".to_string());
    assert_eq!(default_sessions_dir(&env), "/h/sessions");
}
