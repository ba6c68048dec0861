use perry_hermes_agent::compaction::{
    build_summary_message, build_summary_prompt, messages_to_transcript, no_summary_provider,
    split_compaction_anchors, CompactError, SUMMARY_PREFIX,
};
use perry_hermes_agent::message::{
    Completion, Content, ContentPart, FinishReason, Message, ProviderError, Role, Usage,
};
use perry_hermes_agent::{CompactorConfig, SummaryCompactor};

fn user_msg(text: &str) -> Message {
    Message::user(text)
}

fn system_msg(text: &str) -> Message {
    Message::system(text)
}

fn assistant_msg(text: &str) -> Message {
    Message::assistant(text)
}

#[test]
fn default_summary_target_is_prompt_instruction_only() {
    let config = CompactorConfig::default();
    assert_eq!(config.max_summary_tokens, 8_000);
}

#[test]
fn compaction_build_summary_prompt_includes_focus_topic() {
    let prompt = build_summary_prompt("transcript", Some("shell commands"), 100);

    assert!(prompt.contains("shell commands"));
    assert!(prompt.contains("transcript"));
    assert!(prompt.contains("100"));
}

#[test]
fn compaction_build_summary_message_has_prefix() {
    let msg = build_summary_message("condensed");

    assert_eq!(msg.role, Role::User);
    assert!(msg.content.as_text().contains(SUMMARY_PREFIX));
    assert!(msg.content.as_text().contains("condensed"));
}

#[test]
fn compaction_messages_to_transcript_formats_roles() {
    let transcript = messages_to_transcript(&vec![user_msg("hello"), assistant_msg("hi")]);

    assert!(transcript.contains("[user] hello"));
    assert!(transcript.contains("[assistant] hi"));
}

#[test]
fn split_compaction_anchors_keeps_system_and_first_user() {
    let messages = vec![
        system_msg("system"),
        user_msg("first"),
        assistant_msg("answer"),
        user_msg("second"),
    ];

    let (anchors, compacted) = split_compaction_anchors(&messages).ok().unwrap();

    assert_eq!(anchors.len(), 2);
    assert_eq!(anchors[0].content.as_text(), "system");
    assert_eq!(anchors[1].content.as_text(), "first");
    assert_eq!(compacted.len(), 2);
}

#[test]
fn nothing_to_compact_when_only_anchor_exists() {
    let compactor = SummaryCompactor::new(CompactorConfig::default());
    let result = compactor.begin(&vec![system_msg("system"), user_msg("first")], None);
    assert!(matches!(result, Err(CompactError::NothingToCompress)));
}

#[test]
fn nothing_to_compact_without_a_user_message() {
    let compactor = SummaryCompactor::new(CompactorConfig::default());
    let result = compactor.begin(&vec![system_msg("system"), assistant_msg("hi")], None);
    match result {
        Err(e) => assert_eq!(e.message(), "nothing to compress"),
        Ok(_) => panic!("nothing there to compress"),
    }
}

#[test]
fn compacted_history_is_anchors_and_summary() {
    let compactor = SummaryCompactor::new(CompactorConfig::default());
    let messages = vec![
        system_msg("system"),
        user_msg("first"),
        assistant_msg("answer"),
        user_msg("second"),
    ];
    let plan = compactor.begin(&messages, Some("names")).ok().unwrap();
    let request = plan.request();
    assert_eq!(request.role, Role::User);
    let text = request.content.as_text();
    assert!(text.contains("[assistant] answer\n\n[user] second\n\n"));
    assert!(text.contains("names"));
    assert!(text.contains("8000"));
    assert!(!text.contains("[user] first"));

    let answer = Ok(Completion {
        message: assistant_msg("condensed"),
        usage: Usage { input_tokens: 1, cached_input_tokens: 2, output_tokens: 33 },
        finish_reason: FinishReason::Stop,
    });
    let done = plan.finish(&answer).ok().unwrap();
    assert_eq!(done.summary_usage.output_tokens, 33);
    assert_eq!(done.messages.len(), 3);
    assert_eq!(done.messages[0].content.as_text(), "system");
    assert_eq!(done.messages[1].content.as_text(), "first");
    assert_eq!(done.messages[2].role, Role::User);
    assert!(done.messages[2].content.as_text().starts_with(SUMMARY_PREFIX));
    assert!(done.messages[2].content.as_text().ends_with("condensed"));
}

#[test]
fn failed_summary_is_told() {
    let compactor = SummaryCompactor::new(CompactorConfig::default());
    let messages = vec![user_msg("first"), assistant_msg("answer")];
    let plan = compactor.begin(&messages, None).ok().unwrap();
    let error = plan
        .finish(&Err(ProviderError::Transport("summary provider down".to_string())))
        .err()
        .unwrap();
    assert_eq!(error.message(), "summary failed: transport error: summary provider down");

    let plan = compactor.begin(&messages, None).ok().unwrap();
    let error = plan.finish(&Err(no_summary_provider())).err().unwrap();
    assert!(error.message().contains("no provider available for summary"));
}

#[test]
fn transcript_reads_parts_as_text() {
    let parts = Message {
        role: Role::User,
        content: Content::Parts(vec![
            ContentPart::Text { text: "one".to_string() },
            ContentPart::ImageUrl { url: "http://x/y.png".to_string() },
        ]),
        reasoning: None,
        tool_call_id: None,
        tool_calls: None,
    };
    let transcript = messages_to_transcript(&vec![parts, Message::tool_result("c", "out")]);
    assert!(transcript.starts_with("[user] one"));
    assert!(transcript.ends_with("[tool] out\n\n"));
}
