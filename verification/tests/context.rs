use perry_hermes_agent::context::compressor::{
    build_summary_message as compressor_summary_message,
    build_summary_prompt as compressor_summary_prompt, clamp_summary,
    estimate_tokens as compressor_estimate_tokens, find_head_boundary as compressor_head_boundary,
    find_tail_cut_by_tokens as compressor_tail_cut, floor_threshold,
    messages_to_transcript as compressor_transcript,
    prune_old_tool_results as compressor_prune, CompressPlan, CompressStep, CompressorConfig,
    ContextCompressor, ContextLimits, SummaryStep, SUMMARY_PREFIX as COMPRESSOR_SUMMARY_PREFIX,
};
use perry_hermes_agent::context::double::nearest_double;
use perry_hermes_agent::context::pruning::{
    estimate_message_chars, estimate_tokens, find_head_boundary, find_tail_cut_by_tokens,
    prune_old_tool_results,
};
use perry_hermes_agent::context::summary::{
    build_summary_message, build_summary_prompt, messages_to_transcript, SUMMARY_PREFIX,
};
use perry_hermes_agent::message::{Content, Message, ProviderError, Role};

fn user_msg(text: &str) -> Message {
    Message::user(text)
}

fn system_msg(text: &str) -> Message {
    Message::system(text)
}

fn assistant_msg(text: &str) -> Message {
    Message::assistant(text)
}

fn tool_msg(tool_call_id: &str, text: &str) -> Message {
    Message::tool_result(tool_call_id, text)
}

fn test_config() -> CompressorConfig {
    CompressorConfig::default()
}

/// The limits of a context of `length` tokens, half of which may be used
/// and a fifth of that half for a summary.
fn limits(length: u64) -> ContextLimits {
    let threshold = floor_threshold((length as f64 * 0.50) as u64);
    ContextLimits {
        context_length: length,
        threshold_tokens: threshold,
        summary_tokens: clamp_summary((threshold as f64 * 0.20) as u64),
    }
}

#[test]
fn config_default_threshold_tokens() {
    assert_eq!(limits(128_000).threshold_tokens, 64_000);
}

#[test]
fn config_minimum_context_floor() {
    assert_eq!(limits(1_000).threshold_tokens, 8_000);
}

#[test]
fn config_summary_target_tokens() {
    let target = limits(128_000).summary_tokens;
    assert!(target >= 2_000);
    assert!(target <= 12_000);
}

#[test]
fn summary_target_is_clamped() {
    assert_eq!(clamp_summary(0), 2_000);
    assert_eq!(clamp_summary(2_000), 2_000);
    assert_eq!(clamp_summary(5_000), 5_000);
    assert_eq!(clamp_summary(12_001), 12_000);
}

#[test]
fn on_session_reset_clears_state() {
    let mut compressor =
        ContextCompressor::new(CompressorConfig::default(), "test".into(), limits(128_000));
    compressor.previous_summary = Some("old summary".into());
    compressor.ineffective_count = 5;

    compressor.on_session_reset();

    assert!(compressor.previous_summary.is_none());
    assert_eq!(compressor.ineffective_count, 0);
}

#[test]
fn update_model_changes_threshold() {
    let mut compressor =
        ContextCompressor::new(CompressorConfig::default(), "old-model".into(), limits(128_000));
    let old_threshold = compressor.threshold_tokens();

    compressor.update_model("new-model", limits(256_000));

    assert_ne!(compressor.threshold_tokens(), old_threshold);
    assert_eq!(compressor.threshold_tokens(), 128_000);
}

#[test]
fn should_compress_returns_false_after_two_ineffective() {
    let mut compressor =
        ContextCompressor::new(CompressorConfig::default(), "test".into(), limits(128_000));
    assert!(compressor.should_compress());

    compressor.ineffective_count = 1;
    assert!(compressor.should_compress());

    compressor.ineffective_count = 2;
    assert!(!compressor.should_compress());
}

#[test]
fn nothing_to_compress_when_head_meets_tail() {
    let config = CompressorConfig { protect_first_n: 100, ..CompressorConfig::default() };
    let compressor = ContextCompressor::new(config, "test".into(), limits(128_000));
    let messages = vec![system_msg("sys"), user_msg("hello"), assistant_msg("hi")];
    match compressor.begin(&messages, None, false) {
        CompressStep::Done(out) => assert_eq!(out.len(), messages.len()),
        _ => panic!("below the threshold nothing happens"),
    }
    match compressor.begin(&messages, None, true) {
        CompressStep::NothingToCompress => {}
        _ => panic!("everything is protected"),
    }
}

#[test]
fn compressor_find_head_boundary_skips_system_messages() {
    let msgs = vec![
        system_msg("sys"),
        user_msg("a"),
        user_msg("b"),
        user_msg("c"),
        user_msg("d"),
    ];
    assert_eq!(compressor_head_boundary(&msgs, 3), 4);
}

#[test]
fn compressor_find_head_boundary_with_no_system() {
    let msgs = vec![user_msg("a"), user_msg("b"), user_msg("c")];
    assert_eq!(compressor_head_boundary(&msgs, 3), 3);
}

#[test]
fn compressor_find_head_boundary_all_messages_when_fewer_than_protected() {
    let msgs = vec![system_msg("sys"), user_msg("a")];
    assert_eq!(compressor_head_boundary(&msgs, 3), 2);
}

fn seven_messages() -> Vec<Message> {
    vec![
        system_msg("sys"),
        user_msg("u1"),
        assistant_msg("a1"),
        user_msg("u2"),
        assistant_msg("a2"),
        user_msg("u3"),
        assistant_msg("a3"),
    ]
}

#[test]
fn compressor_find_tail_cut_forces_middle_when_budget_covers_everything() {
    let msgs = seven_messages();
    let config = CompressorConfig { protect_tail_tokens: 12_000, ..test_config() };

    let tail_start = compressor_tail_cut(&msgs, 2, &config);

    assert_eq!(tail_start, 4);
}

fn four_messages() -> Vec<Message> {
    vec![
        system_msg("sys"),
        user_msg("hello"),
        tool_msg("call_1", "some very long tool output that should be pruned"),
        user_msg("followup"),
    ]
}

fn messages_after_a_tool() -> Vec<Message> {
    vec![
        system_msg("sys"),
        user_msg("hello"),
        tool_msg("call_1", "some very long tool output that should be pruned"),
        user_msg("followup"),
        assistant_msg("response"),
        user_msg("another"),
        assistant_msg("reply"),
    ]
}

#[test]
fn compressor_prune_old_tool_results_replaces_middle_tool_outputs() {
    let (pruned, _) = compressor_prune(&four_messages(), &test_config());
    assert_eq!(pruned.len(), 4);

    let tiny_config = CompressorConfig { protect_tail_tokens: 5, ..test_config() };
    let (pruned, _chars_saved) = compressor_prune(&messages_after_a_tool(), &tiny_config);
    assert!(
        pruned[2].content.as_text().contains("[Old tool output cleared"),
        "expected pruned text, got: {:?}",
        pruned[2].content.as_text()
    );
}

#[test]
fn compressor_estimate_tokens_basic() {
    let msgs = vec![user_msg("hello world")];
    let tokens = compressor_estimate_tokens(&msgs);
    assert_eq!(tokens, 2);
}

#[test]
fn compressor_build_summary_prompt_includes_focus_topic() {
    let prompt = compressor_summary_prompt("some conversation", None, Some("task-X"), 12_000);
    assert!(
        prompt.contains("Prioritize preserving information related to: task-X"),
        "expected focus topic in prompt: {prompt}"
    );
}

#[test]
fn compressor_build_summary_prompt_update_mode() {
    let prompt = compressor_summary_prompt("new turns", Some("old summary"), None, 12_000);
    assert!(prompt.contains("Existing Summary"), "expected update mode: {prompt}");
    assert!(prompt.contains("old summary"), "expected old summary text: {prompt}");
}

#[test]
fn compressor_build_summary_message_has_prefix() {
    let msg = compressor_summary_message("test summary");
    assert!(msg.content.as_text().starts_with(COMPRESSOR_SUMMARY_PREFIX));
    assert!(msg.content.as_text().contains("test summary"));
    assert_eq!(msg.role, Role::User);
}

#[test]
fn compressor_messages_to_transcript_formats_roles() {
    let msgs = vec![user_msg("hello"), assistant_msg("hi there")];
    let transcript = compressor_transcript(&msgs);
    assert!(transcript.contains("[user] hello"));
    assert!(transcript.contains("[assistant] hi there"));
}

#[test]
fn pruning_find_head_boundary_skips_system_messages() {
    let msgs = vec![
        system_msg("sys"),
        user_msg("a"),
        user_msg("b"),
        user_msg("c"),
        user_msg("d"),
    ];
    assert_eq!(find_head_boundary(&msgs, 3), 4);
}

#[test]
fn pruning_find_head_boundary_with_no_system() {
    let msgs = vec![user_msg("a"), user_msg("b"), user_msg("c")];
    assert_eq!(find_head_boundary(&msgs, 3), 3);
}

#[test]
fn pruning_find_head_boundary_all_messages_when_fewer_than_protected() {
    let msgs = vec![system_msg("sys"), user_msg("a")];
    assert_eq!(find_head_boundary(&msgs, 3), 2);
}

#[test]
fn a_head_of_no_messages_holds_the_system_prompt_only() {
    assert_eq!(find_head_boundary(&vec![user_msg("a"), user_msg("b")], 0), 0);
    assert_eq!(find_head_boundary(&vec![system_msg("sys"), user_msg("a")], 0), 1);
    assert_eq!(find_head_boundary(&vec![user_msg("a"), system_msg("s"), user_msg("b")], 0), 0);
    assert_eq!(find_head_boundary(&vec![], 0), 0);
    assert_eq!(find_head_boundary(&vec![user_msg("a"), system_msg("s"), user_msg("b")], 1), 1);
    assert_eq!(find_head_boundary(&vec![user_msg("a"), system_msg("s"), user_msg("b")], 2), 3);
}

#[test]
fn a_failed_summary_is_tried_once_more() {
    let limits = ContextLimits {
        context_length: 128_000,
        threshold_tokens: 64_000,
        summary_tokens: 2_000,
    };
    let config = CompressorConfig { protect_first_n: 1, protect_tail_tokens: 0 };
    let compressor = ContextCompressor::new(config, "m".to_string(), limits);
    let plan = match compressor.begin(&seven_messages(), None, true) {
        CompressStep::Summarize(plan) => plan,
        _ => panic!("there is a middle"),
    };
    match compressor.after_first_call(&plan, None, Ok("text".to_string())) {
        SummaryStep::Summarized(text) => assert_eq!(text, "text"),
        _ => panic!("the call gave a text"),
    }
    let down = || ProviderError::Transport("down".to_string());
    match compressor.after_first_call(&plan, None, Err(down())) {
        SummaryStep::Retry(prompt) => {
            assert_eq!(prompt, compressor.retry(&plan, None).unwrap());
            assert_ne!(prompt, plan.prompt);
        }
        _ => panic!("there is a second try"),
    }
    let end = plan.messages.len();
    let last = CompressPlan { head_end: end - 1, tail_start: end, ..plan };
    match compressor.after_first_call(&last, None, Err(down())) {
        SummaryStep::Failed(e) => assert_eq!(e, "transport error: down"),
        _ => panic!("nothing is left to summarize"),
    }
    assert_eq!(ContextCompressor::after_second_call(Ok("late".to_string())), Ok("late".to_string()));
    assert_eq!(
        ContextCompressor::after_second_call(Err(ProviderError::Cancelled)),
        Err("cancelled".to_string())
    );
}

#[test]
fn pruning_find_tail_cut_forces_middle_when_budget_covers_everything() {
    let msgs = seven_messages();
    let config = CompressorConfig { protect_tail_tokens: 12_000, ..test_config() };

    let tail_start = find_tail_cut_by_tokens(&msgs, 2, &config);

    assert_eq!(tail_start, 4);
}

#[test]
fn pruning_prune_old_tool_results_replaces_middle_tool_outputs() {
    let (pruned, _) = prune_old_tool_results(&four_messages(), &test_config());
    assert_eq!(pruned.len(), 4);

    let tiny_config = CompressorConfig { protect_tail_tokens: 5, ..test_config() };
    let (pruned, _chars_saved) = prune_old_tool_results(&messages_after_a_tool(), &tiny_config);
    if let Content::Text(ref t) = pruned[2].content {
        assert!(t.contains("[Old tool output cleared"), "expected pruned text, got: {t}");
    } else {
        panic!("expected Text content");
    }
}

#[test]
fn pruning_keeps_the_id_and_all_other_messages() {
    let tiny_config = CompressorConfig { protect_tail_tokens: 5, ..test_config() };
    let before = messages_after_a_tool();
    let (pruned, saved) = prune_old_tool_results(&before, &tiny_config);
    assert_eq!(pruned[2].tool_call_id.as_deref(), Some("call_1"));
    assert_eq!(pruned[2].role, Role::Tool);
    for i in [0, 1, 3, 4, 5, 6] {
        assert_eq!(pruned[i].content.as_text(), before[i].content.as_text());
    }
    assert!(saved > 0 || pruned[2].content.as_text().len() >= 48);
}

#[test]
fn pruning_estimate_tokens_basic() {
    let msgs = vec![user_msg("hello world")];
    let tokens = estimate_tokens(&msgs);
    assert_eq!(tokens, 2);
    assert_eq!(estimate_message_chars(&msgs[0]), 11);
}

#[test]
fn summary_build_summary_prompt_includes_focus_topic() {
    let prompt = build_summary_prompt("some conversation", None, Some("task-X"), 12_000);
    assert!(
        prompt.contains("Prioritize preserving information related to: task-X"),
        "expected focus topic in prompt: {prompt}"
    );
}

#[test]
fn summary_build_summary_prompt_update_mode() {
    let prompt = build_summary_prompt("new turns", Some("old summary"), None, 12_000);
    assert!(prompt.contains("Existing Summary"), "expected update mode: {prompt}");
    assert!(prompt.contains("old summary"), "expected old summary text: {prompt}");
}

#[test]
fn summary_build_summary_message_has_prefix() {
    let msg = build_summary_message("test summary");
    if let Content::Text(ref t) = msg.content {
        assert!(t.starts_with(SUMMARY_PREFIX));
        assert!(t.contains("test summary"));
    } else {
        panic!("expected Text content");
    }
    assert_eq!(msg.role, Role::User);
}

#[test]
fn summary_messages_to_transcript_formats_roles() {
    let msgs = vec![
        Message {
            role: Role::User,
            content: Content::Text("hello".into()),
            reasoning: None,
            tool_call_id: None,
            tool_calls: None,
        },
        Message {
            role: Role::Assistant,
            content: Content::Text("hi there".into()),
            reasoning: None,
            tool_call_id: None,
            tool_calls: None,
        },
    ];
    let transcript = messages_to_transcript(&msgs);
    assert!(transcript.contains("[user] hello"));
    assert!(transcript.contains("[assistant] hi there"));
}

#[test]
fn compression_keeps_head_and_tail_and_remembers_the_summary() {
    let config = CompressorConfig { protect_first_n: 1, protect_tail_tokens: 5 };
    let mut compressor = ContextCompressor::new(config, "test".into(), limits(1_000));
    let long = "x".repeat(400);
    let mut messages = vec![system_msg("sys"), user_msg("first")];
    for _ in 0..10 {
        messages.push(assistant_msg(&long));
        messages.push(user_msg(&long));
    }
    messages.push(assistant_msg("penultimate"));
    messages.push(user_msg("last"));
    let plan = match compressor.begin(&messages, Some("names"), true) {
        CompressStep::Summarize(plan) => plan,
        _ => panic!("there is a middle to summarize"),
    };
    assert_eq!(plan.head_end, 2);
    assert!(plan.tail_start > plan.head_end);
    assert!(plan.prompt.contains("names"));
    let second = compressor.retry(&plan, Some("names")).expect("there is a middle left");
    assert!(second.contains("names"));
    assert!(second.len() <= plan.prompt.len());
    let out = compressor.finish(&plan, "short");
    assert_eq!(out[0].content.as_text(), "sys");
    assert_eq!(out[1].content.as_text(), "first");
    assert_eq!(out[2].content.as_text(), format!("{}\n{}", SUMMARY_PREFIX, "short"));
    assert_eq!(out[out.len() - 1].content.as_text(), "last");
    assert_eq!(compressor.previous_summary.as_deref(), Some("short"));
    assert_eq!(compressor.ineffective_count, 0);

    match compressor.begin(&out, None, true) {
        CompressStep::Summarize(plan) => assert!(plan.prompt.contains("short")),
        _ => {}
    }
}

#[test]
fn compression_that_saves_little_counts_as_ineffective() {
    let config = CompressorConfig { protect_first_n: 1, protect_tail_tokens: 1 };
    let mut compressor = ContextCompressor::new(config, "test".into(), limits(1_000));
    let messages = vec![user_msg("first"), assistant_msg("a"), user_msg("b"), user_msg("c")];
    let plan = match compressor.begin(&messages, None, true) {
        CompressStep::Summarize(plan) => plan,
        _ => panic!("there is a middle to summarize"),
    };
    compressor.finish(&plan, "a summary that is longer than what it stands for");
    assert_eq!(compressor.ineffective_count, 1);
    assert_eq!(compressor.name(), "compressor");
}

#[test]
fn small_numbers_are_exact_and_large_ones_round_to_even() {
    assert_eq!(nearest_double(0), 0);
    assert_eq!(nearest_double(9_007_199_254_740_992), 9_007_199_254_740_992);
    assert_eq!(nearest_double(9_007_199_254_740_993), 9_007_199_254_740_992);
    assert_eq!(nearest_double(9_007_199_254_740_995), 9_007_199_254_740_996);
    assert_eq!(nearest_double(u64::MAX), 18_446_744_073_709_551_616);
    for n in [1u64, 12_345_678_901_234_567, 1 << 60, (1 << 60) + 129, u64::MAX - 1024] {
        assert_eq!(nearest_double(n), n as f64 as u128);
    }
}
