use perry_hermes_agent::compaction::{CompactError, CompactionResult};
use perry_hermes_agent::json::Json;
use perry_hermes_agent::loop_engine::agent_loop::{
    strip_system_message, try_compact, CompactAttempt,
};
use perry_hermes_agent::loop_engine::events::{
    CompressionSkipReason, CompressionTrigger, LoopError, ToolCallDelta,
};
use perry_hermes_agent::loop_engine::metrics::{
    conclude_check, prompt_context_tokens_from_usage, validate_args, SchemaCheck,
};
use perry_hermes_agent::loop_engine::run::{
    build_failed_turn, Action, AgentRun, CompactOutcome, Phase, Reaction,
};
use perry_hermes_agent::loop_engine::stream::{CompletionDelta, StreamAccumulator};
use perry_hermes_agent::message::{
    Completion, FinishReason, Message, ProviderError, Role, ToolCall, Usage,
};
use perry_hermes_agent::tool::{ToolError, ToolOutput};
use perry_hermes_agent::tool_catalog::{build_registry, InMemoryRegistry};
use perry_hermes_agent::{
    AgentLoop, AgentRunError, AgentSession, CompactorConfig, ContextWindow, LoopConfig, LoopEvent,
    PerryHermesConfig, RunResult, SummaryCompactor,
};

const SKILLS: &str = "/tmp/perry-hermes-test-skills";

fn usage(input: u64, cached: u64, output: u64) -> Usage {
    Usage { input_tokens: input, cached_input_tokens: cached, output_tokens: output }
}

fn text_answer(text: &str, usage: Usage, finish_reason: FinishReason) -> Completion {
    Completion { message: Message::assistant(text), usage, finish_reason }
}

fn call(id: &str, name: &str, arguments: &str) -> ToolCall {
    ToolCall {
        id: id.to_string(),
        name: name.to_string(),
        arguments: Json::parse(arguments).unwrap(),
    }
}

fn tool_answer(calls: Vec<ToolCall>, usage: Usage) -> Completion {
    let mut message = Message::assistant("");
    message.tool_calls = Some(calls);
    Completion { message, usage, finish_reason: FinishReason::ToolUse }
}

enum Script {
    Answer(Completion),
    Fails(Option<Message>, ProviderError),
}

/// Runs a turn to its end. Tools that pass the checks echo their arguments.
fn drive(
    mut run: AgentRun,
    registry: &InMemoryRegistry,
    script: Vec<Script>,
    summary: Option<Completion>,
) -> (Result<RunResult, AgentRunError>, Vec<LoopEvent>) {
    let mut script = script.into_iter();
    let mut events: Vec<LoopEvent> = Vec::new();
    let mut reaction: Reaction = run.begin_iteration(false, 0);
    loop {
        events.extend(reaction.events);
        reaction = match reaction.action {
            Action::Ask => match script.next().expect("script is long enough") {
                Script::Answer(c) => run.completed(c),
                Script::Fails(partial, e) => return (Err(run.provider_failed(partial, e)), events),
            },
            Action::Compact => {
                let compactor = SummaryCompactor::new(CompactorConfig::default());
                let result = match compactor.begin(&run.messages, None) {
                    Ok(plan) => plan.finish(&Ok(text_answer(
                        &summary.as_ref().unwrap().message.content.as_text(),
                        summary.as_ref().unwrap().usage,
                        FinishReason::Stop,
                    ))),
                    Err(e) => Err(e),
                };
                run.compacted(try_compact(CompactAttempt::Finished(result), 11))
            }
            Action::NextTool => run.begin_tool(false),
            Action::CallTool(c) => match registry.dispatch_tool(&c) {
                Ok(args) => run.tool_done(Ok(ToolOutput { content: args.render() })),
                Err(e) => run.tool_done(Err(e)),
            },
            Action::NextIteration => run.begin_iteration(false, 0),
            Action::Finish(r) => return (Ok(r), events),
            Action::Fail(e) => return (Err(e), events),
        };
    }
}

fn config(max_iterations: u32) -> LoopConfig {
    LoopConfig { max_iterations, ..LoopConfig::default() }
}

fn compressing(threshold: u64) -> LoopConfig {
    LoopConfig {
        max_iterations: 5,
        compaction: true,
        context_window: Some(ContextWindow { max_tokens: 128_000, threshold }),
        ..LoopConfig::default()
    }
}

fn kinds(events: &Vec<LoopEvent>) -> Vec<&'static str> {
    events
        .iter()
        .map(|e| match e {
            LoopEvent::Thinking => "thinking",
            LoopEvent::ContentDelta(_) => "content",
            LoopEvent::ReasoningDelta(_) => "reasoning",
            LoopEvent::ToolCallPartial(_) => "partial",
            LoopEvent::AssistantMessage(_) => "message",
            LoopEvent::ToolCallStarted { .. } => "started",
            LoopEvent::ToolCallFinished { .. } => "finished",
            LoopEvent::LengthLimit => "length",
            LoopEvent::IterationsExhausted => "exhausted",
            LoopEvent::Cancelled => "cancelled",
            LoopEvent::ContextUsageUpdated { .. } => "usage",
            LoopEvent::CompressionCompleted { .. } => "compressed",
            LoopEvent::CompressionSkipped { .. } => "skipped",
            LoopEvent::CompressionFailed { .. } => "failed",
        })
        .collect()
}

fn used(events: &Vec<LoopEvent>) -> Vec<u64> {
    events
        .iter()
        .filter_map(|e| match e {
            LoopEvent::ContextUsageUpdated { used_tokens } => Some(*used_tokens),
            _ => None,
        })
        .collect()
}

fn roles(messages: &Vec<Message>) -> Vec<Role> {
    messages.iter().map(|m| m.role).collect()
}

#[test]
fn default_settings_are_as_documented() {
    let config = LoopConfig::default();
    assert_eq!(config.max_iterations, 90);
    assert_eq!(config.max_duration, 600_000_000_000);
    assert!(config.system_prompt.is_none());
    assert!(!config.compaction);
}

#[test]
fn context_window_uses_real_usage_threshold() {
    let threshold = (128_000u64 as f64 * 0.50) as u64;
    let window = ContextWindow { max_tokens: 128_000, threshold };

    assert!(!window.should_compress(63_999));
    assert!(window.should_compress(64_000));
    assert_eq!(window.threshold_tokens(), 64_000);
}

#[test]
fn loop_dispatches_tool_call_and_appends_tool_result_message() {
    let registry = build_registry(&Vec::new(), SKILLS);
    let run = AgentRun::start(&config(5), vec![Message::user("please run something")], None);
    let (result, events) = drive(
        run,
        &registry,
        vec![
            Script::Answer(tool_answer(
                vec![call("call_1", "terminal", "{\"command\": \"echo from-bash\"}")],
                Usage::none(),
            )),
            Script::Answer(text_answer("done", Usage::none(), FinishReason::Stop)),
        ],
        None,
    );
    let result = result.ok().expect("loop should succeed");
    assert_eq!(result.metrics.iterations, 2);
    assert_eq!(result.metrics.tool_calls, 1);
    assert_eq!(result.final_message.content.as_text(), "done");
    assert_eq!(
        roles(&result.messages),
        vec![Role::User, Role::Assistant, Role::Tool, Role::Assistant]
    );
    assert!(result.messages[1].tool_calls.is_some());
    assert!(result.messages[2].content.as_text().contains("from-bash"));
    assert_eq!(result.messages[2].tool_call_id.as_deref(), Some("call_1"));
    assert_eq!(
        kinds(&events),
        vec!["thinking", "message", "started", "finished", "thinking", "message"]
    );
}

#[test]
fn loop_turns_invalid_tool_args_into_tool_error_message_and_continues() {
    let registry = build_registry(&Vec::new(), SKILLS);
    let run = AgentRun::start(&config(5), vec![Message::user("try a tool call")], None);
    let (result, _) = drive(
        run,
        &registry,
        vec![
            Script::Answer(tool_answer(vec![call("call_bad", "terminal", "{}")], Usage::none())),
            Script::Answer(text_answer(
                "I see, I should have provided a command",
                Usage::none(),
                FinishReason::Stop,
            )),
        ],
        None,
    );
    let result = result.ok().expect("loop should survive invalid tool args");
    assert_eq!(result.metrics.iterations, 2);
    assert_eq!(result.metrics.tool_calls, 1);
    assert_eq!(result.messages.len(), 4);
    assert_eq!(result.messages[2].role, Role::Tool);
    let err_content = result.messages[2].content.as_text();
    assert!(err_content.contains("Error"));
    assert!(err_content.to_lowercase().contains("command"));
    assert_eq!(result.messages[2].tool_call_id.as_deref(), Some("call_bad"));
}

#[test]
fn every_call_of_an_answer_is_answered_in_order() {
    let registry = build_registry(&Vec::new(), SKILLS);
    let run = AgentRun::start(&config(5), vec![Message::user("x")], None);
    let (result, events) = drive(
        run,
        &registry,
        vec![
            Script::Answer(tool_answer(
                vec![call("a", "nope", "{}"), call("b", "terminal", "{\"command\":\"c\"}")],
                Usage::none(),
            )),
            Script::Answer(text_answer("done", Usage::none(), FinishReason::Stop)),
        ],
        None,
    );
    let result = result.ok().unwrap();
    assert_eq!(result.messages[2].tool_call_id.as_deref(), Some("a"));
    assert_eq!(result.messages[2].content.as_text(), "Error: tool not found: nope");
    assert_eq!(result.messages[3].tool_call_id.as_deref(), Some("b"));
    assert_eq!(result.metrics.tool_calls, 2);
    match &events[2] {
        LoopEvent::ToolCallStarted { call, iteration } => {
            assert_eq!(call.id, "a");
            assert_eq!(*iteration, 1);
        }
        _ => panic!("the first call starts first"),
    }
}

#[test]
fn loop_returns_partial_history_when_followup_provider_call_fails() {
    let registry = build_registry(&Vec::new(), SKILLS);
    let run = AgentRun::start(&config(5), vec![Message::user("please run something")], None);
    let (result, _) = drive(
        run,
        &registry,
        vec![
            Script::Answer(tool_answer(
                vec![call("call_1", "terminal", "{\"command\": \"echo retained-output\"}")],
                Usage::none(),
            )),
            Script::Fails(
                None,
                ProviderError::InvalidResponse("context window exceeds limit".to_string()),
            ),
        ],
        None,
    );
    match result {
        Err(AgentRunError::FailedTurn { failed_turn, source }) => {
            assert!(matches!(source, ProviderError::InvalidResponse(_)));
            let messages = failed_turn.messages;
            assert_eq!(
                roles(&messages),
                vec![Role::User, Role::Assistant, Role::Tool, Role::Assistant]
            );
            assert!(messages[2].content.as_text().contains("retained-output"));
            assert_eq!(
                messages[3].content.as_text(),
                "Turn interrupted by error: provider error: invalid response: context window exceeds limit"
            );
            assert_eq!(failed_turn.error, messages[3].content.as_text());
        }
        _ => panic!("expected FailedTurn"),
    }
}

#[test]
fn loop_keeps_partial_streamed_assistant_text_on_provider_failure() {
    let mut acc = StreamAccumulator::new();
    acc.add_delta(&delta(Some("partial answer"), None, None));
    let partial = acc.into_partial_message(Role::Assistant);
    let run = AgentRun::start(&config(5), vec![Message::user("say something")], None);
    let (result, _) = drive(
        run,
        &InMemoryRegistry::new(),
        vec![Script::Fails(partial, ProviderError::Transport("stream dropped".to_string()))],
        None,
    );
    match result {
        Err(AgentRunError::FailedTurn { failed_turn, source }) => {
            assert!(matches!(source, ProviderError::Transport(_)));
            let messages = failed_turn.messages;
            assert_eq!(roles(&messages), vec![Role::User, Role::Assistant, Role::Assistant]);
            assert_eq!(messages[1].content.as_text(), "partial answer");
            assert!(messages[2].content.as_text().contains(
                "Turn interrupted by error: provider error: transport error: stream dropped"
            ));
        }
        _ => panic!("expected FailedTurn"),
    }
}

#[test]
fn a_failure_before_anything_was_said_is_plain() {
    let error = build_failed_turn(
        vec![Message::user("x")],
        None,
        1,
        ProviderError::Transport("down".to_string()),
    );
    assert_eq!(error.message(), "provider error: transport error: down");
    match error {
        AgentRunError::Loop(LoopError::Provider(_)) => {}
        _ => panic!("nothing to keep"),
    }
    let error = build_failed_turn(
        vec![Message::user("x"), Message::assistant("y")],
        None,
        1,
        ProviderError::Cancelled,
    );
    assert!(error.message().starts_with("provider error with partial response: "));
}

#[test]
fn loop_emits_post_turn_compression_before_tool_dispatch() {
    let messages = vec![
        Message::system("system"),
        Message::user("first request"),
        Message::assistant("first answer"),
        Message::user("second request"),
        Message::user(&"A".repeat(160_000)),
        Message::user("latest question"),
    ];
    let run = AgentRun::start(&compressing(64_000), messages, None);
    let (result, events) = drive(
        run,
        &InMemoryRegistry::new(),
        vec![
            Script::Answer(tool_answer(
                vec![call("call_1", "terminal", "{\"command\": \"echo hi\"}")],
                usage(90_000, 0, 10),
            )),
            Script::Answer(text_answer("done", Usage::none(), FinishReason::Stop)),
        ],
        Some(text_answer("summary text", Usage::none(), FinishReason::Stop)),
    );
    let result = result.ok().unwrap();
    assert_eq!(
        kinds(&events),
        vec![
            "thinking", "usage", "message", "compressed", "usage", "started", "finished",
            "thinking", "message"
        ]
    );
    assert_eq!(result.metrics.compressions, 1);
    assert_eq!(
        roles(&result.messages),
        vec![Role::System, Role::User, Role::User, Role::Tool, Role::Assistant]
    );
}

#[test]
fn loop_does_not_compress_until_real_context_usage_reaches_threshold() {
    let messages = vec![
        Message::system("system"),
        Message::user(&"A".repeat(200_000)),
        Message::user("latest question"),
    ];
    let run = AgentRun::start(&compressing(64_000), messages, None);
    let (result, events) = drive(
        run,
        &InMemoryRegistry::new(),
        vec![Script::Answer(text_answer(
            "small turn",
            usage(63_999, 0, 10),
            FinishReason::Stop,
        ))],
        None,
    );
    assert!(result.is_ok());
    assert!(!kinds(&events).contains(&"compressed"));
}

#[test]
fn loop_reports_post_compact_usage_from_baseline_plus_summary_output() {
    let messages = vec![
        Message::system("system"),
        Message::user("first request"),
        Message::assistant("first answer"),
        Message::user(&"A".repeat(200_000)),
        Message::user("latest question"),
    ];
    let run = AgentRun::start(&compressing(64_000), messages, None);
    let (result, events) = drive(
        run,
        &InMemoryRegistry::new(),
        vec![Script::Answer(text_answer(
            "large turn",
            usage(64_000, 0, 10),
            FinishReason::Stop,
        ))],
        Some(text_answer("summary text", usage(9_000, 0, 1_200), FinishReason::Stop)),
    );
    let result = result.ok().unwrap();
    assert_eq!(used(&events), vec![64_000, 65_200]);
    match &events[3] {
        LoopEvent::CompressionCompleted { trigger, context_tokens, compacted_tokens, duration } => {
            assert_eq!(*trigger, CompressionTrigger::PostTurn);
            assert_eq!(*context_tokens, Some(64_000));
            assert_eq!(*compacted_tokens, Some(65_200));
            assert_eq!(*duration, 11);
        }
        _ => panic!("the compression is told"),
    }
    assert_eq!(roles(&result.messages), vec![Role::System, Role::User, Role::User]);
    assert_eq!(result.messages[1].content.as_text(), "first request");
    assert!(result.messages[2].content.as_text().contains("[CONTEXT SUMMARY"));
}

#[test]
fn context_usage_includes_cached_provider_input_tokens_mid_tool_loop() {
    let registry = build_registry(&Vec::new(), SKILLS);
    let mut config = config(5);
    config.system_prompt = Some("z".repeat(28_000));
    let run = AgentRun::start(&config, vec![Message::user("hello")], None);
    let (result, events) = drive(
        run,
        &registry,
        vec![
            Script::Answer(tool_answer(
                vec![call("call_1", "terminal", "{\"command\": \"true\"}")],
                usage(30, 7_000, 1),
            )),
            Script::Answer(text_answer("done", usage(7_400, 0, 1), FinishReason::Stop)),
        ],
        None,
    );
    let result = result.ok().unwrap();
    assert_eq!(result.metrics.iterations, 2);
    assert_eq!(result.metrics.input_tokens, 7_430);
    assert_eq!(result.metrics.cached_input_tokens, 7_000);
    assert_eq!(result.metrics.output_tokens, 2);
    assert_eq!(used(&events), vec![7_030, 7_400]);
    assert_eq!(result.messages[0].role, Role::System);
    assert_eq!(prompt_context_tokens_from_usage(usage(30, 7_000, 1)), 7_030);
}

#[test]
fn a_system_prompt_is_not_doubled() {
    let mut config = config(1);
    config.system_prompt = Some("mine".to_string());
    let run = AgentRun::start(&config, vec![Message::user("a"), Message::system("theirs")], None);
    assert_eq!(run.messages.len(), 2);
    let run = AgentRun::start(&config, vec![Message::user("a")], None);
    assert_eq!(run.messages[0].content.as_text(), "mine");
    assert_eq!(run.messages.len(), 2);
}

#[test]
fn cancellation_iterations_and_time_end_a_turn() {
    let mut run = AgentRun::start(&config(1), vec![Message::user("a")], None);
    let r = run.begin_iteration(true, 0);
    assert_eq!(kinds(&r.events), vec!["cancelled"]);
    assert!(matches!(r.action, Action::Fail(AgentRunError::Loop(LoopError::Cancelled))));
    assert_eq!(run.phase, Phase::Ended);

    let mut run = AgentRun::start(&config(0), vec![Message::user("a")], None);
    let r = run.begin_iteration(false, 0);
    assert_eq!(kinds(&r.events), vec!["exhausted"]);
    assert!(matches!(r.action, Action::Fail(AgentRunError::Loop(LoopError::MaxIterations(0)))));

    let mut run = AgentRun::start(&config(1), vec![Message::user("a")], None);
    let r = run.begin_iteration(false, 600_000_000_001);
    assert!(r.events.is_empty());
    match r.action {
        Action::Fail(e) => assert_eq!(e.message(), "timed out after 600000000001ns"),
        _ => panic!("the time is over"),
    }
}

#[test]
fn tools_stop_at_a_cancellation() {
    let mut run = AgentRun::start(&config(2), vec![Message::user("a")], None);
    run.begin_iteration(false, 0);
    let r = run.completed(tool_answer(vec![call("1", "x", "{}")], Usage::none()));
    assert!(matches!(r.action, Action::NextTool));
    let r = run.begin_tool(true);
    assert_eq!(kinds(&r.events), vec!["cancelled"]);
    assert!(matches!(r.action, Action::Fail(AgentRunError::Loop(LoopError::Cancelled))));
}

#[test]
fn an_interrupted_stream_keeps_what_came() {
    let mut run = AgentRun::start(&config(2), vec![Message::user("a")], None);
    run.begin_iteration(false, 0);
    let r = run.interrupted(Some(Message::assistant("par")));
    assert_eq!(kinds(&r.events), vec!["cancelled"]);
    match r.action {
        Action::Fail(AgentRunError::FailedTurn { failed_turn, source }) => {
            assert!(matches!(source, ProviderError::Cancelled));
            assert_eq!(failed_turn.messages.len(), 3);
        }
        _ => panic!("what came is kept"),
    }
}

fn ending(finish: FinishReason) -> (Vec<&'static str>, Result<RunResult, AgentRunError>) {
    let run = AgentRun::start(&config(2), vec![Message::user("a")], None);
    let (result, events) = drive(
        run,
        &InMemoryRegistry::new(),
        vec![Script::Answer(text_answer("b", Usage::none(), finish))],
        None,
    );
    (kinds(&events), result)
}

#[test]
fn each_reason_to_stop_ends_a_turn_in_its_way() {
    let (events, result) = ending(FinishReason::Length);
    assert_eq!(events, vec!["thinking", "message", "length"]);
    assert_eq!(result.ok().unwrap().final_message.content.as_text(), "b");

    let (_, result) = ending(FinishReason::ContentFilter);
    assert!(matches!(result, Err(AgentRunError::Loop(LoopError::ContentFilter))));

    let (_, result) = ending(FinishReason::Error);
    assert_eq!(
        result.err().unwrap().message(),
        "provider error: provider returned finish_reason=error"
    );

    let (_, result) = ending(FinishReason::ToolUse);
    assert_eq!(
        result.err().unwrap().message(),
        "provider error: invalid response: finish_reason=tool_use but no tool_calls"
    );
}

fn delta(
    content: Option<&str>,
    usage: Option<Usage>,
    finish_reason: Option<FinishReason>,
) -> CompletionDelta {
    CompletionDelta {
        content_delta: content.map(|s| s.to_string()),
        reasoning_delta: None,
        tool_call_delta: None,
        usage,
        finish_reason,
    }
}

#[test]
fn loop_keeps_reading_after_finish_reason_to_capture_usage() {
    let mut acc = StreamAccumulator::new();
    assert!(acc.is_empty());
    assert!(acc.into_partial_message(Role::Assistant).is_none());
    acc.add_delta(&delta(Some("done"), None, None));
    acc.add_delta(&delta(None, None, Some(FinishReason::Stop)));
    acc.add_delta(&delta(None, Some(usage(12, 0, 4)), None));
    let completion = acc.finalize();
    assert_eq!(completion.message.content.as_text(), "done");
    assert_eq!(completion.usage.input_tokens, 12);
    assert_eq!(completion.usage.output_tokens, 4);
    assert!(matches!(completion.finish_reason, FinishReason::Stop));
}

#[test]
fn streamed_tool_calls_are_put_together() {
    let piece = |id: Option<&str>, name: Option<&str>, args: &str, index: usize| CompletionDelta {
        content_delta: None,
        reasoning_delta: Some("r".to_string()),
        tool_call_delta: Some(ToolCallDelta {
            index,
            id: id.map(|s| s.to_string()),
            name: name.map(|s| s.to_string()),
            arguments_fragment: Some(args.to_string()),
        }),
        usage: None,
        finish_reason: Some(FinishReason::ToolUse),
    };
    let mut acc = StreamAccumulator::new();
    let first = piece(Some("c0"), Some("a"), "{\"x\":", 0);
    assert_eq!(kinds(&first.events()), vec!["reasoning", "partial"]);
    acc.add_delta(&first);
    acc.add_delta(&piece(Some("c1"), Some("b"), "", 1));
    acc.add_delta(&piece(None, None, "1}", 0));
    acc.add_delta(&piece(Some("c2"), Some("c"), "oops", 2));
    let completion = acc.finalize();
    let calls = completion.message.tool_calls.unwrap();
    assert_eq!(calls.len(), 3);
    assert_eq!(calls[0].id, "c0");
    assert_eq!(calls[0].arguments.render(), "{\"x\":1}");
    assert_eq!(calls[1].arguments.render(), "{}");
    assert_eq!(calls[2].arguments.render(), "\"oops\"");
    assert_eq!(completion.message.reasoning.as_deref(), Some("rrrr"));
}

#[test]
fn arguments_are_checked_against_the_schema() {
    let schema = Json::parse(
        "{\"type\":\"object\",\"properties\":{\"n\":{\"type\":\"integer\"}},\"required\":[\"n\"]}",
    )
    .unwrap();
    let good = Json::parse("{\"n\":1}").unwrap();
    assert_eq!(validate_args(&good, &schema).ok().unwrap().render(), "{\"n\":1}");
    let bad = Json::parse("{\"n\":\"x\"}").unwrap();
    let error = validate_args(&bad, &schema).err().unwrap();
    assert!(error.contains("integer"), "{error}");
    let broken = Json::parse("{\"type\":5}").unwrap();
    let error = validate_args(&good, &broken).err().unwrap();
    assert!(error.starts_with("schema compile: "), "{error}");
    assert_eq!(
        conclude_check(&good, SchemaCheck::BadSchema("e".to_string())).err().unwrap(),
        "schema compile: e"
    );
}

#[test]
fn every_failure_of_the_arguments_is_named() {
    let schema = Json::parse(
        "{\"type\":\"object\",\"properties\":{\"a\":{\"type\":\"integer\"},\"b\":{\"type\":\"boolean\"}},\"required\":[\"c\"]}",
    )
    .unwrap();
    let bad = Json::parse("{\"a\":\"x\",\"b\":1}").unwrap();
    let error = validate_args(&bad, &schema).err().unwrap();
    let parts: Vec<&str> = error.split("; ").collect();
    assert_eq!(parts.len(), 3, "{error}");
    assert!(parts.contains(&"\"x\" is not of type \"integer\""), "{error}");
    assert!(parts.contains(&"1 is not of type \"boolean\""), "{error}");
    assert!(parts.contains(&"\"c\" is a required property"), "{error}");

    let good = Json::parse("{\"c\":1}").unwrap();
    assert_eq!(validate_args(&good, &schema).ok().unwrap().render(), "{\"c\":1}");
    let two = vec!["one".to_string(), "two".to_string()];
    assert_eq!(conclude_check(&good, SchemaCheck::Checked(two)).err().unwrap(), "one; two");
    assert!(conclude_check(&good, SchemaCheck::Checked(Vec::new())).is_ok());
}

fn compacting_agent() -> AgentLoop {
    AgentLoop::new(&PerryHermesConfig::for_test_echo(), 64_000, SKILLS)
}

fn long_session() -> AgentSession {
    let mut session = AgentSession::new("test", "/tmp", Some(Message::system("system")));
    session.replace_messages(vec![
        Message::user("first request"),
        Message::assistant("first answer"),
        Message::user("second request"),
        Message::assistant("second answer"),
    ]);
    session
}

fn attempt(session: &AgentSession, answer: Result<Completion, ProviderError>) -> CompactAttempt {
    let compactor = SummaryCompactor::new(CompactorConfig::default());
    CompactAttempt::Finished(match compactor.begin(&session.outbound_messages(), Some("task-X")) {
        Ok(plan) => plan.finish(&answer),
        Err(e) => Err(e),
    })
}

#[test]
fn session_compact_rewrites_session_messages() {
    let agent = compacting_agent();
    let mut session = long_session();
    session.remember_context_usage_baseline(1_000);
    let tried =
        attempt(&session, Ok(text_answer("condensed", usage(10, 0, 33), FinishReason::Stop)));
    let (event, _) = agent.compact_session(&mut session, tried, 5);
    match event {
        LoopEvent::CompressionCompleted { trigger, context_tokens, compacted_tokens, duration } => {
            assert_eq!(trigger, CompressionTrigger::Manual);
            assert_eq!(context_tokens, None);
            assert_eq!(compacted_tokens, Some(1_033));
            assert_eq!(duration, 5);
        }
        _ => panic!("expected CompressionCompleted event"),
    }
    let log = session.messages();
    assert_eq!(roles(&log), vec![Role::User, Role::User]);
    assert_eq!(log[0].content.as_text(), "first request");
    assert!(log[1].content.as_text().contains("condensed"));
    assert!(log[1].content.as_text().contains("[CONTEXT SUMMARY"));
    assert_eq!(
        roles(&session.outbound_messages()),
        vec![Role::System, Role::User, Role::User]
    );
}

#[test]
fn session_compact_reports_summary_failure() {
    let agent = compacting_agent();
    let mut session = long_session();
    let tried = attempt(
        &session,
        Err(ProviderError::Transport("summary provider down".to_string())),
    );
    let (event, save) = agent.compact_session(&mut session, tried, 5);
    assert!(save.is_none());
    match event {
        LoopEvent::CompressionFailed { error, trigger } => {
            assert!(error.contains("summary failed") || error.contains("summary provider down"));
            assert_eq!(trigger, CompressionTrigger::Manual);
        }
        _ => panic!("expected CompressionFailed event"),
    }
    assert_eq!(session.messages().len(), 4);
}

#[test]
fn from_config_wires_compaction_strategy_when_enabled() {
    let agent = compacting_agent();
    let mut session = AgentSession::new("s", "/tmp", None);
    session.append_message(Message::user("first"));
    let tried = attempt(&session, Err(ProviderError::Cancelled));
    let (event, _) = agent.compact_session(&mut session, tried, 0);
    match event {
        LoopEvent::CompressionSkipped { reason } => {
            assert_eq!(reason, CompressionSkipReason::NothingToCompress)
        }
        _ => panic!("there is nothing to compress"),
    }
}

#[test]
fn compaction_that_is_off_or_busy_is_skipped() {
    let mut agent = compacting_agent();
    let mut session = long_session();
    let (event, _) = agent.compact_session(&mut session, CompactAttempt::Busy, 0);
    assert!(matches!(
        event,
        LoopEvent::CompressionSkipped { reason: CompressionSkipReason::NothingToCompress }
    ));
    agent.config.compaction = false;
    let done = CompactAttempt::Finished(Ok(CompactionResult {
        messages: Vec::new(),
        summary_usage: Usage::none(),
    }));
    let (event, _) = agent.compact_session(&mut session, done, 0);
    assert!(matches!(
        event,
        LoopEvent::CompressionSkipped { reason: CompressionSkipReason::Disabled }
    ));
    assert_eq!(session.messages().len(), 4);
    assert!(matches!(
        try_compact(CompactAttempt::Finished(Err(CompactError::NothingToCompress)), 1),
        CompactOutcome::Skipped(CompressionSkipReason::NothingToCompress)
    ));
    assert_eq!(agent.compaction_focus(Some("a")).as_deref(), Some("a"));
    agent.config.focus_topic = Some("b".to_string());
    assert_eq!(agent.compaction_focus(Some("a")).as_deref(), Some("b"));
}

#[test]
fn session_turn_owns_and_updates_message_history() {
    let agent = compacting_agent();
    let mut session = AgentSession::new("test", "/tmp", Some(Message::system("system")));
    let (run, save) = agent.run_session_turn("first request", &mut session);
    assert!(save.is_none());
    let (result, events) = drive(
        run,
        &agent.registry,
        vec![Script::Answer(text_answer(
            "first answer",
            usage(1_000, 0, 20),
            FinishReason::Stop,
        ))],
        None,
    );
    agent.settle(&mut session, &result);
    let result = result.ok().expect("session turn should succeed");
    let outbound: Vec<String> =
        session.outbound_messages().iter().map(|m| m.content.as_text()).collect();
    let seen: Vec<String> = result.messages.iter().map(|m| m.content.as_text()).collect();
    assert_eq!(outbound, seen);
    let history = session.messages();
    assert_eq!(roles(&history), vec![Role::User, Role::Assistant]);
    assert_eq!(history[0].content.as_text(), "first request");
    assert_eq!(history[1].content.as_text(), "first answer");
    assert_eq!(used(&events), vec![1_000]);
}

#[test]
fn a_failed_turn_is_kept_and_other_failures_change_nothing() {
    let agent = compacting_agent();
    let mut session = AgentSession::new("test", "/tmp", Some(Message::system("system")));
    let (run, _) = agent.run_session_turn("q", &mut session);
    let (result, _) = drive(
        run,
        &agent.registry,
        vec![Script::Fails(
            Some(Message::assistant("par")),
            ProviderError::Transport("x".to_string()),
        )],
        None,
    );
    agent.settle(&mut session, &result);
    assert_eq!(
        roles(&session.messages()),
        vec![Role::User, Role::Assistant, Role::Assistant]
    );

    let before = session.messages().len();
    agent.settle(&mut session, &Err(AgentRunError::Loop(LoopError::Cancelled)));
    assert_eq!(session.messages().len(), before);
}

#[test]
fn session_context_is_plumbed_into_tool_context() {
    let agent = compacting_agent();
    let session = AgentSession::new("session-xyz", "/tmp/perry-hermes-test-cwd", None);
    let ctx = agent.tool_context(&session);
    assert_eq!(ctx.working_dir, "/tmp/perry-hermes-test-cwd");
    assert_eq!(ctx.session_id, "session-xyz");
    assert!(ctx.permissions.subprocess);
}

#[test]
fn load_json_session_uses_current_cwd_and_rebuilds_system_message() {
    let mut saved = AgentSession::new(
        "session-1",
        "/tmp/original-project",
        Some(Message::system(
            "OLD SYSTEM\n\nCurrent working directory: /tmp/original-project",
        )),
    )
    .with_json_file_store("/data/session-1.json");
    saved.append_message(Message::user("saved hello"));
    let save = saved.remember_context_usage_baseline(123).unwrap();

    let agent = compacting_agent();
    let session =
        agent.load_json_session(&save.path, save.snapshot, Some("/cwd"), "", &Vec::new());
    assert_eq!(session.working_dir, "/cwd");
    let outbound = session.outbound_messages();
    let system_text = outbound[0].content.as_text();
    assert!(system_text.contains("Perry Hermes"));
    assert!(system_text.contains("Current working directory: /cwd"));
    assert!(!system_text.contains("OLD SYSTEM"));
    assert_eq!(outbound[1].content.as_text(), "saved hello");
    assert_eq!(session.compacted_context_tokens(7), Some(130));
}

#[test]
fn new_sessions_get_the_prompt_of_their_directory() {
    let agent = compacting_agent();
    let session = agent.new_session("s", "/tmp/p", "SKILLS", &Vec::new());
    let text = session.outbound_messages()[0].content.as_text();
    assert!(text.contains("SKILLS\n\nCurrent working directory: /tmp/p"));
    assert!(session.messages().is_empty());
}

#[test]
fn stripping_takes_every_system_message_away() {
    let stripped = strip_system_message(&vec![
        Message::system("a"),
        Message::user("b"),
        Message::system("c"),
        Message::assistant("d"),
    ]);
    assert_eq!(roles(&stripped), vec![Role::User, Role::Assistant]);
}

#[test]
fn failed_compaction_lets_the_turn_go_on() {
    let mut run = AgentRun::start(&compressing(1), vec![Message::user("a")], Some(7));
    run.begin_iteration(false, 0);
    let r = run.completed(text_answer("b", usage(5, 0, 1), FinishReason::Stop));
    assert!(matches!(r.action, Action::Compact));
    assert_eq!(run.baseline, Some(7));
    let r = run.compacted(CompactOutcome::Failed { error: "e".to_string() });
    assert_eq!(kinds(&r.events), vec!["failed"]);
    assert!(matches!(r.action, Action::Finish(_)));
    assert_eq!(run.messages.len(), 2);

    let error = ToolError::Timeout(30);
    assert_eq!(error.message(), "timed out after 30s");
}
