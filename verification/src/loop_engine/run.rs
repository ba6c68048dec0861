//! The state machine of a turn.
//!
//! A turn asks a provider, may compress the history, runs the tools that
//! the answer asks for, and asks again, until an answer asks for none. Each
//! method takes what just happened outside, and returns what to report and
//! what to do next.

use vstd::prelude::*;
use vstd::string::*;

use crate::loop_engine::events::{
    event_views, no_events, no_metrics, push_event, AgentRunError, CompressionSkipReason,
    CompressionTrigger, EventView, FailedTurn, LoopError, LoopErrorView, LoopEvent, LoopMetrics,
    RunErrorView, RunResult, RunResultView,
};
use crate::message::{
    at_most, call_views, copy_calls, copy_messages, message_views, plain, prompt_tokens,
    provider_error_text, push_message, tool_message, Completion, FinishReason, Message,
    MessageView, ProviderError, ProviderErrorView, Role, ToolCall, ToolCallView, Usage,
};
use crate::loop_engine::events::tool_result_view;
use crate::tool::{opt_view, tool_error_text, ToolError, ToolErrorView, ToolOutput};

verus! {

/// A model's context and from how many prompt tokens on it is compressed.
#[derive(Clone, Copy, Debug, PartialEq, Eq, Structural)]
pub struct ContextWindow {
    pub max_tokens: u64,
    pub threshold: u64,
}

impl ContextWindow {
    pub fn threshold_tokens(self) -> (r: u64)
        ensures
            r == self.threshold,
    {
        self.threshold
    }

    pub fn should_compress(self, used_tokens: u64) -> (r: bool)
        ensures
            r == (used_tokens >= self.threshold),
    {
        used_tokens >= self.threshold
    }
}

/// Settings of the loop. Times are in nanoseconds.
pub struct LoopConfig {
    pub max_iterations: u32,
    pub max_duration: u128,
    pub system_prompt: Option<String>,
    /// Whether histories are compacted.
    pub compaction: bool,
    pub context_window: Option<ContextWindow>,
    /// What a compaction that is asked for should keep in view.
    pub focus_topic: Option<String>,
}

impl Default for LoopConfig {
    fn default() -> (r: Self)
        ensures
            r.max_iterations == 90,
            r.max_duration == 600_000_000_000,
            r.system_prompt is None,
            !r.compaction,
            r.context_window is None,
            r.focus_topic is None,
    {
        LoopConfig {
            max_iterations: 90,
            max_duration: 600_000_000_000,
            system_prompt: None,
            compaction: false,
            context_window: None,
            focus_topic: None,
        }
    }
}

/// What a turn waits for.
#[derive(Clone, Copy, Debug, PartialEq, Eq, Structural)]
pub enum Phase {
    /// For the next iteration to begin.
    Ready,
    /// For the provider's answer.
    Asked,
    /// For a compaction.
    Compacting,
    /// For the next tool call to begin.
    Tools,
    /// For the result of a tool call.
    Calling,
    /// For nothing: it is over.
    Ended,
}

/// A turn that is under way.
pub struct AgentRun {
    pub max_iterations: u32,
    pub max_duration: u128,
    pub compaction: bool,
    pub context_window: Option<ContextWindow>,
    /// How many messages the turn began with.
    pub initial_len: usize,
    pub messages: Vec<Message>,
    pub metrics: LoopMetrics,
    /// The first prompt tokens that a provider reported in the session.
    pub baseline: Option<u64>,
    pub phase: Phase,
    /// The last answer, why it stopped and its prompt tokens.
    pub answer: Option<Message>,
    pub finish: FinishReason,
    pub context_tokens: u64,
    /// The tool calls of the last answer and how many of them are done.
    pub calls: Vec<ToolCall>,
    pub done_calls: usize,
}

#[verifier::ext_equal]
pub ghost struct RunView {
    pub max_iterations: u32,
    pub max_duration: u128,
    pub compaction: bool,
    pub context_window: Option<ContextWindow>,
    pub initial_len: int,
    pub messages: Seq<MessageView>,
    pub metrics: LoopMetrics,
    pub baseline: Option<u64>,
    pub phase: Phase,
    pub answer: Option<MessageView>,
    pub finish: FinishReason,
    pub context_tokens: u64,
    pub calls: Seq<ToolCallView>,
    pub done_calls: int,
}

impl View for AgentRun {
    type V = RunView;

    open spec fn view(&self) -> RunView {
        RunView {
            max_iterations: self.max_iterations,
            max_duration: self.max_duration,
            compaction: self.compaction,
            context_window: self.context_window,
            initial_len: self.initial_len as int,
            messages: message_views(self.messages@),
            metrics: self.metrics,
            baseline: self.baseline,
            phase: self.phase,
            answer: match self.answer {
                Some(m) => Some(m@),
                None => None,
            },
            finish: self.finish,
            context_tokens: self.context_tokens,
            calls: call_views(self.calls@),
            done_calls: self.done_calls as int,
        }
    }
}

/// A reason to stop after which a history may be compressed.
pub open spec fn is_regular(f: FinishReason) -> bool {
    f == FinishReason::Stop || f == FinishReason::Length || f == FinishReason::ToolUse
}

impl RunView {
    /// What holds of every turn that is under way.
    pub open spec fn wf(self) -> bool {
        &&& self.metrics.iterations <= self.max_iterations
        &&& self.phase == Phase::Asked ==> self.metrics.iterations < self.max_iterations
        &&& self.phase == Phase::Compacting ==> self.answer is Some && is_regular(self.finish)
        &&& 0 <= self.done_calls <= self.calls.len()
        &&& (self.phase == Phase::Tools || self.phase == Phase::Calling) ==> self.done_calls
            < self.calls.len()
    }
}

/// What to do next.
pub enum Action {
    /// Ask the provider, with the messages as they are.
    Ask,
    /// Compact the messages.
    Compact,
    /// Begin the next tool call.
    NextTool,
    /// Run this tool call.
    CallTool(ToolCall),
    /// Begin the next iteration.
    NextIteration,
    /// The turn came to an answer.
    Finish(RunResult),
    /// The turn came to no answer.
    Fail(AgentRunError),
}

#[verifier::ext_equal]
pub ghost enum ActionView {
    Ask,
    Compact,
    NextTool,
    CallTool(ToolCallView),
    NextIteration,
    Finish(RunResultView),
    Fail(RunErrorView),
}

impl View for Action {
    type V = ActionView;

    open spec fn view(&self) -> ActionView {
        match self {
            Action::Ask => ActionView::Ask,
            Action::Compact => ActionView::Compact,
            Action::NextTool => ActionView::NextTool,
            Action::CallTool(c) => ActionView::CallTool(c@),
            Action::NextIteration => ActionView::NextIteration,
            Action::Finish(r) => ActionView::Finish(r@),
            Action::Fail(e) => ActionView::Fail(e@),
        }
    }
}

/// What to report, in order, and what to do next.
pub struct Reaction {
    pub events: Vec<LoopEvent>,
    pub action: Action,
}

/// A step of a turn: the turn after it, what it reports and what to do.
#[verifier::ext_equal]
pub ghost struct Step {
    pub run: RunView,
    pub events: Seq<EventView>,
    pub action: ActionView,
}

/// The step that a call took.
pub open spec fn step_of(run: RunView, reaction: Reaction) -> Step {
    Step { run, events: event_views(reaction.events@), action: reaction.action@ }
}

// ---------------------------------------------------------------------
// Starting
// ---------------------------------------------------------------------

/// Whether there is a system message.
pub open spec fn has_system(messages: Seq<MessageView>) -> bool {
    exists|i: int| 0 <= i < messages.len() && (#[trigger] messages[i]).role == Role::System
}

/// The messages that a turn begins with: a system prompt goes in front,
/// unless there is a system message.
pub open spec fn with_system_prompt(messages: Seq<MessageView>, prompt: Option<Seq<char>>) -> Seq<
    MessageView,
> {
    match prompt {
        Some(p) => if has_system(messages) {
            messages
        } else {
            seq![plain(Role::System, p)] + messages
        },
        None => messages,
    }
}

/// The state of a turn at its start.
pub open spec fn started(config: LoopConfig, messages: Seq<MessageView>, baseline: Option<u64>) -> RunView {
    RunView {
        max_iterations: config.max_iterations,
        max_duration: config.max_duration,
        compaction: config.compaction,
        context_window: config.context_window,
        initial_len: messages.len() as int,
        messages: with_system_prompt(messages, opt_view(config.system_prompt)),
        metrics: no_metrics(),
        baseline,
        phase: Phase::Ready,
        answer: None,
        finish: FinishReason::Stop,
        context_tokens: 0,
        calls: Seq::empty(),
        done_calls: 0,
    }
}

fn any_system(messages: &Vec<Message>) -> (r: bool)
    ensures
        r == has_system(message_views(messages@)),
{
    let ghost ms = message_views(messages@);
    let mut i: usize = 0;
    while i < messages.len()
        invariant
            i <= messages@.len(),
            ms == message_views(messages@),
            forall|k: int| 0 <= k < i ==> (#[trigger] ms[k]).role != Role::System,
        decreases messages.len() - i,
    {
        assert(ms[i as int] == messages@[i as int]@);
        if messages[i].role == Role::System {
            return true;
        }
        i += 1;
    }
    false
}

// ---------------------------------------------------------------------
// Iterations
// ---------------------------------------------------------------------

/// The beginning of an iteration: it is not begun after a cancellation,
/// when the iterations are used up, or when the time is.
pub open spec fn iteration_begun(st: RunView, cancelled: bool, elapsed: u128) -> Step {
    let ended = RunView { phase: Phase::Ended, ..st };
    if cancelled {
        Step {
            run: ended,
            events: Seq::empty().push(EventView::Cancelled),
            action: ActionView::Fail(RunErrorView::Loop(LoopErrorView::Cancelled)),
        }
    } else if st.metrics.iterations >= st.max_iterations {
        Step {
            run: ended,
            events: Seq::empty().push(EventView::IterationsExhausted),
            action: ActionView::Fail(
                RunErrorView::Loop(LoopErrorView::MaxIterations(st.metrics.iterations)),
            ),
        }
    } else if elapsed > st.max_duration {
        Step {
            run: ended,
            events: Seq::empty(),
            action: ActionView::Fail(RunErrorView::Loop(LoopErrorView::Timeout(elapsed))),
        }
    } else {
        Step {
            run: RunView { phase: Phase::Asked, ..st },
            events: Seq::empty().push(EventView::Thinking),
            action: ActionView::Ask,
        }
    }
}

/// What a turn ends with when the provider fails. What came of the answer
/// is kept; if the turn has added any message, the history is, too, with a
/// last message that tells of the failure.
pub open spec fn failed_turn(
    messages: Seq<MessageView>,
    partial: Option<MessageView>,
    initial_len: int,
    error: ProviderErrorView,
) -> RunErrorView {
    let all = match partial {
        Some(m) => messages.push(m),
        None => messages,
    };
    if all.len() > initial_len {
        let text = "Turn interrupted by error: provider error: "@ + provider_error_text(error);
        RunErrorView::FailedTurn {
            messages: all.push(plain(Role::Assistant, text)),
            error: text,
            source: error,
        }
    } else {
        RunErrorView::Loop(LoopErrorView::Provider(error))
    }
}

pub fn build_failed_turn(
    messages: Vec<Message>,
    partial: Option<Message>,
    initial_len: usize,
    error: ProviderError,
) -> (r: AgentRunError)
    ensures
        r@ == failed_turn(
            message_views(messages@),
            match partial {
                Some(m) => Some(m@),
                None => None,
            },
            initial_len as int,
            error@,
        ),
{
    let mut messages = messages;
    if let Some(m) = partial {
        push_message(&mut messages, m);
    }
    assert(message_views(messages@).len() == messages@.len());
    if messages.len() > initial_len {
        let mut text = "Turn interrupted by error: provider error: ".to_owned();
        text.append(error.message().as_str());
        push_message(&mut messages, Message::assistant(text.as_str()));
        AgentRunError::FailedTurn { failed_turn: FailedTurn { messages, error: text }, source: error }
    } else {
        AgentRunError::Loop(LoopError::Provider(error))
    }
}

/// The counts after an answer.
pub open spec fn counted(m: LoopMetrics, u: Usage) -> LoopMetrics {
    LoopMetrics {
        iterations: (m.iterations + 1) as u32,
        input_tokens: at_most((m.input_tokens + u.input_tokens) as nat, u64::MAX as nat) as u64,
        cached_input_tokens: at_most(
            (m.cached_input_tokens + u.cached_input_tokens) as nat,
            u64::MAX as nat,
        ) as u64,
        output_tokens: at_most((m.output_tokens + u.output_tokens) as nat, u64::MAX as nat) as u64,
        ..m
    }
}

/// The first prompt tokens that were reported, if any were.
pub open spec fn remembered(baseline: Option<u64>, tokens: u64) -> Option<u64> {
    if baseline is None && tokens > 0 {
        Some(tokens)
    } else {
        baseline
    }
}

/// Whether the history is compressed before going on.
pub open spec fn compresses(st: RunView, finish: FinishReason, tokens: u64) -> bool {
    is_regular(finish) && st.compaction && match st.context_window {
        Some(w) => tokens >= w.threshold,
        None => false,
    }
}

/// A turn and what was reported, with the decision what follows from the
/// reason why the provider stopped.
pub open spec fn concluded(st: RunView, events: Seq<EventView>) -> Step {
    let ended = RunView { phase: Phase::Ended, ..st };
    let result = RunResultView {
        final_message: st.answer->0,
        messages: st.messages,
        metrics: st.metrics,
    };
    match st.finish {
        FinishReason::Stop => Step { run: ended, events, action: ActionView::Finish(result) },
        FinishReason::Length => Step {
            run: ended,
            events: events.push(EventView::LengthLimit),
            action: ActionView::Finish(result),
        },
        FinishReason::ContentFilter => Step {
            run: ended,
            events,
            action: ActionView::Fail(RunErrorView::Loop(LoopErrorView::ContentFilter)),
        },
        FinishReason::Error => Step {
            run: ended,
            events,
            action: ActionView::Fail(
                RunErrorView::Loop(
                    LoopErrorView::Provider(
                        ProviderErrorView::Other("provider returned finish_reason=error"@),
                    ),
                ),
            ),
        },
        FinishReason::ToolUse => {
            let calls = match st.answer->0.tool_calls {
                Some(cs) => cs,
                None => Seq::empty(),
            };
            if calls.len() == 0 {
                Step {
                    run: ended,
                    events,
                    action: ActionView::Fail(
                        RunErrorView::Loop(
                            LoopErrorView::Provider(
                                ProviderErrorView::InvalidResponse(
                                    "finish_reason=tool_use but no tool_calls"@,
                                ),
                            ),
                        ),
                    ),
                }
            } else {
                Step {
                    run: RunView { phase: Phase::Tools, calls, done_calls: 0, ..st },
                    events,
                    action: ActionView::NextTool,
                }
            }
        },
    }
}

/// The state after an answer came in: it is counted, kept and part of the
/// history.
pub open spec fn answered(
    st: RunView,
    message: MessageView,
    usage: Usage,
    finish: FinishReason,
) -> RunView {
    RunView {
        metrics: counted(st.metrics, usage),
        messages: st.messages.push(message),
        baseline: remembered(st.baseline, prompt_tokens(usage)),
        answer: Some(message),
        finish,
        context_tokens: prompt_tokens(usage),
        ..st
    }
}

/// What is reported of an answer.
pub open spec fn answer_events(message: MessageView, usage: Usage) -> Seq<EventView> {
    let start: Seq<EventView> = if prompt_tokens(usage) > 0 {
        Seq::empty().push(EventView::ContextUsageUpdated { used_tokens: prompt_tokens(usage) })
    } else {
        Seq::empty()
    };
    start.push(EventView::AssistantMessage(message))
}

/// The step after an answer.
pub open spec fn completed_step(
    st: RunView,
    message: MessageView,
    usage: Usage,
    finish: FinishReason,
) -> Step {
    let next = answered(st, message, usage, finish);
    let events = answer_events(message, usage);
    if compresses(st, finish, prompt_tokens(usage)) {
        Step {
            run: RunView { phase: Phase::Compacting, ..next },
            events,
            action: ActionView::Compact,
        }
    } else {
        concluded(next, events)
    }
}

/// What came of a compaction.
pub enum CompactOutcome {
    Skipped(CompressionSkipReason),
    Compressed { messages: Vec<Message>, duration: u128, summary_output_tokens: u64 },
    Failed { error: String },
}

pub ghost enum CompactOutcomeView {
    Skipped(CompressionSkipReason),
    Compressed { messages: Seq<MessageView>, duration: u128, summary_output_tokens: u64 },
    Failed { error: Seq<char> },
}

impl View for CompactOutcome {
    type V = CompactOutcomeView;

    open spec fn view(&self) -> CompactOutcomeView {
        match self {
            CompactOutcome::Skipped(r) => CompactOutcomeView::Skipped(*r),
            CompactOutcome::Compressed { messages, duration, summary_output_tokens } =>
                CompactOutcomeView::Compressed {
                messages: message_views(messages@),
                duration: *duration,
                summary_output_tokens: *summary_output_tokens,
            },
            CompactOutcome::Failed { error } => CompactOutcomeView::Failed { error: error@ },
        }
    }
}

/// The best guess at the prompt tokens after a compaction: the first ones
/// of the session and the length of the summary.
pub open spec fn compacted_tokens(baseline: Option<u64>, summary_output_tokens: u64) -> Option<u64> {
    match baseline {
        Some(b) => Some(at_most((b + summary_output_tokens) as nat, u64::MAX as nat) as u64),
        None => None,
    }
}

pub fn estimate_compacted(baseline: Option<u64>, summary_output_tokens: u64) -> (r: Option<u64>)
    ensures
        r == compacted_tokens(baseline, summary_output_tokens),
{
    match baseline {
        Some(b) => Some(b.saturating_add(summary_output_tokens)),
        None => None,
    }
}

/// The event that tells of a compaction.
pub open spec fn compaction_event(
    trigger: CompressionTrigger,
    context_tokens: Option<u64>,
    baseline: Option<u64>,
    outcome: CompactOutcomeView,
) -> EventView {
    match outcome {
        CompactOutcomeView::Compressed { duration, summary_output_tokens, .. } =>
            EventView::CompressionCompleted {
            trigger,
            context_tokens,
            compacted_tokens: compacted_tokens(baseline, summary_output_tokens),
            duration,
        },
        CompactOutcomeView::Skipped(reason) => EventView::CompressionSkipped { reason },
        CompactOutcomeView::Failed { error } => EventView::CompressionFailed { trigger, error },
    }
}

pub fn event_of_compaction(
    trigger: CompressionTrigger,
    context_tokens: Option<u64>,
    baseline: Option<u64>,
    outcome: &CompactOutcome,
) -> (r: LoopEvent)
    ensures
        r@ == compaction_event(trigger, context_tokens, baseline, outcome@),
{
    match outcome {
        CompactOutcome::Compressed { messages: _, duration, summary_output_tokens } =>
            LoopEvent::CompressionCompleted {
            trigger,
            context_tokens,
            compacted_tokens: estimate_compacted(baseline, *summary_output_tokens),
            duration: *duration,
        },
        CompactOutcome::Skipped(reason) => LoopEvent::CompressionSkipped { reason: *reason },
        CompactOutcome::Failed { error } => LoopEvent::CompressionFailed {
            trigger,
            error: error.clone(),
        },
    }
}

/// The step after a compaction: the compacted messages take the place of
/// the history, and the turn goes on as the answer says.
pub open spec fn compacted_step(st: RunView, outcome: CompactOutcomeView) -> Step {
    let told = Seq::empty().push(
        compaction_event(
            CompressionTrigger::PostTurn,
            Some(st.context_tokens),
            st.baseline,
            outcome,
        ),
    );
    match outcome {
        CompactOutcomeView::Compressed { messages, duration, summary_output_tokens } => {
            let next = RunView {
                messages,
                metrics: LoopMetrics {
                    compressions: at_most(
                        (st.metrics.compressions + 1) as nat,
                        u32::MAX as nat,
                    ) as u32,
                    ..st.metrics
                },
                ..st
            };
            match compacted_tokens(st.baseline, summary_output_tokens) {
                Some(n) => concluded(
                    next,
                    told.push(EventView::ContextUsageUpdated { used_tokens: n }),
                ),
                None => concluded(next, told),
            }
        },
        _ => concluded(st, told),
    }
}

/// The beginning of a tool call.
pub open spec fn tool_begun(st: RunView, cancelled: bool) -> Step {
    if cancelled {
        Step {
            run: RunView { phase: Phase::Ended, ..st },
            events: Seq::empty().push(EventView::Cancelled),
            action: ActionView::Fail(RunErrorView::Loop(LoopErrorView::Cancelled)),
        }
    } else {
        let call = st.calls[st.done_calls];
        Step {
            run: RunView { phase: Phase::Calling, ..st },
            events: Seq::empty().push(
                EventView::ToolCallStarted { call, iteration: st.metrics.iterations },
            ),
            action: ActionView::CallTool(call),
        }
    }
}

/// What the model reads of a tool's result.
pub open spec fn result_text(result: Result<Seq<char>, ToolErrorView>) -> Seq<char> {
    match result {
        Ok(content) => content,
        Err(e) => "Error: "@ + tool_error_text(e),
    }
}

/// The step after a tool call: its result becomes a message, and the next
/// call or the next iteration follows.
pub open spec fn tool_finished(st: RunView, result: Result<Seq<char>, ToolErrorView>) -> Step {
    let call = st.calls[st.done_calls];
    let more = st.done_calls + 1 < st.calls.len();
    Step {
        run: RunView {
            messages: st.messages.push(tool_message(call.id, result_text(result))),
            metrics: LoopMetrics {
                tool_calls: at_most((st.metrics.tool_calls + 1) as nat, u32::MAX as nat) as u32,
                ..st.metrics
            },
            done_calls: st.done_calls + 1,
            phase: if more {
                Phase::Tools
            } else {
                Phase::Ready
            },
            ..st
        },
        events: Seq::empty().push(EventView::ToolCallFinished { call, result }),
        action: if more {
            ActionView::NextTool
        } else {
            ActionView::NextIteration
        },
    }
}

impl AgentRun {
    /// Begins a turn with the messages of a conversation.
    pub fn start(config: &LoopConfig, messages: Vec<Message>, baseline: Option<u64>) -> (r: Self)
        ensures
            r@ == started(*config, message_views(messages@), baseline),
            r@.wf(),
    {
        let initial_len: usize = messages.len();
        let ghost ms = message_views(messages@);
        let mut messages = messages;
        if let Some(prompt) = &config.system_prompt {
            if !any_system(&messages) {
                let first = Message::system(prompt.as_str());
                let ghost f = first@;
                messages.insert(0, first);
                assert(message_views(messages@) =~= seq![f] + ms);
            }
        }
        let calls: Vec<ToolCall> = Vec::new();
        assert(call_views(calls@) =~= Seq::<ToolCallView>::empty());
        AgentRun {
            max_iterations: config.max_iterations,
            max_duration: config.max_duration,
            compaction: config.compaction,
            context_window: config.context_window,
            initial_len,
            messages,
            metrics: LoopMetrics::default(),
            baseline,
            phase: Phase::Ready,
            answer: None,
            finish: FinishReason::Stop,
            context_tokens: 0,
            calls,
            done_calls: 0,
        }
    }

    /// Begins an iteration. `elapsed` is the time since the turn began.
    pub fn begin_iteration(&mut self, cancelled: bool, elapsed: u128) -> (r: Reaction)
        requires
            old(self)@.wf(),
            old(self)@.phase == Phase::Ready,
        ensures
            step_of(final(self)@, r) == iteration_begun(old(self)@, cancelled, elapsed),
            final(self)@.wf(),
    {
        let mut events = no_events();
        if cancelled {
            self.phase = Phase::Ended;
            push_event(&mut events, LoopEvent::Cancelled);
            return Reaction {
                events,
                action: Action::Fail(AgentRunError::Loop(LoopError::Cancelled)),
            };
        }
        if self.metrics.iterations >= self.max_iterations {
            self.phase = Phase::Ended;
            push_event(&mut events, LoopEvent::IterationsExhausted);
            return Reaction {
                events,
                action: Action::Fail(
                    AgentRunError::Loop(LoopError::MaxIterations(self.metrics.iterations)),
                ),
            };
        }
        if elapsed > self.max_duration {
            self.phase = Phase::Ended;
            return Reaction {
                events,
                action: Action::Fail(AgentRunError::Loop(LoopError::Timeout(elapsed))),
            };
        }
        self.phase = Phase::Asked;
        push_event(&mut events, LoopEvent::Thinking);
        Reaction { events, action: Action::Ask }
    }

    /// Ends the turn because the provider failed.
    pub fn provider_failed(self, partial: Option<Message>, error: ProviderError) -> (r:
        AgentRunError)
        requires
            self@.phase == Phase::Asked,
        ensures
            r@ == failed_turn(
                self@.messages,
                match partial {
                    Some(m) => Some(m@),
                    None => None,
                },
                self@.initial_len,
                error@,
            ),
    {
        build_failed_turn(self.messages, partial, self.initial_len, error)
    }

    /// Ends the turn because it was cancelled while the answer streamed.
    pub fn interrupted(self, partial: Option<Message>) -> (r: Reaction)
        requires
            self@.phase == Phase::Asked,
        ensures
            event_views(r.events@) == Seq::<EventView>::empty().push(EventView::Cancelled),
            r.action@ == ActionView::Fail(
                failed_turn(
                    self@.messages,
                    match partial {
                        Some(m) => Some(m@),
                        None => None,
                    },
                    self@.initial_len,
                    ProviderErrorView::Cancelled,
                ),
            ),
    {
        let mut events = no_events();
        push_event(&mut events, LoopEvent::Cancelled);
        let error = build_failed_turn(
            self.messages,
            partial,
            self.initial_len,
            ProviderError::Cancelled,
        );
        Reaction { events, action: Action::Fail(error) }
    }

    fn conclude(&mut self, events: Vec<LoopEvent>) -> (r: Reaction)
        requires
            old(self)@.answer is Some,
            old(self)@.metrics.iterations <= old(self)@.max_iterations,
            0 <= old(self)@.done_calls <= old(self)@.calls.len(),
        ensures
            step_of(final(self)@, r) == concluded(old(self)@, event_views(events@)),
            final(self)@.wf(),
    {
        let mut events = events;
        let ghost st = self@;
        match self.finish {
            FinishReason::Stop => {
                self.phase = Phase::Ended;
                let result = self.result();
                Reaction { events, action: Action::Finish(result) }
            },
            FinishReason::Length => {
                self.phase = Phase::Ended;
                push_event(&mut events, LoopEvent::LengthLimit);
                let result = self.result();
                Reaction { events, action: Action::Finish(result) }
            },
            FinishReason::ContentFilter => {
                self.phase = Phase::Ended;
                Reaction {
                    events,
                    action: Action::Fail(AgentRunError::Loop(LoopError::ContentFilter)),
                }
            },
            FinishReason::Error => {
                self.phase = Phase::Ended;
                Reaction {
                    events,
                    action: Action::Fail(
                        AgentRunError::Loop(
                            LoopError::Provider(
                                ProviderError::Other(
                                    "provider returned finish_reason=error".to_owned(),
                                ),
                            ),
                        ),
                    ),
                }
            },
            FinishReason::ToolUse => {
                let calls = match &self.answer {
                    Some(m) => match &m.tool_calls {
                        Some(cs) => copy_calls(cs),
                        None => Vec::new(),
                    },
                    None => Vec::new(),
                };
                assert(call_views(calls@) =~= match st.answer->0.tool_calls {
                    Some(cs) => cs,
                    None => Seq::empty(),
                });
                assert(call_views(calls@).len() == calls@.len());
                if calls.len() == 0 {
                    self.phase = Phase::Ended;
                    Reaction {
                        events,
                        action: Action::Fail(
                            AgentRunError::Loop(
                                LoopError::Provider(
                                    ProviderError::InvalidResponse(
                                        "finish_reason=tool_use but no tool_calls".to_owned(),
                                    ),
                                ),
                            ),
                        ),
                    }
                } else {
                    self.calls = calls;
                    self.done_calls = 0;
                    self.phase = Phase::Tools;
                    Reaction { events, action: Action::NextTool }
                }
            },
        }
    }

    fn result(&self) -> (r: RunResult)
        requires
            self@.answer is Some,
        ensures
            r@ == (RunResultView {
                final_message: self@.answer->0,
                messages: self@.messages,
                metrics: self@.metrics,
            }),
    {
        let final_message = match &self.answer {
            Some(m) => m.copy(),
            None => Message::assistant(""),
        };
        let messages = copy_messages(&self.messages, 0, self.messages.len());
        assert(self@.messages.subrange(0, self@.messages.len() as int) =~= self@.messages);
        RunResult { final_message, messages, metrics: self.metrics }
    }

    /// Takes the provider's answer.
    pub fn completed(&mut self, completion: Completion) -> (r: Reaction)
        requires
            old(self)@.wf(),
            old(self)@.phase == Phase::Asked,
        ensures
            step_of(final(self)@, r) == completed_step(
                old(self)@,
                completion.message@,
                completion.usage,
                completion.finish_reason,
            ),
            final(self)@.wf(),
    {
        let Completion { message, usage, finish_reason } = completion;
        let tokens: u64 = usage.prompt_context_tokens();
        self.metrics.iterations = self.metrics.iterations + 1;
        self.metrics.input_tokens = self.metrics.input_tokens.saturating_add(usage.input_tokens);
        self.metrics.cached_input_tokens = self.metrics.cached_input_tokens.saturating_add(
            usage.cached_input_tokens,
        );
        self.metrics.output_tokens = self.metrics.output_tokens.saturating_add(
            usage.output_tokens,
        );
        let mut events = no_events();
        if tokens > 0 {
            push_event(&mut events, LoopEvent::ContextUsageUpdated { used_tokens: tokens });
            if self.baseline.is_none() {
                self.baseline = Some(tokens);
            }
        }
        push_message(&mut self.messages, message.copy());
        push_event(&mut events, LoopEvent::AssistantMessage(message.copy()));
        self.answer = Some(message);
        self.finish = finish_reason;
        self.context_tokens = tokens;
        let regular = match finish_reason {
            FinishReason::Stop | FinishReason::Length | FinishReason::ToolUse => true,
            _ => false,
        };
        let over = match self.context_window {
            Some(w) => w.should_compress(tokens),
            None => false,
        };
        assert(self@ == answered(old(self)@, message@, usage, finish_reason));
        if regular && self.compaction && over {
            self.phase = Phase::Compacting;
            return Reaction { events, action: Action::Compact };
        }
        self.conclude(events)
    }

    /// Takes what came of a compaction.
    pub fn compacted(&mut self, outcome: CompactOutcome) -> (r: Reaction)
        requires
            old(self)@.wf(),
            old(self)@.phase == Phase::Compacting,
        ensures
            step_of(final(self)@, r) == compacted_step(old(self)@, outcome@),
            final(self)@.wf(),
    {
        let mut events = no_events();
        push_event(
            &mut events,
            event_of_compaction(
                CompressionTrigger::PostTurn,
                Some(self.context_tokens),
                self.baseline,
                &outcome,
            ),
        );
        if let CompactOutcome::Compressed { messages, duration: _, summary_output_tokens } = outcome {
            self.messages = messages;
            self.metrics.compressions = self.metrics.compressions.saturating_add(1);
            if let Some(n) = estimate_compacted(self.baseline, summary_output_tokens) {
                push_event(&mut events, LoopEvent::ContextUsageUpdated { used_tokens: n });
            }
        }
        self.conclude(events)
    }

    /// Begins the next tool call.
    pub fn begin_tool(&mut self, cancelled: bool) -> (r: Reaction)
        requires
            old(self)@.wf(),
            old(self)@.phase == Phase::Tools,
        ensures
            step_of(final(self)@, r) == tool_begun(old(self)@, cancelled),
            final(self)@.wf(),
    {
        let mut events = no_events();
        if cancelled {
            self.phase = Phase::Ended;
            push_event(&mut events, LoopEvent::Cancelled);
            return Reaction {
                events,
                action: Action::Fail(AgentRunError::Loop(LoopError::Cancelled)),
            };
        }
        assert(self@.calls[self@.done_calls] == self.calls@[self.done_calls as int]@);
        let call = self.calls[self.done_calls].copy();
        push_event(
            &mut events,
            LoopEvent::ToolCallStarted { call: call.copy(), iteration: self.metrics.iterations },
        );
        self.phase = Phase::Calling;
        Reaction { events, action: Action::CallTool(call) }
    }

    /// Takes the result of a tool call.
    pub fn tool_done(&mut self, result: Result<ToolOutput, ToolError>) -> (r: Reaction)
        requires
            old(self)@.wf(),
            old(self)@.phase == Phase::Calling,
        ensures
            step_of(final(self)@, r) == tool_finished(old(self)@, tool_result_view(result)),
            final(self)@.wf(),
    {
        assert(self@.calls[self@.done_calls] == self.calls@[self.done_calls as int]@);
        assert(self@.calls.len() == self.calls@.len());
        let call = self.calls[self.done_calls].copy();
        let text = match &result {
            Ok(out) => out.content.clone(),
            Err(e) => {
                let mut t = "Error: ".to_owned();
                t.append(e.message().as_str());
                t
            },
        };
        push_message(&mut self.messages, Message::tool_result(call.id.as_str(), text.as_str()));
        self.metrics.tool_calls = self.metrics.tool_calls.saturating_add(1);
        let total: usize = self.calls.len();
        self.done_calls = self.done_calls + 1;
        let mut events = no_events();
        push_event(&mut events, LoopEvent::ToolCallFinished { call, result });
        if self.done_calls < total {
            self.phase = Phase::Tools;
            Reaction { events, action: Action::NextTool }
        } else {
            self.phase = Phase::Ready;
            Reaction { events, action: Action::NextIteration }
        }
    }
}

// ---------------------------------------------------------------------
// Laws
// ---------------------------------------------------------------------

/// The turn after the tool calls that are left have been run one after the
/// other, with their results.
pub open spec fn tools_run(st: RunView, results: Seq<Result<Seq<char>, ToolErrorView>>) -> RunView
    decreases results.len(),
{
    if results.len() == 0 {
        st
    } else {
        let before = tools_run(st, results.drop_last());
        tool_finished(tool_begun(before, false).run, results.last()).run
    }
}

/// The messages that answer the first tool calls of a list.
pub open spec fn tool_messages(
    calls: Seq<ToolCallView>,
    results: Seq<Result<Seq<char>, ToolErrorView>>,
) -> Seq<MessageView> {
    Seq::new(results.len(), |i: int| tool_message(calls[i].id, result_text(results[i])))
}

proof fn lemma_tools_run(st: RunView, results: Seq<Result<Seq<char>, ToolErrorView>>)
    requires
        st.wf(),
        st.phase == Phase::Tools,
        st.done_calls == 0,
        results.len() <= st.calls.len(),
    ensures
        ({
            let end = tools_run(st, results);
            &&& end.messages == st.messages + tool_messages(st.calls, results)
            &&& end.calls == st.calls
            &&& end.done_calls == results.len()
            &&& end.metrics.iterations == st.metrics.iterations
            &&& end.max_iterations == st.max_iterations
            &&& end.phase == if results.len() < st.calls.len() {
                Phase::Tools
            } else {
                Phase::Ready
            }
        }),
    decreases results.len(),
{
    if results.len() == 0 {
        assert(st.messages + tool_messages(st.calls, results) =~= st.messages);
    } else {
        let n = results.len() - 1;
        lemma_tools_run(st, results.drop_last());
        assert(tool_messages(st.calls, results) =~= tool_messages(
            st.calls,
            results.drop_last(),
        ).push(tool_message(st.calls[n].id, result_text(results[n]))));
        assert(tools_run(st, results).messages =~= st.messages + tool_messages(st.calls, results));
    }
}

/// Every tool call of an answer is answered by one tool message with its
/// id, in the order of the calls, whether the tool succeeded or failed, and
/// the next iteration follows.
pub proof fn law_every_tool_call_is_answered(
    st: RunView,
    results: Seq<Result<Seq<char>, ToolErrorView>>,
)
    requires
        st.wf(),
        st.phase == Phase::Tools,
        st.done_calls == 0,
        results.len() == st.calls.len(),
    ensures
        tools_run(st, results).messages == st.messages + tool_messages(st.calls, results),
        tools_run(st, results).phase == Phase::Ready,
{
    lemma_tools_run(st, results);
}

/// A history is compressed before the tools of the answer run, and whatever
/// comes of it, all of them are run afterwards.
pub proof fn law_compression_keeps_the_tool_calls(
    st: RunView,
    message: MessageView,
    usage: Usage,
    outcome: CompactOutcomeView,
)
    requires
        message.tool_calls is Some,
        message.tool_calls->0.len() > 0,
        compresses(st, FinishReason::ToolUse, prompt_tokens(usage)),
    ensures
        ({
            let asked = completed_step(st, message, usage, FinishReason::ToolUse);
            let after = compacted_step(asked.run, outcome);
            &&& asked.action == ActionView::Compact
            &&& after.action == ActionView::NextTool
            &&& after.run.calls == message.tool_calls->0
            &&& after.run.done_calls == 0
        }),
{
}

/// A history is compressed of itself only where compaction is set up and
/// the provider has reported as many prompt tokens as the threshold.
pub proof fn law_compression_waits_for_the_threshold(
    st: RunView,
    message: MessageView,
    usage: Usage,
    finish: FinishReason,
)
    ensures
        completed_step(st, message, usage, finish).action == ActionView::Compact <==> is_regular(
            finish,
        ) && st.compaction && st.context_window is Some && prompt_tokens(usage)
            >= st.context_window->0.threshold,
{
}

/// After a compression the prompt tokens are reported as the first ones of
/// the session and the length of the summary.
pub proof fn law_usage_after_a_compression(
    st: RunView,
    messages: Seq<MessageView>,
    duration: u128,
    summary_output_tokens: u64,
)
    requires
        st.baseline is Some,
        st.baseline->0 + summary_output_tokens <= u64::MAX,
    ensures
        ({
            let outcome = CompactOutcomeView::Compressed {
                messages,
                duration,
                summary_output_tokens,
            };
            let step = compacted_step(st, outcome);
            &&& step.events.len() >= 2
            &&& step.events[1] == EventView::ContextUsageUpdated {
                used_tokens: (st.baseline->0 + summary_output_tokens) as u64,
            }
            &&& step.run.messages == messages
        }),
{
}

/// A turn that the provider breaks off after something was said keeps all
/// that was said, and its last message tells of the failure.
pub proof fn law_failure_keeps_the_history(
    messages: Seq<MessageView>,
    partial: Option<MessageView>,
    initial_len: int,
    error: ProviderErrorView,
)
    requires
        0 <= initial_len < messages.len() || (initial_len == messages.len() && partial is Some),
    ensures
        failed_turn(messages, partial, initial_len, error) matches RunErrorView::FailedTurn {
            messages: kept,
            error: text,
            source,
        } && messages.is_prefix_of(kept) && kept.last() == plain(Role::Assistant, text) && source
            == error && (partial is Some ==> kept[messages.len() as int] == partial->0),
{
}

/// A turn never asks more often than it may: whatever happens, a step from
/// a sound state leads to one, and a state that waits for an answer has an
/// iteration left.
pub proof fn law_iterations_are_bounded(
    st: RunView,
    cancelled: bool,
    elapsed: u128,
    message: MessageView,
    usage: Usage,
    finish: FinishReason,
)
    requires
        st.wf(),
    ensures
        st.phase == Phase::Ready ==> {
            let next = iteration_begun(st, cancelled, elapsed).run;
            next.wf() && next.metrics.iterations == st.metrics.iterations
        },
        st.phase == Phase::Asked ==> {
            let next = completed_step(st, message, usage, finish).run;
            next.wf() && next.metrics.iterations == st.metrics.iterations + 1
                && next.metrics.iterations <= next.max_iterations
        },
{
}

/// A history only grows, except where a compaction takes its place: a step
/// keeps every message there was.
pub proof fn law_history_only_grows(
    st: RunView,
    message: MessageView,
    usage: Usage,
    finish: FinishReason,
    outcome: CompactOutcomeView,
    result: Result<Seq<char>, ToolErrorView>,
)
    ensures
        st.messages.is_prefix_of(completed_step(st, message, usage, finish).run.messages),
        !(outcome is Compressed) ==> compacted_step(st, outcome).run.messages == st.messages,
        tool_begun(st, false).run.messages == st.messages,
        st.messages.is_prefix_of(tool_finished(st, result).run.messages),
{
}

/// The messages of a turn begin with at most one system message of the
/// settings, and what the conversation held is kept behind it.
pub proof fn law_system_prompt_goes_in_front(messages: Seq<MessageView>, prompt: Option<Seq<char>>)
    ensures
        ({
            let all = with_system_prompt(messages, prompt);
            &&& all.len() <= messages.len() + 1
            &&& all.subrange(all.len() - messages.len(), all.len() as int) == messages
            &&& prompt is Some ==> has_system(all)
        }),
{
    let all = with_system_prompt(messages, prompt);
    assert(all.subrange(all.len() - messages.len(), all.len() as int) =~= messages);
    if prompt is Some && !has_system(messages) {
        assert(all[0].role == Role::System);
    }
}

/// A turn starts with nothing counted, with the limits of the settings and
/// with all that the conversation holds.
pub proof fn law_turn_starts_fresh(
    config: LoopConfig,
    messages: Seq<MessageView>,
    baseline: Option<u64>,
)
    ensures
        ({
            let run = started(config, messages, baseline);
            &&& run.phase == Phase::Ready
            &&& run.max_iterations == config.max_iterations
            &&& run.max_duration == config.max_duration
            &&& run.compaction == config.compaction
            &&& run.context_window == config.context_window
            &&& run.initial_len == messages.len()
            &&& run.baseline == baseline
            &&& run.metrics.iterations == 0
            &&& run.metrics.input_tokens == 0
            &&& run.metrics.output_tokens == 0
            &&& run.metrics.tool_calls == 0
            &&& run.metrics.compressions == 0
            &&& config.system_prompt is None ==> run.messages == messages
            &&& config.system_prompt matches Some(p) ==> (!has_system(messages) ==> run.messages
                == seq![plain(Role::System, p@)] + messages)
            &&& has_system(messages) ==> run.messages == messages
        }),
{
}

/// The provider is asked just if nothing stops the turn: no cancellation,
/// an iteration left and time left. Each of these ends it in its own way,
/// and asking changes nothing of the history.
pub proof fn law_iteration_begins_unless_stopped(st: RunView, cancelled: bool, elapsed: u128)
    ensures
        ({
            let step = iteration_begun(st, cancelled, elapsed);
            &&& step.action == ActionView::Ask <==> !cancelled && st.metrics.iterations
                < st.max_iterations && elapsed <= st.max_duration
            &&& step.action == ActionView::Ask <==> step.run.phase == Phase::Asked
            &&& step.action != ActionView::Ask ==> step.run.phase == Phase::Ended
            &&& step.run.messages == st.messages
            &&& step.run.metrics == st.metrics
            &&& step.run.baseline == st.baseline
            &&& cancelled ==> step.action == ActionView::Fail(
                RunErrorView::Loop(LoopErrorView::Cancelled),
            ) && step.events == seq![EventView::Cancelled]
            &&& !cancelled && st.metrics.iterations >= st.max_iterations ==> step.action
                == ActionView::Fail(
                RunErrorView::Loop(LoopErrorView::MaxIterations(st.metrics.iterations)),
            ) && step.events == seq![EventView::IterationsExhausted]
            &&& !cancelled && st.metrics.iterations < st.max_iterations && elapsed
                > st.max_duration ==> step.action == ActionView::Fail(
                RunErrorView::Loop(LoopErrorView::Timeout(elapsed)),
            ) && step.events.len() == 0
            &&& step.action == ActionView::Ask ==> step.events == seq![EventView::Thinking]
        }),
{
    assert(iteration_begun(st, cancelled, elapsed).events.len() > 0 ==> iteration_begun(
        st,
        cancelled,
        elapsed,
    ).events =~= seq![iteration_begun(st, cancelled, elapsed).events[0]]);
}

/// Every answer is counted and becomes the last message of the history,
/// whatever follows from it: one iteration more, and its tokens on top of
/// those before. The first prompt that is reported is remembered.
pub proof fn law_every_answer_is_counted(
    st: RunView,
    message: MessageView,
    usage: Usage,
    finish: FinishReason,
)
    requires
        st.metrics.iterations < u32::MAX,
        st.metrics.input_tokens + usage.input_tokens <= u64::MAX,
        st.metrics.cached_input_tokens + usage.cached_input_tokens <= u64::MAX,
        st.metrics.output_tokens + usage.output_tokens <= u64::MAX,
        usage.input_tokens + usage.cached_input_tokens <= u64::MAX,
    ensures
        ({
            let run = completed_step(st, message, usage, finish).run;
            let prompt = usage.input_tokens + usage.cached_input_tokens;
            &&& run.metrics.iterations == st.metrics.iterations + 1
            &&& run.metrics.input_tokens == st.metrics.input_tokens + usage.input_tokens
            &&& run.metrics.cached_input_tokens == st.metrics.cached_input_tokens
                + usage.cached_input_tokens
            &&& run.metrics.output_tokens == st.metrics.output_tokens + usage.output_tokens
            &&& run.metrics.tool_calls == st.metrics.tool_calls
            &&& run.metrics.compressions == st.metrics.compressions
            &&& run.messages == st.messages.push(message)
            &&& st.baseline is Some ==> run.baseline == st.baseline
            &&& st.baseline is None && prompt > 0 ==> run.baseline == Some(prompt as u64)
            &&& st.baseline is None && prompt == 0 ==> run.baseline is None
            &&& run.initial_len == st.initial_len
            &&& run.max_iterations == st.max_iterations
        }),
{
}

/// Every answer is reported, and in front of it the prompt tokens that the
/// provider read, if it says any.
pub proof fn law_every_answer_is_reported(
    st: RunView,
    message: MessageView,
    usage: Usage,
    finish: FinishReason,
)
    requires
        usage.input_tokens + usage.cached_input_tokens <= u64::MAX,
    ensures
        ({
            let events = completed_step(st, message, usage, finish).events;
            let prompt = usage.input_tokens + usage.cached_input_tokens;
            &&& prompt > 0 ==> events.len() >= 2 && events[0] == (EventView::ContextUsageUpdated {
                used_tokens: prompt as u64,
            }) && events[1] == EventView::AssistantMessage(message)
            &&& prompt == 0 ==> events.len() >= 1 && events[0] == EventView::AssistantMessage(
                message,
            )
            &&& finish == FinishReason::Length && !(completed_step(
                st,
                message,
                usage,
                finish,
            ).action is Compact) ==> events.last() == EventView::LengthLimit
        }),
{
}

/// What follows from an answer is what its reason to stop says: one that is
/// done or cut off ends the turn with this answer and the whole history, one
/// that asks for tools has all of them run, and others fail.
pub proof fn law_reason_decides_what_follows(
    st: RunView,
    message: MessageView,
    usage: Usage,
    finish: FinishReason,
)
    requires
        !st.compaction,
    ensures
        ({
            let step = completed_step(st, message, usage, finish);
            let calls = message.tool_calls;
            &&& finish == FinishReason::Stop || finish == FinishReason::Length ==> {
                &&& step.action matches ActionView::Finish(r)
                &&& r.final_message == message
                &&& r.messages == st.messages.push(message)
                &&& r.metrics == step.run.metrics
                &&& step.run.phase == Phase::Ended
            }
            &&& finish == FinishReason::ToolUse && calls is Some && calls->0.len() > 0 ==> {
                &&& step.action == ActionView::NextTool
                &&& step.run.phase == Phase::Tools
                &&& step.run.calls == calls->0
                &&& step.run.done_calls == 0
            }
            &&& finish == FinishReason::ToolUse && (calls is None || calls->0.len() == 0)
                ==> step.action is Fail && step.run.phase == Phase::Ended
            &&& finish == FinishReason::ContentFilter ==> step.action == ActionView::Fail(
                RunErrorView::Loop(LoopErrorView::ContentFilter),
            )
            &&& finish == FinishReason::Error ==> (step.action matches ActionView::Fail(
                RunErrorView::Loop(LoopErrorView::Provider(_)),
            ))
        }),
{
}

/// A compaction that does nothing leaves the turn as if none were set up:
/// the same action follows on the same history.
pub proof fn law_compaction_only_delays(
    st: RunView,
    message: MessageView,
    usage: Usage,
    finish: FinishReason,
    outcome: CompactOutcomeView,
)
    requires
        completed_step(st, message, usage, finish).action == ActionView::Compact,
        !(outcome is Compressed),
    ensures
        ({
            let asked = completed_step(st, message, usage, finish);
            let after = compacted_step(asked.run, outcome);
            let plain_step = completed_step(
                RunView { compaction: false, ..st },
                message,
                usage,
                finish,
            );
            &&& after.action == plain_step.action
            &&& after.run.messages == plain_step.run.messages
            &&& after.run.metrics == plain_step.run.metrics
            &&& after.run.phase == plain_step.run.phase
            &&& after.run.calls == plain_step.run.calls
        }),
{
}

/// A compaction takes the place of the history, counts once, and is told of;
/// the answer that came before it still is the one of the turn.
pub proof fn law_compaction_replaces_the_history(
    st: RunView,
    messages: Seq<MessageView>,
    duration: u128,
    summary_output_tokens: u64,
)
    requires
        st.metrics.compressions < u32::MAX,
        st.answer is Some,
    ensures
        ({
            let step = compacted_step(
                st,
                CompactOutcomeView::Compressed { messages, duration, summary_output_tokens },
            );
            &&& step.run.messages == messages
            &&& step.run.metrics.compressions == st.metrics.compressions + 1
            &&& step.run.metrics.iterations == st.metrics.iterations
            &&& step.run.metrics.input_tokens == st.metrics.input_tokens
            &&& step.run.metrics.output_tokens == st.metrics.output_tokens
            &&& step.run.baseline == st.baseline
            &&& step.events.len() > 0
            &&& step.events[0] matches EventView::CompressionCompleted {
                trigger,
                context_tokens,
                duration: told,
                ..
            } && trigger == CompressionTrigger::PostTurn && context_tokens == Some(
                st.context_tokens,
            ) && told == duration
            &&& step.action matches ActionView::Finish(r) ==> r.final_message == st.answer->0
                && r.messages == messages
            &&& st.baseline is None ==> (forall|i: int|
                0 <= i < step.events.len() ==> !(#[trigger] step.events[i] is ContextUsageUpdated))
        }),
        compacted_step(
            st,
            CompactOutcomeView::Failed { error: Seq::empty() },
        ).run.metrics.compressions == st.metrics.compressions,
{
}

/// What is told of a compaction is what came of it: one that failed says
/// why, one that was passed over too, and one that was done says how much
/// the history takes now, if the first prompt of the session is known.
pub proof fn law_compaction_is_told_as_it_is(
    trigger: CompressionTrigger,
    context_tokens: Option<u64>,
    baseline: Option<u64>,
    outcome: CompactOutcomeView,
)
    ensures
        ({
            let event = compaction_event(trigger, context_tokens, baseline, outcome);
            &&& outcome matches CompactOutcomeView::Skipped(r) ==> event
                == EventView::CompressionSkipped { reason: r }
            &&& outcome matches CompactOutcomeView::Failed { error: e } ==> event
                == EventView::CompressionFailed { trigger, error: e }
            &&& outcome matches CompactOutcomeView::Compressed { duration: d, summary_output_tokens: n, .. } ==> {
                &&& event matches EventView::CompressionCompleted {
                    trigger: t,
                    context_tokens: c,
                    compacted_tokens: k,
                    duration: told,
                }
                &&& t == trigger
                &&& c == context_tokens
                &&& told == d
                &&& baseline is None ==> k is None
                &&& baseline is Some && baseline->0 + n <= u64::MAX ==> k == Some(
                    (baseline->0 + n) as u64,
                )
            }
        }),
{
}

/// The tool calls of an answer are run one after the other, each once: the
/// one that is begun is the next in order, and it is told of.
pub proof fn law_next_tool_is_begun(st: RunView, cancelled: bool)
    requires
        st.wf(),
        st.phase == Phase::Tools,
    ensures
        ({
            let step = tool_begun(st, cancelled);
            &&& !cancelled ==> step.action == ActionView::CallTool(st.calls[st.done_calls])
            &&& !cancelled ==> step.run.phase == Phase::Calling && step.run.done_calls
                == st.done_calls && step.run.calls == st.calls
            &&& !cancelled ==> step.events.len() == 1 && (step.events[0] matches EventView::ToolCallStarted { call, iteration } && call == st.calls[st.done_calls] && iteration
                == st.metrics.iterations)
            &&& cancelled ==> step.run.phase == Phase::Ended && step.action == ActionView::Fail(
                RunErrorView::Loop(LoopErrorView::Cancelled),
            )
            &&& cancelled ==> step.events.len() == 1 && step.events[0] is Cancelled
            &&& step.run.messages == st.messages
            &&& step.run.metrics == st.metrics
        }),
{
}

/// What a tool gave is fed back under the id of its call: what it returned,
/// or an error that tells what went wrong. The next call follows, and after
/// the last one the provider is asked again.
pub proof fn law_tool_result_is_fed_back(
    st: RunView,
    content: Seq<char>,
    e: ToolErrorView,
)
    requires
        st.wf(),
        st.phase == Phase::Calling,
        st.metrics.tool_calls < u32::MAX,
    ensures
        ({
            let good = tool_finished(st, Ok(content));
            let bad = tool_finished(st, Err(e));
            let call = st.calls[st.done_calls];
            &&& good.run.messages == st.messages.push(tool_message(call.id, content))
            &&& bad.run.messages == st.messages.push(
                tool_message(call.id, "Error: "@ + tool_error_text(e)),
            )
            &&& good.run.metrics.tool_calls == st.metrics.tool_calls + 1
            &&& bad.run.metrics.tool_calls == st.metrics.tool_calls + 1
            &&& good.run.done_calls == st.done_calls + 1
            &&& good.run.metrics.iterations == st.metrics.iterations
            &&& good.action == ActionView::NextIteration <==> st.done_calls + 1 == st.calls.len()
            &&& good.action == ActionView::NextTool <==> st.done_calls + 1 < st.calls.len()
            &&& bad.action == good.action
            &&& good.run.phase == bad.run.phase
            &&& good.action == ActionView::NextIteration ==> good.run.phase == Phase::Ready
            &&& good.action == ActionView::NextTool ==> good.run.phase == Phase::Tools
            &&& good.events.len() == 1 && good.events[0] == (EventView::ToolCallFinished {
                call,
                result: Ok(content),
            })
            &&& bad.events.len() == 1 && bad.events[0] == (EventView::ToolCallFinished {
                call,
                result: Err(e),
            })
        }),
{
}

/// A turn that the provider breaks off before anything was said is an error
/// of the provider and nothing more; its text names the error.
pub proof fn law_failure_without_history_is_plain(
    messages: Seq<MessageView>,
    initial_len: int,
    error: ProviderErrorView,
    partial: MessageView,
)
    requires
        messages.len() <= initial_len,
    ensures
        failed_turn(messages, None, initial_len, error) == RunErrorView::Loop(
            LoopErrorView::Provider(error),
        ),
        messages.len() == initial_len ==> (failed_turn(messages, Some(partial), initial_len, error)
            matches RunErrorView::FailedTurn { messages: kept, error: text, .. } && kept
            == messages.push(partial).push(plain(Role::Assistant, text)) && text
            == "Turn interrupted by error: provider error: "@ + provider_error_text(error)),
{
}

} // verus!
