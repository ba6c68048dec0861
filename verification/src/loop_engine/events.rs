//! What a turn reports while it runs and what it ends with.

use vstd::prelude::*;
use vstd::string::*;

use crate::message::{
    message_views, provider_error_text, Message, MessageView, ProviderError, ProviderErrorView,
    ToolCall, ToolCallView,
};
use crate::text::{decimal, decimal_text, decimal_wide};
use crate::tool::{opt_view, ToolError, ToolErrorView, ToolOutput};

verus! {

/// What led to a compression.
#[derive(Clone, Copy, Debug, PartialEq, Eq, Structural)]
pub enum CompressionTrigger {
    PostTurn,
    Manual,
}

/// Why a compression was passed over.
#[derive(Clone, Copy, Debug, PartialEq, Eq, Structural)]
pub enum CompressionSkipReason {
    Disabled,
    NothingToCompress,
}

/// Counts of a run. The duration is in nanoseconds.
#[derive(Clone, Copy, Debug, PartialEq, Eq, Structural)]
pub struct LoopMetrics {
    pub iterations: u32,
    pub tool_calls: u32,
    pub input_tokens: u64,
    pub cached_input_tokens: u64,
    pub output_tokens: u64,
    pub duration: u128,
    pub compressions: u32,
}

pub open spec fn no_metrics() -> LoopMetrics {
    LoopMetrics {
        iterations: 0,
        tool_calls: 0,
        input_tokens: 0,
        cached_input_tokens: 0,
        output_tokens: 0,
        duration: 0,
        compressions: 0,
    }
}

impl Default for LoopMetrics {
    fn default() -> (r: Self)
        ensures
            r == no_metrics(),
    {
        LoopMetrics {
            iterations: 0,
            tool_calls: 0,
            input_tokens: 0,
            cached_input_tokens: 0,
            output_tokens: 0,
            duration: 0,
            compressions: 0,
        }
    }
}

/// A piece of a tool call in a stream.
pub struct ToolCallDelta {
    pub index: usize,
    pub id: Option<String>,
    pub name: Option<String>,
    pub arguments_fragment: Option<String>,
}

pub ghost struct ToolDeltaView {
    pub index: usize,
    pub id: Option<Seq<char>>,
    pub name: Option<Seq<char>>,
    pub arguments_fragment: Option<Seq<char>>,
}

impl View for ToolCallDelta {
    type V = ToolDeltaView;

    open spec fn view(&self) -> ToolDeltaView {
        ToolDeltaView {
            index: self.index,
            id: opt_view(self.id),
            name: opt_view(self.name),
            arguments_fragment: opt_view(self.arguments_fragment),
        }
    }
}

pub fn copy_text(s: &Option<String>) -> (r: Option<String>)
    ensures
        opt_view(r) == opt_view(*s),
{
    match s {
        Some(t) => Some(t.clone()),
        None => None,
    }
}

impl ToolCallDelta {
    pub fn copy(&self) -> (r: ToolCallDelta)
        ensures
            r@ == self@,
    {
        ToolCallDelta {
            index: self.index,
            id: copy_text(&self.id),
            name: copy_text(&self.name),
            arguments_fragment: copy_text(&self.arguments_fragment),
        }
    }
}

/// The view of a tool's result.
pub open spec fn tool_result_view(r: Result<ToolOutput, ToolError>) -> Result<
    Seq<char>,
    ToolErrorView,
> {
    match r {
        Ok(out) => Ok(out.content@),
        Err(e) => Err(e@),
    }
}

/// What a turn reports. Durations are in nanoseconds.
pub enum LoopEvent {
    Thinking,
    ContentDelta(String),
    ReasoningDelta(String),
    ToolCallPartial(ToolCallDelta),
    AssistantMessage(Message),
    ToolCallStarted { call: ToolCall, iteration: u32 },
    ToolCallFinished { call: ToolCall, result: Result<ToolOutput, ToolError> },
    LengthLimit,
    IterationsExhausted,
    Cancelled,
    ContextUsageUpdated { used_tokens: u64 },
    CompressionCompleted {
        trigger: CompressionTrigger,
        /// The prompt tokens that led to it, unless it was asked for.
        context_tokens: Option<u64>,
        /// The best guess at the prompt tokens after it.
        compacted_tokens: Option<u64>,
        duration: u128,
    },
    CompressionSkipped { reason: CompressionSkipReason },
    CompressionFailed { trigger: CompressionTrigger, error: String },
}

#[verifier::ext_equal]
pub ghost enum EventView {
    Thinking,
    ContentDelta(Seq<char>),
    ReasoningDelta(Seq<char>),
    ToolCallPartial(ToolDeltaView),
    AssistantMessage(MessageView),
    ToolCallStarted { call: ToolCallView, iteration: u32 },
    ToolCallFinished { call: ToolCallView, result: Result<Seq<char>, ToolErrorView> },
    LengthLimit,
    IterationsExhausted,
    Cancelled,
    ContextUsageUpdated { used_tokens: u64 },
    CompressionCompleted {
        trigger: CompressionTrigger,
        context_tokens: Option<u64>,
        compacted_tokens: Option<u64>,
        duration: u128,
    },
    CompressionSkipped { reason: CompressionSkipReason },
    CompressionFailed { trigger: CompressionTrigger, error: Seq<char> },
}

impl View for LoopEvent {
    type V = EventView;

    open spec fn view(&self) -> EventView {
        match self {
            LoopEvent::Thinking => EventView::Thinking,
            LoopEvent::ContentDelta(s) => EventView::ContentDelta(s@),
            LoopEvent::ReasoningDelta(s) => EventView::ReasoningDelta(s@),
            LoopEvent::ToolCallPartial(d) => EventView::ToolCallPartial(d@),
            LoopEvent::AssistantMessage(m) => EventView::AssistantMessage(m@),
            LoopEvent::ToolCallStarted { call, iteration } => EventView::ToolCallStarted {
                call: call@,
                iteration: *iteration,
            },
            LoopEvent::ToolCallFinished { call, result } => EventView::ToolCallFinished {
                call: call@,
                result: tool_result_view(*result),
            },
            LoopEvent::LengthLimit => EventView::LengthLimit,
            LoopEvent::IterationsExhausted => EventView::IterationsExhausted,
            LoopEvent::Cancelled => EventView::Cancelled,
            LoopEvent::ContextUsageUpdated { used_tokens } => EventView::ContextUsageUpdated {
                used_tokens: *used_tokens,
            },
            LoopEvent::CompressionCompleted {
                trigger,
                context_tokens,
                compacted_tokens,
                duration,
            } => EventView::CompressionCompleted {
                trigger: *trigger,
                context_tokens: *context_tokens,
                compacted_tokens: *compacted_tokens,
                duration: *duration,
            },
            LoopEvent::CompressionSkipped { reason } => EventView::CompressionSkipped {
                reason: *reason,
            },
            LoopEvent::CompressionFailed { trigger, error } => EventView::CompressionFailed {
                trigger: *trigger,
                error: error@,
            },
        }
    }
}

pub open spec fn event_views(events: Seq<LoopEvent>) -> Seq<EventView> {
    Seq::new(events.len(), |i: int| events[i]@)
}

/// Appends an event to a list.
pub fn push_event(list: &mut Vec<LoopEvent>, event: LoopEvent)
    ensures
        event_views(final(list)@) == event_views(old(list)@).push(event@),
{
    let ghost before = event_views(list@);
    let ghost e = event@;
    list.push(event);
    assert(event_views(list@) =~= before.push(e));
}

/// A list without events.
pub fn no_events() -> (r: Vec<LoopEvent>)
    ensures
        event_views(r@) == Seq::<EventView>::empty(),
{
    let r: Vec<LoopEvent> = Vec::new();
    assert(event_views(r@) =~= Seq::<EventView>::empty());
    r
}

/// Why the loop ended without an answer. The time is in nanoseconds.
pub enum LoopError {
    Cancelled,
    MaxIterations(u32),
    Timeout(u128),
    ContentFilter,
    Provider(ProviderError),
}

pub ghost enum LoopErrorView {
    Cancelled,
    MaxIterations(u32),
    Timeout(u128),
    ContentFilter,
    Provider(ProviderErrorView),
}

impl View for LoopError {
    type V = LoopErrorView;

    open spec fn view(&self) -> LoopErrorView {
        match self {
            LoopError::Cancelled => LoopErrorView::Cancelled,
            LoopError::MaxIterations(n) => LoopErrorView::MaxIterations(*n),
            LoopError::Timeout(t) => LoopErrorView::Timeout(*t),
            LoopError::ContentFilter => LoopErrorView::ContentFilter,
            LoopError::Provider(e) => LoopErrorView::Provider(e@),
        }
    }
}

pub open spec fn loop_error_text(e: LoopErrorView) -> Seq<char> {
    match e {
        LoopErrorView::Cancelled => "cancelled"@,
        LoopErrorView::MaxIterations(n) => "max iterations reached: "@ + decimal(n as nat),
        LoopErrorView::Timeout(t) => "timed out after "@ + decimal(t as nat) + "ns"@,
        LoopErrorView::ContentFilter => "content filtered by provider"@,
        LoopErrorView::Provider(p) => "provider error: "@ + provider_error_text(p),
    }
}

/// The history of a turn that a provider interrupted.
pub struct FailedTurn {
    pub messages: Vec<Message>,
    pub error: String,
}

/// A turn that came to an answer.
pub struct RunResult {
    pub final_message: Message,
    pub messages: Vec<Message>,
    pub metrics: LoopMetrics,
}

/// Why a turn came to no answer.
pub enum AgentRunError {
    Loop(LoopError),
    FailedTurn { failed_turn: FailedTurn, source: ProviderError },
}

#[verifier::ext_equal]
pub ghost struct RunResultView {
    pub final_message: MessageView,
    pub messages: Seq<MessageView>,
    pub metrics: LoopMetrics,
}

#[verifier::ext_equal]
pub ghost enum RunErrorView {
    Loop(LoopErrorView),
    FailedTurn { messages: Seq<MessageView>, error: Seq<char>, source: ProviderErrorView },
}

impl View for RunResult {
    type V = RunResultView;

    open spec fn view(&self) -> RunResultView {
        RunResultView {
            final_message: self.final_message@,
            messages: message_views(self.messages@),
            metrics: self.metrics,
        }
    }
}

impl View for AgentRunError {
    type V = RunErrorView;

    open spec fn view(&self) -> RunErrorView {
        match self {
            AgentRunError::Loop(e) => RunErrorView::Loop(e@),
            AgentRunError::FailedTurn { failed_turn, source } => RunErrorView::FailedTurn {
                messages: message_views(failed_turn.messages@),
                error: failed_turn.error@,
                source: source@,
            },
        }
    }
}

pub open spec fn run_error_text(e: RunErrorView) -> Seq<char> {
    match e {
        RunErrorView::Loop(l) => loop_error_text(l),
        RunErrorView::FailedTurn { source, .. } => "provider error with partial response: "@
            + provider_error_text(source),
    }
}

impl LoopError {
    pub fn message(&self) -> (r: String)
        ensures
            r@ == loop_error_text(self@),
    {
        match self {
            LoopError::Cancelled => "cancelled".to_owned(),
            LoopError::MaxIterations(n) => {
                let mut out = "max iterations reached: ".to_owned();
                out.append(decimal_text(*n as u64).as_str());
                out
            },
            LoopError::Timeout(t) => {
                let mut out = "timed out after ".to_owned();
                out.append(decimal_wide(*t).as_str());
                out.append("ns");
                out
            },
            LoopError::ContentFilter => "content filtered by provider".to_owned(),
            LoopError::Provider(p) => {
                let mut out = "provider error: ".to_owned();
                out.append(p.message().as_str());
                out
            },
        }
    }
}

impl AgentRunError {
    pub fn message(&self) -> (r: String)
        ensures
            r@ == run_error_text(self@),
    {
        match self {
            AgentRunError::Loop(e) => e.message(),
            AgentRunError::FailedTurn { failed_turn: _, source } => {
                let mut out = "provider error with partial response: ".to_owned();
                out.append(source.message().as_str());
                out
            },
        }
    }
}

/// The text of an error ends with what went wrong: the limit that was
/// reached, or the words of the provider.
pub proof fn law_errors_say_what_went_wrong(n: u32, p: ProviderErrorView, messages: Seq<MessageView>, error: Seq<char>)
    ensures
        crate::text::ends_with(
            loop_error_text(LoopErrorView::MaxIterations(n)),
            decimal(n as nat),
        ),
        crate::text::ends_with(
            loop_error_text(LoopErrorView::Provider(p)),
            provider_error_text(p),
        ),
        crate::text::ends_with(
            run_error_text(RunErrorView::FailedTurn { messages, error, source: p }),
            provider_error_text(p),
        ),
        run_error_text(RunErrorView::Loop(LoopErrorView::Provider(p))) == loop_error_text(
            LoopErrorView::Provider(p),
        ),
{
    let a = loop_error_text(LoopErrorView::MaxIterations(n));
    assert(a.skip(a.len() - decimal(n as nat).len()) =~= decimal(n as nat));
    let t = provider_error_text(p);
    let b = loop_error_text(LoopErrorView::Provider(p));
    assert(b.skip(b.len() - t.len()) =~= t);
    let c = run_error_text(RunErrorView::FailedTurn { messages, error, source: p });
    assert(c.skip(c.len() - t.len()) =~= t);
}

} // verus!
