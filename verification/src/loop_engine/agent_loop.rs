//! The agent: its tools and settings, and what a turn does to a
//! conversation.

use vstd::prelude::*;
use vstd::string::*;

use crate::compaction::{
    anchor_split, compact_error_text, first_with_role, lemma_first_with_role, opt_str,
    summary_message, CompactError, CompactErrorView, CompactionResult,
};
use crate::config::{provider_fault, resolved, AgentConfig, ConfigError, PerryHermesConfig};
use crate::loop_engine::events::{
    AgentRunError, CompressionSkipReason, CompressionTrigger, LoopEvent, RunErrorView, RunResult,
    RunResultView,
};
use crate::loop_engine::run::{
    compaction_event, event_of_compaction, started, AgentRun, CompactOutcome, CompactOutcomeView,
    ContextWindow, LoopConfig,
};
use crate::message::{message_views, plain, push_message, Message, MessageView, Role};
use crate::prompting::{
    block_views, build_system_message, prompt_prefix, prompt_text, LoadedBlock,
    DEFAULT_SYSTEM_PROMPT,
};
use crate::session::{
    new_session, opt_message, opt_save, outbound, restored, save_of, AgentSession, SaveRequest,
    SessionSnapshot, SessionView,
};
use crate::text::views;
use crate::tool::{opt_view, ToolContext, ToolPermissions};
use crate::tool_catalog::{build_registry, builtin_tools, InMemoryRegistry};

verus! {

/// The first `n` messages without those of the system.
pub open spec fn without_system_to(messages: Seq<MessageView>, n: int) -> Seq<MessageView>
    decreases n,
{
    if n <= 0 {
        Seq::empty()
    } else if messages[n - 1].role == Role::System {
        without_system_to(messages, n - 1)
    } else {
        without_system_to(messages, n - 1).push(messages[n - 1])
    }
}

/// The messages without those of the system: what a conversation keeps in
/// its log.
pub open spec fn without_system(messages: Seq<MessageView>) -> Seq<MessageView> {
    without_system_to(messages, messages.len() as int)
}

pub fn strip_system_message(messages: &Vec<Message>) -> (r: Vec<Message>)
    ensures
        message_views(r@) == without_system(message_views(messages@)),
{
    let ghost ms = message_views(messages@);
    let mut out: Vec<Message> = Vec::new();
    assert(message_views(out@) =~= Seq::<MessageView>::empty());
    let mut i: usize = 0;
    while i < messages.len()
        invariant
            i <= messages@.len(),
            ms == message_views(messages@),
            message_views(out@) == without_system_to(ms, i as int),
        decreases messages.len() - i,
    {
        assert(ms[i as int] == messages@[i as int]@);
        if messages[i].role != Role::System {
            push_message(&mut out, messages[i].copy());
        }
        i += 1;
    }
    out
}

// ---------------------------------------------------------------------
// Compaction
// ---------------------------------------------------------------------

/// What became of a compaction that was tried.
pub enum CompactAttempt {
    /// Another one was under way.
    Busy,
    Finished(Result<CompactionResult, CompactError>),
}

/// What a try comes to: one beside another counts as nothing to do, and so
/// does one that finds nothing.
pub open spec fn outcome_of(attempt: CompactAttempt, duration: u128) -> CompactOutcomeView {
    match attempt {
        CompactAttempt::Busy => CompactOutcomeView::Skipped(
            CompressionSkipReason::NothingToCompress,
        ),
        CompactAttempt::Finished(Ok(r)) => CompactOutcomeView::Compressed {
            messages: message_views(r.messages@),
            duration,
            summary_output_tokens: r.summary_usage.output_tokens,
        },
        CompactAttempt::Finished(Err(e)) => match e@ {
            CompactErrorView::NothingToCompress => CompactOutcomeView::Skipped(
                CompressionSkipReason::NothingToCompress,
            ),
            other => CompactOutcomeView::Failed { error: compact_error_text(other) },
        },
    }
}

/// What a compaction that was tried comes to. It took `duration`
/// nanoseconds.
pub fn try_compact(attempt: CompactAttempt, duration: u128) -> (r: CompactOutcome)
    ensures
        r@ == outcome_of(attempt, duration),
{
    match attempt {
        CompactAttempt::Busy => CompactOutcome::Skipped(CompressionSkipReason::NothingToCompress),
        CompactAttempt::Finished(Ok(r)) => CompactOutcome::Compressed {
            messages: r.messages,
            duration,
            summary_output_tokens: r.summary_usage.output_tokens,
        },
        CompactAttempt::Finished(Err(e)) => match e {
            CompactError::NothingToCompress => CompactOutcome::Skipped(
                CompressionSkipReason::NothingToCompress,
            ),
            CompactError::SummaryFailed(_) => CompactOutcome::Failed { error: e.message() },
        },
    }
}

/// What a compaction is to keep in view: the topic of the settings goes
/// before that of the caller.
pub open spec fn focus_of(config_focus: Option<Seq<char>>, focus_topic: Option<Seq<char>>) -> Option<
    Seq<char>,
> {
    match config_focus {
        Some(t) => Some(t),
        None => focus_topic,
    }
}

/// The messages after a compaction that was asked for.
pub open spec fn compacted_messages(
    messages: Seq<MessageView>,
    outcome: CompactOutcomeView,
) -> Seq<MessageView> {
    match outcome {
        CompactOutcomeView::Compressed { messages: new, .. } => new,
        _ => messages,
    }
}

/// What comes of a compaction that is asked for: where none is set up, it
/// is passed over.
pub open spec fn manual_outcome(
    compaction: bool,
    attempt: CompactAttempt,
    duration: u128,
) -> CompactOutcomeView {
    if compaction {
        outcome_of(attempt, duration)
    } else {
        CompactOutcomeView::Skipped(CompressionSkipReason::Disabled)
    }
}

// ---------------------------------------------------------------------
// The agent
// ---------------------------------------------------------------------

impl LoopConfig {
    /// The loop's settings of an agent: ten iterations unless it says
    /// otherwise, and no system prompt, which the conversation has.
    pub fn for_agent(agent: &AgentConfig, context_window: Option<ContextWindow>) -> (r: LoopConfig)
        ensures
            r.max_iterations == match agent.max_iterations {
                Some(n) => n,
                None => 10,
            },
            r.max_duration == 600_000_000_000,
            r.system_prompt is None,
            r.compaction == agent.context_compression_enabled,
            r.context_window == context_window,
            r.focus_topic is None,
    {
        let mut config = LoopConfig::default();
        config.max_iterations =
        match agent.max_iterations {
            Some(n) => n,
            None => 10,
        };
        config.compaction = agent.context_compression_enabled;
        config.context_window = context_window;
        config
    }
}

/// The tools and the settings that turns run with.
pub struct AgentLoop {
    pub registry: InMemoryRegistry,
    pub config: LoopConfig,
}

/// Whether an agent is the one of some settings, with a context of the size
/// that is given, if it is known.
pub open spec fn is_agent_of(a: AgentLoop, agent: AgentConfig, window: Option<ContextWindow>) -> bool {
    &&& a.registry@ == builtin_tools(views(agent.disabled_toolsets@))
    &&& a.config.max_iterations == match agent.max_iterations {
        Some(n) => n,
        None => 10,
    }
    &&& a.config.max_duration == 600_000_000_000
    &&& a.config.system_prompt is None
    &&& a.config.compaction == agent.context_compression_enabled
    &&& a.config.context_window == window
    &&& a.config.focus_topic is None
}

/// The conversation after a turn: the history of one that ended or broke
/// off takes the place of the log, and other failures leave it as it was.
pub open spec fn settled(s: SessionView, result: Result<RunResultView, RunErrorView>) -> SessionView {
    match result {
        Ok(r) => SessionView { messages: without_system(r.messages), ..s },
        Err(RunErrorView::FailedTurn { messages, .. }) => SessionView {
            messages: without_system(messages),
            ..s
        },
        Err(RunErrorView::Loop(_)) => s,
    }
}

/// The view of how a turn ended.
pub open spec fn turn_view(r: Result<RunResult, AgentRunError>) -> Result<
    RunResultView,
    RunErrorView,
> {
    match r {
        Ok(x) => Ok(x@),
        Err(e) => Err(e@),
    }
}

impl AgentLoop {
    pub fn from_parts(registry: InMemoryRegistry, config: LoopConfig) -> (r: Self)
        ensures
            r.registry == registry,
            r.config == config,
    {
        AgentLoop { registry, config }
    }

    /// The agent of some settings. `api_key` is the value of the variable
    /// that the provider names for its key, `threshold` the prompt tokens
    /// from which on a history is compressed.
    pub fn from_config(
        config: &PerryHermesConfig,
        api_key: &Option<String>,
        threshold: u64,
        skills_dir: &str,
    ) -> (r: Result<Self, ConfigError>)
        ensures
            match resolved(*config) {
                Err(e) => r is Err && r->Err_0@ == e,
                Ok(p) => match provider_fault(p, opt_view(*api_key)) {
                    Some(e) => r is Err && r->Err_0@ == e,
                    None => r is Ok && is_agent_of(
                        r->Ok_0,
                        config.agent,
                        Some(ContextWindow { max_tokens: p.context_window_size, threshold }),
                    ),
                },
            },
    {
        let selected = match config.resolve_provider() {
            Ok(p) => p,
            Err(e) => {
                return Err(e);
            },
        };
        if let Some(e) = selected.check(api_key) {
            return Err(e);
        }
        let window = ContextWindow { max_tokens: selected.context_window_size, threshold };
        Ok(
            AgentLoop::from_parts(
                build_registry(&config.agent.disabled_toolsets, skills_dir),
                LoopConfig::for_agent(&config.agent, Some(window)),
            ),
        )
    }

    /// The agent of some settings, with a provider of the caller's own. The
    /// size of the context is known where the settings name a model.
    pub fn new(config: &PerryHermesConfig, threshold: u64, skills_dir: &str) -> (r: Self)
        ensures
            is_agent_of(
                r,
                config.agent,
                match resolved(*config) {
                    Ok(p) => Some(ContextWindow { max_tokens: p.context_window_size, threshold }),
                    Err(_) => None,
                },
            ),
    {
        let window = match config.resolve_provider() {
            Ok(p) => Some(ContextWindow { max_tokens: p.context_window_size, threshold }),
            Err(_) => None,
        };
        AgentLoop::from_parts(
            build_registry(&config.agent.disabled_toolsets, skills_dir),
            LoopConfig::for_agent(&config.agent, window),
        )
    }

    /// The system message of a conversation in a working directory.
    pub fn system_message_for(
        &self,
        working_dir: &str,
        skills_block: &str,
        blocks: &Vec<LoadedBlock>,
    ) -> (r: Option<Message>)
        ensures
            opt_message(r) == Some(
                plain(
                    Role::System,
                    prompt_text(
                        prompt_prefix(DEFAULT_SYSTEM_PROMPT@, skills_block@),
                        block_views(blocks@),
                        working_dir@,
                    ),
                ),
            ),
    {
        build_system_message(working_dir, skills_block, blocks)
    }

    /// A new conversation. Its system message is put together now and stays
    /// as it is.
    pub fn new_session(
        &self,
        session_id: &str,
        working_dir: &str,
        skills_block: &str,
        blocks: &Vec<LoadedBlock>,
    ) -> (r: AgentSession)
        ensures
            r@ == new_session(
                session_id@,
                working_dir@,
                Some(
                    plain(
                        Role::System,
                        prompt_text(
                            prompt_prefix(DEFAULT_SYSTEM_PROMPT@, skills_block@),
                            block_views(blocks@),
                            working_dir@,
                        ),
                    ),
                ),
            ),
    {
        let system_message = self.system_message_for(working_dir, skills_block, blocks);
        AgentSession::new(session_id, working_dir, system_message)
    }

    /// A conversation that was kept in a file, with a system message for
    /// the current directory.
    pub fn load_json_session(
        &self,
        path: &str,
        snapshot: SessionSnapshot,
        current_dir: Option<&str>,
        skills_block: &str,
        blocks: &Vec<LoadedBlock>,
    ) -> (r: AgentSession)
        ensures
            ({
                let dir = match current_dir {
                    Some(d) => d@,
                    None => "."@,
                };
                r@ == restored(
                    path@,
                    snapshot@,
                    Some(dir),
                    Some(
                        plain(
                            Role::System,
                            prompt_text(
                                prompt_prefix(DEFAULT_SYSTEM_PROMPT@, skills_block@),
                                block_views(blocks@),
                                dir,
                            ),
                        ),
                    ),
                )
            }),
    {
        let dir = match current_dir {
            Some(d) => d,
            None => ".",
        };
        let system_message = self.system_message_for(dir, skills_block, blocks);
        AgentSession::load_json_file_with_system_message(
            path,
            snapshot,
            Some(dir.to_owned()),
            system_message,
        )
    }

    /// Begins a turn: what the user says is appended to the log, and the
    /// loop starts with the system message and the log.
    pub fn run_session_turn(&self, user_text: &str, session: &mut AgentSession) -> (r: (
        AgentRun,
        Option<SaveRequest>,
    ))
        ensures
            final(session)@ == (SessionView {
                messages: old(session)@.messages.push(plain(Role::User, user_text@)),
                ..old(session)@
            }),
            opt_save(r.1) == save_of(final(session)@),
            r.0@ == started(
                self.config,
                outbound(final(session)@),
                final(session)@.context_usage_baseline_tokens,
            ),
            r.0@.wf(),
    {
        let save = session.append_message(Message::user(user_text));
        (self.run_current_session(session), save)
    }

    /// Begins a turn with the log as it is.
    pub fn run_current_session(&self, session: &AgentSession) -> (r: AgentRun)
        ensures
            r@ == started(
                self.config,
                outbound(session@),
                session@.context_usage_baseline_tokens,
            ),
            r@.wf(),
    {
        AgentRun::start(
            &self.config,
            session.outbound_messages(),
            session.context_usage_baseline_tokens,
        )
    }

    /// Ends a turn: what is kept of it in the conversation, and what to
    /// write.
    pub fn settle(&self, session: &mut AgentSession, result: &Result<RunResult, AgentRunError>) -> (r:
        Option<SaveRequest>)
        ensures
            final(session)@ == settled(old(session)@, turn_view(*result)),
            opt_save(r) == match turn_view(*result) {
                Err(RunErrorView::Loop(_)) => None,
                _ => save_of(final(session)@),
            },
    {
        match result {
            Ok(run_result) => session.replace_messages(strip_system_message(&run_result.messages)),
            Err(AgentRunError::FailedTurn { failed_turn, source: _ }) => session.replace_messages(
                strip_system_message(&failed_turn.messages),
            ),
            Err(AgentRunError::Loop(_)) => None,
        }
    }

    /// What the tools of a turn know of it. They may start processes.
    pub fn tool_context(&self, session: &AgentSession) -> (r: ToolContext)
        ensures
            r.session_id@ == session@.session_id,
            r.working_dir@ == session@.working_dir,
            r.permissions.subprocess,
    {
        ToolContext {
            session_id: session.session_id.clone(),
            working_dir: session.working_dir.clone(),
            permissions: ToolPermissions { subprocess: true },
        }
    }

    /// What a compaction is to keep in view.
    pub fn compaction_focus(&self, focus_topic: Option<&str>) -> (r: Option<String>)
        ensures
            opt_view(r) == focus_of(opt_view(self.config.focus_topic), opt_str(focus_topic)),
    {
        match &self.config.focus_topic {
            Some(t) => Some(t.clone()),
            None => match focus_topic {
                Some(t) => Some(t.to_owned()),
                None => None,
            },
        }
    }

    /// What comes of a compaction that is asked for: the messages after it
    /// and what to report.
    pub fn compact_messages(
        &self,
        messages: Vec<Message>,
        attempt: CompactAttempt,
        duration: u128,
        baseline: Option<u64>,
    ) -> (r: (Vec<Message>, LoopEvent))
        ensures
            ({
                let outcome = manual_outcome(self.config.compaction, attempt, duration);
                &&& message_views(r.0@) == compacted_messages(message_views(messages@), outcome)
                &&& r.1@ == compaction_event(CompressionTrigger::Manual, None, baseline, outcome)
            }),
    {
        if !self.config.compaction {
            return (
                messages,
                LoopEvent::CompressionSkipped { reason: CompressionSkipReason::Disabled },
            );
        }
        let outcome = try_compact(attempt, duration);
        let event = event_of_compaction(CompressionTrigger::Manual, None, baseline, &outcome);
        match outcome {
            CompactOutcome::Compressed { messages: new, duration: _, summary_output_tokens: _ } =>
                (new, event),
            _ => (messages, event),
        }
    }

    /// Compacts a conversation: what to report and what to write. The log
    /// changes only where something was compressed.
    pub fn compact_session(
        &self,
        session: &mut AgentSession,
        attempt: CompactAttempt,
        duration: u128,
    ) -> (r: (LoopEvent, Option<SaveRequest>))
        ensures
            ({
                let outcome = manual_outcome(self.config.compaction, attempt, duration);
                &&& r.0@ == compaction_event(
                    CompressionTrigger::Manual,
                    None,
                    old(session)@.context_usage_baseline_tokens,
                    outcome,
                )
                &&& final(session)@ == match outcome {
                    CompactOutcomeView::Compressed { messages, .. } => SessionView {
                        messages: without_system(messages),
                        ..old(session)@
                    },
                    _ => old(session)@,
                }
                &&& opt_save(r.1) == match outcome {
                    CompactOutcomeView::Compressed { .. } => save_of(final(session)@),
                    _ => None,
                }
            }),
    {
        let (messages, event) = self.compact_messages(
            session.outbound_messages(),
            attempt,
            duration,
            session.context_usage_baseline_tokens,
        );
        match event {
            LoopEvent::CompressionCompleted { .. } => {
                let save = session.replace_messages(strip_system_message(&messages));
                (event, save)
            },
            _ => (event, None),
        }
    }
}

// ---------------------------------------------------------------------
// Laws
// ---------------------------------------------------------------------

/// Whether no message is of the system.
pub open spec fn no_system(messages: Seq<MessageView>) -> bool {
    forall|i: int| 0 <= i < messages.len() ==> (#[trigger] messages[i]).role != Role::System
}

/// A conversation whose system message is one, and whose log has none.
pub open spec fn is_sound(s: SessionView) -> bool {
    no_system(s.messages) && match s.system_message {
        Some(m) => m.role == Role::System,
        None => true,
    }
}

proof fn lemma_without_system_concat(a: Seq<MessageView>, b: Seq<MessageView>, n: int)
    requires
        0 <= n <= b.len(),
    ensures
        without_system_to(a + b, a.len() + n) == without_system(a) + without_system_to(b, n),
    decreases n,
{
    if n == 0 {
        lemma_without_system_prefix(a, a + b, a.len() as int);
        assert(without_system(a) + without_system_to(b, 0) =~= without_system(a));
    } else {
        lemma_without_system_concat(a, b, n - 1);
        assert((a + b)[a.len() + n - 1] == b[n - 1]);
        assert(without_system(a) + without_system_to(b, n - 1).push(b[n - 1]) =~= (without_system(a)
            + without_system_to(b, n - 1)).push(b[n - 1]));
    }
}

proof fn lemma_without_system_prefix(a: Seq<MessageView>, b: Seq<MessageView>, n: int)
    requires
        0 <= n <= a.len() <= b.len(),
        forall|i: int| 0 <= i < n ==> a[i] == b[i],
    ensures
        without_system_to(a, n) == without_system_to(b, n),
    decreases n,
{
    if n > 0 {
        lemma_without_system_prefix(a, b, n - 1);
    }
}

proof fn lemma_without_system_keeps(a: Seq<MessageView>, n: int)
    requires
        0 <= n <= a.len(),
        no_system(a),
    ensures
        without_system_to(a, n) == a.take(n),
    decreases n,
{
    if n > 0 {
        lemma_without_system_keeps(a, n - 1);
        assert(a.take(n - 1).push(a[n - 1]) =~= a.take(n));
    }
    assert(n == 0 ==> a.take(n) =~= Seq::<MessageView>::empty());
}

proof fn lemma_stripped_has_no_system(a: Seq<MessageView>, n: int)
    requires
        0 <= n <= a.len(),
    ensures
        no_system(without_system_to(a, n)),
    decreases n,
{
    if n > 0 {
        lemma_stripped_has_no_system(a, n - 1);
    }
}

/// Stripping what a provider is sent gives the log back, so a turn that
/// adds messages extends the log by just these; the system message is never
/// lost and never gets into the log.
pub proof fn law_turn_extends_the_log(s: SessionView, new: Seq<MessageView>)
    requires
        is_sound(s),
        no_system(new),
    ensures
        without_system(outbound(s)) == s.messages,
        without_system(outbound(s) + new) == s.messages + new,
{
    lemma_without_system_concat(outbound(s), new, new.len() as int);
    lemma_without_system_keeps(new, new.len() as int);
    assert(new.take(new.len() as int) =~= new);
    lemma_without_system_keeps(s.messages, s.messages.len() as int);
    assert(s.messages.take(s.messages.len() as int) =~= s.messages);
    match s.system_message {
        Some(m) => {
            lemma_without_system_concat(seq![m], s.messages, s.messages.len() as int);
            reveal_with_fuel(without_system_to, 2);
            assert(without_system(seq![m]) + s.messages =~= s.messages);
        },
        None => {},
    }
}

/// However a turn ends, the log stays free of system messages, and the
/// system message of the conversation is the one it was.
pub proof fn law_turn_keeps_the_session_sound(
    s: SessionView,
    result: Result<RunResultView, RunErrorView>,
)
    requires
        is_sound(s),
    ensures
        is_sound(settled(s, result)),
        settled(s, result).system_message == s.system_message,
        settled(s, result).session_id == s.session_id,
        settled(s, result).store == s.store,
{
    match result {
        Ok(r) => lemma_stripped_has_no_system(r.messages, r.messages.len() as int),
        Err(RunErrorView::FailedTurn { messages, .. }) => lemma_stripped_has_no_system(
            messages,
            messages.len() as int,
        ),
        Err(_) => {},
    }
}

/// After a compaction the log is the first user message and the summary,
/// and what is sent has the system message in front of them, however often
/// the conversation is compacted.
pub proof fn law_compacted_log_is_first_user_and_summary(s: SessionView, summary: Seq<char>)
    requires
        is_sound(s),
        anchor_split(outbound(s)) is Some,
    ensures
        ({
            let anchors = anchor_split(outbound(s))->0.anchors;
            let after = SessionView {
                messages: without_system(anchors.push(summary_message(summary))),
                ..s
            };
            let u = first_with_role(s.messages, Role::User, 0);
            &&& 0 <= u < s.messages.len()
            &&& after.messages == seq![s.messages[u], summary_message(summary)]
            &&& is_sound(after)
            &&& s.system_message is Some ==> outbound(after) == seq![
                s.system_message->0,
                s.messages[u],
                summary_message(summary),
            ]
        }),
{
    let all = outbound(s);
    let anchors = anchor_split(all)->0.anchors;
    let sm = summary_message(summary);
    lemma_first_with_role(all, Role::System, 0);
    lemma_first_with_role(all, Role::User, 0);
    lemma_first_with_role(s.messages, Role::User, 0);
    let u = first_with_role(all, Role::User, 0);
    let v = first_with_role(s.messages, Role::User, 0);
    let kept = anchors.push(sm);
    reveal_with_fuel(without_system_to, 4);
    match s.system_message {
        Some(m) => {
            assert(all[0] == m);
            assert(forall|i: int| 0 < i < all.len() ==> all[i] == s.messages[i - 1]);
            assert(u > 0);
            assert(s.messages[u - 1] == all[u]);
            assert(v <= u - 1);
            assert(v < s.messages.len());
            assert(all[v + 1] == s.messages[v]);
            assert(v + 1 >= u);
            assert(kept =~= seq![m, s.messages[v], sm]);
            assert(without_system(kept) =~= seq![s.messages[v], sm]);
            let after = SessionView { messages: without_system(kept), ..s };
            assert(outbound(after) =~= seq![m, s.messages[v], sm]);
        },
        None => {
            assert(kept =~= seq![s.messages[v], sm]);
            assert(without_system(kept) =~= seq![s.messages[v], sm]);
        },
    }
}

/// Stripping takes away the messages of the system and no other, and keeps
/// the order.
pub proof fn law_stripping_takes_system_messages_only(
    a: Seq<MessageView>,
    b: Seq<MessageView>,
    m: MessageView,
)
    ensures
        without_system(a + b) == without_system(a) + without_system(b),
        m.role == Role::System ==> without_system(seq![m]) == Seq::<MessageView>::empty(),
        m.role != Role::System ==> without_system(seq![m]) == seq![m],
        no_system(a) ==> without_system(a) == a,
{
    lemma_without_system_concat(a, b, b.len() as int);
    reveal_with_fuel(without_system_to, 2);
    assert(without_system(seq![m]) =~= if m.role == Role::System {
        Seq::empty()
    } else {
        seq![m]
    });
    if no_system(a) {
        lemma_without_system_keeps(a, a.len() as int);
        assert(a.take(a.len() as int) =~= a);
    }
}

/// What a turn leaves in the log: the history that it ended with, also if
/// the provider broke it off, and the log as it was if it came to nothing.
pub proof fn law_log_keeps_what_was_said(
    s: SessionView,
    result: RunResultView,
    messages: Seq<MessageView>,
    text: Seq<char>,
    source: crate::message::ProviderErrorView,
    e: crate::loop_engine::events::LoopErrorView,
)
    ensures
        no_system(result.messages) ==> settled(s, Ok(result)).messages == result.messages,
        no_system(messages) ==> settled(
            s,
            Err(RunErrorView::FailedTurn { messages, error: text, source }),
        ).messages == messages,
        settled(s, Err(RunErrorView::Loop(e))) == s,
        settled(s, Ok(result)).context_usage_baseline_tokens == s.context_usage_baseline_tokens,
        settled(s, Ok(result)).working_dir == s.working_dir,
{
    if no_system(result.messages) {
        lemma_without_system_keeps(result.messages, result.messages.len() as int);
        assert(result.messages.take(result.messages.len() as int) =~= result.messages);
    }
    if no_system(messages) {
        lemma_without_system_keeps(messages, messages.len() as int);
        assert(messages.take(messages.len() as int) =~= messages);
    }
}

/// A compaction that is asked for changes the messages just if one is set
/// up, none is under way, and it gave a summary; the topic of the settings
/// goes before that of the caller.
pub proof fn law_compaction_on_demand(
    messages: Seq<MessageView>,
    attempt: CompactAttempt,
    duration: u128,
    topic: Seq<char>,
    other: Option<Seq<char>>,
)
    ensures
        compacted_messages(messages, manual_outcome(false, attempt, duration)) == messages,
        manual_outcome(false, attempt, duration) == CompactOutcomeView::Skipped(
            CompressionSkipReason::Disabled,
        ),
        attempt is Busy ==> manual_outcome(true, attempt, duration) is Skipped,
        attempt matches CompactAttempt::Finished(Ok(r)) ==> compacted_messages(
            messages,
            manual_outcome(true, attempt, duration),
        ) == message_views(r.messages@) && (manual_outcome(true, attempt, duration)
            matches CompactOutcomeView::Compressed { duration: d, summary_output_tokens: n, .. } && d
            == duration && n == r.summary_usage.output_tokens),
        attempt matches CompactAttempt::Finished(Err(e)) ==> compacted_messages(
            messages,
            manual_outcome(true, attempt, duration),
        ) == messages && (e@ is NothingToCompress ==> manual_outcome(true, attempt, duration)
            is Skipped) && (!(e@ is NothingToCompress) ==> manual_outcome(true, attempt, duration)
            == CompactOutcomeView::Failed { error: compact_error_text(e@) }),
        focus_of(Some(topic), other) == Some(topic),
        focus_of(None, other) == other,
{
}

/// An agent runs as many iterations as its settings allow, ten if they say
/// nothing, for ten minutes at most, and compresses its context only if they
/// ask for it.
pub proof fn law_agent_keeps_to_its_settings(
    a: AgentLoop,
    agent: AgentConfig,
    window: Option<ContextWindow>,
)
    requires
        is_agent_of(a, agent, window),
    ensures
        agent.max_iterations matches Some(n) ==> a.config.max_iterations == n,
        agent.max_iterations is None ==> a.config.max_iterations == 10,
        a.config.max_duration == 10 * 60 * 1_000_000_000,
        a.config.compaction <==> agent.context_compression_enabled,
        a.config.context_window == window,
        views(agent.disabled_toolsets@).contains("file"@) ==> !crate::tool_catalog::has_tool(
            a.registry@,
            "write_file"@,
        ),
{
    crate::tool_catalog::law_disabled_toolsets_are_gone(views(agent.disabled_toolsets@));
}

} // verus!
