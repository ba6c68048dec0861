//! The compressor: old tool results are cut short; if that is not enough,
//! the messages between the protected head and the protected tail become a
//! summary that a model writes.

use vstd::prelude::*;
use vstd::string::*;

use crate::compaction::{opt_str, transcript};
use crate::context::pruning::{estimated_tokens, head_end, pruned_messages, tail_cut};
use crate::context::summary::{section_message, section_prompt};
use crate::message::{
    copy_messages, message_views, provider_error_text, push_message, Message, MessageView,
    ProviderError, ProviderErrorView, Role,
};
use crate::tool::opt_view;

pub use crate::context::pruning::{
    estimate_tokens, find_head_boundary, find_tail_cut_by_tokens, prune_old_tool_results,
};
pub use crate::context::summary::{
    build_summary_message, build_summary_prompt, messages_to_transcript, SUMMARY_PREFIX,
};

verus! {

/// Settings of the compressor.
#[derive(Clone, Copy)]
pub struct CompressorConfig {
    /// How many messages at the start are protected, besides system
    /// messages.
    pub protect_first_n: usize,
    /// How many tokens at the end are protected.
    pub protect_tail_tokens: u64,
}

impl Default for CompressorConfig {
    fn default() -> (r: Self)
        ensures
            r.protect_first_n == 3,
            r.protect_tail_tokens == 12_000,
    {
        CompressorConfig { protect_first_n: 3, protect_tail_tokens: 12_000 }
    }
}

/// The least threshold.
pub const MINIMUM_CONTEXT_LENGTH: u64 = 8_000;

/// The least and the greatest length of a summary.
pub const MIN_SUMMARY_TOKENS: u64 = 2_000;

pub const MAX_SUMMARY_TOKENS: u64 = 12_000;

/// The threshold for a share of the context, which is never too small.
pub fn floor_threshold(share: u64) -> (r: u64)
    ensures
        r == if share < MINIMUM_CONTEXT_LENGTH {
            MINIMUM_CONTEXT_LENGTH
        } else {
            share
        },
{
    if share < MINIMUM_CONTEXT_LENGTH {
        MINIMUM_CONTEXT_LENGTH
    } else {
        share
    }
}

/// The length of a summary for a share of the threshold, within limits.
pub fn clamp_summary(share: u64) -> (r: u64)
    ensures
        r == if share < MIN_SUMMARY_TOKENS {
            MIN_SUMMARY_TOKENS
        } else if share > MAX_SUMMARY_TOKENS {
            MAX_SUMMARY_TOKENS
        } else {
            share
        },
{
    if share < MIN_SUMMARY_TOKENS {
        MIN_SUMMARY_TOKENS
    } else if share > MAX_SUMMARY_TOKENS {
        MAX_SUMMARY_TOKENS
    } else {
        share
    }
}

/// What follows from the length of a model's context.
#[derive(Clone, Copy)]
pub struct ContextLimits {
    pub context_length: u64,
    /// From how many tokens on a history is compressed.
    pub threshold_tokens: u64,
    /// How long a summary should be.
    pub summary_tokens: u64,
}

/// A compressor and what it remembers between compressions.
pub struct ContextCompressor {
    pub config: CompressorConfig,
    pub model: String,
    pub limits: ContextLimits,
    /// The last summary, from which the next one goes on.
    pub previous_summary: Option<String>,
    /// How many compressions in a row saved too little.
    pub ineffective_count: u32,
}

/// Messages that wait for the summary of those from `head_end` up to
/// `tail_start`.
pub struct CompressPlan {
    pub messages: Vec<Message>,
    pub head_end: usize,
    pub tail_start: usize,
    pub prompt: String,
}

pub ghost struct CompressPlanView {
    pub messages: Seq<MessageView>,
    pub head_end: int,
    pub tail_start: int,
    pub prompt: Seq<char>,
}

impl View for CompressPlan {
    type V = CompressPlanView;

    open spec fn view(&self) -> CompressPlanView {
        CompressPlanView {
            messages: message_views(self.messages@),
            head_end: self.head_end as int,
            tail_start: self.tail_start as int,
            prompt: self.prompt@,
        }
    }
}

/// What is to be done with a history.
pub enum CompressStep {
    /// Cutting tool results short was enough.
    Done(Vec<Message>),
    NothingToCompress,
    Summarize(CompressPlan),
}

pub ghost enum CompressStepView {
    Done(Seq<MessageView>),
    NothingToCompress,
    Summarize(CompressPlanView),
}

impl View for CompressStep {
    type V = CompressStepView;

    open spec fn view(&self) -> CompressStepView {
        match self {
            CompressStep::Done(ms) => CompressStepView::Done(message_views(ms@)),
            CompressStep::NothingToCompress => CompressStepView::NothingToCompress,
            CompressStep::Summarize(p) => CompressStepView::Summarize(p@),
        }
    }
}

/// The prompt for the summary of some messages.
pub open spec fn middle_prompt(
    middle: Seq<MessageView>,
    previous: Option<Seq<char>>,
    focus: Option<Seq<char>>,
    summary_tokens: u64,
) -> Seq<char> {
    section_prompt(transcript(middle, middle.len() as int), previous, focus, summary_tokens)
}

/// What is to be done with a history.
pub open spec fn compress_step(
    c: ContextCompressor,
    messages: Seq<MessageView>,
    focus: Option<Seq<char>>,
    force: bool,
) -> CompressStepView {
    let ms = pruned_messages(messages, c.config.protect_tail_tokens);
    let head = head_end(ms, c.config.protect_first_n as nat, 0, 0);
    let tail = tail_cut(ms, head, c.config.protect_tail_tokens);
    if !force && estimated_tokens(ms) < c.limits.threshold_tokens {
        CompressStepView::Done(ms)
    } else if head >= tail {
        CompressStepView::NothingToCompress
    } else {
        CompressStepView::Summarize(
            CompressPlanView {
                messages: ms,
                head_end: head,
                tail_start: tail,
                prompt: middle_prompt(
                    ms.subrange(head, tail),
                    opt_view(c.previous_summary),
                    focus,
                    c.limits.summary_tokens,
                ),
            },
        )
    }
}

/// The first message at or after `i` that is no system message; the length
/// if there is none.
pub open spec fn first_not_system(messages: Seq<MessageView>, i: int) -> int
    decreases messages.len() - i,
{
    if i >= messages.len() {
        messages.len() as int
    } else if messages[i].role != Role::System {
        i
    } else {
        first_not_system(messages, i + 1)
    }
}

/// The messages without the oldest one that is no system message.
pub open spec fn without_oldest(messages: Seq<MessageView>) -> Seq<MessageView> {
    let k = first_not_system(messages, 0);
    if k < messages.len() {
        messages.remove(k)
    } else {
        messages
    }
}

/// The prompt of a second try after the first one failed: the oldest
/// message is left out. There is none if nothing is left to summarize.
pub open spec fn retry_prompt(
    c: ContextCompressor,
    plan: CompressPlanView,
    focus: Option<Seq<char>>,
) -> Option<Seq<char>> {
    let ms = without_oldest(plan.messages);
    let tail = if plan.tail_start < ms.len() {
        plan.tail_start
    } else {
        ms.len() as int
    };
    if plan.head_end >= tail {
        None
    } else {
        Some(
            middle_prompt(
                ms.subrange(plan.head_end, tail),
                opt_view(c.previous_summary),
                focus,
                c.limits.summary_tokens,
            ),
        )
    }
}

/// What follows from the first call for a summary.
pub enum SummaryStep {
    /// The call gave a summary.
    Summarized(String),
    /// The call failed and is made once more, with this prompt.
    Retry(String),
    /// The call failed and there is nothing to try again, with the text of
    /// the error.
    Failed(String),
}

pub ghost enum SummaryStepView {
    Summarized(Seq<char>),
    Retry(Seq<char>),
    Failed(Seq<char>),
}

impl View for SummaryStep {
    type V = SummaryStepView;

    open spec fn view(&self) -> SummaryStepView {
        match self {
            SummaryStep::Summarized(s) => SummaryStepView::Summarized(s@),
            SummaryStep::Retry(s) => SummaryStepView::Retry(s@),
            SummaryStep::Failed(s) => SummaryStepView::Failed(s@),
        }
    }
}

/// How a call for a summary ended: its text, or the error.
pub open spec fn outcome_view(outcome: Result<String, ProviderError>) -> Result<
    Seq<char>,
    ProviderErrorView,
> {
    match outcome {
        Ok(text) => Ok(text@),
        Err(e) => Err(e@),
    }
}

/// What follows from the first call: a failure counts only if there is no
/// second try.
pub open spec fn first_step(
    outcome: Result<Seq<char>, ProviderErrorView>,
    retry: Option<Seq<char>>,
) -> SummaryStepView {
    match (outcome, retry) {
        (Ok(text), _) => SummaryStepView::Summarized(text),
        (Err(_), Some(prompt)) => SummaryStepView::Retry(prompt),
        (Err(e), None) => SummaryStepView::Failed(provider_error_text(e)),
    }
}

/// What follows from the second call: its text, or the text of its own
/// error.
pub open spec fn second_step(outcome: Result<Seq<char>, ProviderErrorView>) -> Result<
    Seq<char>,
    Seq<char>,
> {
    match outcome {
        Ok(text) => Ok(text),
        Err(e) => Err(provider_error_text(e)),
    }
}

/// The history with a summary in place of its middle.
pub open spec fn assembled(plan: CompressPlanView, summary: Seq<char>) -> Seq<MessageView> {
    plan.messages.take(plan.head_end).push(section_message(summary)) + plan.messages.skip(
        plan.tail_start,
    )
}

/// Whether a compression saved too little: at most one message in ten.
pub open spec fn is_ineffective(before: nat, after: nat) -> bool {
    10 * after >= 9 * before
}

impl ContextCompressor {
    pub fn new(config: CompressorConfig, model: String, limits: ContextLimits) -> (r: Self)
        ensures
            r.config == config,
            r.model@ == model@,
            r.limits == limits,
            r.previous_summary is None,
            r.ineffective_count == 0,
    {
        ContextCompressor { config, model, limits, previous_summary: None, ineffective_count: 0 }
    }

    pub fn name(&self) -> (r: &'static str)
        ensures
            r@ == "compressor"@,
    {
        "compressor"
    }

    /// Whether compressing by itself is worth trying: not after two
    /// compressions in a row that saved too little.
    pub fn should_compress(&self) -> (r: bool)
        ensures
            r == (self.ineffective_count < 2),
    {
        self.ineffective_count < 2
    }

    pub fn threshold_tokens(&self) -> (r: u64)
        ensures
            r == self.limits.threshold_tokens,
    {
        self.limits.threshold_tokens
    }

    pub fn on_session_reset(&mut self)
        ensures
            final(self).previous_summary is None,
            final(self).ineffective_count == 0,
            final(self).config == old(self).config,
            final(self).model@ == old(self).model@,
            final(self).limits == old(self).limits,
    {
        self.previous_summary = None;
        self.ineffective_count = 0;
    }

    pub fn update_model(&mut self, model: &str, limits: ContextLimits)
        ensures
            final(self).model@ == model@,
            final(self).limits == limits,
            final(self).config == old(self).config,
            opt_view(final(self).previous_summary) == opt_view(old(self).previous_summary),
            final(self).ineffective_count == old(self).ineffective_count,
    {
        self.model = model.to_owned();
        self.limits = limits;
    }

    fn prompt_for(&self, messages: &Vec<Message>, from: usize, to: usize, focus: Option<&str>) -> (r:
        String)
        requires
            from <= to <= messages@.len(),
        ensures
            r@ == middle_prompt(
                message_views(messages@).subrange(from as int, to as int),
                opt_view(self.previous_summary),
                opt_str(focus),
                self.limits.summary_tokens,
            ),
    {
        let middle = copy_messages(messages, from, to);
        let text = messages_to_transcript(&middle);
        assert(message_views(middle@).len() == middle@.len());
        let previous = match &self.previous_summary {
            Some(p) => Some(p.as_str()),
            None => None,
        };
        build_summary_prompt(text.as_str(), previous, focus, self.limits.summary_tokens)
    }

    /// What is to be done with a history. `force` compresses it whatever
    /// its size.
    pub fn begin(&self, messages: &Vec<Message>, focus: Option<&str>, force: bool) -> (r:
        CompressStep)
        ensures
            r@ == compress_step(*self, message_views(messages@), opt_str(focus), force),
            r matches CompressStep::Summarize(p) ==> p.head_end < p.tail_start
                <= p.messages@.len(),
    {
        let (ms, _) = prune_old_tool_results(messages, &self.config);
        if !force && estimate_tokens(&ms) < self.limits.threshold_tokens {
            return CompressStep::Done(ms);
        }
        let head: usize = find_head_boundary(&ms, self.config.protect_first_n);
        let tail: usize = find_tail_cut_by_tokens(&ms, head, &self.config);
        if head >= tail {
            return CompressStep::NothingToCompress;
        }
        let prompt = self.prompt_for(&ms, head, tail, focus);
        CompressStep::Summarize(
            CompressPlan { messages: ms, head_end: head, tail_start: tail, prompt },
        )
    }

    /// The prompt of a second try after the first one failed.
    pub fn retry(&self, plan: &CompressPlan, focus: Option<&str>) -> (r: Option<String>)
        ensures
            opt_view(r) == retry_prompt(*self, plan@, opt_str(focus)),
    {
        let ghost ms = message_views(plan.messages@);
        let n: usize = plan.messages.len();
        let mut k: usize = 0;
        while k < n && plan.messages[k].role == Role::System
            invariant
                k <= n == plan.messages@.len(),
                ms == message_views(plan.messages@),
                first_not_system(ms, 0) == first_not_system(ms, k as int),
            decreases n - k,
        {
            assert(ms[k as int] == plan.messages@[k as int]@);
            k += 1;
        }
        assert(k < n ==> ms[k as int] == plan.messages@[k as int]@);
        let mut rest = copy_messages(&plan.messages, 0, n);
        assert(ms.subrange(0, n as int) =~= ms);
        if k < n {
            let _ = rest.remove(k);
            assert(message_views(rest@) =~= ms.remove(k as int));
        }
        assert(message_views(rest@) == without_oldest(ms));
        assert(message_views(rest@).len() == rest@.len());
        let tail: usize = if plan.tail_start < rest.len() {
            plan.tail_start
        } else {
            rest.len()
        };
        if plan.head_end >= tail {
            return None;
        }
        Some(self.prompt_for(&rest, plan.head_end, tail, focus))
    }

    /// What follows from the first call for a summary.
    pub fn after_first_call(
        &self,
        plan: &CompressPlan,
        focus: Option<&str>,
        outcome: Result<String, ProviderError>,
    ) -> (r: SummaryStep)
        ensures
            r@ == first_step(outcome_view(outcome), retry_prompt(*self, plan@, opt_str(focus))),
    {
        match outcome {
            Ok(text) => SummaryStep::Summarized(text),
            Err(e) => match self.retry(plan, focus) {
                Some(prompt) => SummaryStep::Retry(prompt),
                None => SummaryStep::Failed(e.message()),
            },
        }
    }

    /// What follows from the second call for a summary: the summary, or the
    /// text of the error.
    pub fn after_second_call(outcome: Result<String, ProviderError>) -> (r: Result<String, String>)
        ensures
            match r {
                Ok(text) => second_step(outcome_view(outcome)) == Ok::<Seq<char>, Seq<char>>(text@),
                Err(e) => second_step(outcome_view(outcome)) == Err::<Seq<char>, Seq<char>>(e@),
            },
    {
        match outcome {
            Ok(text) => Ok(text),
            Err(e) => Err(e.message()),
        }
    }

    /// The compressed history, given the summary. The summary is kept for
    /// the next compression, and so is whether this one saved enough.
    pub fn finish(&mut self, plan: &CompressPlan, summary: &str) -> (r: Vec<Message>)
        requires
            plan.head_end <= plan.tail_start <= plan.messages@.len(),
        ensures
            message_views(r@) == assembled(plan@, summary@),
            opt_view(final(self).previous_summary) == Some(summary@),
            final(self).ineffective_count == if is_ineffective(
                plan.messages@.len(),
                assembled(plan@, summary@).len(),
            ) {
                if old(self).ineffective_count < u32::MAX {
                    (old(self).ineffective_count + 1) as u32
                } else {
                    u32::MAX
                }
            } else {
                0
            },
            final(self).config == old(self).config,
            final(self).model@ == old(self).model@,
            final(self).limits == old(self).limits,
    {
        let ghost ms = message_views(plan.messages@);
        let n: usize = plan.messages.len();
        let mut out = copy_messages(&plan.messages, 0, plan.head_end);
        assert(ms.subrange(0, plan.head_end as int) =~= ms.take(plan.head_end as int));
        push_message(&mut out, build_summary_message(summary));
        let ghost head = ms.take(plan.head_end as int).push(section_message(summary@));
        let mut i: usize = plan.tail_start;
        while i < n
            invariant
                plan.tail_start <= i <= n == plan.messages@.len(),
                ms == message_views(plan.messages@),
                message_views(out@) =~= head + ms.subrange(plan.tail_start as int, i as int),
            decreases n - i,
        {
            push_message(&mut out, plan.messages[i].copy());
            assert(ms[i as int] == plan.messages@[i as int]@);
            i += 1;
        }
        assert(ms.subrange(plan.tail_start as int, n as int) =~= ms.skip(plan.tail_start as int));
        assert(message_views(out@).len() == out@.len());
        if out.len() as u128 * 10 >= n as u128 * 9 {
            self.ineffective_count = self.ineffective_count.saturating_add(1);
        } else {
            self.ineffective_count = 0;
        }
        self.previous_summary = Some(summary.to_owned());
        out
    }
}

/// A compressed history keeps every message of the protected head and of
/// the protected tail, with the summary between them.
pub proof fn law_compression_keeps_head_and_tail(plan: CompressPlanView, summary: Seq<char>, i: int)
    requires
        0 <= plan.head_end <= plan.tail_start <= plan.messages.len(),
        0 <= i < plan.messages.len(),
    ensures
        assembled(plan, summary)[plan.head_end] == section_message(summary),
        i < plan.head_end ==> assembled(plan, summary)[i] == plan.messages[i],
        i >= plan.tail_start ==> assembled(plan, summary)[plan.head_end + 1 + i - plan.tail_start]
            == plan.messages[i],
        assembled(plan, summary).len() == plan.messages.len() - (plan.tail_start - plan.head_end)
            + 1,
{
}

/// A history below the threshold is only cut short in its old tool results,
/// unless a compression is asked for. Otherwise what lies between the
/// protected head and the protected tail is summarized, all of it, if there
/// is anything.
pub proof fn law_compression_takes_the_middle(
    c: ContextCompressor,
    messages: Seq<MessageView>,
    focus: Option<Seq<char>>,
    force: bool,
)
    ensures
        ({
            let ms = pruned_messages(messages, c.config.protect_tail_tokens);
            let head = head_end(ms, c.config.protect_first_n as nat, 0, 0);
            let tail = tail_cut(ms, head, c.config.protect_tail_tokens);
            let small = estimated_tokens(ms) < c.limits.threshold_tokens;
            let step = compress_step(c, messages, focus, force);
            &&& step is Done <==> !force && small
            &&& step matches CompressStepView::Done(out) ==> out == ms
            &&& step is NothingToCompress <==> (force || !small) && head >= tail
            &&& step matches CompressStepView::Summarize(p) ==> {
                &&& p.messages == ms
                &&& p.head_end == head
                &&& p.tail_start == tail
                &&& head < tail
                &&& p.prompt == section_prompt(
                    transcript(ms.subrange(head, tail), tail - head),
                    opt_view(c.previous_summary),
                    focus,
                    c.limits.summary_tokens,
                )
            }
        }),
{
    crate::context::pruning::law_head_holds_the_first_messages(
        pruned_messages(messages, c.config.protect_tail_tokens),
        c.config.protect_first_n as nat,
    );
    let ms = pruned_messages(messages, c.config.protect_tail_tokens);
    let head = head_end(ms, c.config.protect_first_n as nat, 0, 0);
    let tail = tail_cut(ms, head, c.config.protect_tail_tokens);
    if head < tail {
        if ms.len() - head >= 2 {
            crate::context::pruning::law_cut_leaves_a_middle(
                ms,
                head,
                c.config.protect_tail_tokens,
            );
        }
        assert(ms.subrange(head, tail).len() == tail - head);
    }
}

proof fn lemma_first_not_system(messages: Seq<MessageView>, i: int)
    requires
        0 <= i <= messages.len(),
    ensures
        i <= first_not_system(messages, i) <= messages.len(),
        first_not_system(messages, i) < messages.len() ==> messages[first_not_system(
            messages,
            i,
        )].role != Role::System,
        forall|k: int|
            i <= k < first_not_system(messages, i) ==> messages[k].role == Role::System,
    decreases messages.len() - i,
{
    if i < messages.len() && messages[i].role == Role::System {
        lemma_first_not_system(messages, i + 1);
    }
}

/// The second try leaves out one message, the oldest that is not the
/// system's, and keeps all others in their order.
pub proof fn law_second_try_drops_the_oldest(messages: Seq<MessageView>, k: int)
    requires
        0 <= k < messages.len(),
        messages[k].role != Role::System,
        forall|i: int| 0 <= i < k ==> (#[trigger] messages[i]).role == Role::System,
    ensures
        without_oldest(messages) == messages.take(k) + messages.skip(k + 1),
{
    lemma_first_not_system(messages, 0);
    assert(first_not_system(messages, 0) == k);
    assert(messages.remove(k) =~= messages.take(k) + messages.skip(k + 1));
}

/// There is a second try just if something is left to summarize, and its
/// prompt is for what then lies at the same places.
pub proof fn law_second_try_needs_a_middle(
    c: ContextCompressor,
    plan: CompressPlanView,
    focus: Option<Seq<char>>,
)
    requires
        0 <= plan.head_end < plan.tail_start <= plan.messages.len(),
    ensures
        ({
            let rest = without_oldest(plan.messages);
            let tail = if plan.tail_start < rest.len() {
                plan.tail_start
            } else {
                rest.len() as int
            };
            &&& retry_prompt(c, plan, focus) is Some <==> plan.head_end < tail
            &&& retry_prompt(c, plan, focus) matches Some(p) ==> p == section_prompt(
                transcript(rest.subrange(plan.head_end, tail), tail - plan.head_end),
                opt_view(c.previous_summary),
                focus,
                c.limits.summary_tokens,
            )
        }),
{
}

/// A summary that came is used, whichever call gave it; a failed call is
/// made once more if it can be, and otherwise its own error is told.
pub proof fn law_failed_summary_is_tried_once_more(
    text: Seq<char>,
    e: ProviderErrorView,
    prompt: Seq<char>,
    retry: Option<Seq<char>>,
)
    ensures
        first_step(Ok(text), retry) == SummaryStepView::Summarized(text),
        first_step(Err(e), Some(prompt)) == SummaryStepView::Retry(prompt),
        first_step(Err(e), None) == SummaryStepView::Failed(provider_error_text(e)),
        second_step(Ok(text)) == Ok::<Seq<char>, Seq<char>>(text),
        second_step(Err(e)) == Err::<Seq<char>, Seq<char>>(provider_error_text(e)),
{
}

/// A compression that takes away one message in ten or less counts as one
/// that saved too little.
pub proof fn law_small_savings_do_not_count(before: nat, saved: nat)
    requires
        saved <= before,
    ensures
        is_ineffective(before, (before - saved) as nat) <==> saved * 10 <= before,
{
}

/// A history that holds nothing but system messages loses none of them.
pub proof fn law_system_messages_are_not_dropped(messages: Seq<MessageView>)
    requires
        forall|i: int| 0 <= i < messages.len() ==> (#[trigger] messages[i]).role == Role::System,
    ensures
        without_oldest(messages) == messages,
{
    lemma_first_not_system(messages, 0);
}

/// A history that is too large, or that is to be compressed in any case, is
/// summarized whenever two messages or more stand behind its head.
pub proof fn law_large_history_is_summarized(
    c: ContextCompressor,
    messages: Seq<MessageView>,
    focus: Option<Seq<char>>,
    force: bool,
)
    requires
        ({
            let ms = pruned_messages(messages, c.config.protect_tail_tokens);
            let head = head_end(ms, c.config.protect_first_n as nat, 0, 0);
            &&& 0 <= head <= ms.len() - 2
            &&& force || estimated_tokens(ms) >= c.limits.threshold_tokens
        }),
    ensures
        compress_step(c, messages, focus, force) is Summarize,
{
}

} // verus!
