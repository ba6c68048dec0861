//! Putting a streamed answer together.

use vstd::prelude::*;
use vstd::string::*;

use crate::json::{json_read, Json, JsonView};
use crate::loop_engine::events::{
    event_views, no_events, push_event, EventView, LoopEvent, ToolCallDelta, ToolDeltaView,
};
use crate::message::{
    call_views, plain, Completion, Content, ContentView, FinishReason, Message, MessageView, Role,
    ToolCall, ToolCallView, Usage,
};
use crate::text::chars_of;
use crate::tool::opt_view;

verus! {

/// A piece of a streamed answer.
pub struct CompletionDelta {
    pub content_delta: Option<String>,
    pub reasoning_delta: Option<String>,
    pub tool_call_delta: Option<ToolCallDelta>,
    pub usage: Option<Usage>,
    pub finish_reason: Option<FinishReason>,
}

pub ghost struct DeltaView {
    pub content_delta: Option<Seq<char>>,
    pub reasoning_delta: Option<Seq<char>>,
    pub tool_call_delta: Option<ToolDeltaView>,
    pub usage: Option<Usage>,
    pub finish_reason: Option<FinishReason>,
}

impl View for CompletionDelta {
    type V = DeltaView;

    open spec fn view(&self) -> DeltaView {
        DeltaView {
            content_delta: opt_view(self.content_delta),
            reasoning_delta: opt_view(self.reasoning_delta),
            tool_call_delta: match self.tool_call_delta {
                Some(d) => Some(d@),
                None => None,
            },
            usage: self.usage,
            finish_reason: self.finish_reason,
        }
    }
}

/// What is reported of a piece: its content, its reasoning and its part of
/// a tool call, in this order.
pub open spec fn delta_events(d: DeltaView) -> Seq<EventView> {
    let a = match d.content_delta {
        Some(s) => Seq::empty().push(EventView::ContentDelta(s)),
        None => Seq::empty(),
    };
    let b = match d.reasoning_delta {
        Some(s) => a.push(EventView::ReasoningDelta(s)),
        None => a,
    };
    match d.tool_call_delta {
        Some(t) => b.push(EventView::ToolCallPartial(t)),
        None => b,
    }
}

/// A tool call as far as it has come.
pub struct PartialCall {
    pub index: usize,
    pub id: String,
    pub name: String,
    pub arguments: String,
}

#[verifier::ext_equal]
pub ghost struct PartialCallView {
    pub index: usize,
    pub id: Seq<char>,
    pub name: Seq<char>,
    pub arguments: Seq<char>,
}

impl View for PartialCall {
    type V = PartialCallView;

    open spec fn view(&self) -> PartialCallView {
        PartialCallView {
            index: self.index,
            id: self.id@,
            name: self.name@,
            arguments: self.arguments@,
        }
    }
}

pub open spec fn partial_views(calls: Seq<PartialCall>) -> Seq<PartialCallView> {
    Seq::new(calls.len(), |i: int| calls[i]@)
}

/// What has been streamed so far.
pub struct StreamAccumulator {
    pub content: String,
    pub reasoning: String,
    pub calls: Vec<PartialCall>,
    pub usage: Option<Usage>,
    pub finish_reason: Option<FinishReason>,
}

#[verifier::ext_equal]
pub ghost struct AccView {
    pub content: Seq<char>,
    pub reasoning: Seq<char>,
    pub calls: Seq<PartialCallView>,
    pub usage: Option<Usage>,
    pub finish_reason: Option<FinishReason>,
}

impl View for StreamAccumulator {
    type V = AccView;

    open spec fn view(&self) -> AccView {
        AccView {
            content: self.content@,
            reasoning: self.reasoning@,
            calls: partial_views(self.calls@),
            usage: self.usage,
            finish_reason: self.finish_reason,
        }
    }
}

/// The first call from `i` on with the index; the length if there is none.
pub open spec fn call_at(calls: Seq<PartialCallView>, index: usize, i: int) -> int
    decreases calls.len() - i,
{
    if i >= calls.len() {
        calls.len() as int
    } else if calls[i].index == index {
        i
    } else {
        call_at(calls, index, i + 1)
    }
}

/// A call with one more piece: the identity if the piece has it, and the
/// next part of the arguments.
pub open spec fn extended_call(c: PartialCallView, d: ToolDeltaView) -> PartialCallView {
    PartialCallView {
        index: c.index,
        id: match d.id {
            Some(id) => id,
            None => c.id,
        },
        name: match d.name {
            Some(n) => n,
            None => c.name,
        },
        arguments: match d.arguments_fragment {
            Some(a) => c.arguments + a,
            None => c.arguments,
        },
    }
}

/// The calls with one more piece, which goes to the call with its index or
/// starts a new one.
pub open spec fn extended_calls(calls: Seq<PartialCallView>, d: ToolDeltaView) -> Seq<
    PartialCallView,
> {
    let k = call_at(calls, d.index, 0);
    if k < calls.len() {
        calls.update(k, extended_call(calls[k], d))
    } else {
        calls.push(
            extended_call(
                PartialCallView {
                    index: d.index,
                    id: Seq::empty(),
                    name: Seq::empty(),
                    arguments: Seq::empty(),
                },
                d,
            ),
        )
    }
}

/// What has been streamed after one more piece.
pub open spec fn accumulated(a: AccView, d: DeltaView) -> AccView {
    AccView {
        content: match d.content_delta {
            Some(s) => a.content + s,
            None => a.content,
        },
        reasoning: match d.reasoning_delta {
            Some(s) => a.reasoning + s,
            None => a.reasoning,
        },
        calls: match d.tool_call_delta {
            Some(t) => extended_calls(a.calls, t),
            None => a.calls,
        },
        usage: match d.usage {
            Some(u) => Some(u),
            None => a.usage,
        },
        finish_reason: match d.finish_reason {
            Some(f) => Some(f),
            None => a.finish_reason,
        },
    }
}

/// The arguments of a call: none at all stand for an empty object, and
/// what is no JSON stays as text.
pub open spec fn call_arguments(text: Seq<char>) -> JsonView {
    if text.len() == 0 {
        JsonView::object()
    } else {
        match json_read(text) {
            Some(v) => v,
            None => JsonView::Text(text),
        }
    }
}

pub open spec fn finished_calls(calls: Seq<PartialCallView>) -> Seq<ToolCallView> {
    Seq::new(
        calls.len(),
        |i: int|
            ToolCallView {
                id: calls[i].id,
                name: calls[i].name,
                arguments: call_arguments(calls[i].arguments),
            },
    )
}

/// The reasoning, if there is any.
pub open spec fn some_text(t: Seq<char>) -> Option<Seq<char>> {
    if t.len() == 0 {
        None
    } else {
        Some(t)
    }
}

/// The message of an answer that came to its end.
pub open spec fn finished_message(a: AccView) -> MessageView {
    MessageView {
        reasoning: some_text(a.reasoning),
        tool_calls: if a.calls.len() == 0 {
            None
        } else {
            Some(finished_calls(a.calls))
        },
        ..plain(Role::Assistant, a.content)
    }
}

/// The usage of an answer that came to its end: what was reported, or
/// nothing.
pub open spec fn answer_usage(a: AccView) -> Usage {
    match a.usage {
        Some(u) => u,
        None => Usage { input_tokens: 0, cached_input_tokens: 0, output_tokens: 0 },
    }
}

/// Why an answer came to its end. One that gave no reason counts as done.
pub open spec fn answer_reason(a: AccView) -> FinishReason {
    match a.finish_reason {
        Some(f) => f,
        None => FinishReason::Stop,
    }
}

/// The message of an answer that broke off: its text and reasoning.
pub open spec fn partial_message(a: AccView, role: Role) -> MessageView {
    MessageView { reasoning: some_text(a.reasoning), ..plain(role, a.content) }
}

pub open spec fn nothing_streamed(a: AccView) -> bool {
    a.content.len() == 0 && a.reasoning.len() == 0 && a.calls.len() == 0
}

impl CompletionDelta {
    /// What is reported of the piece.
    pub fn events(&self) -> (r: Vec<LoopEvent>)
        ensures
            event_views(r@) == delta_events(self@),
    {
        let mut out = no_events();
        if let Some(s) = &self.content_delta {
            push_event(&mut out, LoopEvent::ContentDelta(s.clone()));
        }
        if let Some(s) = &self.reasoning_delta {
            push_event(&mut out, LoopEvent::ReasoningDelta(s.clone()));
        }
        if let Some(t) = &self.tool_call_delta {
            push_event(&mut out, LoopEvent::ToolCallPartial(t.copy()));
        }
        out
    }
}

fn extend_call(c: PartialCall, d: &ToolCallDelta) -> (r: PartialCall)
    ensures
        r@ == extended_call(c@, d@),
{
    let mut c = c;
    if let Some(id) = &d.id {
        c.id = id.clone();
    }
    if let Some(n) = &d.name {
        c.name = n.clone();
    }
    if let Some(a) = &d.arguments_fragment {
        c.arguments.append(a.as_str());
    }
    c
}

fn arguments_of(text: &str) -> (r: Json)
    ensures
        r@ == call_arguments(text@),
{
    if chars_of(text).len() == 0 {
        return Json::object();
    }
    match Json::parse(text) {
        Some(v) => v,
        None => Json::text(text),
    }
}

fn text_if_any(t: &String) -> (r: Option<String>)
    ensures
        opt_view(r) == some_text(t@),
{
    if chars_of(t.as_str()).len() == 0 {
        None
    } else {
        Some(t.clone())
    }
}

impl StreamAccumulator {
    pub fn new() -> (r: Self)
        ensures
            r@ == (AccView {
                content: Seq::empty(),
                reasoning: Seq::empty(),
                calls: Seq::empty(),
                usage: None,
                finish_reason: None,
            }),
    {
        let r = StreamAccumulator {
            content: String::new(),
            reasoning: String::new(),
            calls: Vec::new(),
            usage: None,
            finish_reason: None,
        };
        assert(r@ =~= (AccView {
            content: Seq::empty(),
            reasoning: Seq::empty(),
            calls: Seq::empty(),
            usage: None,
            finish_reason: None,
        }));
        r
    }

    pub fn is_empty(&self) -> (r: bool)
        ensures
            r == nothing_streamed(self@),
    {
        assert(partial_views(self.calls@).len() == self.calls@.len());
        chars_of(self.content.as_str()).len() == 0 && chars_of(self.reasoning.as_str()).len() == 0
            && self.calls.len() == 0
    }

    fn add_call(&mut self, d: &ToolCallDelta)
        ensures
            final(self)@ == (AccView { calls: extended_calls(old(self)@.calls, d@), ..old(self)@ }),
    {
        let ghost before = self@;
        let n: usize = self.calls.len();
        let mut k: usize = 0;
        while k < n && self.calls[k].index != d.index
            invariant
                k <= n == self.calls@.len(),
                self@ == before,
                call_at(before.calls, d.index, 0) == call_at(before.calls, d.index, k as int),
            decreases n - k,
        {
            assert(before.calls[k as int] == self.calls@[k as int]@);
            k += 1;
        }
        assert(before.calls.len() == n);
        if k < n {
            assert(before.calls[k as int] == self.calls@[k as int]@);
            let fresh = PartialCall {
                index: self.calls[k].index,
                id: self.calls[k].id.clone(),
                name: self.calls[k].name.clone(),
                arguments: self.calls[k].arguments.clone(),
            };
            let changed = extend_call(fresh, d);
            let ghost c = changed@;
            self.calls.set(k, changed);
            assert(self@.calls =~= before.calls.update(k as int, c));
        } else {
            let fresh = PartialCall {
                index: d.index,
                id: String::new(),
                name: String::new(),
                arguments: String::new(),
            };
            assert(fresh@ =~= (PartialCallView {
                index: d.index,
                id: Seq::empty(),
                name: Seq::empty(),
                arguments: Seq::empty(),
            }));
            let added = extend_call(fresh, d);
            let ghost c = added@;
            self.calls.push(added);
            assert(self@.calls =~= before.calls.push(c));
        }
    }

    /// Takes in one more piece.
    pub fn add_delta(&mut self, d: &CompletionDelta)
        ensures
            final(self)@ == accumulated(old(self)@, d@),
    {
        if let Some(s) = &d.content_delta {
            self.content.append(s.as_str());
        }
        if let Some(s) = &d.reasoning_delta {
            self.reasoning.append(s.as_str());
        }
        if let Some(t) = &d.tool_call_delta {
            self.add_call(t);
        }
        if let Some(u) = &d.usage {
            self.usage = Some(*u);
        }
        if let Some(f) = &d.finish_reason {
            self.finish_reason = Some(*f);
        }
    }

    /// The message of an answer that broke off, if anything came.
    pub fn into_partial_message(&self, role: Role) -> (r: Option<Message>)
        ensures
            match r {
                Some(m) => !nothing_streamed(self@) && m@ == partial_message(self@, role),
                None => nothing_streamed(self@),
            },
    {
        if self.is_empty() {
            return None;
        }
        Some(
            Message {
                role,
                content: Content::Text(self.content.clone()),
                reasoning: text_if_any(&self.reasoning),
                tool_call_id: None,
                tool_calls: None,
            },
        )
    }

    /// The whole answer. One that gave no reason to stop counts as done.
    pub fn finalize(&self) -> (r: Completion)
        ensures
            r.message@ == finished_message(self@),
            r.usage == answer_usage(self@),
            r.finish_reason == answer_reason(self@),
    {
        let ghost acc = self@;
        let mut calls: Vec<ToolCall> = Vec::new();
        let mut i: usize = 0;
        while i < self.calls.len()
            invariant
                i <= self.calls@.len(),
                acc == self@,
                calls@.len() == i,
                forall|k: int|
                    0 <= k < i ==> #[trigger] calls@[k]@ == finished_calls(acc.calls)[k],
            decreases self.calls.len() - i,
        {
            assert(acc.calls[i as int] == self.calls@[i as int]@);
            let one = ToolCall {
                id: self.calls[i].id.clone(),
                name: self.calls[i].name.clone(),
                arguments: arguments_of(self.calls[i].arguments.as_str()),
            };
            calls.push(one);
            i += 1;
        }
        assert(acc.calls.len() == self.calls@.len());
        assert(call_views(calls@) =~= finished_calls(acc.calls));
        let tool_calls = if calls.len() == 0 {
            None
        } else {
            Some(calls)
        };
        let message = Message {
            role: Role::Assistant,
            content: Content::Text(self.content.clone()),
            reasoning: text_if_any(&self.reasoning),
            tool_call_id: None,
            tool_calls,
        };
        Completion {
            message,
            usage: match self.usage {
                Some(u) => u,
                None => Usage::none(),
            },
            finish_reason: match self.finish_reason {
                Some(f) => f,
                None => FinishReason::Stop,
            },
        }
    }
}

/// A piece that comes after the reason to stop still counts: its usage is
/// kept, and so is the reason.
pub proof fn law_late_usage_is_kept(a: AccView, d: DeltaView, u: Usage)
    requires
        d.usage == Some(u),
        d.finish_reason is None,
    ensures
        accumulated(a, d).usage == Some(u),
        accumulated(a, d).finish_reason == a.finish_reason,
{
}

/// What has been streamed after the first `n` pieces.
pub open spec fn streamed(pieces: Seq<DeltaView>, n: int) -> AccView
    decreases n,
{
    if n <= 0 {
        AccView {
            content: Seq::empty(),
            reasoning: Seq::empty(),
            calls: Seq::empty(),
            usage: None,
            finish_reason: None,
        }
    } else {
        accumulated(streamed(pieces, n - 1), pieces[n - 1])
    }
}

/// The text of the first `n` pieces, one after the other.
pub open spec fn content_of(pieces: Seq<DeltaView>, n: int) -> Seq<char>
    decreases n,
{
    if n <= 0 {
        Seq::empty()
    } else {
        match pieces[n - 1].content_delta {
            Some(s) => content_of(pieces, n - 1) + s,
            None => content_of(pieces, n - 1),
        }
    }
}

/// The text of an answer is that of its pieces one after the other, whether
/// it came to its end or broke off.
pub proof fn law_answer_is_the_sum_of_its_pieces(pieces: Seq<DeltaView>, n: int, role: Role)
    requires
        n <= pieces.len(),
    ensures
        finished_message(streamed(pieces, n)).content == ContentView::Text(content_of(pieces, n)),
        partial_message(streamed(pieces, n), role).content == ContentView::Text(
            content_of(pieces, n),
        ),
    decreases n,
{
    if n > 0 {
        law_answer_is_the_sum_of_its_pieces(pieces, n - 1, role);
    }
}

/// Taking in a piece keeps all that came before: text and reasoning go
/// behind what is there, and what the piece says nothing of stays.
pub proof fn law_pieces_are_added_at_the_end(a: AccView, d: DeltaView)
    ensures
        a.content.is_prefix_of(accumulated(a, d).content),
        a.reasoning.is_prefix_of(accumulated(a, d).reasoning),
        d.content_delta matches Some(s) ==> accumulated(a, d).content.skip(a.content.len() as int)
            == s,
        d.content_delta is None ==> accumulated(a, d).content.len() == a.content.len(),
        d.reasoning_delta matches Some(s) ==> accumulated(a, d).reasoning.skip(
            a.reasoning.len() as int,
        ) == s,
        d.reasoning_delta is None ==> accumulated(a, d).reasoning.len() == a.reasoning.len(),
        d.tool_call_delta is None ==> accumulated(a, d).calls == a.calls,
        accumulated(a, d).calls.len() >= a.calls.len(),
{
    assert(a.content =~= accumulated(a, d).content.take(a.content.len() as int));
    assert(a.reasoning =~= accumulated(a, d).reasoning.take(a.reasoning.len() as int));
    if let Some(s) = d.content_delta {
        assert(accumulated(a, d).content.skip(a.content.len() as int) =~= s);
    }
    if let Some(s) = d.reasoning_delta {
        assert(accumulated(a, d).reasoning.skip(a.reasoning.len() as int) =~= s);
    }
    if let Some(t) = d.tool_call_delta {
        lemma_call_at(a.calls, t.index, 0);
    }
}

/// Whatever else a piece holds, the usage and the reason to stop that it
/// reports are the ones that count from then on; a piece that reports none
/// changes neither.
pub proof fn law_reports_are_taken_over(a: AccView, d: DeltaView)
    ensures
        d.usage is Some ==> accumulated(a, d).usage == d.usage,
        d.usage is None ==> accumulated(a, d).usage == a.usage,
        d.finish_reason is Some ==> accumulated(a, d).finish_reason == d.finish_reason,
        d.finish_reason is None ==> accumulated(a, d).finish_reason == a.finish_reason,
{
}

/// The usage of an answer is that of the last piece that reported any, and
/// none is made up.
pub proof fn law_usage_is_the_last_reported(pieces: Seq<DeltaView>, n: int, k: int)
    requires
        0 <= n <= pieces.len(),
        -1 <= k < n,
        forall|j: int| k < j < n ==> (#[trigger] pieces[j]).usage is None,
    ensures
        k >= 0 && pieces[k].usage is Some ==> answer_usage(streamed(pieces, n))
            == pieces[k].usage->0,
        k < 0 ==> answer_usage(streamed(pieces, n)) == (Usage {
            input_tokens: 0,
            cached_input_tokens: 0,
            output_tokens: 0,
        }),
    decreases n,
{
    if n > 0 && k < n - 1 {
        assert(pieces[n - 1].usage is None);
        law_usage_is_the_last_reported(pieces, n - 1, k);
    }
}

/// The reason to stop is the last one that a piece gave; an answer without
/// one is done.
pub proof fn law_reason_is_the_last_given(pieces: Seq<DeltaView>, n: int, k: int)
    requires
        0 <= n <= pieces.len(),
        -1 <= k < n,
        forall|j: int| k < j < n ==> (#[trigger] pieces[j]).finish_reason is None,
    ensures
        k >= 0 && pieces[k].finish_reason is Some ==> answer_reason(streamed(pieces, n))
            == pieces[k].finish_reason->0,
        k < 0 ==> answer_reason(streamed(pieces, n)) == FinishReason::Stop,
    decreases n,
{
    if n > 0 && k < n - 1 {
        assert(pieces[n - 1].finish_reason is None);
        law_reason_is_the_last_given(pieces, n - 1, k);
    }
}

/// Text that comes in two parts is the text of the first and then that of
/// the second, for the reasoning too.
pub proof fn law_streams_follow_each_other(first: Seq<DeltaView>, second: Seq<DeltaView>, n: int)
    requires
        0 <= n <= second.len(),
    ensures
        streamed(first + second, first.len() + n).content == streamed(
            first,
            first.len() as int,
        ).content + streamed(second, n).content,
        streamed(first + second, first.len() + n).reasoning == streamed(
            first,
            first.len() as int,
        ).reasoning + streamed(second, n).reasoning,
    decreases n,
{
    let all = first + second;
    let f = streamed(first, first.len() as int);
    if n > 0 {
        law_streams_follow_each_other(first, second, n - 1);
        assert(all[first.len() + n - 1] == second[n - 1]);
        let s = streamed(second, n - 1);
        let d = second[n - 1];
        if let Some(t) = d.content_delta {
            assert(f.content + (s.content + t) =~= (f.content + s.content) + t);
        }
        if let Some(t) = d.reasoning_delta {
            assert(f.reasoning + (s.reasoning + t) =~= (f.reasoning + s.reasoning) + t);
        }
    } else {
        lemma_streamed_prefix(first, second, first.len() as int);
        assert(f.content + Seq::<char>::empty() =~= f.content);
        assert(f.reasoning + Seq::<char>::empty() =~= f.reasoning);
    }
}

proof fn lemma_streamed_prefix(first: Seq<DeltaView>, second: Seq<DeltaView>, n: int)
    requires
        0 <= n <= first.len(),
    ensures
        streamed(first + second, n) == streamed(first, n),
    decreases n,
{
    if n > 0 {
        lemma_streamed_prefix(first, second, n - 1);
        assert((first + second)[n - 1] == first[n - 1]);
    }
}

proof fn lemma_call_at(calls: Seq<PartialCallView>, index: usize, i: int)
    requires
        0 <= i <= calls.len(),
    ensures
        i <= call_at(calls, index, i) <= calls.len(),
        call_at(calls, index, i) < calls.len() ==> calls[call_at(calls, index, i)].index == index,
        forall|k: int| i <= k < call_at(calls, index, i) ==> (#[trigger] calls[k]).index != index,
    decreases calls.len() - i,
{
    if i < calls.len() && calls[i].index != index {
        lemma_call_at(calls, index, i + 1);
    }
}

/// No two calls have one index.
pub open spec fn indexes_differ(calls: Seq<PartialCallView>) -> bool {
    forall|i: int, j: int|
        0 <= i < j < calls.len() ==> (#[trigger] calls[i]).index != (#[trigger] calls[j]).index
}

/// A piece of a tool call changes the call with its index and no other: the
/// arguments grow at their end, and an id or a name takes the place of the
/// one before. Where there is no such call yet, it is the only one added.
pub proof fn law_a_piece_reaches_its_call_only(
    calls: Seq<PartialCallView>,
    d: ToolDeltaView,
    i: int,
)
    requires
        indexes_differ(calls),
        0 <= i < extended_calls(calls, d).len(),
    ensures
        indexes_differ(extended_calls(calls, d)),
        calls.len() <= extended_calls(calls, d).len() <= calls.len() + 1,
        ({
            let now = extended_calls(calls, d)[i];
            let fragment = match d.arguments_fragment {
                Some(a) => a,
                None => Seq::empty(),
            };
            &&& i < calls.len() ==> now.index == calls[i].index
            &&& i < calls.len() && calls[i].index != d.index ==> now == calls[i]
            &&& i == calls.len() ==> now.index == d.index
            &&& now.index == d.index ==> now.arguments == (if i < calls.len() {
                calls[i].arguments
            } else {
                Seq::empty()
            }) + fragment
            &&& now.index == d.index && d.id is Some ==> now.id == d.id->0
            &&& now.index == d.index && d.name is Some ==> now.name == d.name->0
            &&& i < calls.len() && d.id is None ==> now.id == calls[i].id
            &&& i < calls.len() && d.name is None ==> now.name == calls[i].name
        }),
        exists|k: int|
            0 <= k < extended_calls(calls, d).len() && (#[trigger] extended_calls(
                calls,
                d,
            )[k]).index == d.index,
{
    lemma_call_at(calls, d.index, 0);
    let k = call_at(calls, d.index, 0);
    let all = extended_calls(calls, d);
    assert(all[k].index == d.index);
    assert(d.arguments_fragment is None && i < calls.len() ==> calls[i].arguments
        + Seq::<char>::empty() =~= calls[i].arguments);
    if let Some(a) = d.arguments_fragment {
        assert(Seq::<char>::empty() + a =~= a);
    }
    assert(Seq::<char>::empty() + Seq::<char>::empty() =~= Seq::<char>::empty());
    assert forall|x: int, y: int| 0 <= x < y < all.len() implies (#[trigger] all[x]).index != (
    #[trigger] all[y]).index by {
        if y < calls.len() {
            assert(all[x].index == calls[x].index);
            assert(all[y].index == calls[y].index);
        } else {
            assert(all[x] == calls[x]);
        }
    }
}

/// What the first `n` pieces give of the arguments of the call with an
/// index.
pub open spec fn arguments_for(pieces: Seq<DeltaView>, n: int, index: usize) -> Seq<char>
    decreases n,
{
    if n <= 0 {
        Seq::empty()
    } else {
        arguments_for(pieces, n - 1, index) + match pieces[n - 1].tool_call_delta {
            Some(t) => if t.index == index {
                match t.arguments_fragment {
                    Some(a) => a,
                    None => Seq::empty(),
                }
            } else {
                Seq::empty()
            },
            None => Seq::empty(),
        }
    }
}

/// Whether one of the first `n` pieces belongs to the call with an index.
pub open spec fn call_is_named(pieces: Seq<DeltaView>, n: int, index: usize) -> bool {
    exists|k: int|
        0 <= k < n && (#[trigger] pieces[k]).tool_call_delta is Some
            && pieces[k].tool_call_delta->0.index == index
}

/// There is one call for each index that the pieces name, and its arguments
/// are all pieces for that index, one after the other.
pub proof fn law_calls_are_put_together(pieces: Seq<DeltaView>, n: int)
    requires
        0 <= n <= pieces.len(),
    ensures
        indexes_differ(streamed(pieces, n).calls),
        forall|i: int|
            0 <= i < streamed(pieces, n).calls.len() ==> (#[trigger] streamed(
                pieces,
                n,
            ).calls[i]).arguments == arguments_for(
                pieces,
                n,
                streamed(pieces, n).calls[i].index,
            ),
        forall|index: usize| #[trigger]
            call_is_named(pieces, n, index) <==> exists|i: int|
                0 <= i < streamed(pieces, n).calls.len() && (#[trigger] streamed(
                    pieces,
                    n,
                ).calls[i]).index == index,
    decreases n,
{
    if n > 0 {
        law_calls_are_put_together(pieces, n - 1);
        let before = streamed(pieces, n - 1).calls;
        let now = streamed(pieces, n).calls;
        let d = pieces[n - 1].tool_call_delta;
        if d is Some {
            let t = d->0;
            lemma_call_at(before, t.index, 0);
            let k = call_at(before, t.index, 0);
            assert(now[k].index == t.index);
            law_a_piece_reaches_its_call_only(before, t, k);
            if k == before.len() {
                assert(!call_is_named(pieces, n - 1, t.index));
                lemma_unnamed(pieces, n - 1, t.index);
            }
            assert forall|i: int| 0 <= i < now.len() implies (#[trigger] now[i]).arguments
                == arguments_for(pieces, n, now[i].index) by {
                law_a_piece_reaches_its_call_only(before, t, i);
                if i < before.len() {
                    assert(now[i].index == before[i].index);
                    assert(before[i].arguments == arguments_for(pieces, n - 1, before[i].index));
                    assert(before[i].arguments + Seq::<char>::empty() =~= before[i].arguments);
                }
            }
        } else {
            assert forall|i: int| 0 <= i < now.len() implies (#[trigger] now[i]).arguments
                == arguments_for(pieces, n, now[i].index) by {
                assert(now[i] == before[i]);
                assert(before[i].arguments + Seq::<char>::empty() =~= before[i].arguments);
            }
        }
        assert forall|index: usize| #[trigger] call_is_named(pieces, n, index) <==> exists|i: int|
            0 <= i < now.len() && (#[trigger] now[i]).index == index by {
            if call_is_named(pieces, n, index) {
                if !call_is_named(pieces, n - 1, index) {
                    let w = choose|w: int|
                        0 <= w < n && (#[trigger] pieces[w]).tool_call_delta is Some
                            && pieces[w].tool_call_delta->0.index == index;
                    assert(w == n - 1);
                    let k = call_at(before, index, 0);
                    assert(now[k].index == index);
                } else {
                    let i = choose|i: int| 0 <= i < before.len() && (#[trigger] before[i]).index == index;
                    assert(now[i].index == index);
                }
            }
            if exists|i: int| 0 <= i < now.len() && (#[trigger] now[i]).index == index {
                let i = choose|i: int| 0 <= i < now.len() && (#[trigger] now[i]).index == index;
                if i < before.len() {
                    assert(before[i].index == index);
                    assert(call_is_named(pieces, n - 1, index));
                    let w = choose|w: int|
                        0 <= w < n - 1 && (#[trigger] pieces[w]).tool_call_delta is Some
                            && pieces[w].tool_call_delta->0.index == index;
                    assert(0 <= w < n && pieces[w].tool_call_delta is Some);
                } else {
                    assert(d is Some && d->0.index == index);
                    assert(pieces[n - 1].tool_call_delta is Some);
                }
            }
        }
    } else {
        assert forall|index: usize| !(#[trigger] call_is_named(pieces, n, index)) by {}
    }
}

proof fn lemma_unnamed(pieces: Seq<DeltaView>, n: int, index: usize)
    requires
        0 <= n <= pieces.len(),
        !call_is_named(pieces, n, index),
    ensures
        arguments_for(pieces, n, index) == Seq::<char>::empty(),
    decreases n,
{
    if n > 0 {
        assert(!call_is_named(pieces, n - 1, index)) by {
            if call_is_named(pieces, n - 1, index) {
                let w = choose|w: int|
                    0 <= w < n - 1 && (#[trigger] pieces[w]).tool_call_delta is Some
                        && pieces[w].tool_call_delta->0.index == index;
                assert(0 <= w < n && pieces[w].tool_call_delta is Some);
            }
        }
        lemma_unnamed(pieces, n - 1, index);
        assert(!(pieces[n - 1].tool_call_delta is Some && pieces[n - 1].tool_call_delta->0.index
            == index));
        assert(Seq::<char>::empty() + Seq::<char>::empty() =~= Seq::<char>::empty());
    }
}

/// A finished answer is the assistant's, with its reasoning if there is any
/// and with every call under its own id and name; arguments that are JSON
/// are read, none at all are an empty object, and others stay as they are.
/// One that broke off holds text and reasoning only.
pub proof fn law_finished_answer_holds_all(a: AccView, role: Role)
    ensures
        finished_message(a).role == Role::Assistant,
        finished_message(a).content == ContentView::Text(a.content),
        a.reasoning.len() > 0 ==> finished_message(a).reasoning == Some(a.reasoning),
        a.reasoning.len() == 0 ==> finished_message(a).reasoning is None,
        finished_message(a).tool_calls is Some <==> a.calls.len() > 0,
        a.calls.len() > 0 ==> finished_message(a).tool_calls->0.len() == a.calls.len(),
        forall|i: int|
            0 <= i < a.calls.len() ==> {
                let call = #[trigger] finished_message(a).tool_calls->0[i];
                &&& call.id == a.calls[i].id
                &&& call.name == a.calls[i].name
                &&& a.calls[i].arguments.len() == 0 ==> call.arguments == JsonView::object()
                &&& a.calls[i].arguments.len() > 0 && json_read(a.calls[i].arguments) is Some
                    ==> call.arguments == json_read(a.calls[i].arguments)->0
                &&& a.calls[i].arguments.len() > 0 && json_read(a.calls[i].arguments) is None
                    ==> call.arguments == JsonView::Text(a.calls[i].arguments)
            },
        partial_message(a, role).role == role,
        partial_message(a, role).content == ContentView::Text(a.content),
        partial_message(a, role).reasoning == finished_message(a).reasoning,
        partial_message(a, role).tool_calls is None,
        nothing_streamed(a) <==> a.content.len() + a.reasoning.len() + a.calls.len() == 0,
{
}

/// Every part of a piece is reported once, and nothing else is.
pub proof fn law_every_part_is_reported(d: DeltaView)
    ensures
        delta_events(d).len() == (if d.content_delta is Some {
            1int
        } else {
            0
        }) + (if d.reasoning_delta is Some {
            1int
        } else {
            0
        }) + (if d.tool_call_delta is Some {
            1int
        } else {
            0
        }),
        d.content_delta matches Some(s) ==> delta_events(d).first() == EventView::ContentDelta(s),
        d.reasoning_delta matches Some(s) ==> delta_events(d).contains(
            EventView::ReasoningDelta(s),
        ),
        d.tool_call_delta matches Some(t) ==> delta_events(d).last() == EventView::ToolCallPartial(
            t,
        ),
{
    if let Some(s) = d.reasoning_delta {
        let k = if d.content_delta is Some {
            1int
        } else {
            0
        };
        assert(delta_events(d)[k] == EventView::ReasoningDelta(s));
    }
}

} // verus!
