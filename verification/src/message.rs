//! Conversation messages and what a provider reports of them.

use vstd::prelude::*;
use vstd::string::*;

use crate::json::{json_text, Json, JsonView};
use crate::text::{byte_count, byte_len, join, join_text, push_text, views};
use crate::tool::opt_view;

verus! {

/// Who a message is from.
#[derive(Clone, Copy, Debug, PartialEq, Eq, Structural)]
pub enum Role {
    System,
    User,
    Assistant,
    Tool,
}

pub open spec fn role_name(role: Role) -> Seq<char> {
    match role {
        Role::System => "system"@,
        Role::User => "user"@,
        Role::Assistant => "assistant"@,
        Role::Tool => "tool"@,
    }
}

impl Role {
    pub fn as_str(&self) -> (r: &'static str)
        ensures
            r@ == role_name(*self),
    {
        match self {
            Role::System => "system",
            Role::User => "user",
            Role::Assistant => "assistant",
            Role::Tool => "tool",
        }
    }
}

/// A part of a message's content.
pub enum ContentPart {
    Text { text: String },
    ImageUrl { url: String },
}

/// The content of a message.
pub enum Content {
    Text(String),
    Parts(Vec<ContentPart>),
}

/// A call of a tool that the model asks for.
pub struct ToolCall {
    pub id: String,
    pub name: String,
    pub arguments: Json,
}

/// A message of a conversation.
pub struct Message {
    pub role: Role,
    pub content: Content,
    pub reasoning: Option<String>,
    pub tool_call_id: Option<String>,
    pub tool_calls: Option<Vec<ToolCall>>,
}

pub ghost enum PartView {
    Text { text: Seq<char> },
    ImageUrl { url: Seq<char> },
}

#[verifier::ext_equal]
pub ghost enum ContentView {
    Text(Seq<char>),
    Parts(Seq<PartView>),
}

#[verifier::ext_equal]
pub ghost struct ToolCallView {
    pub id: Seq<char>,
    pub name: Seq<char>,
    pub arguments: JsonView,
}

#[verifier::ext_equal]
pub ghost struct MessageView {
    pub role: Role,
    pub content: ContentView,
    pub reasoning: Option<Seq<char>>,
    pub tool_call_id: Option<Seq<char>>,
    pub tool_calls: Option<Seq<ToolCallView>>,
}

impl View for ContentPart {
    type V = PartView;

    open spec fn view(&self) -> PartView {
        match self {
            ContentPart::Text { text } => PartView::Text { text: text@ },
            ContentPart::ImageUrl { url } => PartView::ImageUrl { url: url@ },
        }
    }
}

pub open spec fn part_views(parts: Seq<ContentPart>) -> Seq<PartView> {
    Seq::new(parts.len(), |i: int| parts[i]@)
}

impl View for Content {
    type V = ContentView;

    open spec fn view(&self) -> ContentView {
        match self {
            Content::Text(t) => ContentView::Text(t@),
            Content::Parts(parts) => ContentView::Parts(part_views(parts@)),
        }
    }
}

impl View for ToolCall {
    type V = ToolCallView;

    open spec fn view(&self) -> ToolCallView {
        ToolCallView { id: self.id@, name: self.name@, arguments: self.arguments@ }
    }
}

pub open spec fn call_views(calls: Seq<ToolCall>) -> Seq<ToolCallView> {
    Seq::new(calls.len(), |i: int| calls[i]@)
}

impl View for Message {
    type V = MessageView;

    open spec fn view(&self) -> MessageView {
        MessageView {
            role: self.role,
            content: self.content@,
            reasoning: opt_view(self.reasoning),
            tool_call_id: opt_view(self.tool_call_id),
            tool_calls: match self.tool_calls {
                Some(calls) => Some(call_views(calls@)),
                None => None,
            },
        }
    }
}

pub open spec fn message_views(messages: Seq<Message>) -> Seq<MessageView> {
    Seq::new(messages.len(), |i: int| messages[i]@)
}

/// A message that is text alone.
pub open spec fn plain(role: Role, text: Seq<char>) -> MessageView {
    MessageView {
        role,
        content: ContentView::Text(text),
        reasoning: None,
        tool_call_id: None,
        tool_calls: None,
    }
}

/// The result of a tool call.
pub open spec fn tool_message(tool_call_id: Seq<char>, text: Seq<char>) -> MessageView {
    MessageView { tool_call_id: Some(tool_call_id), ..plain(Role::Tool, text) }
}

/// A part as text.
pub open spec fn part_text(part: PartView) -> Seq<char> {
    match part {
        PartView::Text { text } => text,
        PartView::ImageUrl { url } => "[image: "@ + url + "]"@,
    }
}

/// The content as text, one part per line.
pub open spec fn content_text(content: ContentView) -> Seq<char> {
    match content {
        ContentView::Text(t) => t,
        ContentView::Parts(parts) => join(
            Seq::new(parts.len(), |i: int| part_text(parts[i])),
            "\n"@,
        ),
    }
}

impl Content {
    pub fn as_text(&self) -> (r: String)
        ensures
            r@ == content_text(self@),
    {
        match self {
            Content::Text(t) => t.clone(),
            Content::Parts(parts) => {
                let ghost ps = part_views(parts@);
                let mut texts: Vec<String> = Vec::new();
                let mut i: usize = 0;
                while i < parts.len()
                    invariant
                        i <= parts@.len(),
                        ps == part_views(parts@),
                        views(texts@) =~= Seq::new(i as nat, |k: int| part_text(ps[k])),
                    decreases parts.len() - i,
                {
                    match &parts[i] {
                        ContentPart::Text { text } => {
                            push_text(&mut texts, text.as_str());
                        },
                        ContentPart::ImageUrl { url } => {
                            let mut out = "[image: ".to_owned();
                            out.append(url.as_str());
                            out.append("]");
                            push_text(&mut texts, out.as_str());
                        },
                    }
                    i += 1;
                }
                assert(views(texts@) =~= Seq::new(ps.len(), |k: int| part_text(ps[k])));
                join_text(&texts, "\n")
            },
        }
    }

    pub fn copy(&self) -> (r: Content)
        ensures
            r@ == self@,
    {
        match self {
            Content::Text(t) => Content::Text(t.clone()),
            Content::Parts(parts) => {
                let mut out: Vec<ContentPart> = Vec::new();
                let mut i: usize = 0;
                while i < parts.len()
                    invariant
                        i <= parts@.len(),
                        out@.len() == i,
                        forall|k: int| 0 <= k < i ==> out@[k]@ == parts@[k]@,
                    decreases parts.len() - i,
                {
                    let one = match &parts[i] {
                        ContentPart::Text { text } => ContentPart::Text { text: text.clone() },
                        ContentPart::ImageUrl { url } => ContentPart::ImageUrl { url: url.clone() },
                    };
                    out.push(one);
                    i += 1;
                }
                assert(part_views(out@) =~= part_views(parts@));
                Content::Parts(out)
            },
        }
    }
}

impl ToolCall {
    pub fn copy(&self) -> (r: ToolCall)
        ensures
            r@ == self@,
    {
        ToolCall {
            id: self.id.clone(),
            name: self.name.clone(),
            arguments: self.arguments.copy(),
        }
    }
}

pub fn copy_calls(calls: &Vec<ToolCall>) -> (r: Vec<ToolCall>)
    ensures
        call_views(r@) == call_views(calls@),
        r@.len() == calls@.len(),
{
    let mut out: Vec<ToolCall> = Vec::new();
    let mut i: usize = 0;
    while i < calls.len()
        invariant
            i <= calls@.len(),
            out@.len() == i,
            forall|k: int| 0 <= k < i ==> out@[k]@ == calls@[k]@,
        decreases calls.len() - i,
    {
        out.push(calls[i].copy());
        i += 1;
    }
    assert(call_views(out@) =~= call_views(calls@));
    out
}

fn copy_opt(s: &Option<String>) -> (r: Option<String>)
    ensures
        opt_view(r) == opt_view(*s),
{
    match s {
        Some(t) => Some(t.clone()),
        None => None,
    }
}

impl Message {
    fn of(role: Role, text: &str) -> (r: Message)
        ensures
            r@ == plain(role, text@),
    {
        Message {
            role,
            content: Content::Text(text.to_owned()),
            reasoning: None,
            tool_call_id: None,
            tool_calls: None,
        }
    }

    pub fn user(text: &str) -> (r: Message)
        ensures
            r@ == plain(Role::User, text@),
    {
        Message::of(Role::User, text)
    }

    pub fn system(text: &str) -> (r: Message)
        ensures
            r@ == plain(Role::System, text@),
    {
        Message::of(Role::System, text)
    }

    pub fn assistant(text: &str) -> (r: Message)
        ensures
            r@ == plain(Role::Assistant, text@),
    {
        Message::of(Role::Assistant, text)
    }

    pub fn tool_result(tool_call_id: &str, text: &str) -> (r: Message)
        ensures
            r@ == tool_message(tool_call_id@, text@),
    {
        let mut m = Message::of(Role::Tool, text);
        m.tool_call_id = Some(tool_call_id.to_owned());
        m
    }

    pub fn copy(&self) -> (r: Message)
        ensures
            r@ == self@,
    {
        Message {
            role: self.role,
            content: self.content.copy(),
            reasoning: copy_opt(&self.reasoning),
            tool_call_id: copy_opt(&self.tool_call_id),
            tool_calls: match &self.tool_calls {
                Some(calls) => Some(copy_calls(calls)),
                None => None,
            },
        }
    }

    /// The size of the message in bytes, as far as it can be counted.
    pub fn char_len(&self) -> (r: usize)
        ensures
            r == at_most(message_bytes(self@), usize::MAX as nat),
    {
        let mut n: usize = 0;
        match &self.content {
            Content::Text(t) => {
                n = byte_len(t.as_str());
            },
            Content::Parts(parts) => {
                let ghost ps = part_views(parts@);
                let mut i: usize = 0;
                while i < parts.len()
                    invariant
                        i <= parts@.len(),
                        ps == part_views(parts@),
                        n == at_most(parts_bytes(ps, i as int), usize::MAX as nat),
                    decreases parts.len() - i,
                {
                    let k: usize = match &parts[i] {
                        ContentPart::Text { text } => byte_len(text.as_str()),
                        ContentPart::ImageUrl { url } => byte_len(url.as_str()),
                    };
                    assert(ps[i as int] == parts@[i as int]@);
                    n = n.saturating_add(k);
                    i += 1;
                }
                assert(ps.len() == parts@.len());
            },
        }
        if let Some(t) = &self.reasoning {
            n = n.saturating_add(byte_len(t.as_str()));
        }
        if let Some(calls) = &self.tool_calls {
            let ghost before = message_content_bytes(self@);
            let ghost cs = call_views(calls@);
            let mut i: usize = 0;
            while i < calls.len()
                invariant
                    i <= calls@.len(),
                    cs == call_views(calls@),
                    n == at_most(before + calls_bytes(cs, i as int), usize::MAX as nat),
                decreases calls.len() - i,
            {
                assert(cs[i as int] == calls@[i as int]@);
                let text = calls[i].arguments.render();
                n = n.saturating_add(byte_len(text.as_str()));
                i += 1;
            }
            assert(cs.len() == calls@.len());
        }
        n
    }
}

/// `n`, or `limit` if that is less.
pub open spec fn at_most(n: nat, limit: nat) -> nat {
    if n <= limit {
        n
    } else {
        limit
    }
}

/// The bytes of the first `n` parts.
pub open spec fn parts_bytes(parts: Seq<PartView>, n: int) -> nat
    decreases n,
{
    if n <= 0 {
        0
    } else {
        parts_bytes(parts, n - 1) + match parts[n - 1] {
            PartView::Text { text } => byte_count(text),
            PartView::ImageUrl { url } => byte_count(url),
        }
    }
}

/// The bytes of the arguments of the first `n` calls.
pub open spec fn calls_bytes(calls: Seq<ToolCallView>, n: int) -> nat
    decreases n,
{
    if n <= 0 {
        0
    } else {
        calls_bytes(calls, n - 1) + byte_count(json_text(calls[n - 1].arguments))
    }
}

/// The bytes of a message's content and reasoning.
pub open spec fn message_content_bytes(m: MessageView) -> nat {
    (match m.content {
        ContentView::Text(t) => byte_count(t),
        ContentView::Parts(parts) => parts_bytes(parts, parts.len() as int),
    }) + (match m.reasoning {
        Some(t) => byte_count(t),
        None => 0,
    })
}

/// The bytes of a message: its content, its reasoning and the arguments of
/// its tool calls.
pub open spec fn message_bytes(m: MessageView) -> nat {
    message_content_bytes(m) + (match m.tool_calls {
        Some(calls) => calls_bytes(calls, calls.len() as int),
        None => 0,
    })
}

/// Copies of messages `from..to`.
pub fn copy_messages(messages: &Vec<Message>, from: usize, to: usize) -> (r: Vec<Message>)
    requires
        from <= to <= messages@.len(),
    ensures
        message_views(r@) == message_views(messages@).subrange(from as int, to as int),
        r@.len() == to - from,
{
    let mut out: Vec<Message> = Vec::new();
    let mut i: usize = from;
    while i < to
        invariant
            from <= i <= to <= messages@.len(),
            out@.len() == i - from,
            forall|k: int| 0 <= k < i - from ==> out@[k]@ == messages@[from + k]@,
        decreases to - i,
    {
        out.push(messages[i].copy());
        i += 1;
    }
    assert(message_views(out@) =~= message_views(messages@).subrange(from as int, to as int));
    out
}

/// Appends a message to a list.
pub fn push_message(list: &mut Vec<Message>, message: Message)
    ensures
        message_views(final(list)@) == message_views(old(list)@).push(message@),
        final(list)@.len() == old(list)@.len() + 1,
{
    let ghost before = message_views(list@);
    let ghost m = message@;
    list.push(message);
    assert(message_views(list@) =~= before.push(m));
}

// ---------------------------------------------------------------------
// Usage
// ---------------------------------------------------------------------

/// The tokens that a provider counted.
#[derive(Clone, Copy, Debug, PartialEq, Eq, Structural)]
pub struct Usage {
    pub input_tokens: u64,
    pub cached_input_tokens: u64,
    pub output_tokens: u64,
}

impl Usage {
    pub fn none() -> (r: Usage)
        ensures
            r == (Usage { input_tokens: 0, cached_input_tokens: 0, output_tokens: 0 }),
    {
        Usage { input_tokens: 0, cached_input_tokens: 0, output_tokens: 0 }
    }

    /// The tokens of the prompt, read anew or from a cache.
    pub fn prompt_context_tokens(&self) -> (r: u64)
        ensures
            r == prompt_tokens(*self),
    {
        self.input_tokens.saturating_add(self.cached_input_tokens)
    }
}

/// The tokens of the prompt, as far as they can be counted.
pub open spec fn prompt_tokens(u: Usage) -> u64 {
    at_most((u.input_tokens + u.cached_input_tokens) as nat, u64::MAX as nat) as u64
}

/// Why a provider stopped.
#[derive(Clone, Copy, Debug, PartialEq, Eq, Structural)]
pub enum FinishReason {
    Stop,
    Length,
    ContentFilter,
    ToolUse,
    Error,
}

/// A whole answer of a provider.
pub struct Completion {
    pub message: Message,
    pub usage: Usage,
    pub finish_reason: FinishReason,
}

/// Why a provider failed.
pub enum ProviderError {
    InvalidResponse(String),
    Transport(String),
    Cancelled,
    Other(String),
}

pub ghost enum ProviderErrorView {
    InvalidResponse(Seq<char>),
    Transport(Seq<char>),
    Cancelled,
    Other(Seq<char>),
}

impl View for ProviderError {
    type V = ProviderErrorView;

    open spec fn view(&self) -> ProviderErrorView {
        match self {
            ProviderError::InvalidResponse(s) => ProviderErrorView::InvalidResponse(s@),
            ProviderError::Transport(s) => ProviderErrorView::Transport(s@),
            ProviderError::Cancelled => ProviderErrorView::Cancelled,
            ProviderError::Other(s) => ProviderErrorView::Other(s@),
        }
    }
}

pub open spec fn provider_error_text(e: ProviderErrorView) -> Seq<char> {
    match e {
        ProviderErrorView::InvalidResponse(s) => "invalid response: "@ + s,
        ProviderErrorView::Transport(s) => "transport error: "@ + s,
        ProviderErrorView::Cancelled => "cancelled"@,
        ProviderErrorView::Other(s) => s,
    }
}

impl ProviderError {
    pub fn message(&self) -> (r: String)
        ensures
            r@ == provider_error_text(self@),
    {
        match self {
            ProviderError::InvalidResponse(s) => {
                let mut out = "invalid response: ".to_owned();
                out.append(s.as_str());
                out
            },
            ProviderError::Transport(s) => {
                let mut out = "transport error: ".to_owned();
                out.append(s.as_str());
                out
            },
            ProviderError::Cancelled => "cancelled".to_owned(),
            ProviderError::Other(s) => s.clone(),
        }
    }
}

/// The prompt of an answer is what the provider read anew and what it read
/// from a cache.
pub proof fn law_prompt_counts_cached_tokens(u: Usage)
    requires
        u.input_tokens + u.cached_input_tokens <= u64::MAX,
    ensures
        prompt_tokens(u) == u.input_tokens + u.cached_input_tokens,
{
}

/// Content that is text is that text; parts stand one on each line, in
/// order, texts as they are.
pub proof fn law_content_holds_all_parts(parts: Seq<PartView>, t: Seq<char>)
    ensures
        content_text(ContentView::Text(t)) == t,
        parts.len() == 1 && parts[0] == (PartView::Text { text: t }) ==> content_text(
            ContentView::Parts(parts),
        ) == t,
        parts.len() > 1 ==> content_text(ContentView::Parts(parts)) == content_text(
            ContentView::Parts(parts.drop_last()),
        ) + "\n"@ + content_text(ContentView::Parts(seq![parts.last()])),
{
    let texts = Seq::new(parts.len(), |i: int| part_text(parts[i]));
    if parts.len() > 1 {
        let less = Seq::new(parts.drop_last().len(), |i: int| part_text(parts.drop_last()[i]));
        assert(texts.drop_last() =~= less);
        let one = seq![parts.last()];
        let last = Seq::new(one.len(), |i: int| part_text(one[i]));
        assert(last[0] == part_text(parts.last()));
    }
}

/// The size of a message counts its text, its reasoning and the arguments
/// of all its tool calls.
pub proof fn law_size_counts_everything(m: MessageView, t: Seq<char>, r: Seq<char>)
    requires
        m.content == ContentView::Text(t),
    ensures
        m.reasoning is None && m.tool_calls is None ==> message_bytes(m) == byte_count(t),
        m.reasoning == Some(r) && m.tool_calls is None ==> message_bytes(m) == byte_count(t)
            + byte_count(r),
        m.tool_calls matches Some(calls) ==> (calls.len() > 0 ==> message_bytes(m)
            == message_bytes(
            MessageView { tool_calls: Some(calls.drop_last()), ..m },
        ) + byte_count(json_text(calls.last().arguments))),
{
    if let Some(calls) = m.tool_calls {
        if calls.len() > 0 {
            lemma_calls_bytes(calls, calls.drop_last(), calls.len() - 1);
        }
    }
}

proof fn lemma_calls_bytes(a: Seq<ToolCallView>, b: Seq<ToolCallView>, n: int)
    requires
        n <= a.len(),
        n <= b.len(),
        forall|i: int| 0 <= i < n ==> a[i] == b[i],
    ensures
        calls_bytes(a, n) == calls_bytes(b, n),
    decreases n,
{
    if n > 0 {
        lemma_calls_bytes(a, b, n - 1);
    }
}

/// A count that is too large for its place stands at the limit, and any
/// other stands as it is.
pub proof fn law_counts_stop_at_the_limit(n: nat, limit: nat)
    ensures
        at_most(n, limit) <= limit,
        at_most(n, limit) <= n,
        at_most(n, limit) == n || at_most(n, limit) == limit,
{
}

/// The text of a part holds all that the part has: its text, or the address
/// of its image.
pub proof fn law_part_text_holds_the_part(t: Seq<char>, url: Seq<char>)
    ensures
        part_text(PartView::Text { text: t }) == t,
        crate::context::summary::holds(part_text(PartView::ImageUrl { url }), url),
{
    crate::context::summary::lemma_holds("[image: "@, url, "]"@);
}

} // verus!
