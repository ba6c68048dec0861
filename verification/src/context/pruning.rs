//! Which messages are protected, and cutting old tool results short.

use vstd::prelude::*;
use vstd::string::*;

use crate::context::compressor::CompressorConfig;
use crate::context::double::{nearest, nearest_double};
use crate::message::{
    at_most, message_bytes, message_views, tool_message, Message, MessageView, Role,
};
use crate::text::{byte_count, byte_len, decimal, decimal_text};

verus! {

/// How many characters are counted as one token.
pub const CHARS_PER_TOKEN: u64 = 4;

/// The size of a message.
pub open spec fn size_of(m: MessageView) -> nat {
    at_most(message_bytes(m), usize::MAX as nat)
}

/// The size of a message in bytes: its content, its reasoning and the
/// arguments of its tool calls.
pub fn estimate_message_chars(msg: &Message) -> (r: usize)
    ensures
        r == size_of(msg@),
{
    msg.char_len()
}

/// The characters that a number of tokens stands for.
pub open spec fn budget_chars(tokens: u64) -> nat {
    nearest(tokens as nat) * 4
}

fn budget_of(tokens: u64) -> (r: u128)
    ensures
        r == budget_chars(tokens),
        r <= 4 * 0x1_0000_0000_0000_0000,
{
    let n: u128 = nearest_double(tokens);
    proof {
        lemma_nearest_bounded(tokens);
    }
    n * 4
}

proof fn lemma_nearest_bounded(n: u64)
    ensures
        nearest(n as nat) <= 0x1_0000_0000_0000_0000,
{
    lemma_spacing(n as nat);
    let step = crate::context::double::spacing(n as nat);
    let q = (n as nat) / step;
    assert(q * step <= n) by (nonlinear_arith)
        requires
            step >= 1,
            q == (n as nat) / step,
    ;
    let k = 0x1_0000_0000_0000_0000nat / step;
    assert(k * step == 0x1_0000_0000_0000_0000) by (nonlinear_arith)
        requires
            step >= 1,
            0x1_0000_0000_0000_0000nat % step == 0,
            k == 0x1_0000_0000_0000_0000nat / step,
    ;
    assert(q < k) by (nonlinear_arith)
        requires
            q * step <= n,
            n < 0x1_0000_0000_0000_0000,
            k * step == 0x1_0000_0000_0000_0000,
            step >= 1,
    ;
    assert((q + 1) * step <= k * step) by (nonlinear_arith)
        requires
            q + 1 <= k,
            step >= 1,
    ;
    assert(q * step <= k * step) by (nonlinear_arith)
        requires
            q <= k,
            step >= 1,
    ;
}

/// The spacing is a power of two that divides every larger one.
proof fn lemma_spacing(n: nat)
    requires
        n < 0x1_0000_0000_0000_0000,
    ensures
        crate::context::double::spacing(n) >= 1,
        0x1_0000_0000_0000_0000nat % crate::context::double::spacing(n) == 0,
{
    reveal_with_fuel(crate::context::double::spacing, 13);
    assert(0x1_0000_0000_0000_0000nat % 1 == 0);
    assert(0x1_0000_0000_0000_0000nat % 2 == 0);
    assert(0x1_0000_0000_0000_0000nat % 4 == 0);
    assert(0x1_0000_0000_0000_0000nat % 8 == 0);
    assert(0x1_0000_0000_0000_0000nat % 16 == 0);
    assert(0x1_0000_0000_0000_0000nat % 32 == 0);
    assert(0x1_0000_0000_0000_0000nat % 64 == 0);
    assert(0x1_0000_0000_0000_0000nat % 128 == 0);
    assert(0x1_0000_0000_0000_0000nat % 256 == 0);
    assert(0x1_0000_0000_0000_0000nat % 512 == 0);
    assert(0x1_0000_0000_0000_0000nat % 1024 == 0);
    assert(0x1_0000_0000_0000_0000nat % 2048 == 0);
    let s = crate::context::double::spacing(n);
    assert(s == 1 || s == 2 || s == 4 || s == 8 || s == 16 || s == 32 || s == 64 || s == 128 || s
        == 256 || s == 512 || s == 1024 || s == 2048);
}

/// Where the tail starts that older tool results do not reach: walking
/// back from `i`, messages belong to it until `left` characters are used
/// up, the one that uses them up too.
pub open spec fn tail_start(messages: Seq<MessageView>, i: int, left: int) -> int
    decreases i,
{
    if i <= 0 {
        0
    } else if left - size_of(messages[i - 1]) <= 0 {
        i - 1
    } else {
        tail_start(messages, i - 1, left - size_of(messages[i - 1]))
    }
}

/// The budget of the tail for tool results.
pub open spec fn tail_budget(tokens: u64) -> nat {
    at_most(budget_chars(tokens), i64::MAX as nat)
}

/// What is left of an old tool result.
pub open spec fn cleared_text(m: MessageView) -> Seq<char> {
    "[Old tool output cleared, "@ + (match m.tool_call_id {
        Some(id) => id,
        None => "unknown"@,
    }) + " returned "@ + decimal(size_of(m)) + " bytes]"@
}

/// A message outside the tail: a tool result loses its content.
pub open spec fn pruned(m: MessageView) -> MessageView {
    if m.role == Role::Tool {
        tool_message(
            match m.tool_call_id {
                Some(id) => id,
                None => Seq::empty(),
            },
            cleared_text(m),
        )
    } else {
        m
    }
}

/// The messages with old tool results cut short.
pub open spec fn pruned_messages(messages: Seq<MessageView>, tail_tokens: u64) -> Seq<MessageView> {
    let start = tail_start(messages, messages.len() as int, tail_budget(tail_tokens) as int);
    Seq::new(
        messages.len(),
        |i: int|
            if i < start {
                pruned(messages[i])
            } else {
                messages[i]
            },
    )
}

/// How many characters a message loses.
pub open spec fn saved(m: MessageView) -> nat {
    if m.role == Role::Tool && size_of(m) > byte_count(cleared_text(m)) {
        (size_of(m) - byte_count(cleared_text(m))) as nat
    } else {
        0
    }
}

/// How many characters the first `n` messages lose.
pub open spec fn saved_by(messages: Seq<MessageView>, n: int) -> nat
    decreases n,
{
    if n <= 0 {
        0
    } else {
        saved_by(messages, n - 1) + saved(messages[n - 1])
    }
}

proof fn lemma_tail_start(messages: Seq<MessageView>, i: int, left: int)
    requires
        0 <= i <= messages.len(),
    ensures
        0 <= tail_start(messages, i, left) <= i,
    decreases i,
{
    if i > 0 && left - size_of(messages[i - 1]) > 0 {
        lemma_tail_start(messages, i - 1, left - size_of(messages[i - 1]));
    }
}

fn find_tail_start(messages: &Vec<Message>, budget: i128) -> (r: usize)
    requires
        0 <= budget <= i64::MAX,
    ensures
        r == tail_start(message_views(messages@), messages@.len() as int, budget as int),
        r <= messages@.len(),
{
    let ghost ms = message_views(messages@);
    let mut left: i128 = budget;
    let mut i: usize = messages.len();
    while i > 0
        invariant
            i <= messages@.len(),
            ms == message_views(messages@),
            0 <= left <= i64::MAX,
            tail_start(ms, messages@.len() as int, budget as int) == tail_start(
                ms,
                i as int,
                left as int,
            ),
        decreases i,
    {
        assert(ms[i - 1] == messages@[i - 1]@);
        let size: i128 = messages[i - 1].char_len() as i128;
        if left - size <= 0 {
            return i - 1;
        }
        left = left - size;
        i -= 1;
    }
    0
}

fn prune_message(msg: &Message) -> (r: (Message, usize))
    ensures
        r.0@ == pruned(msg@),
        r.1 == saved(msg@),
{
    if msg.role != Role::Tool {
        return (msg.copy(), 0);
    }
    let size: usize = msg.char_len();
    let mut text = "[Old tool output cleared, ".to_owned();
    match &msg.tool_call_id {
        Some(id) => {
            text.append(id.as_str());
        },
        None => {
            text.append("unknown");
        },
    }
    text.append(" returned ");
    text.append(decimal_text(size as u64).as_str());
    text.append(" bytes]");
    let id = match &msg.tool_call_id {
        Some(id) => id.clone(),
        None => String::new(),
    };
    assert(msg.tool_call_id is None ==> id@ =~= Seq::<char>::empty());
    let now: usize = byte_len(text.as_str());
    let gain: usize = if size > now {
        size - now
    } else {
        0
    };
    (Message::tool_result(id.as_str(), text.as_str()), gain)
}

/// Cuts tool results short that are older than the protected tail: the
/// messages, and how many characters were saved, as far as that can be
/// counted.
pub fn prune_old_tool_results(messages: &Vec<Message>, config: &CompressorConfig) -> (r: (
    Vec<Message>,
    usize,
))
    ensures
        message_views(r.0@) == pruned_messages(
            message_views(messages@),
            config.protect_tail_tokens,
        ),
        r.1 == at_most(
            saved_by(
                message_views(messages@),
                tail_start(
                    message_views(messages@),
                    messages@.len() as int,
                    tail_budget(config.protect_tail_tokens) as int,
                ),
            ),
            usize::MAX as nat,
        ),
{
    let ghost ms = message_views(messages@);
    let wide: u128 = budget_of(config.protect_tail_tokens);
    let budget: i128 = if wide > i64::MAX as u128 {
        i64::MAX as i128
    } else {
        wide as i128
    };
    let start: usize = find_tail_start(messages, budget);
    let mut out: Vec<Message> = Vec::new();
    let mut total: usize = 0;
    let mut i: usize = 0;
    while i < start
        invariant
            i <= start <= messages@.len(),
            ms == message_views(messages@),
            out@.len() == i,
            forall|k: int| 0 <= k < i ==> out@[k]@ == pruned(ms[k]),
            total == at_most(saved_by(ms, i as int), usize::MAX as nat),
        decreases start - i,
    {
        assert(ms[i as int] == messages@[i as int]@);
        let (m, gain) = prune_message(&messages[i]);
        total = total.saturating_add(gain);
        out.push(m);
        i += 1;
    }
    while i < messages.len()
        invariant
            start <= i <= messages@.len(),
            ms == message_views(messages@),
            out@.len() == i,
            forall|k: int| 0 <= k < start ==> out@[k]@ == pruned(ms[k]),
            forall|k: int| start <= k < i ==> out@[k]@ == ms[k],
        decreases messages.len() - i,
    {
        out.push(messages[i].copy());
        i += 1;
    }
    assert(message_views(out@) =~= pruned_messages(ms, config.protect_tail_tokens));
    (out, total)
}

/// Pruning keeps every message but tool results, keeps the number and the
/// roles of all, and does not touch the tail.
pub proof fn law_pruning_touches_old_tool_results_only(
    messages: Seq<MessageView>,
    tail_tokens: u64,
    i: int,
)
    requires
        0 <= i < messages.len(),
    ensures
        pruned_messages(messages, tail_tokens).len() == messages.len(),
        pruned_messages(messages, tail_tokens)[i].role == messages[i].role,
        messages[i].role != Role::Tool ==> pruned_messages(messages, tail_tokens)[i] == messages[i],
        i >= tail_start(messages, messages.len() as int, tail_budget(tail_tokens) as int)
            ==> pruned_messages(messages, tail_tokens)[i] == messages[i],
{
}

/// Where the protected head ends, walking on from `i` with `count`
/// messages counted: after `n` messages that are no system messages. A
/// system message in the first place is in the head whatever `n` is.
pub open spec fn head_end(messages: Seq<MessageView>, n: nat, i: int, count: nat) -> int
    decreases messages.len() - i,
{
    if i >= messages.len() {
        messages.len() as int
    } else if messages[i].role == Role::System && (i == 0 || count < n) {
        head_end(messages, n, i + 1, count)
    } else if count >= n {
        i
    } else {
        head_end(messages, n, i + 1, count + 1)
    }
}

/// The index of the first message after the protected head.
pub fn find_head_boundary(messages: &Vec<Message>, protect_first_n: usize) -> (r: usize)
    ensures
        r == head_end(message_views(messages@), protect_first_n as nat, 0, 0),
        r <= messages@.len(),
{
    let ghost ms = message_views(messages@);
    let mut count: usize = 0;
    let mut i: usize = 0;
    while i < messages.len()
        invariant
            count <= i <= messages@.len(),
            ms == message_views(messages@),
            head_end(ms, protect_first_n as nat, 0, 0) == head_end(
                ms,
                protect_first_n as nat,
                i as int,
                count as nat,
            ),
        decreases messages.len() - i,
    {
        assert(ms[i as int] == messages@[i as int]@);
        let passed = messages[i].role == Role::System && (i == 0 || count < protect_first_n);
        if !passed {
            if count >= protect_first_n {
                return i;
            }
            count += 1;
        }
        i += 1;
    }
    messages.len()
}

/// How many of the first `k` messages are no system messages.
pub open spec fn others_before(messages: Seq<MessageView>, k: int) -> nat
    decreases k,
{
    if k <= 0 {
        0
    } else {
        others_before(messages, k - 1) + if messages[k - 1].role == Role::System {
            0nat
        } else {
            1nat
        }
    }
}

proof fn lemma_head_end(messages: Seq<MessageView>, n: nat, i: int, count: nat)
    requires
        0 <= i <= messages.len(),
        count == others_before(messages, i),
        count <= n,
    ensures
        i <= head_end(messages, n, i, count) <= messages.len(),
        others_before(messages, head_end(messages, n, i, count)) <= n,
        others_before(messages, head_end(messages, n, i, count)) == n || head_end(
            messages,
            n,
            i,
            count,
        ) == messages.len(),
    decreases messages.len() - i,
{
    if i < messages.len() {
        if messages[i].role == Role::System && (i == 0 || count < n) {
            lemma_head_end(messages, n, i + 1, count);
        } else if count < n {
            lemma_head_end(messages, n, i + 1, count + 1);
        }
    }
}

/// The protected head holds the first `n` messages that are no system
/// messages, or the whole history if there are fewer, and it holds a system
/// message in the first place.
pub proof fn law_head_holds_the_first_messages(messages: Seq<MessageView>, n: nat)
    ensures
        0 <= head_end(messages, n, 0, 0) <= messages.len(),
        others_before(messages, head_end(messages, n, 0, 0)) == n || (others_before(
            messages,
            messages.len() as int,
        ) < n && head_end(messages, n, 0, 0) == messages.len()),
        messages.len() > 0 && messages[0].role == Role::System ==> head_end(messages, n, 0, 0) > 0,
{
    lemma_head_end(messages, n, 0, 0);
    if messages.len() > 0 && messages[0].role == Role::System {
        assert(others_before(messages, 1) == 0) by {
            assert(others_before(messages, 0) == 0);
        }
        lemma_head_end(messages, n, 1, 0);
    }
}

/// Walking back from `i` to `head`: where the messages start that fit into
/// `left` characters, with the first that does not.
pub open spec fn tail_walk(messages: Seq<MessageView>, head: int, i: int, left: nat) -> int
    decreases i,
{
    if i <= head || i <= 0 {
        i
    } else if size_of(messages[i - 1]) > left {
        i - 1
    } else {
        tail_walk(messages, head, i - 1, (left - size_of(messages[i - 1])) as nat)
    }
}

/// Where the protected tail starts. Up to three of the last messages are
/// in it whatever their size, and at least one message between head and
/// tail is not, if there is more than one behind the head.
pub open spec fn tail_cut(messages: Seq<MessageView>, head: int, tail_tokens: u64) -> int {
    let behind = messages.len() - head;
    if behind <= 1 {
        head
    } else {
        let least = if behind - 1 < 3 {
            behind - 1
        } else {
            3
        };
        let fallback = messages.len() - least;
        let walked = tail_walk(
            messages,
            head,
            messages.len() as int,
            at_most(budget_chars(tail_tokens), usize::MAX as nat),
        );
        let start = if walked < fallback {
            walked
        } else {
            fallback
        };
        if start > head {
            start
        } else if fallback > head + 1 {
            fallback
        } else {
            head + 1
        }
    }
}

/// The index of the first message of the protected tail.
pub fn find_tail_cut_by_tokens(
    messages: &Vec<Message>,
    head_end: usize,
    config: &CompressorConfig,
) -> (r: usize)
    ensures
        r == tail_cut(message_views(messages@), head_end as int, config.protect_tail_tokens),
        head_end <= messages@.len() ==> head_end <= r <= messages@.len(),
{
    let ghost ms = message_views(messages@);
    let n: usize = messages.len();
    if head_end >= n || n - head_end <= 1 {
        return head_end;
    }
    let behind: usize = n - head_end;
    let least: usize = if behind - 1 < 3 {
        behind - 1
    } else {
        3
    };
    let fallback: usize = n - least;
    let wide: u128 = budget_of(config.protect_tail_tokens);
    let mut left: usize = if wide > usize::MAX as u128 {
        usize::MAX
    } else {
        wide as usize
    };
    let mut i: usize = n;
    let ghost walked = tail_walk(ms, head_end as int, n as int, left as nat);
    let mut walking = true;
    while walking && i > head_end
        invariant
            head_end <= i <= n == messages@.len(),
            ms == message_views(messages@),
            walking ==> walked == tail_walk(ms, head_end as int, i as int, left as nat),
            !walking ==> walked == i,
        decreases i,
    {
        assert(ms[i - 1] == messages@[i - 1]@);
        let size: usize = messages[i - 1].char_len();
        if size > left {
            walking = false;
        } else {
            left = left - size;
        }
        i -= 1;
    }
    let start: usize = if i < fallback {
        i
    } else {
        fallback
    };
    if start > head_end {
        start
    } else if fallback > head_end + 1 {
        fallback
    } else {
        head_end + 1
    }
}

/// Where more than one message is behind the head, the part between head
/// and tail is not empty, and the last message is never in it.
pub proof fn law_cut_leaves_a_middle(messages: Seq<MessageView>, head: int, tail_tokens: u64)
    requires
        0 <= head,
        messages.len() - head >= 2,
    ensures
        head < tail_cut(messages, head, tail_tokens) < messages.len(),
{
}

/// The size of the first `n` messages.
pub open spec fn total_size(messages: Seq<MessageView>, n: int) -> nat
    decreases n,
{
    if n <= 0 {
        0
    } else {
        total_size(messages, n - 1) + size_of(messages[n - 1])
    }
}

/// The tokens that messages are estimated to take.
pub open spec fn estimated_tokens(messages: Seq<MessageView>) -> nat {
    nearest(at_most(total_size(messages, messages.len() as int), usize::MAX as nat)) / 4
}

pub fn estimate_tokens(messages: &Vec<Message>) -> (r: u64)
    ensures
        r == estimated_tokens(message_views(messages@)),
{
    let ghost ms = message_views(messages@);
    let mut total: usize = 0;
    let mut i: usize = 0;
    while i < messages.len()
        invariant
            i <= messages@.len(),
            ms == message_views(messages@),
            total == at_most(total_size(ms, i as int), usize::MAX as nat),
        decreases messages.len() - i,
    {
        assert(ms[i as int] == messages@[i as int]@);
        total = total.saturating_add(messages[i].char_len());
        i += 1;
    }
    assert(ms.len() == messages@.len());
    proof {
        lemma_nearest_bounded(total as u64);
    }
    let r: u128 = nearest_double(total as u64) / 4;
    r as u64
}

/// The size of the messages from `i` on.
pub open spec fn size_from(messages: Seq<MessageView>, i: int) -> nat
    decreases messages.len() - i,
{
    if i >= messages.len() {
        0
    } else {
        size_of(messages[i]) + size_from(messages, i + 1)
    }
}

proof fn lemma_size_from_falls(messages: Seq<MessageView>, i: int, j: int)
    requires
        0 <= i <= j,
    ensures
        size_from(messages, i) >= size_from(messages, j),
    decreases j - i,
{
    if i < j && i < messages.len() {
        lemma_size_from_falls(messages, i + 1, j);
    }
}

proof fn lemma_tail_walk(messages: Seq<MessageView>, head: int, i: int, left: nat, budget: nat)
    requires
        0 <= head <= i <= messages.len(),
        left + size_from(messages, i) == budget,
    ensures
        ({
            let w = tail_walk(messages, head, i, left);
            &&& head <= w <= i
            &&& forall|j: int| w < j <= i ==> #[trigger] size_from(messages, j) <= budget
            &&& w > head ==> w < i && size_from(messages, w) > budget
        }),
    decreases i,
{
    if i > head {
        assert(size_from(messages, i - 1) == size_of(messages[i - 1]) + size_from(messages, i));
        if size_of(messages[i - 1]) <= left {
            lemma_tail_walk(
                messages,
                head,
                i - 1,
                (left - size_of(messages[i - 1])) as nat,
                budget,
            );
        }
    }
}

/// The tail that the cut leaves is what the budget of four characters a
/// token asks for. Up to three of the last messages are in it, and one
/// message behind the head is not. If the messages behind the first one
/// after the head do not all fit, every run of last messages that fits is in
/// the tail, and the first of the tail is the one that does not fit; if they
/// do, the tail is no more than the last three.
pub proof fn law_tail_fills_its_budget(messages: Seq<MessageView>, head: int, tail_tokens: u64)
    requires
        0 <= head,
        messages.len() - head >= 2,
        tail_tokens < 9_007_199_254_740_992,
        4 * tail_tokens <= usize::MAX,
    ensures
        ({
            let cut = tail_cut(messages, head, tail_tokens);
            let budget = 4 * tail_tokens;
            &&& head < cut
            &&& messages.len() - cut >= 3 || cut == head + 1
            &&& size_from(messages, head + 1) > budget ==> (forall|j: int|
                head < j <= messages.len() && #[trigger] size_from(messages, j) <= budget ==> cut
                    <= j)
            &&& messages.len() - cut > 3 ==> size_from(messages, cut) > budget && size_from(
                messages,
                cut + 1,
            ) <= budget
            &&& size_from(messages, head + 1) <= budget ==> messages.len() - cut <= 3
        }),
{
    crate::context::double::law_small_numbers_are_exact(tail_tokens as nat);
    let n = messages.len() as int;
    let budget = (4 * tail_tokens) as nat;
    assert(budget_chars(tail_tokens) == budget);
    lemma_tail_walk(messages, head, n, budget, budget);
    let w = tail_walk(messages, head, n, budget);
    let cut = tail_cut(messages, head, tail_tokens);
    if size_from(messages, head + 1) > budget {
        assert(w > head);
        assert forall|j: int|
            head < j <= messages.len() && #[trigger] size_from(messages, j) <= budget implies cut
            <= j by {
            if j < w {
                lemma_size_from_falls(messages, j, w);
            }
        }
    } else if w > head {
        lemma_size_from_falls(messages, head + 1, w);
    }
}

proof fn lemma_tail_start_fits(messages: Seq<MessageView>, i: int, left: int, budget: int)
    requires
        0 <= i <= messages.len(),
        left + size_from(messages, i) == budget,
        i < messages.len() ==> left > 0,
    ensures
        ({
            let t = tail_start(messages, i, left);
            &&& 0 <= t <= i
            &&& i > 0 && i == messages.len() ==> t < i
            &&& t > 0 ==> size_from(messages, t) >= budget
            &&& forall|j: int|
                t < j < messages.len() && j <= i ==> #[trigger] size_from(messages, j) < budget
        }),
    decreases i,
{
    if i > 0 {
        assert(size_from(messages, i - 1) == size_of(messages[i - 1]) + size_from(messages, i));
        if left - size_of(messages[i - 1]) > 0 {
            lemma_tail_start_fits(messages, i - 1, left - size_of(messages[i - 1]), budget);
        }
    }
}

/// A tool result is cut short just if the messages behind it use up the
/// budget of four characters a token; it keeps its id, and its text says
/// how long it was. All else stays as it is.
pub proof fn law_only_results_beyond_the_budget_are_cleared(
    messages: Seq<MessageView>,
    tail_tokens: u64,
    i: int,
    id: Seq<char>,
)
    requires
        0 <= i < messages.len(),
        4 * tail_tokens <= i64::MAX,
        tail_tokens < 9_007_199_254_740_992,
        messages[i].tool_call_id == Some(id),
    ensures
        ({
            let now = pruned_messages(messages, tail_tokens)[i];
            let old_result = messages[i].role == Role::Tool && i + 1 < messages.len() && size_from(
                messages,
                i + 1,
            ) >= 4 * tail_tokens;
            &&& !old_result ==> now == messages[i]
            &&& old_result ==> now == tool_message(
                id,
                "[Old tool output cleared, "@ + id + " returned "@ + decimal(size_of(messages[i]))
                    + " bytes]"@,
            )
        }),
{
    crate::context::double::law_small_numbers_are_exact(tail_tokens as nat);
    let n = messages.len() as int;
    let budget = 4 * tail_tokens;
    assert(tail_budget(tail_tokens) == budget);
    lemma_tail_start_fits(messages, n, budget, budget);
    let t = tail_start(messages, n, budget);
    if i < t {
        lemma_size_from_falls(messages, i + 1, t);
    }
}

proof fn lemma_total_size(messages: Seq<MessageView>, i: int)
    requires
        0 <= i <= messages.len(),
    ensures
        total_size(messages, i) + size_from(messages, i) == size_from(messages, 0),
    decreases i,
{
    if i > 0 {
        lemma_total_size(messages, i - 1);
        assert(size_from(messages, i - 1) == size_of(messages[i - 1]) + size_from(messages, i));
    }
}

/// Every message counts for the estimate, four characters a token.
pub proof fn law_estimate_counts_all_messages(messages: Seq<MessageView>)
    requires
        size_from(messages, 0) < 9_007_199_254_740_992,
        size_from(messages, 0) <= usize::MAX,
    ensures
        estimated_tokens(messages) == size_from(messages, 0) / 4,
{
    lemma_total_size(messages, messages.len() as int);
    crate::context::double::law_small_numbers_are_exact(size_from(messages, 0));
}

/// What pruning says it saved is what the messages lost, as far as they
/// became shorter.
pub proof fn law_saved_is_what_was_lost(m: MessageView)
    requires
        message_bytes(m) <= usize::MAX,
        byte_count(cleared_text(m)) <= usize::MAX,
    ensures
        size_of(pruned(m)) <= size_of(m) ==> size_of(pruned(m)) + saved(m) == size_of(m),
        size_of(pruned(m)) > size_of(m) ==> saved(m) == 0,
{
}

/// With no more than one message behind the head there is nothing between
/// head and tail: the tail starts where the head ends.
pub proof fn law_short_history_has_no_middle(
    messages: Seq<MessageView>,
    head: int,
    tail_tokens: u64,
)
    requires
        0 <= head <= messages.len(),
        messages.len() - head <= 1,
    ensures
        tail_cut(messages, head, tail_tokens) == head,
{
}

} // verus!
