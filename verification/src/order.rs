//! The order of texts, and lists kept in order.

use vstd::prelude::*;

use crate::text::{chars_of, same, views};

verus! {

/// Whether `a` comes before `b`, comparing characters from `i` on.
pub open spec fn precedes_from(a: Seq<char>, b: Seq<char>, i: int) -> bool
    decreases b.len() - i,
{
    if i >= b.len() {
        false
    } else if i >= a.len() {
        true
    } else if a[i] != b[i] {
        a[i] < b[i]
    } else {
        precedes_from(a, b, i + 1)
    }
}

/// Whether `a` comes before `b` in the order of their characters.
pub open spec fn precedes(a: Seq<char>, b: Seq<char>) -> bool {
    precedes_from(a, b, 0)
}

pub proof fn lemma_precedes_total(a: Seq<char>, b: Seq<char>, i: int)
    requires
        0 <= i <= a.len(),
        i <= b.len(),
        a.take(i) == b.take(i),
    ensures
        a == b || precedes_from(a, b, i) || precedes_from(b, a, i),
        a == b ==> !precedes_from(a, b, i),
        !(precedes_from(a, b, i) && precedes_from(b, a, i)),
    decreases b.len() - i,
{
    if i >= b.len() && i >= a.len() {
        assert(a =~= b) by {
            assert(a.take(i) =~= a);
            assert(b.take(i) =~= b);
        }
    } else if i < b.len() && i < a.len() && a[i] == b[i] {
        assert(a.take(i + 1) =~= a.take(i).push(a[i]));
        assert(b.take(i + 1) =~= b.take(i).push(b[i]));
        lemma_precedes_total(a, b, i + 1);
    } else if i >= b.len() {
        assert(a.len() > b.len());
    } else if i >= a.len() {
        assert(b.len() > a.len());
    } else {
        assert(a != b) by {
            assert(a[i] != b[i]);
        }
    }
}

pub proof fn lemma_precedes_transitive(a: Seq<char>, b: Seq<char>, c: Seq<char>, i: int)
    requires
        0 <= i,
        precedes_from(a, b, i),
        precedes_from(b, c, i),
    ensures
        precedes_from(a, c, i),
    decreases c.len() - i,
{
    if i < a.len() && i < b.len() && i < c.len() && a[i] == b[i] && b[i] == c[i] {
        lemma_precedes_transitive(a, b, c, i + 1);
    }
}

pub fn precedes_text(a: &str, b: &str) -> (r: bool)
    ensures
        r == precedes(a@, b@),
{
    let x = chars_of(a);
    let y = chars_of(b);
    let mut i: usize = 0;
    while i < y.len()
        invariant
            i <= y@.len(),
            x@ == a@,
            y@ == b@,
            i <= x@.len(),
            precedes(a@, b@) == precedes_from(a@, b@, i as int),
        decreases y.len() - i,
    {
        if i >= x.len() {
            return true;
        }
        if x[i] != y[i] {
            return x[i] < y[i];
        }
        i += 1;
    }
    false
}

/// Each element comes before the next.
pub open spec fn strictly_sorted(s: Seq<Seq<char>>) -> bool {
    forall|i: int, j: int| 0 <= i < j < s.len() ==> precedes(#[trigger] s[i], #[trigger] s[j])
}

/// How many elements at the start of `s` come before `p`, from `i` on.
pub open spec fn place_of(s: Seq<Seq<char>>, p: Seq<char>, i: int) -> int
    decreases s.len() - i,
{
    if i < s.len() && precedes(s[i], p) {
        place_of(s, p, i + 1)
    } else {
        i
    }
}

/// The sorted list `s` with `p` in its place, unless it is there already.
pub open spec fn inserted(s: Seq<Seq<char>>, p: Seq<char>) -> Seq<Seq<char>> {
    let at = place_of(s, p, 0);
    if at < s.len() && s[at] == p {
        s
    } else {
        s.insert(at, p)
    }
}

/// The distinct elements among the first `n` of `items`, sorted.
pub open spec fn sorted_distinct(items: Seq<Seq<char>>, n: int) -> Seq<Seq<char>>
    decreases n,
{
    if n <= 0 {
        Seq::empty()
    } else {
        inserted(sorted_distinct(items, n - 1), items[n - 1])
    }
}

pub proof fn lemma_place_of(s: Seq<Seq<char>>, p: Seq<char>, i: int)
    requires
        0 <= i <= s.len(),
    ensures
        i <= place_of(s, p, i) <= s.len(),
        forall|k: int| i <= k < place_of(s, p, i) ==> precedes(#[trigger] s[k], p),
        place_of(s, p, i) < s.len() ==> !precedes(s[place_of(s, p, i)], p),
    decreases s.len() - i,
{
    if i < s.len() && precedes(s[i], p) {
        lemma_place_of(s, p, i + 1);
    }
}

/// Inserting keeps a list sorted and adds just the one element.
pub proof fn lemma_inserted(s: Seq<Seq<char>>, p: Seq<char>)
    requires
        strictly_sorted(s),
    ensures
        strictly_sorted(inserted(s, p)),
        forall|q: Seq<char>| inserted(s, p).contains(q) <==> (s.contains(q) || q == p),
{
    lemma_place_of(s, p, 0);
    let at = place_of(s, p, 0);
    let t = inserted(s, p);
    if at < s.len() && s[at] == p {
        assert(s.contains(p));
    } else {
        assert forall|j: int| at <= j < s.len() implies precedes(p, #[trigger] s[j]) by {
            assert(s[at].take(0) =~= p.take(0));
            lemma_precedes_total(s[at], p, 0);
            if j > at {
                lemma_precedes_transitive(p, s[at], s[j], 0);
            }
        }
        assert forall|i: int, j: int| 0 <= i < j < t.len() implies precedes(
            #[trigger] t[i],
            #[trigger] t[j],
        ) by {
            if i < at && j < at {
                assert(precedes(s[i], s[j]));
            } else if i < at && j > at {
                assert(precedes(s[i], s[j - 1]));
            } else if i > at {
                assert(precedes(s[i - 1], s[j - 1]));
            } else if i == at {
                assert(precedes(p, s[j - 1]));
            }
        }
        assert forall|q: Seq<char>| t.contains(q) <==> (s.contains(q) || q == p) by {
            assert(t[at] == p);
            if s.contains(q) {
                let k = choose|k: int| 0 <= k < s.len() && s[k] == q;
                if k < at {
                    assert(t[k] == q);
                } else {
                    assert(t[k + 1] == q);
                }
            }
            if t.contains(q) && q != p {
                let k = choose|k: int| 0 <= k < t.len() && t[k] == q;
                if k < at {
                    assert(s[k] == q);
                } else {
                    assert(s[k - 1] == q);
                }
            }
        }
    }
}

/// The sorted list is in order, without repetition, and holds just what
/// the items hold.
pub proof fn law_sorted_distinct(items: Seq<Seq<char>>, n: int)
    requires
        0 <= n <= items.len(),
    ensures
        strictly_sorted(sorted_distinct(items, n)),
        forall|q: Seq<char>|
            sorted_distinct(items, n).contains(q) <==> items.take(n).contains(q),
    decreases n,
{
    if n > 0 {
        law_sorted_distinct(items, n - 1);
        lemma_inserted(sorted_distinct(items, n - 1), items[n - 1]);
        assert forall|q: Seq<char>|
            sorted_distinct(items, n).contains(q) <==> items.take(n).contains(q) by {
            let before = items.take(n - 1);
            let now = items.take(n);
            let prev = sorted_distinct(items, n - 1);
            assert(inserted(prev, items[n - 1]).contains(q) <==> (prev.contains(q) || q == items[n
                - 1]));
            assert(prev.contains(q) <==> before.contains(q));
            if before.contains(q) {
                let k = choose|k: int| 0 <= k < before.len() && before[k] == q;
                assert(now[k] == q);
            }
            assert(now[n - 1] == items[n - 1]);
            if now.contains(q) && q != items[n - 1] {
                let k = choose|k: int| 0 <= k < now.len() && now[k] == q;
                assert(before[k] == q);
            }
        }
    }
}

/// Puts `p` in its place in a sorted list.
pub fn insert_text(s: &mut Vec<String>, p: &str)
    ensures
        views(final(s)@) == inserted(views(old(s)@), p@),
{
    let ghost before = views(s@);
    let mut i: usize = 0;
    while i < s.len() && precedes_text(s[i].as_str(), p)
        invariant
            i <= s@.len(),
            before == views(s@),
            place_of(before, p@, 0) == place_of(before, p@, i as int),
        decreases s.len() - i,
    {
        assert(before[i as int] == s@[i as int]@);
        i += 1;
    }
    assert(i < s@.len() ==> before[i as int] == s@[i as int]@);
    if i < s.len() && same(s[i].as_str(), p) {
        return;
    }
    s.insert(i, p.to_owned());
    assert(views(s@) =~= before.insert(i as int, p@));
}

/// The distinct elements of `items`, sorted.
pub fn sort_distinct(items: &Vec<String>) -> (r: Vec<String>)
    ensures
        views(r@) == sorted_distinct(views(items@), items@.len() as int),
{
    let mut out: Vec<String> = Vec::new();
    let mut i: usize = 0;
    assert(views(out@) =~= Seq::<Seq<char>>::empty());
    while i < items.len()
        invariant
            i <= items@.len(),
            views(out@) == sorted_distinct(views(items@), i as int),
        decreases items.len() - i,
    {
        assert(views(items@)[i as int] == items@[i as int]@);
        insert_text(&mut out, items[i].as_str());
        i += 1;
    }
    out
}

/// No element comes before one in front of it.
pub open spec fn sorted(s: Seq<Seq<char>>) -> bool {
    forall|i: int, j: int| 0 <= i < j < s.len() ==> !precedes(#[trigger] s[j], #[trigger] s[i])
}

/// The first `n` of `items`, sorted, each as often as it is there.
pub open spec fn sorted_texts(items: Seq<Seq<char>>, n: int) -> Seq<Seq<char>>
    decreases n,
{
    if n <= 0 {
        Seq::empty()
    } else {
        let before = sorted_texts(items, n - 1);
        before.insert(place_of(before, items[n - 1], 0), items[n - 1])
    }
}

/// Putting an element in its place keeps a list sorted.
proof fn lemma_placed(s: Seq<Seq<char>>, p: Seq<char>)
    requires
        sorted(s),
    ensures
        0 <= place_of(s, p, 0) <= s.len(),
        sorted(s.insert(place_of(s, p, 0), p)),
{
    lemma_place_of(s, p, 0);
    let at = place_of(s, p, 0);
    let t = s.insert(at, p);
    assert forall|i: int, j: int| 0 <= i < j < t.len() implies !precedes(
        #[trigger] t[j],
        #[trigger] t[i],
    ) by {
        if j < at {
            assert(t[i] == s[i] && t[j] == s[j]);
        } else if j == at {
            assert(s[i].take(0) =~= p.take(0));
            lemma_precedes_total(s[i], p, 0);
        } else if i < at {
            assert(t[i] == s[i] && t[j] == s[j - 1]);
        } else if i > at {
            assert(t[i] == s[i - 1] && t[j] == s[j - 1]);
        } else if precedes(s[j - 1], p) {
            assert(t[j] == s[j - 1]);
            assert(j - 1 > at);
            assert(s[at].take(0) =~= p.take(0));
            lemma_precedes_total(s[at], p, 0);
            if s[at] != p {
                lemma_precedes_transitive(s[j - 1], p, s[at], 0);
            }
        }
    }
}

/// Where an element is put does not matter for how often each is there.
proof fn lemma_insert_multiset(s: Seq<Seq<char>>, at: int, p: Seq<char>)
    requires
        0 <= at <= s.len(),
    ensures
        s.insert(at, p).to_multiset() =~= s.to_multiset().insert(p),
{
    broadcast use vstd::seq_lib::group_to_multiset_ensures;

    let t = s.insert(at, p);
    assert(t.remove(at) =~= s);
    assert(t[at] == p);
    assert(t.contains(p));
    assert(t.remove(at).to_multiset() =~= t.to_multiset().remove(t[at]));
    assert(t.to_multiset().count(p) > 0);
}

/// The sorted list is in order and holds each text as often as the items
/// do.
pub proof fn law_sorted_texts(items: Seq<Seq<char>>, n: int)
    requires
        0 <= n <= items.len(),
    ensures
        sorted(sorted_texts(items, n)),
        sorted_texts(items, n).to_multiset() == items.take(n).to_multiset(),
    decreases n,
{
    if n > 0 {
        law_sorted_texts(items, n - 1);
        let before = sorted_texts(items, n - 1);
        lemma_placed(before, items[n - 1]);
        lemma_insert_multiset(before, place_of(before, items[n - 1], 0), items[n - 1]);
        assert(items.take(n) =~= items.take(n - 1).push(items[n - 1]));
        items.take(n - 1).to_multiset_ensures();
    } else {
        assert(items.take(n) =~= sorted_texts(items, n));
    }
}

/// The elements of `items`, sorted.
pub fn sort_texts(items: &Vec<String>) -> (r: Vec<String>)
    ensures
        views(r@) == sorted_texts(views(items@), items@.len() as int),
{
    let mut out: Vec<String> = Vec::new();
    let mut i: usize = 0;
    assert(views(out@) =~= Seq::<Seq<char>>::empty());
    while i < items.len()
        invariant
            i <= items@.len(),
            views(out@) == sorted_texts(views(items@), i as int),
        decreases items.len() - i,
    {
        let ghost before = views(out@);
        let ghost p = items@[i as int]@;
        assert(views(items@)[i as int] == p);
        let mut k: usize = 0;
        while k < out.len() && precedes_text(out[k].as_str(), items[i].as_str())
            invariant
                i < items@.len(),
                p == items@[i as int]@,
                k <= out@.len(),
                before == views(out@),
                place_of(before, p, 0) == place_of(before, p, k as int),
            decreases out.len() - k,
        {
            assert(before[k as int] == out@[k as int]@);
            k += 1;
        }
        assert(k < out@.len() ==> before[k as int] == out@[k as int]@);
        out.insert(k, items[i].clone());
        assert(views(out@) =~= before.insert(k as int, p));
        i += 1;
    }
    out
}

/// Texts are ordered as in a dictionary: at the first character in which
/// two differ, the smaller one decides, and a text comes before every longer
/// one that starts with it.
pub proof fn law_first_difference_decides(
    start: Seq<char>,
    x: char,
    y: char,
    a: Seq<char>,
    b: Seq<char>,
)
    ensures
        x < y ==> precedes(start + seq![x] + a, start + seq![y] + b),
        precedes(start, start + seq![y] + b),
        !precedes(start, start),
        precedes(a, b) ==> !precedes(b, a),
        a != b ==> precedes(a, b) || precedes(b, a),
{
    let p = start + seq![x] + a;
    let q = start + seq![y] + b;
    let n = start.len() as int;
    lemma_same_start(p, q, n, 0);
    lemma_same_start(start, q, n, 0);
    assert(p[n] == x && q[n] == y);
    assert(start.take(0) =~= start.take(0));
    lemma_precedes_total(start, start, 0);
    assert(a.take(0) =~= b.take(0));
    lemma_precedes_total(a, b, 0);
}

proof fn lemma_same_start(a: Seq<char>, b: Seq<char>, n: int, i: int)
    requires
        0 <= i <= n <= a.len(),
        n <= b.len(),
        forall|k: int| 0 <= k < n ==> #[trigger] a[k] == b[k],
    ensures
        precedes_from(a, b, i) == precedes_from(a, b, n),
    decreases n - i,
{
    if i < n {
        assert(a[i] == b[i]);
        lemma_same_start(a, b, n, i + 1);
    }
}

} // verus!
