//! Text as sequences of characters: splitting, trimming, searching and
//! number formatting, each stated over `Seq<char>`.

use vstd::prelude::*;
use vstd::string::*;

verus! {

/// `String::push` appends one character.
pub assume_specification[ String::push ](s: &mut String, ch: char)
    ensures
        final(s)@ == old(s)@.push(ch),
;

/// The characters of every string of a list.
pub open spec fn views(items: Seq<String>) -> Seq<Seq<char>> {
    Seq::new(items.len(), |i: int| items[i]@)
}

/// The characters of `s`, in order.
pub fn chars_of(s: &str) -> (r: Vec<char>)
    ensures
        r@ == s@,
{
    let mut out: Vec<char> = Vec::new();
    for c in it: s.chars()
        invariant
            out@ =~= s@.take(it.index()),
            it.seq() == s@,
    {
        out.push(c);
    }
    out
}

/// The string made of `cs[from..to]`.
pub fn string_between(cs: &Vec<char>, from: usize, to: usize) -> (r: String)
    requires
        from <= to <= cs@.len(),
    ensures
        r@ == cs@.subrange(from as int, to as int),
{
    let mut out = String::new();
    let mut i: usize = from;
    while i < to
        invariant
            from <= i <= to <= cs@.len(),
            out@ =~= cs@.subrange(from as int, i as int),
        decreases to - i,
    {
        out.push(cs[i]);
        i += 1;
    }
    out
}

/// Whether two strings hold the same characters.
pub fn same(a: &str, b: &str) -> (r: bool)
    ensures
        r == (a@ == b@),
{
    let x = chars_of(a);
    let y = chars_of(b);
    if x.len() != y.len() {
        return false;
    }
    let mut i: usize = 0;
    while i < x.len()
        invariant
            i <= x@.len(),
            x@.len() == y@.len(),
            x@ == a@,
            y@ == b@,
            forall|k: int| 0 <= k < i ==> x@[k] == y@[k],
        decreases x.len() - i,
    {
        if x[i] != y[i] {
            return false;
        }
        i += 1;
    }
    assert(x@ =~= y@);
    true
}

/// Whether `wanted` is one of `items`.
pub fn holds_text(items: &Vec<String>, wanted: &str) -> (r: bool)
    ensures
        r == views(items@).contains(wanted@),
{
    let mut i: usize = 0;
    while i < items.len()
        invariant
            i <= items@.len(),
            forall|k: int| 0 <= k < i ==> items@[k]@ != wanted@,
        decreases items.len() - i,
    {
        if same(items[i].as_str(), wanted) {
            assert(views(items@)[i as int] == wanted@);
            return true;
        }
        i += 1;
    }
    false
}

/// Appends a string to a list.
pub fn push_text(list: &mut Vec<String>, item: &str)
    ensures
        views(final(list)@) == views(old(list)@).push(item@),
{
    let ghost before = views(list@);
    list.push(item.to_owned());
    assert(views(list@) =~= before.push(item@));
}

// ---------------------------------------------------------------------
// White space
// ---------------------------------------------------------------------

/// The Unicode `White_Space` characters.
pub open spec fn is_space(c: char) -> bool {
    ||| '\u{9}' <= c <= '\u{d}'
    ||| c == '\u{20}'
    ||| c == '\u{85}'
    ||| c == '\u{a0}'
    ||| c == '\u{1680}'
    ||| '\u{2000}' <= c <= '\u{200a}'
    ||| c == '\u{2028}'
    ||| c == '\u{2029}'
    ||| c == '\u{202f}'
    ||| c == '\u{205f}'
    ||| c == '\u{3000}'
}

pub fn space(c: char) -> (r: bool)
    ensures
        r == is_space(c),
{
    ('\u{9}' <= c && c <= '\u{d}') || c == '\u{20}' || c == '\u{85}' || c == '\u{a0}'
        || c == '\u{1680}' || ('\u{2000}' <= c && c <= '\u{200a}') || c == '\u{2028}'
        || c == '\u{2029}' || c == '\u{202f}' || c == '\u{205f}' || c == '\u{3000}'
}

/// `s` without its leading white space.
pub open spec fn trim_start(s: Seq<char>) -> Seq<char>
    decreases s.len(),
{
    if s.len() > 0 && is_space(s[0]) {
        trim_start(s.skip(1))
    } else {
        s
    }
}

/// `s` without its trailing white space.
pub open spec fn trim_end(s: Seq<char>) -> Seq<char>
    decreases s.len(),
{
    if s.len() > 0 && is_space(s.last()) {
        trim_end(s.drop_last())
    } else {
        s
    }
}

/// `s` without white space on either side.
pub open spec fn trim(s: Seq<char>) -> Seq<char> {
    trim_end(trim_start(s))
}

pub fn trim_start_text(s: &str) -> (r: String)
    ensures
        r@ == trim_start(s@),
{
    let cs = chars_of(s);
    let mut i: usize = 0;
    assert(s@.skip(0) =~= s@);
    while i < cs.len() && space(cs[i])
        invariant
            i <= cs@.len(),
            cs@ == s@,
            trim_start(s@.skip(i as int)) == trim_start(s@),
        decreases cs.len() - i,
    {
        assert(s@.skip(i as int).skip(1) =~= s@.skip(i + 1));
        i += 1;
    }
    assert(s@.skip(i as int) =~= s@.subrange(i as int, s@.len() as int));
    string_between(&cs, i, cs.len())
}

pub fn trim_end_text(s: &str) -> (r: String)
    ensures
        r@ == trim_end(s@),
{
    let cs = chars_of(s);
    let mut j: usize = cs.len();
    assert(s@.take(s@.len() as int) =~= s@);
    while j > 0 && space(cs[j - 1])
        invariant
            j <= cs@.len(),
            cs@ == s@,
            trim_end(s@.take(j as int)) == trim_end(s@),
        decreases j,
    {
        assert(s@.take(j as int).drop_last() =~= s@.take(j - 1));
        j -= 1;
    }
    assert(s@.take(j as int) =~= s@.subrange(0, j as int));
    string_between(&cs, 0, j)
}

pub fn trim_text(s: &str) -> (r: String)
    ensures
        r@ == trim(s@),
{
    let t = trim_start_text(s);
    trim_end_text(t.as_str())
}

// ---------------------------------------------------------------------
// Searching
// ---------------------------------------------------------------------

/// Where `pat` first occurs in `s` at or after `from`.
pub open spec fn find_from<T>(s: Seq<T>, pat: Seq<T>, from: int) -> Option<int>
    decreases s.len() - from + 1,
{
    if from + pat.len() > s.len() {
        None
    } else if s.subrange(from, from + pat.len()) == pat {
        Some(from)
    } else {
        find_from(s, pat, from + 1)
    }
}

/// A position that `find_from` reports lies at or after `from`, the
/// pattern is there, and nowhere between.
pub proof fn lemma_find_from<T>(s: Seq<T>, pat: Seq<T>, from: int)
    requires
        0 <= from,
    ensures
        match find_from(s, pat, from) {
            Some(p) => from <= p && p + pat.len() <= s.len() && s.subrange(p, p + pat.len()) == pat
                && forall|q: int| from <= q < p ==> #[trigger] s.subrange(q, q + pat.len()) != pat,
            None => forall|q: int|
                from <= q && q + pat.len() <= s.len() ==> #[trigger] s.subrange(q, q + pat.len())
                    != pat,
        },
    decreases s.len() - from + 1,
{
    if from + pat.len() <= s.len() && s.subrange(from, from + pat.len()) != pat {
        lemma_find_from(s, pat, from + 1);
    }
}

/// Whether `pat` occurs in `s`.
pub open spec fn contains(s: Seq<char>, pat: Seq<char>) -> bool {
    find_from(s, pat, 0) is Some
}

/// How often `pat` occurs in `s` from `from` on, counting occurrences
/// that do not overlap, from left to right. An empty pattern counts none.
pub open spec fn count_from<T>(s: Seq<T>, pat: Seq<T>, from: int) -> nat
    decreases s.len() - from,
{
    if from < 0 || pat.len() == 0 {
        0
    } else {
        proof {
            lemma_find_from(s, pat, from);
        }
        match find_from(s, pat, from) {
            Some(p) => 1 + count_from(s, pat, p + pat.len()),
            None => 0,
        }
    }
}

/// `s` from `from` on with every occurrence of `pat` replaced by `new`.
pub open spec fn replace_from(s: Seq<char>, pat: Seq<char>, new: Seq<char>, from: int) -> Seq<char>
    decreases s.len() - from,
{
    if from < 0 || pat.len() == 0 {
        s
    } else {
        proof {
            lemma_find_from(s, pat, from);
        }
        match find_from(s, pat, from) {
            Some(p) => s.subrange(from, p) + new + replace_from(s, pat, new, p + pat.len()),
            None => s.subrange(from, s.len() as int),
        }
    }
}

/// `s` with its first occurrence of `pat` replaced by `new`.
pub open spec fn replace_first(s: Seq<char>, pat: Seq<char>, new: Seq<char>) -> Seq<char> {
    match find_from(s, pat, 0) {
        Some(p) => s.take(p) + new + s.skip(p + pat.len()),
        None => s,
    }
}

pub fn matches_at(s: &Vec<char>, pat: &Vec<char>, at: usize) -> (r: bool)
    requires
        at + pat@.len() <= s@.len(),
    ensures
        r == (s@.subrange(at as int, at + pat@.len()) == pat@),
{
    let total: usize = s.len();
    let mut k: usize = 0;
    while k < pat.len()
        invariant
            k <= pat@.len(),
            at + pat@.len() <= s@.len() == total,
            forall|m: int| 0 <= m < k ==> s@[at + m] == pat@[m],
        decreases pat.len() - k,
    {
        if s[at + k] != pat[k] {
            assert(s@.subrange(at as int, at + pat@.len())[k as int] != pat@[k as int]);
            return false;
        }
        k += 1;
    }
    assert(s@.subrange(at as int, at + pat@.len()) =~= pat@);
    true
}

pub fn find_chars(s: &Vec<char>, pat: &Vec<char>, from: usize) -> (r: Option<usize>)
    requires
        from <= s@.len(),
    ensures
        match r {
            Some(p) => find_from(s@, pat@, from as int) == Some(p as int),
            None => find_from(s@, pat@, from as int) is None,
        },
{
    if pat.len() > s.len() {
        return None;
    }
    let last: usize = s.len() - pat.len();
    let mut i: usize = from;
    while i <= last
        invariant
            from <= i <= s@.len(),
            last + pat@.len() == s@.len(),
            find_from(s@, pat@, from as int) == find_from(s@, pat@, i as int),
        decreases s.len() - i + 1,
    {
        if matches_at(s, pat, i) {
            return Some(i);
        }
        if i == last {
            assert(find_from(s@, pat@, i + 1) is None);
            return None;
        }
        i += 1;
    }
    None
}

pub fn contains_text(s: &str, pat: &str) -> (r: bool)
    ensures
        r == contains(s@, pat@),
{
    let cs = chars_of(s);
    let ps = chars_of(pat);
    find_chars(&cs, &ps, 0).is_some()
}

/// Number of occurrences of `pat` in `s` that do not overlap.
pub fn count_text(s: &str, pat: &str) -> (r: usize)
    ensures
        r == count_from(s@, pat@, 0),
{
    let cs = chars_of(s);
    let ps = chars_of(pat);
    if ps.len() == 0 {
        return 0;
    }
    let mut n: usize = 0;
    let mut i: usize = 0;
    loop
        invariant
            0 <= n <= i <= cs@.len(),
            cs@ == s@,
            ps@ == pat@,
            ps@.len() > 0,
            n + count_from(s@, pat@, i as int) == count_from(s@, pat@, 0),
        ensures
            n == count_from(s@, pat@, 0),
        decreases cs.len() - i,
    {
        proof {
            lemma_find_from(s@, pat@, i as int);
        }
        match find_chars(&cs, &ps, i) {
            None => {
                break;
            },
            Some(p) => {
                n += 1;
                i = p + ps.len();
            },
        }
    }
    n
}

/// `s` with every occurrence of the non-empty `pat` replaced by `new`.
pub fn replace_text(s: &str, pat: &str, new: &str) -> (r: String)
    requires
        pat@.len() > 0,
    ensures
        r@ == replace_from(s@, pat@, new@, 0),
{
    let cs = chars_of(s);
    let ps = chars_of(pat);
    let mut out = String::new();
    let mut i: usize = 0;
    assert(out@ + replace_from(s@, pat@, new@, 0) =~= replace_from(s@, pat@, new@, 0));
    loop
        invariant
            i <= cs@.len(),
            cs@ == s@,
            ps@ == pat@,
            ps@.len() > 0,
            out@ + replace_from(s@, pat@, new@, i as int) == replace_from(s@, pat@, new@, 0),
        decreases cs.len() - i,
    {
        proof {
            lemma_find_from(s@, pat@, i as int);
        }
        let ghost before = out@;
        match find_chars(&cs, &ps, i) {
            None => {
                let tail = string_between(&cs, i, cs.len());
                out.append(tail.as_str());
                return out;
            },
            Some(p) => {
                let head = string_between(&cs, i, p);
                out.append(head.as_str());
                out.append(new);
                i = p + ps.len();
                proof {
                    let rest = replace_from(s@, pat@, new@, i as int);
                    assert(before + (head@ + new@ + rest) =~= out@ + rest);
                }
            },
        }
    }
}

/// `s` with its first occurrence of `pat` replaced by `new`.
pub fn replace_first_text(s: &str, pat: &str, new: &str) -> (r: String)
    ensures
        r@ == replace_first(s@, pat@, new@),
{
    let cs = chars_of(s);
    let ps = chars_of(pat);
    proof {
        lemma_find_from(s@, pat@, 0);
    }
    match find_chars(&cs, &ps, 0) {
        None => s.to_owned(),
        Some(p) => {
            let mut out = string_between(&cs, 0, p);
            let total: usize = cs.len();
            let tail = string_between(&cs, p + ps.len(), total);
            out.append(new);
            out.append(tail.as_str());
            assert(s@.take(p as int) =~= s@.subrange(0, p as int));
            assert(s@.skip(p + ps@.len()) =~= s@.subrange(p + ps@.len(), s@.len() as int));
            out
        },
    }
}

// ---------------------------------------------------------------------
// Prefixes and suffixes
// ---------------------------------------------------------------------

pub open spec fn starts_with(s: Seq<char>, prefix: Seq<char>) -> bool {
    prefix.len() <= s.len() && s.take(prefix.len() as int) == prefix
}

pub open spec fn ends_with(s: Seq<char>, suffix: Seq<char>) -> bool {
    suffix.len() <= s.len() && s.skip(s.len() - suffix.len()) == suffix
}

pub fn starts_with_text(s: &str, prefix: &str) -> (r: bool)
    ensures
        r == starts_with(s@, prefix@),
{
    let cs = chars_of(s);
    let ps = chars_of(prefix);
    if ps.len() > cs.len() {
        return false;
    }
    assert(s@.take(prefix@.len() as int) =~= s@.subrange(0, prefix@.len() as int));
    matches_at(&cs, &ps, 0)
}

pub fn ends_with_text(s: &str, suffix: &str) -> (r: bool)
    ensures
        r == ends_with(s@, suffix@),
{
    let cs = chars_of(s);
    let ps = chars_of(suffix);
    if ps.len() > cs.len() {
        return false;
    }
    let at: usize = cs.len() - ps.len();
    assert(s@.skip(s@.len() - suffix@.len()) =~= s@.subrange(at as int, at + suffix@.len()));
    matches_at(&cs, &ps, at)
}

/// What follows `prefix` in `s`, or nothing if `s` does not start with it.
pub open spec fn strip_prefix(s: Seq<char>, prefix: Seq<char>) -> Option<Seq<char>> {
    if starts_with(s, prefix) {
        Some(s.skip(prefix.len() as int))
    } else {
        None
    }
}

pub fn strip_prefix_text(s: &str, prefix: &str) -> (r: Option<String>)
    ensures
        match r {
            Some(rest) => strip_prefix(s@, prefix@) == Some(rest@),
            None => strip_prefix(s@, prefix@) is None,
        },
{
    if starts_with_text(s, prefix) {
        let rest = skip_text(s, count_chars(prefix));
        Some(rest)
    } else {
        None
    }
}

/// Number of characters in `s`.
pub fn count_chars(s: &str) -> (r: usize)
    ensures
        r == s@.len(),
{
    chars_of(s).len()
}

/// `s` without its first `n` characters.
pub fn skip_text(s: &str, n: usize) -> (r: String)
    requires
        n <= s@.len(),
    ensures
        r@ == s@.skip(n as int),
{
    let cs = chars_of(s);
    assert(s@.skip(n as int) =~= s@.subrange(n as int, s@.len() as int));
    string_between(&cs, n, cs.len())
}

/// The first `n` characters of `s`.
pub fn take_text(s: &str, n: usize) -> (r: String)
    requires
        n <= s@.len(),
    ensures
        r@ == s@.take(n as int),
{
    let cs = chars_of(s);
    assert(s@.take(n as int) =~= s@.subrange(0, n as int));
    string_between(&cs, 0, n)
}

// ---------------------------------------------------------------------
// Lines and pieces
// ---------------------------------------------------------------------

/// Where `c` first stands in `s` at or after `from`; the length if nowhere.
pub open spec fn find_char(s: Seq<char>, c: char, from: int) -> int
    decreases s.len() - from,
{
    if from >= s.len() {
        s.len() as int
    } else if s[from] == c {
        from
    } else {
        find_char(s, c, from + 1)
    }
}

pub proof fn lemma_find_char(s: Seq<char>, c: char, from: int)
    requires
        0 <= from <= s.len(),
    ensures
        from <= find_char(s, c, from) <= s.len(),
        find_char(s, c, from) < s.len() ==> s[find_char(s, c, from)] == c,
        forall|i: int| from <= i < find_char(s, c, from) ==> s[i] != c,
    decreases s.len() - from,
{
    if from < s.len() && s[from] != c {
        lemma_find_char(s, c, from + 1);
    }
}

pub fn find_char_at(s: &Vec<char>, c: char, from: usize) -> (r: usize)
    requires
        from <= s@.len(),
    ensures
        r == find_char(s@, c, from as int),
        from <= r <= s@.len(),
        r < s@.len() ==> s@[r as int] == c,
{
    let mut i: usize = from;
    while i < s.len() && s[i] != c
        invariant
            from <= i <= s@.len(),
            find_char(s@, c, from as int) == find_char(s@, c, i as int),
        decreases s.len() - i,
    {
        i += 1;
    }
    i
}

/// The pieces of `s` from `from` on between occurrences of `sep`.
pub open spec fn split_from(s: Seq<char>, sep: char, from: int) -> Seq<Seq<char>>
    decreases s.len() - from,
{
    if from < 0 || from > s.len() {
        Seq::empty()
    } else {
        let n = find_char(s, sep, from);
        proof {
            lemma_find_char(s, sep, from);
        }
        if n < s.len() {
            seq![s.subrange(from, n)] + split_from(s, sep, n + 1)
        } else {
            seq![s.subrange(from, n)]
        }
    }
}

/// The pieces of `s` between occurrences of `sep`: always at least one.
pub open spec fn split(s: Seq<char>, sep: char) -> Seq<Seq<char>> {
    split_from(s, sep, 0)
}

/// The lines of `s` from `from` on, each with its line feed; the last one
/// without, if the text does not end in a line feed.
pub open spec fn split_inclusive_from(s: Seq<char>, from: int) -> Seq<Seq<char>>
    decreases s.len() - from,
{
    if from < 0 || from >= s.len() {
        Seq::empty()
    } else {
        let n = find_char(s, '\n', from);
        proof {
            lemma_find_char(s, '\n', from);
        }
        if n < s.len() {
            seq![s.subrange(from, n + 1)] + split_inclusive_from(s, n + 1)
        } else {
            seq![s.subrange(from, n)]
        }
    }
}

pub open spec fn split_inclusive(s: Seq<char>) -> Seq<Seq<char>> {
    split_inclusive_from(s, 0)
}

/// A line without its line feed, and without the carriage return before it.
pub open spec fn strip_line_end(line: Seq<char>) -> Seq<char> {
    if line.len() > 0 && line.last() == '\n' {
        let head = line.drop_last();
        if head.len() > 0 && head.last() == '\r' {
            head.drop_last()
        } else {
            head
        }
    } else {
        line
    }
}

/// The lines of a text, without their line ends.
pub open spec fn lines(s: Seq<char>) -> Seq<Seq<char>> {
    Seq::new(split_inclusive(s).len(), |i: int| strip_line_end(split_inclusive(s)[i]))
}

/// `parts` with `sep` between neighbours.
pub open spec fn join(parts: Seq<Seq<char>>, sep: Seq<char>) -> Seq<char>
    decreases parts.len(),
{
    if parts.len() == 0 {
        Seq::empty()
    } else if parts.len() == 1 {
        parts[0]
    } else {
        join(parts.drop_last(), sep) + sep + parts.last()
    }
}

pub fn split_text(s: &str, sep: char) -> (r: Vec<String>)
    ensures
        views(r@) == split(s@, sep),
        r@.len() >= 1,
{
    let cs = chars_of(s);
    let mut out: Vec<String> = Vec::new();
    let mut i: usize = 0;
    assert(views(out@) + split_from(s@, sep, 0) =~= split(s@, sep));
    loop
        invariant
            i <= cs@.len(),
            cs@ == s@,
            views(out@) + split_from(s@, sep, i as int) == split(s@, sep),
        decreases cs.len() - i,
    {
        proof {
            lemma_find_char(s@, sep, i as int);
        }
        let ghost before = views(out@);
        let n: usize = find_char_at(&cs, sep, i);
        let piece = string_between(&cs, i, n);
        let ghost text = piece@;
        out.push(piece);
        assert(views(out@) =~= before.push(text));
        if n < cs.len() {
            proof {
                let rest = split_from(s@, sep, n + 1);
                assert(before + (seq![text] + rest) =~= views(out@) + rest);
            }
            i = n + 1;
        } else {
            assert(before + seq![text] =~= views(out@));
            return out;
        }
    }
}

pub fn split_inclusive_text(s: &str) -> (r: Vec<String>)
    ensures
        views(r@) == split_inclusive(s@),
{
    let cs = chars_of(s);
    let mut out: Vec<String> = Vec::new();
    let mut i: usize = 0;
    assert(views(out@) + split_inclusive_from(s@, 0) =~= split_inclusive(s@));
    while i < cs.len()
        invariant
            i <= cs@.len(),
            cs@ == s@,
            views(out@) + split_inclusive_from(s@, i as int) == split_inclusive(s@),
        decreases cs.len() - i,
    {
        proof {
            lemma_find_char(s@, '\n', i as int);
        }
        let ghost before = views(out@);
        let n: usize = find_char_at(&cs, '\n', i);
        let end: usize = if n < cs.len() {
            n + 1
        } else {
            n
        };
        let piece = string_between(&cs, i, end);
        let ghost text = piece@;
        out.push(piece);
        proof {
            assert(views(out@) =~= before.push(text));
            let rest = split_inclusive_from(s@, end as int);
            assert(split_inclusive_from(s@, i as int) =~= seq![text] + rest);
            assert(before + (seq![text] + rest) =~= views(out@) + rest);
        }
        i = end;
    }
    assert(views(out@) + Seq::<Seq<char>>::empty() =~= views(out@));
    out
}

pub fn strip_line_end_text(line: &str) -> (r: String)
    ensures
        r@ == strip_line_end(line@),
{
    let cs = chars_of(line);
    let n: usize = cs.len();
    if n > 0 && cs[n - 1] == '\n' {
        assert(line@.drop_last() =~= line@.subrange(0, n - 1));
        if n > 1 && cs[n - 2] == '\r' {
            assert(line@.drop_last().drop_last() =~= line@.subrange(0, n - 2));
            string_between(&cs, 0, n - 2)
        } else {
            string_between(&cs, 0, n - 1)
        }
    } else {
        line.to_owned()
    }
}

pub fn lines_text(s: &str) -> (r: Vec<String>)
    ensures
        views(r@) == lines(s@),
{
    let pieces = split_inclusive_text(s);
    let mut out: Vec<String> = Vec::new();
    let mut i: usize = 0;
    while i < pieces.len()
        invariant
            i <= pieces@.len(),
            views(pieces@) == split_inclusive(s@),
            out@.len() == i,
            forall|k: int| 0 <= k < i ==> out@[k]@ == strip_line_end(views(pieces@)[k]),
        decreases pieces.len() - i,
    {
        out.push(strip_line_end_text(pieces[i].as_str()));
        i += 1;
    }
    assert(views(out@) =~= lines(s@));
    out
}

pub fn join_text(parts: &Vec<String>, sep: &str) -> (r: String)
    ensures
        r@ == join(views(parts@), sep@),
{
    let mut out = String::new();
    let mut i: usize = 0;
    let ghost all = views(parts@);
    while i < parts.len()
        invariant
            i <= parts@.len(),
            all == views(parts@),
            out@ == join(all.take(i as int), sep@),
        decreases parts.len() - i,
    {
        proof {
            let now = all.take(i + 1);
            assert(now.drop_last() =~= all.take(i as int));
            assert(now.last() == parts@[i as int]@);
        }
        if i > 0 {
            out.append(sep);
            out.append(parts[i].as_str());
        } else {
            out = parts[i].clone();
        }
        i += 1;
    }
    assert(all.take(parts@.len() as int) =~= all);
    out
}

/// The end of the join: the last part stands at the end, after `sep`.
pub proof fn lemma_join_push(parts: Seq<Seq<char>>, last: Seq<char>, sep: Seq<char>)
    ensures
        join(parts.push(last), sep) == if parts.len() == 0 {
            last
        } else {
            join(parts, sep) + sep + last
        },
{
    assert(parts.push(last).drop_last() =~= parts);
}

/// Joining parts in front: the first part, `sep`, and the rest.
pub proof fn lemma_join_front(first: Seq<char>, rest: Seq<Seq<char>>, sep: Seq<char>)
    requires
        rest.len() > 0,
    ensures
        join(seq![first] + rest, sep) == first + sep + join(rest, sep),
    decreases rest.len(),
{
    let all = seq![first] + rest;
    if rest.len() == 1 {
        assert(all.drop_last() =~= seq![first]);
        assert(join(seq![first], sep) == first);
        assert(all.last() == rest[0]);
    } else {
        lemma_join_front(first, rest.drop_last(), sep);
        assert(all.drop_last() =~= seq![first] + rest.drop_last());
        assert(all.last() == rest.last());
        let head = join(rest.drop_last(), sep);
        assert(first + sep + (head + sep + rest.last()) =~= first + sep + head + sep
            + rest.last());
    }
}

/// Joining the pieces of a text with the separator gives the text back.
pub proof fn lemma_split_join_from(s: Seq<char>, sep: char, from: int)
    requires
        0 <= from <= s.len(),
    ensures
        split_from(s, sep, from).len() >= 1,
        join(split_from(s, sep, from), seq![sep]) == s.skip(from),
    decreases s.len() - from,
{
    lemma_find_char(s, sep, from);
    let n = find_char(s, sep, from);
    if n < s.len() {
        lemma_split_join_from(s, sep, n + 1);
        lemma_join_front(s.subrange(from, n), split_from(s, sep, n + 1), seq![sep]);
        assert(s.subrange(from, n) + seq![sep] + s.skip(n + 1) =~= s.skip(from));
    } else {
        assert(s.subrange(from, n) =~= s.skip(from));
    }
}

/// Splitting and joining again changes nothing.
pub proof fn law_split_then_join(s: Seq<char>, sep: char)
    ensures
        join(split(s, sep), seq![sep]) == s,
{
    lemma_split_join_from(s, sep, 0);
    assert(s.skip(0) =~= s);
}

// ---------------------------------------------------------------------
// ASCII case, digits
// ---------------------------------------------------------------------

/// `c` with `A` to `Z` in lower case.
pub open spec fn ascii_lower(c: char) -> char {
    if 'A' <= c <= 'Z' {
        ((c as u8) + 32) as char
    } else {
        c
    }
}

pub open spec fn lower(s: Seq<char>) -> Seq<char> {
    Seq::new(s.len(), |i: int| ascii_lower(s[i]))
}

pub fn lower_text(s: &str) -> (r: String)
    ensures
        r@ == lower(s@),
{
    let cs = chars_of(s);
    let mut out = String::new();
    let mut i: usize = 0;
    while i < cs.len()
        invariant
            i <= cs@.len(),
            cs@ == s@,
            out@ =~= lower(s@).take(i as int),
        decreases cs.len() - i,
    {
        let c = cs[i];
        if 'A' <= c && c <= 'Z' {
            out.push(((c as u8) + 32) as char);
        } else {
            out.push(c);
        }
        i += 1;
    }
    assert(lower(s@).take(s@.len() as int) =~= lower(s@));
    out
}

/// The decimal digit `d`.
pub open spec fn digit(d: nat) -> char {
    (48 + d) as u8 as char
}

/// `n` in decimal, without leading zeros.
pub open spec fn decimal(n: nat) -> Seq<char>
    decreases n,
{
    if n < 10 {
        seq![digit(n)]
    } else {
        decimal(n / 10).push(digit(n % 10))
    }
}

pub fn decimal_wide(n: u128) -> (r: String)
    ensures
        r@ == decimal(n as nat),
    decreases n,
{
    let d: u8 = (n % 10) as u8;
    let c = (48 + d) as char;
    let mut out = if n < 10 {
        String::new()
    } else {
        decimal_wide(n / 10)
    };
    out.push(c);
    assert(n < 10 ==> out@ =~= seq![digit(n as nat)]);
    out
}

pub fn decimal_text(n: u64) -> (r: String)
    ensures
        r@ == decimal(n as nat),
{
    decimal_wide(n as u128)
}

/// `n` in decimal, with a minus sign if it is negative.
pub open spec fn signed_decimal(n: int) -> Seq<char> {
    if n < 0 {
        "-"@ + decimal((-n) as nat)
    } else {
        decimal(n as nat)
    }
}

pub fn signed_decimal_text(n: i64) -> (r: String)
    ensures
        r@ == signed_decimal(n as int),
{
    if n < 0 {
        let mut out = "-".to_owned();
        out.append(decimal_wide((-(n as i128)) as u128).as_str());
        out
    } else {
        decimal_text(n as u64)
    }
}

// ---------------------------------------------------------------------
// Bytes
// ---------------------------------------------------------------------

/// How many bytes the text takes in UTF-8.
pub open spec fn byte_count(s: Seq<char>) -> nat {
    vstd::utf8::encode_utf8(s).len()
}

pub fn byte_len(s: &str) -> (r: usize)
    ensures
        r == byte_count(s@),
{
    s.as_bytes().len()
}

// ---------------------------------------------------------------------
// Laws
// ---------------------------------------------------------------------

/// Trimming takes away white space and nothing else, all of it at both
/// ends.
pub proof fn law_trim_takes_only_space(s: Seq<char>)
    ensures
        trim(s).len() > 0 ==> !is_space(trim(s)[0]) && !is_space(trim(s).last()),
        exists|a: int, b: int|
            0 <= a <= b <= s.len() && #[trigger] s.subrange(a, b) == trim(s) && (forall|i: int|
                0 <= i < a || b <= i < s.len() ==> is_space(#[trigger] s[i])),
{
    lemma_trim_start(s);
    let a = s.len() - trim_start(s).len();
    lemma_trim_end(trim_start(s));
    let b = a + trim(s).len();
    let t = trim_start(s);
    assert(s.subrange(a, b) =~= trim(s)) by {
        assert(t == s.skip(a));
        assert(trim(s) == t.take(trim(s).len() as int));
    }
    assert forall|i: int| 0 <= i < a || b <= i < s.len() implies is_space(#[trigger] s[i]) by {
        if i >= b {
            assert(t[i - a] == s[i]);
        }
    }
    if trim(s).len() > 0 {
        assert(trim(s)[0] == t[0]);
    }
}

/// Leading white space is all that `trim_start` takes.
pub proof fn lemma_trim_start(s: Seq<char>)
    ensures
        trim_start(s).len() <= s.len(),
        trim_start(s) == s.skip(s.len() - trim_start(s).len()),
        trim_start(s).len() > 0 ==> !is_space(trim_start(s)[0]),
        forall|i: int| 0 <= i < s.len() - trim_start(s).len() ==> is_space(#[trigger] s[i]),
    decreases s.len(),
{
    if s.len() > 0 && is_space(s[0]) {
        let r = s.skip(1);
        lemma_trim_start(r);
        assert(r.skip(r.len() - trim_start(r).len()) =~= s.skip(s.len() - trim_start(s).len()));
        assert forall|i: int| 0 <= i < s.len() - trim_start(s).len() implies is_space(
            #[trigger] s[i],
        ) by {
            if i > 0 {
                assert(r[i - 1] == s[i]);
            }
        }
    } else {
        assert(s.skip(0) =~= s);
    }
}

/// Trailing white space is all that `trim_end` takes.
pub proof fn lemma_trim_end(s: Seq<char>)
    ensures
        trim_end(s).len() <= s.len(),
        trim_end(s) == s.take(trim_end(s).len() as int),
        trim_end(s).len() > 0 ==> !is_space(trim_end(s).last()),
        forall|i: int| trim_end(s).len() <= i < s.len() ==> is_space(#[trigger] s[i]),
    decreases s.len(),
{
    if s.len() > 0 && is_space(s.last()) {
        let r = s.drop_last();
        lemma_trim_end(r);
        assert(r.take(trim_end(r).len() as int) =~= s.take(trim_end(s).len() as int));
        assert forall|i: int| trim_end(s).len() <= i < s.len() implies is_space(
            #[trigger] s[i],
        ) by {
            if i < s.len() - 1 {
                assert(r[i] == s[i]);
            }
        }
    } else {
        assert(s.take(s.len() as int) =~= s);
    }
}

/// Replacing a text by itself changes nothing; where it does not occur
/// nothing is replaced; and each replacement changes the length by the
/// difference of the two texts, once for every occurrence.
pub proof fn law_replacing_all(s: Seq<char>, pat: Seq<char>, new: Seq<char>, from: int)
    requires
        0 <= from <= s.len(),
        pat.len() > 0,
    ensures
        replace_from(s, pat, pat, from) == s.skip(from),
        count_from(s, pat, from) == 0 <==> find_from(s, pat, from) is None,
        find_from(s, pat, from) is None ==> replace_from(s, pat, new, from) == s.skip(from),
        replace_from(s, pat, new, from).len() + count_from(s, pat, from) * pat.len() == s.len() - from
            + count_from(s, pat, from) * new.len(),
    decreases s.len() - from,
{
    lemma_find_from(s, pat, from);
    match find_from(s, pat, from) {
        Some(p) => {
            let next = p + pat.len();
            law_replacing_all(s, pat, new, next);
            let c = count_from(s, pat, next);
            assert((1 + c) * pat.len() == pat.len() + c * pat.len()) by (nonlinear_arith);
            assert((1 + c) * new.len() == new.len() + c * new.len()) by (nonlinear_arith);
            assert(s.subrange(from, p) + pat + s.skip(next) =~= s.skip(from)) by {
                assert(s.subrange(p, next) == pat);
                assert forall|i: int| 0 <= i < pat.len() implies pat[i] == s[p + i] by {
                    assert(s.subrange(p, next)[i] == s[p + i]);
                }
            }
        },
        None => {
            assert(s.subrange(from, s.len() as int) =~= s.skip(from));
            assert(0 * pat.len() == 0) by (nonlinear_arith);
            assert(0 * new.len() == 0) by (nonlinear_arith);
        },
    }
}

/// Replacing the one occurrence of a text is the same as replacing all.
pub proof fn law_replacing_the_only_one(s: Seq<char>, pat: Seq<char>, new: Seq<char>)
    requires
        count_from(s, pat, 0) == 1,
    ensures
        replace_first(s, pat, new) == replace_from(s, pat, new, 0),
        exists|p: int|
            0 <= p <= s.len() - pat.len() && #[trigger] s.subrange(p, p + pat.len()) == pat
                && replace_first(s, pat, new) == s.take(p) + new + s.skip(p + pat.len()),
{
    lemma_find_from(s, pat, 0);
    let p = find_from(s, pat, 0)->0;
    law_replacing_all(s, pat, new, p + pat.len());
    assert(s.subrange(0, p) =~= s.take(p));
}

/// The lines with their line feeds, one after the other, are the text; a
/// line feed stands at the end of a line and nowhere else, and no line is
/// empty.
pub proof fn law_lines_make_the_text(s: Seq<char>, from: int)
    requires
        0 <= from <= s.len(),
    ensures
        flat(split_inclusive_from(s, from)) == s.skip(from),
        forall|i: int|
            0 <= i < split_inclusive_from(s, from).len() ==> (#[trigger] split_inclusive_from(
                s,
                from,
            )[i]).len() > 0,
        forall|i: int, j: int|
            0 <= i < split_inclusive_from(s, from).len() && 0 <= j < split_inclusive_from(
                s,
                from,
            )[i].len() - 1 ==> #[trigger] split_inclusive_from(s, from)[i][j] != '\n',
        forall|i: int|
            0 <= i < split_inclusive_from(s, from).len() - 1 ==> (#[trigger] split_inclusive_from(
                s,
                from,
            )[i]).last() == '\n',
    decreases s.len() - from,
{
    let all = split_inclusive_from(s, from);
    if from < s.len() {
        lemma_find_char(s, '\n', from);
        let n = find_char(s, '\n', from);
        if n < s.len() {
            law_lines_make_the_text(s, n + 1);
            let rest = split_inclusive_from(s, n + 1);
            let line = s.subrange(from, n + 1);
            assert(all =~= seq![line] + rest);
            lemma_flat_front(line, rest);
            assert(line + s.skip(n + 1) =~= s.skip(from));
            assert forall|i: int| 0 <= i < all.len() implies (#[trigger] all[i]).len() > 0 by {
                if i > 0 {
                    assert(all[i] == rest[i - 1]);
                }
            }
            assert forall|i: int, j: int|
                0 <= i < all.len() && 0 <= j < all[i].len() - 1 implies #[trigger] all[i][j]
                != '\n' by {
                if i > 0 {
                    assert(all[i] == rest[i - 1]);
                } else {
                    assert(all[i][j] == s[from + j]);
                }
            }
            assert forall|i: int| 0 <= i < all.len() - 1 implies (#[trigger] all[i]).last()
                == '\n' by {
                if i > 0 {
                    assert(all[i] == rest[i - 1]);
                } else {
                    assert(all[i].last() == s[n]);
                }
            }
        } else {
            let line = s.subrange(from, n);
            assert(all =~= seq![line]);
            lemma_flat_front(line, Seq::empty());
            assert(seq![line] + Seq::<Seq<char>>::empty() =~= seq![line]);
            assert(line + Seq::<char>::empty() =~= s.skip(from));
        }
    } else {
        assert(s.skip(from) =~= Seq::<char>::empty());
    }
}

/// The texts of a list, one directly behind the other.
pub open spec fn flat(parts: Seq<Seq<char>>) -> Seq<char>
    decreases parts.len(),
{
    if parts.len() == 0 {
        Seq::empty()
    } else {
        flat(parts.drop_last()) + parts.last()
    }
}

proof fn lemma_flat_front(first: Seq<char>, rest: Seq<Seq<char>>)
    ensures
        flat(seq![first] + rest) == first + flat(rest),
    decreases rest.len(),
{
    let all = seq![first] + rest;
    if rest.len() == 0 {
        assert(all.drop_last() =~= Seq::<Seq<char>>::empty());
        assert(all.last() == first);
        assert(flat(all.drop_last()) =~= Seq::<char>::empty());
        assert(flat(rest) =~= Seq::<char>::empty());
        assert(Seq::<char>::empty() + first =~= first + Seq::<char>::empty());
    } else {
        assert(all.last() == rest.last());
        lemma_flat_front(first, rest.drop_last());
        assert(all.drop_last() =~= seq![first] + rest.drop_last());
        assert((first + flat(rest.drop_last())) + rest.last() =~= first + (flat(rest.drop_last())
            + rest.last()));
    }
}

/// Each line of a text is a line with its end, less the line feed and the
/// carriage return before it.
pub proof fn law_lines_lose_their_ends_only(s: Seq<char>, i: int)
    requires
        0 <= i < lines(s).len(),
    ensures
        lines(s).len() == split_inclusive(s).len(),
        ({
            let whole = split_inclusive(s)[i];
            ||| whole == lines(s)[i]
            ||| whole == lines(s)[i].push('\n')
            ||| whole == lines(s)[i].push('\r').push('\n')
        }),
        !lines(s)[i].contains('\n'),
{
    law_lines_make_the_text(s, 0);
    let whole = split_inclusive(s)[i];
    let line = lines(s)[i];
    if whole.last() == '\n' {
        assert(whole =~= whole.drop_last().push('\n'));
        if whole.len() > 1 && whole.drop_last().last() == '\r' {
            assert(whole =~= line.push('\r').push('\n'));
        }
    }
    if line.contains('\n') {
        let j = choose|j: int| 0 <= j < line.len() && line[j] == '\n';
        assert(whole[j] == line[j]);
        assert(split_inclusive_from(s, 0)[i][j] == '\n');
        assert(j == whole.len() - 1);
    }
}

/// Joining keeps every part, with the separator between neighbours: two
/// lists joined one after the other are joined as one.
pub proof fn law_join_of_two(a: Seq<Seq<char>>, b: Seq<Seq<char>>, sep: Seq<char>)
    requires
        a.len() > 0,
        b.len() > 0,
    ensures
        join(a + b, sep) == join(a, sep) + sep + join(b, sep),
        a.len() == 1 ==> join(a, sep) == a[0],
    decreases b.len(),
{
    let all = a + b;
    assert(all.last() == b.last());
    if b.len() == 1 {
        assert(all.drop_last() =~= a);
    } else {
        law_join_of_two(a, b.drop_last(), sep);
        assert(all.drop_last() =~= a + b.drop_last());
        assert((join(a, sep) + sep + join(b.drop_last(), sep)) + sep + b.last() =~= join(a, sep)
            + sep + (join(b.drop_last(), sep) + sep + b.last()));
    }
}

/// The number that decimal digits stand for.
pub open spec fn digits_value(s: Seq<char>) -> int
    decreases s.len(),
{
    if s.len() == 0 {
        0
    } else {
        digits_value(s.drop_last()) * 10 + (s.last() as int - '0' as int)
    }
}

/// A number in decimal is made of digits, stands for the number, and has no
/// zero in front unless it is zero.
pub proof fn law_decimal_is_the_number(n: nat)
    ensures
        digits_value(decimal(n)) == n,
        decimal(n).len() > 0,
        forall|i: int| 0 <= i < decimal(n).len() ==> '0' <= #[trigger] decimal(n)[i] <= '9',
        n > 0 ==> decimal(n)[0] != '0',
    decreases n,
{
    let d = decimal(n);
    if n < 10 {
        assert(d.drop_last() =~= Seq::<char>::empty());
        assert(d.last() == digit(n));
        assert(digits_value(Seq::<char>::empty()) == 0);
    } else {
        law_decimal_is_the_number(n / 10);
        assert(d.drop_last() =~= decimal(n / 10));
        assert forall|i: int| 0 <= i < d.len() implies '0' <= #[trigger] d[i] <= '9' by {
            if i < d.len() - 1 {
                assert(d[i] == decimal(n / 10)[i]);
            }
        }
        assert(d[0] == decimal(n / 10)[0]);
    }
}

/// Lower case changes the letters `A` to `Z` and nothing else.
pub proof fn law_lower_changes_capitals_only(s: Seq<char>, i: int)
    requires
        0 <= i < s.len(),
    ensures
        lower(s).len() == s.len(),
        !('A' <= s[i] <= 'Z') ==> lower(s)[i] == s[i],
        'A' <= s[i] <= 'Z' ==> lower(s)[i] as int == s[i] as int + 32,
        lower(lower(s)) == lower(s),
{
    assert(lower(lower(s)) =~= lower(s));
}

/// A text is split at every separator: no piece holds one.
pub proof fn law_pieces_hold_no_separator(s: Seq<char>, sep: char, from: int, i: int)
    requires
        0 <= from <= s.len(),
        0 <= i < split_from(s, sep, from).len(),
    ensures
        !split_from(s, sep, from)[i].contains(sep),
    decreases s.len() - from,
{
    lemma_find_char(s, sep, from);
    let n = find_char(s, sep, from);
    if i == 0 {
        let piece = s.subrange(from, n);
        assert(split_from(s, sep, from)[0] == piece);
        if piece.contains(sep) {
            let k = choose|k: int| 0 <= k < piece.len() && piece[k] == sep;
            assert(s[from + k] == sep);
        }
    } else {
        law_pieces_hold_no_separator(s, sep, n + 1, i - 1);
        assert(split_from(s, sep, from)[i] == split_from(s, sep, n + 1)[i - 1]);
    }
}

} // verus!
