//! File paths as text, with `/` between components.
//!
//! Repeated separators, trailing separators and `.` components (but for a
//! leading one) do not count as components.

use vstd::prelude::*;
use vstd::string::*;

use crate::text::{chars_of, same, split, split_text, string_between, views};

verus! {

/// Whether the path starts at the root.
pub open spec fn is_absolute(p: Seq<char>) -> bool {
    p.len() > 0 && p[0] == '/'
}

/// `rel` taken from `base`; an absolute `rel` stands for itself.
pub open spec fn join_path(base: Seq<char>, rel: Seq<char>) -> Seq<char> {
    if is_absolute(rel) {
        rel
    } else if base.len() > 0 && base.last() != '/' {
        base.push('/') + rel
    } else {
        base + rel
    }
}

/// Where the components start: after the root, or after a leading `.`.
pub open spec fn body_start(p: Seq<char>) -> int {
    if p.len() > 0 && p[0] == '/' {
        1
    } else if p.len() > 0 && p[0] == '.' && (p.len() == 1 || p[1] == '/') {
        1
    } else {
        0
    }
}

/// Where the last piece of `p[start..n]` starts: after its last separator.
pub open spec fn piece_start(p: Seq<char>, start: int, n: int) -> int
    decreases n - start,
{
    if n <= start {
        start
    } else if p[n - 1] == '/' {
        n
    } else {
        piece_start(p, start, n - 1)
    }
}

/// The length of `p[..n]` without its last piece and the separator before it.
pub open spec fn before_piece(p: Seq<char>, n: int) -> int {
    let start = body_start(p);
    let c = piece_start(p, start, n);
    if c > start {
        c - 1
    } else {
        start
    }
}

pub proof fn lemma_piece_start(p: Seq<char>, start: int, n: int)
    requires
        start <= n,
    ensures
        start <= piece_start(p, start, n) <= n,
    decreases n - start,
{
    if n > start && p[n - 1] != '/' {
        lemma_piece_start(p, start, n - 1);
    }
}

/// Whether a piece between separators is no component.
pub open spec fn is_blank_piece(piece: Seq<char>) -> bool {
    piece.len() == 0 || piece == seq!['.']
}

/// The length of `p[..n]` without trailing separators and `.` pieces.
pub open spec fn trimmed_len(p: Seq<char>, n: int) -> int
    decreases n,
{
    let start = body_start(p);
    if n <= start {
        n
    } else {
        proof {
            lemma_piece_start(p, start, n);
        }
        if is_blank_piece(p.subrange(piece_start(p, start, n), n)) {
            trimmed_len(p, before_piece(p, n))
        } else {
            n
        }
    }
}

pub proof fn lemma_trimmed_len(p: Seq<char>, n: int)
    requires
        0 <= n <= p.len(),
    ensures
        0 <= trimmed_len(p, n) <= n,
    decreases n,
{
    let start = body_start(p);
    if n > start {
        lemma_piece_start(p, start, n);
        if is_blank_piece(p.subrange(piece_start(p, start, n), n)) {
            lemma_trimmed_len(p, before_piece(p, n));
        }
    }
}

/// The last component, if it is a name.
pub open spec fn file_name(p: Seq<char>) -> Option<Seq<char>> {
    let n = trimmed_len(p, p.len() as int);
    let start = body_start(p);
    if n <= start {
        None
    } else {
        let piece = p.subrange(piece_start(p, start, n), n);
        if piece == seq!['.', '.'] {
            None
        } else {
            Some(piece)
        }
    }
}

/// The path without its last component; none for the root and for the
/// empty path.
pub open spec fn parent(p: Seq<char>) -> Option<Seq<char>> {
    let n = trimmed_len(p, p.len() as int);
    if n <= body_start(p) {
        if p.len() == 0 || p[0] == '/' {
            None
        } else {
            Some(Seq::empty())
        }
    } else {
        Some(p.take(trimmed_len(p, before_piece(p, n))))
    }
}

/// Where the last `.` of `s[..n]` stands; -1 if there is none.
pub open spec fn last_dot(s: Seq<char>, n: int) -> int
    decreases n,
{
    if n <= 0 {
        -1
    } else if s[n - 1] == '.' {
        n - 1
    } else {
        last_dot(s, n - 1)
    }
}

pub proof fn lemma_last_dot(s: Seq<char>, n: int)
    requires
        0 <= n <= s.len(),
    ensures
        -1 <= last_dot(s, n) < n || n == 0 && last_dot(s, n) == -1,
    decreases n,
{
    if n > 0 && s[n - 1] != '.' {
        lemma_last_dot(s, n - 1);
    }
}

/// The part of a file name after its last dot, unless that dot comes first.
pub open spec fn name_extension(name: Seq<char>) -> Option<Seq<char>> {
    let d = last_dot(name, name.len() as int);
    if d <= 0 {
        None
    } else {
        Some(name.skip(d + 1))
    }
}

/// The part of a file name before its last dot, unless that dot comes first.
pub open spec fn name_stem(name: Seq<char>) -> Seq<char> {
    let d = last_dot(name, name.len() as int);
    if d <= 0 {
        name
    } else {
        name.take(d)
    }
}

/// The extension of the last component.
pub open spec fn extension(p: Seq<char>) -> Option<Seq<char>> {
    match file_name(p) {
        Some(name) => name_extension(name),
        None => None,
    }
}

pub fn is_absolute_text(p: &str) -> (r: bool)
    ensures
        r == is_absolute(p@),
{
    let cs = chars_of(p);
    cs.len() > 0 && cs[0] == '/'
}

pub fn join_paths(base: &str, rel: &str) -> (r: String)
    ensures
        r@ == join_path(base@, rel@),
{
    if is_absolute_text(rel) {
        return rel.to_owned();
    }
    let cs = chars_of(base);
    let mut out = base.to_owned();
    if cs.len() > 0 && cs[cs.len() - 1] != '/' {
        out.push('/');
    }
    out.append(rel);
    out
}

fn body_start_at(cs: &Vec<char>) -> (r: usize)
    ensures
        r == body_start(cs@),
        r <= cs@.len(),
{
    if cs.len() > 0 && cs[0] == '/' {
        1
    } else if cs.len() > 0 && cs[0] == '.' && (cs.len() == 1 || cs[1] == '/') {
        1
    } else {
        0
    }
}

fn piece_start_at(cs: &Vec<char>, start: usize, n: usize) -> (r: usize)
    requires
        start <= n <= cs@.len(),
    ensures
        r == piece_start(cs@, start as int, n as int),
        start <= r <= n,
{
    let mut i: usize = n;
    while i > start && cs[i - 1] != '/'
        invariant
            start <= i <= n <= cs@.len(),
            piece_start(cs@, start as int, n as int) == piece_start(cs@, start as int, i as int),
        decreases i,
    {
        i -= 1;
    }
    i
}

fn before_piece_at(cs: &Vec<char>, n: usize) -> (r: usize)
    requires
        body_start(cs@) <= n <= cs@.len(),
    ensures
        r == before_piece(cs@, n as int),
        body_start(cs@) <= r <= n,
        n > body_start(cs@) ==> r < n,
{
    let start = body_start_at(cs);
    let c = piece_start_at(cs, start, n);
    if c > start {
        c - 1
    } else {
        start
    }
}

fn trimmed_len_at(cs: &Vec<char>, n: usize) -> (r: usize)
    requires
        n <= cs@.len(),
    ensures
        r == trimmed_len(cs@, n as int),
        r <= n,
{
    let start = body_start_at(cs);
    let mut k: usize = n;
    while k > start
        invariant
            start == body_start(cs@),
            k <= n <= cs@.len(),
            trimmed_len(cs@, n as int) == trimmed_len(cs@, k as int),
        decreases k,
    {
        let c = piece_start_at(cs, start, k);
        let blank = c == k || (k - c == 1 && cs[c] == '.');
        proof {
            let piece = cs@.subrange(c as int, k as int);
            assert(blank == is_blank_piece(piece)) by {
                if k - c == 1 && cs@[c as int] == '.' {
                    assert(piece =~= seq!['.']);
                }
                if piece == seq!['.'] {
                    assert(seq!['.'].len() == 1);
                    assert(piece[0] == cs@[c as int]);
                    assert(seq!['.'][0] == '.');
                }
            }
        }
        if !blank {
            return k;
        }
        k = before_piece_at(cs, k);
    }
    k
}

pub fn file_name_text(p: &str) -> (r: Option<String>)
    ensures
        match r {
            Some(name) => file_name(p@) == Some(name@),
            None => file_name(p@) is None,
        },
{
    let cs = chars_of(p);
    let n = trimmed_len_at(&cs, cs.len());
    let start = body_start_at(&cs);
    if n <= start {
        return None;
    }
    let c = piece_start_at(&cs, start, n);
    let piece = string_between(&cs, c, n);
    proof {
        reveal_strlit("..");
        assert(".."@ =~= seq!['.', '.']);
    }
    if same(piece.as_str(), "..") {
        None
    } else {
        Some(piece)
    }
}

pub fn parent_text(p: &str) -> (r: Option<String>)
    ensures
        match r {
            Some(dir) => parent(p@) == Some(dir@),
            None => parent(p@) is None,
        },
{
    let cs = chars_of(p);
    let n = trimmed_len_at(&cs, cs.len());
    let start = body_start_at(&cs);
    if n <= start {
        if cs.len() == 0 || cs[0] == '/' {
            return None;
        }
        return Some(String::new());
    }
    let m = trimmed_len_at(&cs, before_piece_at(&cs, n));
    assert(p@.take(m as int) =~= p@.subrange(0, m as int));
    Some(string_between(&cs, 0, m))
}

fn last_dot_at(cs: &Vec<char>) -> (r: Option<usize>)
    ensures
        match r {
            Some(d) => last_dot(cs@, cs@.len() as int) == d && d < cs@.len(),
            None => last_dot(cs@, cs@.len() as int) == -1,
        },
{
    let mut i: usize = cs.len();
    while i > 0
        invariant
            i <= cs@.len(),
            last_dot(cs@, cs@.len() as int) == last_dot(cs@, i as int),
        decreases i,
    {
        if cs[i - 1] == '.' {
            return Some(i - 1);
        }
        i -= 1;
    }
    None
}

pub fn name_extension_text(name: &str) -> (r: Option<String>)
    ensures
        match r {
            Some(ext) => name_extension(name@) == Some(ext@),
            None => name_extension(name@) is None,
        },
{
    let cs = chars_of(name);
    match last_dot_at(&cs) {
        Some(d) => if d > 0 {
            assert(name@.skip(d + 1) =~= name@.subrange(d + 1, name@.len() as int));
            let total: usize = cs.len();
            Some(string_between(&cs, d + 1, total))
        } else {
            None
        },
        None => None,
    }
}

pub fn name_stem_text(name: &str) -> (r: String)
    ensures
        r@ == name_stem(name@),
{
    let cs = chars_of(name);
    match last_dot_at(&cs) {
        Some(d) => if d > 0 {
            assert(name@.take(d as int) =~= name@.subrange(0, d as int));
            string_between(&cs, 0, d)
        } else {
            name.to_owned()
        },
        None => name.to_owned(),
    }
}

pub fn extension_text(p: &str) -> (r: Option<String>)
    ensures
        match r {
            Some(ext) => extension(p@) == Some(ext@),
            None => extension(p@) is None,
        },
{
    match file_name_text(p) {
        Some(name) => name_extension_text(name.as_str()),
        None => None,
    }
}

// ---------------------------------------------------------------------
// Components
// ---------------------------------------------------------------------

/// Those of the first `n` pieces that are components.
pub open spec fn solid_pieces(pieces: Seq<Seq<char>>, n: int) -> Seq<Seq<char>>
    decreases n,
{
    if n <= 0 {
        Seq::empty()
    } else if is_blank_piece(pieces[n - 1]) {
        solid_pieces(pieces, n - 1)
    } else {
        solid_pieces(pieces, n - 1).push(pieces[n - 1])
    }
}

/// The root or a leading `.`, then the components.
pub open spec fn components(p: Seq<char>) -> Seq<Seq<char>> {
    let head = if body_start(p) == 1 {
        seq![seq![p[0]]]
    } else {
        Seq::empty()
    };
    head + solid_pieces(split(p, '/'), split(p, '/').len() as int)
}

/// Whether two paths have the same components.
pub open spec fn same_path(a: Seq<char>, b: Seq<char>) -> bool {
    components(a) == components(b)
}

/// Whether `p` is `base` or lies below it.
pub open spec fn is_within(p: Seq<char>, base: Seq<char>) -> bool {
    components(base).len() <= components(p).len() && components(p).take(
        components(base).len() as int,
    ) == components(base)
}

pub fn components_of(p: &str) -> (r: Vec<String>)
    ensures
        views(r@) == components(p@),
{
    let cs = chars_of(p);
    let mut out: Vec<String> = Vec::new();
    assert(views(out@) =~= Seq::<Seq<char>>::empty());
    if body_start_at(&cs) == 1 {
        let mut first = String::new();
        first.push(cs[0]);
        assert(first@ =~= seq![p@[0]]);
        out.push(first);
        assert(views(out@) =~= seq![seq![p@[0]]]);
    }
    let ghost head = views(out@);
    let pieces = split_text(p, '/');
    let ghost all = split(p@, '/');
    let mut i: usize = 0;
    assert(head + Seq::<Seq<char>>::empty() =~= head);
    while i < pieces.len()
        invariant
            i <= pieces@.len(),
            views(pieces@) == all,
            views(out@) == head + solid_pieces(all, i as int),
        decreases pieces.len() - i,
    {
        let piece = pieces[i].as_str();
        assert(all[i as int] == piece@);
        let ghost so_far = solid_pieces(all, i as int);
        proof {
            reveal_strlit(".");
            assert("."@ =~= seq!['.']);
        }
        if !(chars_of(piece).len() == 0 || same(piece, ".")) {
            let ghost before = views(out@);
            out.push(piece.to_owned());
            assert(views(out@) =~= before.push(piece@));
            assert(head + so_far.push(piece@) =~= (head + so_far).push(piece@));
        }
        i += 1;
    }
    assert(pieces@.len() == all.len());
    out
}

/// Whether `p` is `base` or lies below it.
pub fn within(p: &str, base: &str) -> (r: bool)
    ensures
        r == is_within(p@, base@),
{
    let x = components_of(p);
    let y = components_of(base);
    let ghost a = components(p@);
    let ghost b = components(base@);
    assert(a.len() == x@.len() && b.len() == y@.len());
    if y.len() > x.len() {
        return false;
    }
    let mut i: usize = 0;
    while i < y.len()
        invariant
            i <= y@.len() <= x@.len(),
            views(x@) == a,
            views(y@) == b,
            a == components(p@),
            b == components(base@),
            forall|k: int| 0 <= k < i ==> a[k] == b[k],
        decreases y.len() - i,
    {
        assert(a[i as int] == x@[i as int]@);
        assert(b[i as int] == y@[i as int]@);
        if !same(x[i].as_str(), y[i].as_str()) {
            assert(a.take(b.len() as int)[i as int] != b[i as int]);
            return false;
        }
        i += 1;
    }
    assert(a.take(b.len() as int) =~= b);
    true
}

/// Whether two paths have the same components.
pub fn same_paths(a: &str, b: &str) -> (r: bool)
    ensures
        r == same_path(a@, b@),
{
    let inside = within(a, b) && within(b, a);
    proof {
        let x = components(a@);
        let y = components(b@);
        assert(x.take(x.len() as int) =~= x);
        assert(y.take(y.len() as int) =~= y);
    }
    inside
}

// ---------------------------------------------------------------------
// Laws
// ---------------------------------------------------------------------

/// A name as it stands between separators: not empty, and neither `.` nor
/// `..`.
pub open spec fn is_plain_name(name: Seq<char>) -> bool {
    &&& name.len() > 0
    &&& !name.contains('/')
    &&& name != seq!['.']
    &&& name != seq!['.', '.']
}

proof fn lemma_piece_of_name(p: Seq<char>, d: int, n: int)
    requires
        0 <= d < n <= p.len(),
        d == 0 || p[d - 1] == '/',
        body_start(p) <= d,
        forall|k: int| d <= k < n ==> p[k] != '/',
    ensures
        piece_start(p, body_start(p), n) == d,
{
    lemma_piece_back(p, body_start(p), d, n);
}

proof fn lemma_piece_back(p: Seq<char>, start: int, d: int, n: int)
    requires
        0 <= start <= d <= n <= p.len(),
        d == 0 || p[d - 1] == '/',
        forall|k: int| d <= k < n ==> p[k] != '/',
    ensures
        piece_start(p, start, n) == d,
    decreases n - d,
{
    if n > d {
        lemma_piece_back(p, start, d, n - 1);
    }
}

proof fn lemma_body_start(d: Seq<char>, name: Seq<char>)
    requires
        is_plain_name(name),
        d.len() == 0 || d.last() == '/',
    ensures
        0 <= body_start(d + name) <= d.len(),
{
    let p = d + name;
    if d.len() == 0 {
        assert(p =~= name);
        assert(name[0] != '/') by {
            assert(name.contains(name[0]));
        }
        if name[0] == '.' {
            if name.len() == 1 {
                assert(name =~= seq!['.']);
            } else {
                assert(name.contains(name[1]));
            }
        }
    }
}

proof fn lemma_plain_piece(d: Seq<char>, name: Seq<char>, rest: Seq<char>)
    requires
        is_plain_name(name),
        d.len() == 0 || d.last() == '/',
        rest.len() == 0 || rest[0] == '/',
    ensures
        ({
            let p = d + name + rest;
            let n = (d.len() + name.len()) as int;
            &&& 0 <= body_start(p) <= d.len()
            &&& piece_start(p, body_start(p), n) == d.len()
            &&& p.subrange(d.len() as int, n) == name
            &&& trimmed_len(p, n) == n
        }),
{
    let p = d + name + rest;
    let n = (d.len() + name.len()) as int;
    assert(name[0] != '/') by {
        assert(name.contains(name[0]));
    }
    if d.len() == 0 {
        assert(p[0] == name[0]);
        if name[0] == '.' {
            if name.len() == 1 {
                assert(name =~= seq!['.']);
            } else {
                assert(p[1] == name[1]);
                assert(name.contains(name[1]));
            }
        }
    }
    assert forall|k: int| d.len() <= k < n implies p[k] != '/' by {
        assert(p[k] == name[k - d.len()]);
        assert(name.contains(name[k - d.len()]));
    }
    if d.len() > 0 {
        assert(p[d.len() - 1] == '/');
    }
    lemma_piece_of_name(p, d.len() as int, n);
    assert(p.subrange(d.len() as int, n) =~= name);
}

/// The last component of a path is the name that was put there, and the
/// path without it is what stood in front.
pub proof fn law_last_component(d: Seq<char>, a: Seq<char>, b: Seq<char>)
    requires
        d.len() == 0 || d.last() == '/',
        is_plain_name(a),
        is_plain_name(b),
    ensures
        file_name(d + a) == Some(a),
        file_name(join_path(d + a, b)) == Some(b),
        parent(join_path(d + a, b)) == Some(d + a),
{
    lemma_plain_piece(d, a, Seq::empty());
    assert(d + a + Seq::<char>::empty() =~= d + a);
    let base = d + a;
    let p = join_path(base, b);
    assert(a.contains(a.last()));
    assert(b.contains(b[0]));
    assert(base.last() == a.last());
    let rest = seq!['/'] + b;
    assert(p =~= d + a + rest);
    lemma_plain_piece(d, a, rest);
    let d2 = base.push('/');
    lemma_plain_piece(d2, b, Seq::empty());
    assert(d2 + b + Seq::<char>::empty() =~= p);
    assert(p.take(base.len() as int) =~= base);
}

/// A relative path is taken from the base and stays behind it; an absolute
/// one stands for itself.
pub proof fn law_joined_path(base: Seq<char>, rel: Seq<char>)
    ensures
        is_absolute(rel) ==> join_path(base, rel) == rel,
        !is_absolute(rel) ==> base.is_prefix_of(join_path(base, rel)),
        !is_absolute(rel) && base.len() > 0 && base.last() != '/' ==> join_path(base, rel) == base
            + seq!['/'] + rel,
        !is_absolute(rel) && (base.len() == 0 || base.last() == '/') ==> join_path(base, rel)
            == base + rel,
        is_absolute(base) ==> is_absolute(join_path(base, rel)),
{
    if !is_absolute(rel) {
        assert(base =~= join_path(base, rel).take(base.len() as int));
        assert(base.push('/') + rel =~= base + seq!['/'] + rel);
    }
}

proof fn lemma_last_dot_is_last(s: Seq<char>, n: int)
    requires
        0 <= n <= s.len(),
    ensures
        -1 <= last_dot(s, n) < n,
        last_dot(s, n) >= 0 ==> s[last_dot(s, n)] == '.',
        forall|k: int| last_dot(s, n) < k < n ==> s[k] != '.',
    decreases n,
{
    if n > 0 && s[n - 1] != '.' {
        lemma_last_dot_is_last(s, n - 1);
    }
}

/// A name is its stem, a dot and its extension, which holds no dot; one
/// whose only dot comes first, or that has none, is all stem.
pub proof fn law_name_is_stem_and_extension(name: Seq<char>)
    ensures
        name_extension(name) matches Some(ext) ==> name_stem(name) + seq!['.'] + ext == name
            && !ext.contains('.') && name_stem(name).len() > 0,
        name_extension(name) is None ==> name_stem(name) == name && (forall|k: int|
            0 < k < name.len() ==> name[k] != '.'),
{
    let d = last_dot(name, name.len() as int);
    lemma_last_dot_is_last(name, name.len() as int);
    if d > 0 {
        let ext = name.skip(d + 1);
        assert(name.take(d) + seq!['.'] + ext =~= name);
        if ext.contains('.') {
            let k = choose|k: int| 0 <= k < ext.len() && ext[k] == '.';
            assert(name[d + 1 + k] == '.');
        }
    }
}

proof fn lemma_find_char_append(s: Seq<char>, t: Seq<char>, c: char, from: int)
    requires
        0 <= from <= s.len(),
        t.len() > 0,
        t[0] == c,
    ensures
        crate::text::find_char(s + t, c, from) == crate::text::find_char(s, c, from),
    decreases s.len() - from,
{
    if from < s.len() {
        assert((s + t)[from] == s[from]);
        if s[from] != c {
            lemma_find_char_append(s, t, c, from + 1);
        }
    } else {
        assert((s + t)[from] == c);
    }
}

proof fn lemma_no_char(s: Seq<char>, c: char, from: int)
    requires
        0 <= from <= s.len(),
        forall|k: int| from <= k < s.len() ==> s[k] != c,
    ensures
        crate::text::find_char(s, c, from) == s.len(),
    decreases s.len() - from,
{
    if from < s.len() {
        lemma_no_char(s, c, from + 1);
    }
}

proof fn lemma_split_append(base: Seq<char>, name: Seq<char>, from: int)
    requires
        0 <= from <= base.len(),
        !name.contains('/'),
    ensures
        crate::text::split_from(base + seq!['/'] + name, '/', from) == crate::text::split_from(
            base,
            '/',
            from,
        ).push(name),
    decreases base.len() - from,
{
    let p = base + seq!['/'] + name;
    let t = seq!['/'] + name;
    assert(p =~= base + t);
    lemma_find_char_append(base, t, '/', from);
    crate::text::lemma_find_char(base, '/', from);
    let n = crate::text::find_char(base, '/', from);
    if n < base.len() {
        lemma_split_append(base, name, n + 1);
        assert(p.subrange(from, n) =~= base.subrange(from, n));
        assert(crate::text::split_from(p, '/', from) =~= crate::text::split_from(
            base,
            '/',
            from,
        ).push(name));
    } else {
        let q = n + 1;
        assert forall|k: int| q <= k < p.len() implies p[k] != '/' by {
            assert(p[k] == name[k - q]);
            assert(name.contains(name[k - q]));
        }
        lemma_no_char(p, '/', q);
        assert(p.subrange(from, n) =~= base.subrange(from, n));
        assert(p.subrange(q, p.len() as int) =~= name);
        assert(crate::text::split_from(p, '/', q) =~= seq![name]);
        assert(crate::text::split_from(p, '/', from) =~= seq![base.subrange(from, n), name]);
        assert(crate::text::split_from(base, '/', from) =~= seq![base.subrange(from, n)]);
    }
}

proof fn lemma_solid_prefix(a: Seq<Seq<char>>, b: Seq<Seq<char>>, n: int)
    requires
        0 <= n <= a.len(),
        n <= b.len(),
        forall|i: int| 0 <= i < n ==> a[i] == b[i],
    ensures
        solid_pieces(a, n) == solid_pieces(b, n),
    decreases n,
{
    if n > 0 {
        lemma_solid_prefix(a, b, n - 1);
    }
}

/// A name below a directory is one component more, and lies within the
/// directory.
pub proof fn law_names_are_components(base: Seq<char>, name: Seq<char>)
    requires
        base.len() > 0,
        base.last() != '/',
        name.len() > 0,
        !name.contains('/'),
        name != seq!['.'],
    ensures
        components(join_path(base, name)) == components(base).push(name),
        is_within(join_path(base, name), base),
        !is_within(base, join_path(base, name)),
{
    let p = join_path(base, name);
    assert(name.contains(name[0]));
    assert(p =~= base + seq!['/'] + name);
    lemma_split_append(base, name, 0);
    let a = split(base, '/');
    let b = split(p, '/');
    assert(b == a.push(name));
    lemma_solid_prefix(a, b, a.len() as int);
    assert(body_start(p) == body_start(base));
    assert(p[0] == base[0]);
    assert(components(p) =~= components(base).push(name));
    assert(components(p).take(components(base).len() as int) =~= components(base));
}

/// What lies within a directory has every component of it, in order; so
/// what lies within something in it lies within it.
pub proof fn law_within_is_a_matter_of_components(
    p: Seq<char>,
    q: Seq<char>,
    base: Seq<char>,
    i: int,
)
    ensures
        is_within(p, base) && 0 <= i < components(base).len() ==> i < components(p).len()
            && components(p)[i] == components(base)[i],
        is_within(base, base),
        is_within(p, q) && is_within(q, base) ==> is_within(p, base),
        same_path(p, q) ==> is_within(p, q) && is_within(q, p),
        is_within(p, q) && is_within(q, p) ==> same_path(p, q),
{
    let c = components(base);
    assert(c.take(c.len() as int) =~= c);
    if is_within(p, base) && 0 <= i < c.len() {
        assert(components(p).take(c.len() as int)[i] == c[i]);
    }
    if is_within(p, q) && is_within(q, base) {
        assert(components(p).take(c.len() as int) =~= components(p).take(
            components(q).len() as int,
        ).take(c.len() as int));
    }
    let a = components(p);
    let b = components(q);
    assert(a.take(a.len() as int) =~= a);
    assert(b.take(b.len() as int) =~= b);
}

proof fn lemma_one_piece(name: Seq<char>)
    requires
        !name.contains('/'),
    ensures
        split(name, '/') == seq![name],
{
    crate::text::lemma_find_char(name, '/', 0);
    let n = crate::text::find_char(name, '/', 0);
    if n < name.len() {
        assert(name[n] == '/');
        assert(name.contains(name[n]));
    }
    assert(name.subrange(0, name.len() as int) =~= name);
    assert(split(name, '/') =~= seq![name]);
}

/// The root and a leading `.` are components of their own in front of the
/// names, and an empty piece or another `.` is none.
pub proof fn law_root_and_dots(name: Seq<char>, base: Seq<char>)
    requires
        is_plain_name(name),
        base.len() > 0,
    ensures
        components(name) == seq![name],
        components(seq!['/'] + name) == seq![seq!['/'], name],
        components(seq!['.', '/'] + name) == seq![seq!['.'], name],
        same_path(base + seq!['/', '/'] + name, base + seq!['/'] + name),
        same_path(base + seq!['/', '.', '/'] + name, base + seq!['/'] + name),
{
    assert(name.contains(name[0]));
    let none = Seq::<char>::empty();
    let dot = seq!['.'];
    lemma_one_piece(name);
    lemma_one_piece(none);
    lemma_one_piece(dot);
    reveal_with_fuel(solid_pieces, 3);
    if name[0] == '.' {
        if name.len() == 1 {
            assert(name =~= seq!['.']);
        } else {
            assert(name.contains(name[1]));
        }
    }
    assert(solid_pieces(seq![name], 1) =~= seq![name]);
    assert(components(name) =~= seq![name]);
    let rooted = seq!['/'] + name;
    lemma_split_append(none, name, 0);
    assert(none + seq!['/'] + name =~= rooted);
    assert(split(rooted, '/') == seq![none].push(name));
    assert(solid_pieces(seq![none].push(name), 2) =~= seq![name]);
    assert(components(rooted) =~= seq![seq!['/'], name]);
    let dotted = seq!['.', '/'] + name;
    lemma_split_append(dot, name, 0);
    assert(dot + seq!['/'] + name =~= dotted);
    assert(split(dotted, '/') == seq![dot].push(name));
    assert(solid_pieces(seq![dot].push(name), 2) =~= seq![name]);
    assert(components(dotted) =~= seq![seq!['.'], name]);
    let plain = base + seq!['/'] + name;
    lemma_split_append(base, name, 0);
    let a = split(base, '/');
    lemma_blank_between(base, none, name);
    lemma_blank_between(base, dot, name);
    assert(base + seq!['/'] + none + seq!['/'] + name =~= base + seq!['/', '/'] + name);
    assert(base + seq!['/'] + dot + seq!['/'] + name =~= base + seq!['/', '.', '/'] + name);
}

proof fn lemma_blank_between(base: Seq<char>, blank: Seq<char>, name: Seq<char>)
    requires
        base.len() > 0,
        is_blank_piece(blank),
        !blank.contains('/'),
        !name.contains('/'),
    ensures
        components(base + seq!['/'] + blank + seq!['/'] + name) == components(
            base + seq!['/'] + name,
        ),
{
    let with = base + seq!['/'] + blank;
    let p = with + seq!['/'] + name;
    let q = base + seq!['/'] + name;
    lemma_split_append(base, name, 0);
    lemma_split_append(base, blank, 0);
    lemma_split_append(with, name, 0);
    let a = split(base, '/');
    let n = a.len() as int;
    let b = a.push(blank).push(name);
    let c = a.push(name);
    assert(split(p, '/') == b);
    assert(split(q, '/') == c);
    lemma_solid_prefix(a, b, n);
    lemma_solid_prefix(a, c, n);
    assert(solid_pieces(b, n + 1) == solid_pieces(b, n));
    assert(p[0] == q[0]);
    assert(p[1] == q[1]);
    assert(body_start(p) == body_start(q));
}

/// The root and a step up name no file.
pub proof fn law_root_is_no_file(d: Seq<char>)
    requires
        d.len() == 0 || d.last() == '/',
    ensures
        file_name(seq!['/']) is None,
        parent(seq!['/']) is None,
        parent(Seq::<char>::empty()) is None,
        file_name(d + seq!['.', '.']) is None,
{
    let root = seq!['/'];
    lemma_trimmed_len(root, 1);
    let p = d + seq!['.', '.'];
    let n = p.len() as int;
    assert(p[n - 1] == '.' && p[n - 2] == '.');
    if d.len() > 0 {
        assert(p[n - 3] == '/');
    }
    lemma_piece_of_name(p, d.len() as int, n);
    assert(p.subrange(d.len() as int, n) =~= seq!['.', '.']);
}

/// A bare name lies in no directory that the path names.
pub proof fn law_bare_name_has_no_directory(name: Seq<char>)
    requires
        is_plain_name(name),
    ensures
        parent(name) == Some(Seq::<char>::empty()),
        file_name(name) == Some(name),
{
    let none = Seq::<char>::empty();
    lemma_plain_piece(none, name, none);
    assert(none + name + none =~= name);
    assert(name.take(0) =~= none);
}

/// The extension of a path is that of its last name.
pub proof fn law_extension_of_the_last_name(d: Seq<char>, name: Seq<char>)
    requires
        d.len() == 0 || d.last() == '/',
        is_plain_name(name),
    ensures
        extension(d + name) == name_extension(name),
{
    law_last_component(d, name, name);
}

} // verus!
