//! Looking at file contents: is it text, and which.

use vstd::prelude::*;
use vstd::utf8::*;

verus! {

/// Whether a byte is plain text: a tab, a line end or printable ASCII.
pub open spec fn is_printable(b: u8) -> bool {
    b == 0x09 || b == 0x0A || b == 0x0D || 0x20 <= b <= 0x7E
}

/// How many bytes of `s` are not plain text.
pub open spec fn unprintable(s: Seq<u8>) -> nat
    decreases s.len(),
{
    if s.len() == 0 {
        0
    } else {
        unprintable(s.drop_last()) + if is_printable(s.last()) {
            0nat
        } else {
            1nat
        }
    }
}

/// How many bytes are looked at.
pub const SAMPLE_BYTES: usize = 1000;

/// The bytes that are looked at.
pub open spec fn sample(bytes: Seq<u8>) -> Seq<u8> {
    if bytes.len() > SAMPLE_BYTES {
        bytes.take(SAMPLE_BYTES as int)
    } else {
        bytes
    }
}

/// More than one byte in twenty of the sample is not plain text.
pub open spec fn is_binary(bytes: Seq<u8>) -> bool {
    unprintable(sample(bytes)) * 20 > sample(bytes).len()
}

pub fn looks_binary(bytes: &[u8]) -> (r: bool)
    ensures
        r == is_binary(bytes@),
{
    let n: usize = if bytes.len() > SAMPLE_BYTES {
        SAMPLE_BYTES
    } else {
        bytes.len()
    };
    let ghost all = sample(bytes@);
    assert(all =~= bytes@.take(n as int));
    let mut count: usize = 0;
    let mut i: usize = 0;
    while i < n
        invariant
            i <= n <= bytes@.len(),
            n <= 1000,
            count <= i,
            all == bytes@.take(n as int),
            count == unprintable(all.take(i as int)),
        decreases n - i,
    {
        let b: u8 = bytes[i];
        assert(all.take(i + 1).drop_last() =~= all.take(i as int));
        if !(b == 0x09 || b == 0x0A || b == 0x0D || (0x20 <= b && b <= 0x7E)) {
            count += 1;
        }
        i += 1;
    }
    assert(all.take(n as int) =~= all);
    count * 20 > n
}

/// The text of bytes in which every malformed part is replaced.
pub uninterp spec fn lossy_text(bytes: Seq<u8>) -> Seq<char>;

/// `String::from_utf8_lossy`: what is valid UTF-8 comes out as it is.
#[verifier::external_body]
pub(crate) fn decode_lossy(bytes: &[u8]) -> (r: String)
    ensures
        r@ == lossy_text(bytes@),
        valid_utf8(bytes@) ==> r@ == decode_utf8(bytes@),
{
    String::from_utf8_lossy(bytes).into_owned()
}

proof fn lemma_unprintable(s: Seq<u8>, n: int)
    requires
        0 <= n <= s.len(),
        forall|i: int| 0 <= i < s.len() ==> is_printable(#[trigger] s[i]),
    ensures
        unprintable(s.take(n)) == 0,
    decreases n,
{
    if n > 0 {
        lemma_unprintable(s, n - 1);
        assert(s.take(n).drop_last() =~= s.take(n - 1));
        assert(s.take(n).last() == s[n - 1]);
    }
}

proof fn lemma_all_unprintable(s: Seq<u8>)
    requires
        forall|i: int| 0 <= i < s.len() ==> !is_printable(#[trigger] s[i]),
    ensures
        unprintable(s) == s.len(),
    decreases s.len(),
{
    if s.len() > 0 {
        let t = s.drop_last();
        assert forall|i: int| 0 <= i < t.len() implies !is_printable(#[trigger] t[i]) by {
            assert(t[i] == s[i]);
        }
        lemma_all_unprintable(t);
    }
}

/// Plain ASCII text is never taken for binary, bytes that are none of it
/// are, and nothing behind the first thousand bytes counts.
pub proof fn law_plain_text_is_not_binary(bytes: Seq<u8>)
    ensures
        (forall|i: int|
            0 <= i < bytes.len() ==> 0x20 <= #[trigger] bytes[i] <= 0x7e || bytes[i] == 0x0a
                || bytes[i] == 0x0d || bytes[i] == 0x09) ==> !is_binary(bytes),
        bytes.len() > 0 && (forall|i: int|
            0 <= i < bytes.len() ==> (#[trigger] bytes[i] < 0x09 || bytes[i] > 0x7e)) ==> is_binary(
            bytes,
        ),
        bytes.len() >= 1000 ==> is_binary(bytes) == is_binary(bytes.take(1000)),
        !is_binary(Seq::empty()),
{
    let s = sample(bytes);
    assert(s =~= bytes.take(s.len() as int));
    if forall|i: int|
        0 <= i < bytes.len() ==> 0x20 <= #[trigger] bytes[i] <= 0x7e || bytes[i] == 0x0a || bytes[i]
            == 0x0d || bytes[i] == 0x09 {
        lemma_unprintable(bytes, s.len() as int);
    }
    if bytes.len() > 0 && forall|i: int|
        0 <= i < bytes.len() ==> (#[trigger] bytes[i] < 0x09 || bytes[i] > 0x7e) {
        assert forall|i: int| 0 <= i < s.len() implies !is_printable(#[trigger] s[i]) by {
            assert(s[i] == bytes[i]);
        }
        lemma_all_unprintable(s);
    }
    if bytes.len() >= 1000 {
        assert(sample(bytes.take(1000)) =~= sample(bytes));
    }
}

/// One byte in twenty may be other than plain text, and not more.
pub proof fn law_binary_counts_strange_bytes(a: Seq<u8>, b: u8)
    requires
        a.len() < 1000,
    ensures
        unprintable(a.push(b)) == unprintable(a) + (if 0x20 <= b <= 0x7e || b == 0x0a || b == 0x0d
            || b == 0x09 {
            0nat
        } else {
            1nat
        }),
        is_binary(a) <==> unprintable(a) * 20 > a.len(),
{
    assert(a.push(b).drop_last() =~= a);
}

} // verus!
