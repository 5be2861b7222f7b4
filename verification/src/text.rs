//! Predicates on text, taken as its UTF-8 bytes.
//!
//! Rule ids, file paths and node texts are `String`s. Where the engine has to
//! look inside one (to order two of them, to find a marker at the head of a
//! comment, to judge the casing of an identifier) it works on the bytes of the
//! UTF-8 encoding, and the specifications here are stated over those bytes.

use vstd::prelude::*;
use vstd::utf8::*;

verus! {

/// The outcome of a three-way comparison.
#[derive(Clone, Copy, PartialEq, Eq, Debug, Structural)]
pub enum Order {
    Less,
    Equal,
    Greater,
}

/// The UTF-8 bytes of a text.
pub open spec fn utf8(s: Seq<char>) -> Seq<u8> {
    encode_utf8(s)
}

/// Strict lexicographic order on byte strings: a proper prefix comes first,
/// otherwise the first byte that differs decides.
pub open spec fn lex_lt(a: Seq<u8>, b: Seq<u8>) -> bool
    decreases a.len(),
{
    if b.len() == 0 {
        false
    } else if a.len() == 0 {
        true
    } else if a[0] == b[0] {
        lex_lt(a.skip(1), b.skip(1))
    } else {
        a[0] < b[0]
    }
}

/// Strict order on texts: the lexicographic order of their UTF-8 bytes.
pub open spec fn text_lt(a: Seq<char>, b: Seq<char>) -> bool {
    lex_lt(utf8(a), utf8(b))
}

pub proof fn lemma_lex_lt_irreflexive(a: Seq<u8>)
    ensures
        !lex_lt(a, a),
    decreases a.len(),
{
    if a.len() > 0 {
        lemma_lex_lt_irreflexive(a.skip(1));
    }
}

pub proof fn lemma_lex_lt_transitive(a: Seq<u8>, b: Seq<u8>, c: Seq<u8>)
    requires
        lex_lt(a, b),
        lex_lt(b, c),
    ensures
        lex_lt(a, c),
    decreases a.len(),
{
    if a.len() > 0 && a[0] == b[0] && b[0] == c[0] {
        lemma_lex_lt_transitive(a.skip(1), b.skip(1), c.skip(1));
    }
}

pub proof fn lemma_lex_lt_total(a: Seq<u8>, b: Seq<u8>)
    ensures
        lex_lt(a, b) || a == b || lex_lt(b, a),
    decreases a.len(),
{
    if a.len() > 0 && b.len() > 0 && a[0] == b[0] {
        lemma_lex_lt_total(a.skip(1), b.skip(1));
        if a.skip(1) == b.skip(1) {
            assert(a =~= seq![a[0]] + a.skip(1));
            assert(b =~= seq![b[0]] + b.skip(1));
        }
    } else if a.len() == 0 && b.len() == 0 {
        assert(a =~= b);
    }
}

/// Two texts with the same UTF-8 bytes are the same text.
pub proof fn lemma_utf8_injective(a: Seq<char>, b: Seq<char>)
    requires
        utf8(a) == utf8(b),
    ensures
        a == b,
{
    encode_utf8_decode_utf8(a);
    encode_utf8_decode_utf8(b);
}

/// `text_lt` is a strict total order on texts.
pub proof fn lemma_text_lt_strict_total(a: Seq<char>, b: Seq<char>, c: Seq<char>)
    ensures
        !text_lt(a, a),
        text_lt(a, b) && text_lt(b, c) ==> text_lt(a, c),
        text_lt(a, b) || a == b || text_lt(b, a),
{
    lemma_lex_lt_irreflexive(utf8(a));
    if text_lt(a, b) && text_lt(b, c) {
        lemma_lex_lt_transitive(utf8(a), utf8(b), utf8(c));
    }
    lemma_lex_lt_total(utf8(a), utf8(b));
    if utf8(a) == utf8(b) {
        lemma_utf8_injective(a, b);
    }
}

/// Compares two byte strings lexicographically.
pub fn compare_bytes(a: &[u8], b: &[u8]) -> (r: Order)
    ensures
        r == Order::Less <==> lex_lt(a@, b@),
        r == Order::Equal <==> a@ == b@,
        r == Order::Greater <==> lex_lt(b@, a@),
{
    let mut i: usize = 0;
    proof {
        assert(a@.skip(0) =~= a@);
        assert(b@.skip(0) =~= b@);
    }
    while i < a.len() && i < b.len()
        invariant
            i <= a@.len(),
            i <= b@.len(),
            lex_lt(a@, b@) == lex_lt(a@.skip(i as int), b@.skip(i as int)),
            lex_lt(b@, a@) == lex_lt(b@.skip(i as int), a@.skip(i as int)),
            (a@ == b@) == (a@.skip(i as int) == b@.skip(i as int)),
        decreases a@.len() - i,
    {
        let x: u8 = a[i];
        let y: u8 = b[i];
        proof {
            let sa = a@.skip(i as int);
            let sb = b@.skip(i as int);
            assert(sa[0] == x && sb[0] == y);
            assert(sa.skip(1) =~= a@.skip(i + 1));
            assert(sb.skip(1) =~= b@.skip(i + 1));
            if x == y && sa.skip(1) == sb.skip(1) {
                assert(sa =~= seq![x] + sa.skip(1));
                assert(sb =~= seq![y] + sb.skip(1));
            }
        }
        if x < y {
            return Order::Less;
        }
        if y < x {
            return Order::Greater;
        }
        i = i + 1;
    }
    proof {
        let sa = a@.skip(i as int);
        let sb = b@.skip(i as int);
        if sa.len() == 0 && sb.len() == 0 {
            assert(sa =~= sb);
        }
    }
    if i < b.len() {
        Order::Less
    } else if i < a.len() {
        Order::Greater
    } else {
        Order::Equal
    }
}

/// Compares two texts by their UTF-8 bytes.
pub fn compare_text(a: &String, b: &String) -> (r: Order)
    ensures
        r == Order::Less <==> text_lt(a@, b@),
        r == Order::Equal <==> a@ == b@,
        r == Order::Greater <==> text_lt(b@, a@),
{
    let r = compare_bytes(a.as_str().as_bytes(), b.as_str().as_bytes());
    proof {
        if utf8(a@) == utf8(b@) {
            lemma_utf8_injective(a@, b@);
        }
    }
    r
}

/// The bytes that may stand between the start of a comment token and what the
/// comment says: the punctuation of comment markers (`/`, `*`, `!`) and white
/// space.
pub open spec fn is_comment_lead(b: u8) -> bool {
    b == 0x2f || b == 0x2a || b == 0x21 || b == 0x20 || b == 0x09 || b == 0x0a || b == 0x0d
}

/// A comment's text without its leading marker punctuation and white space.
pub open spec fn trim_comment_lead(s: Seq<u8>) -> Seq<u8>
    decreases s.len(),
{
    if s.len() > 0 && is_comment_lead(s[0]) {
        trim_comment_lead(s.skip(1))
    } else {
        s
    }
}

/// Whether a comment, once its lead is trimmed, begins with `marker`. The
/// comparison is exact: case matters.
pub open spec fn begins_with_marker(comment: Seq<u8>, marker: Seq<u8>) -> bool {
    marker.is_prefix_of(trim_comment_lead(comment))
}

fn comment_lead(b: u8) -> (r: bool)
    ensures
        r == is_comment_lead(b),
{
    b == 0x2f || b == 0x2a || b == 0x21 || b == 0x20 || b == 0x09 || b == 0x0a || b == 0x0d
}

/// Decides `begins_with_marker` on the bytes of a comment and of a marker.
pub fn starts_with_marker(comment: &[u8], marker: &[u8]) -> (r: bool)
    ensures
        r == begins_with_marker(comment@, marker@),
{
    let mut start: usize = 0;
    proof {
        assert(comment@.skip(0) =~= comment@);
    }
    while start < comment.len() && comment_lead(comment[start])
        invariant
            start <= comment@.len(),
            trim_comment_lead(comment@) == trim_comment_lead(comment@.skip(start as int)),
        decreases comment@.len() - start,
    {
        proof {
            let s = comment@.skip(start as int);
            assert(s[0] == comment@[start as int]);
            assert(s.skip(1) =~= comment@.skip(start + 1));
        }
        start = start + 1;
    }
    let ghost rest = comment@.skip(start as int);
    proof {
        if rest.len() > 0 {
            assert(rest[0] == comment@[start as int]);
        }
        assert(trim_comment_lead(comment@) == rest);
    }
    if marker.len() > comment.len() - start {
        return false;
    }
    let mut i: usize = 0;
    while i < marker.len()
        invariant
            start + marker@.len() <= comment@.len() <= usize::MAX,
            i <= marker@.len(),
            rest == comment@.skip(start as int),
            trim_comment_lead(comment@) == rest,
            forall|j: int| 0 <= j < i ==> marker@[j] == rest[j],
        decreases marker@.len() - i,
    {
        if marker[i] != comment[start + i] {
            proof {
                assert(rest[i as int] == comment@[start + i]);
                assert(rest.subrange(0, marker@.len() as int)[i as int] == rest[i as int]);
            }
            return false;
        }
        proof {
            assert(rest[i as int] == comment@[start + i]);
        }
        i = i + 1;
    }
    proof {
        assert(marker@ =~= rest.subrange(0, marker@.len() as int));
    }
    true
}

/// ASCII lower-case letter.
pub open spec fn is_ascii_lower(b: u8) -> bool {
    0x61 <= b <= 0x7a
}

/// ASCII upper-case letter.
pub open spec fn is_ascii_upper(b: u8) -> bool {
    0x41 <= b <= 0x5a
}

/// A lower-case letter at `i` directly followed by an upper-case one.
pub open spec fn hump_at(name: Seq<u8>, i: int) -> bool {
    0 <= i && i + 1 < name.len() && is_ascii_lower(name[i]) && is_ascii_upper(name[i + 1])
}

/// Medial-capital casing: somewhere in the name a lower-case letter is
/// directly followed by an upper-case one, as in `myValue`.
pub open spec fn has_medial_capital(name: Seq<u8>) -> bool {
    exists|i: int| hump_at(name, i)
}

/// Decides `has_medial_capital` on the bytes of a name.
pub fn medial_capital(name: &[u8]) -> (r: bool)
    ensures
        r == has_medial_capital(name@),
{
    if name.len() < 2 {
        assert(forall|i: int| !hump_at(name@, i));
        return false;
    }
    let mut i: usize = 0;
    while i + 1 < name.len()
        invariant
            i + 1 <= name@.len() <= usize::MAX,
            forall|j: int| 0 <= j < i ==> !hump_at(name@, j),
        decreases name@.len() - i,
    {
        let x: u8 = name[i];
        let y: u8 = name[i + 1];
        if 0x61 <= x && x <= 0x7a && 0x41 <= y && y <= 0x5a {
            assert(hump_at(name@, i as int));
            return true;
        }
        i = i + 1;
    }
    assert(forall|j: int| !hump_at(name@, j));
    false
}

} // verus!
