//! The natural order of strings: lexicographic order of their UTF-8 bytes.
use vstd::prelude::*;

verus! {

/// Whether byte sequence `a` comes strictly before `b` lexicographically
/// (a proper prefix comes first).
pub open spec fn lex_lt(a: Seq<u8>, b: Seq<u8>) -> bool
    decreases a.len(),
{
    if b.len() == 0 {
        false
    } else if a.len() == 0 {
        true
    } else if a[0] != b[0] {
        a[0] < b[0]
    } else {
        lex_lt(a.drop_first(), b.drop_first())
    }
}

/// The UTF-8 bytes of a character sequence.
pub open spec fn utf8_bytes(s: Seq<char>) -> Seq<u8> {
    vstd::utf8::encode_utf8(s)
}

/// Whether string `a` comes strictly before string `b`.
pub open spec fn str_lt(a: Seq<char>, b: Seq<char>) -> bool {
    lex_lt(utf8_bytes(a), utf8_bytes(b))
}

/// No sequence comes before itself.
pub proof fn lemma_lex_irreflexive(a: Seq<u8>)
    ensures
        !lex_lt(a, a),
    decreases a.len(),
{
    if a.len() > 0 {
        lemma_lex_irreflexive(a.drop_first());
    }
}

/// Two sequences never come before each other.
pub proof fn lemma_lex_asymmetric(a: Seq<u8>, b: Seq<u8>)
    ensures
        !(lex_lt(a, b) && lex_lt(b, a)),
    decreases a.len(),
{
    if a.len() > 0 && b.len() > 0 && a[0] == b[0] {
        lemma_lex_asymmetric(a.drop_first(), b.drop_first());
    }
}

/// The order is transitive.
pub proof fn lemma_lex_transitive(a: Seq<u8>, b: Seq<u8>, c: Seq<u8>)
    requires
        lex_lt(a, b),
        lex_lt(b, c),
    ensures
        lex_lt(a, c),
    decreases a.len(),
{
    if a.len() > 0 && b.len() > 0 && c.len() > 0 && a[0] == b[0] && b[0] == c[0] {
        lemma_lex_transitive(a.drop_first(), b.drop_first(), c.drop_first());
    }
}

/// Two different sequences are ordered one way or the other.
pub proof fn lemma_lex_total(a: Seq<u8>, b: Seq<u8>)
    ensures
        a == b || lex_lt(a, b) || lex_lt(b, a),
    decreases a.len(),
{
    if a.len() > 0 && b.len() > 0 && a[0] == b[0] {
        lemma_lex_total(a.drop_first(), b.drop_first());
        if a.drop_first() == b.drop_first() {
            assert(a == seq![a[0]] + a.drop_first());
            assert(b == seq![b[0]] + b.drop_first());
        }
    } else if a.len() == 0 && b.len() == 0 {
        assert(a == b);
    }
}

/// Different strings have different UTF-8 bytes.
pub proof fn lemma_utf8_injective(a: Seq<char>, b: Seq<char>)
    requires
        utf8_bytes(a) == utf8_bytes(b),
    ensures
        a == b,
{
    vstd::utf8::encode_utf8_decode_utf8(a);
    vstd::utf8::encode_utf8_decode_utf8(b);
}

/// Whether `a` comes strictly before `b` in the natural order of strings.
pub fn str_less(a: &str, b: &str) -> (r: bool)
    ensures
        r == str_lt(a@, b@),
{
    let x = a.as_bytes();
    let y = b.as_bytes();
    let ghost xs = x@;
    let ghost ys = y@;
    assert(xs == utf8_bytes(a@));
    assert(ys == utf8_bytes(b@));
    let mut i: usize = 0;
    assert(xs.skip(0) == xs);
    assert(ys.skip(0) == ys);
    while i < x.len() && i < y.len()
        invariant
            x@ == xs,
            y@ == ys,
            xs == utf8_bytes(a@),
            ys == utf8_bytes(b@),
            i <= xs.len(),
            i <= ys.len(),
            lex_lt(xs, ys) == lex_lt(xs.skip(i as int), ys.skip(i as int)),
        decreases xs.len() - i,
    {
        assert(xs.skip(i as int)[0] == xs[i as int]);
        assert(ys.skip(i as int)[0] == ys[i as int]);
        if x[i] != y[i] {
            return x[i] < y[i];
        }
        assert(xs.skip(i as int).drop_first() == xs.skip(i + 1));
        assert(ys.skip(i as int).drop_first() == ys.skip(i + 1));
        i = i + 1;
    }
    assert(i == xs.len() ==> xs.skip(i as int).len() == 0);
    assert(i == ys.len() ==> ys.skip(i as int).len() == 0);
    i < y.len()
}

} // verus!
