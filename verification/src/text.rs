//! Comparisons of strings by their characters.
use vstd::prelude::*;
use vstd::utf8::*;
use vstd::string::*;
use vstd::std_specs::iter::IteratorSpec;

verus! {

/// `encode_utf8` maps a concatenation to the concatenation of the encodings.
pub proof fn lemma_encode_utf8_concat(a: Seq<char>, b: Seq<char>)
    ensures
        encode_utf8(a + b) == encode_utf8(a) + encode_utf8(b),
    decreases a.len(),
{
    if a.len() == 0 {
        assert(a + b =~= b);
        assert(encode_utf8(a) + encode_utf8(b) =~= encode_utf8(b));
    } else {
        assert((a + b).drop_first() =~= a.drop_first() + b);
        lemma_encode_utf8_concat(a.drop_first(), b);
        assert((a + b)[0] == a[0]);
        assert(encode_utf8(a + b) =~= encode_scalar(a[0] as u32) + (encode_utf8(a.drop_first())
            + encode_utf8(b)));
    }
}

/// Two character sequences are equal exactly when their UTF-8 encodings are.
pub proof fn lemma_encode_utf8_injective(a: Seq<char>, b: Seq<char>)
    ensures
        (a == b) <==> (encode_utf8(a) == encode_utf8(b)),
{
    encode_utf8_decode_utf8(a);
    encode_utf8_decode_utf8(b);
}

/// Whether `a` and `b` hold the same characters.
pub fn text_eq(a: &str, b: &str) -> (r: bool)
    ensures
        r == (a@ == b@),
{
    let ab = a.as_bytes();
    let bb = b.as_bytes();
    proof {
        lemma_encode_utf8_injective(a@, b@);
    }
    if ab.len() != bb.len() {
        return false;
    }
    let n = ab.len();
    let mut i: usize = 0;
    while i < n
        invariant
            n == ab@.len(),
            n == bb@.len(),
            (a@ == b@) <==> (ab@ == bb@),
            i <= n,
            forall|j: int| 0 <= j < i ==> ab@[j] == bb@[j],
        decreases n - i,
    {
        if ab[i] != bb[i] {
            assert(ab@[i as int] != bb@[i as int]);
            assert(ab@ != bb@);
            return false;
        }
        i = i + 1;
    }
    assert(ab@ =~= bb@);
    true
}

/// Whether the characters of `s` begin with those of `prefix`.
pub fn starts_with_text(s: &str, prefix: &str) -> (r: bool)
    ensures
        r == (prefix@.len() <= s@.len() && s@.subrange(0, prefix@.len() as int) == prefix@),
{
    let pn = prefix.unicode_len();
    let sn = s.unicode_len();
    if pn > sn {
        return false;
    }
    let mut i: usize = 0;
    while i < pn
        invariant
            pn == prefix@.len(),
            sn == s@.len(),
            pn <= sn,
            i <= pn,
            forall|j: int| 0 <= j < i ==> s@[j] == prefix@[j],
        decreases pn - i,
    {
        if s.get_char(i) != prefix.get_char(i) {
            assert(s@.subrange(0, pn as int)[i as int] != prefix@[i as int]);
            return false;
        }
        i = i + 1;
    }
    assert(s@.subrange(0, pn as int) =~= prefix@);
    true
}

/// Whether the last character of `s` is `c`.
pub fn ends_with_char(s: &str, c: char) -> (r: bool)
    ensures
        r == (s@.len() > 0 && s@.last() == c),
{
    let n = s.unicode_len();
    if n == 0 {
        return false;
    }
    s.get_char(n - 1) == c
}

/// The characters of `s` before its first `c` (all of them where it has none).
pub open spec fn before_char(s: Seq<char>, c: char) -> Seq<char>
    decreases s.len(),
{
    if s.len() == 0 {
        s
    } else if s[0] == c {
        Seq::empty()
    } else {
        seq![s[0]] + before_char(s.drop_first(), c)
    }
}

/// The characters of `s` after its first `c` (none where it has none).
pub open spec fn after_char(s: Seq<char>, c: char) -> Seq<char>
    decreases s.len(),
{
    if s.len() == 0 {
        s
    } else if s[0] == c {
        s.drop_first()
    } else {
        after_char(s.drop_first(), c)
    }
}

/// The characters of `s`, one by one.
pub fn chars_of(s: &str) -> (r: Vec<char>)
    ensures
        r@ == s@,
{
    broadcast use vstd::string::group_string_axioms;
    let mut chars = s.chars();
    let mut r: Vec<char> = Vec::new();
    assert(chars.remaining() == s@);
    loop
        invariant
            r@ + chars.remaining() == s@,
            chars.obeys_prophetic_iter_laws(),
            chars.decrease() is Some,
        decreases chars.decrease()->0,
    {
        let ghost before = chars.remaining();
        match chars.next() {
            Some(x) => {
                proof {
                    assert(before.len() > 0);
                    assert(r@.push(x) + chars.remaining() =~= r@ + before);
                }
                r.push(x);
            },
            None => {
                assert(r@ =~= s@);
                return r;
            },
        }
    }
}

/// The index of the first `c` in `v` at or after `start` (the length of `v`
/// where there is none), with what it cuts `v[start..]` into.
pub fn index_of_from(v: &Vec<char>, start: usize, c: char) -> (r: usize)
    requires
        start <= v.len(),
    ensures
        start <= r <= v.len(),
        before_char(v@.subrange(start as int, v.len() as int), c) == v@.subrange(
            start as int,
            r as int,
        ),
        after_char(v@.subrange(start as int, v.len() as int), c) == (if r < v.len() {
            v@.subrange(r + 1, v.len() as int)
        } else {
            Seq::empty()
        }),
{
    let n = v.len();
    let mut i = start;
    while i < n
        invariant
            n == v.len(),
            start <= i <= n,
            before_char(v@.subrange(start as int, n as int), c) == v@.subrange(start as int, i as int)
                + before_char(v@.subrange(i as int, n as int), c),
            after_char(v@.subrange(start as int, n as int), c) == after_char(
                v@.subrange(i as int, n as int),
                c,
            ),
        decreases n - i,
    {
        proof {
            assert(v@.subrange(i as int, n as int).drop_first() =~= v@.subrange(i + 1, n as int));
        }
        if v[i] == c {
            assert(v@.subrange(start as int, i as int) + Seq::<char>::empty() =~= v@.subrange(
                start as int,
                i as int,
            ));
            return i;
        }
        assert(v@.subrange(start as int, i as int) + seq![v@[i as int]] =~= v@.subrange(
            start as int,
            i + 1,
        ));
        assert(v@.subrange(start as int, i as int) + (seq![v@[i as int]] + before_char(
            v@.subrange(i + 1, n as int),
            c,
        )) =~= v@.subrange(start as int, i + 1) + before_char(v@.subrange(i + 1, n as int), c));
        i = i + 1;
    }
    assert(v@.subrange(n as int, n as int) =~= Seq::<char>::empty());
    assert(v@.subrange(start as int, n as int) + Seq::<char>::empty() =~= v@.subrange(
        start as int,
        n as int,
    ));
    i
}

} // verus!
