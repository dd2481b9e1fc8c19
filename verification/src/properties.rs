//! Custom context properties, given in a query as `properties[name]=value`.
use vstd::prelude::*;
use vstd::utf8::*;
use vstd::string::*;
use crate::text::lemma_encode_utf8_concat;

verus! {

/// What a query key that names a custom property begins with.
pub const PROPERTY_PREFIX: &'static str = "properties[";

/// The characters of [`PROPERTY_PREFIX`].
pub open spec fn property_prefix() -> Seq<char> {
    seq!['p', 'r', 'o', 'p', 'e', 'r', 't', 'i', 'e', 's', '[']
}

/// The query key that names the custom property `name`.
pub open spec fn property_key(name: Seq<char>) -> Seq<char> {
    property_prefix() + name + seq![']']
}

/// Whether a query key names a custom property: it begins with
/// [`PROPERTY_PREFIX`] and ends with `]`.
pub open spec fn is_property_key(k: Seq<char>) -> bool {
    &&& property_prefix().len() <= k.len()
    &&& k.subrange(0, property_prefix().len() as int) == property_prefix()
    &&& k.len() > 0
    &&& k.last() == ']'
}

/// The name of the property that a property key names: what stands between
/// the prefix and the closing `]`.
pub open spec fn property_name(k: Seq<char>) -> Seq<char> {
    k.subrange(property_prefix().len() as int, k.len() - 1)
}

pub proof fn lemma_prefix_literal()
    ensures
        PROPERTY_PREFIX@ == property_prefix(),
        PROPERTY_PREFIX.spec_bytes().len() == 11,
{
    reveal_strlit("properties[");
    assert(PROPERTY_PREFIX@ =~= property_prefix());
    assert(is_ascii_chars(property_prefix()));
    is_ascii_chars_encode_utf8(property_prefix());
}

/// A byte index of a prefix of a valid UTF-8 sequence is a character boundary
/// of the prefix when it is one of the whole sequence.
proof fn lemma_boundary_of_prefix(b: Seq<u8>, j: int, i: int)
    requires
        valid_utf8(b),
        0 <= i <= j <= b.len(),
        is_char_boundary(b, j),
        is_char_boundary(b, i),
    ensures
        valid_utf8(b.subrange(0, j)),
        is_char_boundary(b.subrange(0, j), i),
{
    valid_utf8_split(b, j);
    let p = b.subrange(0, j);
    if i == 0 {
    } else if i == j {
        is_char_boundary_start_end_of_seq(p);
        assert(p.len() == j);
    } else {
        is_char_boundary_iff_not_is_continuation_byte(b, i);
        is_char_boundary_iff_not_is_continuation_byte(p, i);
        assert(p[i] == b[i]);
    }
}

/// The name of the custom property in a query key `properties[name]`.
///
/// The key is cut by bytes, as `&k[11..k.len() - 1]`: both cuts must fall on
/// character boundaries, and the key must be at least 12 bytes long.
pub fn extract_key(k: &str) -> (r: String)
    requires
        12 <= k.spec_bytes().len(),
        is_char_boundary(k.spec_bytes(), 11),
        is_char_boundary(k.spec_bytes(), k.spec_bytes().len() - 1),
    ensures
        r@ == decode_utf8(k.spec_bytes().subrange(11, k.spec_bytes().len() - 1)),
{
    proof {
        lemma_prefix_literal();
        encode_utf8_valid_utf8(k@);
        lemma_boundary_of_prefix(k.spec_bytes(), k.spec_bytes().len() - 1, 11);
    }
    let start = PROPERTY_PREFIX.as_bytes().len();
    let end = k.as_bytes().len() - 1;
    let (head, _) = k.split_at(end);
    let (_, name) = head.split_at(start);
    proof {
        encode_utf8_decode_utf8(name@);
        assert(name.spec_bytes() =~= k.spec_bytes().subrange(11, k.spec_bytes().len() - 1));
    }
    name.to_owned()
}

/// The UTF-8 bytes of `property_key(name)`: the prefix's eleven bytes, then
/// those of `name`, then the byte of `]`.
proof fn lemma_property_key_bytes(name: Seq<char>)
    ensures
        encode_utf8(property_key(name)) == encode_utf8(property_prefix()) + encode_utf8(name)
            + encode_utf8(seq![']']),
        encode_utf8(property_prefix()).len() == 11,
        encode_utf8(seq![']']).len() == 1,
{
    lemma_encode_utf8_concat(property_prefix() + name, seq![']']);
    lemma_encode_utf8_concat(property_prefix(), name);
    assert(is_ascii_chars(property_prefix()));
    is_ascii_chars_encode_utf8(property_prefix());
    assert(is_ascii_chars(seq![']']));
    is_ascii_chars_encode_utf8(seq![']']);
}

/// In the encoding of `a + b`, the index where the encoding of `b` begins is a
/// character boundary.
pub proof fn lemma_concat_boundary(a: Seq<char>, b: Seq<char>)
    ensures
        is_char_boundary(encode_utf8(a + b), encode_utf8(a).len() as int),
    decreases a.len(),
{
    encode_utf8_valid_utf8(a + b);
    if a.len() == 0 {
    } else {
        let bytes = encode_utf8(a + b);
        lemma_encode_utf8_concat(a, b);
        lemma_encode_utf8_concat(a.drop_first(), b);
        assert((a + b)[0] == a[0]);
        assert((a + b).drop_first() =~= a.drop_first() + b);
        encode_utf8_first_scalar(a + b);
        let w = encode_scalar(a[0] as u32).len();
        assert(encode_utf8(a) =~= encode_scalar(a[0] as u32) + encode_utf8(a.drop_first()));
        assert(pop_first_scalar(bytes) =~= encode_utf8(a.drop_first() + b));
        lemma_concat_boundary(a.drop_first(), b);
        assert(encode_utf8(a).len() == w + encode_utf8(a.drop_first()).len());
    }
}

/// A key `properties[name]` meets what [`extract_key`] requires, and gives
/// back `name`, whatever characters `name` holds.
pub proof fn lemma_extract_key_round_trip(name: Seq<char>)
    ensures
        ({
            let b = encode_utf8(property_key(name));
            &&& 12 <= b.len()
            &&& is_char_boundary(b, 11)
            &&& is_char_boundary(b, b.len() - 1)
            &&& decode_utf8(b.subrange(11, b.len() - 1)) == name
        }),
{
    let k = property_key(name);
    let b = encode_utf8(k);
    lemma_property_key_bytes(name);
    encode_utf8_valid_utf8(k);
    lemma_concat_boundary(property_prefix(), name + seq![']']);
    assert(property_prefix() + (name + seq![']']) =~= k);
    lemma_encode_utf8_concat(property_prefix(), name + seq![']']);
    lemma_concat_boundary(property_prefix() + name, seq![']']);
    lemma_encode_utf8_concat(property_prefix(), name);
    assert(b.subrange(11, b.len() - 1) =~= encode_utf8(name));
    encode_utf8_decode_utf8(name);
}

/// A query key that names a custom property meets what [`extract_key`]
/// requires, and [`extract_key`] gives back the property's name.
pub proof fn lemma_property_key_extracts(k: Seq<char>)
    requires
        is_property_key(k),
    ensures
        ({
            let b = encode_utf8(k);
            &&& 12 <= b.len()
            &&& is_char_boundary(b, 11)
            &&& is_char_boundary(b, b.len() - 1)
            &&& decode_utf8(b.subrange(11, b.len() - 1)) == property_name(k)
        }),
{
    assert(property_key(property_name(k)) =~= k);
    lemma_extract_key_round_trip(property_name(k));
}

} // verus!
