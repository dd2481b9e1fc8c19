//! The decoded pairs of a request's query, read with the `url` crate.
//!
//! A request URI is resolved against a fixed root; the query of the resulting
//! URL is read in the `application/x-www-form-urlencoded` syntax: it is cut at
//! each `&` (empty pieces left out), each piece at its first `=` into a name
//! and a value, and in both a `+` stands for a space and `%` followed by two
//! hexadecimal digits for the byte they give.
use vstd::prelude::*;
use vstd::string::*;
use vstd::utf8::*;

verus! {

#[verifier::external_type_specification]
#[verifier::external_body]
pub struct ExUrl(url::Url);

#[verifier::external_type_specification]
#[verifier::external_body]
pub struct ExUrlParseError(url::ParseError);

/// A URL as the `url` crate reads it, beside its serialization.
pub struct ParsedUrl {
    inner: url::Url,
    text: String,
}

impl View for ParsedUrl {
    type V = Seq<char>;

    /// The serialization of the URL.
    closed spec fn view(&self) -> Seq<char> {
        self.text@
    }
}

/// The serialization of the URL that `url::Url::parse` reads from `input`,
/// if it reads one.
pub uninterp spec fn url_parsed(input: Seq<char>) -> Option<Seq<char>>;

/// The serialization of the URL that `url::Url::join` gives for `input`
/// against the URL serialized as `base`, if it gives one.
pub uninterp spec fn url_joined(base: Seq<char>, input: Seq<char>) -> Option<Seq<char>>;

/// The query that `url::Url::query` gives for the URL serialized as `url`.
pub uninterp spec fn url_query_of(url: Seq<char>) -> Option<Seq<char>>;

/// The pairs that `url::form_urlencoded::parse` reads from `input`.
pub uninterp spec fn form_pairs_of(input: Seq<u8>) -> Seq<(Seq<char>, Seq<char>)>;

/// Calls `url::Url::parse` on `input` and keeps the URL with its
/// serialization (`url::Url::as_str`). Stated: the serialization is
/// `url_parsed(input)`, which depends on the text alone; the call fails
/// exactly where that is `None`.
#[verifier::external_body]
fn parse_url(input: &str) -> (r: Result<ParsedUrl, url::ParseError>)
    ensures
        match r {
            Ok(u) => url_parsed(input@) == Some(u@),
            Err(_) => url_parsed(input@) is None,
        },
{
    match url::Url::parse(input) {
        Ok(inner) => Ok(ParsedUrl { text: inner.as_str().to_owned(), inner }),
        Err(e) => Err(e),
    }
}

/// Calls `url::Url::join` on `base` with `input`. Stated: the serialization
/// of the result is `url_joined(base@, input@)`. A `url::Url` is fixed by its
/// serialization (its other fields are offsets read from it, and its `==`
/// compares the serializations alone), so the result depends on the two texts.
#[verifier::external_body]
fn join_url(base: &ParsedUrl, input: &str) -> (r: Result<ParsedUrl, url::ParseError>)
    ensures
        match r {
            Ok(u) => url_joined(base@, input@) == Some(u@),
            Err(_) => url_joined(base@, input@) is None,
        },
{
    match base.inner.join(input) {
        Ok(inner) => Ok(ParsedUrl { text: inner.as_str().to_owned(), inner }),
        Err(e) => Err(e),
    }
}

/// Calls `url::Url::query` on `url`, as an owned string. Stated: the result
/// is `url_query_of(url@)`.
#[verifier::external_body]
fn url_query(url: &ParsedUrl) -> (r: Option<String>)
    ensures
        match r {
            Some(q) => url_query_of(url@) == Some(q@),
            None => url_query_of(url@) is None,
        },
{
    url.inner.query().map(|q| q.to_owned())
}

/// The pieces of `b` between the bytes `sep`, empty ones included.
pub open spec fn split_bytes(b: Seq<u8>, sep: u8) -> Seq<Seq<u8>>
    decreases b.len(),
{
    if b.len() == 0 {
        seq![Seq::<u8>::empty()]
    } else {
        let rest = split_bytes(b.drop_first(), sep);
        if b[0] == sep {
            seq![Seq::<u8>::empty()] + rest
        } else {
            rest.update(0, seq![b[0]] + rest[0])
        }
    }
}

/// The pieces of a form between its `&` separators, empty ones left out.
pub open spec fn form_sequences(b: Seq<u8>) -> Seq<Seq<u8>> {
    split_bytes(b, '&' as u8).filter(|p: Seq<u8>| p.len() > 0)
}

/// The name and the value of a piece of a form: before and after its first
/// `=` (the value is empty where there is none).
pub open spec fn form_name_value(p: Seq<u8>) -> (Seq<u8>, Seq<u8>) {
    let name = split_bytes(p, '=' as u8)[0];
    (name, if name.len() < p.len() { p.skip(name.len() + 1int) } else { Seq::empty() })
}

/// The value of a hexadecimal digit.
pub open spec fn hex_digit(x: u8) -> Option<u8> {
    if '0' as u8 <= x <= '9' as u8 {
        Some((x - '0' as u8) as u8)
    } else if 'a' as u8 <= x <= 'f' as u8 {
        Some((x - 'a' as u8 + 10) as u8)
    } else if 'A' as u8 <= x <= 'F' as u8 {
        Some((x - 'A' as u8 + 10) as u8)
    } else {
        None
    }
}

/// `b` with each `%` followed by two hexadecimal digits replaced by the byte
/// they give; any other `%` stays.
pub open spec fn percent_decoded(b: Seq<u8>) -> Seq<u8>
    decreases b.len(),
{
    if b.len() == 0 {
        Seq::empty()
    } else if b[0] == '%' as u8 && b.len() >= 3 && hex_digit(b[1]) is Some && hex_digit(b[2]) is Some {
        seq![(hex_digit(b[1])->0 * 16 + hex_digit(b[2])->0) as u8] + percent_decoded(b.skip(3))
    } else {
        seq![b[0]] + percent_decoded(b.drop_first())
    }
}

/// The bytes that a name or value of a form stands for: `+` as a space, then
/// percent-decoded.
pub open spec fn form_decoded(b: Seq<u8>) -> Seq<u8> {
    percent_decoded(b.map_values(|x: u8| if x == '+' as u8 { ' ' as u8 } else { x }))
}

/// `text` is what the form component `b` stands for, where its decoded bytes
/// are valid UTF-8.
pub open spec fn component_decodes_to(b: Seq<u8>, text: Seq<char>) -> bool {
    valid_utf8(form_decoded(b)) ==> text == decode_utf8(form_decoded(b))
}

/// `pairs` are the names and values of the form `b`, one pair per non-empty
/// piece, in order, each decoded.
pub open spec fn form_decoding(b: Seq<u8>, pairs: Seq<(Seq<char>, Seq<char>)>) -> bool {
    &&& pairs.len() == form_sequences(b).len()
    &&& forall|i: int|
        #![trigger pairs[i]]
        0 <= i < pairs.len() ==> component_decodes_to(
            form_name_value(form_sequences(b)[i]).0,
            pairs[i].0,
        ) && component_decodes_to(form_name_value(form_sequences(b)[i]).1, pairs[i].1)
}

/// Calls `url::form_urlencoded::parse` on the bytes of `input` and collects
/// the pairs as owned strings. Stated: the pairs are
/// `form_pairs_of(bytes)`, and they are the form's non-empty pieces in order,
/// each cut at its first `=` and decoded (`+` as a space, `%` and two
/// hexadecimal digits as a byte). Not stated: the text of a component whose
/// decoded bytes are no valid UTF-8 (the crate replaces the bad sequences).
#[verifier::external_body]
fn parse_form(input: &str) -> (r: Vec<(String, String)>)
    ensures
        pairs_text(r@) == form_pairs_of(input.spec_bytes()),
        form_decoding(input.spec_bytes(), pairs_text(r@)),
{
    url::form_urlencoded::parse(input.as_bytes()).into_owned().collect()
}

/// The characters of a list of string pairs.
pub open spec fn pairs_text(pairs: Seq<(String, String)>) -> Seq<(Seq<char>, Seq<char>)> {
    pairs.map_values(|p: (String, String)| (p.0@, p.1@))
}

/// Why the query of a request could not be read.
pub enum RequestError {
    /// The fixed root that request paths are resolved against is no URL.
    InvalidRoot,
    /// The request's URI does not resolve against the root.
    BadUri,
}

/// The root that request URIs are resolved against to read their query.
pub const FAKE_ROOT: &'static str = "http://fakeroot.example.com/";

/// The serialization of the URL that the request URI `uri` resolves to
/// against [`FAKE_ROOT`].
pub open spec fn request_url(uri: Seq<char>) -> Option<Seq<char>> {
    match url_parsed(FAKE_ROOT@) {
        Some(root) => url_joined(root, uri),
        None => None,
    }
}

/// The bytes of the query of the URL serialized as `u`, none where it has
/// no query.
pub open spec fn query_bytes(u: Seq<char>) -> Seq<u8> {
    match url_query_of(u) {
        Some(q) => encode_utf8(q),
        None => Seq::empty(),
    }
}

/// The decoded pairs of the query of the request URI `uri`, read by resolving
/// the URI against [`FAKE_ROOT`]: `InvalidRoot` where the root is no URL,
/// `BadUri` where the URI does not resolve against it, and otherwise the
/// pairs of the resolved URL's query.
pub fn request_query_pairs(uri: &str) -> (r: Result<Vec<(String, String)>, RequestError>)
    ensures
        (r matches Err(RequestError::InvalidRoot)) <==> url_parsed(FAKE_ROOT@) is None,
        (r matches Err(RequestError::BadUri)) <==> (url_parsed(FAKE_ROOT@) is Some
            && request_url(uri@) is None),
        r matches Ok(p) ==> request_url(uri@) matches Some(u) && pairs_text(p@) == form_pairs_of(
            query_bytes(u),
        ) && form_decoding(query_bytes(u), pairs_text(p@)),
{
    let root = match parse_url(FAKE_ROOT) {
        Ok(u) => u,
        Err(_) => return Err(RequestError::InvalidRoot),
    };
    let url = match join_url(&root, uri) {
        Ok(u) => u,
        Err(_) => return Err(RequestError::BadUri),
    };
    let query = match url_query(&url) {
        Some(q) => q,
        None => String::new(),
    };
    Ok(parse_form(query.as_str()))
}

} // verus!
