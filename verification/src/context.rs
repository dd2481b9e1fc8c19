//! The Unleash context of a request, read from the pairs of its query.
//!
//! The keys `environment`, `appName`, `userId`, `sessionId` and
//! `remoteAddress` set the fields of the same names, and a key
//! `properties[name]` sets the custom property `name`; a later pair overrides
//! an earlier one with the same key, and other keys are ignored.
use vstd::prelude::*;
use vstd::string::*;
use crate::properties::{
    PROPERTY_PREFIX, extract_key, is_property_key, lemma_prefix_literal,
    lemma_property_key_extracts, property_key, property_name, property_prefix,
};
use crate::strmap::StrMap;
use crate::url_query::{
    FAKE_ROOT, RequestError, form_decoding, form_pairs_of, pairs_text, query_bytes, request_query_pairs,
    request_url, url_parsed,
};
use crate::text::{
    after_char, before_char, chars_of, ends_with_char, index_of_from, starts_with_text, text_eq,
};

verus! {

#[verifier::external_type_specification]
#[verifier::external_body]
pub struct ExIPAddress(ipaddress::IPAddress);

/// An IP address as the `ipaddress` crate reads it, beside its canonical
/// text (`ipaddress::IPAddress::to_string`: the compressed address, `/` and
/// the prefix length).
pub struct IpAddress {
    inner: ipaddress::IPAddress,
    text: String,
}

impl View for IpAddress {
    type V = Seq<char>;

    /// The canonical text of the address.
    closed spec fn view(&self) -> Seq<char> {
        self.text@
    }
}

impl IpAddress {
    /// The canonical text of the address, such as `10.1.2.3/32`.
    pub fn as_str(&self) -> (r: &str)
        ensures
            r@ == self@,
    {
        self.text.as_str()
    }

    /// The address itself.
    pub fn into_inner(self) -> ipaddress::IPAddress {
        self.inner
    }
}

/// The canonical text of the address that `ipaddress::IPAddress::parse` reads
/// from `text`, if it reads one.
pub uninterp spec fn ip_address_of(text: Seq<char>) -> Option<Seq<char>>;

/// The most colons that may stand before the first `::` of an address or of
/// its netmask: eight groups of an IPv6 address.
pub const MAX_HEAD_COLONS: usize = 7;

/// How many colons `s` has before its first `::`, if it has one.
pub open spec fn colons_before_double_colon(s: Seq<char>) -> Option<nat>
    decreases s.len(),
{
    if s.len() < 2 {
        None
    } else if s[0] == ':' && s[1] == ':' {
        Some(0)
    } else {
        match colons_before_double_colon(s.drop_first()) {
            Some(n) => Some(if s[0] == ':' { n + 1 } else { n }),
            None => None,
        }
    }
}

/// Whether more than eight groups stand before the first `::` of `s`.
pub open spec fn overlong_ipv6_head(s: Seq<char>) -> bool {
    colons_before_double_colon(s) matches Some(n) && n > MAX_HEAD_COLONS
}

/// Whether `text` may be handed to the address parser: neither its address
/// (what stands before its first `/`) nor its netmask (what stands between its
/// first and second `/`) has more than eight groups before its first `::`.
pub open spec fn ip_text_in_bounds(text: Seq<char>) -> bool {
    &&& !overlong_ipv6_head(before_char(text, '/'))
    &&& !overlong_ipv6_head(before_char(after_char(text, '/'), '/'))
}

/// `o` with `k` added to the count it holds.
pub open spec fn plus_count(o: Option<nat>, k: nat) -> Option<nat> {
    match o {
        Some(n) => Some(n + k),
        None => None,
    }
}

/// Whether more than eight groups stand before the first `::` of `v[lo..hi]`.
fn overlong_head_in(v: &Vec<char>, lo: usize, hi: usize) -> (r: bool)
    requires
        lo <= hi <= v.len(),
    ensures
        r == overlong_ipv6_head(v@.subrange(lo as int, hi as int)),
{
    let mut i = lo;
    let mut count: usize = 0;
    while hi - i >= 2
        invariant
            lo <= i <= hi,
            hi <= v.len(),
            count <= i - lo,
            colons_before_double_colon(v@.subrange(lo as int, hi as int)) == plus_count(
                colons_before_double_colon(v@.subrange(i as int, hi as int)),
                count as nat,
            ),
        decreases hi - i,
    {
        proof {
            assert(v@.subrange(i as int, hi as int).drop_first() =~= v@.subrange(i + 1, hi as int));
        }
        if v[i] == ':' && v[i + 1] == ':' {
            return count > MAX_HEAD_COLONS;
        }
        if v[i] == ':' {
            count = count + 1;
        }
        i = i + 1;
    }
    false
}

/// Whether the text `text` may be handed to the address parser.
pub fn address_text_in_bounds(text: &str) -> (r: bool)
    ensures
        r == ip_text_in_bounds(text@),
{
    let v = chars_of(text);
    let n = v.len();
    assert(v@.subrange(0, n as int) =~= v@);
    let slash = index_of_from(&v, 0, '/');
    if overlong_head_in(&v, 0, slash) {
        return false;
    }
    if slash == n {
        assert(before_char(Seq::<char>::empty(), '/') =~= Seq::<char>::empty());
        return true;
    }
    let next = index_of_from(&v, slash + 1, '/');
    !overlong_head_in(&v, slash + 1, next)
}

/// Calls `ipaddress::IPAddress::parse` on `text` and keeps the address it
/// gives with its canonical text (`to_string`), dropping the message of an
/// error. Stated: the call fails exactly where `ip_address_of(text)` is
/// `None`, and otherwise the canonical text is that name's value, which
/// depends on the text alone. Required: at most
/// eight colons; the crate's parser splits the text at `/`, `::` and `:`, and
/// with at most eight colons in all (nine in the IPv6 text it rebuilds from an
/// IPv4-mapped address) at most eight groups stand before `::`, so its
/// subtraction `128 - pre_parts * 16` cannot overflow; its other `unwrap`s
/// follow checks that make them succeed.
#[verifier::external_body]
fn parse_ip_address(text: &str) -> (r: Option<IpAddress>)
    requires
        ip_text_in_bounds(text@),
    ensures
        match r {
            Some(a) => ip_address_of(text@) == Some(a@),
            None => ip_address_of(text@) is None,
        },
{
    match ipaddress::IPAddress::parse(text) {
        Ok(inner) => Some(IpAddress { text: inner.to_string(), inner }),
        Err(_) => None,
    }
}

/// A remote address as given in the query, with the address it parses to.
pub struct RemoteAddress {
    pub text: String,
    pub address: IpAddress,
}

/// The Unleash context that the toggles of a request are evaluated against.
pub struct ProxyContext {
    pub environment: String,
    pub app_name: String,
    pub user_id: Option<String>,
    pub session_id: Option<String>,
    pub remote_address: Option<RemoteAddress>,
    pub properties: StrMap<String>,
}

/// What a [`ProxyContext`] holds; a remote address by the text it was given
/// as and the canonical text of the address read from it.
pub struct ContextView {
    pub environment: Seq<char>,
    pub app_name: Seq<char>,
    pub user_id: Option<Seq<char>>,
    pub session_id: Option<Seq<char>>,
    pub remote_address: Option<(Seq<char>, Seq<char>)>,
    pub properties: Map<Seq<char>, Seq<char>>,
}

/// The characters of an optional string.
pub open spec fn text_of(s: Option<String>) -> Option<Seq<char>> {
    match s {
        Some(x) => Some(x@),
        None => None,
    }
}

impl View for ProxyContext {
    type V = ContextView;

    open spec fn view(&self) -> ContextView {
        ContextView {
            environment: self.environment@,
            app_name: self.app_name@,
            user_id: text_of(self.user_id),
            session_id: text_of(self.session_id),
            remote_address: match self.remote_address {
                Some(a) => Some((a.text@, a.address@)),
                None => None,
            },
            properties: self.properties@.map_values(|v: String| v@),
        }
    }
}

/// The context of a request whose query has no pairs.
pub open spec fn empty_context() -> ContextView {
    ContextView {
        environment: Seq::empty(),
        app_name: Seq::empty(),
        user_id: None,
        session_id: None,
        remote_address: None,
        properties: Map::empty(),
    }
}

/// The remote address that the text `v` gives: the address read from it, or
/// none where it is no address. A text with more than eight groups before the
/// first `::` of its address or netmask is not handed to the parser, which
/// on such a text either fails or overflows.
pub open spec fn remote_address_of(v: Seq<char>) -> Option<(Seq<char>, Seq<char>)> {
    if ip_text_in_bounds(v) {
        match ip_address_of(v) {
            Some(a) => Some((v, a)),
            None => None,
        }
    } else {
        None
    }
}

/// The context `c` after the query pair `k=v`.
pub open spec fn apply_pair(c: ContextView, k: Seq<char>, v: Seq<char>) -> ContextView {
    if k == "environment"@ {
        ContextView { environment: v, ..c }
    } else if k == "appName"@ {
        ContextView { app_name: v, ..c }
    } else if k == "userId"@ {
        ContextView { user_id: Some(v), ..c }
    } else if k == "sessionId"@ {
        ContextView { session_id: Some(v), ..c }
    } else if k == "remoteAddress"@ {
        ContextView { remote_address: remote_address_of(v), ..c }
    } else if is_property_key(k) {
        ContextView { properties: c.properties.insert(property_name(k), v), ..c }
    } else {
        c
    }
}

/// The context that the query pairs `pairs` give, taken in order.
pub open spec fn context_of_pairs(pairs: Seq<(Seq<char>, Seq<char>)>) -> ContextView
    decreases pairs.len(),
{
    if pairs.len() == 0 {
        empty_context()
    } else {
        apply_pair(context_of_pairs(pairs.drop_last()), pairs.last().0, pairs.last().1)
    }
}

impl ProxyContext {
    /// The context of a request whose query has no pairs.
    pub fn new() -> (r: ProxyContext)
        ensures
            r@ == empty_context(),
    {
        let r = ProxyContext {
            environment: String::new(),
            app_name: String::new(),
            user_id: None,
            session_id: None,
            remote_address: None,
            properties: StrMap::new(),
        };
        assert(r@.properties =~= Map::<Seq<char>, Seq<char>>::empty());
        r
    }

    /// Applies the query pair `k=v`.
    pub fn apply_query_pair(&mut self, k: String, v: String)
        ensures
            final(self)@ == apply_pair(old(self)@, k@, v@),
    {
        let key = k.as_str();
        if text_eq(key, "environment") {
            self.environment = v;
        } else if text_eq(key, "appName") {
            self.app_name = v;
        } else if text_eq(key, "userId") {
            self.user_id = Some(v);
        } else if text_eq(key, "sessionId") {
            self.session_id = Some(v);
        } else if text_eq(key, "remoteAddress") {
            self.remote_address = if address_text_in_bounds(v.as_str()) {
                match parse_ip_address(v.as_str()) {
                    Some(address) => Some(RemoteAddress { text: v, address }),
                    None => None,
                }
            } else {
                None
            };
        } else if starts_with_text(key, PROPERTY_PREFIX) && ends_with_char(key, ']') {
            proof {
                lemma_prefix_literal();
                lemma_property_key_extracts(k@);
            }
            let name = extract_key(key);
            let ghost vv = v@;
            self.properties.insert(name, v);
            proof {
                assert(self@.properties =~= old(self)@.properties.insert(property_name(k@), vv));
            }
        } else {
            proof {
                lemma_prefix_literal();
            }
        }
    }
}

/// The context that the query pairs `pairs` give, taken in order.
pub fn context_from_pairs(pairs: Vec<(String, String)>) -> (r: ProxyContext)
    ensures
        r@ == context_of_pairs(pairs_text(pairs@)),
{
    let ghost all = pairs_text(pairs@);
    let mut ctx = ProxyContext::new();
    let mut rest = pairs;
    let ghost orig = rest@;
    let n = rest.len();
    let mut i: usize = 0;
    assert(all.take(0) =~= Seq::<(Seq<char>, Seq<char>)>::empty());
    while rest.len() > 0
        invariant
            n == all.len(),
            all == pairs_text(orig),
            i + rest@.len() == n,
            rest@ == orig.skip(i as int),
            ctx@ == context_of_pairs(all.take(i as int)),
        decreases rest@.len(),
    {
        let (k, v) = rest.remove(0);
        proof {
            assert(k@ == all[i as int].0 && v@ == all[i as int].1);
            assert(all.take(i + 1).drop_last() =~= all.take(i as int));
        }
        ctx.apply_query_pair(k, v);
        i = i + 1;
        assert(rest@ =~= orig.skip(i as int));
    }
    assert(all.take(n as int) =~= all);
    ctx
}

/// The context of the request with URI `uri`: that of the decoded pairs of
/// its query, read as [`request_query_pairs`] reads them.
pub fn request_context(uri: &str) -> (r: Result<ProxyContext, RequestError>)
    ensures
        (r matches Err(RequestError::InvalidRoot)) <==> url_parsed(FAKE_ROOT@) is None,
        (r matches Err(RequestError::BadUri)) <==> (url_parsed(FAKE_ROOT@) is Some
            && request_url(uri@) is None),
        r matches Ok(c) ==> request_url(uri@) matches Some(u) && c@ == context_of_pairs(
            form_pairs_of(query_bytes(u)),
        ) && form_decoding(query_bytes(u), form_pairs_of(query_bytes(u))),
{
    match request_query_pairs(uri) {
        Ok(pairs) => {
            let ghost p = pairs@;
            let c = context_from_pairs(pairs);
            assert(c@ == context_of_pairs(pairs_text(p)));
            Ok(c)
        },
        Err(e) => Err(e),
    }
}

/// A later query pair overrides an earlier one with the same key: the earlier
/// one leaves no trace in the context.
pub proof fn lemma_later_pair_overrides(
    pairs: Seq<(Seq<char>, Seq<char>)>,
    k: Seq<char>,
    v1: Seq<char>,
    v2: Seq<char>,
)
    ensures
        context_of_pairs(pairs.push((k, v1)).push((k, v2))) == context_of_pairs(pairs.push((k, v2))),
{
    assert(pairs.push((k, v1)).push((k, v2)).drop_last() =~= pairs.push((k, v1)));
    assert(pairs.push((k, v1)).drop_last() =~= pairs);
    assert(pairs.push((k, v2)).drop_last() =~= pairs);
    let c = context_of_pairs(pairs);
    assert(pairs.push((k, v1)).push((k, v2)).last() == (k, v2));
    assert(pairs.push((k, v1)).last() == (k, v1));
    assert(pairs.push((k, v2)).last() == (k, v2));
    assert(context_of_pairs(pairs.push((k, v1))) == apply_pair(c, k, v1));
    assert(context_of_pairs(pairs.push((k, v2))) == apply_pair(c, k, v2));
    if is_property_key(k) {
        assert(c.properties.insert(property_name(k), v1).insert(property_name(k), v2)
            =~= c.properties.insert(property_name(k), v2));
    }
    assert(apply_pair(apply_pair(c, k, v1), k, v2) == apply_pair(c, k, v2));
}

/// The key `properties[name]` names a custom property, the property `name`,
/// and is none of the keys of the context's own fields.
pub proof fn lemma_property_key_shape(name: Seq<char>)
    ensures
        is_property_key(property_key(name)),
        property_name(property_key(name)) == name,
        property_key(name) != "environment"@,
        property_key(name) != "appName"@,
        property_key(name) != "userId"@,
        property_key(name) != "sessionId"@,
        property_key(name) != "remoteAddress"@,
{
    let k = property_key(name);
    reveal_strlit("environment");
    reveal_strlit("appName");
    reveal_strlit("userId");
    reveal_strlit("sessionId");
    reveal_strlit("remoteAddress");
    assert(k.len() == name.len() + 12);
    assert(k[0] == 'p');
    assert(k.subrange(0, 11) =~= property_prefix());
    assert(k.last() == ']');
    assert(property_name(k) =~= name);
    if name.len() == 0 {
        assert(k.len() == 12);
    }
    assert(k != "remoteAddress"@) by {
        if k == "remoteAddress"@ {
            assert(k[0] == "remoteAddress"@[0]);
        }
    }
}

/// A query pair `properties[name]=value` sets the custom property `name` to
/// `value`, whatever characters `name` holds, and changes nothing else.
pub proof fn lemma_property_pair_sets_property(c: ContextView, name: Seq<char>, value: Seq<char>)
    ensures
        apply_pair(c, property_key(name), value) == (ContextView {
            properties: c.properties.insert(name, value),
            ..c
        }),
{
    lemma_property_key_shape(name);
}

/// Each pair with the key of one of the context's own fields sets that field
/// to its value (the remote address to the address read from it) and leaves
/// every other field as it was.
pub proof fn lemma_named_pair_sets_only_its_field(c: ContextView, v: Seq<char>)
    ensures
        apply_pair(c, "environment"@, v) == (ContextView { environment: v, ..c }),
        apply_pair(c, "appName"@, v) == (ContextView { app_name: v, ..c }),
        apply_pair(c, "userId"@, v) == (ContextView { user_id: Some(v), ..c }),
        apply_pair(c, "sessionId"@, v) == (ContextView { session_id: Some(v), ..c }),
        apply_pair(c, "remoteAddress"@, v) == (ContextView {
            remote_address: remote_address_of(v),
            ..c
        }),
{
    reveal_strlit("environment");
    reveal_strlit("appName");
    reveal_strlit("userId");
    reveal_strlit("sessionId");
    reveal_strlit("remoteAddress");
    assert("appName"@.len() != "environment"@.len());
    assert("userId"@.len() != "environment"@.len());
    assert("userId"@.len() != "appName"@.len());
    assert("sessionId"@.len() != "environment"@.len());
    assert("sessionId"@.len() != "appName"@.len());
    assert("sessionId"@.len() != "userId"@.len());
    assert("remoteAddress"@.len() != "environment"@.len());
    assert("remoteAddress"@.len() != "appName"@.len());
    assert("remoteAddress"@.len() != "userId"@.len());
    assert("remoteAddress"@.len() != "sessionId"@.len());
}

/// The value of the last pair in `pairs` whose key is `k`, if any.
pub open spec fn last_value(pairs: Seq<(Seq<char>, Seq<char>)>, k: Seq<char>) -> Option<Seq<char>>
    decreases pairs.len(),
{
    if pairs.len() == 0 {
        None
    } else if pairs.last().0 == k {
        Some(pairs.last().1)
    } else {
        last_value(pairs.drop_last(), k)
    }
}

/// The text in `o`, or the empty text where there is none.
pub open spec fn or_empty(o: Option<Seq<char>>) -> Seq<char> {
    match o {
        Some(v) => v,
        None => Seq::empty(),
    }
}

/// Every field of the context of a query holds the value of the last pair
/// with that field's key, and is empty (or absent) where no pair has it: no
/// pair with another key touches it. The custom property `name` is there
/// exactly when some pair has the key `properties[name]`, with the value of
/// the last such pair.
pub proof fn lemma_context_fields_from_last_pairs(
    pairs: Seq<(Seq<char>, Seq<char>)>,
    name: Seq<char>,
)
    ensures
        context_of_pairs(pairs).environment == or_empty(last_value(pairs, "environment"@)),
        context_of_pairs(pairs).app_name == or_empty(last_value(pairs, "appName"@)),
        context_of_pairs(pairs).user_id == last_value(pairs, "userId"@),
        context_of_pairs(pairs).session_id == last_value(pairs, "sessionId"@),
        context_of_pairs(pairs).remote_address == (match last_value(pairs, "remoteAddress"@) {
            Some(v) => remote_address_of(v),
            None => None,
        }),
        context_of_pairs(pairs).properties.contains_key(name) == (last_value(
            pairs,
            property_key(name),
        ) is Some),
        last_value(pairs, property_key(name)) matches Some(v) ==> context_of_pairs(
            pairs,
        ).properties[name] == v,
    decreases pairs.len(),
{
    reveal_strlit("environment");
    reveal_strlit("appName");
    reveal_strlit("userId");
    reveal_strlit("sessionId");
    reveal_strlit("remoteAddress");
    lemma_property_key_shape(name);
    if pairs.len() > 0 {
        lemma_context_fields_from_last_pairs(pairs.drop_last(), name);
        let k = pairs.last().0;
        if is_property_key(k) {
            assert(property_key(property_name(k)) =~= k);
        }
    }
}

/// A query pair whose key is none that the proxy reads leaves the context as
/// it was.
pub proof fn lemma_unknown_key_ignored(c: ContextView, k: Seq<char>, v: Seq<char>)
    requires
        k != "environment"@,
        k != "appName"@,
        k != "userId"@,
        k != "sessionId"@,
        k != "remoteAddress"@,
        !is_property_key(k),
    ensures
        apply_pair(c, k, v) == c,
{
}

} // verus!
