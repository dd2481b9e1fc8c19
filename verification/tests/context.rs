use unleash_proxy::context::{address_text_in_bounds, context_from_pairs, request_context, ProxyContext};
use unleash_proxy::url_query::{request_query_pairs, RequestError};

fn pairs(items: &[(&str, &str)]) -> Vec<(String, String)> {
    items.iter().map(|(k, v)| (k.to_string(), v.to_string())).collect()
}

#[test]
fn empty_query_gives_default_context() {
    let c = context_from_pairs(Vec::new());
    assert_eq!(c.environment, "");
    assert_eq!(c.app_name, "");
    assert!(c.user_id.is_none());
    assert!(c.session_id.is_none());
    assert!(c.remote_address.is_none());
    assert_eq!(c.properties.len(), 0);
}

#[test]
fn known_keys_set_fields() {
    let c = context_from_pairs(pairs(&[
        ("environment", "prod"),
        ("appName", "web"),
        ("userId", "u1"),
        ("sessionId", "s1"),
        ("remoteAddress", "10.1.2.3"),
        ("properties[region]", "eu"),
        ("other", "ignored"),
    ]));
    assert_eq!(c.environment, "prod");
    assert_eq!(c.app_name, "web");
    assert_eq!(c.user_id.as_deref(), Some("u1"));
    assert_eq!(c.session_id.as_deref(), Some("s1"));
    let addr = c.remote_address.as_ref().expect("address parses");
    assert_eq!(addr.text, "10.1.2.3");
    assert_eq!(addr.address.as_str(), "10.1.2.3/32");
    assert_eq!(c.properties.len(), 1);
    assert_eq!(c.properties.get("region").map(|s| s.as_str()), Some("eu"));
}

#[test]
fn later_pair_overrides_earlier() {
    let c = context_from_pairs(pairs(&[
        ("userId", "first"),
        ("properties[a]", "1"),
        ("userId", "second"),
        ("properties[a]", "2"),
        ("remoteAddress", "192.168.0.1"),
        ("remoteAddress", "not an address"),
    ]));
    assert_eq!(c.user_id.as_deref(), Some("second"));
    assert_eq!(c.properties.get("a").map(|s| s.as_str()), Some("2"));
    assert!(c.remote_address.is_none());
}

#[test]
fn property_keys_need_both_brackets() {
    let c = context_from_pairs(pairs(&[
        ("properties[", "x"),
        ("properties[open", "x"),
        ("properties.dot", "x"),
        ("properties[]", "empty name"),
    ]));
    assert_eq!(c.properties.len(), 1);
    assert_eq!(c.properties.get("").map(|s| s.as_str()), Some("empty name"));
}

#[test]
fn invalid_remote_address_is_dropped() {
    let c = context_from_pairs(pairs(&[("remoteAddress", "999.1.1.1")]));
    assert!(c.remote_address.is_none());
    let c = context_from_pairs(pairs(&[("remoteAddress", "2001:db8::1")]));
    assert!(c.remote_address.is_some());
}

#[test]
fn query_pairs_are_percent_decoded() {
    let p = request_query_pairs("/?appName=my%20app&properties%5Bk%C3%A9y%5D=v%2Bw&x").ok().unwrap();
    assert_eq!(
        p,
        vec![
            ("appName".to_string(), "my app".to_string()),
            ("properties[kéy]".to_string(), "v+w".to_string()),
            ("x".to_string(), "".to_string()),
        ]
    );
}

#[test]
fn request_context_reads_the_query() {
    let c: ProxyContext =
        request_context("/?environment=dev&properties[team]=a+b&userId=42").ok().unwrap();
    assert_eq!(c.environment, "dev");
    assert_eq!(c.user_id.as_deref(), Some("42"));
    assert_eq!(c.properties.get("team").map(|s| s.as_str()), Some("a b"));
}

#[test]
fn request_without_query_gives_empty_context() {
    let c = request_context("/").ok().unwrap();
    assert_eq!(c.properties.len(), 0);
    assert!(c.user_id.is_none());
}

#[test]
fn unresolvable_uri_is_refused() {
    assert!(matches!(
        request_query_pairs("http://[zz/?a=b"),
        Err(RequestError::BadUri)
    ));
    assert!(request_context("http://[zz/").is_err());
}

#[test]
fn absolute_uri_keeps_its_own_query() {
    let p = request_query_pairs("http://other.example.com/x?userId=7#frag").ok().unwrap();
    assert_eq!(p, vec![("userId".to_string(), "7".to_string())]);
}

#[test]
fn remote_address_keeps_canonical_ipv6() {
    let c = context_from_pairs(pairs(&[("remoteAddress", "2001:0db8:0:0:0:0:0:1")]));
    let addr = c.remote_address.as_ref().expect("address parses");
    assert_eq!(addr.text, "2001:0db8:0:0:0:0:0:1");
    assert_eq!(addr.address.as_str(), "2001:db8::1/128");
    let c = context_from_pairs(pairs(&[("remoteAddress", "::ffff:10.0.0.1")]));
    assert!(c.remote_address.is_some());
}

#[test]
fn remote_address_with_too_many_colons_is_dropped() {
    let c = context_from_pairs(pairs(&[("remoteAddress", "1:2:3:4:5:6:7:8:9::")]));
    assert!(c.remote_address.is_none());
    let c = context_from_pairs(pairs(&[
        ("remoteAddress", "10.0.0.1"),
        ("remoteAddress", "1:2:3:4:5:6:7:8:9:10"),
    ]));
    assert!(c.remote_address.is_none());
}

#[test]
fn form_pieces_are_split_and_decoded() {
    let p = request_query_pairs("/?a=1&&b=x=y&c=%zz&d=%41+%2b&=v&&").ok().unwrap();
    assert_eq!(
        p,
        vec![
            ("a".to_string(), "1".to_string()),
            ("b".to_string(), "x=y".to_string()),
            ("c".to_string(), "%zz".to_string()),
            ("d".to_string(), "A +".to_string()),
            ("".to_string(), "v".to_string()),
        ]
    );
}

#[test]
fn request_context_takes_the_last_remote_address() {
    let c = request_context("/?remoteAddress=127.0.0.1&remoteAddress=bad").ok().unwrap();
    assert!(c.remote_address.is_none());
    let c = request_context("/?remoteAddress=bad&remoteAddress=127.0.0.1").ok().unwrap();
    assert_eq!(c.remote_address.as_ref().map(|a| a.address.as_str()), Some("127.0.0.1/32"));
}

#[test]
fn nine_colon_addresses_are_kept() {
    let c = context_from_pairs(pairs(&[("remoteAddress", "::1:2:3:4:5:6:7:8")]));
    let addr = c.remote_address.as_ref().expect("address parses");
    assert_eq!(addr.address.as_str(), "1:2:3:4:5:6:7:8/128");
    let c = context_from_pairs(pairs(&[("remoteAddress", "1:2:3:4:5:6:7:8::")]));
    let addr = c.remote_address.as_ref().expect("address parses");
    assert_eq!(addr.address.as_str(), "1:2:3:4:5:6:7:8/128");
}

#[test]
fn overlong_netmask_is_dropped() {
    let c = context_from_pairs(pairs(&[("remoteAddress", "10.0.0.1/1:2:3:4:5:6:7:8:9::")]));
    assert!(c.remote_address.is_none());
    let c = context_from_pairs(pairs(&[("remoteAddress", "10.0.0.1/24")]));
    assert_eq!(c.remote_address.as_ref().map(|a| a.address.as_str()), Some("10.0.0.1/24"));
}

#[test]
fn address_bound_counts_groups_before_double_colon() {
    assert!(address_text_in_bounds("1:2:3:4:5:6:7:8::"));
    assert!(address_text_in_bounds("::1:2:3:4:5:6:7:8:9:10"));
    assert!(address_text_in_bounds("1:2:3:4:5:6:7:8:9"));
    assert!(!address_text_in_bounds("1:2:3:4:5:6:7:8:9::"));
    assert!(!address_text_in_bounds("x/1:2:3:4:5:6:7:8:9::"));
    assert!(address_text_in_bounds("x/y/1:2:3:4:5:6:7:8:9::"));
    assert!(address_text_in_bounds(""));
}
