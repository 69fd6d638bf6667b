use http::{HeaderMap, HeaderValue};
use orderbook_back::api;
use orderbook_back::getters;
use orderbook_back::types::{Component, Status, Token};

fn with_key(value: &str) -> HeaderMap {
    let mut headers = HeaderMap::new();
    headers.insert("tycho-orderbook-web-api-key", HeaderValue::from_str(value).unwrap());
    headers
}

fn token(address: &str, symbol: &str) -> Token {
    Token { address: address.to_string(), symbol: symbol.to_string(), decimals: 18, quality: 100 }
}

fn pool(id: &str, tokens: Vec<Token>) -> Component {
    Component {
        id: id.to_string(),
        protocol_system: "uniswap_v2".to_string(),
        tokens,
        static_attributes: vec![],
        last_updated_at: 1,
    }
}

#[test]
fn success_envelope() {
    let r = api::wrap(Some(7u32), None, 1_700_000_000);
    assert!(r.success);
    assert_eq!(r.error, "");
    assert_eq!(r.data, Some(7));
    assert_eq!(r.ts, 1_700_000_000);
    assert!(r.ts > 0);
}

#[test]
fn failure_envelope() {
    let r = api::wrap(Some(7u32), Some("API is not yet initialised".to_string()), 1_700_000_000);
    assert!(!r.success);
    assert_eq!(r.error, "API is not yet initialised");
    assert!(!r.error.is_empty());
    assert_eq!(r.data, None);
    assert!(r.ts > 0);
}

#[test]
fn root_greets() {
    let r = api::root(5);
    assert!(r.success);
    assert_eq!(r.data, Some("Gm!".to_string()));
    assert_eq!(r.error, "");
    assert_eq!(r.ts, 5);
}

#[test]
fn version_needs_the_key() {
    let r = api::version(&with_key("42"), "42".to_string(), 5);
    assert!(r.success);
    assert_eq!(r.data.expect("version").version, "0.1.0");
    let r = api::version(&HeaderMap::new(), "42".to_string(), 5);
    assert!(!r.success);
    assert!(r.data.is_none());
    assert_eq!(r.error, "Invalid orderbook API key");
}

#[test]
fn networks_are_listed_for_the_key() {
    let nets = vec!["ethereum".to_string(), "base".to_string()];
    let r = api::networks(&with_key("42"), "42".to_string(), nets.clone(), 5);
    assert!(r.success);
    assert_eq!(r.data, Some(nets.clone()));
    let r = api::networks(&with_key("0"), "42".to_string(), nets, 5);
    assert!(!r.success);
    assert_eq!(r.data, None);
}

#[test]
fn stored_status_needs_both_values() {
    let s = getters::status(Some(4), Some(22051447)).expect("status");
    assert_eq!(s.stream, 4);
    assert_eq!(s.latest, "22051447");
    assert!(getters::status(None, Some(1)).is_none());
    assert!(getters::status(Some(4), None).is_none());
    assert_eq!(getters::status(Some(2), Some(0)).expect("status").latest, "0");
}

#[test]
fn status_endpoint_after_the_first_block() {
    let fetched = getters::status(Some(4), Some(123));
    let r = api::status(&with_key("42"), "42".to_string(), fetched, 9);
    assert!(r.success);
    let data = r.data.expect("status");
    assert_eq!(data.stream, 4);
    assert_eq!(data.latest, "123");
}

#[test]
fn status_endpoint_failures() {
    let r = api::status(&with_key("42"), "42".to_string(), None, 9);
    assert!(!r.success);
    assert_eq!(r.error, "Failed to get status");
    let fetched = Some(Status { stream: 4, latest: "1".to_string() });
    let r = api::status(&with_key("bad"), "42".to_string(), fetched, 9);
    assert!(!r.success);
    assert_eq!(r.error, "Invalid orderbook API key");
    assert!(r.data.is_none());
}

#[test]
fn tokens_endpoint() {
    let r = api::tokens(&with_key("42"), "42".to_string(), Some(vec![token("0xa", "A")]), 9);
    assert!(r.success);
    assert_eq!(r.data.expect("tokens")[0].symbol, "A");
    let r = api::tokens(&with_key("42"), "42".to_string(), None, 9);
    assert_eq!(r.error, "Failed to get tokens");
}

#[test]
fn components_endpoint() {
    let stored = vec![pool("0xpool", vec![token("0xaaaa", "A"), token("0xbbbb", "B")])];
    let r = api::components(&with_key("42"), "42".to_string(), Some(stored), 9);
    assert!(r.success);
    let data = r.data.expect("components");
    assert_eq!(data.len(), 1);
    assert_eq!(data[0].id, "0xpool");
    let r = api::components(&with_key("42"), "42".to_string(), None, 9);
    assert!(!r.success);
    assert_eq!(r.error, "Failed to get components");
}

#[test]
fn pairs_endpoint() {
    let stored = vec![
        pool("pool-a", vec![token("0xb", "B"), token("0xa", "A")]),
        pool("pool-b", vec![token("0xa", "A"), token("0xc", "C")]),
    ];
    let r = api::pairs(&with_key("42"), "42".to_string(), Some(stored), 9);
    assert!(r.success);
    let tags = r.data.expect("pairs");
    assert_eq!(tags.len(), 2);
    assert_eq!(tags[0].addrbase, "0xa");
    assert_eq!(tags[0].addrquote, "0xb");
    assert_eq!(tags[1].addrquote, "0xc");
    let r = api::pairs(&with_key("42"), "42".to_string(), None, 9);
    assert_eq!(r.error, "Failed to generate pair tags");
    assert!(getters::pairs(None).is_none());
}

#[test]
fn execute_endpoint() {
    let r = api::execute(Some("API is not yet initialised".to_string()), Ok(1u8), 9);
    assert!(!r.success);
    assert_eq!(r.error, "API is not yet initialised");
    assert_eq!(r.data, None);
    let r = api::execute(None, Ok(1u8), 9);
    assert!(r.success);
    assert_eq!(r.data, Some(1));
    let r = api::execute::<u8>(None, Err("no route".to_string()), 9);
    assert!(!r.success);
    assert_eq!(r.error, "no route");
}

#[test]
fn orderbook_request_before_the_first_block() {
    let status = Some(Status { stream: 2, latest: "0".to_string() });
    let rejected = orderbook_back::helpers::prevalidation(status, &with_key("42"), false, "42".to_string());
    let r = api::wrap::<String>(None, rejected, 1_700_000_000);
    assert!(!r.success);
    assert_eq!(r.error, "API is not yet initialised");
    assert!(r.ts > 0);
    assert_eq!(r.data, None);
}

#[test]
fn orderbook_request_without_a_route_to_the_native_token() {
    let base = token("0xaaaa", "USDC");
    let reason = match orderbook_back::orderbook::after_quote(false, true, &base) {
        orderbook_back::orderbook::Action::Fail(msg) => Some(msg),
        _ => None,
    };
    let r = api::wrap::<String>(None, reason, 1_700_000_000);
    assert!(!r.success);
    assert_eq!(r.error, "Couldn't find the quote path from USDC to ETH");
    assert_eq!(r.data, None);
}
