use orderbook_back::orderbook::{
    after_attach, after_build, after_consult, after_load, after_quote, matchcp, no_pools,
    resolve_targets, select_pools, targets_of, Action,
};
use orderbook_back::lookup::holds_text;
use orderbook_back::types::{Component, Token};

fn token(address: &str, symbol: &str) -> Token {
    Token { address: address.to_string(), symbol: symbol.to_string(), decimals: 18, quality: 100 }
}

fn pool(id: &str, tokens: Vec<Token>) -> Component {
    Component {
        id: id.to_string(),
        protocol_system: "uniswap_v2".to_string(),
        tokens,
        static_attributes: vec![],
        last_updated_at: 1,
    }
}

fn texts(v: &[&str]) -> Vec<String> {
    v.iter().map(|s| s.to_string()).collect()
}

fn failure(action: Action) -> String {
    match action {
        Action::Fail(msg) => msg,
        _ => panic!("no failure"),
    }
}

#[test]
fn request_needs_tokens_and_components() {
    assert_eq!(after_load(true, true), None);
    assert_eq!(after_load(false, true), Some("Couldn't not read internal components".to_string()));
    assert_eq!(after_load(true, false), Some("Couldn't not read internal components".to_string()));
    assert_eq!(after_load(false, false), Some("Couldn't not read internal components".to_string()));
}

#[test]
fn targets_from_the_two_lookups() {
    assert_eq!(targets_of(Some(3), Some(1)), Ok((3, 1)));
    assert_eq!(targets_of(None, Some(1)), Err("Couldn't find tokens[0]".to_string()));
    assert_eq!(targets_of(None, None), Err("Couldn't find tokens[0]".to_string()));
    assert_eq!(targets_of(Some(3), None), Err("Couldn't find tokens[1]".to_string()));
}

#[test]
fn reason_for_a_pair_without_pools() {
    assert_eq!(
        no_pools("usdc", "weth"),
        "ProtoTychoState: pair usdc-weth requested has 0 associated pools and multi-hop is not enabled yet."
    );
}

#[test]
fn tag_names_base_and_quote() {
    let tokens = vec![token("0xCCCC", "C"), token("0xaaaa", "A"), token("0xBBBB", "B")];
    assert_eq!(resolve_targets(&tokens, "0xAAAA-0xbbbb"), Ok((1, 2)));
    assert_eq!(resolve_targets(&tokens, "0xbbbb-0xaaaa"), Ok((2, 1)));
    assert_eq!(resolve_targets(&tokens, "0xaaaa-0xaaaa"), Ok((1, 1)));
    assert_eq!(resolve_targets(&tokens, "0xaaaa-0xbbbb-0xcccc"), Ok((1, 2)));
}

#[test]
fn unknown_base_is_reported_first() {
    let tokens = vec![token("0xaaaa", "A"), token("0xbbbb", "B")];
    assert_eq!(resolve_targets(&tokens, "0xdddd-0xbbbb"), Err("Couldn't find tokens[0]".to_string()));
    assert_eq!(resolve_targets(&tokens, "0xdddd-0xeeee"), Err("Couldn't find tokens[0]".to_string()));
    assert_eq!(resolve_targets(&vec![], "0xaaaa-0xbbbb"), Err("Couldn't find tokens[0]".to_string()));
}

#[test]
fn unknown_or_missing_quote_is_reported() {
    let tokens = vec![token("0xaaaa", "A"), token("0xbbbb", "B")];
    assert_eq!(resolve_targets(&tokens, "0xaaaa-0xeeee"), Err("Couldn't find tokens[1]".to_string()));
    assert_eq!(resolve_targets(&tokens, "0xaaaa"), Err("Couldn't find tokens[1]".to_string()));
    assert_eq!(resolve_targets(&tokens, "0xaaaa-"), Err("Couldn't find tokens[1]".to_string()));
}

#[test]
fn pool_matches_when_it_holds_both_tokens() {
    let a = token("0xaaaa", "A");
    let b = token("0xBBBB", "B");
    let c = token("0xcccc", "C");
    assert!(matchcp(&pool("p", vec![b.clone(), c.clone(), token("0xAAAA", "A")]), &a, &b));
    assert!(!matchcp(&pool("p", vec![a.clone(), c.clone()]), &a, &b));
    assert!(!matchcp(&pool("p", vec![]), &a, &b));
}

#[test]
fn holds_text_compares_exactly() {
    let list = texts(&["0xpool1", "0xpool2"]);
    assert!(holds_text(&list, &"0xpool2".to_string()));
    assert!(!holds_text(&list, &"0xPOOL2".to_string()));
    assert!(!holds_text(&vec![], &"0xpool2".to_string()));
}

#[test]
fn pools_of_a_request() {
    let a = token("0xaaaa", "A");
    let b = token("0xbbbb", "B");
    let w = token("0xeeee", "WETH");
    let components = vec![
        pool("0xPOOL0", vec![a.clone(), b.clone()]),
        pool("0xpool1", vec![a.clone(), w.clone()]),
        pool("0xpool2", vec![b.clone(), a.clone(), w.clone()]),
        pool("0xpool3", vec![b.clone(), w.clone()]),
        pool("0xpool4", vec![w.clone()]),
    ];
    let (pair, routed) = select_pools(&components, &a, &b, &texts(&["0xpool1"]), &texts(&["0xpool3", "0xpool0"]));
    assert_eq!(pair, vec![0, 2]);
    assert_eq!(routed, vec![0, 1, 3]);
    let (pair, routed) = select_pools(&components, &a, &b, &vec![], &vec![]);
    assert_eq!(pair, vec![0, 2]);
    assert!(routed.is_empty());
}

#[test]
fn request_without_pools_fails() {
    let msg = failure(after_attach(false, 0, &token("0xa", "USDC"), &token("0xb", "WETH")));
    assert_eq!(
        msg,
        "ProtoTychoState: pair usdc-weth requested has 0 associated pools and multi-hop is not enabled yet."
    );
    let msg = failure(after_attach(true, 0, &token("0xa", "USDC"), &token("0xb", "WETH")));
    assert!(msg.contains("has 0 associated pools and multi-hop is not enabled"));
}

#[test]
fn full_request_looks_for_a_stored_orderbook() {
    assert!(matches!(after_attach(false, 2, &token("0xa", "A"), &token("0xb", "B")), Action::Consult));
}

#[test]
fn single_point_request_never_touches_the_store() {
    assert!(matches!(after_attach(true, 2, &token("0xa", "A"), &token("0xb", "B")), Action::Quote));
    assert!(matches!(after_build(true, "ethereum".to_string(), "0xa", "0xb"), Action::Reply));
}

#[test]
fn stored_orderbook_is_the_answer_when_fresh() {
    assert!(matches!(after_consult(true), Action::Reply));
    assert!(matches!(after_consult(false), Action::Quote));
}

#[test]
fn missing_valuation_fails() {
    let base = token("0xa", "USDC");
    assert_eq!(failure(after_quote(false, true, &base)), "Couldn't find the quote path from USDC to ETH");
    assert_eq!(failure(after_quote(true, false, &base)), "Couldn't find the quote path from USDC to ETH");
    assert_eq!(failure(after_quote(false, false, &base)), "Couldn't find the quote path from USDC to ETH");
    assert!(matches!(after_quote(true, true, &base), Action::Build));
}

#[test]
fn built_orderbook_is_stored_under_its_pair() {
    match after_build(false, "Ethereum".to_string(), "0xAAAA", "0xBbBb") {
        Action::Store(key) => assert_eq!(key, "stream:orderbook:ethereum:0xaaaa-0xbbbb"),
        _ => panic!("not stored"),
    }
}
