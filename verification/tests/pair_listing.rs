use orderbook_back::pairs::{generate_pair_tags, insert_pair, make_pair, pair_precedes};
use orderbook_back::types::{Component, PairTag, Token};

fn token(address: &str, symbol: &str) -> Token {
    Token { address: address.to_string(), symbol: symbol.to_string(), decimals: 18, quality: 100 }
}

fn component(id: &str, tokens: Vec<Token>) -> Component {
    Component {
        id: id.to_string(),
        protocol_system: "uniswap_v2".to_string(),
        tokens,
        static_attributes: vec![],
        last_updated_at: 0,
    }
}

fn keys_of(tags: &Vec<PairTag>) -> Vec<(String, String)> {
    tags.iter().map(|t| (t.addrbase.clone(), t.addrquote.clone())).collect()
}

fn key(a: &str, b: &str) -> (String, String) {
    (a.to_string(), b.to_string())
}

#[test]
fn pairs_of_three_components_collapse_and_sort() {
    let a = token("0xaaaa", "A");
    let b = token("0xbbbb", "B");
    let c = token("0xcccc", "C");
    let components = vec![
        component("pool-a", vec![a.clone(), b.clone()]),
        component("pool-b", vec![b.clone(), a.clone()]),
        component("pool-c", vec![a.clone(), c.clone()]),
    ];
    let tags = generate_pair_tags(&components);
    assert_eq!(keys_of(&tags), vec![key("0xaaaa", "0xbbbb"), key("0xaaaa", "0xcccc")]);
    assert_eq!(tags[0].base, "A");
    assert_eq!(tags[0].quote, "B");
    assert_eq!(tags[1].base, "A");
    assert_eq!(tags[1].quote, "C");
}

#[test]
fn pair_puts_the_smaller_address_first() {
    let tag = make_pair(&token("0xbbbb", "B"), &token("0xaaaa", "A"));
    assert_eq!(tag.addrbase, "0xaaaa");
    assert_eq!(tag.addrquote, "0xbbbb");
    assert_eq!(tag.base, "A");
    assert_eq!(tag.quote, "B");
    let tag = make_pair(&token("0xaaaa", "A"), &token("0xbbbb", "B"));
    assert_eq!(tag.addrbase, "0xaaaa");
    assert_eq!(tag.base, "A");
}

#[test]
fn pair_of_equal_addresses_keeps_the_order_given() {
    let tag = make_pair(&token("0xaaaa", "First"), &token("0xaaaa", "Second"));
    assert_eq!(tag.base, "First");
    assert_eq!(tag.quote, "Second");
}

#[test]
fn components_with_fewer_than_two_tokens_give_no_pair() {
    let components = vec![component("pool-a", vec![token("0xaaaa", "A")]), component("pool-b", vec![])];
    assert!(generate_pair_tags(&components).is_empty());
    assert!(generate_pair_tags(&vec![]).is_empty());
}

#[test]
fn component_of_three_tokens_gives_three_pairs() {
    let components =
        vec![component("pool-a", vec![token("0xc", "C"), token("0xa", "A"), token("0xb", "B")])];
    let tags = generate_pair_tags(&components);
    assert_eq!(keys_of(&tags), vec![key("0xa", "0xb"), key("0xa", "0xc"), key("0xb", "0xc")]);
    assert_eq!(tags[1].base, "A");
    assert_eq!(tags[1].quote, "C");
}

#[test]
fn symbols_come_from_the_first_time_a_pair_is_met() {
    let components = vec![
        component("pool-a", vec![token("0xa", "A-old"), token("0xb", "B-old")]),
        component("pool-b", vec![token("0xb", "B-new"), token("0xa", "A-new")]),
    ];
    let tags = generate_pair_tags(&components);
    assert_eq!(tags.len(), 1);
    assert_eq!(tags[0].base, "A-old");
    assert_eq!(tags[0].quote, "B-old");
}

#[test]
fn listing_the_pairs_of_a_listing_changes_nothing() {
    let components = vec![
        component("pool-a", vec![token("0xd", "D"), token("0xa", "A"), token("0xc", "C")]),
        component("pool-b", vec![token("0xb", "B"), token("0xa", "A")]),
        component("pool-c", vec![token("0xc", "C"), token("0xd", "D")]),
    ];
    let tags = generate_pair_tags(&components);
    let again: Vec<Component> = tags
        .iter()
        .map(|t| component("p", vec![token(&t.addrbase, &t.base), token(&t.addrquote, &t.quote)]))
        .collect();
    let second = generate_pair_tags(&again);
    assert_eq!(keys_of(&second), keys_of(&tags));
    for (x, y) in tags.iter().zip(second.iter()) {
        assert_eq!(x.base, y.base);
        assert_eq!(x.quote, y.quote);
    }
    for w in tags.windows(2) {
        assert!((&w[0].addrbase, &w[0].addrquote) < (&w[1].addrbase, &w[1].addrquote));
    }
    for t in &tags {
        assert!(t.addrbase < t.addrquote);
    }
}

#[test]
fn pair_order_goes_by_base_then_quote() {
    let ab = make_pair(&token("0xa", "A"), &token("0xb", "B"));
    let ac = make_pair(&token("0xa", "A"), &token("0xc", "C"));
    let bc = make_pair(&token("0xb", "B"), &token("0xc", "C"));
    assert!(pair_precedes(&ab, &ac));
    assert!(pair_precedes(&ac, &bc));
    assert!(!pair_precedes(&bc, &ab));
    assert!(!pair_precedes(&ab, &ab));
}

#[test]
fn insert_pair_keeps_order_and_skips_known_pairs() {
    let mut out: Vec<PairTag> = Vec::new();
    insert_pair(&mut out, make_pair(&token("0xb", "B"), &token("0xc", "C")));
    insert_pair(&mut out, make_pair(&token("0xa", "A"), &token("0xb", "B")));
    insert_pair(&mut out, make_pair(&token("0xc", "C-new"), &token("0xb", "B-new")));
    insert_pair(&mut out, make_pair(&token("0xa", "A"), &token("0xc", "C")));
    assert_eq!(keys_of(&out), vec![key("0xa", "0xb"), key("0xa", "0xc"), key("0xb", "0xc")]);
    assert_eq!(out[2].base, "B");
}
