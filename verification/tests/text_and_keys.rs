use orderbook_back::keys;
use orderbook_back::lookup::{component_keys, find_component, find_token, first_index, token_keys};
use orderbook_back::text::{chars_of, contains, decimal_text, lower_all, precedes, split_text};
use orderbook_back::types::{Component, Token};
use orderbook_back::types::StreamState;

#[test]
fn status_key_lowercases_the_network() {
    assert_eq!(keys::status("Ethereum".to_string()), "stream:status:ethereum");
}

#[test]
fn latest_key_lowercases_the_network() {
    assert_eq!(keys::latest("BASE".to_string()), "stream:latest:base");
}

#[test]
fn updated_key_lowercases_the_network() {
    assert_eq!(keys::updated("Unichain".to_string()), "stream:updated:unichain");
}

#[test]
fn tokens_key_lowercases_the_network() {
    assert_eq!(keys::tokens("Ethereum".to_string()), "stream:tokens:ethereum");
}

#[test]
fn components_key_lowercases_the_network() {
    assert_eq!(keys::components("Ethereum".to_string()), "stream:components:ethereum");
}

#[test]
fn orderbook_key_lowercases_network_and_tag() {
    assert_eq!(
        keys::orderbook("Ethereum".to_string(), "0xAbC-0xDEF".to_string()),
        "stream:orderbook:ethereum:0xabc-0xdef"
    );
}

#[test]
fn component_key_lowercases_the_identifier_only() {
    assert_eq!(
        keys::component("Ethereum".to_string(), "0xPOOL".to_string()),
        "stream:Ethereum:component:0xpool"
    );
}

fn texts(v: &[&str]) -> Vec<String> {
    v.iter().map(|s| s.to_string()).collect()
}

fn token(address: &str) -> Token {
    Token { address: address.to_string(), symbol: "T".to_string(), decimals: 18, quality: 100 }
}

fn pool(id: &str) -> Component {
    Component {
        id: id.to_string(),
        protocol_system: "uniswap_v2".to_string(),
        tokens: vec![token("0xAAAA"), token("0xbbbb")],
        static_attributes: vec![],
        last_updated_at: 0,
    }
}

#[test]
fn key_under_a_prefix() {
    assert_eq!(keys::under("stream:status:", "ethereum"), "stream:status:ethereum");
    assert_eq!(keys::under("", ""), "");
    assert_eq!(keys::under_both("stream:orderbook:", "base", "0xa-0xb"), "stream:orderbook:base:0xa-0xb");
}

#[test]
fn first_index_compares_exactly() {
    let keys = texts(&["0xa", "0xb", "0xB", "0xb"]);
    assert_eq!(first_index(&keys, &"0xb".to_string()), Some(1));
    assert_eq!(first_index(&keys, &"0xB".to_string()), Some(2));
    assert_eq!(first_index(&keys, &"0xc".to_string()), None);
    assert_eq!(first_index(&vec![], &"0xa".to_string()), None);
}

#[test]
fn lower_all_lowercases_each_text() {
    assert_eq!(lower_all(&texts(&["0xAB", "0xcd", "0XEF"])), texts(&["0xab", "0xcd", "0xef"]));
    assert_eq!(lower_all(&vec![]), Vec::<String>::new());
}

#[test]
fn keys_of_components_and_tokens_are_lowercase() {
    assert_eq!(component_keys(&vec![pool("0xPOOL1"), pool("0xpool2")]), texts(&["0xpool1", "0xpool2"]));
    assert_eq!(token_keys(&vec![token("0xAAAA"), token("0xbbbb")]), texts(&["0xaaaa", "0xbbbb"]));
}

#[test]
fn components_and_tokens_are_found_letter_case_aside() {
    let pools = vec![pool("0xpool1"), pool("0xPOOL2"), pool("0xpool2")];
    assert_eq!(find_component(&pools, "0XPOOL2"), Some(1));
    assert_eq!(find_component(&pools, "0xpool1"), Some(0));
    assert_eq!(find_component(&pools, "0xpool3"), None);
    let tokens = vec![token("0xAAAA"), token("0xbbbb")];
    assert_eq!(find_token(&tokens, "0xaaaa"), Some(0));
    assert_eq!(find_token(&tokens, "0xBBBB"), Some(1));
    assert_eq!(find_token(&tokens, "0xcccc"), None);
}

#[test]
fn chars_of_keeps_every_character() {
    assert_eq!(chars_of("a-é"), vec!['a', '-', 'é']);
    assert_eq!(chars_of(""), Vec::<char>::new());
}

#[test]
fn decimal_text_of_small_and_large_numbers() {
    assert_eq!(decimal_text(0), "0");
    assert_eq!(decimal_text(7), "7");
    assert_eq!(decimal_text(10), "10");
    assert_eq!(decimal_text(22051447), "22051447");
    assert_eq!(decimal_text(u64::MAX as u128), u64::MAX.to_string());
    assert_eq!(decimal_text(u128::MAX), u128::MAX.to_string());
}

#[test]
fn precedes_is_the_order_of_texts() {
    assert!(precedes("0xa", "0xb"));
    assert!(!precedes("0xb", "0xa"));
    assert!(!precedes("0xa", "0xa"));
    assert!(precedes("0xa", "0xaa"));
    assert!(!precedes("0xaa", "0xa"));
    assert!(precedes("", "a"));
    assert!(!precedes("", ""));
    assert!(precedes("Z", "a"));
    let words = ["", "0", "0x1", "0xA", "0xa", "0xab", "b", "é"];
    for a in words {
        for b in words {
            assert_eq!(precedes(a, b), a < b);
        }
    }
}

#[test]
fn split_text_cuts_at_every_separator() {
    assert_eq!(split_text("0xa-0xb", '-'), vec!["0xa", "0xb"]);
    assert_eq!(split_text("ethereum,base,unichain", ','), vec!["ethereum", "base", "unichain"]);
    assert_eq!(split_text("abc", '-'), vec!["abc"]);
    assert_eq!(split_text("", '-'), vec![""]);
    assert_eq!(split_text("a-", '-'), vec!["a", ""]);
    assert_eq!(split_text("-a", '-'), vec!["", "a"]);
    assert_eq!(split_text("a--b", '-'), vec!["a", "", "b"]);
}

#[test]
fn stream_state_numbers() {
    assert_eq!(StreamState::Down.code(), 1);
    assert_eq!(StreamState::Launching.code(), 2);
    assert_eq!(StreamState::Syncing.code(), 3);
    assert_eq!(StreamState::Running.code(), 4);
    assert_eq!(StreamState::Error.code(), 5);
}

#[test]
fn stream_state_from_number() {
    assert_eq!(StreamState::from_code(Some(1)), StreamState::Down);
    assert_eq!(StreamState::from_code(Some(2)), StreamState::Launching);
    assert_eq!(StreamState::from_code(Some(3)), StreamState::Syncing);
    assert_eq!(StreamState::from_code(Some(4)), StreamState::Running);
    assert_eq!(StreamState::from_code(Some(5)), StreamState::Error);
    assert_eq!(StreamState::from_code(Some(0)), StreamState::Error);
    assert_eq!(StreamState::from_code(Some(77)), StreamState::Error);
    assert_eq!(StreamState::from_code(None), StreamState::Error);
}

#[test]
fn stream_state_names() {
    assert_eq!(StreamState::Down.name(), "Down");
    assert_eq!(StreamState::Launching.name(), "Launching");
    assert_eq!(StreamState::Syncing.name(), "Syncing");
    assert_eq!(StreamState::Running.name(), "Running");
    assert_eq!(StreamState::Error.name(), "Error");
}

#[test]
fn contains_finds_a_part_anywhere() {
    assert!(contains("0x0000-pool", "0x0000"));
    assert!(contains("pool-0x0000", "0x0000"));
    assert!(contains("a0x0000b", "0x0000"));
    assert!(!contains("0x000", "0x0000"));
    assert!(!contains("", "a"));
    assert!(contains("abc", ""));
    assert!(contains("", ""));
    assert!(contains("aab", "ab"));
    assert!(!contains("abab", "ba b"));
    let words = ["", "a", "ab", "ba", "aab", "abab", "é", "aéb"];
    for s in words {
        for p in words {
            assert_eq!(contains(s, p), s.contains(p));
        }
    }
}

#[test]
fn orderbook_key_of_a_pair_lowercases_each_part() {
    assert_eq!(
        keys::orderbook_of("Ethereum".to_string(), "0xAAAA", "0xBbBb"),
        "stream:orderbook:ethereum:0xaaaa-0xbbbb"
    );
    assert_eq!(
        keys::orderbook_of("Base".to_string(), "0xAAAA", "0xBbBb"),
        keys::orderbook("BASE".to_string(), "0xaaaa-0xBBBB".to_string())
    );
}
