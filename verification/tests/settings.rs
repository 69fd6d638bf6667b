use orderbook_back::data;
use orderbook_back::misc::{api_port, enabled_networks, heartbeat_due, heartbeat_url, parse_number, top_pairs};
use orderbook_back::types::{EnvAPIConfig, Status, StreamState};

fn config(port: &str) -> EnvAPIConfig {
    EnvAPIConfig::new(
        "Ethereum,BASE",
        "hb1,hb2",
        "https://example.org".to_string(),
        "true",
        "tycho".to_string(),
        "web".to_string(),
        port.to_string(),
    )
}

fn texts(v: &[&str]) -> Vec<String> {
    v.iter().map(|s| s.to_string()).collect()
}

#[test]
fn configuration_from_its_settings() {
    let c = config("42042");
    assert_eq!(c.networks, texts(&["ethereum", "base"]));
    assert_eq!(c.heartbeats, texts(&["hb1", "hb2"]));
    assert_eq!(c.origin, "https://example.org");
    assert!(c.testing);
    assert_eq!(c.tycho_api_key, "tycho");
    assert_eq!(c.web_api_key, "web");
    assert_eq!(c.api_port, "42042");
}

#[test]
fn testing_is_on_only_for_true() {
    let c = EnvAPIConfig::new("a", "", String::new(), "TRUE", String::new(), String::new(), String::new());
    assert!(!c.testing);
    assert_eq!(c.networks, texts(&["a"]));
    assert_eq!(c.heartbeats, texts(&[""]));
    let c = EnvAPIConfig::new("", "x", String::new(), "false", String::new(), String::new(), String::new());
    assert!(!c.testing);
    assert_eq!(c.networks, texts(&[""]));
}

#[test]
fn port_is_read_or_defaults() {
    assert_eq!(api_port(&config("8080")), 8080);
    assert_eq!(api_port(&config("+443")), 443);
    assert_eq!(api_port(&config("00080")), 80);
    assert_eq!(api_port(&config("65535")), 65535);
    assert_eq!(api_port(&config("65536")), 42042);
    assert_eq!(api_port(&config("")), 42042);
    assert_eq!(api_port(&config("+")), 42042);
    assert_eq!(api_port(&config("-1")), 42042);
    assert_eq!(api_port(&config(" 80")), 42042);
    assert_eq!(api_port(&config("80a")), 42042);
}

#[test]
fn networks_in_use_are_picked_by_lowercased_name() {
    let known = texts(&["Ethereum", "base", "Unichain"]);
    assert_eq!(enabled_networks(&known, &texts(&["unichain", "ethereum"])), vec![0, 2]);
    assert_eq!(enabled_networks(&known, &texts(&["Ethereum"])), Vec::<usize>::new());
    assert_eq!(enabled_networks(&known, &vec![]), Vec::<usize>::new());
}

#[test]
fn heartbeat_needs_a_block_and_a_running_stream() {
    assert!(heartbeat_due(&Status { stream: 4, latest: "22051447".to_string() }));
    assert!(!heartbeat_due(&Status { stream: 4, latest: "0".to_string() }));
    assert!(!heartbeat_due(&Status { stream: 3, latest: "22051447".to_string() }));
    assert!(!heartbeat_due(&Status { stream: 4, latest: "none".to_string() }));
}

#[test]
fn heartbeat_address() {
    assert_eq!(heartbeat_url("abc123"), "https://uptime.betterstack.com/api/v1/heartbeat/abc123");
}

#[test]
fn most_asked_pairs() {
    let pairs = top_pairs();
    assert_eq!(
        pairs,
        texts(&[
            "DAI-WETH", "DOGE-WETH", "WBTC-WETH", "PEPE-WETH", "USDC-WETH", "AAVE-WETH", "UNI-WETH",
            "DAI-USDC", "DAI-USDT", "AAVE-WETH", "LINK-WETH", "WBTC-USDC", "WBTC-USDT", "DAI-FRAX",
        ])
    );
}

#[test]
fn stored_status_number_reads_as_a_state() {
    assert_eq!(data::status(Some(4)), StreamState::Running);
    assert_eq!(data::status(Some(1)), StreamState::Down);
    assert_eq!(data::status(Some(9)), StreamState::Error);
    assert_eq!(data::status(None), StreamState::Error);
}

#[test]
fn wait_is_over_when_running() {
    assert!(data::wstatus(Some(4)));
    assert!(!data::wstatus(Some(3)));
    assert!(!data::wstatus(None));
}

#[test]
fn store_address() {
    assert_eq!(data::endpoint(None), "redis://127.0.0.1:7777");
    assert_eq!(data::endpoint(Some("cache:6379".to_string())), "redis://cache:6379");
}

#[test]
fn numbers_are_read_as_the_standard_library_reads_them() {
    let texts = [
        "", "0", "7", "+7", "++7", "-7", "+", "007", "65535", "65536", "99999", "1a", "a1", " 1", "1 ",
        "1_000", "18446744073709551615", "18446744073709551616", "99999999999999999999999", "٣",
    ];
    for t in texts {
        assert_eq!(parse_number(t, 65535), t.parse::<u16>().ok().map(|n| n as u64));
        assert_eq!(parse_number(t, u64::MAX), t.parse::<u64>().ok());
    }
    assert_eq!(parse_number("6", 5), None);
    assert_eq!(parse_number("5", 5), Some(5));
    assert_eq!(parse_number("0", 0), Some(0));
}

#[test]
fn latest_block_written_as_decimal_reads_back() {
    for n in [0u64, 1, 9, 10, 22051447, u64::MAX] {
        let written = orderbook_back::text::decimal_text(n as u128);
        assert_eq!(parse_number(&written, u64::MAX), Some(n));
    }
}
