//! Configuration, the networks in use, and the heartbeat.

use crate::lookup::{holds_text, places};
use crate::text::{chars_of, decimal, digit, lowercase, split, split_text, texts, to_lower};
use crate::types::{EnvAPIConfig, Status};
use vstd::prelude::*;
use vstd::string::*;

verus! {

/// A decimal digit.
pub open spec fn is_digit(c: char) -> bool {
    48 <= c as u32 <= 57
}

/// A text of one or more decimal digits.
pub open spec fn all_digits(s: Seq<char>) -> bool {
    s.len() > 0 && forall|i: int| 0 <= i < s.len() ==> is_digit(#[trigger] s[i])
}

/// The number that a text of decimal digits writes.
pub open spec fn digits_value(s: Seq<char>) -> nat
    decreases s.len(),
{
    if s.len() == 0 {
        0
    } else {
        digits_value(s.drop_last()) * 10 + ((s.last() as u32 - 48) as nat)
    }
}

/// A text without its leading plus sign, if it has one.
pub open spec fn unsigned(s: Seq<char>) -> Seq<char> {
    if s.len() > 0 && s[0] == '+' {
        s.drop_first()
    } else {
        s
    }
}

/// The number that a text writes, where it is made of decimal digits after
/// at most one plus sign and the number is no greater than `max`.
pub open spec fn parsed_number(s: Seq<char>, max: nat) -> Option<nat> {
    if all_digits(unsigned(s)) && digits_value(unsigned(s)) <= max {
        Some(digits_value(unsigned(s)))
    } else {
        None
    }
}

proof fn decimal_is_digits(n: nat)
    ensures
        all_digits(decimal(n)),
        digits_value(decimal(n)) == n,
        decimal(n)[0] != '+',
    decreases n,
{
    if n < 10 {
        let s = decimal(n);
        assert(s.drop_last() =~= Seq::<char>::empty());
        assert(digits_value(s.drop_last()) == 0);
        assert(s.last() == digit(n as int));
    } else {
        decimal_is_digits(n / 10);
        let head = decimal(n / 10);
        let s = decimal(n);
        assert(s.drop_last() =~= head);
        assert(s.last() == digit((n % 10) as int));
        assert(s[0] == head[0]);
        assert forall|i: int| 0 <= i < s.len() implies is_digit(#[trigger] s[i]) by {
            if i < head.len() {
                assert(s[i] == head[i]);
            }
        }
    }
}

/// A number written as a decimal numeral reads back as itself.
pub proof fn decimal_reads_back(n: nat, max: nat)
    requires
        n <= max,
    ensures
        parsed_number(decimal(n), max) == Some(n),
{
    decimal_is_digits(n);
}

proof fn digits_value_grows(s: Seq<char>, k: int)
    requires
        0 <= k <= s.len(),
    ensures
        digits_value(s.take(k)) <= digits_value(s),
    decreases s.len() - k,
{
    if k < s.len() {
        digits_value_grows(s, k + 1);
        assert(s.take(k + 1).drop_last() =~= s.take(k));
    } else {
        assert(s.take(k) =~= s);
    }
}

/// Reads a number no greater than `max`: decimal digits after at most one
/// plus sign, and nothing else.
pub fn parse_number(s: &str, max: u64) -> (r: Option<u64>)
    ensures
        match parsed_number(s@, max as nat) {
            Some(n) => r == Some(n as u64),
            None => r is None,
        },
{
    let cs = chars_of(s);
    let start: usize = if cs.len() > 0 && cs[0] == '+' {
        1
    } else {
        0
    };
    let ghost body = unsigned(s@);
    assert(body =~= s@.skip(start as int));
    if start == cs.len() {
        return None;
    }
    let mut acc: u64 = 0;
    let mut i: usize = start;
    assert(body.take(0) =~= Seq::<char>::empty());
    while i < cs.len()
        invariant
            start <= i <= cs.len(),
            cs@ == s@,
            body == unsigned(s@),
            body == s@.skip(start as int),
            body.len() == cs.len() - start,
            body.len() > 0,
            forall|k: int| 0 <= k < i - start ==> is_digit(#[trigger] body[k]),
            acc == digits_value(body.take(i - start)),
            acc <= max,
        decreases cs.len() - i,
    {
        let c: char = cs[i];
        let d: u32 = c as u32;
        assert(body[i - start] == c);
        if d < 48 || d > 57 {
            assert(!is_digit(body[i - start]));
            return None;
        }
        let v: u64 = (d - 48) as u64;
        proof {
            assert(body.take(i - start + 1).drop_last() =~= body.take(i - start));
            assert(body.take(i - start + 1).last() == c);
            assert(digits_value(body.take(i - start + 1)) == acc * 10 + v);
            digits_value_grows(body, i - start + 1);
        }
        if v > max || acc > (max - v) / 10 {
            return None;
        }
        acc = acc * 10 + v;
        i += 1;
    }
    assert(body.take(i - start) =~= body);
    Some(acc)
}

impl EnvAPIConfig {
    /// The configuration from the values of its settings, as texts: the
    /// networks, lowercased, and the heartbeat identifiers are lists
    /// separated by commas; testing is on where its setting reads `true`.
    pub fn new(
        networks: &str,
        heartbeats: &str,
        origin: String,
        testing: &str,
        tycho_api_key: String,
        web_api_key: String,
        api_port: String,
    ) -> (r: EnvAPIConfig)
        ensures
            texts(r.networks@) == split(lowercase(networks@), ','),
            texts(r.heartbeats@) == split(heartbeats@, ','),
            r.testing == (testing@ == "true"@),
            r.origin == origin,
            r.tycho_api_key == tycho_api_key,
            r.web_api_key == web_api_key,
            r.api_port == api_port,
    {
        let lower = to_lower(networks);
        let networks = split_text(lower.as_str(), ',');
        let heartbeats = split_text(heartbeats, ',');
        let testing = String::from_str(testing) == String::from_str("true");
        EnvAPIConfig {
            testing,
            tycho_api_key,
            networks,
            heartbeats,
            origin,
            web_api_key,
            api_port,
        }
    }
}

/// The port that the API listens on: the number that the setting writes,
/// or 42042 where it writes none that a port can be.
pub fn api_port(config: &EnvAPIConfig) -> (r: u16)
    ensures
        r == match parsed_number(config.api_port@, 65535) {
            Some(p) => p as u16,
            None => 42042u16,
        },
{
    match parse_number(config.api_port.as_str(), 65535) {
        Some(p) => p as u16,
        None => 42042,
    }
}

/// The places of the first `n` known networks that are in use: those whose
/// lowercased name is one of the targets.
pub open spec fn enabled(names: Seq<Seq<char>>, targets: Seq<Seq<char>>, n: int) -> Seq<int>
    decreases n,
{
    if n <= 0 {
        Seq::empty()
    } else if targets.contains(lowercase(names[n - 1])) {
        enabled(names, targets, n - 1).push(n - 1)
    } else {
        enabled(names, targets, n - 1)
    }
}

/// Picks the networks in use among the known ones, by their places.
pub fn enabled_networks(names: &Vec<String>, targets: &Vec<String>) -> (r: Vec<usize>)
    ensures
        places(r@) == enabled(texts(names@), texts(targets@), names@.len() as int),
        forall|i: int| 0 <= i < r@.len() ==> r@[i] < names@.len(),
{
    let mut out: Vec<usize> = Vec::new();
    let mut i: usize = 0;
    assert(places(out@) =~= Seq::empty());
    while i < names.len()
        invariant
            i <= names.len(),
            places(out@) == enabled(texts(names@), texts(targets@), i as int),
            forall|j: int| 0 <= j < out@.len() ==> out@[j] < names@.len(),
        decreases names.len() - i,
    {
        let ghost before = places(out@);
        assert(texts(names@)[i as int] == names[i as int]@);
        let name = to_lower(names[i].as_str());
        if holds_text(targets, &name) {
            out.push(i);
            assert(places(out@) =~= before.push(i as int));
        }
        i += 1;
    }
    out
}

/// Whether a heartbeat is due for a network's status: it is when the
/// latest block is a number above zero and the stream is running.
pub fn heartbeat_due(status: &Status) -> (r: bool)
    ensures
        r == (status.stream == 4 && parsed_number(status.latest@, 18446744073709551615) is Some
            && parsed_number(status.latest@, 18446744073709551615)->0 > 0),
{
    match parse_number(status.latest.as_str(), u64::MAX) {
        Some(n) => n > 0 && status.stream == 4,
        None => false,
    }
}

/// The address to call for a heartbeat.
pub fn heartbeat_url(endpoint: &str) -> (r: String)
    ensures
        r@ == "https://uptime.betterstack.com/api/v1/heartbeat/"@ + endpoint@,
{
    String::from_str("https://uptime.betterstack.com/api/v1/heartbeat/").concat(endpoint)
}

/// The pairs that are asked for most.
pub fn top_pairs() -> (r: Vec<String>)
    ensures
        texts(r@) == seq![
            "DAI-WETH"@,
            "DOGE-WETH"@,
            "WBTC-WETH"@,
            "PEPE-WETH"@,
            "USDC-WETH"@,
            "AAVE-WETH"@,
            "UNI-WETH"@,
            "DAI-USDC"@,
            "DAI-USDT"@,
            "AAVE-WETH"@,
            "LINK-WETH"@,
            "WBTC-USDC"@,
            "WBTC-USDT"@,
            "DAI-FRAX"@,
        ],
{
    let mut v: Vec<String> = Vec::new();
    v.push(String::from_str("DAI-WETH"));
    v.push(String::from_str("DOGE-WETH"));
    v.push(String::from_str("WBTC-WETH"));
    v.push(String::from_str("PEPE-WETH"));
    v.push(String::from_str("USDC-WETH"));
    v.push(String::from_str("AAVE-WETH"));
    v.push(String::from_str("UNI-WETH"));
    v.push(String::from_str("DAI-USDC"));
    v.push(String::from_str("DAI-USDT"));
    v.push(String::from_str("AAVE-WETH"));
    v.push(String::from_str("LINK-WETH"));
    v.push(String::from_str("WBTC-USDC"));
    v.push(String::from_str("WBTC-USDT"));
    v.push(String::from_str("DAI-FRAX"));
    assert(texts(v@) =~= seq![
        "DAI-WETH"@,
        "DOGE-WETH"@,
        "WBTC-WETH"@,
        "PEPE-WETH"@,
        "USDC-WETH"@,
        "AAVE-WETH"@,
        "UNI-WETH"@,
        "DAI-USDC"@,
        "DAI-USDT"@,
        "AAVE-WETH"@,
        "LINK-WETH"@,
        "WBTC-USDC"@,
        "WBTC-USDT"@,
        "DAI-FRAX"@,
    ]);
    v
}

} // verus!
