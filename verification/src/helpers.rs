//! Request gating and the freshness of stored orderbooks.

use crate::lookup::{component_ids, position, position_is_first_match};
use crate::text::{decimal, decimal_text, lowercase, same_text, to_lower};
use crate::types::{Component, ComponentView, Status, component_views};
use http::{HeaderMap, HeaderValue};
use vstd::prelude::*;
use vstd::string::*;

verus! {

/// `http::HeaderMap`, the headers of a request: held and handed on, never
/// looked into but through [`header_value`].
#[verifier::external_type_specification]
#[verifier::external_body]
#[verifier::reject_recursive_types(T)]
pub struct ExHeaderMap<T>(http::HeaderMap<T>);

/// `http::HeaderValue`, the value of one header.
#[verifier::external_type_specification]
#[verifier::external_body]
pub struct ExHeaderValue(http::HeaderValue);

/// What a header map answers to a lookup by name: for each name under which
/// `HeaderMap::get` finds something, the bytes of the first value stored
/// there.
pub uninterp spec fn header_entries(headers: HeaderMap) -> Map<Seq<char>, Seq<u8>>;

/// The bytes that a header value holds.
pub uninterp spec fn value_bytes(value: HeaderValue) -> Seq<u8>;

/// A byte that a header value may show as text: printable ASCII, or a tab.
pub open spec fn visible_byte(b: u8) -> bool {
    b >= 32 && b < 127 || b == 9
}

pub open spec fn visible(bytes: Seq<u8>) -> bool {
    forall|i: int| 0 <= i < bytes.len() ==> visible_byte(#[trigger] bytes[i])
}

/// ASCII bytes read as characters.
pub open spec fn ascii_text(bytes: Seq<u8>) -> Seq<char> {
    Seq::new(bytes.len(), |i: int| bytes[i] as char)
}

/// Calls `HeaderMap::get` with a text as the name. Trusted: it returns the
/// first value stored under the name, and `None` where the map holds none.
#[verifier::external_body]
fn header_value<'a>(headers: &'a HeaderMap, name: &str) -> (r: Option<&'a HeaderValue>)
    ensures
        match r {
            Some(v) => header_entries(*headers).contains_key(name@) && header_entries(
                *headers,
            )[name@] == value_bytes(*v),
            None => !header_entries(*headers).contains_key(name@),
        },
{
    headers.get(name)
}

/// Calls `HeaderValue::to_str`. Trusted: it succeeds exactly where every
/// byte of the value is visible, and then the text holds those bytes as
/// characters.
#[verifier::external_body]
fn value_text<'a>(value: &'a HeaderValue) -> (r: Option<&'a str>)
    ensures
        match r {
            Some(s) => visible(value_bytes(*value)) && s@ == ascii_text(value_bytes(*value)),
            None => !visible(value_bytes(*value)),
        },
{
    value.to_str().ok()
}

/// The name of the header that carries the API key.
pub open spec fn api_key_header() -> Seq<char> {
    "tycho-orderbook-web-api-key"@
}

/// The API key that a request presents: the text of its key header, where it
/// has one that reads as text.
pub open spec fn presented_key(headers: HeaderMap) -> Option<Seq<char>> {
    let entries = header_entries(headers);
    if entries.contains_key(api_key_header()) && visible(entries[api_key_header()]) {
        Some(ascii_text(entries[api_key_header()]))
    } else {
        None
    }
}

/// A request is authorized when the key it presents is the expected key,
/// letter case aside: the lowercase forms of the two are the same.
pub open spec fn authorized(headers: HeaderMap, expected: Seq<char>) -> bool {
    match presented_key(headers) {
        Some(key) => lowercase(key) == lowercase(expected),
        None => false,
    }
}

/// Judges the key that a request presents against the expected one, both
/// lowercased already: `true` with `Authorized` where they are the same,
/// else `false` with the reason.
pub fn key_verdict(presented: Option<String>, expected: &String) -> (r: (bool, String))
    ensures
        r.0 == (presented is Some && presented->0@ == expected@),
        r.0 ==> r.1@ == "Authorized"@,
        !r.0 ==> r.1@ == "Invalid orderbook API key"@,
{
    match presented {
        Some(key) => {
            if key == *expected {
                return (true, String::from_str("Authorized"));
            }
        },
        None => {},
    }
    (false, String::from_str("Invalid orderbook API key"))
}

/// Checks the API key of a request, letter case aside. The answer is `true`
/// with `Authorized` for an authorized request, else `false` with the
/// reason.
pub fn validate_headers(headers: &HeaderMap, expected: String) -> (r: (bool, String))
    ensures
        r.0 == authorized(*headers, expected@),
        r.0 ==> r.1@ == "Authorized"@,
        !r.0 ==> r.1@ == "Invalid orderbook API key"@,
{
    let presented = match header_value(headers, "tycho-orderbook-web-api-key") {
        Some(value) => match value_text(value) {
            Some(api_key) => Some(to_lower(api_key)),
            None => None,
        },
        None => None,
    };
    let wanted = to_lower(expected.as_str());
    key_verdict(presented, &wanted)
}

/// Why a compute request is turned away, if it is: the stream has not
/// delivered its first block, the status cannot be read or is not `Running`,
/// or the request is not authorized; in this order.
pub open spec fn rejection(
    initialised: bool,
    status: Option<Status>,
    headers: HeaderMap,
    expected: Seq<char>,
) -> Option<Seq<char>> {
    if !initialised {
        Some("API is not yet initialised"@)
    } else if status is None {
        Some("Failed to get API status"@)
    } else if status->0.stream != 4 {
        Some("API is not yet running: got "@ + decimal(status->0.stream as nat) + " vs Running"@)
    } else if !authorized(headers, expected) {
        Some("Invalid orderbook API key"@)
    } else {
        None
    }
}

/// A compute request passes exactly when the first block was delivered, the
/// stored status reads `Running`, and the key that the request presents is
/// the expected one, letter case aside.
pub proof fn passes_exactly_when(
    initialised: bool,
    status: Option<Status>,
    headers: HeaderMap,
    expected: Seq<char>,
)
    ensures
        rejection(initialised, status, headers, expected) is None <==> (initialised
            && status is Some && status->0.stream == 4 && presented_key(headers) is Some
            && lowercase(presented_key(headers)->0) == lowercase(expected)),
{
}

/// Gates a compute request: `None` lets it pass, `Some` holds the reason for
/// turning it away. `status` is the stored status of the network, `None`
/// where it could not be read.
pub fn prevalidation(
    status: Option<Status>,
    headers: &HeaderMap,
    initialised: bool,
    expected_api_key: String,
) -> (r: Option<String>)
    ensures
        match rejection(initialised, status, *headers, expected_api_key@) {
            Some(reason) => r matches Some(msg) && msg@ == reason,
            None => r is None,
        },
{
    if !initialised {
        return Some(String::from_str("API is not yet initialised"));
    }
    match status {
        Some(status) => {
            if status.stream != 4 {
                let got = decimal_text(status.stream);
                let msg = String::from_str("API is not yet running: got ").concat(
                    got.as_str(),
                ).concat(" vs Running");
                return Some(msg);
            }
        },
        None => {
            return Some(String::from_str("Failed to get API status"));
        },
    }
    let (allowed, msg) = validate_headers(headers, expected_api_key);
    if !allowed {
        return Some(msg);
    }
    None
}

/// A stored orderbook: the pools it was built from, each with the time of
/// its last change when the book was built, and the book itself.
pub struct CachedOrderbook<B> {
    pub pools: Vec<Component>,
    pub book: B,
}

/// A pool of a stored orderbook is fresh while the component of the same
/// identifier is still listed and has not changed since.
pub open spec fn pool_is_fresh(pool: ComponentView, current: Seq<ComponentView>) -> bool {
    match position(component_ids(current), pool.id) {
        Some(k) => current[k].last_updated_at <= pool.last_updated_at,
        None => false,
    }
}

/// A stored orderbook is fresh while all its pools are.
pub open spec fn fresh(pools: Seq<ComponentView>, current: Seq<ComponentView>) -> bool {
    forall|i: int| 0 <= i < pools.len() ==> pool_is_fresh(#[trigger] pools[i], current)
}

/// The mark of a component: its identifier, lowercased, and the time of its
/// last change.
pub open spec fn mark_of(c: ComponentView) -> (Seq<char>, u64) {
    (lowercase(c.id), c.last_updated_at)
}

/// The marks of a list of components.
pub open spec fn marks_of(cs: Seq<ComponentView>) -> Seq<(Seq<char>, u64)> {
    Seq::new(cs.len(), |i: int| mark_of(cs[i]))
}

/// The content of a list of marks.
pub open spec fn mark_views(v: Seq<(String, u64)>) -> Seq<(Seq<char>, u64)> {
    Seq::new(v.len(), |i: int| (v[i].0@, v[i].1))
}

/// `k` is the first place in `marks` with the key `key`.
pub open spec fn is_first_mark(marks: Seq<(Seq<char>, u64)>, key: Seq<char>, k: int) -> bool {
    &&& 0 <= k < marks.len()
    &&& marks[k].0 == key
    &&& forall|j: int| 0 <= j < k ==> (#[trigger] marks[j]).0 != key
}

/// The first current mark of the key of `mark` stands at `k`, and is no
/// later than `mark`.
pub open spec fn fresh_at(mark: (Seq<char>, u64), current: Seq<(Seq<char>, u64)>, k: int) -> bool {
    is_first_mark(current, mark.0, k) && current[k].1 <= mark.1
}

/// A mark is fresh while the first current mark of its key is no later.
pub open spec fn mark_is_fresh(mark: (Seq<char>, u64), current: Seq<(Seq<char>, u64)>) -> bool {
    exists|k: int| fresh_at(mark, current, k)
}

/// Marks are fresh while each of them is.
pub open spec fn marks_are_fresh(
    pools: Seq<(Seq<char>, u64)>,
    current: Seq<(Seq<char>, u64)>,
) -> bool {
    forall|i: int| 0 <= i < pools.len() ==> mark_is_fresh(#[trigger] pools[i], current)
}

/// The marks of a list of components.
pub fn component_marks(cs: &Vec<Component>) -> (r: Vec<(String, u64)>)
    ensures
        mark_views(r@) == marks_of(component_views(cs@)),
{
    let mut out: Vec<(String, u64)> = Vec::new();
    let mut i: usize = 0;
    while i < cs.len()
        invariant
            i <= cs.len(),
            out.len() == i,
            forall|j: int| 0 <= j < i ==> (#[trigger] out[j]).0@ == lowercase(cs[j]@.id) && out[j].1
                == cs[j]@.last_updated_at,
        decreases cs.len() - i,
    {
        out.push((to_lower(cs[i].id.as_str()), cs[i].last_updated_at));
        i += 1;
    }
    assert(mark_views(out@) =~= marks_of(component_views(cs@)));
    out
}

/// Whether one mark is fresh against the current marks.
pub fn fresh_mark(key: &String, built_at: u64, current: &Vec<(String, u64)>) -> (r: bool)
    ensures
        r == mark_is_fresh((key@, built_at), mark_views(current@)),
{
    let ghost marks = mark_views(current@);
    let mut k: usize = 0;
    while k < current.len()
        invariant
            k <= current.len(),
            marks == mark_views(current@),
            forall|j: int| 0 <= j < k ==> (#[trigger] marks[j]).0 != key@,
        decreases current.len() - k,
    {
        assert(marks[k as int] == (current[k as int].0@, current[k as int].1));
        if current[k].0 == *key {
            let r = current[k].1 <= built_at;
            proof {
                assert(is_first_mark(marks, key@, k as int));
                assert(marks[k as int].1 == current[k as int].1);
                if r {
                    assert(fresh_at((key@, built_at), marks, k as int));
                }
                if !r {
                    assert forall|x: int| !fresh_at((key@, built_at), marks, x) by {
                        if is_first_mark(marks, key@, x) {
                            if x < k {
                                assert(marks[x].0 != key@);
                            }
                            if k < x {
                                assert(marks[k as int].0 != key@);
                            }
                        }
                    }
                }
            }
            return r;
        }
        k += 1;
    }
    proof {
        assert forall|x: int| !fresh_at((key@, built_at), marks, x) by {
            if 0 <= x < marks.len() {
                assert(marks[x].0 != key@);
            }
        }
    }
    false
}

/// Whether the marks of a stored orderbook's pools are fresh against the
/// current marks.
pub fn fresh_marks(pools: &Vec<(String, u64)>, current: &Vec<(String, u64)>) -> (r: bool)
    ensures
        r == marks_are_fresh(mark_views(pools@), mark_views(current@)),
{
    let ghost marks = mark_views(pools@);
    let mut i: usize = 0;
    while i < pools.len()
        invariant
            i <= pools.len(),
            marks == mark_views(pools@),
            forall|j: int| 0 <= j < i ==> mark_is_fresh(#[trigger] marks[j], mark_views(current@)),
        decreases pools.len() - i,
    {
        assert(marks[i as int] == (pools[i as int].0@, pools[i as int].1));
        if !fresh_mark(&pools[i].0, pools[i].1, current) {
            return false;
        }
        i += 1;
    }
    true
}

/// Freshness goes by the marks alone.
pub proof fn fresh_by_marks(pools: Seq<ComponentView>, current: Seq<ComponentView>)
    ensures
        fresh(pools, current) == marks_are_fresh(marks_of(pools), marks_of(current)),
{
    let ids = component_ids(current);
    let marks = marks_of(current);
    assert forall|i: int| 0 <= i < pools.len() implies pool_is_fresh(pools[i], current)
        == mark_is_fresh(marks_of(pools)[i], marks) by {
        let p = pools[i];
        let mark = marks_of(pools)[i];
        assert(mark == mark_of(p));
        position_is_first_match(ids, p.id);
        match position(ids, p.id) {
            Some(k) => {
                assert(marks[k] == mark_of(current[k]));
                assert(ids[k] == current[k].id);
                assert(marks[k].0 == lowercase(ids[k]));
                assert forall|j: int| 0 <= j < k implies (#[trigger] marks[j]).0 != lowercase(
                    p.id,
                ) by {
                    assert(marks[j] == mark_of(current[j]));
                    assert(ids[j] == current[j].id);
                    assert(!same_text(ids[j], p.id));
                }
                assert(is_first_mark(marks, lowercase(p.id), k));
                assert forall|x: int| fresh_at(mark, marks, x) implies x == k by {
                    if x < k {
                        assert(marks[x].0 != lowercase(p.id));
                    }
                    if k < x {
                        assert(marks[k].0 != lowercase(p.id));
                    }
                }
                if current[k].last_updated_at <= p.last_updated_at {
                    assert(fresh_at(mark, marks, k));
                }
            },
            None => {
                assert forall|x: int| !fresh_at(mark, marks, x) by {
                    if 0 <= x < marks.len() {
                        assert(marks[x] == mark_of(current[x]));
                        assert(ids[x] == current[x].id);
                        assert(!same_text(ids[x], p.id));
                    }
                }
            },
        }
    }
    if fresh(pools, current) {
        assert forall|i: int| 0 <= i < marks_of(pools).len() implies mark_is_fresh(
            #[trigger] marks_of(pools)[i],
            marks,
        ) by {
            assert(pool_is_fresh(pools[i], current));
        }
    }
    if marks_are_fresh(marks_of(pools), marks) {
        assert forall|i: int| 0 <= i < pools.len() implies pool_is_fresh(
            #[trigger] pools[i],
            current,
        ) by {
            assert(mark_is_fresh(marks_of(pools)[i], marks));
        }
    }
}

/// Hands a stored orderbook back if it is still fresh against the current
/// components `acps`, and nothing otherwise.
pub fn verify_obcache<B>(cached: Option<CachedOrderbook<B>>, acps: &Vec<Component>) -> (r: Option<
    CachedOrderbook<B>,
>)
    ensures
        r == if cached is Some && fresh(
            component_views(cached->0.pools@),
            component_views(acps@),
        ) {
            cached
        } else {
            None
        },
{
    match cached {
        Some(orderbook) => {
            let pools = component_marks(&orderbook.pools);
            let current = component_marks(acps);
            proof {
                fresh_by_marks(component_views(orderbook.pools@), component_views(acps@));
            }
            if fresh_marks(&pools, &current) {
                Some(orderbook)
            } else {
                None
            }
        },
        None => None,
    }
}

} // verus!
