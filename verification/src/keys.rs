//! The keys under which the service keeps its data in the key-value store.

use crate::text::{lowercase, to_lower};
use vstd::prelude::*;
use vstd::string::*;

verus! {

/// A key made of a prefix and a name.
pub fn under(prefix: &str, name: &str) -> (r: String)
    ensures
        r@ == prefix@ + name@,
{
    String::from_str(prefix).concat(name)
}

/// A key made of a prefix and two names with a colon between them.
pub fn under_both(prefix: &str, first: &str, second: &str) -> (r: String)
    ensures
        r@ == prefix@ + first@ + ":"@ + second@,
{
    String::from_str(prefix).concat(first).concat(":").concat(second)
}

/// `stream:status:<network>`, the network lowercased: the stream's state.
pub fn status(network: String) -> (r: String)
    ensures
        r@ == "stream:status:"@ + lowercase(network@),
{
    let net = to_lower(network.as_str());
    under("stream:status:", net.as_str())
}

/// `stream:latest:<network>`, the network lowercased: the latest block.
pub fn latest(network: String) -> (r: String)
    ensures
        r@ == "stream:latest:"@ + lowercase(network@),
{
    let net = to_lower(network.as_str());
    under("stream:latest:", net.as_str())
}

/// `stream:updated:<network>`, the network lowercased: the identifiers that
/// the last block touched.
pub fn updated(network: String) -> (r: String)
    ensures
        r@ == "stream:updated:"@ + lowercase(network@),
{
    let net = to_lower(network.as_str());
    under("stream:updated:", net.as_str())
}

/// `stream:tokens:<network>`, the network lowercased: the token list.
pub fn tokens(network: String) -> (r: String)
    ensures
        r@ == "stream:tokens:"@ + lowercase(network@),
{
    let net = to_lower(network.as_str());
    under("stream:tokens:", net.as_str())
}

/// `stream:orderbook:<network>:<tag>`, both lowercased: the orderbook last
/// built for a pair.
pub fn orderbook(network: String, tag: String) -> (r: String)
    ensures
        r@ == "stream:orderbook:"@ + lowercase(network@) + ":"@ + lowercase(tag@),
{
    let net = to_lower(network.as_str());
    let t = to_lower(tag.as_str());
    under_both("stream:orderbook:", net.as_str(), t.as_str())
}

/// `stream:orderbook:<network>:<base>-<quote>`, all three lowercased: the
/// orderbook of a pair, by the addresses of its two tokens.
pub fn orderbook_of(network: String, base: &str, quote: &str) -> (r: String)
    ensures
        r@ == "stream:orderbook:"@ + lowercase(network@) + ":"@ + lowercase(base@) + "-"@
            + lowercase(quote@),
{
    let net = to_lower(network.as_str());
    let b = to_lower(base);
    let q = to_lower(quote);
    let tag = b.concat("-").concat(q.as_str());
    let r = under_both("stream:orderbook:", net.as_str(), tag.as_str());
    assert(r@ =~= "stream:orderbook:"@ + lowercase(network@) + ":"@ + lowercase(base@) + "-"@
        + lowercase(quote@));
    r
}

/// `stream:<network>:component:<id>`, the identifier lowercased and the
/// network as given: one component.
pub fn component(network: String, id: String) -> (r: String)
    ensures
        r@ == "stream:"@ + network@ + ":component:"@ + lowercase(id@),
{
    let i = to_lower(id.as_str());
    under(under("stream:", network.as_str()).concat(":component:").as_str(), i.as_str())
}

/// `stream:components:<network>`, the network lowercased: the component
/// list.
pub fn components(network: String) -> (r: String)
    ensures
        r@ == "stream:components:"@ + lowercase(network@),
{
    let net = to_lower(network.as_str());
    under("stream:components:", net.as_str())
}

} // verus!
