//! The decisions of an orderbook request: which tokens a tag names, which
//! pools serve it, and what follows each step of the computation.

use crate::keys;
use crate::lookup::{find_token, holds_text, places, position, token_addresses};
use crate::text::{lowercase, split, split_is_not_empty, split_text, texts, to_lower};
use crate::types::{Component, ComponentView, Token, TokenView, component_views, token_views};
use vstd::prelude::*;
use vstd::string::*;

verus! {

/// The step after the token list and the component list were read from the
/// store: the request fails unless both are there.
pub fn after_load(tokens_read: bool, components_read: bool) -> (r: Option<String>)
    ensures
        match r {
            Some(msg) => !(tokens_read && components_read) && msg@
                == "Couldn't not read internal components"@,
            None => tokens_read && components_read,
        },
{
    if tokens_read && components_read {
        None
    } else {
        Some(String::from_str("Couldn't not read internal components"))
    }
}

/// The tokens that a tag names: its parts between dashes, lowercased, are
/// looked up as addresses in the token list. The result holds the places of
/// the base and of the quote token, or says which of the two is missing.
pub open spec fn resolved(tokens: Seq<TokenView>, tag: Seq<char>) -> Result<(int, int), Seq<char>> {
    let parts = split(tag, '-');
    let base = position(token_addresses(tokens), lowercase(parts[0]));
    let quote = if parts.len() > 1 {
        position(token_addresses(tokens), lowercase(parts[1]))
    } else {
        None
    };
    if base is None {
        Err("Couldn't find tokens[0]"@)
    } else if quote is None {
        Err("Couldn't find tokens[1]"@)
    } else {
        Ok((base->0, quote->0))
    }
}

/// The places of the two tokens of a request, or which of them is missing:
/// the base is reported before the quote.
pub fn targets_of(base: Option<usize>, quote: Option<usize>) -> (r: Result<(usize, usize), String>)
    ensures
        match r {
            Ok(found) => base == Some(found.0) && quote == Some(found.1),
            Err(msg) => if base is None {
                msg@ == "Couldn't find tokens[0]"@
            } else {
                quote is None && msg@ == "Couldn't find tokens[1]"@
            },
        },
{
    match base {
        None => Err(String::from_str("Couldn't find tokens[0]")),
        Some(b) => match quote {
            None => Err(String::from_str("Couldn't find tokens[1]")),
            Some(q) => Ok((b, q)),
        },
    }
}

/// Finds the base and the quote token of a tag in the token list.
pub fn resolve_targets(tokens: &Vec<Token>, tag: &str) -> (r: Result<(usize, usize), String>)
    ensures
        match resolved(token_views(tokens@), tag@) {
            Ok(places) => r matches Ok(found) && found.0 == places.0 && found.1 == places.1
                && found.0 < tokens.len() && found.1 < tokens.len(),
            Err(reason) => r matches Err(msg) && msg@ == reason,
        },
{
    let parts = split_text(tag, '-');
    proof {
        split_is_not_empty(tag@, '-');
        crate::lookup::position_is_first_match(
            token_addresses(token_views(tokens@)),
            lowercase(parts[0]@),
        );
        if parts.len() > 1 {
            crate::lookup::position_is_first_match(
                token_addresses(token_views(tokens@)),
                lowercase(parts[1]@),
            );
        }
    }
    assert(texts(parts@)[0] == parts[0]@);
    let first = to_lower(parts[0].as_str());
    let base = find_token(tokens, first.as_str());
    let quote = if parts.len() > 1 {
        assert(texts(parts@)[1] == parts[1]@);
        let second = to_lower(parts[1].as_str());
        find_token(tokens, second.as_str())
    } else {
        None
    };
    targets_of(base, quote)
}

/// A component holds a token of the given address, letter case aside.
pub open spec fn holds_token(c: ComponentView, address: Seq<char>) -> bool {
    position(token_addresses(c.tokens), address) is Some
}

/// A pool serves a pair when it holds both tokens.
pub open spec fn serves_pair(c: ComponentView, base: Seq<char>, quote: Seq<char>) -> bool {
    holds_token(c, base) && holds_token(c, quote)
}

/// A route names a pool when it holds the pool's lowercased identifier.
pub open spec fn on_route(c: ComponentView, route: Seq<Seq<char>>) -> bool {
    route.contains(lowercase(c.id))
}

/// The places of the first `n` components that serve the pair, in order.
pub open spec fn pair_pools(cs: Seq<ComponentView>, base: Seq<char>, quote: Seq<char>, n: int) -> Seq<
    int,
>
    decreases n,
{
    if n <= 0 {
        Seq::empty()
    } else if serves_pair(cs[n - 1], base, quote) {
        pair_pools(cs, base, quote, n - 1).push(n - 1)
    } else {
        pair_pools(cs, base, quote, n - 1)
    }
}

/// The places of the first `n` components that one of the two routes to the
/// native token names, in order.
pub open spec fn route_pools(
    cs: Seq<ComponentView>,
    base_route: Seq<Seq<char>>,
    quote_route: Seq<Seq<char>>,
    n: int,
) -> Seq<int>
    decreases n,
{
    if n <= 0 {
        Seq::empty()
    } else if on_route(cs[n - 1], base_route) || on_route(cs[n - 1], quote_route) {
        route_pools(cs, base_route, quote_route, n - 1).push(n - 1)
    } else {
        route_pools(cs, base_route, quote_route, n - 1)
    }
}

/// Whether a pool holds both tokens of a pair.
pub fn matchcp(component: &Component, base: &Token, quote: &Token) -> (r: bool)
    ensures
        r == serves_pair(component@, base@.address, quote@.address),
{
    let b = find_token(&component.tokens, base.address.as_str());
    let q = find_token(&component.tokens, quote.address.as_str());
    b.is_some() && q.is_some()
}

/// The pools of an orderbook request: the places of the components that
/// serve the pair, and the places of those on a route to the native token.
/// The simulation objects of both are to be attached.
pub fn select_pools(
    components: &Vec<Component>,
    base: &Token,
    quote: &Token,
    base_route: &Vec<String>,
    quote_route: &Vec<String>,
) -> (r: (Vec<usize>, Vec<usize>))
    ensures
        places(r.0@) == pair_pools(
            component_views(components@),
            base@.address,
            quote@.address,
            components@.len() as int,
        ),
        places(r.1@) == route_pools(
            component_views(components@),
            texts(base_route@),
            texts(quote_route@),
            components@.len() as int,
        ),
        forall|i: int| 0 <= i < r.0@.len() ==> r.0@[i] < components@.len(),
        forall|i: int| 0 <= i < r.1@.len() ==> r.1@[i] < components@.len(),
{
    let ghost cs = component_views(components@);
    let mut pair: Vec<usize> = Vec::new();
    let mut routed: Vec<usize> = Vec::new();
    let mut i: usize = 0;
    assert(places(pair@) =~= Seq::empty());
    assert(places(routed@) =~= Seq::empty());
    while i < components.len()
        invariant
            i <= components.len(),
            cs == component_views(components@),
            places(pair@) == pair_pools(cs, base@.address, quote@.address, i as int),
            places(routed@) == route_pools(cs, texts(base_route@), texts(quote_route@), i as int),
            forall|j: int| 0 <= j < pair@.len() ==> pair@[j] < components@.len(),
            forall|j: int| 0 <= j < routed@.len() ==> routed@[j] < components@.len(),
        decreases components.len() - i,
    {
        let cp = &components[i];
        assert(cs[i as int] == cp@);
        let ghost before_pair = places(pair@);
        let ghost before_routed = places(routed@);
        if matchcp(cp, base, quote) {
            pair.push(i);
            assert(places(pair@) =~= before_pair.push(i as int));
        }
        let id = to_lower(cp.id.as_str());
        if holds_text(base_route, &id) || holds_text(quote_route, &id) {
            routed.push(i);
            assert(places(routed@) =~= before_routed.push(i as int));
        }
        i += 1;
    }
    (pair, routed)
}

/// What an orderbook request does next.
pub enum Action {
    /// Answer with a failure and this reason.
    Fail(String),
    /// Look for a stored orderbook under this pair tag.
    Consult,
    /// Value one unit of the base and of the quote token in the native
    /// token.
    Quote,
    /// Build the orderbook.
    Build,
    /// Store the orderbook under this key, then answer with it.
    Store(String),
    /// Answer with the orderbook at hand.
    Reply,
}

pub enum ActionView {
    Fail(Seq<char>),
    Consult,
    Quote,
    Build,
    Store(Seq<char>),
    Reply,
}

impl View for Action {
    type V = ActionView;

    open spec fn view(&self) -> ActionView {
        match self {
            Action::Fail(m) => ActionView::Fail(m@),
            Action::Consult => ActionView::Consult,
            Action::Quote => ActionView::Quote,
            Action::Build => ActionView::Build,
            Action::Store(k) => ActionView::Store(k@),
            Action::Reply => ActionView::Reply,
        }
    }
}

/// The step after the simulation objects were attached: without a pool that
/// serves the pair the request fails; a request for a single point goes on
/// to the valuation; any other looks for a stored orderbook first.
pub open spec fn next_after_attach(
    single: bool,
    attached: int,
    base_symbol: Seq<char>,
    quote_symbol: Seq<char>,
) -> ActionView {
    if attached == 0 {
        ActionView::Fail(
            "ProtoTychoState: pair "@ + lowercase(base_symbol) + "-"@ + lowercase(quote_symbol)
                + " requested has 0 associated pools and multi-hop is not enabled yet."@,
        )
    } else if single {
        ActionView::Quote
    } else {
        ActionView::Consult
    }
}

/// The reason given where no pool serves a pair, from the lowercased
/// symbols of its tokens.
pub fn no_pools(base: &str, quote: &str) -> (r: String)
    ensures
        r@ == "ProtoTychoState: pair "@ + base@ + "-"@ + quote@
            + " requested has 0 associated pools and multi-hop is not enabled yet."@,
{
    String::from_str("ProtoTychoState: pair ").concat(base).concat("-").concat(quote).concat(
        " requested has 0 associated pools and multi-hop is not enabled yet.",
    )
}

pub fn after_attach(single: bool, attached: usize, base: &Token, quote: &Token) -> (r: Action)
    ensures
        r@ == next_after_attach(single, attached as int, base@.symbol, quote@.symbol),
{
    if attached == 0 {
        let b = to_lower(base.symbol.as_str());
        let q = to_lower(quote.symbol.as_str());
        Action::Fail(no_pools(b.as_str(), q.as_str()))
    } else if single {
        Action::Quote
    } else {
        Action::Consult
    }
}

/// The step after the look for a stored orderbook: a fresh one is the
/// answer, else the computation goes on.
pub fn after_consult(hit: bool) -> (r: Action)
    ensures
        r@ == if hit {
            ActionView::Reply
        } else {
            ActionView::Quote
        },
{
    if hit {
        Action::Reply
    } else {
        Action::Quote
    }
}

/// The step after the valuation: the orderbook is built where both tokens
/// have a value in the native token, else the request fails.
pub open spec fn next_after_quote(base_worth: bool, quote_worth: bool, base_symbol: Seq<char>) -> ActionView {
    if base_worth && quote_worth {
        ActionView::Build
    } else {
        ActionView::Fail("Couldn't find the quote path from "@ + base_symbol + " to ETH"@)
    }
}

pub fn after_quote(base_worth: bool, quote_worth: bool, base: &Token) -> (r: Action)
    ensures
        r@ == next_after_quote(base_worth, quote_worth, base@.symbol),
{
    if base_worth && quote_worth {
        Action::Build
    } else {
        Action::Fail(
            String::from_str("Couldn't find the quote path from ").concat(
                base.symbol.as_str(),
            ).concat(" to ETH"),
        )
    }
}

/// The key under which the orderbook of a pair is stored: the lowercased
/// network, then the lowercased addresses of base and quote with a dash
/// between them.
pub open spec fn orderbook_key(network: Seq<char>, base: Seq<char>, quote: Seq<char>) -> Seq<char> {
    "stream:orderbook:"@ + lowercase(network) + ":"@ + lowercase(base) + "-"@ + lowercase(quote)
}

/// The step after the build: the orderbook of a single point is the answer
/// as it is; any other is stored first, under the key of its pair.
pub open spec fn next_after_build(
    single: bool,
    network: Seq<char>,
    base: Seq<char>,
    quote: Seq<char>,
) -> ActionView {
    if single {
        ActionView::Reply
    } else {
        ActionView::Store(orderbook_key(network, base, quote))
    }
}

pub fn after_build(single: bool, network: String, base_address: &str, quote_address: &str) -> (r:
    Action)
    ensures
        r@ == next_after_build(single, network@, base_address@, quote_address@),
{
    if single {
        Action::Reply
    } else {
        Action::Store(keys::orderbook_of(network, base_address, quote_address))
    }
}

/// A request for a single point neither looks for a stored orderbook nor
/// stores one.
pub proof fn single_point_bypasses_cache(
    attached: int,
    base_symbol: Seq<char>,
    quote_symbol: Seq<char>,
    network: Seq<char>,
    base: Seq<char>,
    quote: Seq<char>,
)
    ensures
        next_after_attach(true, attached, base_symbol, quote_symbol) != ActionView::Consult,
        !(next_after_build(true, network, base, quote) is Store),
{
}

} // verus!
