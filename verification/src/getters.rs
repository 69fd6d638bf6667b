//! What is made of the values that the store holds.

use crate::pairs::{generate_pair_tags, is_pair_listing};
use crate::text::{decimal, decimal_text};
use crate::types::{Component, PairTag, Status, component_views, pair_views};
use vstd::prelude::*;

verus! {

/// The status of a network from the two stored values: the number of the
/// stream's state and the latest block. Both have to be there.
pub fn status(stream: Option<u128>, latest: Option<u64>) -> (r: Option<Status>)
    ensures
        r is Some == (stream is Some && latest is Some),
        r is Some ==> r->0.stream == stream->0 && r->0.latest@ == decimal(latest->0 as nat),
{
    match (stream, latest) {
        (Some(stream), Some(latest)) => Some(
            Status { stream, latest: decimal_text(latest as u128) },
        ),
        _ => None,
    }
}

/// The pairs of a stored component list, where there is one.
pub fn pairs(fetched: Option<Vec<Component>>) -> (r: Option<Vec<PairTag>>)
    ensures
        r is Some == fetched is Some,
        r is Some ==> is_pair_listing(component_views(fetched->0@), pair_views(r->0@)),
{
    match fetched {
        Some(components) => Some(generate_pair_tags(&components)),
        None => None,
    }
}

} // verus!
