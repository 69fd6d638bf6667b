//! Finding an entry by its identifier, letter case aside.

use crate::text::{lowercase, lowered, same_text, texts, to_lower};
use crate::types::{Component, ComponentView, Token, TokenView, component_views, token_views};
use vstd::prelude::*;

verus! {

/// `k` is the first place in `ids` that holds `id`, letter case aside.
pub open spec fn first_match(ids: Seq<Seq<char>>, id: Seq<char>, k: int) -> bool {
    &&& 0 <= k < ids.len()
    &&& same_text(ids[k], id)
    &&& forall|j: int| 0 <= j < k ==> !same_text(#[trigger] ids[j], id)
}

/// The first place in `ids` that holds `id`, letter case aside, if any.
pub open spec fn position(ids: Seq<Seq<char>>, id: Seq<char>) -> Option<int> {
    if exists|k: int| first_match(ids, id, k) {
        Some(choose|k: int| first_match(ids, id, k))
    } else {
        None
    }
}

/// The identifiers of a list of components.
pub open spec fn component_ids(cs: Seq<ComponentView>) -> Seq<Seq<char>> {
    Seq::new(cs.len(), |i: int| cs[i].id)
}

/// The addresses of a list of tokens.
pub open spec fn token_addresses(ts: Seq<TokenView>) -> Seq<Seq<char>> {
    Seq::new(ts.len(), |i: int| ts[i].address)
}

/// A first match is the position.
pub proof fn position_of_first_match(ids: Seq<Seq<char>>, id: Seq<char>, k: int)
    requires
        first_match(ids, id, k),
    ensures
        position(ids, id) == Some(k),
{
    let c = choose|c: int| first_match(ids, id, c);
    assert(first_match(ids, id, c));
    if c < k {
        assert(!same_text(ids[c], id));
    }
    if k < c {
        assert(!same_text(ids[k], id));
    }
}

/// Where nothing matches there is no position.
pub proof fn position_of_no_match(ids: Seq<Seq<char>>, id: Seq<char>)
    requires
        forall|j: int| 0 <= j < ids.len() ==> !same_text(#[trigger] ids[j], id),
    ensures
        position(ids, id) is None,
{
    if exists|k: int| first_match(ids, id, k) {
        let c = choose|c: int| first_match(ids, id, c);
        assert(!same_text(ids[c], id));
    }
}

/// A position, where there is one, is a first match.
pub proof fn position_is_first_match(ids: Seq<Seq<char>>, id: Seq<char>)
    ensures
        match position(ids, id) {
            Some(k) => first_match(ids, id, k),
            None => forall|j: int| 0 <= j < ids.len() ==> !same_text(#[trigger] ids[j], id),
        },
{
    if exists|k: int| first_match(ids, id, k) {
    } else {
        assert forall|j: int| 0 <= j < ids.len() implies !same_text(#[trigger] ids[j], id) by {
            if same_text(ids[j], id) {
                least_match(ids, id, j);
            }
        }
    }
}

proof fn least_match(ids: Seq<Seq<char>>, id: Seq<char>, j: int)
    requires
        0 <= j < ids.len(),
        same_text(ids[j], id),
    ensures
        exists|k: int| first_match(ids, id, k),
    decreases j,
{
    if exists|i: int| 0 <= i < j && same_text(#[trigger] ids[i], id) {
        let i = choose|i: int| 0 <= i < j && same_text(#[trigger] ids[i], id);
        least_match(ids, id, i);
    } else {
        assert(first_match(ids, id, j));
    }
}

/// `k` is the first place in `keys` that holds exactly `key`.
pub open spec fn is_first_index(keys: Seq<Seq<char>>, key: Seq<char>, k: int) -> bool {
    &&& 0 <= k < keys.len()
    &&& keys[k] == key
    &&& forall|j: int| 0 <= j < k ==> #[trigger] keys[j] != key
}

/// The first place in a list of keys that holds exactly `key`.
pub fn first_index(keys: &Vec<String>, key: &String) -> (r: Option<usize>)
    ensures
        match r {
            Some(k) => is_first_index(texts(keys@), key@, k as int),
            None => forall|j: int| 0 <= j < keys@.len() ==> #[trigger] texts(keys@)[j] != key@,
        },
{
    let mut i: usize = 0;
    while i < keys.len()
        invariant
            i <= keys.len(),
            forall|j: int| 0 <= j < i ==> #[trigger] texts(keys@)[j] != key@,
        decreases keys.len() - i,
    {
        assert(texts(keys@)[i as int] == keys[i as int]@);
        if keys[i] == *key {
            return Some(i);
        }
        i += 1;
    }
    None
}

/// The places in a list as numbers.
pub open spec fn places(v: Seq<usize>) -> Seq<int> {
    Seq::new(v.len(), |i: int| v[i] as int)
}

/// Whether a list of texts holds a text.
pub fn holds_text(list: &Vec<String>, text: &String) -> (r: bool)
    ensures
        r == texts(list@).contains(text@),
{
    let mut i: usize = 0;
    while i < list.len()
        invariant
            i <= list.len(),
            forall|j: int| 0 <= j < i ==> list[j]@ != text@,
        decreases list.len() - i,
    {
        if list[i] == *text {
            assert(texts(list@)[i as int] == text@);
            return true;
        }
        i += 1;
    }
    assert forall|j: int| 0 <= j < texts(list@).len() implies texts(list@)[j] != text@ by {
        assert(texts(list@)[j] == list[j]@);
    }
    false
}

/// Looking an identifier up letter case aside is looking its lowercase form
/// up among the lowercase forms.
pub proof fn position_among_lowered(ids: Seq<Seq<char>>, id: Seq<char>, k: int)
    requires
        is_first_index(lowered(ids), lowercase(id), k),
    ensures
        position(ids, id) == Some(k),
{
    assert(lowered(ids)[k] == lowercase(ids[k]));
    assert forall|j: int| 0 <= j < k implies !same_text(#[trigger] ids[j], id) by {
        assert(lowered(ids)[j] == lowercase(ids[j]));
    }
    position_of_first_match(ids, id, k);
}

/// The identifiers of a list of components, lowercased.
pub fn component_keys(cs: &Vec<Component>) -> (r: Vec<String>)
    ensures
        texts(r@) == lowered(component_ids(component_views(cs@))),
{
    let mut out: Vec<String> = Vec::new();
    let mut i: usize = 0;
    while i < cs.len()
        invariant
            i <= cs.len(),
            out.len() == i,
            forall|j: int| 0 <= j < i ==> out[j]@ == lowercase(cs[j]@.id),
        decreases cs.len() - i,
    {
        out.push(to_lower(cs[i].id.as_str()));
        i += 1;
    }
    assert(texts(out@) =~= lowered(component_ids(component_views(cs@))));
    out
}

/// The addresses of a list of tokens, lowercased.
pub fn token_keys(ts: &Vec<Token>) -> (r: Vec<String>)
    ensures
        texts(r@) == lowered(token_addresses(token_views(ts@))),
{
    let mut out: Vec<String> = Vec::new();
    let mut i: usize = 0;
    while i < ts.len()
        invariant
            i <= ts.len(),
            out.len() == i,
            forall|j: int| 0 <= j < i ==> out[j]@ == lowercase(ts[j]@.address),
        decreases ts.len() - i,
    {
        out.push(to_lower(ts[i].address.as_str()));
        i += 1;
    }
    assert(texts(out@) =~= lowered(token_addresses(token_views(ts@))));
    out
}

/// The place of the first component with the identifier `id`, letter case
/// aside.
pub fn find_component(cs: &Vec<Component>, id: &str) -> (r: Option<usize>)
    ensures
        match r {
            Some(k) => position(component_ids(component_views(cs@)), id@) == Some(k as int),
            None => position(component_ids(component_views(cs@)), id@) is None,
        },
{
    let keys = component_keys(cs);
    let key = to_lower(id);
    let r = first_index(&keys, &key);
    proof {
        let ids = component_ids(component_views(cs@));
        match r {
            Some(k) => position_among_lowered(ids, id@, k as int),
            None => {
                assert forall|j: int| 0 <= j < ids.len() implies !same_text(
                    #[trigger] ids[j],
                    id@,
                ) by {
                    assert(texts(keys@).len() == keys@.len());
                    assert(lowered(ids).len() == ids.len());
                    assert(lowered(ids)[j] == lowercase(ids[j]));
                    assert(texts(keys@)[j] != key@);
                }
                position_of_no_match(ids, id@);
            },
        }
    }
    r
}

/// The place of the first token with the address `address`, letter case
/// aside.
pub fn find_token(ts: &Vec<Token>, address: &str) -> (r: Option<usize>)
    ensures
        match r {
            Some(k) => position(token_addresses(token_views(ts@)), address@) == Some(k as int),
            None => position(token_addresses(token_views(ts@)), address@) is None,
        },
{
    let keys = token_keys(ts);
    let key = to_lower(address);
    let r = first_index(&keys, &key);
    proof {
        let ids = token_addresses(token_views(ts@));
        match r {
            Some(k) => position_among_lowered(ids, address@, k as int),
            None => {
                assert forall|j: int| 0 <= j < ids.len() implies !same_text(
                    #[trigger] ids[j],
                    address@,
                ) by {
                    assert(texts(keys@).len() == keys@.len());
                    assert(lowered(ids).len() == ids.len());
                    assert(lowered(ids)[j] == lowercase(ids[j]));
                    assert(texts(keys@)[j] != key@);
                }
                position_of_no_match(ids, address@);
            },
        }
    }
    r
}

} // verus!
