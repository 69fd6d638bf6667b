//! The pairs of tokens that the components of a network offer.

use crate::text::{
    precedes,
    text_le,
    text_lt,
    text_lt_asymmetric,
    text_lt_irreflexive,
    text_lt_total,
    text_lt_transitive,
};
use crate::types::{Component, ComponentView, PairTag, PairTagView, Token, TokenView};
use crate::types::{component_views, pair_views};
use vstd::prelude::*;

verus! {

/// The pair that two tokens make: the one with the smaller address is the
/// base.
pub open spec fn pair_of(a: TokenView, b: TokenView) -> PairTagView {
    if text_le(a.address, b.address) {
        PairTagView { base: a.symbol, quote: b.symbol, addrbase: a.address, addrquote: b.address }
    } else {
        PairTagView { base: b.symbol, quote: a.symbol, addrbase: b.address, addrquote: a.address }
    }
}

/// Two tags name the same pair when they agree on both addresses.
pub open spec fn same_pair(a: PairTagView, b: PairTagView) -> bool {
    a.addrbase == b.addrbase && a.addrquote == b.addrquote
}

/// The order of pairs: by base address, then by quote address.
pub open spec fn pair_lt(a: PairTagView, b: PairTagView) -> bool {
    text_lt(a.addrbase, b.addrbase) || (a.addrbase == b.addrbase && text_lt(
        a.addrquote,
        b.addrquote,
    ))
}

/// Component `c` holds tokens at the places `i` and `j`, `i` before `j`.
pub open spec fn is_choice(cs: Seq<ComponentView>, c: int, i: int, j: int) -> bool {
    0 <= c < cs.len() && 0 <= i < j < cs[c].tokens.len()
}

/// The pair of the tokens `i` and `j` of component `c`.
pub open spec fn choice(cs: Seq<ComponentView>, c: int, i: int, j: int) -> PairTagView {
    pair_of(cs[c].tokens[i], cs[c].tokens[j])
}

/// The order in which the choices are gone through: by component, then by
/// the first token, then by the second.
pub open spec fn earlier(c1: int, i1: int, j1: int, c2: int, i2: int, j2: int) -> bool {
    c1 < c2 || (c1 == c2 && (i1 < i2 || (i1 == i2 && j1 < j2)))
}

/// `tag` is the choice `(c, i, j)`, and no earlier choice names its pair.
pub open spec fn is_first_choice(
    cs: Seq<ComponentView>,
    tag: PairTagView,
    c: int,
    i: int,
    j: int,
) -> bool {
    &&& is_choice(cs, c, i, j)
    &&& tag == choice(cs, c, i, j)
    &&& forall|c2: int, i2: int, j2: int|
        is_choice(cs, c2, i2, j2) && earlier(c2, i2, j2, c, i, j) ==> !#[trigger] same_pair(
            choice(cs, c2, i2, j2),
            tag,
        )
}

/// `tag` is the first choice of its pair.
pub open spec fn first_choice(cs: Seq<ComponentView>, tag: PairTagView) -> bool {
    exists|c: int, i: int, j: int| is_first_choice(cs, tag, c, i, j)
}

/// `out` holds a tag for the pair that `tag` names.
pub open spec fn listed(out: Seq<PairTagView>, tag: PairTagView) -> bool {
    exists|x: int| 0 <= x < out.len() && same_pair(#[trigger] out[x], tag)
}

/// `out` is in strictly rising order, so no pair stands twice in it.
pub open spec fn sorted(out: Seq<PairTagView>) -> bool {
    forall|x: int, y: int| 0 <= x < y < out.len() ==> #[trigger] pair_lt(out[x], out[y])
}

/// `out` is the pair listing of `cs`: in strictly rising order, one tag for
/// every pair that two tokens of one component make, and each tag with the
/// symbols of the first choice of its pair.
pub open spec fn is_pair_listing(cs: Seq<ComponentView>, out: Seq<PairTagView>) -> bool {
    &&& sorted(out)
    &&& forall|x: int| 0 <= x < out.len() ==> #[trigger] first_choice(cs, out[x])
    &&& forall|c: int, i: int, j: int|
        is_choice(cs, c, i, j) ==> #[trigger] listed(out, choice(cs, c, i, j))
}

/// The order of pairs is transitive.
pub proof fn pair_lt_transitive(a: PairTagView, b: PairTagView, c: PairTagView)
    requires
        pair_lt(a, b),
        pair_lt(b, c),
    ensures
        pair_lt(a, c),
{
    if text_lt(a.addrbase, b.addrbase) && text_lt(b.addrbase, c.addrbase) {
        text_lt_transitive(a.addrbase, b.addrbase, c.addrbase);
    }
    if text_lt(a.addrquote, b.addrquote) && text_lt(b.addrquote, c.addrquote) {
        text_lt_transitive(a.addrquote, b.addrquote, c.addrquote);
    }
}

/// Two tags name the same pair, or one comes before the other.
pub proof fn pair_lt_total(a: PairTagView, b: PairTagView)
    ensures
        pair_lt(a, b) || same_pair(a, b) || pair_lt(b, a),
{
    text_lt_total(a.addrbase, b.addrbase);
    text_lt_total(a.addrquote, b.addrquote);
}

/// A tag that comes before another names another pair, and does not come
/// after it.
pub proof fn pair_lt_excludes(a: PairTagView, b: PairTagView)
    requires
        pair_lt(a, b),
    ensures
        !same_pair(a, b),
        !same_pair(b, a),
        !pair_lt(b, a),
{
    text_lt_irreflexive(a.addrbase);
    text_lt_irreflexive(a.addrquote);
    if text_lt(a.addrbase, b.addrbase) {
        text_lt_asymmetric(a.addrbase, b.addrbase);
    }
    if text_lt(a.addrquote, b.addrquote) {
        text_lt_asymmetric(a.addrquote, b.addrquote);
    }
}

/// In every pair the base address does not come after the quote address.
pub proof fn pair_of_is_ordered(a: TokenView, b: TokenView)
    ensures
        text_le(pair_of(a, b).addrbase, pair_of(a, b).addrquote),
{
    text_lt_total(a.address, b.address);
}

/// Whether `a` comes before `b` in the order of pairs.
pub fn pair_precedes(a: &PairTag, b: &PairTag) -> (r: bool)
    ensures
        r == pair_lt(a@, b@),
{
    if precedes(a.addrbase.as_str(), b.addrbase.as_str()) {
        true
    } else if a.addrbase == b.addrbase {
        precedes(a.addrquote.as_str(), b.addrquote.as_str())
    } else {
        false
    }
}

/// The tag of the pair that two tokens make.
pub fn make_pair(a: &Token, b: &Token) -> (r: PairTag)
    ensures
        r@ == pair_of(a@, b@),
{
    let swapped = precedes(b.address.as_str(), a.address.as_str());
    proof {
        text_lt_total(a@.address, b@.address);
        if swapped {
            text_lt_asymmetric(b@.address, a@.address);
        }
    }
    if swapped {
        PairTag {
            base: b.symbol.clone(),
            quote: a.symbol.clone(),
            addrbase: b.address.clone(),
            addrquote: a.address.clone(),
        }
    } else {
        PairTag {
            base: a.symbol.clone(),
            quote: b.symbol.clone(),
            addrbase: a.address.clone(),
            addrquote: b.address.clone(),
        }
    }
}

/// Puts a tag at its place in a sorted list, unless the list holds its pair
/// already.
pub fn insert_pair(out: &mut Vec<PairTag>, tag: PairTag)
    requires
        sorted(pair_views(old(out)@)),
    ensures
        sorted(pair_views(final(out)@)),
        listed(pair_views(old(out)@), tag@) ==> pair_views(final(out)@) == pair_views(old(out)@),
        !listed(pair_views(old(out)@), tag@) ==> exists|p: int|
            0 <= p <= old(out)@.len() && pair_views(final(out)@) == #[trigger] pair_views(
                old(out)@,
            ).insert(p, tag@),
{
    let ghost before = pair_views(out@);
    let mut p: usize = 0;
    let mut searching = true;
    while searching && p < out.len()
        invariant
            p <= out.len(),
            out@ == old(out)@,
            before == pair_views(out@),
            forall|x: int| 0 <= x < p ==> pair_lt(#[trigger] before[x], tag@),
            !searching ==> p < out.len() && !pair_lt(before[p as int], tag@),
        decreases out.len() - p + if searching { 1int } else { 0int },
    {
        assert(before[p as int] == out[p as int]@);
        if pair_precedes(&out[p], &tag) {
            p += 1;
        } else {
            searching = false;
        }
    }
    if p < out.len() {
        assert(before[p as int] == out[p as int]@);
        if !pair_precedes(&tag, &out[p]) {
            proof {
                pair_lt_total(before[p as int], tag@);
                assert(same_pair(before[p as int], tag@));
            }
            return ;
        }
    }
    proof {
        if p < before.len() {
            pair_lt_total(before[p as int], tag@);
        }
        assert forall|x: int| 0 <= x < before.len() implies !same_pair(
            #[trigger] before[x],
            tag@,
        ) by {
            if x < p {
                pair_lt_excludes(before[x], tag@);
            } else {
                if x > p {
                    assert(pair_lt(before[p as int], before[x]));
                    pair_lt_transitive(tag@, before[p as int], before[x]);
                }
                pair_lt_excludes(tag@, before[x]);
            }
        }
    }
    let ghost t = tag@;
    out.insert(p, tag);
    proof {
        let after = pair_views(out@);
        assert(after =~= before.insert(p as int, t));
        assert forall|x: int, y: int| 0 <= x < y < after.len() implies #[trigger] pair_lt(
            after[x],
            after[y],
        ) by {
            if y < p {
                assert(pair_lt(before[x], before[y]));
            } else if y == p {
                assert(after[x] == before[x]);
            } else if x < p {
                assert(after[x] == before[x] && after[y] == before[y - 1]);
                assert(pair_lt(before[x], before[y - 1]));
            } else if x == p {
                assert(after[y] == before[y - 1]);
                if y - 1 > p {
                    assert(pair_lt(before[p as int], before[y - 1]));
                    pair_lt_transitive(t, before[p as int], before[y - 1]);
                }
            } else {
                assert(pair_lt(before[x - 1], before[y - 1]));
            }
        }
    }
}

/// Every choice that comes before `(c, i, j)` has its pair in `out`.
pub open spec fn done(cs: Seq<ComponentView>, out: Seq<PairTagView>, c: int, i: int, j: int) -> bool {
    forall|c2: int, i2: int, j2: int|
        is_choice(cs, c2, i2, j2) && earlier(c2, i2, j2, c, i, j) ==> #[trigger] listed(
            out,
            choice(cs, c2, i2, j2),
        )
}

proof fn listed_after_insert(out: Seq<PairTagView>, p: int, tag: PairTagView, e: PairTagView)
    requires
        0 <= p <= out.len(),
        listed(out, e) || same_pair(tag, e),
    ensures
        listed(out.insert(p, tag), e),
{
    let after = out.insert(p, tag);
    if same_pair(tag, e) {
        assert(same_pair(after[p], e));
    } else {
        let x = choose|x: int| 0 <= x < out.len() && same_pair(#[trigger] out[x], e);
        if x < p {
            assert(same_pair(after[x], e));
        } else {
            assert(same_pair(after[x + 1], e));
        }
    }
}

proof fn choice_taken(
    cs: Seq<ComponentView>,
    old_out: Seq<PairTagView>,
    new_out: Seq<PairTagView>,
    c: int,
    i: int,
    j: int,
)
    requires
        is_choice(cs, c, i, j),
        forall|x: int| 0 <= x < old_out.len() ==> #[trigger] first_choice(cs, old_out[x]),
        done(cs, old_out, c, i, j),
        listed(old_out, choice(cs, c, i, j)) ==> new_out == old_out,
        !listed(old_out, choice(cs, c, i, j)) ==> exists|p: int|
            0 <= p <= old_out.len() && new_out == #[trigger] old_out.insert(p, choice(cs, c, i, j)),
    ensures
        forall|x: int| 0 <= x < new_out.len() ==> #[trigger] first_choice(cs, new_out[x]),
        done(cs, new_out, c, i, j + 1),
{
    let tag = choice(cs, c, i, j);
    if listed(old_out, tag) {
        assert forall|c2: int, i2: int, j2: int|
            is_choice(cs, c2, i2, j2) && earlier(c2, i2, j2, c, i, j + 1) implies #[trigger] listed(
            new_out,
            choice(cs, c2, i2, j2),
        ) by {
            if !earlier(c2, i2, j2, c, i, j) {
                assert(c2 == c && i2 == i && j2 == j);
            } else {
                assert(listed(old_out, choice(cs, c2, i2, j2)));
            }
        }
        assert forall|x: int| 0 <= x < new_out.len() implies #[trigger] first_choice(
            cs,
            new_out[x],
        ) by {
            assert(first_choice(cs, old_out[x]));
        }
    } else {
        let p = choose|p: int|
            0 <= p <= old_out.len() && new_out == #[trigger] old_out.insert(p, tag);
        assert forall|c2: int, i2: int, j2: int|
            is_choice(cs, c2, i2, j2) && earlier(c2, i2, j2, c, i, j) implies !#[trigger] same_pair(
            choice(cs, c2, i2, j2),
            tag,
        ) by {
            let e = choice(cs, c2, i2, j2);
            assert(listed(old_out, e));
            if same_pair(e, tag) {
                let x = choose|x: int| 0 <= x < old_out.len() && same_pair(#[trigger] old_out[x], e);
                assert(same_pair(old_out[x], tag));
            }
        }
        assert(is_first_choice(cs, tag, c, i, j));
        assert forall|x: int| 0 <= x < new_out.len() implies #[trigger] first_choice(
            cs,
            new_out[x],
        ) by {
            if x < p {
                assert(first_choice(cs, old_out[x]));
            } else if x > p {
                assert(first_choice(cs, old_out[x - 1]));
            }
        }
        assert forall|c2: int, i2: int, j2: int|
            is_choice(cs, c2, i2, j2) && earlier(c2, i2, j2, c, i, j + 1) implies #[trigger] listed(
            new_out,
            choice(cs, c2, i2, j2),
        ) by {
            let e = choice(cs, c2, i2, j2);
            if !earlier(c2, i2, j2, c, i, j) {
                assert(c2 == c && i2 == i && j2 == j);
            } else {
                assert(listed(old_out, e));
            }
            listed_after_insert(old_out, p, tag, e);
        }
    }
}

/// Lists the pairs of tokens that the components offer: every two tokens of
/// one component make a pair, the smaller address first; each pair stands
/// once, with the symbols under which it was first met; the list is in
/// rising order of base address, then quote address.
pub fn generate_pair_tags(components: &Vec<Component>) -> (r: Vec<PairTag>)
    ensures
        is_pair_listing(component_views(components@), pair_views(r@)),
{
    let ghost cs = component_views(components@);
    let mut out: Vec<PairTag> = Vec::new();
    let mut c: usize = 0;
    while c < components.len()
        invariant
            c <= components.len(),
            cs == component_views(components@),
            sorted(pair_views(out@)),
            forall|x: int| 0 <= x < out.len() ==> #[trigger] first_choice(cs, pair_views(out@)[x]),
            done(cs, pair_views(out@), c as int, 0, 0),
        decreases components.len() - c,
    {
        let tokens = &components[c].tokens;
        assert(cs[c as int] == components[c as int]@);
        let mut i: usize = 0;
        while i < tokens.len()
            invariant
                c < components.len(),
                i <= tokens.len(),
                cs == component_views(components@),
                tokens == &components[c as int].tokens,
                cs[c as int].tokens.len() == tokens.len(),
                sorted(pair_views(out@)),
                forall|x: int|
                    0 <= x < out.len() ==> #[trigger] first_choice(cs, pair_views(out@)[x]),
                done(cs, pair_views(out@), c as int, i as int, 0),
            decreases tokens.len() - i,
        {
            let mut j: usize = i + 1;
            while j < tokens.len()
                invariant
                    c < components.len(),
                    i < tokens.len(),
                    i < j <= tokens.len(),
                    cs == component_views(components@),
                    tokens == &components[c as int].tokens,
                    cs[c as int].tokens.len() == tokens.len(),
                    sorted(pair_views(out@)),
                    forall|x: int|
                        0 <= x < out.len() ==> #[trigger] first_choice(cs, pair_views(out@)[x]),
                    done(cs, pair_views(out@), c as int, i as int, j as int),
                decreases tokens.len() - j,
            {
                let tag = make_pair(&tokens[i], &tokens[j]);
                let ghost old_out = pair_views(out@);
                assert(cs[c as int] == components[c as int]@);
                assert(cs[c as int].tokens[i as int] == tokens[i as int]@);
                assert(cs[c as int].tokens[j as int] == tokens[j as int]@);
                assert(tag@ == choice(cs, c as int, i as int, j as int));
                insert_pair(&mut out, tag);
                proof {
                    choice_taken(cs, old_out, pair_views(out@), c as int, i as int, j as int);
                }
                j += 1;
            }
            i += 1;
        }
        c += 1;
    }
    out
}

proof fn listings_align(cs: Seq<ComponentView>, a: Seq<PairTagView>, b: Seq<PairTagView>, x: int)
    requires
        is_pair_listing(cs, a),
        is_pair_listing(cs, b),
        0 <= x < a.len(),
    ensures
        x < b.len(),
        same_pair(a[x], b[x]),
    decreases x,
{
    assert(first_choice(cs, a[x]));
    let (c, i, j) = choose|c: int, i: int, j: int| is_first_choice(cs, a[x], c, i, j);
    assert(listed(b, choice(cs, c, i, j)));
    let y = choose|y: int| 0 <= y < b.len() && same_pair(#[trigger] b[y], a[x]);
    if y < x {
        listings_align(cs, a, b, y);
        assert(pair_lt(a[y], a[x]));
        pair_lt_excludes(a[y], a[x]);
    }
    assert(first_choice(cs, b[x]));
    let (c2, i2, j2) = choose|c2: int, i2: int, j2: int| is_first_choice(cs, b[x], c2, i2, j2);
    assert(listed(a, choice(cs, c2, i2, j2)));
    let z = choose|z: int| 0 <= z < a.len() && same_pair(#[trigger] a[z], b[x]);
    if z < x {
        listings_align(cs, a, b, z);
        assert(pair_lt(b[z], b[x]));
        pair_lt_excludes(b[z], b[x]);
    }
    if y > x {
        assert(pair_lt(b[x], b[y]));
        pair_lt_excludes(b[x], b[y]);
        if z > x {
            assert(pair_lt(a[x], a[z]));
            pair_lt_excludes(a[x], a[z]);
        }
    }
}

/// A list of components has one pair listing only.
pub proof fn pair_listing_is_unique(
    cs: Seq<ComponentView>,
    a: Seq<PairTagView>,
    b: Seq<PairTagView>,
)
    requires
        is_pair_listing(cs, a),
        is_pair_listing(cs, b),
    ensures
        a == b,
{
    if a.len() > 0 {
        listings_align(cs, a, b, a.len() - 1);
    }
    if b.len() > 0 {
        listings_align(cs, b, a, b.len() - 1);
    }
    assert forall|x: int| 0 <= x < a.len() implies a[x] == b[x] by {
        listings_align(cs, a, b, x);
        assert(first_choice(cs, a[x]));
        assert(first_choice(cs, b[x]));
        let (c, i, j) = choose|c: int, i: int, j: int| is_first_choice(cs, a[x], c, i, j);
        let (c2, i2, j2) = choose|c2: int, i2: int, j2: int| is_first_choice(cs, b[x], c2, i2, j2);
        if earlier(c, i, j, c2, i2, j2) {
            assert(!same_pair(choice(cs, c, i, j), b[x]));
        } else if earlier(c2, i2, j2, c, i, j) {
            assert(!same_pair(choice(cs, c2, i2, j2), a[x]));
        } else {
            assert(c == c2 && i == i2 && j == j2);
        }
    }
    assert(a =~= b);
}

/// A pair as a component of its own: its two tokens, the base first.
pub open spec fn pair_component(tag: PairTagView) -> ComponentView {
    ComponentView {
        id: tag.addrbase + "-"@ + tag.addrquote,
        protocol_system: Seq::empty(),
        tokens: seq![
            TokenView { address: tag.addrbase, symbol: tag.base, decimals: 0, quality: 0 },
            TokenView { address: tag.addrquote, symbol: tag.quote, decimals: 0, quality: 0 },
        ],
        static_attributes: Seq::empty(),
        last_updated_at: 0,
    }
}

/// A pair listing as a list of components, one for each pair.
pub open spec fn pairs_canonicalize(out: Seq<PairTagView>) -> Seq<ComponentView> {
    Seq::new(out.len(), |x: int| pair_component(out[x]))
}

/// Listing the pairs is idempotent: the pair listing of a list of
/// components is also the pair listing of its own pairs, taken as
/// components.
pub proof fn pair_listing_is_idempotent(cs: Seq<ComponentView>, out: Seq<PairTagView>)
    requires
        is_pair_listing(cs, out),
    ensures
        is_pair_listing(pairs_canonicalize(out), out),
{
    let canon = pairs_canonicalize(out);
    assert forall|x: int| 0 <= x < out.len() implies out[x] == choice(canon, x, 0, 1) by {
        pair_listing_is_ordered(cs, out, x);
    }
    assert forall|x: int| 0 <= x < out.len() implies #[trigger] first_choice(canon, out[x]) by {
        assert forall|c2: int, i2: int, j2: int|
            is_choice(canon, c2, i2, j2) && earlier(c2, i2, j2, x, 0, 1) implies !#[trigger] same_pair(
            choice(canon, c2, i2, j2),
            out[x],
        ) by {
            assert(i2 == 0 && j2 == 1);
            assert(out[c2] == choice(canon, c2, 0, 1));
            assert(pair_lt(out[c2], out[x]));
            pair_lt_excludes(out[c2], out[x]);
        }
        assert(is_first_choice(canon, out[x], x, 0, 1));
    }
    assert forall|c: int, i: int, j: int| is_choice(canon, c, i, j) implies #[trigger] listed(
        out,
        choice(canon, c, i, j),
    ) by {
        assert(i == 0 && j == 1);
        assert(same_pair(out[c], choice(canon, c, i, j)));
    }
}

/// Listing the pairs again gives the same list: whatever lists the pairs of
/// a pair listing, taken as components, is that listing.
pub proof fn pair_listing_round_trip(
    cs: Seq<ComponentView>,
    out: Seq<PairTagView>,
    again: Seq<PairTagView>,
)
    requires
        is_pair_listing(cs, out),
        is_pair_listing(pairs_canonicalize(out), again),
    ensures
        again == out,
{
    pair_listing_is_idempotent(cs, out);
    pair_listing_is_unique(pairs_canonicalize(out), again, out);
}

/// In a pair listing no base address comes after its quote address.
pub proof fn pair_listing_is_ordered(cs: Seq<ComponentView>, out: Seq<PairTagView>, x: int)
    requires
        is_pair_listing(cs, out),
        0 <= x < out.len(),
    ensures
        text_le(out[x].addrbase, out[x].addrquote),
{
    assert(first_choice(cs, out[x]));
    let (c, i, j) = choose|c: int, i: int, j: int| is_first_choice(cs, out[x], c, i, j);
    pair_of_is_ordered(cs[c].tokens[i], cs[c].tokens[j]);
}

/// No two tokens of one component share an address.
pub open spec fn distinct_addresses(cs: Seq<ComponentView>) -> bool {
    forall|c: int, i: int, j: int|
        is_choice(cs, c, i, j) ==> (#[trigger] cs[c].tokens[i]).address != (
        #[trigger] cs[c].tokens[j]).address
}

/// Where no two tokens of one component share an address, every base
/// address of the pair listing comes strictly before its quote address.
pub proof fn pair_listing_is_strictly_ordered(
    cs: Seq<ComponentView>,
    out: Seq<PairTagView>,
    x: int,
)
    requires
        is_pair_listing(cs, out),
        distinct_addresses(cs),
        0 <= x < out.len(),
    ensures
        text_lt(out[x].addrbase, out[x].addrquote),
{
    assert(first_choice(cs, out[x]));
    let (c, i, j) = choose|c: int, i: int, j: int| is_first_choice(cs, out[x], c, i, j);
    pair_of_is_ordered(cs[c].tokens[i], cs[c].tokens[j]);
    assert(cs[c].tokens[i].address != cs[c].tokens[j].address);
}

/// A pair listing is in strictly rising order and holds no pair twice.
pub proof fn pair_listing_has_no_duplicate(
    cs: Seq<ComponentView>,
    out: Seq<PairTagView>,
    x: int,
    y: int,
)
    requires
        is_pair_listing(cs, out),
        0 <= x < y < out.len(),
    ensures
        pair_lt(out[x], out[y]),
        !same_pair(out[x], out[y]),
{
    assert(pair_lt(out[x], out[y]));
    pair_lt_excludes(out[x], out[y]);
}

} // verus!
