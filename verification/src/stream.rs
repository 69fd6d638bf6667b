//! What a block of the stream does to the stored component list.

use crate::lookup::{
    component_ids,
    component_keys,
    find_component,
    first_match,
    position,
    position_is_first_match,
    position_of_first_match,
    position_of_no_match,
};
use crate::text::{contains, lower_all, lowercase, lowered, occurs_in, same_text, texts};
use crate::types::{Component, ComponentView, StreamState, component_views};
use vstd::prelude::*;

verus! {

/// The address that stands for "no address".
pub open spec fn null_address() -> Seq<char> {
    "0x0000000000000000000000000000000000000000"@
}

/// A component is installed from the first block unless its identifier
/// holds the null address.
pub open spec fn installable(c: ComponentView) -> bool {
    !occurs_in(null_address(), c.id)
}

/// The component list after the first block: its installable pairs in
/// order, each last updated at `now`.
pub open spec fn installed(new_pairs: Seq<ComponentView>, now: u64) -> Seq<ComponentView>
    decreases new_pairs.len(),
{
    if new_pairs.len() == 0 {
        Seq::empty()
    } else if installable(new_pairs.last()) {
        installed(new_pairs.drop_last(), now).push(new_pairs.last().stamped(now))
    } else {
        installed(new_pairs.drop_last(), now)
    }
}

/// The list with the component of identifier `id` last updated at `now`; the
/// same list where it holds no such component.
pub open spec fn touch(cs: Seq<ComponentView>, id: Seq<char>, now: u64) -> Seq<ComponentView> {
    match position(component_ids(cs), id) {
        Some(k) => cs.update(k, cs[k].stamped(now)),
        None => cs,
    }
}

/// The list with `pc` in the place of the component of its identifier, or at
/// the end where there is none.
pub open spec fn upsert(cs: Seq<ComponentView>, pc: ComponentView) -> Seq<ComponentView> {
    match position(component_ids(cs), pc.id) {
        Some(k) => cs.update(k, pc),
        None => cs.push(pc),
    }
}

/// The list without the component of identifier `id`: the last component
/// takes its place.
pub open spec fn discard(cs: Seq<ComponentView>, id: Seq<char>) -> Seq<ComponentView> {
    match position(component_ids(cs), id) {
        Some(k) => cs.update(k, cs.last()).drop_last(),
        None => cs,
    }
}

/// Every identifier of `ids` touched in turn.
pub open spec fn touched(cs: Seq<ComponentView>, ids: Seq<Seq<char>>, now: u64) -> Seq<
    ComponentView,
>
    decreases ids.len(),
{
    if ids.len() == 0 {
        cs
    } else {
        touch(touched(cs, ids.drop_last(), now), ids.last(), now)
    }
}

/// Every new pair put in turn, each last updated at `now`.
pub open spec fn upserted(cs: Seq<ComponentView>, new_pairs: Seq<ComponentView>, now: u64) -> Seq<
    ComponentView,
>
    decreases new_pairs.len(),
{
    if new_pairs.len() == 0 {
        cs
    } else {
        upsert(upserted(cs, new_pairs.drop_last(), now), new_pairs.last().stamped(now))
    }
}

/// Every identifier of `ids` discarded in turn.
pub open spec fn discarded(cs: Seq<ComponentView>, ids: Seq<Seq<char>>) -> Seq<ComponentView>
    decreases ids.len(),
{
    if ids.len() == 0 {
        cs
    } else {
        discard(discarded(cs, ids.drop_last()), ids.last())
    }
}

/// The component list after a block: first the components whose state
/// changed are touched, then the new pairs are put, then the removed pairs
/// are discarded.
pub open spec fn delta_applied(
    cs: Seq<ComponentView>,
    changed: Seq<Seq<char>>,
    new_pairs: Seq<ComponentView>,
    removed: Seq<Seq<char>>,
    now: u64,
) -> Seq<ComponentView> {
    discarded(upserted(touched(cs, changed, now), new_pairs, now), removed)
}

/// The component list to store after the first block.
pub fn first_install(new_pairs: &Vec<Component>, now: u64) -> (r: Vec<Component>)
    ensures
        component_views(r@) == installed(component_views(new_pairs@), now),
{
    let ghost pairs = component_views(new_pairs@);
    let mut out: Vec<Component> = Vec::new();
    let mut i: usize = 0;
    assert(pairs.take(0) =~= Seq::empty());
    assert(component_views(out@) =~= Seq::empty());
    while i < new_pairs.len()
        invariant
            i <= new_pairs.len(),
            pairs == component_views(new_pairs@),
            component_views(out@) == installed(pairs.take(i as int), now),
        decreases new_pairs.len() - i,
    {
        let ghost before = component_views(out@);
        assert(pairs.take(i as int + 1).drop_last() =~= pairs.take(i as int));
        assert(pairs.take(i as int + 1).last() == new_pairs[i as int]@);
        let comp = &new_pairs[i];
        if !contains(comp.id.as_str(), "0x0000000000000000000000000000000000000000") {
            out.push(comp.stamped(now));
            assert(component_views(out@) =~= before.push(comp@.stamped(now)));
        }
        i += 1;
    }
    assert(pairs.take(i as int) =~= pairs);
    out
}

/// The place `place` as a number, where it is a place of a list of length
/// `len`.
pub open spec fn place_in(place: Option<usize>, len: nat) -> Option<int> {
    match place {
        Some(k) => if k < len {
            Some(k as int)
        } else {
            None
        },
        None => None,
    }
}

/// Marks the component at a place as last updated at `now`. Without a place
/// of the list nothing changes.
pub fn stamp_at(cs: &mut Vec<Component>, place: Option<usize>, now: u64)
    ensures
        component_views(final(cs)@) == match place_in(place, old(cs)@.len()) {
            Some(k) => component_views(old(cs)@).update(
                k,
                component_views(old(cs)@)[k].stamped(now),
            ),
            None => component_views(old(cs)@),
        },
{
    let ghost before = component_views(cs@);
    match place {
        Some(k) => {
            if k < cs.len() {
                let mut c = cs.remove(k);
                assert(c@ == before[k as int]);
                c.last_updated_at = now;
                cs.insert(k, c);
                assert(component_views(cs@) =~= before.update(
                    k as int,
                    before[k as int].stamped(now),
                ));
            }
        },
        None => {},
    }
}

/// Puts a component, last updated at `now`, at a place of the list, or at
/// its end without one.
pub fn put_at(cs: &mut Vec<Component>, place: Option<usize>, pc: &Component, now: u64)
    ensures
        component_views(final(cs)@) == match place_in(place, old(cs)@.len()) {
            Some(k) => component_views(old(cs)@).update(k, pc@.stamped(now)),
            None => component_views(old(cs)@).push(pc@.stamped(now)),
        },
{
    let ghost before = component_views(cs@);
    let fresh = pc.stamped(now);
    match place {
        Some(k) => {
            if k < cs.len() {
                let _ = cs.remove(k);
                cs.insert(k, fresh);
                assert(component_views(cs@) =~= before.update(k as int, pc@.stamped(now)));
                return ;
            }
        },
        None => {},
    }
    cs.push(fresh);
    assert(component_views(cs@) =~= before.push(pc@.stamped(now)));
}

/// Takes the component at a place out of the list: the last component
/// moves into the gap. Without a place of the list nothing changes.
pub fn drop_at(cs: &mut Vec<Component>, place: Option<usize>)
    ensures
        component_views(final(cs)@) == match place_in(place, old(cs)@.len()) {
            Some(k) => component_views(old(cs)@).update(
                k,
                component_views(old(cs)@).last(),
            ).drop_last(),
            None => component_views(old(cs)@),
        },
{
    let ghost before = component_views(cs@);
    match place {
        Some(k) => {
            if k < cs.len() {
                let _ = cs.swap_remove(k);
                assert(component_views(cs@) =~= before.update(k as int, before.last()).drop_last());
            }
        },
        None => {},
    }
}

/// Touches one component.
pub fn touch_component(cs: &mut Vec<Component>, id: &str, now: u64)
    ensures
        component_views(final(cs)@) == touch(component_views(old(cs)@), id@, now),
{
    let place = find_component(cs, id);
    proof {
        position_is_first_match(component_ids(component_views(cs@)), id@);
    }
    stamp_at(cs, place, now);
}

/// Puts one component, last updated at `now`.
pub fn upsert_component(cs: &mut Vec<Component>, pc: &Component, now: u64)
    ensures
        component_views(final(cs)@) == upsert(component_views(old(cs)@), pc@.stamped(now)),
{
    let place = find_component(cs, pc.id.as_str());
    proof {
        position_is_first_match(component_ids(component_views(cs@)), pc@.id);
    }
    put_at(cs, place, pc, now);
}

/// Discards one component.
pub fn discard_component(cs: &mut Vec<Component>, id: &str)
    ensures
        component_views(final(cs)@) == discard(component_views(old(cs)@), id@),
{
    let place = find_component(cs, id);
    proof {
        position_is_first_match(component_ids(component_views(cs@)), id@);
    }
    drop_at(cs, place);
}

/// The component list to store after a block, from the list `components`
/// that was stored before it: `changed` holds the identifiers whose state the
/// block changed, `new_pairs` the pairs it added, `removed` the identifiers
/// of those it removed.
pub fn apply_delta(
    components: Vec<Component>,
    changed: &Vec<String>,
    new_pairs: &Vec<Component>,
    removed: &Vec<String>,
    now: u64,
) -> (r: Vec<Component>)
    ensures
        component_views(r@) == delta_applied(
            component_views(components@),
            texts(changed@),
            component_views(new_pairs@),
            texts(removed@),
            now,
        ),
{
    let ghost start = component_views(components@);
    let ghost ids = texts(changed@);
    let ghost pairs = component_views(new_pairs@);
    let ghost gone = texts(removed@);
    let mut cs = components;
    let mut i: usize = 0;
    assert(ids.take(0) =~= Seq::empty());
    while i < changed.len()
        invariant
            i <= changed.len(),
            ids == texts(changed@),
            component_views(cs@) == touched(start, ids.take(i as int), now),
        decreases changed.len() - i,
    {
        assert(ids.take(i as int + 1).drop_last() =~= ids.take(i as int));
        assert(ids.take(i as int + 1).last() == changed[i as int]@);
        touch_component(&mut cs, changed[i].as_str(), now);
        i += 1;
    }
    assert(ids.take(i as int) =~= ids);
    let ghost first = component_views(cs@);
    let mut i: usize = 0;
    assert(pairs.take(0) =~= Seq::empty());
    while i < new_pairs.len()
        invariant
            i <= new_pairs.len(),
            pairs == component_views(new_pairs@),
            component_views(cs@) == upserted(first, pairs.take(i as int), now),
        decreases new_pairs.len() - i,
    {
        assert(pairs.take(i as int + 1).drop_last() =~= pairs.take(i as int));
        assert(pairs.take(i as int + 1).last() == new_pairs[i as int]@);
        upsert_component(&mut cs, &new_pairs[i], now);
        i += 1;
    }
    assert(pairs.take(i as int) =~= pairs);
    let ghost second = component_views(cs@);
    let mut i: usize = 0;
    assert(gone.take(0) =~= Seq::empty());
    while i < removed.len()
        invariant
            i <= removed.len(),
            gone == texts(removed@),
            component_views(cs@) == discarded(second, gone.take(i as int)),
        decreases removed.len() - i,
    {
        assert(gone.take(i as int + 1).drop_last() =~= gone.take(i as int));
        assert(gone.take(i as int + 1).last() == removed[i as int]@);
        discard_component(&mut cs, removed[i].as_str());
        i += 1;
    }
    assert(gone.take(i as int) =~= gone);
    cs
}

/// Whether a block changes the stored component list: it does when it
/// changes a state, adds a pair or removes one.
pub open spec fn changes_components(
    changed: Seq<Seq<char>>,
    new_pairs: Seq<ComponentView>,
    removed: Seq<Seq<char>>,
) -> bool {
    changed.len() > 0 || new_pairs.len() > 0 || removed.len() > 0
}

/// Whether the stored component list has to be read for a block.
pub fn needs_components(
    initialised: bool,
    changed: &Vec<String>,
    new_pairs: &Vec<Component>,
    removed: &Vec<String>,
) -> (r: bool)
    ensures
        r == (initialised && changes_components(
            texts(changed@),
            component_views(new_pairs@),
            texts(removed@),
        )),
{
    initialised && (changed.len() > 0 || new_pairs.len() > 0 || removed.len() > 0)
}

/// The identifiers under which a block's states go into the shared state:
/// the lowercase forms of the identifiers that the block names, in their
/// order.
pub open spec fn planned_merged(changed: Seq<Seq<char>>) -> Seq<Seq<char>> {
    lowered(changed)
}

/// The identifiers under which the pairs of the first block go into the
/// shared state: the lowercase forms of their identifiers, in their order.
/// A later block puts no pair there.
pub open spec fn planned_paired(initialised: bool, new_pairs: Seq<ComponentView>) -> Seq<Seq<char>> {
    if initialised {
        Seq::empty()
    } else {
        lowered(component_ids(new_pairs))
    }
}

/// The list of touched identifiers that a block stores: an empty list for
/// the first block; for a later block the lowercased identifiers of the
/// changed states, and nothing where no state changed.
pub open spec fn planned_updated(initialised: bool, changed: Seq<Seq<char>>) -> Option<
    Seq<Seq<char>>,
> {
    if !initialised {
        Some(Seq::empty())
    } else if changed.len() > 0 {
        Some(lowered(changed))
    } else {
        None
    }
}

/// The component list that a block stores: for the first block its
/// installable pairs; for a later block that changes the list, the stored
/// list with the block applied, where the stored list could be read.
pub open spec fn planned_components(
    initialised: bool,
    changed: Seq<Seq<char>>,
    new_pairs: Seq<ComponentView>,
    removed: Seq<Seq<char>>,
    stored: Option<Seq<ComponentView>>,
    now: u64,
) -> Option<Seq<ComponentView>> {
    if !initialised {
        Some(installed(new_pairs, now))
    } else if stored is Some && changes_components(changed, new_pairs, removed) {
        Some(delta_applied(stored->0, lowered(changed), new_pairs, removed, now))
    } else {
        None
    }
}

/// Identifiers are stored in lowercase: every identifier under which a
/// block, the first or a later one, puts a state into the shared state, and
/// every identifier in the list of touched ones that a later block stores,
/// is the lowercase form of the identifier that the block names. Where the
/// block names it in lowercase, as the stream promises, it is stored as
/// named and equals its own lowercase form.
pub proof fn stored_ids_are_lowercase(changed: Seq<Seq<char>>, i: int)
    requires
        0 <= i < changed.len(),
    ensures
        planned_merged(changed).len() == changed.len(),
        planned_merged(changed)[i] == lowercase(changed[i]),
        planned_updated(true, changed) is Some,
        planned_updated(true, changed)->0[i] == lowercase(changed[i]),
        lowercase(changed[i]) == changed[i] ==> planned_merged(changed)[i] == changed[i]
            && lowercase(planned_merged(changed)[i]) == planned_merged(changed)[i],
{
}

/// The pairs of the first block are kept in lowercase too: each goes into
/// the shared state under the lowercase form of its identifier. Where the
/// block names it in lowercase, as the stream promises, it is stored as
/// named and equals its own lowercase form.
pub proof fn installed_ids_are_lowercase(new_pairs: Seq<ComponentView>, i: int)
    requires
        0 <= i < new_pairs.len(),
    ensures
        planned_paired(false, new_pairs).len() == new_pairs.len(),
        planned_paired(false, new_pairs)[i] == lowercase(new_pairs[i].id),
        lowercase(new_pairs[i].id) == new_pairs[i].id ==> planned_paired(false, new_pairs)[i]
            == new_pairs[i].id && lowercase(planned_paired(false, new_pairs)[i])
            == planned_paired(false, new_pairs)[i],
{
}

/// What a block asks to be written, in the order of the fields.
pub struct BlockPlan {
    /// The number of the block, stored as the latest.
    pub latest: u64,
    /// The status to store before anything else changes: `Syncing` for the
    /// first block, none for a later one.
    pub entry: Option<StreamState>,
    /// The block is the first: the shared state is emptied before the
    /// block's states and pairs go into it, and marked as initialised after.
    pub install: bool,
    /// The identifiers under which the states of the block go into the
    /// shared state, one for each state in the order given.
    pub merged: Vec<String>,
    /// The identifiers under which the pairs of the first block go into the
    /// shared state, one for each pair in the order given.
    pub paired: Vec<String>,
    /// The list of touched identifiers to store, if one is to be stored.
    pub updated: Option<Vec<String>>,
    /// The component list to store, if one is to be stored.
    pub components: Option<Vec<Component>>,
    /// The status to store last.
    pub status: StreamState,
}

/// Plans the writes of a block. `initialised` says whether a first block
/// was installed before; `changed` holds the identifiers whose state the
/// block brings, `new_pairs` its new pairs, `removed` the identifiers of its
/// removed pairs; `stored` is the component list read from the store, `None`
/// where it was not read or could not be.
pub fn plan_block(
    initialised: bool,
    block_number: u64,
    changed: &Vec<String>,
    new_pairs: &Vec<Component>,
    removed: &Vec<String>,
    stored: Option<Vec<Component>>,
    now: u64,
) -> (r: BlockPlan)
    ensures
        r.latest == block_number,
        r.entry == if initialised {
            None
        } else {
            Some(StreamState::Syncing)
        },
        r.install == !initialised,
        r.status == StreamState::Running,
        texts(r.merged@) == planned_merged(texts(changed@)),
        texts(r.paired@) == planned_paired(initialised, component_views(new_pairs@)),
        match planned_updated(initialised, texts(changed@)) {
            Some(u) => r.updated is Some && texts(r.updated->0@) == u,
            None => r.updated is None,
        },
        match planned_components(
            initialised,
            texts(changed@),
            component_views(new_pairs@),
            texts(removed@),
            match stored {
                Some(s) => Some(component_views(s@)),
                None => None,
            },
            now,
        ) {
            Some(c) => r.components is Some && component_views(r.components->0@) == c,
            None => r.components is None,
        },
{
    if !initialised {
        let merged = lower_all(changed);
        let paired = component_keys(new_pairs);
        let updated: Vec<String> = Vec::new();
        assert(texts(updated@) =~= Seq::empty());
        return BlockPlan {
            latest: block_number,
            entry: Some(StreamState::Syncing),
            install: true,
            merged,
            paired,
            updated: Some(updated),
            components: Some(first_install(new_pairs, now)),
            status: StreamState::Running,
        };
    }
    let merged = lower_all(changed);
    let updated = if changed.len() > 0 {
        Some(lower_all(changed))
    } else {
        None
    };
    let wanted = needs_components(true, changed, new_pairs, removed);
    let components = match stored {
        Some(current) => {
            if wanted {
                Some(apply_delta(current, &merged, new_pairs, removed, now))
            } else {
                None
            }
        },
        None => None,
    };
    let paired: Vec<String> = Vec::new();
    assert(texts(paired@) =~= Seq::empty());
    BlockPlan {
        latest: block_number,
        entry: None,
        install: false,
        merged,
        paired,
        updated,
        components,
        status: StreamState::Running,
    }
}

/// How a stream session ends.
#[derive(Debug, Clone, Copy, PartialEq, Eq, Structural)]
pub enum StreamEnd {
    /// The stream could not be built.
    BuildFailed,
    /// Reading the next block failed.
    Failed,
    /// The stream ended by itself.
    Ended,
}

/// The status to store when a session ends: `Error` after a failure, none
/// where the stream just ended.
pub fn closing_status(end: StreamEnd) -> (r: Option<StreamState>)
    ensures
        r == match end {
            StreamEnd::BuildFailed => Some(StreamState::Error),
            StreamEnd::Failed => Some(StreamState::Error),
            StreamEnd::Ended => None::<StreamState>,
        },
{
    match end {
        StreamEnd::BuildFailed => Some(StreamState::Error),
        StreamEnd::Failed => Some(StreamState::Error),
        StreamEnd::Ended => None,
    }
}

/// The seconds to wait before a stream is started again.
pub fn restart_delay(testing: bool) -> (r: u64)
    ensures
        r == if testing {
            5u64
        } else {
            60u64
        },
{
    if testing {
        5
    } else {
        60
    }
}

/// `e` was last updated at `now`, or stands unchanged in `pre`.
pub open spec fn comes_from(pre: Seq<ComponentView>, e: ComponentView, now: u64) -> bool {
    e.last_updated_at == now || exists|k: int| 0 <= k < pre.len() && pre[k] == e
}

/// Every component of `post` was last updated at `now` or stands unchanged
/// in `pre`.
pub open spec fn derived(pre: Seq<ComponentView>, post: Seq<ComponentView>, now: u64) -> bool {
    forall|j: int| 0 <= j < post.len() ==> #[trigger] comes_from(pre, post[j], now)
}

proof fn touch_derives(pre: Seq<ComponentView>, mid: Seq<ComponentView>, id: Seq<char>, now: u64)
    requires
        derived(pre, mid, now),
    ensures
        derived(pre, touch(mid, id, now), now),
{
    let post = touch(mid, id, now);
    position_is_first_match(component_ids(mid), id);
    assert forall|j: int| 0 <= j < post.len() implies #[trigger] comes_from(pre, post[j], now) by {
        if post[j].last_updated_at != now {
            assert(comes_from(pre, mid[j], now));
        }
    }
}

proof fn upsert_derives(
    pre: Seq<ComponentView>,
    mid: Seq<ComponentView>,
    pc: ComponentView,
    now: u64,
)
    requires
        derived(pre, mid, now),
        pc.last_updated_at == now,
    ensures
        derived(pre, upsert(mid, pc), now),
{
    let post = upsert(mid, pc);
    position_is_first_match(component_ids(mid), pc.id);
    assert forall|j: int| 0 <= j < post.len() implies #[trigger] comes_from(pre, post[j], now) by {
        if post[j].last_updated_at != now {
            assert(comes_from(pre, mid[j], now));
        }
    }
}

proof fn discard_derives(pre: Seq<ComponentView>, mid: Seq<ComponentView>, id: Seq<char>, now: u64)
    requires
        derived(pre, mid, now),
    ensures
        derived(pre, discard(mid, id), now),
{
    let post = discard(mid, id);
    position_is_first_match(component_ids(mid), id);
    assert forall|j: int| 0 <= j < post.len() implies #[trigger] comes_from(pre, post[j], now) by {
        if post[j] == mid[j] {
            assert(comes_from(pre, mid[j], now));
        } else {
            assert(post[j] == mid.last());
            assert(comes_from(pre, mid[mid.len() - 1], now));
        }
    }
}

proof fn touched_derives(
    pre: Seq<ComponentView>,
    mid: Seq<ComponentView>,
    ids: Seq<Seq<char>>,
    now: u64,
)
    requires
        derived(pre, mid, now),
    ensures
        derived(pre, touched(mid, ids, now), now),
    decreases ids.len(),
{
    if ids.len() > 0 {
        touched_derives(pre, mid, ids.drop_last(), now);
        touch_derives(pre, touched(mid, ids.drop_last(), now), ids.last(), now);
    }
}

proof fn upserted_derives(
    pre: Seq<ComponentView>,
    mid: Seq<ComponentView>,
    new_pairs: Seq<ComponentView>,
    now: u64,
)
    requires
        derived(pre, mid, now),
    ensures
        derived(pre, upserted(mid, new_pairs, now), now),
    decreases new_pairs.len(),
{
    if new_pairs.len() > 0 {
        upserted_derives(pre, mid, new_pairs.drop_last(), now);
        upsert_derives(
            pre,
            upserted(mid, new_pairs.drop_last(), now),
            new_pairs.last().stamped(now),
            now,
        );
    }
}

proof fn discarded_derives(
    pre: Seq<ComponentView>,
    mid: Seq<ComponentView>,
    ids: Seq<Seq<char>>,
    now: u64,
)
    requires
        derived(pre, mid, now),
    ensures
        derived(pre, discarded(mid, ids), now),
    decreases ids.len(),
{
    if ids.len() > 0 {
        discarded_derives(pre, mid, ids.drop_last(), now);
        discard_derives(pre, discarded(mid, ids.drop_last()), ids.last(), now);
    }
}

/// After a block, every stored component was last updated at the time of
/// the block or stands as it stood before.
pub proof fn delta_derives(
    cs: Seq<ComponentView>,
    changed: Seq<Seq<char>>,
    new_pairs: Seq<ComponentView>,
    removed: Seq<Seq<char>>,
    now: u64,
)
    ensures
        derived(cs, delta_applied(cs, changed, new_pairs, removed, now), now),
{
    assert forall|j: int| 0 <= j < cs.len() implies #[trigger] comes_from(cs, cs[j], now) by {}
    touched_derives(cs, cs, changed, now);
    let first = touched(cs, changed, now);
    upserted_derives(cs, first, new_pairs, now);
    discarded_derives(cs, upserted(first, new_pairs, now), removed, now);
}

/// No two components of a list share an identifier, letter case aside.
pub open spec fn distinct_ids(cs: Seq<ComponentView>) -> bool {
    forall|x: int, y: int|
        0 <= x < y < cs.len() ==> !same_text((#[trigger] cs[x]).id, (#[trigger] cs[y]).id)
}

/// A block never takes a component back in time: where the stored
/// identifiers are distinct and no stored time lies after the time of the
/// block, a component stored after the block was last updated no earlier
/// than the component of the same identifier stored before it.
pub proof fn delta_never_ages(
    cs: Seq<ComponentView>,
    changed: Seq<Seq<char>>,
    new_pairs: Seq<ComponentView>,
    removed: Seq<Seq<char>>,
    now: u64,
    j: int,
    k: int,
)
    requires
        distinct_ids(cs),
        forall|x: int| 0 <= x < cs.len() ==> (#[trigger] cs[x]).last_updated_at <= now,
        0 <= j < delta_applied(cs, changed, new_pairs, removed, now).len(),
        0 <= k < cs.len(),
        same_text(delta_applied(cs, changed, new_pairs, removed, now)[j].id, cs[k].id),
    ensures
        delta_applied(cs, changed, new_pairs, removed, now)[j].last_updated_at
            >= cs[k].last_updated_at,
{
    let post = delta_applied(cs, changed, new_pairs, removed, now);
    delta_derives(cs, changed, new_pairs, removed, now);
    assert(comes_from(cs, post[j], now));
    if post[j].last_updated_at != now {
        let x = choose|x: int| 0 <= x < cs.len() && cs[x] == post[j];
        if x < k {
            assert(!same_text(cs[x].id, cs[k].id));
        }
        if k < x {
            assert(!same_text(cs[k].id, cs[x].id));
        }
    }
}

proof fn touched_keeps_ids(cs: Seq<ComponentView>, ids: Seq<Seq<char>>, now: u64)
    ensures
        component_ids(touched(cs, ids, now)) == component_ids(cs),
    decreases ids.len(),
{
    if ids.len() > 0 {
        touched_keeps_ids(cs, ids.drop_last(), now);
        let prev = touched(cs, ids.drop_last(), now);
        position_is_first_match(component_ids(prev), ids.last());
        assert(component_ids(touch(prev, ids.last(), now)) =~= component_ids(prev));
    }
}

proof fn touched_stamps(cs: Seq<ComponentView>, ids: Seq<Seq<char>>, now: u64, j: int, t: int)
    requires
        distinct_ids(cs),
        0 <= j < cs.len(),
        0 <= t < ids.len(),
        same_text(cs[j].id, ids[t]),
    ensures
        touched(cs, ids, now).len() == cs.len(),
        touched(cs, ids, now)[j].last_updated_at == now,
    decreases ids.len(),
{
    let prev = touched(cs, ids.drop_last(), now);
    touched_keeps_ids(cs, ids.drop_last(), now);
    touched_keeps_ids(cs, ids, now);
    assert(component_ids(prev).len() == cs.len());
    assert(component_ids(touched(cs, ids, now)).len() == cs.len());
    position_is_first_match(component_ids(prev), ids.last());
    if t == ids.len() - 1 {
        assert(component_ids(prev)[j] == component_ids(cs)[j]);
        let k = position(component_ids(prev), ids.last())->0;
        assert(component_ids(prev)[k] == component_ids(cs)[k]);
        if k < j {
            assert(!same_text(cs[k].id, cs[j].id));
        }
    } else {
        touched_stamps(cs, ids.drop_last(), now, j, t);
    }
}

/// A block makes a stored orderbook stale where it changes the state of one
/// of its pools after the book was built: the pool is then no longer fresh
/// against the component list that the block leaves, whatever else the
/// block adds or removes. The stored identifiers are taken to be distinct.
pub proof fn changed_pool_is_stale(
    pool: ComponentView,
    cs: Seq<ComponentView>,
    changed: Seq<Seq<char>>,
    new_pairs: Seq<ComponentView>,
    removed: Seq<Seq<char>>,
    now: u64,
    t: int,
)
    requires
        distinct_ids(cs),
        0 <= t < changed.len(),
        same_text(pool.id, changed[t]),
        pool.last_updated_at < now,
    ensures
        !crate::helpers::pool_is_fresh(pool, delta_applied(cs, changed, new_pairs, removed, now)),
{
    let first = touched(cs, changed, now);
    let post = delta_applied(cs, changed, new_pairs, removed, now);
    assert forall|j: int| 0 <= j < first.len() implies #[trigger] comes_from(first, first[j], now) by {}
    upserted_derives(first, first, new_pairs, now);
    discarded_derives(first, upserted(first, new_pairs, now), removed, now);
    touched_keeps_ids(cs, changed, now);
    assert(component_ids(first).len() == cs.len());
    position_is_first_match(component_ids(post), pool.id);
    if position(component_ids(post), pool.id) is Some {
        let k = position(component_ids(post), pool.id)->0;
        assert(component_ids(post)[k] == post[k].id);
        assert(comes_from(first, post[k], now));
        if post[k].last_updated_at != now {
            let j = choose|j: int| 0 <= j < first.len() && first[j] == post[k];
            assert(component_ids(first)[j] == component_ids(cs)[j]);
            touched_stamps(cs, changed, now, j, t);
        }
    }
}

proof fn upsert_keeps_distinct(cs: Seq<ComponentView>, pc: ComponentView)
    requires
        distinct_ids(cs),
    ensures
        distinct_ids(upsert(cs, pc)),
{
    let post = upsert(cs, pc);
    position_is_first_match(component_ids(cs), pc.id);
    assert forall|x: int, y: int| 0 <= x < y < post.len() implies !same_text(
        (#[trigger] post[x]).id,
        (#[trigger] post[y]).id,
    ) by {
        match position(component_ids(cs), pc.id) {
            Some(k) => {
                assert(component_ids(cs)[k] == cs[k].id);
                assert(!same_text(cs[x].id, cs[y].id));
            },
            None => {
                if y == cs.len() {
                    assert(component_ids(cs)[x] == cs[x].id);
                } else {
                    assert(!same_text(cs[x].id, cs[y].id));
                }
            },
        }
    }
}

proof fn discard_keeps_distinct(cs: Seq<ComponentView>, id: Seq<char>)
    requires
        distinct_ids(cs),
    ensures
        distinct_ids(discard(cs, id)),
{
    let post = discard(cs, id);
    position_is_first_match(component_ids(cs), id);
    assert forall|x: int, y: int| 0 <= x < y < post.len() implies !same_text(
        (#[trigger] post[x]).id,
        (#[trigger] post[y]).id,
    ) by {
        match position(component_ids(cs), id) {
            Some(k) => {
                let last = cs.len() - 1;
                if x == k {
                    assert(!same_text(cs[y].id, cs[last].id));
                } else if y == k {
                    assert(!same_text(cs[x].id, cs[last].id));
                } else {
                    assert(!same_text(cs[x].id, cs[y].id));
                }
            },
            None => {
                assert(!same_text(cs[x].id, cs[y].id));
            },
        }
    }
}

proof fn upserted_keeps_distinct(cs: Seq<ComponentView>, new_pairs: Seq<ComponentView>, now: u64)
    requires
        distinct_ids(cs),
    ensures
        distinct_ids(upserted(cs, new_pairs, now)),
    decreases new_pairs.len(),
{
    if new_pairs.len() > 0 {
        upserted_keeps_distinct(cs, new_pairs.drop_last(), now);
        upsert_keeps_distinct(
            upserted(cs, new_pairs.drop_last(), now),
            new_pairs.last().stamped(now),
        );
    }
}

proof fn discarded_keeps_distinct(cs: Seq<ComponentView>, ids: Seq<Seq<char>>)
    requires
        distinct_ids(cs),
    ensures
        distinct_ids(discarded(cs, ids)),
    decreases ids.len(),
{
    if ids.len() > 0 {
        discarded_keeps_distinct(cs, ids.drop_last());
        discard_keeps_distinct(discarded(cs, ids.drop_last()), ids.last());
    }
}

/// A block keeps the stored identifiers distinct.
pub proof fn delta_keeps_ids_distinct(
    cs: Seq<ComponentView>,
    changed: Seq<Seq<char>>,
    new_pairs: Seq<ComponentView>,
    removed: Seq<Seq<char>>,
    now: u64,
)
    requires
        distinct_ids(cs),
    ensures
        distinct_ids(delta_applied(cs, changed, new_pairs, removed, now)),
{
    let first = touched(cs, changed, now);
    touched_keeps_ids(cs, changed, now);
    assert(component_ids(first).len() == cs.len());
    assert forall|x: int, y: int| 0 <= x < y < first.len() implies !same_text(
        (#[trigger] first[x]).id,
        (#[trigger] first[y]).id,
    ) by {
        assert(component_ids(first)[x] == component_ids(cs)[x]);
        assert(component_ids(first)[y] == component_ids(cs)[y]);
        assert(!same_text(cs[x].id, cs[y].id));
    }
    upserted_keeps_distinct(first, new_pairs, now);
    discarded_keeps_distinct(upserted(first, new_pairs, now), removed);
}

/// Every component installed from the first block was last updated at the
/// time of the install, and none holds the null address in its identifier.
pub proof fn install_stamps_all(new_pairs: Seq<ComponentView>, now: u64, j: int)
    requires
        0 <= j < installed(new_pairs, now).len(),
    ensures
        installed(new_pairs, now)[j].last_updated_at == now,
        installable(installed(new_pairs, now)[j]),
    decreases new_pairs.len(),
{
    if new_pairs.len() > 0 {
        let init = installed(new_pairs.drop_last(), now);
        if j < init.len() {
            install_stamps_all(new_pairs.drop_last(), now, j);
        }
    }
}

/// A component that was put is found under its identifier, as it was put.
pub proof fn upsert_is_found(cs: Seq<ComponentView>, pc: ComponentView)
    ensures
        position(component_ids(upsert(cs, pc)), pc.id) is Some,
        upsert(cs, pc)[position(component_ids(upsert(cs, pc)), pc.id)->0] == pc,
{
    let ids = component_ids(cs);
    let post = upsert(cs, pc);
    let after = component_ids(post);
    position_is_first_match(ids, pc.id);
    let k = match position(ids, pc.id) {
        Some(k) => k,
        None => cs.len() as int,
    };
    assert(after[k] == pc.id);
    assert forall|j: int| 0 <= j < k implies !same_text(#[trigger] after[j], pc.id) by {
        assert(after[j] == ids[j]);
    }
    assert(first_match(after, pc.id, k));
    position_of_first_match(after, pc.id, k);
}

/// Where the identifiers are distinct, a discarded component is no longer
/// found.
pub proof fn discard_is_not_found(cs: Seq<ComponentView>, id: Seq<char>)
    requires
        distinct_ids(cs),
    ensures
        position(component_ids(discard(cs, id)), id) is None,
{
    let ids = component_ids(cs);
    let post = discard(cs, id);
    let after = component_ids(post);
    position_is_first_match(ids, id);
    assert forall|j: int| 0 <= j < after.len() implies !same_text(#[trigger] after[j], id) by {
        match position(ids, id) {
            Some(k) => {
                assert(ids[k] == cs[k].id);
                if j == k {
                    let last = cs.len() - 1;
                    assert(after[j] == cs[last].id);
                    assert(!same_text(cs[k].id, cs[last].id));
                } else {
                    assert(after[j] == cs[j].id);
                    if j < k {
                        assert(!same_text(cs[j].id, cs[k].id));
                    } else {
                        assert(!same_text(cs[k].id, cs[j].id));
                    }
                }
            },
            None => {
                assert(after[j] == ids[j]);
            },
        }
    }
    position_of_no_match(after, id);
}

/// Removing a pair that is not stored changes nothing.
pub proof fn discard_of_unknown_changes_nothing(cs: Seq<ComponentView>, id: Seq<char>)
    requires
        position(component_ids(cs), id) is None,
    ensures
        discard(cs, id) == cs,
{
}

} // verus!
