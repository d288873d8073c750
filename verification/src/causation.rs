//! The causation graph of an event table, as reached level by level from a
//! start event: forward through `causation_id` back-links (descendants) or
//! backward along them (ancestors).
use vstd::prelude::*;

use crate::cross_stream::WalkDirection;
use crate::types::{EventId, StoredEvent};

verus! {

/// `e` links some id of `from` to `id` in the walk's direction: forward, `e`
/// is `id` and was caused by a member of `from`; backward, `e` is a member of
/// `from` and was caused by `id`.
pub open spec fn links(e: StoredEvent, from: Set<EventId>, id: EventId, forward: bool) -> bool {
    if forward {
        &&& e.id == id
        &&& e.causation_id matches Some(c) && from.contains(c)
    } else {
        &&& from.contains(e.id)
        &&& e.causation_id == Some(id)
    }
}

/// The ids one causation link away from `from`.
pub open spec fn step(t: Seq<StoredEvent>, from: Set<EventId>, forward: bool) -> Set<EventId> {
    Set::new(|id: EventId| exists|j: int| 0 <= j < t.len() && #[trigger] links(t[j], from, id, forward))
}

/// The ids reachable from `start` by at least one and at most `k` links.
#[verifier::opaque]
pub open spec fn reach(t: Seq<StoredEvent>, start: EventId, forward: bool, k: nat) -> Set<EventId>
    decreases k,
{
    if k == 0 {
        Set::empty()
    } else {
        step(t, reach(t, start, forward, (k - 1) as nat).insert(start), forward)
    }
}

/// The ids first reached at level `k` (level 0 is the start itself).
pub open spec fn frontier(t: Seq<StoredEvent>, start: EventId, forward: bool, k: nat) -> Set<EventId> {
    if k == 0 {
        Set::empty().insert(start)
    } else {
        reach(t, start, forward, k).difference(reach(t, start, forward, (k - 1) as nat))
    }
}

/// `e` is, field for field, one of the rows of table `t`.
pub open spec fn in_table(t: Seq<StoredEvent>, e: StoredEvent) -> bool {
    exists|j: int| 0 <= j < t.len() && e@ == t[j]@
}

/// One forward link from `from` reaches every row caused by a member of
/// `from`, whatever the row's other fields; one backward link reaches the
/// cause of every row of `from`. Nothing else is reached.
pub proof fn lemma_step_links(t: Seq<StoredEvent>, from: Set<EventId>, j: int, c: EventId, id: EventId)
    requires
        0 <= j < t.len(),
    ensures
        t[j].causation_id == Some(c) && from.contains(c) ==> step(t, from, true).contains(t[j].id),
        t[j].causation_id == Some(c) && from.contains(t[j].id) ==> step(t, from, false).contains(c),
        step(t, from, true).contains(id) ==> exists|k: int|
            0 <= k < t.len() && t[k].id == id && (#[trigger] t[k].causation_id is Some)
                && from.contains(t[k].causation_id.unwrap()),
        step(t, from, false).contains(id) ==> exists|k: int|
            0 <= k < t.len() && from.contains(t[k].id) && #[trigger] t[k].causation_id == Some(id),
{
    if t[j].causation_id == Some(c) && from.contains(c) {
        assert(links(t[j], from, t[j].id, true));
    }
    if t[j].causation_id == Some(c) && from.contains(t[j].id) {
        assert(links(t[j], from, c, false));
    }
    if step(t, from, true).contains(id) {
        let k = choose|k: int| 0 <= k < t.len() && #[trigger] links(t[k], from, id, true);
        assert(t[k].id == id);
    }
    if step(t, from, false).contains(id) {
        let k = choose|k: int| 0 <= k < t.len() && #[trigger] links(t[k], from, id, false);
        assert(from.contains(t[k].id));
    }
}

/// `step` is monotone in the set it starts from.
pub proof fn lemma_step_mono(t: Seq<StoredEvent>, a: Set<EventId>, b: Set<EventId>, forward: bool)
    requires
        a.subset_of(b),
    ensures
        step(t, a, forward).subset_of(step(t, b, forward)),
{
    assert forall|id: EventId| step(t, a, forward).contains(id) implies step(t, b, forward).contains(
        id,
    ) by {
        let j = choose|j: int| 0 <= j < t.len() && #[trigger] links(t[j], a, id, forward);
        assert(links(t[j], b, id, forward));
    }
}

/// `step` distributes over union.
pub proof fn lemma_step_union(t: Seq<StoredEvent>, a: Set<EventId>, b: Set<EventId>, forward: bool)
    ensures
        step(t, a.union(b), forward) == step(t, a, forward).union(step(t, b, forward)),
{
    assert forall|id: EventId| step(t, a.union(b), forward).contains(id) implies step(
        t,
        a,
        forward,
    ).union(step(t, b, forward)).contains(id) by {
        let j = choose|j: int| 0 <= j < t.len() && #[trigger] links(t[j], a.union(b), id, forward);
        if links(t[j], a, id, forward) {
            assert(step(t, a, forward).contains(id));
        } else {
            assert(links(t[j], b, id, forward));
            assert(step(t, b, forward).contains(id));
        }
    }
    lemma_step_mono(t, a, a.union(b), forward);
    lemma_step_mono(t, b, a.union(b), forward);
    assert(step(t, a.union(b), forward) =~= step(t, a, forward).union(step(t, b, forward)));
}

/// Each level reaches at least what the previous one did.
pub proof fn lemma_reach_mono(t: Seq<StoredEvent>, start: EventId, forward: bool, k: nat)
    ensures
        reach(t, start, forward, k).subset_of(reach(t, start, forward, k + 1)),
    decreases k,
{
    reveal(reach);
    if k > 0 {
        lemma_reach_mono(t, start, forward, (k - 1) as nat);
        let prev = reach(t, start, forward, (k - 1) as nat);
        let cur = reach(t, start, forward, k);
        assert(prev.insert(start).subset_of(cur.insert(start)));
        lemma_step_mono(t, prev.insert(start), cur.insert(start), forward);
    }
}

/// Levels grow: a lower level reaches a subset of a higher one.
pub proof fn lemma_reach_mono_range(t: Seq<StoredEvent>, start: EventId, forward: bool, a: nat, b: nat)
    requires
        a <= b,
    ensures
        reach(t, start, forward, a).subset_of(reach(t, start, forward, b)),
    decreases b - a,
{
    if a < b {
        lemma_reach_mono_range(t, start, forward, a, (b - 1) as nat);
        lemma_reach_mono(t, start, forward, (b - 1) as nat);
    }
}

/// The next level adds what one link leads to from the current frontier.
pub proof fn lemma_reach_next(t: Seq<StoredEvent>, start: EventId, forward: bool, k: nat)
    ensures
        reach(t, start, forward, k + 1) == reach(t, start, forward, k).union(
            step(t, frontier(t, start, forward, k), forward),
        ),
{
    reveal(reach);
    if k == 0 {
        assert(reach(t, start, forward, 0).insert(start) =~= frontier(t, start, forward, 0));
        assert(reach(t, start, forward, 1) =~= reach(t, start, forward, 0).union(
            step(t, frontier(t, start, forward, 0), forward),
        ));
    } else {
        let prev = reach(t, start, forward, (k - 1) as nat);
        let cur = reach(t, start, forward, k);
        let f = frontier(t, start, forward, k);
        lemma_reach_mono(t, start, forward, (k - 1) as nat);
        assert(cur.insert(start) =~= prev.insert(start).union(f));
        lemma_step_union(t, prev.insert(start), f, forward);
    }
}

/// One link from an empty set of ids reaches nothing.
proof fn lemma_step_empty(t: Seq<StoredEvent>, from: Set<EventId>, forward: bool)
    requires
        from.is_empty(),
    ensures
        step(t, from, forward) == Set::<EventId>::empty(),
{
    assert forall|id: EventId| !step(t, from, forward).contains(id) by {
        if step(t, from, forward).contains(id) {
            let j = choose|j: int| 0 <= j < t.len() && #[trigger] links(t[j], from, id, forward);
            assert(from.contains(t[j].causation_id.unwrap()) || from.contains(t[j].id));
        }
    }
    assert(step(t, from, forward) =~= Set::empty());
}

/// Once a frontier above level 0 is empty, no level reaches anything new.
pub proof fn lemma_reach_fixed(t: Seq<StoredEvent>, start: EventId, forward: bool, k: nat, m: nat)
    requires
        k >= 1,
        k <= m,
        frontier(t, start, forward, k).is_empty(),
    ensures
        reach(t, start, forward, m) == reach(t, start, forward, k),
    decreases m - k,
{
    if m > k {
        let pm = (m - 1) as nat;
        lemma_reach_fixed(t, start, forward, k, pm);
        if pm > k {
            lemma_reach_fixed(t, start, forward, k, (pm - 1) as nat);
        }
        assert(frontier(t, start, forward, pm) =~= Set::empty());
        lemma_reach_next(t, start, forward, pm);
        lemma_step_empty(t, frontier(t, start, forward, pm), forward);
        assert(reach(t, start, forward, m) =~= reach(t, start, forward, pm));
    }
}

} // verus!

verus! {

/// Whether a walk in `direction` follows causation links forward
/// (`forward`) or backward (`!forward`).
pub open spec fn follows(direction: WalkDirection, forward: bool) -> bool {
    match direction {
        WalkDirection::Forward => forward,
        WalkDirection::Backward => !forward,
        WalkDirection::Both => true,
    }
}

/// What a walk in `direction` reaches by links of one direction within `k`
/// links: nothing when it does not follow that direction.
pub open spec fn part_reach(
    t: Seq<StoredEvent>,
    start: EventId,
    direction: WalkDirection,
    forward: bool,
    k: nat,
) -> Set<EventId> {
    if follows(direction, forward) {
        reach(t, start, forward, k)
    } else {
        Set::empty()
    }
}

/// The ids a walk in `direction` reaches within `k` links: for `Both`, what
/// either direction reaches.
pub open spec fn walk_reach(t: Seq<StoredEvent>, start: EventId, direction: WalkDirection, k: nat) -> Set<
    EventId,
> {
    part_reach(t, start, direction, true, k).union(part_reach(t, start, direction, false, k))
}

/// `id` is at depth `k >= 1` of a walk in `direction`: its shortest causation
/// path from the start, over the directions the walk follows, has `k` links.
pub open spec fn walk_depth(
    t: Seq<StoredEvent>,
    start: EventId,
    direction: WalkDirection,
    k: nat,
    id: EventId,
) -> bool {
    &&& k >= 1
    &&& walk_reach(t, start, direction, k).contains(id)
    &&& !walk_reach(t, start, direction, (k - 1) as nat).contains(id)
}

/// `out` is a walk in `direction` of depth at most `depth` from `start` over
/// table `t`: every reached event of the table appears exactly once, nothing
/// else appears, and the events come by depth, then by timestamp within a depth.
pub open spec fn walk_result(
    t: Seq<StoredEvent>,
    start: EventId,
    direction: WalkDirection,
    depth: nat,
    out: Seq<StoredEvent>,
) -> bool {
    &&& forall|a: int, b: int| 0 <= a < b < out.len() ==> out[a].id != out[b].id
    &&& forall|i: int|
        0 <= i < out.len() ==> {
            &&& walk_reach(t, start, direction, depth).contains(#[trigger] out[i].id)
            &&& in_table(t, out[i])
        }
    &&& forall|j: int|
        0 <= j < t.len() && walk_reach(t, start, direction, depth).contains(#[trigger] t[j].id)
            ==> exists|i: int| 0 <= i < out.len() && out[i].id == t[j].id
    &&& forall|a: int, b: int, ka: nat, kb: nat|
        0 <= a < b < out.len() && #[trigger] walk_depth(t, start, direction, ka, out[a].id)
            && #[trigger] walk_depth(t, start, direction, kb, out[b].id) ==> ka < kb || (ka == kb
            && out[a].timestamp_us <= out[b].timestamp_us)
}

/// Each depth of a walk reaches at least what the previous one did.
pub proof fn lemma_walk_reach_mono(t: Seq<StoredEvent>, start: EventId, direction: WalkDirection, k: nat)
    ensures
        walk_reach(t, start, direction, k).subset_of(walk_reach(t, start, direction, k + 1)),
{
    lemma_reach_mono(t, start, true, k);
    lemma_reach_mono(t, start, false, k);
}

/// Depths grow: a lower depth of a walk reaches a subset of a higher one.
pub proof fn lemma_walk_reach_mono_range(
    t: Seq<StoredEvent>,
    start: EventId,
    direction: WalkDirection,
    a: nat,
    b: nat,
)
    requires
        a <= b,
    ensures
        walk_reach(t, start, direction, a).subset_of(walk_reach(t, start, direction, b)),
{
    lemma_reach_mono_range(t, start, true, a, b);
    lemma_reach_mono_range(t, start, false, a, b);
}

/// An id is at one depth of a walk only.
pub proof fn lemma_walk_depth_unique(
    t: Seq<StoredEvent>,
    start: EventId,
    direction: WalkDirection,
    k1: nat,
    k2: nat,
    id: EventId,
)
    requires
        walk_depth(t, start, direction, k1, id),
        walk_depth(t, start, direction, k2, id),
    ensures
        k1 == k2,
{
    if k1 < k2 {
        lemma_walk_reach_mono_range(t, start, direction, k1, (k2 - 1) as nat);
    } else if k2 < k1 {
        lemma_walk_reach_mono_range(t, start, direction, k2, (k1 - 1) as nat);
    }
}

/// Some event of `out` has id `id`.
pub open spec fn holds_id(out: Seq<StoredEvent>, id: EventId) -> bool {
    exists|k: int| 0 <= k < out.len() && out[k].id == id
}

/// A deeper walk holds every event that a shallower walk from the same start
/// in the same direction holds.
pub proof fn lemma_deeper_walk_holds_more(
    t: Seq<StoredEvent>,
    start: EventId,
    direction: WalkDirection,
    d1: nat,
    d2: nat,
    out1: Seq<StoredEvent>,
    out2: Seq<StoredEvent>,
)
    requires
        d1 <= d2,
        walk_result(t, start, direction, d1, out1),
        walk_result(t, start, direction, d2, out2),
    ensures
        forall|i: int| 0 <= i < out1.len() ==> holds_id(out2, #[trigger] out1[i].id),
{
    assert forall|i: int| 0 <= i < out1.len() implies holds_id(out2, #[trigger] out1[i].id) by {
        assert(walk_reach(t, start, direction, d1).contains(out1[i].id));
        assert(in_table(t, out1[i]));
        let j = choose|j: int| 0 <= j < t.len() && out1[i]@ == t[j]@;
        lemma_walk_reach_mono_range(t, start, direction, d1, d2);
        assert(walk_reach(t, start, direction, d2).contains(t[j].id));
    }
}

/// A walk in both directions holds exactly the events that the forward walk
/// or the backward walk of the same depth holds.
pub proof fn lemma_both_is_union(
    t: Seq<StoredEvent>,
    start: EventId,
    depth: nat,
    fwd: Seq<StoredEvent>,
    bwd: Seq<StoredEvent>,
    both: Seq<StoredEvent>,
    id: EventId,
)
    requires
        walk_result(t, start, WalkDirection::Forward, depth, fwd),
        walk_result(t, start, WalkDirection::Backward, depth, bwd),
        walk_result(t, start, WalkDirection::Both, depth, both),
    ensures
        holds_id(both, id) <==> (holds_id(fwd, id) || holds_id(bwd, id)),
{
    if holds_id(both, id) {
        let i = choose|i: int| 0 <= i < both.len() && both[i].id == id;
        assert(in_table(t, both[i]));
        let j = choose|j: int| 0 <= j < t.len() && both[i]@ == t[j]@;
        assert(t[j].id == id);
        if reach(t, start, true, depth).contains(id) {
            assert(walk_reach(t, start, WalkDirection::Forward, depth).contains(t[j].id));
        } else {
            assert(walk_reach(t, start, WalkDirection::Backward, depth).contains(t[j].id));
        }
    }
    if holds_id(fwd, id) {
        let i = choose|i: int| 0 <= i < fwd.len() && fwd[i].id == id;
        assert(in_table(t, fwd[i]));
        let j = choose|j: int| 0 <= j < t.len() && fwd[i]@ == t[j]@;
        assert(walk_reach(t, start, WalkDirection::Both, depth).contains(t[j].id));
    }
    if holds_id(bwd, id) {
        let i = choose|i: int| 0 <= i < bwd.len() && bwd[i].id == id;
        assert(in_table(t, bwd[i]));
        let j = choose|j: int| 0 <= j < t.len() && bwd[i]@ == t[j]@;
        assert(walk_reach(t, start, WalkDirection::Both, depth).contains(t[j].id));
    }
}

/// A forward walk of depth at least one holds every row of the table
/// caused by the start event, whatever the row's other fields; a backward
/// walk of depth at least one holds the start event's cause when the table
/// has its row.
pub proof fn lemma_walk_holds_direct_links(
    t: Seq<StoredEvent>,
    start: EventId,
    depth: nat,
    fwd: Seq<StoredEvent>,
    bwd: Seq<StoredEvent>,
    j: int,
    k: int,
)
    requires
        depth >= 1,
        walk_result(t, start, WalkDirection::Forward, depth, fwd),
        walk_result(t, start, WalkDirection::Backward, depth, bwd),
        0 <= j < t.len(),
        0 <= k < t.len(),
    ensures
        t[j].causation_id == Some(start) ==> holds_id(fwd, t[j].id),
        (t[j].id == start && t[j].causation_id == Some(t[k].id)) ==> holds_id(bwd, t[k].id),
{
    reveal(reach);
    let from = reach(t, start, true, 0).insert(start);
    assert(from.contains(start));
    lemma_step_links(t, from, j, start, t[j].id);
    let back = reach(t, start, false, 0).insert(start);
    lemma_step_links(t, back, j, t[k].id, t[k].id);
    assert(reach(t, start, true, 1) == step(t, from, true));
    assert(reach(t, start, false, 1) == step(t, back, false));
    lemma_reach_mono_range(t, start, true, 1, depth);
    lemma_reach_mono_range(t, start, false, 1, depth);
    if t[j].causation_id == Some(start) {
        assert(walk_reach(t, start, WalkDirection::Forward, depth).contains(t[j].id));
    }
    if t[j].id == start && t[j].causation_id == Some(t[k].id) {
        assert(walk_reach(t, start, WalkDirection::Backward, depth).contains(t[k].id));
    }
}

/// A forward walk reaches one link further each depth: when the walk of
/// depth `depth + 1` is taken and some id `c` is reached within `depth`
/// links, every row caused by `c` is in that walk.
pub proof fn lemma_walk_holds_children(
    t: Seq<StoredEvent>,
    start: EventId,
    depth: nat,
    out: Seq<StoredEvent>,
    c: EventId,
    j: int,
)
    requires
        walk_result(t, start, WalkDirection::Forward, depth + 1, out),
        c == start || reach(t, start, true, depth).contains(c),
        0 <= j < t.len(),
        t[j].causation_id == Some(c),
    ensures
        holds_id(out, t[j].id),
{
    reveal(reach);
    let from = reach(t, start, true, depth).insert(start);
    assert(from.contains(c));
    lemma_step_links(t, from, j, c, t[j].id);
    assert(reach(t, start, true, depth + 1) == step(t, from, true));
    assert(walk_reach(t, start, WalkDirection::Forward, depth + 1).contains(t[j].id));
}

} // verus!
