use vstd::prelude::*;
use vstd::multiset::Multiset;
use vstd::seq_lib::{to_multiset_build, to_multiset_insert};

use crate::causation::{
    follows, frontier, in_table, lemma_reach_fixed, lemma_reach_mono, lemma_reach_next,
    lemma_walk_depth_unique, lemma_walk_reach_mono, lemma_walk_reach_mono_range, links, part_reach,
    reach, step, walk_depth, walk_reach, walk_result,
};
use crate::types::{contains_id, ids_equal, main_branch, main_branch_string, EventId, StoredEvent};

verus! {

broadcast use vstd::seq_lib::group_to_multiset_ensures, vstd::multiset::group_multiset_axioms;

// ── WalkDirection ─────────────────────────────────────────────────────────────

/// Direction for `walk_causation`.
pub enum WalkDirection {
    /// Descendants: events whose `causation_id` is the start event (children, grandchildren…).
    Forward,
    /// Ancestors: follow the `causation_id` chain from start back toward the root.
    Backward,
    /// Union of forward and backward, ordered by minimum depth from the start.
    Both,
}

// ── AggregateQuery ────────────────────────────────────────────────────────────

/// Query parameters for an aggregation over events.
///
/// `stream_pattern` uses SQLite's `GLOB` operator: `*` matches any sequence of
/// characters (including `/`). `indexed_tags` filtering is left to the aggregator.
pub struct AggregateQuery {
    pub stream_pattern: String,
    pub branch: String,
    pub event_type_filter: Option<String>,
    pub from_timestamp_us: Option<i64>,
    pub to_timestamp_us: Option<i64>,
}

impl Default for AggregateQuery {
    fn default() -> (q: AggregateQuery)
        ensures
            q.stream_pattern@ == seq!['*'],
            q.branch@ == main_branch(),
            q.event_type_filter is None,
            q.from_timestamp_us is None,
            q.to_timestamp_us is None,
    {
        let star = "*";
        proof {
            reveal_strlit("*");
        }
        AggregateQuery {
            stream_pattern: String::from_str(star),
            branch: main_branch_string(),
            event_type_filter: None,
            from_timestamp_us: None,
            to_timestamp_us: None,
        }
    }
}

// ── Ordering by timestamp ─────────────────────────────────────────────────────

/// Events in non-decreasing `timestamp_us` order.
pub open spec fn sorted_by_timestamp(s: Seq<StoredEvent>) -> bool {
    forall|i: int, j: int| 0 <= i < j < s.len() ==> s[i].timestamp_us <= s[j].timestamp_us
}

/// Reorder events by ascending `timestamp_us`; the events themselves are kept.
pub fn sort_by_timestamp(v: Vec<StoredEvent>) -> (r: Vec<StoredEvent>)
    ensures
        sorted_by_timestamp(r@),
        r@.to_multiset() == v@.to_multiset(),
        r@.len() == v@.len(),
{
    let mut v = v;
    let ghost orig = v@;
    let mut r: Vec<StoredEvent> = Vec::new();
    assert(r@.to_multiset() =~= Multiset::empty());
    assert(r@.to_multiset().add(v@.to_multiset()) =~= orig.to_multiset());
    while v.len() > 0
        invariant
            sorted_by_timestamp(r@),
            r@.to_multiset().add(v@.to_multiset()) == orig.to_multiset(),
            r@.len() + v@.len() == orig.len(),
        decreases v.len(),
    {
        let ghost before = v@;
        let x = v.pop().unwrap();
        proof {
            assert(before == v@.push(x));
            to_multiset_build(v@, x);
        }
        let ts = x.timestamp_us;
        let mut pos: usize = 0;
        while pos < r.len() && r[pos].timestamp_us < ts
            invariant
                0 <= pos <= r@.len(),
                forall|k: int| 0 <= k < pos ==> r@[k].timestamp_us < ts,
            decreases r.len() - pos,
        {
            pos = pos + 1;
        }
        let ghost rb = r@;
        r.insert(pos, x);
        proof {
            to_multiset_insert(rb, pos as int, x);
            assert(r@ == rb.insert(pos as int, x));
            assert forall|i: int, j: int| 0 <= i < j < r@.len() implies r@[i].timestamp_us
                <= r@[j].timestamp_us by {
                if pos < rb.len() {
                    assert(rb[pos as int].timestamp_us >= ts);
                }
            }
            assert(r@.to_multiset().add(v@.to_multiset()) =~= orig.to_multiset());
        }
    }
    assert(v@.to_multiset() =~= Multiset::empty());
    assert(r@.to_multiset() =~= r@.to_multiset().add(v@.to_multiset()));
    r
}

} // verus!

verus! {

/// The sorted copy of a level keeps every property its elements had, and
/// distinct ids stay distinct.
proof fn lemma_sorted_level(level: Seq<StoredEvent>, sorted: Seq<StoredEvent>)
    requires
        sorted.to_multiset() == level.to_multiset(),
        forall|a: int, b: int| 0 <= a < b < level.len() ==> level[a].id != level[b].id,
    ensures
        forall|m: int| 0 <= m < sorted.len() ==> level.contains(#[trigger] sorted[m]),
        forall|m: int| 0 <= m < level.len() ==> sorted.contains(#[trigger] level[m]),
        forall|a: int, b: int| 0 <= a < b < sorted.len() ==> sorted[a].id != sorted[b].id,
{
    assert forall|m: int| 0 <= m < level.len() implies sorted.contains(#[trigger] level[m]) by {
        assert(level.to_multiset().count(level[m]) > 0);
    }
    assert forall|m: int| 0 <= m < sorted.len() implies level.contains(#[trigger] sorted[m]) by {
        assert(sorted.to_multiset().count(sorted[m]) > 0);
    }
    assert(level.no_duplicates());
    level.lemma_multiset_has_no_duplicates();
    assert forall|a: int, b: int| 0 <= a < b < sorted.len() implies sorted[a].id != sorted[b].id by {
        if sorted[a].id == sorted[b].id {
            let x = sorted[a];
            assert(level.contains(x));
            assert(level.contains(sorted[b]));
            let ia = choose|i: int| 0 <= i < level.len() && level[i] == x;
            let ib = choose|i: int| 0 <= i < level.len() && level[i] == sorted[b];
            assert(ia == ib);
            assert(sorted.to_multiset().count(x) >= 2) by {
                sorted.lemma_multiset_has_no_duplicates_conv();
            }
        }
    }
}

} // verus!

verus! {

/// The ids one causation link away from `front` (in the walk's direction)
/// that `visited` does not hold yet.
fn next_ids(
    table: &Vec<StoredEvent>,
    front: &Vec<EventId>,
    visited: &Vec<EventId>,
    forward: bool,
) -> (fresh: Vec<EventId>)
    ensures
        forall|id: EventId|
            #![trigger fresh@.contains(id)]
            fresh@.contains(id) <==> (!visited@.contains(id) && step(table@, front@.to_set(), forward).contains(id)),
{
    let ghost t = table@;
    let ghost fset = front@.to_set();
    let mut fresh: Vec<EventId> = Vec::new();
    let mut j: usize = 0;
    while j < table.len()
        invariant
            t == table@,
            fset == front@.to_set(),
            0 <= j <= t.len(),
            forall|id: EventId|
                #![trigger fresh@.contains(id)]
                fresh@.contains(id) <==> (!visited@.contains(id) && exists|jj: int|
                    0 <= jj < j && #[trigger] links(t[jj], fset, id, forward)),
        decreases t.len() - j,
    {
        let e = &table[j];
        let ghost old_fresh = fresh@;
        if let Some(c) = e.causation_id {
            let (from, to) = if forward { (c, e.id) } else { (e.id, c) };
            if contains_id(front, from) && !contains_id(visited, to) && !contains_id(&fresh, to) {
                fresh.push(to);
                proof {
                    assert(fset.contains(from));
                    assert(links(t[j as int], fset, to, forward));
                }
            }
        }
        proof {
            assert forall|id: EventId| #![trigger fresh@.contains(id)] fresh@.contains(id) <==> (!visited@.contains(id) && exists|jj: int|
                0 <= jj < j + 1 && #[trigger] links(t[jj], fset, id, forward)) by {
                if fresh@.contains(id) {
                    let i = choose|i: int| 0 <= i < fresh@.len() && fresh@[i] == id;
                    if i < old_fresh.len() {
                        assert(old_fresh[i] == id);
                        assert(old_fresh.contains(id));
                        let jj = choose|jj: int| 0 <= jj < j && #[trigger] links(t[jj], fset, id, forward);
                        assert(0 <= jj < j + 1 && links(t[jj], fset, id, forward));
                    } else {
                        assert(links(t[j as int], fset, id, forward));
                    }
                }
                if !visited@.contains(id) && exists|jj: int| 0 <= jj < j + 1 && #[trigger] links(t[jj], fset, id, forward) {
                    let jj = choose|jj: int| 0 <= jj < j + 1 && #[trigger] links(t[jj], fset, id, forward);
                    if jj < j {
                        assert(old_fresh.contains(id));
                        let i = choose|i: int| 0 <= i < old_fresh.len() && old_fresh[i] == id;
                        assert(fresh@[i] == id);
                    } else {
                        let c = t[j as int].causation_id.unwrap();
                        if forward {
                            assert(fset.contains(c));
                            assert(front@.contains(c));
                        } else {
                            assert(fset.contains(t[j as int].id));
                            assert(front@.contains(t[j as int].id));
                        }
                        if !old_fresh.contains(id) {
                            assert(fresh@[fresh@.len() - 1] == id);
                        } else {
                            let i = choose|i: int| 0 <= i < old_fresh.len() && old_fresh[i] == id;
                            assert(fresh@[i] == id);
                        }
                    }
                }
            }
        }
        j = j + 1;
    }
    fresh
}

/// The rows of `table` whose ids `ids` holds, one row per id.
fn rows_with_ids(table: &Vec<StoredEvent>, ids: &Vec<EventId>) -> (level: Vec<StoredEvent>)
    ensures
        forall|a: int, b: int| 0 <= a < b < level@.len() ==> level@[a].id != level@[b].id,
        forall|m: int|
            0 <= m < level@.len() ==> {
                &&& ids@.contains(#[trigger] level@[m].id)
                &&& in_table(table@, level@[m])
            },
        forall|jj: int|
            0 <= jj < table@.len() && ids@.contains(#[trigger] table@[jj].id) ==> exists|m: int|
                0 <= m < level@.len() && level@[m].id == table@[jj].id,
{
    let ghost t = table@;
    let mut level: Vec<StoredEvent> = Vec::new();
    let mut level_ids: Vec<EventId> = Vec::new();
    let mut j: usize = 0;
    while j < table.len()
        invariant
            t == table@,
            0 <= j <= t.len(),
            level_ids@.len() == level@.len(),
            forall|m: int| 0 <= m < level@.len() ==> level_ids@[m] == level@[m].id,
            forall|a: int, b: int| 0 <= a < b < level@.len() ==> level@[a].id != level@[b].id,
            forall|m: int|
                0 <= m < level@.len() ==> {
                    &&& ids@.contains(#[trigger] level@[m].id)
                    &&& in_table(t, level@[m])
                },
            forall|jj: int|
                0 <= jj < j && ids@.contains(#[trigger] t[jj].id) ==> exists|m: int|
                    0 <= m < level@.len() && level@[m].id == t[jj].id,
        decreases t.len() - j,
    {
        let id = table[j].id;
        let ghost old_level = level@;
        let ghost old_ids = level_ids@;
        if contains_id(ids, id) && !contains_id(&level_ids, id) {
            let e = table[j].clone();
            level.push(e);
            level_ids.push(id);
            proof {
                assert(level@[level@.len() - 1]@ == t[j as int]@);
                assert forall|m: int| 0 <= m < old_level.len() implies old_level[m].id != id by {
                    assert(old_ids[m] == old_level[m].id);
                }
                assert forall|a: int, b: int| 0 <= a < b < level@.len() implies level@[a].id
                    != level@[b].id by {
                    assert(level@[a] == old_level[a]);
                    if b < old_level.len() {
                        assert(level@[b] == old_level[b]);
                    }
                }
                assert forall|m: int| 0 <= m < level@.len() implies {
                    &&& ids@.contains(#[trigger] level@[m].id)
                    &&& in_table(t, level@[m])
                } by {
                    if m < old_level.len() {
                        assert(level@[m] == old_level[m]);
                    }
                }
            }
        }
        proof {
            assert forall|jj: int| 0 <= jj < j + 1 && ids@.contains(#[trigger] t[jj].id) implies exists|m: int|
                0 <= m < level@.len() && level@[m].id == t[jj].id by {
                if jj < j {
                    let m = choose|m: int| 0 <= m < old_level.len() && old_level[m].id == t[jj].id;
                    assert(level@[m] == old_level[m]);
                } else if level_ids@ == old_ids {
                    assert(old_ids.contains(id));
                    let m = choose|m: int| 0 <= m < old_ids.len() && old_ids[m] == id;
                    assert(level@[m].id == id);
                } else {
                    assert(level@[level@.len() - 1].id == id);
                }
            }
        }
        j = j + 1;
    }
    level
}

/// What the walk has produced after `k` depths: the events at depths
/// `1..=k`, each once, by depth, then by timestamp; `depths` records each
/// event's depth.
#[verifier::opaque]
spec fn walk_state(
    t: Seq<StoredEvent>,
    start: EventId,
    direction: WalkDirection,
    k: nat,
    out: Seq<StoredEvent>,
    depths: Seq<nat>,
) -> bool {
    &&& depths.len() == out.len()
    &&& forall|a: int, b: int| 0 <= a < b < out.len() ==> out[a].id != out[b].id
    &&& forall|i: int| 0 <= i < out.len() ==> #[trigger] walked(t, start, direction, k, depths[i], out[i])
    &&& forall|j: int|
        0 <= j < t.len() && walk_reach(t, start, direction, k).contains(#[trigger] t[j].id)
            ==> exists|i: int| 0 <= i < out.len() && out[i].id == t[j].id
    &&& forall|a: int, b: int|
        0 <= a < b < out.len() ==> depths[a] < depths[b] || (depths[a] == depths[b]
            && out[a].timestamp_us <= out[b].timestamp_us)
}

/// `e` is a row of `t` at depth `depth` of the walk, at most `k`.
spec fn walked(
    t: Seq<StoredEvent>,
    start: EventId,
    direction: WalkDirection,
    k: nat,
    depth: nat,
    e: StoredEvent,
) -> bool {
    &&& 1 <= depth <= k
    &&& walk_depth(t, start, direction, depth, e.id)
    &&& in_table(t, e)
}

/// The ids at depth `k + 1` of the walk.
spec fn new_at(t: Seq<StoredEvent>, start: EventId, direction: WalkDirection, k: nat) -> Set<EventId> {
    walk_reach(t, start, direction, k + 1).difference(walk_reach(t, start, direction, k))
}

/// The sorted rows of the depth `k + 1`.
spec fn level_facts(
    t: Seq<StoredEvent>,
    start: EventId,
    direction: WalkDirection,
    k: nat,
    sv: Seq<StoredEvent>,
    level: Seq<StoredEvent>,
    ids: Seq<EventId>,
) -> bool {
    &&& ids.to_set() == new_at(t, start, direction, k)
    &&& sv.to_multiset() == level.to_multiset()
    &&& forall|a: int, b: int| 0 <= a < b < sv.len() ==> sv[a].id != sv[b].id
    &&& sorted_by_timestamp(sv)
    &&& forall|m: int|
        0 <= m < level.len() ==> {
            &&& ids.contains(#[trigger] level[m].id)
            &&& in_table(t, level[m])
        }
    &&& forall|jj: int|
        0 <= jj < t.len() && ids.contains(#[trigger] t[jj].id) ==> exists|m: int|
            0 <= m < level.len() && level[m].id == t[jj].id
}

/// The ids that `fresh_f` or `fresh_b` holds and neither `visited_f` nor
/// `visited_b` holds, each once.
fn new_level_ids(
    fresh_f: &Vec<EventId>,
    fresh_b: &Vec<EventId>,
    visited_f: &Vec<EventId>,
    visited_b: &Vec<EventId>,
) -> (ids: Vec<EventId>)
    ensures
        forall|id: EventId|
            #![trigger ids@.contains(id)]
            ids@.contains(id) <==> ((fresh_f@.contains(id) || fresh_b@.contains(id))
                && !visited_f@.contains(id) && !visited_b@.contains(id)),
{
    let mut ids: Vec<EventId> = Vec::new();
    let mut i: usize = 0;
    while i < fresh_f.len()
        invariant
            0 <= i <= fresh_f@.len(),
            forall|id: EventId|
                #![trigger ids@.contains(id)]
                ids@.contains(id) <==> (fresh_f@.take(i as int).contains(id)
                    && !visited_f@.contains(id) && !visited_b@.contains(id)),
        decreases fresh_f@.len() - i,
    {
        let id = fresh_f[i];
        let ghost old_ids = ids@;
        if !contains_id(visited_f, id) && !contains_id(visited_b, id) {
            ids.push(id);
        }
        proof {
            let pre = fresh_f@.take(i as int);
            let post = fresh_f@.take(i + 1);
            assert(post =~= pre.push(id));
            assert forall|x: EventId| #![trigger ids@.contains(x)] ids@.contains(x) <==> (fresh_f@.take(
                i + 1,
            ).contains(x) && !visited_f@.contains(x) && !visited_b@.contains(x)) by {
                if ids@.contains(x) && ids@ != old_ids {
                    let m = choose|m: int| 0 <= m < ids@.len() && ids@[m] == x;
                    if m < old_ids.len() {
                        assert(old_ids[m] == x);
                        assert(old_ids.contains(x));
                    } else {
                        assert(x == id);
                        assert(post[pre.len() as int] == id);
                    }
                }
                if old_ids.contains(x) {
                    let m = choose|m: int| 0 <= m < old_ids.len() && old_ids[m] == x;
                    assert(ids@[m] == x);
                }
                if fresh_f@.take(i + 1).contains(x) && x == id && !visited_f@.contains(x)
                    && !visited_b@.contains(x) {
                    assert(ids@[ids@.len() - 1] == x);
                }
                if post.contains(x) && x != id {
                    let m = choose|m: int| 0 <= m < post.len() && post[m] == x;
                    assert(pre[m] == x);
                }
                if pre.contains(x) {
                    let m = choose|m: int| 0 <= m < pre.len() && pre[m] == x;
                    assert(post[m] == x);
                }
            }
        }
        i = i + 1;
    }
    proof {
        assert(fresh_f@.take(fresh_f@.len() as int) =~= fresh_f@);
    }
    let mut j: usize = 0;
    while j < fresh_b.len()
        invariant
            0 <= j <= fresh_b@.len(),
            forall|id: EventId|
                #![trigger ids@.contains(id)]
                ids@.contains(id) <==> ((fresh_f@.contains(id) || fresh_b@.take(j as int).contains(id))
                    && !visited_f@.contains(id) && !visited_b@.contains(id)),
        decreases fresh_b@.len() - j,
    {
        let id = fresh_b[j];
        let ghost old_ids = ids@;
        if !contains_id(visited_f, id) && !contains_id(visited_b, id) && !contains_id(&ids, id) {
            ids.push(id);
        }
        proof {
            let pre = fresh_b@.take(j as int);
            let post = fresh_b@.take(j + 1);
            assert(post =~= pre.push(id));
            assert forall|x: EventId| #![trigger ids@.contains(x)] ids@.contains(x) <==> ((
            fresh_f@.contains(x) || fresh_b@.take(j + 1).contains(x)) && !visited_f@.contains(x)
                && !visited_b@.contains(x)) by {
                if ids@.contains(x) && ids@ != old_ids {
                    let m = choose|m: int| 0 <= m < ids@.len() && ids@[m] == x;
                    if m < old_ids.len() {
                        assert(old_ids[m] == x);
                        assert(old_ids.contains(x));
                    } else {
                        assert(x == id);
                        assert(post[pre.len() as int] == id);
                    }
                }
                if old_ids.contains(x) {
                    let m = choose|m: int| 0 <= m < old_ids.len() && old_ids[m] == x;
                    assert(ids@[m] == x);
                }
                if fresh_b@.take(j + 1).contains(x) && x == id && !visited_f@.contains(x)
                    && !visited_b@.contains(x) && !old_ids.contains(x) {
                    assert(ids@[ids@.len() - 1] == x);
                }
                if post.contains(x) && x != id {
                    let m = choose|m: int| 0 <= m < post.len() && post[m] == x;
                    assert(pre[m] == x);
                }
                if pre.contains(x) {
                    let m = choose|m: int| 0 <= m < pre.len() && pre[m] == x;
                    assert(post[m] == x);
                }
            }
        }
        j = j + 1;
    }
    proof {
        assert(fresh_b@.take(fresh_b@.len() as int) =~= fresh_b@);
    }
    ids
}

/// The ids one link past a direction's frontier that its visited ids do not
/// hold are its next frontier.
proof fn lemma_fresh_is_frontier(
    t: Seq<StoredEvent>,
    start: EventId,
    forward: bool,
    kn: nat,
    visited: Seq<EventId>,
    front: Seq<EventId>,
    fresh: Seq<EventId>,
)
    requires
        visited.to_set() == reach(t, start, forward, kn),
        front.to_set() == frontier(t, start, forward, kn),
        forall|id: EventId|
            #![trigger fresh.contains(id)]
            fresh.contains(id) <==> (!visited.contains(id) && step(t, front.to_set(), forward).contains(id)),
    ensures
        fresh.to_set() == frontier(t, start, forward, kn + 1),
{
    let rk = reach(t, start, forward, kn);
    let next = frontier(t, start, forward, kn + 1);
    lemma_reach_next(t, start, forward, kn);
    lemma_reach_mono(t, start, forward, kn);
    assert forall|id: EventId| fresh.contains(id) <==> next.contains(id) by {
        if next.contains(id) {
            assert(reach(t, start, forward, kn + 1).contains(id));
            assert(rk.union(step(t, frontier(t, start, forward, kn), forward)).contains(id));
        }
        assert(visited.contains(id) <==> visited.to_set().contains(id));
    }
    assert(fresh.to_set() =~= next);
}

/// The ids new at depth `kn + 1` are those of the next frontiers of the
/// followed directions that no direction has visited.
proof fn lemma_new_level(
    t: Seq<StoredEvent>,
    start: EventId,
    direction: WalkDirection,
    kn: nat,
    visited_f: Seq<EventId>,
    visited_b: Seq<EventId>,
    fresh_f: Seq<EventId>,
    fresh_b: Seq<EventId>,
    ids: Seq<EventId>,
)
    requires
        visited_f.to_set() == part_reach(t, start, direction, true, kn),
        visited_b.to_set() == part_reach(t, start, direction, false, kn),
        follows(direction, true) ==> fresh_f.to_set() == frontier(t, start, true, kn + 1),
        !follows(direction, true) ==> fresh_f.len() == 0,
        follows(direction, false) ==> fresh_b.to_set() == frontier(t, start, false, kn + 1),
        !follows(direction, false) ==> fresh_b.len() == 0,
        forall|id: EventId|
            #![trigger ids.contains(id)]
            ids.contains(id) <==> ((fresh_f.contains(id) || fresh_b.contains(id))
                && !visited_f.contains(id) && !visited_b.contains(id)),
    ensures
        ids.to_set() == new_at(t, start, direction, kn),
{
    lemma_reach_mono(t, start, true, kn);
    lemma_reach_mono(t, start, false, kn);
    let target = new_at(t, start, direction, kn);
    assert forall|id: EventId| ids.contains(id) <==> target.contains(id) by {
        assert(visited_f.contains(id) <==> visited_f.to_set().contains(id));
        assert(visited_b.contains(id) <==> visited_b.to_set().contains(id));
        assert(fresh_f.contains(id) <==> fresh_f.to_set().contains(id));
        assert(fresh_b.contains(id) <==> fresh_b.to_set().contains(id));
        if !follows(direction, true) {
            assert(!fresh_f.contains(id));
        }
        if !follows(direction, false) {
            assert(!fresh_b.contains(id));
        }
    }
    assert(ids.to_set() =~= target);
}

/// A direction's visited ids, with its next frontier added, are what it
/// reaches one link deeper.
proof fn lemma_visit_next(
    t: Seq<StoredEvent>,
    start: EventId,
    direction: WalkDirection,
    forward: bool,
    kn: nat,
    old_visited: Seq<EventId>,
    fresh: Seq<EventId>,
)
    requires
        old_visited.to_set() == part_reach(t, start, direction, forward, kn),
        follows(direction, forward) ==> fresh.to_set() == frontier(t, start, forward, kn + 1),
        !follows(direction, forward) ==> fresh.len() == 0,
    ensures
        (old_visited + fresh).to_set() == part_reach(t, start, direction, forward, kn + 1),
{
    lemma_reach_mono(t, start, forward, kn);
    let v = old_visited + fresh;
    assert forall|id: EventId| v.contains(id) <==> part_reach(t, start, direction, forward, kn + 1).contains(id) by {
        assert(old_visited.contains(id) <==> old_visited.to_set().contains(id));
        assert(fresh.contains(id) <==> fresh.to_set().contains(id));
        if v.contains(id) {
            let i = choose|i: int| 0 <= i < v.len() && v[i] == id;
            if i < old_visited.len() {
                assert(old_visited[i] == id);
            } else {
                assert(fresh[i - old_visited.len()] == id);
            }
        }
        if old_visited.contains(id) {
            let i = choose|i: int| 0 <= i < old_visited.len() && old_visited[i] == id;
            assert(v[i] == id);
        }
        if fresh.contains(id) {
            let i = choose|i: int| 0 <= i < fresh.len() && fresh[i] == id;
            assert(v[old_visited.len() + i] == id);
        }
    }
    assert(v.to_set() =~= part_reach(t, start, direction, forward, kn + 1));
}

/// Append `extra` to `v`.
fn append_ids(v: &mut Vec<EventId>, extra: &Vec<EventId>)
    ensures
        final(v)@ == old(v)@ + extra@,
{
    let ghost start = old(v)@;
    let mut i: usize = 0;
    while i < extra.len()
        invariant
            0 <= i <= extra@.len(),
            v@ == start + extra@.take(i as int),
        decreases extra@.len() - i,
    {
        v.push(extra[i]);
        proof {
            assert(extra@.take(i + 1) == extra@.take(i as int).push(extra@[i as int]));
        }
        i = i + 1;
    }
    proof {
        assert(extra@.take(extra@.len() as int) == extra@);
    }
}

/// Walk the causation graph of the event table `table` from `start`, at
/// most `max_depth` links deep, in the given direction (for `Both`, the
/// union of both): each reached event once, by depth, then by timestamp
/// within a depth.
pub fn walk_causation(
    table: &Vec<StoredEvent>,
    start: EventId,
    direction: WalkDirection,
    max_depth: usize,
) -> (out: Vec<StoredEvent>)
    ensures
        walk_result(table@, start, direction, max_depth as nat, out@),
{
    let ghost t = table@;
    let use_f = match direction {
        WalkDirection::Backward => false,
        _ => true,
    };
    let use_b = match direction {
        WalkDirection::Forward => false,
        _ => true,
    };
    let mut visited_f: Vec<EventId> = Vec::new();
    let mut visited_b: Vec<EventId> = Vec::new();
    let mut front_f: Vec<EventId> = Vec::new();
    let mut front_b: Vec<EventId> = Vec::new();
    if use_f {
        front_f.push(start);
    }
    if use_b {
        front_b.push(start);
    }
    let mut out: Vec<StoredEvent> = Vec::new();
    let ghost mut depths: Seq<nat> = Seq::empty();
    let mut k: usize = 0;
    proof {
        reveal(reach);
        if use_f {
            assert(front_f@.to_set() =~= frontier(t, start, true, 0)) by {
                assert forall|id: EventId| front_f@.contains(id) <==> frontier(t, start, true, 0).contains(id) by {
                    if id == start {
                        assert(front_f@[0] == start);
                    }
                }
            }
        }
        if use_b {
            assert(front_b@.to_set() =~= frontier(t, start, false, 0)) by {
                assert forall|id: EventId| front_b@.contains(id) <==> frontier(t, start, false, 0).contains(id) by {
                    if id == start {
                        assert(front_b@[0] == start);
                    }
                }
            }
        }
        assert(visited_f@.to_set() =~= part_reach(t, start, direction, true, 0));
        assert(visited_b@.to_set() =~= part_reach(t, start, direction, false, 0));
        assert(walk_reach(t, start, direction, 0) =~= Set::empty());
        reveal(walk_state);
    }
    while k < max_depth && (front_f.len() > 0 || front_b.len() > 0)
        invariant
            t == table@,
            0 <= k <= max_depth,
            use_f == follows(direction, true),
            use_b == follows(direction, false),
            k == 0 ==> front_f@.len() > 0 || front_b@.len() > 0,
            visited_f@.to_set() == part_reach(t, start, direction, true, k as nat),
            visited_b@.to_set() == part_reach(t, start, direction, false, k as nat),
            use_f ==> front_f@.to_set() == frontier(t, start, true, k as nat),
            !use_f ==> front_f@.len() == 0,
            use_b ==> front_b@.to_set() == frontier(t, start, false, k as nat),
            !use_b ==> front_b@.len() == 0,
            walk_state(t, start, direction, k as nat, out@, depths),
        decreases max_depth - k,
    {
        let ghost kn = k as nat;
        let fresh_f = if use_f {
            next_ids(table, &front_f, &visited_f, true)
        } else {
            Vec::new()
        };
        let fresh_b = if use_b {
            next_ids(table, &front_b, &visited_b, false)
        } else {
            Vec::new()
        };
        proof {
            if use_f {
                lemma_fresh_is_frontier(t, start, true, kn, visited_f@, front_f@, fresh_f@);
            }
            if use_b {
                lemma_fresh_is_frontier(t, start, false, kn, visited_b@, front_b@, fresh_b@);
            }
        }
        let ids = new_level_ids(&fresh_f, &fresh_b, &visited_f, &visited_b);
        proof {
            lemma_new_level(t, start, direction, kn, visited_f@, visited_b@, fresh_f@, fresh_b@, ids@);
        }
        let level = rows_with_ids(table, &ids);
        let sorted = sort_by_timestamp(level);
        proof {
            lemma_sorted_level(level@, sorted@);
        }
        let ghost old_out = out@;
        let ghost old_depths = depths;
        let mut sorted = sorted;
        let ghost sv = sorted@;
        out.append(&mut sorted);
        let ghost old_vf = visited_f@;
        let ghost old_vb = visited_b@;
        append_ids(&mut visited_f, &fresh_f);
        append_ids(&mut visited_b, &fresh_b);
        proof {
            lemma_visit_next(t, start, direction, true, kn, old_vf, fresh_f@);
            lemma_visit_next(t, start, direction, false, kn, old_vb, fresh_b@);
            assert(level_facts(t, start, direction, kn, sv, level@, ids@));
            lemma_extend_level(t, start, direction, kn, old_out, old_depths, sv, level@, ids@);
            depths = old_depths + repeat_depth(sv.len(), kn + 1);
            assert(out@ == old_out + sv);
        }
        front_f = fresh_f;
        front_b = fresh_b;
        k = k + 1;
    }
    proof {
        let d = max_depth as nat;
        let kn = k as nat;
        if kn < d {
            assert(front_f@.len() == 0 && front_b@.len() == 0);
            if use_f {
                assert(frontier(t, start, true, kn) =~= Set::empty()) by {
                    assert(front_f@.to_set() =~= Set::empty());
                }
                lemma_reach_fixed(t, start, true, kn, d);
            }
            if use_b {
                assert(frontier(t, start, false, kn) =~= Set::empty()) by {
                    assert(front_b@.to_set() =~= Set::empty());
                }
                lemma_reach_fixed(t, start, false, kn, d);
            }
            assert(walk_reach(t, start, direction, d) =~= walk_reach(t, start, direction, kn));
        }
        lemma_finish_walk(t, start, direction, kn, d, out@, depths);
    }
    out
}

/// A finished walk state whose depths reach all that the depth bound
/// allows is a walk result.
proof fn lemma_finish_walk(
    t: Seq<StoredEvent>,
    start: EventId,
    direction: WalkDirection,
    k: nat,
    d: nat,
    out: Seq<StoredEvent>,
    depths: Seq<nat>,
)
    requires
        walk_state(t, start, direction, k, out, depths),
        k <= d,
        walk_reach(t, start, direction, d) == walk_reach(t, start, direction, k),
    ensures
        walk_result(t, start, direction, d, out),
{
    reveal(walk_state);
    assert forall|a: int, b: int, ka: nat, kb: nat|
        0 <= a < b < out.len() && #[trigger] walk_depth(t, start, direction, ka, out[a].id)
            && #[trigger] walk_depth(t, start, direction, kb, out[b].id) implies ka < kb || (ka
            == kb && out[a].timestamp_us <= out[b].timestamp_us) by {
        assert(walked(t, start, direction, k, depths[a], out[a]));
        assert(walked(t, start, direction, k, depths[b], out[b]));
        lemma_walk_depth_unique(t, start, direction, ka, depths[a], out[a].id);
        lemma_walk_depth_unique(t, start, direction, kb, depths[b], out[b].id);
    }
    assert forall|i: int| 0 <= i < out.len() implies {
        &&& walk_reach(t, start, direction, d).contains(#[trigger] out[i].id)
        &&& in_table(t, out[i])
    } by {
        assert(walked(t, start, direction, k, depths[i], out[i]));
        lemma_walk_reach_mono_range(t, start, direction, depths[i], k);
    }
}

/// The sorted rows of the next depth are at that depth and are rows of the table.
proof fn lemma_level_rows(
    t: Seq<StoredEvent>,
    start: EventId,
    direction: WalkDirection,
    kn: nat,
    sv: Seq<StoredEvent>,
    level: Seq<StoredEvent>,
    ids: Seq<EventId>,
)
    requires
        level_facts(t, start, direction, kn, sv, level, ids),
    ensures
        forall|m: int|
            0 <= m < sv.len() ==> #[trigger] level_row(t, start, direction, kn + 1, sv[m]),
{
    assert forall|m: int| 0 <= m < sv.len() implies #[trigger] level_row(t, start, direction, kn + 1, sv[m]) by {
        assert(sv.to_multiset().count(sv[m]) > 0);
        assert(level.contains(sv[m]));
        let lm = choose|lm: int| 0 <= lm < level.len() && level[lm] == sv[m];
        assert(ids.contains(level[lm].id));
        assert(ids.to_set().contains(level[lm].id));
        assert(new_at(t, start, direction, kn).contains(sv[m].id));
        assert(walk_depth(t, start, direction, kn + 1, sv[m].id));
        assert(in_table(t, level[lm]));
    }
}

/// `n` copies of the depth `k`.
spec fn repeat_depth(n: nat, k: nat) -> Seq<nat> {
    Seq::new(n, |i: int| k)
}

/// `e` is a row of `t` at depth `k` of the walk.
spec fn level_row(t: Seq<StoredEvent>, start: EventId, direction: WalkDirection, k: nat, e: StoredEvent) -> bool {
    &&& walk_depth(t, start, direction, k, e.id)
    &&& in_table(t, e)
}

/// Appending the sorted rows of the next depth keeps the walk's invariant.
#[verifier::rlimit(60)]
proof fn lemma_extend_level(
    t: Seq<StoredEvent>,
    start: EventId,
    direction: WalkDirection,
    kn: nat,
    old_out: Seq<StoredEvent>,
    old_depths: Seq<nat>,
    sv: Seq<StoredEvent>,
    level: Seq<StoredEvent>,
    ids: Seq<EventId>,
)
    requires
        level_facts(t, start, direction, kn, sv, level, ids),
        walk_state(t, start, direction, kn, old_out, old_depths),
    ensures
        walk_state(t, start, direction, kn + 1, old_out + sv, old_depths + repeat_depth(sv.len(), kn + 1)),
{
    lemma_level_rows(t, start, direction, kn, sv, level, ids);
    reveal(walk_state);
    let out = old_out + sv;
    let depths = old_depths + repeat_depth(sv.len(), kn + 1);
    let n = old_out.len();
    lemma_walk_reach_mono(t, start, direction, kn);
    assert(depths.len() == out.len());
    assert forall|i: int| 0 <= i < out.len() implies #[trigger] walked(t, start, direction, kn + 1, depths[i], out[i]) by {
        if i >= n {
            assert(out[i] == sv[i - n]);
            assert(depths[i] == kn + 1);
            assert(level_row(t, start, direction, kn + 1, sv[i - n]));
        } else {
            assert(out[i] == old_out[i]);
            assert(depths[i] == old_depths[i]);
            assert(walked(t, start, direction, kn, old_depths[i], old_out[i]));
        }
    }
    assert forall|a: int, b: int| 0 <= a < b < out.len() implies out[a].id != out[b].id by {
        if b >= n && a < n {
            assert(out[a] == old_out[a]);
            assert(walked(t, start, direction, kn, old_depths[a], old_out[a]));
            lemma_walk_reach_mono_range(t, start, direction, old_depths[a], kn);
            assert(out[b] == sv[b - n]);
            assert(level_row(t, start, direction, kn + 1, sv[b - n]));
        } else if a >= n {
            assert(out[a] == sv[a - n]);
            assert(out[b] == sv[b - n]);
        } else {
            assert(out[a] == old_out[a]);
            assert(out[b] == old_out[b]);
        }
    }
    assert forall|a: int, b: int| 0 <= a < b < out.len() implies depths[a] < depths[b] || (depths[a]
        == depths[b] && out[a].timestamp_us <= out[b].timestamp_us) by {
        if a >= n {
            assert(out[a] == sv[a - n]);
            assert(out[b] == sv[b - n]);
        } else if b < n {
            assert(out[a] == old_out[a]);
            assert(out[b] == old_out[b]);
        } else {
            assert(depths[a] == old_depths[a]);
            assert(walked(t, start, direction, kn, old_depths[a], old_out[a]));
            assert(depths[b] == kn + 1);
        }
    }
    lemma_extend_complete(t, start, direction, kn, old_out, old_depths, sv, level, ids);
}

/// Every table row reached by depth `kn + 1` is in the extended walk.
proof fn lemma_extend_complete(
    t: Seq<StoredEvent>,
    start: EventId,
    direction: WalkDirection,
    kn: nat,
    old_out: Seq<StoredEvent>,
    old_depths: Seq<nat>,
    sv: Seq<StoredEvent>,
    level: Seq<StoredEvent>,
    ids: Seq<EventId>,
)
    requires
        level_facts(t, start, direction, kn, sv, level, ids),
        walk_state(t, start, direction, kn, old_out, old_depths),
    ensures
        forall|j: int|
            0 <= j < t.len() && walk_reach(t, start, direction, kn + 1).contains(#[trigger] t[j].id)
                ==> exists|i: int| 0 <= i < (old_out + sv).len() && (old_out + sv)[i].id == t[j].id,
{
    reveal(walk_state);
    let out = old_out + sv;
    let n = old_out.len();
    let next = new_at(t, start, direction, kn);
    let rk = walk_reach(t, start, direction, kn);
    assert forall|j: int| 0 <= j < t.len() && walk_reach(t, start, direction, kn + 1).contains(#[trigger] t[j].id)
        implies exists|i: int| 0 <= i < out.len() && out[i].id == t[j].id by {
        if rk.contains(t[j].id) {
            let i = choose|i: int| 0 <= i < old_out.len() && old_out[i].id == t[j].id;
            assert(out[i] == old_out[i]);
        } else {
            assert(next.contains(t[j].id));
            assert(ids.to_set().contains(t[j].id));
            assert(ids.contains(t[j].id));
            let m = choose|m: int| 0 <= m < level.len() && level[m].id == t[j].id;
            assert(level.to_multiset().count(level[m]) > 0);
            assert(sv.contains(level[m]));
            let s = choose|s: int| 0 <= s < sv.len() && sv[s] == level[m];
            assert(out[n + s] == sv[s]);
        }
    }
}

} // verus!

verus! {

/// The number of rows among the first `n` of `t` that carry correlation id `cid`.
pub open spec fn count_correlated(t: Seq<StoredEvent>, cid: EventId, n: int) -> nat
    decreases n,
{
    if n <= 0 {
        0
    } else {
        count_correlated(t, cid, n - 1) + if t[n - 1].correlation_id == Some(cid) {
            1nat
        } else {
            0nat
        }
    }
}

/// Whether an event carries correlation id `cid`.
pub open spec fn correlated_with(cid: EventId) -> spec_fn(StoredEvent) -> bool {
    |e: StoredEvent| e.correlation_id == Some(cid)
}

/// The count of correlated rows among the first `n` rows is the number of
/// those rows that carry the id: each such row counts once.
pub proof fn lemma_count_correlated(t: Seq<StoredEvent>, cid: EventId, n: int)
    requires
        0 <= n <= t.len(),
    ensures
        count_correlated(t, cid, n) == t.take(n).filter(correlated_with(cid)).len(),
    decreases n,
{
    reveal(Seq::filter);
    if n > 0 {
        lemma_count_correlated(t, cid, n - 1);
        assert(t.take(n).drop_last() =~= t.take(n - 1));
        assert(t.take(n).last() == t[n - 1]);
    } else {
        assert(t.take(0) =~= Seq::<StoredEvent>::empty());
    }
}

/// The events of the table `table` that carry correlation id
/// `correlation_id`, in ascending timestamp order.
pub fn read_by_correlation(table: &Vec<StoredEvent>, correlation_id: EventId) -> (out: Vec<StoredEvent>)
    ensures
        sorted_by_timestamp(out@),
        out@.len() == count_correlated(table@, correlation_id, table@.len() as int),
        out@.len() == table@.filter(correlated_with(correlation_id)).len(),
        forall|i: int|
            0 <= i < out@.len() ==> (#[trigger] out@[i]).correlation_id == Some(correlation_id)
                && in_table(table@, out@[i]),
        forall|j: int|
            0 <= j < table@.len() && (#[trigger] table@[j]).correlation_id == Some(correlation_id)
                ==> exists|i: int| 0 <= i < out@.len() && out@[i]@ == table@[j]@,
{
    let ghost t = table@;
    let mut hits: Vec<StoredEvent> = Vec::new();
    let mut j: usize = 0;
    while j < table.len()
        invariant
            t == table@,
            0 <= j <= t.len(),
            hits@.len() == count_correlated(t, correlation_id, j as int),
            forall|i: int|
                0 <= i < hits@.len() ==> (#[trigger] hits@[i]).correlation_id == Some(correlation_id)
                    && in_table(t, hits@[i]),
            forall|jj: int|
                0 <= jj < j && (#[trigger] t[jj]).correlation_id == Some(correlation_id) ==> exists|i: int|
                    0 <= i < hits@.len() && hits@[i]@ == t[jj]@,
        decreases t.len() - j,
    {
        let ghost old_hits = hits@;
        let matches = match table[j].correlation_id {
            Some(c) => ids_equal(&c, &correlation_id),
            None => false,
        };
        if matches {
            hits.push(table[j].clone());
        }
        proof {
            assert forall|i: int|
                0 <= i < hits@.len() implies (#[trigger] hits@[i]).correlation_id == Some(correlation_id)
                    && in_table(t, hits@[i]) by {
                if i < old_hits.len() {
                    assert(hits@[i] == old_hits[i]);
                } else {
                    assert(hits@[i]@ == t[j as int]@);
                }
            }
            assert forall|jj: int|
                0 <= jj < j + 1 && (#[trigger] t[jj]).correlation_id == Some(correlation_id) implies exists|i: int|
                    0 <= i < hits@.len() && hits@[i]@ == t[jj]@ by {
                if jj < j {
                    let i = choose|i: int| 0 <= i < old_hits.len() && old_hits[i]@ == t[jj]@;
                    assert(hits@[i] == old_hits[i]);
                } else {
                    assert(hits@[hits@.len() - 1]@ == t[jj]@);
                }
            }
        }
        j = j + 1;
    }
    let out = sort_by_timestamp(hits);
    proof {
        lemma_count_correlated(t, correlation_id, t.len() as int);
        assert(t.take(t.len() as int) =~= t);
        assert forall|i: int|
            0 <= i < out@.len() implies (#[trigger] out@[i]).correlation_id == Some(correlation_id)
                && in_table(t, out@[i]) by {
            assert(out@.to_multiset().count(out@[i]) > 0);
            assert(hits@.contains(out@[i]));
        }
        assert forall|jj: int|
            0 <= jj < t.len() && (#[trigger] t[jj]).correlation_id == Some(correlation_id) implies exists|i: int|
                0 <= i < out@.len() && out@[i]@ == t[jj]@ by {
            let h = choose|h: int| 0 <= h < hits@.len() && hits@[h]@ == t[jj]@;
            assert(hits@.to_multiset().count(hits@[h]) > 0);
            assert(out@.contains(hits@[h]));
        }
    }
    out
}

} // verus!
