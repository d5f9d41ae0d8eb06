//! Walks up and down the zone tree.

use super::tables::{
    lemma_first_seen, lemma_take_contains, list_at, lists, looked_up, parents_in, walk_ids,
    zone_order, zone_parents, zone_walk,
};
use crate::guid::Uuid;
use crate::views::copy_list;
use crate::workspace::{visited, walk, walk_children, Workspace, Zone};
use std::collections::{HashMap, HashSet};
use vstd::prelude::*;

verus! {

broadcast use vstd::std_specs::hash::group_hash_axioms;

// ---------------------------------------------------------------------------
// up
// ---------------------------------------------------------------------------

/// The zone that is `n` steps up from a zone.
pub open spec fn climb(parents: Map<Uuid, Uuid>, id: Uuid, n: nat) -> Option<Uuid>
    decreases n,
{
    if n == 0 {
        Some(id)
    } else {
        match climb(parents, id, (n - 1) as nat) {
            Some(x) => looked_up(parents, x),
            None => None,
        }
    }
}

/// Whether one zone is somewhere around another one.
pub open spec fn is_ancestor(parents: Map<Uuid, Uuid>, id: Uuid, ancestor: Uuid) -> bool {
    exists|n: nat| n >= 1 && #[trigger] climb(parents, id, n) == Some(ancestor)
}

/// Whether a list holds the zones around a zone from the inside out, as far as
/// none comes twice.
pub open spec fn is_ancestor_chain(
    parents: Map<Uuid, Uuid>,
    id: Uuid,
    chain: Seq<Uuid>,
) -> bool {
    &&& chain.no_duplicates()
    &&& forall|i: int|
        0 <= i < chain.len() ==> climb(parents, id, (i + 1) as nat) == Some(#[trigger] chain[i])
    &&& match climb(parents, id, (chain.len() + 1) as nat) {
        Some(x) => chain.contains(x),
        None => true,
    }
}

/// A chain holds exactly the zones around a zone.
pub proof fn lemma_chain_holds_ancestors(parents: Map<Uuid, Uuid>, id: Uuid, chain: Seq<Uuid>)
    requires
        is_ancestor_chain(parents, id, chain),
    ensures
        forall|x: Uuid| chain.contains(x) <==> #[trigger] is_ancestor(parents, id, x),
{
    assert forall|x: Uuid| chain.contains(x) <==> #[trigger] is_ancestor(parents, id, x) by {
        if chain.contains(x) {
            let i = choose|i: int| 0 <= i < chain.len() && chain[i] == x;
            assert(climb(parents, id, (i + 1) as nat) == Some(chain[i]));
        }
        if is_ancestor(parents, id, x) {
            let n = choose|n: nat| n >= 1 && #[trigger] climb(parents, id, n) == Some(x);
            lemma_climb_stays(parents, id, chain, n);
        }
    }
}

proof fn lemma_climb_stays(parents: Map<Uuid, Uuid>, id: Uuid, chain: Seq<Uuid>, n: nat)
    requires
        is_ancestor_chain(parents, id, chain),
        n >= 1,
    ensures
        climb(parents, id, n) matches Some(x) ==> chain.contains(x),
    decreases n,
{
    if n <= chain.len() {
        assert(climb(parents, id, n) == Some(chain[n - 1]));
    } else if n > chain.len() + 1 {
        lemma_climb_stays(parents, id, chain, (n - 1) as nat);
        if let Some(y) = climb(parents, id, (n - 1) as nat) {
            let i = choose|i: int| 0 <= i < chain.len() && chain[i] == y;
            assert(climb(parents, id, (i + 1) as nat) == Some(chain[i]));
            assert(climb(parents, id, (i + 2) as nat) == looked_up(parents, y));
            lemma_climb_stays(parents, id, chain, (i + 2) as nat);
        }
    }
}

/// Whoever has a zone around it has one directly around it.
pub proof fn lemma_climb_leaves(parents: Map<Uuid, Uuid>, id: Uuid, n: nat)
    requires
        n >= 1,
        climb(parents, id, n) is Some,
    ensures
        parents.dom().contains(id),
    decreases n,
{
    if n > 1 {
        lemma_climb_leaves(parents, id, (n - 1) as nat);
    } else {
        assert(climb(parents, id, 0) == Some(id));
    }
}

/// A list without repetition whose items but the last are keys of a map is at
/// most one longer than the map.
proof fn lemma_chain_is_short(parents: Map<Uuid, Uuid>, chain: Seq<Uuid>)
    requires
        parents.dom().finite(),
        chain.no_duplicates(),
        forall|i: int| 0 <= i < chain.len() - 1 ==> parents.dom().contains(#[trigger] chain[i]),
    ensures
        chain.len() <= parents.dom().len() + 1,
{
    if chain.len() > 0 {
        let front = chain.drop_last();
        front.unique_seq_to_set();
        assert(front.to_set().subset_of(parents.dom())) by {
            assert forall|x: Uuid| front.to_set().contains(x) implies parents.dom().contains(x) by {
                let i = choose|i: int| 0 <= i < front.len() && front[i] == x;
                assert(parents.dom().contains(chain[i]));
            }
        }
        vstd::set_lib::lemma_len_subset(front.to_set(), parents.dom());
    }
}

/// The zones around a zone, from the inside out. The walk ends at a zone that it
/// has already come to.
pub fn ancestor_chain(parents: &HashMap<Uuid, Uuid>, id: Uuid) -> (chain: Vec<Uuid>)
    ensures
        is_ancestor_chain(parents@, id, chain@),
{
    let mut chain: Vec<Uuid> = Vec::new();
    let mut seen: HashSet<Uuid> = HashSet::new();
    let mut current: Uuid = id;
    loop
        invariant_except_break
            chain@.no_duplicates(),
            forall|x: Uuid| seen@.contains(x) <==> chain@.contains(x),
            forall|i: int|
                0 <= i < chain@.len() ==> climb(parents@, id, (i + 1) as nat) == Some(
                    #[trigger] chain@[i],
                ),
            climb(parents@, id, chain@.len()) == Some(current),
            forall|i: int|
                0 <= i < chain@.len() - 1 ==> parents@.dom().contains(#[trigger] chain@[i]),
        ensures
            is_ancestor_chain(parents@, id, chain@),
        decreases parents@.dom().len() + 2 - chain@.len(),
    {
        proof {
            lemma_chain_is_short(parents@, chain@);
        }
        let next: Uuid = match parents.get(&current) {
            Some(parent) => *parent,
            None => {
                break;
            },
        };
        if !seen.insert(next) {
            break;
        }
        let ghost before = chain@;
        chain.push(next);
        current = next;
        proof {
            assert forall|i: int| 0 <= i < chain@.len() - 1 implies parents@.dom().contains(
                #[trigger] chain@[i],
            ) by {
                assert(climb(parents@, id, (i + 1) as nat) == Some(chain@[i]));
                assert(climb(parents@, id, (i + 2) as nat) == Some(chain@[i + 1]));
            }
            lemma_chain_is_short(parents@, chain@);
            assert forall|x: Uuid| seen@.contains(x) <==> chain@.contains(x) by {
                assert(chain@.take(chain@.len() - 1) =~= before);
                lemma_take_contains(chain@, chain@.len() - 1, x);
                assert(chain@.take(chain@.len() as int) =~= chain@);
            }
        }
    }
    chain
}

/// Whether a table holds the zones around each zone of a workspace.
pub open spec fn holds_ancestors(m: Map<Uuid, HashSet<Uuid>>, ws: &Workspace) -> bool {
    &&& forall|id: Uuid| #[trigger] m.dom().contains(id) <==> zone_order(ws).contains(id)
    &&& forall|id: Uuid, x: Uuid|
        m.dom().contains(id) ==> (#[trigger] m[id]@.contains(x) <==> is_ancestor(
            zone_parents(ws),
            id,
            x,
        ))
}

/// Records the zones around each zone.
pub(crate) fn index_ancestors(
    Ghost(ws): Ghost<&Workspace>,
    order: &Vec<Uuid>,
    parents: &HashMap<Uuid, Uuid>,
) -> (m: HashMap<Uuid, HashSet<Uuid>>)
    requires
        order@ == zone_order(ws),
        parents@ == zone_parents(ws),
    ensures
        holds_ancestors(m@, ws),
{
    let mut m: HashMap<Uuid, HashSet<Uuid>> = HashMap::new();
    let mut i: usize = 0;
    while i < order.len()
        invariant
            i <= order.len(),
            order@ == zone_order(ws),
            parents@ == zone_parents(ws),
            forall|id: Uuid| #[trigger]
                m@.dom().contains(id) <==> order@.take(i as int).contains(id),
            forall|id: Uuid, x: Uuid|
                m@.dom().contains(id) ==> (#[trigger] m@[id]@.contains(x) <==> is_ancestor(
                    zone_parents(ws),
                    id,
                    x,
                )),
        decreases order.len() - i,
    {
        let id = order[i];
        let chain = ancestor_chain(parents, id);
        let mut set: HashSet<Uuid> = HashSet::new();
        let mut j: usize = 0;
        while j < chain.len()
            invariant
                j <= chain.len(),
                forall|x: Uuid| #[trigger]
                    set@.contains(x) <==> chain@.take(j as int).contains(x),
            decreases chain.len() - j,
        {
            proof {
                assert forall|x: Uuid| chain@.take(j as int + 1).contains(x) <==> chain@.take(
                    j as int,
                ).contains(x) || x == chain@[j as int] by {
                    lemma_take_contains(chain@, j as int, x);
                }
            }
            set.insert(chain[j]);
            j = j + 1;
        }
        proof {
            assert(chain@.take(j as int) =~= chain@);
            lemma_chain_holds_ancestors(parents@, id, chain@);
            assert forall|x: Uuid| order@.take(i as int + 1).contains(x) <==> order@.take(
                i as int,
            ).contains(x) || x == id by {
                lemma_take_contains(order@, i as int, x);
            }
        }
        m.insert(id, set);
        i = i + 1;
    }
    assert(order@.take(i as int) =~= order@);
    m
}

// ---------------------------------------------------------------------------
// what the walk over the tree tells of parents and children
// ---------------------------------------------------------------------------

proof fn lemma_visited_grows(
    a: Seq<(&Zone, Option<Uuid>)>,
    b: Seq<(&Zone, Option<Uuid>)>,
    id: Uuid,
)
    ensures
        visited(a, id) ==> visited(a + b, id),
        visited(b, id) ==> visited(a + b, id),
{
    if visited(a, id) {
        let i = choose|i: int| 0 <= i < a.len() && (#[trigger] a[i]).0.id == id;
        assert((a + b)[i].0.id == id);
    }
    if visited(b, id) {
        let i = choose|i: int| 0 <= i < b.len() && (#[trigger] b[i]).0.id == id;
        assert((a + b)[i + a.len()].0.id == id);
    }
}

proof fn lemma_walk_parents(zone: &Zone, parent: Option<Uuid>)
    ensures
        forall|i: int|
            1 <= i < walk(zone, parent).len() ==> ((#[trigger] walk(zone, parent)[i]).1 matches Some(
                p,
            ) && visited(walk(zone, parent), p)),
        walk(zone, parent)[0] == (zone, parent),
    decreases zone, zone.children@.len() + 1,
{
    let n = zone.children@.len();
    let all = walk(zone, parent);
    let inner = walk_children(zone, n);
    lemma_walk_children_parents(zone, n);
    assert(all == seq![(zone, parent)] + inner);
    assert forall|i: int| 1 <= i < all.len() implies ((#[trigger] all[i]).1 matches Some(p)
        && visited(all, p)) by {
        assert(all[i] == inner[i - 1]);
        let p = inner[i - 1].1.unwrap();
        if p == zone.id {
            assert(all[0].0.id == p);
        } else {
            lemma_visited_grows(seq![(zone, parent)], inner, p);
        }
    }
}

proof fn lemma_walk_children_parents(zone: &Zone, n: nat)
    requires
        n <= zone.children@.len(),
    ensures
        forall|i: int|
            0 <= i < walk_children(zone, n).len() ==> ((#[trigger] walk_children(
                zone,
                n,
            )[i]).1 matches Some(p) && (p == zone.id || visited(walk_children(zone, n), p))),
    decreases zone, n,
{
    if n > 0 {
        let child = &zone.children[n - 1];
        let a = walk(child, Some(zone.id));
        let b = walk_children(zone, (n - 1) as nat);
        lemma_walk_parents(child, Some(zone.id));
        lemma_walk_children_parents(zone, (n - 1) as nat);
        let all = walk_children(zone, n);
        assert(all == a + b);
        assert forall|i: int| 0 <= i < all.len() implies ((#[trigger] all[i]).1 matches Some(p) && (p
            == zone.id || visited(all, p))) by {
            if i < a.len() {
                assert(all[i] == a[i]);
                if i > 0 {
                    lemma_visited_grows(a, b, a[i].1.unwrap());
                }
            } else {
                assert(all[i] == b[i - a.len()]);
                lemma_visited_grows(a, b, b[i - a.len()].1.unwrap());
            }
        }
    }
}

/// The zone around a zone is the one that some visit to it tells.
pub proof fn lemma_parents_in(visits: Seq<(&Zone, Option<Uuid>)>, id: Uuid)
    requires
        parents_in(visits).dom().contains(id),
    ensures
        exists|i: int|
            0 <= i < visits.len() && (#[trigger] visits[i]).0.id == id && visits[i].1 == Some(
                parents_in(visits)[id],
            ),
    decreases visits.len(),
{
    if visits.len() > 0 {
        let rest = visits.drop_last();
        if visits.last().1 is Some && visits.last().0.id == id {
            let i = visits.len() - 1;
            assert(visits[i].0.id == id);
        } else {
            lemma_parents_in(rest, id);
            let i = choose|i: int|
                0 <= i < rest.len() && (#[trigger] rest[i]).0.id == id && rest[i].1 == Some(
                    parents_in(rest)[id],
                );
            assert(visits[i].0.id == id);
        }
    }
}

/// A zone that has a zone around it is in the tree, and so is the zone around
/// it.
pub proof fn lemma_parent_stands(ws: &Workspace, id: Uuid)
    requires
        zone_parents(ws).dom().contains(id),
    ensures
        zone_order(ws).contains(id),
        zone_order(ws).contains(zone_parents(ws)[id]),
{
    let visits = zone_walk(ws);
    let ids = walk_ids(visits);
    let parent = zone_parents(ws)[id];
    lemma_first_seen(ids);
    lemma_parents_in(visits, id);
    let i = choose|i: int|
        0 <= i < visits.len() && (#[trigger] visits[i]).0.id == id && visits[i].1 == Some(parent);
    assert(ids[i] == id);
    assert(ids.contains(id));
    lemma_walk_parents(&ws.root, None);
    assert(visited(visits, parent));
    let j = choose|j: int| 0 <= j < visits.len() && (#[trigger] visits[j]).0.id == parent;
    assert(ids[j] == parent);
    assert(ids.contains(parent));
}

// ---------------------------------------------------------------------------
// down
// ---------------------------------------------------------------------------

/// The zones directly inside any of a list of zones.
pub open spec fn inside_all(children: Map<Uuid, Seq<Uuid>>, ids: Seq<Uuid>) -> Seq<Uuid>
    decreases ids.len(),
{
    if ids.len() == 0 {
        Seq::empty()
    } else {
        inside_all(children, ids.drop_last()) + list_at(children, ids.last())
    }
}

/// The zones below a list of zones, level by level, at most `depth` levels down.
pub open spec fn below(children: Map<Uuid, Seq<Uuid>>, ids: Seq<Uuid>, depth: nat) -> Seq<Uuid>
    decreases depth,
{
    if depth == 0 {
        Seq::empty()
    } else {
        let inner = inside_all(children, ids);
        inner + below(children, inner, (depth - 1) as nat)
    }
}

fn list_inside_all(children: &HashMap<Uuid, Vec<Uuid>>, ids: &Vec<Uuid>) -> (out: Vec<Uuid>)
    ensures
        out@ == inside_all(lists(children@), ids@),
{
    let ghost map = lists(children@);
    let mut out: Vec<Uuid> = Vec::new();
    let mut i: usize = 0;
    assert(ids@.take(0) =~= Seq::empty());
    while i < ids.len()
        invariant
            i <= ids.len(),
            map == lists(children@),
            out@ == inside_all(map, ids@.take(i as int)),
        decreases ids.len() - i,
    {
        assert(ids@.take(i as int + 1).drop_last() =~= ids@.take(i as int));
        let ghost before = out@;
        if let Some(inner) = children.get(&ids[i]) {
            assert(inner@ == list_at(map, ids@[i as int]));
            let mut more = copy_list(inner);
            out.append(&mut more);
        } else {
            assert(list_at(map, ids@[i as int]) =~= Seq::empty());
            assert(out@ =~= before + list_at(map, ids@[i as int]));
        }
        i = i + 1;
    }
    assert(ids@.take(i as int) =~= ids@);
    out
}

/// The zones below nothing are none.
proof fn lemma_below_nothing(children: Map<Uuid, Seq<Uuid>>, depth: nat)
    ensures
        below(children, Seq::empty(), depth) == Seq::<Uuid>::empty(),
    decreases depth,
{
    if depth > 0 {
        assert(inside_all(children, Seq::empty()) =~= Seq::empty());
        lemma_below_nothing(children, (depth - 1) as nat);
        assert(below(children, Seq::empty(), depth) =~= Seq::<Uuid>::empty());
    }
}

/// The zones below a zone, level by level, at most `depth` levels down. Levels
/// are gone through one by one, so that the depth of the tree does not matter.
pub fn walk_below(children: &HashMap<Uuid, Vec<Uuid>>, id: Uuid, depth: usize) -> (out: Vec<Uuid>)
    ensures
        out@ == below(lists(children@), seq![id], depth as nat),
{
    let ghost map = lists(children@);
    let ghost all = below(map, seq![id], depth as nat);
    let mut out: Vec<Uuid> = Vec::new();
    let mut level: Vec<Uuid> = Vec::new();
    level.push(id);
    assert(level@ =~= seq![id]);
    let mut left: usize = depth;
    assert(out@ + below(map, level@, left as nat) =~= all);
    while left > 0 && level.len() > 0
        invariant
            map == lists(children@),
            out@ + below(map, level@, left as nat) == all,
        decreases left,
    {
        let ghost done = out@;
        let next = list_inside_all(children, &level);
        let mut more = copy_list(&next);
        out.append(&mut more);
        left = left - 1;
        assert(out@ + below(map, next@, left as nat) =~= done + (next@ + below(
            map,
            next@,
            left as nat,
        )));
        level = next;
    }
    proof {
        if level@.len() == 0 {
            assert(level@ =~= Seq::empty());
            lemma_below_nothing(map, left as nat);
        }
        assert(out@ =~= all);
    }
    out
}

/// One level further down.
pub open spec fn deeper(depth: usize) -> usize {
    if depth < usize::MAX {
        (depth + 1) as usize
    } else {
        depth
    }
}

/// The greatest depth that a walk down comes to from the zones on its stack,
/// coming to no zone twice, and to no more than `left` further zones.
pub open spec fn deepest_from(
    children: Map<Uuid, Seq<Uuid>>,
    stack: Seq<(Uuid, usize)>,
    seen: Set<Uuid>,
    deepest: usize,
    left: nat,
) -> usize
    decreases left, stack.len(),
{
    if stack.len() == 0 {
        deepest
    } else {
        let (id, depth) = stack.last();
        if seen.contains(id) {
            deepest_from(children, stack.drop_last(), seen, deepest, left)
        } else if left == 0 {
            deepest
        } else {
            deepest_from(
                children,
                stack.drop_last() + list_at(children, id).map_values(
                    |inner: Uuid| (inner, deeper(depth)),
                ),
                seen.insert(id),
                if depth > deepest {
                    depth
                } else {
                    deepest
                },
                (left - 1) as nat,
            )
        }
    }
}

/// How deeply zones nest below a zone, which counts as the first level.
pub fn depth_below(children: &HashMap<Uuid, Vec<Uuid>>, root: Uuid, zones: usize) -> (d: usize)
    ensures
        d == deepest_from(
            lists(children@),
            seq![(root, 1usize)],
            Set::empty(),
            0,
            zones as nat,
        ),
{
    let ghost map = lists(children@);
    let mut deepest: usize = 0;
    let mut left: usize = zones;
    let mut seen: HashSet<Uuid> = HashSet::new();
    let mut stack: Vec<(Uuid, usize)> = Vec::new();
    stack.push((root, 1));
    assert(stack@ =~= seq![(root, 1usize)]);
    assert(seen@ =~= Set::empty());
    let ghost result = deepest_from(
        map,
        seq![(root, 1usize)],
        Set::empty(),
        0,
        zones as nat,
    );
    while stack.len() > 0
        invariant
            map == lists(children@),
            result == deepest_from(
                map,
                seq![(root, 1usize)],
                Set::empty(),
                0,
                zones as nat,
            ),
            result == deepest_from(map, stack@, seen@, deepest, left as nat),
        decreases left, stack.len(),
    {
        let ghost before = stack@;
        let (id, depth) = stack.pop().unwrap();
        assert(stack@ =~= before.drop_last());
        let ghost rest = stack@;
        if seen.contains(&id) {
            continue;
        }
        if left == 0 {
            return deepest;
        }
        left = left - 1;
        seen.insert(id);
        if depth > deepest {
            deepest = depth;
        }
        let next: usize = if depth < usize::MAX {
            depth + 1
        } else {
            depth
        };
        let ghost pairs = list_at(map, id).map_values(|inner: Uuid| (inner, deeper(depth)));
        if let Some(inner) = children.get(&id) {
            assert(inner@ == list_at(map, id));
            let mut i: usize = 0;
            assert(stack@ =~= rest + pairs.take(0));
            while i < inner.len()
                invariant
                    i <= inner.len(),
                    next == deeper(depth),
                    inner@.len() == pairs.len(),
                    pairs == inner@.map_values(|inner: Uuid| (inner, deeper(depth))),
                    stack@ == rest + pairs.take(i as int),
                decreases inner.len() - i,
            {
                stack.push((inner[i], next));
                i = i + 1;
                assert(stack@ =~= rest + pairs.take(i as int));
            }
            assert(pairs.take(i as int) =~= pairs);
        } else {
            assert(pairs =~= Seq::empty());
            assert(stack@ =~= rest + pairs);
        }
    }
    deepest
}

} // verus!
