//! The depth that is counted over the tables is the height of the zone tree.

use super::tables::{
    children_in, first_seen, list_at, walk_ids, zone_children, zone_order, zone_walk,
};
use super::walks::{deeper, deepest_from};
use super::zone_depth;
use crate::guid::Uuid;
use crate::workspace::{walk, walk_children, Workspace, Zone};
use vstd::prelude::*;

verus! {

/// How many zones the longest way down through a zone holds, the zone included.
pub open spec fn height(zone: &Zone) -> nat
    decreases zone, zone.children@.len() + 1,
{
    1 + highest_child(zone, zone.children@.len())
}

/// The greatest height among the first `n` children of a zone.
pub open spec fn highest_child(zone: &Zone, n: nat) -> nat
    decreases zone, n,
{
    if n == 0 || n > zone.children@.len() {
        0
    } else {
        let one = height(&zone.children[n - 1]);
        let others = highest_child(zone, (n - 1) as nat);
        if one > others {
            one
        } else {
            others
        }
    }
}

/// The identifiers of the first `n` children of a zone, the last one first.
spec fn last_first(zone: &Zone, n: nat) -> Seq<Uuid> {
    Seq::new(n, |k: int| zone.children[n - 1 - k].id)
}

/// The zones that a walk finds directly inside a zone.
spec fn kids(visits: Seq<(&Zone, Option<Uuid>)>, parent: Uuid) -> Seq<Uuid>
    decreases visits.len(),
{
    if visits.len() == 0 {
        Seq::empty()
    } else {
        let before = kids(visits.drop_last(), parent);
        if visits.last().1 == Some(parent) {
            before.push(visits.last().0.id)
        } else {
            before
        }
    }
}

proof fn lemma_kids_listed(visits: Seq<(&Zone, Option<Uuid>)>, parent: Uuid)
    ensures
        list_at(children_in(visits), parent) == kids(visits, parent),
    decreases visits.len(),
{
    if visits.len() > 0 {
        lemma_kids_listed(visits.drop_last(), parent);
        if visits.last().1 == Some(parent) && !children_in(visits.drop_last()).dom().contains(
            parent,
        ) {
            assert(seq![visits.last().0.id] =~= Seq::<Uuid>::empty().push(visits.last().0.id));
        }
    }
}

proof fn lemma_kids_concat(
    a: Seq<(&Zone, Option<Uuid>)>,
    b: Seq<(&Zone, Option<Uuid>)>,
    parent: Uuid,
)
    ensures
        kids(a + b, parent) == kids(a, parent) + kids(b, parent),
    decreases b.len(),
{
    if b.len() == 0 {
        assert(a + b =~= a);
        assert(kids(a, parent) + kids(b, parent) =~= kids(a, parent));
    } else {
        lemma_kids_concat(a, b.drop_last(), parent);
        assert((a + b).drop_last() =~= a + b.drop_last());
        assert((a + b).last() == b.last());
        assert(kids(a + b, parent) =~= kids(a, parent) + kids(b, parent));
    }
}

proof fn lemma_kids_of_one(zone: &Zone, around: Option<Uuid>, parent: Uuid)
    ensures
        kids(seq![(zone, around)], parent) == if around == Some(parent) {
            seq![zone.id]
        } else {
            Seq::empty()
        },
{
    let visits = seq![(zone, around)];
    assert(visits.drop_last() =~= Seq::empty());
    assert(kids(visits.drop_last(), parent) =~= Seq::empty());
    assert(kids(visits, parent) =~= if around == Some(parent) {
        seq![zone.id]
    } else {
        Seq::empty()
    });
}

/// A walk finds nothing inside a zone that it does not come to, but for the zone
/// that it starts at.
proof fn lemma_kids_of_stranger(zone: &Zone, around: Option<Uuid>, parent: Uuid)
    requires
        !walk_ids(walk(zone, around)).contains(parent),
    ensures
        kids(walk(zone, around), parent) == if around == Some(parent) {
            seq![zone.id]
        } else {
            Seq::empty()
        },
    decreases zone, zone.children@.len() + 1,
{
    let n = zone.children@.len();
    let first = seq![(zone, around)];
    let inner = walk_children(zone, n);
    lemma_ids_concat(first, inner);
    lemma_missing(walk_ids(first), walk_ids(inner), parent);
    assert(walk_ids(first)[0] == zone.id);
    lemma_kids_of_one(zone, around, parent);
    lemma_kids_concat(first, inner, parent);
    lemma_kids_of_stranger_below(zone, n, parent);
    assert(kids(first, parent) + Seq::empty() =~= kids(first, parent));
}

proof fn lemma_kids_of_stranger_below(zone: &Zone, n: nat, parent: Uuid)
    requires
        n <= zone.children@.len(),
        parent != zone.id,
        !walk_ids(walk_children(zone, n)).contains(parent),
    ensures
        kids(walk_children(zone, n), parent) == Seq::<Uuid>::empty(),
    decreases zone, n,
{
    if n > 0 {
        let child = &zone.children[n - 1];
        let one = walk(child, Some(zone.id));
        let others = walk_children(zone, (n - 1) as nat);
        lemma_ids_concat(one, others);
        lemma_missing(walk_ids(one), walk_ids(others), parent);
        lemma_kids_of_stranger(child, Some(zone.id), parent);
        lemma_kids_of_stranger_below(zone, (n - 1) as nat, parent);
        lemma_kids_concat(one, others, parent);
        assert(Seq::<Uuid>::empty() + Seq::<Uuid>::empty() =~= Seq::<Uuid>::empty());
    }
}

/// A walk over the children of a zone finds them inside it, the last one first.
proof fn lemma_own_kids(zone: &Zone, n: nat)
    requires
        n <= zone.children@.len(),
        !walk_ids(walk_children(zone, n)).contains(zone.id),
    ensures
        kids(walk_children(zone, n), zone.id) == last_first(zone, n),
    decreases n,
{
    if n > 0 {
        let child = &zone.children[n - 1];
        let one = walk(child, Some(zone.id));
        let others = walk_children(zone, (n - 1) as nat);
        lemma_ids_concat(one, others);
        lemma_missing(walk_ids(one), walk_ids(others), zone.id);
        lemma_kids_of_stranger(child, Some(zone.id), zone.id);
        lemma_own_kids(zone, (n - 1) as nat);
        lemma_kids_concat(one, others, zone.id);
        assert(seq![child.id] + last_first(zone, (n - 1) as nat) =~= last_first(zone, n));
    } else {
        assert(last_first(zone, 0) =~= Seq::<Uuid>::empty());
    }
}

proof fn lemma_ids_concat(a: Seq<(&Zone, Option<Uuid>)>, b: Seq<(&Zone, Option<Uuid>)>)
    ensures
        walk_ids(a + b) == walk_ids(a) + walk_ids(b),
{
    assert(walk_ids(a + b) =~= walk_ids(a) + walk_ids(b));
}

proof fn lemma_missing(a: Seq<Uuid>, b: Seq<Uuid>, x: Uuid)
    ensures
        (a + b).contains(x) <==> a.contains(x) || b.contains(x),
{
    if a.contains(x) {
        let k = choose|k: int| 0 <= k < a.len() && a[k] == x;
        assert((a + b)[k] == x);
    }
    if b.contains(x) {
        let k = choose|k: int| 0 <= k < b.len() && b[k] == x;
        assert((a + b)[a.len() + k] == x);
    }
    if (a + b).contains(x) {
        let k = choose|k: int| 0 <= k < (a + b).len() && (a + b)[k] == x;
        if k < a.len() {
            assert(a[k] == x);
        } else {
            assert(b[k - a.len()] == x);
        }
    }
}

proof fn lemma_apart(a: Seq<Uuid>, b: Seq<Uuid>)
    requires
        (a + b).no_duplicates(),
    ensures
        a.no_duplicates(),
        b.no_duplicates(),
        forall|x: Uuid| #[trigger] a.contains(x) ==> !b.contains(x),
{
    let all = a + b;
    assert forall|i: int, j: int| 0 <= i < j < a.len() implies a[i] != a[j] by {
        assert(all[i] == a[i] && all[j] == a[j]);
    }
    assert forall|i: int, j: int| 0 <= i < j < b.len() implies b[i] != b[j] by {
        assert(all[a.len() + i] == b[i] && all[a.len() + j] == b[j]);
    }
    assert forall|x: Uuid| #[trigger] a.contains(x) implies !b.contains(x) by {
        let i = choose|i: int| 0 <= i < a.len() && a[i] == x;
        if b.contains(x) {
            let j = choose|j: int| 0 <= j < b.len() && b[j] == x;
            assert(all[i] == x && all[a.len() + j] == x);
        }
    }
}

/// Whether the children of every zone in a tree are listed, the last one first.
spec fn listed(children: Map<Uuid, Seq<Uuid>>, zone: &Zone) -> bool
    decreases zone, zone.children@.len() + 1,
{
    &&& list_at(children, zone.id) == last_first(zone, zone.children@.len())
    &&& listed_below(children, zone, zone.children@.len())
}

spec fn listed_below(children: Map<Uuid, Seq<Uuid>>, zone: &Zone, n: nat) -> bool
    decreases zone, n,
{
    n == 0 || n > zone.children@.len() || {
        &&& listed(children, &zone.children[n - 1])
        &&& listed_below(children, zone, (n - 1) as nat)
    }
}

/// Whether what is listed inside the zones that a walk comes to is what the walk
/// finds there.
spec fn reflects(children: Map<Uuid, Seq<Uuid>>, visits: Seq<(&Zone, Option<Uuid>)>) -> bool {
    forall|p: Uuid| #[trigger]
        walk_ids(visits).contains(p) ==> list_at(children, p) == kids(visits, p)
}

proof fn lemma_listed(children: Map<Uuid, Seq<Uuid>>, zone: &Zone, around: Option<Uuid>)
    requires
        walk_ids(walk(zone, around)).no_duplicates(),
        around matches Some(p) ==> !walk_ids(walk(zone, around)).contains(p),
        reflects(children, walk(zone, around)),
    ensures
        listed(children, zone),
    decreases zone, zone.children@.len() + 1,
{
    let n = zone.children@.len();
    let first = seq![(zone, around)];
    let inner = walk_children(zone, n);
    let all = walk(zone, around);
    lemma_ids_concat(first, inner);
    lemma_apart(walk_ids(first), walk_ids(inner));
    assert(walk_ids(first)[0] == zone.id);
    assert(walk_ids(first).contains(zone.id));
    assert forall|p: Uuid| walk_ids(all).contains(p) implies kids(all, p) == kids(inner, p) by {
        lemma_kids_concat(first, inner, p);
        lemma_kids_of_one(zone, around, p);
        assert(Seq::<Uuid>::empty() + kids(inner, p) =~= kids(inner, p));
    }
    lemma_missing(walk_ids(first), walk_ids(inner), zone.id);
    lemma_own_kids(zone, n);
    assert(reflects(children, inner)) by {
        assert forall|p: Uuid| #[trigger] walk_ids(inner).contains(p) implies list_at(children, p)
            == kids(inner, p) by {
            lemma_missing(walk_ids(first), walk_ids(inner), p);
        }
    }
    lemma_listed_below(children, zone, n);
}

proof fn lemma_listed_below(children: Map<Uuid, Seq<Uuid>>, zone: &Zone, n: nat)
    requires
        n <= zone.children@.len(),
        walk_ids(walk_children(zone, n)).no_duplicates(),
        !walk_ids(walk_children(zone, n)).contains(zone.id),
        reflects(children, walk_children(zone, n)),
    ensures
        listed_below(children, zone, n),
    decreases zone, n,
{
    if n > 0 {
        let child = &zone.children[n - 1];
        let one = walk(child, Some(zone.id));
        let others = walk_children(zone, (n - 1) as nat);
        let all = walk_children(zone, n);
        lemma_ids_concat(one, others);
        lemma_apart(walk_ids(one), walk_ids(others));
        lemma_missing(walk_ids(one), walk_ids(others), zone.id);
        assert forall|p: Uuid| #[trigger] walk_ids(one).contains(p) implies list_at(children, p)
            == kids(one, p) by {
            lemma_missing(walk_ids(one), walk_ids(others), p);
            lemma_kids_concat(one, others, p);
            lemma_kids_of_stranger_below(zone, (n - 1) as nat, p);
            assert(kids(one, p) + Seq::empty() =~= kids(one, p));
        }
        assert forall|p: Uuid| #[trigger] walk_ids(others).contains(p) implies list_at(children, p)
            == kids(others, p) by {
            lemma_missing(walk_ids(one), walk_ids(others), p);
            lemma_kids_concat(one, others, p);
            lemma_kids_of_stranger(child, Some(zone.id), p);
            assert(Seq::empty() + kids(others, p) =~= kids(others, p));
        }
        lemma_listed(children, child, Some(zone.id));
        lemma_listed_below(children, zone, (n - 1) as nat);
    }
}

proof fn lemma_height_fits(zone: &Zone, around: Option<Uuid>)
    ensures
        height(zone) <= walk(zone, around).len(),
    decreases zone, zone.children@.len() + 1,
{
    lemma_height_fits_below(zone, zone.children@.len());
}

proof fn lemma_height_fits_below(zone: &Zone, n: nat)
    ensures
        highest_child(zone, n) <= walk_children(zone, n).len(),
    decreases zone, n,
{
    if n > 0 && n <= zone.children@.len() {
        lemma_height_fits(&zone.children[n - 1], Some(zone.id));
        lemma_height_fits_below(zone, (n - 1) as nat);
    }
}

proof fn lemma_highest(zone: &Zone, i: nat, n: nat)
    requires
        i <= n <= zone.children@.len(),
    ensures
        highest_child(zone, i) <= highest_child(zone, n),
    decreases n - i,
{
    if i < n {
        lemma_highest(zone, i, (n - 1) as nat);
    }
}

spec fn greater(a: usize, b: int) -> usize {
    if b > a {
        b as usize
    } else {
        a
    }
}

/// Taking a zone off the stack deals with the whole tree below it.
proof fn lemma_deepest_past(
    children: Map<Uuid, Seq<Uuid>>,
    zone: &Zone,
    around: Option<Uuid>,
    rest: Seq<(Uuid, usize)>,
    seen: Set<Uuid>,
    deepest: usize,
    depth: usize,
    left: nat,
)
    requires
        listed(children, zone),
        walk_ids(walk(zone, around)).no_duplicates(),
        forall|x: Uuid| #[trigger] walk_ids(walk(zone, around)).contains(x) ==> !seen.contains(x),
        left >= walk(zone, around).len(),
        depth + height(zone) - 1 <= usize::MAX,
    ensures
        deepest_from(children, rest.push((zone.id, depth)), seen, deepest, left) == deepest_from(
            children,
            rest,
            seen.union(walk_ids(walk(zone, around)).to_set()),
            greater(deepest, depth + height(zone) - 1),
            (left - walk(zone, around).len()) as nat,
        ),
    decreases zone, zone.children@.len() + 1,
{
    let n = zone.children@.len();
    let first = seq![(zone, around)];
    let inner = walk_children(zone, n);
    lemma_ids_concat(first, inner);
    lemma_apart(walk_ids(first), walk_ids(inner));
    assert(walk_ids(first)[0] == zone.id);
    assert(walk_ids(first).contains(zone.id));
    assert forall|x: Uuid| walk_ids(inner).contains(x) || x == zone.id <==> #[trigger] walk_ids(
        walk(zone, around),
    ).contains(x) by {
        lemma_missing(walk_ids(first), walk_ids(inner), x);
    }
    let stack = rest.push((zone.id, depth));
    assert(stack.drop_last() =~= rest);
    assert(stack.last() == (zone.id, depth));
    assert(walk_ids(walk(zone, around)).contains(zone.id));
    let seen1 = seen.insert(zone.id);
    let deepest1 = greater(deepest, depth as int);
    let pairs = last_first(zone, n).map_values(|inner: Uuid| (inner, deeper(depth)));
    let start = rest + pairs;
    assert(deepest_from(children, stack, seen, deepest, left) == deepest_from(
        children,
        start,
        seen1,
        deepest1,
        (left - 1) as nat,
    ));
    assert(pairs.take(n as int) =~= pairs);
    if n > 0 {
        assert(height(&zone.children[n - 1]) >= 1);
    }
    assert forall|x: Uuid| #[trigger] walk_ids(inner).contains(x) implies !seen1.contains(x) by {
        assert(walk_ids(walk(zone, around)).contains(x));
    }
    lemma_deepest_past_below(children, zone, n, rest, seen1, deepest1, depth, (left - 1) as nat);
    assert(rest + pairs.take(0) =~= rest);
    assert(seen1.union(walk_ids(inner).to_set()) =~= seen.union(
        walk_ids(walk(zone, around)).to_set(),
    ));
}

/// Taking the first `n` children of a zone off the stack deals with the trees
/// below them.
proof fn lemma_deepest_past_below(
    children: Map<Uuid, Seq<Uuid>>,
    zone: &Zone,
    n: nat,
    rest: Seq<(Uuid, usize)>,
    seen: Set<Uuid>,
    deepest: usize,
    depth: usize,
    left: nat,
)
    requires
        n <= zone.children@.len(),
        listed_below(children, zone, n),
        walk_ids(walk_children(zone, n)).no_duplicates(),
        forall|x: Uuid| #[trigger]
            walk_ids(walk_children(zone, n)).contains(x) ==> !seen.contains(x),
        left >= walk_children(zone, n).len(),
        depth + highest_child(zone, n) <= usize::MAX,
    ensures
        ({
            let all = zone.children@.len();
            let pairs = last_first(zone, all).map_values(|inner: Uuid| (inner, deeper(depth)));
            deepest_from(children, rest + pairs, seen, deepest, left) == deepest_from(
                children,
                rest + pairs.take(all - n),
                seen.union(walk_ids(walk_children(zone, n)).to_set()),
                if n == 0 {
                    deepest
                } else {
                    greater(deepest, depth + highest_child(zone, n))
                },
                (left - walk_children(zone, n).len()) as nat,
            )
        }),
    decreases zone, n,
{
    let all = zone.children@.len();
    let pairs = last_first(zone, all).map_values(|inner: Uuid| (inner, deeper(depth)));
    if n == 0 {
        assert(pairs.take(all as int) =~= pairs);
        assert(seen.union(walk_ids(walk_children(zone, 0)).to_set()) =~= seen) by {
            assert(walk_ids(walk_children(zone, 0)) =~= Seq::empty());
        }
    } else {
        let m = (n - 1) as nat;
        let child = &zone.children[n - 1];
        let one = walk(child, Some(zone.id));
        let others = walk_children(zone, m);
        lemma_ids_concat(one, others);
        lemma_apart(walk_ids(one), walk_ids(others));
        assert forall|x: Uuid| walk_ids(one).contains(x) || walk_ids(others).contains(x)
            <==> #[trigger] walk_ids(walk_children(zone, n)).contains(x) by {
            lemma_missing(walk_ids(one), walk_ids(others), x);
        }
        lemma_highest(zone, m, n);
        assert forall|x: Uuid| #[trigger] walk_ids(others).contains(x) implies !seen.contains(x) by {
            assert(walk_ids(walk_children(zone, n)).contains(x));
        }
        lemma_deepest_past_below(children, zone, m, rest, seen, deepest, depth, left);
        let seen1 = seen.union(walk_ids(others).to_set());
        let deepest1 = if m == 0 {
            deepest
        } else {
            greater(deepest, depth + highest_child(zone, m))
        };
        let left1 = (left - others.len()) as nat;
        assert(height(child) >= 1);
        assert(deeper(depth) == depth + 1);
        assert(pairs[all - n] == (child.id, deeper(depth)));
        let rest1 = rest + pairs.take(all - n);
        assert(rest + pairs.take(all - m) =~= rest1.push((child.id, deeper(depth))));
        assert forall|x: Uuid| #[trigger] walk_ids(one).contains(x) implies !seen1.contains(x) by {
            assert(walk_ids(walk_children(zone, n)).contains(x));
        }
        lemma_deepest_past(
            children,
            child,
            Some(zone.id),
            rest1,
            seen1,
            deepest1,
            deeper(depth),
            left1,
        );
        assert(seen1.union(walk_ids(one).to_set()) =~= seen.union(
            walk_ids(walk_children(zone, n)).to_set(),
        ));
    }
}

proof fn lemma_first_seen_whole(ids: Seq<Uuid>)
    requires
        ids.no_duplicates(),
    ensures
        first_seen(ids) == ids,
    decreases ids.len(),
{
    if ids.len() > 0 {
        let rest = ids.drop_last();
        assert forall|i: int, j: int| 0 <= i < j < rest.len() implies rest[i] != rest[j] by {
            assert(ids[i] == rest[i] && ids[j] == rest[j]);
        }
        lemma_first_seen_whole(rest);
        if rest.contains(ids.last()) {
            let k = choose|k: int| 0 <= k < rest.len() && rest[k] == ids.last();
            assert(ids[k] == ids[ids.len() - 1]);
        }
        assert(rest.push(ids.last()) =~= ids);
    } else {
        assert(ids =~= Seq::empty());
    }
}

/// Where no two zones share an identifier, the depth of the zones is the height
/// of the tree: the number of zones on the longest way down from the root.
pub proof fn lemma_depth_is_height(ws: &Workspace)
    requires
        walk_ids(zone_walk(ws)).no_duplicates(),
        zone_walk(ws).len() <= usize::MAX,
    ensures
        zone_depth(ws) == height(&ws.root),
{
    let children = zone_children(ws);
    let visits = zone_walk(ws);
    let root = &ws.root;
    assert forall|p: Uuid| #[trigger] walk_ids(visits).contains(p) implies list_at(children, p)
        == kids(visits, p) by {
        lemma_kids_listed(visits, p);
    }
    lemma_listed(children, root, None);
    lemma_height_fits(root, None);
    lemma_first_seen_whole(walk_ids(visits));
    let rest = Seq::<(Uuid, usize)>::empty();
    assert(rest.push((root.id, 1usize)) =~= seq![(root.id, 1usize)]);
    assert(zone_order(ws).len() == visits.len());
    lemma_deepest_past(children, root, None, rest, Set::empty(), 0, 1, visits.len());
}

} // verus!
