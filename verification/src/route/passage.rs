//! Which way edges may be taken, where steps lead and what stands against them,
//! in terms of what edges and zones state.

use super::graph::{
    bias_term, capacity_term, edge_allows, inverse_term, penalty_of, priority_term,
    semantics_terms, step_over, term_when, zone_terms, zones_terms, PenaltyTerm, PenaltyView,
};
use crate::guid::Uuid;
use crate::index::edge_policies;
use crate::index::tables::{edge_at, lemma_places, node_ids, places};
use crate::number::Real;
use crate::policy::keywords::keyword;
use crate::policy::merge::effective_semantics;
use crate::policy::parse::edge_semantics_of;
use crate::policy::{EdgeTrafficSemanticsView, ZonePolicyKind, ZonePolicyView};
use crate::workspace::{Edge, Workspace};
use vstd::prelude::*;

verus! {

// ---------------------------------------------------------------------------
// direction
// ---------------------------------------------------------------------------

/// An edge may be taken either way unless it prefers a direction and is not
/// reversible. One that prefers to be taken forward may then be taken from its
/// source alone, and one that prefers to be taken in reverse from its target
/// alone. No edge is closed both ways.
pub proof fn lemma_which_way(e: &Edge)
    ensures
        ({
            let s = edge_semantics_of(e.properties@, false);
            &&& s.preferred_direction is None || s.reversible == Some(true) ==> edge_allows(e, true)
                && edge_allows(e, false)
            &&& s.preferred_direction matches Some(d) ==> {
                let forward = keyword(d) == "forward"@ || keyword(d) == "source_to_target"@;
                let back = keyword(d) == "reverse"@ || keyword(d) == "target_to_source"@;
                &&& forward ==> edge_allows(e, true)
                &&& back ==> edge_allows(e, false)
                &&& forward && s.reversible != Some(true) ==> !edge_allows(e, false)
                &&& back && s.reversible != Some(true) ==> !edge_allows(e, true)
                &&& !forward && !back ==> edge_allows(e, true) && edge_allows(e, false)
            }
            &&& edge_allows(e, true) || edge_allows(e, false)
        }),
{
    reveal_strlit("forward");
    reveal_strlit("source_to_target");
    reveal_strlit("reverse");
    reveal_strlit("target_to_source");
    assert("forward"@[0] == 'f' && "reverse"@[0] == 'r');
    assert("source_to_target"@[0] == 's' && "target_to_source"@[0] == 't');
}

/// Where no two nodes have the same identifier, an edge leads from one node to
/// another exactly if it joins them and may be taken that way. An edge from a node
/// to itself counts as taken from its source.
pub proof fn lemma_where_a_step_leads(ws: &Workspace, a: Uuid, k: int, b: Uuid)
    requires
        node_ids(ws).no_duplicates(),
    ensures
        step_over(ws, a, k) == Some(b) <==> {
            let e = ws.edges@[k];
            let nodes = ws.nodes@;
            &&& 0 <= k < ws.edges@.len()
            &&& e.source < nodes.len() && e.target < nodes.len()
            &&& {
                ||| nodes[e.source as int].id == a && nodes[e.target as int].id == b
                    && edge_allows(&e, true)
                ||| nodes[e.target as int].id == a && nodes[e.source as int].id == b && e.source
                    != e.target && edge_allows(&e, false)
            }
        },
{
    let ids = node_ids(ws);
    assert(ids.len() == ws.nodes.len());
    assert(ws.edges@.len() == ws.edges.len());
    lemma_places(ids);
    assert forall|i: int| 0 <= i < ids.len() implies places(ids).dom().contains(
        #[trigger] ids[i],
    ) && places(ids)[ids[i]] == i by {
        assert(ids.contains(ids[i]));
        assert(places(ids).dom().contains(ids[i]));
        assert(ids[places(ids)[ids[i]] as int] == ids[i]);
    }
    if 0 <= k < ws.edges@.len() {
        let e = ws.edges@[k];
        assert(e == ws.edges[k]);
        if e.source < ws.nodes@.len() && e.target < ws.nodes@.len() {
            assert(ids[e.source as int] == ws.nodes@[e.source as int].id);
            assert(ids[e.target as int] == ws.nodes@[e.target as int].id);
            if places(ids).dom().contains(a) {
                assert(ids[places(ids)[a] as int] == a);
            }
        }
    }
}

// ---------------------------------------------------------------------------
// penalties
// ---------------------------------------------------------------------------

proof fn lemma_either_part(a: Seq<PenaltyTerm>, b: Seq<PenaltyTerm>, x: PenaltyTerm)
    ensures
        (a + b).contains(x) <==> a.contains(x) || b.contains(x),
{
    let all = a + b;
    if all.contains(x) {
        let k = choose|k: int| 0 <= k < all.len() && all[k] == x;
        if k < a.len() {
            assert(a[k] == x);
        } else {
            assert(b[k - a.len()] == x);
        }
    }
    if a.contains(x) {
        let k = choose|k: int| 0 <= k < a.len() && a[k] == x;
        assert(all[k] == x);
    }
    if b.contains(x) {
        let k = choose|k: int| 0 <= k < b.len() && b[k] == x;
        assert(all[a.len() + k] == x);
    }
}

proof fn lemma_only(t: PenaltyTerm, x: PenaltyTerm)
    ensures
        seq![t].contains(x) <==> x == t,
        !Seq::<PenaltyTerm>::empty().contains(x),
{
    assert(seq![t][0] == t);
}

/// One for what holds and nothing for what does not.
pub open spec fn one_if(holds: bool) -> int {
    if holds {
        1
    } else {
        0
    }
}

/// Whether a number is there and above zero.
pub open spec fn positive(n: Option<crate::number::NumberView>) -> bool {
    n matches Some(v) && (Real { bits: 0 }).less_than(v.value)
}

proof fn lemma_five_parts(
    a: Seq<PenaltyTerm>,
    b: Seq<PenaltyTerm>,
    c: Seq<PenaltyTerm>,
    d: Seq<PenaltyTerm>,
    e: Seq<PenaltyTerm>,
    x: PenaltyTerm,
)
    ensures
        (a + b + c + d + e).contains(x) <==> a.contains(x) || b.contains(x) || c.contains(x)
            || d.contains(x) || e.contains(x),
        (a + b + c + d + e).len() == a.len() + b.len() + c.len() + d.len() + e.len(),
{
    lemma_either_part(a, b, x);
    lemma_either_part(a + b, c, x);
    lemma_either_part(a + b + c, d, x);
    lemma_either_part(a + b + c + d, e, x);
}

proof fn lemma_term_when(holds: bool, t: PenaltyTerm, x: PenaltyTerm)
    ensures
        term_when(holds, t).contains(x) <==> holds && x == t,
        term_when(holds, t).len() == one_if(holds),
{
    lemma_only(t, x);
}

proof fn lemma_inverse_term(n: Option<crate::number::NumberView>, x: PenaltyTerm)
    ensures
        inverse_term(n).contains(x) <==> (x matches PenaltyTerm::InverseOf(v) && positive(n)
            && n.unwrap().value == v),
        inverse_term(n).len() == one_if(positive(n)),
{
    if let Some(v) = n {
        lemma_only(PenaltyTerm::InverseOf(v.value), x);
    }
    lemma_only(x, x);
}

proof fn lemma_single_terms(s: EdgeTrafficSemanticsView, x: PenaltyTerm)
    ensures
        bias_term(s.cost_bias).contains(x) <==> (x matches PenaltyTerm::Bias(b)
            && s.cost_bias is Some && b == super::graph::above_zero(s.cost_bias.unwrap())),
        bias_term(s.cost_bias).len() == one_if(s.cost_bias is Some),
        inverse_term(s.speed_limit).contains(x) <==> (x matches PenaltyTerm::InverseOf(v)
            && positive(s.speed_limit) && s.speed_limit.unwrap().value == v),
        inverse_term(s.speed_limit).len() == one_if(positive(s.speed_limit)),
        priority_term(s.priority, 10).contains(x) <==> (x matches PenaltyTerm::PriorityGap(v, w)
            && w == 10 && s.priority is Some && s.priority.unwrap().value == v),
        priority_term(s.priority, 10).len() == one_if(s.priority is Some),
        capacity_term(s.capacity).contains(x) <==> (x matches PenaltyTerm::InverseOfCount(n) && n
            > 0 && s.capacity == Some(n)),
        capacity_term(s.capacity).len() == one_if(s.capacity matches Some(c) && c > 0),
        term_when(s.lane_type == Some("corridor"@), PenaltyTerm::Hundredths(75)).contains(x) <==> (
        s.lane_type == Some("corridor"@) && x == PenaltyTerm::Hundredths(75)),
        term_when(s.lane_type == Some("corridor"@), PenaltyTerm::Hundredths(75)).len() == one_if(
            s.lane_type == Some("corridor"@),
        ),
        term_when(s.passing_allowed == Some(false), PenaltyTerm::Hundredths(50)).contains(x) <==> (
        s.passing_allowed == Some(false) && x == PenaltyTerm::Hundredths(50)),
        term_when(s.passing_allowed == Some(false), PenaltyTerm::Hundredths(50)).len() == one_if(
            s.passing_allowed == Some(false),
        ),
        term_when(
            s.directed && s.reversible != Some(true),
            PenaltyTerm::Hundredths(25),
        ).contains(x) <==> (s.directed && s.reversible != Some(true) && x
            == PenaltyTerm::Hundredths(25)),
        term_when(s.directed && s.reversible != Some(true), PenaltyTerm::Hundredths(25)).len()
            == one_if(s.directed && s.reversible != Some(true)),
        term_when(s.no_stop == Some(true), PenaltyTerm::Hundredths(200)).contains(x) <==> (
        s.no_stop == Some(true) && x == PenaltyTerm::Hundredths(200)),
        term_when(s.no_stop == Some(true), PenaltyTerm::Hundredths(200)).len() == one_if(
            s.no_stop == Some(true),
        ),
        inverse_term(s.clearance_width).contains(x) <==> (x matches PenaltyTerm::InverseOf(v)
            && positive(s.clearance_width) && s.clearance_width.unwrap().value == v),
        inverse_term(s.clearance_width).len() == one_if(positive(s.clearance_width)),
        inverse_term(s.clearance_height).contains(x) <==> (x matches PenaltyTerm::InverseOf(v)
            && positive(s.clearance_height) && s.clearance_height.unwrap().value == v),
        inverse_term(s.clearance_height).len() == one_if(positive(s.clearance_height)),
{
    if let Some(b) = s.cost_bias {
        lemma_only(PenaltyTerm::Bias(super::graph::above_zero(b)), x);
    }
    if let Some(n) = s.priority {
        lemma_only(PenaltyTerm::PriorityGap(n.value, 10), x);
    }
    if let Some(c) = s.capacity {
        lemma_term_when(c > 0, PenaltyTerm::InverseOfCount(c), x);
    }
    lemma_only(x, x);
    lemma_inverse_term(s.speed_limit, x);
    lemma_inverse_term(s.clearance_width, x);
    lemma_inverse_term(s.clearance_height, x);
    lemma_term_when(s.lane_type == Some("corridor"@), PenaltyTerm::Hundredths(75), x);
    lemma_term_when(s.passing_allowed == Some(false), PenaltyTerm::Hundredths(50), x);
    lemma_term_when(s.directed && s.reversible != Some(true), PenaltyTerm::Hundredths(25), x);
    lemma_term_when(s.no_stop == Some(true), PenaltyTerm::Hundredths(200), x);
}

/// The penalty on an edge has a term for each thing that stands against it: a
/// bias, a stated speed, width or height, a priority, a capacity, a corridor, that
/// passing or stopping is not allowed, and that it may be taken one way only.
/// There is no term for anything else, and none occurs twice for one reason.
pub proof fn lemma_what_counts_against_an_edge(s: EdgeTrafficSemanticsView, x: PenaltyTerm)
    ensures
        semantics_terms(s).contains(x) <==> match x {
            PenaltyTerm::Bias(b) => s.cost_bias matches Some(c) && (if (Real { bits: 0 }).less_than(
                c,
            ) {
                b == c
            } else {
                b.bits == 0
            }),
            PenaltyTerm::InverseOf(v) => (Real { bits: 0 }).less_than(v) && {
                ||| s.speed_limit matches Some(n) && n.value == v
                ||| s.clearance_width matches Some(n) && n.value == v
                ||| s.clearance_height matches Some(n) && n.value == v
            },
            PenaltyTerm::InverseOfCount(n) => n > 0 && s.capacity == Some(n),
            PenaltyTerm::PriorityGap(v, w) => w == 10 && (s.priority matches Some(n) && n.value
                == v),
            PenaltyTerm::Hundredths(n) => {
                ||| n == 75 && s.lane_type == Some("corridor"@)
                ||| n == 50 && s.passing_allowed == Some(false)
                ||| n == 25 && s.directed && s.reversible != Some(true)
                ||| n == 200 && s.no_stop == Some(true)
            },
        },
        semantics_terms(s).len() == one_if(s.cost_bias is Some) + one_if(positive(s.speed_limit))
            + one_if(s.priority is Some) + one_if(s.capacity matches Some(c) && c > 0) + one_if(
            s.lane_type == Some("corridor"@),
        ) + one_if(s.passing_allowed == Some(false)) + one_if(
            s.directed && s.reversible != Some(true),
        ) + one_if(s.no_stop == Some(true)) + one_if(positive(s.clearance_width)) + one_if(
            positive(s.clearance_height),
        ),
{
    let p0 = bias_term(s.cost_bias);
    let p1 = inverse_term(s.speed_limit);
    let p2 = priority_term(s.priority, 10);
    let p3 = capacity_term(s.capacity);
    let p4 = term_when(s.lane_type == Some("corridor"@), PenaltyTerm::Hundredths(75));
    let p5 = term_when(s.passing_allowed == Some(false), PenaltyTerm::Hundredths(50));
    let p6 = term_when(s.directed && s.reversible != Some(true), PenaltyTerm::Hundredths(25));
    let p7 = term_when(s.no_stop == Some(true), PenaltyTerm::Hundredths(200));
    let p8 = inverse_term(s.clearance_width);
    let p9 = inverse_term(s.clearance_height);
    lemma_five_parts(p0, p1, p2, p3, p4, x);
    let front = p0 + p1 + p2 + p3 + p4;
    lemma_five_parts(front, p5, p6, p7, p8, x);
    lemma_either_part(front + p5 + p6 + p7 + p8, p9, x);
    assert(semantics_terms(s) == front + p5 + p6 + p7 + p8 + p9);
    lemma_single_terms(s, x);
}

/// The penalty on an edge has a term for each thing that a zone states against
/// it: that a grant or a claim is needed, a priority, that waiting or stopping is
/// not allowed, and that it is a corridor.
pub proof fn lemma_what_counts_against_a_zone(p: ZonePolicyView, x: PenaltyTerm)
    ensures
        zone_terms(p).contains(x) <==> match x {
            PenaltyTerm::PriorityGap(v, w) => w == 5 && (p.priority matches Some(n) && n.value
                == v),
            PenaltyTerm::Hundredths(n) => {
                ||| n == 10000 && (p.requires_claim || p.blocks_entry_without_grant
                    || p.blocks_traversal_without_grant)
                ||| n == 150 && p.waiting_allowed == Some(false)
                ||| n == 200 && p.stop_allowed == Some(false)
                ||| n == 75 && p.kind == ZonePolicyKind::Corridor
            },
            _ => false,
        },
        zone_terms(p).len() == one_if(
            p.requires_claim || p.blocks_entry_without_grant || p.blocks_traversal_without_grant,
        ) + one_if(p.priority is Some) + one_if(p.waiting_allowed == Some(false)) + one_if(
            p.stop_allowed == Some(false),
        ) + one_if(p.kind == ZonePolicyKind::Corridor),
{
    let p0 = term_when(
        p.requires_claim || p.blocks_entry_without_grant || p.blocks_traversal_without_grant,
        PenaltyTerm::Hundredths(10000),
    );
    let p1 = priority_term(p.priority, 5);
    let p2 = term_when(p.waiting_allowed == Some(false), PenaltyTerm::Hundredths(150));
    let p3 = term_when(p.stop_allowed == Some(false), PenaltyTerm::Hundredths(200));
    let p4 = term_when(p.kind == ZonePolicyKind::Corridor, PenaltyTerm::Hundredths(75));
    lemma_either_part(p0, p1, x);
    lemma_either_part(p0 + p1, p2, x);
    lemma_either_part(p0 + p1 + p2, p3, x);
    lemma_either_part(p0 + p1 + p2 + p3, p4, x);
    assert forall|t: PenaltyTerm| #[trigger] seq![t].contains(x) <==> x == t by {
        lemma_only(t, x);
    }
    lemma_only(x, x);
}

proof fn lemma_zones_count(zones: Seq<ZonePolicyView>, x: PenaltyTerm)
    ensures
        zones_terms(zones).contains(x) <==> exists|i: int|
            0 <= i < zones.len() && zone_terms(#[trigger] zones[i]).contains(x),
    decreases zones.len(),
{
    if zones.len() > 0 {
        let rest = zones.drop_last();
        lemma_zones_count(rest, x);
        lemma_either_part(zones_terms(rest), zone_terms(zones.last()), x);
        assert(zones[zones.len() - 1] == zones.last());
        assert forall|i: int| 0 <= i < rest.len() implies #[trigger] rest[i] == zones[i] by {}
        if exists|i: int| 0 <= i < zones.len() && zone_terms(#[trigger] zones[i]).contains(x) {
            let i = choose|i: int|
                0 <= i < zones.len() && zone_terms(#[trigger] zones[i]).contains(x);
            if i < rest.len() {
                assert(zone_terms(rest[i]).contains(x));
            }
        }
    }
}

/// An edge that is not there has an infinite penalty. The penalty on any other is
/// made of what counts against the edge itself and against each of its zones.
pub proof fn lemma_what_a_penalty_is_made_of<A: Fn(Real, Real) -> Real>(
    ws: &Workspace,
    plus: A,
    id: Uuid,
    x: PenaltyTerm,
)
    ensures
        edge_at(ws, id) is None <==> penalty_of(ws, plus, id) == PenaltyView::Infinite,
        edge_at(ws, id) matches Some(e) ==> (penalty_of(ws, plus, id) matches PenaltyView::Sum(
            terms,
        ) && (terms.contains(x) <==> {
            let zones = edge_policies(ws, id);
            ||| semantics_terms(
                effective_semantics(plus, e.properties@, false, zones),
            ).contains(x)
            ||| exists|i: int| 0 <= i < zones.len() && zone_terms(#[trigger] zones[i]).contains(x)
        })),
{
    if let Some(e) = edge_at(ws, id) {
        let zones = edge_policies(ws, id);
        lemma_zones_count(zones, x);
        lemma_either_part(
            semantics_terms(effective_semantics(plus, e.properties@, false, zones)),
            zones_terms(zones),
            x,
        );
    }
}

} // verus!
