//! Which steps a robot may take over the graph, and what stands against them.

use crate::guid::Uuid;
use crate::index::tables::{
    edge_at, edge_stands, looked_up, node_ids, places, policy_at, semantics_at,
};
use crate::index::{edge_policies, edge_zone_ids, WorkspaceIndex};
use crate::number::{is_operation, Number, NumberView, Real};
use crate::policy::keywords::keyword;
use crate::policy::merge::{derive_effective_edge_semantics, effective_semantics};
use crate::policy::parse::{edge_semantics_of, parse_edge_traffic_semantics};
use crate::policy::{
    EdgeTrafficSemantics, EdgeTrafficSemanticsView, ZonePolicy, ZonePolicyKind, ZonePolicyView,
};
use crate::text::{lower, same_text, trim};
use crate::views::views;
use crate::workspace::{Edge, Workspace};
use vstd::prelude::*;

verus! {

// ---------------------------------------------------------------------------
// direction
// ---------------------------------------------------------------------------

/// Whether the semantics of an edge let it be taken, from its source or from its
/// target. An edge with a preferred direction may be taken the other way only
/// if it is reversible.
pub open spec fn direction_allows(s: EdgeTrafficSemanticsView, from_source: bool) -> bool {
    match s.preferred_direction {
        None => true,
        Some(d) => {
            let k = keyword(d);
            if k == "forward"@ || k == "source_to_target"@ {
                from_source || s.reversible == Some(true)
            } else if k == "reverse"@ || k == "target_to_source"@ {
                !from_source || s.reversible == Some(true)
            } else {
                true
            }
        },
    }
}

/// Whether an edge may be taken, from its source or from its target.
pub open spec fn edge_allows(e: &Edge, from_source: bool) -> bool {
    direction_allows(edge_semantics_of(e.properties@, false), from_source)
}

/// Whether an edge may be taken, from its source or from its target.
pub fn allows_traversal_from_node(edge: &Edge, from_source: bool) -> (b: bool)
    ensures
        b == edge_allows(edge, from_source),
{
    let semantics = parse_edge_traffic_semantics(&edge.properties, false);
    match &semantics.preferred_direction {
        None => true,
        Some(d) => {
            let k = lower(trim(d.as_str()));
            let k = k.as_str();
            if same_text(k, "forward") || same_text(k, "source_to_target") {
                from_source || semantics.reversible == Some(true)
            } else if same_text(k, "reverse") || same_text(k, "target_to_source") {
                !from_source || semantics.reversible == Some(true)
            } else {
                true
            }
        },
    }
}

// ---------------------------------------------------------------------------
// blocks
// ---------------------------------------------------------------------------

/// Whether a zone keeps a route out.
pub open spec fn zone_blocks(p: ZonePolicyView) -> bool {
    ||| p.blocked == Some(true)
    ||| p.kind == ZonePolicyKind::Restricted
    ||| p.blocks_entry_without_grant
    ||| p.blocks_traversal_without_grant
}

/// Those of a list of zones that keep a route out.
pub open spec fn blocking_zones(ws: &Workspace, ids: Seq<Uuid>) -> Seq<Uuid>
    decreases ids.len(),
{
    if ids.len() == 0 {
        Seq::empty()
    } else {
        let before = blocking_zones(ws, ids.drop_last());
        match policy_at(ws, ids.last()) {
            Some(p) if zone_blocks(p) => before.push(ids.last()),
            _ => before,
        }
    }
}

/// The zones of an edge that keep a route out.
pub open spec fn edge_blocking_zones(ws: &Workspace, edge_id: Uuid) -> Seq<Uuid> {
    blocking_zones(ws, edge_zone_ids(ws, edge_id))
}

/// The zones of an edge that keep a route out.
pub fn blocked_zones_for_edge(index: &WorkspaceIndex, edge_id: Uuid) -> (out: Vec<Uuid>)
    ensures
        out@ == edge_blocking_zones(&index@, edge_id),
{
    let mut out: Vec<Uuid> = Vec::new();
    if let Some(edge) = index.edge(edge_id) {
        let ids = &edge.zone_ids;
        let mut i: usize = 0;
        assert(ids@.take(0) =~= Seq::empty());
        while i < ids.len()
            invariant
                i <= ids.len(),
                out@ == blocking_zones(&index@, ids@.take(i as int)),
            decreases ids.len() - i,
        {
            assert(ids@.take(i as int + 1).drop_last() =~= ids@.take(i as int));
            if let Some(p) = index.zone_policy(ids[i]) {
                if p.blocked == Some(true) || p.kind == ZonePolicyKind::Restricted
                    || p.blocks_entry_without_grant || p.blocks_traversal_without_grant {
                    out.push(ids[i]);
                }
            }
            i = i + 1;
        }
        assert(ids@.take(i as int) =~= ids@);
    }
    out
}

/// Whether an edge is closed to routes: it is not there, it is blocked or must
/// not be stopped on, or one of its zones keeps routes out.
pub open spec fn hard_blocked(ws: &Workspace, edge_id: Uuid) -> bool {
    match semantics_at(ws, edge_id) {
        None => true,
        Some(s) => s.blocked == Some(true) || s.no_stop == Some(true) || edge_blocking_zones(
            ws,
            edge_id,
        ).len() > 0,
    }
}

/// Whether an edge is closed to routes.
pub fn is_edge_hard_blocked(index: &WorkspaceIndex, edge_id: Uuid) -> (b: bool)
    ensures
        b == hard_blocked(&index@, edge_id),
{
    match index.edge_semantics(edge_id) {
        None => true,
        Some(s) => s.blocked == Some(true) || s.no_stop == Some(true) || blocked_zones_for_edge(
            index,
            edge_id,
        ).len() > 0,
    }
}

// ---------------------------------------------------------------------------
// penalties
// ---------------------------------------------------------------------------

/// One summand of the penalty on an edge.
#[derive(Debug, Clone, Copy, PartialEq, Eq, Structural)]
pub enum PenaltyTerm {
    /// The cost bias, or nothing where it is negative or no number.
    Bias(Real),
    /// One divided by a quantity.
    InverseOf(Real),
    /// One divided by a number.
    InverseOfCount(u64),
    /// What a priority lacks to ten, or nothing, times a weight in hundredths.
    PriorityGap(Real, u64),
    /// A fixed value in hundredths.
    Hundredths(u64),
}

/// The penalty on an edge: the sum of its terms, in their order.
#[derive(Debug, PartialEq, Eq)]
pub enum Penalty {
    /// There is no such edge.
    Infinite,
    Sum(Vec<PenaltyTerm>),
}

/// What a [`Penalty`] stands for.
pub enum PenaltyView {
    Infinite,
    Sum(Seq<PenaltyTerm>),
}

impl View for Penalty {
    type V = PenaltyView;

    open spec fn view(&self) -> PenaltyView {
        match self {
            Penalty::Infinite => PenaltyView::Infinite,
            Penalty::Sum(terms) => PenaltyView::Sum(terms@),
        }
    }
}

/// A term, if a condition holds.
pub open spec fn term_when(holds: bool, t: PenaltyTerm) -> Seq<PenaltyTerm> {
    if holds {
        seq![t]
    } else {
        Seq::empty()
    }
}

/// One divided by a quantity, if that is there and positive.
pub open spec fn inverse_term(n: Option<NumberView>) -> Seq<PenaltyTerm> {
    match n {
        Some(v) if (Real { bits: 0 }).less_than(v.value) => seq![PenaltyTerm::InverseOf(v.value)],
        _ => Seq::empty(),
    }
}

/// The term for a priority, if there is one.
pub open spec fn priority_term(n: Option<NumberView>, weight: u64) -> Seq<PenaltyTerm> {
    match n {
        Some(v) => seq![PenaltyTerm::PriorityGap(v.value, weight)],
        None => Seq::empty(),
    }
}

/// A quantity that is above zero, and zero otherwise.
pub open spec fn above_zero(b: Real) -> Real {
    if (Real { bits: 0 }).less_than(b) {
        b
    } else {
        Real { bits: 0 }
    }
}

/// The term for a cost bias, if there is one.
pub open spec fn bias_term(bias: Option<Real>) -> Seq<PenaltyTerm> {
    match bias {
        Some(b) => seq![PenaltyTerm::Bias(above_zero(b))],
        None => Seq::empty(),
    }
}

/// The term for a capacity, if there is one.
pub open spec fn capacity_term(capacity: Option<u64>) -> Seq<PenaltyTerm> {
    match capacity {
        Some(c) => term_when(c > 0, PenaltyTerm::InverseOfCount(c)),
        None => Seq::empty(),
    }
}

/// What the semantics of an edge add to its penalty.
pub open spec fn semantics_terms(s: EdgeTrafficSemanticsView) -> Seq<PenaltyTerm> {
    bias_term(s.cost_bias) + inverse_term(s.speed_limit) + priority_term(
        s.priority,
        10,
    ) + capacity_term(s.capacity) + term_when(
        s.lane_type == Some("corridor"@),
        PenaltyTerm::Hundredths(75),
    ) + term_when(s.passing_allowed == Some(false), PenaltyTerm::Hundredths(50)) + term_when(
        s.directed && s.reversible != Some(true),
        PenaltyTerm::Hundredths(25),
    ) + term_when(s.no_stop == Some(true), PenaltyTerm::Hundredths(200)) + inverse_term(
        s.clearance_width,
    ) + inverse_term(s.clearance_height)
}

/// What a zone adds to the penalty on its edges.
pub open spec fn zone_terms(p: ZonePolicyView) -> Seq<PenaltyTerm> {
    term_when(
        p.requires_claim || p.blocks_entry_without_grant || p.blocks_traversal_without_grant,
        PenaltyTerm::Hundredths(10000),
    ) + priority_term(p.priority, 5) + term_when(
        p.waiting_allowed == Some(false),
        PenaltyTerm::Hundredths(150),
    ) + term_when(p.stop_allowed == Some(false), PenaltyTerm::Hundredths(200)) + term_when(
        p.kind == ZonePolicyKind::Corridor,
        PenaltyTerm::Hundredths(75),
    )
}

/// What a list of zones adds to the penalty on an edge.
pub open spec fn zones_terms(zones: Seq<ZonePolicyView>) -> Seq<PenaltyTerm>
    decreases zones.len(),
{
    if zones.len() == 0 {
        Seq::empty()
    } else {
        zones_terms(zones.drop_last()) + zone_terms(zones.last())
    }
}

/// The penalty on an edge.
pub open spec fn penalty_of<A: Fn(Real, Real) -> Real>(
    ws: &Workspace,
    plus: A,
    edge_id: Uuid,
) -> PenaltyView {
    match edge_at(ws, edge_id) {
        None => PenaltyView::Infinite,
        Some(e) => {
            let zones = edge_policies(ws, edge_id);
            PenaltyView::Sum(
                semantics_terms(effective_semantics(plus, e.properties@, false, zones))
                    + zones_terms(zones),
            )
        },
    }
}

fn push_term(out: &mut Vec<PenaltyTerm>, holds: bool, t: PenaltyTerm)
    ensures
        final(out)@ == old(out)@ + term_when(holds, t),
{
    if holds {
        out.push(t);
    }
    assert(out@ =~= old(out)@ + term_when(holds, t));
}

fn push_inverse(out: &mut Vec<PenaltyTerm>, n: &Option<Number>)
    ensures
        final(out)@ == old(out)@ + inverse_term(crate::properties::number_view(*n)),
{
    if let Some(v) = n {
        if Real::zero().less(v.value) {
            out.push(PenaltyTerm::InverseOf(v.value));
        }
    }
    assert(out@ =~= old(out)@ + inverse_term(crate::properties::number_view(*n)));
}

fn push_priority(out: &mut Vec<PenaltyTerm>, n: &Option<Number>, weight: u64)
    ensures
        final(out)@ == old(out)@ + priority_term(crate::properties::number_view(*n), weight),
{
    if let Some(v) = n {
        out.push(PenaltyTerm::PriorityGap(v.value, weight));
    }
    assert(out@ =~= old(out)@ + priority_term(crate::properties::number_view(*n), weight));
}

fn push_bias(out: &mut Vec<PenaltyTerm>, bias: Option<Real>)
    ensures
        final(out)@ == old(out)@ + bias_term(bias),
{
    if let Some(b) = bias {
        let amount = if Real::zero().less(b) {
            b
        } else {
            Real::zero()
        };
        out.push(PenaltyTerm::Bias(amount));
    }
    assert(out@ =~= old(out)@ + bias_term(bias));
}

fn push_capacity(out: &mut Vec<PenaltyTerm>, capacity: Option<u64>)
    ensures
        final(out)@ == old(out)@ + capacity_term(capacity),
{
    if let Some(c) = capacity {
        if c > 0 {
            out.push(PenaltyTerm::InverseOfCount(c));
        }
    }
    assert(out@ =~= old(out)@ + capacity_term(capacity));
}

fn list_semantics_terms(s: &EdgeTrafficSemantics) -> (out: Vec<PenaltyTerm>)
    ensures
        out@ == semantics_terms(s@),
{
    let corridor = match &s.lane_type {
        Some(l) => same_text(l.as_str(), "corridor"),
        None => false,
    };
    let mut out: Vec<PenaltyTerm> = Vec::new();
    push_bias(&mut out, s.cost_bias);
    assert(out@ =~= bias_term(s@.cost_bias));
    push_inverse(&mut out, &s.speed_limit);
    push_priority(&mut out, &s.priority, 10);
    push_capacity(&mut out, s.capacity);
    push_term(&mut out, corridor, PenaltyTerm::Hundredths(75));
    push_term(&mut out, s.passing_allowed == Some(false), PenaltyTerm::Hundredths(50));
    push_term(
        &mut out,
        s.directed && s.reversible != Some(true),
        PenaltyTerm::Hundredths(25),
    );
    push_term(&mut out, s.no_stop == Some(true), PenaltyTerm::Hundredths(200));
    push_inverse(&mut out, &s.clearance_width);
    push_inverse(&mut out, &s.clearance_height);
    out
}

fn append_zone_terms(out: &mut Vec<PenaltyTerm>, p: &ZonePolicy)
    ensures
        final(out)@ == old(out)@ + zone_terms(p@),
{
    push_term(
        out,
        p.requires_claim || p.blocks_entry_without_grant || p.blocks_traversal_without_grant,
        PenaltyTerm::Hundredths(10000),
    );
    push_priority(out, &p.priority, 5);
    push_term(out, p.waiting_allowed == Some(false), PenaltyTerm::Hundredths(150));
    push_term(out, p.stop_allowed == Some(false), PenaltyTerm::Hundredths(200));
    push_term(out, p.kind == ZonePolicyKind::Corridor, PenaltyTerm::Hundredths(75));
    proof {
        let a = term_when(
            p@.requires_claim || p@.blocks_entry_without_grant
                || p@.blocks_traversal_without_grant,
            PenaltyTerm::Hundredths(10000),
        );
        let b = priority_term(p@.priority, 5);
        let c = term_when(p@.waiting_allowed == Some(false), PenaltyTerm::Hundredths(150));
        let d = term_when(p@.stop_allowed == Some(false), PenaltyTerm::Hundredths(200));
        let e = term_when(p@.kind == ZonePolicyKind::Corridor, PenaltyTerm::Hundredths(75));
        lemma_five_in_a_row(old(out)@, a, b, c, d, e);
    }
}

proof fn lemma_five_in_a_row(
    out: Seq<PenaltyTerm>,
    a: Seq<PenaltyTerm>,
    b: Seq<PenaltyTerm>,
    c: Seq<PenaltyTerm>,
    d: Seq<PenaltyTerm>,
    e: Seq<PenaltyTerm>,
)
    ensures
        out + a + b + c + d + e == out + (a + b + c + d + e),
{
    assert(out + a + b + c + d + e =~= out + (a + b + c + d + e));
}

/// Lists the terms of the penalty on an edge. `plus` adds two quantities.
pub fn list_penalty<A: Fn(Real, Real) -> Real>(
    index: &WorkspaceIndex,
    edge_id: Uuid,
    plus: &A,
) -> (p: Penalty)
    requires
        is_operation(*plus),
    ensures
        p@ == penalty_of(&index@, *plus, edge_id),
{
    let edge = match index.edge(edge_id) {
        Some(e) => e,
        None => {
            return Penalty::Infinite;
        },
    };
    let policies = crate::claim::reasons::list_edge_policies(index, edge_id);
    let semantics = derive_effective_edge_semantics(&edge.properties, false, &policies, plus);
    let mut out = list_semantics_terms(&semantics);
    let ghost head = out@;
    let ghost zones = views(policies@);
    let mut i: usize = 0;
    assert(zones.take(0) =~= Seq::empty());
    assert(head + zones_terms(zones.take(0)) =~= head);
    while i < policies.len()
        invariant
            i <= policies.len(),
            zones == views(policies@),
            out@ == head + zones_terms(zones.take(i as int)),
        decreases policies.len() - i,
    {
        assert(zones.take(i as int + 1).drop_last() =~= zones.take(i as int));
        append_zone_terms(&mut out, &policies[i]);
        i = i + 1;
        assert(out@ =~= head + zones_terms(zones.take(i as int)));
    }
    assert(zones.take(i as int) =~= zones);
    Penalty::Sum(out)
}

// ---------------------------------------------------------------------------
// steps
// ---------------------------------------------------------------------------

/// The node that the edge at place `e` leads to from a node, if it may be taken
/// from there.
pub open spec fn step_over(ws: &Workspace, from: Uuid, e: int) -> Option<Uuid> {
    match looked_up(places(node_ids(ws)), from) {
        Some(v) if 0 <= e < ws.edges@.len() && edge_stands(ws, &ws.edges[e]) => {
            let edge = &ws.edges[e];
            if edge.source == v {
                if edge_allows(edge, true) {
                    Some(ws.nodes@[edge.target as int].id)
                } else {
                    None
                }
            } else if edge.target == v {
                if edge_allows(edge, false) {
                    Some(ws.nodes@[edge.source as int].id)
                } else {
                    None
                }
            } else {
                None
            }
        },
        _ => None,
    }
}

/// Whether the edge at place `e` is open to routes; only where blocks are to be
/// heeded can it be closed.
pub open spec fn open_to_routes(ws: &Workspace, blocking: bool, e: int) -> bool {
    blocking ==> !hard_blocked(ws, ws.edges@[e].id)
}

/// Whether a route may go from one node to another over the edge at place `e`.
#[verifier::opaque]
pub open spec fn may_step(ws: &Workspace, blocking: bool, from: Uuid, e: int, to: Uuid) -> bool {
    step_over(ws, from, e) == Some(to) && open_to_routes(ws, blocking, e)
}

/// The node that the edge at place `e` leads to from the node at place `v`.
pub fn find_step(index: &WorkspaceIndex, from: Uuid, e: usize) -> (to: Option<Uuid>)
    requires
        e < index@.edges@.len(),
    ensures
        to == step_over(&index@, from, e as int),
{
    let ws = index.workspace();
    let v = match index.vertex_id(from) {
        Some(v) => v,
        None => {
            return None;
        },
    };
    let edge = &ws.edges[e];
    if edge.source >= ws.nodes.len() || edge.target >= ws.nodes.len() {
        return None;
    }
    if edge.source == v {
        if allows_traversal_from_node(edge, true) {
            return Some(ws.nodes[edge.target].id);
        }
    } else if edge.target == v {
        if allows_traversal_from_node(edge, false) {
            return Some(ws.nodes[edge.source].id);
        }
    }
    None
}

} // verus!
