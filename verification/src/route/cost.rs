//! What routes cost.
//!
//! Costs are added up outside of this library: `plus` adds two quantities, and
//! `price` says what one term of a penalty comes to. An edge costs its weight,
//! and where penalties count, its penalty on top: the sum of its terms.

use super::graph::{list_penalty, penalty_of, Penalty, PenaltyTerm, PenaltyView};
use super::RouteCostModel;
use crate::guid::Uuid;
use crate::index::WorkspaceIndex;
use crate::number::{is_operation, result_of, Real, INFINITY_BITS};
use crate::workspace::Workspace;
use vstd::prelude::*;

verus! {

/// A cost so far, extended over the edge at a place.
pub type Costs = spec_fn(RouteCostModel, Real, usize) -> Real;

/// No cost.
pub open spec fn no_cost() -> Real {
    Real { bits: 0 }
}

/// Whether the price of a term of a penalty is a function of the term.
pub open spec fn is_pricing<P: Fn(PenaltyTerm) -> Real>(p: P) -> bool {
    &&& forall|t: PenaltyTerm| #[trigger] call_requires(p, (t,))
    &&& forall|t: PenaltyTerm, x: Real, y: Real| #[trigger]
        call_ensures(p, (t,), x) && #[trigger] call_ensures(p, (t,), y) ==> x == y
}

/// The price of a term of a penalty.
pub open spec fn price_of<P: Fn(PenaltyTerm) -> Real>(p: P, t: PenaltyTerm) -> Real {
    choose|r: Real| call_ensures(p, (t,), r)
}

/// What terms come to, added up in their order.
pub open spec fn priced<A: Fn(Real, Real) -> Real, P: Fn(PenaltyTerm) -> Real>(
    plus: A,
    price: P,
    terms: Seq<PenaltyTerm>,
) -> Real
    decreases terms.len(),
{
    if terms.len() == 0 {
        no_cost()
    } else {
        result_of(plus, priced(plus, price, terms.drop_last()), price_of(price, terms.last()))
    }
}

/// What the penalty on an edge comes to; without limit if there is no such edge.
pub open spec fn penalty_cost<A: Fn(Real, Real) -> Real, P: Fn(PenaltyTerm) -> Real>(
    ws: &Workspace,
    plus: A,
    price: P,
    edge_id: Uuid,
) -> Real {
    match penalty_of(ws, plus, edge_id) {
        PenaltyView::Infinite => Real { bits: INFINITY_BITS },
        PenaltyView::Sum(terms) => priced(plus, price, terms),
    }
}

/// A cost extended over the edge at a place: its weight is added, and then its
/// penalty where penalties count.
pub open spec fn cost_over<A: Fn(Real, Real) -> Real, P: Fn(PenaltyTerm) -> Real>(
    ws: &Workspace,
    plus: A,
    price: P,
    m: RouteCostModel,
    d: Real,
    e: usize,
) -> Real {
    let edge = ws.edges@[e as int];
    let reached = result_of(plus, d, edge.weight);
    match m {
        RouteCostModel::GraphWeight => reached,
        RouteCostModel::Penalized => result_of(
            plus,
            reached,
            penalty_cost(ws, plus, price, edge.id),
        ),
    }
}

/// What routes cost in a workspace.
#[verifier::opaque]
pub open spec fn route_costs<A: Fn(Real, Real) -> Real, P: Fn(PenaltyTerm) -> Real>(
    ws: &Workspace,
    plus: A,
    price: P,
) -> Costs {
    |m: RouteCostModel, d: Real, e: usize| cost_over(ws, plus, price, m, d, e)
}

/// In a workspace a cost is extended by the weight of an edge, and by its penalty
/// where penalties count.
pub proof fn lemma_route_costs<A: Fn(Real, Real) -> Real, P: Fn(PenaltyTerm) -> Real>(
    ws: &Workspace,
    plus: A,
    price: P,
    m: RouteCostModel,
    d: Real,
    e: usize,
)
    ensures
        extended(route_costs(ws, plus, price), m, d, e) == cost_over(ws, plus, price, m, d, e),
{
    reveal(extended);
    reveal(route_costs);
}

/// A cost extended over the edge at a place.
#[verifier::opaque]
pub open spec fn extended(f: Costs, m: RouteCostModel, d: Real, e: usize) -> Real {
    f(m, d, e)
}

/// Whether extending a cost never lowers it, and keeps the order of costs.
pub open spec fn well_behaved(f: Costs, m: RouteCostModel, n: nat) -> bool {
    &&& forall|d: Real, e: usize|
        e < n && no_cost().at_most(d) ==> d.at_most(#[trigger] extended(f, m, d, e))
    &&& forall|a: Real, b: Real, e: usize|
        e < n && no_cost().at_most(a) && a.at_most(b) ==> (#[trigger] extended(f, m, a, e)).at_most(
            #[trigger] extended(f, m, b, e),
        )
}

/// Whether costs can be worked out with an addition and prices.
#[verifier::opaque]
pub open spec fn are_functions<A: Fn(Real, Real) -> Real, P: Fn(PenaltyTerm) -> Real>(
    plus: A,
    price: P,
) -> bool {
    is_operation(plus) && is_pricing(price)
}

/// What it costs to take an edge on top of its weight.
pub fn edge_traversal_penalty<A: Fn(Real, Real) -> Real, P: Fn(PenaltyTerm) -> Real>(
    index: &WorkspaceIndex,
    edge_id: Uuid,
    plus: &A,
    price: &P,
) -> (penalty: Real)
    requires
        is_operation(*plus),
        is_pricing(*price),
    ensures
        penalty == penalty_cost(&index@, *plus, *price, edge_id),
{
    let terms: Vec<PenaltyTerm> = match list_penalty(index, edge_id, plus) {
        Penalty::Infinite => {
            return Real::infinity();
        },
        Penalty::Sum(terms) => terms,
    };
    let mut penalty = Real::zero();
    let mut i: usize = 0;
    assert(terms@.take(0) =~= Seq::empty());
    while i < terms.len()
        invariant
            i <= terms.len(),
            is_operation(*plus),
            is_pricing(*price),
            penalty == priced(*plus, *price, terms@.take(i as int)),
        decreases terms.len() - i,
    {
        assert(terms@.take(i as int + 1).drop_last() =~= terms@.take(i as int));
        let value: Real = price(terms[i]);
        assert(value == price_of(*price, terms@[i as int]));
        let sum: Real = plus(penalty, value);
        assert(sum == result_of(*plus, penalty, value));
        penalty = sum;
        i = i + 1;
    }
    assert(terms@.take(i as int) =~= terms@);
    penalty
}

/// Extends a cost over the edge at a place.
pub fn extend_cost<A: Fn(Real, Real) -> Real, P: Fn(PenaltyTerm) -> Real>(
    index: &WorkspaceIndex,
    model: RouteCostModel,
    cost: Real,
    e: usize,
    plus: &A,
    price: &P,
) -> (r: Real)
    requires
        e < index@.edges@.len(),
        are_functions(*plus, *price),
    ensures
        r == extended(route_costs(&index@, *plus, *price), model, cost, e),
{
    reveal(extended);
    reveal(are_functions);
    reveal(route_costs);
    let edge = &index.workspace().edges[e];
    let reached: Real = plus(cost, edge.weight);
    assert(reached == result_of(*plus, cost, edge.weight));
    match model {
        RouteCostModel::GraphWeight => reached,
        RouteCostModel::Penalized => {
            let penalty = edge_traversal_penalty(index, edge.id, plus, price);
            let total: Real = plus(reached, penalty);
            assert(total == result_of(*plus, reached, penalty));
            total
        },
    }
}

// ---------------------------------------------------------------------------
// when costs are well behaved
// ---------------------------------------------------------------------------

/// Whether adding what is not negative never lowers a cost, and keeps the order
/// of costs.
pub open spec fn adds_up<A: Fn(Real, Real) -> Real>(plus: A) -> bool {
    &&& forall|x: Real, w: Real|
        no_cost().at_most(x) && no_cost().at_most(w) ==> x.at_most(
            #[trigger] result_of(plus, x, w),
        )
    &&& forall|x: Real, y: Real, w: Real|
        no_cost().at_most(x) && x.at_most(y) && no_cost().at_most(w) ==> (
        #[trigger] result_of(plus, x, w)).at_most(#[trigger] result_of(plus, y, w))
}

/// Whether no term of a penalty in a workspace has a negative price.
pub open spec fn prices_are_not_negative<A: Fn(Real, Real) -> Real, P: Fn(PenaltyTerm) -> Real>(
    ws: &Workspace,
    plus: A,
    price: P,
) -> bool {
    forall|edge_id: Uuid|
        #![trigger penalty_of(ws, plus, edge_id)]
        match penalty_of(ws, plus, edge_id) {
            PenaltyView::Infinite => true,
            PenaltyView::Sum(terms) => terms_are_not_negative(price, terms),
        }
}

/// Whether no term of a list has a negative price.
pub open spec fn terms_are_not_negative<P: Fn(PenaltyTerm) -> Real>(
    price: P,
    terms: Seq<PenaltyTerm>,
) -> bool {
    forall|i: int| 0 <= i < terms.len() ==> no_cost().at_most(price_of(price, #[trigger] terms[i]))
}

proof fn lemma_priced_is_not_negative<A: Fn(Real, Real) -> Real, P: Fn(PenaltyTerm) -> Real>(
    plus: A,
    price: P,
    terms: Seq<PenaltyTerm>,
)
    requires
        adds_up(plus),
        terms_are_not_negative(price, terms),
    ensures
        no_cost().at_most(priced(plus, price, terms)),
    decreases terms.len(),
{
    if terms.len() > 0 {
        let rest = terms.drop_last();
        assert forall|i: int| 0 <= i < rest.len() implies no_cost().at_most(
            price_of(price, #[trigger] rest[i]),
        ) by {
            assert(rest[i] == terms[i]);
        }
        lemma_priced_is_not_negative(plus, price, rest);
        let before = priced(plus, price, rest);
        assert(no_cost().at_most(price_of(price, terms[terms.len() - 1])));
        assert(before.at_most(result_of(plus, before, price_of(price, terms.last()))));
    }
}

/// Costs are well behaved where no weight is negative and adding up is; where
/// penalties count, no price may be negative either.
pub proof fn lemma_costs_are_well_behaved<A: Fn(Real, Real) -> Real, P: Fn(PenaltyTerm) -> Real>(
    ws: &Workspace,
    plus: A,
    price: P,
    m: RouteCostModel,
)
    requires
        adds_up(plus),
        forall|i: int|
            0 <= i < ws.edges@.len() ==> no_cost().at_most((#[trigger] ws.edges@[i]).weight),
        m == RouteCostModel::Penalized ==> prices_are_not_negative(ws, plus, price),
    ensures
        well_behaved(route_costs(ws, plus, price), m, ws.edges@.len()),
{
    let f = route_costs(ws, plus, price);
    let n = ws.edges@.len();
    assert forall|e: usize| e < n implies no_cost().at_most(
        penalty_cost(ws, plus, price, (#[trigger] ws.edges@[e as int]).id),
    ) || m == RouteCostModel::GraphWeight by {
        if m == RouteCostModel::Penalized {
            let id = ws.edges@[e as int].id;
            match penalty_of(ws, plus, id) {
                PenaltyView::Infinite => {},
                PenaltyView::Sum(terms) => lemma_priced_is_not_negative(plus, price, terms),
            }
        }
    }
    assert forall|d: Real, e: usize| e < n && no_cost().at_most(d) implies d.at_most(
        #[trigger] extended(f, m, d, e),
    ) by {
        lemma_route_costs(ws, plus, price, m, d, e);
        let edge = ws.edges@[e as int];
        let reached = result_of(plus, d, edge.weight);
        assert(d.at_most(reached));
        if m == RouteCostModel::Penalized {
            let penalty = penalty_cost(ws, plus, price, edge.id);
            assert(reached.at_most(result_of(plus, reached, penalty)));
        }
    }
    assert forall|a: Real, b: Real, e: usize|
        e < n && no_cost().at_most(a) && a.at_most(b) implies (
    #[trigger] extended(f, m, a, e)).at_most(#[trigger] extended(f, m, b, e)) by {
        lemma_route_costs(ws, plus, price, m, a, e);
        lemma_route_costs(ws, plus, price, m, b, e);
        let edge = ws.edges@[e as int];
        let (x, y) = (result_of(plus, a, edge.weight), result_of(plus, b, edge.weight));
        assert(a.at_most(x));
        assert(x.at_most(y));
        if m == RouteCostModel::Penalized {
            let penalty = penalty_cost(ws, plus, price, edge.id);
            assert(result_of(plus, x, penalty).at_most(result_of(plus, y, penalty)));
        }
    }
}

} // verus!
