//! Why a claim is denied: the targets in conflict, and texts about them.

use super::conflicts::{indexed, lies_inside};
use super::{ClaimRequest, ClaimRequestView, ClaimTarget, ClaimTargetKind};
use crate::guid::{uuid_text, uuid_to_text, Uuid};
use crate::index::tables::{edge_at, policy_at};
use crate::index::{edge_policies, WorkspaceIndex};
use crate::policy::merge::{restrict_edge_semantics, restricted_semantics};
use crate::policy::{
    EdgeTrafficSemantics, EdgeTrafficSemanticsView, ZonePolicy, ZonePolicyKind, ZonePolicyView,
};
use crate::text::{joined, joined3, same_text};
use crate::views::{lemma_views_push, views};
use crate::workspace::Workspace;
use vstd::prelude::*;

verus! {

// ---------------------------------------------------------------------------
// targets in conflict
// ---------------------------------------------------------------------------

/// A target, once for each time that it occurs in a list.
pub open spec fn occurrences(t: ClaimTarget, others: Seq<ClaimTarget>) -> Seq<ClaimTarget>
    decreases others.len(),
{
    if others.len() == 0 {
        Seq::empty()
    } else {
        let before = occurrences(t, others.drop_last());
        if others.last() == t {
            before.push(t)
        } else {
            before
        }
    }
}

/// The targets of one list that occur in another one.
pub open spec fn common_targets(
    targets: Seq<ClaimTarget>,
    others: Seq<ClaimTarget>,
) -> Seq<ClaimTarget>
    decreases targets.len(),
{
    if targets.len() == 0 {
        Seq::empty()
    } else {
        common_targets(targets.drop_last(), others) + occurrences(targets.last(), others)
    }
}

/// The targets of one claim that are in another one.
pub fn conflicting_targets(l: &ClaimRequest, r: &ClaimRequest) -> (out: Vec<ClaimTarget>)
    ensures
        out@ == common_targets(l@.targets, r@.targets),
{
    let mut out: Vec<ClaimTarget> = Vec::new();
    let ghost a = l.targets@;
    let ghost b = r.targets@;
    let mut i: usize = 0;
    assert(a.take(0) =~= Seq::empty());
    while i < l.targets.len()
        invariant
            i <= l.targets.len(),
            a == l.targets@,
            b == r.targets@,
            out@ == common_targets(a.take(i as int), b),
        decreases l.targets.len() - i,
    {
        let ghost before = out@;
        let t = l.targets[i];
        let mut j: usize = 0;
        assert(b.take(0) =~= Seq::empty());
        assert(before + occurrences(t, b.take(0)) =~= before);
        while j < r.targets.len()
            invariant
                j <= r.targets.len(),
                b == r.targets@,
                out@ == before + occurrences(t, b.take(j as int)),
            decreases r.targets.len() - j,
        {
            assert(b.take(j as int + 1).drop_last() =~= b.take(j as int));
            if r.targets[j] == t {
                out.push(t);
            }
            j = j + 1;
            assert(out@ =~= before + occurrences(t, b.take(j as int)));
        }
        assert(b.take(j as int) =~= b);
        assert(a.take(i as int + 1).drop_last() =~= a.take(i as int));
        i = i + 1;
    }
    assert(a.take(i as int) =~= a);
    out
}

/// Whether one target is a zone and the other one a node or an edge inside it.
pub open spec fn cross_level(ws: &Workspace, a: ClaimTarget, b: ClaimTarget) -> bool {
    match (a.kind, b.kind) {
        (ClaimTargetKind::Zone, ClaimTargetKind::Zone) => false,
        (ClaimTargetKind::Zone, _) => lies_inside(ws, b, a.resource_id),
        (_, ClaimTargetKind::Zone) => lies_inside(ws, a, b.resource_id),
        _ => false,
    }
}

/// Whether one target is a zone and the other one a node or an edge inside it.
pub fn targets_conflict_cross_level(index: &WorkspaceIndex, a: ClaimTarget, b: ClaimTarget) -> (r:
    bool)
    ensures
        r == cross_level(&index@, a, b),
{
    match (a.kind, b.kind) {
        (ClaimTargetKind::Zone, ClaimTargetKind::Zone) => false,
        (ClaimTargetKind::Zone, _) => super::conflicts::is_inside(index, b, a.resource_id),
        (_, ClaimTargetKind::Zone) => super::conflicts::is_inside(index, a, b.resource_id),
        _ => false,
    }
}

/// Whether a target conflicts across levels with any of a list.
pub open spec fn cross_level_any(
    ws: &Workspace,
    t: ClaimTarget,
    others: Seq<ClaimTarget>,
) -> bool {
    exists|j: int| 0 <= j < others.len() && cross_level(ws, t, #[trigger] others[j])
}

/// A list of targets with those added to it that conflict across levels and are
/// not yet in it.
pub open spec fn with_cross_level(
    ws: &Workspace,
    out: Seq<ClaimTarget>,
    targets: Seq<ClaimTarget>,
    others: Seq<ClaimTarget>,
) -> Seq<ClaimTarget>
    decreases targets.len(),
{
    if targets.len() == 0 {
        out
    } else {
        let before = with_cross_level(ws, out, targets.drop_last(), others);
        let t = targets.last();
        if !before.contains(t) && cross_level_any(ws, t, others) {
            before.push(t)
        } else {
            before
        }
    }
}

/// The targets of a request that are in conflict with another claim.
pub open spec fn conflicts_with(
    ws: Option<Workspace>,
    request: ClaimRequestView,
    other: ClaimRequestView,
) -> Seq<ClaimTarget> {
    let same = common_targets(request.targets, other.targets);
    match ws {
        Some(w) => with_cross_level(&w, same, request.targets, other.targets),
        None => same,
    }
}

fn contains_target(list: &Vec<ClaimTarget>, t: ClaimTarget) -> (b: bool)
    ensures
        b == list@.contains(t),
{
    let mut i: usize = 0;
    while i < list.len()
        invariant
            i <= list.len(),
            forall|j: int| 0 <= j < i ==> list@[j] != t,
        decreases list.len() - i,
    {
        if list[i] == t {
            assert(list@[i as int] == t);
            return true;
        }
        i = i + 1;
    }
    false
}

fn is_cross_level_any(index: &WorkspaceIndex, t: ClaimTarget, others: &Vec<ClaimTarget>) -> (b:
    bool)
    ensures
        b == cross_level_any(&index@, t, others@),
{
    let mut j: usize = 0;
    while j < others.len()
        invariant
            j <= others.len(),
            forall|k: int| 0 <= k < j ==> !cross_level(&index@, t, #[trigger] others@[k]),
        decreases others.len() - j,
    {
        if targets_conflict_cross_level(index, t, others[j]) {
            assert(cross_level(&index@, t, others@[j as int]));
            return true;
        }
        j = j + 1;
    }
    false
}

/// The targets of a request that are in conflict with another claim: those that
/// are in both, and those that conflict across levels.
pub fn conflicts_including_cross_level(
    index: Option<&WorkspaceIndex>,
    request: &ClaimRequest,
    other: &ClaimRequest,
) -> (out: Vec<ClaimTarget>)
    ensures
        out@ == conflicts_with(indexed(index), request@, other@),
{
    let mut out = conflicting_targets(request, other);
    if let Some(w) = index {
        let ghost same = out@;
        let ghost targets = request.targets@;
        let mut i: usize = 0;
        assert(targets.take(0) =~= Seq::empty());
        while i < request.targets.len()
            invariant
                i <= request.targets.len(),
                targets == request.targets@,
                out@ == with_cross_level(&w@, same, targets.take(i as int), other.targets@),
            decreases request.targets.len() - i,
        {
            assert(targets.take(i as int + 1).drop_last() =~= targets.take(i as int));
            let t = request.targets[i];
            if !contains_target(&out, t) && is_cross_level_any(w, t, &other.targets) {
                out.push(t);
            }
            i = i + 1;
        }
        assert(targets.take(i as int) =~= targets);
    }
    out
}

// ---------------------------------------------------------------------------
// texts
// ---------------------------------------------------------------------------

/// The word for a kind of target.
pub open spec fn kind_word(kind: ClaimTargetKind) -> Seq<char> {
    match kind {
        ClaimTargetKind::Zone => "zone"@,
        ClaimTargetKind::Node => "node"@,
        ClaimTargetKind::Edge => "edge"@,
    }
}

/// The word for a kind of target.
pub fn target_kind_name(kind: ClaimTargetKind) -> (s: &'static str)
    ensures
        s@ == kind_word(kind),
{
    match kind {
        ClaimTargetKind::Zone => "zone",
        ClaimTargetKind::Node => "node",
        ClaimTargetKind::Edge => "edge",
    }
}

/// Why a request is denied that is in conflict.
pub open spec fn conflict_reason(source: Seq<char>, conflicts: Seq<ClaimTarget>) -> Seq<char> {
    if conflicts.len() == 0 {
        "conflicts with "@ + source
    } else {
        "conflicts with "@ + source + " on "@ + kind_word(conflicts[0].kind) + " target"@
    }
}

/// Why a request is denied that is in conflict.
pub fn describe_conflict_reason(source: &str, conflicts: &Vec<ClaimTarget>) -> (s: String)
    ensures
        s@ == conflict_reason(source@, conflicts@),
{
    if conflicts.len() == 0 {
        return joined("conflicts with ", source);
    }
    let mut s = joined3("conflicts with ", source, " on ");
    s.append(target_kind_name(conflicts[0].kind));
    s.append(" target");
    s
}

/// A text, if a condition holds.
pub open spec fn text_when(holds: bool, text: Seq<char>) -> Seq<Seq<char>> {
    if holds {
        seq![text]
    } else {
        Seq::empty()
    }
}

/// A text behind a label, if there is one.
pub open spec fn labelled(label: Seq<char>, text: Option<Seq<char>>) -> Seq<Seq<char>> {
    match text {
        Some(t) => seq![label + t],
        None => Seq::empty(),
    }
}

fn push_when(out: &mut Vec<String>, holds: bool, text: &str)
    ensures
        views(final(out)@) == views(old(out)@) + text_when(holds, text@),
{
    if holds {
        let s = text.to_owned();
        proof {
            lemma_views_push(out@, s);
        }
        out.push(s);
    }
    assert(views(out@) =~= views(old(out)@) + text_when(holds, text@));
}

fn push_text(out: &mut Vec<String>, text: &str)
    ensures
        views(final(out)@) == views(old(out)@).push(text@),
{
    let s = text.to_owned();
    proof {
        lemma_views_push(out@, s);
    }
    out.push(s);
}

fn push_labelled(out: &mut Vec<String>, label: &str, text: Option<&str>)
    ensures
        views(final(out)@) == views(old(out)@) + labelled(
            label@,
            match text {
                Some(t) => Some(t@),
                None => None,
            },
        ),
{
    let ghost shown = match text {
        Some(t) => Some(t@),
        None => None,
    };
    if let Some(t) = text {
        let s = joined(label, t);
        proof {
            lemma_views_push(out@, s);
        }
        out.push(s);
    }
    assert(views(out@) =~= views(old(out)@) + labelled(label@, shown));
}

/// What is told of a zone that stands in the way.
pub open spec fn zone_diagnostics(p: ZonePolicyView) -> Seq<Seq<char>> {
    text_when(
        p.blocks_entry_without_grant || p.blocks_traversal_without_grant || p.blocked == Some(true),
        "zone blocks traversal without a grant"@,
    ) + text_when(p.kind == ZonePolicyKind::Corridor, "zone is treated as a corridor"@) + text_when(
        p.waiting_allowed == Some(false),
        "zone does not allow waiting"@,
    ) + text_when(p.stop_allowed == Some(false), "zone does not allow stopping"@) + labelled(
        "zone schedule window="@,
        p.schedule_window,
    ) + labelled(
        "zone speed limit="@,
        match p.speed_limit {
            Some(n) => Some(n.text),
            None => None,
        },
    )
}

/// What is told of an edge that stands in the way.
pub open spec fn edge_diagnostics(s: EdgeTrafficSemanticsView) -> Seq<Seq<char>> {
    text_when(s.blocked == Some(true), "edge is blocked by traffic policy"@) + text_when(
        s.lane_type == Some("corridor"@),
        "edge is treated as a corridor"@,
    ) + text_when(s.waiting_allowed == Some(false), "edge does not allow waiting"@) + text_when(
        s.stop_allowed == Some(false),
        "edge does not allow stopping"@,
    ) + labelled("edge schedule window="@, s.schedule_window) + labelled(
        "edge speed limit="@,
        match s.speed_limit {
            Some(n) => Some(n.text),
            None => None,
        },
    )
}

/// What is told of a target that stands in the way.
pub open spec fn target_diagnostics(ws: Option<Workspace>, t: ClaimTarget) -> Seq<Seq<char>> {
    match ws {
        None => Seq::empty(),
        Some(w) => match t.kind {
            ClaimTargetKind::Zone => match policy_at(&w, t.resource_id) {
                Some(p) => zone_diagnostics(p),
                None => Seq::empty(),
            },
            ClaimTargetKind::Node => Seq::empty(),
            ClaimTargetKind::Edge => match edge_at(&w, t.resource_id) {
                Some(e) => edge_diagnostics(
                    restricted_semantics(e.properties@, false, edge_policies(&w, t.resource_id)),
                ),
                None => Seq::empty(),
            },
        },
    }
}

/// Lists one behind another are the same however they are grouped.
proof fn lemma_six_in_a_row(
    out: Seq<Seq<char>>,
    a: Seq<Seq<char>>,
    b: Seq<Seq<char>>,
    c: Seq<Seq<char>>,
    d: Seq<Seq<char>>,
    e: Seq<Seq<char>>,
    f: Seq<Seq<char>>,
)
    ensures
        out + a + b + c + d + e + f == out + (a + b + c + d + e + f),
{
    assert(out + a + b + c + d + e + f =~= out + (a + b + c + d + e + f));
}

fn append_zone_diagnostics(out: &mut Vec<String>, p: &ZonePolicy)
    ensures
        views(final(out)@) == views(old(out)@) + zone_diagnostics(p@),
{
    push_when(
        out,
        p.blocks_entry_without_grant || p.blocks_traversal_without_grant || p.blocked == Some(true),
        "zone blocks traversal without a grant",
    );
    push_when(out, p.kind == ZonePolicyKind::Corridor, "zone is treated as a corridor");
    push_when(out, p.waiting_allowed == Some(false), "zone does not allow waiting");
    push_when(out, p.stop_allowed == Some(false), "zone does not allow stopping");
    push_labelled(
        out,
        "zone schedule window=",
        match &p.schedule_window {
            Some(w) => Some(w.as_str()),
            None => None,
        },
    );
    push_labelled(
        out,
        "zone speed limit=",
        match &p.speed_limit {
            Some(n) => Some(n.text.as_str()),
            None => None,
        },
    );
    proof {
        lemma_six_in_a_row(
            views(old(out)@),
            text_when(p@.blocks_entry_without_grant || p@.blocks_traversal_without_grant || p@.blocked
                == Some(true), "zone blocks traversal without a grant"@),
            text_when(p@.kind == ZonePolicyKind::Corridor, "zone is treated as a corridor"@),
            text_when(p@.waiting_allowed == Some(false), "zone does not allow waiting"@),
            text_when(p@.stop_allowed == Some(false), "zone does not allow stopping"@),
            labelled("zone schedule window="@, p@.schedule_window),
            labelled(
                "zone speed limit="@,
                match p@.speed_limit {
                    Some(n) => Some(n.text),
                    None => None,
                },
            ),
        );
    }
}

fn append_edge_diagnostics(out: &mut Vec<String>, s: &EdgeTrafficSemantics)
    ensures
        views(final(out)@) == views(old(out)@) + edge_diagnostics(s@),
{
    push_when(out, s.blocked == Some(true), "edge is blocked by traffic policy");
    push_when(
        out,
        match &s.lane_type {
            Some(l) => same_text(l.as_str(), "corridor"),
            None => false,
        },
        "edge is treated as a corridor",
    );
    push_when(out, s.waiting_allowed == Some(false), "edge does not allow waiting");
    push_when(out, s.stop_allowed == Some(false), "edge does not allow stopping");
    push_labelled(
        out,
        "edge schedule window=",
        match &s.schedule_window {
            Some(w) => Some(w.as_str()),
            None => None,
        },
    );
    push_labelled(
        out,
        "edge speed limit=",
        match &s.speed_limit {
            Some(n) => Some(n.text.as_str()),
            None => None,
        },
    );
    proof {
        lemma_six_in_a_row(
            views(old(out)@),
            text_when(s@.blocked == Some(true), "edge is blocked by traffic policy"@),
            text_when(s@.lane_type == Some("corridor"@), "edge is treated as a corridor"@),
            text_when(s@.waiting_allowed == Some(false), "edge does not allow waiting"@),
            text_when(s@.stop_allowed == Some(false), "edge does not allow stopping"@),
            labelled("edge schedule window="@, s@.schedule_window),
            labelled(
                "edge speed limit="@,
                match s@.speed_limit {
                    Some(n) => Some(n.text),
                    None => None,
                },
            ),
        );
    }
}

/// The policies of the zones that an edge is a member of.
pub fn list_edge_policies(index: &WorkspaceIndex, edge_id: Uuid) -> (policies: Vec<ZonePolicy>)
    ensures
        views(policies@) == edge_policies(&index@, edge_id),
{
    let found = index.edge_zone_policies(edge_id);
    let mut policies: Vec<ZonePolicy> = Vec::new();
    let mut i: usize = 0;
    assert(views(policies@) =~= views(found@).take(0));
    while i < found.len()
        invariant
            i <= found.len(),
            views(policies@) == views(found@).take(i as int),
        decreases found.len() - i,
    {
        let p = found[i].clone();
        proof {
            lemma_views_push(policies@, p);
        }
        policies.push(p);
        i = i + 1;
        assert(views(policies@) =~= views(found@).take(i as int));
    }
    assert(views(policies@) =~= views(found@));
    policies
}

/// Tells of a target that stands in the way.
pub fn append_target_diagnostics(
    index: Option<&WorkspaceIndex>,
    out: &mut Vec<String>,
    t: ClaimTarget,
)
    ensures
        views(final(out)@) == views(old(out)@) + target_diagnostics(indexed(index), t),
{
    let ghost before = views(out@);
    if let Some(w) = index {
        match t.kind {
            ClaimTargetKind::Zone => {
                if let Some(p) = w.zone_policy(t.resource_id) {
                    append_zone_diagnostics(out, p);
                }
            },
            ClaimTargetKind::Node => {},
            ClaimTargetKind::Edge => {
                if let Some(edge) = w.edge(t.resource_id) {
                    let policies = list_edge_policies(w, t.resource_id);
                    let semantics = restrict_edge_semantics(
                        &edge.properties,
                        false,
                        &policies,
                    );
                    append_edge_diagnostics(out, &semantics);
                }
            },
        }
    }
    assert(views(out@) =~= before + target_diagnostics(indexed(index), t));
}

/// What is told of a conflict.
pub open spec fn conflict_diagnostics(
    ws: Option<Workspace>,
    source: Seq<char>,
    conflicts: Seq<ClaimTarget>,
) -> Seq<Seq<char>> {
    let head = seq!["collision detected with "@ + source];
    if conflicts.len() == 0 {
        head
    } else {
        let first = conflicts[0];
        head.push("blocking "@ + kind_word(first.kind) + " id="@ + uuid_text(first.resource_id))
            + target_diagnostics(ws, first)
    }
}

/// Tells of a conflict.
pub fn build_conflict_diagnostics(
    index: Option<&WorkspaceIndex>,
    source: &str,
    conflicts: &Vec<ClaimTarget>,
) -> (out: Vec<String>)
    ensures
        views(out@) == conflict_diagnostics(indexed(index), source@, conflicts@),
{
    let mut out: Vec<String> = Vec::new();
    assert(views(out@) =~= Seq::empty());
    push_text(&mut out, joined("collision detected with ", source).as_str());
    assert(views(out@) =~= seq!["collision detected with "@ + source@]);
    if conflicts.len() > 0 {
        let first = conflicts[0];
        let mut s = joined3("blocking ", target_kind_name(first.kind), " id=");
        s.append(uuid_to_text(first.resource_id).as_str());
        push_text(&mut out, s.as_str());
        append_target_diagnostics(index, &mut out, first);
    }
    out
}

} // verus!
