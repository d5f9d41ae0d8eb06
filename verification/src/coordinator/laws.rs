//! What holds of the coordinator as a whole.

use super::fleet::{
    claims_without, has_claims, is_registered, lemma_robot_place, minted_for, names_newcomer,
    patience, posed, progressed, registered, robot_named, robot_place, silence, swept,
    unregistered, with_robot, AliveInfo, CoordinatorView,
};
use super::horizon::{horizon_targets, progress, route_targets, shed, targets_on, zones_ahead};
use crate::claim::laws::{lemma_ending_conserves_leases, lemma_requests_of_others};
use crate::claim::manager::{
    archived, ended, is_ended, leases_ended, leases_kept, lemma_lease_place, requests_of_others, ClaimManagerView,
    Ending,
};
use crate::claim::{ClaimRequestView, ClaimTargetKind, LeaseDisposition, LeaseView};
use crate::guid::{uuid_denoted, Uuid};
use crate::ids::{LeaseId, RobotId};
use crate::index::tables::looked_up;
use crate::key::KeyView;
use crate::robot::{RobotHeading, RobotPosition, RobotProgressState, RobotStateView};
use crate::route::assemble::shape_error;
use crate::route::RoutePlanView;
use crate::text::{
    decimal_text, integer_of, lemma_case_keeps_integers, lemma_case_survives_trimming,
    lemma_integer_of_decimal_text, lowered, trimmed,
};
use vstd::prelude::*;

verus! {

// ---------------------------------------------------------------------------
// registration
// ---------------------------------------------------------------------------

/// A robot that registers is registered, with its key and no other, and nothing
/// changes for other robots.
pub proof fn lemma_registration_takes(
    c: CoordinatorView,
    id: RobotId,
    key: KeyView,
    other: RobotId,
)
    requires
        !is_registered(c, id),
        other != id,
    ensures
        is_registered(registered(c, id, key), id),
        looked_up(registered(c, id, key).keys, id.0) == Some(key),
        looked_up(registered(c, id, key).keys, other.0) == looked_up(c.keys, other.0),
        is_registered(registered(c, id, key), other) == is_registered(c, other),
{
    let after = registered(c, id, key);
    lemma_robot_place(c.robots, other, 0);
    lemma_robot_place(after.robots, other, 0);
    if let Some(i) = robot_place(c.robots, other, 0) {
        assert(after.robots[i] == c.robots[i]);
    }
    if let Some(i) = robot_place(after.robots, other, 0) {
        if i < c.robots.len() {
            assert(c.robots[i] == after.robots[i]);
        }
    }
}

/// An identifier that is minted for a newcomer does not bind it: until the robot
/// registers, its universally unique identifier denotes no robot.
pub proof fn lemma_minting_is_tentative(c: CoordinatorView, raw: Seq<char>, any: Seq<char>)
    requires
        names_newcomer(c, raw),
    ensures
        robot_named(c, raw) is None,
        robot_named(minted_for(c, uuid_denoted(trimmed(raw)).unwrap()), any) == robot_named(c, any),
{
}

/// A newcomer that registers under the identifier minted for it is denoted by its
/// universally unique one from then on.
pub proof fn lemma_registration_binds(c: CoordinatorView, raw: Seq<char>, key: KeyView)
    requires
        names_newcomer(c, raw),
    ensures
        robot_named(
            registered(
                minted_for(c, uuid_denoted(trimmed(raw)).unwrap()),
                RobotId(c.next_synthetic),
                key,
            ),
            raw,
        ) == Some(RobotId(c.next_synthetic)),
{
}

/// A registration that fails binds nothing: the universally unique identifier of
/// a newcomer still denotes no robot.
pub proof fn lemma_failed_registration_binds_nothing(c: CoordinatorView, raw: Seq<char>)
    requires
        names_newcomer(c, raw),
    ensures
        ({
            let minted = minted_for(c, uuid_denoted(trimmed(raw)).unwrap());
            let refused = CoordinatorView {
                pending: minted.pending.remove(c.next_synthetic),
                ..minted
            };
            robot_named(refused, raw) is None
        }),
{
}

/// Texts that differ only in the case of their letters denote the same robot.
pub proof fn lemma_letter_case_is_free(c: CoordinatorView, a: Seq<char>, b: Seq<char>)
    requires
        lowered(a) == lowered(b),
    ensures
        robot_named(c, a) == robot_named(c, b),
        names_newcomer(c, a) == names_newcomer(c, b),
{
    lemma_case_survives_trimming(a, b);
    lemma_case_keeps_integers(trimmed(a), trimmed(b));
}

/// Text of an unsigned integer denotes the robot of that number, registered or
/// not, and text that is neither an integer nor a universally unique identifier
/// denotes none.
pub proof fn lemma_integers_stand_for_themselves(c: CoordinatorView, n: u64, raw: Seq<char>)
    ensures
        robot_named(c, decimal_text(n as nat)) == Some(RobotId(n)),
        integer_of(trimmed(raw)) is None && uuid_denoted(trimmed(raw)) is None ==> robot_named(
            c,
            raw,
        ) is None,
{
    lemma_integer_of_decimal_text(n);
}

/// Identifiers are minted in ascending order until the greatest number is
/// reached.
pub proof fn lemma_synthetic_ids_ascend(c: CoordinatorView, u: Uuid)
    requires
        c.next_synthetic < u64::MAX,
    ensures
        minted_for(c, u).next_synthetic > c.next_synthetic,
{
}

/// Whether no identifier occurs twice among the robots.
pub open spec fn unique_robots(robots: Seq<RobotStateView>) -> bool {
    forall|i: int, j: int|
        0 <= i < j < robots.len() ==> (#[trigger] robots[i]).robot_id != (
        #[trigger] robots[j]).robot_id
}

/// Registering a robot never makes an identifier occur twice.
pub proof fn lemma_registration_keeps_robots_unique(c: CoordinatorView, id: RobotId, key: KeyView)
    requires
        unique_robots(c.robots),
        !is_registered(c, id),
    ensures
        unique_robots(registered(c, id, key).robots),
{
    lemma_robot_place(c.robots, id, 0);
    let after = registered(c, id, key).robots;
    assert forall|i: int, j: int| 0 <= i < j < after.len() implies (#[trigger] after[i]).robot_id
        != (#[trigger] after[j]).robot_id by {
        assert(after[i] == c.robots[i]);
        if j < c.robots.len() {
            assert(c.robots[i].robot_id != c.robots[j].robot_id);
        }
    }
}

/// Taking a robot in, changing one, and letting one go never make an identifier
/// occur twice.
pub proof fn lemma_changes_keep_robots_unique(c: CoordinatorView, s: RobotStateView, k: int)
    requires
        unique_robots(c.robots),
    ensures
        robot_place(c.robots, s.robot_id, 0) is None ==> unique_robots(c.robots.push(s)),
        robot_place(c.robots, s.robot_id, 0) matches Some(i) ==> unique_robots(
            with_robot(c, i, s).robots,
        ),
        0 <= k < c.robots.len() ==> unique_robots(unregistered(c, k).robots),
{
    lemma_robot_place(c.robots, s.robot_id, 0);
    match robot_place(c.robots, s.robot_id, 0) {
        None => {
            let after = c.robots.push(s);
            assert forall|i: int, j: int| 0 <= i < j < after.len() implies (
            #[trigger] after[i]).robot_id != (#[trigger] after[j]).robot_id by {
                assert(after[i] == c.robots[i]);
                if j < c.robots.len() {
                    assert(c.robots[i].robot_id != c.robots[j].robot_id);
                }
            }
        },
        Some(slot) => {
            let after = with_robot(c, slot, s).robots;
            assert forall|i: int, j: int| 0 <= i < j < after.len() implies (
            #[trigger] after[i]).robot_id != (#[trigger] after[j]).robot_id by {
                assert(c.robots[i].robot_id != c.robots[j].robot_id);
            }
        },
    }
    if 0 <= k < c.robots.len() {
        let after = c.robots.remove(k);
        assert forall|i: int, j: int| 0 <= i < j < after.len() implies (#[trigger] after[i]).robot_id
            != (#[trigger] after[j]).robot_id by {
            let p = if i < k { i } else { i + 1 };
            let q = if j < k { j } else { j + 1 };
            assert(c.robots[p].robot_id != c.robots[q].robot_id);
        }
    }
}

// ---------------------------------------------------------------------------
// claims of robots that are gone or silent
// ---------------------------------------------------------------------------

/// Whether a robot has neither requests nor leases.
pub open spec fn empty_handed(m: ClaimManagerView, id: RobotId) -> bool {
    &&& forall|i: int| 0 <= i < m.requests.len() ==> (#[trigger] m.requests[i]).robot_id != id
    &&& forall|i: int| 0 <= i < m.leases.len() ==> (#[trigger] m.leases[i]).robot_id != id
}

/// A robot whose claims are taken has none left, and one that had none still has
/// none.
pub proof fn lemma_claims_are_taken(m: ClaimManagerView, id: RobotId, tick: u64, other: RobotId)
    ensures
        empty_handed(claims_without(m, id, tick), id),
        empty_handed(m, other) ==> empty_handed(claims_without(m, id, tick), other),
{
    let after = claims_without(m, id, tick);
    let ending = Ending::OfRobot(id, Some(tick));
    lemma_requests_of_others(m.requests, id);
    lemma_ending_conserves_leases(m.leases, ending);
    assert forall|i: int| 0 <= i < after.requests.len() implies (
    #[trigger] after.requests[i]).robot_id != id && (empty_handed(m, other)
        ==> after.requests[i].robot_id != other) by {
        assert(after.requests.contains(after.requests[i]));
        assert(m.requests.contains(after.requests[i]));
        let k = choose|k: int| 0 <= k < m.requests.len() && m.requests[k] == after.requests[i];
        assert(m.requests[k].robot_id == after.requests[i].robot_id);
    }
    assert forall|i: int| 0 <= i < after.leases.len() implies (
    #[trigger] after.leases[i]).robot_id != id && (empty_handed(m, other)
        ==> after.leases[i].robot_id != other) by {
        assert(!is_ended(leases_kept(m.leases, ending)[i], ending));
        assert(m.leases.contains(leases_kept(m.leases, ending)[i]));
        let k = choose|k: int| 0 <= k < m.leases.len() && m.leases[k] == after.leases[i];
        assert(m.leases[k].robot_id == after.leases[i].robot_id);
    }
}

proof fn lemma_empty_handed_has_none(m: ClaimManagerView, id: RobotId, tick: u64)
    requires
        empty_handed(m, id),
    ensures
        !has_claims(m, id, tick),
        requests_of_others(m.requests, id) == m.requests,
        leases_kept(m.leases, Ending::OfRobot(id, Some(tick))) == m.leases,
        leases_ended(m.leases, Ending::OfRobot(id, Some(tick))) == Seq::<LeaseView>::empty(),
{
    lemma_no_requests_of(m.requests, id);
    lemma_no_leases_of(m.leases, id, tick);
}

proof fn lemma_no_requests_of(requests: Seq<ClaimRequestView>, id: RobotId)
    requires
        forall|i: int| 0 <= i < requests.len() ==> (#[trigger] requests[i]).robot_id != id,
    ensures
        requests_of_others(requests, id) == requests,
    decreases requests.len(),
{
    if requests.len() > 0 {
        let rest = requests.drop_last();
        assert forall|i: int| 0 <= i < rest.len() implies (#[trigger] rest[i]).robot_id != id by {
            assert(rest[i] == requests[i]);
        }
        lemma_no_requests_of(rest, id);
        assert(requests[requests.len() - 1].robot_id != id);
        assert(rest.push(requests.last()) =~= requests);
    } else {
        assert(requests_of_others(requests, id) =~= requests);
    }
}

proof fn lemma_no_leases_of(leases: Seq<LeaseView>, id: RobotId, tick: u64)
    requires
        forall|i: int| 0 <= i < leases.len() ==> (#[trigger] leases[i]).robot_id != id,
    ensures
        leases_kept(leases, Ending::OfRobot(id, Some(tick))) == leases,
        leases_ended(leases, Ending::OfRobot(id, Some(tick))) == Seq::<LeaseView>::empty(),
    decreases leases.len(),
{
    if leases.len() > 0 {
        let rest = leases.drop_last();
        assert forall|i: int| 0 <= i < rest.len() implies (#[trigger] rest[i]).robot_id != id by {
            assert(rest[i] == leases[i]);
        }
        lemma_no_leases_of(rest, id, tick);
        assert(leases[leases.len() - 1].robot_id != id);
        assert(rest.push(leases.last()) =~= leases);
    } else {
        assert(leases_kept(leases, Ending::OfRobot(id, Some(tick))) =~= leases);
    }
}

proof fn lemma_swept_robots_are_empty_handed(
    m: ClaimManagerView,
    ids: Seq<RobotId>,
    now_ms: u64,
    i: int,
)
    requires
        0 <= i < ids.len(),
    ensures
        empty_handed(swept(m, ids, now_ms).claims, ids[i]),
    decreases ids.len(),
{
    let before = swept(m, ids.drop_last(), now_ms);
    lemma_claims_are_taken(before.claims, ids.last(), now_ms, ids[i]);
    if i < ids.len() - 1 {
        lemma_swept_robots_are_empty_handed(m, ids.drop_last(), now_ms, i);
        assert(ids.drop_last()[i] == ids[i]);
    }
}

proof fn lemma_sweep_of_empty_handed(m: ClaimManagerView, ids: Seq<RobotId>, now_ms: u64)
    requires
        forall|i: int| 0 <= i < ids.len() ==> empty_handed(m, #[trigger] ids[i]),
    ensures
        swept(m, ids, now_ms).freed == Seq::<RobotId>::empty(),
        swept(m, ids, now_ms).claims == m,
    decreases ids.len(),
{
    if ids.len() > 0 {
        let rest = ids.drop_last();
        assert forall|i: int| 0 <= i < rest.len() implies empty_handed(m, #[trigger] rest[i]) by {
            assert(rest[i] == ids[i]);
        }
        lemma_sweep_of_empty_handed(m, rest, now_ms);
        assert(empty_handed(m, ids[ids.len() - 1]));
        lemma_empty_handed_has_none(m, ids.last(), now_ms);
        let ending = Ending::OfRobot(ids.last(), Some(now_ms));
        assert(m.released + leases_ended(m.leases, ending) =~= m.released);
        assert(claims_without(m, ids.last(), now_ms) == m);
    }
}

/// Sweeping a second time changes nothing and reports no robot again. The robots
/// that are swept have no claims left.
pub proof fn lemma_sweep_is_idempotent(m: ClaimManagerView, ids: Seq<RobotId>, now_ms: u64)
    ensures
        forall|i: int|
            0 <= i < ids.len() ==> empty_handed(swept(m, ids, now_ms).claims, #[trigger] ids[i]),
        swept(swept(m, ids, now_ms).claims, ids, now_ms).freed == Seq::<RobotId>::empty(),
        swept(swept(m, ids, now_ms).claims, ids, now_ms).claims == swept(m, ids, now_ms).claims,
{
    assert forall|i: int| 0 <= i < ids.len() implies empty_handed(
        swept(m, ids, now_ms).claims,
        #[trigger] ids[i],
    ) by {
        lemma_swept_robots_are_empty_handed(m, ids, now_ms, i);
    }
    lemma_sweep_of_empty_handed(swept(m, ids, now_ms).claims, ids, now_ms);
}

/// The requests of the robots that are not listed.
pub open spec fn requests_outside(requests: Seq<ClaimRequestView>, ids: Seq<RobotId>) -> Seq<
    ClaimRequestView,
>
    decreases requests.len(),
{
    if requests.len() == 0 {
        Seq::empty()
    } else {
        let before = requests_outside(requests.drop_last(), ids);
        if ids.contains(requests.last().robot_id) {
            before
        } else {
            before.push(requests.last())
        }
    }
}

/// The leases of the robots that are not listed.
pub open spec fn leases_outside(leases: Seq<LeaseView>, ids: Seq<RobotId>) -> Seq<LeaseView>
    decreases leases.len(),
{
    if leases.len() == 0 {
        Seq::empty()
    } else {
        let before = leases_outside(leases.drop_last(), ids);
        if ids.contains(leases.last().robot_id) {
            before
        } else {
            before.push(leases.last())
        }
    }
}

proof fn lemma_one_more_listed(ids: Seq<RobotId>, x: RobotId)
    requires
        ids.len() > 0,
    ensures
        ids.contains(x) <==> ids.drop_last().contains(x) || x == ids.last(),
{
    let rest = ids.drop_last();
    if ids.contains(x) {
        let k = choose|k: int| 0 <= k < ids.len() && ids[k] == x;
        if k < rest.len() {
            assert(rest[k] == x);
        }
    }
    if rest.contains(x) {
        let k = choose|k: int| 0 <= k < rest.len() && rest[k] == x;
        assert(ids[k] == x);
    }
    assert(ids[ids.len() - 1] == ids.last());
}

proof fn lemma_requests_outside_one_more(requests: Seq<ClaimRequestView>, ids: Seq<RobotId>)
    requires
        ids.len() > 0,
    ensures
        requests_of_others(requests_outside(requests, ids.drop_last()), ids.last())
            == requests_outside(requests, ids),
    decreases requests.len(),
{
    let rest = ids.drop_last();
    if requests.len() > 0 {
        let last = requests.last();
        lemma_requests_outside_one_more(requests.drop_last(), ids);
        lemma_one_more_listed(ids, last.robot_id);
        let before = requests_outside(requests.drop_last(), rest);
        if !rest.contains(last.robot_id) {
            assert(before.push(last).drop_last() =~= before);
        }
    }
}

proof fn lemma_leases_outside_one_more(leases: Seq<LeaseView>, ids: Seq<RobotId>, tick: u64)
    requires
        ids.len() > 0,
    ensures
        leases_kept(
            leases_outside(leases, ids.drop_last()),
            Ending::OfRobot(ids.last(), Some(tick)),
        ) == leases_outside(leases, ids),
    decreases leases.len(),
{
    let rest = ids.drop_last();
    if leases.len() > 0 {
        let last = leases.last();
        lemma_leases_outside_one_more(leases.drop_last(), ids, tick);
        lemma_one_more_listed(ids, last.robot_id);
        let before = leases_outside(leases.drop_last(), rest);
        if !rest.contains(last.robot_id) {
            assert(before.push(last).drop_last() =~= before);
        }
    }
}

proof fn lemma_requests_outside_nobody(requests: Seq<ClaimRequestView>)
    ensures
        requests_outside(requests, Seq::empty()) == requests,
    decreases requests.len(),
{
    if requests.len() > 0 {
        lemma_requests_outside_nobody(requests.drop_last());
        assert(requests.drop_last().push(requests.last()) =~= requests);
    } else {
        assert(requests =~= Seq::empty());
    }
}

proof fn lemma_leases_outside_nobody(leases: Seq<LeaseView>)
    ensures
        leases_outside(leases, Seq::empty()) == leases,
    decreases leases.len(),
{
    if leases.len() > 0 {
        lemma_leases_outside_nobody(leases.drop_last());
        assert(leases.drop_last().push(leases.last()) =~= leases);
    } else {
        assert(leases =~= Seq::empty());
    }
}

proof fn lemma_outside_holds(
    requests: Seq<ClaimRequestView>,
    leases: Seq<LeaseView>,
    ids: Seq<RobotId>,
)
    ensures
        forall|r: ClaimRequestView|
            requests_outside(requests, ids).contains(r) <==> requests.contains(r) && !ids.contains(
                r.robot_id,
            ),
        forall|l: LeaseView|
            leases_outside(leases, ids).contains(l) <==> leases.contains(l) && !ids.contains(
                l.robot_id,
            ),
    decreases requests.len() + leases.len(),
{
    if requests.len() > 0 {
        let rest = requests.drop_last();
        let last = requests.last();
        lemma_outside_holds(rest, leases, ids);
        let before = requests_outside(rest, ids);
        assert forall|r: ClaimRequestView|
            requests_outside(requests, ids).contains(r) <==> requests.contains(r) && !ids.contains(
                r.robot_id,
            ) by {
            lemma_pushed_contains(rest, last, r);
            lemma_pushed_contains(before, last, r);
            assert(rest.push(last) =~= requests);
        }
    } else if leases.len() > 0 {
        let rest = leases.drop_last();
        let last = leases.last();
        lemma_outside_holds(requests, rest, ids);
        let before = leases_outside(rest, ids);
        assert forall|l: LeaseView|
            leases_outside(leases, ids).contains(l) <==> leases.contains(l) && !ids.contains(
                l.robot_id,
            ) by {
            lemma_pushed_contains(rest, last, l);
            lemma_pushed_contains(before, last, l);
            assert(rest.push(last) =~= leases);
        }
    }
}

proof fn lemma_pushed_contains<T>(s: Seq<T>, last: T, x: T)
    ensures
        s.push(last).contains(x) <==> s.contains(x) || x == last,
{
    let t = s.push(last);
    if s.contains(x) {
        let k = choose|k: int| 0 <= k < s.len() && s[k] == x;
        assert(t[k] == x);
    }
    assert(t[s.len() as int] == last);
    if t.contains(x) {
        let k = choose|k: int| 0 <= k < t.len() && t[k] == x;
        if k < s.len() {
            assert(s[k] == x);
        }
    }
}

/// A robot has claims exactly if it is not empty-handed.
proof fn lemma_claims_or_empty_handed(m: ClaimManagerView, id: RobotId, tick: u64)
    ensures
        has_claims(m, id, tick) <==> !empty_handed(m, id),
{
    if empty_handed(m, id) {
        lemma_empty_handed_has_none(m, id, tick);
    } else if !has_claims(m, id, tick) {
        let ending = Ending::OfRobot(id, Some(tick));
        lemma_all_kept_means_none(m.requests, id);
        lemma_ending_conserves_leases(m.leases, ending);
        let i = choose|i: int| 0 <= i < m.leases.len() && (#[trigger] m.leases[i]).robot_id == id;
        assert(m.leases.contains(m.leases[i]));
        assert(leases_ended(m.leases, ending).contains(
            ended(m.leases[i], ending),
        ));
    }
}

proof fn lemma_all_kept_means_none(requests: Seq<ClaimRequestView>, id: RobotId)
    requires
        requests_of_others(requests, id).len() >= requests.len(),
    ensures
        forall|i: int| 0 <= i < requests.len() ==> (#[trigger] requests[i]).robot_id != id,
    decreases requests.len(),
{
    if requests.len() > 0 {
        let rest = requests.drop_last();
        lemma_requests_of_others(rest, id);
        lemma_all_kept_means_none(rest, id);
        assert forall|i: int| 0 <= i < requests.len() implies (#[trigger] requests[i]).robot_id
            != id by {
            if i < rest.len() {
                assert(rest[i] == requests[i]);
            }
        }
    }
}

/// A sweep leaves the requests and leases of all other robots as they were, in
/// their order. It reports a robot exactly if that is swept and held something.
/// What was released before stays on record, each lease of a swept robot joins it
/// as released at that time, and none is lost.
pub proof fn lemma_sweep_takes_only_from_the_silent(
    m: ClaimManagerView,
    ids: Seq<RobotId>,
    now_ms: u64,
)
    ensures
        ({
            let after = swept(m, ids, now_ms);
            &&& after.claims.requests == requests_outside(m.requests, ids)
            &&& after.claims.leases == leases_outside(m.leases, ids)
            &&& forall|id: RobotId| #[trigger]
                after.freed.contains(id) <==> ids.contains(id) && !empty_handed(m, id)
            &&& m.released.len() <= after.claims.released.len()
            &&& after.claims.released.take(m.released.len() as int) == m.released
            &&& after.claims.released.len() + after.claims.leases.len() == m.released.len()
                + m.leases.len()
            &&& forall|l: LeaseView|
                m.leases.contains(l) && ids.contains(l.robot_id)
                    ==> after.claims.released.contains(
                    #[trigger] archived(l, LeaseDisposition::Released, Some(now_ms)),
                )
        }),
    decreases ids.len(),
{
    let after = swept(m, ids, now_ms);
    if ids.len() == 0 {
        assert(ids =~= Seq::empty());
        lemma_requests_outside_nobody(m.requests);
        lemma_leases_outside_nobody(m.leases);
        assert(m.released.take(m.released.len() as int) =~= m.released);
    } else {
        let rest = ids.drop_last();
        let last = ids.last();
        let before = swept(m, rest, now_ms);
        let ending = Ending::OfRobot(last, Some(now_ms));
        lemma_sweep_takes_only_from_the_silent(m, rest, now_ms);
        lemma_requests_outside_one_more(m.requests, ids);
        lemma_leases_outside_one_more(m.leases, ids, now_ms);
        lemma_ending_conserves_leases(before.claims.leases, ending);
        lemma_outside_holds(m.requests, m.leases, rest);
        lemma_claims_or_empty_handed(before.claims, last, now_ms);
        let put = leases_ended(before.claims.leases, ending);
        assert(after.claims.released == before.claims.released + put);
        assert(after.claims.released.take(m.released.len() as int)
            =~= before.claims.released.take(m.released.len() as int));
        assert(!rest.contains(last) ==> (empty_handed(before.claims, last) <==> empty_handed(
            m,
            last,
        ))) by {
            if !rest.contains(last) {
                lemma_same_in_hand(m, before.claims, rest, last);
            }
        }
        assert(rest.contains(last) ==> empty_handed(before.claims, last)) by {
            if rest.contains(last) {
                let k = choose|k: int| 0 <= k < rest.len() && rest[k] == last;
                lemma_swept_robots_are_empty_handed(m, rest, now_ms, k);
            }
        }
        assert forall|id: RobotId| #[trigger] after.freed.contains(id) <==> ids.contains(id)
            && !empty_handed(m, id) by {
            lemma_one_more_listed(ids, id);
            lemma_pushed_contains(before.freed, last, id);
        }
        assert forall|l: LeaseView|
            m.leases.contains(l) && ids.contains(l.robot_id) implies after.claims.released.contains(
            #[trigger] archived(l, LeaseDisposition::Released, Some(now_ms)),
        ) by {
            let gone = archived(l, LeaseDisposition::Released, Some(now_ms));
            let all = after.claims.released;
            lemma_one_more_listed(ids, l.robot_id);
            if rest.contains(l.robot_id) {
                assert(before.claims.released.contains(gone));
                let k = choose|k: int|
                    0 <= k < before.claims.released.len() && before.claims.released[k] == gone;
                assert(all[k] == gone);
            } else {
                assert(before.claims.leases.contains(l));
                assert(put.contains(gone));
                let k = choose|k: int| 0 <= k < put.len() && put[k] == gone;
                assert(all[before.claims.released.len() + k] == gone);
            }
        }
    }
}

proof fn lemma_same_in_hand(
    m: ClaimManagerView,
    after: ClaimManagerView,
    ids: Seq<RobotId>,
    id: RobotId,
)
    requires
        after.requests == requests_outside(m.requests, ids),
        after.leases == leases_outside(m.leases, ids),
        !ids.contains(id),
    ensures
        empty_handed(after, id) <==> empty_handed(m, id),
{
    lemma_outside_holds(m.requests, m.leases, ids);
    if empty_handed(m, id) {
        assert forall|i: int| 0 <= i < after.requests.len() implies (
        #[trigger] after.requests[i]).robot_id != id by {
            assert(requests_outside(m.requests, ids).contains(after.requests[i]));
            assert(m.requests.contains(after.requests[i]));
            let k = choose|k: int| 0 <= k < m.requests.len() && m.requests[k] == after.requests[i];
            assert(m.requests[k].robot_id != id);
        }
        assert forall|i: int| 0 <= i < after.leases.len() implies (
        #[trigger] after.leases[i]).robot_id != id by {
            assert(leases_outside(m.leases, ids).contains(after.leases[i]));
            assert(m.leases.contains(after.leases[i]));
            let k = choose|k: int| 0 <= k < m.leases.len() && m.leases[k] == after.leases[i];
            assert(m.leases[k].robot_id != id);
        }
    }
    if empty_handed(after, id) {
        assert forall|i: int| 0 <= i < m.requests.len() implies (
        #[trigger] m.requests[i]).robot_id != id by {
            if m.requests[i].robot_id == id {
                assert(m.requests.contains(m.requests[i]));
                assert(requests_outside(m.requests, ids).contains(m.requests[i]));
                let k = choose|k: int|
                    0 <= k < after.requests.len() && after.requests[k] == m.requests[i];
                assert(after.requests[k].robot_id != id);
            }
        }
        assert forall|i: int| 0 <= i < m.leases.len() implies (
        #[trigger] m.leases[i]).robot_id != id by {
            if m.leases[i].robot_id == id {
                assert(m.leases.contains(m.leases[i]));
                assert(leases_outside(m.leases, ids).contains(m.leases[i]));
                let k = choose|k: int| 0 <= k < after.leases.len() && after.leases[k] == m.leases[i];
                assert(after.leases[k].robot_id != id);
            }
        }
    }
}

/// A robot that leaves takes its key, its claims, its signs of life and its
/// universally unique identifiers with it.
pub proof fn lemma_unregistered_robot_is_gone(c: CoordinatorView, id: RobotId)
    requires
        unique_robots(c.robots),
        robot_place(c.robots, id, 0) is Some,
    ensures
        ({
            let after = unregistered(c, robot_place(c.robots, id, 0).unwrap());
            &&& !is_registered(after, id)
            &&& empty_handed(after.claims, id)
            &&& !after.alive.dom().contains(id.0)
            &&& forall|u: Uuid| #[trigger] after.by_uuid.dom().contains(u) ==> after.by_uuid[u] != id.0
            &&& unique_robots(after.robots)
        }),
{
    lemma_robot_place(c.robots, id, 0);
    let i = robot_place(c.robots, id, 0).unwrap();
    let after = unregistered(c, i);
    lemma_claims_are_taken(c.claims, id, c.robots[i].updated_at_tick, id);
    lemma_robot_place(after.robots, id, 0);
    assert forall|p: int| 0 <= p < after.robots.len() implies (
    #[trigger] after.robots[p]).robot_id != id by {
        let q = if p < i { p } else { p + 1 };
        assert(after.robots[p] == c.robots[q]);
        if q < i {
            assert(c.robots[q].robot_id != c.robots[i].robot_id);
        } else {
            assert(c.robots[i].robot_id != c.robots[q].robot_id);
        }
    }
    assert forall|p: int, q: int| 0 <= p < q < after.robots.len() implies (
    #[trigger] after.robots[p]).robot_id != (#[trigger] after.robots[q]).robot_id by {
        let a = if p < i { p } else { p + 1 };
        let b = if q < i { q } else { q + 1 };
        assert(c.robots[a].robot_id != c.robots[b].robot_id);
    }
}

// ---------------------------------------------------------------------------
// signs of life
// ---------------------------------------------------------------------------

/// A robot that has just given a sign of life is active, and it is neither active
/// and silent at once.
pub proof fn lemma_sign_of_life_keeps_active(a: AliveInfo, now_ms: u64)
    requires
        a.interval_secs >= 1,
    ensures
        silence(AliveInfo { last_seen_ms: now_ms, ..a }, now_ms) < patience(a),
        !(silence(a, now_ms) < patience(a) && silence(a, now_ms) > patience(a)),
{
}

/// Silence only grows until the next sign of life.
pub proof fn lemma_silence_grows(a: AliveInfo, now_ms: u64, then_ms: u64)
    requires
        now_ms <= then_ms,
    ensures
        silence(a, now_ms) <= silence(a, then_ms),
{
}

// ---------------------------------------------------------------------------
// poses, routes and horizons
// ---------------------------------------------------------------------------

/// A report of a heading alone leaves the last known position standing, and the
/// other way round.
pub proof fn lemma_pose_reports_are_independent(
    s: RobotStateView,
    position: RobotPosition,
    heading: RobotHeading,
    at_ms: u64,
)
    ensures
        posed(s, None, Some(heading), at_ms).position == s.position,
        posed(s, None, Some(heading), at_ms).heading == Some(heading),
        posed(s, Some(position), None, at_ms).heading == s.heading,
        posed(s, Some(position), None, at_ms).position == Some(position),
{
}

/// A robot that reaches the last node of its route is idle, and one that reaches
/// another node of it is under way. Either way nothing holds it.
pub proof fn lemma_progress_on_route(
    s: RobotStateView,
    node: Uuid,
    edge: Option<Uuid>,
    tick: u64,
)
    requires
        s.route_plan matches Some(plan) && super::horizon::place_of(
            plan.traversed_node_ids,
            node,
            0,
        ) is Some,
    ensures
        ({
            let after = progressed(s, Some(node), edge, tick);
            let place = super::horizon::place_of(
                s.route_plan.unwrap().traversed_node_ids,
                node,
                0,
            ).unwrap();
            &&& progress(after) == place
            &&& after.hold_reason is None
            &&& !after.needs_replan
            &&& after.progress_state == RobotProgressState::Idle <==> place + 1
                >= s.route_plan.unwrap().traversed_node_ids.len()
        }),
{
}

/// What a robot claims within its horizon is part of what it would claim for its
/// whole route, as far as nodes and edges go, and no more of them than the
/// horizon lets it see.
pub proof fn lemma_horizon_is_part_of_route(plan: RoutePlanView, from: u64, horizon: u64, k: int)
    requires
        shape_error(plan) is None,
        from < plan.traversed_node_ids.len(),
        0 <= k < horizon_targets(plan, from, horizon).len(),
        horizon_targets(plan, from, horizon)[k].kind != ClaimTargetKind::Zone,
    ensures
        route_targets(plan).contains(horizon_targets(plan, from, horizon)[k]),
        horizon_targets(plan, from, horizon).len() <= zones_ahead(plan, from, horizon).len()
            + horizon + horizon + 1,
{
    let zones = targets_on(ClaimTargetKind::Zone, zones_ahead(plan, from, horizon));
    let edges = plan.traversed_edge_ids;
    let nodes = plan.traversed_node_ids;
    let edge_from = super::horizon::lesser(from as int, edges.len() as int);
    let edge_to = super::horizon::lesser(edges.len() as int, from + horizon);
    let node_to = super::horizon::lesser(nodes.len() as int, from + horizon + 1);
    let es = targets_on(ClaimTargetKind::Edge, edges.subrange(edge_from, edge_to));
    let ns = targets_on(ClaimTargetKind::Node, nodes.subrange(from as int, node_to));
    let all = route_targets(plan);
    let t = horizon_targets(plan, from, horizon)[k];
    let zone_count = plan.traversed_zone_ids.len();
    if k < zones.len() {
        assert(t == zones[k]);
    } else if k < zones.len() + es.len() {
        let j = k - zones.len();
        assert(t == es[j]);
        assert(all[zone_count + edge_from + j] == t);
    } else {
        let j = k - zones.len() - es.len();
        assert(t == ns[j]);
        assert(all[zone_count + edges.len() + from + j] == t);
    }
}

/// Letting go of what lies behind loses no lease: every one that was active stays
/// active or is put aside.
pub proof fn lemma_shedding_conserves_leases(
    m: ClaimManagerView,
    plan: RoutePlanView,
    from: int,
    ids: Seq<LeaseId>,
)
    ensures
        shed(m, plan, from, ids).manager.leases.len() + shed(
            m,
            plan,
            from,
            ids,
        ).manager.released.len() == m.leases.len() + m.released.len(),
        shed(m, plan, from, ids).released + shed(m, plan, from, ids).retained.len() <= ids.len(),
        shed(m, plan, from, ids).manager.released.len() == m.released.len() + shed(
            m,
            plan,
            from,
            ids,
        ).released,
        shed(m, plan, from, ids).manager.requests == m.requests,
    decreases ids.len(),
{
    if ids.len() > 0 {
        lemma_shedding_conserves_leases(m, plan, from, ids.drop_last());
        let before = shed(m, plan, from, ids.drop_last());
        lemma_lease_place(before.manager.leases, ids.last(), 0);
    }
}

} // verus!
