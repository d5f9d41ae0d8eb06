//! Images of the state of the ledger and the coordinator, to be stored and
//! restored. The workspace is not part of them: it is loaded on its own and
//! attached again. An image of the coordinator holds the keys of all robots.

use crate::claim::manager::{shared_workspace, ClaimManager, ClaimManagerView};
use crate::claim::{ClaimRequest, ClaimRequestView, Lease, LeaseView};
use crate::coordinator::fleet::{key_views, AliveInfo, Coordinator, CoordinatorView};
use crate::guid::Uuid;
use crate::index::WorkspaceIndex;
use crate::key::{Key, KeyView};
use crate::robot::{RobotState, RobotStateView};
use crate::views::{lemma_views_push, views};
use crate::workspace::Workspace;
use std::collections::BTreeMap;
use std::sync::Arc;
use vstd::prelude::*;

verus! {

broadcast use vstd::std_specs::btree::group_btree_axioms;

/// An image of the ledger.
#[derive(Debug)]
pub struct ClaimManagerSnapshot {
    pub active_requests: Vec<ClaimRequest>,
    pub active_leases: Vec<Lease>,
    pub released_leases: Vec<Lease>,
    pub next_id: u64,
}

/// What a [`ClaimManagerSnapshot`] stands for.
pub struct ClaimManagerSnapshotView {
    pub active_requests: Seq<ClaimRequestView>,
    pub active_leases: Seq<LeaseView>,
    pub released_leases: Seq<LeaseView>,
    pub next_id: u64,
}

impl View for ClaimManagerSnapshot {
    type V = ClaimManagerSnapshotView;

    open spec fn view(&self) -> ClaimManagerSnapshotView {
        ClaimManagerSnapshotView {
            active_requests: views(self.active_requests@),
            active_leases: views(self.active_leases@),
            released_leases: views(self.released_leases@),
            next_id: self.next_id,
        }
    }
}

impl Clone for ClaimManagerSnapshot {
    fn clone(&self) -> (r: Self)
        ensures
            r@ == self@,
    {
        let r = ClaimManagerSnapshot {
            active_requests: self.active_requests.clone(),
            active_leases: self.active_leases.clone(),
            released_leases: self.released_leases.clone(),
            next_id: self.next_id,
        };
        assert(r@.active_requests =~= self@.active_requests);
        assert(r@.active_leases =~= self@.active_leases);
        assert(r@.released_leases =~= self@.released_leases);
        r
    }
}

impl Default for ClaimManagerSnapshot {
    fn default() -> (s: Self)
        ensures
            s@ == (ClaimManagerSnapshotView {
                active_requests: Seq::empty(),
                active_leases: Seq::empty(),
                released_leases: Seq::empty(),
                next_id: 0,
            }),
    {
        let s = ClaimManagerSnapshot {
            active_requests: Vec::new(),
            active_leases: Vec::new(),
            released_leases: Vec::new(),
            next_id: 0,
        };
        assert(s@.active_requests =~= Seq::empty());
        assert(s@.active_leases =~= Seq::empty());
        assert(s@.released_leases =~= Seq::empty());
        s
    }
}

/// An image of the coordinator and its ledger.
#[derive(Debug, Clone)]
pub struct CoordinatorSnapshot {
    pub robot_states: Vec<RobotState>,
    pub robot_keys: BTreeMap<u64, Key>,
    pub robot_id_by_uuid: BTreeMap<Uuid, u64>,
    pub next_synthetic_robot_id: u64,
    pub robot_alive: BTreeMap<u64, AliveInfo>,
    pub claims: ClaimManagerSnapshot,
}

/// What a [`CoordinatorSnapshot`] stands for.
pub struct CoordinatorSnapshotView {
    pub robot_states: Seq<RobotStateView>,
    pub robot_keys: Map<u64, KeyView>,
    pub robot_id_by_uuid: Map<Uuid, u64>,
    pub next_synthetic_robot_id: u64,
    pub robot_alive: Map<u64, AliveInfo>,
    pub claims: ClaimManagerSnapshotView,
}

impl View for CoordinatorSnapshot {
    type V = CoordinatorSnapshotView;

    open spec fn view(&self) -> CoordinatorSnapshotView {
        CoordinatorSnapshotView {
            robot_states: views(self.robot_states@),
            robot_keys: key_views(self.robot_keys@),
            robot_id_by_uuid: self.robot_id_by_uuid@,
            next_synthetic_robot_id: self.next_synthetic_robot_id,
            robot_alive: self.robot_alive@,
            claims: self.claims@,
        }
    }
}

impl Default for CoordinatorSnapshot {
    fn default() -> (s: Self)
        ensures
            s@ == (CoordinatorSnapshotView {
                robot_states: Seq::empty(),
                robot_keys: Map::empty(),
                robot_id_by_uuid: Map::empty(),
                next_synthetic_robot_id: 0,
                robot_alive: Map::empty(),
                claims: ClaimManagerSnapshotView {
                    active_requests: Seq::empty(),
                    active_leases: Seq::empty(),
                    released_leases: Seq::empty(),
                    next_id: 0,
                },
            }),
    {
        let s = CoordinatorSnapshot {
            robot_states: Vec::new(),
            robot_keys: BTreeMap::new(),
            robot_id_by_uuid: BTreeMap::new(),
            next_synthetic_robot_id: 0,
            robot_alive: BTreeMap::new(),
            claims: ClaimManagerSnapshot::default(),
        };
        assert(s@.robot_states =~= Seq::empty());
        assert(s@.robot_keys =~= Map::empty());
        assert(s@.robot_id_by_uuid =~= Map::empty());
        assert(s@.robot_alive =~= Map::empty());
        s
    }
}

/// The image of a ledger.
pub open spec fn ledger_image(m: ClaimManagerView) -> ClaimManagerSnapshotView {
    ClaimManagerSnapshotView {
        active_requests: m.requests,
        active_leases: m.leases,
        released_leases: m.released,
        next_id: m.next_id,
    }
}

/// The ledger of an image. The counter for identifiers begins at one.
pub open spec fn ledger_from(
    s: ClaimManagerSnapshotView,
    workspace: Option<Workspace>,
) -> ClaimManagerView {
    ClaimManagerView {
        workspace,
        requests: s.active_requests,
        leases: s.active_leases,
        released: s.released_leases,
        next_id: if s.next_id >= 1 {
            s.next_id
        } else {
            1
        },
    }
}

/// The image of a coordinator.
pub open spec fn coordinator_image(c: CoordinatorView) -> CoordinatorSnapshotView {
    CoordinatorSnapshotView {
        robot_states: c.robots,
        robot_keys: c.keys,
        robot_id_by_uuid: c.by_uuid,
        next_synthetic_robot_id: c.next_synthetic,
        robot_alive: c.alive,
        claims: ledger_image(c.claims),
    }
}

/// The coordinator of an image. Nothing is pending in it.
pub open spec fn coordinator_from(
    s: CoordinatorSnapshotView,
    workspace: Option<Workspace>,
) -> CoordinatorView {
    CoordinatorView {
        workspace,
        claims: ledger_from(s.claims, workspace),
        robots: s.robot_states,
        keys: s.robot_keys,
        by_uuid: s.robot_id_by_uuid,
        next_synthetic: s.next_synthetic_robot_id,
        pending: Map::empty(),
        alive: s.robot_alive,
    }
}

fn copy_requests(v: &Vec<ClaimRequest>) -> (r: Vec<ClaimRequest>)
    ensures
        views(r@) == views(v@),
{
    let mut r: Vec<ClaimRequest> = Vec::new();
    let mut i: usize = 0;
    assert(views(r@) =~= views(v@).take(0));
    while i < v.len()
        invariant
            i <= v.len(),
            views(r@) == views(v@).take(i as int),
        decreases v.len() - i,
    {
        let item = v[i].clone();
        proof {
            lemma_views_push(r@, item);
        }
        r.push(item);
        i = i + 1;
        assert(views(r@) =~= views(v@).take(i as int));
    }
    assert(views(r@) =~= views(v@));
    r
}

fn copy_leases(v: &Vec<Lease>) -> (r: Vec<Lease>)
    ensures
        views(r@) == views(v@),
{
    let mut r: Vec<Lease> = Vec::new();
    let mut i: usize = 0;
    assert(views(r@) =~= views(v@).take(0));
    while i < v.len()
        invariant
            i <= v.len(),
            views(r@) == views(v@).take(i as int),
        decreases v.len() - i,
    {
        let item = v[i].clone();
        proof {
            lemma_views_push(r@, item);
        }
        r.push(item);
        i = i + 1;
        assert(views(r@) =~= views(v@).take(i as int));
    }
    assert(views(r@) =~= views(v@));
    r
}

fn copy_robots(v: &Vec<RobotState>) -> (r: Vec<RobotState>)
    ensures
        views(r@) == views(v@),
{
    let mut r: Vec<RobotState> = Vec::new();
    let mut i: usize = 0;
    assert(views(r@) =~= views(v@).take(0));
    while i < v.len()
        invariant
            i <= v.len(),
            views(r@) == views(v@).take(i as int),
        decreases v.len() - i,
    {
        let item = v[i].clone();
        proof {
            lemma_views_push(r@, item);
        }
        r.push(item);
        i = i + 1;
        assert(views(r@) =~= views(v@).take(i as int));
    }
    assert(views(r@) =~= views(v@));
    r
}

impl ClaimManager {
    /// An image of the ledger.
    pub fn snapshot(&self) -> (s: ClaimManagerSnapshot)
        ensures
            s@ == ledger_image(self@),
    {
        ClaimManagerSnapshot {
            active_requests: copy_requests(self.requests()),
            active_leases: copy_leases(self.leases()),
            released_leases: copy_leases(self.released_leases()),
            next_id: self.next_id(),
        }
    }

    /// Another ledger with the same contents.
    pub(crate) fn copied(&self) -> (m: Self)
        ensures
            m@ == self@,
    {
        ClaimManager::from_parts(
            self.index_arc(),
            copy_requests(self.requests()),
            copy_leases(self.leases()),
            copy_leases(self.released_leases()),
            self.next_id(),
        )
    }

    /// The ledger of an image, attached to an index.
    pub fn restore(snapshot: ClaimManagerSnapshot, index: Option<Arc<WorkspaceIndex>>) -> (m: Self)
        ensures
            m@ == ledger_from(snapshot@, shared_workspace(index)),
    {
        let next_id: u64 = if snapshot.next_id >= 1 {
            snapshot.next_id
        } else {
            1
        };
        ClaimManager::from_parts(
            index,
            snapshot.active_requests,
            snapshot.active_leases,
            snapshot.released_leases,
            next_id,
        )
    }
}

impl Coordinator {
    /// An image of the coordinator and its ledger.
    pub fn snapshot(&self) -> (s: CoordinatorSnapshot)
        ensures
            s@ == coordinator_image(self@),
    {
        self.make_snapshot(copy_robots(self.robot_states()), self.claim_manager().snapshot())
    }

    /// The coordinator of an image, attached to an index.
    pub fn restore(snapshot: CoordinatorSnapshot, index: Option<Arc<WorkspaceIndex>>) -> (c: Self)
        ensures
            c@ == coordinator_from(snapshot@, shared_workspace(index)),
    {
        let shared = match &index {
            Some(i) => Some(i.clone()),
            None => None,
        };
        let claims = ClaimManager::restore(snapshot.claims, shared);
        Coordinator::from_parts(
            index,
            claims,
            snapshot.robot_states,
            snapshot.robot_keys,
            snapshot.robot_id_by_uuid,
            snapshot.next_synthetic_robot_id,
            snapshot.robot_alive,
        )
    }
}

/// A ledger that is restored from its image is as it was, on the workspace that
/// it is attached to. Its counter has at least come to one.
pub proof fn lemma_ledger_survives(m: ClaimManagerView, workspace: Option<Workspace>)
    requires
        m.next_id >= 1,
    ensures
        ledger_from(ledger_image(m), workspace) == (ClaimManagerView { workspace, ..m }),
{
}

/// A coordinator that is restored from its image is as it was, on the workspace
/// that it is attached to, but for what was pending.
pub proof fn lemma_coordinator_survives(c: CoordinatorView, workspace: Option<Workspace>)
    requires
        c.claims.next_id >= 1,
    ensures
        coordinator_from(coordinator_image(c), workspace) == (CoordinatorView {
            workspace,
            claims: ClaimManagerView { workspace, ..c.claims },
            pending: Map::empty(),
            ..c
        }),
{
}

/// An image outlives being stored and restored.
pub proof fn lemma_image_survives(s: CoordinatorSnapshotView, workspace: Option<Workspace>)
    requires
        s.claims.next_id >= 1,
    ensures
        coordinator_image(coordinator_from(s, workspace)) == s,
{
}

} // verus!
