//! Laws of the session: what an application snapshot and the connection
//! events do to the trees shown.
use vstd::prelude::*;
use crate::observer::EventView;
use crate::session::ConnectionStatus;
use crate::session::{
    apply_event_spec, rooted, snapshot_pids, snapshot_prefix, snapshot_tree_spec, SessionView,
};
use crate::tree::{new_tree_spec, ROOT_PID};
use crate::tree_laws::lemma_add_node_keeps_nodes;
use crate::types::{ProcessView, SnapshotView};

verus! {

/// Every process of the snapshot hangs from the root or from a process
/// listed before it.
pub open spec fn parents_first(ps: Seq<ProcessView>) -> bool {
    forall|i: int|
        #![trigger ps[i]]
        0 <= i < ps.len() ==> {
            let parent = rooted(ps[i], snapshot_pids(ps)).parent.id;
            parent == ROOT_PID || exists|j: int| 0 <= j < i && ps[j].pid.id == parent
        }
}

proof fn lemma_prefix_complete(ps: Seq<ProcessView>, n: nat)
    requires
        parents_first(ps),
        n <= ps.len(),
    ensures
        ({
            let t = snapshot_prefix(ps, snapshot_pids(ps), n);
            &&& t.lost.dom().finite()
            &&& t.procs.contains_key(ROOT_PID)
            &&& t.heights.contains_key(ROOT_PID)
            &&& forall|j: int|
                0 <= j < n ==> t.procs.contains_key(#[trigger] ps[j].pid.id) && t.heights.contains_key(
                    ps[j].pid.id,
                )
        }),
    decreases n,
{
    let pids = snapshot_pids(ps);
    if n == 0 {
        assert(new_tree_spec().lost.dom() =~= Set::<u64>::empty());
    } else {
        lemma_prefix_complete(ps, (n - 1) as nat);
        let prev = snapshot_prefix(ps, pids, (n - 1) as nat);
        let p = rooted(ps[n - 1], pids);
        let parent = p.parent.id;
        assert(ps[n - 1] == ps[n - 1]);
        if parent != ROOT_PID {
            let j = choose|j: int| 0 <= j < n - 1 && ps[j].pid.id == parent;
            assert(prev.heights.contains_key(ps[j].pid.id));
        }
        lemma_add_node_keeps_nodes(prev, p, true);
        assert(p.pid.id == ps[n - 1].pid.id);
    }
}

/// When every process of a snapshot comes after its parent (a process whose
/// parent is not in the snapshot counting as a child of the root), every
/// process of the snapshot is in the tree built from it.
pub proof fn lemma_ordered_snapshot_complete(ps: Seq<ProcessView>)
    requires
        parents_first(ps),
    ensures
        forall|i: int|
            0 <= i < ps.len() ==> #[trigger] snapshot_tree_spec(ps).procs.contains_key(ps[i].pid.id),
{
    lemma_prefix_complete(ps, ps.len());
}

/// A process whose parent is not in the snapshot is added as a child of the
/// root; any other process keeps its parent.
pub proof fn lemma_rooted_parent(p: ProcessView, pids: Set<u64>)
    ensures
        rooted(p, pids).parent.id == (if pids.contains(p.parent.id) {
            p.parent.id
        } else {
            ROOT_PID
        }),
        rooted(p, pids).pid == p.pid,
{
}

/// After a connection, the trees shown are exactly those of the snapshots
/// received since: a snapshot that follows a connection event is the only
/// tree.
pub proof fn lemma_connect_then_snapshot(s: SessionView, node: Seq<char>, m: SnapshotView)
    ensures
        ({
            let s1 = apply_event_spec(s, EventView::Connected(node)).0;
            let s2 = apply_event_spec(s1, EventView::ApplicationTree(m)).0;
            &&& s2.trees == Map::<Seq<char>, _>::empty().insert(
                m.application,
                snapshot_tree_spec(m.processes),
            )
            &&& s2.node_name == node
        }),
{
}

/// A lost connection keeps the trees shown; only the status changes.
pub proof fn lemma_disconnect_keeps_trees(s: SessionView)
    ensures
        apply_event_spec(s, EventView::Disconnected).0.trees == s.trees,
        apply_event_spec(s, EventView::Disconnected).0.node_name == s.node_name,
{
}


/// What each observer event does to the session. A connection sets the
/// status and node name and drops every tree; a lost connection sets the
/// status and keeps the node name and trees; an application list changes
/// nothing; a snapshot puts its application's tree in place and keeps every
/// other application's tree. Only a connection and a snapshot ask for the
/// canvas to be rebuilt.
pub proof fn lemma_event_effects(s: SessionView, e: EventView)
    ensures
        ({
            let (s2, changed) = apply_event_spec(s, e);
            match e {
                EventView::Connected(node) => {
                    &&& s2.status == ConnectionStatus::Connected
                    &&& s2.node_name == node
                    &&& s2.trees.dom() == Set::<Seq<char>>::empty()
                    &&& changed
                },
                EventView::Disconnected => {
                    &&& s2.status == ConnectionStatus::Disconnected
                    &&& s2.node_name == s.node_name
                    &&& s2.trees == s.trees
                    &&& !changed
                },
                EventView::ApplicationList(_) => s2 == s && !changed,
                EventView::ApplicationTree(m) => {
                    &&& s2.status == s.status
                    &&& s2.node_name == s.node_name
                    &&& s2.trees.contains_key(m.application)
                    &&& s2.trees[m.application] == snapshot_tree_spec(m.processes)
                    &&& forall|k: Seq<char>|
                        k != m.application ==> (#[trigger] s2.trees.contains_key(k) == s.trees.contains_key(k)
                            && (s.trees.contains_key(k) ==> s2.trees[k] == s.trees[k]))
                    &&& changed
                },
            }
        }),
{
}

} // verus!
