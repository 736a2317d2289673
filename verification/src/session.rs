//! The application state that reacts to observer events: the connection
//! status, the name of the node shown, and the process tree of every
//! application the server reported.
use vstd::prelude::*;
use std::collections::HashSet;
use crate::observer::{EventView, ObserverEvent};
use crate::tree::{add_node_spec, new_tree_spec, Tree, TreeView, ROOT_PID};
use crate::types::{processes_view, PidView, ProcessShortInfo, ProcessView};
use crate::text::{chars_lt, lemma_chars_lt_total, lemma_chars_lt_transitive, str_lt};

verus! {

broadcast use vstd::std_specs::hash::group_hash_axioms;

/// The state of the connection to the observer server.
#[derive(Debug, Clone, Copy, PartialEq, Eq, Structural)]
pub enum ConnectionStatus {
    Connected,
    Disconnected,
    Connecting,
}

/// The label the footer shows for a connection status.
pub open spec fn status_str(s: ConnectionStatus) -> Seq<char> {
    match s {
        ConnectionStatus::Connected => "● Connected"@,
        ConnectionStatus::Disconnected => "● Disconnected"@,
        ConnectionStatus::Connecting => "◌ Connecting..."@,
    }
}

impl ConnectionStatus {
    /// The label the footer shows for this status.
    pub fn as_str(&self) -> (s: &'static str)
        ensures
            s@ == status_str(*self),
    {
        match self {
            ConnectionStatus::Connected => "● Connected",
            ConnectionStatus::Disconnected => "● Disconnected",
            ConnectionStatus::Connecting => "◌ Connecting...",
        }
    }
}

/// The pids of the processes of a snapshot.
pub open spec fn snapshot_pids(ps: Seq<ProcessView>) -> Set<u64> {
    ps.map_values(|p: ProcessView| p.pid.id).to_set()
}

/// A process as it is added to its application's tree: one whose parent is
/// not part of the snapshot hangs from the root instead.
pub open spec fn rooted(p: ProcessView, pids: Set<u64>) -> ProcessView {
    if pids.contains(p.parent.id) {
        p
    } else {
        ProcessView { parent: PidView { id: ROOT_PID, ..p.parent }, ..p }
    }
}

/// The tree after adding the first `n` processes of a snapshot, in order.
pub open spec fn snapshot_prefix(ps: Seq<ProcessView>, pids: Set<u64>, n: nat) -> TreeView
    decreases n,
{
    if n == 0 {
        new_tree_spec()
    } else {
        add_node_spec(snapshot_prefix(ps, pids, (n - 1) as nat), rooted(ps[n - 1], pids), true)
    }
}

/// The tree of an application snapshot: a fresh tree to which every process
/// is added in order, with traversal, its parent replaced by the root when
/// the parent is not in the snapshot.
pub open spec fn snapshot_tree_spec(ps: Seq<ProcessView>) -> TreeView {
    snapshot_prefix(ps, snapshot_pids(ps), ps.len())
}

/// Builds the tree of an application snapshot.
pub fn tree_from_snapshot(processes: Vec<ProcessShortInfo>) -> (t: Tree)
    requires
        processes@.len() < u64::MAX,
    ensures
        t.wf(),
        t@ == snapshot_tree_spec(processes_view(processes@)),
{
    let ghost orig = processes@;
    let ghost ps = processes_view(orig);
    let ghost ids = ps.map_values(|p: ProcessView| p.pid.id);
    let mut all_pids: HashSet<u64> = HashSet::new();
    let n = processes.len();
    let mut i: usize = 0;
    while i < n
        invariant
            n == ps.len(),
            i <= n,
            orig == processes@,
            ps == processes_view(orig),
            ids == ps.map_values(|p: ProcessView| p.pid.id),
            all_pids@ == ids.take(i as int).to_set(),
        decreases n - i,
    {
        all_pids.insert(processes[i].pid.id);
        proof {
            assert(ids.take(i + 1) =~= ids.take(i as int) + seq![ids[i as int]]);
            Seq::lemma_to_set_insert_commutes(ids.take(i as int), ids[i as int]);
        }
        i = i + 1;
    }
    proof {
        assert(ids.take(n as int) =~= ids);
    }
    let ghost pids = snapshot_pids(ps);
    let mut tree = Tree::new();
    let mut k: usize = 0;
    for process in it: processes.into_iter()
        invariant
            it.seq() == orig,
            ps == processes_view(orig),
            ps.len() < u64::MAX,
            all_pids@ == pids,
            k == it.index(),
            k <= ps.len(),
            n == ps.len(),
            tree.wf(),
            tree@ == snapshot_prefix(ps, pids, k as nat),
            tree@.height + tree@.lost.len() <= k + 1,
    {
        let mut process = process;
        assert(k < ps.len());
        assert(process == orig[k as int]);
        assert(process@ == ps[k as int]);
        if !all_pids.contains(&process.parent.id) {
            process.parent.id = ROOT_PID;
        }
        assert(process@ == rooted(ps[k as int], pids));
        tree.add_node(process, true);
        k = k + 1;
    }
    tree
}

/// The tree of one application, by name.
pub struct NamedTree {
    pub name: String,
    pub tree: Tree,
}

/// No two entries carry the same name.
pub open spec fn names_unique(v: Seq<NamedTree>) -> bool {
    forall|i: int, j: int|
        0 <= i < v.len() && 0 <= j < v.len() && #[trigger] v[i].name@ == #[trigger] v[j].name@
            ==> i == j
}

/// The entries as a map from application name to tree.
pub open spec fn trees_view(v: Seq<NamedTree>) -> Map<Seq<char>, TreeView> {
    Map::new(
        |k: Seq<char>| exists|i: int| 0 <= i < v.len() && #[trigger] v[i].name@ == k,
        |k: Seq<char>| v[choose|i: int| 0 <= i < v.len() && #[trigger] v[i].name@ == k].tree@,
    )
}

/// What the application shows of the observer: the connection status, the
/// node name, and the process tree of each application.
pub struct Session {
    pub connection_status: ConnectionStatus,
    pub node_name_input: String,
    app_trees: Vec<NamedTree>,
}

/// The mathematical value of a [`Session`].
pub struct SessionView {
    pub status: ConnectionStatus,
    pub node_name: Seq<char>,
    pub trees: Map<Seq<char>, TreeView>,
}

impl View for Session {
    type V = SessionView;

    closed spec fn view(&self) -> SessionView {
        SessionView {
            status: self.connection_status,
            node_name: self.node_name_input@,
            trees: trees_view(self.app_trees@),
        }
    }
}

/// What an observer event does to the session, and whether the trees changed.
pub open spec fn apply_event_spec(s: SessionView, e: EventView) -> (SessionView, bool) {
    match e {
        EventView::Connected(node) => (
            SessionView { status: ConnectionStatus::Connected, node_name: node, trees: Map::empty() },
            true,
        ),
        EventView::Disconnected => (SessionView { status: ConnectionStatus::Disconnected, ..s }, false),
        EventView::ApplicationList(_) => (s, false),
        EventView::ApplicationTree(m) => (
            SessionView {
                trees: s.trees.insert(m.application, snapshot_tree_spec(m.processes)),
                ..s
            },
            true,
        ),
    }
}

impl Session {
    /// The well-formedness of a session: application names are unique and
    /// every tree is well formed.
    pub closed spec fn wf(&self) -> bool {
        &&& names_unique(self.app_trees@)
        &&& forall|i: int| 0 <= i < self.app_trees@.len() ==> (#[trigger] self.app_trees@[i]).tree.wf()
    }

    /// A disconnected session with no trees and an empty node name.
    pub fn new() -> (s: Session)
        ensures
            s.wf(),
            s@ == (SessionView {
                status: ConnectionStatus::Disconnected,
                node_name: Seq::empty(),
                trees: Map::empty(),
            }),
    {
        let s = Session {
            connection_status: ConnectionStatus::Disconnected,
            node_name_input: String::new(),
            app_trees: Vec::new(),
        };
        assert(s@.trees =~= Map::empty());
        s
    }

    /// The trees of the applications, each under its name.
    pub fn app_trees(&self) -> (v: &Vec<NamedTree>)
        requires
            self.wf(),
        ensures
            trees_view(v@) == self@.trees,
            names_unique(v@),
            forall|i: int| 0 <= i < v@.len() ==> (#[trigger] v@[i]).tree.wf(),
    {
        &self.app_trees
    }

    /// Starts switching to another node: connecting, with no trees.
    pub fn begin_switch(&mut self)
        ensures
            final(self).wf(),
            final(self)@ == (SessionView {
                status: ConnectionStatus::Connecting,
                trees: Map::empty(),
                ..old(self)@
            }),
    {
        self.connection_status = ConnectionStatus::Connecting;
        self.app_trees = Vec::new();
        assert(self@.trees =~= Map::empty());
    }

    /// Puts `tree` under `name`, replacing the tree held under that name.
    fn put_tree(&mut self, name: String, tree: Tree)
        requires
            old(self).wf(),
            tree.wf(),
        ensures
            final(self).wf(),
            final(self)@ == (SessionView { trees: old(self)@.trees.insert(name@, tree@), ..old(self)@ }),
    {
        let ghost v0 = self.app_trees@;
        let n = self.app_trees.len();
        let mut i: usize = 0;
        while i < n && self.app_trees[i].name != name
            invariant
                n == self.app_trees@.len(),
                i <= n,
                self.app_trees@ == v0,
                forall|j: int| 0 <= j < i ==> self.app_trees@[j].name@ != name@,
            decreases n - i,
        {
            i = i + 1;
        }
        let ghost nv = name@;
        let ghost tv = tree@;
        if i < n {
            self.app_trees[i] = NamedTree { name, tree };
            proof {
                let v1 = self.app_trees@;
                assert(v0[i as int].name@ == nv);
                assert(names_unique(v1)) by {
                    assert forall|a: int, b: int|
                        0 <= a < v1.len() && 0 <= b < v1.len() && #[trigger] v1[a].name@
                            == #[trigger] v1[b].name@ implies a == b by {
                        assert(v1[a].name@ == v0[a].name@);
                        assert(v1[b].name@ == v0[b].name@);
                    }
                }
                assert(trees_view(v1) =~= trees_view(v0).insert(nv, tv)) by {
                    assert forall|k: Seq<char>| #![auto] trees_view(v1).contains_key(k)
                        == trees_view(v0).insert(nv, tv).contains_key(k) by {
                        if trees_view(v0).contains_key(k) {
                            let j = choose|j: int| 0 <= j < v0.len() && #[trigger] v0[j].name@ == k;
                            assert(v1[j].name@ == k);
                        }
                        if k == nv {
                            assert(v1[i as int].name@ == k);
                        }
                        if trees_view(v1).contains_key(k) {
                            let j = choose|j: int| 0 <= j < v1.len() && #[trigger] v1[j].name@ == k;
                            assert(v0[j].name@ == k);
                        }
                    }
                    assert forall|k: Seq<char>| #[trigger] trees_view(v1).contains_key(k) implies
                        trees_view(v1)[k] == trees_view(v0).insert(nv, tv)[k] by {
                        let j = choose|j: int| 0 <= j < v1.len() && #[trigger] v1[j].name@ == k;
                        if k == nv {
                            assert(v1[i as int].name@ == k);
                            assert(j == i);
                        } else {
                            assert(v0[j].name@ == k);
                            let j0 = choose|j0: int| 0 <= j0 < v0.len() && #[trigger] v0[j0].name@
                                == k;
                            assert(j0 == j);
                        }
                    }
                }
            }
        } else {
            self.app_trees.push(NamedTree { name, tree });
            proof {
                let v1 = self.app_trees@;
                assert(names_unique(v1)) by {
                    assert forall|a: int, b: int|
                        0 <= a < v1.len() && 0 <= b < v1.len() && #[trigger] v1[a].name@
                            == #[trigger] v1[b].name@ implies a == b by {
                        if a < n as int && b < n as int {
                            assert(v1[a] == v0[a]);
                            assert(v1[b] == v0[b]);
                        } else if a < n as int {
                            assert(v0[a].name@ != nv);
                        } else if b < n as int {
                            assert(v0[b].name@ != nv);
                        }
                    }
                }
                assert(trees_view(v1) =~= trees_view(v0).insert(nv, tv)) by {
                    assert forall|k: Seq<char>| #![auto] trees_view(v1).contains_key(k)
                        == trees_view(v0).insert(nv, tv).contains_key(k) by {
                        if trees_view(v0).contains_key(k) {
                            let j = choose|j: int| 0 <= j < v0.len() && #[trigger] v0[j].name@ == k;
                            assert(v1[j].name@ == k);
                        }
                        if k == nv {
                            assert(v1[n as int].name@ == k);
                        }
                        if trees_view(v1).contains_key(k) && k != nv {
                            let j = choose|j: int| 0 <= j < v1.len() && #[trigger] v1[j].name@ == k;
                            assert(v0[j].name@ == k);
                        }
                    }
                    assert forall|k: Seq<char>| #[trigger] trees_view(v1).contains_key(k) implies
                        trees_view(v1)[k] == trees_view(v0).insert(nv, tv)[k] by {
                        let j = choose|j: int| 0 <= j < v1.len() && #[trigger] v1[j].name@ == k;
                        if k == nv {
                            assert(v1[n as int].name@ == k);
                            assert(j == n);
                        } else {
                            assert(v0[j].name@ == k);
                            let j0 = choose|j0: int| 0 <= j0 < v0.len() && #[trigger] v0[j0].name@
                                == k;
                            assert(v1[j0].name@ == k);
                            assert(j0 == j);
                        }
                    }
                }
            }
        }
    }

    /// Applies an observer event; `true` when the trees changed and the
    /// canvas must be rebuilt.
    pub fn apply_event(&mut self, event: ObserverEvent) -> (changed: bool)
        requires
            old(self).wf(),
            event matches ObserverEvent::ApplicationTree(m) ==> m.processes@.len() < u64::MAX,
        ensures
            final(self).wf(),
            (final(self)@, changed) == apply_event_spec(old(self)@, event@),
            event is ApplicationList ==> final(self)@ == old(self)@ && !changed,
            event is Disconnected ==> final(self)@.trees == old(self)@.trees && final(self)@.node_name
                == old(self)@.node_name && final(self)@.status == ConnectionStatus::Disconnected && !changed,
            event is Connected ==> final(self)@.trees == Map::<Seq<char>, TreeView>::empty()
                && final(self)@.status == ConnectionStatus::Connected && changed,
    {
        match event {
            ObserverEvent::Connected { node } => {
                self.connection_status = ConnectionStatus::Connected;
                self.node_name_input = node;
                self.app_trees = Vec::new();
                assert(self@.trees =~= Map::empty());
                true
            },
            ObserverEvent::Disconnected => {
                self.connection_status = ConnectionStatus::Disconnected;
                false
            },
            ObserverEvent::ApplicationList { .. } => false,
            ObserverEvent::ApplicationTree(msg) => {
                let app_name = msg.application;
                let tree = tree_from_snapshot(msg.processes);
                self.put_tree(app_name, tree);
                true
            },
        }
    }
}


/// Entry `x` of `v` is drawn before entry `y`: its name comes first, or the
/// names are equal and it came first in `v`.
pub open spec fn drawn_before(v: Seq<NamedTree>, x: int, y: int) -> bool {
    chars_lt(v[x].name@, v[y].name@) || (v[x].name@ == v[y].name@ && x < y)
}

/// The order in which the trees are laid out side by side: the indices of
/// `trees`, each once, sorted by name (ties keep their order in `trees`).
pub fn name_order(trees: &Vec<NamedTree>) -> (order: Vec<usize>)
    ensures
        order@.len() == trees@.len(),
        forall|i: int| 0 <= i < order@.len() ==> order@[i] < trees@.len(),
        forall|i: int, j: int| 0 <= i < j < order@.len() ==> order@[i] != order@[j],
        forall|i: int, j: int|
            0 <= i < j < order@.len() ==> drawn_before(trees@, order@[i] as int, order@[j] as int),
{
    let n = trees.len();
    let mut order: Vec<usize> = Vec::new();
    let mut k: usize = 0;
    while k < n
        invariant
            n == trees@.len(),
            k <= n,
            order@.len() == k,
            forall|i: int| 0 <= i < order@.len() ==> order@[i] < k,
            forall|i: int, j: int| 0 <= i < j < order@.len() ==> order@[i] != order@[j],
            forall|i: int, j: int|
                0 <= i < j < order@.len() ==> drawn_before(trees@, order@[i] as int, order@[j] as int),
        decreases n - k,
    {
        let key = trees[k].name.as_str();
        let mut p: usize = 0;
        while p < order.len() && !str_lt(key, trees[order[p]].name.as_str())
            invariant
                n == trees@.len(),
                k < n,
                key@ == trees@[k as int].name@,
                p <= order@.len(),
                order@.len() == k,
                forall|i: int| 0 <= i < order@.len() ==> order@[i] < k,
                forall|q: int| 0 <= q < p ==> !chars_lt(key@, trees@[order@[q] as int].name@),
            decreases order@.len() - p,
        {
            p = p + 1;
        }
        let ghost old_order = order@;
        proof {
            assert forall|q: int| 0 <= q < p implies drawn_before(trees@, old_order[q] as int, k as int) by {
                let a = trees@[old_order[q] as int].name@;
                if a != key@ {
                    lemma_chars_lt_total(a, key@);
                }
            }
            assert forall|q: int| p <= q < old_order.len() implies chars_lt(key@, trees@[old_order[q] as int].name@) by {
                if q > p {
                    let b = trees@[old_order[p as int] as int].name@;
                    let c = trees@[old_order[q] as int].name@;
                    assert(drawn_before(trees@, old_order[p as int] as int, old_order[q] as int));
                    if b != c {
                        lemma_chars_lt_transitive(key@, b, c);
                    }
                }
            }
        }
        order.insert(p, k);
        proof {
            let s = order@;
            assert forall|i: int, j: int| 0 <= i < j < s.len() implies
                drawn_before(trees@, s[i] as int, s[j] as int) by {
                if j < p {
                    assert(s[i] == old_order[i] && s[j] == old_order[j]);
                } else if j == p {
                    assert(s[i] == old_order[i]);
                } else if i == p {
                    assert(s[j] == old_order[j - 1]);
                } else if i < p {
                    assert(s[i] == old_order[i] && s[j] == old_order[j - 1]);
                } else {
                    assert(s[i] == old_order[i - 1] && s[j] == old_order[j - 1]);
                }
            }
            assert forall|i: int, j: int| 0 <= i < j < s.len() implies s[i] != s[j] by {
                if j < p {
                    assert(s[i] == old_order[i] && s[j] == old_order[j]);
                } else if j == p {
                    assert(s[i] == old_order[i]);
                } else if i == p {
                    assert(s[j] == old_order[j - 1]);
                } else if i < p {
                    assert(s[i] == old_order[i] && s[j] == old_order[j - 1]);
                } else {
                    assert(s[i] == old_order[i - 1] && s[j] == old_order[j - 1]);
                }
            }
            assert forall|i: int| 0 <= i < s.len() implies s[i] < k + 1 by {
                if i < p {
                    assert(s[i] == old_order[i]);
                } else if i > p {
                    assert(s[i] == old_order[i - 1]);
                }
            }
        }
        k = k + 1;
    }
    order
}

} // verus!
