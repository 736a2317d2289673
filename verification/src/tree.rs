//! The process tree of one application, built from process summaries that may
//! arrive before their parents.
use vstd::prelude::*;
use std::collections::HashMap;
use crate::text::{decimal, u64_to_decimal};
use crate::types::{LogLevel, ProcessShortInfo, ProcessState, ProcessView};

verus! {

broadcast use vstd::std_specs::hash::group_hash_axioms;

/// The process id of the synthetic root every tree starts with.
pub const ROOT_PID: u64 = 1;

/// One process of the tree.
pub struct Node {
    pub pid: u64,
    pub parent_id: u64,
    pub childrens: Vec<u64>,
    pub height: u64,
    pub name: String,
    pub behavior: String,
    pub messages_in: u64,
    pub messages_out: u64,
    pub messages_mailbox: u64,
    pub running_time: u64,
    pub uptime: i64,
    pub state: ProcessState,
    pub log_level: LogLevel,
}

/// The mathematical value of a [`Node`].
pub struct NodeView {
    pub pid: u64,
    pub parent_id: u64,
    pub childrens: Seq<u64>,
    pub height: u64,
    pub name: Seq<char>,
    pub behavior: Seq<char>,
    pub messages_in: u64,
    pub messages_out: u64,
    pub messages_mailbox: u64,
    pub running_time: u64,
    pub uptime: i64,
    pub state: ProcessState,
    pub log_level: LogLevel,
}

impl View for Node {
    type V = NodeView;

    open spec fn view(&self) -> NodeView {
        NodeView {
            pid: self.pid,
            parent_id: self.parent_id,
            childrens: self.childrens@,
            height: self.height,
            name: self.name@,
            behavior: self.behavior@,
            messages_in: self.messages_in,
            messages_out: self.messages_out,
            messages_mailbox: self.messages_mailbox,
            running_time: self.running_time,
            uptime: self.uptime,
            state: self.state,
            log_level: self.log_level,
        }
    }
}

/// The node a process summary becomes under a parent at height `parent_height`.
pub open spec fn node_of(p: ProcessView, parent_height: u64) -> NodeView {
    NodeView {
        pid: p.pid.id,
        parent_id: p.parent.id,
        childrens: Seq::empty(),
        height: (parent_height + 1) as u64,
        name: p.name,
        behavior: p.behavior,
        messages_in: p.messages_in,
        messages_out: p.messages_out,
        messages_mailbox: p.messages_mailbox,
        running_time: p.running_time,
        uptime: p.uptime,
        state: p.state,
        log_level: p.log_level,
    }
}

/// The synthetic root node.
pub open spec fn root_node() -> NodeView {
    NodeView {
        pid: ROOT_PID,
        parent_id: ROOT_PID,
        childrens: Seq::empty(),
        height: 1,
        name: Seq::empty(),
        behavior: Seq::empty(),
        messages_in: 0,
        messages_out: 0,
        messages_mailbox: 0,
        running_time: 0,
        uptime: 0,
        state: ProcessState::Running,
        log_level: LogLevel::Info,
    }
}

impl Node {
    fn from_process(process: &ProcessShortInfo, parent_height: u64) -> (node: Node)
        requires
            parent_height < u64::MAX,
        ensures
            node@ == node_of(process@, parent_height),
    {
        Node {
            pid: process.pid.id,
            parent_id: process.parent.id,
            childrens: Vec::new(),
            height: parent_height + 1,
            name: process.name.clone(),
            behavior: process.behavior.clone(),
            messages_in: process.messages_in,
            messages_out: process.messages_out,
            messages_mailbox: process.messages_mailbox,
            running_time: process.running_time,
            uptime: process.uptime,
            state: process.state,
            log_level: process.log_level,
        }
    }
}

impl Default for Node {
    fn default() -> (node: Node)
        ensures
            node@ == root_node(),
    {
        Node {
            pid: ROOT_PID,
            parent_id: ROOT_PID,
            childrens: Vec::new(),
            height: 1,
            name: String::new(),
            behavior: String::new(),
            messages_in: 0,
            messages_out: 0,
            messages_mailbox: 0,
            running_time: 0,
            uptime: 0,
            state: ProcessState::Running,
            log_level: LogLevel::Info,
        }
    }
}

/// The process tree of one application.
pub struct Tree {
    pub all_processes: HashMap<u64, Node>,
    pub height: u64,
    node_pid_height: HashMap<u64, u64>,
    /// level -> parent pid -> the pids attached under that parent at that level
    process_groups_per_level: HashMap<u64, HashMap<u64, Vec<u64>>>,
    /// processes whose parent has not arrived yet, filed under the parent's pid
    lost_nodes_pid_parent_pid: HashMap<u64, ProcessShortInfo>,
    /// arrival stamp of each node; a parent always arrived before its children
    arrival: Ghost<Map<u64, nat>>,
    /// the stamp the next node will get
    clock: Ghost<nat>,
}

/// The mathematical value of a [`Tree`].
pub struct TreeView {
    /// every node, by pid
    pub procs: Map<u64, NodeView>,
    /// the greatest node height so far
    pub height: u64,
    /// the level of every node
    pub heights: Map<u64, u64>,
    /// level -> parent pid -> pids attached there, in arrival order
    pub groups: Map<u64, Map<u64, Seq<u64>>>,
    /// processes that wait for their parent, by the parent's pid
    pub lost: Map<u64, ProcessView>,
}

impl View for Tree {
    type V = TreeView;

    closed spec fn view(&self) -> TreeView {
        TreeView {
            procs: self.all_processes@.map_values(|n: Node| n@),
            height: self.height,
            heights: self.node_pid_height@,
            groups: self.process_groups_per_level@.map_values(
                |m: HashMap<u64, Vec<u64>>| m@.map_values(|v: Vec<u64>| v@),
            ),
            lost: self.lost_nodes_pid_parent_pid@.map_values(|p: ProcessShortInfo| p@),
        }
    }
}

/// The tree a fresh [`Tree`] holds: the root alone, at level 0.
pub open spec fn new_tree_spec() -> TreeView {
    TreeView {
        procs: Map::empty().insert(ROOT_PID, root_node()),
        height: 1,
        heights: Map::empty().insert(ROOT_PID, 0),
        groups: Map::empty().insert(0, Map::empty().insert(ROOT_PID, seq![ROOT_PID])),
        lost: Map::empty(),
    }
}

/// One step of [`Tree::add_node`]: a process whose parent is in the tree is
/// attached under it one level lower; otherwise it waits under its parent's pid.
pub open spec fn attach_spec(t: TreeView, p: ProcessView) -> TreeView {
    let pp = p.parent.id;
    let pid = p.pid.id;
    if t.heights.contains_key(pp) {
        let node = node_of(p, t.heights[pp]);
        let h = node.height;
        let parent = t.procs[pp];
        let level = if t.groups.contains_key(h) {
            t.groups[h]
        } else {
            Map::empty()
        };
        let group = if level.contains_key(pp) {
            level[pp]
        } else {
            Seq::empty()
        };
        TreeView {
            procs: t.procs.insert(pp, NodeView { childrens: parent.childrens.push(pid), ..parent }).insert(
                pid,
                node,
            ),
            height: if h > t.height {
                h
            } else {
                t.height
            },
            heights: t.heights.insert(pid, h),
            groups: t.groups.insert(h, level.insert(pp, group.push(pid))),
            lost: t.lost,
        }
    } else {
        TreeView { lost: t.lost.insert(pp, p), ..t }
    }
}

/// What [`Tree::add_node`] does: attach the process; when `traverse` is set and
/// a process was waiting for the one just attached, attach that one too, and so
/// on down the chain.
pub open spec fn add_node_spec(t: TreeView, p: ProcessView, traverse: bool) -> TreeView
    decreases t.lost.len(),
    when t.lost.dom().finite()
{
    let t1 = attach_spec(t, p);
    if t.heights.contains_key(p.parent.id) && traverse && t1.lost.contains_key(p.pid.id) {
        let next = t1.lost[p.pid.id];
        add_node_spec(TreeView { lost: t1.lost.remove(p.pid.id), ..t1 }, next, true)
    } else {
        t1
    }
}

impl Tree {
    /// The well-formedness of a tree: every node is stored under its own pid,
    /// has a recorded level no greater than the tree's height, and has its
    /// parent and children in the tree; every waiting process is filed under
    /// its parent's pid; and the child relation is acyclic, as a parent
    /// always arrived before each of its children.
    pub closed spec fn wf(&self) -> bool {
        let v = self@;
        &&& v.procs.contains_key(ROOT_PID)
        &&& v.procs.dom() == v.heights.dom()
        &&& v.procs.dom() == self.arrival@.dom()
        &&& v.lost.dom().finite()
        &&& v.procs.dom().finite()
        &&& forall|k: u64| #[trigger] v.procs.contains_key(k) ==> v.procs[k].pid == k
        &&& forall|k: u64| #[trigger] v.procs.contains_key(k) ==> v.procs.contains_key(
            v.procs[k].parent_id,
        )
        &&& forall|k: u64| #[trigger] v.heights.contains_key(k) ==> v.heights[k] <= v.height
        &&& forall|k: u64| #[trigger] v.lost.contains_key(k) ==> v.lost[k].parent.id == k
        &&& forall|k: u64| #[trigger]
            v.procs.contains_key(k) ==> self.arrival@[k] < self.clock@
        &&& forall|k: u64, i: int|
            #![trigger v.procs[k].childrens[i]]
            v.procs.contains_key(k) && 0 <= i < v.procs[k].childrens.len() ==> {
                &&& v.procs.contains_key(v.procs[k].childrens[i])
                &&& self.arrival@[k] < self.arrival@[v.procs[k].childrens[i]]
            }
    }

    /// A tree holding only the synthetic root.
    pub fn new() -> (t: Tree)
        ensures
            t.wf(),
            t@ == new_tree_spec(),
    {
        let root = Node::default();
        let mut root_group_per_level: HashMap<u64, Vec<u64>> = HashMap::new();
        let root_group: Vec<u64> = vec![1];
        assert(root_group@ =~= seq![ROOT_PID]);
        root_group_per_level.insert(root.pid, root_group);
        let ghost inner = root_group_per_level@;
        let mut node_pid_height: HashMap<u64, u64> = HashMap::new();
        node_pid_height.insert(root.pid, 0);
        let mut process_groups_per_level: HashMap<u64, HashMap<u64, Vec<u64>>> = HashMap::new();
        process_groups_per_level.insert(0, root_group_per_level);
        let mut all_processes: HashMap<u64, Node> = HashMap::new();
        all_processes.insert(root.pid, root);
        let t = Tree {
            height: 1,
            node_pid_height,
            process_groups_per_level,
            lost_nodes_pid_parent_pid: HashMap::new(),
            all_processes,
            arrival: Ghost(Map::empty().insert(ROOT_PID, 0nat)),
            clock: Ghost(1nat),
        };
        proof {
            assert(t@.procs =~= new_tree_spec().procs);
            assert(t.process_groups_per_level@[0]@ == inner);
            assert(inner.map_values(|v: Vec<u64>| v@) =~= new_tree_spec().groups[0]);
            assert(t@.groups =~= new_tree_spec().groups);
            assert(t@.heights =~= new_tree_spec().heights);
            assert(t@.lost =~= new_tree_spec().lost);
        }
        t
    }

    /// Files `pid` under `pp` at level `h` in the per-level groups.
    fn record_in_group(&mut self, h: u64, pp: u64, pid: u64)
        ensures
            final(self).all_processes == old(self).all_processes,
            final(self).height == old(self).height,
            final(self).node_pid_height == old(self).node_pid_height,
            final(self).lost_nodes_pid_parent_pid == old(self).lost_nodes_pid_parent_pid,
            final(self).arrival == old(self).arrival,
            final(self).clock == old(self).clock,
            ({
                let groups = old(self)@.groups;
                let level = if groups.contains_key(h) { groups[h] } else { Map::empty() };
                let group = if level.contains_key(pp) { level[pp] } else { Seq::empty() };
                final(self)@.groups == groups.insert(h, level.insert(pp, group.push(pid)))
            }),
    {
        let ghost groups0 = self@.groups;
        if self.process_groups_per_level.contains_key(&h) {
            let mut parent_groups = self.process_groups_per_level.remove(&h).unwrap();
            let ghost level0 = parent_groups@;
            if parent_groups.contains_key(&pp) {
                let mut curr_group = parent_groups.remove(&pp).unwrap();
                curr_group.push(pid);
                parent_groups.insert(pp, curr_group);
            } else {
                let g: Vec<u64> = vec![pid];
                assert(g@ =~= Seq::<u64>::empty().push(pid));
                parent_groups.insert(pp, g);
            }
            proof {
                let lv = level0.map_values(|v: Vec<u64>| v@);
                let grp = if lv.contains_key(pp) { lv[pp] } else { Seq::empty() };
                assert(parent_groups@.map_values(|v: Vec<u64>| v@) =~= lv.insert(pp, grp.push(pid)));
            }
            self.process_groups_per_level.insert(h, parent_groups);
        } else {
            let mut parent_groups: HashMap<u64, Vec<u64>> = HashMap::new();
            let g: Vec<u64> = vec![pid];
            assert(g@ =~= Seq::<u64>::empty().push(pid));
            parent_groups.insert(pp, g);
            proof {
                assert(parent_groups@.map_values(|v: Vec<u64>| v@) =~= Map::<u64, Seq<u64>>::empty().insert(pp, Seq::<u64>::empty().push(pid)));
            }
            self.process_groups_per_level.insert(h, parent_groups);
        }
        proof {
            let level = if groups0.contains_key(h) { groups0[h] } else { Map::empty() };
            let group = if level.contains_key(pp) { level[pp] } else { Seq::empty() };
            assert(self@.groups =~= groups0.insert(h, level.insert(pp, group.push(pid))));
        }
    }

    /// Attaches a process whose parent is in the tree.
    fn attach(&mut self, process: &ProcessShortInfo)
        requires
            old(self).wf(),
            old(self)@.heights.contains_key(process.parent.id),
            old(self)@.height < u64::MAX,
        ensures
            final(self).wf(),
            final(self)@ == attach_spec(old(self)@, process@),
            final(self)@.height <= old(self)@.height + 1,
    {
        let ghost t0 = self@;
        let ghost arrival0 = self.arrival@;
        let pp = process.parent.id;
        let parent_height = *self.node_pid_height.get(&pp).unwrap();
        let node = Node::from_process(process, parent_height);
        let pid = node.pid;
        let h = node.height;
        let mut parent_node = self.all_processes.remove(&pp).unwrap();
        if h > self.height {
            self.height = h;
        }
        self.record_in_group(h, pp, pid);
        parent_node.childrens.push(pid);
        self.all_processes.insert(pp, parent_node);
        self.node_pid_height.insert(pid, h);
        self.all_processes.insert(pid, node);
        self.arrival = Ghost(self.arrival@.insert(pid, self.clock@));
        self.clock = Ghost(self.clock@ + 1);
        proof {
            let tv = attach_spec(t0, process@);
            assert(self@.procs =~= tv.procs);
            assert(self@.heights =~= tv.heights);
            assert(self@ == tv);
            let v = self@;
            assert forall|k: u64, i: int|
                v.procs.contains_key(k) && 0 <= i < v.procs[k].childrens.len() implies {
                    &&& v.procs.contains_key(v.procs[k].childrens[i])
                    &&& self.arrival@[k] < self.arrival@[v.procs[k].childrens[i]]
                } by {
                if k != pid && k != pp {
                    assert(v.procs[k] == t0.procs[k]);
                    assert(t0.procs.contains_key(t0.procs[k].childrens[i]));
                } else if k == pp && k != pid {
                    if i < t0.procs[pp].childrens.len() {
                        assert(v.procs[k].childrens[i] == t0.procs[pp].childrens[i]);
                        assert(t0.procs.contains_key(t0.procs[pp].childrens[i]));
                    }
                }
            }
            assert(v.procs.dom() =~= v.heights.dom());
            assert(v.procs.dom() =~= self.arrival@.dom());
        }
    }

    /// Adds a process to the tree. A process whose parent is already in the
    /// tree is attached under it; otherwise it waits, filed under its parent's
    /// pid, for the parent to arrive. With `traverse`, a process that was
    /// waiting for the one just attached is attached too, and so on.
    ///
    /// Each attachment in such a chain can raise the height by one and takes
    /// one process off the waiting list, so a height plus waiting count below
    /// `u64::MAX` keeps every level of the chain from overflowing.
    pub fn add_node(&mut self, process: ProcessShortInfo, traverse: bool)
        requires
            old(self).wf(),
            old(self)@.height + old(self)@.lost.len() < u64::MAX,
        ensures
            final(self).wf(),
            final(self)@ == add_node_spec(old(self)@, process@, traverse),
            final(self)@.height + final(self)@.lost.len() <= old(self)@.height + old(self)@.lost.len()
                + 1,
        decreases old(self)@.lost.len(),
    {
        let ghost t0 = self@;
        assert(t0.lost.dom().finite());
        let pp = process.parent.id;
        if self.node_pid_height.contains_key(&pp) {
            self.attach(&process);
            assert(self@.lost == t0.lost);
            if traverse {
                let ghost t1 = self@;
                if let Some(lost_process) = self.lost_nodes_pid_parent_pid.remove(&process.pid.id) {
                    proof {
                        assert(self@.lost =~= t1.lost.remove(process.pid.id));
                        assert(self@ == TreeView { lost: t1.lost.remove(process.pid.id), ..t1 });
                        assert(self@.lost.len() < t0.lost.len());
                    }
                    let ghost t2 = self@;
                    self.add_node(lost_process, true);
                    assert(t1 == attach_spec(t0, process@));
                    assert(add_node_spec(t0, process@, traverse) == add_node_spec(t2, lost_process@, true));
                    assert(self@ == add_node_spec(t0, process@, traverse));
                } else {
                    assert(self@.lost =~= t1.lost);
                    assert(self@ == t1);
                    assert(add_node_spec(t0, process@, traverse) == t1);
                    assert(self@ == add_node_spec(t0, process@, traverse));
                }
            } else {
                assert(add_node_spec(t0, process@, traverse) == attach_spec(t0, process@));
                assert(self@ == add_node_spec(t0, process@, traverse));
            }
        } else {
            self.lost_nodes_pid_parent_pid.insert(pp, process);
            proof {
                assert(self@.procs =~= attach_spec(t0, process@).procs);
                assert(self@.lost =~= attach_spec(t0, process@).lost);
                assert(self@ == attach_spec(t0, process@));
                assert(self@ == add_node_spec(t0, process@, traverse));
            }
        }
    }

    /// How many processes wait for their parent.
    pub fn lost_count(&self) -> (n: usize)
        ensures
            n == self@.lost.len(),
    {
        assert(self@.lost.dom() =~= self.lost_nodes_pid_parent_pid@.dom());
        self.lost_nodes_pid_parent_pid.len()
    }

    /// The sibling just before `pid` in its parent's child list; `None` for
    /// the root, for a first child, and for a node its parent does not list.
    pub fn left_sibling(&self, pid: u64) -> (res: Option<u64>)
        requires
            self.wf(),
            self@.procs.contains_key(pid),
        ensures
            res == left_sibling_spec(self@, pid),
    {
        let node = self.all_processes.get(&pid).unwrap();
        if node.parent_id == pid {
            return None;
        }
        let parent = self.all_processes.get(&node.parent_id).unwrap();
        let sibs = &parent.childrens;
        let mut pos: usize = 0;
        while pos < sibs.len() && sibs[pos] != pid
            invariant
                pos <= sibs@.len(),
                forall|j: int| 0 <= j < pos ==> sibs@[j] != pid,
            decreases sibs@.len() - pos,
        {
            pos = pos + 1;
        }
        proof {
            lemma_seq_index_of(sibs@, pid, pos as int);
        }
        if pos == sibs.len() {
            None
        } else if pos == 0 {
            None
        } else {
            Some(sibs[pos - 1])
        }
    }

    /// The first child of `pid`'s parent.
    pub fn leftmost_sibling(&self, pid: u64) -> (res: u64)
        requires
            self.wf(),
            self@.procs.contains_key(pid),
            self@.procs[self@.procs[pid].parent_id].childrens.len() > 0,
        ensures
            res == self@.procs[self@.procs[pid].parent_id].childrens[0],
    {
        let node = self.all_processes.get(&pid).unwrap();
        let parent = self.all_processes.get(&node.parent_id).unwrap();
        parent.childrens[0]
    }

    /// The next node down the left contour of `pid`'s subtree: its first child,
    /// or, for a leaf, the contour thread `thread` the layout keeps for it.
    pub fn next_left(&self, pid: u64, thread: Option<u64>) -> (res: Option<u64>)
        requires
            self.wf(),
            self@.procs.contains_key(pid),
        ensures
            res == (if self@.procs[pid].childrens.len() == 0 {
                thread
            } else {
                Some(self@.procs[pid].childrens[0])
            }),
    {
        let node = self.all_processes.get(&pid).unwrap();
        if node.childrens.len() == 0 {
            thread
        } else {
            Some(node.childrens[0])
        }
    }

    /// The next node down the right contour of `pid`'s subtree: its last child,
    /// or, for a leaf, the contour thread `thread` the layout keeps for it.
    pub fn next_right(&self, pid: u64, thread: Option<u64>) -> (res: Option<u64>)
        requires
            self.wf(),
            self@.procs.contains_key(pid),
        ensures
            res == (if self@.procs[pid].childrens.len() == 0 {
                thread
            } else {
                Some(self@.procs[pid].childrens.last())
            }),
    {
        let node = self.all_processes.get(&pid).unwrap();
        let n = node.childrens.len();
        if n == 0 {
            thread
        } else {
            Some(node.childrens[n - 1])
        }
    }

    /// The subtree responsible for a layout conflict between `v` and the
    /// contour node whose recorded ancestor is `vil_ancestor`: that ancestor
    /// when it is a sibling of `v`, `default_ancestor` otherwise.
    pub fn ancestor(&self, v: u64, default_ancestor: u64, vil_ancestor: u64) -> (res: u64)
        requires
            self.wf(),
            self@.procs.contains_key(v),
            self@.procs.contains_key(vil_ancestor),
        ensures
            res == (if self@.procs[vil_ancestor].parent_id == self@.procs[v].parent_id {
                vil_ancestor
            } else {
                default_ancestor
            }),
    {
        let v_parent = self.all_processes.get(&v).unwrap().parent_id;
        let vil_ancestor_parent = self.all_processes.get(&vil_ancestor).unwrap().parent_id;
        if vil_ancestor_parent == v_parent {
            vil_ancestor
        } else {
            default_ancestor
        }
    }
}

/// The position of the first `x` in `s`, if any.
pub open spec fn seq_index_of(s: Seq<u64>, x: u64) -> Option<nat>
    decreases s.len(),
{
    if s.len() == 0 {
        None
    } else if s[0] == x {
        Some(0)
    } else {
        match seq_index_of(s.skip(1), x) {
            Some(k) => Some(k + 1),
            None => None,
        }
    }
}

proof fn lemma_seq_index_of(s: Seq<u64>, x: u64, k: int)
    requires
        0 <= k <= s.len(),
        forall|j: int| 0 <= j < k ==> s[j] != x,
        k < s.len() ==> s[k] == x,
    ensures
        seq_index_of(s, x) == (if k < s.len() { Some(k as nat) } else { None::<nat> }),
    decreases k,
{
    if k > 0 {
        lemma_seq_index_of(s.skip(1), x, k - 1);
    }
}

/// The sibling just before `pid` among its parent's children.
pub open spec fn left_sibling_spec(v: TreeView, pid: u64) -> Option<u64> {
    let node = v.procs[pid];
    if node.parent_id == pid {
        None
    } else {
        let sibs = v.procs[node.parent_id].childrens;
        match seq_index_of(sibs, pid) {
            None => None,
            Some(k) => if k == 0 {
                None
            } else {
                Some(sibs[k - 1])
            },
        }
    }
}

/// The invariant of a tree, over its view: the root is present; every node
/// is stored under its own pid, has a level no greater than the tree's height,
/// and has its parent and children in the tree; the waiting processes are
/// finitely many and each is filed under its parent's pid; the nodes are
/// finitely many.
pub open spec fn view_ok(v: TreeView) -> bool {
    &&& v.procs.contains_key(ROOT_PID)
    &&& v.procs.dom() == v.heights.dom()
    &&& v.lost.dom().finite()
    &&& v.procs.dom().finite()
    &&& forall|k: u64| #[trigger] v.procs.contains_key(k) ==> v.procs[k].pid == k
    &&& forall|k: u64| #[trigger] v.procs.contains_key(k) ==> v.procs.contains_key(v.procs[k].parent_id)
    &&& forall|k: u64| #[trigger] v.heights.contains_key(k) ==> v.heights[k] <= v.height
    &&& forall|k: u64| #[trigger] v.lost.contains_key(k) ==> v.lost[k].parent.id == k
    &&& forall|k: u64, i: int|
        #![trigger v.procs[k].childrens[i]]
        v.procs.contains_key(k) && 0 <= i < v.procs[k].childrens.len() ==> v.procs.contains_key(
            v.procs[k].childrens[i],
        )
}

/// `rank` stays below `bound` on every node and grows strictly from every
/// node to each of its children.
pub open spec fn rank_fits(v: TreeView, rank: Map<u64, nat>, bound: nat) -> bool {
    &&& forall|k: u64| #[trigger] v.procs.contains_key(k) ==> rank[k] < bound
    &&& forall|k: u64, i: int|
        #![trigger v.procs[k].childrens[i]]
        v.procs.contains_key(k) && 0 <= i < v.procs[k].childrens.len() ==> rank[k] < rank[v.procs[
            k].childrens[i]]
}

/// The child relation is acyclic: some bounded rank grows along every child
/// link, so no process is its own descendant.
pub open spec fn acyclic(v: TreeView) -> bool {
    exists|rank: Map<u64, nat>, bound: nat| #[trigger] rank_fits(v, rank, bound)
}

/// Every well-formed tree satisfies the view invariant and is acyclic.
pub proof fn lemma_wf_view(t: &Tree)
    requires
        t.wf(),
    ensures
        view_ok(t@),
        acyclic(t@),
{
    assert(rank_fits(t@, t.arrival@, t.clock@));
}

/// `s` repeated `n` times.
pub open spec fn repeat_seq(s: Seq<char>, n: nat) -> Seq<char>
    decreases n,
{
    if n == 0 {
        Seq::empty()
    } else {
        repeat_seq(s, (n - 1) as nat) + s
    }
}

/// The line of the tree dump for a node at depth `depth`.
pub open spec fn node_line(n: NodeView, depth: nat) -> Seq<char> {
    repeat_seq("  "@, depth) + "["@ + decimal(depth) + "] pid="@ + decimal(n.pid as nat) + " name="@
        + n.name + " behavior="@ + n.behavior + " parent_id="@ + decimal(n.parent_id as nat) + "\n"@
}

/// A rank and bound that witness the acyclicity of `v`.
pub open spec fn dump_rank(v: TreeView) -> (Map<u64, nat>, nat) {
    choose|r: Map<u64, nat>, b: nat| rank_fits(v, r, b)
}

/// The tree dump below `pid`: its line, then the dump of each child one
/// level deeper, in child order.
pub open spec fn dump_spec(v: TreeView, pid: u64, depth: nat) -> Seq<char>
    decreases dump_rank(v).1 - dump_rank(v).0[pid], 1int, 0int,
    when acyclic(v) && view_ok(v) && v.procs.contains_key(pid)
{
    node_line(v.procs[pid], depth) + dump_children(v, pid, depth, 0)
}

/// The dumps of the children of `pid` from the `i`-th on, one level deeper.
pub open spec fn dump_children(v: TreeView, pid: u64, depth: nat, i: nat) -> Seq<char>
    decreases dump_rank(v).1 - dump_rank(v).0[pid], 0int, v.procs[pid].childrens.len() - i,
    when acyclic(v) && view_ok(v) && v.procs.contains_key(pid)
{
    let kids = v.procs[pid].childrens;
    if i >= kids.len() {
        Seq::empty()
    } else {
        proof {
            let (r, b) = dump_rank(v);
            assert(rank_fits(v, r, b));
            assert(v.procs.contains_key(kids[i as int]));
            assert(r[pid] < r[kids[i as int]]);
        }
        dump_spec(v, kids[i as int], depth + 1) + dump_children(v, pid, depth, i + 1)
    }
}

/// The dump line of `node` at depth `depth`.
fn node_line_string(node: &Node, depth: usize) -> (s: String)
    ensures
        s@ == node_line(node@, depth as nat),
{
    let mut s = String::new();
    let mut k: usize = 0;
    while k < depth
        invariant
            k <= depth,
            s@ == repeat_seq("  "@, k as nat),
        decreases depth - k,
    {
        s.append("  ");
        k = k + 1;
    }
    s.append("[");
    s.append(u64_to_decimal(depth as u64).as_str());
    s.append("] pid=");
    s.append(u64_to_decimal(node.pid).as_str());
    s.append(" name=");
    s.append(node.name.as_str());
    s.append(" behavior=");
    s.append(node.behavior.as_str());
    s.append(" parent_id=");
    s.append(u64_to_decimal(node.parent_id).as_str());
    s.append("\n");
    s
}

impl Tree {
    /// The dump of the subtree below `pid`: one line per node, indented two
    /// spaces per level below `depth`, children in order.
    pub fn fmt_node(&self, pid: u64, depth: usize) -> (s: String)
        requires
            self.wf(),
            self@.procs.contains_key(pid),
            depth + self@.procs.len() <= usize::MAX,
        ensures
            s@ == dump_spec(self@, pid, depth as nat),
    {
        proof {
            lemma_wf_view(self);
        }
        self.fmt_node_below(pid, depth, Ghost(Set::empty()))
    }

    #[verifier::spinoff_prover]
    fn fmt_node_below(&self, pid: u64, depth: usize, Ghost(above): Ghost<Set<u64>>) -> (s: String)
        requires
            self.wf(),
            view_ok(self@),
            acyclic(self@),
            self@.procs.contains_key(pid),
            above.finite(),
            above.subset_of(self@.procs.dom()),
            !above.contains(pid),
            forall|a: u64| #[trigger] above.contains(a) ==> self.arrival@[a] < self.arrival@[pid],
            depth + self@.procs.len() <= usize::MAX + above.len(),
        ensures
            s@ == dump_spec(self@, pid, depth as nat),
        decreases self.clock@ - self.arrival@[pid],
    {
        let ghost v = self@;
        let node = self.all_processes.get(&pid).unwrap();
        let mut s = node_line_string(node, depth);
        let n = node.childrens.len();
        let mut i: usize = 0;
        while i < n
            invariant
                self.wf(),
                view_ok(v),
                acyclic(v),
                v == self@,
                v.procs.contains_key(pid),
                node@ == v.procs[pid],
                n == node.childrens@.len(),
                i <= n,
                above.finite(),
                above.subset_of(v.procs.dom()),
                !above.contains(pid),
                forall|a: u64| #[trigger] above.contains(a) ==> self.arrival@[a] < self.arrival@[pid],
                depth + v.procs.len() <= usize::MAX + above.len(),
                s@ + dump_children(v, pid, depth as nat, i as nat) == dump_spec(v, pid, depth as nat),
            decreases n - i,
        {
            let c = node.childrens[i];
            let ghost above2 = above.insert(pid);
            proof {
                assert(v.procs[pid].childrens[i as int] == c);
                assert(v.procs.contains_key(c));
                assert(self.arrival@[pid] < self.arrival@[c]);
                assert(!above2.contains(c));
                vstd::set_lib::lemma_len_subset(above2.insert(c), v.procs.dom());
                assert(above2.insert(c).len() == above.len() + 2);
            }
            let sub = self.fmt_node_below(c, depth + 1, Ghost(above2));
            proof {
                assert(dump_children(v, pid, depth as nat, i as nat) == dump_spec(v, c, (depth + 1) as nat)
                    + dump_children(v, pid, depth as nat, (i + 1) as nat));
                assert((s@ + sub@) + dump_children(v, pid, depth as nat, (i + 1) as nat) =~= s@
                    + dump_children(v, pid, depth as nat, i as nat));
            }
            s.append(sub.as_str());
            i = i + 1;
        }
        proof {
            assert(s@ + dump_children(v, pid, depth as nat, n as nat) =~= s@);
        }
        s
    }
}


/// `q` lists the members of `s`, each once, in increasing order.
pub open spec fn lists_in_order(q: Seq<u64>, s: Set<u64>) -> bool {
    &&& forall|i: int, j: int| 0 <= i < j < q.len() ==> q[i] < q[j]
    &&& q.to_set() == s
}

/// The members of a finite set of numbers, in increasing order.
pub open spec fn in_order(s: Set<u64>) -> Seq<u64> {
    choose|q: Seq<u64>| lists_in_order(q, s)
}

proof fn lemma_lists_in_order_unique(a: Seq<u64>, b: Seq<u64>, s: Set<u64>)
    requires
        lists_in_order(a, s),
        lists_in_order(b, s),
    ensures
        a == b,
    decreases a.len(),
{
    if a.len() == 0 {
        if b.len() > 0 {
            assert(b.to_set().contains(b[0]));
        }
        assert(a =~= b);
    } else if b.len() == 0 {
        assert(a.to_set().contains(a[0]));
    } else {
        assert(a.to_set().contains(a[0]));
        assert(b.to_set().contains(b[0]));
        let i = choose|i: int| 0 <= i < a.len() && a[i] == b[0];
        let j = choose|j: int| 0 <= j < b.len() && b[j] == a[0];
        assert(a[0] <= a[i]);
        assert(b[0] <= b[j]);
        let x = a[0];
        let s2 = s.remove(x);
        assert forall|k: u64| a.drop_first().to_set().contains(k) == s2.contains(k) by {
            if a.drop_first().to_set().contains(k) {
                let m = choose|m: int| 0 <= m < a.drop_first().len() && a.drop_first()[m] == k;
                assert(a[m + 1] == k);
                assert(a.to_set().contains(k));
            }
            if s2.contains(k) {
                assert(a.to_set().contains(k));
                let m = choose|m: int| 0 <= m < a.len() && a[m] == k;
                assert(m != 0);
                assert(a.drop_first()[m - 1] == k);
            }
        }
        assert forall|k: u64| b.drop_first().to_set().contains(k) == s2.contains(k) by {
            if b.drop_first().to_set().contains(k) {
                let m = choose|m: int| 0 <= m < b.drop_first().len() && b.drop_first()[m] == k;
                assert(b[m + 1] == k);
                assert(b.to_set().contains(k));
            }
            if s2.contains(k) {
                assert(b.to_set().contains(k));
                let m = choose|m: int| 0 <= m < b.len() && b[m] == k;
                assert(m != 0);
                assert(b.drop_first()[m - 1] == k);
            }
        }
        assert(a.drop_first().to_set() =~= s2);
        assert(b.drop_first().to_set() =~= s2);
        lemma_lists_in_order_unique(a.drop_first(), b.drop_first(), s2);
        assert(a =~= seq![x] + a.drop_first());
        assert(b =~= seq![x] + b.drop_first());
    }
}

proof fn lemma_in_order(q: Seq<u64>, s: Set<u64>)
    requires
        lists_in_order(q, s),
    ensures
        in_order(s) == q,
{
    lemma_lists_in_order_unique(in_order(s), q, s);
}

/// The keys of `m`, in increasing order.
fn sorted_keys<V>(m: &HashMap<u64, V>) -> (q: Vec<u64>)
    ensures
        lists_in_order(q@, m@.dom()),
{
    let mut q: Vec<u64> = Vec::new();
    for k in it: m.keys()
        invariant
            forall|i: int, j: int| 0 <= i < j < q@.len() ==> q@[i] < q@[j],
            q@.to_set() == it.seq().take(it.index()).unref().to_set(),
            it.seq().unref().to_set() == m@.dom(),
            it.index() == it.seq().len() ==> q@.to_set() == m@.dom(),
        ensures
            forall|i: int, j: int| 0 <= i < j < q@.len() ==> q@[i] < q@[j],
            q@.to_set() == m@.dom(),
    {
        let key: u64 = *k;
        let ghost before = q@;
        let mut p: usize = 0;
        while p < q.len() && q[p] < key
            invariant
                q@ == before,
                p <= q@.len(),
                forall|i: int| 0 <= i < p ==> q@[i] < key,
            decreases q@.len() - p,
        {
            p = p + 1;
        }
        proof {
            let done = it.seq().take(it.index()).unref();
            let next = it.seq().take(it.index() + 1).unref();
            assert(next =~= done.push(key));
            done.lemma_push_to_set_commute(key);
            assert(it.index() + 1 == it.seq().len() ==> it.seq().take(it.index() + 1) =~= it.seq());
        }
        if p < q.len() && q[p] == key {
            proof {
                assert(before.to_set().contains(key));
                assert(before.to_set().insert(key) =~= before.to_set());
            }
        } else {
            q.insert(p, key);
            proof {
                assert(q@ =~= before.take(p as int).push(key) + before.skip(p as int));
                assert forall|x: u64| q@.to_set().contains(x) == before.to_set().insert(key).contains(x) by {
                    if q@.to_set().contains(x) {
                        let i = choose|i: int| 0 <= i < q@.len() && q@[i] == x;
                        if i < p {
                            assert(before[i] == x);
                        } else if i > p {
                            assert(before[i - 1] == x);
                        }
                    }
                    if before.to_set().contains(x) {
                        let i = choose|i: int| 0 <= i < before.len() && before[i] == x;
                        if i < p {
                            assert(q@[i] == x);
                        } else {
                            assert(q@[i + 1] == x);
                        }
                    }
                    if x == key {
                        assert(q@[p as int] == key);
                    }
                }
                assert(q@.to_set() =~= before.to_set().insert(key));
            }
        }
    }
    q
}


/// The numbers of `q` in decimal, separated by `, `.
pub open spec fn items_text(q: Seq<u64>) -> Seq<char>
    decreases q.len(),
{
    if q.len() == 0 {
        Seq::empty()
    } else if q.len() == 1 {
        decimal(q[0] as nat)
    } else {
        items_text(q.drop_last()) + ", "@ + decimal(q.last() as nat)
    }
}

/// `[a, b, c]`: a list of numbers as the debug format writes it.
pub open spec fn list_text(q: Seq<u64>) -> Seq<char> {
    "["@ + items_text(q) + "]"@
}

/// `p -> [..]; ` for each parent pid of `ps`, with the pids grouped under it.
pub open spec fn groups_text(ps: Seq<u64>, level: Map<u64, Seq<u64>>) -> Seq<char>
    decreases ps.len(),
{
    if ps.len() == 0 {
        Seq::empty()
    } else {
        groups_text(ps.drop_last(), level) + decimal(ps.last() as nat) + " -> "@ + list_text(
            level[ps.last()],
        ) + "; "@
    }
}

/// One line `Level l: ...` for each level of `ls`, its parents in increasing order.
pub open spec fn levels_text(ls: Seq<u64>, groups: Map<u64, Map<u64, Seq<u64>>>) -> Seq<char>
    decreases ls.len(),
{
    if ls.len() == 0 {
        Seq::empty()
    } else {
        let l = ls.last();
        levels_text(ls.drop_last(), groups) + "Level "@ + decimal(l as nat) + ": "@ + groups_text(
            in_order(groups[l].dom()),
            groups[l],
        ) + "\n"@
    }
}

/// The debug text of a tree: its height, the groups of each level, the pids
/// whose processes wait for them, then the dump of the whole tree from the
/// root. Levels, parents and waiting pids come in increasing order.
pub open spec fn debug_text(v: TreeView) -> Seq<char> {
    "Tree (height: "@ + decimal(v.height as nat) + ")\n"@ + levels_text(in_order(v.groups.dom()), v.groups)
        + "Lost nodes: "@ + list_text(in_order(v.lost.dom())) + "\n"@ + dump_spec(v, ROOT_PID, 0)
}

/// `[a, b, c]` for the numbers of `v`.
fn list_string(v: &Vec<u64>) -> (s: String)
    ensures
        s@ == list_text(v@),
{
    let mut s = String::from_str("[");
    let mut i: usize = 0;
    while i < v.len()
        invariant
            i <= v@.len(),
            s@ == "["@ + items_text(v@.take(i as int)),
        decreases v@.len() - i,
    {
        proof {
            assert(v@.take(i + 1).drop_last() =~= v@.take(i as int));
        }
        if i > 0 {
            s.append(", ");
        }
        s.append(u64_to_decimal(v[i]).as_str());
        i = i + 1;
    }
    proof {
        assert(v@.take(v@.len() as int) =~= v@);
    }
    s.append("]");
    s
}

impl Tree {
    /// The debug text of the tree, as [`debug_text`] describes it.
    pub fn debug_string(&self) -> (s: String)
        requires
            self.wf(),
        ensures
            s@ == debug_text(self@),
    {
        let ghost v = self@;
        let mut s = String::from_str("Tree (height: ");
        s.append(u64_to_decimal(self.height).as_str());
        s.append(")\n");
        let levels = sorted_keys(&self.process_groups_per_level);
        proof {
            assert(v.groups.dom() =~= self.process_groups_per_level@.dom());
            lemma_in_order(levels@, v.groups.dom());
        }
        let ghost head = s@;
        let mut i: usize = 0;
        while i < levels.len()
            invariant
                v == self@,
                i <= levels@.len(),
                forall|k: int| 0 <= k < levels@.len() ==> v.groups.contains_key(#[trigger] levels@[k]),
                s@ == head + levels_text(levels@.take(i as int), v.groups),
            decreases levels@.len() - i,
        {
            let l = levels[i];
            assert(v.groups.contains_key(levels@[i as int]));
            let level = self.process_groups_per_level.get(&l).unwrap();
            let ghost lv = v.groups[l];
            assert(lv == level@.map_values(|g: Vec<u64>| g@));
            let parents = sorted_keys(level);
            proof {
                assert(lv.dom() =~= level@.dom());
                lemma_in_order(parents@, lv.dom());
                assert(levels@.take(i + 1).drop_last() =~= levels@.take(i as int));
            }
            s.append("Level ");
            s.append(u64_to_decimal(l).as_str());
            s.append(": ");
            let ghost line_head = s@;
            let mut j: usize = 0;
            while j < parents.len()
                invariant
                    lv == level@.map_values(|g: Vec<u64>| g@),
                    j <= parents@.len(),
                    forall|k: int| 0 <= k < parents@.len() ==> level@.contains_key(#[trigger] parents@[k]),
                    s@ == line_head + groups_text(parents@.take(j as int), lv),
                decreases parents@.len() - j,
            {
                let p = parents[j];
                assert(level@.contains_key(parents@[j as int]));
                let group = level.get(&p).unwrap();
                proof {
                    assert(parents@.take(j + 1).drop_last() =~= parents@.take(j as int));
                    assert(group@ == lv[p]);
                }
                s.append(u64_to_decimal(p).as_str());
                s.append(" -> ");
                s.append(list_string(group).as_str());
                s.append("; ");
                j = j + 1;
            }
            proof {
                assert(parents@.take(parents@.len() as int) =~= parents@);
            }
            s.append("\n");
            i = i + 1;
        }
        proof {
            assert(levels@.take(levels@.len() as int) =~= levels@);
        }
        s.append("Lost nodes: ");
        let lost = sorted_keys(&self.lost_nodes_pid_parent_pid);
        proof {
            assert(v.lost.dom() =~= self.lost_nodes_pid_parent_pid@.dom());
            lemma_in_order(lost@, v.lost.dom());
        }
        s.append(list_string(&lost).as_str());
        s.append("\n");
        let n = self.all_processes.len();
        proof {
            assert(v.procs.dom() =~= self.all_processes@.dom());
            assert(v.procs.len() == n);
        }
        let dump = self.fmt_node(ROOT_PID, 0);
        s.append(dump.as_str());
        s
    }
}

} // verus!
