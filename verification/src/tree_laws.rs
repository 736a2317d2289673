//! Laws of the process tree: what adding processes keeps, and how a process
//! that arrives before its parent is placed once the parent arrives.
use vstd::prelude::*;
use crate::tree::{add_node_spec, attach_spec, new_tree_spec, node_of, view_ok, NodeView, TreeView, ROOT_PID};
use crate::types::ProcessView;

verus! {

/// Adding a process never removes a node or a recorded level, and a process
/// whose parent is in the tree is in the tree, with a level, afterwards.
pub proof fn lemma_add_node_keeps_nodes(v: TreeView, p: ProcessView, traverse: bool)
    requires
        v.lost.dom().finite(),
    ensures
        ({
            let r = add_node_spec(v, p, traverse);
            &&& forall|k: u64| v.procs.contains_key(k) ==> #[trigger] r.procs.contains_key(k)
            &&& forall|k: u64| v.heights.contains_key(k) ==> #[trigger] r.heights.contains_key(k)
            &&& v.heights.contains_key(p.parent.id) ==> r.procs.contains_key(p.pid.id)
                && r.heights.contains_key(p.pid.id)
            &&& r.lost.dom().finite()
        }),
    decreases v.lost.len(),
{
    let t1 = attach_spec(v, p);
    if v.heights.contains_key(p.parent.id) && traverse && t1.lost.contains_key(p.pid.id) {
        let next = t1.lost[p.pid.id];
        let t2 = TreeView { lost: t1.lost.remove(p.pid.id), ..t1 };
        lemma_add_node_keeps_nodes(t2, next, true);
    }
}

/// A process whose parent is not in the tree changes no node: it waits,
/// filed under its parent's pid, replacing any process filed there before.
pub proof fn lemma_add_node_waits(v: TreeView, p: ProcessView, traverse: bool)
    requires
        v.lost.dom().finite(),
        !v.heights.contains_key(p.parent.id),
    ensures
        add_node_spec(v, p, traverse).procs == v.procs,
        add_node_spec(v, p, traverse).heights == v.heights,
        add_node_spec(v, p, traverse).height == v.height,
        add_node_spec(v, p, traverse).lost == v.lost.insert(p.parent.id, p),
{
}

/// Nodes with a pid in `keep` stay in the tree with their parent and their
/// children (more may be added) while processes whose pids are not in
/// `keep` are added, and no waiting process has a pid in `keep`.
proof fn lemma_add_node_keeps_set(v: TreeView, x: ProcessView, traverse: bool, keep: Set<u64>)
    requires
        v.lost.dom().finite(),
        forall|k: u64| #[trigger] v.lost.contains_key(k) ==> v.lost[k].parent.id == k,
        forall|k: u64| #[trigger] v.lost.contains_key(k) ==> !keep.contains(v.lost[k].pid.id),
        forall|s: u64| #[trigger] keep.contains(s) ==> v.procs.contains_key(s),
        !keep.contains(x.pid.id),
    ensures
        ({
            let r = add_node_spec(v, x, traverse);
            forall|s: u64|
                #[trigger] keep.contains(s) ==> {
                    &&& r.procs.contains_key(s)
                    &&& r.procs[s].parent_id == v.procs[s].parent_id
                    &&& r.procs[s] == NodeView { childrens: r.procs[s].childrens, ..v.procs[s] }
                    &&& forall|c: u64| v.procs[s].childrens.contains(c) ==> r.procs[s].childrens.contains(c)
                }
        }),
    decreases v.lost.len(),
{
    if v.heights.contains_key(x.parent.id) {
        let t1 = attach_spec(v, x);
        let pp = x.parent.id;
        assert forall|s: u64| #[trigger] keep.contains(s) implies {
            &&& t1.procs.contains_key(s)
            &&& t1.procs[s].parent_id == v.procs[s].parent_id
            &&& t1.procs[s] == NodeView { childrens: t1.procs[s].childrens, ..v.procs[s] }
            &&& forall|c: u64| v.procs[s].childrens.contains(c) ==> t1.procs[s].childrens.contains(c)
        } by {
            if s == pp {
                assert forall|c: u64| v.procs[s].childrens.contains(c) implies t1.procs[s].childrens.contains(c) by {
                    let j = choose|j: int| 0 <= j < v.procs[s].childrens.len() && v.procs[s].childrens[j] == c;
                    assert(t1.procs[s].childrens[j] == c);
                }
            }
        }
        if traverse && t1.lost.contains_key(x.pid.id) {
            let next = t1.lost[x.pid.id];
            let t2 = TreeView { lost: t1.lost.remove(x.pid.id), ..t1 };
            assert(!keep.contains(next.pid.id));
            lemma_add_node_keeps_set(t2, next, true, keep);
            assert forall|s: u64| #[trigger] keep.contains(s) implies {
                let r = add_node_spec(v, x, traverse);
                &&& r.procs.contains_key(s)
                &&& r.procs[s].parent_id == v.procs[s].parent_id
                &&& r.procs[s] == NodeView { childrens: r.procs[s].childrens, ..v.procs[s] }
                &&& forall|c: u64| v.procs[s].childrens.contains(c) ==> r.procs[s].childrens.contains(c)
            } by {
                assert(t2.procs[s] == t1.procs[s]);
            }
        }
    }
}

/// An attached process becomes a node that carries its summary unchanged:
/// its pid, its parent, its name and behavior, its message counts, running
/// time, uptime, state and log level, one level below its parent. This holds
/// with or without traversal, as long as no waiting process has its pid.
pub proof fn lemma_attached_node_fields(v: TreeView, p: ProcessView, traverse: bool)
    requires
        v.lost.dom().finite(),
        forall|k: u64| #[trigger] v.lost.contains_key(k) ==> v.lost[k].parent.id == k,
        forall|k: u64| #[trigger] v.lost.contains_key(k) ==> v.lost[k].pid.id != p.pid.id,
        v.heights.contains_key(p.parent.id),
        v.heights[p.parent.id] < u64::MAX,
    ensures
        ({
            let r = add_node_spec(v, p, traverse);
            let n = r.procs[p.pid.id];
            &&& r.procs.contains_key(p.pid.id)
            &&& n.pid == p.pid.id
            &&& n.parent_id == p.parent.id
            &&& n.name == p.name
            &&& n.behavior == p.behavior
            &&& n.messages_in == p.messages_in
            &&& n.messages_out == p.messages_out
            &&& n.messages_mailbox == p.messages_mailbox
            &&& n.running_time == p.running_time
            &&& n.uptime == p.uptime
            &&& n.state == p.state
            &&& n.log_level == p.log_level
            &&& n.height == v.heights[p.parent.id] + 1
        }),
{
    let x = p.pid.id;
    let t1 = attach_spec(v, p);
    assert(t1.procs[x] == node_of(p, v.heights[p.parent.id]));
    if traverse && t1.lost.contains_key(x) {
        let next = t1.lost[x];
        let t2 = TreeView { lost: t1.lost.remove(x), ..t1 };
        let keep = set![x];
        assert(t2.procs.contains_key(x));
        assert(!keep.contains(next.pid.id));
        lemma_add_node_keeps_set(t2, next, true, keep);
        assert(keep.contains(x));
        assert(add_node_spec(v, p, traverse) == add_node_spec(t2, next, true));
    }
}

/// A process that arrives before its parent is placed under that parent
/// when the parent arrives next, with traversal, under a parent that is in
/// the tree: it names the parent and is listed among the parent's children.
/// This holds for every tree meeting the view invariant, as long as the
/// process is not its own parent and no waiting process has the pid of the
/// process or of its parent.
pub proof fn lemma_pending_child_placed(v: TreeView, p: ProcessView, traverse_p: bool, q: ProcessView)
    requires
        view_ok(v),
        !v.heights.contains_key(p.parent.id),
        p.pid.id != p.parent.id,
        q.pid.id == p.parent.id,
        v.heights.contains_key(q.parent.id),
        forall|k: u64|
            #[trigger] v.lost.contains_key(k) ==> v.lost[k].pid.id != p.pid.id && v.lost[k].pid.id
                != q.pid.id,
    ensures
        ({
            let r = add_node_spec(add_node_spec(v, p, traverse_p), q, true);
            &&& r.procs.contains_key(p.pid.id)
            &&& r.procs[p.pid.id].parent_id == q.pid.id
            &&& r.procs.contains_key(q.pid.id)
            &&& r.procs[q.pid.id].childrens.contains(p.pid.id)
        }),
{
    let t1 = add_node_spec(v, p, traverse_p);
    lemma_add_node_waits(v, p, traverse_p);
    assert(t1.lost.dom().finite());
    let a = attach_spec(t1, q);
    assert(a.lost.contains_key(q.pid.id) && a.lost[q.pid.id] == p);
    let t2 = TreeView { lost: a.lost.remove(q.pid.id), ..a };
    assert(t2.heights.contains_key(q.pid.id));
    let b = attach_spec(t2, p);
    assert(b.procs[p.pid.id].parent_id == q.pid.id);
    assert(b.procs[q.pid.id].childrens.last() == p.pid.id);
    assert(b.procs[q.pid.id].childrens.contains(p.pid.id));
    let keep = set![p.pid.id, q.pid.id];
    let r = add_node_spec(t1, q, true);
    assert(r == add_node_spec(t2, p, true));
    if b.lost.contains_key(p.pid.id) {
        let next = b.lost[p.pid.id];
        let t3 = TreeView { lost: b.lost.remove(p.pid.id), ..b };
        assert(t2.lost.len() < t1.lost.len() + 1);
        assert forall|k: u64| #[trigger] t3.lost.contains_key(k) implies !keep.contains(t3.lost[k].pid.id) by {
            assert(v.lost.contains_key(k));
        }
        assert(v.lost.contains_key(p.pid.id));
        assert(!keep.contains(next.pid.id));
        lemma_add_node_keeps_set(t3, next, true, keep);
        assert(r == add_node_spec(t3, next, true));
        assert(keep.contains(p.pid.id) && keep.contains(q.pid.id));
    } else {
        assert(r == b);
    }
}

/// Without traversal, a process whose parent is in the tree becomes that
/// parent's last child, one level below it.
pub proof fn lemma_add_node_attaches(v: TreeView, p: ProcessView)
    requires
        v.lost.dom().finite(),
        v.heights.contains_key(p.parent.id),
        v.heights[p.parent.id] < u64::MAX,
        p.pid.id != p.parent.id,
    ensures
        ({
            let r = add_node_spec(v, p, false);
            &&& r.procs[p.pid.id] == node_of(p, v.heights[p.parent.id])
            &&& r.heights[p.pid.id] == v.heights[p.parent.id] + 1
            &&& r.procs[p.parent.id].childrens == v.procs[p.parent.id].childrens.push(p.pid.id)
            &&& r.lost == v.lost
        }),
{
}

/// When a process whose parent is in the tree is added, the set of waiting
/// processes only shrinks, and with traversal nothing waits for the process
/// just added any more.
pub proof fn lemma_add_node_settles(v: TreeView, p: ProcessView, traverse: bool)
    requires
        v.lost.dom().finite(),
        forall|k: u64| #[trigger] v.lost.contains_key(k) ==> v.lost[k].parent.id == k,
        v.heights.contains_key(p.parent.id),
    ensures
        ({
            let r = add_node_spec(v, p, traverse);
            &&& forall|k: u64| #[trigger] r.lost.contains_key(k) ==> v.lost.contains_key(k)
            &&& traverse ==> !r.lost.contains_key(p.pid.id)
        }),
    decreases v.lost.len(),
{
    let t1 = attach_spec(v, p);
    if traverse && t1.lost.contains_key(p.pid.id) {
        let next = t1.lost[p.pid.id];
        let t2 = TreeView { lost: t1.lost.remove(p.pid.id), ..t1 };
        assert(t2.heights.contains_key(next.parent.id));
        lemma_add_node_settles(t2, next, true);
    }
}

/// A process that arrives before its parent is placed in the tree when the
/// parent arrives (with traversal), provided the parent itself can be
/// attached; both end up in the tree and nothing waits for the parent.
pub proof fn lemma_child_placed_when_parent_arrives(
    v: TreeView,
    child: ProcessView,
    parent: ProcessView,
    traverse_child: bool,
)
    requires
        v.lost.dom().finite(),
        forall|k: u64| #[trigger] v.lost.contains_key(k) ==> v.lost[k].parent.id == k,
        child.parent.id == parent.pid.id,
        !v.heights.contains_key(child.parent.id),
        v.heights.contains_key(parent.parent.id),
    ensures
        ({
            let r = add_node_spec(add_node_spec(v, child, traverse_child), parent, true);
            &&& r.procs.contains_key(child.pid.id)
            &&& r.procs.contains_key(parent.pid.id)
            &&& !r.lost.contains_key(parent.pid.id)
        }),
{
    let t1 = add_node_spec(v, child, traverse_child);
    lemma_add_node_waits(v, child, traverse_child);
    assert(t1.lost.dom().finite());
    assert(forall|k: u64| #[trigger] t1.lost.contains_key(k) ==> t1.lost[k].parent.id == k);
    lemma_add_node_settles(t1, parent, true);
    lemma_add_node_keeps_nodes(t1, parent, true);
    let a = attach_spec(t1, parent);
    assert(a.lost.contains_key(parent.pid.id));
    let t2 = TreeView { lost: a.lost.remove(parent.pid.id), ..a };
    assert(a.lost[parent.pid.id] == child);
    lemma_add_node_keeps_nodes(t2, child, true);
}


/// The parent and child links of a tree agree, levels and heights follow
/// them, and the waiting processes are new: the root is its own parent at
/// level 0; every other node is listed exactly once among its parent's
/// children and sits one level below its parent; every listed child names
/// that parent; the tree's height is the greatest node height; and no two
/// waiting processes, and no waiting process and node, share a pid.
#[verifier::opaque]
pub open spec fn tree_consistent(v: TreeView) -> bool {
    &&& view_ok(v)
    &&& v.procs[ROOT_PID].parent_id == ROOT_PID
    &&& v.procs[ROOT_PID].height == 1
    &&& v.heights[ROOT_PID] == 0
    &&& forall|k: u64|
        #![trigger v.procs[k]]
        v.procs.contains_key(k) && k != ROOT_PID ==> {
            &&& v.procs[v.procs[k].parent_id].childrens.contains(k)
            &&& v.procs[k].height == v.heights[v.procs[k].parent_id] + 1
            &&& v.heights[k] == v.procs[k].height
        }
    &&& forall|k: u64| #[trigger] v.procs.contains_key(k) ==> v.procs[k].childrens.no_duplicates()
    &&& forall|k: u64, i: int|
        #![trigger v.procs[k].childrens[i]]
        v.procs.contains_key(k) && 0 <= i < v.procs[k].childrens.len() ==> {
            &&& v.procs[v.procs[k].childrens[i]].parent_id == k
            &&& v.procs[k].childrens[i] != ROOT_PID
        }
    &&& forall|k: u64| #[trigger] v.procs.contains_key(k) ==> v.procs[k].height <= v.height
    &&& exists|k: u64| #[trigger] v.procs.contains_key(k) && v.procs[k].height == v.height
    &&& forall|k: u64|
        #[trigger] v.lost.contains_key(k) ==> !v.procs.contains_key(v.lost[k].pid.id) && v.lost[k].pid.id
            != ROOT_PID
    &&& forall|a: u64, b: u64|
        #[trigger] v.lost.contains_key(a) && #[trigger] v.lost.contains_key(b) && v.lost[a].pid.id
            == v.lost[b].pid.id ==> a == b
}

/// No node and no waiting process of `v` has the pid of `p`, and `p` is not
/// the root.
pub open spec fn fresh_process(v: TreeView, p: ProcessView) -> bool {
    &&& !v.procs.contains_key(p.pid.id)
    &&& p.pid.id != ROOT_PID
    &&& forall|k: u64| #[trigger] v.lost.contains_key(k) ==> v.lost[k].pid.id != p.pid.id
}

/// A fresh tree is consistent.
pub proof fn lemma_new_tree_consistent()
    ensures
        tree_consistent(new_tree_spec()),
{
    reveal(tree_consistent);
    let v = new_tree_spec();
    assert(v.procs.dom() =~= v.heights.dom());
    assert(v.lost.dom() =~= Set::<u64>::empty());
    assert(v.procs.contains_key(ROOT_PID) && v.procs[ROOT_PID].height == v.height);
    assert(v.procs[ROOT_PID].childrens.no_duplicates());
}

#[verifier::rlimit(80)]
#[verifier::spinoff_prover]
proof fn lemma_attach_consistent(v: TreeView, p: ProcessView)
    requires
        tree_consistent(v),
        fresh_process(v, p),
        v.heights.contains_key(p.parent.id),
        v.height < u64::MAX,
    ensures
        ({
            let r = attach_spec(v, p);
            &&& tree_consistent(r)
            &&& r.height <= v.height + 1
            &&& r.lost == v.lost
            &&& r.procs.contains_key(p.pid.id)
            &&& r.procs[p.pid.id].parent_id == p.parent.id
            &&& forall|k: u64|
                #[trigger] v.procs.contains_key(k) ==> r.procs.contains_key(k) && r.procs[k].parent_id
                    == v.procs[k].parent_id
        }),
{
    reveal(tree_consistent);
    let r = attach_spec(v, p);
    let x = p.pid.id;
    let pp = p.parent.id;
    assert(v.procs.contains_key(pp));
    assert(v.heights[pp] <= v.height);
    assert(r.procs.dom() =~= r.heights.dom());
    assert(r.procs.dom() =~= v.procs.dom().insert(x));
    assert(!v.procs[pp].childrens.contains(x));
    assert forall|k: u64, i: int|
        r.procs.contains_key(k) && 0 <= i < r.procs[k].childrens.len() implies {
            &&& r.procs.contains_key(r.procs[k].childrens[i])
            &&& r.procs[r.procs[k].childrens[i]].parent_id == k
            &&& r.procs[k].childrens[i] != ROOT_PID
        } by {
        if k != pp && k != x {
            assert(r.procs[k] == v.procs[k]);
            assert(v.procs.contains_key(v.procs[k].childrens[i]));
        } else if k == pp && i < v.procs[pp].childrens.len() {
            assert(r.procs[k].childrens[i] == v.procs[pp].childrens[i]);
            assert(v.procs.contains_key(v.procs[pp].childrens[i]));
        }
    }
    assert forall|k: u64| #[trigger] r.procs.contains_key(k) implies r.procs[k].childrens.no_duplicates() by {
        if k == pp {
            assert(v.procs[pp].childrens.no_duplicates());
        }
    }
    assert forall|k: u64| r.procs.contains_key(k) && k != ROOT_PID implies {
        &&& r.procs[r.procs[k].parent_id].childrens.contains(k)
        &&& r.procs[k].height == r.heights[r.procs[k].parent_id] + 1
        &&& r.heights[k] == r.procs[k].height
    } by {
        if k == x {
            assert(r.procs[pp].childrens.last() == x);
        } else {
            let par = v.procs[k].parent_id;
            assert(v.procs[v.procs[k].parent_id].childrens.contains(k));
            assert(v.procs.contains_key(par));
            if par == pp {
                let j = choose|j: int| 0 <= j < v.procs[pp].childrens.len() && v.procs[pp].childrens[j] == k;
                assert(r.procs[pp].childrens[j] == k);
            }
        }
    }
    assert forall|k: u64| #[trigger] r.procs.contains_key(k) implies r.procs[k].height <= r.height by {
        if k != x {
            assert(v.procs[k].height <= v.height);
        }
    }
    if r.height == v.height {
        let w = choose|w: u64| #[trigger] v.procs.contains_key(w) && v.procs[w].height == v.height;
        assert(r.procs.contains_key(w) && r.procs[w].height == r.height);
    } else {
        assert(r.procs.contains_key(x) && r.procs[x].height == r.height);
    }
    assert(view_ok(r));
}

/// A consistent tree satisfies the view invariant.
pub proof fn lemma_consistent_view_ok(v: TreeView)
    requires
        tree_consistent(v),
    ensures
        view_ok(v),
{
    reveal(tree_consistent);
}

/// How many times `k` occurs in `s`.
pub open spec fn occurrences(s: Seq<u64>, k: u64) -> nat {
    s.filter(|c: u64| c == k).len()
}

/// In a consistent tree every node but the root is listed exactly once among
/// its parent's children and is one level below it (the root's children at
/// height one), every listed child names that parent, and the tree's height
/// is the greatest node height.
pub proof fn lemma_consistent_links(v: TreeView)
    requires
        tree_consistent(v),
    ensures
        forall|k: u64|
            #![trigger v.procs[k]]
            v.procs.contains_key(k) && k != ROOT_PID ==> {
                &&& v.procs.contains_key(v.procs[k].parent_id)
                &&& occurrences(v.procs[v.procs[k].parent_id].childrens, k) == 1
                &&& v.procs[k].height == 1 + (if v.procs[k].parent_id == ROOT_PID {
                    0
                } else {
                    v.procs[v.procs[k].parent_id].height
                })
            },
        forall|k: u64, i: int|
            #![trigger v.procs[k].childrens[i]]
            v.procs.contains_key(k) && 0 <= i < v.procs[k].childrens.len() ==> v.procs[v.procs[
                k].childrens[i]].parent_id == k,
        forall|k: u64| #[trigger] v.procs.contains_key(k) ==> v.procs[k].height <= v.height,
        exists|k: u64| #[trigger] v.procs.contains_key(k) && v.procs[k].height == v.height,
{
    reveal(tree_consistent);
    assert forall|k: u64| v.procs.contains_key(k) && k != ROOT_PID implies
        #[trigger] occurrences(v.procs[v.procs[k].parent_id].childrens, k) == 1 by {
        let kids = v.procs[v.procs[k].parent_id].childrens;
        assert(v.procs.contains_key(v.procs[k].parent_id));
        assert(kids.no_duplicates());
        assert(kids.contains(k));
        lemma_count_once(kids, k);
    }
    assert forall|k: u64| v.procs.contains_key(k) && k != ROOT_PID implies #[trigger] v.procs[k].height
        == 1 + (if v.procs[k].parent_id == ROOT_PID {
        0
    } else {
        v.procs[v.procs[k].parent_id].height
    }) by {
        let par = v.procs[k].parent_id;
        assert(v.procs.contains_key(par));
        if par != ROOT_PID {
            assert(v.heights[par] == v.procs[par].height);
        }
    }
}

proof fn lemma_count_once(s: Seq<u64>, k: u64)
    requires
        s.no_duplicates(),
        s.contains(k),
    ensures
        occurrences(s, k) == 1,
    decreases s.len(),
{
    reveal(Seq::filter);
    if s.last() == k {
        assert(!s.drop_last().contains(k)) by {
            if s.drop_last().contains(k) {
                let j = choose|j: int| 0 <= j < s.len() - 1 && s.drop_last()[j] == k;
                assert(s[j] == s[s.len() - 1]);
            }
        }
        lemma_count_none(s.drop_last(), k);
    } else {
        let j = choose|j: int| 0 <= j < s.len() && s[j] == k;
        assert(s.drop_last()[j] == k);
        assert(s.drop_last().no_duplicates());
        lemma_count_once(s.drop_last(), k);
    }
}

proof fn lemma_count_none(s: Seq<u64>, k: u64)
    requires
        !s.contains(k),
    ensures
        occurrences(s, k) == 0,
    decreases s.len(),
{
    reveal(Seq::filter);
    if s.len() > 0 {
        assert(s.drop_last().len() < s.len());
        assert(!s.drop_last().contains(k)) by {
            if s.drop_last().contains(k) {
                let j = choose|j: int| 0 <= j < s.len() - 1 && s.drop_last()[j] == k;
                assert(s[j] == k);
            }
        }
        lemma_count_none(s.drop_last(), k);
        assert(s[s.len() - 1] != k);
    }
}

proof fn lemma_take_waiting_consistent(t: TreeView, x: u64)
    requires
        tree_consistent(t),
        t.procs.contains_key(x),
        t.lost.contains_key(x),
    ensures
        tree_consistent(TreeView { lost: t.lost.remove(x), ..t }),
        fresh_process(TreeView { lost: t.lost.remove(x), ..t }, t.lost[x]),
        t.lost[x].parent.id == x,
        t.lost.remove(x).len() == t.lost.len() - 1,
{
    reveal(tree_consistent);
    let t2 = TreeView { lost: t.lost.remove(x), ..t };
    let w = choose|w: u64| #[trigger] t.procs.contains_key(w) && t.procs[w].height == t.height;
    assert(t2.procs.contains_key(w) && t2.procs[w].height == t2.height);
    assert(view_ok(t2));
}

proof fn lemma_wait_consistent(v: TreeView, p: ProcessView)
    requires
        tree_consistent(v),
        fresh_process(v, p),
    ensures
        tree_consistent(TreeView { lost: v.lost.insert(p.parent.id, p), ..v }),
        v.lost.insert(p.parent.id, p).len() <= v.lost.len() + 1,
{
    reveal(tree_consistent);
    let r = TreeView { lost: v.lost.insert(p.parent.id, p), ..v };
    assert forall|a: u64, b: u64|
        #[trigger] r.lost.contains_key(a) && #[trigger] r.lost.contains_key(b) && r.lost[a].pid.id
            == r.lost[b].pid.id implies a == b by {
        if a != p.parent.id && b != p.parent.id {
            assert(v.lost.contains_key(a) && v.lost.contains_key(b));
        }
    }
    let w = choose|w: u64| #[trigger] v.procs.contains_key(w) && v.procs[w].height == v.height;
    assert(r.procs.contains_key(w) && r.procs[w].height == r.height);
    assert(view_ok(r));
}

/// Adding a new process keeps a tree consistent, keeps every node with its
/// parent, and gives the process the parent it names when that parent is in
/// the tree.
pub proof fn lemma_add_node_consistent(v: TreeView, p: ProcessView, traverse: bool)
    requires
        tree_consistent(v),
        fresh_process(v, p),
        v.height + v.lost.len() < u64::MAX,
    ensures
        ({
            let r = add_node_spec(v, p, traverse);
            &&& tree_consistent(r)
            &&& r.height + r.lost.len() <= v.height + v.lost.len() + 1
            &&& forall|k: u64|
                #[trigger] v.procs.contains_key(k) ==> r.procs.contains_key(k) && r.procs[k].parent_id
                    == v.procs[k].parent_id
            &&& v.procs.contains_key(p.parent.id) ==> r.procs.contains_key(p.pid.id)
                && r.procs[p.pid.id].parent_id == p.parent.id
        }),
    decreases v.lost.len(),
{
    lemma_consistent_view_ok(v);
    let x = p.pid.id;
    if v.heights.contains_key(p.parent.id) {
        assert(v.height < u64::MAX);
        lemma_attach_consistent(v, p);
        let t1 = attach_spec(v, p);
        if traverse && t1.lost.contains_key(x) {
            lemma_take_waiting_consistent(t1, x);
            let next = t1.lost[x];
            let t2 = TreeView { lost: t1.lost.remove(x), ..t1 };
            lemma_add_node_consistent(t2, next, true);
        }
    } else {
        lemma_wait_consistent(v, p);
    }
}

/// When pids do not repeat, a process waiting for `q`'s pid is listed among
/// `q`'s children, with `q` as its parent, once `q` arrives with traversal
/// under a parent that is in the tree.
pub proof fn lemma_waiting_child_listed_under_parent(v: TreeView, q: ProcessView)
    requires
        tree_consistent(v),
        fresh_process(v, q),
        v.height + v.lost.len() < u64::MAX,
        v.procs.contains_key(q.parent.id),
        v.lost.contains_key(q.pid.id),
    ensures
        ({
            let r = add_node_spec(v, q, true);
            let c = v.lost[q.pid.id].pid.id;
            &&& r.procs.contains_key(c)
            &&& r.procs[c].parent_id == q.pid.id
            &&& r.procs[q.pid.id].childrens.contains(c)
        }),
{
    lemma_consistent_view_ok(v);
    let x = q.pid.id;
    assert(v.height < u64::MAX);
    lemma_attach_consistent(v, q);
    let t1 = attach_spec(v, q);
    lemma_take_waiting_consistent(t1, x);
    let next = t1.lost[x];
    let t2 = TreeView { lost: t1.lost.remove(x), ..t1 };
    lemma_add_node_consistent(t2, next, true);
    reveal(tree_consistent);
    let r = add_node_spec(v, q, true);
    assert(r == add_node_spec(t2, next, true));
    let c = next.pid.id;
    assert(r.procs.contains_key(c) && c != ROOT_PID);
    assert(r.procs[c].parent_id == x);
}


/// The tree after adding each process of `ps` in turn, each with its
/// traversal flag.
pub open spec fn add_sequence(v: TreeView, ps: Seq<(ProcessView, bool)>) -> TreeView
    decreases ps.len(),
{
    if ps.len() == 0 {
        v
    } else {
        add_node_spec(add_sequence(v, ps.drop_last()), ps.last().0, ps.last().1)
    }
}

/// The processes of `ps` have pairwise different pids, none the root's, and
/// each names as parent the root or a process listed before it.
pub open spec fn parents_listed_first(ps: Seq<(ProcessView, bool)>) -> bool {
    &&& forall|i: int, j: int|
        0 <= i < ps.len() && 0 <= j < ps.len() && #[trigger] ps[i].0.pid.id == #[trigger] ps[j].0.pid.id
            ==> i == j
    &&& forall|i: int| 0 <= i < ps.len() ==> #[trigger] ps[i].0.pid.id != ROOT_PID
    &&& forall|i: int|
        0 <= i < ps.len() ==> #[trigger] ps[i].0.parent.id == ROOT_PID || exists|j: int|
            0 <= j < i && ps[j].0.pid.id == ps[i].0.parent.id
}

/// The pids of the processes of `ps`, with the root's.
pub open spec fn sequence_pids(ps: Seq<(ProcessView, bool)>) -> Set<u64> {
    ps.map_values(|e: (ProcessView, bool)| e.0.pid.id).to_set().insert(ROOT_PID)
}

proof fn lemma_sequence_prefix(ps: Seq<(ProcessView, bool)>, n: int)
    requires
        parents_listed_first(ps),
        0 <= n <= ps.len(),
        ps.len() + 1 < u64::MAX,
    ensures
        ({
            let r = add_sequence(new_tree_spec(), ps.take(n));
            &&& tree_consistent(r)
            &&& r.lost.dom() == Set::<u64>::empty()
            &&& r.height <= n + 1
            &&& r.procs.dom() == sequence_pids(ps.take(n))
            &&& forall|i: int|
                0 <= i < n ==> #[trigger] r.procs[ps[i].0.pid.id].parent_id == ps[i].0.parent.id
        }),
    decreases n,
{
    let r = add_sequence(new_tree_spec(), ps.take(n));
    if n == 0 {
        lemma_new_tree_consistent();
        assert(ps.take(0) =~= Seq::<(ProcessView, bool)>::empty());
        assert(r.lost.dom() =~= Set::<u64>::empty());
        assert(ps.take(0).map_values(|e: (ProcessView, bool)| e.0.pid.id).to_set() =~= Set::<u64>::empty());
        assert(r.procs.dom() =~= sequence_pids(ps.take(0)));
    } else {
        lemma_sequence_prefix(ps, n - 1);
        let prev = add_sequence(new_tree_spec(), ps.take(n - 1));
        assert(ps.take(n).drop_last() =~= ps.take(n - 1));
        let e = ps[n - 1];
        let p = e.0;
        assert(ps.take(n).last() == e);
        assert(r == add_node_spec(prev, p, e.1));
        let prefix_ids = ps.take(n - 1).map_values(|x: (ProcessView, bool)| x.0.pid.id);
        if p.parent.id != ROOT_PID {
            let j = choose|j: int| 0 <= j < n - 1 && ps[j].0.pid.id == p.parent.id;
            assert(prefix_ids[j] == p.parent.id);
            assert(prefix_ids.to_set().contains(p.parent.id));
        }
        assert(prev.procs.contains_key(p.parent.id));
        assert(!prev.procs.contains_key(p.pid.id)) by {
            if prefix_ids.to_set().contains(p.pid.id) {
                let j = choose|j: int| 0 <= j < prefix_ids.len() && prefix_ids[j] == p.pid.id;
                assert(ps[j].0.pid.id == ps[n - 1].0.pid.id);
            }
        }
        assert(prev.lost.len() == 0);
        assert(fresh_process(prev, p));
        lemma_add_node_consistent(prev, p, e.1);
        lemma_attach_consistent(prev, p);
        let t1 = attach_spec(prev, p);
        assert(!t1.lost.contains_key(p.pid.id));
        assert(r == t1);
        assert(r.lost.dom() =~= Set::<u64>::empty());
        let ids = ps.take(n).map_values(|x: (ProcessView, bool)| x.0.pid.id);
        assert(ids =~= prefix_ids.push(p.pid.id));
        prefix_ids.lemma_push_to_set_commute(p.pid.id);
        assert(r.procs.dom() =~= prev.procs.dom().insert(p.pid.id));
        assert(r.procs.dom() =~= sequence_pids(ps.take(n)));
        assert forall|i: int| 0 <= i < n implies #[trigger] r.procs[ps[i].0.pid.id].parent_id
            == ps[i].0.parent.id by {
            if i < n - 1 {
                assert(prefix_ids[i] == ps[i].0.pid.id);
                assert(prev.procs.contains_key(ps[i].0.pid.id));
                assert(prev.procs[ps[i].0.pid.id].parent_id == ps[i].0.parent.id);
            }
        }
    }
}

/// Adding processes to a fresh tree, each after its parent: the tree holds
/// exactly the root and those processes, each under the parent it names,
/// nothing waits, and the tree stays consistent.
pub proof fn lemma_parents_first_sequence(ps: Seq<(ProcessView, bool)>)
    requires
        parents_listed_first(ps),
        ps.len() + 1 < u64::MAX,
    ensures
        ({
            let r = add_sequence(new_tree_spec(), ps);
            &&& tree_consistent(r)
            &&& r.lost.dom() == Set::<u64>::empty()
            &&& r.procs.dom() == sequence_pids(ps)
            &&& forall|i: int|
                0 <= i < ps.len() ==> #[trigger] r.procs[ps[i].0.pid.id].parent_id == ps[i].0.parent.id
        }),
{
    lemma_sequence_prefix(ps, ps.len() as int);
    assert(ps.take(ps.len() as int) =~= ps);
}


/// What adding a process can bring into a tree: a node is an old node, the
/// process itself, or a process that was waiting; a waiting process is one
/// that waited before, or the process itself.
proof fn lemma_add_node_origins(v: TreeView, p: ProcessView, traverse: bool)
    requires
        v.lost.dom().finite(),
        v.procs.dom() == v.heights.dom(),
    ensures
        ({
            let r = add_node_spec(v, p, traverse);
            &&& forall|k: u64|
                #[trigger] r.procs.contains_key(k) ==> v.procs.contains_key(k) || k == p.pid.id || exists|j: u64|
                    v.lost.contains_key(j) && v.lost[j].pid.id == k
            &&& forall|k: u64|
                #[trigger] r.lost.contains_key(k) ==> r.lost[k] == p || exists|j: u64|
                    v.lost.contains_key(j) && v.lost[j] == r.lost[k]
        }),
    decreases v.lost.len(),
{
    if v.heights.contains_key(p.parent.id) {
        let t1 = attach_spec(v, p);
        assert(t1.procs.dom() =~= v.procs.dom().insert(p.pid.id));
        assert(t1.heights.dom() =~= t1.procs.dom());
        if traverse && t1.lost.contains_key(p.pid.id) {
            let next = t1.lost[p.pid.id];
            let t2 = TreeView { lost: t1.lost.remove(p.pid.id), ..t1 };
            lemma_add_node_origins(t2, next, true);
            let r = add_node_spec(v, p, traverse);
            assert(r == add_node_spec(t2, next, true));
            assert forall|k: u64| #[trigger] r.procs.contains_key(k) implies v.procs.contains_key(k)
                || k == p.pid.id || exists|j: u64| v.lost.contains_key(j) && v.lost[j].pid.id == k by {
                if k == next.pid.id {
                    assert(v.lost.contains_key(p.pid.id) && v.lost[p.pid.id].pid.id == k);
                } else if !t2.procs.contains_key(k) {
                    let j = choose|j: u64| t2.lost.contains_key(j) && t2.lost[j].pid.id == k;
                    assert(v.lost.contains_key(j) && v.lost[j].pid.id == k);
                }
            }
            assert forall|k: u64| #[trigger] r.lost.contains_key(k) implies r.lost[k] == p || exists|j: u64|
                v.lost.contains_key(j) && v.lost[j] == r.lost[k] by {
                if r.lost[k] == next {
                    assert(v.lost.contains_key(p.pid.id) && v.lost[p.pid.id] == r.lost[k]);
                } else {
                    let j = choose|j: u64| t2.lost.contains_key(j) && t2.lost[j] == r.lost[k];
                    assert(v.lost.contains_key(j) && v.lost[j] == r.lost[k]);
                }
            }
        }
    }
}

/// The processes of `ps` have pairwise different pids, none the root's.
pub open spec fn distinct_new_pids(ps: Seq<(ProcessView, bool)>) -> bool {
    &&& forall|i: int, j: int|
        0 <= i < ps.len() && 0 <= j < ps.len() && #[trigger] ps[i].0.pid.id == #[trigger] ps[j].0.pid.id
            ==> i == j
    &&& forall|i: int| 0 <= i < ps.len() ==> #[trigger] ps[i].0.pid.id != ROOT_PID
}

proof fn lemma_sequence_consistent_prefix(ps: Seq<(ProcessView, bool)>, n: int)
    requires
        distinct_new_pids(ps),
        0 <= n <= ps.len(),
        ps.len() + 1 < u64::MAX,
    ensures
        ({
            let r = add_sequence(new_tree_spec(), ps.take(n));
            &&& tree_consistent(r)
            &&& r.height + r.lost.len() <= n + 1
            &&& forall|k: u64|
                #[trigger] r.procs.contains_key(k) ==> k == ROOT_PID || exists|i: int|
                    0 <= i < n && ps[i].0.pid.id == k
            &&& forall|k: u64|
                #[trigger] r.lost.contains_key(k) ==> exists|i: int|
                    0 <= i < n && ps[i].0.pid.id == r.lost[k].pid.id
        }),
    decreases n,
{
    let r = add_sequence(new_tree_spec(), ps.take(n));
    if n == 0 {
        lemma_new_tree_consistent();
        assert(ps.take(0) =~= Seq::<(ProcessView, bool)>::empty());
        assert(r.lost.dom() =~= Set::<u64>::empty());
        assert(r.procs.dom() =~= set![ROOT_PID]);
    } else {
        lemma_sequence_consistent_prefix(ps, n - 1);
        let prev = add_sequence(new_tree_spec(), ps.take(n - 1));
        assert(ps.take(n).drop_last() =~= ps.take(n - 1));
        let e = ps[n - 1];
        let p = e.0;
        assert(ps.take(n).last() == e);
        assert(r == add_node_spec(prev, p, e.1));
        lemma_consistent_view_ok(prev);
        assert(!prev.procs.contains_key(p.pid.id)) by {
            if prev.procs.contains_key(p.pid.id) {
                let i = choose|i: int| 0 <= i < n - 1 && ps[i].0.pid.id == p.pid.id;
                assert(ps[i].0.pid.id == ps[n - 1].0.pid.id);
            }
        }
        assert forall|k: u64| #[trigger] prev.lost.contains_key(k) implies prev.lost[k].pid.id != p.pid.id by {
            let i = choose|i: int| 0 <= i < n - 1 && ps[i].0.pid.id == prev.lost[k].pid.id;
            assert(ps[i].0.pid.id != ps[n - 1].0.pid.id);
        }
        assert(fresh_process(prev, p));
        lemma_add_node_consistent(prev, p, e.1);
        lemma_add_node_origins(prev, p, e.1);
        assert forall|k: u64| #[trigger] r.procs.contains_key(k) implies k == ROOT_PID || exists|i: int|
            0 <= i < n && ps[i].0.pid.id == k by {
            if k == p.pid.id {
                assert(ps[n - 1].0.pid.id == k);
            } else if !prev.procs.contains_key(k) {
                let j = choose|j: u64| prev.lost.contains_key(j) && prev.lost[j].pid.id == k;
                let i = choose|i: int| 0 <= i < n - 1 && ps[i].0.pid.id == prev.lost[j].pid.id;
                assert(0 <= i < n && ps[i].0.pid.id == k);
            } else if k != ROOT_PID {
                let i = choose|i: int| 0 <= i < n - 1 && ps[i].0.pid.id == k;
                assert(0 <= i < n && ps[i].0.pid.id == k);
            }
        }
        assert forall|k: u64| #[trigger] r.lost.contains_key(k) implies exists|i: int|
            0 <= i < n && ps[i].0.pid.id == r.lost[k].pid.id by {
            if r.lost[k] == p {
                assert(ps[n - 1].0.pid.id == r.lost[k].pid.id);
            } else {
                let j = choose|j: u64| prev.lost.contains_key(j) && prev.lost[j] == r.lost[k];
                let i = choose|i: int| 0 <= i < n - 1 && ps[i].0.pid.id == prev.lost[j].pid.id;
                assert(0 <= i < n && ps[i].0.pid.id == r.lost[k].pid.id);
            }
        }
    }
}

/// Adding processes with pairwise different pids, none the root's, to a
/// fresh tree, in any order and with any traversal flags, leaves a
/// consistent tree: every node is stored under its own pid; every node but
/// the root names a parent in the tree, is listed exactly once among that
/// parent's children and sits one level below it (the root's children at
/// height one); every listed child names its parent; and the tree's height
/// is the greatest node height.
pub proof fn lemma_sequence_consistent(ps: Seq<(ProcessView, bool)>)
    requires
        distinct_new_pids(ps),
        ps.len() + 1 < u64::MAX,
    ensures
        ({
            let v = add_sequence(new_tree_spec(), ps);
            &&& tree_consistent(v)
            &&& forall|k: u64| #[trigger] v.procs.contains_key(k) ==> v.procs[k].pid == k
            &&& forall|k: u64|
                #![trigger v.procs[k]]
                v.procs.contains_key(k) && k != ROOT_PID ==> {
                    &&& v.procs.contains_key(v.procs[k].parent_id)
                    &&& occurrences(v.procs[v.procs[k].parent_id].childrens, k) == 1
                    &&& v.procs[k].height == 1 + (if v.procs[k].parent_id == ROOT_PID {
                        0
                    } else {
                        v.procs[v.procs[k].parent_id].height
                    })
                }
            &&& forall|k: u64, i: int|
                #![trigger v.procs[k].childrens[i]]
                v.procs.contains_key(k) && 0 <= i < v.procs[k].childrens.len() ==> v.procs.contains_key(
                    v.procs[k].childrens[i],
                ) && v.procs[v.procs[k].childrens[i]].parent_id == k
            &&& forall|k: u64| #[trigger] v.procs.contains_key(k) ==> v.procs[k].height <= v.height
            &&& exists|k: u64| #[trigger] v.procs.contains_key(k) && v.procs[k].height == v.height
        }),
{
    lemma_sequence_consistent_prefix(ps, ps.len() as int);
    assert(ps.take(ps.len() as int) =~= ps);
    let v = add_sequence(new_tree_spec(), ps);
    lemma_consistent_view_ok(v);
    lemma_consistent_links(v);
}

} // verus!
