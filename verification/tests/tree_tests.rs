use ergo_observer::tree::{Tree, ROOT_PID};
use ergo_observer::types::{ErgoPid, LogLevel, ProcessShortInfo, ProcessState};

fn pid(id: u64) -> ErgoPid {
    ErgoPid { node: "N".to_string(), id, creation: 0 }
}

fn process(id: u64, parent: u64, name: &str) -> ProcessShortInfo {
    ProcessShortInfo {
        pid: pid(id),
        name: name.to_string(),
        application: "app".to_string(),
        behavior: "beh".to_string(),
        messages_in: 3,
        messages_out: 4,
        messages_mailbox: 5,
        running_time: 6,
        uptime: 7,
        state: ProcessState::Sleep,
        parent: pid(parent),
        leader: pid(parent),
        log_level: LogLevel::Debug,
    }
}

#[test]
fn new_tree_holds_only_the_root() {
    let t = Tree::new();
    assert_eq!(t.all_processes.len(), 1);
    assert_eq!(t.height, 1);
    let root = &t.all_processes[&ROOT_PID];
    assert_eq!(root.pid, ROOT_PID);
    assert_eq!(root.parent_id, ROOT_PID);
    assert!(root.childrens.is_empty());
    assert_eq!(t.lost_count(), 0);
}

#[test]
fn child_of_root_is_attached_one_level_down() {
    let mut t = Tree::new();
    t.add_node(process(10, ROOT_PID, "a"), false);
    let n = &t.all_processes[&10];
    assert_eq!(n.parent_id, ROOT_PID);
    assert_eq!(n.height, 1);
    assert_eq!(n.name, "a");
    assert_eq!(n.behavior, "beh");
    assert_eq!(n.messages_in, 3);
    assert_eq!(n.state, ProcessState::Sleep);
    assert_eq!(n.log_level, LogLevel::Debug);
    assert_eq!(t.all_processes[&ROOT_PID].childrens, vec![10]);
    assert_eq!(t.height, 1);
}

#[test]
fn grandchild_raises_height() {
    let mut t = Tree::new();
    t.add_node(process(10, ROOT_PID, "a"), true);
    t.add_node(process(11, 10, "b"), true);
    assert_eq!(t.all_processes[&11].height, 2);
    assert_eq!(t.height, 2);
    assert_eq!(t.all_processes[&10].childrens, vec![11]);
}

#[test]
fn process_before_parent_waits_then_is_placed() {
    let mut t = Tree::new();
    t.add_node(process(11, 10, "child"), true);
    assert!(!t.all_processes.contains_key(&11));
    assert_eq!(t.lost_count(), 1);
    t.add_node(process(10, ROOT_PID, "parent"), true);
    assert!(t.all_processes.contains_key(&10));
    assert!(t.all_processes.contains_key(&11));
    assert_eq!(t.all_processes[&10].childrens, vec![11]);
    assert_eq!(t.lost_count(), 0);
}

#[test]
fn chain_of_waiting_processes_is_placed_in_one_call() {
    let mut t = Tree::new();
    t.add_node(process(13, 12, "c"), true);
    t.add_node(process(12, 11, "b"), true);
    t.add_node(process(11, 10, "a"), true);
    assert_eq!(t.lost_count(), 3);
    t.add_node(process(10, ROOT_PID, "top"), true);
    assert_eq!(t.lost_count(), 0);
    for id in [10, 11, 12, 13] {
        assert!(t.all_processes.contains_key(&id));
    }
    assert_eq!(t.height, 4);
}

#[test]
fn without_traverse_the_waiting_child_stays_waiting() {
    let mut t = Tree::new();
    t.add_node(process(11, 10, "child"), true);
    t.add_node(process(10, ROOT_PID, "parent"), false);
    assert!(!t.all_processes.contains_key(&11));
    assert_eq!(t.lost_count(), 1);
}

#[test]
fn two_waiting_siblings_keep_only_the_last() {
    let mut t = Tree::new();
    t.add_node(process(11, 10, "first"), true);
    t.add_node(process(12, 10, "second"), true);
    assert_eq!(t.lost_count(), 1);
    t.add_node(process(10, ROOT_PID, "parent"), true);
    assert!(!t.all_processes.contains_key(&11));
    assert!(t.all_processes.contains_key(&12));
}

#[test]
fn siblings_and_contours() {
    let mut t = Tree::new();
    t.add_node(process(10, ROOT_PID, "a"), true);
    t.add_node(process(20, ROOT_PID, "b"), true);
    t.add_node(process(30, ROOT_PID, "c"), true);
    t.add_node(process(21, 20, "b1"), true);
    t.add_node(process(22, 20, "b2"), true);
    assert_eq!(t.left_sibling(ROOT_PID), None);
    assert_eq!(t.left_sibling(10), None);
    assert_eq!(t.left_sibling(20), Some(10));
    assert_eq!(t.left_sibling(30), Some(20));
    assert_eq!(t.leftmost_sibling(30), 10);
    assert_eq!(t.leftmost_sibling(22), 21);
    assert_eq!(t.next_left(20, Some(99)), Some(21));
    assert_eq!(t.next_right(20, Some(99)), Some(22));
    assert_eq!(t.next_left(10, Some(99)), Some(99));
    assert_eq!(t.next_right(10, None), None);
    assert_eq!(t.ancestor(30, 7, 20), 20);
    assert_eq!(t.ancestor(30, 7, 21), 7);
}

#[test]
fn fmt_node_dumps_the_subtree() {
    let mut t = Tree::new();
    t.add_node(process(10, ROOT_PID, "a"), true);
    t.add_node(process(11, 10, "b"), true);
    let s = t.fmt_node(ROOT_PID, 0);
    assert_eq!(
        s,
        "[0] pid=1 name= behavior= parent_id=1\n  [1] pid=10 name=a behavior=beh parent_id=1\n    [2] pid=11 name=b behavior=beh parent_id=10\n"
    );
    assert_eq!(t.fmt_node(11, 3), "      [3] pid=11 name=b behavior=beh parent_id=10\n");
}

#[test]
fn debug_string_lists_levels_lost_pids_and_the_dump() {
    let mut t = Tree::new();
    t.add_node(process(10, ROOT_PID, "a"), true);
    t.add_node(process(12, ROOT_PID, "c"), true);
    t.add_node(process(11, 10, "b"), true);
    t.add_node(process(40, 30, "w"), true);
    t.add_node(process(41, 20, "v"), true);
    let expected = [
        "Tree (height: 2)\n",
        "Level 0: 1 -> [1]; \n",
        "Level 1: 1 -> [10, 12]; \n",
        "Level 2: 10 -> [11]; \n",
        "Lost nodes: [20, 30]\n",
        "[0] pid=1 name= behavior= parent_id=1\n",
        "  [1] pid=10 name=a behavior=beh parent_id=1\n",
        "    [2] pid=11 name=b behavior=beh parent_id=10\n",
        "  [1] pid=12 name=c behavior=beh parent_id=1\n",
    ]
    .join("");
    assert_eq!(t.debug_string(), expected);
}

#[test]
fn parents_first_sequence_lists_each_child_once_under_its_parent() {
    let mut t = Tree::new();
    let order = [(10, ROOT_PID), (11, 10), (12, 10), (13, 11), (14, ROOT_PID)];
    for (i, (id, parent)) in order.iter().enumerate() {
        t.add_node(process(*id, *parent, "p"), i % 2 == 0);
    }
    assert_eq!(t.all_processes.len(), 6);
    assert_eq!(t.lost_count(), 0);
    for (id, parent) in order {
        let n = &t.all_processes[&id];
        assert_eq!(n.parent_id, parent);
        let listed = t.all_processes[&parent].childrens.iter().filter(|c| **c == id).count();
        assert_eq!(listed, 1);
        let parent_height = if parent == ROOT_PID { 0 } else { t.all_processes[&parent].height };
        assert_eq!(n.height, parent_height + 1);
    }
    let max = t.all_processes.values().map(|n| n.height).max().unwrap();
    assert_eq!(t.height, max);
    assert_eq!(t.height, 3);
}

#[test]
fn waiting_child_is_listed_under_its_parent_when_it_arrives() {
    let mut t = Tree::new();
    t.add_node(process(21, 20, "child"), true);
    t.add_node(process(20, ROOT_PID, "parent"), true);
    assert_eq!(t.all_processes[&21].parent_id, 20);
    assert_eq!(t.all_processes[&20].childrens, vec![21]);
    assert_eq!(t.lost_count(), 0);
}

#[test]
fn repeated_pid_in_a_waiting_chain_overwrites_the_node() {
    let mut t = Tree::new();
    t.add_node(process(5, 6, "a"), true);
    t.add_node(process(6, 5, "b"), true);
    t.add_node(process(5, ROOT_PID, "c"), true);
    // 5 is attached under the root, 6 under 5, then the waiting 5 under 6
    assert_eq!(t.all_processes[&5].parent_id, 6);
    assert_eq!(t.all_processes[&5].name, "a");
    assert_eq!(t.all_processes[&6].parent_id, 5);
    assert_eq!(t.all_processes[&6].childrens, vec![5]);
    assert_eq!(t.all_processes[&ROOT_PID].childrens, vec![5]);
}

#[test]
fn any_order_with_distinct_pids_keeps_links_consistent() {
    let mut t = Tree::new();
    let order = [(31, 30, true), (32, 30, false), (30, ROOT_PID, true), (33, 31, false), (34, 40, true)];
    for (id, parent, traverse) in order {
        t.add_node(process(id, parent, "p"), traverse);
    }
    for (pid, n) in &t.all_processes {
        assert_eq!(n.pid, *pid);
        if *pid == ROOT_PID {
            continue;
        }
        let parent = &t.all_processes[&n.parent_id];
        assert_eq!(parent.childrens.iter().filter(|c| **c == *pid).count(), 1);
        let parent_height = if n.parent_id == ROOT_PID { 0 } else { parent.height };
        assert_eq!(n.height, parent_height + 1);
        for c in &n.childrens {
            assert_eq!(t.all_processes[c].parent_id, *pid);
        }
    }
    let max = t.all_processes.values().map(|n| n.height).max().unwrap();
    assert_eq!(t.height, max);
    // 32 replaced 31 as the process waiting for 30, so only 32 was placed;
    // 33 still waits for 31 and 34 for 40
    assert!(t.all_processes.contains_key(&32));
    assert!(!t.all_processes.contains_key(&31));
    assert!(!t.all_processes.contains_key(&33));
    assert!(!t.all_processes.contains_key(&34));
    assert_eq!(t.lost_count(), 2);
}
