use ergo_observer::observer::ObserverEvent;
use ergo_observer::session::{name_order, tree_from_snapshot, ConnectionStatus, NamedTree, Session};
use ergo_observer::text::str_lt;
use ergo_observer::tree::Tree;
use ergo_observer::tree::ROOT_PID;
use ergo_observer::types::{ApplicationTreeMessage, ErgoPid, LogLevel, ProcessShortInfo, ProcessState};

fn process(id: u64, parent: u64) -> ProcessShortInfo {
    let p = |id| ErgoPid { node: "N".to_string(), id, creation: 0 };
    ProcessShortInfo {
        pid: p(id),
        name: format!("p{id}"),
        application: "app".to_string(),
        behavior: "b".to_string(),
        messages_in: 0,
        messages_out: 0,
        messages_mailbox: 0,
        running_time: 0,
        uptime: 0,
        state: ProcessState::Running,
        parent: p(parent),
        leader: p(parent),
        log_level: LogLevel::Info,
    }
}

fn snapshot(app: &str, processes: Vec<ProcessShortInfo>) -> ObserverEvent {
    ObserverEvent::ApplicationTree(ApplicationTreeMessage {
        node: "n".to_string(),
        application: app.to_string(),
        processes,
    })
}

#[test]
fn processes_with_unknown_parents_hang_from_the_root() {
    let t = tree_from_snapshot(vec![process(100, 55), process(101, 100), process(102, 77)]);
    assert_eq!(t.all_processes[&100].parent_id, ROOT_PID);
    assert_eq!(t.all_processes[&102].parent_id, ROOT_PID);
    assert_eq!(t.all_processes[&101].parent_id, 100);
    assert_eq!(t.all_processes[&ROOT_PID].childrens, vec![100, 102]);
    assert_eq!(t.lost_count(), 0);
}

#[test]
fn child_listed_before_parent_is_still_placed() {
    let t = tree_from_snapshot(vec![process(101, 100), process(100, 9)]);
    assert!(t.all_processes.contains_key(&101));
    assert_eq!(t.all_processes[&101].height, 2);
}

#[test]
fn empty_snapshot_gives_the_root_alone() {
    let t = tree_from_snapshot(Vec::new());
    assert_eq!(t.all_processes.len(), 1);
}

#[test]
fn session_events() {
    let mut s = Session::new();
    assert_eq!(s.connection_status, ConnectionStatus::Disconnected);
    assert!(s.apply_event(ObserverEvent::Connected { node: "n1".to_string() }));
    assert_eq!(s.connection_status, ConnectionStatus::Connected);
    assert_eq!(s.node_name_input, "n1");
    assert!(!s.apply_event(ObserverEvent::ApplicationList { applications: vec!["a".to_string()] }));
    assert!(s.apply_event(snapshot("a", vec![process(5, 1)])));
    assert!(s.apply_event(snapshot("b", vec![])));
    assert_eq!(s.app_trees().len(), 2);
    // a new snapshot of "a" replaces its tree
    assert!(s.apply_event(snapshot("a", vec![process(6, 1), process(7, 6)])));
    assert_eq!(s.app_trees().len(), 2);
    let a = s.app_trees().iter().find(|t| t.name == "a").unwrap();
    assert!(a.tree.all_processes.contains_key(&7));
    assert!(!a.tree.all_processes.contains_key(&5));
    // a lost connection keeps the trees
    assert!(!s.apply_event(ObserverEvent::Disconnected));
    assert_eq!(s.connection_status, ConnectionStatus::Disconnected);
    assert_eq!(s.app_trees().len(), 2);
    // a new connection clears them
    assert!(s.apply_event(ObserverEvent::Connected { node: "n2".to_string() }));
    assert!(s.app_trees().is_empty());
}

#[test]
fn switching_clears_trees() {
    let mut s = Session::new();
    s.apply_event(snapshot("a", vec![]));
    s.begin_switch();
    assert_eq!(s.connection_status, ConnectionStatus::Connecting);
    assert!(s.app_trees().is_empty());
}

#[test]
fn status_labels() {
    assert_eq!(ConnectionStatus::Connected.as_str(), "● Connected");
    assert_eq!(ConnectionStatus::Disconnected.as_str(), "● Disconnected");
    assert_eq!(ConnectionStatus::Connecting.as_str(), "◌ Connecting...");
}

#[test]
fn trees_are_laid_out_by_name() {
    let names = ["zeta", "alpha", "mid", "alpha", "Beta"];
    let trees: Vec<NamedTree> = names
        .iter()
        .map(|n| NamedTree { name: n.to_string(), tree: Tree::new() })
        .collect();
    assert_eq!(name_order(&trees), vec![4, 1, 3, 2, 0]);
    assert_eq!(name_order(&Vec::new()), Vec::<usize>::new());
}

#[test]
fn string_order_matches_std() {
    let words = ["", "a", "ab", "b", "B", "ä", "abc", "abd"];
    for x in words {
        for y in words {
            assert_eq!(str_lt(x, y), x < y, "{x:?} < {y:?}");
        }
    }
}
