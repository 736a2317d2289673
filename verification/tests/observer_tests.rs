use ergo_observer::observer::{IncomingMessage, ObserverCommand, ObserverEvent, ObserverState, TREE_LIMIT};

fn empty() -> IncomingMessage {
    IncomingMessage {
        has_event: false,
        event: String::new(),
        has_cid: false,
        cid: String::new(),
        error: None,
        intro_node_name: None,
        applications: Vec::new(),
        tree: None,
    }
}

fn intro(name: &str) -> IncomingMessage {
    IncomingMessage { intro_node_name: Some(name.to_string()), ..empty() }
}

fn result(cid: &str) -> IncomingMessage {
    IncomingMessage { has_cid: true, cid: cid.to_string(), ..empty() }
}

fn app_list(apps: &[&str]) -> IncomingMessage {
    IncomingMessage {
        has_event: true,
        event: "inspect_application_list_abc".to_string(),
        applications: apps.iter().map(|a| a.to_string()).collect(),
        ..empty()
    }
}

fn connected() -> ObserverState {
    let mut st = ObserverState::new();
    st.handle_message(intro("node@host"));
    st.handle_message(result("1"));
    st.drain_events();
    st
}

#[test]
fn intro_sends_connect_with_first_cid() {
    let mut st = ObserverState::new();
    let cmds = st.handle_message(intro("node@host"));
    assert_eq!(cmds.len(), 1);
    match &cmds[0] {
        ObserverCommand::Connect { name, cid } => {
            assert_eq!(name, "node@host");
            assert_eq!(cid, "1");
        }
        _ => panic!("expected a connect command"),
    }
}

#[test]
fn message_without_node_name_is_ignored_before_intro() {
    let mut st = ObserverState::new();
    assert!(st.handle_message(result("1")).is_empty());
    assert!(st.drain_events().is_empty());
    // the intro still works afterwards with the first id
    let cmds = st.handle_message(intro("n"));
    assert!(matches!(&cmds[0], ObserverCommand::Connect { cid, .. } if cid == "1"));
}

#[test]
fn connect_result_with_other_cid_is_ignored() {
    let mut st = ObserverState::new();
    st.handle_message(intro("n"));
    assert!(st.handle_message(result("2")).is_empty());
    assert!(st.drain_events().is_empty());
}

#[test]
fn connect_result_with_error_is_ignored() {
    let mut st = ObserverState::new();
    st.handle_message(intro("n"));
    let msg = IncomingMessage { error: Some("no such node".to_string()), ..result("1") };
    assert!(st.handle_message(msg).is_empty());
    assert!(st.drain_events().is_empty());
}

#[test]
fn event_during_connect_is_ignored() {
    let mut st = ObserverState::new();
    st.handle_message(intro("n"));
    let msg = IncomingMessage { has_event: true, ..result("1") };
    assert!(st.handle_message(msg).is_empty());
}

#[test]
fn matching_result_connects_and_subscribes_to_the_list() {
    let mut st = ObserverState::new();
    st.handle_message(intro("node@host"));
    let cmds = st.handle_message(result("1"));
    assert_eq!(cmds.len(), 1);
    assert!(matches!(&cmds[0], ObserverCommand::SubscribeApplicationList { cid } if cid == "2"));
    let events = st.drain_events();
    assert_eq!(events.len(), 1);
    assert!(matches!(&events[0], ObserverEvent::Connected { node } if node == "node@host"));
    assert!(st.drain_events().is_empty());
}

#[test]
fn application_list_subscribes_each_new_application_once() {
    let mut st = connected();
    let cmds = st.handle_message(app_list(&["a", "b"]));
    assert_eq!(cmds.len(), 2);
    match (&cmds[0], &cmds[1]) {
        (
            ObserverCommand::SubscribeApplicationTree { application: a0, cid: c0, limit: l0 },
            ObserverCommand::SubscribeApplicationTree { application: a1, cid: c1, limit: l1 },
        ) => {
            assert_eq!((a0.as_str(), c0.as_str(), *l0), ("a", "3", TREE_LIMIT));
            assert_eq!((a1.as_str(), c1.as_str(), *l1), ("b", "4", 1000));
        }
        _ => panic!("expected tree subscriptions"),
    }
    let events = st.drain_events();
    assert!(matches!(&events[0], ObserverEvent::ApplicationList { applications } if applications.len() == 2));
    // the same list again subscribes to nothing new, but is still reported
    assert!(st.handle_message(app_list(&["a", "b"])).is_empty());
    assert_eq!(st.drain_events().len(), 1);
    // a new application gets the next id
    let cmds = st.handle_message(app_list(&["a", "b", "c"]));
    assert_eq!(cmds.len(), 1);
    assert!(matches!(&cmds[0], ObserverCommand::SubscribeApplicationTree { application, cid, .. } if application == "c" && cid == "5"));
}

#[test]
fn empty_application_list_is_not_reported() {
    let mut st = connected();
    assert!(st.handle_message(app_list(&[])).is_empty());
    assert!(st.drain_events().is_empty());
}

#[test]
fn message_without_event_is_ignored_when_running() {
    let mut st = connected();
    let msg = IncomingMessage { applications: vec!["a".to_string()], ..empty() };
    assert!(st.handle_message(msg).is_empty());
    assert!(st.drain_events().is_empty());
}

#[test]
fn tree_event_is_queued_when_it_reads() {
    let mut st = connected();
    let tree = ergo_observer::types::ApplicationTreeMessage {
        node: "n".to_string(),
        application: "app".to_string(),
        processes: Vec::new(),
    };
    let msg = IncomingMessage {
        has_event: true,
        event: "x_inspect_application_tree".to_string(),
        tree: Some(tree),
        ..empty()
    };
    assert!(st.handle_message(msg).is_empty());
    let events = st.drain_events();
    assert!(matches!(&events[0], ObserverEvent::ApplicationTree(m) if m.application == "app"));
    let unreadable = IncomingMessage { has_event: true, event: "inspect_application_tree".to_string(), ..empty() };
    st.handle_message(unreadable);
    assert!(st.drain_events().is_empty());
}

#[test]
fn switch_node_restarts_the_handshake() {
    let mut st = connected();
    st.handle_message(app_list(&["a"]));
    let cmd = st.switch_node("other@host");
    assert!(matches!(&cmd, ObserverCommand::SwitchNode { name, cid } if name == "other@host" && cid == "4"));
    assert!(st.drain_events().is_empty());
    let cmds = st.handle_message(result("4"));
    assert!(matches!(&cmds[0], ObserverCommand::SubscribeApplicationList { cid } if cid == "5"));
    let events = st.drain_events();
    assert!(matches!(&events[0], ObserverEvent::Connected { node } if node == "other@host"));
    // subscriptions were dropped, so "a" is subscribed again
    assert_eq!(st.handle_message(app_list(&["a"])).len(), 1);
}

#[test]
fn lost_connection_is_reported_and_reset_restarts_ids() {
    let mut st = connected();
    st.connection_lost();
    let events = st.drain_events();
    assert!(matches!(events[0], ObserverEvent::Disconnected));
    st.reset_connection();
    let cmds = st.handle_message(intro("n"));
    assert!(matches!(&cmds[0], ObserverCommand::Connect { cid, .. } if cid == "1"));
}

#[test]
fn many_ids_are_written_in_decimal() {
    let mut st = connected();
    let names: Vec<String> = (0..20).map(|i| format!("app{i}")).collect();
    let refs: Vec<&str> = names.iter().map(|s| s.as_str()).collect();
    let cmds = st.handle_message(app_list(&refs));
    assert_eq!(cmds.len(), 20);
    assert!(matches!(&cmds[19], ObserverCommand::SubscribeApplicationTree { cid, .. } if cid == "22"));
    assert!(matches!(&cmds[7], ObserverCommand::SubscribeApplicationTree { cid, .. } if cid == "10"));
}

#[test]
fn ids_needed_counts_the_commands_a_message_sends() {
    let mut st = ObserverState::new();
    assert_eq!(st.ids_needed(&empty()), 0);
    assert_eq!(st.ids_needed(&intro("node@host")), 1);
    st.handle_message(intro("node@host"));
    assert_eq!(st.ids_needed(&result("2")), 0);
    assert_eq!(st.ids_needed(&result("1")), 1);

    let mut st = connected();
    assert_eq!(st.ids_needed(&app_list(&["a", "b"])), 2);
    st.handle_message(app_list(&["a"]));
    assert_eq!(st.ids_needed(&app_list(&["a", "b", "c"])), 2);
    assert_eq!(st.ids_needed(&empty()), 0);
}
