use ergo_observer::observer::{ObserverCommand, ObserverEvent, ObserverState};
use ergo_observer::types::{LogLevel, ProcessState};

fn handle(st: &mut ObserverState, text: &str) -> Vec<ObserverCommand> {
    st.handle_text(text).expect("ids available")
}

fn running() -> ObserverState {
    let mut st = ObserverState::new();
    handle(&mut st, r#"{"Node":{"Name":"demo@localhost","CRC32":"AB"},"Peers":[],"Version":{}}"#);
    handle(&mut st, r#"{"CID":"1","Result":{}}"#);
    st.drain_events();
    st
}

const PROCESS: &str = r#"{"PID":"<AB.0.5>","Name":"worker","Application":"app","Behavior":"beh",
 "MessagesIn":1,"MessagesOut":2,"MessagesMailbox":3,"RunningTime":4,"Uptime":-5,
 "State":"waitresponse","Parent":"<AB.0.1>","Leader":"<AB.-1.1>","LogLevel":"info","Extra":null}"#;

#[test]
fn intro_frame_sends_connect() {
    let mut st = ObserverState::new();
    let cmds = handle(&mut st, r#"{"Node":{"Name":"demo@localhost"}}"#);
    assert_eq!(cmds.len(), 1);
    match &cmds[0] {
        ObserverCommand::Connect { name, cid } => {
            assert_eq!(name, "demo@localhost");
            assert_eq!(cid, "1");
        }
        _ => panic!("expected connect"),
    }
}

#[test]
fn text_that_is_not_json_changes_nothing() {
    let mut st = ObserverState::new();
    assert!(handle(&mut st, "not json {").is_empty());
    assert!(handle(&mut st, "").is_empty());
    assert_eq!(st.next_cid(), 1);
    // the handshake still starts with the first id
    assert_eq!(handle(&mut st, r#"{"Node":{"Name":"n"}}"#).len(), 1);
}

#[test]
fn node_name_that_is_not_a_string_is_no_intro() {
    let mut st = ObserverState::new();
    assert!(handle(&mut st, r#"{"Node":{"Name":5}}"#).is_empty());
    assert!(handle(&mut st, r#"{"Node":["Name"]}"#).is_empty());
    assert!(handle(&mut st, r#"[1, 2]"#).is_empty());
}

#[test]
fn connect_result_frames() {
    let mut st = ObserverState::new();
    handle(&mut st, r#"{"Node":{"Name":"n"}}"#);
    assert!(handle(&mut st, r#"{"CID":1}"#).is_empty());
    assert!(handle(&mut st, r#"{"CID":"1","Error":"refused"}"#).is_empty());
    assert!(handle(&mut st, r#"{"CID":"1","Event":"x"}"#).is_empty());
    let cmds = handle(&mut st, r#"{"CID":"1","Error":null}"#);
    assert_eq!(cmds.len(), 1);
    assert!(matches!(&cmds[0], ObserverCommand::SubscribeApplicationList { cid } if cid == "2"));
    let events = st.drain_events();
    assert!(matches!(&events[..], [ObserverEvent::Connected { node }] if node == "n"));
}

#[test]
fn application_list_frame_subscribes_in_key_order() {
    let mut st = running();
    let text = r#"{"Event":"inspect_application_list_X","Message":{"Applications":{"zeta":{},"alpha":{}}}}"#;
    let cmds = handle(&mut st, text);
    let names: Vec<(String, String)> = cmds
        .iter()
        .map(|c| match c {
            ObserverCommand::SubscribeApplicationTree { application, cid, limit } => {
                assert_eq!(*limit, 1000);
                (application.clone(), cid.clone())
            }
            _ => panic!("expected subscriptions"),
        })
        .collect();
    assert_eq!(
        names,
        vec![("alpha".to_string(), "3".to_string()), ("zeta".to_string(), "4".to_string())]
    );
    assert!(handle(&mut st, text).is_empty());
    assert_eq!(st.next_cid(), 5);
}

#[test]
fn tree_frame_in_object_form() {
    let mut st = running();
    let text = format!(
        r#"{{"Event":"inspect_application_tree_X","Message":{{"Node":"demo","Application":"app","Processes":[{PROCESS}]}}}}"#
    );
    assert!(handle(&mut st, &text).is_empty());
    let events = st.drain_events();
    assert_eq!(events.len(), 1);
    match &events[0] {
        ObserverEvent::ApplicationTree(m) => {
            assert_eq!(m.node, "demo");
            assert_eq!(m.application, "app");
            assert_eq!(m.processes.len(), 1);
            let p = &m.processes[0];
            assert_eq!(p.pid.id, 5);
            assert_eq!(p.pid.node, "AB");
            assert_eq!(p.name, "worker");
            assert_eq!(p.messages_in, 1);
            assert_eq!(p.messages_mailbox, 3);
            assert_eq!(p.running_time, 4);
            assert_eq!(p.uptime, -5);
            assert_eq!(p.state, ProcessState::WaitResponse);
            assert_eq!(p.parent.id, 1);
            assert_eq!(p.leader.id, 0xFFFF_FFFF_0000_0001);
            assert_eq!(p.log_level, LogLevel::Info);
        }
        _ => panic!("expected a tree"),
    }
}

#[test]
fn tree_frame_in_array_form() {
    let mut st = running();
    let text = r#"{"Event":"inspect_application_tree","Message":["demo","app",[]]}"#;
    handle(&mut st, text);
    let events = st.drain_events();
    assert!(matches!(&events[..], [ObserverEvent::ApplicationTree(m)] if m.application == "app" && m.processes.is_empty()));
    // an array of the wrong length is no snapshot
    handle(&mut st, r#"{"Event":"inspect_application_tree","Message":["demo","app",[],1]}"#);
    assert!(st.drain_events().is_empty());
}

#[test]
fn tree_frame_with_a_bad_field_is_dropped() {
    let mut st = running();
    let bad = [
        PROCESS.replace("\"MessagesIn\":1", "\"MessagesIn\":-1"),
        PROCESS.replace("\"MessagesIn\":1", "\"MessagesIn\":1.5"),
        PROCESS.replace("\"Uptime\":-5", "\"Uptime\":9223372036854775808"),
        PROCESS.replace("\"State\":\"waitresponse\"", "\"State\":\"asleep\""),
        PROCESS.replace("\"LogLevel\":\"info\"", "\"LogLevel\":3"),
        PROCESS.replace("\"<AB.0.5>\"", "\"<AB.5>\""),
        PROCESS.replace("\"Name\":\"worker\",", ""),
    ];
    for p in bad {
        let text = format!(
            r#"{{"Event":"inspect_application_tree","Message":{{"Node":"d","Application":"a","Processes":[{p}]}}}}"#
        );
        assert!(handle(&mut st, &text).is_empty());
        assert!(st.drain_events().is_empty(), "{p}");
    }
    // the largest signed value is accepted
    let ok = PROCESS.replace("\"Uptime\":-5", "\"Uptime\":9223372036854775807");
    let text = format!(
        r#"{{"Event":"inspect_application_tree","Message":{{"Node":"d","Application":"a","Processes":[{ok}]}}}}"#
    );
    handle(&mut st, &text);
    assert_eq!(st.drain_events().len(), 1);
}
