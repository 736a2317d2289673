//! The observer protocol: the decisions a client of an Ergo observer server
//! takes on each message it receives.
//!
//! The client first waits for the server's introduction, then asks to connect
//! to the node it was introduced to and waits for the result carrying the
//! same command id; once connected it subscribes to the application list and,
//! for every application it has not subscribed to yet, to that application's
//! process tree. What it learns is queued as [`ObserverEvent`]s.
use vstd::prelude::*;
use crate::text::{contains_seq, decimal, str_contains, u64_to_decimal};
use crate::types::{ApplicationTreeMessage, SnapshotView};
use crate::json::{
    as_string, field, get_field, get_path, json_of, keys, keys_of, parse_json, str_of, JsonValue, JsonView,
};
use crate::decode::{snapshot_of, snapshot_of_json};

verus! {

broadcast use vstd::string::group_string_axioms;

/// The number of processes the client asks for in each tree subscription.
pub const TREE_LIMIT: u32 = 1000;

/// What the client learned from the server.
pub enum ObserverEvent {
    Connected { node: String },
    ApplicationList { applications: Vec<String> },
    ApplicationTree(ApplicationTreeMessage),
    Disconnected,
}

/// The mathematical value of an [`ObserverEvent`].
pub enum EventView {
    Connected(Seq<char>),
    ApplicationList(Seq<Seq<char>>),
    ApplicationTree(SnapshotView),
    Disconnected,
}

/// The characters of each string of a sequence.
pub open spec fn strings_view(v: Seq<String>) -> Seq<Seq<char>> {
    v.map_values(|s: String| s@)
}

impl View for ObserverEvent {
    type V = EventView;

    open spec fn view(&self) -> EventView {
        match self {
            ObserverEvent::Connected { node } => EventView::Connected(node@),
            ObserverEvent::ApplicationList { applications } => EventView::ApplicationList(
                strings_view(applications@),
            ),
            ObserverEvent::ApplicationTree(m) => EventView::ApplicationTree(m@),
            ObserverEvent::Disconnected => EventView::Disconnected,
        }
    }
}

/// A command for the server.
pub enum ObserverCommand {
    /// Connect to the node the server introduced.
    Connect { name: String, cid: String },
    /// Connect to a node the user asked for (sent with empty arguments).
    SwitchNode { name: String, cid: String },
    /// Subscribe to the list of applications.
    SubscribeApplicationList { cid: String },
    /// Subscribe to the process tree of an application.
    SubscribeApplicationTree { application: String, cid: String, limit: u32 },
}

/// The mathematical value of an [`ObserverCommand`].
pub enum CommandView {
    Connect { name: Seq<char>, cid: Seq<char> },
    SwitchNode { name: Seq<char>, cid: Seq<char> },
    SubscribeApplicationList { cid: Seq<char> },
    SubscribeApplicationTree { application: Seq<char>, cid: Seq<char>, limit: u32 },
}

impl View for ObserverCommand {
    type V = CommandView;

    open spec fn view(&self) -> CommandView {
        match self {
            ObserverCommand::Connect { name, cid } => CommandView::Connect { name: name@, cid: cid@ },
            ObserverCommand::SwitchNode { name, cid } => CommandView::SwitchNode {
                name: name@,
                cid: cid@,
            },
            ObserverCommand::SubscribeApplicationList { cid } => CommandView::SubscribeApplicationList {
                cid: cid@,
            },
            ObserverCommand::SubscribeApplicationTree { application, cid, limit } =>
                CommandView::SubscribeApplicationTree {
                application: application@,
                cid: cid@,
                limit: *limit,
            },
        }
    }
}

/// The views of a sequence of commands.
pub open spec fn commands_view(v: Seq<ObserverCommand>) -> Seq<CommandView> {
    v.map_values(|c: ObserverCommand| c@)
}

/// What the client reads from one message of the server.
pub struct IncomingMessage {
    /// The message has an `Event` field.
    pub has_event: bool,
    /// The `Event` field when it is a string, else empty.
    pub event: String,
    /// The message has a `CID` field.
    pub has_cid: bool,
    /// The `CID` field when it is a string, else empty.
    pub cid: String,
    /// The `Error` field, when it is a string.
    pub error: Option<String>,
    /// The node name of a server introduction (`Node.Name`), when a string.
    pub intro_node_name: Option<String>,
    /// The application names of an application list (`Message.Applications`).
    pub applications: Vec<String>,
    /// The application snapshot in `Message`, when it reads as one.
    pub tree: Option<ApplicationTreeMessage>,
}

/// The mathematical value of an [`IncomingMessage`].
pub struct MessageView {
    pub has_event: bool,
    pub event: Seq<char>,
    pub has_cid: bool,
    pub cid: Seq<char>,
    pub error: Option<Seq<char>>,
    pub intro_node_name: Option<Seq<char>>,
    pub applications: Seq<Seq<char>>,
    pub tree: Option<SnapshotView>,
}

/// The characters of an optional string.
pub open spec fn opt_string_view(o: Option<String>) -> Option<Seq<char>> {
    match o {
        Some(s) => Some(s@),
        None => None,
    }
}

impl View for IncomingMessage {
    type V = MessageView;

    open spec fn view(&self) -> MessageView {
        MessageView {
            has_event: self.has_event,
            event: self.event@,
            has_cid: self.has_cid,
            cid: self.cid@,
            error: opt_string_view(self.error),
            intro_node_name: opt_string_view(self.intro_node_name),
            applications: strings_view(self.applications@),
            tree: match self.tree {
                Some(t) => Some(t@),
                None => None,
            },
        }
    }
}

/// Where the client stands in the protocol.
pub enum Phase {
    WaitingIntro,
    /// Waiting for the result of the connect command with this id.
    WaitingConnectResult(String),
    Running,
}

/// The mathematical value of a [`Phase`].
pub enum PhaseView {
    WaitingIntro,
    WaitingConnectResult(Seq<char>),
    Running,
}

impl View for Phase {
    type V = PhaseView;

    open spec fn view(&self) -> PhaseView {
        match self {
            Phase::WaitingIntro => PhaseView::WaitingIntro,
            Phase::WaitingConnectResult(c) => PhaseView::WaitingConnectResult(c@),
            Phase::Running => PhaseView::Running,
        }
    }
}

/// The protocol state of an observer client.
pub struct ObserverState {
    phase: Phase,
    subscribed_apps: Vec<String>,
    next_cid: u32,
    queued: Vec<ObserverEvent>,
    pending_node_name: String,
}

/// The mathematical value of an [`ObserverState`].
pub struct ObserverView {
    pub phase: PhaseView,
    /// the applications whose trees the client subscribed to
    pub subscribed: Set<Seq<char>>,
    /// the id the next command gets
    pub next_cid: u32,
    /// events not drained yet, oldest first
    pub queued: Seq<EventView>,
    /// the node the client is connecting to
    pub pending: Seq<char>,
}

impl View for ObserverState {
    type V = ObserverView;

    closed spec fn view(&self) -> ObserverView {
        ObserverView {
            phase: self.phase@,
            subscribed: strings_view(self.subscribed_apps@).to_set(),
            next_cid: self.next_cid,
            queued: self.queued@.map_values(|e: ObserverEvent| e@),
            pending: self.pending_node_name@,
        }
    }
}

/// The command id of number `n`.
pub open spec fn cid_of(n: u32) -> Seq<char> {
    decimal(n as nat)
}

/// The applications of `apps` the client has not subscribed to, in order.
pub open spec fn fresh_apps(s: ObserverView, apps: Seq<Seq<char>>) -> Seq<Seq<char>> {
    apps.filter(|a: Seq<char>| !s.subscribed.contains(a))
}

/// Whether a message is the awaited result of the connect command `expected`.
pub open spec fn accepts_connect_result(m: MessageView, expected: Seq<char>) -> bool {
    !m.has_event && m.has_cid && m.cid == expected && m.error is None
}

/// How many command ids handling `m` in state `s` uses.
pub open spec fn cids_used(s: ObserverView, m: MessageView) -> nat {
    match s.phase {
        PhaseView::WaitingIntro => if m.intro_node_name is Some {
            1
        } else {
            0
        },
        PhaseView::WaitingConnectResult(expected) => if accepts_connect_result(m, expected) {
            1
        } else {
            0
        },
        PhaseView::Running => if m.has_event && contains_seq(
            m.event,
            "inspect_application_list"@,
        ) {
            fresh_apps(s, m.applications).len()
        } else {
            0
        },
    }
}

/// What handling message `m` in state `s` leads to: the next state and the
/// commands to send, in order.
pub open spec fn handle_spec(s: ObserverView, m: MessageView) -> (ObserverView, Seq<CommandView>) {
    match s.phase {
        PhaseView::WaitingIntro => match m.intro_node_name {
            Some(name) => (
                ObserverView {
                    pending: name,
                    next_cid: (s.next_cid + 1) as u32,
                    phase: PhaseView::WaitingConnectResult(cid_of(s.next_cid)),
                    ..s
                },
                seq![CommandView::Connect { name, cid: cid_of(s.next_cid) }],
            ),
            None => (s, Seq::empty()),
        },
        PhaseView::WaitingConnectResult(expected) => if accepts_connect_result(m, expected) {
            (
                ObserverView {
                    queued: s.queued.push(EventView::Connected(s.pending)),
                    next_cid: (s.next_cid + 1) as u32,
                    phase: PhaseView::Running,
                    ..s
                },
                seq![CommandView::SubscribeApplicationList { cid: cid_of(s.next_cid) }],
            )
        } else {
            (s, Seq::empty())
        },
        PhaseView::Running => if !m.has_event {
            (s, Seq::empty())
        } else if contains_seq(m.event, "inspect_application_list"@) {
            let fresh = fresh_apps(s, m.applications);
            (
                ObserverView {
                    queued: if m.applications.len() > 0 {
                        s.queued.push(EventView::ApplicationList(m.applications))
                    } else {
                        s.queued
                    },
                    subscribed: s.subscribed.union(m.applications.to_set()),
                    next_cid: (s.next_cid + fresh.len()) as u32,
                    ..s
                },
                Seq::new(
                    fresh.len(),
                    |i: int|
                        CommandView::SubscribeApplicationTree {
                            application: fresh[i],
                            cid: cid_of((s.next_cid + i) as u32),
                            limit: TREE_LIMIT,
                        },
                ),
            )
        } else if contains_seq(m.event, "inspect_application_tree"@) {
            match m.tree {
                Some(t) => (
                    ObserverView { queued: s.queued.push(EventView::ApplicationTree(t)), ..s },
                    Seq::empty(),
                ),
                None => (s, Seq::empty()),
            }
        } else {
            (s, Seq::empty())
        },
    }
}

/// The characters of a string member, or nothing when it is absent or not a string.
pub open spec fn str_or_empty(o: Option<JsonView>) -> Seq<char> {
    match str_of(o) {
        Some(s) => s,
        None => Seq::empty(),
    }
}

/// What the client reads from a server frame holding the JSON value `j`.
pub open spec fn message_of_json(j: JsonView) -> MessageView {
    MessageView {
        has_event: get_field(j, "Event"@) is Some,
        event: str_or_empty(get_field(j, "Event"@)),
        has_cid: get_field(j, "CID"@) is Some,
        cid: str_or_empty(get_field(j, "CID"@)),
        error: str_of(get_field(j, "Error"@)),
        intro_node_name: str_of(get_path(j, "Node"@, "Name"@)),
        applications: keys_of(get_path(j, "Message"@, "Applications"@)),
        tree: match get_field(j, "Message"@) {
            Some(m) => snapshot_of_json(m),
            None => None,
        },
    }
}

/// Reads what the protocol needs out of a server frame.
pub fn incoming_message(v: &JsonValue) -> (m: IncomingMessage)
    ensures
        m@ == message_of_json(v@),
{
    let ev = field(v, "Event");
    let cid = field(v, "CID");
    let intro = match field(v, "Node") {
        Some(n) => field(n, "Name"),
        None => None,
    };
    let msg = field(v, "Message");
    let applications = match msg {
        Some(x) => keys(field(x, "Applications")),
        None => keys(None),
    };
    let tree = match msg {
        Some(x) => snapshot_of(x),
        None => None,
    };
    let event = match as_string(ev) {
        Some(s) => s,
        None => String::new(),
    };
    let cid_text = match as_string(cid) {
        Some(s) => s,
        None => String::new(),
    };
    let m = IncomingMessage {
        has_event: ev.is_some(),
        event,
        has_cid: cid.is_some(),
        cid: cid_text,
        error: as_string(field(v, "Error")),
        intro_node_name: as_string(intro),
        applications,
        tree,
    };
    proof {
        assert(m@.event =~= message_of_json(v@).event);
        assert(m@.cid =~= message_of_json(v@).cid);
    }
    m
}

/// The state of a client that has just opened a connection.
pub open spec fn fresh_connection_spec(s: ObserverView) -> ObserverView {
    ObserverView { phase: PhaseView::WaitingIntro, subscribed: Set::empty(), next_cid: 1, ..s }
}

/// What asking for node `name` leads to: the next state and the command.
pub open spec fn switch_node_spec(s: ObserverView, name: Seq<char>) -> (ObserverView, CommandView) {
    (
        ObserverView {
            phase: PhaseView::WaitingConnectResult(cid_of(s.next_cid)),
            subscribed: Set::empty(),
            next_cid: (s.next_cid + 1) as u32,
            queued: Seq::empty(),
            pending: name,
        },
        CommandView::SwitchNode { name, cid: cid_of(s.next_cid) },
    )
}

/// The decimal command id of `n`.
fn cid_string(n: u32) -> (s: String)
    ensures
        s@ == cid_of(n),
{
    u64_to_decimal(n as u64)
}

/// `true` exactly when `v` holds a string with the characters of `s`.
fn holds_string(v: &Vec<String>, s: &String) -> (res: bool)
    ensures
        res == strings_view(v@).contains(s@),
{
    let mut i: usize = 0;
    while i < v.len()
        invariant
            i <= v@.len(),
            forall|j: int| 0 <= j < i ==> v@[j]@ != s@,
        decreases v@.len() - i,
    {
        if v[i] == *s {
            assert(strings_view(v@)[i as int] == s@);
            return true;
        }
        i = i + 1;
    }
    assert forall|j: int| 0 <= j < strings_view(v@).len() implies strings_view(v@)[j] != s@ by {
        assert(v@[j]@ != s@);
    }
    false
}

impl ObserverState {
    /// A client that has just opened its connection and waits for the
    /// server's introduction.
    pub fn new() -> (st: ObserverState)
        ensures
            st@ == (ObserverView {
                phase: PhaseView::WaitingIntro,
                subscribed: Set::empty(),
                next_cid: 1,
                queued: Seq::empty(),
                pending: Seq::empty(),
            }),
    {
        let st = ObserverState {
            phase: Phase::WaitingIntro,
            subscribed_apps: Vec::new(),
            next_cid: 1,
            queued: Vec::new(),
            pending_node_name: String::new(),
        };
        proof {
            assert(strings_view(st.subscribed_apps@).to_set() =~= Set::empty());
            assert(st@.queued =~= Seq::empty());
        }
        st
    }

    /// The id the next command gets.
    pub fn next_cid(&self) -> (n: u32)
        ensures
            n == self@.next_cid,
    {
        self.next_cid
    }

    /// Forgets the protocol progress of a previous connection after a new
    /// connection was opened.
    pub fn reset_connection(&mut self)
        ensures
            final(self)@ == fresh_connection_spec(old(self)@),
            final(self)@.phase == PhaseView::WaitingIntro,
            final(self)@.subscribed == Set::<Seq<char>>::empty(),
            final(self)@.next_cid == 1,
            final(self)@.queued == old(self)@.queued,
            final(self)@.pending == old(self)@.pending,
    {
        self.phase = Phase::WaitingIntro;
        self.subscribed_apps = Vec::new();
        self.next_cid = 1;
        proof {
            assert(strings_view(self.subscribed_apps@).to_set() =~= Set::empty());
        }
    }

    /// Records that the connection was closed or failed.
    pub fn connection_lost(&mut self)
        ensures
            final(self)@ == (ObserverView {
                queued: old(self)@.queued.push(EventView::Disconnected),
                ..old(self)@
            }),
    {
        self.queued.push(ObserverEvent::Disconnected);
        proof {
            assert(self@.queued =~= old(self)@.queued.push(EventView::Disconnected));
        }
    }

    /// Hands out the queued events, oldest first, and empties the queue.
    pub fn drain_events(&mut self) -> (events: Vec<ObserverEvent>)
        ensures
            events@.map_values(|e: ObserverEvent| e@) == old(self)@.queued,
            final(self)@ == (ObserverView { queued: Seq::empty(), ..old(self)@ }),
    {
        let mut events: Vec<ObserverEvent> = Vec::new();
        std::mem::swap(&mut events, &mut self.queued);
        proof {
            assert(self@.queued =~= Seq::empty());
        }
        events
    }

    /// Asks for another node: drops the subscriptions and queued events and
    /// waits for the result of the returned connect command.
    pub fn switch_node(&mut self, name: &str) -> (cmd: ObserverCommand)
        requires
            old(self)@.next_cid < u32::MAX,
        ensures
            (final(self)@, cmd@) == switch_node_spec(old(self)@, name@),
    {
        let cid = cid_string(self.next_cid);
        self.next_cid = self.next_cid + 1;
        self.pending_node_name = String::from_str(name);
        self.subscribed_apps = Vec::new();
        self.queued = Vec::new();
        let cmd = ObserverCommand::SwitchNode { name: String::from_str(name), cid: cid.clone() };
        self.phase = Phase::WaitingConnectResult(cid);
        proof {
            assert(strings_view(self.subscribed_apps@).to_set() =~= Set::empty());
            assert(self@.queued =~= Seq::empty());
        }
        cmd
    }

    /// Subscribes to the trees of the listed applications not subscribed to
    /// yet, and queues the list itself when it is not empty.
    fn subscribe_trees(&mut self, apps: Vec<String>) -> (cmds: Vec<ObserverCommand>)
        requires
            old(self).next_cid + fresh_apps(old(self)@, strings_view(apps@)).len() <= u32::MAX,
        ensures
            ({
                let s = old(self)@;
                let a = strings_view(apps@);
                let fresh = fresh_apps(s, a);
                &&& final(self)@ == (ObserverView {
                    queued: if a.len() > 0 {
                        s.queued.push(EventView::ApplicationList(a))
                    } else {
                        s.queued
                    },
                    subscribed: s.subscribed.union(a.to_set()),
                    next_cid: (s.next_cid + fresh.len()) as u32,
                    ..s
                })
                &&& commands_view(cmds@) == Seq::new(
                    fresh.len(),
                    |i: int|
                        CommandView::SubscribeApplicationTree {
                            application: fresh[i],
                            cid: cid_of((s.next_cid + i) as u32),
                            limit: TREE_LIMIT,
                        },
                )
            }),
    {
        let ghost s0 = self@;
        let ghost a = strings_view(apps@);
        let ghost pred = |x: Seq<char>| !s0.subscribed.contains(x);
        let mut fresh: Vec<String> = Vec::new();
        let n = apps.len();
        let mut i: usize = 0;
        while i < n
            invariant
                n == apps@.len(),
                i <= n,
                a == strings_view(apps@),
                self@ == s0,
                pred == (|x: Seq<char>| !s0.subscribed.contains(x)),
                strings_view(fresh@) == a.take(i as int).filter(pred),
            decreases n - i,
        {
            proof {
                assert(a.take(i + 1).drop_last() =~= a.take(i as int));
                reveal(Seq::filter);
            }
            let ghost ai = a[i as int];
            assert(a.take(i + 1).last() == ai);
            assert(apps@[i as int]@ == ai);
            if !holds_string(&self.subscribed_apps, &apps[i]) {
                assert(!s0.subscribed.contains(ai));
                assert(pred(ai));
                fresh.push(apps[i].clone());
                proof {
                    assert(strings_view(fresh@) =~= a.take(i as int).filter(pred).push(ai));
                    assert(a.take(i + 1).filter(pred) == a.take(i as int).filter(pred).push(ai));
                }
            } else {
                assert(s0.subscribed.contains(ai));
                assert(!pred(ai));
                assert(a.take(i + 1).filter(pred) == a.take(i as int).filter(pred));
            }
            i = i + 1;
        }
        proof {
            assert(a.take(n as int) =~= a);
            assert(strings_view(fresh@) == fresh_apps(s0, a));
        }
        if apps.len() > 0 {
            self.queued.push(ObserverEvent::ApplicationList { applications: apps });
            proof {
                assert(self@.queued =~= s0.queued.push(EventView::ApplicationList(a)));
            }
        }
        let ghost s1 = self@;
        let ghost fr = strings_view(fresh@);
        let mut cmds: Vec<ObserverCommand> = Vec::new();
        let m = fresh.len();
        let mut k: usize = 0;
        while k < m
            invariant
                m == fresh@.len(),
                k <= m,
                fr == strings_view(fresh@),
                s0.next_cid + m <= u32::MAX,
                self@.next_cid == s0.next_cid + k,
                self@.phase == s1.phase,
                self@.queued == s1.queued,
                self@.pending == s1.pending,
                self@.subscribed == s0.subscribed.union(fr.take(k as int).to_set()),
                commands_view(cmds@) == Seq::new(
                    k as nat,
                    |j: int|
                        CommandView::SubscribeApplicationTree {
                            application: fr[j],
                            cid: cid_of((s0.next_cid + j) as u32),
                            limit: TREE_LIMIT,
                        },
                ),
            decreases m - k,
        {
            let cid = cid_string(self.next_cid);
            assert(cid@ == cid_of((s0.next_cid + k) as u32));
            self.next_cid = self.next_cid + 1;
            let app = fresh[k].clone();
            assert(app@ == fr[k as int]);
            let ghost old_cmds = cmds@;
            cmds.push(
                ObserverCommand::SubscribeApplicationTree {
                    application: app.clone(),
                    cid,
                    limit: TREE_LIMIT,
                },
            );
            let ghost before = strings_view(self.subscribed_apps@);
            if !holds_string(&self.subscribed_apps, &app) {
                self.subscribed_apps.push(app);
                proof {
                    assert(strings_view(self.subscribed_apps@) =~= before + seq![fr[k as int]]);
                    Seq::lemma_to_set_insert_commutes(before, fr[k as int]);
                }
            } else {
                assert(before.to_set().contains(fr[k as int]));
            }
            proof {
                assert(fr.take(k + 1) =~= fr.take(k as int) + seq![fr[k as int]]);
                Seq::lemma_to_set_insert_commutes(fr.take(k as int), fr[k as int]);
                assert(self@.subscribed =~= s0.subscribed.union(fr.take(k + 1).to_set()));
                assert(commands_view(cmds@) =~= commands_view(old_cmds).push(cmds@[k as int]@));
                assert(cmds@[k as int]@ == CommandView::SubscribeApplicationTree {
                    application: fr[k as int],
                    cid: cid_of((s0.next_cid + k) as u32),
                    limit: TREE_LIMIT,
                });
                assert(commands_view(cmds@) =~= Seq::new(
                    (k + 1) as nat,
                    |j: int|
                        CommandView::SubscribeApplicationTree {
                            application: fr[j],
                            cid: cid_of((s0.next_cid + j) as u32),
                            limit: TREE_LIMIT,
                        },
                ));
            }
            k = k + 1;
        }
        proof {
            assert(fr.take(m as int) =~= fr);
            assert forall|x: Seq<char>| #![auto] s0.subscribed.union(fr.to_set()).contains(x)
                == s0.subscribed.union(a.to_set()).contains(x) by {
                if fr.to_set().contains(x) {
                    a.lemma_filter_contains_rev(pred, x);
                    assert(a.contains(x));
                }
                if a.to_set().contains(x) && !s0.subscribed.contains(x) {
                    let j = choose|j: int| 0 <= j < a.len() && a[j] == x;
                    a.lemma_filter_contains(pred, j);
                    assert(fr.contains(x));
                }
            }
            assert(self@.subscribed =~= s0.subscribed.union(a.to_set()));
        }
        cmds
    }

    /// How many command ids handling `msg` would use: the check a caller
    /// makes before [`ObserverState::handle_message`].
    pub fn ids_needed(&self, msg: &IncomingMessage) -> (n: usize)
        ensures
            n == cids_used(self@, msg@),
    {
        match &self.phase {
            Phase::WaitingIntro => if msg.intro_node_name.is_some() {
                1
            } else {
                0
            },
            Phase::WaitingConnectResult(expected) => if !msg.has_event && msg.has_cid && msg.cid
                == *expected && msg.error.is_none() {
                1
            } else {
                0
            },
            Phase::Running => {
                if !(msg.has_event && str_contains(msg.event.as_str(), "inspect_application_list")) {
                    return 0;
                }
                let ghost s0 = self@;
                let ghost a = strings_view(msg.applications@);
                let ghost pred = |x: Seq<char>| !s0.subscribed.contains(x);
                let n = msg.applications.len();
                let mut count: usize = 0;
                let mut i: usize = 0;
                while i < n
                    invariant
                        n == msg.applications@.len(),
                        i <= n,
                        count <= i,
                        a == strings_view(msg.applications@),
                        s0 == self@,
                        pred == (|x: Seq<char>| !s0.subscribed.contains(x)),
                        count == a.take(i as int).filter(pred).len(),
                    decreases n - i,
                {
                    proof {
                        assert(a.take(i + 1).drop_last() =~= a.take(i as int));
                        reveal(Seq::filter);
                    }
                    let ghost ai = a[i as int];
                    assert(a.take(i + 1).last() == ai);
                    assert(msg.applications@[i as int]@ == ai);
                    if !holds_string(&self.subscribed_apps, &msg.applications[i]) {
                        assert(pred(ai));
                        assert(a.take(i + 1).filter(pred) == a.take(i as int).filter(pred).push(ai));
                        count = count + 1;
                    } else {
                        assert(!pred(ai));
                        assert(a.take(i + 1).filter(pred) == a.take(i as int).filter(pred));
                    }
                    i = i + 1;
                }
                proof {
                    assert(a.take(n as int) =~= a);
                }
                count
            },
        }
    }

    /// Handles one text frame of the server: reads it as JSON and handles
    /// the message it holds. A frame that is not JSON changes nothing. When
    /// the command ids would run out, nothing is handled and the result is
    /// `None`.
    pub fn handle_text(&mut self, text: &str) -> (cmds: Option<Vec<ObserverCommand>>)
        ensures
            match json_of(text@) {
                None => final(self)@ == old(self)@ && cmds is Some && cmds.unwrap()@.len() == 0,
                Some(j) => if old(self)@.next_cid + cids_used(old(self)@, message_of_json(j)) <= u32::MAX {
                    &&& cmds is Some
                    &&& (final(self)@, commands_view(cmds.unwrap()@)) == handle_spec(
                        old(self)@,
                        message_of_json(j),
                    )
                } else {
                    cmds is None && final(self)@ == old(self)@
                },
            },
    {
        match parse_json(text) {
            None => Some(Vec::new()),
            Some(v) => {
                let msg = incoming_message(&v);
                let n = self.ids_needed(&msg);
                if n as u64 > (u32::MAX - self.next_cid) as u64 {
                    None
                } else {
                    Some(self.handle_message(msg))
                }
            },
        }
    }

    /// Handles one message of the server: advances the protocol, queues what
    /// was learned and returns the commands to send, in order.
    pub fn handle_message(&mut self, msg: IncomingMessage) -> (cmds: Vec<ObserverCommand>)
        requires
            old(self)@.next_cid + cids_used(old(self)@, msg@) <= u32::MAX,
        ensures
            (final(self)@, commands_view(cmds@)) == handle_spec(old(self)@, msg@),
    {
        let ghost s0 = self@;
        let ghost mv = msg@;
        match self.phase {
            Phase::WaitingIntro => {
                match msg.intro_node_name {
                    Some(name) => {
                        let cid = cid_string(self.next_cid);
                        self.next_cid = self.next_cid + 1;
                        self.pending_node_name = name.clone();
                        let cmd = ObserverCommand::Connect { name, cid: cid.clone() };
                        self.phase = Phase::WaitingConnectResult(cid);
                        let mut cmds: Vec<ObserverCommand> = Vec::new();
                        cmds.push(cmd);
                        proof {
                            assert(commands_view(cmds@) =~= handle_spec(s0, mv).1);
                        }
                        cmds
                    },
                    None => {
                        let cmds: Vec<ObserverCommand> = Vec::new();
                        assert(commands_view(cmds@) =~= Seq::<CommandView>::empty());
                        cmds
                    },
                }
            },
            Phase::WaitingConnectResult(_) => {
                let accepted = match &self.phase {
                    Phase::WaitingConnectResult(expected) => !msg.has_event && msg.has_cid
                        && msg.cid == *expected && msg.error.is_none(),
                    _ => false,
                };
                let mut cmds: Vec<ObserverCommand> = Vec::new();
                if accepted {
                    let node = self.pending_node_name.clone();
                    self.queued.push(ObserverEvent::Connected { node });
                    let sub_cid = cid_string(self.next_cid);
                    self.next_cid = self.next_cid + 1;
                    cmds.push(ObserverCommand::SubscribeApplicationList { cid: sub_cid });
                    self.phase = Phase::Running;
                    proof {
                        assert(self@.queued =~= s0.queued.push(EventView::Connected(s0.pending)));
                        assert(commands_view(cmds@) =~= handle_spec(s0, mv).1);
                    }
                } else {
                    assert(commands_view(cmds@) =~= Seq::<CommandView>::empty());
                }
                cmds
            },
            Phase::Running => {
                if !msg.has_event {
                    let cmds: Vec<ObserverCommand> = Vec::new();
                    assert(commands_view(cmds@) =~= Seq::<CommandView>::empty());
                    return cmds;
                }
                if str_contains(msg.event.as_str(), "inspect_application_list") {
                    self.subscribe_trees(msg.applications)
                } else {
                    if str_contains(msg.event.as_str(), "inspect_application_tree") {
                        if let Some(tree_msg) = msg.tree {
                            self.queued.push(ObserverEvent::ApplicationTree(tree_msg));
                            proof {
                                assert(self@.queued =~= s0.queued.push(EventView::ApplicationTree(tree_msg@)));
                            }
                        }
                    }
                    let cmds: Vec<ObserverCommand> = Vec::new();
                    assert(commands_view(cmds@) =~= Seq::<CommandView>::empty());
                    cmds
                }
            },
        }
    }
}

} // verus!
