//! Laws of the observer protocol.
use vstd::prelude::*;
use crate::observer::{
    accepts_connect_result, cid_of, cids_used, fresh_apps, handle_spec, switch_node_spec,
    fresh_connection_spec, CommandView, EventView, MessageView, ObserverView, PhaseView, TREE_LIMIT,
};
use crate::text::{contains_seq, lemma_decimal_injective};

verus! {

/// Two command ids are equal only when their numbers are.
pub proof fn lemma_cid_injective(a: u32, b: u32)
    requires
        cid_of(a) == cid_of(b),
    ensures
        a == b,
{
    lemma_decimal_injective(a as nat, b as nat);
}

/// Handling a message numbers its commands consecutively from the state's
/// next command id, and advances that id past them; the ids used are exactly
/// the commands sent.
pub proof fn lemma_handle_numbers_commands(s: ObserverView, m: MessageView)
    requires
        s.next_cid + cids_used(s, m) <= u32::MAX,
    ensures
        ({
            let (s2, cmds) = handle_spec(s, m);
            &&& cmds.len() == cids_used(s, m)
            &&& s2.next_cid == s.next_cid + cmds.len()
            &&& forall|i: int|
                0 <= i < cmds.len() ==> (match #[trigger] cmds[i] {
                    CommandView::Connect { cid, .. } => cid,
                    CommandView::SwitchNode { cid, .. } => cid,
                    CommandView::SubscribeApplicationList { cid } => cid,
                    CommandView::SubscribeApplicationTree { cid, .. } => cid,
                }) == cid_of((s.next_cid + i) as u32)
        }),
{
}

/// An application list received while running advances the next command id
/// by exactly the number of listed applications not subscribed to yet, sends
/// one tree subscription for each of them, in list order, and adds every
/// listed application to the subscriptions.
pub proof fn lemma_list_advances_ids_by_fresh_apps(s: ObserverView, m: MessageView)
    requires
        s.phase == PhaseView::Running,
        m.has_event,
        contains_seq(m.event, "inspect_application_list"@),
        s.next_cid + fresh_apps(s, m.applications).len() <= u32::MAX,
    ensures
        ({
            let (s2, cmds) = handle_spec(s, m);
            let fresh = fresh_apps(s, m.applications);
            &&& s2.next_cid == s.next_cid + fresh.len()
            &&& cmds.len() == fresh.len()
            &&& forall|i: int|
                0 <= i < fresh.len() ==> #[trigger] cmds[i] == CommandView::SubscribeApplicationTree {
                    application: fresh[i],
                    cid: cid_of((s.next_cid + i) as u32),
                    limit: TREE_LIMIT,
                }
            &&& s2.subscribed == s.subscribed.union(m.applications.to_set())
        }),
{
}

/// Once the trees of a list of applications were subscribed to, the same
/// list arriving again subscribes to nothing: each application's tree is
/// subscribed to at most once per connection.
pub proof fn lemma_tree_subscription_once(s: ObserverView, m: MessageView)
    requires
        s.phase == PhaseView::Running,
        m.has_event,
        contains_seq(m.event, "inspect_application_list"@),
        s.next_cid + cids_used(s, m) <= u32::MAX,
    ensures
        handle_spec(handle_spec(s, m).0, m).1.len() == 0,
{
    let s1 = handle_spec(s, m).0;
    let pred = |x: Seq<char>| !s1.subscribed.contains(x);
    let fresh = fresh_apps(s1, m.applications);
    if fresh.len() > 0 {
        m.applications.lemma_filter_pred(pred, 0);
        m.applications.lemma_filter_contains_rev(pred, fresh[0]);
        assert(m.applications.to_set().contains(fresh[0]));
        assert(s1.subscribed.contains(fresh[0]));
        assert(false);
    }
}

/// What a message does in each phase. Waiting for the introduction, a
/// message naming a node moves to waiting for the connect result under the
/// next id and asks to connect to that node; any other message changes
/// nothing. Waiting for the result, the accepted result announces the
/// connection to the pending node, starts running and subscribes to the
/// application list; any other message changes nothing. Running, a message
/// without an event changes nothing, and a tree event that carries a
/// snapshot queues it and sends nothing. A message never changes the pending
/// node name except through an introduction.
pub proof fn lemma_handle_phases(s: ObserverView, m: MessageView)
    requires
        s.next_cid + cids_used(s, m) <= u32::MAX,
    ensures
        ({
            let (s2, cmds) = handle_spec(s, m);
            &&& s.phase == PhaseView::WaitingIntro && m.intro_node_name is Some ==> {
                &&& s2.phase == PhaseView::WaitingConnectResult(cid_of(s.next_cid))
                &&& s2.pending == m.intro_node_name.unwrap()
                &&& s2.queued == s.queued
                &&& s2.subscribed == s.subscribed
                &&& cmds == seq![
                    CommandView::Connect { name: m.intro_node_name.unwrap(), cid: cid_of(s.next_cid) },
                ]
            }
            &&& s.phase == PhaseView::WaitingIntro && m.intro_node_name is None ==> s2 == s && cmds.len()
                == 0
            &&& match s.phase {
                PhaseView::WaitingConnectResult(expected) => if !m.has_event && m.has_cid && m.cid
                    == expected && m.error is None {
                    &&& s2.phase == PhaseView::Running
                    &&& s2.queued == s.queued.push(EventView::Connected(s.pending))
                    &&& s2.pending == s.pending
                    &&& s2.subscribed == s.subscribed
                    &&& cmds == seq![CommandView::SubscribeApplicationList { cid: cid_of(s.next_cid) }]
                } else {
                    s2 == s && cmds.len() == 0
                },
                _ => true,
            }
            &&& s.phase == PhaseView::Running && !m.has_event ==> s2 == s && cmds.len() == 0
            &&& s.phase == PhaseView::Running && m.has_event && !contains_seq(
                m.event,
                "inspect_application_list"@,
            ) && contains_seq(m.event, "inspect_application_tree"@) && m.tree is Some ==> {
                &&& s2.queued == s.queued.push(EventView::ApplicationTree(m.tree.unwrap()))
                &&& s2.phase == s.phase
                &&& s2.subscribed == s.subscribed
                &&& s2.next_cid == s.next_cid
                &&& cmds.len() == 0
            }
            &&& s.phase == PhaseView::Running && m.has_event && contains_seq(
                m.event,
                "inspect_application_list"@,
            ) ==> {
                &&& s2.queued == (if m.applications.len() > 0 {
                    s.queued.push(EventView::ApplicationList(m.applications))
                } else {
                    s.queued
                })
                &&& s2.phase == s.phase
            }
            &&& s.phase != PhaseView::WaitingIntro ==> s2.pending == s.pending
        }),
{
}

/// After the introduction of a node, the client accepts a connect result
/// exactly when it carries the id of the connect command it sent.
pub proof fn lemma_connect_result_matches_command(
    s: ObserverView,
    intro: MessageView,
    result: MessageView,
)
    requires
        s.phase == PhaseView::WaitingIntro,
        intro.intro_node_name is Some,
        s.next_cid + 2 <= u32::MAX,
    ensures
        ({
            let (s1, cmds) = handle_spec(s, intro);
            let s2 = handle_spec(s1, result).0;
            &&& cmds.len() == 1
            &&& cmds[0] matches CommandView::Connect { cid, .. } && (s2.phase
                == PhaseView::Running <==> (!result.has_event && result.has_cid && result.cid
                == cid && result.error is None))
        }),
{
}

/// Asking for a node and then receiving the result of that connect command
/// leaves the client connected to that node: it is running, announces the
/// connection as its only queued event, and subscribes to the application
/// list with the next id.
pub proof fn lemma_switch_then_connected(s: ObserverView, name: Seq<char>, result: MessageView)
    requires
        s.next_cid + 2 <= u32::MAX,
        !result.has_event,
        result.has_cid,
        result.cid == cid_of(s.next_cid),
        result.error is None,
    ensures
        ({
            let (s1, cmd) = switch_node_spec(s, name);
            let (s2, cmds) = handle_spec(s1, result);
            &&& s2.phase == PhaseView::Running
            &&& s2.queued == seq![EventView::Connected(name)]
            &&& s2.subscribed == Set::<Seq<char>>::empty()
            &&& cmds == seq![
                CommandView::SubscribeApplicationList { cid: cid_of((s.next_cid + 1) as u32) },
            ]
        }),
{
    let (s1, cmd) = switch_node_spec(s, name);
    assert(accepts_connect_result(result, cid_of(s.next_cid)));
    assert(s1.queued.push(EventView::Connected(name)) =~= seq![EventView::Connected(name)]);
}


/// Opening a new connection after losing one keeps the events not yet
/// drained, the lost connection last among them, and the node being
/// connected to; it restarts the handshake with the first command id and no
/// subscriptions.
pub proof fn lemma_lost_then_reset(s: ObserverView)
    ensures
        ({
            let lost = ObserverView { queued: s.queued.push(EventView::Disconnected), ..s };
            let r = fresh_connection_spec(lost);
            &&& r.queued == s.queued.push(EventView::Disconnected)
            &&& r.queued.last() == EventView::Disconnected
            &&& r.pending == s.pending
            &&& r.phase == PhaseView::WaitingIntro
            &&& r.next_cid == 1
            &&& r.subscribed == Set::<Seq<char>>::empty()
        }),
{
}

} // verus!
