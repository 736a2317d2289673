//! Reading the wire types out of JSON values, as their serde forms read
//! them: a struct from an object by member name (other members ignored) or
//! from an array of exactly its field count by position; an unsigned field
//! from a non-negative integer; a signed field from an integer that fits; a
//! PID, a process state and a log level from their strings.
use vstd::prelude::*;
use crate::json::{field, get_field, opt_ref_view, str_of, as_string, JsonValue, JsonView};
use crate::types::{
    log_level_from_spec, parse_pid_spec, process_state_from_spec, processes_view, ApplicationTreeMessage,
    ErgoPid, LogLevel, PidView, ProcessShortInfo, ProcessState, ProcessView, SnapshotView,
};

verus! {

/// Field `name` at position `pos` of a struct of `count` fields.
pub open spec fn struct_field(j: JsonView, name: Seq<char>, pos: int, count: nat) -> Option<JsonView> {
    match j {
        JsonView::Object(_) => get_field(j, name),
        JsonView::Array(xs) => if xs.len() == count && 0 <= pos < count {
            Some(xs[pos])
        } else {
            None
        },
        _ => None,
    }
}

/// An unsigned 64-bit field.
pub open spec fn json_u64(o: Option<JsonView>) -> Option<u64> {
    match o {
        Some(JsonView::UInt(u)) => Some(u),
        _ => None,
    }
}

/// A signed 64-bit field.
pub open spec fn json_i64(o: Option<JsonView>) -> Option<i64> {
    match o {
        Some(JsonView::UInt(u)) => if u <= i64::MAX {
            Some(u as i64)
        } else {
            None
        },
        Some(JsonView::NegInt(i)) => Some(i),
        _ => None,
    }
}

/// A PID field: a string in the PID wire form.
pub open spec fn json_pid(o: Option<JsonView>) -> Option<PidView> {
    match str_of(o) {
        Some(s) => match parse_pid_spec(s) {
            Ok((node, id)) => Some(PidView { node, id, creation: 0 }),
            Err(_) => None,
        },
        None => None,
    }
}

/// A process state field.
pub open spec fn json_state(o: Option<JsonView>) -> Option<ProcessState> {
    match str_of(o) {
        Some(s) => process_state_from_spec(s),
        None => None,
    }
}

/// A log level field.
pub open spec fn json_log_level(o: Option<JsonView>) -> Option<LogLevel> {
    match str_of(o) {
        Some(s) => log_level_from_spec(s),
        None => None,
    }
}

/// The process summary a JSON value holds, if it holds one.
pub open spec fn process_of_json(j: JsonView) -> Option<ProcessView> {
    let pid = json_pid(struct_field(j, "PID"@, 0, 13));
    let name = str_of(struct_field(j, "Name"@, 1, 13));
    let application = str_of(struct_field(j, "Application"@, 2, 13));
    let behavior = str_of(struct_field(j, "Behavior"@, 3, 13));
    let messages_in = json_u64(struct_field(j, "MessagesIn"@, 4, 13));
    let messages_out = json_u64(struct_field(j, "MessagesOut"@, 5, 13));
    let messages_mailbox = json_u64(struct_field(j, "MessagesMailbox"@, 6, 13));
    let running_time = json_u64(struct_field(j, "RunningTime"@, 7, 13));
    let uptime = json_i64(struct_field(j, "Uptime"@, 8, 13));
    let state = json_state(struct_field(j, "State"@, 9, 13));
    let parent = json_pid(struct_field(j, "Parent"@, 10, 13));
    let leader = json_pid(struct_field(j, "Leader"@, 11, 13));
    let log_level = json_log_level(struct_field(j, "LogLevel"@, 12, 13));
    if pid is Some && name is Some && application is Some && behavior is Some && messages_in is Some
        && messages_out is Some && messages_mailbox is Some && running_time is Some && uptime is Some
        && state is Some && parent is Some && leader is Some && log_level is Some {
        Some(
            ProcessView {
                pid: pid.unwrap(),
                name: name.unwrap(),
                application: application.unwrap(),
                behavior: behavior.unwrap(),
                messages_in: messages_in.unwrap(),
                messages_out: messages_out.unwrap(),
                messages_mailbox: messages_mailbox.unwrap(),
                running_time: running_time.unwrap(),
                uptime: uptime.unwrap(),
                state: state.unwrap(),
                parent: parent.unwrap(),
                leader: leader.unwrap(),
                log_level: log_level.unwrap(),
            },
        )
    } else {
        None
    }
}

/// A list of process summaries: an array each of whose elements holds one.
pub open spec fn processes_of_json(o: Option<JsonView>) -> Option<Seq<ProcessView>> {
    match o {
        Some(JsonView::Array(xs)) => if forall|i: int|
            0 <= i < xs.len() ==> (#[trigger] process_of_json(xs[i])) is Some {
            Some(Seq::new(xs.len(), |i: int| process_of_json(xs[i]).unwrap()))
        } else {
            None
        },
        _ => None,
    }
}

/// The application snapshot a JSON value holds, if it holds one.
pub open spec fn snapshot_of_json(j: JsonView) -> Option<SnapshotView> {
    let node = str_of(struct_field(j, "Node"@, 0, 3));
    let application = str_of(struct_field(j, "Application"@, 1, 3));
    let processes = processes_of_json(struct_field(j, "Processes"@, 2, 3));
    if node is Some && application is Some && processes is Some {
        Some(
            SnapshotView {
                node: node.unwrap(),
                application: application.unwrap(),
                processes: processes.unwrap(),
            },
        )
    } else {
        None
    }
}

/// A process summary read from an object takes each field from the member
/// of its own name (`PID`, `Name`, `Application`, `Behavior`, `MessagesIn`,
/// `MessagesOut`, `MessagesMailbox`, `RunningTime`, `Uptime`, `State`,
/// `Parent`, `Leader`, `LogLevel`), and is read exactly when every one of
/// those members reads.
pub proof fn lemma_process_object_members(j: JsonView)
    requires
        j is Object,
    ensures
        process_of_json(j) is Some <==> (json_pid(get_field(j, "PID"@)) is Some && str_of(get_field(j, "Name"@)) is Some && str_of(get_field(j, "Application"@)) is Some && str_of(get_field(j, "Behavior"@)) is Some && json_u64(get_field(j, "MessagesIn"@)) is Some && json_u64(get_field(j, "MessagesOut"@)) is Some && json_u64(get_field(j, "MessagesMailbox"@)) is Some && json_u64(get_field(j, "RunningTime"@)) is Some && json_i64(get_field(j, "Uptime"@)) is Some && json_state(get_field(j, "State"@)) is Some && json_pid(get_field(j, "Parent"@)) is Some && json_pid(get_field(j, "Leader"@)) is Some && json_log_level(get_field(j, "LogLevel"@)) is Some),
        process_of_json(j) is Some ==> ({
            let p = process_of_json(j).unwrap();
                &&& p.pid == json_pid(get_field(j, "PID"@)).unwrap()
                &&& p.name == str_of(get_field(j, "Name"@)).unwrap()
                &&& p.application == str_of(get_field(j, "Application"@)).unwrap()
                &&& p.behavior == str_of(get_field(j, "Behavior"@)).unwrap()
                &&& p.messages_in == json_u64(get_field(j, "MessagesIn"@)).unwrap()
                &&& p.messages_out == json_u64(get_field(j, "MessagesOut"@)).unwrap()
                &&& p.messages_mailbox == json_u64(get_field(j, "MessagesMailbox"@)).unwrap()
                &&& p.running_time == json_u64(get_field(j, "RunningTime"@)).unwrap()
                &&& p.uptime == json_i64(get_field(j, "Uptime"@)).unwrap()
                &&& p.state == json_state(get_field(j, "State"@)).unwrap()
                &&& p.parent == json_pid(get_field(j, "Parent"@)).unwrap()
                &&& p.leader == json_pid(get_field(j, "Leader"@)).unwrap()
                &&& p.log_level == json_log_level(get_field(j, "LogLevel"@)).unwrap()
        }),
{
}

/// A process summary read from an array of exactly thirteen elements takes
/// its fields by position, in the order `PID`, `Name`, `Application`,
/// `Behavior`, `MessagesIn`, `MessagesOut`, `MessagesMailbox`, `RunningTime`,
/// `Uptime`, `State`, `Parent`, `Leader`, `LogLevel`; an array of another
/// length, or a value that is neither array nor object, reads as nothing.
pub proof fn lemma_process_array_positions(xs: Seq<JsonView>)
    ensures
        xs.len() != 13 ==> process_of_json(JsonView::Array(xs)) is None,
        xs.len() == 13 ==> (process_of_json(JsonView::Array(xs)) is Some <==> (json_pid(Some(xs[0])) is Some && str_of(Some(xs[1])) is Some && str_of(Some(xs[2])) is Some && str_of(Some(xs[3])) is Some && json_u64(Some(xs[4])) is Some && json_u64(Some(xs[5])) is Some && json_u64(Some(xs[6])) is Some && json_u64(Some(xs[7])) is Some && json_i64(Some(xs[8])) is Some && json_state(Some(xs[9])) is Some && json_pid(Some(xs[10])) is Some && json_pid(Some(xs[11])) is Some && json_log_level(Some(xs[12])) is Some)),
        xs.len() == 13 && process_of_json(JsonView::Array(xs)) is Some ==> ({
            let p = process_of_json(JsonView::Array(xs)).unwrap();
                &&& p.pid == json_pid(Some(xs[0])).unwrap()
                &&& p.name == str_of(Some(xs[1])).unwrap()
                &&& p.application == str_of(Some(xs[2])).unwrap()
                &&& p.behavior == str_of(Some(xs[3])).unwrap()
                &&& p.messages_in == json_u64(Some(xs[4])).unwrap()
                &&& p.messages_out == json_u64(Some(xs[5])).unwrap()
                &&& p.messages_mailbox == json_u64(Some(xs[6])).unwrap()
                &&& p.running_time == json_u64(Some(xs[7])).unwrap()
                &&& p.uptime == json_i64(Some(xs[8])).unwrap()
                &&& p.state == json_state(Some(xs[9])).unwrap()
                &&& p.parent == json_pid(Some(xs[10])).unwrap()
                &&& p.leader == json_pid(Some(xs[11])).unwrap()
                &&& p.log_level == json_log_level(Some(xs[12])).unwrap()
        }),
        process_of_json(JsonView::Null) is None,
        process_of_json(JsonView::Float) is None,
{
}

/// An application snapshot read from an object takes its node from `Node`,
/// its application from `Application` and its processes from `Processes`,
/// an array whose every element reads as a process summary, in order.
pub proof fn lemma_snapshot_object_members(j: JsonView)
    requires
        j is Object,
    ensures
        snapshot_of_json(j) is Some <==> (str_of(get_field(j, "Node"@)) is Some && str_of(get_field(j, "Application"@)) is Some
            && processes_of_json(get_field(j, "Processes"@)) is Some),
        snapshot_of_json(j) is Some ==> ({
            let m = snapshot_of_json(j).unwrap();
            &&& m.node == str_of(get_field(j, "Node"@)).unwrap()
            &&& m.application == str_of(get_field(j, "Application"@)).unwrap()
            &&& get_field(j, "Processes"@) is Some
            &&& get_field(j, "Processes"@).unwrap() is Array
            &&& m.processes.len() == get_field(j, "Processes"@).unwrap()->Array_0.len()
            &&& forall|i: int| 0 <= i < m.processes.len() ==> Some(#[trigger] m.processes[i])
                == process_of_json(get_field(j, "Processes"@).unwrap()->Array_0[i])
        }),
{
}

/// Field `name` at position `pos` of a struct of `count` fields held in `j`.
fn struct_member<'a>(j: &'a JsonValue, name: &str, pos: usize, count: usize) -> (r: Option<&'a JsonValue>)
    requires
        pos < count,
    ensures
        opt_ref_view(r) == struct_field(j@, name@, pos as int, count as nat),
{
    match j {
        JsonValue::Object(_) => field(j, name),
        JsonValue::Array(xs) => {
            if xs.len() == count {
                assert(j@ == JsonView::Array(j@->Array_0));
                Some(&xs[pos])
            } else {
                None
            }
        },
        _ => None,
    }
}

fn u64_field(o: Option<&JsonValue>) -> (r: Option<u64>)
    ensures
        r == json_u64(opt_ref_view(o)),
{
    match o {
        Some(JsonValue::UInt(u)) => Some(*u),
        _ => None,
    }
}

fn i64_field(o: Option<&JsonValue>) -> (r: Option<i64>)
    ensures
        r == json_i64(opt_ref_view(o)),
{
    match o {
        Some(JsonValue::UInt(u)) => if *u <= 0x7fff_ffff_ffff_ffff {
            Some(*u as i64)
        } else {
            None
        },
        Some(JsonValue::NegInt(i)) => Some(*i),
        _ => None,
    }
}

fn pid_field(o: Option<&JsonValue>) -> (r: Option<ErgoPid>)
    ensures
        match r {
            Some(p) => json_pid(opt_ref_view(o)) == Some(p@),
            None => json_pid(opt_ref_view(o)) is None,
        },
{
    match as_string(o) {
        Some(s) => match ErgoPid::parse(s.as_str()) {
            Ok(p) => Some(p),
            Err(_) => None,
        },
        None => None,
    }
}

fn state_field(o: Option<&JsonValue>) -> (r: Option<ProcessState>)
    ensures
        r == json_state(opt_ref_view(o)),
{
    match as_string(o) {
        Some(s) => ProcessState::parse(s.as_str()),
        None => None,
    }
}

fn level_field(o: Option<&JsonValue>) -> (r: Option<LogLevel>)
    ensures
        r == json_log_level(opt_ref_view(o)),
{
    match as_string(o) {
        Some(s) => LogLevel::parse(s.as_str()),
        None => None,
    }
}

fn string_field(o: Option<&JsonValue>) -> (r: Option<String>)
    ensures
        match r {
            Some(s) => str_of(opt_ref_view(o)) == Some(s@),
            None => str_of(opt_ref_view(o)) is None,
        },
{
    as_string(o)
}

/// The process summary `j` holds, if it holds one.
pub fn process_of(j: &JsonValue) -> (r: Option<ProcessShortInfo>)
    ensures
        match r {
            Some(p) => process_of_json(j@) == Some(p@),
            None => process_of_json(j@) is None,
        },
{
    let pid = match pid_field(struct_member(j, "PID", 0, 13)) {
        Some(x) => x,
        None => return None,
    };
    let name = match string_field(struct_member(j, "Name", 1, 13)) {
        Some(x) => x,
        None => return None,
    };
    let application = match string_field(struct_member(j, "Application", 2, 13)) {
        Some(x) => x,
        None => return None,
    };
    let behavior = match string_field(struct_member(j, "Behavior", 3, 13)) {
        Some(x) => x,
        None => return None,
    };
    let messages_in = match u64_field(struct_member(j, "MessagesIn", 4, 13)) {
        Some(x) => x,
        None => return None,
    };
    let messages_out = match u64_field(struct_member(j, "MessagesOut", 5, 13)) {
        Some(x) => x,
        None => return None,
    };
    let messages_mailbox = match u64_field(struct_member(j, "MessagesMailbox", 6, 13)) {
        Some(x) => x,
        None => return None,
    };
    let running_time = match u64_field(struct_member(j, "RunningTime", 7, 13)) {
        Some(x) => x,
        None => return None,
    };
    let uptime = match i64_field(struct_member(j, "Uptime", 8, 13)) {
        Some(x) => x,
        None => return None,
    };
    let state = match state_field(struct_member(j, "State", 9, 13)) {
        Some(x) => x,
        None => return None,
    };
    let parent = match pid_field(struct_member(j, "Parent", 10, 13)) {
        Some(x) => x,
        None => return None,
    };
    let leader = match pid_field(struct_member(j, "Leader", 11, 13)) {
        Some(x) => x,
        None => return None,
    };
    let log_level = match level_field(struct_member(j, "LogLevel", 12, 13)) {
        Some(x) => x,
        None => return None,
    };
    Some(
        ProcessShortInfo {
            pid,
            name,
            application,
            behavior,
            messages_in,
            messages_out,
            messages_mailbox,
            running_time,
            uptime,
            state,
            parent,
            leader,
            log_level,
        },
    )
}

/// The process summaries of an array, if every element holds one.
fn processes_of(o: Option<&JsonValue>) -> (r: Option<Vec<ProcessShortInfo>>)
    ensures
        match r {
            Some(v) => processes_of_json(opt_ref_view(o)) == Some(processes_view(v@)),
            None => processes_of_json(opt_ref_view(o)) is None,
        },
{
    match o {
        Some(JsonValue::Array(xs)) => {
            let ghost jv = o.unwrap()@;
            let ghost ys = jv->Array_0;
            assert(jv == JsonView::Array(ys));
            let mut out: Vec<ProcessShortInfo> = Vec::new();
            let mut i: usize = 0;
            while i < xs.len()
                invariant
                    opt_ref_view(o) == Some(JsonView::Array(ys)),
                    i <= xs@.len(),
                    ys.len() == xs@.len(),
                    forall|k: int| 0 <= k < xs@.len() ==> #[trigger] ys[k] == xs@[k]@,
                    out@.len() == i,
                    forall|k: int| 0 <= k < i ==> process_of_json(#[trigger] ys[k]) == Some(out@[k]@),
                decreases xs@.len() - i,
            {
                assert(ys[i as int] == xs@[i as int]@);
                match process_of(&xs[i]) {
                    Some(p) => out.push(p),
                    None => {
                        assert(process_of_json(ys[i as int]) is None);
                        return None;
                    },
                }
                i = i + 1;
            }
            proof {
                assert forall|k: int| 0 <= k < ys.len() implies (#[trigger] process_of_json(ys[k])) is Some by {
                    assert(process_of_json(ys[k]) == Some(out@[k]@));
                }
                assert(processes_view(out@) =~= Seq::new(ys.len(), |k: int| process_of_json(ys[k]).unwrap()));
            }
            Some(out)
        },
        _ => None,
    }
}

/// The application snapshot `j` holds, if it holds one.
pub fn snapshot_of(j: &JsonValue) -> (r: Option<ApplicationTreeMessage>)
    ensures
        match r {
            Some(m) => snapshot_of_json(j@) == Some(m@),
            None => snapshot_of_json(j@) is None,
        },
{
    let node = match string_field(struct_member(j, "Node", 0, 3)) {
        Some(x) => x,
        None => return None,
    };
    let application = match string_field(struct_member(j, "Application", 1, 3)) {
        Some(x) => x,
        None => return None,
    };
    let processes = match processes_of(struct_member(j, "Processes", 2, 3)) {
        Some(x) => x,
        None => return None,
    };
    Some(ApplicationTreeMessage { node, application, processes })
}

} // verus!
