//! Wire-level types of the observer protocol: process identifiers, process
//! states, log levels and the application snapshots the server sends.
use vstd::prelude::*;
use crate::text::{
    all_digits, chars_of, decimal, is_digit, lemma_decimal_roundtrip, parse_i64, parse_i64_spec, str_eq,
};

verus! {

broadcast use vstd::string::group_string_axioms;

/// `gen.PID`: on the wire a string `<CRC32.high.low>`.
#[derive(Debug, Clone)]
pub struct ErgoPid {
    /// CRC32 of the node name, as written on the wire.
    pub node: String,
    pub id: u64,
    pub creation: i64,
}

/// Why a process identifier string was refused.
#[derive(Debug, Clone, Copy, PartialEq, Eq, Structural)]
pub enum PidError {
    /// The string does not have three dot-separated parts.
    InvalidFormat,
    /// The second or third part is not an `i64`.
    InvalidNumber,
}

/// `s` without its leading run of `c`.
pub open spec fn trim_start_char(s: Seq<char>, c: char) -> Seq<char>
    decreases s.len(),
{
    if s.len() > 0 && s[0] == c {
        trim_start_char(s.skip(1), c)
    } else {
        s
    }
}

/// `s` without its trailing run of `c`.
pub open spec fn trim_end_char(s: Seq<char>, c: char) -> Seq<char>
    decreases s.len(),
{
    if s.len() > 0 && s.last() == c {
        trim_end_char(s.drop_last(), c)
    } else {
        s
    }
}

/// The position of the first `c` in `s`, if any.
pub open spec fn index_of(s: Seq<char>, c: char) -> Option<nat>
    decreases s.len(),
{
    if s.len() == 0 {
        None
    } else if s[0] == c {
        Some(0)
    } else {
        match index_of(s.skip(1), c) {
            Some(k) => Some(k + 1),
            None => None,
        }
    }
}

/// The process number that the two halves of a PID denote: each half is
/// reinterpreted as a 32-bit two's complement word, `high` above `low`.
pub open spec fn pid_id_spec(high: i64, low: i64) -> u64 {
    ((high as int % 0x1_0000_0000) * 0x1_0000_0000 + (low as int % 0x1_0000_0000)) as u64
}

/// What a PID string denotes: the node part and the process number, or why it
/// is refused. The angle brackets around the string are optional, and the
/// string is split at its first two dots.
pub open spec fn parse_pid_spec(s: Seq<char>) -> Result<(Seq<char>, u64), PidError> {
    let inner = trim_end_char(trim_start_char(s, '<'), '>');
    match index_of(inner, '.') {
        None => Err(PidError::InvalidFormat),
        Some(a) => {
            let rest = inner.skip(a as int + 1);
            match index_of(rest, '.') {
                None => Err(PidError::InvalidFormat),
                Some(b) => {
                    match (parse_i64_spec(rest.take(b as int)), parse_i64_spec(rest.skip(b as int + 1))) {
                        (Some(high), Some(low)) => Ok((inner.take(a as int), pid_id_spec(high, low))),
                        _ => Err(PidError::InvalidNumber),
                    }
                }
            }
        }
    }
}

proof fn lemma_index_of(s: Seq<char>, c: char, k: int)
    requires
        0 <= k <= s.len(),
        forall|j: int| 0 <= j < k ==> s[j] != c,
        k < s.len() ==> s[k] == c,
    ensures
        index_of(s, c) == (if k < s.len() { Some(k as nat) } else { None::<nat> }),
    decreases k,
{
    if k > 0 {
        lemma_index_of(s.skip(1), c, k - 1);
    }
}

proof fn lemma_trim_start_step(s: Seq<char>, c: char, i: int)
    requires
        0 <= i < s.len(),
        s[i] == c,
    ensures
        trim_start_char(s.skip(i), c) == trim_start_char(s.skip(i + 1), c),
{
    assert(s.skip(i).skip(1) =~= s.skip(i + 1));
}

proof fn lemma_trim_end_step(s: Seq<char>, c: char, i: int)
    requires
        0 < i <= s.len(),
        s[i - 1] == c,
    ensures
        trim_end_char(s.take(i), c) == trim_end_char(s.take(i - 1), c),
{
    assert(s.take(i).drop_last() =~= s.take(i - 1));
}

/// The process number of a PID from its two halves.
pub fn pid_id(high: i64, low: i64) -> (id: u64)
    ensures
        id == pid_id_spec(high, low),
{
    let h: u64 = (high as u64) & 0xffff_ffff;
    let l: u64 = (low as u64) & 0xffff_ffff;
    assert(h as int == high as int % 0x1_0000_0000) by (bit_vector)
        requires
            h == (high as u64) & 0xffff_ffff,
    ;
    assert(l as int == low as int % 0x1_0000_0000) by (bit_vector)
        requires
            l == (low as u64) & 0xffff_ffff,
    ;
    assert((h << 32u64) | l == h * 0x1_0000_0000 + l) by (bit_vector)
        requires
            h < 0x1_0000_0000,
            l < 0x1_0000_0000,
    ;
    (h << 32u64) | l
}

impl ErgoPid {
    /// Reads a PID from its wire form `<CRC32.high.low>`.
    #[verifier::rlimit(40)]
    pub fn parse(s: &str) -> (res: Result<ErgoPid, PidError>)
        ensures
            match (res, parse_pid_spec(s@)) {
                (Ok(pid), Ok((node, id))) => pid.node@ == node && pid.id == id && pid.creation
                    == 0,
                (Err(e), Err(f)) => e == f,
                _ => false,
            },
    {
        let cs = chars_of(s);
        let n = cs.len();
        let mut lo: usize = 0;
        assert(s@.skip(0) =~= s@);
        while lo < n && cs[lo] == '<'
            invariant
                lo <= n == cs@.len(),
                cs@ == s@,
                trim_start_char(s@, '<') == trim_start_char(s@.skip(lo as int), '<'),
            decreases n - lo,
        {
            proof {
                lemma_trim_start_step(s@, '<', lo as int);
            }
            lo = lo + 1;
        }
        proof {
            assert(s@.skip(lo as int) =~= cs@.subrange(lo as int, n as int));
        }
        let ghost t = cs@.subrange(lo as int, n as int);
        let mut hi: usize = n;
        assert(t.take(n - lo) =~= t);
        while hi > lo && cs[hi - 1] == '>'
            invariant
                lo <= hi <= n == cs@.len(),
                t == cs@.subrange(lo as int, n as int),
                trim_end_char(t, '>') == trim_end_char(t.take(hi - lo), '>'),
            decreases hi,
        {
            proof {
                lemma_trim_end_step(t, '>', hi - lo);
            }
            hi = hi - 1;
        }
        let ghost inner = cs@.subrange(lo as int, hi as int);
        proof {
            assert(t.take(hi - lo) =~= inner);
            assert(inner == trim_end_char(trim_start_char(s@, '<'), '>'));
        }
        let mut a = lo;
        while a < hi && cs[a] != '.'
            invariant
                lo <= a <= hi <= n == cs@.len(),
                inner == cs@.subrange(lo as int, hi as int),
                forall|j: int| lo <= j < a ==> cs@[j] != '.',
            decreases hi - a,
        {
            a = a + 1;
        }
        proof {
            lemma_index_of(inner, '.', a - lo);
        }
        if a == hi {
            return Err(PidError::InvalidFormat);
        }
        let ghost rest = inner.skip(a - lo + 1);
        proof {
            assert(rest =~= cs@.subrange(a + 1, hi as int));
        }
        let mut b = a + 1;
        while b < hi && cs[b] != '.'
            invariant
                a < b <= hi <= n == cs@.len(),
                rest == cs@.subrange(a + 1, hi as int),
                forall|j: int| a + 1 <= j < b ==> cs@[j] != '.',
            decreases hi - b,
        {
            b = b + 1;
        }
        proof {
            lemma_index_of(rest, '.', b - a - 1);
        }
        if b == hi {
            return Err(PidError::InvalidFormat);
        }
        proof {
            assert(rest.take(b - a - 1) =~= cs@.subrange(a + 1, b as int));
            assert(rest.skip(b - a) =~= cs@.subrange(b + 1, hi as int));
            assert(inner.take(a - lo) =~= s@.subrange(lo as int, a as int));
        }
        let high = parse_i64(&cs, a + 1, b);
        let low = parse_i64(&cs, b + 1, hi);
        match (high, low) {
            (Some(h), Some(l)) => {
                let node = String::from_str(s.substring_char(lo, a));
                Ok(ErgoPid { node, id: pid_id(h, l), creation: 0 })
            },
            _ => Err(PidError::InvalidNumber),
        }
    }
}

/// A 32-bit word `x` read as a two's complement number.
pub open spec fn int32_of(x: int) -> int {
    if x < 0x8000_0000 {
        x
    } else {
        x - 0x1_0000_0000
    }
}

/// `x` in decimal, with a `-` in front when it is negative.
pub open spec fn signed_decimal(x: int) -> Seq<char> {
    if x < 0 {
        "-"@ + decimal((-x) as nat)
    } else {
        decimal(x as nat)
    }
}

/// The wire form of process `id` on node `node`: `<node.high.low>`, where
/// `high` and `low` are the upper and lower 32 bits of `id`, each written as
/// a signed 32-bit number.
pub open spec fn pid_wire(node: Seq<char>, id: u64) -> Seq<char> {
    "<"@ + node + "."@ + signed_decimal(int32_of(id as int / 0x1_0000_0000)) + "."@
        + signed_decimal(int32_of(id as int % 0x1_0000_0000)) + ">"@
}

proof fn lemma_signed_decimal(x: int)
    requires
        -0x8000_0000 <= x < 0x8000_0000,
    ensures
        parse_i64_spec(signed_decimal(x)) == Some(x as i64),
        signed_decimal(x).len() > 0,
        is_digit(signed_decimal(x).last()),
        forall|i: int| 0 <= i < signed_decimal(x).len() ==> signed_decimal(x)[i] != '.',
{
    reveal_strlit("-");
    let s = signed_decimal(x);
    if x < 0 {
        let d = decimal((-x) as nat);
        lemma_decimal_roundtrip((-x) as nat);
        assert(s.skip(1) =~= d);
        assert(s[0] == '-');
        assert forall|i: int| 0 <= i < s.len() implies s[i] != '.' by {
            if i > 0 {
                assert(s[i] == d[i - 1]);
                assert(is_digit(d[i - 1]));
            }
        }
        assert(s.last() == d.last());
        assert(is_digit(d[d.len() - 1]));
    } else {
        lemma_decimal_roundtrip(x as nat);
        assert(is_digit(s[0]));
        assert forall|i: int| 0 <= i < s.len() implies s[i] != '.' by {
            assert(is_digit(s[i]));
        }
        assert(is_digit(s[s.len() - 1]));
    }
}

proof fn lemma_trim_brackets(inner: Seq<char>)
    requires
        inner.len() > 0,
        inner[0] != '<',
        inner.last() != '>',
    ensures
        trim_end_char(trim_start_char("<"@ + inner + ">"@, '<'), '>') == inner,
{
    reveal_strlit("<");
    reveal_strlit(">");
    let w = "<"@ + inner + ">"@;
    let after = inner + ">"@;
    assert(w.skip(1) =~= after);
    assert(trim_start_char(w, '<') == trim_start_char(after, '<'));
    assert(trim_start_char(after, '<') == after);
    assert(after.drop_last() =~= inner);
    assert(trim_end_char(after, '>') == trim_end_char(inner, '>'));
}

proof fn lemma_pid_halves(id: u64)
    ensures
        pid_id_spec(
            int32_of(id as int / 0x1_0000_0000) as i64,
            int32_of(id as int % 0x1_0000_0000) as i64,
        ) == id,
{
    let hi = id as int / 0x1_0000_0000;
    let lo = id as int % 0x1_0000_0000;
    assert(0 <= hi < 0x1_0000_0000);
    assert((int32_of(hi) as i64) as int % 0x1_0000_0000 == hi);
    assert((int32_of(lo) as i64) as int % 0x1_0000_0000 == lo);
    assert(hi * 0x1_0000_0000 + lo == id);
}

/// Reading the wire form of a PID gives back its node and its process
/// number, for a node name that holds no dot and does not start with `<`.
pub proof fn lemma_pid_wire_roundtrip(node: Seq<char>, id: u64)
    requires
        forall|i: int| 0 <= i < node.len() ==> node[i] != '.',
        node.len() > 0 ==> node[0] != '<',
    ensures
        parse_pid_spec(pid_wire(node, id)) == Ok::<(Seq<char>, u64), PidError>((node, id)),
{
    reveal_strlit(".");
    let h = int32_of(id as int / 0x1_0000_0000);
    let l = int32_of(id as int % 0x1_0000_0000);
    lemma_signed_decimal(h);
    lemma_signed_decimal(l);
    lemma_pid_halves(id);
    let sh = signed_decimal(h);
    let sl = signed_decimal(l);
    let inner = node + "."@ + sh + "."@ + sl;
    assert(pid_wire(node, id) =~= "<"@ + inner + ">"@);
    assert(inner[0] != '<') by {
        if node.len() == 0 {
            assert(inner[0] == '.');
        } else {
            assert(inner[0] == node[0]);
        }
    }
    assert(inner.last() == sl.last());
    lemma_trim_brackets(inner);
    let a = node.len() as int;
    assert forall|j: int| 0 <= j < a implies inner[j] != '.' by {
        assert(inner[j] == node[j]);
    }
    lemma_index_of(inner, '.', a);
    let rest = inner.skip(a + 1);
    assert(rest =~= sh + "."@ + sl);
    let b = sh.len() as int;
    assert forall|j: int| 0 <= j < b implies rest[j] != '.' by {
        assert(rest[j] == sh[j]);
    }
    lemma_index_of(rest, '.', b);
    assert(rest.take(b) =~= sh);
    assert(rest.skip(b + 1) =~= sl);
    assert(inner.take(a) =~= node);
}

/// `gen.ProcessState`; a lowercase string on the wire.
#[derive(Debug, Clone, Copy, PartialEq, Eq, Structural)]
pub enum ProcessState {
    Init,
    Sleep,
    Running,
    WaitResponse,
    Terminated,
    Zombee,
}

/// The wire name of a process state.
pub open spec fn process_state_str(s: ProcessState) -> Seq<char> {
    match s {
        ProcessState::Init => "init"@,
        ProcessState::Sleep => "sleep"@,
        ProcessState::Running => "running"@,
        ProcessState::WaitResponse => "wait_response"@,
        ProcessState::Terminated => "terminated"@,
        ProcessState::Zombee => "zombee"@,
    }
}

/// The process state a wire string names, if any. Both `wait_response` and
/// `waitresponse` name the waiting state.
pub open spec fn process_state_from_spec(s: Seq<char>) -> Option<ProcessState> {
    if s == "init"@ {
        Some(ProcessState::Init)
    } else if s == "sleep"@ {
        Some(ProcessState::Sleep)
    } else if s == "running"@ {
        Some(ProcessState::Running)
    } else if s == "wait_response"@ || s == "waitresponse"@ {
        Some(ProcessState::WaitResponse)
    } else if s == "terminated"@ {
        Some(ProcessState::Terminated)
    } else if s == "zombee"@ {
        Some(ProcessState::Zombee)
    } else {
        None
    }
}

impl ProcessState {
    /// The wire name of the state.
    pub fn as_str(&self) -> (s: &'static str)
        ensures
            s@ == process_state_str(*self),
    {
        match self {
            ProcessState::Init => "init",
            ProcessState::Sleep => "sleep",
            ProcessState::Running => "running",
            ProcessState::WaitResponse => "wait_response",
            ProcessState::Terminated => "terminated",
            ProcessState::Zombee => "zombee",
        }
    }

    /// Reads a state from its wire name; `None` for an unknown name.
    pub fn parse(s: &str) -> (res: Option<ProcessState>)
        ensures
            res == process_state_from_spec(s@),
    {
        if str_eq(s, "init") {
            Some(ProcessState::Init)
        } else if str_eq(s, "sleep") {
            Some(ProcessState::Sleep)
        } else if str_eq(s, "running") {
            Some(ProcessState::Running)
        } else if str_eq(s, "wait_response") || str_eq(s, "waitresponse") {
            Some(ProcessState::WaitResponse)
        } else if str_eq(s, "terminated") {
            Some(ProcessState::Terminated)
        } else if str_eq(s, "zombee") {
            Some(ProcessState::Zombee)
        } else {
            None
        }
    }
}

/// `gen.LogLevel`; a lowercase string on the wire.
#[derive(Debug, Clone, Copy, PartialEq, Eq, Structural)]
pub enum LogLevel {
    System,
    Trace,
    Debug,
    Default,
    Info,
    Warning,
    LogError,
    Panic,
    Disabled,
}

/// The wire name of a log level.
pub open spec fn log_level_str(l: LogLevel) -> Seq<char> {
    match l {
        LogLevel::System => "system"@,
        LogLevel::Trace => "trace"@,
        LogLevel::Debug => "debug"@,
        LogLevel::Default => "default"@,
        LogLevel::Info => "info"@,
        LogLevel::Warning => "warning"@,
        LogLevel::LogError => "error"@,
        LogLevel::Panic => "panic"@,
        LogLevel::Disabled => "disabled"@,
    }
}

/// The log level a wire string names, if any.
pub open spec fn log_level_from_spec(s: Seq<char>) -> Option<LogLevel> {
    if s == "system"@ {
        Some(LogLevel::System)
    } else if s == "trace"@ {
        Some(LogLevel::Trace)
    } else if s == "debug"@ {
        Some(LogLevel::Debug)
    } else if s == "default"@ {
        Some(LogLevel::Default)
    } else if s == "info"@ {
        Some(LogLevel::Info)
    } else if s == "warning"@ {
        Some(LogLevel::Warning)
    } else if s == "error"@ {
        Some(LogLevel::LogError)
    } else if s == "panic"@ {
        Some(LogLevel::Panic)
    } else if s == "disabled"@ {
        Some(LogLevel::Disabled)
    } else {
        None
    }
}

impl LogLevel {
    /// The wire name of the level.
    pub fn as_str(&self) -> (s: &'static str)
        ensures
            s@ == log_level_str(*self),
    {
        match self {
            LogLevel::System => "system",
            LogLevel::Trace => "trace",
            LogLevel::Debug => "debug",
            LogLevel::Default => "default",
            LogLevel::Info => "info",
            LogLevel::Warning => "warning",
            LogLevel::LogError => "error",
            LogLevel::Panic => "panic",
            LogLevel::Disabled => "disabled",
        }
    }

    /// Reads a level from its wire name; `None` for an unknown name.
    pub fn parse(s: &str) -> (res: Option<LogLevel>)
        ensures
            res == log_level_from_spec(s@),
    {
        if str_eq(s, "system") {
            Some(LogLevel::System)
        } else if str_eq(s, "trace") {
            Some(LogLevel::Trace)
        } else if str_eq(s, "debug") {
            Some(LogLevel::Debug)
        } else if str_eq(s, "default") {
            Some(LogLevel::Default)
        } else if str_eq(s, "info") {
            Some(LogLevel::Info)
        } else if str_eq(s, "warning") {
            Some(LogLevel::Warning)
        } else if str_eq(s, "error") {
            Some(LogLevel::LogError)
        } else if str_eq(s, "panic") {
            Some(LogLevel::Panic)
        } else if str_eq(s, "disabled") {
            Some(LogLevel::Disabled)
        } else {
            None
        }
    }
}

/// Every process state reads back from its wire name.
pub proof fn lemma_process_state_roundtrip(s: ProcessState)
    ensures
        process_state_from_spec(process_state_str(s)) == Some(s),
{
    reveal_strlit("init");
    reveal_strlit("sleep");
    reveal_strlit("running");
    reveal_strlit("wait_response");
    reveal_strlit("waitresponse");
    reveal_strlit("terminated");
    reveal_strlit("zombee");
    assert("init"@[0] != "sleep"@[0]);
    assert("init"@[0] != "running"@[0]);
    assert("init"@[0] != "wait_response"@[0]);
    assert("init"@[0] != "waitresponse"@[0]);
    assert("init"@[0] != "terminated"@[0]);
    assert("init"@[0] != "zombee"@[0]);
    assert("sleep"@[0] != "running"@[0]);
    assert("sleep"@[0] != "wait_response"@[0]);
    assert("sleep"@[0] != "waitresponse"@[0]);
    assert("sleep"@[0] != "terminated"@[0]);
    assert("sleep"@[0] != "zombee"@[0]);
    assert("running"@[0] != "wait_response"@[0]);
    assert("running"@[0] != "waitresponse"@[0]);
    assert("running"@[0] != "terminated"@[0]);
    assert("running"@[0] != "zombee"@[0]);
    assert("wait_response"@[4] != "waitresponse"@[4]);
    assert("wait_response"@[0] != "terminated"@[0]);
    assert("wait_response"@[0] != "zombee"@[0]);
    assert("waitresponse"@[0] != "terminated"@[0]);
    assert("waitresponse"@[0] != "zombee"@[0]);
    assert("terminated"@[0] != "zombee"@[0]);
}

/// Every log level reads back from its wire name.
pub proof fn lemma_log_level_roundtrip(l: LogLevel)
    ensures
        log_level_from_spec(log_level_str(l)) == Some(l),
{
    reveal_strlit("system");
    reveal_strlit("trace");
    reveal_strlit("debug");
    reveal_strlit("default");
    reveal_strlit("info");
    reveal_strlit("warning");
    reveal_strlit("error");
    reveal_strlit("panic");
    reveal_strlit("disabled");
    assert("system"@[0] != "trace"@[0] && "system"@[0] != "debug"@[0] && "system"@[0] != "default"@[0]);
    assert("system"@[0] != "info"@[0] && "system"@[0] != "warning"@[0] && "system"@[0] != "error"@[0]);
    assert("system"@[0] != "panic"@[0] && "system"@[0] != "disabled"@[0]);
    assert("trace"@[0] != "debug"@[0] && "trace"@[0] != "default"@[0] && "trace"@[0] != "info"@[0]);
    assert("trace"@[0] != "warning"@[0] && "trace"@[0] != "error"@[0] && "trace"@[0] != "panic"@[0]);
    assert("trace"@[0] != "disabled"@[0]);
    assert("debug"@[2] != "default"@[2] && "debug"@.len() != "disabled"@.len());
    assert("debug"@[0] != "info"@[0] && "debug"@[0] != "warning"@[0] && "debug"@[0] != "error"@[0]);
    assert("debug"@[0] != "panic"@[0]);
    assert("default"@[0] != "info"@[0] && "default"@[0] != "warning"@[0] && "default"@[0] != "error"@[0]);
    assert("default"@[0] != "panic"@[0] && "default"@[2] != "disabled"@[2]);
    assert("info"@[0] != "warning"@[0] && "info"@[0] != "error"@[0] && "info"@[0] != "panic"@[0]);
    assert("info"@[0] != "disabled"@[0]);
    assert("warning"@[0] != "error"@[0] && "warning"@[0] != "panic"@[0] && "warning"@[0] != "disabled"@[0]);
    assert("error"@[0] != "panic"@[0] && "error"@[0] != "disabled"@[0]);
    assert("panic"@[0] != "disabled"@[0]);
}

/// The wire names of the process states, both ways: each state is written
/// as its own name, and each name reads back as its state (`waitresponse`
/// too).
pub proof fn lemma_process_state_names()
    ensures
        process_state_str(ProcessState::Init) == "init"@,
        process_state_str(ProcessState::Sleep) == "sleep"@,
        process_state_str(ProcessState::Running) == "running"@,
        process_state_str(ProcessState::WaitResponse) == "wait_response"@,
        process_state_str(ProcessState::Terminated) == "terminated"@,
        process_state_str(ProcessState::Zombee) == "zombee"@,
        process_state_from_spec("init"@) == Some(ProcessState::Init),
        process_state_from_spec("sleep"@) == Some(ProcessState::Sleep),
        process_state_from_spec("running"@) == Some(ProcessState::Running),
        process_state_from_spec("wait_response"@) == Some(ProcessState::WaitResponse),
        process_state_from_spec("waitresponse"@) == Some(ProcessState::WaitResponse),
        process_state_from_spec("terminated"@) == Some(ProcessState::Terminated),
        process_state_from_spec("zombee"@) == Some(ProcessState::Zombee),
{
    lemma_process_state_roundtrip(ProcessState::Init);
    lemma_process_state_roundtrip(ProcessState::Sleep);
    lemma_process_state_roundtrip(ProcessState::Running);
    lemma_process_state_roundtrip(ProcessState::WaitResponse);
    lemma_process_state_roundtrip(ProcessState::Terminated);
    lemma_process_state_roundtrip(ProcessState::Zombee);
    reveal_strlit("init");
    reveal_strlit("sleep");
    reveal_strlit("running");
    reveal_strlit("wait_response");
    reveal_strlit("waitresponse");
    reveal_strlit("terminated");
    reveal_strlit("zombee");
    assert("waitresponse"@[0] != "init"@[0]);
    assert("waitresponse"@[0] != "sleep"@[0]);
    assert("waitresponse"@[0] != "running"@[0]);
    assert("waitresponse"@[4] != "wait_response"@[4]);
}

/// The wire names of the log levels, both ways: each level is written as
/// its own name, and each name reads back as its level.
pub proof fn lemma_log_level_names()
    ensures
        log_level_str(LogLevel::System) == "system"@,
        log_level_str(LogLevel::Trace) == "trace"@,
        log_level_str(LogLevel::Debug) == "debug"@,
        log_level_str(LogLevel::Default) == "default"@,
        log_level_str(LogLevel::Info) == "info"@,
        log_level_str(LogLevel::Warning) == "warning"@,
        log_level_str(LogLevel::LogError) == "error"@,
        log_level_str(LogLevel::Panic) == "panic"@,
        log_level_str(LogLevel::Disabled) == "disabled"@,
        log_level_from_spec("system"@) == Some(LogLevel::System),
        log_level_from_spec("trace"@) == Some(LogLevel::Trace),
        log_level_from_spec("debug"@) == Some(LogLevel::Debug),
        log_level_from_spec("default"@) == Some(LogLevel::Default),
        log_level_from_spec("info"@) == Some(LogLevel::Info),
        log_level_from_spec("warning"@) == Some(LogLevel::Warning),
        log_level_from_spec("error"@) == Some(LogLevel::LogError),
        log_level_from_spec("panic"@) == Some(LogLevel::Panic),
        log_level_from_spec("disabled"@) == Some(LogLevel::Disabled),
{
    lemma_log_level_roundtrip(LogLevel::System);
    lemma_log_level_roundtrip(LogLevel::Trace);
    lemma_log_level_roundtrip(LogLevel::Debug);
    lemma_log_level_roundtrip(LogLevel::Default);
    lemma_log_level_roundtrip(LogLevel::Info);
    lemma_log_level_roundtrip(LogLevel::Warning);
    lemma_log_level_roundtrip(LogLevel::LogError);
    lemma_log_level_roundtrip(LogLevel::Panic);
    lemma_log_level_roundtrip(LogLevel::Disabled);
}

/// `gen.ProcessShortInfo`: the summary of one process in a snapshot.
#[derive(Debug, Clone)]
pub struct ProcessShortInfo {
    pub pid: ErgoPid,
    pub name: String,
    pub application: String,
    pub behavior: String,
    pub messages_in: u64,
    pub messages_out: u64,
    pub messages_mailbox: u64,
    pub running_time: u64,
    pub uptime: i64,
    pub state: ProcessState,
    pub parent: ErgoPid,
    pub leader: ErgoPid,
    pub log_level: LogLevel,
}

/// The mathematical value of an [`ErgoPid`].
pub struct PidView {
    pub node: Seq<char>,
    pub id: u64,
    pub creation: i64,
}

impl View for ErgoPid {
    type V = PidView;

    open spec fn view(&self) -> PidView {
        PidView { node: self.node@, id: self.id, creation: self.creation }
    }
}

/// The mathematical value of a [`ProcessShortInfo`].
pub struct ProcessView {
    pub pid: PidView,
    pub name: Seq<char>,
    pub application: Seq<char>,
    pub behavior: Seq<char>,
    pub messages_in: u64,
    pub messages_out: u64,
    pub messages_mailbox: u64,
    pub running_time: u64,
    pub uptime: i64,
    pub state: ProcessState,
    pub parent: PidView,
    pub leader: PidView,
    pub log_level: LogLevel,
}

impl View for ProcessShortInfo {
    type V = ProcessView;

    open spec fn view(&self) -> ProcessView {
        ProcessView {
            pid: self.pid@,
            name: self.name@,
            application: self.application@,
            behavior: self.behavior@,
            messages_in: self.messages_in,
            messages_out: self.messages_out,
            messages_mailbox: self.messages_mailbox,
            running_time: self.running_time,
            uptime: self.uptime,
            state: self.state,
            parent: self.parent@,
            leader: self.leader@,
            log_level: self.log_level,
        }
    }
}

/// The views of a sequence of process summaries.
pub open spec fn processes_view(v: Seq<ProcessShortInfo>) -> Seq<ProcessView> {
    v.map_values(|p: ProcessShortInfo| p@)
}

/// The mathematical value of an [`ApplicationTreeMessage`].
pub struct SnapshotView {
    pub node: Seq<char>,
    pub application: Seq<char>,
    pub processes: Seq<ProcessView>,
}

impl View for ApplicationTreeMessage {
    type V = SnapshotView;

    open spec fn view(&self) -> SnapshotView {
        SnapshotView {
            node: self.node@,
            application: self.application@,
            processes: processes_view(self.processes@),
        }
    }
}

/// `gen.MessageInspectApplicationTree`: a snapshot of one application.
#[derive(Debug, Clone)]
pub struct ApplicationTreeMessage {
    pub node: String,
    pub application: String,
    pub processes: Vec<ProcessShortInfo>,
}

} // verus!
