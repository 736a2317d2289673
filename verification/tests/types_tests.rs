use ergo_observer::types::{ErgoPid, LogLevel, PidError, ProcessState};

#[test]
fn pid_with_brackets_parses() {
    let pid = ErgoPid::parse("<8A52E3F1.0.1005>").unwrap();
    assert_eq!(pid.node, "8A52E3F1");
    assert_eq!(pid.id, 1005);
    assert_eq!(pid.creation, 0);
}

#[test]
fn pid_high_part_is_upper_word() {
    let pid = ErgoPid::parse("<1.2.3>").unwrap();
    assert_eq!(pid.id, (2u64 << 32) | 3);
}

#[test]
fn pid_negative_halves_wrap_to_32_bits() {
    let pid = ErgoPid::parse("<1.-1.-1>").unwrap();
    assert_eq!(pid.id, u64::MAX);
    let pid = ErgoPid::parse("<1.0.-2>").unwrap();
    assert_eq!(pid.id, 0xffff_fffe);
}

#[test]
fn pid_without_brackets_and_with_repeated_brackets() {
    assert_eq!(ErgoPid::parse("7.0.9").unwrap().id, 9);
    let pid = ErgoPid::parse("<<<ab.0.4>>>").unwrap();
    assert_eq!(pid.node, "ab");
    assert_eq!(pid.id, 4);
}

#[test]
fn pid_with_plus_sign_parses() {
    assert_eq!(ErgoPid::parse("<x.+1.+2>").unwrap().id, (1u64 << 32) | 2);
}

#[test]
fn pid_with_too_few_parts_is_invalid_format() {
    assert_eq!(ErgoPid::parse("<1.2>").unwrap_err(), PidError::InvalidFormat);
    assert_eq!(ErgoPid::parse("").unwrap_err(), PidError::InvalidFormat);
    assert_eq!(ErgoPid::parse("<>").unwrap_err(), PidError::InvalidFormat);
}

#[test]
fn pid_with_bad_numbers_is_invalid_number() {
    assert_eq!(ErgoPid::parse("<1.x.2>").unwrap_err(), PidError::InvalidNumber);
    assert_eq!(ErgoPid::parse("<1.2.>").unwrap_err(), PidError::InvalidNumber);
    assert_eq!(ErgoPid::parse("<1.-.2>").unwrap_err(), PidError::InvalidNumber);
    // the third part keeps every dot after the second one
    assert_eq!(ErgoPid::parse("<1.2.3.4>").unwrap_err(), PidError::InvalidNumber);
    // out of the i64 range
    assert_eq!(ErgoPid::parse("<1.9223372036854775808.0>").unwrap_err(), PidError::InvalidNumber);
}

#[test]
fn pid_at_i64_limits() {
    let pid = ErgoPid::parse("<n.9223372036854775807.-9223372036854775808>").unwrap();
    assert_eq!(pid.id, (0xffff_ffffu64 << 32) | 0);
}

#[test]
fn process_state_names_round_trip() {
    let all = [
        ProcessState::Init,
        ProcessState::Sleep,
        ProcessState::Running,
        ProcessState::WaitResponse,
        ProcessState::Terminated,
        ProcessState::Zombee,
    ];
    for s in all {
        assert_eq!(ProcessState::parse(s.as_str()), Some(s));
    }
    assert_eq!(ProcessState::WaitResponse.as_str(), "wait_response");
}

#[test]
fn process_state_accepts_both_wait_spellings() {
    assert_eq!(ProcessState::parse("waitresponse"), Some(ProcessState::WaitResponse));
    assert_eq!(ProcessState::parse("wait_response"), Some(ProcessState::WaitResponse));
    assert_eq!(ProcessState::parse("Running"), None);
    assert_eq!(ProcessState::parse(""), None);
}

#[test]
fn log_level_names() {
    assert_eq!(LogLevel::LogError.as_str(), "error");
    assert_eq!(LogLevel::parse("error"), Some(LogLevel::LogError));
    assert_eq!(LogLevel::parse("disabled"), Some(LogLevel::Disabled));
    assert_eq!(LogLevel::parse("fatal"), None);
    for l in [
        LogLevel::System,
        LogLevel::Trace,
        LogLevel::Debug,
        LogLevel::Default,
        LogLevel::Info,
        LogLevel::Warning,
        LogLevel::LogError,
        LogLevel::Panic,
        LogLevel::Disabled,
    ] {
        assert_eq!(LogLevel::parse(l.as_str()), Some(l));
    }
}

#[test]
fn pid_wire_form_round_trips() {
    let ids: [u64; 7] = [0, 5, 0x1_0000_0000, 0x8000_0000, 0xFFFF_FFFF_0000_0005, u64::MAX, 1 << 63];
    for id in ids {
        let high = (id >> 32) as i32;
        let low = id as i32;
        let wire = format!("<3A1F.{high}.{low}>");
        let pid = ErgoPid::parse(&wire).unwrap();
        assert_eq!(pid.id, id, "{wire}");
        assert_eq!(pid.node, "3A1F");
        assert_eq!(pid.creation, 0);
    }
}
