use polyjuice::envmap::EnvironmentMap;
use polyjuice::harvest::Error;
use polyjuice::supervise::{execution_plan, exit_outcome, ExitOutcome, LineAccumulator, StreamSource, TaggedLine};
use polyjuice::{CmdError, UserIdentity};

fn alice() -> UserIdentity {
    UserIdentity {
        username: "alice".to_string(),
        uid: 1000,
        gid: 1000,
        home: "/home/alice".to_string(),
    }
}

#[test]
fn accumulator_cuts_lines_at_line_feeds() {
    let mut a = LineAccumulator::new();
    let lines = a.push_chunk(&b"hi\n".to_vec());
    assert_eq!(lines, vec![b"hi".to_vec()]);
    assert!(a.finish().is_none());
}

#[test]
fn accumulator_joins_bytes_split_across_chunks() {
    let mut a = LineAccumulator::new();
    assert!(a.push_chunk(&b"first ha".to_vec()).is_empty());
    let lines = a.push_chunk(&b"lf\nsecond\nthird".to_vec());
    assert_eq!(lines, vec![b"first half".to_vec(), b"second".to_vec()]);
    assert_eq!(a.finish().unwrap(), b"third".to_vec());
}

#[test]
fn accumulator_loses_no_byte_of_a_large_stream() {
    // More than one OS pipe buffer's worth of bytes, fed in small chunks:
    // every byte must come back out, in order, on this one stream.
    let line = vec![b'x'; 100];
    let mut input = Vec::new();
    for _ in 0..2000 {
        input.extend_from_slice(&line);
        input.push(b'\n');
    }
    let mut a = LineAccumulator::new();
    let mut seen = Vec::new();
    for chunk in input.chunks(333) {
        for l in a.push_chunk(&chunk.to_vec()) {
            seen.extend_from_slice(&l);
            seen.push(b'\n');
        }
    }
    if let Some(rest) = a.finish() {
        seen.extend_from_slice(&rest);
    }
    assert_eq!(seen, input);
}

#[test]
fn accumulator_keeps_empty_lines() {
    let mut a = LineAccumulator::new();
    let lines = a.push_chunk(&b"\n\nx\n".to_vec());
    assert_eq!(lines, vec![b"".to_vec(), b"".to_vec(), b"x".to_vec()]);
}

#[test]
fn exit_outcome_distinguishes_code_from_signal() {
    assert_eq!(exit_outcome(Some(0)), ExitOutcome::Exited(0));
    assert_eq!(exit_outcome(Some(7)), ExitOutcome::Exited(7));
    assert_eq!(exit_outcome(None), ExitOutcome::Signaled);
}

#[test]
fn exit_outcome_success_is_exactly_code_zero() {
    assert!(exit_outcome(Some(0)).is_success());
    assert!(!exit_outcome(Some(1)).is_success());
    assert!(!exit_outcome(None).is_success());
}

#[test]
fn execution_plan_carries_identity_and_environment_unchanged() {
    let mut env = EnvironmentMap::new();
    env.insert("HOME".to_string(), "/home/alice".to_string());
    let plan = execution_plan(
        "echo".to_string(),
        vec!["hi".to_string()],
        &alice(),
        env,
    );
    assert_eq!(plan.program, "echo");
    assert_eq!(plan.args, vec!["hi".to_string()]);
    assert_eq!(plan.uid, 1000);
    assert_eq!(plan.gid, 1000);
    assert_eq!(plan.env.get(&"HOME".to_string()).unwrap(), "/home/alice");
}

#[test]
fn tagged_lines_carry_their_stream_of_origin() {
    let out = TaggedLine { source: StreamSource::Stdout, bytes: b"hi".to_vec() };
    let err = TaggedLine { source: StreamSource::Stderr, bytes: b"oops".to_vec() };
    assert_eq!(out.source, StreamSource::Stdout);
    assert_eq!(err.source, StreamSource::Stderr);
    assert_ne!(out, err);
}

#[test]
fn environment_map_inserts_and_overrides() {
    let mut m = EnvironmentMap::new();
    assert_eq!(m.len(), 0);
    m.insert("A".to_string(), "1".to_string());
    m.insert("B".to_string(), "2".to_string());
    m.insert("A".to_string(), "3".to_string());
    assert_eq!(m.len(), 2);
    assert_eq!(m.get(&"A".to_string()).unwrap(), "3");
    assert_eq!(m.get(&"B".to_string()).unwrap(), "2");
    assert!(m.get(&"C".to_string()).is_none());
}

#[test]
fn environment_map_pairs_expose_every_entry() {
    let mut m = EnvironmentMap::new();
    m.insert("A".to_string(), "1".to_string());
    m.insert("B".to_string(), "2".to_string());
    let pairs = m.pairs();
    assert_eq!(pairs.len(), 2);
    assert!(pairs.contains(&("A".to_string(), "1".to_string())));
    assert!(pairs.contains(&("B".to_string(), "2".to_string())));
}

#[test]
fn merged_environment_prefers_harvested_values() {
    let mut harvested = EnvironmentMap::new();
    harvested.insert("PATH".to_string(), "/usr/bin".to_string());
    harvested.insert("HOME".to_string(), "/home/alice".to_string());
    let mut session_env = EnvironmentMap::new();
    session_env.insert("PATH".to_string(), "/sbin".to_string());
    session_env.insert("LANG".to_string(), "C".to_string());
    let merged = harvested.merged_over(session_env);
    assert_eq!(merged.len(), 3);
    assert_eq!(merged.get(&"PATH".to_string()).unwrap(), "/usr/bin");
    assert_eq!(merged.get(&"HOME".to_string()).unwrap(), "/home/alice");
    assert_eq!(merged.get(&"LANG".to_string()).unwrap(), "C");
}

#[test]
fn cmd_error_messages() {
    assert_eq!(CmdError::UserNotFound.message(), "User not found");
    assert_eq!(
        CmdError::FailedGettingEnv(Error::InsufficientPrivilege).message(),
        "Failed to get user environment: Insufficient privileges"
    );
    assert_eq!(
        CmdError::SpawnFailed("permission denied".to_string()).message(),
        "Failed to start process: permission denied"
    );
}
