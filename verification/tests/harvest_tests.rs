use polyjuice::envmap::EnvironmentMap;
use polyjuice::harvest::{harvest_begin, harvest_outcome, harvest_plan, parse_env_output, Error};

fn parsed(bytes: &[u8]) -> EnvironmentMap {
    parse_env_output(&bytes.to_vec())
}

fn value_of(m: &EnvironmentMap, key: &str) -> Option<String> {
    m.get(&key.to_string()).cloned()
}

#[test]
fn harvest_three_records_skips_malformed_line() {
    let m = parsed(b"USER=alice\nHOME=/home/alice\nmalformed\nPATH=/usr/bin\n");
    assert_eq!(m.len(), 3);
    assert_eq!(value_of(&m, "USER").unwrap(), "alice");
    assert_eq!(value_of(&m, "HOME").unwrap(), "/home/alice");
    assert_eq!(value_of(&m, "PATH").unwrap(), "/usr/bin");
    assert!(value_of(&m, "malformed").is_none());
}

#[test]
fn harvest_last_occurrence_of_key_wins() {
    let m = parsed(b"A=1\nA=2\n");
    assert_eq!(m.len(), 1);
    assert_eq!(value_of(&m, "A").unwrap(), "2");
}

#[test]
fn harvest_lines_without_equals_contribute_nothing() {
    let m = parsed(b"no equals here\n\nanother\nK=v\n");
    assert_eq!(m.len(), 1);
    assert_eq!(value_of(&m, "K").unwrap(), "v");
}

#[test]
fn harvest_empty_output_gives_empty_map() {
    let m = parsed(b"");
    assert_eq!(m.len(), 0);
}

#[test]
fn harvest_splits_at_first_equals_only() {
    let m = parsed(b"EXPR=a=b=c\n");
    assert_eq!(value_of(&m, "EXPR").unwrap(), "a=b=c");
}

#[test]
fn harvest_keeps_empty_names_and_values() {
    let m = parsed(b"EMPTY=\n=value\n");
    assert_eq!(m.len(), 2);
    assert_eq!(value_of(&m, "EMPTY").unwrap(), "");
    assert_eq!(value_of(&m, "").unwrap(), "value");
}

#[test]
fn harvest_strips_carriage_return_before_line_feed() {
    let m = parsed(b"A=1\r\nB=2\r\n");
    assert_eq!(value_of(&m, "A").unwrap(), "1");
    assert_eq!(value_of(&m, "B").unwrap(), "2");
}

#[test]
fn harvest_final_line_needs_no_line_feed() {
    let m = parsed(b"A=1\nB=2");
    assert_eq!(m.len(), 2);
    assert_eq!(value_of(&m, "B").unwrap(), "2");
}

#[test]
fn harvest_replaces_invalid_utf8_lossily() {
    let m = parsed(b"K=\xff\xfe\n");
    assert_eq!(value_of(&m, "K").unwrap(), "\u{fffd}\u{fffd}");
}

#[test]
fn harvest_plan_refuses_unprivileged_caller() {
    let r = harvest_plan(&"alice".to_string(), 1000);
    assert!(matches!(r, Err(Error::InsufficientPrivilege)));
}

#[test]
fn harvest_plan_builds_su_invocation_for_root() {
    let inv = harvest_plan(&"alice".to_string(), 0).unwrap();
    assert_eq!(inv.program, "su");
    assert_eq!(inv.args, vec!["-", "alice", "-c", "printenv"]);
}

#[test]
fn harvest_begin_decides_from_real_effective_uid() {
    match harvest_begin(&"alice".to_string()) {
        Ok(inv) => assert_eq!(inv.program, "su"),
        Err(e) => assert_eq!(e, Error::InsufficientPrivilege),
    }
}

#[test]
fn failed_helper_surfaces_stderr_bytes_verbatim() {
    let stderr = b"su: user nosuchuser does not exist\n".to_vec();
    let r = harvest_outcome(false, &b"ignored".to_vec(), stderr.clone());
    match r {
        Err(Error::HelperProcessFailed(bytes)) => assert_eq!(bytes, stderr),
        Err(other) => panic!("expected HelperProcessFailed, got {:?}", other),
        Ok(_) => panic!("expected HelperProcessFailed, got a parsed map"),
    }
}

#[test]
fn successful_helper_output_is_parsed() {
    let m = harvest_outcome(true, &b"A=1\n".to_vec(), Vec::new()).unwrap();
    assert_eq!(m.len(), 1);
    assert_eq!(value_of(&m, "A").unwrap(), "1");
}

#[test]
fn harvest_error_messages() {
    assert_eq!(Error::InsufficientPrivilege.message(), "Insufficient privileges");
    assert_eq!(
        Error::HelperProcessUnavailable("no such file".to_string()).message(),
        "Failed executing command: no such file"
    );
    assert_eq!(
        Error::HelperProcessFailed(b"boom".to_vec()).message(),
        "Command exited: boom"
    );
}
