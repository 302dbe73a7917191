use adb_trigger::dispatch::{collect_invocations, line_action, plan_connection, response_for};
use adb_trigger::grammar::Command;
use adb_trigger::invoke::{classify_outcome, InvocationError, InvocationResult};

#[test]
fn connect_line_plans_connect_invocation() {
    let a = line_action(b"c-192.168.1.5:5555").unwrap();
    assert_eq!(a, vec![b"connect".to_vec(), b"192.168.1.5:5555".to_vec()]);
}

#[test]
fn garbage_line_plans_no_invocation() {
    assert_eq!(line_action(b"garbage"), None);
}

#[test]
fn successful_pair_is_acknowledged_with_ok_line() {
    let cmd = Command::Pair { address: b"192.168.1.5:5555".to_vec(), code: b"123456".to_vec() };
    let outcome = classify_outcome(true, Some(0), Vec::new(), Vec::new());
    let resp = response_for(&cmd, &outcome);
    assert_eq!(resp, Some(b"ok\n".to_vec()));
}

#[test]
fn failed_pair_gets_no_response() {
    let cmd = Command::Pair { address: b"192.168.1.5:5555".to_vec(), code: b"123456".to_vec() };
    let outcome = classify_outcome(false, Some(1), Vec::new(), Vec::new());
    assert_eq!(response_for(&cmd, &outcome), None);
}

#[test]
fn spawn_failure_on_pair_gets_no_response() {
    let cmd = Command::Pair { address: b"1.2.3.4:5".to_vec(), code: b"000000".to_vec() };
    let outcome: Result<InvocationResult, InvocationError> = Err(InvocationError::SpawnFailed);
    assert_eq!(response_for(&cmd, &outcome), None);
}

#[test]
fn successful_connect_gets_no_response() {
    let cmd = Command::Connect { address: b"192.168.1.5:5555".to_vec() };
    let outcome = classify_outcome(true, Some(0), Vec::new(), Vec::new());
    assert_eq!(response_for(&cmd, &outcome), None);
}

#[test]
fn successful_disconnect_gets_no_response() {
    let cmd = Command::Disconnect { target: b"x".to_vec() };
    let outcome = classify_outcome(true, Some(0), Vec::new(), Vec::new());
    assert_eq!(response_for(&cmd, &outcome), None);
}

#[test]
fn pair_then_connect_dispatches_in_arrival_order() {
    let lines = vec![b"p-1.2.3.4:5-000000".to_vec(), b"c-1.2.3.4:6".to_vec()];
    let invocations = collect_invocations(&lines);
    assert_eq!(
        invocations,
        vec![
            vec![b"pair".to_vec(), b"1.2.3.4:5".to_vec(), b"000000".to_vec()],
            vec![b"connect".to_vec(), b"1.2.3.4:6".to_vec()],
        ]
    );
}

#[test]
fn repeated_disconnect_line_yields_two_independent_invocations() {
    let lines = vec![b"d-X".to_vec(), b"d-X".to_vec()];
    let invocations = collect_invocations(&lines);
    let one = vec![b"disconnect".to_vec(), b"X".to_vec()];
    assert_eq!(invocations, vec![one.clone(), one]);
}

#[test]
fn unrecognized_lines_contribute_no_invocation() {
    let lines = vec![
        b"garbage".to_vec(),
        b"c-1.2.3.4:5".to_vec(),
        b"".to_vec(),
        b"d-Y".to_vec(),
    ];
    let invocations = collect_invocations(&lines);
    assert_eq!(
        invocations,
        vec![
            vec![b"connect".to_vec(), b"1.2.3.4:5".to_vec()],
            vec![b"disconnect".to_vec(), b"Y".to_vec()],
        ]
    );
}

#[test]
fn chunked_stream_plans_the_lines_in_order_and_drops_the_partial_tail() {
    let chunks = vec![
        b"p-1.2.3.4:5-000000\nc-1.".to_vec(),
        b"2.3.4:6\ngarbage\n".to_vec(),
        b"d-X\nc-9.9".to_vec(),
    ];
    let invocations = plan_connection(&chunks);
    assert_eq!(
        invocations,
        vec![
            vec![b"pair".to_vec(), b"1.2.3.4:5".to_vec(), b"000000".to_vec()],
            vec![b"connect".to_vec(), b"1.2.3.4:6".to_vec()],
            vec![b"disconnect".to_vec(), b"X".to_vec()],
        ]
    );
}

#[test]
fn stream_closed_after_partial_line_takes_no_action_on_it() {
    let chunks = vec![b"c-192.168.1.5:55".to_vec()];
    assert_eq!(plan_connection(&chunks), Vec::<Vec<Vec<u8>>>::new());
}

#[test]
fn two_connections_with_different_addresses_plan_independently() {
    let first = vec![b"c-10.0.0.1:1111".to_vec()];
    let second = vec![b"c-10.0.0.2:2222".to_vec()];
    let inv_first = collect_invocations(&first);
    let inv_second = collect_invocations(&second);
    assert_eq!(inv_first, vec![vec![b"connect".to_vec(), b"10.0.0.1:1111".to_vec()]]);
    assert_eq!(inv_second, vec![vec![b"connect".to_vec(), b"10.0.0.2:2222".to_vec()]]);
}
