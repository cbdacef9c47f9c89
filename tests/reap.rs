use runc_sandboxer::frame::{decode_pid, decode_request, encode_pid, encode_request};
use runc_sandboxer::frame::REQUEST_LEN;
use runc_sandboxer::leader::{leader_plan, parent_comm, plan_for_frame, sandbox_comm};
use runc_sandboxer::reap::{exit_code_of_signal, next_reap_action, ReapAction, WaitOutcome};

#[test]
fn exited_child_reports_its_status() {
    assert_eq!(
        next_reap_action(WaitOutcome::Exited { pid: 100, status: 7 }),
        ReapAction::Report { pid: 100, code: 7 }
    );
}

#[test]
fn signalled_child_reports_128_plus_signal() {
    assert_eq!(exit_code_of_signal(9), 137);
    assert_eq!(
        next_reap_action(WaitOutcome::Signaled { pid: 101, signal: 9 }),
        ReapAction::Report { pid: 101, code: 137 }
    );
}

#[test]
fn reap_pass_ends() {
    assert_eq!(next_reap_action(WaitOutcome::NoChildren), ReapAction::Stop);
    assert_eq!(next_reap_action(WaitOutcome::StillAlive), ReapAction::Stop);
    assert_eq!(next_reap_action(WaitOutcome::Failed(22)), ReapAction::StopOnError(22));
    assert_eq!(next_reap_action(WaitOutcome::OtherChange), ReapAction::WaitAgain);
}

#[test]
fn comm_names() {
    assert_eq!(parent_comm(), b"[sandbox-parent]\0".to_vec());
    assert_eq!(sandbox_comm(b"abc"), Some(b"[sandbox-abc]\0".to_vec()));
    assert_eq!(sandbox_comm(b"a\0c"), None);
}

#[test]
fn leader_plan_joins_netns_only_when_given() {
    let req = decode_request(&encode_request(b"abc", b"").unwrap()).unwrap();
    let plan = leader_plan(req);
    assert_eq!(plan.comm, b"[sandbox-abc]\0".to_vec());
    assert!(plan.netns.is_none());
    let req = decode_request(&encode_request(b"abc", b"/run/netns/x").unwrap()).unwrap();
    assert_eq!(leader_plan(req).netns, Some(b"/run/netns/x".to_vec()));
}

#[test]
fn request_then_kill_reports_137() {
    // The service reads the request, answers with the leader's pid, and the
    // leader is later killed with SIGKILL and reaped.
    let frame = encode_request(b"abc", b"").unwrap();
    let req = decode_request(&frame).unwrap();
    assert_eq!(req.id, b"abc".to_vec());
    assert!(req.netns.is_empty());
    let response = encode_pid(4321);
    assert_eq!(response.len(), 4);
    let pid = decode_pid(&response);
    assert!(pid > 0);
    assert_eq!(
        next_reap_action(WaitOutcome::Signaled { pid, signal: 9 }),
        ReapAction::Report { pid: 4321, code: 137 }
    );
}

#[test]
fn plan_for_request_frame() {
    let frame = encode_request(b"sb1", b"/run/netns/n1").unwrap();
    let (id, plan) = plan_for_frame(&frame).unwrap();
    assert_eq!(id, b"sb1".to_vec());
    assert_eq!(plan.comm, b"[sandbox-sb1]\0".to_vec());
    assert_eq!(plan.netns, Some(b"/run/netns/n1".to_vec()));
    let (_, plan) = plan_for_frame(&encode_request(b"sb2", b"").unwrap()).unwrap();
    assert!(plan.netns.is_none());
    assert!(plan_for_frame(&vec![1u8; REQUEST_LEN]).is_none());
}
