use chrono::{Duration, Local};
use skate_util::command::{manifest_path, play_args, transfer_encoded_cmd, transfer_file_cmd};
use skate_util::hash::hash_string;
use skate_util::labels::{unique_label_keys, Label};
use skate_util::lock::{lock_start, lock_step, LockAction, LockError, LockEvent, LockState};
use skate_util::report::{age, tabled_display_option, version, BuildInfo};

#[test]
fn test_age() {
    let conditions = &[
        (Local::now(), "0s"),
        (Local::now() - Duration::seconds(20), "20s"),
        (Local::now() - Duration::minutes(20), "20m"),
        (Local::now() - Duration::minutes(20 * 60), "20h"),
        (Local::now() - Duration::minutes(20 * 60 * 24), "20d"),
    ];

    for (input, expect) in conditions {
        let elapsed = Local::now().signed_duration_since(*input).to_std().ok();
        let output = age(elapsed.map(|d| d.as_secs()));
        assert_eq!(output, *expect, "input: {}", input);
    }
}

#[test]
fn age_units() {
    assert_eq!(age(Some(0)), "0s");
    assert_eq!(age(Some(59)), "59s");
    assert_eq!(age(Some(60)), "1m");
    assert_eq!(age(Some(3599)), "59m");
    assert_eq!(age(Some(3600)), "1h");
    assert_eq!(age(Some(86399)), "23h");
    assert_eq!(age(Some(86400)), "1d");
    assert_eq!(age(Some(86400 * 1234 + 5)), "1234d");
    assert_eq!(age(Some(u64::MAX)), "213503982334601d");
    assert_eq!(age(None), "");
}

#[test]
fn version_short_and_long() {
    let build = BuildInfo {
        tag: "v1.2.3".to_string(),
        branch: "main".to_string(),
        commit_hash: "abc123".to_string(),
        build_time: "2024-01-01".to_string(),
    };
    assert_eq!(version(false, &build), "v1.2.3");
    assert_eq!(
        version(true, &build),
        "v1.2.3\nbranch:main\ncommit_hash:abc123\nbuild_time:2024-01-01"
    );
    let untagged = BuildInfo { tag: String::new(), ..build };
    assert_eq!(version(false, &untagged), "abc123");
}

#[test]
fn display_option() {
    assert_eq!(tabled_display_option(&Some("x".to_string())), "x");
    assert_eq!(tabled_display_option(&None), "-");
}

#[test]
fn transfer_command() {
    assert_eq!(
        transfer_file_cmd("hello", "/tmp/x"),
        "sudo bash -c -eu 'echo aGVsbG8=| base64 --decode > /tmp/x'"
    );
    assert_eq!(
        transfer_encoded_cmd("QQ==", "/etc/a"),
        "sudo bash -c -eu 'echo QQ==| base64 --decode > /etc/a'"
    );
}

#[test]
fn manifest_path_holds_the_hash() {
    let manifest = "kind: Pod\n";
    assert_eq!(manifest_path(manifest), format!("/tmp/skate-{}.yaml", hash_string(manifest)));
}

#[test]
fn play_arguments() {
    assert_eq!(
        play_args("/tmp/a.yaml", false),
        vec!["play", "kube", "/tmp/a.yaml", "--start", "--network=skate"]
    );
    assert_eq!(play_args("/tmp/a.yaml", true), vec!["play", "kube", "/tmp/a.yaml", "--start"]);
}

#[test]
fn unique_keys_check() {
    assert!(unique_label_keys(&vec![]));
    assert!(unique_label_keys(&vec![Label::new("a", "1"), Label::new("b", "1")]));
    assert!(!unique_label_keys(&vec![
        Label::new("a", "1"),
        Label::new("b", "1"),
        Label::new("a", "2")
    ]));
}

fn drive(events: &[LockEvent]) -> (LockState, Vec<LockAction>) {
    let mut state = lock_start();
    let mut actions = Vec::new();
    for e in events {
        let (next, action) = lock_step(state, *e).unwrap();
        state = next;
        actions.push(action);
    }
    (state, actions)
}

#[test]
fn lock_runs_and_releases() {
    let (state, actions) = drive(&[
        LockEvent::Start,
        LockEvent::Opened,
        LockEvent::Acquired,
        LockEvent::ComputationReturned,
        LockEvent::Released,
    ]);
    assert_eq!(state, LockState::Finished);
    assert_eq!(
        actions,
        vec![
            LockAction::OpenFile,
            LockAction::Acquire,
            LockAction::Run,
            LockAction::Release,
            LockAction::ReturnResult
        ]
    );
}

#[test]
fn lock_failures() {
    let (state, actions) = drive(&[LockEvent::Start, LockEvent::OpenFailed]);
    assert_eq!(state, LockState::Finished);
    assert_eq!(actions[1], LockAction::Fail(LockError::LockAcquisitionFailure));
    let (_, actions) = drive(&[LockEvent::Start, LockEvent::Opened, LockEvent::AcquireFailed]);
    assert_eq!(actions[2], LockAction::Fail(LockError::LockAcquisitionFailure));
    assert!(!actions.contains(&LockAction::Run));
    let (_, actions) = drive(&[
        LockEvent::Start,
        LockEvent::Opened,
        LockEvent::Acquired,
        LockEvent::ComputationReturned,
        LockEvent::ReleaseFailed,
    ]);
    assert_eq!(actions[4], LockAction::Fail(LockError::LockReleaseFailure));
}

#[test]
fn lock_rejects_events_out_of_turn() {
    assert_eq!(lock_step(LockState::Idle, LockEvent::Acquired), None);
    assert_eq!(lock_step(LockState::Running, LockEvent::Released), None);
    assert_eq!(lock_step(LockState::Finished, LockEvent::Start), None);
}

#[test]
fn vec_into_converts_in_order() {
    let wide: Vec<u32> = skate_util::convert::VecInto::vec_into(vec![1u8, 2, 3]);
    assert_eq!(wide, vec![1u32, 2, 3]);
    let none: Vec<u64> = skate_util::convert::convert_all(Vec::<u8>::new());
    assert!(none.is_empty());
    assert_eq!(skate_util::convert::reversed(vec![1, 2, 3]), vec![3, 2, 1]);
}

#[test]
fn try_vec_into_stops_at_the_first_failure() {
    let ok: Result<Vec<u8>, _> = skate_util::convert::TryVecInto::try_vec_into(vec![1i32, 2, 255]);
    assert_eq!(ok.unwrap(), vec![1u8, 2, 255]);
    let bad: Result<Vec<u8>, _> = skate_util::convert::try_convert_all(vec![1i32, 256, -1]);
    assert!(bad.is_err());
}
