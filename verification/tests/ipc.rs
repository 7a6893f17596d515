use std::time::Duration;

use pinentry_dms::assuan::State;
use pinentry_dms::ipc::{dialog_deadline, zeroize_string};

#[test]
fn zeroize_string_clears_buffer() {
    let mut s = String::from("s3cr3t");
    zeroize_string(&mut s);
    assert!(s.is_empty());
}

#[test]
fn dialog_deadline_exceeds_modal_default_when_no_timeout() {
    // No SETTIMEOUT: modal defaults to 60s, IPC deadline must be 60s+buffer
    // so the plugin's "timeout" response wins the race.
    let state = State::default();
    assert_eq!(Duration::from_secs(dialog_deadline(&state)), Duration::from_secs(70));
}

#[test]
fn dialog_deadline_uses_settimeout_plus_buffer() {
    let state = State {
        timeout: 30,
        ..Default::default()
    };
    assert_eq!(Duration::from_secs(dialog_deadline(&state)), Duration::from_secs(40));
}
