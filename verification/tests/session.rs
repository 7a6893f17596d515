use pinentry_dms::assuan::{Command, Source};
use pinentry_dms::ipc::{
    accept_step, eq_int_zero, zero_bytes, fallback_id_bytes, fallback_runtime_dir, hex_encode,
    read_step, response_complete, socket_file_name, trim_response, ChildStatus, Request,
    Response, WaitFailure, WaitStep,
};
use pinentry_dms::assuan::State;
use pinentry_dms::session::{
    confirm_kind, handle_confirm, handle_get_info, handle_get_pin, handle_message, parse_args,
    Action, Reply, Session,
};

fn argv(a: &[&str]) -> Vec<String> {
    a.iter().map(|s| s.to_string()).collect()
}

fn resp(kind: &str, value: &str) -> Result<Response, String> {
    Ok(Response { kind: kind.into(), value: value.into() })
}

fn err_of(r: Reply) -> (u16, Source, String) {
    match r {
        Reply::Fail(e) => (e.code, e.source, e.message),
        other => panic!("expected an error, got {:?}", other),
    }
}

#[test]
fn parse_args_reads_debug_and_timeout_forms() {
    let a = parse_args(&argv(&["pinentry-dms"]));
    assert!(!a.debug);
    assert_eq!(a.timeout, 0);
    let a = parse_args(&argv(&["p", "--debug", "--timeout", "30"]));
    assert!(a.debug);
    assert_eq!(a.timeout, 30);
    assert_eq!(parse_args(&argv(&["p", "-o", "7"])).timeout, 7);
    assert_eq!(parse_args(&argv(&["p", "--timeout=12"])).timeout, 12);
    assert_eq!(parse_args(&argv(&["p", "-o15"])).timeout, 15);
    assert_eq!(parse_args(&argv(&["p", "-oabc"])).timeout, 0);
    assert_eq!(parse_args(&argv(&["p", "--timeout"])).timeout, 0);
    assert!(parse_args(&argv(&["p", "-d"])).debug);
}

#[test]
fn parse_args_reads_version_and_help() {
    let a = parse_args(&argv(&["p", "--version"]));
    assert!(a.version && !a.help);
    let a = parse_args(&argv(&["p", "--help", "-d"]));
    assert!(a.help && a.debug && !a.version);
    let a = parse_args(&argv(&["p", "--display", "--version"]));
    assert!(!a.version);
}

#[test]
fn parse_args_skips_values_of_standard_options() {
    let a = parse_args(&argv(&["p", "--display", "--debug", "--ttyname", "x", "-o", "9"]));
    assert!(!a.debug);
    assert_eq!(a.timeout, 9);
    let a = parse_args(&argv(&["p", "-W", "-d", "-g", "--timeout=3", "--unknown"]));
    assert!(!a.debug);
    assert_eq!(a.timeout, 3);
}

#[test]
fn get_pin_replies() {
    match handle_get_pin(&resp("pin", "hunter2")) {
        Reply::Data(v) => assert_eq!(v, "hunter2"),
        other => panic!("unexpected {:?}", other),
    }
    assert_eq!(err_of(handle_get_pin(&resp("cancel", ""))), (99, Source::Pinentry, "Operation cancelled".into()));
    assert_eq!(err_of(handle_get_pin(&resp("timeout", ""))), (62, Source::Pinentry, "Timeout".into()));
    assert_eq!(err_of(handle_get_pin(&resp("ok", ""))), (49, Source::Pinentry, "unexpected response".into()));
    assert_eq!(err_of(handle_get_pin(&Err("accept: DMS plugin never connected".into()))), (49, Source::Pinentry, "accept: DMS plugin never connected".into()));
}

#[test]
fn confirm_replies() {
    assert!(matches!(handle_confirm(&resp("ok", "")), Reply::Ack));
    assert_eq!(err_of(handle_confirm(&resp("notok", ""))).0, 114);
    assert_eq!(err_of(handle_confirm(&resp("cancel", ""))).0, 99);
    assert_eq!(err_of(handle_confirm(&resp("timeout", ""))).0, 62);
    assert_eq!(err_of(handle_confirm(&resp("pin", "x"))).2, "unexpected response");
    assert_eq!(confirm_kind(true), "message");
    assert_eq!(confirm_kind(false), "confirm");
}

#[test]
fn message_replies() {
    assert!(matches!(handle_message(&resp("ok", "")), Reply::Ack));
    assert_eq!(err_of(handle_message(&resp("timeout", ""))).0, 62);
    assert_eq!(err_of(handle_message(&resp("cancel", ""))).2, "unexpected response");
    assert_eq!(err_of(handle_message(&Err("boom".into()))).2, "boom");
}

#[test]
fn get_info_replies() {
    match handle_get_info("pid", 4242, "1.2.1") {
        Reply::Data(v) => assert_eq!(v, "4242"),
        other => panic!("unexpected {:?}", other),
    }
    match handle_get_info("version", 1, "1.2.1") {
        Reply::Data(v) => assert_eq!(v, "1.2.1"),
        other => panic!("unexpected {:?}", other),
    }
    match handle_get_info("flavor", 1, "") {
        Reply::Data(v) => assert_eq!(v, "dms"),
        other => panic!("unexpected {:?}", other),
    }
    match handle_get_info("ttyinfo", 1, "") {
        Reply::Data(v) => assert_eq!(v, ""),
        other => panic!("unexpected {:?}", other),
    }
    assert!(matches!(handle_get_info("other", 1, ""), Reply::Ack));
}

#[test]
fn session_dispatches_and_resets() {
    let mut s = Session::new(25);
    let cmd = |n: &str, p: &str| Command { name: n.into(), param: p.into() };
    assert_eq!(s.on_command(&cmd("SETTITLE", "T")), Action::Ack);
    assert_eq!(s.on_command(&cmd("SETERROR", "wrong")), Action::Ack);
    assert_eq!(s.on_command(&cmd("SETTIMEOUT", "5")), Action::Ack);
    assert_eq!(s.state.title, "T");
    assert_eq!(s.on_command(&cmd("GETPIN", "")), Action::ShowPin);
    s.pin_done();
    assert_eq!(s.state.error, "");
    assert_eq!(s.state.title, "T");
    assert_eq!(s.on_command(&cmd("CONFIRM", "--one-button")), Action::ShowConfirm { one_button: true });
    assert_eq!(s.on_command(&cmd("CONFIRM", "")), Action::ShowConfirm { one_button: false });
    assert_eq!(s.on_command(&cmd("MESSAGE", "")), Action::ShowMessage);
    assert_eq!(s.on_command(&cmd("GETINFO", "pid")), Action::GetInfo);
    assert_eq!(s.on_command(&cmd("NOP", "")), Action::Ack);
    assert_eq!(s.on_command(&cmd("UNKNOWN", "x")), Action::Ack);
    assert_eq!(s.on_command(&cmd("RESET", "")), Action::Ack);
    assert_eq!(s.state.title, "");
    assert_eq!(s.state.timeout, 25);
    assert_eq!(s.on_command(&cmd("BYE", "")), Action::Close);
}

#[test]
fn request_from_state_copies_the_dialog() {
    let mut st = State::with_timeout(30);
    st.title = "T".into();
    st.error = "err".into();
    st.key_info = "k".into();
    st.repeat = true;
    let r = Request::from_state("getpin", "/tmp/y.sock", &st);
    assert_eq!(r.kind, "getpin");
    assert_eq!(r.socket, "/tmp/y.sock");
    assert_eq!(r.title, "T");
    assert_eq!(r.error_text, "err");
    assert_eq!(r.key_info, "k");
    assert_eq!(r.timeout, 30);
    assert!(r.repeat && !r.grab);
    assert!(eq_int_zero(&0));
    assert!(!eq_int_zero(&-1));
}

#[test]
fn socket_naming() {
    assert_eq!(hex_encode(&[0x00, 0x0f, 0xa5, 0xff]), "000fa5ff");
    assert_eq!(hex_encode(&[]), "");
    assert_eq!(socket_file_name("0011"), "dms-pinentry-0011.sock");
    assert_eq!(fallback_runtime_dir(1000), "/tmp/dms-pinentry-1000");
    let b = fallback_id_bytes(0x1122_3344, 0);
    assert_eq!(b, vec![0x44, 0x33, 0x22, 0x11, 0x44, 0x33, 0x22, 0x11]);
    let b = fallback_id_bytes(0, 1);
    assert_eq!(b, vec![0x00, 0x01, 0x00, 0x00, 0x00, 0x01, 0x00, 0x00]);
}

#[test]
fn waiting_decisions() {
    assert_eq!(accept_step(ChildStatus::ExitedErr, 0, 70), WaitStep::GiveUp(WaitFailure::DmsUnreachable));
    assert_eq!(accept_step(ChildStatus::ExitedOk, 1_000, 70), WaitStep::Wait);
    assert_eq!(accept_step(ChildStatus::Running, 70_000_000_000, 70), WaitStep::GiveUp(WaitFailure::NeverConnected));
    assert_eq!(accept_step(ChildStatus::Running, 69_999_999_999, 70), WaitStep::Wait);
    assert_eq!(read_step(70_000_000_000, 70), WaitStep::GiveUp(WaitFailure::ReadTimedOut));
    assert_eq!(read_step(1, 70), WaitStep::Wait);
}

#[test]
fn reply_framing() {
    assert!(!response_complete(b"{\"type\":\"pin\""));
    assert!(response_complete(b"{}\n"));
    let mut b = b"{\"type\":\"ok\"} \r\n\n".to_vec();
    trim_response(&mut b);
    assert_eq!(b, b"{\"type\":\"ok\"}".to_vec());
    let mut e = b" \n".to_vec();
    trim_response(&mut e);
    assert!(e.is_empty());
}

#[test]
fn zero_bytes_overwrites_everything() {
    let mut v = b"s3cr3t".to_vec();
    zero_bytes(&mut v);
    assert_eq!(v, vec![0u8; 6]);
}
