use tianxuan::services::batch::{batch_result, count_outcomes, crashed_result};
use tianxuan::services::ssh_client::{
    check_known_host, decimal_string, disconnect_message, host_key_verdict, DisconnectReason,
    KeyVerdict, is_pong, known_host_entry, ChannelEvent, HostKeyCheck,
    SshHandler, SshResult,
};
use tianxuan::services::terminal::{
    session_output, session_step, SessionAction, SessionCommand, SessionEvent,
};
use tianxuan::models::host::{AuthType, Host};

#[test]
fn host_identifier_brackets_non_default_ports() {
    assert_eq!(SshHandler::new("example.com".to_string(), 22).host_identifier(), "example.com");
    assert_eq!(
        SshHandler::new("10.0.0.1".to_string(), 2222).host_identifier(),
        "[10.0.0.1]:2222"
    );
    assert_eq!(decimal_string(0), "0");
    assert_eq!(decimal_string(65535), "65535");
}

#[test]
fn known_hosts_decisions() {
    let content = "other ssh-ed25519 AAAA\nexample.com ssh-ed25519 KEY1\nexample.com ssh-rsa KEY2\n";
    assert_eq!(check_known_host(content, "example.com", "ssh-ed25519", "KEY1"), HostKeyCheck::Known);
    assert_eq!(check_known_host(content, "example.com", "ssh-rsa", "KEY2"), HostKeyCheck::Changed);
    assert_eq!(check_known_host(content, "new.host", "ssh-rsa", "KEY2"), HostKeyCheck::Unknown);
    assert_eq!(check_known_host("", "a", "b", "c"), HostKeyCheck::Unknown);
    // a line of fewer than three words does not decide
    assert_eq!(check_known_host("example.com\n", "example.com", "t", "k"), HostKeyCheck::Unknown);
}

#[test]
fn appended_entry_is_recognised() {
    let content = "other ssh-ed25519 AAAA\n";
    let entry = known_host_entry("[h]:2200", "ssh-ed25519", "KEY");
    assert_eq!(entry, "[h]:2200 ssh-ed25519 KEY");
    assert_eq!(check_known_host(content, "[h]:2200", "ssh-ed25519", "KEY"), HostKeyCheck::Unknown);
    let after = format!("{content}{entry}\n");
    assert_eq!(check_known_host(&after, "[h]:2200", "ssh-ed25519", "KEY"), HostKeyCheck::Known);
}

#[test]
fn host_key_verdicts() {
    let content = "example.com ssh-ed25519 KEY1\n";
    assert_eq!(
        host_key_verdict(Some(content), "example.com", "ssh-ed25519", "KEY1"),
        KeyVerdict::Accept
    );
    assert_eq!(
        host_key_verdict(Some(content), "example.com", "ssh-ed25519", "OTHER"),
        KeyVerdict::Reject
    );
    assert_eq!(
        host_key_verdict(Some(content), "new.host", "ssh-ed25519", "KEY1"),
        KeyVerdict::AcceptAndRecord
    );
    assert_eq!(host_key_verdict(None, "h", "t", "k"), KeyVerdict::AcceptAndRecord);
    // first use with no file: record, then the next connection is accepted
    let after = format!("{}\n", known_host_entry("h", "t", "k"));
    assert_eq!(host_key_verdict(Some(&after), "h", "t", "k"), KeyVerdict::Accept);
}

#[test]
fn pong_reply() {
    assert!(is_pong("tianxuan-pong\n"));
    assert!(is_pong("  tianxuan-pong"));
    assert!(!is_pong("tianxuan-pong extra"));
    assert!(!is_pong(""));
}

#[test]
fn command_output_collects_streams() {
    let mut r = SshResult::empty();
    r.record(&ChannelEvent::Data(b"one ".to_vec()));
    r.record(&ChannelEvent::ExtendedData(b"warn".to_vec()));
    r.record(&ChannelEvent::Data(vec![0x74, 0x77, 0x6f, 0xff]));
    r.record(&ChannelEvent::Other);
    r.record(&ChannelEvent::ExitStatus(3));
    assert_eq!(r.stdout, "one two\u{fffd}");
    assert_eq!(r.stderr, "warn");
    assert_eq!(r.exit_code, Some(3));
}

#[test]
fn session_output_forwarding() {
    assert_eq!(session_output(&ChannelEvent::Data(b"hi".to_vec())), Some("hi".to_string()));
    assert_eq!(session_output(&ChannelEvent::ExtendedData(b"e".to_vec())), Some("e".to_string()));
    assert_eq!(session_output(&ChannelEvent::ExitStatus(0)), Some("\u{0}[EXIT]".to_string()));
    assert_eq!(session_output(&ChannelEvent::Other), None);
}

#[test]
fn disconnect_messages() {
    assert_eq!(
        disconnect_message(&DisconnectReason::ReceivedDisconnect("bye".to_string())),
        "SSH server disconnected: bye"
    );
    assert_eq!(
        disconnect_message(&DisconnectReason::Error("timeout".to_string())),
        "SSH connection error: timeout"
    );
}

#[test]
fn session_driver_steps() {
    assert!(matches!(
        session_step(SessionEvent::Command(SessionCommand::Write(b"ls\r".to_vec()))),
        SessionAction::Send(d) if d == b"ls\r".to_vec()
    ));
    assert!(matches!(
        session_step(SessionEvent::Command(SessionCommand::Resize(120, 40))),
        SessionAction::WindowChange(120, 40)
    ));
    assert!(matches!(
        session_step(SessionEvent::Command(SessionCommand::Close)),
        SessionAction::CloseChannel
    ));
    assert!(matches!(session_step(SessionEvent::CommandsClosed), SessionAction::CloseChannel));
    assert!(matches!(
        session_step(SessionEvent::Channel(ChannelEvent::Data(vec![0x6f, 0x6b, 0xff]))),
        SessionAction::Emit(t) if t == "ok\u{fffd}"
    ));
    assert!(matches!(
        session_step(SessionEvent::Channel(ChannelEvent::ExitStatus(1))),
        SessionAction::Emit(t) if t == "\u{0}[EXIT]"
    ));
    assert!(matches!(
        session_step(SessionEvent::Channel(ChannelEvent::Other)),
        SessionAction::Ignore
    ));
    assert!(matches!(session_step(SessionEvent::ChannelClosed), SessionAction::Stop));
    assert!(matches!(session_step(SessionEvent::ActionFailed), SessionAction::Stop));
}

fn node(name: &str) -> Host {
    Host::new(
        name.to_string(),
        "127.0.0.1".to_string(),
        22,
        "root".to_string(),
        AuthType::Password,
        "ci".to_string(),
        "g".to_string(),
        vec![],
        None,
        None,
    )
}

#[test]
fn batch_results_and_counts() {
    let a = node("node-a");
    let ok = SshResult { stdout: "done".to_string(), stderr: String::new(), exit_code: Some(0) };
    let r1 = batch_result(&a, Ok(ok), 12);
    assert!(r1.success);
    assert_eq!(r1.host_name, "node-a");
    assert_eq!(r1.elapsed_ms, 12);
    let exit3 = SshResult { stdout: String::new(), stderr: String::new(), exit_code: Some(3) };
    let r2 = batch_result(&a, Ok(exit3), 5);
    assert!(!r2.success);
    assert_eq!(r2.exit_code, Some(3));
    let r3 = batch_result(&a, Err("connect failed".to_string()), 7);
    assert!(!r3.success);
    assert_eq!(r3.error, Some("connect failed".to_string()));
    assert!(r3.exit_code.is_none());
    let r4 = crashed_result("panicked".to_string());
    assert_eq!(r4.host_name, "\u{4efb}\u{52a1}\u{5d29}\u{6e83}");
    assert!(r4.host_id.is_empty());
    assert_eq!(count_outcomes(&vec![r1, r2, r3, r4]), (1, 3));
}
