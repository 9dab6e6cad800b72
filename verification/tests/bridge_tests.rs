use tether::bridge::{
    connection_target, mirror_client_action, read_step, terminal_client_action, write_keeps_going, ClientEvent,
    Connection, MirrorAction, ReadStep, TerminalAction, CLEANUP_DELAY_SECS,
};

#[test]
fn mirror_wins_over_terminal() {
    assert!(matches!(connection_target(Some("t".into()), Some("m".into())), Connection::Mirror(m) if m == "m"));
    assert!(matches!(connection_target(Some("t".into()), None), Connection::Existing(t) if t == "t"));
    assert!(matches!(connection_target(None, None), Connection::SpawnNew));
}

#[test]
fn mirror_actions() {
    assert!(matches!(mirror_client_action(ClientEvent::Text("ls".into())), MirrorAction::Input(t) if t == "ls"));
    assert!(matches!(mirror_client_action(ClientEvent::Binary(b"pwd".to_vec())), MirrorAction::Input(t) if t == "pwd"));
    assert!(matches!(mirror_client_action(ClientEvent::Binary(vec![0xff, 0xfe])), MirrorAction::Ignore));
    assert!(matches!(mirror_client_action(ClientEvent::Close), MirrorAction::Stop));
    assert!(matches!(mirror_client_action(ClientEvent::Failed), MirrorAction::Stop));
    assert!(matches!(mirror_client_action(ClientEvent::Ended), MirrorAction::Stop));
    assert!(matches!(mirror_client_action(ClientEvent::Other), MirrorAction::Ignore));
}

#[test]
fn terminal_actions() {
    assert!(matches!(terminal_client_action(ClientEvent::Text("h\u{e9}".into())), TerminalAction::Write(b) if b == "h\u{e9}".as_bytes()));
    assert!(matches!(terminal_client_action(ClientEvent::Binary(vec![1, 2, 0xff])), TerminalAction::Write(b) if b == vec![1, 2, 0xff]));
    assert!(matches!(terminal_client_action(ClientEvent::Close), TerminalAction::Stop));
    assert!(matches!(terminal_client_action(ClientEvent::Other), TerminalAction::Ignore));
    assert!(write_keeps_going(0));
    assert!(write_keeps_going(5));
    assert!(!write_keeps_going(-1));
}

#[test]
fn read_steps() {
    let buf = *b"hello\xffworld";
    assert!(matches!(read_step(0, &buf, false), ReadStep::Stop));
    assert!(matches!(read_step(5, &buf, false), ReadStep::Output(t) if t == "hello"));
    assert!(matches!(read_step(7, &buf, false), ReadStep::Output(t) if t == "hello\u{FFFD}w"));
    assert!(matches!(read_step(-1, &buf, true), ReadStep::Retry));
    assert!(matches!(read_step(-1, &buf, false), ReadStep::Stop));
    assert_eq!(CLEANUP_DELAY_SECS, 30);
}
