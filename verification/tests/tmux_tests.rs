use tether::tmux::{fifo_path, panes_from_output, parse_pane_listing, pipe_command, send_keys_plan, TmuxManager};

#[test]
fn listing_is_parsed_line_by_line() {
    let out = "work:0.0|work|0|0|host|bash\nwork:0.1|work|0|1|title|with|pipe|vim\nbroken|line\n";
    let panes = parse_pane_listing(out);
    assert_eq!(panes.len(), 2);
    assert_eq!(panes[0].pane_id, "work:0.0");
    assert_eq!(panes[0].session_name, "work");
    assert_eq!(panes[0].window_index, "0");
    assert_eq!(panes[0].pane_index, "0");
    assert_eq!(panes[0].pane_title, "host");
    assert_eq!(panes[0].pane_current_command, "bash");
    assert_eq!(panes[1].pane_title, "title");
    assert_eq!(panes[1].pane_current_command, "with|pipe|vim");
}

#[test]
fn failed_listing_reports_stderr() {
    match panes_from_output(false, b"", b"no server running") {
        Err(e) => assert_eq!(e, "tmux error: no server running"),
        Ok(_) => panic!("expected an error"),
    }
    let ok = panes_from_output(true, b"a|b|c|d|e|f\n", b"").ok().unwrap();
    assert_eq!(ok.len(), 1);
    assert_eq!(ok[0].pane_current_command, "f");
}

#[test]
fn special_keys_are_sent_by_name() {
    let p = send_keys_plan("%3", "{Enter}");
    assert_eq!(p.args, vec!["send-keys", "-t", "%3", "Enter"]);
    assert_eq!(p.failure, "Failed to send key");
    let q = send_keys_plan("%3", "{}");
    assert_eq!(q.args, vec!["send-keys", "-t", "%3", ""]);
}

#[test]
fn other_text_is_typed_literally() {
    let p = send_keys_plan("%3", "ls -la");
    assert_eq!(p.args, vec!["send-keys", "-l", "-t", "%3", "ls -la"]);
    assert_eq!(p.failure, "Failed to send keys");
    assert_eq!(send_keys_plan("x", "{").args, vec!["send-keys", "-l", "-t", "x", "{"]);
    assert_eq!(send_keys_plan("x", "}").args, vec!["send-keys", "-l", "-t", "x", "}"]);
    assert_eq!(send_keys_plan("x", "").args, vec!["send-keys", "-l", "-t", "x", ""]);
}

#[test]
fn fifo_and_pipe_command() {
    assert_eq!(fifo_path("work:0.1"), "/tmp/tether-pipe-work:0_1");
    assert_eq!(pipe_command("/tmp/tether-pipe-x"), "cat >> /tmp/tether-pipe-x");
}

#[test]
fn subscriptions_and_pipes() {
    let mut m: TmuxManager<u8, &'static str> = TmuxManager::new();
    assert!(m.needs_pipe("p"));
    m.record_pipe("p", 1);
    assert!(!m.needs_pipe("p"));
    let a = m.add_subscriber("p", "a");
    let b = m.add_subscriber("p", "b");
    let c = m.add_subscriber("q", "c");
    assert_eq!((a, b, c), (0, 1, 2));
    assert_eq!(m.subscribers_of("p").unwrap(), &vec![(0, "a"), (1, "b")]);
    assert!(m.subscribers_of("none").is_none());
    // Dropping one of two keeps the pipe.
    assert!(!m.unsubscribe_pane("p", a));
    assert_eq!(m.subscribers_of("p").unwrap(), &vec![(1, "b")]);
    assert!(!m.needs_pipe("p"));
    // An id that is not on the list changes nothing.
    assert!(!m.unsubscribe_pane("p", c));
    assert_eq!(m.subscribers_of("p").unwrap(), &vec![(1, "b")]);
    // Dropping the last one stops the pipe.
    assert!(m.unsubscribe_pane("p", b));
    assert!(m.needs_pipe("p"));
    // Unknown panes are left alone.
    assert!(!m.unsubscribe_pane("zzz", 7));
    assert_eq!(m.forget_pipe("q"), None);
    assert!(m.resize_pane("p", 10, 10).is_ok());
}

#[test]
fn unsubscribing_undoes_subscribing() {
    let mut m: TmuxManager<u8, u32> = TmuxManager::new();
    m.record_pipe("p", 0);
    m.add_subscriber("p", 1);
    m.add_subscriber("p", 2);
    let last = m.add_subscriber("p", 3);
    assert!(!m.unsubscribe_pane("p", last));
    assert_eq!(m.subscribers_of("p").unwrap(), &vec![(0, 1), (1, 2)]);
    assert!(!m.needs_pipe("p"));
}

#[test]
fn failed_subscribers_are_dropped_and_new_ones_kept() {
    let mut m: TmuxManager<u8, u32> = TmuxManager::new();
    m.record_pipe("p", 0);
    let a = m.add_subscriber("p", 10);
    let b = m.add_subscriber("p", 20);
    m.drop_failed_subscribers("p", &vec![a]);
    let c = m.add_subscriber("p", 30);
    assert_eq!(m.subscribers_of("p").unwrap(), &vec![(b, 20), (c, 30)]);
    // The pipe keeps running even when every subscriber failed.
    m.drop_failed_subscribers("p", &vec![b, c]);
    assert_eq!(m.subscribers_of("p").unwrap(), &Vec::<(u64, u32)>::new());
    assert!(!m.needs_pipe("p"));
    m.drop_failed_subscribers("none", &vec![1]);
    assert!(m.subscribers_of("none").is_none());
}
