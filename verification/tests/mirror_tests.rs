use tether::mirror::{
    mirror_id_of, pane_records, session_names, shell_candidates, shell_terminal, shell_terminals, InputRoute, MirrorSource, MirrorState,
    SessionListing, TerminalInfo, TerminalMirror,
};

fn info(id: &str, pts: &str) -> TerminalInfo {
    TerminalInfo {
        id: id.to_string(),
        pts_path: pts.to_string(),
        pid: 1,
        command: "bash".to_string(),
        tmux_session: String::new(),
        tmux_pane: String::new(),
        is_setup: false,
    }
}

#[test]
fn session_listing_outcomes() {
    assert_eq!(session_names(&SessionListing::Unavailable), Err("tmux not available".to_string()));
    assert_eq!(session_names(&SessionListing::Failed), Err("no tmux sessions".to_string()));
    let out = b"work: 2 windows (created Mon)\n monitor : 1 windows\nplain\n".to_vec();
    assert_eq!(session_names(&SessionListing::Listed(out)), Ok(vec!["work".to_string(), "monitor".to_string(), "plain".to_string()]));
}

#[test]
fn pane_records_fall_back_to_pid_zero() {
    let rs = pane_records("%0 1234 /dev/pts/1\n%1 x /dev/pts/2\nshort line\n");
    assert_eq!(rs.len(), 2);
    assert_eq!(rs[0].pane_id, "%0");
    assert_eq!(rs[0].pid, 1234);
    assert_eq!(rs[0].pts_path, "/dev/pts/1");
    assert_eq!(rs[1].pid, 0);
}

#[test]
fn shell_candidates_filter_pids() {
    let ps = b"  100 pts/0 bash\n  150 pts/1 zsh\n  201 pts/2 fish\n  abc pts/3 sh\n  120\n";
    assert_eq!(shell_candidates(ps, 100), vec![150]);
    assert_eq!(shell_candidates(ps, 101), vec![100, 150, 201]);
}

#[test]
fn shell_terminal_needs_a_pts() {
    let t = shell_terminal(3, 42, Some("/dev/pts/7".to_string()), Some(" zsh\n".to_string())).unwrap();
    assert_eq!(t.id, "mirror-3");
    assert_eq!(t.pts_path, "/dev/pts/7");
    assert_eq!(t.pid, 42);
    assert_eq!(t.command, "zsh");
    assert!(t.tmux_session.is_empty() && t.tmux_pane.is_empty() && !t.is_setup);
    let u = shell_terminal(4, 1, Some("/dev/pts/1".to_string()), None).unwrap();
    assert_eq!(u.command, "unknown");
    assert!(shell_terminal(5, 1, Some("/dev/tty1".to_string()), None).is_none());
    assert!(shell_terminal(5, 1, Some("/dev/pts".to_string()), None).is_none());
    assert!(shell_terminal(5, 1, None, Some("bash".to_string())).is_none());
}

#[test]
fn ids_are_numbered() {
    assert_eq!(mirror_id_of(0), "mirror-0");
    assert_eq!(mirror_id_of(12), "mirror-12");
}

#[test]
fn discovery_numbers_panes_across_sessions() {
    let mut m: TerminalMirror<u8> = TerminalMirror::new();
    m.add_mirror("mirror-1", 9);
    m.begin_discovery();
    let sessions = vec![
        ("work".to_string(), Some(b"%0 10 /dev/pts/1\n%1 11 /dev/pts/2\n".to_vec())),
        ("gone".to_string(), None),
        ("mon".to_string(), Some(b"%5 12 /dev/pts/3\n".to_vec())),
    ];
    let found = m.record_tmux_terminals(&sessions);
    let ids: Vec<&str> = found.iter().map(|t| t.id.as_str()).collect();
    assert_eq!(ids, vec!["mirror-0", "mirror-1", "mirror-2"]);
    assert_eq!(found[2].tmux_session, "mon");
    assert_eq!(found[2].tmux_pane, "%5");
    assert_eq!(found[2].command, "bash");
    assert!(!found[0].is_setup);
    assert!(found[1].is_setup);
    assert_eq!(m.terminal_count(), 3);
    let shells = vec![info("mirror-3", "/dev/pts/2"), info("mirror-4", "/dev/pts/9"), info("mirror-5", "/dev/pts/9")];
    let all = m.add_shell_terminals(found, shells).unwrap();
    let ids: Vec<&str> = all.iter().map(|t| t.id.as_str()).collect();
    assert_eq!(ids, vec!["mirror-0", "mirror-1", "mirror-2", "mirror-4"]);
    assert_eq!(m.terminal_count(), 4);
}

#[test]
fn discovery_with_nothing_found_is_an_error() {
    let mut m: TerminalMirror<u8> = TerminalMirror::new();
    m.begin_discovery();
    assert_eq!(m.add_shell_terminals(Vec::new(), Vec::new()).err(), Some("No terminal sessions found".to_string()));
}

#[test]
fn all_terminals_report_running_mirrors() {
    let mut m: TerminalMirror<u8> = TerminalMirror::new();
    m.register_terminal(info("a", "/dev/pts/1"));
    m.register_terminal(info("b", "/dev/pts/2"));
    m.add_mirror("b", 1);
    let mut all = m.get_all_terminals();
    all.sort_by(|x, y| x.id.cmp(&y.id));
    assert_eq!(all.len(), 2);
    assert!(!all[0].is_setup);
    assert!(all[1].is_setup);
    m.clear();
    assert!(m.get_all_terminals().is_empty());
    assert!(m.mirror("b").is_err());
}

#[test]
fn lookups_report_unknown_terminals() {
    let mut m: TerminalMirror<u8> = TerminalMirror::new();
    assert_eq!(m.mirror_source("x").err(), Some("Terminal x not found".to_string()));
    assert_eq!(m.input_route("x").err(), Some("Terminal x not found".to_string()));
    assert_eq!(m.mirror("x").err(), Some("Mirror for x not started".to_string()));
    let mut t = info("t", "/dev/pts/4");
    m.register_terminal(t.clone());
    match m.input_route("t").unwrap() {
        InputRoute::Pts { path } => assert_eq!(path, "/dev/pts/4"),
        InputRoute::Tmux { .. } => panic!("expected the pseudo-terminal"),
    }
    t.tmux_session = "work".to_string();
    t.tmux_pane = "%2".to_string();
    m.register_terminal(t);
    match m.input_route("t").unwrap() {
        InputRoute::Tmux { pane } => assert_eq!(pane, "%2"),
        InputRoute::Pts { .. } => panic!("expected tmux"),
    }
    match m.mirror_source("t").unwrap() {
        MirrorSource::Tmux { session, pane } => {
            assert_eq!(session, "work");
            assert_eq!(pane, "%2");
        }
        MirrorSource::Pts { .. } => panic!("expected tmux"),
    }
    m.add_mirror("t", 5);
    assert_eq!(*m.mirror("t").unwrap(), 5);
}

#[test]
fn mirror_state_sends_changes_once() {
    let mut s: MirrorState<u32> = MirrorState::new();
    assert_eq!(s.subscribe(1), None);
    assert!(s.take_update("screen".to_string()));
    assert!(!s.take_update("screen".to_string()));
    assert!(!s.take_update(String::new()));
    assert_eq!(s.last_content, "screen");
    assert_eq!(s.subscribe(2), Some("screen".to_string()));
    assert!(s.take_update("next".to_string()));
    s.subscribe(3);
    s.drop_failed(&vec![false, true, false]);
    assert_eq!(s.subscribers, vec![1, 3]);
}

fn probe(pid: u32, target: Option<&str>, comm: Option<&str>) -> (u32, Option<String>, Option<String>) {
    (pid, target.map(|t| t.to_string()), comm.map(|c| c.to_string()))
}

#[test]
fn shell_terminals_are_numbered_in_order() {
    let probes = vec![
        probe(10, Some("/dev/pts/4"), Some("bash\n")),
        probe(11, Some("/dev/tty2"), Some("zsh")),
        probe(12, None, None),
        probe(13, Some("/dev/pts/5"), None),
    ];
    let ts = shell_terminals(7, probes);
    let ids: Vec<&str> = ts.iter().map(|t| t.id.as_str()).collect();
    assert_eq!(ids, vec!["mirror-7", "mirror-8"]);
    assert_eq!(ts[0].pid, 10);
    assert_eq!(ts[0].command, "bash");
    assert_eq!(ts[1].pts_path, "/dev/pts/5");
    assert_eq!(ts[1].command, "unknown");
    assert!(shell_terminals(0, Vec::new()).is_empty());
}

#[test]
fn discover_numbers_shells_after_panes() {
    let mut m: TerminalMirror<u8> = TerminalMirror::new();
    m.register_terminal(info("stale", "/dev/pts/30"));
    m.add_mirror("mirror-0", 1);
    let sessions = vec![("work".to_string(), Some(b"%0 10 /dev/pts/1\nshort line\n%1 11 /dev/pts/2\n".to_vec()))];
    let probes = vec![
        probe(20, Some("/dev/pts/2"), Some("bash")),
        probe(21, Some("/dev/pts/8"), Some("fish")),
        probe(22, Some("/dev/pts/9"), Some("zsh")),
        probe(23, Some("/dev/pts/9"), Some("sh")),
    ];
    let all = m.discover(&sessions, probes).unwrap();
    let ids: Vec<&str> = all.iter().map(|t| t.id.as_str()).collect();
    // The shell on /dev/pts/2 is numbered but not added: a pane holds that terminal.
    assert_eq!(ids, vec!["mirror-0", "mirror-1", "mirror-3", "mirror-4"]);
    assert!(all[0].is_setup);
    assert!(!all[1].is_setup);
    assert_eq!(all[2].command, "fish");
    assert_eq!(all[3].pts_path, "/dev/pts/9");
    assert_eq!(all[3].command, "zsh");
    assert_eq!(m.terminal_count(), 4);
    assert!(m.mirror_source("stale").is_err());
}

#[test]
fn discover_with_nothing_found_is_an_error() {
    let mut m: TerminalMirror<u8> = TerminalMirror::new();
    m.register_terminal(info("old", "/dev/pts/1"));
    let probes = vec![probe(5, Some("/dev/tty1"), None)];
    assert_eq!(m.discover(&Vec::new(), probes).err(), Some("No terminal sessions found".to_string()));
    assert_eq!(m.terminal_count(), 0);
}

#[test]
fn started_mirror_is_reported_set_up() {
    let mut m: TerminalMirror<u8> = TerminalMirror::new();
    m.register_terminal(info("t", "/dev/pts/1"));
    assert!(!m.get_all_terminals()[0].is_setup);
    m.add_mirror("t", 3);
    assert!(m.get_all_terminals()[0].is_setup);
    assert_eq!(m.mirror("t").ok(), Some(&3));
}
