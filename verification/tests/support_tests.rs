use tether::fanout::retain_unmarked;
use tether::pty::{shell_command, PtyManager, INITIAL_COLS, INITIAL_ROWS};
use tether::registry::Registry;

#[test]
fn retain_keeps_order() {
    let mut v = vec![1, 2, 3, 4, 5];
    retain_unmarked(&mut v, &vec![false, true, false, true, true]);
    assert_eq!(v, vec![1, 3]);
    let mut e: Vec<u8> = vec![];
    retain_unmarked(&mut e, &vec![]);
    assert!(e.is_empty());
}

#[test]
fn registry_read_after_write() {
    let mut r: Registry<String> = Registry::new();
    assert!(!r.contains_key("k"));
    r.insert("k".to_string(), "v1".to_string());
    r.insert("j".to_string(), "w".to_string());
    assert_eq!(r.get("k"), Some(&"v1".to_string()));
    r.insert("k".to_string(), "v2".to_string());
    assert_eq!(r.get("k"), Some(&"v2".to_string()));
    assert_eq!(r.replace("k", "v3".to_string()), "v2");
    assert_eq!(r.remove("k"), Some("v3".to_string()));
    assert_eq!(r.remove("k"), None);
    assert_eq!(r.get("k"), None);
    r.insert("k".to_string(), "v4".to_string());
    let mut keys = r.keys();
    keys.sort();
    assert_eq!(keys, vec!["j", "k"]);
    r.clear();
    assert!(r.keys().is_empty());
}

#[test]
fn pty_registry() {
    let mut p: PtyManager<u32> = PtyManager::new();
    let a = p.register_terminal(7);
    let b = p.register_terminal(8);
    assert_ne!(a, b);
    for id in [&a, &b] {
        let chars: Vec<char> = id.chars().collect();
        assert_eq!(chars.len(), 36);
        for (i, c) in chars.iter().enumerate() {
            if [8, 13, 18, 23].contains(&i) {
                assert_eq!(*c, '-');
            } else {
                assert!(c.is_ascii_digit() || ('a'..='f').contains(c));
            }
        }
        assert_eq!(chars[14], '4');
        assert!(['8', '9', 'a', 'b'].contains(&chars[19]));
    }
    assert_eq!(p.get_terminal(&a), Some(&7));
    assert_eq!(*p.resize_target(&b).unwrap(), 8);
    assert_eq!(p.resize_target("nope").err(), Some("Terminal not found".to_string()));
    let mut ids = p.list_terminals();
    ids.sort();
    let mut want = vec![a.clone(), b.clone()];
    want.sort();
    assert_eq!(ids, want);
    assert_eq!(p.remove_terminal(&a), Some(7));
    assert_eq!(p.remove_terminal(&a), None);
    assert_eq!(p.get_terminal(&a), None);
}

#[test]
fn shell_choice_and_size() {
    assert_eq!(shell_command(None), "/bin/bash");
    assert_eq!(shell_command(Some("/bin/zsh")), "/bin/zsh");
    assert_eq!((INITIAL_ROWS, INITIAL_COLS), (24, 80));
}
