use tether::parse::{lines_of, parse_u32, split_on, splitn_on, trim_of, words_of};
use tether::text::chars_of;

fn v(s: &str) -> Vec<char> {
    chars_of(s)
}

#[test]
fn split_keeps_empty_pieces() {
    assert_eq!(split_on(&v("a::b"), ':'), vec!["a", "", "b"]);
    assert_eq!(split_on(&v(""), ':'), vec![""]);
    assert_eq!(split_on(&v("work: 1 windows"), ':'), vec!["work", " 1 windows"]);
    assert_eq!(split_on(&v(":"), ':'), vec!["", ""]);
}

#[test]
fn split_matches_std() {
    for s in ["", "x", "a:b:c", "::", "no sep", ":lead", "trail:"] {
        let ours = split_on(&v(s), ':');
        let std: Vec<String> = s.split(':').map(|p| p.to_string()).collect();
        assert_eq!(ours, std);
    }
}

#[test]
fn splitn_keeps_rest_in_last_piece() {
    assert_eq!(splitn_on(&v("a|b|c|d|e|f|g|h"), 6, '|'), vec!["a", "b", "c", "d", "e", "f|g|h"]);
    assert_eq!(splitn_on(&v("a|b"), 6, '|'), vec!["a", "b"]);
    assert_eq!(splitn_on(&v("a|b"), 1, '|'), vec!["a|b"]);
    for s in ["", "|", "a||b|", "1|2|3|4|5|6", "x|y|z|w|v|u|t"] {
        let std: Vec<String> = s.splitn(6, '|').map(|p| p.to_string()).collect();
        assert_eq!(splitn_on(&v(s), 6, '|'), std);
    }
}

#[test]
fn words_skip_runs_of_white_space() {
    assert_eq!(words_of(&v("  %1  1234\t/dev/pts/3 \n")), vec!["%1", "1234", "/dev/pts/3"]);
    assert!(words_of(&v(" \t ")).is_empty());
    for s in ["a b", "\u{3000}x\u{2003}y", "  ", "one", "\u{85}z\u{a0}"] {
        let std: Vec<String> = s.split_whitespace().map(|p| p.to_string()).collect();
        assert_eq!(words_of(&v(s)), std);
    }
}

#[test]
fn lines_follow_std() {
    for s in ["", "\n", "a", "a\n", "a\r\nb", "a\r", "a\n\nb\n", "x\r\n\r\n", "\r\n"] {
        let std: Vec<String> = s.lines().map(|l| l.to_string()).collect();
        assert_eq!(lines_of(&v(s)), std, "input {:?}", s);
    }
}

#[test]
fn trim_removes_unicode_white_space() {
    assert_eq!(trim_of(&v("  work \t")), "work");
    assert_eq!(trim_of(&v("\u{2000}x y\u{3000}")), "x y");
    assert_eq!(trim_of(&v("   ")), "");
    assert_eq!(trim_of(&v("")), "");
}

#[test]
fn parse_u32_like_std() {
    assert_eq!(parse_u32(&v("1234")), Some(1234));
    assert_eq!(parse_u32(&v("+7")), Some(7));
    assert_eq!(parse_u32(&v("0")), Some(0));
    assert_eq!(parse_u32(&v("4294967295")), Some(u32::MAX));
    assert_eq!(parse_u32(&v("4294967296")), None);
    assert_eq!(parse_u32(&v("99999999999999999999")), None);
    assert_eq!(parse_u32(&v("-1")), None);
    assert_eq!(parse_u32(&v("+")), None);
    assert_eq!(parse_u32(&v("")), None);
    assert_eq!(parse_u32(&v("12a")), None);
    assert_eq!(parse_u32(&v(" 1")), None);
    for s in ["00042", "+0", "++1", "3.5", "1 "] {
        assert_eq!(parse_u32(&v(s)), s.parse::<u32>().ok());
    }
}

#[test]
fn split_then_join_gives_input_back() {
    for s in ["a:b", "::x:", "", "plain"] {
        let pieces = split_on(&v(s), ':');
        assert_eq!(pieces.join(":"), s);
        assert!(pieces.iter().all(|p| !p.contains(':')));
    }
}

#[test]
fn lines_hold_no_newline() {
    let ls = lines_of(&v("a\nb\r\nc\rd\n"));
    assert_eq!(ls, vec!["a", "b", "c\rd"]);
    assert!(ls.iter().all(|l| !l.contains('\n')));
}
