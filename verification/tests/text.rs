use whisper_git::history::commit_matches_query;
use whisper_git::oid::Oid;
use whisper_git::text::{
    can_cut, chars_of, contains, dec_padded_string, dec_string, ends_with, joined, lines_of,
    lower_char, parse_int, same, same_ignoring_ascii_case, split, split_once,
    starts_with, strip_prefix, strip_suffix, take_bytes, text_before, trimmed, trimmed_end,
    trimmed_end_char, white,
};

#[test]
fn numbers_in_decimal() {
    assert_eq!(dec_string(0), "0");
    assert_eq!(dec_string(u64::MAX), "18446744073709551615");
    assert_eq!(dec_padded_string(7, 2), "07");
    assert_eq!(dec_padded_string(1234, 2), "1234");
}

#[test]
fn parsing_numbers_agrees_with_std() {
    for s in ["0", "12", "-12", "+5", "", "-", "+", "1x", " 1", "9223372036854775807",
        "9223372036854775808", "-9223372036854775808", "-9223372036854775809"]
    {
        assert_eq!(parse_int(s), s.parse::<i64>().ok(), "{s:?}");
    }
}

#[test]
fn white_space_agrees_with_std() {
    let mut n: u32 = 0;
    while n <= 0x10ffff {
        if let Some(c) = char::from_u32(n) {
            assert_eq!(white(c), c.is_whitespace(), "{n:x}");
        }
        n += 1;
    }
}

#[test]
fn trimming_agrees_with_std() {
    for s in ["", "  ", " a b ", "\u{2003}x\u{a0}", "x\r\n", "///"] {
        assert_eq!(trimmed(s), s.trim());
        assert_eq!(trimmed_end(s), s.trim_end());
        assert_eq!(trimmed_end_char(s, '/'), s.trim_end_matches('/'));
    }
}

#[test]
fn searching_agrees_with_std() {
    for s in ["", "a", "abcabc", "a=b=c", "héllo"] {
        for p in ["a", "bc", "abc", "=", "é", "zz"] {
            assert_eq!(contains(s, p), s.contains(p));
            assert_eq!(starts_with(s, p), s.starts_with(p));
            assert_eq!(ends_with(s, p), s.ends_with(p));
            assert_eq!(strip_prefix(s, p), s.strip_prefix(p).map(|x| x.to_string()));
            assert_eq!(strip_suffix(s, p), s.strip_suffix(p).map(|x| x.to_string()));
            assert_eq!(
                split_once(s, p),
                s.split_once(p).map(|(a, b)| (a.to_string(), b.to_string()))
            );
        }
    }
}

#[test]
fn lines_agree_with_std() {
    for s in ["", "a", "a\n", "a\nb", "a\r\nb\r\n", "\n\n", "a\rb", "x\n\r\n"] {
        let want: Vec<String> = s.lines().map(|l| l.to_string()).collect();
        assert_eq!(lines_of(s), want, "{s:?}");
        let want: Vec<String> = s.split('\n').map(|l| l.to_string()).collect();
        assert_eq!(split(s, '\n'), want);
    }
}

#[test]
fn joining_puts_a_separator_between() {
    assert_eq!(joined(&vec![], ", "), "");
    assert_eq!(joined(&vec!["a".to_string()], ", "), "a");
    assert_eq!(joined(&vec!["a".to_string(), "b".to_string()], ", "), "a, b");
}

#[test]
fn order_of_text_agrees_with_std() {
    let words = ["", "a", "B", "b", "ab", "é", "z", "\u{10000}", "\u{ffff}"];
    for a in words {
        for b in words {
            assert_eq!(text_before(a, b), a < b, "{a:?} {b:?}");
            assert_eq!(same(a, b), a == b);
            assert_eq!(same_ignoring_ascii_case(a, b), a.eq_ignore_ascii_case(b));
        }
    }
    assert_eq!(lower_char('Q'), 'q');
    assert_eq!(lower_char('É'), 'É');
}

#[test]
fn cutting_keeps_characters_whole() {
    assert_eq!(take_bytes("héllo", 3), "hé");
    assert!(can_cut("héllo", 1));
    assert!(!can_cut("héllo", 2));
    assert!(can_cut("héllo", 3));
    assert_eq!(chars_of("hé"), vec!['h', 'é']);
}

#[test]
fn ids_are_written_in_hexadecimal() {
    let bytes: Vec<u8> = (0..20).map(|i| i as u8 * 13).collect();
    let id = Oid::from_bytes(&bytes).unwrap();
    let real = git2::Oid::from_bytes(&bytes).unwrap();
    assert_eq!(id.to_hex(), real.to_string());
    assert_eq!(id.to_bytes(), bytes);
    assert_eq!(id.short_id(), &real.to_string()[..7]);
    assert_eq!(Oid::zero().to_hex(), git2::Oid::zero().to_string());
    assert!(Oid::from_bytes(&bytes[1..]).is_none());
}

#[test]
fn searches_ignore_case_beyond_ascii() {
    let c = whisper_git::git::CommitInfo::from_commit(whisper_git::git::CommitParts {
        id: Oid { hi: 0xabcdef0000000000, mid: 0, lo: 0 },
        message: Some("ÄNDERUNG am Kern".to_string()),
        summary: Some("ÄNDERUNG am Kern".to_string()),
        author_name: Some("Zoë".to_string()),
        author_email: Some("z@example.com".to_string()),
        time: 5,
        parent_ids: vec![],
    });
    assert!(commit_matches_query(&c, "änderung"));
    assert!(commit_matches_query(&c, "zoë"));
    assert!(commit_matches_query(&c, "abcdef"));
    assert!(!commit_matches_query(&c, "kernel"));
}
