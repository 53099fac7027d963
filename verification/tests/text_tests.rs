use golf_judge::command::command_words;
use golf_judge::text::{lines, parse_u64, parse_usize, same_text, starts_with, trim};

#[test]
fn parse_u64_reads_what_std_reads() {
    let samples = [
        "123", "+5", "-5", "", "+", "18446744073709551615", "18446744073709551616", "12a", "007",
        " 1", "0", "+0", "-0", "99999999999999999999999",
    ];
    for s in samples.iter() {
        assert_eq!(parse_u64(s), s.parse::<u64>().ok(), "input {:?}", s);
    }
}

#[test]
fn parse_u64_exact_values() {
    assert_eq!(parse_u64("42"), Some(42));
    assert_eq!(parse_u64("+7"), Some(7));
    assert_eq!(parse_u64("18446744073709551615"), Some(u64::MAX));
    assert_eq!(parse_u64("18446744073709551616"), None);
    assert_eq!(parse_u64("4 2"), None);
}

#[test]
fn parse_usize_reads_what_std_reads() {
    for s in ["3", "0", "abc", "", "+12", "18446744073709551616"].iter() {
        assert_eq!(parse_usize(s), s.parse::<usize>().ok());
    }
}

#[test]
fn trim_removes_unicode_whitespace() {
    let samples = [
        "  rs \n", "\u{a0}py\u{3000}", "x", "", "   ", "\t\r\nc++\u{2009}", "a b", "\u{200b}z",
    ];
    for s in samples.iter() {
        assert_eq!(trim(s), s.trim(), "input {:?}", s);
    }
}

#[test]
fn lines_split_like_std() {
    let samples = ["a\r\nb\n", "\n", "a\rb", "x\r", "", "one", "a\n\nb", "a\n\n", "\r\n\r\n"];
    for s in samples.iter() {
        let got = lines(s);
        let want: Vec<String> = s.lines().map(|l| l.to_string()).collect();
        assert_eq!(got, want, "input {:?}", s);
    }
}

#[test]
fn text_comparisons() {
    assert!(same_text("remove", "remove"));
    assert!(!same_text("remove", "remov"));
    assert!(starts_with("!ping me", "!ping"));
    assert!(!starts_with("!pin", "!ping"));
    assert!(!starts_with(" !ping", "!ping"));
}

#[test]
fn command_words_split_at_single_spaces() {
    assert_eq!(command_words("  remove 42 x "), ("remove".to_string(), Some("42".to_string())));
    assert_eq!(command_words("remove  5"), ("remove".to_string(), Some("".to_string())));
    assert_eq!(command_words("test"), ("test".to_string(), None));
    assert_eq!(command_words(""), ("".to_string(), None));
    let content = " list all ";
    let mut split = content.trim().split(' ');
    let first = split.next().unwrap().to_string();
    let second = split.next().map(|s| s.to_string());
    assert_eq!(command_words(content), (first, second));
}
