use golf_judge::language::Language;
use golf_judge::ranking::{failed, passed, reports, stable_order, Outcome};
use golf_judge::submission::{
    announcement, attachment_extension, find_saved, footer, mention_then, path_of, saved_file_name,
    scan_safe,
};
use golf_judge::tester::{passes, plan_tests, push_seconds, tester_valid};

fn names(v: &[&str]) -> Vec<String> {
    v.iter().map(|s| s.to_string()).collect()
}

fn key(s: &str) -> Vec<char> {
    s.chars().collect()
}

#[test]
fn extension_is_what_follows_the_last_dot() {
    assert_eq!(attachment_extension("main.rs"), "rs");
    assert_eq!(attachment_extension("a.b.py "), "py");
    assert_eq!(attachment_extension("noext"), "noext");
    assert_eq!(attachment_extension("trailing."), "");
    let f = "sol.tar. cpp\n";
    assert_eq!(attachment_extension(f), f.split('.').last().unwrap().trim());
}

#[test]
fn solution_files_are_named_by_author() {
    assert_eq!(saved_file_name(873410122616037456, "rs"), "873410122616037456.rs");
    assert_eq!(path_of("12.py"), "./sub/12.py");
    assert_eq!(mention_then(5, " You have already submitted!"), "<@5> You have already submitted!");
}

#[test]
fn saved_solution_is_found_by_stem() {
    let listing = names(&["11.py", "12.rs", "123.c", "12.cpp"]);
    assert_eq!(find_saved(&listing, &key("12")), Some(1));
    assert_eq!(find_saved(&listing, &key("123")), Some(2));
    assert_eq!(find_saved(&listing, &key("1")), None);
    let listing = names(&["012.rs"]);
    assert_eq!(find_saved(&listing, &key("12")), None);
}

#[test]
fn scan_fails_only_on_a_dotless_name_before_a_match() {
    assert!(scan_safe(&names(&["1.rs", "README"]), &key("1")));
    assert!(!scan_safe(&names(&["README", "1.rs"]), &key("1")));
    assert!(!scan_safe(&names(&["2.rs", "README"]), &key("1")));
    assert!(scan_safe(&names(&[]), &key("1")));
}

#[test]
fn announcement_texts() {
    assert_eq!(announcement("rs", "fn main(){}"), "```rs\nfn main(){}\n```");
    assert_eq!(footer("py", "print(1)"), "Lang: py, Length: 8 chars");
    let contents = "é→";
    assert_eq!(footer("py", contents), format!("Lang: py, Length: {} chars", contents.len()));
}

#[test]
fn tester_file_is_read_into_input_and_answers() {
    let plan = plan_tests("2\nin1\nout1\nin2\nout2\n");
    assert_eq!(plan.input, "2\nin1\nin2");
    assert_eq!(plan.answers, vec!["out1".to_string(), "out2".to_string()]);
    let plan = plan_tests("1\nin1\nout1\nin2\nout2\n");
    assert_eq!(plan.input, "4\nin1\nin2");
    assert_eq!(plan.answers, vec!["out1".to_string(), "out2".to_string()]);
    let plan = plan_tests("2\na\nb\nc");
    assert_eq!(plan.input, "1\na\nc");
    assert_eq!(plan.answers, vec!["b".to_string()]);
    let plan = plan_tests("3");
    assert_eq!(plan.input, "0\n");
    assert!(plan.answers.is_empty());
}

#[test]
fn tester_validity() {
    assert!(tester_valid("1\na\nb"));
    assert!(!tester_valid(""));
    assert!(!tester_valid("0\na\nb"));
    assert!(!tester_valid("x\na"));
}

#[test]
fn output_is_compared_line_by_line() {
    let answers = vec!["YES".to_string(), "NO".to_string()];
    assert!(passes(&answers, "YES\nNO\n"));
    assert!(passes(&answers, "YES\r\nNO\r\nextra\n"));
    assert!(!passes(&answers, "YES\n"));
    assert!(!passes(&answers, "YES\nno\n"));
    assert!(passes(&Vec::new(), ""));
}

#[test]
fn seconds_are_written_like_the_float_display() {
    for m in [0u64, 1, 10, 1500000, 2000000, 123456789, 999999, 1000001, 60000000, 4321].iter() {
        let mut s = String::new();
        push_seconds(&mut s, *m);
        assert_eq!(s, format!("{}", *m as f64 / 1000000.0), "micros {}", m);
    }
}

#[test]
fn stable_order_sorts_by_key_keeping_ties() {
    assert_eq!(stable_order(&vec![3, 1, 3, 2]), vec![1, 3, 0, 2]);
    assert_eq!(stable_order(&vec![]), Vec::<usize>::new());
    assert_eq!(stable_order(&vec![5, 5, 5]), vec![0, 1, 2]);
}

fn outcome(language: Language, user_id: u64, length: usize, micros: Option<u64>) -> Outcome {
    Outcome { language, user_id, length, micros }
}

#[test]
fn results_are_reported_by_length_speed_and_failure() {
    let outcomes = vec![
        outcome(Language::Rust, 10, 300, Some(1500000)),
        outcome(Language::Python, 20, 120, None),
        outcome(Language::Cpp, 30, 120, Some(250000)),
        outcome(Language::Lua, 40, 300, Some(250000)),
    ];
    let ids: Vec<u64> = passed(&outcomes).iter().map(|o| o.user_id).collect();
    assert_eq!(ids, vec![10, 30, 40]);
    assert_eq!(failed(&outcomes), vec![20]);
    let texts = reports(&outcomes);
    assert_eq!(texts.len(), 3);
    assert_eq!(
        texts[0],
        "# Challenge winners - Code length\n\
         <:cpp:1121679809005748305> 1. 120 chars | <@30>\n\
         <:rust:1121679837657038928> 2. 300 chars | <@10>\n\
         <:lua:1121679825694892162> 3. 300 chars | <@40>\n"
    );
    assert_eq!(
        texts[1],
        "# Challenge winners - Fastest\n\
         <:cpp:1121679809005748305> 1. 0.25s | <@30>\n\
         <:lua:1121679825694892162> 2. 0.25s | <@40>\n\
         <:rust:1121679837657038928> 3. 1.5s | <@10>\n"
    );
    assert_eq!(texts[2], "# Failed solutions\n1. <@20>\n");
}

#[test]
fn no_reports_without_solutions() {
    assert!(reports(&Vec::new()).is_empty());
    let only_failed = vec![outcome(Language::C, 1, 5, None)];
    assert_eq!(reports(&only_failed), vec!["# Failed solutions\n1. <@1>\n".to_string()]);
}
