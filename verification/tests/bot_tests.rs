use golf_judge::bot::{
    can_take, handle_message, list_reply, name_readable, read_solution, reset_list, step, Action,
    Attachment, Bot, DirEntry, EnvInfo, Event, Member, Message, Phase, RunOutput, SolutionFile,
    ADMIN_ID,
};
use golf_judge::language::Language;

fn env() -> EnvInfo {
    EnvInfo {
        result_channel: 1,
        botcmd_channel: 2,
        hidden_sol_channel: 3,
        submit_channel: 4,
        submitted_role_id: 5,
        winner_role_id: 6,
        server_id: 7,
    }
}

fn message(channel_id: u64, author_id: u64, content: &str, attachments: &[(&str, &str)]) -> Message {
    Message {
        id: 99,
        channel_id,
        content: content.to_string(),
        author_id,
        author_is_bot: false,
        author_name: "alice".to_string(),
        author_avatar_url: Some("https://cdn/alice.png".to_string()),
        attachments: attachments
            .iter()
            .map(|(f, u)| Attachment { filename: f.to_string(), url: u.to_string() })
            .collect(),
    }
}

fn entries(names: &[&str]) -> Vec<DirEntry> {
    names.iter().map(|n| DirEntry { name: n.to_string(), is_file: true }).collect()
}

/// Runs the handling of a message, answering each action with the next event
/// given, and collects the actions.
fn run(bot: &mut Bot, msg: &Message, mut events: Vec<Event>) -> Vec<Action> {
    let env = env();
    let mut actions = Vec::new();
    let (mut phase, first) = handle_message(bot, &env, msg);
    let mut action = first;
    events.reverse();
    loop {
        let finished = matches!(action, Action::Finish);
        actions.push(action);
        if finished {
            return actions;
        }
        let event = events.pop().unwrap_or(Event::Done);
        assert!(can_take(msg, &phase, &event));
        let (next, a) = step(bot, &env, msg, phase, event);
        phase = next;
        action = a;
    }
}

fn sent_text(a: &Action) -> Option<(u64, String, bool)> {
    match a {
        Action::Send { channel, text, checked } => Some((*channel, text.clone(), *checked)),
        _ => None,
    }
}

#[test]
fn bot_messages_are_ignored() {
    let mut bot = Bot::new();
    let mut msg = message(4, 10, "!ping", &[]);
    msg.author_is_bot = true;
    let actions = run(&mut bot, &msg, vec![]);
    assert_eq!(actions.len(), 1);
    assert!(matches!(actions[0], Action::Finish));
}

#[test]
fn ping_is_answered() {
    let mut bot = Bot::new();
    let actions = run(&mut bot, &message(8, 10, "!ping now", &[]), vec![]);
    assert_eq!(sent_text(&actions[0]), Some((8, "pong!".to_string(), true)));
    assert!(matches!(actions[1], Action::Finish));
    let actions = run(&mut bot, &message(8, 10, "hello", &[]), vec![]);
    assert_eq!(actions.len(), 1);
}

#[test]
fn submission_refused_while_closed() {
    let mut bot = Bot::new();
    let actions = run(&mut bot, &message(4, 10, "", &[("a.rs", "u")]), vec![]);
    assert!(matches!(actions[0], Action::DeleteMessage { channel: 4, message: 99 }));
    match &actions[1] {
        Action::SendTemporary { channel, text, seconds } => {
            assert_eq!(*channel, 4);
            assert_eq!(text, "<@10> submittion is not open yet!");
            assert_eq!(*seconds, 3);
        },
        _ => panic!("expected a temporary message"),
    }
    assert!(!bot.submissions_open);
}

#[test]
fn only_the_admin_opens_and_closes() {
    let mut bot = Bot::new();
    run(&mut bot, &message(2, 11, "open", &[]), vec![]);
    assert!(!bot.submissions_open);
    let actions = run(&mut bot, &message(2, ADMIN_ID, " open ", &[]), vec![]);
    assert!(bot.submissions_open);
    assert_eq!(sent_text(&actions[0]), Some((2, "ok".to_string(), true)));
    run(&mut bot, &message(2, ADMIN_ID, "close", &[]), vec![]);
    assert!(!bot.submissions_open);
}

#[test]
fn submission_without_attachment() {
    let mut bot = Bot { submissions_open: true };
    let actions = run(&mut bot, &message(4, 10, "", &[]), vec![]);
    match &actions[1] {
        Action::SendTemporary { text, seconds, .. } => {
            assert_eq!(text, "<@10> Please attach the solution file with the file extension.");
            assert_eq!(*seconds, 5);
        },
        _ => panic!("expected a temporary message"),
    }
}

#[test]
fn accepted_submission_is_saved_announced_and_rewarded() {
    let mut bot = Bot { submissions_open: true };
    let msg = message(4, 10, "!ping", &[("main.rs", "https://files/main.rs")]);
    let actions = run(
        &mut bot,
        &msg,
        vec![Event::Done, Event::Listing(entries(&["11.py"])), Event::Fetched("fn main(){}".to_string())],
    );
    assert!(matches!(actions[1], Action::ListSubmissions));
    match &actions[2] {
        Action::Fetch { url } => assert_eq!(url, "https://files/main.rs"),
        _ => panic!("expected a fetch"),
    }
    match &actions[3] {
        Action::WriteFile { path, contents } => {
            assert_eq!(path, "./sub/10.rs");
            assert_eq!(contents, "fn main(){}");
        },
        _ => panic!("expected a write"),
    }
    match &actions[4] {
        Action::SendEmbed { channel, author_name, icon_url, description, footer } => {
            assert_eq!(*channel, 3);
            assert_eq!(author_name, "alice");
            assert_eq!(icon_url, "https://cdn/alice.png");
            assert_eq!(description, "```rs\nfn main(){}\n```");
            assert_eq!(footer, "Lang: rs, Length: 11 chars");
        },
        _ => panic!("expected an embed"),
    }
    match &actions[5] {
        Action::AddRoles { server, role, users } => {
            assert_eq!((*server, *role), (7, 5));
            assert_eq!(users, &vec![10]);
        },
        _ => panic!("expected a role"),
    }
    assert_eq!(sent_text(&actions[6]), Some((4, "pong!".to_string(), true)));
    assert!(matches!(actions[7], Action::Finish));
}

#[test]
fn second_submission_is_refused() {
    let mut bot = Bot { submissions_open: true };
    let msg = message(4, 10, "!ping", &[("main.py", "u")]);
    let actions = run(&mut bot, &msg, vec![Event::Done, Event::Listing(entries(&["10.rs"]))]);
    match &actions[2] {
        Action::SendTemporary { text, seconds, .. } => {
            assert_eq!(text, "<@10> You have already submitted!");
            assert_eq!(*seconds, 5);
        },
        _ => panic!("expected a temporary message"),
    }
    assert_eq!(actions.len(), 4);
    assert!(matches!(actions[3], Action::Finish));
}

#[test]
fn unknown_extension_is_refused() {
    let mut bot = Bot { submissions_open: true };
    let msg = message(4, 10, "", &[("Main.java", "u")]);
    let actions = run(&mut bot, &msg, vec![Event::Done, Event::Listing(entries(&[]))]);
    assert_eq!(sent_text(&actions[2]), Some((4, "Invalid file extension: java".to_string(), false)));
    assert!(matches!(actions[3], Action::Finish));
}

#[test]
fn listing_a_directory() {
    let mut es = entries(&["10.rs", "11.py"]);
    es.push(DirEntry { name: "old".to_string(), is_file: false });
    assert_eq!(list_reply(&es), "10.rs\n11.py\n");
    assert_eq!(list_reply(&Vec::new()), "No solutions yet!");
    let mut bot = Bot::new();
    let actions = run(&mut bot, &message(2, ADMIN_ID, "list", &[]), vec![Event::Listing(es)]);
    assert!(matches!(actions[0], Action::ListSubmissions));
    assert_eq!(sent_text(&actions[1]), Some((2, "10.rs\n11.py\n".to_string(), true)));
}

#[test]
fn removing_a_solution() {
    let mut bot = Bot::new();
    let actions = run(&mut bot, &message(2, ADMIN_ID, "remove 11", &[]), vec![Event::Listing(entries(&["10.rs", "11.py"]))]);
    match &actions[1] {
        Action::DeleteFile { path } => assert_eq!(path, "./sub/11.py"),
        _ => panic!("expected a deletion"),
    }
    assert_eq!(sent_text(&actions[2]), Some((2, "Solution removed!".to_string(), true)));
    let actions = run(&mut bot, &message(2, ADMIN_ID, "remove 12", &[]), vec![Event::Listing(entries(&["10.rs"]))]);
    assert_eq!(sent_text(&actions[1]), Some((2, "User has not submitted yet!".to_string(), true)));
    let actions = run(&mut bot, &message(2, ADMIN_ID, "remove x", &[]), vec![]);
    assert_eq!(sent_text(&actions[0]), Some((2, "Invalid id".to_string(), true)));
    let actions = run(&mut bot, &message(2, ADMIN_ID, "remove", &[]), vec![]);
    assert_eq!(sent_text(&actions[0]), Some((2, "Please input id".to_string(), true)));
}

#[test]
fn clearing_solutions() {
    let mut bot = Bot::new();
    let actions = run(&mut bot, &message(2, ADMIN_ID, "clear", &[]), vec![]);
    assert!(matches!(actions[0], Action::DeleteAllSubmissions));
    assert_eq!(sent_text(&actions[1]), Some((2, "deleted all solutions".to_string(), true)));
}

#[test]
fn reset_takes_the_submitted_role() {
    let env = env();
    let members = vec![
        Member { user_id: 1, roles: vec![6] },
        Member { user_id: 2, roles: vec![5] },
        Member { user_id: 3, roles: vec![5, 6] },
        Member { user_id: 4, roles: vec![] },
    ];
    assert_eq!(reset_list(&members, &env), vec![1, 2, 4, 4]);
    let mut bot = Bot::new();
    let actions = run(&mut bot, &message(2, ADMIN_ID, "reset", &[]), vec![Event::Members(members)]);
    assert!(matches!(actions[0], Action::FetchMembers { server: 7 }));
    match &actions[1] {
        Action::RemoveRoles { server, role, users } => {
            assert_eq!((*server, *role), (7, 5));
            assert_eq!(users, &vec![1, 2, 4, 4]);
        },
        _ => panic!("expected role removals"),
    }
    assert!(matches!(actions[2], Action::DeleteAllSubmissions));
    assert_eq!(sent_text(&actions[3]), Some((2, "ok".to_string(), true)));
}

#[test]
fn test_command_without_tester_file() {
    let mut bot = Bot::new();
    let actions = run(&mut bot, &message(2, ADMIN_ID, "test", &[]), vec![]);
    assert_eq!(sent_text(&actions[0]), Some((2, "Please give the tester file".to_string(), true)));
}

#[test]
fn solution_files_are_read_back() {
    assert!(name_readable("10.rs"));
    assert!(!name_readable("10"));
    assert!(!name_readable("x.rs"));
    assert!(!name_readable("10.tar.rs"));
    let s = read_solution(&SolutionFile { name: "42.cc".to_string(), length: 17 });
    assert_eq!((s.language, s.user_id, s.length), (Language::Cpp, 42, 17));
}

#[test]
fn a_test_run_is_judged_and_reported() {
    let mut bot = Bot::new();
    let msg = message(2, ADMIN_ID, "test", &[("tests.txt", "https://files/tests.txt")]);
    let files = vec![
        SolutionFile { name: "10.rs".to_string(), length: 50 },
        SolutionFile { name: "20.py".to_string(), length: 20 },
    ];
    let outputs = vec![
        RunOutput { stdout: "4\n9\n".to_string(), micros: 2500 },
        RunOutput { stdout: "4\n8\n".to_string(), micros: 100 },
    ];
    let actions = run(
        &mut bot,
        &msg,
        vec![
            Event::Fetched("2\n2\n4\n3\n9\n".to_string()),
            Event::Solutions(files),
            Event::Outputs(outputs),
        ],
    );
    match &actions[0] {
        Action::Fetch { url } => assert_eq!(url, "https://files/tests.txt"),
        _ => panic!("expected a fetch"),
    }
    assert!(matches!(actions[1], Action::ReadSolutions));
    match &actions[2] {
        Action::RunPrograms { input, runs } => {
            assert_eq!(input, "2\n2\n3");
            assert_eq!(runs.len(), 2);
            assert_eq!(runs[0].compile, Some("rustc ./sub/10.rs -O -o main".to_string()));
            assert_eq!(runs[1].program, "python3 ./sub/20.py");
        },
        _ => panic!("expected runs"),
    }
    match &actions[3] {
        Action::AddRoles { server, role, users } => {
            assert_eq!((*server, *role), (7, 6));
            assert_eq!(users, &vec![10]);
        },
        _ => panic!("expected winner roles"),
    }
    match &actions[4] {
        Action::SendAll { channel, texts } => {
            assert_eq!(*channel, 1);
            assert_eq!(
                texts,
                &vec![
                    "# Challenge winners - Code length\n<:rust:1121679837657038928> 1. 50 chars | <@10>\n".to_string(),
                    "# Challenge winners - Fastest\n<:rust:1121679837657038928> 1. 0.0025s | <@10>\n".to_string(),
                    "# Failed solutions\n1. <@20>\n".to_string(),
                ]
            );
        },
        _ => panic!("expected the reports"),
    }
    assert!(matches!(actions[5], Action::Finish));
}

#[test]
fn a_test_run_without_solutions_sends_nothing() {
    let mut bot = Bot::new();
    let msg = message(2, ADMIN_ID, "test", &[("t", "u")]);
    let actions = run(&mut bot, &msg, vec![Event::Fetched("not a tester".to_string()), Event::Solutions(Vec::new())]);
    assert_eq!(actions.len(), 3);
    assert!(matches!(actions[2], Action::Finish));
}

#[test]
fn events_that_would_fail_are_refused() {
    let msg = message(2, ADMIN_ID, "test", &[("t", "u")]);
    let phase = Phase::AwaitingSolutions { tester: "0\n".to_string() };
    let files = vec![SolutionFile { name: "10.rs".to_string(), length: 1 }];
    assert!(!can_take(&msg, &phase, &Event::Solutions(files)));
    let phase = Phase::AwaitingRemoval { user_id: 3 };
    assert!(!can_take(&msg, &phase, &Event::Listing(entries(&["README", "3.rs"]))));
    assert!(can_take(&msg, &phase, &Event::Listing(entries(&["3.rs", "README"]))));
    assert!(!can_take(&msg, &Phase::Received, &Event::Fetched(String::new())));
}

#[test]
fn announcing_needs_the_authors_avatar() {
    let mut msg = message(4, 10, "", &[("a.rs", "u")]);
    let phase = Phase::SourceSaved { ext: "rs".to_string(), contents: "x".to_string() };
    assert!(can_take(&msg, &phase, &Event::Done));
    msg.author_avatar_url = None;
    assert!(!can_take(&msg, &phase, &Event::Done));
}
