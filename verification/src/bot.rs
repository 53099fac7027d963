use vstd::prelude::*;
use vstd::string::*;
use crate::command::{command_argument, command_word, command_words};
use crate::language::{
    accepted_extension, is_accepted_extension, language_of, language_of_extension, program_run,
    compile_command, program_command, Language, ProgramRun,
};
use crate::ranking::{
    passed, passed_outcomes, reports, result_reports, users, users_of, Outcome,
};
use crate::submission::{
    after_first_dot, announcement, announcement_footer, announcement_text, attachment_extension,
    extension_of, find_saved, footer, has_dot, mention, mention_then, path_of, saved_file_name,
    saved_name, saved_under, scan_is_safe, scan_safe, solution_path, stem,
};
use crate::tester::{
    expected_answers, output_matches, passes, plan_tests, test_input, tester_is_valid, tester_valid,
    TestPlan,
};
use crate::text::{
    chars_of, decimal, find_char, lemma_first_index_of, parse_u64, parse_unsigned, push_decimal,
    same_text, starts_with, string_of_range, has_prefix, text_lines, texts,
};

verus! {

/// The user allowed to give the bot its commands.
pub const ADMIN_ID: u64 = 873410122616037456;

/// The channels, roles and server the bot works with.
#[derive(Clone, Copy, Debug)]
pub struct EnvInfo {
    pub result_channel: u64,
    pub botcmd_channel: u64,
    pub hidden_sol_channel: u64,
    pub submit_channel: u64,
    pub submitted_role_id: u64,
    pub winner_role_id: u64,
    pub server_id: u64,
}

/// A file attached to a message.
pub struct Attachment {
    pub filename: String,
    pub url: String,
}

/// A message the bot receives.
pub struct Message {
    pub id: u64,
    pub channel_id: u64,
    pub content: String,
    pub author_id: u64,
    pub author_is_bot: bool,
    pub author_name: String,
    pub author_avatar_url: Option<String>,
    pub attachments: Vec<Attachment>,
}

/// What the bot keeps from one message to the next: whether submissions are open.
pub struct Bot {
    pub submissions_open: bool,
}

/// A file of the solution directory.
pub struct DirEntry {
    pub name: String,
    pub is_file: bool,
}

/// A member of the server and the roles it holds.
pub struct Member {
    pub user_id: u64,
    pub roles: Vec<u64>,
}

/// A solution file and its size in bytes.
pub struct SolutionFile {
    pub name: String,
    pub length: usize,
}

/// What a solution printed, and how long it took in whole microseconds.
pub struct RunOutput {
    pub stdout: String,
    pub micros: u64,
}

/// A solution under test: its language, its author and its size in bytes.
#[derive(Clone, Copy)]
pub struct Solution {
    pub language: Language,
    pub user_id: u64,
    pub length: usize,
}

/// What happened after the last action: it was done, or it brought back
/// what it was asked for.
pub enum Event {
    Done,
    Listing(Vec<DirEntry>),
    Fetched(String),
    Members(Vec<Member>),
    Solutions(Vec<SolutionFile>),
    Outputs(Vec<RunOutput>),
}

/// What the bot asks to be done next.
pub enum Action {
    /// Nothing more for this message.
    Finish,
    DeleteMessage { channel: u64, message: u64 },
    /// Send a message; when `checked`, a failure to send is fatal.
    Send { channel: u64, text: String, checked: bool },
    /// Send a message, wait, and delete it again.
    SendTemporary { channel: u64, text: String, seconds: u64 },
    /// List the solution directory (answered by `Listing`).
    ListSubmissions,
    /// Download a text (answered by `Fetched`).
    Fetch { url: String },
    WriteFile { path: String, contents: String },
    SendEmbed {
        channel: u64,
        author_name: String,
        icon_url: String,
        description: String,
        footer: String,
    },
    AddRoles { server: u64, role: u64, users: Vec<u64> },
    RemoveRoles { server: u64, role: u64, users: Vec<u64> },
    /// Fetch the members of the server (answered by `Members`).
    FetchMembers { server: u64 },
    DeleteFile { path: String },
    DeleteAllSubmissions,
    /// Read the size of each solution file (answered by `Solutions`).
    ReadSolutions,
    /// Build and run each solution on the input (answered by `Outputs`).
    RunPrograms { input: String, runs: Vec<ProgramRun> },
    SendAll { channel: u64, texts: Vec<String> },
}

/// Where the handling of a message stands.
pub enum Phase {
    Received,
    SubmissionDeleted,
    AwaitingSubmissions { filename: String, url: String },
    AwaitingSource { ext: String },
    SourceSaved { ext: String, contents: String },
    SourceAnnounced,
    AwaitingListing,
    AwaitingRemoval { user_id: u64 },
    Removed,
    Cleared,
    AwaitingMembers,
    RolesReset,
    ResetCleared,
    AwaitingTester,
    AwaitingSolutions { tester: String },
    AwaitingOutputs { answers: Vec<String>, solutions: Vec<Solution> },
    ResultsPending { texts: Vec<String> },
    Replied,
    Finished,
}

// ---------------------------------------------------------------------------
// What the actions and transitions are

/// The handling of the message is over.
pub open spec fn is_finish(next: Phase, a: Action) -> bool {
    next is Finished && a is Finish
}

/// The action sends `text` to `channel`.
pub open spec fn is_send(a: Action, channel: u64, text: Seq<char>, checked: bool) -> bool {
    a matches Action::Send { channel: c, text: t, checked: k } && c == channel && t@ == text && k
        == checked
}

/// The action sends `text` to `channel` and deletes it after `seconds`.
pub open spec fn is_send_temporary(a: Action, channel: u64, text: Seq<char>, seconds: u64) -> bool {
    a matches Action::SendTemporary { channel: c, text: t, seconds: s } && c == channel && t@
        == text && s == seconds
}

/// The action downloads `url`.
pub open spec fn is_fetch(a: Action, url: Seq<char>) -> bool {
    a matches Action::Fetch { url: u } && u@ == url
}

/// The text of an optional string.
pub open spec fn opt_text(o: Option<String>) -> Option<Seq<char>> {
    match o {
        Some(s) => Some(s@),
        None => None,
    }
}

/// The names of the files of a directory listing.
pub open spec fn entry_names(es: Seq<DirEntry>) -> Seq<Seq<char>> {
    es.map_values(|e: DirEntry| e.name@)
}

/// The names of the plain files of a listing, each followed by a newline.
pub open spec fn listing_text(es: Seq<DirEntry>) -> Seq<char>
    decreases es.len(),
{
    if es.len() == 0 {
        seq![]
    } else if es.last().is_file {
        listing_text(es.drop_last()) + es.last().name@ + "\n"@
    } else {
        listing_text(es.drop_last())
    }
}

/// The answer to `list`.
pub open spec fn listing_reply(es: Seq<DirEntry>) -> Seq<char> {
    if listing_text(es).len() == 0 {
        "No solutions yet!"@
    } else {
        listing_text(es)
    }
}

/// Whether every role in `roles` is `role` (a member with no role at all included).
pub open spec fn only_role(roles: Seq<u64>, role: u64) -> bool {
    forall|i: int| 0 <= i < roles.len() ==> roles[i] == role
}

/// The members from whom `reset` takes the role of having submitted, once
/// for each of its two tests that a member meets, in the order of the members.
pub open spec fn reset_removals(ms: Seq<Member>, env: EnvInfo) -> Seq<u64>
    decreases ms.len(),
{
    if ms.len() == 0 {
        seq![]
    } else {
        let m = ms.last();
        let once = if only_role(m.roles@, env.winner_role_id) {
            seq![m.user_id]
        } else {
            Seq::<u64>::empty()
        };
        let twice = if only_role(m.roles@, env.submitted_role_id) {
            seq![m.user_id]
        } else {
            Seq::<u64>::empty()
        };
        reset_removals(ms.drop_last(), env) + once + twice
    }
}

/// Whether the bot can read a solution file's name: a `.`, an author id
/// before it, and a known language after it.
pub open spec fn solution_name_readable(name: Seq<char>) -> bool {
    &&& has_dot(name)
    &&& parse_unsigned(stem(name), u64::MAX as nat) is Some
    &&& language_of(after_first_dot(name)) is Some
}

/// The solution that a file holds.
pub open spec fn solution_of(f: SolutionFile) -> Solution {
    Solution {
        language: language_of(after_first_dot(f.name@)).unwrap(),
        user_id: parse_unsigned(stem(f.name@), u64::MAX as nat).unwrap() as u64,
        length: f.length,
    }
}

/// How a solution file is built and run.
pub open spec fn run_matches(r: ProgramRun, f: SolutionFile) -> bool {
    let lang = solution_of(f).language;
    &&& opt_text(r.compile) == compile_command(lang, f.name@)
    &&& r.program@ == program_command(lang, f.name@)
}

/// How a solution fared, given what it printed.
pub open spec fn outcome_of(s: Solution, answers: Seq<Seq<char>>, o: RunOutput) -> Outcome {
    Outcome {
        language: s.language,
        user_id: s.user_id,
        length: s.length,
        micros: if output_matches(answers, text_lines(o.stdout@)) {
            Some(o.micros)
        } else {
            None
        },
    }
}

/// The outcomes of all solutions.
pub open spec fn outcomes_of(ss: Seq<Solution>, answers: Seq<Seq<char>>, os: Seq<RunOutput>) -> Seq<Outcome> {
    Seq::new(ss.len(), |i: int| outcome_of(ss[i], answers, os[i]))
}

// ---------------------------------------------------------------------------
// The transitions

/// The step after which the bot answers `!ping`, if the message starts with it.
pub open spec fn ping_step(msg: Message, next: Phase, a: Action) -> bool {
    if has_prefix(msg.content@, "!ping"@) {
        next is Finished && is_send(a, msg.channel_id, "pong!"@, true)
    } else {
        is_finish(next, a)
    }
}

/// What the bot does with a message it has just received.
pub open spec fn on_received(open: bool, env: EnvInfo, msg: Message, open2: bool, next: Phase, a: Action) -> bool {
    let ch = msg.channel_id;
    if msg.author_is_bot {
        open2 == open && is_finish(next, a)
    } else if ch == env.submit_channel {
        &&& open2 == open
        &&& next is SubmissionDeleted
        &&& a matches Action::DeleteMessage { channel, message } && channel == ch && message == msg.id
    } else if ch == env.botcmd_channel && msg.author_id == ADMIN_ID {
        let cmd = command_word(msg.content@);
        if cmd == "reset"@ {
            &&& open2 == open
            &&& next is AwaitingMembers
            &&& a matches Action::FetchMembers { server }
            &&& server == env.server_id
        } else if cmd == "close"@ {
            !open2 && next is Replied && is_send(a, ch, "ok"@, true)
        } else if cmd == "open"@ {
            open2 && next is Replied && is_send(a, ch, "ok"@, true)
        } else if cmd == "list"@ {
            open2 == open && next is AwaitingListing && a is ListSubmissions
        } else if cmd == "clear"@ {
            open2 == open && next is Cleared && a is DeleteAllSubmissions
        } else if cmd == "remove"@ {
            &&& open2 == open
            &&& match command_argument(msg.content@) {
                None => next is Replied && is_send(a, ch, "Please input id"@, true),
                Some(arg) => match parse_unsigned(arg, u64::MAX as nat) {
                    None => next is Replied && is_send(a, ch, "Invalid id"@, true),
                    Some(id) => next == Phase::AwaitingRemoval { user_id: id as u64 }
                        && a is ListSubmissions,
                },
            }
        } else if cmd == "test"@ {
            &&& open2 == open
            &&& if msg.attachments.len() == 0 {
                next is Replied && is_send(a, ch, "Please give the tester file"@, true)
            } else {
                next is AwaitingTester && is_fetch(a, msg.attachments@[0].url@)
            }
        } else {
            open2 == open && ping_step(msg, next, a)
        }
    } else {
        open2 == open && ping_step(msg, next, a)
    }
}

/// What the bot does once it has deleted a message posted in the submission channel.
pub open spec fn on_submission_deleted(open: bool, msg: Message, next: Phase, a: Action) -> bool {
    let ch = msg.channel_id;
    if !open {
        next is Replied && is_send_temporary(
            a,
            ch,
            mention(msg.author_id) + " submittion is not open yet!"@,
            3,
        )
    } else if msg.attachments.len() == 0 {
        next is Replied && is_send_temporary(
            a,
            ch,
            mention(msg.author_id) + " Please attach the solution file with the file extension."@,
            5,
        )
    } else {
        &&& next matches Phase::AwaitingSubmissions { filename, url }
        &&& filename@ == msg.attachments@[0].filename@
        &&& url@ == msg.attachments@[0].url@
        &&& a is ListSubmissions
    }
}

/// What the bot does with the listing of solutions when checking a submission.
pub open spec fn on_submission_listing(
    msg: Message,
    filename: Seq<char>,
    url: Seq<char>,
    es: Seq<DirEntry>,
    next: Phase,
    a: Action,
) -> bool {
    let ch = msg.channel_id;
    let ext = extension_of(filename);
    if exists|j: int|
        0 <= j < es.len() && #[trigger] saved_under(entry_names(es)[j], decimal(msg.author_id as nat)) {
        next is Finished && is_send_temporary(
            a,
            ch,
            mention(msg.author_id) + " You have already submitted!"@,
            5,
        )
    } else if !is_accepted_extension(ext) {
        next is Finished && is_send(a, ch, "Invalid file extension: "@ + ext, false)
    } else {
        next matches Phase::AwaitingSource { ext: e } && e@ == ext && is_fetch(a, url)
    }
}

/// Writing a fetched solution to its file.
pub open spec fn on_source(msg: Message, ext: Seq<char>, contents: Seq<char>, next: Phase, a: Action) -> bool {
    &&& next matches Phase::SourceSaved { ext: e, contents: c } && e@ == ext && c@ == contents
    &&& a matches Action::WriteFile { path, contents: c } && path@ == solution_path(
        saved_name(msg.author_id, ext),
    ) && c@ == contents
}

/// Announcing a saved solution in the hidden channel.
pub open spec fn on_source_saved(
    env: EnvInfo,
    msg: Message,
    ext: Seq<char>,
    contents: Seq<char>,
    next: Phase,
    a: Action,
) -> bool {
    &&& next is SourceAnnounced
    &&& a matches Action::SendEmbed { channel, author_name, icon_url, description, footer }
    &&& channel == env.hidden_sol_channel
    &&& author_name@ == msg.author_name@
    &&& icon_url@ == msg.author_avatar_url.unwrap()@
    &&& description@ == announcement_text(ext, contents)
    &&& footer@ == announcement_footer(ext, contents)
}

/// Giving the author of a saved solution the role of having submitted.
pub open spec fn on_source_announced(env: EnvInfo, msg: Message, next: Phase, a: Action) -> bool {
    &&& next is Replied
    &&& a matches Action::AddRoles { server, role, users }
    &&& server == env.server_id
    &&& role == env.submitted_role_id
    &&& users@ == seq![msg.author_id]
}

/// Answering `remove` once the listing is known.
pub open spec fn on_removal_listing(msg: Message, user_id: u64, es: Seq<DirEntry>, next: Phase, a: Action) -> bool {
    let key = decimal(user_id as nat);
    let names = entry_names(es);
    if exists|j: int| 0 <= j < es.len() && #[trigger] saved_under(names[j], key) {
        let k = choose|k: int|
            0 <= k < es.len() && saved_under(names[k], key) && forall|j: int|
                0 <= j < k ==> !#[trigger] saved_under(names[j], key);
        &&& next is Removed
        &&& a matches Action::DeleteFile { path }
        &&& path@ == solution_path(names[k])
    } else {
        next is Replied && is_send(a, msg.channel_id, "User has not submitted yet!"@, true)
    }
}

/// Running the tests once the solution files are known.
pub open spec fn on_solutions(msg: Message, tester: Seq<char>, fs: Seq<SolutionFile>, next: Phase, a: Action) -> bool {
    if fs.len() == 0 {
        ping_step(msg, next, a)
    } else {
        &&& next matches Phase::AwaitingOutputs { answers, solutions }
        &&& texts(answers@) == expected_answers(tester)
        &&& solutions@ == fs.map_values(|f: SolutionFile| solution_of(f))
        &&& a matches Action::RunPrograms { input, runs }
        &&& input@ == test_input(tester)
        &&& runs.len() == fs.len()
        &&& forall|i: int| 0 <= i < fs.len() ==> run_matches(#[trigger] runs@[i], fs[i])
    }
}

/// Handing out the winner role once the outputs are known.
pub open spec fn on_outputs(
    env: EnvInfo,
    answers: Seq<Seq<char>>,
    solutions: Seq<Solution>,
    os: Seq<RunOutput>,
    next: Phase,
    a: Action,
) -> bool {
    let outcomes = outcomes_of(solutions, answers, os);
    &&& next matches Phase::ResultsPending { texts: t }
    &&& texts(t@) == result_reports(outcomes)
    &&& a matches Action::AddRoles { server, role, users }
    &&& server == env.server_id
    &&& role == env.winner_role_id
    &&& users@ == users_of(passed_outcomes(outcomes))
}

/// Whether an event is one the bot can take in a phase: the kind of event
/// the last action asks for, on which the bot does not fail (announcing a
/// saved solution takes the author's avatar, which must exist).
pub open spec fn accepts(msg: Message, phase: Phase, event: Event) -> bool {
    match phase {
        Phase::AwaitingSubmissions { .. } => event matches Event::Listing(es) && scan_is_safe(
            entry_names(es@),
            decimal(msg.author_id as nat),
        ),
        Phase::SourceSaved { .. } => event is Done && msg.author_avatar_url is Some,
        Phase::AwaitingListing => event is Listing,
        Phase::AwaitingRemoval { user_id } => event matches Event::Listing(es) && scan_is_safe(
            entry_names(es@),
            decimal(user_id as nat),
        ),
        Phase::AwaitingSource { .. } => event is Fetched,
        Phase::AwaitingTester => event is Fetched,
        Phase::AwaitingMembers => event is Members,
        Phase::AwaitingSolutions { tester } => event matches Event::Solutions(fs) && (forall|i: int|
            0 <= i < fs.len() ==> solution_name_readable(#[trigger] fs@[i].name@)) && (fs.len() > 0
            ==> tester_is_valid(tester@)),
        Phase::AwaitingOutputs { solutions, .. } => event matches Event::Outputs(os) && os.len()
            == solutions.len(),
        _ => event is Done,
    }
}

/// The step the bot takes in a phase on an event: the new state of
/// submissions, the next phase and the action.
pub open spec fn reacts(
    open: bool,
    env: EnvInfo,
    msg: Message,
    phase: Phase,
    event: Event,
    open2: bool,
    next: Phase,
    a: Action,
) -> bool {
    match phase {
        Phase::Received => on_received(open, env, msg, open2, next, a),
        Phase::SubmissionDeleted => open2 == open && on_submission_deleted(open, msg, next, a),
        Phase::AwaitingSubmissions { filename, url } => open2 == open && match event {
            Event::Listing(es) => on_submission_listing(msg, filename@, url@, es@, next, a),
            _ => false,
        },
        Phase::AwaitingSource { ext } => open2 == open && match event {
            Event::Fetched(contents) => on_source(msg, ext@, contents@, next, a),
            _ => false,
        },
        Phase::SourceSaved { ext, contents } => open2 == open && on_source_saved(
            env,
            msg,
            ext@,
            contents@,
            next,
            a,
        ),
        Phase::SourceAnnounced => open2 == open && on_source_announced(env, msg, next, a),
        Phase::AwaitingListing => open2 == open && match event {
            Event::Listing(es) => next is Replied && is_send(
                a,
                msg.channel_id,
                listing_reply(es@),
                true,
            ),
            _ => false,
        },
        Phase::AwaitingRemoval { user_id } => open2 == open && match event {
            Event::Listing(es) => on_removal_listing(msg, user_id, es@, next, a),
            _ => false,
        },
        Phase::Removed => open2 == open && next is Replied && is_send(
            a,
            msg.channel_id,
            "Solution removed!"@,
            true,
        ),
        Phase::Cleared => open2 == open && next is Replied && is_send(
            a,
            msg.channel_id,
            "deleted all solutions"@,
            true,
        ),
        Phase::AwaitingMembers => open2 == open && match event {
            Event::Members(ms) => {
                &&& next is RolesReset
                &&& a matches Action::RemoveRoles { server, role, users }
                &&& server == env.server_id
                &&& role == env.submitted_role_id
                &&& users@ == reset_removals(ms@, env)
            },
            _ => false,
        },
        Phase::RolesReset => open2 == open && next is ResetCleared && a is DeleteAllSubmissions,
        Phase::ResetCleared => open2 == open && next is Replied && is_send(
            a,
            msg.channel_id,
            "ok"@,
            true,
        ),
        Phase::AwaitingTester => open2 == open && match event {
            Event::Fetched(t) => next matches Phase::AwaitingSolutions { tester } && tester@ == t@
                && a is ReadSolutions,
            _ => false,
        },
        Phase::AwaitingSolutions { tester } => open2 == open && match event {
            Event::Solutions(fs) => on_solutions(msg, tester@, fs@, next, a),
            _ => false,
        },
        Phase::AwaitingOutputs { answers, solutions } => open2 == open && match event {
            Event::Outputs(os) => on_outputs(env, texts(answers@), solutions@, os@, next, a),
            _ => false,
        },
        Phase::ResultsPending { texts: t } => {
            &&& open2 == open
            &&& next is Replied
            &&& a matches Action::SendAll { channel, texts: t2 }
            &&& channel == env.result_channel
            &&& texts(t2@) == texts(t@)
        },
        Phase::Replied => open2 == open && ping_step(msg, next, a),
        Phase::Finished => open2 == open && is_finish(next, a),
    }
}


// ---------------------------------------------------------------------------
// The steps

impl Bot {
    /// A bot that does not take submissions yet.
    pub fn new() -> (r: Bot)
        ensures
            !r.submissions_open,
    {
        Bot { submissions_open: false }
    }
}

fn reply(channel: u64, text: &str, next: Phase) -> (r: (Phase, Action))
    ensures
        r.0 == next,
        is_send(r.1, channel, text@, true),
{
    (next, Action::Send { channel, text: String::from_str(text), checked: true })
}

fn ping(msg: &Message) -> (r: (Phase, Action))
    ensures
        ping_step(*msg, r.0, r.1),
{
    if starts_with(msg.content.as_str(), "!ping") {
        reply(msg.channel_id, "pong!", Phase::Finished)
    } else {
        (Phase::Finished, Action::Finish)
    }
}

fn decimal_chars(n: u64) -> (r: Vec<char>)
    ensures
        r@ == decimal(n as nat),
{
    let mut s = String::new();
    push_decimal(&mut s, n);
    chars_of(s.as_str())
}

fn names_of(es: &Vec<DirEntry>) -> (r: Vec<String>)
    ensures
        texts(r@) == entry_names(es@),
{
    let mut r: Vec<String> = Vec::new();
    let mut i: usize = 0;
    while i < es.len()
        invariant
            i <= es.len(),
            r.len() == i,
            forall|j: int| 0 <= j < i ==> #[trigger] r@[j]@ == es@[j].name@,
        decreases es.len() - i,
    {
        r.push(es[i].name.clone());
        i = i + 1;
    }
    assert(texts(r@) =~= entry_names(es@));
    r
}

fn on_command(bot: &mut Bot, env: &EnvInfo, msg: &Message) -> (r: (Phase, Action))
    requires
        !msg.author_is_bot,
        msg.channel_id != env.submit_channel,
        msg.channel_id == env.botcmd_channel,
        msg.author_id == ADMIN_ID,
    ensures
        on_received(old(bot).submissions_open, *env, *msg, final(bot).submissions_open, r.0, r.1),
{
    let ch = msg.channel_id;
    let (cmd, arg) = command_words(msg.content.as_str());
    let c = cmd.as_str();
    if same_text(c, "reset") {
        (Phase::AwaitingMembers, Action::FetchMembers { server: env.server_id })
    } else if same_text(c, "close") {
        bot.submissions_open = false;
        reply(ch, "ok", Phase::Replied)
    } else if same_text(c, "open") {
        bot.submissions_open = true;
        reply(ch, "ok", Phase::Replied)
    } else if same_text(c, "list") {
        (Phase::AwaitingListing, Action::ListSubmissions)
    } else if same_text(c, "clear") {
        (Phase::Cleared, Action::DeleteAllSubmissions)
    } else if same_text(c, "remove") {
        match arg {
            None => reply(ch, "Please input id", Phase::Replied),
            Some(a) => match parse_u64(a.as_str()) {
                None => reply(ch, "Invalid id", Phase::Replied),
                Some(id) => (Phase::AwaitingRemoval { user_id: id }, Action::ListSubmissions),
            },
        }
    } else if same_text(c, "test") {
        if msg.attachments.len() == 0 {
            reply(ch, "Please give the tester file", Phase::Replied)
        } else {
            (Phase::AwaitingTester, Action::Fetch { url: msg.attachments[0].url.clone() })
        }
    } else {
        ping(msg)
    }
}

fn on_message(bot: &mut Bot, env: &EnvInfo, msg: &Message) -> (r: (Phase, Action))
    ensures
        on_received(old(bot).submissions_open, *env, *msg, final(bot).submissions_open, r.0, r.1),
{
    if msg.author_is_bot {
        (Phase::Finished, Action::Finish)
    } else if msg.channel_id == env.submit_channel {
        (Phase::SubmissionDeleted, Action::DeleteMessage { channel: msg.channel_id, message: msg.id })
    } else if msg.channel_id == env.botcmd_channel && msg.author_id == ADMIN_ID {
        on_command(bot, env, msg)
    } else {
        ping(msg)
    }
}

fn after_submission_deleted(open: bool, msg: &Message) -> (r: (Phase, Action))
    ensures
        on_submission_deleted(open, *msg, r.0, r.1),
{
    let ch = msg.channel_id;
    if !open {
        (
            Phase::Replied,
            Action::SendTemporary {
                channel: ch,
                text: mention_then(msg.author_id, " submittion is not open yet!"),
                seconds: 3,
            },
        )
    } else if msg.attachments.len() == 0 {
        (
            Phase::Replied,
            Action::SendTemporary {
                channel: ch,
                text: mention_then(
                    msg.author_id,
                    " Please attach the solution file with the file extension.",
                ),
                seconds: 5,
            },
        )
    } else {
        (
            Phase::AwaitingSubmissions {
                filename: msg.attachments[0].filename.clone(),
                url: msg.attachments[0].url.clone(),
            },
            Action::ListSubmissions,
        )
    }
}

proof fn no_saved_entry(es: Seq<DirEntry>, names: Seq<String>, key: Seq<char>)
    requires
        texts(names) == entry_names(es),
        forall|j: int| 0 <= j < names.len() ==> !saved_under(#[trigger] names[j]@, key),
    ensures
        forall|j: int| 0 <= j < es.len() ==> !#[trigger] saved_under(entry_names(es)[j], key),
{
    assert(texts(names).len() == names.len());
    assert(entry_names(es).len() == es.len());
    assert forall|j: int| 0 <= j < es.len() implies !#[trigger] saved_under(entry_names(es)[j], key) by {
        assert(texts(names)[j] == names[j]@);
    }
}

fn check_submission(msg: &Message, filename: &String, url: &String, es: &Vec<DirEntry>) -> (r: (
    Phase,
    Action,
))
    requires
        scan_is_safe(entry_names(es@), decimal(msg.author_id as nat)),
    ensures
        on_submission_listing(*msg, filename@, url@, es@, r.0, r.1),
{
    let names = names_of(es);
    let key = decimal_chars(msg.author_id);
    match find_saved(&names, &key) {
        Some(k) => {
            assert(texts(names@).len() == names.len());
            assert(entry_names(es@).len() == es.len());
            assert(texts(names@)[k as int] == names@[k as int]@);
            assert(saved_under(entry_names(es@)[k as int], decimal(msg.author_id as nat)));
            (
                Phase::Finished,
                Action::SendTemporary {
                    channel: msg.channel_id,
                    text: mention_then(msg.author_id, " You have already submitted!"),
                    seconds: 5,
                },
            )
        },
        None => {
            proof {
                no_saved_entry(es@, names@, key@);
            }
            assert(!exists|j: int|
                0 <= j < es@.len() && #[trigger] saved_under(entry_names(es@)[j], decimal(msg.author_id as nat)));
            let ext = attachment_extension(filename.as_str());
            if !accepted_extension(ext.as_str()) {
                let mut text = String::from_str("Invalid file extension: ");
                text.append(ext.as_str());
                (Phase::Finished, Action::Send { channel: msg.channel_id, text, checked: false })
            } else {
                (Phase::AwaitingSource { ext }, Action::Fetch { url: url.clone() })
            }
        },
    }
}

fn save_source(msg: &Message, ext: String, contents: String) -> (r: (Phase, Action))
    ensures
        on_source(*msg, ext@, contents@, r.0, r.1),
{
    let name = saved_file_name(msg.author_id, ext.as_str());
    let path = path_of(name.as_str());
    let copy = contents.clone();
    (Phase::SourceSaved { ext, contents }, Action::WriteFile { path, contents: copy })
}

fn announce_source(env: &EnvInfo, msg: &Message, ext: &String, contents: &String) -> (r: (Phase, Action))
    requires
        msg.author_avatar_url is Some,
    ensures
        on_source_saved(*env, *msg, ext@, contents@, r.0, r.1),
{
    let icon_url = match &msg.author_avatar_url {
        Some(u) => u.clone(),
        None => String::new(),
    };
    (
        Phase::SourceAnnounced,
        Action::SendEmbed {
            channel: env.hidden_sol_channel,
            author_name: msg.author_name.clone(),
            icon_url,
            description: announcement(ext.as_str(), contents.as_str()),
            footer: footer(ext.as_str(), contents.as_str()),
        },
    )
}

fn grant_submitted(env: &EnvInfo, msg: &Message) -> (r: (Phase, Action))
    ensures
        on_source_announced(*env, *msg, r.0, r.1),
{
    let mut users: Vec<u64> = Vec::new();
    users.push(msg.author_id);
    assert(users@ =~= seq![msg.author_id]);
    (Phase::Replied, Action::AddRoles { server: env.server_id, role: env.submitted_role_id, users })
}

/// The answer to `list`: the names of the plain files, one per line, or a
/// note that there are none.
pub fn list_reply(es: &Vec<DirEntry>) -> (r: String)
    ensures
        r@ == listing_reply(es@),
{
    let mut s = String::new();
    let mut i: usize = 0;
    while i < es.len()
        invariant
            i <= es.len(),
            s@ == listing_text(es@.take(i as int)),
        decreases es.len() - i,
    {
        assert(es@.take(i + 1).drop_last() =~= es@.take(i as int));
        if es[i].is_file {
            s.append(es[i].name.as_str());
            s.append("\n");
        }
        i = i + 1;
    }
    assert(es@.take(i as int) =~= es@);
    if s.as_str().is_empty() {
        String::from_str("No solutions yet!")
    } else {
        s
    }
}

fn remove_lookup(msg: &Message, user_id: u64, es: &Vec<DirEntry>) -> (r: (Phase, Action))
    requires
        scan_is_safe(entry_names(es@), decimal(user_id as nat)),
    ensures
        on_removal_listing(*msg, user_id, es@, r.0, r.1),
{
    let names = names_of(es);
    let key = decimal_chars(user_id);
    let ghost en = entry_names(es@);
    let ghost kv = decimal(user_id as nat);
    assert(texts(names@).len() == names.len());
    assert(en.len() == es.len());
    assert forall|j: int| 0 <= j < es.len() implies en[j] == #[trigger] names@[j]@ by {
        assert(texts(names@)[j] == names@[j]@);
    }
    match find_saved(&names, &key) {
        Some(k) => {
            assert(saved_under(en[k as int], kv));
            let ghost c = choose|c: int|
                0 <= c < es.len() && saved_under(en[c], kv) && forall|j: int|
                    0 <= j < c ==> !#[trigger] saved_under(en[j], kv);
            assert(c == k) by {
                if c < k {
                    assert(!saved_under(names@[c]@, key@));
                } else if k < c {
                    assert(!saved_under(en[k as int], kv));
                }
            }
            (Phase::Removed, Action::DeleteFile { path: path_of(names[k].as_str()) })
        },
        None => {
            proof {
                no_saved_entry(es@, names@, key@);
            }
            reply(msg.channel_id, "User has not submitted yet!", Phase::Replied)
        },
    }
}

fn only_role_exec(roles: &Vec<u64>, role: u64) -> (r: bool)
    ensures
        r == only_role(roles@, role),
{
    let mut i: usize = 0;
    while i < roles.len()
        invariant
            i <= roles.len(),
            forall|j: int| 0 <= j < i ==> roles@[j] == role,
        decreases roles.len() - i,
    {
        if roles[i] != role {
            return false;
        }
        i = i + 1;
    }
    true
}

/// The members from whom `reset` takes the role of having submitted.
pub fn reset_list(ms: &Vec<Member>, env: &EnvInfo) -> (r: Vec<u64>)
    ensures
        r@ == reset_removals(ms@, *env),
{
    let mut r: Vec<u64> = Vec::new();
    let mut i: usize = 0;
    while i < ms.len()
        invariant
            i <= ms.len(),
            r@ == reset_removals(ms@.take(i as int), *env),
        decreases ms.len() - i,
    {
        assert(ms@.take(i + 1).drop_last() =~= ms@.take(i as int));
        let ghost before = r@;
        if only_role_exec(&ms[i].roles, env.winner_role_id) {
            r.push(ms[i].user_id);
        }
        if only_role_exec(&ms[i].roles, env.submitted_role_id) {
            r.push(ms[i].user_id);
        }
        proof {
            let m = ms@[i as int];
            let once = if only_role(m.roles@, env.winner_role_id) {
                seq![m.user_id]
            } else {
                Seq::<u64>::empty()
            };
            let twice = if only_role(m.roles@, env.submitted_role_id) {
                seq![m.user_id]
            } else {
                Seq::<u64>::empty()
            };
            assert(r@ =~= before + once + twice);
        }
        i = i + 1;
    }
    assert(ms@.take(i as int) =~= ms@);
    r
}

/// The solution that a file of the solution directory holds.
pub fn read_solution(f: &SolutionFile) -> (r: Solution)
    requires
        solution_name_readable(f.name@),
    ensures
        r == solution_of(*f),
{
    let v = chars_of(f.name.as_str());
    let d = find_char(&v, 0, '.');
    proof {
        assert(v@.skip(0) =~= v@);
        lemma_first_index_of(v@, '.');
    }
    let id_text = string_of_range(&v, 0, d);
    let ext = string_of_range(&v, d + 1, v.len());
    assert(id_text@ =~= stem(f.name@));
    assert(ext@ =~= after_first_dot(f.name@));
    let user_id = match parse_u64(id_text.as_str()) {
        Some(n) => n,
        None => 0,
    };
    let language = match language_of_extension(ext.as_str()) {
        Some(l) => l,
        None => Language::Rust,
    };
    Solution { language, user_id, length: f.length }
}

fn start_tests(msg: &Message, tester: &String, fs: &Vec<SolutionFile>) -> (r: (Phase, Action))
    requires
        forall|i: int| 0 <= i < fs.len() ==> solution_name_readable(#[trigger] fs@[i].name@),
        fs.len() > 0 ==> tester_is_valid(tester@),
    ensures
        on_solutions(*msg, tester@, fs@, r.0, r.1),
{
    if fs.len() == 0 {
        return ping(msg);
    }
    let plan = plan_tests(tester.as_str());
    let mut solutions: Vec<Solution> = Vec::new();
    let mut runs: Vec<ProgramRun> = Vec::new();
    let mut i: usize = 0;
    while i < fs.len()
        invariant
            i <= fs.len(),
            forall|i: int| 0 <= i < fs.len() ==> solution_name_readable(#[trigger] fs@[i].name@),
            solutions.len() == i,
            runs.len() == i,
            forall|j: int| 0 <= j < i ==> #[trigger] solutions@[j] == solution_of(fs@[j]),
            forall|j: int| 0 <= j < i ==> run_matches(#[trigger] runs@[j], fs@[j]),
        decreases fs.len() - i,
    {
        let s = read_solution(&fs[i]);
        let run = program_run(s.language, fs[i].name.as_str());
        solutions.push(s);
        runs.push(run);
        proof {
            assert(run_matches(runs@[i as int], fs@[i as int]));
        }
        i = i + 1;
    }
    assert(solutions@ =~= fs@.map_values(|f: SolutionFile| solution_of(f)));
    let TestPlan { input, answers } = plan;
    (Phase::AwaitingOutputs { answers, solutions }, Action::RunPrograms { input, runs })
}

fn judge(env: &EnvInfo, answers: &Vec<String>, solutions: &Vec<Solution>, os: &Vec<RunOutput>) -> (r: (
    Phase,
    Action,
))
    requires
        os.len() == solutions.len(),
    ensures
        on_outputs(*env, texts(answers@), solutions@, os@, r.0, r.1),
{
    let ghost want = outcomes_of(solutions@, texts(answers@), os@);
    let mut outcomes: Vec<Outcome> = Vec::new();
    let mut i: usize = 0;
    while i < solutions.len()
        invariant
            os.len() == solutions.len(),
            i <= solutions.len(),
            want == outcomes_of(solutions@, texts(answers@), os@),
            outcomes.len() == i,
            forall|j: int| 0 <= j < i ==> #[trigger] outcomes@[j] == want[j],
        decreases solutions.len() - i,
    {
        let s = solutions[i];
        let ok = passes(answers, os[i].stdout.as_str());
        let micros = if ok {
            Some(os[i].micros)
        } else {
            None
        };
        outcomes.push(Outcome { language: s.language, user_id: s.user_id, length: s.length, micros });
        i = i + 1;
    }
    assert(outcomes@ =~= want);
    let texts_out = reports(&outcomes);
    let winners = passed(&outcomes);
    let ids = users(&winners);
    (
        Phase::ResultsPending { texts: texts_out },
        Action::AddRoles { server: env.server_id, role: env.winner_role_id, users: ids },
    )
}

fn copy_texts(t: &Vec<String>) -> (r: Vec<String>)
    ensures
        texts(r@) == texts(t@),
{
    let mut r: Vec<String> = Vec::new();
    let mut i: usize = 0;
    while i < t.len()
        invariant
            i <= t.len(),
            r.len() == i,
            forall|j: int| 0 <= j < i ==> #[trigger] r@[j]@ == t@[j]@,
        decreases t.len() - i,
    {
        r.push(t[i].clone());
        i = i + 1;
    }
    assert(texts(r@) =~= texts(t@));
    r
}

/// Whether the bot can take an event in a phase (see [`accepts`]); an event
/// it cannot take is one on which the bot fails.
pub fn can_take(msg: &Message, phase: &Phase, event: &Event) -> (r: bool)
    ensures
        r == accepts(*msg, *phase, *event),
{
    match phase {
        Phase::AwaitingSubmissions { .. } => match event {
            Event::Listing(es) => {
                let names = names_of(es);
                let key = decimal_chars(msg.author_id);
                scan_safe(&names, &key)
            },
            _ => false,
        },
        Phase::SourceSaved { .. } => matches!(event, Event::Done) && msg.author_avatar_url.is_some(),
        Phase::AwaitingListing => matches!(event, Event::Listing(_)),
        Phase::AwaitingRemoval { user_id } => match event {
            Event::Listing(es) => {
                let names = names_of(es);
                let key = decimal_chars(*user_id);
                scan_safe(&names, &key)
            },
            _ => false,
        },
        Phase::AwaitingSource { .. } => matches!(event, Event::Fetched(_)),
        Phase::AwaitingTester => matches!(event, Event::Fetched(_)),
        Phase::AwaitingMembers => matches!(event, Event::Members(_)),
        Phase::AwaitingSolutions { tester } => match event {
            Event::Solutions(fs) => solutions_readable(fs) && (fs.len() == 0 || tester_valid(
                tester.as_str(),
            )),
            _ => false,
        },
        Phase::AwaitingOutputs { solutions, .. } => match event {
            Event::Outputs(os) => os.len() == solutions.len(),
            _ => false,
        },
        _ => matches!(event, Event::Done),
    }
}

/// Takes the next step in the handling of a message: from the phase it is
/// in and what the last action brought, the next phase and action, and the
/// new state of submissions.
pub fn step(bot: &mut Bot, env: &EnvInfo, msg: &Message, phase: Phase, event: Event) -> (r: (
    Phase,
    Action,
))
    requires
        accepts(*msg, phase, event),
    ensures
        reacts(
            old(bot).submissions_open,
            *env,
            *msg,
            phase,
            event,
            final(bot).submissions_open,
            r.0,
            r.1,
        ),
{
    match phase {
        Phase::Received => on_message(bot, env, msg),
        Phase::SubmissionDeleted => after_submission_deleted(bot.submissions_open, msg),
        Phase::AwaitingSubmissions { filename, url } => match event {
            Event::Listing(es) => check_submission(msg, &filename, &url, &es),
            _ => (Phase::Finished, Action::Finish),
        },
        Phase::AwaitingSource { ext } => match event {
            Event::Fetched(contents) => save_source(msg, ext, contents),
            _ => (Phase::Finished, Action::Finish),
        },
        Phase::SourceSaved { ext, contents } => announce_source(env, msg, &ext, &contents),
        Phase::SourceAnnounced => grant_submitted(env, msg),
        Phase::AwaitingListing => match event {
            Event::Listing(es) => (
                Phase::Replied,
                Action::Send { channel: msg.channel_id, text: list_reply(&es), checked: true },
            ),
            _ => (Phase::Finished, Action::Finish),
        },
        Phase::AwaitingRemoval { user_id } => match event {
            Event::Listing(es) => remove_lookup(msg, user_id, &es),
            _ => (Phase::Finished, Action::Finish),
        },
        Phase::Removed => reply(msg.channel_id, "Solution removed!", Phase::Replied),
        Phase::Cleared => reply(msg.channel_id, "deleted all solutions", Phase::Replied),
        Phase::AwaitingMembers => match event {
            Event::Members(ms) => (
                Phase::RolesReset,
                Action::RemoveRoles {
                    server: env.server_id,
                    role: env.submitted_role_id,
                    users: reset_list(&ms, env),
                },
            ),
            _ => (Phase::Finished, Action::Finish),
        },
        Phase::RolesReset => (Phase::ResetCleared, Action::DeleteAllSubmissions),
        Phase::ResetCleared => reply(msg.channel_id, "ok", Phase::Replied),
        Phase::AwaitingTester => match event {
            Event::Fetched(t) => (Phase::AwaitingSolutions { tester: t }, Action::ReadSolutions),
            _ => (Phase::Finished, Action::Finish),
        },
        Phase::AwaitingSolutions { tester } => match event {
            Event::Solutions(fs) => start_tests(msg, &tester, &fs),
            _ => (Phase::Finished, Action::Finish),
        },
        Phase::AwaitingOutputs { answers, solutions } => match event {
            Event::Outputs(os) => judge(env, &answers, &solutions, &os),
            _ => (Phase::Finished, Action::Finish),
        },
        Phase::ResultsPending { texts } => (
            Phase::Replied,
            Action::SendAll { channel: env.result_channel, texts: copy_texts(&texts) },
        ),
        Phase::Replied => ping(msg),
        Phase::Finished => (Phase::Finished, Action::Finish),
    }
}


/// Whether the bot can read a solution file's name (see [`solution_name_readable`]).
pub fn name_readable(name: &str) -> (r: bool)
    ensures
        r == solution_name_readable(name@),
{
    let v = chars_of(name);
    let d = find_char(&v, 0, '.');
    proof {
        assert(v@.skip(0) =~= v@);
        lemma_first_index_of(v@, '.');
    }
    if d == v.len() {
        return false;
    }
    let id_text = string_of_range(&v, 0, d);
    let ext = string_of_range(&v, d + 1, v.len());
    assert(id_text@ =~= stem(name@));
    assert(ext@ =~= after_first_dot(name@));
    parse_u64(id_text.as_str()).is_some() && language_of_extension(ext.as_str()).is_some()
}

fn solutions_readable(fs: &Vec<SolutionFile>) -> (r: bool)
    ensures
        r == forall|i: int| 0 <= i < fs.len() ==> solution_name_readable(#[trigger] fs@[i].name@),
{
    let mut i: usize = 0;
    while i < fs.len()
        invariant
            i <= fs.len(),
            forall|j: int| 0 <= j < i ==> solution_name_readable(#[trigger] fs@[j].name@),
        decreases fs.len() - i,
    {
        if !name_readable(fs[i].name.as_str()) {
            return false;
        }
        i = i + 1;
    }
    true
}

/// Starts handling a message that has just arrived: the first step, taken
/// in the phase `Received`.
pub fn handle_message(bot: &mut Bot, env: &EnvInfo, msg: &Message) -> (r: (Phase, Action))
    ensures
        reacts(
            old(bot).submissions_open,
            *env,
            *msg,
            Phase::Received,
            Event::Done,
            final(bot).submissions_open,
            r.0,
            r.1,
        ),
{
    on_message(bot, env, msg)
}

} // verus!
