use vstd::prelude::*;
use crate::bot::{
    entry_names, is_send, is_send_temporary, reset_removals, Member, on_received, outcome_of, outcomes_of, reacts,
    solution_name_readable, solution_of, Action, DirEntry, EnvInfo, Event, Message, Phase,
    RunOutput, Solution, SolutionFile, ADMIN_ID,
};
use crate::command::command_word;
use crate::language::{is_accepted_extension, language_of, Language};
use crate::ranking::{
    failed_users, lemma_sorted_order, length_keys, orders_by, passed_outcomes, precedes,
    sorted_order, time_keys, users_of, Outcome,
};
use crate::submission::{
    after_first_dot, extension_of, mention, saved_name, saved_under, solution_path, stem,
};
use crate::tester::{
    case_count, every_other, expected_answers, lines_per_case, output_matches, tester_is_valid,
};
use crate::text::texts;
use crate::text::{
    decimal, digit_char, digits_value, is_digit, is_white_space, lemma_first_index_of_at,
    lemma_last_index_of_at, lemma_trim_end_at, lemma_trim_start_at, text_lines, trimmed,
    parse_unsigned, unsigned_digits,
};

verus! {

proof fn lemma_decimal_digits(n: nat)
    ensures
        decimal(n).len() > 0,
        forall|i: int| 0 <= i < decimal(n).len() ==> is_digit(#[trigger] decimal(n)[i]),
        digits_value(decimal(n)) == n,
    decreases n,
{
    if n >= 10 {
        lemma_decimal_digits(n / 10);
        let d = decimal(n);
        assert(d.drop_last() =~= decimal(n / 10));
        assert(d.last() == digit_char(n % 10));
        assert((digit_char(n % 10) as nat) == n % 10 + 48);
        assert(digits_value(d) == digits_value(d.drop_last()) * 10 + ((d.last() as nat) - 48) as nat);
        assert(digits_value(d) == (n / 10) * 10 + n % 10);
        assert forall|i: int| 0 <= i < d.len() implies is_digit(#[trigger] d[i]) by {
            if i < d.len() - 1 {
                assert(d[i] == decimal(n / 10)[i]);
            }
        }
    } else {
        assert(decimal(n).drop_last() =~= Seq::<char>::empty());
        assert((digit_char(n) as nat) == n + 48);
        assert(decimal(n).last() == digit_char(n));
        assert(digits_value(decimal(n)) == digits_value(decimal(n).drop_last()) * 10 + ((decimal(n).last() as nat) - 48) as nat);
        assert(digits_value(Seq::<char>::empty()) == 0);
    }
}

/// Reading back the decimal notation of a number gives the number: the id
/// that names a solution file is the id that `remove` and `test` read.
pub proof fn law_decimal_round_trip(n: u64)
    ensures
        parse_unsigned(decimal(n as nat), u64::MAX as nat) == Some(n as nat),
{
    lemma_decimal_digits(n as nat);
    let d = decimal(n as nat);
    assert(d[0] != '+') by {
        assert(is_digit(d[0]));
    }
    assert(unsigned_digits(d) == d);
}

/// Every accepted extension names a language the bot can build, run and
/// show, and no other extension does.
pub proof fn law_accepted_extensions_have_languages(ext: Seq<char>)
    ensures
        is_accepted_extension(ext) <==> language_of(ext) is Some,
{
}

/// A solution saved for a user is found under the user's id, and the `test`
/// command reads the user, the language and the size back from its file.
pub proof fn law_saved_solution_is_found(user_id: u64, ext: Seq<char>, f: SolutionFile)
    requires
        is_accepted_extension(ext),
        f.name@ == saved_name(user_id, ext),
    ensures
        saved_under(f.name@, decimal(user_id as nat)),
        solution_name_readable(f.name@),
        solution_of(f).user_id == user_id,
        solution_of(f).language == language_of(ext).unwrap(),
        solution_of(f).length == f.length,
{
    reveal_strlit(".");
    let d = decimal(user_id as nat);
    let name = f.name@;
    lemma_decimal_digits(user_id as nat);
    assert(name.len() == d.len() + 1 + ext.len());
    assert forall|j: int| 0 <= j < d.len() implies name[j] != '.' by {
        assert(name[j] == d[j]);
        assert(is_digit(d[j]));
    }
    assert(name[d.len() as int] == '.');
    lemma_first_index_of_at(name, '.', d.len() as int);
    assert(stem(name) =~= d);
    assert(after_first_dot(name) =~= ext);
    law_decimal_round_trip(user_id);
}

/// Every solution of a test run is either among the passed ones or among
/// the failed ones.
pub proof fn law_outcomes_partition(s: Seq<Outcome>)
    ensures
        passed_outcomes(s).len() + failed_users(s).len() == s.len(),
    decreases s.len(),
{
    if s.len() > 0 {
        law_outcomes_partition(s.drop_last());
    }
}

/// Only the `open` and `close` commands of the admin in the command channel
/// change whether submissions are open; `open` opens them and `close`
/// closes them.
pub proof fn law_only_commands_toggle_submissions(
    open: bool,
    env: EnvInfo,
    msg: Message,
    phase: Phase,
    event: Event,
    open2: bool,
    next: Phase,
    a: Action,
)
    requires
        reacts(open, env, msg, phase, event, open2, next, a),
    ensures
        open2 != open ==> {
            &&& phase is Received
            &&& !msg.author_is_bot
            &&& msg.channel_id != env.submit_channel
            &&& msg.channel_id == env.botcmd_channel
            &&& msg.author_id == ADMIN_ID
            &&& (command_word(msg.content@) == "open"@ || command_word(msg.content@) == "close"@)
        },
        phase is Received && !msg.author_is_bot && msg.channel_id != env.submit_channel
            && msg.channel_id == env.botcmd_channel && msg.author_id == ADMIN_ID ==> {
            &&& command_word(msg.content@) == "open"@ ==> open2
            &&& command_word(msg.content@) == "close"@ ==> !open2
        },
{
    reveal_strlit("open");
    reveal_strlit("close");
    reveal_strlit("reset");
    assert("open"@.len() == 4);
    assert("reset"@.len() == 5);
    assert("open"@ != "reset"@);
    assert("close"@[0] != "reset"@[0]);
    assert("close"@ != "reset"@);
    assert("open"@ != "close"@);
    if phase is Received && !msg.author_is_bot && msg.channel_id != env.submit_channel
        && msg.channel_id == env.botcmd_channel && msg.author_id == ADMIN_ID {
        assert(on_received(open, env, msg, open2, next, a));
    }
}

/// While submissions are closed, a message in the submission channel is only
/// answered that they are not open: no solution is taken.
pub proof fn law_closed_submissions_are_refused(
    env: EnvInfo,
    msg: Message,
    event: Event,
    open2: bool,
    next: Phase,
    a: Action,
)
    requires
        reacts(false, env, msg, Phase::SubmissionDeleted, event, open2, next, a),
    ensures
        !open2,
        next is Replied,
        is_send_temporary(
            a,
            msg.channel_id,
            mention(msg.author_id) + " submittion is not open yet!"@,
            3,
        ),
{
}

/// Messages of bots are left alone.
pub proof fn law_bots_are_ignored(
    open: bool,
    env: EnvInfo,
    msg: Message,
    event: Event,
    open2: bool,
    next: Phase,
    a: Action,
)
    requires
        msg.author_is_bot,
        reacts(open, env, msg, Phase::Received, event, open2, next, a),
    ensures
        open2 == open,
        next is Finished,
        a is Finish,
{
}

/// Each ranking of a test run lists every passed solution exactly once:
/// by size (or time), and solutions of equal size (or time) in the order
/// in which they were tested.
pub proof fn law_rankings_are_stable_sorts(p: Seq<Outcome>)
    requires
        p.len() <= usize::MAX,
    ensures
        orders_by(length_keys(p), sorted_order(length_keys(p))),
        orders_by(time_keys(p), sorted_order(time_keys(p))),
{
    lemma_sorted_order(length_keys(p));
    lemma_sorted_order(time_keys(p));
}


/// Whether a message is an admin command that opens (`Some(true)`) or
/// closes (`Some(false)`) submissions.
pub open spec fn admin_toggle(env: EnvInfo, msg: Message) -> Option<bool> {
    if !msg.author_is_bot && msg.channel_id != env.submit_channel && msg.channel_id
        == env.botcmd_channel && msg.author_id == ADMIN_ID {
        if command_word(msg.content@) == "open"@ {
            Some(true)
        } else if command_word(msg.content@) == "close"@ {
            Some(false)
        } else {
            None
        }
    } else {
        None
    }
}

/// Whether the last admin command among the first `k` steps, each taken in
/// `phases[i]` on `msgs[i]`, opened submissions (false when there was none).
pub open spec fn last_command_opened(env: EnvInfo, msgs: Seq<Message>, phases: Seq<Phase>, k: int) -> bool
    decreases k,
{
    if k <= 0 {
        false
    } else if phases[k - 1] is Received && admin_toggle(env, msgs[k - 1]) is Some {
        admin_toggle(env, msgs[k - 1]).unwrap()
    } else {
        last_command_opened(env, msgs, phases, k - 1)
    }
}

/// Whether `flags[i]`, `flags[i + 1]` are the state of submissions before
/// and after step `i` of a run of the bot that starts with submissions
/// closed, each step taken in `phases[i]` on `msgs[i]` and `events[i]`.
pub open spec fn is_run(
    env: EnvInfo,
    msgs: Seq<Message>,
    phases: Seq<Phase>,
    events: Seq<Event>,
    flags: Seq<bool>,
    nexts: Seq<Phase>,
    actions: Seq<Action>,
) -> bool {
    &&& msgs.len() == phases.len() && phases.len() == events.len()
    &&& nexts.len() == phases.len() && actions.len() == phases.len()
    &&& flags.len() == phases.len() + 1
    &&& !flags[0]
    &&& forall|i: int|
        0 <= i < phases.len() ==> #[trigger] reacts(
            flags[i],
            env,
            msgs[i],
            phases[i],
            events[i],
            flags[i + 1],
            nexts[i],
            actions[i],
        )
}

/// Over any run of the bot from its start, submissions are open exactly
/// when the last admin command so far was `open` (closed before any), and a
/// submission goes on to be checked and saved only while they are open.
pub proof fn law_submissions_open_after_last_open_command(
    env: EnvInfo,
    msgs: Seq<Message>,
    phases: Seq<Phase>,
    events: Seq<Event>,
    flags: Seq<bool>,
    nexts: Seq<Phase>,
    actions: Seq<Action>,
)
    requires
        is_run(env, msgs, phases, events, flags, nexts, actions),
    ensures
        forall|k: int| 0 <= k <= phases.len() ==> #[trigger] flags[k] == last_command_opened(env, msgs, phases, k),
        forall|i: int|
            0 <= i < phases.len() && #[trigger] nexts[i] is AwaitingSubmissions ==> last_command_opened(
                env,
                msgs,
                phases,
                i,
            ),
{
    assert forall|k: int| 0 <= k <= phases.len() implies #[trigger] flags[k] == last_command_opened(env, msgs, phases, k) by {
        lemma_flags_follow_commands(env, msgs, phases, events, flags, nexts, actions, k);
    }
    assert forall|i: int|
        0 <= i < phases.len() && #[trigger] nexts[i] is AwaitingSubmissions implies last_command_opened(
            env,
            msgs,
            phases,
            i,
        ) by {
        lemma_flags_follow_commands(env, msgs, phases, events, flags, nexts, actions, i);
        assert(reacts(flags[i], env, msgs[i], phases[i], events[i], flags[i + 1], nexts[i], actions[i]));
    }
}

proof fn lemma_flags_follow_commands(
    env: EnvInfo,
    msgs: Seq<Message>,
    phases: Seq<Phase>,
    events: Seq<Event>,
    flags: Seq<bool>,
    nexts: Seq<Phase>,
    actions: Seq<Action>,
    k: int,
)
    requires
        is_run(env, msgs, phases, events, flags, nexts, actions),
        0 <= k <= phases.len(),
    ensures
        flags[k] == last_command_opened(env, msgs, phases, k),
    decreases k,
{
    if k > 0 {
        let i = k - 1;
        lemma_flags_follow_commands(env, msgs, phases, events, flags, nexts, actions, i);
        assert(reacts(flags[i], env, msgs[i], phases[i], events[i], flags[i + 1], nexts[i], actions[i]));
        law_only_commands_toggle_submissions(
            flags[i],
            env,
            msgs[i],
            phases[i],
            events[i],
            flags[i + 1],
            nexts[i],
            actions[i],
        );
        reveal_strlit("open");
        reveal_strlit("close");
        assert("open"@.len() != "close"@.len());
    }
}


proof fn lemma_saved_name_parts(user_id: u64, ext: Seq<char>)
    ensures
        saved_under(saved_name(user_id, ext), decimal(user_id as nat)),
        after_first_dot(saved_name(user_id, ext)) == ext,
{
    reveal_strlit(".");
    let d = decimal(user_id as nat);
    let name = saved_name(user_id, ext);
    lemma_decimal_digits(user_id as nat);
    assert forall|j: int| 0 <= j < d.len() implies name[j] != '.' by {
        assert(name[j] == d[j]);
        assert(is_digit(d[j]));
    }
    assert(name[d.len() as int] == '.');
    lemma_first_index_of_at(name, '.', d.len() as int);
    assert(stem(name) =~= d);
    assert(after_first_dot(name) =~= ext);
}

/// A solution passes exactly when each expected answer is on its line of
/// the output: every line from the first up to the number of answers must
/// be there and equal the answer; later lines do not matter.
pub proof fn law_pass_means_every_answer(answers: Seq<Seq<char>>, output: Seq<Seq<char>>)
    ensures
        output_matches(answers, output) <==> (forall|i: int|
            #![trigger answers[i]]
            0 <= i < answers.len() ==> i < output.len() && output[i] == answers[i]),
        answers.len() > 0 && (output.len() == 0 || output[0] != answers[0]) ==> !output_matches(
            answers,
            output,
        ),
{
    if !output_matches(answers, output) {
        if answers.len() > output.len() {
            let i = output.len() as int;
            assert(answers[i] == answers[i]);
        } else {
            let i = choose|i: int| 0 <= i < answers.len() && #[trigger] output[i] != answers[i];
            assert(answers[i] == answers[i]);
        }
    }
    if output_matches(answers, output) {
        assert forall|i: int| #![trigger answers[i]] 0 <= i < answers.len() implies i < output.len()
            && output[i] == answers[i] by {
            assert(output[i] == answers[i]);
        }
        if answers.len() > 0 {
            assert(output[0] == answers[0]);
        }
    }
}

/// When the outputs of a test run come back, the author of every solution
/// whose output gives each expected answer on its line gets the winner role,
/// and only authors of such solutions do.
pub proof fn law_every_passing_author_wins(
    open: bool,
    env: EnvInfo,
    msg: Message,
    answers: Vec<String>,
    solutions: Vec<Solution>,
    os: Vec<RunOutput>,
    open2: bool,
    next: Phase,
    a: Action,
)
    requires
        os.len() == solutions.len(),
        reacts(
            open,
            env,
            msg,
            Phase::AwaitingOutputs { answers, solutions },
            Event::Outputs(os),
            open2,
            next,
            a,
        ),
    ensures
        a matches Action::AddRoles { users, role, .. } && role == env.winner_role_id && (forall|j: int|
            0 <= j < solutions.len() && output_matches(
                texts(answers@),
                crate::text::text_lines(os@[j].stdout@),
            ) ==> users@.contains(#[trigger] solutions@[j].user_id)),
        a matches Action::AddRoles { users, .. } && (forall|k: int|
            0 <= k < users.len() ==> wrote_passing_solution(
                solutions@,
                texts(answers@),
                os@,
                #[trigger] users@[k],
            )),
{
    let outcomes = outcomes_of(solutions@, texts(answers@), os@);
    assert(crate::bot::on_outputs(env, texts(answers@), solutions@, os@, next, a));
    if let Action::AddRoles { users, .. } = a {
        lemma_winner_users(solutions@, texts(answers@), os@, users@);
    }
}

/// Whether `user` wrote a solution whose output gives every expected answer.
pub open spec fn wrote_passing_solution(
    solutions: Seq<Solution>,
    answers: Seq<Seq<char>>,
    os: Seq<RunOutput>,
    user: u64,
) -> bool {
    exists|j: int|
        0 <= j < solutions.len() && #[trigger] solutions[j].user_id == user && output_matches(
            answers,
            crate::text::text_lines(os[j].stdout@),
        )
}

proof fn lemma_winner_users(
    solutions: Seq<Solution>,
    answers: Seq<Seq<char>>,
    os: Seq<RunOutput>,
    users: Seq<u64>,
)
    requires
        os.len() == solutions.len(),
        users == users_of(passed_outcomes(outcomes_of(solutions, answers, os))),
    ensures
        forall|j: int|
            0 <= j < solutions.len() && output_matches(answers, crate::text::text_lines(os[j].stdout@))
                ==> users.contains(#[trigger] solutions[j].user_id),
        forall|k: int| 0 <= k < users.len() ==> wrote_passing_solution(solutions, answers, os, #[trigger] users[k]),
{
    let outcomes = outcomes_of(solutions, answers, os);
    lemma_passed_exactly(outcomes);
    let p = passed_outcomes(outcomes);
    law_winners_are_the_passed_authors(outcomes);
    assert forall|j: int|
        0 <= j < solutions.len() && output_matches(answers, crate::text::text_lines(os[j].stdout@))
            implies users.contains(#[trigger] solutions[j].user_id) by {
        assert(outcomes[j] == outcome_of(solutions[j], answers, os[j]));
        assert(outcomes[j].micros is Some);
        let k = choose|k: int| 0 <= k < p.len() && p[k] == outcomes[j];
        assert(users[k] == p[k].user_id);
    }
    assert forall|k: int| 0 <= k < users.len() implies wrote_passing_solution(solutions, answers, os, #[trigger] users[k]) by {
        assert(users[k] == p[k].user_id);
        let j = choose|j: int| 0 <= j < outcomes.len() && outcomes[j] == p[k];
        assert(outcomes.len() == solutions.len());
        assert(outcomes[j] == outcome_of(solutions[j], answers, os[j]));
        assert(p[k].micros is Some);
        assert(solutions[j].user_id == users[k]);
        assert(output_matches(answers, crate::text::text_lines(os[j].stdout@)));
    }
}

proof fn lemma_passed_exactly(s: Seq<Outcome>)
    ensures
        forall|i: int| 0 <= i < passed_outcomes(s).len() ==> (#[trigger] passed_outcomes(s)[i]).micros is Some,
        forall|i: int| 0 <= i < passed_outcomes(s).len() ==> exists|j: int|
            0 <= j < s.len() && s[j] == #[trigger] passed_outcomes(s)[i],
        forall|j: int| 0 <= j < s.len() && (#[trigger] s[j]).micros is Some ==> exists|k: int|
            0 <= k < passed_outcomes(s).len() && passed_outcomes(s)[k] == s[j],
    decreases s.len(),
{
    if s.len() > 0 {
        let t = s.drop_last();
        lemma_passed_exactly(t);
        let pt = passed_outcomes(t);
        let ps = passed_outcomes(s);
        assert forall|i: int| 0 <= i < ps.len() implies (#[trigger] ps[i]).micros is Some by {
            if i < pt.len() {
                assert(ps[i] == pt[i]);
            }
        }
        assert forall|i: int| 0 <= i < ps.len() implies exists|j: int|
            0 <= j < s.len() && s[j] == #[trigger] ps[i] by {
            if i < pt.len() {
                assert(ps[i] == pt[i]);
                let j = choose|j: int| 0 <= j < t.len() && t[j] == pt[i];
                assert(s[j] == t[j]);
            } else {
                assert(ps[i] == s[s.len() - 1]);
            }
        }
        assert forall|j: int| 0 <= j < s.len() && (#[trigger] s[j]).micros is Some implies exists|k: int|
            0 <= k < ps.len() && ps[k] == s[j] by {
            if j < t.len() {
                assert(t[j] == s[j]);
                let k = choose|k: int| 0 <= k < pt.len() && pt[k] == t[j];
                assert(ps[k] == pt[k]);
            } else {
                assert(ps[ps.len() - 1] == s[j]);
            }
        }
    }
}

/// The winner role goes to the author of each passed solution, one entry
/// per passed solution, in the order of the solutions; the passed
/// solutions are exactly those that have a time.
pub proof fn law_winners_are_the_passed_authors(s: Seq<Outcome>)
    ensures
        users_of(passed_outcomes(s)).len() == passed_outcomes(s).len(),
        forall|i: int|
            0 <= i < passed_outcomes(s).len() ==> #[trigger] users_of(passed_outcomes(s))[i]
                == passed_outcomes(s)[i].user_id,
        forall|j: int| 0 <= j < s.len() && (#[trigger] s[j]).micros is Some ==> users_of(
            passed_outcomes(s),
        ).contains(s[j].user_id),
        forall|i: int| 0 <= i < passed_outcomes(s).len() ==> (#[trigger] passed_outcomes(s)[i]).micros is Some,
{
    lemma_passed_exactly(s);
    let p = passed_outcomes(s);
    assert forall|j: int| 0 <= j < s.len() && (#[trigger] s[j]).micros is Some implies users_of(p).contains(
        s[j].user_id,
    ) by {
        let k = choose|k: int| 0 <= k < p.len() && p[k] == s[j];
        assert(users_of(p)[k] == p[k].user_id);
    }
}

/// Both rankings put a solution before another only when it is no slower
/// (no longer): the speed ranking sorts by the measured time itself and the
/// length ranking by the size itself, each keeping equal ones in test order.
pub proof fn law_rankings_sort_by_time_and_size(p: Seq<Outcome>)
    requires
        p.len() <= usize::MAX,
    ensures
        forall|i: int| 0 <= i < p.len() ==> #[trigger] time_keys(p)[i] == p[i].micros.unwrap(),
        forall|i: int| 0 <= i < p.len() ==> #[trigger] length_keys(p)[i] == p[i].length as u64,
        forall|i: int, j: int|
            0 <= i < j < p.len() ==> {
                let a = p[#[trigger] sorted_order(time_keys(p))[i] as int];
                let b = p[#[trigger] sorted_order(time_keys(p))[j] as int];
                a.micros.unwrap() < b.micros.unwrap() || (a.micros.unwrap() == b.micros.unwrap()
                    && sorted_order(time_keys(p))[i] < sorted_order(time_keys(p))[j])
            },
        forall|i: int, j: int|
            0 <= i < j < p.len() ==> {
                let a = p[#[trigger] sorted_order(length_keys(p))[i] as int];
                let b = p[#[trigger] sorted_order(length_keys(p))[j] as int];
                a.length < b.length || (a.length == b.length && sorted_order(length_keys(p))[i]
                    < sorted_order(length_keys(p))[j])
            },
{
    lemma_sorted_order(time_keys(p));
    lemma_sorted_order(length_keys(p));
    let ot = sorted_order(time_keys(p));
    let ol = sorted_order(length_keys(p));
    assert forall|i: int, j: int| 0 <= i < j < p.len() implies {
        let a = p[#[trigger] ot[i] as int];
        let b = p[#[trigger] ot[j] as int];
        a.micros.unwrap() < b.micros.unwrap() || (a.micros.unwrap() == b.micros.unwrap() && ot[i] < ot[j])
    } by {
        assert(precedes(time_keys(p), ot[i], ot[j]));
        assert(ot[i] < p.len() && ot[j] < p.len());
    }
    assert forall|i: int, j: int| 0 <= i < j < p.len() implies {
        let a = p[#[trigger] ol[i] as int];
        let b = p[#[trigger] ol[j] as int];
        a.length < b.length || (a.length == b.length && ol[i] < ol[j])
    } by {
        assert(precedes(length_keys(p), ol[i], ol[j]));
        assert(ol[i] < p.len() && ol[j] < p.len());
    }
}

/// Each extension stands for one language: `cpp`, `cc`, `cxx` and `c++`
/// for C++, `c` alone for C, `js` and `ts` for JavaScript, and `rs`, `py`,
/// `lua`, `nim` for Rust, Python, Lua and Nim.
pub proof fn law_extension_languages(ext: Seq<char>)
    ensures
        language_of(ext) == Some(Language::Cpp) <==> (ext == "cpp"@ || ext == "cc"@ || ext == "cxx"@
            || ext == "c++"@),
        language_of(ext) == Some(Language::C) <==> ext == "c"@,
        language_of(ext) == Some(Language::Rust) <==> ext == "rs"@,
        language_of(ext) == Some(Language::JavaScript) <==> (ext == "js"@ || ext == "ts"@),
        language_of(ext) == Some(Language::Python) <==> ext == "py"@,
        language_of(ext) == Some(Language::Lua) <==> ext == "lua"@,
        language_of(ext) == Some(Language::Nim) <==> ext == "nim"@,
{
    reveal_strlit("rs");
    reveal_strlit("cpp");
    reveal_strlit("cc");
    reveal_strlit("cxx");
    reveal_strlit("c++");
    reveal_strlit("c");
    reveal_strlit("js");
    reveal_strlit("ts");
    reveal_strlit("py");
    reveal_strlit("lua");
    reveal_strlit("nim");
    assert("rs"@[0] == 'r' && "cc"@[0] == 'c' && "js"@[0] == 'j' && "ts"@[0] == 't' && "py"@[0] == 'p');
    assert("cpp"@[1] == 'p' && "cxx"@[1] == 'x' && "c++"@[1] == '+' && "lua"@[0] == 'l' && "nim"@[0] == 'n');
    assert("cpp"@[0] == 'c' && "cxx"@[0] == 'c' && "c++"@[0] == 'c' && "c"@[0] == 'c');
    assert("c"@.len() == 1 && "rs"@.len() == 2 && "cc"@.len() == 2 && "cpp"@.len() == 3);
    assert("cxx"@.len() == 3 && "c++"@.len() == 3);
}

/// A submission is refused as a second one whenever some file of the
/// listing, wherever it stands, is a solution saved for its author: the
/// author is told so, and nothing is fetched or saved.
pub proof fn law_second_submission_refused(
    open: bool,
    env: EnvInfo,
    msg: Message,
    filename: String,
    url: String,
    es: Vec<DirEntry>,
    j: int,
    ext: Seq<char>,
    open2: bool,
    next: Phase,
    a: Action,
)
    requires
        0 <= j < es.len(),
        es@[j].name@ == saved_name(msg.author_id, ext),
        reacts(
            open,
            env,
            msg,
            Phase::AwaitingSubmissions { filename, url },
            Event::Listing(es),
            open2,
            next,
            a,
        ),
    ensures
        open2 == open,
        next is Finished,
        is_send_temporary(a, msg.channel_id, mention(msg.author_id) + " You have already submitted!"@, 5),
{
    lemma_saved_name_parts(msg.author_id, ext);
    assert(entry_names(es@)[j] == es@[j].name@);
    assert(saved_under(entry_names(es@)[j], decimal(msg.author_id as nat)));
}


proof fn lemma_first_saved(names: Seq<Seq<char>>, key: Seq<char>, j: int)
    requires
        0 <= j < names.len(),
        saved_under(names[j], key),
    ensures
        exists|k: int|
            0 <= k <= j && saved_under(names[k], key) && forall|m: int|
                0 <= m < k ==> !#[trigger] saved_under(names[m], key),
    decreases j,
{
    if exists|m: int| 0 <= m < j && #[trigger] saved_under(names[m], key) {
        let m = choose|m: int| 0 <= m < j && #[trigger] saved_under(names[m], key);
        lemma_first_saved(names, key, m);
    } else {
        assert(forall|m: int| 0 <= m < j ==> !#[trigger] saved_under(names[m], key));
    }
}

/// `remove` of a user deletes a listed file whose part before the first
/// `.` is the user's id, the first such file in the listing: a solution
/// saved for the user at position `j` is deleted unless an earlier file is
/// saved under the same id.
pub proof fn law_remove_deletes_the_users_file(
    open: bool,
    env: EnvInfo,
    msg: Message,
    user_id: u64,
    es: Vec<DirEntry>,
    j: int,
    ext: Seq<char>,
    open2: bool,
    next: Phase,
    a: Action,
)
    requires
        0 <= j < es.len(),
        es@[j].name@ == saved_name(user_id, ext),
        reacts(open, env, msg, Phase::AwaitingRemoval { user_id }, Event::Listing(es), open2, next, a),
    ensures
        next is Removed,
        a matches Action::DeleteFile { path } && exists|k: int|
            0 <= k <= j && path@ == solution_path(#[trigger] es@[k].name@) && stem(es@[k].name@)
                == decimal(user_id as nat) && (forall|m: int|
                0 <= m < k ==> !saved_under(#[trigger] es@[m].name@, decimal(user_id as nat))),
{
    lemma_saved_name_parts(user_id, ext);
    let key = decimal(user_id as nat);
    let names = entry_names(es@);
    assert(names.len() == es.len());
    assert(names[j] == es@[j].name@);
    assert(saved_under(names[j], key));
    lemma_first_saved(names, key, j);
    let k = choose|k: int|
        0 <= k < es.len() && saved_under(names[k], key) && forall|m: int|
            0 <= m < k ==> !#[trigger] saved_under(names[m], key);
    assert(names[k] == es@[k].name@);
    if k > j {
        assert(!saved_under(names[j], key));
    }
    assert forall|m: int| 0 <= m < k implies !saved_under(#[trigger] es@[m].name@, key) by {
        assert(names[m] == es@[m].name@);
    }
}

/// The lines of a tester file: the first gives the lines per test case,
/// the number of test cases is the whole number of times they fit in the
/// remaining lines, the solutions read the lines at odd positions and must
/// answer the lines at even positions from the third on.
pub proof fn law_tester_layout(t: Seq<char>)
    requires
        tester_is_valid(t),
    ensures
        lines_per_case(t) > 0,
        case_count(t) * lines_per_case(t) <= text_lines(t).len() - 1,
        text_lines(t).len() - 1 < (case_count(t) + 1) * lines_per_case(t),
        every_other(text_lines(t), 1).len() == text_lines(t).len() / 2,
        forall|k: int|
            0 <= k < every_other(text_lines(t), 1).len() ==> #[trigger] every_other(text_lines(t), 1)[k]
                == text_lines(t)[2 * k + 1],
        expected_answers(t).len() == (text_lines(t).len() - 1) / 2,
        forall|k: int|
            0 <= k < expected_answers(t).len() ==> #[trigger] expected_answers(t)[k] == text_lines(t)[2
                * k + 2],
{
    let n = lines_per_case(t) as int;
    let x = text_lines(t).len() - 1;
    let c = case_count(t) as int;
    assert(c == x / n);
    assert(c * n <= x < (c + 1) * n) by (nonlinear_arith)
        requires
            n > 0,
            x >= 0,
            c == x / n,
    ;
}

/// Whether every one of `roles` is `role` (true when there are none).
pub open spec fn all_roles_are(roles: Seq<u64>, role: u64) -> bool {
    forall|r: int| 0 <= r < roles.len() ==> roles[r] == role
}

/// Whether member `m` holds no role but the winner role, or no role but
/// the role of having submitted.
pub open spec fn reset_target(m: Member, env: EnvInfo) -> bool {
    all_roles_are(m.roles@, env.winner_role_id) || all_roles_are(m.roles@, env.submitted_role_id)
}

/// Whether some member with `user_id` is one that `reset` aims at.
pub open spec fn is_target_member(ms: Seq<Member>, env: EnvInfo, user_id: u64) -> bool {
    exists|i: int| 0 <= i < ms.len() && #[trigger] ms[i].user_id == user_id && reset_target(ms[i], env)
}

/// `reset` takes the role of having submitted only from members whose
/// roles are all the winner role or all that role (or who have none), and
/// from each such member.
pub proof fn law_reset_takes_role_from_holders(ms: Seq<Member>, env: EnvInfo)
    ensures
        forall|k: int|
            0 <= k < reset_removals(ms, env).len() ==> is_target_member(
                ms,
                env,
                #[trigger] reset_removals(ms, env)[k],
            ),
        forall|i: int|
            0 <= i < ms.len() && reset_target(#[trigger] ms[i], env) ==> reset_removals(ms, env).contains(
                ms[i].user_id,
            ),
    decreases ms.len(),
{
    if ms.len() > 0 {
        let t = ms.drop_last();
        law_reset_takes_role_from_holders(t, env);
        let rt = reset_removals(t, env);
        let r = reset_removals(ms, env);
        let m = ms.last();
        assert(r.len() >= rt.len());
        assert forall|k: int| 0 <= k < r.len() implies is_target_member(ms, env, #[trigger] r[k]) by {
            if k < rt.len() {
                assert(r[k] == rt[k]);
                assert(is_target_member(t, env, rt[k]));
                let i = choose|i: int|
                    0 <= i < t.len() && #[trigger] t[i].user_id == rt[k] && reset_target(t[i], env);
                assert(ms[i] == t[i]);
                assert(ms[i].user_id == r[k]);
            } else {
                let i = ms.len() - 1;
                assert(ms[i] == m);
                assert(r[k] == m.user_id);
                assert(ms[i].user_id == r[k]);
            }
        }
        assert forall|i: int| 0 <= i < ms.len() && reset_target(#[trigger] ms[i], env) implies r.contains(
            ms[i].user_id,
        ) by {
            if i < t.len() {
                assert(ms[i] == t[i]);
                assert(rt.contains(t[i].user_id));
                let k = choose|k: int| 0 <= k < rt.len() && rt[k] == t[i].user_id;
                assert(r[k] == rt[k]);
            } else {
                assert(ms[i] == m);
                assert(r[rt.len() as int] == m.user_id);
            }
        }
    }
}

/// Whether `user_id` wrote one of the solutions that have no time.
pub open spec fn wrote_untimed(s: Seq<Outcome>, user_id: u64) -> bool {
    exists|j: int| 0 <= j < s.len() && s[j].micros is None && #[trigger] s[j].user_id == user_id
}

/// The authors of the failed solutions are listed once per failed
/// solution: every solution without a time has its author listed, and
/// every listed author wrote a solution without a time.
pub proof fn law_failed_are_untimed(s: Seq<Outcome>)
    ensures
        forall|j: int| 0 <= j < s.len() && (#[trigger] s[j]).micros is None ==> failed_users(s).contains(
            s[j].user_id,
        ),
        forall|k: int| 0 <= k < failed_users(s).len() ==> wrote_untimed(s, #[trigger] failed_users(s)[k]),
    decreases s.len(),
{
    if s.len() > 0 {
        let t = s.drop_last();
        law_failed_are_untimed(t);
        let ft = failed_users(t);
        let f = failed_users(s);
        assert forall|j: int| 0 <= j < s.len() && (#[trigger] s[j]).micros is None implies f.contains(
            s[j].user_id,
        ) by {
            if j < t.len() {
                assert(s[j] == t[j]);
                let k = choose|k: int| 0 <= k < ft.len() && ft[k] == t[j].user_id;
                assert(f[k] == ft[k]);
            } else {
                assert(f[ft.len() as int] == s[j].user_id);
            }
        }
        assert forall|k: int| 0 <= k < f.len() implies wrote_untimed(s, #[trigger] f[k]) by {
            if k < ft.len() {
                assert(f[k] == ft[k]);
                assert(wrote_untimed(t, ft[k]));
                let j = choose|j: int| 0 <= j < t.len() && t[j].micros is None && #[trigger] t[j].user_id == ft[k];
                assert(s[j] == t[j]);
                assert(s[j].user_id == f[k]);
            } else {
                let j = s.len() - 1;
                assert(s[j].user_id == f[k]);
            }
        }
    }
}

/// The extension of an attachment named `base.ext`, where `ext` holds no
/// `.` and neither starts nor ends with white space, is `ext`.
pub proof fn law_extension_after_last_dot(base: Seq<char>, ext: Seq<char>)
    requires
        forall|i: int| 0 <= i < ext.len() ==> ext[i] != '.',
        ext.len() > 0 ==> !is_white_space(ext[0]) && !is_white_space(ext[ext.len() - 1]),
    ensures
        extension_of(base + "."@ + ext) == ext,
{
    reveal_strlit(".");
    let name = base + "."@ + ext;
    assert forall|j: int| base.len() < j < name.len() implies name[j] != '.' by {
        assert(name[j] == ext[j - base.len() - 1]);
    }
    lemma_last_index_of_at(name, '.', base.len() as int);
    assert(name.skip(base.len() + 1 as int) =~= ext);
    lemma_trim_start_at(ext, 0);
    assert(ext.skip(0) =~= ext);
    lemma_trim_end_at(ext, ext.len() as int);
}


/// A message of a person outside the submission channel that is not an
/// admin command in the command channel is answered `pong!` in its own
/// channel exactly when its text begins with `!ping`, and otherwise left
/// alone; it never changes whether submissions are open.
pub proof fn law_ping_is_answered(
    open: bool,
    env: EnvInfo,
    msg: Message,
    event: Event,
    open2: bool,
    next: Phase,
    a: Action,
)
    requires
        !msg.author_is_bot,
        msg.channel_id != env.submit_channel,
        !(msg.channel_id == env.botcmd_channel && msg.author_id == ADMIN_ID),
        reacts(open, env, msg, Phase::Received, event, open2, next, a),
    ensures
        open2 == open,
        next is Finished,
        (msg.content@.len() >= 5 && msg.content@.take(5) == "!ping"@) ==> is_send(
            a,
            msg.channel_id,
            "pong!"@,
            true,
        ),
        !(msg.content@.len() >= 5 && msg.content@.take(5) == "!ping"@) ==> a is Finish,
{
    reveal_strlit("!ping");
}

} // verus!
