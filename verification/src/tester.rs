use vstd::prelude::*;
use vstd::string::*;
use crate::text::{
    append_range, decimal, digit_char, digit_of, lines, parse_unsigned, parse_usize, push_decimal,
    text_lines, texts,
};

verus! {

/// Whether a tester file can be read: it has a first line, which holds a
/// positive number of lines per test case.
pub open spec fn tester_is_valid(t: Seq<char>) -> bool {
    let ls = text_lines(t);
    &&& ls.len() > 0
    &&& parse_unsigned(ls[0], usize::MAX as nat) matches Some(n)
    &&& n > 0
}

/// The number of lines per test case that the first line of a tester file gives.
pub open spec fn lines_per_case(t: Seq<char>) -> nat {
    parse_unsigned(text_lines(t)[0], usize::MAX as nat).unwrap()
}

/// The number of test cases of a tester file: the lines after the first,
/// divided by the lines per test case.
pub open spec fn case_count(t: Seq<char>) -> nat {
    ((text_lines(t).len() - 1) as nat) / lines_per_case(t)
}

/// Every second element of `s`, from position `start` on.
pub open spec fn every_other(s: Seq<Seq<char>>, start: int) -> Seq<Seq<char>> {
    if 0 <= start < s.len() {
        Seq::new(((s.len() - start + 1) / 2) as nat, |k: int| s[start + 2 * k])
    } else {
        seq![]
    }
}

/// The parts joined, with `sep` between each two of them.
pub open spec fn joined_with(parts: Seq<Seq<char>>, sep: Seq<char>) -> Seq<char>
    decreases parts.len(),
{
    if parts.len() == 0 {
        seq![]
    } else if parts.len() == 1 {
        parts[0]
    } else {
        joined_with(parts.drop_last(), sep) + sep + parts.last()
    }
}

/// What a solution reads on its standard input: the number of test cases on
/// a line, then the test lines of the tester file (every second line after
/// the first), one per line.
pub open spec fn test_input(t: Seq<char>) -> Seq<char> {
    decimal(case_count(t)) + "\n"@ + joined_with(every_other(text_lines(t), 1), "\n"@)
}

/// The answers a solution must print: the other lines of the tester file.
pub open spec fn expected_answers(t: Seq<char>) -> Seq<Seq<char>> {
    every_other(text_lines(t), 2)
}

/// Whether the output of a solution gives each expected answer on its line.
pub open spec fn output_matches(answers: Seq<Seq<char>>, output: Seq<Seq<char>>) -> bool {
    &&& answers.len() <= output.len()
    &&& forall|i: int| 0 <= i < answers.len() ==> #[trigger] output[i] == answers[i]
}

/// The test that every solution goes through.
pub struct TestPlan {
    pub input: String,
    pub answers: Vec<String>,
}

fn take_every_other(ls: &Vec<String>, start: usize) -> (r: Vec<String>)
    requires
        start >= 1,
    ensures
        texts(r@) == every_other(texts(ls@), start as int),
{
    let mut r: Vec<String> = Vec::new();
    let ghost s = texts(ls@);
    if start >= ls.len() {
        assert(texts(r@) =~= every_other(s, start as int));
        return r;
    }
    let count = (ls.len() - start + 1) / 2;
    let mut k: usize = 0;
    while k < count
        invariant
            1 <= start < ls.len(),
            count == (ls.len() - start + 1) / 2,
            k <= count,
            s == texts(ls@),
            r.len() == k,
            forall|m: int| 0 <= m < k ==> #[trigger] r@[m]@ == s[start + 2 * m],
        decreases count - k,
    {
        r.push(ls[start + 2 * k].clone());
        k = k + 1;
    }
    assert(texts(r@) =~= every_other(s, start as int));
    r
}

fn join_lines(parts: &Vec<String>, out: &mut String)
    ensures
        final(out)@ == old(out)@ + joined_with(texts(parts@), "\n"@),
{
    let ghost s = texts(parts@);
    let ghost base = out@;
    let mut i: usize = 0;
    while i < parts.len()
        invariant
            i <= parts.len(),
            s == texts(parts@),
            out@ == base + joined_with(s.take(i as int), "\n"@),
        decreases parts.len() - i,
    {
        if i > 0 {
            out.append("\n");
        }
        out.append(parts[i].as_str());
        proof {
            let t = s.take(i + 1);
            assert(t.drop_last() =~= s.take(i as int));
            if i == 0 {
                assert(s.take(0) =~= Seq::<Seq<char>>::empty());
                assert(joined_with(t, "\n"@) == t[0]);
            }
        }
        i = i + 1;
    }
    assert(s.take(parts.len() as int) =~= s);
}

/// Reads a tester file into the input that each solution gets and the
/// answers it must give.
pub fn plan_tests(tester: &str) -> (r: TestPlan)
    requires
        tester_is_valid(tester@),
    ensures
        r.input@ == test_input(tester@),
        texts(r.answers@) == expected_answers(tester@),
{
    let ls = lines(tester);
    let per_case = match parse_usize(ls[0].as_str()) {
        Some(n) => n,
        None => 1,
    };
    let count = (ls.len() - 1) / per_case;
    let cases = take_every_other(&ls, 1);
    let answers = take_every_other(&ls, 2);
    let mut input = String::new();
    push_decimal(&mut input, count as u64);
    input.append("\n");
    join_lines(&cases, &mut input);
    TestPlan { input, answers }
}

/// Whether a solution's output gives the expected answers.
pub fn passes(answers: &Vec<String>, stdout: &str) -> (r: bool)
    ensures
        r == output_matches(texts(answers@), text_lines(stdout@)),
{
    let out = lines(stdout);
    let ghost o = text_lines(stdout@);
    let mut i: usize = 0;
    while i < answers.len()
        invariant
            i <= answers.len(),
            o == texts(out@),
            o == text_lines(stdout@),
            i <= out.len(),
            forall|j: int| 0 <= j < i ==> #[trigger] out@[j]@ == answers@[j]@,
        decreases answers.len() - i,
    {
        if i >= out.len() || !(out[i] == answers[i]) {
            if i < out.len() {
                assert(o[i as int] != texts(answers@)[i as int]);
            }
            return false;
        }
        i = i + 1;
    }
    assert forall|j: int| 0 <= j < texts(answers@).len() implies #[trigger] o[j]
        == texts(answers@)[j] by {
        assert(out@[j]@ == answers@[j]@);
    }
    true
}

/// The six decimal digits of a number of microseconds below one second.
pub open spec fn six_digits(r: nat) -> Seq<char> {
    seq![
        digit_char((r / 100000) % 10),
        digit_char((r / 10000) % 10),
        digit_char((r / 1000) % 10),
        digit_char((r / 100) % 10),
        digit_char((r / 10) % 10),
        digit_char(r % 10),
    ]
}

/// `s` without its trailing `0` digits.
pub open spec fn without_trailing_zeros(s: Seq<char>) -> Seq<char>
    decreases s.len(),
{
    if s.len() > 0 && s.last() == '0' {
        without_trailing_zeros(s.drop_last())
    } else {
        s
    }
}

/// A duration of whole microseconds, written as a number of seconds: the
/// whole seconds, then, if any remain, a `.` and the fraction without
/// trailing zeros.
pub open spec fn seconds_text(micros: nat) -> Seq<char> {
    let rest = micros % 1000000;
    decimal(micros / 1000000) + if rest == 0 {
        Seq::<char>::empty()
    } else {
        "."@ + without_trailing_zeros(six_digits(rest))
    }
}

proof fn lemma_without_trailing_zeros_at(s: Seq<char>, k: int)
    requires
        0 <= k <= s.len(),
        forall|j: int| k <= j < s.len() ==> #[trigger] s[j] == '0',
        k > 0 ==> s[k - 1] != '0',
    ensures
        without_trailing_zeros(s) == s.take(k),
    decreases s.len(),
{
    if k == s.len() {
        assert(s.take(k) =~= s);
    } else {
        let t = s.drop_last();
        assert forall|j: int| k <= j < t.len() implies #[trigger] t[j] == '0' by {
            assert(t[j] == s[j]);
        }
        lemma_without_trailing_zeros_at(t, k);
        assert(t.take(k) =~= s.take(k));
    }
}

/// Appends a duration of whole microseconds, written in seconds.
pub fn push_seconds(s: &mut String, micros: u64)
    ensures
        final(s)@ == old(s)@ + seconds_text(micros as nat),
{
    push_decimal(s, micros / 1000000);
    let rest = micros % 1000000;
    if rest == 0 {
        assert(s@ =~= old(s)@ + seconds_text(micros as nat));
        return;
    }
    let mut v: Vec<char> = Vec::new();
    v.push(digit_of((rest / 100000) % 10));
    v.push(digit_of((rest / 10000) % 10));
    v.push(digit_of((rest / 1000) % 10));
    v.push(digit_of((rest / 100) % 10));
    v.push(digit_of((rest / 10) % 10));
    v.push(digit_of(rest % 10));
    assert(v@ =~= six_digits(rest as nat));
    let mut k: usize = 6;
    while k > 0 && v[k - 1] == '0'
        invariant
            k <= 6,
            v.len() == 6,
            forall|j: int| k <= j < 6 ==> #[trigger] v@[j] == '0',
        decreases k,
    {
        k = k - 1;
    }
    proof {
        lemma_without_trailing_zeros_at(v@, k as int);
    }
    let ghost mid = s@;
    s.append(".");
    append_range(s, &v, 0, k);
    assert(v@.subrange(0, k as int) =~= v@.take(k as int));
    assert(s@ =~= old(s)@ + seconds_text(micros as nat));
}


/// Whether a tester file can be read (see [`tester_is_valid`]).
pub fn tester_valid(tester: &str) -> (r: bool)
    ensures
        r == tester_is_valid(tester@),
{
    let ls = lines(tester);
    if ls.len() == 0 {
        return false;
    }
    assert(ls@[0]@ == text_lines(tester@)[0]);
    match parse_usize(ls[0].as_str()) {
        Some(n) => n > 0,
        None => false,
    }
}

} // verus!
