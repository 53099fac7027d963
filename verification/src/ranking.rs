use vstd::prelude::*;
use vstd::string::*;
use crate::language::{emoji, emoji_of, Language};
use crate::submission::mention;
use crate::tester::{push_seconds, seconds_text};
use crate::text::{decimal, push_decimal, texts};

verus! {

/// Whether position `a` comes before position `b` when ordering by `keys`:
/// by key, and by position among equal keys.
pub open spec fn precedes(keys: Seq<u64>, a: usize, b: usize) -> bool {
    keys[a as int] < keys[b as int] || (keys[a as int] == keys[b as int] && a < b)
}

/// Whether `order` lists every position of `keys` once, ordered by key, with
/// equal keys kept in the order they come in: the order of a stable sort.
pub open spec fn orders_by(keys: Seq<u64>, order: Seq<usize>) -> bool {
    &&& order.len() == keys.len()
    &&& forall|i: int| 0 <= i < order.len() ==> #[trigger] order[i] < keys.len()
    &&& forall|i: int, j: int|
        0 <= i < j < order.len() ==> precedes(keys, #[trigger] order[i], #[trigger] order[j])
    &&& forall|p: int| 0 <= p < keys.len() ==> #[trigger] order.contains(p as usize)
}

/// The positions of `keys` in the order of a stable sort by key.
pub open spec fn sorted_order(keys: Seq<u64>) -> Seq<usize> {
    choose|order: Seq<usize>| orders_by(keys, order)
}

proof fn lemma_precedes_asym(keys: Seq<u64>, a: usize, b: usize)
    ensures
        !(precedes(keys, a, b) && precedes(keys, b, a)),
{
}

/// A stable order by key is unique.
pub proof fn lemma_order_unique(keys: Seq<u64>, o1: Seq<usize>, o2: Seq<usize>)
    requires
        orders_by(keys, o1),
        orders_by(keys, o2),
    ensures
        o1 == o2,
{
    assert forall|i: int| 0 <= i < o1.len() implies o1[i] == o2[i] by {
        lemma_order_prefix_equal(keys, o1, o2, i);
    }
    assert(o1 =~= o2);
}

proof fn lemma_order_prefix_equal(keys: Seq<u64>, o1: Seq<usize>, o2: Seq<usize>, i: int)
    requires
        orders_by(keys, o1),
        orders_by(keys, o2),
        0 <= i < o1.len(),
    ensures
        o1[i] == o2[i],
    decreases i,
{
    if i > 0 {
        assert forall|m: int| 0 <= m < i implies o1[m] == o2[m] by {
            lemma_order_prefix_equal(keys, o1, o2, m);
        }
    }
    if o1[i] != o2[i] {
        let x = o1[i];
        let y = o2[i];
        assert(x < keys.len());
        assert(y < keys.len());
        assert(o2.contains((x as int) as usize));
        assert(o1.contains((y as int) as usize));
        let p = choose|p: int| 0 <= p < o2.len() && o2[p] == x;
        let q = choose|q: int| 0 <= q < o1.len() && o1[q] == y;
        if p < i {
            assert(o1[p] == o2[p]);
            assert(precedes(keys, o1[p], o1[i]));
            lemma_precedes_asym(keys, x, x);
        } else if q < i {
            assert(o1[q] == o2[q]);
            assert(precedes(keys, o2[q], o2[i]));
            lemma_precedes_asym(keys, y, y);
        } else {
            assert(p != i);
            assert(q != i);
            assert(precedes(keys, o2[i], o2[p]));
            assert(precedes(keys, o1[i], o1[q]));
            lemma_precedes_asym(keys, x, y);
        }
    }
}

/// Whether `order` is a stable order of the first `k` positions of `keys`.
pub open spec fn orders_prefix(keys: Seq<u64>, order: Seq<usize>, k: int) -> bool {
    &&& order.len() == k
    &&& forall|i: int| 0 <= i < order.len() ==> #[trigger] order[i] < k
    &&& forall|i: int, j: int|
        0 <= i < j < order.len() ==> precedes(keys, #[trigger] order[i], #[trigger] order[j])
    &&& forall|p: int| 0 <= p < k ==> #[trigger] order.contains(p as usize)
}

/// Position of the first entry of `order` whose key exceeds `x`, or the length of `order`.
spec fn first_greater(keys: Seq<u64>, order: Seq<usize>, x: u64) -> int
    decreases order.len(),
{
    if order.len() == 0 {
        0
    } else if keys[order[0] as int] > x {
        0
    } else {
        1 + first_greater(keys, order.drop_first(), x)
    }
}

proof fn lemma_first_greater(keys: Seq<u64>, order: Seq<usize>, x: u64)
    ensures
        0 <= first_greater(keys, order, x) <= order.len(),
        forall|q: int| 0 <= q < first_greater(keys, order, x) ==> keys[#[trigger] order[q] as int] <= x,
        first_greater(keys, order, x) < order.len() ==> keys[order[first_greater(keys, order, x)] as int] > x,
    decreases order.len(),
{
    if order.len() > 0 && keys[order[0] as int] <= x {
        lemma_first_greater(keys, order.drop_first(), x);
        assert forall|q: int| 0 <= q < first_greater(keys, order, x) implies keys[#[trigger] order[q] as int] <= x by {
            if q > 0 {
                assert(order[q] == order.drop_first()[q - 1]);
            }
        }
    }
}

/// Inserting position `k` right before the first entry whose key exceeds
/// that of `k` extends a stable order of the first `k` positions to one of
/// the first `k + 1`.
proof fn lemma_insert_next(keys: Seq<u64>, r: Seq<usize>, k: usize, pos: int)
    requires
        k < keys.len(),
        orders_prefix(keys, r, k as int),
        0 <= pos <= r.len(),
        forall|q: int| 0 <= q < pos ==> keys[#[trigger] r[q] as int] <= keys[k as int],
        pos < r.len() ==> keys[r[pos] as int] > keys[k as int],
    ensures
        orders_prefix(keys, r.insert(pos, k), k + 1),
{
    assert forall|q: int| pos <= q < r.len() implies keys[#[trigger] r[q] as int] > keys[k as int] by {
        if q > pos {
            assert(precedes(keys, r[pos], r[q]));
        }
    }
    let nr = r.insert(pos, k);
    assert forall|i: int| 0 <= i < nr.len() implies #[trigger] nr[i] < k + 1 by {
        if i < pos {
            assert(nr[i] == r[i]);
        } else if i > pos {
            assert(nr[i] == r[i - 1]);
        }
    }
    assert forall|i: int, j: int| 0 <= i < j < nr.len() implies precedes(keys, #[trigger] nr[i], #[trigger] nr[j]) by {
        if i < pos {
            assert(nr[i] == r[i]);
            if j == pos {
                assert(keys[r[i] as int] <= keys[k as int]);
            } else if j < pos {
                assert(nr[j] == r[j]);
            } else {
                assert(nr[j] == r[j - 1]);
            }
        } else if i == pos {
            assert(nr[j] == r[j - 1]);
        } else {
            assert(nr[i] == r[i - 1]);
            assert(nr[j] == r[j - 1]);
        }
    }
    assert forall|p: int| 0 <= p < k + 1 implies #[trigger] nr.contains(p as usize) by {
        if p < k {
            assert(r.contains(p as usize));
            let w = choose|w: int| 0 <= w < r.len() && r[w] == p as usize;
            if w < pos {
                assert(nr[w] == r[w]);
            } else {
                assert(nr[w + 1] == r[w]);
            }
        } else {
            assert(nr[pos] == k);
        }
    }
}

/// Every sequence of keys has a stable order, so that [`sorted_order`] is one.
pub proof fn lemma_sorted_order(keys: Seq<u64>)
    requires
        keys.len() <= usize::MAX,
    ensures
        orders_by(keys, sorted_order(keys)),
{
    lemma_prefix_order_exists(keys, keys.len() as int);
    let o = choose|o: Seq<usize>| orders_prefix(keys, o, keys.len() as int);
    assert(orders_by(keys, o));
}

proof fn lemma_prefix_order_exists(keys: Seq<u64>, k: int)
    requires
        0 <= k <= keys.len() <= usize::MAX,
    ensures
        exists|o: Seq<usize>| orders_prefix(keys, o, k),
    decreases k,
{
    if k == 0 {
        assert(orders_prefix(keys, Seq::<usize>::empty(), 0));
    } else {
        let j = k - 1;
        lemma_prefix_order_exists(keys, j);
        let r = choose|o: Seq<usize>| orders_prefix(keys, o, j);
        let n = (k - 1) as usize;
        lemma_first_greater(keys, r, keys[n as int]);
        lemma_insert_next(keys, r, n, first_greater(keys, r, keys[n as int]));
    }
}

/// The positions of `keys`, stably sorted by key.
pub fn stable_order(keys: &Vec<u64>) -> (r: Vec<usize>)
    ensures
        orders_by(keys@, r@),
        r@ == sorted_order(keys@),
{
    let mut r: Vec<usize> = Vec::new();
    let mut k: usize = 0;
    while k < keys.len()
        invariant
            k <= keys.len(),
            orders_prefix(keys@, r@, k as int),
        decreases keys.len() - k,
    {
        let mut pos: usize = 0;
        while pos < r.len() && keys[r[pos]] <= keys[k]
            invariant
                k < keys.len(),
                pos <= r.len(),
                orders_prefix(keys@, r@, k as int),
                forall|q: int| 0 <= q < pos ==> keys@[#[trigger] r@[q] as int] <= keys@[k as int],
            decreases r.len() - pos,
        {
            pos = pos + 1;
        }
        proof {
            lemma_insert_next(keys@, r@, k, pos as int);
        }
        r.insert(pos, k);
        k = k + 1;
    }
    assert(orders_by(keys@, r@));
    proof {
        lemma_order_unique(keys@, r@, sorted_order(keys@));
    }
    r
}

/// How one solution fared: its language, its author, its size in bytes, and
/// the time it took in whole microseconds if it gave the right answers.
#[derive(Clone, Copy)]
pub struct Outcome {
    pub language: Language,
    pub user_id: u64,
    pub length: usize,
    pub micros: Option<u64>,
}

/// The solutions that gave the right answers, in their order.
pub open spec fn passed_outcomes(s: Seq<Outcome>) -> Seq<Outcome>
    decreases s.len(),
{
    if s.len() == 0 {
        seq![]
    } else if s.last().micros is Some {
        passed_outcomes(s.drop_last()).push(s.last())
    } else {
        passed_outcomes(s.drop_last())
    }
}

/// The authors of the solutions that failed, in their order.
pub open spec fn failed_users(s: Seq<Outcome>) -> Seq<u64>
    decreases s.len(),
{
    if s.len() == 0 {
        seq![]
    } else if s.last().micros is None {
        failed_users(s.drop_last()).push(s.last().user_id)
    } else {
        failed_users(s.drop_last())
    }
}

/// The authors of the given solutions, in their order.
pub open spec fn users_of(s: Seq<Outcome>) -> Seq<u64> {
    s.map_values(|o: Outcome| o.user_id)
}

/// The sizes of the given solutions, by which they are ranked for length.
pub open spec fn length_keys(s: Seq<Outcome>) -> Seq<u64> {
    s.map_values(|o: Outcome| o.length as u64)
}

/// The times of the given solutions, by which they are ranked for speed.
pub open spec fn time_keys(s: Seq<Outcome>) -> Seq<u64> {
    s.map_values(|o: Outcome| o.micros.unwrap())
}

/// The texts one after the other.
pub open spec fn concat(parts: Seq<Seq<char>>) -> Seq<char>
    decreases parts.len(),
{
    if parts.len() == 0 {
        seq![]
    } else {
        concat(parts.drop_last()) + parts.last()
    }
}

/// The line of the length ranking for the solution at a rank.
pub open spec fn length_line(rank: nat, o: Outcome) -> Seq<char> {
    emoji_of(o.language) + " "@ + decimal(rank) + ". "@ + decimal(o.length as nat) + " chars | "@
        + mention(o.user_id) + "\n"@
}

/// The line of the speed ranking for the solution at a rank.
pub open spec fn time_line(rank: nat, o: Outcome) -> Seq<char> {
    emoji_of(o.language) + " "@ + decimal(rank) + ". "@ + seconds_text(o.micros.unwrap() as nat)
        + "s | "@ + mention(o.user_id) + "\n"@
}

/// The line of the list of failed solutions for the author at a rank.
pub open spec fn failed_line(rank: nat, user_id: u64) -> Seq<char> {
    decimal(rank) + ". "@ + mention(user_id) + "\n"@
}

/// The ranking of the passed solutions by size, shortest first.
pub open spec fn length_report(p: Seq<Outcome>) -> Seq<char> {
    "# Challenge winners - Code length\n"@ + concat(
        Seq::new(
            p.len(),
            |k: int| length_line((k + 1) as nat, p[sorted_order(length_keys(p))[k] as int]),
        ),
    )
}

/// The ranking of the passed solutions by time, fastest first.
pub open spec fn fastest_report(p: Seq<Outcome>) -> Seq<char> {
    "# Challenge winners - Fastest\n"@ + concat(
        Seq::new(
            p.len(),
            |k: int| time_line((k + 1) as nat, p[sorted_order(time_keys(p))[k] as int]),
        ),
    )
}

/// The list of authors of failed solutions.
pub open spec fn failed_report(ids: Seq<u64>) -> Seq<char> {
    "# Failed solutions\n"@ + concat(Seq::new(ids.len(), |k: int| failed_line((k + 1) as nat, ids[k])))
}

/// The messages that announce the results of a test run: the two rankings
/// when some solution passed, and the list of failures when some failed.
pub open spec fn result_reports(outcomes: Seq<Outcome>) -> Seq<Seq<char>> {
    let p = passed_outcomes(outcomes);
    let f = failed_users(outcomes);
    (if p.len() > 0 {
        seq![length_report(p), fastest_report(p)]
    } else {
        Seq::<Seq<char>>::empty()
    }) + (if f.len() > 0 {
        seq![failed_report(f)]
    } else {
        Seq::<Seq<char>>::empty()
    })
}

/// The solutions that gave the right answers.
pub fn passed(outcomes: &Vec<Outcome>) -> (r: Vec<Outcome>)
    ensures
        r@ == passed_outcomes(outcomes@),
{
    let mut r: Vec<Outcome> = Vec::new();
    let mut i: usize = 0;
    while i < outcomes.len()
        invariant
            i <= outcomes.len(),
            r@ == passed_outcomes(outcomes@.take(i as int)),
        decreases outcomes.len() - i,
    {
        assert(outcomes@.take(i + 1).drop_last() =~= outcomes@.take(i as int));
        if outcomes[i].micros.is_some() {
            r.push(outcomes[i]);
        }
        i = i + 1;
    }
    assert(outcomes@.take(i as int) =~= outcomes@);
    r
}

/// The authors of the solutions that failed.
pub fn failed(outcomes: &Vec<Outcome>) -> (r: Vec<u64>)
    ensures
        r@ == failed_users(outcomes@),
{
    let mut r: Vec<u64> = Vec::new();
    let mut i: usize = 0;
    while i < outcomes.len()
        invariant
            i <= outcomes.len(),
            r@ == failed_users(outcomes@.take(i as int)),
        decreases outcomes.len() - i,
    {
        assert(outcomes@.take(i + 1).drop_last() =~= outcomes@.take(i as int));
        if outcomes[i].micros.is_none() {
            r.push(outcomes[i].user_id);
        }
        i = i + 1;
    }
    assert(outcomes@.take(i as int) =~= outcomes@);
    r
}

/// The authors of the given solutions.
pub fn users(s: &Vec<Outcome>) -> (r: Vec<u64>)
    ensures
        r@ == users_of(s@),
{
    let mut r: Vec<u64> = Vec::new();
    let mut i: usize = 0;
    while i < s.len()
        invariant
            i <= s.len(),
            r@ == users_of(s@.take(i as int)),
        decreases s.len() - i,
    {
        r.push(s[i].user_id);
        assert(users_of(s@.take(i + 1)) =~= users_of(s@.take(i as int)).push(s@[i as int].user_id));
        i = i + 1;
    }
    assert(s@.take(i as int) =~= s@);
    r
}

fn sizes(p: &Vec<Outcome>) -> (r: Vec<u64>)
    ensures
        r@ == length_keys(p@),
{
    let mut r: Vec<u64> = Vec::new();
    let mut i: usize = 0;
    while i < p.len()
        invariant
            i <= p.len(),
            r.len() == i,
            forall|j: int| 0 <= j < i ==> #[trigger] r@[j] == p@[j].length as u64,
        decreases p.len() - i,
    {
        r.push(p[i].length as u64);
        i = i + 1;
    }
    assert(r@ =~= length_keys(p@));
    r
}

fn times(p: &Vec<Outcome>) -> (r: Vec<u64>)
    requires
        forall|j: int| 0 <= j < p.len() ==> (#[trigger] p@[j]).micros is Some,
    ensures
        r@ == time_keys(p@),
{
    let mut r: Vec<u64> = Vec::new();
    let mut i: usize = 0;
    while i < p.len()
        invariant
            i <= p.len(),
            r.len() == i,
            forall|j: int| 0 <= j < p.len() ==> (#[trigger] p@[j]).micros is Some,
            forall|j: int| 0 <= j < i ==> #[trigger] r@[j] == p@[j].micros.unwrap(),
        decreases p.len() - i,
    {
        let t = match p[i].micros {
            Some(t) => t,
            None => 0,
        };
        r.push(t);
        i = i + 1;
    }
    assert(r@ =~= time_keys(p@));
    r
}

fn push_mention_line(s: &mut String, user_id: u64)
    ensures
        final(s)@ == old(s)@ + mention(user_id) + "\n"@,
{
    s.append("<@");
    push_decimal(s, user_id);
    s.append(">");
    s.append("\n");
    assert(s@ =~= old(s)@ + mention(user_id) + "\n"@);
}

fn push_length_line(s: &mut String, rank: u64, o: Outcome)
    ensures
        final(s)@ == old(s)@ + length_line(rank as nat, o),
{
    s.append(emoji(o.language));
    s.append(" ");
    push_decimal(s, rank);
    s.append(". ");
    push_decimal(s, o.length as u64);
    s.append(" chars | ");
    push_mention_line(s, o.user_id);
    assert(s@ =~= old(s)@ + length_line(rank as nat, o));
}

fn push_time_line(s: &mut String, rank: u64, o: Outcome, micros: u64)
    requires
        o.micros == Some(micros),
    ensures
        final(s)@ == old(s)@ + time_line(rank as nat, o),
{
    s.append(emoji(o.language));
    s.append(" ");
    push_decimal(s, rank);
    s.append(". ");
    push_seconds(s, micros);
    s.append("s | ");
    push_mention_line(s, o.user_id);
    assert(s@ =~= old(s)@ + time_line(rank as nat, o));
}

/// The ranking of passed solutions by size.
pub fn length_ranking(p: &Vec<Outcome>) -> (r: String)
    ensures
        r@ == length_report(p@),
{
    let keys = sizes(p);
    let order = stable_order(&keys);
    let ghost f = |k: int| length_line((k + 1) as nat, p@[sorted_order(length_keys(p@))[k] as int]);
    let mut s = String::from_str("# Challenge winners - Code length\n");
    let mut k: usize = 0;
    while k < order.len()
        invariant
            order.len() == p.len(),
            orders_by(keys@, order@),
            order@ == sorted_order(length_keys(p@)),
            keys@ == length_keys(p@),
            k <= order.len(),
            f == (|k: int| length_line((k + 1) as nat, p@[sorted_order(length_keys(p@))[k] as int])),
            s@ == "# Challenge winners - Code length\n"@ + concat(Seq::new(k as nat, f)),
        decreases order.len() - k,
    {
        let idx = order[k];
        push_length_line(&mut s, (k + 1) as u64, p[idx]);
        assert(Seq::new((k + 1) as nat, f).drop_last() =~= Seq::new(k as nat, f));
        k = k + 1;
    }
    s
}

/// The ranking of passed solutions by time.
pub fn speed_ranking(p: &Vec<Outcome>) -> (r: String)
    requires
        forall|j: int| 0 <= j < p.len() ==> (#[trigger] p@[j]).micros is Some,
    ensures
        r@ == fastest_report(p@),
{
    let keys = times(p);
    let order = stable_order(&keys);
    let ghost f = |k: int| time_line((k + 1) as nat, p@[sorted_order(time_keys(p@))[k] as int]);
    let mut s = String::from_str("# Challenge winners - Fastest\n");
    let mut k: usize = 0;
    while k < order.len()
        invariant
            order.len() == p.len(),
            orders_by(keys@, order@),
            order@ == sorted_order(time_keys(p@)),
            keys@ == time_keys(p@),
            forall|j: int| 0 <= j < p.len() ==> (#[trigger] p@[j]).micros is Some,
            k <= order.len(),
            f == (|k: int| time_line((k + 1) as nat, p@[sorted_order(time_keys(p@))[k] as int])),
            s@ == "# Challenge winners - Fastest\n"@ + concat(Seq::new(k as nat, f)),
        decreases order.len() - k,
    {
        let idx = order[k];
        let o = p[idx];
        let micros = match o.micros {
            Some(t) => t,
            None => 0,
        };
        push_time_line(&mut s, (k + 1) as u64, o, micros);
        assert(Seq::new((k + 1) as nat, f).drop_last() =~= Seq::new(k as nat, f));
        k = k + 1;
    }
    s
}

/// The list of authors of failed solutions.
pub fn failure_list(ids: &Vec<u64>) -> (r: String)
    ensures
        r@ == failed_report(ids@),
{
    let ghost f = |k: int| failed_line((k + 1) as nat, ids@[k]);
    let mut s = String::from_str("# Failed solutions\n");
    let mut k: usize = 0;
    while k < ids.len()
        invariant
            k <= ids.len(),
            f == (|k: int| failed_line((k + 1) as nat, ids@[k])),
            s@ == "# Failed solutions\n"@ + concat(Seq::new(k as nat, f)),
        decreases ids.len() - k,
    {
        let ghost before = s@;
        push_decimal(&mut s, (k + 1) as u64);
        s.append(". ");
        push_mention_line(&mut s, ids[k]);
        assert(s@ =~= before + failed_line((k + 1) as nat, ids@[k as int]));
        assert(Seq::new((k + 1) as nat, f).drop_last() =~= Seq::new(k as nat, f));
        k = k + 1;
    }
    s
}

proof fn lemma_passed_all_timed(s: Seq<Outcome>)
    ensures
        forall|j: int| 0 <= j < passed_outcomes(s).len() ==> (#[trigger] passed_outcomes(s)[j]).micros is Some,
    decreases s.len(),
{
    if s.len() > 0 {
        lemma_passed_all_timed(s.drop_last());
    }
}

/// The messages that announce the results of a test run.
pub fn reports(outcomes: &Vec<Outcome>) -> (r: Vec<String>)
    ensures
        texts(r@) == result_reports(outcomes@),
{
    let p = passed(outcomes);
    let f = failed(outcomes);
    proof {
        lemma_passed_all_timed(outcomes@);
    }
    let mut r: Vec<String> = Vec::new();
    if p.len() > 0 {
        r.push(length_ranking(&p));
        r.push(speed_ranking(&p));
    }
    if f.len() > 0 {
        r.push(failure_list(&f));
    }
    assert(texts(r@) =~= result_reports(outcomes@));
    r
}

} // verus!
