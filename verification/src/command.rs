use vstd::prelude::*;
use crate::text::{chars_of, find_char, first_index_of, lemma_first_index_of, string_of_range, trim, trimmed};

verus! {

/// The first word of a command: the trimmed text up to its first space.
pub open spec fn command_word(content: Seq<char>) -> Seq<char> {
    let t = trimmed(content);
    t.take(first_index_of(t, ' '))
}

/// The word after the first space of the trimmed text, up to the next space,
/// if the text has a space.
pub open spec fn command_argument(content: Seq<char>) -> Option<Seq<char>> {
    let t = trimmed(content);
    let i = first_index_of(t, ' ');
    if i < t.len() {
        let rest = t.skip(i + 1);
        Some(rest.take(first_index_of(rest, ' ')))
    } else {
        None
    }
}

/// The first two words of a command, split at single spaces the way
/// `str::split(' ')` of std splits the trimmed text.
pub fn command_words(content: &str) -> (r: (String, Option<String>))
    ensures
        r.0@ == command_word(content@),
        r.1 is Some == command_argument(content@) is Some,
        r.1 is Some ==> r.1.unwrap()@ == command_argument(content@).unwrap(),
{
    let t = trim(content);
    let v = chars_of(t.as_str());
    let i = find_char(&v, 0, ' ');
    proof {
        assert(v@.skip(0) =~= v@);
        lemma_first_index_of(v@, ' ');
    }
    assert(v@.subrange(0, i as int) =~= v@.take(i as int));
    let word = string_of_range(&v, 0, i);
    if i < v.len() {
        let j = find_char(&v, i + 1, ' ');
        let ghost rest = v@.skip(i + 1);
        assert(v@.subrange(i + 1, j as int) =~= rest.take(j - (i + 1)));
        let arg = string_of_range(&v, i + 1, j);
        (word, Some(arg))
    } else {
        (word, None)
    }
}

} // verus!
