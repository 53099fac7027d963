use vstd::prelude::*;
use vstd::string::*;
use vstd::utf8::encode_utf8;
use crate::text::{
    chars_of, decimal, find_char, find_last_char, first_index_of, last_index_of, push_decimal,
    range_equals, string_of_range, texts, trim, trimmed,
};

verus! {

/// Whether a file name holds a `.`.
pub open spec fn has_dot(name: Seq<char>) -> bool {
    first_index_of(name, '.') < name.len()
}

/// The part of a file name before its first `.`.
pub open spec fn stem(name: Seq<char>) -> Seq<char> {
    name.take(first_index_of(name, '.'))
}

/// The part of a file name after its first `.`.
pub open spec fn after_first_dot(name: Seq<char>) -> Seq<char> {
    name.skip(first_index_of(name, '.') + 1)
}

/// Whether a file name is that of a solution saved under `key`: it holds a
/// `.`, and `key` is what comes before the first one.
pub open spec fn saved_under(name: Seq<char>, key: Seq<char>) -> bool {
    has_dot(name) && stem(name) == key
}

/// Whether a scan of `names` for one saved under `key`, in order, meets no
/// name without a `.` before it finds a match.
pub open spec fn scan_is_safe(names: Seq<Seq<char>>, key: Seq<char>) -> bool {
    forall|i: int|
        #![trigger names[i]]
        0 <= i < names.len() && !has_dot(names[i]) ==> exists|j: int|
            0 <= j < i && #[trigger] saved_under(names[j], key)
}

/// The name under which the solution of a user is kept: the user's id in
/// decimal, a `.`, and the extension.
pub open spec fn saved_name(user_id: u64, ext: Seq<char>) -> Seq<char> {
    decimal(user_id as nat) + "."@ + ext
}

/// The path of a file in the solution directory.
pub open spec fn solution_path(name: Seq<char>) -> Seq<char> {
    "./sub/"@ + name
}

/// The extension of an attachment's file name: what follows its last `.`
/// (the whole name when it has none), without surrounding whitespace.
pub open spec fn extension_of(filename: Seq<char>) -> Seq<char> {
    trimmed(filename.skip(last_index_of(filename, '.') + 1))
}

/// Size in bytes of a text in UTF-8, as `str::len` reports it.
pub open spec fn byte_length(s: Seq<char>) -> nat {
    (encode_utf8(s).len() as usize) as nat
}

/// The text of the hidden announcement of a solution: its code in a block
/// marked with the extension.
pub open spec fn announcement_text(ext: Seq<char>, contents: Seq<char>) -> Seq<char> {
    "```"@ + ext + "\n"@ + contents + "\n```"@
}

/// The footer of the hidden announcement: language and size of the solution.
pub open spec fn announcement_footer(ext: Seq<char>, contents: Seq<char>) -> Seq<char> {
    "Lang: "@ + ext + ", Length: "@ + decimal(byte_length(contents)) + " chars"@
}

/// How a user is mentioned in a message.
pub open spec fn mention(user_id: u64) -> Seq<char> {
    "<@"@ + decimal(user_id as nat) + ">"@
}

/// The first position in `names` of a solution saved under `key`, scanning
/// in order the way the directory listing is read; the scan must not meet a
/// name without a `.` before it finds one.
pub fn find_saved(names: &Vec<String>, key: &Vec<char>) -> (r: Option<usize>)
    requires
        scan_is_safe(texts(names@), key@),
    ensures
        match r {
            Some(k) => k < names.len() && saved_under(names@[k as int]@, key@) && forall|j: int|
                0 <= j < k ==> !saved_under(#[trigger] names@[j]@, key@),
            None => forall|j: int| 0 <= j < names.len() ==> !saved_under(#[trigger] names@[j]@, key@),
        },
{
    let mut i: usize = 0;
    while i < names.len()
        invariant
            i <= names.len(),
            forall|j: int| 0 <= j < i ==> !saved_under(#[trigger] names@[j]@, key@),
        decreases names.len() - i,
    {
        let v = chars_of(names[i].as_str());
        let d = find_char(&v, 0, '.');
        assert(v@.skip(0) =~= v@);
        if d < v.len() && range_equals(&v, 0, d, key) {
            assert(v@.subrange(0, d as int) =~= v@.take(d as int));
            return Some(i);
        }
        assert(v@.subrange(0, d as int) =~= v@.take(d as int));
        i = i + 1;
    }
    None
}

/// The name in the solution directory of a user's solution.
pub fn saved_file_name(user_id: u64, ext: &str) -> (r: String)
    ensures
        r@ == saved_name(user_id, ext@),
{
    let mut s = String::new();
    push_decimal(&mut s, user_id);
    s.append(".");
    s.append(ext);
    assert(s@ =~= saved_name(user_id, ext@));
    s
}

/// The path in the solution directory of a file.
pub fn path_of(name: &str) -> (r: String)
    ensures
        r@ == solution_path(name@),
{
    let mut s = String::from_str("./sub/");
    s.append(name);
    s
}

/// The extension of an attachment's file name, as the bot reads it.
pub fn attachment_extension(filename: &str) -> (r: String)
    ensures
        r@ == extension_of(filename@),
{
    let v = chars_of(filename);
    proof {
        crate::text::lemma_last_index_of(v@, '.');
    }
    let start: usize = match find_last_char(&v, '.') {
        Some(k) => k + 1,
        None => 0,
    };
    let tail = string_of_range(&v, start, v.len());
    assert(tail@ =~= filename@.skip(last_index_of(filename@, '.') + 1));
    trim(tail.as_str())
}

/// The code block of the hidden announcement of a solution.
pub fn announcement(ext: &str, contents: &str) -> (r: String)
    ensures
        r@ == announcement_text(ext@, contents@),
{
    let mut s = String::from_str("```");
    s.append(ext);
    s.append("\n");
    s.append(contents);
    s.append("\n```");
    s
}

/// The footer of the hidden announcement of a solution.
pub fn footer(ext: &str, contents: &str) -> (r: String)
    ensures
        r@ == announcement_footer(ext@, contents@),
{
    let n = contents.len();
    let mut s = String::from_str("Lang: ");
    s.append(ext);
    s.append(", Length: ");
    push_decimal(&mut s, n as u64);
    s.append(" chars");
    s
}

/// The mention of a user followed by a text.
pub fn mention_then(user_id: u64, rest: &str) -> (r: String)
    ensures
        r@ == mention(user_id) + rest@,
{
    let mut s = String::from_str("<@");
    push_decimal(&mut s, user_id);
    s.append(">");
    s.append(rest);
    assert(s@ =~= mention(user_id) + rest@);
    s
}


/// Whether a scan of `names` for one saved under `key` meets no name without
/// a `.` before it finds a match (see [`scan_is_safe`]).
pub fn scan_safe(names: &Vec<String>, key: &Vec<char>) -> (r: bool)
    ensures
        r == scan_is_safe(texts(names@), key@),
{
    let ghost ns = texts(names@);
    let mut i: usize = 0;
    while i < names.len()
        invariant
            i <= names.len(),
            ns == texts(names@),
            forall|j: int| 0 <= j < i ==> has_dot(#[trigger] ns[j]) && !saved_under(ns[j], key@),
        decreases names.len() - i,
    {
        let v = chars_of(names[i].as_str());
        let d = find_char(&v, 0, '.');
        assert(v@.skip(0) =~= v@);
        assert(v@.subrange(0, d as int) =~= v@.take(d as int));
        assert(ns[i as int] == v@);
        if d == v.len() {
            assert(!scan_is_safe(ns, key@)) by {
                assert(!has_dot(ns[i as int]));
            }
            return false;
        }
        if range_equals(&v, 0, d, key) {
            assert(scan_is_safe(ns, key@)) by {
                assert forall|m: int| 0 <= m < ns.len() && !has_dot(#[trigger] ns[m]) implies exists|j: int|
                    0 <= j < m && #[trigger] saved_under(ns[j], key@) by {
                    assert(m > i);
                    assert(saved_under(ns[i as int], key@));
                }
            }
            return true;
        }
        i = i + 1;
    }
    true
}

} // verus!
