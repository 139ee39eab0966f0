//! The grammar of a task line: an optional mark of a done task, an optional
//! priority, up to two dates, the content, and a block of `key:value` pairs
//! at the end.

use vstd::prelude::*;
use crate::date::{date_at, date_shape_at, has_date_shape, Date};
use crate::tags::{keys_unique, pairs, put_tag, upsert};
use crate::text::{code, is_space, is_whitespace, slice_of};

verus! {

/// The line starts with `x` and a space.
pub open spec fn has_done_mark(s: Seq<char>) -> bool {
    s.len() >= 2 && s[0] == 'x' && s[1] == ' '
}

/// Where the line goes on behind the mark of a done task.
pub open spec fn after_mark(s: Seq<char>) -> int {
    if has_done_mark(s) {
        2
    } else {
        0
    }
}

/// The priority written at `at`: a capital letter in round brackets, and a
/// space.
pub open spec fn priority_at(s: Seq<char>, at: int) -> Option<char> {
    if 0 <= at && at + 4 <= s.len() && s[at] == '(' && 65 <= code(s[at + 1]) <= 90 && s[at + 2]
        == ')' && s[at + 3] == ' ' {
        Some(s[at + 1])
    } else {
        None
    }
}

/// Where the line goes on behind the mark and the priority.
pub open spec fn after_priority(s: Seq<char>) -> int {
    if priority_at(s, after_mark(s)) is Some {
        after_mark(s) + 4
    } else {
        after_mark(s)
    }
}

/// A date token stands at `at`: the shape `dddd-dd-dd` and a space.
pub open spec fn date_token_at(s: Seq<char>, at: int) -> bool {
    has_date_shape(s, at) && at + 10 < s.len() && s[at + 10] == ' '
}

/// How many date tokens follow the mark and the priority: none, one or two.
pub open spec fn date_count(s: Seq<char>) -> int {
    if !date_token_at(s, after_priority(s)) {
        0
    } else if !date_token_at(s, after_priority(s) + 11) {
        1
    } else {
        2
    }
}

/// Where the body starts: the content with the pairs behind it.
pub open spec fn body_start(s: Seq<char>) -> int {
    after_priority(s) + 11 * date_count(s)
}

/// The body of the line: what follows the mark, the priority and the dates.
pub open spec fn body(s: Seq<char>) -> Seq<char> {
    s.subrange(body_start(s), s.len() as int)
}

/// The line is a task: it holds no line feed, and each of its date tokens
/// names a day of the calendar.
pub open spec fn matches_grammar(s: Seq<char>) -> bool {
    &&& !s.contains('\n')
    &&& date_count(s) >= 1 ==> date_at(s, after_priority(s)) is Some
    &&& date_count(s) == 2 ==> date_at(s, after_priority(s) + 11) is Some
}

/// The completion date of the line: the first of two dates.
pub open spec fn completion_date_of(s: Seq<char>) -> Option<Date> {
    if date_count(s) == 2 {
        date_at(s, after_priority(s))
    } else {
        None
    }
}

/// The creation date of the line: the second of two dates, or the only one.
pub open spec fn creation_date_of(s: Seq<char>) -> Option<Date> {
    if date_count(s) == 2 {
        date_at(s, after_priority(s) + 11)
    } else if date_count(s) == 1 {
        date_at(s, after_priority(s))
    } else {
        None
    }
}

/// Where the word that ends at `end` starts: behind the last white space
/// before `end`, or at the start of `s`.
pub open spec fn word_start(s: Seq<char>, end: int) -> int
    decreases end,
{
    if 0 < end <= s.len() && !is_space(s[end - 1]) {
        word_start(s, end - 1)
    } else {
        end
    }
}

/// The colon at `c` parts the word from `from` to `to` into a key and a
/// value, neither empty nor with a colon inside.
pub open spec fn colon_split(s: Seq<char>, from: int, to: int, c: int) -> bool {
    &&& from < c
    &&& c + 1 < to
    &&& s[c] == ':'
    &&& forall|j: int| from <= j < to && j != c ==> s[j] != ':'
}

/// The word from `from` to `to` is a key, a colon and a value.
pub open spec fn is_pair_word(s: Seq<char>, from: int, to: int) -> bool {
    exists|c: int| colon_split(s, from, to, c)
}

/// The place of the colon in a word that is a pair.
pub open spec fn colon_of(s: Seq<char>, from: int, to: int) -> int {
    choose|c: int| colon_split(s, from, to, c)
}

/// Where the block of pairs that ends at `end` starts. The block grows to
/// the left word by word, as long as the word before it is a pair behind
/// one space; without such a word it is empty and starts at `end`.
pub open spec fn block_start(s: Seq<char>, end: int) -> int
    decreases end,
{
    let w = word_start(s, end);
    if 0 < w <= end && s[w - 1] == ' ' && is_pair_word(s, w, end) {
        block_start(s, w - 1)
    } else {
        end
    }
}

/// The pairs of the block that ends at `end`, from left to right; a key
/// that comes again keeps its place and takes the later value.
pub open spec fn block_pairs(s: Seq<char>, end: int) -> Seq<(Seq<char>, Seq<char>)>
    decreases end,
{
    let w = word_start(s, end);
    if 0 < w <= end && s[w - 1] == ' ' && is_pair_word(s, w, end) {
        let c = colon_of(s, w, end);
        upsert(block_pairs(s, w - 1), s.subrange(w, c), s.subrange(c + 1, end))
    } else {
        Seq::empty()
    }
}

/// Whether the line holds a line feed.
pub fn has_line_feed(s: &Vec<char>) -> (r: bool)
    ensures
        r == s@.contains('\n'),
{
    let mut i: usize = 0;
    while i < s.len()
        invariant
            i <= s.len(),
            forall|j: int| 0 <= j < i ==> s@[j] != '\n',
        decreases s.len() - i,
    {
        if s[i] == '\n' {
            return true;
        }
        i += 1;
    }
    false
}

/// The length of the mark of a done task at the start of the line.
pub fn read_mark(s: &Vec<char>) -> (r: usize)
    ensures
        r == after_mark(s@),
{
    if s.len() >= 2 && s[0] == 'x' && s[1] == ' ' {
        2
    } else {
        0
    }
}

/// The priority written at `at`.
pub fn read_priority(s: &Vec<char>, at: usize) -> (r: Option<char>)
    ensures
        r == priority_at(s@, at as int),
{
    if s.len() < 4 || at > s.len() - 4 {
        return None;
    }
    let n: u32 = s[at + 1] as u32;
    if s[at] == '(' && 65 <= n && n <= 90 && s[at + 2] == ')' && s[at + 3] == ' ' {
        Some(s[at + 1])
    } else {
        None
    }
}

/// Whether a date token stands at `at`.
pub fn is_date_token(s: &Vec<char>, at: usize) -> (r: bool)
    ensures
        r == date_token_at(s@, at as int),
{
    if s.len() < 11 || at > s.len() - 11 {
        return false;
    }
    date_shape_at(s, at) && s[at + 10] == ' '
}

/// The start of the word that ends at `end`.
pub fn start_of_word(s: &Vec<char>, end: usize) -> (r: usize)
    requires
        end <= s@.len(),
    ensures
        r == word_start(s@, end as int),
        r <= end,
{
    let mut i: usize = end;
    while i > 0 && !is_whitespace(s[i - 1])
        invariant
            i <= end <= s@.len(),
            word_start(s@, end as int) == word_start(s@, i as int),
        decreases i,
    {
        i -= 1;
    }
    i
}

/// The colon that parts the word from `from` to `to` into key and value.
pub fn find_colon(s: &Vec<char>, from: usize, to: usize) -> (r: Option<usize>)
    requires
        from <= to <= s@.len(),
    ensures
        r is Some == is_pair_word(s@, from as int, to as int),
        r matches Some(c) ==> colon_split(s@, from as int, to as int, c as int) && c == colon_of(
            s@,
            from as int,
            to as int,
        ),
{
    let mut c: usize = from;
    while c < to && s[c] != ':'
        invariant
            from <= c <= to <= s@.len(),
            forall|j: int| from <= j < c ==> s@[j] != ':',
        decreases to - c,
    {
        c += 1;
    }
    if c == from || c >= to || c + 1 >= to {
        proof {
            assert forall|k: int| !colon_split(s@, from as int, to as int, k) by {
                if colon_split(s@, from as int, to as int, k) {
                    if c < to && k != c {
                        assert(s@[c as int] != ':');
                    }
                }
            }
        }
        return None;
    }
    let mut j: usize = c + 1;
    while j < to
        invariant
            from < c < j <= to <= s@.len(),
            s@[c as int] == ':',
            forall|k: int| from <= k < j && k != c ==> s@[k] != ':',
        decreases to - j,
    {
        if s[j] == ':' {
            proof {
                assert forall|k: int| !colon_split(s@, from as int, to as int, k) by {
                    if colon_split(s@, from as int, to as int, k) {
                        if k != c {
                            assert(s@[c as int] != ':');
                        } else {
                            assert(s@[j as int] != ':');
                        }
                    }
                }
            }
            return None;
        }
        j += 1;
    }
    proof {
        assert(colon_split(s@, from as int, to as int, c as int));
        let k = colon_of(s@, from as int, to as int);
        assert(colon_split(s@, from as int, to as int, k));
        if k != c {
            assert(s@[c as int] != ':');
        }
    }
    Some(c)
}

/// Reads the block of pairs that ends at `end` into `tags` and returns
/// where it starts.
pub fn read_block(chars: &Vec<char>, text: &str, end: usize, tags: &mut Vec<(String, String)>) -> (r:
    usize)
    requires
        chars@ == text@,
        end <= chars@.len(),
        old(tags)@.len() == 0,
    ensures
        r == block_start(chars@, end as int),
        r <= end,
        pairs(final(tags)@) == block_pairs(chars@, end as int),
        keys_unique(pairs(final(tags)@)),
    decreases end,
{
    let w = start_of_word(chars, end);
    if w > 0 && chars[w - 1] == ' ' {
        if let Some(c) = find_colon(chars, w, end) {
            let start = read_block(chars, text, w - 1, tags);
            put_tag(tags, slice_of(text, w, c), slice_of(text, c + 1, end));
            return start;
        }
    }
    proof {
        assert(pairs(tags@) =~= Seq::empty());
    }
    end
}

} // verus!
