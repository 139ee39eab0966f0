//! Tags: the `+project` and `@context` words inside a task's content, and
//! the `key:value` pairs that a task carries beside it.

use vstd::prelude::*;
use crate::text::{
    chars_of, is_space, is_whitespace, lemma_lex_asymmetric, lemma_lex_irreflexive,
    lemma_lex_total, lemma_lex_transitive, lex_less, slice_of, str_less,
};

verus! {

/// The texts of a sequence of strings.
pub open spec fn texts(v: Seq<String>) -> Seq<Seq<char>> {
    Seq::new(v.len(), |i: int| v[i]@)
}

/// Each element comes before every later one: sorted, with nothing twice.
pub open spec fn strictly_ascending(v: Seq<Seq<char>>) -> bool {
    forall|i: int, j: int| 0 <= i < j < v.len() ==> lex_less(v[i], v[j])
}

/// Where the run of characters other than white space that starts at `i`
/// ends: at the first white space from `i` on, or at the end of `s`.
pub open spec fn run_end(s: Seq<char>, i: int) -> int
    decreases s.len() - i,
{
    if 0 <= i < s.len() && !is_space(s[i]) {
        run_end(s, i + 1)
    } else {
        i
    }
}

/// A tag starts at `p`: the sign stands there, at the start of `s` or behind
/// a space, and a character other than white space follows it.
pub open spec fn tag_at(s: Seq<char>, sign: char, p: int) -> bool {
    &&& 0 <= p
    &&& p + 1 < s.len()
    &&& s[p] == sign
    &&& (p == 0 || s[p - 1] == ' ')
    &&& !is_space(s[p + 1])
}

/// The word behind the sign at `p`, up to the next white space.
pub open spec fn tag_text(s: Seq<char>, p: int) -> Seq<char> {
    s.subrange(p + 1, run_end(s, p + 1))
}

/// `t` is the word of a tag that starts before `bound`.
pub open spec fn is_tag_before(s: Seq<char>, sign: char, t: Seq<char>, bound: int) -> bool {
    exists|p: int| 0 <= p < bound && tag_at(s, sign, p) && tag_text(s, p) == t
}

/// `tags` lists the words of all tags of `s` under `sign`, in ascending
/// order and each once.
pub open spec fn are_tags_of(tags: Seq<Seq<char>>, s: Seq<char>, sign: char) -> bool {
    &&& strictly_ascending(tags)
    &&& forall|t: Seq<char>| #[trigger] tags.contains(t) <==> is_tag_before(s, sign, t, s.len() as int)
}

/// Two ascending lists without repetition that hold the same words are the
/// same list.
pub proof fn lemma_ascending_unique(a: Seq<Seq<char>>, b: Seq<Seq<char>>)
    requires
        strictly_ascending(a),
        strictly_ascending(b),
        forall|t: Seq<char>| a.contains(t) <==> b.contains(t),
    ensures
        a == b,
    decreases a.len(),
{
    if a.len() == 0 {
        if b.len() > 0 {
            assert(b.contains(b[0]));
        }
        assert(a =~= b);
    } else if b.len() == 0 {
        assert(a.contains(a[0]));
    } else {
        // the least word of each list is the least word of the other
        assert(a.contains(a[0]));
        assert(b.contains(b[0]));
        let i = choose|i: int| 0 <= i < b.len() && b[i] == a[0];
        let j = choose|j: int| 0 <= j < a.len() && a[j] == b[0];
        if i > 0 {
            lemma_lex_asymmetric(b[0], b[i]);
            if j > 0 {
                assert(lex_less(a[0], a[j]));
            }
        }
        assert(a[0] == b[0]);
        let a1 = a.skip(1);
        let b1 = b.skip(1);
        assert forall|t: Seq<char>| a1.contains(t) <==> b1.contains(t) by {
            if a1.contains(t) {
                let k = choose|k: int| 0 <= k < a1.len() && a1[k] == t;
                assert(a[k + 1] == t);
                assert(lex_less(a[0], a[k + 1]));
                assert(a.contains(t));
                let m = choose|m: int| 0 <= m < b.len() && b[m] == t;
                lemma_lex_irreflexive(t);
                assert(m > 0);
                assert(b1[m - 1] == t);
            }
            if b1.contains(t) {
                let k = choose|k: int| 0 <= k < b1.len() && b1[k] == t;
                assert(b[k + 1] == t);
                assert(lex_less(b[0], b[k + 1]));
                assert(b.contains(t));
                let m = choose|m: int| 0 <= m < a.len() && a[m] == t;
                lemma_lex_irreflexive(t);
                assert(m > 0);
                assert(a1[m - 1] == t);
            }
        }
        assert forall|x: int, y: int| 0 <= x < y < a1.len() implies lex_less(a1[x], a1[y]) by {
            assert(lex_less(a[x + 1], a[y + 1]));
        }
        assert forall|x: int, y: int| 0 <= x < y < b1.len() implies lex_less(b1[x], b1[y]) by {
            assert(lex_less(b[x + 1], b[y + 1]));
        }
        lemma_ascending_unique(a1, b1);
        assert(a =~= seq![a[0]] + a1);
        assert(b =~= seq![b[0]] + b1);
    }
}

/// The end of the word that starts at `start`.
pub fn end_of_run(s: &Vec<char>, start: usize) -> (r: usize)
    requires
        start <= s@.len(),
    ensures
        r == run_end(s@, start as int),
        start <= r <= s@.len(),
{
    let n = s.len();
    let mut i: usize = start;
    while i < n && !is_whitespace(s[i])
        invariant
            start <= i <= n,
            n == s@.len(),
            run_end(s@, start as int) == run_end(s@, i as int),
        decreases n - i,
    {
        i += 1;
    }
    i
}

/// Puts `tag` at its place in an ascending list, unless the list has it.
pub fn insert_tag(tags: &mut Vec<String>, tag: String)
    requires
        strictly_ascending(texts(old(tags)@)),
    ensures
        strictly_ascending(texts(final(tags)@)),
        forall|t: Seq<char>|
            texts(final(tags)@).contains(t) <==> (texts(old(tags)@).contains(t) || t == tag@),
{
    let ghost before = texts(tags@);
    let ghost word = tag@;
    let mut i: usize = 0;
    while i < tags.len() && str_less(tags[i].as_str(), tag.as_str())
        invariant
            i <= tags.len(),
            texts(tags@) == before,
            tag@ == word,
            forall|j: int| 0 <= j < i ==> lex_less(#[trigger] before[j], word),
        decreases tags.len() - i,
    {
        assert(before[i as int] == tags@[i as int]@);
        i += 1;
    }
    if i < tags.len() && tags[i] == tag {
        proof {
            assert(before[i as int] == word);
            assert(before.contains(word));
        }
        return ;
    }
    tags.insert(i, tag);
    proof {
        let after = texts(tags@);
        assert(after =~= before.insert(i as int, word));
        assert forall|j: int| i <= j < before.len() implies lex_less(word, #[trigger] before[j]) by {
            assert(before[i as int] != word);
            lemma_lex_total(before[i as int], word);
            if j > i {
                lemma_lex_transitive(word, before[i as int], before[j]);
            }
        }
        assert forall|x: int, y: int| 0 <= x < y < after.len() implies lex_less(
            after[x],
            after[y],
        ) by {
            if y < i {
                assert(lex_less(before[x], before[y]));
            } else if y == i {
                assert(lex_less(before[x], word));
            } else if x < i {
                assert(lex_less(before[x], before[y - 1]));
            } else if x == i {
                assert(lex_less(word, before[y - 1]));
            } else {
                assert(lex_less(before[x - 1], before[y - 1]));
            }
        }
        assert forall|t: Seq<char>| after.contains(t) <==> (before.contains(t) || t == word) by {
            if after.contains(t) {
                let k = choose|k: int| 0 <= k < after.len() && after[k] == t;
                if k < i {
                    assert(before[k] == t);
                } else if k > i {
                    assert(before[k - 1] == t);
                }
            }
            if before.contains(t) {
                let k = choose|k: int| 0 <= k < before.len() && before[k] == t;
                if k < i {
                    assert(after[k] == t);
                } else {
                    assert(after[k + 1] == t);
                }
            }
            if t == word {
                assert(after[i as int] == t);
            }
        }
    }
}

/// The words of the tags of `content` under `sign`, ascending, each once.
pub fn extract_tags(content: &str, sign: char) -> (r: Vec<String>)
    ensures
        are_tags_of(texts(r@), content@, sign),
{
    let chars = chars_of(content);
    let n = chars.len();
    let mut tags: Vec<String> = Vec::new();
    let mut p: usize = 0;
    assert(texts(tags@) =~= Seq::empty());
    while p < n
        invariant
            p <= n,
            n == chars@.len(),
            chars@ == content@,
            strictly_ascending(texts(tags@)),
            forall|t: Seq<char>| #[trigger]
                texts(tags@).contains(t) <==> is_tag_before(content@, sign, t, p as int),
        decreases n - p,
    {
        let ghost before = texts(tags@);
        if chars[p] == sign && (p == 0 || chars[p - 1] == ' ') && p + 1 < n && !is_whitespace(
            chars[p + 1],
        ) {
            let e = end_of_run(&chars, p + 1);
            let tag = slice_of(content, p + 1, e);
            insert_tag(&mut tags, tag);
            proof {
                assert(tag_at(content@, sign, p as int));
                assert forall|t: Seq<char>| #[trigger]
                    texts(tags@).contains(t) <==> is_tag_before(content@, sign, t, p + 1) by {
                    assert(before.contains(t) <==> is_tag_before(content@, sign, t, p as int));
                    if t == tag_text(content@, p as int) {
                        assert(is_tag_before(content@, sign, t, p + 1));
                    }
                }
            }
        } else {
            proof {
                assert(!tag_at(content@, sign, p as int));
                assert forall|t: Seq<char>| #[trigger]
                    texts(tags@).contains(t) <==> is_tag_before(content@, sign, t, p + 1) by {
                    assert(before.contains(t) <==> is_tag_before(content@, sign, t, p as int));
                }
            }
        }
        p += 1;
    }
    tags
}

/// The views of a list of key and value pairs.
pub open spec fn pairs(v: Seq<(String, String)>) -> Seq<(Seq<char>, Seq<char>)> {
    Seq::new(v.len(), |i: int| (v[i].0@, v[i].1@))
}

/// No key stands twice in the list.
pub open spec fn keys_unique(tags: Seq<(Seq<char>, Seq<char>)>) -> bool {
    forall|i: int, j: int| 0 <= i < j < tags.len() ==> tags[i].0 != tags[j].0
}

/// `i` is the first place in the list that holds `key`.
pub open spec fn is_key_pos(tags: Seq<(Seq<char>, Seq<char>)>, key: Seq<char>, i: int) -> bool {
    &&& 0 <= i < tags.len()
    &&& tags[i].0 == key
    &&& forall|j: int| 0 <= j < i ==> tags[j].0 != key
}

/// The list holds a pair under `key`.
pub open spec fn has_key(tags: Seq<(Seq<char>, Seq<char>)>, key: Seq<char>) -> bool {
    exists|i: int| is_key_pos(tags, key, i)
}

/// The first place in the list that holds `key`.
pub open spec fn key_pos(tags: Seq<(Seq<char>, Seq<char>)>, key: Seq<char>) -> int {
    choose|i: int| is_key_pos(tags, key, i)
}

/// The list with `value` under `key`: in the place where `key` stood, or
/// else at the end.
pub open spec fn upsert(tags: Seq<(Seq<char>, Seq<char>)>, key: Seq<char>, value: Seq<char>) -> Seq<
    (Seq<char>, Seq<char>),
> {
    if has_key(tags, key) {
        tags.update(key_pos(tags, key), (key, value))
    } else {
        tags.push((key, value))
    }
}

/// The list without the first pair under `key`.
pub open spec fn without_key(tags: Seq<(Seq<char>, Seq<char>)>, key: Seq<char>) -> Seq<
    (Seq<char>, Seq<char>),
> {
    if has_key(tags, key) {
        tags.remove(key_pos(tags, key))
    } else {
        tags
    }
}

/// The first place that holds `key`, or the list's length.
pub fn find_key(tags: &Vec<(String, String)>, key: &String) -> (r: usize)
    ensures
        r <= tags@.len(),
        r < tags@.len() ==> is_key_pos(pairs(tags@), key@, r as int) && key_pos(pairs(tags@), key@)
            == r,
        has_key(pairs(tags@), key@) == (r < tags@.len()),
{
    let mut i: usize = 0;
    while i < tags.len()
        invariant
            i <= tags.len(),
            forall|j: int| 0 <= j < i ==> pairs(tags@)[j].0 != key@,
        decreases tags.len() - i,
    {
        if tags[i].0 == *key {
            proof {
                assert(is_key_pos(pairs(tags@), key@, i as int));
                let c = key_pos(pairs(tags@), key@);
                assert(is_key_pos(pairs(tags@), key@, c));
            }
            return i;
        }
        i += 1;
    }
    proof {
        assert forall|k: int| !is_key_pos(pairs(tags@), key@, k) by {}
    }
    i
}

/// Sets the value under `key`, keeping the key's place if it has one.
pub fn put_tag(tags: &mut Vec<(String, String)>, key: String, value: String)
    ensures
        pairs(final(tags)@) == upsert(pairs(old(tags)@), key@, value@),
        keys_unique(pairs(old(tags)@)) ==> keys_unique(pairs(final(tags)@)),
{
    let ghost before = pairs(tags@);
    let i = find_key(tags, &key);
    if i < tags.len() {
        tags.set(i, (key, value));
        proof {
            assert(pairs(tags@) =~= before.update(i as int, (key@, value@)));
        }
    } else {
        tags.push((key, value));
        proof {
            assert(pairs(tags@) =~= before.push((key@, value@)));
            if keys_unique(before) {
                assert forall|x: int, y: int| 0 <= x < y < pairs(tags@).len() implies pairs(
                    tags@,
                )[x].0 != pairs(tags@)[y].0 by {
                    if y == before.len() {
                        if before[x].0 == key@ {
                            lemma_has_key(before, key@, x);
                        }
                    }
                }
            }
        }
    }
}

/// A list that holds `key` somewhere has a first place that holds it.
pub proof fn lemma_has_key(tags: Seq<(Seq<char>, Seq<char>)>, key: Seq<char>, at: int)
    requires
        0 <= at < tags.len(),
        tags[at].0 == key,
    ensures
        has_key(tags, key),
    decreases at,
{
    if exists|j: int| 0 <= j < at && tags[j].0 == key {
        let j = choose|j: int| 0 <= j < at && tags[j].0 == key;
        lemma_has_key(tags, key, j);
    } else {
        assert(is_key_pos(tags, key, at));
    }
}

/// Takes the pair under `key` out of the list, if there is one.
pub fn drop_tag(tags: &mut Vec<(String, String)>, key: &String)
    ensures
        pairs(final(tags)@) == without_key(pairs(old(tags)@), key@),
        keys_unique(pairs(old(tags)@)) ==> keys_unique(pairs(final(tags)@)),
{
    let ghost before = pairs(tags@);
    let i = find_key(tags, key);
    if i < tags.len() {
        let _gone = tags.remove(i);
        proof {
            assert(pairs(tags@) =~= before.remove(i as int));
        }
    }
}

} // verus!
