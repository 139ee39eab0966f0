//! What holds of tasks across the operations that change them.

use vstd::prelude::*;
use crate::date::{
    date_at, digit_char, has_date_shape, shape_day, shape_month, shape_year, ymd_text,
    Date,
};
use crate::tags::lemma_ascending_unique;
use crate::line::{
    after_mark, after_priority, block_pairs, block_start, body, colon_of,
    colon_split, completion_date_of, creation_date_of, date_count, date_token_at, has_done_mark,
    is_pair_word, matches_grammar, priority_at, word_start,
};
use crate::render::{date_text, mark_text, pairs_text, priority_text};
use crate::tags::{has_key, is_key_pos, key_pos, keys_unique, lemma_has_key, upsert};
use crate::task::{due_key, due_of, TaskView};
use crate::text::{code, digit_value, is_digit, is_space};

verus! {

impl TaskView {
    /// A task with a completion date has a creation date.
    pub open spec fn dated_in_order(self) -> bool {
        self.completion_date is Some ==> self.creation_date is Some
    }
}

/// No operation on a task leaves it with a completion date and without a
/// creation date: the empty task and a new task have none or both in order,
/// and a change of the content, of the due date or of the completion keeps
/// them so.
pub proof fn lemma_completion_date_has_creation_date(
    before: TaskView,
    after: TaskView,
    content: Seq<char>,
    day: Date,
    due: Option<Date>,
)
    requires
        before.dated_in_order(),
    ensures
        TaskView::empty().dated_in_order(),
        after.is_new(content, day) ==> after.dated_in_order(),
        after.is_with_content(before, content) ==> after.dated_in_order(),
        before.with_due(due).dated_in_order(),
        before.completed_on(day).dated_in_order(),
        before.not_completed().dated_in_order(),
{
}

/// Marking a task without a creation date as done gives it the day of
/// completion as its creation date.
pub proof fn lemma_completed_without_creation_date(before: TaskView, day: Date)
    requires
        before.creation_date is None,
    ensures
        before.completed_on(day).creation_date == before.completed_on(day).completion_date,
        before.completed_on(day).completion_date == Some(day),
{
}

/// The tags depend on the content alone: two tasks with the same content,
/// each with the tags of its content, have the same tags, whatever they
/// held before.
pub proof fn lemma_tags_follow_content(a: TaskView, b: TaskView)
    requires
        a.tags_derived(),
        b.tags_derived(),
        a.content == b.content,
    ensures
        a.project_tags == b.project_tags,
        a.context_tags == b.context_tags,
{
    lemma_ascending_unique(a.project_tags, b.project_tags);
    lemma_ascending_unique(a.context_tags, b.context_tags);
}

/// Setting or clearing the due date leaves it the date that the pairs name
/// under `due`, for a date with a year of four digits.
pub proof fn lemma_due_follows_pairs(task: TaskView, due: Option<Date>)
    requires
        keys_unique(task.custom_tags),
        due matches Some(d) ==> d.wf() && 0 <= d.year <= 9999,
    ensures
        task.with_due(due).due == due_of(task.with_due(due).custom_tags),
        keys_unique(task.with_due(due).custom_tags),
{
    let tags = task.custom_tags;
    let key = due_key();
    let after = task.with_due(due).custom_tags;
    if has_key(tags, key) {
        let i = key_pos(tags, key);
        assert(is_key_pos(tags, key, i));
        match due {
            Some(d) => {
                lemma_text_reads_as_date(d);
                assert(after == tags.update(i, (key, d.text())));
                assert(is_key_pos(after, key, i));
                let j = key_pos(after, key);
                assert(is_key_pos(after, key, j));
                assert(j == i);
            },
            None => {
                assert(after == tags.remove(i));
                assert forall|j: int| !is_key_pos(after, key, j) by {
                    if is_key_pos(after, key, j) {
                        if j < i {
                            assert(after[j] == tags[j]);
                        } else {
                            assert(after[j] == tags[j + 1]);
                        }
                    }
                }
            },
        }
    } else {
        match due {
            Some(d) => {
                lemma_text_reads_as_date(d);
                let n = tags.len() as int;
                assert(after == tags.push((key, d.text())));
                assert forall|j: int| 0 <= j < n implies after[j].0 != key by {
                    if tags[j].0 == key {
                        lemma_has_key(tags, key, j);
                    }
                }
                assert(is_key_pos(after, key, n));
                let j = key_pos(after, key);
                assert(is_key_pos(after, key, j));
                assert(j == n);
            },
            None => {},
        }
    }
}

/// A word that can stand as a key or as a value: not empty, and without
/// white space or a colon.
pub open spec fn is_plain_word(w: Seq<char>) -> bool {
    &&& w.len() > 0
    &&& forall|i: int| 0 <= i < w.len() ==> !is_space(#[trigger] w[i]) && w[i] != ':'
}

/// Every key and every value of the list is a plain word.
pub open spec fn plain_pairs(tags: Seq<(Seq<char>, Seq<char>)>) -> bool {
    forall|i: int|
        0 <= i < tags.len() ==> is_plain_word((#[trigger] tags[i]).0) && is_plain_word(tags[i].1)
}

/// A word starts at or before the place where it ends.
pub proof fn lemma_word_start_bounds(s: Seq<char>, end: int)
    requires
        0 <= end,
    ensures
        0 <= word_start(s, end) <= end,
    decreases end,
{
    if 0 < end <= s.len() && !is_space(s[end - 1]) {
        lemma_word_start_bounds(s, end - 1);
    }
}

/// A block of pairs starts at or before the place where it ends.
pub proof fn lemma_block_start_bounds(s: Seq<char>, end: int)
    requires
        0 <= end,
    ensures
        0 <= block_start(s, end) <= end,
    decreases end,
{
    let w = word_start(s, end);
    lemma_word_start_bounds(s, end);
    if 0 < w <= end && s[w - 1] == ' ' && is_pair_word(s, w, end) {
        lemma_block_start_bounds(s, w - 1);
    }
}

/// A run of characters other than white space, behind white space or at the
/// start, is the word that ends where the run ends.
pub proof fn lemma_word_start_of_run(s: Seq<char>, w: int, end: int)
    requires
        0 <= w <= end <= s.len(),
        forall|i: int| w <= i < end ==> !is_space(s[i]),
        w == 0 || is_space(s[w - 1]),
    ensures
        word_start(s, end) == w,
    decreases end - w,
{
    if end > w {
        lemma_word_start_of_run(s, w, end - 1);
    }
}

proof fn lemma_word_of_prefix(a: Seq<char>, b: Seq<char>, end: int)
    requires
        0 <= end <= a.len(),
        end <= b.len(),
        forall|i: int| 0 <= i < end ==> a[i] == b[i],
    ensures
        word_start(a, end) == word_start(b, end),
    decreases end,
{
    if 0 < end && !is_space(a[end - 1]) {
        lemma_word_of_prefix(a, b, end - 1);
    }
}

/// The block of pairs that ends at `end` depends on the text before `end`
/// alone.
pub proof fn lemma_block_of_prefix(a: Seq<char>, b: Seq<char>, end: int)
    requires
        0 <= end <= a.len(),
        end <= b.len(),
        forall|i: int| 0 <= i < end ==> a[i] == b[i],
    ensures
        block_start(a, end) == block_start(b, end),
        block_pairs(a, end) == block_pairs(b, end),
    decreases end,
{
    lemma_word_of_prefix(a, b, end);
    lemma_word_start_bounds(a, end);
    let w = word_start(a, end);
    if 0 < w <= end && a[w - 1] == ' ' {
        if is_pair_word(a, w, end) {
            let c = colon_of(a, w, end);
            assert(colon_split(a, w, end, c));
            assert(colon_split(b, w, end, c));
            let c2 = colon_of(b, w, end);
            assert(colon_split(b, w, end, c2));
            assert(c == c2) by {
                if c != c2 {
                    assert(b[c] != ':');
                }
            }
            assert(a.subrange(w, c) =~= b.subrange(w, c));
            assert(a.subrange(c + 1, end) =~= b.subrange(c + 1, end));
            lemma_block_of_prefix(a, b, w - 1);
        } else if is_pair_word(b, w, end) {
            let c = colon_of(b, w, end);
            assert(colon_split(b, w, end, c));
            assert(colon_split(a, w, end, c));
        }
    }
}

/// Pairs written behind a content are read back as they were: where the
/// content does not itself end in a pair, the block of pairs starts where
/// the content ends and holds the pairs in their order.
pub proof fn lemma_pairs_read_back(content: Seq<char>, tags: Seq<(Seq<char>, Seq<char>)>)
    requires
        plain_pairs(tags),
        keys_unique(tags),
        block_start(content, content.len() as int) == content.len(),
    ensures
        block_start(content + pairs_text(tags), (content + pairs_text(tags)).len() as int)
            == content.len(),
        block_pairs(content + pairs_text(tags), (content + pairs_text(tags)).len() as int) == tags,
    decreases tags.len(),
{
    let b = content + pairs_text(tags);
    if tags.len() == 0 {
        assert(b =~= content);
        let end = content.len() as int;
        let w = word_start(content, end);
        lemma_word_start_bounds(content, end);
        if 0 < w <= end && content[w - 1] == ' ' && is_pair_word(content, w, end) {
            lemma_block_start_bounds(content, w - 1);
        }
        assert(block_pairs(content, end) =~= tags);
    } else {
        let init = tags.drop_last();
        let k = tags.last().0;
        let v = tags.last().1;
        assert(is_plain_word(k) && is_plain_word(v)) by {
            assert(tags[tags.len() - 1] == tags.last());
        }
        assert(plain_pairs(init)) by {
            assert forall|i: int| 0 <= i < init.len() implies is_plain_word(
                (#[trigger] init[i]).0,
            ) && is_plain_word(init[i].1) by {
                assert(init[i] == tags[i]);
            }
        }
        assert(keys_unique(init)) by {
            assert forall|i: int, j: int| 0 <= i < j < init.len() implies init[i].0
                != init[j].0 by {
                assert(init[i] == tags[i] && init[j] == tags[j]);
            }
        }
        lemma_pairs_read_back(content, init);
        let b0 = content + pairs_text(init);
        let n0 = b0.len() as int;
        reveal_strlit(" ");
        reveal_strlit(":");
        assert(" "@ =~= seq![' ']);
        assert(":"@ =~= seq![':']);
        assert(b =~= b0 + seq![' '] + k + seq![':'] + v);
        let end = b.len() as int;
        let w = n0 + 1;
        let c = w + k.len();
        assert(end == c + 1 + v.len());
        assert(b[n0] == ' ');
        assert(b[c] == ':');
        assert forall|i: int| w <= i < c implies b[i] == k[i - w] by {}
        assert forall|i: int| c < i < end implies b[i] == v[i - c - 1] by {}
        assert forall|i: int| w <= i < end implies !is_space(b[i]) by {
            if i < c {
                assert(b[i] == k[i - w]);
            } else if i > c {
                assert(b[i] == v[i - c - 1]);
            }
        }
        lemma_word_start_of_run(b, w, end);
        assert(colon_split(b, w, end, c)) by {
            assert forall|j: int| w <= j < end && j != c implies b[j] != ':' by {
                if j < c {
                    assert(b[j] == k[j - w]);
                } else {
                    assert(b[j] == v[j - c - 1]);
                }
            }
        }
        let c2 = colon_of(b, w, end);
        assert(colon_split(b, w, end, c2));
        assert(c2 == c) by {
            if c2 != c {
                assert(b[c] != ':');
            }
        }
        assert(b.subrange(w, c) =~= k);
        assert(b.subrange(c + 1, end) =~= v);
        lemma_block_of_prefix(b, b0, n0);
        assert(!has_key(init, k)) by {
            if has_key(init, k) {
                let i = choose|i: int| is_key_pos(init, k, i);
                assert(init[i] == tags[i]);
                assert(tags[tags.len() - 1].0 == k);
            }
        }
        assert(upsert(init, k, v) =~= tags);
    }
}

/// No character of the text is a line feed.
pub open spec fn no_feed(s: Seq<char>) -> bool {
    forall|i: int| 0 <= i < s.len() ==> s[i] != '\n'
}

proof fn lemma_no_feed_joined(a: Seq<char>, b: Seq<char>)
    requires
        no_feed(a),
        no_feed(b),
    ensures
        no_feed(a + b),
{
    assert forall|i: int| 0 <= i < (a + b).len() implies (a + b)[i] != '\n' by {
        if i < a.len() {
            assert((a + b)[i] == a[i]);
        } else {
            assert((a + b)[i] == b[i - a.len()]);
        }
    }
}

proof fn lemma_pairs_text_no_feed(tags: Seq<(Seq<char>, Seq<char>)>)
    requires
        plain_pairs(tags),
    ensures
        no_feed(pairs_text(tags)),
    decreases tags.len(),
{
    if tags.len() > 0 {
        let init = tags.drop_last();
        assert(plain_pairs(init)) by {
            assert forall|i: int| 0 <= i < init.len() implies is_plain_word(
                (#[trigger] init[i]).0,
            ) && is_plain_word(init[i].1) by {
                assert(init[i] == tags[i]);
            }
        }
        lemma_pairs_text_no_feed(init);
        let k = tags.last().0;
        let v = tags.last().1;
        assert(is_plain_word(k) && is_plain_word(v)) by {
            assert(tags[tags.len() - 1] == tags.last());
        }
        reveal_strlit(" ");
        reveal_strlit(":");
        assert(no_feed(" "@));
        assert(no_feed(":"@));
        assert(no_feed(k));
        assert(no_feed(v));
        lemma_no_feed_joined(pairs_text(init), " "@);
        lemma_no_feed_joined(pairs_text(init) + " "@, k);
        lemma_no_feed_joined(pairs_text(init) + " "@ + k, ":"@);
        lemma_no_feed_joined(pairs_text(init) + " "@ + k + ":"@, v);
    }
}

proof fn lemma_digit_char(d: int)
    requires
        0 <= d <= 9,
    ensures
        is_digit(digit_char(d)),
        digit_value(digit_char(d)) == d,
{
}

#[verifier::spinoff_prover]
proof fn lemma_digits_of(y: int, m: int, d: int)
    requires
        0 <= y <= 9999,
        0 <= m <= 99,
        0 <= d <= 99,
    ensures
        0 <= y / 1000 <= 9,
        0 <= y / 100 % 10 <= 9,
        0 <= y / 10 % 10 <= 9,
        0 <= y % 10 <= 9,
        (y / 1000) * 1000 + (y / 100 % 10) * 100 + (y / 10 % 10) * 10 + y % 10 == y,
        0 <= m / 10 <= 9,
        0 <= m % 10 <= 9,
        (m / 10) * 10 + m % 10 == m,
        0 <= d / 10 <= 9,
        0 <= d % 10 <= 9,
        (d / 10) * 10 + d % 10 == d,
{
}

/// The text of a date with a year of four digits has ten characters, none
/// of them a line feed, and reads as that date.
pub proof fn lemma_text_reads_as_date(d: Date)
    requires
        d.wf(),
        0 <= d.year <= 9999,
    ensures
        d.text().len() == 10,
        no_feed(d.text()),
        is_digit(d.text()[0]),
        has_date_shape(d.text(), 0),
        shape_year(d.text(), 0) == d.year,
        shape_month(d.text(), 0) == d.month,
        shape_day(d.text(), 0) == d.day,
        date_at(d.text(), 0) == Some(d),
{
    let y = d.year as int;
    let m = d.month as int;
    let dd = d.day as int;
    lemma_digits_of(y, m, dd);
    lemma_digit_char(y / 1000);
    lemma_digit_char(y / 100 % 10);
    lemma_digit_char(y / 10 % 10);
    lemma_digit_char(y % 10);
    lemma_digit_char(m / 10);
    lemma_digit_char(m % 10);
    lemma_digit_char(dd / 10);
    lemma_digit_char(dd % 10);
    let t = ymd_text(y, m, dd);
    assert(t.len() == 10);
    assert(t[4] == '-' && t[7] == '-');
    assert forall|i: int| 0 <= i < 10 implies t[i] != '\n' by {}
}

/// A date and a space written between two texts are a date token there,
/// and read as that date.
proof fn lemma_token_in_line(pre: Seq<char>, d: Date, post: Seq<char>)
    requires
        d.wf(),
        0 <= d.year <= 9999,
    ensures
        date_token_at(pre + (d.text() + seq![' ']) + post, pre.len() as int),
        date_at(pre + (d.text() + seq![' ']) + post, pre.len() as int) == Some(d),
{
    lemma_text_reads_as_date(d);
    let t = d.text();
    let s = pre + (t + seq![' ']) + post;
    let at = pre.len() as int;
    assert forall|i: int| 0 <= i < 10 implies s[at + i] == t[i] by {}
    assert(s[at + 10] == ' ');
    assert(s[at] == t[0] && s[at + 1] == t[1] && s[at + 2] == t[2] && s[at + 3] == t[3] && s[at
        + 4] == t[4] && s[at + 5] == t[5] && s[at + 6] == t[6] && s[at + 7] == t[7] && s[at + 8]
        == t[8] && s[at + 9] == t[9]);
}

/// Whether a date token stands behind a text does not depend on that text.
proof fn lemma_token_behind(pre: Seq<char>, rest: Seq<char>)
    ensures
        date_token_at(pre + rest, pre.len() as int) == date_token_at(rest, 0),
{
    let s = pre + rest;
    let at = pre.len() as int;
    if rest.len() >= 11 {
        assert forall|i: int| 0 <= i < 11 implies s[at + i] == rest[i] by {}
        assert(s[at] == rest[0] && s[at + 1] == rest[1] && s[at + 2] == rest[2] && s[at + 3]
            == rest[3] && s[at + 4] == rest[4] && s[at + 5] == rest[5] && s[at + 6] == rest[6]
            && s[at + 7] == rest[7] && s[at + 8] == rest[8] && s[at + 9] == rest[9] && s[at + 10]
            == rest[10]);
    }
}

/// The mark and the priority written before a text that starts with a
/// digit are read back as they were.
proof fn lemma_head_read_back(done: bool, priority: Option<char>, tail: Seq<char>)
    requires
        tail.len() > 0,
        is_digit(tail[0]),
        priority matches Some(p) ==> 65 <= code(p) <= 90,
    ensures
        has_done_mark(mark_text(done) + priority_text(priority) + tail) == done,
        priority_at(
            mark_text(done) + priority_text(priority) + tail,
            after_mark(mark_text(done) + priority_text(priority) + tail),
        ) == priority,
        after_priority(mark_text(done) + priority_text(priority) + tail) == (mark_text(done)
            + priority_text(priority)).len(),
        no_feed(mark_text(done) + priority_text(priority)),
{
    reveal_strlit("x ");
    reveal_strlit("(");
    reveal_strlit(") ");
    let m = mark_text(done);
    let pr = priority_text(priority);
    let s = m + pr + tail;
    assert(m =~= if done {
        seq!['x', ' ']
    } else {
        Seq::empty()
    });
    if priority is Some {
        let p = priority->0;
        assert(pr =~= seq!['(', p, ')', ' ']);
        let at = m.len() as int;
        assert(s[at] == '(');
        assert(s[at + 1] == p);
        assert(s[at + 2] == ')');
        assert(s[at + 3] == ' ');
    } else {
        assert(pr =~= Seq::empty());
        assert(s[m.len() as int] == tail[0]);
    }
    if done {
        assert(s[0] == 'x' && s[1] == ' ');
    } else {
        assert(s[0] != 'x');
    }
    assert forall|i: int| 0 <= i < (m + pr).len() implies (m + pr)[i] != '\n' by {}
}

impl TaskView {
    /// The task can be written as a line from which it can be read again.
    /// It has a creation date, the years of its dates have four digits,
    /// its priority is a capital letter, its content holds no line feed and
    /// ends in no pair, its pairs are made of plain words under keys that
    /// differ, and without a completion date no date token stands behind
    /// the creation date.
    pub open spec fn is_writable(self) -> bool {
        &&& self.creation_date matches Some(d) && d.wf() && 0 <= d.year <= 9999
        &&& self.completion_date matches Some(d) ==> d.wf() && 0 <= d.year <= 9999
        &&& self.priority matches Some(p) ==> 65 <= code(p) <= 90
        &&& no_feed(self.content)
        &&& block_start(self.content, self.content.len() as int) == self.content.len()
        &&& plain_pairs(self.custom_tags)
        &&& keys_unique(self.custom_tags)
        &&& self.completion_date is None ==> !date_token_at(
            self.content + pairs_text(self.custom_tags),
            0,
        )
    }
}

/// What a line is read as, where `head` holds the mark and the priority and
/// one date token stands behind it, followed by `rest`.
proof fn lemma_one_date(s: Seq<char>, head: Seq<char>, d: Date, rest: Seq<char>)
    requires
        d.wf(),
        0 <= d.year <= 9999,
        !date_token_at(rest, 0),
        s == head + (d.text() + seq![' ']) + rest,
        after_priority(s) == head.len(),
    ensures
        completion_date_of(s) is None,
        creation_date_of(s) == Some(d),
        body(s) == rest,
        date_count(s) >= 1 ==> date_at(s, after_priority(s)) is Some,
        date_count(s) != 2,
{
    lemma_text_reads_as_date(d);
    lemma_token_in_line(head, d, rest);
    let pre = head + (d.text() + seq![' ']);
    lemma_token_behind(pre, rest);
    assert(s =~= pre + rest);
    assert(pre.len() == head.len() + 11);
    assert(date_count(s) == 1);
    assert(body(s) =~= rest);
}

/// What a line is read as, where `head` holds the mark and the priority and
/// two date tokens stand behind it, followed by `rest`.
proof fn lemma_two_dates(s: Seq<char>, head: Seq<char>, d1: Date, d2: Date, rest: Seq<char>)
    requires
        d1.wf(),
        0 <= d1.year <= 9999,
        d2.wf(),
        0 <= d2.year <= 9999,
        s == head + (d1.text() + seq![' ']) + (d2.text() + seq![' ']) + rest,
        after_priority(s) == head.len(),
    ensures
        completion_date_of(s) == Some(d1),
        creation_date_of(s) == Some(d2),
        body(s) == rest,
        date_at(s, after_priority(s)) is Some,
        date_at(s, after_priority(s) + 11) is Some,
{
    lemma_text_reads_as_date(d1);
    lemma_text_reads_as_date(d2);
    let t1 = d1.text() + seq![' '];
    let t2 = d2.text() + seq![' '];
    lemma_token_in_line(head, d1, t2 + rest);
    assert(s =~= head + t1 + (t2 + rest));
    lemma_token_in_line(head + t1, d2, rest);
    assert((head + t1).len() == head.len() + 11);
    assert(date_count(s) == 2);
    assert(body(s) =~= rest);
}

impl TaskView {
    /// The mark and the priority of the task, as they stand in its line.
    pub open spec fn line_head(self) -> Seq<char> {
        mark_text(self.completion) + priority_text(self.priority)
    }

    /// The dates of the task, as they stand in its line.
    pub open spec fn line_dates(self) -> Seq<char> {
        date_text(self.completion_date, Seq::empty(), " "@) + date_text(
            self.creation_date,
            Seq::empty(),
            " "@,
        )
    }

    /// The content and the pairs of the task, as they stand in its line.
    pub open spec fn line_rest(self) -> Seq<char> {
        self.content + pairs_text(self.custom_tags)
    }
}

/// The line of a task is its head, its dates and its rest.
proof fn lemma_line_parts(task: TaskView)
    ensures
        task.todotxt() == task.line_head() + (task.line_dates() + task.line_rest()),
{
    assert(task.todotxt() =~= task.line_head() + (task.line_dates() + task.line_rest()));
}

/// The dates of a writable task start with a digit and hold no line feed.
proof fn lemma_line_dates(task: TaskView)
    requires
        task.is_writable(),
    ensures
        task.line_dates().len() > 0,
        is_digit(task.line_dates()[0]),
        no_feed(task.line_dates()),
        task.completion_date is None ==> task.line_dates() == task.creation_date->0.text()
            + seq![' '],
        task.completion_date is Some ==> task.line_dates() == task.completion_date->0.text()
            + seq![' '] + (task.creation_date->0.text() + seq![' ']),
{
    reveal_strlit(" ");
    assert(" "@ =~= seq![' ']);
    let created = task.creation_date->0;
    let t1 = created.text() + seq![' '];
    lemma_text_reads_as_date(created);
    assert(no_feed(seq![' ']));
    lemma_no_feed_joined(created.text(), seq![' ']);
    assert(date_text(task.creation_date, Seq::empty(), " "@) =~= t1);
    assert(t1[0] == created.text()[0]);
    if task.completion_date is Some {
        let done_on = task.completion_date->0;
        lemma_text_reads_as_date(done_on);
        let t2 = done_on.text() + seq![' '];
        lemma_no_feed_joined(done_on.text(), seq![' ']);
        assert(date_text(task.completion_date, Seq::empty(), " "@) =~= t2);
        lemma_no_feed_joined(t2, t1);
        assert((t2 + t1)[0] == done_on.text()[0]);
    } else {
        assert(date_text(task.completion_date, Seq::empty(), " "@) =~= Seq::empty());
        assert(task.line_dates() =~= t1);
    }
}

/// The line of a writable task holds no line feed.
proof fn lemma_line_no_feed(task: TaskView)
    requires
        task.is_writable(),
    ensures
        !task.todotxt().contains('\n'),
{
    let s = task.todotxt();
    lemma_line_parts(task);
    lemma_line_dates(task);
    lemma_pairs_text_no_feed(task.custom_tags);
    lemma_no_feed_joined(task.content, pairs_text(task.custom_tags));
    lemma_no_feed_joined(task.line_dates(), task.line_rest());
    lemma_head_read_back(
        task.completion,
        task.priority,
        task.line_dates() + task.line_rest(),
    );
    lemma_no_feed_joined(task.line_head(), task.line_dates() + task.line_rest());
    if s.contains('\n') {
        let i = choose|i: int| 0 <= i < s.len() && s[i] == '\n';
        assert(s[i] != '\n');
    }
}

/// The line of a writable task follows the grammar, and its parts are those
/// of the task.
pub proof fn lemma_line_shape(task: TaskView)
    requires
        task.is_writable(),
    ensures
        matches_grammar(task.todotxt()),
        has_done_mark(task.todotxt()) == task.completion,
        priority_at(task.todotxt(), after_mark(task.todotxt())) == task.priority,
        completion_date_of(task.todotxt()) == task.completion_date,
        creation_date_of(task.todotxt()) == task.creation_date,
        body(task.todotxt()) == task.content + pairs_text(task.custom_tags),
{
    let s = task.todotxt();
    let head = task.line_head();
    let dates = task.line_dates();
    let rest = task.line_rest();
    let created = task.creation_date->0;
    lemma_line_parts(task);
    lemma_line_dates(task);
    lemma_line_no_feed(task);
    assert((dates + rest)[0] == dates[0]);
    lemma_head_read_back(task.completion, task.priority, dates + rest);
    assert(s == head + (dates + rest));
    assert(head + (dates + rest) == mark_text(task.completion) + priority_text(task.priority) + (
    dates + rest));
    if task.completion_date is Some {
        let done_on = task.completion_date->0;
        assert(s =~= head + (done_on.text() + seq![' ']) + (created.text() + seq![' ']) + rest);
        lemma_two_dates(s, head, done_on, created, rest);
    } else {
        assert(s =~= head + (created.text() + seq![' ']) + rest);
        lemma_one_date(s, head, created, rest);
    }
}

/// A writable task, written as a line and read again, is the same task:
/// what is read from the line has the same completion, priority, dates,
/// content and pairs, hence the same tags.
pub proof fn lemma_line_read_back(task: TaskView, read: TaskView)
    requires
        task.is_writable(),
        read.is_parse_of(task.todotxt()),
    ensures
        matches_grammar(task.todotxt()),
        read.completion == task.completion,
        read.priority == task.priority,
        read.completion_date == task.completion_date,
        read.creation_date == task.creation_date,
        read.content == task.content,
        read.custom_tags == task.custom_tags,
        task.due == due_of(task.custom_tags) ==> read.due == task.due,
        task.tags_derived() ==> read.project_tags == task.project_tags && read.context_tags
            == task.context_tags,
{
    lemma_line_shape(task);
    lemma_pairs_read_back(task.content, task.custom_tags);
    let rest = task.content + pairs_text(task.custom_tags);
    assert(rest.subrange(0, task.content.len() as int) =~= task.content);
    if task.tags_derived() {
        lemma_tags_follow_content(task, read);
    }
}

} // verus!
