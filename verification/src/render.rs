//! The texts of a task: the task line, the short form and the full
//! description.

use vstd::prelude::*;
use vstd::string::*;
use crate::date::Date;
use crate::task::{date_ok, TaskView};
use crate::tags::{pairs, texts};
use crate::text::push_char;

verus! {

/// The text in front of a line: the mark of a done task, or nothing.
pub open spec fn mark_text(done: bool) -> Seq<char> {
    if done {
        "x "@
    } else {
        Seq::empty()
    }
}

/// A priority in round brackets with a space behind it, or nothing.
pub open spec fn priority_text(priority: Option<char>) -> Seq<char> {
    match priority {
        Some(p) => "("@.push(p) + ") "@,
        None => Seq::empty(),
    }
}

/// `before`, the date's text and `after`; nothing where there is no date.
pub open spec fn date_text(date: Option<Date>, before: Seq<char>, after: Seq<char>) -> Seq<char> {
    match date {
        Some(day) => before + day.text() + after,
        None => Seq::empty(),
    }
}

/// Each pair as a space, the key, a colon and the value, in the list's
/// order.
pub open spec fn pairs_text(tags: Seq<(Seq<char>, Seq<char>)>) -> Seq<char>
    decreases tags.len(),
{
    if tags.len() == 0 {
        Seq::empty()
    } else {
        pairs_text(tags.drop_last()) + " "@ + tags.last().0 + ":"@ + tags.last().1
    }
}

/// The words of a list with a comma and a space between them.
pub open spec fn joined(words: Seq<Seq<char>>) -> Seq<char>
    decreases words.len(),
{
    if words.len() == 0 {
        Seq::empty()
    } else if words.len() == 1 {
        words[0]
    } else {
        joined(words.drop_last()) + ", "@ + words.last()
    }
}

/// `label` and the joined words; nothing for an empty list.
pub open spec fn words_text(label: Seq<char>, words: Seq<Seq<char>>) -> Seq<char> {
    if words.len() > 0 {
        label + joined(words)
    } else {
        Seq::empty()
    }
}

/// The line that says whether the task is done, and when.
pub open spec fn status_text(done: bool, on: Option<Date>) -> Seq<char> {
    if done {
        "\n𝐒𝐭𝐚𝐭𝐮𝐬 : Done"@ + date_text(on, " ("@, ")"@)
    } else {
        "\n𝐒𝐭𝐚𝐭𝐮𝐬 : To do"@
    }
}

/// The line that names the priority, or nothing.
pub open spec fn priority_line(priority: Option<char>) -> Seq<char> {
    match priority {
        Some(p) => "\n𝐏𝐫𝐢𝐨𝐫𝐢𝐭𝐲 : "@.push(p),
        None => Seq::empty(),
    }
}

impl TaskView {
    /// The task as a line of a task list.
    pub open spec fn todotxt(self) -> Seq<char> {
        mark_text(self.completion) + priority_text(self.priority) + date_text(
            self.completion_date,
            Seq::empty(),
            " "@,
        ) + date_text(self.creation_date, Seq::empty(), " "@) + self.content + pairs_text(
            self.custom_tags,
        )
    }

    /// The short form: priority, due date and content.
    pub open spec fn short_text(self) -> Seq<char> {
        priority_text(self.priority) + date_text(self.due, Seq::empty(), " : "@) + self.content
    }

    /// The full description, one line for each thing that the task has.
    pub open spec fn recap(self) -> Seq<char> {
        "𝐓𝐚𝐬𝐤 : "@ + self.content + status_text(self.completion, self.completion_date)
            + priority_line(self.priority) + date_text(
            self.creation_date,
            "\n𝐂𝐫𝐞𝐚𝐭𝐞𝐝 𝐨𝐧 : "@,
            Seq::empty(),
        ) + date_text(self.due, "\n𝐃𝐮𝐞 𝐝𝐚𝐭𝐞 : "@, Seq::empty()) + words_text(
            "\n𝐂𝐨𝐧𝐭𝐞𝐱𝐭 𝐭𝐚𝐠𝐬 : "@,
            self.context_tags,
        ) + words_text("\n𝐏𝐫𝐨𝐣𝐞𝐜𝐭 𝐭𝐚𝐠𝐬 : "@, self.project_tags)
    }
}

/// Writes the priority as it stands in a line.
pub fn write_priority(priority: Option<char>) -> (r: String)
    ensures
        r@ == priority_text(priority),
{
    let mut s = String::new();
    if let Some(p) = priority {
        s.append("(");
        push_char(&mut s, p);
        s.append(") ");
    }
    assert(s@ =~= priority_text(priority));
    s
}

/// Writes a date between `before` and `after`.
pub fn write_date(date: Option<Date>, before: &str, after: &str) -> (r: String)
    requires
        date_ok(date),
    ensures
        r@ == date_text(date, before@, after@),
{
    let mut s = String::new();
    if let Some(day) = date {
        s.append(before);
        s.append(day.format().as_str());
        s.append(after);
    }
    assert(s@ =~= date_text(date, before@, after@));
    s
}

/// Writes the pairs as they stand at the end of a line.
pub fn write_pairs(tags: &Vec<(String, String)>) -> (r: String)
    ensures
        r@ == pairs_text(pairs(tags@)),
{
    let mut s = String::new();
    let mut i: usize = 0;
    let ghost all = pairs(tags@);
    while i < tags.len()
        invariant
            i <= tags.len(),
            all == pairs(tags@),
            s@ == pairs_text(all.subrange(0, i as int)),
        decreases tags.len() - i,
    {
        proof {
            let next = all.subrange(0, i + 1);
            assert(next.drop_last() =~= all.subrange(0, i as int));
            assert(next.last() == all[i as int]);
        }
        s.append(" ");
        s.append(tags[i].0.as_str());
        s.append(":");
        s.append(tags[i].1.as_str());
        i += 1;
    }
    assert(all.subrange(0, i as int) =~= all);
    s
}

/// Writes `label` and the words of a list that is not empty.
pub fn write_words(label: &str, words: &Vec<String>) -> (r: String)
    ensures
        r@ == words_text(label@, texts(words@)),
{
    let mut s = String::new();
    if words.len() == 0 {
        assert(s@ =~= words_text(label@, texts(words@)));
        return s;
    }
    let mut list = String::new();
    let ghost all = texts(words@);
    list.append(words[0].as_str());
    let mut i: usize = 1;
    assert(all.subrange(0, 1).len() == 1);
    assert(list@ =~= joined(all.subrange(0, 1)));
    while i < words.len()
        invariant
            1 <= i <= words.len(),
            all == texts(words@),
            list@ == joined(all.subrange(0, i as int)),
        decreases words.len() - i,
    {
        proof {
            let next = all.subrange(0, i + 1);
            assert(next.drop_last() =~= all.subrange(0, i as int));
            assert(next.last() == all[i as int]);
        }
        list.append(", ");
        list.append(words[i].as_str());
        i += 1;
    }
    assert(all.subrange(0, i as int) =~= all);
    s.append(label);
    s.append(list.as_str());
    assert(s@ =~= label@ + joined(all));
    s
}

/// Writes the line of the description that says whether the task is done.
pub fn write_status(done: bool, on: Option<Date>) -> (r: String)
    requires
        date_ok(on),
    ensures
        r@ == status_text(done, on),
{
    let mut s = String::new();
    if done {
        s.append("\n𝐒𝐭𝐚𝐭𝐮𝐬 : Done");
        s.append(write_date(on, " (", ")").as_str());
    } else {
        s.append("\n𝐒𝐭𝐚𝐭𝐮𝐬 : To do");
    }
    assert(s@ =~= status_text(done, on));
    s
}

/// Writes the line of the description that names the priority.
pub fn write_priority_line(priority: Option<char>) -> (r: String)
    ensures
        r@ == priority_line(priority),
{
    let mut s = String::new();
    if let Some(p) = priority {
        s.append("\n𝐏𝐫𝐢𝐨𝐫𝐢𝐭𝐲 : ");
        push_char(&mut s, p);
    }
    assert(s@ =~= priority_line(priority));
    s
}

} // verus!
