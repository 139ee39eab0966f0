//! The task record: its fields, what holds of them, and the operations that
//! change them.

use vstd::prelude::*;
use vstd::string::*;
use std::cmp::Ordering;
use crate::date::{date_at, lemma_date_text, read_date, today, Date};
use crate::line::{
    after_mark, block_pairs, block_start, body, completion_date_of, creation_date_of,
    has_done_mark, has_line_feed, is_date_token, matches_grammar, priority_at, read_block,
    read_mark, read_priority,
};
use crate::order::{content_order, creation_order, due_order, order_by, priority_order};
use crate::render::{
    mark_text, write_date, write_pairs, write_priority, write_priority_line, write_status,
    write_words,
};
use crate::tags::{
    are_tags_of, drop_tag, extract_tags, find_key, has_key, is_key_pos, key_pos, keys_unique,
    pairs, put_tag, texts, upsert, without_key,
};
use crate::text::{char_less, chars_of, slice_of, str_less};

verus! {

/// The key by which a list of tasks is sorted.
#[derive(Clone, Copy, Debug, PartialEq, Eq, Structural)]
pub enum SortTaskBy {
    CreationDate,
    Content,
    Priority,
    DueDate,
}

/// Why a line is no task.
#[derive(Clone, Copy, Debug, PartialEq, Eq, Structural)]
pub enum ParseError {
    /// The line does not follow the grammar of a task.
    Malformed,
}

/// A task.
#[derive(Clone, Debug)]
pub struct Task {
    /// What is to be done.
    pub content: String,
    /// The day by which the task should be done.
    duedate: Option<Date>,
    /// Whether the task is done.
    pub completion: bool,
    /// The day on which the task was done.
    pub completion_date: Option<Date>,
    /// The day on which the task was written down.
    pub creation_date: Option<Date>,
    /// The priority, from A to Z.
    pub priority: Option<char>,
    /// The words of the `+` tags of the content.
    project_tags: Vec<String>,
    /// The words of the `@` tags of the content.
    context_tags: Vec<String>,
    /// The `key:value` pairs of the task, in the order in which they came.
    custom_tags: Vec<(String, String)>,
}

/// What a task holds, as mathematical values.
pub struct TaskView {
    pub content: Seq<char>,
    pub due: Option<Date>,
    pub completion: bool,
    pub completion_date: Option<Date>,
    pub creation_date: Option<Date>,
    pub priority: Option<char>,
    pub project_tags: Seq<Seq<char>>,
    pub context_tags: Seq<Seq<char>>,
    pub custom_tags: Seq<(Seq<char>, Seq<char>)>,
}

/// The key of the pair that mirrors the due date.
pub open spec fn due_key() -> Seq<char> {
    seq!['d', 'u', 'e']
}

/// The due date that the pairs name: the value under `due`, where it is a
/// date of the form `YYYY-MM-DD`.
pub open spec fn due_of(tags: Seq<(Seq<char>, Seq<char>)>) -> Option<Date> {
    if has_key(tags, due_key()) {
        let value = tags[key_pos(tags, due_key())].1;
        if value.len() == 10 {
            date_at(value, 0)
        } else {
            None
        }
    } else {
        None
    }
}

/// Reads the due date that the pairs name.
pub fn read_due(tags: &Vec<(String, String)>) -> (r: Option<Date>)
    ensures
        r == due_of(pairs(tags@)),
        r matches Some(day) ==> day.wf() && pairs(tags@).contains((due_key(), day.text())),
{
    let key = String::from_str("due");
    proof {
        reveal_strlit("due");
        assert(key@ =~= due_key());
    }
    let i = find_key(tags, &key);
    if i >= tags.len() {
        return None;
    }
    let value = chars_of(tags[i].1.as_str());
    if value.len() != 10 {
        return None;
    }
    let r = read_date(&value, 0);
    proof {
        if r is Some {
            lemma_date_text(value@);
            assert(pairs(tags@)[i as int] == (due_key(), value@));
        }
    }
    r
}

/// The date, where there is one, is a day of the calendar.
pub open spec fn date_ok(d: Option<Date>) -> bool {
    d matches Some(day) ==> day.wf()
}

impl TaskView {
    /// The tags are those of the content.
    pub open spec fn tags_derived(self) -> bool {
        &&& are_tags_of(self.project_tags, self.content, '+')
        &&& are_tags_of(self.context_tags, self.content, '@')
    }

    /// The due date, where there is one, stands among the pairs under `due`.
    pub open spec fn due_mirrored(self) -> bool {
        self.due matches Some(day) ==> self.custom_tags.contains((due_key(), day.text()))
    }

    /// What holds of every task that the library made and changed.
    pub open spec fn wf(self) -> bool {
        &&& self.completion_date is Some ==> self.creation_date is Some
        &&& date_ok(self.due) && date_ok(self.completion_date) && date_ok(self.creation_date)
        &&& self.tags_derived()
        &&& self.due_mirrored()
        &&& keys_unique(self.custom_tags)
    }

    /// The task with nothing set.
    pub open spec fn empty() -> TaskView {
        TaskView {
            content: Seq::empty(),
            due: None,
            completion: false,
            completion_date: None,
            creation_date: None,
            priority: None,
            project_tags: Seq::empty(),
            context_tags: Seq::empty(),
            custom_tags: Seq::empty(),
        }
    }

    /// The task with another due date, mirrored among the pairs.
    pub open spec fn with_due(self, date: Option<Date>) -> TaskView {
        TaskView {
            due: date,
            custom_tags: match date {
                Some(day) => upsert(self.custom_tags, due_key(), day.text()),
                None => without_key(self.custom_tags, due_key()),
            },
            ..self
        }
    }

    /// The task done on `day`; a task without a creation date gets `day`
    /// for it.
    pub open spec fn completed_on(self, day: Date) -> TaskView {
        TaskView {
            completion: true,
            completion_date: Some(day),
            creation_date: if self.creation_date is None {
                Some(day)
            } else {
                self.creation_date
            },
            ..self
        }
    }

    /// The task not done.
    pub open spec fn not_completed(self) -> TaskView {
        TaskView { completion: false, completion_date: None, ..self }
    }

    /// `self` differs from `before` in its content `content` alone, and in
    /// the tags, which are those of `content`.
    pub open spec fn is_with_content(self, before: TaskView, content: Seq<char>) -> bool {
        &&& self.tags_derived()
        &&& self == (TaskView {
            content: content,
            project_tags: self.project_tags,
            context_tags: self.context_tags,
            ..before
        })
    }

    /// `self` is what the line `s` says.
    pub open spec fn is_parse_of(self, s: Seq<char>) -> bool {
        let b = body(s);
        &&& self.completion == has_done_mark(s)
        &&& self.priority == priority_at(s, after_mark(s))
        &&& self.completion_date == completion_date_of(s)
        &&& self.creation_date == creation_date_of(s)
        &&& self.content == b.subrange(0, block_start(b, b.len() as int))
        &&& self.custom_tags == block_pairs(b, b.len() as int)
        &&& self.due == due_of(self.custom_tags)
        &&& self.tags_derived()
    }

    /// `self` is a task just made with `content` on `day`.
    pub open spec fn is_new(self, content: Seq<char>, day: Date) -> bool {
        self.is_with_content(
            TaskView { creation_date: Some(day), ..TaskView::empty() },
            content,
        )
    }
}

/// After a value is put under a key, the list holds that pair.
pub proof fn lemma_upsert_holds(
    tags: Seq<(Seq<char>, Seq<char>)>,
    key: Seq<char>,
    value: Seq<char>,
)
    ensures
        upsert(tags, key, value).contains((key, value)),
{
    let after = upsert(tags, key, value);
    if has_key(tags, key) {
        let i = key_pos(tags, key);
        assert(is_key_pos(tags, key, i));
        assert(after[i] == (key, value));
    } else {
        assert(after[tags.len() as int] == (key, value));
    }
}

impl Task {
    /// A task with nothing set.
    pub fn empty() -> (r: Task)
        ensures
            r@ == TaskView::empty(),
    {
        let r = Task {
            content: String::new(),
            duedate: None,
            completion: false,
            context_tags: Vec::new(),
            project_tags: Vec::new(),
            priority: None,
            creation_date: None,
            completion_date: None,
            custom_tags: Vec::new(),
        };
        proof {
            assert(r@.project_tags =~= Seq::empty());
            assert(r@.context_tags =~= Seq::empty());
            assert(r@.custom_tags =~= Seq::empty());
            assert(r@.content =~= Seq::empty());
        }
        r
    }

    /// A task with the given content, written down on `day`.
    pub fn new_on(content: String, day: Date) -> (r: Task)
        ensures
            r@.is_new(content@, day),
            day.wf() ==> r@.wf(),
    {
        let mut task = Self::empty();
        task.set_content(content);
        task.creation_date = Some(day);
        task
    }

    /// A task with the given content, written down today.
    pub fn new(content: String) -> (r: Task)
        ensures
            r@.creation_date matches Some(day) && day.wf() && r@.is_new(content@, day),
            r@.wf(),
    {
        Self::new_on(content, today())
    }

    /// A task with the given content, written down today and due on `date`.
    pub fn new_with_date(content: String, date: Date) -> (r: Task)
        requires
            date.wf(),
        ensures
            r@.creation_date matches Some(day) && day.wf() && exists|fresh: TaskView|
                fresh.is_new(content@, day) && r@ == fresh.with_due(Some(date)),
            r@.wf(),
    {
        let mut t = Self::new(content);
        t.set_due(Some(date));
        t
    }

    /// Replaces the content and derives the tags from it anew.
    pub fn set_content(&mut self, content: String)
        ensures
            final(self)@.is_with_content(old(self)@, content@),
            old(self)@.wf() ==> final(self)@.wf(),
    {
        self.project_tags = extract_tags(content.as_str(), '+');
        self.context_tags = extract_tags(content.as_str(), '@');
        self.content = content;
    }

    /// The content of the task.
    pub fn get_content(&self) -> (r: &String)
        ensures
            r@ == self@.content,
    {
        &self.content
    }

    /// The priority of the task.
    pub fn get_priority(&self) -> (r: Option<char>)
        ensures
            r == self@.priority,
    {
        self.priority
    }

    /// Sets or clears the priority, and nothing else.
    pub fn set_priority(&mut self, priority: Option<char>)
        ensures
            final(self)@ == (TaskView { priority: priority, ..old(self)@ }),
            old(self)@.wf() ==> final(self)@.wf(),
    {
        self.priority = priority;
    }

    /// Whether the task is done.
    pub fn is_completed(&self) -> (r: bool)
        ensures
            r == self@.completion,
    {
        self.completion
    }

    /// The day on which the task was done.
    pub fn get_completion_date(&self) -> (r: Option<Date>)
        ensures
            r == self@.completion_date,
    {
        self.completion_date
    }

    /// The day on which the task was written down.
    pub fn get_creation_date(&self) -> (r: Option<Date>)
        ensures
            r == self@.creation_date,
    {
        self.creation_date
    }

    /// The words of the `@` tags of the content, ascending, each once.
    pub fn get_context_tags(&self) -> (r: &Vec<String>)
        ensures
            texts(r@) == self@.context_tags,
    {
        &self.context_tags
    }

    /// The words of the `+` tags of the content, ascending, each once.
    pub fn get_project_tags(&self) -> (r: &Vec<String>)
        ensures
            texts(r@) == self@.project_tags,
    {
        &self.project_tags
    }

    /// The day by which the task should be done.
    pub fn get_due(&self) -> (r: &Option<Date>)
        ensures
            *r == self@.due,
    {
        &self.duedate
    }

    /// The `key:value` pairs of the task, in the order in which they are
    /// written out.
    pub fn get_custom_tags(&self) -> (r: &Vec<(String, String)>)
        ensures
            pairs(r@) == self@.custom_tags,
    {
        &self.custom_tags
    }

    /// Sets or clears the due date and the pair that mirrors it.
    pub fn set_due(&mut self, date: Option<Date>)
        requires
            date_ok(date),
        ensures
            final(self)@ == old(self)@.with_due(date),
            old(self)@.wf() ==> final(self)@.wf(),
    {
        self.duedate = date;
        let key = String::from_str("due");
        proof {
            reveal_strlit("due");
            assert(key@ =~= due_key());
        }
        match date {
            Some(day) => {
                let value = day.format();
                proof {
                    lemma_upsert_holds(old(self)@.custom_tags, due_key(), day.text());
                }
                put_tag(&mut self.custom_tags, key, value);
            },
            None => {
                drop_tag(&mut self.custom_tags, &key);
            },
        }
    }

    /// Marks the task as done on `day`.
    pub fn set_completed_on(&mut self, day: Date)
        ensures
            final(self)@ == old(self)@.completed_on(day),
            old(self)@.wf() && day.wf() ==> final(self)@.wf(),
    {
        self.completion = true;
        self.completion_date = Some(day);
        if self.creation_date.is_none() {
            self.creation_date = Some(day);
        }
    }

    /// Marks the task as done today.
    pub fn set_completed(&mut self)
        ensures
            final(self)@.completion_date matches Some(day) && day.wf() && final(self)@ == old(
                self,
            )@.completed_on(day),
            old(self)@.wf() ==> final(self)@.wf(),
    {
        self.set_completed_on(today());
    }

    /// The short form of the task: priority, due date and content.
    pub fn to_string(&self) -> (r: String)
        requires
            date_ok(self@.due),
        ensures
            r@ == self@.short_text(),
    {
        let mut s = write_priority(self.priority);
        s.append(write_date(self.duedate, "", " : ").as_str());
        s.append(self.content.as_str());
        proof {
            reveal_strlit("");
            assert(""@ =~= Seq::<char>::empty());
        }
        s
    }

    /// The full description of the task.
    pub fn recap_str(&self) -> (r: String)
        requires
            date_ok(self@.due),
            date_ok(self@.completion_date),
            date_ok(self@.creation_date),
        ensures
            r@ == self@.recap(),
    {
        let mut s = String::from_str("𝐓𝐚𝐬𝐤 : ");
        s.append(self.content.as_str());
        s.append(write_status(self.completion, self.completion_date).as_str());
        s.append(write_priority_line(self.priority).as_str());
        s.append(write_date(self.creation_date, "\n𝐂𝐫𝐞𝐚𝐭𝐞𝐝 𝐨𝐧 : ", "").as_str());
        s.append(write_date(self.duedate, "\n𝐃𝐮𝐞 𝐝𝐚𝐭𝐞 : ", "").as_str());
        s.append(write_words("\n𝐂𝐨𝐧𝐭𝐞𝐱𝐭 𝐭𝐚𝐠𝐬 : ", &self.context_tags).as_str());
        s.append(write_words("\n𝐏𝐫𝐨𝐣𝐞𝐜𝐭 𝐭𝐚𝐠𝐬 : ", &self.project_tags).as_str());
        proof {
            reveal_strlit("");
            assert(""@ =~= Seq::<char>::empty());
        }
        s
    }

    /// Reads a task from a line of a task list.
    pub fn from_todotxt(todo: String) -> (r: Result<Task, ParseError>)
        ensures
            r is Ok <==> matches_grammar(todo@),
            r matches Ok(task) ==> task@.is_parse_of(todo@) && task@.wf(),
            r matches Err(e) ==> e == ParseError::Malformed,
    {
        let chars = chars_of(todo.as_str());
        if has_line_feed(&chars) {
            return Err(ParseError::Malformed);
        }
        let mut task = Self::empty();
        let mark = read_mark(&chars);
        task.completion = mark == 2;
        task.priority = read_priority(&chars, mark);
        let mut at: usize = if task.priority.is_some() {
            mark + 4
        } else {
            mark
        };
        if is_date_token(&chars, at) {
            let first = read_date(&chars, at);
            if first.is_none() {
                return Err(ParseError::Malformed);
            }
            if is_date_token(&chars, at + 11) {
                let second = read_date(&chars, at + 11);
                if second.is_none() {
                    return Err(ParseError::Malformed);
                }
                task.completion_date = first;
                task.creation_date = second;
                at = at + 22;
            } else {
                task.creation_date = first;
                at = at + 11;
            }
        }
        let rest = slice_of(todo.as_str(), at, chars.len());
        let rest_chars = chars_of(rest.as_str());
        assert(pairs(task.custom_tags@).len() == 0);
        let start = read_block(&rest_chars, rest.as_str(), rest_chars.len(), &mut task.custom_tags);
        task.set_content(slice_of(rest.as_str(), 0, start));
        task.duedate = read_due(&task.custom_tags);
        Ok(task)
    }

    /// The task as a line of a task list.
    pub fn to_todotxt(&self) -> (r: String)
        requires
            date_ok(self@.completion_date),
            date_ok(self@.creation_date),
        ensures
            r@ == self@.todotxt(),
    {
        let mut s = String::new();
        if self.completion {
            s.append("x ");
        }
        assert(s@ =~= mark_text(self.completion));
        s.append(write_priority(self.priority).as_str());
        s.append(write_date(self.completion_date, "", " ").as_str());
        s.append(write_date(self.creation_date, "", " ").as_str());
        s.append(self.content.as_str());
        s.append(write_pairs(&self.custom_tags).as_str());
        proof {
            reveal_strlit("");
            assert(""@ =~= Seq::<char>::empty());
        }
        s
    }

    /// Compares two tasks under the order that `sort` selects.
    pub fn _comp(&self, compare: &Self, sort: &SortTaskBy) -> (r: Ordering)
        ensures
            r == order_by(*sort, self@, compare@),
    {
        match sort {
            SortTaskBy::Content => self.comp_content(compare),
            SortTaskBy::CreationDate => self.comp_creation_date(compare),
            SortTaskBy::Priority => self.comp_priority(compare),
            SortTaskBy::DueDate => self.comp_due_date(compare),
        }
    }

    /// Compares two tasks by priority, then due date, then content.
    pub fn comp_priority(&self, compare: &Self) -> (r: Ordering)
        ensures
            r == priority_order(self@, compare@),
    {
        match (self.priority, compare.priority) {
            (Some(mine), Some(theirs)) => if mine == theirs {
                self.comp_due_date(compare)
            } else if char_less(mine, theirs) {
                Ordering::Less
            } else {
                Ordering::Greater
            },
            (Some(_), None) => Ordering::Less,
            (None, Some(_)) => Ordering::Greater,
            (None, None) => self.comp_due_date(compare),
        }
    }

    /// Compares two tasks by creation date, then content.
    pub fn comp_creation_date(&self, compare: &Self) -> (r: Ordering)
        ensures
            r == creation_order(self@, compare@),
    {
        match (self.creation_date, compare.creation_date) {
            (Some(d1), Some(d2)) => if d1 == d2 {
                self.comp_content(compare)
            } else if d1.is_before(&d2) {
                Ordering::Less
            } else {
                Ordering::Greater
            },
            (Some(_), None) => Ordering::Greater,
            (None, Some(_)) => Ordering::Less,
            (None, None) => self.comp_content(compare),
        }
    }

    /// Compares two tasks by due date, then content.
    pub fn comp_due_date(&self, compare: &Self) -> (r: Ordering)
        ensures
            r == due_order(self@, compare@),
    {
        match (self.duedate, compare.duedate) {
            (Some(d1), Some(d2)) => if d1 == d2 {
                self.comp_content(compare)
            } else if d1.is_before(&d2) {
                Ordering::Less
            } else {
                Ordering::Greater
            },
            (Some(_), None) => Ordering::Less,
            (None, Some(_)) => Ordering::Greater,
            (None, None) => self.comp_content(compare),
        }
    }

    /// Compares two tasks by content.
    pub fn comp_content(&self, compare: &Self) -> (r: Ordering)
        ensures
            r == content_order(self@, compare@),
    {
        if self.content == compare.content {
            Ordering::Equal
        } else if str_less(self.content.as_str(), compare.content.as_str()) {
            Ordering::Less
        } else {
            Ordering::Greater
        }
    }

    /// Marks the task as not done.
    pub fn set_not_completed(&mut self)
        ensures
            final(self)@ == old(self)@.not_completed(),
            old(self)@.wf() ==> final(self)@.wf(),
    {
        self.completion = false;
        self.completion_date = None;
    }
}

/// Two tasks are equal when their contents are.
impl PartialEq for Task {
    fn eq(&self, other: &Self) -> (r: bool) {
        self.content == other.content
    }
}

impl vstd::std_specs::cmp::PartialEqSpecImpl for Task {
    open spec fn obeys_eq_spec() -> bool {
        true
    }

    open spec fn eq_spec(&self, other: &Self) -> bool {
        self@.content == other@.content
    }
}

impl Eq for Task {

}

/// Tasks are ordered by their contents.
impl PartialOrd for Task {
    fn partial_cmp(&self, other: &Self) -> (r: Option<Ordering>) {
        Some(self.comp_content(other))
    }
}

impl vstd::std_specs::cmp::PartialOrdSpecImpl for Task {
    open spec fn obeys_partial_cmp_spec() -> bool {
        true
    }

    open spec fn partial_cmp_spec(&self, other: &Self) -> Option<Ordering> {
        Some(content_order(self@, other@))
    }
}

impl View for Task {
    type V = TaskView;

    closed spec fn view(&self) -> TaskView {
        TaskView {
            content: self.content@,
            due: self.duedate,
            completion: self.completion,
            completion_date: self.completion_date,
            creation_date: self.creation_date,
            priority: self.priority,
            project_tags: texts(self.project_tags@),
            context_tags: texts(self.context_tags@),
            custom_tags: pairs(self.custom_tags@),
        }
    }
}

} // verus!
