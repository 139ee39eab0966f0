//! The four orders of tasks, and the proof that each is a total order.

use vstd::prelude::*;
use std::cmp::Ordering;
use crate::date::Date;
use crate::task::{SortTaskBy, TaskView};
use crate::text::{
    code, lemma_code_injective, lemma_lex_asymmetric, lemma_lex_irreflexive, lemma_lex_total,
    lemma_lex_transitive, lex_less,
};

verus! {

/// The order seen from the other side.
pub open spec fn flipped(o: Ordering) -> Ordering {
    match o {
        Ordering::Less => Ordering::Greater,
        Ordering::Equal => Ordering::Equal,
        Ordering::Greater => Ordering::Less,
    }
}

/// The lexicographic order of two texts.
pub open spec fn text_order(a: Seq<char>, b: Seq<char>) -> Ordering {
    if a == b {
        Ordering::Equal
    } else if lex_less(a, b) {
        Ordering::Less
    } else {
        Ordering::Greater
    }
}

/// By content alone.
pub open spec fn content_order(a: TaskView, b: TaskView) -> Ordering {
    text_order(a.content, b.content)
}

/// The order of two days in time, and `tie` where they are the same day.
pub open spec fn day_order(x: Date, y: Date, tie: Ordering) -> Ordering {
    if x == y {
        tie
    } else if x.before(&y) {
        Ordering::Less
    } else {
        Ordering::Greater
    }
}

/// By creation date, then content; a task without a creation date comes
/// before every task that has one.
pub open spec fn creation_order(a: TaskView, b: TaskView) -> Ordering {
    match (a.creation_date, b.creation_date) {
        (Some(x), Some(y)) => day_order(x, y, content_order(a, b)),
        (Some(_), None) => Ordering::Greater,
        (None, Some(_)) => Ordering::Less,
        (None, None) => content_order(a, b),
    }
}

/// By due date, then content; a task without a due date comes after every
/// task that has one.
pub open spec fn due_order(a: TaskView, b: TaskView) -> Ordering {
    match (a.due, b.due) {
        (Some(x), Some(y)) => day_order(x, y, content_order(a, b)),
        (Some(_), None) => Ordering::Less,
        (None, Some(_)) => Ordering::Greater,
        (None, None) => content_order(a, b),
    }
}

/// By priority, then due date, then content; a task without a priority
/// comes after every task that has one.
pub open spec fn priority_order(a: TaskView, b: TaskView) -> Ordering {
    match (a.priority, b.priority) {
        (Some(p), Some(q)) => if p == q {
            due_order(a, b)
        } else if code(p) < code(q) {
            Ordering::Less
        } else {
            Ordering::Greater
        },
        (Some(_), None) => Ordering::Less,
        (None, Some(_)) => Ordering::Greater,
        (None, None) => due_order(a, b),
    }
}

/// The order that `key` selects.
pub open spec fn order_by(key: SortTaskBy, a: TaskView, b: TaskView) -> Ordering {
    match key {
        SortTaskBy::Content => content_order(a, b),
        SortTaskBy::CreationDate => creation_order(a, b),
        SortTaskBy::Priority => priority_order(a, b),
        SortTaskBy::DueDate => due_order(a, b),
    }
}

/// Under each key a task is equal to itself.
pub proof fn lemma_order_reflexive(key: SortTaskBy, a: TaskView)
    ensures
        order_by(key, a, a) == Ordering::Equal,
{
}

/// Under each key, what `a` is to `b`, `b` is to `a` the other way round.
pub proof fn lemma_order_antisymmetric(key: SortTaskBy, a: TaskView, b: TaskView)
    ensures
        order_by(key, b, a) == flipped(order_by(key, a, b)),
{
    lemma_lex_total(a.content, b.content);
    if lex_less(a.content, b.content) {
        lemma_lex_asymmetric(a.content, b.content);
        lemma_lex_irreflexive(a.content);
    }
    if lex_less(b.content, a.content) {
        lemma_lex_asymmetric(b.content, a.content);
        lemma_lex_irreflexive(a.content);
    }
    if a.priority is Some && b.priority is Some && a.priority != b.priority {
        lemma_code_injective(a.priority->0, b.priority->0);
    }
}

/// Under each key the order is transitive: if `a` is not after `b` and `b`
/// is not after `c`, then `a` is not after `c`, and `a` is equal to `c` only
/// where it is equal to `b` and `b` to `c`.
pub proof fn lemma_order_transitive(key: SortTaskBy, a: TaskView, b: TaskView, c: TaskView)
    requires
        order_by(key, a, b) != Ordering::Greater,
        order_by(key, b, c) != Ordering::Greater,
    ensures
        order_by(key, a, c) != Ordering::Greater,
        order_by(key, a, c) == Ordering::Equal ==> order_by(key, a, b) == Ordering::Equal
            && order_by(key, b, c) == Ordering::Equal,
{
    lemma_text_order_total(a.content, b.content, c.content);
    if a.priority is Some && b.priority is Some && a.priority != b.priority {
        lemma_code_injective(a.priority->0, b.priority->0);
    }
    if b.priority is Some && c.priority is Some && b.priority != c.priority {
        lemma_code_injective(b.priority->0, c.priority->0);
    }
    if a.priority is Some && c.priority is Some && a.priority != c.priority {
        lemma_code_injective(a.priority->0, c.priority->0);
    }
}

/// The lexicographic order of texts is a total order.
pub proof fn lemma_text_order_total(a: Seq<char>, b: Seq<char>, c: Seq<char>)
    ensures
        text_order(a, a) == Ordering::Equal,
        text_order(b, a) == flipped(text_order(a, b)),
        text_order(a, b) != Ordering::Greater && text_order(b, c) != Ordering::Greater
            ==> text_order(a, c) != Ordering::Greater && (text_order(a, c) == Ordering::Equal
            ==> a == b && b == c),
{
    lemma_lex_irreflexive(a);
    lemma_lex_irreflexive(b);
    lemma_lex_total(a, b);
    lemma_lex_total(a, c);
    if lex_less(a, b) {
        lemma_lex_asymmetric(a, b);
        if lex_less(b, c) {
            lemma_lex_transitive(a, b, c);
        }
    }
    if lex_less(b, a) {
        lemma_lex_asymmetric(b, a);
    }
    if lex_less(a, c) {
        lemma_lex_asymmetric(a, c);
    }
}

} // verus!
