use todotxt_task::date::Date;
use todotxt_task::task::{ParseError, SortTaskBy, Task};
use std::cmp::Ordering;

fn day(year: i32, month: u32, day: u32) -> Date {
    Date { year, month, day }
}

fn parse(line: &str) -> Task {
    Task::from_todotxt(String::from(line)).unwrap()
}

fn pair(key: &str, value: &str) -> (String, String) {
    (String::from(key), String::from(value))
}

#[test]
fn one_date_is_the_creation_date() {
    let t = parse("2021-01-01 task");
    assert_eq!(t.creation_date, Some(day(2021, 1, 1)));
    assert_eq!(t.completion_date, None);
    assert_eq!(t.get_content(), "task");
}

#[test]
fn two_dates_are_completion_then_creation() {
    let t = parse("2021-01-01 2021-01-02 task");
    assert_eq!(t.completion_date, Some(day(2021, 1, 1)));
    assert_eq!(t.creation_date, Some(day(2021, 1, 2)));
    assert_eq!(t.get_content(), "task");
    assert_eq!(t.completion, false);
}

#[test]
fn no_date_leaves_both_unset() {
    let t = parse("task");
    assert_eq!(t.completion_date, None);
    assert_eq!(t.creation_date, None);
}

#[test]
fn one_date_on_a_done_task_is_still_the_creation_date() {
    let t = parse("x (C) 2021-03-04 done");
    assert_eq!(t.completion, true);
    assert_eq!(t.priority, Some('C'));
    assert_eq!(t.creation_date, Some(day(2021, 3, 4)));
    assert_eq!(t.completion_date, None);
    assert_eq!(t.get_content(), "done");
}

#[test]
fn a_third_date_belongs_to_the_content() {
    let t = parse("2021-01-01 2021-01-02 2021-01-03 task");
    assert_eq!(t.get_content(), "2021-01-03 task");
}

#[test]
fn a_line_feed_is_malformed() {
    assert_eq!(Task::from_todotxt(String::from("a\nb")).err(), Some(ParseError::Malformed));
    assert_eq!(Task::from_todotxt(String::from("\n")).err(), Some(ParseError::Malformed));
}

#[test]
fn a_date_token_that_is_no_day_is_malformed() {
    assert_eq!(
        Task::from_todotxt(String::from("2021-02-30 task")).err(),
        Some(ParseError::Malformed)
    );
    assert_eq!(
        Task::from_todotxt(String::from("2021-01-01 2021-13-01 task")).err(),
        Some(ParseError::Malformed)
    );
    assert_eq!(
        Task::from_todotxt(String::from("x (A) 2021-00-10 task")).err(),
        Some(ParseError::Malformed)
    );
    assert!(Task::from_todotxt(String::from("2020-02-29 leap")).is_ok());
    assert!(Task::from_todotxt(String::from("1900-02-29 no leap")).is_err());
    assert!(Task::from_todotxt(String::from("2000-02-29 leap")).is_ok());
}

#[test]
fn a_date_without_a_space_behind_it_is_content() {
    let t = parse("2021-02-30");
    assert_eq!(t.get_content(), "2021-02-30");
    assert_eq!(t.creation_date, None);
}

#[test]
fn the_empty_line_is_an_empty_task() {
    let t = parse("");
    assert_eq!(t.get_content(), "");
    assert_eq!(t.completion, false);
    assert_eq!(t.priority, None);
    assert!(t.get_custom_tags().is_empty());
    assert_eq!(t.to_todotxt(), "");
}

#[test]
fn a_priority_needs_a_capital_letter_and_a_space() {
    assert_eq!(parse("(a) x").priority, None);
    assert_eq!(parse("(a) x").get_content(), "(a) x");
    assert_eq!(parse("(A)x").priority, None);
    assert_eq!(parse("(Z) x").priority, Some('Z'));
    assert_eq!(parse("(AB) x").priority, None);
    assert_eq!(parse("(A) ").priority, Some('A'));
    assert_eq!(parse("(A) ").get_content(), "");
}

#[test]
fn the_mark_needs_a_space() {
    assert_eq!(parse("xylophone").completion, false);
    assert_eq!(parse("x").completion, false);
    assert_eq!(parse("x ").completion, true);
    assert_eq!(parse("x ").get_content(), "");
    assert_eq!(parse("X task").completion, false);
}

#[test]
fn trailing_pairs_leave_the_content() {
    let t = parse("call +home a:b key:value");
    assert_eq!(t.get_content(), "call +home");
    assert_eq!(*t.get_custom_tags(), vec![pair("a", "b"), pair("key", "value")]);
    assert_eq!(*t.get_project_tags(), vec!["home"]);
}

#[test]
fn a_pair_inside_the_content_stays_there() {
    let t = parse("see a:b later c:d");
    assert_eq!(t.get_content(), "see a:b later");
    assert_eq!(*t.get_custom_tags(), vec![pair("c", "d")]);
    let u = parse("see a:b later");
    assert_eq!(u.get_content(), "see a:b later");
    assert!(u.get_custom_tags().is_empty());
}

#[test]
fn words_that_are_no_pairs_end_the_block() {
    assert_eq!(parse("t a:b:c").get_content(), "t a:b:c");
    assert_eq!(parse("t :b").get_content(), "t :b");
    assert_eq!(parse("t a:").get_content(), "t a:");
    assert_eq!(parse("t  a:b").get_content(), "t ");
    assert_eq!(parse("t\ta:b").get_content(), "t\ta:b");
    assert_eq!(parse("a:b").get_content(), "a:b");
    assert_eq!(parse(" a:b").get_content(), "");
    assert_eq!(*parse(" a:b").get_custom_tags(), vec![pair("a", "b")]);
    assert_eq!(parse("t a:b ").get_content(), "t a:b ");
}

#[test]
fn a_key_that_comes_again_takes_the_later_value() {
    let t = parse("t k:1 j:2 k:3");
    assert_eq!(t.get_content(), "t");
    assert_eq!(*t.get_custom_tags(), vec![pair("k", "3"), pair("j", "2")]);
    assert_eq!(t.to_todotxt(), "t k:3 j:2");
}

#[test]
fn the_due_pair_sets_the_due_date() {
    let t = parse("pay rent due:2021-05-01");
    assert_eq!(*t.get_due(), Some(day(2021, 5, 1)));
    assert_eq!(t.get_content(), "pay rent");
    assert_eq!(*t.get_custom_tags(), vec![pair("due", "2021-05-01")]);
}

#[test]
fn a_due_pair_that_is_no_date_is_ignored() {
    for line in ["t due:tomorrow", "t due:2021-02-30", "t due:2021-1-02", "t due:2021-01-021"] {
        let t = parse(line);
        assert_eq!(*t.get_due(), None);
        assert_eq!(t.get_content(), "t");
        assert_eq!(t.get_custom_tags().len(), 1);
        assert_eq!(t.to_todotxt(), line);
    }
}

#[test]
fn tags_are_sorted_and_come_once() {
    let mut t = Task::empty();
    t.set_content(String::from("+zeta do +alpha @work and +zeta @home +Beta @work"));
    assert_eq!(*t.get_project_tags(), vec!["Beta", "alpha", "zeta"]);
    assert_eq!(*t.get_context_tags(), vec!["home", "work"]);
    t.set_content(String::from("nothing here"));
    assert!(t.get_project_tags().is_empty());
    assert!(t.get_context_tags().is_empty());
}

#[test]
fn tags_do_not_depend_on_what_was_there_before() {
    let mut a = Task::empty();
    a.set_content(String::from("+one @two"));
    a.set_content(String::from("@b +a +c"));
    let mut b = Task::empty();
    b.set_content(String::from("@b +a +c"));
    assert_eq!(a.get_project_tags(), b.get_project_tags());
    assert_eq!(a.get_context_tags(), b.get_context_tags());
    assert_eq!(*a.get_project_tags(), vec!["a", "c"]);
    assert_eq!(*a.get_context_tags(), vec!["b"]);
}

#[test]
fn a_tag_needs_a_space_before_and_a_word_behind() {
    let mut t = Task::empty();
    t.set_content(String::from("a+b + +  x\t+tab ++plus +é! mail@host +"));
    assert_eq!(*t.get_project_tags(), vec!["+plus", "é!"]);
    assert!(t.get_context_tags().is_empty());
    t.set_content(String::from("+first\u{a0}rest @at\n@no"));
    assert_eq!(*t.get_project_tags(), vec!["first"]);
    assert_eq!(*t.get_context_tags(), vec!["at"]);
}

#[test]
fn setters_leave_the_rest_alone() {
    let mut t = parse("x (B) 2021-01-02 2021-01-01 walk +dog k:v");
    t.set_content(String::from("run @park"));
    assert_eq!(t.completion, true);
    assert_eq!(t.priority, Some('B'));
    assert_eq!(t.completion_date, Some(day(2021, 1, 2)));
    assert_eq!(t.creation_date, Some(day(2021, 1, 1)));
    assert_eq!(*t.get_custom_tags(), vec![pair("k", "v")]);
    assert!(t.get_project_tags().is_empty());
    assert_eq!(*t.get_context_tags(), vec!["park"]);
    assert_eq!(t.to_todotxt(), "x (B) 2021-01-02 2021-01-01 run @park k:v");
}

#[test]
fn set_due_mirrors_the_date_in_the_pairs() {
    let mut t = parse("t a:b due:2021-01-01 c:d");
    t.set_due(Some(day(2022, 12, 31)));
    assert_eq!(*t.get_due(), Some(day(2022, 12, 31)));
    assert_eq!(
        *t.get_custom_tags(),
        vec![pair("a", "b"), pair("due", "2022-12-31"), pair("c", "d")]
    );
    t.set_due(None);
    assert_eq!(*t.get_due(), None);
    assert_eq!(*t.get_custom_tags(), vec![pair("a", "b"), pair("c", "d")]);
    t.set_due(None);
    assert_eq!(*t.get_custom_tags(), vec![pair("a", "b"), pair("c", "d")]);
    t.set_due(Some(day(5, 1, 9)));
    assert_eq!(
        *t.get_custom_tags(),
        vec![pair("a", "b"), pair("c", "d"), pair("due", "0005-01-09")]
    );
}

#[test]
fn a_far_year_is_written_with_a_sign() {
    let mut t = Task::empty();
    t.set_due(Some(day(10000, 1, 1)));
    assert_eq!(*t.get_custom_tags(), vec![pair("due", "+10000-01-01")]);
    t.set_due(Some(day(-1, 12, 31)));
    assert_eq!(*t.get_custom_tags(), vec![pair("due", "-0001-12-31")]);
}

#[test]
fn dates_of_the_calendar() {
    assert_eq!(Date::from_ymd(2024, 2, 29), Some(day(2024, 2, 29)));
    assert_eq!(Date::from_ymd(2023, 2, 29), None);
    assert_eq!(Date::from_ymd(2100, 2, 29), None);
    assert_eq!(Date::from_ymd(2000, 2, 29), Some(day(2000, 2, 29)));
    assert_eq!(Date::from_ymd(-4, 2, 29), Some(day(-4, 2, 29)));
    assert_eq!(Date::from_ymd(2021, 4, 31), None);
    assert_eq!(Date::from_ymd(2021, 0, 1), None);
    assert_eq!(Date::from_ymd(2021, 13, 1), None);
    assert_eq!(Date::from_ymd(2021, 1, 0), None);
    assert_eq!(Date::from_ymd(2021, 12, 31), Some(day(2021, 12, 31)));
    assert_eq!(Date::from_ymd(262142, 12, 31), Some(day(262142, 12, 31)));
    assert_eq!(Date::from_ymd(262143, 1, 1), None);
    assert_eq!(Date::from_ymd(-262143, 1, 1), Some(day(-262143, 1, 1)));
    assert_eq!(Date::from_ymd(-262144, 12, 31), None);
    assert_eq!(day(2021, 3, 7).format(), "2021-03-07");
    assert_eq!(day(0, 1, 1).format(), "0000-01-01");
    assert_eq!(day(999, 10, 10).format(), "0999-10-10");
    assert!(day(2021, 3, 7).is_before(&day(2021, 3, 8)));
    assert!(day(2021, 3, 7).is_before(&day(2021, 4, 1)));
    assert!(day(2020, 12, 31).is_before(&day(2021, 1, 1)));
    assert!(!day(2021, 3, 7).is_before(&day(2021, 3, 7)));
    assert!(!day(2021, 3, 8).is_before(&day(2021, 3, 7)));
}

#[test]
fn new_stamps_a_day_of_the_calendar() {
    let t = Task::new(String::from("write +tests"));
    let d = t.creation_date.unwrap();
    assert_eq!(Date::from_ymd(d.year, d.month, d.day), Some(d));
    assert!(d.year >= 2024);
    assert_eq!(t.get_content(), "write +tests");
    assert_eq!(*t.get_project_tags(), vec!["tests"]);
    assert_eq!(t.completion, false);
    assert_eq!(t.completion_date, None);
    assert_eq!(t.priority, None);
    assert_eq!(*t.get_due(), None);
    assert!(t.get_custom_tags().is_empty());
}

#[test]
fn new_on_and_new_with_date() {
    let t = Task::new_on(String::from("a @b"), day(2021, 6, 7));
    assert_eq!(t.creation_date, Some(day(2021, 6, 7)));
    assert_eq!(t.to_todotxt(), "2021-06-07 a @b");
    let u = Task::new_with_date(String::from("c"), day(2030, 1, 2));
    assert_eq!(*u.get_due(), Some(day(2030, 1, 2)));
    assert!(u.creation_date.is_some());
    assert_eq!(*u.get_custom_tags(), vec![pair("due", "2030-01-02")]);
}

#[test]
fn completion_keeps_a_creation_date() {
    let mut t = Task::empty();
    t.set_completed_on(day(2021, 5, 5));
    assert_eq!(t.completion, true);
    assert_eq!(t.completion_date, Some(day(2021, 5, 5)));
    assert_eq!(t.creation_date, Some(day(2021, 5, 5)));
    t.set_completed_on(day(2021, 6, 6));
    assert_eq!(t.completion_date, Some(day(2021, 6, 6)));
    assert_eq!(t.creation_date, Some(day(2021, 5, 5)));
    t.set_not_completed();
    assert_eq!(t.completion, false);
    assert_eq!(t.completion_date, None);
    assert_eq!(t.creation_date, Some(day(2021, 5, 5)));
    t.set_completed();
    t.set_due(None);
    t.set_content(String::from("z"));
    assert!(t.completion_date.is_some() && t.creation_date.is_some());
}

#[test]
fn the_task_line() {
    let mut t = Task::new_on(String::from("buy milk @shop"), day(2021, 2, 3));
    assert_eq!(t.to_todotxt(), "2021-02-03 buy milk @shop");
    t.priority = Some('C');
    t.set_due(Some(day(2021, 2, 10)));
    assert_eq!(t.to_todotxt(), "(C) 2021-02-03 buy milk @shop due:2021-02-10");
    t.set_completed_on(day(2021, 2, 4));
    assert_eq!(t.to_todotxt(), "x (C) 2021-02-04 2021-02-03 buy milk @shop due:2021-02-10");
    assert_eq!(Task::empty().to_todotxt(), "");
}

#[test]
fn the_short_form() {
    let mut t = Task::new_on(String::from("buy milk"), day(2021, 2, 3));
    assert_eq!(t.to_string(), "buy milk");
    t.priority = Some('A');
    assert_eq!(t.to_string(), "(A) buy milk");
    t.set_due(Some(day(2021, 2, 10)));
    assert_eq!(t.to_string(), "(A) 2021-02-10 : buy milk");
    t.priority = None;
    assert_eq!(t.to_string(), "2021-02-10 : buy milk");
}

#[test]
fn the_full_description() {
    let mut t = Task::new_on(String::from("buy milk @shop +home @car"), day(2021, 2, 3));
    assert_eq!(
        t.recap_str(),
        "𝐓𝐚𝐬𝐤 : buy milk @shop +home @car\n𝐒𝐭𝐚𝐭𝐮𝐬 : To do\n𝐂𝐫𝐞𝐚𝐭𝐞𝐝 𝐨𝐧 : 2021-02-03\n𝐂𝐨𝐧𝐭𝐞𝐱𝐭 𝐭𝐚𝐠𝐬 : car, shop\n𝐏𝐫𝐨𝐣𝐞𝐜𝐭 𝐭𝐚𝐠𝐬 : home"
    );
    t.priority = Some('B');
    t.set_due(Some(day(2021, 3, 1)));
    t.set_completed_on(day(2021, 2, 5));
    assert_eq!(
        t.recap_str(),
        "𝐓𝐚𝐬𝐤 : buy milk @shop +home @car\n𝐒𝐭𝐚𝐭𝐮𝐬 : Done (2021-02-05)\n𝐏𝐫𝐢𝐨𝐫𝐢𝐭𝐲 : B\n𝐂𝐫𝐞𝐚𝐭𝐞𝐝 𝐨𝐧 : 2021-02-03\n𝐃𝐮𝐞 𝐝𝐚𝐭𝐞 : 2021-03-01\n𝐂𝐨𝐧𝐭𝐞𝐱𝐭 𝐭𝐚𝐠𝐬 : car, shop\n𝐏𝐫𝐨𝐣𝐞𝐜𝐭 𝐭𝐚𝐠𝐬 : home"
    );
    assert_eq!(Task::empty().recap_str(), "𝐓𝐚𝐬𝐤 : \n𝐒𝐭𝐚𝐭𝐮𝐬 : To do");
    let mut done = Task::empty();
    done.completion = true;
    assert_eq!(done.recap_str(), "𝐓𝐚𝐬𝐤 : \n𝐒𝐭𝐚𝐭𝐮𝐬 : Done");
}

#[test]
fn a_task_line_read_back_gives_the_same_task() {
    let mut t = Task::new_on(String::from("water the +garden @home"), day(2021, 7, 1));
    t.priority = Some('D');
    t.set_due(Some(day(2021, 7, 15)));
    t.set_completed_on(day(2021, 7, 2));
    let back = Task::from_todotxt(t.to_todotxt()).unwrap();
    assert_eq!(back.completion, t.completion);
    assert_eq!(back.priority, t.priority);
    assert_eq!(back.completion_date, t.completion_date);
    assert_eq!(back.creation_date, t.creation_date);
    assert_eq!(back.get_due(), t.get_due());
    assert_eq!(back.get_content(), t.get_content());
    assert_eq!(back.get_custom_tags(), t.get_custom_tags());
    assert_eq!(back.get_project_tags(), t.get_project_tags());
    assert_eq!(back.get_context_tags(), t.get_context_tags());
    assert_eq!(back.to_todotxt(), t.to_todotxt());

    let fresh = Task::new(String::from("plain"));
    let again = Task::from_todotxt(fresh.to_todotxt()).unwrap();
    assert_eq!(again.creation_date, fresh.creation_date);
    assert_eq!(again.get_content(), fresh.get_content());
}

#[test]
fn lines_are_written_as_they_were_read() {
    for line in [
        "x (A) 2021-01-02 2021-01-01 call +mom @phone due:2021-02-01 note:later",
        "(Z) 2020-02-29 leap",
        "x done",
        "just text",
        "t k:v",
    ] {
        assert_eq!(parse(line).to_todotxt(), line);
    }
}

#[test]
fn due_order_puts_dated_tasks_first() {
    let a = parse("a task due:2021-01-02");
    let b = parse("another task due:2021-01-01");
    let c = parse("no date");
    assert_eq!(a.comp_due_date(&b), Ordering::Greater);
    assert_eq!(a.comp_due_date(&c), Ordering::Less);
    assert_eq!(c.comp_due_date(&a), Ordering::Greater);
    assert_eq!(c.comp_due_date(&parse("no date at all")), Ordering::Less);
    assert_eq!(a.comp_due_date(&a), Ordering::Equal);
}

#[test]
fn creation_order_puts_undated_tasks_first() {
    let a = parse("2021-01-02 a");
    let b = parse("2021-01-01 b");
    let c = parse("c");
    assert_eq!(a.comp_creation_date(&b), Ordering::Greater);
    assert_eq!(b.comp_creation_date(&a), Ordering::Less);
    assert_eq!(a.comp_creation_date(&c), Ordering::Greater);
    assert_eq!(c.comp_creation_date(&a), Ordering::Less);
    assert_eq!(parse("2021-01-02 a").comp_creation_date(&parse("2021-01-02 b")), Ordering::Less);
    assert_eq!(a.comp_creation_date(&a), Ordering::Equal);
}

#[test]
fn priority_order_puts_prioritized_tasks_first() {
    let a = parse("(A) z");
    let b = parse("(B) a");
    let n = parse("a");
    assert_eq!(a.comp_priority(&b), Ordering::Less);
    assert_eq!(b.comp_priority(&a), Ordering::Greater);
    assert_eq!(a.comp_priority(&n), Ordering::Less);
    assert_eq!(n.comp_priority(&a), Ordering::Greater);
    assert_eq!(parse("(A) t due:2021-01-02").comp_priority(&parse("(A) s due:2021-01-03")), Ordering::Less);
    assert_eq!(parse("(A) t").comp_priority(&parse("(A) s due:2021-01-03")), Ordering::Greater);
    assert_eq!(parse("b").comp_priority(&parse("a due:2021-01-03")), Ordering::Greater);
    assert_eq!(n.comp_priority(&parse("b")), Ordering::Less);
}

#[test]
fn content_order_is_by_code_point() {
    let cases = [
        ("", "", Ordering::Equal),
        ("", "a", Ordering::Less),
        ("a", "ab", Ordering::Less),
        ("ab", "b", Ordering::Less),
        ("B", "a", Ordering::Less),
        ("z", "é", Ordering::Less),
        ("\u{ffff}", "\u{10000}", Ordering::Less),
        ("same", "same", Ordering::Equal),
        ("b", "a", Ordering::Greater),
    ];
    for (x, y, want) in cases {
        let mut a = Task::empty();
        a.set_content(String::from(x));
        let mut b = Task::empty();
        b.set_content(String::from(y));
        assert_eq!(a.comp_content(&b), want);
        assert_eq!(a.comp_content(&b), x.cmp(y));
        assert_eq!(b.comp_content(&a), want.reverse());
    }
}

#[test]
fn each_order_is_a_total_order_on_a_sample() {
    let lines = [
        "a",
        "b",
        "(A) a",
        "(B) a",
        "(A) b due:2021-01-01",
        "2021-01-01 a",
        "2021-01-02 a due:2021-01-01",
        "x 2021-01-03 2021-01-02 c due:2020-12-31",
        "(C) 2021-01-01 a due:2021-01-05",
        "a due:2021-01-05",
    ];
    let tasks: Vec<Task> = lines.iter().map(|l| parse(l)).collect();
    let keys = [
        SortTaskBy::Content,
        SortTaskBy::CreationDate,
        SortTaskBy::Priority,
        SortTaskBy::DueDate,
    ];
    for key in keys.iter() {
        for a in tasks.iter() {
            assert_eq!(a._comp(a, key), Ordering::Equal);
            for b in tasks.iter() {
                assert_eq!(a._comp(b, key), b._comp(a, key).reverse());
                for c in tasks.iter() {
                    if a._comp(b, key) != Ordering::Greater && b._comp(c, key) != Ordering::Greater {
                        assert_ne!(a._comp(c, key), Ordering::Greater);
                    }
                }
            }
        }
    }
}

#[test]
fn the_key_selects_the_order() {
    let a = parse("(B) 2021-01-01 b due:2021-01-09");
    let b = parse("(A) 2021-01-02 a due:2021-01-08");
    assert_eq!(a._comp(&b, &SortTaskBy::Content), a.comp_content(&b));
    assert_eq!(a._comp(&b, &SortTaskBy::CreationDate), Ordering::Less);
    assert_eq!(a._comp(&b, &SortTaskBy::Priority), Ordering::Greater);
    assert_eq!(a._comp(&b, &SortTaskBy::DueDate), Ordering::Greater);
    assert_eq!(a._comp(&b, &SortTaskBy::Content), Ordering::Greater);
}

#[test]
fn tasks_are_equal_and_ordered_by_content() {
    let a = parse("(A) 2021-01-01 same k:v");
    let b = parse("x same");
    let c = parse("(A) 2021-01-01 other k:v");
    assert!(a == b);
    assert!(a != c);
    assert!(c < a);
    assert!(a > c);
    assert_eq!(a.partial_cmp(&b), Some(Ordering::Equal));
    assert_eq!(c.partial_cmp(&a), Some(Ordering::Less));
}

#[test]
fn fields_can_be_read_and_the_priority_set() {
    let mut t = parse("x (B) 2021-01-02 2021-01-01 walk");
    assert_eq!(t.get_priority(), Some('B'));
    assert!(t.is_completed());
    assert_eq!(t.get_completion_date(), Some(day(2021, 1, 2)));
    assert_eq!(t.get_creation_date(), Some(day(2021, 1, 1)));
    t.set_priority(None);
    assert_eq!(t.get_priority(), None);
    assert_eq!(t.to_todotxt(), "x 2021-01-02 2021-01-01 walk");
    t.set_priority(Some('Q'));
    assert_eq!(t.priority, Some('Q'));
    assert_eq!(t.to_todotxt(), "x (Q) 2021-01-02 2021-01-01 walk");
}

#[test]
fn a_content_that_starts_like_a_date_is_read_as_one() {
    let t = Task::new_on(String::from("2021-01-01 foo"), day(2022, 2, 2));
    assert_eq!(t.to_todotxt(), "2022-02-02 2021-01-01 foo");
    let back = Task::from_todotxt(t.to_todotxt()).unwrap();
    assert_eq!(back.completion_date, Some(day(2022, 2, 2)));
    assert_eq!(back.creation_date, Some(day(2021, 1, 1)));
    assert_eq!(back.get_content(), "foo");
}

#[test]
fn a_content_that_ends_in_a_pair_loses_it_to_the_pairs() {
    let t = Task::new_on(String::from("see a:b"), day(2022, 2, 2));
    assert!(t.get_custom_tags().is_empty());
    let back = Task::from_todotxt(t.to_todotxt()).unwrap();
    assert_eq!(back.get_content(), "see");
    assert_eq!(*back.get_custom_tags(), vec![pair("a", "b")]);
}

#[test]
fn years_outside_four_digits_carry_a_sign() {
    assert_eq!(day(10000, 1, 1).format(), "+10000-01-01");
    assert_eq!(day(12345, 10, 31).format(), "+12345-10-31");
    assert_eq!(day(262142, 12, 31).format(), "+262142-12-31");
    assert_eq!(day(-1, 1, 1).format(), "-0001-01-01");
    assert_eq!(day(-12, 3, 4).format(), "-0012-03-04");
    assert_eq!(day(-999, 1, 1).format(), "-0999-01-01");
    assert_eq!(day(-1000, 1, 1).format(), "-1000-01-01");
    assert_eq!(day(-9999, 12, 9).format(), "-9999-12-09");
    assert_eq!(day(-10000, 1, 1).format(), "-10000-01-01");
    assert_eq!(day(-262143, 1, 1).format(), "-262143-01-01");
    assert_eq!(day(9999, 12, 31).format(), "9999-12-31");
    assert_eq!(day(0, 2, 29).format(), "0000-02-29");
}
