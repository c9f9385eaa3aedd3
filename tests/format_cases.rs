use todo_txt::{
    distinct_vec_hold_order, from_str, to_string, Date, Error, TaskPriority, TaskState,
};

fn texts(v: &[&str]) -> Vec<String> {
    v.iter().map(|s| s.to_string()).collect()
}

#[test]
fn empty_and_blank_lines_are_syntax_errors() {
    assert!(matches!(from_str(""), Err(Error::Syntax)));
    assert!(matches!(from_str("   "), Err(Error::Syntax)));
}

#[test]
fn line_without_description_is_rejected() {
    assert!(matches!(from_str("x (A) 2020-01-01 +p @c"), Err(Error::Syntax)));
    assert!(matches!(from_str("+p +q"), Err(Error::Syntax)));
    assert!(matches!(from_str("x"), Err(Error::Syntax)));
}

#[test]
fn marker_priority_or_date_in_body_is_rejected() {
    assert!(matches!(from_str("buy x"), Err(Error::Syntax)));
    assert!(matches!(from_str("buy (B) milk"), Err(Error::Syntax)));
    assert!(matches!(from_str("buy 2020-01-01"), Err(Error::Syntax)));
}

#[test]
fn only_a_letter_makes_a_priority() {
    let t = from_str("(() task").unwrap();
    assert_eq!(t.priority, None);
    assert_eq!(t.description.value, "(() task");
    let t = from_str("(()").unwrap();
    assert_eq!(t.description.value, "(()");
    let t = from_str("(1) task").unwrap();
    assert_eq!(t.priority, None);
    assert_eq!(t.description.value, "(1) task");
    let t = from_str("buy (1) milk").unwrap();
    assert_eq!(t.description.value, "buy (1) milk");
}

#[test]
fn repeated_tags_keep_first_occurrence() {
    let t = from_str("task +p +p +q").unwrap();
    assert_eq!(t.description.project, texts(&["p", "q"]));
    let t = from_str("task @b @a @b").unwrap();
    assert_eq!(t.description.context, texts(&["b", "a"]));
    let d = distinct_vec_hold_order(texts(&["p", "q", "p", "r", "q"]));
    assert_eq!(d, texts(&["p", "q", "r"]));
}

#[test]
fn one_tag_sigil_is_stripped() {
    let t = from_str("task ++p @@c").unwrap();
    assert_eq!(t.description.project, texts(&["+p"]));
    assert_eq!(t.description.context, texts(&["@c"]));
    let t = from_str("task ++2020-01-01").unwrap();
    assert_eq!(t.description.project, texts(&["+2020-01-01"]));
    assert_eq!(from_str(&to_string(&t)).unwrap(), t);
}

#[test]
fn date_table_completed_one_date() {
    let t = from_str("x 2020-03-04 task").unwrap();
    assert_eq!(t.state, TaskState::Done);
    assert_eq!(t.completed_date, Date::from_ymd_opt(2020, 3, 4));
    assert_eq!(t.created_date, None);
}

#[test]
fn date_table_open_one_date() {
    let t = from_str("2020-03-04 task").unwrap();
    assert_eq!(t.state, TaskState::Todo);
    assert_eq!(t.completed_date, None);
    assert_eq!(t.created_date, Date::from_ymd_opt(2020, 3, 4));
}

#[test]
fn date_table_two_dates() {
    let t = from_str("2020-03-04 2019-01-02 task").unwrap();
    assert_eq!(t.completed_date, Date::from_ymd_opt(2020, 3, 4));
    assert_eq!(t.created_date, Date::from_ymd_opt(2019, 1, 2));
    let t = from_str("x 2020-03-04 2019-01-02 task").unwrap();
    assert_eq!(t.completed_date, Date::from_ymd_opt(2020, 3, 4));
    assert_eq!(t.created_date, Date::from_ymd_opt(2019, 1, 2));
}

#[test]
fn date_table_no_dates() {
    let t = from_str("x (C) task").unwrap();
    assert_eq!(t.priority, Some(TaskPriority::C));
    assert_eq!(t.completed_date, None);
    assert_eq!(t.created_date, None);
}

#[test]
fn lower_case_and_odd_priorities() {
    assert_eq!(from_str("(b) task").unwrap().priority, Some(TaskPriority::B));
    assert_eq!(from_str("x (z) task").unwrap().priority, Some(TaskPriority::Z));
}

#[test]
fn description_keeps_inner_spacing() {
    let t = from_str("  a  b  ").unwrap();
    assert_eq!(t.description.value, "a  b");
    let t = from_str("+p  a").unwrap();
    assert_eq!(t.description.value, "a");
}

#[test]
fn line_endings_are_trimmed() {
    let t = from_str("\tx task +p\n").unwrap();
    assert_eq!(t.state, TaskState::Done);
    assert_eq!(t.description.value, "task");
}

#[test]
fn round_trip_of_parsed_records() {
    for line in [
        "x (A) 2020-01-01 2020-01-02 123 +project +project2 @context @ctx2 abc description",
        "2021-05-06 call mom @phone",
        "x 2021-05-06 done thing",
        "(Z) a  b +p",
        "x (b) 0999-12-31 2000-02-29 old +p +p @c",
    ] {
        let t = from_str(line).unwrap();
        let text = to_string(&t);
        let again = from_str(&text).unwrap();
        assert_eq!(again, t);
        assert_eq!(to_string(&again), text);
    }
}

#[test]
fn serialization_is_canonical() {
    let t = from_str("+p task @c more 2020-01-01").err();
    assert!(matches!(t, Some(Error::Syntax)));
    let t = from_str("2020-01-01 +p task @c more").unwrap();
    assert_eq!(to_string(&t), "2020-01-01 task more +p @c");
}

#[test]
fn priority_conversions() {
    assert_eq!(char::from(TaskPriority::C), 'C');
    assert_eq!(char::from(TaskPriority::Z), 'Z');
    assert_eq!(TaskPriority::from('c'), TaskPriority::C);
    assert_eq!(TaskPriority::from('Q'), TaskPriority::Q);
    assert_eq!(TaskPriority::from('1'), TaskPriority::A);
    assert_eq!(TaskPriority::from(3), TaskPriority::C);
    assert_eq!(TaskPriority::from(26), TaskPriority::Z);
    assert_eq!(TaskPriority::from(0), TaskPriority::A);
    assert_eq!(TaskPriority::default(), TaskPriority::A);
    assert_eq!(TaskState::default(), TaskState::Todo);
}

#[test]
fn dates_are_validated() {
    assert!(Date::from_ymd_opt(2020, 2, 29).is_some());
    assert!(Date::from_ymd_opt(2021, 2, 29).is_none());
    assert!(Date::from_ymd_opt(1900, 2, 29).is_none());
    assert!(Date::from_ymd_opt(2000, 2, 29).is_some());
    assert!(Date::from_ymd_opt(2020, 4, 31).is_none());
    assert!(Date::from_ymd_opt(2020, 13, 1).is_none());
    assert!(Date::from_ymd_opt(2020, 1, 0).is_none());
    assert!(Date::from_ymd_opt(262143, 1, 1).is_none());
}

#[test]
fn date_text_and_reading() {
    let d = Date::from_ymd_opt(999, 1, 2).unwrap();
    assert_eq!(d.to_text(), "0999-01-02");
    let d = Date::from_ymd_opt(12345, 11, 30).unwrap();
    assert_eq!(d.to_text(), "+12345-11-30");
    let d = Date::from_ymd_opt(-5, 6, 7).unwrap();
    assert_eq!(d.to_text(), "-0005-06-07");
    let p = Date::parse("2020-03-04").unwrap();
    assert_eq!((p.year(), p.month(), p.day()), (2020, 3, 4));
    let p = Date::parse("2020-3-4").unwrap();
    assert_eq!((p.year(), p.month(), p.day()), (2020, 3, 4));
    assert!(Date::parse("2020-02-30").is_none());
    assert!(Date::parse("@2020-01-01").is_none());
    assert!(Date::parse("word").is_none());
    assert!(Date::parse("123").is_none());
    assert!(Date::parse("+project").is_none());
    assert!(Date::parse("2020-01-01x").is_none());
    let p = Date::parse("\t2020-01- 5").unwrap();
    assert_eq!((p.year(), p.month(), p.day()), (2020, 1, 5));
    let p = Date::parse("+12345-11-30").unwrap();
    assert_eq!(p.year(), 12345);
    assert!(Date::parse("12345-11-30").is_none());
}

#[test]
fn dates_compare_chronologically() {
    let a = Date::from_ymd_opt(2020, 1, 2).unwrap();
    let b = Date::from_ymd_opt(2020, 2, 1).unwrap();
    assert!(a.is_on_or_before(&b));
    assert!(!b.is_on_or_before(&a));
}
