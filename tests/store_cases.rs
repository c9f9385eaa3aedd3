use todo_txt::{
    filter_tasks, from_str, read_tasks, sort_tasks, to_string, write_tasks, Date, Error, Filter,
    Order, OrderOption, Task, TaskDescription, TaskPriority, TaskState, TodoManager,
};

fn task(line: &str) -> Task {
    from_str(line).unwrap()
}

fn store() -> TodoManager {
    TodoManager::new(
        vec![task("(B) first"), task("buy milk"), task("(A) third +home")],
        vec![task("x 2020-01-05 2020-01-01 done one"), task("x 2020-02-01 2020-01-02 done two")],
    )
}

fn lines(m: &TodoManager) -> Vec<String> {
    m.list(Filter::default(), Order::default())
        .into_iter()
        .map(|(i, t)| format!("{} {}", i, to_string(&t)))
        .collect()
}

#[test]
fn list_numbers_open_then_completed() {
    let m = store();
    assert_eq!(
        lines(&m),
        vec![
            "1 (B) first",
            "2 buy milk",
            "3 (A) third +home",
            "4 x 2020-01-05 2020-01-01 done one",
            "5 x 2020-02-01 2020-01-02 done two",
        ]
    );
}

#[test]
fn filter_keeps_identifiers() {
    let m = store();
    let f = Filter { state: Some(TaskState::Todo), priority: None, project: None, context: None };
    let ids: Vec<usize> = m.list(f, Order::default()).iter().map(|e| e.0).collect();
    assert_eq!(ids, vec![1, 2, 3]);
    let f = Filter {
        state: None,
        priority: Some(vec![TaskPriority::A, TaskPriority::C]),
        project: None,
        context: None,
    };
    let ids: Vec<usize> = m.list(f, Order::default()).iter().map(|e| e.0).collect();
    assert_eq!(ids, vec![3]);
    let f = Filter {
        state: None,
        priority: None,
        project: Some(vec!["home".to_string()]),
        context: None,
    };
    let ids: Vec<usize> = m.list(f, Order::default()).iter().map(|e| e.0).collect();
    assert_eq!(ids, vec![3]);
}

#[test]
fn order_first_key_most_significant() {
    let m = store();
    let o = Order { by: Some(vec![OrderOption::Priority]), reverse: false };
    let ids: Vec<usize> = m.list(Filter::default(), o).iter().map(|e| e.0).collect();
    assert_eq!(ids, vec![2, 4, 5, 3, 1]);
    let o = Order { by: Some(vec![OrderOption::State, OrderOption::Priority]), reverse: false };
    let ids: Vec<usize> = m.list(Filter::default(), o).iter().map(|e| e.0).collect();
    assert_eq!(ids, vec![2, 3, 1, 4, 5]);
    let o = Order { by: Some(vec![OrderOption::CompletedDate]), reverse: false };
    let ids: Vec<usize> = m.list(Filter::default(), o).iter().map(|e| e.0).collect();
    assert_eq!(ids, vec![5, 4, 1, 2, 3]);
    let o = Order { by: Some(vec![OrderOption::CreatedDate]), reverse: true };
    let ids: Vec<usize> = m.list(Filter::default(), o).iter().map(|e| e.0).collect();
    assert_eq!(ids, vec![3, 2, 1, 4, 5]);
}

#[test]
fn sort_and_filter_functions() {
    let entries = vec![(1, task("(C) a")), (2, task("(A) b")), (3, task("c"))];
    let sorted = sort_tasks(entries, &Order { by: Some(vec![OrderOption::Priority]), reverse: true });
    let ids: Vec<usize> = sorted.iter().map(|e| e.0).collect();
    assert_eq!(ids, vec![1, 2, 3]);
    let kept = filter_tasks(sorted, &Filter { state: None, priority: Some(vec![]), project: None, context: None });
    assert!(kept.is_empty());
}

#[test]
fn append_adds_text_and_tags() {
    let mut m = store();
    let extra = task("extra +tag");
    let (id, t) = m.append(2, extra.description).unwrap();
    assert_eq!(id, 2);
    assert_eq!(t.description.value, "buy milk extra");
    assert_eq!(t.description.project, vec!["tag".to_string()]);
    assert_eq!(lines(&m)[1], "2 buy milk extra +tag");
    assert_eq!(m.todos.len(), 3);
    assert_eq!(m.dones.len(), 2);
}

#[test]
fn append_skips_known_tags_and_empty_text() {
    let mut m = store();
    let extra = TaskDescription { value: String::new(), project: vec!["home".to_string(), "new".to_string()], context: vec![] };
    let (_, t) = m.append(3, extra).unwrap();
    assert_eq!(t.description.value, "third");
    assert_eq!(t.description.project, vec!["home".to_string(), "new".to_string()]);
}

#[test]
fn delete_shifts_later_identifiers() {
    let mut m = store();
    let gone = m.delete(2).unwrap();
    assert_eq!(gone.description.value, "buy milk");
    let after = lines(&m);
    assert_eq!(after.len(), 4);
    assert_eq!(after[1], "2 (A) third +home");
    assert!(after.iter().all(|l| !l.contains("buy milk")));
}

#[test]
fn invalid_identifiers_are_refused() {
    let mut m = store();
    assert!(matches!(m.delete(0), Err(Error::InvalidIndex)));
    assert!(matches!(m.delete(6), Err(Error::InvalidIndex)));
    assert!(matches!(m.set_priority(9, None), Err(Error::InvalidIndex)));
    assert!(matches!(m.append(0, TaskDescription::default()), Err(Error::InvalidIndex)));
    assert_eq!(lines(&m).len(), 5);
}

#[test]
fn marking_done_moves_record_to_completed() {
    let mut m = store();
    let today = Date::from_ymd_opt(2022, 3, 4).unwrap();
    let (id, t) = m.update_state(1, true, today).unwrap();
    assert_eq!(id, 1);
    assert_eq!(t.state, TaskState::Done);
    assert_eq!(t.completed_date, Some(today));
    assert_eq!(m.todos.len(), 2);
    assert_eq!(m.dones.len(), 3);
    assert_eq!(lines(&m)[2], "3 x (B) 2022-03-04 first");
}

#[test]
fn marking_open_keeps_completion_as_creation() {
    let mut m = TodoManager::new(vec![], vec![task("x 2020-01-05 done")]);
    let today = Date::from_ymd_opt(2022, 3, 4).unwrap();
    let (_, t) = m.update_state(1, false, today).unwrap();
    assert_eq!(t.state, TaskState::Todo);
    assert_eq!(t.completed_date, None);
    assert_eq!(t.created_date, Date::from_ymd_opt(2020, 1, 5));
    assert_eq!(m.todos.len(), 1);
}

#[test]
fn set_priority_and_replace() {
    let mut m = store();
    let (_, t) = m.set_priority(2, Some(TaskPriority::D)).unwrap();
    assert_eq!(to_string(&t), "(D) buy milk");
    let today = Date::from_ymd_opt(2022, 3, 4).unwrap();
    let (id, old, new) = m.replace(1, task("x new text"), today).unwrap();
    assert_eq!(id, 1);
    assert_eq!(old.description.value, "first");
    assert_eq!(to_string(&new), "x 2022-03-04 2022-03-04 new text");
    assert_eq!(m.dones.len(), 3);
}

#[test]
fn add_fills_missing_dates() {
    let mut m = store();
    let today = Date::from_ymd_opt(2022, 3, 4).unwrap();
    let t = m.add(task("new one"), today);
    assert_eq!(to_string(&t), "2022-03-04 new one");
    assert_eq!(m.todos.len(), 4);
    let t = m.add(task("x 2019-01-01 2018-01-01 old"), today);
    assert_eq!(to_string(&t), "x 2019-01-01 2018-01-01 old");
    assert_eq!(m.dones.len(), 3);
}

#[test]
fn read_and_write_lines() {
    let read = read_tasks(&vec!["a +p\n".to_string(), "x b\n".to_string()]).unwrap();
    assert_eq!(read.len(), 2);
    assert_eq!(write_tasks(&read), vec!["a +p".to_string(), "x b".to_string()]);
    let read = read_tasks(&vec!["a\n".to_string(), "\n".to_string(), "b\n".to_string()]).unwrap();
    assert_eq!(read.len(), 1);
    let read = read_tasks(&vec!["a\r\n".to_string(), "\r\n".to_string()]).unwrap();
    assert_eq!(read.len(), 1);
    assert!(matches!(read_tasks(&vec!["a\n".to_string(), "x\n".to_string()]), Err(Error::Syntax)));
}
