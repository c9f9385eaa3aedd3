use todo_txt::{
    to_string, write_task_context, write_task_date, write_task_description, write_task_priority,
    write_task_project, write_task_state, Date, Task, TaskDescription, TaskPriority, TaskState,
};

#[test]
fn test_write_task_state() {
    let state = TaskState::Todo;
    let result = write_task_state(String::new(), state);
    assert_eq!(result, "");
    let state = TaskState::Done;
    let result = write_task_state(String::new(), state);
    assert_eq!(result, "x");
}

#[test]
fn test_write_task_priority() {
    let result = write_task_priority(String::new(), None);
    assert_eq!(result, "");
    let priority = TaskPriority::A;
    let result = write_task_priority(String::new(), Some(priority));
    assert_eq!(result, "(A)");
}

#[test]
fn test_write_date() {
    let result = write_task_date(String::new(), None);
    assert_eq!(result, "");
    let created_date = Date::from_ymd_opt(2021, 1, 1);
    let result = write_task_date(String::new(), created_date);
    assert_eq!(result, "2021-01-01");
}

#[test]
fn test_write_task_project() {
    let project = vec!["project".to_string()];
    let result = write_task_project(String::new(), &project);
    assert_eq!(result, "+project");
    let project: Vec<String> = vec![];
    let result = write_task_project(String::new(), &project);
    assert_eq!(result, "");
}

#[test]
fn test_write_task_context() {
    let context = vec!["context".to_string()];
    let result = write_task_context(String::new(), &context);
    assert_eq!(result, "@context");
    let context: Vec<String> = vec![];
    let result = write_task_context(String::new(), &context);
    assert_eq!(result, "");
}

#[test]
fn test_write_task_description() {
    let description = TaskDescription {
        value: "description".to_string(),
        project: vec!["project".to_string()],
        context: vec!["context".to_string()],
    };
    let result = write_task_description(String::new(), &description);
    assert_eq!(result, "description +project @context");

    let description = TaskDescription {
        value: "description".to_string(),
        project: vec![],
        context: vec![],
    };
    let result = write_task_description(String::new(), &description);
    assert_eq!(result, "description");
}

#[test]
fn ser_test_to_string() {
    let task = Task {
        state: TaskState::Todo,
        priority: None,
        completed_date: None,
        created_date: None,
        description: TaskDescription {
            value: "description".to_string(),
            project: vec!["project".to_string()],
            context: vec!["context".to_string()],
        },
    };
    let result = to_string(&task);
    assert_eq!(result, "description +project @context");
    let task = Task {
        state: TaskState::Done,
        priority: Some(TaskPriority::A),
        completed_date: Date::from_ymd_opt(2021, 1, 1),
        created_date: Date::from_ymd_opt(2021, 1, 1),
        description: TaskDescription {
            value: "description".to_string(),
            project: vec![],
            context: vec![],
        },
    };
    let result = to_string(&task);
    assert_eq!(result, "x (A) 2021-01-01 2021-01-01 description");
}
