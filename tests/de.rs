use todo_txt::{from_str, Date, Task, TaskDescription, TaskPriority, TaskState};

#[test]
fn de_test_from_str_fully() {
    let task = from_str(
        "x (A) 2020-01-01 2020-01-02 123 +project +project2 @context @ctx2 abc description",
    );
    assert!(task.is_ok());
    let task = task.unwrap();
    assert_eq!(
        task,
        Task {
            state: TaskState::Done,
            priority: Some(TaskPriority::A),
            completed_date: Date::from_ymd_opt(2020, 1, 1),
            created_date: Date::from_ymd_opt(2020, 1, 2),
            description: TaskDescription {
                value: "123 abc description".to_string(),
                project: vec!["project".to_string(), "project2".to_string()],
                context: vec!["context".to_string(), "ctx2".to_string()],
            }
        }
    )
}

#[test]
fn de_test_from_str_minimal() {
    let task = from_str("description");
    assert!(task.is_ok());
    let task = task.unwrap();
    assert_eq!(
        task,
        Task {
            state: TaskState::Todo,
            priority: None,
            completed_date: None,
            created_date: None,
            description: TaskDescription {
                value: "description".to_string(),
                project: Vec::new(),
                context: Vec::new(),
            }
        }
    );
    let task = from_str("x description");
    assert!(task.is_ok());
    let task = task.unwrap();
    assert_eq!(
        task,
        Task {
            state: TaskState::Done,
            priority: None,
            completed_date: None,
            created_date: None,
            description: TaskDescription {
                value: "description".to_string(),
                project: Vec::new(),
                context: Vec::new(),
            }
        }
    )
}
