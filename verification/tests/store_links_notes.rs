use rustic_boards::error::AppError;
use rustic_boards::links::TaskToSubtaskMap;
use rustic_boards::notes::TaskNotes;
use rustic_boards::store::Store;
use rustic_boards::tasks::TaskItem;
use rustic_boards::utils::{TaskPriority, TaskStatus, TimeStamp};

fn sample_task(id: &str) -> TaskItem {
    TaskItem {
        task_id: id.to_string(),
        task_name: "sample".to_string(),
        task_description: "a sample task".to_string(),
        task_added_on: TimeStamp {
            year: 2024,
            month: 3,
            day: 9,
        },
        task_started_on: None,
        task_deadline: Some(TimeStamp {
            year: 2024,
            month: 4,
            day: 1,
        }),
        task_completed_on: None,
        task_status: TaskStatus::ToDo,
        task_priority: TaskPriority::Medium,
    }
}

#[test]
fn put_get_round_trip() {
    let mut store: Store<TaskItem> = Store::new();
    let original = sample_task("TASK-00001");
    store.put("TASK-00001".to_string(), original);
    let read = store.get(&"TASK-00001".to_string()).unwrap();
    let expected = sample_task("TASK-00001");
    assert_eq!(read.task_id, expected.task_id);
    assert_eq!(read.task_name, expected.task_name);
    assert_eq!(read.task_description, expected.task_description);
    assert_eq!(read.task_added_on, expected.task_added_on);
    assert_eq!(read.task_started_on, expected.task_started_on);
    assert_eq!(read.task_deadline, expected.task_deadline);
    assert_eq!(read.task_completed_on, expected.task_completed_on);
    assert_eq!(read.task_status, expected.task_status);
    assert_eq!(read.task_priority, expected.task_priority);
}

#[test]
fn put_overwrites_prior_record() {
    let mut store: Store<TaskItem> = Store::new();
    store.put("TASK-00001".to_string(), sample_task("TASK-00001"));
    let mut newer = sample_task("TASK-00001");
    newer.task_name = "renamed".to_string();
    store.put("TASK-00001".to_string(), newer);
    let read = store.get(&"TASK-00001".to_string()).unwrap();
    assert_eq!(read.task_name, "renamed");
}

#[test]
fn get_missing_record_fails() {
    let store: Store<TaskItem> = Store::new();
    let r = store.get(&"TASK-00009".to_string());
    assert!(matches!(r, Err(AppError::FileReadError(_))));
}

#[test]
fn delete_record() {
    let mut store: Store<TaskItem> = Store::new();
    store.put("TASK-00001".to_string(), sample_task("TASK-00001"));
    assert!(store.contains(&"TASK-00001".to_string()));
    store.delete(&"TASK-00001".to_string()).unwrap();
    assert!(!store.contains(&"TASK-00001".to_string()));
    let r = store.delete(&"TASK-00001".to_string());
    assert!(matches!(r, Err(AppError::FileDeleteError(_))));
}

#[test]
fn add_new_link_appends_in_order() {
    let mut links = TaskToSubtaskMap::new();
    links
        .add_new_link(
            "TASK-00001".to_string(),
            &vec!["SUBTASK-00001".to_string(), "SUBTASK-00002".to_string()],
        )
        .unwrap();
    links
        .add_new_link("TASK-00001".to_string(), &vec!["SUBTASK-00003".to_string()])
        .unwrap();
    let kids = links.get_subtasks_list(&"TASK-00001".to_string());
    assert_eq!(
        kids,
        vec![
            "SUBTASK-00001".to_string(),
            "SUBTASK-00002".to_string(),
            "SUBTASK-00003".to_string()
        ]
    );
    assert_eq!(links.get_num_subtasks(&"TASK-00001".to_string()), 3);
}

#[test]
fn child_count_consistency() {
    let mut links = TaskToSubtaskMap::new();
    links
        .add_new_link(
            "TASK-00001".to_string(),
            &vec!["SUBTASK-00001".to_string(), "SUBTASK-00002".to_string()],
        )
        .unwrap();
    for task in ["TASK-00001", "TASK-00002"] {
        let id = task.to_string();
        let count = links.get_num_subtasks(&id);
        let list = links.get_subtasks_list(&id);
        assert_eq!(count as usize, list.len());
    }
}

#[test]
fn parent_lookup() {
    let mut links = TaskToSubtaskMap::new();
    links
        .add_new_link("TASK-00001".to_string(), &vec!["SUBTASK-00001".to_string()])
        .unwrap();
    assert_eq!(
        links.get_task_id(&"SUBTASK-00001".to_string()),
        Some("TASK-00001".to_string())
    );
    assert_eq!(links.get_task_id(&"SUBTASK-00002".to_string()), None);
}

#[test]
fn update_link_moves_subtask() {
    let mut links = TaskToSubtaskMap::new();
    links
        .add_new_link("TASK-00001".to_string(), &vec!["SUBTASK-00001".to_string()])
        .unwrap();
    links.add_new_link("TASK-00002".to_string(), &vec![]).unwrap();
    links
        .update_link(
            "SUBTASK-00001".to_string(),
            "TASK-00001".to_string(),
            "TASK-00002".to_string(),
        )
        .unwrap();
    assert!(links.get_subtasks_list(&"TASK-00001".to_string()).is_empty());
    assert_eq!(
        links.get_subtasks_list(&"TASK-00002".to_string()),
        vec!["SUBTASK-00001".to_string()]
    );
    assert_eq!(
        links.get_task_id(&"SUBTASK-00001".to_string()),
        Some("TASK-00002".to_string())
    );
}

#[test]
fn update_link_unknown_parent_fails() {
    let mut links = TaskToSubtaskMap::new();
    links
        .add_new_link("TASK-00001".to_string(), &vec!["SUBTASK-00001".to_string()])
        .unwrap();
    let r = links.update_link(
        "SUBTASK-00001".to_string(),
        "TASK-00001".to_string(),
        "TASK-00009".to_string(),
    );
    assert!(matches!(r, Err(AppError::TaskNotFound(_))));
    let r2 = links.update_link(
        "SUBTASK-00001".to_string(),
        "TASK-00009".to_string(),
        "TASK-00001".to_string(),
    );
    assert!(matches!(r2, Err(AppError::TaskNotFound(_))));
    assert_eq!(
        links.get_subtasks_list(&"TASK-00001".to_string()),
        vec!["SUBTASK-00001".to_string()]
    );
}

#[test]
fn delete_subtask_from_links() {
    let mut links = TaskToSubtaskMap::new();
    links
        .add_new_link(
            "TASK-00001".to_string(),
            &vec!["SUBTASK-00001".to_string(), "SUBTASK-00002".to_string()],
        )
        .unwrap();
    links.delete_subtask("SUBTASK-00001".to_string()).unwrap();
    assert_eq!(
        links.get_subtasks_list(&"TASK-00001".to_string()),
        vec!["SUBTASK-00002".to_string()]
    );
    links.delete_subtask("SUBTASK-00009".to_string()).unwrap();
    assert_eq!(links.get_num_subtasks(&"TASK-00001".to_string()), 1);
}

#[test]
fn delete_task_from_links() {
    let mut links = TaskToSubtaskMap::new();
    links
        .add_new_link("TASK-00001".to_string(), &vec!["SUBTASK-00001".to_string()])
        .unwrap();
    links.delete_task(&"TASK-00001".to_string()).unwrap();
    assert!(links.get_subtasks_list(&"TASK-00001".to_string()).is_empty());
    assert_eq!(links.get_task_id(&"SUBTASK-00001".to_string()), None);
}

#[test]
fn link_entries_round_trip() {
    let mut links = TaskToSubtaskMap::new();
    links
        .add_new_link("TASK-00001".to_string(), &vec!["SUBTASK-00001".to_string()])
        .unwrap();
    links.add_new_link("TASK-00002".to_string(), &vec![]).unwrap();
    let entries = links.entries();
    assert_eq!(entries.len(), 2);
    assert_eq!(entries[0].0, "TASK-00001");
    assert_eq!(entries[0].1, vec!["SUBTASK-00001".to_string()]);
    assert_eq!(entries[1].0, "TASK-00002");
    assert!(entries[1].1.is_empty());
}

#[test]
fn notes_append_and_read() {
    let mut notes = TaskNotes::new();
    notes
        .add_new_note("TASK-00001".to_string(), vec!["first".to_string()])
        .unwrap();
    notes
        .add_new_note(
            "TASK-00001".to_string(),
            vec!["second".to_string(), "third".to_string()],
        )
        .unwrap();
    assert_eq!(
        notes.get_notes("TASK-00001".to_string()),
        vec![
            "first".to_string(),
            "second".to_string(),
            "third".to_string()
        ]
    );
    assert!(notes.get_notes("TASK-00002".to_string()).is_empty());
}

#[test]
fn overwrite_then_delete_leaves_nothing() {
    let mut store: Store<TaskItem> = Store::new();
    store.put("TASK-00001".to_string(), sample_task("TASK-00001"));
    store.put("TASK-00001".to_string(), sample_task("TASK-00001"));
    store.put("TASK-00002".to_string(), sample_task("TASK-00002"));
    store.delete(&"TASK-00001".to_string()).unwrap();
    assert!(!store.contains(&"TASK-00001".to_string()));
    assert!(matches!(
        store.get(&"TASK-00001".to_string()),
        Err(AppError::FileReadError(_))
    ));
    assert!(store.contains(&"TASK-00002".to_string()));
}

#[test]
fn repeated_link_then_delete_task_leaves_no_entry() {
    let mut links = TaskToSubtaskMap::new();
    links
        .add_new_link("TASK-00001".to_string(), &vec!["SUBTASK-00001".to_string()])
        .unwrap();
    links
        .add_new_link("TASK-00001".to_string(), &vec!["SUBTASK-00002".to_string()])
        .unwrap();
    links
        .add_new_link("TASK-00002".to_string(), &vec!["SUBTASK-00003".to_string()])
        .unwrap();
    links.delete_task(&"TASK-00001".to_string()).unwrap();
    assert!(links.get_subtasks_list(&"TASK-00001".to_string()).is_empty());
    assert_eq!(links.get_num_subtasks(&"TASK-00001".to_string()), 0);
    assert_eq!(links.get_task_id(&"SUBTASK-00001".to_string()), None);
    assert_eq!(
        links.get_subtasks_list(&"TASK-00002".to_string()),
        vec!["SUBTASK-00003".to_string()]
    );
}
