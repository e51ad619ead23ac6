use rustic_boards::coordinator::Coordinator;
use rustic_boards::error::AppError;
use rustic_boards::utils::{TaskPriority, TaskStatus, TimeStamp};

/// Entity ids carry the last five digits of the creation time in
/// milliseconds, so two creations of the same kind within one millisecond
/// would collide. Wait for the next millisecond between creations.
fn wait_next_millis() {
    let start = std::time::SystemTime::now()
        .duration_since(std::time::UNIX_EPOCH)
        .unwrap()
        .as_millis();
    loop {
        let now = std::time::SystemTime::now()
            .duration_since(std::time::UNIX_EPOCH)
            .unwrap()
            .as_millis();
        if now != start {
            return;
        }
    }
}

fn lane_contains(coord: &Coordinator, lane: TaskStatus, id: &String) -> bool {
    let ids = coord.board().list(lane).unwrap();
    ids.iter().any(|x| x == id)
}

fn lane_count(coord: &Coordinator, lane: TaskStatus, id: &String) -> usize {
    let ids = coord.board().list(lane).unwrap();
    ids.iter().filter(|x| *x == id).count()
}

#[test]
fn create_task_populates_all_stores() {
    let mut coord = Coordinator::new();
    let id = coord
        .create_task(
            "write report".to_string(),
            "quarterly report".to_string(),
            None,
            TaskPriority::High,
        )
        .unwrap();
    assert!(id.starts_with("TASK-"));
    assert_eq!(id.len(), 10);
    let item = coord.tasks().get(&id).unwrap();
    assert_eq!(item.task_name, "write report");
    assert_eq!(item.task_description, "quarterly report");
    assert_eq!(item.task_status, TaskStatus::ToDo);
    assert_eq!(item.task_priority, TaskPriority::High);
    assert!(item.task_deadline.is_none());
    assert!(item.task_started_on.is_none());
    assert!(item.task_completed_on.is_none());
    assert!(lane_contains(&coord, TaskStatus::ToDo, &id));
    assert_eq!(coord.links().get_num_subtasks(&id), 0);
}

#[test]
fn create_subtask_links_to_parent() {
    let mut coord = Coordinator::new();
    let t = coord
        .create_task("t".to_string(), "d".to_string(), None, TaskPriority::Low)
        .unwrap();
    let s = coord
        .create_subtask(
            "s".to_string(),
            "sd".to_string(),
            None,
            TaskPriority::Medium,
            t.clone(),
        )
        .unwrap();
    assert!(s.starts_with("SUBTASK-"));
    assert_eq!(coord.links().get_task_id(&s), Some(t.clone()));
    let kids = coord.links().get_subtasks_list(&t);
    assert_eq!(kids, vec![s.clone()]);
    assert!(lane_contains(&coord, TaskStatus::ToDo, &s));
}

#[test]
fn move_correctness() {
    let mut coord = Coordinator::new();
    let id = coord
        .create_task("t".to_string(), "d".to_string(), None, TaskPriority::Low)
        .unwrap();
    assert_eq!(lane_count(&coord, TaskStatus::ToDo, &id), 1);
    coord.move_task(&id, "in-progress").unwrap();
    assert_eq!(lane_count(&coord, TaskStatus::ToDo, &id), 0);
    assert_eq!(lane_count(&coord, TaskStatus::InProgress, &id), 1);
    let item = coord.tasks().get(&id).unwrap();
    assert_eq!(item.task_status, TaskStatus::InProgress);
    assert!(item.task_started_on.is_some());
}

#[test]
fn move_stamps_dates_once() {
    let mut coord = Coordinator::new();
    let id = coord
        .create_task("t".to_string(), "d".to_string(), None, TaskPriority::Low)
        .unwrap();
    coord.move_task(&id, "done").unwrap();
    let first = coord.tasks().get(&id).unwrap();
    let started = first.task_started_on;
    let completed = first.task_completed_on;
    assert!(started.is_some());
    assert!(completed.is_some());
    coord.move_task(&id, "to-do").unwrap();
    coord.move_task(&id, "done").unwrap();
    let again = coord.tasks().get(&id).unwrap();
    assert_eq!(again.task_started_on, started);
    assert_eq!(again.task_completed_on, completed);
}

#[test]
fn move_task_invalid_swimlane_is_rejected() {
    let mut coord = Coordinator::new();
    let id = coord
        .create_task("t".to_string(), "d".to_string(), None, TaskPriority::Low)
        .unwrap();
    let r = coord.move_task(&id, "paused");
    assert!(matches!(r, Err(AppError::InvalidSwimlanePassed(_))));
    let item = coord.tasks().get(&id).unwrap();
    assert_eq!(item.task_status, TaskStatus::ToDo);
}

#[test]
fn move_unknown_task_is_rejected() {
    let mut coord = Coordinator::new();
    let r = coord.move_task(&"TASK-99999".to_string(), "done");
    assert!(matches!(r, Err(AppError::FileReadError(_))));
}

#[test]
fn cascade_delete() {
    let mut coord = Coordinator::new();
    let t = coord
        .create_task("t".to_string(), "d".to_string(), None, TaskPriority::Low)
        .unwrap();
    let s1 = coord
        .create_subtask(
            "s1".to_string(),
            "d1".to_string(),
            None,
            TaskPriority::Low,
            t.clone(),
        )
        .unwrap();
    wait_next_millis();
    let s2 = coord
        .create_subtask(
            "s2".to_string(),
            "d2".to_string(),
            None,
            TaskPriority::High,
            t.clone(),
        )
        .unwrap();
    assert_ne!(s1, s2);
    coord.move_subtask(&s2, "blocked").unwrap();
    coord.delete_task(&t).unwrap();
    assert!(matches!(coord.tasks().get(&t), Err(AppError::FileReadError(_))));
    assert!(matches!(coord.subtasks().get(&s1), Err(AppError::FileReadError(_))));
    assert!(matches!(coord.subtasks().get(&s2), Err(AppError::FileReadError(_))));
    for lane in [
        TaskStatus::ToDo,
        TaskStatus::InProgress,
        TaskStatus::Blocked,
        TaskStatus::InReview,
        TaskStatus::Done,
    ] {
        assert!(!lane_contains(&coord, lane, &t));
        assert!(!lane_contains(&coord, lane, &s1));
        assert!(!lane_contains(&coord, lane, &s2));
    }
    assert_eq!(coord.links().get_num_subtasks(&t), 0);
    assert!(coord.links().get_subtasks_list(&t).is_empty());
}

#[test]
fn delete_subtask_leaves_parent() {
    let mut coord = Coordinator::new();
    let t = coord
        .create_task("t".to_string(), "d".to_string(), None, TaskPriority::Low)
        .unwrap();
    let s = coord
        .create_subtask(
            "s".to_string(),
            "sd".to_string(),
            None,
            TaskPriority::Low,
            t.clone(),
        )
        .unwrap();
    coord.delete_subtask(&s).unwrap();
    assert!(coord.tasks().get(&t).is_ok());
    assert!(matches!(coord.subtasks().get(&s), Err(AppError::FileReadError(_))));
    assert!(!lane_contains(&coord, TaskStatus::ToDo, &s));
    assert_eq!(coord.links().get_num_subtasks(&t), 0);
}

#[test]
fn relink_moves_subtask_between_tasks() {
    let mut coord = Coordinator::new();
    let t1 = coord
        .create_task("t1".to_string(), "d".to_string(), None, TaskPriority::Low)
        .unwrap();
    wait_next_millis();
    let t2 = coord
        .create_task("t2".to_string(), "d".to_string(), None, TaskPriority::Low)
        .unwrap();
    assert_ne!(t1, t2);
    let s = coord
        .create_subtask(
            "s".to_string(),
            "sd".to_string(),
            None,
            TaskPriority::Low,
            t1.clone(),
        )
        .unwrap();
    coord.relink_subtask(&s, t2.clone()).unwrap();
    assert_eq!(coord.links().get_task_id(&s), Some(t2.clone()));
    assert!(!coord.links().get_subtasks_list(&t1).iter().any(|x| x == &s));
    assert!(coord.links().get_subtasks_list(&t2).iter().any(|x| x == &s));
}

#[test]
fn relink_unlinked_subtask_is_rejected() {
    let mut coord = Coordinator::new();
    let t = coord
        .create_task("t".to_string(), "d".to_string(), None, TaskPriority::Low)
        .unwrap();
    let r = coord.relink_subtask(&"SUBTASK-00001".to_string(), t);
    assert!(matches!(r, Err(AppError::TaskNotFound(_))));
}

#[test]
fn scenario_task_lifecycle() {
    let mut coord = Coordinator::new();
    let t = coord
        .create_task(
            "t".to_string(),
            "d".to_string(),
            None,
            TaskPriority::Medium,
        )
        .unwrap();
    let s = coord
        .create_subtask(
            "s".to_string(),
            "sd".to_string(),
            None,
            TaskPriority::Medium,
            t.clone(),
        )
        .unwrap();
    assert_eq!(coord.links().get_num_subtasks(&t), 1);
    coord.move_task(&t, "in-progress").unwrap();
    let item = coord.tasks().get(&t).unwrap();
    assert!(item.task_started_on.is_some());
    assert_eq!(item.task_status, TaskStatus::InProgress);
    coord.delete_task(&t).unwrap();
    assert!(matches!(coord.tasks().get(&t), Err(AppError::FileReadError(_))));
    assert!(matches!(coord.subtasks().get(&s), Err(AppError::FileReadError(_))));
    assert!(!lane_contains(&coord, TaskStatus::InProgress, &t));
}

#[test]
fn filter_priority_idempotent() {
    let mut coord = Coordinator::new();
    let deadline = TimeStamp {
        year: 2030,
        month: 6,
        day: 15,
    };
    coord
        .create_task(
            "a".to_string(),
            "d".to_string(),
            Some(deadline),
            TaskPriority::High,
        )
        .unwrap();
    wait_next_millis();
    coord
        .create_task("b".to_string(), "d".to_string(), None, TaskPriority::Low)
        .unwrap();
    let first = coord
        .board()
        .filter_priority("high", coord.tasks(), coord.subtasks(), coord.links())
        .unwrap();
    let second = coord
        .board()
        .filter_priority("high", coord.tasks(), coord.subtasks(), coord.links())
        .unwrap();
    assert_eq!(first.len(), second.len());
    for (l1, l2) in first.iter().zip(second.iter()) {
        assert_eq!(l1.swimlane, l2.swimlane);
        assert_eq!(l1.rows.len(), l2.rows.len());
        for (r1, r2) in l1.rows.iter().zip(l2.rows.iter()) {
            assert_eq!(r1.entity_id, r2.entity_id);
            assert_eq!(r1.entity_name, r2.entity_name);
            assert_eq!(r1.priority, r2.priority);
            assert_eq!(r1.deadline, r2.deadline);
            assert_eq!(r1.num_subtasks, r2.num_subtasks);
            assert_eq!(r1.parent_task_id, r2.parent_task_id);
        }
    }
    let total: usize = first.iter().map(|l| l.rows.len()).sum();
    assert_eq!(total, 1);
    assert_eq!(first[0].rows[0].priority, TaskPriority::High);
}

#[test]
fn filter_priority_invalid_keyword() {
    let coord = Coordinator::new();
    let r = coord
        .board()
        .filter_priority("urgent", coord.tasks(), coord.subtasks(), coord.links());
    assert!(matches!(r, Err(AppError::InvalidPriorityKeyword(_))));
}
