use rustic_boards::boards::KanbanBoard;
use rustic_boards::coordinator::Coordinator;
use rustic_boards::error::AppError;
use rustic_boards::links::TaskToSubtaskMap;
use rustic_boards::store::Store;
use rustic_boards::subtasks::SubTaskItem;
use rustic_boards::tasks::TaskItem;
use rustic_boards::utils::{
    format_entity_id, leap_year, DeadlineFilter, TaskPriority, TaskStatus, TimeStamp,
};

#[test]
fn swimlane_keywords() {
    assert_eq!(TaskStatus::from_keyword("to-do"), Some(TaskStatus::ToDo));
    assert_eq!(
        TaskStatus::from_keyword("in-progress"),
        Some(TaskStatus::InProgress)
    );
    assert_eq!(TaskStatus::from_keyword("blocked"), Some(TaskStatus::Blocked));
    assert_eq!(
        TaskStatus::from_keyword("in-review"),
        Some(TaskStatus::InReview)
    );
    assert_eq!(TaskStatus::from_keyword("done"), Some(TaskStatus::Done));
    assert_eq!(TaskStatus::from_keyword("all"), None);
    assert_eq!(TaskStatus::from_keyword("Done"), None);
}

#[test]
fn priority_keywords() {
    assert_eq!(TaskPriority::from_keyword("high"), Some(TaskPriority::High));
    assert_eq!(
        TaskPriority::from_keyword("medium"),
        Some(TaskPriority::Medium)
    );
    assert_eq!(TaskPriority::from_keyword("low"), Some(TaskPriority::Low));
    assert_eq!(TaskPriority::from_keyword("urgent"), None);
}

#[test]
fn deadline_keywords() {
    assert_eq!(
        DeadlineFilter::from_keyword("past-deadline"),
        Some(DeadlineFilter::PastDeadline)
    );
    assert_eq!(
        DeadlineFilter::from_keyword("today"),
        Some(DeadlineFilter::Today)
    );
    assert_eq!(
        DeadlineFilter::from_keyword("tomorrow"),
        Some(DeadlineFilter::Tomorrow)
    );
    assert_eq!(
        DeadlineFilter::from_keyword("after-tomorrow"),
        Some(DeadlineFilter::AfterTomorrow)
    );
    assert_eq!(
        DeadlineFilter::from_keyword("no-deadline"),
        Some(DeadlineFilter::NoDeadline)
    );
    assert_eq!(DeadlineFilter::from_keyword("yesterday"), None);
}

#[test]
fn leap_years() {
    assert!(leap_year(2000));
    assert!(!leap_year(1900));
    assert!(leap_year(2024));
    assert!(!leap_year(2023));
    assert!(!leap_year(2100));
}

#[test]
fn next_day_values() {
    let d = TimeStamp {
        year: 2024,
        month: 2,
        day: 28,
    };
    assert_eq!(
        d.next_day(),
        TimeStamp {
            year: 2024,
            month: 2,
            day: 29
        }
    );
    let d2 = TimeStamp {
        year: 2023,
        month: 2,
        day: 28,
    };
    assert_eq!(
        d2.next_day(),
        TimeStamp {
            year: 2023,
            month: 3,
            day: 1
        }
    );
    let d3 = TimeStamp {
        year: 2023,
        month: 12,
        day: 31,
    };
    assert_eq!(
        d3.next_day(),
        TimeStamp {
            year: 2024,
            month: 1,
            day: 1
        }
    );
    let d4 = TimeStamp {
        year: 2023,
        month: 4,
        day: 30,
    };
    assert_eq!(
        d4.next_day(),
        TimeStamp {
            year: 2023,
            month: 5,
            day: 1
        }
    );
}

#[test]
fn date_order() {
    let a = TimeStamp {
        year: 2023,
        month: 12,
        day: 31,
    };
    let b = TimeStamp {
        year: 2024,
        month: 1,
        day: 1,
    };
    assert!(a.is_before(&b));
    assert!(!b.is_before(&a));
    assert!(!a.is_before(&a));
}

#[test]
fn entity_id_formatting() {
    assert_eq!(format_entity_id("TASK-", 1699999942042), "TASK-42042");
    assert_eq!(format_entity_id("TASK-", 7), "TASK-00007");
    assert_eq!(format_entity_id("SUBTASK-", 123456789), "SUBTASK-56789");
    assert_eq!(format_entity_id("TASK-", 100000), "TASK-00000");
}

#[test]
fn current_date_is_plausible() {
    let today = TimeStamp::new();
    assert!(today.month >= 1 && today.month <= 12);
    assert!(today.day >= 1 && today.day <= 31);
    assert!(today.year >= 1970);
}

#[test]
fn uninitialized_lane_is_reported() {
    let board = KanbanBoard::new();
    let r = board.list(TaskStatus::ToDo);
    assert!(matches!(r, Err(AppError::SwimlaneNotFoundError(_))));
}

#[test]
fn add_to_board_keeps_duplicates() {
    let mut board = KanbanBoard::new();
    board
        .add_to_board("TASK-00001".to_string(), TaskStatus::ToDo)
        .unwrap();
    board
        .add_to_board("TASK-00001".to_string(), TaskStatus::ToDo)
        .unwrap();
    let ids = board.list(TaskStatus::ToDo).unwrap();
    assert_eq!(ids, vec!["TASK-00001".to_string(), "TASK-00001".to_string()]);
}

#[test]
fn update_board_tolerates_absent_id() {
    let mut board = KanbanBoard::new();
    board.init_lane(TaskStatus::ToDo);
    board.init_lane(TaskStatus::Done);
    board
        .update_board("TASK-00001".to_string(), TaskStatus::ToDo, "done")
        .unwrap();
    assert_eq!(board.list(TaskStatus::Done).unwrap(), vec!["TASK-00001".to_string()]);
}

#[test]
fn show_tasks_skips_stale_board_entries() {
    let mut coord = Coordinator::new();
    let id = coord
        .create_task("t".to_string(), "d".to_string(), None, TaskPriority::High)
        .unwrap();
    let mut board = KanbanBoard::new();
    for lane in [
        TaskStatus::ToDo,
        TaskStatus::InProgress,
        TaskStatus::Blocked,
        TaskStatus::InReview,
        TaskStatus::Done,
    ] {
        board.init_lane(lane);
    }
    board.add_to_board(id.clone(), TaskStatus::ToDo).unwrap();
    board
        .add_to_board("TASK-99999".to_string(), TaskStatus::ToDo)
        .unwrap();
    let lanes = board
        .show_tasks("all", coord.tasks(), coord.links())
        .unwrap();
    assert_eq!(lanes.len(), 5);
    assert_eq!(lanes[0].swimlane, TaskStatus::ToDo);
    assert_eq!(lanes[0].rows.len(), 1);
    assert_eq!(lanes[0].rows[0].task_id, id);
    assert_eq!(lanes[0].rows[0].num_subtasks, 0);
    for lane in lanes.iter().skip(1) {
        assert!(lane.rows.is_empty());
    }
}

#[test]
fn show_tasks_invalid_keyword() {
    let coord = Coordinator::new();
    let r = coord
        .board()
        .show_tasks("everything", coord.tasks(), coord.links());
    assert!(matches!(r, Err(AppError::InvalidSwimlanePassed(_))));
}

#[test]
fn show_subtasks_reports_parent() {
    let mut coord = Coordinator::new();
    let t = coord
        .create_task("t".to_string(), "d".to_string(), None, TaskPriority::Low)
        .unwrap();
    let s = coord
        .create_subtask(
            "s".to_string(),
            "sd".to_string(),
            None,
            TaskPriority::Low,
            t.clone(),
        )
        .unwrap();
    let lanes = coord
        .board()
        .show_subtasks("to-do", coord.subtasks(), coord.links())
        .unwrap();
    assert_eq!(lanes.len(), 1);
    assert_eq!(lanes[0].rows.len(), 1);
    assert_eq!(lanes[0].rows[0].subtask_id, s);
    assert_eq!(lanes[0].rows[0].parent_task_id, Some(t));
}

#[test]
fn filter_deadline_buckets() {
    let today = TimeStamp {
        year: 2024,
        month: 6,
        day: 15,
    };
    let yesterday = TimeStamp {
        year: 2024,
        month: 6,
        day: 14,
    };
    let tomorrow = TimeStamp {
        year: 2024,
        month: 6,
        day: 16,
    };
    let later = TimeStamp {
        year: 2024,
        month: 7,
        day: 1,
    };
    let mut board = KanbanBoard::new();
    for lane in [
        TaskStatus::ToDo,
        TaskStatus::InProgress,
        TaskStatus::Blocked,
        TaskStatus::InReview,
        TaskStatus::Done,
    ] {
        board.init_lane(lane);
    }
    let mut tasks: Store<TaskItem> = Store::new();
    let subtasks: Store<SubTaskItem> = Store::new();
    let links = TaskToSubtaskMap::new();
    let cases = [
        ("TASK-00001", Some(yesterday)),
        ("TASK-00002", Some(today)),
        ("TASK-00003", Some(tomorrow)),
        ("TASK-00004", Some(later)),
        ("TASK-00005", None),
    ];
    for (id, deadline) in cases {
        board
            .add_to_board(id.to_string(), TaskStatus::ToDo)
            .unwrap();
        tasks.put(
            id.to_string(),
            TaskItem {
                task_id: id.to_string(),
                task_name: id.to_string(),
                task_description: String::new(),
                task_added_on: yesterday,
                task_started_on: None,
                task_deadline: deadline,
                task_completed_on: None,
                task_status: TaskStatus::ToDo,
                task_priority: TaskPriority::Low,
            },
        );
    }
    let expectations = [
        ("past-deadline", "TASK-00001"),
        ("today", "TASK-00002"),
        ("tomorrow", "TASK-00003"),
        ("after-tomorrow", "TASK-00004"),
        ("no-deadline", "TASK-00005"),
    ];
    for (keyword, expected) in expectations {
        let lanes = board
            .filter_deadline_on(keyword, today, &tasks, &subtasks, &links)
            .unwrap();
        assert_eq!(lanes.len(), 4);
        assert_eq!(lanes[0].rows.len(), 1, "keyword {}", keyword);
        assert_eq!(lanes[0].rows[0].entity_id, expected, "keyword {}", keyword);
        for lane in lanes.iter().skip(1) {
            assert!(lane.rows.is_empty());
        }
    }
    let bad = board.filter_deadline_on("someday", today, &tasks, &subtasks, &links);
    assert!(matches!(bad, Err(AppError::InvalidDeadlineKeyword(_))));
}

#[test]
fn get_tasks_list_skips_missing_records() {
    let mut coord = Coordinator::new();
    let id = coord
        .create_task("t".to_string(), "d".to_string(), None, TaskPriority::Low)
        .unwrap();
    let mut board = KanbanBoard::new();
    for lane in [
        TaskStatus::ToDo,
        TaskStatus::InProgress,
        TaskStatus::Blocked,
        TaskStatus::InReview,
        TaskStatus::Done,
    ] {
        board.init_lane(lane);
    }
    board.add_to_board(id.clone(), TaskStatus::ToDo).unwrap();
    board
        .add_to_board("TASK-77777".to_string(), TaskStatus::Blocked)
        .unwrap();
    let list = board.get_tasks_list(coord.tasks()).unwrap();
    assert_eq!(list, vec![id]);
}

#[test]
fn from_parts_preserves_state() {
    let mut board = KanbanBoard::new();
    for lane in [
        TaskStatus::ToDo,
        TaskStatus::InProgress,
        TaskStatus::Blocked,
        TaskStatus::InReview,
        TaskStatus::Done,
    ] {
        board.init_lane(lane);
    }
    board.add_to_board("TASK-00001".to_string(), TaskStatus::ToDo).unwrap();
    let mut links = TaskToSubtaskMap::new();
    links
        .add_new_link("TASK-00001".to_string(), &vec!["SUBTASK-00001".to_string()])
        .unwrap();
    let mut tasks: Store<TaskItem> = Store::new();
    tasks.put(
        "TASK-00001".to_string(),
        TaskItem {
            task_id: "TASK-00001".to_string(),
            task_name: "t".to_string(),
            task_description: "d".to_string(),
            task_added_on: TimeStamp {
                year: 2024,
                month: 1,
                day: 2,
            },
            task_started_on: None,
            task_deadline: None,
            task_completed_on: None,
            task_status: TaskStatus::ToDo,
            task_priority: TaskPriority::Low,
        },
    );
    let subtasks: Store<SubTaskItem> = Store::new();
    let coord = Coordinator::from_parts(board, links, tasks, subtasks);
    assert_eq!(
        coord.board().list(TaskStatus::ToDo).unwrap(),
        vec!["TASK-00001".to_string()]
    );
    assert_eq!(coord.links().get_num_subtasks(&"TASK-00001".to_string()), 1);
    assert!(coord.tasks().contains(&"TASK-00001".to_string()));
}

#[test]
fn change_swimlane_rejects_bad_keyword() {
    let mut item = TaskItem {
        task_id: "TASK-00001".to_string(),
        task_name: "t".to_string(),
        task_description: "d".to_string(),
        task_added_on: TimeStamp {
            year: 2024,
            month: 1,
            day: 2,
        },
        task_started_on: None,
        task_deadline: None,
        task_completed_on: None,
        task_status: TaskStatus::ToDo,
        task_priority: TaskPriority::Low,
    };
    let r = item.change_swimlane("parked");
    assert!(matches!(r, Err(AppError::InvalidSwimlanePassed(_))));
    assert_eq!(item.task_status, TaskStatus::ToDo);
    item.change_swimlane("blocked").unwrap();
    assert_eq!(item.task_status, TaskStatus::Blocked);
    assert!(item.task_started_on.is_some());
    assert!(item.task_completed_on.is_none());
}

#[test]
fn filter_includes_subtask_rows() {
    let mut coord = Coordinator::new();
    let t = coord
        .create_task("t".to_string(), "d".to_string(), None, TaskPriority::Low)
        .unwrap();
    let s = coord
        .create_subtask(
            "s".to_string(),
            "sd".to_string(),
            None,
            TaskPriority::High,
            t.clone(),
        )
        .unwrap();
    let lanes = coord
        .board()
        .filter_priority("high", coord.tasks(), coord.subtasks(), coord.links())
        .unwrap();
    let all_rows: Vec<_> = lanes.iter().flat_map(|l| l.rows.iter()).collect();
    assert_eq!(all_rows.len(), 1);
    assert_eq!(all_rows[0].entity_id, s);
    assert_eq!(all_rows[0].num_subtasks, None);
    assert_eq!(all_rows[0].parent_task_id, Some(t));
}
