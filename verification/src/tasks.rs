//! The task entity: fields, creation, and the swimlane change rules that
//! stamp the start and completion dates.

use crate::error::AppError;
use crate::utils::{
    five_digits, format_entity_id, millis_since_epoch, swimlane_of_keyword, system_now, valid_date,
    TaskPriority, TaskStatus, TimeStamp,
};
use vstd::prelude::*;

verus! {

/// Abstract value of a task: every field as a plain mathematical value.
pub ghost struct TaskItemView {
    pub id: Seq<char>,
    pub name: Seq<char>,
    pub description: Seq<char>,
    pub added_on: TimeStamp,
    pub started_on: Option<TimeStamp>,
    pub deadline: Option<TimeStamp>,
    pub completed_on: Option<TimeStamp>,
    pub status: TaskStatus,
    pub priority: TaskPriority,
}

/// A task on the board.
#[derive(Debug)]
pub struct TaskItem {
    pub task_id: String,
    pub task_name: String,
    pub task_description: String,
    pub task_added_on: TimeStamp,
    pub task_started_on: Option<TimeStamp>,
    pub task_deadline: Option<TimeStamp>,
    pub task_completed_on: Option<TimeStamp>,
    pub task_status: TaskStatus,
    pub task_priority: TaskPriority,
}

impl View for TaskItem {
    type V = TaskItemView;

    open spec fn view(&self) -> TaskItemView {
        TaskItemView {
            id: self.task_id@,
            name: self.task_name@,
            description: self.task_description@,
            added_on: self.task_added_on,
            started_on: self.task_started_on,
            deadline: self.task_deadline,
            completed_on: self.task_completed_on,
            status: self.task_status,
            priority: self.task_priority,
        }
    }
}

/// How a task value after a swimlane change to `ns` relates to the value
/// before: only the status and the stamped dates may change, and a date is
/// stamped only on the first move away from to-do or into done.
pub open spec fn swimlane_change_ok(t: TaskItemView, t2: TaskItemView, ns: TaskStatus) -> bool {
    &&& t2.status == ns
    &&& t2.id == t.id
    &&& t2.name == t.name
    &&& t2.description == t.description
    &&& t2.deadline == t.deadline
    &&& t2.priority == t.priority
    &&& t2.added_on == t.added_on
    &&& if t.status == TaskStatus::ToDo && ns != TaskStatus::ToDo && t.started_on is None {
        t2.started_on matches Some(d) && valid_date(d)
    } else {
        t2.started_on == t.started_on
    }
    &&& if ns == TaskStatus::Done && t.completed_on is None {
        t2.completed_on matches Some(d) && valid_date(d)
    } else {
        t2.completed_on == t.completed_on
    }
}

impl Clone for TaskItem {
    fn clone(&self) -> (r: Self)
        ensures
            r@ == self@,
    {
        TaskItem {
            task_id: self.task_id.clone(),
            task_name: self.task_name.clone(),
            task_description: self.task_description.clone(),
            task_added_on: self.task_added_on,
            task_started_on: self.task_started_on,
            task_deadline: self.task_deadline,
            task_completed_on: self.task_completed_on,
            task_status: self.task_status,
            task_priority: self.task_priority,
        }
    }
}

impl TaskItem {
    /// Create a new task: id derived from the creation time, status to-do,
    /// creation date today, no start or completion date yet.
    pub fn new(
        task_name: String,
        task_description: String,
        task_deadline: Option<TimeStamp>,
        task_priority: TaskPriority,
    ) -> (r: Result<TaskItem, AppError>)
        ensures
            r matches Ok(t) ==> {
                &&& t@.name == task_name@
                &&& t@.description == task_description@
                &&& t@.deadline == task_deadline
                &&& t@.priority == task_priority
                &&& t@.status == TaskStatus::ToDo
                &&& t@.started_on is None
                &&& t@.completed_on is None
                &&& valid_date(t@.added_on)
                &&& exists|n: int| 0 <= n < 100000 && t@.id == "TASK-"@ + five_digits(n)
            },
            r matches Err(e) ==> e is CurrentDateTimeFetchError,
    {
        let millis: u64 = match millis_since_epoch(system_now()) {
            Ok(m) => m,
            Err(e) => {
                return Err(e);
            },
        };
        let task_id: String = format_entity_id("TASK-", millis);
        proof {
            assert(0 <= ((millis % 100000) as int) < 100000);
        }
        Ok(
            TaskItem {
                task_id,
                task_name,
                task_description,
                task_added_on: TimeStamp::new(),
                task_started_on: None,
                task_deadline,
                task_completed_on: None,
                task_status: TaskStatus::ToDo,
                task_priority,
            },
        )
    }

    /// Move the task to the swimlane named by `swimlane`, stamping the
    /// start date on the first move away from to-do and the completion date
    /// on the first move into done.
    pub fn change_swimlane(&mut self, swimlane: &str) -> (r: Result<(), AppError>)
        ensures
            swimlane_of_keyword(swimlane@) is None ==> {
                &&& r is Err
                &&& r->Err_0 is InvalidSwimlanePassed
                &&& final(self)@ == old(self)@
            },
            swimlane_of_keyword(swimlane@) matches Some(ns) ==> {
                &&& r is Ok
                &&& swimlane_change_ok(old(self)@, final(self)@, ns)
            },
    {
        let new_swimlane: TaskStatus = match TaskStatus::from_keyword(swimlane) {
            Some(s) => s,
            None => {
                return Err(
                    AppError::InvalidSwimlanePassed(
                        String::from_str(swimlane).concat(
                            " \nPlease select from following options: \n1) to-do 2) in-progress 3) blocked 4) in-review 5) done\n",
                        ),
                    ),
                );
            },
        };
        if self.task_status == TaskStatus::ToDo && new_swimlane != TaskStatus::ToDo
            && self.task_started_on.is_none() {
            self.task_started_on = Some(TimeStamp::new());
        }
        if new_swimlane == TaskStatus::Done && self.task_completed_on.is_none() {
            self.task_completed_on = Some(TimeStamp::new());
        }
        self.task_status = new_swimlane;
        Ok(())
    }
}

} // verus!
