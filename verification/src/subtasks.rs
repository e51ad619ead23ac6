//! The subtask entity: fields, creation, and the swimlane change rules.
//! A subtask has no children of its own; its parent is kept in the link
//! index, not here.

use crate::error::AppError;
use crate::utils::{
    five_digits, format_entity_id, millis_since_epoch, swimlane_of_keyword, system_now, valid_date,
    TaskPriority, TaskStatus, TimeStamp,
};
use vstd::prelude::*;

verus! {

/// Abstract value of a subtask: every field as a plain mathematical value.
pub ghost struct SubTaskItemView {
    pub id: Seq<char>,
    pub name: Seq<char>,
    pub description: Seq<char>,
    pub added_on: TimeStamp,
    pub started_on: Option<TimeStamp>,
    pub deadline: Option<TimeStamp>,
    pub completed_on: Option<TimeStamp>,
    pub status: TaskStatus,
    pub priority: TaskPriority,
}

/// A subtask linked under a parent task.
#[derive(Debug)]
pub struct SubTaskItem {
    pub subtask_id: String,
    pub subtask_name: String,
    pub subtask_description: String,
    pub subtask_added_on: TimeStamp,
    pub subtask_started_on: Option<TimeStamp>,
    pub subtask_deadline: Option<TimeStamp>,
    pub subtask_completed_on: Option<TimeStamp>,
    pub subtask_status: TaskStatus,
    pub subtask_priority: TaskPriority,
}

impl View for SubTaskItem {
    type V = SubTaskItemView;

    open spec fn view(&self) -> SubTaskItemView {
        SubTaskItemView {
            id: self.subtask_id@,
            name: self.subtask_name@,
            description: self.subtask_description@,
            added_on: self.subtask_added_on,
            started_on: self.subtask_started_on,
            deadline: self.subtask_deadline,
            completed_on: self.subtask_completed_on,
            status: self.subtask_status,
            priority: self.subtask_priority,
        }
    }
}

/// How a subtask value after a swimlane change to `ns` relates to the
/// value before: only the status and the stamped dates may change.
pub open spec fn subtask_swimlane_change_ok(
    t: SubTaskItemView,
    t2: SubTaskItemView,
    ns: TaskStatus,
) -> bool {
    &&& t2.status == ns
    &&& t2.id == t.id
    &&& t2.name == t.name
    &&& t2.description == t.description
    &&& t2.deadline == t.deadline
    &&& t2.priority == t.priority
    &&& t2.added_on == t.added_on
    &&& if t.status == TaskStatus::ToDo && ns != TaskStatus::ToDo && t.started_on is None {
        t2.started_on matches Some(d) && valid_date(d)
    } else {
        t2.started_on == t.started_on
    }
    &&& if ns == TaskStatus::Done && t.completed_on is None {
        t2.completed_on matches Some(d) && valid_date(d)
    } else {
        t2.completed_on == t.completed_on
    }
}

impl Clone for SubTaskItem {
    fn clone(&self) -> (r: Self)
        ensures
            r@ == self@,
    {
        SubTaskItem {
            subtask_id: self.subtask_id.clone(),
            subtask_name: self.subtask_name.clone(),
            subtask_description: self.subtask_description.clone(),
            subtask_added_on: self.subtask_added_on,
            subtask_started_on: self.subtask_started_on,
            subtask_deadline: self.subtask_deadline,
            subtask_completed_on: self.subtask_completed_on,
            subtask_status: self.subtask_status,
            subtask_priority: self.subtask_priority,
        }
    }
}

impl SubTaskItem {
    /// Create a new subtask: id derived from the creation time, status
    /// to-do, creation date today, no start or completion date yet.
    pub fn new(
        subtask_name: String,
        subtask_description: String,
        subtask_deadline: Option<TimeStamp>,
        subtask_priority: TaskPriority,
    ) -> (r: Result<SubTaskItem, AppError>)
        ensures
            r matches Ok(t) ==> {
                &&& t@.name == subtask_name@
                &&& t@.description == subtask_description@
                &&& t@.deadline == subtask_deadline
                &&& t@.priority == subtask_priority
                &&& t@.status == TaskStatus::ToDo
                &&& t@.started_on is None
                &&& t@.completed_on is None
                &&& valid_date(t@.added_on)
                &&& exists|n: int| 0 <= n < 100000 && t@.id == "SUBTASK-"@ + five_digits(n)
            },
            r matches Err(e) ==> e is CurrentDateTimeFetchError,
    {
        let millis: u64 = match millis_since_epoch(system_now()) {
            Ok(m) => m,
            Err(e) => {
                return Err(e);
            },
        };
        let subtask_id: String = format_entity_id("SUBTASK-", millis);
        proof {
            assert(0 <= ((millis % 100000) as int) < 100000);
        }
        Ok(
            SubTaskItem {
                subtask_id,
                subtask_name,
                subtask_description,
                subtask_added_on: TimeStamp::new(),
                subtask_started_on: None,
                subtask_deadline,
                subtask_completed_on: None,
                subtask_status: TaskStatus::ToDo,
                subtask_priority,
            },
        )
    }

    /// Move the subtask to the swimlane named by `swimlane`, stamping the
    /// start date on the first move away from to-do and the completion date
    /// on the first move into done.
    pub fn change_swimlane(&mut self, swimlane: &str) -> (r: Result<(), AppError>)
        ensures
            swimlane_of_keyword(swimlane@) is None ==> {
                &&& r is Err
                &&& r->Err_0 is InvalidSwimlanePassed
                &&& final(self)@ == old(self)@
            },
            swimlane_of_keyword(swimlane@) matches Some(ns) ==> {
                &&& r is Ok
                &&& subtask_swimlane_change_ok(old(self)@, final(self)@, ns)
            },
    {
        let new_swimlane: TaskStatus = match TaskStatus::from_keyword(swimlane) {
            Some(s) => s,
            None => {
                return Err(
                    AppError::InvalidSwimlanePassed(
                        String::from_str(swimlane).concat(
                            " \nPlease select from following options: \n1) to-do 2) in-progress 3) blocked 4) in-review 5) done\n",
                        ),
                    ),
                );
            },
        };
        if self.subtask_status == TaskStatus::ToDo && new_swimlane != TaskStatus::ToDo
            && self.subtask_started_on.is_none() {
            self.subtask_started_on = Some(TimeStamp::new());
        }
        if new_swimlane == TaskStatus::Done && self.subtask_completed_on.is_none() {
            self.subtask_completed_on = Some(TimeStamp::new());
        }
        self.subtask_status = new_swimlane;
        Ok(())
    }
}

} // verus!
