//! The board index: for each swimlane, the ordered list of entity ids
//! currently shown in that column.

use crate::error::AppError;
use crate::links::{children_of, parent_of, LinkEntries, TaskToSubtaskMap};
use crate::store::{store_get, Store};
use crate::subtasks::{SubTaskItem, SubTaskItemView};
use crate::tasks::{TaskItem, TaskItemView};
use crate::utils::{
    deadline_bucket_matches, deadline_filter_of_keyword, deadline_matches, non_done_lanes,
    non_done_lanes_vec, priority_of_keyword, remove_first_occurrence, show_lanes_of_keyword,
    swimlanes_to_show, valid_date, DeadlineFilter, TaskPriority, TaskStatus, TimeStamp,
};
use vstd::prelude::*;

verus! {

/// Abstract value of the board index: a map from each initialized swimlane
/// to its ordered entity ids.
pub type BoardLanes = Map<TaskStatus, Seq<Seq<char>>>;

/// The ids of a swimlane, or the empty sequence if it was never initialized.
pub open spec fn lane_or_empty(b: BoardLanes, s: TaskStatus) -> Seq<Seq<char>> {
    if b.dom().contains(s) {
        b[s]
    } else {
        Seq::empty()
    }
}

/// Board after moving `id` from swimlane `cs` to swimlane `ns`: the first
/// occurrence of `id` leaves `cs`'s list, then `id` is appended to `ns`'s.
pub open spec fn spec_move(b: BoardLanes, id: Seq<char>, cs: TaskStatus, ns: TaskStatus) -> BoardLanes
    recommends
        b.dom().contains(cs),
        b.dom().contains(ns),
{
    let b1 = b.insert(cs, b[cs].remove_value(id));
    b1.insert(ns, b1[ns].push(id))
}

/// The board index of swimlanes.
pub struct KanbanBoard {
    to_do: Option<Vec<String>>,
    in_progress: Option<Vec<String>>,
    blocked: Option<Vec<String>>,
    in_review: Option<Vec<String>>,
    done: Option<Vec<String>>,
}

impl KanbanBoard {
    /// The backing list of swimlane `s`, if that lane was initialized.
    closed spec fn lane_field(&self, s: TaskStatus) -> Option<Vec<String>> {
        match s {
            TaskStatus::ToDo => self.to_do,
            TaskStatus::InProgress => self.in_progress,
            TaskStatus::Blocked => self.blocked,
            TaskStatus::InReview => self.in_review,
            TaskStatus::Done => self.done,
        }
    }
}

impl View for KanbanBoard {
    type V = BoardLanes;

    closed spec fn view(&self) -> BoardLanes {
        Map::new(
            |s: TaskStatus| self.lane_field(s) is Some,
            |s: TaskStatus| self.lane_field(s)->Some_0.deep_view(),
        )
    }
}

impl KanbanBoard {
    /// Create a board with no swimlane initialized.
    pub fn new() -> (r: Self)
        ensures
            r@ == Map::<TaskStatus, Seq<Seq<char>>>::empty(),
    {
        let r = KanbanBoard {
            to_do: None,
            in_progress: None,
            blocked: None,
            in_review: None,
            done: None,
        };
        proof {
            assert(r@ =~= Map::<TaskStatus, Seq<Seq<char>>>::empty());
        }
        r
    }

    /// Whether swimlane `s` was initialized.
    pub fn has_lane(&self, s: TaskStatus) -> (r: bool)
        ensures
            r == self@.dom().contains(s),
    {
        let present = match s {
            TaskStatus::ToDo => self.to_do.is_some(),
            TaskStatus::InProgress => self.in_progress.is_some(),
            TaskStatus::Blocked => self.blocked.is_some(),
            TaskStatus::InReview => self.in_review.is_some(),
            TaskStatus::Done => self.done.is_some(),
        };
        present
    }

    /// Mutable access to the list of an initialized swimlane.
    fn lane_vec(&mut self, s: TaskStatus) -> (r: &mut Vec<String>)
        requires
            old(self)@.dom().contains(s),
        ensures
            (*r).deep_view() == old(self)@[s],
            final(self).lane_field(s) == Some(*final(r)),
            forall|t: TaskStatus| t != s ==> final(self).lane_field(t) == old(self).lane_field(t),
    {
        match s {
            TaskStatus::ToDo => {
                match &mut self.to_do {
                    Some(v) => v,
                    None => unreached(),
                }
            },
            TaskStatus::InProgress => {
                match &mut self.in_progress {
                    Some(v) => v,
                    None => unreached(),
                }
            },
            TaskStatus::Blocked => {
                match &mut self.blocked {
                    Some(v) => v,
                    None => unreached(),
                }
            },
            TaskStatus::InReview => {
                match &mut self.in_review {
                    Some(v) => v,
                    None => unreached(),
                }
            },
            TaskStatus::Done => {
                match &mut self.done {
                    Some(v) => v,
                    None => unreached(),
                }
            },
        }
    }

    /// Initialize swimlane `s` with an empty list if it is absent; an
    /// initialized lane keeps its ids.
    pub fn init_lane(&mut self, s: TaskStatus)
        ensures
            final(self)@ == old(self)@.insert(s, lane_or_empty(old(self)@, s)),
    {
        let ghost b0 = self@;
        if !self.has_lane(s) {
            let v: Vec<String> = Vec::new();
            proof {
                assert(v.deep_view() =~= Seq::<Seq<char>>::empty());
            }
            match s {
                TaskStatus::ToDo => {
                    self.to_do = Some(v);
                },
                TaskStatus::InProgress => {
                    self.in_progress = Some(v);
                },
                TaskStatus::Blocked => {
                    self.blocked = Some(v);
                },
                TaskStatus::InReview => {
                    self.in_review = Some(v);
                },
                TaskStatus::Done => {
                    self.done = Some(v);
                },
            }
            proof {
                assert(self@ =~~= b0.insert(s, lane_or_empty(b0, s)));
            }
        } else {
            proof {
                assert(self@ =~~= b0.insert(s, lane_or_empty(b0, s)));
            }
        }
    }

    /// The ordered ids of swimlane `swimlane`; the lane must have been
    /// initialized, otherwise it is reported as missing.
    pub fn list(&self, swimlane: TaskStatus) -> (r: Result<Vec<String>, AppError>)
        ensures
            self@.dom().contains(swimlane) ==> {
                &&& r is Ok
                &&& r->Ok_0.deep_view() == self@[swimlane]
            },
            !self@.dom().contains(swimlane) ==> {
                &&& r is Err
                &&& r->Err_0 is SwimlaneNotFoundError
            },
    {
        let lane: &Option<Vec<String>> = match swimlane {
            TaskStatus::ToDo => &self.to_do,
            TaskStatus::InProgress => &self.in_progress,
            TaskStatus::Blocked => &self.blocked,
            TaskStatus::InReview => &self.in_review,
            TaskStatus::Done => &self.done,
        };
        match lane {
            Some(v) => {
                let c = crate::utils::clone_string_vec(v);
                Ok(c)
            },
            None => Err(
                AppError::SwimlaneNotFoundError(String::from_str("Swimlane not found.")),
            ),
        }
    }

    /// Append `task_id` to swimlane `swimlane`, initializing the lane if it
    /// was absent. Duplicates are not rejected.
    pub fn add_to_board(&mut self, task_id: String, swimlane: TaskStatus) -> (r: Result<
        (),
        AppError,
    >)
        ensures
            r is Ok,
            final(self)@ == old(self)@.insert(
                swimlane,
                lane_or_empty(old(self)@, swimlane).push(task_id@),
            ),
    {
        let ghost b0 = self@;
        if self.has_lane(swimlane) {
            let v = self.lane_vec(swimlane);
            crate::utils::push_string(v, task_id);
            proof {
                assert(self@ =~~= b0.insert(swimlane, lane_or_empty(b0, swimlane).push(
                    task_id@,
                )));
            }
        } else {
            let mut v: Vec<String> = Vec::new();
            let ghost dv0 = v.deep_view();
            crate::utils::push_string(&mut v, task_id);
            proof {
                assert(dv0 =~= Seq::<Seq<char>>::empty());
            }
            match swimlane {
                TaskStatus::ToDo => {
                    self.to_do = Some(v);
                },
                TaskStatus::InProgress => {
                    self.in_progress = Some(v);
                },
                TaskStatus::Blocked => {
                    self.blocked = Some(v);
                },
                TaskStatus::InReview => {
                    self.in_review = Some(v);
                },
                TaskStatus::Done => {
                    self.done = Some(v);
                },
            }
            proof {
                assert(self@ =~~= b0.insert(swimlane, lane_or_empty(b0, swimlane).push(
                    task_id@,
                )));
            }
        }
        Ok(())
    }

    /// Move `task_id` from `current_swimlane` to the lane named by the
    /// keyword `new_swimlane`. The keyword must name a swimlane and both
    /// lanes must be initialized; removing tolerates an absent id.
    pub fn update_board(
        &mut self,
        task_id: String,
        current_swimlane: TaskStatus,
        new_swimlane: &str,
    ) -> (r: Result<(), AppError>)
        ensures
            crate::utils::swimlane_of_keyword(new_swimlane@) is None ==> {
                &&& r is Err
                &&& r->Err_0 is InvalidSwimlanePassed
                &&& final(self)@ == old(self)@
            },
            crate::utils::swimlane_of_keyword(new_swimlane@) is Some && !old(
                self,
            )@.dom().contains(current_swimlane) ==> {
                &&& r is Err
                &&& r->Err_0 is SwimlaneNotFoundError
                &&& final(self)@ == old(self)@
            },
            crate::utils::swimlane_of_keyword(new_swimlane@) is Some && old(
                self,
            )@.dom().contains(current_swimlane) && !old(self)@.dom().contains(
                crate::utils::swimlane_of_keyword(new_swimlane@)->Some_0,
            ) ==> {
                &&& r is Err
                &&& r->Err_0 is SwimlaneNotFoundError
                &&& final(self)@ == old(self)@
            },
            crate::utils::swimlane_of_keyword(new_swimlane@) is Some && old(
                self,
            )@.dom().contains(current_swimlane) && old(self)@.dom().contains(
                crate::utils::swimlane_of_keyword(new_swimlane@)->Some_0,
            ) ==> {
                &&& r is Ok
                &&& final(self)@ == spec_move(
                    old(self)@,
                    task_id@,
                    current_swimlane,
                    crate::utils::swimlane_of_keyword(new_swimlane@)->Some_0,
                )
            },
    {
        let ghost b0 = self@;
        let ns: TaskStatus = match TaskStatus::from_keyword(new_swimlane) {
            Some(s) => s,
            None => {
                return Err(
                    AppError::InvalidSwimlanePassed(
                        String::from_str(new_swimlane).concat(
                            " \nPlease select from following options: \n1) to-do 2) in-progress 3) blocked 4) in-review 5) done\n",
                        ),
                    ),
                );
            },
        };
        if !self.has_lane(current_swimlane) {
            return Err(AppError::SwimlaneNotFoundError(String::from_str("Swimlane not found.")));
        }
        if !self.has_lane(ns) {
            return Err(AppError::SwimlaneNotFoundError(String::from_str("Swimlane not found.")));
        }
        let v = self.lane_vec(current_swimlane);
        remove_first_occurrence(v, &task_id);
        let ghost b1 = b0.insert(current_swimlane, b0[current_swimlane].remove_value(task_id@));
        proof {
            assert(self@ =~~= b1);
        }
        let w = self.lane_vec(ns);
        crate::utils::push_string(w, task_id);
        proof {
            assert(self@ =~~= b1.insert(ns, b1[ns].push(task_id@)));
        }
        Ok(())
    }

    /// Remove the first occurrence of `task_id` from swimlane `swimlane`;
    /// tolerates an absent id, but the lane must be initialized.
    pub fn delete_task(&mut self, task_id: String, swimlane: TaskStatus) -> (r: Result<
        (),
        AppError,
    >)
        ensures
            !old(self)@.dom().contains(swimlane) ==> {
                &&& r is Err
                &&& r->Err_0 is SwimlaneNotFoundError
                &&& final(self)@ == old(self)@
            },
            old(self)@.dom().contains(swimlane) ==> {
                &&& r is Ok
                &&& final(self)@ == old(self)@.insert(
                    swimlane,
                    old(self)@[swimlane].remove_value(task_id@),
                )
            },
    {
        let ghost b0 = self@;
        if !self.has_lane(swimlane) {
            return Err(AppError::SwimlaneNotFoundError(String::from_str("Swimlane not found.")));
        }
        let v = self.lane_vec(swimlane);
        remove_first_occurrence(v, &task_id);
        proof {
            assert(self@ =~~= b0.insert(swimlane, b0[swimlane].remove_value(task_id@)));
        }
        Ok(())
    }
}

/// The subtask count shown for a task: the number of linked subtask ids,
/// saturating at `i32::MAX`.
pub open spec fn num_subtasks_of(links: LinkEntries, id: Seq<char>) -> int {
    let n = children_of(links, id).len() as int;
    if n <= i32::MAX {
        n
    } else {
        i32::MAX as int
    }
}

/// Abstract value of one row of a task listing.
pub ghost struct TaskRowView {
    pub id: Seq<char>,
    pub name: Seq<char>,
    pub priority: TaskPriority,
    pub deadline: Option<TimeStamp>,
    pub num_subtasks: int,
}

/// One row of a task listing: the task's display fields and its number of
/// linked subtasks.
pub struct TaskRow {
    pub task_id: String,
    pub task_name: String,
    pub task_priority: TaskPriority,
    pub task_deadline: Option<TimeStamp>,
    pub num_subtasks: i32,
}

impl View for TaskRow {
    type V = TaskRowView;

    open spec fn view(&self) -> TaskRowView {
        TaskRowView {
            id: self.task_id@,
            name: self.task_name@,
            priority: self.task_priority,
            deadline: self.task_deadline,
            num_subtasks: self.num_subtasks as int,
        }
    }
}

impl DeepView for TaskRow {
    type V = TaskRowView;

    open spec fn deep_view(&self) -> TaskRowView {
        self.view()
    }
}

/// The row shown for task `t` with id `id`.
pub open spec fn spec_task_row(id: Seq<char>, t: TaskItemView, links: LinkEntries) -> TaskRowView {
    TaskRowView {
        id: id,
        name: t.name,
        priority: t.priority,
        deadline: t.deadline,
        num_subtasks: num_subtasks_of(links, id),
    }
}

/// Row builder for a task listing: ids without a task record yield no row.
pub open spec fn task_row_fn(
    tasks: Seq<(Seq<char>, TaskItemView)>,
    links: LinkEntries,
) -> spec_fn(Seq<char>) -> Option<TaskRowView> {
    |id: Seq<char>|
        match store_get(tasks, id) {
            Some(t) => Some(spec_task_row(id, t, links)),
            None => None,
        }
}

/// The rows of one swimlane of a task listing: one row per id that still
/// has a task record, in lane order.
pub open spec fn spec_task_rows(
    lane: Seq<Seq<char>>,
    tasks: Seq<(Seq<char>, TaskItemView)>,
    links: LinkEntries,
) -> Seq<TaskRowView> {
    lane.filter_map(task_row_fn(tasks, links))
}

/// Abstract value of one row of a subtask listing.
pub ghost struct SubtaskRowView {
    pub id: Seq<char>,
    pub name: Seq<char>,
    pub priority: TaskPriority,
    pub deadline: Option<TimeStamp>,
    pub parent: Option<Seq<char>>,
}

/// One row of a subtask listing: the subtask's display fields and its
/// parent task id, if it is linked.
pub struct SubtaskRow {
    pub subtask_id: String,
    pub subtask_name: String,
    pub subtask_priority: TaskPriority,
    pub subtask_deadline: Option<TimeStamp>,
    pub parent_task_id: Option<String>,
}

impl View for SubtaskRow {
    type V = SubtaskRowView;

    open spec fn view(&self) -> SubtaskRowView {
        SubtaskRowView {
            id: self.subtask_id@,
            name: self.subtask_name@,
            priority: self.subtask_priority,
            deadline: self.subtask_deadline,
            parent: self.parent_task_id.deep_view(),
        }
    }
}

impl DeepView for SubtaskRow {
    type V = SubtaskRowView;

    open spec fn deep_view(&self) -> SubtaskRowView {
        self.view()
    }
}

/// The row shown for subtask `t` with id `id`.
pub open spec fn spec_subtask_row(
    id: Seq<char>,
    t: SubTaskItemView,
    links: LinkEntries,
) -> SubtaskRowView {
    SubtaskRowView {
        id: id,
        name: t.name,
        priority: t.priority,
        deadline: t.deadline,
        parent: parent_of(links, id),
    }
}

/// Row builder for a subtask listing: ids without a subtask record yield no
/// row.
pub open spec fn subtask_row_fn(
    subtasks: Seq<(Seq<char>, SubTaskItemView)>,
    links: LinkEntries,
) -> spec_fn(Seq<char>) -> Option<SubtaskRowView> {
    |id: Seq<char>|
        match store_get(subtasks, id) {
            Some(t) => Some(spec_subtask_row(id, t, links)),
            None => None,
        }
}

/// The rows of one swimlane of a subtask listing.
pub open spec fn spec_subtask_rows(
    lane: Seq<Seq<char>>,
    subtasks: Seq<(Seq<char>, SubTaskItemView)>,
    links: LinkEntries,
) -> Seq<SubtaskRowView> {
    lane.filter_map(subtask_row_fn(subtasks, links))
}

/// Abstract value of one swimlane of a task listing.
pub ghost struct SwimlaneTasksView {
    pub swimlane: TaskStatus,
    pub rows: Seq<TaskRowView>,
}

/// One swimlane of a task listing.
pub struct SwimlaneTasks {
    pub swimlane: TaskStatus,
    pub rows: Vec<TaskRow>,
}

impl View for SwimlaneTasks {
    type V = SwimlaneTasksView;

    open spec fn view(&self) -> SwimlaneTasksView {
        SwimlaneTasksView { swimlane: self.swimlane, rows: self.rows.deep_view() }
    }
}

impl DeepView for SwimlaneTasks {
    type V = SwimlaneTasksView;

    open spec fn deep_view(&self) -> SwimlaneTasksView {
        self.view()
    }
}

/// Abstract value of one swimlane of a subtask listing.
pub ghost struct SwimlaneSubtasksView {
    pub swimlane: TaskStatus,
    pub rows: Seq<SubtaskRowView>,
}

/// One swimlane of a subtask listing.
pub struct SwimlaneSubtasks {
    pub swimlane: TaskStatus,
    pub rows: Vec<SubtaskRow>,
}

impl View for SwimlaneSubtasks {
    type V = SwimlaneSubtasksView;

    open spec fn view(&self) -> SwimlaneSubtasksView {
        SwimlaneSubtasksView { swimlane: self.swimlane, rows: self.rows.deep_view() }
    }
}

impl DeepView for SwimlaneSubtasks {
    type V = SwimlaneSubtasksView;

    open spec fn deep_view(&self) -> SwimlaneSubtasksView {
        self.view()
    }
}

/// The task rows of one swimlane: ids whose task record is gone are
/// skipped rather than reported.
fn task_rows_for_lane(
    lane: &Vec<String>,
    tasks: &Store<TaskItem>,
    links: &TaskToSubtaskMap,
) -> (r: Vec<TaskRow>)
    ensures
        r.deep_view() == spec_task_rows(lane.deep_view(), tasks@, links@),
{
    let ghost ld = lane.deep_view();
    let ghost f = task_row_fn(tasks@, links@);
    let mut rows: Vec<TaskRow> = Vec::new();
    proof {
        assert(rows.deep_view() =~= ld.take(0).filter_map(f));
    }
    let n: usize = lane.len();
    let mut i: usize = 0;
    while i < n
        invariant
            i <= n,
            n == lane.len(),
            ld == lane.deep_view(),
            f == task_row_fn(tasks@, links@),
            rows.deep_view() == ld.take(i as int).filter_map(f),
        decreases n - i,
    {
        let ghost rows0 = rows.deep_view();
        let id: &String = &lane[i];
        proof {
            assert(ld[i as int] == id@);
            assert(ld.take(i as int + 1).drop_last() =~= ld.take(i as int));
            assert(ld.take(i as int + 1).last() == ld[i as int]);
        }
        match tasks.get(id) {
            Ok(t) => {
                let num: i32 = links.get_num_subtasks(id);
                let row = TaskRow {
                    task_id: id.clone(),
                    task_name: t.task_name.clone(),
                    task_priority: t.task_priority,
                    task_deadline: t.task_deadline,
                    num_subtasks: num,
                };
                proof {
                    assert(row@ == spec_task_row(id@, store_get(tasks@, id@)->Some_0, links@));
                }
                rows.push(row);
                proof {
                    assert(rows.deep_view() =~= rows0.push(row@));
                    assert(rows.deep_view() =~= ld.take(i as int + 1).filter_map(f));
                }
            },
            Err(_) => {
                proof {
                    assert(rows.deep_view() =~= ld.take(i as int + 1).filter_map(f));
                }
            },
        }
        i = i + 1;
    }
    proof {
        assert(ld.take(n as int) =~= ld);
    }
    rows
}

/// The subtask rows of one swimlane: ids whose subtask record is gone are
/// skipped rather than reported.
fn subtask_rows_for_lane(
    lane: &Vec<String>,
    subtasks: &Store<SubTaskItem>,
    links: &TaskToSubtaskMap,
) -> (r: Vec<SubtaskRow>)
    ensures
        r.deep_view() == spec_subtask_rows(lane.deep_view(), subtasks@, links@),
{
    let ghost ld = lane.deep_view();
    let ghost f = subtask_row_fn(subtasks@, links@);
    let mut rows: Vec<SubtaskRow> = Vec::new();
    proof {
        assert(rows.deep_view() =~= ld.take(0).filter_map(f));
    }
    let n: usize = lane.len();
    let mut i: usize = 0;
    while i < n
        invariant
            i <= n,
            n == lane.len(),
            ld == lane.deep_view(),
            f == subtask_row_fn(subtasks@, links@),
            rows.deep_view() == ld.take(i as int).filter_map(f),
        decreases n - i,
    {
        let ghost rows0 = rows.deep_view();
        let id: &String = &lane[i];
        proof {
            assert(ld[i as int] == id@);
            assert(ld.take(i as int + 1).drop_last() =~= ld.take(i as int));
            assert(ld.take(i as int + 1).last() == ld[i as int]);
        }
        match subtasks.get(id) {
            Ok(t) => {
                let parent: Option<String> = links.get_task_id(id);
                let row = SubtaskRow {
                    subtask_id: id.clone(),
                    subtask_name: t.subtask_name.clone(),
                    subtask_priority: t.subtask_priority,
                    subtask_deadline: t.subtask_deadline,
                    parent_task_id: parent,
                };
                proof {
                    assert(row@ == spec_subtask_row(
                        id@,
                        store_get(subtasks@, id@)->Some_0,
                        links@,
                    ));
                }
                rows.push(row);
                proof {
                    assert(rows.deep_view() =~= rows0.push(row@));
                    assert(rows.deep_view() =~= ld.take(i as int + 1).filter_map(f));
                }
            },
            Err(_) => {
                proof {
                    assert(rows.deep_view() =~= ld.take(i as int + 1).filter_map(f));
                }
            },
        }
        i = i + 1;
    }
    proof {
        assert(ld.take(n as int) =~= ld);
    }
    rows
}

/// Abstract value of one row of a deadline or priority filter: a task row
/// carries its subtask count, a subtask row its parent task id.
pub ghost struct FilterRowView {
    pub id: Seq<char>,
    pub name: Seq<char>,
    pub priority: TaskPriority,
    pub deadline: Option<TimeStamp>,
    pub num_subtasks: Option<int>,
    pub parent: Option<Seq<char>>,
}

/// One row of a deadline or priority filter. For a task `num_subtasks` is
/// set; for a subtask `parent_task_id` carries its parent, if any.
pub struct FilterRow {
    pub entity_id: String,
    pub entity_name: String,
    pub priority: TaskPriority,
    pub deadline: Option<TimeStamp>,
    pub num_subtasks: Option<i32>,
    pub parent_task_id: Option<String>,
}

impl View for FilterRow {
    type V = FilterRowView;

    open spec fn view(&self) -> FilterRowView {
        FilterRowView {
            id: self.entity_id@,
            name: self.entity_name@,
            priority: self.priority,
            deadline: self.deadline,
            num_subtasks: match self.num_subtasks {
                Some(n) => Some(n as int),
                None => None,
            },
            parent: self.parent_task_id.deep_view(),
        }
    }
}

impl DeepView for FilterRow {
    type V = FilterRowView;

    open spec fn deep_view(&self) -> FilterRowView {
        self.view()
    }
}

/// Concatenation of the rows each id of a lane produces, in lane order.
pub open spec fn rows_concat(
    lane: Seq<Seq<char>>,
    f: spec_fn(Seq<char>) -> Seq<FilterRowView>,
) -> Seq<FilterRowView>
    decreases lane.len(),
{
    if lane.len() == 0 {
        Seq::empty()
    } else {
        rows_concat(lane.drop_last(), f) + f(lane.last())
    }
}

/// The filter row shown for task `t` with id `id`.
pub open spec fn spec_task_filter_row(
    id: Seq<char>,
    t: TaskItemView,
    links: LinkEntries,
) -> FilterRowView {
    FilterRowView {
        id: id,
        name: t.name,
        priority: t.priority,
        deadline: t.deadline,
        num_subtasks: Some(num_subtasks_of(links, id)),
        parent: None,
    }
}

/// The filter row shown for subtask `t` with id `id`.
pub open spec fn spec_subtask_filter_row(
    id: Seq<char>,
    t: SubTaskItemView,
    links: LinkEntries,
) -> FilterRowView {
    FilterRowView {
        id: id,
        name: t.name,
        priority: t.priority,
        deadline: t.deadline,
        num_subtasks: None,
        parent: parent_of(links, id),
    }
}

/// Row builder for the deadline filter: an id yields a task row, a subtask
/// row, both or neither, depending on which records exist and whose
/// deadline falls in the selected bucket.
pub open spec fn deadline_row_fn(
    tasks: Seq<(Seq<char>, TaskItemView)>,
    subtasks: Seq<(Seq<char>, SubTaskItemView)>,
    links: LinkEntries,
    f: DeadlineFilter,
    today: TimeStamp,
) -> spec_fn(Seq<char>) -> Seq<FilterRowView> {
    |id: Seq<char>|
        {
            let task_part = match store_get(tasks, id) {
                Some(t) => if deadline_matches(t.deadline, f, today) {
                    seq![spec_task_filter_row(id, t, links)]
                } else {
                    Seq::empty()
                },
                None => Seq::empty(),
            };
            let subtask_part = match store_get(subtasks, id) {
                Some(t) => if deadline_matches(t.deadline, f, today) {
                    seq![spec_subtask_filter_row(id, t, links)]
                } else {
                    Seq::empty()
                },
                None => Seq::empty(),
            };
            task_part + subtask_part
        }
}

/// Row builder for the priority filter.
pub open spec fn priority_row_fn(
    tasks: Seq<(Seq<char>, TaskItemView)>,
    subtasks: Seq<(Seq<char>, SubTaskItemView)>,
    links: LinkEntries,
    tier: TaskPriority,
) -> spec_fn(Seq<char>) -> Seq<FilterRowView> {
    |id: Seq<char>|
        {
            let task_part = match store_get(tasks, id) {
                Some(t) => if t.priority == tier {
                    seq![spec_task_filter_row(id, t, links)]
                } else {
                    Seq::empty()
                },
                None => Seq::empty(),
            };
            let subtask_part = match store_get(subtasks, id) {
                Some(t) => if t.priority == tier {
                    seq![spec_subtask_filter_row(id, t, links)]
                } else {
                    Seq::empty()
                },
                None => Seq::empty(),
            };
            task_part + subtask_part
        }
}

/// Abstract value of one swimlane of a filter result.
pub ghost struct SwimlaneFilteredView {
    pub swimlane: TaskStatus,
    pub rows: Seq<FilterRowView>,
}

/// One swimlane of a filter result.
pub struct SwimlaneFiltered {
    pub swimlane: TaskStatus,
    pub rows: Vec<FilterRow>,
}

impl View for SwimlaneFiltered {
    type V = SwimlaneFilteredView;

    open spec fn view(&self) -> SwimlaneFilteredView {
        SwimlaneFilteredView { swimlane: self.swimlane, rows: self.rows.deep_view() }
    }
}

impl DeepView for SwimlaneFiltered {
    type V = SwimlaneFilteredView;

    open spec fn deep_view(&self) -> SwimlaneFilteredView {
        self.view()
    }
}

/// The task filter row for `id`, if its record exists and `keep` holds of
/// that record.
fn push_task_filter_row(
    rows: &mut Vec<FilterRow>,
    id: &String,
    tasks: &Store<TaskItem>,
    links: &TaskToSubtaskMap,
    t: &TaskItem,
)
    requires
        store_get(tasks@, id@) == Some(t@),
    ensures
        final(rows).deep_view() == old(rows).deep_view().push(
            spec_task_filter_row(id@, t@, links@),
        ),
{
    let ghost rows0 = rows.deep_view();
    let num: i32 = links.get_num_subtasks(id);
    let row = FilterRow {
        entity_id: id.clone(),
        entity_name: t.task_name.clone(),
        priority: t.task_priority,
        deadline: t.task_deadline,
        num_subtasks: Some(num),
        parent_task_id: None,
    };
    proof {
        assert(row@ == spec_task_filter_row(id@, t@, links@));
    }
    rows.push(row);
    proof {
        assert(rows.deep_view() =~= rows0.push(row@));
    }
}

/// The subtask filter row for `id`.
fn push_subtask_filter_row(
    rows: &mut Vec<FilterRow>,
    id: &String,
    subtasks: &Store<SubTaskItem>,
    links: &TaskToSubtaskMap,
    t: &SubTaskItem,
)
    requires
        store_get(subtasks@, id@) == Some(t@),
    ensures
        final(rows).deep_view() == old(rows).deep_view().push(
            spec_subtask_filter_row(id@, t@, links@),
        ),
{
    let ghost rows0 = rows.deep_view();
    let parent: Option<String> = links.get_task_id(id);
    let row = FilterRow {
        entity_id: id.clone(),
        entity_name: t.subtask_name.clone(),
        priority: t.subtask_priority,
        deadline: t.subtask_deadline,
        num_subtasks: None,
        parent_task_id: parent,
    };
    proof {
        assert(row@ == spec_subtask_filter_row(id@, t@, links@));
    }
    rows.push(row);
    proof {
        assert(rows.deep_view() =~= rows0.push(row@));
    }
}

/// The deadline filter rows of one swimlane.
fn deadline_rows_for_lane(
    lane: &Vec<String>,
    tasks: &Store<TaskItem>,
    subtasks: &Store<SubTaskItem>,
    links: &TaskToSubtaskMap,
    filter: DeadlineFilter,
    today: &TimeStamp,
) -> (r: Vec<FilterRow>)
    requires
        valid_date(*today),
    ensures
        r.deep_view() == rows_concat(
            lane.deep_view(),
            deadline_row_fn(tasks@, subtasks@, links@, filter, *today),
        ),
{
    let ghost ld = lane.deep_view();
    let ghost f = deadline_row_fn(tasks@, subtasks@, links@, filter, *today);
    let mut rows: Vec<FilterRow> = Vec::new();
    proof {
        assert(rows.deep_view() =~= rows_concat(ld.take(0), f));
    }
    let n: usize = lane.len();
    let mut i: usize = 0;
    while i < n
        invariant
            i <= n,
            n == lane.len(),
            valid_date(*today),
            ld == lane.deep_view(),
            f == deadline_row_fn(tasks@, subtasks@, links@, filter, *today),
            rows.deep_view() == rows_concat(ld.take(i as int), f),
        decreases n - i,
    {
        let ghost rows0 = rows.deep_view();
        let id: &String = &lane[i];
        proof {
            assert(ld[i as int] == id@);
            assert(ld.take(i as int + 1).drop_last() =~= ld.take(i as int));
            assert(ld.take(i as int + 1).last() == ld[i as int]);
        }
        match tasks.get(id) {
            Ok(t) => {
                if deadline_bucket_matches(&t.task_deadline, filter, today) {
                    push_task_filter_row(&mut rows, id, tasks, links, t);
                }
            },
            Err(_) => {},
        }
        match subtasks.get(id) {
            Ok(t) => {
                if deadline_bucket_matches(&t.subtask_deadline, filter, today) {
                    push_subtask_filter_row(&mut rows, id, subtasks, links, t);
                }
            },
            Err(_) => {},
        }
        proof {
            assert(rows.deep_view() =~= rows0 + f(id@));
            assert(rows.deep_view() =~= rows_concat(ld.take(i as int + 1), f));
        }
        i = i + 1;
    }
    proof {
        assert(ld.take(n as int) =~= ld);
    }
    rows
}

/// The priority filter rows of one swimlane.
fn priority_rows_for_lane(
    lane: &Vec<String>,
    tasks: &Store<TaskItem>,
    subtasks: &Store<SubTaskItem>,
    links: &TaskToSubtaskMap,
    tier: TaskPriority,
) -> (r: Vec<FilterRow>)
    ensures
        r.deep_view() == rows_concat(
            lane.deep_view(),
            priority_row_fn(tasks@, subtasks@, links@, tier),
        ),
{
    let ghost ld = lane.deep_view();
    let ghost f = priority_row_fn(tasks@, subtasks@, links@, tier);
    let mut rows: Vec<FilterRow> = Vec::new();
    proof {
        assert(rows.deep_view() =~= rows_concat(ld.take(0), f));
    }
    let n: usize = lane.len();
    let mut i: usize = 0;
    while i < n
        invariant
            i <= n,
            n == lane.len(),
            ld == lane.deep_view(),
            f == priority_row_fn(tasks@, subtasks@, links@, tier),
            rows.deep_view() == rows_concat(ld.take(i as int), f),
        decreases n - i,
    {
        let ghost rows0 = rows.deep_view();
        let id: &String = &lane[i];
        proof {
            assert(ld[i as int] == id@);
            assert(ld.take(i as int + 1).drop_last() =~= ld.take(i as int));
            assert(ld.take(i as int + 1).last() == ld[i as int]);
        }
        match tasks.get(id) {
            Ok(t) => {
                if t.task_priority == tier {
                    push_task_filter_row(&mut rows, id, tasks, links, t);
                }
            },
            Err(_) => {},
        }
        match subtasks.get(id) {
            Ok(t) => {
                if t.subtask_priority == tier {
                    push_subtask_filter_row(&mut rows, id, subtasks, links, t);
                }
            },
            Err(_) => {},
        }
        proof {
            assert(rows.deep_view() =~= rows0 + f(id@));
            assert(rows.deep_view() =~= rows_concat(ld.take(i as int + 1), f));
        }
        i = i + 1;
    }
    proof {
        assert(ld.take(n as int) =~= ld);
    }
    rows
}

impl KanbanBoard {
    /// The task listing of the swimlanes the keyword selects: per lane, one
    /// row per id that still has a task record, each with its subtask
    /// count. Every selected lane must be initialized.
    pub fn show_tasks(
        &self,
        swimlanes: &str,
        tasks: &Store<TaskItem>,
        links: &TaskToSubtaskMap,
    ) -> (r: Result<Vec<SwimlaneTasks>, AppError>)
        ensures
            show_lanes_of_keyword(swimlanes@) is None ==> {
                &&& r is Err
                &&& r->Err_0 is InvalidSwimlanePassed
            },
            show_lanes_of_keyword(swimlanes@) matches Some(lanes) ==> if forall|k: int|
                0 <= k < lanes.len() ==> self@.dom().contains(#[trigger] lanes[k]) {
                {
                    &&& r matches Ok(out)
                    &&& out.deep_view().len() == lanes.len()
                    &&& forall|k: int|
                        0 <= k < lanes.len() ==> (#[trigger] out.deep_view()[k]).swimlane
                            == lanes[k] && out.deep_view()[k].rows == spec_task_rows(
                            self@[lanes[k]],
                            tasks@,
                            links@,
                        )
                }
            } else {
                r is Err && r->Err_0 is SwimlaneNotFoundError
            },
    {
        let lanes: Vec<TaskStatus> = match swimlanes_to_show(swimlanes) {
            Some(v) => v,
            None => {
                return Err(
                    AppError::InvalidSwimlanePassed(
                        String::from_str(swimlanes).concat(
                            " \nPlease select from following options: \n1) all 2) to-do 3) in-progress 4) blocked 5) in-review 6) done\n",
                        ),
                    ),
                );
            },
        };
        let mut out: Vec<SwimlaneTasks> = Vec::new();
        let n: usize = lanes.len();
        let mut i: usize = 0;
        while i < n
            invariant
                i <= n,
                n == lanes.len(),
                show_lanes_of_keyword(swimlanes@) == Some(lanes@),
                forall|k: int| 0 <= k < i ==> self@.dom().contains(#[trigger] lanes@[k]),
                out.deep_view().len() == i,
                forall|k: int|
                    0 <= k < i ==> (#[trigger] out.deep_view()[k]).swimlane == lanes@[k]
                        && out.deep_view()[k].rows == spec_task_rows(
                        self@[lanes@[k]],
                        tasks@,
                        links@,
                    ),
            decreases n - i,
        {
            let ghost out0 = out.deep_view();
            let lane: TaskStatus = lanes[i];
            let ids: Vec<String> = match self.list(lane) {
                Ok(v) => v,
                Err(e) => {
                    return Err(e);
                },
            };
            let rows: Vec<TaskRow> = task_rows_for_lane(&ids, tasks, links);
            let entry = SwimlaneTasks { swimlane: lane, rows };
            out.push(entry);
            proof {
                assert(out.deep_view() =~= out0.push(entry@));
            }
            i = i + 1;
        }
        Ok(out)
    }

    /// The subtask listing of the swimlanes the keyword selects: per lane,
    /// one row per id that still has a subtask record, each with its parent
    /// task id. Every selected lane must be initialized.
    pub fn show_subtasks(
        &self,
        swimlanes: &str,
        subtasks: &Store<SubTaskItem>,
        links: &TaskToSubtaskMap,
    ) -> (r: Result<Vec<SwimlaneSubtasks>, AppError>)
        ensures
            show_lanes_of_keyword(swimlanes@) is None ==> {
                &&& r is Err
                &&& r->Err_0 is InvalidSwimlanePassed
            },
            show_lanes_of_keyword(swimlanes@) matches Some(lanes) ==> if forall|k: int|
                0 <= k < lanes.len() ==> self@.dom().contains(#[trigger] lanes[k]) {
                {
                    &&& r matches Ok(out)
                    &&& out.deep_view().len() == lanes.len()
                    &&& forall|k: int|
                        0 <= k < lanes.len() ==> (#[trigger] out.deep_view()[k]).swimlane
                            == lanes[k] && out.deep_view()[k].rows == spec_subtask_rows(
                            self@[lanes[k]],
                            subtasks@,
                            links@,
                        )
                }
            } else {
                r is Err && r->Err_0 is SwimlaneNotFoundError
            },
    {
        let lanes: Vec<TaskStatus> = match swimlanes_to_show(swimlanes) {
            Some(v) => v,
            None => {
                return Err(
                    AppError::InvalidSwimlanePassed(
                        String::from_str(swimlanes).concat(
                            " \nPlease select from following options: \n1) all 2) to-do 3) in-progress 4) blocked 5) in-review 6) done\n",
                        ),
                    ),
                );
            },
        };
        let mut out: Vec<SwimlaneSubtasks> = Vec::new();
        let n: usize = lanes.len();
        let mut i: usize = 0;
        while i < n
            invariant
                i <= n,
                n == lanes.len(),
                show_lanes_of_keyword(swimlanes@) == Some(lanes@),
                forall|k: int| 0 <= k < i ==> self@.dom().contains(#[trigger] lanes@[k]),
                out.deep_view().len() == i,
                forall|k: int|
                    0 <= k < i ==> (#[trigger] out.deep_view()[k]).swimlane == lanes@[k]
                        && out.deep_view()[k].rows == spec_subtask_rows(
                        self@[lanes@[k]],
                        subtasks@,
                        links@,
                    ),
            decreases n - i,
        {
            let ghost out0 = out.deep_view();
            let lane: TaskStatus = lanes[i];
            let ids: Vec<String> = match self.list(lane) {
                Ok(v) => v,
                Err(e) => {
                    return Err(e);
                },
            };
            let rows: Vec<SubtaskRow> = subtask_rows_for_lane(&ids, subtasks, links);
            let entry = SwimlaneSubtasks { swimlane: lane, rows };
            out.push(entry);
            proof {
                assert(out.deep_view() =~= out0.push(entry@));
            }
            i = i + 1;
        }
        Ok(out)
    }

    /// The deadline filter over the four non-done swimlanes, relative to
    /// the given day: per lane, the task and subtask rows whose deadline
    /// falls in the bucket the keyword selects.
    pub fn filter_deadline_on(
        &self,
        keyword: &str,
        today: TimeStamp,
        tasks: &Store<TaskItem>,
        subtasks: &Store<SubTaskItem>,
        links: &TaskToSubtaskMap,
    ) -> (r: Result<Vec<SwimlaneFiltered>, AppError>)
        requires
            valid_date(today),
        ensures
            deadline_filter_of_keyword(keyword@) is None ==> {
                &&& r is Err
                &&& r->Err_0 is InvalidDeadlineKeyword
            },
            deadline_filter_of_keyword(keyword@) matches Some(f) ==> if forall|k: int|
                0 <= k < non_done_lanes().len() ==> self@.dom().contains(
                    #[trigger] non_done_lanes()[k],
                ) {
                {
                    &&& r matches Ok(out)
                    &&& out.deep_view().len() == non_done_lanes().len()
                    &&& forall|k: int|
                        0 <= k < non_done_lanes().len() ==> (#[trigger] out.deep_view()[
                            k
                        ]).swimlane == non_done_lanes()[k] && out.deep_view()[k].rows
                            == rows_concat(
                            self@[non_done_lanes()[k]],
                            deadline_row_fn(tasks@, subtasks@, links@, f, today),
                        )
                }
            } else {
                r is Err && r->Err_0 is SwimlaneNotFoundError
            },
    {
        let filter: DeadlineFilter = match DeadlineFilter::from_keyword(keyword) {
            Some(f) => f,
            None => {
                return Err(
                    AppError::InvalidDeadlineKeyword(
                        String::from_str(keyword).concat(
                            " \nPlease select from following options: \n1) past-deadline 2) today 3) tomorrow 4) after-tomorrow 5) no-deadline\n",
                        ),
                    ),
                );
            },
        };
        let lanes: Vec<TaskStatus> = non_done_lanes_vec();
        let mut out: Vec<SwimlaneFiltered> = Vec::new();
        let n: usize = lanes.len();
        let mut i: usize = 0;
        while i < n
            invariant
                i <= n,
                n == lanes.len(),
                valid_date(today),
                lanes@ == non_done_lanes(),
                deadline_filter_of_keyword(keyword@) == Some(filter),
                forall|k: int| 0 <= k < i ==> self@.dom().contains(#[trigger] lanes@[k]),
                out.deep_view().len() == i,
                forall|k: int|
                    0 <= k < i ==> (#[trigger] out.deep_view()[k]).swimlane == lanes@[k]
                        && out.deep_view()[k].rows == rows_concat(
                        self@[lanes@[k]],
                        deadline_row_fn(tasks@, subtasks@, links@, filter, today),
                    ),
            decreases n - i,
        {
            let ghost out0 = out.deep_view();
            let lane: TaskStatus = lanes[i];
            let ids: Vec<String> = match self.list(lane) {
                Ok(v) => v,
                Err(e) => {
                    return Err(e);
                },
            };
            let rows: Vec<FilterRow> = deadline_rows_for_lane(
                &ids,
                tasks,
                subtasks,
                links,
                filter,
                &today,
            );
            let entry = SwimlaneFiltered { swimlane: lane, rows };
            out.push(entry);
            proof {
                assert(out.deep_view() =~= out0.push(entry@));
            }
            i = i + 1;
        }
        Ok(out)
    }

    /// The deadline filter relative to the current date.
    pub fn filter_deadline(
        &self,
        keyword: &str,
        tasks: &Store<TaskItem>,
        subtasks: &Store<SubTaskItem>,
        links: &TaskToSubtaskMap,
    ) -> (r: Result<Vec<SwimlaneFiltered>, AppError>)
        ensures
            deadline_filter_of_keyword(keyword@) is None ==> {
                &&& r is Err
                &&& r->Err_0 is InvalidDeadlineKeyword
            },
            deadline_filter_of_keyword(keyword@) matches Some(f) ==> if forall|k: int|
                0 <= k < non_done_lanes().len() ==> self@.dom().contains(
                    #[trigger] non_done_lanes()[k],
                ) {
                {
                    &&& r matches Ok(out)
                    &&& exists|today: TimeStamp|
                        valid_date(today) && out.deep_view().len() == non_done_lanes().len()
                            && forall|k: int|
                            0 <= k < non_done_lanes().len() ==> (#[trigger] out.deep_view()[
                                k
                            ]).swimlane == non_done_lanes()[k] && out.deep_view()[k].rows
                                == rows_concat(
                                self@[non_done_lanes()[k]],
                                deadline_row_fn(tasks@, subtasks@, links@, f, today),
                            )
                }
            } else {
                r is Err && r->Err_0 is SwimlaneNotFoundError
            },
    {
        let today: TimeStamp = TimeStamp::new();
        self.filter_deadline_on(keyword, today, tasks, subtasks, links)
    }

    /// The priority filter over the four non-done swimlanes: per lane, the
    /// task and subtask rows whose priority is the tier the keyword
    /// selects.
    pub fn filter_priority(
        &self,
        keyword: &str,
        tasks: &Store<TaskItem>,
        subtasks: &Store<SubTaskItem>,
        links: &TaskToSubtaskMap,
    ) -> (r: Result<Vec<SwimlaneFiltered>, AppError>)
        ensures
            priority_of_keyword(keyword@) is None ==> {
                &&& r is Err
                &&& r->Err_0 is InvalidPriorityKeyword
            },
            priority_of_keyword(keyword@) matches Some(tier) ==> if forall|k: int|
                0 <= k < non_done_lanes().len() ==> self@.dom().contains(
                    #[trigger] non_done_lanes()[k],
                ) {
                {
                    &&& r matches Ok(out)
                    &&& out.deep_view().len() == non_done_lanes().len()
                    &&& forall|k: int|
                        0 <= k < non_done_lanes().len() ==> (#[trigger] out.deep_view()[
                            k
                        ]).swimlane == non_done_lanes()[k] && out.deep_view()[k].rows
                            == rows_concat(
                            self@[non_done_lanes()[k]],
                            priority_row_fn(tasks@, subtasks@, links@, tier),
                        )
                }
            } else {
                r is Err && r->Err_0 is SwimlaneNotFoundError
            },
    {
        let tier: TaskPriority = match TaskPriority::from_keyword(keyword) {
            Some(t) => t,
            None => {
                return Err(
                    AppError::InvalidPriorityKeyword(
                        String::from_str(keyword).concat(
                            " \nPlease select from following options: \n1) high 2) medium 3) low\n",
                        ),
                    ),
                );
            },
        };
        let lanes: Vec<TaskStatus> = non_done_lanes_vec();
        let mut out: Vec<SwimlaneFiltered> = Vec::new();
        let n: usize = lanes.len();
        let mut i: usize = 0;
        while i < n
            invariant
                i <= n,
                n == lanes.len(),
                lanes@ == non_done_lanes(),
                priority_of_keyword(keyword@) == Some(tier),
                forall|k: int| 0 <= k < i ==> self@.dom().contains(#[trigger] lanes@[k]),
                out.deep_view().len() == i,
                forall|k: int|
                    0 <= k < i ==> (#[trigger] out.deep_view()[k]).swimlane == lanes@[k]
                        && out.deep_view()[k].rows == rows_concat(
                        self@[lanes@[k]],
                        priority_row_fn(tasks@, subtasks@, links@, tier),
                    ),
            decreases n - i,
        {
            let ghost out0 = out.deep_view();
            let lane: TaskStatus = lanes[i];
            let ids: Vec<String> = match self.list(lane) {
                Ok(v) => v,
                Err(e) => {
                    return Err(e);
                },
            };
            let rows: Vec<FilterRow> = priority_rows_for_lane(&ids, tasks, subtasks, links, tier);
            let entry = SwimlaneFiltered { swimlane: lane, rows };
            out.push(entry);
            proof {
                assert(out.deep_view() =~= out0.push(entry@));
            }
            i = i + 1;
        }
        Ok(out)
    }

    /// The ids across the four non-done swimlanes that still have a task
    /// record, in lane order: the choices offered when linking a subtask.
    pub fn get_tasks_list(&self, tasks: &Store<TaskItem>) -> (r: Result<Vec<String>, AppError>)
        ensures
            (forall|k: int|
                0 <= k < non_done_lanes().len() ==> self@.dom().contains(
                    #[trigger] non_done_lanes()[k],
                )) ==> {
                &&& r matches Ok(out)
                &&& out.deep_view() == self@[TaskStatus::ToDo].filter(
                    |id: Seq<char>| crate::store::store_has(tasks@, id),
                ) + self@[TaskStatus::InProgress].filter(
                    |id: Seq<char>| crate::store::store_has(tasks@, id),
                ) + self@[TaskStatus::Blocked].filter(
                    |id: Seq<char>| crate::store::store_has(tasks@, id),
                ) + self@[TaskStatus::InReview].filter(
                    |id: Seq<char>| crate::store::store_has(tasks@, id),
                )
            },
            !(forall|k: int|
                0 <= k < non_done_lanes().len() ==> self@.dom().contains(
                    #[trigger] non_done_lanes()[k],
                )) ==> {
                &&& r is Err
                &&& r->Err_0 is SwimlaneNotFoundError
            },
    {
        let ghost p = |id: Seq<char>| crate::store::store_has(tasks@, id);
        let lanes: Vec<TaskStatus> = non_done_lanes_vec();
        let mut out: Vec<String> = Vec::new();
        let n: usize = lanes.len();
        let mut i: usize = 0;
        while i < n
            invariant
                i <= n,
                n == lanes.len(),
                lanes@ == non_done_lanes(),
                p == (|id: Seq<char>| crate::store::store_has(tasks@, id)),
                forall|k: int| 0 <= k < i ==> self@.dom().contains(#[trigger] lanes@[k]),
                out.deep_view() == lane_filter_concat(self@, lanes@.take(i as int), p),
            decreases n - i,
        {
            let ghost out0 = out.deep_view();
            let lane: TaskStatus = lanes[i];
            let ids: Vec<String> = match self.list(lane) {
                Ok(v) => v,
                Err(e) => {
                    return Err(e);
                },
            };
            let ghost ld = ids.deep_view();
            let m: usize = ids.len();
            let mut j: usize = 0;
            while j < m
                invariant
                    j <= m,
                    m == ids.len(),
                    ld == ids.deep_view(),
                    p == (|id: Seq<char>| crate::store::store_has(tasks@, id)),
                    out.deep_view() == out0 + ld.take(j as int).filter(p),
                decreases m - j,
            {
                let ghost outj = out.deep_view();
                proof {
                    assert(ld[j as int] == ids@[j as int]@);
                    assert(ld.take(j as int + 1).drop_last() =~= ld.take(j as int));
                    assert(ld.take(j as int + 1).last() == ld[j as int]);
                    reveal_with_fuel(Seq::filter, 2);
                }
                if tasks.contains(&ids[j]) {
                    out.push(ids[j].clone());
                    proof {
                        assert(out.deep_view() =~= outj.push(ld[j as int]));
                        assert(out.deep_view() =~= out0 + ld.take(j as int + 1).filter(p));
                    }
                } else {
                    proof {
                        assert(out.deep_view() =~= out0 + ld.take(j as int + 1).filter(p));
                    }
                }
                j = j + 1;
            }
            proof {
                assert(ld.take(m as int) =~= ld);
                assert(lanes@.take(i as int + 1).drop_last() =~= lanes@.take(i as int));
                assert(lanes@.take(i as int + 1).last() == lanes@[i as int]);
                assert(out.deep_view() =~= lane_filter_concat(self@, lanes@.take(i as int + 1), p));
            }
            i = i + 1;
        }
        proof {
            assert(lanes@.take(n as int) =~= lanes@);
            let l4 = non_done_lanes();
            let l3 = seq![TaskStatus::ToDo, TaskStatus::InProgress, TaskStatus::Blocked];
            let l2 = seq![TaskStatus::ToDo, TaskStatus::InProgress];
            let l1 = seq![TaskStatus::ToDo];
            let l0 = Seq::<TaskStatus>::empty();
            assert(l4.drop_last() =~= l3);
            assert(l3.drop_last() =~= l2);
            assert(l2.drop_last() =~= l1);
            assert(l1.drop_last() =~= l0);
            let c0 = lane_filter_concat(self@, l0, p);
            let c1 = lane_filter_concat(self@, l1, p);
            let c2 = lane_filter_concat(self@, l2, p);
            let c3 = lane_filter_concat(self@, l3, p);
            let c4 = lane_filter_concat(self@, l4, p);
            assert(c0 =~= Seq::<Seq<char>>::empty());
            assert(l1.last() == TaskStatus::ToDo);
            assert(c1 == c0 + self@[TaskStatus::ToDo].filter(p));
            assert(c1 =~= self@[TaskStatus::ToDo].filter(p));
            assert(l2.last() == TaskStatus::InProgress);
            assert(c2 == c1 + self@[TaskStatus::InProgress].filter(p));
            assert(l3.last() == TaskStatus::Blocked);
            assert(c3 == c2 + self@[TaskStatus::Blocked].filter(p));
            assert(l4.last() == TaskStatus::InReview);
            assert(c4 == c3 + self@[TaskStatus::InReview].filter(p));
            assert(out.deep_view() =~= self@[TaskStatus::ToDo].filter(p)
                + self@[TaskStatus::InProgress].filter(p) + self@[TaskStatus::Blocked].filter(p)
                + self@[TaskStatus::InReview].filter(p));
        }
        Ok(out)
    }
}

/// Law: moving an id that sits in swimlane `a` to a different swimlane
/// `c` leaves `a`'s list holding the id exactly once less and `c`'s list
/// holding it exactly once more.
pub proof fn lemma_move_correctness(b: BoardLanes, id: Seq<char>, a: TaskStatus, c: TaskStatus)
    requires
        a != c,
        b.dom().contains(a),
        b.dom().contains(c),
        b[a].contains(id),
    ensures
        spec_move(b, id, a, c)[a].to_multiset().count(id) == b[a].to_multiset().count(id) - 1,
        spec_move(b, id, a, c)[c].to_multiset().count(id) == b[c].to_multiset().count(id) + 1,
{
    broadcast use vstd::multiset::group_multiset_axioms;

    let la = b[a];
    la.index_of_first_ensures(id);
    match la.index_of_first(id) {
        Some(p) => {
            vstd::seq_lib::to_multiset_remove(la, p);
            vstd::seq_lib::to_multiset_contains(la, id);
            assert(la.remove_value(id) == la.remove(p));
            assert(la.remove(p).to_multiset() == la.to_multiset().remove(id));
        },
        None => {},
    }
    let b1 = b.insert(a, la.remove_value(id));
    assert(b1[c] == b[c]);
    vstd::seq_lib::to_multiset_build(b1[c], id);
    assert(spec_move(b, id, a, c)[c] == b1[c].push(id));
    assert(spec_move(b, id, a, c)[a] == b1[a]);
}

/// Law: the priority filter is a function of the stores alone, so running
/// it twice with no mutation in between returns identical results.
pub proof fn lemma_priority_filter_idempotent(
    b: BoardLanes,
    tasks: Seq<(Seq<char>, TaskItemView)>,
    subtasks: Seq<(Seq<char>, SubTaskItemView)>,
    links: LinkEntries,
    tier: TaskPriority,
    out1: Seq<SwimlaneFilteredView>,
    out2: Seq<SwimlaneFilteredView>,
)
    requires
        out1.len() == non_done_lanes().len(),
        forall|k: int|
            0 <= k < non_done_lanes().len() ==> (#[trigger] out1[k]).swimlane == non_done_lanes()[k]
                && out1[k].rows == rows_concat(
                b[non_done_lanes()[k]],
                priority_row_fn(tasks, subtasks, links, tier),
            ),
        out2.len() == non_done_lanes().len(),
        forall|k: int|
            0 <= k < non_done_lanes().len() ==> (#[trigger] out2[k]).swimlane == non_done_lanes()[k]
                && out2[k].rows == rows_concat(
                b[non_done_lanes()[k]],
                priority_row_fn(tasks, subtasks, links, tier),
            ),
    ensures
        out1 == out2,
{
    assert forall|k: int| 0 <= k < out1.len() implies out1[k] == out2[k] by {
        assert(out1[k].swimlane == out2[k].swimlane);
        assert(out1[k].rows == out2[k].rows);
    }
    assert(out1 =~= out2);
}

/// Law: the subtask count a task shows equals the length of its linked
/// subtask list. It saturates only past `i32::MAX` subtasks, so it is
/// stated for lists that fit.
pub proof fn lemma_child_count_consistency(links: LinkEntries, task: Seq<char>)
    requires
        children_of(links, task).len() <= i32::MAX,
    ensures
        num_subtasks_of(links, task) == children_of(links, task).len(),
{
}

/// Concatenation of the filtered id lists of the given lanes, in order.
pub open spec fn lane_filter_concat(
    b: BoardLanes,
    lanes: Seq<TaskStatus>,
    p: spec_fn(Seq<char>) -> bool,
) -> Seq<Seq<char>>
    decreases lanes.len(),
{
    if lanes.len() == 0 {
        Seq::empty()
    } else {
        lane_filter_concat(b, lanes.drop_last(), p) + b[lanes.last()].filter(p)
    }
}

} // verus!
