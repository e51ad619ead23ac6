//! The consistency coordinator: the operations the command layer calls.
//! Each one touches the record stores, the board index and the link index
//! in a fixed order and keeps them mutually consistent.

use crate::boards::{lane_or_empty, spec_move, BoardLanes, KanbanBoard};
use crate::error::AppError;
use crate::links::{
    children_of, link_index, parent_index, parent_of, spec_relink, LinkEntries, TaskToSubtaskMap,
};
use crate::store::{store_get, store_index, Store};
use crate::subtasks::{subtask_swimlane_change_ok, SubTaskItem, SubTaskItemView};
use crate::tasks::{swimlane_change_ok, TaskItem, TaskItemView};
use crate::utils::{
    five_digits, swimlane_of_keyword, valid_date, TaskPriority, TaskStatus, TimeStamp,
};
use vstd::prelude::*;

verus! {

/// Abstract value of the whole tracker state.
pub ghost struct CoordinatorView {
    pub board: BoardLanes,
    pub links: LinkEntries,
    pub tasks: Seq<(Seq<char>, TaskItemView)>,
    pub subtasks: Seq<(Seq<char>, SubTaskItemView)>,
}

/// The board of a fresh tracker: all five swimlanes initialized and empty.
pub open spec fn initial_board() -> BoardLanes {
    Map::<TaskStatus, Seq<Seq<char>>>::empty().insert(TaskStatus::ToDo, Seq::empty()).insert(
        TaskStatus::InProgress,
        Seq::empty(),
    ).insert(TaskStatus::Blocked, Seq::empty()).insert(TaskStatus::InReview, Seq::empty()).insert(
        TaskStatus::Done,
        Seq::empty(),
    )
}


/// What creating a task promises: the record written under the fresh id,
/// the id appended to the to-do lane, an empty link entry added, and the
/// subtask store untouched.
pub open spec fn created_task_ok(
    pre: CoordinatorView,
    post: CoordinatorView,
    id: Seq<char>,
    name: Seq<char>,
    description: Seq<char>,
    deadline: Option<TimeStamp>,
    priority: TaskPriority,
) -> bool {
    let t = store_get(post.tasks, id)->Some_0;
    &&& store_get(post.tasks, id) is Some
    &&& t.name == name
    &&& t.description == description
    &&& t.deadline == deadline
    &&& t.priority == priority
    &&& t.status == TaskStatus::ToDo
    &&& t.started_on is None
    &&& t.completed_on is None
    &&& valid_date(t.added_on)
    &&& t.id == id
    &&& (exists|n: int| 0 <= n < 100000 && t.id == "TASK-"@ + five_digits(n))
    &&& post.tasks == crate::store::spec_store_put(pre.tasks, id, t)
    &&& post.board == pre.board.insert(
        TaskStatus::ToDo,
        lane_or_empty(pre.board, TaskStatus::ToDo).push(id),
    )
    &&& post.links == match link_index(pre.links, id) {
        Some(i) => pre.links.update(i, (id, pre.links[i].1 + Seq::<Seq<char>>::empty())),
        None => pre.links.push((id, Seq::<Seq<char>>::empty())),
    }
    &&& post.subtasks == pre.subtasks
}

/// What creating a subtask promises: the record written under the fresh
/// id, the id appended to the to-do lane, the id linked under the parent,
/// and the task store untouched.
pub open spec fn created_subtask_ok(
    pre: CoordinatorView,
    post: CoordinatorView,
    id: Seq<char>,
    name: Seq<char>,
    description: Seq<char>,
    deadline: Option<TimeStamp>,
    priority: TaskPriority,
    parent: Seq<char>,
) -> bool {
    let t = store_get(post.subtasks, id)->Some_0;
    &&& store_get(post.subtasks, id) is Some
    &&& t.name == name
    &&& t.description == description
    &&& t.deadline == deadline
    &&& t.priority == priority
    &&& t.status == TaskStatus::ToDo
    &&& t.started_on is None
    &&& t.completed_on is None
    &&& valid_date(t.added_on)
    &&& t.id == id
    &&& (exists|n: int| 0 <= n < 100000 && t.id == "SUBTASK-"@ + five_digits(n))
    &&& post.subtasks == crate::store::spec_store_put(pre.subtasks, id, t)
    &&& post.board == pre.board.insert(
        TaskStatus::ToDo,
        lane_or_empty(pre.board, TaskStatus::ToDo).push(id),
    )
    &&& post.links == match link_index(pre.links, parent) {
        Some(i) => pre.links.update(i, (parent, pre.links[i].1 + seq![id])),
        None => pre.links.push((parent, seq![id])),
    }
    &&& post.tasks == pre.tasks
}


/// The tracker after removing one linked subtask during a cascade: the
/// subtask's board entry leaves the lane its record names (if that lane is
/// initialized), and its record is removed. An id with no subtask record
/// changes nothing. The link and task stores are untouched: the whole link
/// entry is dropped at the end of the cascade.
pub open spec fn cascade_one(v: CoordinatorView, sub: Seq<char>) -> CoordinatorView {
    match store_get(v.subtasks, sub) {
        Some(st) => {
            let b2 = if v.board.dom().contains(st.status) {
                v.board.insert(st.status, v.board[st.status].remove_value(sub))
            } else {
                v.board
            };
            let s2 = v.subtasks.remove(store_index(v.subtasks, sub)->Some_0);
            CoordinatorView { board: b2, links: v.links, tasks: v.tasks, subtasks: s2 }
        },
        None => v,
    }
}

/// The tracker after cascading over a list of subtask ids, in order.
pub open spec fn cascade_subs(v: CoordinatorView, subs: Seq<Seq<char>>) -> CoordinatorView
    decreases subs.len(),
{
    if subs.len() == 0 {
        v
    } else {
        cascade_one(cascade_subs(v, subs.drop_last()), subs.last())
    }
}

/// A cascade never touches the link index or the task store.
pub proof fn lemma_cascade_preserves(v: CoordinatorView, subs: Seq<Seq<char>>)
    ensures
        cascade_subs(v, subs).links == v.links,
        cascade_subs(v, subs).tasks == v.tasks,
    decreases subs.len(),
{
    if subs.len() > 0 {
        lemma_cascade_preserves(v, subs.drop_last());
    }
}

/// The tracker after deleting task `id` whose record reads `t`: every
/// linked subtask is cascaded away, then the task leaves its own lane, its
/// record is removed, and its whole link entry is dropped.
pub open spec fn spec_delete_task(v: CoordinatorView, id: Seq<char>, t: TaskItemView) -> CoordinatorView {
    let v1 = cascade_subs(v, children_of(v.links, id));
    let b2 = if v1.board.dom().contains(t.status) {
        v1.board.insert(t.status, v1.board[t.status].remove_value(id))
    } else {
        v1.board
    };
    let t2 = match store_index(v1.tasks, id) {
        Some(i) => v1.tasks.remove(i),
        None => v1.tasks,
    };
    let l2 = match link_index(v1.links, id) {
        Some(i) => v1.links.remove(i),
        None => v1.links,
    };
    CoordinatorView { board: b2, links: l2, tasks: t2, subtasks: v1.subtasks }
}


/// Whether a board entry `e` of lane `s` is backed by a record whose own
/// status field names that lane.
pub open spec fn board_entry_ok(v: CoordinatorView, s: TaskStatus, e: Seq<char>) -> bool {
    ||| (store_get(v.tasks, e) matches Some(t) && t.status == s)
    ||| (store_get(v.subtasks, e) matches Some(st) && st.status == s)
}

/// The cross-store invariants the coordinator keeps between operations:
/// records keyed uniquely and by at most one kind; every board entry
/// backed by a record in its own lane, each lane duplicate-free and every
/// lane initialized; link keys unique, every linked subtask id backed by a
/// subtask record, and each subtask id linked at most once.
pub open spec fn wf(v: CoordinatorView) -> bool {
    &&& crate::store::store_keys_unique(v.tasks)
    &&& crate::store::store_keys_unique(v.subtasks)
    &&& forall|id: Seq<char>|
        !(#[trigger] crate::store::store_has(v.tasks, id) && crate::store::store_has(
            v.subtasks,
            id,
        ))
    &&& forall|s: TaskStatus, p: int|
        v.board.dom().contains(s) && 0 <= p < v.board[s].len() ==> board_entry_ok(
            v,
            s,
            #[trigger] v.board[s][p],
        )
    &&& forall|s: TaskStatus| v.board.dom().contains(s) ==> (#[trigger] v.board[s]).no_duplicates()
    &&& forall|s: TaskStatus| v.board.dom().contains(s)
    &&& crate::links::link_keys_unique(v.links)
    &&& forall|i: int, q: int|
        0 <= i < v.links.len() && 0 <= q < v.links[i].1.len() ==> crate::store::store_has(
            v.subtasks,
            #[trigger] v.links[i].1[q],
        )
    &&& forall|i: int| 0 <= i < v.links.len() ==> (#[trigger] v.links[i].1).no_duplicates()
    &&& forall|i: int, j: int, sub: Seq<char>|
        0 <= i < j < v.links.len() ==> !(#[trigger] v.links[i].1.contains(sub)
            && #[trigger] v.links[j].1.contains(sub))
}

/// What cascading over a duplicate-free list of backed subtask ids does:
/// their records disappear, every board occurrence of theirs disappears,
/// and nothing else changes.
proof fn lemma_cascade_effects(v: CoordinatorView, subs: Seq<Seq<char>>)
    requires
        wf(v),
        subs.no_duplicates(),
        forall|q: int| 0 <= q < subs.len() ==> crate::store::store_has(v.subtasks, #[trigger] subs[q]),
    ensures
        ({
            let v1 = cascade_subs(v, subs);
            &&& v1.links == v.links
            &&& v1.tasks == v.tasks
            &&& v1.board.dom() == v.board.dom()
            &&& forall|i: int, j: int|
                0 <= i < j < v1.subtasks.len() ==> v1.subtasks[i].0 != v1.subtasks[j].0
            &&& forall|x: Seq<char>|
                subs.contains(x) ==> #[trigger] store_get(v1.subtasks, x) is None
            &&& forall|x: Seq<char>|
                !subs.contains(x) ==> #[trigger] store_get(v1.subtasks, x) == store_get(
                    v.subtasks,
                    x,
                )
            &&& forall|s: TaskStatus, x: Seq<char>|
                v.board.dom().contains(s) && subs.contains(x) ==> !(#[trigger] v1.board[s].contains(
                    x,
                ))
            &&& forall|s: TaskStatus, x: Seq<char>|
                v.board.dom().contains(s) && !subs.contains(x) ==> (#[trigger] v1.board[s].contains(
                    x,
                )) == v.board[s].contains(x)
            &&& forall|s: TaskStatus|
                v.board.dom().contains(s) ==> (#[trigger] v1.board[s]).no_duplicates()
        }),
    decreases subs.len(),
{
    if subs.len() == 0 {
    } else {
        let prefix = subs.drop_last();
        let last = subs.last();
        assert(forall|q: int| 0 <= q < prefix.len() ==> prefix[q] == subs[q]);
        lemma_cascade_effects(v, prefix);
        let v1 = cascade_subs(v, prefix);
        let v2 = cascade_one(v1, last);
        assert(v2 == cascade_subs(v, subs));
        assert(subs.contains(last));
        assert(!prefix.contains(last)) by {
            if prefix.contains(last) {
                let w = choose|w: int| 0 <= w < prefix.len() && prefix[w] == last;
                assert(subs[w] == subs[subs.len() - 1]);
            }
        }
        assert(forall|x: Seq<char>| prefix.contains(x) ==> subs.contains(x));
        assert(forall|x: Seq<char>|
            subs.contains(x) ==> x == last || prefix.contains(x));
        // the record of `last` survives the prefix cascade
        assert(store_get(v1.subtasks, last) == store_get(v.subtasks, last));
        crate::store::lemma_store_index_props(v.subtasks, last);
        let st = store_get(v.subtasks, last)->Some_0;
        assert(store_get(v1.subtasks, last) is Some);
        // so the step removes it
        crate::store::lemma_store_index_props(v1.subtasks, last);
        let p = crate::store::store_index(v1.subtasks, last)->Some_0;
        crate::store::lemma_remove_key(v1.subtasks, last);
        assert forall|x: Seq<char>| x != last implies #[trigger] store_get(
            v2.subtasks,
            x,
        ) == store_get(v1.subtasks, x) by {
            assert(v1.subtasks[p].0 == last);
            crate::store::lemma_remove_preserves_others(v1.subtasks, p, x);
        }
        // board: `last` leaves its own lane, everything else stays
        assert(v.board.dom().contains(st.status));
        assert(v2.board == v1.board.insert(st.status, v1.board[st.status].remove_value(last)));
        assert forall|s: TaskStatus, x: Seq<char>|
            v.board.dom().contains(s) && x != last implies (#[trigger] v2.board[s].contains(x))
            == v1.board[s].contains(x) by {
            if s == st.status {
                crate::utils::lemma_remove_value_other(v1.board[st.status], last, x);
            }
        }
        assert forall|s: TaskStatus| v.board.dom().contains(s) implies (
        #[trigger] v2.board[s]).no_duplicates() by {
            if s == st.status {
                crate::utils::lemma_remove_value_no_dup(v1.board[st.status], last);
            }
        }
        // `last` occurs nowhere on the board afterwards: in `v` it could
        // occur only in the lane its record names
        assert forall|s: TaskStatus| v.board.dom().contains(s) implies !(
        #[trigger] v2.board[s].contains(last)) by {
            if s == st.status {
                crate::utils::lemma_remove_value_no_dup(v1.board[st.status], last);
            } else {
                if v.board[s].contains(last) {
                    let w = choose|w: int| 0 <= w < v.board[s].len() && v.board[s][w] == last;
                    assert(board_entry_ok(v, s, v.board[s][w]));
                    assert(crate::store::store_has(v.subtasks, last));
                    assert(!crate::store::store_has(v.tasks, last));
                    assert(store_get(v.subtasks, last) == Some(st));
                }
                assert(!v.board[s].contains(last));
                assert(v1.board[s].contains(last) == v.board[s].contains(last));
                assert(v2.board[s] == v1.board[s]);
            }
        }
    }
}

/// Law: deleting a task deletes, with it, every subtask linked under it.
/// Afterwards there is no task record for the id, no subtask record for
/// any linked subtask id, no board occurrence of any of their ids, and no
/// link entry for the task id.
pub proof fn lemma_cascade_delete(v: CoordinatorView, id: Seq<char>, t: TaskItemView)
    requires
        wf(v),
        store_get(v.tasks, id) == Some(t),
    ensures
        ({
            let v2 = spec_delete_task(v, id, t);
            let kids = children_of(v.links, id);
            &&& store_get(v2.tasks, id) is None
            &&& forall|q: int|
                0 <= q < kids.len() ==> #[trigger] store_get(v2.subtasks, kids[q]) is None
            &&& !crate::links::link_has_task(v2.links, id)
            &&& forall|s: TaskStatus|
                v2.board.dom().contains(s) ==> !(#[trigger] v2.board[s]).contains(id)
            &&& forall|s: TaskStatus, q: int|
                v2.board.dom().contains(s) && 0 <= q < kids.len() ==> !(
                #[trigger] v2.board[s].contains(kids[q]))
        }),
{
    let kids = children_of(v.links, id);
    crate::links::lemma_link_index_props(v.links, id);
    // the children list is duplicate-free and every child has a record
    assert(kids.no_duplicates() && (forall|q: int|
        0 <= q < kids.len() ==> crate::store::store_has(v.subtasks, #[trigger] kids[q]))) by {
        match link_index(v.links, id) {
            Some(li) => {
                assert(kids == v.links[li].1);
            },
            None => {
                assert(kids == Seq::<Seq<char>>::empty());
            },
        }
    }
    lemma_cascade_effects(v, kids);
    let v1 = cascade_subs(v, kids);
    let v2 = spec_delete_task(v, id, t);
    // the task record goes, and stays unique on the way
    assert(store_get(v1.tasks, id) == Some(t));
    crate::store::lemma_store_index_props(v1.tasks, id);
    crate::store::lemma_remove_key(v1.tasks, id);
    assert(store_get(v2.tasks, id) is None);
    // the link entry goes
    crate::links::lemma_link_index_is_store_index(v1.links, id);
    match link_index(v1.links, id) {
        Some(li) => {
            crate::store::lemma_remove_key(v1.links, id);
            crate::links::lemma_link_index_is_store_index(v2.links, id);
        },
        None => {
            crate::links::lemma_link_index_is_store_index(v2.links, id);
        },
    }
    // the id is not itself a linked subtask, so the cascade spared its
    // board occurrences, which all sit in its own lane
    assert(!kids.contains(id)) by {
        if kids.contains(id) {
            let w = choose|w: int| 0 <= w < kids.len() && kids[w] == id;
            assert(crate::store::store_has(v.subtasks, kids[w]));
            assert(crate::store::store_has(v.tasks, id));
        }
    }
    assert forall|s: TaskStatus| v2.board.dom().contains(s) implies !(
    #[trigger] v2.board[s]).contains(id) by {
        assert(v.board.dom().contains(s));
        if s == t.status {
            crate::utils::lemma_remove_value_no_dup(v1.board[t.status], id);
        } else {
            if v.board[s].contains(id) {
                let w = choose|w: int| 0 <= w < v.board[s].len() && v.board[s][w] == id;
                assert(board_entry_ok(v, s, v.board[s][w]));
                assert(crate::store::store_has(v.tasks, id));
                assert(!crate::store::store_has(v.subtasks, id));
                assert(store_get(v.tasks, id) == Some(t));
            }
            assert(!v.board[s].contains(id));
            assert(v1.board[s].contains(id) == v.board[s].contains(id));
            assert(v2.board[s] == v1.board[s]);
        }
    }
    // every child is already off the board after the cascade, and the
    // final removal of the task id touches no child occurrence
    assert forall|s: TaskStatus, q: int|
        v2.board.dom().contains(s) && 0 <= q < kids.len() implies !(#[trigger] v2.board[s].contains(
        kids[q])) by {
        assert(v.board.dom().contains(s));
        assert(!v1.board[s].contains(kids[q]));
        assert(kids[q] != id);
        if s == t.status {
            crate::utils::lemma_remove_value_other(v1.board[t.status], id, kids[q]);
        }
    }
}


/// A fresh tracker is well formed.
pub proof fn lemma_wf_initial(v: CoordinatorView)
    requires
        v.board == initial_board(),
        v.links == Seq::<(Seq<char>, Seq<Seq<char>>)>::empty(),
        v.tasks == Seq::<(Seq<char>, TaskItemView)>::empty(),
        v.subtasks == Seq::<(Seq<char>, SubTaskItemView)>::empty(),
    ensures
        wf(v),
{
    assert forall|id: Seq<char>|
        !(#[trigger] crate::store::store_has(v.tasks, id) && crate::store::store_has(
            v.subtasks,
            id,
        )) by {
        crate::store::lemma_store_index_props(v.tasks, id);
    }
    assert forall|s: TaskStatus| v.board.dom().contains(s) by {
        assert(initial_board().dom().contains(s)) by {
            match s {
                TaskStatus::ToDo => {},
                TaskStatus::InProgress => {},
                TaskStatus::Blocked => {},
                TaskStatus::InReview => {},
                TaskStatus::Done => {},
            }
        }
    }
    assert forall|s: TaskStatus| v.board.dom().contains(s) implies (
    #[trigger] v.board[s]).no_duplicates() by {
        assert(v.board[s] =~= Seq::<Seq<char>>::empty());
    }
}

/// Editing a record's description, priority or deadline keeps the tracker
/// well formed: the record's status, and everything else, is unchanged.
pub proof fn lemma_wf_edit_task(v: CoordinatorView, v2: CoordinatorView, id: Seq<char>, t: TaskItemView, t2: TaskItemView)
    requires
        wf(v),
        store_get(v.tasks, id) == Some(t),
        t2.status == t.status,
        v2.tasks == crate::store::spec_store_put(v.tasks, id, t2),
        v2.board == v.board,
        v2.links == v.links,
        v2.subtasks == v.subtasks,
    ensures
        wf(v2),
{
    crate::store::lemma_store_index_props(v.tasks, id);
    let i = crate::store::store_index(v.tasks, id)->Some_0;
    assert(v2.tasks == v.tasks.update(i, (id, t2)));
    assert forall|a: int, b: int| 0 <= a < b < v2.tasks.len() implies v2.tasks[a].0
        != v2.tasks[b].0 by {
        assert(v2.tasks[a].0 == v.tasks[a].0);
        assert(v2.tasks[b].0 == v.tasks[b].0);
    }
    assert forall|x: Seq<char>|
        !(#[trigger] crate::store::store_has(v2.tasks, x) && crate::store::store_has(
            v2.subtasks,
            x,
        )) by {
        if x == id {
            assert(crate::store::store_has(v.tasks, id));
        } else {
            crate::store::lemma_put_preserves_others(v.tasks, id, t2, x);
            crate::store::lemma_store_index_props(v.tasks, x);
            crate::store::lemma_store_index_props(v2.tasks, x);
        }
        assert(crate::store::store_has(v2.tasks, x) == crate::store::store_has(v.tasks, x)) by {
            if x == id {
                crate::store::lemma_put_get_round_trip(v.tasks, id, t2);
            } else {
                crate::store::lemma_put_preserves_others(v.tasks, id, t2, x);
            }
            crate::store::lemma_store_index_props(v.tasks, x);
            crate::store::lemma_store_index_props(v2.tasks, x);
        }
    }
    assert forall|s: TaskStatus, p: int|
        v2.board.dom().contains(s) && 0 <= p < v2.board[s].len() implies board_entry_ok(
        v2,
        s,
        #[trigger] v2.board[s][p],
    ) by {
        let e = v2.board[s][p];
        assert(board_entry_ok(v, s, e));
        if e == id {
            crate::store::lemma_put_get_round_trip(v.tasks, id, t2);
            assert(store_get(v.tasks, e) == Some(t));
            assert(store_get(v2.tasks, e) == Some(t2));
        } else {
            crate::store::lemma_put_preserves_others(v.tasks, id, t2, e);
        }
    }
}


/// Moving a task between swimlanes keeps the tracker well formed: the
/// board entry and the record's status field move together.
pub proof fn lemma_wf_move_task(
    v: CoordinatorView,
    v2: CoordinatorView,
    id: Seq<char>,
    t: TaskItemView,
    t2: TaskItemView,
    ns: TaskStatus,
)
    requires
        wf(v),
        store_get(v.tasks, id) == Some(t),
        t2.status == ns,
        v2.board == spec_move(v.board, id, t.status, ns),
        v2.tasks == crate::store::spec_store_put(v.tasks, id, t2),
        v2.links == v.links,
        v2.subtasks == v.subtasks,
    ensures
        wf(v2),
{
    let cs = t.status;
    crate::store::lemma_store_index_props(v.tasks, id);
    let i = crate::store::store_index(v.tasks, id)->Some_0;
    assert(v2.tasks == v.tasks.update(i, (id, t2)));
    assert forall|a: int, b: int| 0 <= a < b < v2.tasks.len() implies v2.tasks[a].0
        != v2.tasks[b].0 by {
        assert(v2.tasks[a].0 == v.tasks[a].0);
        assert(v2.tasks[b].0 == v.tasks[b].0);
    }
    assert forall|x: Seq<char>|
        !(#[trigger] crate::store::store_has(v2.tasks, x) && crate::store::store_has(
            v2.subtasks,
            x,
        )) by {
        assert(crate::store::store_has(v2.tasks, x) == crate::store::store_has(v.tasks, x)) by {
            if x == id {
                crate::store::lemma_put_get_round_trip(v.tasks, id, t2);
            } else {
                crate::store::lemma_put_preserves_others(v.tasks, id, t2, x);
            }
            crate::store::lemma_store_index_props(v.tasks, x);
            crate::store::lemma_store_index_props(v2.tasks, x);
        }
    }
    // in `v`, the id sits only in its own lane, at most once
    assert(crate::store::store_has(v.tasks, id));
    assert forall|s: TaskStatus| v.board.dom().contains(s) && s != cs implies !(
    #[trigger] v.board[s].contains(id)) by {
        if v.board[s].contains(id) {
            let w = choose|w: int| 0 <= w < v.board[s].len() && v.board[s][w] == id;
            assert(board_entry_ok(v, s, v.board[s][w]));
            assert(!crate::store::store_has(v.subtasks, id));
        }
    }
    let b1 = v.board.insert(cs, v.board[cs].remove_value(id));
    crate::utils::lemma_remove_value_no_dup(v.board[cs], id);
    // duplicate-freedom of every lane afterwards
    assert forall|s: TaskStatus| v2.board.dom().contains(s) implies (
    #[trigger] v2.board[s]).no_duplicates() by {
        if s == ns {
            assert(v2.board[ns] == b1[ns].push(id));
            assert(!b1[ns].contains(id)) by {
                if ns == cs {
                } else {
                    assert(b1[ns] == v.board[ns]);
                }
            }
            assert(b1[ns].no_duplicates()) by {
                if ns == cs {
                } else {
                    assert(b1[ns] == v.board[ns]);
                }
            }
            crate::utils::lemma_push_no_dup(b1[ns], id);
        } else if s == cs {
            assert(v2.board[s] == b1[cs]);
        } else {
            assert(v2.board[s] == v.board[s]);
        }
    }
    // every remaining entry still has a backing record in its own lane
    assert forall|s: TaskStatus, p: int|
        v2.board.dom().contains(s) && 0 <= p < v2.board[s].len() implies board_entry_ok(
        v2,
        s,
        #[trigger] v2.board[s][p],
    ) by {
        let e = v2.board[s][p];
        if s == ns && p == v2.board[ns].len() - 1 {
            // the moved id itself
            assert(e == id);
            crate::store::lemma_put_get_round_trip(v.tasks, id, t2);
        } else {
            assert(e != id && v.board[s].contains(e)) by {
                if s == ns {
                    assert(v2.board[ns] == b1[ns].push(id));
                    assert(b1[ns].contains(e)) by {
                        assert(v2.board[ns][p] == b1[ns][p]);
                    }
                    if ns == cs {
                        crate::utils::lemma_remove_value_contains_orig(v.board[cs], id, e);
                    } else {
                        assert(b1[ns] == v.board[ns]);
                    }
                    assert(e != id) by {
                        if ns == cs {
                        } else {
                            assert(b1[ns] == v.board[ns]);
                            assert(!v.board[ns].contains(id));
                        }
                    }
                } else if s == cs {
                    assert(v2.board[cs] == v.board[cs].remove_value(id));
                    assert(v2.board[cs].contains(e));
                    crate::utils::lemma_remove_value_contains_orig(v.board[cs], id, e);
                } else {
                    assert(v2.board[s] == v.board[s]);
                    assert(v.board[s].contains(e));
                    assert(!v.board[s].contains(id));
                }
            }
            let w = choose|w: int| 0 <= w < v.board[s].len() && v.board[s][w] == e;
            assert(board_entry_ok(v, s, e));
            crate::store::lemma_put_preserves_others(v.tasks, id, t2, e);
        }
    }
}

/// Moving a subtask between swimlanes keeps the tracker well formed.
pub proof fn lemma_wf_move_subtask(
    v: CoordinatorView,
    v2: CoordinatorView,
    id: Seq<char>,
    t: SubTaskItemView,
    t2: SubTaskItemView,
    ns: TaskStatus,
)
    requires
        wf(v),
        store_get(v.subtasks, id) == Some(t),
        t2.status == ns,
        v2.board == spec_move(v.board, id, t.status, ns),
        v2.subtasks == crate::store::spec_store_put(v.subtasks, id, t2),
        v2.links == v.links,
        v2.tasks == v.tasks,
    ensures
        wf(v2),
{
    let cs = t.status;
    crate::store::lemma_store_index_props(v.subtasks, id);
    let i = crate::store::store_index(v.subtasks, id)->Some_0;
    assert(v2.subtasks == v.subtasks.update(i, (id, t2)));
    assert forall|a: int, b: int| 0 <= a < b < v2.subtasks.len() implies v2.subtasks[a].0
        != v2.subtasks[b].0 by {
        assert(v2.subtasks[a].0 == v.subtasks[a].0);
        assert(v2.subtasks[b].0 == v.subtasks[b].0);
    }
    assert forall|x: Seq<char>|
        #[trigger] crate::store::store_has(v2.subtasks, x) == crate::store::store_has(
            v.subtasks,
            x,
        ) by {
        if x == id {
            crate::store::lemma_put_get_round_trip(v.subtasks, id, t2);
        } else {
            crate::store::lemma_put_preserves_others(v.subtasks, id, t2, x);
        }
        crate::store::lemma_store_index_props(v.subtasks, x);
        crate::store::lemma_store_index_props(v2.subtasks, x);
    }
    assert forall|x: Seq<char>|
        !(#[trigger] crate::store::store_has(v2.tasks, x) && crate::store::store_has(
            v2.subtasks,
            x,
        )) by {}
    // linked subtask ids keep their records
    assert forall|a: int, q: int|
        0 <= a < v2.links.len() && 0 <= q < v2.links[a].1.len() implies crate::store::store_has(
        v2.subtasks,
        #[trigger] v2.links[a].1[q],
    ) by {}
    // in `v`, the id sits only in its own lane, at most once
    assert(crate::store::store_has(v.subtasks, id));
    assert forall|s: TaskStatus| v.board.dom().contains(s) && s != cs implies !(
    #[trigger] v.board[s].contains(id)) by {
        if v.board[s].contains(id) {
            let w = choose|w: int| 0 <= w < v.board[s].len() && v.board[s][w] == id;
            assert(board_entry_ok(v, s, v.board[s][w]));
            assert(!crate::store::store_has(v.tasks, id));
        }
    }
    let b1 = v.board.insert(cs, v.board[cs].remove_value(id));
    crate::utils::lemma_remove_value_no_dup(v.board[cs], id);
    assert forall|s: TaskStatus| v2.board.dom().contains(s) implies (
    #[trigger] v2.board[s]).no_duplicates() by {
        if s == ns {
            assert(v2.board[ns] == b1[ns].push(id));
            assert(!b1[ns].contains(id)) by {
                if ns == cs {
                } else {
                    assert(b1[ns] == v.board[ns]);
                }
            }
            assert(b1[ns].no_duplicates()) by {
                if ns == cs {
                } else {
                    assert(b1[ns] == v.board[ns]);
                }
            }
            crate::utils::lemma_push_no_dup(b1[ns], id);
        } else if s == cs {
            assert(v2.board[s] == b1[cs]);
        } else {
            assert(v2.board[s] == v.board[s]);
        }
    }
    assert forall|s: TaskStatus, p: int|
        v2.board.dom().contains(s) && 0 <= p < v2.board[s].len() implies board_entry_ok(
        v2,
        s,
        #[trigger] v2.board[s][p],
    ) by {
        let e = v2.board[s][p];
        if s == ns && p == v2.board[ns].len() - 1 {
            assert(e == id);
            crate::store::lemma_put_get_round_trip(v.subtasks, id, t2);
        } else {
            assert(e != id && v.board[s].contains(e)) by {
                if s == ns {
                    assert(v2.board[ns] == b1[ns].push(id));
                    assert(b1[ns].contains(e)) by {
                        assert(v2.board[ns][p] == b1[ns][p]);
                    }
                    if ns == cs {
                        crate::utils::lemma_remove_value_contains_orig(v.board[cs], id, e);
                    } else {
                        assert(b1[ns] == v.board[ns]);
                    }
                    assert(e != id) by {
                        if ns == cs {
                        } else {
                            assert(b1[ns] == v.board[ns]);
                            assert(!v.board[ns].contains(id));
                        }
                    }
                } else if s == cs {
                    assert(v2.board[cs] == v.board[cs].remove_value(id));
                    assert(v2.board[cs].contains(e));
                    crate::utils::lemma_remove_value_contains_orig(v.board[cs], id, e);
                } else {
                    assert(v2.board[s] == v.board[s]);
                    assert(v.board[s].contains(e));
                    assert(!v.board[s].contains(id));
                }
            }
            let w = choose|w: int| 0 <= w < v.board[s].len() && v.board[s][w] == e;
            assert(board_entry_ok(v, s, e));
            crate::store::lemma_put_preserves_others(v.subtasks, id, t2, e);
        }
    }
}


/// Deleting a subtask keeps the tracker well formed: its record, board
/// entry and link leave together.
pub proof fn lemma_wf_delete_subtask(
    v: CoordinatorView,
    v2: CoordinatorView,
    id: Seq<char>,
    st: SubTaskItemView,
)
    requires
        wf(v),
        store_get(v.subtasks, id) == Some(st),
        v2.board == v.board.insert(st.status, v.board[st.status].remove_value(id)),
        v2.subtasks == v.subtasks.remove(crate::store::store_index(v.subtasks, id)->Some_0),
        v2.links == match parent_index(v.links, id) {
            Some(i) => v.links.update(i, (v.links[i].0, v.links[i].1.remove_value(id))),
            None => v.links,
        },
        v2.tasks == v.tasks,
    ensures
        wf(v2),
{
    crate::store::lemma_store_index_props(v.subtasks, id);
    crate::store::lemma_remove_key(v.subtasks, id);
    let p = crate::store::store_index(v.subtasks, id)->Some_0;
    assert forall|a: int, b: int| 0 <= a < b < v2.subtasks.len() implies v2.subtasks[a].0
        != v2.subtasks[b].0 by {
        assert(v2.subtasks == v.subtasks.remove(p));
    }
    assert forall|x: Seq<char>| x != id implies #[trigger] store_get(v2.subtasks, x) == store_get(
        v.subtasks,
        x,
    ) by {
        assert(v.subtasks[p].0 == id);
        crate::store::lemma_remove_preserves_others(v.subtasks, p, x);
    }
    assert forall|x: Seq<char>|
        !(#[trigger] crate::store::store_has(v2.tasks, x) && crate::store::store_has(
            v2.subtasks,
            x,
        )) by {
        if x != id {
            assert(store_get(v2.subtasks, x) == store_get(v.subtasks, x));
            crate::store::lemma_store_index_props(v.subtasks, x);
            crate::store::lemma_store_index_props(v2.subtasks, x);
        }
    }
    // in `v`, the id sits only in its own lane
    assert forall|s: TaskStatus| v.board.dom().contains(s) && s != st.status implies !(
    #[trigger] v.board[s].contains(id)) by {
        if v.board[s].contains(id) {
            let w = choose|w: int| 0 <= w < v.board[s].len() && v.board[s][w] == id;
            assert(board_entry_ok(v, s, v.board[s][w]));
            assert(!crate::store::store_has(v.tasks, id));
        }
    }
    crate::utils::lemma_remove_value_no_dup(v.board[st.status], id);
    assert forall|s: TaskStatus| v2.board.dom().contains(s) implies (
    #[trigger] v2.board[s]).no_duplicates() by {
        if s != st.status {
            assert(v2.board[s] == v.board[s]);
        }
    }
    assert forall|s: TaskStatus, q: int|
        v2.board.dom().contains(s) && 0 <= q < v2.board[s].len() implies board_entry_ok(
        v2,
        s,
        #[trigger] v2.board[s][q],
    ) by {
        let e = v2.board[s][q];
        if s == st.status {
            assert(v2.board[s] == v.board[st.status].remove_value(id));
            assert(v2.board[s].contains(e)) by {
                assert(v2.board[s][q] == e);
            }
            crate::utils::lemma_remove_value_contains_orig(v.board[st.status], id, e);
            assert(e != id);
        } else {
            assert(v2.board[s] == v.board[s]);
            assert(v.board[s].contains(e)) by {
                assert(v.board[s][q] == e);
            }
            assert(!v.board[s].contains(id));
            assert(e != id);
        }
        let w = choose|w: int| 0 <= w < v.board[s].len() && v.board[s][w] == e;
        assert(board_entry_ok(v, s, e));
    }
    // link clauses: one list may lose its first occurrence of the id
    match parent_index(v.links, id) {
        Some(pi) => {
            lemma_parent_index_props_local(v.links, id);
            crate::utils::lemma_remove_value_no_dup(v.links[pi].1, id);
            assert forall|a: int, q: int|
                0 <= a < v2.links.len() && 0 <= q < v2.links[a].1.len() implies
                crate::store::store_has(v2.subtasks, #[trigger] v2.links[a].1[q]) by {
                let x = v2.links[a].1[q];
                if a == pi {
                    assert(v2.links[a].1 == v.links[pi].1.remove_value(id));
                    assert(v2.links[a].1.contains(x)) by {
                        assert(v2.links[a].1[q] == x);
                    }
                    crate::utils::lemma_remove_value_contains_orig(v.links[pi].1, id, x);
                    assert(x != id);
                } else {
                    assert(v2.links[a] == v.links[a]);
                    assert(v.links[a].1.contains(x)) by {
                        assert(v.links[a].1[q] == x);
                    }
                    assert(x != id) by {
                        if x == id {
                            if a < pi {
                                assert(!(v.links[a].1.contains(id) && v.links[pi].1.contains(id)));
                            } else {
                                assert(!(v.links[pi].1.contains(id) && v.links[a].1.contains(id)));
                            }
                        }
                    }
                }
                assert(crate::store::store_has(v.subtasks, x));
                assert(store_get(v2.subtasks, x) == store_get(v.subtasks, x));
                crate::store::lemma_store_index_props(v.subtasks, x);
                crate::store::lemma_store_index_props(v2.subtasks, x);
            }
            assert forall|a: int, b: int, x: Seq<char>|
                0 <= a < b < v2.links.len() implies !(#[trigger] v2.links[a].1.contains(x)
                && #[trigger] v2.links[b].1.contains(x)) by {
                if v2.links[a].1.contains(x) && v2.links[b].1.contains(x) {
                    assert(v.links[a].1.contains(x)) by {
                        if a == pi {
                            crate::utils::lemma_remove_value_contains_orig(v.links[pi].1, id, x);
                        } else {
                            assert(v2.links[a] == v.links[a]);
                        }
                    }
                    assert(v.links[b].1.contains(x)) by {
                        if b == pi {
                            crate::utils::lemma_remove_value_contains_orig(v.links[pi].1, id, x);
                        } else {
                            assert(v2.links[b] == v.links[b]);
                        }
                    }
                }
            }
            assert forall|a: int| 0 <= a < v2.links.len() implies (
            #[trigger] v2.links[a].1).no_duplicates() by {
                if a != pi {
                    assert(v2.links[a] == v.links[a]);
                }
            }
            assert forall|a: int, b: int| 0 <= a < b < v2.links.len() implies v2.links[a].0
                != v2.links[b].0 by {
                assert(v2.links[a].0 == v.links[a].0);
                assert(v2.links[b].0 == v.links[b].0);
            }
        },
        None => {
            lemma_parent_index_props_local(v.links, id);
            assert forall|a: int, q: int|
                0 <= a < v2.links.len() && 0 <= q < v2.links[a].1.len() implies
                crate::store::store_has(v2.subtasks, #[trigger] v2.links[a].1[q]) by {
                let x = v2.links[a].1[q];
                assert(v.links[a].1.contains(x)) by {
                    assert(v.links[a].1[q] == x);
                }
                assert(x != id);
                assert(crate::store::store_has(v.subtasks, x));
                assert(store_get(v2.subtasks, x) == store_get(v.subtasks, x));
                crate::store::lemma_store_index_props(v.subtasks, x);
                crate::store::lemma_store_index_props(v2.subtasks, x);
            }
        },
    }
}

/// `parent_index` facts, re-derivable where the links module is not in
/// scope for its lemma name.
proof fn lemma_parent_index_props_local(m: LinkEntries, sub: Seq<char>)
    ensures
        match parent_index(m, sub) {
            Some(i) => {
                &&& 0 <= i < m.len()
                &&& m[i].1.contains(sub)
                &&& forall|j: int| 0 <= j < i ==> !m[j].1.contains(sub)
            },
            None => forall|j: int| 0 <= j < m.len() ==> !m[j].1.contains(sub),
        },
{
    crate::links::lemma_parent_index_props(m, sub);
}

/// Relinking a subtask keeps the tracker well formed.
pub proof fn lemma_wf_relink(v: CoordinatorView, v2: CoordinatorView, sub: Seq<char>, cur: Seq<char>, new: Seq<char>)
    requires
        wf(v),
        parent_of(v.links, sub) == Some(cur),
        link_index(v.links, new) is Some,
        v2.links == spec_relink(v.links, sub, cur, new),
        v2.board == v.board,
        v2.tasks == v.tasks,
        v2.subtasks == v.subtasks,
    ensures
        wf(v2),
{
    let m = v.links;
    crate::links::lemma_parent_index_props(m, sub);
    let pi = parent_index(m, sub)->Some_0;
    assert(m[pi].0 == cur);
    crate::links::lemma_link_index_props(m, cur);
    let i = link_index(m, cur)->Some_0;
    assert(i == pi) by {
        if i < pi {
            assert(m[i].0 != m[pi].0);
        } else if pi < i {
            assert(m[pi].0 != m[i].0);
        }
    }
    crate::links::lemma_link_index_props(m, new);
    let j = link_index(m, new)->Some_0;
    let m1 = m.update(i, (cur, m[i].1.remove_value(sub)));
    let m2 = m1.update(j, (new, m1[j].1.push(sub)));
    assert(m2 == v2.links);
    crate::utils::lemma_remove_value_no_dup(m[i].1, sub);
    // only the entry for `cur` held the subtask in `v`
    assert forall|a: int| 0 <= a < m.len() && a != pi implies !(#[trigger] m[a].1.contains(
        sub,
    )) by {
        if m[a].1.contains(sub) {
            if a < pi {
                assert(!m[a].1.contains(sub));
            } else {
                assert(!(m[pi].1.contains(sub) && m[a].1.contains(sub)));
            }
        }
    }
    // keys are untouched
    assert forall|a: int, b: int| 0 <= a < b < m2.len() implies m2[a].0 != m2[b].0 by {
        assert(m2[a].0 == m[a].0);
        assert(m2[b].0 == m[b].0);
    }
    // every linked id still has a record
    assert(crate::store::store_has(v.subtasks, sub));
    assert forall|a: int, q: int|
        0 <= a < m2.len() && 0 <= q < m2[a].1.len() implies crate::store::store_has(
        v2.subtasks,
        #[trigger] m2[a].1[q],
    ) by {
        let x = m2[a].1[q];
        if a == j && q == m2[a].1.len() - 1 {
            assert(x == sub);
        } else {
            assert(m[a].1.contains(x)) by {
                if a == j {
                    assert(m2[a].1 == m1[j].1.push(sub));
                    assert(m1[j].1.contains(x)) by {
                        assert(m2[a].1[q] == m1[j].1[q]);
                    }
                    if j == i {
                        crate::utils::lemma_remove_value_contains_orig(m[i].1, sub, x);
                    } else {
                        assert(m1[j] == m[j]);
                    }
                } else if a == i {
                    assert(m2[a].1 == m[i].1.remove_value(sub));
                    assert(m2[a].1.contains(x));
                    crate::utils::lemma_remove_value_contains_orig(m[i].1, sub, x);
                } else {
                    assert(m2[a] == m[a]);
                    assert(m2[a].1[q] == m[a].1[q]);
                }
            }
        }
    }
    // each list stays duplicate-free
    assert forall|a: int| 0 <= a < m2.len() implies (#[trigger] m2[a].1).no_duplicates() by {
        if a == j {
            assert(m2[j].1 == m1[j].1.push(sub));
            assert(!m1[j].1.contains(sub) && m1[j].1.no_duplicates()) by {
                if j == i {
                } else {
                    assert(m1[j] == m[j]);
                }
            }
            crate::utils::lemma_push_no_dup(m1[j].1, sub);
        } else if a == i {
            assert(m2[a].1 == m[i].1.remove_value(sub));
        } else {
            assert(m2[a] == m[a]);
        }
    }
    // the subtask sits in exactly one list afterwards
    assert forall|a: int, b: int, x: Seq<char>|
        0 <= a < b < m2.len() implies !(#[trigger] m2[a].1.contains(x)
        && #[trigger] m2[b].1.contains(x)) by {
        if m2[a].1.contains(x) && m2[b].1.contains(x) {
            if x == sub {
                assert(a != j || b != j);
                if a != j {
                    assert(!m2[a].1.contains(sub)) by {
                        if a == i {
                        } else {
                            assert(m2[a].1 == m[a].1);
                        }
                    }
                }
                if b != j {
                    assert(!m2[b].1.contains(sub)) by {
                        if b == i {
                        } else {
                            assert(m2[b].1 == m[b].1);
                        }
                    }
                }
            } else {
                assert(m[a].1.contains(x)) by {
                    if a == j {
                        assert(m2[a].1 == m1[j].1.push(sub));
                        let w = choose|w: int| 0 <= w < m2[a].1.len() && m2[a].1[w] == x;
                        assert(w < m2[a].1.len() - 1);
                        assert(m1[j].1[w] == x);
                        if j == i {
                            crate::utils::lemma_remove_value_contains_orig(m[i].1, sub, x);
                        } else {
                            assert(m1[j] == m[j]);
                        }
                    } else if a == i {
                        crate::utils::lemma_remove_value_contains_orig(m[i].1, sub, x);
                    } else {
                        assert(m2[a].1 == m[a].1);
                    }
                }
                assert(m[b].1.contains(x)) by {
                    if b == j {
                        assert(m2[b].1 == m1[j].1.push(sub));
                        let w = choose|w: int| 0 <= w < m2[b].1.len() && m2[b].1[w] == x;
                        assert(w < m2[b].1.len() - 1);
                        assert(m1[j].1[w] == x);
                        if j == i {
                            crate::utils::lemma_remove_value_contains_orig(m[i].1, sub, x);
                        } else {
                            assert(m1[j] == m[j]);
                        }
                    } else if b == i {
                        crate::utils::lemma_remove_value_contains_orig(m[i].1, sub, x);
                    } else {
                        assert(m2[b].1 == m[b].1);
                    }
                }
            }
        }
    }
}


/// Creating a task under a fresh id keeps the tracker well formed. Id
/// collisions, possible because ids come from a truncated timestamp, are
/// the one case left out.
pub proof fn lemma_wf_create_task(v: CoordinatorView, v2: CoordinatorView, id: Seq<char>, t: TaskItemView)
    requires
        wf(v),
        !crate::store::store_has(v.tasks, id),
        !crate::store::store_has(v.subtasks, id),
        t.status == TaskStatus::ToDo,
        v2.tasks == crate::store::spec_store_put(v.tasks, id, t),
        v2.board == v.board.insert(
            TaskStatus::ToDo,
            lane_or_empty(v.board, TaskStatus::ToDo).push(id),
        ),
        v2.links == match link_index(v.links, id) {
            Some(i) => v.links.update(i, (id, v.links[i].1 + Seq::<Seq<char>>::empty())),
            None => v.links.push((id, Seq::<Seq<char>>::empty())),
        },
        v2.subtasks == v.subtasks,
    ensures
        wf(v2),
{
    crate::store::lemma_store_index_props(v.tasks, id);
    assert(v2.tasks == v.tasks.push((id, t)));
    assert forall|a: int, b: int| 0 <= a < b < v2.tasks.len() implies v2.tasks[a].0
        != v2.tasks[b].0 by {
        if b == v.tasks.len() as int {
            assert(v2.tasks[a] == v.tasks[a]);
        } else {
            assert(v2.tasks[a] == v.tasks[a]);
            assert(v2.tasks[b] == v.tasks[b]);
        }
    }
    assert forall|x: Seq<char>|
        !(#[trigger] crate::store::store_has(v2.tasks, x) && crate::store::store_has(
            v2.subtasks,
            x,
        )) by {
        if x == id {
            assert(v2.subtasks == v.subtasks);
            assert(!crate::store::store_has(v.subtasks, id));
            assert(!crate::store::store_has(v2.subtasks, x));
        } else {
            crate::store::lemma_put_preserves_others(v.tasks, id, t, x);
            crate::store::lemma_store_index_props(v.tasks, x);
            crate::store::lemma_store_index_props(v2.tasks, x);
            assert(store_get(v2.tasks, x) == store_get(v.tasks, x));
            assert(crate::store::store_has(v2.tasks, x) == crate::store::store_has(v.tasks, x));
        }
    }
    // a fresh id is on no lane: every board entry has a backing record
    assert forall|s: TaskStatus| v.board.dom().contains(s) implies !(
    #[trigger] v.board[s].contains(id)) by {
        if v.board[s].contains(id) {
            let w = choose|w: int| 0 <= w < v.board[s].len() && v.board[s][w] == id;
            assert(board_entry_ok(v, s, v.board[s][w]));
        }
    }
    assert(v.board.dom().contains(TaskStatus::ToDo));
    assert(lane_or_empty(v.board, TaskStatus::ToDo) == v.board[TaskStatus::ToDo]);
    assert forall|s: TaskStatus| v2.board.dom().contains(s) implies (
    #[trigger] v2.board[s]).no_duplicates() by {
        if s == TaskStatus::ToDo {
            crate::utils::lemma_push_no_dup(v.board[TaskStatus::ToDo], id);
        } else {
            assert(v2.board[s] == v.board[s]);
        }
    }
    crate::store::lemma_put_get_round_trip(v.tasks, id, t);
    assert forall|s: TaskStatus, q: int|
        v2.board.dom().contains(s) && 0 <= q < v2.board[s].len() implies board_entry_ok(
        v2,
        s,
        #[trigger] v2.board[s][q],
    ) by {
        let e = v2.board[s][q];
        if s == TaskStatus::ToDo && q == v2.board[s].len() - 1 {
            assert(e == id);
            assert(store_get(v2.tasks, id) == Some(t));
        } else {
            assert(v.board[s].contains(e) && v.board[s][q] == e) by {
                if s == TaskStatus::ToDo {
                    assert(v2.board[s] == v.board[s].push(id));
                }
            }
            assert(board_entry_ok(v, s, e));
            assert(e != id);
            crate::store::lemma_put_preserves_others(v.tasks, id, t, e);
        }
    }
    // link clauses
    crate::links::lemma_link_index_props(v.links, id);
    match link_index(v.links, id) {
        Some(li) => {
            assert(v.links[li].1 + Seq::<Seq<char>>::empty() =~= v.links[li].1);
            assert((id, v.links[li].1 + Seq::<Seq<char>>::empty()) == v.links[li]);
            assert(v2.links =~= v.links);
        },
        None => {
            assert(v2.links == v.links.push((id, Seq::<Seq<char>>::empty())));
            let last = v.links.len() as int;
            assert forall|a: int, b: int| 0 <= a < b < v2.links.len() implies v2.links[a].0
                != v2.links[b].0 by {
                if b == last {
                    assert(v2.links[a] == v.links[a]);
                } else {
                    assert(v2.links[a] == v.links[a]);
                    assert(v2.links[b] == v.links[b]);
                }
            }
            assert forall|a: int, q: int|
                0 <= a < v2.links.len() && 0 <= q < v2.links[a].1.len() implies
                crate::store::store_has(v2.subtasks, #[trigger] v2.links[a].1[q]) by {
                assert(a != last);
                assert(v2.links[a] == v.links[a]);
                assert(v2.links[a].1[q] == v.links[a].1[q]);
            }
            assert forall|a: int| 0 <= a < v2.links.len() implies (
            #[trigger] v2.links[a].1).no_duplicates() by {
                if a != last {
                    assert(v2.links[a] == v.links[a]);
                } else {
                    assert(v2.links[a].1 =~= Seq::<Seq<char>>::empty());
                }
            }
            assert forall|a: int, b: int, x: Seq<char>|
                0 <= a < b < v2.links.len() implies !(#[trigger] v2.links[a].1.contains(x)
                && #[trigger] v2.links[b].1.contains(x)) by {
                if b == last {
                    if v2.links[b].1.contains(x) {
                        let w = choose|w: int|
                            0 <= w < v2.links[b].1.len() && v2.links[b].1[w] == x;
                    }
                } else {
                    assert(v2.links[a] == v.links[a]);
                    assert(v2.links[b] == v.links[b]);
                }
            }
        },
    }
}

/// Creating a subtask under a fresh id keeps the tracker well formed.
pub proof fn lemma_wf_create_subtask(
    v: CoordinatorView,
    v2: CoordinatorView,
    id: Seq<char>,
    t: SubTaskItemView,
    parent: Seq<char>,
)
    requires
        wf(v),
        !crate::store::store_has(v.tasks, id),
        !crate::store::store_has(v.subtasks, id),
        t.status == TaskStatus::ToDo,
        v2.subtasks == crate::store::spec_store_put(v.subtasks, id, t),
        v2.board == v.board.insert(
            TaskStatus::ToDo,
            lane_or_empty(v.board, TaskStatus::ToDo).push(id),
        ),
        v2.links == match link_index(v.links, parent) {
            Some(i) => v.links.update(i, (parent, v.links[i].1 + seq![id])),
            None => v.links.push((parent, seq![id])),
        },
        v2.tasks == v.tasks,
    ensures
        wf(v2),
{
    crate::store::lemma_store_index_props(v.subtasks, id);
    assert(v2.subtasks == v.subtasks.push((id, t)));
    assert forall|a: int, b: int| 0 <= a < b < v2.subtasks.len() implies v2.subtasks[a].0
        != v2.subtasks[b].0 by {
        if b == v.subtasks.len() as int {
            assert(v2.subtasks[a] == v.subtasks[a]);
        } else {
            assert(v2.subtasks[a] == v.subtasks[a]);
            assert(v2.subtasks[b] == v.subtasks[b]);
        }
    }
    crate::store::lemma_put_get_round_trip(v.subtasks, id, t);
    assert forall|x: Seq<char>|
        #[trigger] crate::store::store_has(v2.subtasks, x) == (x == id
            || crate::store::store_has(v.subtasks, x)) by {
        if x == id {
        } else {
            crate::store::lemma_put_preserves_others(v.subtasks, id, t, x);
            crate::store::lemma_store_index_props(v.subtasks, x);
            crate::store::lemma_store_index_props(v2.subtasks, x);
        }
    }
    assert forall|x: Seq<char>|
        !(#[trigger] crate::store::store_has(v2.tasks, x) && crate::store::store_has(
            v2.subtasks,
            x,
        )) by {}
    // a fresh id is on no lane and in no list
    assert forall|s: TaskStatus| v.board.dom().contains(s) implies !(
    #[trigger] v.board[s].contains(id)) by {
        if v.board[s].contains(id) {
            let w = choose|w: int| 0 <= w < v.board[s].len() && v.board[s][w] == id;
            assert(board_entry_ok(v, s, v.board[s][w]));
        }
    }
    assert forall|a: int| 0 <= a < v.links.len() implies !(#[trigger] v.links[a].1.contains(
        id,
    )) by {
        if v.links[a].1.contains(id) {
            let w = choose|w: int| 0 <= w < v.links[a].1.len() && v.links[a].1[w] == id;
            assert(crate::store::store_has(v.subtasks, v.links[a].1[w]));
        }
    }
    assert(v.board.dom().contains(TaskStatus::ToDo));
    assert(lane_or_empty(v.board, TaskStatus::ToDo) == v.board[TaskStatus::ToDo]);
    assert forall|s: TaskStatus| v2.board.dom().contains(s) implies (
    #[trigger] v2.board[s]).no_duplicates() by {
        if s == TaskStatus::ToDo {
            crate::utils::lemma_push_no_dup(v.board[TaskStatus::ToDo], id);
        } else {
            assert(v2.board[s] == v.board[s]);
        }
    }
    assert forall|s: TaskStatus, q: int|
        v2.board.dom().contains(s) && 0 <= q < v2.board[s].len() implies board_entry_ok(
        v2,
        s,
        #[trigger] v2.board[s][q],
    ) by {
        let e = v2.board[s][q];
        if s == TaskStatus::ToDo && q == v2.board[s].len() - 1 {
            assert(e == id);
            assert(store_get(v2.subtasks, id) == Some(t));
        } else {
            assert(v.board[s].contains(e) && v.board[s][q] == e) by {
                if s == TaskStatus::ToDo {
                    assert(v2.board[s] == v.board[s].push(id));
                }
            }
            assert(board_entry_ok(v, s, e));
            assert(e != id);
            crate::store::lemma_put_preserves_others(v.subtasks, id, t, e);
        }
    }
    // link clauses
    crate::links::lemma_link_index_props(v.links, parent);
    match link_index(v.links, parent) {
        Some(li) => {
            assert(v.links[li].0 == parent);
            assert(v.links[li].1 + seq![id] =~= v.links[li].1.push(id));
            assert forall|a: int, b: int| 0 <= a < b < v2.links.len() implies v2.links[a].0
                != v2.links[b].0 by {
                assert(v2.links[a].0 == v.links[a].0);
                assert(v2.links[b].0 == v.links[b].0);
            }
            assert forall|a: int, q: int|
                0 <= a < v2.links.len() && 0 <= q < v2.links[a].1.len() implies
                crate::store::store_has(v2.subtasks, #[trigger] v2.links[a].1[q]) by {
                let x = v2.links[a].1[q];
                if a == li && q == v2.links[a].1.len() - 1 {
                    assert(x == id);
                } else {
                    assert(v.links[a].1.contains(x) && v.links[a].1[q] == x) by {
                        if a == li {
                            assert(v2.links[a].1 == v.links[li].1.push(id));
                        } else {
                            assert(v2.links[a] == v.links[a]);
                        }
                    }
                    assert(crate::store::store_has(v.subtasks, x));
                }
            }
            assert forall|a: int| 0 <= a < v2.links.len() implies (
            #[trigger] v2.links[a].1).no_duplicates() by {
                if a == li {
                    assert(v2.links[a].1 == v.links[li].1.push(id));
                    crate::utils::lemma_push_no_dup(v.links[li].1, id);
                } else {
                    assert(v2.links[a] == v.links[a]);
                }
            }
            assert forall|a: int, b: int, x: Seq<char>|
                0 <= a < b < v2.links.len() implies !(#[trigger] v2.links[a].1.contains(x)
                && #[trigger] v2.links[b].1.contains(x)) by {
                if v2.links[a].1.contains(x) && v2.links[b].1.contains(x) {
                    assert(v.links[a].1.contains(x)) by {
                        if a == li {
                            assert(v2.links[a].1 == v.links[li].1.push(id));
                            let w = choose|w: int|
                                0 <= w < v2.links[a].1.len() && v2.links[a].1[w] == x;
                            if w < v2.links[a].1.len() - 1 {
                                assert(v.links[li].1[w] == x);
                            } else {
                                assert(x == id);
                                assert(!v.links[b].1.contains(id));
                                assert(v2.links[b] == v.links[b]);
                            }
                        } else {
                            assert(v2.links[a] == v.links[a]);
                        }
                    }
                    assert(v.links[b].1.contains(x)) by {
                        if b == li {
                            assert(v2.links[b].1 == v.links[li].1.push(id));
                            let w = choose|w: int|
                                0 <= w < v2.links[b].1.len() && v2.links[b].1[w] == x;
                            if w < v2.links[b].1.len() - 1 {
                                assert(v.links[li].1[w] == x);
                            } else {
                                assert(x == id);
                                assert(!v.links[a].1.contains(id));
                                assert(v2.links[a] == v.links[a]);
                            }
                        } else {
                            assert(v2.links[b] == v.links[b]);
                        }
                    }
                }
            }
        },
        None => {
            assert(v2.links == v.links.push((parent, seq![id])));
            let last = v.links.len() as int;
            assert forall|a: int, b: int| 0 <= a < b < v2.links.len() implies v2.links[a].0
                != v2.links[b].0 by {
                if b == last {
                    assert(v2.links[a] == v.links[a]);
                } else {
                    assert(v2.links[a] == v.links[a]);
                    assert(v2.links[b] == v.links[b]);
                }
            }
            assert forall|a: int, q: int|
                0 <= a < v2.links.len() && 0 <= q < v2.links[a].1.len() implies
                crate::store::store_has(v2.subtasks, #[trigger] v2.links[a].1[q]) by {
                let x = v2.links[a].1[q];
                if a == last {
                    assert(x == id);
                } else {
                    assert(v2.links[a] == v.links[a]);
                    assert(v.links[a].1.contains(x)) by {
                        assert(v.links[a].1[q] == x);
                    }
                    assert(crate::store::store_has(v.subtasks, x));
                }
            }
            assert forall|a: int| 0 <= a < v2.links.len() implies (
            #[trigger] v2.links[a].1).no_duplicates() by {
                if a != last {
                    assert(v2.links[a] == v.links[a]);
                }
            }
            assert forall|a: int, b: int, x: Seq<char>|
                0 <= a < b < v2.links.len() implies !(#[trigger] v2.links[a].1.contains(x)
                && #[trigger] v2.links[b].1.contains(x)) by {
                if v2.links[a].1.contains(x) && v2.links[b].1.contains(x) {
                    assert(v2.links[a] == v.links[a]);
                    if b == last {
                        assert(x == id) by {
                            let w = choose|w: int|
                                0 <= w < v2.links[b].1.len() && v2.links[b].1[w] == x;
                        }
                        assert(!v.links[a].1.contains(id));
                    } else {
                        assert(v2.links[b] == v.links[b]);
                    }
                }
            }
        },
    }
}


/// Deleting a task keeps the tracker well formed: the task, its board
/// entry, its link entry, and every linked subtask with its board entry
/// and record leave together.
pub proof fn lemma_wf_delete_task(v: CoordinatorView, id: Seq<char>, t: TaskItemView)
    requires
        wf(v),
        store_get(v.tasks, id) == Some(t),
    ensures
        wf(spec_delete_task(v, id, t)),
{
    let kids = children_of(v.links, id);
    crate::links::lemma_link_index_props(v.links, id);
    assert(kids.no_duplicates() && (forall|q: int|
        0 <= q < kids.len() ==> crate::store::store_has(v.subtasks, #[trigger] kids[q]))) by {
        match link_index(v.links, id) {
            Some(li) => {
                assert(kids == v.links[li].1);
            },
            None => {
                assert(kids == Seq::<Seq<char>>::empty());
            },
        }
    }
    lemma_cascade_effects(v, kids);
    let v1 = cascade_subs(v, kids);
    let v2 = spec_delete_task(v, id, t);
    assert(v1.tasks == v.tasks && v1.links == v.links);
    // the task record leaves, task keys stay unique
    crate::store::lemma_store_index_props(v1.tasks, id);
    let ti = crate::store::store_index(v1.tasks, id)->Some_0;
    crate::store::lemma_remove_key(v1.tasks, id);
    assert(v2.tasks == v1.tasks.remove(ti));
    assert forall|x: Seq<char>| x != id implies #[trigger] store_get(v2.tasks, x) == store_get(
        v.tasks,
        x,
    ) by {
        assert(v.tasks[ti].0 == id);
        crate::store::lemma_remove_preserves_others(v.tasks, ti, x);
    }
    // no id is both a task and a subtask afterwards
    assert forall|x: Seq<char>|
        !(#[trigger] crate::store::store_has(v2.tasks, x) && crate::store::store_has(
            v2.subtasks,
            x,
        )) by {
        if x == id {
            assert(store_get(v2.tasks, id) is None);
            crate::store::lemma_store_index_props(v2.tasks, x);
            assert(!crate::store::store_has(v2.tasks, x));
        } else {
            if kids.contains(x) {
                assert(store_get(v2.subtasks, x) is None);
                crate::store::lemma_store_index_props(v2.subtasks, x);
                assert(!crate::store::store_has(v2.subtasks, x));
            } else {
                assert(store_get(v2.subtasks, x) == store_get(v.subtasks, x));
                assert(store_get(v2.tasks, x) == store_get(v.tasks, x));
                crate::store::lemma_store_index_props(v.tasks, x);
                crate::store::lemma_store_index_props(v2.tasks, x);
                crate::store::lemma_store_index_props(v.subtasks, x);
                crate::store::lemma_store_index_props(v2.subtasks, x);
                assert(crate::store::store_has(v2.tasks, x) == crate::store::store_has(
                    v.tasks,
                    x,
                ));
                assert(crate::store::store_has(v2.subtasks, x) == crate::store::store_has(
                    v.subtasks,
                    x,
                ));
            }
        }
    }
    // the id was never a linked subtask, so the cascade left it alone
    assert(!kids.contains(id)) by {
        if kids.contains(id) {
            let w = choose|w: int| 0 <= w < kids.len() && kids[w] == id;
            assert(crate::store::store_has(v.subtasks, kids[w]));
            assert(crate::store::store_has(v.tasks, id));
        }
    }
    // in `v`, the id sits only in its own lane
    assert forall|s: TaskStatus| v.board.dom().contains(s) && s != t.status implies !(
    #[trigger] v.board[s].contains(id)) by {
        if v.board[s].contains(id) {
            let w = choose|w: int| 0 <= w < v.board[s].len() && v.board[s][w] == id;
            assert(board_entry_ok(v, s, v.board[s][w]));
            assert(crate::store::store_has(v.tasks, id));
            assert(!crate::store::store_has(v.subtasks, id));
        }
    }
    assert(v.board.dom().contains(t.status));
    crate::utils::lemma_remove_value_no_dup(v1.board[t.status], id);
    assert(v2.board == v1.board.insert(t.status, v1.board[t.status].remove_value(id)));
    // lanes stay duplicate-free
    assert forall|s: TaskStatus| v2.board.dom().contains(s) implies (
    #[trigger] v2.board[s]).no_duplicates() by {
        if s != t.status {
            assert(v2.board[s] == v1.board[s]);
        }
    }
    // every remaining board entry keeps a backing record in its own lane
    assert forall|s: TaskStatus, q: int|
        v2.board.dom().contains(s) && 0 <= q < v2.board[s].len() implies board_entry_ok(
        v2,
        s,
        #[trigger] v2.board[s][q],
    ) by {
        let e = v2.board[s][q];
        assert(v.board.dom().contains(s));
        assert(v1.board[s].contains(e)) by {
            if s == t.status {
                assert(v2.board[s].contains(e)) by {
                    assert(v2.board[s][q] == e);
                }
                crate::utils::lemma_remove_value_contains_orig(v1.board[t.status], id, e);
            } else {
                assert(v2.board[s] == v1.board[s]);
                assert(v1.board[s][q] == e);
            }
        }
        assert(e != id) by {
            if s == t.status {
                assert(v2.board[s].contains(e)) by {
                    assert(v2.board[s][q] == e);
                }
            } else {
                assert(!v.board[s].contains(id));
                if e == id {
                    assert(v1.board[s].contains(id) == v.board[s].contains(id));
                }
            }
        }
        assert(!kids.contains(e)) by {
            if kids.contains(e) {
                assert(!v1.board[s].contains(e));
            }
        }
        assert(v.board[s].contains(e));
        let w = choose|w: int| 0 <= w < v.board[s].len() && v.board[s][w] == e;
        assert(board_entry_ok(v, s, e));
        assert(store_get(v2.tasks, e) == store_get(v.tasks, e));
        assert(store_get(v2.subtasks, e) == store_get(v.subtasks, e));
    }
    // the link entry for the id leaves, everything else is untouched
    crate::links::lemma_link_index_is_store_index(v1.links, id);
    match link_index(v1.links, id) {
        Some(_) => {
            crate::store::lemma_store_index_props(v1.links, id);
            let li = crate::store::store_index(v1.links, id)->Some_0;
            crate::store::lemma_remove_key(v1.links, id);
            assert(v2.links == v1.links.remove(li));
            assert(v.links[li].0 == id);
            assert(v.links[li].1 == kids) by {
                crate::links::lemma_link_index_is_store_index(v.links, id);
            }
            // index mapping from the shrunk index to the original
            assert forall|a: int| 0 <= a < v2.links.len() implies #[trigger] v2.links[a] == (
            if a < li {
                v.links[a]
            } else {
                v.links[a + 1]
            }) by {}
            assert forall|a: int, q: int|
                0 <= a < v2.links.len() && 0 <= q < v2.links[a].1.len() implies
                crate::store::store_has(v2.subtasks, #[trigger] v2.links[a].1[q]) by {
                let orig = if a < li {
                    a
                } else {
                    a + 1
                };
                let x = v2.links[a].1[q];
                assert(v.links[orig].1[q] == x);
                assert(v.links[orig].1.contains(x));
                assert(crate::store::store_has(v.subtasks, x));
                assert(!kids.contains(x)) by {
                    if kids.contains(x) {
                        assert(orig != li);
                        if orig < li {
                            assert(!(v.links[orig].1.contains(x) && v.links[li].1.contains(x)));
                        } else {
                            assert(!(v.links[li].1.contains(x) && v.links[orig].1.contains(x)));
                        }
                    }
                }
                assert(store_get(v2.subtasks, x) == store_get(v.subtasks, x));
                crate::store::lemma_store_index_props(v.subtasks, x);
                crate::store::lemma_store_index_props(v2.subtasks, x);
            }
            assert forall|a: int| 0 <= a < v2.links.len() implies (
            #[trigger] v2.links[a].1).no_duplicates() by {
                if a < li {
                    assert(v2.links[a] == v.links[a]);
                } else {
                    assert(v2.links[a] == v.links[a + 1]);
                }
            }
            assert forall|a: int, b: int, x: Seq<char>|
                0 <= a < b < v2.links.len() implies !(#[trigger] v2.links[a].1.contains(x)
                && #[trigger] v2.links[b].1.contains(x)) by {
                let oa = if a < li {
                    a
                } else {
                    a + 1
                };
                let ob = if b < li {
                    b
                } else {
                    b + 1
                };
                assert(v2.links[a] == v.links[oa]);
                assert(v2.links[b] == v.links[ob]);
                assert(oa < ob);
            }
        },
        None => {
            assert(v2.links == v1.links);
        },
    }
}


/// Editing a subtask record's description, priority or deadline keeps the
/// tracker well formed.
pub proof fn lemma_wf_edit_subtask(
    v: CoordinatorView,
    v2: CoordinatorView,
    id: Seq<char>,
    t: SubTaskItemView,
    t2: SubTaskItemView,
)
    requires
        wf(v),
        store_get(v.subtasks, id) == Some(t),
        t2.status == t.status,
        v2.subtasks == crate::store::spec_store_put(v.subtasks, id, t2),
        v2.board == v.board,
        v2.links == v.links,
        v2.tasks == v.tasks,
    ensures
        wf(v2),
{
    crate::store::lemma_store_index_props(v.subtasks, id);
    let i = crate::store::store_index(v.subtasks, id)->Some_0;
    assert(v2.subtasks == v.subtasks.update(i, (id, t2)));
    assert forall|a: int, b: int| 0 <= a < b < v2.subtasks.len() implies v2.subtasks[a].0
        != v2.subtasks[b].0 by {
        assert(v2.subtasks[a].0 == v.subtasks[a].0);
        assert(v2.subtasks[b].0 == v.subtasks[b].0);
    }
    assert forall|x: Seq<char>|
        #[trigger] crate::store::store_has(v2.subtasks, x) == crate::store::store_has(
            v.subtasks,
            x,
        ) by {
        if x == id {
            crate::store::lemma_put_get_round_trip(v.subtasks, id, t2);
        } else {
            crate::store::lemma_put_preserves_others(v.subtasks, id, t2, x);
        }
        crate::store::lemma_store_index_props(v.subtasks, x);
        crate::store::lemma_store_index_props(v2.subtasks, x);
    }
    assert forall|x: Seq<char>|
        !(#[trigger] crate::store::store_has(v2.tasks, x) && crate::store::store_has(
            v2.subtasks,
            x,
        )) by {}
    assert forall|a: int, q: int|
        0 <= a < v2.links.len() && 0 <= q < v2.links[a].1.len() implies crate::store::store_has(
        v2.subtasks,
        #[trigger] v2.links[a].1[q],
    ) by {}
    assert forall|s: TaskStatus, p: int|
        v2.board.dom().contains(s) && 0 <= p < v2.board[s].len() implies board_entry_ok(
        v2,
        s,
        #[trigger] v2.board[s][p],
    ) by {
        let e = v2.board[s][p];
        assert(board_entry_ok(v, s, e));
        if e == id {
            crate::store::lemma_put_get_round_trip(v.subtasks, id, t2);
            assert(store_get(v.subtasks, e) == Some(t));
            assert(store_get(v2.subtasks, e) == Some(t2));
        } else {
            crate::store::lemma_put_preserves_others(v.subtasks, id, t2, e);
        }
    }
}

/// The coordinator: owns the record stores, the board index and the link
/// index, and sequences every multi-store operation.
pub struct Coordinator {
    board: KanbanBoard,
    links: TaskToSubtaskMap,
    tasks: Store<TaskItem>,
    subtasks: Store<SubTaskItem>,
}

impl View for Coordinator {
    type V = CoordinatorView;

    closed spec fn view(&self) -> CoordinatorView {
        CoordinatorView {
            board: self.board@,
            links: self.links@,
            tasks: self.tasks@,
            subtasks: self.subtasks@,
        }
    }
}

impl Coordinator {
    /// A fresh tracker: empty stores, all five swimlanes initialized.
    pub fn new() -> (r: Self)
        ensures
            r@.board == initial_board(),
            r@.links == Seq::<(Seq<char>, Seq<Seq<char>>)>::empty(),
            r@.tasks == Seq::<(Seq<char>, TaskItemView)>::empty(),
            r@.subtasks == Seq::<(Seq<char>, SubTaskItemView)>::empty(),
            wf(r@),
    {
        let mut board = KanbanBoard::new();
        board.init_lane(TaskStatus::ToDo);
        board.init_lane(TaskStatus::InProgress);
        board.init_lane(TaskStatus::Blocked);
        board.init_lane(TaskStatus::InReview);
        board.init_lane(TaskStatus::Done);
        proof {
            assert(board@ =~= initial_board());
        }
        let r = Coordinator {
            board,
            links: TaskToSubtaskMap::new(),
            tasks: Store::new(),
            subtasks: Store::new(),
        };
        proof {
            lemma_wf_initial(r@);
        }
        r
    }

    /// Assemble a tracker from its four stores, as loaded from disk.
    pub fn from_parts(
        board: KanbanBoard,
        links: TaskToSubtaskMap,
        tasks: Store<TaskItem>,
        subtasks: Store<SubTaskItem>,
    ) -> (r: Self)
        ensures
            r@.board == board@,
            r@.links == links@,
            r@.tasks == tasks@,
            r@.subtasks == subtasks@,
    {
        Coordinator { board, links, tasks, subtasks }
    }

    /// The board index.
    pub fn board(&self) -> (r: &KanbanBoard)
        ensures
            r@ == self@.board,
    {
        &self.board
    }

    /// The link index.
    pub fn links(&self) -> (r: &TaskToSubtaskMap)
        ensures
            r@ == self@.links,
    {
        &self.links
    }

    /// The task record store.
    pub fn tasks(&self) -> (r: &Store<TaskItem>)
        ensures
            r@ == self@.tasks,
    {
        &self.tasks
    }

    /// The subtask record store.
    pub fn subtasks(&self) -> (r: &Store<SubTaskItem>)
        ensures
            r@ == self@.subtasks,
    {
        &self.subtasks
    }

    /// Create a task: write its record, append its id to the to-do lane,
    /// and give it an empty link entry.
    pub fn create_task(
        &mut self,
        task_name: String,
        task_description: String,
        task_deadline: Option<TimeStamp>,
        task_priority: TaskPriority,
    ) -> (r: Result<String, AppError>)
        ensures
            r matches Err(e) ==> {
                &&& e is CurrentDateTimeFetchError
                &&& final(self)@ == old(self)@
            },
            r matches Ok(id) ==> created_task_ok(
                old(self)@,
                final(self)@,
                id@,
                task_name@,
                task_description@,
                task_deadline,
                task_priority,
            ),
            r matches Ok(id) ==> ((wf(old(self)@) && !crate::store::store_has(
                old(self)@.tasks,
                id@,
            ) && !crate::store::store_has(old(self)@.subtasks, id@)) ==> wf(final(self)@)),
    {
        let ghost v0 = self@;
        let item: TaskItem = match TaskItem::new(
            task_name,
            task_description,
            task_deadline,
            task_priority,
        ) {
            Ok(t) => t,
            Err(e) => {
                return Err(e);
            },
        };
        let ghost tv = item@;
        let id: String = item.task_id.clone();
        let id_board: String = id.clone();
        let id_store: String = id.clone();
        self.tasks.put(id_store, item);
        match self.board.add_to_board(id_board, TaskStatus::ToDo) {
            Ok(()) => {},
            Err(e) => {
                return Err(e);
            },
        }
        let empty_subs: Vec<String> = Vec::new();
        let id_link: String = id.clone();
        proof {
            assert(empty_subs.deep_view() =~= Seq::<Seq<char>>::empty());
        }
        match self.links.add_new_link(id_link, &empty_subs) {
            Ok(()) => {},
            Err(e) => {
                return Err(e);
            },
        }
        proof {
            crate::links::lemma_link_index_props(v0.links, id@);
            crate::store::lemma_put_get_round_trip(v0.tasks, id@, tv);
            assert(store_get(self@.tasks, id@) == Some(tv));
            if wf(v0) && !crate::store::store_has(v0.tasks, id@) && !crate::store::store_has(
                v0.subtasks,
                id@,
            ) {
                lemma_wf_create_task(v0, self@, id@, tv);
            }
        }
        Ok(id)
    }

    /// Create a subtask: write its record, append its id to the to-do
    /// lane, and link it under `parent_task_id`.
    pub fn create_subtask(
        &mut self,
        subtask_name: String,
        subtask_description: String,
        subtask_deadline: Option<TimeStamp>,
        subtask_priority: TaskPriority,
        parent_task_id: String,
    ) -> (r: Result<String, AppError>)
        ensures
            r matches Err(e) ==> {
                &&& e is CurrentDateTimeFetchError
                &&& final(self)@ == old(self)@
            },
            r matches Ok(id) ==> created_subtask_ok(
                old(self)@,
                final(self)@,
                id@,
                subtask_name@,
                subtask_description@,
                subtask_deadline,
                subtask_priority,
                parent_task_id@,
            ),
            r matches Ok(id) ==> ((wf(old(self)@) && !crate::store::store_has(
                old(self)@.tasks,
                id@,
            ) && !crate::store::store_has(old(self)@.subtasks, id@)) ==> wf(final(self)@)),
    {
        let ghost v0 = self@;
        let ghost parent = parent_task_id@;
        let item: SubTaskItem = match SubTaskItem::new(
            subtask_name,
            subtask_description,
            subtask_deadline,
            subtask_priority,
        ) {
            Ok(t) => t,
            Err(e) => {
                return Err(e);
            },
        };
        let ghost tv = item@;
        let id: String = item.subtask_id.clone();
        let id_board: String = id.clone();
        let id_store: String = id.clone();
        let id_link: String = id.clone();
        self.subtasks.put(id_store, item);
        match self.board.add_to_board(id_board, TaskStatus::ToDo) {
            Ok(()) => {},
            Err(e) => {
                return Err(e);
            },
        }
        let mut sub_list: Vec<String> = Vec::new();
        crate::utils::push_string(&mut sub_list, id_link);
        proof {
            assert(sub_list.deep_view() =~= seq![id@]);
        }
        match self.links.add_new_link(parent_task_id, &sub_list) {
            Ok(()) => {},
            Err(e) => {
                return Err(e);
            },
        }
        proof {
            crate::links::lemma_link_index_props(v0.links, parent);
            crate::store::lemma_put_get_round_trip(v0.subtasks, id@, tv);
            assert(store_get(self@.subtasks, id@) == Some(tv));
            if wf(v0) && !crate::store::store_has(v0.tasks, id@) && !crate::store::store_has(
                v0.subtasks,
                id@,
            ) {
                lemma_wf_create_subtask(v0, self@, id@, tv, parent);
            }
        }
        Ok(id)
    }

    /// Move a task to the swimlane named by the keyword: the board entry
    /// moves lanes, then the record's status field (and stamped dates) is
    /// rewritten.
    pub fn move_task(&mut self, task_id: &String, swimlane: &str) -> (r: Result<(), AppError>)
        ensures
            store_get(old(self)@.tasks, task_id@) is None ==> {
                &&& r is Err
                &&& r->Err_0 is FileReadError
                &&& final(self)@ == old(self)@
            },
            store_get(old(self)@.tasks, task_id@) matches Some(t) ==> {
                &&& swimlane_of_keyword(swimlane@) is None ==> {
                    &&& r is Err
                    &&& r->Err_0 is InvalidSwimlanePassed
                    &&& final(self)@ == old(self)@
                }
                &&& swimlane_of_keyword(swimlane@) matches Some(ns) ==> {
                    &&& (!old(self)@.board.dom().contains(t.status) || !old(
                        self,
                    )@.board.dom().contains(ns)) ==> {
                        &&& r is Err
                        &&& r->Err_0 is SwimlaneNotFoundError
                        &&& final(self)@ == old(self)@
                    }
                    &&& (old(self)@.board.dom().contains(t.status) && old(
                        self,
                    )@.board.dom().contains(ns)) ==> {
                        &&& r is Ok
                        &&& final(self)@.board == spec_move(
                            old(self)@.board,
                            task_id@,
                            t.status,
                            ns,
                        )
                        &&& exists|t2: TaskItemView|
                            swimlane_change_ok(t, t2, ns) && final(self)@.tasks
                                == crate::store::spec_store_put(old(self)@.tasks, task_id@, t2)
                        &&& final(self)@.links == old(self)@.links
                        &&& final(self)@.subtasks == old(self)@.subtasks
                    }
                }
            },
            wf(old(self)@) ==> wf(final(self)@),
    {
        let ghost v0 = self@;
        let mut item: TaskItem = match self.tasks.get(task_id) {
            Ok(t) => t.clone(),
            Err(e) => {
                return Err(e);
            },
        };
        let ghost tv0 = item@;
        match self.board.update_board(task_id.clone(), item.task_status, swimlane) {
            Ok(()) => {},
            Err(e) => {
                return Err(e);
            },
        }
        match item.change_swimlane(swimlane) {
            Ok(()) => {},
            Err(e) => {
                return Err(e);
            },
        }
        let ghost tv2 = item@;
        self.tasks.put(task_id.clone(), item);
        proof {
            if wf(v0) {
                let ns = swimlane_of_keyword(swimlane@)->Some_0;
                lemma_wf_move_task(v0, self@, task_id@, tv0, tv2, ns);
            }
        }
        Ok(())
    }

    /// Move a subtask to the swimlane named by the keyword.
    pub fn move_subtask(&mut self, subtask_id: &String, swimlane: &str) -> (r: Result<
        (),
        AppError,
    >)
        ensures
            store_get(old(self)@.subtasks, subtask_id@) is None ==> {
                &&& r is Err
                &&& r->Err_0 is FileReadError
                &&& final(self)@ == old(self)@
            },
            store_get(old(self)@.subtasks, subtask_id@) matches Some(t) ==> {
                &&& swimlane_of_keyword(swimlane@) is None ==> {
                    &&& r is Err
                    &&& r->Err_0 is InvalidSwimlanePassed
                    &&& final(self)@ == old(self)@
                }
                &&& swimlane_of_keyword(swimlane@) matches Some(ns) ==> {
                    &&& (!old(self)@.board.dom().contains(t.status) || !old(
                        self,
                    )@.board.dom().contains(ns)) ==> {
                        &&& r is Err
                        &&& r->Err_0 is SwimlaneNotFoundError
                        &&& final(self)@ == old(self)@
                    }
                    &&& (old(self)@.board.dom().contains(t.status) && old(
                        self,
                    )@.board.dom().contains(ns)) ==> {
                        &&& r is Ok
                        &&& final(self)@.board == spec_move(
                            old(self)@.board,
                            subtask_id@,
                            t.status,
                            ns,
                        )
                        &&& exists|t2: SubTaskItemView|
                            subtask_swimlane_change_ok(t, t2, ns) && final(self)@.subtasks
                                == crate::store::spec_store_put(old(self)@.subtasks, subtask_id@, t2)
                        &&& final(self)@.links == old(self)@.links
                        &&& final(self)@.tasks == old(self)@.tasks
                    }
                }
            },
            wf(old(self)@) ==> wf(final(self)@),
    {
        let ghost v0 = self@;
        let mut item: SubTaskItem = match self.subtasks.get(subtask_id) {
            Ok(t) => t.clone(),
            Err(e) => {
                return Err(e);
            },
        };
        let ghost tv0 = item@;
        match self.board.update_board(subtask_id.clone(), item.subtask_status, swimlane) {
            Ok(()) => {},
            Err(e) => {
                return Err(e);
            },
        }
        match item.change_swimlane(swimlane) {
            Ok(()) => {},
            Err(e) => {
                return Err(e);
            },
        }
        let ghost tv2 = item@;
        self.subtasks.put(subtask_id.clone(), item);
        proof {
            if wf(v0) {
                let ns = swimlane_of_keyword(swimlane@)->Some_0;
                lemma_wf_move_subtask(v0, self@, subtask_id@, tv0, tv2, ns);
            }
        }
        Ok(())
    }

    /// Relink a subtask under a new parent task: its current parent is
    /// looked up, then the link index moves it.
    pub fn relink_subtask(&mut self, subtask_id: &String, new_task_id: String) -> (r: Result<
        (),
        AppError,
    >)
        ensures
            parent_of(old(self)@.links, subtask_id@) is None ==> {
                &&& r is Err
                &&& r->Err_0 is TaskNotFound
                &&& final(self)@ == old(self)@
            },
            parent_of(old(self)@.links, subtask_id@) matches Some(cur) ==> {
                &&& link_index(old(self)@.links, new_task_id@) is None ==> {
                    &&& r is Err
                    &&& r->Err_0 is TaskNotFound
                    &&& final(self)@ == old(self)@
                }
                &&& link_index(old(self)@.links, new_task_id@) is Some ==> {
                    &&& r is Ok
                    &&& final(self)@.links == spec_relink(
                        old(self)@.links,
                        subtask_id@,
                        cur,
                        new_task_id@,
                    )
                    &&& final(self)@.board == old(self)@.board
                    &&& final(self)@.tasks == old(self)@.tasks
                    &&& final(self)@.subtasks == old(self)@.subtasks
                }
            },
            wf(old(self)@) ==> wf(final(self)@),
    {
        let ghost v0 = self@;
        let ghost new_key = new_task_id@;
        let current: String = match self.links.get_task_id(subtask_id) {
            Some(c) => c,
            None => {
                return Err(AppError::TaskNotFound(subtask_id.clone()));
            },
        };
        proof {
            crate::links::lemma_parent_index_props(self@.links, subtask_id@);
            crate::links::lemma_link_index_props(self@.links, current@);
            match link_index(self@.links, current@) {
                Some(_) => {},
                None => {
                    let i = parent_index(self@.links, subtask_id@)->Some_0;
                    assert(self@.links[i].0 != current@);
                },
            }
        }
        let ghost cur_key = current@;
        match self.links.update_link(subtask_id.clone(), current, new_task_id) {
            Ok(()) => {
                proof {
                    if wf(v0) {
                        lemma_wf_relink(v0, self@, subtask_id@, cur_key, new_key);
                    }
                }
                Ok(())
            },
            Err(e) => Err(e),
        }
    }

    /// Delete a subtask: its board entry leaves its lane, its record is
    /// removed, and the link to its parent is dropped.
    pub fn delete_subtask(&mut self, subtask_id: &String) -> (r: Result<(), AppError>)
        ensures
            store_get(old(self)@.subtasks, subtask_id@) is None ==> {
                &&& r is Err
                &&& r->Err_0 is FileReadError
                &&& final(self)@ == old(self)@
            },
            store_get(old(self)@.subtasks, subtask_id@) matches Some(st) ==> {
                &&& !old(self)@.board.dom().contains(st.status) ==> {
                    &&& r is Err
                    &&& r->Err_0 is SwimlaneNotFoundError
                    &&& final(self)@ == old(self)@
                }
                &&& old(self)@.board.dom().contains(st.status) ==> {
                    &&& r is Ok
                    &&& final(self)@.board == old(self)@.board.insert(
                        st.status,
                        old(self)@.board[st.status].remove_value(subtask_id@),
                    )
                    &&& final(self)@.subtasks == old(self)@.subtasks.remove(
                        store_index(old(self)@.subtasks, subtask_id@)->Some_0,
                    )
                    &&& final(self)@.links == match parent_index(old(self)@.links, subtask_id@) {
                        Some(i) => old(self)@.links.update(
                            i,
                            (
                                old(self)@.links[i].0,
                                old(self)@.links[i].1.remove_value(subtask_id@),
                            ),
                        ),
                        None => old(self)@.links,
                    }
                    &&& final(self)@.tasks == old(self)@.tasks
                }
            },
            wf(old(self)@) ==> wf(final(self)@),
    {
        let ghost v0 = self@;
        let status: TaskStatus = match self.subtasks.get(subtask_id) {
            Ok(t) => t.subtask_status,
            Err(e) => {
                return Err(e);
            },
        };
        match self.board.delete_task(subtask_id.clone(), status) {
            Ok(()) => {},
            Err(e) => {
                return Err(e);
            },
        }
        match self.subtasks.delete(subtask_id) {
            Ok(()) => {},
            Err(e) => {
                return Err(e);
            },
        }
        match self.links.delete_subtask(subtask_id.clone()) {
            Ok(()) => {
                proof {
                    if wf(v0) {
                        let st = store_get(v0.subtasks, subtask_id@)->Some_0;
                        lemma_wf_delete_subtask(v0, self@, subtask_id@, st);
                    }
                }
                Ok(())
            },
            Err(e) => Err(e),
        }
    }


    /// Rewrite the editable fields of a task record: description, priority
    /// and deadline. Name, id, dates and status stay as they are.
    pub fn edit_task(
        &mut self,
        task_id: &String,
        task_description: String,
        task_priority: TaskPriority,
        task_deadline: Option<TimeStamp>,
    ) -> (r: Result<(), AppError>)
        ensures
            store_get(old(self)@.tasks, task_id@) is None ==> {
                &&& r is Err
                &&& r->Err_0 is FileReadError
                &&& final(self)@ == old(self)@
            },
            store_get(old(self)@.tasks, task_id@) matches Some(t) ==> {
                &&& r is Ok
                &&& ({
                    let t2 = store_get(final(self)@.tasks, task_id@)->Some_0;
                    &&& store_get(final(self)@.tasks, task_id@) is Some
                    &&& t2.description == task_description@
                    &&& t2.priority == task_priority
                    &&& t2.deadline == task_deadline
                    &&& t2.id == t.id
                    &&& t2.name == t.name
                    &&& t2.added_on == t.added_on
                    &&& t2.started_on == t.started_on
                    &&& t2.completed_on == t.completed_on
                    &&& t2.status == t.status
                    &&& final(self)@.tasks == crate::store::spec_store_put(
                        old(self)@.tasks,
                        task_id@,
                        t2,
                    )
                })
                &&& final(self)@.board == old(self)@.board
                &&& final(self)@.links == old(self)@.links
                &&& final(self)@.subtasks == old(self)@.subtasks
            },
            wf(old(self)@) ==> wf(final(self)@),
    {
        let ghost v0 = self@;
        let mut item: TaskItem = match self.tasks.get(task_id) {
            Ok(t) => t.clone(),
            Err(e) => {
                return Err(e);
            },
        };
        let ghost tv0 = item@;
        item.task_description = task_description;
        item.task_priority = task_priority;
        item.task_deadline = task_deadline;
        let ghost tv = item@;
        self.tasks.put(task_id.clone(), item);
        proof {
            crate::store::lemma_put_get_round_trip(v0.tasks, task_id@, tv);
            if wf(v0) {
                lemma_wf_edit_task(v0, self@, task_id@, tv0, tv);
            }
        }
        Ok(())
    }

    /// Rewrite the editable fields of a subtask record: description,
    /// priority and deadline.
    pub fn edit_subtask(
        &mut self,
        subtask_id: &String,
        subtask_description: String,
        subtask_priority: TaskPriority,
        subtask_deadline: Option<TimeStamp>,
    ) -> (r: Result<(), AppError>)
        ensures
            store_get(old(self)@.subtasks, subtask_id@) is None ==> {
                &&& r is Err
                &&& r->Err_0 is FileReadError
                &&& final(self)@ == old(self)@
            },
            store_get(old(self)@.subtasks, subtask_id@) matches Some(t) ==> {
                &&& r is Ok
                &&& ({
                    let t2 = store_get(final(self)@.subtasks, subtask_id@)->Some_0;
                    &&& store_get(final(self)@.subtasks, subtask_id@) is Some
                    &&& t2.description == subtask_description@
                    &&& t2.priority == subtask_priority
                    &&& t2.deadline == subtask_deadline
                    &&& t2.id == t.id
                    &&& t2.name == t.name
                    &&& t2.added_on == t.added_on
                    &&& t2.started_on == t.started_on
                    &&& t2.completed_on == t.completed_on
                    &&& t2.status == t.status
                    &&& final(self)@.subtasks == crate::store::spec_store_put(
                        old(self)@.subtasks,
                        subtask_id@,
                        t2,
                    )
                })
                &&& final(self)@.board == old(self)@.board
                &&& final(self)@.links == old(self)@.links
                &&& final(self)@.tasks == old(self)@.tasks
            },
            wf(old(self)@) ==> wf(final(self)@),
    {
        let ghost v0 = self@;
        let mut item: SubTaskItem = match self.subtasks.get(subtask_id) {
            Ok(t) => t.clone(),
            Err(e) => {
                return Err(e);
            },
        };
        let ghost tv0 = item@;
        item.subtask_description = subtask_description;
        item.subtask_priority = subtask_priority;
        item.subtask_deadline = subtask_deadline;
        let ghost tv = item@;
        self.subtasks.put(subtask_id.clone(), item);
        proof {
            crate::store::lemma_put_get_round_trip(v0.subtasks, subtask_id@, tv);
            if wf(v0) {
                lemma_wf_edit_subtask(v0, self@, subtask_id@, tv0, tv);
            }
        }
        Ok(())
    }

    /// Delete a task and, unconditionally, every subtask linked under it:
    /// each linked subtask leaves the board and the subtask store, then the
    /// task leaves its lane, its record and its whole link entry. A linked
    /// id whose subtask record is already gone is skipped, as is a board
    /// removal whose lane is not initialized.
    pub fn delete_task(&mut self, task_id: &String) -> (r: Result<(), AppError>)
        ensures
            store_get(old(self)@.tasks, task_id@) is None ==> {
                &&& r is Err
                &&& r->Err_0 is FileReadError
                &&& final(self)@ == old(self)@
            },
            store_get(old(self)@.tasks, task_id@) matches Some(t) ==> {
                &&& r is Ok
                &&& final(self)@ == spec_delete_task(old(self)@, task_id@, t)
            },
            wf(old(self)@) ==> wf(final(self)@),
            store_get(old(self)@.tasks, task_id@) is Some && wf(old(self)@) ==> {
                let v2 = final(self)@;
                let kids = children_of(old(self)@.links, task_id@);
                &&& store_get(v2.tasks, task_id@) is None
                &&& forall|q: int|
                    0 <= q < kids.len() ==> #[trigger] store_get(v2.subtasks, kids[q]) is None
                &&& !crate::links::link_has_task(v2.links, task_id@)
                &&& forall|s: TaskStatus|
                    v2.board.dom().contains(s) ==> !(#[trigger] v2.board[s]).contains(task_id@)
                &&& forall|s: TaskStatus, q: int|
                    v2.board.dom().contains(s) && 0 <= q < kids.len() ==> !(
                    #[trigger] v2.board[s].contains(kids[q]))
            },
    {
        let ghost v0 = self@;
        let status: TaskStatus = match self.tasks.get(task_id) {
            Ok(t) => t.task_status,
            Err(e) => {
                return Err(e);
            },
        };
        let ghost t = store_get(v0.tasks, task_id@)->Some_0;
        let subs: Vec<String> = self.links.get_subtasks_list(task_id);
        let ghost subs_dv = subs.deep_view();
        proof {
            assert(subs_dv == children_of(v0.links, task_id@));
            assert(self@ == cascade_subs(v0, subs_dv.take(0)));
        }
        let n: usize = subs.len();
        let mut k: usize = 0;
        while k < n
            invariant
                k <= n,
                n == subs.len(),
                subs_dv == subs.deep_view(),
                self@ == cascade_subs(v0, subs_dv.take(k as int)),
            decreases n - k,
        {
            let ghost vk = self@;
            let sub: &String = &subs[k];
            proof {
                assert(subs_dv[k as int] == sub@);
                assert(subs_dv.take(k as int + 1).drop_last() =~= subs_dv.take(k as int));
                assert(subs_dv.take(k as int + 1).last() == subs_dv[k as int]);
            }
            match self.subtasks.get(sub) {
                Ok(s) => {
                    let st: TaskStatus = s.subtask_status;
                    match self.board.delete_task(sub.clone(), st) {
                        _ => {},
                    }
                    match self.subtasks.delete(sub) {
                        _ => {},
                    }
                    proof {
                        assert(self@ == cascade_one(vk, sub@));
                    }
                },
                Err(_) => {
                    proof {
                        assert(self@ == cascade_one(vk, sub@));
                    }
                },
            }
            proof {
                assert(self@ == cascade_subs(v0, subs_dv.take(k as int + 1)));
            }
            k = k + 1;
        }
        proof {
            assert(subs_dv.take(n as int) =~= subs_dv);
            lemma_cascade_preserves(v0, subs_dv);
        }
        match self.board.delete_task(task_id.clone(), status) {
            _ => {},
        }
        match self.tasks.delete(task_id) {
            _ => {},
        }
        match self.links.delete_task(task_id) {
            _ => {},
        }
        proof {
            assert(self@ == spec_delete_task(v0, task_id@, t));
            if wf(v0) {
                lemma_cascade_delete(v0, task_id@, t);
                lemma_wf_delete_task(v0, task_id@, t);
            }
        }
        Ok(())
    }
}

} // verus!
