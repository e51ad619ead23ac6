//! The link index: for each task, the ordered list of subtask ids it owns,
//! with reverse lookup from a subtask to its parent task.

use crate::error::AppError;
use crate::utils::{append_strings, clone_string_vec, push_string, remove_first_occurrence, vec_contains_string};
use vstd::prelude::*;

verus! {

/// Abstract value of the link index: an ordered association list from a
/// task id to the ordered subtask ids linked under it.
pub type LinkEntries = Seq<(Seq<char>, Seq<Seq<char>>)>;

/// Index of the first entry keyed by `task`, if any.
pub open spec fn link_index(m: LinkEntries, task: Seq<char>) -> Option<int>
    decreases m.len(),
{
    if m.len() == 0 {
        None
    } else if m[0].0 == task {
        Some(0int)
    } else {
        match link_index(m.drop_first(), task) {
            Some(i) => Some(i + 1),
            None => None,
        }
    }
}

/// Every entry carries a different task id: the representation invariant
/// the index's operations maintain.
pub open spec fn link_keys_unique(m: LinkEntries) -> bool {
    forall|i: int, j: int| 0 <= i < j < m.len() ==> m[i].0 != m[j].0
}

/// Whether some entry is keyed by `task`.
pub open spec fn link_has_task(m: LinkEntries, task: Seq<char>) -> bool {
    link_index(m, task) is Some
}

/// The subtask ids linked under `task`; empty when `task` has no entry.
pub open spec fn children_of(m: LinkEntries, task: Seq<char>) -> Seq<Seq<char>> {
    match link_index(m, task) {
        Some(i) => m[i].1,
        None => Seq::empty(),
    }
}

/// Index of the first entry whose subtask list holds `sub`, if any.
pub open spec fn parent_index(m: LinkEntries, sub: Seq<char>) -> Option<int>
    decreases m.len(),
{
    if m.len() == 0 {
        None
    } else if m[0].1.contains(sub) {
        Some(0int)
    } else {
        match parent_index(m.drop_first(), sub) {
            Some(i) => Some(i + 1),
            None => None,
        }
    }
}

/// The task owning `sub`: the key of the first entry whose list holds it.
pub open spec fn parent_of(m: LinkEntries, sub: Seq<char>) -> Option<Seq<char>> {
    match parent_index(m, sub) {
        Some(i) => Some(m[i].0),
        None => None,
    }
}

/// `link_index` finds the first entry keyed by `task`.
pub proof fn lemma_link_index_props(m: LinkEntries, task: Seq<char>)
    ensures
        match link_index(m, task) {
            Some(i) => {
                &&& 0 <= i < m.len()
                &&& m[i].0 == task
                &&& forall|j: int| 0 <= j < i ==> m[j].0 != task
            },
            None => forall|j: int| 0 <= j < m.len() ==> m[j].0 != task,
        },
    decreases m.len(),
{
    if m.len() > 0 && m[0].0 != task {
        lemma_link_index_props(m.drop_first(), task);
        assert forall|j: int| 1 <= j < m.len() implies m.drop_first()[j - 1] == m[j] by {}
    }
}

/// The first matching position determines `link_index`.
pub proof fn lemma_link_index_at(m: LinkEntries, task: Seq<char>, i: int)
    requires
        0 <= i < m.len(),
        m[i].0 == task,
        forall|j: int| 0 <= j < i ==> m[j].0 != task,
    ensures
        link_index(m, task) == Some(i),
{
    lemma_link_index_props(m, task);
    match link_index(m, task) {
        Some(i2) => {
            if i2 < i {
                assert(m[i2].0 != task);
            } else if i < i2 {
                assert(m[i].0 != task);
            }
        },
        None => {
            assert(m[i].0 != task);
        },
    }
}

/// `parent_index` finds the first entry whose list holds `sub`.
pub proof fn lemma_parent_index_props(m: LinkEntries, sub: Seq<char>)
    ensures
        match parent_index(m, sub) {
            Some(i) => {
                &&& 0 <= i < m.len()
                &&& m[i].1.contains(sub)
                &&& forall|j: int| 0 <= j < i ==> !m[j].1.contains(sub)
            },
            None => forall|j: int| 0 <= j < m.len() ==> !m[j].1.contains(sub),
        },
    decreases m.len(),
{
    if m.len() > 0 && !m[0].1.contains(sub) {
        lemma_parent_index_props(m.drop_first(), sub);
        assert forall|j: int| 1 <= j < m.len() implies m.drop_first()[j - 1] == m[j] by {}
    }
}

/// The first containing position determines `parent_index`.
pub proof fn lemma_parent_index_at(m: LinkEntries, sub: Seq<char>, i: int)
    requires
        0 <= i < m.len(),
        m[i].1.contains(sub),
        forall|j: int| 0 <= j < i ==> !m[j].1.contains(sub),
    ensures
        parent_index(m, sub) == Some(i),
{
    lemma_parent_index_props(m, sub);
    match parent_index(m, sub) {
        Some(i2) => {
            if i2 < i {
                assert(!m[i2].1.contains(sub));
            } else if i < i2 {
                assert(!m[i].1.contains(sub));
            }
        },
        None => {
            assert(!m[i].1.contains(sub));
        },
    }
}

/// The link index and the record store locate an entry's key the same
/// way: both find the first entry with that key.
pub proof fn lemma_link_index_is_store_index(m: LinkEntries, k: Seq<char>)
    ensures
        link_index(m, k) == crate::store::store_index(m, k),
    decreases m.len(),
{
    if m.len() > 0 && m[0].0 != k {
        lemma_link_index_is_store_index(m.drop_first(), k);
    }
}

/// An entry's subtask list is what a record-store read of its key finds.
pub proof fn lemma_children_of_by_store(m: LinkEntries, k: Seq<char>)
    ensures
        children_of(m, k) == match crate::store::store_get(m, k) {
            Some(l) => l,
            None => Seq::<Seq<char>>::empty(),
        },
{
    lemma_link_index_is_store_index(m, k);
}

/// Link index after relinking `sub` from the entry keyed `cur` to the entry
/// keyed `new`: `sub`'s first occurrence leaves `cur`'s list, then `sub` is
/// appended to `new`'s list.
pub open spec fn spec_relink(
    m: LinkEntries,
    sub: Seq<char>,
    cur: Seq<char>,
    new: Seq<char>,
) -> LinkEntries
    recommends
        link_has_task(m, cur),
        link_has_task(m, new),
{
    let i = link_index(m, cur)->Some_0;
    let j = link_index(m, new)->Some_0;
    let m1 = m.update(i, (cur, m[i].1.remove_value(sub)));
    m1.update(j, (new, m1[j].1.push(sub)))
}

/// Law: after relinking a subtask to a new parent task, that task is its
/// parent, and the subtask appears in no other task's list. It holds
/// whenever the index is well formed going in: task keys unique, each
/// list duplicate-free, and the subtask linked nowhere but under its
/// current parent.
pub proof fn lemma_single_parent_after_relink(
    m: LinkEntries,
    sub: Seq<char>,
    cur: Seq<char>,
    new: Seq<char>,
)
    requires
        link_index(m, cur) is Some,
        link_index(m, new) is Some,
        forall|i: int, j: int| 0 <= i < j < m.len() ==> m[i].0 != m[j].0,
        forall|k: int| 0 <= k < m.len() ==> (#[trigger] m[k].1).no_duplicates(),
        forall|k: int| 0 <= k < m.len() && #[trigger] m[k].1.contains(sub) ==> m[k].0 == cur,
    ensures
        parent_of(spec_relink(m, sub, cur, new), sub) == Some(new),
        forall|k: int|
            0 <= k < spec_relink(m, sub, cur, new).len() && #[trigger] spec_relink(
                m,
                sub,
                cur,
                new,
            )[k].1.contains(sub) ==> spec_relink(m, sub, cur, new)[k].0 == new,
{
    lemma_link_index_props(m, cur);
    lemma_link_index_props(m, new);
    let i = link_index(m, cur)->Some_0;
    let j = link_index(m, new)->Some_0;
    let m1 = m.update(i, (cur, m[i].1.remove_value(sub)));
    let m2 = m1.update(j, (new, m1[j].1.push(sub)));
    assert(m2 == spec_relink(m, sub, cur, new));
    crate::utils::lemma_remove_value_no_dup(m[i].1, sub);
    assert(m2[j].1.contains(sub)) by {
        assert(m2[j].1 == m1[j].1.push(sub));
        assert(m2[j].1.last() == sub);
    }
    assert forall|k: int| 0 <= k < m2.len() && k != j implies !(#[trigger] m2[k].1.contains(
        sub,
    )) by {
        if k == i {
            assert(m2[k].1 == m[i].1.remove_value(sub));
        } else {
            assert(m2[k].1 == m[k].1);
            if m[k].1.contains(sub) {
                assert(m[k].0 == cur);
                assert(m[i].0 == cur);
                if k < i {
                    assert(m[k].0 != m[i].0);
                } else {
                    assert(m[i].0 != m[k].0);
                }
            }
        }
    }
    assert forall|k: int| 0 <= k < j implies !(#[trigger] m2[k].1.contains(sub)) by {}
    lemma_parent_index_at(m2, sub, j);
    assert(parent_of(m2, sub) == Some(m2[j].0));
}

/// The task-to-subtask link index.
pub struct TaskToSubtaskMap {
    tasks: Vec<(String, Vec<String>)>,
}

impl View for TaskToSubtaskMap {
    type V = LinkEntries;

    closed spec fn view(&self) -> LinkEntries {
        Seq::new(self.tasks@.len(), |i: int| (self.tasks@[i].0@, self.tasks@[i].1.deep_view()))
    }
}

impl TaskToSubtaskMap {
    /// Create an empty link index (for first-time setup).
    pub fn new() -> (r: Self)
        ensures
            r@ == Seq::<(Seq<char>, Seq<Seq<char>>)>::empty(),
            link_keys_unique(r@),
    {
        let r = TaskToSubtaskMap { tasks: Vec::new() };
        proof {
            assert(r@ =~= Seq::<(Seq<char>, Seq<Seq<char>>)>::empty());
        }
        r
    }

    /// Index of the entry keyed by `task_id`, if any.
    fn index_of_task(&self, task_id: &String) -> (r: Option<usize>)
        ensures
            match r {
                Some(i) => {
                    &&& i < self.tasks.len()
                    &&& link_index(self@, task_id@) == Some(i as int)
                    &&& self@[i as int].0 == task_id@
                },
                None => link_index(self@, task_id@) is None,
            },
    {
        let n: usize = self.tasks.len();
        let mut i: usize = 0;
        while i < n
            invariant
                i <= n,
                n == self.tasks.len(),
                forall|j: int| 0 <= j < i ==> self@[j].0 != task_id@,
            decreases n - i,
        {
            if self.tasks[i].0 == *task_id {
                proof {
                    assert(self@[i as int].0 == task_id@);
                    lemma_link_index_at(self@, task_id@, i as int);
                }
                return Some(i);
            }
            proof {
                assert(self@[i as int].0 == self.tasks@[i as int].0@);
            }
            i = i + 1;
        }
        proof {
            lemma_link_index_props(self@, task_id@);
            match link_index(self@, task_id@) {
                Some(i2) => {
                    assert(self@[i2].0 != task_id@);
                },
                None => {},
            }
        }
        None
    }

    /// Index of the first entry whose subtask list holds `subtask_id`, if any.
    fn index_of_parent(&self, subtask_id: &String) -> (r: Option<usize>)
        ensures
            match r {
                Some(i) => {
                    &&& i < self.tasks.len()
                    &&& parent_index(self@, subtask_id@) == Some(i as int)
                    &&& self@[i as int].1.contains(subtask_id@)
                },
                None => parent_index(self@, subtask_id@) is None,
            },
    {
        let n: usize = self.tasks.len();
        let mut i: usize = 0;
        while i < n
            invariant
                i <= n,
                n == self.tasks.len(),
                forall|j: int| 0 <= j < i ==> !self@[j].1.contains(subtask_id@),
            decreases n - i,
        {
            if vec_contains_string(&self.tasks[i].1, subtask_id) {
                proof {
                    assert(self@[i as int].1 == self.tasks@[i as int].1.deep_view());
                    lemma_parent_index_at(self@, subtask_id@, i as int);
                }
                return Some(i);
            }
            proof {
                assert(self@[i as int].1 == self.tasks@[i as int].1.deep_view());
            }
            i = i + 1;
        }
        proof {
            lemma_parent_index_props(self@, subtask_id@);
            match parent_index(self@, subtask_id@) {
                Some(i2) => {
                    assert(!self@[i2].1.contains(subtask_id@));
                },
                None => {},
            }
        }
        None
    }

    /// Replace the subtask list of entry `i`, keeping its key.
    fn set_children(&mut self, i: usize, list: Vec<String>)
        requires
            i < old(self).tasks.len(),
        ensures
            final(self)@ == old(self)@.update(
                i as int,
                (old(self)@[i as int].0, list.deep_view()),
            ),
    {
        let ghost m0 = self@;
        let key = self.tasks[i].0.clone();
        self.tasks.set(i, (key, list));
        proof {
            assert(self.tasks@[i as int].0@ == m0[i as int].0);
            assert(self@ =~= m0.update(i as int, (m0[i as int].0, list.deep_view())));
        }
    }

    /// Parent task id for a given subtask id, if the subtask is linked.
    pub fn get_task_id(&self, subtask_id: &String) -> (r: Option<String>)
        ensures
            r.deep_view() == parent_of(self@, subtask_id@),
    {
        match self.index_of_parent(subtask_id) {
            Some(i) => Some(self.tasks[i].0.clone()),
            None => None,
        }
    }

    /// The ordered list of subtask ids linked under `task_id`.
    pub fn get_subtasks_list(&self, task_id: &String) -> (r: Vec<String>)
        ensures
            r.deep_view() == children_of(self@, task_id@),
    {
        match self.index_of_task(task_id) {
            Some(i) => clone_string_vec(&self.tasks[i].1),
            None => {
                let c: Vec<String> = Vec::new();
                proof {
                    assert(c.deep_view() =~= Seq::<Seq<char>>::empty());
                }
                c
            },
        }
    }

    /// Number of subtask ids linked under `task_id`, saturating at `i32::MAX`.
    pub fn get_num_subtasks(&self, task_id: &String) -> (r: i32)
        ensures
            children_of(self@, task_id@).len() <= i32::MAX ==> r as int == children_of(
                self@,
                task_id@,
            ).len(),
            children_of(self@, task_id@).len() > i32::MAX ==> r == i32::MAX,
    {
        match self.index_of_task(task_id) {
            Some(i) => {
                let n: usize = self.tasks[i].1.len();
                proof {
                    assert(children_of(self@, task_id@) == self.tasks@[i as int].1.deep_view());
                }
                if n <= i32::MAX as usize {
                    n as i32
                } else {
                    i32::MAX
                }
            },
            None => 0,
        }
    }

    /// Drop the whole entry for `task_id`; no-op if there is none. Every
    /// other task's list is untouched, and since the index keeps its keys
    /// unique, the task has no entry and no children afterwards.
    pub fn delete_task(&mut self, task_id: &String) -> (r: Result<(), AppError>)
        ensures
            r is Ok,
            final(self)@ == match link_index(old(self)@, task_id@) {
                Some(i) => old(self)@.remove(i),
                None => old(self)@,
            },
            forall|other: Seq<char>|
                other != task_id@ ==> #[trigger] children_of(final(self)@, other) == children_of(
                    old(self)@,
                    other,
                ),
            link_keys_unique(old(self)@) ==> {
                &&& !link_has_task(final(self)@, task_id@)
                &&& children_of(final(self)@, task_id@) == Seq::<Seq<char>>::empty()
                &&& link_keys_unique(final(self)@)
            },
    {
        let ghost m0 = self@;
        match self.index_of_task(task_id) {
            Some(i) => {
                self.tasks.remove(i);
                proof {
                    assert(self@ =~= m0.remove(i as int));
                    assert forall|other: Seq<char>| other != task_id@ implies #[trigger] children_of(
                        self@,
                        other,
                    ) == children_of(m0, other) by {
                        assert(m0[i as int].0 == task_id@);
                        crate::store::lemma_remove_preserves_others(m0, i as int, other);
                        lemma_children_of_by_store(m0, other);
                        lemma_children_of_by_store(self@, other);
                    }
                    if link_keys_unique(m0) {
                        lemma_link_index_is_store_index(m0, task_id@);
                        crate::store::lemma_remove_key(m0, task_id@);
                        lemma_link_index_is_store_index(self@, task_id@);
                        lemma_children_of_by_store(self@, task_id@);
                    }
                }
            },
            None => {},
        }
        Ok(())
    }

    /// Remove `subtask_id` from the list of the task that owns it; no-op if
    /// no task owns it.
    pub fn delete_subtask(&mut self, subtask_id: String) -> (r: Result<(), AppError>)
        ensures
            r is Ok,
            final(self)@ == match parent_index(old(self)@, subtask_id@) {
                Some(i) => old(self)@.update(
                    i,
                    (old(self)@[i].0, old(self)@[i].1.remove_value(subtask_id@)),
                ),
                None => old(self)@,
            },
            link_keys_unique(old(self)@) ==> link_keys_unique(final(self)@),
    {
        let ghost m0 = self@;
        match self.index_of_parent(&subtask_id) {
            Some(i) => {
                let mut list = clone_string_vec(&self.tasks[i].1);
                proof {
                    assert(list.deep_view() == m0[i as int].1);
                }
                remove_first_occurrence(&mut list, &subtask_id);
                self.set_children(i, list);
            },
            None => {},
        }
        proof {
            if link_keys_unique(m0) {
                assert forall|a: int, b: int| 0 <= a < b < self@.len() implies self@[a].0
                    != self@[b].0 by {
                    assert(self@[a].0 == m0[a].0);
                    assert(self@[b].0 == m0[b].0);
                }
            }
        }
        Ok(())
    }

    /// Append `subtask_list` to the entry for `task_id`, creating the entry
    /// at the end of the index if it does not exist yet.
    pub fn add_new_link(&mut self, task_id: String, subtask_list: &Vec<String>) -> (r: Result<
        (),
        AppError,
    >)
        ensures
            r is Ok,
            final(self)@ == match link_index(old(self)@, task_id@) {
                Some(i) => old(self)@.update(
                    i,
                    (task_id@, old(self)@[i].1 + subtask_list.deep_view()),
                ),
                None => old(self)@.push((task_id@, subtask_list.deep_view())),
            },
            link_keys_unique(old(self)@) ==> link_keys_unique(final(self)@),
    {
        let ghost m0 = self@;
        let ghost key0 = task_id@;
        match self.index_of_task(&task_id) {
            Some(i) => {
                let mut list = clone_string_vec(&self.tasks[i].1);
                proof {
                    assert(list.deep_view() == m0[i as int].1);
                }
                append_strings(&mut list, subtask_list);
                self.set_children(i, list);
                proof {
                    assert((m0[i as int].0, m0[i as int].1 + subtask_list.deep_view()) == (
                    task_id@,
                    m0[i as int].1 + subtask_list.deep_view(),
                    ));
                }
            },
            None => {
                let copy = clone_string_vec(subtask_list);
                self.tasks.push((task_id, copy));
                proof {
                    assert(self@ =~= m0.push(
                        (self.tasks@[m0.len() as int].0@, subtask_list.deep_view()),
                    ));
                }
            },
        }
        proof {
            if link_keys_unique(m0) {
                lemma_link_index_props(m0, key0);
                assert forall|a: int, b: int| 0 <= a < b < self@.len() implies self@[a].0
                    != self@[b].0 by {
                    match link_index(m0, key0) {
                        Some(_) => {
                            assert(self@[a].0 == m0[a].0);
                            assert(self@[b].0 == m0[b].0);
                        },
                        None => {
                            if b == m0.len() as int {
                                assert(self@[a] == m0[a]);
                                assert(m0[a].0 != key0);
                            } else {
                                assert(self@[a] == m0[a]);
                                assert(self@[b] == m0[b]);
                            }
                        },
                    }
                }
            }
        }
        Ok(())
    }

    /// Every entry of the index, in order: each task id with its subtask
    /// ids. This is what gets persisted.
    pub fn entries(&self) -> (r: Vec<(String, Vec<String>)>)
        ensures
            r.deep_view() == self@,
    {
        let mut out: Vec<(String, Vec<String>)> = Vec::new();
        let n: usize = self.tasks.len();
        let mut i: usize = 0;
        proof {
            assert(out.deep_view() =~= self@.take(0));
        }
        while i < n
            invariant
                i <= n,
                n == self.tasks.len(),
                out.deep_view() == self@.take(i as int),
            decreases n - i,
        {
            let ghost out0 = out.deep_view();
            let key: String = self.tasks[i].0.clone();
            let list: Vec<String> = clone_string_vec(&self.tasks[i].1);
            out.push((key, list));
            proof {
                assert(out.deep_view() =~= out0.push(self@[i as int]));
                assert(out.deep_view() =~= self@.take(i as int + 1));
            }
            i = i + 1;
        }
        proof {
            assert(self@.take(n as int) =~= self@);
        }
        out
    }

    /// Move `subtask_id` from the entry keyed `current_task_id` to the entry
    /// keyed `new_task_id`. Both entries must exist; otherwise nothing
    /// changes and the missing task id is reported.
    pub fn update_link(
        &mut self,
        subtask_id: String,
        current_task_id: String,
        new_task_id: String,
    ) -> (r: Result<(), AppError>)
        ensures
            link_index(old(self)@, current_task_id@) is None ==> {
                &&& r matches Err(AppError::TaskNotFound(s)) && s@ == current_task_id@
                &&& final(self)@ == old(self)@
            },
            link_index(old(self)@, current_task_id@) is Some && link_index(
                old(self)@,
                new_task_id@,
            ) is None ==> {
                &&& r matches Err(AppError::TaskNotFound(s)) && s@ == new_task_id@
                &&& final(self)@ == old(self)@
            },
            link_index(old(self)@, current_task_id@) is Some && link_index(
                old(self)@,
                new_task_id@,
            ) is Some ==> {
                &&& r is Ok
                &&& final(self)@ == spec_relink(
                    old(self)@,
                    subtask_id@,
                    current_task_id@,
                    new_task_id@,
                )
            },
            link_keys_unique(old(self)@) ==> link_keys_unique(final(self)@),
    {
        let ghost m0 = self@;
        let ci = self.index_of_task(&current_task_id);
        let ni = self.index_of_task(&new_task_id);
        let i: usize = match ci {
            Some(i) => i,
            None => {
                return Err(AppError::TaskNotFound(current_task_id));
            },
        };
        let j: usize = match ni {
            Some(j) => j,
            None => {
                return Err(AppError::TaskNotFound(new_task_id));
            },
        };
        let mut list = clone_string_vec(&self.tasks[i].1);
        proof {
            assert(list.deep_view() == m0[i as int].1);
        }
        remove_first_occurrence(&mut list, &subtask_id);
        self.set_children(i, list);
        let ghost m1 = m0.update(
            i as int,
            (current_task_id@, m0[i as int].1.remove_value(subtask_id@)),
        );
        proof {
            assert((m0[i as int].0, m0[i as int].1.remove_value(subtask_id@)) == (
            current_task_id@,
            m0[i as int].1.remove_value(subtask_id@),
            ));
            assert(self@ == m1);
        }
        let mut list2 = clone_string_vec(&self.tasks[j].1);
        proof {
            assert(list2.deep_view() == m1[j as int].1);
        }
        push_string(&mut list2, subtask_id);
        self.set_children(j, list2);
        proof {
            assert(m1[j as int].0 == new_task_id@);
            assert((m1[j as int].0, m1[j as int].1.push(subtask_id@)) == (
            new_task_id@,
            m1[j as int].1.push(subtask_id@),
            ));
            assert(self@ == spec_relink(m0, subtask_id@, current_task_id@, new_task_id@));
            if link_keys_unique(m0) {
                assert forall|a: int, b: int| 0 <= a < b < self@.len() implies self@[a].0
                    != self@[b].0 by {
                    assert(self@[a].0 == m0[a].0);
                    assert(self@[b].0 == m0[b].0);
                }
            }
        }
        Ok(())
    }
}

} // verus!
