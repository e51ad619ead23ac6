//! The notes store: for each task or subtask id, an ordered list of
//! free-text notes.

use crate::error::AppError;
use crate::utils::{append_strings, clone_string_vec};
use vstd::prelude::*;

verus! {

/// Abstract value of the notes store: an ordered association list from an
/// entity id to its ordered notes.
pub type NoteEntries = Seq<(Seq<char>, Seq<Seq<char>>)>;

/// Index of the first entry keyed by `id`, if any.
pub open spec fn notes_index(m: NoteEntries, id: Seq<char>) -> Option<int>
    decreases m.len(),
{
    if m.len() == 0 {
        None
    } else if m[0].0 == id {
        Some(0int)
    } else {
        match notes_index(m.drop_first(), id) {
            Some(i) => Some(i + 1),
            None => None,
        }
    }
}

/// The notes recorded under `id`; empty when `id` has no entry.
pub open spec fn notes_of(m: NoteEntries, id: Seq<char>) -> Seq<Seq<char>> {
    match notes_index(m, id) {
        Some(i) => m[i].1,
        None => Seq::empty(),
    }
}

/// `notes_index` finds the first entry keyed by `id`.
pub proof fn lemma_notes_index_props(m: NoteEntries, id: Seq<char>)
    ensures
        match notes_index(m, id) {
            Some(i) => {
                &&& 0 <= i < m.len()
                &&& m[i].0 == id
                &&& forall|j: int| 0 <= j < i ==> m[j].0 != id
            },
            None => forall|j: int| 0 <= j < m.len() ==> m[j].0 != id,
        },
    decreases m.len(),
{
    if m.len() > 0 && m[0].0 != id {
        lemma_notes_index_props(m.drop_first(), id);
        assert forall|j: int| 1 <= j < m.len() implies m.drop_first()[j - 1] == m[j] by {}
    }
}

/// The first matching position determines `notes_index`.
pub proof fn lemma_notes_index_at(m: NoteEntries, id: Seq<char>, i: int)
    requires
        0 <= i < m.len(),
        m[i].0 == id,
        forall|j: int| 0 <= j < i ==> m[j].0 != id,
    ensures
        notes_index(m, id) == Some(i),
{
    lemma_notes_index_props(m, id);
    match notes_index(m, id) {
        Some(i2) => {
            if i2 < i {
                assert(m[i2].0 != id);
            } else if i < i2 {
                assert(m[i].0 != id);
            }
        },
        None => {
            assert(m[i].0 != id);
        },
    }
}

/// The notes store.
pub struct TaskNotes {
    notes: Vec<(String, Vec<String>)>,
}

impl View for TaskNotes {
    type V = NoteEntries;

    closed spec fn view(&self) -> NoteEntries {
        Seq::new(self.notes@.len(), |i: int| (self.notes@[i].0@, self.notes@[i].1.deep_view()))
    }
}

impl TaskNotes {
    /// Create an empty notes store (for first-time setup).
    pub fn new() -> (r: Self)
        ensures
            r@ == Seq::<(Seq<char>, Seq<Seq<char>>)>::empty(),
    {
        let r = TaskNotes { notes: Vec::new() };
        proof {
            assert(r@ =~= Seq::<(Seq<char>, Seq<Seq<char>>)>::empty());
        }
        r
    }

    /// Index of the entry keyed by `task_id`, if any.
    fn index_of_id(&self, task_id: &String) -> (r: Option<usize>)
        ensures
            match r {
                Some(i) => {
                    &&& i < self.notes.len()
                    &&& notes_index(self@, task_id@) == Some(i as int)
                    &&& self@[i as int].0 == task_id@
                },
                None => notes_index(self@, task_id@) is None,
            },
    {
        let n: usize = self.notes.len();
        let mut i: usize = 0;
        while i < n
            invariant
                i <= n,
                n == self.notes.len(),
                forall|j: int| 0 <= j < i ==> self@[j].0 != task_id@,
            decreases n - i,
        {
            if self.notes[i].0 == *task_id {
                proof {
                    assert(self@[i as int].0 == task_id@);
                    lemma_notes_index_at(self@, task_id@, i as int);
                }
                return Some(i);
            }
            proof {
                assert(self@[i as int].0 == self.notes@[i as int].0@);
            }
            i = i + 1;
        }
        proof {
            lemma_notes_index_props(self@, task_id@);
            match notes_index(self@, task_id@) {
                Some(i2) => {
                    assert(self@[i2].0 != task_id@);
                },
                None => {},
            }
        }
        None
    }

    /// Append `notes_list` to the entry for `task_id`, creating the entry at
    /// the end of the store if it does not exist yet.
    pub fn add_new_note(&mut self, task_id: String, notes_list: Vec<String>) -> (r: Result<
        (),
        AppError,
    >)
        ensures
            r is Ok,
            final(self)@ == match notes_index(old(self)@, task_id@) {
                Some(i) => old(self)@.update(
                    i,
                    (task_id@, old(self)@[i].1 + notes_list.deep_view()),
                ),
                None => old(self)@.push((task_id@, notes_list.deep_view())),
            },
    {
        let ghost m0 = self@;
        match self.index_of_id(&task_id) {
            Some(i) => {
                let mut list = clone_string_vec(&self.notes[i].1);
                proof {
                    assert(list.deep_view() == m0[i as int].1);
                }
                append_strings(&mut list, &notes_list);
                let key = self.notes[i].0.clone();
                self.notes.set(i, (key, list));
                proof {
                    assert(self@ =~~= m0.update(
                        i as int,
                        (task_id@, m0[i as int].1 + notes_list.deep_view()),
                    ));
                }
            },
            None => {
                self.notes.push((task_id, notes_list));
                proof {
                    assert(self@ =~~= m0.push(
                        (self.notes@[m0.len() as int].0@, self.notes@[m0.len() as int].1.deep_view()),
                    ));
                }
            },
        }
        Ok(())
    }

    /// The ordered notes recorded under `task_id`.
    pub fn get_notes(&self, task_id: String) -> (r: Vec<String>)
        ensures
            r.deep_view() == notes_of(self@, task_id@),
    {
        match self.index_of_id(&task_id) {
            Some(i) => clone_string_vec(&self.notes[i].1),
            None => {
                let c: Vec<String> = Vec::new();
                proof {
                    assert(c.deep_view() =~= Seq::<Seq<char>>::empty());
                }
                c
            },
        }
    }
}

} // verus!
