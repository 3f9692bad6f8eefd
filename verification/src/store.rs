//! The task store: an arena of slots with stable handles.
//!
//! A task occupies one slot; a handle names that slot and stays valid until
//! the task is removed. Slots are never reused after a removal (a removed
//! slot becomes a tombstone), so no live handle is ever invalidated or
//! re-targeted by unrelated insertions and removals.

use vstd::prelude::*;

verus! {

/// The mathematical content of one task: its title text and the instant it
/// was created (milliseconds of wall-clock time).
pub ghost struct TaskModel {
    pub title: Seq<char>,
    pub time_created: u64,
}

/// One task record: a user-entered title plus its creation timestamp.
/// `time_created` is set exactly once, at creation, and never mutated.
pub struct Task {
    pub title: String,
    pub time_created: u64,
}

impl View for Task {
    type V = TaskModel;

    open spec fn view(&self) -> TaskModel {
        TaskModel { title: self.title@, time_created: self.time_created }
    }
}

impl Clone for Task {
    fn clone(&self) -> (r: Self)
        ensures
            r@ == self@,
    {
        Task { title: self.title.clone(), time_created: self.time_created }
    }
}

/// A stable reference to a stored task. It remains valid across unrelated
/// insertions and removals until the referenced task itself is removed.
#[derive(Clone, Copy, PartialEq, Eq, Structural)]
pub struct TaskHandle {
    index: usize,
}

impl TaskHandle {
    /// The slot this handle names.
    pub closed spec fn idx(self) -> int {
        self.index as int
    }

    /// The slot number, which also orders handles by insertion.
    pub fn slot(&self) -> (i: usize)
        ensures
            i as int == self.idx(),
    {
        self.index
    }
}

/// The slot indices that currently hold a task, in increasing order.
pub open spec fn live_indices(s: Seq<Option<TaskModel>>) -> Seq<int>
    decreases s.len(),
{
    if s.len() == 0 {
        Seq::empty()
    } else {
        let p = live_indices(s.drop_last());
        if s.last() is Some {
            p.push(s.len() - 1)
        } else {
            p
        }
    }
}

/// How many slots currently hold a task.
pub open spec fn live_count(s: Seq<Option<TaskModel>>) -> nat {
    live_indices(s).len()
}

/// The stored tasks in slot (that is, insertion) order.
pub open spec fn live_tasks(s: Seq<Option<TaskModel>>) -> Seq<TaskModel> {
    live_indices(s).map_values(|i: int| s[i]->Some_0)
}

/// Every entry of `live_indices` is a valid occupied slot, the entries are
/// strictly increasing, and every occupied slot appears among them.
pub proof fn lemma_live_indices(s: Seq<Option<TaskModel>>)
    ensures
        forall|k: int|
            0 <= k < live_indices(s).len() ==> 0 <= #[trigger] live_indices(s)[k] < s.len()
                && s[live_indices(s)[k]] is Some,
        forall|k1: int, k2: int|
            0 <= k1 < k2 < live_indices(s).len() ==> live_indices(s)[k1] < live_indices(s)[k2],
        forall|i: int| 0 <= i < s.len() && s[i] is Some ==> live_indices(s).contains(i),
    decreases s.len(),
{
    if s.len() > 0 {
        lemma_live_indices(s.drop_last());
        assert forall|i: int| 0 <= i < s.len() && s[i] is Some implies live_indices(s).contains(
            i,
        ) by {
            if i < s.len() - 1 {
                assert(s.drop_last()[i] is Some);
                assert(live_indices(s.drop_last()).contains(i));
                let k = choose|k: int|
                    0 <= k < live_indices(s.drop_last()).len() && live_indices(s.drop_last())[k]
                        == i;
                assert(live_indices(s)[k] == i);
            } else {
                assert(live_indices(s).last() == i);
            }
        }
    }
}

/// Appending an occupied slot appends its index to the live indices.
pub proof fn lemma_live_indices_push(s: Seq<Option<TaskModel>>, t: TaskModel)
    ensures
        live_indices(s.push(Some(t))) == live_indices(s).push(s.len() as int),
        live_tasks(s.push(Some(t))) == live_tasks(s).push(t),
{
    let s2 = s.push(Some(t));
    assert(s2.drop_last() =~= s);
    lemma_live_indices(s);
    assert(live_tasks(s2) =~= live_tasks(s).push(t));
}

/// Emptying an occupied slot lowers the live count by exactly one.
pub proof fn lemma_live_count_remove(s: Seq<Option<TaskModel>>, i: int)
    requires
        0 <= i < s.len(),
        s[i] is Some,
    ensures
        live_count(s.update(i, None)) == live_count(s) - 1,
    decreases s.len(),
{
    let s2 = s.update(i, None);
    if i == s.len() - 1 {
        assert(s2.drop_last() =~= s.drop_last());
    } else {
        assert(s2.drop_last() =~= s.drop_last().update(i, None));
        lemma_live_count_remove(s.drop_last(), i);
    }
}

/// An unordered collection of task records with stable handles.
pub struct TaskStore {
    slots: Vec<Option<Task>>,
}

impl View for TaskStore {
    type V = Seq<Option<TaskModel>>;

    closed spec fn view(&self) -> Seq<Option<TaskModel>> {
        self.slots@.map_values(
            |o: Option<Task>|
                match o {
                    Option::Some(t) => Some(t@),
                    Option::None => None,
                },
        )
    }
}

impl TaskStore {
    /// A handle is valid when its slot exists and still holds a task.
    pub open spec fn valid_handle(self, h: TaskHandle) -> bool {
        0 <= h.idx() < self@.len() && self@[h.idx()] is Some
    }

    /// An empty store.
    pub fn new() -> (s: Self)
        ensures
            s@ == Seq::<Option<TaskModel>>::empty(),
    {
        let s = TaskStore { slots: Vec::new() };
        proof {
            assert(s@ =~= Seq::<Option<TaskModel>>::empty());
        }
        s
    }

    /// Insert a task into a fresh slot and return its handle.
    pub fn insert(&mut self, t: Task) -> (h: TaskHandle)
        ensures
            final(self)@ == old(self)@.push(Some(t@)),
            h.idx() == old(self)@.len(),
            final(self).valid_handle(h),
    {
        let ghost t_model = t@;
        let index = self.slots.len();
        self.slots.push(Some(t));
        proof {
            assert(self@ =~= old(self)@.push(Some(t_model)));
        }
        TaskHandle { index }
    }

    /// Remove the task a handle names and return it. An invalid (stale or
    /// out-of-range) handle removes nothing.
    pub fn remove(&mut self, h: TaskHandle) -> (r: Option<Task>)
        ensures
            old(self).valid_handle(h) ==> {
                &&& final(self)@ == old(self)@.update(h.idx(), None)
                &&& r matches Some(t) && t@ == old(self)@[h.idx()]->Some_0
            },
            !old(self).valid_handle(h) ==> final(self)@ == old(self)@ && r is None,
    {
        if h.index < self.slots.len() {
            let taken = match &self.slots[h.index] {
                Some(t) => Some(t.clone()),
                None => None,
            };
            if taken.is_some() {
                self.slots[h.index] = None;
                proof {
                    assert(self@ =~= old(self)@.update(h.idx(), None));
                }
            } else {
                proof {
                    assert(self@ =~= old(self)@);
                }
            }
            taken
        } else {
            None
        }
    }

    /// Read the task a handle names, if the handle is still valid.
    pub fn get(&self, h: TaskHandle) -> (r: Option<&Task>)
        ensures
            self.valid_handle(h) ==> (r matches Some(t) && t@ == self@[h.idx()]->Some_0),
            !self.valid_handle(h) ==> r is None,
    {
        if h.index < self.slots.len() {
            match &self.slots[h.index] {
                Some(t) => Some(t),
                None => None,
            }
        } else {
            None
        }
    }

    /// A snapshot of the handles of all stored tasks, in slot order.
    pub fn handles(&self) -> (v: Vec<TaskHandle>)
        ensures
            v@.map_values(|h: TaskHandle| h.idx()) == live_indices(self@),
            forall|k: int| 0 <= k < v@.len() ==> self.valid_handle(#[trigger] v@[k]),
    {
        let mut v: Vec<TaskHandle> = Vec::new();
        let mut i: usize = 0;
        proof {
            assert(self@.take(0) =~= Seq::<Option<TaskModel>>::empty());
        }
        while i < self.slots.len()
            invariant
                i <= self.slots.len(),
                self@.len() == self.slots.len(),
                v@.map_values(|h: TaskHandle| h.idx()) == live_indices(self@.take(i as int)),
                forall|k: int| 0 <= k < v@.len() ==> self.valid_handle(#[trigger] v@[k]),
            decreases self.slots.len() - i,
        {
            proof {
                assert(self@.take(i + 1).drop_last() =~= self@.take(i as int));
                assert(self@.take(i + 1).last() == self@[i as int]);
            }
            if self.slots[i].is_some() {
                v.push(TaskHandle { index: i });
                proof {
                    assert(v@.map_values(|h: TaskHandle| h.idx()) =~= live_indices(
                        self@.take(i + 1),
                    ));
                }
            } else {
                proof {
                    assert(v@.map_values(|h: TaskHandle| h.idx()) =~= live_indices(
                        self@.take(i + 1),
                    ));
                }
            }
            i += 1;
        }
        proof {
            assert(self@.take(self@.len() as int) =~= self@);
        }
        v
    }

    /// How many tasks the store currently holds.
    pub fn count(&self) -> (n: usize)
        ensures
            n == live_count(self@),
    {
        let v = self.handles();
        proof {
            assert(v@.map_values(|h: TaskHandle| h.idx()).len() == v@.len());
        }
        v.len()
    }

    /// A snapshot of the stored tasks themselves, in slot order.
    pub fn snapshot(&self) -> (v: Vec<Task>)
        ensures
            v@.map_values(|t: Task| t@) == live_tasks(self@),
    {
        let handles = self.handles();
        let mut v: Vec<Task> = Vec::new();
        let mut k: usize = 0;
        while k < handles.len()
            invariant
                k <= handles.len(),
                handles@.map_values(|h: TaskHandle| h.idx()) == live_indices(self@),
                forall|j: int| 0 <= j < handles@.len() ==> self.valid_handle(#[trigger] handles@[j]),
                v@.map_values(|t: Task| t@) =~= live_tasks(self@).take(k as int),
            decreases handles.len() - k,
        {
            let h = handles[k];
            let t = match self.get(h) {
                Some(t) => t.clone(),
                None => Task { title: String::new(), time_created: 0 },
            };
            proof {
                assert(handles@.map_values(|h: TaskHandle| h.idx())[k as int] == h.idx());
                assert(live_tasks(self@)[k as int] == self@[h.idx()]->Some_0);
            }
            proof {
                assert(live_tasks(self@).take(k + 1) =~= live_tasks(self@).take(
                    k as int,
                ).push(live_tasks(self@)[k as int]));
            }
            v.push(t);
            proof {
                assert(v@.map_values(|t: Task| t@) =~= live_tasks(self@).take(k + 1));
            }
            k += 1;
        }
        proof {
            assert(live_tasks(self@).take(live_tasks(self@).len() as int) =~= live_tasks(self@));
        }
        v
    }
}

} // verus!
