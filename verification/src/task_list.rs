//! The selectable task list, with its "create task" modal.
//!
//! The list shows the store's tasks sorted by creation time, oldest first
//! (ties broken by slot number, which is insertion order); the reversed
//! variant shows exactly the reverse of that order. It owns the selection
//! index and a `TextInputModal` for the create flow, delegates every key to
//! the modal first, and persists the store synchronously after each create
//! or delete, before its `update` returns.

use vstd::prelude::*;
use crate::component::Component;
use crate::component::DrawCmd;
use crate::component::DrawModel;
use crate::component::draw_models;
use crate::keys::KeyCode;
use crate::keys::KeyEvent;
use crate::modal::ModalModel;
use crate::modal::TextInputModal;
use crate::modal::modal_draws;
use crate::modal::modal_step;
use crate::session::AppState;
use crate::session::SessionModel;
use crate::codec::spec_encode;
use crate::store::Task;
use crate::store::TaskHandle;
use crate::store::TaskModel;
use crate::store::TaskStore;
use crate::store::lemma_live_count_remove;
use crate::store::lemma_live_indices;
use crate::store::lemma_live_indices_push;
use crate::store::live_count;
use crate::store::live_indices;
use crate::store::live_tasks;

verus! {

// ---------------------------------------------------------------------------
// Display order: ascending by (time_created, slot), reversed when configured.
// ---------------------------------------------------------------------------

/// Slot `a` displays no later than slot `b`: strictly earlier creation time,
/// or equal times and `a` inserted no later. On distinct occupied slots this
/// is a strict total order, so the displayed order is unique.
pub open spec fn key_le(s: Seq<Option<TaskModel>>, a: int, b: int) -> bool {
    let ta = s[a]->Some_0;
    let tb = s[b]->Some_0;
    ta.time_created < tb.time_created || (ta.time_created == tb.time_created && a <= b)
}

/// Insert slot `x` into an ordered slot list, before the first entry that
/// does not precede it.
pub open spec fn insert_ordered(s: Seq<Option<TaskModel>>, ord: Seq<int>, x: int) -> Seq<int>
    decreases ord.len(),
{
    if ord.len() == 0 {
        seq![x]
    } else if key_le(s, x, ord[0]) {
        seq![x] + ord
    } else {
        seq![ord[0]] + insert_ordered(s, ord.drop_first(), x)
    }
}

/// Sort a slot list by repeated ordered insertion.
pub open spec fn sort_indices(s: Seq<Option<TaskModel>>, ord: Seq<int>) -> Seq<int>
    decreases ord.len(),
{
    if ord.len() == 0 {
        Seq::empty()
    } else {
        insert_ordered(s, sort_indices(s, ord.drop_last()), ord.last())
    }
}

/// The occupied slots in ascending display order.
pub open spec fn ascending_display(s: Seq<Option<TaskModel>>) -> Seq<int> {
    sort_indices(s, live_indices(s))
}

/// The displayed slot order: ascending, or exactly its reverse.
pub open spec fn display_order(s: Seq<Option<TaskModel>>, reverse: bool) -> Seq<int> {
    if reverse {
        ascending_display(s).reverse()
    } else {
        ascending_display(s)
    }
}

/// A slot list is sorted when every pair of entries displays in order.
pub open spec fn sorted_by_key(s: Seq<Option<TaskModel>>, ord: Seq<int>) -> bool {
    forall|i: int, j: int| 0 <= i < j < ord.len() ==> key_le(s, ord[i], ord[j])
}

proof fn lemma_insert_ordered(s: Seq<Option<TaskModel>>, ord: Seq<int>, x: int)
    ensures
        insert_ordered(s, ord, x).len() == ord.len() + 1,
        forall|y: int|
            #[trigger] insert_ordered(s, ord, x).contains(y) <==> (ord.contains(y) || y == x),
        sorted_by_key(s, ord) ==> sorted_by_key(s, insert_ordered(s, ord, x)),
    decreases ord.len(),
{
    let r = insert_ordered(s, ord, x);
    if ord.len() == 0 {
        assert forall|y: int| #[trigger] r.contains(y) <==> (ord.contains(y) || y == x) by {
            assert(r[0] == x);
            if y == x {
                assert(r.contains(y));
            }
        }
    } else if key_le(s, x, ord[0]) {
        assert forall|y: int| #[trigger] r.contains(y) <==> (ord.contains(y) || y == x) by {
            if r.contains(y) {
                let k = choose|k: int| 0 <= k < r.len() && r[k] == y;
                if k == 0 {
                    assert(y == x);
                } else {
                    assert(ord[k - 1] == y);
                    assert(ord.contains(y));
                }
            }
            if y == x {
                assert(r[0] == y);
                assert(r.contains(y));
            }
            if ord.contains(y) {
                let k = choose|k: int| 0 <= k < ord.len() && ord[k] == y;
                assert(r[k + 1] == y);
                assert(r.contains(y));
            }
        }
        if sorted_by_key(s, ord) {
            assert forall|i: int, j: int| 0 <= i < j < r.len() implies key_le(s, r[i], r[j]) by {
                if i == 0 {
                    // x precedes ord[0], which precedes or equals every entry
                    if j == 1 {
                        assert(key_le(s, r[i], r[j]));
                    } else {
                        assert(key_le(s, ord[0], ord[j - 1]));
                        assert(key_le(s, x, ord[j - 1]));
                    }
                } else {
                    assert(key_le(s, ord[i - 1], ord[j - 1]));
                }
            }
        }
    } else {
        lemma_insert_ordered(s, ord.drop_first(), x);
        let tail = insert_ordered(s, ord.drop_first(), x);
        assert forall|y: int| #[trigger] r.contains(y) <==> (ord.contains(y) || y == x) by {
            if r.contains(y) {
                let k = choose|k: int| 0 <= k < r.len() && r[k] == y;
                if k == 0 {
                    assert(ord[0] == y);
                    assert(ord.contains(y));
                } else {
                    assert(tail[k - 1] == y);
                    assert(tail.contains(y));
                    if ord.drop_first().contains(y) {
                        let m = choose|m: int|
                            0 <= m < ord.drop_first().len() && ord.drop_first()[m] == y;
                        assert(ord[m + 1] == y);
                        assert(ord.contains(y));
                    }
                }
            }
            if y == x {
                assert(tail.contains(y));
                let k = choose|k: int| 0 <= k < tail.len() && tail[k] == y;
                assert(r[k + 1] == y);
                assert(r.contains(y));
            }
            if ord.contains(y) {
                let k = choose|k: int| 0 <= k < ord.len() && ord[k] == y;
                if k == 0 {
                    assert(r[0] == y);
                } else {
                    assert(ord.drop_first()[k - 1] == y);
                    assert(ord.drop_first().contains(y));
                    assert(tail.contains(y));
                    let m = choose|m: int| 0 <= m < tail.len() && tail[m] == y;
                    assert(r[m + 1] == y);
                }
                assert(r.contains(y));
            }
        }
        if sorted_by_key(s, ord) {
            assert(sorted_by_key(s, ord.drop_first()));
            assert forall|i: int, j: int| 0 <= i < j < r.len() implies key_le(s, r[i], r[j]) by {
                if i == 0 {
                    // ord[0] precedes x (totality) and every later entry
                    assert(r[0] == ord[0]);
                    assert(tail[j - 1] == r[j]);
                    assert(tail.contains(tail[j - 1]));
                    if r[j] == x {
                        assert(key_le(s, ord[0], x));
                    } else {
                        assert(ord.drop_first().contains(r[j]));
                        let m = choose|m: int|
                            0 <= m < ord.drop_first().len() && ord.drop_first()[m] == r[j];
                        assert(key_le(s, ord[0], ord[m + 1]));
                    }
                } else {
                    assert(key_le(s, tail[i - 1], tail[j - 1]));
                }
            }
        }
    }
}

proof fn lemma_sort_indices(s: Seq<Option<TaskModel>>, ord: Seq<int>)
    ensures
        sort_indices(s, ord).len() == ord.len(),
        forall|y: int| #[trigger] sort_indices(s, ord).contains(y) <==> ord.contains(y),
        sorted_by_key(s, sort_indices(s, ord)),
    decreases ord.len(),
{
    if ord.len() == 0 {
    } else {
        lemma_sort_indices(s, ord.drop_last());
        lemma_insert_ordered(s, sort_indices(s, ord.drop_last()), ord.last());
        let r = sort_indices(s, ord);
        assert forall|y: int| #[trigger] r.contains(y) <==> ord.contains(y) by {
            if r.contains(y) {
                if ord.drop_last().contains(y) {
                    let k = choose|k: int| 0 <= k < ord.drop_last().len() && ord.drop_last()[k] == y;
                    assert(ord[k] == y);
                    assert(ord.contains(y));
                } else {
                    assert(y == ord.last());
                    assert(ord.contains(y));
                }
            }
            if ord.contains(y) {
                let k = choose|k: int| 0 <= k < ord.len() && ord[k] == y;
                if k < ord.len() - 1 {
                    assert(ord.drop_last()[k] == y);
                    assert(ord.drop_last().contains(y));
                } else {
                    assert(y == ord.last());
                }
                assert(r.contains(y));
            }
        }
    }
}

/// The displayed order is a sorted arrangement of exactly the occupied
/// slots: same length as the store's live count, each entry an occupied
/// slot, every occupied slot present, and ascending by (time, slot). The
/// reversed variant is exactly the reverse of the ascending order.
pub proof fn lemma_display_order(s: Seq<Option<TaskModel>>)
    ensures
        ascending_display(s).len() == live_count(s),
        forall|y: int| #[trigger] ascending_display(s).contains(y) <==> live_indices(s).contains(y),
        sorted_by_key(s, ascending_display(s)),
        display_order(s, true) == ascending_display(s).reverse(),
        display_order(s, false) == ascending_display(s),
        forall|k: int|
            0 <= k < ascending_display(s).len() ==> 0 <= #[trigger] ascending_display(s)[k]
                < s.len() && s[ascending_display(s)[k]] is Some,
{
    lemma_sort_indices(s, live_indices(s));
    lemma_live_indices(s);
    assert forall|k: int| 0 <= k < ascending_display(s).len() implies 0
        <= #[trigger] ascending_display(s)[k] < s.len() && s[ascending_display(s)[k]] is Some by {
        let y = ascending_display(s)[k];
        assert(ascending_display(s).contains(y));
        assert(live_indices(s).contains(y));
        let m = choose|m: int| 0 <= m < live_indices(s).len() && live_indices(s)[m] == y;
    }
}

proof fn lemma_insert_ordered_split(s: Seq<Option<TaskModel>>, ord: Seq<int>, x: int, p: int)
    requires
        0 <= p <= ord.len(),
        forall|q: int| 0 <= q < p ==> !key_le(s, x, #[trigger] ord[q]),
        p < ord.len() ==> key_le(s, x, ord[p]),
    ensures
        insert_ordered(s, ord, x) == ord.take(p) + seq![x] + ord.skip(p),
    decreases ord.len(),
{
    if ord.len() == 0 {
        assert(insert_ordered(s, ord, x) =~= ord.take(p) + seq![x] + ord.skip(p));
    } else if p == 0 {
        assert(key_le(s, x, ord[0]));
        assert(insert_ordered(s, ord, x) =~= ord.take(0) + seq![x] + ord.skip(0));
    } else {
        assert(!key_le(s, x, ord[0]));
        assert forall|q: int| 0 <= q < p - 1 implies !key_le(s, x, #[trigger] ord.drop_first()[q]) by {
            assert(ord.drop_first()[q] == ord[q + 1]);
        }
        assert(p - 1 < ord.drop_first().len() ==> key_le(s, x, ord.drop_first()[p - 1]));
        lemma_insert_ordered_split(s, ord.drop_first(), x, p - 1);
        assert(seq![ord[0]] + (ord.drop_first().take(p - 1) + seq![x] + ord.drop_first().skip(
            p - 1,
        )) =~= ord.take(p) + seq![x] + ord.skip(p));
    }
}

fn le_handle(store: &TaskStore, a: TaskHandle, b: TaskHandle) -> (r: bool)
    requires
        store.valid_handle(a),
        store.valid_handle(b),
    ensures
        r == key_le(store@, a.idx(), b.idx()),
{
    let ta = match store.get(a) {
        Some(t) => t.time_created,
        None => 0,
    };
    let tb = match store.get(b) {
        Some(t) => t.time_created,
        None => 0,
    };
    if ta < tb {
        true
    } else if ta == tb {
        a.slot() <= b.slot()
    } else {
        false
    }
}

/// The store's handles in displayed order.
pub fn display_handles(store: &TaskStore, reverse: bool) -> (v: Vec<TaskHandle>)
    ensures
        v@.map_values(|h: TaskHandle| h.idx()) == display_order(store@, reverse),
        forall|k: int| 0 <= k < v@.len() ==> store.valid_handle(#[trigger] v@[k]),
{
    let hs = store.handles();
    let ghost live = live_indices(store@);
    let mut asc: Vec<TaskHandle> = Vec::new();
    let mut k: usize = 0;
    proof {
        assert(live.take(0) =~= Seq::<int>::empty());
    }
    while k < hs.len()
        invariant
            k <= hs.len(),
            live == live_indices(store@),
            hs@.map_values(|h: TaskHandle| h.idx()) == live,
            forall|j: int| 0 <= j < hs@.len() ==> store.valid_handle(#[trigger] hs@[j]),
            asc@.map_values(|h: TaskHandle| h.idx()) == sort_indices(store@, live.take(k as int)),
            forall|j: int| 0 <= j < asc@.len() ==> store.valid_handle(#[trigger] asc@[j]),
        decreases hs.len() - k,
    {
        let x = hs[k];
        let ghost ord = asc@.map_values(|h: TaskHandle| h.idx());
        let mut p: usize = 0;
        while p < asc.len() && !le_handle(store, x, asc[p])
            invariant
                p <= asc.len(),
                ord == asc@.map_values(|h: TaskHandle| h.idx()),
                forall|j: int| 0 <= j < asc@.len() ==> store.valid_handle(#[trigger] asc@[j]),
                store.valid_handle(x),
                forall|q: int| 0 <= q < p ==> !key_le(store@, x.idx(), #[trigger] ord[q]),
            decreases asc.len() - p,
        {
            p += 1;
        }
        proof {
            lemma_insert_ordered_split(store@, ord, x.idx(), p as int);
        }
        asc.insert(p, x);
        proof {
            assert(asc@.map_values(|h: TaskHandle| h.idx()) =~= ord.take(p as int) + seq![x.idx()]
                + ord.skip(p as int));
            assert(live.take(k as int + 1).drop_last() =~= live.take(k as int));
            assert(live.take(k as int + 1).last() == live[k as int]);
            assert(live[k as int] == x.idx());
            assert(asc@.map_values(|h: TaskHandle| h.idx()) == sort_indices(
                store@,
                live.take(k as int + 1),
            ));
        }
        k += 1;
    }
    proof {
        assert(live.take(live.len() as int) =~= live);
    }
    if !reverse {
        asc
    } else {
        let mut rev: Vec<TaskHandle> = Vec::new();
        let mut i: usize = asc.len();
        while i > 0
            invariant
                i <= asc.len(),
                asc@.map_values(|h: TaskHandle| h.idx()) == ascending_display(store@),
                forall|j: int| 0 <= j < asc@.len() ==> store.valid_handle(#[trigger] asc@[j]),
                rev@.len() == asc@.len() - i,
                forall|j: int| 0 <= j < rev@.len() ==> rev@[j] == asc@[asc@.len() - 1 - j],
                forall|j: int| 0 <= j < rev@.len() ==> store.valid_handle(#[trigger] rev@[j]),
            decreases i,
        {
            i -= 1;
            rev.push(asc[i]);
        }
        proof {
            assert(rev@.map_values(|h: TaskHandle| h.idx()) =~= ascending_display(
                store@,
            ).reverse());
        }
        rev
    }
}

// ---------------------------------------------------------------------------
// The component.
// ---------------------------------------------------------------------------

/// The list's mathematical state.
pub ghost struct ListModel {
    pub index: int,
    pub popup: ModalModel,
    pub reverse: bool,
}

/// Clamp a selection index into `[0, n-1]`; an empty list pins it at 0.
pub open spec fn clamp_index(i: int, n: int) -> int {
    if n <= 0 {
        0
    } else if i < 0 {
        0
    } else if i >= n {
        n - 1
    } else {
        i
    }
}

/// A session after re-encoding the store into the snapshot image.
pub open spec fn persist_step(s: SessionModel, slots: Seq<Option<TaskModel>>) -> SessionModel {
    SessionModel { slots, saved_image: spec_encode(live_tasks(slots)), dirty: true, ..s }
}

/// How one key event moves the list and the session.
///
/// The modal is consulted first. While it is open it consumes every key;
/// the list then re-clamps its selection, and on Enter additionally closes
/// the modal, inserts a task titled with the buffer and stamped with the
/// session clock, and persists. While the modal is closed: `c` opens it,
/// `d` removes the task at the displayed selection and persists, Up and
/// Down move the selection, and any other key falls through unhandled with
/// the selection re-clamped.
pub open spec fn list_step(l: ListModel, s: SessionModel, key: KeyEvent) -> (
    ListModel,
    SessionModel,
) {
    if l.popup.is_open {
        if key.code == KeyCode::Enter {
            let slots2 = s.slots.push(
                Some(TaskModel { title: l.popup.buffer, time_created: s.clock_ms }),
            );
            let l2 = ListModel {
                index: clamp_index(l.index, live_count(slots2) as int),
                popup: ModalModel {
                    is_open: false,
                    buffer: Seq::empty(),
                    prompt: l.popup.prompt,
                },
                ..l
            };
            (l2, persist_step(s, slots2))
        } else {
            let l2 = ListModel {
                index: clamp_index(l.index, live_count(s.slots) as int),
                popup: modal_step(l.popup, key),
                ..l
            };
            (l2, s)
        }
    } else {
        let n = live_count(s.slots) as int;
        let ci = clamp_index(l.index, n);
        if key.code == KeyCode::Char('c') && key.no_modifiers() {
            let l2 = ListModel {
                index: ci,
                popup: ModalModel { is_open: true, buffer: Seq::empty(), prompt: l.popup.prompt },
                ..l
            };
            (l2, s)
        } else if key.code == KeyCode::Char('d') && key.no_modifiers() && n > 0 {
            let victim = display_order(s.slots, l.reverse)[ci];
            let slots2 = s.slots.update(victim, None);
            let l2 = ListModel { index: clamp_index(ci, n - 1), ..l };
            (l2, persist_step(s, slots2))
        } else if key.code == KeyCode::Up {
            (ListModel { index: if ci > 0 { ci - 1 } else { 0 }, ..l }, s)
        } else if key.code == KeyCode::Down {
            (ListModel { index: if ci + 1 < n { ci + 1 } else { ci }, ..l }, s)
        } else {
            (ListModel { index: ci, ..l }, s)
        }
    }
}

/// Which keys the list consumes: everything while its modal is open; else
/// `c`, `d` (only with tasks present), Up and Down.
pub open spec fn list_handles(l: ListModel, s: SessionModel, key: KeyEvent) -> bool {
    ||| l.popup.is_open
    ||| (key.code == KeyCode::Char('c') && key.no_modifiers())
    ||| (key.code == KeyCode::Char('d') && key.no_modifiers() && live_count(s.slots) > 0)
    ||| key.code == KeyCode::Up
    ||| key.code == KeyCode::Down
}

/// The list's border title.
pub open spec fn list_title(reverse: bool) -> Seq<char> {
    if reverse {
        "Basic Task List (reversed)"@
    } else {
        "Basic Task List"@
    }
}

/// The displayed rows: the tasks' titles in displayed order.
pub open spec fn display_rows(s: Seq<Option<TaskModel>>, reverse: bool) -> Seq<Seq<char>> {
    display_order(s, reverse).map_values(|i: int| s[i]->Some_0.title)
}

/// What the list draws: the bordered list (selection highlighted only when
/// tasks exist), then its modal layered on top.
pub open spec fn list_draws(l: ListModel, s: Seq<Option<TaskModel>>) -> Seq<DrawModel> {
    seq![
        DrawModel::TaskList {
            title: list_title(l.reverse),
            rows: display_rows(s, l.reverse),
            selected: if live_count(s) == 0 {
                None
            } else {
                Some(l.index)
            },
        },
    ] + modal_draws(l.popup)
}

/// The selectable task list component, in normal or reversed order.
pub struct BasicTaskList {
    index: usize,
    task_popup: TextInputModal,
    reverse: bool,
}

impl View for BasicTaskList {
    type V = ListModel;

    closed spec fn view(&self) -> ListModel {
        ListModel { index: self.index as int, popup: self.task_popup@, reverse: self.reverse }
    }
}

impl BasicTaskList {
    /// A fresh list: selection at 0, create-modal closed.
    pub fn new(reverse: bool) -> (l: Self)
        ensures
            l@ == (ListModel {
                index: 0,
                popup: ModalModel {
                    is_open: false,
                    buffer: Seq::<char>::empty(),
                    prompt: "Enter new task"@,
                },
                reverse,
            }),
    {
        BasicTaskList {
            index: 0,
            task_popup: TextInputModal::new("Enter new task".to_owned()),
            reverse,
        }
    }

    /// Re-clamp the selection against the store's current task count.
    fn clamp_selection(&mut self, state: &AppState)
        ensures
            final(self)@ == (ListModel {
                index: clamp_index(old(self)@.index, live_count(state@.slots) as int),
                ..old(self)@
            }),
    {
        let n = state.database.count();
        if n == 0 {
            self.index = 0;
        } else if self.index >= n {
            self.index = n - 1;
        }
    }
}

impl Component for BasicTaskList {
    fn render(&self, state: &AppState) -> (r: Vec<DrawCmd>)
        ensures
            draw_models(r@) == list_draws(self@, state@.slots),
    {
        let handles = display_handles(&state.database, self.reverse);
        let ghost order = display_order(state@.slots, self@.reverse);
        let mut rows: Vec<String> = Vec::new();
        let mut k: usize = 0;
        proof {
            assert(rows@.map_values(|t: String| t@) =~= display_rows(
                state@.slots,
                self@.reverse,
            ).take(0));
        }
        while k < handles.len()
            invariant
                k <= handles.len(),
                order == display_order(state@.slots, self@.reverse),
                handles@.map_values(|h: TaskHandle| h.idx()) == order,
                forall|j: int|
                    0 <= j < handles@.len() ==> state.database.valid_handle(#[trigger] handles@[j]),
                rows@.map_values(|t: String| t@) == display_rows(
                    state@.slots,
                    self@.reverse,
                ).take(k as int),
            decreases handles.len() - k,
        {
            let h = handles[k];
            let title = match state.database.get(h) {
                Some(t) => t.title.clone(),
                None => String::new(),
            };
            proof {
                assert(handles@.map_values(|h: TaskHandle| h.idx())[k as int] == h.idx());
                assert(display_rows(state@.slots, self@.reverse)[k as int] == state@.slots[h.idx()]->Some_0.title);
                assert(display_rows(state@.slots, self@.reverse).take(k as int + 1)
                    =~= display_rows(state@.slots, self@.reverse).take(k as int).push(
                    display_rows(state@.slots, self@.reverse)[k as int],
                ));
            }
            rows.push(title);
            proof {
                assert(rows@.map_values(|t: String| t@) =~= display_rows(
                    state@.slots,
                    self@.reverse,
                ).take(k as int + 1));
            }
            k += 1;
        }
        proof {
            lemma_display_order(state@.slots);
            assert(display_rows(state@.slots, self@.reverse).take(
                display_rows(state@.slots, self@.reverse).len() as int,
            ) =~= display_rows(state@.slots, self@.reverse));
        }
        let n = state.database.count();
        let selected: Option<usize> = if n == 0 {
            None
        } else {
            Some(self.index)
        };
        let title = if self.reverse {
            "Basic Task List (reversed)".to_owned()
        } else {
            "Basic Task List".to_owned()
        };
        let mut r: Vec<DrawCmd> = Vec::new();
        r.push(DrawCmd::TaskList { title, rows, selected });
        let mut overlay = self.task_popup.render(state);
        r.append(&mut overlay);
        proof {
            assert(draw_models(r@) =~= list_draws(self@, state@.slots));
        }
        r
    }

    fn update(&mut self, key: KeyEvent, state: &mut AppState) -> (handled: bool)
        ensures
            (final(self)@, final(state)@) == list_step(old(self)@, old(state)@, key),
            handled == list_handles(old(self)@, old(state)@, key),
    {
        let ghost l0 = old(self)@;
        let ghost s0 = old(state)@;
        let modal_handled = self.task_popup.update(key, state);
        if modal_handled {
            if matches!(key.code, KeyCode::Enter) {
                if let Some(text) = self.task_popup.close() {
                    let task = Task { title: text, time_created: state.clock_ms };
                    proof {
                        lemma_live_indices_push(state.database@, task@);
                    }
                    state.database.insert(task);
                    state.persist();
                }
            }
            self.clamp_selection(state);
            return true;
        }
        self.clamp_selection(state);
        if self.task_popup.is_open() {
            // defensive: an open modal already reported the key handled
            return true;
        }
        match key.code {
            KeyCode::Char(c) => {
                if c == 'c' && !key.ctrl && !key.alt && !key.shift {
                    self.task_popup.open();
                    true
                } else if c == 'd' && !key.ctrl && !key.alt && !key.shift {
                    let ghost n = live_count(s0.slots) as int;
                    let ghost ci = clamp_index(l0.index, n);
                    proof {
                        assert(state@ == s0);
                        assert(self@ == (ListModel { index: ci, ..l0 }));
                    }
                    let order = display_handles(&state.database, self.reverse);
                    proof {
                        lemma_display_order(s0.slots);
                        assert(order@.map_values(|hh: TaskHandle| hh.idx()).len()
                            == order@.len());
                        assert(display_order(s0.slots, l0.reverse).len() == n);
                    }
                    if order.len() > 0 {
                        proof {
                            assert(self.index < order.len());
                        }
                        let h = order[self.index];
                        proof {
                            assert(order@.map_values(|hh: TaskHandle| hh.idx())[self.index as int]
                                == h.idx());
                            assert(h.idx() == display_order(s0.slots, l0.reverse)[ci]);
                            assert(state.database.valid_handle(h));
                            lemma_live_count_remove(s0.slots, h.idx());
                        }
                        state.database.remove(h);
                        state.persist();
                        self.clamp_selection(state);
                        true
                    } else {
                        false
                    }
                } else {
                    false
                }
            },
            KeyCode::Up => {
                if self.index > 0 {
                    self.index = self.index - 1;
                }
                true
            },
            KeyCode::Down => {
                let n = state.database.count();
                if self.index + 1 < n {
                    self.index = self.index + 1;
                }
                true
            },
            _ => false,
        }
    }
}

// ---------------------------------------------------------------------------
// Laws of the list.
// ---------------------------------------------------------------------------

/// Modal exclusivity: while the modal is open the list consumes every key,
/// and none of its own bindings fire — the store changes only through the
/// modal's Enter flow (which appends exactly one task titled with the
/// buffer), and otherwise the modal alone moves, exactly as its own state
/// machine says.
pub proof fn lemma_modal_exclusivity(l: ListModel, s: SessionModel, key: KeyEvent)
    requires
        l.popup.is_open,
    ensures
        list_handles(l, s, key),
        key.code != KeyCode::Enter ==> list_step(l, s, key).1 == s,
        key.code != KeyCode::Enter ==> list_step(l, s, key).0.popup == modal_step(l.popup, key),
        key.code == KeyCode::Enter ==> list_step(l, s, key).1.slots == s.slots.push(
            Some(TaskModel { title: l.popup.buffer, time_created: s.clock_ms }),
        ),
{
}

/// Selection clamp: after any update, the selection lies in
/// `[0, count - 1]` whenever tasks exist, and is pinned at 0 (never read)
/// when none do.
pub proof fn lemma_selection_clamp(l: ListModel, s: SessionModel, key: KeyEvent)
    ensures
        ({
            let (l2, s2) = list_step(l, s, key);
            &&& (live_count(s2.slots) > 0 ==> 0 <= l2.index < live_count(s2.slots))
            &&& (live_count(s2.slots) == 0 ==> l2.index == 0)
        }),
{
    let (l2, s2) = list_step(l, s, key);
    if l.popup.is_open {
        if key.code == KeyCode::Enter {
            let t = TaskModel { title: l.popup.buffer, time_created: s.clock_ms };
            lemma_live_indices_push(s.slots, t);
        }
    } else {
        let n = live_count(s.slots) as int;
        let ci = clamp_index(l.index, n);
        if key.code == KeyCode::Char('d') && key.no_modifiers() && n > 0 {
            lemma_display_order(s.slots);
            let victim = display_order(s.slots, l.reverse)[ci];
            if l.reverse {
                assert(victim == ascending_display(s.slots).reverse()[ci]);
                assert(0 <= victim < s.slots.len() && s.slots[victim] is Some);
            }
            lemma_live_count_remove(s.slots, victim);
        }
    }
}

} // verus!
