//! The composition root and the event-loop decision.
//!
//! `LayoutRoot` is the single top-level component of a session: a thin
//! pass-through to a `TabLayout` holding the normal and the reversed task
//! list, so the loop need not know the tree's shape. `loop_step` is the
//! decision a loop iteration makes after rendering: dispatch the key into
//! the tree, then apply the fallback bindings to whatever the tree left
//! unhandled. The surrounding binary acts on the returned action: it quits,
//! or writes the snapshot image if the session is dirty and continues.

use vstd::prelude::*;
use crate::component::Component;
use crate::component::DrawCmd;
use crate::component::draw_models;
use crate::keys::KeyCode;
use crate::keys::KeyEvent;
use crate::modal::ModalModel;
use crate::session::AppState;
use crate::session::SessionModel;
use crate::tab_layout::Tab;
use crate::tab_layout::TabLayout;
use crate::tab_layout::TabsModel;
use crate::tab_layout::tabs_draws;
use crate::tab_layout::tabs_handles;
use crate::tab_layout::tabs_step;
use crate::tab_layout::tabs_wf;
use crate::task_list::BasicTaskList;
use crate::task_list::ListModel;

verus! {

/// The initial model of one task-list tab.
pub open spec fn initial_list(reverse: bool) -> ListModel {
    ListModel {
        index: 0,
        popup: ModalModel {
            is_open: false,
            buffer: Seq::<char>::empty(),
            prompt: "Enter new task"@,
        },
        reverse,
    }
}

/// The initial model of the whole tree: the ascending list under "Tasks",
/// the reversed one under "Tasks (rev)", the first tab active.
pub open spec fn initial_root() -> TabsModel {
    TabsModel {
        labels: seq!["Tasks"@, "Tasks (rev)"@],
        children: seq![initial_list(false), initial_list(true)],
        active: 0,
    }
}

/// The top-level component: a fixed pair of task-list tabs.
pub struct LayoutRoot {
    tabs: TabLayout,
}

impl View for LayoutRoot {
    type V = TabsModel;

    closed spec fn view(&self) -> TabsModel {
        self.tabs@
    }
}

impl LayoutRoot {
    /// The session's component tree, in its initial state.
    pub fn new() -> (r: Self)
        ensures
            r@ == initial_root(),
            tabs_wf(r@),
    {
        let mut tabs: Vec<Tab> = Vec::new();
        tabs.push(Tab { label: "Tasks".to_owned(), child: BasicTaskList::new(false) });
        tabs.push(Tab { label: "Tasks (rev)".to_owned(), child: BasicTaskList::new(true) });
        let r = LayoutRoot { tabs: TabLayout::new(tabs) };
        proof {
            assert(r@.labels =~= initial_root().labels);
            assert(r@.children =~= initial_root().children);
        }
        r
    }
}

impl Component for LayoutRoot {
    fn render(&self, state: &AppState) -> (r: Vec<DrawCmd>)
        ensures
            tabs_wf(self@) ==> draw_models(r@) == tabs_draws(self@, state@.slots),
    {
        self.tabs.render(state)
    }

    fn update(&mut self, key: KeyEvent, state: &mut AppState) -> (handled: bool)
        ensures
            tabs_wf(old(self)@) ==> {
                &&& (final(self)@, final(state)@) == tabs_step(old(self)@, old(state)@, key)
                &&& handled == tabs_handles(old(self)@, old(state)@, key)
                &&& tabs_wf(final(self)@)
            },
    {
        self.tabs.update(key, state)
    }
}

/// What a loop iteration decides: keep going, or leave the interface.
#[derive(Clone, Copy, PartialEq, Eq, Structural, Debug)]
pub enum LoopAction {
    Continue,
    Quit,
}

/// The fallback quit bindings fire only on keys the tree left unhandled:
/// `q`, Escape, or Ctrl-C.
pub open spec fn quit_requested(t: TabsModel, s: SessionModel, key: KeyEvent) -> bool {
    !tabs_handles(t, s, key) && (key.code == KeyCode::Char('q') || key.code == KeyCode::Esc || (
    key.code == KeyCode::Char('c') && key.ctrl))
}

/// One iteration of the event loop, after the frame was drawn and one key
/// read: dispatch the key into the tree, then apply the process-level
/// fallback bindings to an unhandled key. (`s` is reserved for an explicit
/// save command; with every mutation already persisted synchronously it is
/// a deliberate no-op.)
pub fn loop_step(root: &mut LayoutRoot, state: &mut AppState, key: KeyEvent) -> (action: LoopAction)
    requires
        tabs_wf(old(root)@),
    ensures
        (final(root)@, final(state)@) == tabs_step(old(root)@, old(state)@, key),
        tabs_wf(final(root)@),
        action == LoopAction::Quit <==> quit_requested(old(root)@, old(state)@, key),
{
    let handled = root.update(key, state);
    if handled {
        return LoopAction::Continue;
    }
    match key.code {
        KeyCode::Char(c) => {
            if c == 'q' {
                LoopAction::Quit
            } else if c == 'c' && key.ctrl {
                LoopAction::Quit
            } else {
                // this also leaves `s`, the reserved save key, as a no-op
                LoopAction::Continue
            }
        },
        KeyCode::Esc => LoopAction::Quit,
        _ => LoopAction::Continue,
    }
}

} // verus!
