//! An ordered set of labelled tabs, one active at a time.
//!
//! Rendering draws the tab bar and only the active child. Input goes to the
//! active child first; only when the child leaves the key unhandled does the
//! container interpret Left and Right, which move the active tab and clamp
//! at the first and last tab (no wrap-around). The tab set itself is fixed
//! once constructed.

use vstd::prelude::*;
use crate::component::Component;
use crate::component::DrawCmd;
use crate::component::DrawModel;
use crate::component::draw_models;
use crate::keys::KeyCode;
use crate::keys::KeyEvent;
use crate::session::AppState;
use crate::session::SessionModel;
use crate::task_list::BasicTaskList;
use crate::task_list::ListModel;
use crate::task_list::list_draws;
use crate::task_list::list_handles;
use crate::task_list::list_step;

verus! {

/// The container's mathematical state.
pub ghost struct TabsModel {
    pub labels: Seq<Seq<char>>,
    pub children: Seq<ListModel>,
    pub active: int,
}

/// A well-formed container has at least one tab, an active index inside the
/// sequence, and one label per child.
pub open spec fn tabs_wf(t: TabsModel) -> bool {
    &&& t.children.len() > 0
    &&& 0 <= t.active < t.children.len()
    &&& t.labels.len() == t.children.len()
}

/// How one key event moves the container: the active child steps first (its
/// own step also re-clamps its selection); if the child left the key
/// unhandled, Left and Right move the active tab, clamping at the ends.
pub open spec fn tabs_step(t: TabsModel, s: SessionModel, key: KeyEvent) -> (
    TabsModel,
    SessionModel,
) {
    let child = t.children[t.active];
    let (c2, s2) = list_step(child, s, key);
    let t2 = TabsModel { children: t.children.update(t.active, c2), ..t };
    if list_handles(child, s, key) {
        (t2, s2)
    } else if key.code == KeyCode::Left {
        (TabsModel { active: if t.active > 0 { t.active - 1 } else { 0 }, ..t2 }, s2)
    } else if key.code == KeyCode::Right {
        (
            TabsModel {
                active: if t.active + 1 < t.children.len() {
                    t.active + 1
                } else {
                    t.active
                },
                ..t2
            },
            s2,
        )
    } else {
        (t2, s2)
    }
}

/// Which keys the container consumes: whatever its active child consumes,
/// plus Left and Right.
pub open spec fn tabs_handles(t: TabsModel, s: SessionModel, key: KeyEvent) -> bool {
    list_handles(t.children[t.active], s, key) || key.code == KeyCode::Left || key.code
        == KeyCode::Right
}

/// What the container draws: the tab bar, then only the active child.
pub open spec fn tabs_draws(t: TabsModel, slots: Seq<Option<crate::store::TaskModel>>) -> Seq<
    DrawModel,
> {
    seq![DrawModel::TabBar { labels: t.labels, active: t.active }] + list_draws(
        t.children[t.active],
        slots,
    )
}

/// One labelled tab.
pub struct Tab {
    pub label: String,
    pub child: BasicTaskList,
}

/// The tab container component.
pub struct TabLayout {
    tabs: Vec<Tab>,
    active: usize,
}

impl View for TabLayout {
    type V = TabsModel;

    closed spec fn view(&self) -> TabsModel {
        TabsModel {
            labels: self.tabs@.map_values(|t: Tab| t.label@),
            children: self.tabs@.map_values(|t: Tab| t.child@),
            active: self.active as int,
        }
    }
}

impl TabLayout {
    /// A container over the given tabs, the first one active.
    pub fn new(tabs: Vec<Tab>) -> (t: Self)
        requires
            tabs@.len() > 0,
        ensures
            t@ == (TabsModel {
                labels: tabs@.map_values(|tab: Tab| tab.label@),
                children: tabs@.map_values(|tab: Tab| tab.child@),
                active: 0,
            }),
            tabs_wf(t@),
    {
        TabLayout { tabs, active: 0 }
    }
}

impl Component for TabLayout {
    fn render(&self, state: &AppState) -> (r: Vec<DrawCmd>)
        ensures
            tabs_wf(self@) ==> draw_models(r@) == tabs_draws(self@, state@.slots),
    {
        let mut labels: Vec<String> = Vec::new();
        let mut k: usize = 0;
        while k < self.tabs.len()
            invariant
                k <= self.tabs@.len(),
                labels@.map_values(|s: String| s@) == self@.labels.take(k as int),
            decreases self.tabs@.len() - k,
        {
            let lbl = self.tabs[k].label.clone();
            proof {
                assert(lbl@ == self@.labels[k as int]);
                assert(self@.labels.take(k as int + 1) =~= self@.labels.take(k as int).push(
                    self@.labels[k as int],
                ));
            }
            labels.push(lbl);
            proof {
                assert(labels@.map_values(|s: String| s@) =~= self@.labels.take(k as int + 1));
            }
            k += 1;
        }
        proof {
            assert(self@.labels.take(self@.labels.len() as int) =~= self@.labels);
        }
        let mut r: Vec<DrawCmd> = Vec::new();
        r.push(DrawCmd::TabBar { labels, active: self.active });
        if self.active < self.tabs.len() {
            let mut child = self.tabs[self.active].child.render(state);
            r.append(&mut child);
        }
        proof {
            if tabs_wf(self@) {
                assert(self@.children[self@.active] == self.tabs@[self.active as int].child@);
                assert(draw_models(r@) =~= tabs_draws(self@, state@.slots));
            }
        }
        r
    }

    fn update(&mut self, key: KeyEvent, state: &mut AppState) -> (handled: bool)
        ensures
            tabs_wf(old(self)@) ==> {
                &&& (final(self)@, final(state)@) == tabs_step(old(self)@, old(state)@, key)
                &&& handled == tabs_handles(old(self)@, old(state)@, key)
                &&& tabs_wf(final(self)@)
            },
            !tabs_wf(old(self)@) ==> final(self)@ == old(self)@ && final(state)@ == old(state)@
                && !handled,
    {
        let ghost t0 = old(self)@;
        if self.active >= self.tabs.len() || self.tabs.len() == 0 {
            return false;
        }
        let mut tab = self.tabs.remove(self.active);
        let child_handled = tab.child.update(key, state);
        self.tabs.insert(self.active, tab);
        proof {
            if tabs_wf(t0) {
                assert(self@.children =~= t0.children.update(
                    t0.active,
                    list_step(t0.children[t0.active], old(state)@, key).0,
                ));
                assert(self@.labels =~= t0.labels);
            }
        }
        if child_handled {
            return true;
        }
        match key.code {
            KeyCode::Left => {
                if self.active > 0 {
                    self.active = self.active - 1;
                }
                true
            },
            KeyCode::Right => {
                if self.active + 1 < self.tabs.len() {
                    self.active = self.active + 1;
                }
                true
            },
            _ => false,
        }
    }
}

/// Delegation order: the active child is consulted first, and when it
/// consumes the key the container must not also act — the active tab stays
/// put, the child and session move exactly as the child's own step says,
/// and the event is reported handled.
pub proof fn lemma_delegation_order(t: TabsModel, s: SessionModel, key: KeyEvent)
    requires
        tabs_wf(t),
        list_handles(t.children[t.active], s, key),
    ensures
        tabs_handles(t, s, key),
        tabs_step(t, s, key).0.active == t.active,
        tabs_step(t, s, key).0.children == t.children.update(
            t.active,
            list_step(t.children[t.active], s, key).0,
        ),
        tabs_step(t, s, key).1 == list_step(t.children[t.active], s, key).1,
{
}

} // verus!
