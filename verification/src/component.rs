//! The component contract, and the plain draw commands components render to.
//!
//! Rendering is pure with respect to application state: `render` borrows the
//! state immutably and yields a list of draw commands for the terminal layer
//! to paint, in back-to-front order (an overlay drawn last layers on top).
//! `update` may mutate state and returns true exactly when the component, or
//! a descendant it delegated to, consumed the event; a consumed event must
//! not be reinterpreted by any ancestor or fallback handler.

use vstd::prelude::*;
use crate::keys::KeyEvent;
use crate::session::AppState;

verus! {

/// The mathematical content of one draw command.
pub ghost enum DrawModel {
    TabBar { labels: Seq<Seq<char>>, active: int },
    TaskList { title: Seq<char>, rows: Seq<Seq<char>>, selected: Option<int> },
    ModalBox { prompt: Seq<char>, content: Seq<char> },
}

/// One instruction to the terminal layer: a row of tab labels, a bordered
/// selectable list, or a bordered prompt box layered above the rest.
pub enum DrawCmd {
    TabBar { labels: Vec<String>, active: usize },
    TaskList { title: String, rows: Vec<String>, selected: Option<usize> },
    ModalBox { prompt: String, content: String },
}

impl View for DrawCmd {
    type V = DrawModel;

    open spec fn view(&self) -> DrawModel {
        match self {
            DrawCmd::TabBar { labels, active } => DrawModel::TabBar {
                labels: labels@.map_values(|s: String| s@),
                active: *active as int,
            },
            DrawCmd::TaskList { title, rows, selected } => DrawModel::TaskList {
                title: title@,
                rows: rows@.map_values(|s: String| s@),
                selected: match selected {
                    Some(i) => Some(*i as int),
                    None => None,
                },
            },
            DrawCmd::ModalBox { prompt, content } => DrawModel::ModalBox {
                prompt: prompt@,
                content: content@,
            },
        }
    }
}

/// The models of a rendered command list.
pub open spec fn draw_models(v: Seq<DrawCmd>) -> Seq<DrawModel> {
    v.map_values(|d: DrawCmd| d@)
}

/// The contract every UI node implements.
///
/// Composites must delegate to descendants first and short-circuit when a
/// descendant reports the event handled; only then may they interpret the
/// key themselves. Each implementation states its exact behaviour in the
/// `ensures` of its own `impl`.
pub trait Component {
    /// Draw this component (and its children) as plain draw commands.
    fn render(&self, state: &AppState) -> Vec<DrawCmd>;

    /// React to one key event. True means the event was consumed here or by
    /// a descendant and no ancestor may also act on it.
    fn update(&mut self, key: KeyEvent, state: &mut AppState) -> bool;
}

} // verus!
