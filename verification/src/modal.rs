//! A self-contained text-input overlay.
//!
//! While open it is modal: it swallows every key, so nothing underneath can
//! scroll or delete. Printable characters grow its buffer, backspace shrinks
//! it, Escape closes it discarding the text, and Enter is reported handled
//! but leaves the transition to the owner, who calls `close` to take the
//! text. Closing returns the buffer and clears the open state in one step:
//! there is no state that is closed yet still holds stale text.

use vstd::prelude::*;
use crate::component::Component;
use crate::component::DrawCmd;
use crate::component::DrawModel;
use crate::component::draw_models;
use crate::keys::KeyCode;
use crate::keys::KeyEvent;
use crate::session::AppState;

verus! {

/// The modal's mathematical state.
pub ghost struct ModalModel {
    pub is_open: bool,
    pub buffer: Seq<char>,
    pub prompt: Seq<char>,
}

/// How one key event moves the modal. A closed modal ignores every key; an
/// open one appends unmodified printable characters, drops the last
/// character on backspace, closes (discarding the buffer) on Escape, and
/// stays as it is on Enter and on every other key.
pub open spec fn modal_step(m: ModalModel, key: KeyEvent) -> ModalModel {
    if !m.is_open {
        m
    } else {
        match key.code {
            KeyCode::Char(c) => if !key.ctrl && !key.alt {
                ModalModel { buffer: m.buffer.push(c), ..m }
            } else {
                m
            },
            KeyCode::Backspace => if m.buffer.len() > 0 {
                ModalModel { buffer: m.buffer.drop_last(), ..m }
            } else {
                m
            },
            KeyCode::Esc => ModalModel { is_open: false, buffer: Seq::empty(), ..m },
            _ => m,
        }
    }
}

/// The modal consumes a key exactly while it is open.
pub open spec fn modal_handles(m: ModalModel, key: KeyEvent) -> bool {
    m.is_open
}

/// What an overlay draws: nothing while closed, one prompt box while open.
pub open spec fn modal_draws(m: ModalModel) -> Seq<DrawModel> {
    if m.is_open {
        seq![DrawModel::ModalBox { prompt: m.prompt, content: m.buffer }]
    } else {
        Seq::empty()
    }
}

/// Relies on `String: FromIterator<char>`: collecting characters yields the
/// string of exactly those characters, in order.
#[verifier::external_body]
fn string_from_chars(v: &Vec<char>) -> (s: String)
    ensures
        s@ == v@,
{
    v.iter().collect()
}

/// The text-input overlay component.
pub struct TextInputModal {
    is_open: bool,
    buffer: Vec<char>,
    prompt: String,
}

impl View for TextInputModal {
    type V = ModalModel;

    closed spec fn view(&self) -> ModalModel {
        ModalModel { is_open: self.is_open, buffer: self.buffer@, prompt: self.prompt@ }
    }
}

impl TextInputModal {
    /// A closed modal with the given prompt label and an empty buffer.
    pub fn new(prompt: String) -> (m: Self)
        ensures
            m@ == (ModalModel { is_open: false, buffer: Seq::<char>::empty(), prompt: prompt@ }),
    {
        let m = TextInputModal { is_open: false, buffer: Vec::new(), prompt };
        proof {
            assert(m@.buffer =~= Seq::<char>::empty());
        }
        m
    }

    /// Whether the modal is currently capturing input.
    pub fn is_open(&self) -> (b: bool)
        ensures
            b == self@.is_open,
    {
        self.is_open
    }

    /// Open the modal with a cleared buffer.
    pub fn open(&mut self)
        ensures
            final(self)@ == (ModalModel {
                is_open: true,
                buffer: Seq::<char>::empty(),
                prompt: old(self)@.prompt,
            }),
    {
        self.is_open = true;
        self.buffer = Vec::new();
        proof {
            assert(self@.buffer =~= Seq::<char>::empty());
        }
    }

    /// Close the modal and take its text: an open modal yields its buffer
    /// and ends closed and empty, atomically; a closed one yields nothing
    /// and is left as it was.
    pub fn close(&mut self) -> (r: Option<String>)
        ensures
            old(self)@.is_open ==> (r matches Some(s) && s@ == old(self)@.buffer),
            old(self)@.is_open ==> final(self)@ == (ModalModel {
                is_open: false,
                buffer: Seq::<char>::empty(),
                prompt: old(self)@.prompt,
            }),
            !old(self)@.is_open ==> r is None && final(self)@ == old(self)@,
    {
        if self.is_open {
            let text = string_from_chars(&self.buffer);
            self.is_open = false;
            self.buffer = Vec::new();
            proof {
                assert(self@.buffer =~= Seq::<char>::empty());
            }
            Some(text)
        } else {
            None
        }
    }

    /// The buffer as text, for drawing.
    fn buffer_text(&self) -> (s: String)
        ensures
            s@ == self@.buffer,
    {
        string_from_chars(&self.buffer)
    }
}

impl Component for TextInputModal {
    fn render(&self, state: &AppState) -> (r: Vec<DrawCmd>)
        ensures
            draw_models(r@) == modal_draws(self@),
    {
        let mut r: Vec<DrawCmd> = Vec::new();
        if self.is_open {
            r.push(
                DrawCmd::ModalBox { prompt: self.prompt.clone(), content: self.buffer_text() },
            );
        }
        proof {
            assert(draw_models(r@) =~= modal_draws(self@));
        }
        r
    }

    fn update(&mut self, key: KeyEvent, state: &mut AppState) -> (handled: bool)
        ensures
            final(self)@ == modal_step(old(self)@, key),
            handled == modal_handles(old(self)@, key),
            final(state)@ == old(state)@,
    {
        if !self.is_open {
            return false;
        }
        match key.code {
            KeyCode::Char(c) => {
                if !key.ctrl && !key.alt {
                    self.buffer.push(c);
                }
            },
            KeyCode::Backspace => {
                if self.buffer.len() > 0 {
                    self.buffer.pop();
                    proof {
                        assert(self@.buffer =~= old(self)@.buffer.drop_last());
                    }
                }
            },
            KeyCode::Esc => {
                self.is_open = false;
                self.buffer = Vec::new();
                proof {
                    assert(self@.buffer =~= Seq::<char>::empty());
                }
            },
            _ => {},
        }
        true
    }
}

} // verus!
