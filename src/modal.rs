//! The yes/no question put to the user before running processes are terminated.

use vstd::prelude::*;

verus! {

/// The question's state: whether it is shown, and its text.
#[derive(Debug, Clone)]
pub struct ModalAsk {
    pub show_modal: bool,
    pub message: String,
}

/// The user's answer.
#[derive(Debug, Clone, Copy, PartialEq, Eq, Structural)]
pub enum ModalAskMessage {
    ConfirmMsg(bool),
}

impl ModalAsk {
    /// A hidden question with no text.
    pub fn new() -> (r: Self)
        ensures
            !r.show_modal,
            r.message@.len() == 0,
    {
        ModalAsk { show_modal: false, message: String::new() }
    }

    /// Set the question's text and show it.
    pub fn set_message(&mut self, msg: String)
        ensures
            final(self).show_modal,
            final(self).message@ == msg@,
    {
        self.message = msg;
        self.show_modal = true;
    }

    /// Hide the question and clear its text.
    pub fn dismiss(&mut self)
        ensures
            !final(self).show_modal,
            final(self).message@.len() == 0,
    {
        self.show_modal = false;
        self.message = String::new();
    }

    /// Take the user's answer: the question is hidden and the answer handed on.
    pub fn update(&mut self, msg: ModalAskMessage) -> (r: Option<bool>)
        ensures
            !final(self).show_modal,
            final(self).message@.len() == 0,
            match msg {
                ModalAskMessage::ConfirmMsg(answer) => r == Some(answer),
            },
    {
        match msg {
            ModalAskMessage::ConfirmMsg(answer) => {
                self.dismiss();
                Some(answer)
            },
        }
    }
}

} // verus!
