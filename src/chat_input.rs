//! The chat presence state machine: whether the local chat input is open,
//! and which changes of its text are worth telling anyone about.
use vstd::prelude::*;
use vstd::string::StrSliceExecFns;
use crate::event::InputEvent;

verus! {

/// The host's key codes that open and close the chat.
#[derive(Clone, Copy, Debug, PartialEq, Eq, Structural)]
pub struct ChatKeys {
    /// The key bound to opening the chat, if any.
    pub open_chat: Option<u32>,
    /// The key bound to sending the chat, if any.
    pub send_chat: Option<u32>,
    /// The slash key, which opens the chat with a command.
    pub slash: u32,
    /// The keypad enter key, which sends.
    pub keypad_enter: u32,
    /// The escape key, which closes the chat.
    pub escape: u32,
}

pub open spec fn opens_chat(keys: ChatKeys, key: u32) -> bool {
    keys.open_chat == Some(key) || key == keys.slash
}

pub open spec fn closes_chat(keys: ChatKeys, key: u32) -> bool {
    keys.send_chat == Some(key) || key == keys.keypad_enter || key == keys.escape
}

/// Text that looks like a whisper (`@`), a command (`/`), or a message to
/// operators or admins (`##`, `++`); it never leaves this client.
pub open spec fn sensitive(t: Seq<char>) -> bool {
    ||| t.len() >= 1 && (t[0] == '@' || t[0] == '/')
    ||| t.len() >= 2 && t[0] == '#' && t[1] == '#'
    ||| t.len() >= 2 && t[0] == '+' && t[1] == '+'
}

pub fn is_sensitive_text(text: &str) -> (r: bool)
    ensures
        r == sensitive(text@),
{
    let n = text.unicode_len();
    if n == 0 {
        return false;
    }
    let c = text.get_char(0);
    if c == '@' || c == '/' {
        return true;
    }
    if n < 2 {
        return false;
    }
    let d = text.get_char(1);
    (c == '#' && d == '#') || (c == '+' && d == '+')
}

pub struct ChatInputView {
    pub open: bool,
    /// The text of the input the last time it was looked at.
    pub last_input: Option<Seq<char>>,
}

/// The state and the event after the input's text is looked at; `text` is
/// none when the host shows no chat input.
pub open spec fn text_step(s: ChatInputView, text: Option<Seq<char>>) -> (ChatInputView, Option<
    Seq<char>,
>) {
    match text {
        Some(t) => if s.open && s.last_input != Some(t) {
            (
                ChatInputView { open: s.open, last_input: Some(t) },
                if sensitive(t) {
                    None
                } else {
                    Some(t)
                },
            )
        } else {
            (s, None)
        },
        None => (s, None),
    }
}

pub struct ChatInput {
    keys: ChatKeys,
    open: bool,
    last_input: Option<String>,
}

impl View for ChatInput {
    type V = ChatInputView;

    closed spec fn view(&self) -> ChatInputView {
        ChatInputView {
            open: self.open,
            last_input: match &self.last_input {
                Some(t) => Some(t@),
                None => None,
            },
        }
    }
}

pub open spec fn text_view(text: Option<String>) -> Option<Seq<char>> {
    match text {
        Some(t) => Some(t@),
        None => None,
    }
}

/// The text of a produced event, if it is a text change.
pub open spec fn changed_text(e: Option<InputEvent>) -> Option<Seq<char>> {
    match e {
        Some(InputEvent::InputTextChanged(t)) => Some(t@),
        _ => None,
    }
}

/// The outcome of looking at the input's text: the new state `s2` and the
/// event `r`.
pub open spec fn text_ok(
    s: ChatInputView,
    text: Option<Seq<char>>,
    s2: ChatInputView,
    r: Option<InputEvent>,
) -> bool {
    &&& s2 == text_step(s, text).0
    &&& changed_text(r) == text_step(s, text).1
    &&& r is Some ==> r->Some_0 is InputTextChanged
}

/// The outcome of a key going down: a key that is not held down opens a
/// closed chat or closes an open one; otherwise an open chat's text is looked
/// at.
pub open spec fn key_down_ok(
    keys: ChatKeys,
    s: ChatInputView,
    key: u32,
    repeating: bool,
    text: Option<Seq<char>>,
    s2: ChatInputView,
    r: Option<InputEvent>,
) -> bool {
    if !s.open {
        if !repeating && opens_chat(keys, key) {
            s2 == ChatInputView { open: true, ..s } && r == Some(InputEvent::ChatOpened)
        } else {
            s2 == s && r is None
        }
    } else {
        if !repeating && closes_chat(keys, key) {
            s2 == ChatInputView { open: false, ..s } && r == Some(InputEvent::ChatClosed)
        } else {
            text_ok(s, text, s2, r)
        }
    }
}

impl ChatInput {
    pub closed spec fn keys(&self) -> ChatKeys {
        self.keys
    }

    pub fn new(keys: ChatKeys) -> (r: Self)
        ensures
            r.keys() == keys,
            !r@.open,
            r@.last_input is None,
    {
        ChatInput { keys, open: false, last_input: None }
    }

    pub fn is_open(&self) -> (r: bool)
        ensures
            r == self@.open,
    {
        self.open
    }

    /// Looks at the input's text after a key event.
    fn check_input_changed(&mut self, text: Option<String>) -> (r: Option<InputEvent>)
        ensures
            final(self).keys() == old(self).keys(),
            final(self)@ == text_step(old(self)@, text_view(text)).0,
            changed_text(r) == text_step(old(self)@, text_view(text)).1,
            r is Some ==> r->Some_0 is InputTextChanged,
    {
        if !self.open {
            return None;
        }
        match text {
            Some(t) => {
                let same = match &self.last_input {
                    Some(last) => *last == t,
                    None => false,
                };
                if same {
                    return None;
                }
                self.last_input = Some(t.clone());
                if is_sensitive_text(t.as_str()) {
                    None
                } else {
                    Some(InputEvent::InputTextChanged(t))
                }
            },
            None => None,
        }
    }

    /// A key went down; `text` is the chat input's text, if the host shows
    /// it. Opening and closing the chat take a key that is not held down.
    pub fn on_key_down(&mut self, key: u32, repeating: bool, text: Option<String>) -> (r: Option<
        InputEvent,
    >)
        ensures
            final(self).keys() == old(self).keys(),
            key_down_ok(old(self).keys(), old(self)@, key, repeating, text_view(text), final(self)@, r),
    {
        let is_open_key = match self.keys.open_chat {
            Some(k) => k == key,
            None => false,
        } || key == self.keys.slash;
        let is_close_key = match self.keys.send_chat {
            Some(k) => k == key,
            None => false,
        } || key == self.keys.keypad_enter || key == self.keys.escape;
        if self.open {
            if !repeating && is_close_key {
                self.open = false;
                Some(InputEvent::ChatClosed)
            } else {
                self.check_input_changed(text)
            }
        } else {
            if !repeating && is_open_key {
                self.open = true;
                Some(InputEvent::ChatOpened)
            } else {
                None
            }
        }
    }

    /// A character was typed.
    pub fn on_key_press(&mut self, text: Option<String>) -> (r: Option<InputEvent>)
        ensures
            final(self).keys() == old(self).keys(),
            text_ok(old(self)@, text_view(text), final(self)@, r),
    {
        self.check_input_changed(text)
    }

    /// A key went up.
    pub fn on_key_up(&mut self, text: Option<String>) -> (r: Option<InputEvent>)
        ensures
            final(self).keys() == old(self).keys(),
            text_ok(old(self)@, text_view(text), final(self)@, r),
    {
        self.check_input_changed(text)
    }
}

/// No text that looks private comes out of the chat input, whatever its state
/// and whatever the text: a text change is only ever produced for text that
/// is not sensitive.
pub proof fn lemma_redaction(s: ChatInputView, text: Option<Seq<char>>)
    ensures
        text_step(s, text).1 matches Some(t) ==> !sensitive(t),
{
}

} // verus!
