//! Chat presence events and the entity ids they are scoped by.
use vstd::prelude::*;

verus! {

/// The entity id that the host reserves for the local player.
pub const ENTITY_SELF_ID: u8 = 255;

/// One change in a player's chat presence.
#[derive(Debug, PartialEq, Eq)]
pub enum PlayerChatEvent {
    ChatOpened,
    ChatClosed,
    InputTextChanged(String),
    Message(String),
}

/// What the local chat input produces; a subset of [`PlayerChatEvent`].
#[derive(Debug, PartialEq, Eq)]
pub enum InputEvent {
    ChatOpened,
    ChatClosed,
    InputTextChanged(String),
}

/// The model of a [`PlayerChatEvent`]: texts as character sequences.
pub enum ChatEventView {
    ChatOpened,
    ChatClosed,
    InputTextChanged(Seq<char>),
    Message(Seq<char>),
}

impl View for PlayerChatEvent {
    type V = ChatEventView;

    open spec fn view(&self) -> ChatEventView {
        match self {
            PlayerChatEvent::ChatOpened => ChatEventView::ChatOpened,
            PlayerChatEvent::ChatClosed => ChatEventView::ChatClosed,
            PlayerChatEvent::InputTextChanged(t) => ChatEventView::InputTextChanged(t@),
            PlayerChatEvent::Message(t) => ChatEventView::Message(t@),
        }
    }
}

impl Clone for PlayerChatEvent {
    fn clone(&self) -> (r: Self)
        ensures
            r == *self,
    {
        match self {
            PlayerChatEvent::ChatOpened => PlayerChatEvent::ChatOpened,
            PlayerChatEvent::ChatClosed => PlayerChatEvent::ChatClosed,
            PlayerChatEvent::InputTextChanged(t) => PlayerChatEvent::InputTextChanged(t.clone()),
            PlayerChatEvent::Message(t) => PlayerChatEvent::Message(t.clone()),
        }
    }
}

impl InputEvent {
    /// The same event as seen by listeners and peers.
    pub open spec fn spec_to_chat_event(self) -> PlayerChatEvent {
        match self {
            InputEvent::ChatOpened => PlayerChatEvent::ChatOpened,
            InputEvent::ChatClosed => PlayerChatEvent::ChatClosed,
            InputEvent::InputTextChanged(t) => PlayerChatEvent::InputTextChanged(t),
        }
    }

    pub fn to_chat_event(&self) -> (r: PlayerChatEvent)
        ensures
            r == self.spec_to_chat_event(),
    {
        match self {
            InputEvent::ChatOpened => PlayerChatEvent::ChatOpened,
            InputEvent::ChatClosed => PlayerChatEvent::ChatClosed,
            InputEvent::InputTextChanged(t) => PlayerChatEvent::InputTextChanged(t.clone()),
        }
    }
}

} // verus!
