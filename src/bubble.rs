//! What a player's chat bubble shows: the text being typed, if any, and the
//! messages said lately, each until it expires. Drawing it is the host's.
use vstd::prelude::*;
use vstd::string::StrSliceExecFns;
use crate::event::{ChatEventView, PlayerChatEvent};

verus! {

/// How long a said message stays over the player's head.
pub const MESSAGE_DISPLAY_MS: u64 = 5_000;

pub struct BubbleView {
    pub typing: Option<Seq<char>>,
    /// Each message with the time it expires, oldest first.
    pub messages: Seq<(u64, Seq<char>)>,
}

pub open spec fn expiry(now: u64) -> u64 {
    if now as int + MESSAGE_DISPLAY_MS as int > u64::MAX as int {
        u64::MAX
    } else {
        (now + MESSAGE_DISPLAY_MS) as u64
    }
}

/// The bubble after `e` arrives at time `now`.
pub open spec fn bubble_step(b: BubbleView, e: ChatEventView, now: u64) -> BubbleView {
    match e {
        ChatEventView::ChatOpened => b,
        ChatEventView::ChatClosed => BubbleView { typing: None, ..b },
        ChatEventView::InputTextChanged(t) => BubbleView {
            typing: if t.len() == 0 {
                None
            } else {
                Some(t)
            },
            ..b
        },
        ChatEventView::Message(t) => BubbleView { messages: b.messages.push((expiry(now), t)), ..b },
    }
}

pub struct BubbleState {
    typing: Option<String>,
    messages: Vec<(u64, String)>,
}

impl View for BubbleState {
    type V = BubbleView;

    closed spec fn view(&self) -> BubbleView {
        BubbleView {
            typing: match &self.typing {
                Some(t) => Some(t@),
                None => None,
            },
            messages: self.messages@.map_values(|m: (u64, String)| (m.0, m.1@)),
        }
    }
}

impl BubbleState {
    pub fn new() -> (r: Self)
        ensures
            r@.typing is None,
            r@.messages.len() == 0,
    {
        let r = BubbleState { typing: None, messages: Vec::new() };
        assert(r@.messages =~= Seq::<(u64, Seq<char>)>::empty());
        r
    }

    /// Takes the event `e`, which arrived at time `now`.
    pub fn apply_event(&mut self, e: &PlayerChatEvent, now: u64)
        ensures
            final(self)@ == bubble_step(old(self)@, e@, now),
    {
        match e {
            PlayerChatEvent::ChatOpened => {},
            PlayerChatEvent::ChatClosed => {
                self.typing = None;
            },
            PlayerChatEvent::InputTextChanged(t) => {
                if t.as_str().unicode_len() == 0 {
                    self.typing = None;
                } else {
                    self.typing = Some(t.clone());
                }
            },
            PlayerChatEvent::Message(t) => {
                let ghost before = self@.messages;
                self.messages.push((now.saturating_add(MESSAGE_DISPLAY_MS), t.clone()));
                assert(self@.messages =~= before.push((expiry(now), t@)));
            },
        }
    }

    /// Drops the messages that expired by time `now`.
    pub fn prune(&mut self, now: u64)
        ensures
            final(self)@.typing == old(self)@.typing,
            final(self)@.messages == old(self)@.messages.filter(
                |m: (u64, Seq<char>)| now < m.0,
            ),
    {
        let ghost pred = |m: (u64, Seq<char>)| now < m.0;
        let ghost before = self@.messages;
        let mut old_messages: Vec<(u64, String)> = Vec::new();
        std::mem::swap(&mut old_messages, &mut self.messages);
        let mut kept: Vec<(u64, String)> = Vec::new();
        let n = old_messages.len();
        let mut i: usize = 0;
        assert(before.take(0) =~= Seq::<(u64, Seq<char>)>::empty());
        while i < n
            invariant
                n == old_messages@.len(),
                n == before.len(),
                pred == (|m: (u64, Seq<char>)| now < m.0),
                forall|j: int|
                    0 <= j < n ==> (#[trigger] old_messages@[j]).0 == before[j].0
                        && old_messages@[j].1@ == before[j].1,
                i <= n,
                kept@.map_values(|m: (u64, String)| (m.0, m.1@)) == before.take(i as int).filter(
                    pred,
                ),
            decreases n - i,
        {
            proof {
                crate::seqs::lemma_filter_take_step(before, pred, i as int);
            }
            if now < old_messages[i].0 {
                let m = (old_messages[i].0, old_messages[i].1.clone());
                kept.push(m);
                assert(kept@.map_values(|m: (u64, String)| (m.0, m.1@)) =~= before.take(
                    i as int,
                ).filter(pred).push(before[i as int]));
            }
            i = i + 1;
        }
        assert(before.take(i as int) =~= before);
        self.messages = kept;
    }

    /// The text being typed, if any.
    pub fn typing(&self) -> (r: Option<String>)
        ensures
            match r {
                Some(t) => self@.typing == Some(t@),
                None => self@.typing is None,
            },
    {
        match &self.typing {
            Some(t) => Some(t.clone()),
            None => None,
        }
    }

    /// The messages shown, oldest first.
    pub fn messages(&self) -> (r: Vec<String>)
        ensures
            r@.len() == self@.messages.len(),
            forall|i: int| 0 <= i < r@.len() ==> (#[trigger] r@[i])@ == self@.messages[i].1,
    {
        let mut out: Vec<String> = Vec::new();
        let mut i: usize = 0;
        while i < self.messages.len()
            invariant
                i <= self.messages@.len(),
                out@.len() == i,
                forall|j: int| 0 <= j < i ==> (#[trigger] out@[j])@ == self@.messages[j].1,
            decreases self.messages@.len() - i,
        {
            out.push(self.messages[i].1.clone());
            i = i + 1;
        }
        out
    }
}

} // verus!
