//! The send debouncer: text changes are coalesced to at most one send per
//! interval, while opening and closing the chat go out at once.
//!
//! Time is the host's clock in milliseconds, handed in by the caller. A
//! pending send is not a timer but a due time: the host's tick calls
//! [`Debouncer::poll`], and replacing or clearing the pending send cancels it.
use vstd::prelude::*;
use crate::event::InputEvent;

verus! {

/// The coalescing window.
pub const INTERVAL_MS: u64 = 500;

pub struct DebounceView {
    /// When something was last sent; none after the chat closed.
    pub last_send: Option<u64>,
    /// The text change waiting to go out, and when it is due.
    pub pending: Option<(u64, InputEvent)>,
}

/// The time a throttled change is due: one interval after the last send.
pub open spec fn due_after(last: u64) -> u64 {
    if last as int + INTERVAL_MS as int > u64::MAX as int {
        u64::MAX
    } else {
        (last + INTERVAL_MS) as u64
    }
}

/// A change at `now` falls in the window of the last send.
pub open spec fn throttled(s: DebounceView, now: u64) -> bool {
    match s.last_send {
        Some(last) => now as int <= last as int + INTERVAL_MS as int,
        None => false,
    }
}

/// The state after a local event at `now`, and what is sent at once.
pub open spec fn handle_step(s: DebounceView, e: InputEvent, now: u64) -> (DebounceView, Option<
    InputEvent,
>) {
    match e {
        InputEvent::ChatOpened => (DebounceView { last_send: Some(now), pending: None }, Some(e)),
        InputEvent::ChatClosed => (DebounceView { last_send: None, pending: None }, Some(e)),
        InputEvent::InputTextChanged(_) => {
            if throttled(s, now) {
                (
                    DebounceView {
                        last_send: s.last_send,
                        pending: Some((due_after(s.last_send->Some_0), e)),
                    },
                    None,
                )
            } else {
                (DebounceView { last_send: Some(now), pending: None }, Some(e))
            }
        },
    }
}

/// The state after the host's tick at `now`, and what is sent.
pub open spec fn poll_step(s: DebounceView, now: u64) -> (DebounceView, Option<InputEvent>) {
    match s.pending {
        Some((due, e)) => if due <= now {
            (DebounceView { last_send: Some(now), pending: None }, Some(e))
        } else {
            (s, None)
        },
        None => (s, None),
    }
}

pub struct Debouncer {
    last_send: Option<u64>,
    pending: Option<(u64, InputEvent)>,
}

impl View for Debouncer {
    type V = DebounceView;

    closed spec fn view(&self) -> DebounceView {
        DebounceView { last_send: self.last_send, pending: self.pending }
    }
}

impl Debouncer {
    pub fn new() -> (r: Self)
        ensures
            r@.last_send is None,
            r@.pending is None,
    {
        Debouncer { last_send: None, pending: None }
    }

    /// Takes a local event at time `now`; gives what is to be sent at once.
    /// Any pending change is cancelled: it is either replaced by this one or
    /// made moot.
    pub fn handle_local_event(&mut self, event: InputEvent, now: u64) -> (r: Option<InputEvent>)
        ensures
            (final(self)@, r) == handle_step(old(self)@, event, now),
    {
        match event {
            InputEvent::ChatOpened => {
                self.pending = None;
                self.last_send = Some(now);
                Some(event)
            },
            InputEvent::ChatClosed => {
                self.pending = None;
                self.last_send = None;
                Some(event)
            },
            InputEvent::InputTextChanged(_) => {
                match self.last_send {
                    Some(last) if now <= last || now - last <= INTERVAL_MS => {
                        self.pending = Some((last.saturating_add(INTERVAL_MS), event));
                        None
                    },
                    _ => {
                        self.pending = None;
                        self.last_send = Some(now);
                        Some(event)
                    },
                }
            },
        }
    }

    /// The host's tick at time `now`: gives the pending change once it is
    /// due.
    pub fn poll(&mut self, now: u64) -> (r: Option<InputEvent>)
        ensures
            (final(self)@, r) == poll_step(old(self)@, now),
    {
        let ready = match &self.pending {
            Some(p) => p.0 <= now,
            None => false,
        };
        if !ready {
            return None;
        }
        let mut taken: Option<(u64, InputEvent)> = None;
        std::mem::swap(&mut taken, &mut self.pending);
        self.last_send = Some(now);
        match taken {
            Some((_, e)) => Some(e),
            None => None,
        }
    }

    /// Whether a change is waiting to go out.
    pub fn has_pending(&self) -> (r: bool)
        ensures
            r == self@.pending is Some,
    {
        self.pending.is_some()
    }

    /// Cancels the pending change, so that nothing is sent after shutdown.
    pub fn free(&mut self)
        ensures
            final(self)@.pending is None,
            final(self)@.last_send == old(self)@.last_send,
    {
        self.pending = None;
    }
}

/// The state and the sends after local events at the given times, in order.
pub open spec fn run(s: DebounceView, events: Seq<(InputEvent, u64)>) -> (DebounceView, Seq<
    InputEvent,
>)
    decreases events.len(),
{
    if events.len() == 0 {
        (s, Seq::empty())
    } else {
        let (mid, sent) = run(s, events.drop_last());
        let (after, out) = handle_step(mid, events.last().0, events.last().1);
        (
            after,
            match out {
                Some(e) => sent.push(e),
                None => sent,
            },
        )
    }
}

/// Opening or closing the chat is sent at once, whatever was pending, and
/// cancels the pending change.
pub proof fn lemma_discrete_events_immediate(s: DebounceView, e: InputEvent, now: u64)
    requires
        e is ChatOpened || e is ChatClosed,
    ensures
        handle_step(s, e, now).1 == Some(e),
        handle_step(s, e, now).0.pending is None,
{
}

/// The debouncer sends nothing it was not handed: what goes out at once is
/// the event just handed in, what waits is that event, and what goes out at
/// a tick is the event that was waiting.
pub proof fn lemma_sends_only_given(s: DebounceView, e: InputEvent, now: u64, tick: u64)
    ensures
        handle_step(s, e, now).1 matches Some(x) ==> x == e,
        handle_step(s, e, now).0.pending matches Some((_, p)) ==> p == e,
        poll_step(s, tick).1 matches Some(x) ==> s.pending matches Some((_, p)) && x == p,
        poll_step(s, tick).0.pending matches Some((_, p)) ==> s.pending matches Some((_, q)) && p
            == q,
{
}

/// Text changes within one interval of the last send are coalesced: none is
/// sent at once, the pending change is the last one, and it goes out, alone,
/// at the first tick at or after the interval's end.
pub proof fn lemma_burst_coalesced(s: DebounceView, burst: Seq<(InputEvent, u64)>, tick: u64)
    requires
        s.last_send is Some,
        burst.len() >= 1,
        forall|i: int|
            0 <= i < burst.len() ==> (#[trigger] burst[i]).0 is InputTextChanged && burst[i].1 as int
                <= s.last_send->Some_0 as int + INTERVAL_MS as int,
    ensures
        ({
            let (after, sent) = run(s, burst);
            let due = due_after(s.last_send->Some_0);
            &&& sent.len() == 0
            &&& after.last_send == s.last_send
            &&& after.pending == Some((due, burst.last().0))
            &&& tick < due ==> poll_step(after, tick).1 is None
            &&& due <= tick ==> poll_step(after, tick).1 == Some(burst.last().0)
            &&& due <= tick ==> poll_step(after, tick).0.pending is None
        }),
    decreases burst.len(),
{
    let init = burst.drop_last();
    let last = burst.last();
    assert(burst[burst.len() - 1] == last);
    if burst.len() > 1 {
        assert forall|i: int| 0 <= i < init.len() implies (#[trigger] init[i]).0 is InputTextChanged
            && init[i].1 as int <= s.last_send->Some_0 as int + INTERVAL_MS as int by {
            assert(init[i] == burst[i]);
        }
        lemma_burst_coalesced(s, init, tick);
    } else {
        assert(init =~= Seq::<(InputEvent, u64)>::empty());
        assert(run(s, init) == (s, Seq::<InputEvent>::empty()));
    }
    let (mid, sent) = run(s, init);
    assert(mid.last_send == s.last_send);
    assert(sent.len() == 0);
    assert(throttled(mid, last.1));
    assert(handle_step(mid, last.0, last.1).1 is None);
}

} // verus!
