//! The chat presence context: one value that owns the input state machine,
//! the debouncer, the reassembly buffers and the listener registry, built on
//! init and dropped on free. The host's callbacks drive it; it hands back
//! the packets to put on the relay channel.
use vstd::prelude::*;
use crate::chat_input::{key_down_ok, text_ok, text_view, ChatInput, ChatKeys};
use crate::codec::{
    decode, decoded, encode, message_bytes, zstd_content, zstd_frame, DecodeError, EncodeError,
    RelayMessage, RelayMessageView,
};
use crate::debounce::{handle_step, poll_step, DebounceView, Debouncer};
use crate::event::{InputEvent, PlayerChatEvent, ENTITY_SELF_ID};
use crate::packet::{
    chunk_count, decode_packet, encode_packet, lemma_stream_packets_ok, packet_bytes, parse_packet, split, stream_packets,
    Scope, MAX_CHUNKS,
};
use crate::reassembly::{
    buffers_ok, is_live, receive_step, BufferView, Outcome, ProtocolError, Reassembler,
};
use crate::registry::{
    count_for, reached, registered_under, survives, Arena, Handle, PlayerChatEventListener, Registration, Registry,
};

verus! {

/// Why a received packet led nowhere.
#[derive(Debug, PartialEq, Eq, Structural)]
pub enum ReceiveError {
    Protocol(ProtocolError),
    Decode(DecodeError),
}

/// The channel bytes of every packet of a blob's stream.
pub open spec fn stream_bytes(blob: Seq<u8>, stream_id: u32, scope: Scope) -> Seq<Seq<u8>> {
    stream_packets(blob, stream_id, scope).map_values(|p| packet_bytes(p))
}

/// What sending `m` as stream `stream_id` puts on the channel.
pub open spec fn message_stream(m: RelayMessageView, stream_id: u32, scope: Scope) -> Seq<Seq<u8>> {
    stream_bytes(zstd_frame(message_bytes(m)), stream_id, scope)
}

pub open spec fn packets_view(ps: Vec<Vec<u8>>) -> Seq<Seq<u8>> {
    ps@.map_values(|p: Vec<u8>| p@)
}

/// The outcome of sending `m` as stream `stream_id`: the packets, unless
/// the compressed message needs more packets than a stream can count.
pub open spec fn send_result(
    m: RelayMessageView,
    stream_id: u32,
    scope: Scope,
    r: Result<Vec<Vec<u8>>, EncodeError>,
) -> bool {
    &&& r is Ok <==> chunk_count(zstd_frame(message_bytes(m)).len()) <= MAX_CHUNKS
    &&& r is Ok ==> packets_view(r->Ok_0) == message_stream(m, stream_id, scope)
    &&& r is Err ==> r->Err_0 == EncodeError::TooLarge
}

/// The outcome of a local event `event` at `now`: the new context `s2`,
/// with `live` the listeners that resolve, and the result `r`.
pub open spec fn local_event_ok(
    s: Plugin,
    s2: Plugin,
    live: Set<u64>,
    event: InputEvent,
    now: u64,
    r: Result<Vec<Vec<u8>>, EncodeError>,
) -> bool {
    &&& s2.registrations() == s.registrations().filter(
        |x| survives(x, ENTITY_SELF_ID, live),
    )
    &&& s2.debounce_state() == handle_step(s.debounce_state(), event, now).0
    &&& s2.buffers() == s.buffers()
    &&& match handle_step(s.debounce_state(), event, now).1 {
        Some(e) => send_result(
            RelayMessageView::PlayerChatEvent(e.spec_to_chat_event()@),
            s.stream_id(),
            (Scope::World { have_plugin: true }),
            r,
        ),
        None => r is Ok && r->Ok_0@.len() == 0 && s2.stream_id() == s.stream_id(),
    }
}

/// The outcome of a host input callback whose chat input produced `event`.
pub open spec fn input_ok(
    s: Plugin,
    s2: Plugin,
    live: Set<u64>,
    event: Option<InputEvent>,
    now: u64,
    r: Result<Vec<Vec<u8>>, EncodeError>,
) -> bool {
    match event {
        Some(e) => local_event_ok(s, s2, live, e, now, r),
        None => {
            &&& s2.registrations() == s.registrations()
            &&& s2.debounce_state() == s.debounce_state()
            &&& s2.buffers() == s.buffers()
            &&& s2.stream_id() == s.stream_id()
            &&& r is Ok && r->Ok_0@.len() == 0
        },
    }
}

/// The listeners of `entity_id` are the only ones that changed from `a` to
/// `b`: every listener that no registration under `entity_id` names is as
/// it was.
pub open spec fn untouched_unless_registered<L>(
    registrations: Seq<Registration>,
    entity_id: u8,
    a: Arena<L>,
    b: Arena<L>,
) -> bool {
    &&& b.values().len() == a.values().len()
    &&& forall|j: int|
        0 <= j < a.ids().len() && !registered_under(registrations, entity_id, a.ids()[j])
            ==> #[trigger] b.values()[j] == a.values()[j]
}

/// A message that a completed stream held, and the listeners it reached.
#[derive(Debug, PartialEq, Eq)]
pub struct Delivery {
    pub message: RelayMessage,
    pub reached: Vec<Handle>,
}

pub struct Plugin {
    chat_input: ChatInput,
    debouncer: Debouncer,
    reassembler: Reassembler,
    next_stream_id: u32,
    registry: Registry,
}

impl Plugin {
    pub closed spec fn wf(&self) -> bool {
        buffers_ok(self.reassembler@)
    }

    pub closed spec fn debounce_state(&self) -> DebounceView {
        self.debouncer@
    }

    pub closed spec fn buffers(&self) -> Seq<BufferView> {
        self.reassembler@
    }

    pub closed spec fn stream_id(&self) -> u32 {
        self.next_stream_id
    }

    pub closed spec fn chat_input(&self) -> ChatInput {
        self.chat_input
    }

    /// The listeners of each entity's chat events.
    pub closed spec fn registrations(&self) -> Seq<Registration> {
        self.registry@
    }

    /// The context on init.
    pub fn initialize(keys: ChatKeys) -> (r: Self)
        ensures
            r.wf(),
            r.chat_input().keys() == keys,
            !r.chat_input()@.open,
            r.debounce_state().pending is None,
            r.debounce_state().last_send is None,
            r.buffers().len() == 0,
            r.registrations().len() == 0,
    {
        Plugin {
            chat_input: ChatInput::new(keys),
            debouncer: Debouncer::new(),
            reassembler: Reassembler::new(),
            next_stream_id: 0,
            registry: Registry::new(),
        }
    }

    /// Registers the listener `h` for the chat events of `entity_id`.
    pub fn start_listening(&mut self, entity_id: u8, h: Handle)
        requires
            old(self).wf(),
        ensures
            final(self).wf(),
            final(self).registrations() == old(self).registrations().push(
                Registration { entity_id, listener: h },
            ),
    {
        self.registry.start_listening(entity_id, h);
    }

    /// Removes every registration of the listener `h`.
    pub fn stop_listening(&mut self, h: Handle)
        requires
            old(self).wf(),
        ensures
            final(self).wf(),
            final(self).registrations() == old(self).registrations().filter(
                |x: Registration| x.listener != h,
            ),
    {
        self.registry.stop_listening(h);
    }

    /// The number of listeners registered for `entity_id`.
    pub fn listener_count(&self, entity_id: u8) -> (n: usize)
        ensures
            n == count_for(self.registrations(), entity_id),
    {
        self.registry.listener_count(entity_id)
    }

    /// Encodes `m` and splits it into the packets of a new stream.
    pub fn send(&mut self, m: &RelayMessage, scope: Scope) -> (r: Result<Vec<Vec<u8>>, EncodeError>)
        requires
            old(self).wf(),
        ensures
            final(self).wf(),
            send_result(m@, old(self).stream_id(), scope, r),
            final(self).stream_id() == (if old(self).stream_id() == u32::MAX {
                0
            } else {
                (old(self).stream_id() + 1) as u32
            }),
            final(self).debounce_state() == old(self).debounce_state(),
            final(self).buffers() == old(self).buffers(),
            final(self).chat_input() == old(self).chat_input(),
            final(self).registrations() == old(self).registrations(),
    {
        let stream_id = self.next_stream_id;
        self.next_stream_id = stream_id.wrapping_add(1);
        let blob = encode(m);
        let packets = match split(blob.as_slice(), stream_id, scope) {
            Ok(ps) => ps,
            Err(e) => return Err(e),
        };
        let ghost want = stream_packets(blob@, stream_id, scope);
        let mut out: Vec<Vec<u8>> = Vec::new();
        let mut i: usize = 0;
        assert(packets@.map_values(|p: crate::packet::Packet| p@).len() == packets@.len());
        while i < packets.len()
            invariant
                packets@.len() == chunk_count(blob@.len()),
                packets@.map_values(|p: crate::packet::Packet| p@) == want,
                want == stream_packets(blob@, stream_id, scope),
                chunk_count(blob@.len()) <= MAX_CHUNKS,
                i <= packets@.len(),
                out@.len() == i,
                forall|j: int| 0 <= j < i ==> (#[trigger] out@[j])@ == packet_bytes(want[j]),
            decreases packets@.len() - i,
        {
            assert(packets@[i as int]@ == want[i as int]);
            proof {
                lemma_stream_packets_ok(blob@, stream_id, scope, i as int);
            }
            out.push(encode_packet(&packets[i]));
            i = i + 1;
        }
        assert(packets_view(out) =~= stream_bytes(blob@, stream_id, scope));
        Ok(out)
    }

    /// A local chat event: handed to the local player's listeners, then to
    /// the debouncer, and sent if the debouncer lets it through, to everyone
    /// in the world that has the plugin.
    pub fn handle_local_event<L: PlayerChatEventListener>(
        &mut self,
        arena: &mut Arena<L>,
        event: InputEvent,
        now: u64,
    ) -> (r: Result<Vec<Vec<u8>>, EncodeError>)
        requires
            old(self).wf(),
            old(arena).wf(),
        ensures
            final(self).wf(),
            final(arena).wf(),
            final(arena).ids() == old(arena).ids(),
            final(self).chat_input() == old(self).chat_input(),
            untouched_unless_registered(
                old(self).registrations(),
                ENTITY_SELF_ID,
                *old(arena),
                *final(arena),
            ),
            local_event_ok(*old(self), *final(self), old(arena).live(), event, now, r),
    {
        let local = event.to_chat_event();
        self.registry.emit(arena, ENTITY_SELF_ID, &local);
        match self.debouncer.handle_local_event(event, now) {
            Some(e) => self.send(&RelayMessage::PlayerChatEvent(e.to_chat_event()), (Scope::World { have_plugin: true })),
            None => Ok(Vec::new()),
        }
    }

    /// The host's key-down callback; `text` is the chat input's text, if
    /// the host shows it.
    pub fn on_key_down<L: PlayerChatEventListener>(
        &mut self,
        arena: &mut Arena<L>,
        key: u32,
        repeating: bool,
        text: Option<String>,
        now: u64,
    ) -> (r: Result<Vec<Vec<u8>>, EncodeError>)
        requires
            old(self).wf(),
            old(arena).wf(),
        ensures
            final(self).wf(),
            final(arena).wf(),
            final(arena).ids() == old(arena).ids(),
            exists|e: Option<InputEvent>|
                key_down_ok(
                    old(self).chat_input().keys(),
                    old(self).chat_input()@,
                    key,
                    repeating,
                    text_view(text),
                    final(self).chat_input()@,
                    e,
                ) && input_ok(*old(self), *final(self), old(arena).live(), e, now, r),
    {
        let ghost before = *self;
        let ghost live = arena.live();
        let event = self.chat_input.on_key_down(key, repeating, text);
        let ghost produced = event;
        let r = match event {
            Some(e) => self.handle_local_event(arena, e, now),
            None => Ok(Vec::new()),
        };
        assert(input_ok(before, *self, live, produced, now, r));
        r
    }

    /// The host's key-press callback.
    pub fn on_key_press<L: PlayerChatEventListener>(
        &mut self,
        arena: &mut Arena<L>,
        text: Option<String>,
        now: u64,
    ) -> (r: Result<Vec<Vec<u8>>, EncodeError>)
        requires
            old(self).wf(),
            old(arena).wf(),
        ensures
            final(self).wf(),
            final(arena).wf(),
            final(arena).ids() == old(arena).ids(),
            exists|e: Option<InputEvent>|
                text_ok(old(self).chat_input()@, text_view(text), final(self).chat_input()@, e)
                    && input_ok(*old(self), *final(self), old(arena).live(), e, now, r),
    {
        let ghost before = *self;
        let ghost live = arena.live();
        let event = self.chat_input.on_key_press(text);
        let ghost produced = event;
        let r = match event {
            Some(e) => self.handle_local_event(arena, e, now),
            None => Ok(Vec::new()),
        };
        assert(input_ok(before, *self, live, produced, now, r));
        r
    }

    /// The host's key-up callback.
    pub fn on_key_up<L: PlayerChatEventListener>(
        &mut self,
        arena: &mut Arena<L>,
        text: Option<String>,
        now: u64,
    ) -> (r: Result<Vec<Vec<u8>>, EncodeError>)
        requires
            old(self).wf(),
            old(arena).wf(),
        ensures
            final(self).wf(),
            final(arena).wf(),
            final(arena).ids() == old(arena).ids(),
            exists|e: Option<InputEvent>|
                text_ok(old(self).chat_input()@, text_view(text), final(self).chat_input()@, e)
                    && input_ok(*old(self), *final(self), old(arena).live(), e, now, r),
    {
        let ghost before = *self;
        let ghost live = arena.live();
        let event = self.chat_input.on_key_up(text);
        let ghost produced = event;
        let r = match event {
            Some(e) => self.handle_local_event(arena, e, now),
            None => Ok(Vec::new()),
        };
        assert(input_ok(before, *self, live, produced, now, r));
        r
    }

    /// The host's tick: sends the debounced text change once it is due, and
    /// drops reassembly buffers that went idle.
    pub fn tick(&mut self, now: u64) -> (r: Result<Vec<Vec<u8>>, EncodeError>)
        requires
            old(self).wf(),
        ensures
            final(self).wf(),
            final(self).debounce_state() == poll_step(old(self).debounce_state(), now).0,
            final(self).buffers() == old(self).buffers().filter(|b| is_live(b, now)),
            final(self).registrations() == old(self).registrations(),
            match poll_step(old(self).debounce_state(), now).1 {
                Some(e) => send_result(
                    RelayMessageView::PlayerChatEvent(e.spec_to_chat_event()@),
                    old(self).stream_id(),
                    (Scope::World { have_plugin: true }),
                    r,
                ),
                None => r is Ok && r->Ok_0@.len() == 0,
            },
    {
        self.reassembler.drop_idle(now);
        match self.debouncer.poll(now) {
            Some(e) => self.send(&RelayMessage::PlayerChatEvent(e.to_chat_event()), (Scope::World { have_plugin: true })),
            None => Ok(Vec::new()),
        }
    }

    /// A new map finished loading: asks who else is there.
    pub fn on_new_map_loaded(&mut self) -> (r: Result<Vec<Vec<u8>>, EncodeError>)
        requires
            old(self).wf(),
        ensures
            final(self).wf(),
            send_result(
                RelayMessageView::WhosThere,
                old(self).stream_id(),
                (Scope::World { have_plugin: true }),
                r,
            ),
            final(self).registrations() == old(self).registrations(),
            final(self).debounce_state() == old(self).debounce_state(),
            final(self).buffers() == old(self).buffers(),
            final(self).chat_input() == old(self).chat_input(),
    {
        self.send(&RelayMessage::WhosThere, (Scope::World { have_plugin: true }))
    }

    /// A packet from `sender` on the relay channel, at time `now`. Once its
    /// stream is complete, the message is decoded, and a chat event is
    /// dispatched to the listeners of `sender`, each registration once; the
    /// delivery names the listeners reached. A packet claiming to come from
    /// the local player is refused untouched. Nothing but a dispatched chat
    /// event touches a listener.
    pub fn handle_receive<L: PlayerChatEventListener>(
        &mut self,
        arena: &mut Arena<L>,
        sender: u8,
        packet: &[u8],
        now: u64,
    ) -> (r: Result<Option<Delivery>, ReceiveError>)
        requires
            old(self).wf(),
            old(arena).wf(),
        ensures
            final(self).wf(),
            final(arena).wf(),
            final(arena).ids() == old(arena).ids(),
            final(self).debounce_state() == old(self).debounce_state(),
            final(self).stream_id() == old(self).stream_id(),
            sender == ENTITY_SELF_ID ==> {
                &&& r == Err::<Option<Delivery>, ReceiveError>(
                    ReceiveError::Protocol(ProtocolError::FromSelf),
                )
                &&& final(self).buffers() == old(self).buffers()
                &&& final(self).registrations() == old(self).registrations()
                &&& *final(arena) == *old(arena)
            },
            sender != ENTITY_SELF_ID && parse_packet(packet@) is None ==> {
                &&& r == Err::<Option<Delivery>, ReceiveError>(
                    ReceiveError::Protocol(ProtocolError::Malformed),
                )
                &&& final(self).buffers() == old(self).buffers()
                &&& final(self).registrations() == old(self).registrations()
                &&& *final(arena) == *old(arena)
            },
            sender != ENTITY_SELF_ID && parse_packet(packet@) is Some ==> ({
                let step = receive_step(
                    old(self).buffers(),
                    sender,
                    parse_packet(packet@)->Some_0,
                    now,
                );
                &&& final(self).buffers() == step.0
                &&& match step.1 {
                    Outcome::Pending => {
                        &&& r is Ok && r->Ok_0 is None
                        &&& final(self).registrations() == old(self).registrations()
                        &&& *final(arena) == *old(arena)
                    },
                    Outcome::Mismatch => {
                        &&& r == Err::<Option<Delivery>, ReceiveError>(
                            ReceiveError::Protocol(ProtocolError::CountMismatch),
                        )
                        &&& final(self).registrations() == old(self).registrations()
                        &&& *final(arena) == *old(arena)
                    },
                    Outcome::Complete(blob) => match decoded(blob) {
                        None => {
                            &&& r == Err::<Option<Delivery>, ReceiveError>(
                                ReceiveError::Decode(
                                    if zstd_content(blob) is None {
                                        DecodeError::Decompress
                                    } else {
                                        DecodeError::Malformed
                                    },
                                ),
                            )
                            &&& final(self).registrations() == old(self).registrations()
                            &&& *final(arena) == *old(arena)
                        },
                        Some(m) => {
                            &&& r is Ok && r->Ok_0 is Some
                            &&& r->Ok_0->Some_0.message@ == m
                            &&& m is WhosThere ==> {
                                &&& r->Ok_0->Some_0.reached@.len() == 0
                                &&& final(self).registrations() == old(self).registrations()
                                &&& *final(arena) == *old(arena)
                            }
                            &&& m is PlayerChatEvent ==> {
                                &&& final(self).registrations() == old(
                                    self,
                                ).registrations().filter(
                                    |x| survives(x, sender, old(arena).live()),
                                )
                                &&& r->Ok_0->Some_0.reached@ == old(
                                    self,
                                ).registrations().filter(
                                    |x| reached(x, sender, old(arena).live()),
                                ).map_values(|x: Registration| x.listener)
                                &&& untouched_unless_registered(
                                    old(self).registrations(),
                                    sender,
                                    *old(arena),
                                    *final(arena),
                                )
                            }
                        },
                    },
                }
            }),
    {
        if sender == ENTITY_SELF_ID {
            return Err(ReceiveError::Protocol(ProtocolError::FromSelf));
        }
        let p = match decode_packet(packet) {
            Some(p) => p,
            None => return Err(ReceiveError::Protocol(ProtocolError::Malformed)),
        };
        let blob = match self.reassembler.receive(sender, p, now) {
            Ok(Some(b)) => b,
            Ok(None) => return Ok(None),
            Err(e) => return Err(ReceiveError::Protocol(e)),
        };
        let message = match decode(blob.as_slice()) {
            Ok(m) => m,
            Err(e) => return Err(ReceiveError::Decode(e)),
        };
        let reached = match &message {
            RelayMessage::WhosThere => Vec::new(),
            RelayMessage::PlayerChatEvent(e) => self.registry.emit(arena, sender, e),
        };
        Ok(Some(Delivery { message, reached }))
    }

    /// A chat line that `entity_id` said, as the host shows it: it goes to
    /// that entity's listeners only, never to the relay.
    pub fn on_chat_message<L: PlayerChatEventListener>(
        &mut self,
        arena: &mut Arena<L>,
        entity_id: u8,
        text: String,
    ) -> (invoked: Vec<Handle>)
        requires
            old(self).wf(),
            old(arena).wf(),
        ensures
            final(self).wf(),
            final(arena).wf(),
            final(arena).ids() == old(arena).ids(),
            final(self).registrations() == old(self).registrations().filter(
                |x| survives(x, entity_id, old(arena).live()),
            ),
            invoked@ == old(self).registrations().filter(
                |x| reached(x, entity_id, old(arena).live()),
            ).map_values(|x: Registration| x.listener),
            untouched_unless_registered(old(self).registrations(), entity_id, *old(arena), *final(arena)),
            final(self).debounce_state() == old(self).debounce_state(),
            final(self).buffers() == old(self).buffers(),
            final(self).stream_id() == old(self).stream_id(),
    {
        self.registry.emit(arena, entity_id, &PlayerChatEvent::Message(text))
    }

    /// Shutdown: the pending text change is cancelled, so nothing is sent
    /// after this, and the reassembly buffers and registrations are dropped.
    pub fn free(&mut self)
        ensures
            final(self).wf(),
            final(self).debounce_state().pending is None,
            final(self).buffers().len() == 0,
            final(self).registrations().len() == 0,
    {
        self.debouncer.free();
        self.reassembler = Reassembler::new();
        self.registry = Registry::new();
    }
}

} // verus!
