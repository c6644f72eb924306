use chat_bubbles::chat_input::ChatKeys;
use chat_bubbles::codec::{DecodeError, RelayMessage};
use chat_bubbles::event::{InputEvent, PlayerChatEvent, ENTITY_SELF_ID};
use chat_bubbles::packet::{encode_packet, Packet, Scope};
use chat_bubbles::plugin::{Plugin, ReceiveError};
use chat_bubbles::reassembly::ProtocolError;
use chat_bubbles::registry::{Arena, PlayerChatEventListener};

const OPEN: u32 = 20;
const SEND: u32 = 21;

struct Recorder {
    seen: Vec<PlayerChatEvent>,
}

impl PlayerChatEventListener for Recorder {
    fn handle_event(&mut self, event: &PlayerChatEvent) {
        self.seen.push(event.clone());
    }
}

fn keys() -> ChatKeys {
    ChatKeys { open_chat: Some(OPEN), send_chat: Some(SEND), slash: 30, keypad_enter: 31, escape: 32 }
}

/// Feeds packets to a receiving context as `sender`; gives the messages
/// that completed.
fn deliver(
    receiver: &mut Plugin,
    arena: &mut Arena<Recorder>,
    sender: u8,
    packets: &[Vec<u8>],
) -> Vec<RelayMessage> {
    let mut out = Vec::new();
    for p in packets {
        if let Some(d) = receiver.handle_receive(arena, sender, p, 0).unwrap() {
            out.push(d.message);
        }
    }
    out
}

#[test]
fn typing_scenario_sends_opened_then_last_text() {
    let mut local = Plugin::initialize(keys());
    let mut local_arena: Arena<Recorder> = Arena::new();
    let mut sends: Vec<Vec<Vec<u8>>> = Vec::new();

    let opened = local.on_key_down(&mut local_arena, OPEN, false, Some(String::new()), 0).unwrap();
    assert!(!opened.is_empty());
    sends.push(opened);
    for (t, now) in [("h", 100u64), ("he", 200), ("hel", 300)] {
        let out = local.on_key_press(&mut local_arena, Some(t.to_string()), now).unwrap();
        if !out.is_empty() {
            sends.push(out);
        }
    }
    for now in [400u64, 499] {
        assert!(local.tick(now).unwrap().is_empty());
    }
    let trailing = local.tick(900).unwrap();
    assert!(!trailing.is_empty());
    sends.push(trailing);
    assert!(local.tick(1_000).unwrap().is_empty());
    assert_eq!(sends.len(), 2);

    let mut remote = Plugin::initialize(keys());
    let mut remote_arena = Arena::new();
    let bubble = remote_arena.insert(Recorder { seen: Vec::new() }).unwrap();
    remote.start_listening(7, bubble);
    let first = deliver(&mut remote, &mut remote_arena, 7, &sends[0]);
    let second = deliver(&mut remote, &mut remote_arena, 7, &sends[1]);
    assert_eq!(first, vec![RelayMessage::PlayerChatEvent(PlayerChatEvent::ChatOpened)]);
    assert_eq!(
        second,
        vec![RelayMessage::PlayerChatEvent(PlayerChatEvent::InputTextChanged("hel".to_string()))]
    );
    assert_eq!(
        remote_arena.get(bubble).unwrap().seen,
        vec![
            PlayerChatEvent::ChatOpened,
            PlayerChatEvent::InputTextChanged("hel".to_string())
        ]
    );
}

#[test]
fn local_events_reach_the_local_listeners_at_once() {
    let mut p = Plugin::initialize(keys());
    let mut arena = Arena::new();
    let me = arena.insert(Recorder { seen: Vec::new() }).unwrap();
    p.start_listening(ENTITY_SELF_ID, me);
    p.on_key_down(&mut arena, OPEN, false, None, 0).unwrap();
    p.on_key_press(&mut arena, Some("a".to_string()), 10).unwrap();
    p.on_key_press(&mut arena, Some("ab".to_string()), 20).unwrap();
    assert_eq!(
        arena.get(me).unwrap().seen,
        vec![
            PlayerChatEvent::ChatOpened,
            PlayerChatEvent::InputTextChanged("a".to_string()),
            PlayerChatEvent::InputTextChanged("ab".to_string())
        ]
    );
}

#[test]
fn sensitive_text_is_never_sent() {
    let mut p = Plugin::initialize(keys());
    let mut arena: Arena<Recorder> = Arena::new();
    p.on_key_down(&mut arena, OPEN, false, None, 0).unwrap();
    for (i, t) in ["@friend psst", "/msg x", "##ops", "++admins"].iter().enumerate() {
        let now = 10_000 * (i as u64 + 1);
        assert!(p.on_key_press(&mut arena, Some(t.to_string()), now).unwrap().is_empty());
        assert!(p.tick(now + 1_000).unwrap().is_empty());
    }
}

#[test]
fn closing_is_sent_at_once_and_cancels_the_pending_text() {
    let mut p = Plugin::initialize(keys());
    let mut arena: Arena<Recorder> = Arena::new();
    p.on_key_down(&mut arena, OPEN, false, None, 0).unwrap();
    assert!(p.on_key_press(&mut arena, Some("typing".to_string()), 100).unwrap().is_empty());
    let closed = p.on_key_down(&mut arena, SEND, false, Some("typing".to_string()), 150).unwrap();
    assert!(!closed.is_empty());
    assert!(p.tick(5_000).unwrap().is_empty());

    let mut remote = Plugin::initialize(keys());
    let mut remote_arena: Arena<Recorder> = Arena::new();
    assert_eq!(
        deliver(&mut remote, &mut remote_arena, 3, &closed),
        vec![RelayMessage::PlayerChatEvent(PlayerChatEvent::ChatClosed)]
    );
}

#[test]
fn message_from_self_is_refused() {
    let mut sender = Plugin::initialize(keys());
    let mut arena = Arena::new();
    let packets = sender.handle_local_event(&mut arena, InputEvent::ChatOpened, 0).unwrap();

    let mut receiver = Plugin::initialize(keys());
    let me = arena.insert(Recorder { seen: Vec::new() }).unwrap();
    receiver.start_listening(ENTITY_SELF_ID, me);
    for p in &packets {
        assert_eq!(
            receiver.handle_receive(&mut arena, ENTITY_SELF_ID, p, 0),
            Err(ReceiveError::Protocol(ProtocolError::FromSelf))
        );
    }
    assert!(arena.get(me).unwrap().seen.is_empty());
}

#[test]
fn whos_there_is_sent_on_new_map_and_dispatches_nothing() {
    let mut p = Plugin::initialize(keys());
    let packets = p.on_new_map_loaded().unwrap();
    let mut remote = Plugin::initialize(keys());
    let mut arena = Arena::new();
    let r = arena.insert(Recorder { seen: Vec::new() }).unwrap();
    remote.start_listening(2, r);
    assert_eq!(deliver(&mut remote, &mut arena, 2, &packets), vec![RelayMessage::WhosThere]);
    assert!(arena.get(r).unwrap().seen.is_empty());
}

#[test]
fn malformed_packets_are_refused() {
    let mut p = Plugin::initialize(keys());
    let mut arena: Arena<Recorder> = Arena::new();
    assert_eq!(
        p.handle_receive(&mut arena, 4, &[1, 2, 3], 0),
        Err(ReceiveError::Protocol(ProtocolError::Malformed))
    );
}

#[test]
fn garbage_streams_fail_to_decode() {
    let mut p = Plugin::initialize(keys());
    let mut arena: Arena<Recorder> = Arena::new();
    let packet = encode_packet(&Packet {
        stream_id: 1,
        chunk_index: 0,
        chunk_count: 1,
        scope: Scope::World { have_plugin: true },
        payload: vec![1, 2, 3],
    });
    assert_eq!(
        p.handle_receive(&mut arena, 4, &packet, 0),
        Err(ReceiveError::Decode(DecodeError::Decompress))
    );
}

#[test]
fn long_messages_take_several_packets_and_stream_ids_advance() {
    let text: String = (0..400u32).map(|i| char::from(b'a' + ((i * 7919) % 26) as u8)).collect();
    let m = RelayMessage::PlayerChatEvent(PlayerChatEvent::Message(text.clone()));
    let mut p = Plugin::initialize(keys());
    let first = p.send(&m, Scope::Server { have_plugin: false }).unwrap();
    let second = p.send(&m, Scope::Server { have_plugin: false }).unwrap();
    assert!(first.len() > 1);
    assert_eq!(first.len(), second.len());
    assert_eq!(&first[0][..4], &[0, 0, 0, 0]);
    assert_eq!(&second[0][..4], &[1, 0, 0, 0]);

    let mut remote = Plugin::initialize(keys());
    let mut arena = Arena::new();
    let r = arena.insert(Recorder { seen: Vec::new() }).unwrap();
    remote.start_listening(12, r);
    let mut reversed = first.clone();
    reversed.reverse();
    assert_eq!(deliver(&mut remote, &mut arena, 12, &reversed), vec![m]);
    assert_eq!(arena.get(r).unwrap().seen, vec![PlayerChatEvent::Message(text)]);
}

#[test]
fn released_bubble_is_not_reached_and_is_pruned() {
    let mut p = Plugin::initialize(keys());
    let mut arena = Arena::new();
    let r = arena.insert(Recorder { seen: Vec::new() }).unwrap();
    p.start_listening(5, r);
    assert_eq!(p.listener_count(5), 1);
    arena.release(r);
    let mut sender = Plugin::initialize(keys());
    let mut sender_arena: Arena<Recorder> = Arena::new();
    let packets = sender.handle_local_event(&mut sender_arena, InputEvent::ChatOpened, 0).unwrap();
    deliver(&mut p, &mut arena, 5, &packets);
    assert_eq!(p.listener_count(5), 0);
}

#[test]
fn free_drops_pending_sends_and_registrations() {
    let mut p = Plugin::initialize(keys());
    let mut arena = Arena::new();
    let r = arena.insert(Recorder { seen: Vec::new() }).unwrap();
    p.start_listening(5, r);
    p.on_key_down(&mut arena, OPEN, false, None, 0).unwrap();
    p.on_key_press(&mut arena, Some("x".to_string()), 10).unwrap();
    p.free();
    assert!(p.tick(10_000).unwrap().is_empty());
    assert_eq!(p.listener_count(5), 0);
}

#[test]
fn chat_lines_go_to_the_speaker_only() {
    let mut p = Plugin::initialize(keys());
    let mut arena = Arena::new();
    let speaker = arena.insert(Recorder { seen: Vec::new() }).unwrap();
    let other = arena.insert(Recorder { seen: Vec::new() }).unwrap();
    p.start_listening(3, speaker);
    p.start_listening(4, other);
    let invoked = p.on_chat_message(&mut arena, 3, "hello".to_string());
    assert_eq!(invoked, vec![speaker]);
    assert_eq!(arena.get(speaker).unwrap().seen, vec![PlayerChatEvent::Message("hello".to_string())]);
    assert!(arena.get(other).unwrap().seen.is_empty());
    assert!(p.tick(60_000).unwrap().is_empty());
}

#[test]
fn received_event_reaches_each_live_listener_of_the_sender_once() {
    let mut sender = Plugin::initialize(keys());
    let mut sender_arena: Arena<Recorder> = Arena::new();
    let packets = sender.handle_local_event(&mut sender_arena, InputEvent::ChatOpened, 0).unwrap();
    assert_eq!(packets.len(), 1);

    let mut p = Plugin::initialize(keys());
    let mut arena = Arena::new();
    let a = arena.insert(Recorder { seen: Vec::new() }).unwrap();
    let gone = arena.insert(Recorder { seen: Vec::new() }).unwrap();
    let b = arena.insert(Recorder { seen: Vec::new() }).unwrap();
    let other = arena.insert(Recorder { seen: Vec::new() }).unwrap();
    p.start_listening(6, a);
    p.start_listening(6, gone);
    p.start_listening(6, b);
    p.start_listening(8, other);
    arena.release(gone);
    let delivery = p.handle_receive(&mut arena, 6, &packets[0], 0).unwrap().unwrap();
    assert_eq!(delivery.message, RelayMessage::PlayerChatEvent(PlayerChatEvent::ChatOpened));
    assert_eq!(delivery.reached, vec![a, b]);
    assert_eq!(arena.get(a).unwrap().seen, vec![PlayerChatEvent::ChatOpened]);
    assert_eq!(arena.get(b).unwrap().seen, vec![PlayerChatEvent::ChatOpened]);
    assert!(arena.get(other).unwrap().seen.is_empty());
    assert_eq!(p.listener_count(6), 2);
}
