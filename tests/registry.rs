use chat_bubbles::event::PlayerChatEvent;
use chat_bubbles::registry::{Arena, PlayerChatEventListener, Registry};

struct Recorder {
    seen: Vec<PlayerChatEvent>,
}

impl PlayerChatEventListener for Recorder {
    fn handle_event(&mut self, event: &PlayerChatEvent) {
        self.seen.push(event.clone());
    }
}

fn recorder() -> Recorder {
    Recorder { seen: Vec::new() }
}

#[test]
fn emit_reaches_listeners_of_the_entity_in_order() {
    let mut arena = Arena::new();
    let mut registry = Registry::new();
    let a = arena.insert(recorder()).unwrap();
    let b = arena.insert(recorder()).unwrap();
    let other = arena.insert(recorder()).unwrap();
    registry.start_listening(7, a);
    registry.start_listening(7, b);
    registry.start_listening(8, other);

    let invoked = registry.emit(&mut arena, 7, &PlayerChatEvent::ChatOpened);
    assert_eq!(invoked, vec![a, b]);
    assert_eq!(arena.get(a).unwrap().seen, vec![PlayerChatEvent::ChatOpened]);
    assert_eq!(arena.get(b).unwrap().seen, vec![PlayerChatEvent::ChatOpened]);
    assert!(arena.get(other).unwrap().seen.is_empty());
}

#[test]
fn emit_without_listeners_does_nothing() {
    let mut arena: Arena<Recorder> = Arena::new();
    let mut registry = Registry::new();
    let invoked = registry.emit(&mut arena, 3, &PlayerChatEvent::ChatClosed);
    assert!(invoked.is_empty());
    assert_eq!(registry.listener_count(3), 0);
}

#[test]
fn released_listener_is_pruned_on_next_dispatch() {
    let mut arena = Arena::new();
    let mut registry = Registry::new();
    let a = arena.insert(recorder()).unwrap();
    let b = arena.insert(recorder()).unwrap();
    registry.start_listening(4, a);
    registry.start_listening(4, b);
    assert_eq!(registry.listener_count(4), 2);

    let released = arena.release(a);
    assert!(released.is_some());
    let invoked = registry.emit(&mut arena, 4, &PlayerChatEvent::ChatClosed);
    assert_eq!(invoked, vec![b]);
    assert_eq!(registry.listener_count(4), 1);

    arena.release(b);
    let invoked = registry.emit(&mut arena, 4, &PlayerChatEvent::ChatClosed);
    assert!(invoked.is_empty());
    assert_eq!(registry.listener_count(4), 0);
}

#[test]
fn stop_listening_uses_identity_not_content() {
    let mut arena = Arena::new();
    let mut registry = Registry::new();
    let a = arena.insert(recorder()).unwrap();
    let b = arena.insert(recorder()).unwrap();
    registry.start_listening(1, a);
    registry.start_listening(2, a);
    registry.start_listening(1, b);
    registry.stop_listening(a);
    assert_eq!(registry.listener_count(1), 1);
    assert_eq!(registry.listener_count(2), 0);
    let invoked = registry.emit(&mut arena, 1, &PlayerChatEvent::ChatOpened);
    assert_eq!(invoked, vec![b]);
}

#[test]
fn dispatch_to_one_entity_keeps_dead_listeners_of_others() {
    let mut arena = Arena::new();
    let mut registry = Registry::new();
    let a = arena.insert(recorder()).unwrap();
    registry.start_listening(9, a);
    arena.release(a);
    registry.emit(&mut arena, 10, &PlayerChatEvent::ChatOpened);
    assert_eq!(registry.listener_count(9), 1);
    registry.emit(&mut arena, 9, &PlayerChatEvent::ChatOpened);
    assert_eq!(registry.listener_count(9), 0);
}
