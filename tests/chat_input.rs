use chat_bubbles::chat_input::{is_sensitive_text, ChatInput, ChatKeys};
use chat_bubbles::event::InputEvent;

const OPEN: u32 = 20;
const SEND: u32 = 21;
const SLASH: u32 = 30;
const KP_ENTER: u32 = 31;
const ESCAPE: u32 = 32;

fn keys() -> ChatKeys {
    ChatKeys {
        open_chat: Some(OPEN),
        send_chat: Some(SEND),
        slash: SLASH,
        keypad_enter: KP_ENTER,
        escape: ESCAPE,
    }
}

fn some(t: &str) -> Option<String> {
    Some(t.to_string())
}

#[test]
fn sensitive_prefixes() {
    assert!(is_sensitive_text("@bob hi"));
    assert!(is_sensitive_text("/tp spawn"));
    assert!(is_sensitive_text("##ops only"));
    assert!(is_sensitive_text("++admins"));
    assert!(is_sensitive_text("@"));
    assert!(!is_sensitive_text("#one hash"));
    assert!(!is_sensitive_text("+one plus"));
    assert!(!is_sensitive_text("hello @bob"));
    assert!(!is_sensitive_text(""));
    assert!(!is_sensitive_text("é"));
}

#[test]
fn sensitive_prefixes_with_many_suffixes() {
    let suffixes = ["", "x", " hello", "@@", "ß∂ƒ", "12345678901234567890"];
    for prefix in ["@", "/", "##", "++"] {
        for suffix in suffixes {
            let t = format!("{}{}", prefix, suffix);
            assert!(is_sensitive_text(&t));
            let mut input = ChatInput::new(keys());
            input.on_key_down(OPEN, false, None);
            assert_eq!(input.on_key_press(Some(t)), None);
        }
    }
}

#[test]
fn open_type_close() {
    let mut input = ChatInput::new(keys());
    assert!(!input.is_open());
    assert_eq!(input.on_key_down(OPEN, false, some("")), Some(InputEvent::ChatOpened));
    assert!(input.is_open());
    assert_eq!(
        input.on_key_press(some("h")),
        Some(InputEvent::InputTextChanged("h".to_string()))
    );
    // unchanged text gives nothing
    assert_eq!(input.on_key_up(some("h")), None);
    assert_eq!(
        input.on_key_down(50, false, some("hi")),
        Some(InputEvent::InputTextChanged("hi".to_string()))
    );
    assert_eq!(input.on_key_down(SEND, false, some("hi")), Some(InputEvent::ChatClosed));
    assert!(!input.is_open());
}

#[test]
fn slash_opens_and_escape_or_keypad_enter_close() {
    let mut input = ChatInput::new(keys());
    assert_eq!(input.on_key_down(SLASH, false, None), Some(InputEvent::ChatOpened));
    assert_eq!(input.on_key_down(ESCAPE, false, None), Some(InputEvent::ChatClosed));
    assert_eq!(input.on_key_down(SLASH, false, None), Some(InputEvent::ChatOpened));
    assert_eq!(input.on_key_down(KP_ENTER, false, None), Some(InputEvent::ChatClosed));
}

#[test]
fn held_keys_do_not_open_or_close() {
    let mut input = ChatInput::new(keys());
    assert_eq!(input.on_key_down(OPEN, true, None), None);
    assert!(!input.is_open());
    input.on_key_down(OPEN, false, None);
    assert_eq!(input.on_key_down(ESCAPE, true, some("a")), Some(InputEvent::InputTextChanged("a".to_string())));
    assert!(input.is_open());
}

#[test]
fn closed_chat_ignores_text() {
    let mut input = ChatInput::new(keys());
    assert_eq!(input.on_key_press(some("abc")), None);
    assert_eq!(input.on_key_up(some("abc")), None);
}

#[test]
fn unbound_keys_open_nothing() {
    let mut input = ChatInput::new(ChatKeys { open_chat: None, send_chat: None, ..keys() });
    assert_eq!(input.on_key_down(OPEN, false, None), None);
    assert_eq!(input.on_key_down(SLASH, false, None), Some(InputEvent::ChatOpened));
    assert_eq!(input.on_key_down(SEND, false, some("x")), Some(InputEvent::InputTextChanged("x".to_string())));
}
