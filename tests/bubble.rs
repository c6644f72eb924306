use chat_bubbles::bubble::{BubbleState, MESSAGE_DISPLAY_MS};
use chat_bubbles::event::PlayerChatEvent;

#[test]
fn typing_follows_text_changes() {
    let mut b = BubbleState::new();
    b.apply_event(&PlayerChatEvent::InputTextChanged("hey".to_string()), 0);
    assert_eq!(b.typing(), Some("hey".to_string()));
    b.apply_event(&PlayerChatEvent::InputTextChanged(String::new()), 0);
    assert_eq!(b.typing(), None);
    b.apply_event(&PlayerChatEvent::InputTextChanged("x".to_string()), 0);
    b.apply_event(&PlayerChatEvent::ChatOpened, 0);
    assert_eq!(b.typing(), Some("x".to_string()));
    b.apply_event(&PlayerChatEvent::ChatClosed, 0);
    assert_eq!(b.typing(), None);
}

#[test]
fn messages_expire() {
    let mut b = BubbleState::new();
    b.apply_event(&PlayerChatEvent::Message("one".to_string()), 1_000);
    b.apply_event(&PlayerChatEvent::Message("two".to_string()), 3_000);
    assert_eq!(b.messages(), vec!["one".to_string(), "two".to_string()]);
    b.prune(1_000 + MESSAGE_DISPLAY_MS - 1);
    assert_eq!(b.messages().len(), 2);
    b.prune(1_000 + MESSAGE_DISPLAY_MS);
    assert_eq!(b.messages(), vec!["two".to_string()]);
    b.prune(3_000 + MESSAGE_DISPLAY_MS);
    assert!(b.messages().is_empty());
}
