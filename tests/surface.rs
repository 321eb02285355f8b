use widget_tree::clipboard::{self, Action, Clipboard, Null};
use widget_tree::dnd::{end_dnd, set_action, DndAction, DndActions};
use widget_tree::highlighter::{Highlighter, PlainText};
use widget_tree::shell::{Features, IcedRequestData, KeyCodeError, LocalState, Proxy, SessionLockEvent};

#[test]
fn null_clipboard_holds_nothing() {
    let mut c = Null;
    c.write("hello".to_string());
    assert!(c.read().is_none());
    c.write_primary("x".to_string());
    assert!(c.read_primary().is_none());
}

#[test]
fn clipboard_actions() {
    match clipboard::write::<fn(Option<String>) -> u8>("text".to_string()) {
        Action::Write(s) => assert_eq!(s, "text"),
        _ => panic!("expected a write"),
    }
    match clipboard::read(|s: Option<String>| s.map(|t| t.len()).unwrap_or(0)) {
        Action::Read(f) => {
            assert_eq!(f(Some("abc".to_string())), 3);
            assert_eq!(f(None), 0);
        },
        _ => panic!("expected a read"),
    }
}

#[test]
fn dnd_actions() {
    assert!(matches!(end_dnd::<fn()>(), DndAction::EndDnd));
    let a = DndActions { copy: true, moves: false, ask: true };
    match set_action::<fn()>(a) {
        DndAction::SetAction(b) => assert_eq!(b, a),
        _ => panic!("expected set action"),
    }
    assert_eq!(DndActions::default(), DndActions { copy: false, moves: false, ask: false });
}

#[test]
fn plain_text_highlights_nothing() {
    let mut h = PlainText::new(&());
    h.update(&());
    h.change_line(3);
    assert!(h.highlight_line("let x = 1;").is_empty());
    assert_eq!(h.current_line(), usize::MAX);
}

#[test]
fn activation_token_delivered_once() {
    let mut d = IcedRequestData::new(7u32, |t: Option<String>| t.unwrap_or_default());
    assert_eq!(*d.request(), 7);
    let f = d.take_message().unwrap();
    assert_eq!(f(Some("token".to_string())), "token");
    assert!(d.take_message().is_none());
}

#[test]
fn shell_values() {
    let p = Proxy::new(5u8);
    assert_eq!(*p.inner(), 5);
    let l = LocalState::new(3i32, ());
    assert_eq!(*l.state(), 3);
    assert_eq!(KeyCodeError(4), KeyCodeError(4));
    let _ = Features::default();
    assert_ne!(SessionLockEvent::Locked, SessionLockEvent::Unlocked);
    assert_eq!(SessionLockEvent::Focused(1, 2), SessionLockEvent::Focused(1, 2));
}
