use skipline::engine::{
    select_mode, Engine, MessageOutcome, OutputMode, PumpMessage, WindowMessage, HOTKEY_ID,
};

const WORDS: &[u8] = b"alpha\nbeta\ngamma\n";

#[test]
fn activation_cycle_emits_in_order_then_wraps() {
    let mut engine = Engine::start(0, WORDS, OutputMode::KeystrokeInjection);
    assert_eq!(engine.activate(), Some(b"alpha".to_vec()));
    assert_eq!(engine.activate(), Some(b"beta".to_vec()));
    assert_eq!(engine.activate(), Some(b"gamma".to_vec()));
    assert_eq!(engine.current_cursor(), 3);
    assert_eq!(engine.activate(), None);
    assert_eq!(engine.current_cursor(), 0);
    assert_eq!(engine.activate(), Some(b"alpha".to_vec()));
    assert_eq!(engine.current_cursor(), 1);
}

#[test]
fn startup_resumes_at_persisted_cursor() {
    let mut engine = Engine::start(2, WORDS, OutputMode::KeystrokeInjection);
    assert_eq!(engine.activate(), Some(b"gamma".to_vec()));
}

#[test]
fn startup_with_stale_cursor_wraps_on_first_activation() {
    let mut engine = Engine::start(7, WORDS, OutputMode::ClipboardWrite);
    assert_eq!(engine.current_cursor(), 7);
    assert_eq!(engine.activate(), None);
    assert_eq!(engine.current_cursor(), 0);
    assert_eq!(engine.activate(), Some(b"alpha".to_vec()));
}

#[test]
fn startup_with_empty_word_list_emits_nothing() {
    let mut engine = Engine::start(0, b"", OutputMode::KeystrokeInjection);
    assert_eq!(engine.activate(), None);
    assert_eq!(engine.current_cursor(), 0);
}

#[test]
fn quit_message_stops_the_loop() {
    let mut engine = Engine::start(0, WORDS, OutputMode::KeystrokeInjection);
    assert!(engine.is_running());
    let outcome = engine.handle_message(PumpMessage::Quit);
    assert!(matches!(outcome, MessageOutcome::Stop));
    assert!(!engine.is_running());
    assert_eq!(engine.current_cursor(), 0);
}

#[test]
fn hotkey_message_runs_one_activation() {
    let mut engine = Engine::start(0, WORDS, OutputMode::KeystrokeInjection);
    let outcome = engine.handle_message(PumpMessage::Hotkey { id: HOTKEY_ID });
    match outcome {
        MessageOutcome::Activated { emitted } => assert_eq!(emitted, Some(b"alpha".to_vec())),
        _ => panic!("expected an activation"),
    }
    assert_eq!(engine.current_cursor(), 1);
    assert!(engine.is_running());
}

#[test]
fn foreign_hotkey_id_is_dispatched() {
    let mut engine = Engine::start(0, WORDS, OutputMode::KeystrokeInjection);
    let outcome = engine.handle_message(PumpMessage::Hotkey { id: 2 });
    assert!(matches!(outcome, MessageOutcome::Dispatch));
    assert_eq!(engine.current_cursor(), 0);
    assert!(engine.is_running());
}

#[test]
fn other_messages_are_dispatched() {
    let mut engine = Engine::start(1, WORDS, OutputMode::KeystrokeInjection);
    let outcome = engine.handle_message(PumpMessage::Other);
    assert!(matches!(outcome, MessageOutcome::Dispatch));
    assert_eq!(engine.current_cursor(), 1);
}

#[test]
fn window_close_and_destroy_request_shutdown() {
    let mut engine = Engine::start(0, WORDS, OutputMode::KeystrokeInjection);
    assert!(engine.handle_window_message(WindowMessage::Close));
    assert!(!engine.is_running());

    let mut engine = Engine::start(0, WORDS, OutputMode::KeystrokeInjection);
    assert!(engine.handle_window_message(WindowMessage::Destroy));
    assert!(!engine.is_running());
}

#[test]
fn window_other_message_is_left_to_default() {
    let mut engine = Engine::start(0, WORDS, OutputMode::KeystrokeInjection);
    assert!(!engine.handle_window_message(WindowMessage::Other));
    assert!(engine.is_running());
}

#[test]
fn clip_argument_selects_clipboard_mode() {
    assert_eq!(select_mode(Some(b"clip")), OutputMode::ClipboardWrite);
}

#[test]
fn other_or_missing_argument_selects_keystrokes() {
    assert_eq!(select_mode(Some(b"clippy")), OutputMode::KeystrokeInjection);
    assert_eq!(select_mode(Some(b"CLIP")), OutputMode::KeystrokeInjection);
    assert_eq!(select_mode(Some(b"")), OutputMode::KeystrokeInjection);
    assert_eq!(select_mode(None), OutputMode::KeystrokeInjection);
}
