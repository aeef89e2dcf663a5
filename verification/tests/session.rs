use zone_console::console::InputMode;
use zone_console::input::InputHandler;
use zone_console::input::Interruption;
use zone_console::input::Key;

// Drives the engine the way a session controller would: stay in `Editing`
// until the engine signals an interruption, then leave the editing mode.
#[test]
fn controller_leaves_editing_mode_on_cancel() {
    let mut mode = InputMode::Editing;
    let mut handler = InputHandler::new();
    let keys = [Key::Char('e'), Key::Char('t'), Key::Char('h'), Key::Esc, Key::Esc];
    let mut committed: Option<String> = None;
    for key in keys {
        assert_eq!(mode, InputMode::Editing);
        match handler.process_input(key) {
            None => {}
            Some(Interruption::Enter(text)) => {
                committed = Some(text);
                mode = InputMode::Control;
            }
            Some(Interruption::Esc) => {
                mode = InputMode::Control;
            }
        }
    }
    assert_eq!(mode, InputMode::Control);
    assert!(committed.is_none());
    assert_eq!(handler.current_input(), "");
}

#[test]
fn controller_receives_committed_text() {
    let mut mode = InputMode::Editing;
    let mut handler = InputHandler::new();
    let keys = [Key::Char('4'), Key::Char('2'), Key::Enter];
    let mut committed: Option<String> = None;
    for key in keys {
        if let Some(interruption) = handler.process_input(key) {
            match interruption {
                Interruption::Enter(text) => {
                    committed = Some(text);
                    mode = InputMode::Control;
                }
                Interruption::Esc => {
                    mode = InputMode::Control;
                }
            }
        }
    }
    assert_eq!(mode, InputMode::Control);
    assert_eq!(committed.as_deref(), Some("42"));
}
