use qurious_shell::buffer::EditBuffer;
use qurious_shell::keymap::default_bindings;
use qurious_shell::keymap::EditCommand;
use qurious_shell::keymap::KeyBindings;
use qurious_shell::keymap::KeyChord;

fn plain(ch: char) -> KeyChord {
    KeyChord { ctrl: false, alt: false, ch }
}

fn ctrl(ch: char) -> KeyChord {
    KeyChord { ctrl: true, alt: false, ch }
}

fn alt(ch: char) -> KeyChord {
    KeyChord { ctrl: false, alt: true, ch }
}

#[test]
fn unbound_key_inserts_itself() {
    let b = default_bindings();
    assert_eq!(b.resolve(plain('a')), EditCommand::InsertSelf);
    assert_eq!(b.resolve(plain('(')), EditCommand::InsertSelf);
}

#[test]
fn default_bindings_resolve() {
    let b = default_bindings();
    assert_eq!(b.resolve(plain('\n')), EditCommand::Submit);
    assert_eq!(b.resolve(plain('\t')), EditCommand::CompleteToken);
    assert_eq!(b.resolve(ctrl('c')), EditCommand::Interrupt);
    assert_eq!(b.resolve(ctrl('d')), EditCommand::EndOfInput);
    assert_eq!(b.resolve(ctrl('p')), EditCommand::HistoryOlder);
    assert_eq!(b.resolve(ctrl('n')), EditCommand::HistoryNewer);
    assert_eq!(b.resolve(alt('p')), EditCommand::HistorySearchBackward);
    assert_eq!(b.resolve(alt('n')), EditCommand::HistorySearchForward);
}

#[test]
fn first_matching_binding_wins() {
    let mut b = KeyBindings::new();
    b.bind(ctrl('x'), EditCommand::MoveLeft);
    b.bind(ctrl('x'), EditCommand::MoveRight);
    assert_eq!(b.resolve(ctrl('x')), EditCommand::MoveLeft);
}

#[test]
fn modifiers_distinguish_chords() {
    let b = default_bindings();
    assert_eq!(b.resolve(plain('c')), EditCommand::InsertSelf);
    assert_eq!(b.resolve(ctrl('c')), EditCommand::Interrupt);
}

#[test]
fn buffer_editing_commands() {
    let mut b = EditBuffer::new();
    b.insert_char('a');
    b.insert_char('c');
    b.move_left();
    b.insert_char('b');
    assert_eq!(b.to_text(), "abc".to_owned());
    assert_eq!(b.cursor(), 2);
    b.move_right();
    b.backspace();
    assert_eq!(b.to_text(), "ab".to_owned());
    b.move_left();
    b.move_left();
    // At the start the cursor stays put and backspace is a no-op.
    assert_eq!(b.cursor(), 0);
    b.backspace();
    assert_eq!(b.to_text(), "ab".to_owned());
    b.clear();
    assert_eq!(b.to_text(), "".to_owned());
    assert_eq!(b.len(), 0);
}

#[test]
fn buffer_load_places_cursor_at_end() {
    let mut b = EditBuffer::new();
    b.load("recalled");
    assert_eq!(b.to_text(), "recalled".to_owned());
    assert_eq!(b.cursor(), 8);
}
