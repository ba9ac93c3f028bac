//! Key-binding dispatcher: maps a key chord to a named editing command.
//!
//! Bindings are configuration, resolved before dispatch; the first binding
//! whose chord equals the incoming key wins, and an unbound key falls through
//! to default single-character insertion.

use vstd::prelude::*;

verus! {

/// A key chord: a principal character plus modifier flags.
#[derive(Clone, Copy, Debug, PartialEq, Eq, Structural)]
pub struct KeyChord {
    pub ctrl: bool,
    pub alt: bool,
    pub ch: char,
}

/// The fixed set of named editing commands a key can be bound to.
#[derive(Clone, Copy, Debug, PartialEq, Eq, Structural)]
pub enum EditCommand {
    /// Insert the chord's own character into the buffer.
    InsertSelf,
    Backspace,
    MoveLeft,
    MoveRight,
    HistoryOlder,
    HistoryNewer,
    HistorySearchBackward,
    HistorySearchForward,
    CompleteToken,
    Submit,
    Interrupt,
    EndOfInput,
}

/// The command of the first binding whose chord is `key`, scanning from `i`.
pub open spec fn first_binding(
    bindings: Seq<(KeyChord, EditCommand)>,
    key: KeyChord,
    i: int,
) -> Option<EditCommand>
    decreases bindings.len() - i,
{
    if i < 0 || i >= bindings.len() {
        None
    } else if bindings[i].0 == key {
        Some(bindings[i].1)
    } else {
        first_binding(bindings, key, i + 1)
    }
}

/// What a key resolves to: its first binding, or default insertion.
pub open spec fn spec_resolve(bindings: Seq<(KeyChord, EditCommand)>, key: KeyChord) -> EditCommand {
    match first_binding(bindings, key, 0) {
        Some(cmd) => cmd,
        None => EditCommand::InsertSelf,
    }
}

pub struct KeyBindings {
    bindings: Vec<(KeyChord, EditCommand)>,
}

impl View for KeyBindings {
    type V = Seq<(KeyChord, EditCommand)>;

    closed spec fn view(&self) -> Seq<(KeyChord, EditCommand)> {
        self.bindings@
    }
}

impl KeyBindings {
    /// No bindings: every key inserts itself.
    pub fn new() -> (b: KeyBindings)
        ensures
            b@.len() == 0,
    {
        let b = KeyBindings { bindings: Vec::new() };
        proof {
            assert(b@ =~= Seq::<(KeyChord, EditCommand)>::empty());
        }
        b
    }

    /// Appends a binding; earlier bindings keep priority.
    pub fn bind(&mut self, key: KeyChord, cmd: EditCommand)
        ensures
            final(self)@ == old(self)@.push((key, cmd)),
    {
        self.bindings.push((key, cmd));
    }

    /// Resolves a key event to an editing command: the first binding whose
    /// chord matches wins, and an unbound key inserts its own character.
    pub fn resolve(&self, key: KeyChord) -> (cmd: EditCommand)
        ensures
            cmd == spec_resolve(self@, key),
    {
        let n = self.bindings.len();
        let mut i: usize = 0;
        while i < n
            invariant
                i <= n,
                n == self@.len(),
                first_binding(self@, key, 0) == first_binding(self@, key, i as int),
            decreases n - i,
        {
            let (chord, cmd) = self.bindings[i];
            if chord == key {
                return cmd;
            }
            i = i + 1;
        }
        EditCommand::InsertSelf
    }
}

/// The default binding table: enter submits, tab completes, the usual
/// control chords edit and navigate, and the alternate history-search
/// triggers sit on alt-p / alt-n.
pub open spec fn default_binding_table() -> Seq<(KeyChord, EditCommand)> {
    seq![
        (KeyChord { ctrl: false, alt: false, ch: '\n' }, EditCommand::Submit),
        (KeyChord { ctrl: false, alt: false, ch: '\t' }, EditCommand::CompleteToken),
        (KeyChord { ctrl: true, alt: false, ch: 'c' }, EditCommand::Interrupt),
        (KeyChord { ctrl: true, alt: false, ch: 'd' }, EditCommand::EndOfInput),
        (KeyChord { ctrl: true, alt: false, ch: 'h' }, EditCommand::Backspace),
        (KeyChord { ctrl: true, alt: false, ch: 'b' }, EditCommand::MoveLeft),
        (KeyChord { ctrl: true, alt: false, ch: 'f' }, EditCommand::MoveRight),
        (KeyChord { ctrl: true, alt: false, ch: 'p' }, EditCommand::HistoryOlder),
        (KeyChord { ctrl: true, alt: false, ch: 'n' }, EditCommand::HistoryNewer),
        (KeyChord { ctrl: true, alt: false, ch: 'r' }, EditCommand::HistorySearchBackward),
        (KeyChord { ctrl: false, alt: true, ch: 'p' }, EditCommand::HistorySearchBackward),
        (KeyChord { ctrl: false, alt: true, ch: 'n' }, EditCommand::HistorySearchForward),
    ]
}

/// The bindings of `default_binding_table`, ready for dispatch.
pub fn default_bindings() -> (b: KeyBindings)
    ensures
        b@ == default_binding_table(),
{
    let mut b = KeyBindings::new();
    b.bind(KeyChord { ctrl: false, alt: false, ch: '\n' }, EditCommand::Submit);
    b.bind(KeyChord { ctrl: false, alt: false, ch: '\t' }, EditCommand::CompleteToken);
    b.bind(KeyChord { ctrl: true, alt: false, ch: 'c' }, EditCommand::Interrupt);
    b.bind(KeyChord { ctrl: true, alt: false, ch: 'd' }, EditCommand::EndOfInput);
    b.bind(KeyChord { ctrl: true, alt: false, ch: 'h' }, EditCommand::Backspace);
    b.bind(KeyChord { ctrl: true, alt: false, ch: 'b' }, EditCommand::MoveLeft);
    b.bind(KeyChord { ctrl: true, alt: false, ch: 'f' }, EditCommand::MoveRight);
    b.bind(KeyChord { ctrl: true, alt: false, ch: 'p' }, EditCommand::HistoryOlder);
    b.bind(KeyChord { ctrl: true, alt: false, ch: 'n' }, EditCommand::HistoryNewer);
    b.bind(KeyChord { ctrl: true, alt: false, ch: 'r' }, EditCommand::HistorySearchBackward);
    b.bind(KeyChord { ctrl: false, alt: true, ch: 'p' }, EditCommand::HistorySearchBackward);
    b.bind(KeyChord { ctrl: false, alt: true, ch: 'n' }, EditCommand::HistorySearchForward);
    proof {
        assert(b@ =~= default_binding_table());
    }
    b
}

} // verus!
