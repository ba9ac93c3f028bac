//! Session state machine: owns the edit buffer, the pending multi-line
//! input, the history store and the prompt configuration, and decides after
//! each submitted line whether the accumulated statement is complete.
//!
//! The loop that reads keys and calls the external evaluator lives outside
//! the library; it feeds lines and events in and performs the returned
//! actions.

use vstd::prelude::*;

use crate::bracket::validation_of;
use crate::bracket::ValidationOutcome;
use crate::buffer::BufferModel;
use crate::buffer::EditBuffer;
use crate::complete::CompleterModel;
use crate::complete::ShellCompleter;
use crate::highlight::default_keywords;
use crate::highlight::ShellHighlighter;
use crate::history::Direction;
use crate::history::HistoryModel;
use crate::history::HistoryStore;
use crate::history::spec_contains;
use crate::keymap::default_binding_table;
use crate::keymap::default_bindings;
use crate::keymap::EditCommand;
use crate::keymap::KeyBindings;
use crate::keymap::KeyChord;
use crate::text::chars_of;
use crate::text::string_from_chars;

verus! {

/// The states of the session loop.
#[derive(Clone, Copy, Debug, PartialEq, Eq, Structural)]
pub enum SessionState {
    /// Accepting keystrokes into the live buffer.
    Reading,
    /// Reading with a non-empty pending input: a continuation prompt shows.
    AwaitingContinuation,
    /// A complete statement was handed off; awaiting the evaluator's result.
    Evaluating,
    /// Loop exit requested.
    Terminated,
}

/// What the session asks its caller to do after a submitted line.
#[derive(Debug, PartialEq, Eq)]
pub enum SubmitOutcome {
    /// The accumulated statement is complete: hand it to the evaluator.
    Evaluate(String),
    /// Complete only because an extra or mismatched closer can never be
    /// repaired by more lines: hand it over, and the defect is reported.
    EvaluateDefective(String),
    /// Incomplete: show the continuation prompt and read another line.
    Continue,
}

/// The accumulated statement: the pending lines joined by line breaks.
pub open spec fn join_lines(lines: Seq<Seq<char>>) -> Seq<char>
    decreases lines.len(),
{
    if lines.len() == 0 {
        Seq::empty()
    } else if lines.len() == 1 {
        lines[0]
    } else {
        join_lines(lines.drop_last()) + seq!['\n'] + lines.last()
    }
}

/// The pending lines after feeding the first `k` of `lines` to a session
/// that started with nothing pending: an incomplete accumulation is kept, a
/// complete one is cleared on submission.
pub open spec fn pending_after(lines: Seq<Seq<char>>, k: int) -> Seq<Seq<char>>
    decreases k,
{
    if k <= 0 {
        Seq::empty()
    } else {
        let p = pending_after(lines, k - 1).push(lines[k - 1]);
        if validation_of(join_lines(p)) is Incomplete {
            p
        } else {
            Seq::empty()
        }
    }
}

pub struct SessionModel {
    pub state: SessionState,
    pub pending: Seq<Seq<char>>,
    pub statement: Seq<char>,
    pub history: HistoryModel,
    pub buffer: BufferModel,
    pub primary_prompt: Seq<char>,
    pub continuation_prompt: Seq<char>,
    pub keywords: Seq<Seq<char>>,
    pub completer: CompleterModel,
    pub bindings: Seq<(KeyChord, EditCommand)>,
}

pub struct Session {
    state: SessionState,
    pending: Vec<String>,
    statement: String,
    history: HistoryStore,
    buffer: EditBuffer,
    primary_prompt: String,
    continuation_prompt: String,
    highlighter: ShellHighlighter,
    completer: ShellCompleter,
    bindings: KeyBindings,
}

impl View for Session {
    type V = SessionModel;

    closed spec fn view(&self) -> SessionModel {
        SessionModel {
            state: self.state,
            pending: self.pending@.map_values(|e: String| e@),
            statement: self.statement@,
            history: self.history@,
            buffer: self.buffer@,
            primary_prompt: self.primary_prompt@,
            continuation_prompt: self.continuation_prompt@,
            keywords: self.highlighter@,
            completer: self.completer@,
            bindings: self.bindings@,
        }
    }
}

impl Session {
    /// Well-formed: the sub-structures are well-formed, a continuation is
    /// awaited exactly when lines are pending outside evaluation, and a
    /// statement is held back only while evaluating.
    pub closed spec fn wf(&self) -> bool {
        &&& self.history.wf()
        &&& self.buffer.wf()
        &&& self.highlighter.wf()
        &&& (self@.state is AwaitingContinuation ==> self@.pending.len() > 0)
        &&& (self@.state is Reading ==> self@.pending.len() == 0)
        &&& (self@.state is Evaluating ==> self@.pending.len() == 0)
    }

    /// A fresh session at the primary prompt, with the default keyword set,
    /// an empty completion vocabulary and the default key bindings.
    pub fn new(primary_prompt: &str, continuation_prompt: &str) -> (s: Session)
        ensures
            s.wf(),
            s@.state is Reading,
            s@.pending.len() == 0,
            s@.history.entries.len() == 0,
            s@.buffer.text.len() == 0,
            s@.primary_prompt == primary_prompt@,
            s@.continuation_prompt == continuation_prompt@,
            s@.keywords == default_keywords(),
            s@.completer.vocabulary.len() == 0,
            s@.completer.history_tokens.len() == 0,
            s@.bindings == default_binding_table(),
    {
        Session::with_config(
            primary_prompt,
            continuation_prompt,
            ShellHighlighter::new(),
            ShellCompleter::new(),
            default_bindings(),
        )
    }

    /// A fresh session with injected collaborators: the highlighter, the
    /// completion provider and the key bindings are configuration chosen at
    /// construction.
    pub fn with_config(
        primary_prompt: &str,
        continuation_prompt: &str,
        highlighter: ShellHighlighter,
        completer: ShellCompleter,
        bindings: KeyBindings,
    ) -> (s: Session)
        requires
            highlighter.wf(),
        ensures
            s.wf(),
            s@.state is Reading,
            s@.pending.len() == 0,
            s@.history.entries.len() == 0,
            s@.buffer.text.len() == 0,
            s@.primary_prompt == primary_prompt@,
            s@.continuation_prompt == continuation_prompt@,
            s@.keywords == highlighter@,
            s@.completer == completer@,
            s@.bindings == bindings@,
    {
        let s = Session {
            state: SessionState::Reading,
            pending: Vec::new(),
            statement: String::new(),
            history: HistoryStore::new(),
            buffer: EditBuffer::new(),
            primary_prompt: primary_prompt.to_owned(),
            continuation_prompt: continuation_prompt.to_owned(),
            highlighter,
            completer,
            bindings,
        };
        proof {
            assert(s@.pending =~= Seq::<Seq<char>>::empty());
        }
        s
    }

    /// The configured highlighter.
    pub fn highlighter(&self) -> (h: &ShellHighlighter)
        requires
            self.wf(),
        ensures
            h.wf(),
            h@ == self@.keywords,
    {
        &self.highlighter
    }

    /// The configured completion provider.
    pub fn completer(&self) -> (c: &ShellCompleter)
        ensures
            c@ == self@.completer,
    {
        &self.completer
    }

    /// The configured key bindings.
    pub fn bindings(&self) -> (b: &KeyBindings)
        ensures
            b@ == self@.bindings,
    {
        &self.bindings
    }

    /// Replaces the completion vocabulary: the external evaluator may hand
    /// over a new schema between statements.
    pub fn set_vocabulary(&mut self, vocabulary: Vec<String>)
        requires
            old(self).wf(),
        ensures
            final(self).wf(),
            final(self)@ == (SessionModel {
                completer: CompleterModel {
                    vocabulary: vocabulary@.map_values(|e: String| e@),
                    ..old(self)@.completer
                },
                ..old(self)@
            }),
    {
        self.completer.set_vocabulary(vocabulary);
    }

    /// Replaces the history-derived completion tokens, most relevant first.
    pub fn set_history_tokens(&mut self, tokens: Vec<String>)
        requires
            old(self).wf(),
        ensures
            final(self).wf(),
            final(self)@ == (SessionModel {
                completer: CompleterModel {
                    history_tokens: tokens@.map_values(|e: String| e@),
                    ..old(self)@.completer
                },
                ..old(self)@
            }),
    {
        self.completer.set_history_tokens(tokens);
    }

    /// The prompt to show: the continuation prompt while lines are pending,
    /// the primary prompt otherwise.
    pub fn prompt(&self) -> (p: String)
        ensures
            p@ == if self@.state is AwaitingContinuation {
                self@.continuation_prompt
            } else {
                self@.primary_prompt
            },
    {
        if matches!(self.state, SessionState::AwaitingContinuation) {
            self.continuation_prompt.clone()
        } else {
            self.primary_prompt.clone()
        }
    }

    pub fn state(&self) -> (st: SessionState)
        ensures
            st == self@.state,
    {
        self.state
    }

    /// Takes one submitted line. The line joins the pending input; if the
    /// joined text is complete the accumulation is cleared and the statement
    /// is handed out for evaluation, otherwise the session awaits a
    /// continuation line. A lone empty line is complete and submits an empty
    /// statement.
    pub fn submit_line(&mut self, line: &str) -> (r: SubmitOutcome)
        requires
            old(self).wf(),
            old(self)@.state is Reading || old(self)@.state is AwaitingContinuation,
        ensures
            final(self).wf(),
            final(self)@.history == old(self)@.history,
            final(self)@.primary_prompt == old(self)@.primary_prompt,
            final(self)@.continuation_prompt == old(self)@.continuation_prompt,
            ({
                let full = join_lines(old(self)@.pending.push(line@));
                match validation_of(full) {
                    ValidationOutcome::Incomplete => {
                        &&& r is Continue
                        &&& final(self)@.state is AwaitingContinuation
                        &&& final(self)@.pending == old(self)@.pending.push(line@)
                    },
                    ValidationOutcome::Complete => {
                        &&& (r matches SubmitOutcome::Evaluate(s) && s@ == full)
                        &&& final(self)@.state is Evaluating
                        &&& final(self)@.pending.len() == 0
                        &&& final(self)@.statement == full
                    },
                    ValidationOutcome::CompleteWithDefect => {
                        &&& (r matches SubmitOutcome::EvaluateDefective(s) && s@ == full)
                        &&& final(self)@.state is Evaluating
                        &&& final(self)@.pending.len() == 0
                        &&& final(self)@.statement == full
                    },
                }
            }),
    {
        self.pending.push(line.to_owned());
        proof {
            assert(self@.pending =~= old(self)@.pending.push(line@));
        }
        let joined = self.join_pending();
        let outcome = crate::bracket::validate(joined.as_str());
        match outcome {
            ValidationOutcome::Incomplete => {
                self.state = SessionState::AwaitingContinuation;
                SubmitOutcome::Continue
            },
            ValidationOutcome::Complete => {
                self.pending.clear();
                self.state = SessionState::Evaluating;
                self.statement = joined.clone();
                proof {
                    assert(self@.pending =~= Seq::<Seq<char>>::empty());
                }
                SubmitOutcome::Evaluate(joined)
            },
            ValidationOutcome::CompleteWithDefect => {
                self.pending.clear();
                self.state = SessionState::Evaluating;
                self.statement = joined.clone();
                proof {
                    assert(self@.pending =~= Seq::<Seq<char>>::empty());
                }
                SubmitOutcome::EvaluateDefective(joined)
            },
        }
    }

    /// The pending lines joined by line breaks.
    fn join_pending(&self) -> (s: String)
        ensures
            s@ == join_lines(self@.pending),
    {
        let mut acc: Vec<char> = Vec::new();
        let n = self.pending.len();
        let mut i: usize = 0;
        while i < n
            invariant
                i <= n,
                n == self@.pending.len(),
                acc@ == join_lines(self@.pending.take(i as int)),
            decreases n - i,
        {
            proof {
                lemma_join_snoc(self@.pending, i as int);
            }
            if i > 0 {
                acc.push('\n');
            }
            let cs = chars_of(self.pending[i].as_str());
            let m = cs.len();
            let ghost base = acc@;
            let mut j: usize = 0;
            while j < m
                invariant
                    j <= m,
                    m == cs@.len(),
                    acc@ == base + cs@.take(j as int),
                decreases m - j,
            {
                acc.push(cs[j]);
                proof {
                    assert(acc@ =~= base + cs@.take(j + 1));
                }
                j = j + 1;
            }
            proof {
                assert(cs@.take(m as int) =~= cs@);
                assert(self@.pending[i as int] == self.pending@[i as int]@);
                if i == 0 {
                    assert(acc@ =~= join_lines(self@.pending.take(1)));
                } else {
                    assert(acc@ =~= join_lines(self@.pending.take(i as int)) + seq!['\n']
                        + self@.pending[i as int]);
                }
            }
            i = i + 1;
        }
        proof {
            assert(self@.pending.take(n as int) =~= self@.pending);
        }
        string_from_chars(&acc)
    }

    /// The evaluator has returned and its result was shown: the completed
    /// statement is recorded in history (unless empty or a repeat of the
    /// newest entry), the live buffer is cleared, and reading resumes.
    pub fn finish_evaluation(&mut self)
        requires
            old(self).wf(),
            old(self)@.state is Evaluating,
        ensures
            final(self).wf(),
            final(self)@.state is Reading,
            final(self)@.pending.len() == 0,
            final(self)@.buffer.text.len() == 0,
            final(self)@.statement.len() == 0,
            ({
                let t = old(self)@.statement;
                if t.len() == 0 || (old(self)@.history.entries.len() > 0
                    && old(self)@.history.entries.last() == t) {
                    final(self)@.history == old(self)@.history
                } else {
                    final(self)@.history.entries == old(self)@.history.entries.push(t)
                        && final(self)@.history.cursor == final(self)@.history.entries.len()
                }
            }),
    {
        self.history.append(self.statement.as_str());
        self.statement = String::new();
        self.buffer.clear();
        self.state = SessionState::Reading;
    }

    /// An interrupt. With anything pending or in the buffer it discards the
    /// accumulated input — submitting nothing, recording nothing — and
    /// returns to the primary prompt; with nothing to discard it ends the
    /// session. Returns whether the session terminated.
    pub fn interrupt(&mut self) -> (exited: bool)
        requires
            old(self).wf(),
        ensures
            final(self).wf(),
            final(self)@.history.entries == old(self)@.history.entries,
            if old(self)@.pending.len() == 0 && old(self)@.buffer.text.len() == 0 {
                exited && final(self)@.state is Terminated
            } else {
                &&& !exited
                &&& final(self)@.state is Reading
                &&& final(self)@.pending.len() == 0
                &&& final(self)@.buffer.text.len() == 0
            },
    {
        let nothing_held = self.pending.len() == 0 && self.buffer.len() == 0;
        if nothing_held {
            self.state = SessionState::Terminated;
            true
        } else {
            self.pending.clear();
            self.buffer.clear();
            self.state = SessionState::Reading;
            proof {
                assert(self@.pending =~= Seq::<Seq<char>>::empty());
            }
            false
        }
    }

    /// An end-of-input signal, or a fatal terminal failure: the loop exits.
    pub fn end_of_input(&mut self)
        requires
            old(self).wf(),
        ensures
            final(self).wf(),
            final(self)@.state is Terminated,
            final(self)@.history.entries == old(self)@.history.entries,
    {
        self.state = SessionState::Terminated;
    }

    /// One step of history recall. A recalled entry becomes the live line
    /// with the cursor at its end; at a boundary the store and the buffer
    /// are untouched and `None` is the boundary signal.
    pub fn navigate_history(&mut self, dir: Direction) -> (r: Option<String>)
        requires
            old(self).wf(),
        ensures
            final(self).wf(),
            final(self)@.history.entries == old(self)@.history.entries,
            final(self)@.state == old(self)@.state,
            final(self)@.pending == old(self)@.pending,
            r matches Some(e) ==> {
                &&& 0 <= final(self)@.history.cursor < final(self)@.history.entries.len()
                &&& e@ == final(self)@.history.entries[final(self)@.history.cursor]
                &&& final(self)@.buffer.text == e@
                &&& final(self)@.buffer.cursor == e@.len()
                &&& (dir is Older ==> final(self)@.history.cursor == old(self)@.history.cursor
                    - 1)
                &&& (dir is Newer ==> final(self)@.history.cursor == old(self)@.history.cursor
                    + 1)
            },
            r is None ==> final(self)@.buffer == old(self)@.buffer,
            (dir is Older && old(self)@.history.cursor == 0) ==> r is None
                && final(self)@.history == old(self)@.history,
    {
        let r = self.history.navigate(dir);
        match r {
            Some(e) => {
                self.buffer.load(e.as_str());
                Some(e)
            },
            None => None,
        }
    }

    /// Reverse history search, scanning backward from the navigation cursor;
    /// repeating the same query scans further back. A found entry becomes
    /// the live line.
    pub fn search_history(&mut self, query: &str) -> (r: Option<String>)
        requires
            old(self).wf(),
        ensures
            final(self).wf(),
            final(self)@.history.entries == old(self)@.history.entries,
            final(self)@.state == old(self)@.state,
            final(self)@.pending == old(self)@.pending,
            r matches Some(e) ==> {
                &&& 0 <= final(self)@.history.cursor < old(self)@.history.cursor
                &&& spec_contains(
                    final(self)@.history.entries[final(self)@.history.cursor],
                    query@,
                )
                &&& e@ == final(self)@.history.entries[final(self)@.history.cursor]
                &&& final(self)@.buffer.text == e@
                &&& forall|j: int|
                    final(self)@.history.cursor < j < old(self)@.history.cursor
                        ==> !spec_contains(#[trigger] final(self)@.history.entries[j], query@)
            },
            r is None ==> final(self)@.history == old(self)@.history && final(self)@.buffer
                == old(self)@.buffer && forall|j: int|
                0 <= j < old(self)@.history.cursor ==> !spec_contains(
                    #[trigger] final(self)@.history.entries[j],
                    query@,
                ),
    {
        let r = self.history.search(query);
        match r {
            Some(e) => {
                self.buffer.load(e.as_str());
                Some(e)
            },
            None => None,
        }
    }

    /// Types one character into the live buffer at the cursor. A direct edit
    /// leaves history navigation: the navigation cursor returns to its "at
    /// end" sentinel.
    pub fn insert_char(&mut self, c: char)
        requires
            old(self).wf(),
            old(self)@.buffer.text.len() < usize::MAX,
        ensures
            final(self).wf(),
            final(self)@.buffer.text == old(self)@.buffer.text.insert(old(self)@.buffer.cursor, c),
            final(self)@.buffer.cursor == old(self)@.buffer.cursor + 1,
            final(self)@.history.entries == old(self)@.history.entries,
            final(self)@.history.cursor == final(self)@.history.entries.len(),
            final(self)@.state == old(self)@.state,
            final(self)@.pending == old(self)@.pending,
    {
        self.buffer.insert_char(c);
        self.history.reset_navigation();
    }

    /// Deletes the character before the cursor, if any; a direct edit, so
    /// history navigation resets as for `insert_char`.
    pub fn backspace(&mut self)
        requires
            old(self).wf(),
        ensures
            final(self).wf(),
            old(self)@.buffer.cursor == 0 ==> final(self)@.buffer == old(self)@.buffer,
            old(self)@.buffer.cursor > 0 ==> final(self)@.buffer.text
                == old(self)@.buffer.text.remove(old(self)@.buffer.cursor - 1)
                && final(self)@.buffer.cursor == old(self)@.buffer.cursor - 1,
            final(self)@.history.entries == old(self)@.history.entries,
            final(self)@.history.cursor == final(self)@.history.entries.len(),
            final(self)@.state == old(self)@.state,
            final(self)@.pending == old(self)@.pending,
    {
        self.buffer.backspace();
        self.history.reset_navigation();
    }

    /// The live line as text, with the cursor offset.
    pub fn line(&self) -> (r: (String, usize))
        requires
            self.wf(),
        ensures
            r.0@ == self@.buffer.text,
            r.1 == self@.buffer.cursor,
    {
        (self.buffer.to_text(), self.buffer.cursor())
    }
}

/// Joining one more line appends a line break (after a first line) and the
/// line itself.
pub proof fn lemma_join_snoc(lines: Seq<Seq<char>>, i: int)
    requires
        0 <= i < lines.len(),
    ensures
        join_lines(lines.take(i + 1)) == if i == 0 {
            lines[0]
        } else {
            join_lines(lines.take(i)) + seq!['\n'] + lines[i]
        },
{
    assert(lines.take(i + 1).drop_last() =~= lines.take(i));
    assert(lines.take(i + 1).last() == lines[i]);
    if i == 0 {
        assert(lines.take(1)[0] == lines[0]);
    }
}

/// A bracket-balanced single line submits immediately: handed to a session
/// with nothing pending, it is the whole accumulated statement, and the
/// validator reports it complete at once.
pub proof fn lemma_balanced_line_submits_immediately(line: Seq<char>)
    requires
        crate::bracket::spec_balanced(line),
    ensures
        validation_of(join_lines(Seq::<Seq<char>>::empty().push(line))) is Complete,
{
    let lines = Seq::<Seq<char>>::empty().push(line);
    assert(lines.len() == 1);
    assert(join_lines(lines) == line);
}

/// An input split across several lines such that every proper prefix of the
/// accumulation is incomplete and only the full concatenation is complete
/// draws exactly one continuation per line but the last: after `k` lines the
/// first `k` lines are still pending, each submission before the last
/// reports "incomplete", and the last one submits the joined whole.
pub proof fn lemma_n_minus_one_continuations(lines: Seq<Seq<char>>, k: int)
    requires
        lines.len() >= 1,
        forall|j: int|
            1 <= j < lines.len() ==> validation_of(
                join_lines(#[trigger] lines.take(j)),
            ) is Incomplete,
        !(validation_of(join_lines(lines)) is Incomplete),
        0 <= k < lines.len(),
    ensures
        pending_after(lines, k) == lines.take(k),
        k < lines.len() - 1 ==> validation_of(join_lines(lines.take(k + 1))) is Incomplete,
        k == lines.len() - 1 ==> !(validation_of(join_lines(lines.take(k + 1))) is Incomplete),
    decreases k,
{
    if k == 0 {
        assert(pending_after(lines, 0) =~= lines.take(0));
    } else {
        lemma_n_minus_one_continuations(lines, k - 1);
        assert(pending_after(lines, k - 1).push(lines[k - 1]) =~= lines.take(k));
        assert(validation_of(join_lines(lines.take(k))) is Incomplete);
    }
    if k == lines.len() - 1 {
        assert(lines.take(k + 1) =~= lines);
    }
}

} // verus!
