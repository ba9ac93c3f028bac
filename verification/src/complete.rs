//! Completion provider: finds the token being typed before the cursor and
//! offers the entries that extend it, by relevance tier.
//!
//! Two tiers live here: the domain vocabulary first, then tokens derived
//! from past inputs. Both are held by the provider and can be replaced
//! between calls, so external collaborators may keep them in step with a
//! changing schema and a growing history. The middle tier spec'd between
//! them — filesystem-path matches for file-reference contexts — is I/O and
//! is supplied by the terminal collaborator outside this crate.

use vstd::prelude::*;

use crate::buffer::EditBuffer;
use crate::text::chars_of;
use crate::text::is_word_char;
use crate::text::lemma_filter_take_snoc;
use crate::text::word_char;

verus! {

/// Start of the token immediately before `cursor`: the maximal run of word
/// characters ending at `cursor` begins here.
pub open spec fn spec_token_start(line: Seq<char>, cursor: int) -> int
    decreases cursor,
{
    if cursor <= 0 {
        0
    } else if is_word_char(line[cursor - 1]) {
        spec_token_start(line, cursor - 1)
    } else {
        cursor
    }
}

/// `p` is a prefix of `s`.
pub open spec fn has_prefix(s: Seq<char>, p: Seq<char>) -> bool {
    p.len() <= s.len() && s.take(p.len() as int) == p
}

/// The mathematical model of a completion provider: the domain vocabulary
/// and the history-derived tokens, each in relevance order.
pub struct CompleterModel {
    pub vocabulary: Seq<Seq<char>>,
    pub history_tokens: Seq<Seq<char>>,
}

pub struct ShellCompleter {
    vocabulary: Vec<String>,
    history_tokens: Vec<String>,
}

impl View for ShellCompleter {
    type V = CompleterModel;

    closed spec fn view(&self) -> CompleterModel {
        CompleterModel {
            vocabulary: self.vocabulary@.map_values(|e: String| e@),
            history_tokens: self.history_tokens@.map_values(|e: String| e@),
        }
    }
}

impl ShellCompleter {
    /// A provider with no sources: it never offers a candidate.
    pub fn new() -> (c: ShellCompleter)
        ensures
            c@.vocabulary.len() == 0,
            c@.history_tokens.len() == 0,
    {
        let c = ShellCompleter { vocabulary: Vec::new(), history_tokens: Vec::new() };
        proof {
            assert(c@.vocabulary =~= Seq::<Seq<char>>::empty());
            assert(c@.history_tokens =~= Seq::<Seq<char>>::empty());
        }
        c
    }

    /// A provider that offers the given vocabulary, in the given order of
    /// relevance, and no history-derived tokens yet.
    pub fn with_vocabulary(vocabulary: Vec<String>) -> (c: ShellCompleter)
        ensures
            c@.vocabulary == vocabulary@.map_values(|e: String| e@),
            c@.history_tokens.len() == 0,
    {
        let c = ShellCompleter { vocabulary, history_tokens: Vec::new() };
        proof {
            assert(c@.history_tokens =~= Seq::<Seq<char>>::empty());
        }
        c
    }

    /// Replaces the vocabulary; the schema may change between calls.
    pub fn set_vocabulary(&mut self, vocabulary: Vec<String>)
        ensures
            final(self)@.vocabulary == vocabulary@.map_values(|e: String| e@),
            final(self)@.history_tokens == old(self)@.history_tokens,
    {
        self.vocabulary = vocabulary;
    }

    /// Replaces the history-derived tokens, most relevant first; the caller
    /// refreshes them as inputs are submitted.
    pub fn set_history_tokens(&mut self, tokens: Vec<String>)
        ensures
            final(self)@.history_tokens == tokens@.map_values(|e: String| e@),
            final(self)@.vocabulary == old(self)@.vocabulary,
    {
        self.history_tokens = tokens;
    }

    /// Returns the start of the token being typed before `cursor` and the
    /// candidates that have that token as a prefix: vocabulary entries
    /// first, history-derived tokens after them, each tier in its own
    /// order. With an empty token every entry is offered.
    pub fn complete(&self, line: &str, cursor: usize) -> (r: (usize, Vec<String>))
        requires
            cursor <= line@.len(),
        ensures
            r.0 == spec_token_start(line@, cursor as int),
            r.1@.map_values(|e: String| e@) == ({
                let tok = line@.subrange(spec_token_start(line@, cursor as int), cursor as int);
                self@.vocabulary.filter(|v: Seq<char>| has_prefix(v, tok))
                    + self@.history_tokens.filter(|v: Seq<char>| has_prefix(v, tok))
            }),
    {
        let chars = chars_of(line);
        let mut start: usize = cursor;
        while start > 0 && word_char(chars[start - 1])
            invariant
                start <= cursor,
                cursor <= chars@.len(),
                chars@ == line@,
                spec_token_start(line@, cursor as int) == spec_token_start(line@, start as int),
            decreases start,
        {
            start = start - 1;
        }
        proof {
            assert(spec_token_start(line@, start as int) == start);
        }
        let mut token: Vec<char> = Vec::new();
        let mut i: usize = start;
        while i < cursor
            invariant
                start <= i <= cursor,
                cursor <= chars@.len(),
                chars@ == line@,
                token@ == line@.subrange(start as int, i as int),
            decreases cursor - i,
        {
            token.push(chars[i]);
            proof {
                assert(token@ =~= line@.subrange(start as int, i + 1));
            }
            i = i + 1;
        }
        proof {
            assert(token@ == line@.subrange(
                spec_token_start(line@, cursor as int),
                cursor as int,
            ));
        }
        let mut out = collect_matching(&self.vocabulary, &token);
        let mut hist = collect_matching(&self.history_tokens, &token);
        out.append(&mut hist);
        proof {
            assert(out@.map_values(|e: String| e@) =~= self@.vocabulary.filter(
                |v: Seq<char>| has_prefix(v, token@),
            ) + self@.history_tokens.filter(|v: Seq<char>| has_prefix(v, token@)));
        }
        (start, out)
    }

    /// Applies an elected candidate: replaces the span from `start` to the
    /// cursor with the candidate text. The cursor ends at
    /// `start + candidate length` and nothing outside the replaced span is
    /// perturbed.
    pub fn update(&self, buffer: &mut EditBuffer, start: usize, elected: &str)
        requires
            old(buffer).wf(),
            start <= old(buffer)@.cursor,
            old(buffer)@.text.len() + elected@.len() < usize::MAX,
        ensures
            final(buffer).wf(),
            final(buffer)@.text == old(buffer)@.text.take(start as int) + elected@ + old(
                buffer,
            )@.text.skip(old(buffer)@.cursor),
            final(buffer)@.cursor == start + elected@.len(),
    {
        buffer.replace_to_cursor(start, elected);
    }
}

/// The entries of `list` that have `token` as a prefix, in list order.
fn collect_matching(list: &Vec<String>, token: &Vec<char>) -> (r: Vec<String>)
    ensures
        r@.map_values(|e: String| e@) == list@.map_values(|e: String| e@).filter(
            |v: Seq<char>| has_prefix(v, token@),
        ),
{
    let ghost lv = list@.map_values(|e: String| e@);
    let ghost pred = |v: Seq<char>| has_prefix(v, token@);
    let mut out: Vec<String> = Vec::new();
    let n = list.len();
    let mut k: usize = 0;
    while k < n
        invariant
            k <= n,
            n == list@.len(),
            lv == list@.map_values(|e: String| e@),
            pred == (|v: Seq<char>| has_prefix(v, token@)),
            out@.map_values(|e: String| e@) == lv.take(k as int).filter(pred),
        decreases n - k,
    {
        proof {
            lemma_filter_take_snoc(lv, pred, k as int);
            assert(lv[k as int] == list@[k as int]@);
        }
        if starts_with(&list[k], token) {
            let e = list[k].clone();
            out.push(e);
            proof {
                assert(out@.map_values(|e: String| e@) =~= lv.take(k as int).filter(pred).push(
                    lv[k as int],
                ));
            }
        }
        k = k + 1;
    }
    proof {
        assert(lv.take(n as int) =~= lv);
    }
    out
}

/// `text` begins with `prefix`.
fn starts_with(text: &String, prefix: &Vec<char>) -> (r: bool)
    ensures
        r == has_prefix(text@, prefix@),
{
    let t = chars_of(text.as_str());
    let np = prefix.len();
    if np > t.len() {
        return false;
    }
    let mut j: usize = 0;
    while j < np
        invariant
            j <= np,
            np == prefix@.len(),
            np <= t@.len(),
            t@ == text@,
            forall|m: int| 0 <= m < j ==> t@[m] == prefix@[m],
        decreases np - j,
    {
        if t[j] != prefix[j] {
            proof {
                assert(text@.take(np as int)[j as int] == text@[j as int]);
            }
            return false;
        }
        j = j + 1;
    }
    proof {
        assert(text@.take(np as int) =~= prefix@);
    }
    true
}

} // verus!
