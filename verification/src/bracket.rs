//! Bracket scanner and continuation validator.
//!
//! A single left-to-right scan maintains a stack of open-bracket kinds and a
//! "currently inside a quoted region" flag. Brackets inside a quoted region
//! are ignored. A closer that finds an empty stack or a mismatched opener is
//! a reported defect: it is never fatal, and since no continuation line can
//! repair it, the validator treats the text as complete-with-defect and lets
//! the external evaluator report the syntax error.

use vstd::prelude::*;

use crate::text::chars_of;

verus! {

pub open spec fn is_opener(c: char) -> bool {
    c == '(' || c == '[' || c == '{'
}

pub open spec fn is_closer(c: char) -> bool {
    c == ')' || c == ']' || c == '}'
}

/// The opener kind that a closer must pop.
pub open spec fn opener_for(c: char) -> char {
    if c == ')' {
        '('
    } else if c == ']' {
        '['
    } else {
        '{'
    }
}

pub open spec fn is_quote(c: char) -> bool {
    c == '\'' || c == '"'
}

/// The state of the scan after some prefix of the text: the stack of open
/// bracket kinds, the delimiter of the quoted region the scan is inside (if
/// any), and whether an extra or mismatched closer has been seen.
pub struct ScanState {
    pub stack: Seq<char>,
    pub quote: Option<char>,
    pub defect: bool,
}

pub open spec fn scan_init() -> ScanState {
    ScanState { stack: Seq::empty(), quote: None, defect: false }
}

/// One character of the scan.
pub open spec fn scan_step(st: ScanState, c: char) -> ScanState {
    if st.quote is Some {
        if c == st.quote->0 {
            ScanState { quote: None, ..st }
        } else {
            st
        }
    } else if is_quote(c) {
        ScanState { quote: Some(c), ..st }
    } else if is_opener(c) {
        ScanState { stack: st.stack.push(c), ..st }
    } else if is_closer(c) {
        if st.stack.len() > 0 && st.stack.last() == opener_for(c) {
            ScanState { stack: st.stack.drop_last(), ..st }
        } else {
            ScanState { defect: true, ..st }
        }
    } else {
        st
    }
}

/// The scan state after the whole text.
pub open spec fn scan(text: Seq<char>) -> ScanState
    decreases text.len(),
{
    if text.len() == 0 {
        scan_init()
    } else {
        scan_step(scan(text.drop_last()), text.last())
    }
}

/// Structurally balanced: every opened bracket is closed in order, no extra
/// or mismatched closer was seen, and the text does not end mid-quote.
pub open spec fn spec_balanced(text: Seq<char>) -> bool {
    let st = scan(text);
    st.stack.len() == 0 && st.quote is None && !st.defect
}

/// What the validator reports of an accumulated statement.
#[derive(Clone, Copy, Debug, PartialEq, Eq, Structural)]
pub enum ValidationOutcome {
    /// Balanced and not mid-quote: the statement submits.
    Complete,
    /// An extra or mismatched closer was seen. No continuation line can
    /// repair it, so the statement submits and the evaluator reports it.
    CompleteWithDefect,
    /// An opener or a quote is still waiting: request a continuation line.
    Incomplete,
}

pub open spec fn validation_of(text: Seq<char>) -> ValidationOutcome {
    let st = scan(text);
    if st.defect {
        ValidationOutcome::CompleteWithDefect
    } else if st.stack.len() == 0 && st.quote is None {
        ValidationOutcome::Complete
    } else {
        ValidationOutcome::Incomplete
    }
}

/// Extending a scanned prefix by one character steps the scan state.
pub proof fn lemma_scan_snoc(text: Seq<char>, i: int)
    requires
        0 <= i < text.len(),
    ensures
        scan(text.take(i + 1)) == scan_step(scan(text.take(i)), text[i]),
{
    assert(text.take(i + 1).drop_last() =~= text.take(i));
    assert(text.take(i + 1).last() == text[i]);
}

/// Runs the scan over a character vector.
fn scan_chars(chars: &Vec<char>) -> (r: (Vec<char>, Option<char>, bool))
    ensures
        r.0@ == scan(chars@).stack,
        r.1 == scan(chars@).quote,
        r.2 == scan(chars@).defect,
{
    let mut stack: Vec<char> = Vec::new();
    let mut quote: Option<char> = None;
    let mut defect = false;
    let n = chars.len();
    let mut i: usize = 0;
    while i < n
        invariant
            i <= n,
            n == chars.len(),
            stack@ == scan(chars@.take(i as int)).stack,
            quote == scan(chars@.take(i as int)).quote,
            defect == scan(chars@.take(i as int)).defect,
        decreases n - i,
    {
        proof {
            lemma_scan_snoc(chars@, i as int);
        }
        let c = chars[i];
        match quote {
            Some(q) => {
                if c == q {
                    quote = None;
                }
            },
            None => {
                if c == '\'' || c == '"' {
                    quote = Some(c);
                } else if c == '(' || c == '[' || c == '{' {
                    stack.push(c);
                } else if c == ')' || c == ']' || c == '}' {
                    let want = if c == ')' {
                        '('
                    } else if c == ']' {
                        '['
                    } else {
                        '{'
                    };
                    let len = stack.len();
                    if len > 0 && stack[len - 1] == want {
                        stack.pop();
                        proof {
                            assert(stack@ =~= scan(chars@.take(i + 1)).stack);
                        }
                    } else {
                        defect = true;
                    }
                }
            },
        }
        i = i + 1;
    }
    proof {
        assert(chars@.take(n as int) =~= chars@);
    }
    (stack, quote, defect)
}

/// True iff the text is structurally balanced: every opened bracket closed in
/// order, no extra or mismatched closer, and no unterminated quote.
pub fn is_balanced(text: &str) -> (r: bool)
    ensures
        r == spec_balanced(text@),
{
    let chars = chars_of(text);
    let (stack, quote, defect) = scan_chars(&chars);
    stack.len() == 0 && quote.is_none() && !defect
}

/// The continuation decision for an accumulated statement.
pub fn validate(text: &str) -> (v: ValidationOutcome)
    ensures
        v == validation_of(text@),
{
    let chars = chars_of(text);
    let (stack, quote, defect) = scan_chars(&chars);
    if defect {
        ValidationOutcome::CompleteWithDefect
    } else if stack.len() == 0 && quote.is_none() {
        ValidationOutcome::Complete
    } else {
        ValidationOutcome::Incomplete
    }
}

/// A balanced text is a complete statement: the validator submits it at once.
pub proof fn lemma_balanced_is_complete(text: Seq<char>)
    ensures
        spec_balanced(text) <==> validation_of(text) is Complete,
{
}

/// The state of the pairing scan: the still-open brackets with their
/// positions, the quoted region the scan is inside, and the matched pairs
/// found so far, keyed by position in both directions.
pub struct PairState {
    pub stack: Seq<(char, int)>,
    pub quote: Option<char>,
    pub pairs: Map<int, int>,
}

pub open spec fn pair_init() -> PairState {
    PairState { stack: Seq::empty(), quote: None, pairs: Map::empty() }
}

/// One character of the pairing scan, at absolute position `pos`.
pub open spec fn pair_step(st: PairState, c: char, pos: int) -> PairState {
    if st.quote is Some {
        if c == st.quote->0 {
            PairState { quote: None, ..st }
        } else {
            st
        }
    } else if is_quote(c) {
        PairState { quote: Some(c), ..st }
    } else if is_opener(c) {
        PairState { stack: st.stack.push((c, pos)), ..st }
    } else if is_closer(c) {
        if st.stack.len() > 0 && st.stack.last().0 == opener_for(c) {
            PairState {
                stack: st.stack.drop_last(),
                pairs: st.pairs.insert(st.stack.last().1, pos).insert(pos, st.stack.last().1),
                ..st
            }
        } else {
            st
        }
    } else {
        st
    }
}

pub open spec fn pair_scan(text: Seq<char>) -> PairState
    decreases text.len(),
{
    if text.len() == 0 {
        pair_init()
    } else {
        pair_step(pair_scan(text.drop_last()), text.last(), text.len() - 1)
    }
}

/// The matching position for the bracket at `p`, if that bracket is matched.
pub open spec fn partner_of(text: Seq<char>, p: int) -> Option<int> {
    let st = pair_scan(text);
    if st.pairs.dom().contains(p) {
        Some(st.pairs[p])
    } else {
        None
    }
}

/// Book-keeping facts of the pairing scan over the first `n` characters:
/// stack positions are in range, strictly increasing and still unmatched,
/// and every recorded pair lies in range.
pub open spec fn pair_inv(st: PairState, n: int) -> bool {
    &&& forall|j: int| 0 <= j < st.stack.len() ==> 0 <= (#[trigger] st.stack[j]).1 < n
    &&& forall|j: int, l: int|
        0 <= j < l < st.stack.len() ==> (#[trigger] st.stack[j]).1 < (#[trigger] st.stack[l]).1
    &&& forall|j: int|
        0 <= j < st.stack.len() ==> !st.pairs.dom().contains((#[trigger] st.stack[j]).1)
    &&& forall|k: int|
        #[trigger] st.pairs.dom().contains(k) ==> 0 <= k < n && 0 <= st.pairs[k] < n
}

proof fn lemma_pair_step_inv(st: PairState, c: char, pos: int)
    requires
        pair_inv(st, pos),
        pos >= 0,
    ensures
        pair_inv(pair_step(st, c, pos), pos + 1),
{
    let st2 = pair_step(st, c, pos);
    if st.quote is None && !is_quote(c) && is_opener(c) {
        assert(st2.pairs == st.pairs);
        assert(st2.stack == st.stack.push((c, pos)));
        assert forall|j: int, l: int|
            0 <= j < l < st2.stack.len() implies (#[trigger] st2.stack[j]).1 < (
        #[trigger] st2.stack[l]).1 by {
            if l < st.stack.len() {
            } else {
                assert(st2.stack[l] == (c, pos));
                assert(st2.stack[j] == st.stack[j]);
            }
        }
        assert forall|j: int|
            0 <= j < st2.stack.len() implies !st2.pairs.dom().contains(
            (#[trigger] st2.stack[j]).1,
        ) by {
            if j < st.stack.len() {
                assert(st2.stack[j] == st.stack[j]);
            } else {
                assert(st2.stack[j] == (c, pos));
                if st.pairs.dom().contains(pos) {
                    assert(st.pairs[pos] == st.pairs[pos]);
                    assert(false);
                }
            }
        }
    } else if st.quote is None && !is_quote(c) && is_closer(c) && st.stack.len() > 0
        && st.stack.last().0 == opener_for(c) {
        let o = st.stack.last().1;
        assert(0 <= o < pos);
        assert(st2.pairs == st.pairs.insert(o, pos).insert(pos, o));
        assert forall|j: int|
            0 <= j < st2.stack.len() implies !st2.pairs.dom().contains(
            (#[trigger] st2.stack[j]).1,
        ) by {
            assert(st2.stack[j] == st.stack[j]);
            assert(st.stack[j].1 < st.stack[st.stack.len() - 1].1);
            assert(st.stack[j].1 != o);
            assert(st.stack[j].1 != pos);
        }
        assert forall|k: int|
            st2.pairs.dom().contains(k) implies 0 <= k < pos + 1 && 0 <= #[trigger] st2.pairs[k]
            < pos + 1 by {
            if k == pos {
                assert(st2.pairs[k] == o);
            } else if k == o {
                assert(st2.pairs[k] == pos);
            } else {
                assert(st.pairs.dom().contains(k));
                assert(st2.pairs[k] == st.pairs[k]);
            }
        }
    }
}

pub proof fn lemma_pair_scan_inv(text: Seq<char>)
    ensures
        pair_inv(pair_scan(text), text.len() as int),
    decreases text.len(),
{
    if text.len() > 0 {
        lemma_pair_scan_inv(text.drop_last());
        lemma_pair_step_inv(
            pair_scan(text.drop_last()),
            text.last(),
            text.len() - 1,
        );
    }
}

/// Extending a scanned prefix by one character steps the pairing scan.
pub proof fn lemma_pair_snoc(text: Seq<char>, i: int)
    requires
        0 <= i < text.len(),
    ensures
        pair_scan(text.take(i + 1)) == pair_step(pair_scan(text.take(i)), text[i], i),
{
    assert(text.take(i + 1).drop_last() =~= text.take(i));
    assert(text.take(i + 1).last() == text[i]);
    assert(text.take(i + 1).len() - 1 == i);
}

/// The position whose bracket matches the one at `p`, if any. A bracket
/// inside a quoted region, or one whose partner is missing or of the wrong
/// kind, has none.
pub fn find_partner(chars: &Vec<char>, p: usize) -> (r: Option<usize>)
    ensures
        r matches Some(q) ==> partner_of(chars@, p as int) == Some(q as int),
        r is None ==> partner_of(chars@, p as int) is None,
{
    let n = chars.len();
    let mut stack: Vec<(char, usize)> = Vec::new();
    let mut quote: Option<char> = None;
    let mut found: Option<usize> = None;
    let mut i: usize = 0;
    proof {
        assert(stack@.map_values(|e: (char, usize)| (e.0, e.1 as int)) =~= pair_scan(
            chars@.take(0),
        ).stack);
    }
    while i < n
        invariant
            i <= n,
            n == chars@.len(),
            stack@.map_values(|e: (char, usize)| (e.0, e.1 as int)) == pair_scan(
                chars@.take(i as int),
            ).stack,
            quote == pair_scan(chars@.take(i as int)).quote,
            found matches Some(q) ==> pair_scan(chars@.take(i as int)).pairs.dom().contains(
                p as int,
            ) && pair_scan(chars@.take(i as int)).pairs[p as int] == q as int,
            found is None ==> !pair_scan(chars@.take(i as int)).pairs.dom().contains(p as int),
        decreases n - i,
    {
        let ghost st = pair_scan(chars@.take(i as int));
        proof {
            lemma_pair_snoc(chars@, i as int);
            lemma_pair_scan_inv(chars@.take(i as int));
            assert(chars@.take(i as int).len() == i as int);
        }
        let c = chars[i];
        match quote {
            Some(q) => {
                if c == q {
                    quote = None;
                }
            },
            None => {
                if c == '\'' || c == '"' {
                    quote = Some(c);
                } else if c == '(' || c == '[' || c == '{' {
                    stack.push((c, i));
                    proof {
                        assert(stack@.map_values(|e: (char, usize)| (e.0, e.1 as int)) =~= st.stack.push(
                            (c, i as int),
                        ));
                    }
                } else if c == ')' || c == ']' || c == '}' {
                    let want = if c == ')' {
                        '('
                    } else if c == ']' {
                        '['
                    } else {
                        '{'
                    };
                    let len = stack.len();
                    proof {
                        assert(stack@.len() == st.stack.len());
                        if len > 0 {
                            assert(st.stack.last() == (stack@[len - 1].0, stack@[len - 1].1 as int));
                        }
                    }
                    if len > 0 && stack[len - 1].0 == want {
                        let top = stack[len - 1];
                        stack.pop();
                        proof {
                            assert(stack@.map_values(|e: (char, usize)| (e.0, e.1 as int))
                                =~= st.stack.drop_last());
                        }
                        if top.1 == p {
                            found = Some(i);
                        } else if i == p {
                            found = Some(top.1);
                        }
                    }
                }
            },
        }
        i = i + 1;
    }
    proof {
        assert(chars@.take(n as int) =~= chars@);
    }
    found
}

} // verus!
