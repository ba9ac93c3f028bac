//! Keyword and bracket highlighter.
//!
//! Rendering inserts ANSI style sequences into the line: each whole-word
//! occurrence of a configured keyword is wrapped in the keyword style, the
//! bracket adjacent to the cursor and its structural partner are wrapped in
//! the matched style, and a cursor bracket without a partner is wrapped in
//! the error style. A keyword occurrence that sits inside a longer
//! identifier is never decorated.

use vstd::prelude::*;

use crate::bracket::find_partner;
use crate::bracket::is_closer;
use crate::bracket::is_opener;
use crate::bracket::partner_of;
use crate::text::chars_of;
use crate::text::is_word_char;
use crate::text::lemma_filter_take_snoc;
use crate::text::string_from_chars;
use crate::text::word_char;

verus! {

pub open spec fn keyword_style() -> Seq<char> {
    seq!['\u{1b}', '[', '1', ';', '3', '1', 'm']
}

pub open spec fn match_style() -> Seq<char> {
    seq!['\u{1b}', '[', '1', ';', '3', '4', 'm']
}

pub open spec fn error_style() -> Seq<char> {
    seq!['\u{1b}', '[', '9', '1', 'm']
}

pub open spec fn reset_style() -> Seq<char> {
    seq!['\u{1b}', '[', '0', 'm']
}

pub open spec fn hint_style() -> Seq<char> {
    seq!['\u{1b}', '[', '1', 'm']
}

pub open spec fn hint_reset() -> Seq<char> {
    seq!['\u{1b}', '[', 'm']
}

/// `kw` occurs at `i` as a whole word: the characters match and neither
/// neighbour is a word character.
pub open spec fn kw_matches_at(line: Seq<char>, kw: Seq<char>, i: int) -> bool {
    &&& kw.len() > 0
    &&& 0 <= i
    &&& i + kw.len() <= line.len()
    &&& line.subrange(i, i + kw.len()) == kw
    &&& (i == 0 || !is_word_char(line[i - 1]))
    &&& (i + kw.len() == line.len() || !is_word_char(line[i + kw.len()]))
}

/// The first keyword (scanning the list from `k`) that whole-word matches
/// at position `i`.
pub open spec fn first_kw_at(line: Seq<char>, kws: Seq<Seq<char>>, k: int, i: int) -> Option<int>
    decreases kws.len() - k,
{
    if k < 0 || k >= kws.len() {
        None
    } else if kw_matches_at(line, kws[k], i) {
        Some(k)
    } else {
        first_kw_at(line, kws, k + 1, i)
    }
}

pub proof fn lemma_first_kw_at_some(line: Seq<char>, kws: Seq<Seq<char>>, k: int, i: int)
    requires
        first_kw_at(line, kws, k, i) is Some,
    ensures
        ({
            let m = first_kw_at(line, kws, k, i)->0;
            &&& 0 <= m < kws.len()
            &&& kw_matches_at(line, kws[m], i)
        }),
    decreases kws.len() - k,
{
    if !(k < 0 || k >= kws.len()) && !kw_matches_at(line, kws[k], i) {
        lemma_first_kw_at_some(line, kws, k + 1, i);
    }
}

/// What one undecorated position renders to: the character, wrapped in the
/// matched or error style when it is an emphasized bracket position.
pub open spec fn char_render(
    line: Seq<char>,
    m1: Option<int>,
    m2: Option<int>,
    er: Option<int>,
    i: int,
) -> Seq<char> {
    if m1 == Some(i) || m2 == Some(i) {
        match_style() + seq![line[i]] + reset_style()
    } else if er == Some(i) {
        error_style() + seq![line[i]] + reset_style()
    } else {
        seq![line[i]]
    }
}

/// The rendering of the line from position `i` on: keyword occurrences are
/// wrapped whole, every other position renders by `char_render`.
pub open spec fn render_from(
    line: Seq<char>,
    kws: Seq<Seq<char>>,
    m1: Option<int>,
    m2: Option<int>,
    er: Option<int>,
    i: int,
) -> Seq<char>
    decreases line.len() - i,
{
    if i < 0 || i >= line.len() {
        Seq::empty()
    } else {
        match first_kw_at(line, kws, 0, i) {
            Some(k) => {
                if 0 <= k < kws.len() && kw_matches_at(line, kws[k], i) {
                    keyword_style() + kws[k] + reset_style() + render_from(
                        line,
                        kws,
                        m1,
                        m2,
                        er,
                        i + kws[k].len(),
                    )
                } else {
                    char_render(line, m1, m2, er, i) + render_from(line, kws, m1, m2, er, i + 1)
                }
            },
            None => char_render(line, m1, m2, er, i) + render_from(line, kws, m1, m2, er, i + 1),
        }
    }
}

/// The bracket the cursor is adjacent to: the one under the cursor, else
/// the one just before it.
pub open spec fn cursor_bracket(line: Seq<char>, pos: int) -> Option<int> {
    if 0 <= pos < line.len() && (is_opener(line[pos]) || is_closer(line[pos])) {
        Some(pos)
    } else if 0 <= pos - 1 < line.len() && (is_opener(line[pos - 1]) || is_closer(line[pos - 1])) {
        Some(pos - 1)
    } else {
        None
    }
}

/// The full rendering of a line for a cursor position.
pub open spec fn spec_highlight(line: Seq<char>, kws: Seq<Seq<char>>, pos: int) -> Seq<char> {
    match cursor_bracket(line, pos) {
        Some(b) => match partner_of(line, b) {
            Some(q) => render_from(line, kws, Some(b), Some(q), None, 0),
            None => render_from(line, kws, None, None, Some(b), 0),
        },
        None => render_from(line, kws, None, None, None, 0),
    }
}

/// A usable keyword: non-empty and made of word characters only, so that a
/// keyword can never contain a bracket or a quote.
pub open spec fn wf_keyword(kw: Seq<char>) -> bool {
    kw.len() > 0 && forall|j: int| 0 <= j < kw.len() ==> is_word_char(#[trigger] kw[j])
}

/// The shell's default highlighted keywords, in order.
pub open spec fn default_keywords() -> Seq<Seq<char>> {
    seq!["select"@, "from"@]
}

/// The default keywords are non-empty words.
pub proof fn lemma_default_keywords_wf()
    ensures
        wf_keyword("select"@),
        wf_keyword("from"@),
{
    reveal_strlit("select");
    reveal_strlit("from");
    assert forall|j: int| 0 <= j < "select"@.len() implies is_word_char(
        #[trigger] "select"@[j],
    ) by {
        if j == 0 {
            assert("select"@[j] == 's');
        } else if j == 1 {
            assert("select"@[j] == 'e');
        } else if j == 2 {
            assert("select"@[j] == 'l');
        } else if j == 3 {
            assert("select"@[j] == 'e');
        } else if j == 4 {
            assert("select"@[j] == 'c');
        } else {
            assert("select"@[j] == 't');
        }
    }
    assert forall|j: int| 0 <= j < "from"@.len() implies is_word_char(#[trigger] "from"@[j]) by {
        if j == 0 {
            assert("from"@[j] == 'f');
        } else if j == 1 {
            assert("from"@[j] == 'r');
        } else if j == 2 {
            assert("from"@[j] == 'o');
        } else {
            assert("from"@[j] == 'm');
        }
    }
}

/// Whether re-rendering is needed at `pos`: it is forced, the character
/// there is a bracket, or the position lies within or adjacent to a
/// whole-word keyword occurrence.
pub open spec fn needs_highlight(
    line: Seq<char>,
    kws: Seq<Seq<char>>,
    pos: int,
    forced: bool,
) -> bool {
    ||| forced
    ||| (0 <= pos < line.len() && (is_opener(line[pos]) || is_closer(line[pos])))
    ||| exists|k: int, i: int| in_kw_span(line, kws, k, i, pos)
}

/// Position `pos` lies within or adjacent to an occurrence of keyword `k`
/// starting at `i`.
pub open spec fn in_kw_span(
    line: Seq<char>,
    kws: Seq<Seq<char>>,
    k: int,
    i: int,
    pos: int,
) -> bool {
    &&& 0 <= k < kws.len()
    &&& kw_matches_at(line, kws[k], i)
    &&& i <= pos <= i + kws[k].len()
}

pub struct ShellHighlighter {
    keywords: Vec<Vec<char>>,
}

impl View for ShellHighlighter {
    type V = Seq<Seq<char>>;

    closed spec fn view(&self) -> Seq<Seq<char>> {
        self.keywords@.map_values(|e: Vec<char>| e@)
    }
}

impl ShellHighlighter {
    pub open spec fn wf(&self) -> bool {
        forall|k: int| 0 <= k < self@.len() ==> wf_keyword(#[trigger] self@[k])
    }

    /// A highlighter for the given keyword set. Keywords that are empty or
    /// hold a non-word character can never whole-word match and are
    /// dropped.
    pub fn from_keywords(kws: Vec<String>) -> (h: ShellHighlighter)
        ensures
            h.wf(),
            h@ == kws@.map_values(|e: String| e@).filter(|kw: Seq<char>| wf_keyword(kw)),
    {
        let ghost pred = |kw: Seq<char>| wf_keyword(kw);
        let mut keywords: Vec<Vec<char>> = Vec::new();
        let n = kws.len();
        let mut k: usize = 0;
        while k < n
            invariant
                k <= n,
                n == kws@.len(),
                keywords@.map_values(|e: Vec<char>| e@) == kws@.map_values(
                    |e: String| e@,
                ).take(k as int).filter(pred),
                pred == (|kw: Seq<char>| wf_keyword(kw)),
                forall|j: int|
                    0 <= j < keywords@.len() ==> wf_keyword(
                        (#[trigger] keywords@[j])@,
                    ),
            decreases n - k,
        {
            proof {
                lemma_filter_take_snoc(kws@.map_values(|e: String| e@), pred, k as int);
                assert(kws@.map_values(|e: String| e@)[k as int] == kws@[k as int]@);
            }
            let cs = chars_of(kws[k].as_str());
            if keyword_ok(&cs) {
                keywords.push(cs);
                proof {
                    assert(keywords@.map_values(|e: Vec<char>| e@) =~= kws@.map_values(
                        |e: String| e@,
                    ).take(k as int).filter(pred).push(kws@[k as int]@));
                }
            }
            k = k + 1;
        }
        proof {
            assert(kws@.map_values(|e: String| e@).take(n as int) =~= kws@.map_values(
                |e: String| e@,
            ));
        }
        ShellHighlighter { keywords }
    }

    /// The default keyword set of the shell: exactly the case-sensitive
    /// statement-leading tokens `select` and `from`.
    pub fn new() -> (h: ShellHighlighter)
        ensures
            h.wf(),
            h@ == default_keywords(),
    {
        let select = chars_of("select");
        let from = chars_of("from");
        let mut keywords: Vec<Vec<char>> = Vec::new();
        keywords.push(select);
        keywords.push(from);
        let h = ShellHighlighter { keywords };
        proof {
            lemma_default_keywords_wf();
            assert(h@ =~= default_keywords());
            assert forall|k: int| 0 <= k < h@.len() implies wf_keyword(#[trigger] h@[k]) by {
                if k == 0 {
                    assert(h@[0] == "select"@);
                } else {
                    assert(h@[1] == "from"@);
                }
            }
        }
        h
    }

    /// The configured keywords.
    pub fn keyword_count(&self) -> (n: usize)
        ensures
            n == self@.len(),
    {
        self.keywords.len()
    }

    /// Renders the line for the given cursor position: whole-word keyword
    /// occurrences wrapped in the keyword style, the cursor bracket and its
    /// partner in the matched style, an unmatched cursor bracket in the
    /// error style.
    #[verifier::rlimit(30)]
    pub fn highlight(&self, line: &str, pos: usize) -> (r: String)
        requires
            self.wf(),
        ensures
            r@ == spec_highlight(line@, self@, pos as int),
    {
        let chars = chars_of(line);
        let n = chars.len();
        let b: Option<usize> = if pos < n && bracket_char(chars[pos]) {
            Some(pos)
        } else if pos >= 1 && pos - 1 < n && bracket_char(chars[pos - 1]) {
            Some(pos - 1)
        } else {
            None
        };
        proof {
            assert(match b {
                Some(v) => cursor_bracket(line@, pos as int) == Some(v as int),
                None => cursor_bracket(line@, pos as int) is None,
            });
        }
        let mut m1: Option<usize> = None;
        let mut m2: Option<usize> = None;
        let mut er: Option<usize> = None;
        match b {
            Some(bp) => {
                match find_partner(&chars, bp) {
                    Some(q) => {
                        m1 = Some(bp);
                        m2 = Some(q);
                    },
                    None => {
                        er = Some(bp);
                    },
                }
            },
            None => {},
        }
        let ghost gm1 = opt_int(m1);
        let ghost gm2 = opt_int(m2);
        let ghost ger = opt_int(er);
        proof {
            assert(spec_highlight(line@, self@, pos as int) == render_from(
                line@,
                self@,
                gm1,
                gm2,
                ger,
                0,
            ));
        }
        let mut out: Vec<char> = Vec::new();
        let mut i: usize = 0;
        while i < n
            invariant
                i <= n,
                n == chars@.len(),
                chars@ == line@,
                self.wf(),
                gm1 == opt_int(m1),
                gm2 == opt_int(m2),
                ger == opt_int(er),
                out@ + render_from(line@, self@, gm1, gm2, ger, i as int) == render_from(
                    line@,
                    self@,
                    gm1,
                    gm2,
                    ger,
                    0,
                ),
            decreases n - i,
        {
            let ghost pre = out@;
            match self.first_kw_match(&chars, i) {
                Some(k) => {
                    proof {
                        lemma_first_kw_at_some(line@, self@, 0, i as int);
                        assert(self@[k as int] == self.keywords@[k as int]@);
                    }
                    push_keyword_style(&mut out);
                    let kw_len = self.keywords[k].len();
                    let ghost kwv = self@[k as int];
                    let ghost base = out@;
                    let mut j: usize = 0;
                    while j < kw_len
                        invariant
                            j <= kw_len,
                            k < self.keywords@.len(),
                            kw_len == kwv.len(),
                            kwv == self.keywords@[k as int]@,
                            out@ == base + kwv.take(j as int),
                        decreases kw_len - j,
                    {
                        out.push(self.keywords[k][j]);
                        proof {
                            assert(out@ =~= base + kwv.take(j + 1));
                        }
                        j = j + 1;
                    }
                    proof {
                        assert(kwv.take(kw_len as int) =~= kwv);
                    }
                    push_reset_style(&mut out);
                    proof {
                        assert(out@ =~= pre + (keyword_style() + kwv + reset_style()));
                        assert(kw_matches_at(line@, kwv, i as int));
                        assert(render_from(line@, self@, gm1, gm2, ger, i as int)
                            == keyword_style() + kwv + reset_style() + render_from(
                            line@,
                            self@,
                            gm1,
                            gm2,
                            ger,
                            i + kwv.len(),
                        ));
                        assert(out@ + render_from(line@, self@, gm1, gm2, ger, i + kwv.len() as int)
                            =~= pre + render_from(line@, self@, gm1, gm2, ger, i as int));
                    }
                    i = i + kw_len;
                },
                None => {
                    let is_m = match m1 {
                        Some(v) => v == i,
                        None => false,
                    } || match m2 {
                        Some(v) => v == i,
                        None => false,
                    };
                    let is_e = match er {
                        Some(v) => v == i,
                        None => false,
                    };
                    push_char_render(&mut out, chars[i], is_m, is_e);
                    proof {
                        assert(out@ == pre + char_render(line@, gm1, gm2, ger, i as int));
                        assert(render_from(line@, self@, gm1, gm2, ger, i as int) == char_render(
                            line@,
                            gm1,
                            gm2,
                            ger,
                            i as int,
                        ) + render_from(line@, self@, gm1, gm2, ger, i + 1));
                        assert(out@ + render_from(line@, self@, gm1, gm2, ger, i + 1) =~= pre
                            + render_from(line@, self@, gm1, gm2, ger, i as int));
                    }
                    i = i + 1;
                },
            }
        }
        proof {
            assert(render_from(line@, self@, gm1, gm2, ger, n as int) =~= Seq::<char>::empty());
            assert(out@ =~= render_from(line@, self@, gm1, gm2, ger, 0));
        }
        string_from_chars(&out)
    }

    /// Whether re-rendering is required at `pos`: true when forced, when a
    /// bracket sits at `pos`, or when `pos` lies within or adjacent to a
    /// whole-word keyword occurrence.
    pub fn highlight_char(&self, line: &str, pos: usize, forced: bool) -> (r: bool)
        requires
            self.wf(),
        ensures
            r == needs_highlight(line@, self@, pos as int, forced),
    {
        if forced {
            return true;
        }
        let chars = chars_of(line);
        let n = chars.len();
        if pos < n && bracket_char(chars[pos]) {
            return true;
        }
        let mut i: usize = 0;
        while i < n
            invariant
                i <= n,
                n == chars@.len(),
                chars@ == line@,
                self.wf(),
                forall|k: int, s: int| s < i ==> !in_kw_span(line@, self@, k, s, pos as int),
            decreases n - i,
        {
            match self.first_kw_match(&chars, i) {
                Some(k) => {
                    proof {
                        lemma_first_kw_at_some(line@, self@, 0, i as int);
                    }
                    let kw_len = self.keywords[k].len();
                    proof {
                        assert(self@[k as int] == self.keywords@[k as int]@);
                    }
                    if i <= pos && pos <= i + kw_len {
                        proof {
                            assert(in_kw_span(line@, self@, k as int, i as int, pos as int));
                        }
                        return true;
                    }
                },
                None => {},
            }
            proof {
                lemma_no_kw_no_span(line@, self@, i as int, pos as int);
            }
            i = i + 1;
        }
        proof {
            assert forall|k: int, s: int| !in_kw_span(line@, self@, k, s, pos as int) by {
                if 0 <= k < self@.len() && kw_matches_at(line@, self@[k], s) {
                    assert(s < n);
                }
            }
        }
        false
    }

    /// The first configured keyword that whole-word matches at `i`.
    fn first_kw_match(&self, chars: &Vec<char>, i: usize) -> (r: Option<usize>)
        requires
            self.wf(),
        ensures
            match r {
                Some(k) => first_kw_at(chars@, self@, 0, i as int) == Some(k as int) && k
                    < self@.len(),
                None => first_kw_at(chars@, self@, 0, i as int) is None,
            },
    {
        let n = self.keywords.len();
        let mut k: usize = 0;
        while k < n
            invariant
                k <= n,
                n == self@.len(),
                self.wf(),
                first_kw_at(chars@, self@, 0, i as int) == first_kw_at(
                    chars@,
                    self@,
                    k as int,
                    i as int,
                ),
            decreases n - k,
        {
            proof {
                assert(self@[k as int] == self.keywords@[k as int]@);
            }
            if kw_match_exec(chars, &self.keywords[k], i) {
                return Some(k);
            }
            k = k + 1;
        }
        None
    }
}

/// A position at which no keyword starts contributes no keyword span
/// covering `pos` with that start.
proof fn lemma_no_kw_no_span(line: Seq<char>, kws: Seq<Seq<char>>, s: int, pos: int)
    requires
        forall|k: int| 0 <= k < kws.len() ==> wf_keyword(#[trigger] kws[k]),
        first_kw_at(line, kws, 0, s) is None || !in_kw_span(
            line,
            kws,
            first_kw_at(line, kws, 0, s)->0,
            s,
            pos,
        ),
    ensures
        forall|k: int| !in_kw_span(line, kws, k, s, pos),
{
    assert forall|k: int| !in_kw_span(line, kws, k, s, pos) by {
        if 0 <= k < kws.len() && kw_matches_at(line, kws[k], s) {
            lemma_first_kw_gives_same_span(line, kws, 0, k, s);
            lemma_first_kw_at_some(line, kws, 0, s);
            let m = first_kw_at(line, kws, 0, s)->0;
            assert(!in_kw_span(line, kws, m, s, pos));
            assert(kws[m].len() == kws[k].len());
            assert(!(s <= pos <= s + kws[k].len()));
        }
    }
}

/// If some keyword whole-word matches at `s`, the first matching keyword
/// also matches there with the same length.
proof fn lemma_first_kw_gives_same_span(line: Seq<char>, kws: Seq<Seq<char>>, k0: int, k: int, s: int)
    requires
        forall|m: int| 0 <= m < kws.len() ==> wf_keyword(#[trigger] kws[m]),
        0 <= k0 <= k < kws.len(),
        kw_matches_at(line, kws[k], s),
    ensures
        first_kw_at(line, kws, k0, s) matches Some(m) && kws[m].len() == kws[k].len(),
    decreases k - k0,
{
    if kw_matches_at(line, kws[k0], s) {
        lemma_same_start_same_len(line, kws[k0], kws[k], s);
    } else {
        lemma_first_kw_gives_same_span(line, kws, k0 + 1, k, s);
    }
}

/// Two word-character keywords that whole-word match at the same position
/// are equally long: a shorter one would be followed by a word character
/// of the longer, violating its right whole-word boundary.
proof fn lemma_same_start_same_len(line: Seq<char>, a: Seq<char>, b: Seq<char>, s: int)
    requires
        wf_keyword(a),
        wf_keyword(b),
        kw_matches_at(line, a, s),
        kw_matches_at(line, b, s),
    ensures
        a.len() == b.len(),
{
    if a.len() < b.len() {
        assert(line[s + a.len()] == b[a.len() as int]) by {
            assert(line.subrange(s, s + b.len())[a.len() as int] == line[s + a.len()]);
        }
        assert(is_word_char(b[a.len() as int]));
        assert(s + a.len() < line.len());
        assert(!is_word_char(line[s + a.len()]));
        assert(false);
    } else if b.len() < a.len() {
        assert(line[s + b.len()] == a[b.len() as int]) by {
            assert(line.subrange(s, s + a.len())[b.len() as int] == line[s + b.len()]);
        }
        assert(is_word_char(a[b.len() as int]));
        assert(s + b.len() < line.len());
        assert(!is_word_char(line[s + b.len()]));
        assert(false);
    }
}

/// Whether `kw` whole-word matches `chars` at `i`.
fn kw_match_exec(chars: &Vec<char>, kw: &Vec<char>, i: usize) -> (r: bool)
    ensures
        r == kw_matches_at(chars@, kw@, i as int),
{
    let n = chars.len();
    let m = kw.len();
    if m == 0 || i >= n || m > n - i {
        return false;
    }
    let mut j: usize = 0;
    while j < m
        invariant
            j <= m,
            m == kw@.len(),
            m > 0,
            i + m <= n,
            n == chars@.len(),
            forall|l: int| 0 <= l < j ==> chars@[i + l] == kw@[l],
        decreases m - j,
    {
        if chars[i + j] != kw[j] {
            proof {
                assert(chars@.subrange(i as int, i + m)[j as int] == chars@[i + j]);
            }
            return false;
        }
        j = j + 1;
    }
    proof {
        assert(chars@.subrange(i as int, i + m) =~= kw@);
    }
    if i > 0 && word_char(chars[i - 1]) {
        return false;
    }
    if i + m < n && word_char(chars[i + m]) {
        return false;
    }
    true
}

/// Whether the character is a bracket of either kind.
fn bracket_char(c: char) -> (r: bool)
    ensures
        r == (is_opener(c) || is_closer(c)),
{
    c == '(' || c == '[' || c == '{' || c == ')' || c == ']' || c == '}'
}

/// Whether the keyword is non-empty and all word characters.
fn keyword_ok(kw: &Vec<char>) -> (r: bool)
    ensures
        r == wf_keyword(kw@),
{
    let m = kw.len();
    if m == 0 {
        return false;
    }
    let mut j: usize = 0;
    while j < m
        invariant
            j <= m,
            m == kw@.len(),
            forall|l: int| 0 <= l < j ==> is_word_char(#[trigger] kw@[l]),
        decreases m - j,
    {
        if !word_char(kw[j]) {
            return false;
        }
        j = j + 1;
    }
    true
}

spec fn opt_int(o: Option<usize>) -> Option<int> {
    match o {
        Some(v) => Some(v as int),
        None => None,
    }
}

/// The bold style wrapped around a hint, as shown beside the live line.
pub fn styled_hint(hint: &str) -> (r: String)
    ensures
        r@ == hint_style() + hint@ + hint_reset(),
{
    let cs = chars_of(hint);
    let mut out: Vec<char> = Vec::new();
    out.push('\u{1b}');
    out.push('[');
    out.push('1');
    out.push('m');
    proof {
        assert(out@ =~= hint_style());
    }
    let ghost base = out@;
    let n = cs.len();
    let mut i: usize = 0;
    while i < n
        invariant
            i <= n,
            n == cs@.len(),
            cs@ == hint@,
            out@ == base + cs@.take(i as int),
        decreases n - i,
    {
        out.push(cs[i]);
        proof {
            assert(out@ =~= base + cs@.take(i + 1));
        }
        i = i + 1;
    }
    proof {
        assert(cs@.take(n as int) =~= cs@);
    }
    out.push('\u{1b}');
    out.push('[');
    out.push('m');
    proof {
        assert(out@ =~= hint_style() + hint@ + hint_reset());
    }
    string_from_chars(&out)
}

fn push_keyword_style(out: &mut Vec<char>)
    ensures
        final(out)@ == old(out)@ + keyword_style(),
{
    out.push('\u{1b}');
    out.push('[');
    out.push('1');
    out.push(';');
    out.push('3');
    out.push('1');
    out.push('m');
    proof {
        assert(out@ =~= old(out)@ + keyword_style());
    }
}

/// Emits what one undecorated position renders to: the character, wrapped
/// in the matched or error style when asked.
fn push_char_render(out: &mut Vec<char>, c: char, emphasized: bool, erroneous: bool)
    ensures
        final(out)@ == old(out)@ + (if emphasized {
            match_style() + seq![c] + reset_style()
        } else if erroneous {
            error_style() + seq![c] + reset_style()
        } else {
            seq![c]
        }),
{
    if emphasized {
        push_match_style(out);
        out.push(c);
        push_reset_style(out);
        proof {
            assert(out@ =~= old(out)@ + (match_style() + seq![c] + reset_style()));
        }
    } else if erroneous {
        push_error_style(out);
        out.push(c);
        push_reset_style(out);
        proof {
            assert(out@ =~= old(out)@ + (error_style() + seq![c] + reset_style()));
        }
    } else {
        out.push(c);
        proof {
            assert(out@ =~= old(out)@ + seq![c]);
        }
    }
}

fn push_match_style(out: &mut Vec<char>)
    ensures
        final(out)@ == old(out)@ + match_style(),
{
    out.push('\u{1b}');
    out.push('[');
    out.push('1');
    out.push(';');
    out.push('3');
    out.push('4');
    out.push('m');
    proof {
        assert(out@ =~= old(out)@ + match_style());
    }
}

fn push_error_style(out: &mut Vec<char>)
    ensures
        final(out)@ == old(out)@ + error_style(),
{
    out.push('\u{1b}');
    out.push('[');
    out.push('9');
    out.push('1');
    out.push('m');
    proof {
        assert(out@ =~= old(out)@ + error_style());
    }
}

fn push_reset_style(out: &mut Vec<char>)
    ensures
        final(out)@ == old(out)@ + reset_style(),
{
    out.push('\u{1b}');
    out.push('[');
    out.push('0');
    out.push('m');
    proof {
        assert(out@ =~= old(out)@ + reset_style());
    }
}

/// A keyword occurrence that is part of a longer identifier — one with a
/// word character on either side — is never decorated: no whole-word match
/// is recognized at its position, so the renderer emits its characters
/// undecorated rather than wrapped in the keyword style.
pub proof fn lemma_no_decoration_inside_identifier(
    line: Seq<char>,
    kws: Seq<Seq<char>>,
    k: int,
    i: int,
)
    requires
        0 <= k < kws.len(),
        0 <= i,
        i + kws[k].len() <= line.len(),
        line.subrange(i, i + kws[k].len()) == kws[k],
        !((i == 0 || !is_word_char(line[i - 1])) && (i + kws[k].len() == line.len()
            || !is_word_char(line[i + kws[k].len()]))),
    ensures
        !kw_matches_at(line, kws[k], i),
{
}

/// A line on which no keyword whole-word matches anywhere — as in
/// `fromage`, where `from` occurs only inside a longer identifier — renders
/// from any position as its own remaining characters, with no decoration at
/// all, when no bracket is emphasized either.
pub proof fn lemma_undecorated_line_renders_unchanged(
    line: Seq<char>,
    kws: Seq<Seq<char>>,
    i: int,
)
    requires
        0 <= i <= line.len(),
        forall|s: int| first_kw_at(line, kws, 0, s) is None,
    ensures
        render_from(line, kws, None, None, None, i) == line.skip(i),
    decreases line.len() - i,
{
    if i >= line.len() {
        assert(render_from(line, kws, None, None, None, i) =~= line.skip(i));
    } else {
        lemma_undecorated_line_renders_unchanged(line, kws, i + 1);
        assert(line.skip(i) =~= seq![line[i]] + line.skip(i + 1));
    }
}

} // verus!
