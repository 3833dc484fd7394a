//! The highlight engine: per-rendered-character classification with
//! multi-line comment continuation, recomputed incrementally with a bounded
//! forward cascade that provably reaches the same fixed point as a full
//! top-to-bottom pass.

use vstd::prelude::*;
use crate::rows::{Row, Rows};
use crate::text::matches_at;

verus! {

/// The display category of one rendered character.
#[derive(Clone, Copy, PartialEq, Eq, Structural, Debug)]
pub enum HighlightType {
    /// Ordinary text.
    Normal,
    /// Part of a numeric literal.
    Number,
    /// Part of a string or character literal.
    Str,
    /// Part of a comment, single- or multi-line.
    Comment,
    /// Part of a language keyword.
    Keyword,
    /// Part of the span the search engine currently points at.
    SearchMatch,
}

/// The language rules in force for a session, chosen once by file extension.
#[derive(Clone, Copy, PartialEq, Eq, Structural, Debug)]
pub enum Syntax {
    /// Rust-like rules: keywords, numbers, strings, both comment forms.
    Rust,
    /// Markdown-like rules: plain classification only.
    Markdown,
}

/// The tokenizer state between two rendered characters of one line.
#[derive(Clone, Copy, PartialEq, Eq, Structural, Debug)]
pub enum ScanState {
    /// Outside any literal; `sep` records whether the previous character
    /// separates words, `num` whether it belonged to a numeric literal.
    Code { sep: bool, num: bool },
    /// Inside a string or character literal opened by `quote`.
    InString { quote: char },
    /// Inside a multi-line comment.
    InComment,
}

/// The state a line starts in, given whether the previous line ended inside
/// a multi-line comment.
pub open spec fn init_state(open: bool) -> ScanState {
    if open {
        ScanState::InComment
    } else {
        ScanState::Code { sep: true, num: false }
    }
}

/// Characters that separate words for keyword and number recognition.
pub open spec fn is_sep(c: char) -> bool {
    c == ' ' || c == '\t' || c == ',' || c == '.' || c == '(' || c == ')'
        || c == '+' || c == '-' || c == '/' || c == '*' || c == '=' || c == '%'
        || c == '<' || c == '>' || c == '"' || c == '\'' || c == ';' || c == '&'
        || c == '{' || c == '}' || c == '[' || c == ']' || c == ':' || c == '!'
        || c == '|'
}

/// Decimal digits.
pub open spec fn is_digit(c: char) -> bool {
    c == '0' || c == '1' || c == '2' || c == '3' || c == '4' || c == '5'
        || c == '6' || c == '7' || c == '8' || c == '9'
}

/// The word `w` stands at `i` in `r`, ending at a separator or at the line end.
pub open spec fn word_at(r: Seq<char>, i: int, w: Seq<char>) -> bool {
    matches_at(r, w, i) && (i + w.len() == r.len() || is_sep(r[i + w.len()]))
}

pub open spec fn kw_fn() -> Seq<char> { seq!['f', 'n'] }

pub open spec fn kw_let() -> Seq<char> { seq!['l', 'e', 't'] }

pub open spec fn kw_mut() -> Seq<char> { seq!['m', 'u', 't'] }

pub open spec fn kw_if() -> Seq<char> { seq!['i', 'f'] }

pub open spec fn kw_else() -> Seq<char> { seq!['e', 'l', 's', 'e'] }

pub open spec fn kw_return() -> Seq<char> { seq!['r', 'e', 't', 'u', 'r', 'n'] }

/// The length of the keyword standing at `i`, or 0 when none does.
pub open spec fn kw_len_at(r: Seq<char>, i: int) -> int {
    if word_at(r, i, kw_fn()) { 2 }
    else if word_at(r, i, kw_let()) { 3 }
    else if word_at(r, i, kw_mut()) { 3 }
    else if word_at(r, i, kw_if()) { 2 }
    else if word_at(r, i, kw_else()) { 4 }
    else if word_at(r, i, kw_return()) { 6 }
    else { 0 }
}

/// Classifies the rendered characters of one line from position `i` in state
/// `st`, under the Rust-like rules; yields the tags of `r[i..]` and whether
/// the line ends inside a multi-line comment.
pub open spec fn scan(r: Seq<char>, i: int, st: ScanState) -> (Seq<HighlightType>, bool)
    decreases r.len() - i
        when 0 <= i <= r.len()
{
    if i < 0 || i >= r.len() {
        (Seq::empty(), st is InComment)
    } else {
        match st {
            ScanState::InComment => {
                if r[i] == '*' && i + 1 < r.len() && r[i + 1] == '/' {
                    let rest = scan(r, i + 2, ScanState::Code { sep: true, num: false });
                    (seq![HighlightType::Comment, HighlightType::Comment] + rest.0, rest.1)
                } else {
                    let rest = scan(r, i + 1, ScanState::InComment);
                    (seq![HighlightType::Comment] + rest.0, rest.1)
                }
            },
            ScanState::InString { quote } => {
                if r[i] == '\\' && i + 1 < r.len() {
                    let rest = scan(r, i + 2, ScanState::InString { quote });
                    (seq![HighlightType::Str, HighlightType::Str] + rest.0, rest.1)
                } else if r[i] == quote {
                    let rest = scan(r, i + 1, ScanState::Code { sep: true, num: false });
                    (seq![HighlightType::Str] + rest.0, rest.1)
                } else {
                    let rest = scan(r, i + 1, ScanState::InString { quote });
                    (seq![HighlightType::Str] + rest.0, rest.1)
                }
            },
            ScanState::Code { sep, num } => {
                if r[i] == '/' && i + 1 < r.len() && r[i + 1] == '/' {
                    (Seq::new((r.len() - i) as nat, |k: int| HighlightType::Comment), false)
                } else if r[i] == '/' && i + 1 < r.len() && r[i + 1] == '*' {
                    let rest = scan(r, i + 2, ScanState::InComment);
                    (seq![HighlightType::Comment, HighlightType::Comment] + rest.0, rest.1)
                } else if r[i] == '"' || r[i] == '\'' {
                    let rest = scan(r, i + 1, ScanState::InString { quote: r[i] });
                    (seq![HighlightType::Str] + rest.0, rest.1)
                } else if is_digit(r[i]) && (sep || num) {
                    let rest = scan(r, i + 1, ScanState::Code { sep: false, num: true });
                    (seq![HighlightType::Number] + rest.0, rest.1)
                } else if sep && kw_len_at(r, i) > 0 {
                    let k = kw_len_at(r, i);
                    let rest = scan(r, i + k, ScanState::Code { sep: false, num: false });
                    (Seq::new(k as nat, |j: int| HighlightType::Keyword) + rest.0, rest.1)
                } else {
                    let rest = scan(r, i + 1,
                        ScanState::Code { sep: is_sep(r[i]), num: false });
                    (seq![HighlightType::Normal] + rest.0, rest.1)
                }
            },
        }
    }
}

/// Classifies one whole line under `lang`, seeded by the previous line's
/// continuation state; yields the tags and the new continuation state.
pub open spec fn line_scan(lang: Syntax, r: Seq<char>, open: bool)
    -> (Seq<HighlightType>, bool) {
    match lang {
        Syntax::Rust => scan(r, 0, init_state(open)),
        Syntax::Markdown => (Seq::new(r.len(), |k: int| HighlightType::Normal), false),
    }
}

/// A scan always yields exactly one tag per remaining rendered character.
pub proof fn lemma_scan_len(r: Seq<char>, i: int, st: ScanState)
    requires
        0 <= i <= r.len(),
    ensures
        scan(r, i, st).0.len() == r.len() - i,
    decreases r.len() - i,
{
    if i < r.len() {
        match st {
            ScanState::InComment => {
                if r[i] == '*' && i + 1 < r.len() && r[i + 1] == '/' {
                    lemma_scan_len(r, i + 2, ScanState::Code { sep: true, num: false });
                } else {
                    lemma_scan_len(r, i + 1, ScanState::InComment);
                }
            },
            ScanState::InString { quote } => {
                if r[i] == '\\' && i + 1 < r.len() {
                    lemma_scan_len(r, i + 2, ScanState::InString { quote });
                } else if r[i] == quote {
                    lemma_scan_len(r, i + 1, ScanState::Code { sep: true, num: false });
                } else {
                    lemma_scan_len(r, i + 1, ScanState::InString { quote });
                }
            },
            ScanState::Code { sep, num } => {
                if r[i] == '/' && i + 1 < r.len() && r[i + 1] == '/' {
                } else if r[i] == '/' && i + 1 < r.len() && r[i + 1] == '*' {
                    lemma_scan_len(r, i + 2, ScanState::InComment);
                } else if r[i] == '"' || r[i] == '\'' {
                    lemma_scan_len(r, i + 1, ScanState::InString { quote: r[i] });
                } else if is_digit(r[i]) && (sep || num) {
                    lemma_scan_len(r, i + 1, ScanState::Code { sep: false, num: true });
                } else if sep && kw_len_at(r, i) > 0 {
                    lemma_scan_len(r, i + kw_len_at(r, i),
                        ScanState::Code { sep: false, num: false });
                } else {
                    lemma_scan_len(r, i + 1,
                        ScanState::Code { sep: is_sep(r[i]), num: false });
                }
            },
        }
    }
}

/// A line's classification has exactly one tag per rendered character.
pub proof fn lemma_line_scan_len(lang: Syntax, r: Seq<char>, open: bool)
    ensures
        line_scan(lang, r, open).0.len() == r.len(),
{
    if lang is Rust {
        lemma_scan_len(r, 0, init_state(open));
    }
}

fn sep_exec(c: char) -> (b: bool)
    ensures
        b == is_sep(c),
{
    c == ' ' || c == '\t' || c == ',' || c == '.' || c == '(' || c == ')'
        || c == '+' || c == '-' || c == '/' || c == '*' || c == '=' || c == '%'
        || c == '<' || c == '>' || c == '"' || c == '\'' || c == ';' || c == '&'
        || c == '{' || c == '}' || c == '[' || c == ']' || c == ':' || c == '!'
        || c == '|'
}

fn digit_exec(c: char) -> (b: bool)
    ensures
        b == is_digit(c),
{
    c == '0' || c == '1' || c == '2' || c == '3' || c == '4' || c == '5'
        || c == '6' || c == '7' || c == '8' || c == '9'
}

fn is_word(r: &Vec<char>, i: usize, w: &Vec<char>) -> (b: bool)
    ensures
        b == word_at(r@, i as int, w@),
{
    let n = r.len();
    if i > n || w.len() > n - i {
        return false;
    }
    if !crate::text::is_match_at(r, w, i) {
        return false;
    }
    if i + w.len() == n {
        true
    } else {
        sep_exec(r[i + w.len()])
    }
}

/// The length of the keyword standing at `i` in `r`, or 0 when none does.
fn kw_at(r: &Vec<char>, i: usize) -> (k: usize)
    requires
        i <= r@.len(),
    ensures
        k == kw_len_at(r@, i as int),
        i + k <= r@.len(),
{
    let w_fn: Vec<char> = vec!['f', 'n'];
    let w_let: Vec<char> = vec!['l', 'e', 't'];
    let w_mut: Vec<char> = vec!['m', 'u', 't'];
    let w_if: Vec<char> = vec!['i', 'f'];
    let w_else: Vec<char> = vec!['e', 'l', 's', 'e'];
    let w_return: Vec<char> = vec!['r', 'e', 't', 'u', 'r', 'n'];
    proof {
        assert(w_fn@ =~= kw_fn());
        assert(w_let@ =~= kw_let());
        assert(w_mut@ =~= kw_mut());
        assert(w_if@ =~= kw_if());
        assert(w_else@ =~= kw_else());
        assert(w_return@ =~= kw_return());
    }
    if is_word(r, i, &w_fn) { 2 }
    else if is_word(r, i, &w_let) { 3 }
    else if is_word(r, i, &w_mut) { 3 }
    else if is_word(r, i, &w_if) { 2 }
    else if is_word(r, i, &w_else) { 4 }
    else if is_word(r, i, &w_return) { 6 }
    else { 0 }
}

/// Classifies one whole line under `lang`, seeded by whether the previous
/// line ended inside a multi-line comment; returns the tags (one per
/// rendered character) and the line's new continuation state.
#[verifier::rlimit(100)]
pub fn line_classify(lang: Syntax, render: &Vec<char>, open: bool)
    -> (res: (Vec<HighlightType>, bool))
    ensures
        res.0@ == line_scan(lang, render@, open).0,
        res.1 == line_scan(lang, render@, open).1,
{
    let n = render.len();
    let mut tags: Vec<HighlightType> = Vec::new();
    match lang {
        Syntax::Markdown => {
            let mut i: usize = 0;
            while i < n
                invariant
                    0 <= i <= n,
                    n == render@.len(),
                    tags@ =~= Seq::new(i as nat, |k: int| HighlightType::Normal),
                decreases n - i,
            {
                tags.push(HighlightType::Normal);
                i += 1;
            }
            proof {
                assert(tags@ =~= line_scan(lang, render@, open).0);
            }
            (tags, false)
        },
        Syntax::Rust => {
            let mut st: ScanState = if open {
                ScanState::InComment
            } else {
                ScanState::Code { sep: true, num: false }
            };
            let ghost full = scan(render@, 0, init_state(open));
            let mut i: usize = 0;
            while i < n
                invariant
                    lang is Rust,
                    0 <= i <= n,
                    n == render@.len(),
                    tags@.len() == i,
                    full == scan(render@, 0, init_state(open)),
                    full.0 =~= tags@ + scan(render@, i as int, st).0,
                    full.1 == scan(render@, i as int, st).1,
                decreases n - i,
            {
                let ghost tpre = tags@;
                let ghost spre = st;
                let ghost ipre = i as int;
                match st {
                    ScanState::InComment => {
                        if render[i] == '*' && i + 1 < n && render[i + 1] == '/' {
                            tags.push(HighlightType::Comment);
                            tags.push(HighlightType::Comment);
                            st = ScanState::Code { sep: true, num: false };
                            i += 2;
                            proof {
                                assert(tags@ =~= tpre
                                    + seq![HighlightType::Comment, HighlightType::Comment]);
                                assert(full.0 =~= tags@ + scan(render@, i as int, st).0);
                            }
                        } else {
                            tags.push(HighlightType::Comment);
                            i += 1;
                            proof {
                                assert(tags@ =~= tpre + seq![HighlightType::Comment]);
                                assert(full.0 =~= tags@ + scan(render@, i as int, st).0);
                            }
                        }
                    },
                    ScanState::InString { quote } => {
                        if render[i] == '\\' && i + 1 < n {
                            tags.push(HighlightType::Str);
                            tags.push(HighlightType::Str);
                            i += 2;
                            proof {
                                assert(tags@ =~= tpre
                                    + seq![HighlightType::Str, HighlightType::Str]);
                                assert(full.0 =~= tags@ + scan(render@, i as int, st).0);
                            }
                        } else if render[i] == quote {
                            tags.push(HighlightType::Str);
                            st = ScanState::Code { sep: true, num: false };
                            i += 1;
                            proof {
                                assert(tags@ =~= tpre + seq![HighlightType::Str]);
                                assert(full.0 =~= tags@ + scan(render@, i as int, st).0);
                            }
                        } else {
                            tags.push(HighlightType::Str);
                            i += 1;
                            proof {
                                assert(tags@ =~= tpre + seq![HighlightType::Str]);
                                assert(full.0 =~= tags@ + scan(render@, i as int, st).0);
                            }
                        }
                    },
                    ScanState::Code { sep, num } => {
                        if render[i] == '/' && i + 1 < n && render[i + 1] == '/' {
                            while i < n
                                invariant
                                    ipre <= i <= n,
                                    n == render@.len(),
                                    tags@ =~= tpre + Seq::new((i - ipre) as nat,
                                        |k: int| HighlightType::Comment),
                                decreases n - i,
                            {
                                tags.push(HighlightType::Comment);
                                i += 1;
                                proof {
                                    assert(tags@ =~= tpre + Seq::new((i - ipre) as nat,
                                        |k: int| HighlightType::Comment));
                                }
                            }
                            proof {
                                assert(scan(render@, ipre, spre).0 =~= Seq::new(
                                    (n - ipre) as nat, |k: int| HighlightType::Comment));
                                assert(full.0 =~= tags@);
                                assert(full.1 == false);
                            }
                            return (tags, false);
                        } else if render[i] == '/' && i + 1 < n && render[i + 1] == '*' {
                            tags.push(HighlightType::Comment);
                            tags.push(HighlightType::Comment);
                            st = ScanState::InComment;
                            i += 2;
                            proof {
                                assert(tags@ =~= tpre
                                    + seq![HighlightType::Comment, HighlightType::Comment]);
                                assert(full.0 =~= tags@ + scan(render@, i as int, st).0);
                            }
                        } else if render[i] == '"' || render[i] == '\'' {
                            tags.push(HighlightType::Str);
                            st = ScanState::InString { quote: render[i] };
                            i += 1;
                            proof {
                                assert(tags@ =~= tpre + seq![HighlightType::Str]);
                                assert(full.0 =~= tags@ + scan(render@, i as int, st).0);
                            }
                        } else if digit_exec(render[i]) && (sep || num) {
                            tags.push(HighlightType::Number);
                            st = ScanState::Code { sep: false, num: true };
                            i += 1;
                            proof {
                                assert(tags@ =~= tpre + seq![HighlightType::Number]);
                                assert(full.0 =~= tags@ + scan(render@, i as int, st).0);
                            }
                        } else {
                            let k = kw_at(render, i);
                            if sep && k > 0 {
                                let stop = i + k;
                                while i < stop
                                    invariant
                                        ipre <= i <= stop,
                                        stop == ipre + kw_len_at(render@, ipre),
                                        tags@ =~= tpre + Seq::new((i - ipre) as nat,
                                            |j: int| HighlightType::Keyword),
                                    decreases stop - i,
                                {
                                    tags.push(HighlightType::Keyword);
                                    i += 1;
                                    proof {
                                        assert(tags@ =~= tpre + Seq::new((i - ipre) as nat,
                                            |j: int| HighlightType::Keyword));
                                    }
                                }
                                st = ScanState::Code { sep: false, num: false };
                                proof {
                                    assert(full.0 =~= tags@ + scan(render@, i as int, st).0);
                                }
                            } else {
                                tags.push(HighlightType::Normal);
                                st = ScanState::Code { sep: sep_exec(render[i]), num: false };
                                i += 1;
                                proof {
                                    assert(tags@ =~= tpre + seq![HighlightType::Normal]);
                                    assert(full.0 =~= tags@ + scan(render@, i as int, st).0);
                                }
                            }
                        }
                    },
                }
            }
            proof {
                assert(scan(render@, n as int, st).0 =~= Seq::<HighlightType>::empty());
                assert(full.0 =~= tags@);
            }
            let open_out = match st {
                ScanState::InComment => true,
                _ => false,
            };
            (tags, open_out)
        },
    }
}

/// The raw text of every row.
pub open spec fn raws_of(rows: Seq<Row>) -> Seq<Seq<char>> {
    Seq::new(rows.len(), |i: int| rows[i].row_content@)
}

/// The rendered text of every row.
pub open spec fn renders_of(rows: Seq<Row>) -> Seq<Seq<char>> {
    Seq::new(rows.len(), |i: int| rows[i].render@)
}

/// The classification and continuation state of every row.
pub open spec fn states_of(rows: Seq<Row>) -> Seq<(Seq<HighlightType>, bool)> {
    Seq::new(rows.len(), |i: int| (rows[i].highlight@, rows[i].is_comment))
}

/// The continuation state a recomputation of line `at` starts from: the
/// recorded state of the line above, or closed at the buffer top.
pub open spec fn seed_at(states: Seq<(Seq<HighlightType>, bool)>, at: int) -> bool {
    if at <= 0 {
        false
    } else {
        states[at - 1].1
    }
}

/// The forward cascade: recompute line `at` from `seed`, and keep walking
/// down while a line's continuation state changed, stopping at the first
/// line whose state is unchanged or at the buffer end.
pub open spec fn cascade_states(
    lang: Syntax,
    renders: Seq<Seq<char>>,
    states: Seq<(Seq<HighlightType>, bool)>,
    at: int,
    seed: bool,
) -> Seq<(Seq<HighlightType>, bool)>
    decreases renders.len() - at
        when 0 <= at
{
    if at < 0 || at >= renders.len() {
        states
    } else {
        let sc = line_scan(lang, renders[at], seed);
        let changed = sc.1 != states[at].1;
        let st2 = states.update(at, sc);
        if !changed || at + 1 >= renders.len() {
            st2
        } else {
            cascade_states(lang, renders, st2, at + 1, sc.1)
        }
    }
}

/// The continuation state left open after line `i` by a full top-to-bottom
/// pass (closed before the first line).
pub open spec fn pass_open(lang: Syntax, renders: Seq<Seq<char>>, i: int) -> bool
    decreases i + 1,
{
    if i < 0 {
        false
    } else {
        line_scan(lang, renders[i], pass_open(lang, renders, i - 1)).1
    }
}

/// The classification a full top-to-bottom pass gives line `i`.
pub open spec fn pass_tags(lang: Syntax, renders: Seq<Seq<char>>, i: int) -> Seq<HighlightType> {
    line_scan(lang, renders[i], pass_open(lang, renders, i - 1)).0
}

/// Every line's recorded classification and continuation state agree with a
/// scan of that line seeded by the recorded state of the line above.
pub open spec fn chained(
    lang: Syntax,
    renders: Seq<Seq<char>>,
    states: Seq<(Seq<HighlightType>, bool)>,
) -> bool {
    &&& states.len() == renders.len()
    &&& forall|i: int| 0 <= i < states.len()
        ==> #[trigger] states[i] == line_scan(lang, renders[i], seed_at(states, i))
}

/// A chained buffer holds exactly the values of a full top-to-bottom pass.
pub proof fn lemma_chained_is_pass(
    lang: Syntax,
    renders: Seq<Seq<char>>,
    states: Seq<(Seq<HighlightType>, bool)>,
    i: int,
)
    requires
        chained(lang, renders, states),
        0 <= i < states.len(),
    ensures
        states[i].0 == pass_tags(lang, renders, i),
        states[i].1 == pass_open(lang, renders, i),
    decreases i,
{
    if i == 0 {
        assert(states[0] == line_scan(lang, renders[0], seed_at(states, 0)));
    } else {
        lemma_chained_is_pass(lang, renders, states, i - 1);
        assert(states[i] == line_scan(lang, renders[i], seed_at(states, i)));
    }
}

/// The cascade restores the chain: if every line but `at` is consistent with
/// its predecessor's recorded state, recomputing from `at` with the correct
/// seed leaves the whole buffer chained.
pub proof fn lemma_cascade_chained(
    lang: Syntax,
    renders: Seq<Seq<char>>,
    states: Seq<(Seq<HighlightType>, bool)>,
    at: int,
    seed: bool,
)
    requires
        states.len() == renders.len(),
        0 <= at < renders.len(),
        seed == seed_at(states, at),
        forall|i: int| 0 <= i < states.len() && i != at
            ==> #[trigger] states[i] == line_scan(lang, renders[i], seed_at(states, i)),
    ensures
        chained(lang, renders, cascade_states(lang, renders, states, at, seed)),
    decreases renders.len() - at,
{
    let sc = line_scan(lang, renders[at], seed);
    let st2 = states.update(at, sc);
    if sc.1 == states[at].1 || at + 1 >= renders.len() {
        assert forall|i: int| 0 <= i < st2.len()
            implies #[trigger] st2[i] == line_scan(lang, renders[i], seed_at(st2, i)) by {
            if i == at {
                assert(seed_at(st2, at) == seed);
            } else if i == at + 1 {
                assert(st2[i] == states[i]);
                assert(seed_at(st2, i) == sc.1);
                assert(seed_at(states, i) == states[at].1);
            } else {
                assert(st2[i] == states[i]);
                assert(seed_at(st2, i) == seed_at(states, i));
            }
        }
    } else {
        assert forall|i: int| 0 <= i < st2.len() && i != at + 1
            implies #[trigger] st2[i] == line_scan(lang, renders[i], seed_at(st2, i)) by {
            if i == at {
                assert(seed_at(st2, at) == seed);
            } else {
                assert(st2[i] == states[i]);
                assert(seed_at(st2, i) == seed_at(states, i));
            }
        }
        assert(seed_at(st2, at + 1) == sc.1);
        lemma_cascade_chained(lang, renders, st2, at + 1, sc.1);
    }
}

/// Incremental recomputation converges: after any single-line change, the
/// bounded forward cascade from that line reaches exactly the fixed point a
/// full top-to-bottom pass over the whole buffer would reach.
pub proof fn lemma_incremental_matches_full_pass(
    lang: Syntax,
    renders: Seq<Seq<char>>,
    states: Seq<(Seq<HighlightType>, bool)>,
    at: int,
)
    requires
        states.len() == renders.len(),
        0 <= at < renders.len(),
        forall|i: int| 0 <= i < states.len() && i != at
            ==> #[trigger] states[i] == line_scan(lang, renders[i], seed_at(states, i)),
    ensures
        ({
            let out = cascade_states(lang, renders, states, at, seed_at(states, at));
            &&& out.len() == renders.len()
            &&& forall|i: int| 0 <= i < renders.len()
                ==> #[trigger] out[i] == (pass_tags(lang, renders, i), pass_open(lang, renders, i))
        }),
{
    lemma_cascade_chained(lang, renders, states, at, seed_at(states, at));
    let out = cascade_states(lang, renders, states, at, seed_at(states, at));
    assert forall|i: int| 0 <= i < renders.len()
        implies #[trigger] out[i] == (pass_tags(lang, renders, i), pass_open(lang, renders, i)) by {
        lemma_chained_is_pass(lang, renders, out, i);
        assert(out[i] == (out[i].0, out[i].1));
    }
}

/// Undoing a single-line edit restores the classification fixed point:
/// starting from a buffer whose classifications are at the fixed point,
/// an edit to one line's rendering followed by the cascade, then the
/// reverse edit followed by the cascade, leaves every line's classification
/// and continuation state exactly as before. In particular, inserting a
/// character and immediately deleting it restores the classification fixed
/// point, since the raw line (and so the rendering) round-trips and the
/// editing operations' contracts are exactly these two cascades.
/// (round trip)
pub proof fn lemma_undone_edit_restores_fixed_point(
    lang: Syntax,
    renders0: Seq<Seq<char>>,
    renders1: Seq<Seq<char>>,
    states0: Seq<(Seq<HighlightType>, bool)>,
    s1: Seq<(Seq<HighlightType>, bool)>,
    s2: Seq<(Seq<HighlightType>, bool)>,
    at: int,
)
    requires
        states0.len() == renders0.len(),
        renders1.len() == renders0.len(),
        0 <= at < renders0.len(),
        chained(lang, renders0, states0),
        forall|i: int| 0 <= i < renders0.len() && i != at
            ==> #[trigger] renders1[i] == renders0[i],
        s1 == cascade_states(lang, renders1, states0, at, seed_at(states0, at)),
        s2 == cascade_states(lang, renders0, s1, at, seed_at(s1, at)),
    ensures
        s2 == states0,
{
    assert forall|i: int| 0 <= i < states0.len() && i != at
        implies #[trigger] states0[i] == line_scan(lang, renders1[i], seed_at(states0, i)) by {
        assert(states0[i] == line_scan(lang, renders0[i], seed_at(states0, i)));
    }
    lemma_cascade_chained(lang, renders1, states0, at, seed_at(states0, at));
    assert forall|i: int| 0 <= i < s1.len() && i != at
        implies #[trigger] s1[i] == line_scan(lang, renders0[i], seed_at(s1, i)) by {
        assert(s1[i] == line_scan(lang, renders1[i], seed_at(s1, i)));
    }
    lemma_cascade_chained(lang, renders0, s1, at, seed_at(s1, at));
    assert forall|i: int| 0 <= i < renders0.len()
        implies #[trigger] s2[i] == states0[i] by {
        lemma_chained_is_pass(lang, renders0, s2, i);
        lemma_chained_is_pass(lang, renders0, states0, i);
        assert(s2[i] == (s2[i].0, s2[i].1));
        assert(states0[i] == (states0[i].0, states0[i].1));
    }
    assert(s2 =~= states0);
}

/// Running the full top-to-bottom pass twice in succession yields identical
/// classification arrays and continuation states for every line: the pass's
/// result is a function of the rendered text alone. (idempotence)
pub proof fn lemma_full_pass_idempotent(
    lang: Syntax,
    renders: Seq<Seq<char>>,
    s1: Seq<(Seq<HighlightType>, bool)>,
    s2: Seq<(Seq<HighlightType>, bool)>,
)
    requires
        s1.len() == renders.len(),
        s2.len() == renders.len(),
        forall|i: int| 0 <= i < renders.len()
            ==> #[trigger] s1[i] == (pass_tags(lang, renders, i), pass_open(lang, renders, i)),
        forall|i: int| 0 <= i < renders.len()
            ==> #[trigger] s2[i] == (pass_tags(lang, renders, i), pass_open(lang, renders, i)),
    ensures
        s1 == s2,
{
    assert(s1 =~= s2);
}

impl Syntax {
    /// The label shown for this language in the status bar.
    pub open spec fn file_type_spec(self) -> Seq<char> {
        match self {
            Syntax::Rust => seq!['r', 'u', 's', 't'],
            Syntax::Markdown => seq!['m', 'a', 'r', 'k', 'd', 'o', 'w', 'n'],
        }
    }

    /// The label shown for this language in the status bar.
    pub fn file_type(&self) -> (r: Vec<char>)
        ensures
            r@ == self.file_type_spec(),
    {
        let r: Vec<char> = match self {
            Syntax::Rust => vec!['r', 'u', 's', 't'],
            Syntax::Markdown => vec!['m', 'a', 'r', 'k', 'd', 'o', 'w', 'n'],
        };
        proof {
            assert(r@ =~= self.file_type_spec());
        }
        r
    }

    /// Recomputes row `at` seeded by the line above, then cascades forward
    /// while a line's continuation state changed, as `cascade_states` says.
    /// Text, rendering and file name are untouched.
    pub fn update_syntax(&self, at: usize, rows: &mut Rows)
        requires
            at < old(rows).row_contents@.len(),
        ensures
            final(rows).row_contents@.len() == old(rows).row_contents@.len(),
            raws_of(final(rows).row_contents@) == raws_of(old(rows).row_contents@),
            renders_of(final(rows).row_contents@) == renders_of(old(rows).row_contents@),
            final(rows).filename == old(rows).filename,
            states_of(final(rows).row_contents@) == cascade_states(
                *self,
                renders_of(old(rows).row_contents@),
                states_of(old(rows).row_contents@),
                at as int,
                seed_at(states_of(old(rows).row_contents@), at as int),
            ),
    {
        let n = rows.number_of_rows();
        let ghost raws0 = raws_of(rows.row_contents@);
        let ghost renders0 = renders_of(rows.row_contents@);
        let ghost states0 = states_of(rows.row_contents@);
        let ghost seed0 = seed_at(states0, at as int);
        let mut a = at;
        let mut seed = if at == 0 {
            false
        } else {
            rows.get_editor_row(at - 1).is_comment
        };
        let mut done = false;
        proof {
            assert(seed == seed0);
        }
        while !done
            invariant
                at <= a < n,
                n == rows.row_contents@.len(),
                n == old(rows).row_contents@.len(),
                raws_of(rows.row_contents@) == raws0,
                renders_of(rows.row_contents@) == renders0,
                raws0 == raws_of(old(rows).row_contents@),
                renders0 == renders_of(old(rows).row_contents@),
                states0 == states_of(old(rows).row_contents@),
                seed0 == seed_at(states0, at as int),
                rows.filename == old(rows).filename,
                !done ==> cascade_states(*self, renders0, states0, at as int, seed0)
                    == cascade_states(*self, renders0, states_of(rows.row_contents@),
                        a as int, seed),
                done ==> states_of(rows.row_contents@)
                    == cascade_states(*self, renders0, states0, at as int, seed0),
            decreases n - a + (if done { 0int } else { 1int }),
        {
            let open_before = rows.get_editor_row(a).is_comment;
            let res = {
                let row = rows.get_editor_row(a);
                line_classify(*self, &row.render, seed)
            };
            let open = res.1;
            let changed = open != open_before;
            let ghost rpre = rows.row_contents@;
            let ghost spre = states_of(rpre);
            rows.set_highlight(a, res.0, open);
            proof {
                let ls = line_scan(*self, renders0[a as int], seed);
                assert(renders0[a as int] == rpre[a as int].render@);
                assert((ls.0, ls.1) == ls);
                assert(spre[a as int].1 == open_before);
                assert(states_of(rows.row_contents@) =~= spre.update(a as int, ls));
                assert(raws_of(rows.row_contents@) =~= raws0);
                assert(renders_of(rows.row_contents@) =~= renders0);
                assert(cascade_states(*self, renders0, spre, a as int, seed)
                    == if !changed || a as int + 1 >= n {
                        spre.update(a as int, ls)
                    } else {
                        cascade_states(*self, renders0, spre.update(a as int, ls),
                            a as int + 1, ls.1)
                    });
            }
            if !changed || a + 1 == n {
                done = true;
            } else {
                seed = open;
                a += 1;
            }
        }
    }

    /// One full top-to-bottom pass: reclassifies every line in order, so the
    /// continuation state accumulates correctly from the buffer top.
    pub fn rehighlight_all(&self, rows: &mut Rows)
        ensures
            final(rows).row_contents@.len() == old(rows).row_contents@.len(),
            raws_of(final(rows).row_contents@) == raws_of(old(rows).row_contents@),
            renders_of(final(rows).row_contents@) == renders_of(old(rows).row_contents@),
            final(rows).filename == old(rows).filename,
            forall|i: int| 0 <= i < old(rows).row_contents@.len()
                ==> #[trigger] states_of(final(rows).row_contents@)[i]
                    == (pass_tags(*self, renders_of(old(rows).row_contents@), i),
                        pass_open(*self, renders_of(old(rows).row_contents@), i)),
    {
        let n = rows.number_of_rows();
        let ghost raws0 = raws_of(rows.row_contents@);
        let ghost renders0 = renders_of(rows.row_contents@);
        let mut i: usize = 0;
        let mut seed = false;
        while i < n
            invariant
                0 <= i <= n,
                n == rows.row_contents@.len(),
                n == old(rows).row_contents@.len(),
                raws_of(rows.row_contents@) == raws0,
                renders_of(rows.row_contents@) == renders0,
                raws0 == raws_of(old(rows).row_contents@),
                renders0 == renders_of(old(rows).row_contents@),
                rows.filename == old(rows).filename,
                seed == pass_open(*self, renders0, i as int - 1),
                forall|j: int| 0 <= j < i
                    ==> #[trigger] states_of(rows.row_contents@)[j]
                        == (pass_tags(*self, renders0, j), pass_open(*self, renders0, j)),
            decreases n - i,
        {
            let res = {
                let row = rows.get_editor_row(i);
                line_classify(*self, &row.render, seed)
            };
            let open = res.1;
            let ghost rpre = rows.row_contents@;
            let ghost spre = states_of(rpre);
            rows.set_highlight(i, res.0, open);
            proof {
                let ls = line_scan(*self, renders0[i as int], seed);
                assert(renders0[i as int] == rpre[i as int].render@);
                assert((ls.0, ls.1) == ls);
                assert(states_of(rows.row_contents@) =~= spre.update(i as int, ls));
                assert(raws_of(rows.row_contents@) =~= raws0);
                assert(renders_of(rows.row_contents@) =~= renders0);
                assert(pass_open(*self, renders0, i as int) == ls.1);
                assert forall|j: int| 0 <= j < i + 1
                    implies #[trigger] states_of(rows.row_contents@)[j]
                        == (pass_tags(*self, renders0, j), pass_open(*self, renders0, j)) by {
                    if j < i {
                        assert(states_of(rows.row_contents@)[j] == spre[j]);
                    } else {
                        assert(states_of(rows.row_contents@)[j] == ls);
                    }
                }
            }
            seed = open;
            i += 1;
        }
    }
}

} // verus!
