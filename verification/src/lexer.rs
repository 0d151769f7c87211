//! Lexical analysis: raw source text to an ordered sequence of positioned
//! tokens.
//!
//! Before any matching, block comments (non-nested, shortest match between
//! `/*` and `*/`) and then line comments (`//` to end of line) are stripped
//! globally, scanning left to right without rescanning spliced junctions.
//! All token positions are therefore relative to the stripped text: `line` is
//! the 1-based count of newlines up to the token's first character, `index`
//! the 0-based offset of that character within its line.
//!
//! At each scan position the lexer tries a fixed, ordered list of patterns —
//! the keywords `int`, `void` and `return` (each up to a word boundary), an
//! identifier (an ASCII letter or `_` followed by word characters), an integer
//! constant (digits up to a word boundary), then the single-character
//! punctuation `( ) { } ;` — and takes the first that matches. Whitespace is
//! skipped and never tokenized. If nothing matches, lexing fails and no token
//! stream is produced.

use std::collections::VecDeque;
use vstd::prelude::*;
use vstd::string::*;

verus! {

/// The kind of a token.
#[derive(Debug, Clone, Copy, PartialEq, Eq, Structural)]
pub enum TokenType {
    Identifier,
    Constant,
    LParen,
    RParen,
    LBrace,
    RBrace,
    Semi,
    KInt,
    KVoid,
    KRet,
}

/// A positioned token; immutable once produced.
#[derive(Debug, Clone)]
pub struct Token {
    pub line: usize,
    pub index: usize,
    pub token_type: TokenType,
    pub substring: String,
}

/// Spec-level value of a token.
pub struct TokView {
    pub line: int,
    pub index: int,
    pub kind: TokenType,
    pub text: Seq<char>,
}

impl View for Token {
    type V = TokView;

    open spec fn view(&self) -> TokView {
        TokView {
            line: self.line as int,
            index: self.index as int,
            kind: self.token_type,
            text: self.substring@,
        }
    }
}

impl DeepView for Token {
    type V = TokView;

    open spec fn deep_view(&self) -> TokView {
        self.view()
    }
}

impl PartialEq for Token {
    fn eq(&self, other: &Token) -> (r: bool) {
        self.line == other.line && self.index == other.index && self.token_type
            == other.token_type && self.substring == other.substring
    }
}

impl vstd::std_specs::cmp::PartialEqSpecImpl for Token {
    open spec fn obeys_eq_spec() -> bool {
        true
    }

    open spec fn eq_spec(&self, other: &Token) -> bool {
        self.line == other.line && self.index == other.index && self.token_type
            == other.token_type && self.substring@ == other.substring@
    }
}

/// The token stream: front-consumable, double-ended; the parser pops from the
/// front, and emptiness signals end of input.
pub type Tokens = VecDeque<Token>;

// ---------------------------------------------------------------------------
// Character classes (ASCII, stated over code points).
// ---------------------------------------------------------------------------

/// Whitespace: space, tab, newline, carriage return, vertical tab, form feed.
pub open spec fn is_space(c: char) -> bool {
    let u = c as u32;
    u == 32 || u == 9 || u == 10 || u == 13 || u == 11 || u == 12
}

/// A decimal digit.
pub open spec fn is_digit(c: char) -> bool {
    48 <= c as u32 && c as u32 <= 57
}

/// A character that may open an identifier: an ASCII letter or `_`.
pub open spec fn is_ident_start(c: char) -> bool {
    let u = c as u32;
    (65 <= u && u <= 90) || (97 <= u && u <= 122) || u == 95
}

/// A word character: letter, digit or `_`; word boundaries fall where a word
/// character does not follow.
pub open spec fn is_word(c: char) -> bool {
    is_ident_start(c) || is_digit(c)
}

// ---------------------------------------------------------------------------
// Positions: line and column of an offset into the (stripped) text.
// ---------------------------------------------------------------------------

/// Newlines strictly before offset `pos`.
pub open spec fn nl_count(s: Seq<char>, pos: int) -> int
    decreases pos,
{
    if pos <= 0 {
        0
    } else {
        nl_count(s, pos - 1) + if s[pos - 1] == '\n' {
            1int
        } else {
            0int
        }
    }
}

/// The 1-based line number of offset `pos`.
pub open spec fn line_of(s: Seq<char>, pos: int) -> int {
    1 + nl_count(s, pos)
}

/// The 0-based offset of `pos` within its line.
pub open spec fn col_of(s: Seq<char>, pos: int) -> int
    decreases pos,
{
    if pos <= 0 {
        0
    } else if s[pos - 1] == '\n' {
        0
    } else {
        col_of(s, pos - 1) + 1
    }
}

// ---------------------------------------------------------------------------
// Substring search, the shape the comment stripper needs.
// ---------------------------------------------------------------------------

/// The first offset `i >= from` where `c1` is immediately followed by `c2`.
pub open spec fn find2(s: Seq<char>, from: int, c1: char, c2: char) -> Option<int>
    decreases s.len() - from,
    when 0 <= from
{
    if from + 2 > s.len() {
        None
    } else if s[from] == c1 && s[from + 1] == c2 {
        Some(from)
    } else {
        find2(s, from + 1, c1, c2)
    }
}

/// The first newline at or after `from`, or the end of the text.
pub open spec fn find_nl(s: Seq<char>, from: int) -> int
    decreases s.len() - from,
    when 0 <= from
{
    if from >= s.len() {
        s.len() as int
    } else if s[from] == '\n' {
        from
    } else {
        find_nl(s, from + 1)
    }
}

pub proof fn lemma_find2(s: Seq<char>, from: int, c1: char, c2: char)
    requires
        0 <= from,
    ensures
        match find2(s, from, c1, c2) {
            Some(i) => from <= i && i + 2 <= s.len() && s[i] == c1 && s[i + 1] == c2 && (forall|j:
                int|
                from <= j < i ==> !(#[trigger] s[j] == c1 && s[j + 1] == c2)),
            None => forall|j: int|
                from <= j && j + 2 <= s.len() ==> !(#[trigger] s[j] == c1 && s[j + 1] == c2),
        },
    decreases s.len() - from,
{
    if from + 2 > s.len() {
    } else if s[from] == c1 && s[from + 1] == c2 {
    } else {
        lemma_find2(s, from + 1, c1, c2);
    }
}

pub proof fn lemma_find_nl(s: Seq<char>, from: int)
    requires
        0 <= from <= s.len(),
    ensures
        from <= find_nl(s, from) <= s.len(),
        find_nl(s, from) < s.len() ==> s[find_nl(s, from)] == '\n',
        forall|j: int| from <= j < find_nl(s, from) ==> s[j] != '\n',
    decreases s.len() - from,
{
    if from < s.len() && s[from] != '\n' {
        lemma_find_nl(s, from + 1);
    }
}

// ---------------------------------------------------------------------------
// Comment stripping.
// ---------------------------------------------------------------------------

/// Removes block comments: repeatedly, the leftmost `/*` with a `*/` after it
/// is removed together with everything between, and scanning resumes after
/// the removed stretch.
pub open spec fn strip_block(s: Seq<char>) -> Seq<char>
    decreases s.len(),
    via strip_block_dec
{
    match find2(s, 0, '/', '*') {
        None => s,
        Some(i) => match find2(s, i + 2, '*', '/') {
            None => s,
            Some(j) => s.subrange(0, i) + strip_block(s.subrange(j + 2, s.len() as int)),
        },
    }
}

#[via_fn]
proof fn strip_block_dec(s: Seq<char>) {
    lemma_find2(s, 0, '/', '*');
    if let Some(i) = find2(s, 0, '/', '*') {
        lemma_find2(s, i + 2, '*', '/');
    }
}

/// Removes line comments: repeatedly, the leftmost `//` is removed together
/// with everything up to (but not including) the next newline.
pub open spec fn strip_line(s: Seq<char>) -> Seq<char>
    decreases s.len(),
    via strip_line_dec
{
    match find2(s, 0, '/', '/') {
        None => s,
        Some(i) => s.subrange(0, i) + strip_line(s.subrange(find_nl(s, i + 2), s.len() as int)),
    }
}

#[via_fn]
proof fn strip_line_dec(s: Seq<char>) {
    lemma_find2(s, 0, '/', '/');
    if let Some(i) = find2(s, 0, '/', '/') {
        lemma_find_nl(s, i + 2);
    }
}

/// The text the patterns run on: block comments stripped first, then line
/// comments.
pub open spec fn strip_comments(s: Seq<char>) -> Seq<char> {
    strip_line(strip_block(s))
}

// ---------------------------------------------------------------------------
// Comments are invisible to the lexer.
// ---------------------------------------------------------------------------

/// `c1` immediately followed by `c2` at offset `j`.
pub open spec fn pair_at(s: Seq<char>, j: int, c1: char, c2: char) -> bool {
    0 <= j && j + 2 <= s.len() && s[j] == c1 && s[j + 1] == c2
}

pub open spec fn no_pair(s: Seq<char>, c1: char, c2: char) -> bool {
    forall|j: int| !pair_at(s, j, c1, c2)
}

/// Text that neither opens a block comment nor a line comment anywhere.
pub open spec fn comment_free(s: Seq<char>) -> bool {
    no_pair(s, '/', '*') && no_pair(s, '/', '/')
}

proof fn lemma_find2_found(s: Seq<char>, from: int, c1: char, c2: char, i: int)
    requires
        0 <= from <= i,
        pair_at(s, i, c1, c2),
        forall|j: int| from <= j < i ==> !pair_at(s, j, c1, c2),
    ensures
        find2(s, from, c1, c2) == Some(i),
{
    lemma_find2(s, from, c1, c2);
    match find2(s, from, c1, c2) {
        Some(r) => {
            if r < i {
                assert(pair_at(s, r, c1, c2));
            } else if r > i {
                assert(!(s[i] == c1 && s[i + 1] == c2));
            }
        },
        None => {
            assert(!(s[i] == c1 && s[i + 1] == c2));
        },
    }
}

proof fn lemma_find2_absent_pairs(s: Seq<char>, c1: char, c2: char)
    requires
        no_pair(s, c1, c2),
    ensures
        find2(s, 0, c1, c2) == None::<int>,
{
    lemma_find2(s, 0, c1, c2);
    match find2(s, 0, c1, c2) {
        Some(r) => {
            assert(pair_at(s, r, c1, c2));
        },
        None => {},
    }
}

proof fn lemma_find_nl_found(s: Seq<char>, from: int, k: int)
    requires
        0 <= from <= k <= s.len(),
        forall|j: int| from <= j < k ==> s[j] != '\n',
        k == s.len() || s[k] == '\n',
    ensures
        find_nl(s, from) == k,
{
    lemma_find_nl(s, from);
    let r = find_nl(s, from);
    if r < k {
        assert(s[r] == '\n');
    } else if r > k {
        assert(s[k] != '\n');
    }
}

/// Comment-free text comes through stripping untouched.
pub proof fn lemma_strip_comment_free(s: Seq<char>)
    requires
        comment_free(s),
    ensures
        strip_comments(s) == s,
{
    lemma_find2_absent_pairs(s, '/', '*');
    lemma_find2_absent_pairs(s, '/', '/');
    assert(strip_block(s) == s);
    assert(strip_line(s) == s);
}

/// A block comment anywhere outside tokens is invisible: text with
/// `/* ... */` spliced in lexes exactly like the text without it, provided
/// the surrounding text opens no comment of its own and the comment's body
/// never closes early.
pub proof fn lemma_block_comment_ignored(a: Seq<char>, m: Seq<char>, b: Seq<char>)
    requires
        comment_free(a + b),
        no_pair(m, '*', '/'),
    ensures
        lex_spec(a + "/*"@ + m + "*/"@ + b) == lex_spec(a + b),
{
    reveal_strlit("/*");
    reveal_strlit("*/");
    let s = a + "/*"@ + m + "*/"@ + b;
    let la = a.len() as int;
    let lm = m.len() as int;
    let close = la + 2 + lm;
    assert(s.len() == la + lm + 4 + b.len());
    assert(s[la] == '/' && s[la + 1] == '*');
    assert(s[close] == '*' && s[close + 1] == '/');
    // The spliced opener is the first `/*`.
    assert forall|j: int| 0 <= j < la implies !pair_at(s, j, '/', '*') by {
        if j + 1 < la {
            assert(s[j] == a[j] && s[j + 1] == a[j + 1]);
            assert(!pair_at(a + b, j, '/', '*'));
        } else {
            assert(s[j + 1] == '/');
        }
    }
    lemma_find2_found(s, 0, '/', '*', la);
    // The spliced closer is the first `*/` after it.
    assert forall|j: int| la + 2 <= j < close implies !pair_at(s, j, '*', '/') by {
        if j + 1 < close {
            assert(s[j] == m[j - la - 2] && s[j + 1] == m[j - la - 1]);
            assert(!pair_at(m, j - la - 2, '*', '/'));
        } else {
            assert(s[j + 1] == '*');
        }
    }
    lemma_find2_found(s, la + 2, '*', '/', close);
    // So one stripping step removes exactly the comment.
    assert(strip_block(s) == s.subrange(0, la) + strip_block(s.subrange(close + 2, s.len() as int)));
    assert(s.subrange(0, la) =~= a);
    assert(s.subrange(close + 2, s.len() as int) =~= b);
    // And the rest of the text holds no further block comment.
    assert forall|j: int| !pair_at(b, j, '/', '*') by {
        if 0 <= j && j + 2 <= b.len() {
            assert((a + b)[la + j] == b[j] && (a + b)[la + j + 1] == b[j + 1]);
            assert(!pair_at(a + b, la + j, '/', '*'));
        }
    }
    lemma_find2_absent_pairs(b, '/', '*');
    assert(strip_block(b) == b);
    assert(strip_block(s) == a + b);
    lemma_find2_absent_pairs(a + b, '/', '/');
    assert(strip_line(a + b) == a + b);
    assert(strip_comments(s) == a + b);
    lemma_strip_comment_free(a + b);
}

/// A line comment running to the end of its line is invisible: text with
/// `// ...` spliced in just before a newline (or at the very end) lexes
/// exactly like the text without it, provided the surrounding text opens no
/// comment of its own, the comment's body stays on its line and opens no
/// block comment, and no splice junction forms one either.
pub proof fn lemma_line_comment_ignored(a: Seq<char>, m: Seq<char>, b: Seq<char>)
    requires
        comment_free(a + b),
        forall|j: int| 0 <= j < m.len() ==> m[j] != '\n',
        no_pair(m, '/', '*'),
        m.len() > 0 ==> m[0] != '*',
        a.len() > 0 ==> a[a.len() - 1] != '/',
        b.len() == 0 || b[0] == '\n',
    ensures
        lex_spec(a + "//"@ + m + b) == lex_spec(a + b),
{
    reveal_strlit("//");
    let s = a + "//"@ + m + b;
    let la = a.len() as int;
    let lm = m.len() as int;
    let k = la + 2 + lm;
    assert(s.len() == la + lm + 2 + b.len());
    assert(s[la] == '/' && s[la + 1] == '/');
    // Nothing in the spliced text opens a block comment.
    assert forall|j: int| !pair_at(s, j, '/', '*') by {
        if 0 <= j && j + 2 <= s.len() {
            if j + 1 < la {
                assert(s[j] == a[j] && s[j + 1] == a[j + 1]);
                assert(!pair_at(a + b, j, '/', '*'));
            } else if j == la - 1 {
                assert(s[j] == a[la - 1]);
            } else if j == la {
                assert(s[j + 1] == '/');
            } else if j == la + 1 {
                if lm > 0 {
                    assert(s[j + 1] == m[0]);
                } else if b.len() > 0 {
                    assert(s[j + 1] == b[0]);
                }
            } else if j + 1 < k {
                assert(s[j] == m[j - la - 2] && s[j + 1] == m[j - la - 1]);
                assert(!pair_at(m, j - la - 2, '/', '*'));
            } else if j == k - 1 {
                assert(s[j + 1] == b[0]);
            } else {
                assert(s[j] == b[j - k] && s[j + 1] == b[j - k + 1]);
                assert((a + b)[la + j - k] == b[j - k] && (a + b)[la + j - k + 1] == b[j - k + 1]);
                assert(!pair_at(a + b, la + j - k, '/', '*'));
            }
        }
    }
    lemma_find2_absent_pairs(s, '/', '*');
    assert(strip_block(s) == s);
    // The spliced `//` is the first one.
    assert forall|j: int| 0 <= j < la implies !pair_at(s, j, '/', '/') by {
        if j + 1 < la {
            assert(s[j] == a[j] && s[j + 1] == a[j + 1]);
            assert(!pair_at(a + b, j, '/', '/'));
        } else {
            assert(s[j] == a[la - 1]);
        }
    }
    lemma_find2_found(s, 0, '/', '/', la);
    // The comment runs exactly to the next newline (or the end).
    assert forall|j: int| la + 2 <= j < k implies s[j] != '\n' by {
        assert(s[j] == m[j - la - 2]);
    }
    assert(k == s.len() || s[k] == '\n');
    lemma_find_nl_found(s, la + 2, k);
    assert(strip_line(s) == s.subrange(0, la) + strip_line(s.subrange(k, s.len() as int)));
    assert(s.subrange(0, la) =~= a);
    assert(s.subrange(k, s.len() as int) =~= b);
    // And the line's tail holds no further line comment.
    assert forall|j: int| !pair_at(b, j, '/', '/') by {
        if 0 <= j && j + 2 <= b.len() {
            assert((a + b)[la + j] == b[j] && (a + b)[la + j + 1] == b[j + 1]);
            assert(!pair_at(a + b, la + j, '/', '/'));
        }
    }
    lemma_find2_absent_pairs(b, '/', '/');
    assert(strip_line(b) == b);
    assert(strip_comments(s) == a + b);
    lemma_strip_comment_free(a + b);
}

// ---------------------------------------------------------------------------
// Token matching.
// ---------------------------------------------------------------------------

pub open spec fn kw_int() -> Seq<char> {
    seq!['i', 'n', 't']
}

pub open spec fn kw_void() -> Seq<char> {
    seq!['v', 'o', 'i', 'd']
}

pub open spec fn kw_return() -> Seq<char> {
    seq!['r', 'e', 't', 'u', 'r', 'n']
}

/// A word boundary falls at `i`: the end of the text, or a non-word character.
pub open spec fn boundary(s: Seq<char>, i: int) -> bool {
    i == s.len() || (0 <= i < s.len() && !is_word(s[i]))
}

/// The keyword `kw` occurs at `pos`, up to a word boundary.
pub open spec fn kw_at(s: Seq<char>, pos: int, kw: Seq<char>) -> bool {
    &&& 0 <= pos
    &&& pos + kw.len() <= s.len()
    &&& s.subrange(pos, pos + kw.len()) == kw
    &&& boundary(s, pos + kw.len())
}

/// The end of the run of word characters starting at `i`.
pub open spec fn word_end(s: Seq<char>, i: int) -> int
    decreases s.len() - i,
    when 0 <= i <= s.len()
{
    if i >= s.len() {
        i
    } else if is_word(s[i]) {
        word_end(s, i + 1)
    } else {
        i
    }
}

/// The end of the run of digits starting at `i`.
pub open spec fn digit_end(s: Seq<char>, i: int) -> int
    decreases s.len() - i,
    when 0 <= i <= s.len()
{
    if i >= s.len() {
        i
    } else if is_digit(s[i]) {
        digit_end(s, i + 1)
    } else {
        i
    }
}

pub proof fn lemma_word_end(s: Seq<char>, i: int)
    requires
        0 <= i <= s.len(),
    ensures
        i <= word_end(s, i) <= s.len(),
        forall|j: int| i <= j < word_end(s, i) ==> is_word(#[trigger] s[j]),
        boundary(s, word_end(s, i)),
        i < s.len() && is_word(s[i]) ==> word_end(s, i) > i,
    decreases s.len() - i,
{
    if i < s.len() && is_word(s[i]) {
        lemma_word_end(s, i + 1);
    }
}

pub proof fn lemma_digit_end(s: Seq<char>, i: int)
    requires
        0 <= i <= s.len(),
    ensures
        i <= digit_end(s, i) <= s.len(),
        forall|j: int| i <= j < digit_end(s, i) ==> is_digit(#[trigger] s[j]),
        digit_end(s, i) == s.len() || !is_digit(s[digit_end(s, i)]),
        i < s.len() && is_digit(s[i]) ==> digit_end(s, i) > i,
    decreases s.len() - i,
{
    if i < s.len() && is_digit(s[i]) {
        lemma_digit_end(s, i + 1);
    }
}

/// The first pattern that matches at `pos`, with the length of its match:
/// keywords before the identifier pattern (or they would never match),
/// identifiers and constants with maximal runs, then single-character
/// punctuation. `None` means lexing fails here.
pub open spec fn match_at(s: Seq<char>, pos: int) -> Option<(TokenType, int)>
    recommends
        0 <= pos < s.len(),
{
    if kw_at(s, pos, kw_int()) {
        Some((TokenType::KInt, 3int))
    } else if kw_at(s, pos, kw_void()) {
        Some((TokenType::KVoid, 4int))
    } else if kw_at(s, pos, kw_return()) {
        Some((TokenType::KRet, 6int))
    } else if is_ident_start(s[pos]) {
        Some((TokenType::Identifier, word_end(s, pos) - pos))
    } else if is_digit(s[pos]) {
        if boundary(s, digit_end(s, pos)) {
            Some((TokenType::Constant, digit_end(s, pos) - pos))
        } else {
            None
        }
    } else if s[pos] == '(' {
        Some((TokenType::LParen, 1int))
    } else if s[pos] == ')' {
        Some((TokenType::RParen, 1int))
    } else if s[pos] == '{' {
        Some((TokenType::LBrace, 1int))
    } else if s[pos] == '}' {
        Some((TokenType::RBrace, 1int))
    } else if s[pos] == ';' {
        Some((TokenType::Semi, 1int))
    } else {
        None
    }
}

pub proof fn lemma_match_at(s: Seq<char>, pos: int)
    requires
        0 <= pos < s.len(),
    ensures
        match match_at(s, pos) {
            Some((kind, len)) => 1 <= len && pos + len <= s.len(),
            None => true,
        },
{
    lemma_word_end(s, pos);
    lemma_digit_end(s, pos);
}

// ---------------------------------------------------------------------------
// The lexer itself, as a function of the stripped text.
// ---------------------------------------------------------------------------

/// The token sequence of the stripped text from offset `pos` on: whitespace
/// is skipped, every token records the line and column of its first
/// character together with its matched substring, and a position where no
/// pattern matches makes the whole result `None`.
pub open spec fn lex_from(s: Seq<char>, pos: int) -> Option<Seq<TokView>>
    decreases s.len() - pos,
    when 0 <= pos <= s.len()
    via lex_from_dec
{
    if pos >= s.len() {
        Some(Seq::empty())
    } else if is_space(s[pos]) {
        lex_from(s, pos + 1)
    } else {
        match match_at(s, pos) {
            None => None,
            Some((kind, len)) => {
                let tok = TokView {
                    line: line_of(s, pos),
                    index: col_of(s, pos),
                    kind: kind,
                    text: s.subrange(pos, pos + len),
                };
                match lex_from(s, pos + len) {
                    None => None,
                    Some(rest) => Some(seq![tok] + rest),
                }
            },
        }
    }
}

#[via_fn]
proof fn lex_from_dec(s: Seq<char>, pos: int) {
    if 0 <= pos && pos < s.len() {
        lemma_match_at(s, pos);
    }
}

/// What lexing the raw source yields: the token sequence of the
/// comment-stripped text.
pub open spec fn lex_spec(src: Seq<char>) -> Option<Seq<TokView>> {
    lex_from(strip_comments(src), 0)
}

pub open spec fn texts_nonempty(ts: Seq<TokView>) -> bool {
    forall|k: int| 0 <= k < ts.len() ==> #[trigger] ts[k].text.len() >= 1
}

proof fn lemma_lex_from_texts_nonempty(s: Seq<char>, pos: int)
    requires
        0 <= pos <= s.len(),
    ensures
        lex_from(s, pos) is Some ==> texts_nonempty(lex_from(s, pos)->Some_0),
    decreases s.len() - pos,
{
    if pos >= s.len() {
    } else if is_space(s[pos]) {
        lemma_lex_from_texts_nonempty(s, pos + 1);
    } else {
        match match_at(s, pos) {
            None => {},
            Some((kind, len)) => {
                lemma_match_at(s, pos);
                lemma_lex_from_texts_nonempty(s, pos + len);
                if lex_from(s, pos + len) is Some {
                    let tok = TokView {
                        line: line_of(s, pos),
                        index: col_of(s, pos),
                        kind: kind,
                        text: s.subrange(pos, pos + len),
                    };
                    let rest = lex_from(s, pos + len)->Some_0;
                    assert(lex_from(s, pos) == Some(seq![tok] + rest));
                    assert forall|k: int| 0 <= k < (seq![tok] + rest).len() implies (seq![tok]
                        + rest)[k].text.len() >= 1 by {
                        if k == 0 {
                            assert((seq![tok] + rest)[0] == tok);
                        } else {
                            assert((seq![tok] + rest)[k] == rest[k - 1]);
                        }
                    }
                }
            },
        }
    }
}

/// Every token the lexer produces carries a non-empty matched substring; in
/// particular, every function-name token the parser later accepts is a
/// non-empty identifier.
pub proof fn lemma_lex_texts_nonempty(src: Seq<char>)
    ensures
        lex_spec(src) is Some ==> texts_nonempty(lex_spec(src)->Some_0),
{
    lemma_lex_from_texts_nonempty(strip_comments(src), 0);
}

// ---------------------------------------------------------------------------
// Executable character classes.
// ---------------------------------------------------------------------------

fn is_space_c(c: char) -> (r: bool)
    ensures
        r == is_space(c),
{
    let u = c as u32;
    u == 32 || u == 9 || u == 10 || u == 13 || u == 11 || u == 12
}

fn is_digit_c(c: char) -> (r: bool)
    ensures
        r == is_digit(c),
{
    let u = c as u32;
    48 <= u && u <= 57
}

fn is_ident_start_c(c: char) -> (r: bool)
    ensures
        r == is_ident_start(c),
{
    let u = c as u32;
    (65 <= u && u <= 90) || (97 <= u && u <= 122) || u == 95
}

fn is_word_c(c: char) -> (r: bool)
    ensures
        r == is_word(c),
{
    is_ident_start_c(c) || is_digit_c(c)
}

// ---------------------------------------------------------------------------
// Executable search and comment stripping.
// ---------------------------------------------------------------------------

#[verifier::loop_isolation(false)]
fn find2_at(s: &str, from: usize, c1: char, c2: char) -> (r: Option<usize>)
    requires
        from <= s@.len(),
    ensures
        match r {
            Some(i) => find2(s@, from as int, c1, c2) == Some(i as int) && from <= i && i + 2
                <= s@.len(),
            None => find2(s@, from as int, c1, c2) == None::<int>,
        },
{
    let n = s.unicode_len();
    let mut i = from;
    while n - i >= 2
        invariant
            from <= i <= n,
            find2(s@, from as int, c1, c2) == find2(s@, i as int, c1, c2),
        decreases n - i,
    {
        let a = s.get_char(i);
        let b = s.get_char(i + 1);
        if a == c1 && b == c2 {
            return Some(i);
        }
        i = i + 1;
    }
    None
}

#[verifier::loop_isolation(false)]
fn find_nl_at(s: &str, from: usize) -> (r: usize)
    requires
        from <= s@.len(),
    ensures
        r as int == find_nl(s@, from as int),
        from <= r <= s@.len(),
{
    let n = s.unicode_len();
    let mut i = from;
    while i < n
        invariant
            from <= i <= n,
            find_nl(s@, from as int) == find_nl(s@, i as int),
        decreases n - i,
    {
        let c = s.get_char(i);
        if c == '\n' {
            return i;
        }
        i = i + 1;
    }
    i
}

/// One pass removing block comments, left to right.
fn strip_block_x(s: &str) -> (r: String)
    ensures
        r@ == strip_block(s@),
    decreases s@.len(),
{
    let n = s.unicode_len();
    match find2_at(s, 0, '/', '*') {
        None => s.to_owned(),
        Some(i) => {
            match find2_at(s, i + 2, '*', '/') {
                None => s.to_owned(),
                Some(j) => {
                    let head = s.substring_char(0, i);
                    let tail = s.substring_char(j + 2, n);
                    let rest = strip_block_x(tail);
                    let mut out = head.to_owned();
                    out.append(rest.as_str());
                    proof {
                        assert(out@ =~= s@.subrange(0, i as int) + strip_block(
                            s@.subrange(j + 2, s@.len() as int),
                        ));
                    }
                    out
                },
            }
        },
    }
}

/// One pass removing line comments, left to right.
fn strip_line_x(s: &str) -> (r: String)
    ensures
        r@ == strip_line(s@),
    decreases s@.len(),
{
    let n = s.unicode_len();
    match find2_at(s, 0, '/', '/') {
        None => s.to_owned(),
        Some(i) => {
            let k = find_nl_at(s, i + 2);
            let head = s.substring_char(0, i);
            let tail = s.substring_char(k, n);
            let rest = strip_line_x(tail);
            let mut out = head.to_owned();
            out.append(rest.as_str());
            proof {
                assert(out@ =~= s@.subrange(0, i as int) + strip_line(
                    s@.subrange(find_nl(s@, i + 2), s@.len() as int),
                ));
            }
            out
        },
    }
}

// ---------------------------------------------------------------------------
// Executable token matching.
// ---------------------------------------------------------------------------

#[verifier::loop_isolation(false)]
fn kw_match(s: &str, pos: usize, n: usize, kw: &str) -> (r: bool)
    requires
        n == s@.len(),
        pos < n,
    ensures
        r == kw_at(s@, pos as int, kw@),
{
    let m = kw.unicode_len();
    if n - pos < m {
        return false;
    }
    let mut i: usize = 0;
    while i < m
        invariant
            0 <= i <= m,
            pos + m <= n,
            forall|j: int| 0 <= j < i ==> s@[pos + j] == kw@[j],
        decreases m - i,
    {
        if s.get_char(pos + i) != kw.get_char(i) {
            proof {
                assert(s@.subrange(pos as int, pos + m) != kw@) by {
                    assert(s@.subrange(pos as int, pos + m)[i as int] == s@[pos + i]);
                }
            }
            return false;
        }
        i = i + 1;
    }
    proof {
        assert(s@.subrange(pos as int, pos + m) =~= kw@);
    }
    if pos + m == n {
        true
    } else {
        !is_word_c(s.get_char(pos + m))
    }
}

#[verifier::loop_isolation(false)]
fn scan_word(s: &str, pos: usize, n: usize) -> (e: usize)
    requires
        n == s@.len(),
        pos < n,
    ensures
        e as int == word_end(s@, pos as int),
        pos <= e <= n,
{
    let mut e = pos;
    while e < n && is_word_c(s.get_char(e))
        invariant
            pos <= e <= n,
            word_end(s@, pos as int) == word_end(s@, e as int),
        decreases n - e,
    {
        e = e + 1;
    }
    e
}

#[verifier::loop_isolation(false)]
fn scan_digits(s: &str, pos: usize, n: usize) -> (e: usize)
    requires
        n == s@.len(),
        pos < n,
    ensures
        e as int == digit_end(s@, pos as int),
        pos <= e <= n,
    decreases n - pos,
{
    let mut e = pos;
    while e < n && is_digit_c(s.get_char(e))
        invariant
            pos <= e <= n,
            digit_end(s@, pos as int) == digit_end(s@, e as int),
        decreases n - e,
    {
        e = e + 1;
    }
    e
}

/// The first pattern matching at `pos`, as [`match_at`] describes it.
fn try_match(s: &str, pos: usize, n: usize) -> (r: Option<(TokenType, usize)>)
    requires
        n == s@.len(),
        pos < n,
    ensures
        match r {
            Some((kind, len)) => match_at(s@, pos as int) == Some((kind, len as int)) && 1 <= len
                && pos + len <= n,
            None => match_at(s@, pos as int) == None::<(TokenType, int)>,
        },
{
    proof {
        reveal_strlit("int");
        reveal_strlit("void");
        reveal_strlit("return");
        assert(("int")@ =~= kw_int());
        assert(("void")@ =~= kw_void());
        assert(("return")@ =~= kw_return());
    }
    if kw_match(s, pos, n, "int") {
        Some((TokenType::KInt, 3))
    } else if kw_match(s, pos, n, "void") {
        Some((TokenType::KVoid, 4))
    } else if kw_match(s, pos, n, "return") {
        Some((TokenType::KRet, 6))
    } else {
        let c = s.get_char(pos);
        if is_ident_start_c(c) {
            let e = scan_word(s, pos, n);
            proof {
                lemma_word_end(s@, pos as int);
            }
            Some((TokenType::Identifier, e - pos))
        } else if is_digit_c(c) {
            let e = scan_digits(s, pos, n);
            proof {
                lemma_digit_end(s@, pos as int);
            }
            if e == n {
                Some((TokenType::Constant, e - pos))
            } else if !is_word_c(s.get_char(e)) {
                Some((TokenType::Constant, e - pos))
            } else {
                None
            }
        } else if c == '(' {
            Some((TokenType::LParen, 1))
        } else if c == ')' {
            Some((TokenType::RParen, 1))
        } else if c == '{' {
            Some((TokenType::LBrace, 1))
        } else if c == '}' {
            Some((TokenType::RBrace, 1))
        } else if c == ';' {
            Some((TokenType::Semi, 1))
        } else {
            None
        }
    }
}

// ---------------------------------------------------------------------------
// The lexer.
// ---------------------------------------------------------------------------

/// Lexes raw source text into the fully materialized token stream, or `None`
/// when some position of the stripped text matches no pattern.
#[verifier::loop_isolation(false)]
pub fn lex(src: String) -> (r: Option<Tokens>)
    ensures
        r is Some <==> lex_spec(src@) is Some,
        r is Some ==> r->Some_0.deep_view() == lex_spec(src@)->Some_0,
{
    let stripped_b = strip_block_x(src.as_str());
    let stripped = strip_line_x(stripped_b.as_str());
    let s = stripped.as_str();
    let n = s.unicode_len();
    let mut tokens: Tokens = VecDeque::new();
    let mut pos: usize = 0;
    let mut nl: usize = 0;
    let mut col: usize = 0;
    proof {
        assert(tokens.deep_view() =~= Seq::<TokView>::empty());
    }
    while pos < n
        invariant
            pos <= n,
            nl as int == nl_count(s@, pos as int),
            nl <= pos,
            col as int == col_of(s@, pos as int),
            col <= pos,
            match lex_from(s@, pos as int) {
                Some(rest) => lex_from(s@, 0) == Some(tokens.deep_view() + rest),
                None => lex_from(s@, 0) == None::<Seq<TokView>>,
            },
        decreases n - pos,
    {
        let c = s.get_char(pos);
        if is_space_c(c) {
            if c == '\n' {
                nl = nl + 1;
                col = 0;
            } else {
                col = col + 1;
            }
            pos = pos + 1;
        } else {
            match try_match(s, pos, n) {
                None => {
                    return None;
                },
                Some((tt, len)) => {
                    let ghost prev_pos = pos as int;
                    let ghost prev_toks = tokens.deep_view();
                    let text = s.substring_char(pos, pos + len).to_owned();
                    let tok = Token { line: nl + 1, index: col, token_type: tt, substring: text };
                    let ghost tokv = TokView {
                        line: line_of(s@, prev_pos),
                        index: col_of(s@, prev_pos),
                        kind: tt,
                        text: s@.subrange(prev_pos, prev_pos + len),
                    };
                    proof {
                        assert(tok@ == tokv);
                    }
                    tokens.push_back(tok);
                    proof {
                        assert(tokens.deep_view() =~= prev_toks.push(tokv));
                    }
                    let mut k: usize = 0;
                    while k < len
                        invariant
                            0 <= k <= len,
                            pos + len <= n,
                            nl as int == nl_count(s@, pos + k),
                            nl <= pos + k,
                            col as int == col_of(s@, pos + k),
                            col <= pos + k,
                        decreases len - k,
                    {
                        let ch = s.get_char(pos + k);
                        if ch == '\n' {
                            nl = nl + 1;
                            col = 0;
                        } else {
                            col = col + 1;
                        }
                        k = k + 1;
                    }
                    pos = pos + len;
                    proof {
                        if lex_from(s@, pos as int) is Some {
                            let rest = lex_from(s@, pos as int)->Some_0;
                            assert(lex_from(s@, prev_pos) == Some(seq![tokv] + rest));
                            assert(prev_toks.push(tokv) + rest =~= prev_toks + (seq![tokv] + rest));
                        } else {
                            assert(lex_from(s@, prev_pos) == None::<Seq<TokView>>);
                        }
                    }
                },
            }
        }
    }
    proof {
        assert(lex_from(s@, pos as int) == Some(Seq::<TokView>::empty()));
        assert(tokens.deep_view() + Seq::<TokView>::empty() =~= tokens.deep_view());
    }
    Some(tokens)
}

} // verus!
