//! Reading the statement of a step: cutting it into pieces and finding the
//! tables that it defines.

use vstd::prelude::*;
use vstd::string::StringSliceAdditionalSpecFns;

verus! {

pub const TAB: u8 = 9;

pub const NEWLINE: u8 = 10;

pub const CARRIAGE_RETURN: u8 = 13;

pub const SPACE: u8 = 32;

pub const DOUBLE_QUOTE: u8 = 34;

pub const DOLLAR: u8 = 36;

pub const SINGLE_QUOTE: u8 = 39;

pub const STAR: u8 = 42;

pub const MINUS: u8 = 45;

pub const DOT: u8 = 46;

pub const SLASH: u8 = 47;

pub const DIGIT_ZERO: u8 = 48;

pub const DIGIT_NINE: u8 = 57;

pub const UPPER_A: u8 = 65;

pub const UPPER_Z: u8 = 90;

pub const OPEN_BRACKET: u8 = 91;

pub const CLOSE_BRACKET: u8 = 93;

pub const UNDERSCORE: u8 = 95;

pub const BACKTICK: u8 = 96;

pub const LOWER_A: u8 = 97;

pub const LOWER_Z: u8 = 122;

/// Blank bytes: the space, and the controls from tab to carriage return.
pub open spec fn is_space(b: u8) -> bool {
    b == SPACE || (TAB <= b && b <= CARRIAGE_RETURN)
}

/// Bytes that a bare word is made of: ASCII letters and digits, `_`, `$`, and
/// every byte outside ASCII.
pub open spec fn is_word_byte(b: u8) -> bool {
    (LOWER_A <= b && b <= LOWER_Z) || (UPPER_A <= b && b <= UPPER_Z) || (DIGIT_ZERO <= b && b
        <= DIGIT_NINE) || b == UNDERSCORE || b == DOLLAR || b >= 128
}

/// The byte with an ASCII capital turned into its small letter.
pub open spec fn lower(b: u8) -> u8 {
    if UPPER_A <= b && b <= UPPER_Z {
        (b + 32) as u8
    } else {
        b
    }
}

/// A text with every ASCII capital turned into its small letter.
pub open spec fn folded(text: Seq<u8>) -> Seq<u8> {
    Seq::new(text.len(), |k: int| lower(text[k]))
}

/// The first index from `i` on that holds the byte `b`, or the length of `s`
/// where none does.
pub open spec fn find_byte(s: Seq<u8>, i: int, b: u8) -> int
    decreases s.len() - i,
{
    if 0 <= i < s.len() {
        if s[i] == b {
            i
        } else {
            find_byte(s, i + 1, b)
        }
    } else {
        s.len() as int
    }
}

/// The first index from `i` on that holds no word byte, or the length of `s`.
pub open spec fn word_end(s: Seq<u8>, i: int) -> int
    decreases s.len() - i,
{
    if 0 <= i < s.len() {
        if is_word_byte(s[i]) {
            word_end(s, i + 1)
        } else {
            i
        }
    } else {
        s.len() as int
    }
}

/// The index of the quote `q` that closes a quoted run whose content starts
/// at `i`, or the length of `s` where the run is never closed. Two quotes in a
/// row stand for one inside the run and do not close it.
pub open spec fn quote_close(s: Seq<u8>, i: int, q: u8) -> int
    decreases s.len() - i,
{
    if 0 <= i < s.len() {
        if s[i] != q {
            quote_close(s, i + 1, q)
        } else if i + 1 < s.len() && s[i + 1] == q {
            quote_close(s, i + 2, q)
        } else {
            i
        }
    } else {
        s.len() as int
    }
}

/// The index just behind the `*/` that closes a block comment whose content
/// starts at `i`, or the length of `s` where the comment is never closed.
pub open spec fn comment_close(s: Seq<u8>, i: int) -> int
    decreases s.len() - i,
{
    if 0 <= i && i + 1 < s.len() {
        if s[i] == STAR && s[i + 1] == SLASH {
            i + 2
        } else {
            comment_close(s, i + 1)
        }
    } else {
        s.len() as int
    }
}

pub proof fn lemma_find_byte_bounds(s: Seq<u8>, i: int, b: u8)
    requires
        0 <= i <= s.len(),
    ensures
        i <= find_byte(s, i, b) <= s.len(),
    decreases s.len() - i,
{
    if i < s.len() && s[i] != b {
        lemma_find_byte_bounds(s, i + 1, b);
    }
}

pub proof fn lemma_word_end_bounds(s: Seq<u8>, i: int)
    requires
        0 <= i <= s.len(),
    ensures
        i <= word_end(s, i) <= s.len(),
    decreases s.len() - i,
{
    if i < s.len() && is_word_byte(s[i]) {
        lemma_word_end_bounds(s, i + 1);
    }
}

pub proof fn lemma_quote_close_bounds(s: Seq<u8>, i: int, q: u8)
    requires
        0 <= i <= s.len(),
    ensures
        i <= quote_close(s, i, q) <= s.len(),
    decreases s.len() - i,
{
    if i < s.len() {
        if s[i] != q {
            lemma_quote_close_bounds(s, i + 1, q);
        } else if i + 1 < s.len() && s[i + 1] == q {
            lemma_quote_close_bounds(s, i + 2, q);
        }
    }
}

pub proof fn lemma_comment_close_bounds(s: Seq<u8>, i: int)
    requires
        0 <= i <= s.len(),
    ensures
        i <= comment_close(s, i) <= s.len(),
    decreases s.len() - i,
{
    if i + 1 < s.len() && !(s[i] == STAR && s[i + 1] == SLASH) {
        lemma_comment_close_bounds(s, i + 1);
    }
}

fn byte_is_space(b: u8) -> (r: bool)
    ensures
        r == is_space(b),
{
    b == SPACE || (TAB <= b && b <= CARRIAGE_RETURN)
}

fn byte_is_word(b: u8) -> (r: bool)
    ensures
        r == is_word_byte(b),
{
    (LOWER_A <= b && b <= LOWER_Z) || (UPPER_A <= b && b <= UPPER_Z) || (DIGIT_ZERO <= b && b
        <= DIGIT_NINE) || b == UNDERSCORE || b == DOLLAR || b >= 128
}

fn byte_lower(b: u8) -> (r: u8)
    ensures
        r == lower(b),
{
    if UPPER_A <= b && b <= UPPER_Z {
        b + 32
    } else {
        b
    }
}

fn seek_byte(s: &[u8], i: usize, b: u8) -> (r: usize)
    requires
        i <= s.len(),
    ensures
        r == find_byte(s@, i as int, b),
        i <= r <= s.len(),
{
    let mut j: usize = i;
    while j < s.len() && s[j] != b
        invariant
            i <= j <= s.len(),
            find_byte(s@, j as int, b) == find_byte(s@, i as int, b),
        decreases s.len() - j,
    {
        j += 1;
    }
    j
}

fn seek_word_end(s: &[u8], i: usize) -> (r: usize)
    requires
        i <= s.len(),
    ensures
        r == word_end(s@, i as int),
        i <= r <= s.len(),
{
    let mut j: usize = i;
    while j < s.len() && byte_is_word(s[j])
        invariant
            i <= j <= s.len(),
            word_end(s@, j as int) == word_end(s@, i as int),
        decreases s.len() - j,
    {
        j += 1;
    }
    j
}

fn seek_quote_close(s: &[u8], i: usize, q: u8) -> (r: usize)
    requires
        i <= s.len(),
    ensures
        r == quote_close(s@, i as int, q),
        i <= r <= s.len(),
{
    let mut j: usize = i;
    while j < s.len()
        invariant
            i <= j <= s.len(),
            quote_close(s@, j as int, q) == quote_close(s@, i as int, q),
        decreases s.len() - j,
    {
        if s[j] != q {
            j += 1;
        } else if j + 1 < s.len() && s[j + 1] == q {
            j += 2;
        } else {
            return j;
        }
    }
    j
}

fn seek_comment_close(s: &[u8], i: usize) -> (r: usize)
    requires
        i <= s.len(),
    ensures
        r == comment_close(s@, i as int),
        i <= r <= s.len(),
{
    let mut j: usize = i;
    while j < s.len() && j + 1 < s.len()
        invariant
            i <= j <= s.len(),
            comment_close(s@, j as int) == comment_close(s@, i as int),
        decreases s.len() - j,
    {
        if s[j] == STAR && s[j + 1] == SLASH {
            return j + 2;
        }
        j += 1;
    }
    s.len()
}

/// What a piece of a statement is, as far as the scanner tells pieces apart.
#[derive(Debug, Clone, Copy, PartialEq, Eq, Structural)]
pub enum TokenKind {
    /// A bare word: a keyword, a name or a number.
    Word,
    /// A name written between `"`, a pair of backticks, or `[` and `]`.
    Quoted,
    /// A text value written between `'`.
    Literal,
    /// Any other single byte.
    Symbol,
}

/// A piece of a statement: its kind and its text. For a quoted name and for
/// a text value, the text is what stands between the quotes, as written.
pub struct Lexeme {
    pub kind: TokenKind,
    pub text: Seq<u8>,
}

/// The place of a piece in a statement: its text is `statement[start..end]`.
pub struct Span {
    pub kind: TokenKind,
    pub start: int,
    pub end: int,
}

/// A piece of a statement by its place: its text is `statement[start..end]`.
#[derive(Debug, Clone, Copy, PartialEq, Eq, Structural)]
pub struct Token {
    pub kind: TokenKind,
    pub start: usize,
    pub end: usize,
}

impl View for Token {
    type V = Span;

    open spec fn view(&self) -> Span {
        Span { kind: self.kind, start: self.start as int, end: self.end as int }
    }
}

/// What stands at one place of a statement: a piece, or nothing where the
/// place holds blank space or a comment; and the place where the scan goes on.
pub struct Scan {
    pub kind: Option<TokenKind>,
    pub start: int,
    pub end: int,
    pub next: int,
}

/// The index behind a closing quote at `close`, which is the length of `s`
/// where the quote is missing.
pub open spec fn behind(s: Seq<u8>, close: int) -> int {
    if close < s.len() {
        close + 1
    } else {
        s.len() as int
    }
}

/// What stands at index `i` of the statement `s`, for `0 <= i < s.len()`.
///
/// Blank bytes are skipped one by one. `--` starts a comment that runs to
/// the end of the line, `/*` one that runs to the next `*/`. `'` starts a
/// text value; `"`, a backtick and `[` start a quoted name. A word byte
/// starts a bare word, which runs as far as word bytes go. Any other byte is
/// a symbol by itself.
pub open spec fn scan_at(s: Seq<u8>, i: int) -> Scan {
    let b = s[i];
    if is_space(b) {
        Scan { kind: None, start: i, end: i, next: i + 1 }
    } else if b == MINUS && i + 1 < s.len() && s[i + 1] == MINUS {
        Scan { kind: None, start: i, end: i, next: find_byte(s, i + 2, NEWLINE) }
    } else if b == SLASH && i + 1 < s.len() && s[i + 1] == STAR {
        Scan { kind: None, start: i, end: i, next: comment_close(s, i + 2) }
    } else if b == SINGLE_QUOTE {
        let close = quote_close(s, i + 1, b);
        Scan { kind: Some(TokenKind::Literal), start: i + 1, end: close, next: behind(s, close) }
    } else if b == DOUBLE_QUOTE || b == BACKTICK {
        let close = quote_close(s, i + 1, b);
        Scan { kind: Some(TokenKind::Quoted), start: i + 1, end: close, next: behind(s, close) }
    } else if b == OPEN_BRACKET {
        let close = find_byte(s, i + 1, CLOSE_BRACKET);
        Scan { kind: Some(TokenKind::Quoted), start: i + 1, end: close, next: behind(s, close) }
    } else if is_word_byte(b) {
        let end = word_end(s, i + 1);
        Scan { kind: Some(TokenKind::Word), start: i, end: end, next: end }
    } else {
        Scan { kind: Some(TokenKind::Symbol), start: i, end: i + 1, next: i + 1 }
    }
}

/// A scan moves forward and stays inside the statement.
pub proof fn lemma_scan_advances(s: Seq<u8>, i: int)
    requires
        0 <= i < s.len(),
    ensures
        i < scan_at(s, i).next <= s.len(),
        i <= scan_at(s, i).start <= scan_at(s, i).end <= scan_at(s, i).next,
{
    let b = s[i];
    if b == MINUS && i + 1 < s.len() && s[i + 1] == MINUS {
        lemma_find_byte_bounds(s, i + 2, NEWLINE);
    } else if b == SLASH && i + 1 < s.len() && s[i + 1] == STAR {
        lemma_comment_close_bounds(s, i + 2);
    }
    lemma_quote_close_bounds(s, i + 1, b);
    lemma_find_byte_bounds(s, i + 1, CLOSE_BRACKET);
    lemma_word_end_bounds(s, i + 1);
}

/// The places of the pieces of the statement `s` from index `i` on, in the
/// order in which they stand.
pub open spec fn spans_from(s: Seq<u8>, i: int) -> Seq<Span>
    decreases s.len() - i,
    via spans_from_decreases
{
    if 0 <= i < s.len() {
        let scan = scan_at(s, i);
        match scan.kind {
            Some(kind) => seq![Span { kind, start: scan.start, end: scan.end }] + spans_from(
                s,
                scan.next,
            ),
            None => spans_from(s, scan.next),
        }
    } else {
        Seq::empty()
    }
}

#[via_fn]
proof fn spans_from_decreases(s: Seq<u8>, i: int) {
    if 0 <= i < s.len() {
        lemma_scan_advances(s, i);
    }
}

/// The places of the pieces of the statement `s`.
pub open spec fn spans(s: Seq<u8>) -> Seq<Span> {
    spans_from(s, 0)
}

/// The piece that stands at a place of the statement `s`.
pub open spec fn lexeme_at(s: Seq<u8>, span: Span) -> Lexeme {
    Lexeme { kind: span.kind, text: s.subrange(span.start, span.end) }
}

/// The pieces of the statement `s`, in the order in which they stand.
pub open spec fn lexemes(s: Seq<u8>) -> Seq<Lexeme> {
    Seq::new(spans(s).len(), |k: int| lexeme_at(s, spans(s)[k]))
}

/// The places that a list of tokens names.
pub open spec fn spans_of(toks: Seq<Token>) -> Seq<Span> {
    Seq::new(toks.len(), |k: int| toks[k]@)
}

/// The pieces that the tokens `toks` are in the statement `s`.
pub open spec fn lexemes_of(s: Seq<u8>, toks: Seq<Token>) -> Seq<Lexeme> {
    Seq::new(toks.len(), |k: int| lexeme_at(s, toks[k]@))
}

/// Every token lies inside a statement of length `len`.
pub open spec fn tokens_within(toks: Seq<Token>, len: int) -> bool {
    forall|k: int| 0 <= k < toks.len() ==> (#[trigger] toks[k]).start <= toks[k].end <= len
}

fn scan(s: &[u8], i: usize) -> (r: (Option<Token>, usize))
    requires
        i < s.len(),
    ensures
        r.1 == scan_at(s@, i as int).next,
        i < r.1 <= s.len(),
        match r.0 {
            Some(tok) => scan_at(s@, i as int).kind == Some(tok.kind) && tok.start == scan_at(
                s@,
                i as int,
            ).start && tok.end == scan_at(s@, i as int).end && tok.start <= tok.end <= s.len(),
            None => scan_at(s@, i as int).kind is None,
        },
{
    proof {
        lemma_scan_advances(s@, i as int);
    }
    let n = s.len();
    let b = s[i];
    if byte_is_space(b) {
        (None, i + 1)
    } else if b == MINUS && i + 1 < n && s[i + 1] == MINUS {
        (None, seek_byte(s, i + 2, NEWLINE))
    } else if b == SLASH && i + 1 < n && s[i + 1] == STAR {
        (None, seek_comment_close(s, i + 2))
    } else if b == SINGLE_QUOTE || b == DOUBLE_QUOTE || b == BACKTICK {
        let close = seek_quote_close(s, i + 1, b);
        let kind = if b == SINGLE_QUOTE {
            TokenKind::Literal
        } else {
            TokenKind::Quoted
        };
        let next = if close < n {
            close + 1
        } else {
            n
        };
        (Some(Token { kind, start: i + 1, end: close }), next)
    } else if b == OPEN_BRACKET {
        let close = seek_byte(s, i + 1, CLOSE_BRACKET);
        let next = if close < n {
            close + 1
        } else {
            n
        };
        (Some(Token { kind: TokenKind::Quoted, start: i + 1, end: close }), next)
    } else if byte_is_word(b) {
        let end = seek_word_end(s, i + 1);
        (Some(Token { kind: TokenKind::Word, start: i, end }), end)
    } else {
        (Some(Token { kind: TokenKind::Symbol, start: i, end: i + 1 }), i + 1)
    }
}

/// Cuts a statement into its pieces, leaving out blank space and comments.
pub fn tokenize(s: &[u8]) -> (toks: Vec<Token>)
    ensures
        spans_of(toks@) == spans(s@),
        lexemes_of(s@, toks@) == lexemes(s@),
        tokens_within(toks@, s.len() as int),
{
    let mut toks: Vec<Token> = Vec::new();
    let mut i: usize = 0;
    while i < s.len()
        invariant
            i <= s.len(),
            spans_of(toks@) + spans_from(s@, i as int) == spans(s@),
            tokens_within(toks@, s.len() as int),
        decreases s.len() - i,
    {
        let ghost before = toks@;
        let (found, next) = scan(s, i);
        match found {
            Some(tok) => {
                toks.push(tok);
                assert(spans_of(toks@) + spans_from(s@, next as int) =~= spans_of(before)
                    + spans_from(s@, i as int));
            },
            None => {},
        }
        i = next;
    }
    toks
}

/// The piece at index `i` is the bare word `word`, in capitals or small
/// letters.
pub open spec fn is_word(l: Seq<Lexeme>, i: int, word: Seq<u8>) -> bool {
    0 <= i < l.len() && l[i].kind == TokenKind::Word && folded(l[i].text) == word
}

/// The piece at index `i` is a dot.
pub open spec fn is_dot(l: Seq<Lexeme>, i: int) -> bool {
    0 <= i < l.len() && l[i].kind == TokenKind::Symbol && l[i].text == seq![DOT]
}

/// The piece at index `i` can be a name: a bare word or a quoted name.
pub open spec fn is_name(l: Seq<Lexeme>, i: int) -> bool {
    0 <= i < l.len() && (l[i].kind == TokenKind::Word || l[i].kind == TokenKind::Quoted)
}

/// The index behind an optional `TEMP`, `TEMPORARY` or `VIRTUAL` at `i`.
pub open spec fn behind_modifier(l: Seq<Lexeme>, i: int) -> int {
    if is_word(l, i, "temp".spec_bytes()) || is_word(l, i, "temporary".spec_bytes()) || is_word(
        l,
        i,
        "virtual".spec_bytes(),
    ) {
        i + 1
    } else {
        i
    }
}

/// The index behind an optional `IF NOT EXISTS` at `i`.
pub open spec fn behind_guard(l: Seq<Lexeme>, i: int) -> int {
    if is_word(l, i, "if".spec_bytes()) && is_word(l, i + 1, "not".spec_bytes()) && is_word(
        l,
        i + 2,
        "exists".spec_bytes(),
    ) {
        i + 3
    } else {
        i
    }
}

/// The index of the table's own name where a name starts at `i`: behind the
/// schema and the dot where the name is written as `schema.table`.
pub open spec fn behind_schema(l: Seq<Lexeme>, i: int) -> int {
    if is_name(l, i) && is_dot(l, i + 1) && is_name(l, i + 2) {
        i + 2
    } else {
        i
    }
}

/// The name of the table whose definition starts with the piece at index
/// `i`, if one starts there: `CREATE`, an optional `TEMP`, `TEMPORARY` or
/// `VIRTUAL`, `TABLE`, an optional `IF NOT EXISTS`, and the name, with or
/// without a schema before it. The name is given with its ASCII capitals
/// turned into small letters, since the store tells names apart without
/// regard to them.
pub open spec fn table_defined_at(l: Seq<Lexeme>, i: int) -> Option<Seq<u8>> {
    let table = behind_modifier(l, i + 1);
    let name = behind_schema(l, behind_guard(l, table + 1));
    if is_word(l, i, "create".spec_bytes()) && is_word(l, table, "table".spec_bytes()) && is_name(
        l,
        name,
    ) {
        Some(folded(l[name].text))
    } else {
        None
    }
}

/// The names of the tables whose definitions start among the first `n`
/// pieces, in the order of the definitions.
pub open spec fn tables_upto(l: Seq<Lexeme>, n: int) -> Seq<Seq<u8>>
    decreases n,
{
    if n <= 0 {
        Seq::empty()
    } else {
        match table_defined_at(l, n - 1) {
            Some(name) => tables_upto(l, n - 1).push(name),
            None => tables_upto(l, n - 1),
        }
    }
}

/// The names of the tables that a statement defines, in the order of the
/// definitions.
pub open spec fn table_names(statement: Seq<u8>) -> Seq<Seq<u8>> {
    tables_upto(lexemes(statement), lexemes(statement).len() as int)
}

/// What a list of byte vectors holds.
pub open spec fn texts(names: Seq<Vec<u8>>) -> Seq<Seq<u8>> {
    Seq::new(names.len(), |k: int| names[k]@)
}

fn word_is(s: &[u8], toks: &Vec<Token>, i: usize, word: &str) -> (r: bool)
    requires
        tokens_within(toks@, s.len() as int),
    ensures
        r == is_word(lexemes_of(s@, toks@), i as int, word.spec_bytes()),
{
    if i >= toks.len() {
        return false;
    }
    let tok = toks[i];
    let w = word.as_bytes();
    let ghost text = s@.subrange(tok.start as int, tok.end as int);
    match tok.kind {
        TokenKind::Word => {},
        _ => {
            return false;
        },
    }
    if tok.end - tok.start != w.len() {
        return false;
    }
    let mut k: usize = 0;
    while k < w.len()
        invariant
            k <= w.len(),
            i < toks.len(),
            w@ == word.spec_bytes(),
            tok.kind == TokenKind::Word,
            tok.start <= tok.end <= s.len(),
            tok.end - tok.start == w.len(),
            text == s@.subrange(tok.start as int, tok.end as int),
            lexemes_of(s@, toks@)[i as int] == (Lexeme { kind: tok.kind, text }),
            forall|j: int| 0 <= j < k ==> lower(text[j]) == w@[j],
        decreases w.len() - k,
    {
        if byte_lower(s[tok.start + k]) != w[k] {
            return false;
        }
        k += 1;
    }
    assert(folded(text) =~= w@);
    true
}

fn name_at(toks: &Vec<Token>, i: usize) -> (r: bool)
    ensures
        r == (i < toks.len() && (toks[i as int].kind == TokenKind::Word || toks[i as int].kind
            == TokenKind::Quoted)),
{
    if i >= toks.len() {
        return false;
    }
    match toks[i].kind {
        TokenKind::Word => true,
        TokenKind::Quoted => true,
        _ => false,
    }
}

fn dot_at(s: &[u8], toks: &Vec<Token>, i: usize) -> (r: bool)
    requires
        tokens_within(toks@, s.len() as int),
    ensures
        r == is_dot(lexemes_of(s@, toks@), i as int),
{
    if i >= toks.len() {
        return false;
    }
    let tok = toks[i];
    let ghost text = s@.subrange(tok.start as int, tok.end as int);
    match tok.kind {
        TokenKind::Symbol => {},
        _ => {
            return false;
        },
    }
    if tok.end - tok.start == 1 && s[tok.start] == DOT {
        assert(text =~= seq![DOT]);
        true
    } else {
        assert(text == seq![DOT] ==> text.len() == 1 && text[0] == DOT);
        false
    }
}

fn fold_text(s: &[u8], tok: Token) -> (name: Vec<u8>)
    requires
        tok.start <= tok.end <= s.len(),
    ensures
        name@ == folded(lexeme_at(s@, tok@).text),
{
    let mut name: Vec<u8> = Vec::new();
    let mut k: usize = tok.start;
    while k < tok.end
        invariant
            tok.start <= k <= tok.end <= s.len(),
            name@.len() == k - tok.start,
            forall|j: int| 0 <= j < name@.len() ==> name@[j] == lower(s@[tok.start + j]),
        decreases tok.end - k,
    {
        name.push(byte_lower(s[k]));
        k += 1;
    }
    name
}

fn defined_at(s: &[u8], toks: &Vec<Token>, i: usize) -> (r: Option<Vec<u8>>)
    requires
        tokens_within(toks@, s.len() as int),
    ensures
        match r {
            Some(name) => table_defined_at(lexemes_of(s@, toks@), i as int) == Some(name@),
            None => table_defined_at(lexemes_of(s@, toks@), i as int) is None,
        },
{
    let ghost l = lexemes_of(s@, toks@);
    assert(l.len() == toks.len());
    if !word_is(s, toks, i, "create") {
        return None;
    }
    let mut table: usize = i + 1;
    if word_is(s, toks, table, "temp") || word_is(s, toks, table, "temporary") || word_is(
        s,
        toks,
        table,
        "virtual",
    ) {
        table += 1;
    }
    if !word_is(s, toks, table, "table") {
        return None;
    }
    let mut name: usize = table + 1;
    if word_is(s, toks, name, "if") && word_is(s, toks, name + 1, "not") && word_is(
        s,
        toks,
        name + 2,
        "exists",
    ) {
        name += 3;
    }
    if name_at(toks, name) && dot_at(s, toks, name + 1) && name_at(toks, name + 2) {
        name += 2;
    }
    if !name_at(toks, name) {
        return None;
    }
    Some(fold_text(s, toks[name]))
}

/// The names of the tables that a statement defines, in the order of the
/// definitions, each with its ASCII capitals turned into small letters.
pub fn defined_tables(statement: &[u8]) -> (names: Vec<Vec<u8>>)
    ensures
        texts(names@) == table_names(statement@),
{
    let toks = tokenize(statement);
    let ghost l = lexemes(statement@);
    let mut names: Vec<Vec<u8>> = Vec::new();
    let mut i: usize = 0;
    while i < toks.len()
        invariant
            i <= toks.len(),
            l == lexemes(statement@),
            lexemes_of(statement@, toks@) == l,
            tokens_within(toks@, statement.len() as int),
            texts(names@) == tables_upto(l, i as int),
        decreases toks.len() - i,
    {
        match defined_at(statement, &toks, i) {
            Some(name) => {
                names.push(name);
            },
            None => {},
        }
        i += 1;
    }
    names
}

} // verus!
