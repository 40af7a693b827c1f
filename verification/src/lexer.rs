//! The lexical analyzer: turns a file's raw bytes into a finite, fully
//! materialized sequence of positioned tokens, ending with exactly one
//! end-of-input marker.  Lexing never fails: unrecognized bytes degrade to
//! one-byte garbage tokens.

use vstd::prelude::*;
use vstd::string::StringExecFns;
use crate::compiler::{FileId, NumericConstant};

verus! {

/// A half-open byte range `[start, end)` within one identified file, used
/// to attribute token and AST data back to source text for diagnostics.
#[derive(Clone, Copy, PartialEq, Eq, Structural, Debug)]
pub struct Span {
    pub file_id: FileId,
    pub start: usize,
    pub end: usize,
}

impl Span {
    pub fn new(file_id: FileId, start: usize, end: usize) -> (r: Self)
        ensures
            r == (Span { file_id, start, end }),
    {
        Span { file_id, start, end }
    }

    /// The smallest span covering both inputs: minimum of the starts,
    /// maximum of the ends.  Meaningful only for spans of one file.
    pub open spec fn spec_merge(a: Span, b: Span) -> Span {
        Span {
            file_id: a.file_id,
            start: if a.start <= b.start {
                a.start
            } else {
                b.start
            },
            end: if a.end >= b.end {
                a.end
            } else {
                b.end
            },
        }
    }

    /// Merges two spans of the same file into the smallest span covering
    /// both.  Merging spans of different files is a contract violation,
    /// ruled out by the precondition.
    pub fn merge(&self, other: &Span) -> (r: Span)
        requires
            self.file_id == other.file_id,
        ensures
            r == Span::spec_merge(*self, *other),
    {
        Span {
            file_id: self.file_id,
            start: if self.start <= other.start {
                self.start
            } else {
                other.start
            },
            end: if self.end >= other.end {
                self.end
            } else {
                other.end
            },
        }
    }
}

/// `outer` covers `inner`: same file, and `inner`'s range lies inside
/// `outer`'s.
pub open spec fn span_covers(outer: Span, inner: Span) -> bool {
    &&& outer.file_id == inner.file_id
    &&& outer.start <= inner.start
    &&& inner.end <= outer.end
}

/// Law: span merge is commutative.  It is defined only for spans sharing a
/// file id.
pub proof fn lemma_merge_commutative(a: Span, b: Span)
    requires
        a.file_id == b.file_id,
    ensures
        Span::spec_merge(a, b) == Span::spec_merge(b, a),
{
}

/// Law: span merge is associative.  It is defined only for spans sharing a
/// file id.
pub proof fn lemma_merge_associative(a: Span, b: Span, c: Span)
    requires
        a.file_id == b.file_id,
        b.file_id == c.file_id,
    ensures
        Span::spec_merge(Span::spec_merge(a, b), c) == Span::spec_merge(a, Span::spec_merge(b, c)),
{
}

/// Law: the merge of two spans of one file is the minimal covering span:
/// it covers both inputs, and any span covering both inputs covers it.
pub proof fn lemma_merge_minimal(a: Span, b: Span)
    requires
        a.file_id == b.file_id,
    ensures
        span_covers(Span::spec_merge(a, b), a),
        span_covers(Span::spec_merge(a, b), b),
        forall|c: Span| span_covers(c, a) && span_covers(c, b) ==> span_covers(
            c,
            Span::spec_merge(a, b),
        ),
{
}

/// A span from `start` to `end` (both already known to fit the machine
/// word) in the given file.
pub open spec fn span_of(file_id: FileId, start: int, end: int) -> Span {
    Span { file_id, start: start as usize, end: end as usize }
}

/// What a token holds, one of a closed set of kinds: identifiers and
/// literals carry their text or value; keywords, punctuation, the garbage
/// marker and the end-of-input marker carry nothing.
#[derive(Clone, Debug)]
pub enum TokenContents {
    Identifier(String),
    Number(NumericConstant),
    String(String),
    Fun,
    Let,
    If,
    Else,
    While,
    For,
    Return,
    True,
    False,
    Semicolon,
    LParen,
    RParen,
    LBrace,
    RBrace,
    Plus,
    Minus,
    Equal,
    Comma,
    Mut,
    Colon,
    ThinArrow,
    Garbage,
    EOF,
}

/// The mathematical shape of a token's contents: text is a sequence of
/// characters, everything else is carried as is.
pub ghost enum TokenKind {
    Identifier(Seq<char>),
    Number(NumericConstant),
    StrLit(Seq<char>),
    Fun,
    Let,
    If,
    Else,
    While,
    For,
    Return,
    True,
    False,
    Semicolon,
    LParen,
    RParen,
    LBrace,
    RBrace,
    Plus,
    Minus,
    Equal,
    Comma,
    Mut,
    Colon,
    ThinArrow,
    Garbage,
    EOF,
}

impl View for TokenContents {
    type V = TokenKind;

    open spec fn view(&self) -> TokenKind {
        match self {
            TokenContents::Identifier(s) => TokenKind::Identifier(s@),
            TokenContents::Number(n) => TokenKind::Number(*n),
            TokenContents::String(s) => TokenKind::StrLit(s@),
            TokenContents::Fun => TokenKind::Fun,
            TokenContents::Let => TokenKind::Let,
            TokenContents::If => TokenKind::If,
            TokenContents::Else => TokenKind::Else,
            TokenContents::While => TokenKind::While,
            TokenContents::For => TokenKind::For,
            TokenContents::Return => TokenKind::Return,
            TokenContents::True => TokenKind::True,
            TokenContents::False => TokenKind::False,
            TokenContents::Semicolon => TokenKind::Semicolon,
            TokenContents::LParen => TokenKind::LParen,
            TokenContents::RParen => TokenKind::RParen,
            TokenContents::LBrace => TokenKind::LBrace,
            TokenContents::RBrace => TokenKind::RBrace,
            TokenContents::Plus => TokenKind::Plus,
            TokenContents::Minus => TokenKind::Minus,
            TokenContents::Equal => TokenKind::Equal,
            TokenContents::Comma => TokenKind::Comma,
            TokenContents::Mut => TokenKind::Mut,
            TokenContents::Colon => TokenKind::Colon,
            TokenContents::ThinArrow => TokenKind::ThinArrow,
            TokenContents::Garbage => TokenKind::Garbage,
            TokenContents::EOF => TokenKind::EOF,
        }
    }
}

impl PartialEq for TokenContents {
    /// Token contents are compared by kind and carried text or value,
    /// never by position.
    #[verifier::rlimit(50)]
    fn eq(&self, other: &Self) -> bool {
        match (self, other) {
            (TokenContents::Identifier(a), TokenContents::Identifier(b)) => *a == *b,
            (TokenContents::Number(a), TokenContents::Number(b)) => *a == *b,
            (TokenContents::String(a), TokenContents::String(b)) => *a == *b,
            (TokenContents::Fun, TokenContents::Fun) => true,
            (TokenContents::Let, TokenContents::Let) => true,
            (TokenContents::If, TokenContents::If) => true,
            (TokenContents::Else, TokenContents::Else) => true,
            (TokenContents::While, TokenContents::While) => true,
            (TokenContents::For, TokenContents::For) => true,
            (TokenContents::Return, TokenContents::Return) => true,
            (TokenContents::True, TokenContents::True) => true,
            (TokenContents::False, TokenContents::False) => true,
            (TokenContents::Semicolon, TokenContents::Semicolon) => true,
            (TokenContents::LParen, TokenContents::LParen) => true,
            (TokenContents::RParen, TokenContents::RParen) => true,
            (TokenContents::LBrace, TokenContents::LBrace) => true,
            (TokenContents::RBrace, TokenContents::RBrace) => true,
            (TokenContents::Plus, TokenContents::Plus) => true,
            (TokenContents::Minus, TokenContents::Minus) => true,
            (TokenContents::Equal, TokenContents::Equal) => true,
            (TokenContents::Comma, TokenContents::Comma) => true,
            (TokenContents::Mut, TokenContents::Mut) => true,
            (TokenContents::Colon, TokenContents::Colon) => true,
            (TokenContents::ThinArrow, TokenContents::ThinArrow) => true,
            (TokenContents::Garbage, TokenContents::Garbage) => true,
            (TokenContents::EOF, TokenContents::EOF) => true,
            _ => false,
        }
    }
}

impl vstd::std_specs::cmp::PartialEqSpecImpl for TokenContents {
    open spec fn obeys_eq_spec() -> bool {
        true
    }

    open spec fn eq_spec(&self, other: &Self) -> bool {
        self@ == other@
    }
}

/// The atomic lexical unit: a classified kind plus the span it occupies.
/// Tokens are immutable once produced.
#[derive(Clone, Debug)]
pub struct Token {
    pub contents: TokenContents,
    pub span: Span,
}

/// A token at the mathematical level: the kind and its span.
pub ghost struct TokenModel {
    pub contents: TokenKind,
    pub span: Span,
}

impl View for Token {
    type V = TokenModel;

    open spec fn view(&self) -> TokenModel {
        TokenModel { contents: self.contents@, span: self.span }
    }
}

impl Token {
    pub fn new(contents: TokenContents, span: Span) -> (r: Self)
        ensures
            r@ == (TokenModel { contents: contents@, span }),
    {
        Self { contents, span }
    }

    pub fn unknown(span: Span) -> (r: Self)
        ensures
            r@ == (TokenModel { contents: TokenKind::Garbage, span }),
    {
        Self { contents: TokenContents::Garbage, span }
    }
}

/// The models of a token sequence.
pub open spec fn views_of(ts: Seq<Token>) -> Seq<TokenModel> {
    ts.map_values(|t: Token| t@)
}

/// The bytes the lexer skips between tokens: space, tab, newline, carriage
/// return.
pub open spec fn is_ws_byte(b: u8) -> bool {
    b == 32 || b == 9 || b == 10 || b == 13
}

/// An ASCII decimal digit.
pub open spec fn is_digit_byte(b: u8) -> bool {
    48 <= b && b <= 57
}

/// A byte that may begin an identifier: an ASCII letter or an underscore.
pub open spec fn is_ident_start_byte(b: u8) -> bool {
    (97 <= b && b <= 122) || (65 <= b && b <= 90) || b == 95
}

/// A byte that may continue an identifier: a letter, a digit or an
/// underscore.
pub open spec fn is_ident_byte(b: u8) -> bool {
    is_ident_start_byte(b) || is_digit_byte(b)
}

/// Bytes promoted to characters one for one, by numeric value.  Text is
/// treated as a byte sequence; multi-byte encodings are not interpreted.
pub open spec fn chars_of_bytes(s: Seq<u8>) -> Seq<char> {
    s.map_values(|b: u8| b as char)
}

/// The characters of the byte range `[start, end)`.
pub open spec fn chars_of_range(s: Seq<u8>, start: int, end: int) -> Seq<char> {
    chars_of_bytes(s.subrange(start, end))
}

/// The first position at or after `pos` that does not hold whitespace.
pub open spec fn skip_ws_from(s: Seq<u8>, pos: int) -> int
    decreases s.len() - pos
        when 0 <= pos <= s.len()
{
    if pos < s.len() && is_ws_byte(s[pos]) {
        skip_ws_from(s, pos + 1)
    } else {
        pos
    }
}

/// The first position at or after `pos` that cannot continue an
/// identifier.
pub open spec fn ident_end(s: Seq<u8>, pos: int) -> int
    decreases s.len() - pos
        when 0 <= pos <= s.len()
{
    if pos < s.len() && is_ident_byte(s[pos]) {
        ident_end(s, pos + 1)
    } else {
        pos
    }
}

/// The first position at or after `pos` that does not hold a digit.
pub open spec fn digit_end(s: Seq<u8>, pos: int) -> int
    decreases s.len() - pos
        when 0 <= pos <= s.len()
{
    if pos < s.len() && is_digit_byte(s[pos]) {
        digit_end(s, pos + 1)
    } else {
        pos
    }
}

/// The first position at or after `pos` holding a double quote, or the end
/// of the buffer if none follows.
pub open spec fn str_end(s: Seq<u8>, pos: int) -> int
    decreases s.len() - pos
        when 0 <= pos <= s.len()
{
    if pos < s.len() && s[pos] != 34 {
        str_end(s, pos + 1)
    } else {
        pos
    }
}

/// One step of reading a decimal digit run as an unsigned 64-bit value:
/// shift the accumulator one decimal place, add the digit, keep the low 64
/// bits.
pub open spec fn mul10_add_digit(v: u64, digit: u8) -> u64 {
    (((v * 10) + (digit - 48)) % 0x1_0000_0000_0000_0000) as u64
}

/// The decimal value of the digit run `[start, end)`, reduced to 64 bits.
pub open spec fn digits_value(s: Seq<u8>, start: int, end: int) -> u64
    decreases end - start
        when start <= end
{
    if start < end {
        mul10_add_digit(digits_value(s, start, end - 1), s[end - 1])
    } else {
        0u64
    }
}

/// Classifies an accumulated word against the fixed keyword table;
/// unmatched text is an identifier carrying its text.
pub open spec fn keyword_kind(cs: Seq<char>) -> TokenKind {
    if cs == "fun"@ {
        TokenKind::Fun
    } else if cs == "let"@ {
        TokenKind::Let
    } else if cs == "if"@ {
        TokenKind::If
    } else if cs == "else"@ {
        TokenKind::Else
    } else if cs == "while"@ {
        TokenKind::While
    } else if cs == "for"@ {
        TokenKind::For
    } else if cs == "return"@ {
        TokenKind::Return
    } else if cs == "true"@ {
        TokenKind::True
    } else if cs == "false"@ {
        TokenKind::False
    } else if cs == "mut"@ {
        TokenKind::Mut
    } else {
        TokenKind::Identifier(cs)
    }
}

/// The token recognized at position `pos`, which must hold a
/// non-whitespace byte.
pub open spec fn token_at(s: Seq<u8>, file_id: FileId, pos: int) -> TokenModel
    recommends
        0 <= pos < s.len(),
        !is_ws_byte(s[pos]),
{
    let b = s[pos];
    if b == 59 {
        TokenModel { contents: TokenKind::Semicolon, span: span_of(file_id, pos, pos + 1) }
    } else if b == 40 {
        TokenModel { contents: TokenKind::LParen, span: span_of(file_id, pos, pos + 1) }
    } else if b == 41 {
        TokenModel { contents: TokenKind::RParen, span: span_of(file_id, pos, pos + 1) }
    } else if b == 123 {
        TokenModel { contents: TokenKind::LBrace, span: span_of(file_id, pos, pos + 1) }
    } else if b == 125 {
        TokenModel { contents: TokenKind::RBrace, span: span_of(file_id, pos, pos + 1) }
    } else if b == 43 {
        TokenModel { contents: TokenKind::Plus, span: span_of(file_id, pos, pos + 1) }
    } else if b == 45 {
        if pos + 1 < s.len() && s[pos + 1] == 62 {
            TokenModel { contents: TokenKind::ThinArrow, span: span_of(file_id, pos, pos + 2) }
        } else {
            TokenModel { contents: TokenKind::Minus, span: span_of(file_id, pos, pos + 1) }
        }
    } else if b == 61 {
        TokenModel { contents: TokenKind::Equal, span: span_of(file_id, pos, pos + 1) }
    } else if b == 44 {
        TokenModel { contents: TokenKind::Comma, span: span_of(file_id, pos, pos + 1) }
    } else if b == 58 {
        TokenModel { contents: TokenKind::Colon, span: span_of(file_id, pos, pos + 1) }
    } else if b == 34 {
        let e = str_end(s, pos + 1);
        TokenModel {
            contents: TokenKind::StrLit(chars_of_range(s, pos + 1, e)),
            span: span_of(file_id, pos + 1, e),
        }
    } else if is_digit_byte(b) {
        let e = digit_end(s, pos);
        TokenModel {
            contents: TokenKind::Number(NumericConstant::USize(digits_value(s, pos, e))),
            span: span_of(file_id, pos, e),
        }
    } else if is_ident_start_byte(b) {
        let e = ident_end(s, pos);
        TokenModel {
            contents: keyword_kind(chars_of_range(s, pos, e)),
            span: span_of(file_id, pos, e),
        }
    } else {
        TokenModel { contents: TokenKind::Garbage, span: span_of(file_id, pos, pos + 1) }
    }
}

/// The cursor position after consuming the token recognized at `pos`
/// (past the closing quote of a terminated string literal).
pub open spec fn next_pos(s: Seq<u8>, pos: int) -> int
    recommends
        0 <= pos < s.len(),
        !is_ws_byte(s[pos]),
{
    let b = s[pos];
    if b == 45 {
        if pos + 1 < s.len() && s[pos + 1] == 62 {
            pos + 2
        } else {
            pos + 1
        }
    } else if b == 34 {
        let e = str_end(s, pos + 1);
        if e < s.len() {
            e + 1
        } else {
            e
        }
    } else if is_digit_byte(b) {
        digit_end(s, pos)
    } else if is_ident_start_byte(b) {
        ident_end(s, pos)
    } else {
        pos + 1
    }
}

pub proof fn lemma_skip_ws_bounds(s: Seq<u8>, pos: int)
    requires
        0 <= pos <= s.len(),
    ensures
        pos <= skip_ws_from(s, pos) <= s.len(),
        skip_ws_from(s, pos) < s.len() ==> !is_ws_byte(s[skip_ws_from(s, pos)]),
        forall|k: int| pos <= k < skip_ws_from(s, pos) ==> is_ws_byte(s[k]),
    decreases s.len() - pos,
{
    if pos < s.len() && is_ws_byte(s[pos]) {
        lemma_skip_ws_bounds(s, pos + 1);
    }
}

pub proof fn lemma_ident_end_bounds(s: Seq<u8>, pos: int)
    requires
        0 <= pos <= s.len(),
    ensures
        pos <= ident_end(s, pos) <= s.len(),
        ident_end(s, pos) < s.len() ==> !is_ident_byte(s[ident_end(s, pos)]),
        forall|k: int| pos <= k < ident_end(s, pos) ==> is_ident_byte(s[k]),
    decreases s.len() - pos,
{
    if pos < s.len() && is_ident_byte(s[pos]) {
        lemma_ident_end_bounds(s, pos + 1);
    }
}

pub proof fn lemma_digit_end_bounds(s: Seq<u8>, pos: int)
    requires
        0 <= pos <= s.len(),
    ensures
        pos <= digit_end(s, pos) <= s.len(),
        digit_end(s, pos) < s.len() ==> !is_digit_byte(s[digit_end(s, pos)]),
        forall|k: int| pos <= k < digit_end(s, pos) ==> is_digit_byte(s[k]),
    decreases s.len() - pos,
{
    if pos < s.len() && is_digit_byte(s[pos]) {
        lemma_digit_end_bounds(s, pos + 1);
    }
}

pub proof fn lemma_str_end_bounds(s: Seq<u8>, pos: int)
    requires
        0 <= pos <= s.len(),
    ensures
        pos <= str_end(s, pos) <= s.len(),
        str_end(s, pos) < s.len() ==> s[str_end(s, pos)] == 34,
        forall|k: int| pos <= k < str_end(s, pos) ==> s[k] != 34,
    decreases s.len() - pos,
{
    if pos < s.len() && s[pos] != 34 {
        lemma_str_end_bounds(s, pos + 1);
    }
}

/// Consuming a token always moves the cursor forward and never past the
/// end of the buffer.
pub proof fn lemma_next_pos_bounds(s: Seq<u8>, pos: int)
    requires
        0 <= pos < s.len(),
    ensures
        pos < next_pos(s, pos) <= s.len(),
{
    let b = s[pos];
    if b == 45 {
    } else if b == 34 {
        lemma_str_end_bounds(s, pos + 1);
    } else if is_digit_byte(b) {
        lemma_digit_end_bounds(s, pos + 1);
        assert(digit_end(s, pos) == digit_end(s, pos + 1));
    } else if is_ident_start_byte(b) {
        lemma_ident_end_bounds(s, pos + 1);
        assert(ident_end(s, pos) == ident_end(s, pos + 1));
    } else {
    }
}

/// The token sequence lexed from position `pos` to the end of the buffer,
/// ending with the end-of-input marker.
pub open spec fn spec_lex_from(s: Seq<u8>, file_id: FileId, pos: int) -> Seq<TokenModel>
    decreases s.len() - pos
        when 0 <= pos <= s.len()
        via spec_lex_from_decreases
{
    if pos >= s.len() {
        seq![
            TokenModel {
                contents: TokenKind::EOF,
                span: span_of(file_id, s.len() as int, s.len() as int),
            },
        ]
    } else if is_ws_byte(s[pos]) {
        spec_lex_from(s, file_id, pos + 1)
    } else {
        seq![token_at(s, file_id, pos)] + spec_lex_from(s, file_id, next_pos(s, pos))
    }
}

#[via_fn]
proof fn spec_lex_from_decreases(s: Seq<u8>, file_id: FileId, pos: int) {
    if 0 <= pos < s.len() && !is_ws_byte(s[pos]) {
        lemma_next_pos_bounds(s, pos);
    }
}

/// The whole token sequence of a buffer: every token the single left-to-
/// right pass produces, including the trailing end-of-input marker.
pub open spec fn spec_lex(s: Seq<u8>, file_id: FileId) -> Seq<TokenModel> {
    spec_lex_from(s, file_id, 0)
}

/// Skipping whitespace never changes what is lexed.
pub proof fn lemma_lex_skip_ws(s: Seq<u8>, file_id: FileId, pos: int)
    requires
        0 <= pos <= s.len(),
    ensures
        spec_lex_from(s, file_id, pos) == spec_lex_from(s, file_id, skip_ws_from(s, pos)),
    decreases s.len() - pos,
{
    if pos < s.len() && is_ws_byte(s[pos]) {
        lemma_lex_skip_ws(s, file_id, pos + 1);
    }
}

/// Relies on `String::push`: appends the given character to the end of
/// the string.
#[verifier::external_body]
fn push_char(s: &mut String, c: char)
    ensures
        final(s)@ == old(s)@ + seq![c],
{
    s.push(c)
}

/// Builds the string whose characters are the given bytes, promoted one
/// for one.
fn string_from_bytes(bytes: &Vec<u8>) -> (r: String)
    ensures
        r@ == chars_of_bytes(bytes@),
{
    let mut s = String::new();
    let mut i: usize = 0;
    while i < bytes.len()
        invariant
            i <= bytes@.len(),
            s@ == chars_of_bytes(bytes@.take(i as int)),
        decreases bytes@.len() - i,
    {
        let c = bytes[i] as char;
        push_char(&mut s, c);
        proof {
            assert(bytes@.take(i + 1) =~= bytes@.take(i as int).push(bytes@[i as int]));
            assert(chars_of_bytes(bytes@.take(i + 1)) =~= chars_of_bytes(bytes@.take(i as int))
                + seq![bytes@[i as int] as char]);
        }
        i = i + 1;
    }
    proof {
        assert(bytes@.take(i as int) =~= bytes@);
    }
    s
}

/// Duplicates one token, text and span included.
fn token_dup(t: &Token) -> (r: Token)
    ensures
        r == *t,
{
    let contents = match &t.contents {
        TokenContents::Identifier(s) => TokenContents::Identifier(s.clone()),
        TokenContents::Number(n) => TokenContents::Number(*n),
        TokenContents::String(s) => TokenContents::String(s.clone()),
        TokenContents::Fun => TokenContents::Fun,
        TokenContents::Let => TokenContents::Let,
        TokenContents::If => TokenContents::If,
        TokenContents::Else => TokenContents::Else,
        TokenContents::While => TokenContents::While,
        TokenContents::For => TokenContents::For,
        TokenContents::Return => TokenContents::Return,
        TokenContents::True => TokenContents::True,
        TokenContents::False => TokenContents::False,
        TokenContents::Semicolon => TokenContents::Semicolon,
        TokenContents::LParen => TokenContents::LParen,
        TokenContents::RParen => TokenContents::RParen,
        TokenContents::LBrace => TokenContents::LBrace,
        TokenContents::RBrace => TokenContents::RBrace,
        TokenContents::Plus => TokenContents::Plus,
        TokenContents::Minus => TokenContents::Minus,
        TokenContents::Equal => TokenContents::Equal,
        TokenContents::Comma => TokenContents::Comma,
        TokenContents::Mut => TokenContents::Mut,
        TokenContents::Colon => TokenContents::Colon,
        TokenContents::ThinArrow => TokenContents::ThinArrow,
        TokenContents::Garbage => TokenContents::Garbage,
        TokenContents::EOF => TokenContents::EOF,
    };
    Token { contents, span: t.span }
}

/// Duplicates a token sequence.
fn clone_tokens(tokens: &Vec<Token>) -> (r: Vec<Token>)
    ensures
        r@ == tokens@,
{
    let mut r: Vec<Token> = Vec::new();
    let mut i: usize = 0;
    while i < tokens.len()
        invariant
            i <= tokens@.len(),
            r@ == tokens@.take(i as int),
        decreases tokens@.len() - i,
    {
        r.push(token_dup(&tokens[i]));
        proof {
            assert(tokens@.take(i + 1) =~= tokens@.take(i as int).push(tokens@[i as int]));
        }
        i = i + 1;
    }
    proof {
        assert(tokens@.take(i as int) =~= tokens@);
    }
    r
}

/// The lexical analyzer's state: a cursor into the immutable file buffer,
/// the file's identity, and the tokens produced so far.
pub struct Lexer {
    pub file_id: FileId,
    pub file_name: String,
    pub file_contents: Vec<u8>,
    pub position: usize,
    pub tokens: Vec<Token>,
}

impl Lexer {
    /// The lexer's fields other than the cursor and the token output are
    /// never written.
    pub open spec fn same_file(self, other: Lexer) -> bool {
        &&& self.file_id == other.file_id
        &&& self.file_name == other.file_name
        &&& self.file_contents == other.file_contents
    }

    pub fn new(file_id: FileId, file_name: String, file_contents: Vec<u8>) -> (r: Self)
        ensures
            r.file_id == file_id,
            r.file_name == file_name,
            r.file_contents == file_contents,
            r.position == 0,
            r.tokens@ == Seq::<Token>::empty(),
    {
        Self { file_id, file_name, file_contents, position: 0, tokens: Vec::new() }
    }

    fn eof(&self) -> (r: bool)
        ensures
            r == (self.position >= self.file_contents@.len()),
    {
        self.position >= self.file_contents.len()
    }

    fn advance(&mut self)
        requires
            old(self).position < old(self).file_contents@.len(),
        ensures
            old(self).same_file(*final(self)),
            final(self).tokens == old(self).tokens,
            final(self).position == old(self).position + 1,
    {
        proof {
            vstd::std_specs::vec::axiom_spec_len(&self.file_contents);
        }
        self.position = self.position + 1;
    }

    fn current(&self) -> (r: u8)
        requires
            self.position < self.file_contents@.len(),
        ensures
            r == self.file_contents@[self.position as int],
    {
        self.file_contents[self.position]
    }

    fn peek(&self) -> (r: u8)
        requires
            self.position + 1 < self.file_contents@.len(),
        ensures
            r == self.file_contents@[self.position + 1],
    {
        proof {
            vstd::std_specs::vec::axiom_spec_len(&self.file_contents);
        }
        self.file_contents[self.position + 1]
    }

    fn peek_with_offset(&self, offset: usize) -> (r: u8)
        requires
            self.position + offset < self.file_contents@.len(),
        ensures
            r == self.file_contents@[self.position + offset],
    {
        proof {
            vstd::std_specs::vec::axiom_spec_len(&self.file_contents);
        }
        self.file_contents[self.position + offset]
    }

    /// Whether the cursor stands on a whitespace byte.
    fn on_whitespace(&self) -> (r: bool)
        requires
            self.position <= self.file_contents@.len(),
        ensures
            r == (self.position < self.file_contents@.len() && is_ws_byte(
                self.file_contents@[self.position as int],
            )),
    {
        if self.position < self.file_contents.len() {
            let b = self.current();
            b == 32 || b == 9 || b == 10 || b == 13
        } else {
            false
        }
    }

    /// Moves the cursor past the current whitespace run, if any.
    /// Whitespace carries no token.
    fn skip_whitespace(&mut self)
        requires
            old(self).position <= old(self).file_contents@.len(),
        ensures
            old(self).same_file(*final(self)),
            final(self).tokens == old(self).tokens,
            final(self).position == skip_ws_from(
                old(self).file_contents@,
                old(self).position as int,
            ),
    {
        while self.on_whitespace()
            invariant
                self.position <= self.file_contents@.len(),
                old(self).same_file(*self),
                self.tokens == old(self).tokens,
                skip_ws_from(self.file_contents@, self.position as int) == skip_ws_from(
                    old(self).file_contents@,
                    old(self).position as int,
                ),
            decreases self.file_contents@.len() - self.position,
        {
            self.advance();
        }
    }

    /// Whether the cursor stands on a byte that may continue an
    /// identifier.
    fn on_ident_byte(&self) -> (r: bool)
        requires
            self.position <= self.file_contents@.len(),
        ensures
            r == (self.position < self.file_contents@.len() && is_ident_byte(
                self.file_contents@[self.position as int],
            )),
    {
        if self.position < self.file_contents.len() {
            let b = self.current();
            (b >= 97 && b <= 122) || (b >= 65 && b <= 90) || b == 95 || (b >= 48 && b <= 57)
        } else {
            false
        }
    }

    /// Whether the cursor stands on a decimal digit.
    fn on_digit_byte(&self) -> (r: bool)
        requires
            self.position <= self.file_contents@.len(),
        ensures
            r == (self.position < self.file_contents@.len() && is_digit_byte(
                self.file_contents@[self.position as int],
            )),
    {
        if self.position < self.file_contents.len() {
            let b = self.current();
            b >= 48 && b <= 57
        } else {
            false
        }
    }

    /// Whether the cursor stands on a byte belonging to a string
    /// literal's interior: anything but a double quote, before the end of
    /// the buffer.
    fn on_string_interior(&self) -> (r: bool)
        requires
            self.position <= self.file_contents@.len(),
        ensures
            r == (self.position < self.file_contents@.len()
                && self.file_contents@[self.position as int] != 34),
    {
        if self.position < self.file_contents.len() {
            let b = self.current();
            b != 34
        } else {
            false
        }
    }

    /// Classifies an accumulated identifier word against the fixed
    /// keyword table; unmatched text becomes an identifier token carrying
    /// its text.
    fn parse_identifier(&self, identifier: String, span: Span) -> (t: Token)
        ensures
            t@ == (TokenModel { contents: keyword_kind(identifier@), span }),
    {
        if identifier == String::from_str("fun") {
            Token::new(TokenContents::Fun, span)
        } else if identifier == String::from_str("let") {
            Token::new(TokenContents::Let, span)
        } else if identifier == String::from_str("if") {
            Token::new(TokenContents::If, span)
        } else if identifier == String::from_str("else") {
            Token::new(TokenContents::Else, span)
        } else if identifier == String::from_str("while") {
            Token::new(TokenContents::While, span)
        } else if identifier == String::from_str("for") {
            Token::new(TokenContents::For, span)
        } else if identifier == String::from_str("return") {
            Token::new(TokenContents::Return, span)
        } else if identifier == String::from_str("true") {
            Token::new(TokenContents::True, span)
        } else if identifier == String::from_str("false") {
            Token::new(TokenContents::False, span)
        } else if identifier == String::from_str("mut") {
            Token::new(TokenContents::Mut, span)
        } else {
            Token::new(TokenContents::Identifier(identifier), span)
        }
    }

    /// Recognizes and consumes the single token beginning at the cursor,
    /// which must stand on a non-whitespace byte.
    fn lex_token(&mut self) -> (t: Token)
        requires
            old(self).position < old(self).file_contents@.len(),
            !is_ws_byte(old(self).file_contents@[old(self).position as int]),
        ensures
            old(self).same_file(*final(self)),
            final(self).tokens == old(self).tokens,
            final(self).position == next_pos(old(self).file_contents@, old(self).position as int),
            t@ == token_at(
                old(self).file_contents@,
                old(self).file_id,
                old(self).position as int,
            ),
    {
        let ghost s = self.file_contents@;
        proof {
            vstd::std_specs::vec::axiom_spec_len(&self.file_contents);
        }
        let start = self.position;
        let b = self.current();
        if b == 59 {
            let t = Token::new(TokenContents::Semicolon, Span::new(self.file_id, start, start + 1));
            self.advance();
            t
        } else if b == 40 {
            let t = Token::new(TokenContents::LParen, Span::new(self.file_id, start, start + 1));
            self.advance();
            t
        } else if b == 41 {
            let t = Token::new(TokenContents::RParen, Span::new(self.file_id, start, start + 1));
            self.advance();
            t
        } else if b == 123 {
            let t = Token::new(TokenContents::LBrace, Span::new(self.file_id, start, start + 1));
            self.advance();
            t
        } else if b == 125 {
            let t = Token::new(TokenContents::RBrace, Span::new(self.file_id, start, start + 1));
            self.advance();
            t
        } else if b == 43 {
            let t = Token::new(TokenContents::Plus, Span::new(self.file_id, start, start + 1));
            self.advance();
            t
        } else if b == 45 {
            if self.position + 1 < self.file_contents.len() && self.peek() == 62 {
                let t = Token::new(
                    TokenContents::ThinArrow,
                    Span::new(self.file_id, start, start + 2),
                );
                self.advance();
                self.advance();
                t
            } else {
                let t = Token::new(TokenContents::Minus, Span::new(self.file_id, start, start + 1));
                self.advance();
                t
            }
        } else if b == 61 {
            let t = Token::new(TokenContents::Equal, Span::new(self.file_id, start, start + 1));
            self.advance();
            t
        } else if b == 44 {
            let t = Token::new(TokenContents::Comma, Span::new(self.file_id, start, start + 1));
            self.advance();
            t
        } else if b == 58 {
            let t = Token::new(TokenContents::Colon, Span::new(self.file_id, start, start + 1));
            self.advance();
            t
        } else if b == 34 {
            self.advance();
            let mut text: Vec<u8> = Vec::new();
            while self.on_string_interior()
                invariant
                    old(self).same_file(*self),
                    self.file_contents@ == s,
                    self.tokens == old(self).tokens,
                    start + 1 <= self.position <= s.len(),
                    text@ == s.subrange(start + 1, self.position as int),
                    str_end(s, self.position as int) == str_end(s, start + 1),
                decreases self.file_contents@.len() - self.position,
            {
                let c = self.current();
                text.push(c);
                proof {
                    assert(s.subrange(start + 1, self.position + 1) =~= s.subrange(
                        start + 1,
                        self.position as int,
                    ).push(s[self.position as int]));
                }
                self.advance();
            }
            let interior_end = self.position;
            let string = string_from_bytes(&text);
            let t = Token::new(
                TokenContents::String(string),
                Span::new(self.file_id, start + 1, interior_end),
            );
            if self.position < self.file_contents.len() {
                self.advance();
            }
            t
        } else if b >= 48 && b <= 57 {
            let mut value: u64 = 0;
            while self.on_digit_byte()
                invariant
                    old(self).same_file(*self),
                    self.file_contents@ == s,
                    self.tokens == old(self).tokens,
                    start <= self.position <= s.len(),
                    digit_end(s, self.position as int) == digit_end(s, start as int),
                    value == digits_value(s, start as int, self.position as int),
                decreases self.file_contents@.len() - self.position,
            {
                let d = self.current();
                value = (((value as u128) * 10 + ((d - 48) as u128)) % 0x1_0000_0000_0000_0000)
                    as u64;
                self.advance();
            }
            Token::new(
                TokenContents::Number(NumericConstant::USize(value)),
                Span::new(self.file_id, start, self.position),
            )
        } else if (b >= 97 && b <= 122) || (b >= 65 && b <= 90) || b == 95 {
            let mut word: Vec<u8> = Vec::new();
            while self.on_ident_byte()
                invariant
                    old(self).same_file(*self),
                    self.file_contents@ == s,
                    self.tokens == old(self).tokens,
                    start <= self.position <= s.len(),
                    word@ == s.subrange(start as int, self.position as int),
                    ident_end(s, self.position as int) == ident_end(s, start as int),
                decreases self.file_contents@.len() - self.position,
            {
                let c = self.current();
                word.push(c);
                proof {
                    assert(s.subrange(start as int, self.position + 1) =~= s.subrange(
                        start as int,
                        self.position as int,
                    ).push(s[self.position as int]));
                }
                self.advance();
            }
            let text = string_from_bytes(&word);
            self.parse_identifier(text, Span::new(self.file_id, start, self.position))
        } else {
            let t = Token::unknown(Span::new(self.file_id, start, start + 1));
            self.advance();
            t
        }
    }

    /// Runs the single left-to-right pass over the whole buffer and
    /// returns every token it produces, including the trailing
    /// end-of-input marker, whose span is one zero-width point at the
    /// final byte offset.  Lexing never fails: unrecognized bytes become
    /// garbage tokens.
    pub fn lex(&mut self) -> (r: Vec<Token>)
        requires
            old(self).position == 0,
            old(self).tokens@.len() == 0,
        ensures
            old(self).same_file(*final(self)),
            final(self).position == final(self).file_contents@.len(),
            r@ == final(self).tokens@,
            views_of(r@) == spec_lex(old(self).file_contents@, old(self).file_id),
    {
        let ghost s = self.file_contents@;
        let ghost fid = self.file_id;
        proof {
            vstd::std_specs::vec::axiom_spec_len(&self.file_contents);
            lemma_skip_ws_bounds(s, 0);
            lemma_lex_skip_ws(s, fid, 0);
        }
        self.skip_whitespace();
        proof {
            assert(views_of(self.tokens@) =~= Seq::<TokenModel>::empty());
            assert(views_of(self.tokens@) + spec_lex_from(s, fid, self.position as int)
                =~= spec_lex(s, fid));
        }
        while !self.eof()
            invariant
                old(self).same_file(*self),
                self.file_contents@ == s,
                self.file_id == fid,
                self.position <= s.len(),
                skip_ws_from(s, self.position as int) == self.position as int,
                views_of(self.tokens@) + spec_lex_from(s, fid, self.position as int) == spec_lex(
                    s,
                    fid,
                ),
            decreases s.len() - self.position,
        {
            let ghost pos0 = self.position as int;
            proof {
                if is_ws_byte(s[pos0]) {
                    lemma_skip_ws_bounds(s, pos0 + 1);
                    assert(skip_ws_from(s, pos0) == skip_ws_from(s, pos0 + 1));
                    assert(false);
                }
                lemma_next_pos_bounds(s, pos0);
            }
            let ghost tokens0 = self.tokens@;
            let t = self.lex_token();
            self.tokens.push(t);
            proof {
                lemma_views_push(tokens0, t);
                lemma_skip_ws_bounds(s, next_pos(s, pos0));
                lemma_lex_skip_ws(s, fid, next_pos(s, pos0));
            }
            self.skip_whitespace();
            proof {
                assert(spec_lex_from(s, fid, pos0) == seq![token_at(s, fid, pos0)]
                    + spec_lex_from(s, fid, next_pos(s, pos0)));
                assert(views_of(self.tokens@) + spec_lex_from(s, fid, self.position as int)
                    =~= (views_of(tokens0) + spec_lex_from(s, fid, pos0)));
            }
        }
        let eof_token = Token::new(
            TokenContents::EOF,
            Span::new(self.file_id, self.position, self.position),
        );
        let ghost tokens0 = self.tokens@;
        self.tokens.push(eof_token);
        proof {
            lemma_views_push(tokens0, eof_token);
            assert(spec_lex_from(s, fid, s.len() as int) =~= seq![eof_token@]);
            assert(views_of(self.tokens@) =~= spec_lex(s, fid));
        }
        clone_tokens(&self.tokens)
    }
}

/// Mapping token models over a pushed token appends the token's model.
pub proof fn lemma_views_push(ts: Seq<Token>, t: Token)
    ensures
        views_of(ts.push(t)) == views_of(ts).push(t@),
{
    assert(views_of(ts.push(t)) =~= views_of(ts).push(t@));
}

/// A well-formed token sequence: nonempty, with exactly one end-of-input
/// marker, standing last.
pub open spec fn wf_token_seq(ts: Seq<TokenModel>) -> bool {
    &&& ts.len() >= 1
    &&& ts.last().contents == TokenKind::EOF
    &&& forall|i: int| 0 <= i < ts.len() - 1 ==> ts[i].contents != TokenKind::EOF
}

/// A token sequence fit to hand to the parser: well formed, and every
/// span attributed to the given file.
pub open spec fn wf_tokens(ts: Seq<TokenModel>, file_id: FileId) -> bool {
    &&& wf_token_seq(ts)
    &&& forall|i: int| 0 <= i < ts.len() ==> (#[trigger] ts[i].span).file_id == file_id
}

proof fn lemma_lex_from_wf(s: Seq<u8>, file_id: FileId, pos: int)
    requires
        0 <= pos <= s.len(),
        s.len() <= usize::MAX,
    ensures
        ({
            let ts = spec_lex_from(s, file_id, pos);
            &&& wf_tokens(ts, file_id)
            &&& ts.last().span == span_of(file_id, s.len() as int, s.len() as int)
        }),
    decreases s.len() - pos,
{
    if pos >= s.len() {
    } else if is_ws_byte(s[pos]) {
        lemma_lex_from_wf(s, file_id, pos + 1);
    } else {
        lemma_next_pos_bounds(s, pos);
        lemma_lex_from_wf(s, file_id, next_pos(s, pos));
        let ts = spec_lex_from(s, file_id, pos);
        let rest = spec_lex_from(s, file_id, next_pos(s, pos));
        assert(ts.last() == rest.last());
        assert forall|i: int| 0 <= i < ts.len() - 1 implies ts[i].contents != TokenKind::EOF by {
            if i > 0 {
                assert(ts[i] == rest[i - 1]);
            }
        }
        assert forall|i: int| 0 <= i < ts.len() implies (#[trigger] ts[i].span).file_id
            == file_id by {
            if i > 0 {
                assert(ts[i] == rest[i - 1]);
            }
        }
    }
}

/// Law: for every input buffer, lexing terminates and its output ends
/// with exactly one end-of-input token, whose span is a single zero-width
/// point at the final byte offset.  Every produced span carries the
/// lexer's file id.  (Termination itself is part of the definition of
/// `spec_lex` and of the verification of `Lexer::lex`, which never
/// panics and never loops.)
pub proof fn lemma_lex_terminal_eof(s: Seq<u8>, file_id: FileId)
    requires
        s.len() <= usize::MAX,
    ensures
        wf_tokens(spec_lex(s, file_id), file_id),
        spec_lex(s, file_id).last().span == span_of(file_id, s.len() as int, s.len() as int),
{
    lemma_lex_from_wf(s, file_id, 0);
}

proof fn lemma_lex_from_spans(s: Seq<u8>, file_id: FileId, pos: int)
    requires
        0 <= pos <= s.len(),
        s.len() <= usize::MAX,
    ensures
        ({
            let ts = spec_lex_from(s, file_id, pos);
            &&& forall|i: int| 0 <= i < ts.len() ==> pos <= (#[trigger] ts[i].span).start
                <= ts[i].span.end <= s.len()
            &&& forall|i: int| 0 <= i < ts.len() - 1 ==> (#[trigger] ts[i].span).end <= ts[i
                + 1].span.start
        }),
    decreases s.len() - pos,
{
    if pos >= s.len() {
    } else if is_ws_byte(s[pos]) {
        lemma_lex_from_spans(s, file_id, pos + 1);
    } else {
        lemma_next_pos_bounds(s, pos);
        let next = next_pos(s, pos);
        lemma_lex_from_spans(s, file_id, next);
        let ts = spec_lex_from(s, file_id, pos);
        let h = token_at(s, file_id, pos);
        let rest = spec_lex_from(s, file_id, next);
        if s[pos] == 34 {
            lemma_str_end_bounds(s, pos + 1);
        } else if is_digit_byte(s[pos]) {
            lemma_digit_end_bounds(s, pos);
        } else if is_ident_start_byte(s[pos]) {
            lemma_ident_end_bounds(s, pos);
        }
        assert(pos <= h.span.start <= h.span.end <= s.len());
        assert(h.span.end <= next);
        assert forall|i: int| 0 <= i < ts.len() implies pos <= (#[trigger] ts[i].span).start
            <= ts[i].span.end <= s.len() by {
            if i > 0 {
                assert(ts[i] == rest[i - 1]);
            }
        }
        assert forall|i: int| 0 <= i < ts.len() - 1 implies (#[trigger] ts[i].span).end <= ts[i
            + 1].span.start by {
            if i == 0 {
                assert(ts[1] == rest[0]);
            } else {
                assert(ts[i] == rest[i - 1]);
                assert(ts[i + 1] == rest[i]);
            }
        }
    }
}

/// Law: token spans stand in source order, never overlap, and stay
/// within the buffer.
pub proof fn lemma_lex_spans_ordered(s: Seq<u8>, file_id: FileId)
    requires
        s.len() <= usize::MAX,
    ensures
        forall|i: int| 0 <= i < spec_lex(s, file_id).len() ==> 0 <= (#[trigger] spec_lex(
            s,
            file_id,
        )[i].span).start <= spec_lex(s, file_id)[i].span.end <= s.len(),
        forall|i: int| 0 <= i < spec_lex(s, file_id).len() - 1 ==> (#[trigger] spec_lex(
            s,
            file_id,
        )[i].span).end <= spec_lex(s, file_id)[i + 1].span.start,
{
    lemma_lex_from_spans(s, file_id, 0);
}

/// Byte `i` is accounted for by the token sequence: it lies inside some
/// token's span, or it is one of the two quote delimiters enclosing a
/// string literal's interior span.
pub open spec fn byte_attributed(ts: Seq<TokenModel>, i: int) -> bool {
    ||| exists|j: int|
        0 <= j < ts.len() && (#[trigger] ts[j].span).start <= i < ts[j].span.end
    ||| exists|j: int|
        0 <= j < ts.len() && (#[trigger] ts[j].contents) is StrLit && (i == ts[j].span.start - 1
            || i == ts[j].span.end)
}

proof fn lemma_lex_from_covers(s: Seq<u8>, file_id: FileId, pos: int)
    requires
        0 <= pos <= s.len(),
        s.len() <= usize::MAX,
    ensures
        forall|i: int|
            pos <= i < s.len() && !is_ws_byte(s[i]) ==> byte_attributed(
                spec_lex_from(s, file_id, pos),
                i,
            ),
    decreases s.len() - pos,
{
    if pos >= s.len() {
    } else if is_ws_byte(s[pos]) {
        lemma_lex_from_covers(s, file_id, pos + 1);
        assert forall|i: int|
            pos <= i < s.len() && !is_ws_byte(s[i]) implies byte_attributed(
            spec_lex_from(s, file_id, pos),
            i,
        ) by {
            assert(spec_lex_from(s, file_id, pos) == spec_lex_from(s, file_id, pos + 1));
            assert(byte_attributed(spec_lex_from(s, file_id, pos + 1), i));
        }
    } else {
        lemma_next_pos_bounds(s, pos);
        let next = next_pos(s, pos);
        lemma_lex_from_covers(s, file_id, next);
        let ts = spec_lex_from(s, file_id, pos);
        let h = token_at(s, file_id, pos);
        let rest = spec_lex_from(s, file_id, next);
        assert(ts == seq![h] + rest);
        assert(ts[0] == h);
        assert forall|i: int|
            pos <= i < s.len() && !is_ws_byte(s[i]) implies byte_attributed(
            spec_lex_from(s, file_id, pos),
            i,
        ) by {
            assert(spec_lex_from(s, file_id, pos) == ts);
            assert(ts == seq![h] + rest);
            assert(ts.len() == 1 + rest.len());
            if i < next {
                if s[pos] == 34 {
                    let e = str_end(s, pos + 1);
                    lemma_str_end_bounds(s, pos + 1);
                    if i == pos || i == e {
                        assert(ts[0].contents is StrLit && (i == ts[0].span.start - 1 || i
                            == ts[0].span.end));
                    } else {
                        assert(ts[0].span.start <= i < ts[0].span.end);
                    }
                } else {
                    assert(h.span.start == pos && h.span.end == next);
                    assert(ts[0].span.start <= i < ts[0].span.end);
                }
            } else {
                assert(byte_attributed(rest, i));
                if exists|j: int|
                    0 <= j < rest.len() && (#[trigger] rest[j].span).start <= i
                        < rest[j].span.end {
                    let j = choose|j: int|
                        0 <= j < rest.len() && (#[trigger] rest[j].span).start <= i
                            < rest[j].span.end;
                    assert(ts[j + 1] == rest[j]);
                    assert((ts[j + 1].span).start <= i < ts[j + 1].span.end);
                } else {
                    let j = choose|j: int|
                        0 <= j < rest.len() && (#[trigger] rest[j].contents) is StrLit && (i
                            == rest[j].span.start - 1 || i == rest[j].span.end);
                    assert(ts[j + 1] == rest[j]);
                    assert((ts[j + 1].contents) is StrLit && (i == ts[j + 1].span.start - 1 || i
                        == ts[j + 1].span.end));
                }
            }
        }
    }
}

/// Law: no byte of non-whitespace content is silently dropped.  Every
/// byte of the input that is not whitespace is accounted for by the token
/// sequence: it lies inside some token's span, or it is a quote delimiter
/// of a string literal.  Together with `lemma_lex_spans_ordered`, the
/// spans' underlying bytes, read in order, reconstruct the input minus
/// skipped whitespace and minus the string literals' quote delimiters.
pub proof fn lemma_lex_covers_non_whitespace(s: Seq<u8>, file_id: FileId)
    requires
        s.len() <= usize::MAX,
    ensures
        forall|i: int|
            0 <= i < s.len() && !is_ws_byte(s[i]) ==> byte_attributed(spec_lex(s, file_id), i),
{
    lemma_lex_from_covers(s, file_id, 0);
}

/// The same span attributed to another file.
pub open spec fn retag_span(sp: Span, file_id: FileId) -> Span {
    Span { file_id, start: sp.start, end: sp.end }
}

/// The same token with its span attributed to another file.
pub open spec fn retag_token(t: TokenModel, file_id: FileId) -> TokenModel {
    TokenModel { contents: t.contents, span: retag_span(t.span, file_id) }
}

/// The same token sequence attributed to another file.
pub open spec fn retag_tokens(ts: Seq<TokenModel>, file_id: FileId) -> Seq<TokenModel> {
    ts.map_values(|t: TokenModel| retag_token(t, file_id))
}

proof fn lemma_lex_from_id_independent(s: Seq<u8>, id1: FileId, id2: FileId, pos: int)
    requires
        0 <= pos <= s.len(),
    ensures
        spec_lex_from(s, id2, pos) == retag_tokens(spec_lex_from(s, id1, pos), id2),
    decreases s.len() - pos,
{
    if pos >= s.len() {
        assert(spec_lex_from(s, id2, pos) =~= retag_tokens(spec_lex_from(s, id1, pos), id2));
    } else if is_ws_byte(s[pos]) {
        lemma_lex_from_id_independent(s, id1, id2, pos + 1);
    } else {
        lemma_next_pos_bounds(s, pos);
        let next = next_pos(s, pos);
        lemma_lex_from_id_independent(s, id1, id2, next);
        assert(token_at(s, id2, pos) == retag_token(token_at(s, id1, pos), id2));
        assert(spec_lex_from(s, id2, pos) =~= retag_tokens(spec_lex_from(s, id1, pos), id2));
    }
}

/// Law: the file id serves diagnostic attribution only; it never
/// influences what is lexed.  Two files lexed under colliding ids (the
/// rolling hash is not collision free) still produce their own token
/// sequences, equal up to the id written into the spans, so colliding
/// files cannot contaminate each other's tokens.
pub proof fn lemma_lex_independent_of_file_id(s: Seq<u8>, id1: FileId, id2: FileId)
    ensures
        spec_lex(s, id2) == retag_tokens(spec_lex(s, id1), id2),
{
    lemma_lex_from_id_independent(s, id1, id2, 0);
}

} // verus!
