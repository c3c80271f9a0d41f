//! The lexer: turns source text into a finite, forward-only sequence of
//! positioned tokens.
//!
//! The whole scan is modelled by the spec functions below, which peel one
//! token at a time off the character sequence; the executable `Lexer` is
//! proved to produce exactly the modelled tokens.

use vstd::prelude::*;
use vstd::string::StrSliceExecFns;

use crate::strutil::str_eq;
use crate::token::{SpecToken, SpecTokenKind, Token, TokenKind};

verus! {

// ---------------------------------------------------------------------------
// Character classes
// ---------------------------------------------------------------------------

/// Space or tab: skipped between tokens, with no token emitted.
pub open spec fn is_blank(c: char) -> bool {
    c == ' ' || c == '\t'
}

pub open spec fn is_digit(c: char) -> bool {
    48 <= c as u32 && c as u32 <= 57
}

pub open spec fn is_letter(c: char) -> bool {
    (65 <= c as u32 && c as u32 <= 90) || (97 <= c as u32 && c as u32 <= 122)
}

/// A character that may start an identifier.
pub open spec fn is_ident_start(c: char) -> bool {
    is_letter(c) || c == '_'
}

/// A character that may continue an identifier.
pub open spec fn is_ident_char(c: char) -> bool {
    is_letter(c) || is_digit(c) || c == '_'
}

/// Whitespace removed from both ends of a comment's text: the Unicode
/// white-space characters.
pub open spec fn is_trim_blank(c: char) -> bool {
    ||| c as u32 == 0x09
    ||| c as u32 == 0x0a
    ||| c as u32 == 0x0b
    ||| c as u32 == 0x0c
    ||| c as u32 == 0x0d
    ||| c as u32 == 0x20
    ||| c as u32 == 0x85
    ||| c as u32 == 0xa0
    ||| c as u32 == 0x1680
    ||| (0x2000 <= c as u32 && c as u32 <= 0x200a)
    ||| c as u32 == 0x2028
    ||| c as u32 == 0x2029
    ||| c as u32 == 0x202f
    ||| c as u32 == 0x205f
    ||| c as u32 == 0x3000
}

fn is_digit_exec(c: char) -> (r: bool)
    ensures
        r == is_digit(c),
{
    let u = c as u32;
    48 <= u && u <= 57
}

fn is_ident_start_exec(c: char) -> (r: bool)
    ensures
        r == is_ident_start(c),
{
    let u = c as u32;
    (65 <= u && u <= 90) || (97 <= u && u <= 122) || c == '_'
}

fn is_ident_char_exec(c: char) -> (r: bool)
    ensures
        r == is_ident_char(c),
{
    is_ident_start_exec(c) || is_digit_exec(c)
}

fn is_trim_blank_exec(c: char) -> (r: bool)
    ensures
        r == is_trim_blank(c),
{
    let u = c as u32;
    (0x09 <= u && u <= 0x0d) || u == 0x20 || u == 0x85 || u == 0xa0 || u == 0x1680 || (0x2000 <= u
        && u <= 0x200a) || u == 0x2028 || u == 0x2029 || u == 0x202f || u == 0x205f || u == 0x3000
}

// ---------------------------------------------------------------------------
// Spec scanners: where each class of token ends, and the text it carries
// ---------------------------------------------------------------------------

/// Whether the character after position `i` exists and equals `c`.
pub open spec fn peeks(s: Seq<char>, i: nat, c: char) -> bool {
    i + 1 < s.len() && s[i + 1 as int] == c
}

/// End of an identifier scan started at `i`.
pub open spec fn ident_end(s: Seq<char>, i: nat) -> nat
    decreases s.len() - i,
{
    if i >= s.len() {
        i
    } else if is_ident_char(s[i as int]) {
        ident_end(s, i + 1)
    } else {
        i
    }
}

/// End of a numeric scan started at `i`: digits, and a decimal point only
/// when immediately followed by another digit.
pub open spec fn number_end(s: Seq<char>, i: nat) -> nat
    decreases s.len() - i,
{
    if i >= s.len() {
        i
    } else if is_digit(s[i as int]) {
        number_end(s, i + 1)
    } else if s[i as int] == '.' && i + 1 < s.len() && is_digit(s[i + 1 as int]) {
        number_end(s, i + 1)
    } else {
        i
    }
}

/// End of a string literal whose body starts at `i` (just after the opening
/// quote): one past the closing quote, or the end of input when unterminated.
pub open spec fn string_body_end(s: Seq<char>, i: nat) -> nat
    decreases s.len() - i,
{
    if i >= s.len() {
        i
    } else if s[i as int] == '\\' && peeks(s, i, '"') {
        string_body_end(s, i + 2)
    } else if s[i as int] == '"' {
        i + 1
    } else {
        string_body_end(s, i + 1)
    }
}

/// The text carried by a string literal whose body starts at `i`: `\"` is
/// the only escape and unescapes to `"`; every other character is copied.
pub open spec fn string_body_text(s: Seq<char>, i: nat) -> Seq<char>
    decreases s.len() - i,
{
    if i >= s.len() {
        Seq::empty()
    } else if s[i as int] == '\\' && peeks(s, i, '"') {
        seq!['"'] + string_body_text(s, i + 2)
    } else if s[i as int] == '"' {
        Seq::empty()
    } else {
        seq![s[i as int]] + string_body_text(s, i + 1)
    }
}

/// End of a comment whose text starts at `i` (just after the two slashes):
/// the position of the line delimiter, or the end of input.
pub open spec fn comment_end(s: Seq<char>, i: nat) -> nat
    decreases s.len() - i,
{
    if i >= s.len() {
        i
    } else if s[i as int] == '\n' {
        i
    } else {
        comment_end(s, i + 1)
    }
}

/// First index at or after `i` holding a non-trimmable character.
pub open spec fn trim_lo(t: Seq<char>, i: nat) -> nat
    decreases t.len() - i,
{
    if i < t.len() && is_trim_blank(t[i as int]) {
        trim_lo(t, i + 1)
    } else {
        i
    }
}

/// Last index in `(lo, i]` after removing trimmable characters from the back.
pub open spec fn trim_hi(t: Seq<char>, i: nat, lo: nat) -> nat
    decreases i,
{
    if i > lo && i <= t.len() && is_trim_blank(t[i - 1]) {
        trim_hi(t, (i - 1) as nat, lo)
    } else {
        i
    }
}

/// `t` with leading and trailing white space removed.
pub open spec fn trim_blanks(t: Seq<char>) -> Seq<char> {
    let lo = trim_lo(t, 0);
    let hi = trim_hi(t, t.len(), lo);
    t.subrange(lo as int, hi as int)
}

/// How many decimal points a scanned numeral holds.
pub open spec fn count_dots(t: Seq<char>) -> nat
    decreases t.len(),
{
    if t.len() == 0 {
        0
    } else {
        count_dots(t.drop_last()) + if t.last() == '.' {
            1nat
        } else {
            0nat
        }
    }
}

/// A scanned numeral is well formed when it holds at most one decimal
/// point; the scan itself guarantees a digit start and a digit after every
/// point, so this is the one anomaly a numeric scan can produce.
pub open spec fn valid_number(t: Seq<char>) -> bool {
    count_dots(t) <= 1
}

/// The fixed keyword set; any other identifier text is an `Ident`.
pub open spec fn keyword_or_ident(t: Seq<char>) -> SpecTokenKind {
    if t == "true"@ {
        SpecTokenKind::True
    } else if t == "false"@ {
        SpecTokenKind::False
    } else if t == "fun"@ {
        SpecTokenKind::Fun
    } else if t == "match"@ {
        SpecTokenKind::Match
    } else if t == "while"@ {
        SpecTokenKind::While
    } else if t == "for"@ {
        SpecTokenKind::For
    } else if t == "let"@ {
        SpecTokenKind::Let
    } else {
        SpecTokenKind::Ident(t)
    }
}

// ---------------------------------------------------------------------------
// The token at a position, and the whole scan
// ---------------------------------------------------------------------------

/// The token starting at position `i` (which must hold a non-blank
/// character), and the position just past it. The cases appear in the
/// lexer's priority order; two-character operators are matched before their
/// one-character prefixes.
pub open spec fn token_at(s: Seq<char>, i: nat) -> (SpecTokenKind, nat) {
    let c = s[i as int];
    if c == '/' && peeks(s, i, '/') {
        let e = comment_end(s, i + 2);
        (SpecTokenKind::Comment(trim_blanks(s.subrange(i + 2 as int, e as int))), e)
    } else if c == '"' {
        (SpecTokenKind::String(string_body_text(s, i + 1)), string_body_end(s, i + 1))
    } else if c == '\n' {
        (SpecTokenKind::Delimeter, i + 1)
    } else if c == ';' {
        (SpecTokenKind::Delimeter, i + 1)
    } else if c == '=' && peeks(s, i, '=') {
        (SpecTokenKind::Eq, i + 2)
    } else if c == '!' && peeks(s, i, '=') {
        (SpecTokenKind::NotEq, i + 2)
    } else if c == '=' {
        (SpecTokenKind::Assign, i + 1)
    } else if c == '(' {
        (SpecTokenKind::LParen, i + 1)
    } else if c == ')' {
        (SpecTokenKind::RParen, i + 1)
    } else if c == '{' {
        (SpecTokenKind::LBrace, i + 1)
    } else if c == '}' {
        (SpecTokenKind::RBrace, i + 1)
    } else if c == '[' {
        (SpecTokenKind::LBracket, i + 1)
    } else if c == ']' {
        (SpecTokenKind::RBracket, i + 1)
    } else if c == '-' && peeks(s, i, '>') {
        (SpecTokenKind::MatchArm, i + 2)
    } else if c == '+' {
        (SpecTokenKind::Plus, i + 1)
    } else if c == '-' {
        (SpecTokenKind::Minus, i + 1)
    } else if c == '*' {
        (SpecTokenKind::Multiply, i + 1)
    } else if c == '/' {
        (SpecTokenKind::Divide, i + 1)
    } else if c == '%' {
        (SpecTokenKind::Mod, i + 1)
    } else if c == '<' && peeks(s, i, '=') {
        (SpecTokenKind::LessEq, i + 2)
    } else if c == '>' && peeks(s, i, '=') {
        (SpecTokenKind::GreaterEq, i + 2)
    } else if c == '<' {
        (SpecTokenKind::Less, i + 1)
    } else if c == '>' {
        (SpecTokenKind::Greater, i + 1)
    } else if c == '&' && peeks(s, i, '&') {
        (SpecTokenKind::And, i + 2)
    } else if c == '|' && peeks(s, i, '|') {
        (SpecTokenKind::Or, i + 2)
    } else if c == '&' {
        (SpecTokenKind::BitAnd, i + 1)
    } else if c == '|' {
        (SpecTokenKind::BitOr, i + 1)
    } else if c == '~' {
        (SpecTokenKind::BitNot, i + 1)
    } else if c == '^' {
        (SpecTokenKind::Xor, i + 1)
    } else if c == '!' {
        (SpecTokenKind::Not, i + 1)
    } else if c == ':' {
        (SpecTokenKind::Colon, i + 1)
    } else if c == ',' {
        (SpecTokenKind::Comma, i + 1)
    } else if c == '.' {
        (SpecTokenKind::Period, i + 1)
    } else if is_ident_start(c) {
        let e = ident_end(s, i);
        (keyword_or_ident(s.subrange(i as int, e as int)), e)
    } else if is_digit(c) {
        let e = number_end(s, i);
        let t = s.subrange(i as int, e as int);
        if valid_number(t) {
            (SpecTokenKind::Number(t), e)
        } else {
            (SpecTokenKind::Undefined(t), e)
        }
    } else {
        (SpecTokenKind::Undefined(seq![c]), i + 1)
    }
}

/// One token of the scan: its kind, the cursor position it is stamped
/// with, and the half-open range of character offsets it covers.
pub struct LexItem {
    pub kind: SpecTokenKind,
    pub line: nat,
    pub col: nat,
    pub start: nat,
    pub end: nat,
}

impl LexItem {
    /// The token this item stands for.
    pub open spec fn token(self) -> SpecToken {
        SpecToken { kind: self.kind, span: (self.line, self.col) }
    }
}

/// The whole scan of `s` from offset `i`, with the cursor at the given
/// 1-based line and 0-based column: blanks are skipped (advancing the
/// column), a line delimiter advances the line and resets the column, and
/// every other token advances the column by its width.
pub open spec fn lex_items(s: Seq<char>, i: nat, line: nat, col: nat) -> Seq<LexItem>
    decreases s.len() - i,
    via lex_items_decreases
{
    if i >= s.len() {
        Seq::empty()
    } else if is_blank(s[i as int]) {
        lex_items(s, i + 1, line, col + 1)
    } else {
        let (k, e) = token_at(s, i);
        let item = LexItem { kind: k, line, col, start: i, end: e };
        if s[i as int] == '\n' {
            seq![item] + lex_items(s, e, line + 1, 0)
        } else {
            seq![item] + lex_items(s, e, line, (col + e - i) as nat)
        }
    }
}

#[via_fn]
proof fn lex_items_decreases(s: Seq<char>, i: nat, line: nat, col: nat) {
    if i < s.len() && !is_blank(s[i as int]) {
        lemma_token_at_bounds(s, i);
    }
}

/// The tokens of the scan, stripped of their offsets.
pub open spec fn items_to_tokens(items: Seq<LexItem>) -> Seq<SpecToken> {
    items.map(|k: int, it: LexItem| it.token())
}

/// The full token sequence of a source text.
pub open spec fn lex_tokens(s: Seq<char>) -> Seq<SpecToken> {
    items_to_tokens(lex_items(s, 0, 1, 0))
}

// ---------------------------------------------------------------------------
// Bounds of the spec scanners
// ---------------------------------------------------------------------------

pub proof fn lemma_ident_end(s: Seq<char>, i: nat)
    requires
        i <= s.len(),
    ensures
        i <= ident_end(s, i) <= s.len(),
        forall|k: int| i <= k < ident_end(s, i) ==> is_ident_char(s[k]),
        ident_end(s, i) < s.len() ==> !is_ident_char(s[ident_end(s, i) as int]),
    decreases s.len() - i,
{
    if i < s.len() && is_ident_char(s[i as int]) {
        lemma_ident_end(s, i + 1);
    }
}

pub proof fn lemma_number_end(s: Seq<char>, i: nat)
    requires
        i <= s.len(),
    ensures
        i <= number_end(s, i) <= s.len(),
    decreases s.len() - i,
{
    if i < s.len() {
        if is_digit(s[i as int]) {
            lemma_number_end(s, i + 1);
        } else if s[i as int] == '.' && i + 1 < s.len() && is_digit(s[i + 1 as int]) {
            lemma_number_end(s, i + 1);
        }
    }
}

pub proof fn lemma_string_body_end(s: Seq<char>, i: nat)
    requires
        i <= s.len(),
    ensures
        i <= string_body_end(s, i) <= s.len(),
    decreases s.len() - i,
{
    if i < s.len() {
        if s[i as int] == '\\' && peeks(s, i, '"') {
            lemma_string_body_end(s, i + 2);
        } else if s[i as int] == '"' {
        } else {
            lemma_string_body_end(s, i + 1);
        }
    }
}

pub proof fn lemma_comment_end(s: Seq<char>, i: nat)
    requires
        i <= s.len(),
    ensures
        i <= comment_end(s, i) <= s.len(),
        comment_end(s, i) < s.len() ==> s[comment_end(s, i) as int] == '\n',
        forall|k: int| i <= k < comment_end(s, i) ==> s[k] != '\n',
    decreases s.len() - i,
{
    if i < s.len() && s[i as int] != '\n' {
        lemma_comment_end(s, i + 1);
    }
}

pub proof fn lemma_trim_lo(t: Seq<char>, i: nat)
    requires
        i <= t.len(),
    ensures
        i <= trim_lo(t, i) <= t.len(),
    decreases t.len() - i,
{
    if i < t.len() && is_trim_blank(t[i as int]) {
        lemma_trim_lo(t, i + 1);
    }
}

/// The token starting at a non-blank position covers at least one
/// character and stays within the input.
pub proof fn lemma_token_at_bounds(s: Seq<char>, i: nat)
    requires
        i < s.len(),
    ensures
        i < token_at(s, i).1 <= s.len(),
{
    let c = s[i as int];
    if c == '/' && peeks(s, i, '/') {
        lemma_comment_end(s, i + 2);
    } else if c == '"' {
        lemma_string_body_end(s, i + 1);
    } else if is_ident_start(c) {
        lemma_ident_end(s, i + 1);
        assert(ident_end(s, i) == ident_end(s, i + 1));
    } else if is_digit(c) {
        lemma_number_end(s, i + 1);
        assert(number_end(s, i) == number_end(s, i + 1));
    }
}

// ---------------------------------------------------------------------------
// The executable lexer
// ---------------------------------------------------------------------------

/// Mathematical state of a lexer: the input text and the scan cursor.
pub struct LexerModel {
    pub input: Seq<char>,
    pub position: nat,
    pub line: nat,
    pub col: nat,
}

impl LexerModel {
    /// The tokens this state still has to produce.
    pub open spec fn remaining(self) -> Seq<LexItem> {
        lex_items(self.input, self.position, self.line, self.col)
    }

    /// The state after consuming up to offset `e` without crossing a line
    /// delimiter.
    pub open spec fn advanced(self, e: nat) -> LexerModel {
        LexerModel { position: e, col: (self.col + e - self.position) as nat, ..self }
    }
}

/// A restartable-from-scratch, forward-only lexer over borrowed source
/// text. Positions count characters; the cursor is (1-based line,
/// 0-based column).
pub struct Lexer<'a> {
    input: &'a str,
    position: usize,
    cursor: (usize, usize),
    length: usize,
}

impl<'a> View for Lexer<'a> {
    type V = LexerModel;

    closed spec fn view(&self) -> LexerModel {
        LexerModel {
            input: self.input@,
            position: self.position as nat,
            line: self.cursor.0 as nat,
            col: self.cursor.1 as nat,
        }
    }
}

impl<'a> Lexer<'a> {
    /// The lexer's invariant: the cached character count matches the input
    /// and the cursor never runs past it.
    pub closed spec fn wf(&self) -> bool {
        &&& self.length == self.input@.len()
        &&& self.input@.len() < usize::MAX
        &&& self.position <= self.length
        &&& 1 <= self.cursor.0
        &&& self.cursor.0 - 1 + self.cursor.1 <= self.position
    }

    /// A fresh lexer at the start of `input`.
    pub fn new(input: &'a str) -> (r: Lexer<'a>)
        requires
            input@.len() < usize::MAX,
        ensures
            r.wf(),
            r@ == (LexerModel { input: input@, position: 0, line: 1, col: 0 }),
    {
        let length = input.unicode_len();
        Lexer { input, position: 0, cursor: (1, 0), length }
    }

    /// Advance the scan by `chars` consumed characters on the current line.
    pub fn translate(&mut self, chars: usize)
        requires
            old(self).wf(),
            old(self)@.position + chars <= old(self)@.input.len(),
        ensures
            final(self).wf(),
            final(self)@ == old(self)@.advanced((old(self)@.position + chars) as nat),
    {
        self.cursor.1 = self.cursor.1 + chars;
        self.position = self.position + chars;
    }

    /// The character at the given position (or at the scan position when
    /// none is given), if it is in range.
    pub fn get_char_raw(&self, pos: Option<usize>) -> (r: Option<char>)
        requires
            self.wf(),
        ensures
            r == ({
                let idx: int = match pos {
                    Some(p) => p as int,
                    None => self@.position as int,
                };
                if idx < self@.input.len() {
                    Some(self@.input[idx])
                } else {
                    None::<char>
                }
            }),
    {
        let p = match pos {
            Some(p) => p,
            None => self.position,
        };
        if p < self.length {
            Some(self.input.get_char(p))
        } else {
            None
        }
    }

    /// The character just after the scan position, if any.
    pub fn peek(&self) -> (r: Option<char>)
        requires
            self.wf(),
        ensures
            r == (if self@.position + 1 < self@.input.len() {
                Some(self@.input[self@.position + 1 as int])
            } else {
                None::<char>
            }),
    {
        self.get_char_raw(Some(self.position + 1))
    }

    /// Whether the character after the scan position exists and equals `c`.
    fn peek_at(&self, c: char) -> (r: bool)
        requires
            self.wf(),
        ensures
            r == peeks(self@.input, self@.position, c),
    {
        match self.peek() {
            Some(p) => p == c,
            None => false,
        }
    }

    fn n_char_token(&mut self, tok: TokenKind, n: usize) -> (r: Option<Token>)
        requires
            old(self).wf(),
            old(self)@.position + n <= old(self)@.input.len(),
        ensures
            final(self).wf(),
            final(self)@ == old(self)@.advanced((old(self)@.position + n) as nat),
            r matches Some(t) && t@.kind == tok@ && t@.span == ((
                old(self)@.line,
                old(self)@.col,
            )),
    {
        let pos = self.cursor;
        self.translate(n);
        Some(Token { kind: tok, span: pos })
    }

    fn single_char_token(&mut self, tok: TokenKind) -> (r: Option<Token>)
        requires
            old(self).wf(),
            old(self)@.position < old(self)@.input.len(),
        ensures
            final(self).wf(),
            final(self)@ == old(self)@.advanced(old(self)@.position + 1),
            r matches Some(t) && t@.kind == tok@ && t@.span == ((
                old(self)@.line,
                old(self)@.col,
            )),
    {
        self.n_char_token(tok, 1)
    }

    fn double_char_token(&mut self, tok: TokenKind) -> (r: Option<Token>)
        requires
            old(self).wf(),
            old(self)@.position + 2 <= old(self)@.input.len(),
        ensures
            final(self).wf(),
            final(self)@ == old(self)@.advanced(old(self)@.position + 2),
            r matches Some(t) && t@.kind == tok@ && t@.span == ((
                old(self)@.line,
                old(self)@.col,
            )),
    {
        self.n_char_token(tok, 2)
    }

    /// Emit a statement delimiter; a line delimiter additionally advances
    /// the line and resets the column.
    fn delimeter(&mut self, increment: bool) -> (r: Option<Token>)
        requires
            old(self).wf(),
            old(self)@.position < old(self)@.input.len(),
        ensures
            final(self).wf(),
            final(self)@ == (if increment {
                LexerModel {
                    position: old(self)@.position + 1,
                    line: old(self)@.line + 1,
                    col: 0,
                    ..old(self)@
                }
            } else {
                old(self)@.advanced(old(self)@.position + 1)
            }),
            r matches Some(t) && t@.kind == SpecTokenKind::Delimeter && t@.span == ((
                old(self)@.line,
                old(self)@.col,
            )),
    {
        let token = Token { kind: TokenKind::Delimeter, span: self.cursor };
        self.translate(1);
        if increment {
            self.cursor.0 = self.cursor.0 + 1;
            self.cursor.1 = 0;
        }
        Some(token)
    }

    /// Scan a string literal from its opening quote.
    fn string(&mut self) -> (r: Option<Token>)
        requires
            old(self).wf(),
            old(self)@.position < old(self)@.input.len(),
            old(self)@.input[old(self)@.position as int] == '"',
        ensures
            final(self).wf(),
            final(self)@ == old(self)@.advanced(
                string_body_end(old(self)@.input, old(self)@.position + 1),
            ),
            r matches Some(t) && t@.kind == SpecTokenKind::String(
                string_body_text(old(self)@.input, old(self)@.position + 1),
            ) && t@.span == ((old(self)@.line, old(self)@.col)),
    {
        let ghost s = self@.input;
        let ghost start = self@.position;
        let ghost line0 = self@.line;
        let ghost col0 = self@.col;
        proof {
            lemma_string_body_end(s, start + 1);
        }
        let mut text = String::new();
        let pos = self.cursor;
        self.translate(1);
        loop
            invariant_except_break
                string_body_end(s, start + 1) == string_body_end(s, self@.position),
                string_body_text(s, start + 1) == text@ + string_body_text(s, self@.position),
            invariant
                self.wf(),
                self@.input == s,
                self@.line == line0,
                start + 1 <= self@.position <= s.len(),
                self@.col == col0 + (self@.position - start),
            ensures
                self.wf(),
                self@.input == s,
                self@.line == line0,
                self@.position == string_body_end(s, start + 1),
                self@.col == col0 + (self@.position - start),
                text@ == string_body_text(s, start + 1),
            decreases s.len() - self@.position,
        {
            let copt = self.get_char_raw(None);
            match copt {
                None => {
                    proof {
                        assert(text@ + string_body_text(s, self@.position) =~= text@);
                    }
                    break ;
                },
                Some(ch) => {
                    let ghost p = self@.position;
                    if ch == '\\' && self.peek_at('"') {
                        let ghost t0 = text@;
                        text.push('"');
                        self.translate(2);
                        proof {
                            assert(t0 + string_body_text(s, p) =~= text@ + string_body_text(
                                s,
                                self@.position,
                            ));
                        }
                    } else if ch == '"' {
                        self.translate(1);
                        proof {
                            assert(text@ + string_body_text(s, p) =~= text@);
                        }
                        break ;
                    } else {
                        let ghost t0 = text@;
                        text.push(ch);
                        self.translate(1);
                        proof {
                            assert(t0 + string_body_text(s, p) =~= text@ + string_body_text(
                                s,
                                self@.position,
                            ));
                        }
                    }
                },
            }
        }
        Some(Token { kind: TokenKind::String(text), span: pos })
    }

    /// Scan an identifier or keyword.
    fn identifier(&mut self) -> (r: Option<Token>)
        requires
            old(self).wf(),
        ensures
            final(self).wf(),
            final(self)@ == old(self)@.advanced(
                ident_end(old(self)@.input, old(self)@.position),
            ),
            r matches Some(t) && t@.kind == keyword_or_ident(
                old(self)@.input.subrange(
                    old(self)@.position as int,
                    ident_end(old(self)@.input, old(self)@.position) as int,
                ),
            ) && t@.span == ((old(self)@.line, old(self)@.col)),
    {
        let ghost s = self@.input;
        let ghost start_g = self@.position;
        let ghost line0 = self@.line;
        let ghost col0 = self@.col;
        proof {
            lemma_ident_end(s, start_g);
        }
        let pos = self.cursor;
        let start = self.position;
        while self.position < self.length && is_ident_char_exec(
            self.input.get_char(self.position),
        )
            invariant
                self.wf(),
                self@.input == s,
                self@.line == line0,
                start == start_g,
                start_g <= self@.position <= s.len(),
                self@.col == col0 + (self@.position - start_g),
                ident_end(s, start_g) == ident_end(s, self@.position),
            decreases s.len() - self@.position,
        {
            self.translate(1);
        }
        let end = self.position;
        let text_slice = self.input.substring_char(start, end);
        let kind = if str_eq(text_slice, "true") {
            TokenKind::True
        } else if str_eq(text_slice, "false") {
            TokenKind::False
        } else if str_eq(text_slice, "fun") {
            TokenKind::Fun
        } else if str_eq(text_slice, "match") {
            TokenKind::Match
        } else if str_eq(text_slice, "while") {
            TokenKind::While
        } else if str_eq(text_slice, "for") {
            TokenKind::For
        } else if str_eq(text_slice, "let") {
            TokenKind::Let
        } else {
            TokenKind::Ident(text_slice.to_owned())
        };
        Some(Token { kind, span: pos })
    }

    /// Whether the numeric scan continues at the current position: a digit,
    /// or a decimal point immediately followed by a digit.
    fn number_continues(&self) -> (r: bool)
        requires
            self.wf(),
        ensures
            r == ({
                let s = self@.input;
                let i = self@.position;
                i < s.len() && (is_digit(s[i as int]) || (s[i as int] == '.' && i + 1 < s.len()
                    && is_digit(s[i + 1 as int])))
            }),
    {
        match self.get_char_raw(None) {
            None => false,
            Some(c) => is_digit_exec(c) || (c == '.' && match self.peek() {
                Some(p) => is_digit_exec(p),
                None => false,
            }),
        }
    }

    /// Scan a numeral. A scan with more than one decimal point is not a
    /// well-formed number and surfaces as an `Undefined` token carrying the
    /// raw text; the lexer never fails on a bad number.
    fn number(&mut self) -> (r: Option<Token>)
        requires
            old(self).wf(),
        ensures
            final(self).wf(),
            final(self)@ == old(self)@.advanced(
                number_end(old(self)@.input, old(self)@.position),
            ),
            r matches Some(t) && t@.kind == ({
                let txt = old(self)@.input.subrange(
                    old(self)@.position as int,
                    number_end(old(self)@.input, old(self)@.position) as int,
                );
                if valid_number(txt) {
                    SpecTokenKind::Number(txt)
                } else {
                    SpecTokenKind::Undefined(txt)
                }
            }) && t@.span == ((old(self)@.line, old(self)@.col)),
    {
        let ghost s = self@.input;
        let ghost start_g = self@.position;
        let ghost line0 = self@.line;
        let ghost col0 = self@.col;
        proof {
            lemma_number_end(s, start_g);
            assert(s.subrange(start_g as int, start_g as int) =~= Seq::<char>::empty());
        }
        let pos = self.cursor;
        let start = self.position;
        let mut dots: usize = 0;
        while self.number_continues()
            invariant
                self.wf(),
                self@.input == s,
                self@.line == line0,
                start == start_g,
                start_g <= self@.position <= s.len(),
                self@.col == col0 + (self@.position - start_g),
                number_end(s, start_g) == number_end(s, self@.position),
                dots <= self@.position - start_g,
                dots == count_dots(s.subrange(start_g as int, self@.position as int)),
            decreases s.len() - self@.position,
        {
            let ch = self.input.get_char(self.position);
            let ghost p = self@.position;
            proof {
                assert(s.subrange(start_g as int, p as int + 1).drop_last() =~= s.subrange(
                    start_g as int,
                    p as int,
                ));
            }
            if ch == '.' {
                dots = dots + 1;
            }
            self.translate(1);
        }
        let end = self.position;
        let text = self.input.substring_char(start, end).to_owned();
        let kind = if dots <= 1 {
            TokenKind::Number(text)
        } else {
            TokenKind::Undefined(text)
        };
        Some(Token { kind, span: pos })
    }

    /// Scan a comment from its two opening slashes through the end of the
    /// line, trimming blanks from both ends of the text.
    fn comment(&mut self) -> (r: Option<Token>)
        requires
            old(self).wf(),
            old(self)@.position + 2 <= old(self)@.input.len(),
        ensures
            final(self).wf(),
            final(self)@ == old(self)@.advanced(
                comment_end(old(self)@.input, old(self)@.position + 2),
            ),
            r matches Some(t) && t@.kind == SpecTokenKind::Comment(
                trim_blanks(
                    old(self)@.input.subrange(
                        old(self)@.position + 2 as int,
                        comment_end(old(self)@.input, old(self)@.position + 2) as int,
                    ),
                ),
            ) && t@.span == ((old(self)@.line, old(self)@.col)),
    {
        let ghost s = self@.input;
        let ghost start_g = self@.position;
        let ghost line0 = self@.line;
        let ghost col0 = self@.col;
        proof {
            lemma_comment_end(s, start_g + 2);
        }
        let pos = self.cursor;
        let start = self.position;
        self.translate(2);
        while self.position < self.length && self.input.get_char(self.position) != '\n'
            invariant
                self.wf(),
                self@.input == s,
                self@.line == line0,
                start == start_g,
                start_g + 2 <= self@.position <= s.len(),
                self@.col == col0 + (self@.position - start_g),
                comment_end(s, start_g + 2) == comment_end(s, self@.position),
            decreases s.len() - self@.position,
        {
            self.translate(1);
        }
        let end = self.position;
        let raw = self.input.substring_char(start + 2, end);
        let rl = raw.unicode_len();
        proof {
            lemma_trim_lo(raw@, 0);
        }
        let mut lo: usize = 0;
        while lo < rl && is_trim_blank_exec(raw.get_char(lo))
            invariant
                lo <= rl,
                rl == raw@.len(),
                trim_lo(raw@, 0) == trim_lo(raw@, lo as nat),
            decreases rl - lo,
        {
            lo = lo + 1;
        }
        let mut hi = rl;
        while hi > lo && is_trim_blank_exec(raw.get_char(hi - 1))
            invariant
                lo <= hi <= rl,
                rl == raw@.len(),
                trim_hi(raw@, rl as nat, lo as nat) == trim_hi(raw@, hi as nat, lo as nat),
            decreases hi,
        {
            hi = hi - 1;
        }
        let text = raw.substring_char(lo, hi).to_owned();
        Some(Token { kind: TokenKind::Comment(text), span: pos })
    }

    /// Skip one blank character and continue with the next token.
    fn whitespace(&mut self) -> (r: Option<Token>)
        requires
            old(self).wf(),
            old(self)@.position < old(self)@.input.len(),
            is_blank(old(self)@.input[old(self)@.position as int]),
        ensures
            final(self).wf(),
            final(self)@.input == old(self)@.input,
            match r {
                Option::None => old(self)@.remaining().len() == 0 && final(self)@.position == old(
                    self,
                )@.input.len(),
                Option::Some(t) => {
                    &&& old(self)@.remaining().len() > 0
                    &&& t@ == old(self)@.remaining()[0].token()
                    &&& final(self)@.position == old(self)@.remaining()[0].end
                    &&& final(self)@.remaining() == old(self)@.remaining().drop_first()
                },
            },
        decreases old(self)@.input.len() - old(self)@.position, 0int,
    {
        self.translate(1);
        self.next()
    }

    /// Produce the next token, or `None` once the input is exhausted.
    /// Anomalies never stop the scan: they surface as `Undefined` tokens.
    pub fn next(&mut self) -> (r: Option<Token>)
        requires
            old(self).wf(),
        ensures
            final(self).wf(),
            final(self)@.input == old(self)@.input,
            match r {
                Option::None => old(self)@.remaining().len() == 0 && final(self)@.position == old(
                    self,
                )@.input.len(),
                Option::Some(t) => {
                    &&& old(self)@.remaining().len() > 0
                    &&& t@ == old(self)@.remaining()[0].token()
                    &&& final(self)@.position == old(self)@.remaining()[0].end
                    &&& final(self)@.remaining() == old(self)@.remaining().drop_first()
                },
            },
        decreases old(self)@.input.len() - old(self)@.position, 1int,
    {
        let copt = self.get_char_raw(None);
        let current = match copt {
            None => {
                return None;
            },
            Some(c) => c,
        };
        proof {
            lemma_token_at_bounds(self@.input, self@.position);
        }
        if current == ' ' || current == '\t' {
            self.whitespace()
        } else if current == '/' && self.peek_at('/') {
            self.comment()
        } else if current == '"' {
            self.string()
        } else if current == '\n' {
            self.delimeter(true)
        } else if current == ';' {
            self.delimeter(false)
        } else if current == '=' && self.peek_at('=') {
            self.double_char_token(TokenKind::Eq)
        } else if current == '!' && self.peek_at('=') {
            self.double_char_token(TokenKind::NotEq)
        } else if current == '=' {
            self.single_char_token(TokenKind::Assign)
        } else if current == '(' {
            self.single_char_token(TokenKind::LParen)
        } else if current == ')' {
            self.single_char_token(TokenKind::RParen)
        } else if current == '{' {
            self.single_char_token(TokenKind::LBrace)
        } else if current == '}' {
            self.single_char_token(TokenKind::RBrace)
        } else if current == '[' {
            self.single_char_token(TokenKind::LBracket)
        } else if current == ']' {
            self.single_char_token(TokenKind::RBracket)
        } else if current == '-' && self.peek_at('>') {
            self.double_char_token(TokenKind::MatchArm)
        } else if current == '+' {
            self.single_char_token(TokenKind::Plus)
        } else if current == '-' {
            self.single_char_token(TokenKind::Minus)
        } else if current == '*' {
            self.single_char_token(TokenKind::Multiply)
        } else if current == '/' {
            self.single_char_token(TokenKind::Divide)
        } else if current == '%' {
            self.single_char_token(TokenKind::Mod)
        } else if current == '<' && self.peek_at('=') {
            self.double_char_token(TokenKind::LessEq)
        } else if current == '>' && self.peek_at('=') {
            self.double_char_token(TokenKind::GreaterEq)
        } else if current == '<' {
            self.single_char_token(TokenKind::Less)
        } else if current == '>' {
            self.single_char_token(TokenKind::Greater)
        } else if current == '&' && self.peek_at('&') {
            self.double_char_token(TokenKind::And)
        } else if current == '|' && self.peek_at('|') {
            self.double_char_token(TokenKind::Or)
        } else if current == '&' {
            self.single_char_token(TokenKind::BitAnd)
        } else if current == '|' {
            self.single_char_token(TokenKind::BitOr)
        } else if current == '~' {
            self.single_char_token(TokenKind::BitNot)
        } else if current == '^' {
            self.single_char_token(TokenKind::Xor)
        } else if current == '!' {
            self.single_char_token(TokenKind::Not)
        } else if current == ':' {
            self.single_char_token(TokenKind::Colon)
        } else if current == ',' {
            self.single_char_token(TokenKind::Comma)
        } else if current == '.' {
            self.single_char_token(TokenKind::Period)
        } else if is_ident_start_exec(current) {
            self.identifier()
        } else if is_digit_exec(current) {
            self.number()
        } else {
            let mut text = String::new();
            text.push(current);
            proof {
                assert(text@ =~= seq![current]);
            }
            self.single_char_token(TokenKind::Undefined(text))
        }
    }

    /// Run the scan to the end and collect every remaining token.
    pub fn tokenize(&mut self) -> (r: Vec<Token>)
        requires
            old(self).wf(),
        ensures
            final(self).wf(),
            final(self)@.remaining().len() == 0,
            r.deep_view() == items_to_tokens(old(self)@.remaining()),
    {
        let ghost orig = self@.remaining();
        let mut out: Vec<Token> = Vec::new();
        proof {
            assert(out.deep_view() + items_to_tokens(self@.remaining()) =~= items_to_tokens(orig));
        }
        loop
            invariant
                self.wf(),
                out.deep_view() + items_to_tokens(self@.remaining()) == items_to_tokens(orig),
            ensures
                self.wf(),
                self@.remaining().len() == 0,
                out.deep_view() == items_to_tokens(orig),
            decreases self@.remaining().len(),
        {
            let ghost rem0 = self@.remaining();
            let ghost out0 = out.deep_view();
            let t = match self.next() {
                None => {
                    proof {
                        assert(out.deep_view() =~= items_to_tokens(orig));
                    }
                    break ;
                },
                Some(t) => t,
            };
            out.push(t);
            proof {
                assert(out.deep_view() =~= out0.push(rem0[0].token()));
                assert(items_to_tokens(rem0.drop_first()) =~= items_to_tokens(rem0).drop_first());
                assert(out.deep_view() + items_to_tokens(self@.remaining()) =~= out0
                    + items_to_tokens(rem0));
            }
        }
        out
    }
}

} // verus!
