//! The lexer: turns source text into tokens.

use vstd::prelude::*;
use crate::chars::{
    unicode_white_space, spec_ascii_digit, spec_ascii_hexdigit, spec_ident_char, spec_ident_start,
    spec_utf8_len, is_whitespace, is_alphabetic, is_alphanumeric, is_ascii_digit, is_ascii_hexdigit,
    len_utf8,
};
use crate::source::{
    SourceBuffer, SourceReader, SourceSpan, SourceCursor, spec_advance, spec_lines, spec_step, spec_begin,
    cursor_ok, lemma_advance, lemma_advance_step, lemma_advance_add, spec_peek,
};
use crate::compiler_error::{CompilerError, CompilerErrorKind, spec_error_is};
use crate::text::push_char;

verus! {

/// The kinds of token.
#[derive(Clone, Copy, Debug, PartialEq, Eq, Structural)]
pub enum TokenKind {
    LCurly,
    RCurly,
    LParan,
    RParan,
    Semicolon,
    Colon,
    Equal,
    DoubleEqual,
    NotEqual,
    Plus,
    Minus,
    Times,
    Divider,
    Greater,
    GreaterEqual,
    LesserEqual,
    Lesser,
    LShift,
    RShift,
    Comma,
    Keyword(KeywordType),
    Ident,
    Int,
}

/// The keywords of the language.
#[derive(Clone, Copy, Debug, PartialEq, Eq, Structural)]
pub enum KeywordType {
    If,
    Else,
    While,
    Loop,
    Return,
    Break,
    Continue,
    Let,
}

/// The name of a token kind, as error messages print it.
pub open spec fn spec_token_kind_name(k: TokenKind) -> Seq<char> {
    match k {
        TokenKind::LCurly => "LCurly"@,
        TokenKind::RCurly => "RCurly"@,
        TokenKind::LParan => "LParan"@,
        TokenKind::RParan => "RParan"@,
        TokenKind::Semicolon => "Semicolon"@,
        TokenKind::Colon => "Colon"@,
        TokenKind::Equal => "Equal"@,
        TokenKind::DoubleEqual => "DoubleEqual"@,
        TokenKind::NotEqual => "NotEqual"@,
        TokenKind::Plus => "Plus"@,
        TokenKind::Minus => "Minus"@,
        TokenKind::Times => "Times"@,
        TokenKind::Divider => "Divider"@,
        TokenKind::Greater => "Greater"@,
        TokenKind::GreaterEqual => "GreaterEqual"@,
        TokenKind::LesserEqual => "LesserEqual"@,
        TokenKind::Lesser => "Lesser"@,
        TokenKind::LShift => "LShift"@,
        TokenKind::RShift => "RShift"@,
        TokenKind::Comma => "Comma"@,
        TokenKind::Keyword(_) => "Keyword"@,
        TokenKind::Ident => "Ident"@,
        TokenKind::Int => "Int"@,
    }
}

impl TokenKind {
    /// The name of the kind.
    pub fn to_str(&self) -> (r: &'static str)
        ensures
            r@ == spec_token_kind_name(*self),
    {
        match self {
            TokenKind::LCurly => "LCurly",
            TokenKind::RCurly => "RCurly",
            TokenKind::LParan => "LParan",
            TokenKind::RParan => "RParan",
            TokenKind::Semicolon => "Semicolon",
            TokenKind::Colon => "Colon",
            TokenKind::Equal => "Equal",
            TokenKind::DoubleEqual => "DoubleEqual",
            TokenKind::NotEqual => "NotEqual",
            TokenKind::Plus => "Plus",
            TokenKind::Minus => "Minus",
            TokenKind::Times => "Times",
            TokenKind::Divider => "Divider",
            TokenKind::Greater => "Greater",
            TokenKind::GreaterEqual => "GreaterEqual",
            TokenKind::LesserEqual => "LesserEqual",
            TokenKind::Lesser => "Lesser",
            TokenKind::LShift => "LShift",
            TokenKind::RShift => "RShift",
            TokenKind::Comma => "Comma",
            TokenKind::Keyword(_) => "Keyword",
            TokenKind::Ident => "Ident",
            TokenKind::Int => "Int",
        }
    }
}

/// A token: its kind and the span of source it was read from.
#[derive(Clone, Debug)]
pub struct Token {
    pub kind: TokenKind,
    pub span: SourceSpan,
}

impl Token {
    /// A token equal to this one.
    pub fn duplicate(&self) -> (r: Token)
        ensures
            r.kind == self.kind,
            r.span.start == self.span.start,
            r.span.size == self.span.size,
            r.span.data@ == self.span.data@,
    {
        Token {
            kind: self.kind,
            span: SourceSpan { start: self.span.start, size: self.span.size, data: self.span.data.clone() },
        }
    }

    /// The source text of the token.
    pub fn as_str(&self) -> (r: &str)
        ensures
            r@ == self.span.data@,
    {
        self.span.data.as_str()
    }
}

// ---------------------------------------------------------------------------------
// What the lexer reads, stated over the characters of the text and positions in it.
// ---------------------------------------------------------------------------------

/// A `"*/"` starts at index `k`.
pub open spec fn spec_closes_at(text: Seq<char>, k: int) -> bool {
    0 <= k && k + 1 < text.len() && text[k] == '*' && text[k + 1] == '/'
}

/// What skipping finds lies at or after where it started, and a token start lies
/// inside the text.
pub proof fn lemma_skip_bounds(text: Seq<char>, p: nat)
    ensures
        spec_skip(text, p) matches SkipOutcome::At(q) ==> p <= q < text.len(),
        spec_skip(text, p) matches SkipOutcome::Unterminated(q) ==> p <= q < text.len(),
    decreases text.len() - p,
{
    if p < text.len() {
        if text[p as int] == '/' {
            if p + 1 < text.len() && text[p + 1int] == '*' {
                lemma_block_close(text, p + 2int);
                if let Some(m) = spec_block_close(text, p + 2int) {
                    lemma_skip_bounds(text, (m + 2) as nat);
                }
            } else if p + 1 < text.len() && text[p + 1int] == '/' {
                lemma_newline_from(text, p + 1int);
                if let Some(m) = spec_newline_from(text, p + 1int) {
                    lemma_skip_bounds(text, (m + 1) as nat);
                }
            }
        } else if unicode_white_space(text[p as int]) {
            lemma_skip_bounds(text, p + 1);
        }
    }
}

/// The first `"*/"` at or after index `i`: the index of its `'*'`.
pub open spec fn spec_block_close(text: Seq<char>, i: int) -> Option<int>
    decreases text.len() - i,
{
    if i < 0 || i + 1 >= text.len() {
        None
    } else if text[i] == '*' && text[i + 1] == '/' {
        Some(i)
    } else {
        spec_block_close(text, i + 1)
    }
}

/// The first newline at or after index `i`.
pub open spec fn spec_newline_from(text: Seq<char>, i: int) -> Option<int>
    decreases text.len() - i,
{
    if i < 0 || i >= text.len() {
        None
    } else if text[i] == '\n' {
        Some(i)
    } else {
        spec_newline_from(text, i + 1)
    }
}

pub proof fn lemma_block_close(text: Seq<char>, i: int)
    ensures
        spec_block_close(text, i) matches Some(m) ==> i <= m && spec_closes_at(text, m),
        spec_block_close(text, i) matches Some(m) ==> forall|k: int| i <= k < m
            ==> !#[trigger] spec_closes_at(text, k),
        spec_block_close(text, i) is None && 0 <= i ==> forall|k: int| i <= k
            ==> !#[trigger] spec_closes_at(text, k),
    decreases text.len() - i,
{
    if i >= 0 && i + 1 < text.len() && !(text[i] == '*' && text[i + 1] == '/') {
        lemma_block_close(text, i + 1);
    }
}

pub proof fn lemma_newline_from(text: Seq<char>, i: int)
    ensures
        spec_newline_from(text, i) matches Some(n) ==> i <= n < text.len() && text[n] == '\n',
        spec_newline_from(text, i) matches Some(n) ==> forall|k: int| i <= k < n ==> text[k] != '\n',
        spec_newline_from(text, i) is None && 0 <= i ==> forall|k: int| i <= k < text.len() ==> text[k] != '\n',
    decreases text.len() - i,
{
    if i >= 0 && i < text.len() && text[i] != '\n' {
        lemma_newline_from(text, i + 1);
    }
}

/// Where skipping blanks and comments from a position leads.
pub enum SkipOutcome {
    /// The text ends before any token.
    End,
    /// A block comment opened at this index is never closed.
    Unterminated(nat),
    /// A token starts at this index.
    At(nat),
}

/// Skips whitespace, line comments (`// ...` up to a newline) and block comments
/// (`/* ... */`) from index `p`.
pub open spec fn spec_skip(text: Seq<char>, p: nat) -> SkipOutcome
    decreases text.len() - p,
{
    if p >= text.len() {
        SkipOutcome::End
    } else if text[p as int] == '/' {
        if p + 1 < text.len() && text[p + 1int] == '*' {
            match spec_block_close(text, p + 2int) {
                Some(m) => {
                    proof { lemma_block_close(text, p + 2int); }
                    if m >= p { spec_skip(text, (m + 2) as nat) } else { SkipOutcome::End }
                },
                None => SkipOutcome::Unterminated(p),
            }
        } else if p + 1 < text.len() && text[p + 1int] == '/' {
            match spec_newline_from(text, p + 1int) {
                Some(n) => {
                    proof { lemma_newline_from(text, p + 1int); }
                    if n >= p { spec_skip(text, (n + 1) as nat) } else { SkipOutcome::End }
                },
                None => SkipOutcome::End,
            }
        } else {
            SkipOutcome::At(p)
        }
    } else if unicode_white_space(text[p as int]) {
        spec_skip(text, p + 1)
    } else {
        SkipOutcome::At(p)
    }
}

} // verus!

verus! {

/// A character that continues an integer literal; `hex` and `bin` tell whether the
/// literal began with `0x` or `0b`.
pub open spec fn spec_int_pred(c: char, hex: bool, bin: bool) -> bool {
    spec_ascii_digit(c) || (spec_ascii_hexdigit(c) && hex && ((c == '0' || c == '1') || !bin))
}

/// The characters that continue an integer literal: the decimal digits, whatever the
/// prefix; after `0x` also every hexadecimal digit, `a` to `f` and `A` to `F`.
pub proof fn lemma_int_literal_chars(c: char)
    ensures
        spec_int_pred(c, false, false) <==> ('0' <= c <= '9'),
        spec_int_pred(c, true, false) <==> ('0' <= c <= '9' || 'a' <= c <= 'f' || 'A' <= c <= 'F'),
        spec_int_pred(c, false, true) <==> ('0' <= c <= '9'),
{
}

/// The end of the run of literal characters that starts at index `r`.
pub open spec fn spec_run_end(text: Seq<char>, r: nat, hex: bool, bin: bool) -> nat
    decreases text.len() - r,
{
    if r < text.len() && spec_int_pred(text[r as int], hex, bin) {
        spec_run_end(text, r + 1, hex, bin)
    } else {
        r
    }
}

/// The end of the integer literal that starts with the digit at index `q`: a run of
/// digits, or `0x` / `0b` followed by at least one digit of the base (decimal digits
/// are taken in either base); a `0x` or `0b` with no digit after it is the literal `0`.
pub open spec fn spec_int_end(text: Seq<char>, q: nat) -> nat {
    let hex = text[q as int] == '0' && q + 1 < text.len() && text[q + 1int] == 'x';
    let bin = text[q as int] == '0' && q + 1 < text.len() && text[q + 1int] == 'b';
    if hex || bin {
        if q + 2 < text.len() && spec_int_pred(text[q + 2int], hex, bin) {
            spec_run_end(text, q + 2, hex, bin)
        } else {
            q + 1
        }
    } else {
        spec_run_end(text, q + 1, false, false)
    }
}

/// The end of the identifier characters from index `r` on.
pub open spec fn spec_ident_end(text: Seq<char>, r: nat) -> nat
    decreases text.len() - r,
{
    if r < text.len() && spec_ident_char(text[r as int]) {
        spec_ident_end(text, r + 1)
    } else {
        r
    }
}

/// The token made of the two characters `a` and `b`, if any.
pub open spec fn spec_two_char(a: char, b: char) -> Option<TokenKind> {
    if a == '=' && b == '=' {
        Some(TokenKind::DoubleEqual)
    } else if a == '!' && b == '=' {
        Some(TokenKind::NotEqual)
    } else if a == '>' && b == '=' {
        Some(TokenKind::GreaterEqual)
    } else if a == '<' && b == '=' {
        Some(TokenKind::LesserEqual)
    } else if a == '<' && b == '<' {
        Some(TokenKind::LShift)
    } else if a == '>' && b == '>' {
        Some(TokenKind::RShift)
    } else {
        None
    }
}

/// The token made of the single character `c`, if any.
pub open spec fn spec_single_char(c: char) -> Option<TokenKind> {
    match c {
        '{' => Some(TokenKind::LCurly),
        '}' => Some(TokenKind::RCurly),
        '(' => Some(TokenKind::LParan),
        ')' => Some(TokenKind::RParan),
        ';' => Some(TokenKind::Semicolon),
        ':' => Some(TokenKind::Colon),
        '+' => Some(TokenKind::Plus),
        '*' => Some(TokenKind::Times),
        '/' => Some(TokenKind::Divider),
        '-' => Some(TokenKind::Minus),
        ',' => Some(TokenKind::Comma),
        '=' => Some(TokenKind::Equal),
        '>' => Some(TokenKind::Greater),
        '<' => Some(TokenKind::Lesser),
        _ => None,
    }
}

/// The kind of the word `w`: a keyword, or an identifier.
pub open spec fn spec_word_kind(w: Seq<char>) -> TokenKind {
    if w == "if"@ {
        TokenKind::Keyword(KeywordType::If)
    } else if w == "else"@ {
        TokenKind::Keyword(KeywordType::Else)
    } else if w == "while"@ {
        TokenKind::Keyword(KeywordType::While)
    } else if w == "loop"@ {
        TokenKind::Keyword(KeywordType::Loop)
    } else if w == "return"@ {
        TokenKind::Keyword(KeywordType::Return)
    } else if w == "break"@ {
        TokenKind::Keyword(KeywordType::Break)
    } else if w == "continue"@ {
        TokenKind::Keyword(KeywordType::Continue)
    } else if w == "let"@ {
        TokenKind::Keyword(KeywordType::Let)
    } else {
        TokenKind::Ident
    }
}

/// One step of the lexer, over positions of the text.
pub enum LexStep {
    /// No token is left.
    End,
    /// A token of this kind spans the indices `[start, end)`.
    Token(TokenKind, nat, nat),
    /// An error at this index, with this message.
    Error(nat, Seq<char>),
}

/// The message of an unterminated block comment.
pub open spec fn spec_unterminated_msg() -> Seq<char> {
    "unterminated block comment"@
}

/// The message for a character that starts no token.
pub open spec fn spec_bad_token_msg(c: char) -> Seq<char> {
    "bad token : "@.push(c)
}

/// The token that starts at index `q` (a character that is neither blank nor the
/// start of a comment).
pub open spec fn spec_token_at(text: Seq<char>, q: nat) -> LexStep {
    let c = text[q as int];
    if spec_ascii_digit(c) {
        LexStep::Token(TokenKind::Int, q, spec_int_end(text, q))
    } else if q + 1 < text.len() && spec_two_char(c, text[q + 1int]) is Some {
        LexStep::Token(spec_two_char(c, text[q + 1int])->0, q, q + 2)
    } else if spec_single_char(c) is Some {
        LexStep::Token(spec_single_char(c)->0, q, q + 1)
    } else if spec_ident_start(c) {
        let e = spec_ident_end(text, q + 1);
        LexStep::Token(spec_word_kind(text.subrange(q as int, e as int)), q, e)
    } else {
        LexStep::Error(q, spec_bad_token_msg(c))
    }
}

/// One step of the lexer from index `p`, and the index it leaves the reader at.
pub open spec fn spec_next(text: Seq<char>, p: nat) -> (LexStep, nat) {
    match spec_skip(text, p) {
        SkipOutcome::End => (LexStep::End, text.len()),
        SkipOutcome::Unterminated(at) => (LexStep::Error(at, spec_unterminated_msg()), text.len()),
        SkipOutcome::At(q) => {
            let step = spec_token_at(text, q);
            match step {
                LexStep::Token(_, _, e) => (step, e),
                _ => (step, q + 1),
            }
        },
    }
}

/// The text of line `line` (counted from 1), or nothing when there is no such line.
pub open spec fn spec_line_text(text: Seq<char>, line: int) -> Seq<char> {
    if 1 <= line && line - 1 < spec_lines(text).len() {
        spec_lines(text)[line - 1]
    } else {
        Seq::empty()
    }
}

/// `e` is a lexing error with message `msg` at cursor `c` of `source`.
pub open spec fn spec_lex_error(source: SourceBuffer, c: SourceCursor, msg: Seq<char>, e: CompilerError) -> bool {
    &&& e.hint is None
    &&& spec_error_is(
        e,
        CompilerErrorKind::BadToken,
        msg,
        source.path_view(),
        spec_line_text(source.text(), c.line as int),
        c.line as u32,
        c.collumn as u32,
    )
}

/// `t` is the token of kind `k` over `[s, e)` of the text, read from cursor `c0`.
pub open spec fn spec_token_is(text: Seq<char>, c0: SourceCursor, k: TokenKind, s: nat, e: nat, t: Token) -> bool {
    &&& t.kind == k
    &&& t.span.start == spec_advance(text, c0, (s - c0.pos) as nat)
    &&& s <= e <= text.len()
    &&& t.span.data@ == text.subrange(s as int, e as int)
    &&& t.span.size == spec_utf8_len(t.span.data@)
}

} // verus!

verus! {

/// Moving from `cur`, which lies `k` steps after `c0`, one step further.
proof fn lemma_next(text: Seq<char>, c0: SourceCursor, k: nat)
    requires
        cursor_ok(text.len(), c0),
        c0.pos + k <= text.len(),
    ensures
        spec_advance(text, c0, k).pos == c0.pos + k,
        spec_step(text, spec_advance(text, c0, k)) == spec_advance(text, c0, k + 1),
        spec_advance(text, c0, k + 1).pos == if c0.pos + k < text.len() { c0.pos + k + 1 } else { text.len() as int },
        cursor_ok(text.len(), spec_advance(text, c0, k)),
{
    lemma_advance(text, c0, k);
    lemma_advance(text, c0, k + 1);
    lemma_advance_step(text, c0, k);
}

/// Reads tokens out of a source buffer.
pub struct Lexer<'a> {
    pub reader: SourceReader<'a>,
}

impl<'a> Lexer<'a> {
    /// A lexer at the start of `source`.
    pub fn new(source: &'a SourceBuffer) -> (r: Self)
        ensures
            r.reader.source_view() == *source,
            r.reader.text() == source.text(),
            r.reader.cursor() == spec_begin(),
    {
        Lexer { reader: SourceReader::new(source) }
    }

    /// A lexing error at cursor `c`, located in the source being read.
    fn error_at(&self, c: SourceCursor, message: &str) -> (e: CompilerError)
        ensures
            spec_lex_error(self.reader.source_view(), c, message@, e),
    {
        let source = self.reader.source();
        let line = if c.line >= 1 {
            match source.get_line(c.line) {
                Some(l) => l,
                None => String::new(),
            }
        } else {
            String::new()
        };
        CompilerError::new(
            CompilerErrorKind::BadToken,
            message,
            source.path().as_str(),
            line.as_str(),
            c.line as u32,
            c.collumn as u32,
            None,
        )
    }

    /// Skips whitespace and comments; gives the character a token starts with, `None`
    /// at the end of the text, or the error of a block comment that is never closed.
    fn skip_whitespaces_and_commants(&mut self) -> (r: Option<Result<char, CompilerError>>)
        ensures
            final(self).reader.text() == old(self).reader.text(),
            final(self).reader.source_view() == old(self).reader.source_view(),
            ({
                let text = old(self).reader.text();
                let c0 = old(self).reader.cursor();
                match spec_skip(text, c0.pos as nat) {
                    SkipOutcome::End => r is None
                        && final(self).reader.cursor() == spec_advance(text, c0, (text.len() - c0.pos) as nat),
                    SkipOutcome::Unterminated(at) => r matches Some(Err(e))
                        && spec_lex_error(old(self).reader.source_view(), spec_advance(text, c0, (at - c0.pos) as nat), spec_unterminated_msg(), e)
                        && final(self).reader.cursor() == spec_advance(text, c0, (text.len() - c0.pos) as nat),
                    SkipOutcome::At(q) => r matches Some(Ok(ch)) && c0.pos <= q < text.len() && ch == text[q as int]
                        && final(self).reader.cursor() == spec_advance(text, c0, (q - c0.pos) as nat),
                }
            }),
    {
        let ghost text = self.reader.text();
        let ghost src = self.reader.source_view();
        let c0 = self.reader.get_cursor();
        let n = self.reader.source().len();
        proof { lemma_next(text, c0, 0); }
        let mut current_char = match self.reader.peek_char() {
            None => { return None; },
            Some(ch) => ch,
        };
        loop
            invariant
                text == self.reader.text(),
                src == self.reader.source_view(),
                text == old(self).reader.text(),
                src == old(self).reader.source_view(),
                c0 == old(self).reader.cursor(),
                n == text.len(),
                cursor_ok(text.len(), c0),
                c0.pos <= self.reader.cursor().pos < text.len(),
                self.reader.cursor() == spec_advance(text, c0, (self.reader.cursor().pos - c0.pos) as nat),
                current_char == text[self.reader.cursor().pos as int],
                spec_skip(text, self.reader.cursor().pos as nat) == spec_skip(text, c0.pos as nat),
            ensures
                c0.pos <= self.reader.cursor().pos < text.len(),
                text == self.reader.text(),
                src == self.reader.source_view(),
                self.reader.cursor() == spec_advance(text, c0, (self.reader.cursor().pos - c0.pos) as nat),
                current_char == text[self.reader.cursor().pos as int],
                spec_skip(text, c0.pos as nat) == SkipOutcome::At(self.reader.cursor().pos as nat),
            decreases text.len() - self.reader.cursor().pos,
        {
            let cur = self.reader.get_cursor();
            let ghost k = (cur.pos - c0.pos) as nat;
            if current_char == '/' {
                let second = if cur.pos + 1 < n {
                    Some(self.reader.source().char_at(cur.pos + 1))
                } else {
                    None
                };
                let is_block = match second { Some(ch) => ch == '*', None => false };
                let is_line = match second { Some(ch) => ch == '/', None => false };
                if is_block {
                    let ghost p = cur.pos as int;
                    proof { lemma_block_close(text, p + 2); lemma_next(text, c0, k); }
                    self.reader.next_char();
                    proof { lemma_next(text, c0, k + 1); }
                    let c1 = match self.reader.next_char() {
                        None => {
                            proof {
                                lemma_next(text, c0, k + 2);
                                lemma_block_close(text, p + 2);
                                if spec_block_close(text, p + 2) is Some {
                                    let m = spec_block_close(text, p + 2)->0;
                                    assert(spec_closes_at(text, m));
                                }
                            }
                            return Some(Err(self.error_at(cur, "unterminated block comment")));
                        },
                        Some(ch) => ch,
                    };
                    proof { lemma_next(text, c0, k + 2); }
                    let c2 = match self.reader.next_char() {
                        None => {
                            proof {
                                lemma_next(text, c0, k + 3);
                                lemma_block_close(text, p + 2);
                                if spec_block_close(text, p + 2) is Some {
                                    let m = spec_block_close(text, p + 2)->0;
                                    assert(spec_closes_at(text, m));
                                }
                            }
                            return Some(Err(self.error_at(cur, "unterminated block comment")));
                        },
                        Some(ch) => ch,
                    };
                    let mut cc = c1;
                    let mut nc = c2;
                    while cc != '*' || nc != '/'
                        invariant
                            text == self.reader.text(),
                            src == self.reader.source_view(),
                            text == old(self).reader.text(),
                            src == old(self).reader.source_view(),
                            c0 == old(self).reader.cursor(),
                            n == text.len(),
                            cursor_ok(text.len(), c0),
                            p == cur.pos,
                            cur == spec_advance(text, c0, k),
                            k == p - c0.pos,
                            c0.pos <= p,
                            p + 3 <= self.reader.cursor().pos < text.len(),
                            self.reader.cursor() == spec_advance(text, c0, (self.reader.cursor().pos - c0.pos) as nat),
                            cc == text[self.reader.cursor().pos - 1],
                            nc == text[self.reader.cursor().pos as int],
                            forall|j: int| p + 2 <= j < self.reader.cursor().pos - 1 ==> !#[trigger] spec_closes_at(text, j),
                            spec_skip(text, p as nat) == spec_skip(text, c0.pos as nat),
                            text[p] == '/' && text[p + 1] == '*',
                        decreases text.len() - self.reader.cursor().pos,
                    {
                        let ghost r = self.reader.cursor().pos;
                        proof { lemma_next(text, c0, (r - c0.pos) as nat); }
                        match self.reader.next_char() {
                            None => {
                                proof {
                                    assert(!spec_closes_at(text, r - 1));
                                    lemma_next(text, c0, (r - c0.pos + 1) as nat);
                                    lemma_block_close(text, p + 2);
                                    if spec_block_close(text, p + 2) is Some {
                                        let m = spec_block_close(text, p + 2)->0;
                                        assert(spec_closes_at(text, m));
                                    }
                                    lemma_next(text, c0, (r - c0.pos + 1) as nat);
                                }
                                return Some(Err(self.error_at(cur, "unterminated block comment")));
                            },
                            Some(x) => {
                                proof { assert(!spec_closes_at(text, r - 1)); }
                                cc = nc;
                                nc = x;
                            },
                        }
                    }
                    proof {
                        let r = self.reader.cursor().pos as int;
                        assert(spec_closes_at(text, r - 1));
                        assert(spec_block_close(text, p + 2) == Some(r - 1));
                        lemma_next(text, c0, (r - c0.pos) as nat);
                    }
                    current_char = match self.reader.next_char() {
                        None => {
                            proof {
                                lemma_next(text, c0, (self.reader.cursor().pos - c0.pos) as nat);
                                assert(spec_skip(text, text.len() as nat) == SkipOutcome::End);
                            }
                            return None;
                        },
                        Some(ch) => ch,
                    };
                } else if is_line {
                    let ghost p = cur.pos as int;
                    proof { lemma_newline_from(text, p + 1); lemma_next(text, c0, k); }
                    current_char = match self.reader.next_char() {
                        None => { return None; },
                        Some(ch) => ch,
                    };
                    while current_char != '\n'
                        invariant
                            text == self.reader.text(),
                            src == self.reader.source_view(),
                            text == old(self).reader.text(),
                            src == old(self).reader.source_view(),
                            c0 == old(self).reader.cursor(),
                            n == text.len(),
                            cursor_ok(text.len(), c0),
                            c0.pos <= p,
                            p + 1 <= self.reader.cursor().pos < text.len(),
                            self.reader.cursor() == spec_advance(text, c0, (self.reader.cursor().pos - c0.pos) as nat),
                            current_char == text[self.reader.cursor().pos as int],
                            forall|j: int| p + 1 <= j < self.reader.cursor().pos ==> text[j] != '\n',
                            spec_skip(text, p as nat) == spec_skip(text, c0.pos as nat),
                            text[p] == '/' && text[p + 1] == '/',
                        decreases text.len() - self.reader.cursor().pos,
                    {
                        let ghost r = self.reader.cursor().pos;
                        proof { lemma_next(text, c0, (r - c0.pos) as nat); }
                        current_char = match self.reader.next_char() {
                            None => {
                                proof {
                                    lemma_next(text, c0, (r - c0.pos + 1) as nat);
                                    lemma_newline_from(text, p + 1);
                                    if spec_newline_from(text, p + 1) is Some {
                                        let m = spec_newline_from(text, p + 1)->0;
                                        assert(text[m] == '\n');
                                    }
                                    lemma_next(text, c0, (r - c0.pos + 1) as nat);
                                }
                                return None;
                            },
                            Some(ch) => ch,
                        };
                    }
                    proof {
                        let r = self.reader.cursor().pos as int;
                        lemma_newline_from(text, p + 1);
                        assert(spec_newline_from(text, p + 1) == Some(r));
                        lemma_next(text, c0, (r - c0.pos) as nat);
                    }
                    current_char = match self.reader.next_char() {
                        None => {
                            proof { lemma_next(text, c0, (self.reader.cursor().pos - c0.pos) as nat); }
                            return None;
                        },
                        Some(ch) => ch,
                    };
                } else {
                    break;
                }
            } else if is_whitespace(current_char) {
                proof { lemma_next(text, c0, k); }
                current_char = match self.reader.next_char() {
                    None => {
                        proof { lemma_next(text, c0, (self.reader.cursor().pos - c0.pos) as nat); }
                        return None;
                    },
                    Some(ch) => ch,
                };
            } else {
                break;
            }
        }
        Some(Ok(current_char))
    }
}

} // verus!

verus! {

/// Whether `a` and `b` hold the same characters.
pub fn str_eq(a: &str, b: &str) -> (r: bool)
    ensures
        r == (a@ == b@),
{
    let x = a.to_owned();
    let y = b.to_owned();
    x == y
}

fn int_pred(c: char, hex: bool, bin: bool) -> (r: bool)
    ensures
        r == spec_int_pred(c, hex, bin),
{
    is_ascii_digit(c) || (is_ascii_hexdigit(c) && hex) && ((c == '0' || c == '1') || !bin)
}

fn two_char(a: char, b: char) -> (r: Option<TokenKind>)
    ensures
        r == spec_two_char(a, b),
{
    if a == '=' && b == '=' {
        Some(TokenKind::DoubleEqual)
    } else if a == '!' && b == '=' {
        Some(TokenKind::NotEqual)
    } else if a == '>' && b == '=' {
        Some(TokenKind::GreaterEqual)
    } else if a == '<' && b == '=' {
        Some(TokenKind::LesserEqual)
    } else if a == '<' && b == '<' {
        Some(TokenKind::LShift)
    } else if a == '>' && b == '>' {
        Some(TokenKind::RShift)
    } else {
        None
    }
}

fn single_char(c: char) -> (r: Option<TokenKind>)
    ensures
        r == spec_single_char(c),
{
    match c {
        '{' => Some(TokenKind::LCurly),
        '}' => Some(TokenKind::RCurly),
        '(' => Some(TokenKind::LParan),
        ')' => Some(TokenKind::RParan),
        ';' => Some(TokenKind::Semicolon),
        ':' => Some(TokenKind::Colon),
        '+' => Some(TokenKind::Plus),
        '*' => Some(TokenKind::Times),
        '/' => Some(TokenKind::Divider),
        '-' => Some(TokenKind::Minus),
        ',' => Some(TokenKind::Comma),
        '=' => Some(TokenKind::Equal),
        '>' => Some(TokenKind::Greater),
        '<' => Some(TokenKind::Lesser),
        _ => None,
    }
}

/// The kind of the word `w`: the keyword it spells, or an identifier.
pub fn word_kind(w: &str) -> (k: TokenKind)
    ensures
        k == spec_word_kind(w@),
{
    if str_eq(w, "if") {
        TokenKind::Keyword(KeywordType::If)
    } else if str_eq(w, "else") {
        TokenKind::Keyword(KeywordType::Else)
    } else if str_eq(w, "while") {
        TokenKind::Keyword(KeywordType::While)
    } else if str_eq(w, "loop") {
        TokenKind::Keyword(KeywordType::Loop)
    } else if str_eq(w, "return") {
        TokenKind::Keyword(KeywordType::Return)
    } else if str_eq(w, "break") {
        TokenKind::Keyword(KeywordType::Break)
    } else if str_eq(w, "continue") {
        TokenKind::Keyword(KeywordType::Continue)
    } else if str_eq(w, "let") {
        TokenKind::Keyword(KeywordType::Let)
    } else {
        TokenKind::Ident
    }
}

proof fn lemma_run_end_step(text: Seq<char>, r: nat, hex: bool, bin: bool)
    requires
        r < text.len(),
        spec_int_pred(text[r as int], hex, bin),
    ensures
        spec_run_end(text, r, hex, bin) == spec_run_end(text, r + 1, hex, bin),
{
}

proof fn lemma_ident_end_step(text: Seq<char>, r: nat)
    requires
        r < text.len(),
        spec_ident_char(text[r as int]),
    ensures
        spec_ident_end(text, r) == spec_ident_end(text, r + 1),
{
}

/// A run of characters below U+0080 from `q` makes a span of as many bytes.
proof fn lemma_ascii_span(text: Seq<char>, q: int, k: int)
    requires
        0 <= q,
        0 <= k,
        q + k <= text.len(),
        forall|j: int| q <= j < q + k ==> (#[trigger] text[j] as u32) < 0x80,
    ensures
        spec_utf8_len(text.subrange(q, q + k)) == k,
        crate::source::spec_span_exists(text, q, k as nat),
{
    let sub = text.subrange(q, q + k);
    assert forall|j: int| 0 <= j < sub.len() implies (#[trigger] sub[j] as u32) < 0x80 by {
        assert(sub[j] == text[q + j]);
    }
    crate::chars::lemma_utf8_len_ascii(sub);
}

} // verus!

verus! {

impl<'a> Lexer<'a> {
    fn peek_is_int(&self, hex: bool, bin: bool) -> (r: bool)
        ensures
            r == (spec_peek(self.reader.text(), self.reader.cursor()) matches Some(x)
                && spec_int_pred(x, hex, bin)),
    {
        match self.reader.peek_char() {
            Some(x) => int_pred(x, hex, bin),
            None => false,
        }
    }

    fn peek_is_ident_char(&self) -> (r: bool)
        ensures
            r == (spec_peek(self.reader.text(), self.reader.cursor()) matches Some(x)
                && spec_ident_char(x)),
    {
        match self.reader.peek_char() {
            Some(x) => is_alphanumeric(x) || x == '_',
            None => false,
        }
    }

    /// Reads the integer literal under the cursor.
    fn lex_int(&mut self) -> (t: Token)
        requires
            old(self).reader.cursor().pos < old(self).reader.text().len(),
            spec_ascii_digit(old(self).reader.text()[old(self).reader.cursor().pos as int]),
        ensures
            final(self).reader.text() == old(self).reader.text(),
            final(self).reader.source_view() == old(self).reader.source_view(),
            ({
                let text = old(self).reader.text();
                let c0 = old(self).reader.cursor();
                let e = spec_int_end(text, c0.pos as nat);
                &&& spec_token_is(text, c0, TokenKind::Int, c0.pos as nat, e, t)
                &&& c0.pos < e
                &&& final(self).reader.cursor() == spec_advance(text, c0, (e - c0.pos) as nat)
            }),
    {
        let ghost text = self.reader.text();
        let start = self.reader.get_cursor();
        let n = self.reader.source().len();
        let q = start.pos;
        let first = self.reader.source().char_at(q);
        proof { lemma_next(text, start, 0); }
        self.reader.next_char();
        let mut size: usize = 1;
        let mut hex = false;
        let mut bin = false;
        let p1 = self.reader.peek_char();
        let is_prefix = first == '0' && match p1 {
            Some(x) => x == 'x' || x == 'b',
            None => false,
        };
        if is_prefix {
            match p1 {
                Some(x) => {
                    if x == 'x' {
                        hex = true;
                    } else {
                        bin = true;
                    }
                },
                None => {},
            }
            proof { lemma_next(text, start, 1); }
            let c2 = self.reader.next_char();
            let ok = match c2 {
                Some(x) => int_pred(x, hex, bin),
                None => false,
            };
            if ok {
                size = size + 1;
            } else {
                self.reader.goto(start);
                proof { lemma_next(text, start, 0); }
                self.reader.next_char();
            }
        }
        proof {
            if is_prefix && size == 2 {
                assert(spec_int_end(text, q as nat) == spec_run_end(text, (q + 2) as nat, hex, bin));
            } else if is_prefix {
                assert(!spec_int_pred(text[q + 1], hex, bin));
            }
        }
        while self.peek_is_int(hex, bin)
            invariant
                text == self.reader.text(),
                text == old(self).reader.text(),
                self.reader.source_view() == old(self).reader.source_view(),
                start == old(self).reader.cursor(),
                cursor_ok(text.len(), start),
                q == start.pos,
                n == text.len(),
                q + size == self.reader.cursor().pos <= text.len(),
                1 <= size,
                self.reader.cursor() == spec_advance(text, start, size as nat),
                forall|j: int| q <= j < q + size ==> (#[trigger] text[j] as u32) < 0x80,
                spec_run_end(text, (q + size) as nat, hex, bin) == spec_int_end(text, q as nat),
            decreases text.len() - self.reader.cursor().pos,
        {
            proof {
                lemma_next(text, start, size as nat);
                lemma_run_end_step(text, (q + size) as nat, hex, bin);
            }
            self.reader.next_char();
            size = size + 1;
        }
        proof {
            lemma_ascii_span(text, q as int, size as int);
        }
        let span = SourceSpan::at(self.reader.source(), start, size);
        proof {
            crate::source::lemma_span_len_unique(text, q as int, span.data@.len() as int, size as int);
        }
        Token { kind: TokenKind::Int, span }
    }

    /// Reads the identifier or keyword under the cursor.
    fn lex_ident(&mut self) -> (t: Token)
        requires
            old(self).reader.cursor().pos < old(self).reader.text().len(),
            spec_ident_start(old(self).reader.text()[old(self).reader.cursor().pos as int]),
        ensures
            final(self).reader.text() == old(self).reader.text(),
            final(self).reader.source_view() == old(self).reader.source_view(),
            ({
                let text = old(self).reader.text();
                let c0 = old(self).reader.cursor();
                let e = spec_ident_end(text, (c0.pos + 1) as nat);
                &&& spec_token_is(text, c0, spec_word_kind(text.subrange(c0.pos as int, e as int)), c0.pos as nat, e, t)
                &&& c0.pos < e
                &&& final(self).reader.cursor() == spec_advance(text, c0, (e - c0.pos) as nat)
            }),
    {
        let ghost text = self.reader.text();
        let start = self.reader.get_cursor();
        let n = self.reader.source().len();
        let q = start.pos;
        let first = self.reader.source().char_at(q);
        let mut size = len_utf8(first);
        proof {
            crate::source::lemma_utf8_len_push_sub(text, q as int, q as int);
            assert(text.subrange(q as int, q as int).len() == 0);
            crate::chars::lemma_utf8_len_subrange(text, q as int, q + 1);
        }
        while self.peek_is_ident_char()
            invariant
                text == self.reader.text(),
                text == old(self).reader.text(),
                self.reader.source_view() == old(self).reader.source_view(),
                start == old(self).reader.cursor(),
                cursor_ok(text.len(), start),
                q == start.pos,
                n == text.len(),
                spec_utf8_len(text) <= usize::MAX,
                q <= self.reader.cursor().pos <= text.len(),
                self.reader.cursor() == spec_advance(text, start, (self.reader.cursor().pos - q) as nat),
                spec_ident_char(text[q as int]),
                forall|j: int| q <= j < self.reader.cursor().pos ==> spec_ident_char(#[trigger] text[j]),
                size == spec_utf8_len(text.subrange(q as int,
                    if self.reader.cursor().pos < text.len() && spec_ident_char(text[self.reader.cursor().pos as int]) {
                        self.reader.cursor().pos + 1
                    } else {
                        self.reader.cursor().pos as int
                    })),
                self.reader.cursor().pos == q || spec_ident_end(text, self.reader.cursor().pos as nat) == spec_ident_end(text, (q + 1) as nat),
            decreases text.len() - self.reader.cursor().pos,
        {
            let ghost r = self.reader.cursor().pos;
            proof {
                lemma_next(text, start, (r - q) as nat);
                if r > q {
                    lemma_ident_end_step(text, r as nat);
                }
            }
            self.reader.next_char();
            match self.reader.peek_char() {
                Some(y) => {
                    if is_alphanumeric(y) || y == '_' {
                        proof {
                            crate::source::lemma_utf8_len_push_sub(text, q as int, r + 1);
                            crate::chars::lemma_utf8_len_subrange(text, q as int, r + 2);
                        }
                        size = size + len_utf8(y);
                    }
                },
                None => {},
            }
        }
        let ghost e = self.reader.cursor().pos;
        proof {
            assert(e > q);
            crate::chars::lemma_utf8_len_subrange(text, q as int, e as int);
            assert(crate::source::spec_span_exists(text, q as int, size as nat)) by {
                assert(q + (e - q) == e);
            }
        }
        let span = SourceSpan::at(self.reader.source(), start, size);
        proof {
            crate::source::lemma_span_len_unique(text, q as int, span.data@.len() as int, (e - q) as int);
        }
        let kind = word_kind(span.data.as_str());
        Token { kind, span }
    }

    /// The next token, `None` when no token is left, or the error at the place where
    /// the text cannot be read.
    pub fn next_token(&mut self) -> (r: Option<Result<Token, CompilerError>>)
        ensures
            final(self).reader.text() == old(self).reader.text(),
            final(self).reader.source_view() == old(self).reader.source_view(),
            ({
                let text = old(self).reader.text();
                let c0 = old(self).reader.cursor();
                let (step, np) = spec_next(text, c0.pos as nat);
                &&& c0.pos <= np <= text.len()
                &&& final(self).reader.cursor() == spec_advance(text, c0, (np - c0.pos) as nat)
                &&& match step {
                    LexStep::End => r is None,
                    LexStep::Token(k, s, e) => r matches Some(Ok(t)) && spec_token_is(text, c0, k, s, e, t),
                    LexStep::Error(at, msg) => r matches Some(Err(err)) && c0.pos <= at
                        && spec_lex_error(old(self).reader.source_view(), spec_advance(text, c0, (at - c0.pos) as nat), msg, err),
                }
            }),
    {
        let ghost text = self.reader.text();
        let ghost src = self.reader.source_view();
        let c0 = self.reader.get_cursor();
        let n = self.reader.source().len();
        proof { lemma_skip_bounds(text, c0.pos as nat); }
        match self.skip_whitespaces_and_commants() {
            None => { return None; },
            Some(Err(e)) => { return Some(Err(e)); },
            Some(Ok(_)) => {},
        }
        proof {
            if let SkipOutcome::At(qq) = spec_skip(text, c0.pos as nat) {
                lemma_advance(text, c0, (qq - c0.pos) as nat);
            }
        }
        let cq = self.reader.get_cursor();
        let q = cq.pos;
        let ghost kq = (q - c0.pos) as nat;
        let c = self.reader.source().char_at(q);
        if is_ascii_digit(c) {
            let t = self.lex_int();
            proof {
                lemma_advance_add(text, c0, kq, (spec_int_end(text, q as nat) - q) as nat);
            }
            return Some(Ok(t));
        }
        if q + 1 < n {
            let d = self.reader.source().char_at(q + 1);
            match two_char(c, d) {
                Some(k) => {
                    proof { lemma_next(text, c0, kq); }
                    self.reader.next_char();
                    proof { lemma_next(text, c0, kq + 1); }
                    self.reader.next_char();
                    proof {
                        lemma_ascii_span(text, q as int, 2);
                    }
                    let span = SourceSpan::at(self.reader.source(), cq, 2);
                    proof {
                        crate::source::lemma_span_len_unique(text, q as int, span.data@.len() as int, 2);
                    }
                    return Some(Ok(Token { kind: k, span }));
                },
                None => {},
            }
        }
        match single_char(c) {
            Some(k) => {
                proof { lemma_next(text, c0, kq); }
                self.reader.next_char();
                proof {
                    lemma_ascii_span(text, q as int, 1);
                }
                let span = SourceSpan::at(self.reader.source(), cq, 1);
                proof {
                    crate::source::lemma_span_len_unique(text, q as int, span.data@.len() as int, 1);
                }
                return Some(Ok(Token { kind: k, span }));
            },
            None => {},
        }
        if is_alphabetic(c) || c == '_' {
            let t = self.lex_ident();
            proof {
                lemma_advance_add(text, c0, kq, (spec_ident_end(text, (q + 1) as nat) - q) as nat);
            }
            return Some(Ok(t));
        }
        proof { lemma_next(text, c0, kq); }
        self.reader.next_char();
        let mut message = "bad token : ".to_owned();
        push_char(&mut message, c);
        Some(Err(self.error_at(cq, message.as_str())))
    }
}

} // verus!

verus! {

proof fn lemma_run_end_ge(text: Seq<char>, r: nat, hex: bool, bin: bool)
    ensures
        spec_run_end(text, r, hex, bin) >= r,
        spec_run_end(text, r, hex, bin) <= text.len() || spec_run_end(text, r, hex, bin) == r,
    decreases text.len() - r,
{
    if r < text.len() && spec_int_pred(text[r as int], hex, bin) {
        lemma_run_end_ge(text, r + 1, hex, bin);
    }
}

proof fn lemma_ident_end_ge(text: Seq<char>, r: nat)
    ensures
        spec_ident_end(text, r) >= r,
        spec_ident_end(text, r) <= text.len() || spec_ident_end(text, r) == r,
    decreases text.len() - r,
{
    if r < text.len() && spec_ident_char(text[r as int]) {
        lemma_ident_end_ge(text, r + 1);
    }
}

/// Every step of the lexer that is not the end moves strictly forward and stays
/// within the text; a token starts where skipping led and ends after it starts.
pub proof fn lemma_next_progress(text: Seq<char>, p: nat)
    requires
        p <= text.len(),
    ensures
        ({
            let (step, np) = spec_next(text, p);
            &&& np <= text.len()
            &&& p <= np
            &&& (step !is End ==> p < np)
            &&& (step matches LexStep::Token(_, s, e) ==> p <= s < e && e == np)
            &&& (step matches LexStep::Error(at, _) ==> p <= at < np)
        }),
{
    lemma_skip_bounds(text, p);
    if let SkipOutcome::At(q) = spec_skip(text, p) {
        let c = text[q as int];
        if spec_ascii_digit(c) {
            let hex = text[q as int] == '0' && q + 1 < text.len() && text[q + 1int] == 'x';
            let bin = text[q as int] == '0' && q + 1 < text.len() && text[q + 1int] == 'b';
            lemma_run_end_ge(text, q + 2, hex, bin);
            lemma_run_end_ge(text, q + 1, false, false);
        } else {
            lemma_ident_end_ge(text, q + 1);
        }
    }
}

/// Where skipping stops at a token's start, skipping from that start stays there.
proof fn lemma_skip_at_start(text: Seq<char>, p: nat)
    ensures
        spec_skip(text, p) matches SkipOutcome::At(q) ==> spec_skip(text, q) == SkipOutcome::At(q),
    decreases text.len() - p,
{
    if p < text.len() {
        if text[p as int] == '/' {
            if p + 1 < text.len() && text[p + 1int] == '*' {
                lemma_block_close(text, p + 2int);
                if let Some(m) = spec_block_close(text, p + 2int) {
                    if m >= p {
                        lemma_skip_at_start(text, (m + 2) as nat);
                    }
                }
            } else if p + 1 < text.len() && text[p + 1int] == '/' {
                lemma_newline_from(text, p + 1int);
                if let Some(n) = spec_newline_from(text, p + 1int) {
                    if n >= p {
                        lemma_skip_at_start(text, (n + 1) as nat);
                    }
                }
            }
        } else if unicode_white_space(text[p as int]) {
            lemma_skip_at_start(text, p + 1);
        }
    }
}

/// Going back to where a token starts and reading again reads the same token.
pub proof fn lemma_token_reread(text: Seq<char>, p: nat)
    ensures
        spec_next(text, p).0 matches LexStep::Token(k, s, e) ==> spec_next(text, s) == spec_next(text, p),
{
    lemma_skip_at_start(text, p);
}

/// All the steps of the lexer from index `p` until the end: tokens and errors.
pub open spec fn spec_tokens(text: Seq<char>, p: nat) -> Seq<LexStep>
    decreases text.len() - p,
{
    if p > text.len() {
        Seq::empty()
    } else {
        let (step, np) = spec_next(text, p);
        if step is End || np <= p {
            Seq::empty()
        } else {
            proof { lemma_next_progress(text, p); }
            seq![step] + spec_tokens(text, np)
        }
    }
}

/// `item` is what the lexer hands out for `step`, reading `source` from cursor `c0`.
pub open spec fn spec_item_is(
    source: SourceBuffer,
    c0: SourceCursor,
    step: LexStep,
    item: Result<Token, CompilerError>,
) -> bool {
    match step {
        LexStep::End => false,
        LexStep::Token(k, s, e) => item matches Ok(t) && spec_token_is(source.text(), c0, k, s, e, t),
        LexStep::Error(at, msg) => item matches Err(err) && c0.pos <= at
            && spec_lex_error(source, spec_advance(source.text(), c0, (at - c0.pos) as nat), msg, err),
    }
}

impl<'a> Lexer<'a> {
    /// Every token left, with the errors in between, up to the end of the text.
    pub fn tokens(&mut self) -> (r: Vec<Result<Token, CompilerError>>)
        ensures
            final(self).reader.text() == old(self).reader.text(),
            final(self).reader.source_view() == old(self).reader.source_view(),
            r.len() == spec_tokens(old(self).reader.text(), old(self).reader.cursor().pos as nat).len(),
            forall|i: int| 0 <= i < r.len() ==> spec_item_is(old(self).reader.source_view(), old(self).reader.cursor(),
                #[trigger] spec_tokens(old(self).reader.text(), old(self).reader.cursor().pos as nat)[i], r[i]),
    {
        let ghost text = self.reader.text();
        let ghost src = self.reader.source_view();
        let c0 = self.reader.get_cursor();
        let ghost all = spec_tokens(text, c0.pos as nat);
        let mut r: Vec<Result<Token, CompilerError>> = Vec::new();
        let _ = self.reader.source();
        proof {
            lemma_advance(text, c0, 0);
        }
        loop
            invariant
                text == self.reader.text(),
                src == self.reader.source_view(),
                src.text() == text,
                text == old(self).reader.text(),
                src == old(self).reader.source_view(),
                c0 == old(self).reader.cursor(),
                cursor_ok(text.len(), c0),
                all == spec_tokens(text, c0.pos as nat),
                c0.pos <= self.reader.cursor().pos <= text.len(),
                self.reader.cursor() == spec_advance(text, c0, (self.reader.cursor().pos - c0.pos) as nat),
                r.len() + spec_tokens(text, self.reader.cursor().pos as nat).len() == all.len(),
                forall|i: int| 0 <= i < r.len() ==> spec_item_is(src, c0, #[trigger] all[i], r[i]),
                forall|i: int| 0 <= i < spec_tokens(text, self.reader.cursor().pos as nat).len()
                    ==> #[trigger] spec_tokens(text, self.reader.cursor().pos as nat)[i] == all[r.len() + i],
            decreases text.len() - self.reader.cursor().pos,
        {
            let ghost p = self.reader.cursor().pos;
            let ghost cp = self.reader.cursor();
            proof { lemma_next_progress(text, p as nat); }
            match self.next_token() {
                None => {
                    proof {
                        assert(spec_tokens(text, p as nat).len() == 0);
                    }
                    return r;
                },
                Some(item) => {
                    let ghost np = spec_next(text, p as nat).1;
                    let ghost step = spec_next(text, p as nat).0;
                    proof {
                        lemma_advance_add(text, c0, (p - c0.pos) as nat, (np - p) as nat);
                        assert(spec_tokens(text, p as nat) == seq![step] + spec_tokens(text, np));
                        assert(spec_tokens(text, p as nat)[0] == all[r.len() + 0]);
                        assert(all[r.len() as int] == step);
                        match step {
                            LexStep::Token(k, s, e) => {
                                lemma_advance_add(text, c0, (p - c0.pos) as nat, (s - p) as nat);
                            },
                            LexStep::Error(at, msg) => {
                                lemma_advance_add(text, c0, (p - c0.pos) as nat, (at - p) as nat);
                            },
                            _ => {},
                        }
                        lemma_advance(text, c0, (np - c0.pos) as nat);
                    }
                    r.push(item);
                    proof {
                        assert forall|i: int| 0 <= i < spec_tokens(text, np).len()
                            implies #[trigger] spec_tokens(text, np)[i] == all[r.len() + i] by {
                            assert(spec_tokens(text, p as nat)[i + 1] == spec_tokens(text, np)[i]);
                        }
                    }
                },
            }
        }
    }
}

} // verus!
