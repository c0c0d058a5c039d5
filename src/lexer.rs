//! Converts source text into a flat token stream.
use vstd::prelude::*;

pub mod token;

pub use token::{keyword, Token, TokenKind};

use crate::error::{tsukiError, Span};
use crate::text::{alphabetic, alphanumeric, is_ascii_letter, chars_of, is_alnum, is_alpha, push_all, push_str, string_of};
use token::{keyword_of, op_text, punct_kind, spelled_by};

verus! {

/// Number of line breaks in `s`.
pub open spec fn newlines(s: Seq<char>) -> nat
    decreases s.len(),
{
    if s.len() == 0 {
        0
    } else {
        newlines(s.drop_last()) + if s.last() == '\n' { 1nat } else { 0nat }
    }
}

/// The 1-based column just after `s`: one more than the characters since its last line break.
pub open spec fn col_after(s: Seq<char>) -> nat
    decreases s.len(),
{
    if s.len() == 0 {
        1
    } else if s.last() == '\n' {
        1
    } else {
        col_after(s.drop_last()) + 1
    }
}

proof fn lemma_line_col_bounds(s: Seq<char>)
    ensures
        newlines(s) <= s.len(),
        1 <= col_after(s) <= s.len() + 1,
    decreases s.len(),
{
    if s.len() > 0 {
        lemma_line_col_bounds(s.drop_last());
    }
}

/// The span of position `pos` of `chars` in `file`: line and column are 1-based.
pub open spec fn span_at(file: Seq<char>, chars: Seq<char>, pos: int) -> Span {
    Span {
        file: arbitrary(),
        line: (1 + newlines(chars.take(pos))) as u32,
        col: col_after(chars.take(pos)) as u32,
        offset: byte_offset(chars, pos),
    }
}

/// The number of bytes of `c` in UTF-8.
pub open spec fn utf8_len(c: char) -> nat {
    if (c as u32) < 0x80 {
        1
    } else if (c as u32) < 0x800 {
        2
    } else if (c as u32) < 0x10000 {
        3
    } else {
        4
    }
}

/// The number of bytes of `s` in UTF-8.
pub open spec fn byte_len(s: Seq<char>) -> nat
    decreases s.len(),
{
    if s.len() == 0 {
        0
    } else {
        byte_len(s.drop_last()) + utf8_len(s.last())
    }
}

/// The byte offset of character `pos` in the UTF-8 text, held at `usize::MAX` should it
/// not fit.
pub open spec fn byte_offset(chars: Seq<char>, pos: int) -> usize {
    let b = byte_len(chars.take(pos));
    if b > usize::MAX {
        usize::MAX as usize
    } else {
        b as usize
    }
}

fn utf8_width(c: char) -> (r: usize)
    ensures
        r == utf8_len(c),
{
    if (c as u32) < 0x80 {
        1
    } else if (c as u32) < 0x800 {
        2
    } else if (c as u32) < 0x10000 {
        3
    } else {
        4
    }
}

/// A span equals the span of `pos`, with `file` as its file name.
pub open spec fn is_span_at(sp: Span, file: Seq<char>, chars: Seq<char>, pos: int) -> bool {
    &&& sp.file@ == file
    &&& sp.line == span_at(file, chars, pos).line
    &&& sp.col == span_at(file, chars, pos).col
    &&& sp.offset == byte_offset(chars, pos)
}

pub open spec fn char_at(s: Seq<char>, i: int) -> Option<char> {
    if 0 <= i < s.len() {
        Some(s[i])
    } else {
        None
    }
}

/// Whether `c` can start an identifier: a letter (in the Unicode sense) or `_`.
pub open spec fn word_start(c: char) -> bool {
    if (c as u32) < 128 {
        is_ascii_letter(c) || c == '_'
    } else {
        alphabetic(c)
    }
}

/// Whether `c` can continue an identifier: a letter, a digit (in the Unicode sense) or `_`.
pub open spec fn word_char(c: char) -> bool {
    if (c as u32) < 128 {
        is_ascii_letter(c) || ('0' <= c <= '9') || c == '_'
    } else {
        alphanumeric(c)
    }
}

/// The classes of characters that make up runs inside numbers and identifiers.
#[derive(Clone, Copy)]
pub enum CharClass {
    DecimalOrUnderscore,
    HexOrUnderscore,
    BinaryOrUnderscore,
    OctalOrUnderscore,
    Decimal,
    Word,
}

pub open spec fn in_class(c: char, cls: CharClass) -> bool {
    match cls {
        CharClass::DecimalOrUnderscore => ('0' <= c <= '9') || c == '_',
        CharClass::HexOrUnderscore => ('0' <= c <= '9') || ('a' <= c <= 'f') || ('A' <= c <= 'F')
            || c == '_',
        CharClass::BinaryOrUnderscore => c == '0' || c == '1' || c == '_',
        CharClass::OctalOrUnderscore => ('0' <= c <= '7') || c == '_',
        CharClass::Decimal => '0' <= c <= '9',
        CharClass::Word => word_char(c),
    }
}

/// The end of the longest run of class `cls` that starts at `i`.
pub open spec fn run_end(s: Seq<char>, i: int, cls: CharClass) -> int
    decreases s.len() - i,
{
    if 0 <= i < s.len() && in_class(s[i], cls) {
        run_end(s, i + 1, cls)
    } else {
        i
    }
}

proof fn lemma_run_end(s: Seq<char>, i: int, j: int, cls: CharClass)
    requires
        0 <= i <= j <= s.len(),
        forall|k: int| i <= k < j ==> in_class(#[trigger] s[k], cls),
        j == s.len() || !in_class(s[j], cls),
    ensures
        run_end(s, i, cls) == j,
    decreases j - i,
{
    if i < j {
        lemma_run_end(s, i + 1, j, cls);
    }
}

/// The class of digits that a radix letter after a leading `0` selects.
pub open spec fn radix_class(c: char) -> Option<CharClass> {
    if c == 'x' || c == 'X' {
        Some(CharClass::HexOrUnderscore)
    } else if c == 'b' || c == 'B' {
        Some(CharClass::BinaryOrUnderscore)
    } else if c == 'o' || c == 'O' {
        Some(CharClass::OctalOrUnderscore)
    } else {
        None
    }
}

/// Whether the number at `q` has a radix prefix.
pub open spec fn has_radix_prefix(s: Seq<char>, q: int) -> bool {
    0 <= q && q + 1 < s.len() && s[q] == '0' && radix_class(s[q + 1]) is Some
}

/// A fraction starts at `i`: a `.` followed by a digit.
pub open spec fn fraction_at(s: Seq<char>, i: int) -> bool {
    0 <= i && i + 1 < s.len() && s[i] == '.' && '0' <= s[i + 1] <= '9'
}

pub open spec fn exponent_at(s: Seq<char>, i: int) -> bool {
    0 <= i < s.len() && (s[i] == 'e' || s[i] == 'E')
}

/// Whether the number at `q` is floating-point: no radix prefix, and its digits are
/// followed by a fraction or an exponent.
pub open spec fn number_is_float(s: Seq<char>, q: int) -> bool {
    let e1 = run_end(s, q, CharClass::DecimalOrUnderscore);
    !has_radix_prefix(s, q) && (fraction_at(s, e1) || exponent_at(s, e1))
}

/// The end of a floating-point literal at `q`; `None` when its exponent has no digits.
pub open spec fn float_end(s: Seq<char>, q: int) -> Option<int> {
    let e1 = run_end(s, q, CharClass::DecimalOrUnderscore);
    let e2 = if fraction_at(s, e1) {
        run_end(s, e1 + 1, CharClass::DecimalOrUnderscore)
    } else {
        e1
    };
    if exponent_at(s, e2) {
        let e3 = if e2 + 1 < s.len() && (s[e2 + 1] == '+' || s[e2 + 1] == '-') {
            e2 + 2
        } else {
            e2 + 1
        };
        let e4 = run_end(s, e3, CharClass::Decimal);
        if e4 > e3 {
            Some(e4)
        } else {
            None
        }
    } else {
        Some(e2)
    }
}

/// The end of the longest numeric literal at `q`; `None` when that literal is malformed:
/// no digits after a radix prefix, a value beyond `i64`, or an exponent without digits.
pub open spec fn number_end(s: Seq<char>, q: int) -> Option<int> {
    if has_radix_prefix(s, q) {
        let e = run_end(s, q + 2, radix_class(s[q + 1])->Some_0);
        if int_literal(s.subrange(q, e)) is Some {
            Some(e)
        } else {
            None
        }
    } else if number_is_float(s, q) {
        float_end(s, q)
    } else {
        let e = run_end(s, q, CharClass::DecimalOrUnderscore);
        if int_literal(s.subrange(q, e)) is Some {
            Some(e)
        } else {
            None
        }
    }
}

fn class_has(c: char, cls: CharClass) -> (r: bool)
    ensures
        r == in_class(c, cls),
{
    match cls {
        CharClass::DecimalOrUnderscore => ('0' <= c && c <= '9') || c == '_',
        CharClass::HexOrUnderscore => ('0' <= c && c <= '9') || ('a' <= c && c <= 'f') || ('A' <= c
            && c <= 'F') || c == '_',
        CharClass::BinaryOrUnderscore => c == '0' || c == '1' || c == '_',
        CharClass::OctalOrUnderscore => ('0' <= c && c <= '7') || c == '_',
        CharClass::Decimal => '0' <= c && c <= '9',
        CharClass::Word => is_alnum(c) || c == '_',
    }
}

/// Hand-written scanner over the characters of one source file.
pub struct Lexer {
    chars: Vec<char>,
    pos: usize,
    line: u32,
    col: u32,
    /// The byte offset of `pos` in the UTF-8 text.
    byte: usize,
    file: String,
}

impl Lexer {
    /// The characters being scanned.
    pub closed spec fn text(&self) -> Seq<char> {
        self.chars@
    }

    /// The file name that spans carry.
    pub closed spec fn file_name(&self) -> Seq<char> {
        self.file@
    }

    /// The index of the next character to scan.
    pub closed spec fn position(&self) -> int {
        self.pos as int
    }

    pub closed spec fn wf(&self) -> bool {
        &&& self.chars@.len() < u32::MAX
        &&& self.pos <= self.chars@.len()
        &&& self.line == 1 + newlines(self.chars@.take(self.pos as int))
        &&& self.col == col_after(self.chars@.take(self.pos as int))
        &&& self.byte == byte_offset(self.chars@, self.pos as int)
    }

    spec fn same_input(&self, other: &Lexer) -> bool {
        self.chars@ == other.chars@ && self.file@ == other.file@
    }

    /// A scanner at the start of `source`; spans name `file`.
    pub fn new(source: &str, file: String) -> (r: Lexer)
        requires
            source@.len() < u32::MAX,
        ensures
            r.wf(),
            r.text() == source@,
            r.file_name() == file@,
            r.position() == 0,
    {
        let chars = chars_of(source);
        assert(chars@.take(0) =~= Seq::<char>::empty());
        Lexer { chars, pos: 0, line: 1, col: 1, byte: 0, file }
    }

    fn peek(&self) -> (r: Option<char>)
        ensures
            r == char_at(self.chars@, self.pos as int),
    {
        if self.pos < self.chars.len() {
            Some(self.chars[self.pos])
        } else {
            None
        }
    }

    fn peek2(&self) -> (r: Option<char>)
        requires
            self.wf(),
        ensures
            r == char_at(self.chars@, self.pos + 1),
    {
        if self.pos < self.chars.len() && self.chars.len() - self.pos > 1 {
            Some(self.chars[self.pos + 1])
        } else {
            None
        }
    }

    fn peek3(&self) -> (r: Option<char>)
        requires
            self.wf(),
        ensures
            r == char_at(self.chars@, self.pos + 2),
    {
        if self.pos < self.chars.len() && self.chars.len() - self.pos > 2 {
            Some(self.chars[self.pos + 2])
        } else {
            None
        }
    }

    /// Consumes one character, keeping line and column in step.
    fn advance(&mut self) -> (r: Option<char>)
        requires
            old(self).wf(),
        ensures
            final(self).wf(),
            final(self).same_input(old(self)),
            r == char_at(old(self).chars@, old(self).pos as int),
            final(self).pos == if r is Some { old(self).pos + 1 } else { old(self).pos as int },
    {
        if self.pos >= self.chars.len() {
            return None;
        }
        let ch = self.chars[self.pos];
        let ghost before = self.chars@.take(self.pos as int);
        proof {
            lemma_line_col_bounds(before);
            assert(self.chars@.take(self.pos + 1).drop_last() =~= before);
        }
        let w = utf8_width(ch);
        if usize::MAX - self.byte < w {
            self.byte = usize::MAX;
        } else {
            self.byte = self.byte + w;
        }
        self.pos += 1;
        if ch == '\n' {
            self.line += 1;
            self.col = 1;
        } else {
            self.col += 1;
        }
        Some(ch)
    }

    /// The span of the next character.
    fn span(&self) -> (r: Span)
        requires
            self.wf(),
        ensures
            is_span_at(r, self.file@, self.chars@, self.pos as int),
    {
        Span::new(self.file.clone(), self.line, self.col, self.byte)
    }

    /// Consumes the longest run of characters of class `cls` and returns it.
    fn eat_while(&mut self, cls: CharClass) -> (r: Vec<char>)
        requires
            old(self).wf(),
        ensures
            final(self).wf(),
            final(self).same_input(old(self)),
            old(self).pos <= final(self).pos,
            r@ == old(self).chars@.subrange(old(self).pos as int, final(self).pos as int),
            forall|i: int| old(self).pos <= i < final(self).pos ==> in_class(#[trigger] old(self).chars@[i], cls),
            final(self).pos == old(self).chars@.len() || !in_class(old(self).chars@[final(self).pos as int], cls),
            final(self).pos == run_end(old(self).chars@, old(self).pos as int, cls),
    {
        let ghost start = self.pos as int;
        let mut buf: Vec<char> = Vec::new();
        while self.pos < self.chars.len() && class_has(self.chars[self.pos], cls)
            invariant
                self.wf(),
                self.same_input(old(self)),
                start == old(self).pos,
                start <= self.pos,
                buf@ == self.chars@.subrange(start, self.pos as int),
                forall|i: int| start <= i < self.pos ==> in_class(#[trigger] self.chars@[i], cls),
            decreases self.chars@.len() - self.pos,
        {
            let c = self.advance();
            buf.push(c.unwrap());
            assert(buf@ =~= self.chars@.subrange(start, self.pos as int));
        }
        proof {
            lemma_run_end(self.chars@, start, self.pos as int, cls);
        }
        buf
    }

    fn skip_horizontal_ws(&mut self)
        requires
            old(self).wf(),
        ensures
            final(self).wf(),
            final(self).same_input(old(self)),
            old(self).pos <= final(self).pos,
            final(self).pos == final(self).chars@.len() || !is_blank(final(self).chars@[final(self).pos as int]),
            trivia_end(old(self).chars@, old(self).pos as int, 0) == trivia_end(final(self).chars@, final(self).pos as int, 0),
            unclosed_comment_at(old(self).chars@, old(self).pos as int, 0, -1) == unclosed_comment_at(final(self).chars@, final(self).pos as int, 0, -1),
    {
        while self.pos < self.chars.len() && is_blank_char(self.chars[self.pos])
            invariant
                self.wf(),
                self.same_input(old(self)),
                old(self).pos <= self.pos,
                trivia_end(old(self).chars@, old(self).pos as int, 0) == trivia_end(self.chars@, self.pos as int, 0),
                unclosed_comment_at(old(self).chars@, old(self).pos as int, 0, -1) == unclosed_comment_at(self.chars@, self.pos as int, 0, -1),
            decreases self.chars@.len() - self.pos,
        {
            self.advance();
        }
    }

    /// Skips a `//` comment that starts at the current position, up to the end of the
    /// line, leaving the line break itself.
    fn skip_line_comment(&mut self)
        requires
            old(self).wf(),
            old(self).pos + 1 < old(self).chars@.len(),
            old(self).chars@[old(self).pos as int] == '/',
            old(self).chars@[old(self).pos + 1] == '/',
        ensures
            final(self).wf(),
            final(self).same_input(old(self)),
            old(self).pos + 2 <= final(self).pos,
            trivia_end(old(self).chars@, old(self).pos as int, 0) == trivia_end(final(self).chars@, final(self).pos as int, 0),
            unclosed_comment_at(old(self).chars@, old(self).pos as int, 0, -1) == unclosed_comment_at(final(self).chars@, final(self).pos as int, 0, -1),
    {
        self.advance();
        self.advance();
        while self.pos < self.chars.len() && self.chars[self.pos] != '\n'
            invariant
                self.wf(),
                self.same_input(old(self)),
                old(self).pos + 2 <= self.pos,
                trivia_end(old(self).chars@, old(self).pos as int, 0) == trivia_end(self.chars@, self.pos as int, 1),
                unclosed_comment_at(old(self).chars@, old(self).pos as int, 0, -1) == unclosed_comment_at(self.chars@, self.pos as int, 1, -1),
            decreases self.chars@.len() - self.pos,
        {
            self.advance();
        }
    }

    /// Skips a `/* ... */` comment that starts at the current position.
    /// Comments do not nest; an unterminated one is an error at its opening.
    fn skip_block_comment(&mut self) -> (r: Result<(), tsukiError>)
        requires
            old(self).wf(),
            old(self).pos + 1 < old(self).chars@.len(),
        ensures
            final(self).wf(),
            final(self).same_input(old(self)),
            final(self).pos >= old(self).pos,
            old(self).chars@[old(self).pos as int] == '/' && old(self).chars@[old(self).pos + 1] == '*' ==> (
            r is Ok ==> final(self).pos >= old(self).pos + 4 && trivia_end(old(self).chars@, old(self).pos as int, 0)
                == trivia_end(final(self).chars@, final(self).pos as int, 0)),
            old(self).chars@[old(self).pos as int] == '/' && old(self).chars@[old(self).pos + 1] == '*' ==> (
            r is Err ==> trivia_end(old(self).chars@, old(self).pos as int, 0) is None
                && unclosed_comment_at(old(self).chars@, old(self).pos as int, 0, -1) == old(self).pos),
            old(self).chars@[old(self).pos as int] == '/' && old(self).chars@[old(self).pos + 1] == '*' ==> (
            r is Ok ==> unclosed_comment_at(old(self).chars@, old(self).pos as int, 0, -1) == unclosed_comment_at(
                final(self).chars@,
                final(self).pos as int,
                0,
                -1,
            )),
            r matches Err(e) ==> e->Lex_msg@ == "unterminated block comment `/* ... */`"@,
            r matches Err(e) ==> e is Lex && is_span_at(e->Lex_span, old(self).file@, old(self).chars@, old(self).pos as int),
    {
        let sp = self.span();
        self.advance();
        self.advance();
        let ghost body = self.pos as int;
        loop
            invariant
                self.wf(),
                self.same_input(old(self)),
                body == old(self).pos + 2,
                body <= self.pos,
                is_span_at(sp, old(self).file@, old(self).chars@, old(self).pos as int),
                old(self).chars@[old(self).pos as int] == '/' && old(self).chars@[old(self).pos + 1] == '*'
                    ==> trivia_end(old(self).chars@, old(self).pos as int, 0) == trivia_end(self.chars@, self.pos as int, 2)
                    && unclosed_comment_at(old(self).chars@, old(self).pos as int, 0, -1) == unclosed_comment_at(
                    self.chars@,
                    self.pos as int,
                    2,
                    old(self).pos as int,
                ),
            decreases self.chars@.len() - self.pos,
        {
            let ghost here = self.pos as int;
            match self.advance() {
                None => {
                    return Err(tsukiError::lex(sp, message("unterminated block comment `/* ... */`")));
                },
                Some(c) => {
                    if c == '*' && self.peek() == Some('/') {
                        self.advance();
                        proof {
                            lemma_open_irrelevant(self.chars@, self.pos as int, 0, old(self).pos as int, -1);
                        }
                        return Ok(());
                    }
                },
            }
        }
    }
}

pub open spec fn is_blank(c: char) -> bool {
    c == ' ' || c == '\t' || c == '\r'
}

/// Where the blanks and comments at `i` end, scanning in `mode`: 0 between tokens,
/// 1 inside a line comment, 2 inside a block comment. A line comment stops before its
/// line break; `None` when a block comment is never closed.
pub open spec fn trivia_end(s: Seq<char>, i: int, mode: nat) -> Option<int>
    decreases s.len() - i,
{
    if i < 0 {
        None
    } else if i >= s.len() {
        if mode == 2 {
            None
        } else {
            Some(s.len() as int)
        }
    } else if mode == 1 {
        if s[i] == '\n' {
            Some(i)
        } else {
            trivia_end(s, i + 1, 1)
        }
    } else if mode == 2 {
        if s[i] == '*' && i + 1 < s.len() && s[i + 1] == '/' {
            trivia_end(s, i + 2, 0)
        } else {
            trivia_end(s, i + 1, 2)
        }
    } else if is_blank(s[i]) {
        trivia_end(s, i + 1, 0)
    } else if s[i] == '/' && i + 1 < s.len() && s[i + 1] == '/' {
        trivia_end(s, i + 2, 1)
    } else if s[i] == '/' && i + 1 < s.len() && s[i + 1] == '*' {
        trivia_end(s, i + 2, 2)
    } else {
        Some(i)
    }
}

/// Where the unclosed block comment that stops the blanks and comments at `i` opens
/// (`open` is the latest opening seen); `-1` when they end normally.
pub open spec fn unclosed_comment_at(s: Seq<char>, i: int, mode: nat, open: int) -> int
    decreases s.len() - i,
{
    if i < 0 {
        -1
    } else if i >= s.len() {
        if mode == 2 {
            open
        } else {
            -1
        }
    } else if mode == 1 {
        if s[i] == '\n' {
            -1
        } else {
            unclosed_comment_at(s, i + 1, 1, open)
        }
    } else if mode == 2 {
        if s[i] == '*' && i + 1 < s.len() && s[i + 1] == '/' {
            unclosed_comment_at(s, i + 2, 0, open)
        } else {
            unclosed_comment_at(s, i + 1, 2, open)
        }
    } else if is_blank(s[i]) {
        unclosed_comment_at(s, i + 1, 0, open)
    } else if s[i] == '/' && i + 1 < s.len() && s[i + 1] == '/' {
        unclosed_comment_at(s, i + 2, 1, open)
    } else if s[i] == '/' && i + 1 < s.len() && s[i + 1] == '*' {
        unclosed_comment_at(s, i + 2, 2, i)
    } else {
        -1
    }
}

proof fn lemma_open_irrelevant(s: Seq<char>, i: int, mode: nat, a: int, b: int)
    requires
        mode == 0 || mode == 1,
    ensures
        unclosed_comment_at(s, i, mode, a) == unclosed_comment_at(s, i, mode, b),
    decreases s.len() - i,
{
    if 0 <= i < s.len() {
        if mode == 1 {
            if s[i] != '\n' {
                lemma_open_irrelevant(s, i + 1, 1, a, b);
            }
        } else if is_blank(s[i]) {
            lemma_open_irrelevant(s, i + 1, 0, a, b);
        } else if s[i] == '/' && i + 1 < s.len() && s[i + 1] == '/' {
            lemma_open_irrelevant(s, i + 2, 1, a, b);
        }
    }
}

fn is_blank_char(c: char) -> (r: bool)
    ensures
        r == is_blank(c),
{
    c == ' ' || c == '\t' || c == '\r'
}

/// A diagnostic text made of a fixed message.
fn message(s: &str) -> (r: String)
    ensures
        r@ == s@,
{
    let mut v: Vec<char> = Vec::new();
    push_str(&mut v, s);
    assert(v@ =~= s@);
    string_of(&v)
}


/// The character that the escape `\c` stands for.
pub open spec fn escape_value(c: char) -> char {
    if c == 'n' {
        '\n'
    } else if c == 't' {
        '\t'
    } else if c == 'r' {
        '\r'
    } else if c == '0' {
        '\0'
    } else if c == 'a' {
        '\x07'
    } else if c == 'b' {
        '\x08'
    } else if c == 'f' {
        '\x0C'
    } else if c == 'v' {
        '\x0B'
    } else {
        c
    }
}

pub open spec fn prepend(c: char, r: Option<(Seq<char>, int)>) -> Option<(Seq<char>, int)> {
    match r {
        Some((v, e)) => Some((seq![c] + v, e)),
        None => None,
    }
}

/// The decoded body of an interpreted string whose body starts at `i`, and the
/// index just past its closing quote; `None` when no quote closes it on this line.
pub open spec fn interpreted_body(s: Seq<char>, i: int) -> Option<(Seq<char>, int)>
    decreases s.len() - i,
{
    if i < 0 || i >= s.len() || s[i] == '\n' {
        None
    } else if s[i] == '"' {
        Some((Seq::empty(), i + 1))
    } else if s[i] == '\\' {
        if i + 1 >= s.len() {
            None
        } else {
            prepend(escape_value(s[i + 1]), interpreted_body(s, i + 2))
        }
    } else {
        prepend(s[i], interpreted_body(s, i + 1))
    }
}

/// The body of a raw string whose body starts at `i`, and the index past its closing backtick.
pub open spec fn raw_body(s: Seq<char>, i: int) -> Option<(Seq<char>, int)>
    decreases s.len() - i,
{
    if i < 0 || i >= s.len() {
        None
    } else if s[i] == '`' {
        Some((Seq::empty(), i + 1))
    } else {
        prepend(s[i], raw_body(s, i + 1))
    }
}

/// The character of a rune literal whose body starts at `i`, and the index past its closing quote.
pub open spec fn rune_body(s: Seq<char>, i: int) -> Option<(char, int)> {
    if i < 0 || i >= s.len() {
        None
    } else if s[i] == '\\' {
        if i + 2 < s.len() && s[i + 2] == '\'' {
            Some((escape_value(s[i + 1]), i + 3))
        } else {
            None
        }
    } else if i + 1 < s.len() && s[i + 1] == '\'' {
        Some((s[i], i + 2))
    } else {
        None
    }
}

/// `s` with every `_` removed.
pub open spec fn strip_underscores(s: Seq<char>) -> Seq<char>
    decreases s.len(),
{
    if s.len() == 0 {
        s
    } else if s.last() == '_' {
        strip_underscores(s.drop_last())
    } else {
        strip_underscores(s.drop_last()).push(s.last())
    }
}

pub open spec fn digit_value(c: char) -> nat {
    if '0' <= c <= '9' {
        (c as u32 - '0' as u32) as nat
    } else if 'a' <= c <= 'f' {
        (c as u32 - 'a' as u32 + 10) as nat
    } else if 'A' <= c <= 'F' {
        (c as u32 - 'A' as u32 + 10) as nat
    } else {
        0
    }
}

/// The value of a digit string in the given radix.
pub open spec fn digits_value(s: Seq<char>, radix: nat) -> nat
    decreases s.len(),
{
    if s.len() == 0 {
        0
    } else {
        digits_value(s.drop_last(), radix) * radix + digit_value(s.last())
    }
}

/// The value of an integer written with digits `d` (underscores allowed) in `radix`,
/// when there is at least one digit and the value fits in `i64`.
pub open spec fn int_value(d: Seq<char>, radix: nat) -> Option<int> {
    let clean = strip_underscores(d);
    if clean.len() > 0 && digits_value(clean, radix) <= i64::MAX {
        Some(digits_value(clean, radix) as int)
    } else {
        None
    }
}

/// The value of an integer literal's text: a `0x`, `0b` or `0o` prefix (either case)
/// selects the radix, else it is decimal.
pub open spec fn int_literal(raw: Seq<char>) -> Option<int> {
    if raw.len() >= 2 && raw[0] == '0' && (raw[1] == 'x' || raw[1] == 'X') {
        int_value(raw.skip(2), 16)
    } else if raw.len() >= 2 && raw[0] == '0' && (raw[1] == 'b' || raw[1] == 'B') {
        int_value(raw.skip(2), 2)
    } else if raw.len() >= 2 && raw[0] == '0' && (raw[1] == 'o' || raw[1] == 'O') {
        int_value(raw.skip(2), 8)
    } else {
        int_value(raw, 10)
    }
}

pub open spec fn is_digit_of(c: char, radix: nat) -> bool {
    ('0' <= c <= '9' && digit_value(c) < radix) || (radix == 16 && (('a' <= c <= 'f') || ('A'
        <= c <= 'F'))) || c == '_'
}

proof fn lemma_value_grows(v: nat, radix: nat, d: nat)
    requires
        radix >= 1,
    ensures
        v * radix + d >= v,
{
    assert(v * radix >= v) by (nonlinear_arith)
        requires
            radix >= 1,
    ;
}

/// Reads the digits `v[from..]` (underscores skipped) in `radix`; `None` when there are
/// no digits or the value does not fit in `i64`.
pub fn parse_digits(v: &Vec<char>, from: usize, radix: u32) -> (r: Option<i64>)
    requires
        from <= v@.len(),
        radix == 2 || radix == 8 || radix == 10 || radix == 16,
        forall|i: int| from <= i < v@.len() ==> is_digit_of(#[trigger] v@[i], radix as nat),
    ensures
        r matches Some(n) ==> int_value(v@.skip(from as int), radix as nat) == Some(n as int),
        r is None ==> int_value(v@.skip(from as int), radix as nat) is None,
{
    let max: u64 = 0x7FFF_FFFF_FFFF_FFFF;
    let mut acc: u64 = 0;
    let mut overflow = false;
    let mut any = false;
    let mut i: usize = from;
    while i < v.len()
        invariant
            from <= i <= v@.len(),
            radix == 2 || radix == 8 || radix == 10 || radix == 16,
            forall|j: int| from <= j < v@.len() ==> is_digit_of(#[trigger] v@[j], radix as nat),
            max == i64::MAX,
            any == (strip_underscores(v@.subrange(from as int, i as int)).len() > 0),
            !overflow ==> acc == digits_value(strip_underscores(v@.subrange(from as int, i as int)), radix as nat),
            !overflow ==> acc <= max,
            overflow ==> digits_value(strip_underscores(v@.subrange(from as int, i as int)), radix as nat) > max,
        decreases v@.len() - i,
    {
        let c = v[i];
        let ghost prev = v@.subrange(from as int, i as int);
        let ghost next = v@.subrange(from as int, i + 1);
        assert(next.drop_last() =~= prev);
        assert(next.last() == c);
        if c != '_' {
            let d = digit_val(c) as u64;
            assert(d < radix);
            let ghost old_val = digits_value(strip_underscores(prev), radix as nat);
            assert(next.last() == c);
            assert(strip_underscores(next) == strip_underscores(prev).push(c));
            assert(strip_underscores(prev).push(c).drop_last() =~= strip_underscores(prev));
            assert(digits_value(strip_underscores(next), radix as nat) == old_val * radix + d);
            if overflow {
                proof { lemma_value_grows(old_val, radix as nat, d as nat); }
            } else if acc > (max - d) / (radix as u64) {
                overflow = true;
                let ghost q = (max - d) as int / radix as int;
                assert(acc * radix + d > max) by (nonlinear_arith)
                    requires
                        acc > q,
                        q == (max - d) as int / radix as int,
                        radix >= 2,
                        d < radix,
                ;
            } else {
                let ghost q = (max - d) as int / radix as int;
                assert(acc * radix + d <= max) by (nonlinear_arith)
                    requires
                        acc <= q,
                        q == (max - d) as int / radix as int,
                        radix >= 2,
                        d <= max,
                ;
                acc = acc * (radix as u64) + d;
            }
            any = true;
        }
        i += 1;
    }
    assert(v@.subrange(from as int, v@.len() as int) =~= v@.skip(from as int));
    if !any || overflow {
        None
    } else {
        Some(acc as i64)
    }
}

fn digit_val(c: char) -> (r: u32)
    requires
        ('0' <= c <= '9') || ('a' <= c <= 'f') || ('A' <= c <= 'F'),
    ensures
        r == digit_value(c),
        r < 16,
{
    if '0' <= c && c <= '9' {
        (c as u32) - ('0' as u32)
    } else if 'a' <= c && c <= 'f' {
        (c as u32) - ('a' as u32) + 10
    } else {
        (c as u32) - ('A' as u32) + 10
    }
}


impl Lexer {
    /// Decodes the escape whose backslash has just been consumed.
    fn unescape(&mut self, sp: &Span, unterminated: &str) -> (r: Result<char, tsukiError>)
        requires
            old(self).wf(),
        ensures
            final(self).wf(),
            final(self).same_input(old(self)),
            old(self).pos < old(self).chars@.len() ==> r == Ok::<char, tsukiError>(
                escape_value(old(self).chars@[old(self).pos as int]),
            ) && final(self).pos == old(self).pos + 1,
            old(self).pos == old(self).chars@.len() ==> r is Err,
            final(self).pos >= old(self).pos,
            r matches Err(e) ==> e is Lex && e->Lex_span.file@ == sp.file@ && e->Lex_span.line == sp.line
                && e->Lex_span.col == sp.col && e->Lex_span.offset == sp.offset && e->Lex_msg@ == unterminated@,
    {
        match self.advance() {
            Some(c) => Ok(escape_char(c)),
            None => Err(tsukiError::lex(sp.duplicate(), message(unterminated))),
        }
    }

    /// Scans an interpreted string literal whose opening quote is the next character.
    fn lex_interpreted_string(&mut self, sp: Span) -> (r: Result<Token, tsukiError>)
        requires
            old(self).wf(),
            old(self).pos < old(self).chars@.len(),
            is_span_at(sp, old(self).file@, old(self).chars@, old(self).pos as int),
        ensures
            final(self).wf(),
            final(self).same_input(old(self)),
            final(self).pos > old(self).pos,
            r is Ok <==> interpreted_body(old(self).chars@, old(self).pos + 1) is Some,
            r matches Ok(t) ==> interpreted_body(old(self).chars@, old(self).pos + 1) matches Some((v, e))
                && t.kind is LitString && t.kind->LitString_0@ == v && final(self).pos == e
                && t.raw@ == old(self).chars@.subrange(old(self).pos as int, e),
            r matches Ok(t) ==> is_span_at(t.span, old(self).file@, old(self).chars@, old(self).pos as int),
            r matches Err(e) ==> e is Lex && is_span_at(e->Lex_span, old(self).file@, old(self).chars@, old(self).pos as int),
            r matches Err(e) ==> e->Lex_msg@ == "unterminated interpreted string literal"@,
    {
        let start_pos = self.pos;
        let ghost s = self.chars@;
        let ghost start = self.pos + 1;
        self.advance();
        let mut value: Vec<char> = Vec::new();
        loop
            invariant
                self.wf(),
                self.same_input(old(self)),
                s == self.chars@,
                start_pos == old(self).pos,
                start == old(self).pos + 1,
                start <= self.pos,
                is_span_at(sp, old(self).file@, old(self).chars@, old(self).pos as int),
                interpreted_body(s, start) == match interpreted_body(s, self.pos as int) {
                    Some((v, e)) => Some((value@ + v, e)),
                    None => None::<(Seq<char>, int)>,
                },
            decreases self.chars@.len() - self.pos,
        {
            let ghost here = self.pos as int;
            match self.peek() {
                None => {
                    return Err(tsukiError::lex(sp, message("unterminated interpreted string literal")));
                },
                Some(c) => {
                    if c == '\n' {
                        return Err(tsukiError::lex(sp, message("unterminated interpreted string literal")));
                    } else if c == '"' {
                        self.advance();
                        assert(value@ + Seq::<char>::empty() =~= value@);
                        let raw = slice_of(&self.chars, start_pos, self.pos);
                        let text = string_of(&value);
                        return Ok(Token::new(TokenKind::LitString(text), sp, string_of(&raw)));
                    } else if c == '\\' {
                        self.advance();
                        let e = self.unescape(&sp, "unterminated interpreted string literal");
                        match e {
                            Ok(ch) => {
                                proof {
                                    match interpreted_body(s, here + 2) {
                                        Some((v, e)) => {
                                            assert(value@ + (seq![ch] + v) =~= value@.push(ch) + v);
                                        },
                                        None => {},
                                    }
                                }
                                value.push(ch);
                            },
                            Err(err) => {
                                return Err(err);
                            },
                        }
                    } else {
                        self.advance();
                        proof {
                            match interpreted_body(s, here + 1) {
                                Some((v, e)) => {
                                    assert(value@ + (seq![c] + v) =~= value@.push(c) + v);
                                },
                                None => {},
                            }
                        }
                        value.push(c);
                    }
                },
            }
        }
    }

    /// Scans a raw string literal whose opening backtick is the next character.
    fn lex_raw_string(&mut self, sp: Span) -> (r: Result<Token, tsukiError>)
        requires
            old(self).wf(),
            old(self).pos < old(self).chars@.len(),
            is_span_at(sp, old(self).file@, old(self).chars@, old(self).pos as int),
        ensures
            final(self).wf(),
            final(self).same_input(old(self)),
            final(self).pos > old(self).pos,
            r is Ok <==> raw_body(old(self).chars@, old(self).pos + 1) is Some,
            r matches Ok(t) ==> raw_body(old(self).chars@, old(self).pos + 1) matches Some((v, e))
                && t.kind is LitString && t.kind->LitString_0@ == v && final(self).pos == e
                && t.raw@ == old(self).chars@.subrange(old(self).pos as int, e),
            r matches Ok(t) ==> is_span_at(t.span, old(self).file@, old(self).chars@, old(self).pos as int),
            r matches Err(e) ==> e is Lex && is_span_at(e->Lex_span, old(self).file@, old(self).chars@, old(self).pos as int),
            r matches Err(e) ==> e->Lex_msg@ == "unterminated raw string literal"@,
    {
        let start_pos = self.pos;
        let ghost s = self.chars@;
        let ghost start = self.pos + 1;
        self.advance();
        let mut value: Vec<char> = Vec::new();
        loop
            invariant
                self.wf(),
                self.same_input(old(self)),
                s == self.chars@,
                start_pos == old(self).pos,
                start == old(self).pos + 1,
                start <= self.pos,
                is_span_at(sp, old(self).file@, old(self).chars@, old(self).pos as int),
                raw_body(s, start) == match raw_body(s, self.pos as int) {
                    Some((v, e)) => Some((value@ + v, e)),
                    None => None::<(Seq<char>, int)>,
                },
            decreases self.chars@.len() - self.pos,
        {
            let ghost here = self.pos as int;
            match self.peek() {
                None => {
                    return Err(tsukiError::lex(sp, message("unterminated raw string literal")));
                },
                Some(c) => {
                    self.advance();
                    if c == '`' {
                        assert(value@ + Seq::<char>::empty() =~= value@);
                        let raw = slice_of(&self.chars, start_pos, self.pos);
                        let text = string_of(&value);
                        return Ok(Token::new(TokenKind::LitString(text), sp, string_of(&raw)));
                    }
                    proof {
                        match raw_body(s, here + 1) {
                            Some((v, e)) => {
                                assert(value@ + (seq![c] + v) =~= value@.push(c) + v);
                            },
                            None => {},
                        }
                    }
                    value.push(c);
                },
            }
        }
    }

    /// Scans a rune literal whose opening quote is the next character.
    fn lex_rune(&mut self, sp: Span) -> (r: Result<Token, tsukiError>)
        requires
            old(self).wf(),
            old(self).pos < old(self).chars@.len(),
            is_span_at(sp, old(self).file@, old(self).chars@, old(self).pos as int),
        ensures
            final(self).wf(),
            final(self).same_input(old(self)),
            final(self).pos > old(self).pos,
            r is Ok <==> rune_body(old(self).chars@, old(self).pos + 1) is Some,
            r matches Ok(t) ==> rune_body(old(self).chars@, old(self).pos + 1) matches Some((ch, e))
                && t.kind == TokenKind::LitRune(ch) && final(self).pos == e
                && t.raw@ == old(self).chars@.subrange(old(self).pos as int, e),
            r matches Ok(t) ==> is_span_at(t.span, old(self).file@, old(self).chars@, old(self).pos as int),
            r matches Err(e) ==> e is Lex && is_span_at(e->Lex_span, old(self).file@, old(self).chars@, old(self).pos as int),
            r matches Err(e) ==> e->Lex_msg@ == rune_error_text(old(self).chars@, old(self).pos as int),
    {
        let start_pos = self.pos;
        self.advance();
        let ch = match self.peek() {
            None => {
                return Err(tsukiError::lex(sp, message("empty rune literal")));
            },
            Some(c) => {
                if c == '\\' {
                    self.advance();
                    match self.unescape(&sp, "unterminated rune literal") {
                        Ok(e) => e,
                        Err(err) => {
                            return Err(err);
                        },
                    }
                } else {
                    self.advance();
                    c
                }
            },
        };
        match self.advance() {
            Some(c) => {
                if c != '\'' {
                    return Err(tsukiError::lex(sp, message("unterminated rune literal")));
                }
            },
            None => {
                return Err(tsukiError::lex(sp, message("unterminated rune literal")));
            },
        }
        let raw = slice_of(&self.chars, start_pos, self.pos);
        Ok(Token::new(TokenKind::LitRune(ch), sp, string_of(&raw)))
    }
}

fn escape_char(c: char) -> (r: char)
    ensures
        r == escape_value(c),
{
    if c == 'n' {
        '\n'
    } else if c == 't' {
        '\t'
    } else if c == 'r' {
        '\r'
    } else if c == '0' {
        '\0'
    } else if c == 'a' {
        '\x07'
    } else if c == 'b' {
        '\x08'
    } else if c == 'f' {
        '\x0C'
    } else if c == 'v' {
        '\x0B'
    } else {
        c
    }
}


/// The characters `v[a..b)`.
fn slice_of(v: &Vec<char>, a: usize, b: usize) -> (r: Vec<char>)
    requires
        a <= b <= v@.len(),
    ensures
        r@ == v@.subrange(a as int, b as int),
{
    let mut out: Vec<char> = Vec::new();
    let mut i: usize = a;
    while i < b
        invariant
            a <= i <= b,
            b <= v@.len(),
            out@ == v@.subrange(a as int, i as int),
        decreases b - i,
    {
        out.push(v[i]);
        i += 1;
        assert(out@ =~= v@.subrange(a as int, i as int));
    }
    out
}

/// `v` without its underscores.
fn strip(v: &Vec<char>) -> (r: Vec<char>)
    ensures
        r@ == strip_underscores(v@),
{
    let mut out: Vec<char> = Vec::new();
    let mut i: usize = 0;
    while i < v.len()
        invariant
            i <= v@.len(),
            out@ == strip_underscores(v@.subrange(0, i as int)),
        decreases v@.len() - i,
    {
        assert(v@.subrange(0, i + 1).drop_last() =~= v@.subrange(0, i as int));
        if v[i] != '_' {
            out.push(v[i]);
        }
        i += 1;
    }
    assert(v@.subrange(0, v@.len() as int) =~= v@);
    out
}

/// A diagnostic text `prefix`, the characters of `mid`, then `suffix`.
fn message_around(prefix: &str, mid: &Vec<char>, suffix: &str) -> (r: String)
    ensures
        r@ == prefix@ + mid@ + suffix@,
{
    let mut v: Vec<char> = Vec::new();
    push_str(&mut v, prefix);
    push_all(&mut v, mid);
    push_str(&mut v, suffix);
    assert(v@ =~= prefix@ + mid@ + suffix@);
    string_of(&v)
}

/// The decoded value of the string literal that starts at `o`, interpreted or raw.
pub open spec fn string_at(chars: Seq<char>, o: int) -> Option<Seq<char>> {
    if 0 <= o < chars.len() && chars[o] == '"' {
        match interpreted_body(chars, o + 1) {
            Some((w, _)) => Some(w),
            None => None,
        }
    } else if 0 <= o < chars.len() && chars[o] == '`' {
        match raw_body(chars, o + 1) {
            Some((w, _)) => Some(w),
            None => None,
        }
    } else {
        None
    }
}

/// The character of the rune literal that starts at `o`.
pub open spec fn rune_at(chars: Seq<char>, o: int) -> Option<char> {
    if 0 <= o < chars.len() && chars[o] == '\'' {
        match rune_body(chars, o + 1) {
            Some((c, _)) => Some(c),
            None => None,
        }
    } else {
        None
    }
}

/// Whether an operator of `n` characters is spelled at `q`.
pub open spec fn op_spelled(s: Seq<char>, q: int, n: nat) -> bool {
    exists|k: TokenKind|
        #[trigger] op_text(k).len() == n && spelled_by(op_text(k), s[q], char_at(s, q + 1), char_at(s, q + 2))
}

/// The length of the longest operator or punctuation mark at `q`; 0 when none starts there.
pub open spec fn longest_op(s: Seq<char>, q: int) -> nat {
    if op_spelled(s, q, 3) {
        3
    } else if op_spelled(s, q, 2) {
        2
    } else if op_spelled(s, q, 1) {
        1
    } else {
        0
    }
}

/// The message for a rune literal at `q` that does not close.
pub open spec fn rune_error_text(s: Seq<char>, q: int) -> Seq<char> {
    if q + 1 >= s.len() {
        "empty rune literal"@
    } else {
        "unterminated rune literal"@
    }
}

pub open spec fn radix_name(c: char) -> Seq<char> {
    if c == 'x' || c == 'X' {
        "invalid hex literal `"@
    } else if c == 'b' || c == 'B' {
        "invalid binary literal `"@
    } else {
        "invalid octal literal `"@
    }
}

/// Where a malformed floating-point literal's text ends: after its exponent marker,
/// sign and (missing) digits.
pub open spec fn float_error_end(s: Seq<char>, q: int) -> int {
    let e1 = run_end(s, q, CharClass::DecimalOrUnderscore);
    let e2 = if fraction_at(s, e1) {
        run_end(s, e1 + 1, CharClass::DecimalOrUnderscore)
    } else {
        e1
    };
    let e3 = if e2 + 1 < s.len() && (s[e2 + 1] == '+' || s[e2 + 1] == '-') {
        e2 + 2
    } else {
        e2 + 1
    };
    run_end(s, e3, CharClass::Decimal)
}

/// The message for a malformed number at `q`; it quotes the offending text.
pub open spec fn number_error_text(s: Seq<char>, q: int) -> Seq<char> {
    if has_radix_prefix(s, q) {
        let e = run_end(s, q + 2, radix_class(s[q + 1])->Some_0);
        radix_name(s[q + 1]) + s.subrange(q, run_end(s, e, CharClass::Word)) + "`"@
    } else if number_is_float(s, q) {
        "invalid float `"@ + s.subrange(q, float_error_end(s, q)) + "`"@
    } else {
        "invalid integer `"@ + s.subrange(q, run_end(s, q, CharClass::DecimalOrUnderscore)) + "`"@
    }
}

/// The message of the diagnostic for a lexeme at `q` that cannot be scanned.
pub open spec fn lex_error_text(s: Seq<char>, q: int) -> Seq<char> {
    if s[q] == '"' {
        "unterminated interpreted string literal"@
    } else if s[q] == '`' {
        "unterminated raw string literal"@
    } else if s[q] == '\'' {
        rune_error_text(s, q)
    } else if '0' <= s[q] <= '9' {
        number_error_text(s, q)
    } else {
        "unexpected character `"@ + seq![s[q]] + "`"@
    }
}

/// The end of the lexeme that starts at `q` (the end itself for the end of input);
/// `None` when no token can start there.
pub open spec fn lexeme_end(s: Seq<char>, q: int) -> Option<int> {
    if q < 0 || q > s.len() {
        None
    } else if q == s.len() {
        Some(q)
    } else if s[q] == '\n' {
        Some(q + 1)
    } else if s[q] == '"' {
        match interpreted_body(s, q + 1) {
            Some((_, e)) => Some(e),
            None => None,
        }
    } else if s[q] == '`' {
        match raw_body(s, q + 1) {
            Some((_, e)) => Some(e),
            None => None,
        }
    } else if s[q] == '\'' {
        match rune_body(s, q + 1) {
            Some((_, e)) => Some(e),
            None => None,
        }
    } else if '0' <= s[q] <= '9' {
        number_end(s, q)
    } else if word_start(s[q]) {
        Some(run_end(s, q + 1, CharClass::Word))
    } else if longest_op(s, q) > 0 {
        Some(q + longest_op(s, q))
    } else {
        None
    }
}

/// The start and end of the token that the scanner finds from `i`: blanks and comments
/// are skipped, then the longest lexeme is taken.
pub open spec fn scan(s: Seq<char>, i: int) -> Option<(int, int)> {
    match trivia_end(s, i, 0) {
        None => None,
        Some(q) => match lexeme_end(s, q) {
            Some(e) => Some((q, e)),
            None => None,
        },
    }
}

/// The bounds of the tokens that the text yields from `i` on, ending with the end of
/// input; `None` when some token is malformed.
pub open spec fn token_bounds(s: Seq<char>, i: int) -> Option<Seq<(int, int)>>
    decreases s.len() - i,
{
    match scan(s, i) {
        None => None,
        Some((q, e)) => if q >= s.len() {
            Some(seq![(q, e)])
        } else if !(i < e <= s.len()) {
            None
        } else {
            match token_bounds(s, e) {
                Some(rest) => Some(seq![(q, e)] + rest),
                None => None,
            }
        },
    }
}

/// Where the diagnostic for the first failure from `i` on points: the start of the
/// malformed token, or the opening of an unclosed block comment; `-1` when there is none.
pub open spec fn error_start(s: Seq<char>, i: int) -> int
    decreases s.len() - i,
{
    match scan(s, i) {
        None => match trivia_end(s, i, 0) {
            Some(q) => q,
            None => unclosed_comment_at(s, i, 0, -1),
        },
        Some((q, e)) => if q >= s.len() || !(i < e <= s.len()) {
            -1
        } else {
            error_start(s, e)
        },
    }
}

/// The message of the diagnostic for the first failure from `i` on.
pub open spec fn error_text(s: Seq<char>, i: int) -> Seq<char>
    decreases s.len() - i,
{
    match scan(s, i) {
        None => match trivia_end(s, i, 0) {
            Some(q) => lex_error_text(s, q),
            None => "unterminated block comment `/* ... */`"@,
        },
        Some((q, e)) => if q >= s.len() || !(i < e <= s.len()) {
            Seq::empty()
        } else {
            error_text(s, e)
        },
    }
}

/// The text lexes without error.
pub open spec fn lexes(s: Seq<char>) -> bool {
    token_bounds(s, 0) is Some
}

/// `raw` stands in `chars` at offset `o`.
pub open spec fn text_at(chars: Seq<char>, o: int, raw: Seq<char>) -> bool {
    0 <= o && o + raw.len() <= chars.len() && chars.subrange(o, o + raw.len()) == raw
}

/// What a token that starts at character `o` says agrees with the source text there. The character there
/// decides the kind: the end of the text gives `EOF`, a line break `Newline`, a double
/// quote or backtick `LitString`, a single quote `LitRune`, a digit `LitFloat` or
/// `LitInt` as `number_is_float` says, a word start a keyword or `Ident`, and anything
/// else the operator spelled by the token's text. Literal payloads are the values the
/// text denotes.
pub open spec fn token_sound(t: Token, chars: Seq<char>, o: int) -> bool {
    if o == chars.len() {
        t.kind is EOF
    } else if !(0 <= o < chars.len()) {
        false
    } else if chars[o] == '\n' {
        t.kind is Newline
    } else if chars[o] == '"' || chars[o] == '`' {
        t.kind is LitString && string_at(chars, o) == Some(t.kind->LitString_0@)
    } else if chars[o] == '\'' {
        t.kind is LitRune && rune_at(chars, o) == Some(t.kind->LitRune_0)
    } else if '0' <= chars[o] <= '9' {
        text_at(chars, o, t.raw@) && if number_is_float(chars, o) {
            t.kind is LitFloat && t.kind->LitFloat_0@ == strip_underscores(t.raw@)
        } else {
            t.kind is LitInt && int_literal(t.raw@) == Some(t.kind->LitInt_0 as int)
        }
    } else if word_start(chars[o]) {
        text_at(chars, o, t.raw@) && match keyword_of(t.raw@) {
            Some(k) => t.kind == k,
            None => t.kind is Ident && t.kind->Ident_0@ == t.raw@,
        }
    } else {
        text_at(chars, o, t.raw@) && op_text(t.kind).len() > 0 && t.raw@ == op_text(t.kind)
    }
}

/// A well-formed token stream over the bounds `bs` (start and end character of each
/// token): one token per pair, each with the span of its start, agreeing with the text
/// there and holding the text between the two as its raw text; tokens in strictly
/// increasing order, and exactly one end-of-input token, last, at the end of the text.
pub open spec fn stream_wf(ts: Seq<Token>, bs: Seq<(int, int)>, file: Seq<char>, chars: Seq<char>) -> bool {
    &&& ts.len() >= 1
    &&& ts.len() == bs.len()
    &&& ts.last().kind is EOF
    &&& bs.last().0 == chars.len()
    &&& forall|i: int| 0 <= i < ts.len() - 1 ==> !(#[trigger] ts[i].kind is EOF)
    &&& forall|k: int|
        0 <= k < ts.len() ==> is_span_at(#[trigger] ts[k].span, file, chars, bs[k].0) && token_sound(
            ts[k],
            chars,
            bs[k].0,
        ) && ts[k].raw@ == chars.subrange(bs[k].0, bs[k].1)
    &&& forall|k: int| 0 <= k < bs.len() - 1 ==> #[trigger] bs[k].0 < bs[k + 1].0
}

/// The start of the token that `scan` finds from `i`.
pub open spec fn scan_start(s: Seq<char>, i: int) -> int {
    match scan(s, i) {
        Some((q, _)) => q,
        None => -1,
    }
}

/// The end of the token that `scan` finds from `i`.
pub open spec fn scan_end(s: Seq<char>, i: int) -> int {
    match scan(s, i) {
        Some((_, e)) => e,
        None => -1,
    }
}

impl Lexer {
    /// Scans an integer with a radix prefix; the `0` is consumed and the prefix letter is next.
    fn lex_radix(&mut self, sp: Span, start: usize, cls: CharClass, radix: u32, name: &str) -> (r: Result<Token, tsukiError>)
        requires
            old(self).wf(),
            start + 1 == old(self).pos < old(self).chars@.len(),
            old(self).chars@[start as int] == '0',
            radix == 16 ==> cls == CharClass::HexOrUnderscore && (old(self).chars@[old(self).pos as int] == 'x' || old(self).chars@[old(self).pos as int] == 'X'),
            radix == 2 ==> cls == CharClass::BinaryOrUnderscore && (old(self).chars@[old(self).pos as int] == 'b' || old(self).chars@[old(self).pos as int] == 'B'),
            radix == 8 ==> cls == CharClass::OctalOrUnderscore && (old(self).chars@[old(self).pos as int] == 'o' || old(self).chars@[old(self).pos as int] == 'O'),
            radix == 2 || radix == 8 || radix == 16,
            is_span_at(sp, old(self).file@, old(self).chars@, start as int),
            name@ == radix_name(old(self).chars@[old(self).pos as int]),
        ensures
            final(self).wf(),
            final(self).same_input(old(self)),
            final(self).pos > old(self).pos,
            r matches Ok(t) ==> t.raw@ == old(self).chars@.subrange(start as int, final(self).pos as int)
                && is_span_at(t.span, old(self).file@, old(self).chars@, start as int)
                && t.kind is LitInt && int_literal(t.raw@) == Some(t.kind->LitInt_0 as int),
            r matches Err(e) ==> e is Lex && is_span_at(e->Lex_span, old(self).file@, old(self).chars@, start as int),
            r matches Err(e) ==> e->Lex_msg@ == name@ + old(self).chars@.subrange(
                start as int,
                run_end(old(self).chars@, final(self).pos as int, CharClass::Word),
            ) + "`"@,
            final(self).pos == run_end(old(self).chars@, start + 2, cls),
            r is Ok <==> int_literal(old(self).chars@.subrange(start as int, final(self).pos as int)) is Some,
    {
        self.advance();
        let run = self.eat_while(cls);
        let raw = slice_of(&self.chars, start, self.pos);
        proof {
            assert forall|i: int| 2 <= i < raw@.len() implies is_digit_of(#[trigger] raw@[i], radix as nat) by {
                assert(raw@[i] == self.chars@[start + i]);
                assert(in_class(self.chars@[start + i], cls));
            }
            assert(raw@.skip(2) =~= raw@.subrange(2, raw@.len() as int));
        }
        match parse_digits(&raw, 2, radix) {
            Some(n) => Ok(Token::new(TokenKind::LitInt(n), sp, string_of(&raw))),
            None => {
                let shown = self.word_ahead(start);
                Err(tsukiError::lex(sp, message_around(name, &shown, "`")))
            },
        }
    }

    /// The text from `start` to the end of the word that runs on from the current
    /// position, without consuming it: the whole offending literal for a diagnostic.
    fn word_ahead(&self, start: usize) -> (r: Vec<char>)
        requires
            self.wf(),
            start <= self.pos,
        ensures
            r@ == self.chars@.subrange(start as int, run_end(self.chars@, self.pos as int, CharClass::Word)),
    {
        let mut end = self.pos;
        while end < self.chars.len() && class_has(self.chars[end], CharClass::Word)
            invariant
                self.pos <= end <= self.chars@.len(),
                forall|k: int| self.pos <= k < end ==> in_class(#[trigger] self.chars@[k], CharClass::Word),
            decreases self.chars@.len() - end,
        {
            end += 1;
        }
        proof {
            lemma_run_end(self.chars@, self.pos as int, end as int, CharClass::Word);
        }
        slice_of(&self.chars, start, end)
    }

    /// Scans a numeric literal whose first digit is the next character.
    #[verifier::rlimit(80)]
    fn lex_number(&mut self, sp: Span) -> (r: Result<Token, tsukiError>)
        requires
            old(self).wf(),
            old(self).pos < old(self).chars@.len(),
            '0' <= old(self).chars@[old(self).pos as int] <= '9',
            is_span_at(sp, old(self).file@, old(self).chars@, old(self).pos as int),
        ensures
            final(self).wf(),
            final(self).same_input(old(self)),
            final(self).pos > old(self).pos,
            r matches Ok(t) ==> t.raw@ == old(self).chars@.subrange(old(self).pos as int, final(self).pos as int)
                && is_span_at(t.span, old(self).file@, old(self).chars@, old(self).pos as int),
            r matches Ok(t) ==> (t.kind is LitInt && int_literal(t.raw@) == Some(t.kind->LitInt_0 as int))
                || (t.kind is LitFloat && t.kind->LitFloat_0@ == strip_underscores(t.raw@)),
            r matches Ok(t) ==> (t.kind is LitFloat <==> number_is_float(old(self).chars@, old(self).pos as int)),
            r is Ok <==> number_end(old(self).chars@, old(self).pos as int) is Some,
            r is Ok ==> final(self).pos == number_end(old(self).chars@, old(self).pos as int)->Some_0,
            r matches Err(e) ==> e is Lex && is_span_at(e->Lex_span, old(self).file@, old(self).chars@, old(self).pos as int),
            r matches Err(e) ==> e->Lex_msg@ == number_error_text(old(self).chars@, old(self).pos as int),
    {
        let start = self.pos;
        if self.chars[self.pos] == '0' {
            self.advance();
            match self.peek() {
                Some(c) => {
                    if c == 'x' || c == 'X' {
                        return self.lex_radix(sp, start, CharClass::HexOrUnderscore, 16, "invalid hex literal `");
                    } else if c == 'b' || c == 'B' {
                        return self.lex_radix(sp, start, CharClass::BinaryOrUnderscore, 2, "invalid binary literal `");
                    } else if c == 'o' || c == 'O' {
                        return self.lex_radix(sp, start, CharClass::OctalOrUnderscore, 8, "invalid octal literal `");
                    }
                },
                None => {},
            }
        }
        let ghost run_start = self.pos as int;
        self.eat_while(CharClass::DecimalOrUnderscore);
        let ghost run_end = self.pos as int;
        let is_float = match (self.peek(), self.peek2()) {
            (Some('.'), Some(d)) => '0' <= d && d <= '9',
            _ => false,
        };
        let has_exp = !is_float && (self.peek() == Some('e') || self.peek() == Some('E'));
        if is_float || has_exp {
            if is_float {
                self.advance();
                self.eat_while(CharClass::DecimalOrUnderscore);
            }
            let mut exp_ok = true;
            if self.peek() == Some('e') || self.peek() == Some('E') {
                self.advance();
                if self.peek() == Some('+') || self.peek() == Some('-') {
                    self.advance();
                }
                let digits = self.eat_while(CharClass::Decimal);
                exp_ok = digits.len() > 0;
            }
            let raw = slice_of(&self.chars, start, self.pos);
            if !exp_ok {
                return Err(tsukiError::lex(sp, message_around("invalid float `", &raw, "`")));
            }
            let clean = strip(&raw);
            return Ok(Token::new(TokenKind::LitFloat(string_of(&clean)), sp, string_of(&raw)));
        }
        let raw = slice_of(&self.chars, start, self.pos);
        proof {
            assert forall|i: int| 0 <= i < raw@.len() implies is_digit_of(#[trigger] raw@[i], 10) by {
                assert(raw@[i] == self.chars@[start + i]);
                if start + i >= run_start {
                    assert(in_class(self.chars@[start + i], CharClass::DecimalOrUnderscore));
                }
            }
            if raw@.len() >= 2 {
                assert(raw@[1] == self.chars@[start + 1]);
                assert(in_class(self.chars@[start + 1], CharClass::DecimalOrUnderscore));
            }
            assert(raw@.skip(0) =~= raw@);
        }
        match parse_digits(&raw, 0, 10) {
            Some(n) => Ok(Token::new(TokenKind::LitInt(n), sp, string_of(&raw))),
            None => Err(tsukiError::lex(sp, message_around("invalid integer `", &raw, "`"))),
        }
    }
}


impl Lexer {
    /// Scans an identifier or keyword whose first character (a letter or `_`) is next.
    fn lex_ident(&mut self, sp: Span) -> (r: Token)
        requires
            old(self).wf(),
            old(self).pos < old(self).chars@.len(),
            is_span_at(sp, old(self).file@, old(self).chars@, old(self).pos as int),
        ensures
            final(self).wf(),
            final(self).same_input(old(self)),
            final(self).pos > old(self).pos,
            r.raw@ == old(self).chars@.subrange(old(self).pos as int, final(self).pos as int),
            is_span_at(r.span, old(self).file@, old(self).chars@, old(self).pos as int),
            keyword_of(r.raw@) matches Some(k) ==> r.kind == k,
            keyword_of(r.raw@) is None ==> r.kind is Ident && r.kind->Ident_0@ == r.raw@,
            forall|i: int| old(self).pos < i < final(self).pos ==> in_class(#[trigger] old(self).chars@[i], CharClass::Word),
            final(self).pos == old(self).chars@.len() || !in_class(old(self).chars@[final(self).pos as int], CharClass::Word),
            final(self).pos == run_end(old(self).chars@, old(self).pos + 1, CharClass::Word),
    {
        let start = self.pos;
        self.advance();
        self.eat_while(CharClass::Word);
        let raw = slice_of(&self.chars, start, self.pos);
        let text = string_of(&raw);
        let kind = match keyword(text.as_str()) {
            Some(k) => k,
            None => TokenKind::Ident(string_of(&raw)),
        };
        Token::new(kind, sp, text)
    }

    /// Scans an operator or punctuation mark, taking the longest spelling that matches.
    fn lex_punct(&mut self, sp: Span) -> (r: Result<Token, tsukiError>)
        requires
            old(self).wf(),
            old(self).pos < old(self).chars@.len(),
            is_span_at(sp, old(self).file@, old(self).chars@, old(self).pos as int),
        ensures
            final(self).wf(),
            final(self).same_input(old(self)),
            final(self).pos > old(self).pos,
            r matches Ok(t) ==> is_span_at(t.span, old(self).file@, old(self).chars@, old(self).pos as int)
                && op_text(t.kind).len() > 0 && t.raw@ == op_text(t.kind)
                && final(self).pos == old(self).pos + op_text(t.kind).len()
                && old(self).chars@.subrange(old(self).pos as int, final(self).pos as int) == op_text(t.kind),
            r matches Ok(t) ==> forall|j: TokenKind| #[trigger] op_text(j).len() > 0 && op_text(j).len() <= old(self).chars@.len() - old(self).pos
                && old(self).chars@.subrange(old(self).pos as int, old(self).pos + op_text(j).len()) == op_text(j)
                ==> op_text(j).len() <= op_text(t.kind).len(),
            r is Err <==> forall|j: TokenKind| #[trigger] op_text(j).len() == 0 || old(self).chars@[old(self).pos as int] != op_text(j)[0],
            r matches Err(e) ==> e is Lex && is_span_at(e->Lex_span, old(self).file@, old(self).chars@, old(self).pos as int),
            r is Ok <==> longest_op(old(self).chars@, old(self).pos as int) > 0,
            r is Ok ==> final(self).pos == old(self).pos + longest_op(old(self).chars@, old(self).pos as int),
            r matches Err(e) ==> e->Lex_msg@ == "unexpected character `"@ + seq![old(self).chars@[old(self).pos as int]]
                + "`"@,
    {
        let start = self.pos;
        let c = self.chars[self.pos];
        let second = self.peek2();
        let third = self.peek3();
        let ghost s = self.chars@;
        match punct_kind(c, second, third) {
            Some((k, n)) => {
                let mut i: usize = 0;
                assert(start + n <= s.len());
                while i < n
                    invariant
                        start + n <= s.len(),
                        self.wf(),
                        self.same_input(old(self)),
                        s == self.chars@,
                        start == old(self).pos,
                        i <= n,
                        n == op_text(k).len(),
                        spelled_by(op_text(k), c, second, third),
                        c == s[start as int],
                        second == char_at(s, start + 1),
                        third == char_at(s, start + 2),
                        self.pos == start + i,
                    decreases n - i,
                {
                    self.advance();
                    i += 1;
                }
                let raw = slice_of(&self.chars, start, self.pos);
                proof {
                    assert(raw@ =~= op_text(k));
                    assert forall|j: TokenKind| #[trigger] op_text(j).len() > 0 && op_text(j).len() <= s.len() - start
                        && s.subrange(start as int, start + op_text(j).len()) == op_text(j)
                        implies op_text(j).len() <= op_text(k).len() by {
                        let t = op_text(j);
                        if t.len() <= 3 {
                            assert(t[0] == s.subrange(start as int, start + t.len())[0]);
                            if t.len() >= 2 {
                                assert(t[1] == s.subrange(start as int, start + t.len())[1]);
                            }
                            if t.len() >= 3 {
                                assert(t[2] == s.subrange(start as int, start + t.len())[2]);
                            }
                            assert(spelled_by(t, c, second, third));
                        }
                    }
                }
                proof {
                    assert(op_spelled(s, start as int, n as nat));
                    assert forall|m: nat| n < m <= 3 implies !op_spelled(s, start as int, m) by {
                        if op_spelled(s, start as int, m) {
                            let j = choose|j: TokenKind| #[trigger] op_text(j).len() == m && spelled_by(
                                op_text(j),
                                s[start as int],
                                char_at(s, start + 1),
                                char_at(s, start + 2),
                            );
                            assert(spelled_by(op_text(j), c, second, third));
                        }
                    }
                }
                Ok(Token::new(k, sp, string_of(&raw)))
            },
            None => {
                self.advance();
                let mut shown: Vec<char> = Vec::new();
                shown.push(c);
                proof {
                    assert forall|m: nat| m <= 3 implies !op_spelled(s, start as int, m) by {
                        if op_spelled(s, start as int, m) {
                            let j = choose|j: TokenKind| #[trigger] op_text(j).len() == m && spelled_by(
                                op_text(j),
                                s[start as int],
                                char_at(s, start + 1),
                                char_at(s, start + 2),
                            );
                            assert(op_text(j).len() == 0 || c != op_text(j)[0]);
                        }
                    }
                }
                Err(tsukiError::lex(sp, message_around("unexpected character `", &shown, "`")))
            },
        }
    }
}


impl Lexer {
    /// Scans the next token, skipping blanks and comments before it. A line break is a
    /// token of its own; at the end of the text the token is `EOF`.
    fn next(&mut self) -> (r: Result<Token, tsukiError>)
        requires
            old(self).wf(),
        ensures
            final(self).wf(),
            final(self).same_input(old(self)),
            old(self).pos <= final(self).pos,
            r matches Ok(t) ==> is_span_at(t.span, old(self).file@, old(self).chars@, scan_start(old(self).chars@, old(self).pos as int))
                && token_sound(t, old(self).chars@, scan_start(old(self).chars@, old(self).pos as int)),
            r matches Ok(t) ==> scan_end(old(self).chars@, old(self).pos as int) == final(self).pos
                && t.raw@ == old(self).chars@.subrange(scan_start(old(self).chars@, old(self).pos as int), final(self).pos as int),
            r matches Ok(t) ==> (t.kind is EOF <==> scan_start(old(self).chars@, old(self).pos as int) == old(self).chars@.len()),
            r matches Ok(t) ==> (t.kind is EOF ==> final(self).pos == old(self).chars@.len()),
            r matches Ok(t) ==> (!(t.kind is EOF) ==> old(self).pos <= scan_start(old(self).chars@, old(self).pos as int) < final(self).pos),
            r matches Err(e) ==> e is Lex,
            r is Ok <==> scan(old(self).chars@, old(self).pos as int) is Some,
            r matches Err(e) ==> (trivia_end(old(self).chars@, old(self).pos as int, 0) matches Some(q)
                ==> is_span_at(e->Lex_span, old(self).file@, old(self).chars@, q) && e->Lex_msg@ == lex_error_text(
                old(self).chars@,
                q,
            )),
            r matches Err(e) ==> (trivia_end(old(self).chars@, old(self).pos as int, 0) is None ==> is_span_at(
                e->Lex_span,
                old(self).file@,
                old(self).chars@,
                unclosed_comment_at(old(self).chars@, old(self).pos as int, 0, -1),
            ) && e->Lex_msg@ == "unterminated block comment `/* ... */`"@),
    {
        loop
            invariant
                self.wf(),
                self.same_input(old(self)),
                old(self).pos <= self.pos,
                trivia_end(old(self).chars@, old(self).pos as int, 0) == trivia_end(self.chars@, self.pos as int, 0),
                unclosed_comment_at(old(self).chars@, old(self).pos as int, 0, -1) == unclosed_comment_at(
                    self.chars@,
                    self.pos as int,
                    0,
                    -1,
                ),
            decreases self.chars@.len() - self.pos,
        {
            self.skip_horizontal_ws();
            let sp = self.span();
            let ghost here = self.pos as int;
            match self.peek() {
                None => {
                    let t = Token::new(TokenKind::EOF, sp, String::new());
                    assert(t.raw@ =~= self.chars@.subrange(self.pos as int, self.pos as int));
                    return Ok(t);
                },
                Some(c) => {
                    if c == '\n' {
                        self.advance();
                        proof {
                            reveal_strlit("\n");
                        }
                        let t = Token::new(TokenKind::Newline, sp, message("\n"));
                        assert(t.raw@ =~= self.chars@.subrange(here, self.pos as int));
                        return Ok(t);
                    } else if c == '/' && self.peek2() == Some('/') {
                        self.skip_line_comment();
                        assert(self.pos > here);
                    } else if c == '/' && self.peek2() == Some('*') {
                        match self.skip_block_comment() {
                            Ok(()) => {},
                            Err(e) => {
                                return Err(e);
                            },
                        }
                    } else if c == '"' {
                        let r = self.lex_interpreted_string(sp);
                        return r;
                    } else if c == '`' {
                        let r = self.lex_raw_string(sp);
                        return r;
                    } else if c == '\'' {
                        let r = self.lex_rune(sp);
                        return r;
                    } else if '0' <= c && c <= '9' {
                        let r = self.lex_number(sp);
                        return r;
                    } else if is_alpha(c) || c == '_' {
                        let t = self.lex_ident(sp);
                        return Ok(t);
                    } else {
                        let r = self.lex_punct(sp);
                        return r;
                    }
                },
            }
        }
    }

    /// Scans the whole text. The result ends with exactly one `EOF` token; the first
    /// malformed token stops the scan with a `Lex` diagnostic.
    #[verifier::rlimit(80)]
    pub fn tokenize(&mut self) -> (r: Result<Vec<Token>, tsukiError>)
        requires
            old(self).wf(),
        ensures
            final(self).wf(),
            final(self).text() == old(self).text(),
            final(self).file_name() == old(self).file_name(),
            r matches Err(e) ==> e is Lex,
            r is Ok <==> token_bounds(old(self).text(), old(self).position()) is Some,
            r matches Ok(ts) ==> stream_wf(
                ts@,
                token_bounds(old(self).text(), old(self).position())->Some_0,
                old(self).file_name(),
                old(self).text(),
            ),
            r matches Err(e) ==> is_span_at(
                e->Lex_span,
                old(self).file_name(),
                old(self).text(),
                error_start(old(self).text(), old(self).position()),
            ) && e->Lex_msg@ == error_text(old(self).text(), old(self).position()),
    {
        let mut out: Vec<Token> = Vec::new();
        let ghost s = self.chars@;
        let ghost f = self.file@;
        let ghost bs: Seq<(int, int)> = Seq::empty();
        let ghost p0 = self.pos as int;
        proof {
            match token_bounds(s, p0) {
                Some(r) => {
                    assert(bs + r =~= r);
                },
                None => {},
            }
        }
        loop
            invariant
                self.wf(),
                self.same_input(old(self)),
                s == self.chars@,
                f == self.file@,
                p0 == old(self).pos,
                error_start(s, p0) == error_start(s, self.pos as int),
                error_text(s, p0) == error_text(s, self.pos as int),
                token_bounds(s, p0) == match token_bounds(s, self.pos as int) {
                    Some(r) => Some(bs + r),
                    None => None::<Seq<(int, int)>>,
                },
                out@.len() == bs.len(),
                forall|i: int| 0 <= i < out@.len() ==> !(#[trigger] out@[i].kind is EOF),
                forall|k: int|
                    0 <= k < out@.len() ==> is_span_at(#[trigger] out@[k].span, f, s, bs[k].0) && token_sound(
                        out@[k],
                        s,
                        bs[k].0,
                    ) && out@[k].raw@ == s.subrange(bs[k].0, bs[k].1),
                forall|k: int| 0 <= k < bs.len() ==> #[trigger] bs[k].0 < self.pos,
                forall|k: int| 0 <= k < bs.len() - 1 ==> #[trigger] bs[k].0 < bs[k + 1].0,
            decreases self.chars@.len() - self.pos,
        {
            let ghost before = self.pos as int;
            let tok = match self.next() {
                Ok(t) => t,
                Err(e) => {
                    return Err(e);
                },
            };
            let done = tok.is_eof();
            let ghost prev = out@;
            let ghost pbs = bs;
            let ghost q = scan_start(s, before);
            let ghost e = self.pos as int;
            proof {
                if !done {
                    assert(q < s.len());
                    match token_bounds(s, e) {
                        Some(r) => {
                            assert(bs + (seq![(q, e)] + r) =~= bs.push((q, e)) + r);
                        },
                        None => {},
                    }
                } else {
                    assert(q >= s.len());
                    assert(token_bounds(s, before) == Some(seq![(q, e)]));
                    assert(bs + seq![(q, e)] =~= bs.push((q, e)));
                }
                bs = bs.push((q, e));
            }
            out.push(tok);
            proof {
                assert forall|k: int| 0 <= k < out@.len() implies is_span_at(#[trigger] out@[k].span, f, s, bs[k].0)
                    && token_sound(out@[k], s, bs[k].0) && out@[k].raw@ == s.subrange(bs[k].0, bs[k].1) by {
                    if k < prev.len() {
                        assert(out@[k] == prev[k] && bs[k] == pbs[k]);
                    }
                }
                assert forall|k: int| 0 <= k < bs.len() - 1 implies #[trigger] bs[k].0 < bs[k + 1].0 by {
                    if k < pbs.len() - 1 {
                        assert(bs[k] == pbs[k] && bs[k + 1] == pbs[k + 1]);
                    } else {
                        assert(bs[k] == pbs[k]);
                    }
                }
                assert forall|k: int| 0 <= k < bs.len() implies #[trigger] bs[k].0 < self.pos || done by {
                    if k < pbs.len() {
                        assert(bs[k] == pbs[k]);
                    }
                }
                assert forall|i: int| 0 <= i < out@.len() - 1 implies !(#[trigger] out@[i].kind is EOF) by {
                    assert(out@[i] == prev[i]);
                }
            }
            if done {
                assert(token_bounds(s, p0) == Some(bs));
                return Ok(out);
            }
        }
    }
}

} // verus!
