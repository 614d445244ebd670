//! Lexical analysis: turns source text into a sequence of tokens, tracking
//! line and column for diagnostics.
//!
//! The lexer walks the source characters once. Whitespace runs and line
//! comments become tokens of their own, but the public `tokenize` interface
//! filters them out, so downstream consumers never observe them.

use vstd::prelude::*;

use crate::char_utils;
use crate::text;

verus! {

/// The tag of a token. Keyword and punctuation variants carry no payload;
/// identifiers carry their text and integer literals their value.
#[derive(Debug, PartialEq)]
pub enum TokenType {
    Whitespace,
    Begin,
    End,
    Read,
    Write,
    Identifier { name: String },
    IntLiteral { value: i32 },
    LeftParen,
    RightParen,
    Semicolon,
    Comma,
    OpAssign,
    OpPlus,
    OpMinus,
    LineComment,
    Unknown,
    ScanEof,
}

/// The mathematical shape of a token tag: identifier text as a character
/// sequence, literal values as unbounded integers.
pub enum TokV {
    Whitespace,
    Begin,
    End,
    Read,
    Write,
    Identifier { name: Seq<char> },
    IntLiteral { value: int },
    LeftParen,
    RightParen,
    Semicolon,
    Comma,
    OpAssign,
    OpPlus,
    OpMinus,
    LineComment,
    Unknown,
    ScanEof,
}

impl View for TokenType {
    type V = TokV;

    open spec fn view(&self) -> TokV {
        match self {
            TokenType::Whitespace => TokV::Whitespace,
            TokenType::Begin => TokV::Begin,
            TokenType::End => TokV::End,
            TokenType::Read => TokV::Read,
            TokenType::Write => TokV::Write,
            TokenType::Identifier { name } => TokV::Identifier { name: name@ },
            TokenType::IntLiteral { value } => TokV::IntLiteral { value: *value as int },
            TokenType::LeftParen => TokV::LeftParen,
            TokenType::RightParen => TokV::RightParen,
            TokenType::Semicolon => TokV::Semicolon,
            TokenType::Comma => TokV::Comma,
            TokenType::OpAssign => TokV::OpAssign,
            TokenType::OpPlus => TokV::OpPlus,
            TokenType::OpMinus => TokV::OpMinus,
            TokenType::LineComment => TokV::LineComment,
            TokenType::Unknown => TokV::Unknown,
            TokenType::ScanEof => TokV::ScanEof,
        }
    }
}

impl Clone for TokenType {
    fn clone(&self) -> (r: Self)
        ensures
            r@ == self@,
    {
        match self {
            TokenType::Whitespace => TokenType::Whitespace,
            TokenType::Begin => TokenType::Begin,
            TokenType::End => TokenType::End,
            TokenType::Read => TokenType::Read,
            TokenType::Write => TokenType::Write,
            TokenType::Identifier { name } => TokenType::Identifier { name: name.clone() },
            TokenType::IntLiteral { value } => TokenType::IntLiteral { value: *value },
            TokenType::LeftParen => TokenType::LeftParen,
            TokenType::RightParen => TokenType::RightParen,
            TokenType::Semicolon => TokenType::Semicolon,
            TokenType::Comma => TokenType::Comma,
            TokenType::OpAssign => TokenType::OpAssign,
            TokenType::OpPlus => TokenType::OpPlus,
            TokenType::OpMinus => TokenType::OpMinus,
            TokenType::LineComment => TokenType::LineComment,
            TokenType::Unknown => TokenType::Unknown,
            TokenType::ScanEof => TokenType::ScanEof,
        }
    }
}

/// The display name of a token tag: keywords and punctuation by their
/// source text, the rest by a descriptive word.
pub open spec fn spec_token_name(t: TokV) -> Seq<char> {
    match t {
        TokV::Whitespace => "Whitespace"@,
        TokV::Begin => "begin"@,
        TokV::Comma => ","@,
        TokV::End => "end"@,
        TokV::Read => "read"@,
        TokV::Write => "write"@,
        TokV::Identifier { name } => "Identifier"@,
        TokV::IntLiteral { value } => "IntLiteral"@,
        TokV::LeftParen => "("@,
        TokV::RightParen => ")"@,
        TokV::Semicolon => ";"@,
        TokV::OpAssign => ":="@,
        TokV::OpPlus => "+"@,
        TokV::OpMinus => "-"@,
        TokV::LineComment => "LineComment"@,
        TokV::Unknown => "Unknown"@,
        TokV::ScanEof => "ScanEof"@,
    }
}

impl TokenType {
    pub fn as_str(&self) -> (r: &'static str)
        ensures
            r@ == spec_token_name(self@),
    {
        match self {
            TokenType::Whitespace => "Whitespace",
            TokenType::Begin => "begin",
            TokenType::Comma => ",",
            TokenType::End => "end",
            TokenType::Read => "read",
            TokenType::Write => "write",
            TokenType::Identifier { name: _ } => "Identifier",
            TokenType::IntLiteral { value: _ } => "IntLiteral",
            TokenType::LeftParen => "(",
            TokenType::RightParen => ")",
            TokenType::Semicolon => ";",
            TokenType::OpAssign => ":=",
            TokenType::OpPlus => "+",
            TokenType::OpMinus => "-",
            TokenType::LineComment => "LineComment",
            TokenType::Unknown => "Unknown",
            TokenType::ScanEof => "ScanEof",
        }
    }
}

/// A token: its tag plus the source span it came from (length in
/// characters, and the line, column and character offset of its start).
/// The span is diagnostic only; it has no bearing on parsing.
#[derive(Debug)]
pub struct Token {
    pub token_type: TokenType,
    pub length: usize,
    pub line: usize,
    pub column: usize,
    pub offset: usize,
}

/// The mathematical shape of a token.
pub struct TokenV {
    pub token_type: TokV,
    pub length: int,
    pub line: int,
    pub column: int,
    pub offset: int,
}

impl View for Token {
    type V = TokenV;

    open spec fn view(&self) -> TokenV {
        TokenV {
            token_type: self.token_type@,
            length: self.length as int,
            line: self.line as int,
            column: self.column as int,
            offset: self.offset as int,
        }
    }
}

impl Clone for Token {
    fn clone(&self) -> (r: Self)
        ensures
            r@ == self@,
    {
        Token {
            token_type: self.token_type.clone(),
            length: self.length,
            line: self.line,
            column: self.column,
            offset: self.offset,
        }
    }
}

/// The number of the line holding position `i` (1-based: one plus the
/// number of newlines before `i`).
pub open spec fn spec_line_of(s: Seq<char>, i: int) -> int
    decreases i,
{
    if i <= 0 {
        1
    } else if s[i - 1] == '\n' {
        spec_line_of(s, i - 1) + 1
    } else {
        spec_line_of(s, i - 1)
    }
}

/// The column of position `i` (1-based: the distance past the last newline
/// before `i`).
pub open spec fn spec_col_of(s: Seq<char>, i: int) -> int
    decreases i,
{
    if i <= 0 {
        1
    } else if s[i - 1] == '\n' {
        1
    } else {
        spec_col_of(s, i - 1) + 1
    }
}

/// The start of the line holding position `i`.
pub open spec fn spec_line_start(s: Seq<char>, i: int) -> int
    decreases i,
{
    if i <= 0 {
        0
    } else if s[i - 1] == '\n' {
        i
    } else {
        spec_line_start(s, i - 1)
    }
}

/// Line and column numbers stay within one past the position itself.
pub proof fn lemma_line_col_bounds(s: Seq<char>, i: int)
    requires
        0 <= i,
    ensures
        1 <= spec_line_of(s, i) <= i + 1,
        1 <= spec_col_of(s, i) <= i + 1,
        0 <= spec_line_start(s, i) <= i,
    decreases i,
{
    if i > 0 {
        lemma_line_col_bounds(s, i - 1);
    }
}

/// Over a newline-free run, the line number is unchanged and the column
/// advances by the run's length.
pub proof fn lemma_no_newline_run(s: Seq<char>, a: int, b: int)
    requires
        0 <= a <= b <= s.len(),
        forall|j: int| a <= j < b ==> s[j] != '\n',
    ensures
        spec_line_of(s, b) == spec_line_of(s, a),
        spec_col_of(s, b) == spec_col_of(s, a) + (b - a),
        spec_line_start(s, b) == spec_line_start(s, a),
    decreases b - a,
{
    if a < b {
        lemma_no_newline_run(s, a, b - 1);
    }
}

/// A character class the lexer skips over in one maximal run.
#[derive(Debug, Clone, Copy, PartialEq, Eq, Structural)]
pub enum CharClass {
    NotNewline,
    Whitespace,
    IdentifierContinue,
    Digit,
    NotExpected,
}

/// Membership of a character in a class.
pub open spec fn spec_class_holds(class: CharClass, c: char) -> bool {
    match class {
        CharClass::NotNewline => c != '\n',
        CharClass::Whitespace => char_utils::spec_is_whitespace(c),
        CharClass::IdentifierContinue => char_utils::spec_is_identifier_continue(c),
        CharClass::Digit => char_utils::spec_is_digit(c),
        CharClass::NotExpected => !char_utils::spec_is_expected(c),
    }
}

fn class_check(class: CharClass, c: char) -> (r: bool)
    ensures
        r == spec_class_holds(class, c),
{
    match class {
        CharClass::NotNewline => c != '\n',
        CharClass::Whitespace => char_utils::is_whitespace(c),
        CharClass::IdentifierContinue => char_utils::is_identifier_continue(c),
        CharClass::Digit => char_utils::is_digit(c),
        CharClass::NotExpected => !char_utils::is_expected(c),
    }
}

/// The first position at or after `i` whose character leaves the class
/// (or the end of the text).
pub open spec fn spec_scan_end(s: Seq<char>, i: int, class: CharClass) -> int
    decreases s.len() - i,
{
    if i < 0 || i >= s.len() {
        i
    } else if !spec_class_holds(class, s[i]) {
        i
    } else {
        spec_scan_end(s, i + 1, class)
    }
}

/// What the scan end delivers: it does not move backwards, stays within the
/// text, covers a run entirely inside the class, and stops on a character
/// outside it.
pub proof fn lemma_scan_end_props(s: Seq<char>, i: int, class: CharClass)
    requires
        0 <= i <= s.len(),
    ensures
        i <= spec_scan_end(s, i, class) <= s.len(),
        forall|j: int| i <= j < spec_scan_end(s, i, class) ==> spec_class_holds(class, s[j]),
        spec_scan_end(s, i, class) < s.len() ==> !spec_class_holds(
            class,
            s[spec_scan_end(s, i, class)],
        ),
    decreases s.len() - i,
{
    if i < s.len() && spec_class_holds(class, s[i]) {
        lemma_scan_end_props(s, i + 1, class);
    }
}

/// The cursor over the source text. `pos` counts the consumed characters;
/// `offset` marks where the token being scanned started; `line` and
/// `column` describe the position `pos`.
pub struct Lexer {
    pub chars: Vec<char>,
    pub pos: usize,
    pub offset: usize,
    pub line: usize,
    pub column: usize,
}

impl Token {
    /// A blank token recording the lexer's current position.
    pub fn new(lexer: &Lexer) -> (t: Token)
        ensures
            t.token_type@ == TokV::Unknown,
            t.length == 0,
            t.line == lexer.line,
            t.column == lexer.column,
            t.offset == lexer.offset,
    {
        Token {
            token_type: TokenType::Unknown,
            length: 0,
            line: lexer.line,
            column: lexer.column,
            offset: lexer.offset,
        }
    }

    /// A blank token with no position.
    pub fn unknown() -> (t: Token)
        ensures
            t.token_type@ == TokV::Unknown,
            t.length == 0,
            t.line == 0,
            t.column == 0,
            t.offset == 0,
    {
        Token { token_type: TokenType::Unknown, length: 0, line: 0, column: 0, offset: 0 }
    }

    /// The end-of-stream marker token.
    pub fn eof() -> (t: Token)
        ensures
            t.token_type@ == TokV::ScanEof,
            t.length == 0,
            t.line == 0,
            t.column == 0,
            t.offset == 0,
    {
        Token { token_type: TokenType::ScanEof, length: 0, line: 0, column: 0, offset: 0 }
    }

    pub fn set_type(&mut self, token_type: TokenType)
        ensures
            *final(self) == (Token { token_type, ..*old(self) }),
    {
        self.token_type = token_type
    }

    pub fn set_length(&mut self, len: usize)
        ensures
            *final(self) == (Token { length: len, ..*old(self) }),
    {
        self.length = len;
    }
}

impl Lexer {
    /// The lexer's structural invariant: the cursor lies within the text,
    /// the token start does not pass the cursor, and `line` and `column`
    /// describe the cursor position.
    pub open spec fn wf(&self) -> bool {
        &&& self.pos <= self.chars@.len()
        &&& self.offset <= self.pos
        &&& self.chars@.len() < usize::MAX
        &&& self.line == spec_line_of(self.chars@, self.pos as int)
        &&& self.column == spec_col_of(self.chars@, self.pos as int)
    }

    /// A fresh lexer over the given source text.
    pub fn new(content: &str) -> (l: Lexer)
        requires
            content@.len() < usize::MAX,
        ensures
            l.wf(),
            l.chars@ == content@,
            l.pos == 0,
            l.offset == 0,
            l.line == 1,
            l.column == 1,
    {
        Lexer { chars: text::str_to_chars(content), pos: 0, offset: 0, line: 1, column: 1 }
    }

    /// Peeks the next character without consuming it; a NUL character
    /// stands in at the end of the text (which `is_eof` distinguishes).
    fn first(&self) -> (c: char)
        requires
            self.pos <= self.chars@.len(),
        ensures
            c == if self.pos < self.chars@.len() {
                self.chars@[self.pos as int]
            } else {
                '\0'
            },
    {
        if self.pos < self.chars.len() {
            self.chars[self.pos]
        } else {
            '\0'
        }
    }

    /// Whether there is nothing more to consume.
    fn is_eof(&self) -> (r: bool)
        requires
            self.pos <= self.chars@.len(),
        ensures
            r == (self.pos == self.chars@.len()),
    {
        self.pos == self.chars.len()
    }

    /// The number of characters consumed for the current token.
    fn token_length(&self) -> (r: usize)
        requires
            self.offset <= self.pos,
        ensures
            r == self.pos - self.offset,
    {
        self.pos - self.offset
    }

    /// Marks the current position as the start of the next token.
    fn reset_token_length(&mut self)
        ensures
            *final(self) == (Lexer { offset: old(self).pos, ..*old(self) }),
    {
        self.offset = self.pos;
    }

    /// Consumes one character, keeping `line` and `column` current.
    fn bump(&mut self) -> (r: Option<char>)
        requires
            old(self).wf(),
        ensures
            final(self).wf(),
            final(self).chars == old(self).chars,
            final(self).offset == old(self).offset,
            if old(self).pos < old(self).chars@.len() {
                r == Some(old(self).chars@[old(self).pos as int]) && final(self).pos == old(
                    self,
                ).pos + 1
            } else {
                r == None::<char> && final(self).pos == old(self).pos
            },
    {
        if self.pos >= self.chars.len() {
            return None;
        }
        let c = self.chars[self.pos];
        proof {
            lemma_line_col_bounds(self.chars@, self.pos as int);
        }
        self.pos = self.pos + 1;
        if c == '\n' {
            self.line = self.line + 1;
            self.column = 1;
        } else {
            self.column = self.column + 1;
        }
        Some(c)
    }

    /// Whether the scan of a class run continues at the cursor.
    fn scan_continue(&self, class: CharClass) -> (r: bool)
        requires
            self.pos <= self.chars@.len(),
        ensures
            r == (self.pos < self.chars@.len() && spec_class_holds(
                class,
                self.chars@[self.pos as int],
            )),
    {
        let c = self.first();
        class_check(class, c) && !self.is_eof()
    }

    /// Consumes the maximal run of characters of the class.
    fn eat_while(&mut self, class: CharClass)
        requires
            old(self).wf(),
        ensures
            final(self).wf(),
            final(self).chars == old(self).chars,
            final(self).offset == old(self).offset,
            final(self).pos == spec_scan_end(old(self).chars@, old(self).pos as int, class),
    {
        let ghost s0 = *self;
        while self.scan_continue(class)
            invariant
                self.wf(),
                self.chars == s0.chars,
                self.offset == s0.offset,
                s0.pos <= self.pos,
                spec_scan_end(s0.chars@, s0.pos as int, class) == spec_scan_end(
                    self.chars@,
                    self.pos as int,
                    class,
                ),
            decreases self.chars@.len() - self.pos,
        {
            self.bump();
        }
    }

    /// The characters `chars[a..b]`, as a string.
    fn collect_range(&self, a: usize, b: usize) -> (r: String)
        requires
            a <= b <= self.chars@.len(),
        ensures
            r@ == self.chars@.subrange(a as int, b as int),
    {
        let mut v: Vec<char> = Vec::new();
        let mut i: usize = a;
        while i < b
            invariant
                a <= i <= b <= self.chars@.len(),
                v@ =~= self.chars@.subrange(a as int, i as int),
            decreases b - i,
        {
            v.push(self.chars[i]);
            i = i + 1;
        }
        assert(v@ =~= self.chars@.subrange(a as int, b as int));
        text::chars_to_string(&v)
    }

    /// The text of the token being scanned.
    fn get_token_string(&self) -> (r: String)
        requires
            self.offset <= self.pos <= self.chars@.len(),
        ensures
            r@ == self.chars@.subrange(self.offset as int, self.pos as int),
    {
        self.collect_range(self.offset, self.pos)
    }
}

/// How a lexical failure came about.
#[derive(Debug, Clone, Copy, PartialEq, Eq, Structural)]
pub enum LexErrorKind {
    /// A character no token can start from.
    UnexpectedChar,
    /// A `:` not followed by `=`.
    BadAssignOp,
    /// An integer literal beyond the 32-bit signed range.
    IntLiteralOverflow,
}

/// A lexical failure: the offending span (line, column and character offset
/// of its start, length in characters) and a caret-annotated rendering of
/// the source line it lies on.
#[derive(Debug)]
pub struct LexError {
    pub kind: LexErrorKind,
    pub line: usize,
    pub column: usize,
    pub offset: usize,
    pub length: usize,
    pub message: String,
}

/// The mathematical shape of a lexical failure.
pub struct LexErrorV {
    pub kind: LexErrorKind,
    pub line: int,
    pub column: int,
    pub offset: int,
    pub length: int,
    pub message: Seq<char>,
}

impl View for LexError {
    type V = LexErrorV;

    open spec fn view(&self) -> LexErrorV {
        LexErrorV {
            kind: self.kind,
            line: self.line as int,
            column: self.column as int,
            offset: self.offset as int,
            length: self.length as int,
            message: self.message@,
        }
    }
}

/// The short description of a failure kind.
pub open spec fn spec_kind_msg(kind: LexErrorKind) -> Seq<char> {
    match kind {
        LexErrorKind::UnexpectedChar => "unexpected char(s)"@,
        LexErrorKind::BadAssignOp => "expected '=' after ':'"@,
        LexErrorKind::IntLiteralOverflow => "integer literal exceeds 32-bit range"@,
    }
}

fn kind_msg(kind: LexErrorKind) -> (r: &'static str)
    ensures
        r@ == spec_kind_msg(kind),
{
    match kind {
        LexErrorKind::UnexpectedChar => "unexpected char(s)",
        LexErrorKind::BadAssignOp => "expected '=' after ':'",
        LexErrorKind::IntLiteralOverflow => "integer literal exceeds 32-bit range",
    }
}

/// The caret-annotated diagnostic for the span `[start, end)` of `s`: the
/// failure description, the position, the source line, and a caret under
/// the span.
pub open spec fn spec_error_message(s: Seq<char>, start: int, end: int, msg: Seq<char>) -> Seq<
    char,
> {
    let ls = spec_line_start(s, start);
    let le = spec_scan_end(s, end, CharClass::NotNewline);
    "microc: [syntax error] "@ + msg + "\n --> "@ + text::spec_dec_digits(spec_line_of(s, start))
        + ":"@ + text::spec_dec_digits(spec_col_of(s, start)) + "\n"@ + s.subrange(ls, le) + "\n"@
        + text::spec_char_repeat(' ', start - ls) + text::spec_char_repeat('^', end - start)
        + "\n"@
}

/// The failure value for the span `[start, end)` of `s`.
pub open spec fn spec_error_at(s: Seq<char>, kind: LexErrorKind, start: int, end: int) -> LexErrorV {
    LexErrorV {
        kind: kind,
        line: spec_line_of(s, start),
        column: spec_col_of(s, start),
        offset: start,
        length: end - start,
        message: spec_error_message(s, start, end, spec_kind_msg(kind)),
    }
}

/// One step of lexical analysis at position `pos` of `s`: the token found
/// there (or the failure kind), and the position right after it.
pub open spec fn spec_next_token(s: Seq<char>, pos: int) -> Result<(TokV, int), (
    LexErrorKind,
    int,
)> {
    if pos >= s.len() {
        Ok((TokV::ScanEof, pos))
    } else {
        let c = s[pos];
        if c == '-' {
            if pos + 1 < s.len() && s[pos + 1] == '-' {
                Ok((TokV::LineComment, spec_scan_end(s, pos + 2, CharClass::NotNewline)))
            } else {
                Ok((TokV::OpMinus, pos + 1))
            }
        } else if char_utils::spec_is_whitespace(c) {
            Ok((TokV::Whitespace, spec_scan_end(s, pos + 1, CharClass::Whitespace)))
        } else if char_utils::spec_is_ascii_alphabetic(c) {
            let end = spec_scan_end(s, pos + 1, CharClass::IdentifierContinue);
            let txt = s.subrange(pos, end);
            if txt == "begin"@ {
                Ok((TokV::Begin, end))
            } else if txt == "end"@ {
                Ok((TokV::End, end))
            } else if txt == "read"@ {
                Ok((TokV::Read, end))
            } else if txt == "write"@ {
                Ok((TokV::Write, end))
            } else {
                Ok((TokV::Identifier { name: txt }, end))
            }
        } else if char_utils::spec_is_digit(c) {
            let end = spec_scan_end(s, pos + 1, CharClass::Digit);
            let v = text::spec_digits_val(s.subrange(pos, end));
            if v <= i32::MAX as int {
                Ok((TokV::IntLiteral { value: v }, end))
            } else {
                Err((LexErrorKind::IntLiteralOverflow, end))
            }
        } else if c == '(' {
            Ok((TokV::LeftParen, pos + 1))
        } else if c == ')' {
            Ok((TokV::RightParen, pos + 1))
        } else if c == ';' {
            Ok((TokV::Semicolon, pos + 1))
        } else if c == ',' {
            Ok((TokV::Comma, pos + 1))
        } else if c == ':' {
            if pos + 1 < s.len() && s[pos + 1] == '=' {
                Ok((TokV::OpAssign, pos + 2))
            } else {
                Err((LexErrorKind::BadAssignOp, pos + 1))
            }
        } else if c == '+' {
            Ok((TokV::OpPlus, pos + 1))
        } else {
            Err((LexErrorKind::UnexpectedChar, spec_scan_end(s, pos + 1, CharClass::NotExpected)))
        }
    }
}

/// One lexing step always makes progress: it moves forward through the
/// text, and yields the end-of-stream marker exactly at the end.
pub proof fn lemma_next_token_progress(s: Seq<char>, pos: int)
    requires
        0 <= pos <= s.len(),
    ensures
        match spec_next_token(s, pos) {
            Ok((tv, end)) => {
                &&& pos <= end <= s.len()
                &&& (pos < s.len() ==> pos < end && !(tv is ScanEof))
                &&& (pos == s.len() ==> tv is ScanEof && end == pos)
            },
            Err((k, end)) => pos < end <= s.len(),
        },
{
    if pos < s.len() {
        if pos + 1 <= s.len() {
            lemma_scan_end_props(s, pos + 1, CharClass::NotNewline);
            lemma_scan_end_props(s, pos + 1, CharClass::Whitespace);
            lemma_scan_end_props(s, pos + 1, CharClass::IdentifierContinue);
            lemma_scan_end_props(s, pos + 1, CharClass::Digit);
            lemma_scan_end_props(s, pos + 1, CharClass::NotExpected);
        }
        if pos + 2 <= s.len() {
            lemma_scan_end_props(s, pos + 2, CharClass::NotNewline);
        }
    }
}

impl Lexer {
    /// The diagnostic for the token being scanned, which must be free of
    /// newlines. Produces the failure value carrying the caret-annotated
    /// rendering of its source line.
    pub fn syntax_error(&self, kind: LexErrorKind) -> (e: LexError)
        requires
            self.wf(),
            self.offset < self.pos,
            forall|j: int|
                self.offset <= j < self.pos ==> self.chars@[j] != '\n',
        ensures
            e@ == spec_error_at(self.chars@, kind, self.offset as int, self.pos as int),
    {
        proof {
            lemma_no_newline_run(self.chars@, self.offset as int, self.pos as int);
            lemma_line_col_bounds(self.chars@, self.offset as int);
        }
        let len = self.token_length();
        let line_no = self.line;
        let col_start = self.column - len;
        // Find the bounds of the source line holding the span.
        let mut ls: usize = self.offset;
        while ls > 0 && self.chars[ls - 1] != '\n'
            invariant
                ls <= self.offset <= self.chars@.len(),
                spec_line_start(self.chars@, self.offset as int) == spec_line_start(
                    self.chars@,
                    ls as int,
                ),
            decreases ls,
        {
            ls = ls - 1;
        }
        let mut le: usize = self.pos;
        while le < self.chars.len() && self.chars[le] != '\n'
            invariant
                self.pos <= le <= self.chars@.len(),
                spec_scan_end(self.chars@, self.pos as int, CharClass::NotNewline)
                    == spec_scan_end(self.chars@, le as int, CharClass::NotNewline),
            decreases self.chars@.len() - le,
        {
            le = le + 1;
        }
        proof {
            lemma_line_col_bounds(self.chars@, ls as int);
        }
        let line_text = self.collect_range(ls, le);
        let msg = kind_msg(kind);
        let mut message = String::new();
        message.append("microc: [syntax error] ");
        message.append(msg);
        message.append("\n --> ");
        let line_str = text::usize_to_string(line_no);
        message.append(line_str.as_str());
        message.append(":");
        let col_str = text::usize_to_string(col_start);
        message.append(col_str.as_str());
        message.append("\n");
        message.append(line_text.as_str());
        message.append("\n");
        let pad = text::char_repeat(' ', self.offset - ls);
        message.append(pad.as_str());
        let carets = text::char_repeat('^', len);
        message.append(carets.as_str());
        message.append("\n");
        proof {
            assert(message@ =~= spec_error_message(
                self.chars@,
                self.offset as int,
                self.pos as int,
                spec_kind_msg(kind),
            ));
        }
        LexError {
            kind,
            line: line_no,
            column: col_start,
            offset: self.offset,
            length: len,
            message,
        }
    }

    /// Scans one token at the cursor. The returned token records the span
    /// it came from; end of text yields the end-of-stream marker token.
    /// Fails exactly on an unrecognized character run, a `:` without `=`,
    /// or an integer literal beyond the 32-bit signed range.
    pub fn next_token(&mut self) -> (r: Result<Token, LexError>)
        requires
            old(self).wf(),
            old(self).offset == old(self).pos,
        ensures
            final(self).wf(),
            final(self).chars == old(self).chars,
            final(self).offset == final(self).pos,
            match (r, spec_next_token(old(self).chars@, old(self).pos as int)) {
                (Ok(t), Ok((tv, end))) => {
                    &&& t.token_type@ == tv
                    &&& t.offset == old(self).pos
                    &&& t.length == end - old(self).pos
                    &&& t.line == spec_line_of(old(self).chars@, old(self).pos as int)
                    &&& t.column == spec_col_of(old(self).chars@, old(self).pos as int)
                    &&& final(self).pos == end
                },
                (Err(e), Err((kind, end))) => {
                    &&& e@ == spec_error_at(old(self).chars@, kind, old(self).pos as int, end)
                    &&& final(self).pos == end
                },
                _ => false,
            },
    {
        let ghost s = self.chars@;
        let ghost pos0 = self.pos as int;
        let mut token = Token::new(&*self);
        let first_char = match self.bump() {
            Some(c) => c,
            None => {
                token.set_type(TokenType::ScanEof);
                return Ok(token);
            },
        };
        let token_type: TokenType = if first_char == '-' {
            if self.first() == '-' {
                self.bump();
                self.eat_while(CharClass::NotNewline);
                TokenType::LineComment
            } else {
                TokenType::OpMinus
            }
        } else if char_utils::is_whitespace(first_char) {
            self.eat_while(CharClass::Whitespace);
            TokenType::Whitespace
        } else if char_utils::is_ascii_alphabetic(first_char) {
            self.eat_while(CharClass::IdentifierContinue);
            let token_string = self.get_token_string();
            if token_string == String::from_str("begin") {
                TokenType::Begin
            } else if token_string == String::from_str("end") {
                TokenType::End
            } else if token_string == String::from_str("read") {
                TokenType::Read
            } else if token_string == String::from_str("write") {
                TokenType::Write
            } else {
                TokenType::Identifier { name: token_string }
            }
        } else if char_utils::is_digit(first_char) {
            self.eat_while(CharClass::Digit);
            proof {
                lemma_scan_end_props(s, pos0 + 1, CharClass::Digit);
            }
            match text::parse_digits(&self.chars, self.offset, self.pos) {
                Some(value) => TokenType::IntLiteral { value },
                None => {
                    proof {
                        lemma_scan_end_props(s, pos0 + 1, CharClass::Digit);
                    }
                    let e = self.syntax_error(LexErrorKind::IntLiteralOverflow);
                    self.reset_token_length();
                    return Err(e);
                },
            }
        } else if first_char == '(' {
            TokenType::LeftParen
        } else if first_char == ')' {
            TokenType::RightParen
        } else if first_char == ';' {
            TokenType::Semicolon
        } else if first_char == ',' {
            TokenType::Comma
        } else if first_char == ':' {
            if self.first() == '=' {
                self.bump();
                TokenType::OpAssign
            } else {
                let e = self.syntax_error(LexErrorKind::BadAssignOp);
                self.reset_token_length();
                return Err(e);
            }
        } else if first_char == '+' {
            TokenType::OpPlus
        } else {
            self.eat_while(CharClass::NotExpected);
            proof {
                lemma_scan_end_props(s, pos0 + 1, CharClass::NotExpected);
            }
            let e = self.syntax_error(LexErrorKind::UnexpectedChar);
            self.reset_token_length();
            return Err(e);
        };
        token.set_type(token_type);
        let len = self.token_length();
        token.set_length(len);
        self.reset_token_length();
        Ok(token)
    }
}

/// The mathematical shapes of a token sequence.
pub open spec fn view_tokens(ts: Seq<Token>) -> Seq<TokenV> {
    Seq::new(ts.len(), |i: int| ts[i]@)
}

/// The token at `pos` of `s`, with the span it came from.
pub open spec fn spec_token_at(s: Seq<char>, pos: int, tv: TokV, end: int) -> TokenV {
    TokenV {
        token_type: tv,
        length: end - pos,
        line: spec_line_of(s, pos),
        column: spec_col_of(s, pos),
        offset: pos,
    }
}

/// Token tags the public token stream filters out.
pub open spec fn spec_skipped(tv: TokV) -> bool {
    tv is Whitespace || tv is LineComment
}

/// The whole token stream of `s` from position `pos` on, with whitespace
/// and line comments filtered out; or the first lexical failure, with the
/// span `[start, end)` it lies on.
pub open spec fn spec_tokenize(s: Seq<char>, pos: int) -> Result<Seq<TokenV>, (
    LexErrorKind,
    int,
    int,
)>
    decreases s.len() - pos,
{
    if pos < 0 || pos >= s.len() {
        Ok(Seq::empty())
    } else {
        match spec_next_token(s, pos) {
            Err((k, end)) => Err((k, pos, end)),
            Ok((tv, end)) => if pos < end <= s.len() {
                match spec_tokenize(s, end) {
                    Err(e) => Err(e),
                    Ok(ts) => if spec_skipped(tv) {
                        Ok(ts)
                    } else {
                        Ok(seq![spec_token_at(s, pos, tv, end)] + ts)
                    },
                }
            } else {
                Ok(Seq::empty())
            },
        }
    }
}

impl Lexer {
    /// Scans the whole remaining text into tokens, filtering out whitespace
    /// and line comments so downstream consumers never observe them. The
    /// scan always terminates: the end of the text yields the end of the
    /// sequence. Fails exactly on the first lexical failure of the text.
    pub fn tokenize(&mut self) -> (r: Result<Vec<Token>, LexError>)
        requires
            old(self).wf(),
            old(self).offset == old(self).pos,
        ensures
            final(self).wf(),
            final(self).chars == old(self).chars,
            match (r, spec_tokenize(old(self).chars@, old(self).pos as int)) {
                (Ok(ts), Ok(tvs)) => view_tokens(ts@) == tvs,
                (Err(e), Err((kind, start, end))) => e@ == spec_error_at(
                    old(self).chars@,
                    kind,
                    start,
                    end,
                ),
                _ => false,
            },
    {
        let ghost l0 = *self;
        let ghost s = self.chars@;
        let ghost pos0 = self.pos as int;
        let mut tokens: Vec<Token> = Vec::new();
        loop
            invariant
                l0 == *old(self),
                s == l0.chars@,
                pos0 == l0.pos as int,
                self.wf(),
                self.offset == self.pos,
                self.chars == l0.chars,
                self.chars@ == s,
                pos0 <= self.pos as int,
                spec_tokenize(s, pos0) == match spec_tokenize(s, self.pos as int) {
                    Ok(rest) => Ok::<Seq<TokenV>, (LexErrorKind, int, int)>(
                        view_tokens(tokens@) + rest,
                    ),
                    Err(e) => Err::<Seq<TokenV>, (LexErrorKind, int, int)>(e),
                },
            decreases s.len() - self.pos as int,
        {
            let ghost p = self.pos as int;
            proof {
                lemma_next_token_progress(s, p);
            }
            let ghost old_tokens = tokens@;
            let step = self.next_token();
            let t = match step {
                Ok(t) => t,
                Err(e) => {
                    proof {
                        let (kind, end) = spec_next_token(s, p)->Err_0;
                        assert(spec_tokenize(s, p) == Err::<Seq<TokenV>, (LexErrorKind, int, int)>(
                            (kind, p, end),
                        ));
                    }
                    return Err(e);
                },
            };
            let is_eof_tok = match &t.token_type {
                TokenType::ScanEof => true,
                _ => false,
            };
            if is_eof_tok {
                proof {
                    assert(p == s.len());
                    assert(spec_tokenize(s, p) == Ok::<Seq<TokenV>, (LexErrorKind, int, int)>(
                        Seq::empty(),
                    ));
                    assert(view_tokens(tokens@) + Seq::<TokenV>::empty() =~= view_tokens(
                        tokens@,
                    ));
                }
                return Ok(tokens);
            }
            let skip = match &t.token_type {
                TokenType::Whitespace => true,
                TokenType::LineComment => true,
                _ => false,
            };
            if !skip {
                tokens.push(t);
                proof {
                    let (tv, end) = spec_next_token(s, p)->Ok_0;
                    assert(view_tokens(tokens@) =~= view_tokens(old_tokens) + seq![
                        spec_token_at(s, p, tv, end),
                    ]);
                    assert(match spec_tokenize(s, end) {
                        Ok(rest) => view_tokens(old_tokens) + (seq![
                            spec_token_at(s, p, tv, end),
                        ] + rest) =~= view_tokens(tokens@) + rest,
                        Err(e) => true,
                    });
                }
            }
        }
    }
}

} // verus!
