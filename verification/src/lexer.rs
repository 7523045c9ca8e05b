//! Lexical analysis: character stream to token stream.
//!
//! The lexer keeps a cursor over the character sequence together with the
//! current 1-based line and column; consuming a newline increments the line
//! and resets the column to 1, consuming any other character advances the
//! column. At each position, after skipping whitespace (the Unicode
//! `White_Space` characters), it recognises in order: an integer literal
//! (a maximal run of decimal digits, rejected if a letter follows
//! immediately or the value overflows a 64-bit signed integer), a keyword
//! or identifier (a maximal run of letters, decimal digits and
//! underscores starting with a letter or underscore, a letter being any
//! character `char::is_alphabetic` accepts), a two-character operator,
//! and a one-character token. Anything else is an unknown token.
//!
//! The whole analysis is specified by `spec_tokenize`, a mathematical
//! function from the character sequence and a start state to either the
//! token sequence or the first error.

use vstd::prelude::*;
use vstd::string::StrSliceExecFns;
use crate::token::{chars_to_string, tokens_view, Token, TokenKind, TokenKindV, TokenV};
use crate::codegen::{dec_digits, digit_char};

verus! {

/// Errors of the lexer. `EndOfInput` is the normal loop terminator of
/// `tokenize`, not a true error; positions are those of the token start.
#[derive(Debug, Clone, PartialEq, Eq)]
pub enum LexerError {
    GenericError,
    UnexpectedChar { character: char, line: usize, column: usize },
    EndOfInput,
    UnknownToken { character: char, line: usize, column: usize },
}

/// Mathematical model of a lexer error, with unbounded positions.
pub enum LexerErrorV {
    GenericError,
    UnexpectedChar { character: char, line: int, column: int },
    EndOfInput,
    UnknownToken { character: char, line: int, column: int },
}

impl View for LexerError {
    type V = LexerErrorV;

    open spec fn view(&self) -> LexerErrorV {
        match self {
            LexerError::GenericError => LexerErrorV::GenericError,
            LexerError::UnexpectedChar { character, line, column } => LexerErrorV::UnexpectedChar {
                character: *character,
                line: *line as int,
                column: *column as int,
            },
            LexerError::EndOfInput => LexerErrorV::EndOfInput,
            LexerError::UnknownToken { character, line, column } => LexerErrorV::UnknownToken {
                character: *character,
                line: *line as int,
                column: *column as int,
            },
        }
    }
}

/// Whitespace skipped between tokens: the characters with the Unicode
/// `White_Space` property, the set `char::is_whitespace` accepts.
pub open spec fn is_ws(c: char) -> bool {
    c == '\u{0009}' || c == '\u{000A}' || c == '\u{000B}' || c == '\u{000C}' || c == '\u{000D}'
        || c == '\u{0020}' || c == '\u{0085}' || c == '\u{00A0}' || c == '\u{1680}' || c
        == '\u{2000}' || c == '\u{2001}' || c == '\u{2002}' || c == '\u{2003}' || c == '\u{2004}'
        || c == '\u{2005}' || c == '\u{2006}' || c == '\u{2007}' || c == '\u{2008}' || c
        == '\u{2009}' || c == '\u{200A}' || c == '\u{2028}' || c == '\u{2029}' || c == '\u{202F}'
        || c == '\u{205F}' || c == '\u{3000}'
}

/// Whether `c` is whitespace.
fn is_ws_char(c: char) -> (r: bool)
    ensures
        r == is_ws(c),
{
    c == '\u{0009}' || c == '\u{000A}' || c == '\u{000B}' || c == '\u{000C}' || c == '\u{000D}'
        || c == '\u{0020}' || c == '\u{0085}' || c == '\u{00A0}' || c == '\u{1680}' || c
        == '\u{2000}' || c == '\u{2001}' || c == '\u{2002}' || c == '\u{2003}' || c == '\u{2004}'
        || c == '\u{2005}' || c == '\u{2006}' || c == '\u{2007}' || c == '\u{2008}' || c
        == '\u{2009}' || c == '\u{200A}' || c == '\u{2028}' || c == '\u{2029}' || c == '\u{202F}'
        || c == '\u{205F}' || c == '\u{3000}'
}

/// Decimal digit.
pub open spec fn is_digit(c: char) -> bool {
    '0' <= c && c <= '9'
}

/// What `char::is_alphabetic` returns: a function of the character
/// alone, named because the Unicode `Alphabetic` class is too large to
/// write out.
pub uninterp spec fn alpha_of(c: char) -> bool;

/// Relies on `char::is_alphabetic`: whether the character has the
/// Unicode `Alphabetic` property, a function of the character alone.
/// Whitespace characters are not alphabetic: the two Unicode classes
/// are disjoint.
pub assume_specification[ char::is_alphabetic ](c: char) -> (r: bool)
    ensures
        r == alpha_of(c),
        is_ws(c) ==> !r,
;

/// Letter: the Unicode `Alphabetic` class.
pub open spec fn is_alpha(c: char) -> bool {
    alpha_of(c)
}

/// A character that may start an identifier.
pub open spec fn is_ident_start(c: char) -> bool {
    is_alpha(c) || c == '_'
}

/// A character that may continue an identifier.
pub open spec fn is_ident_cont(c: char) -> bool {
    is_alpha(c) || is_digit(c) || c == '_'
}

/// Cursor position of the lexer: index into the character sequence and
/// the 1-based line and column of that index.
pub struct LexState {
    pub i: int,
    pub line: int,
    pub col: int,
}

/// The state after consuming the character at `st.i`.
pub open spec fn step_state(s: Seq<char>, st: LexState) -> LexState {
    if s[st.i] == '\n' {
        LexState { i: st.i + 1, line: st.line + 1, col: 1 }
    } else {
        LexState { i: st.i + 1, line: st.line, col: st.col + 1 }
    }
}

/// The state after skipping all whitespace from `st`.
pub open spec fn skip_ws_state(s: Seq<char>, st: LexState) -> LexState
    decreases s.len() - st.i,
{
    if st.i < 0 || st.i >= s.len() {
        st
    } else if is_ws(s[st.i]) {
        skip_ws_state(s, step_state(s, st))
    } else {
        st
    }
}

/// The end of the maximal digit run starting at `i`.
pub open spec fn digit_end(s: Seq<char>, i: int) -> int
    decreases s.len() - i,
{
    if i < 0 || i >= s.len() {
        i
    } else if is_digit(s[i]) {
        digit_end(s, i + 1)
    } else {
        i
    }
}

/// The end of the maximal identifier run starting at `i`.
pub open spec fn ident_end(s: Seq<char>, i: int) -> int
    decreases s.len() - i,
{
    if i < 0 || i >= s.len() {
        i
    } else if is_ident_cont(s[i]) {
        ident_end(s, i + 1)
    } else {
        i
    }
}

/// Numeric value of a digit character.
pub open spec fn digit_val(c: char) -> int {
    c as u32 - '0' as u32
}

/// Value of a digit sequence read in base 10.
pub open spec fn digits_val(s: Seq<char>) -> int
    decreases s.len(),
{
    if s.len() == 0 {
        0
    } else {
        digits_val(s.drop_last()) * 10 + digit_val(s.last())
    }
}

/// Classification of an identifier run against the keyword table.
pub open spec fn word_kind(w: Seq<char>) -> TokenKindV {
    if w == "return"@ {
        TokenKindV::Return
    } else if w == "function"@ {
        TokenKindV::Function
    } else if w == "int"@ {
        TokenKindV::IntType
    } else if w == "var"@ {
        TokenKindV::Var
    } else if w == "if"@ {
        TokenKindV::If
    } else if w == "else"@ {
        TokenKindV::Else
    } else if w == "while"@ {
        TokenKindV::While
    } else if w == "break"@ {
        TokenKindV::Break
    } else if w == "continue"@ {
        TokenKindV::Continue
    } else {
        TokenKindV::Identifier(w)
    }
}

/// The two-character operator formed by `a` then `b`, if any.
pub open spec fn two_char_kind(a: char, b: char) -> Option<TokenKindV> {
    if a == '=' && b == '=' {
        Some(TokenKindV::DoubleEqual)
    } else if a == '!' && b == '=' {
        Some(TokenKindV::NotEqual)
    } else if a == '<' && b == '=' {
        Some(TokenKindV::LessEqual)
    } else if a == '>' && b == '=' {
        Some(TokenKindV::GreaterEqual)
    } else if a == '&' && b == '&' {
        Some(TokenKindV::And)
    } else if a == '|' && b == '|' {
        Some(TokenKindV::Or)
    } else {
        None
    }
}

/// The one-character token for `c`, if any.
pub open spec fn one_char_kind(c: char) -> Option<TokenKindV> {
    if c == '(' {
        Some(TokenKindV::LeftParentheses)
    } else if c == ')' {
        Some(TokenKindV::RightParentheses)
    } else if c == '{' {
        Some(TokenKindV::LeftBrace)
    } else if c == '}' {
        Some(TokenKindV::RightBrace)
    } else if c == ';' {
        Some(TokenKindV::Semicolon)
    } else if c == '+' {
        Some(TokenKindV::Plus)
    } else if c == '-' {
        Some(TokenKindV::Minus)
    } else if c == '*' {
        Some(TokenKindV::Star)
    } else if c == '/' {
        Some(TokenKindV::Slash)
    } else if c == '=' {
        Some(TokenKindV::Equal)
    } else if c == ',' {
        Some(TokenKindV::Comma)
    } else if c == '<' {
        Some(TokenKindV::LessThan)
    } else if c == '>' {
        Some(TokenKindV::GreaterThan)
    } else if c == '!' {
        Some(TokenKindV::Not)
    } else {
        None
    }
}

/// Outcome of recognising one token: a token and the state after it, the
/// end of the input, or a lexical error.
pub enum LexStep {
    Tok(TokenV, LexState),
    End,
    Fail(LexerErrorV),
}

/// One token recognised from a symbol character (neither digit nor
/// identifier start) at `st.i`: a two-character operator first, then a
/// one-character token, otherwise an unknown-token error.
pub open spec fn spec_symbol(s: Seq<char>, st: LexState) -> LexStep {
    let c = s[st.i];
    if st.i + 1 < s.len() && two_char_kind(c, s[st.i + 1]) is Some {
        LexStep::Tok(
            TokenV { kind: two_char_kind(c, s[st.i + 1]).unwrap(), line: st.line, column: st.col },
            LexState { i: st.i + 2, line: st.line, col: st.col + 2 },
        )
    } else if one_char_kind(c) is Some {
        LexStep::Tok(
            TokenV { kind: one_char_kind(c).unwrap(), line: st.line, column: st.col },
            LexState { i: st.i + 1, line: st.line, col: st.col + 1 },
        )
    } else {
        LexStep::Fail(LexerErrorV::UnknownToken { character: c, line: st.line, column: st.col })
    }
}

/// The next token from state `st0`: skip whitespace, then recognise an
/// integer literal, a keyword or identifier, or a symbol token.
pub open spec fn spec_next(s: Seq<char>, st0: LexState) -> LexStep {
    let st = skip_ws_state(s, st0);
    if st.i >= s.len() {
        LexStep::End
    } else {
        let c = s[st.i];
        if is_digit(c) {
            let j = digit_end(s, st.i);
            let run = s.subrange(st.i, j);
            if j < s.len() && is_alpha(s[j]) {
                LexStep::Fail(
                    LexerErrorV::UnexpectedChar { character: s[j], line: st.line, column: st.col },
                )
            } else if digits_val(run) > i64::MAX {
                LexStep::Fail(
                    LexerErrorV::UnexpectedChar {
                        character: s[j - 1],
                        line: st.line,
                        column: st.col,
                    },
                )
            } else {
                LexStep::Tok(
                    TokenV {
                        kind: TokenKindV::IntLiteral(digits_val(run) as i64),
                        line: st.line,
                        column: st.col,
                    },
                    LexState { i: j, line: st.line, col: st.col + (j - st.i) },
                )
            }
        } else if is_ident_start(c) {
            let j = ident_end(s, st.i);
            LexStep::Tok(
                TokenV { kind: word_kind(s.subrange(st.i, j)), line: st.line, column: st.col },
                LexState { i: j, line: st.line, col: st.col + (j - st.i) },
            )
        } else {
            spec_symbol(s, st)
        }
    }
}

/// The whole token sequence from state `st`, or the first error. A
/// recognised token always consumes at least one character; the guard on
/// the recursion only makes that manifest.
pub open spec fn spec_tokenize(s: Seq<char>, st: LexState) -> Result<Seq<TokenV>, LexerErrorV>
    decreases s.len() - st.i,
{
    match spec_next(s, st) {
        LexStep::End => Ok(Seq::empty()),
        LexStep::Fail(e) => Err(e),
        LexStep::Tok(t, st2) => {
            if st.i < st2.i <= s.len() {
                match spec_tokenize(s, st2) {
                    Ok(rest) => Ok(seq![t] + rest),
                    Err(e) => Err(e),
                }
            } else {
                Err(LexerErrorV::GenericError)
            }
        },
    }
}

proof fn lemma_digit_end_props(s: Seq<char>, i: int)
    requires
        0 <= i <= s.len(),
    ensures
        i <= digit_end(s, i) <= s.len(),
        forall|k: int| i <= k < digit_end(s, i) ==> is_digit(s[k]),
        digit_end(s, i) == s.len() || !is_digit(s[digit_end(s, i)]),
    decreases s.len() - i,
{
    if i < s.len() && is_digit(s[i]) {
        lemma_digit_end_props(s, i + 1);
    }
}

proof fn lemma_ident_end_props(s: Seq<char>, i: int)
    requires
        0 <= i <= s.len(),
    ensures
        i <= ident_end(s, i) <= s.len(),
        forall|k: int| i <= k < ident_end(s, i) ==> is_ident_cont(s[k]),
        ident_end(s, i) == s.len() || !is_ident_cont(s[ident_end(s, i)]),
    decreases s.len() - i,
{
    if i < s.len() && is_ident_cont(s[i]) {
        lemma_ident_end_props(s, i + 1);
    }
}

proof fn lemma_digits_val_nonneg(s: Seq<char>)
    requires
        forall|k: int| 0 <= k < s.len() ==> is_digit(s[k]),
    ensures
        digits_val(s) >= 0,
    decreases s.len(),
{
    if s.len() > 0 {
        lemma_digits_val_nonneg(s.drop_last());
    }
}

/// The value of a digit run is monotone in its length: appending digits
/// can only increase it.
proof fn lemma_digits_val_mono(s: Seq<char>, i: int, k: int, j: int)
    requires
        0 <= i <= k <= j <= s.len(),
        forall|m: int| i <= m < j ==> is_digit(s[m]),
    ensures
        digits_val(s.subrange(i, k)) <= digits_val(s.subrange(i, j)),
    decreases j - k,
{
    if k < j {
        assert(s.subrange(i, k + 1).drop_last() =~= s.subrange(i, k));
        assert(s.subrange(i, k + 1).last() == s[k]);
        assert(forall|m: int| 0 <= m < k - i ==> is_digit(s.subrange(i, k)[m]));
        lemma_digits_val_nonneg(s.subrange(i, k));
        lemma_digits_val_mono(s, i, k + 1, j);
    }
}

/// Whether the characters of `v` are exactly those of `s`.
fn vec_eq_str(v: &Vec<char>, s: &str) -> (r: bool)
    ensures
        r == (v@ == s@),
{
    let n: usize = s.unicode_len();
    if v.len() != n {
        return false;
    }
    let mut i: usize = 0;
    while i < n
        invariant
            i <= n,
            n == s@.len(),
            v@.len() == n,
            forall|k: int| 0 <= k < i ==> v@[k] == s@[k],
        decreases n - i,
    {
        if v[i] != s.get_char(i) {
            return false;
        }
        i += 1;
    }
    proof {
        assert(v@ =~= s@);
    }
    true
}

/// Classify an identifier run against the keyword table.
fn word_token_kind(word: &Vec<char>) -> (k: TokenKind)
    ensures
        k@ == word_kind(word@),
{
    if vec_eq_str(word, "return") {
        TokenKind::Return
    } else if vec_eq_str(word, "function") {
        TokenKind::Function
    } else if vec_eq_str(word, "int") {
        TokenKind::IntType
    } else if vec_eq_str(word, "var") {
        TokenKind::Var
    } else if vec_eq_str(word, "if") {
        TokenKind::If
    } else if vec_eq_str(word, "else") {
        TokenKind::Else
    } else if vec_eq_str(word, "while") {
        TokenKind::While
    } else if vec_eq_str(word, "break") {
        TokenKind::Break
    } else if vec_eq_str(word, "continue") {
        TokenKind::Continue
    } else {
        TokenKind::Identifier(chars_to_string(word))
    }
}

/// The lexer: the character sequence of the source and the cursor over it.
pub struct Lexer {
    pub input: Vec<char>,
    pub index: usize,
    pub line: usize,
    pub column: usize,
}

impl Lexer {
    /// The cursor as a mathematical state.
    pub open spec fn st(self) -> LexState {
        LexState { i: self.index as int, line: self.line as int, col: self.column as int }
    }

    /// Well-formedness: the cursor is within the input and the 1-based
    /// position cannot outrun the number of consumed characters.
    pub open spec fn wf(self) -> bool {
        &&& self.index <= self.input.len()
        &&& self.input.len() < usize::MAX
        &&& 1 <= self.line <= self.index + 1
        &&& 1 <= self.column <= self.index + 1
    }

    /// A lexer over the characters of `input`, at line 1, column 1.
    pub fn from(input: String) -> (l: Lexer)
        requires
            input@.len() < usize::MAX,
        ensures
            l.wf(),
            l.input@ == input@,
            l.st() == (LexState { i: 0, line: 1, col: 1 }),
    {
        let n: usize = input.as_str().unicode_len();
        let mut v: Vec<char> = Vec::new();
        let mut k: usize = 0;
        while k < n
            invariant
                k <= n,
                n == input@.len(),
                v@ == input@.subrange(0, k as int),
            decreases n - k,
        {
            v.push(input.as_str().get_char(k));
            proof {
                assert(v@ =~= input@.subrange(0, k + 1 as int));
            }
            k += 1;
        }
        proof {
            assert(v@ =~= input@);
        }
        Lexer { input: v, index: 0, line: 1, column: 1 }
    }

    /// The character `offset` places past the cursor, if any.
    fn peek_char(&self, offset: usize) -> (r: Option<char>)
        requires
            self.index + offset <= usize::MAX,
        ensures
            r == (if self.index + offset < self.input@.len() {
                Some(self.input@[self.index + offset])
            } else {
                None::<char>
            }),
    {
        if offset < self.input.len() && self.index < self.input.len() - offset {
            Some(self.input[self.index + offset])
        } else {
            None
        }
    }

    /// Consume one character, updating line and column.
    fn consume_char(&mut self) -> (r: Option<char>)
        requires
            old(self).wf(),
        ensures
            final(self).wf(),
            final(self).input == old(self).input,
            match r {
                Some(c) => {
                    &&& old(self).index < old(self).input@.len()
                    &&& c == old(self).input@[old(self).index as int]
                    &&& final(self).st() == step_state(old(self).input@, old(self).st())
                },
                None => {
                    &&& old(self).index == old(self).input@.len()
                    &&& *final(self) == *old(self)
                },
            },
    {
        if self.index < self.input.len() {
            let c = self.input[self.index];
            self.index = self.index + 1;
            if c == '\n' {
                self.line = self.line + 1;
                self.column = 1;
            } else {
                self.column = self.column + 1;
            }
            Some(c)
        } else {
            None
        }
    }

    /// Skip whitespace, reaching `skip_ws_state` of the starting state.
    fn skip_whitespace(&mut self)
        requires
            old(self).wf(),
        ensures
            final(self).wf(),
            final(self).input == old(self).input,
            final(self).st() == skip_ws_state(old(self).input@, old(self).st()),
            final(self).index == final(self).input@.len() || !is_ws(
                final(self).input@[final(self).index as int],
            ),
            old(self).index <= final(self).index,
    {
        loop
            invariant
                self.wf(),
                self.input == old(self).input,
                old(self).index <= self.index,
                skip_ws_state(self.input@, self.st()) == skip_ws_state(
                    old(self).input@,
                    old(self).st(),
                ),
            ensures
                self.wf(),
                self.input == old(self).input,
                old(self).index <= self.index,
                skip_ws_state(self.input@, self.st()) == skip_ws_state(
                    old(self).input@,
                    old(self).st(),
                ),
                self.index == self.input@.len() || !is_ws(self.input@[self.index as int]),
            decreases self.input@.len() - self.index,
        {
            match self.peek_char(0) {
                Some(c) => {
                    if is_ws_char(c) {
                        self.consume_char();
                    } else {
                        break;
                    }
                },
                None => {
                    break;
                },
            }
        }
    }

    /// Recognise an integer literal: the maximal digit run at the cursor.
    /// A letter immediately after the run, or a value above `i64::MAX`,
    /// is an `UnexpectedChar` error at the start of the literal.
    fn lex_number(&mut self) -> (r: Result<Token, LexerError>)
        requires
            old(self).wf(),
            old(self).index < old(self).input@.len(),
            is_digit(old(self).input@[old(self).index as int]),
        ensures
            final(self).wf(),
            final(self).input == old(self).input,
            ({
                let s = old(self).input@;
                let st = old(self).st();
                let j = digit_end(s, st.i);
                let run = s.subrange(st.i, j);
                if j < s.len() && is_alpha(s[j]) {
                    match r {
                        Ok(_) => false,
                        Err(err) => err@ == (LexerErrorV::UnexpectedChar {
                            character: s[j],
                            line: st.line,
                            column: st.col,
                        }),
                    }
                } else if digits_val(run) > i64::MAX {
                    match r {
                        Ok(_) => false,
                        Err(err) => err@ == (LexerErrorV::UnexpectedChar {
                            character: s[j - 1],
                            line: st.line,
                            column: st.col,
                        }),
                    }
                } else {
                    match r {
                        Ok(tok) => {
                            &&& tok@ == (TokenV {
                                kind: TokenKindV::IntLiteral(digits_val(run) as i64),
                                line: st.line,
                                column: st.col,
                            })
                            &&& final(self).st() == (LexState {
                                i: j,
                                line: st.line,
                                col: st.col + (j - st.i),
                            })
                            &&& st.i < j
                        },
                        Err(_) => false,
                    }
                }
            }),
            r is Err ==> !(r->Err_0 is EndOfInput),
    {
        let ghost s = self.input@;
        let start = self.index;
        let start_line = self.line;
        let start_col = self.column;
        proof {
            lemma_digit_end_props(s, start as int);
        }
        let ghost j = digit_end(s, start as int);
        // consume the maximal digit run, rejecting a letter right after it
        loop
            invariant
                self.wf(),
                self.input == old(self).input,
                s == self.input@,
                start as int <= self.index as int <= j,
                j == digit_end(s, start as int),
                j <= s.len(),
                forall|k: int| start <= k < j ==> is_digit(s[k]),
                j == s.len() || !is_digit(s[j as int]),
                self.line == start_line,
                self.column as int == start_col + (self.index - start),
                start_line == old(self).line,
                start_col == old(self).column,
                start == old(self).index,
            ensures
                self.wf(),
                self.input == old(self).input,
                self.index as int == j,
                self.line == start_line,
                self.column as int == start_col + (j - start),
                !(j < s.len() && is_alpha(s[j as int])),
            decreases s.len() - self.index,
        {
            match self.peek_char(0) {
                Some(c) => {
                    if '0' <= c && c <= '9' {
                        self.consume_char();
                    } else if c.is_alphabetic() {
                        proof {
                            assert(self.index as int == j);
                        }
                        return Err(
                            LexerError::UnexpectedChar {
                                character: c,
                                line: start_line,
                                column: start_col,
                            },
                        );
                    } else {
                        break;
                    }
                },
                None => {
                    break;
                },
            }
        }
        // compute the value of the run, watching for overflow
        let end = self.index;
        let mut val: i64 = 0;
        let mut k = start;
        while k < end
            invariant
                start <= k <= end,
                end as int == j,
                j == digit_end(s, start as int),
                0 <= start as int <= j <= s.len(),
                s == self.input@,
                self.wf(),
                self.input == old(self).input,
                self.index == end,
                self.line == start_line,
                self.column as int == start_col + (end - start),
                start == old(self).index,
                start_line == old(self).line,
                start_col == old(self).column,
                (start as int) < j,
                j == s.len() || !is_alpha(s[j]),
                forall|m: int| start <= m < j ==> is_digit(s[m]),
                0 <= val,
                val as int == digits_val(s.subrange(start as int, k as int)),
            decreases end - k,
        {
            let d = self.input[k];
            let dv: i64 = (d as u32 - '0' as u32) as i64;
            proof {
                assert(s.subrange(start as int, k + 1 as int).drop_last() =~= s.subrange(
                    start as int,
                    k as int,
                ));
                assert(s.subrange(start as int, k + 1 as int).last() == s[k as int]);
            }
            let next_val: i64 = match val.checked_mul(10) {
                Some(v) => match v.checked_add(dv) {
                    Some(v2) => v2,
                    None => {
                        proof {
                            lemma_digits_val_mono(s, start as int, k + 1, j);
                        }
                        return Err(
                            LexerError::UnexpectedChar {
                                character: self.input[end - 1],
                                line: start_line,
                                column: start_col,
                            },
                        );
                    },
                },
                None => {
                    proof {
                        lemma_digits_val_mono(s, start as int, k + 1, j);
                    }
                    return Err(
                        LexerError::UnexpectedChar {
                            character: self.input[end - 1],
                            line: start_line,
                            column: start_col,
                        },
                    );
                },
            };
            val = next_val;
            k += 1;
        }
        proof {
            assert(s.subrange(start as int, j) =~= s.subrange(start as int, end as int));
        }
        Ok(Token { kind: TokenKind::IntLiteral(val), line: start_line, column: start_col })
    }

    /// Recognise a keyword or identifier: the maximal run of letters,
    /// digits and underscores at the cursor.
    fn lex_word(&mut self) -> (r: Result<Token, LexerError>)
        requires
            old(self).wf(),
            old(self).index < old(self).input@.len(),
            is_ident_start(old(self).input@[old(self).index as int]),
        ensures
            final(self).wf(),
            final(self).input == old(self).input,
            ({
                let s = old(self).input@;
                let st = old(self).st();
                let j = ident_end(s, st.i);
                match r {
                    Ok(tok) => {
                        &&& tok@ == (TokenV {
                            kind: word_kind(s.subrange(st.i, j)),
                            line: st.line,
                            column: st.col,
                        })
                        &&& final(self).st() == (LexState {
                            i: j,
                            line: st.line,
                            col: st.col + (j - st.i),
                        })
                        &&& st.i < j
                    },
                    Err(_) => false,
                }
            }),
    {
        let ghost s = self.input@;
        let start = self.index;
        let start_line = self.line;
        let start_col = self.column;
        proof {
            lemma_ident_end_props(s, start as int);
        }
        let ghost j = ident_end(s, start as int);
        let mut word: Vec<char> = Vec::new();
        loop
            invariant
                self.wf(),
                self.input == old(self).input,
                s == self.input@,
                start as int <= self.index as int <= j,
                j == ident_end(s, start as int),
                j <= s.len(),
                forall|k: int| start <= k < j ==> is_ident_cont(s[k]),
                j == s.len() || !is_ident_cont(s[j as int]),
                word@ == s.subrange(start as int, self.index as int),
                self.line == start_line,
                self.column as int == start_col + (self.index - start),
                start_line == old(self).line,
                start_col == old(self).column,
                start == old(self).index,
            ensures
                self.wf(),
                self.input == old(self).input,
                self.index as int == j,
                self.line == start_line,
                self.column as int == start_col + (j - start),
                word@ == s.subrange(start as int, j),
            decreases s.len() - self.index,
        {
            match self.peek_char(0) {
                Some(c) => {
                    if c.is_alphabetic() || ('0' <= c && c <= '9') || c == '_' {
                        word.push(c);
                        self.consume_char();
                        proof {
                            assert(word@ =~= s.subrange(start as int, self.index as int));
                        }
                    } else {
                        break;
                    }
                },
                None => {
                    break;
                },
            }
        }
        let kind = word_token_kind(&word);
        Ok(Token { kind, line: start_line, column: start_col })
    }

    /// Recognise a symbol token: a two-character operator first, then a
    /// one-character token, otherwise an unknown-token error.
    fn lex_symbol(&mut self) -> (r: Result<Token, LexerError>)
        requires
            old(self).wf(),
            old(self).index < old(self).input@.len(),
        ensures
            final(self).wf(),
            final(self).input == old(self).input,
            ({
                let step = spec_symbol(old(self).input@, old(self).st());
                match step {
                    LexStep::Tok(t, st2) => match r {
                        Ok(tok) => tok@ == t && final(self).st() == st2 && old(self).st().i
                            < st2.i,
                        Err(_) => false,
                    },
                    LexStep::Fail(e) => match r {
                        Ok(_) => false,
                        Err(err) => err@ == e && !(err is EndOfInput),
                    },
                    LexStep::End => false,
                }
            }),
    {
        let c = self.input[self.index];
        let line = self.line;
        let column = self.column;
        if self.index + 1 < self.input.len() {
            let c2 = self.input[self.index + 1];
            let two: Option<TokenKind> = if c == '=' && c2 == '=' {
                Some(TokenKind::DoubleEqual)
            } else if c == '!' && c2 == '=' {
                Some(TokenKind::NotEqual)
            } else if c == '<' && c2 == '=' {
                Some(TokenKind::LessEqual)
            } else if c == '>' && c2 == '=' {
                Some(TokenKind::GreaterEqual)
            } else if c == '&' && c2 == '&' {
                Some(TokenKind::And)
            } else if c == '|' && c2 == '|' {
                Some(TokenKind::Or)
            } else {
                None
            };
            if let Some(kind) = two {
                self.consume_char();
                self.consume_char();
                return Ok(Token { kind, line, column });
            }
        }
        let one: Option<TokenKind> = if c == '(' {
            Some(TokenKind::LeftParentheses)
        } else if c == ')' {
            Some(TokenKind::RightParentheses)
        } else if c == '{' {
            Some(TokenKind::LeftBrace)
        } else if c == '}' {
            Some(TokenKind::RightBrace)
        } else if c == ';' {
            Some(TokenKind::Semicolon)
        } else if c == '+' {
            Some(TokenKind::Plus)
        } else if c == '-' {
            Some(TokenKind::Minus)
        } else if c == '*' {
            Some(TokenKind::Star)
        } else if c == '/' {
            Some(TokenKind::Slash)
        } else if c == '=' {
            Some(TokenKind::Equal)
        } else if c == ',' {
            Some(TokenKind::Comma)
        } else if c == '<' {
            Some(TokenKind::LessThan)
        } else if c == '>' {
            Some(TokenKind::GreaterThan)
        } else if c == '!' {
            Some(TokenKind::Not)
        } else {
            None
        };
        match one {
            Some(kind) => {
                self.consume_char();
                Ok(Token { kind, line, column })
            },
            None => Err(LexerError::UnknownToken { character: c, line, column }),
        }
    }

    /// The next token, or `EndOfInput` at the end of the source, or the
    /// first lexical error. The result and the new cursor are exactly
    /// those of `spec_next` at the old cursor.
    pub fn next_token(&mut self) -> (r: Result<Token, LexerError>)
        requires
            old(self).wf(),
        ensures
            final(self).wf(),
            final(self).input == old(self).input,
            ({
                let step = spec_next(old(self).input@, old(self).st());
                match step {
                    LexStep::Tok(t, st2) => match r {
                        Ok(tok) => {
                            &&& tok@ == t
                            &&& final(self).st() == st2
                            &&& old(self).st().i < st2.i <= old(self).input@.len()
                        },
                        Err(_) => false,
                    },
                    LexStep::End => r == Err::<Token, LexerError>(LexerError::EndOfInput)
                        && final(self).index == final(self).input@.len(),
                    LexStep::Fail(e) => match r {
                        Ok(_) => false,
                        Err(err) => err@ == e && !(err is EndOfInput),
                    },
                }
            }),
    {
        self.skip_whitespace();
        if self.index >= self.input.len() {
            return Err(LexerError::EndOfInput);
        }
        let c = self.input[self.index];
        if '0' <= c && c <= '9' {
            self.lex_number()
        } else if c.is_alphabetic() || c == '_' {
            self.lex_word()
        } else {
            self.lex_symbol()
        }
    }

    /// The whole token sequence of the input, or the first lexical error;
    /// `EndOfInput` terminates the loop normally. The result is exactly
    /// `spec_tokenize` at the old cursor.
    pub fn tokenize(&mut self) -> (r: Result<Vec<Token>, LexerError>)
        requires
            old(self).wf(),
        ensures
            final(self).wf(),
            final(self).input == old(self).input,
            ({
                let m = spec_tokenize(old(self).input@, old(self).st());
                match r {
                    Ok(ts) => m == Ok::<Seq<TokenV>, LexerErrorV>(tokens_view(ts@)),
                    Err(e) => m == Err::<Seq<TokenV>, LexerErrorV>(e@),
                }
            }),
    {
        let ghost st0 = self.st();
        let ghost s = self.input@;
        let mut tokens: Vec<Token> = Vec::new();
        proof {
            let m = spec_tokenize(s, st0);
            if m is Ok {
                assert(Seq::<TokenV>::empty() + m->Ok_0 =~= m->Ok_0);
            }
            assert(tokens_view(tokens@) =~= Seq::<TokenV>::empty());
        }
        loop
            invariant
                self.wf(),
                self.input == old(self).input,
                s == self.input@,
                st0 == old(self).st(),
                prepend_tokens(tokens_view(tokens@), spec_tokenize(s, self.st()))
                    == spec_tokenize(s, st0),
            decreases s.len() - self.index,
        {
            let ghost pre_st = self.st();
            let ghost pre_tokens = tokens@;
            match self.next_token() {
                Ok(token) => {
                    proof {
                        let step = spec_next(s, pre_st);
                        assert(step is Tok);
                        let t = step->Tok_0;
                        let st2 = step->Tok_1;
                        assert(spec_tokenize(s, pre_st) == prepend_tokens(
                            seq![t],
                            spec_tokenize(s, st2),
                        ));
                    }
                    tokens.push(token);
                    proof {
                        let step = spec_next(s, pre_st);
                        let t = step->Tok_0;
                        let st2 = step->Tok_1;
                        assert(tokens_view(tokens@) =~= tokens_view(pre_tokens) + seq![t]);
                        let m2 = spec_tokenize(s, st2);
                        if m2 is Ok {
                            assert((tokens_view(pre_tokens) + seq![t]) + m2->Ok_0 =~= tokens_view(
                                pre_tokens,
                            ) + (seq![t] + m2->Ok_0));
                        }
                    }
                },
                Err(error) => {
                    match error {
                        LexerError::EndOfInput => {
                            proof {
                                assert(spec_next(s, pre_st) is End);
                                assert(tokens_view(tokens@) + Seq::<TokenV>::empty()
                                    =~= tokens_view(tokens@));
                            }
                            return Ok(tokens);
                        },
                        _ => {
                            proof {
                                assert(spec_next(s, pre_st) is Fail);
                            }
                            return Err(error);
                        },
                    }
                },
            }
        }
    }
}

/// `r` with `pre` prepended to its token sequence on success.
pub open spec fn prepend_tokens(pre: Seq<TokenV>, r: Result<Seq<TokenV>, LexerErrorV>) -> Result<
    Seq<TokenV>,
    LexerErrorV,
> {
    match r {
        Ok(ts) => Ok(pre + ts),
        Err(e) => Err(e),
    }
}

proof fn lemma_dec_digits_are_digits(n: int)
    requires
        0 <= n,
    ensures
        dec_digits(n).len() >= 1,
        forall|k: int| 0 <= k < dec_digits(n).len() ==> is_digit(#[trigger] dec_digits(n)[k]),
    decreases n,
{
    if n < 10 {
        assert(is_digit(digit_char(n)));
    } else {
        lemma_dec_digits_are_digits(n / 10);
        assert(is_digit(digit_char(n % 10)));
    }
}

proof fn lemma_digits_val_dec_digits(n: int)
    requires
        0 <= n,
    ensures
        digits_val(dec_digits(n)) == n,
    decreases n,
{
    if n < 10 {
        assert(dec_digits(n) == seq![digit_char(n)]);
        assert(seq![digit_char(n)].drop_last() =~= Seq::<char>::empty());
        assert(seq![digit_char(n)].last() == digit_char(n));
        assert(digits_val(Seq::<char>::empty()) == 0);
        assert(digits_val(seq![digit_char(n)]) == digit_val(digit_char(n)));
        assert(digit_val(digit_char(n)) == n);
    } else {
        lemma_digits_val_dec_digits(n / 10);
        let t = dec_digits(n / 10);
        let c = digit_char(n % 10);
        assert(t.push(c).drop_last() =~= t);
        assert(t.push(c).last() == c);
        assert(digits_val(t.push(c)) == digits_val(t) * 10 + digit_val(c));
        assert(digit_val(c) == n % 10);
        assert((n / 10) * 10 + n % 10 == n);
    }
}

/// For every valid integer literal, tokenizing its decimal rendering
/// yields exactly one `IntLiteral` token with that value, at line 1,
/// column 1.
pub proof fn lemma_tokenize_int_literal(n: i64)
    requires
        0 <= n,
    ensures
        spec_tokenize(dec_digits(n as int), LexState { i: 0, line: 1, col: 1 }) == Ok::<
            Seq<TokenV>,
            LexerErrorV,
        >(seq![TokenV { kind: TokenKindV::IntLiteral(n), line: 1, column: 1 }]),
{
    let s = dec_digits(n as int);
    let st0 = LexState { i: 0, line: 1, col: 1 };
    lemma_dec_digits_are_digits(n as int);
    lemma_digits_val_dec_digits(n as int);
    assert(!is_ws(s[0]));
    assert(skip_ws_state(s, st0) == st0);
    lemma_digit_end_props(s, 0);
    let j = digit_end(s, 0);
    if j < s.len() {
        assert(is_digit(s[j]));
        assert(false);
    }
    assert(j == s.len());
    assert(s.subrange(0, j) =~= s);
    assert(digits_val(s) == n);
    let t = TokenV { kind: TokenKindV::IntLiteral(n), line: 1, column: 1 };
    let st1 = LexState { i: s.len() as int, line: 1, col: 1 + s.len() as int };
    assert(spec_next(s, st0) == LexStep::Tok(t, st1));
    assert(skip_ws_state(s, st1) == st1);
    assert(spec_next(s, st1) is End);
    assert(spec_tokenize(s, st1) == Ok::<Seq<TokenV>, LexerErrorV>(Seq::empty()));
    assert(seq![t] + Seq::<TokenV>::empty() =~= seq![t]);
}

/// A digit immediately followed by a letter is not a token boundary:
/// tokenizing the two-character text fails with `UnexpectedChar` naming
/// the letter, at line 1, column 1. No letter is a decimal digit, but
/// the letter class is known only through `char::is_alphabetic`, so that
/// disjointness stands as a hypothesis.
pub proof fn lemma_digit_then_letter(c1: char, c2: char)
    ensures
        is_digit(c1) && is_alpha(c2) && !is_digit(c2) ==> spec_tokenize(
            seq![c1, c2],
            LexState { i: 0, line: 1, col: 1 },
        ) == Err::<Seq<TokenV>, LexerErrorV>(
            LexerErrorV::UnexpectedChar { character: c2, line: 1, column: 1 },
        ),
{
    if is_digit(c1) && is_alpha(c2) && !is_digit(c2) {
        let s = seq![c1, c2];
        let st0 = LexState { i: 0, line: 1, col: 1 };
        assert(!is_ws(c1));
        assert(skip_ws_state(s, st0) == st0);
        assert(!is_digit(c2));
        assert(digit_end(s, 2) == 2);
        assert(digit_end(s, 1) == 1);
        assert(digit_end(s, 0) == 1);
        assert(spec_next(s, st0) == LexStep::Fail(
            LexerErrorV::UnexpectedChar { character: c2, line: 1, column: 1 },
        ));
    }
}

/// A single character that is no whitespace, no digit, no identifier
/// start and no token fails with `UnknownToken` at line 1, column 1.
pub proof fn lemma_unknown_symbol(c: char)
    ensures
        !is_ws(c) && !is_digit(c) && !is_ident_start(c) && one_char_kind(c) is None
            ==> spec_tokenize(seq![c], LexState { i: 0, line: 1, col: 1 }) == Err::<
            Seq<TokenV>,
            LexerErrorV,
        >(LexerErrorV::UnknownToken { character: c, line: 1, column: 1 }),
{
    if !is_ws(c) && !is_digit(c) && !is_ident_start(c) && one_char_kind(c) is None {
        let s = seq![c];
        let st0 = LexState { i: 0, line: 1, col: 1 };
        assert(skip_ws_state(s, st0) == st0);
        assert(spec_symbol(s, st0) == LexStep::Fail(
            LexerErrorV::UnknownToken { character: c, line: 1, column: 1 },
        ));
    }
}

} // verus!
