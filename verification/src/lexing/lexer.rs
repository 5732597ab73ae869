//! The lexer: turns source text into tokens.
//!
//! The lexer walks the UTF-8 bytes of the source one byte at a time and reads the
//! character that starts at the current byte, if one does. A byte inside a
//! multi-byte character starts none, which the lexer sees as the end of its input.
use crate::lexing::chars::{
    alphabetic_char, alphanumeric_char, is_alphabetic, is_alphanumeric, is_numeric, numeric_char,
};
use crate::lexing::lexing::{tokens_view, Token, TokenType, TokenV};
use crate::utils::location::Location;
use crate::utils::text::{
    chars_of, concat, concat3, debug_quoted, debug_text, dec, str_eq, string_from_chars,
    usize_to_string,
};
use vstd::prelude::*;
use vstd::string::*;
use vstd::utf8::*;

verus! {

// ------------------------------------------------------------------------------------------
// The source as bytes
// ------------------------------------------------------------------------------------------

/// The number of bytes of the UTF-8 encoding of `c`.
pub open spec fn utf8_width(c: char) -> nat {
    if (c as u32) < 0x80 {
        1
    } else if (c as u32) < 0x800 {
        2
    } else if (c as u32) < 0x10000 {
        3
    } else {
        4
    }
}

/// What each byte of the encoding of `c` starts: the first starts `c`, the others nothing.
pub open spec fn char_cells(c: char) -> Seq<Option<char>> {
    seq![Some(c)] + Seq::new((utf8_width(c) - 1) as nat, |i: int| None::<char>)
}

/// For each byte of the UTF-8 encoding of `s`, the character that starts there, if any.
pub open spec fn byte_table(s: Seq<char>) -> Seq<Option<char>>
    decreases s.len(),
{
    if s.len() == 0 {
        Seq::empty()
    } else {
        char_cells(s[0]) + byte_table(s.drop_first())
    }
}

/// The character that starts at byte `b`, if any: what `source.get(b..)` followed by
/// `chars().next()` gives.
pub open spec fn char_at(t: Seq<Option<char>>, b: int) -> Option<char> {
    if 0 <= b < t.len() {
        t[b]
    } else {
        None
    }
}

/// A place in the source: the byte position, the line and the column.
pub type Cursor = (int, int, int);

/// The place after one step forward: a newline starts a new line, another character
/// moves one column on, and past the characters only the byte position moves.
pub open spec fn step(t: Seq<Option<char>>, c: Cursor) -> Cursor {
    match char_at(t, c.0) {
        Some(ch) => if ch == '\n' {
            (c.0 + 1, c.1 + 1, 0)
        } else {
            (c.0 + 1, c.1, c.2 + 1)
        },
        None => (c.0 + 1, c.1, c.2),
    }
}

/// The place after `n` steps forward.
pub open spec fn steps(t: Seq<Option<char>>, c: Cursor, n: nat) -> Cursor
    decreases n,
{
    if n == 0 {
        c
    } else {
        steps(t, step(t, c), (n - 1) as nat)
    }
}

/// The kinds of characters that the lexer reads in runs.
pub enum RunKind {
    /// Numeric characters, for numbers.
    Numeric,
    /// Alphanumeric characters and underscores, for words.
    Word,
    /// Anything but a double quote, for strings.
    NotQuote,
    /// Anything but a newline, for line comments.
    NotNewline,
}

/// Whether a run of kind `k` takes the character `ch`.
pub open spec fn accepts(k: RunKind, ch: char) -> bool {
    match k {
        RunKind::Numeric => numeric_char(ch),
        RunKind::Word => alphanumeric_char(ch) || ch == '_',
        RunKind::NotQuote => ch != '"',
        RunKind::NotNewline => ch != '\n',
    }
}

/// The characters read one byte apart from byte `p` on for as long as a run of kind
/// `k` takes them.
pub open spec fn run(t: Seq<Option<char>>, p: int, k: RunKind) -> Seq<char>
    decreases t.len() - p,
{
    if 0 <= p < t.len() && t[p] is Some && accepts(k, t[p]->0) {
        seq![t[p]->0] + run(t, p + 1, k)
    } else {
        Seq::empty()
    }
}

/// The value of a location at place `c` in the file named `f`.
pub open spec fn loc(c: Cursor, f: Seq<char>) -> (usize, usize, Seq<char>) {
    (c.1 as usize, c.2 as usize, f)
}

// ------------------------------------------------------------------------------------------
// Errors
// ------------------------------------------------------------------------------------------

/// Why lexing stopped.
#[derive(Debug)]
pub enum LexError {
    UnexpectedEof { context: String, location: Location },
    UnknownEscapeSequence { ch: char, location: Location },
    UnterminatedCharLiteral { location: Location },
    UnterminatedComment { location: Location },
}

/// The value of a lexing error.
pub enum LexErrorV {
    UnexpectedEof { context: Seq<char>, location: (usize, usize, Seq<char>) },
    UnknownEscapeSequence { ch: char, location: (usize, usize, Seq<char>) },
    UnterminatedCharLiteral { location: (usize, usize, Seq<char>) },
    UnterminatedComment { location: (usize, usize, Seq<char>) },
}

impl LexError {
    pub open spec fn view(&self) -> LexErrorV {
        match self {
            LexError::UnexpectedEof { context, location } => LexErrorV::UnexpectedEof {
                context: context@,
                location: location.view(),
            },
            LexError::UnknownEscapeSequence { ch, location } => LexErrorV::UnknownEscapeSequence {
                ch: *ch,
                location: location.view(),
            },
            LexError::UnterminatedCharLiteral { location } => LexErrorV::UnterminatedCharLiteral {
                location: location.view(),
            },
            LexError::UnterminatedComment { location } => LexErrorV::UnterminatedComment {
                location: location.view(),
            },
        }
    }

    /// How the error is written in messages.
    pub fn to_text(&self) -> (res: String)
        ensures
            res@ == lex_error_text(self.view()),
    {
        match self {
            LexError::UnexpectedEof { context, location } => {
                let l = location_debug(location);
                let a = concat3("Unexpected EOF while lexing ", context.as_str(), " at ");
                concat(a.as_str(), l.as_str())
            },
            LexError::UnknownEscapeSequence { ch, location } => {
                let l = location_debug(location);
                let mut v: Vec<char> = Vec::new();
                v.push(*ch);
                let c = string_from_chars(&v);
                let a = concat3("Unknown escape sequence '\\", c.as_str(), "' at ");
                concat(a.as_str(), l.as_str())
            },
            LexError::UnterminatedCharLiteral { location } => {
                let l = location_debug(location);
                concat("Unterminated character literal at ", l.as_str())
            },
            LexError::UnterminatedComment { location } => {
                let l = location_debug(location);
                concat("Unterminated multi-line comment at ", l.as_str())
            },
        }
    }
}

/// How `{:?}` writes a location: its fields by name, the file's name quoted.
pub open spec fn location_debug_text(v: (usize, usize, Seq<char>)) -> Seq<char> {
    "Location { line: "@ + dec(v.0 as nat) + ", col: "@ + dec(v.1 as nat) + ", file: "@ + debug_text(v.2)
        + " }"@
}

/// How `{:?}` writes a location.
pub fn location_debug(l: &Location) -> (res: String)
    ensures
        res@ == location_debug_text(l.view()),
{
    let line = usize_to_string(l.line);
    let col = usize_to_string(l.col);
    let file = debug_quoted(l.file.as_str());
    let a = concat3("Location { line: ", line.as_str(), ", col: ");
    let b = concat3(a.as_str(), col.as_str(), ", file: ");
    concat3(b.as_str(), file.as_str(), " }")
}

/// How a lexing error is written in messages.
pub open spec fn lex_error_text(e: LexErrorV) -> Seq<char> {
    match e {
        LexErrorV::UnexpectedEof { context, location } => "Unexpected EOF while lexing "@ + context + " at "@
            + location_debug_text(location),
        LexErrorV::UnknownEscapeSequence { ch, location } => "Unknown escape sequence '\\"@ + seq![ch]
            + "' at "@ + location_debug_text(location),
        LexErrorV::UnterminatedCharLiteral { location } => "Unterminated character literal at "@
            + location_debug_text(location),
        LexErrorV::UnterminatedComment { location } => "Unterminated multi-line comment at "@
            + location_debug_text(location),
    }
}

// ------------------------------------------------------------------------------------------
// What each token rule reads
// ------------------------------------------------------------------------------------------

/// The outcome of one lexing rule at a place: the token read, if any; the error met, if
/// any; and the place where the rule stops.
pub type Outcome = (Option<TokenV>, Option<LexErrorV>, Cursor);

/// The kind of a word: a keyword's own kind, else an identifier.
pub open spec fn word_type(w: Seq<char>) -> TokenType {
    if w == "var"@ {
        TokenType::VarKeyword
    } else if w == "if"@ {
        TokenType::IfKeyword
    } else if w == "else"@ {
        TokenType::ElseKeyword
    } else if w == "while"@ {
        TokenType::WhileKeyword
    } else if w == "fn"@ {
        TokenType::FnKeyword
    } else if w == "pub"@ {
        TokenType::PubKeyword
    } else if w == "use"@ {
        TokenType::UseKeyword
    } else if w == "for"@ {
        TokenType::ForKeyword
    } else if w == "return"@ {
        TokenType::ReturnKeyword
    } else if w == "extern"@ {
        TokenType::ExternKeyword
    } else if w == "true"@ {
        TokenType::True
    } else if w == "false"@ {
        TokenType::False
    } else if w == "struct"@ {
        TokenType::StructKeyword
    } else if w == "sizeof"@ {
        TokenType::SizeOfKeyword
    } else {
        TokenType::Identifier
    }
}

/// A number: the longest run of numeric characters.
pub open spec fn numeric_rule(t: Seq<Option<char>>, f: Seq<char>, c: Cursor) -> Outcome {
    let r = run(t, c.0, RunKind::Numeric);
    (Some((TokenType::IntLiteral, loc(c, f), r)), None, steps(t, c, r.len()))
}

/// A word: the longest run of alphanumeric characters and underscores, a keyword or an identifier.
pub open spec fn word_rule(t: Seq<Option<char>>, f: Seq<char>, c: Cursor) -> Outcome {
    let r = run(t, c.0, RunKind::Word);
    (Some((word_type(r), loc(c, f), r)), None, steps(t, c, r.len()))
}

/// A string: after the opening quote, the longest run without a quote, then the closing
/// quote if there is one. An unterminated string runs to the end of the input.
pub open spec fn string_rule(t: Seq<Option<char>>, f: Seq<char>, c: Cursor) -> Outcome {
    let r = run(t, c.0 + 1, RunKind::NotQuote);
    let after = steps(t, c, 1 + r.len());
    let end = if char_at(t, after.0) == Some('"') {
        step(t, after)
    } else {
        after
    };
    (Some((TokenType::StringLiteral, loc(c, f), r)), None, end)
}

/// A sign of one character, or of two when the next character is `second`.
pub open spec fn pair_rule(
    t: Seq<Option<char>>,
    f: Seq<char>,
    c: Cursor,
    second: char,
    one: TokenType,
    two: TokenType,
    context: Seq<char>,
) -> Outcome {
    match char_at(t, c.0) {
        None => (None, Some(LexErrorV::UnexpectedEof { context, location: loc(c, f) }), c),
        Some(cur) => if char_at(t, c.0 + 1) == Some(second) {
            (Some((two, loc(c, f), seq![cur, second])), None, steps(t, c, 2))
        } else {
            (Some((one, loc(c, f), seq![cur])), None, step(t, c))
        },
    }
}

/// A sign of one character.
pub open spec fn single_rule(t: Seq<Option<char>>, f: Seq<char>, c: Cursor, ttype: TokenType) -> Outcome {
    match char_at(t, c.0) {
        None => (
            None,
            Some(
                LexErrorV::UnexpectedEof { context: "single char token"@, location: loc(c, f) },
            ),
            c,
        ),
        Some(ch) => (Some((ttype, loc(c, f), seq![ch])), None, step(t, c)),
    }
}

/// Where the scan of a multi-line comment from byte `q` stops: at the quote of the
/// closing `'//`, or at the first byte that starts no character.
pub open spec fn comment_stop(t: Seq<Option<char>>, q: int) -> int
    decreases t.len() - q,
{
    if !(0 <= q < t.len()) || t[q] is None {
        q
    } else if t[q] == Some('\'') && char_at(t, q + 1) == Some('/') && char_at(t, q + 2) == Some(
        '/',
    ) {
        q
    } else {
        comment_stop(t, q + 1)
    }
}

/// A slash: `//'` opens a comment closed by `'//`, `//` opens a comment that runs to the
/// end of the line (the newline stays), and a lone `/` is the division sign.
pub open spec fn slash_rule(t: Seq<Option<char>>, f: Seq<char>, c: Cursor) -> Outcome {
    match char_at(t, c.0) {
        None => (None, Some(LexErrorV::UnexpectedEof { context: "'/'"@, location: loc(c, f) }), c),
        Some(cur) => if char_at(t, c.0 + 1) == Some('/') {
            if char_at(t, c.0 + 2) == Some('\'') {
                let stop = comment_stop(t, c.0 + 3);
                let at_stop = steps(t, c, (stop - c.0) as nat);
                if char_at(t, stop) is None {
                    (None, Some(LexErrorV::UnterminatedComment { location: loc(at_stop, f) }), at_stop)
                } else {
                    (None, None, steps(t, at_stop, 3))
                }
            } else {
                let r = run(t, c.0 + 2, RunKind::NotNewline);
                (None, None, steps(t, c, 2 + r.len()))
            }
        } else {
            (Some((TokenType::Divide, loc(c, f), seq![cur])), None, step(t, c))
        },
    }
}

/// The character that an escape letter stands for, if it is one.
pub open spec fn escaped(e: char) -> Option<char> {
    if e == 'n' {
        Some('\n')
    } else if e == 't' {
        Some('\t')
    } else if e == 'r' {
        Some('\r')
    } else if e == '\\' {
        Some('\\')
    } else if e == '\'' {
        Some('\'')
    } else if e == '0' {
        Some('\0')
    } else {
        None
    }
}

/// A character literal: a quote, a character or a backslash escape, a closing quote.
pub open spec fn char_rule(t: Seq<Option<char>>, f: Seq<char>, c: Cursor) -> Outcome {
    let l = loc(c, f);
    let c1 = step(t, c);
    let c2 = step(t, c1);
    match char_at(t, c1.0) {
        None => (None, Some(LexErrorV::UnexpectedEof { context: "character literal"@, location: l }), c2),
        Some(first) => {
            let (value, after): (Option<char>, Cursor) = if first == '\\' {
                (
                    match char_at(t, c2.0) {
                        Some(e) => escaped(e),
                        None => None,
                    },
                    step(t, c2),
                )
            } else {
                (Some(first), c2)
            };
            if first == '\\' && value is None {
                match char_at(t, c2.0) {
                    Some(e) => (None, Some(LexErrorV::UnknownEscapeSequence { ch: e, location: l }), after),
                    None => (None, Some(LexErrorV::UnexpectedEof { context: "escape sequence"@, location: l }), after),
                }
            } else if char_at(t, after.0) != Some('\'') {
                (None, Some(LexErrorV::UnterminatedCharLiteral { location: l }), after)
            } else {
                (Some((TokenType::CharLiteral, l, seq![value->0])), None, step(t, after))
            }
        },
    }
}

/// A character literal written with an escape, wherever it stands in any text, reads as
/// one character-literal token holding the one character the escape names: `\n` the
/// newline (code 10), `\t` the tab (9), `\r` the carriage return (13), `\0` the null
/// character (0), `\\` the backslash (92), `\'` the quote (39).
pub proof fn law_escaped_char_literal(t: Seq<Option<char>>, f: Seq<char>, c: Cursor, e: char)
    requires
        char_at(t, c.0 + 1) == Some('\\'),
        char_at(t, c.0 + 2) == Some(e),
        char_at(t, c.0 + 3) == Some('\''),
        e == 'n' || e == 't' || e == 'r' || e == '0' || e == '\\' || e == '\'',
    ensures
        char_rule(t, f, c).1 is None,
        char_rule(t, f, c).0 matches Some(tok) && tok.0 == TokenType::CharLiteral && tok.2.len() == 1 && tok.2[0]
            as u32 == (if e == 'n' {
            10u32
        } else if e == 't' {
            9u32
        } else if e == 'r' {
            13u32
        } else if e == '0' {
            0u32
        } else if e == '\\' {
            92u32
        } else {
            39u32
        }),
{
}

/// A character literal of one character other than a backslash, wherever it stands in
/// any text, reads as one character-literal token holding that very character.
pub proof fn law_plain_char_literal(t: Seq<Option<char>>, f: Seq<char>, c: Cursor, x: char)
    requires
        char_at(t, c.0 + 1) == Some(x),
        x != '\\',
        char_at(t, c.0 + 2) == Some('\''),
    ensures
        char_rule(t, f, c) == (
            Some((TokenType::CharLiteral, loc(c, f), seq![x])),
            None::<LexErrorV>,
            step(t, step(t, step(t, c))),
        ),
{
}

/// The rule that the character `ch` at place `c` selects, and what it reads; a
/// character that selects no rule is skipped.
pub open spec fn rule_at(t: Seq<Option<char>>, f: Seq<char>, c: Cursor, ch: char) -> Outcome {
    if numeric_char(ch) {
        numeric_rule(t, f, c)
    } else if alphabetic_char(ch) {
        word_rule(t, f, c)
    } else if ch == '=' {
        pair_rule(t, f, c, '=', TokenType::Assign, TokenType::Equals, "'='"@)
    } else if ch == '"' {
        string_rule(t, f, c)
    } else if ch == '\'' {
        char_rule(t, f, c)
    } else if ch == '!' {
        pair_rule(t, f, c, '=', TokenType::Not, TokenType::NotEquals, "'!'"@)
    } else if ch == '>' {
        pair_rule(t, f, c, '=', TokenType::GreaterThan, TokenType::GreaterThanEquals, "'>'"@)
    } else if ch == '<' {
        pair_rule(t, f, c, '=', TokenType::LessThan, TokenType::LessThanEquals, "'<'"@)
    } else if ch == '.' {
        single_rule(t, f, c, TokenType::Period)
    } else if ch == '&' {
        single_rule(t, f, c, TokenType::Ampersand)
    } else if ch == '^' {
        single_rule(t, f, c, TokenType::Star)
    } else if ch == ':' {
        pair_rule(t, f, c, ':', TokenType::Colon, TokenType::DoubleColon, "':'"@)
    } else if ch == ';' {
        single_rule(t, f, c, TokenType::SemiColon)
    } else if ch == '(' {
        single_rule(t, f, c, TokenType::LParen)
    } else if ch == ')' {
        single_rule(t, f, c, TokenType::RParen)
    } else if ch == '{' {
        single_rule(t, f, c, TokenType::LBrace)
    } else if ch == '}' {
        single_rule(t, f, c, TokenType::RBrace)
    } else if ch == ',' {
        single_rule(t, f, c, TokenType::Comma)
    } else if ch == '[' {
        single_rule(t, f, c, TokenType::LBracket)
    } else if ch == ']' {
        single_rule(t, f, c, TokenType::RBracket)
    } else if ch == '+' {
        single_rule(t, f, c, TokenType::Add)
    } else if ch == '-' {
        single_rule(t, f, c, TokenType::Minus)
    } else if ch == '*' {
        single_rule(t, f, c, TokenType::Multiply)
    } else if ch == '/' {
        slash_rule(t, f, c)
    } else if ch == '%' {
        single_rule(t, f, c, TokenType::Modulo)
    } else {
        (None, None, step(t, c))
    }
}

/// The token of an outcome, as a sequence of zero or one tokens.
pub open spec fn token_seq(o: Option<TokenV>) -> Seq<TokenV> {
    match o {
        Some(tk) => seq![tk],
        None => Seq::empty(),
    }
}

/// Lexing from place `c` on: the tokens read, the error that stopped lexing (if any),
/// and the place where lexing stopped. Lexing ends at the first byte that starts no
/// character; every rule moves forward (a rule that reaches the end of the input ends it).
pub open spec fn lex_from(t: Seq<Option<char>>, f: Seq<char>, c: Cursor) -> (Seq<TokenV>, Option<LexErrorV>, Cursor)
    decreases t.len() - c.0,
{
    match char_at(t, c.0) {
        None => (Seq::empty(), None, c),
        Some(ch) => {
            let o = rule_at(t, f, c, ch);
            if o.1 is Some {
                (Seq::empty(), o.1, o.2)
            } else if c.0 < o.2.0 < t.len() {
                let rest = lex_from(t, f, o.2);
                (token_seq(o.0) + rest.0, rest.1, rest.2)
            } else {
                (token_seq(o.0), None, o.2)
            }
        },
    }
}

} // verus!

verus! {

// ------------------------------------------------------------------------------------------
// Facts about the model
// ------------------------------------------------------------------------------------------

/// Each step moves one byte forward.
pub proof fn lemma_steps_pos(t: Seq<Option<char>>, c: Cursor, n: nat)
    requires
        c.2 >= 0,
    ensures
        steps(t, c, n).0 == c.0 + n,
        steps(t, c, n).1 >= c.1,
        steps(t, c, n).1 <= c.1 + n,
        0 <= steps(t, c, n).2 <= c.2 + n,
    decreases n,
{
    if n > 0 {
        lemma_steps_pos(t, step(t, c), (n - 1) as nat);
    }
}

/// Taking `n + 1` steps is taking `n` steps, then one more.
pub proof fn lemma_steps_last(t: Seq<Option<char>>, c: Cursor, n: nat)
    ensures
        steps(t, c, n + 1) == step(t, steps(t, c, n)),
    decreases n,
{
    assert(steps(t, c, n + 1) == steps(t, step(t, c), n));
    if n > 0 {
        lemma_steps_last(t, step(t, c), (n - 1) as nat);
    }
}

/// Taking `a + b` steps is taking `a` steps, then `b`.
pub proof fn lemma_steps_add(t: Seq<Option<char>>, c: Cursor, a: nat, b: nat)
    ensures
        steps(t, c, a + b) == steps(t, steps(t, c, a), b),
    decreases a,
{
    if a > 0 {
        lemma_steps_add(t, step(t, c), (a - 1) as nat, b);
    }
}

/// The bytes of `a + b` are those of `a`, then those of `b`.
pub proof fn lemma_byte_table_concat(a: Seq<char>, b: Seq<char>)
    ensures
        byte_table(a + b) == byte_table(a) + byte_table(b),
    decreases a.len(),
{
    if a.len() == 0 {
        assert(a + b =~= b);
    } else {
        assert((a + b).drop_first() =~= a.drop_first() + b);
        lemma_byte_table_concat(a.drop_first(), b);
        assert(byte_table(a + b) =~= byte_table(a) + byte_table(b));
    }
}

/// The byte table has one entry per byte of the UTF-8 encoding.
pub proof fn lemma_byte_table_len(s: Seq<char>)
    ensures
        byte_table(s).len() == encode_utf8(s).len(),
    decreases s.len(),
{
    if s.len() > 0 {
        lemma_byte_table_len(s.drop_first());
        let c = s[0];
        char_is_scalar(c);
        assert(char_cells(c).len() == encode_scalar(c as u32).len());
    }
}

/// A run reads one character per byte, each starting a character and taken by the run.
pub proof fn lemma_run(t: Seq<Option<char>>, p: int, k: RunKind)
    ensures
        p + run(t, p, k).len() <= t.len() || run(t, p, k).len() == 0,
        forall|i: int|
            0 <= i < run(t, p, k).len() ==> char_at(t, p + i) == Some(#[trigger] run(t, p, k)[i])
                && accepts(k, run(t, p, k)[i]),
    decreases t.len() - p,
{
    if 0 <= p < t.len() && t[p] is Some && accepts(k, t[p]->0) {
        lemma_run(t, p + 1, k);
        let r = run(t, p, k);
        assert forall|i: int| 0 <= i < r.len() implies char_at(t, p + i) == Some(#[trigger] r[i])
            && accepts(k, r[i]) by {
            if i > 0 {
                assert(r[i] == run(t, p + 1, k)[i - 1]);
            }
        }
    }
}

// ------------------------------------------------------------------------------------------
// The lexer
// ------------------------------------------------------------------------------------------

/// Whether a run of kind `k` takes the character `ch`.
fn takes(k: &RunKind, ch: char) -> (res: bool)
    ensures
        res == accepts(*k, ch),
{
    match k {
        RunKind::Numeric => is_numeric(ch),
        RunKind::Word => is_alphanumeric(ch) || ch == '_',
        RunKind::NotQuote => ch != '"',
        RunKind::NotNewline => ch != '\n',
    }
}

/// The scan of a comment never stops before it starts.
pub proof fn lemma_comment_stop(t: Seq<Option<char>>, q: int)
    ensures
        comment_stop(t, q) >= q,
    decreases t.len() - q,
{
    if 0 <= q < t.len() && t[q] is Some && !(t[q] == Some('\'') && char_at(t, q + 1) == Some('/')
        && char_at(t, q + 2) == Some('/')) {
        lemma_comment_stop(t, q + 1);
    }
}

/// Every rule that does not fail moves forward.
pub proof fn lemma_rule_progress(t: Seq<Option<char>>, f: Seq<char>, c: Cursor, ch: char)
    requires
        char_at(t, c.0) == Some(ch),
        c.2 >= 0,
    ensures
        rule_at(t, f, c, ch).1 is None ==> rule_at(t, f, c, ch).2.0 > c.0,
{
    let o = rule_at(t, f, c, ch);
    if numeric_char(ch) {
        let r = run(t, c.0, RunKind::Numeric);
        assert(r.len() >= 1);
        lemma_steps_pos(t, c, r.len());
    } else if alphabetic_char(ch) {
        let r = run(t, c.0, RunKind::Word);
        assert(r.len() >= 1);
        lemma_steps_pos(t, c, r.len());
    } else if ch == '"' {
        let r = run(t, c.0 + 1, RunKind::NotQuote);
        lemma_steps_pos(t, c, 1 + r.len());
    } else if ch == '/' {
        if char_at(t, c.0 + 1) == Some('/') {
            if char_at(t, c.0 + 2) == Some('\'') {
                let stop = comment_stop(t, c.0 + 3);
                lemma_comment_stop(t, c.0 + 3);
                let at_stop = steps(t, c, (stop - c.0) as nat);
                lemma_steps_pos(t, c, (stop - c.0) as nat);
                lemma_steps_pos(t, at_stop, 3);
            } else {
                let r = run(t, c.0 + 2, RunKind::NotNewline);
                lemma_steps_pos(t, c, 2 + r.len());
            }
        }
    } else if ch == '=' || ch == '!' || ch == '>' || ch == '<' || ch == ':' {
        lemma_steps_pos(t, c, 2);
    }
}

/// Lexing at a character: the rule's token, then lexing from where the rule stops.
pub proof fn lemma_lex_from_step(t: Seq<Option<char>>, f: Seq<char>, c: Cursor, ch: char)
    requires
        char_at(t, c.0) == Some(ch),
        rule_at(t, f, c, ch).1 is None,
        rule_at(t, f, c, ch).2.0 > c.0,
    ensures
        ({
            let o = rule_at(t, f, c, ch);
            let rest = lex_from(t, f, o.2);
            lex_from(t, f, c) == (token_seq(o.0) + rest.0, rest.1, rest.2)
        }),
{
    let o = rule_at(t, f, c, ch);
    if !(o.2.0 < t.len()) {
        assert(char_at(t, o.2.0) is None);
        assert(lex_from(t, f, o.2) == (Seq::<TokenV>::empty(), None::<LexErrorV>, o.2));
        assert(token_seq(o.0) + Seq::<TokenV>::empty() =~= token_seq(o.0));
    }
}

/// What a rule that may give a token or fail has done, as an outcome.
pub open spec fn outcome_of(res: Result<Option<Token>, LexError>, c: Cursor) -> Outcome {
    match res {
        Ok(Some(tk)) => (Some(tk.view()), None, c),
        Ok(None) => (None, None, c),
        Err(e) => (None, Some(e.view()), c),
    }
}

/// What a rule that gives a token or fails has done, as an outcome.
pub open spec fn token_outcome(res: Result<Token, LexError>, c: Cursor) -> Outcome {
    match res {
        Ok(tk) => (Some(tk.view()), None, c),
        Err(e) => (None, Some(e.view()), c),
    }
}

/// The kind of a word: a keyword's own kind, else an identifier.
fn word_type_of(w: &str) -> (res: TokenType)
    ensures
        res == word_type(w@),
{
    if str_eq(w, "var") {
        TokenType::VarKeyword
    } else if str_eq(w, "if") {
        TokenType::IfKeyword
    } else if str_eq(w, "else") {
        TokenType::ElseKeyword
    } else if str_eq(w, "while") {
        TokenType::WhileKeyword
    } else if str_eq(w, "fn") {
        TokenType::FnKeyword
    } else if str_eq(w, "pub") {
        TokenType::PubKeyword
    } else if str_eq(w, "use") {
        TokenType::UseKeyword
    } else if str_eq(w, "for") {
        TokenType::ForKeyword
    } else if str_eq(w, "return") {
        TokenType::ReturnKeyword
    } else if str_eq(w, "extern") {
        TokenType::ExternKeyword
    } else if str_eq(w, "true") {
        TokenType::True
    } else if str_eq(w, "false") {
        TokenType::False
    } else if str_eq(w, "struct") {
        TokenType::StructKeyword
    } else if str_eq(w, "sizeof") {
        TokenType::SizeOfKeyword
    } else {
        TokenType::Identifier
    }
}

/// Calls `str::len`: the number of bytes of the UTF-8 encoding of `s`, which the
/// standard library never lets exceed `isize::MAX`.
#[verifier::external_body]
fn byte_len(s: &str) -> (res: usize)
    ensures
        res == encode_utf8(s@).len(),
        res <= isize::MAX,
{
    s.len()
}

/// For each byte of the UTF-8 encoding of `chars`, the character that starts there.
fn build_table(chars: &Vec<char>) -> (res: Vec<Option<char>>)
    ensures
        res@ == byte_table(chars@),
{
    let mut table: Vec<Option<char>> = Vec::new();
    let mut i: usize = 0;
    while i < chars.len()
        invariant
            0 <= i <= chars.len(),
            table@ == byte_table(chars@.take(i as int)),
        decreases chars.len() - i,
    {
        let c = chars[i];
        let w: usize = if (c as u32) < 0x80 {
            1
        } else if (c as u32) < 0x800 {
            2
        } else if (c as u32) < 0x10000 {
            3
        } else {
            4
        };
        let ghost before = table@;
        table.push(Some(c));
        let mut k: usize = 1;
        while k < w
            invariant
                1 <= k <= w,
                w == utf8_width(c),
                table@ == before + seq![Some(c)] + Seq::new((k - 1) as nat, |j: int| None::<char>),
            decreases w - k,
        {
            table.push(None);
            k = k + 1;
            assert(table@ =~= before + seq![Some(c)] + Seq::new((k - 1) as nat, |j: int| None::<char>));
        }
        proof {
            assert(table@ =~= before + char_cells(c));
            assert(chars@.take(i + 1) =~= chars@.take(i as int) + seq![c]);
            lemma_byte_table_concat(chars@.take(i as int), seq![c]);
            assert(seq![c].drop_first() =~= Seq::<char>::empty());
            assert(byte_table(Seq::<char>::empty()) == Seq::<Option<char>>::empty());
            assert(byte_table(seq![c]) =~= char_cells(c));
        }
        i = i + 1;
    }
    assert(chars@.take(chars.len() as int) =~= chars@);
    table
}

/// For each byte of the UTF-8 encoding of `source`, the character that starts there;
/// the table is never longer than a string can be.
pub fn build_table_of(source: &String) -> (res: Vec<Option<char>>)
    ensures
        res@ == byte_table(source@),
        res@.len() <= isize::MAX,
{
    let chars = chars_of(source.as_str());
    let table = build_table(&chars);
    let n = byte_len(source.as_str());
    proof {
        lemma_byte_table_len(source@);
    }
    table
}

/// Turns source text into tokens.
pub struct Lexer {
    pub source: String,
    /// The current byte position in `source`.
    pub token_idx: usize,
    pub line: usize,
    pub col: usize,
    pub tokens: Vec<Token>,
    /// The name of the file the source comes from, for locations.
    pub file: String,
    /// For each byte of `source`, the character that starts there, if any.
    pub table: Vec<Option<char>>,
}

impl Lexer {
    /// The place where the lexer stands.
    pub open spec fn cursor(&self) -> Cursor {
        (self.token_idx as int, self.line as int, self.col as int)
    }

    /// The lexer's table describes its source, and its place is within reach of it.
    pub open spec fn wf(&self) -> bool {
        &&& self.table@ == byte_table(self.source@)
        &&& self.table@.len() <= isize::MAX
        &&& self.token_idx <= self.table@.len() + 2
        &&& self.line <= self.token_idx
        &&& self.col <= self.token_idx
    }

    /// `other` lexes the same source of the same file as `self`.
    pub open spec fn same_input(&self, other: &Lexer) -> bool {
        &&& self.source@ == other.source@
        &&& self.table@ == other.table@
        &&& self.file@ == other.file@
    }

    /// A lexer at the start of `source`, read as coming from the file named `file`.
    pub fn with_file(source: String, file: &str) -> (res: Self)
        ensures
            res.wf(),
            res.source@ == source@,
            res.file@ == file@,
            res.cursor() == (0int, 0int, 0int),
            res.tokens@.len() == 0,
    {
        let table = build_table_of(&source);
        Self {
            source,
            token_idx: 0,
            tokens: Vec::new(),
            line: 0,
            col: 0,
            file: String::from_str(file),
            table,
        }
    }

    /// A lexer at the start of `source`, from a file without a name.
    pub fn new(source: String) -> (res: Self)
        ensures
            res.wf(),
            res.source@ == source@,
            res.file@ == Seq::<char>::empty(),
            res.cursor() == (0int, 0int, 0int),
            res.tokens@.len() == 0,
    {
        let l = Self::with_file(source, "");
        proof {
            reveal_strlit("");
        }
        l
    }

    /// Where the lexer stands, as a location.
    pub fn current_location(&self) -> (res: Location)
        ensures
            res.view() == loc(self.cursor(), self.file@),
    {
        Location { line: self.line, col: self.col, file: self.file.clone() }
    }

    /// One step forward.
    pub fn advance(&mut self)
        requires
            old(self).wf(),
            old(self).token_idx <= old(self).table@.len() + 1,
        ensures
            final(self).wf(),
            final(self).same_input(&*old(self)),
            final(self).tokens@ == old(self).tokens@,
            final(self).cursor() == step(old(self).table@, old(self).cursor()),
    {
        if let Some(ch) = self.get_char() {
            if ch == '\n' {
                self.line += 1;
                self.col = 0;
            } else {
                self.col += 1;
            }
        }
        self.token_idx += 1;
    }

    /// The character that starts `offset` bytes ahead, if any.
    pub fn peek(&self, offset: i32) -> (res: Option<char>)
        requires
            self.wf(),
            0 <= offset <= 3,
        ensures
            res == char_at(self.table@, self.token_idx + offset),
    {
        let true_offset = self.token_idx + offset as usize;
        if true_offset < self.table.len() {
            self.table[true_offset]
        } else {
            None
        }
    }

    /// The character that starts at the current byte, if any.
    pub fn get_char(&self) -> (res: Option<char>)
        requires
            self.wf(),
        ensures
            res == char_at(self.table@, self.token_idx as int),
    {
        self.peek(0)
    }

    /// Reads the run of kind `k` that starts at the current byte, moving past it.
    fn read_run(&mut self, k: RunKind) -> (res: Vec<char>)
        requires
            old(self).wf(),
        ensures
            final(self).wf(),
            final(self).same_input(&*old(self)),
            final(self).tokens@ == old(self).tokens@,
            res@ == run(old(self).table@, old(self).token_idx as int, k),
            final(self).cursor() == steps(old(self).table@, old(self).cursor(), res@.len()),
    {
        let ghost t = self.table@;
        let ghost c0 = self.cursor();
        let ghost start = *self;
        let mut r: Vec<char> = Vec::new();
        loop
            invariant
                self.wf(),
                self.same_input(&start),
                self.tokens@ == start.tokens@,
                t == self.table@,
                self.cursor() == steps(t, c0, r@.len()),
                run(t, c0.0, k) == r@ + run(t, self.token_idx as int, k),
            ensures
                self.wf(),
                self.same_input(&start),
                self.tokens@ == start.tokens@,
                self.cursor() == steps(t, c0, r@.len()),
                run(t, c0.0, k) == r@,
            decreases t.len() - self.token_idx,
        {
            match self.get_char() {
                Some(ch) => {
                    if takes(&k, ch) {
                        proof {
                            lemma_steps_last(t, c0, r@.len());
                            assert(run(t, self.token_idx as int, k) == seq![ch] + run(
                                t,
                                self.token_idx + 1,
                                k,
                            ));
                        }
                        let ghost before = r@;
                        r.push(ch);
                        self.advance();
                        assert(r@ + run(t, self.token_idx as int, k) =~= before + (seq![ch]
                            + run(t, self.token_idx as int, k)));
                    } else {
                        assert(run(t, self.token_idx as int, k) =~= Seq::<char>::empty());
                        assert(r@ + Seq::<char>::empty() =~= r@);
                        break;
                    }
                },
                None => {
                    assert(run(t, self.token_idx as int, k) =~= Seq::<char>::empty());
                    assert(r@ + Seq::<char>::empty() =~= r@);
                    break;
                },
            }
        }
        r
    }

    /// Appends a token.
    pub fn add_token(&mut self, token: Token)
        ensures
            final(self).tokens@ == old(self).tokens@.push(token),
            final(self).same_input(&*old(self)),
            final(self).cursor() == old(self).cursor(),
            final(self).source == old(self).source,
            final(self).table == old(self).table,
    {
        self.tokens.push(token);
    }

    /// Reads a number: the longest run of numeric characters.
    fn lex_numeric(&mut self) -> (res: Token)
        requires
            old(self).wf(),
        ensures
            final(self).wf(),
            final(self).same_input(&*old(self)),
            final(self).tokens@ == old(self).tokens@,
            numeric_rule(old(self).table@, old(self).file@, old(self).cursor()) == (
                Some(res.view()),
                None::<LexErrorV>,
                final(self).cursor(),
            ),
    {
        let location = self.current_location();
        let digits = self.read_run(RunKind::Numeric);
        Token { ttype: TokenType::IntLiteral, location, value: string_from_chars(&digits) }
    }

    /// Reads a word: the longest run of alphanumeric characters and underscores, which
    /// is a keyword or an identifier.
    fn lex_identifier_and_keyword(&mut self) -> (res: Token)
        requires
            old(self).wf(),
        ensures
            final(self).wf(),
            final(self).same_input(&*old(self)),
            final(self).tokens@ == old(self).tokens@,
            word_rule(old(self).table@, old(self).file@, old(self).cursor()) == (
                Some(res.view()),
                None::<LexErrorV>,
                final(self).cursor(),
            ),
    {
        let location = self.current_location();
        let buf = self.read_run(RunKind::Word);
        let value = string_from_chars(&buf);
        let ttype = word_type_of(value.as_str());
        Token { ttype, location, value }
    }

    /// Reads a string literal; an unterminated one runs to the end of the input.
    fn lex_string(&mut self) -> (res: Token)
        requires
            old(self).wf(),
            old(self).token_idx < old(self).table@.len(),
        ensures
            final(self).wf(),
            final(self).same_input(&*old(self)),
            final(self).tokens@ == old(self).tokens@,
            string_rule(old(self).table@, old(self).file@, old(self).cursor()) == (
                Some(res.view()),
                None::<LexErrorV>,
                final(self).cursor(),
            ),
    {
        let ghost t = self.table@;
        let ghost c0 = self.cursor();
        let location = self.current_location();
        self.advance();
        let ghost c1 = self.cursor();
        let chars = self.read_run(RunKind::NotQuote);
        proof {
            lemma_run(t, c1.0, RunKind::NotQuote);
            lemma_steps_add(t, c0, 1, chars@.len());
            assert(steps(t, c0, 1) == step(t, c0)) by {
                assert(steps(t, step(t, c0), 0) == step(t, c0));
            }
        }
        match self.get_char() {
            Some(ch) => {
                if ch == '"' {
                    self.advance();
                }
            },
            None => {},
        }
        Token {
            ttype: TokenType::StringLiteral,
            location,
            value: string_from_chars(&chars),
        }
    }

    /// Reads a sign of one character, or of two when the next character is `second`.
    fn lex_pair(&mut self, second: char, one: TokenType, two: TokenType, context: &str) -> (res:
        Result<Token, LexError>)
        requires
            old(self).wf(),
        ensures
            final(self).wf(),
            final(self).same_input(&*old(self)),
            final(self).tokens@ == old(self).tokens@,
            pair_rule(old(self).table@, old(self).file@, old(self).cursor(), second, one, two, context@)
                == token_outcome(res, final(self).cursor()),
    {
        let ghost t = self.table@;
        let ghost c0 = self.cursor();
        let location = self.current_location();
        let current = match self.get_char() {
            Some(ch) => ch,
            None => {
                return Err(LexError::UnexpectedEof { context: String::from_str(context), location });
            },
        };
        match self.peek(1) {
            Some(next) => {
                if next == second {
                    self.advance();
                    self.advance();
                    proof {
                        lemma_steps_last(t, c0, 0);
                        lemma_steps_last(t, c0, 1);
                    }
                    let mut v: Vec<char> = Vec::new();
                    v.push(current);
                    v.push(next);
                    assert(v@ =~= seq![current, second]);
                    return Ok(Token { ttype: two, location, value: string_from_chars(&v) });
                }
            },
            None => {},
        }
        self.advance();
        let mut v: Vec<char> = Vec::new();
        v.push(current);
        assert(v@ =~= seq![current]);
        Ok(Token { ttype: one, location, value: string_from_chars(&v) })
    }

    /// Reads `:` or `::`.
    fn lex_colon(&mut self) -> (res: Result<Token, LexError>)
        requires
            old(self).wf(),
        ensures
            final(self).wf(),
            final(self).same_input(&*old(self)),
            final(self).tokens@ == old(self).tokens@,
            pair_rule(old(self).table@, old(self).file@, old(self).cursor(), ':', TokenType::Colon, TokenType::DoubleColon, "':'"@)
                == token_outcome(res, final(self).cursor()),
    {
        self.lex_pair(':', TokenType::Colon, TokenType::DoubleColon, "':'")
    }

    /// Reads `>` or `>=`.
    fn lex_gt(&mut self) -> (res: Result<Token, LexError>)
        requires
            old(self).wf(),
        ensures
            final(self).wf(),
            final(self).same_input(&*old(self)),
            final(self).tokens@ == old(self).tokens@,
            pair_rule(old(self).table@, old(self).file@, old(self).cursor(), '=', TokenType::GreaterThan, TokenType::GreaterThanEquals, "'>'"@)
                == token_outcome(res, final(self).cursor()),
    {
        self.lex_pair('=', TokenType::GreaterThan, TokenType::GreaterThanEquals, "'>'")
    }

    /// Reads `<` or `<=`.
    fn lex_lt(&mut self) -> (res: Result<Token, LexError>)
        requires
            old(self).wf(),
        ensures
            final(self).wf(),
            final(self).same_input(&*old(self)),
            final(self).tokens@ == old(self).tokens@,
            pair_rule(old(self).table@, old(self).file@, old(self).cursor(), '=', TokenType::LessThan, TokenType::LessThanEquals, "'<'"@)
                == token_outcome(res, final(self).cursor()),
    {
        self.lex_pair('=', TokenType::LessThan, TokenType::LessThanEquals, "'<'")
    }

    /// Reads `!` or `!=`.
    fn lex_not(&mut self) -> (res: Result<Token, LexError>)
        requires
            old(self).wf(),
        ensures
            final(self).wf(),
            final(self).same_input(&*old(self)),
            final(self).tokens@ == old(self).tokens@,
            pair_rule(old(self).table@, old(self).file@, old(self).cursor(), '=', TokenType::Not, TokenType::NotEquals, "'!'"@)
                == token_outcome(res, final(self).cursor()),
    {
        self.lex_pair('=', TokenType::Not, TokenType::NotEquals, "'!'")
    }

    /// Reads `=` or `==`.
    fn lex_assign(&mut self) -> (res: Result<Token, LexError>)
        requires
            old(self).wf(),
        ensures
            final(self).wf(),
            final(self).same_input(&*old(self)),
            final(self).tokens@ == old(self).tokens@,
            pair_rule(old(self).table@, old(self).file@, old(self).cursor(), '=', TokenType::Assign, TokenType::Equals, "'='"@)
                == token_outcome(res, final(self).cursor()),
    {
        self.lex_pair('=', TokenType::Assign, TokenType::Equals, "'='")
    }

    /// Reads a sign of one character and appends its token.
    fn single_char(&mut self, ttype: TokenType) -> (res: Result<(), LexError>)
        requires
            old(self).wf(),
        ensures
            final(self).wf(),
            final(self).same_input(&*old(self)),
            ({
                let o = single_rule(old(self).table@, old(self).file@, old(self).cursor(), ttype);
                &&& o.2 == final(self).cursor()
                &&& match res {
                    Ok(()) => o.1 is None && o.0 is Some && final(self).tokens@.len() == old(
                        self,
                    ).tokens@.len() + 1 && final(self).tokens@.drop_last() == old(self).tokens@
                        && o.0->0 == final(self).tokens@.last().view(),
                    Err(e) => o.1 == Some(e.view()) && final(self).tokens@ == old(self).tokens@,
                }
            }),
    {
        let location = self.current_location();
        let ch = match self.get_char() {
            Some(ch) => ch,
            None => {
                return Err(
                    LexError::UnexpectedEof {
                        context: String::from_str("single char token"),
                        location,
                    },
                );
            },
        };
        let mut v: Vec<char> = Vec::new();
        v.push(ch);
        assert(v@ =~= seq![ch]);
        let t = Token { ttype, location, value: string_from_chars(&v) };
        self.add_token(t);
        assert(self.tokens@.drop_last() =~= old(self).tokens@);
        self.advance();
        Ok(())
    }

    /// Reads a slash: a multi-line comment `//' .. '//`, a line comment `// ..`, or the
    /// division sign.
    fn lex_slash(&mut self) -> (res: Result<Option<Token>, LexError>)
        requires
            old(self).wf(),
        ensures
            final(self).wf(),
            final(self).same_input(&*old(self)),
            final(self).tokens@ == old(self).tokens@,
            slash_rule(old(self).table@, old(self).file@, old(self).cursor()) == outcome_of(
                res,
                final(self).cursor(),
            ),
    {
        let ghost t = self.table@;
        let ghost c0 = self.cursor();
        let ghost start = *self;
        let location = self.current_location();
        let current = match self.get_char() {
            Some(ch) => ch,
            None => {
                return Err(LexError::UnexpectedEof { context: String::from_str("'/'"), location });
            },
        };
        if matches!(self.peek(1), Some('/')) {
            if matches!(self.peek(2), Some('\'')) {
                self.advance();
                self.advance();
                self.advance();
                proof {
                    lemma_steps_last(t, c0, 0);
                    lemma_steps_last(t, c0, 1);
                    lemma_steps_last(t, c0, 2);
                }
                loop
                    invariant
                        self.wf(),
                        self.same_input(&*old(self)),
                        self.tokens@ == old(self).tokens@,
                        t == self.table@,
                        c0 == old(self).cursor(),
                        location.view() == loc(c0, self.file@),
                        char_at(t, c0.0) is Some,
                        char_at(t, c0.0 + 1) == Some('/'),
                        char_at(t, c0.0 + 2) == Some('\''),
                        c0.0 + 3 <= self.token_idx,
                        comment_stop(t, c0.0 + 3) == comment_stop(t, self.token_idx as int),
                        self.cursor() == steps(t, c0, (self.token_idx - c0.0) as nat),
                    decreases t.len() - self.token_idx,
                {
                    match self.get_char() {
                        None => {
                            assert(comment_stop(t, self.token_idx as int) == self.token_idx);
                            let here = self.current_location();
                            return Err(LexError::UnterminatedComment { location: here });
                        },
                        Some(ch) => {
                            if ch == '\'' && matches!(self.peek(1), Some('/')) && matches!(
                                self.peek(2),
                                Some('/')
                            ) {
                                let ghost at_stop = self.cursor();
                                assert(comment_stop(t, self.token_idx as int) == self.token_idx);
                                self.advance();
                                self.advance();
                                self.advance();
                                proof {
                                    lemma_steps_last(t, at_stop, 0);
                                    lemma_steps_last(t, at_stop, 1);
                                    lemma_steps_last(t, at_stop, 2);
                                }
                                return Ok(None);
                            } else {
                                proof {
                                    lemma_steps_last(t, c0, (self.token_idx - c0.0) as nat);
                                }
                                self.advance();
                            }
                        },
                    }
                }
            } else {
                self.advance();
                self.advance();
                let ghost c2 = self.cursor();
                let rest = self.read_run(RunKind::NotNewline);
                proof {
                    lemma_steps_last(t, c0, 0);
                    lemma_steps_last(t, c0, 1);
                    lemma_steps_add(t, c0, 2, rest@.len());
                }
                return Ok(None);
            }
        }
        self.advance();
        proof {
            lemma_steps_last(t, c0, 0);
        }
        let mut v: Vec<char> = Vec::new();
        v.push(current);
        assert(v@ =~= seq![current]);
        Ok(Some(Token { ttype: TokenType::Divide, location, value: string_from_chars(&v) }))
    }

    /// Reads a character literal: a quote, a character or an escape, a closing quote.
    fn lex_char(&mut self) -> (res: Result<Token, LexError>)
        requires
            old(self).wf(),
            old(self).token_idx < old(self).table@.len(),
        ensures
            final(self).wf(),
            final(self).same_input(&*old(self)),
            final(self).tokens@ == old(self).tokens@,
            char_rule(old(self).table@, old(self).file@, old(self).cursor()) == token_outcome(
                res,
                final(self).cursor(),
            ),
    {
        let location = self.current_location();
        self.advance();
        let next_char = self.get_char();
        self.advance();
        let final_char = match next_char {
            Some('\\') => {
                let escape_type = self.get_char();
                self.advance();
                match escape_type {
                    Some('n') => '\n',
                    Some('t') => '\t',
                    Some('r') => '\r',
                    Some('\\') => '\\',
                    Some('\'') => '\'',
                    Some('0') => '\0',
                    Some(other) => {
                        return Err(LexError::UnknownEscapeSequence { ch: other, location });
                    },
                    None => {
                        return Err(
                            LexError::UnexpectedEof {
                                context: String::from_str("escape sequence"),
                                location,
                            },
                        );
                    },
                }
            },
            Some(ch) => ch,
            None => {
                return Err(
                    LexError::UnexpectedEof {
                        context: String::from_str("character literal"),
                        location,
                    },
                );
            },
        };
        if !matches!(self.get_char(), Some('\'')) {
            return Err(LexError::UnterminatedCharLiteral { location });
        }
        self.advance();
        let mut v: Vec<char> = Vec::new();
        v.push(final_char);
        assert(v@ =~= seq![final_char]);
        Ok(Token { ttype: TokenType::CharLiteral, location, value: string_from_chars(&v) })
    }

    /// Lexes at the character `ch` that starts at the current byte: reads by the rule it
    /// selects and appends the token read, if any.
    fn lex_one(&mut self, ch: char) -> (res: Result<(), LexError>)
        requires
            old(self).wf(),
            char_at(old(self).table@, old(self).token_idx as int) == Some(ch),
        ensures
            final(self).wf(),
            final(self).same_input(&*old(self)),
            ({
                let o = rule_at(old(self).table@, old(self).file@, old(self).cursor(), ch);
                &&& final(self).cursor() == o.2
                &&& match res {
                    Ok(()) => o.1 is None && tokens_view(final(self).tokens@) == tokens_view(
                        old(self).tokens@,
                    ) + token_seq(o.0),
                    Err(e) => o.1 == Some(e.view()) && final(self).tokens@ == old(self).tokens@,
                }
            }),
    {
        let ghost before = self.tokens@;
        if is_numeric(ch) {
            let tk = self.lex_numeric();
            self.add_token(tk);
            assert(tokens_view(self.tokens@) =~= tokens_view(before) + seq![tk.view()]);
            return Ok(());
        }
        if is_alphabetic(ch) {
            let tk = self.lex_identifier_and_keyword();
            self.add_token(tk);
            assert(tokens_view(self.tokens@) =~= tokens_view(before) + seq![tk.view()]);
            return Ok(());
        }
        let produced: Result<Option<Token>, LexError> = match ch {
            '=' => match self.lex_assign() {
                Ok(tk) => Ok(Some(tk)),
                Err(e) => Err(e),
            },
            '"' => Ok(Some(self.lex_string())),
            '\'' => match self.lex_char() {
                Ok(tk) => Ok(Some(tk)),
                Err(e) => Err(e),
            },
            '!' => match self.lex_not() {
                Ok(tk) => Ok(Some(tk)),
                Err(e) => Err(e),
            },
            '>' => match self.lex_gt() {
                Ok(tk) => Ok(Some(tk)),
                Err(e) => Err(e),
            },
            '<' => match self.lex_lt() {
                Ok(tk) => Ok(Some(tk)),
                Err(e) => Err(e),
            },
            ':' => match self.lex_colon() {
                Ok(tk) => Ok(Some(tk)),
                Err(e) => Err(e),
            },
            '/' => self.lex_slash(),
            '.' | '&' | '^' | ';' | '(' | ')' | '{' | '}' | ',' | '[' | ']' | '+' | '-' | '*'
            | '%' => {
                let ttype = match ch {
                    '.' => TokenType::Period,
                    '&' => TokenType::Ampersand,
                    '^' => TokenType::Star,
                    ';' => TokenType::SemiColon,
                    '(' => TokenType::LParen,
                    ')' => TokenType::RParen,
                    '{' => TokenType::LBrace,
                    '}' => TokenType::RBrace,
                    ',' => TokenType::Comma,
                    '[' => TokenType::LBracket,
                    ']' => TokenType::RBracket,
                    '+' => TokenType::Add,
                    '-' => TokenType::Minus,
                    '*' => TokenType::Multiply,
                    _ => TokenType::Modulo,
                };
                let r = self.single_char(ttype);
                proof {
                    if r is Ok {
                        assert(tokens_view(self.tokens@) =~= tokens_view(before) + seq![
                            self.tokens@.last().view(),
                        ]) by {
                            assert(self.tokens@ =~= before.push(self.tokens@.last()));
                        }
                    }
                }
                return r;
            },
            _ => {
                self.advance();
                assert(tokens_view(self.tokens@) =~= tokens_view(before) + Seq::<TokenV>::empty());
                return Ok(());
            },
        };
        match produced {
            Ok(Some(tk)) => {
                self.add_token(tk);
                assert(tokens_view(self.tokens@) =~= tokens_view(before) + seq![tk.view()]);
                Ok(())
            },
            Ok(None) => {
                assert(tokens_view(self.tokens@) =~= tokens_view(before) + Seq::<TokenV>::empty());
                Ok(())
            },
            Err(e) => Err(e),
        }
    }

    /// Lexes the rest of the source, appending the tokens read. Lexing stops at the end
    /// of the input, at the first byte inside a multi-byte character, or at the first error.
    pub fn lex(&mut self) -> (res: Result<(), LexError>)
        requires
            old(self).wf(),
        ensures
            final(self).wf(),
            final(self).same_input(&*old(self)),
            ({
                let r = lex_from(old(self).table@, old(self).file@, old(self).cursor());
                &&& tokens_view(final(self).tokens@) == tokens_view(old(self).tokens@) + r.0
                &&& final(self).cursor() == r.2
                &&& match res {
                    Ok(()) => r.1 is None,
                    Err(e) => r.1 == Some(e.view()),
                }
            }),
    {
        let ghost t = self.table@;
        let ghost f = self.file@;
        let ghost c0 = self.cursor();
        let ghost mut added: Seq<TokenV> = Seq::empty();
        loop
            invariant
                self.wf(),
                self.same_input(&*old(self)),
                t == self.table@,
                f == self.file@,
                c0 == old(self).cursor(),
                tokens_view(self.tokens@) == tokens_view(old(self).tokens@) + added,
                lex_from(t, f, c0) == (
                    added + lex_from(t, f, self.cursor()).0,
                    lex_from(t, f, self.cursor()).1,
                    lex_from(t, f, self.cursor()).2,
                ),
            decreases t.len() + 3 - self.token_idx,
        {
            match self.get_char() {
                None => {
                    assert(lex_from(t, f, self.cursor()) == (
                        Seq::<TokenV>::empty(),
                        None::<LexErrorV>,
                        self.cursor(),
                    ));
                    assert(added + Seq::<TokenV>::empty() =~= added);
                    return Ok(());
                },
                Some(ch) => {
                    let ghost c = self.cursor();
                    let ghost o = rule_at(t, f, c, ch);
                    let ghost before = self.tokens@;
                    proof {
                        lemma_rule_progress(t, f, c, ch);
                    }
                    match self.lex_one(ch) {
                        Ok(()) => {
                            proof {
                                lemma_lex_from_step(t, f, c, ch);
                                assert(added + token_seq(o.0) + lex_from(t, f, o.2).0 =~= added + (
                                token_seq(o.0) + lex_from(t, f, o.2).0));
                                added = added + token_seq(o.0);
                            }
                        },
                        Err(e) => {
                            assert(added + Seq::<TokenV>::empty() =~= added);
                            return Err(e);
                        },
                    }
                },
            }
        }
    }
}

} // verus!
