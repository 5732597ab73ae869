//! The lexer of the first version of the language: numbers, words, strings, `=`/`==`
//! and the signs of arithmetic and blocks. It reads the source byte by byte as the
//! current lexer does (see `lexing::lexer`).
use crate::lexing::chars::{is_alphabetic, is_alphanumeric, is_numeric, alphabetic_char, numeric_char};
use crate::lexing::lexer::{
    accepts, build_table_of, byte_table, char_at, lemma_run, lemma_steps_add, lemma_steps_last,
    lemma_steps_pos, run, step, steps, Cursor, RunKind,
};
use crate::lexing::tokens::{tokens_view, Token, TokenType, TokenV};
use crate::utils::location::Location;
use crate::utils::text::{str_eq, string_from_chars};
use vstd::prelude::*;
use vstd::string::*;

verus! {

/// The kind of a word: `var` and `if` are keywords, any other word an identifier.
pub open spec fn old_word_type(w: Seq<char>) -> TokenType {
    if w == "var"@ {
        TokenType::VarKeyword
    } else if w == "if"@ {
        TokenType::Ifkeyword
    } else {
        TokenType::Identifier
    }
}

/// The value of a location at place `c` (this lexer names no file).
pub open spec fn old_loc(c: Cursor) -> (usize, usize, Seq<char>) {
    (c.1 as usize, c.2 as usize, Seq::empty())
}

/// What the rule that the character `ch` at place `c` selects reads: the token, if any,
/// and where the rule stops. A character that selects no rule is skipped.
pub open spec fn old_rule_at(t: Seq<Option<char>>, c: Cursor, ch: char) -> (Option<TokenV>, Cursor) {
    if numeric_char(ch) {
        let r = run(t, c.0, RunKind::Numeric);
        (Some((TokenType::IntLiteral, old_loc(c), r)), steps(t, c, r.len()))
    } else if alphabetic_char(ch) {
        let r = run(t, c.0, RunKind::Word);
        (Some((old_word_type(r), old_loc(c), r)), steps(t, c, r.len()))
    } else if ch == '=' {
        old_assign_rule(t, c)
    } else if ch == '"' {
        old_string_rule(t, c)
    } else {
        match single_sign(ch) {
            Some(tt) => (Some((tt, old_loc(c), seq![ch])), step(t, c)),
            None => (None, step(t, c)),
        }
    }
}

/// `=`, or `==` when another `=` follows.
pub open spec fn old_assign_rule(t: Seq<Option<char>>, c: Cursor) -> (Option<TokenV>, Cursor) {
    if char_at(t, c.0 + 1) == Some('=') {
        (Some((TokenType::Equals, old_loc(c), seq!['=', '='])), steps(t, c, 2))
    } else {
        (Some((TokenType::Assign, old_loc(c), seq!['='])), step(t, c))
    }
}

/// A string: after the opening quote, the longest run without a quote, then the
/// closing quote if there is one.
pub open spec fn old_string_rule(t: Seq<Option<char>>, c: Cursor) -> (Option<TokenV>, Cursor) {
    let r = run(t, c.0 + 1, RunKind::NotQuote);
    let after = steps(t, c, 1 + r.len());
    let end = if char_at(t, after.0) == Some('"') {
        step(t, after)
    } else {
        after
    };
    (Some((TokenType::StringLiteral, old_loc(c), r)), end)
}

/// The kind of the one-character sign `ch`, if it is one.
pub open spec fn single_sign(ch: char) -> Option<TokenType> {
    if ch == ';' {
        Some(TokenType::SemiColon)
    } else if ch == '(' {
        Some(TokenType::LParen)
    } else if ch == ')' {
        Some(TokenType::RParen)
    } else if ch == '{' {
        Some(TokenType::LBrace)
    } else if ch == '}' {
        Some(TokenType::RBrace)
    } else if ch == '+' {
        Some(TokenType::Add)
    } else if ch == '-' {
        Some(TokenType::Minus)
    } else if ch == '*' {
        Some(TokenType::Multiply)
    } else if ch == '/' {
        Some(TokenType::Divide)
    } else if ch == '%' {
        Some(TokenType::Modulo)
    } else {
        None
    }
}

/// The token of a rule, as a sequence of zero or one tokens.
pub open spec fn old_token_seq(o: Option<TokenV>) -> Seq<TokenV> {
    match o {
        Some(tk) => seq![tk],
        None => Seq::empty(),
    }
}

/// Lexing from place `c` on: the tokens read and the place where lexing stopped, at
/// the first byte that starts no character.
pub open spec fn old_lex_from(t: Seq<Option<char>>, c: Cursor) -> (Seq<TokenV>, Cursor)
    decreases t.len() - c.0,
{
    match char_at(t, c.0) {
        None => (Seq::empty(), c),
        Some(ch) => {
            let o = old_rule_at(t, c, ch);
            if c.0 < o.1.0 < t.len() {
                let rest = old_lex_from(t, o.1);
                (old_token_seq(o.0) + rest.0, rest.1)
            } else {
                (old_token_seq(o.0), o.1)
            }
        },
    }
}

/// Every rule moves forward.
pub proof fn lemma_old_rule_progress(t: Seq<Option<char>>, c: Cursor, ch: char)
    requires
        char_at(t, c.0) == Some(ch),
        c.2 >= 0,
    ensures
        old_rule_at(t, c, ch).1.0 > c.0,
{
    if numeric_char(ch) {
        let r = run(t, c.0, RunKind::Numeric);
        assert(r.len() >= 1);
        lemma_steps_pos(t, c, r.len());
    } else if alphabetic_char(ch) {
        let r = run(t, c.0, RunKind::Word);
        assert(r.len() >= 1);
        lemma_steps_pos(t, c, r.len());
    } else if ch == '"' {
        let r = run(t, c.0 + 1, RunKind::NotQuote);
        lemma_steps_pos(t, c, 1 + r.len());
    } else if ch == '=' {
        lemma_steps_pos(t, c, 2);
    }
}

/// Turns source text into tokens of the first version of the language.
pub struct Lexer {
    pub source: String,
    /// The current byte position in `source`.
    pub token_idx: usize,
    pub line: usize,
    pub col: usize,
    pub tokens: Vec<Token>,
    /// For each byte of `source`, the character that starts there, if any.
    pub table: Vec<Option<char>>,
}

impl Lexer {
    /// The place where the lexer stands.
    pub open spec fn cursor(&self) -> Cursor {
        (self.token_idx as int, self.line as int, self.col as int)
    }

    /// The lexer's table describes its source, and its place is within reach of it.
    pub open spec fn wf(&self) -> bool {
        &&& self.table@ == byte_table(self.source@)
        &&& self.table@.len() <= isize::MAX
        &&& self.token_idx <= self.table@.len() + 2
        &&& self.line <= self.token_idx
        &&& self.col <= self.token_idx
    }

    /// `other` lexes the same source as `self`.
    pub open spec fn same_input(&self, other: &Lexer) -> bool {
        &&& self.source@ == other.source@
        &&& self.table@ == other.table@
    }

    /// A lexer at the start of `source`.
    pub fn new(source: String) -> (res: Self)
        ensures
            res.wf(),
            res.source@ == source@,
            res.cursor() == (0int, 0int, 0int),
            res.tokens@.len() == 0,
    {
        let table = build_table_of(&source);
        Self { source, token_idx: 0, tokens: Vec::new(), line: 0, col: 0, table }
    }

    /// Where the lexer stands, as a location.
    pub fn current_location(&self) -> (res: Location)
        ensures
            res.view() == old_loc(self.cursor()),
    {
        let res = Location { line: self.line, col: self.col, file: String::new() };
        res
    }

    /// One step forward.
    pub fn advance(&mut self)
        requires
            old(self).wf(),
            old(self).token_idx <= old(self).table@.len() + 1,
        ensures
            final(self).wf(),
            final(self).same_input(&*old(self)),
            final(self).tokens@ == old(self).tokens@,
            final(self).cursor() == step(old(self).table@, old(self).cursor()),
    {
        if let Some(ch) = self.get_char() {
            if ch == '\n' {
                self.line += 1;
                self.col = 0;
            } else {
                self.col += 1;
            }
        }
        self.token_idx += 1;
    }

    /// The character that starts `offset` bytes ahead, if any.
    pub fn peek(&self, offset: i32) -> (res: Option<char>)
        requires
            self.wf(),
            0 <= offset <= 3,
        ensures
            res == char_at(self.table@, self.token_idx + offset),
    {
        let true_offset = self.token_idx + offset as usize;
        if true_offset < self.table.len() {
            self.table[true_offset]
        } else {
            None
        }
    }

    /// The character that starts at the current byte, if any.
    pub fn get_char(&self) -> (res: Option<char>)
        requires
            self.wf(),
        ensures
            res == char_at(self.table@, self.token_idx as int),
    {
        self.peek(0)
    }

    /// Appends a token.
    pub fn add_token(&mut self, token: Token)
        ensures
            final(self).tokens@ == old(self).tokens@.push(token),
            final(self).same_input(&*old(self)),
            final(self).cursor() == old(self).cursor(),
            final(self).source == old(self).source,
            final(self).table == old(self).table,
    {
        self.tokens.push(token);
    }

    /// Reads the run of kind `k` that starts at the current byte, moving past it.
    fn read_run(&mut self, k: RunKind) -> (res: Vec<char>)
        requires
            old(self).wf(),
        ensures
            final(self).wf(),
            final(self).same_input(&*old(self)),
            final(self).tokens@ == old(self).tokens@,
            res@ == run(old(self).table@, old(self).token_idx as int, k),
            final(self).cursor() == steps(old(self).table@, old(self).cursor(), res@.len()),
    {
        let ghost t = self.table@;
        let ghost c0 = self.cursor();
        let mut r: Vec<char> = Vec::new();
        loop
            invariant
                self.wf(),
                self.same_input(&*old(self)),
                self.tokens@ == old(self).tokens@,
                t == self.table@,
                c0 == old(self).cursor(),
                self.cursor() == steps(t, c0, r@.len()),
                run(t, c0.0, k) == r@ + run(t, self.token_idx as int, k),
            ensures
                self.wf(),
                self.same_input(&*old(self)),
                self.tokens@ == old(self).tokens@,
                self.cursor() == steps(t, c0, r@.len()),
                run(t, c0.0, k) == r@,
            decreases t.len() - self.token_idx,
        {
            match self.get_char() {
                Some(ch) => {
                    let take = match k {
                        RunKind::Numeric => is_numeric(ch),
                        RunKind::Word => is_alphanumeric(ch) || ch == '_',
                        RunKind::NotQuote => ch != '"',
                        RunKind::NotNewline => ch != '\n',
                    };
                    if take {
                        proof {
                            lemma_steps_last(t, c0, r@.len());
                            assert(run(t, self.token_idx as int, k) == seq![ch] + run(
                                t,
                                self.token_idx + 1,
                                k,
                            ));
                        }
                        let ghost before = r@;
                        r.push(ch);
                        self.advance();
                        assert(r@ + run(t, self.token_idx as int, k) =~= before + (seq![ch]
                            + run(t, self.token_idx as int, k)));
                    } else {
                        assert(run(t, self.token_idx as int, k) =~= Seq::<char>::empty());
                        assert(r@ + Seq::<char>::empty() =~= r@);
                        break;
                    }
                },
                None => {
                    assert(run(t, self.token_idx as int, k) =~= Seq::<char>::empty());
                    assert(r@ + Seq::<char>::empty() =~= r@);
                    break;
                },
            }
        }
        r
    }

    /// Appends the token of the one-character sign at the current byte, of kind `ttype`.
    pub fn single_char(&mut self, ttype: TokenType)
        requires
            old(self).wf(),
            char_at(old(self).table@, old(self).token_idx as int) is Some,
        ensures
            final(self).wf(),
            final(self).same_input(&*old(self)),
            final(self).cursor() == step(old(self).table@, old(self).cursor()),
            tokens_view(final(self).tokens@) == tokens_view(old(self).tokens@).push(
                (
                    ttype,
                    old_loc(old(self).cursor()),
                    seq![char_at(old(self).table@, old(self).token_idx as int)->0],
                ),
            ),
    {
        let ch = match self.get_char() {
            Some(ch) => ch,
            None => {
                proof {
                    assert(false);
                }
                ' '
            },
        };
        let mut v: Vec<char> = Vec::new();
        v.push(ch);
        assert(v@ =~= seq![ch]);
        let t = Token { ttype, location: self.current_location(), value: string_from_chars(&v) };
        self.add_token(t);
        self.advance();
        assert(tokens_view(self.tokens@) =~= tokens_view(old(self).tokens@).push(t.view()));
    }

    /// Reads `=` or `==`.
    pub fn lex_assign(&mut self) -> (res: Token)
        requires
            old(self).wf(),
            char_at(old(self).table@, old(self).token_idx as int) == Some('='),
        ensures
            final(self).wf(),
            final(self).same_input(&*old(self)),
            final(self).tokens@ == old(self).tokens@,
            old_assign_rule(old(self).table@, old(self).cursor()) == (
                Some(res.view()),
                final(self).cursor(),
            ),
    {
        let ghost t = self.table@;
        let ghost c0 = self.cursor();
        let loc = self.current_location();
        if matches!(self.peek(1), Some('=')) {
            self.advance();
            self.advance();
            proof {
                lemma_steps_last(t, c0, 0);
                lemma_steps_last(t, c0, 1);
            }
            let mut v: Vec<char> = Vec::new();
            v.push('=');
            v.push('=');
            assert(v@ =~= seq!['=', '=']);
            return Token { ttype: TokenType::Equals, location: loc, value: string_from_chars(&v) };
        }
        self.advance();
        let mut v: Vec<char> = Vec::new();
        v.push('=');
        assert(v@ =~= seq!['=']);
        Token { ttype: TokenType::Assign, location: loc, value: string_from_chars(&v) }
    }

    /// Reads a string literal; an unterminated one runs to the end of the input.
    pub fn lex_string(&mut self) -> (res: Token)
        requires
            old(self).wf(),
            char_at(old(self).table@, old(self).token_idx as int) == Some('"'),
        ensures
            final(self).wf(),
            final(self).same_input(&*old(self)),
            final(self).tokens@ == old(self).tokens@,
            old_string_rule(old(self).table@, old(self).cursor()) == (
                Some(res.view()),
                final(self).cursor(),
            ),
    {
        let ghost t = self.table@;
        let ghost c0 = self.cursor();
        let loc = self.current_location();
        self.advance();
        let ghost c1 = self.cursor();
        let chars = self.read_run(RunKind::NotQuote);
        proof {
            lemma_run(t, c1.0, RunKind::NotQuote);
            lemma_steps_add(t, c0, 1, chars@.len());
            lemma_steps_last(t, c0, 0);
        }
        match self.get_char() {
            Some(ch) => {
                if ch == '"' {
                    self.advance();
                }
            },
            None => {},
        }
        Token { ttype: TokenType::StringLiteral, location: loc, value: string_from_chars(&chars) }
    }

    /// Reads a number: the longest run of numeric characters.
    pub fn lex_numeric(&mut self) -> (res: Token)
        requires
            old(self).wf(),
        ensures
            final(self).wf(),
            final(self).same_input(&*old(self)),
            final(self).tokens@ == old(self).tokens@,
            res.view() == (
                TokenType::IntLiteral,
                old_loc(old(self).cursor()),
                run(old(self).table@, old(self).token_idx as int, RunKind::Numeric),
            ),
            final(self).cursor() == steps(old(self).table@, old(self).cursor(), res.value@.len()),
    {
        let loc = self.current_location();
        let digits = self.read_run(RunKind::Numeric);
        Token { ttype: TokenType::IntLiteral, location: loc, value: string_from_chars(&digits) }
    }

    /// Reads a word: `var`, `if`, or an identifier.
    pub fn lex_identifier_and_keyword(&mut self) -> (res: Token)
        requires
            old(self).wf(),
        ensures
            final(self).wf(),
            final(self).same_input(&*old(self)),
            final(self).tokens@ == old(self).tokens@,
            ({
                let r = run(old(self).table@, old(self).token_idx as int, RunKind::Word);
                &&& res.view() == (old_word_type(r), old_loc(old(self).cursor()), r)
                &&& final(self).cursor() == steps(old(self).table@, old(self).cursor(), r.len())
            }),
    {
        let loc = self.current_location();
        let buf = self.read_run(RunKind::Word);
        let value = string_from_chars(&buf);
        let ttype = if str_eq(value.as_str(), "var") {
            TokenType::VarKeyword
        } else if str_eq(value.as_str(), "if") {
            TokenType::Ifkeyword
        } else {
            TokenType::Identifier
        };
        Token { ttype, location: loc, value }
    }

    /// Lexes the rest of the source, appending the tokens read; lexing stops at the end
    /// of the input or at the first byte inside a multi-byte character.
    pub fn lex(&mut self)
        requires
            old(self).wf(),
        ensures
            final(self).wf(),
            final(self).same_input(&*old(self)),
            ({
                let r = old_lex_from(old(self).table@, old(self).cursor());
                &&& tokens_view(final(self).tokens@) == tokens_view(old(self).tokens@) + r.0
                &&& final(self).cursor() == r.1
            }),
    {
        let ghost t = self.table@;
        let ghost c0 = self.cursor();
        let ghost mut added: Seq<TokenV> = Seq::empty();
        loop
            invariant
                self.wf(),
                self.same_input(&*old(self)),
                t == self.table@,
                c0 == old(self).cursor(),
                tokens_view(self.tokens@) == tokens_view(old(self).tokens@) + added,
                old_lex_from(t, c0) == (
                    added + old_lex_from(t, self.cursor()).0,
                    old_lex_from(t, self.cursor()).1,
                ),
            decreases t.len() + 3 - self.token_idx,
        {
            match self.get_char() {
                None => {
                    assert(added + Seq::<TokenV>::empty() =~= added);
                    return;
                },
                Some(ch) => {
                    let ghost c = self.cursor();
                    let ghost o = old_rule_at(t, c, ch);
                    let ghost before = self.tokens@;
                    proof {
                        lemma_old_rule_progress(t, c, ch);
                        if !(o.1.0 < t.len()) {
                            assert(char_at(t, o.1.0) is None);
                            assert(old_lex_from(t, o.1) == (Seq::<TokenV>::empty(), o.1));
                            assert(old_token_seq(o.0) + Seq::<TokenV>::empty() =~= old_token_seq(o.0));
                        }
                    }
                    if is_numeric(ch) {
                        let tk = self.lex_numeric();
                        self.add_token(tk);
                        assert(tokens_view(self.tokens@) =~= tokens_view(before) + seq![tk.view()]);
                    } else if is_alphabetic(ch) {
                        let tk = self.lex_identifier_and_keyword();
                        self.add_token(tk);
                        assert(tokens_view(self.tokens@) =~= tokens_view(before) + seq![tk.view()]);
                    } else {
                        match ch {
                            '=' => {
                                let tk = self.lex_assign();
                                self.add_token(tk);
                                assert(tokens_view(self.tokens@) =~= tokens_view(before) + seq![tk.view()]);
                            },
                            '"' => {
                                let tk = self.lex_string();
                                self.add_token(tk);
                                assert(tokens_view(self.tokens@) =~= tokens_view(before) + seq![tk.view()]);
                            },
                            ';' => self.single_char(TokenType::SemiColon),
                            '(' => self.single_char(TokenType::LParen),
                            ')' => self.single_char(TokenType::RParen),
                            '{' => self.single_char(TokenType::LBrace),
                            '}' => self.single_char(TokenType::RBrace),
                            '+' => self.single_char(TokenType::Add),
                            '-' => self.single_char(TokenType::Minus),
                            '*' => self.single_char(TokenType::Multiply),
                            '/' => self.single_char(TokenType::Divide),
                            '%' => self.single_char(TokenType::Modulo),
                            _ => {
                                self.advance();
                                assert(tokens_view(self.tokens@) =~= tokens_view(before)
                                    + Seq::<TokenV>::empty());
                            },
                        }
                    }
                    proof {
                        assert(added + old_token_seq(o.0) + old_lex_from(t, o.1).0 =~= added + (
                        old_token_seq(o.0) + old_lex_from(t, o.1).0));
                        added = added + old_token_seq(o.0);
                    }
                },
            }
        }
    }
}

} // verus!
