//! The recursive-descent parser: tokens in, a program and a list of errors out.
//!
//! Every parsing method keeps the tokens as they are, never moves the position back,
//! and only adds errors; a method that returns something has consumed at least one token.
use crate::lexing::lexing::{token_type_name, token_type_text, Token, TokenType};
use crate::lexing::chars::{alphabetic_char, numeric_char};
use crate::lexing::lexer::{char_at, pair_rule, rule_at, single_rule, Cursor, Outcome};
use crate::ir::irgen::{fold_v, ConstValV};
use crate::parse::parsing::{
    BinaryOp, Expr, ExprKind, Identifier, Literal, Parameter, ParserError, ParserErrorType,
    Program, Stmt, Type, TypeV, UnaryOp,
};
use crate::ir::irgen::{all_simple_fns, simple_fn_decl, simple_fn_names};
use crate::utils::location::Location;
use crate::utils::text::{
    chars_of, concat, concat3, debug_quoted, debug_text, parse_i64, parsed_i64, str_eq,
};
use crate::utils::toident::to_ident;
use crate::utils::typesafe::variadic::{parse_usize, parsed_usize};
use vstd::prelude::*;
use vstd::string::*;

verus! {

/// Whether the tokens can be parsed without a failing conversion: every integer literal
/// reads as an `i64` and as a `usize`, and every character literal holds a character.
pub open spec fn tokens_ok(toks: Seq<Token>) -> bool {
    forall|i: int|
        0 <= i < toks.len() ==> {
            &&& (#[trigger] toks[i]).ttype == TokenType::IntLiteral ==> parsed_i64(toks[i].value@) is Some
                && parsed_usize(toks[i].value@) is Some
            &&& toks[i].ttype == TokenType::CharLiteral ==> toks[i].value@.len() > 0
        }
}

/// Whether the tokens can be parsed without a failing conversion, as `tokens_ok` says.
pub fn tokens_are_ok(toks: &Vec<Token>) -> (res: bool)
    ensures
        res == tokens_ok(toks@),
{
    let mut i: usize = 0;
    while i < toks.len()
        invariant
            0 <= i <= toks@.len(),
            forall|j: int| 0 <= j < i ==> {
                &&& (#[trigger] toks@[j]).ttype == TokenType::IntLiteral ==> parsed_i64(toks@[j].value@) is Some
                    && parsed_usize(toks@[j].value@) is Some
                &&& toks@[j].ttype == TokenType::CharLiteral ==> toks@[j].value@.len() > 0
            },
        decreases toks.len() - i,
    {
        let t = &toks[i];
        let cs = chars_of(t.value.as_str());
        if matches!(t.ttype, TokenType::IntLiteral) {
            proof {
                assert(cs@.skip(0) =~= cs@);
            }
            if parse_i64(t.value.as_str()).is_none() || parse_usize(&cs, 0).is_none() {
                return false;
            }
        }
        if matches!(t.ttype, TokenType::CharLiteral) && cs.len() == 0 {
            return false;
        }
        i = i + 1;
    }
    true
}

/// How `{:?}` writes an optional token kind.
pub open spec fn opt_type_text(t: Option<TokenType>) -> Seq<char> {
    match t {
        Some(k) => "Some("@ + token_type_text(k) + ")"@,
        None => "None"@,
    }
}

/// How `{:?}` writes an optional token kind.
fn opt_type_name(t: Option<TokenType>) -> (res: String)
    ensures
        res@ == opt_type_text(t),
{
    match t {
        Some(k) => concat3("Some(", token_type_name(k), ")"),
        None => String::from_str("None"),
    }
}

/// A statement that a token of kind `k` can begin: a keyword its own kind of statement,
/// `*` an assignment through a pointer, a name an assignment or an expression, and any
/// other token an expression.
pub open spec fn begins(k: TokenType, s: Stmt) -> bool {
    match k {
        TokenType::VarKeyword => s is Assignment,
        TokenType::StructKeyword => s is Struct,
        TokenType::IfKeyword => s is If,
        TokenType::WhileKeyword => s is While,
        TokenType::FnKeyword => s is Function,
        TokenType::ForKeyword => s is For,
        TokenType::ReturnKeyword => s is Return,
        TokenType::BreakKeyword => s is Break,
        TokenType::UseKeyword => s is Use,
        TokenType::ExternKeyword => s is Extern,
        TokenType::Identifier => s is Reassignment || s is DerefReassignment || s is Expr,
        TokenType::Star => s is DerefReassignment,
        _ => s is Expr,
    }
}

/// The tokens at `i` declare an empty function: `fn`, a name, `(`, `)`, `{`, `}`.
pub open spec fn empty_fn_at(toks: Seq<Token>, i: int) -> bool {
    &&& 0 <= i
    &&& i + 6 <= toks.len()
    &&& toks[i].ttype == TokenType::FnKeyword
    &&& toks[i + 1].ttype == TokenType::Identifier
    &&& toks[i + 2].ttype == TokenType::LParen
    &&& toks[i + 3].ttype == TokenType::RParen
    &&& toks[i + 4].ttype == TokenType::LBrace
    &&& toks[i + 5].ttype == TokenType::RBrace
}

/// The tokens from `start` are declarations `fn name() { };` of empty functions, one
/// after another to the end, named `names` in order.
pub open spec fn empty_fn_decls(toks: Seq<Token>, start: int, names: Seq<Seq<char>>) -> bool {
    &&& 0 <= start
    &&& toks.len() == start + 7 * names.len()
    &&& forall|k: int| 0 <= k < names.len() ==> #[trigger] empty_fn_at(toks, start + 7 * k) && toks[start + 7 * k
        + 6].ttype == TokenType::SemiColon && toks[start + 7 * k + 1].value@ == names[k]
}

/// A token that ends an expression: `)`, `]`, `}`, `,` or `;`.
pub open spec fn closes(k: TokenType) -> bool {
    k == TokenType::RParen || k == TokenType::RBracket || k == TokenType::RBrace || k == TokenType::Comma || k
        == TokenType::SemiColon
}

/// The precedence level of a binary operator token, loosest first: `==` and `!=`, then
/// the comparisons, then `+` and `-`, then `*`, `/` and `%`.
pub open spec fn op_level(k: TokenType) -> Option<int> {
    match k {
        TokenType::Equals | TokenType::NotEquals => Some(0),
        TokenType::LessThan | TokenType::LessThanEquals | TokenType::GreaterThan | TokenType::GreaterThanEquals => Some(
            1,
        ),
        TokenType::Add | TokenType::Minus => Some(2),
        TokenType::Multiply | TokenType::Divide | TokenType::Modulo => Some(3),
        _ => None,
    }
}

/// The operator that a binary operator token stands for.
pub open spec fn op_of(k: TokenType) -> BinaryOp {
    match k {
        TokenType::Equals => BinaryOp::Eq,
        TokenType::NotEquals => BinaryOp::NEq,
        TokenType::LessThan => BinaryOp::Lt,
        TokenType::LessThanEquals => BinaryOp::LtE,
        TokenType::GreaterThan => BinaryOp::Gt,
        TokenType::GreaterThanEquals => BinaryOp::GtE,
        TokenType::Add => BinaryOp::Add,
        TokenType::Minus => BinaryOp::Sub,
        TokenType::Multiply => BinaryOp::Mul,
        TokenType::Divide => BinaryOp::Div,
        _ => BinaryOp::Mod,
    }
}

/// What the operator sign `s` gives on the integers `a` and `b`: `==`, `!=`, `<`, `<=`,
/// `>`, `>=` the truth of that comparison; `+`, `-`, `*` the sum, difference and product
/// where it fits in 64 bits.
pub open spec fn written_meaning(s: Seq<char>, a: i64, b: i64) -> Option<ConstValV> {
    if s == seq!['=', '='] {
        Some(ConstValV::Bool(a == b))
    } else if s == seq!['!', '='] {
        Some(ConstValV::Bool(a != b))
    } else if s == seq!['<'] {
        Some(ConstValV::Bool(a < b))
    } else if s == seq!['<', '='] {
        Some(ConstValV::Bool(a <= b))
    } else if s == seq!['>'] {
        Some(ConstValV::Bool(a > b))
    } else if s == seq!['>', '='] {
        Some(ConstValV::Bool(a >= b))
    } else if s == seq!['+'] && i64::MIN <= a + b <= i64::MAX {
        Some(ConstValV::Int((a + b) as i64))
    } else if s == seq!['-'] && i64::MIN <= a - b <= i64::MAX {
        Some(ConstValV::Int((a - b) as i64))
    } else if s == seq!['*'] && i64::MIN <= a * b <= i64::MAX {
        Some(ConstValV::Int((a * b) as i64))
    } else {
        None
    }
}

/// The token `o` reads, if it is a binary operator, is parsed as the operator that folds
/// two integers as the token's written sign says.
pub open spec fn sign_folds(o: Outcome, a: i64, b: i64) -> bool {
    o.0 matches Some(tok) && (op_level(tok.0) is Some ==> fold_v(op_of(tok.0), ConstValV::Int(a), ConstValV::Int(b))
        == written_meaning(tok.2, a, b))
}

/// Every binary operator sign the lexer reads, wherever it stands in any text, is parsed
/// as the operator that means what the sign says: `>=` compares by greater-or-equal, `>`
/// by greater, and so on for `==`, `!=`, `<`, `<=`, and `+`, `-`, `*` compute the sum,
/// difference and product.
pub proof fn law_operator_signs_mean_what_they_say(t: Seq<Option<char>>, f: Seq<char>, c: Cursor, a: i64, b: i64)
    ensures
        char_at(t, c.0) == Some('>') ==> sign_folds(
            pair_rule(t, f, c, '=', TokenType::GreaterThan, TokenType::GreaterThanEquals, "'>'"@),
            a,
            b,
        ),
        char_at(t, c.0) == Some('<') ==> sign_folds(
            pair_rule(t, f, c, '=', TokenType::LessThan, TokenType::LessThanEquals, "'<'"@),
            a,
            b,
        ),
        char_at(t, c.0) == Some('=') ==> sign_folds(
            pair_rule(t, f, c, '=', TokenType::Assign, TokenType::Equals, "'='"@),
            a,
            b,
        ),
        char_at(t, c.0) == Some('!') ==> sign_folds(
            pair_rule(t, f, c, '=', TokenType::Not, TokenType::NotEquals, "'!'"@),
            a,
            b,
        ),
        char_at(t, c.0) == Some('+') ==> sign_folds(single_rule(t, f, c, TokenType::Add), a, b),
        char_at(t, c.0) == Some('-') ==> sign_folds(single_rule(t, f, c, TokenType::Minus), a, b),
        char_at(t, c.0) == Some('*') ==> sign_folds(single_rule(t, f, c, TokenType::Multiply), a, b),
{
    assert(seq!['>', '='] != seq!['=', '='] && seq!['>', '='] != seq!['!', '='] && seq!['>', '='] != seq!['<', '=']) by {
        assert(seq!['>', '='][0] == '>');
        assert(seq!['=', '='][0] == '=');
        assert(seq!['!', '='][0] == '!');
        assert(seq!['<', '='][0] == '<');
    }
    assert(seq!['<', '='] != seq!['=', '='] && seq!['<', '='] != seq!['!', '=']) by {
        assert(seq!['<', '='][0] == '<');
        assert(seq!['=', '='][0] == '=');
        assert(seq!['!', '='][0] == '!');
    }
    assert(seq!['!', '='] != seq!['=', '=']) by {
        assert(seq!['!', '='][0] == '!');
        assert(seq!['=', '='][0] == '=');
    }
    assert(seq!['>'] != seq!['<'] && seq!['-'] != seq!['+'] && seq!['*'] != seq!['+'] && seq!['*'] != seq!['-'])
        by {
        assert(seq!['>'][0] == '>');
        assert(seq!['<'][0] == '<');
        assert(seq!['+'][0] == '+');
        assert(seq!['-'][0] == '-');
        assert(seq!['*'][0] == '*');
    }
    assert(seq!['>'] != seq!['=', '='] && seq!['>'] != seq!['!', '='] && seq!['<'] != seq!['=', '='] && seq!['<']
        != seq!['!', '='] && seq!['>'] != seq!['<', '='] && seq!['<'] != seq!['<', '='] && seq!['>'] != seq!['>', '=']) by {
        assert(seq!['>'].len() == 1 && seq!['<'].len() == 1);
        assert(seq!['=', '='].len() == 2 && seq!['!', '='].len() == 2 && seq!['<', '='].len() == 2 && seq!['>', '='].len() == 2);
    }
    assert(seq!['>', '='] != seq!['<']) by {
        assert(seq!['<'].len() == 1);
    }
    assert(written_meaning(seq!['>', '='], a, b) == Some(ConstValV::Bool(a >= b)));
    assert(written_meaning(seq!['<', '='], a, b) == Some(ConstValV::Bool(a <= b)));
    assert(written_meaning(seq!['>'], a, b) == Some(ConstValV::Bool(a > b)));
    assert(written_meaning(seq!['<'], a, b) == Some(ConstValV::Bool(a < b)));
    assert(seq!['+'] != seq!['<'] && seq!['+'] != seq!['>'] && seq!['-'] != seq!['<'] && seq!['-'] != seq!['>']
        && seq!['*'] != seq!['<'] && seq!['*'] != seq!['>']) by {
        assert(seq!['>'][0] == '>');
        assert(seq!['<'][0] == '<');
        assert(seq!['+'][0] == '+');
        assert(seq!['-'][0] == '-');
        assert(seq!['*'][0] == '*');
    }
}

/// The lexer and the parser agree on every operator sign: the token the lexer reads at a
/// sign `>`, `<`, `=`, `!`, `+`, `-` or `*` (characters that are neither letters nor
/// digits), wherever it stands in any text, is parsed, when it is a binary operator, as
/// the operator that means what the token's written sign says.
pub proof fn law_read_signs_mean_what_they_say(t: Seq<Option<char>>, f: Seq<char>, c: Cursor, ch: char, a: i64, b: i64)
    requires
        char_at(t, c.0) == Some(ch),
        ch == '>' || ch == '<' || ch == '=' || ch == '!' || ch == '+' || ch == '-' || ch == '*',
        !numeric_char(ch),
        !alphabetic_char(ch),
    ensures
        sign_folds(rule_at(t, f, c, ch), a, b),
{
    law_operator_signs_mean_what_they_say(t, f, c, a, b);
}

/// The tokens from `lo` are a chain of `n` binary operators between `n + 1` operands,
/// each an integer literal or a name, followed by the end of the tokens or by a token
/// that ends an expression.
pub open spec fn chain(toks: Seq<Token>, lo: int, n: int) -> bool {
    &&& 0 <= lo
    &&& 0 <= n
    &&& lo + 2 * n < toks.len()
    &&& forall|m: int| 0 <= m <= n ==> (#[trigger] toks[lo + 2 * m].ttype == TokenType::IntLiteral || toks[lo + 2
        * m].ttype == TokenType::Identifier)
    &&& forall|m: int| 0 <= m < n ==> #[trigger] op_level(toks[lo + 2 * m + 1].ttype) is Some
    &&& lo + 2 * n + 1 == toks.len() || closes(toks[lo + 2 * n + 1].ttype)
}

/// The level of operator number `m` of the chain from `lo`.
pub open spec fn level_at(toks: Seq<Token>, lo: int, m: int) -> int {
    op_level(toks[lo + 2 * m + 1].ttype)->0
}

/// The last operand of the part of the chain from `lo` (of `n` operators) that starts at
/// operand `m` and that a reader of level `l` takes: up to the first operator of a looser
/// level, or to the end of the chain.
pub open spec fn seg_end(toks: Seq<Token>, lo: int, n: int, m: int, l: int) -> int
    decreases n - m,
{
    if m >= n {
        n
    } else if level_at(toks, lo, m) < l {
        m
    } else {
        seg_end(toks, lo, n, m + 1, l)
    }
}

/// The last operator among operators `a` to `b - 1` of the chain from `lo` that is of
/// level `l`, if there is one.
pub open spec fn last_at_level(toks: Seq<Token>, lo: int, a: int, b: int, l: int) -> Option<int>
    decreases b - a,
{
    if b <= a {
        None
    } else if level_at(toks, lo, b - 1) == l {
        Some(b - 1)
    } else {
        last_at_level(toks, lo, a, b - 1, l)
    }
}

/// `e` is operand `m` of the chain from `lo`: its integer or its name.
pub open spec fn operand_ok(e: Expr, toks: Seq<Token>, lo: int, m: int) -> bool {
    let t = toks[lo + 2 * m];
    ||| t.ttype == TokenType::IntLiteral && e.kind == ExprKind::Literal(Literal::Int(parsed_i64(t.value@)->0))
    ||| t.ttype == TokenType::Identifier && e.kind is Identifier && e.kind->Identifier_0@ == t.value@
}

/// `e` is the expression that operands `a` to `b` of the chain from `lo` read as, at
/// level `l` and tighter: the last operator of level `l` is the root, its left side read
/// again at level `l` and its right side at the next level (operators of one level group
/// to the left); without such an operator, the whole is read at the next level.
pub open spec fn tree_ok(e: Expr, toks: Seq<Token>, lo: int, a: int, b: int, l: int) -> bool
    decreases b - a, 4 - l,
{
    if a > b || l > 4 || l < 0 {
        false
    } else if l == 4 {
        a == b && operand_ok(e, toks, lo, a)
    } else {
        match last_at_level(toks, lo, a, b, l) {
            Some(m) => if a <= m < b {
                e.kind matches ExprKind::Binary { left, op, right } && op == op_of(toks[lo + 2 * m + 1].ttype)
                    && tree_ok(*left, toks, lo, a, m, l) && tree_ok(*right, toks, lo, m + 1, b, l + 1)
            } else {
                false
            },
            None => tree_ok(e, toks, lo, a, b, l + 1),
        }
    }
}

/// What `seg_end` gives: a part no longer than the chain, whose operators are of level
/// `l` or tighter, ended by a looser operator unless it reaches the end.
pub proof fn lemma_seg_end(toks: Seq<Token>, lo: int, n: int, m: int, l: int)
    requires
        0 <= m <= n,
    ensures
        m <= seg_end(toks, lo, n, m, l) <= n,
        forall|k: int| m <= k < seg_end(toks, lo, n, m, l) ==> level_at(toks, lo, k) >= l,
        seg_end(toks, lo, n, m, l) < n ==> level_at(toks, lo, seg_end(toks, lo, n, m, l)) < l,
        forall|j: int| m <= j <= seg_end(toks, lo, n, m, l) ==> seg_end(toks, lo, n, j, l) == seg_end(toks, lo, n, m, l),
    decreases n - m,
{
    if m < n && level_at(toks, lo, m) >= l {
        lemma_seg_end(toks, lo, n, m + 1, l);
    }
}

/// No operator of level `l` among operators `a` to `b - 1` means none is found there.
pub proof fn lemma_no_last(toks: Seq<Token>, lo: int, a: int, b: int, l: int)
    requires
        forall|k: int| a <= k < b ==> level_at(toks, lo, k) != l,
    ensures
        last_at_level(toks, lo, a, b, l) is None,
    decreases b - a,
{
    if b > a {
        lemma_no_last(toks, lo, a, b - 1, l);
    }
}

/// An operator `c` of level `l` with none of that level after it up to `b` is the last.
pub proof fn lemma_last_is(toks: Seq<Token>, lo: int, a: int, b: int, c: int, l: int)
    requires
        a <= c < b,
        level_at(toks, lo, c) == l,
        forall|k: int| c < k < b ==> level_at(toks, lo, k) != l,
    ensures
        last_at_level(toks, lo, a, b, l) == Some(c),
    decreases b - a,
{
    if b - 1 != c {
        lemma_last_is(toks, lo, a, b - 1, c, l);
    }
}

/// At an operand of a chain, the current token is an integer literal or a name, the
/// next one cannot continue it, and a reader of the tightest level takes it alone.
pub proof fn lemma_operand_at(p: Parser, lo: int, n: int)
    requires
        p.at_operand(lo, n),
    ensures
        p.cur_kind() == Some(TokenType::IntLiteral) || p.cur_kind() == Some(TokenType::Identifier),
        match p.kind_at(p.token_idx + 1) {
            None => true,
            Some(k) => closes(k) || op_level(k) is Some,
        },
        seg_end(p.tokens@, lo, n, (p.token_idx - lo) / 2, 4) == (p.token_idx - lo) / 2,
        p.token_idx == lo + 2 * ((p.token_idx - lo) / 2),
{
    let m = (p.token_idx - lo) / 2;
    assert(p.token_idx == lo + 2 * m);
    assert(p.tokens@[lo + 2 * m].ttype == TokenType::IntLiteral || p.tokens@[lo + 2 * m].ttype
        == TokenType::Identifier);
    if m < n {
        assert(op_level(p.tokens@[lo + 2 * m + 1].ttype) is Some);
        assert(level_at(p.tokens@, lo, m) < 4);
    }
}

/// A reader of level `l` that has read an expression at level `l + 1` from operand `m0`
/// has read it at level `l` too, and has stopped inside its own part, before an
/// operator of level `l` unless at the end of that part.
pub proof fn lemma_level_start(toks: Seq<Token>, lo: int, n: int, m0: int, l: int, left: Expr)
    requires
        chain(toks, lo, n),
        0 <= l < 4,
        0 <= m0 <= n,
        tree_ok(left, toks, lo, m0, seg_end(toks, lo, n, m0, l + 1), l + 1),
    ensures
        tree_ok(left, toks, lo, m0, seg_end(toks, lo, n, m0, l + 1), l),
        m0 <= seg_end(toks, lo, n, m0, l + 1) <= seg_end(toks, lo, n, m0, l),
        seg_end(toks, lo, n, m0, l + 1) < seg_end(toks, lo, n, m0, l) ==> level_at(
            toks,
            lo,
            seg_end(toks, lo, n, m0, l + 1),
        ) == l,
{
    let s1 = seg_end(toks, lo, n, m0, l + 1);
    let s = seg_end(toks, lo, n, m0, l);
    lemma_seg_end(toks, lo, n, m0, l + 1);
    lemma_seg_end(toks, lo, n, m0, l);
    lemma_no_last(toks, lo, m0, s1, l);
    if s1 > s {
        assert(level_at(toks, lo, s) >= l + 1);
    }
}

/// One more step of a reader of level `l`: after `left` (operands `m0` to `cur`) and the
/// operator of level `l` after operand `cur`, the right side read at level `l + 1`
/// gives, joined to `left`, the expression from `m0` at level `l`, and the reader is
/// again inside its part.
pub proof fn lemma_level_step(
    toks: Seq<Token>,
    lo: int,
    n: int,
    m0: int,
    cur: int,
    l: int,
    left: Expr,
    right: Expr,
    e: Expr,
)
    requires
        chain(toks, lo, n),
        0 <= l < 4,
        0 <= m0 <= cur,
        cur < seg_end(toks, lo, n, m0, l),
        seg_end(toks, lo, n, m0, l) <= n,
        level_at(toks, lo, cur) == l,
        tree_ok(left, toks, lo, m0, cur, l),
        tree_ok(right, toks, lo, cur + 1, seg_end(toks, lo, n, cur + 1, l + 1), l + 1),
        e.kind == (ExprKind::Binary {
            left: Box::new(left),
            op: op_of(toks[lo + 2 * cur + 1].ttype),
            right: Box::new(right),
        }),
    ensures
        tree_ok(e, toks, lo, m0, seg_end(toks, lo, n, cur + 1, l + 1), l),
        cur < seg_end(toks, lo, n, cur + 1, l + 1) <= seg_end(toks, lo, n, m0, l),
        seg_end(toks, lo, n, cur + 1, l + 1) < seg_end(toks, lo, n, m0, l) ==> level_at(
            toks,
            lo,
            seg_end(toks, lo, n, cur + 1, l + 1),
        ) == l,
{
    let s = seg_end(toks, lo, n, m0, l);
    let s2 = seg_end(toks, lo, n, cur + 1, l + 1);
    lemma_seg_end(toks, lo, n, m0, l);
    lemma_seg_end(toks, lo, n, cur + 1, l + 1);
    lemma_seg_end(toks, lo, n, cur + 1, l);
    assert(seg_end(toks, lo, n, cur + 1, l) == s);
    if s2 > s {
        assert(level_at(toks, lo, s) >= l + 1);
    }
    lemma_last_is(toks, lo, m0, s2, cur, l);
    if s2 < s {
        assert(level_at(toks, lo, s2) >= l);
    }
}

/// The tokens from `start` are one expression statement to the end: a chain of `n`
/// operators that starts with an integer literal, and a `;`.
pub open spec fn expr_statement(toks: Seq<Token>, start: int, n: int) -> bool {
    &&& chain(toks, start, n)
    &&& toks[start].ttype == TokenType::IntLiteral
    &&& toks.len() == start + 2 * n + 2
    &&& toks[start + 2 * n + 1].ttype == TokenType::SemiColon
}

/// `starts` gives, for each statement, the token it was read from: positions in
/// increasing order, each at a token that can begin that statement.
pub open spec fn statement_starts(toks: Seq<Token>, stmts: Seq<Stmt>, starts: Seq<int>) -> bool {
    &&& starts.len() == stmts.len()
    &&& forall|i: int|
        0 <= i < starts.len() ==> 0 <= starts[i] < toks.len() && begins(toks[starts[i]].ttype, #[trigger] stmts[i])
    &&& forall|i: int, j: int| 0 <= i < j < starts.len() ==> starts[i] < starts[j]
}

/// The type a built-in or struct name denotes: `int`, `bool`, `str`, `void`, `any` and
/// `char` their own types, any other name the struct of that name.
pub open spec fn named_type(n: Seq<char>) -> TypeV {
    if n == "int"@ {
        TypeV::Int
    } else if n == "bool"@ {
        TypeV::Bool
    } else if n == "str"@ {
        TypeV::Str
    } else if n == "void"@ {
        TypeV::Void
    } else if n == "any"@ {
        TypeV::Any
    } else if n == "char"@ {
        TypeV::Char
    } else {
        TypeV::Struct(n)
    }
}

/// A parser over a list of tokens.
pub struct Parser {
    pub tokens: Vec<Token>,
    pub token_idx: usize,
    pub ast: Program,
    pub parser_errs: Vec<ParserError>,
}

impl Parser {
    /// The kind of the token at `i`, if there is one.
    pub open spec fn kind_at(&self, i: int) -> Option<TokenType> {
        if 0 <= i < self.tokens@.len() {
            Some(self.tokens@[i].ttype)
        } else {
            None
        }
    }

    /// The kind of the current token, if there is one.
    pub open spec fn cur_kind(&self) -> Option<TokenType> {
        self.kind_at(self.token_idx as int)
    }

    /// The current token is an integer literal that stands alone: the tokens end after it,
    /// or the next one closes something or separates (`)`, `]`, `}`, `,` or `;`).
    pub open spec fn lone_int(&self) -> bool {
        &&& self.cur_kind() == Some(TokenType::IntLiteral)
        &&& match self.kind_at(self.token_idx + 1) {
            None => true,
            Some(k) => k == TokenType::RParen || k == TokenType::RBracket || k == TokenType::RBrace || k
                == TokenType::Comma || k == TokenType::SemiColon,
        }
    }

    /// The current token is a name that stands alone: the tokens end after it, or the
    /// next one closes something or separates (`)`, `]`, `}`, `,` or `;`).
    pub open spec fn lone_ident(&self) -> bool {
        &&& self.cur_kind() == Some(TokenType::Identifier)
        &&& match self.kind_at(self.token_idx + 1) {
            None => true,
            Some(k) => k == TokenType::RParen || k == TokenType::RBracket || k == TokenType::RBrace || k
                == TokenType::Comma || k == TokenType::SemiColon,
        }
    }

    /// `res` is the name read from `before` as an expression, and `self` is one token on
    /// from it, with no error more.
    pub open spec fn read_lone_ident(&self, before: Parser, res: Option<Expr>) -> bool {
        &&& res matches Some(e)
        &&& res->0.kind matches ExprKind::Identifier(n)
        &&& res->0.kind->Identifier_0@ == before.tokens@[before.token_idx as int].value@
        &&& self.token_idx == before.token_idx + 1
        &&& self.parser_errs@ == before.parser_errs@
    }

    /// The value of the current token read as an integer.
    pub open spec fn cur_int(&self) -> i64 {
        parsed_i64(self.tokens@[self.token_idx as int].value@)->0
    }

    /// `res` is the literal of a lone integer read from `before`, and `self` is one token on
    /// from it, with no error more.
    pub open spec fn read_lone_int(&self, before: Parser, res: Option<Expr>) -> bool {
        &&& res matches Some(e)
        &&& res->0.kind == ExprKind::Literal(Literal::Int(before.cur_int()))
        &&& self.token_idx == before.token_idx + 1
        &&& self.parser_errs@ == before.parser_errs@
    }

    /// The parser is inside its tokens, has some, and they convert without failure.
    pub open spec fn ready(&self) -> bool {
        &&& self.token_idx <= self.tokens@.len()
        &&& self.tokens@.len() > 0
        &&& tokens_ok(self.tokens@)
    }

    /// `self` is a later state of a parse that was at `before`: the same tokens and program,
    /// a position no further back, and the same errors with perhaps more after them.
    pub open spec fn follows(self, before: Parser) -> bool {
        &&& self.tokens@ == before.tokens@
        &&& before.token_idx <= self.token_idx <= self.tokens@.len()
        &&& before.parser_errs@.len() <= self.parser_errs@.len()
        &&& forall|k: int|
            0 <= k < before.parser_errs@.len() ==> self.parser_errs@[k] == before.parser_errs@[k]
        &&& self.ast == before.ast
    }

    /// The location that errors found now are reported at: that of the last token read,
    /// or of the first token before any is read.
    pub open spec fn error_location(&self) -> (usize, usize, Seq<char>) {
        if self.token_idx == 0 {
            self.tokens@[0].location.view()
        } else {
            self.tokens@[self.token_idx - 1].location.view()
        }
    }

    /// `self` is `before` with one error more, of kind `etype` and at the location where
    /// `before` reports errors.
    pub open spec fn one_error_more(self, before: Parser, etype: ParserErrorType) -> bool {
        &&& self.parser_errs@.len() == before.parser_errs@.len() + 1
        &&& forall|k: int|
            0 <= k < before.parser_errs@.len() ==> self.parser_errs@[k] == before.parser_errs@[k]
        &&& self.parser_errs@.last().etype == etype
        &&& self.parser_errs@.last().location.view() == before.error_location()
    }

    /// The parser is at an operand of the chain of `n` operators from `lo`.
    pub open spec fn at_operand(&self, lo: int, n: int) -> bool {
        &&& chain(self.tokens@, lo, n)
        &&& lo <= self.token_idx
        &&& (self.token_idx - lo) % 2 == 0
        &&& (self.token_idx - lo) / 2 <= n
    }

    /// The current token cannot continue an operand: the tokens have ended, or it ends an
    /// expression, or it is a binary operator.
    pub open spec fn after_operand(&self) -> bool {
        match self.cur_kind() {
            None => true,
            Some(k) => closes(k) || op_level(k) is Some,
        }
    }

    /// From `before`, at an operand of the chain of `n` operators from `lo`, `res` is what
    /// a reader of level `l` reads there (up to the first looser operator), `self` is just
    /// past it, and no error was recorded.
    pub open spec fn reads_part(&self, before: Parser, res: Option<Expr>, lo: int, n: int, l: int) -> bool {
        let m = (before.token_idx - lo) / 2;
        let s = seg_end(before.tokens@, lo, n, m, l);
        &&& res matches Some(e) && tree_ok(e, before.tokens@, lo, m, s, l)
        &&& self.token_idx == lo + 2 * s + 1
        &&& self.parser_errs@ == before.parser_errs@
    }

    /// A parser at the start of `tokens`, with no program and no error.
    pub fn new(tokens: Vec<Token>) -> (res: Self)
        ensures
            res.tokens@ == tokens@,
            res.token_idx == 0,
            res.ast.statements@.len() == 0,
            res.parser_errs@.len() == 0,
    {
        Self {
            tokens,
            token_idx: 0,
            ast: Program { statements: Vec::new() },
            parser_errs: Vec::new(),
        }
    }

    /// Whether every token has been read.
    fn eof(&self) -> (res: bool)
        ensures
            res == (self.token_idx >= self.tokens@.len()),
    {
        self.token_idx >= self.tokens.len()
    }

    /// Whether the current token is of kind `t`.
    fn at(&self, t: TokenType) -> (res: bool)
        ensures
            res == (self.cur_kind() == Some(t)),
    {
        self.token_idx < self.tokens.len() && self.tokens[self.token_idx].ttype == t
    }

    /// The kind of the current token, if there is one.
    fn current_kind(&self) -> (res: Option<TokenType>)
        ensures
            res == self.cur_kind(),
    {
        if self.token_idx < self.tokens.len() {
            Some(self.tokens[self.token_idx].ttype)
        } else {
            None
        }
    }

    /// A copy of the current token, if there is one.
    fn get_token(&self) -> (res: Option<Token>)
        ensures
            match res {
                Some(t) => self.token_idx < self.tokens@.len() && t.view()
                    == self.tokens@[self.token_idx as int].view(),
                None => self.token_idx >= self.tokens@.len(),
            },
    {
        if self.token_idx < self.tokens.len() {
            Some(self.tokens[self.token_idx].duplicate())
        } else {
            None
        }
    }

    /// Records an error at the location of the last token read, and returns a token
    /// standing for the failure there.
    fn throw(&mut self, etype: ParserErrorType, message: String) -> (res: Token)
        requires
            old(self).ready(),
        ensures
            final(self).ready(),
            final(self).tokens@ == old(self).tokens@,
            final(self).token_idx == old(self).token_idx,
            final(self).ast == old(self).ast,
            final(self).one_error_more(*old(self), etype),
            final(self).parser_errs@.last().message@ == message@,
            res.ttype == TokenType::Niltoken,
            res.location.view() == old(self).error_location(),
            res.value@ == "ERROR"@,
    {
        let at: usize = if self.token_idx == 0 {
            0
        } else {
            self.token_idx - 1
        };
        let location = self.tokens[at].location.duplicate();
        let for_token = location.duplicate();
        self.parser_errs.push(ParserError { etype, message, location });
        Token { ttype: TokenType::Niltoken, location: for_token, value: String::from_str("ERROR") }
    }

    /// Moves to the next token, if there is one.
    fn advance(&mut self)
        ensures
            final(self).tokens@ == old(self).tokens@,
            final(self).ast == old(self).ast,
            final(self).parser_errs@ == old(self).parser_errs@,
            final(self).token_idx == (if old(self).token_idx < old(self).tokens@.len() {
                old(self).token_idx + 1
            } else {
                old(self).token_idx as int
            }),
    {
        if self.token_idx < self.tokens.len() {
            self.token_idx += 1;
        }
    }

    /// Takes the current token if it is of kind `ttype`; records an error if it is of
    /// another kind. At the end of the tokens nothing happens.
    fn expect(&mut self, ttype: TokenType) -> (res: Option<Token>)
        requires
            old(self).ready(),
        ensures
            final(self).ready(),
            final(self).tokens@ == old(self).tokens@,
            final(self).ast == old(self).ast,
            match old(self).cur_kind() {
                None => res is None && final(self).token_idx == old(self).token_idx
                    && final(self).parser_errs@ == old(self).parser_errs@,
                Some(k) => if k == ttype {
                    &&& res matches Some(t) && t.view()
                        == old(self).tokens@[old(self).token_idx as int].view()
                    &&& final(self).token_idx == old(self).token_idx + 1
                    &&& final(self).parser_errs@ == old(self).parser_errs@
                } else {
                    &&& res is None
                    &&& final(self).token_idx == old(self).token_idx
                    &&& final(self).one_error_more(*old(self), ParserErrorType::UnexpectedTokenTypeError)
                    &&& final(self).parser_errs@.last().message@ == "Expected "@ + token_type_text(
                        ttype,
                    ) + ", found "@ + token_type_text(k) + " '"@ + debug_text(
                        old(self).tokens@[old(self).token_idx as int].value@,
                    ) + "'"@
                },
            },
    {
        let tk = match self.get_token() {
            Some(t) => t,
            None => return None,
        };
        if tk.ttype == ttype {
            self.advance();
            Some(tk)
        } else {
            let a = concat3("Expected ", token_type_name(ttype), ", found ");
            let b = concat3(a.as_str(), token_type_name(tk.ttype), " '");
            let v = debug_quoted(tk.value.as_str());
            let message = concat3(b.as_str(), v.as_str(), "'");
            self.throw(ParserErrorType::UnexpectedTokenTypeError, message);
            None
        }
    }

    /// Reads the generic parameters `<A, B, ...>` of a declaration, if there are any.
    fn parse_generic_params(&mut self) -> (res: Vec<String>)
        requires
            old(self).ready(),
        ensures
            final(self).ready(),
            final(self).follows(*old(self)),
            old(self).cur_kind() != Some(TokenType::LessThan) ==> res@.len() == 0
                && final(self).token_idx == old(self).token_idx
                && final(self).parser_errs@ == old(self).parser_errs@,
            old(self).cur_kind() == Some(TokenType::LessThan) && old(self).kind_at(old(self).token_idx + 1) == Some(TokenType::Identifier) && old(self).kind_at(old(self).token_idx + 2) == Some(TokenType::GreaterThan) ==> (res@.len() == 1 && res@[0]@ == old(self).tokens@[old(self).token_idx + 1].value@ && final(self).token_idx == old(self).token_idx + 3),
    {
        let mut params: Vec<String> = Vec::new();
        if self.at(TokenType::LessThan) {
            self.advance();
            loop
                invariant_except_break
                    old(self).cur_kind() == Some(TokenType::LessThan) && old(self).kind_at(old(self).token_idx + 1) == Some(TokenType::Identifier) && old(self).kind_at(old(self).token_idx + 2) == Some(TokenType::GreaterThan) ==> self.token_idx == old(self).token_idx + 1 && params@.len() == 0,
                invariant
                    self.ready(),
                    self.follows(*old(self)),
                    self.token_idx > old(self).token_idx,
                ensures
                    old(self).cur_kind() == Some(TokenType::LessThan) && old(self).kind_at(old(self).token_idx + 1) == Some(TokenType::Identifier) && old(self).kind_at(old(self).token_idx + 2) == Some(TokenType::GreaterThan) ==> (self.token_idx == old(self).token_idx + 2 && params@.len() == 1 && params@[0]@ == old(self).tokens@[old(self).token_idx + 1].value@),
                decreases self.tokens@.len() - self.token_idx,
            {
                match self.expect(TokenType::Identifier) {
                    Some(tk) => params.push(tk.value),
                    None => break,
                }
                if self.at(TokenType::Comma) {
                    self.advance();
                } else {
                    break;
                }
            }
            self.expect(TokenType::GreaterThan);
        }
        params
    }

    /// Reads the generic arguments `<T, U, ...>` of a type or a call, if there are any.
    fn parse_generic_args(&mut self) -> (res: Vec<Type>)
        requires
            old(self).ready(),
        ensures
            final(self).ready(),
            final(self).follows(*old(self)),
            old(self).cur_kind() != Some(TokenType::LessThan) ==> res@.len() == 0
                && final(self).token_idx == old(self).token_idx
                && final(self).parser_errs@ == old(self).parser_errs@,
            old(self).cur_kind() == Some(TokenType::LessThan) && old(self).kind_at(old(self).token_idx + 1) == Some(TokenType::Identifier) && old(self).kind_at(old(self).token_idx + 2) == Some(TokenType::GreaterThan) && old(self).tokens@[old(self).token_idx + 1].value@ != "ptr"@ ==> (res@.len() == 1 && res@[0]@ == named_type(old(self).tokens@[old(self).token_idx + 1].value@) && final(self).token_idx == old(self).token_idx + 3),
        decreases old(self).tokens@.len() - old(self).token_idx, 1int,
    {
        let mut args: Vec<Type> = Vec::new();
        if self.at(TokenType::LessThan) {
            self.advance();
            loop
                invariant_except_break
                    old(self).cur_kind() == Some(TokenType::LessThan) && old(self).kind_at(old(self).token_idx + 1) == Some(TokenType::Identifier) && old(self).kind_at(old(self).token_idx + 2) == Some(TokenType::GreaterThan) && old(self).tokens@[old(self).token_idx + 1].value@ != "ptr"@ ==> self.token_idx == old(self).token_idx + 1 && args@.len() == 0,
                invariant
                    self.ready(),
                    self.follows(*old(self)),
                    self.token_idx > old(self).token_idx,
                ensures
                    old(self).cur_kind() == Some(TokenType::LessThan) && old(self).kind_at(old(self).token_idx + 1) == Some(TokenType::Identifier) && old(self).kind_at(old(self).token_idx + 2) == Some(TokenType::GreaterThan) && old(self).tokens@[old(self).token_idx + 1].value@ != "ptr"@ ==> (self.token_idx == old(self).token_idx + 2 && args@.len() == 1 && args@[0]@ == named_type(old(self).tokens@[old(self).token_idx + 1].value@)),
                decreases self.tokens@.len() - self.token_idx,
            {
                match self.parse_type() {
                    Some(ty) => args.push(ty),
                    None => break,
                }
                if self.at(TokenType::Comma) {
                    self.advance();
                } else {
                    break;
                }
            }
            self.expect(TokenType::GreaterThan);
        }
        args
    }

    /// Reads a type: `[T; n]`, a built-in name, `ptr<T>`, or a struct name with perhaps
    /// generic arguments.
    fn parse_type(&mut self) -> (res: Option<Type>)
        requires
            old(self).ready(),
        ensures
            final(self).ready(),
            final(self).follows(*old(self)),
            res is Some ==> final(self).token_idx > old(self).token_idx,
            old(self).cur_kind() == Some(TokenType::Identifier) && old(self).tokens@[old(self).token_idx as int].value@
                != "ptr"@ && old(self).kind_at(old(self).token_idx + 1) != Some(TokenType::LessThan) ==> (res matches Some(
                ty) && ty@ == named_type(old(self).tokens@[old(self).token_idx as int].value@) && final(self).token_idx == old(self).token_idx + 1 && final(self).parser_errs@ == old(self).parser_errs@),
            old(self).cur_kind() is Some && old(self).cur_kind() != Some(TokenType::Identifier) && old(self).cur_kind()
                != Some(TokenType::LBracket) ==> res is None,
        decreases old(self).tokens@.len() - old(self).token_idx, 2int,
    {
        let tk = match self.get_token() {
            Some(t) => t,
            None => return None,
        };
        match tk.ttype {
            TokenType::LBracket => {
                self.advance();
                let element_type = self.parse_type()?;
                self.expect(TokenType::SemiColon)?;
                let ghost at = self.token_idx;
                let size_tk = self.expect(TokenType::IntLiteral)?;
                assert(self.tokens@[at as int].ttype == TokenType::IntLiteral);
                let digits = chars_of(size_tk.value.as_str());
                assert(digits@.skip(0) =~= digits@);
                let size = match parse_usize(&digits, 0) {
                    Some(n) => n,
                    None => {
                        proof {
                            assert(false);
                        }
                        0
                    },
                };
                self.expect(TokenType::RBracket)?;
                Some(Type::Array { element_type: Box::new(element_type), size })
            },
            TokenType::Identifier => {
                let name = tk.value.as_str();
                if str_eq(name, "int") {
                    self.advance();
                    Some(Type::Int)
                } else if str_eq(name, "bool") {
                    self.advance();
                    Some(Type::Bool)
                } else if str_eq(name, "str") {
                    self.advance();
                    Some(Type::Str)
                } else if str_eq(name, "void") {
                    self.advance();
                    Some(Type::Void)
                } else if str_eq(name, "ptr") {
                    self.advance();
                    self.expect(TokenType::LessThan)?;
                    let inner = self.parse_type()?;
                    self.expect(TokenType::GreaterThan)?;
                    Some(Type::Ptr(Box::new(inner)))
                } else if str_eq(name, "any") {
                    self.advance();
                    Some(Type::Any)
                } else if str_eq(name, "char") {
                    self.advance();
                    Some(Type::Char)
                } else {
                    let struct_name = tk.value.clone();
                    self.advance();
                    if self.at(TokenType::LessThan) {
                        let args = self.parse_generic_args();
                        Some(Type::GenericInstance { name: struct_name, args })
                    } else {
                        Some(Type::Struct(struct_name))
                    }
                }
            },
            _ => {
                let message = concat("Expected type metadata, found ", token_type_name(tk.ttype));
                self.throw(ParserErrorType::UnexpectedTokenTypeError, message);
                None
            },
        }
    }

    /// Reads an expression, unless the current token closes something (`)`, `}` or `;`).
    fn parse_expr(&mut self) -> (res: Option<Expr>)
        requires
            old(self).ready(),
        ensures
            final(self).ready(),
            final(self).follows(*old(self)),
            res is Some ==> final(self).token_idx > old(self).token_idx,
            old(self).lone_int() ==> final(self).read_lone_int(*old(self), res),
            forall|n: int| #[trigger] chain(old(self).tokens@, old(self).token_idx as int, n) ==> (res matches Some(e)
                && tree_ok(e, old(self).tokens@, old(self).token_idx as int, 0, n, 0) && final(self).token_idx == old(
                self,
            ).token_idx + 2 * n + 1 && final(self).parser_errs@ == old(self).parser_errs@),
        decreases old(self).tokens@.len() - old(self).token_idx, 17int,
    {
        proof {
            assert forall|n: int| #[trigger] chain(old(self).tokens@, old(self).token_idx as int, n) implies old(
                self,
            ).at_operand(old(self).token_idx as int, n) && seg_end(old(self).tokens@, old(self).token_idx as int, n, 0, 0)
                == n && (old(self).cur_kind() == Some(TokenType::IntLiteral) || old(self).cur_kind() == Some(
                TokenType::Identifier,
            )) by {
                lemma_seg_end(old(self).tokens@, old(self).token_idx as int, n, 0, 0);
                assert(old(self).tokens@[old(self).token_idx + 2 * 0].ttype == TokenType::IntLiteral || old(
                    self,
                ).tokens@[old(self).token_idx + 2 * 0].ttype == TokenType::Identifier);
            }
        }
        match self.current_kind() {
            Some(TokenType::RParen) | Some(TokenType::RBrace) | Some(TokenType::SemiColon) => {
                return None;
            },
            _ => {},
        }
        self.parse_equality()
    }

    /// Reads `a == b` and `a != b`, left to right; each node is placed at its operator.
    #[verifier::rlimit(80)]
    fn parse_equality(&mut self) -> (res: Option<Expr>)
        requires
            old(self).ready(),
        ensures
            final(self).ready(),
            final(self).follows(*old(self)),
            res is Some ==> final(self).token_idx > old(self).token_idx,
            old(self).lone_int() ==> final(self).read_lone_int(*old(self), res),
            forall|lo: int, n: int| #[trigger] chain(old(self).tokens@, lo, n) && old(self).at_operand(lo, n) ==> final(self).reads_part(
                *old(self),
                res,
                lo,
                n,
                0,
            ),
        decreases old(self).tokens@.len() - old(self).token_idx, 16int,
    {
        let mut left = self.parse_comparison()?;
        proof {
            assert forall|lo: int, n: int| #[trigger] chain(old(self).tokens@, lo, n) && old(self).at_operand(lo, n)
                implies { 
                    let m0 = (old(self).token_idx - lo) / 2;
                    let cur = (self.token_idx - 1 - lo) / 2;
                    &&& self.token_idx == lo + 2 * cur + 1
                    &&& m0 <= cur <= seg_end(old(self).tokens@, lo, n, m0, 0)
                    &&& seg_end(old(self).tokens@, lo, n, m0, 0) <= n
                    &&& tree_ok(left, old(self).tokens@, lo, m0, cur, 0)
                    &&& self.parser_errs@ == old(self).parser_errs@
                    &&& cur < seg_end(old(self).tokens@, lo, n, m0, 0) ==> level_at(old(self).tokens@, lo, cur) == 0
                 } by {
                let m0 = (old(self).token_idx - lo) / 2;
                lemma_seg_end(old(self).tokens@, lo, n, m0, 0);
                lemma_level_start(old(self).tokens@, lo, n, m0, 0, left);
            }
        }
        loop
            invariant
                forall|lo: int, n: int| #[trigger] chain(old(self).tokens@, lo, n) && old(self).at_operand(lo, n) ==> {
                    let m0 = (old(self).token_idx - lo) / 2;
                    let cur = (self.token_idx - 1 - lo) / 2;
                    &&& self.token_idx == lo + 2 * cur + 1
                    &&& m0 <= cur <= seg_end(old(self).tokens@, lo, n, m0, 0)
                    &&& seg_end(old(self).tokens@, lo, n, m0, 0) <= n
                    &&& tree_ok(left, old(self).tokens@, lo, m0, cur, 0)
                    &&& self.parser_errs@ == old(self).parser_errs@
                    &&& cur < seg_end(old(self).tokens@, lo, n, m0, 0) ==> level_at(old(self).tokens@, lo, cur) == 0
                },
                self.ready(),
                self.follows(*old(self)),
                self.token_idx > old(self).token_idx,
                old(self).lone_int() ==> self.read_lone_int(*old(self), Some(left)),
            ensures
                forall|lo: int, n: int| #[trigger] chain(old(self).tokens@, lo, n) && old(self).at_operand(lo, n)
                    ==> self.reads_part(*old(self), Some(left), lo, n, 0),
            decreases self.tokens@.len() - self.token_idx,
        {
            let op = match self.current_kind() {
                Some(TokenType::Equals) => BinaryOp::Eq,
                Some(TokenType::NotEquals) => BinaryOp::NEq,
                _ => {
                    proof {
                        assert forall|lo: int, n: int| #[trigger] chain(old(self).tokens@, lo, n) && old(self).at_operand(
                            lo,
                            n,
                        ) implies self.reads_part(*old(self), Some(left), lo, n, 0) by {
                            let m0 = (old(self).token_idx - lo) / 2;
                            let cur = (self.token_idx - 1 - lo) / 2;
                            lemma_seg_end(old(self).tokens@, lo, n, m0, 0);
                            if cur < seg_end(old(self).tokens@, lo, n, m0, 0) {
                                assert(op_level(old(self).tokens@[lo + 2 * cur + 1].ttype) == Some(0int));
                            }
                        }
                    }
                    break;
                },
            };
            let ghost left0 = left;
            let ghost idx0 = self.token_idx;
            let span = self.tokens[self.token_idx].location.duplicate();
            self.advance();
            proof {
                assert forall|lo: int, n: int| #[trigger] chain(old(self).tokens@, lo, n) && old(self).at_operand(lo, n)
                    implies self.at_operand(lo, n) by {
                    let m0 = (old(self).token_idx - lo) / 2;
                    let cur = (idx0 - 1 - lo) / 2;
                    assert(op_level(old(self).tokens@[lo + 2 * cur + 1].ttype) is Some);
                    assert(self.token_idx == lo + 2 * (cur + 1));
                }
            }
            let right = self.parse_comparison()?;
            left = Expr {
                kind: ExprKind::Binary { left: Box::new(left), op, right: Box::new(right) },
                span,
            };
            proof {
                assert forall|lo: int, n: int| #[trigger] chain(old(self).tokens@, lo, n) && old(self).at_operand(lo, n)
                    implies { 
                    let m0 = (old(self).token_idx - lo) / 2;
                    let cur = (self.token_idx - 1 - lo) / 2;
                    &&& self.token_idx == lo + 2 * cur + 1
                    &&& m0 <= cur <= seg_end(old(self).tokens@, lo, n, m0, 0)
                    &&& seg_end(old(self).tokens@, lo, n, m0, 0) <= n
                    &&& tree_ok(left, old(self).tokens@, lo, m0, cur, 0)
                    &&& self.parser_errs@ == old(self).parser_errs@
                    &&& cur < seg_end(old(self).tokens@, lo, n, m0, 0) ==> level_at(old(self).tokens@, lo, cur) == 0
                 } by {
                    let m0 = (old(self).token_idx - lo) / 2;
                    let cur = (idx0 - 1 - lo) / 2;
                    lemma_seg_end(old(self).tokens@, lo, n, m0, 0);
                    lemma_level_step(old(self).tokens@, lo, n, m0, cur, 0, left0, right, left);
                }
            }
        }
        Some(left)
    }

    /// Reads `<`, `<=`, `>`, `>=`, left to right; each node is placed at its operator.
    #[verifier::rlimit(80)]
    fn parse_comparison(&mut self) -> (res: Option<Expr>)
        requires
            old(self).ready(),
        ensures
            final(self).ready(),
            final(self).follows(*old(self)),
            res is Some ==> final(self).token_idx > old(self).token_idx,
            old(self).lone_int() ==> final(self).read_lone_int(*old(self), res),
            forall|lo: int, n: int| #[trigger] chain(old(self).tokens@, lo, n) && old(self).at_operand(lo, n) ==> final(self).reads_part(
                *old(self),
                res,
                lo,
                n,
                1,
            ),
        decreases old(self).tokens@.len() - old(self).token_idx, 15int,
    {
        let mut left = self.parse_addsub()?;
        proof {
            assert forall|lo: int, n: int| #[trigger] chain(old(self).tokens@, lo, n) && old(self).at_operand(lo, n)
                implies { 
                    let m0 = (old(self).token_idx - lo) / 2;
                    let cur = (self.token_idx - 1 - lo) / 2;
                    &&& self.token_idx == lo + 2 * cur + 1
                    &&& m0 <= cur <= seg_end(old(self).tokens@, lo, n, m0, 1)
                    &&& seg_end(old(self).tokens@, lo, n, m0, 1) <= n
                    &&& tree_ok(left, old(self).tokens@, lo, m0, cur, 1)
                    &&& self.parser_errs@ == old(self).parser_errs@
                    &&& cur < seg_end(old(self).tokens@, lo, n, m0, 1) ==> level_at(old(self).tokens@, lo, cur) == 1
                 } by {
                let m0 = (old(self).token_idx - lo) / 2;
                lemma_seg_end(old(self).tokens@, lo, n, m0, 1);
                lemma_level_start(old(self).tokens@, lo, n, m0, 1, left);
            }
        }
        loop
            invariant
                forall|lo: int, n: int| #[trigger] chain(old(self).tokens@, lo, n) && old(self).at_operand(lo, n) ==> {
                    let m0 = (old(self).token_idx - lo) / 2;
                    let cur = (self.token_idx - 1 - lo) / 2;
                    &&& self.token_idx == lo + 2 * cur + 1
                    &&& m0 <= cur <= seg_end(old(self).tokens@, lo, n, m0, 1)
                    &&& seg_end(old(self).tokens@, lo, n, m0, 1) <= n
                    &&& tree_ok(left, old(self).tokens@, lo, m0, cur, 1)
                    &&& self.parser_errs@ == old(self).parser_errs@
                    &&& cur < seg_end(old(self).tokens@, lo, n, m0, 1) ==> level_at(old(self).tokens@, lo, cur) == 1
                },
                self.ready(),
                self.follows(*old(self)),
                self.token_idx > old(self).token_idx,
                old(self).lone_int() ==> self.read_lone_int(*old(self), Some(left)),
            ensures
                forall|lo: int, n: int| #[trigger] chain(old(self).tokens@, lo, n) && old(self).at_operand(lo, n)
                    ==> self.reads_part(*old(self), Some(left), lo, n, 1),
            decreases self.tokens@.len() - self.token_idx,
        {
            let op = match self.current_kind() {
                Some(TokenType::LessThan) => BinaryOp::Lt,
                Some(TokenType::LessThanEquals) => BinaryOp::LtE,
                Some(TokenType::GreaterThan) => BinaryOp::Gt,
                Some(TokenType::GreaterThanEquals) => BinaryOp::GtE,
                _ => {
                    proof {
                        assert forall|lo: int, n: int| #[trigger] chain(old(self).tokens@, lo, n) && old(self).at_operand(
                            lo,
                            n,
                        ) implies self.reads_part(*old(self), Some(left), lo, n, 1) by {
                            let m0 = (old(self).token_idx - lo) / 2;
                            let cur = (self.token_idx - 1 - lo) / 2;
                            lemma_seg_end(old(self).tokens@, lo, n, m0, 1);
                            if cur < seg_end(old(self).tokens@, lo, n, m0, 1) {
                                assert(op_level(old(self).tokens@[lo + 2 * cur + 1].ttype) == Some(1int));
                            }
                        }
                    }
                    break;
                },
            };
            let ghost left0 = left;
            let ghost idx0 = self.token_idx;
            let span = self.tokens[self.token_idx].location.duplicate();
            self.advance();
            proof {
                assert forall|lo: int, n: int| #[trigger] chain(old(self).tokens@, lo, n) && old(self).at_operand(lo, n)
                    implies self.at_operand(lo, n) by {
                    let m0 = (old(self).token_idx - lo) / 2;
                    let cur = (idx0 - 1 - lo) / 2;
                    assert(op_level(old(self).tokens@[lo + 2 * cur + 1].ttype) is Some);
                    assert(self.token_idx == lo + 2 * (cur + 1));
                }
            }
            let right = self.parse_addsub()?;
            left = Expr {
                kind: ExprKind::Binary { left: Box::new(left), op, right: Box::new(right) },
                span,
            };
            proof {
                assert forall|lo: int, n: int| #[trigger] chain(old(self).tokens@, lo, n) && old(self).at_operand(lo, n)
                    implies { 
                    let m0 = (old(self).token_idx - lo) / 2;
                    let cur = (self.token_idx - 1 - lo) / 2;
                    &&& self.token_idx == lo + 2 * cur + 1
                    &&& m0 <= cur <= seg_end(old(self).tokens@, lo, n, m0, 1)
                    &&& seg_end(old(self).tokens@, lo, n, m0, 1) <= n
                    &&& tree_ok(left, old(self).tokens@, lo, m0, cur, 1)
                    &&& self.parser_errs@ == old(self).parser_errs@
                    &&& cur < seg_end(old(self).tokens@, lo, n, m0, 1) ==> level_at(old(self).tokens@, lo, cur) == 1
                 } by {
                    let m0 = (old(self).token_idx - lo) / 2;
                    let cur = (idx0 - 1 - lo) / 2;
                    lemma_seg_end(old(self).tokens@, lo, n, m0, 1);
                    lemma_level_step(old(self).tokens@, lo, n, m0, cur, 1, left0, right, left);
                }
            }
        }
        Some(left)
    }

    /// Reads `+` and `-`, left to right; each node is placed where its left operand is.
    #[verifier::rlimit(80)]
    fn parse_addsub(&mut self) -> (res: Option<Expr>)
        requires
            old(self).ready(),
        ensures
            final(self).ready(),
            final(self).follows(*old(self)),
            res is Some ==> final(self).token_idx > old(self).token_idx,
            old(self).lone_int() ==> final(self).read_lone_int(*old(self), res),
            forall|lo: int, n: int| #[trigger] chain(old(self).tokens@, lo, n) && old(self).at_operand(lo, n) ==> final(self).reads_part(
                *old(self),
                res,
                lo,
                n,
                2,
            ),
        decreases old(self).tokens@.len() - old(self).token_idx, 14int,
    {
        let mut left = self.parse_muldiv()?;
        proof {
            assert forall|lo: int, n: int| #[trigger] chain(old(self).tokens@, lo, n) && old(self).at_operand(lo, n)
                implies { 
                    let m0 = (old(self).token_idx - lo) / 2;
                    let cur = (self.token_idx - 1 - lo) / 2;
                    &&& self.token_idx == lo + 2 * cur + 1
                    &&& m0 <= cur <= seg_end(old(self).tokens@, lo, n, m0, 2)
                    &&& seg_end(old(self).tokens@, lo, n, m0, 2) <= n
                    &&& tree_ok(left, old(self).tokens@, lo, m0, cur, 2)
                    &&& self.parser_errs@ == old(self).parser_errs@
                    &&& cur < seg_end(old(self).tokens@, lo, n, m0, 2) ==> level_at(old(self).tokens@, lo, cur) == 2
                 } by {
                let m0 = (old(self).token_idx - lo) / 2;
                lemma_seg_end(old(self).tokens@, lo, n, m0, 2);
                lemma_level_start(old(self).tokens@, lo, n, m0, 2, left);
            }
        }
        loop
            invariant
                forall|lo: int, n: int| #[trigger] chain(old(self).tokens@, lo, n) && old(self).at_operand(lo, n) ==> {
                    let m0 = (old(self).token_idx - lo) / 2;
                    let cur = (self.token_idx - 1 - lo) / 2;
                    &&& self.token_idx == lo + 2 * cur + 1
                    &&& m0 <= cur <= seg_end(old(self).tokens@, lo, n, m0, 2)
                    &&& seg_end(old(self).tokens@, lo, n, m0, 2) <= n
                    &&& tree_ok(left, old(self).tokens@, lo, m0, cur, 2)
                    &&& self.parser_errs@ == old(self).parser_errs@
                    &&& cur < seg_end(old(self).tokens@, lo, n, m0, 2) ==> level_at(old(self).tokens@, lo, cur) == 2
                },
                self.ready(),
                self.follows(*old(self)),
                self.token_idx > old(self).token_idx,
                old(self).lone_int() ==> self.read_lone_int(*old(self), Some(left)),
            ensures
                forall|lo: int, n: int| #[trigger] chain(old(self).tokens@, lo, n) && old(self).at_operand(lo, n)
                    ==> self.reads_part(*old(self), Some(left), lo, n, 2),
            decreases self.tokens@.len() - self.token_idx,
        {
            let op = match self.current_kind() {
                Some(TokenType::Add) => BinaryOp::Add,
                Some(TokenType::Minus) => BinaryOp::Sub,
                _ => {
                    proof {
                        assert forall|lo: int, n: int| #[trigger] chain(old(self).tokens@, lo, n) && old(self).at_operand(
                            lo,
                            n,
                        ) implies self.reads_part(*old(self), Some(left), lo, n, 2) by {
                            let m0 = (old(self).token_idx - lo) / 2;
                            let cur = (self.token_idx - 1 - lo) / 2;
                            lemma_seg_end(old(self).tokens@, lo, n, m0, 2);
                            if cur < seg_end(old(self).tokens@, lo, n, m0, 2) {
                                assert(op_level(old(self).tokens@[lo + 2 * cur + 1].ttype) == Some(2int));
                            }
                        }
                    }
                    break;
                },
            };
            let ghost left0 = left;
            let ghost idx0 = self.token_idx;
            self.advance();
            proof {
                assert forall|lo: int, n: int| #[trigger] chain(old(self).tokens@, lo, n) && old(self).at_operand(lo, n)
                    implies self.at_operand(lo, n) by {
                    let m0 = (old(self).token_idx - lo) / 2;
                    let cur = (idx0 - 1 - lo) / 2;
                    assert(op_level(old(self).tokens@[lo + 2 * cur + 1].ttype) is Some);
                    assert(self.token_idx == lo + 2 * (cur + 1));
                }
            }
            let right = self.parse_muldiv()?;
            let span = left.span.duplicate();
            left = Expr {
                kind: ExprKind::Binary { left: Box::new(left), op, right: Box::new(right) },
                span,
            };
            proof {
                assert forall|lo: int, n: int| #[trigger] chain(old(self).tokens@, lo, n) && old(self).at_operand(lo, n)
                    implies { 
                    let m0 = (old(self).token_idx - lo) / 2;
                    let cur = (self.token_idx - 1 - lo) / 2;
                    &&& self.token_idx == lo + 2 * cur + 1
                    &&& m0 <= cur <= seg_end(old(self).tokens@, lo, n, m0, 2)
                    &&& seg_end(old(self).tokens@, lo, n, m0, 2) <= n
                    &&& tree_ok(left, old(self).tokens@, lo, m0, cur, 2)
                    &&& self.parser_errs@ == old(self).parser_errs@
                    &&& cur < seg_end(old(self).tokens@, lo, n, m0, 2) ==> level_at(old(self).tokens@, lo, cur) == 2
                 } by {
                    let m0 = (old(self).token_idx - lo) / 2;
                    let cur = (idx0 - 1 - lo) / 2;
                    lemma_seg_end(old(self).tokens@, lo, n, m0, 2);
                    lemma_level_step(old(self).tokens@, lo, n, m0, cur, 2, left0, right, left);
                }
            }
        }
        Some(left)
    }

    /// Reads `*`, `/` and `%`, left to right; each node is placed where its left operand is.
    #[verifier::rlimit(80)]
    fn parse_muldiv(&mut self) -> (res: Option<Expr>)
        requires
            old(self).ready(),
        ensures
            final(self).ready(),
            final(self).follows(*old(self)),
            res is Some ==> final(self).token_idx > old(self).token_idx,
            old(self).lone_int() ==> final(self).read_lone_int(*old(self), res),
            forall|lo: int, n: int| #[trigger] chain(old(self).tokens@, lo, n) && old(self).at_operand(lo, n) ==> final(self).reads_part(
                *old(self),
                res,
                lo,
                n,
                3,
            ),
        decreases old(self).tokens@.len() - old(self).token_idx, 13int,
    {
        let mut left = self.parse_unary()?;
        proof {
            assert forall|lo: int, n: int| #[trigger] chain(old(self).tokens@, lo, n) && old(self).at_operand(lo, n)
                implies { 
                    let m0 = (old(self).token_idx - lo) / 2;
                    let cur = (self.token_idx - 1 - lo) / 2;
                    &&& self.token_idx == lo + 2 * cur + 1
                    &&& m0 <= cur <= seg_end(old(self).tokens@, lo, n, m0, 3)
                    &&& seg_end(old(self).tokens@, lo, n, m0, 3) <= n
                    &&& tree_ok(left, old(self).tokens@, lo, m0, cur, 3)
                    &&& self.parser_errs@ == old(self).parser_errs@
                    &&& cur < seg_end(old(self).tokens@, lo, n, m0, 3) ==> level_at(old(self).tokens@, lo, cur) == 3
                 } by {
                let m0 = (old(self).token_idx - lo) / 2;
                lemma_seg_end(old(self).tokens@, lo, n, m0, 3);
                lemma_level_start(old(self).tokens@, lo, n, m0, 3, left);
            }
        }
        loop
            invariant
                forall|lo: int, n: int| #[trigger] chain(old(self).tokens@, lo, n) && old(self).at_operand(lo, n) ==> {
                    let m0 = (old(self).token_idx - lo) / 2;
                    let cur = (self.token_idx - 1 - lo) / 2;
                    &&& self.token_idx == lo + 2 * cur + 1
                    &&& m0 <= cur <= seg_end(old(self).tokens@, lo, n, m0, 3)
                    &&& seg_end(old(self).tokens@, lo, n, m0, 3) <= n
                    &&& tree_ok(left, old(self).tokens@, lo, m0, cur, 3)
                    &&& self.parser_errs@ == old(self).parser_errs@
                    &&& cur < seg_end(old(self).tokens@, lo, n, m0, 3) ==> level_at(old(self).tokens@, lo, cur) == 3
                },
                self.ready(),
                self.follows(*old(self)),
                self.token_idx > old(self).token_idx,
                old(self).lone_int() ==> self.read_lone_int(*old(self), Some(left)),
            ensures
                forall|lo: int, n: int| #[trigger] chain(old(self).tokens@, lo, n) && old(self).at_operand(lo, n)
                    ==> self.reads_part(*old(self), Some(left), lo, n, 3),
            decreases self.tokens@.len() - self.token_idx,
        {
            let op = match self.current_kind() {
                Some(TokenType::Multiply) => BinaryOp::Mul,
                Some(TokenType::Divide) => BinaryOp::Div,
                Some(TokenType::Modulo) => BinaryOp::Mod,
                _ => {
                    proof {
                        assert forall|lo: int, n: int| #[trigger] chain(old(self).tokens@, lo, n) && old(self).at_operand(
                            lo,
                            n,
                        ) implies self.reads_part(*old(self), Some(left), lo, n, 3) by {
                            let m0 = (old(self).token_idx - lo) / 2;
                            let cur = (self.token_idx - 1 - lo) / 2;
                            lemma_seg_end(old(self).tokens@, lo, n, m0, 3);
                            if cur < seg_end(old(self).tokens@, lo, n, m0, 3) {
                                assert(op_level(old(self).tokens@[lo + 2 * cur + 1].ttype) == Some(3int));
                            }
                        }
                    }
                    break;
                },
            };
            let ghost left0 = left;
            let ghost idx0 = self.token_idx;
            self.advance();
            proof {
                assert forall|lo: int, n: int| #[trigger] chain(old(self).tokens@, lo, n) && old(self).at_operand(lo, n)
                    implies self.at_operand(lo, n) by {
                    let m0 = (old(self).token_idx - lo) / 2;
                    let cur = (idx0 - 1 - lo) / 2;
                    assert(op_level(old(self).tokens@[lo + 2 * cur + 1].ttype) is Some);
                    assert(self.token_idx == lo + 2 * (cur + 1));
                }
            }
            let right = self.parse_unary()?;
            let span = left.span.duplicate();
            left = Expr {
                kind: ExprKind::Binary { left: Box::new(left), op, right: Box::new(right) },
                span,
            };
            proof {
                assert forall|lo: int, n: int| #[trigger] chain(old(self).tokens@, lo, n) && old(self).at_operand(lo, n)
                    implies { 
                    let m0 = (old(self).token_idx - lo) / 2;
                    let cur = (self.token_idx - 1 - lo) / 2;
                    &&& self.token_idx == lo + 2 * cur + 1
                    &&& m0 <= cur <= seg_end(old(self).tokens@, lo, n, m0, 3)
                    &&& seg_end(old(self).tokens@, lo, n, m0, 3) <= n
                    &&& tree_ok(left, old(self).tokens@, lo, m0, cur, 3)
                    &&& self.parser_errs@ == old(self).parser_errs@
                    &&& cur < seg_end(old(self).tokens@, lo, n, m0, 3) ==> level_at(old(self).tokens@, lo, cur) == 3
                 } by {
                    let m0 = (old(self).token_idx - lo) / 2;
                    let cur = (idx0 - 1 - lo) / 2;
                    lemma_seg_end(old(self).tokens@, lo, n, m0, 3);
                    lemma_level_step(old(self).tokens@, lo, n, m0, cur, 3, left0, right, left);
                }
            }
        }
        Some(left)
    }

    /// Reads a prefix operator (`+`, `-`, `&`, `*`, `!`) applied to a unary expression, or
    /// a postfix expression.
    fn parse_unary(&mut self) -> (res: Option<Expr>)
        requires
            old(self).ready(),
        ensures
            final(self).ready(),
            final(self).follows(*old(self)),
            res is Some ==> final(self).token_idx > old(self).token_idx,
            old(self).lone_int() ==> final(self).read_lone_int(*old(self), res),
            forall|lo: int, n: int| #[trigger] chain(old(self).tokens@, lo, n) && old(self).at_operand(lo, n) ==> final(self).reads_part(
                *old(self),
                res,
                lo,
                n,
                4,
            ),
        decreases old(self).tokens@.len() - old(self).token_idx, 12int,
    {
        let tk = match self.get_token() {
            Some(t) => t,
            None => return None,
        };
        proof {
            assert forall|lo: int, n: int| #[trigger] chain(old(self).tokens@, lo, n) && old(self).at_operand(lo, n)
                implies tk.ttype == TokenType::IntLiteral || tk.ttype == TokenType::Identifier by {
                lemma_operand_at(*old(self), lo, n);
            }
        }
        let op = match tk.ttype {
            TokenType::Add => UnaryOp::Positive,
            TokenType::Minus => UnaryOp::Negative,
            TokenType::Ampersand => UnaryOp::AddressOf,
            TokenType::Star => UnaryOp::Deref,
            TokenType::Not => UnaryOp::Not,
            _ => {
                return self.parse_postfix();
            },
        };
        self.advance();
        let expr = self.parse_unary()?;
        Some(Expr { kind: ExprKind::Unary { op, expr: Box::new(expr) }, span: tk.location })
    }

    /// Reads a primary expression followed by indexing `[i]`, field access `.f`, calls
    /// `(args)` and generic calls `::<T>(args)`.
    fn parse_postfix(&mut self) -> (res: Option<Expr>)
        requires
            old(self).ready(),
        ensures
            final(self).ready(),
            final(self).follows(*old(self)),
            res is Some ==> final(self).token_idx > old(self).token_idx,
            old(self).lone_int() ==> final(self).read_lone_int(*old(self), res),
            old(self).lone_ident() ==> final(self).read_lone_ident(*old(self), res),
            forall|lo: int, n: int| #[trigger] chain(old(self).tokens@, lo, n) && old(self).at_operand(lo, n) ==> final(self).reads_part(
                *old(self),
                res,
                lo,
                n,
                4,
            ),
        decreases old(self).tokens@.len() - old(self).token_idx, 11int,
    {
        let mut expr = self.parse_primary()?;
        proof {
            assert forall|lo: int, n: int| #[trigger] chain(old(self).tokens@, lo, n) && old(self).at_operand(lo, n)
                implies self.after_operand() by {
                lemma_operand_at(*old(self), lo, n);
            }
        }
        loop
            invariant
                forall|lo: int, n: int| #[trigger] chain(old(self).tokens@, lo, n) && old(self).at_operand(lo, n)
                    ==> self.reads_part(*old(self), Some(expr), lo, n, 4) && self.after_operand(),
                self.ready(),
                self.follows(*old(self)),
                self.token_idx > old(self).token_idx,
                old(self).lone_int() ==> self.read_lone_int(*old(self), Some(expr)),
                old(self).lone_ident() ==> self.read_lone_ident(*old(self), Some(expr)),
            decreases self.tokens@.len() - self.token_idx,
        {
            match self.current_kind() {
                Some(TokenType::LBracket) => {
                    self.advance();
                    let index_expr = self.parse_expr()?;
                    let close_tk = self.expect(TokenType::RBracket)?;
                    expr = Expr {
                        kind: ExprKind::Index { base: Box::new(expr), index: Box::new(index_expr) },
                        span: close_tk.location,
                    };
                },
                Some(TokenType::Period) => {
                    self.advance();
                    let field_tk = self.expect(TokenType::Identifier)?;
                    expr = Expr {
                        kind: ExprKind::Field { base: Box::new(expr), field: field_tk.value },
                        span: field_tk.location,
                    };
                },
                Some(TokenType::LParen) => {
                    let name = match &expr.kind {
                        ExprKind::Identifier(name) => name.clone(),
                        _ => {
                            self.throw(
                                ParserErrorType::UnexpectedTokenTypeError,
                                String::from_str("Expected function name before parenthesis"),
                            );
                            return None;
                        },
                    };
                    let callee_loc = expr.span.duplicate();
                    self.advance();
                    let args = self.parse_args();
                    let span = callee_loc.duplicate();
                    expr = Expr {
                        kind: ExprKind::Call {
                            callee: Identifier { value: name, location: callee_loc },
                            generic_args: Vec::new(),
                            args,
                        },
                        span,
                    };
                },
                Some(TokenType::DoubleColon) => {
                    let next_is_lt = self.token_idx < self.tokens.len() - 1
                        && self.tokens[self.token_idx + 1].ttype == TokenType::LessThan;
                    if !next_is_lt {
                        break;
                    }
                    self.advance();
                    let generic_args = self.parse_generic_args();
                    self.expect(TokenType::LParen)?;
                    let name = match &expr.kind {
                        ExprKind::Identifier(name) => name.clone(),
                        _ => {
                            return None;
                        },
                    };
                    let callee_loc = expr.span.duplicate();
                    let args = self.parse_args();
                    let span = callee_loc.duplicate();
                    expr = Expr {
                        kind: ExprKind::Call {
                            callee: Identifier { value: name, location: callee_loc },
                            generic_args,
                            args,
                        },
                        span,
                    };
                },
                _ => {
                    break;
                },
            }
        }
        Some(expr)
    }

    /// Reads the arguments of a call, after its `(`, up to and with the closing `)`.
    fn parse_args(&mut self) -> (res: Vec<Expr>)
        requires
            old(self).ready(),
        ensures
            final(self).ready(),
            final(self).follows(*old(self)),
            old(self).cur_kind() == Some(TokenType::RParen) ==> res@.len() == 0 && final(self).token_idx == old(self).token_idx + 1 && final(self).parser_errs@ == old(self).parser_errs@,
        decreases old(self).tokens@.len() - old(self).token_idx, 18int,
    {
        let mut args: Vec<Expr> = Vec::new();
        if self.at(TokenType::RParen) {
            self.advance();
            return args;
        }
        let ghost start = self.token_idx;
        loop
            invariant
                self.ready(),
                self.follows(*old(self)),
                start == old(self).token_idx,
            decreases self.tokens@.len() - self.token_idx,
        {
            let ghost here = self.token_idx;
            match self.parse_expr() {
                Some(expr) => args.push(expr),
                None => {
                    break;
                },
            }
            match self.current_kind() {
                Some(TokenType::Comma) => {
                    self.advance();
                },
                Some(TokenType::RParen) => {
                    self.advance();
                    break;
                },
                other => {
                    let found = opt_type_name(other);
                    let message = concat("Expected ',' or ')', found ", found.as_str());
                    self.throw(ParserErrorType::UnexpectedTokenTypeError, message);
                    break;
                },
            }
        }
        args
    }

    /// Reads an array literal `[a, b, ...]`.
    fn parse_array_literal(&mut self) -> (res: Option<Expr>)
        requires
            old(self).ready(),
        ensures
            final(self).ready(),
            final(self).follows(*old(self)),
            res is Some ==> final(self).token_idx > old(self).token_idx,
            old(self).kind_at(old(self).token_idx + 1) == Some(TokenType::RBracket) && old(self).token_idx < old(
                self,
            ).tokens@.len() ==> (res matches Some(e) && e.kind matches ExprKind::Literal(Literal::Arr { elements })
                && elements@.len() == 0 && final(self).token_idx == old(self).token_idx + 2),
        decreases old(self).tokens@.len() - old(self).token_idx, 9int,
    {
        let open_bracket = match self.get_token() {
            Some(t) => t,
            None => return None,
        };
        self.advance();
        let mut elements: Vec<Expr> = Vec::new();
        if self.at(TokenType::RBracket) {
            self.advance();
            return Some(Expr {
                kind: ExprKind::Literal(Literal::Arr { elements }),
                span: open_bracket.location,
            });
        }
        loop
            invariant
                self.ready(),
                self.follows(*old(self)),
                !(old(self).kind_at(old(self).token_idx + 1) == Some(TokenType::RBracket) && old(self).token_idx < old(
                    self,
                ).tokens@.len()),
                self.token_idx > old(self).token_idx,
            decreases self.tokens@.len() - self.token_idx,
        {
            let expr = self.parse_expr()?;
            elements.push(expr);
            match self.current_kind() {
                Some(TokenType::Comma) => {
                    self.advance();
                },
                Some(TokenType::RBracket) => {
                    self.advance();
                    break;
                },
                other => {
                    let found = opt_type_name(other);
                    let message = concat("Expected ',' or ']', found ", found.as_str());
                    self.throw(ParserErrorType::UnexpectedTokenTypeError, message);
                    return None;
                },
            }
        }
        Some(Expr {
            kind: ExprKind::Literal(Literal::Arr { elements }),
            span: open_bracket.location,
        })
    }

    /// Reads a literal, `sizeof(T)`, a name, a struct literal `Name { f: e, ... }`, an array
    /// literal, or an expression in parentheses.
    fn parse_primary(&mut self) -> (res: Option<Expr>)
        requires
            old(self).ready(),
        ensures
            final(self).ready(),
            final(self).follows(*old(self)),
            res is Some ==> final(self).token_idx > old(self).token_idx,
            old(self).lone_int() ==> final(self).read_lone_int(*old(self), res),
            old(self).lone_ident() ==> final(self).read_lone_ident(*old(self), res),
            forall|lo: int, n: int| #[trigger] chain(old(self).tokens@, lo, n) && old(self).at_operand(lo, n) ==> final(self).reads_part(
                *old(self),
                res,
                lo,
                n,
                4,
            ),
        decreases old(self).tokens@.len() - old(self).token_idx, 10int,
    {
        let tk = match self.get_token() {
            Some(t) => t,
            None => return None,
        };
        let ghost at = self.token_idx;
        proof {
            assert forall|lo: int, n: int| #[trigger] chain(old(self).tokens@, lo, n) && old(self).at_operand(lo, n)
                implies (tk.ttype == TokenType::IntLiteral || tk.ttype == TokenType::Identifier) && match old(
                self,
            ).kind_at(old(self).token_idx + 1) {
                None => true,
                Some(k) => closes(k) || op_level(k) is Some,
            } by {
                lemma_operand_at(*old(self), lo, n);
            }
        }
        match tk.ttype {
            TokenType::IntLiteral => {
                self.advance();
                assert(self.tokens@[at as int].ttype == TokenType::IntLiteral);
                let value = match parse_i64(tk.value.as_str()) {
                    Some(v) => v,
                    None => {
                        proof {
                            assert(false);
                        }
                        0
                    },
                };
                proof {
                    assert forall|lo: int, n: int| #[trigger] chain(old(self).tokens@, lo, n) && old(self).at_operand(
                        lo,
                        n,
                    ) implies seg_end(old(self).tokens@, lo, n, (old(self).token_idx - lo) / 2, 4) == (old(
                        self,
                    ).token_idx - lo) / 2 && old(self).token_idx == lo + 2 * ((old(self).token_idx - lo) / 2) by {
                        lemma_operand_at(*old(self), lo, n);
                    }
                }
                Some(Expr { kind: ExprKind::Literal(Literal::Int(value)), span: tk.location })
            },
            TokenType::True => {
                self.advance();
                Some(Expr { kind: ExprKind::Literal(Literal::Bool(true)), span: tk.location })
            },
            TokenType::False => {
                self.advance();
                Some(Expr { kind: ExprKind::Literal(Literal::Bool(false)), span: tk.location })
            },
            TokenType::StringLiteral => {
                self.advance();
                Some(Expr { kind: ExprKind::Literal(Literal::String(tk.value)), span: tk.location })
            },
            TokenType::CharLiteral => {
                self.advance();
                assert(self.tokens@[at as int].ttype == TokenType::CharLiteral);
                let chars = chars_of(tk.value.as_str());
                let value = chars[0];
                Some(Expr { kind: ExprKind::Literal(Literal::Char(value)), span: tk.location })
            },
            TokenType::SizeOfKeyword => {
                self.advance();
                self.expect(TokenType::LParen)?;
                let target_type = self.parse_type()?;
                self.expect(TokenType::RParen)?;
                Some(Expr { kind: ExprKind::Sizeof { ty: target_type }, span: tk.location })
            },
            TokenType::Identifier => {
                self.advance();
                if self.at(TokenType::LBrace) {
                    proof {
                        assert forall|lo: int, n: int| #[trigger] chain(old(self).tokens@, lo, n) implies !old(
                            self,
                        ).at_operand(lo, n) by {
                            if old(self).at_operand(lo, n) {
                                lemma_operand_at(*old(self), lo, n);
                            }
                        }
                    }
                    self.advance();
                    let mut fields: Vec<(String, Expr)> = Vec::new();
                    if !self.at(TokenType::RBrace) {
                        loop
            invariant
                self.ready(),
                self.follows(*old(self)),
                self.token_idx > old(self).token_idx,
                !old(self).lone_int(),
                !old(self).lone_ident(),
                forall|lo: int, n: int| #[trigger] chain(old(self).tokens@, lo, n) ==> !old(self).at_operand(lo, n),
            decreases self.tokens@.len() - self.token_idx,
                        {
                            let field_name = self.expect(TokenType::Identifier)?.value;
                            self.expect(TokenType::Colon)?;
                            let value_expr = self.parse_expr()?;
                            fields.push((field_name, value_expr));
                            match self.current_kind() {
                                Some(TokenType::Comma) => {
                                    self.advance();
                                },
                                Some(TokenType::RBrace) => {
                                    break;
                                },
                                _ => {
                                    self.throw(
                                        ParserErrorType::UnexpectedTokenTypeError,
                                        String::from_str("Expected ',' or '}' in struct initializer"),
                                    );
                                    return None;
                                },
                            }
                        }
                    }
                    let end_tk = self.expect(TokenType::RBrace)?;
                    Some(Expr {
                        kind: ExprKind::StructLiteral {
                            struct_name: tk.value,
                            generic_args: Vec::new(),
                            fields,
                        },
                        span: end_tk.location,
                    })
                } else {
                    proof {
                        assert forall|lo: int, n: int| #[trigger] chain(old(self).tokens@, lo, n) && old(self).at_operand(
                            lo,
                            n,
                        ) implies seg_end(old(self).tokens@, lo, n, (old(self).token_idx - lo) / 2, 4) == (old(
                            self,
                        ).token_idx - lo) / 2 && old(self).token_idx == lo + 2 * ((old(self).token_idx - lo) / 2) by {
                            lemma_operand_at(*old(self), lo, n);
                        }
                    }
                    Some(Expr { kind: ExprKind::Identifier(tk.value), span: tk.location })
                }
            },
            TokenType::LBracket => self.parse_array_literal(),
            TokenType::LParen => {
                self.advance();
                let expr = self.parse_expr()?;
                self.expect(TokenType::RParen)?;
                Some(expr)
            },
            _ => {
                let message = concat("Unexpected token in expression: ", token_type_name(tk.ttype));
                self.throw(ParserErrorType::UnexpectedTokenTypeError, message);
                None
            },
        }
    }

    /// Parses the whole token list: statement after statement, skipping a token where no
    /// statement can be read, until every token is read. The program is the statements
    /// read, in the order of the tokens they were read from, each of a kind that its first
    /// token can begin.
    pub fn parse(&mut self)
        requires
            old(self).token_idx <= old(self).tokens@.len(),
            tokens_ok(old(self).tokens@),
        ensures
            final(self).tokens@ == old(self).tokens@,
            final(self).token_idx == final(self).tokens@.len(),
            old(self).parser_errs@.len() <= final(self).parser_errs@.len(),
            forall|k: int|
                0 <= k < old(self).parser_errs@.len() ==> final(self).parser_errs@[k]
                    == old(self).parser_errs@[k],
            exists|starts: Seq<int>|
                #[trigger] statement_starts(final(self).tokens@, final(self).ast.statements@, starts)
                && forall|i: int| 0 <= i < starts.len() ==> old(self).token_idx <= #[trigger] starts[i],
            forall|names: Seq<Seq<char>>|
                #[trigger] empty_fn_decls(old(self).tokens@, old(self).token_idx as int, names) ==> all_simple_fns(
                    final(self).ast.statements@,
                ) && simple_fn_names(final(self).ast.statements@) == names && final(self).parser_errs@ == old(
                    self,
                ).parser_errs@,
            forall|n: int| #[trigger] expr_statement(old(self).tokens@, old(self).token_idx as int, n) ==> (final(self).ast.statements@.len()
                == 1 && (final(self).ast.statements@[0] matches Stmt::Expr(e) && tree_ok(
                e,
                old(self).tokens@,
                old(self).token_idx as int,
                0,
                n,
                0,
            )) && final(self).parser_errs@ == old(self).parser_errs@),
    {
        let mut statements: Vec<Stmt> = Vec::new();
        let ghost mut starts: Seq<int> = Seq::empty();
        while !self.eof()
            invariant
                self.token_idx <= self.tokens@.len(),
                old(self).token_idx <= self.token_idx,
                tokens_ok(self.tokens@),
                self.tokens@ == old(self).tokens@,
                old(self).parser_errs@.len() <= self.parser_errs@.len(),
                forall|k: int|
                    0 <= k < old(self).parser_errs@.len() ==> self.parser_errs@[k]
                        == old(self).parser_errs@[k],
                statement_starts(self.tokens@, statements@, starts),
                forall|i: int| 0 <= i < starts.len() ==> old(self).token_idx <= #[trigger] starts[i] < self.token_idx,
                forall|n: int| #[trigger] expr_statement(old(self).tokens@, old(self).token_idx as int, n) ==> ((
                statements@.len() == 0 && self.token_idx == old(self).token_idx && self.parser_errs@ == old(
                    self,
                ).parser_errs@) || (statements@.len() == 1 && (statements@[0] matches Stmt::Expr(e) && tree_ok(
                    e,
                    old(self).tokens@,
                    old(self).token_idx as int,
                    0,
                    n,
                    0,
                )) && self.token_idx == self.tokens@.len() && self.parser_errs@ == old(self).parser_errs@)),
                forall|names: Seq<Seq<char>>|
                    #[trigger] empty_fn_decls(old(self).tokens@, old(self).token_idx as int, names) ==> {
                        &&& self.token_idx == old(self).token_idx + 7 * statements@.len()
                        &&& statements@.len() <= names.len()
                        &&& all_simple_fns(statements@)
                        &&& simple_fn_names(statements@) == names.take(statements@.len() as int)
                        &&& self.parser_errs@ == old(self).parser_errs@
                    },
            decreases self.tokens@.len() - self.token_idx,
        {
            let ghost at = self.token_idx as int;
            let ghost pre = *self;
            let ghost pre_stmts = statements@;
            match self.parse_statement(true) {
                Some(stmt) => {
                    statements.push(stmt);
                    proof {
                        starts = starts.push(at);
                    }
                },
                None => self.advance(),
            }
            proof {
                assert forall|names: Seq<Seq<char>>|
                    #[trigger] empty_fn_decls(old(self).tokens@, old(self).token_idx as int, names) implies {
                        &&& self.token_idx == old(self).token_idx + 7 * statements@.len()
                        &&& statements@.len() <= names.len()
                        &&& all_simple_fns(statements@)
                        &&& simple_fn_names(statements@) == names.take(statements@.len() as int)
                        &&& self.parser_errs@ == old(self).parser_errs@
                    } by {
                    let n = pre_stmts.len() as int;
                    let st = old(self).token_idx as int;
                    assert(n < names.len());
                    assert(empty_fn_at(old(self).tokens@, st + 7 * n));
                    assert(at == st + 7 * n);
                    assert(statements@.len() == n + 1);
                    assert(statements@.drop_last() == pre_stmts);
                    assert forall|q: int| 0 <= q < statements@.len() implies #[trigger] simple_fn_decl(statements@[q])
                        is Some by {
                        if q < n {
                            assert(statements@[q] == pre_stmts[q]);
                        }
                    }
                    assert(simple_fn_names(statements@) =~= names.take(n + 1)) by {
                        assert forall|q: int| 0 <= q < n + 1 implies simple_fn_names(statements@)[q] == names.take(
                            n + 1,
                        )[q] by {
                            if q < n {
                                assert(statements@[q] == pre_stmts[q]);
                                assert(simple_fn_names(pre_stmts)[q] == names.take(n)[q]);
                            }
                        }
                    }
                }
            }
        }
        proof {
            assert forall|names: Seq<Seq<char>>|
                #[trigger] empty_fn_decls(old(self).tokens@, old(self).token_idx as int, names) implies
                simple_fn_names(statements@) == names by {
                assert(statements@.len() == names.len());
                assert(names.take(names.len() as int) =~= names);
            }
        }
        self.ast = Program { statements };
        assert(statement_starts(self.tokens@, self.ast.statements@, starts));
    }

    /// Reads statements up to a closing `}` and takes it, skipping a token where no
    /// statement can be read.
    fn parse_block(&mut self) -> (res: Vec<Stmt>)
        requires
            old(self).ready(),
        ensures
            final(self).ready(),
            final(self).follows(*old(self)),
            old(self).cur_kind() == Some(TokenType::RBrace) ==> res@.len() == 0 && final(self).token_idx == old(self).token_idx + 1 && final(self).parser_errs@ == old(self).parser_errs@,
        decreases old(self).tokens@.len() - old(self).token_idx, 20int,
    {
        let mut statements: Vec<Stmt> = Vec::new();
        while !self.eof() && !self.at(TokenType::RBrace)
            invariant
                self.ready(),
                self.follows(*old(self)),
                old(self).cur_kind() == Some(TokenType::RBrace) ==> self.token_idx == old(self).token_idx
                    && statements@.len() == 0 && self.parser_errs@ == old(self).parser_errs@,
            decreases self.tokens@.len() - self.token_idx,
        {
            match self.parse_statement(true) {
                Some(stmt) => statements.push(stmt),
                None => self.advance(),
            }
        }
        self.expect(TokenType::RBrace);
        statements
    }

    /// Reads one statement, and then, if `semi_colon`, the `;` that ends it (recording an
    /// error if it is missing).
    fn parse_statement(&mut self, semi_colon: bool) -> (res: Option<Stmt>)
        requires
            old(self).ready(),
        ensures
            final(self).ready(),
            final(self).follows(*old(self)),
            res is Some ==> final(self).token_idx > old(self).token_idx,
            res matches Some(s) ==> old(self).cur_kind() matches Some(k) && begins(k, s),
            old(self).kind_at(old(self).token_idx + 0) == Some(TokenType::BreakKeyword) && (semi_colon ==> old(self).kind_at(old(self).token_idx + 1) == Some(TokenType::SemiColon)) ==> (res matches Some(s) && s is Break),
            semi_colon && old(self).cur_kind() == Some(TokenType::IntLiteral) ==> forall|n: int|
                #[trigger] chain(old(self).tokens@, old(self).token_idx as int, n) && old(self).kind_at(
                    old(self).token_idx + 2 * n + 1,
                ) == Some(TokenType::SemiColon) ==> (res matches Some(st) && st matches Stmt::Expr(e) && tree_ok(
                    e,
                    old(self).tokens@,
                    old(self).token_idx as int,
                    0,
                    n,
                    0,
                ) && final(self).token_idx == old(self).token_idx + 2 * n + 2 && final(self).parser_errs@ == old(
                    self,
                ).parser_errs@),
            semi_colon && empty_fn_at(old(self).tokens@, old(self).token_idx as int) && old(self).kind_at(
                old(self).token_idx + 6,
            ) == Some(TokenType::SemiColon) ==> (res matches Some(s) && simple_fn_decl(s) == Some(
                old(self).tokens@[old(self).token_idx + 1].value@,
            ) && final(self).token_idx == old(self).token_idx + 7 && final(self).parser_errs@ == old(
                self,
            ).parser_errs@),
            !semi_colon && old(self).lone_ident() ==> (res matches Some(s) && s matches Stmt::Expr(e) && e.kind is Identifier
                && e.kind->Identifier_0@ == old(self).tokens@[old(self).token_idx as int].value@ && final(self).token_idx
                == old(self).token_idx + 1),
        decreases old(self).tokens@.len() - old(self).token_idx, 19int,
    {
        let tk = match self.get_token() {
            Some(t) => t,
            None => return None,
        };
        let stmt = match tk.ttype {
            TokenType::VarKeyword => self.parse_assignment(),
            TokenType::StructKeyword => self.parse_struct(),
            TokenType::IfKeyword => self.parse_if(),
            TokenType::WhileKeyword => self.parse_while(),
            TokenType::FnKeyword => self.parse_function(),
            TokenType::ForKeyword => self.parse_for(),
            TokenType::ReturnKeyword => self.parse_return(),
            TokenType::BreakKeyword => self.parse_break(),
            TokenType::UseKeyword => self.parse_import(),
            TokenType::ExternKeyword => self.parse_extern(),
            TokenType::Identifier => self.parse_ident(),
            TokenType::Star => {
                let pointer_expr = self.parse_unary()?;
                self.expect(TokenType::Assign)?;
                let value_expr = self.parse_expr()?;
                Some(Stmt::DerefReassignment { target: pointer_expr, expr: value_expr })
            },
            _ => match self.parse_expr() {
                Some(e) => Some(Stmt::Expr(e)),
                None => None,
            },
        };
        if semi_colon {
            if self.expect(TokenType::SemiColon).is_none() {
                self.throw(
                    ParserErrorType::MalformedStatementError,
                    String::from_str("Statement did not finish with semicolon ';'"),
                );
            }
        }
        stmt
    }

    /// Reads `use a::b::c` up to (not including) the `;`.
    fn parse_import(&mut self) -> (res: Option<Stmt>)
        requires
            old(self).ready(),
            old(self).token_idx < old(self).tokens@.len(),
        ensures
            final(self).ready(),
            final(self).follows(*old(self)),
            res is Some ==> final(self).token_idx > old(self).token_idx,
            res matches Some(s) ==> s is Use,
            old(self).kind_at(old(self).token_idx + 1) == Some(TokenType::Identifier) && old(self).kind_at(old(self).token_idx + 2) == Some(TokenType::SemiColon) ==> (res matches Some(s) && s matches Stmt::Use { path } && path@.len() == 1 && path@[0]@
                == old(self).tokens@[old(self).token_idx + 1].value@ && final(self).token_idx == old(self).token_idx + 2),
        decreases old(self).tokens@.len() - old(self).token_idx, 18int,
    {
        self.advance();
        let mut path: Vec<String> = Vec::new();
        loop
            invariant_except_break
                old(self).kind_at(old(self).token_idx + 1) == Some(TokenType::Identifier) && old(self).kind_at(old(self).token_idx + 2) == Some(TokenType::SemiColon) ==> self.token_idx == old(self).token_idx + 1 && path@.len() == 0,
            invariant
                self.ready(),
                self.follows(*old(self)),
                self.token_idx > old(self).token_idx,
            ensures
                old(self).kind_at(old(self).token_idx + 1) == Some(TokenType::Identifier) && old(self).kind_at(old(self).token_idx + 2) == Some(TokenType::SemiColon) ==> self.token_idx == old(self).token_idx + 2 && path@.len() == 1 && path@[0]@
                    == old(self).tokens@[old(self).token_idx + 1].value@,
            decreases self.tokens@.len() - self.token_idx,
        {
            let ident = match self.current_kind() {
                Some(TokenType::Identifier) => {
                    let token = self.tokens[self.token_idx].value.clone();
                    self.advance();
                    token
                },
                other => {
                    let found = opt_type_name(other);
                    let message = concat("Expected identifier in use path, found ", found.as_str());
                    self.throw(ParserErrorType::UnexpectedTokenTypeError, message);
                    return None;
                },
            };
            path.push(ident);
            match self.current_kind() {
                Some(TokenType::DoubleColon) => {
                    self.advance();
                },
                Some(TokenType::SemiColon) => {
                    break;
                },
                other => {
                    let found = opt_type_name(other);
                    let message = concat("Expected '::' or ';', found ", found.as_str());
                    self.throw(ParserErrorType::UnexpectedTokenTypeError, message);
                    return None;
                },
            }
        }
        Some(Stmt::Use { path })
    }

    /// Reads `extern fn name<..>(params): type`.
    fn parse_extern(&mut self) -> (res: Option<Stmt>)
        requires
            old(self).ready(),
            old(self).token_idx < old(self).tokens@.len(),
        ensures
            final(self).ready(),
            final(self).follows(*old(self)),
            res is Some ==> final(self).token_idx > old(self).token_idx,
            res matches Some(s) ==> s is Extern,
            old(self).kind_at(old(self).token_idx + 1) == Some(TokenType::FnKeyword) && old(self).kind_at(old(self).token_idx + 2) == Some(TokenType::Identifier) && old(self).kind_at(old(self).token_idx + 3) == Some(TokenType::LParen) && old(self).kind_at(old(self).token_idx + 4) == Some(TokenType::RParen) && old(self).kind_at(old(self).token_idx + 5) != Some(TokenType::Colon) ==> (res matches Some(s) && s matches Stmt::Extern {
                name, rttype: None, params, ..
            } && name.value@ == old(self).tokens@[old(self).token_idx + 2].value@ && params@.len() == 0 && final(self).token_idx == old(self).token_idx + 5),
        decreases old(self).tokens@.len() - old(self).token_idx, 18int,
    {
        self.advance();
        self.expect(TokenType::FnKeyword)?;
        let ident = self.expect(TokenType::Identifier)?;
        let generic_params = self.parse_generic_params();
        self.expect(TokenType::LParen)?;
        let params = self.parse_params(TokenType::RParen);
        let rttype = if self.at(TokenType::Colon) {
            self.advance();
            self.parse_type()
        } else {
            None
        };
        let name = to_ident(Some(ident))?;
        Some(Stmt::Extern { name, rttype, generic_params, params })
    }

    /// Reads a statement that starts with a name: an assignment to a name, to an element
    /// or to a field, or an expression.
    fn parse_ident(&mut self) -> (res: Option<Stmt>)
        requires
            old(self).ready(),
            old(self).token_idx < old(self).tokens@.len(),
        ensures
            final(self).ready(),
            final(self).follows(*old(self)),
            res is Some ==> final(self).token_idx > old(self).token_idx,
            res matches Some(s) ==> s is Reassignment || s is DerefReassignment || s is Expr,
            old(self).lone_ident() ==> (res matches Some(s) && s matches Stmt::Expr(e) && e.kind is Identifier && e.kind->Identifier_0@
                == old(self).tokens@[old(self).token_idx as int].value@ && final(self).token_idx == old(self).token_idx + 1),
        decreases old(self).tokens@.len() - old(self).token_idx, 18int,
    {
        let lhs_expr = self.parse_postfix()?;
        if self.at(TokenType::Assign) {
            self.advance();
            let value_expr = self.parse_expr()?;
            match lhs_expr.kind {
                ExprKind::Index { .. } | ExprKind::Field { .. } => {
                    return Some(Stmt::DerefReassignment { target: lhs_expr, expr: value_expr });
                },
                ExprKind::Identifier(name) => {
                    return Some(
                        Stmt::Reassignment {
                            ident: Identifier { value: name, location: lhs_expr.span },
                            expr: value_expr,
                        },
                    );
                },
                _ => {
                    return Some(Stmt::Expr(lhs_expr));
                },
            }
        }
        Some(Stmt::Expr(lhs_expr))
    }

    /// Reads parameters `name: type, ...` up to and with the token `ending`.
    fn parse_params(&mut self, ending: TokenType) -> (res: Vec<Parameter>)
        requires
            old(self).ready(),
        ensures
            final(self).ready(),
            final(self).follows(*old(self)),
            old(self).cur_kind() == Some(ending) ==> res@.len() == 0 && final(self).token_idx == old(self).token_idx + 1 && final(self).parser_errs@ == old(self).parser_errs@,
        decreases old(self).tokens@.len() - old(self).token_idx, 3int,
    {
        let mut params: Vec<Parameter> = Vec::new();
        if self.at(ending) {
            self.advance();
            return params;
        }
        loop
            invariant
                self.ready(),
                self.follows(*old(self)),
            decreases self.tokens@.len() - self.token_idx,
        {
            let name = match to_ident(self.get_token()) {
                Some(ident) => {
                    self.advance();
                    ident
                },
                None => {
                    self.throw(
                        ParserErrorType::UnexpectedTokenTypeError,
                        String::from_str("Expected parameter name, found None"),
                    );
                    break;
                },
            };
            let ptype = if self.at(TokenType::Colon) {
                self.advance();
                self.parse_type()
            } else {
                None
            };
            params.push(Parameter { name, ptype, is_variadic: false });
            match self.current_kind() {
                Some(TokenType::Comma) => {
                    self.advance();
                },
                Some(t) if t == ending => {
                    self.advance();
                    break;
                },
                other => {
                    let a = concat3("Expected ',' or ", token_type_name(ending), ", found ");
                    let found = opt_type_name(other);
                    let message = concat(a.as_str(), found.as_str());
                    self.throw(ParserErrorType::UnexpectedTokenTypeError, message);
                    break;
                },
            }
        }
        params
    }

    /// Reads `fn pub? name<..>(params): type { body }`.
    fn parse_function(&mut self) -> (res: Option<Stmt>)
        requires
            old(self).ready(),
            old(self).token_idx < old(self).tokens@.len(),
        ensures
            final(self).ready(),
            final(self).follows(*old(self)),
            res is Some ==> final(self).token_idx > old(self).token_idx,
            res matches Some(s) ==> s is Function,
            old(self).kind_at(old(self).token_idx + 1) == Some(TokenType::Identifier) && old(self).kind_at(old(self).token_idx + 2) == Some(TokenType::LParen) && old(self).kind_at(old(self).token_idx + 3) == Some(TokenType::RParen) && old(self).kind_at(old(self).token_idx + 4) == Some(TokenType::LBrace) && old(self).kind_at(old(self).token_idx + 5) == Some(TokenType::RBrace) ==> (res matches Some(s) && s matches Stmt::Function {
                name, public: false, rttype: None, params, body, ..
            } && name.value@ == old(self).tokens@[old(self).token_idx + 1].value@ && params@.len() == 0 && body@.len() == 0 && final(self).token_idx == old(
                self).token_idx + 6),
            empty_fn_at(old(self).tokens@, old(self).token_idx as int) ==> (res matches Some(s) && simple_fn_decl(s)
                == Some(old(self).tokens@[old(self).token_idx + 1].value@) && final(self).parser_errs@ == old(
                self,
            ).parser_errs@),
        decreases old(self).tokens@.len() - old(self).token_idx, 18int,
    {
        self.advance();
        let public = match self.current_kind() {
            Some(TokenType::PubKeyword) => {
                self.advance();
                true
            },
            Some(_) => false,
            None => {
                return None;
            },
        };
        let ident = self.expect(TokenType::Identifier)?;
        let generic_params = self.parse_generic_params();
        self.expect(TokenType::LParen)?;
        let params = self.parse_params(TokenType::RParen);
        let mut rttype: Option<Type> = None;
        if self.at(TokenType::Colon) {
            self.advance();
            rttype = self.parse_type();
        }
        self.expect(TokenType::LBrace)?;
        let body = self.parse_block();
        Some(
            Stmt::Function {
                name: Identifier { value: ident.value, location: ident.location },
                public,
                rttype,
                generic_params,
                params,
                body,
            },
        )
    }

    /// Reads `break`.
    fn parse_break(&mut self) -> (res: Option<Stmt>)
        requires
            old(self).ready(),
            old(self).token_idx < old(self).tokens@.len(),
        ensures
            final(self).ready(),
            final(self).follows(*old(self)),
            res is Some ==> final(self).token_idx > old(self).token_idx,
            res matches Some(s) && s matches Stmt::Break { location } && location.view() == old(self).tokens@[old(
                self,
            ).token_idx as int].location.view(),
        decreases old(self).tokens@.len() - old(self).token_idx, 18int,
    {
        let tk = self.get_token()?;
        self.advance();
        Some(Stmt::Break { location: tk.location })
    }

    /// Reads `return` and the value returned, if any.
    fn parse_return(&mut self) -> (res: Option<Stmt>)
        requires
            old(self).ready(),
            old(self).token_idx < old(self).tokens@.len(),
        ensures
            final(self).ready(),
            final(self).follows(*old(self)),
            res is Some ==> final(self).token_idx > old(self).token_idx,
            res matches Some(s) ==> s is Return,
            old(self).kind_at(old(self).token_idx + 1) == Some(TokenType::SemiColon) ==> (res matches Some(s) && s matches Stmt::Return { value: None, .. } && final(
                self).token_idx == old(self).token_idx + 1),
        decreases old(self).tokens@.len() - old(self).token_idx, 18int,
    {
        let tk = self.get_token()?;
        self.advance();
        let expr = match self.current_kind() {
            Some(TokenType::SemiColon) | Some(TokenType::RBrace) => None,
            _ => Some(self.parse_expr()?),
        };
        Some(Stmt::Return { value: expr, span: tk.location })
    }

    /// Reads `var name: type = value`, the type and the value each optional.
    fn parse_assignment(&mut self) -> (res: Option<Stmt>)
        requires
            old(self).ready(),
            old(self).token_idx < old(self).tokens@.len(),
        ensures
            final(self).ready(),
            final(self).follows(*old(self)),
            res is Some ==> final(self).token_idx > old(self).token_idx,
            res matches Some(s) ==> s matches Stmt::Assignment { ident, .. } && old(self).token_idx + 1 < old(
                self,
            ).tokens@.len() && ident.value@ == old(self).tokens@[old(self).token_idx + 1].value@,
            old(self).kind_at(old(self).token_idx + 1) == Some(TokenType::Identifier) && old(self).kind_at(old(self).token_idx + 2) == Some(TokenType::SemiColon) && true ==> (res matches Some(s) && s matches Stmt::Assignment { vtype: None, expr: None, .. }
                && final(self).token_idx == old(self).token_idx + 2),
        decreases old(self).tokens@.len() - old(self).token_idx, 18int,
    {
        self.advance();
        let ident = self.expect(TokenType::Identifier)?;
        let mut vtype: Option<Type> = None;
        if self.at(TokenType::Colon) {
            self.advance();
            vtype = self.parse_type();
        }
        let value = if self.at(TokenType::Assign) {
            self.advance();
            Some(self.parse_expr()?)
        } else {
            None
        };
        Some(
            Stmt::Assignment {
                ident: Identifier { value: ident.value, location: ident.location },
                vtype,
                expr: value,
            },
        )
    }

    /// Reads `for (init; cond; step) { body }`.
    fn parse_for(&mut self) -> (res: Option<Stmt>)
        requires
            old(self).ready(),
            old(self).token_idx < old(self).tokens@.len(),
        ensures
            final(self).ready(),
            final(self).follows(*old(self)),
            res is Some ==> final(self).token_idx > old(self).token_idx,
            res matches Some(s) ==> s is For,
            old(self).kind_at(old(self).token_idx + 1) == Some(TokenType::LParen) && old(self).kind_at(old(self).token_idx + 2) == Some(TokenType::Identifier) && old(self).kind_at(old(self).token_idx + 3) == Some(TokenType::SemiColon) && old(self).kind_at(old(self).token_idx + 4) == Some(TokenType::IntLiteral) && old(self).kind_at(old(self).token_idx + 5) == Some(TokenType::SemiColon) && old(self).kind_at(old(self).token_idx + 6) == Some(TokenType::Identifier) && old(self).kind_at(old(self).token_idx + 7) == Some(TokenType::RParen) && old(self).kind_at(old(self).token_idx + 8) == Some(TokenType::LBrace) && old(self).kind_at(old(self).token_idx + 9) == Some(TokenType::RBrace) ==> (res matches Some(s) && s matches Stmt::For { body, .. } && body@.len() == 0 && final(
                self).token_idx == old(self).token_idx + 10),
        decreases old(self).tokens@.len() - old(self).token_idx, 18int,
    {
        self.advance();
        self.expect(TokenType::LParen)?;
        let init = self.parse_statement(false)?;
        self.expect(TokenType::SemiColon)?;
        let cond = self.parse_expr()?;
        self.expect(TokenType::SemiColon)?;
        let step = self.parse_statement(false)?;
        self.expect(TokenType::RParen)?;
        self.expect(TokenType::LBrace)?;
        let body = self.parse_block();
        Some(Stmt::For { init: Box::new(init), cond, step: Box::new(step), body })
    }

    /// Reads `while (cond) { body }`.
    fn parse_while(&mut self) -> (res: Option<Stmt>)
        requires
            old(self).ready(),
            old(self).token_idx < old(self).tokens@.len(),
        ensures
            final(self).ready(),
            final(self).follows(*old(self)),
            res is Some ==> final(self).token_idx > old(self).token_idx,
            res matches Some(s) ==> s is While,
            old(self).kind_at(old(self).token_idx + 1) == Some(TokenType::LParen) && old(self).kind_at(old(self).token_idx + 2) == Some(TokenType::IntLiteral) && old(self).kind_at(old(self).token_idx + 3) == Some(TokenType::RParen) && old(self).kind_at(old(self).token_idx + 4) == Some(TokenType::LBrace) && old(self).kind_at(old(self).token_idx + 5) == Some(TokenType::RBrace) ==> (res matches Some(s) && s matches Stmt::While { body, .. }
                && body@.len() == 0 && final(self).token_idx == old(self).token_idx + 6),
        decreases old(self).tokens@.len() - old(self).token_idx, 18int,
    {
        self.advance();
        self.expect(TokenType::LParen)?;
        let cond = self.parse_expr()?;
        self.expect(TokenType::RParen)?;
        self.expect(TokenType::LBrace)?;
        let body = self.parse_block();
        Some(Stmt::While { cond, body })
    }

    /// Reads `struct Name<..> { field: type, ... }`.
    fn parse_struct(&mut self) -> (res: Option<Stmt>)
        requires
            old(self).ready(),
            old(self).token_idx < old(self).tokens@.len(),
        ensures
            final(self).ready(),
            final(self).follows(*old(self)),
            res is Some ==> final(self).token_idx > old(self).token_idx,
            res matches Some(s) ==> s is Struct,
            old(self).kind_at(old(self).token_idx + 1) == Some(TokenType::Identifier) && old(self).kind_at(old(self).token_idx + 2) == Some(TokenType::LBrace) && old(self).kind_at(old(self).token_idx + 3) == Some(TokenType::RBrace) ==> (res matches Some(s) && s matches Stmt::Struct { name, fields, .. } && name.value@
                == old(self).tokens@[old(self).token_idx + 1].value@ && fields@.len() == 0 && final(self).token_idx == old(self).token_idx + 4),
        decreases old(self).tokens@.len() - old(self).token_idx, 18int,
    {
        self.advance();
        let ident = self.expect(TokenType::Identifier)?;
        let generic_params = self.parse_generic_params();
        self.expect(TokenType::LBrace)?;
        let mut fields: Vec<Parameter> = Vec::new();
        while !self.eof() && !self.at(TokenType::RBrace)
            invariant
                self.ready(),
                self.follows(*old(self)),
                self.token_idx > old(self).token_idx,
                old(self).kind_at(old(self).token_idx + 1) == Some(TokenType::Identifier) && old(self).kind_at(
                    old(self).token_idx + 2,
                ) == Some(TokenType::LBrace) && old(self).kind_at(old(self).token_idx + 3) == Some(TokenType::RBrace)
                    ==> self.token_idx == old(self).token_idx + 3 && fields@.len() == 0,
            decreases self.tokens@.len() - self.token_idx,
        {
            let name = to_ident(self.get_token())?;
            self.advance();
            self.expect(TokenType::Colon)?;
            let ptype = self.parse_type();
            fields.push(Parameter { name, ptype, is_variadic: false });
            if self.at(TokenType::Comma) {
                self.advance();
            } else if !self.at(TokenType::RBrace) {
                self.throw(
                    ParserErrorType::UnexpectedTokenTypeError,
                    String::from_str("Expected ',' or '}' after struct field"),
                );
                return None;
            }
        }
        self.expect(TokenType::RBrace)?;
        let name = to_ident(Some(ident))?;
        Some(Stmt::Struct { name, generic_params, fields })
    }

    /// Reads `if (cond) { body }` and an `else { body }` if one follows.
    fn parse_if(&mut self) -> (res: Option<Stmt>)
        requires
            old(self).ready(),
            old(self).token_idx < old(self).tokens@.len(),
        ensures
            final(self).ready(),
            final(self).follows(*old(self)),
            res is Some ==> final(self).token_idx > old(self).token_idx,
            res matches Some(s) ==> s is If,
            old(self).kind_at(old(self).token_idx + 1) == Some(TokenType::LParen) && old(self).kind_at(old(self).token_idx + 2) == Some(TokenType::IntLiteral) && old(self).kind_at(old(self).token_idx + 3) == Some(TokenType::RParen) && old(self).kind_at(old(self).token_idx + 4) == Some(TokenType::LBrace) && old(self).kind_at(old(self).token_idx + 5) == Some(TokenType::RBrace) && old(self).kind_at(old(self).token_idx + 6) != Some(TokenType::ElseKeyword) ==> (res matches Some(s) && s matches Stmt::If {
                then_branch, else_branch: None, ..
            } && then_branch@.len() == 0 && final(self).token_idx == old(self).token_idx + 6),
        decreases old(self).tokens@.len() - old(self).token_idx, 18int,
    {
        self.advance();
        self.expect(TokenType::LParen)?;
        let cond = self.parse_expr()?;
        self.expect(TokenType::RParen)?;
        self.expect(TokenType::LBrace)?;
        let body = self.parse_block();
        let else_branch = if self.at(TokenType::ElseKeyword) {
            self.advance();
            self.expect(TokenType::LBrace);
            Some(self.parse_block())
        } else {
            None
        };
        Some(
            Stmt::If { cond, then_branch: body, else_if_branches: Vec::new(), else_branch },
        )
    }
}

} // verus!
