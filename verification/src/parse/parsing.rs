use crate::utils::location::{location_text, Location};
use crate::utils::text::{concat, concat3, debug_quoted, debug_text, dec, usize_to_string};
use vstd::prelude::*;

verus! {

/// A type of the source language.
#[derive(Debug, PartialEq)]
pub enum Type {
    Int,
    UInt,
    Int8,
    UInt8,
    Float,
    Double,
    Bool,
    Str,
    Char,
    Void,
    Any,
    Nil,
    Struct(String),
    Enum(String),
    Ptr(Box<Type>),
    Array { element_type: Box<Type>, size: usize },
    GenericInstance { name: String, args: Vec<Type> },
    GenericParam(String),
    VariadicPack { name: String, types: Vec<Type> },
}

/// The mathematical value of a [`Type`]: names are sequences of characters.
pub enum TypeV {
    Int,
    UInt,
    Int8,
    UInt8,
    Float,
    Double,
    Bool,
    Str,
    Char,
    Void,
    Any,
    Nil,
    Struct(Seq<char>),
    Enum(Seq<char>),
    Ptr(Box<TypeV>),
    Array { element_type: Box<TypeV>, size: usize },
    GenericInstance { name: Seq<char>, args: Seq<TypeV> },
    GenericParam(Seq<char>),
    VariadicPack { name: Seq<char>, types: Seq<TypeV> },
}

impl View for Type {
    type V = TypeV;

    open spec fn view(&self) -> TypeV
        decreases self,
    {
        match self {
            Type::Int => TypeV::Int,
            Type::UInt => TypeV::UInt,
            Type::Int8 => TypeV::Int8,
            Type::UInt8 => TypeV::UInt8,
            Type::Float => TypeV::Float,
            Type::Double => TypeV::Double,
            Type::Bool => TypeV::Bool,
            Type::Str => TypeV::Str,
            Type::Char => TypeV::Char,
            Type::Void => TypeV::Void,
            Type::Any => TypeV::Any,
            Type::Nil => TypeV::Nil,
            Type::Struct(n) => TypeV::Struct(n@),
            Type::Enum(n) => TypeV::Enum(n@),
            Type::Ptr(inner) => TypeV::Ptr(Box::new((**inner).view())),
            Type::Array { element_type, size } => TypeV::Array {
                element_type: Box::new((**element_type).view()),
                size: *size,
            },
            Type::GenericInstance { name, args } => TypeV::GenericInstance {
                name: name@,
                args: types_view(args@),
            },
            Type::GenericParam(n) => TypeV::GenericParam(n@),
            Type::VariadicPack { name, types } => TypeV::VariadicPack {
                name: name@,
                types: types_view(types@),
            },
        }
    }
}

/// The values of a sequence of types, element by element.
pub open spec fn types_view(s: Seq<Type>) -> Seq<TypeV>
    decreases s,
{
    if s.len() == 0 {
        Seq::empty()
    } else {
        seq![s[0].view()] + types_view(s.drop_first())
    }
}

/// `types_view` keeps the length and maps each element to its value.
pub proof fn lemma_types_view(s: Seq<Type>)
    ensures
        types_view(s).len() == s.len(),
        forall|i: int| 0 <= i < s.len() ==> #[trigger] types_view(s)[i] == s[i]@,
    decreases s.len(),
{
    if s.len() > 0 {
        lemma_types_view(s.drop_first());
        let rest = types_view(s.drop_first());
        assert(types_view(s) == seq![s[0]@] + rest);
        assert forall|i: int| 0 <= i < s.len() implies #[trigger] types_view(s)[i] == s[i]@ by {
            if i > 0 {
                assert(s.drop_first()[i - 1] == s[i]);
                assert(types_view(s)[i] == rest[i - 1]);
            }
        }
    }
}

/// Two type sequences whose elements have the same values have the same value.
pub proof fn lemma_types_view_eq(a: Seq<Type>, b: Seq<Type>)
    requires
        a.len() == b.len(),
        forall|i: int| 0 <= i < a.len() ==> (#[trigger] a[i])@ == b[i]@,
    ensures
        types_view(a) == types_view(b),
{
    lemma_types_view(a);
    lemma_types_view(b);
    assert(types_view(a) =~= types_view(b));
}

/// Whether two types are the same type.
pub fn type_eq(a: &Type, b: &Type) -> (res: bool)
    ensures
        res == (a@ == b@),
    decreases a,
{
    match (a, b) {
        (Type::Int, Type::Int) => true,
        (Type::UInt, Type::UInt) => true,
        (Type::Int8, Type::Int8) => true,
        (Type::UInt8, Type::UInt8) => true,
        (Type::Float, Type::Float) => true,
        (Type::Double, Type::Double) => true,
        (Type::Bool, Type::Bool) => true,
        (Type::Str, Type::Str) => true,
        (Type::Char, Type::Char) => true,
        (Type::Void, Type::Void) => true,
        (Type::Any, Type::Any) => true,
        (Type::Nil, Type::Nil) => true,
        (Type::Struct(x), Type::Struct(y)) => *x == *y,
        (Type::Enum(x), Type::Enum(y)) => *x == *y,
        (Type::GenericParam(x), Type::GenericParam(y)) => *x == *y,
        (Type::Ptr(x), Type::Ptr(y)) => type_eq(x, y),
        (
            Type::Array { element_type: x, size: n },
            Type::Array { element_type: y, size: m },
        ) => *n == *m && type_eq(x, y),
        (
            Type::GenericInstance { name: n1, args: a1 },
            Type::GenericInstance { name: n2, args: a2 },
        ) => {
            if !(*n1 == *n2) {
                return false;
            }
            types_eq(a1, a2)
        },
        (
            Type::VariadicPack { name: n1, types: a1 },
            Type::VariadicPack { name: n2, types: a2 },
        ) => {
            if !(*n1 == *n2) {
                return false;
            }
            types_eq(a1, a2)
        },
        _ => false,
    }
}

/// Whether two type lists are the same list of types.
pub fn types_eq(a: &Vec<Type>, b: &Vec<Type>) -> (res: bool)
    ensures
        res == (types_view(a@) == types_view(b@)),
    decreases a,
{
    proof {
        lemma_types_view(a@);
        lemma_types_view(b@);
    }
    if a.len() != b.len() {
        return false;
    }
    let mut i: usize = 0;
    while i < a.len()
        invariant
            0 <= i <= a.len(),
            a.len() == b.len(),
            types_view(a@).len() == a.len(),
            types_view(b@).len() == b.len(),
            forall|j: int| 0 <= j < a.len() ==> #[trigger] types_view(a@)[j] == a@[j]@,
            forall|j: int| 0 <= j < b.len() ==> #[trigger] types_view(b@)[j] == b@[j]@,
            forall|j: int| 0 <= j < i ==> a@[j]@ == b@[j]@,
        decreases a.len() - i,
    {
        if !type_eq(&a[i], &b[i]) {
            assert(types_view(a@)[i as int] != types_view(b@)[i as int]);
            return false;
        }
        i = i + 1;
    }
    assert(types_view(a@) =~= types_view(b@));
    true
}

/// A copy of a type.
pub fn clone_type(t: &Type) -> (res: Type)
    ensures
        res@ == t@,
    decreases t,
{
    match t {
        Type::Int => Type::Int,
        Type::UInt => Type::UInt,
        Type::Int8 => Type::Int8,
        Type::UInt8 => Type::UInt8,
        Type::Float => Type::Float,
        Type::Double => Type::Double,
        Type::Bool => Type::Bool,
        Type::Str => Type::Str,
        Type::Char => Type::Char,
        Type::Void => Type::Void,
        Type::Any => Type::Any,
        Type::Nil => Type::Nil,
        Type::Struct(n) => Type::Struct(n.clone()),
        Type::Enum(n) => Type::Enum(n.clone()),
        Type::GenericParam(n) => Type::GenericParam(n.clone()),
        Type::Ptr(inner) => Type::Ptr(Box::new(clone_type(inner))),
        Type::Array { element_type, size } => Type::Array {
            element_type: Box::new(clone_type(element_type)),
            size: *size,
        },
        Type::GenericInstance { name, args } => Type::GenericInstance {
            name: name.clone(),
            args: clone_types(args),
        },
        Type::VariadicPack { name, types } => Type::VariadicPack {
            name: name.clone(),
            types: clone_types(types),
        },
    }
}

/// A copy of a list of types.
pub fn clone_types(ts: &Vec<Type>) -> (res: Vec<Type>)
    ensures
        types_view(res@) == types_view(ts@),
        res@.len() == ts@.len(),
    decreases ts,
{
    let mut out: Vec<Type> = Vec::new();
    let mut i: usize = 0;
    while i < ts.len()
        invariant
            0 <= i <= ts.len(),
            out@.len() == i,
            forall|j: int| 0 <= j < i ==> (#[trigger] out@[j])@ == ts@[j]@,
        decreases ts.len() - i,
    {
        let c = clone_type(&ts[i]);
        out.push(c);
        i = i + 1;
    }
    proof {
        lemma_types_view_eq(out@, ts@);
    }
    out
}

/// A literal value. Floating-point literals hold the bits of their IEEE 754 value.
#[derive(Debug, PartialEq)]
pub enum Literal {
    Int(i64),
    String(String),
    Char(char),
    Bool(bool),
    Arr { elements: Vec<Expr> },
    /// The bits of a 64-bit float.
    Double(u64),
    /// The bits of a 32-bit float.
    Float(u32),
    Nil,
}

/// A binary operator.
#[derive(Debug, Clone, Copy, PartialEq, Eq, Structural)]
pub enum BinaryOp {
    Add,
    Sub,
    Mul,
    Div,
    Mod,
    Eq,
    NEq,
    Gt,
    GtE,
    Lt,
    LtE,
    And,
    Or,
}

/// A unary operator.
#[derive(Debug, Clone, Copy, PartialEq, Eq, Structural)]
pub enum UnaryOp {
    Positive,
    Negative,
    AddressOf,
    Deref,
    Not,
}

/// A name and where it appears.
#[derive(Debug, PartialEq)]
pub struct Identifier {
    pub value: String,
    pub location: Location,
}

impl Identifier {
    /// The value of an identifier: its text and its location's value.
    pub open spec fn view(&self) -> (Seq<char>, (usize, usize, Seq<char>)) {
        (self.value@, self.location.view())
    }

    /// A copy of this identifier.
    pub fn duplicate(&self) -> (res: Identifier)
        ensures
            res.view() == self.view(),
    {
        Identifier { value: self.value.clone(), location: self.location.duplicate() }
    }
}

/// The shape of an expression.
#[derive(Debug, PartialEq)]
pub enum ExprKind {
    Literal(Literal),
    Identifier(String),
    /// array indexing
    Index { base: Box<Expr>, index: Box<Expr> },
    /// field access
    Field { base: Box<Expr>, field: String },
    /// struct literal
    StructLiteral { struct_name: String, generic_args: Vec<Type>, fields: Vec<(String, Expr)> },
    /// basic maths
    Binary { left: Box<Expr>, op: BinaryOp, right: Box<Expr> },
    Cast { left: Box<Expr>, right: Type },
    Unary { op: UnaryOp, expr: Box<Expr> },
    Call { callee: Identifier, generic_args: Vec<Type>, args: Vec<Expr> },
    Sizeof { ty: Type },
    Typeof { expr: Box<Expr> },
}

/// An expression and where it appears.
#[derive(Debug, PartialEq)]
pub struct Expr {
    pub kind: ExprKind,
    pub span: Location,
}

/// A parameter of a function or a field of a struct: its name and, if written, its type.
#[derive(Debug)]
pub struct Parameter {
    pub name: Identifier,
    pub ptype: Option<Type>,
    pub is_variadic: bool,
}

/// A statement.
#[derive(Debug)]
pub enum Stmt {
    Assignment { ident: Identifier, vtype: Option<Type>, expr: Option<Expr> },
    Constant { name: Identifier, vtype: Option<Type>, expr: Expr },
    Reassignment { ident: Identifier, expr: Expr },
    DerefReassignment { target: Expr, expr: Expr },
    Expr(Expr),
    If {
        cond: Expr,
        then_branch: Vec<Stmt>,
        else_if_branches: Vec<(Expr, Vec<Stmt>)>,
        else_branch: Option<Vec<Stmt>>,
    },
    While { cond: Expr, body: Vec<Stmt> },
    For { init: Box<Stmt>, cond: Expr, step: Box<Stmt>, body: Vec<Stmt> },
    ForIn { field_ident: Identifier, target_expr: Expr, body: Vec<Stmt> },
    Return { value: Option<Expr>, span: Location },
    Use { path: Vec<String> },
    Struct { name: Identifier, generic_params: Vec<String>, fields: Vec<Parameter> },
    Enum { name: Identifier, options: Vec<Identifier> },
    Function {
        name: Identifier,
        public: bool,
        rttype: Option<Type>,
        generic_params: Vec<String>,
        params: Vec<Parameter>,
        body: Vec<Stmt>,
    },
    Extern {
        name: Identifier,
        rttype: Option<Type>,
        generic_params: Vec<String>,
        params: Vec<Parameter>,
    },
    Break { location: Location },
}

/// A parsed program: its top-level statements.
#[derive(Debug)]
pub struct Program {
    pub statements: Vec<Stmt>,
}

/// The kind of a parser error.
#[derive(Debug, Clone, Copy, PartialEq, Eq, Structural)]
pub enum ParserErrorType {
    MalformedStatementError,
    UnexpectedTokenTypeError,
    UnimplementedError,
}

/// A parser error: its kind, a message, and where it was found.
#[derive(Debug)]
pub struct ParserError {
    pub etype: ParserErrorType,
    pub message: String,
    pub location: Location,
}

/// The name of a parser error kind, as `{:?}` writes it.
pub open spec fn parser_error_type_text(t: ParserErrorType) -> Seq<char> {
    match t {
        ParserErrorType::MalformedStatementError => "MalformedStatementError"@,
        ParserErrorType::UnexpectedTokenTypeError => "UnexpectedTokenTypeError"@,
        ParserErrorType::UnimplementedError => "UnimplementedError"@,
    }
}

impl ParserError {
    /// How the error is written: `! Parser Error :<location>: <kind>: <message>`.
    pub fn to_text(&self) -> (res: String)
        ensures
            res@ == "! Parser Error :"@ + location_text(self.location.view()) + ": "@
                + parser_error_type_text(self.etype) + ": "@ + self.message@,
    {
        let kind = match self.etype {
            ParserErrorType::MalformedStatementError => "MalformedStatementError",
            ParserErrorType::UnexpectedTokenTypeError => "UnexpectedTokenTypeError",
            ParserErrorType::UnimplementedError => "UnimplementedError",
        };
        let at = self.location.to_text();
        let a = concat3("! Parser Error :", at.as_str(), ": ");
        let b = concat3(a.as_str(), kind, ": ");
        concat(b.as_str(), self.message.as_str())
    }
}

/// The value of an integer literal; a float literal is not one.
impl Literal {
    /// The integer value of an integer literal.
    pub fn to_i64(&self) -> (res: i64)
        requires
            self is Int,
        ensures
            res == self->Int_0,
    {
        match self {
            Literal::Int(n) => *n,
            _ => {
                proof {
                    assert(false);
                }
                0
            },
        }
    }
}

/// Whether no `use` statement occurs in `s` or in any statement nested in it: `use` is
/// resolved before analysis.
pub open spec fn stmt_no_use(s: Stmt) -> bool
    decreases s,
{
    match s {
        Stmt::Use { .. } => false,
        Stmt::If { then_branch, else_if_branches, else_branch, .. } => {
            &&& stmts_no_use(then_branch@)
            &&& branches_no_use(else_if_branches@)
            &&& match else_branch {
                Some(b) => stmts_no_use(b@),
                None => true,
            }
        },
        Stmt::While { body, .. } => stmts_no_use(body@),
        Stmt::For { init, step, body, .. } => stmt_no_use(*init) && stmt_no_use(*step) && stmts_no_use(
            body@,
        ),
        Stmt::ForIn { body, .. } => stmts_no_use(body@),
        Stmt::Function { body, .. } => stmts_no_use(body@),
        _ => true,
    }
}

/// Whether no `use` statement occurs in any of `s`.
pub open spec fn stmts_no_use(s: Seq<Stmt>) -> bool
    decreases s,
{
    if s.len() == 0 {
        true
    } else {
        stmt_no_use(s[0]) && stmts_no_use(s.drop_first())
    }
}

/// Whether no `use` statement occurs in the bodies of the `else if` branches `s`.
pub open spec fn branches_no_use(s: Seq<(Expr, Vec<Stmt>)>) -> bool
    decreases s,
{
    if s.len() == 0 {
        true
    } else {
        stmts_no_use(s[0].1@) && branches_no_use(s.drop_first())
    }
}

/// Whether no `use` statement occurs in `s`, at any depth.
pub fn stmt_has_no_use(s: &Stmt) -> (res: bool)
    ensures
        res == stmt_no_use(*s),
    decreases s, 1int,
{
    match s {
        Stmt::Use { .. } => false,
        Stmt::If { then_branch, else_if_branches, else_branch, .. } => {
            if !stmts_have_no_use(then_branch) {
                return false;
            }
            proof {
                lemma_branches_no_use(else_if_branches@);
            }
            let mut i: usize = 0;
            while i < else_if_branches.len()
                invariant
                    0 <= i <= else_if_branches@.len(),
                    forall|j: int| 0 <= j < i ==> #[trigger] stmts_no_use(else_if_branches@[j].1@),
                    branches_no_use(else_if_branches@) == forall|j: int| 0 <= j < else_if_branches@.len() ==> #[trigger] stmts_no_use(else_if_branches@[j].1@),
                    *s == (Stmt::If {
                        cond: s->If_cond,
                        then_branch: *then_branch,
                        else_if_branches: *else_if_branches,
                        else_branch: *else_branch,
                    }),
                decreases else_if_branches.len() - i,
            {
                proof {
                    let bs = s->If_else_if_branches;
                    assert(decreases_to!(s => bs));
                    assert(decreases_to!(bs => bs@));
                    assert(decreases_to!(bs@ => bs@[i as int]));
                    assert(decreases_to!(bs@[i as int] => bs@[i as int].1));
                }
                if !stmts_have_no_use(&else_if_branches[i].1) {
                    return false;
                }
                i = i + 1;
            }
            match else_branch {
                Some(b) => stmts_have_no_use(b),
                None => true,
            }
        },
        Stmt::While { body, .. } => stmts_have_no_use(body),
        Stmt::For { init, step, body, .. } => stmt_has_no_use(init) && stmt_has_no_use(step) && stmts_have_no_use(body),
        Stmt::ForIn { body, .. } => stmts_have_no_use(body),
        Stmt::Function { body, .. } => stmts_have_no_use(body),
        _ => true,
    }
}

/// Whether no `use` statement occurs in any of `ss`, at any depth.
pub fn stmts_have_no_use(ss: &Vec<Stmt>) -> (res: bool)
    ensures
        res == stmts_no_use(ss@),
    decreases ss, 0int,
{
    proof {
        lemma_stmts_no_use(ss@);
    }
    let mut i: usize = 0;
    while i < ss.len()
        invariant
            0 <= i <= ss@.len(),
            forall|j: int| 0 <= j < i ==> #[trigger] stmt_no_use(ss@[j]),
            stmts_no_use(ss@) == forall|j: int| 0 <= j < ss@.len() ==> #[trigger] stmt_no_use(ss@[j]),
        decreases ss.len() - i,
    {
        if !stmt_has_no_use(&ss[i]) {
            return false;
        }
        i = i + 1;
    }
    true
}

/// `stmts_no_use` holds exactly when it holds of each statement.
pub proof fn lemma_stmts_no_use(s: Seq<Stmt>)
    ensures
        stmts_no_use(s) == forall|i: int| 0 <= i < s.len() ==> #[trigger] stmt_no_use(s[i]),
    decreases s.len(),
{
    if s.len() > 0 {
        lemma_stmts_no_use(s.drop_first());
        assert forall|i: int| 1 <= i < s.len() implies s.drop_first()[i - 1] == s[i] by {}
        if !stmts_no_use(s) {
            if stmt_no_use(s[0]) {
                let j = choose|j: int| 0 <= j < s.drop_first().len() && !stmt_no_use(#[trigger] s.drop_first()[j]);
                assert(!stmt_no_use(s[j + 1]));
            }
        }
    }
}

/// `branches_no_use` holds exactly when it holds of each branch's body.
pub proof fn lemma_branches_no_use(s: Seq<(Expr, Vec<Stmt>)>)
    ensures
        branches_no_use(s) == forall|i: int| 0 <= i < s.len() ==> #[trigger] stmts_no_use(s[i].1@),
    decreases s.len(),
{
    if s.len() > 0 {
        lemma_branches_no_use(s.drop_first());
        assert forall|i: int| 1 <= i < s.len() implies s.drop_first()[i - 1] == s[i] by {}
        if !branches_no_use(s) {
            if stmts_no_use(s[0].1@) {
                let j = choose|j: int| 0 <= j < s.drop_first().len() && !stmts_no_use(#[trigger] s.drop_first()[j].1@);
                assert(!stmts_no_use(s[j + 1].1@));
            }
        }
    }
}

impl Literal {
    /// A copy of this literal.
    pub fn duplicate(&self) -> (res: Literal)
        ensures
            match *self {
                Literal::Arr { elements } => res matches Literal::Arr { elements: e } && e@.len() == elements@.len(),
                _ => res == *self,
            },
        decreases self,
    {
        match self {
            Literal::Int(n) => Literal::Int(*n),
            Literal::String(s) => Literal::String(s.clone()),
            Literal::Char(c) => Literal::Char(*c),
            Literal::Bool(b) => Literal::Bool(*b),
            Literal::Arr { elements } => Literal::Arr { elements: duplicate_exprs(elements) },
            Literal::Double(b) => Literal::Double(*b),
            Literal::Float(b) => Literal::Float(*b),
            Literal::Nil => Literal::Nil,
        }
    }
}

impl Expr {
    /// A copy of this expression.
    pub fn duplicate(&self) -> (res: Expr)
        ensures
            res.span == self.span,
        decreases self,
    {
        let kind = match &self.kind {
            ExprKind::Literal(l) => ExprKind::Literal(l.duplicate()),
            ExprKind::Identifier(n) => ExprKind::Identifier(n.clone()),
            ExprKind::Index { base, index } => ExprKind::Index {
                base: Box::new(base.duplicate()),
                index: Box::new(index.duplicate()),
            },
            ExprKind::Field { base, field } => ExprKind::Field {
                base: Box::new(base.duplicate()),
                field: field.clone(),
            },
            ExprKind::StructLiteral { struct_name, generic_args, fields } => ExprKind::StructLiteral {
                struct_name: struct_name.clone(),
                generic_args: clone_types(generic_args),
                fields: duplicate_fields(fields),
            },
            ExprKind::Binary { left, op, right } => ExprKind::Binary {
                left: Box::new(left.duplicate()),
                op: *op,
                right: Box::new(right.duplicate()),
            },
            ExprKind::Cast { left, right } => ExprKind::Cast {
                left: Box::new(left.duplicate()),
                right: clone_type(right),
            },
            ExprKind::Unary { op, expr } => ExprKind::Unary { op: *op, expr: Box::new(expr.duplicate()) },
            ExprKind::Call { callee, generic_args, args } => ExprKind::Call {
                callee: callee.duplicate(),
                generic_args: clone_types(generic_args),
                args: duplicate_exprs(args),
            },
            ExprKind::Sizeof { ty } => ExprKind::Sizeof { ty: clone_type(ty) },
            ExprKind::Typeof { expr } => ExprKind::Typeof { expr: Box::new(expr.duplicate()) },
        };
        Expr { kind, span: self.span.duplicate_same() }
    }
}

/// Copies of the expressions `es`.
pub fn duplicate_exprs(es: &Vec<Expr>) -> (res: Vec<Expr>)
    ensures
        res@.len() == es@.len(),
    decreases es,
{
    let mut out: Vec<Expr> = Vec::new();
    let mut i: usize = 0;
    while i < es.len()
        invariant
            0 <= i <= es@.len(),
            out@.len() == i,
        decreases es.len() - i,
    {
        out.push(es[i].duplicate());
        i = i + 1;
    }
    out
}

/// Copies of the named field values `fs`.
pub fn duplicate_fields(fs: &Vec<(String, Expr)>) -> (res: Vec<(String, Expr)>)
    ensures
        res@.len() == fs@.len(),
    decreases fs,
{
    let mut out: Vec<(String, Expr)> = Vec::new();
    let mut i: usize = 0;
    while i < fs.len()
        invariant
            0 <= i <= fs@.len(),
            out@.len() == i,
        decreases fs.len() - i,
    {
        out.push((fs[i].0.clone(), fs[i].1.duplicate()));
        i = i + 1;
    }
    out
}

/// A copy of an optional type.
pub fn clone_opt_type(t: &Option<Type>) -> (res: Option<Type>)
    ensures
        match t {
            Some(x) => res matches Some(y) && y@ == x@,
            None => res is None,
        },
{
    match t {
        Some(x) => Some(clone_type(x)),
        None => None,
    }
}

impl Parameter {
    /// A copy of this parameter.
    pub fn duplicate(&self) -> (res: Parameter)
        ensures
            res.name.view() == self.name.view(),
            res.is_variadic == self.is_variadic,
            match self.ptype {
                Some(x) => res.ptype matches Some(y) && y@ == x@,
                None => res.ptype is None,
            },
    {
        Parameter { name: self.name.duplicate(), ptype: clone_opt_type(&self.ptype), is_variadic: self.is_variadic }
    }
}

/// Copies of the parameters `ps`.
pub fn duplicate_params(ps: &Vec<Parameter>) -> (res: Vec<Parameter>)
    ensures
        res@.len() == ps@.len(),
        forall|i: int| 0 <= i < ps@.len() ==> (#[trigger] res@[i]).name.view() == ps@[i].name.view()
            && res@[i].is_variadic == ps@[i].is_variadic,
{
    let mut out: Vec<Parameter> = Vec::new();
    let mut i: usize = 0;
    while i < ps.len()
        invariant
            0 <= i <= ps@.len(),
            out@.len() == i,
            forall|j: int| 0 <= j < i ==> (#[trigger] out@[j]).name.view() == ps@[j].name.view()
                && out@[j].is_variadic == ps@[j].is_variadic,
        decreases ps.len() - i,
    {
        out.push(ps[i].duplicate());
        i = i + 1;
    }
    out
}

/// A copy of a list of strings.
pub fn duplicate_strings(v: &Vec<String>) -> (res: Vec<String>)
    ensures
        res@ == v@,
{
    let mut out: Vec<String> = Vec::new();
    let mut i: usize = 0;
    while i < v.len()
        invariant
            0 <= i <= v@.len(),
            out@ == v@.take(i as int),
        decreases v.len() - i,
    {
        out.push(v[i].clone());
        i = i + 1;
        assert(out@ =~= v@.take(i as int));
    }
    assert(v@.take(v@.len() as int) =~= v@);
    out
}

impl Stmt {
    /// A copy of this statement; a statement free of `use` gives a copy free of `use`.
    pub fn duplicate(&self) -> (res: Stmt)
        ensures
            stmt_no_use(*self) ==> stmt_no_use(res),
        decreases self,
    {
        match self {
            Stmt::Assignment { ident, vtype, expr } => Stmt::Assignment {
                ident: ident.duplicate(),
                vtype: clone_opt_type(vtype),
                expr: match expr {
                    Some(e) => Some(e.duplicate()),
                    None => None,
                },
            },
            Stmt::Constant { name, vtype, expr } => Stmt::Constant {
                name: name.duplicate(),
                vtype: clone_opt_type(vtype),
                expr: expr.duplicate(),
            },
            Stmt::Reassignment { ident, expr } => Stmt::Reassignment { ident: ident.duplicate(), expr: expr.duplicate() },
            Stmt::DerefReassignment { target, expr } => Stmt::DerefReassignment {
                target: target.duplicate(),
                expr: expr.duplicate(),
            },
            Stmt::Expr(e) => Stmt::Expr(e.duplicate()),
            Stmt::If { cond, then_branch, else_if_branches, else_branch } => Stmt::If {
                cond: cond.duplicate(),
                then_branch: duplicate_stmts(then_branch),
                else_if_branches: duplicate_branches(else_if_branches),
                else_branch: match else_branch {
                    Some(b) => Some(duplicate_stmts(b)),
                    None => None,
                },
            },
            Stmt::While { cond, body } => Stmt::While { cond: cond.duplicate(), body: duplicate_stmts(body) },
            Stmt::For { init, cond, step, body } => Stmt::For {
                init: Box::new(init.duplicate()),
                cond: cond.duplicate(),
                step: Box::new(step.duplicate()),
                body: duplicate_stmts(body),
            },
            Stmt::ForIn { field_ident, target_expr, body } => Stmt::ForIn {
                field_ident: field_ident.duplicate(),
                target_expr: target_expr.duplicate(),
                body: duplicate_stmts(body),
            },
            Stmt::Return { value, span } => Stmt::Return {
                value: match value {
                    Some(e) => Some(e.duplicate()),
                    None => None,
                },
                span: span.duplicate(),
            },
            Stmt::Use { path } => Stmt::Use { path: duplicate_strings(path) },
            Stmt::Struct { name, generic_params, fields } => Stmt::Struct {
                name: name.duplicate(),
                generic_params: duplicate_strings(generic_params),
                fields: duplicate_params(fields),
            },
            Stmt::Enum { name, options } => Stmt::Enum { name: name.duplicate(), options: duplicate_idents(options) },
            Stmt::Function { name, public, rttype, generic_params, params, body } => Stmt::Function {
                name: name.duplicate(),
                public: *public,
                rttype: clone_opt_type(rttype),
                generic_params: duplicate_strings(generic_params),
                params: duplicate_params(params),
                body: duplicate_stmts(body),
            },
            Stmt::Extern { name, rttype, generic_params, params } => Stmt::Extern {
                name: name.duplicate(),
                rttype: clone_opt_type(rttype),
                generic_params: duplicate_strings(generic_params),
                params: duplicate_params(params),
            },
            Stmt::Break { location } => Stmt::Break { location: location.duplicate() },
        }
    }
}

/// Copies of the identifiers `ids`.
pub fn duplicate_idents(ids: &Vec<Identifier>) -> (res: Vec<Identifier>)
    ensures
        res@.len() == ids@.len(),
{
    let mut out: Vec<Identifier> = Vec::new();
    let mut i: usize = 0;
    while i < ids.len()
        invariant
            0 <= i <= ids@.len(),
            out@.len() == i,
        decreases ids.len() - i,
    {
        out.push(ids[i].duplicate());
        i = i + 1;
    }
    out
}

/// Copies of the statements `ss`; statements free of `use` give copies free of `use`.
pub fn duplicate_stmts(ss: &Vec<Stmt>) -> (res: Vec<Stmt>)
    ensures
        res@.len() == ss@.len(),
        stmts_no_use(ss@) ==> stmts_no_use(res@),
    decreases ss,
{
    proof {
        lemma_stmts_no_use(ss@);
    }
    let mut out: Vec<Stmt> = Vec::new();
    let mut i: usize = 0;
    while i < ss.len()
        invariant
            0 <= i <= ss@.len(),
            out@.len() == i,
            stmts_no_use(ss@) == forall|j: int| 0 <= j < ss@.len() ==> #[trigger] stmt_no_use(ss@[j]),
            forall|j: int| 0 <= j < i ==> stmt_no_use(ss@[j]) ==> stmt_no_use(#[trigger] out@[j]),
        decreases ss.len() - i,
    {
        out.push(ss[i].duplicate());
        i = i + 1;
    }
    proof {
        lemma_stmts_no_use(out@);
    }
    out
}

/// Copies of the `else if` branches `bs`; bodies free of `use` give copies free of `use`.
pub fn duplicate_branches(bs: &Vec<(Expr, Vec<Stmt>)>) -> (res: Vec<(Expr, Vec<Stmt>)>)
    ensures
        res@.len() == bs@.len(),
        forall|i: int| 0 <= i < bs@.len() ==> (#[trigger] res@[i]).0.span == bs@[i].0.span && res@[i].1@.len()
            == bs@[i].1@.len(),
        branches_no_use(bs@) ==> branches_no_use(res@),
    decreases bs,
{
    proof {
        lemma_branches_no_use(bs@);
    }
    let mut out: Vec<(Expr, Vec<Stmt>)> = Vec::new();
    let mut i: usize = 0;
    while i < bs.len()
        invariant
            0 <= i <= bs@.len(),
            out@.len() == i,
            branches_no_use(bs@) == forall|j: int| 0 <= j < bs@.len() ==> #[trigger] stmts_no_use(bs@[j].1@),
            forall|j: int| 0 <= j < i ==> stmts_no_use(bs@[j].1@) ==> stmts_no_use(#[trigger] out@[j].1@),
            forall|j: int| 0 <= j < i ==> (#[trigger] out@[j]).0.span == bs@[j].0.span && out@[j].1@.len()
                == bs@[j].1@.len(),
        decreases bs.len() - i,
    {
        out.push((bs[i].0.duplicate(), duplicate_stmts(&bs[i].1)));
        i = i + 1;
    }
    proof {
        lemma_branches_no_use(out@);
    }
    out
}

/// How `{:?}` writes a type.
pub open spec fn type_debug_text(t: TypeV) -> Seq<char>
    decreases t,
{
    match t {
        TypeV::Int => "Int"@,
        TypeV::UInt => "UInt"@,
        TypeV::Int8 => "Int8"@,
        TypeV::UInt8 => "UInt8"@,
        TypeV::Float => "Float"@,
        TypeV::Double => "Double"@,
        TypeV::Bool => "Bool"@,
        TypeV::Str => "Str"@,
        TypeV::Char => "Char"@,
        TypeV::Void => "Void"@,
        TypeV::Any => "Any"@,
        TypeV::Nil => "Nil"@,
        TypeV::Struct(n) => "Struct("@ + debug_text(n) + ")"@,
        TypeV::Enum(n) => "Enum("@ + debug_text(n) + ")"@,
        TypeV::GenericParam(n) => "GenericParam("@ + debug_text(n) + ")"@,
        TypeV::Ptr(inner) => "Ptr("@ + type_debug_text(*inner) + ")"@,
        TypeV::Array { element_type, size } => "Array { element_type: "@ + type_debug_text(*element_type)
            + ", size: "@ + dec(size as nat) + " }"@,
        TypeV::GenericInstance { name, args } => "GenericInstance { name: "@ + debug_text(name) + ", args: ["@
            + types_debug_text(args) + "] }"@,
        TypeV::VariadicPack { name, types } => "VariadicPack { name: "@ + debug_text(name) + ", types: ["@
            + types_debug_text(types) + "] }"@,
    }
}

/// How `{:?}` writes the types of a list, between its brackets: separated by `, `.
pub open spec fn types_debug_text(s: Seq<TypeV>) -> Seq<char>
    decreases s,
{
    if s.len() == 0 {
        Seq::empty()
    } else if s.len() == 1 {
        type_debug_text(s[0])
    } else {
        type_debug_text(s[0]) + ", "@ + types_debug_text(s.drop_first())
    }
}

/// How `{:?}` writes a type.
pub fn type_debug(t: &Type) -> (res: String)
    ensures
        res@ == type_debug_text(t@),
    decreases t,
{
    match t {
        Type::Int => String::from_str("Int"),
        Type::UInt => String::from_str("UInt"),
        Type::Int8 => String::from_str("Int8"),
        Type::UInt8 => String::from_str("UInt8"),
        Type::Float => String::from_str("Float"),
        Type::Double => String::from_str("Double"),
        Type::Bool => String::from_str("Bool"),
        Type::Str => String::from_str("Str"),
        Type::Char => String::from_str("Char"),
        Type::Void => String::from_str("Void"),
        Type::Any => String::from_str("Any"),
        Type::Nil => String::from_str("Nil"),
        Type::Struct(n) => {
            let q = debug_quoted(n.as_str());
            concat3("Struct(", q.as_str(), ")")
        },
        Type::Enum(n) => {
            let q = debug_quoted(n.as_str());
            concat3("Enum(", q.as_str(), ")")
        },
        Type::GenericParam(n) => {
            let q = debug_quoted(n.as_str());
            concat3("GenericParam(", q.as_str(), ")")
        },
        Type::Ptr(inner) => {
            let i = type_debug(inner);
            concat3("Ptr(", i.as_str(), ")")
        },
        Type::Array { element_type, size } => {
            let e = type_debug(element_type);
            let n = usize_to_string(*size);
            let a = concat3("Array { element_type: ", e.as_str(), ", size: ");
            concat3(a.as_str(), n.as_str(), " }")
        },
        Type::GenericInstance { name, args } => {
            let q = debug_quoted(name.as_str());
            let l = types_debug(args);
            let a = concat3("GenericInstance { name: ", q.as_str(), ", args: [");
            concat3(a.as_str(), l.as_str(), "] }")
        },
        Type::VariadicPack { name, types } => {
            let q = debug_quoted(name.as_str());
            let l = types_debug(types);
            let a = concat3("VariadicPack { name: ", q.as_str(), ", types: [");
            concat3(a.as_str(), l.as_str(), "] }")
        },
    }
}

/// How `{:?}` writes the types of a list, between its brackets.
fn types_debug(ts: &Vec<Type>) -> (res: String)
    ensures
        res@ == types_debug_text(types_view(ts@)),
    decreases ts,
{
    proof {
        lemma_types_view(ts@);
    }
    let ghost tv = types_view(ts@);
    let mut out = String::new();
    let mut i: usize = ts.len();
    assert(tv.skip(ts@.len() as int) =~= Seq::<TypeV>::empty());
    while i > 0
        invariant
            0 <= i <= ts@.len(),
            tv == types_view(ts@),
            tv.len() == ts@.len(),
            forall|j: int| 0 <= j < ts@.len() ==> #[trigger] tv[j] == ts@[j]@,
            out@ == types_debug_text(tv.skip(i as int)),
        decreases i,
    {
        let t = type_debug(&ts[i - 1]);
        let ghost rest = tv.skip(i as int);
        assert(tv.skip(i - 1)[0] == tv[i - 1]);
        assert(tv.skip(i - 1).drop_first() =~= rest);
        if i == ts.len() {
            out = t;
        } else {
            let c = concat3(t.as_str(), ", ", out.as_str());
            out = c;
        }
        i = i - 1;
    }
    assert(tv.skip(0) =~= tv);
    out
}

} // verus!
