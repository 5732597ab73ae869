//! The semantic analyser's state and its declarations: nested scopes of variables, and the
//! tables of structs, enums, functions and constants, with the checks that each
//! declaration goes through.
use crate::parse::parsing::{
    branches_no_use, clone_type, clone_types, duplicate_params, duplicate_stmts,
    duplicate_strings, lemma_branches_no_use, lemma_stmts_no_use, lemma_types_view, stmt_no_use,
    stmts_no_use, type_debug, type_eq, types_view, BinaryOp, Expr, ExprKind, Identifier, Literal, Parameter,
    Program, Stmt, Type, TypeV, UnaryOp,
};
use crate::semantics::analysis::{
    EnumSignature, FunctionSignature, Scope, StructSignature, Symbol,
};
use crate::utils::location::{location_text, Location};
use crate::utils::strmap::StrMap;
use crate::utils::fieldmap::{field_at, field_count, field_get, insert_field, new_field_map};
use crate::ir::irgen::{all_simple_fns, distinct_names, simple_fn_decl, simple_fn_names};
use crate::utils::text::{concat, concat3, contains_string, dec, str_eq, usize_to_string};
use crate::utils::typesafe::variadic::{parse_field, structure, PackField};
use crate::utils::typesafe::{type_text, is_integer_v, is_signed_integer_v, types_match_v, 
    all_no_pack, is_integer, is_signed_integer, is_truthy_type, is_truthy_v, iterable_elements,
    lemma_all_no_pack_from, lemma_all_no_pack_index, mangle_name, mangle_variadic, mangled_suffix,
    no_pack, type_to_string, types_compatible, types_equal, TypeCheckMode,
};
use indexmap::IndexMap;
use vstd::prelude::*;
use vstd::string::*;

verus! {

/// An error found by the analyser: a type error, a semantic error, or a definition made
/// twice; each with where it was found and a message.
#[derive(Debug)]
pub enum AnalyserError {
    TypeError { location: Location, message: String },
    SemanticError { location: Location, message: String },
    OverDefinitionError { location: Location, message: String },
}

impl AnalyserError {
    /// A type error.
    pub fn type_error(location: Location, message: String) -> (res: Self)
        ensures
            res == (AnalyserError::TypeError { location, message }),
    {
        AnalyserError::TypeError { location, message }
    }

    /// A semantic error.
    pub fn semantic_error(location: Location, message: String) -> (res: Self)
        ensures
            res == (AnalyserError::SemanticError { location, message }),
    {
        AnalyserError::SemanticError { location, message }
    }

    /// An error for something defined twice.
    pub fn overdef_error(location: Location, message: String) -> (res: Self)
        ensures
            res == (AnalyserError::OverDefinitionError { location, message }),
    {
        AnalyserError::OverDefinitionError { location, message }
    }
}

/// Whether a type mentions a generic parameter anywhere in it.
pub open spec fn has_generic_param(t: TypeV) -> bool
    decreases t,
{
    match t {
        TypeV::GenericParam(_) => true,
        TypeV::Ptr(inner) => has_generic_param(*inner),
        TypeV::Array { element_type, .. } => has_generic_param(*element_type),
        TypeV::GenericInstance { args, .. } => any_generic_param(args),
        _ => false,
    }
}

/// Whether one of the types `s` mentions a generic parameter.
pub open spec fn any_generic_param(s: Seq<TypeV>) -> bool
    decreases s,
{
    if s.len() == 0 {
        false
    } else {
        has_generic_param(s[0]) || any_generic_param(s.drop_first())
    }
}

/// One of `s` mentions a generic parameter exactly when some element does.
pub proof fn lemma_any_generic_param(s: Seq<TypeV>)
    ensures
        any_generic_param(s) == exists|i: int| 0 <= i < s.len() && #[trigger] has_generic_param(s[i]),
    decreases s.len(),
{
    if s.len() > 0 {
        lemma_any_generic_param(s.drop_first());
        assert(any_generic_param(s) == (has_generic_param(s[0]) || any_generic_param(s.drop_first())));
        if has_generic_param(s[0]) {
            assert(0 <= 0 < s.len() && has_generic_param(s[0]));
        }
        if any_generic_param(s.drop_first()) {
            let i = choose|i: int| 0 <= i < s.drop_first().len() && #[trigger] has_generic_param(s.drop_first()[i]);
            assert(has_generic_param(s[i + 1]));
        }
        if exists|i: int| 0 <= i < s.len() && #[trigger] has_generic_param(s[i]) {
            let i = choose|i: int| 0 <= i < s.len() && #[trigger] has_generic_param(s[i]);
            if i > 0 {
                assert(has_generic_param(s.drop_first()[i - 1]));
            }
        }
    }
}

/// Whether a type mentions a generic parameter anywhere in it.
pub fn contains_generic_param(ty: &Type) -> (res: bool)
    ensures
        res == has_generic_param(ty@),
    decreases ty,
{
    match ty {
        Type::GenericParam(_) => true,
        Type::Ptr(inner) => contains_generic_param(inner),
        Type::Array { element_type, .. } => contains_generic_param(element_type),
        Type::GenericInstance { args, .. } => any_contains_generic_param(args),
        _ => false,
    }
}

/// Whether one of `ts` mentions a generic parameter.
fn any_contains_generic_param(ts: &Vec<Type>) -> (res: bool)
    ensures
        res == any_generic_param(types_view(ts@)),
    decreases ts,
{
    proof {
        lemma_types_view(ts@);
        lemma_any_generic_param(types_view(ts@));
    }
    let mut i: usize = 0;
    while i < ts.len()
        invariant
            0 <= i <= ts@.len(),
            types_view(ts@).len() == ts@.len(),
            forall|j: int| 0 <= j < ts@.len() ==> #[trigger] types_view(ts@)[j] == ts@[j]@,
            forall|j: int| 0 <= j < i ==> !has_generic_param(#[trigger] types_view(ts@)[j]),
            any_generic_param(types_view(ts@)) == exists|j: int|
                0 <= j < types_view(ts@).len() && #[trigger] has_generic_param(types_view(ts@)[j]),
        decreases ts.len() - i,
    {
        if contains_generic_param(&ts[i]) {
            assert(has_generic_param(types_view(ts@)[i as int]));
            return true;
        }
        i = i + 1;
    }
    false
}

/// `t` with each generic parameter and each struct name that `m` binds replaced by the
/// type bound to it.
pub open spec fn subst_v(t: TypeV, m: StrMap<Type>) -> TypeV
    decreases t,
{
    match t {
        TypeV::GenericParam(name) => match m.lookup(name) {
            Some(x) => x@,
            None => t,
        },
        TypeV::Struct(name) => match m.lookup(name) {
            Some(x) => x@,
            None => t,
        },
        TypeV::Ptr(inner) => TypeV::Ptr(Box::new(subst_v(*inner, m))),
        TypeV::Array { element_type, size } => TypeV::Array {
            element_type: Box::new(subst_v(*element_type, m)),
            size,
        },
        TypeV::GenericInstance { name, args } => TypeV::GenericInstance { name, args: subst_all(args, m) },
        _ => t,
    }
}

/// `subst_v` applied to each of `s`.
pub open spec fn subst_all(s: Seq<TypeV>, m: StrMap<Type>) -> Seq<TypeV>
    decreases s,
{
    if s.len() == 0 {
        Seq::empty()
    } else {
        seq![subst_v(s[0], m)] + subst_all(s.drop_first(), m)
    }
}

/// `subst_all` keeps the length and substitutes element by element.
pub proof fn lemma_subst_all(s: Seq<TypeV>, m: StrMap<Type>)
    ensures
        subst_all(s, m).len() == s.len(),
        forall|i: int| 0 <= i < s.len() ==> #[trigger] subst_all(s, m)[i] == subst_v(s[i], m),
    decreases s.len(),
{
    if s.len() > 0 {
        lemma_subst_all(s.drop_first(), m);
        assert forall|i: int| 0 <= i < s.len() implies #[trigger] subst_all(s, m)[i] == subst_v(s[i], m) by {
            if i > 0 {
                assert(s.drop_first()[i - 1] == s[i]);
            }
        }
    }
}

/// `t` with each generic instance whose arguments are concrete replaced by the struct of
/// its mangled name; arguments are instantiated first.
pub open spec fn inst_type(t: TypeV) -> TypeV
    decreases t,
{
    match t {
        TypeV::Ptr(inner) => TypeV::Ptr(Box::new(inst_type(*inner))),
        TypeV::Array { element_type, size } => TypeV::Array {
            element_type: Box::new(inst_type(*element_type)),
            size,
        },
        TypeV::GenericInstance { name, args } => if any_generic_param(inst_all(args)) {
            TypeV::GenericInstance { name, args: inst_all(args) }
        } else {
            TypeV::Struct(name + mangled_suffix(inst_all(args)))
        },
        _ => t,
    }
}

/// `inst_type` applied to each of `s`.
pub open spec fn inst_all(s: Seq<TypeV>) -> Seq<TypeV>
    decreases s,
{
    if s.len() == 0 {
        Seq::empty()
    } else {
        seq![inst_type(s[0])] + inst_all(s.drop_first())
    }
}

/// `inst_all` keeps the length and instantiates element by element.
pub proof fn lemma_inst_all(s: Seq<TypeV>)
    ensures
        inst_all(s).len() == s.len(),
        forall|i: int| 0 <= i < s.len() ==> #[trigger] inst_all(s)[i] == inst_type(s[i]),
    decreases s.len(),
{
    if s.len() > 0 {
        lemma_inst_all(s.drop_first());
        assert forall|i: int| 0 <= i < s.len() implies #[trigger] inst_all(s)[i] == inst_type(s[i]) by {
            if i > 0 {
                assert(s.drop_first()[i - 1] == s[i]);
            }
        }
    }
}

/// The type of the variable `k` in the innermost of `scopes` that declares it.
pub open spec fn chain_lookup(scopes: Seq<Scope>, k: Seq<char>) -> Option<TypeV>
    decreases scopes.len(),
{
    if scopes.len() == 0 {
        None
    } else {
        match scopes.last().symbols.lookup(k) {
            Some(sym) => Some(sym.ty@),
            None => chain_lookup(scopes.drop_last(), k),
        }
    }
}

/// Each scope encloses the next, the first encloses none, and no scope declares a name twice.
pub open spec fn scopes_wf(scopes: Seq<Scope>) -> bool {
    &&& scopes.len() >= 1
    &&& forall|i: int|
        0 <= i < scopes.len() ==> (#[trigger] scopes[i]).parent == (if i == 0 {
            None
        } else {
            Some((i - 1) as usize)
        }) && scopes[i].symbols.wf()
}

/// The analyser's state while it checks a program.
#[derive(Debug)]
pub struct Analyser {
    pub scopes: Vec<Scope>,
    pub current_scope: usize,
    pub functions: StrMap<FunctionSignature>,
    pub function_bodies: StrMap<(Vec<Parameter>, Vec<Stmt>)>,
    pub structs: StrMap<StructSignature>,
    pub enums: StrMap<EnumSignature>,
    pub constants: StrMap<(Type, Expr)>,
    pub current_return_type: Option<Type>,
    pub loop_depth: usize,
    pub current_generic_params: Vec<String>,
    /// How many more function bodies may be checked one inside another (each check of a
    /// variadic function's body for a new set of argument types takes one).
    pub body_budget: usize,
}

impl Analyser {
    /// The scopes are well formed, the current one is the innermost, and no table binds a
    /// name twice.
    pub closed spec fn wf(&self) -> bool {
        &&& scopes_wf(self.scopes@)
        &&& self.current_scope == self.scopes@.len() - 1
        &&& self.functions.wf()
        &&& self.function_bodies.wf()
        &&& self.structs.wf()
        &&& self.enums.wf()
        &&& self.constants.wf()
        &&& forall|k: Seq<char>|
            #[trigger] self.function_bodies.has(k) ==> stmts_no_use((self.function_bodies.lookup(k)->0).1@)
    }

    /// `self` is `before` after checking an expression: the same scopes, loop depth,
    /// return type, generic parameters and budget.
    pub closed spec fn keeps_context(&self, before: &Analyser) -> bool {
        &&& self.scopes@ == before.scopes@
        &&& self.loop_depth == before.loop_depth
        &&& self.current_return_type == before.current_return_type
        &&& self.current_generic_params == before.current_generic_params
        &&& self.body_budget == before.body_budget
    }

    /// `self` is `before` after checking a statement: the same scopes but for the
    /// innermost one, and the same loop depth, return type, generic parameters and budget.
    pub closed spec fn keeps_outer(&self, before: &Analyser) -> bool {
        &&& self.scopes@.len() == before.scopes@.len()
        &&& self.scopes@.drop_last() == before.scopes@.drop_last()
        &&& self.loop_depth == before.loop_depth
        &&& self.current_return_type == before.current_return_type
        &&& self.current_generic_params == before.current_generic_params
        &&& self.body_budget == before.body_budget
    }

    /// How many scopes are open, the outermost included.
    pub closed spec fn depth(&self) -> nat {
        self.scopes@.len()
    }

    /// The type of the variable `k` as seen from the current scope, if it is declared.
    pub closed spec fn var_type(&self, k: Seq<char>) -> Option<TypeV> {
        chain_lookup(self.scopes@, k)
    }

    /// Whether the current scope itself declares `k`.
    pub closed spec fn declares_here(&self, k: Seq<char>) -> bool {
        self.scopes@.last().symbols.has(k)
    }

    /// The tables of structs, enums, functions and constants, and the other state that
    /// scopes do not touch.
    pub closed spec fn tables_same(&self, other: &Analyser) -> bool {
        &&& self.functions == other.functions
        &&& self.function_bodies == other.function_bodies
        &&& self.structs == other.structs
        &&& self.enums == other.enums
        &&& self.constants == other.constants
        &&& self.current_return_type == other.current_return_type
        &&& self.loop_depth == other.loop_depth
        &&& self.current_generic_params == other.current_generic_params
        &&& self.body_budget == other.body_budget
    }

    /// A fresh analyser: one empty scope, and no declaration.
    pub fn new() -> (res: Self)
        ensures
            res.wf(),
            res.depth() == 1,
            forall|k: Seq<char>| res.var_type(k) is None,
            forall|k: Seq<char>| !res.structs.has(k) && !res.enums.has(k) && !res.functions.has(k),
            forall|k: Seq<char>| !res.constants.has(k) && #[trigger] res.constants.lookup(k) is None,
            forall|k: Seq<char>| !res.function_bodies.has(k),
            res.loop_depth == 0,
            res.current_return_type is None,
            res.current_generic_params@.len() == 0,
            res.body_budget == usize::MAX,
    {
        let mut scopes: Vec<Scope> = Vec::new();
        scopes.push(Scope { symbols: StrMap::new(), parent: None });
        let res = Self {
            scopes,
            current_scope: 0,
            functions: StrMap::new(),
            function_bodies: StrMap::new(),
            structs: StrMap::new(),
            enums: StrMap::new(),
            constants: StrMap::new(),
            current_return_type: None,
            loop_depth: 0,
            current_generic_params: Vec::new(),
            body_budget: usize::MAX,
        };
        assert forall|k: Seq<char>| res.var_type(k) is None by {
            assert(res.scopes@.len() == 1);
            assert(!res.scopes@.last().symbols.has(k));
            assert(res.scopes@.drop_last().len() == 0);
            assert(chain_lookup(res.scopes@.drop_last(), k) is None);
        }
        res
    }

    /// Opens a scope inside the current one and makes it current.
    pub fn enter_scope(&mut self)
        requires
            old(self).wf(),
        ensures
            final(self).wf(),
            final(self).tables_same(&*old(self)),
            final(self).depth() == old(self).depth() + 1,
            forall|k: Seq<char>| #[trigger] final(self).var_type(k) == old(self).var_type(k),
            forall|k: Seq<char>| !#[trigger] final(self).declares_here(k),
            final(self).scopes@.drop_last() == old(self).scopes@,
    {
        let parent_idx = self.current_scope;
        let ghost before = self.scopes@;
        self.scopes.push(Scope { symbols: StrMap::new(), parent: Some(parent_idx) });
        self.current_scope = self.scopes.len() - 1;
        assert(self.scopes@.drop_last() =~= before);
        assert forall|k: Seq<char>| #[trigger] self.var_type(k) == old(self).var_type(k) by {
            assert(!self.scopes@.last().symbols.has(k));
        }
    }

    /// Closes the current scope, which must not be the outermost, and makes its parent
    /// current.
    pub fn leave_scope(&mut self)
        requires
            old(self).wf(),
            old(self).depth() > 1,
        ensures
            final(self).wf(),
            final(self).tables_same(&*old(self)),
            final(self).depth() == old(self).depth() - 1,
            final(self).scopes@ == old(self).scopes@.drop_last(),
    {
        let parent = match self.scopes[self.current_scope].parent {
            Some(p) => p,
            None => {
                proof {
                    assert(false);
                }
                0
            },
        };
        self.scopes.pop();
        self.current_scope = parent;
    }

    /// Declares the variable `name` of type `data_type` in the current scope, unless the
    /// current scope already declares it.
    pub fn declare_variable(&mut self, name: &str, data_type: Type, span: Location) -> (res: Result<
        (),
        AnalyserError,
    >)
        requires
            old(self).wf(),
        ensures
            final(self).wf(),
            final(self).tables_same(&*old(self)),
            final(self).depth() == old(self).depth(),
            final(self).keeps_outer(&*old(self)),
            old(self).declares_here(name@) ==> {
                &&& final(self).scopes@ == old(self).scopes@
                &&& res matches Err(AnalyserError::SemanticError { location, message })
                &&& location == span
                &&& message@ == "Semantic Error: Variable '"@ + name@ + "' already declared in this scope."@
            },
            !old(self).declares_here(name@) ==> {
                &&& res is Ok
                &&& final(self).var_type(name@) == Some(data_type@)
                &&& final(self).declares_here(name@)
                &&& forall|k: Seq<char>| k != name@ ==> #[trigger] final(self).var_type(k) == old(self).var_type(k)
                    && final(self).declares_here(k) == old(self).declares_here(k)
            },
    {
        let ghost before = self.scopes@;
        let mut scope = match self.scopes.pop() {
            Some(sc) => sc,
            None => {
                proof {
                    assert(false);
                }
                return Ok(());
            },
        };
        assert(scope == before.last());
        assert(self.scopes@ =~= before.drop_last());
        if scope.symbols.contains_key(name) {
            self.scopes.push(scope);
            assert(self.scopes@ =~= before);
            let message = concat3("Semantic Error: Variable '", name, "' already declared in this scope.");
            return Err(AnalyserError::SemanticError { location: span, message });
        }
        let ghost ty = data_type@;
        scope.symbols.insert(
            String::from_str(name),
            Symbol { name: String::from_str(name), ty: data_type },
        );
        self.scopes.push(scope);
        proof {
            assert(self.scopes@.drop_last() =~= before.drop_last());
            assert forall|i: int| 0 <= i < self.scopes@.len() implies (#[trigger] self.scopes@[i]).parent
                == (if i == 0 {
                None
            } else {
                Some((i - 1) as usize)
            }) && self.scopes@[i].symbols.wf() by {
                if i < self.scopes@.len() - 1 {
                    assert(self.scopes@[i] == before[i]);
                } else {
                    assert(before[i] == before.last());
                }
            }
            assert forall|k: Seq<char>| k != name@ implies #[trigger] self.var_type(k) == old(self).var_type(k)
                && self.declares_here(k) == old(self).declares_here(k) by {
                assert(self.scopes@.last().symbols.lookup(k) == before.last().symbols.lookup(k));
            }
        }
        Ok(())
    }

    /// The symbol of the variable `name` in the innermost scope that declares it.
    pub fn resolve_variable(&self, name: &str) -> (res: Option<&Symbol>)
        requires
            self.wf(),
        ensures
            match res {
                Some(sym) => self.var_type(name@) == Some(sym.ty@),
                None => self.var_type(name@) is None,
            },
    {
        let mut current = self.current_scope;
        assert(self.scopes@.take(current + 1) =~= self.scopes@);
        loop
            invariant
                self.wf(),
                current < self.scopes@.len(),
                self.var_type(name@) == chain_lookup(self.scopes@.take(current + 1), name@),
            decreases current,
        {
            let ghost pre = self.scopes@.take(current + 1);
            assert(pre.last() == self.scopes@[current as int]);
            assert(pre.drop_last() =~= self.scopes@.take(current as int));
            match self.scopes[current].symbols.get(name) {
                Some(symbol) => {
                    return Some(symbol);
                },
                None => {},
            }
            match self.scopes[current].parent {
                Some(p) => {
                    current = p;
                },
                None => {
                    assert(current == 0);
                    assert(chain_lookup(self.scopes@.take(0), name@) is None);
                    return None;
                },
            }
        }
    }

    /// Whether the current generic parameters include `name`.
    fn is_generic_param_name(&self, name: &str) -> (res: bool)
        ensures
            res == exists|i: int|
                0 <= i < self.current_generic_params@.len() && #[trigger] self.current_generic_params@[i]@
                    == name@,
    {
        let mut i: usize = 0;
        while i < self.current_generic_params.len()
            invariant
                0 <= i <= self.current_generic_params@.len(),
                forall|j: int| 0 <= j < i ==> #[trigger] self.current_generic_params@[j]@ != name@,
            decreases self.current_generic_params.len() - i,
        {
            if str_eq(self.current_generic_params[i].as_str(), name) {
                return true;
            }
            i = i + 1;
        }
        false
    }

    /// The first name in `t` that names no known type, and whether it stands as a generic
    /// struct; a bare name may also be a current generic parameter or an enum.
    pub closed spec fn missing_type(&self, t: TypeV) -> Option<(bool, Seq<char>)>
        decreases t,
    {
        match t {
            TypeV::Struct(name) => if exists|i: int|
                0 <= i < self.current_generic_params@.len() && #[trigger] self.current_generic_params@[i]@
                    == name {
                None
            } else if !self.structs.has(name) && !self.enums.has(name) {
                Some((false, name))
            } else {
                None
            },
            TypeV::GenericInstance { name, args } => if !self.structs.has(name) {
                Some((true, name))
            } else {
                self.missing_in(args)
            },
            TypeV::Ptr(inner) => self.missing_type(*inner),
            TypeV::Array { element_type, .. } => self.missing_type(*element_type),
            _ => None,
        }
    }

    /// The first name in the types `s`, in order, that names no known type.
    pub closed spec fn missing_in(&self, s: Seq<TypeV>) -> Option<(bool, Seq<char>)>
        decreases s,
    {
        if s.len() == 0 {
            None
        } else {
            match self.missing_type(s[0]) {
                Some(m) => Some(m),
                None => self.missing_in(s.drop_first()),
            }
        }
    }

    /// Checks that every name in `ty` names a known struct, enum or generic parameter.
    pub fn validate_type_exists(&self, ty: &Type, span: &Location) -> (res: Result<(), AnalyserError>)
        requires
            self.wf(),
        ensures
            match self.missing_type(ty@) {
                None => res is Ok,
                Some((generic, name)) => res matches Err(AnalyserError::SemanticError { location, message })
                    && location.view() == span.view() && message@ == (if generic {
                    "Semantic Error: Generic Struct '"@
                } else {
                    "Semantic Error: Type '"@
                }) + name + "' is used here but never defined."@,
            },
        decreases ty,
    {
        match ty {
            Type::Struct(name) => {
                if self.is_generic_param_name(name.as_str()) {
                    return Ok(());
                }
                if !self.structs.contains_key(name.as_str()) && !self.enums.contains_key(name.as_str()) {
                    let message = concat3(
                        "Semantic Error: Type '",
                        name.as_str(),
                        "' is used here but never defined.",
                    );
                    return Err(AnalyserError::SemanticError { location: span.duplicate(), message });
                }
                Ok(())
            },
            Type::GenericInstance { name, args } => {
                if !self.structs.contains_key(name.as_str()) {
                    let message = concat3(
                        "Semantic Error: Generic Struct '",
                        name.as_str(),
                        "' is used here but never defined.",
                    );
                    return Err(AnalyserError::SemanticError { location: span.duplicate(), message });
                }
                self.validate_types_exist(args, span)
            },
            Type::Ptr(inner) => self.validate_type_exists(inner, span),
            Type::Array { element_type, .. } => self.validate_type_exists(element_type, span),
            _ => Ok(()),
        }
    }

    /// Checks the types `ts` one after the other, stopping at the first failure.
    fn validate_types_exist(&self, ts: &Vec<Type>, span: &Location) -> (res: Result<(), AnalyserError>)
        requires
            self.wf(),
        ensures
            match self.missing_in(types_view(ts@)) {
                None => res is Ok,
                Some((generic, name)) => res matches Err(AnalyserError::SemanticError { location, message })
                    && location.view() == span.view() && message@ == (if generic {
                    "Semantic Error: Generic Struct '"@
                } else {
                    "Semantic Error: Type '"@
                }) + name + "' is used here but never defined."@,
            },
        decreases ts,
    {
        proof {
            lemma_types_view(ts@);
        }
        let ghost tv = types_view(ts@);
        let mut i: usize = 0;
        assert(tv.skip(0) =~= tv);
        while i < ts.len()
            invariant
                0 <= i <= ts@.len(),
                self.wf(),
                tv == types_view(ts@),
                tv.len() == ts@.len(),
                forall|j: int| 0 <= j < ts@.len() ==> #[trigger] tv[j] == ts@[j]@,
                self.missing_in(tv) == self.missing_in(tv.skip(i as int)),
            decreases ts.len() - i,
        {
            assert(tv.skip(i as int)[0] == tv[i as int]);
            assert(tv.skip(i as int).drop_first() =~= tv.skip(i + 1));
            self.validate_type_exists(&ts[i], span)?;
            i = i + 1;
        }
        assert(tv.skip(i as int).len() == 0);
        Ok(())
    }

    /// Records the enum `name`, unless an enum of that name exists already.
    pub fn declare_enum(&mut self, name: &str, options: Vec<String>, location: Location) -> (res:
        Result<(), AnalyserError>)
        requires
            old(self).wf(),
        ensures
            final(self).wf(),
            final(self).scopes == old(self).scopes,
            final(self).keeps_context(&*old(self)),
            final(self).structs == old(self).structs,
            final(self).functions == old(self).functions,
            match old(self).enums.lookup(name@) {
                Some(existing) => {
                    &&& final(self).enums == old(self).enums
                    &&& res matches Err(AnalyserError::OverDefinitionError { location: l, message })
                    &&& l.view() == existing.location.view()
                    &&& message@ == "Enum '"@ + name@ + "' is already defined at ["@ + location_text(
                        existing.location.view(),
                    ) + "]"@
                },
                None => {
                    &&& res is Ok
                    &&& final(self).enums.lookup(name@) == Some(EnumSignature { options, location })
                    &&& forall|k: Seq<char>| k != name@ ==> #[trigger] final(self).enums.lookup(k)
                        == old(self).enums.lookup(k)
                },
            },
    {
        match self.enums.get(name) {
            Some(existing) => {
                let at = existing.location.to_text();
                let a = concat3("Enum '", name, "' is already defined at [");
                let message = concat3(a.as_str(), at.as_str(), "]");
                return Err(AnalyserError::overdef_error(existing.location.duplicate(), message));
            },
            None => {},
        }
        self.enums.insert(String::from_str(name), EnumSignature { options, location });
        Ok(())
    }

    /// Records the struct `name`, unless a struct of that name exists already.
    pub fn declare_struct(
        &mut self,
        name: &str,
        generic_params: Vec<String>,
        fields: IndexMap<String, Type>,
        location: Location,
    ) -> (res: Result<(), AnalyserError>)
        requires
            old(self).wf(),
        ensures
            final(self).wf(),
            final(self).scopes == old(self).scopes,
            final(self).keeps_context(&*old(self)),
            final(self).enums == old(self).enums,
            final(self).functions == old(self).functions,
            match old(self).structs.lookup(name@) {
                Some(existing) => {
                    &&& final(self).structs == old(self).structs
                    &&& res matches Err(AnalyserError::OverDefinitionError { location: l, message })
                    &&& l == location
                    &&& message@ == "Struct '"@ + name@ + "' is already defined at ["@ + location_text(
                        existing.location.view(),
                    ) + "]"@
                },
                None => {
                    &&& res is Ok
                    &&& final(self).structs.lookup(name@) == Some(
                        StructSignature { generic_params, fields, location },
                    )
                    &&& forall|k: Seq<char>| k != name@ ==> #[trigger] final(self).structs.lookup(k)
                        == old(self).structs.lookup(k)
                },
            },
    {
        match self.structs.get(name) {
            Some(existing) => {
                let at = existing.location.to_text();
                let a = concat3("Struct '", name, "' is already defined at [");
                let message = concat3(a.as_str(), at.as_str(), "]");
                return Err(AnalyserError::overdef_error(location, message));
            },
            None => {},
        }
        self.structs.insert(
            String::from_str(name),
            StructSignature { generic_params, fields, location },
        );
        Ok(())
    }

    /// Records the function `name`; a function of that name defined already is an error
    /// unless `safe_to_dupe`, in which case the new signature replaces it.
    pub fn declare_function(
        &mut self,
        name: &str,
        generic_params: Vec<String>,
        public: bool,
        param_types: Vec<Type>,
        is_variadic: bool,
        variadic_name: Option<String>,
        return_type: Type,
        location: Location,
        safe_to_dupe: bool,
    ) -> (res: Result<(), AnalyserError>)
        requires
            old(self).wf(),
        ensures
            final(self).wf(),
            final(self).scopes == old(self).scopes,
            final(self).keeps_context(&*old(self)),
            final(self).enums == old(self).enums,
            final(self).structs == old(self).structs,
            match old(self).functions.lookup(name@) {
                Some(existing) if !safe_to_dupe => {
                    &&& final(self).functions == old(self).functions
                    &&& res matches Err(AnalyserError::SemanticError { location: l, message })
                    &&& l == location
                    &&& message@ == "Semantic Error: Function '"@ + name@ + "' is already defined at ["@
                        + location_text(existing.location.view()) + "]"@
                },
                _ => {
                    &&& res is Ok
                    &&& final(self).functions.lookup(name@) == Some(
                        FunctionSignature {
                            generic_params,
                            param_types,
                            public,
                            is_variadic,
                            variadic_param_name: variadic_name,
                            return_type,
                            location,
                        },
                    )
                    &&& forall|k: Seq<char>| k != name@ ==> #[trigger] final(self).functions.lookup(k)
                        == old(self).functions.lookup(k)
                },
            },
    {
        if !safe_to_dupe {
            match self.functions.get(name) {
                Some(existing) => {
                    let at = existing.location.to_text();
                    let a = concat3("Semantic Error: Function '", name, "' is already defined at [");
                    let message = concat3(a.as_str(), at.as_str(), "]");
                    return Err(AnalyserError::SemanticError { location, message });
                },
                None => {},
            }
        }
        self.functions.insert(
            String::from_str(name),
            FunctionSignature {
                generic_params,
                param_types,
                public,
                is_variadic,
                variadic_param_name: variadic_name,
                return_type,
                location,
            },
        );
        Ok(())
    }

    /// The signature of the function `name`, if one is declared.
    pub fn resolve_function(&self, name: &str) -> (res: Option<&FunctionSignature>)
        requires
            self.wf(),
        ensures
            match res {
                Some(f) => self.functions.lookup(name@) == Some(*f),
                None => self.functions.lookup(name@) is None,
            },
    {
        self.functions.get(name)
    }

    /// Whether a value of type `ty` can stand as a condition.
    pub fn check_truthiness(&self, ty: &Type) -> (res: bool)
        ensures
            res == is_truthy_v(ty@),
    {
        is_truthy_type(ty)
    }

    /// `ty` with each generic parameter and struct name bound in `mapping` replaced.
    pub fn substitute_type(&self, ty: &Type, mapping: &StrMap<Type>) -> (res: Type)
        requires
            mapping.wf(),
        ensures
            res@ == subst_v(ty@, *mapping),
        decreases ty,
    {
        match ty {
            Type::GenericParam(name) => match mapping.get(name.as_str()) {
                Some(t) => clone_type(t),
                None => Type::GenericParam(name.clone()),
            },
            Type::Struct(name) => match mapping.get(name.as_str()) {
                Some(t) => clone_type(t),
                None => Type::Struct(name.clone()),
            },
            Type::Ptr(inner) => Type::Ptr(Box::new(self.substitute_type(inner, mapping))),
            Type::Array { element_type, size } => Type::Array {
                element_type: Box::new(self.substitute_type(element_type, mapping)),
                size: *size,
            },
            Type::GenericInstance { name, args } => Type::GenericInstance {
                name: name.clone(),
                args: self.substitute_types(args, mapping),
            },
            _ => clone_type(ty),
        }
    }

    /// `substitute_type` on each of `ts`.
    fn substitute_types(&self, ts: &Vec<Type>, mapping: &StrMap<Type>) -> (res: Vec<Type>)
        requires
            mapping.wf(),
        ensures
            types_view(res@) == subst_all(types_view(ts@), *mapping),
        decreases ts,
    {
        proof {
            lemma_types_view(ts@);
            lemma_subst_all(types_view(ts@), *mapping);
        }
        let mut out: Vec<Type> = Vec::new();
        let mut i: usize = 0;
        while i < ts.len()
            invariant
                0 <= i <= ts@.len(),
                mapping.wf(),
                out@.len() == i,
                forall|j: int| 0 <= j < ts@.len() ==> #[trigger] types_view(ts@)[j] == ts@[j]@,
                forall|j: int| 0 <= j < i ==> (#[trigger] out@[j])@ == subst_v(ts@[j]@, *mapping),
            decreases ts.len() - i,
        {
            let t = self.substitute_type(&ts[i], mapping);
            out.push(t);
            i = i + 1;
        }
        proof {
            lemma_types_view(out@);
            assert(types_view(out@) =~= subst_all(types_view(ts@), *mapping));
        }
        out
    }

    /// Instantiates the generic instances in `ty` whose arguments are concrete: each
    /// becomes the struct named by mangling the struct's name with its arguments, and that
    /// struct is recorded, with its fields' types substituted, the first time it is needed.
    pub fn instantiate_generic_types(&mut self, ty: &Type, span: &Location) -> (res: Result<
        Type,
        AnalyserError,
    >)
        requires
            old(self).wf(),
            no_pack(ty@),
        ensures
            final(self).wf(),
            final(self).scopes == old(self).scopes,
            final(self).enums == old(self).enums,
            final(self).functions == old(self).functions,
            final(self).function_bodies == old(self).function_bodies,
            final(self).constants == old(self).constants,
            final(self).keeps_context(&*old(self)),
            forall|k: Seq<char>| #[trigger] old(self).structs.has(k) ==> final(self).structs.lookup(k)
                == old(self).structs.lookup(k),
            forall|k: Seq<char>| #[trigger] old(self).structs.has(k) ==> final(self).structs.has(k),
            match res {
                Ok(t) => t@ == inst_type(ty@) && no_pack(t@),
                Err(e) => e is SemanticError || e is TypeError,
            },
            (ty@ is Int || ty@ is Bool || ty@ is Str || ty@ is Char) ==> res is Ok && *final(self) == *old(self),
        decreases ty,
    {
        match ty {
            Type::Ptr(inner) => {
                let inst = self.instantiate_generic_types(inner, span)?;
                Ok(Type::Ptr(Box::new(inst)))
            },
            Type::Array { element_type, size } => {
                let inst = self.instantiate_generic_types(element_type, span)?;
                Ok(Type::Array { element_type: Box::new(inst), size: *size })
            },
            Type::GenericInstance { name, args } => {
                proof {
                    lemma_types_view(args@);
                }
                let resolved_args = self.instantiate_all(args, span)?;
                proof {
                    lemma_inst_all(types_view(args@));
                    lemma_types_view(resolved_args@);
                    assert(types_view(resolved_args@) =~= inst_all(types_view(args@)));
                    lemma_all_no_pack_from(types_view(resolved_args@));
                }
                if any_contains_generic_param(&resolved_args) {
                    return Ok(Type::GenericInstance { name: name.clone(), args: resolved_args });
                }
                let n_params = match self.structs.get(name.as_str()) {
                    Some(template) => template.generic_params.len(),
                    None => {
                        let message = concat3(
                            "Semantic Error: Generic struct '",
                            name.as_str(),
                            "' not found.",
                        );
                        return Err(AnalyserError::SemanticError { location: span.duplicate(), message });
                    },
                };
                if n_params != resolved_args.len() {
                    let expected = usize_to_string(n_params);
                    let found = usize_to_string(resolved_args.len());
                    let a = concat3("Type Error: Struct '", name.as_str(), "' expects ");
                    let b = concat3(a.as_str(), expected.as_str(), " type parameters, found ");
                    let message = concat(b.as_str(), found.as_str());
                    return Err(AnalyserError::TypeError { location: span.duplicate(), message });
                }
                let mangled = mangle_name(name.as_str(), resolved_args.as_slice());
                if !self.structs.contains_key(mangled.as_str()) {
                    let fields = match self.structs.get(name.as_str()) {
                        Some(template) => {
                            let mut mapping: StrMap<Type> = StrMap::new();
                            let mut j: usize = 0;
                            while j < n_params
                                invariant
                                    0 <= j <= n_params,
                                    n_params == template.generic_params@.len(),
                                    n_params == resolved_args@.len(),
                                    mapping.wf(),
                                decreases n_params - j,
                            {
                                mapping.insert(
                                    template.generic_params[j].clone(),
                                    clone_type(&resolved_args[j]),
                                );
                                j = j + 1;
                            }
                            let mut fresh = new_field_map();
                            let count = field_count(&template.fields);
                            let mut f: usize = 0;
                            while f < count
                                invariant
                                    0 <= f <= count,
                                    count == crate::utils::fieldmap::field_entries(template.fields).len(),
                                    mapping.wf(),
                                    crate::utils::fieldmap::distinct_names(
                                        crate::utils::fieldmap::field_entries(fresh),
                                    ),
                                decreases count - f,
                            {
                                let (f_name, f_type) = field_at(&template.fields, f);
                                let substituted = self.substitute_type(f_type, &mapping);
                                insert_field(&mut fresh, f_name.clone(), substituted);
                                f = f + 1;
                            }
                            fresh
                        },
                        None => {
                            proof {
                                assert(false);
                            }
                            new_field_map()
                        },
                    };
                    self.structs.insert(
                        mangled.clone(),
                        StructSignature {
                            generic_params: Vec::new(),
                            fields,
                            location: span.duplicate(),
                        },
                    );
                }
                Ok(Type::Struct(mangled))
            },
            Type::GenericParam(p) => Ok(Type::GenericParam(p.clone())),
            _ => Ok(clone_type(ty)),
        }
    }

    /// `instantiate_generic_types` on each of `ts`, in order, stopping at the first error.
    fn instantiate_all(&mut self, ts: &Vec<Type>, span: &Location) -> (res: Result<Vec<Type>, AnalyserError>)
        requires
            old(self).wf(),
            all_no_pack(types_view(ts@)),
        ensures
            final(self).wf(),
            final(self).scopes == old(self).scopes,
            final(self).enums == old(self).enums,
            final(self).functions == old(self).functions,
            final(self).function_bodies == old(self).function_bodies,
            final(self).constants == old(self).constants,
            final(self).keeps_context(&*old(self)),
            forall|k: Seq<char>| #[trigger] old(self).structs.has(k) ==> final(self).structs.lookup(k)
                == old(self).structs.lookup(k),
            forall|k: Seq<char>| #[trigger] old(self).structs.has(k) ==> final(self).structs.has(k),
            match res {
                Ok(v) => v@.len() == ts@.len() && forall|j: int|
                    0 <= j < ts@.len() ==> (#[trigger] v@[j])@ == inst_type(ts@[j]@) && no_pack(v@[j]@),
                Err(e) => e is SemanticError || e is TypeError,
            },
        decreases ts,
    {
        proof {
            lemma_types_view(ts@);
        }
        let mut out: Vec<Type> = Vec::new();
        let mut i: usize = 0;
        while i < ts.len()
            invariant
                0 <= i <= ts@.len(),
                self.wf(),
                all_no_pack(types_view(ts@)),
                types_view(ts@).len() == ts@.len(),
                forall|j: int| 0 <= j < ts@.len() ==> #[trigger] types_view(ts@)[j] == ts@[j]@,
                self.scopes == old(self).scopes,
                self.enums == old(self).enums,
                self.functions == old(self).functions,
                self.function_bodies == old(self).function_bodies,
                self.constants == old(self).constants,
                self.keeps_context(&*old(self)),
                forall|k: Seq<char>| #[trigger] old(self).structs.has(k) ==> self.structs.lookup(k)
                    == old(self).structs.lookup(k),
                forall|k: Seq<char>| #[trigger] old(self).structs.has(k) ==> self.structs.has(k),
                out@.len() == i,
                forall|j: int| 0 <= j < i ==> (#[trigger] out@[j])@ == inst_type(ts@[j]@) && no_pack(out@[j]@),
            decreases ts.len() - i,
        {
            proof {
                lemma_all_no_pack_index(types_view(ts@), i as int);
            }
            let t = self.instantiate_generic_types(&ts[i], span)?;
            out.push(t);
            i = i + 1;
        }
        Ok(out)
    }
}

// ------------------------------------------------------------------------------------------
// Checking expressions
// ------------------------------------------------------------------------------------------

/// Whether a type has no variadic pack anywhere in it.
pub fn pack_free(ty: &Type) -> (res: bool)
    ensures
        res == no_pack(ty@),
    decreases ty,
{
    match ty {
        Type::VariadicPack { .. } => false,
        Type::Ptr(inner) => pack_free(inner),
        Type::Array { element_type, .. } => pack_free(element_type),
        Type::GenericInstance { args, .. } => all_pack_free(args),
        _ => true,
    }
}

/// Whether none of `ts` has a variadic pack in it.
pub fn all_pack_free(ts: &Vec<Type>) -> (res: bool)
    ensures
        res == all_no_pack(types_view(ts@)),
    decreases ts,
{
    proof {
        lemma_types_view(ts@);
    }
    let mut i: usize = 0;
    while i < ts.len()
        invariant
            0 <= i <= ts@.len(),
            types_view(ts@).len() == ts@.len(),
            forall|j: int| 0 <= j < ts@.len() ==> #[trigger] types_view(ts@)[j] == ts@[j]@,
            forall|j: int| 0 <= j < i ==> no_pack(#[trigger] types_view(ts@)[j]),
        decreases ts.len() - i,
    {
        if !pack_free(&ts[i]) {
            proof {
                if all_no_pack(types_view(ts@)) {
                    lemma_all_no_pack_index(types_view(ts@), i as int);
                }
            }
            return false;
        }
        i = i + 1;
    }
    proof {
        lemma_all_no_pack_from(types_view(ts@));
    }
    true
}

/// The error for a variadic pack where a type is named: a pack stands for a list of
/// values and has no name of its own.
fn pack_error(location: &Location) -> (res: AnalyserError)
    ensures
        res matches AnalyserError::SemanticError { location: l, message } && l.view() == location.view()
            && message@ == "Semantic Error: A variadic pack cannot be named as a type here."@,
{
    AnalyserError::SemanticError {
        location: location.duplicate(),
        message: String::from_str("Semantic Error: A variadic pack cannot be named as a type here."),
    }
}

/// The name of a binary operator, as `{:?}` writes it.
pub fn binary_op_name(op: BinaryOp) -> (res: &'static str)
    ensures
        res@ == binary_op_text(op),
{
    match op {
        BinaryOp::Add => "Add",
        BinaryOp::Sub => "Sub",
        BinaryOp::Mul => "Mul",
        BinaryOp::Div => "Div",
        BinaryOp::Mod => "Mod",
        BinaryOp::Eq => "Eq",
        BinaryOp::NEq => "NEq",
        BinaryOp::Gt => "Gt",
        BinaryOp::GtE => "GtE",
        BinaryOp::Lt => "Lt",
        BinaryOp::LtE => "LtE",
        BinaryOp::And => "And",
        BinaryOp::Or => "Or",
    }
}

/// The name of a binary operator, as `{:?}` writes it.
pub open spec fn binary_op_text(op: BinaryOp) -> Seq<char> {
    match op {
        BinaryOp::Add => "Add"@,
        BinaryOp::Sub => "Sub"@,
        BinaryOp::Mul => "Mul"@,
        BinaryOp::Div => "Div"@,
        BinaryOp::Mod => "Mod"@,
        BinaryOp::Eq => "Eq"@,
        BinaryOp::NEq => "NEq"@,
        BinaryOp::Gt => "Gt"@,
        BinaryOp::GtE => "GtE"@,
        BinaryOp::Lt => "Lt"@,
        BinaryOp::LtE => "LtE"@,
        BinaryOp::And => "And"@,
        BinaryOp::Or => "Or"@,
    }
}

/// The type of a literal other than an array: `uint` for an integer where `uint` is
/// expected, else the type its kind names.
pub open spec fn literal_type(l: Literal, expected: Option<TypeV>) -> TypeV {
    match l {
        Literal::Int(_) => if expected == Some(TypeV::UInt) {
            TypeV::UInt
        } else {
            TypeV::Int
        },
        Literal::Double(_) => TypeV::Double,
        Literal::Float(_) => TypeV::Float,
        Literal::String(_) => TypeV::Str,
        Literal::Bool(_) => TypeV::Bool,
        Literal::Char(_) => TypeV::Char,
        _ => TypeV::Nil,
    }
}

/// The value of an optional expected type.
pub open spec fn expected_v(e: Option<&Type>) -> Option<TypeV> {
    match e {
        Some(t) => Some(t@),
        None => None,
    }
}

/// A message made of three pieces.
/// Whether `op` compares or combines truth values, and so gives a `bool`.
pub open spec fn is_comparison_or_logic(op: BinaryOp) -> bool {
    !(op is Add || op is Sub || op is Mul || op is Div || op is Mod)
}

/// What a binary operation on operands of types `l` and `r` gives: its type, or the
/// message of the type error. `+` on `any` gives `any`; on two integers of one type that
/// type; on two strings (concatenation) a string. Other arithmetic needs two integers of one type; a
/// comparison or a logical operator needs two types that match, and gives `bool`.
pub open spec fn binary_outcome(op: BinaryOp, l: TypeV, r: TypeV) -> Result<TypeV, Seq<char>> {
    let a = type_text(l);
    let b = type_text(r);
    match op {
        BinaryOp::Add => if l is Any || r is Any {
            Ok(TypeV::Any)
        } else if is_integer_v(l) && is_integer_v(r) {
            if l == r {
                Ok(l)
            } else {
                Err("Cannot add mismatched integer types '"@ + a + "' and '"@ + b + "'"@)
            }
        } else if l is Str && r is Str {
            Ok(TypeV::Str)
        } else {
            Err("Cannot add type '"@ + a + "' and '"@ + b + "'"@)
        },
        BinaryOp::Sub | BinaryOp::Mul | BinaryOp::Div | BinaryOp::Mod => if is_integer_v(l) && is_integer_v(r) {
            if types_match_v(l, r, TypeCheckMode::Strict) {
                Ok(l)
            } else {
                Err("Mixed-type integer arithmetic ('"@ + a + "' and '"@ + b + "') is not allowed"@)
            }
        } else {
            Err("Operator '"@ + binary_op_text(op) + "' expects integers, but found '"@ + a + "' and '"@ + b + "'"@)
        },
        _ => if types_match_v(l, r, TypeCheckMode::Strict) {
            Ok(TypeV::Bool)
        } else {
            Err("Cannot compare incompatible types '"@ + a + "' and '"@ + b + "'"@)
        },
    }
}

/// Arithmetic keeps the type of its operands: `+`, `-`, `*`, `/` and `%` on two operands
/// of one integer type (`int`, `uint`, `int8`, `uint8` or `char`) give that same type, so
/// each of them gives what `+` gives; a comparison of two such operands gives `bool`.
pub proof fn law_arithmetic_keeps_the_integer_type(op: BinaryOp, t: TypeV)
    requires
        t is Int || t is UInt || t is Int8 || t is UInt8 || t is Char,
    ensures
        op is Add || op is Sub || op is Mul || op is Div || op is Mod ==> binary_outcome(op, t, t) == Ok::<
            TypeV,
            Seq<char>,
        >(t),
        op is Add || op is Sub || op is Mul || op is Div || op is Mod ==> binary_outcome(op, t, t) == binary_outcome(
            BinaryOp::Add,
            t,
            t,
        ),
        op is Eq || op is NEq || op is Gt || op is GtE || op is Lt || op is LtE ==> binary_outcome(op, t, t) == Ok::<
            TypeV,
            Seq<char>,
        >(TypeV::Bool),
{
    crate::utils::typesafe::lemma_types_match_reflexive(t, TypeCheckMode::Strict);
}

/// Operands of two different integer types are refused by every arithmetic operator and
/// every comparison: no operation mixes integer types without a cast.
pub proof fn law_mixed_integer_types_are_refused(op: BinaryOp, l: TypeV, r: TypeV)
    requires
        l is Int || l is UInt || l is Int8 || l is UInt8 || l is Char,
        r is Int || r is UInt || r is Int8 || r is UInt8 || r is Char,
        l != r,
        !(op is And || op is Or),
    ensures
        binary_outcome(op, l, r) is Err,
{
}

/// What a unary operation on an operand of type `t` gives: its type, or the message of
/// the type error. Signs need a signed integer, `!` a `bool`, `*` a pointer; `&` gives a
/// pointer to `t`.
pub open spec fn unary_outcome(op: UnaryOp, t: TypeV) -> Result<TypeV, Seq<char>> {
    match op {
        UnaryOp::Positive | UnaryOp::Negative => if is_signed_integer_v(t) {
            Ok(t)
        } else {
            Err("Unary sign operators are only supported on signed integers, found '"@ + type_text(t) + "'"@)
        },
        UnaryOp::Not => if t is Bool {
            Ok(TypeV::Bool)
        } else {
            Err("Unary boolean operator expects 'bool', found '"@ + type_text(t) + "'"@)
        },
        UnaryOp::AddressOf => Ok(TypeV::Ptr(Box::new(t))),
        UnaryOp::Deref => match t {
            TypeV::Ptr(inner) => Ok(*inner),
            _ => Err("Cannot dereference non-pointer type '"@ + type_text(t) + "'"@),
        },
    }
}

/// Whether no two of `fields` have the same name.
pub open spec fn distinct_param_names(fields: Seq<Parameter>) -> bool {
    forall|i: int, j: int|
        0 <= i < fields.len() && 0 <= j < fields.len() && i != j ==> fields[i].name.value@ != fields[j].name.value@
}

/// The fields of a struct declared with `fields`, in order: each name and its type (`any`
/// where none is written).
pub open spec fn declared_fields(fields: Seq<Parameter>) -> Seq<(Seq<char>, TypeV)> {
    Seq::new(
        fields.len(),
        |j: int|
            (fields[j].name.value@, match fields[j].ptype {
                Some(t) => t@,
                None => TypeV::Any,
            }),
    )
}

/// The name declared by `var name = literal;` (the literal no array) and the literal's type.
pub open spec fn literal_decl(s: Stmt) -> Option<(Seq<char>, TypeV)> {
    match s {
        Stmt::Assignment { ident, vtype: None, expr: Some(e) } => match e.kind {
            ExprKind::Literal(l) => if l is Arr {
                None
            } else {
                Some((ident.value@, literal_type(l, None)))
            },
            _ => None,
        },
        _ => None,
    }
}

/// The type of an operand that is a literal (other than an array; typed by `expected`
/// where that decides it) or a declared variable, as the scopes of `a` give it.
pub open spec fn operand_type(a: Analyser, e: Expr, expected: Option<TypeV>) -> Option<TypeV> {
    match e.kind {
        ExprKind::Literal(l) => if l is Arr {
            None
        } else {
            Some(literal_type(l, expected))
        },
        ExprKind::Identifier(n) => a.var_type(n@),
        _ => None,
    }
}

/// Whether `res` is the outcome `o`: the type it gives, or a type error at `span` with its
/// message.
pub open spec fn is_outcome(res: Result<Type, AnalyserError>, o: Result<TypeV, Seq<char>>, span: Location) -> bool {
    match o {
        Ok(t) => res matches Ok(x) && x@ == t,
        Err(m) => res matches Err(AnalyserError::TypeError { location, message }) && location == span && message@
            == m,
    }
}

/// The type of a binary operation whose operands have the types `left` and `right`, or
/// the type error it is, at `span`.
pub fn binary_result(op: BinaryOp, left: Type, right: Type, span: &Location) -> (res: Result<Type, AnalyserError>)
    ensures
        is_outcome(res, binary_outcome(op, left@, right@), *span),
{
    let a = type_to_string(&left);
    let b = type_to_string(&right);
    match op {
        BinaryOp::Add => {
            if matches!(left, Type::Any) || matches!(right, Type::Any) {
                return Ok(Type::Any);
            }
            if is_integer(&left) && is_integer(&right) {
                if type_eq(&left, &right) {
                    Ok(left)
                } else {
                    Err(
                        AnalyserError::type_error(
                            span.duplicate_same(),
                            msg5("Cannot add mismatched integer types '", a.as_str(), "' and '", b.as_str(), "'"),
                        ),
                    )
                }
            } else if matches!(left, Type::Str) && matches!(right, Type::Str) {
                Ok(Type::Str)
            } else {
                Err(
                    AnalyserError::type_error(
                        span.duplicate_same(),
                        msg5("Cannot add type '", a.as_str(), "' and '", b.as_str(), "'"),
                    ),
                )
            }
        },
        BinaryOp::Sub | BinaryOp::Mul | BinaryOp::Div | BinaryOp::Mod => {
            if is_integer(&left) && is_integer(&right) {
                if types_equal(&left, &right) {
                    Ok(left)
                } else {
                    Err(
                        AnalyserError::type_error(
                            span.duplicate_same(),
                            msg5("Mixed-type integer arithmetic ('", a.as_str(), "' and '", b.as_str(), "') is not allowed"),
                        ),
                    )
                }
            } else {
                Err(
                    AnalyserError::type_error(
                        span.duplicate_same(),
                        msg7(
                            "Operator '",
                            binary_op_name(op),
                            "' expects integers, but found '",
                            a.as_str(),
                            "' and '",
                            b.as_str(),
                            "'",
                        ),
                    ),
                )
            }
        },
        _ => {
            if types_equal(&left, &right) {
                Ok(Type::Bool)
            } else {
                Err(
                    AnalyserError::type_error(
                        span.duplicate_same(),
                        msg5("Cannot compare incompatible types '", a.as_str(), "' and '", b.as_str(), "'"),
                    ),
                )
            }
        },
    }
}

/// The type of a unary operation whose operand has the type `t`, or the type error it
/// is, at `span`.
pub fn unary_result(op: UnaryOp, t: Type, span: &Location) -> (res: Result<Type, AnalyserError>)
    ensures
        is_outcome(res, unary_outcome(op, t@), *span),
{
    match op {
        UnaryOp::Positive | UnaryOp::Negative => {
            if is_signed_integer(&t) {
                Ok(t)
            } else {
                let s = type_to_string(&t);
                Err(
                    AnalyserError::type_error(
                        span.duplicate_same(),
                        msg3("Unary sign operators are only supported on signed integers, found '", s.as_str(), "'"),
                    ),
                )
            }
        },
        UnaryOp::Not => {
            if matches!(t, Type::Bool) {
                Ok(Type::Bool)
            } else {
                let s = type_to_string(&t);
                Err(
                    AnalyserError::type_error(
                        span.duplicate_same(),
                        msg3("Unary boolean operator expects 'bool', found '", s.as_str(), "'"),
                    ),
                )
            }
        },
        UnaryOp::AddressOf => Ok(Type::Ptr(Box::new(t))),
        UnaryOp::Deref => match t {
            Type::Ptr(inner_type) => Ok(*inner_type),
            _ => {
                let s = type_to_string(&t);
                Err(
                    AnalyserError::type_error(
                        span.duplicate_same(),
                        msg3("Cannot dereference non-pointer type '", s.as_str(), "'"),
                    ),
                )
            },
        },
    }
}

fn msg3(a: &str, b: &str, c: &str) -> (res: String)
    ensures
        res@ == a@ + b@ + c@,
{
    concat3(a, b, c)
}

/// A message made of five pieces.
fn msg5(a: &str, b: &str, c: &str, d: &str, e: &str) -> (res: String)
    ensures
        res@ == a@ + b@ + c@ + d@ + e@,
{
    let x = concat3(a, b, c);
    concat3(x.as_str(), d, e)
}

/// A message made of seven pieces.
fn msg7(a: &str, b: &str, c: &str, d: &str, e: &str, f: &str, g: &str) -> (res: String)
    ensures
        res@ == a@ + b@ + c@ + d@ + e@ + f@ + g@,
{
    let x = msg5(a, b, c, d, e);
    concat3(x.as_str(), f, g)
}

/// The call of `callee` with type arguments `generic_args` names no declared function,
/// or gives a declared one a number of type arguments it does not take.
pub open spec fn call_refused(a: Analyser, callee: Identifier, generic_args: Seq<Type>) -> bool {
    match a.functions.lookup(callee.value@) {
        None => true,
        Some(f) => (f.generic_params@.len() > 0 || generic_args.len() > 0) && f.generic_params@.len()
            != generic_args.len(),
    }
}

/// What checking whether `c` is known to be false gives, where the analyser `a` can tell
/// without doubt: a test `typeof(x) == "..."` of a variable `x` is false when the text
/// differs from the variable's type; `||` is false when both sides are, `&&` when either
/// is; any other condition is not known to be false. `None` where it depends on more.
pub open spec fn statically_false(a: Analyser, c: Expr) -> Option<bool>
    decreases c,
{
    match c.kind {
        ExprKind::Binary { left, op, right } => match op {
            BinaryOp::Eq => match (left.kind, right.kind) {
                (ExprKind::Typeof { expr }, ExprKind::Literal(Literal::String(target))) => match expr.kind {
                    ExprKind::Identifier(n) => match a.var_type(n@) {
                        Some(ty) => Some(type_text(ty) != target@),
                        None => None,
                    },
                    _ => None,
                },
                _ => Some(false),
            },
            BinaryOp::Or => match (statically_false(a, *left), statically_false(a, *right)) {
                (Some(x), Some(y)) => Some(x && y),
                _ => None,
            },
            BinaryOp::And => match (statically_false(a, *left), statically_false(a, *right)) {
                (Some(x), Some(y)) => Some(x || y),
                _ => None,
            },
            _ => Some(false),
        },
        _ => Some(false),
    }
}

/// Whether a condition is known to be false depends only on the scopes.
proof fn lemma_statically_false_scopes(a: Analyser, b: Analyser, c: Expr)
    requires
        a.scopes@ == b.scopes@,
    ensures
        statically_false(a, c) == statically_false(b, c),
    decreases c,
{
    match c.kind {
        ExprKind::Binary { left, op, right } => {
            assert(decreases_to!(c => c.kind));
            lemma_statically_false_scopes(a, b, *left);
            lemma_statically_false_scopes(a, b, *right);
        },
        _ => {},
    }
}

/// Some option of `options` is `o`.
pub open spec fn has_option(options: Seq<String>, o: Seq<char>) -> bool {
    exists|k: int| 0 <= k < options.len() && #[trigger] options[k]@ == o
}

/// A call expression is larger than each of its arguments.
proof fn lemma_call_arg_decreases(expr: &Expr, i: int)
    requires
        expr.kind is Call,
        0 <= i < (expr.kind->Call_args)@.len(),
    ensures
        decreases_to!(expr => (expr.kind->Call_args)@[i]),
{
    let a = expr.kind->Call_args;
    assert(decreases_to!(expr => expr.kind));
    assert(decreases_to!(expr.kind => a));
    assert(decreases_to!(a => a@));
    assert(decreases_to!(a@ => a@[i]));
}

impl Analyser {
    /// The type of an expression, checked against the declarations and scopes known; an
    /// expected type, when given, guides literals. Checking a call of a variadic function
    /// with new argument types also checks the function's body for them.
    pub fn check_expr(&mut self, expr: &Expr, expected_type: Option<&Type>) -> (res: Result<Type, AnalyserError>)
        requires
            old(self).wf(),
        ensures
            final(self).wf(),
            res is Ok ==> final(self).keeps_context(&*old(self)),
            expr.kind is Sizeof ==> (res matches Ok(t) && t@ == TypeV::Int),
            expr.kind is Typeof ==> (res matches Ok(t) && t@ == TypeV::Str),
            expr.kind matches ExprKind::Literal(l) ==> !(l is Arr) ==> (res matches Ok(t) && t@
                == literal_type(l, expected_v(expected_type))),
            expr.kind matches ExprKind::Identifier(n) ==> match old(self).var_type(n@) {
                Some(t) => (res matches Ok(r) && r@ == t),
                None => match old(self).constants.lookup(n@) {
                    Some(c) => (res matches Ok(r) && r@ == c.0@),
                    None => (res matches Err(AnalyserError::SemanticError { location, message })
                        && location == expr.span && message@ == "Symbol '"@ + n@
                        + "' is used before definition."@ && *final(self) == *old(self)),
                },
            },
            expr.kind matches ExprKind::Binary { op, .. } ==> (res matches Ok(t) ==> (is_comparison_or_logic(op)
                ==> t@ == TypeV::Bool)),
            expr.kind matches ExprKind::Unary { op: UnaryOp::Not, .. } ==> (res matches Ok(t) ==> t@ == TypeV::Bool),
            expr.kind matches ExprKind::Unary { op: UnaryOp::AddressOf, .. } ==> (res matches Ok(t) ==> t@ is Ptr),
            expr.kind matches ExprKind::Cast { right, .. } ==> (res matches Ok(t) ==> t@ == right@),
            expr.kind matches ExprKind::Call { callee, generic_args, .. } ==> match old(self).functions.lookup(callee.value@) {
                None => (res matches Err(AnalyserError::SemanticError { location, message }) && location.view()
                    == callee.location.view() && message@ == "Call to undefined function '"@ + callee.value@ + "'"@),
                Some(f) => (f.generic_params@.len() > 0 || generic_args@.len() > 0) && f.generic_params@.len()
                    != generic_args@.len() ==> (res matches Err(AnalyserError::TypeError { location, message })
                    && location.view() == expr.span.view() && message@ == "Function '"@ + callee.value@
                    + "' expects "@ + dec(f.generic_params@.len()) + " type parameters, found "@ + dec(
                    generic_args@.len(),
                )),
            },
            expr.kind matches ExprKind::Binary { left, op, right } ==> match (left.kind, right.kind) {
                (ExprKind::Literal(a), ExprKind::Literal(b)) => !(a is Arr) && !(b is Arr) ==> is_outcome(
                    res,
                    binary_outcome(op, literal_type(a, None), literal_type(b, Some(literal_type(a, None)))),
                    expr.span,
                ),
                _ => true,
            },
            expr.kind matches ExprKind::Binary { left, op, right } ==> (operand_type(*old(self), *left, None) matches Some(
                lt,
            ) ==> (operand_type(*old(self), *right, Some(lt)) matches Some(rt) ==> is_outcome(
                res,
                binary_outcome(op, lt, rt),
                expr.span,
            ))),
            expr.kind matches ExprKind::Unary { op, expr: e } ==> match e.kind {
                ExprKind::Literal(l) => !(l is Arr) ==> is_outcome(res, unary_outcome(op, literal_type(l, None)), expr.span),
                _ => true,
            },
            expr.kind matches ExprKind::Unary { op, expr: e } ==> (operand_type(*old(self), *e, None) matches Some(t)
                ==> is_outcome(res, unary_outcome(op, t), expr.span)),
            expr.kind matches ExprKind::Cast { left, right } ==> match left.kind {
                ExprKind::Literal(l) => !(l is Arr) ==> (res is Ok <==> types_match_v(
                    literal_type(l, None),
                    right@,
                    TypeCheckMode::Coercive,
                )),
                _ => true,
            },
            expr.kind matches ExprKind::Call { callee, generic_args, .. } ==> (old(self).functions.lookup(callee.value@)
                matches Some(f) ==> (f.generic_params@.len() == 0 && generic_args@.len() == 0 ==> (res matches Ok(t)
                ==> t@ == f.return_type@))),
        decreases old(self).body_budget, 0int, expr, 1int,
    {
        match &expr.kind {
            ExprKind::Sizeof { .. } => Ok(Type::Int),
            ExprKind::Typeof { .. } => Ok(Type::Str),
            ExprKind::Cast { .. } => self.check_cast(expr),
            ExprKind::Literal(lit) => self.check_literal(expr, expected_type),
            ExprKind::Field { .. } => self.check_field(expr),
            ExprKind::StructLiteral { .. } => self.check_struct_literal(expr),
            ExprKind::Index { .. } => self.check_index(expr),
            ExprKind::Identifier(name) => {
                match self.resolve_variable(name.as_str()) {
                    Some(symbol) => {
                        return Ok(clone_type(&symbol.ty));
                    },
                    None => {},
                }
                match self.constants.get(name.as_str()) {
                    Some(c) => Ok(clone_type(&c.0)),
                    None => Err(
                        AnalyserError::semantic_error(
                            expr.span.duplicate_same(),
                            msg3("Symbol '", name.as_str(), "' is used before definition."),
                        ),
                    ),
                }
            },
            ExprKind::Call { .. } => self.check_call(expr),
            ExprKind::Binary { .. } => self.check_binary(expr),
            ExprKind::Unary { .. } => self.check_unary(expr),
        }
    }

    /// Checks a cast: the value's type must convert to the target type.
    fn check_cast(&mut self, expr: &Expr) -> (res: Result<Type, AnalyserError>)
        requires
            old(self).wf(),
            expr.kind is Cast,
        ensures
            final(self).wf(),
            res is Ok ==> final(self).keeps_context(&*old(self)),
            expr.kind matches ExprKind::Cast { right, .. } ==> (res matches Ok(t) ==> t@ == right@),
            expr.kind matches ExprKind::Cast { left, right } ==> match left.kind {
                ExprKind::Literal(l) => !(l is Arr) ==> (res is Ok <==> types_match_v(
                    literal_type(l, None),
                    right@,
                    TypeCheckMode::Coercive,
                )),
                _ => true,
            },
        decreases old(self).body_budget, 0int, expr, 0int,
    {
        match &expr.kind {
            ExprKind::Cast { left, right } => {
                let leftty = self.check_expr(left, None)?;
                if types_compatible(&leftty, right) {
                    return Ok(clone_type(right));
                }
                let a = type_to_string(&leftty);
                let b = type_to_string(right);
                Err(AnalyserError::type_error(expr.span.duplicate(), msg5("Cannot cast '", a.as_str(), "' to '", b.as_str(), "'")))
            },
            _ => {
                proof {
                    assert(false);
                }
                Ok(Type::Nil)
            },
        }
    }

    /// Checks a literal; an array literal takes its element type from its first element,
    /// or from the expected type when it is empty, and all its elements must have it.
    fn check_literal(&mut self, expr: &Expr, expected_type: Option<&Type>) -> (res: Result<Type, AnalyserError>)
        requires
            old(self).wf(),
            expr.kind is Literal,
        ensures
            final(self).wf(),
            res is Ok ==> final(self).keeps_context(&*old(self)),
            expr.kind matches ExprKind::Literal(l) ==> !(l is Arr) ==> (res matches Ok(t) && t@
                == literal_type(l, expected_v(expected_type))),
        decreases old(self).body_budget, 0int, expr, 0int,
    {
        let lit = match &expr.kind {
            ExprKind::Literal(l) => l,
            _ => {
                proof {
                    assert(false);
                }
                return Ok(Type::Nil);
            },
        };
        match lit {
            Literal::Int(_) => {
                match expected_type {
                    Some(Type::UInt) => Ok(Type::UInt),
                    _ => Ok(Type::Int),
                }
            },
            Literal::Double(_) => Ok(Type::Double),
            Literal::Float(_) => Ok(Type::Float),
            Literal::String(_) => Ok(Type::Str),
            Literal::Bool(_) => Ok(Type::Bool),
            Literal::Char(_) => Ok(Type::Char),
            Literal::Nil => Ok(Type::Nil),
            Literal::Arr { elements } => {
                let expected_elem_ty: Option<&Type> = match expected_type {
                    Some(Type::Array { element_type, .. }) => Some(&**element_type),
                    _ => None,
                };
                let element_type = if elements.len() == 0 {
                    match expected_elem_ty {
                        Some(t) => clone_type(t),
                        None => {
                            return Err(
                                AnalyserError::type_error(
                                    expr.span.duplicate(),
                                    String::from_str(
                                        "Cannot infer the type of an empty array literal without explicit type context.",
                                    ),
                                ),
                            );
                        },
                    }
                } else {
                    self.check_expr(&elements[0], expected_elem_ty)?
                };
                let ghost start = *self;
                let mut i: usize = 0;
                while i < elements.len()
                    invariant
                        0 <= i <= elements@.len(),
                        self.wf(),
                        self.keeps_context(&*old(self)),
                        expr.kind == ExprKind::Literal(Literal::Arr { elements: *elements }),
                    decreases elements.len() - i,
                {
                    let el = &elements[i];
                    proof {
                        let l = expr.kind->Literal_0;
                        assert(decreases_to!(expr => expr.kind));
                        assert(decreases_to!(expr.kind => l));
                        assert(decreases_to!(l => l->Arr_elements));
                        assert(decreases_to!(l->Arr_elements => l->Arr_elements@));
                        assert(decreases_to!(l->Arr_elements@ => l->Arr_elements@[i as int]));
                    }
                    let el_type = self.check_expr(el, Some(&element_type))?;
                    if !types_equal(&element_type, &el_type) {
                        let a = type_to_string(&element_type);
                        let b = type_to_string(&el_type);
                        return Err(
                            AnalyserError::type_error(
                                el.span.duplicate(),
                                msg5(
                                    "Heterogeneous array literals are not allowed. Expected elements of type '",
                                    a.as_str(),
                                    "', found '",
                                    b.as_str(),
                                    "'.",
                                ),
                            ),
                        );
                    }
                    i = i + 1;
                }
                Ok(Type::Array { element_type: Box::new(element_type), size: elements.len() })
            },
        }
    }

    /// Checks a field access: an enum variant, a struct field (with the instance's
    /// arguments put in for a generic struct), a field of a variadic pack, or anything on
    /// `any`.
    fn check_field(&mut self, expr: &Expr) -> (res: Result<Type, AnalyserError>)
        requires
            old(self).wf(),
            expr.kind is Field,
        ensures
            final(self).wf(),
            res is Ok ==> final(self).keeps_context(&*old(self)),
            expr.kind matches ExprKind::Field { base, field } ==> match base.kind {
                ExprKind::Identifier(n) => match old(self).enums.lookup(n@) {
                    Some(sig) => if has_option(sig.options@, field@) {
                        res matches Ok(t) && t@ == TypeV::Enum(n@)
                    } else {
                        res matches Err(AnalyserError::SemanticError { message, .. }) && message@ == "Enum '"@ + n@
                            + "' has no variant named '"@ + field@ + "'."@
                    },
                    None => true,
                },
                _ => true,
            },
        decreases old(self).body_budget, 0int, expr, 0int,
    {
        let (base, field) = match &expr.kind {
            ExprKind::Field { base, field } => (base, field),
            _ => {
                proof {
                    assert(false);
                }
                return Ok(Type::Nil);
            },
        };
        if let ExprKind::Identifier(name) = &base.kind {
            if let Some(enum_sig) = self.enums.get(name.as_str()) {
                if !contains_string(&enum_sig.options, field.as_str()) {
                    return Err(
                        AnalyserError::semantic_error(
                            expr.span.duplicate(),
                            msg5("Enum '", name.as_str(), "' has no variant named '", field.as_str(), "'."),
                        ),
                    );
                }
                proof {
                    assert(old(self).enums.lookup(name@) == Some(*enum_sig));
                    assert(has_option(enum_sig.options@, field@));
                }
                let r = Type::Enum(name.clone());
                assert(r@ == TypeV::Enum(name@));
                return Ok(r);
            }
        }
        let base_type = self.check_expr(base, None)?;
        match &base_type {
            Type::Struct(struct_name) => {
                let signature = match self.structs.get(struct_name.as_str()) {
                    Some(sig) => sig,
                    None => {
                        return Err(
                            AnalyserError::semantic_error(
                                expr.span.duplicate(),
                                msg5(
                                    "Attempted to access field '",
                                    field.as_str(),
                                    "' on undefined struct '",
                                    struct_name.as_str(),
                                    "'.",
                                ),
                            ),
                        );
                    },
                };
                match field_get(&signature.fields, field.as_str()) {
                    Some(t) => Ok(clone_type(t)),
                    None => Err(
                        AnalyserError::semantic_error(
                            expr.span.duplicate(),
                            msg5("Struct '", struct_name.as_str(), "' has no field named '", field.as_str(), "'."),
                        ),
                    ),
                }
            },
            Type::GenericInstance { name, args } => {
                let signature = match self.structs.get(name.as_str()) {
                    Some(sig) => sig,
                    None => {
                        return Err(
                            AnalyserError::semantic_error(
                                expr.span.duplicate(),
                                msg5(
                                    "Attempted to access field '",
                                    field.as_str(),
                                    "' on undefined struct '",
                                    name.as_str(),
                                    "'.",
                                ),
                            ),
                        );
                    },
                };
                let raw_field_type = match field_get(&signature.fields, field.as_str()) {
                    Some(t) => t,
                    None => {
                        return Err(
                            AnalyserError::semantic_error(
                                expr.span.duplicate(),
                                msg5("Struct '", name.as_str(), "' has no field named '", field.as_str(), "'."),
                            ),
                        );
                    },
                };
                let mut mapping: StrMap<Type> = StrMap::new();
                let mut j: usize = 0;
                while j < signature.generic_params.len() && j < args.len()
                    invariant
                        mapping.wf(),
                    decreases signature.generic_params.len() - j,
                {
                    mapping.insert(signature.generic_params[j].clone(), clone_type(&args[j]));
                    j = j + 1;
                }
                Ok(self.substitute_type(raw_field_type, &mapping))
            },
            Type::VariadicPack { types, .. } => {
                if types.len() == 0 {
                    match parse_field(field.as_str()) {
                        Some(PackField::Index(_)) => Ok(Type::Any),
                        Some(PackField::Length) => Ok(Type::Int),
                        None => Err(
                            AnalyserError::semantic_error(
                                expr.span.duplicate(),
                                msg3("Invalid variadic field '", field.as_str(), "'."),
                            ),
                        ),
                    }
                } else {
                    let signature = structure(types.as_slice(), expr.span.duplicate());
                    match field_get(&signature.fields, field.as_str()) {
                        Some(t) => Ok(clone_type(t)),
                        None => Err(
                            AnalyserError::semantic_error(
                                expr.span.duplicate(),
                                msg3("Invalid variadic field '", field.as_str(), "'."),
                            ),
                        ),
                    }
                }
            },
            Type::Any => Ok(Type::Any),
            _ => {
                let t = type_to_string(&base_type);
                Err(
                    AnalyserError::type_error(
                        expr.span.duplicate(),
                        msg3("Cannot access a field on non-struct type '", t.as_str(), "'."),
                    ),
                )
            },
        }
    }

    /// Checks a struct literal: the struct (instantiated, for generic arguments) must
    /// exist, and each of its fields be given once, with a value of the field's type.
    fn check_struct_literal(&mut self, expr: &Expr) -> (res: Result<Type, AnalyserError>)
        requires
            old(self).wf(),
            expr.kind is StructLiteral,
        ensures
            final(self).wf(),
            res is Ok ==> final(self).keeps_context(&*old(self)),
            expr.kind matches ExprKind::StructLiteral { struct_name, generic_args, .. } ==> (generic_args@.len() == 0
                ==> match old(self).structs.lookup(struct_name@) {
                None => res matches Err(AnalyserError::SemanticError { location, message }) && location.view()
                    == expr.span.view() && message@ == "Undefined struct '"@ + struct_name@ + "'."@,
                Some(sig) => sig.generic_params@.len() > 0 ==> (res matches Err(AnalyserError::TypeError { location, message })
                    && location.view() == expr.span.view() && message@ == "Struct '"@ + struct_name@
                    + "' requires generic arguments."@),
            }),
            expr.kind matches ExprKind::StructLiteral { struct_name, generic_args, .. } ==> (generic_args@.len() == 0 ==> (
            res matches Ok(t) ==> t@ == TypeV::Struct(struct_name@))),
        decreases old(self).body_budget, 0int, expr, 0int,
    {
        let (struct_name, generic_args, fields) = match &expr.kind {
            ExprKind::StructLiteral { struct_name, generic_args, fields } => (struct_name, generic_args, fields),
            _ => {
                proof {
                    assert(false);
                }
                return Ok(Type::Nil);
            },
        };
        let concrete_ty = if generic_args.len() == 0 {
            match self.structs.get(struct_name.as_str()) {
                Some(template) => {
                    if template.generic_params.len() > 0 {
                        return Err(
                            AnalyserError::type_error(
                                expr.span.duplicate(),
                                msg3("Struct '", struct_name.as_str(), "' requires generic arguments."),
                            ),
                        );
                    }
                },
                None => {
                    return Err(
                        AnalyserError::semantic_error(
                            expr.span.duplicate(),
                            msg3("Undefined struct '", struct_name.as_str(), "'."),
                        ),
                    );
                },
            }
            Type::Struct(struct_name.clone())
        } else {
            let generic_ty = Type::GenericInstance { name: struct_name.clone(), args: clone_types(generic_args) };
            self.validate_type_exists(&generic_ty, &expr.span)?;
            if !pack_free(&generic_ty) {
                return Err(pack_error(&expr.span));
            }
            self.instantiate_generic_types(&generic_ty, &expr.span)?
        };
        let ghost mid = *self;
        let concrete_name = match &concrete_ty {
            Type::Struct(name) => name.clone(),
            _ => {
                let d = type_debug(&concrete_ty);
                return Err(
                    AnalyserError::type_error(
                        expr.span.duplicate(),
                        concat("Expected concrete struct type, got ", d.as_str()),
                    ),
                );
            },
        };
        let mut entries: Vec<(String, Type)> = Vec::new();
        match self.structs.get(concrete_name.as_str()) {
            Some(sig) => {
                let count = field_count(&sig.fields);
                let mut f: usize = 0;
                while f < count
                    invariant
                        0 <= f <= count,
                        count == crate::utils::fieldmap::field_entries(sig.fields).len(),
                    decreases count - f,
                {
                    let (n, t) = field_at(&sig.fields, f);
                    entries.push((n.clone(), clone_type(t)));
                    f = f + 1;
                }
            },
            None => {
                return Err(
                    AnalyserError::semantic_error(
                        expr.span.duplicate(),
                        msg3("Instantiated struct '", concrete_name.as_str(), "' not found."),
                    ),
                );
            },
        }
        if fields.len() != entries.len() {
            let expected = usize_to_string(entries.len());
            let found = usize_to_string(fields.len());
            return Err(
                AnalyserError::type_error(
                    expr.span.duplicate(),
                    msg7(
                        "Struct '",
                        concrete_name.as_str(),
                        "' expects ",
                        expected.as_str(),
                        " fields, found ",
                        found.as_str(),
                        ".",
                    ),
                ),
            );
        }
        let mut seen: Vec<String> = Vec::new();
        let mut i: usize = 0;
        while i < fields.len()
            invariant
                (generic_args@.len() == 0 ==> (old(self).structs.lookup(struct_name@) matches Some(sig) && sig.generic_params@.len() == 0)),
                expr.kind == (ExprKind::StructLiteral { struct_name: *struct_name, generic_args: *generic_args, fields: *fields }),
                0 <= i <= fields@.len(),
                self.wf(),
                self.keeps_context(&mid),
                mid.keeps_context(&*old(self)),
                expr.kind == (ExprKind::StructLiteral {
                    struct_name: *struct_name,
                    generic_args: *generic_args,
                    fields: *fields,
                }),
            decreases fields.len() - i,
        {
            let field_name = &fields[i].0;
            let field_expr = &fields[i].1;
            if contains_string(&seen, field_name.as_str()) {
                return Err(
                    AnalyserError::semantic_error(
                        field_expr.span.duplicate(),
                        msg3("Duplicate field '", field_name.as_str(), "' in struct literal."),
                    ),
                );
            }
            seen.push(field_name.clone());
            let mut k: usize = 0;
            let mut found: Option<usize> = None;
            while k < entries.len()
                invariant
                    (generic_args@.len() == 0 ==> (old(self).structs.lookup(struct_name@) matches Some(sig) && sig.generic_params@.len() == 0)),
                    expr.kind == (ExprKind::StructLiteral { struct_name: *struct_name, generic_args: *generic_args, fields: *fields }),
                    0 <= k <= entries@.len(),
                    found matches Some(x) ==> x < entries@.len(),
                decreases entries.len() - k,
            {
                if str_eq(entries[k].0.as_str(), field_name.as_str()) {
                    found = Some(k);
                    break;
                }
                k = k + 1;
            }
            let expected_ty = match found {
                Some(x) => &entries[x].1,
                None => {
                    return Err(
                        AnalyserError::semantic_error(
                            field_expr.span.duplicate(),
                            msg5(
                                "Field '",
                                field_name.as_str(),
                                "' does not exist in struct '",
                                concrete_name.as_str(),
                                "'.",
                            ),
                        ),
                    );
                },
            };
            proof {
                let fs = expr.kind->StructLiteral_fields;
                assert(decreases_to!(expr => expr.kind));
                assert(decreases_to!(expr.kind => fs));
                assert(decreases_to!(fs => fs@));
                assert(decreases_to!(fs@ => fs@[i as int]));
                assert(decreases_to!(fs@[i as int] => fs@[i as int].1));
            }
            let actual_ty = self.check_expr(field_expr, Some(expected_ty))?;
            if !types_equal(expected_ty, &actual_ty) {
                let a = type_to_string(expected_ty);
                let b = type_to_string(&actual_ty);
                return Err(
                    AnalyserError::type_error(
                        field_expr.span.duplicate(),
                        msg7(
                            "Field '",
                            field_name.as_str(),
                            "' expects type '",
                            a.as_str(),
                            "', but found '",
                            b.as_str(),
                            "'.",
                        ),
                    ),
                );
            }
            i = i + 1;
        }
        Ok(concrete_ty)
    }

    /// Checks indexing: the index must be an integer, and the base an array, a string or
    /// a pointer; the element type is the result.
    fn check_index(&mut self, expr: &Expr) -> (res: Result<Type, AnalyserError>)
        requires
            old(self).wf(),
            expr.kind is Index,
        ensures
            final(self).wf(),
            res is Ok ==> final(self).keeps_context(&*old(self)),
            expr.kind matches ExprKind::Index { base, index } ==> match (base.kind, index.kind) {
                (ExprKind::Identifier(n), ExprKind::Literal(Literal::Int(_))) => match old(self).var_type(n@) {
                    Some(bt) => match bt {
                        TypeV::Array { element_type, .. } => res matches Ok(r) && r@ == *element_type,
                        TypeV::Str => res matches Ok(r) && r@ == TypeV::Char,
                        TypeV::Ptr(inner) => res matches Ok(r) && r@ == *inner,
                        _ => res is Err,
                    },
                    None => true,
                },
                _ => true,
            },
        decreases old(self).body_budget, 0int, expr, 0int,
    {
        let (base, index) = match &expr.kind {
            ExprKind::Index { base, index } => (base, index),
            _ => {
                proof {
                    assert(false);
                }
                return Ok(Type::Nil);
            },
        };
        let base_type = self.check_expr(base, None)?;
        let int_type = Type::Int;
        let index_type = self.check_expr(index, Some(&int_type))?;
        if !is_integer(&index_type) {
            let t = type_to_string(&index_type);
            return Err(
                AnalyserError::type_error(
                    index.span.duplicate(),
                    msg3("Array index must be an integer, found '", t.as_str(), "'."),
                ),
            );
        }
        match base_type {
            Type::Array { element_type, .. } => Ok(*element_type),
            Type::Str => Ok(Type::Char),
            Type::Ptr(inner_type) => Ok(*inner_type),
            _ => {
                let t = type_to_string(&base_type);
                Err(
                    AnalyserError::type_error(
                        expr.span.duplicate(),
                        msg3("Cannot index into non-indexable type '", t.as_str(), "'."),
                    ),
                )
            },
        }
    }

    /// Checks a binary operation: `+` on integers of one type, on `any`, or (for
    /// concatenation) on two strings; `-`, `*`, `/`, `%` on integers of one type;
    /// comparisons and logic on operands of one type, giving `bool`.
    fn check_binary(&mut self, expr: &Expr) -> (res: Result<Type, AnalyserError>)
        requires
            old(self).wf(),
            expr.kind is Binary,
        ensures
            final(self).wf(),
            res is Ok ==> final(self).keeps_context(&*old(self)),
            expr.kind matches ExprKind::Binary { op, .. } ==> (res matches Ok(t) ==> (is_comparison_or_logic(op)
                ==> t@ == TypeV::Bool)),
            expr.kind matches ExprKind::Binary { left, op, right } ==> match (left.kind, right.kind) {
                (ExprKind::Literal(a), ExprKind::Literal(b)) => !(a is Arr) && !(b is Arr) ==> is_outcome(
                    res,
                    binary_outcome(op, literal_type(a, None), literal_type(b, Some(literal_type(a, None)))),
                    expr.span,
                ),
                _ => true,
            },
            expr.kind matches ExprKind::Binary { left, op, right } ==> (operand_type(*old(self), *left, None) matches Some(
                lt,
            ) ==> (operand_type(*old(self), *right, Some(lt)) matches Some(rt) ==> is_outcome(
                res,
                binary_outcome(op, lt, rt),
                expr.span,
            ))),
        decreases old(self).body_budget, 0int, expr, 0int,
    {
        let (left, op, right) = match &expr.kind {
            ExprKind::Binary { left, op, right } => (left, *op, right),
            _ => {
                proof {
                    assert(false);
                }
                return Ok(Type::Nil);
            },
        };
        let left_type = self.check_expr(left, None)?;
        let right_type = self.check_expr(right, Some(&left_type))?;
        binary_result(op, left_type, right_type, &expr.span)
    }

    /// Checks a unary operation: signs on signed integers, `!` on `bool`, `&` on
    /// anything (giving a pointer), `*` on pointers.
    fn check_unary(&mut self, expr: &Expr) -> (res: Result<Type, AnalyserError>)
        requires
            old(self).wf(),
            expr.kind is Unary,
        ensures
            final(self).wf(),
            res is Ok ==> final(self).keeps_context(&*old(self)),
            expr.kind matches ExprKind::Unary { op: UnaryOp::Not, .. } ==> (res matches Ok(t) ==> t@ == TypeV::Bool),
            expr.kind matches ExprKind::Unary { op: UnaryOp::AddressOf, .. } ==> (res matches Ok(t) ==> t@ is Ptr),
            expr.kind matches ExprKind::Unary { op, expr: e } ==> match e.kind {
                ExprKind::Literal(l) => !(l is Arr) ==> is_outcome(res, unary_outcome(op, literal_type(l, None)), expr.span),
                _ => true,
            },
            expr.kind matches ExprKind::Unary { op, expr: e } ==> (operand_type(*old(self), *e, None) matches Some(t)
                ==> is_outcome(res, unary_outcome(op, t), expr.span)),
        decreases old(self).body_budget, 0int, expr, 0int,
    {
        let (op, sub_expr) = match &expr.kind {
            ExprKind::Unary { op, expr } => (*op, expr),
            _ => {
                proof {
                    assert(false);
                }
                return Ok(Type::Nil);
            },
        };
        let expr_type = self.check_expr(sub_expr, None)?;
        unary_result(op, expr_type, &expr.span)
    }

    /// Checks a call: the function must exist (instantiated, for generic arguments), be
    /// public or defined in the caller's file, and get as many arguments as it takes
    /// (at least, for a variadic function), each of its parameter's type. A variadic
    /// function met with new argument types gets a signature for them, and its body is
    /// checked with the pack bound to those types.
    fn check_call(&mut self, expr: &Expr) -> (res: Result<Type, AnalyserError>)
        requires
            old(self).wf(),
            expr.kind is Call,
        ensures
            final(self).wf(),
            res is Ok ==> final(self).keeps_context(&*old(self)),
            expr.kind matches ExprKind::Call { callee, generic_args, .. } ==> match old(self).functions.lookup(callee.value@) {
                None => (res matches Err(AnalyserError::SemanticError { location, message }) && location.view()
                    == callee.location.view() && message@ == "Call to undefined function '"@ + callee.value@ + "'"@),
                Some(f) => (f.generic_params@.len() > 0 || generic_args@.len() > 0) && f.generic_params@.len()
                    != generic_args@.len() ==> (res matches Err(AnalyserError::TypeError { location, message })
                    && location.view() == expr.span.view() && message@ == "Function '"@ + callee.value@
                    + "' expects "@ + dec(f.generic_params@.len()) + " type parameters, found "@ + dec(
                    generic_args@.len(),
                )),
            },
            expr.kind matches ExprKind::Call { callee, generic_args, .. } ==> (old(self).functions.lookup(callee.value@)
                matches Some(f) ==> (f.generic_params@.len() == 0 && generic_args@.len() == 0 ==> (res matches Ok(t)
                ==> t@ == f.return_type@))),
        decreases old(self).body_budget, 0int, expr, 0int,
    {
        let (callee, generic_args, args) = match &expr.kind {
            ExprKind::Call { callee, generic_args, args } => (callee, generic_args, args),
            _ => {
                proof {
                    assert(false);
                }
                return Ok(Type::Nil);
            },
        };
        let (t_generic_params, t_param_types, t_return, t_public, t_is_variadic, t_vname, t_location) =
            match self.resolve_function(callee.value.as_str()) {
            Some(t) => (
                duplicate_strings(&t.generic_params),
                clone_types(&t.param_types),
                clone_type(&t.return_type),
                t.public,
                t.is_variadic,
                match &t.variadic_param_name {
                    Some(n) => Some(n.clone()),
                    None => None,
                },
                t.location.duplicate(),
            ),
            None => {
                return Err(
                    AnalyserError::semantic_error(
                        callee.location.duplicate(),
                        msg3("Call to undefined function '", callee.value.as_str(), "'"),
                    ),
                );
            },
        };
        let mut resolved_func_name = callee.value.clone();
        if t_generic_params.len() > 0 || generic_args.len() > 0 {
            if t_generic_params.len() != generic_args.len() {
                let e = usize_to_string(t_generic_params.len());
                let f = usize_to_string(generic_args.len());
                proof {
                    reveal_strlit("");
                }
                return Err(
                    AnalyserError::type_error(
                        expr.span.duplicate(),
                        msg7(
                            "Function '",
                            callee.value.as_str(),
                            "' expects ",
                            e.as_str(),
                            " type parameters, found ",
                            f.as_str(),
                            "",
                        ),
                    ),
                );
            }
            let mut inst_args: Vec<Type> = Vec::new();
            let mut g: usize = 0;
            while g < generic_args.len()
                invariant
                    !call_refused(*old(self), *callee, generic_args@),
                    expr.kind == (ExprKind::Call { callee: *callee, generic_args: *generic_args, args: *args }),
                    0 <= g <= generic_args@.len(),
                    self.wf(),
                    self.keeps_context(&*old(self)),
                    self.functions == old(self).functions,
                    inst_args@.len() == g,
                    forall|j: int| 0 <= j < g ==> no_pack((#[trigger] inst_args@[j])@),
                decreases generic_args.len() - g,
            {
                if !pack_free(&generic_args[g]) {
                    return Err(pack_error(&callee.location));
                }
                let t = self.instantiate_generic_types(&generic_args[g], &callee.location)?;
                inst_args.push(t);
                g = g + 1;
            }
            proof {
                lemma_types_view(inst_args@);
                lemma_all_no_pack_from(types_view(inst_args@));
            }
            resolved_func_name = mangle_name(callee.value.as_str(), inst_args.as_slice());
            if !self.functions.contains_key(resolved_func_name.as_str()) {
                let mut mapping: StrMap<Type> = StrMap::new();
                let mut j: usize = 0;
                while j < t_generic_params.len()
                    invariant
                        !call_refused(*old(self), *callee, generic_args@),
                        expr.kind == (ExprKind::Call { callee: *callee, generic_args: *generic_args, args: *args }),
                        0 <= j <= t_generic_params@.len(),
                        t_generic_params@.len() == inst_args@.len(),
                        mapping.wf(),
                    decreases t_generic_params.len() - j,
                {
                    mapping.insert(t_generic_params[j].clone(), clone_type(&inst_args[j]));
                    mapping.insert(concat("gparam__", t_generic_params[j].as_str()), clone_type(&inst_args[j]));
                    j = j + 1;
                }
                let substituted_return = self.substitute_type(&t_return, &mapping);
                if !pack_free(&substituted_return) {
                    return Err(pack_error(&callee.location));
                }
                let fresh_return = self.instantiate_generic_types(&substituted_return, &callee.location)?;
                let mut fresh_params: Vec<Type> = Vec::new();
                let mut k: usize = 0;
                while k < t_param_types.len()
                    invariant
                        !call_refused(*old(self), *callee, generic_args@),
                        expr.kind == (ExprKind::Call { callee: *callee, generic_args: *generic_args, args: *args }),
                        0 <= k <= t_param_types@.len(),
                        self.wf(),
                        self.keeps_context(&*old(self)),
                        self.functions == old(self).functions,
                        mapping.wf(),
                        !self.functions.has(resolved_func_name@),
                    decreases t_param_types.len() - k,
                {
                    let substituted_param = self.substitute_type(&t_param_types[k], &mapping);
                    if !pack_free(&substituted_param) {
                        return Err(pack_error(&callee.location));
                    }
                    let p = self.instantiate_generic_types(&substituted_param, &callee.location)?;
                    fresh_params.push(p);
                    k = k + 1;
                }
                self.functions.insert(
                    resolved_func_name.clone(),
                    FunctionSignature {
                        generic_params: Vec::new(),
                        param_types: fresh_params,
                        public: t_public,
                        is_variadic: t_is_variadic,
                        variadic_param_name: t_vname,
                        return_type: fresh_return,
                        location: t_location,
                    },
                );
            }
        }
        let (s_public, s_location, s_param_types, s_return, s_is_variadic, s_vname) =
            match self.functions.get(resolved_func_name.as_str()) {
            Some(sig) => (
                sig.public,
                sig.location.duplicate(),
                clone_types(&sig.param_types),
                clone_type(&sig.return_type),
                sig.is_variadic,
                match &sig.variadic_param_name {
                    Some(n) => Some(n.clone()),
                    None => None,
                },
            ),
            None => {
                return Err(
                    AnalyserError::semantic_error(
                        callee.location.duplicate(),
                        msg3("Call to undefined function '", callee.value.as_str(), "'"),
                    ),
                );
            },
        };
        if !s_public && !str_eq(s_location.file.as_str(), callee.location.file.as_str()) {
            return Err(
                AnalyserError::semantic_error(
                    callee.location.duplicate(),
                    msg3(
                        "Function '",
                        callee.value.as_str(),
                        "' is private and cannot be called from another module",
                    ),
                ),
            );
        }
        let fixed_arg_count = s_param_types.len();
        let e = usize_to_string(fixed_arg_count);
        let f = usize_to_string(args.len());
        if s_is_variadic {
            if args.len() < fixed_arg_count {
                return Err(
                    AnalyserError::type_error(
                        expr.span.duplicate(),
                        msg7(
                            "Function '",
                            callee.value.as_str(),
                            "' expects at least ",
                            e.as_str(),
                            " argument(s), found ",
                            f.as_str(),
                            "",
                        ),
                    ),
                );
            }
        } else if args.len() != fixed_arg_count {
            return Err(
                AnalyserError::type_error(
                    expr.span.duplicate(),
                    msg7(
                        "Function '",
                        callee.value.as_str(),
                        "' expects ",
                        e.as_str(),
                        " argument(s), found ",
                        f.as_str(),
                        "",
                    ),
                ),
            );
        }
        let ghost mid = *self;
        let mut i: usize = 0;
        while i < fixed_arg_count
            invariant
                !call_refused(*old(self), *callee, generic_args@),
                expr.kind == (ExprKind::Call { callee: *callee, generic_args: *generic_args, args: *args }),
                0 <= i <= fixed_arg_count,
                fixed_arg_count == s_param_types@.len(),
                fixed_arg_count <= args@.len(),
                self.wf(),
                self.keeps_context(&*old(self)),
                expr.kind == (ExprKind::Call { callee: *callee, generic_args: *generic_args, args: *args }),
            decreases fixed_arg_count - i,
        {
            let arg = &args[i];
            let expected = &s_param_types[i];
            proof {
                lemma_call_arg_decreases(expr, i as int);
            }
            let arg_type = self.check_expr(arg, Some(expected))?;
            let n = usize_to_string(i + 1);
            match (expected, &arg_type) {
                (Type::Array { element_type: expected_elem, .. }, Type::Array { element_type: actual_elem, .. }) => {
                    if !matches!(**expected_elem, Type::Any) && !types_equal(expected_elem, actual_elem) {
                        let a = type_to_string(expected_elem);
                        let b = type_to_string(actual_elem);
                        let m = msg5("Argument ", n.as_str(), " to '", callee.value.as_str(), "' expects array of '");
                        return Err(
                            AnalyserError::type_error(
                                arg.span.duplicate(),
                                msg5(m.as_str(), a.as_str(), "', found array of '", b.as_str(), "'"),
                            ),
                        );
                    }
                },
                _ => {
                    let is_array = matches!(expected, Type::Array { .. });
                    if is_array || !types_equal(expected, &arg_type) {
                        let a = type_to_string(expected);
                        let b = type_to_string(&arg_type);
                        let m = msg5("Argument ", n.as_str(), " to '", callee.value.as_str(), "' expects '");
                        return Err(
                            AnalyserError::type_error(
                                arg.span.duplicate(),
                                msg5(m.as_str(), a.as_str(), "', found '", b.as_str(), "'"),
                            ),
                        );
                    }
                },
            }
            i = i + 1;
        }
        if s_is_variadic {
            let mut variadic_types: Vec<Type> = Vec::new();
            let mut k = fixed_arg_count;
            while k < args.len()
                invariant
                    !call_refused(*old(self), *callee, generic_args@),
                    expr.kind == (ExprKind::Call { callee: *callee, generic_args: *generic_args, args: *args }),
                    fixed_arg_count <= k <= args@.len(),
                    self.wf(),
                    self.keeps_context(&*old(self)),
                    expr.kind == (ExprKind::Call { callee: *callee, generic_args: *generic_args, args: *args }),
                decreases args.len() - k,
            {
                proof {
                    lemma_call_arg_decreases(expr, k as int);
                }
                let t = self.check_expr(&args[k], None)?;
                variadic_types.push(t);
                k = k + 1;
            }
            if !all_pack_free(&variadic_types) {
                return Err(pack_error(&callee.location));
            }
            let variadic_mangled_name = mangle_variadic(resolved_func_name.as_str(), variadic_types.as_slice());
            if !self.functions.contains_key(variadic_mangled_name.as_str()) {
                self.functions.insert(
                    variadic_mangled_name,
                    FunctionSignature {
                        generic_params: Vec::new(),
                        param_types: clone_types(&s_param_types),
                        public: s_public,
                        is_variadic: true,
                        variadic_param_name: match &s_vname {
                            Some(n) => Some(n.clone()),
                            None => None,
                        },
                        return_type: clone_type(&s_return),
                        location: s_location.duplicate(),
                    },
                );
                if let Some(variadic_name) = &s_vname {
                    let stored = match self.function_bodies.get(callee.value.as_str()) {
                        Some(fb) => {
                            proof {
                                assert(self.function_bodies.has(callee.value@));
                            }
                            Some((duplicate_params(&fb.0), duplicate_stmts(&fb.1)))
                        },
                        None => None,
                    };
                    if let Some((params, func_body)) = stored {
                        if self.body_budget == 0 {
                            return Err(
                                AnalyserError::semantic_error(
                                    callee.location.duplicate(),
                                    String::from_str("Semantic Error: Variadic function bodies nest too deeply."),
                                ),
                            );
                        }
                        self.body_budget = self.body_budget - 1;
                        self.check_variadic_body(
                            &params,
                            &func_body,
                            &s_param_types,
                            variadic_name,
                            variadic_types,
                            &callee.location,
                        )?;
                        self.body_budget = self.body_budget + 1;
                    }
                }
            }
        }
        Ok(s_return)
    }

    /// Checks the body of a variadic function for one set of argument types: in a new
    /// scope holding its fixed parameters and its pack, with one less body to spare.
    fn check_variadic_body(
        &mut self,
        params: &Vec<Parameter>,
        func_body: &Vec<Stmt>,
        param_types: &Vec<Type>,
        variadic_name: &String,
        variadic_types: Vec<Type>,
        call_location: &Location,
    ) -> (res: Result<(), AnalyserError>)
        requires
            old(self).wf(),
            stmts_no_use(func_body@),
        ensures
            final(self).wf(),
            res is Ok ==> final(self).keeps_context(&*old(self)),
        decreases old(self).body_budget, 1int, func_body, 1int,
    {
        self.enter_scope();
        let ghost entered = *self;
        let mut fixed_index: usize = 0;
        let mut i: usize = 0;
        while i < params.len()
            invariant
                0 <= i <= params@.len(),
                fixed_index <= i,
                self.wf(),
                self.keeps_outer(&entered),
                entered.depth() >= 2,
            decreases params.len() - i,
        {
            let param = &params[i];
            if !param.is_variadic {
                let param_type = if fixed_index < param_types.len() {
                    clone_type(&param_types[fixed_index])
                } else {
                    {
                        return Err(
                            AnalyserError::semantic_error(
                                param.name.location.duplicate(),
                                msg3(
                                    "Internal error: missing type for parameter '",
                                    param.name.value.as_str(),
                                    "'",
                                ),
                            ),
                        );
                    }
                };
                self.declare_variable(param.name.value.as_str(), param_type, param.name.location.duplicate())?;
                fixed_index = fixed_index + 1;
            }
            i = i + 1;
        }
        self.declare_variable(
            variadic_name.as_str(),
            Type::VariadicPack { name: variadic_name.clone(), types: variadic_types },
            call_location.duplicate(),
        )?;
        self.check_block(func_body, TypeCheckMode::Strict)?;
        self.leave_scope();
        Ok(())
    }

    /// Checks the statements of a block in order, stopping at the first error. A `break`
    /// outside any loop, or a `return` outside any function, is an error.
    pub fn check_block(&mut self, stmts: &Vec<Stmt>, mode: TypeCheckMode) -> (res: Result<(), AnalyserError>)
        requires
            old(self).wf(),
            stmts_no_use(stmts@),
        ensures
            final(self).wf(),
            res is Ok ==> final(self).keeps_outer(&*old(self)),
            stmts@.len() == 0 ==> res is Ok && *final(self) == *old(self),
            res is Ok ==> forall|j: int|
                0 <= j < stmts@.len() ==> (#[trigger] stmts@[j] is Break ==> old(self).loop_depth > 0),
            res is Ok ==> forall|j: int|
                0 <= j < stmts@.len() ==> (#[trigger] stmts@[j] is Return ==> old(self).current_return_type is Some),
            stmts@.len() == 1 ==> (literal_decl(stmts@[0]) matches Some((n, t)) ==> (old(self).var_type(n) is None ==> (
            res is Ok && final(self).var_type(n) == Some(t)))),
            stmts@.len() == 1 ==> (simple_fn_decl(stmts@[0]) matches Some(n) ==> (old(self).functions.lookup(n) is None
                ==> res is Ok)),
            all_simple_fns(stmts@) && distinct_names(simple_fn_names(stmts@)) && (forall|j: int|
                0 <= j < stmts@.len() ==> #[trigger] old(self).functions.lookup(simple_fn_names(stmts@)[j]) is None)
                ==> res is Ok,
        decreases old(self).body_budget, 1int, stmts, 0int,
    {
        proof {
            lemma_stmts_no_use(stmts@);
        }
        let mut i: usize = 0;
        while i < stmts.len()
            invariant
                0 <= i <= stmts@.len(),
                self.wf(),
                self.keeps_outer(&*old(self)),
                forall|j: int| 0 <= j < stmts@.len() ==> #[trigger] stmt_no_use(stmts@[j]),
                i == 0 ==> *self == *old(self),
                forall|j: int| 0 <= j < i ==> (#[trigger] stmts@[j] is Break ==> old(self).loop_depth > 0),
                forall|j: int| 0 <= j < i ==> (#[trigger] stmts@[j] is Return ==> old(self).current_return_type is Some),
                i == 1 && stmts@.len() == 1 ==> (literal_decl(stmts@[0]) matches Some((n, t)) ==> (old(self).var_type(n)
                    is None ==> self.var_type(n) == Some(t))),
                all_simple_fns(stmts@) && distinct_names(simple_fn_names(stmts@)) && (forall|j: int|
                    0 <= j < stmts@.len() ==> #[trigger] old(self).functions.lookup(simple_fn_names(stmts@)[j]) is None)
                    ==> forall|j: int| i <= j < stmts@.len() ==> #[trigger] self.functions.lookup(simple_fn_names(stmts@)[j]) is None,
            decreases stmts.len() - i,
        {
            let ghost pre = *self;
            let ghost good = all_simple_fns(stmts@) && distinct_names(simple_fn_names(stmts@)) && (forall|j: int|
                0 <= j < stmts@.len() ==> #[trigger] old(self).functions.lookup(simple_fn_names(stmts@)[j]) is None);
            proof {
                if good {
                    assert(simple_fn_decl(stmts@[i as int]) is Some);
                    assert(simple_fn_names(stmts@)[i as int] == simple_fn_decl(stmts@[i as int])->0);
                    assert(self.functions.lookup(simple_fn_names(stmts@)[i as int]) is None);
                }
            }
            self.check_stmt(&stmts[i], mode)?;
            proof {
                if good {
                    let names = simple_fn_names(stmts@);
                    assert forall|j: int| i + 1 <= j < stmts@.len() implies #[trigger] self.functions.lookup(names[j])
                        is None by {
                        assert(names[j] != names[i as int]);
                        assert(pre.functions.lookup(names[j]) is None);
                    }
                }
            }
            i = i + 1;
        }
        Ok(())
    }

    /// Checks a statement: declarations are recorded, expressions and assignments are
    /// type-checked, and blocks are checked in scopes of their own.
    pub fn check_stmt(&mut self, stmt: &Stmt, mode: TypeCheckMode) -> (res: Result<(), AnalyserError>)
        requires
            old(self).wf(),
            stmt_no_use(*stmt),
        ensures
            final(self).wf(),
            res is Ok ==> final(self).keeps_outer(&*old(self)),
            stmt matches Stmt::Assignment { ident, vtype: None, expr: Some(e) } ==> (e.kind matches ExprKind::Literal(l)
                ==> (!(l is Arr) && old(self).var_type(ident.value@) is None ==> res is Ok && final(self).var_type(
                ident.value@,
            ) == Some(literal_type(l, None)))),
            stmt matches Stmt::Struct { name, fields, .. } ==> (old(self).structs.lookup(name.value@) is None
                && distinct_param_names(fields@) ==> (res is Ok && (final(self).structs.lookup(name.value@) matches Some(
                sig,
            ) && crate::utils::fieldmap::field_entries(sig.fields) == declared_fields(fields@)))),
            stmt matches Stmt::If { cond, then_branch, else_if_branches, else_branch } ==> (cond.kind matches ExprKind::Literal(l)
                ==> (!(l is Arr) ==> (!is_truthy_v(literal_type(l, None)) ==> (res matches Err(
                AnalyserError::TypeError { location, message },
            ) && location.view() == cond.span.view() && message@ == "'if' condition is not truthy, found '"@
                + type_text(literal_type(l, None)) + "'"@)) && (is_truthy_v(literal_type(l, None))
                && then_branch@.len() == 0 && else_if_branches@.len() == 0 && (else_branch matches Some(e) ==> e@.len()
                == 0) ==> res is Ok))),
            stmt matches Stmt::While { cond, body } ==> match cond.kind {
                ExprKind::Literal(l) => !(l is Arr) ==> (res is Ok ==> is_truthy_v(literal_type(l, None))) && (
                body@.len() == 0 ==> (res is Ok <==> is_truthy_v(literal_type(l, None)))),
                _ => true,
            },
            stmt matches Stmt::While { cond, body } ==> (cond.kind matches ExprKind::Literal(l) ==> (!(l is Arr)
                && is_truthy_v(literal_type(l, None)) && body@.len() == 1 ==> (literal_decl(body@[0]) matches Some((n, t))
                ==> (old(self).var_type(n) is None ==> res is Ok)))),
            simple_fn_decl(*stmt) matches Some(n) ==> (old(self).functions.lookup(n) is None ==> res is Ok),
            simple_fn_decl(*stmt) matches Some(n) ==> (res is Ok ==> final(self).functions.lookup(n) is Some && forall|
                k: Seq<char>,
            | k != n ==> #[trigger] final(self).functions.lookup(k) == old(self).functions.lookup(k)),
            stmt matches Stmt::Break { location } ==> (old(self).loop_depth == 0 <==> res is Err) && (res is Err ==> (res matches Err(
                AnalyserError::SemanticError { location: l, message },
            ) && l.view() == location.view() && message@
                == "Semantic Error: Break statement must be in a while loop statement"@)),
            stmt matches Stmt::Return { span, .. } ==> (old(self).current_return_type is None ==> (res matches Err(
                AnalyserError::SemanticError { location, message },
            ) && location.view() == span.view() && message@ == "Semantic Error: 'return' used outside of a function"@)),
            stmt matches Stmt::Reassignment { ident, .. } ==> (old(self).var_type(ident.value@) is None ==> (
            res matches Err(AnalyserError::SemanticError { location, message }) && location.view()
                == ident.location.view() && message@ == "Cannot reassign to undefined variable '"@ + ident.value@
                + "'"@)),
            stmt matches Stmt::Function { name, rttype, generic_params, params, body, .. } ==> match rttype {
                Some(rt) => (rt@ is Int || rt@ is Bool || rt@ is Str || rt@ is Char) && generic_params@.len() == 0
                    && params@.len() == 0 && body@.len() == 0 && old(self).functions.lookup(name.value@) is None ==> (
                res matches Err(AnalyserError::TypeError { location, message }) && location.view()
                    == name.location.view() && message@ == "Type Error: Function '"@ + name.value@
                    + "' must return a value of type '"@ + type_text(rt@) + "'"@),
                None => true,
            },
        decreases old(self).body_budget, 1int, stmt, 1int,
    {
        match stmt {
            Stmt::Use { .. } => {
                proof {
                    assert(false);
                }
                Ok(())
            },
            Stmt::Enum { name, options } => {
                let mut values: Vec<String> = Vec::new();
                let mut i: usize = 0;
                while i < options.len()
                    invariant
                        0 <= i <= options@.len(),
                    decreases options.len() - i,
                {
                    values.push(options[i].value.clone());
                    i = i + 1;
                }
                self.declare_enum(name.value.as_str(), values, name.location.duplicate())?;
                Ok(())
            },
            Stmt::Struct { .. } => self.check_struct_decl(stmt),
            Stmt::Break { location } => {
                if self.loop_depth == 0 {
                    return Err(
                        AnalyserError::SemanticError {
                            location: location.duplicate(),
                            message: String::from_str(
                                "Semantic Error: Break statement must be in a while loop statement",
                            ),
                        },
                    );
                }
                Ok(())
            },
            Stmt::Extern { .. } => self.check_extern(stmt),
            Stmt::Constant { .. } => self.check_constant(stmt),
            Stmt::Assignment { .. } => self.check_assignment(stmt),
            Stmt::DerefReassignment { target, expr } => {
                let target_resolved_type = self.check_expr(target, None)?;
                let expr_type = self.check_expr(expr, Some(&target_resolved_type))?;
                if !types_equal(&target_resolved_type, &expr_type) {
                    let a = type_to_string(&expr_type);
                    let b = type_to_string(&target_resolved_type);
                    return Err(
                        AnalyserError::type_error(
                            expr.span.duplicate(),
                            msg5(
                                "Cannot assign type '",
                                a.as_str(),
                                "' to target location of type '",
                                b.as_str(),
                                "'",
                            ),
                        ),
                    );
                }
                Ok(())
            },
            Stmt::Reassignment { ident, expr } => {
                let expected_ty = match self.resolve_variable(ident.value.as_str()) {
                    Some(symbol) => clone_type(&symbol.ty),
                    None => {
                        return Err(
                            AnalyserError::semantic_error(
                                ident.location.duplicate(),
                                msg3("Cannot reassign to undefined variable '", ident.value.as_str(), "'"),
                            ),
                        );
                    },
                };
                let expr_type = self.check_expr(expr, Some(&expected_ty))?;
                if !types_equal(&expected_ty, &expr_type) {
                    let a = type_to_string(&expr_type);
                    let b = type_to_string(&expected_ty);
                    return Err(
                        AnalyserError::type_error(
                            expr.span.duplicate(),
                            msg7(
                                "Cannot assign type '",
                                a.as_str(),
                                "' to variable '",
                                ident.value.as_str(),
                                "' of type '",
                                b.as_str(),
                                "'",
                            ),
                        ),
                    );
                }
                Ok(())
            },
            Stmt::Expr(expr) => {
                self.check_expr(expr, None)?;
                Ok(())
            },
            Stmt::While { .. } => self.check_while(stmt, mode),
            Stmt::For { .. } => self.check_for(stmt, mode),
            Stmt::ForIn { .. } => self.check_for_in(stmt, mode),
            Stmt::If { .. } => self.check_if(stmt, mode),
            Stmt::Function { .. } => self.check_function(stmt, mode),
            Stmt::Return { value, span } => {
                let expected = match &self.current_return_type {
                    Some(t) => clone_type(t),
                    None => {
                        return Err(
                            AnalyserError::SemanticError {
                                location: span.duplicate(),
                                message: String::from_str("Semantic Error: 'return' used outside of a function"),
                            },
                        );
                    },
                };
                let actual_type = match value {
                    Some(e) => self.check_expr(e, Some(&expected))?,
                    None => Type::Void,
                };
                if !types_equal(&expected, &actual_type) {
                    let a = type_to_string(&expected);
                    let b = type_to_string(&actual_type);
                    return Err(
                        AnalyserError::TypeError {
                            location: span.duplicate(),
                            message: msg5("Function expects return type '", a.as_str(), "', found '", b.as_str(), "'"),
                        },
                    );
                }
                Ok(())
            },
        }
    }

    /// Checks a struct declaration: its fields, each named once (a field without a type has
    /// type `any`), are recorded under its name.
    fn check_struct_decl(&mut self, stmt: &Stmt) -> (res: Result<(), AnalyserError>)
        requires
            old(self).wf(),
            stmt_no_use(*stmt),
            stmt is Struct,
        ensures
            final(self).wf(),
            res is Ok ==> final(self).keeps_outer(&*old(self)),
            stmt matches Stmt::Struct { name, .. } ==> (old(self).structs.lookup(name.value@) is Some ==> res is Err) && (
            res is Ok ==> final(self).structs.lookup(name.value@) is Some),
            stmt matches Stmt::Struct { name, fields, .. } ==> (old(self).structs.lookup(name.value@) is None
                && distinct_param_names(fields@) ==> (res is Ok && (final(self).structs.lookup(name.value@) matches Some(
                sig,
            ) && crate::utils::fieldmap::field_entries(sig.fields) == declared_fields(fields@)))),
        decreases old(self).body_budget, 1int, stmt, 0int,
    {
        let (name, generic_params, fields) = match stmt {
            Stmt::Struct { name, generic_params, fields } => (name, generic_params, fields),
            _ => {
                proof {
                    assert(false);
                }
                return Ok(());
            },
        };
        let mut struct_fields = new_field_map();
        let mut prev_generic_params = duplicate_strings(generic_params);
        std::mem::swap(&mut self.current_generic_params, &mut prev_generic_params);
        let mut i: usize = 0;
        while i < fields.len()
            invariant
                0 <= i <= fields@.len(),
                crate::utils::fieldmap::distinct_names(crate::utils::fieldmap::field_entries(struct_fields)),
                self.wf(),
                self.scopes == old(self).scopes,
                self.loop_depth == old(self).loop_depth,
                self.current_return_type == old(self).current_return_type,
                self.body_budget == old(self).body_budget,
                prev_generic_params == old(self).current_generic_params,
                self.structs == old(self).structs,
                stmt matches Stmt::Struct { fields: fs, .. } && fs@ == fields@,
                distinct_param_names(fields@) ==> crate::utils::fieldmap::field_entries(struct_fields)
                    == declared_fields(fields@.take(i as int)),
            decreases fields.len() - i,
        {
            let field = &fields[i];
            let ghost before = crate::utils::fieldmap::field_entries(struct_fields);
            proof {
                if distinct_param_names(fields@) {
                    assert forall|j: int| 0 <= j < before.len() implies before[j].0 != fields@[i as int].name.value@ by {
                        assert(before[j].0 == fields@[j].name.value@);
                    }
                    assert(crate::utils::fieldmap::position_of(before, fields@[i as int].name.value@) is None);
                }
            }
            let field_type = match &field.ptype {
                Some(t) => clone_type(t),
                None => Type::Any,
            };
            if field_get(&struct_fields, field.name.value.as_str()).is_some() {
                return Err(
                    AnalyserError::SemanticError {
                        location: field.name.location.duplicate(),
                        message: msg5(
                            "Semantic Error: Struct '",
                            name.value.as_str(),
                            "' contains duplicate field '",
                            field.name.value.as_str(),
                            "'",
                        ),
                    },
                );
            }
            insert_field(&mut struct_fields, field.name.value.clone(), field_type);
            proof {
                if distinct_param_names(fields@) {
                    assert(crate::utils::fieldmap::field_entries(struct_fields) =~= declared_fields(
                        fields@.take(i + 1),
                    ));
                }
            }
            i = i + 1;
        }
        proof {
            assert(fields@.take(fields@.len() as int) =~= fields@);
        }
        self.declare_struct(
            name.value.as_str(),
            duplicate_strings(generic_params),
            struct_fields,
            name.location.duplicate(),
        )?;
        std::mem::swap(&mut self.current_generic_params, &mut prev_generic_params);
        Ok(())
    }

    /// Checks an external function declaration and records its signature (which may be
    /// declared again).
    fn check_extern(&mut self, stmt: &Stmt) -> (res: Result<(), AnalyserError>)
        requires
            old(self).wf(),
            stmt_no_use(*stmt),
            stmt is Extern,
        ensures
            final(self).wf(),
            res is Ok ==> final(self).keeps_outer(&*old(self)),
            stmt matches Stmt::Extern { name, .. } ==> (res is Ok ==> final(self).functions.lookup(name.value@) is Some),
        decreases old(self).body_budget, 1int, stmt, 0int,
    {
        let (name, rttype, generic_params, params) = match stmt {
            Stmt::Extern { name, rttype, generic_params, params } => (name, rttype, generic_params, params),
            _ => {
                proof {
                    assert(false);
                }
                return Ok(());
            },
        };
        let return_type = match rttype {
            Some(rt) => {
                if !pack_free(rt) {
                    return Err(pack_error(&name.location));
                }
                let instantiated = self.instantiate_generic_types(rt, &name.location)?;
                self.validate_type_exists(&instantiated, &name.location)?;
                instantiated
            },
            None => Type::Void,
        };
        let ghost mid = *self;
        let mut prev_generic_params = duplicate_strings(generic_params);
        std::mem::swap(&mut self.current_generic_params, &mut prev_generic_params);
        let mut param_types: Vec<Type> = Vec::new();
        let mut is_variadic = false;
        let mut variadic_param: Option<String> = None;
        let mut i: usize = 0;
        while i < params.len()
            invariant
                0 <= i <= params@.len(),
                self.wf(),
                self.scopes == mid.scopes,
                self.loop_depth == mid.loop_depth,
                self.current_return_type == mid.current_return_type,
                self.body_budget == mid.body_budget,
                prev_generic_params == mid.current_generic_params,
            decreases params.len() - i,
        {
            let param = &params[i];
            if param.is_variadic {
                is_variadic = true;
                variadic_param = Some(param.name.value.clone());
            } else {
                let ptype = match &param.ptype {
                    Some(pt) => {
                        if !pack_free(pt) {
                            return Err(pack_error(&param.name.location));
                        }
                        let instantiated = self.instantiate_generic_types(pt, &param.name.location)?;
                        self.validate_type_exists(&instantiated, &param.name.location)?;
                        instantiated
                    },
                    None => Type::Any,
                };
                param_types.push(ptype);
            }
            i = i + 1;
        }
        std::mem::swap(&mut self.current_generic_params, &mut prev_generic_params);
        self.declare_function(
            name.value.as_str(),
            duplicate_strings(generic_params),
            true,
            param_types,
            is_variadic,
            variadic_param,
            return_type,
            name.location.duplicate(),
            true,
        )?;
        Ok(())
    }

    /// Checks a constant: only outside functions, its value of its declared type if any,
    /// and its name not taken by another constant.
    fn check_constant(&mut self, stmt: &Stmt) -> (res: Result<(), AnalyserError>)
        requires
            old(self).wf(),
            stmt_no_use(*stmt),
            stmt is Constant,
        ensures
            final(self).wf(),
            res is Ok ==> final(self).keeps_outer(&*old(self)),
            stmt matches Stmt::Constant { name, .. } ==> (old(self).current_return_type is Some ==> (res matches Err(
                AnalyserError::SemanticError { location, message },
            ) && location.view() == name.location.view() && message@ == "Semantic Error: Constant '"@ + name.value@
                + "' cannot be defined inside a function."@)) && (res is Ok ==> final(self).constants.lookup(
                name.value@,
            ) is Some),
        decreases old(self).body_budget, 1int, stmt, 0int,
    {
        let (name, vtype, expr) = match stmt {
            Stmt::Constant { name, vtype, expr } => (name, vtype, expr),
            _ => {
                proof {
                    assert(false);
                }
                return Ok(());
            },
        };
        if self.current_return_type.is_some() {
            return Err(
                AnalyserError::SemanticError {
                    location: name.location.duplicate(),
                    message: msg3(
                        "Semantic Error: Constant '",
                        name.value.as_str(),
                        "' cannot be defined inside a function.",
                    ),
                },
            );
        }
        let const_type = match vtype {
            Some(explicit_type) => {
                if !pack_free(explicit_type) {
                    return Err(pack_error(&name.location));
                }
                let instantiated = self.instantiate_generic_types(explicit_type, &name.location)?;
                self.validate_type_exists(&instantiated, &name.location)?;
                let expr_type = self.check_expr(expr, Some(&instantiated))?;
                if !types_equal(&instantiated, &expr_type) {
                    let a = type_to_string(&instantiated);
                    let b = type_to_string(&expr_type);
                    return Err(
                        AnalyserError::TypeError {
                            location: expr.span.duplicate(),
                            message: msg7(
                                "Type Error: Constant '",
                                name.value.as_str(),
                                "' declared as '",
                                a.as_str(),
                                "' but initialiser has type '",
                                b.as_str(),
                                "'",
                            ),
                        },
                    );
                }
                instantiated
            },
            None => self.check_expr(expr, None)?,
        };
        if self.constants.contains_key(name.value.as_str()) {
            return Err(
                AnalyserError::SemanticError {
                    location: name.location.duplicate(),
                    message: msg3("Semantic Error: Constant '", name.value.as_str(), "' already defined."),
                },
            );
        }
        self.constants.insert(name.value.clone(), (const_type, expr.duplicate()));
        Ok(())
    }

    /// Checks `var name: type = value`: with a type, the value must have it; without, the
    /// value gives it. A variable already visible must keep its type; else it is declared.
    fn check_assignment(&mut self, stmt: &Stmt) -> (res: Result<(), AnalyserError>)
        requires
            old(self).wf(),
            stmt_no_use(*stmt),
            stmt is Assignment,
        ensures
            final(self).wf(),
            res is Ok ==> final(self).keeps_outer(&*old(self)),
            stmt matches Stmt::Assignment { ident, vtype, expr } ==> (vtype is None && expr is None ==> (res matches Err(
                AnalyserError::SemanticError { location, message },
            ) && location.view() == ident.location.view() && message@ == "Variable '"@ + ident.value@
                + "' declared without an explicit type or initializer expression."@)) && (res is Ok ==> final(self).var_type(ident.value@) is Some),
            stmt matches Stmt::Assignment { ident, vtype: None, expr: Some(e) } ==> (e.kind matches ExprKind::Literal(l)
                ==> (!(l is Arr) && old(self).var_type(ident.value@) is None ==> res is Ok && final(self).var_type(
                ident.value@,
            ) == Some(literal_type(l, None)))),
        decreases old(self).body_budget, 1int, stmt, 0int,
    {
        let (ident, vtype, expr) = match stmt {
            Stmt::Assignment { ident, vtype, expr } => (ident, vtype, expr),
            _ => {
                proof {
                    assert(false);
                }
                return Ok(());
            },
        };
        let variable_type = match (vtype, expr) {
            (Some(explicit_type), Some(expr_node)) => {
                if !pack_free(explicit_type) {
                    return Err(pack_error(&ident.location));
                }
                let instantiated = self.instantiate_generic_types(explicit_type, &ident.location)?;
                self.validate_type_exists(&instantiated, &ident.location)?;
                let expr_type = self.check_expr(expr_node, Some(&instantiated))?;
                if !types_equal(&instantiated, &expr_type) {
                    let a = type_to_string(&instantiated);
                    let b = type_to_string(&expr_type);
                    return Err(
                        AnalyserError::type_error(
                            expr_node.span.duplicate(),
                            msg7(
                                "Variable '",
                                ident.value.as_str(),
                                "' declared as '",
                                a.as_str(),
                                "' but assigned type '",
                                b.as_str(),
                                "'",
                            ),
                        ),
                    );
                }
                instantiated
            },
            (Some(explicit_type), None) => {
                if !pack_free(explicit_type) {
                    return Err(pack_error(&ident.location));
                }
                let instantiated = self.instantiate_generic_types(explicit_type, &ident.location)?;
                self.validate_type_exists(&instantiated, &ident.location)?;
                instantiated
            },
            (None, Some(expr_node)) => self.check_expr(expr_node, None)?,
            (None, None) => {
                return Err(
                    AnalyserError::semantic_error(
                        ident.location.duplicate(),
                        msg3(
                            "Variable '",
                            ident.value.as_str(),
                            "' declared without an explicit type or initializer expression.",
                        ),
                    ),
                );
            },
        };
        match self.resolve_variable(ident.value.as_str()) {
            Some(existing_symbol) => {
                if !types_equal(&existing_symbol.ty, &variable_type) {
                    let a = type_to_string(&variable_type);
                    let b = type_to_string(&existing_symbol.ty);
                    return Err(
                        AnalyserError::type_error(
                            ident.location.duplicate(),
                            msg7(
                                "Cannot reassign type '",
                                a.as_str(),
                                "' to variable '",
                                ident.value.as_str(),
                                "' of type '",
                                b.as_str(),
                                "'",
                            ),
                        ),
                    );
                }
            },
            None => {
                proof {
                    assert(self.scopes@.len() > 0);
                    assert(self.scopes@.last().symbols.lookup(ident.value@) is None);
                }
                self.declare_variable(ident.value.as_str(), variable_type, ident.location.duplicate())?;
            },
        }
        Ok(())
    }

    /// Checks `while (cond) { body }`: a truthy condition, and the body in a scope of its
    /// own, inside a loop.
    fn check_while(&mut self, stmt: &Stmt, mode: TypeCheckMode) -> (res: Result<(), AnalyserError>)
        requires
            old(self).wf(),
            stmt_no_use(*stmt),
            stmt is While,
        ensures
            final(self).wf(),
            res is Ok ==> final(self).keeps_outer(&*old(self)),
            stmt matches Stmt::While { cond, body } ==> match cond.kind {
                ExprKind::Literal(l) => !(l is Arr) ==> (res is Ok ==> is_truthy_v(literal_type(l, None))) && (
                body@.len() == 0 ==> (res is Ok <==> is_truthy_v(literal_type(l, None)))),
                _ => true,
            },
            stmt matches Stmt::While { cond, body } ==> (cond.kind matches ExprKind::Literal(l) ==> (!(l is Arr)
                && is_truthy_v(literal_type(l, None)) && body@.len() == 1 ==> (literal_decl(body@[0]) matches Some((n, t))
                ==> (old(self).var_type(n) is None ==> res is Ok)))),
        decreases old(self).body_budget, 1int, stmt, 0int,
    {
        let (cond, body) = match stmt {
            Stmt::While { cond, body } => (cond, body),
            _ => {
                proof {
                    assert(false);
                }
                return Ok(());
            },
        };
        let cond_type = self.check_expr(cond, None)?;
        if !self.check_truthiness(&cond_type) {
            let t = type_to_string(&cond_type);
            return Err(
                AnalyserError::type_error(
                    cond.span.duplicate(),
                    msg3("'while' condition is not truthy, found '", t.as_str(), "'"),
                ),
            );
        }
        let ghost before_scope = *self;
        self.enter_scope();
        let ghost after_enter = *self;
        let bumped = self.loop_depth < usize::MAX;
        if bumped {
            self.loop_depth = self.loop_depth + 1;
        }
        proof {
            assert(before_scope.scopes@ == old(self).scopes@);
            assert(self.scopes == after_enter.scopes);
            assert forall|k: Seq<char>| #[trigger] self.var_type(k) == old(self).var_type(k) by {
                assert(after_enter.var_type(k) == before_scope.var_type(k));
                assert(before_scope.var_type(k) == old(self).var_type(k));
            }
        }
        self.check_block(body, mode)?;
        self.leave_scope();
        if bumped {
            self.loop_depth = self.loop_depth - 1;
        }
        Ok(())
    }

    /// Checks `for (init; cond; step) { body }` in a scope of its own: the start, a truthy
    /// condition, the body and the step.
    fn check_for(&mut self, stmt: &Stmt, mode: TypeCheckMode) -> (res: Result<(), AnalyserError>)
        requires
            old(self).wf(),
            stmt_no_use(*stmt),
            stmt is For,
        ensures
            final(self).wf(),
            res is Ok ==> final(self).keeps_outer(&*old(self)),
            stmt matches Stmt::For { cond, .. } ==> match cond.kind {
                ExprKind::Literal(l) => !(l is Arr) ==> (res is Ok ==> is_truthy_v(literal_type(l, None))),
                _ => true,
            },
        decreases old(self).body_budget, 1int, stmt, 0int,
    {
        let (init, cond, step, body) = match stmt {
            Stmt::For { init, cond, step, body } => (init, cond, step, body),
            _ => {
                proof {
                    assert(false);
                }
                return Ok(());
            },
        };
        self.enter_scope();
        self.check_stmt(init, mode)?;
        let cond_type = self.check_expr(cond, None)?;
        if !self.check_truthiness(&cond_type) {
            self.leave_scope();
            let t = type_to_string(&cond_type);
            return Err(
                AnalyserError::type_error(
                    cond.span.duplicate(),
                    msg3("'for' condition is not truthy, found '", t.as_str(), "'"),
                ),
            );
        }
        self.check_block(body, mode)?;
        self.check_stmt(step, mode)?;
        self.leave_scope();
        Ok(())
    }

    /// Checks `for x in target { body }`: over a pack, the body once per element type (or
    /// once with `any` for an empty pack); over a struct, with the type of its first field.
    fn check_for_in(&mut self, stmt: &Stmt, mode: TypeCheckMode) -> (res: Result<(), AnalyserError>)
        requires
            old(self).wf(),
            stmt_no_use(*stmt),
            stmt is ForIn,
        ensures
            final(self).wf(),
            res is Ok ==> final(self).keeps_outer(&*old(self)),
            stmt matches Stmt::ForIn { target_expr, .. } ==> match target_expr.kind {
                ExprKind::Literal(l) => !(l is Arr) ==> (res matches Err(AnalyserError::TypeError { location, message })
                    && location.view() == target_expr.span.view() && message@ == "Type '"@ + type_text(
                    literal_type(l, None),
                ) + "' is not iterable."@),
                _ => true,
            },
        decreases old(self).body_budget, 1int, stmt, 0int,
    {
        let (field_ident, target_expr, body) = match stmt {
            Stmt::ForIn { field_ident, target_expr, body } => (field_ident, target_expr, body),
            _ => {
                proof {
                    assert(false);
                }
                return Ok(());
            },
        };
        let target_type = self.check_expr(target_expr, None)?;
        if let Type::VariadicPack { types, .. } = &target_type {
            let iter_types: Vec<Type> = if types.len() == 0 {
                let mut v: Vec<Type> = Vec::new();
                v.push(Type::Any);
                v
            } else {
                clone_types(types)
            };
            let ghost start = *self;
            let mut i: usize = 0;
            while i < iter_types.len()
                invariant
                    0 <= i <= iter_types@.len(),
                    self.wf(),
                    self.keeps_outer(&start),
                    start.keeps_outer(&*old(self)),
                    *stmt == (Stmt::ForIn {
                        field_ident: *field_ident,
                        target_expr: *target_expr,
                        body: *body,
                    }),
                    stmts_no_use(body@),
                    !(target_expr.kind matches ExprKind::Literal(l) && !(l is Arr)),
                decreases iter_types.len() - i,
            {
                self.enter_scope();
                self.declare_variable(field_ident.value.as_str(), clone_type(&iter_types[i]), field_ident.location.duplicate())?;
                let bumped = self.loop_depth < usize::MAX;
                if bumped {
                    self.loop_depth = self.loop_depth + 1;
                }
                proof {
                    assert(decreases_to!(stmt => stmt->ForIn_body));
                }
                self.check_block(body, mode)?;
                if bumped {
                    self.loop_depth = self.loop_depth - 1;
                }
                self.leave_scope();
                i = i + 1;
            }
            return Ok(());
        }
        if !pack_free(&target_type) {
            return Err(pack_error(&target_expr.span));
        }
        let elements = match iterable_elements(&target_type, &self.structs) {
            Some(e) => e,
            None => {
                let t = type_to_string(&target_type);
                return Err(
                    AnalyserError::type_error(
                        target_expr.span.duplicate(),
                        msg3("Type '", t.as_str(), "' is not iterable."),
                    ),
                );
            },
        };
        self.enter_scope();
        let element_type = if elements.len() > 0 {
            clone_type(&elements[0].1)
        } else {
            return Err(
                AnalyserError::type_error(
                    target_expr.span.duplicate(),
                    String::from_str("Cannot infer the element type of an empty iterable."),
                ),
            );
        };
        self.declare_variable(field_ident.value.as_str(), element_type, field_ident.location.duplicate())?;
        let bumped = self.loop_depth < usize::MAX;
        if bumped {
            self.loop_depth = self.loop_depth + 1;
        }
        self.check_block(body, mode)?;
        if bumped {
            self.loop_depth = self.loop_depth - 1;
        }
        self.leave_scope();
        Ok(())
    }

    /// Checks `if`, its `else if` branches and its `else`: truthy conditions, and each body
    /// in a scope of its own, but a body whose condition is statically false.
    fn check_if(&mut self, stmt: &Stmt, mode: TypeCheckMode) -> (res: Result<(), AnalyserError>)
        requires
            old(self).wf(),
            stmt_no_use(*stmt),
            stmt is If,
        ensures
            final(self).wf(),
            res is Ok ==> final(self).keeps_outer(&*old(self)),
            stmt matches Stmt::If { cond, .. } ==> match cond.kind {
                ExprKind::Literal(l) => !(l is Arr) ==> (res is Ok ==> is_truthy_v(literal_type(l, None))),
                _ => true,
            },
            stmt matches Stmt::If { cond, then_branch, else_if_branches, else_branch } ==> (cond.kind matches ExprKind::Literal(l)
                ==> (!(l is Arr) ==> (!is_truthy_v(literal_type(l, None)) ==> (res matches Err(
                AnalyserError::TypeError { location, message },
            ) && location.view() == cond.span.view() && message@ == "'if' condition is not truthy, found '"@
                + type_text(literal_type(l, None)) + "'"@)) && (is_truthy_v(literal_type(l, None))
                && then_branch@.len() == 0 && else_if_branches@.len() == 0 && (else_branch matches Some(e) ==> e@.len()
                == 0) ==> res is Ok))),
        decreases old(self).body_budget, 1int, stmt, 0int,
    {
        let (cond, then_branch, else_if_branches, else_branch) = match stmt {
            Stmt::If { cond, then_branch, else_if_branches, else_branch } => (
                cond,
                then_branch,
                else_if_branches,
                else_branch,
            ),
            _ => {
                proof {
                    assert(false);
                }
                return Ok(());
            },
        };
        proof {
            lemma_branches_no_use(else_if_branches@);
        }
        let cond_type = self.check_expr(cond, None)?;
        if !self.check_truthiness(&cond_type) {
            let t = type_to_string(&cond_type);
            return Err(
                AnalyserError::type_error(
                    cond.span.duplicate(),
                    msg3("'if' condition is not truthy, found '", t.as_str(), "'"),
                ),
            );
        }
        if !self.evaluates_statically_to_false(cond)? {
            self.enter_scope();
            self.check_block(then_branch, mode)?;
            self.leave_scope();
        }
        let ghost start = *self;
        let mut i: usize = 0;
        while i < else_if_branches.len()
            invariant
                0 <= i <= else_if_branches@.len(),
                self.wf(),
                self.keeps_context(&start),
                start.keeps_outer(&*old(self)),
                cond.kind matches ExprKind::Literal(l) ==> (!(l is Arr) ==> is_truthy_v(literal_type(l, None))),
                i == 0 ==> *self == start,
                forall|j: int| 0 <= j < else_if_branches@.len() ==> #[trigger] stmts_no_use(else_if_branches@[j].1@),
                *stmt == (Stmt::If {
                    cond: *cond,
                    then_branch: *then_branch,
                    else_if_branches: *else_if_branches,
                    else_branch: *else_branch,
                }),
            decreases else_if_branches.len() - i,
        {
            let c = &else_if_branches[i].0;
            let b = &else_if_branches[i].1;
            proof {
                let bs = stmt->If_else_if_branches;
                assert(decreases_to!(stmt => bs));
                assert(decreases_to!(bs => bs@));
                assert(decreases_to!(bs@ => bs@[i as int]));
                assert(decreases_to!(bs@[i as int] => bs@[i as int].1));
            }
            let c_type = self.check_expr(c, None)?;
            if !self.check_truthiness(&c_type) {
                let t = type_to_string(&c_type);
                return Err(
                    AnalyserError::type_error(
                        c.span.duplicate(),
                        msg3("'elseif' condition is not truthy, found '", t.as_str(), "'"),
                    ),
                );
            }
            if !self.evaluates_statically_to_false(c)? {
                self.enter_scope();
                self.check_block(b, mode)?;
                self.leave_scope();
            }
            i = i + 1;
        }
        if let Some(else_stmts) = else_branch {
            self.enter_scope();
            self.check_block(else_stmts, mode)?;
            self.leave_scope();
        }
        Ok(())
    }

    /// Checks a function: its signature is recorded (its body too, for later instantiation)
    /// and its body checked in a scope holding its parameters; a function with a return
    /// type must contain a `return` at the top of its body.
    fn check_function(&mut self, stmt: &Stmt, mode: TypeCheckMode) -> (res: Result<(), AnalyserError>)
        requires
            old(self).wf(),
            stmt_no_use(*stmt),
            stmt is Function,
        ensures
            final(self).wf(),
            res is Ok ==> final(self).keeps_outer(&*old(self)),
            stmt matches Stmt::Function { rttype, body, .. } ==> (rttype matches Some(rt) && (rt@ is Int || rt@ is Bool
                || rt@ is Str || rt@ is Char) ==> (res is Ok ==> exists|m: int| 0 <= m < body@.len() && #[trigger] body@[m] is Return)),
            stmt matches Stmt::Function { name, rttype, generic_params, params, body, .. } ==> match rttype {
                Some(rt) => (rt@ is Int || rt@ is Bool || rt@ is Str || rt@ is Char) && generic_params@.len() == 0
                    && params@.len() == 0 && body@.len() == 0 && old(self).functions.lookup(name.value@) is None ==> (
                res matches Err(AnalyserError::TypeError { location, message }) && location.view()
                    == name.location.view() && message@ == "Type Error: Function '"@ + name.value@
                    + "' must return a value of type '"@ + type_text(rt@) + "'"@),
                None => true,
            },
            simple_fn_decl(*stmt) matches Some(n) ==> (old(self).functions.lookup(n) is None ==> res is Ok),
            simple_fn_decl(*stmt) matches Some(n) ==> (res is Ok ==> final(self).functions.lookup(n) is Some && forall|
                k: Seq<char>,
            | k != n ==> #[trigger] final(self).functions.lookup(k) == old(self).functions.lookup(k)),
        decreases old(self).body_budget, 1int, stmt, 0int,
    {
        let (name, public, rttype, generic_params, params, body) = match stmt {
            Stmt::Function { name, public, rttype, generic_params, params, body } => (
                name,
                *public,
                rttype,
                generic_params,
                params,
                body,
            ),
            _ => {
                proof {
                    assert(false);
                }
                return Ok(());
            },
        };
        let is_generic = generic_params.len() > 0;
        let return_type = match rttype {
            Some(rt) => {
                if is_generic {
                    clone_type(rt)
                } else {
                    if !pack_free(rt) {
                        return Err(pack_error(&name.location));
                    }
                    let instantiated = self.instantiate_generic_types(rt, &name.location)?;
                    self.validate_type_exists(&instantiated, &name.location)?;
                    instantiated
                }
            },
            None => Type::Void,
        };
        let ghost mid = *self;
        let mut prev_generic_params = duplicate_strings(generic_params);
        std::mem::swap(&mut self.current_generic_params, &mut prev_generic_params);
        let mut param_types: Vec<Type> = Vec::new();
        let mut is_variadic = false;
        let mut variadic_param: Option<String> = None;
        let mut i: usize = 0;
        while i < params.len()
            invariant
                0 <= i <= params@.len(),
                self.wf(),
                self.scopes == mid.scopes,
                self.loop_depth == mid.loop_depth,
                self.current_return_type == mid.current_return_type,
                self.body_budget == mid.body_budget,
                prev_generic_params == mid.current_generic_params,
                mid.keeps_context(&*old(self)),
                stmt matches Stmt::Function { params: ps, .. } && ps@ == params@,
                self.functions == mid.functions,
            decreases params.len() - i,
        {
            let param = &params[i];
            if param.is_variadic {
                is_variadic = true;
                variadic_param = Some(param.name.value.clone());
            } else {
                let ptype = match &param.ptype {
                    Some(pt) => {
                        if is_generic {
                            clone_type(pt)
                        } else {
                            if !pack_free(pt) {
                                return Err(pack_error(&param.name.location));
                            }
                            let instantiated = self.instantiate_generic_types(pt, &param.name.location)?;
                            self.validate_type_exists(&instantiated, &param.name.location)?;
                            instantiated
                        }
                    },
                    None => Type::Any,
                };
                param_types.push(ptype);
            }
            i = i + 1;
        }
        self.function_bodies.insert(name.value.clone(), (duplicate_params(params), duplicate_stmts(body)));
        self.declare_function(
            name.value.as_str(),
            duplicate_strings(generic_params),
            public,
            clone_types(&param_types),
            is_variadic,
            variadic_param,
            clone_type(&return_type),
            name.location.duplicate(),
            false,
        )?;
        self.enter_scope();
        let ghost entered = *self;
        let mut k: usize = 0;
        let mut p: usize = 0;
        while p < params.len()
            invariant
                params@.len() == 0 ==> *self == entered,
                0 <= k <= param_types@.len(),
                0 <= p <= params@.len(),
                self.wf(),
                self.depth() == mid.depth() + 1,
                self.scopes@.drop_last() == mid.scopes@,
                self.loop_depth == mid.loop_depth,
                self.current_return_type == mid.current_return_type,
                self.body_budget == mid.body_budget,
                prev_generic_params == mid.current_generic_params,
                mid.keeps_context(&*old(self)),
                stmt matches Stmt::Function { params: ps, .. } && ps@ == params@,
            decreases params.len() - p,
        {
            if !params[p].is_variadic && k < param_types.len() {
                self.declare_variable(
                    params[p].name.value.as_str(),
                    clone_type(&param_types[k]),
                    params[p].name.location.duplicate(),
                )?;
                k = k + 1;
            }
            p = p + 1;
        }
        let mut q: usize = 0;
        while q < params.len()
            invariant
                0 <= q <= params@.len(),
            decreases params.len() - q,
        {
            if params[q].is_variadic {
                break;
            }
            q = q + 1;
        }
        if q < params.len() {
            self.declare_variable(
                params[q].name.value.as_str(),
                Type::VariadicPack { name: params[q].name.value.clone(), types: Vec::new() },
                params[q].name.location.duplicate(),
            )?;
        }
        let mut prev_return_type = Some(clone_type(&return_type));
        std::mem::swap(&mut self.current_return_type, &mut prev_return_type);
        let body_mode = if is_variadic {
            TypeCheckMode::Passive
        } else {
            mode
        };
        let mut has_return = false;
        let mut j: usize = 0;
        while j < body.len()
            invariant
                0 <= j <= body@.len(),
                has_return == exists|m: int| 0 <= m < j && #[trigger] body@[m] is Return,
            decreases body.len() - j,
        {
            if let Stmt::Return { .. } = &body[j] {
                has_return = true;
            }
            j = j + 1;
        }
        self.check_block(body, body_mode)?;
        std::mem::swap(&mut self.current_return_type, &mut prev_return_type);
        if !matches!(return_type, Type::Void) && !has_return {
            let t = type_to_string(&return_type);
            return Err(
                AnalyserError::TypeError {
                    location: name.location.duplicate(),
                    message: msg5(
                        "Type Error: Function '",
                        name.value.as_str(),
                        "' must return a value of type '",
                        t.as_str(),
                        "'",
                    ),
                },
            );
        }
        std::mem::swap(&mut self.current_generic_params, &mut prev_generic_params);
        self.leave_scope();
        Ok(())
    }

    /// Whether a condition is false whatever the program does: a `typeof(e) == "name"`
    /// whose name is not that of `e`'s type, or a combination of such by `||` and `&&`.
    fn evaluates_statically_to_false(&mut self, cond: &Expr) -> (res: Result<bool, AnalyserError>)
        requires
            old(self).wf(),
        ensures
            final(self).wf(),
            res is Ok ==> final(self).keeps_context(&*old(self)),
            statically_false(*old(self), *cond) matches Some(b) ==> res == Ok::<bool, AnalyserError>(b),
        decreases old(self).body_budget, 0int, cond, 0int,
    {
        match &cond.kind {
            ExprKind::Binary { left, op, right } => match op {
                BinaryOp::Eq => {
                    if let (ExprKind::Typeof { expr }, ExprKind::Literal(Literal::String(target))) = (&left.kind, &right.kind) {
                        let actual_type = self.check_expr(expr, None)?;
                        let t = type_to_string(&actual_type);
                        return Ok(!str_eq(t.as_str(), target.as_str()));
                    }
                    Ok(false)
                },
                BinaryOp::Or => {
                    let left_false = self.evaluates_statically_to_false(left)?;
                    proof {
                        lemma_statically_false_scopes(*self, *old(self), **right);
                    }
                    let right_false = self.evaluates_statically_to_false(right)?;
                    Ok(left_false && right_false)
                },
                BinaryOp::And => {
                    let left_false = self.evaluates_statically_to_false(left)?;
                    proof {
                        lemma_statically_false_scopes(*self, *old(self), **right);
                    }
                    let right_false = self.evaluates_statically_to_false(right)?;
                    Ok(left_false || right_false)
                },
                _ => Ok(false),
            },
            _ => Ok(false),
        }
    }

    /// Checks the statements of a program in order, strictly, stopping at the first
    /// error.
    pub fn analyse(&mut self, program: &Program) -> (res: Result<(), AnalyserError>)
        requires
            old(self).wf(),
            stmts_no_use(program.statements@),
        ensures
            final(self).wf(),
            res is Ok ==> final(self).keeps_outer(&*old(self)),
            program.statements@.len() == 0 ==> res is Ok && *final(self) == *old(self),
            res is Ok ==> forall|j: int|
                0 <= j < program.statements@.len() ==> (#[trigger] program.statements@[j] is Break ==> old(self).loop_depth > 0),
            res is Ok ==> forall|j: int|
                0 <= j < program.statements@.len() ==> (#[trigger] program.statements@[j] is Return ==> old(self).current_return_type is Some),
            program.statements@.len() == 1 ==> (literal_decl(program.statements@[0]) matches Some((n, t)) ==> (old(self).var_type(
                n,
            ) is None ==> (res is Ok && final(self).var_type(n) == Some(t)))),
            program.statements@.len() == 1 ==> (simple_fn_decl(program.statements@[0]) matches Some(n) ==> (old(
                self,
            ).functions.lookup(n) is None ==> res is Ok)),
            all_simple_fns(program.statements@) && distinct_names(simple_fn_names(program.statements@)) && (forall|
                j: int,
            |
                0 <= j < program.statements@.len() ==> #[trigger] old(self).functions.lookup(
                    simple_fn_names(program.statements@)[j],
                ) is None) ==> res is Ok,
    {
        self.check_block(&program.statements, TypeCheckMode::Strict)
    }
}

} // verus!
