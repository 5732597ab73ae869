//! What the compiler driver decides without touching files: error reports (as text, or
//! as records for JSON output), and the names that a program exports and imports.
use crate::parse::parsing::{
    clone_type, lemma_types_view, types_view, Expr, ExprKind, Identifier, Literal, Parameter, ParserError,
    Program, Stmt, Type, TypeV, duplicate_idents, duplicate_params, duplicate_strings, duplicate_stmts,
    stmts_have_no_use,
};
use crate::semantics::analyser::{Analyser, AnalyserError};
use crate::ir::irgen::{
    all_simple_fns, distinct_names, empty_functions_code, lemma_plain_program_same, plain_program, simple_fn_decl,
    simple_fn_names, top_level_declaration, views, IRGen, LowerError,
};
use crate::parse::parsing::stmts_no_use;
use crate::utils::fieldmap::{field_at, field_count, field_entries};
use crate::ir::tac::{instrs_view, Instruction, InstructionV, ValueV};
use crate::utils::ats::{ATDependency, ATInfo, SymbolType};
use crate::utils::location::Location;
use crate::utils::strmap::StrMap;
use crate::utils::text::{
    concat, concat3, contains_string, dec, lines_of, spaces, spaces_string, split_lines, str_eq,
    usize_to_string,
};
use crate::backend::clback::before_char;
use vstd::prelude::*;
use vstd::set_lib::{lemma_int_range, lemma_len_subset, set_int_range};
use vstd::string::*;

verus! {

/// An error as reported in JSON: where it is, its message, and its severity.
#[derive(Debug)]
pub struct JsonError {
    pub file: String,
    pub line: usize,
    pub column: usize,
    pub message: String,
    pub severity: String,
}

/// The JSON record of a parser error.
pub fn json_error_from_parser_error(err: &ParserError) -> (res: JsonError)
    ensures
        res.file@ == err.location.file@,
        res.line == err.location.line,
        res.column == err.location.col,
        res.message@ == err.message@,
        res.severity@ == "error"@,
{
    JsonError {
        file: err.location.file.clone(),
        line: err.location.line,
        column: err.location.col,
        message: err.message.clone(),
        severity: String::from_str("error"),
    }
}

/// The JSON record of an error that has a file but no position in it.
pub fn json_error_from_string(file: &str, message: &str) -> (res: JsonError)
    ensures
        res.file@ == file@,
        res.line == 0,
        res.column == 0,
        res.message@ == message@,
        res.severity@ == "error"@,
{
    JsonError {
        file: String::from_str(file),
        line: 0,
        column: 0,
        message: String::from_str(message),
        severity: String::from_str("error"),
    }
}

/// Where an analyser error was found.
pub open spec fn analyser_error_location(e: AnalyserError) -> Location {
    match e {
        AnalyserError::TypeError { location, .. } => location,
        AnalyserError::SemanticError { location, .. } => location,
        AnalyserError::OverDefinitionError { location, .. } => location,
    }
}

/// The message of an analyser error.
pub open spec fn analyser_error_message(e: AnalyserError) -> String {
    match e {
        AnalyserError::TypeError { message, .. } => message,
        AnalyserError::SemanticError { message, .. } => message,
        AnalyserError::OverDefinitionError { message, .. } => message,
    }
}

/// The location and the message of an analyser error.
fn analyser_error_parts(err: &AnalyserError) -> (res: (&Location, &String))
    ensures
        *res.0 == analyser_error_location(*err),
        *res.1 == analyser_error_message(*err),
{
    match err {
        AnalyserError::TypeError { location, message } => (location, message),
        AnalyserError::SemanticError { location, message } => (location, message),
        AnalyserError::OverDefinitionError { location, message } => (location, message),
    }
}

/// The JSON record of an analyser error.
pub fn json_error_from_analyser_error(err: &AnalyserError) -> (res: JsonError)
    ensures
        res.file@ == analyser_error_location(*err).file@,
        res.line == analyser_error_location(*err).line,
        res.column == analyser_error_location(*err).col,
        res.message@ == analyser_error_message(*err)@,
        res.severity@ == "error"@,
{
    let (location, message) = analyser_error_parts(err);
    JsonError {
        file: location.file.clone(),
        line: location.line,
        column: location.col,
        message: message.clone(),
        severity: String::from_str("error"),
    }
}

/// The line of `lines` numbered `line_num` from 1, or nothing if there is none.
pub open spec fn numbered_line(lines: Seq<Seq<char>>, line_num: int) -> Seq<char> {
    if 0 < line_num <= lines.len() {
        lines[line_num - 1]
    } else {
        Seq::empty()
    }
}

/// An error report pointing into a source: the place, the source line, a caret under the
/// column, and the message.
pub open spec fn located_error_text(
    file: Seq<char>,
    line_num: usize,
    column: usize,
    message: Seq<char>,
    lines: Seq<Seq<char>>,
) -> Seq<char> {
    "  --> "@ + file + ":"@ + dec(line_num as nat) + ":"@ + dec(column as nat) + "\n      "@
        + numbered_line(lines, line_num as int) + "\n      "@ + spaces(
        (if column > 0 {
            column - 1
        } else {
            0
        }) as nat,
    ) + "^"@ + "\n      "@ + message
}

/// The lines of an optional source: none without a source.
pub open spec fn source_lines(source: Option<Seq<char>>) -> Seq<Seq<char>> {
    match source {
        Some(s) => lines_of(s),
        None => Seq::empty(),
    }
}

/// The report of an error at a line and a column of a file, with the source line shown
/// when the source is at hand.
pub fn format_error_with_location(
    file_path: &str,
    line_num: usize,
    column: usize,
    message: &str,
    source: Option<&str>,
) -> (res: String)
    ensures
        res@ == located_error_text(
            file_path@,
            line_num,
            column,
            message@,
            source_lines(
                match source {
                    Some(s) => Some(s@),
                    None => None,
                },
            ),
        ),
{
    let lines: Vec<String> = match source {
        Some(s) => split_lines(s),
        None => Vec::new(),
    };
    let ghost lv = lines@.map_values(|l: String| l@);
    assert(lv == source_lines(
        match source {
            Some(s) => Some(s@),
            None => None,
        },
    ));
    let ln = located_line(&lines, line_num);
    let offset: usize = if column > 0 {
        column - 1
    } else {
        0
    };
    located_report(file_path, line_num, column, ln.as_str(), offset, message)
}

/// The line numbered `line_num` from 1 among `lines`, or nothing.
fn located_line(lines: &Vec<String>, line_num: usize) -> (res: String)
    ensures
        res@ == numbered_line(lines@.map_values(|l: String| l@), line_num as int),
{
    if line_num > 0 && line_num <= lines.len() {
        lines[line_num - 1].clone()
    } else {
        String::new()
    }
}

/// Puts a located report together.
fn located_report(
    file_path: &str,
    line_num: usize,
    column: usize,
    source_line: &str,
    offset: usize,
    message: &str,
) -> (res: String)
    ensures
        res@ == "  --> "@ + file_path@ + ":"@ + dec(line_num as nat) + ":"@ + dec(column as nat)
            + "\n      "@ + source_line@ + "\n      "@ + spaces(offset as nat) + "^"@ + "\n      "@
            + message@,
{
    let line_text = usize_to_string(line_num);
    let col_text = usize_to_string(column);
    let pad = spaces_string(offset);
    let mut out = String::from_str("  --> ");
    out.append(file_path);
    out.append(":");
    out.append(line_text.as_str());
    out.append(":");
    out.append(col_text.as_str());
    out.append("\n      ");
    out.append(source_line);
    out.append("\n      ");
    out.append(pad.as_str());
    out.append("^");
    out.append("\n      ");
    out.append(message);
    out
}

/// The report of an error about a file as a whole.
pub fn format_simple_error(file_path: &str, message: &str) -> (res: String)
    ensures
        res@ == "  --> "@ + file_path@ + "\n      "@ + message@,
{
    let a = concat3("  --> ", file_path, "\n      ");
    concat(a.as_str(), message)
}

/// The report of an error about a module.
pub fn format_module_error(module_name: &str, message: &str) -> (res: String)
    ensures
        res@ == "  --> module '"@ + module_name@ + "'\n      "@ + message@,
{
    let a = concat3("  --> module '", module_name, "'\n      ");
    concat(a.as_str(), message)
}

/// The report of one parser error against the lines of the source.
pub open spec fn parser_error_text(e: ParserError, lines: Seq<Seq<char>>) -> Seq<char> {
    located_error_text(e.location.file@, e.location.line, e.location.col, e.message@, lines)
}

/// The reports of the parser errors `errs`, one after the other with a newline between.
pub open spec fn parser_errors_text(errs: Seq<ParserError>, lines: Seq<Seq<char>>) -> Seq<char>
    decreases errs.len(),
{
    if errs.len() == 0 {
        Seq::empty()
    } else if errs.len() == 1 {
        parser_error_text(errs[0], lines)
    } else {
        parser_errors_text(errs.drop_last(), lines) + "\n"@ + parser_error_text(errs.last(), lines)
    }
}

/// The reports of parser errors against their source, one per line group.
pub fn format_parser_errors(errors: &[ParserError], source: &str) -> (res: String)
    ensures
        res@ == parser_errors_text(errors@, lines_of(source@)),
{
    let lines = split_lines(source);
    let ghost lv = lines@.map_values(|l: String| l@);
    let mut out = String::new();
    let mut i: usize = 0;
    while i < errors.len()
        invariant
            0 <= i <= errors@.len(),
            lv == lines@.map_values(|l: String| l@),
            lv == lines_of(source@),
            out@ == parser_errors_text(errors@.take(i as int), lv),
        decreases errors.len() - i,
    {
        let err = &errors[i];
        let ln = located_line(&lines, err.location.line);
        let offset: usize = if err.location.col > 0 {
            err.location.col - 1
        } else {
            0
        };
        let one = located_report(
            err.location.file.as_str(),
            err.location.line,
            err.location.col,
            ln.as_str(),
            offset,
            err.message.as_str(),
        );
        assert(errors@.take(i + 1).drop_last() =~= errors@.take(i as int));
        assert(errors@.take(i + 1).last() == errors@[i as int]);
        if i > 0 {
            out.append("\n");
        }
        out.append(one.as_str());
        i = i + 1;
    }
    assert(errors@.take(errors@.len() as int) =~= errors@);
    out
}

/// The report of an analyser error: against the source of its file if known, else
/// against the root source if given.
pub fn format_analyser_error(
    err: &AnalyserError,
    sources: &StrMap<String>,
    root_source: Option<&str>,
) -> (res: String)
    requires
        sources.wf(),
    ensures
        ({
            let loc = analyser_error_location(*err);
            let src = match sources.lookup(loc.file@) {
                Some(s) => Some(s@),
                None => match root_source {
                    Some(r) => Some(r@),
                    None => None,
                },
            };
            res@ == located_error_text(
                loc.file@,
                loc.line,
                loc.col,
                analyser_error_message(*err)@,
                source_lines(src),
            )
        }),
{
    let (location, message) = analyser_error_parts(err);
    let source: Option<&str> = match sources.get(location.file.as_str()) {
        Some(s) => Some(s.as_str()),
        None => root_source,
    };
    format_error_with_location(
        location.file.as_str(),
        location.line,
        location.col,
        message.as_str(),
        source,
    )
}

/// The names that a statement exports, with their kind: a public function, a struct, an
/// enum or a constant.
pub open spec fn exported_by(s: Stmt) -> Option<(Seq<char>, SymbolType)> {
    match s {
        Stmt::Function { name, public, .. } => if public {
            Some((name.value@, SymbolType::Function))
        } else {
            None
        },
        Stmt::Struct { name, .. } => Some((name.value@, SymbolType::Struct)),
        Stmt::Enum { name, .. } => Some((name.value@, SymbolType::Enum)),
        Stmt::Constant { name, .. } => Some((name.value@, SymbolType::Constant)),
        _ => None,
    }
}

/// The names that the statements `s` export, in order.
pub open spec fn exported_names(s: Seq<Stmt>) -> Seq<(Seq<char>, SymbolType)>
    decreases s.len(),
{
    if s.len() == 0 {
        Seq::empty()
    } else {
        match exported_by(s.last()) {
            Some(e) => exported_names(s.drop_last()).push(e),
            None => exported_names(s.drop_last()),
        }
    }
}

/// The names that a program exports, with their kind, in order.
pub fn collect_exported_symbols(program: &Program) -> (res: Vec<(String, SymbolType)>)
    ensures
        res@.map_values(|e: (String, SymbolType)| (e.0@, e.1)) == exported_names(program.statements@),
{
    let stmts = &program.statements;
    let mut symbols: Vec<(String, SymbolType)> = Vec::new();
    let mut i: usize = 0;
    while i < stmts.len()
        invariant
            0 <= i <= stmts@.len(),
            symbols@.map_values(|e: (String, SymbolType)| (e.0@, e.1)) == exported_names(
                stmts@.take(i as int),
            ),
        decreases stmts.len() - i,
    {
        let ghost before = symbols@;
        assert(stmts@.take(i + 1).drop_last() =~= stmts@.take(i as int));
        assert(stmts@.take(i + 1).last() == stmts@[i as int]);
        match &stmts[i] {
            Stmt::Function { name, public, .. } => {
                if *public {
                    symbols.push((name.value.clone(), SymbolType::Function));
                }
            },
            Stmt::Struct { name, .. } => {
                symbols.push((name.value.clone(), SymbolType::Struct));
            },
            Stmt::Enum { name, .. } => {
                symbols.push((name.value.clone(), SymbolType::Enum));
            },
            Stmt::Constant { name, .. } => {
                symbols.push((name.value.clone(), SymbolType::Constant));
            },
            _ => {},
        }
        assert(symbols@.map_values(|e: (String, SymbolType)| (e.0@, e.1)) =~= exported_names(
            stmts@.take(i + 1),
        ));
        i = i + 1;
    }
    assert(stmts@.take(stmts@.len() as int) =~= stmts@);
    symbols
}

/// The public names of a program: what it exports, without the kinds.
pub fn public_symbols(program: &Program) -> (res: Vec<String>)
    ensures
        res@.map_values(|s: String| s@) == exported_names(program.statements@).map_values(
            |e: (Seq<char>, SymbolType)| e.0,
        ),
{
    let all = collect_exported_symbols(program);
    let mut out: Vec<String> = Vec::new();
    let mut i: usize = 0;
    while i < all.len()
        invariant
            0 <= i <= all@.len(),
            out@.len() == i,
            forall|j: int| 0 <= j < i ==> (#[trigger] out@[j])@ == all@[j].0@,
        decreases all.len() - i,
    {
        out.push(all[i].0.clone());
        i = i + 1;
    }
    assert(out@.map_values(|s: String| s@) =~= all@.map_values(|e: (String, SymbolType)| (e.0@, e.1)).map_values(
        |e: (Seq<char>, SymbolType)| e.0,
    ));
    out
}

/// The `use` paths of the statements `s` that name something, each with its last segment.
pub open spec fn uses_of(s: Seq<Stmt>) -> Seq<(Seq<char>, Seq<Seq<char>>)>
    decreases s.len(),
{
    if s.len() == 0 {
        Seq::empty()
    } else {
        match s.last() {
            Stmt::Use { path } => if path@.len() > 0 {
                uses_of(s.drop_last()).push(
                    (path@.last()@, path@.map_values(|p: String| p@)),
                )
            } else {
                uses_of(s.drop_last())
            },
            _ => uses_of(s.drop_last()),
        }
    }
}

/// The `use` statements of a program: each path with its last segment, the bare name.
pub fn collect_use_statements(program: &Program) -> (res: Vec<(String, Vec<String>)>)
    ensures
        res@.map_values(|u: (String, Vec<String>)| (u.0@, u.1@.map_values(|p: String| p@))) == uses_of(
            program.statements@,
        ),
{
    let stmts = &program.statements;
    let mut uses: Vec<(String, Vec<String>)> = Vec::new();
    let mut i: usize = 0;
    while i < stmts.len()
        invariant
            0 <= i <= stmts@.len(),
            uses@.map_values(|u: (String, Vec<String>)| (u.0@, u.1@.map_values(|p: String| p@)))
                == uses_of(stmts@.take(i as int)),
        decreases stmts.len() - i,
    {
        assert(stmts@.take(i + 1).drop_last() =~= stmts@.take(i as int));
        assert(stmts@.take(i + 1).last() == stmts@[i as int]);
        match &stmts[i] {
            Stmt::Use { path } => {
                if path.len() > 0 {
                    let bare = path[path.len() - 1].clone();
                    let copy = clone_strings(path);
                    uses.push((bare, copy));
                }
            },
            _ => {},
        }
        assert(uses@.map_values(|u: (String, Vec<String>)| (u.0@, u.1@.map_values(|p: String| p@)))
            =~= uses_of(stmts@.take(i + 1)));
        i = i + 1;
    }
    assert(stmts@.take(stmts@.len() as int) =~= stmts@);
    uses
}

/// A copy of a list of strings.
pub fn clone_strings(v: &Vec<String>) -> (res: Vec<String>)
    ensures
        res@.map_values(|s: String| s@) == v@.map_values(|s: String| s@),
{
    let mut out: Vec<String> = Vec::new();
    let mut i: usize = 0;
    while i < v.len()
        invariant
            0 <= i <= v@.len(),
            out@.len() == i,
            forall|j: int| 0 <= j < i ==> (#[trigger] out@[j])@ == v@[j]@,
        decreases v.len() - i,
    {
        out.push(v[i].clone());
        i = i + 1;
    }
    assert(out@.map_values(|s: String| s@) =~= v@.map_values(|s: String| s@));
    out
}

/// The name a statement declares at the top level of a unit, if any: functions (but the
/// entry file's `main`), structs, enums and constants.
pub open spec fn own_name_of(s: Stmt, is_entry: bool) -> Option<Seq<char>> {
    match s {
        Stmt::Function { name, .. } => if is_entry && name.value@ == "main"@ {
            None
        } else {
            Some(name.value@)
        },
        Stmt::Struct { name, .. } => Some(name.value@),
        Stmt::Enum { name, .. } => Some(name.value@),
        Stmt::Constant { name, .. } => Some(name.value@),
        _ => None,
    }
}

/// Whether one of `stmts` declares `n` at the top level.
pub open spec fn declares_own(stmts: Seq<Stmt>, is_entry: bool, n: Seq<char>) -> bool {
    exists|i: int| 0 <= i < stmts.len() && own_name_of(#[trigger] stmts[i], is_entry) == Some(n)
}

/// The names that the statements declare at the top level, each once.
pub fn collect_own_top_level_names(stmts: &[Stmt], is_entry: bool) -> (res: Vec<String>)
    ensures
        forall|n: Seq<char>|
            (exists|j: int| 0 <= j < res@.len() && #[trigger] res@[j]@ == n) <==> declares_own(
                stmts@,
                is_entry,
                n,
            ),
        forall|a: int, b: int| 0 <= a < b < res@.len() ==> res@[a]@ != res@[b]@,
{
    let mut names: Vec<String> = Vec::new();
    let mut i: usize = 0;
    while i < stmts.len()
        invariant
            0 <= i <= stmts@.len(),
            forall|n: Seq<char>|
                (exists|j: int| 0 <= j < names@.len() && #[trigger] names@[j]@ == n) <==> declares_own(
                    stmts@.take(i as int),
                    is_entry,
                    n,
                ),
            forall|a: int, b: int| 0 <= a < b < names@.len() ==> names@[a]@ != names@[b]@,
        decreases stmts.len() - i,
    {
        let found: Option<&String> = match &stmts[i] {
            Stmt::Function { name, .. } => {
                if is_entry && str_eq(name.value.as_str(), "main") {
                    None
                } else {
                    Some(&name.value)
                }
            },
            Stmt::Struct { name, .. } => Some(&name.value),
            Stmt::Enum { name, .. } => Some(&name.value),
            Stmt::Constant { name, .. } => Some(&name.value),
            _ => None,
        };
        assert(found matches Some(f) ==> own_name_of(stmts@[i as int], is_entry) == Some(f@));
        assert(found is None ==> own_name_of(stmts@[i as int], is_entry) is None);
        let ghost before = names@;
        if let Some(f) = found {
            if !contains_string(&names, f.as_str()) {
                names.push(f.clone());
            }
        }
        proof {
            assert forall|n: Seq<char>|
                #![trigger declares_own(stmts@.take(i + 1), is_entry, n)]
                (exists|j: int| 0 <= j < names@.len() && #[trigger] names@[j]@ == n) <==> declares_own(
                    stmts@.take(i + 1),
                    is_entry,
                    n,
                ) by {
                if declares_own(stmts@.take(i + 1), is_entry, n) {
                    let k = choose|k: int|
                        0 <= k < stmts@.take(i + 1).len() && own_name_of(
                            #[trigger] stmts@.take(i + 1)[k],
                            is_entry,
                        ) == Some(n);
                    if k < i {
                        assert(stmts@.take(i as int)[k] == stmts@.take(i + 1)[k]);
                        assert(declares_own(stmts@.take(i as int), is_entry, n));
                        let j = choose|j: int| 0 <= j < before.len() && #[trigger] before[j]@ == n;
                        assert(names@[j] == before[j]);
                    } else {
                        assert(stmts@.take(i + 1)[k] == stmts@[i as int]);
                        if exists|j: int| 0 <= j < before.len() && #[trigger] before[j]@ == n {
                            let j = choose|j: int| 0 <= j < before.len() && #[trigger] before[j]@ == n;
                            assert(names@[j] == before[j]);
                        } else {
                            assert(names@[names@.len() - 1]@ == n);
                        }
                    }
                }
                if exists|j: int| 0 <= j < names@.len() && #[trigger] names@[j]@ == n {
                    let j = choose|j: int| 0 <= j < names@.len() && #[trigger] names@[j]@ == n;
                    if j < before.len() {
                        assert(before[j] == names@[j]);
                        assert(declares_own(stmts@.take(i as int), is_entry, n));
                        let k = choose|k: int|
                            0 <= k < stmts@.take(i as int).len() && own_name_of(
                                #[trigger] stmts@.take(i as int)[k],
                                is_entry,
                            ) == Some(n);
                        assert(stmts@.take(i + 1)[k] == stmts@.take(i as int)[k]);
                    } else {
                        assert(stmts@.take(i + 1)[i as int] == stmts@[i as int]);
                    }
                }
            }
        }
        i = i + 1;
    }
    assert(stmts@.take(stmts@.len() as int) =~= stmts@);
    names
}

/// Whether a type is generic: a generic parameter, a generic instance, a variadic pack,
/// or `any`.
pub fn is_generic_type(ty: &Type) -> (res: bool)
    ensures
        res == (ty@ is GenericParam || ty@ is GenericInstance || ty@ is VariadicPack || ty@ is Any),
{
    match ty {
        Type::GenericParam(_) => true,
        Type::GenericInstance { .. } => true,
        Type::VariadicPack { .. } => true,
        Type::Any => true,
        _ => false,
    }
}

/// Renames the top-level names of a unit: an imported name becomes the qualified name it
/// was imported as, and a name of the unit's own gets the unit's prefix.
pub struct AtAliasRewriter {
    pub prefix: String,
    pub own_names: Vec<String>,
    pub imports: StrMap<String>,
}

impl AtAliasRewriter {
    /// Whether `n` is one of the unit's own names.
    pub open spec fn owns(&self, n: Seq<char>) -> bool {
        exists|j: int| 0 <= j < self.own_names@.len() && #[trigger] self.own_names@[j]@ == n
    }

    /// The name that `n` becomes, if it is renamed.
    pub open spec fn qualified(&self, n: Seq<char>) -> Option<Seq<char>> {
        match self.imports.lookup(n) {
            Some(q) => Some(q@),
            None => if self.owns(n) {
                Some(self.prefix@ + n)
            } else {
                None
            },
        }
    }

    /// The name that `n` stands for after renaming.
    pub open spec fn renamed(&self, n: Seq<char>) -> Seq<char> {
        match self.qualified(n) {
            Some(q) => q,
            None => n,
        }
    }

    /// `t` with the names of its structs, enums and generic instances renamed.
    pub open spec fn ty_v(&self, t: TypeV) -> TypeV
        decreases t,
    {
        match t {
            TypeV::Ptr(inner) => TypeV::Ptr(Box::new(self.ty_v(*inner))),
            TypeV::Array { element_type, size } => TypeV::Array {
                element_type: Box::new(self.ty_v(*element_type)),
                size,
            },
            TypeV::Struct(name) => TypeV::Struct(self.renamed(name)),
            TypeV::Enum(name) => TypeV::Enum(self.renamed(name)),
            TypeV::GenericInstance { name, args } => TypeV::GenericInstance {
                name: self.renamed(name),
                args: self.tys_v(args),
            },
            TypeV::VariadicPack { name, types } => TypeV::VariadicPack { name, types: self.tys_v(types) },
            _ => t,
        }
    }

    /// `ty_v` on each of `s`.
    pub open spec fn tys_v(&self, s: Seq<TypeV>) -> Seq<TypeV>
        decreases s,
    {
        if s.len() == 0 {
            Seq::empty()
        } else {
            seq![self.ty_v(s[0])] + self.tys_v(s.drop_first())
        }
    }

    /// The name that `name` becomes, if it is renamed.
    pub fn qualify(&self, name: &str) -> (res: Option<String>)
        requires
            self.imports.wf(),
        ensures
            match res {
                Some(q) => self.qualified(name@) == Some(q@),
                None => self.qualified(name@) is None,
            },
    {
        match self.imports.get(name) {
            Some(q) => Some(q.clone()),
            None => {
                if contains_string(&self.own_names, name) {
                    Some(concat(self.prefix.as_str(), name))
                } else {
                    None
                }
            },
        }
    }

    /// A declared name: prefixed if it is one of the unit's own names.
    pub fn decl(&self, ident: Identifier) -> (res: Identifier)
        ensures
            res.location == ident.location,
            res.value@ == (if self.owns(ident.value@) {
                self.prefix@ + ident.value@
            } else {
                ident.value@
            }),
    {
        let mut ident = ident;
        if contains_string(&self.own_names, ident.value.as_str()) {
            ident.value = concat(self.prefix.as_str(), ident.value.as_str());
        }
        ident
    }

    /// A type with its names renamed.
    pub fn ty(&self, ty: Type) -> (res: Type)
        requires
            self.imports.wf(),
        ensures
            res@ == self.ty_v(ty@),
    {
        self.ty_of(&ty)
    }

    /// A renamed copy of a type.
    fn ty_of(&self, ty: &Type) -> (res: Type)
        requires
            self.imports.wf(),
        ensures
            res@ == self.ty_v(ty@),
        decreases ty,
    {
        match ty {
            Type::Ptr(inner) => Type::Ptr(Box::new(self.ty_of(inner))),
            Type::Array { element_type, size } => Type::Array {
                element_type: Box::new(self.ty_of(element_type)),
                size: *size,
            },
            Type::Struct(name) => Type::Struct(self.rename(name)),
            Type::Enum(name) => Type::Enum(self.rename(name)),
            Type::GenericInstance { name, args } => Type::GenericInstance {
                name: self.rename(name),
                args: self.tys_of(args),
            },
            Type::VariadicPack { name, types } => Type::VariadicPack {
                name: name.clone(),
                types: self.tys_of(types),
            },
            _ => clone_type(ty),
        }
    }

    /// The name that `name` stands for after renaming.
    fn rename(&self, name: &String) -> (res: String)
        requires
            self.imports.wf(),
        ensures
            res@ == self.renamed(name@),
    {
        match self.qualify(name.as_str()) {
            Some(q) => q,
            None => name.clone(),
        }
    }

    /// Renamed copies of the types `ts`, in order.
    fn tys_of(&self, ts: &Vec<Type>) -> (res: Vec<Type>)
        requires
            self.imports.wf(),
        ensures
            types_view(res@) == self.tys_v(types_view(ts@)),
        decreases ts,
    {
        proof {
            lemma_types_view(ts@);
            self.lemma_tys_v(types_view(ts@));
        }
        let mut out: Vec<Type> = Vec::new();
        let mut i: usize = 0;
        while i < ts.len()
            invariant
                0 <= i <= ts@.len(),
                out@.len() == i,
                self.imports.wf(),
                forall|j: int| 0 <= j < ts@.len() ==> #[trigger] types_view(ts@)[j] == ts@[j]@,
                forall|j: int| 0 <= j < i ==> (#[trigger] out@[j])@ == self.ty_v(ts@[j]@),
            decreases ts.len() - i,
        {
            out.push(self.ty_of(&ts[i]));
            i = i + 1;
        }
        proof {
            lemma_types_view(out@);
            assert(types_view(out@) =~= self.tys_v(types_view(ts@)));
        }
        out
    }

    /// `tys_v` keeps the length and renames element by element.
    pub proof fn lemma_tys_v(&self, s: Seq<TypeV>)
        ensures
            self.tys_v(s).len() == s.len(),
            forall|i: int| 0 <= i < s.len() ==> #[trigger] self.tys_v(s)[i] == self.ty_v(s[i]),
        decreases s.len(),
    {
        if s.len() > 0 {
            self.lemma_tys_v(s.drop_first());
            assert forall|i: int| 0 <= i < s.len() implies #[trigger] self.tys_v(s)[i] == self.ty_v(s[i]) by {
                if i > 0 {
                    assert(s.drop_first()[i - 1] == s[i]);
                }
            }
        }
    }

    /// Parameters with their types renamed; their names stay.
    pub fn params(&self, params: Vec<Parameter>) -> (res: Vec<Parameter>)
        requires
            self.imports.wf(),
        ensures
            res@.len() == params@.len(),
            forall|j: int|
                0 <= j < params@.len() ==> {
                    &&& (#[trigger] res@[j]).name == params@[j].name
                    &&& res@[j].is_variadic == params@[j].is_variadic
                    &&& match params@[j].ptype {
                        Some(t) => res@[j].ptype matches Some(u) && u@ == self.ty_v(t@),
                        None => res@[j].ptype is None,
                    }
                },
    {
        let ghost orig = params@;
        let n = params.len();
        let mut rest = params;
        let mut out: Vec<Parameter> = Vec::new();
        let mut k: usize = 0;
        while rest.len() > 0
            invariant
                0 <= k <= orig.len(),
                rest@ == orig.skip(k as int),
                k + rest@.len() == orig.len(),
                orig.len() == n,
                out@.len() == k,
                self.imports.wf(),
                forall|j: int|
                    0 <= j < k ==> {
                        &&& (#[trigger] out@[j]).name == orig[j].name
                        &&& out@[j].is_variadic == orig[j].is_variadic
                        &&& match orig[j].ptype {
                            Some(t) => out@[j].ptype matches Some(u) && u@ == self.ty_v(t@),
                            None => out@[j].ptype is None,
                        }
                    },
            decreases rest.len(),
        {
            let p = rest.remove(0);
            assert(p == orig[k as int]);
            assert(rest@ =~= orig.skip(k + 1));
            let ptype = match p.ptype {
                Some(t) => Some(self.ty(t)),
                None => None,
            };
            out.push(Parameter { name: p.name, ptype, is_variadic: p.is_variadic });
            k = k + 1;
        }
        out
    }
}

impl AtAliasRewriter {
    /// An expression with its names renamed: variables, called functions, struct
    /// literals' structs and the types it mentions.
    pub fn expr(&self, expr: Expr) -> (res: Expr)
        requires
            self.imports.wf(),
        ensures
            res.span == expr.span,
            match expr.kind {
                ExprKind::Identifier(n) => res.kind matches ExprKind::Identifier(m) && m@ == self.renamed(n@),
                ExprKind::Call { callee, .. } => res.kind matches ExprKind::Call { callee: c, .. }
                    && c.value@ == self.renamed(callee.value@) && c.location == callee.location,
                ExprKind::StructLiteral { struct_name, .. } => res.kind matches ExprKind::StructLiteral {
                    struct_name: m,
                    ..
                } && m@ == self.renamed(struct_name@),
                ExprKind::Sizeof { ty } => res.kind matches ExprKind::Sizeof { ty: t } && t@ == self.ty_v(ty@),
                ExprKind::Cast { right, .. } => res.kind matches ExprKind::Cast { right: t, .. } && t@
                    == self.ty_v(right@),
                _ => true,
            },
    {
        self.expr_of(&expr)
    }

    /// A renamed copy of an expression.
    fn expr_of(&self, expr: &Expr) -> (res: Expr)
        requires
            self.imports.wf(),
        ensures
            res.span == expr.span,
            match expr.kind {
                ExprKind::Identifier(n) => res.kind matches ExprKind::Identifier(m) && m@ == self.renamed(n@),
                ExprKind::Call { callee, .. } => res.kind matches ExprKind::Call { callee: c, .. }
                    && c.value@ == self.renamed(callee.value@) && c.location == callee.location,
                ExprKind::StructLiteral { struct_name, .. } => res.kind matches ExprKind::StructLiteral {
                    struct_name: m,
                    ..
                } && m@ == self.renamed(struct_name@),
                ExprKind::Sizeof { ty } => res.kind matches ExprKind::Sizeof { ty: t } && t@ == self.ty_v(ty@),
                ExprKind::Cast { right, .. } => res.kind matches ExprKind::Cast { right: t, .. } && t@
                    == self.ty_v(right@),
                _ => true,
            },
        decreases expr,
    {
        let kind = match &expr.kind {
            ExprKind::Literal(Literal::Arr { elements }) => {
                let mut out: Vec<Expr> = Vec::new();
                let mut i: usize = 0;
                while i < elements.len()
                    invariant
                        0 <= i <= elements@.len(),
                        self.imports.wf(),
                        expr.kind == ExprKind::Literal(Literal::Arr { elements: *elements }),
                    decreases elements.len() - i,
                {
                    proof {
                        let l = expr.kind->Literal_0;
                        assert(decreases_to!(expr => expr.kind));
                        assert(decreases_to!(expr.kind => l));
                        assert(decreases_to!(l => l->Arr_elements));
                        assert(decreases_to!(l->Arr_elements => l->Arr_elements@));
                        assert(decreases_to!(l->Arr_elements@ => l->Arr_elements@[i as int]));
                    }
                    out.push(self.expr_of(&elements[i]));
                    i = i + 1;
                }
                ExprKind::Literal(Literal::Arr { elements: out })
            },
            ExprKind::Literal(lit) => ExprKind::Literal(lit.duplicate()),
            ExprKind::Identifier(name) => ExprKind::Identifier(self.rename(name)),
            ExprKind::Index { base, index } => ExprKind::Index {
                base: Box::new(self.expr_of(base)),
                index: Box::new(self.expr_of(index)),
            },
            ExprKind::Field { base, field } => ExprKind::Field { base: Box::new(self.expr_of(base)), field: field.clone() },
            ExprKind::StructLiteral { struct_name, generic_args, fields } => {
                let mut out: Vec<(String, Expr)> = Vec::new();
                let mut i: usize = 0;
                while i < fields.len()
                    invariant
                        0 <= i <= fields@.len(),
                        self.imports.wf(),
                        expr.kind == (ExprKind::StructLiteral {
                            struct_name: *struct_name,
                            generic_args: *generic_args,
                            fields: *fields,
                        }),
                    decreases fields.len() - i,
                {
                    proof {
                        let fs = expr.kind->StructLiteral_fields;
                        assert(decreases_to!(expr => expr.kind));
                        assert(decreases_to!(expr.kind => fs));
                        assert(decreases_to!(fs => fs@));
                        assert(decreases_to!(fs@ => fs@[i as int]));
                        assert(decreases_to!(fs@[i as int] => fs@[i as int].1));
                    }
                    out.push((fields[i].0.clone(), self.expr_of(&fields[i].1)));
                    i = i + 1;
                }
                ExprKind::StructLiteral {
                    struct_name: self.rename(struct_name),
                    generic_args: self.tys_of(generic_args),
                    fields: out,
                }
            },
            ExprKind::Binary { left, op, right } => ExprKind::Binary {
                left: Box::new(self.expr_of(left)),
                op: *op,
                right: Box::new(self.expr_of(right)),
            },
            ExprKind::Cast { left, right } => ExprKind::Cast { left: Box::new(self.expr_of(left)), right: self.ty_of(right) },
            ExprKind::Unary { op, expr: inner } => ExprKind::Unary { op: *op, expr: Box::new(self.expr_of(inner)) },
            ExprKind::Call { callee, generic_args, args } => {
                let mut out: Vec<Expr> = Vec::new();
                let mut i: usize = 0;
                while i < args.len()
                    invariant
                        0 <= i <= args@.len(),
                        self.imports.wf(),
                        expr.kind == (ExprKind::Call { callee: *callee, generic_args: *generic_args, args: *args }),
                    decreases args.len() - i,
                {
                    proof {
                        let a = expr.kind->Call_args;
                        assert(decreases_to!(expr => expr.kind));
                        assert(decreases_to!(expr.kind => a));
                        assert(decreases_to!(a => a@));
                        assert(decreases_to!(a@ => a@[i as int]));
                    }
                    out.push(self.expr_of(&args[i]));
                    i = i + 1;
                }
                ExprKind::Call {
                    callee: Identifier { value: self.rename(&callee.value), location: callee.location.duplicate_same() },
                    generic_args: self.tys_of(generic_args),
                    args: out,
                }
            },
            ExprKind::Sizeof { ty } => ExprKind::Sizeof { ty: self.ty_of(ty) },
            ExprKind::Typeof { expr: inner } => ExprKind::Typeof { expr: Box::new(self.expr_of(inner)) },
        };
        Expr { kind, span: expr.span.duplicate_same() }
    }

    /// An optional type with its names renamed.
    fn opt_ty_of(&self, t: &Option<Type>) -> (res: Option<Type>)
        requires
            self.imports.wf(),
        ensures
            match t {
                Some(x) => res matches Some(y) && y@ == self.ty_v(x@),
                None => res is None,
            },
    {
        match t {
            Some(x) => Some(self.ty_of(x)),
            None => None,
        }
    }

    /// `r` is `s` renamed, as far as the names that `s` declares go.
    pub open spec fn stmt_renamed(&self, s: Stmt, r: Stmt) -> bool {
        stmt_renamed_by(s, r, self.prefix@, |n: Seq<char>| self.owns(n))
    }

    /// Statements with their names renamed, in order.
    pub fn stmts(&self, stmts: Vec<Stmt>) -> (res: Vec<Stmt>)
        requires
            self.imports.wf(),
        ensures
            res@.len() == stmts@.len(),
            forall|i: int| 0 <= i < stmts@.len() ==> self.stmt_renamed(stmts@[i], #[trigger] res@[i]),
    {
        self.stmts_of(&stmts)
    }

    /// Renamed copies of statements, in order.
    fn stmts_of(&self, stmts: &Vec<Stmt>) -> (res: Vec<Stmt>)
        requires
            self.imports.wf(),
        ensures
            res@.len() == stmts@.len(),
            forall|i: int| 0 <= i < stmts@.len() ==> self.stmt_renamed(stmts@[i], #[trigger] res@[i]),
        decreases stmts,
    {
        let mut out: Vec<Stmt> = Vec::new();
        let mut i: usize = 0;
        while i < stmts.len()
            invariant
                0 <= i <= stmts@.len(),
                out@.len() == i,
                self.imports.wf(),
                forall|j: int| 0 <= j < i ==> self.stmt_renamed(stmts@[j], #[trigger] out@[j]),
            decreases stmts.len() - i,
        {
            out.push(self.stmt_of(&stmts[i]));
            i = i + 1;
        }
        out
    }

    /// A statement with its names renamed: the names it declares get the unit's prefix
    /// (when they are the unit's own), and the expressions and types in it are renamed.
    pub fn stmt(&self, stmt: Stmt) -> (res: Stmt)
        requires
            self.imports.wf(),
        ensures
            self.stmt_renamed(stmt, res),
    {
        self.stmt_of(&stmt)
    }

    /// A renamed copy of a statement.
    fn stmt_of(&self, stmt: &Stmt) -> (res: Stmt)
        requires
            self.imports.wf(),
        ensures
            self.stmt_renamed(*stmt, res),
        decreases stmt,
    {
        match stmt {
            Stmt::Assignment { ident, vtype, expr } => Stmt::Assignment {
                ident: ident.duplicate(),
                vtype: self.opt_ty_of(vtype),
                expr: match expr {
                    Some(e) => Some(self.expr_of(e)),
                    None => None,
                },
            },
            Stmt::Constant { name, vtype, expr } => Stmt::Constant {
                name: self.decl(Identifier { value: name.value.clone(), location: name.location.duplicate_same() }),
                vtype: self.opt_ty_of(vtype),
                expr: self.expr_of(expr),
            },
            Stmt::Reassignment { ident, expr } => Stmt::Reassignment { ident: ident.duplicate(), expr: self.expr_of(expr) },
            Stmt::DerefReassignment { target, expr } => Stmt::DerefReassignment {
                target: self.expr_of(target),
                expr: self.expr_of(expr),
            },
            Stmt::Expr(e) => Stmt::Expr(self.expr_of(e)),
            Stmt::If { cond, then_branch, else_if_branches, else_branch } => {
                let mut branches: Vec<(Expr, Vec<Stmt>)> = Vec::new();
                let mut i: usize = 0;
                while i < else_if_branches.len()
                    invariant
                        0 <= i <= else_if_branches@.len(),
                        self.imports.wf(),
                        *stmt == (Stmt::If {
                            cond: *cond,
                            then_branch: *then_branch,
                            else_if_branches: *else_if_branches,
                            else_branch: *else_branch,
                        }),
                    decreases else_if_branches.len() - i,
                {
                    proof {
                        let bs = stmt->If_else_if_branches;
                        assert(decreases_to!(stmt => bs));
                        assert(decreases_to!(bs => bs@));
                        assert(decreases_to!(bs@ => bs@[i as int]));
                        assert(decreases_to!(bs@[i as int] => bs@[i as int].1));
                    }
                    let c = self.expr_of(&else_if_branches[i].0);
                    let b = self.stmts_of(&else_if_branches[i].1);
                    branches.push((c, b));
                    i = i + 1;
                }
                let else_out = match else_branch {
                    Some(b) => {
                        proof {
                            let e = stmt->If_else_branch;
                            assert(decreases_to!(stmt => e));
                            assert(decreases_to!(e => e->0));
                        }
                        Some(self.stmts_of(b))
                    },
                    None => None,
                };
                Stmt::If {
                    cond: self.expr_of(cond),
                    then_branch: self.stmts_of(then_branch),
                    else_if_branches: branches,
                    else_branch: else_out,
                }
            },
            Stmt::While { cond, body } => Stmt::While { cond: self.expr_of(cond), body: self.stmts_of(body) },
            Stmt::For { init, cond, step, body } => Stmt::For {
                init: Box::new(self.stmt_of(init)),
                cond: self.expr_of(cond),
                step: Box::new(self.stmt_of(step)),
                body: self.stmts_of(body),
            },
            Stmt::ForIn { field_ident, target_expr, body } => Stmt::ForIn {
                field_ident: field_ident.duplicate(),
                target_expr: self.expr_of(target_expr),
                body: self.stmts_of(body),
            },
            Stmt::Return { value, span } => Stmt::Return {
                value: match value {
                    Some(e) => Some(self.expr_of(e)),
                    None => None,
                },
                span: span.duplicate(),
            },
            Stmt::Use { path } => Stmt::Use { path: duplicate_strings(path) },
            Stmt::Struct { name, generic_params, fields } => Stmt::Struct {
                name: self.decl(Identifier { value: name.value.clone(), location: name.location.duplicate_same() }),
                generic_params: duplicate_strings(generic_params),
                fields: self.params(duplicate_params(fields)),
            },
            Stmt::Enum { name, options } => Stmt::Enum {
                name: self.decl(Identifier { value: name.value.clone(), location: name.location.duplicate_same() }),
                options: duplicate_idents(options),
            },
            Stmt::Function { name, public, rttype, generic_params, params, body } => Stmt::Function {
                name: self.decl(Identifier { value: name.value.clone(), location: name.location.duplicate_same() }),
                public: *public,
                rttype: self.opt_ty_of(rttype),
                generic_params: duplicate_strings(generic_params),
                params: self.params(duplicate_params(params)),
                body: self.stmts_of(body),
            },
            Stmt::Extern { name, rttype, generic_params, params } => Stmt::Extern {
                name: name.duplicate(),
                rttype: self.opt_ty_of(rttype),
                generic_params: duplicate_strings(generic_params),
                params: self.params(duplicate_params(params)),
            },
            Stmt::Break { location } => Stmt::Break { location: location.duplicate() },
        }
    }
}

/// Whether a statement is a `use` of at least two segments whose last segment is one of
/// the bare names `imports` gives.
pub open spec fn is_resolved_use(s: Stmt, imports: Seq<(String, String)>) -> bool {
    s matches Stmt::Use { path } && path@.len() >= 2 && exists|j: int|
        0 <= j < imports.len() && #[trigger] imports[j].0@ == path@.last()@
}

/// `r` is `s` with the names that `s` declares renamed: a name `owns` holds gets `prefix`
/// in front.
pub open spec fn stmt_renamed_by(s: Stmt, r: Stmt, prefix: Seq<char>, owns: spec_fn(Seq<char>) -> bool) -> bool {
    match s {
        Stmt::Constant { name, .. } => r matches Stmt::Constant { name: n, .. } && n.location
            == name.location && n.value@ == (if owns(name.value@) {
            prefix + name.value@
        } else {
            name.value@
        }),
        Stmt::Struct { name, .. } => r matches Stmt::Struct { name: n, .. } && n.location == name.location
            && n.value@ == (if owns(name.value@) {
            prefix + name.value@
        } else {
            name.value@
        }),
        Stmt::Enum { name, .. } => r matches Stmt::Enum { name: n, .. } && n.location == name.location
            && n.value@ == (if owns(name.value@) {
            prefix + name.value@
        } else {
            name.value@
        }),
        Stmt::Function { name, .. } => r matches Stmt::Function { name: n, .. } && n.location
            == name.location && n.value@ == (if owns(name.value@) {
            prefix + name.value@
        } else {
            name.value@
        }),
        Stmt::Extern { name, .. } => r matches Stmt::Extern { name: n, .. } && n.view() == name.view(),
        Stmt::Assignment { ident, .. } => r matches Stmt::Assignment { ident: i, .. } && i.view()
            == ident.view(),
        Stmt::Use { path } => r matches Stmt::Use { path: p } && p@ == path@,
        Stmt::Break { location } => r matches Stmt::Break { location: l } && l.view() == location.view(),
        _ => true,
    }
}

/// Some string of `v` is `n`.
pub open spec fn listed_name(v: Seq<String>, n: Seq<char>) -> bool {
    exists|j: int| 0 <= j < v.len() && #[trigger] v[j]@ == n
}

/// `n` is a name the renaming of a unit prefixes where it is declared: one the unit's
/// statements declare at the top level, or one it imports.
pub open spec fn alias_owned(stmts: Seq<Stmt>, is_entry: bool, imports: Seq<(String, String)>, n: Seq<char>) -> bool {
    declares_own(stmts, is_entry, n) || exists|j: int| 0 <= j < imports.len() && #[trigger] imports[j].0@ == n
}

/// Renames the names of a unit's statements: `at_name` followed by `$` is the prefix of
/// the unit's own top-level names (`main` kept in the entry unit), each imported bare name
/// becomes its qualified name, and a `use` that an import resolves is dropped.
/// `res` is `stmts` of the unit `at_name` once its aliases are applied, with the imports
/// `imports`: no longer, as long when no statement is a resolved `use`, and then each
/// statement renamed, its own names qualified by the unit and its imports by their origin.
pub open spec fn aliased(
    stmts: Seq<Stmt>,
    at_name: Seq<char>,
    is_entry: bool,
    imports: Seq<(String, String)>,
    res: Seq<Stmt>,
) -> bool {
    &&& res.len() <= stmts.len()
    &&& (forall|j: int| 0 <= j < stmts.len() ==> !is_resolved_use(#[trigger] stmts[j], imports)) ==> res.len()
        == stmts.len()
    &&& (forall|j: int| 0 <= j < stmts.len() ==> !is_resolved_use(#[trigger] stmts[j], imports)) ==> forall|j: int|
        0 <= j < stmts.len() ==> stmt_renamed_by(
            stmts[j],
            #[trigger] res[j],
            at_name + "$"@,
            |n: Seq<char>| alias_owned(stmts, is_entry, imports, n),
        )
}

pub fn apply_at_aliases(stmts: Vec<Stmt>, at_name: &str, is_entry: bool, imports: &Vec<(String, String)>) -> (res:
    Vec<Stmt>)
    ensures
        aliased(stmts@, at_name@, is_entry, imports@, res@),
        res@.len() <= stmts@.len(),
        res@.len() == stmts@.len() <== forall|j: int| 0 <= j < stmts@.len() ==> !is_resolved_use(
            #[trigger] stmts@[j],
            imports@,
        ),
        (forall|j: int| 0 <= j < stmts@.len() ==> !is_resolved_use(#[trigger] stmts@[j], imports@)) ==> forall|j: int|
            0 <= j < stmts@.len() ==> stmt_renamed_by(
                stmts@[j],
                #[trigger] res@[j],
                at_name@ + "$"@,
                |n: Seq<char>| alias_owned(stmts@, is_entry, imports@, n),
            ),
{
    let own_names = collect_own_top_level_names(stmts.as_slice(), is_entry);
    let mut all_names = clone_strings(&own_names);
    proof {
        let ghost fa = all_names@.map_values(|s: String| s@);
        let ghost fo = own_names@.map_values(|s: String| s@);
        assert(fa == fo);
        assert(fa.len() == all_names@.len() && fo.len() == own_names@.len());
        assert forall|n: Seq<char>| #[trigger] listed_name(all_names@, n) <==> listed_name(own_names@, n) by {
            if listed_name(all_names@, n) {
                let j = choose|j: int| 0 <= j < all_names@.len() && #[trigger] all_names@[j]@ == n;
                assert(fa[j] == all_names@[j]@ && fo[j] == own_names@[j]@);
                assert(own_names@[j]@ == n);
            }
            if listed_name(own_names@, n) {
                let j = choose|j: int| 0 <= j < own_names@.len() && #[trigger] own_names@[j]@ == n;
                assert(fa[j] == all_names@[j]@ && fo[j] == own_names@[j]@);
                assert(all_names@[j]@ == n);
            }
        }
    }
    let mut import_map: StrMap<String> = StrMap::new();
    let mut i: usize = 0;
    while i < imports.len()
        invariant
            0 <= i <= imports@.len(),
            import_map.wf(),
            forall|k: Seq<char>| import_map.has(k) <==> exists|j: int| 0 <= j < i && #[trigger] imports@[j].0@ == k,
            forall|n: Seq<char>| #[trigger] listed_name(all_names@, n) <==> (
            declares_own(stmts@, is_entry, n) || exists|j: int| 0 <= j < i && #[trigger] imports@[j].0@ == n),
        decreases imports.len() - i,
    {
        import_map.insert(imports[i].0.clone(), imports[i].1.clone());
        proof {
            assert forall|k: Seq<char>| import_map.has(k) <==> exists|j: int| 0 <= j < i + 1 && #[trigger] imports@[j].0@
                == k by {
                if k == imports@[i as int].0@ {
                    assert(imports@[i as int].0@ == k);
                }
            }
        }
        let ghost before_names = all_names@;
        let pushed = !contains_string(&all_names, imports[i].0.as_str());
        if pushed {
            all_names.push(imports[i].0.clone());
        }
        proof {
            assert forall|n: Seq<char>| #[trigger] listed_name(all_names@, n) <==> (
            declares_own(stmts@, is_entry, n) || exists|j: int| 0 <= j < i + 1 && #[trigger] imports@[j].0@ == n) by {
                if listed_name(all_names@, n) {
                    let j = choose|j: int| 0 <= j < all_names@.len() && #[trigger] all_names@[j]@ == n;
                    if j < before_names.len() {
                        assert(before_names[j]@ == n);
                        assert(listed_name(before_names, n));
                    } else {
                        assert(imports@[i as int].0@ == n);
                    }
                }
                if declares_own(stmts@, is_entry, n) || exists|j: int| 0 <= j < i && #[trigger] imports@[j].0@ == n {
                    assert(listed_name(before_names, n));
                    let m = choose|m: int| 0 <= m < before_names.len() && #[trigger] before_names[m]@ == n;
                    assert(all_names@[m]@ == n);
                } else if exists|j: int| 0 <= j < i + 1 && #[trigger] imports@[j].0@ == n {
                    let j = choose|j: int| 0 <= j < i + 1 && #[trigger] imports@[j].0@ == n;
                    assert(j == i);
                    if pushed {
                        assert(all_names@[all_names@.len() - 1]@ == n);
                    } else {
                        let m = choose|m: int| 0 <= m < before_names.len() && #[trigger] before_names[m]@ == imports@[i as int].0@;
                        assert(all_names@[m]@ == n);
                    }
                }
            }
        }
        i = i + 1;
    }
    let rewriter = AtAliasRewriter { prefix: concat(at_name, "$"), own_names: all_names, imports: import_map };
    let ghost orig = stmts@;
    let ghost owned = |n: Seq<char>| alias_owned(orig, is_entry, imports@, n);
    proof {
        assert forall|n: Seq<char>| #[trigger] rewriter.owns(n) == alias_owned(orig, is_entry, imports@, n) by {
            if rewriter.owns(n) {
                let j = choose|j: int| 0 <= j < rewriter.own_names@.len() && #[trigger] rewriter.own_names@[j]@ == n;
                assert(all_names@[j]@ == n);
            }
            if listed_name(all_names@, n) {
                let j = choose|j: int| 0 <= j < all_names@.len() && #[trigger] all_names@[j]@ == n;
                assert(rewriter.own_names@[j]@ == n);
            }
        }
        assert((|n: Seq<char>| rewriter.owns(n)) =~= owned);
    }
    let mut rest = stmts;
    let mut result: Vec<Stmt> = Vec::new();
    let ghost mut k: int = 0;
    while rest.len() > 0
        invariant
            0 <= k <= orig.len(),
            rest@ == orig.skip(k),
            k + rest@.len() == orig.len(),
            result@.len() <= k,
            (forall|j: int| 0 <= j < orig.len() ==> !is_resolved_use(#[trigger] orig[j], imports@)) ==> result@.len()
                == k,
            rewriter.imports.wf(),
            forall|n: Seq<char>| rewriter.imports.has(n) <==> exists|j: int| 0 <= j < imports@.len() && #[trigger] imports@[j].0@ == n,
            (|n: Seq<char>| rewriter.owns(n)) == owned,
            rewriter.prefix@ == at_name@ + "$"@,
            orig == stmts@,
            owned == (|n: Seq<char>| alias_owned(stmts@, is_entry, imports@, n)),
            (forall|j: int| 0 <= j < orig.len() ==> !is_resolved_use(#[trigger] orig[j], imports@)) ==> forall|j: int|
                0 <= j < k ==> stmt_renamed_by(orig[j], #[trigger] result@[j], at_name@ + "$"@, owned),
        decreases rest.len(),
    {
        let stmt = rest.remove(0);
        assert(stmt == orig[k]);
        assert(rest@ =~= orig.skip(k + 1));
        match stmt {
            Stmt::Use { path } => {
                let n = path.len();
                if n >= 2 && rewriter.imports.contains_key(path[n - 1].as_str()) {
                    proof {
                        let w = choose|j: int| 0 <= j < imports@.len() && #[trigger] imports@[j].0@ == path@[n - 1]@;
                        assert(is_resolved_use(orig[k], imports@));
                        k = k + 1;
                    }
                    continue;
                }
                result.push(Stmt::Use { path });
            },
            other => {
                result.push(rewriter.stmt(other));
            },
        }
        proof {
            k = k + 1;
        }
    }
    result
}

/// Whether `path` names a unit: it starts with `@` (the unit itself) or with one of the
/// names `deps`.
pub open spec fn names_unit(path: Seq<String>, deps: Seq<Seq<char>>) -> bool {
    path.len() > 0 && (path[0]@ == "@"@ || deps.contains(path[0]@))
}

/// Whether `path` starts with `@` or with the name of one of `deps`.
fn starts_with_unit(path: &Vec<String>, deps: &Vec<String>) -> (res: bool)
    ensures
        res == (path@.len() > 0 && (path@[0]@ == "@"@ || exists|j: int| 0 <= j < deps@.len() && #[trigger] deps@[j]@ == path@[0]@)),
{
    if path.len() == 0 {
        return false;
    }
    proof {
        reveal_strlit("@");
    }
    str_eq(path[0].as_str(), "@") || contains_string(deps, path[0].as_str())
}

/// `s` is a `use` of a unit.
pub open spec fn is_unit_use(s: Stmt, deps: Seq<Seq<char>>) -> bool {
    s matches Stmt::Use { path } && names_unit(path@, deps)
}

/// The statements of `s` that are not `use`s of units, in order.
pub open spec fn without_unit_uses(s: Seq<Stmt>, deps: Seq<Seq<char>>) -> Seq<Stmt>
    decreases s.len(),
{
    if s.len() == 0 {
        s
    } else if is_unit_use(s.last(), deps) {
        without_unit_uses(s.drop_last(), deps)
    } else {
        without_unit_uses(s.drop_last(), deps).push(s.last())
    }
}

/// The statements of a unit without its `use`s of units (those starting with `@` or
/// with a dependency's name); every other statement stays, in order.
pub fn filter_unit_uses(statements: Vec<Stmt>, dependency_names: &Vec<String>) -> (res: Vec<Stmt>)
    ensures
        res@ == without_unit_uses(statements@, dependency_names@.map_values(|d: String| d@)),
{
    let ghost orig = statements@;
    let ghost dv = dependency_names@.map_values(|d: String| d@);
    let mut rest = statements;
    let mut out: Vec<Stmt> = Vec::new();
    let ghost mut k: int = 0;
    while rest.len() > 0
        invariant
            0 <= k <= orig.len(),
            rest@ == orig.subrange(k, orig.len() as int),
            out@ == without_unit_uses(orig.take(k), dv),
            dv == dependency_names@.map_values(|d: String| d@),
        decreases rest.len(),
    {
        let ghost before = rest@;
        let stmt = rest.remove(0);
        assert(stmt == orig[k]);
        let keep = match &stmt {
            Stmt::Use { path } => !starts_with_unit(path, dependency_names),
            _ => true,
        };
        proof {
            if stmt is Use {
                let path = stmt->Use_path;
                if path@.len() > 0 {
                    if exists|j: int| 0 <= j < dependency_names@.len() && #[trigger] dependency_names@[j]@ == path@[0]@ {
                        let j = choose|j: int| 0 <= j < dependency_names@.len() && #[trigger] dependency_names@[j]@ == path@[0]@;
                        assert(dv[j] == path@[0]@);
                    }
                    if dv.contains(path@[0]@) {
                        let j = choose|j: int| 0 <= j < dv.len() && dv[j] == path@[0]@;
                        assert(dependency_names@[j]@ == path@[0]@);
                    }
                }
            }
            assert(keep == !is_unit_use(stmt, dv));
            assert(orig.take(k + 1).drop_last() =~= orig.take(k));
            assert(orig.take(k + 1).last() == stmt);
        }
        if keep {
            out.push(stmt);
        }
        proof {
            k = k + 1;
            assert(rest@ =~= orig.subrange(k, orig.len() as int));
        }
    }
    assert(orig.take(k) =~= orig);
    out
}

/// The unit an import's qualified name comes from: the part before its first `$` (the
/// whole name when it has none).
pub fn import_origin(qualified: &str) -> (res: String)
    ensures
        res@ == before_char(qualified@, '$', 0),
{
    let cs = crate::utils::text::chars_of(qualified);
    let mut out: Vec<char> = Vec::new();
    let mut i: usize = 0;
    while i < cs.len()
        invariant
            0 <= i <= cs@.len(),
            cs@ == qualified@,
            out@ == cs@.subrange(0, i as int),
            before_char(qualified@, '$', 0) == before_char(qualified@, '$', i as int),
        decreases cs.len() - i,
    {
        if cs[i] == '$' {
            return crate::utils::text::string_from_chars(&out);
        }
        out.push(cs[i]);
        assert(out@ =~= cs@.subrange(0, i + 1));
        i = i + 1;
    }
    assert(cs@.subrange(0, i as int) =~= qualified@.subrange(0, qualified@.len() as int));
    crate::utils::text::string_from_chars(&out)
}

/// The segments of `path` after the first, joined by `$`.
fn join_tail(path: &Vec<String>) -> (res: String)
    ensures
        res@ == (if path@.len() <= 1 {
            Seq::<char>::empty()
        } else {
            joined_by_dollar(path@.map_values(|x: String| x@).subrange(1, path@.len() as int))
        }),
{
    proof {
        reveal_strlit("$");
    }
    let ghost pv = path@.map_values(|x: String| x@);
    let mut out = String::new();
    let mut i: usize = 1;
    while i < path.len()
        invariant
            1 <= i,
            pv == path@.map_values(|x: String| x@),
            i <= path@.len() || path@.len() <= 1,
            path@.len() <= 1 ==> out@ == Seq::<char>::empty(),
            path@.len() > 1 ==> out@ == (if i == 1 {
                Seq::<char>::empty()
            } else {
                joined_by_dollar(pv.subrange(1, i as int))
            }),
        decreases path.len() - i,
    {
        if i > 1 {
            out = concat(out.as_str(), "$");
        }
        out = concat(out.as_str(), path[i].as_str());
        proof {
            let s = pv.subrange(1, i + 1);
            assert(s.last() == path@[i as int]@);
            if i > 1 {
                assert(s.drop_last() =~= pv.subrange(1, i as int));
            }
        }
        i = i + 1;
    }
    out
}

/// The strings of `s` joined by `$`.
pub open spec fn joined_by_dollar(s: Seq<Seq<char>>) -> Seq<char>
    decreases s.len(),
{
    if s.len() == 0 {
        Seq::empty()
    } else if s.len() == 1 {
        s[0]
    } else {
        joined_by_dollar(s.drop_last()) + "$"@ + s.last()
    }
}

/// Whether `q` is `unit$name` for a unit of `ats` and a name it exports.
pub open spec fn is_exported(ats: Seq<crate::utils::ats::ParsedAT>, q: Seq<char>) -> bool {
    exists|a: int, k: int|
        0 <= a < ats.len() && 0 <= k < exported_names(ats[a].program.statements@).len() && q == #[trigger] qualified_export(
            ats,
            a,
            k,
        )
}

/// The qualified name of the `k`-th name exported by the unit `a` of `ats`.
pub open spec fn qualified_export(ats: Seq<crate::utils::ats::ParsedAT>, a: int, k: int) -> Seq<char> {
    ats[a].name@ + "$"@ + exported_names(ats[a].program.statements@)[k].0
}

/// The unit and the qualified name that the `use` of `path` in the unit `unit` (whose
/// dependencies are named `deps`) imports from: `@` names the unit itself, a dependency's
/// name that dependency, and the rest of the path joined by `$` follows the unit's name.
/// `None` for a `use` of a module file.
pub open spec fn use_target(unit: Seq<char>, deps: Seq<Seq<char>>, path: Seq<Seq<char>>) -> Option<(Seq<char>, Seq<char>)> {
    if path.len() > 0 && (path[0] == "@"@ || deps.contains(path[0])) {
        let at = if path[0] == "@"@ {
            unit
        } else {
            path[0]
        };
        Some((at, at + "$"@ + (if path.len() <= 1 {
            Seq::<char>::empty()
        } else {
            joined_by_dollar(path.subrange(1, path.len() as int))
        })))
    } else {
        None
    }
}

/// The names of the dependencies of `at`.
pub open spec fn dep_names(at: ATInfo) -> Seq<Seq<char>> {
    at.dependencies@.map_values(|d: ATDependency| d.name@)
}

/// The `u`-th `use` of the unit `i` imports from a unit.
pub open spec fn unit_use(ats: Seq<crate::utils::ats::ParsedAT>, infos: Seq<ATInfo>, i: int, u: int) -> Option<(Seq<char>, Seq<char>)> {
    use_target(ats[i].name@, dep_names(infos[i]), uses_of(ats[i].program.statements@)[u].1)
}

/// No `use` of `us` after the `u`-th and before the `end`-th has its name.
pub open spec fn named_last(us: Seq<(Seq<char>, Seq<Seq<char>>)>, u: int, end: int) -> bool {
    forall|u3: int| u < u3 < end ==> #[trigger] us[u3].0 != us[u].0
}

/// The import table `imports` of the unit `i` maps the name of each of its `use`s of a
/// unit, the last of that name among the first `end`, to the name it imports.
pub open spec fn imports_recorded(
    ats: Seq<crate::utils::ats::ParsedAT>,
    infos: Seq<ATInfo>,
    i: int,
    imports: StrMap<crate::utils::ats::ImportInfo>,
    end: int,
) -> bool {
    forall|u: int|
        0 <= u < end && named_last(uses_of(ats[i].program.statements@), u, end) ==> (#[trigger] unit_use(
            ats,
            infos,
            i,
            u,
        ) matches Some((at, q)) ==> imports.lookup(uses_of(ats[i].program.statements@)[u].0) matches Some(info)
            && info.qualified_name@ == q)
}

/// Every `use` of a unit that imports from a unit names an exported name.
pub open spec fn imports_exported(ats: Seq<crate::utils::ats::ParsedAT>, infos: Seq<ATInfo>) -> bool {
    forall|i: int, u: int|
        0 <= i < ats.len() && 0 <= u < uses_of(ats[i].program.statements@).len() ==> (#[trigger] unit_use(
            ats,
            infos,
            i,
            u,
        ) matches Some((at, q)) ==> is_exported(ats, q))
}


/// Checks each unit's `use`s of units against what the units export: a `use` of `@` or
/// of a dependency must name an exported symbol (the unit's name, `$` and the path's
/// segments after the first joined by `$`), which the unit then imports under the
/// path's last segment. A symbol not exported is an error.
pub fn resolve_imports(parsed_ats: Vec<crate::utils::ats::ParsedAT>, at_infos: &[ATInfo]) -> (res: Result<
    Vec<crate::utils::ats::ParsedAT>,
    String,
>)
    requires
        at_infos@.len() >= parsed_ats@.len(),
        forall|i: int| 0 <= i < parsed_ats@.len() ==> (#[trigger] parsed_ats@[i]).imports.wf(),
    ensures
        res matches Ok(v) ==> v@.len() == parsed_ats@.len() && forall|i: int|
            0 <= i < v@.len() ==> (#[trigger] v@[i]).program == parsed_ats@[i].program && v@[i].name
                == parsed_ats@[i].name,
        (forall|i: int| 0 <= i < parsed_ats@.len() ==> uses_of((#[trigger] parsed_ats@[i]).program.statements@).len()
            == 0) ==> (res matches Ok(v) && v@ == parsed_ats@),
        res is Ok <==> imports_exported(parsed_ats@, at_infos@),
        res matches Ok(v) ==> forall|i: int|
            0 <= i < parsed_ats@.len() ==> #[trigger] imports_recorded(
                parsed_ats@,
                at_infos@,
                i,
                v@[i].imports,
                uses_of(parsed_ats@[i].program.statements@).len() as int,
            ),
        res matches Err(m) ==> exists|i: int, u: int|
            0 <= i < parsed_ats@.len() && 0 <= u < uses_of(parsed_ats@[i].program.statements@).len() && (
            #[trigger] unit_use(parsed_ats@, at_infos@, i, u) matches Some((at, q)) && !is_exported(parsed_ats@, q)
                && m@ == "Symbol '"@ + uses_of(parsed_ats@[i].program.statements@)[u].0 + "' not exported by AT '"@
                + at + "'"@),
{
    let ghost orig = parsed_ats@;
    let mut exported: StrMap<()> = StrMap::new();
    let mut a: usize = 0;
    while a < parsed_ats.len()
        invariant
            0 <= a <= parsed_ats@.len(),
            exported.wf(),
            orig == parsed_ats@,
            forall|q: Seq<char>|
                exported.has(q) <==> exists|a2: int, k: int|
                    0 <= a2 < a && 0 <= k < exported_names(orig[a2].program.statements@).len() && q
                        == #[trigger] qualified_export(orig, a2, k),
        decreases parsed_ats.len() - a,
    {
        let symbols = collect_exported_symbols(&parsed_ats[a].program);
        let ghost names = exported_names(orig[a as int].program.statements@);
        proof {
            assert(symbols@.map_values(|e: (String, SymbolType)| (e.0@, e.1)).len() == symbols@.len());
        }
        let mut s: usize = 0;
        while s < symbols.len()
            invariant
                0 <= s <= symbols@.len(),
                exported.wf(),
                a < parsed_ats@.len(),
                orig == parsed_ats@,
                names == exported_names(orig[a as int].program.statements@),
                symbols@.len() == names.len(),
                forall|j: int| 0 <= j < symbols@.len() ==> (#[trigger] symbols@[j]).0@ == names[j].0,
                forall|q: Seq<char>|
                    exported.has(q) <==> (exists|a2: int, k: int|
                        0 <= a2 < a && 0 <= k < exported_names(orig[a2].program.statements@).len() && q
                            == #[trigger] qualified_export(orig, a2, k)) || (exists|k: int|
                        0 <= k < s && q == #[trigger] qualified_export(orig, a as int, k)),
            decreases symbols.len() - s,
        {
            let key = concat3(parsed_ats[a].name.as_str(), "$", symbols[s].0.as_str());
            proof {
                reveal_strlit("$");
                assert(key@ == qualified_export(orig, a as int, s as int));
            }
            exported.insert(key, ());
            proof {
                assert forall|q: Seq<char>|
                    exported.has(q) <==> (exists|a2: int, k: int|
                        0 <= a2 < a && 0 <= k < exported_names(orig[a2].program.statements@).len() && q
                            == #[trigger] qualified_export(orig, a2, k)) || (exists|k: int|
                        0 <= k < s + 1 && q == #[trigger] qualified_export(orig, a as int, k)) by {
                    if q == qualified_export(orig, a as int, s as int) {
                    }
                }
            }
            s = s + 1;
        }
        proof {
            assert forall|q: Seq<char>|
                exported.has(q) <==> exists|a2: int, k: int|
                    0 <= a2 < a + 1 && 0 <= k < exported_names(orig[a2].program.statements@).len() && q
                        == #[trigger] qualified_export(orig, a2, k) by {
                if exists|a2: int, k: int|
                    0 <= a2 < a + 1 && 0 <= k < exported_names(orig[a2].program.statements@).len() && q
                        == #[trigger] qualified_export(orig, a2, k) {
                    let (a2, k) = choose|a2: int, k: int|
                        0 <= a2 < a + 1 && 0 <= k < exported_names(orig[a2].program.statements@).len() && q
                            == #[trigger] qualified_export(orig, a2, k);
                    if a2 == a {
                        assert(q == qualified_export(orig, a as int, k));
                    }
                }
            }
        }
        a = a + 1;
    }
    proof {
        assert forall|q: Seq<char>| exported.has(q) <==> is_exported(orig, q) by {}
    }
    let ghost n = parsed_ats@.len();
    let mut rest = parsed_ats;
    let mut out: Vec<crate::utils::ats::ParsedAT> = Vec::new();
    let mut idx: usize = 0;
    while rest.len() > 0
        invariant
            idx + rest@.len() == n,
            out@.len() == idx,
            at_infos@.len() >= n,
            exported.wf(),
            forall|i: int| 0 <= i < rest@.len() ==> (#[trigger] rest@[i]).imports.wf(),
            n == orig.len(),
            rest@ == orig.subrange(idx as int, n as int),
            orig == parsed_ats@,
            forall|i: int| 0 <= i < idx ==> (#[trigger] out@[i]).program == orig[i].program && out@[i].name
                == orig[i].name,
            (forall|i: int| 0 <= i < orig.len() ==> uses_of((#[trigger] orig[i]).program.statements@).len() == 0)
                ==> out@ == orig.subrange(0, idx as int),
            forall|q: Seq<char>| exported.has(q) <==> is_exported(orig, q),
            forall|i: int, u: int|
                0 <= i < idx && 0 <= u < uses_of(orig[i].program.statements@).len() ==> (#[trigger] unit_use(
                    orig,
                    at_infos@,
                    i,
                    u,
                ) matches Some((at, q)) ==> is_exported(orig, q)),
            forall|i: int|
                0 <= i < idx ==> #[trigger] imports_recorded(
                    orig,
                    at_infos@,
                    i,
                    out@[i].imports,
                    uses_of(orig[i].program.statements@).len() as int,
                ),
        decreases rest.len(),
    {
        let mut parsed_at = rest.remove(0);
        assert(parsed_at == orig[idx as int]);
        let ghost before = parsed_at;
        assert(parsed_at.imports.wf());
        let at_info = &at_infos[idx];
        let mut dependency_names: Vec<String> = Vec::new();
        let mut d: usize = 0;
        while d < at_info.dependencies.len()
            invariant
                0 <= d <= at_info.dependencies@.len(),
                dependency_names@.len() == d,
                forall|j: int| 0 <= j < d ==> (#[trigger] dependency_names@[j])@ == at_info.dependencies@[j].name@,
            decreases at_info.dependencies.len() - d,
        {
            dependency_names.push(at_info.dependencies[d].name.clone());
            d = d + 1;
        }
        let ghost dn = dep_names(at_infos@[idx as int]);
        proof {
            assert forall|p: Seq<char>|
                dn.contains(p) <==> exists|j: int| 0 <= j < dependency_names@.len() && #[trigger] dependency_names@[j]@
                    == p by {
                if dn.contains(p) {
                    let j = choose|j: int| 0 <= j < dn.len() && dn[j] == p;
                    assert(dependency_names@[j]@ == p);
                }
                if exists|j: int| 0 <= j < dependency_names@.len() && #[trigger] dependency_names@[j]@ == p {
                    let j = choose|j: int| 0 <= j < dependency_names@.len() && #[trigger] dependency_names@[j]@ == p;
                    assert(dn[j] == p);
                }
            }
        }
        let uses = collect_use_statements(&parsed_at.program);
        proof {
            if forall|i: int| 0 <= i < orig.len() ==> uses_of((#[trigger] orig[i]).program.statements@).len() == 0 {
                assert(uses_of(orig[idx as int].program.statements@).len() == 0);
                assert(uses@.map_values(|u: (String, Vec<String>)| (u.0@, u.1@.map_values(|p: String| p@))).len() == uses@.len());
            }
        }
        let mut u: usize = 0;
        while u < uses.len()
            invariant
                0 <= u <= uses@.len(),
                parsed_at.imports.wf(),
                exported.wf(),
                parsed_at.program == before.program,
                parsed_at.name == before.name,
                u == 0 ==> parsed_at == before,
                (forall|i: int| 0 <= i < orig.len() ==> uses_of((#[trigger] orig[i]).program.statements@).len() == 0)
                    ==> uses@.len() == 0,
                orig == parsed_ats@,
                before == orig[idx as int],
                idx < orig.len(),
                uses@.map_values(|x: (String, Vec<String>)| (x.0@, x.1@.map_values(|p: String| p@))) == uses_of(
                    orig[idx as int].program.statements@,
                ),
                forall|q: Seq<char>| exported.has(q) <==> is_exported(orig, q),
                dn == dep_names(at_infos@[idx as int]),
                forall|p: Seq<char>|
                    dn.contains(p) <==> exists|j: int| 0 <= j < dependency_names@.len() && #[trigger] dependency_names@[j]@
                        == p,
                forall|u2: int|
                    0 <= u2 < u ==> (#[trigger] unit_use(orig, at_infos@, idx as int, u2) matches Some((at, q))
                        ==> is_exported(orig, q)),
                imports_recorded(orig, at_infos@, idx as int, parsed_at.imports, u as int),
            decreases uses.len() - u,
        {
            let bare_name = &uses[u].0;
            let use_path = &uses[u].1;
            let ghost path = uses_of(orig[idx as int].program.statements@)[u as int].1;
            proof {
                reveal_strlit("@");
                reveal_strlit("$");
                assert(uses@.map_values(|x: (String, Vec<String>)| (x.0@, x.1@.map_values(|p: String| p@)))[u as int]
                    == (bare_name@, use_path@.map_values(|p: String| p@)));
                assert(path == use_path@.map_values(|p: String| p@));
                if path.len() > 0 {
                    assert(path[0] == use_path@[0]@);
                }
            }
            if starts_with_unit(use_path, &dependency_names) {
                let at_name = if str_eq(use_path[0].as_str(), "@") {
                    parsed_at.name.clone()
                } else {
                    use_path[0].clone()
                };
                let tail = join_tail(use_path);
                let qualified = concat3(at_name.as_str(), "$", tail.as_str());
                proof {
                    if path.len() > 1 {
                        assert(use_path@.map_values(|x: String| x@).subrange(1, use_path@.len() as int) =~= path.subrange(
                            1,
                            path.len() as int,
                        ));
                    }
                    assert(unit_use(orig, at_infos@, idx as int, u as int) == Some((at_name@, qualified@)));
                }
                if !exported.contains_key(qualified.as_str()) {
                    let m = concat3("Symbol '", bare_name.as_str(), "' not exported by AT '");
                    let msg = concat3(m.as_str(), at_name.as_str(), "'");
                    proof {
                        assert(uses_of(orig[idx as int].program.statements@)[u as int].0 == bare_name@);
                        assert(!imports_exported(orig, at_infos@));
                    }
                    return Err(msg);
                }
                let ghost imports0 = parsed_at.imports;
                let ghost q = qualified@;
                parsed_at.imports.insert(
                    bare_name.clone(),
                    crate::utils::ats::ImportInfo {
                        qualified_name: qualified,
                        from_at: at_name,
                        symbol_type: SymbolType::Function,
                    },
                );
                proof {
                    let us = uses_of(orig[idx as int].program.statements@);
                    assert(us[u as int].0 == bare_name@);
                    assert forall|u2: int|
                        0 <= u2 < u + 1 && named_last(us, u2, u + 1) implies (#[trigger] unit_use(
                            orig,
                            at_infos@,
                            idx as int,
                            u2,
                        ) matches Some((at, q2)) ==> parsed_at.imports.lookup(us[u2].0) matches Some(info)
                            && info.qualified_name@ == q2) by {
                        if u2 < u {
                            assert(us[u as int].0 != us[u2].0);
                            assert(named_last(us, u2, u as int));
                        }
                    }
                }
            } else {
                proof {
                    let us = uses_of(orig[idx as int].program.statements@);
                    assert(unit_use(orig, at_infos@, idx as int, u as int) is None);
                    assert forall|u2: int|
                        0 <= u2 < u + 1 && named_last(us, u2, u + 1) implies (#[trigger] unit_use(
                            orig,
                            at_infos@,
                            idx as int,
                            u2,
                        ) matches Some((at, q2)) ==> parsed_at.imports.lookup(us[u2].0) matches Some(info)
                            && info.qualified_name@ == q2) by {
                        if u2 < u {
                            assert(named_last(us, u2, u as int));
                        }
                    }
                }
            }
            u = u + 1;
        }
        proof {
            if forall|i: int| 0 <= i < orig.len() ==> uses_of((#[trigger] orig[i]).program.statements@).len() == 0 {
                assert(uses_of(orig[idx as int].program.statements@).len() == 0);
                assert(uses@.len() == 0);
            }
        }
        proof {
            assert(uses@.map_values(|x: (String, Vec<String>)| (x.0@, x.1@.map_values(|p: String| p@))).len()
                == uses@.len());
        }
        out.push(parsed_at);
        proof {
            assert(out@.last() == parsed_at);
        }
        idx = idx + 1;
        proof {
            assert(rest@ =~= orig.subrange(idx as int, n as int));
            if forall|i: int| 0 <= i < orig.len() ==> uses_of((#[trigger] orig[i]).program.statements@).len() == 0 {
                assert(out@ =~= orig.subrange(0, idx as int));
            }
        }
    }
    proof {
        if forall|i: int| 0 <= i < orig.len() ==> uses_of((#[trigger] orig[i]).program.statements@).len() == 0 {
            assert(out@ =~= orig);
        }
        assert(imports_exported(orig, at_infos@));
    }
    Ok(out)
}

/// What a `use` statement asks the driver for.
#[derive(Debug)]
pub enum UseTarget {
    /// `use @::a::b;`: the module `a::b` of the unit itself.
    OwnModule { segments: Vec<String> },
    /// `use Dep::a;`: `a` of the dependency `Dep`.
    Dependency { at_name: String, suffix: Vec<String> },
    /// `use a::b;`: the module file `a::b`, found through the search paths.
    Module,
}

/// What a `use` of `path` asks for, in a unit named `current_at_name` whose dependencies
/// are named `dependency_at_names`: a `use` starting with `@` or a dependency's name must
/// name something after it; one of several segments starting with an upper-case letter
/// must name a dependency.
pub fn classify_use(path: &Vec<String>, current_at_name: &str, dependency_at_names: &Vec<String>) -> (res: Result<
    UseTarget,
    String,
>)
    ensures
        path@.len() == 0 ==> res matches Ok(UseTarget::Module),
        path@.len() > 0 && path@[0]@ == "@"@ ==> (path@.len() < 2 <==> res is Err) && (path@.len() >= 2 ==> (res matches Ok(
            UseTarget::OwnModule { segments },
        ) && segments@ == path@.skip(1))),
        path@.len() > 0 && path@[0]@ != "@"@ && (exists|j: int| 0 <= j < dependency_at_names@.len() && #[trigger] dependency_at_names@[j]@ == path@[0]@) ==> (
        path@.len() < 2 <==> res is Err) && (path@.len() >= 2 ==> (res matches Ok(
            UseTarget::Dependency { at_name, suffix },
        ) && at_name@ == path@[0]@ && suffix@ == path@.skip(1))),
{
    if path.len() == 0 {
        return Ok(UseTarget::Module);
    }
    let first = &path[0];
    proof {
        reveal_strlit("@");
    }
    let is_self = str_eq(first.as_str(), "@");
    let is_dep = contains_string(dependency_at_names, first.as_str());
    if is_self || is_dep {
        if path.len() < 2 {
            let m = concat3("AT-qualified `use` must reference an item, e.g. `use ", first.as_str(), "::name;`");
            return Err(m);
        }
        let mut rest: Vec<String> = Vec::new();
        let mut i: usize = 1;
        while i < path.len()
            invariant
                1 <= i <= path@.len(),
                rest@ == path@.subrange(1, i as int),
            decreases path.len() - i,
        {
            rest.push(path[i].clone());
            i = i + 1;
        }
        assert(rest@ =~= path@.skip(1));
        if is_self {
            return Ok(UseTarget::OwnModule { segments: rest });
        }
        return Ok(UseTarget::Dependency { at_name: first.clone(), suffix: rest });
    }
    if path.len() > 1 {
        let cs = crate::utils::text::chars_of(first.as_str());
        if cs.len() > 0 && crate::lexing::chars::is_uppercase(cs[0]) {
            let a = concat3("AT '", first.as_str(), "' is not a declared dependency of '");
            let b = concat3(a.as_str(), current_at_name, "' (used in `use ");
            return Err(concat3(b.as_str(), first.as_str(), "::..;`)"));
        }
    }
    Ok(UseTarget::Module)
}

/// The imports that the public symbols `symbols` of the unit `at_name` give: each bare
/// name with its qualified name, the unit's name, `$` and the bare name.
pub fn qualified_imports(at_name: &str, symbols: &Vec<String>) -> (res: Vec<(String, String)>)
    ensures
        res@.len() == symbols@.len(),
        forall|i: int| 0 <= i < symbols@.len() ==> (#[trigger] res@[i]).0@ == symbols@[i]@ && res@[i].1@ == at_name@
            + "$"@ + symbols@[i]@,
{
    let mut out: Vec<(String, String)> = Vec::new();
    let mut i: usize = 0;
    while i < symbols.len()
        invariant
            0 <= i <= symbols@.len(),
            out@.len() == i,
            forall|j: int| 0 <= j < i ==> (#[trigger] out@[j]).0@ == symbols@[j]@ && out@[j].1@ == at_name@ + "$"@
                + symbols@[j]@,
        decreases symbols.len() - i,
    {
        out.push((symbols[i].clone(), concat3(at_name, "$", symbols[i].as_str())));
        i = i + 1;
    }
    out
}

/// The error for a `use` of `symbol_name` from the unit `dep_at_name` whose exported
/// symbols are `available`, if it does not export it: the message lists what it does
/// export, joined by `, `.
pub fn missing_export_error(symbol_name: &str, dep_at_name: &str, available: &Vec<String>) -> (res: Option<String>)
    ensures
        res is None <==> exists|j: int| 0 <= j < available@.len() && #[trigger] available@[j]@ == symbol_name@,
{
    if contains_string(available, symbol_name) {
        return None;
    }
    let mut list = String::new();
    let mut i: usize = 0;
    while i < available.len()
        invariant
            0 <= i <= available@.len(),
        decreases available.len() - i,
    {
        if i > 0 {
            list = concat(list.as_str(), ", ");
        }
        list = concat(list.as_str(), available[i].as_str());
        i = i + 1;
    }
    let a = concat3("Symbol '", symbol_name, "' not exported by AT '");
    let b = concat3(a.as_str(), dep_at_name, "' (available: ");
    Some(concat3(b.as_str(), list.as_str(), ")"))
}

/// One step of dropping repeated functions: a function label seen before starts a
/// function that is skipped up to the next label; any other instruction is kept unless
/// it is skipped.
pub open spec fn dedup_step(
    acc: (Seq<InstructionV>, Set<Seq<char>>, bool),
    i: InstructionV,
) -> (Seq<InstructionV>, Set<Seq<char>>, bool) {
    match i {
        InstructionV::FunctionLabel(n) => if acc.1.contains(n) {
            (acc.0, acc.1, true)
        } else {
            (acc.0.push(i), acc.1.insert(n), false)
        },
        _ => if acc.2 {
            acc
        } else {
            (acc.0.push(i), acc.1, acc.2)
        },
    }
}

/// `dedup_step` over `code` in order: the code kept, the function names seen, and whether
/// a repeated function is being skipped.
pub open spec fn dedup_fold(code: Seq<InstructionV>) -> (Seq<InstructionV>, Set<Seq<char>>, bool)
    decreases code.len(),
{
    if code.len() == 0 {
        (Seq::empty(), Set::empty(), false)
    } else {
        dedup_step(dedup_fold(code.drop_last()), code.last())
    }
}

/// Whether `x` and `y` are labels of functions of the same name.
pub open spec fn labels_clash(x: InstructionV, y: InstructionV) -> bool {
    x matches InstructionV::FunctionLabel(a) && y matches InstructionV::FunctionLabel(b) && a == b
}

/// Whether no two function labels of `code` have the same name.
pub open spec fn labels_distinct(code: Seq<InstructionV>) -> bool {
    forall|i: int, j: int| #![trigger code[i], code[j]] 0 <= i < j < code.len() ==> !labels_clash(code[i], code[j])
}

/// The names of the function labels of `code`.
pub open spec fn label_names(code: Seq<InstructionV>) -> Set<Seq<char>> {
    Set::new(|n: Seq<char>| exists|i: int| 0 <= i < code.len() && code[i] == InstructionV::FunctionLabel(n))
}

/// What `dedup_fold` keeps has each function once, and the names it has seen are those of
/// the labels it kept.
pub proof fn lemma_dedup_fold(code: Seq<InstructionV>)
    ensures
        labels_distinct(dedup_fold(code).0),
        label_names(dedup_fold(code).0) == dedup_fold(code).1,
    decreases code.len(),
{
    if code.len() > 0 {
        lemma_dedup_fold(code.drop_last());
        let prev = dedup_fold(code.drop_last());
        let cur = dedup_fold(code);
        let i = code.last();
        if let InstructionV::FunctionLabel(n) = i {
            if !prev.1.contains(n) {
                assert forall|a: int, b: int| #![trigger cur.0[a], cur.0[b]] 0 <= a < b < cur.0.len() implies !labels_clash(
                    cur.0[a],
                    cur.0[b],
                ) by {
                    if b == cur.0.len() - 1 {
                        if let InstructionV::FunctionLabel(x) = cur.0[a] {
                            assert(prev.0[a] == cur.0[a]);
                            assert(label_names(prev.0).contains(x));
                        }
                    } else {
                        assert(prev.0[a] == cur.0[a] && prev.0[b] == cur.0[b]);
                    }
                }
                assert forall|m: Seq<char>| label_names(cur.0).contains(m) <==> cur.1.contains(m) by {
                    if cur.1.contains(m) && m != n {
                        assert(label_names(prev.0).contains(m));
                        let w = choose|w: int| 0 <= w < prev.0.len() && prev.0[w] == InstructionV::FunctionLabel(m);
                        assert(cur.0[w] == prev.0[w]);
                    }
                    if m == n {
                        assert(cur.0[cur.0.len() - 1] == InstructionV::FunctionLabel(n));
                    }
                    if label_names(cur.0).contains(m) {
                        let w = choose|w: int| 0 <= w < cur.0.len() && cur.0[w] == InstructionV::FunctionLabel(m);
                        if w < prev.0.len() {
                            assert(prev.0[w] == cur.0[w]);
                        }
                    }
                }
                assert(label_names(cur.0) =~= cur.1);
            }
        } else if !prev.2 {
            assert forall|a: int, b: int| #![trigger cur.0[a], cur.0[b]] 0 <= a < b < cur.0.len() implies !labels_clash(
                cur.0[a],
                cur.0[b],
            ) by {
                if b < cur.0.len() - 1 {
                    assert(prev.0[a] == cur.0[a] && prev.0[b] == cur.0[b]);
                }
            }
            assert forall|m: Seq<char>| label_names(cur.0).contains(m) <==> label_names(prev.0).contains(m) by {
                if label_names(cur.0).contains(m) {
                    let w = choose|w: int| 0 <= w < cur.0.len() && cur.0[w] == InstructionV::FunctionLabel(m);
                    if w < prev.0.len() {
                        assert(prev.0[w] == cur.0[w]);
                    }
                }
                if label_names(prev.0).contains(m) {
                    let w = choose|w: int| 0 <= w < prev.0.len() && prev.0[w] == InstructionV::FunctionLabel(m);
                    assert(cur.0[w] == prev.0[w]);
                }
            }
            assert(label_names(cur.0) =~= cur.1);
        }
    }
}

/// Code lowered from several units may define a function more than once (an instance
/// asked for by two units): only the first definition of each name is kept, the code of
/// the others up to the next function label dropped.
pub fn dedupe_functions(code: Vec<Instruction>) -> (res: Vec<Instruction>)
    ensures
        instrs_view(res@) == dedup_fold(instrs_view(code@)).0,
        labels_distinct(instrs_view(res@)),
{
    let ghost orig = instrs_view(code@);
    let mut seen: Vec<String> = Vec::new();
    let mut skip = false;
    let mut out: Vec<Instruction> = Vec::new();
    let mut i: usize = 0;
    while i < code.len()
        invariant
            0 <= i <= code@.len(),
            orig == instrs_view(code@),
            instrs_view(out@) == dedup_fold(orig.take(i as int)).0,
            skip == dedup_fold(orig.take(i as int)).2,
            forall|n: Seq<char>| #[trigger] dedup_fold(orig.take(i as int)).1.contains(n) <==> exists|j: int|
                0 <= j < seen@.len() && #[trigger] seen@[j]@ == n,
        decreases code.len() - i,
    {
        proof {
            assert(orig.take(i + 1).drop_last() =~= orig.take(i as int));
            assert(orig.take(i + 1).last() == code@[i as int].view());
        }
        let inst = code[i].duplicate();
        let ghost before = out@;
        match &code[i] {
            Instruction::FunctionLabel(name) => {
                if contains_string(&seen, name.as_str()) {
                    skip = true;
                } else {
                    let ghost old_seen = seen@;
                    let ghost prev = dedup_fold(orig.take(i as int));
                    proof {
                        assert(!prev.1.contains(name@));
                        assert(dedup_fold(orig.take(i + 1)) == dedup_step(prev, InstructionV::FunctionLabel(name@)));
                        assert(dedup_fold(orig.take(i + 1)).1 == prev.1.insert(name@));
                    }
                    seen.push(name.clone());
                    skip = false;
                    out.push(inst);
                    proof {
                        assert(instrs_view(out@) =~= instrs_view(before).push(inst.view()));
                        assert forall|n: Seq<char>| #[trigger] dedup_fold(orig.take(i + 1)).1.contains(n) <==> exists|j: int|
                            0 <= j < seen@.len() && #[trigger] seen@[j]@ == n by {
                            if n == name@ {
                                assert(seen@[seen@.len() - 1]@ == n);
                            } else {
                                if prev.1.contains(n) {
                                    let j = choose|j: int| 0 <= j < old_seen.len() && #[trigger] old_seen[j]@ == n;
                                    assert(seen@[j] == old_seen[j]);
                                }
                                if exists|j: int| 0 <= j < seen@.len() && #[trigger] seen@[j]@ == n {
                                    let j = choose|j: int| 0 <= j < seen@.len() && #[trigger] seen@[j]@ == n;
                                    if j < old_seen.len() {
                                        assert(seen@[j] == old_seen[j]);
                                        assert(prev.1.contains(n));
                                    }
                                }
                            }
                        }
                    }
                }
            },
            _ => {
                if !skip {
                    out.push(inst);
                    proof {
                        assert(instrs_view(out@) =~= instrs_view(before).push(inst.view()));
                    }
                }
            },
        }
        i = i + 1;
    }
    proof {
        assert(orig.take(code@.len() as int) =~= orig);
        lemma_dedup_fold(orig);
    }
    out
}

/// The names of the public functions among `s`, in order.
pub open spec fn public_names(s: Seq<Stmt>) -> Seq<Seq<char>>
    decreases s.len(),
{
    if s.len() == 0 {
        Seq::empty()
    } else {
        public_names(s.drop_last()) + match s.last() {
            Stmt::Function { name, public, .. } => if public {
                seq![name.value@]
            } else {
                Seq::empty()
            },
            _ => Seq::empty(),
        }
    }
}

/// The names of the public functions of a program, in order.
pub fn public_function_names(program: &Program) -> (res: Vec<String>)
    ensures
        res@.map_values(|n: String| n@) == public_names(program.statements@),
{
    let ghost st = program.statements@;
    let mut out: Vec<String> = Vec::new();
    let mut i: usize = 0;
    while i < program.statements.len()
        invariant
            0 <= i <= st.len(),
            st == program.statements@,
            out@.map_values(|n: String| n@) == public_names(st.take(i as int)),
        decreases program.statements.len() - i,
    {
        proof {
            assert(st.take(i + 1).drop_last() =~= st.take(i as int));
            assert(st.take(i + 1).last() == st[i as int]);
        }
        let ghost before = out@;
        if let Stmt::Function { name, public, .. } = &program.statements[i] {
            if *public {
                out.push(name.value.clone());
                proof {
                    assert(out@.map_values(|n: String| n@) =~= before.map_values(|n: String| n@) + seq![name.value@]);
                }
            } else {
                proof {
                    assert(public_names(st.take(i + 1)) =~= public_names(st.take(i as int)));
                }
            }
        } else {
            proof {
                assert(public_names(st.take(i + 1)) =~= public_names(st.take(i as int)));
            }
        }
        i = i + 1;
    }
    proof {
        assert(st.take(st.len() as int) =~= st);
    }
    out
}

/// Why a program could not be compiled: the analyser refused it, or lowering failed.
#[derive(Debug)]
pub enum CompileFailure {
    Analysis(AnalyserError),
    Lowering(LowerError),
}

/// The lowering of a program that `analyser` has checked: the constants the analyser
/// recorded, and the generic structs it recorded as blueprints (their fields as
/// parameters located at the start of `filename`, whose contents are `contents` if they
/// could be read); then the program's code, each function kept once.
pub fn lower_program(program: &Program, analyser: &Analyser, filename: &str, contents: Option<&str>) -> (res:
    Result<Vec<Instruction>, LowerError>)
    requires
        stmts_no_use(program.statements@),
    ensures
        res matches Ok(code) ==> labels_distinct(instrs_view(code@)),
        res is Ok ==> forall|j: int|
            0 <= j < program.statements@.len() ==> #[trigger] top_level_declaration(program.statements@[j]),
        program.statements@.len() == 0 ==> (res matches Ok(code) && code@.len() == 0),
        program.statements@.len() == 1 ==> (simple_fn_decl(program.statements@[0]) matches Some(n) ==> (res matches Ok(
            code,
        ) && instrs_view(code@) == dedup_fold(
            seq![InstructionV::FunctionLabel(n), InstructionV::Return { value: ValueV::Void }],
        ).0)),
        all_simple_fns(program.statements@) ==> (res matches Ok(code) && instrs_view(code@) == dedup_fold(
            empty_functions_code(simple_fn_names(program.statements@)),
        ).0),
        forall|g: IRGen|
            #[trigger] plain_program(g, program.statements@) is Some && g.labels_issued() == 0 && g.exit_labels().len()
                == 0 && (plain_program(g, program.statements@)->0).1 <= usize::MAX ==> (res matches Ok(code)
                && instrs_view(code@) == dedup_fold((plain_program(g, program.statements@)->0).0).0),
{
    let mut irgen = IRGen::new();
    let mut c: usize = 0;
    while c < analyser.constants.entries.len()
        invariant
            0 <= c <= analyser.constants.entries@.len(),
            irgen.wf(),
            irgen.nothing_deferred(),
            irgen.instrs().len() == 0,
            irgen.functions_issued() == 0,
            irgen.labels_issued() == 0,
            irgen.exit_labels().len() == 0,
        decreases analyser.constants.entries.len() - c,
    {
        let entry = &analyser.constants.entries[c];
        irgen.add_constant(entry.0.clone(), clone_type(&(entry.1).0), (entry.1).1.duplicate());
        c = c + 1;
    }
    let mut k: usize = 0;
    while k < analyser.structs.entries.len()
        invariant
            0 <= k <= analyser.structs.entries@.len(),
            irgen.wf(),
            irgen.nothing_deferred(),
            irgen.instrs().len() == 0,
            irgen.functions_issued() == 0,
            irgen.labels_issued() == 0,
            irgen.exit_labels().len() == 0,
        decreases analyser.structs.entries.len() - k,
    {
        let name = &analyser.structs.entries[k].0;
        let sig = &analyser.structs.entries[k].1;
        if sig.generic_params.len() > 0 {
            let mut fields_vec: Vec<Parameter> = Vec::new();
            let count = field_count(&sig.fields);
            let mut f: usize = 0;
            while f < count
                invariant
                    0 <= f <= count,
                    count == field_entries(sig.fields).len(),
                decreases count - f,
            {
                let (fname, ftype) = field_at(&sig.fields, f);
                fields_vec.push(
                    Parameter {
                        name: Identifier {
                            value: fname.clone(),
                            location: Location::new_with_file(0, 0, filename, contents),
                        },
                        ptype: Some(clone_type(ftype)),
                        is_variadic: false,
                    },
                );
                f = f + 1;
            }
            irgen.add_struct_blueprint(name.clone(), duplicate_strings(&sig.generic_params), fields_vec);
        }
        k = k + 1;
    }
    let count: usize = program.statements.len();
    proof {
        assert(irgen.functions_issued() + count <= usize::MAX);
        assert forall|g: IRGen|
            #[trigger] plain_program(g, program.statements@) is Some && g.labels_issued() == 0 && g.exit_labels().len()
                == 0 implies plain_program(g, program.statements@) == plain_program(irgen, program.statements@) by {
            assert(g.exit_labels() =~= irgen.exit_labels());
            lemma_plain_program_same(g, irgen, program.statements@);
        }
    }
    irgen.gen_program(program)?;
    let code = irgen.take_code();
    let out = dedupe_functions(code);
    proof {
        if program.statements@.len() == 1 && simple_fn_decl(program.statements@[0]) is Some {
            assert(instrs_view(code@) =~= views(code@));
        }
        if all_simple_fns(program.statements@) || plain_program(irgen, program.statements@) is Some {
            assert(instrs_view(code@) =~= views(code@));
        }
        if program.statements@.len() == 0 {
            assert(instrs_view(code@) =~= Seq::<InstructionV>::empty());
            assert(instrs_view(out@).len() == out@.len());
        }
    }
    Ok(out)
}

/// Compiles a program as far as the back end: analysed, lowered and de-duplicated; gives
/// the code and the names of the public functions, or why it failed.
pub fn compile_ast_program(program: &Program, filename: &str, contents: Option<&str>) -> (res: Result<
    (Vec<Instruction>, Vec<String>),
    CompileFailure,
>)
    requires
        stmts_no_use(program.statements@),
    ensures
        res matches Ok((code, names)) ==> labels_distinct(instrs_view(code@)) && names@.map_values(|n: String| n@)
            == public_names(program.statements@),
        res is Ok ==> forall|j: int|
            0 <= j < program.statements@.len() ==> #[trigger] top_level_declaration(program.statements@[j]),
        program.statements@.len() == 0 ==> (res matches Ok((code, names)) && code@.len() == 0),
        program.statements@.len() == 1 ==> (simple_fn_decl(program.statements@[0]) matches Some(n) ==> (res matches Ok(
            (code, names),
        ) && instrs_view(code@) == dedup_fold(
            seq![InstructionV::FunctionLabel(n), InstructionV::Return { value: ValueV::Void }],
        ).0)),
        all_simple_fns(program.statements@) && distinct_names(simple_fn_names(program.statements@)) ==> (res matches Ok(
            (code, names),
        ) && instrs_view(code@) == dedup_fold(empty_functions_code(simple_fn_names(program.statements@))).0),
{
    let mut analyser = Analyser::new();
    match analyser.analyse(program) {
        Ok(()) => {},
        Err(e) => {
            return Err(CompileFailure::Analysis(e));
        },
    }
    let code = match lower_program(program, &analyser, filename, contents) {
        Ok(c) => c,
        Err(e) => {
            return Err(CompileFailure::Lowering(e));
        },
    };
    let names = public_function_names(program);
    Ok((code, names))
}

/// Whether `order` lists each of `0..n` exactly once.
pub open spec fn is_permutation_of_range(order: Seq<usize>, n: nat) -> bool {
    &&& order.len() == n
    &&& forall|i: int| 0 <= i < order.len() ==> order[i] < n
    &&& forall|i: int, j: int| 0 <= i < j < order.len() ==> order[i] != order[j]
}

/// The order in which the files of a unit are taken, `deps[f]` being the files that file
/// `f` uses (a number out of range for a module outside the unit): a file once every file
/// it uses has been taken, the first ready file first; when that does not take every
/// file (a cycle, or a use from outside the unit), the files in their own order.
pub fn order_files_by_uses(deps: &Vec<Vec<usize>>) -> (res: Vec<usize>)
    ensures
        is_permutation_of_range(res@, deps@.len()),
{
    let n = deps.len();
    let mut in_degree: Vec<usize> = Vec::new();
    let mut dependents: Vec<Vec<usize>> = Vec::new();
    let mut f: usize = 0;
    while f < n
        invariant
            0 <= f <= n,
            n == deps@.len(),
            in_degree@.len() == f,
            dependents@.len() == f,
            forall|i: int, j: int| 0 <= i < dependents@.len() && 0 <= j < dependents@[i].len() ==> #[trigger] dependents@[i][j] < n,
        decreases n - f,
    {
        in_degree.push(deps[f].len());
        let mut list: Vec<usize> = Vec::new();
        let mut g: usize = 0;
        while g < n
            invariant
                0 <= g <= n,
                n == deps@.len(),
                forall|j: int| 0 <= j < list@.len() ==> list@[j] < n,
            decreases n - g,
        {
            let mut d: usize = 0;
            while d < deps[g].len()
                invariant
                    0 <= d <= deps@[g as int].len(),
                    g < n,
                    n == deps@.len(),
                    forall|j: int| 0 <= j < list@.len() ==> list@[j] < n,
                decreases deps@[g as int].len() - d,
            {
                if deps[g][d] == f {
                    list.push(g);
                }
                d = d + 1;
            }
            g = g + 1;
        }
        dependents.push(list);
        f = f + 1;
    }
    let mut queue: Vec<usize> = Vec::new();
    let mut f: usize = 0;
    while f < n
        invariant
            0 <= f <= n,
            in_degree@.len() == n,
            forall|i: int| 0 <= i < queue@.len() ==> queue@[i] < n,
        decreases n - f,
    {
        if in_degree[f] == 0 {
            queue.push(f);
        }
        f = f + 1;
    }
    let mut order: Vec<usize> = Vec::new();
    let mut head: usize = 0;
    let mut steps: usize = 0;
    while head < queue.len() && steps < n
        invariant
            0 <= head <= queue@.len(),
            in_degree@.len() == n,
            dependents@.len() == n,
            n == deps@.len(),
            forall|i: int| 0 <= i < queue@.len() ==> queue@[i] < n,
            forall|i: int, j: int| 0 <= i < dependents@.len() && 0 <= j < dependents@[i].len() ==> #[trigger] dependents@[i][j] < n,
        decreases n - steps,
    {
        let file = queue[head];
        head = head + 1;
        steps = steps + 1;
        order.push(file);
        let mut k: usize = 0;
        while k < dependents[file].len()
            invariant
                0 <= k <= dependents@[file as int].len(),
                file < n,
                in_degree@.len() == n,
                dependents@.len() == n,
                forall|i: int| 0 <= i < queue@.len() ==> queue@[i] < n,
                forall|i: int, j: int| 0 <= i < dependents@.len() && 0 <= j < dependents@[i].len() ==> #[trigger] dependents@[i][j] < n,
                head <= queue@.len(),
            decreases dependents@[file as int].len() - k,
        {
            let dependent = dependents[file][k];
            if in_degree[dependent] > 0 {
                let deg = in_degree[dependent] - 1;
                in_degree.set(dependent, deg);
                if deg == 0 {
                    queue.push(dependent);
                }
            }
            k = k + 1;
        }
    }
    let mut seen: Vec<bool> = Vec::new();
    let mut f: usize = 0;
    while f < n
        invariant
            0 <= f <= n,
            seen@.len() == f,
            forall|i: int| 0 <= i < f ==> !seen@[i],
        decreases n - f,
    {
        seen.push(false);
        f = f + 1;
    }
    let mut valid = order.len() == n;
    let mut i: usize = 0;
    while valid && i < order.len()
        invariant
            0 <= i <= order@.len(),
            seen@.len() == n,
            valid ==> order@.len() == n,
            valid ==> forall|a: int| 0 <= a < i ==> order@[a] < n,
            valid ==> forall|a: int, b: int| 0 <= a < b < i ==> order@[a] != order@[b],
            valid ==> forall|x: int| 0 <= x < n ==> (seen@[x] <==> exists|a: int| 0 <= a < i && order@[a] == x),
        ensures
            valid ==> i == order@.len(),
            valid ==> order@.len() == n,
            valid ==> forall|a: int| 0 <= a < i ==> order@[a] < n,
            valid ==> forall|a: int, b: int| 0 <= a < b < i ==> order@[a] != order@[b],
        decreases order.len() - i,
    {
        let x = order[i];
        if x >= n || seen[x] {
            valid = false;
            break;
        } else {
            proof {
                assert forall|a: int| 0 <= a < i implies order@[a] != x by {
                    if order@[a] == x {
                        assert(seen@[x as int]);
                    }
                }
            }
            seen.set(x, true);
            i = i + 1;
        }
    }
    if valid {
        return order;
    }
    let mut identity: Vec<usize> = Vec::new();
    let mut f: usize = 0;
    while f < n
        invariant
            0 <= f <= n,
            identity@.len() == f,
            forall|a: int| 0 <= a < f ==> identity@[a] == a,
        decreases n - f,
    {
        identity.push(f);
        f = f + 1;
    }
    identity
}

/// Whether the unit `at` has `file` as its entry file or as one of its files.
pub open spec fn unit_has_file(at: ATInfo, file: Seq<char>) -> bool {
    at.entry_file@ == file || exists|j: int| 0 <= j < at.files@.len() && #[trigger] at.files@[j].path@ == file
}

/// The entry for compiling the file `file_path`: the first unit that holds it, marked as
/// the one under work; a file of no unit is an error.
pub fn entry_for_file(ats: &[ATInfo], file_path: &str) -> (res: Result<crate::utils::ats::ATEntry, String>)
    ensures
        match res {
            Ok(e) => e.info < ats@.len() && e.is_current && unit_has_file(ats@[e.info as int], file_path@) && forall|
                k: int,
            | 0 <= k < e.info ==> !unit_has_file(#[trigger] ats@[k], file_path@),
            Err(m) => (forall|k: int| 0 <= k < ats@.len() ==> !unit_has_file(#[trigger] ats@[k], file_path@)) && m@
                == "File '"@ + file_path@ + "' does not belong to any known AT"@,
        },
{
    let mut i: usize = 0;
    while i < ats.len()
        invariant
            0 <= i <= ats@.len(),
            forall|k: int| 0 <= k < i ==> !unit_has_file(#[trigger] ats@[k], file_path@),
        decreases ats.len() - i,
    {
        let at = &ats[i];
        let mut found = str_eq(at.entry_file.as_str(), file_path);
        let mut j: usize = 0;
        while !found && j < at.files.len()
            invariant
                0 <= j <= at.files@.len(),
                found ==> unit_has_file(*at, file_path@),
                !found ==> at.entry_file@ != file_path@ && forall|m: int| 0 <= m < j ==> #[trigger] at.files@[m].path@ != file_path@,
            decreases at.files.len() - j,
        {
            if str_eq(at.files[j].path.as_str(), file_path) {
                found = true;
            }
            j = j + 1;
        }
        if found {
            return Ok(crate::utils::ats::ATEntry { info: i, is_current: true });
        }
        i = i + 1;
    }
    Err(concat3("File '", file_path, "' does not belong to any known AT"))
}

// ------------------------------------------------------------------------------------------
// Ordering units by their dependencies
// ------------------------------------------------------------------------------------------

/// The index of the unit named `n`: the last unit of that name, as a table built from the
/// list in order keeps it; none if no unit has that name.
pub open spec fn unit_index(ats: Seq<ATInfo>, n: Seq<char>) -> Option<int>
    decreases ats.len(),
{
    if ats.len() == 0 {
        None
    } else if ats.last().name@ == n {
        Some(ats.len() - 1)
    } else {
        unit_index(ats.drop_last(), n)
    }
}

/// A unit index found is a unit of that name; none found means no unit has it.
pub proof fn lemma_unit_index(ats: Seq<ATInfo>, n: Seq<char>)
    ensures
        unit_index(ats, n) matches Some(i) ==> 0 <= i < ats.len() && ats[i].name@ == n,
        unit_index(ats, n) is None ==> forall|i: int| 0 <= i < ats.len() ==> ats[i].name@ != n,
    decreases ats.len(),
{
    if ats.len() > 0 {
        lemma_unit_index(ats.drop_last(), n);
        if ats.last().name@ != n {
            assert forall|i: int| 0 <= i < ats.len() - 1 implies ats[i] == ats.drop_last()[i] by {}
        }
    }
}

/// The unit that dependency `d` of unit `v` names, if there is one.
pub open spec fn dep_of(ats: Seq<ATInfo>, v: int, d: int) -> Option<int> {
    unit_index(ats, ats[v].dependencies@[d].name@)
}

/// `order` lists `v`.
pub open spec fn listed(order: Seq<usize>, v: int) -> bool {
    exists|p: int| 0 <= p < order.len() && order[p] == v
}

/// `order` lists `w` before `v`.
pub open spec fn listed_before(order: Seq<usize>, w: int, v: int) -> bool {
    exists|p: int, q: int| 0 <= p < q < order.len() && order[p] == w && order[q] == v
}

/// Each unit marked in `visited` has all its dependencies known, marked, and listed in
/// `order` before it.
pub open spec fn deps_listed(ats: Seq<ATInfo>, visited: Seq<bool>, order: Seq<usize>) -> bool {
    forall|v: int, d: int|
        0 <= v < ats.len() && visited[v] && 0 <= d < ats[v].dependencies@.len() ==> ((
        #[trigger] dep_of(ats, v, d)) matches Some(w) && visited[w] && listed_before(order, w, v))
}

/// The state of the search: marks for each unit; the finished units are exactly those
/// listed, each once; no unit is both finished and under visit; and every finished unit
/// comes after its dependencies.
pub open spec fn dfs_state(ats: Seq<ATInfo>, visited: Seq<bool>, visiting: Seq<bool>, order: Seq<usize>) -> bool {
    &&& visited.len() == ats.len()
    &&& visiting.len() == ats.len()
    &&& forall|p: int| 0 <= p < order.len() ==> order[p] < ats.len() && visited[order[p] as int]
    &&& forall|v: int| 0 <= v < ats.len() && visited[v] ==> exists|p: int| 0 <= p < order.len() && order[p] == v
    &&& forall|p: int, q: int| 0 <= p < q < order.len() ==> order[p] != order[q]
    &&& forall|v: int| 0 <= v < ats.len() ==> !(visited[v] && visiting[v])
    &&& deps_listed(ats, visited, order)
}

/// Unit `v` depends on unit `w`: one of its dependencies names `w`.
pub open spec fn depends_on(ats: Seq<ATInfo>, v: int, w: int) -> bool {
    exists|d: int| 0 <= d < ats[v].dependencies@.len() && #[trigger] dep_of(ats, v, d) == Some(w)
}

/// Every dependency of every unit names a known unit.
pub open spec fn deps_known(ats: Seq<ATInfo>) -> bool {
    forall|v: int, d: int|
        0 <= v < ats.len() && 0 <= d < ats[v].dependencies@.len() ==> (#[trigger] dep_of(ats, v, d)) is Some
}

/// `p` is a chain of units, each depending on the next.
pub open spec fn dep_chain(ats: Seq<ATInfo>, p: Seq<int>) -> bool {
    &&& forall|i: int| 0 <= i < p.len() ==> 0 <= #[trigger] p[i] < ats.len()
    &&& forall|i: int| 0 <= i < p.len() - 1 ==> #[trigger] depends_on(ats, p[i], p[i + 1])
}

/// The units' dependencies close a cycle: a chain of two or more units that ends where it
/// starts.
pub open spec fn has_dep_cycle(ats: Seq<ATInfo>) -> bool {
    exists|p: Seq<int>| #[trigger] dep_chain(ats, p) && p.len() >= 2 && p[0] == p.last()
}

/// `order` lists no unit twice.
pub open spec fn lists_once(order: Seq<usize>) -> bool {
    forall|p: int, q: int| 0 <= p < q < order.len() ==> order[p] != order[q]
}

/// In an order that lists each unit once, "listed before" is transitive.
proof fn lemma_listed_before_trans(order: Seq<usize>, a: int, b: int, c: int)
    requires
        lists_once(order),
        listed_before(order, a, b),
        listed_before(order, b, c),
    ensures
        listed_before(order, a, c),
{
    let (p1, q1) = choose|p: int, q: int| 0 <= p < q < order.len() && order[p] == a && order[q] == b;
    let (p2, q2) = choose|p: int, q: int| 0 <= p < q < order.len() && order[p] == b && order[q] == c;
    if q1 < p2 {
        assert(order[q1] != order[p2]);
    } else if p2 < q1 {
        assert(order[p2] != order[q1]);
    }
    assert(0 <= p1 < q2 < order.len() && order[p1] == a && order[q2] == c);
}

/// In an order that lists each unit once and puts every dependency before the unit that
/// depends on it, the last unit of a chain comes before the first.
proof fn lemma_chain_listed(ats: Seq<ATInfo>, order: Seq<usize>, p: Seq<int>)
    requires
        p.len() >= 2,
        dep_chain(ats, p),
        lists_once(order),
        forall|v: int, d: int|
            0 <= v < ats.len() && 0 <= d < ats[v].dependencies@.len() ==> ((#[trigger] dep_of(
                ats,
                v,
                d,
            )) matches Some(w) && listed_before(order, w, v)),
    ensures
        listed_before(order, p.last(), p[0]),
    decreases p.len(),
{
    let n = p.len() as int;
    let k = n - 2;
    assert(depends_on(ats, p[k], p[k + 1]));
    assert(0 <= p[k] < ats.len());
    let d = choose|d: int| 0 <= d < ats[p[k]].dependencies@.len() && #[trigger] dep_of(ats, p[k], d) == Some(p[k + 1]);
    assert(listed_before(order, p[k + 1], p[k]));
    if n > 2 {
        let q = p.drop_last();
        assert forall|i: int| 0 <= i < q.len() - 1 implies #[trigger] depends_on(ats, q[i], q[i + 1]) by {
            assert(depends_on(ats, p[i], p[i + 1]));
        }
        assert forall|i: int| 0 <= i < q.len() implies 0 <= #[trigger] q[i] < ats.len() by {
            assert(0 <= p[i] < ats.len());
        }
        lemma_chain_listed(ats, order, q);
        lemma_listed_before_trans(order, p[n - 1], p[n - 2], p[0]);
    }
}

/// The units that are neither finished nor under visit.
pub open spec fn unmarked(visited: Seq<bool>, visiting: Seq<bool>) -> Set<int> {
    Set::new(|i: int| 0 <= i < visited.len() && !visited[i] && !visiting[i])
}

/// Marking more units leaves no more unmarked; marking an unmarked one leaves fewer.
proof fn lemma_unmarked(a1: Seq<bool>, g1: Seq<bool>, a2: Seq<bool>, g2: Seq<bool>, x: int)
    requires
        a1.len() == g1.len() == a2.len() == g2.len(),
        forall|i: int| 0 <= i < a1.len() ==> (a1[i] ==> a2[i]) && (g1[i] ==> a2[i] || g2[i]),
    ensures
        unmarked(a2, g2).len() <= unmarked(a1, g1).len(),
        unmarked(a1, g1).contains(x) && !unmarked(a2, g2).contains(x) ==> unmarked(a2, g2).len()
            < unmarked(a1, g1).len(),
        unmarked(a1, g1).finite(),
{
    lemma_int_range(0, a1.len() as int);
    assert(unmarked(a1, g1).subset_of(set_int_range(0, a1.len() as int)));
    lemma_len_subset(unmarked(a1, g1), set_int_range(0, a1.len() as int));
    assert(unmarked(a2, g2).subset_of(unmarked(a1, g1)));
    lemma_len_subset(unmarked(a2, g2), unmarked(a1, g1));
    if unmarked(a1, g1).contains(x) && !unmarked(a2, g2).contains(x) {
        assert(unmarked(a2, g2).subset_of(unmarked(a1, g1).remove(x)));
        lemma_len_subset(unmarked(a2, g2), unmarked(a1, g1).remove(x));
    }
}

/// The index of the unit named `name`: the last of that name.
fn find_unit(ats: &[ATInfo], name: &str) -> (res: Option<usize>)
    ensures
        match res {
            Some(i) => unit_index(ats@, name@) == Some(i as int),
            None => unit_index(ats@, name@) is None,
        },
{
    let mut i = ats.len();
    assert(ats@.take(i as int) =~= ats@);
    while i > 0
        invariant
            0 <= i <= ats@.len(),
            unit_index(ats@, name@) == unit_index(ats@.take(i as int), name@),
        decreases i,
    {
        assert(ats@.take(i as int).drop_last() =~= ats@.take(i - 1));
        assert(ats@.take(i as int).last() == ats@[i - 1]);
        if str_eq(ats[i - 1].name.as_str(), name) {
            return Some(i - 1);
        }
        i = i - 1;
    }
    None
}

/// Visits unit `idx` depth first: its dependencies first, then the unit itself, which is
/// listed in `order` once finished. A unit met again while under visit closes a cycle.
/// The units under visit are those of `stack`, a chain that leads to `idx`.
/// The message of a cycle found at the unit `v`.
pub open spec fn cycle_message(ats: Seq<ATInfo>, v: int) -> Seq<char> {
    "Cyclic AT dependency involving '"@ + ats[v].name@ + "'"@
}

/// The message of the `d`-th dependency of the unit `v` naming no unit.
pub open spec fn unknown_dep_message(ats: Seq<ATInfo>, v: int, d: int) -> Seq<char> {
    "AT '"@ + ats[v].name@ + "' depends on unknown AT '"@ + ats[v].dependencies@[d].name@ + "'"@
}

/// `m` is the message of an error of the ordering of `ats`: a cycle through some unit, or
/// a dependency of some unit that names no unit.
pub open spec fn order_error(ats: Seq<ATInfo>, m: Seq<char>) -> bool {
    ||| has_dep_cycle(ats) && exists|v: int| 0 <= v < ats.len() && m == #[trigger] cycle_message(ats, v)
    ||| exists|v: int, d: int|
        0 <= v < ats.len() && 0 <= d < ats[v].dependencies@.len() && dep_of(ats, v, d) is None && m
            == #[trigger] unknown_dep_message(ats, v, d)
}

fn visit(
    idx: usize,
    ats: &[ATInfo],
    visited: &mut Vec<bool>,
    visiting: &mut Vec<bool>,
    order: &mut Vec<usize>,
    Ghost(stack): Ghost<Seq<int>>,
) -> (res: Result<(), String>)
    requires
        idx < ats@.len(),
        dfs_state(ats@, old(visited)@, old(visiting)@, old(order)@),
        dep_chain(ats@, stack),
        forall|v: int| 0 <= v < ats@.len() ==> (old(visiting)@[v] <==> stack.contains(v)),
        stack.len() > 0 ==> depends_on(ats@, stack.last(), idx as int),
    ensures
        final(visited)@.len() == ats@.len(),
        final(visiting)@.len() == ats@.len(),
        res is Err ==> has_dep_cycle(ats@) || !deps_known(ats@),
        res matches Err(m) ==> order_error(ats@, m@),
        res is Ok ==> {
            &&& dfs_state(ats@, final(visited)@, final(visiting)@, final(order)@)
            &&& final(visited)@[idx as int]
            &&& final(visiting)@ == old(visiting)@
            &&& forall|v: int| 0 <= v < ats@.len() && old(visited)@[v] ==> #[trigger] final(visited)@[v]
            &&& old(order)@.len() <= final(order)@.len()
            &&& final(order)@.take(old(order)@.len() as int) == old(order)@
        },
    decreases unmarked(old(visited)@, old(visiting)@).len(),
{
    if visited[idx] {
        return Ok(());
    }
    if visiting[idx] {
        proof {
            assert(stack.contains(idx as int));
            let j = stack.index_of(idx as int);
            assert(0 <= j < stack.len() && stack[j] == idx as int);
            let c = stack.subrange(j, stack.len() as int).push(idx as int);
            assert forall|i: int| 0 <= i < c.len() implies 0 <= #[trigger] c[i] < ats@.len() by {
                if i < c.len() - 1 {
                    assert(c[i] == stack[j + i]);
                }
            }
            assert forall|i: int| 0 <= i < c.len() - 1 implies #[trigger] depends_on(ats@, c[i], c[i + 1]) by {
                if i < c.len() - 2 {
                    let m = j + i;
                    assert(depends_on(ats@, stack[m], stack[m + 1]));
                    assert(c[i] == stack[m] && c[i + 1] == stack[m + 1]);
                } else {
                    assert(c[i] == stack.last());
                }
            }
            assert(dep_chain(ats@, c) && c.len() >= 2 && c[0] == c.last());
        }
        let m = concat3("Cyclic AT dependency involving '", ats[idx].name.as_str(), "'");
        assert(m@ == cycle_message(ats@, idx as int));
        return Err(m);
    }
    let ghost vd0 = visited@;
    let ghost vg0 = visiting@;
    let ghost or0 = order@;
    proof {
        lemma_unmarked(vd0, vg0, vd0, vg0, idx as int);
        assert(unmarked(vd0, vg0).contains(idx as int));
    }
    visiting.set(idx, true);
    let ghost vg1 = visiting@;
    let ghost inner = stack.push(idx as int);
    proof {
        assert forall|i: int| 0 <= i < inner.len() implies 0 <= #[trigger] inner[i] < ats@.len() by {
            if i < stack.len() {
                assert(inner[i] == stack[i]);
            }
        }
        assert forall|i: int| 0 <= i < inner.len() - 1 implies #[trigger] depends_on(ats@, inner[i], inner[i + 1]) by {
            if i < stack.len() - 1 {
                assert(depends_on(ats@, stack[i], stack[i + 1]));
            }
        }
        assert forall|v: int| 0 <= v < ats@.len() implies (vg1[v] <==> inner.contains(v)) by {
            if v == idx as int {
                assert(inner[stack.len() as int] == v);
            }
            if vg1[v] && v != idx as int {
                assert(vg0[v]);
                assert(stack.contains(v));
                let m = stack.index_of(v);
                assert(0 <= m < stack.len() && stack[m] == v);
                assert(inner[m] == v);
            }
            if inner.contains(v) && v != idx as int {
                let m = inner.index_of(v);
                assert(0 <= m < inner.len() && inner[m] == v);
                assert(stack[m] == v);
                assert(stack.contains(v));
            }
        }
    }
    let deps = &ats[idx].dependencies;
    let mut d: usize = 0;
    while d < deps.len()
        invariant
            idx < ats@.len(),
            deps == &ats@[idx as int].dependencies,
            0 <= d <= deps@.len(),
            dfs_state(ats@, visited@, vg1, order@),
            visiting@ == vg1,
            vg1 == vg0.update(idx as int, true),
            vg0.len() == ats@.len(),
            vd0.len() == ats@.len(),
            vd0 == old(visited)@,
            vg0 == old(visiting)@,
            unmarked(vd0, vg0).finite(),
            unmarked(vd0, vg0).contains(idx as int),
            !visited@[idx as int],
            forall|v: int| 0 <= v < ats@.len() && vd0[v] ==> #[trigger] visited@[v],
            or0.len() <= order@.len(),
            order@.take(or0.len() as int) == or0,
            forall|e: int|
                0 <= e < d ==> ((#[trigger] dep_of(ats@, idx as int, e)) matches Some(w) && visited@[w]),
            dep_chain(ats@, inner),
            inner.len() > 0 && inner.last() == idx as int,
            forall|v: int| 0 <= v < ats@.len() ==> (vg1[v] <==> inner.contains(v)),
        decreases deps@.len() - d,
    {
        let dep_idx = match find_unit(ats, deps[d].name.as_str()) {
            Some(i) => i,
            None => {
                assert(dep_of(ats@, idx as int, d as int) is None);
                let a = concat3("AT '", ats[idx].name.as_str(), "' depends on unknown AT '");
                let m = concat3(a.as_str(), deps[d].name.as_str(), "'");
                assert(m@ == unknown_dep_message(ats@, idx as int, d as int));
                return Err(m);
            },
        };
        proof {
            lemma_unit_index(ats@, deps@[d as int].name@);
            lemma_unmarked(vd0, vg0, visited@, visiting@, idx as int);
        }
        let ghost vd_before = visited@;
        let ghost or_before = order@;
        assert(dep_of(ats@, idx as int, d as int) == Some(dep_idx as int));
        assert(depends_on(ats@, inner.last(), dep_idx as int));
        visit(dep_idx, ats, visited, visiting, order, Ghost(inner))?;
        proof {
            assert(order@.take(or0.len() as int) =~= or_before.take(or0.len() as int));
            assert forall|e: int|
                0 <= e < d + 1 implies ((#[trigger] dep_of(ats@, idx as int, e)) matches Some(w) && visited@[w]) by {
                if e < d {
                    let w = dep_of(ats@, idx as int, e)->0;
                    lemma_unit_index(ats@, ats@[idx as int].dependencies@[e].name@);
                    assert(vd_before[w]);
                }
            }
        }
        d = d + 1;
    }
    let ghost vd2 = visited@;
    let ghost or2 = order@;
    visiting.set(idx, false);
    visited.set(idx, true);
    order.push(idx);
    proof {
        assert(visiting@ =~= vg0);
        let ol = or2.len() as int;
        assert forall|p: int| 0 <= p < order@.len() implies order@[p] < ats@.len() && visited@[order@[p] as int] by {
            if p < ol {
                assert(order@[p] == or2[p]);
            }
        }
        assert forall|v: int| 0 <= v < ats@.len() && visited@[v] implies exists|p: int|
            0 <= p < order@.len() && order@[p] == v by {
            if v == idx as int {
                assert(order@[ol] == v);
            } else {
                assert(vd2[v]);
                let p = choose|p: int| 0 <= p < or2.len() && or2[p] == v;
                assert(order@[p] == v);
            }
        }
        assert forall|p: int, q: int| 0 <= p < q < order@.len() implies order@[p] != order@[q] by {
            if q == ol {
                assert(vd2[or2[p] as int]);
            } else {
                assert(order@[p] == or2[p] && order@[q] == or2[q]);
            }
        }
        assert forall|v: int, e: int|
            0 <= v < ats@.len() && visited@[v] && 0 <= e < ats@[v].dependencies@.len() implies ((
            #[trigger] dep_of(ats@, v, e)) matches Some(w) && visited@[w] && listed_before(order@, w, v)) by {
            if v == idx as int {
                let w = dep_of(ats@, v, e)->0;
                lemma_unit_index(ats@, ats@[v].dependencies@[e].name@);
                assert(vd2[w]);
                let p = choose|p: int| 0 <= p < or2.len() && or2[p] == w;
                assert(order@[p] == w && order@[ol] == v);
            } else {
                assert(vd2[v]);
                let w = dep_of(ats@, v, e)->0;
                assert(listed_before(or2, w, v));
                let (p, q) = choose|p: int, q: int| 0 <= p < q < or2.len() && or2[p] == w && or2[q] == v;
                assert(order@[p] == w && order@[q] == v);
            }
        }
        assert(order@.take(or0.len() as int) =~= or2.take(or0.len() as int));
    }
    Ok(())
}

/// The units ordered so that each comes after the units it depends on: every unit once,
/// found by depth-first search from each unit in turn. A dependency on an unknown unit, or
/// a cycle, is an error: the order is found exactly when every dependency is known and no
/// chain of dependencies returns to where it started.
pub fn topo_sort_ats(ats: &[ATInfo]) -> (res: Result<Vec<usize>, String>)
    ensures
        res is Ok <==> deps_known(ats@) && !has_dep_cycle(ats@),
        res matches Err(m) ==> order_error(ats@, m@),
        res matches Ok(order) ==> {
            &&& order@.len() == ats@.len()
            &&& forall|p: int| 0 <= p < order@.len() ==> order@[p] < ats@.len()
            &&& forall|v: int| 0 <= v < ats@.len() ==> #[trigger] listed(order@, v)
            &&& forall|p: int, q: int| 0 <= p < q < order@.len() ==> order@[p] != order@[q]
            &&& forall|v: int, d: int|
                0 <= v < ats@.len() && 0 <= d < ats@[v].dependencies@.len() ==> ((#[trigger] dep_of(
                    ats@,
                    v,
                    d,
                )) matches Some(w) && listed_before(order@, w, v))
        },
{
    let n = ats.len();
    let mut visited: Vec<bool> = Vec::new();
    let mut visiting: Vec<bool> = Vec::new();
    let mut k: usize = 0;
    while k < n
        invariant
            0 <= k <= n,
            n == ats@.len(),
            visited@.len() == k,
            visiting@.len() == k,
            forall|i: int| 0 <= i < k ==> !visited@[i] && !visiting@[i],
        decreases n - k,
    {
        visited.push(false);
        visiting.push(false);
        k = k + 1;
    }
    let mut order: Vec<usize> = Vec::new();
    let mut i: usize = 0;
    while i < n
        invariant
            0 <= i <= n,
            n == ats@.len(),
            dfs_state(ats@, visited@, visiting@, order@),
            forall|j: int| 0 <= j < i ==> visited@[j],
            forall|j: int| 0 <= j < n ==> !visiting@[j],
        decreases n - i,
    {
        let ghost before = visited@;
        let ghost vg = visiting@;
        visit(i, ats, &mut visited, &mut visiting, &mut order, Ghost(Seq::empty()))?;
        assert(visiting@ == vg);
        assert forall|j: int| 0 <= j < i + 1 implies visited@[j] by {
            if j < i {
                assert(before[j]);
            }
        }
        i = i + 1;
    }
    proof {
        let s = order@.map_values(|x: usize| x as int);
        assert(s.no_duplicates()) by {
            assert forall|p: int, q: int| 0 <= p < s.len() && 0 <= q < s.len() && p != q implies s[p] != s[q] by {
                if p < q {
                    assert(order@[p] != order@[q]);
                } else {
                    assert(order@[q] != order@[p]);
                }
            }
        }
        s.unique_seq_to_set();
        assert(s.to_set() =~= set_int_range(0, n as int)) by {
            assert forall|x: int| s.to_set().contains(x) <==> set_int_range(0, n as int).contains(x) by {
                if 0 <= x < n {
                    assert(visited@[x]);
                    let p = choose|p: int| 0 <= p < order@.len() && order@[p] == x;
                    assert(s[p] == x);
                }
                if s.to_set().contains(x) {
                    let p = choose|p: int| 0 <= p < s.len() && s[p] == x;
                    assert(order@[p] < n);
                }
            }
        }
        lemma_int_range(0, n as int);
        assert forall|v: int| 0 <= v < ats@.len() implies #[trigger] listed(order@, v) by {
            assert(visited@[v]);
        }
        assert forall|v: int, d: int|
            0 <= v < ats@.len() && 0 <= d < ats@[v].dependencies@.len() implies ((#[trigger] dep_of(
                ats@,
                v,
                d,
            )) matches Some(w) && listed_before(order@, w, v)) by {
            assert(visited@[v]);
        }
        assert(deps_known(ats@));
        if has_dep_cycle(ats@) {
            let c = choose|c: Seq<int>| #[trigger] dep_chain(ats@, c) && c.len() >= 2 && c[0] == c.last();
            lemma_chain_listed(ats@, order@, c);
            let (p, q) = choose|p: int, q: int| 0 <= p < q < order@.len() && order@[p] == c.last() && order@[q] == c[0];
            assert(order@[p] != order@[q]);
        }
    }
    Ok(order)
}

/// What to do with the module file `key` that a `use` names, while the files `visiting`
/// are being flattened and the files `processed` are done: a file being flattened is a
/// cycle (an error), a file done is skipped (`Ok(false)`), any other is flattened
/// (`Ok(true)`).
pub fn module_visit(visiting: &Vec<String>, processed: &Vec<String>, key: &str) -> (res: Result<bool, String>)
    ensures
        (exists|j: int| 0 <= j < visiting@.len() && #[trigger] visiting@[j]@ == key@) ==> (res matches Err(m) && m@
            == "Cyclic dependency detected! Module imports itself."@),
        !(exists|j: int| 0 <= j < visiting@.len() && #[trigger] visiting@[j]@ == key@) ==> res == Ok::<bool, String>(
            !exists|j: int| 0 <= j < processed@.len() && #[trigger] processed@[j]@ == key@,
        ),
{
    if contains_string(visiting, key) {
        return Err(String::from_str("Cyclic dependency detected! Module imports itself."));
    }
    Ok(!contains_string(processed, key))
}

/// Checks that the unit whose `use`s are flattened has a name.
pub fn unit_name_check(current_at_name: &str) -> (res: Result<(), String>)
    ensures
        res is Ok <==> current_at_name@.len() > 0,
        res matches Err(m) ==> m@ == "current_at_name cannot be empty in AT mode"@,
{
    if current_at_name.unicode_len() == 0 {
        return Err(String::from_str("current_at_name cannot be empty in AT mode"));
    }
    Ok(())
}

/// Checks that `entry` indexes one of `count` units.
pub fn entry_check(entry: usize, count: usize) -> (res: Result<(), String>)
    ensures
        res is Ok <==> entry < count,
        res matches Err(m) ==> m@ == "ATEntry.info ("@ + dec(entry as nat) + ") out of bounds for "@ + dec(
            count as nat,
        ) + " AT(s)"@,
{
    if entry < count {
        return Ok(());
    }
    let a = usize_to_string(entry);
    let b = usize_to_string(count);
    let m = concat3("ATEntry.info (", a.as_str(), ") out of bounds for ");
    Err(concat3(m.as_str(), b.as_str(), " AT(s)"))
}

/// The pairs of an import table: each imported name and its qualified name, in order.
fn import_pairs(imports: &StrMap<crate::utils::ats::ImportInfo>) -> (res: Vec<(String, String)>)
    ensures
        res@.len() == imports.entries@.len(),
        forall|k: int|
            0 <= k < res@.len() ==> (#[trigger] res@[k]).0@ == imports.entries@[k].0@ && res@[k].1@
                == imports.entries@[k].1.qualified_name@,
{
    let mut out: Vec<(String, String)> = Vec::new();
    let mut k: usize = 0;
    while k < imports.entries.len()
        invariant
            0 <= k <= imports.entries@.len(),
            out@.len() == k,
            forall|j: int|
                0 <= j < k ==> (#[trigger] out@[j]).0@ == imports.entries@[j].0@ && out@[j].1@
                    == imports.entries@[j].1.qualified_name@,
        decreases imports.entries.len() - k,
    {
        out.push((imports.entries[k].0.clone(), imports.entries[k].1.qualified_name.clone()));
        k = k + 1;
    }
    out
}

/// `imps` pairs each name imported by `u` with its qualified name, in order.
pub open spec fn imports_of(u: crate::utils::ats::ParsedAT, imps: Seq<(String, String)>) -> bool {
    &&& imps.len() == u.imports.entries@.len()
    &&& forall|k: int|
        0 <= k < imps.len() ==> (#[trigger] imps[k]).0@ == u.imports.entries@[k].0@ && imps[k].1@
            == u.imports.entries@[k].1.qualified_name@
}

/// `part` is the unit `u`'s statements once its aliases are applied, as the entry unit
/// or not.
pub open spec fn unit_merged(u: crate::utils::ats::ParsedAT, is_entry: bool, part: Seq<Stmt>) -> bool {
    exists|imps: Seq<(String, String)>|
        #[trigger] imports_of(u, imps) && aliased(u.program.statements@, u.name@, is_entry, imps, part)
}

/// The statements of `parts`, one part after another.
pub open spec fn flat(parts: Seq<Seq<Stmt>>) -> Seq<Stmt>
    decreases parts.len(),
{
    if parts.len() == 0 {
        Seq::empty()
    } else {
        flat(parts.drop_last()) + parts.last()
    }
}

/// `parts` are the units `resolved` once aliased, in order, `order` telling which is
/// the entry unit `entry`.
pub open spec fn units_merged(
    resolved: Seq<crate::utils::ats::ParsedAT>,
    order: Seq<usize>,
    entry: usize,
    parts: Seq<Seq<Stmt>>,
) -> bool {
    &&& parts.len() == resolved.len()
    &&& forall|pos: int| 0 <= pos < parts.len() ==> unit_merged(resolved[pos], order[pos] == entry, #[trigger] parts[pos])
}

/// Merges the units `resolved`, in the order `order` gives them, into one program: each
/// unit's statements with its names qualified by the unit (the entry unit, `entry`,
/// keeping its own) and its imports aliased. A `use` left in the result is an error.
pub fn merge_units(resolved: Vec<crate::utils::ats::ParsedAT>, order: &Vec<usize>, entry: usize) -> (res: Result<
    Program,
    String,
>)
    requires
        resolved@.len() <= order@.len(),
    ensures
        exists|parts: Seq<Seq<Stmt>>|
            #[trigger] units_merged(resolved@, order@, entry, parts) && match res {
                Ok(p) => p.statements@ == flat(parts) && stmts_no_use(flat(parts)),
                Err(m) => !stmts_no_use(flat(parts)) && m@ == "Codegen Error: a `use` statement was left unresolved."@,
            },
        resolved@.len() == 0 ==> (res matches Ok(p) && p.statements@.len() == 0),
{
    let ghost all = resolved@;
    let mut rest = resolved;
    let count = rest.len();
    let mut merged: Vec<Stmt> = Vec::new();
    let ghost mut parts: Seq<Seq<Stmt>> = Seq::empty();
    let mut pos: usize = 0;
    while pos < count
        invariant
            count == all.len(),
            0 <= pos <= all.len(),
            all.len() <= order@.len(),
            rest@ == all.subrange(pos as int, all.len() as int),
            units_merged(all.take(pos as int), order@.take(pos as int), entry, parts),
            merged@ == flat(parts),
        decreases count - pos,
    {
        let unit = rest.remove(0);
        let is_entry = order[pos] == entry;
        let imports = import_pairs(&unit.imports);
        let ghost u = unit;
        proof {
            assert(u == all[pos as int]);
            assert(imports_of(u, imports@));
        }
        let mut renamed = apply_at_aliases(unit.program.statements, unit.name.as_str(), is_entry, &imports);
        proof {
            assert(unit_merged(u, is_entry, renamed@));
        }
        let ghost rv = renamed@;
        merged.append(&mut renamed);
        proof {
            let old_parts = parts;
            parts = parts.push(rv);
            assert(parts.drop_last() =~= old_parts);
            assert(merged@ =~= flat(parts));
            assert forall|q: int| 0 <= q < parts.len() implies unit_merged(
                all.take(pos + 1)[q],
                order@.take(pos + 1)[q] == entry,
                #[trigger] parts[q],
            ) by {
                if q < pos {
                    assert(parts[q] == old_parts[q]);
                    assert(all.take(pos + 1)[q] == all.take(pos as int)[q]);
                    assert(order@.take(pos + 1)[q] == order@.take(pos as int)[q]);
                }
            }
        }
        pos = pos + 1;
    }
    proof {
        assert(all.take(all.len() as int) =~= all);
        assert(order@.take(all.len() as int).len() == all.len());
        assert forall|q: int| 0 <= q < parts.len() implies unit_merged(all[q], order@[q] == entry, #[trigger] parts[q]) by {
            assert(order@.take(all.len() as int)[q] == order@[q]);
        }
        assert(units_merged(all, order@, entry, parts));
    }
    if !stmts_have_no_use(&merged) {
        return Err(String::from_str("Codegen Error: a `use` statement was left unresolved."));
    }
    Ok(Program { statements: merged })
}

} // verus!
