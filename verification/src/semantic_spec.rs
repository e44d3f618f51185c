//! What checking declarations and statements does, as functions on a model
//! of the checker's state.
use vstd::prelude::*;
use crate::ast::{ClassMember, Expression, FunctionDeclaration, Parameter, Program, Span, Statement, StatementKind, TypeKind, TypeMember, TypeNode, VariableDeclaration};
use crate::semantic::{
    assign_findings, expr_findings, expr_type, field_index, field_of, finding, member_pairs, object_fields, resolved,
    DiagnosticCode, Finding, Scopes, SymbolKind, TypeModel,
};

verus! {

/// The checker's state as a value: the value and type symbols listed, the
/// named types, the value scopes (innermost last), the functions whose
/// bodies wait to be checked, what was reported, and the return type of
/// the function being checked.
pub struct CheckState {
    pub values: Seq<(Seq<char>, SymbolKind)>,
    pub types: Seq<(Seq<char>, SymbolKind)>,
    pub bindings: Seq<(Seq<char>, TypeModel)>,
    pub scopes: Scopes,
    pub functions: Seq<(FunctionDeclaration, Span)>,
    pub findings: Seq<Finding>,
    pub ret: Option<TypeModel>,
}

/// `st` with `more` reported.
pub open spec fn report(st: CheckState, more: Seq<Finding>) -> CheckState {
    CheckState { findings: st.findings + more, ..st }
}

/// What resolving an annotation reports: each unknown type name.
pub open spec fn type_findings(named: Seq<(Seq<char>, TypeModel)>, t: TypeNode) -> Seq<Finding>
    decreases t, 0nat,
{
    match t.kind {
        TypeKind::Named(name) => if field_of(named, name@) is Some {
            Seq::empty()
        } else {
            finding(DiagnosticCode::UnknownType, "unknown type `"@ + name@ + "`"@, t.span)
        },
        TypeKind::Array(inner) => type_findings(named, *inner),
        TypeKind::Object(members) => members_findings(named, members@, members@.len() as int),
        _ => Seq::empty(),
    }
}

/// What resolving the types of the first `n` members reports.
pub open spec fn members_findings(named: Seq<(Seq<char>, TypeModel)>, members: Seq<TypeMember>, n: int) -> Seq<Finding>
    decreases members, n,
{
    if n <= 0 || n > members.len() {
        Seq::empty()
    } else {
        members_findings(named, members, n - 1) + type_findings(named, members[n - 1].ty)
    }
}

/// What resolving an optional annotation reports.
pub open spec fn option_type_findings(named: Seq<(Seq<char>, TypeModel)>, t: Option<TypeNode>) -> Seq<Finding> {
    match t {
        Some(t) => type_findings(named, t),
        None => Seq::empty(),
    }
}

/// The type of an optional annotation; `absent` without one.
pub open spec fn option_resolved(named: Seq<(Seq<char>, TypeModel)>, t: Option<TypeNode>, absent: TypeModel) -> TypeModel {
    match t {
        Some(t) => resolved(named, t),
        None => absent,
    }
}

/// What resolving the annotations of the first `n` class members reports.
pub open spec fn class_findings(named: Seq<(Seq<char>, TypeModel)>, members: Seq<ClassMember>, n: int) -> Seq<Finding>
    decreases n,
{
    if n <= 0 || n > members.len() {
        Seq::empty()
    } else {
        class_findings(named, members, n - 1) + option_type_findings(named, members[n - 1].ty)
    }
}

/// Each class member's name with its annotated type (unknown without one).
pub open spec fn class_pairs(named: Seq<(Seq<char>, TypeModel)>, members: Seq<ClassMember>) -> Seq<(Seq<char>, TypeModel)> {
    members.map_values(|m: ClassMember| (m.name@, option_resolved(named, m.ty, TypeModel::Unknown)))
}

/// What resolving the annotations of the first `n` parameters reports.
pub open spec fn params_findings(named: Seq<(Seq<char>, TypeModel)>, params: Seq<Parameter>, n: int) -> Seq<Finding>
    decreases n,
{
    if n <= 0 || n > params.len() {
        Seq::empty()
    } else {
        params_findings(named, params, n - 1) + option_type_findings(named, params[n - 1].ty)
    }
}

/// The type of a function declaration, with the named types `named`.
pub open spec fn function_type(named: Seq<(Seq<char>, TypeModel)>, f: FunctionDeclaration) -> TypeModel {
    TypeModel::Function {
        params: f.params@.map_values(|p: Parameter| option_resolved(named, p.ty, TypeModel::Unknown)),
        return_type: Box::new(option_resolved(named, f.return_type, TypeModel::Undefined)),
        variadic: false,
    }
}

/// `st` with `name` bound to `ty` in the innermost scope, unless it is
/// bound there already (reported at `span`, if one is given); bindings of
/// the outermost scope are listed as value symbols.
pub open spec fn define_value_in(st: CheckState, name: Seq<char>, ty: TypeModel, kind: SymbolKind, span: Option<Span>) -> CheckState {
    let n = st.scopes.len();
    if n == 0 {
        st
    } else if field_index(st.scopes[n - 1], name) is Some {
        match span {
            Some(span) => report(st, finding(DiagnosticCode::DuplicateSymbol, "duplicate value `"@ + name + "`"@, span)),
            None => st,
        }
    } else {
        CheckState {
            scopes: st.scopes.update(n - 1, st.scopes[n - 1].push((name, ty))),
            values: if n == 1 {
                st.values.push((name, kind))
            } else {
                st.values
            },
            ..st
        }
    }
}

/// `st` with the type `name` defined, unless the name is taken (reported at `span`).
pub open spec fn define_type_in(st: CheckState, name: Seq<char>, ty: TypeModel, kind: SymbolKind, span: Span) -> CheckState {
    if field_index(st.bindings, name) is Some {
        report(st, finding(DiagnosticCode::DuplicateSymbol, "duplicate type `"@ + name + "`"@, span))
    } else {
        CheckState { bindings: st.bindings.push((name, ty)), types: st.types.push((name, kind)), ..st }
    }
}

/// `st` with a new innermost scope.
pub open spec fn push_scope_in(st: CheckState) -> CheckState {
    CheckState { scopes: st.scopes.push(Seq::empty()), ..st }
}

/// `st` without its innermost scope.
pub open spec fn pop_scope_in(st: CheckState) -> CheckState {
    if st.scopes.len() == 0 {
        st
    } else {
        CheckState { scopes: st.scopes.drop_last(), ..st }
    }
}

/// `st` after collecting the symbol that the statement `s` declares:
/// interfaces, aliases and classes name types, functions bind values (and
/// top-level ones wait for their bodies to be checked).
pub open spec fn collect_in(st: CheckState, s: Statement, top_level: bool) -> CheckState
    decreases s,
{
    let named = st.bindings;
    match s.kind {
        StatementKind::Interface(i) => define_type_in(
            report(st, members_findings(named, i.members@, i.members@.len() as int)),
            i.name@,
            TypeModel::Object(object_fields(member_pairs(named, i.members@))),
            SymbolKind::Interface,
            s.span,
        ),
        StatementKind::TypeAlias(a) => define_type_in(
            report(st, type_findings(named, a.ty)),
            a.name@,
            resolved(named, a.ty),
            SymbolKind::TypeAlias,
            s.span,
        ),
        StatementKind::Class(c) => define_type_in(
            report(st, class_findings(named, c.members@, c.members@.len() as int)),
            c.name@,
            TypeModel::Object(object_fields(class_pairs(named, c.members@))),
            SymbolKind::Class,
            s.span,
        ),
        StatementKind::Function(f) => {
            let reported = report(
                st,
                params_findings(named, f.params@, f.params@.len() as int) + option_type_findings(named, f.return_type),
            );
            let defined = define_value_in(reported, f.name@, function_type(named, f), SymbolKind::Function, Some(s.span));
            if top_level {
                CheckState { functions: defined.functions.push((f, s.span)), ..defined }
            } else {
                defined
            }
        },
        StatementKind::Export(inner) => collect_in(st, *inner, top_level),
        _ => st,
    }
}

/// `st` after collecting the symbols of the first `n` statements of `ss`.
pub open spec fn collects_in(st: CheckState, ss: Seq<Statement>, n: int, top_level: bool) -> CheckState
    decreases n,
{
    if n <= 0 || n > ss.len() {
        st
    } else {
        collect_in(collects_in(st, ss, n - 1, top_level), ss[n - 1], top_level)
    }
}

/// `st` after checking `e`.
pub open spec fn expr_in(st: CheckState, e: Expression) -> CheckState {
    report(st, expr_findings(st.scopes, e))
}

/// `st` after checking a declaration at `span`: its annotation and its
/// value, the value against the annotation, then the binding (of the
/// annotated type, else the value's, else unknown).
pub open spec fn variable_in(st: CheckState, v: VariableDeclaration, span: Span) -> CheckState {
    let st1 = report(st, option_type_findings(st.bindings, v.ty));
    let st2 = match v.initializer {
        Some(e) => expr_in(st1, e),
        None => st1,
    };
    let st3 = match (v.ty, v.initializer) {
        (Some(t), Some(e)) => report(
            st2,
            assign_findings(resolved(st.bindings, t), expr_type(st.scopes, e), span, DiagnosticCode::TypeMismatch),
        ),
        _ => st2,
    };
    let ty = match v.ty {
        Some(t) => resolved(st.bindings, t),
        None => match v.initializer {
            Some(e) => expr_type(st.scopes, e),
            None => TypeModel::Unknown,
        },
    };
    define_value_in(st3, v.name@, ty, SymbolKind::Variable, Some(span))
}

/// `st` after checking a return at `span` against the current return type.
pub open spec fn return_in(st: CheckState, value: Option<Expression>, span: Span) -> CheckState {
    let st1 = match value {
        Some(e) => expr_in(st, e),
        None => st,
    };
    let actual = match value {
        Some(e) => expr_type(st.scopes, e),
        None => TypeModel::Undefined,
    };
    match st.ret {
        Some(expected) => report(st1, assign_findings(expected, actual, span, DiagnosticCode::ReturnTypeMismatch)),
        None => st1,
    }
}

/// `st` after checking the statement `s`; blocks and `for` loops have a scope of their own.
pub open spec fn check_in(st: CheckState, s: Statement) -> CheckState
    decreases s, 0nat,
{
    match s.kind {
        StatementKind::Variable(v) => variable_in(st, v, s.span),
        StatementKind::Return(value) => return_in(st, value, s.span),
        StatementKind::Throw(e) => expr_in(st, e),
        StatementKind::Expression(e) => expr_in(st, e),
        StatementKind::If(i) => {
            let st1 = check_in(expr_in(st, i.test), *i.consequent);
            match i.alternate {
                Some(a) => check_in(st1, *a),
                None => st1,
            }
        },
        StatementKind::While(w) => check_in(expr_in(st, w.test), *w.body),
        StatementKind::For(f) => {
            let st1 = push_scope_in(st);
            let st2 = match f.initializer {
                Some(i) => check_in(st1, *i),
                None => st1,
            };
            let st3 = match f.test {
                Some(t) => expr_in(st2, t),
                None => st2,
            };
            let st4 = match f.update {
                Some(u) => expr_in(st3, u),
                None => st3,
            };
            pop_scope_in(check_in(st4, *f.body))
        },
        StatementKind::Block(body) => pop_scope_in(checks_in(push_scope_in(st), body@, body@.len() as int)),
        StatementKind::Export(inner) => check_in(st, *inner),
        _ => st,
    }
}

/// `st` after checking the first `n` statements of `ss`, in order.
pub open spec fn checks_in(st: CheckState, ss: Seq<Statement>, n: int) -> CheckState
    decreases ss, n,
{
    if n <= 0 || n > ss.len() {
        st
    } else {
        check_in(checks_in(st, ss, n - 1), ss[n - 1])
    }
}

/// `st` after binding the first `n` parameters in the innermost scope,
/// each of its annotated type (unknown without one).
pub open spec fn params_in(st: CheckState, params: Seq<Parameter>, n: int) -> CheckState
    decreases n,
{
    if n <= 0 || n > params.len() {
        st
    } else {
        let before = params_in(st, params, n - 1);
        let p = params[n - 1];
        define_value_in(
            report(before, option_type_findings(before.bindings, p.ty)),
            p.name@,
            option_resolved(before.bindings, p.ty, TypeModel::Unknown),
            SymbolKind::Variable,
            Some(p.span),
        )
    }
}

/// `st` after checking the body of `f` (declared at `span`) in a scope of
/// its own that binds its parameters, against its return type; an empty
/// body is reported.
pub open spec fn body_in(st: CheckState, f: FunctionDeclaration, span: Span) -> CheckState {
    let named = st.bindings;
    let st1 = report(st, option_type_findings(named, f.return_type));
    let st2 = CheckState { ret: Some(option_resolved(named, f.return_type, TypeModel::Undefined)), ..st1 };
    let st3 = params_in(push_scope_in(st2), f.params@, f.params@.len() as int);
    let st4 = checks_in(st3, f.body@, f.body@.len() as int);
    let st5 = CheckState { ret: st.ret, ..pop_scope_in(st4) };
    if f.body@.len() == 0 {
        report(st5, finding(DiagnosticCode::ReturnTypeMismatch, "function body is empty"@, span))
    } else {
        st5
    }
}

/// `st` after checking the bodies of the first `n` functions of `fs`.
pub open spec fn bodies_in(st: CheckState, fs: Seq<(FunctionDeclaration, Span)>, n: int) -> CheckState
    decreases n,
{
    if n <= 0 || n > fs.len() {
        st
    } else {
        body_in(bodies_in(st, fs, n - 1), fs[n - 1].0, fs[n - 1].1)
    }
}

/// `st` after checking the first `n` top-level statements of `ss` but
/// function declarations, whose bodies were checked before.
pub open spec fn tops_in(st: CheckState, ss: Seq<Statement>, n: int) -> CheckState
    decreases n,
{
    if n <= 0 || n > ss.len() {
        st
    } else {
        let before = tops_in(st, ss, n - 1);
        match ss[n - 1].kind {
            StatementKind::Function(_) => before,
            _ => check_in(before, ss[n - 1]),
        }
    }
}

/// The type of the built-in `console`: an object whose `log` takes any
/// arguments and gives `undefined`.
pub open spec fn console_model() -> TypeModel {
    TypeModel::Object(
        seq![
            ("log"@, TypeModel::Function { params: Seq::empty(), return_type: Box::new(TypeModel::Undefined), variadic: true }),
        ],
    )
}

/// `st` after checking `program` in a new outermost scope: `console` is
/// bound, the declarations collected, the bodies of the top-level
/// functions checked, then the other top-level statements.
pub open spec fn program_in(st: CheckState, program: Program) -> CheckState {
    let st1 = define_value_in(push_scope_in(st), "console"@, console_model(), SymbolKind::Import, None);
    let st2 = collects_in(st1, program.body@, program.body@.len() as int, true);
    let st3 = CheckState { functions: Seq::empty(), ..st2 };
    let st4 = bodies_in(st3, st2.functions, st2.functions.len() as int);
    tops_in(st4, program.body@, program.body@.len() as int)
}

} // verus!
