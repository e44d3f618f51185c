//! Name resolution and structural type checking of a parsed program.
use vstd::prelude::*;
use crate::ast::{AssignmentOperator, Parameter, BinaryOperator, Expression, ExpressionKind, FunctionDeclaration, ObjectProperty, Program, Span, Statement, StatementKind, TypeKind, TypeMember, TypeNode, UnaryOperator, VariableDeclaration};
use crate::parser::{parse_source, parses_to, ParseDiagnostic, ParseOutput};
use crate::text::{decimal, str_eq, push_decimal, push_str, string_from_chars};
use crate::semantic_spec::{
    bodies_in, body_in, check_in, checks_in, class_findings, class_pairs, collect_in, collects_in, console_model, function_type, option_resolved, params_findings, params_in, program_in, tops_in, define_type_in, define_value_in, members_findings, option_type_findings,
    pop_scope_in, push_scope_in, report, return_in, type_findings, variable_in, CheckState,
};

verus! {

#[derive(Debug, PartialEq)]
pub struct SemanticOutput {
    pub symbols: SymbolTable,
    pub diagnostics: Vec<SemanticDiagnostic>,
}

#[derive(Debug, Clone, PartialEq)]
pub struct SymbolTable {
    pub values: Vec<Symbol>,
    pub types: Vec<Symbol>,
}

impl Default for SymbolTable {
    fn default() -> (t: Self)
        ensures
            t.values@.len() == 0,
            t.types@.len() == 0,
    {
        SymbolTable { values: Vec::new(), types: Vec::new() }
    }
}

#[derive(Debug, Clone, PartialEq, Eq)]
pub struct Symbol {
    pub name: String,
    pub kind: SymbolKind,
}

#[derive(Debug, Copy, Clone, PartialEq, Eq, Structural)]
pub enum SymbolKind {
    Variable,
    Function,
    Interface,
    TypeAlias,
    Class,
    Import,
}

#[derive(Debug, Clone, PartialEq, Eq)]
pub struct SemanticDiagnostic {
    pub code: DiagnosticCode,
    pub message: String,
    pub span: Span,
}

#[derive(Debug, Copy, Clone, PartialEq, Eq, Structural)]
pub enum DiagnosticCode {
    UnknownIdentifier,
    UnknownType,
    DuplicateSymbol,
    TypeMismatch,
    MissingProperty,
    WrongArgumentCount,
    InvalidCallTarget,
    InvalidMemberAccess,
    ReturnTypeMismatch,
}

/// A checker type as a value. An object type lists its fields as (name,
/// type) pairs; where a name is listed twice, lookups read its first pair
/// (the objects that `object_fields` builds list each name once, with the
/// type of its last entry in the source).
pub enum TypeModel {
    Number,
    String,
    Boolean,
    Null,
    Undefined,
    Object(Seq<(Seq<char>, TypeModel)>),
    Array(Box<TypeModel>),
    Function { params: Seq<TypeModel>, return_type: Box<TypeModel>, variadic: bool },
    Unknown,
}

/// One finding of the checker: its code, message and span.
pub type Finding = (DiagnosticCode, Seq<char>, Span);

enum Type {
    Number,
    String,
    Boolean,
    Null,
    Undefined,
    Object(Vec<(String, Type)>),
    Array(Box<Type>),
    Function { params: Vec<Type>, return_type: Box<Type>, variadic: bool },
    Unknown,
}

spec fn model(t: Type) -> TypeModel
    decreases t,
{
    match t {
        Type::Number => TypeModel::Number,
        Type::String => TypeModel::String,
        Type::Boolean => TypeModel::Boolean,
        Type::Null => TypeModel::Null,
        Type::Undefined => TypeModel::Undefined,
        Type::Object(fields) => TypeModel::Object(
            Seq::new(
                fields@.len(),
                |i: int|
                    (
                        fields@[i].0@,
                        if 0 <= i < fields@.len() {
                            model(fields@[i].1)
                        } else {
                            TypeModel::Unknown
                        },
                    ),
            ),
        ),
        Type::Array(inner) => TypeModel::Array(Box::new(model(*inner))),
        Type::Function { params, return_type, variadic } => TypeModel::Function {
            params: Seq::new(
                params@.len(),
                |i: int|
                    if 0 <= i < params@.len() {
                        model(params@[i])
                    } else {
                        TypeModel::Unknown
                    },
            ),
            return_type: Box::new(model(*return_type)),
            variadic,
        },
        Type::Unknown => TypeModel::Unknown,
    }
}

/// The type of the field `name` of an object type, if it has one (the first entry wins).
pub open spec fn field_of(fields: Seq<(Seq<char>, TypeModel)>, name: Seq<char>) -> Option<TypeModel>
    decreases fields.len(),
{
    if fields.len() == 0 {
        None
    } else if fields[0].0 == name {
        Some(fields[0].1)
    } else {
        field_of(fields.drop_first(), name)
    }
}

/// The type of a binary expression, given the types of its operands.
pub open spec fn binary_result(op: BinaryOperator, left: TypeModel, right: TypeModel) -> TypeModel {
    match op {
        BinaryOperator::Add => if left is String || right is String {
            TypeModel::String
        } else {
            TypeModel::Number
        },
        BinaryOperator::Subtract | BinaryOperator::Multiply | BinaryOperator::Divide
        | BinaryOperator::Remainder => TypeModel::Number,
        BinaryOperator::LogicalAnd | BinaryOperator::LogicalOr => TypeModel::Boolean,
        BinaryOperator::NullishCoalesce => if left is Null || left is Undefined {
            right
        } else {
            left
        },
        _ => TypeModel::Boolean,
    }
}

/// The type of an assignment, given the types of its sides.
pub open spec fn assignment_result(op: AssignmentOperator, left: TypeModel) -> TypeModel {
    match op {
        AssignmentOperator::Assign => left,
        _ => TypeModel::Number,
    }
}

/// The type a member access reads from a value of type `object`.
pub open spec fn member_result(object: TypeModel, property: Seq<char>) -> TypeModel {
    match object {
        TypeModel::Object(fields) => match field_of(fields, property) {
            Some(t) => t,
            None => TypeModel::Unknown,
        },
        _ => TypeModel::Unknown,
    }
}

/// The type a call gives: the callee's return type, or unknown for anything else.
pub open spec fn call_result(callee: TypeModel) -> TypeModel {
    match callee {
        TypeModel::Function { return_type, .. } => *return_type,
        _ => TypeModel::Unknown,
    }
}

pub open spec fn finding(code: DiagnosticCode, message: Seq<char>, span: Span) -> Seq<Finding> {
    seq![(code, message, span)]
}

/// What checking that a value of type `actual` may be used where `expected`
/// is required reports: unknown types pass, primitives must agree, arrays
/// compare their elements, objects need each expected field (checked in
/// order), and anything else is a mismatch.
pub open spec fn assign_findings(
    expected: TypeModel,
    actual: TypeModel,
    span: Span,
    code: DiagnosticCode,
) -> Seq<Finding>
    decreases expected,
{
    if expected is Unknown || actual is Unknown {
        Seq::empty()
    } else {
        match (expected, actual) {
            (TypeModel::Number, TypeModel::Number) | (TypeModel::String, TypeModel::String) | (
                TypeModel::Boolean,
                TypeModel::Boolean,
            ) | (TypeModel::Null, TypeModel::Null) | (TypeModel::Undefined, TypeModel::Undefined) => {
                Seq::empty()
            },
            (TypeModel::Array(e), TypeModel::Array(a)) => assign_findings(*e, *a, span, code),
            (TypeModel::Object(ef), TypeModel::Object(af)) => fields_findings(ef, af, 0, span, code),
            _ => finding(code, "type mismatch"@, span),
        }
    }
}

/// The findings for the expected fields `ef[k..]`.
pub open spec fn fields_findings(
    ef: Seq<(Seq<char>, TypeModel)>,
    af: Seq<(Seq<char>, TypeModel)>,
    k: int,
    span: Span,
    code: DiagnosticCode,
) -> Seq<Finding>
    decreases ef, ef.len() - k,
{
    if k < 0 || k >= ef.len() {
        Seq::empty()
    } else {
        (match field_of(af, ef[k].0) {
            None => finding(
                DiagnosticCode::MissingProperty,
                "missing property `"@ + ef[k].0 + "`"@,
                span,
            ),
            Some(a) => assign_findings(ef[k].1, a, span, code),
        }) + fields_findings(ef, af, k + 1, span, code)
    }
}

/// The position of the first field named `name`.
pub open spec fn field_index(fields: Seq<(Seq<char>, TypeModel)>, name: Seq<char>) -> Option<int>
    decreases fields.len(),
{
    if fields.len() == 0 {
        None
    } else if fields[0].0 == name {
        Some(0)
    } else {
        match field_index(fields.drop_first(), name) {
            Some(i) => Some(i + 1),
            None => None,
        }
    }
}

/// `fields` with `name` given the type `t`: its entry replaced, or a new entry at the end.
pub open spec fn with_field(fields: Seq<(Seq<char>, TypeModel)>, name: Seq<char>, t: TypeModel) -> Seq<
    (Seq<char>, TypeModel),
> {
    match field_index(fields, name) {
        Some(i) => fields.update(i, (name, t)),
        None => fields.push((name, t)),
    }
}

/// The fields of an object built from `pairs` in order, a later entry for a
/// name replacing an earlier one.
pub open spec fn object_fields(pairs: Seq<(Seq<char>, TypeModel)>) -> Seq<(Seq<char>, TypeModel)>
    decreases pairs.len(),
{
    if pairs.len() == 0 {
        Seq::empty()
    } else {
        with_field(object_fields(pairs.drop_last()), pairs.last().0, pairs.last().1)
    }
}

/// The type of an array literal's elements: the first known element type.
pub open spec fn element_result(types: Seq<TypeModel>) -> TypeModel
    decreases types.len(),
{
    if types.len() == 0 {
        TypeModel::Unknown
    } else if types[0] is Unknown {
        element_result(types.drop_first())
    } else {
        types[0]
    }
}

/// The value scopes, innermost last; each maps names to types.
pub type Scopes = Seq<Seq<(Seq<char>, TypeModel)>>;

/// The type of the innermost binding of `name`.
pub open spec fn lookup(scopes: Scopes, name: Seq<char>) -> Option<TypeModel>
    decreases scopes.len(),
{
    if scopes.len() == 0 {
        None
    } else {
        match field_of(scopes.last(), name) {
            Some(t) => Some(t),
            None => lookup(scopes.drop_last(), name),
        }
    }
}

/// The type the checker gives `e` in the scopes `scopes`.
pub open spec fn expr_type(scopes: Scopes, e: Expression) -> TypeModel
    decreases e,
{
    match e.kind {
        ExpressionKind::Identifier(name) => match lookup(scopes, name@) {
            Some(t) => t,
            None => TypeModel::Unknown,
        },
        ExpressionKind::Number(_) => TypeModel::Number,
        ExpressionKind::String(_) => TypeModel::String,
        ExpressionKind::Boolean(_) => TypeModel::Boolean,
        ExpressionKind::Null => TypeModel::Null,
        ExpressionKind::Undefined => TypeModel::Undefined,
        ExpressionKind::Object(props) => TypeModel::Object(object_fields(prop_pairs(scopes, props@))),
        ExpressionKind::Array(elems) => TypeModel::Array(Box::new(element_result(elem_types(scopes, elems@)))),
        ExpressionKind::Member { object, property } => member_result(expr_type(scopes, *object), property@),
        ExpressionKind::Call { callee, .. } => call_result(expr_type(scopes, *callee)),
        ExpressionKind::Unary { operator, .. } => match operator {
            UnaryOperator::Negate => TypeModel::Number,
            UnaryOperator::Not => TypeModel::Boolean,
        },
        ExpressionKind::Binary { left, operator, right } => binary_result(
            operator,
            expr_type(scopes, *left),
            expr_type(scopes, *right),
        ),
        ExpressionKind::Assignment { left, operator, .. } => assignment_result(
            operator,
            expr_type(scopes, *left),
        ),
        ExpressionKind::Error => TypeModel::Unknown,
    }
}

/// Each property's name with the type of its value.
pub open spec fn prop_pairs(scopes: Scopes, props: Seq<ObjectProperty>) -> Seq<(Seq<char>, TypeModel)>
    decreases props,
{
    Seq::new(
        props.len(),
        |i: int|
            (
                props[i].name@,
                if 0 <= i < props.len() {
                    expr_type(scopes, props[i].value)
                } else {
                    TypeModel::Unknown
                },
            ),
    )
}

/// The type of each element.
pub open spec fn elem_types(scopes: Scopes, elems: Seq<Expression>) -> Seq<TypeModel>
    decreases elems,
{
    Seq::new(
        elems.len(),
        |i: int|
            if 0 <= i < elems.len() {
                expr_type(scopes, elems[i])
            } else {
                TypeModel::Unknown
            },
    )
}

/// What reading `property` from a value of type `object` reports.
pub open spec fn member_findings(object: TypeModel, property: Seq<char>, span: Span) -> Seq<Finding> {
    match object {
        TypeModel::Object(fields) => if field_of(fields, property) is Some {
            Seq::empty()
        } else {
            finding(DiagnosticCode::InvalidMemberAccess, "property `"@ + property + "` does not exist"@, span)
        },
        TypeModel::Unknown => Seq::empty(),
        _ => finding(DiagnosticCode::InvalidMemberAccess, "member access requires an object"@, span),
    }
}

/// What a binary operator reports of its operands' types: arithmetic needs
/// numbers (unless `+` has a string side), logic needs booleans.
pub open spec fn binary_findings(
    op: BinaryOperator,
    left: TypeModel,
    right: TypeModel,
    left_span: Span,
    right_span: Span,
) -> Seq<Finding> {
    let numbers = assign_findings(TypeModel::Number, left, left_span, DiagnosticCode::TypeMismatch) + assign_findings(
        TypeModel::Number,
        right,
        right_span,
        DiagnosticCode::TypeMismatch,
    );
    match op {
        BinaryOperator::Add => if left is String || right is String {
            Seq::empty()
        } else {
            numbers
        },
        BinaryOperator::Subtract | BinaryOperator::Multiply | BinaryOperator::Divide
        | BinaryOperator::Remainder => numbers,
        BinaryOperator::LogicalAnd | BinaryOperator::LogicalOr => assign_findings(
            TypeModel::Boolean,
            left,
            left_span,
            DiagnosticCode::TypeMismatch,
        ) + assign_findings(TypeModel::Boolean, right, right_span, DiagnosticCode::TypeMismatch),
        _ => Seq::empty(),
    }
}

/// `+` types the same whichever way round its operands come, and as soon as
/// either side is a string it is a string concatenation: its type is string
/// and it reports nothing.
pub proof fn law_plus_is_symmetric_and_concatenates_strings(
    left: TypeModel,
    right: TypeModel,
    left_span: Span,
    right_span: Span,
)
    ensures
        binary_result(BinaryOperator::Add, left, right) == binary_result(BinaryOperator::Add, right, left),
        binary_findings(BinaryOperator::Add, left, right, left_span, right_span).len() == binary_findings(
            BinaryOperator::Add,
            right,
            left,
            right_span,
            left_span,
        ).len(),
        (left is String || right is String) ==> binary_result(BinaryOperator::Add, left, right) == TypeModel::String
            && binary_findings(BinaryOperator::Add, left, right, left_span, right_span).len() == 0,
{
}

/// The types of binary expressions: `+` gives a number when neither side is
/// a string; `-`, `*`, `/` and `%` give numbers and report each side that is
/// not a number; comparisons, equality and `&&`/`||` give booleans; `??`
/// gives its left side's type unless that is null or undefined, and then
/// its right side's.
pub proof fn law_binary_result_types(
    op: BinaryOperator,
    left: TypeModel,
    right: TypeModel,
    left_span: Span,
    right_span: Span,
)
    ensures
        op == BinaryOperator::Add && !(left is String) && !(right is String) ==> binary_result(op, left, right)
            == TypeModel::Number,
        (op == BinaryOperator::Subtract || op == BinaryOperator::Multiply || op == BinaryOperator::Divide || op
            == BinaryOperator::Remainder) ==> binary_result(op, left, right) == TypeModel::Number,
        (op == BinaryOperator::Subtract || op == BinaryOperator::Multiply || op == BinaryOperator::Divide || op
            == BinaryOperator::Remainder) && left is Number && right is Number ==> binary_findings(
            op,
            left,
            right,
            left_span,
            right_span,
        ).len() == 0,
        (op == BinaryOperator::Subtract || op == BinaryOperator::Multiply || op == BinaryOperator::Divide || op
            == BinaryOperator::Remainder) && left is String ==> binary_findings(
            op,
            left,
            right,
            left_span,
            right_span,
        ).len() > 0,
        (op == BinaryOperator::Less || op == BinaryOperator::LessEqual || op == BinaryOperator::Greater || op
            == BinaryOperator::GreaterEqual || op == BinaryOperator::Equal || op == BinaryOperator::StrictEqual
            || op == BinaryOperator::NotEqual || op == BinaryOperator::StrictNotEqual || op
            == BinaryOperator::LogicalAnd || op == BinaryOperator::LogicalOr) ==> binary_result(op, left, right)
            == TypeModel::Boolean,
        op == BinaryOperator::NullishCoalesce ==> binary_result(op, left, right) == if left is Null
            || left is Undefined {
            right
        } else {
            left
        },
{
    if (op == BinaryOperator::Subtract || op == BinaryOperator::Multiply || op == BinaryOperator::Divide || op
        == BinaryOperator::Remainder) && left is String {
        assert(assign_findings(TypeModel::Number, left, left_span, DiagnosticCode::TypeMismatch).len() > 0);
    }
}

/// What checking `e` reports, in order, with the scopes `scopes`.
pub open spec fn expr_findings(scopes: Scopes, e: Expression) -> Seq<Finding>
    decreases e, 0nat,
{
    match e.kind {
        ExpressionKind::Identifier(name) => if lookup(scopes, name@) is Some {
            Seq::empty()
        } else {
            finding(DiagnosticCode::UnknownIdentifier, "unknown identifier `"@ + name@ + "`"@, e.span)
        },
        ExpressionKind::Object(props) => props_findings(scopes, props@, props@.len() as int),
        ExpressionKind::Array(elems) => elems_findings(scopes, elems@, elems@.len() as int),
        ExpressionKind::Member { object, property } => expr_findings(scopes, *object) + member_findings(
            expr_type(scopes, *object),
            property@,
            e.span,
        ),
        ExpressionKind::Call { callee, arguments } => expr_findings(scopes, *callee) + match expr_type(scopes, *callee) {
            TypeModel::Function { params, variadic, .. } => (if !variadic && params.len() != arguments@.len() {
                finding(
                    DiagnosticCode::WrongArgumentCount,
                    "expected "@ + decimal(params.len()) + " arguments, found "@ + decimal(arguments@.len()),
                    e.span,
                )
            } else {
                Seq::empty()
            }) + args_findings(
                scopes,
                params,
                arguments@,
                if params.len() < arguments@.len() {
                    params.len() as int
                } else {
                    arguments@.len() as int
                },
            ),
            TypeModel::Unknown => Seq::empty(),
            _ => finding(DiagnosticCode::InvalidCallTarget, "value is not callable"@, e.span),
        },
        ExpressionKind::Unary { operator, argument } => expr_findings(scopes, *argument) + match operator {
            UnaryOperator::Negate => assign_findings(
                TypeModel::Number,
                expr_type(scopes, *argument),
                argument.span,
                DiagnosticCode::TypeMismatch,
            ),
            UnaryOperator::Not => Seq::empty(),
        },
        ExpressionKind::Binary { left, operator, right } => expr_findings(scopes, *left) + expr_findings(scopes, *right)
            + binary_findings(operator, expr_type(scopes, *left), expr_type(scopes, *right), left.span, right.span),
        ExpressionKind::Assignment { left, operator, right } => expr_findings(scopes, *left) + expr_findings(
            scopes,
            *right,
        ) + match operator {
            AssignmentOperator::Assign => assign_findings(
                expr_type(scopes, *left),
                expr_type(scopes, *right),
                e.span,
                DiagnosticCode::TypeMismatch,
            ),
            _ => assign_findings(TypeModel::Number, expr_type(scopes, *left), left.span, DiagnosticCode::TypeMismatch)
                + assign_findings(TypeModel::Number, expr_type(scopes, *right), right.span, DiagnosticCode::TypeMismatch),
        },
        _ => Seq::empty(),
    }
}

/// What checking the values of the first `n` properties reports.
pub open spec fn props_findings(scopes: Scopes, props: Seq<ObjectProperty>, n: int) -> Seq<Finding>
    decreases props, n,
{
    if n <= 0 || n > props.len() {
        Seq::empty()
    } else {
        props_findings(scopes, props, n - 1) + expr_findings(scopes, props[n - 1].value)
    }
}

/// What checking the first `n` elements of an array reports: each element,
/// then, once an element type is known, whether the element fits it.
pub open spec fn elems_findings(scopes: Scopes, elems: Seq<Expression>, n: int) -> Seq<Finding>
    decreases elems, n,
{
    if n <= 0 || n > elems.len() {
        Seq::empty()
    } else {
        let types = elem_types(scopes, elems);
        let so_far = element_result(types.take(n - 1));
        elems_findings(scopes, elems, n - 1) + expr_findings(scopes, elems[n - 1]) + if so_far is Unknown {
            Seq::<Finding>::empty()
        } else {
            assign_findings(so_far, types[n - 1], elems[n - 1].span, DiagnosticCode::TypeMismatch)
        }
    }
}

/// What checking the first `n` arguments of a call against the parameter
/// types `params` reports.
pub open spec fn args_findings(scopes: Scopes, params: Seq<TypeModel>, args: Seq<Expression>, n: int) -> Seq<Finding>
    decreases args, n,
{
    if n <= 0 || n > args.len() || n > params.len() {
        Seq::empty()
    } else {
        args_findings(scopes, params, args, n - 1) + expr_findings(scopes, args[n - 1]) + assign_findings(
            params[n - 1],
            expr_type(scopes, args[n - 1]),
            args[n - 1].span,
            DiagnosticCode::TypeMismatch,
        )
    }
}

/// What checking a call with arguments `args` of a callee of type `callee`
/// reports: a wrong argument count, each argument against its parameter,
/// or a callee that is not a function.
pub open spec fn call_findings(scopes: Scopes, callee: TypeModel, args: Seq<Expression>, span: Span) -> Seq<Finding> {
    match callee {
        TypeModel::Function { params, variadic, .. } => (if !variadic && params.len() != args.len() {
            finding(
                DiagnosticCode::WrongArgumentCount,
                "expected "@ + decimal(params.len()) + " arguments, found "@ + decimal(args.len()),
                span,
            )
        } else {
            Seq::empty()
        }) + args_findings(
            scopes,
            params,
            args,
            if params.len() < args.len() {
                params.len() as int
            } else {
                args.len() as int
            },
        ),
        TypeModel::Unknown => Seq::empty(),
        _ => finding(DiagnosticCode::InvalidCallTarget, "value is not callable"@, span),
    }
}

/// The checker type a type annotation stands for, given the named types `named`.
pub open spec fn resolved(named: Seq<(Seq<char>, TypeModel)>, t: TypeNode) -> TypeModel
    decreases t,
{
    match t.kind {
        TypeKind::Number => TypeModel::Number,
        TypeKind::String => TypeModel::String,
        TypeKind::Boolean => TypeModel::Boolean,
        TypeKind::Null => TypeModel::Null,
        TypeKind::Undefined => TypeModel::Undefined,
        TypeKind::Named(name) => match field_of(named, name@) {
            Some(found) => found,
            None => TypeModel::Unknown,
        },
        TypeKind::Array(inner) => TypeModel::Array(Box::new(resolved(named, *inner))),
        TypeKind::Object(members) => TypeModel::Object(object_fields(member_pairs(named, members@))),
    }
}

/// Each member's name with the type of its annotation.
pub open spec fn member_pairs(named: Seq<(Seq<char>, TypeModel)>, members: Seq<TypeMember>) -> Seq<
    (Seq<char>, TypeModel),
>
    decreases members,
{
    Seq::new(
        members.len(),
        |i: int|
            (
                members[i].name@,
                if 0 <= i < members.len() {
                    resolved(named, members[i].ty)
                } else {
                    TypeModel::Unknown
                },
            ),
    )
}

fn clone_type(t: &Type) -> (c: Type)
    ensures
        model(c) == model(*t),
    decreases t,
{
    match t {
        Type::Number => Type::Number,
        Type::String => Type::String,
        Type::Boolean => Type::Boolean,
        Type::Null => Type::Null,
        Type::Undefined => Type::Undefined,
        Type::Unknown => Type::Unknown,
        Type::Array(inner) => Type::Array(Box::new(clone_type(inner))),
        Type::Object(fields) => {
            let mut out: Vec<(String, Type)> = Vec::new();
            let mut i: usize = 0;
            while i < fields.len()
                invariant
                    i <= fields.len(),
                    out@.len() == i,
                    *t == Type::Object(*fields),
                    forall|j: int| 0 <= j < i ==> out@[j].0@ == fields@[j].0@ && model(#[trigger] out@[j].1)
                        == model(fields@[j].1),
                decreases fields.len() - i,
            {
                assert(decreases_to!(*t => (*t)->Object_0));
                assert(decreases_to!(*fields => fields@));
                assert(decreases_to!(fields@ => fields@[i as int]));
                assert(decreases_to!(fields@[i as int] => fields@[i as int].1));
                let ft = clone_type(&fields[i].1);
                out.push((fields[i].0.clone(), ft));
                i += 1;
            }
            let c = Type::Object(out);
            assert(model(c) == model(*t)) by {
                if let TypeModel::Object(a) = model(c) {
                    if let TypeModel::Object(b) = model(*t) {
                        assert(a =~= b);
                    }
                }
            }
            c
        },
        Type::Function { params, return_type, variadic } => {
            let mut out: Vec<Type> = Vec::new();
            let mut i: usize = 0;
            while i < params.len()
                invariant
                    i <= params.len(),
                    out@.len() == i,
                    *t == (Type::Function { params: *params, return_type: *return_type, variadic: *variadic }),
                    forall|j: int| 0 <= j < i ==> model(#[trigger] out@[j]) == model(params@[j]),
                decreases params.len() - i,
            {
                assert(decreases_to!(*t => (*t)->params));
                assert(decreases_to!(*params => params@));
                assert(decreases_to!(params@ => params@[i as int]));
                let pt = clone_type(&params[i]);
                out.push(pt);
                i += 1;
            }
            let r = clone_type(return_type);
            let c = Type::Function { params: out, return_type: Box::new(r), variadic: *variadic };
            assert(model(c) == model(*t)) by {
                if let TypeModel::Function { params: a, .. } = model(c) {
                    if let TypeModel::Function { params: b, .. } = model(*t) {
                        assert(a =~= b);
                    }
                }
            }
            c
        },
    }
}

/// The fields of a stored object type as values.
spec fn fields_model(v: Seq<(String, Type)>) -> Seq<(Seq<char>, TypeModel)> {
    Seq::new(v.len(), |j: int| (v[j].0@, model(v[j].1)))
}

proof fn lemma_object_model(fields: Vec<(String, Type)>)
    ensures
        model(Type::Object(fields)) == TypeModel::Object(fields_model(fields@)),
{
    if let TypeModel::Object(a) = model(Type::Object(fields)) {
        assert(a =~= fields_model(fields@));
    }
}

proof fn lemma_element_push(s: Seq<TypeModel>, x: TypeModel)
    ensures
        element_result(s.push(x)) == if element_result(s) is Unknown {
            x
        } else {
            element_result(s)
        },
    decreases s.len(),
{
    if s.len() > 0 {
        assert(s.push(x)[0] == s[0]);
        assert(s.push(x).drop_first() =~= s.drop_first().push(x));
        lemma_element_push(s.drop_first(), x);
    } else {
        assert(s.push(x).drop_first() =~= Seq::<TypeModel>::empty());
        assert(element_result(Seq::<TypeModel>::empty()) is Unknown);
        assert(s.push(x)[0] == x);
    }
}

proof fn lemma_field_index(fields: Seq<(Seq<char>, TypeModel)>, name: Seq<char>)
    ensures
        match field_index(fields, name) {
            Some(i) => 0 <= i < fields.len() && fields[i].0 == name && field_of(fields, name) == Some(fields[i].1)
                && forall|j: int| 0 <= j < i ==> fields[j].0 != name,
            None => field_of(fields, name) is None && forall|j: int| 0 <= j < fields.len() ==> fields[j].0 != name,
        },
    decreases fields.len(),
{
    if fields.len() > 0 && fields[0].0 != name {
        lemma_field_index(fields.drop_first(), name);
        assert forall|j: int| 0 < j < fields.len() implies fields[j] == fields.drop_first()[j - 1] by {}
    }
}

/// The position of the first field named `name`.
fn find_field(fields: &Vec<(String, Type)>, name: &str) -> (r: Option<usize>)
    ensures
        r matches Some(i) ==> field_index(fields_model(fields@), name@) == Some(i as int),
        r is None ==> field_index(fields_model(fields@), name@) is None,
{
    let ghost fm = fields_model(fields@);
    proof {
        lemma_field_index(fm, name@);
    }
    let mut i: usize = 0;
    while i < fields.len()
        invariant
            i <= fields.len(),
            fm == fields_model(fields@),
            forall|j: int| 0 <= j < i ==> fm[j].0 != name@,
            match field_index(fm, name@) {
                Some(k) => 0 <= k < fm.len() && fm[k].0 == name@ && forall|j: int| 0 <= j < k ==> fm[j].0 != name@,
                None => forall|j: int| 0 <= j < fm.len() ==> fm[j].0 != name@,
            },
        decreases fields.len() - i,
    {
        if str_eq(fields[i].0.as_str(), name) {
            assert(fm[i as int].0 == name@);
            return Some(i);
        }
        i += 1;
    }
    None
}

/// Gives the field `name` the type `t`, replacing an earlier entry.
fn set_field(fields: &mut Vec<(String, Type)>, name: String, t: Type)
    ensures
        fields_model(final(fields)@) == with_field(fields_model(old(fields)@), name@, model(t)),
{
    proof {
        lemma_field_index(fields_model(fields@), name@);
    }
    match find_field(fields, name.as_str()) {
        Some(i) => {
            let ghost before = fields@;
            fields.set(i, (name, t));
            assert(fields_model(fields@) =~= fields_model(before).update(i as int, (name@, model(t))));
        },
        None => {
            let ghost before = fields@;
            fields.push((name, t));
            assert(fields_model(fields@) =~= fields_model(before).push((name@, model(t))));
        },
    }
}

fn is_unknown(t: &Type) -> (b: bool)
    ensures
        b == (model(*t) is Unknown),
{
    match t {
        Type::Unknown => true,
        _ => false,
    }
}

fn message_with_name(before: &str, name: &str, after: &str) -> (m: String)
    ensures
        m@ == before@ + name@ + after@,
{
    let mut out: Vec<char> = Vec::new();
    push_str(&mut out, before);
    push_str(&mut out, name);
    push_str(&mut out, after);
    string_from_chars(out)
}

/// A step that only reports `more` changes the state by reporting it.
proof fn lemma_reported<'a>(before: Analyzer<'a>, after: Analyzer<'a>, more: Seq<Finding>)
    requires
        after.reports_only(&before),
        after.findings() == before.findings() + more,
    ensures
        after.state() == report(before.state(), more),
{
}

/// Each symbol's name and kind.
pub open spec fn symbols_model(symbols: Seq<Symbol>) -> Seq<(Seq<char>, SymbolKind)> {
    symbols.map_values(|s: Symbol| (s.name@, s.kind))
}

struct Analyzer<'a> {
    symbols: SymbolTable,
    type_bindings: Vec<(String, Type)>,
    value_scopes: Vec<Vec<(String, Type)>>,
    functions: Vec<(&'a FunctionDeclaration, Span)>,
    diagnostics: Vec<SemanticDiagnostic>,
    current_return_type: Option<Type>,
}

impl<'a> Analyzer<'a> {
    spec fn scopes(&self) -> Scopes {
        Seq::new(self.value_scopes@.len(), |i: int| fields_model(self.value_scopes@[i]@))
    }

    spec fn findings(&self) -> Seq<Finding> {
        self.diagnostics@.map_values(|d: SemanticDiagnostic| (d.code, d.message@, d.span))
    }

    /// The checker's state as a value.
    spec fn state(&self) -> CheckState {
        CheckState {
            values: symbols_model(self.symbols.values@),
            types: symbols_model(self.symbols.types@),
            bindings: fields_model(self.type_bindings@),
            scopes: self.scopes(),
            functions: self.functions@.map_values(|p: (&'a FunctionDeclaration, Span)| (*p.0, p.1)),
            findings: self.findings(),
            ret: match self.current_return_type {
                Some(t) => Some(model(t)),
                None => None,
            },
        }
    }

    /// The value symbols of `before` are still listed first in `self`.
    spec fn keeps_symbols(&self, before: &Analyzer<'a>) -> bool {
        &&& before.symbols.values@.len() <= self.symbols.values@.len()
        &&& forall|i: int| 0 <= i < before.symbols.values@.len() ==> #[trigger] self.symbols.values@[i] == before.symbols.values@[i]
    }

    /// Only diagnostics changed between `before` and `self`.
    spec fn reports_only(&self, before: &Analyzer<'a>) -> bool {
        &&& self.symbols == before.symbols
        &&& self.type_bindings == before.type_bindings
        &&& self.value_scopes == before.value_scopes
        &&& self.functions == before.functions
        &&& self.current_return_type == before.current_return_type
    }

    fn diagnostic(&mut self, code: DiagnosticCode, message: String, span: Span)
        ensures
            final(self).reports_only(old(self)),
            final(self).findings() == old(self).findings().push((code, message@, span)),
    {
        let d = SemanticDiagnostic { code, message, span };
        let ghost before = self.diagnostics@;
        self.diagnostics.push(d);
        assert(self.findings() =~= old(self).findings().push((code, message@, span)));
    }

    /// Reports where a value of type `actual` cannot stand where `expected` is required.
    fn require_assignable(&mut self, expected: &Type, actual: &Type, span: Span, code: DiagnosticCode)
        ensures
            final(self).reports_only(old(self)),
            final(self).findings() == old(self).findings() + assign_findings(
                model(*expected),
                model(*actual),
                span,
                code,
            ),
        decreases expected,
    {
        let ghost start = self.findings();
        if is_unknown(expected) || is_unknown(actual) {
            assert(self.findings() =~= start + assign_findings(model(*expected), model(*actual), span, code));
            return;
        }
        match (expected, actual) {
            (Type::Number, Type::Number) | (Type::String, Type::String) | (Type::Boolean, Type::Boolean)
            | (Type::Null, Type::Null) | (Type::Undefined, Type::Undefined) => {
                assert(self.findings() =~= start + assign_findings(model(*expected), model(*actual), span, code));
            },
            (Type::Array(e), Type::Array(a)) => {
                self.require_assignable(e, a, span, code);
            },
            (Type::Object(ef), Type::Object(af)) => {
                proof {
                    lemma_object_model(*ef);
                    lemma_object_model(*af);
                }
                let ghost efm = fields_model(ef@);
                let ghost afm = fields_model(af@);
                let mut k: usize = 0;
                while k < ef.len()
                    invariant
                        k <= ef.len(),
                        *expected == Type::Object(*ef),
                        efm == fields_model(ef@),
                        afm == fields_model(af@),
                        self.reports_only(old(self)),
                        self.findings() + fields_findings(efm, afm, k as int, span, code) == start
                            + fields_findings(efm, afm, 0, span, code),
                    decreases ef.len() - k,
                {
                    let ghost before = self.findings();
                    proof {
                        lemma_field_index(afm, efm[k as int].0);
                    }
                    match find_field(af, ef[k].0.as_str()) {
                        None => {
                            let message = message_with_name("missing property `", ef[k].0.as_str(), "`");
                            self.diagnostic(DiagnosticCode::MissingProperty, message, span);
                        },
                        Some(j) => {
                            assert(decreases_to!(*expected => (*expected)->Object_0));
                            assert(decreases_to!(*ef => ef@));
                            assert(decreases_to!(ef@ => ef@[k as int]));
                            assert(decreases_to!(ef@[k as int] => ef@[k as int].1));
                            self.require_assignable(&ef[k].1, &af[j].1, span, code);
                        },
                    }
                    assert(before + fields_findings(efm, afm, k as int, span, code) =~= self.findings()
                        + fields_findings(efm, afm, k + 1, span, code));
                    k += 1;
                }
                assert(self.findings() =~= start + assign_findings(model(*expected), model(*actual), span, code));
            },
            _ => {
                self.diagnostic(code, "type mismatch".to_owned(), span);
                assert(self.findings() =~= start + assign_findings(model(*expected), model(*actual), span, code));
            },
        }
    }

    /// The type read by `.property` from a value of type `object_type`,
    /// reporting a missing property or a non-object.
    fn member_type(&mut self, object_type: &Type, property: &str, span: Span) -> (t: Type)
        ensures
            final(self).reports_only(old(self)),
            model(t) == member_result(model(*object_type), property@),
            final(self).findings() == old(self).findings() + member_findings(model(*object_type), property@, span),
    {
        match object_type {
            Type::Object(fields) => {
                proof {
                    lemma_object_model(*fields);
                    lemma_field_index(fields_model(fields@), property@);
                }
                match find_field(fields, property) {
                    Some(i) => {
                        assert(old(self).findings() + Seq::<Finding>::empty() =~= old(self).findings());
                        clone_type(&fields[i].1)
                    },
                    None => {
                        let message = message_with_name("property `", property, "` does not exist");
                        self.diagnostic(DiagnosticCode::InvalidMemberAccess, message, span);
                        assert(self.findings() =~= old(self).findings() + member_findings(model(*object_type), property@, span));
                        Type::Unknown
                    },
                }
            },
            Type::Unknown => {
                assert(old(self).findings() + Seq::<Finding>::empty() =~= old(self).findings());
                Type::Unknown
            },
            _ => {
                self.diagnostic(
                    DiagnosticCode::InvalidMemberAccess,
                    "member access requires an object".to_owned(),
                    span,
                );
                assert(self.findings() =~= old(self).findings() + member_findings(model(*object_type), property@, span));
                Type::Unknown
            },
        }
    }
}

impl<'a> Analyzer<'a> {
    /// The type of the innermost binding of `name`.
    fn lookup_value(&self, name: &str) -> (t: Option<Type>)
        ensures
            match t {
                Some(found) => lookup(self.scopes(), name@) == Some(model(found)),
                None => lookup(self.scopes(), name@) is None,
            },
    {
        let ghost scopes = self.scopes();
        assert(scopes.take(scopes.len() as int) =~= scopes);
        let mut k = self.value_scopes.len();
        while k > 0
            invariant
                k <= self.value_scopes@.len(),
                scopes == self.scopes(),
                lookup(scopes, name@) == lookup(scopes.take(k as int), name@),
            decreases k,
        {
            let ghost prefix = scopes.take(k as int);
            assert(prefix.drop_last() =~= scopes.take(k - 1));
            assert(prefix.last() == fields_model(self.value_scopes@[k - 1]@));
            proof {
                lemma_field_index(prefix.last(), name@);
            }
            match find_field(&self.value_scopes[k - 1], name) {
                Some(i) => {
                    return Some(clone_type(&self.value_scopes[k - 1][i].1));
                },
                None => {},
            }
            k -= 1;
        }
        None
    }

    fn push_scope(&mut self)
        ensures
            final(self).keeps_symbols(old(self)),
            final(self).value_scopes@.len() == old(self).value_scopes@.len() + 1,
            final(self).value_scopes@.last()@.len() == 0,
            final(self).diagnostics == old(self).diagnostics,
            final(self).symbols == old(self).symbols,
            final(self).state() == push_scope_in(old(self).state()),
    {
        self.value_scopes.push(Vec::new());
        assert(fields_model(self.value_scopes@.last()@) =~= Seq::<(Seq<char>, TypeModel)>::empty());
        assert forall|i: int| 0 <= i < old(self).value_scopes@.len() implies #[trigger] self.value_scopes@[i] == old(self).value_scopes@[i] by {}
        assert(self.scopes() =~= old(self).scopes().push(Seq::empty()));
    }

    fn pop_scope(&mut self)
        ensures
            final(self).keeps_symbols(old(self)),
            final(self).value_scopes@.len() == if old(self).value_scopes@.len() == 0 {
                0
            } else {
                old(self).value_scopes@.len() - 1
            },
            final(self).state() == pop_scope_in(old(self).state()),
    {
        self.value_scopes.pop();
        assert(old(self).value_scopes@.len() > 0 ==> self.scopes() =~= old(self).scopes().drop_last());
        assert(old(self).value_scopes@.len() == 0 ==> self.scopes() =~= old(self).scopes());
    }

    /// Binds `name` in the innermost scope, unless it is bound there already
    /// (reported when `span` is given). Bindings of the outermost scope are
    /// listed as symbols.
    fn define_value(&mut self, name: &str, ty: Type, kind: SymbolKind, span: Option<Span>)
        ensures
            final(self).keeps_symbols(old(self)),
            old(self).value_scopes@.len() == 1 && old(self).value_scopes@[0]@.len() == 0
                ==> final(self).symbols.values@.len() == old(self).symbols.values@.len() + 1
                && final(self).symbols.values@.last().name@ == name@ && final(self).symbols.values@.last().kind == kind,
            final(self).value_scopes@.len() == old(self).value_scopes@.len(),
            final(self).state() == define_value_in(old(self).state(), name@, model(ty), kind, span),
    {
        let ghost st = self.state();
        let n = self.value_scopes.len();
        if n == 0 {
            return;
        }
        assert(st.scopes[n - 1] == fields_model(self.value_scopes@[n - 1]@));
        if find_field(&self.value_scopes[n - 1], name).is_some() {
            match span {
                Some(span) => {
                    let message = message_with_name("duplicate value `", name, "`");
                    self.diagnostic(DiagnosticCode::DuplicateSymbol, message, span);
                    assert(self.findings() =~= st.findings + finding(
                        DiagnosticCode::DuplicateSymbol,
                        "duplicate value `"@ + name@ + "`"@,
                        span,
                    ));
                    assert(self.state() == define_value_in(st, name@, model(ty), kind, Some(span)));
                },
                None => {},
            }
            return;
        }
        let ghost scopes_before = self.value_scopes@;
        let mut scope = self.value_scopes.pop().unwrap();
        let ghost popped = scope@;
        scope.push((name.to_owned(), ty));
        assert(fields_model(scope@) =~= fields_model(popped).push((name@, model(ty))));
        self.value_scopes.push(scope);
        assert(self.scopes() =~= st.scopes.update(n - 1, st.scopes[n - 1].push((name@, model(ty))))) by {
            assert forall|i: int| 0 <= i < n - 1 implies #[trigger] self.value_scopes@[i] == scopes_before[i] by {}
        }
        if n == 1 {
            let ghost before_values = self.symbols.values@;
            self.symbols.values.push(Symbol { name: name.to_owned(), kind });
            assert(symbols_model(self.symbols.values@) =~= symbols_model(before_values).push((name@, kind)));
        }
        assert(self.state() == define_value_in(st, name@, model(ty), kind, span));
    }

    /// Names a type, unless the name is taken (which is reported).
    fn define_type(&mut self, name: &str, ty: Type, kind: SymbolKind, span: Span)
        ensures
            final(self).keeps_symbols(old(self)),
            final(self).value_scopes == old(self).value_scopes,
            final(self).state() == define_type_in(old(self).state(), name@, model(ty), kind, span),
    {
        let ghost st = self.state();
        if find_field(&self.type_bindings, name).is_some() {
            let message = message_with_name("duplicate type `", name, "`");
            self.diagnostic(DiagnosticCode::DuplicateSymbol, message, span);
            assert(self.findings() =~= st.findings + finding(DiagnosticCode::DuplicateSymbol, "duplicate type `"@ + name@ + "`"@, span));
            assert(self.state() == define_type_in(st, name@, model(ty), kind, span));
            return;
        }
        let ghost bindings_before = self.type_bindings@;
        let ghost types_before = self.symbols.types@;
        let ghost ty_model = model(ty);
        self.type_bindings.push((name.to_owned(), ty));
        self.symbols.types.push(Symbol { name: name.to_owned(), kind });
        assert(fields_model(self.type_bindings@) =~= fields_model(bindings_before).push((name@, ty_model)));
        assert(symbols_model(self.symbols.types@) =~= symbols_model(types_before).push((name@, kind)));
        assert(self.state() == define_type_in(st, name@, ty_model, kind, span));
    }

    /// The checker type of an annotation; unknown names are reported.
    #[verifier::loop_isolation(false)]
    fn resolve_type_node(&mut self, ty: &TypeNode) -> (t: Type)
        ensures
            final(self).reports_only(old(self)),
            model(t) == resolved(fields_model(old(self).type_bindings@), *ty),
            final(self).findings() == old(self).findings() + type_findings(fields_model(old(self).type_bindings@), *ty),
        decreases ty,
    {
        let ghost base = self.findings();
        let ghost named_types = fields_model(self.type_bindings@);
        assert(base + Seq::<Finding>::empty() =~= base);
        match &ty.kind {
            TypeKind::Number => Type::Number,
            TypeKind::String => Type::String,
            TypeKind::Boolean => Type::Boolean,
            TypeKind::Null => Type::Null,
            TypeKind::Undefined => Type::Undefined,
            TypeKind::Named(name) => {
                proof {
                    lemma_field_index(fields_model(self.type_bindings@), name@);
                }
                match find_field(&self.type_bindings, name.as_str()) {
                    Some(i) => clone_type(&self.type_bindings[i].1),
                    None => {
                        let message = message_with_name("unknown type `", name.as_str(), "`");
                        self.diagnostic(DiagnosticCode::UnknownType, message, ty.span);
                        assert(self.findings() =~= base + type_findings(named_types, *ty));
                        Type::Unknown
                    },
                }
            },
            TypeKind::Array(inner) => Type::Array(Box::new(self.resolve_type_node(inner))),
            TypeKind::Object(members) => {
                let ghost named = fields_model(self.type_bindings@);
                let ghost pairs = member_pairs(named, members@);
                let mut fields: Vec<(String, Type)> = Vec::new();
                let mut i: usize = 0;
                while i < members.len()
                    invariant
                        i <= members.len(),
                        ty.kind == TypeKind::Object(*members),
                        named == fields_model(self.type_bindings@),
                        self.reports_only(old(self)),
                        fields_model(fields@) == object_fields(pairs.take(i as int)),
                        self.findings() == base + members_findings(named, members@, i as int),
                    decreases members.len() - i,
                {
                    assert(decreases_to!(*ty => ty.kind));
                    assert(decreases_to!(ty.kind => (ty.kind)->Object_0));
                    assert(decreases_to!(*members => members@));
                    assert(decreases_to!(members@ => members@[i as int]));
                    assert(decreases_to!(members@[i as int] => members@[i as int].ty));
                    let member_type = self.resolve_type_node(&members[i].ty);
                    assert(self.findings() =~= base + members_findings(named, members@, i + 1));
                    set_field(&mut fields, members[i].name.clone(), member_type);
                    assert(pairs.take(i + 1).drop_last() =~= pairs.take(i as int));
                    assert(pairs.take(i + 1).last() == pairs[i as int]);
                    i += 1;
                }
                assert(pairs.take(members.len() as int) =~= pairs);
                proof {
                    lemma_object_model(fields);
                }
                assert(resolved(named, *ty) == TypeModel::Object(object_fields(pairs)));
                Type::Object(fields)
            },
        }
    }
}

impl<'a> Analyzer<'a> {
    /// The type of `e`; what does not check is reported.
    #[verifier::loop_isolation(false)]
    #[verifier::rlimit(40)]
    fn infer_expression(&mut self, e: &Expression) -> (t: Type)
        ensures
            final(self).reports_only(old(self)),
            model(t) == expr_type(old(self).scopes(), *e),
            final(self).findings() == old(self).findings() + expr_findings(old(self).scopes(), *e),
        decreases e, 1nat,
    {
        let ghost scopes = self.scopes();
        let ghost base = self.findings();
        match &e.kind {
            ExpressionKind::Identifier(name) => match self.lookup_value(name.as_str()) {
                Some(t) => {
                    assert(base + Seq::<Finding>::empty() =~= base);
                    t
                },
                None => {
                    let message = message_with_name("unknown identifier `", name.as_str(), "`");
                    self.diagnostic(DiagnosticCode::UnknownIdentifier, message, e.span);
                    assert(self.findings() =~= base + expr_findings(scopes, *e));
                    Type::Unknown
                },
            },
            ExpressionKind::Number(_) => {
                assert(base + Seq::<Finding>::empty() =~= base);
                Type::Number
            },
            ExpressionKind::String(_) => {
                assert(base + Seq::<Finding>::empty() =~= base);
                Type::String
            },
            ExpressionKind::Boolean(_) => {
                assert(base + Seq::<Finding>::empty() =~= base);
                Type::Boolean
            },
            ExpressionKind::Null => {
                assert(base + Seq::<Finding>::empty() =~= base);
                Type::Null
            },
            ExpressionKind::Undefined => {
                assert(base + Seq::<Finding>::empty() =~= base);
                Type::Undefined
            },
            ExpressionKind::Object(props) => {
                let ghost pairs = prop_pairs(scopes, props@);
                let mut fields: Vec<(String, Type)> = Vec::new();
                let mut i: usize = 0;
                while i < props.len()
                    invariant
                        i <= props.len(),
                        self.reports_only(old(self)),
                        fields_model(fields@) == object_fields(pairs.take(i as int)),
                        self.findings() == base + props_findings(scopes, props@, i as int),
                    decreases props.len() - i,
                {
                    assert(decreases_to!(*e => e.kind));
                    assert(decreases_to!(e.kind => (e.kind)->Object_0));
                    assert(decreases_to!(*props => props@));
                    assert(decreases_to!(props@ => props@[i as int]));
                    assert(decreases_to!(props@[i as int] => props@[i as int].value));
                    let value_type = self.infer_expression(&props[i].value);
                    assert(self.findings() =~= base + props_findings(scopes, props@, i + 1));
                    set_field(&mut fields, props[i].name.clone(), value_type);
                    assert(pairs.take(i + 1).drop_last() =~= pairs.take(i as int));
                    assert(pairs.take(i + 1).last() == pairs[i as int]);
                    i += 1;
                }
                assert(pairs.take(props.len() as int) =~= pairs);
                proof {
                    lemma_object_model(fields);
                }
                Type::Object(fields)
            },
            ExpressionKind::Array(elements) => {
                let ghost types = elem_types(scopes, elements@);
                let mut element_type = Type::Unknown;
                let mut i: usize = 0;
                while i < elements.len()
                    invariant
                        i <= elements.len(),
                        self.reports_only(old(self)),
                        model(element_type) == element_result(types.take(i as int)),
                        self.findings() == base + elems_findings(scopes, elements@, i as int),
                    decreases elements.len() - i,
                {
                    assert(decreases_to!(*e => e.kind));
                    assert(decreases_to!(e.kind => (e.kind)->Array_0));
                    assert(decreases_to!(*elements => elements@));
                    assert(decreases_to!(elements@ => elements@[i as int]));
                    let actual = self.infer_expression(&elements[i]);
                    proof {
                        assert(types.take(i + 1) =~= types.take(i as int).push(types[i as int]));
                        lemma_element_push(types.take(i as int), types[i as int]);
                    }
                    let ghost after_element = self.findings();
                    if is_unknown(&element_type) {
                        element_type = actual;
                        assert(self.findings() =~= base + elems_findings(scopes, elements@, i + 1));
                    } else {
                        self.require_assignable(&element_type, &actual, elements[i].span, DiagnosticCode::TypeMismatch);
                        assert(self.findings() =~= base + elems_findings(scopes, elements@, i + 1));
                    }
                    i += 1;
                }
                assert(types.take(elements.len() as int) =~= types);
                Type::Array(Box::new(element_type))
            },
            ExpressionKind::Member { object, property } => {
                let object_type = self.infer_expression(object);
                let t = self.member_type(&object_type, property.as_str(), e.span);
                assert(self.findings() =~= base + expr_findings(scopes, *e));
                t
            },
            ExpressionKind::Call { callee, arguments } => {
                let callee_type = self.infer_expression(callee);
                let t = self.infer_call(&callee_type, e);
                assert(self.findings() =~= base + expr_findings(scopes, *e));
                t
            },
            ExpressionKind::Unary { operator, argument } => {
                let actual = self.infer_expression(argument);
                match operator {
                    UnaryOperator::Negate => {
                        self.require_assignable(&Type::Number, &actual, argument.span, DiagnosticCode::TypeMismatch);
                        assert(self.findings() =~= base + expr_findings(scopes, *e));
                        Type::Number
                    },
                    UnaryOperator::Not => {
                        assert(self.findings() =~= base + expr_findings(scopes, *e));
                        Type::Boolean
                    },
                }
            },
            ExpressionKind::Binary { .. } => self.infer_binary(e),
            ExpressionKind::Assignment { .. } => self.infer_assignment(e),
            ExpressionKind::Error => {
                assert(base + Seq::<Finding>::empty() =~= base);
                Type::Unknown
            },
        }
    }

    /// The arguments of the call `call` checked against the parameters of
    /// `callee_type`; the call has the callee's return type.
    fn infer_call(&mut self, callee_type: &Type, call: &Expression) -> (t: Type)
        requires
            call.kind is Call,
        ensures
            final(self).reports_only(old(self)),
            model(t) == call_result(model(*callee_type)),
            match call.kind {
                ExpressionKind::Call { arguments, .. } => final(self).findings() == old(self).findings()
                    + call_findings(old(self).scopes(), model(*callee_type), arguments@, call.span),
                _ => true,
            },
        decreases call, 0nat,
    {
        let ghost scopes = self.scopes();
        let ghost base = self.findings();
        let arguments = match &call.kind {
            ExpressionKind::Call { arguments, .. } => arguments,
            _ => return Type::Unknown,
        };
        match callee_type {
            Type::Function { params, return_type, variadic } => {
                let ghost pm = Seq::new(
                    params@.len(),
                    |i: int|
                        if 0 <= i < params@.len() {
                            model(params@[i])
                        } else {
                            TypeModel::Unknown
                        },
                );
                if !*variadic && params.len() != arguments.len() {
                    let mut out: Vec<char> = Vec::new();
                    push_str(&mut out, "expected ");
                    push_decimal(&mut out, params.len());
                    push_str(&mut out, " arguments, found ");
                    push_decimal(&mut out, arguments.len());
                    self.diagnostic(DiagnosticCode::WrongArgumentCount, string_from_chars(out), call.span);
                }
                let ghost counted = self.findings();
                assert(counted == base + (if !*variadic && pm.len() != arguments@.len() {
                    finding(
                        DiagnosticCode::WrongArgumentCount,
                        "expected "@ + decimal(pm.len()) + " arguments, found "@ + decimal(arguments@.len()),
                        call.span,
                    )
                } else {
                    Seq::<Finding>::empty()
                }));
                let mut i: usize = 0;
                while i < params.len() && i < arguments.len()
                    invariant
                        self.reports_only(old(self)),
                        call.kind == (ExpressionKind::Call { callee: call.kind->callee, arguments: *arguments }),
                        i <= params.len(),
                        i <= arguments.len(),
                        scopes == self.scopes(),
                        pm.len() == params@.len(),
                        forall|j: int| 0 <= j < params@.len() ==> #[trigger] pm[j] == model(params@[j]),
                        self.findings() == counted + args_findings(scopes, pm, arguments@, i as int),
                    decreases arguments.len() - i,
                {
                    assert(decreases_to!(*call => call.kind));
                    assert(decreases_to!(call.kind => (call.kind)->arguments));
                    assert(decreases_to!(*arguments => arguments@));
                    assert(decreases_to!(arguments@ => arguments@[i as int]));
                    let actual = self.infer_expression(&arguments[i]);
                    self.require_assignable(&params[i], &actual, arguments[i].span, DiagnosticCode::TypeMismatch);
                    assert(self.findings() =~= counted + args_findings(scopes, pm, arguments@, i + 1));
                    i += 1;
                }
                proof {
                    if let TypeModel::Function { params: mp, variadic: mv, .. } = model(*callee_type) {
                        assert(mp =~= pm);
                        assert(mv == *variadic);
                    }
                }
                assert(self.findings() =~= base + call_findings(scopes, model(*callee_type), arguments@, call.span));
                clone_type(return_type)
            },
            Type::Unknown => {
                assert(base + Seq::<Finding>::empty() =~= base);
                Type::Unknown
            },
            _ => {
                self.diagnostic(DiagnosticCode::InvalidCallTarget, "value is not callable".to_owned(), call.span);
                assert(self.findings() =~= base + call_findings(scopes, model(*callee_type), arguments@, call.span));
                Type::Unknown
            },
        }
    }

    fn require_number(&mut self, actual: &Type, span: Span)
        ensures
            final(self).reports_only(old(self)),
            final(self).findings() == old(self).findings() + assign_findings(
                TypeModel::Number,
                model(*actual),
                span,
                DiagnosticCode::TypeMismatch,
            ),
    {
        self.require_assignable(&Type::Number, actual, span, DiagnosticCode::TypeMismatch);
    }

    fn require_boolean(&mut self, actual: &Type, span: Span)
        ensures
            final(self).reports_only(old(self)),
            final(self).findings() == old(self).findings() + assign_findings(
                TypeModel::Boolean,
                model(*actual),
                span,
                DiagnosticCode::TypeMismatch,
            ),
    {
        self.require_assignable(&Type::Boolean, actual, span, DiagnosticCode::TypeMismatch);
    }

    /// The type of the binary expression `e`; arithmetic needs numbers (or a
    /// string for `+`) and logic needs booleans.
    fn infer_binary(&mut self, e: &Expression) -> (t: Type)
        requires
            e.kind is Binary,
        ensures
            final(self).reports_only(old(self)),
            match e.kind {
                ExpressionKind::Binary { left, operator, right } => model(t) == binary_result(
                    operator,
                    expr_type(old(self).scopes(), *left),
                    expr_type(old(self).scopes(), *right),
                ),
                _ => true,
            },
            final(self).findings() == old(self).findings() + expr_findings(old(self).scopes(), *e),
        decreases e, 0nat,
    {
        let ghost scopes = self.scopes();
        let ghost base = self.findings();
        let (left, operator, right) = match &e.kind {
            ExpressionKind::Binary { left, operator, right } => (left, *operator, right),
            _ => return Type::Unknown,
        };
        let left_type = self.infer_expression(left);
        let right_type = self.infer_expression(right);
        let ghost operands = self.findings();
        assert(operands == base + expr_findings(scopes, **left) + expr_findings(scopes, **right));
        let t = match operator {
            BinaryOperator::Add => {
                let is_string = match (&left_type, &right_type) {
                    (Type::String, _) | (_, Type::String) => true,
                    _ => false,
                };
                if is_string {
                    Type::String
                } else {
                    self.require_number(&left_type, left.span);
                    self.require_number(&right_type, right.span);
                    Type::Number
                }
            },
            BinaryOperator::Subtract | BinaryOperator::Multiply | BinaryOperator::Divide
            | BinaryOperator::Remainder => {
                self.require_number(&left_type, left.span);
                self.require_number(&right_type, right.span);
                Type::Number
            },
            BinaryOperator::LogicalAnd | BinaryOperator::LogicalOr => {
                self.require_boolean(&left_type, left.span);
                self.require_boolean(&right_type, right.span);
                Type::Boolean
            },
            BinaryOperator::NullishCoalesce => match left_type {
                Type::Null | Type::Undefined => right_type,
                _ => left_type,
            },
            _ => Type::Boolean,
        };
        assert(self.findings() =~= operands + binary_findings(
            operator,
            expr_type(scopes, **left),
            expr_type(scopes, **right),
            left.span,
            right.span,
        ));
        assert(self.findings() =~= base + expr_findings(scopes, *e));
        t
    }

    /// The type of the assignment `e`: the target's type, or a number for
    /// compound assignments, which need numbers on both sides.
    fn infer_assignment(&mut self, e: &Expression) -> (t: Type)
        requires
            e.kind is Assignment,
        ensures
            final(self).reports_only(old(self)),
            match e.kind {
                ExpressionKind::Assignment { left, operator, .. } => model(t) == assignment_result(
                    operator,
                    expr_type(old(self).scopes(), *left),
                ),
                _ => true,
            },
            final(self).findings() == old(self).findings() + expr_findings(old(self).scopes(), *e),
        decreases e, 0nat,
    {
        let ghost scopes = self.scopes();
        let ghost base = self.findings();
        let (left, operator, right) = match &e.kind {
            ExpressionKind::Assignment { left, operator, right } => (left, *operator, right),
            _ => return Type::Unknown,
        };
        let left_type = self.infer_expression(left);
        let right_type = self.infer_expression(right);
        match operator {
            AssignmentOperator::Assign => {
                self.require_assignable(&left_type, &right_type, e.span, DiagnosticCode::TypeMismatch);
                assert(self.findings() =~= base + expr_findings(scopes, *e));
                left_type
            },
            _ => {
                self.require_number(&left_type, left.span);
                self.require_number(&right_type, right.span);
                assert(self.findings() =~= base + expr_findings(scopes, *e));
                Type::Number
            },
        }
    }
}

/// The built-in `console` object: `log` takes any arguments and gives `undefined`.
fn console_type() -> (t: Type)
    ensures
        model(t) == console_model(),
{
    let mut fields: Vec<(String, Type)> = Vec::new();
    let no_params: Vec<Type> = Vec::new();
    assert(no_params@.len() == 0);
    let log = Type::Function { params: no_params, return_type: Box::new(Type::Undefined), variadic: true };
    assert(model(log) == TypeModel::Function {
        params: Seq::empty(),
        return_type: Box::new(TypeModel::Undefined),
        variadic: true,
    }) by {
        assert(model(Type::Undefined) == TypeModel::Undefined);
        if let TypeModel::Function { params: a, return_type: r, variadic: v } = model(log) {
            assert(a =~= Seq::<TypeModel>::empty());
            assert(*r == TypeModel::Undefined);
            assert(v);
        }
    }
    let name = "log".to_owned();
    proof {
        reveal_strlit("log");
    }
    fields.push((name, log));
    proof {
        lemma_object_model(fields);
        if let TypeModel::Object(a) = console_model() {
            assert(fields_model(fields@) =~= a);
        }
    }
    Type::Object(fields)
}

impl<'a> Analyzer<'a> {
    /// Collects the symbol a declaration introduces; top-level functions are
    /// kept for checking their bodies.
    #[verifier::loop_isolation(false)]
    #[verifier::rlimit(40)]
    fn collect_statement_symbol(&mut self, statement: &'a Statement, top_level: bool)
        ensures
            final(self).keeps_symbols(old(self)),
            final(self).value_scopes@.len() == old(self).value_scopes@.len(),
            final(self).state() == collect_in(old(self).state(), *statement, top_level),
        decreases statement,
    {
        let ghost st = self.state();
        let ghost named = st.bindings;
        let ghost base = self.findings();
        assert(base + Seq::<Finding>::empty() =~= base);
        match &statement.kind {
            StatementKind::Interface(interface) => {
                let ghost pairs = member_pairs(named, interface.members@);
                let mut fields: Vec<(String, Type)> = Vec::new();
                let mut i: usize = 0;
                while i < interface.members.len()
                    invariant
                        i <= interface.members.len(),
                        self.reports_only(old(self)),
                        fields_model(fields@) == object_fields(pairs.take(i as int)),
                        self.findings() == base + members_findings(named, interface.members@, i as int),
                    decreases interface.members.len() - i,
                {
                    let member_type = self.resolve_type_node(&interface.members[i].ty);
                    assert(self.findings() =~= base + members_findings(named, interface.members@, i + 1));
                    set_field(&mut fields, interface.members[i].name.clone(), member_type);
                    assert(pairs.take(i + 1).drop_last() =~= pairs.take(i as int));
                    assert(pairs.take(i + 1).last() == pairs[i as int]);
                    i += 1;
                }
                assert(pairs.take(interface.members.len() as int) =~= pairs);
                proof {
                    lemma_object_model(fields);
                    lemma_reported(*old(self), *self, members_findings(named, interface.members@, interface.members@.len() as int));
                }
                self.define_type(interface.name.as_str(), Type::Object(fields), SymbolKind::Interface, statement.span);
            },
            StatementKind::TypeAlias(alias) => {
                let ty = self.resolve_type_node(&alias.ty);
                proof {
                    lemma_reported(*old(self), *self, type_findings(named, alias.ty));
                }
                self.define_type(alias.name.as_str(), ty, SymbolKind::TypeAlias, statement.span);
            },
            StatementKind::Class(class) => {
                let ghost pairs = class_pairs(named, class.members@);
                let mut fields: Vec<(String, Type)> = Vec::new();
                let mut i: usize = 0;
                while i < class.members.len()
                    invariant
                        i <= class.members.len(),
                        self.reports_only(old(self)),
                        fields_model(fields@) == object_fields(pairs.take(i as int)),
                        self.findings() == base + class_findings(named, class.members@, i as int),
                    decreases class.members.len() - i,
                {
                    let member_type = match &class.members[i].ty {
                        Some(ty) => self.resolve_type_node(ty),
                        None => Type::Unknown,
                    };
                    assert(self.findings() =~= base + class_findings(named, class.members@, i + 1));
                    set_field(&mut fields, class.members[i].name.clone(), member_type);
                    assert(pairs.take(i + 1).drop_last() =~= pairs.take(i as int));
                    assert(pairs.take(i + 1).last() == pairs[i as int]);
                    i += 1;
                }
                assert(pairs.take(class.members.len() as int) =~= pairs);
                proof {
                    lemma_object_model(fields);
                    lemma_reported(*old(self), *self, class_findings(named, class.members@, class.members@.len() as int));
                }
                self.define_type(class.name.as_str(), Type::Object(fields), SymbolKind::Class, statement.span);
            },
            StatementKind::Function(function) => {
                let ghost expected: Seq<TypeModel> = function.params@.map_values(
                    |p: Parameter| option_resolved(named, p.ty, TypeModel::Unknown),
                );
                let mut params: Vec<Type> = Vec::new();
                let mut i: usize = 0;
                while i < function.params.len()
                    invariant
                        i <= function.params.len(),
                        self.reports_only(old(self)),
                        params@.len() == i,
                        forall|j: int| 0 <= j < i ==> model(#[trigger] params@[j]) == expected[j],
                        self.findings() == base + params_findings(named, function.params@, i as int),
                    decreases function.params.len() - i,
                {
                    let param_type = match &function.params[i].ty {
                        Some(ty) => self.resolve_type_node(ty),
                        None => Type::Unknown,
                    };
                    assert(self.findings() =~= base + params_findings(named, function.params@, i + 1));
                    params.push(param_type);
                    i += 1;
                }
                let ghost after_params = self.findings();
                let return_type = match &function.return_type {
                    Some(ty) => self.resolve_type_node(ty),
                    None => Type::Undefined,
                };
                assert(self.findings() =~= base + (params_findings(named, function.params@, function.params@.len() as int)
                    + option_type_findings(named, function.return_type)));
                proof {
                    lemma_reported(
                        *old(self),
                        *self,
                        params_findings(named, function.params@, function.params@.len() as int) + option_type_findings(
                            named,
                            function.return_type,
                        ),
                    );
                }
                let ty = Type::Function { params, return_type: Box::new(return_type), variadic: false };
                assert(model(ty) == function_type(named, *function)) by {
                    if let TypeModel::Function { params: a, .. } = model(ty) {
                        assert(a =~= expected);
                    }
                }
                self.define_value(function.name.as_str(), ty, SymbolKind::Function, Some(statement.span));
                if top_level {
                    let ghost before = self.functions@;
                    self.functions.push((function, statement.span));
                    assert(self.functions@.map_values(|p: (&'a FunctionDeclaration, Span)| (*p.0, p.1))
                        =~= before.map_values(|p: (&'a FunctionDeclaration, Span)| (*p.0, p.1)).push(
                        (*function, statement.span),
                    ));
                }
            },
            StatementKind::Export(inner) => self.collect_statement_symbol(inner, top_level),
            _ => {},
        }
    }

    /// Checks a function body in a scope of its own that binds its parameters.
    #[verifier::loop_isolation(false)]
    fn analyze_function_body(&mut self, function: &FunctionDeclaration, statement_span: Span)
        ensures
            final(self).keeps_symbols(old(self)),
            final(self).value_scopes@.len() == old(self).value_scopes@.len(),
            final(self).state() == body_in(old(self).state(), *function, statement_span),
    {
        let ghost st = self.state();
        let ghost named = st.bindings;
        let return_type = match &function.return_type {
            Some(ty) => self.resolve_type_node(ty),
            None => Type::Undefined,
        };
        proof {
            assert(st.findings + Seq::<Finding>::empty() =~= st.findings);
            lemma_reported(*old(self), *self, option_type_findings(named, function.return_type));
        }
        let previous_return = self.current_return_type.take();
        self.current_return_type = Some(return_type);
        let ghost st2 = self.state();
        assert(st2 == CheckState {
            ret: Some(option_resolved(named, function.return_type, TypeModel::Undefined)),
            ..report(st, option_type_findings(named, function.return_type))
        });
        self.push_scope();
        let mut i: usize = 0;
        while i < function.params.len()
            invariant
                i <= function.params.len(),
                self.value_scopes@.len() == old(self).value_scopes@.len() + 1,
                self.keeps_symbols(old(self)),
                self.state() == params_in(push_scope_in(st2), function.params@, i as int),
                self.state().bindings == named,
            decreases function.params.len() - i,
        {
            let ghost before = *self;
            let param = &function.params[i];
            let ty = match &param.ty {
                Some(ty) => self.resolve_type_node(ty),
                None => Type::Unknown,
            };
            proof {
                assert(before.findings() + Seq::<Finding>::empty() =~= before.findings());
                lemma_reported(before, *self, option_type_findings(named, param.ty));
            }
            self.define_value(param.name.as_str(), ty, SymbolKind::Variable, Some(param.span));
            i += 1;
        }
        let ghost st3 = self.state();
        let mut k: usize = 0;
        while k < function.body.len()
            invariant
                k <= function.body.len(),
                self.value_scopes@.len() == old(self).value_scopes@.len() + 1,
                self.keeps_symbols(old(self)),
                self.state() == checks_in(st3, function.body@, k as int),
            decreases function.body.len() - k,
        {
            self.analyze_statement(&function.body[k]);
            k += 1;
        }
        self.pop_scope();
        self.current_return_type = previous_return;
        if function.body.len() == 0 {
            self.diagnostic(DiagnosticCode::ReturnTypeMismatch, "function body is empty".to_owned(), statement_span);
            proof {
                reveal_strlit("function body is empty");
            }
            assert(self.findings() =~= st3.findings + finding(
                DiagnosticCode::ReturnTypeMismatch,
                "function body is empty"@,
                statement_span,
            ));
        }
    }

    #[verifier::rlimit(80)]
    #[verifier::spinoff_prover]
    fn analyze_statement(&mut self, statement: &Statement)
        ensures
            final(self).keeps_symbols(old(self)),
            final(self).value_scopes@.len() == old(self).value_scopes@.len(),
            final(self).state() == check_in(old(self).state(), *statement),
        decreases statement,
    {
        let ghost st = self.state();
        match &statement.kind {
            StatementKind::Variable(variable) => self.analyze_variable(variable, statement.span),
            StatementKind::Return(value) => self.analyze_return(value, statement.span),
            StatementKind::Throw(value) => {
                let ghost before = *self;
                self.infer_expression(value);
                proof {
                    lemma_reported(before, *self, expr_findings(before.scopes(), *value));
                }
            },
            StatementKind::Expression(value) => {
                let ghost before = *self;
                self.infer_expression(value);
                proof {
                    lemma_reported(before, *self, expr_findings(before.scopes(), *value));
                }
            },
            StatementKind::If(if_stmt) => {
                let ghost before = *self;
                self.infer_expression(&if_stmt.test);
                proof {
                    lemma_reported(before, *self, expr_findings(before.scopes(), if_stmt.test));
                }
                self.analyze_statement(&if_stmt.consequent);
                match &if_stmt.alternate {
                    Some(alternate) => self.analyze_statement(alternate),
                    None => {},
                }
            },
            StatementKind::While(while_stmt) => {
                let ghost before = *self;
                self.infer_expression(&while_stmt.test);
                proof {
                    lemma_reported(before, *self, expr_findings(before.scopes(), while_stmt.test));
                }
                self.analyze_statement(&while_stmt.body);
            },
            StatementKind::For(for_stmt) => {
                self.push_scope();
                match &for_stmt.initializer {
                    Some(initializer) => self.analyze_statement(initializer),
                    None => {},
                }
                match &for_stmt.test {
                    Some(test) => {
                        let ghost before = *self;
                        self.infer_expression(test);
                        proof {
                            lemma_reported(before, *self, expr_findings(before.scopes(), *test));
                        }
                    },
                    None => {},
                }
                match &for_stmt.update {
                    Some(update) => {
                        let ghost before = *self;
                        self.infer_expression(update);
                        proof {
                            lemma_reported(before, *self, expr_findings(before.scopes(), *update));
                        }
                    },
                    None => {},
                }
                self.analyze_statement(&for_stmt.body);
                self.pop_scope();
            },
            StatementKind::Block(body) => {
                self.push_scope();
                let ghost pushed = self.state();
                let mut k: usize = 0;
                while k < body.len()
                    invariant
                        self.value_scopes@.len() == old(self).value_scopes@.len() + 1,
                        self.keeps_symbols(old(self)),
                        statement.kind == StatementKind::Block(*body),
                        k <= body.len(),
                        self.state() == checks_in(pushed, body@, k as int),
                    decreases body.len() - k,
                {
                    assert(decreases_to!(*statement => statement.kind));
                    assert(decreases_to!(statement.kind => (statement.kind)->Block_0));
                    assert(decreases_to!(*body => body@));
                    assert(decreases_to!(body@ => body@[k as int]));
                    self.analyze_statement(&body[k]);
                    k += 1;
                }
                self.pop_scope();
            },
            StatementKind::Export(inner) => self.analyze_statement(inner),
            _ => {},
        }
    }

    fn analyze_variable(&mut self, variable: &VariableDeclaration, span: Span)
        ensures
            final(self).keeps_symbols(old(self)),
            final(self).value_scopes@.len() == old(self).value_scopes@.len(),
            final(self).state() == variable_in(old(self).state(), *variable, span),
    {
        let ghost st = self.state();
        let ghost start = *self;
        let declared = match &variable.ty {
            Some(ty) => Some(self.resolve_type_node(ty)),
            None => None,
        };
        proof {
            assert(start.findings() + Seq::<Finding>::empty() =~= start.findings());
            lemma_reported(start, *self, option_type_findings(st.bindings, variable.ty));
        }
        let ghost resolved_state = *self;
        let initializer = match &variable.initializer {
            Some(expression) => Some(self.infer_expression(expression)),
            None => None,
        };
        proof {
            if variable.initializer is Some {
                lemma_reported(resolved_state, *self, expr_findings(st.scopes, variable.initializer->0));
            }
        }
        let ghost inferred_state = *self;
        match (&declared, &initializer) {
            (Some(expected), Some(actual)) => {
                self.require_assignable(expected, actual, span, DiagnosticCode::TypeMismatch);
                proof {
                    lemma_reported(inferred_state, *self, assign_findings(model(*expected), model(*actual), span, DiagnosticCode::TypeMismatch));
                }
            },
            _ => {},
        }
        let ty = match declared {
            Some(t) => t,
            None => match initializer {
                Some(t) => t,
                None => Type::Unknown,
            },
        };
        self.define_value(variable.name.as_str(), ty, SymbolKind::Variable, Some(span));
    }

    fn analyze_return(&mut self, value: &Option<Expression>, span: Span)
        ensures
            final(self).keeps_symbols(old(self)),
            final(self).value_scopes@.len() == old(self).value_scopes@.len(),
            final(self).state() == return_in(old(self).state(), *value, span),
    {
        let ghost st = self.state();
        let ghost start = *self;
        let actual = match value {
            Some(expression) => self.infer_expression(expression),
            None => Type::Undefined,
        };
        proof {
            if value is Some {
                lemma_reported(start, *self, expr_findings(st.scopes, value->0));
            }
        }
        let ghost inferred_state = *self;
        let expected = match &self.current_return_type {
            Some(t) => clone_type(t),
            None => return,
        };
        self.require_assignable(&expected, &actual, span, DiagnosticCode::ReturnTypeMismatch);
        proof {
            lemma_reported(inferred_state, *self, assign_findings(model(expected), model(actual), span, DiagnosticCode::ReturnTypeMismatch));
        }
    }

    #[verifier::rlimit(80)]
    #[verifier::spinoff_prover]
    fn analyze_program(&mut self, program: &'a Program)
        ensures
            final(self).keeps_symbols(old(self)),
            old(self).value_scopes@.len() == 0 && old(self).symbols.values@.len() == 0 ==> {
                &&& final(self).symbols.values@.len() > 0
                &&& final(self).symbols.values@[0].name@ == "console"@
                &&& final(self).symbols.values@[0].kind == SymbolKind::Import
            },
            final(self).value_scopes@.len() == old(self).value_scopes@.len() + 1,
            final(self).state() == program_in(old(self).state(), *program),
    {
        let ghost st = self.state();
        self.push_scope();
        let ghost pushed = self.value_scopes@;
        let console = console_type();
        self.define_value("console", console, SymbolKind::Import, None);
        proof {
            reveal_strlit("console");
            if old(self).value_scopes@.len() == 0 && old(self).symbols.values@.len() == 0 {
                assert(pushed[0] == pushed.last());
                assert(self.symbols.values@.len() == 1);
                assert(self.symbols.values@[0].name@ == "console"@);
            }
        }
        let ghost first = self;
        let ghost st1 = self.state();
        assert(st1 == define_value_in(push_scope_in(st), "console"@, console_model(), SymbolKind::Import, None));
        let mut k: usize = 0;
        while k < program.body.len()
            invariant
                k <= program.body.len(),
                self.value_scopes@.len() == old(self).value_scopes@.len() + 1,
                self.keeps_symbols(old(self)),
                self.keeps_symbols(&first),
                self.state() == collects_in(st1, program.body@, k as int, true),
            decreases program.body.len() - k,
        {
            self.collect_statement_symbol(&program.body[k], true);
            k += 1;
        }
        let ghost st2 = self.state();
        let mut functions: Vec<(&'a FunctionDeclaration, Span)> = Vec::new();
        std::mem::swap(&mut functions, &mut self.functions);
        let ghost fs = st2.functions;
        assert(fs =~= functions@.map_values(|p: (&'a FunctionDeclaration, Span)| (*p.0, p.1)));
        let ghost st3 = self.state();
        assert(self.functions@.map_values(|p: (&'a FunctionDeclaration, Span)| (*p.0, p.1))
            =~= Seq::<(FunctionDeclaration, Span)>::empty());
        assert(st3 == CheckState { functions: Seq::empty(), ..st2 });
        let mut f: usize = 0;
        while f < functions.len()
            invariant
                f <= functions.len(),
                self.value_scopes@.len() == old(self).value_scopes@.len() + 1,
                self.keeps_symbols(old(self)),
                self.keeps_symbols(&first),
                fs == functions@.map_values(|p: (&'a FunctionDeclaration, Span)| (*p.0, p.1)),
                self.state() == bodies_in(st3, fs, f as int),
            decreases functions.len() - f,
        {
            let (function, span) = functions[f];
            assert(fs[f as int] == (*function, span));
            self.analyze_function_body(function, span);
            f += 1;
        }
        let ghost st4 = self.state();
        let mut k: usize = 0;
        while k < program.body.len()
            invariant
                k <= program.body.len(),
                self.value_scopes@.len() == old(self).value_scopes@.len() + 1,
                self.keeps_symbols(old(self)),
                self.keeps_symbols(&first),
                self.state() == tops_in(st4, program.body@, k as int),
            decreases program.body.len() - k,
        {
            match &program.body[k].kind {
                StatementKind::Function(_) => {},
                _ => self.analyze_statement(&program.body[k]),
            }
            k += 1;
        }
        assert(old(self).value_scopes@.len() == 0 && old(self).symbols.values@.len() == 0 ==> self.symbols.values@[0]
            == first.symbols.values@[0]);
    }
}

/// What the parser reported, as checker findings: each a type mismatch
/// with the parser's message and span.
pub open spec fn parse_findings(diagnostics: Seq<ParseDiagnostic>) -> Seq<Finding> {
    diagnostics.map_values(|d: ParseDiagnostic| (DiagnosticCode::TypeMismatch, d.message@, d.span))
}

/// The state a check starts from: nothing declared, `reported` already reported.
pub open spec fn start_state(reported: Seq<Finding>) -> CheckState {
    CheckState {
        values: Seq::empty(),
        types: Seq::empty(),
        bindings: Seq::empty(),
        scopes: Seq::empty(),
        functions: Seq::empty(),
        findings: reported,
        ret: None,
    }
}

/// The state after checking a parse: its diagnostics reported first, then
/// its program checked.
pub open spec fn analyzed(parsed: ParseOutput) -> CheckState {
    program_in(start_state(parse_findings(parsed.diagnostics@)), parsed.program)
}

/// Checks a parsed program: every parse diagnostic is reported as a type
/// mismatch, then declarations are collected (with the built-in `console`),
/// function bodies are checked, then the remaining top-level statements.
pub fn analyze_parsed(parsed: &ParseOutput) -> (out: SemanticOutput)
    ensures
        symbols_model(out.symbols.values@) == analyzed(*parsed).values,
        symbols_model(out.symbols.types@) == analyzed(*parsed).types,
        out.diagnostics@.map_values(|d: SemanticDiagnostic| (d.code, d.message@, d.span)) == analyzed(*parsed).findings,
        out.symbols.values@.len() > 0,
        out.symbols.values@[0].name@ == "console"@,
        out.symbols.values@[0].kind == SymbolKind::Import,
{
    let mut analyzer = Analyzer {
        symbols: SymbolTable::default(),
        type_bindings: Vec::new(),
        value_scopes: Vec::new(),
        functions: Vec::new(),
        diagnostics: Vec::new(),
        current_return_type: None,
    };
    assert(analyzer.state() == start_state(parse_findings(parsed.diagnostics@.take(0)))) by {
        assert(analyzer.scopes() =~= Seq::<Seq<(Seq<char>, TypeModel)>>::empty());
        assert(analyzer.findings() =~= Seq::<Finding>::empty());
        assert(parse_findings(parsed.diagnostics@.take(0)) =~= Seq::<Finding>::empty());
        assert(symbols_model(analyzer.symbols.values@) =~= Seq::empty());
        assert(symbols_model(analyzer.symbols.types@) =~= Seq::empty());
        assert(fields_model(analyzer.type_bindings@) =~= Seq::empty());
        assert(analyzer.functions@.map_values(|p: (&FunctionDeclaration, Span)| (*p.0, p.1)) =~= Seq::empty());
    }
    let mut k: usize = 0;
    while k < parsed.diagnostics.len()
        invariant
            k <= parsed.diagnostics.len(),
            analyzer.value_scopes@.len() == 0,
            analyzer.symbols.values@.len() == 0,
            analyzer.state() == start_state(parse_findings(parsed.diagnostics@.take(k as int))),
        decreases parsed.diagnostics.len() - k,
    {
        let d = &parsed.diagnostics[k];
        let ghost before = analyzer.findings();
        analyzer.diagnostics.push(
            SemanticDiagnostic { code: DiagnosticCode::TypeMismatch, message: d.message.clone(), span: d.span },
        );
        assert(analyzer.findings() =~= before.push((DiagnosticCode::TypeMismatch, d.message@, d.span)));
        assert(parse_findings(parsed.diagnostics@.take(k + 1)) =~= parse_findings(parsed.diagnostics@.take(k as int)).push(
            (DiagnosticCode::TypeMismatch, d.message@, d.span),
        ));
        k += 1;
    }
    assert(parsed.diagnostics@.take(parsed.diagnostics@.len() as int) =~= parsed.diagnostics@);
    analyzer.analyze_program(&parsed.program);
    SemanticOutput { symbols: analyzer.symbols, diagnostics: analyzer.diagnostics }
}

/// Parses `source` and checks what was parsed, as `analyze_parsed` does.
pub fn analyze_source(source: &str) -> (out: SemanticOutput)
    ensures
        source@.len() < usize::MAX ==> exists|parsed: ParseOutput|
            {
                &&& #[trigger] parses_to(source@, parsed)
                &&& symbols_model(out.symbols.values@) == analyzed(parsed).values
                &&& symbols_model(out.symbols.types@) == analyzed(parsed).types
                &&& out.diagnostics@.map_values(|d: SemanticDiagnostic| (d.code, d.message@, d.span))
                    == analyzed(parsed).findings
            },
        out.symbols.values@.len() > 0,
        out.symbols.values@[0].name@ == "console"@,
        out.symbols.values@[0].kind == SymbolKind::Import,
{
    let parsed = parse_source(source);
    analyze_parsed(&parsed)
}

} // verus!
