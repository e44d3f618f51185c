//! What the parser produces, as functions on the token sequence: the syntax
//! tree as a value, and the parse of each construct as a step from one
//! reading position (with what was reported so far) to the next.
use vstd::prelude::*;
use crate::ast::{
    AssignmentOperator, BinaryOperator, ClassMember, Expression, ExpressionKind, Parameter, Position, Program,
    Span, Statement, StatementKind, TypeKind, TypeNode, UnaryOperator, VariableKind,
};
use crate::lexer::{kind_index, kind_name_text, Token, TokenKind};
use crate::text::debug_text;

verus! {

/// A type annotation as a value.
pub struct TyM {
    pub kind: TyKindM,
    pub span: Span,
}

pub enum TyKindM {
    Number,
    String,
    Boolean,
    Null,
    Undefined,
    Named(Seq<char>),
    Array(Box<TyM>),
    /// Each member's name, type and span.
    Object(Seq<(Seq<char>, TyM, Span)>),
}

/// An expression as a value.
pub struct ExM {
    pub kind: ExKindM,
    pub span: Span,
}

pub enum ExKindM {
    Identifier(Seq<char>),
    Number(Seq<char>),
    String(Seq<char>),
    Boolean(bool),
    Null,
    Undefined,
    /// Each property's name, value and span.
    Object(Seq<(Seq<char>, ExM, Span)>),
    Array(Seq<ExM>),
    Member(Box<ExM>, Seq<char>),
    Call(Box<ExM>, Seq<ExM>),
    Unary(UnaryOperator, Box<ExM>),
    Binary(Box<ExM>, BinaryOperator, Box<ExM>),
    Assignment(Box<ExM>, AssignmentOperator, Box<ExM>),
    Error,
}

/// A type annotation of the syntax tree as a value.
pub open spec fn ty_m(t: TypeNode) -> TyM
    decreases t,
{
    TyM {
        kind: match t.kind {
            TypeKind::Number => TyKindM::Number,
            TypeKind::String => TyKindM::String,
            TypeKind::Boolean => TyKindM::Boolean,
            TypeKind::Null => TyKindM::Null,
            TypeKind::Undefined => TyKindM::Undefined,
            TypeKind::Named(name) => TyKindM::Named(name@),
            TypeKind::Array(inner) => TyKindM::Array(Box::new(ty_m(*inner))),
            TypeKind::Object(members) => TyKindM::Object(
                Seq::new(
                    members@.len(),
                    |i: int|
                        (
                            members@[i].name@,
                            if 0 <= i < members@.len() {
                                ty_m(members@[i].ty)
                            } else {
                                TyM { kind: TyKindM::Number, span: t.span }
                            },
                            members@[i].span,
                        ),
                ),
            ),
        },
        span: t.span,
    }
}

/// Type members of the syntax tree as values.
pub open spec fn members_m(v: Seq<crate::ast::TypeMember>) -> Seq<(Seq<char>, TyM, Span)> {
    v.map_values(|m: crate::ast::TypeMember| (m.name@, ty_m(m.ty), m.span))
}

/// An expression of the syntax tree as a value.
pub open spec fn ex_m(e: Expression) -> ExM
    decreases e,
{
    ExM {
        kind: match e.kind {
            ExpressionKind::Identifier(n) => ExKindM::Identifier(n@),
            ExpressionKind::Number(v) => ExKindM::Number(v@),
            ExpressionKind::String(v) => ExKindM::String(v@),
            ExpressionKind::Boolean(b) => ExKindM::Boolean(b),
            ExpressionKind::Null => ExKindM::Null,
            ExpressionKind::Undefined => ExKindM::Undefined,
            ExpressionKind::Object(props) => ExKindM::Object(
                Seq::new(
                    props@.len(),
                    |i: int|
                        (
                            props@[i].name@,
                            if 0 <= i < props@.len() {
                                ex_m(props@[i].value)
                            } else {
                                ExM { kind: ExKindM::Error, span: e.span }
                            },
                            props@[i].span,
                        ),
                ),
            ),
            ExpressionKind::Array(elements) => ExKindM::Array(
                Seq::new(
                    elements@.len(),
                    |i: int|
                        if 0 <= i < elements@.len() {
                            ex_m(elements@[i])
                        } else {
                            ExM { kind: ExKindM::Error, span: e.span }
                        },
                ),
            ),
            ExpressionKind::Member { object, property } => ExKindM::Member(Box::new(ex_m(*object)), property@),
            ExpressionKind::Call { callee, arguments } => ExKindM::Call(
                Box::new(ex_m(*callee)),
                Seq::new(
                    arguments@.len(),
                    |i: int|
                        if 0 <= i < arguments@.len() {
                            ex_m(arguments@[i])
                        } else {
                            ExM { kind: ExKindM::Error, span: e.span }
                        },
                ),
            ),
            ExpressionKind::Unary { operator, argument } => ExKindM::Unary(operator, Box::new(ex_m(*argument))),
            ExpressionKind::Binary { left, operator, right } => ExKindM::Binary(
                Box::new(ex_m(*left)),
                operator,
                Box::new(ex_m(*right)),
            ),
            ExpressionKind::Assignment { left, operator, right } => ExKindM::Assignment(
                Box::new(ex_m(*left)),
                operator,
                Box::new(ex_m(*right)),
            ),
            ExpressionKind::Error => ExKindM::Error,
        },
        span: e.span,
    }
}

/// Expressions of the syntax tree as values.
pub open spec fn exs_m(v: Seq<Expression>) -> Seq<ExM> {
    v.map_values(|e: Expression| ex_m(e))
}

/// Object literal properties of the syntax tree as values.
pub open spec fn props_m(v: Seq<crate::ast::ObjectProperty>) -> Seq<(Seq<char>, ExM, Span)> {
    v.map_values(|p: crate::ast::ObjectProperty| (p.name@, ex_m(p.value), p.span))
}

/// A statement as a value.
pub struct StM {
    pub kind: StKindM,
    pub span: Span,
}

pub enum StKindM {
    /// The names imported and the module specifier.
    Import(Seq<Seq<char>>, Seq<char>),
    Export(Box<StM>),
    Interface(Seq<char>, Seq<(Seq<char>, TyM, Span)>),
    TypeAlias(Seq<char>, TyM),
    /// The class name and each member's name, annotation, initializer and span.
    Class(Seq<char>, Seq<(Seq<char>, Option<TyM>, Option<ExM>, Span)>),
    /// The name, each parameter's name, annotation and span, the return annotation, the body.
    Function(Seq<char>, Seq<(Seq<char>, Option<TyM>, Span)>, Option<TyM>, Seq<StM>),
    Variable(VariableKind, Seq<char>, Option<TyM>, Option<ExM>),
    Return(Option<ExM>),
    Throw(ExM),
    If(ExM, Box<StM>, Option<Box<StM>>),
    While(ExM, Box<StM>),
    For(Option<Box<StM>>, Option<ExM>, Option<ExM>, Box<StM>),
    Block(Seq<StM>),
    Expression(ExM),
    Empty,
    Error,
}

/// A program as a value: its statements and its span.
pub struct ProgramM {
    pub body: Seq<StM>,
    pub span: Option<Span>,
}

pub open spec fn opt_ty_m(t: Option<TypeNode>) -> Option<TyM> {
    match t {
        Some(t) => Some(ty_m(t)),
        None => None,
    }
}

pub open spec fn opt_ex_m(e: Option<Expression>) -> Option<ExM> {
    match e {
        Some(e) => Some(ex_m(e)),
        None => None,
    }
}

/// Parameters of the syntax tree as values.
pub open spec fn params_v(v: Seq<Parameter>) -> Seq<(Seq<char>, Option<TyM>, Span)> {
    v.map_values(|p: Parameter| (p.name@, opt_ty_m(p.ty), p.span))
}

/// Class members of the syntax tree as values.
pub open spec fn class_members_v(v: Seq<ClassMember>) -> Seq<(Seq<char>, Option<TyM>, Option<ExM>, Span)> {
    v.map_values(|m: ClassMember| (m.name@, opt_ty_m(m.ty), opt_ex_m(m.initializer), m.span))
}

/// Strings as their texts.
pub open spec fn texts_v(v: Seq<String>) -> Seq<Seq<char>> {
    v.map_values(|n: String| n@)
}

/// A statement of the syntax tree as a value.
pub open spec fn st_m(st: Statement) -> StM
    decreases st,
{
    StM {
        kind: match st.kind {
            StatementKind::Import(i) => StKindM::Import(texts_v(i.names@), i.from@),
            StatementKind::Export(inner) => StKindM::Export(Box::new(st_m(*inner))),
            StatementKind::Interface(i) => StKindM::Interface(i.name@, members_m(i.members@)),
            StatementKind::TypeAlias(a) => StKindM::TypeAlias(a.name@, ty_m(a.ty)),
            StatementKind::Class(c) => StKindM::Class(c.name@, class_members_v(c.members@)),
            StatementKind::Function(f) => StKindM::Function(
                f.name@,
                params_v(f.params@),
                opt_ty_m(f.return_type),
                Seq::new(
                    f.body@.len(),
                    |i: int|
                        if 0 <= i < f.body@.len() {
                            st_m(f.body@[i])
                        } else {
                            StM { kind: StKindM::Empty, span: st.span }
                        },
                ),
            ),
            StatementKind::Variable(v) => StKindM::Variable(v.kind, v.name@, opt_ty_m(v.ty), opt_ex_m(v.initializer)),
            StatementKind::Return(value) => StKindM::Return(opt_ex_m(value)),
            StatementKind::Throw(value) => StKindM::Throw(ex_m(value)),
            StatementKind::If(i) => StKindM::If(
                ex_m(i.test),
                Box::new(st_m(*i.consequent)),
                match i.alternate {
                    Some(a) => Some(Box::new(st_m(*a))),
                    None => None,
                },
            ),
            StatementKind::While(w) => StKindM::While(ex_m(w.test), Box::new(st_m(*w.body))),
            StatementKind::For(f) => StKindM::For(
                match f.initializer {
                    Some(i) => Some(Box::new(st_m(*i))),
                    None => None,
                },
                opt_ex_m(f.test),
                opt_ex_m(f.update),
                Box::new(st_m(*f.body)),
            ),
            StatementKind::Block(body) => StKindM::Block(
                Seq::new(
                    body@.len(),
                    |i: int|
                        if 0 <= i < body@.len() {
                            st_m(body@[i])
                        } else {
                            StM { kind: StKindM::Empty, span: st.span }
                        },
                ),
            ),
            StatementKind::Expression(e) => StKindM::Expression(ex_m(e)),
            StatementKind::Empty => StKindM::Empty,
            StatementKind::Error => StKindM::Error,
        },
        span: st.span,
    }
}

/// Statements of the syntax tree as values.
pub open spec fn stmts_v(v: Seq<Statement>) -> Seq<StM> {
    v.map_values(|st: Statement| st_m(st))
}

/// A program of the syntax tree as a value.
pub open spec fn program_v(p: Program) -> ProgramM {
    ProgramM { body: stmts_v(p.body@), span: p.span }
}

/// Where the parser reads (a token index) and what it has reported so far,
/// each report a message and a span.
pub struct PS {
    pub pos: nat,
    pub diags: Seq<(Seq<char>, Span)>,
}

/// How many tokens are left to read.
pub open spec fn rest(ts: Seq<Token>, s: PS) -> nat {
    if s.pos < ts.len() {
        (ts.len() - s.pos) as nat
    } else {
        0
    }
}

/// `t`, read no less far than `s`.
pub open spec fn fwd(s: PS, t: PS) -> PS {
    if s.pos <= t.pos {
        t
    } else {
        PS { pos: s.pos, ..t }
    }
}

pub open spec fn start_position_m() -> Position {
    Position { byte: 0, line: 1, column: 1 }
}

/// The end of the last token, or the start of the input.
pub open spec fn fallback_m(ts: Seq<Token>) -> Position {
    if ts.len() > 0 {
        ts.last().span.end
    } else {
        start_position_m()
    }
}

/// Where the current token starts (at the end: the fallback).
pub open spec fn cur_start(ts: Seq<Token>, s: PS) -> Position {
    if 0 <= s.pos < ts.len() {
        ts[s.pos as int].span.start
    } else {
        fallback_m(ts)
    }
}

/// Where the token just read ends, else `fallback`.
pub open spec fn prev_end(ts: Seq<Token>, s: PS, fallback: Position) -> Position {
    if s.pos >= 1 && s.pos - 1 < ts.len() {
        ts[s.pos - 1].span.end
    } else {
        fallback
    }
}

/// Whether the current token is of the kind `k` (payloads ignored).
pub open spec fn sees(ts: Seq<Token>, s: PS, k: TokenKind) -> bool {
    0 <= s.pos < ts.len() && kind_index(ts[s.pos as int].kind) == kind_index(k)
}

/// `s` past the current token, if there is one.
pub open spec fn adv(ts: Seq<Token>, s: PS) -> PS {
    if s.pos < ts.len() {
        PS { pos: s.pos + 1, ..s }
    } else {
        s
    }
}

/// `s` with `message` reported at `span`.
pub open spec fn report(s: PS, message: Seq<char>, span: Span) -> PS {
    PS { diags: s.diags.push((message, span)), ..s }
}

/// `s` with `message` reported where the current token starts.
pub open spec fn report_here(ts: Seq<Token>, s: PS, message: Seq<char>) -> PS {
    report(s, message, Span { start: cur_start(ts, s), end: cur_start(ts, s) })
}

/// Reads a token of the kind `k`, or reports that `label` is expected.
pub open spec fn expect_m(ts: Seq<Token>, s: PS, k: TokenKind, label: Seq<char>) -> (bool, PS) {
    if sees(ts, s, k) {
        (true, adv(ts, s))
    } else {
        (false, report_here(ts, s, "expected "@ + label))
    }
}

/// Reads a token of the kind `k` if it comes next.
pub open spec fn match_m(ts: Seq<Token>, s: PS, k: TokenKind) -> (bool, PS) {
    if sees(ts, s, k) {
        (true, adv(ts, s))
    } else {
        (false, s)
    }
}

/// Reads any token; at the end, reports that `label` is expected and
/// stands in a semicolon at the end of the input.
pub open spec fn expect_any_m(ts: Seq<Token>, s: PS, label: Seq<char>) -> (Token, PS) {
    if 0 <= s.pos < ts.len() {
        (ts[s.pos as int], adv(ts, s))
    } else {
        let span = Span { start: fallback_m(ts), end: fallback_m(ts) };
        (Token { kind: TokenKind::Semicolon, span }, report(s, "expected "@ + label, span))
    }
}

/// Reads an identifier; any other token is read and reported.
pub open spec fn ident_m(ts: Seq<Token>, s: PS, label: Seq<char>) -> (Option<Seq<char>>, PS) {
    if 0 <= s.pos < ts.len() {
        match ts[s.pos as int].kind {
            TokenKind::Identifier(n) => (Some(n@), adv(ts, s)),
            _ => (None, report(adv(ts, s), "expected "@ + label, ts[s.pos as int].span)),
        }
    } else {
        (None, report_here(ts, s, "expected "@ + label))
    }
}

/// Reads a property name (an identifier, a string or a number); any other
/// token is read and reported.
pub open spec fn prop_name_m(ts: Seq<Token>, s: PS, label: Seq<char>) -> (Option<Seq<char>>, PS) {
    if 0 <= s.pos < ts.len() {
        match ts[s.pos as int].kind {
            TokenKind::Identifier(n) => (Some(n@), adv(ts, s)),
            TokenKind::StringLiteral(n) => (Some(n@), adv(ts, s)),
            TokenKind::NumberLiteral(n) => (Some(n@), adv(ts, s)),
            _ => (None, report(adv(ts, s), "expected "@ + label, ts[s.pos as int].span)),
        }
    } else {
        (None, report_here(ts, s, "expected "@ + label))
    }
}

/// The name read, or the placeholder `<error>`.
pub open spec fn name_or_error(n: Option<Seq<char>>) -> Seq<char> {
    match n {
        Some(n) => n,
        None => "<error>"@,
    }
}

/// Reads a `;` if it comes next, giving where it ends.
pub open spec fn semicolon_m(ts: Seq<Token>, s: PS) -> (Option<Position>, PS) {
    if sees(ts, s, TokenKind::Semicolon) {
        let s1 = adv(ts, s);
        (Some(prev_end(ts, s1, fallback_m(ts))), s1)
    } else {
        (None, s)
    }
}

/// The binary operator the current token stands for, with its precedence.
pub open spec fn binary_op_m(ts: Seq<Token>, s: PS) -> Option<(BinaryOperator, u8)> {
    if 0 <= s.pos < ts.len() {
        match ts[s.pos as int].kind {
            TokenKind::PipePipe => Some((BinaryOperator::LogicalOr, 1u8)),
            TokenKind::QuestionQuestion => Some((BinaryOperator::NullishCoalesce, 1u8)),
            TokenKind::AndAnd => Some((BinaryOperator::LogicalAnd, 2u8)),
            TokenKind::EqualsEquals => Some((BinaryOperator::Equal, 3u8)),
            TokenKind::StrictEquals => Some((BinaryOperator::StrictEqual, 3u8)),
            TokenKind::BangEquals => Some((BinaryOperator::NotEqual, 3u8)),
            TokenKind::StrictBangEquals => Some((BinaryOperator::StrictNotEqual, 3u8)),
            TokenKind::Less => Some((BinaryOperator::Less, 4u8)),
            TokenKind::LessEquals => Some((BinaryOperator::LessEqual, 4u8)),
            TokenKind::Greater => Some((BinaryOperator::Greater, 4u8)),
            TokenKind::GreaterEquals => Some((BinaryOperator::GreaterEqual, 4u8)),
            TokenKind::Plus => Some((BinaryOperator::Add, 5u8)),
            TokenKind::Minus => Some((BinaryOperator::Subtract, 5u8)),
            TokenKind::Star => Some((BinaryOperator::Multiply, 6u8)),
            TokenKind::Slash => Some((BinaryOperator::Divide, 6u8)),
            TokenKind::Percent => Some((BinaryOperator::Remainder, 6u8)),
            _ => None,
        }
    } else {
        None
    }
}

/// The assignment operator the current token stands for.
pub open spec fn assignment_op_m(ts: Seq<Token>, s: PS) -> Option<AssignmentOperator> {
    if 0 <= s.pos < ts.len() {
        match ts[s.pos as int].kind {
            TokenKind::Equals => Some(AssignmentOperator::Assign),
            TokenKind::PlusEquals => Some(AssignmentOperator::AddAssign),
            TokenKind::MinusEquals => Some(AssignmentOperator::SubtractAssign),
            TokenKind::StarEquals => Some(AssignmentOperator::MultiplyAssign),
            TokenKind::SlashEquals => Some(AssignmentOperator::DivideAssign),
            TokenKind::PercentEquals => Some(AssignmentOperator::RemainderAssign),
            _ => None,
        }
    } else {
        None
    }
}

/// `{:?}` of a token kind, as in `Identifier("x")` or `Semicolon`.
pub open spec fn debug_kind_text(k: TokenKind) -> Seq<char> {
    match k {
        TokenKind::Identifier(v) => kind_name_text(k) + "("@ + debug_text(v@) + ")"@,
        TokenKind::NumberLiteral(v) => kind_name_text(k) + "("@ + debug_text(v@) + ")"@,
        TokenKind::StringLiteral(v) => kind_name_text(k) + "("@ + debug_text(v@) + ")"@,
        TokenKind::BooleanLiteral(b) => kind_name_text(k) + if b {
            "(true)"@
        } else {
            "(false)"@
        },
        _ => kind_name_text(k),
    }
}

/// An expression that stands in where one is missing, reported at the end of the input.
pub open spec fn error_expression_m(ts: Seq<Token>, s: PS) -> (ExM, PS) {
    let span = Span { start: fallback_m(ts), end: fallback_m(ts) };
    (ExM { kind: ExKindM::Error, span }, report(s, "expected expression"@, span))
}

/// The type that stands in where one is missing.
pub open spec fn error_type_m(start: Position) -> TyM {
    TyM { kind: TyKindM::Named("<error>"@), span: Span { start, end: start } }
}

/// Skips to the end of a class member: past a `;` or `,`, or up to a `}`.
pub open spec fn skip_member_m(ts: Seq<Token>, s: PS) -> PS
    decreases rest(ts, s),
{
    if !(0 <= s.pos < ts.len()) {
        s
    } else if sees(ts, s, TokenKind::Semicolon) || sees(ts, s, TokenKind::Comma) {
        adv(ts, s)
    } else if sees(ts, s, TokenKind::RightBrace) {
        s
    } else {
        skip_member_m(ts, adv(ts, s))
    }
}

// ---- Types ----
/// A type annotation, with any `[]` suffixes.
pub open spec fn type_m(ts: Seq<Token>, s: PS) -> (TyM, PS)
    decreases rest(ts, s), 11nat,
{
    let start = cur_start(ts, s);
    if !(0 <= s.pos < ts.len()) {
        (error_type_m(start), report_here(ts, s, "expected type"@))
    } else {
        let token = ts[s.pos as int];
        let s1 = adv(ts, s);
        let (ty, s2) = match token.kind {
            TokenKind::NumberType => (TyM { kind: TyKindM::Number, span: token.span }, s1),
            TokenKind::StringType => (TyM { kind: TyKindM::String, span: token.span }, s1),
            TokenKind::BooleanType => (TyM { kind: TyKindM::Boolean, span: token.span }, s1),
            TokenKind::Null => (TyM { kind: TyKindM::Null, span: token.span }, s1),
            TokenKind::Undefined => (TyM { kind: TyKindM::Undefined, span: token.span }, s1),
            TokenKind::Identifier(name) => (TyM { kind: TyKindM::Named(name@), span: token.span }, s1),
            TokenKind::LeftBrace => {
                let (members, s3) = type_members_after_brace_m(ts, s1);
                let end = prev_end(ts, s3, start);
                (TyM { kind: TyKindM::Object(members), span: Span { start, end } }, s3)
            },
            _ => (
                error_type_m(token.span.start),
                report(s1, "expected type, found "@ + debug_kind_text(token.kind), token.span),
            ),
        };
        array_suffix_m(ts, s2, ty, start)
    }
}

/// `ty` wrapped in an array type for each `[]` that follows.
pub open spec fn array_suffix_m(ts: Seq<Token>, s: PS, ty: TyM, start: Position) -> (TyM, PS)
    decreases rest(ts, s),
{
    if sees(ts, s, TokenKind::LeftBracket) {
        let s1 = adv(ts, s);
        let s2 = expect_m(ts, s1, TokenKind::RightBracket, "closing array type suffix"@).1;
        let end = prev_end(ts, s2, start);
        array_suffix_m(ts, s2, TyM { kind: TyKindM::Array(Box::new(ty)), span: Span { start, end } }, start)
    } else {
        (ty, s)
    }
}

/// The members of an object type, up to its closing brace.
pub open spec fn type_members_after_brace_m(ts: Seq<Token>, s: PS) -> (Seq<(Seq<char>, TyM, Span)>, PS)
    decreases rest(ts, s), 10nat,
{
    let (members, s1) = type_member_list_m(ts, s, Seq::empty());
    (members, expect_m(ts, s1, TokenKind::RightBrace, "closing object type"@).1)
}

/// `name: type` members separated by `;` or `,`, up to a `}`, after `acc`.
pub open spec fn type_member_list_m(ts: Seq<Token>, s: PS, acc: Seq<(Seq<char>, TyM, Span)>) -> (
    Seq<(Seq<char>, TyM, Span)>,
    PS,
)
    decreases rest(ts, s), 9nat,
{
    if sees(ts, s, TokenKind::RightBrace) || !(0 <= s.pos < ts.len()) {
        (acc, s)
    } else {
        let start = cur_start(ts, s);
        let (name, s1) = prop_name_m(ts, s, "type member name"@);
        let s2 = expect_m(ts, s1, TokenKind::Colon, "colon after type member name"@).1;
        let (ty, s3) = type_m(ts, s2);
        let s3 = fwd(s2, s3);
        let (semicolon, s4) = semicolon_m(ts, s3);
        let (end, s5) = match semicolon {
            Some(e) => (e, s4),
            None => {
                let s5 = match_m(ts, s4, TokenKind::Comma).1;
                (prev_end(ts, s5, start), s5)
            },
        };
        type_member_list_m(ts, s5, acc.push((name_or_error(name), ty, Span { start, end })))
    }
}

// ---- Expressions ----
pub open spec fn expression_m(ts: Seq<Token>, s: PS) -> (ExM, PS)
    decreases rest(ts, s), 20nat,
{
    assignment_m(ts, s)
}

/// An assignment chain, which groups to the right.
pub open spec fn assignment_m(ts: Seq<Token>, s: PS) -> (ExM, PS)
    decreases rest(ts, s), 19nat,
{
    let (left, s1) = binary_m(ts, s, 0);
    let s1 = fwd(s, s1);
    match assignment_op_m(ts, s1) {
        None => (left, s1),
        Some(operator) => {
            let (right, s2) = assignment_m(ts, adv(ts, s1));
            (
                ExM {
                    kind: ExKindM::Assignment(Box::new(left), operator, Box::new(right)),
                    span: Span { start: left.span.start, end: right.span.end },
                },
                s2,
            )
        },
    }
}

/// Binary operators at or above `min_precedence`, grouped to the left
/// within a precedence level.
pub open spec fn binary_m(ts: Seq<Token>, s: PS, min_precedence: u8) -> (ExM, PS)
    decreases rest(ts, s), 18nat,
{
    let (left, s1) = unary_m(ts, s);
    binary_rest_m(ts, fwd(s, s1), left, min_precedence)
}

/// The operators that follow `left`, at or above `min_precedence`.
pub open spec fn binary_rest_m(ts: Seq<Token>, s: PS, left: ExM, min_precedence: u8) -> (ExM, PS)
    decreases rest(ts, s), 17nat,
{
    match binary_op_m(ts, s) {
        None => (left, s),
        Some((operator, precedence)) => if precedence < min_precedence {
            (left, s)
        } else {
            let s1 = adv(ts, s);
            let (right, s2) = binary_m(ts, s1, (precedence + 1) as u8);
            binary_rest_m(
                ts,
                fwd(s1, s2),
                ExM {
                    kind: ExKindM::Binary(Box::new(left), operator, Box::new(right)),
                    span: Span { start: left.span.start, end: right.span.end },
                },
                min_precedence,
            )
        },
    }
}

/// Prefix `!` and `-`, which group to the right.
pub open spec fn unary_m(ts: Seq<Token>, s: PS) -> (ExM, PS)
    decreases rest(ts, s), 17nat,
{
    if !(0 <= s.pos < ts.len()) {
        error_expression_m(ts, s)
    } else {
        let token = ts[s.pos as int];
        let operator = match token.kind {
            TokenKind::Bang => Some(UnaryOperator::Not),
            TokenKind::Minus => Some(UnaryOperator::Negate),
            _ => None,
        };
        match operator {
            Some(operator) => {
                let (argument, s2) = unary_m(ts, adv(ts, s));
                (
                    ExM {
                        kind: ExKindM::Unary(operator, Box::new(argument)),
                        span: Span { start: token.span.start, end: argument.span.end },
                    },
                    s2,
                )
            },
            None => call_member_m(ts, s),
        }
    }
}

/// A primary expression followed by any `.name` and `(arguments)` suffixes.
pub open spec fn call_member_m(ts: Seq<Token>, s: PS) -> (ExM, PS)
    decreases rest(ts, s), 16nat,
{
    let (e, s1) = primary_m(ts, s);
    suffixes_m(ts, fwd(s, s1), e)
}

/// `e` with the `.name` and `(arguments)` suffixes that follow.
pub open spec fn suffixes_m(ts: Seq<Token>, s: PS, e: ExM) -> (ExM, PS)
    decreases rest(ts, s), 15nat,
{
    if sees(ts, s, TokenKind::Dot) {
        let start = e.span.start;
        let (property, s2) = ident_m(ts, adv(ts, s), "member property name"@);
        let end = prev_end(ts, s2, e.span.start);
        suffixes_m(
            ts,
            s2,
            ExM { kind: ExKindM::Member(Box::new(e), name_or_error(property)), span: Span { start, end } },
        )
    } else if sees(ts, s, TokenKind::LeftParen) {
        let start = e.span.start;
        let s1 = adv(ts, s);
        let (arguments, s2) = arguments_m(ts, s1, Seq::empty());
        let s3 = expect_m(ts, fwd(s1, s2), TokenKind::RightParen, "closing call arguments"@).1;
        let end = prev_end(ts, s3, start);
        suffixes_m(ts, s3, ExM { kind: ExKindM::Call(Box::new(e), arguments), span: Span { start, end } })
    } else {
        (e, s)
    }
}

/// Call arguments separated by commas, up to a `)`, after `acc`.
pub open spec fn arguments_m(ts: Seq<Token>, s: PS, acc: Seq<ExM>) -> (Seq<ExM>, PS)
    decreases rest(ts, s), 21nat,
{
    if sees(ts, s, TokenKind::RightParen) || !(0 <= s.pos < ts.len()) {
        (acc, s)
    } else {
        let (argument, s1) = expression_m(ts, s);
        let (more, s2) = match_m(ts, fwd(s, s1), TokenKind::Comma);
        if more {
            arguments_m(ts, s2, acc.push(argument))
        } else {
            (acc.push(argument), s2)
        }
    }
}

pub open spec fn primary_m(ts: Seq<Token>, s: PS) -> (ExM, PS)
    decreases rest(ts, s), 15nat,
{
    if !(0 <= s.pos < ts.len()) {
        error_expression_m(ts, s)
    } else {
        let token = ts[s.pos as int];
        let s1 = adv(ts, s);
        let span = token.span;
        match token.kind {
            TokenKind::Identifier(name) => (ExM { kind: ExKindM::Identifier(name@), span }, s1),
            TokenKind::NumberLiteral(v) => (ExM { kind: ExKindM::Number(v@), span }, s1),
            TokenKind::StringLiteral(v) => (ExM { kind: ExKindM::String(v@), span }, s1),
            TokenKind::BooleanLiteral(b) => (ExM { kind: ExKindM::Boolean(b), span }, s1),
            TokenKind::Null => (ExM { kind: ExKindM::Null, span }, s1),
            TokenKind::Undefined => (ExM { kind: ExKindM::Undefined, span }, s1),
            TokenKind::LeftParen => {
                let (e, s2) = expression_m(ts, s1);
                (e, expect_m(ts, fwd(s1, s2), TokenKind::RightParen, "closing parenthesized expression"@).1)
            },
            TokenKind::LeftBrace => object_m(ts, s1, span.start),
            TokenKind::LeftBracket => array_m(ts, s1, span.start),
            _ => (
                ExM { kind: ExKindM::Error, span },
                report(s1, "expected expression, found "@ + debug_kind_text(token.kind), span),
            ),
        }
    }
}

/// The properties of an object literal, up to its closing brace.
pub open spec fn object_m(ts: Seq<Token>, s: PS, start: Position) -> (ExM, PS)
    decreases rest(ts, s), 22nat,
{
    let (properties, s1) = properties_m(ts, s, Seq::empty());
    let s2 = expect_m(ts, fwd(s, s1), TokenKind::RightBrace, "closing object literal"@).1;
    let end = prev_end(ts, s2, start);
    (ExM { kind: ExKindM::Object(properties), span: Span { start, end } }, s2)
}

/// `name: value` properties separated by commas, up to a `}`, after `acc`.
pub open spec fn properties_m(ts: Seq<Token>, s: PS, acc: Seq<(Seq<char>, ExM, Span)>) -> (
    Seq<(Seq<char>, ExM, Span)>,
    PS,
)
    decreases rest(ts, s), 21nat,
{
    if sees(ts, s, TokenKind::RightBrace) || !(0 <= s.pos < ts.len()) {
        (acc, s)
    } else {
        let start = cur_start(ts, s);
        let (name, s1) = prop_name_m(ts, s, "object property name"@);
        let s2 = expect_m(ts, s1, TokenKind::Colon, "colon after object property name"@).1;
        let (value, s3) = expression_m(ts, s2);
        let acc2 = acc.push((name_or_error(name), value, Span { start, end: value.span.end }));
        let (more, s4) = match_m(ts, fwd(s2, s3), TokenKind::Comma);
        if more {
            properties_m(ts, s4, acc2)
        } else {
            (acc2, s4)
        }
    }
}

/// The elements of an array literal, up to its closing bracket.
pub open spec fn array_m(ts: Seq<Token>, s: PS, start: Position) -> (ExM, PS)
    decreases rest(ts, s), 22nat,
{
    let (elements, s1) = elements_m(ts, s, Seq::empty());
    let s2 = expect_m(ts, fwd(s, s1), TokenKind::RightBracket, "closing array literal"@).1;
    let end = prev_end(ts, s2, start);
    (ExM { kind: ExKindM::Array(elements), span: Span { start, end } }, s2)
}

/// Elements separated by commas, up to a `]`, after `acc`.
pub open spec fn elements_m(ts: Seq<Token>, s: PS, acc: Seq<ExM>) -> (Seq<ExM>, PS)
    decreases rest(ts, s), 21nat,
{
    if sees(ts, s, TokenKind::RightBracket) || !(0 <= s.pos < ts.len()) {
        (acc, s)
    } else {
        let (element, s1) = expression_m(ts, s);
        let (more, s2) = match_m(ts, fwd(s, s1), TokenKind::Comma);
        if more {
            elements_m(ts, s2, acc.push(element))
        } else {
            (acc.push(element), s2)
        }
    }
}

// ---- Statements ----
pub open spec fn statement_m(ts: Seq<Token>, s: PS) -> (StM, PS)
    decreases rest(ts, s), 40nat,
{
    if !(s.pos < ts.len()) {
        expression_statement_m(ts, s)
    } else {
        match ts[s.pos as int].kind {
            TokenKind::Import => import_m(ts, s),
            TokenKind::Export => export_m(ts, s),
            TokenKind::Interface => interface_m(ts, s),
            TokenKind::Type => type_alias_m(ts, s),
            TokenKind::Class => class_m(ts, s),
            TokenKind::Function => function_m(ts, s),
            TokenKind::Let => variable_m(ts, s, true),
            TokenKind::Const => variable_m(ts, s, true),
            TokenKind::Var => variable_m(ts, s, true),
            TokenKind::Return => return_m(ts, s),
            TokenKind::Throw => throw_m(ts, s),
            TokenKind::If => if_m(ts, s),
            TokenKind::While => while_m(ts, s),
            TokenKind::For => for_m(ts, s),
            TokenKind::LeftBrace => finish_block_m(ts, adv(ts, s), cur_start(ts, s)),
            TokenKind::Semicolon => (StM { kind: StKindM::Empty, span: ts[s.pos as int].span }, adv(ts, s)),
            _ => expression_statement_m(ts, s),
        }
    }
}

/// `s` past the token that starts a statement.
pub open spec fn past(s: PS) -> PS {
    PS { pos: s.pos + 1, ..s }
}

/// Where the token at `s` starts (the statement's first token).
pub open spec fn first_start(ts: Seq<Token>, s: PS) -> Position {
    ts[s.pos as int].span.start
}

/// Where a statement ends: at its `;`, else where its last token ends.
pub open spec fn end_m(ts: Seq<Token>, semicolon: (Option<Position>, PS), start: Position) -> Position {
    match semicolon.0 {
        Some(e) => e,
        None => prev_end(ts, semicolon.1, start),
    }
}

pub open spec fn import_m(ts: Seq<Token>, s: PS) -> (StM, PS) {
    let start = first_start(ts, s);
    let s1 = past(s);
    let (names, s2) = if sees(ts, s1, TokenKind::LeftBrace) {
        let (names, s3) = import_names_m(ts, adv(ts, s1), Seq::empty());
        (names, expect_m(ts, s3, TokenKind::RightBrace, "closing import brace"@).1)
    } else {
        let (n, s3) = ident_m(ts, s1, "default import binding"@);
        (
            match n {
                Some(n) => seq![n],
                None => Seq::empty(),
            },
            s3,
        )
    };
    let s4 = expect_m(ts, s2, TokenKind::From, "`from` in import declaration"@).1;
    let (from, s5) = if s4.pos < ts.len() {
        match ts[s4.pos as int].kind {
            TokenKind::StringLiteral(v) => (v@, adv(ts, s4)),
            _ => (Seq::empty(), report(adv(ts, s4), "expected string module specifier"@, ts[s4.pos as int].span)),
        }
    } else {
        (Seq::empty(), report_here(ts, s4, "expected string module specifier"@))
    };
    let semicolon = semicolon_m(ts, s5);
    (StM { kind: StKindM::Import(names, from), span: Span { start, end: end_m(ts, semicolon, start) } }, semicolon.1)
}

/// Import bindings separated by commas, up to a `}`, after `acc`.
pub open spec fn import_names_m(ts: Seq<Token>, s: PS, acc: Seq<Seq<char>>) -> (Seq<Seq<char>>, PS)
    decreases rest(ts, s),
{
    if sees(ts, s, TokenKind::RightBrace) || !(s.pos < ts.len()) {
        (acc, s)
    } else {
        let (n, s1) = ident_m(ts, s, "import binding"@);
        let acc2 = match n {
            Some(n) => acc.push(n),
            None => acc,
        };
        let (more, s2) = match_m(ts, s1, TokenKind::Comma);
        if more {
            import_names_m(ts, s2, acc2)
        } else {
            (acc2, s2)
        }
    }
}

pub open spec fn export_m(ts: Seq<Token>, s: PS) -> (StM, PS)
    decreases rest(ts, s), 39nat,
{
    let start = first_start(ts, s);
    if !(s.pos < ts.len()) {
        (StM { kind: StKindM::Error, span: Span { start, end: start } }, s)
    } else {
        let (inner, s2) = statement_m(ts, past(s));
        (StM { kind: StKindM::Export(Box::new(inner)), span: Span { start, end: inner.span.end } }, s2)
    }
}

/// The members of an interface body, braces included.
pub open spec fn type_members_m(ts: Seq<Token>, s: PS) -> (Seq<(Seq<char>, TyM, Span)>, PS) {
    let s1 = expect_m(ts, s, TokenKind::LeftBrace, "type member list"@).1;
    let (members, s2) = type_member_list_m(ts, s1, Seq::empty());
    (members, expect_m(ts, s2, TokenKind::RightBrace, "closing type member list"@).1)
}

pub open spec fn interface_m(ts: Seq<Token>, s: PS) -> (StM, PS) {
    let start = first_start(ts, s);
    let (name, s2) = ident_m(ts, past(s), "interface name"@);
    let (members, s3) = type_members_m(ts, s2);
    let end = prev_end(ts, s3, start);
    (StM { kind: StKindM::Interface(name_or_error(name), members), span: Span { start, end } }, s3)
}

pub open spec fn type_alias_m(ts: Seq<Token>, s: PS) -> (StM, PS) {
    let start = first_start(ts, s);
    let (name, s2) = ident_m(ts, past(s), "type alias name"@);
    let s3 = expect_m(ts, s2, TokenKind::Equals, "`=` in type alias"@).1;
    let (ty, s4) = type_m(ts, s3);
    let semicolon = semicolon_m(ts, s4);
    (
        StM {
            kind: StKindM::TypeAlias(name_or_error(name), ty),
            span: Span { start, end: end_m(ts, semicolon, start) },
        },
        semicolon.1,
    )
}

pub open spec fn class_m(ts: Seq<Token>, s: PS) -> (StM, PS) {
    let start = first_start(ts, s);
    let (name, s2) = ident_m(ts, past(s), "class name"@);
    let s3 = expect_m(ts, s2, TokenKind::LeftBrace, "class body"@).1;
    let (members, s4) = class_members_m(ts, s3, Seq::empty());
    let s5 = expect_m(ts, s4, TokenKind::RightBrace, "closing class body"@).1;
    let end = prev_end(ts, s5, start);
    (StM { kind: StKindM::Class(name_or_error(name), members), span: Span { start, end } }, s5)
}

/// Class members up to a `}`, after `acc`; a member without a name is
/// skipped up to its end.
pub open spec fn class_members_m(ts: Seq<Token>, s: PS, acc: Seq<(Seq<char>, Option<TyM>, Option<ExM>, Span)>) -> (
    Seq<(Seq<char>, Option<TyM>, Option<ExM>, Span)>,
    PS,
)
    decreases rest(ts, s),
{
    if sees(ts, s, TokenKind::RightBrace) || !(s.pos < ts.len()) {
        (acc, s)
    } else {
        let start = cur_start(ts, s);
        let (n, s1) = ident_m(ts, s, "class member name"@);
        match n {
            None => class_members_m(ts, fwd(s1, skip_member_m(ts, s1)), acc),
            Some(name) => {
                let (has_type, s2) = match_m(ts, s1, TokenKind::Colon);
                let (ty, s3) = if has_type {
                    let (t, s3) = type_m(ts, s2);
                    (Some(t), s3)
                } else {
                    (None, s2)
                };
                let (has_value, s4) = match_m(ts, s3, TokenKind::Equals);
                let (value, s5) = if has_value {
                    let (e, s5) = expression_m(ts, s4);
                    (Some(e), s5)
                } else {
                    (None, s4)
                };
                let semicolon = semicolon_m(ts, s5);
                let end = end_m(ts, semicolon, start);
                class_members_m(ts, fwd(s1, semicolon.1), acc.push((name, ty, value, Span { start, end })))
            },
        }
    }
}

pub open spec fn function_m(ts: Seq<Token>, s: PS) -> (StM, PS)
    decreases rest(ts, s), 39nat,
{
    let start = first_start(ts, s);
    if !(s.pos < ts.len()) {
        (StM { kind: StKindM::Error, span: Span { start, end: start } }, s)
    } else {
        let s1 = past(s);
        let (name, s2) = ident_m(ts, s1, "function name"@);
        let (params, s3) = parameters_m(ts, s2);
        let (has_return, s4) = match_m(ts, s3, TokenKind::Colon);
        let (return_type, s5) = if has_return {
            let (t, s5) = type_m(ts, s4);
            (Some(t), s5)
        } else {
            (None, s4)
        };
        let (body, s6) = block_statement_m(ts, fwd(s1, s5));
        (
            StM {
                kind: StKindM::Function(
                    name_or_error(name),
                    params,
                    return_type,
                    match body.kind {
                        StKindM::Block(b) => b,
                        _ => Seq::empty(),
                    },
                ),
                span: Span { start, end: body.span.end },
            },
            s6,
        )
    }
}

/// A parameter list, parentheses included.
pub open spec fn parameters_m(ts: Seq<Token>, s: PS) -> (Seq<(Seq<char>, Option<TyM>, Span)>, PS) {
    let s1 = expect_m(ts, s, TokenKind::LeftParen, "parameter list"@).1;
    let (params, s2) = parameter_list_m(ts, s1, Seq::empty());
    (params, expect_m(ts, s2, TokenKind::RightParen, "closing parameter list"@).1)
}

/// Parameters separated by commas, up to a `)`, after `acc`.
pub open spec fn parameter_list_m(ts: Seq<Token>, s: PS, acc: Seq<(Seq<char>, Option<TyM>, Span)>) -> (
    Seq<(Seq<char>, Option<TyM>, Span)>,
    PS,
)
    decreases rest(ts, s),
{
    if sees(ts, s, TokenKind::RightParen) || !(s.pos < ts.len()) {
        (acc, s)
    } else {
        let start = cur_start(ts, s);
        let (n, s1) = ident_m(ts, s, "parameter name"@);
        let (has_type, s2) = match_m(ts, s1, TokenKind::Colon);
        let (ty, s3) = if has_type {
            let (t, s3) = type_m(ts, s2);
            (Some(t), fwd(s1, s3))
        } else {
            (None, s2)
        };
        let acc2 = acc.push((name_or_error(n), ty, Span { start, end: prev_end(ts, s3, start) }));
        let (more, s4) = match_m(ts, s3, TokenKind::Comma);
        if more {
            parameter_list_m(ts, s4, acc2)
        } else {
            (acc2, s4)
        }
    }
}

/// The kind of declaration a `let`, `const` or `var` token starts.
pub open spec fn variable_kind_m(k: TokenKind) -> VariableKind {
    match k {
        TokenKind::Const => VariableKind::Const,
        TokenKind::Var => VariableKind::Var,
        _ => VariableKind::Let,
    }
}

pub open spec fn variable_m(ts: Seq<Token>, s: PS, consume_semicolon: bool) -> (StM, PS) {
    let start = first_start(ts, s);
    let (name, s2) = ident_m(ts, past(s), "variable name"@);
    let (has_type, s3) = match_m(ts, s2, TokenKind::Colon);
    let (ty, s4) = if has_type {
        let (t, s4) = type_m(ts, s3);
        (Some(t), s4)
    } else {
        (None, s3)
    };
    let (has_value, s5) = match_m(ts, s4, TokenKind::Equals);
    let (value, s6) = if has_value {
        let (e, s6) = expression_m(ts, s5);
        (Some(e), s6)
    } else {
        (None, s5)
    };
    let (end, s7) = if consume_semicolon {
        let semicolon = semicolon_m(ts, s6);
        (end_m(ts, semicolon, start), semicolon.1)
    } else {
        (prev_end(ts, s6, start), s6)
    };
    (
        StM {
            kind: StKindM::Variable(variable_kind_m(ts[s.pos as int].kind), name_or_error(name), ty, value),
            span: Span { start, end },
        },
        s7,
    )
}

pub open spec fn return_m(ts: Seq<Token>, s: PS) -> (StM, PS) {
    let start = first_start(ts, s);
    let s1 = past(s);
    let (value, s2) = if sees(ts, s1, TokenKind::Semicolon) || sees(ts, s1, TokenKind::RightBrace) {
        (None, s1)
    } else {
        let (e, s2) = expression_m(ts, s1);
        (Some(e), s2)
    };
    let semicolon = semicolon_m(ts, s2);
    (StM { kind: StKindM::Return(value), span: Span { start, end: end_m(ts, semicolon, start) } }, semicolon.1)
}

pub open spec fn throw_m(ts: Seq<Token>, s: PS) -> (StM, PS) {
    let start = first_start(ts, s);
    let (value, s2) = expression_m(ts, past(s));
    let semicolon = semicolon_m(ts, s2);
    (StM { kind: StKindM::Throw(value), span: Span { start, end: end_m(ts, semicolon, start) } }, semicolon.1)
}

pub open spec fn if_m(ts: Seq<Token>, s: PS) -> (StM, PS)
    decreases rest(ts, s), 39nat,
{
    let start = first_start(ts, s);
    if !(s.pos < ts.len()) {
        (StM { kind: StKindM::Error, span: Span { start, end: start } }, s)
    } else {
        let s1 = past(s);
        let s2 = expect_m(ts, s1, TokenKind::LeftParen, "if condition"@).1;
        let (test, s3) = expression_m(ts, s2);
        let s4 = expect_m(ts, s3, TokenKind::RightParen, "closing if condition"@).1;
        let (consequent, s5) = statement_m(ts, fwd(s1, s4));
        let (has_else, s6) = match_m(ts, fwd(s1, s5), TokenKind::Else);
        let (alternate, s7) = if has_else {
            let (a, s7) = statement_m(ts, s6);
            (Some(Box::new(a)), s7)
        } else {
            (None, s6)
        };
        let end = match alternate {
            Some(a) => a.span.end,
            None => consequent.span.end,
        };
        (StM { kind: StKindM::If(test, Box::new(consequent), alternate), span: Span { start, end } }, s7)
    }
}

pub open spec fn while_m(ts: Seq<Token>, s: PS) -> (StM, PS)
    decreases rest(ts, s), 39nat,
{
    let start = first_start(ts, s);
    if !(s.pos < ts.len()) {
        (StM { kind: StKindM::Error, span: Span { start, end: start } }, s)
    } else {
        let s1 = past(s);
        let s2 = expect_m(ts, s1, TokenKind::LeftParen, "while condition"@).1;
        let (test, s3) = expression_m(ts, s2);
        let s4 = expect_m(ts, s3, TokenKind::RightParen, "closing while condition"@).1;
        let (body, s5) = statement_m(ts, fwd(s1, s4));
        (StM { kind: StKindM::While(test, Box::new(body)), span: Span { start, end: body.span.end } }, s5)
    }
}

pub open spec fn for_m(ts: Seq<Token>, s: PS) -> (StM, PS)
    decreases rest(ts, s), 39nat,
{
    let start = first_start(ts, s);
    if !(s.pos < ts.len()) {
        (StM { kind: StKindM::Error, span: Span { start, end: start } }, s)
    } else {
        let s1 = past(s);
        let s2 = expect_m(ts, s1, TokenKind::LeftParen, "for header"@).1;
        let (initializer, s3) = if sees(ts, s2, TokenKind::Semicolon) {
            (None, adv(ts, s2))
        } else if sees(ts, s2, TokenKind::Let) || sees(ts, s2, TokenKind::Const) || sees(ts, s2, TokenKind::Var) {
            let (v, s3) = variable_m(ts, s2, false);
            (Some(Box::new(v)), s3)
        } else {
            let (e, s3) = expression_statement_bare_m(ts, s2);
            (Some(Box::new(e)), s3)
        };
        let s4 = expect_m(ts, s3, TokenKind::Semicolon, "semicolon after for initializer"@).1;
        let (test, s5) = if sees(ts, s4, TokenKind::Semicolon) {
            (None, s4)
        } else {
            let (e, s5) = expression_m(ts, s4);
            (Some(e), s5)
        };
        let s6 = expect_m(ts, s5, TokenKind::Semicolon, "semicolon after for test"@).1;
        let (update, s7) = if sees(ts, s6, TokenKind::RightParen) {
            (None, s6)
        } else {
            let (e, s7) = expression_m(ts, s6);
            (Some(e), s7)
        };
        let s8 = expect_m(ts, s7, TokenKind::RightParen, "closing for header"@).1;
        let (body, s9) = statement_m(ts, fwd(s1, s8));
        (
            StM {
                kind: StKindM::For(initializer, test, update, Box::new(body)),
                span: Span { start, end: body.span.end },
            },
            s9,
        )
    }
}

/// A `{ ... }` block; a missing brace is reported and the statements are read anyway.
pub open spec fn block_statement_m(ts: Seq<Token>, s: PS) -> (StM, PS)
    decreases rest(ts, s), 43nat,
{
    let start = cur_start(ts, s);
    finish_block_m(ts, expect_m(ts, s, TokenKind::LeftBrace, "block start"@).1, start)
}

/// The statements of a block after its opening brace, and the closing brace.
pub open spec fn finish_block_m(ts: Seq<Token>, s: PS, start: Position) -> (StM, PS)
    decreases rest(ts, s), 42nat,
{
    let (body, s1) = block_list_m(ts, s, Seq::empty());
    let s2 = expect_m(ts, s1, TokenKind::RightBrace, "block end"@).1;
    (StM { kind: StKindM::Block(body), span: Span { start, end: prev_end(ts, s2, start) } }, s2)
}

/// Statements up to a `}`, after `acc`.
pub open spec fn block_list_m(ts: Seq<Token>, s: PS, acc: Seq<StM>) -> (Seq<StM>, PS)
    decreases rest(ts, s), 41nat,
{
    if sees(ts, s, TokenKind::RightBrace) || !(s.pos < ts.len()) {
        (acc, s)
    } else {
        let (st, s1) = statement_m(ts, s);
        if s.pos < s1.pos {
            block_list_m(ts, s1, acc.push(st))
        } else {
            (acc.push(st), s1)
        }
    }
}

/// An expression statement and its optional `;`.
pub open spec fn expression_statement_m(ts: Seq<Token>, s: PS) -> (StM, PS) {
    let (st, s1) = expression_statement_bare_m(ts, s);
    (st, semicolon_m(ts, s1).1)
}

/// An expression as a statement.
pub open spec fn expression_statement_bare_m(ts: Seq<Token>, s: PS) -> (StM, PS) {
    let (e, s1) = expression_m(ts, s);
    (StM { kind: StKindM::Expression(e), span: e.span }, s1)
}

/// Statements up to the end of the input, after `acc`; where a statement
/// reads nothing, the token is reported and skipped.
pub open spec fn program_list_m(ts: Seq<Token>, s: PS, acc: Seq<StM>) -> (Seq<StM>, PS)
    decreases rest(ts, s),
{
    if !(s.pos < ts.len()) {
        (acc, s)
    } else {
        let (st, s1) = statement_m(ts, s);
        let s1 = fwd(s, s1);
        let s2 = if s1.pos == s.pos {
            adv(ts, report_here(ts, s1, "parser made no progress"@))
        } else {
            s1
        };
        program_list_m(ts, s2, acc.push(st))
    }
}

/// The span from the start of the first statement to the end of the last.
pub open spec fn body_span_m(body: Seq<StM>) -> Option<Span> {
    if body.len() == 0 {
        None
    } else {
        Some(Span { start: body[0].span.start, end: body.last().span.end })
    }
}

/// The program the tokens `ts` parse to, and what was reported.
pub open spec fn parse_m(ts: Seq<Token>) -> (ProgramM, Seq<(Seq<char>, Span)>) {
    let (body, s) = program_list_m(ts, PS { pos: 0, diags: Seq::empty() }, Seq::empty());
    (ProgramM { body, span: body_span_m(body) }, s.diags)
}


/// Whether a token reads as an expression on its own: a name or a number.
pub open spec fn is_atom_token(k: TokenKind) -> bool {
    k is Identifier || k is NumberLiteral
}

/// The expression that a name or number token reads as.
pub open spec fn atom_m(t: Token) -> ExM {
    ExM {
        kind: match t.kind {
            TokenKind::Identifier(name) => ExKindM::Identifier(name@),
            TokenKind::NumberLiteral(v) => ExKindM::Number(v@),
            _ => ExKindM::Error,
        },
        span: t.span,
    }
}

/// `left op right`, spanning from the start of `left` to the end of `right`.
pub open spec fn binary_ex(left: ExM, op: BinaryOperator, right: ExM) -> ExM {
    ExM { kind: ExKindM::Binary(Box::new(left), op, Box::new(right)), span: Span { start: left.span.start, end: right.span.end } }
}

/// The binary operator that a token is written for.
pub open spec fn operator_token(k: TokenKind) -> Option<BinaryOperator> {
    match k {
        TokenKind::PipePipe => Some(BinaryOperator::LogicalOr),
        TokenKind::QuestionQuestion => Some(BinaryOperator::NullishCoalesce),
        TokenKind::AndAnd => Some(BinaryOperator::LogicalAnd),
        TokenKind::EqualsEquals => Some(BinaryOperator::Equal),
        TokenKind::StrictEquals => Some(BinaryOperator::StrictEqual),
        TokenKind::BangEquals => Some(BinaryOperator::NotEqual),
        TokenKind::StrictBangEquals => Some(BinaryOperator::StrictNotEqual),
        TokenKind::Less => Some(BinaryOperator::Less),
        TokenKind::LessEquals => Some(BinaryOperator::LessEqual),
        TokenKind::Greater => Some(BinaryOperator::Greater),
        TokenKind::GreaterEquals => Some(BinaryOperator::GreaterEqual),
        TokenKind::Plus => Some(BinaryOperator::Add),
        TokenKind::Minus => Some(BinaryOperator::Subtract),
        TokenKind::Star => Some(BinaryOperator::Multiply),
        TokenKind::Slash => Some(BinaryOperator::Divide),
        TokenKind::Percent => Some(BinaryOperator::Remainder),
        _ => None,
    }
}

/// How tightly a binary operator binds, loosest first: `||` and `??`;
/// `&&`; equality; comparison; `+` and `-`; `*`, `/` and `%`.
pub open spec fn binding_power(op: BinaryOperator) -> nat {
    match op {
        BinaryOperator::LogicalOr | BinaryOperator::NullishCoalesce => 1,
        BinaryOperator::LogicalAnd => 2,
        BinaryOperator::Equal | BinaryOperator::StrictEqual | BinaryOperator::NotEqual
        | BinaryOperator::StrictNotEqual => 3,
        BinaryOperator::Less | BinaryOperator::LessEqual | BinaryOperator::Greater
        | BinaryOperator::GreaterEqual => 4,
        BinaryOperator::Add | BinaryOperator::Subtract => 5,
        BinaryOperator::Multiply | BinaryOperator::Divide | BinaryOperator::Remainder => 6,
    }
}

proof fn lemma_operator_token(ts: Seq<Token>, s: PS)
    requires
        s.pos < ts.len(),
        operator_token(ts[s.pos as int].kind) is Some,
    ensures
        binary_op_m(ts, s) == Some(
            (
                operator_token(ts[s.pos as int].kind)->0,
                binding_power(operator_token(ts[s.pos as int].kind)->0) as u8,
            ),
        ),
        assignment_op_m(ts, s) is None,
{
}

/// The expression of a lone name or number token at `s`, when the next
/// token is an operator (or there is none).
proof fn lemma_atom_then_operator(ts: Seq<Token>, s: PS)
    requires
        s.pos < ts.len(),
        is_atom_token(ts[s.pos as int].kind),
        s.pos + 1 < ts.len() ==> !(ts[s.pos + 1int].kind is Dot) && !(ts[s.pos + 1int].kind is LeftParen),
    ensures
        unary_m(ts, s) == (atom_m(ts[s.pos as int]), adv(ts, s)),
{
    let s1 = adv(ts, s);
    assert(primary_m(ts, s) == (atom_m(ts[s.pos as int]), s1));
    assert(fwd(s, s1) == s1);
    assert(!sees(ts, s1, TokenKind::Dot));
    assert(!sees(ts, s1, TokenKind::LeftParen));
    assert(suffixes_m(ts, s1, atom_m(ts[s.pos as int])) == (atom_m(ts[s.pos as int]), s1));
    assert(call_member_m(ts, s) == (atom_m(ts[s.pos as int]), s1));
}

/// Binary operators group by how tightly they bind: in `a op1 b op2 c`
/// (between names or numbers, ended by a semicolon or the end of the input)
/// the second operator takes `b` as its left operand when it binds more
/// tightly than the first, and otherwise the first operator's result does.
/// So `a - b * c` subtracts the product, and `a * b - c` and `a - b + c`
/// group to the left.
pub proof fn law_binary_precedence(ts: Seq<Token>, p: int, diags: Seq<(Seq<char>, Span)>)
    requires
        0 <= p,
        p + 5 <= ts.len(),
        is_atom_token(ts[p].kind),
        is_atom_token(ts[p + 2].kind),
        is_atom_token(ts[p + 4].kind),
        operator_token(ts[p + 1].kind) is Some,
        operator_token(ts[p + 3].kind) is Some,
        p + 5 == ts.len() || ts[p + 5].kind is Semicolon,
    ensures
        expression_m(ts, PS { pos: p as nat, diags }) == (
            if binding_power(operator_token(ts[p + 3].kind)->0) > binding_power(operator_token(ts[p + 1].kind)->0) {
                binary_ex(
                    atom_m(ts[p]),
                    operator_token(ts[p + 1].kind)->0,
                    binary_ex(atom_m(ts[p + 2]), operator_token(ts[p + 3].kind)->0, atom_m(ts[p + 4])),
                )
            } else {
                binary_ex(
                    binary_ex(atom_m(ts[p]), operator_token(ts[p + 1].kind)->0, atom_m(ts[p + 2])),
                    operator_token(ts[p + 3].kind)->0,
                    atom_m(ts[p + 4]),
                )
            },
            PS { pos: (p + 5) as nat, diags },
        ),
{
    let s0 = PS { pos: p as nat, diags };
    let s1 = PS { pos: (p + 1) as nat, diags };
    let s2 = PS { pos: (p + 2) as nat, diags };
    let s3 = PS { pos: (p + 3) as nat, diags };
    let s4 = PS { pos: (p + 4) as nat, diags };
    let s5 = PS { pos: (p + 5) as nat, diags };
    let o1 = operator_token(ts[p + 1].kind)->0;
    let o2 = operator_token(ts[p + 3].kind)->0;
    let p1 = binding_power(o1) as u8;
    let p2 = binding_power(o2) as u8;
    let a = atom_m(ts[p]);
    let b = atom_m(ts[p + 2]);
    let c = atom_m(ts[p + 4]);
    lemma_atom_then_operator(ts, s0);
    lemma_atom_then_operator(ts, s2);
    lemma_atom_then_operator(ts, s4);
    lemma_operator_token(ts, s1);
    lemma_operator_token(ts, s3);
    assert(adv(ts, s0) == s1 && adv(ts, s1) == s2 && adv(ts, s2) == s3 && adv(ts, s3) == s4 && adv(ts, s4) == s5);
    assert(binary_op_m(ts, s5) is None);
    assert(assignment_op_m(ts, s5) is None);
    if p2 > p1 {
        let bc = binary_ex(b, o2, c);
        let abc = binary_ex(a, o1, bc);
        assert(binary_rest_m(ts, s5, c, (p2 + 1) as u8) == (c, s5));
        assert(binary_m(ts, s4, (p2 + 1) as u8) == (c, s5));
        assert(binary_rest_m(ts, s5, bc, (p1 + 1) as u8) == (bc, s5));
        assert(binary_rest_m(ts, s3, b, (p1 + 1) as u8) == (bc, s5));
        assert(binary_m(ts, s2, (p1 + 1) as u8) == (bc, s5));
        assert(binary_rest_m(ts, s5, abc, 0) == (abc, s5));
        assert(binary_rest_m(ts, s1, a, 0) == (abc, s5));
        assert(binary_m(ts, s0, 0) == (abc, s5));
        assert(assignment_m(ts, s0) == (abc, s5));
    } else {
        let ab = binary_ex(a, o1, b);
        let abc = binary_ex(ab, o2, c);
        assert(binary_rest_m(ts, s3, b, (p1 + 1) as u8) == (b, s3));
        assert(binary_m(ts, s2, (p1 + 1) as u8) == (b, s3));
        assert(binary_rest_m(ts, s5, c, (p2 + 1) as u8) == (c, s5));
        assert(binary_m(ts, s4, (p2 + 1) as u8) == (c, s5));
        assert(binary_rest_m(ts, s5, abc, 0) == (abc, s5));
        assert(binary_rest_m(ts, s3, ab, 0) == (abc, s5));
        assert(binary_rest_m(ts, s1, a, 0) == (abc, s5));
        assert(binary_m(ts, s0, 0) == (abc, s5));
        assert(assignment_m(ts, s0) == (abc, s5));
    }
}

} // verus!
