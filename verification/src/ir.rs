//! The intermediate representation: functions of basic blocks whose
//! instructions name their values, and the lowering of checked programs into it.
use vstd::prelude::*;
use crate::ast::{
    AssignmentOperator, BinaryOperator, Expression, ExpressionKind, FunctionDeclaration, ObjectProperty, Position,
    Program, Span, Statement, StatementKind, TypeKind, TypeNode, VariableDeclaration,
};
use crate::parser::{parse_source, parses_to, ParseOutput};
use crate::semantic::{analyze_parsed, analyzed, SemanticDiagnostic};
use crate::text::{push_str, string_from_chars};

verus! {

#[derive(Debug, PartialEq)]
pub struct IrProgram {
    pub functions: Vec<IrFunction>,
    pub entry: IrFunction,
    pub source_span: Option<Span>,
}

#[derive(Debug, PartialEq)]
pub struct IrFunction {
    pub name: String,
    pub params: Vec<IrParam>,
    pub return_type: IrType,
    pub blocks: Vec<IrBlock>,
    pub source_span: Span,
}

#[derive(Debug, PartialEq, Eq)]
pub struct IrParam {
    pub name: String,
    pub ty: IrType,
}

#[derive(Debug, PartialEq)]
pub struct IrBlock {
    pub id: BlockId,
    pub instructions: Vec<IrInstruction>,
}

#[derive(Debug, Copy, Clone, PartialEq, Eq, Structural)]
pub struct BlockId(pub usize);

#[derive(Debug, PartialEq)]
pub struct IrInstruction {
    pub kind: IrInstructionKind,
    pub result: Option<ValueId>,
    pub ty: IrType,
    pub source_span: Span,
}

#[derive(Debug, Copy, Clone, PartialEq, Eq, Structural)]
pub struct ValueId(pub usize);

#[derive(Debug, Clone, PartialEq)]
pub enum IrInstructionKind {
    LoadConst(IrConst),
    LoadLocal(String),
    StoreLocal(String, ValueId),
    LoadMember { object: ValueId, property: String },
    StoreMember { object: ValueId, property: String, value: ValueId },
    Binary { op: IrBinaryOp, left: ValueId, right: ValueId },
    Call { callee: String, args: Vec<ValueId> },
    Branch { condition: ValueId, then_block: BlockId, else_block: BlockId },
    Jump(BlockId),
    Return(Option<ValueId>),
}

#[derive(Debug, Clone, PartialEq)]
pub enum IrConst {
    Number(String),
    String(String),
    Boolean(bool),
    Null,
    Undefined,
    Object(Vec<(String, ValueId)>),
    Array(Vec<ValueId>),
}

#[derive(Debug, Copy, Clone, PartialEq, Eq, Structural)]
pub enum IrBinaryOp {
    Add,
    Subtract,
    Multiply,
    Divide,
    Remainder,
    Equal,
    StrictEqual,
    NotEqual,
    StrictNotEqual,
    Less,
    LessEqual,
    Greater,
    GreaterEqual,
    LogicalAnd,
    LogicalOr,
    NullishCoalesce,
}

#[derive(Debug, PartialEq, Eq)]
pub enum IrType {
    Number,
    String,
    Boolean,
    Null,
    Undefined,
    Object(Vec<(String, IrType)>),
    Array(Box<IrType>),
    Named(String),
    Unknown,
}

#[derive(Debug, PartialEq)]
pub struct LoweredProgram {
    pub ir: Option<IrProgram>,
    pub diagnostics: Vec<SemanticDiagnostic>,
}

/// An IR type as a value.
pub enum IrTypeModel {
    Number,
    String,
    Boolean,
    Null,
    Undefined,
    Object(Seq<(Seq<char>, IrTypeModel)>),
    Array(Box<IrTypeModel>),
    Named(Seq<char>),
    Unknown,
}

impl View for IrType {
    type V = IrTypeModel;

    open spec fn view(&self) -> IrTypeModel {
        ir_model(*self)
    }
}

pub open spec fn ir_model(t: IrType) -> IrTypeModel
    decreases t,
{
    match t {
        IrType::Number => IrTypeModel::Number,
        IrType::String => IrTypeModel::String,
        IrType::Boolean => IrTypeModel::Boolean,
        IrType::Null => IrTypeModel::Null,
        IrType::Undefined => IrTypeModel::Undefined,
        IrType::Object(fields) => IrTypeModel::Object(ir_fields(fields@)),
        IrType::Array(inner) => IrTypeModel::Array(Box::new(ir_model(*inner))),
        IrType::Named(name) => IrTypeModel::Named(name@),
        IrType::Unknown => IrTypeModel::Unknown,
    }
}

/// Each member's name with the IR type of its annotation.
pub open spec fn member_types(members: Seq<crate::ast::TypeMember>) -> Seq<(Seq<char>, IrTypeModel)>
    decreases members,
{
    Seq::new(
        members.len(),
        |i: int|
            (
                members[i].name@,
                if 0 <= i < members.len() {
                    annotation_type(members[i].ty)
                } else {
                    IrTypeModel::Unknown
                },
            ),
    )
}

/// The fields of an object type as values.
pub open spec fn ir_fields(fields: Seq<(String, IrType)>) -> Seq<(Seq<char>, IrTypeModel)>
    decreases fields,
{
    Seq::new(
        fields.len(),
        |i: int|
            (
                fields[i].0@,
                if 0 <= i < fields.len() {
                    ir_model(fields[i].1)
                } else {
                    IrTypeModel::Unknown
                },
            ),
    )
}

/// The IR type of a type annotation.
pub open spec fn annotation_type(t: TypeNode) -> IrTypeModel
    decreases t,
{
    match t.kind {
        TypeKind::Number => IrTypeModel::Number,
        TypeKind::String => IrTypeModel::String,
        TypeKind::Boolean => IrTypeModel::Boolean,
        TypeKind::Null => IrTypeModel::Null,
        TypeKind::Undefined => IrTypeModel::Undefined,
        TypeKind::Named(name) => IrTypeModel::Named(name@),
        TypeKind::Array(inner) => IrTypeModel::Array(Box::new(annotation_type(*inner))),
        TypeKind::Object(members) => IrTypeModel::Object(member_types(members@)),
    }
}

/// The type of the first field named `name`.
pub open spec fn first_field(fields: Seq<(Seq<char>, IrTypeModel)>, name: Seq<char>) -> Option<IrTypeModel>
    decreases fields.len(),
{
    if fields.len() == 0 {
        None
    } else if fields[0].0 == name {
        Some(fields[0].1)
    } else {
        first_field(fields.drop_first(), name)
    }
}

/// The type a member access reads from a value of type `object`.
pub open spec fn ir_member_type(object: IrTypeModel, property: Seq<char>) -> IrTypeModel {
    match object {
        IrTypeModel::Object(fields) => match first_field(fields, property) {
            Some(t) => t,
            None => IrTypeModel::Unknown,
        },
        _ => IrTypeModel::Unknown,
    }
}

/// The IR type of a binary operation's result.
pub open spec fn binary_ir_type(op: BinaryOperator) -> IrTypeModel {
    match op {
        BinaryOperator::Add | BinaryOperator::Subtract | BinaryOperator::Multiply | BinaryOperator::Divide
        | BinaryOperator::Remainder => IrTypeModel::Number,
        BinaryOperator::NullishCoalesce => IrTypeModel::Unknown,
        _ => IrTypeModel::Boolean,
    }
}

pub open spec fn first_known(types: Seq<IrTypeModel>) -> IrTypeModel
    decreases types.len(),
{
    if types.len() == 0 {
        IrTypeModel::Unknown
    } else if types[0] is Unknown {
        first_known(types.drop_first())
    } else {
        types[0]
    }
}

/// The local variables of a function being lowered, with their types.
pub type Locals = Seq<(Seq<char>, IrTypeModel)>;

/// Each property's name with the IR type of its value.
pub open spec fn prop_value_types(locals: Locals, props: Seq<crate::ast::ObjectProperty>) -> Seq<
    (Seq<char>, IrTypeModel),
>
    decreases props,
{
    Seq::new(
        props.len(),
        |i: int|
            (
                props[i].name@,
                if 0 <= i < props.len() {
                    value_type(locals, props[i].value)
                } else {
                    IrTypeModel::Unknown
                },
            ),
    )
}

/// The IR type of each element.
pub open spec fn elem_value_types(locals: Locals, elems: Seq<Expression>) -> Seq<IrTypeModel>
    decreases elems,
{
    Seq::new(
        elems.len(),
        |i: int|
            if 0 <= i < elems.len() {
                value_type(locals, elems[i])
            } else {
                IrTypeModel::Unknown
            },
    )
}

/// The IR type lowering gives the value of `e`, with the locals `locals`.
pub open spec fn value_type(locals: Locals, e: Expression) -> IrTypeModel
    decreases e,
{
    match e.kind {
        ExpressionKind::Identifier(name) => match first_field(locals, name@) {
            Some(t) => t,
            None => IrTypeModel::Unknown,
        },
        ExpressionKind::Number(_) => IrTypeModel::Number,
        ExpressionKind::String(_) => IrTypeModel::String,
        ExpressionKind::Boolean(_) => IrTypeModel::Boolean,
        ExpressionKind::Null => IrTypeModel::Null,
        ExpressionKind::Undefined => IrTypeModel::Undefined,
        ExpressionKind::Object(props) => IrTypeModel::Object(prop_value_types(locals, props@)),
        ExpressionKind::Array(elems) => IrTypeModel::Array(Box::new(first_known(elem_value_types(locals, elems@)))),
        ExpressionKind::Member { object, property } => ir_member_type(value_type(locals, *object), property@),
        ExpressionKind::Call { .. } => IrTypeModel::Unknown,
        ExpressionKind::Unary { argument, .. } => value_type(locals, *argument),
        ExpressionKind::Binary { operator, .. } => binary_ir_type(operator),
        ExpressionKind::Assignment { right, .. } => value_type(locals, *right),
        ExpressionKind::Error => IrTypeModel::Unknown,
    }
}

fn clone_ir_type(t: &IrType) -> (c: IrType)
    ensures
        c@ == t@,
    decreases t,
{
    match t {
        IrType::Number => IrType::Number,
        IrType::String => IrType::String,
        IrType::Boolean => IrType::Boolean,
        IrType::Null => IrType::Null,
        IrType::Undefined => IrType::Undefined,
        IrType::Unknown => IrType::Unknown,
        IrType::Named(name) => IrType::Named(name.clone()),
        IrType::Array(inner) => IrType::Array(Box::new(clone_ir_type(inner))),
        IrType::Object(fields) => {
            let mut out: Vec<(String, IrType)> = Vec::new();
            let mut i: usize = 0;
            while i < fields.len()
                invariant
                    i <= fields.len(),
                    out@.len() == i,
                    *t == IrType::Object(*fields),
                    forall|j: int| 0 <= j < i ==> out@[j].0@ == fields@[j].0@ && ir_model(#[trigger] out@[j].1) == ir_model(fields@[j].1),
                decreases fields.len() - i,
            {
                assert(decreases_to!(*t => (*t)->Object_0));
                assert(decreases_to!(*fields => fields@));
                assert(decreases_to!(fields@ => fields@[i as int]));
                assert(decreases_to!(fields@[i as int] => fields@[i as int].1));
                let ft = clone_ir_type(&fields[i].1);
                out.push((fields[i].0.clone(), ft));
                i += 1;
            }
            let c = IrType::Object(out);
            assert(ir_fields(out@) =~= ir_fields(fields@));
            c
        },
    }
}

fn is_unknown_type(t: &IrType) -> (b: bool)
    ensures
        b == (t@ is Unknown),
{
    match t {
        IrType::Unknown => true,
        _ => false,
    }
}

/// The IR type of a type annotation.
fn type_from_node(ty: &TypeNode) -> (t: IrType)
    ensures
        t@ == annotation_type(*ty),
    decreases ty,
{
    match &ty.kind {
        TypeKind::Number => IrType::Number,
        TypeKind::String => IrType::String,
        TypeKind::Boolean => IrType::Boolean,
        TypeKind::Null => IrType::Null,
        TypeKind::Undefined => IrType::Undefined,
        TypeKind::Named(name) => IrType::Named(name.clone()),
        TypeKind::Array(inner) => IrType::Array(Box::new(type_from_node(inner))),
        TypeKind::Object(members) => {
            let mut out: Vec<(String, IrType)> = Vec::new();
            let mut i: usize = 0;
            while i < members.len()
                invariant
                    i <= members.len(),
                    out@.len() == i,
                    ty.kind == TypeKind::Object(*members),
                    forall|j: int| 0 <= j < i ==> out@[j].0@ == members@[j].name@ && ir_model(#[trigger] out@[j].1)
                        == annotation_type(members@[j].ty),
                decreases members.len() - i,
            {
                assert(decreases_to!(*ty => ty.kind));
                assert(decreases_to!(ty.kind => (ty.kind)->Object_0));
                assert(decreases_to!(*members => members@));
                assert(decreases_to!(members@ => members@[i as int]));
                assert(decreases_to!(members@[i as int] => members@[i as int].ty));
                let mt = type_from_node(&members[i].ty);
                out.push((members[i].name.clone(), mt));
                i += 1;
            }
            let c = IrType::Object(out);
            assert(ir_fields(out@) =~= member_types(members@));
            c
        },
    }
}

/// The type of the first field of `object_type` named `property`, or unknown.
fn member_type(object_type: &IrType, property: &str) -> (t: IrType)
    ensures
        t@ == ir_member_type(object_type@, property@),
{
    match object_type {
        IrType::Object(fields) => {
            let ghost fm = ir_fields(fields@);
            assert(object_type@ == IrTypeModel::Object(fm));
            assert(fm.skip(0) =~= fm);
            let mut i: usize = 0;
            while i < fields.len()
                invariant
                    i <= fields.len(),
                    fm.len() == fields@.len(),
                    *object_type == IrType::Object(*fields),
                    fm == ir_fields(fields@),
                    forall|j: int| 0 <= j < fields@.len() ==> #[trigger] fm[j] == (fields@[j].0@, ir_model(fields@[j].1)),
                    first_field(fm, property@) == first_field(fm.skip(i as int), property@),
                decreases fields.len() - i,
            {
                let ghost rest = fm.skip(i as int);
                assert(rest.drop_first() =~= fm.skip(i + 1));
                assert(rest[0] == fm[i as int]);
                if crate::text::str_eq(fields[i].0.as_str(), property) {
                    assert(rest.len() > 0 && rest[0].0 == property@);
                    assert(first_field(rest, property@) == Some(fm[i as int].1));
                    assert(object_type@ == IrTypeModel::Object(fm));
                    return clone_ir_type(&fields[i].1);
                }
                i += 1;
            }
            assert(fm.skip(i as int) =~= Seq::<(Seq<char>, IrTypeModel)>::empty());
            IrType::Unknown
        },
        _ => IrType::Unknown,
    }
}

/// The name a call is made through: a name, or a dotted member path.
fn callee_name(e: &Expression) -> (name: String)
    ensures
        name@ == callee_text(*e),
    decreases e,
{
    match &e.kind {
        ExpressionKind::Identifier(name) => name.clone(),
        ExpressionKind::Member { object, property } => {
            let base = callee_name(object);
            let mut out: Vec<char> = Vec::new();
            push_str(&mut out, base.as_str());
            push_str(&mut out, ".");
            push_str(&mut out, property.as_str());
            proof {
                reveal_strlit(".");
            }
            string_from_chars(out)
        },
        _ => "<expr>".to_owned(),
    }
}

/// How a binary operator is written in TypeScript source.
pub open spec fn operator_symbol(op: BinaryOperator) -> Seq<char> {
    match op {
        BinaryOperator::Add => "+"@,
        BinaryOperator::Subtract => "-"@,
        BinaryOperator::Multiply => "*"@,
        BinaryOperator::Divide => "/"@,
        BinaryOperator::Remainder => "%"@,
        BinaryOperator::Equal => "=="@,
        BinaryOperator::StrictEqual => "==="@,
        BinaryOperator::NotEqual => "!="@,
        BinaryOperator::StrictNotEqual => "!=="@,
        BinaryOperator::Less => "<"@,
        BinaryOperator::LessEqual => "<="@,
        BinaryOperator::Greater => ">"@,
        BinaryOperator::GreaterEqual => ">="@,
        BinaryOperator::LogicalAnd => "&&"@,
        BinaryOperator::LogicalOr => "||"@,
        BinaryOperator::NullishCoalesce => "??"@,
    }
}

/// The TypeScript operator whose operation an IR binary operator performs.
pub open spec fn ir_operator_symbol(op: IrBinaryOp) -> Seq<char> {
    match op {
        IrBinaryOp::Add => "+"@,
        IrBinaryOp::Subtract => "-"@,
        IrBinaryOp::Multiply => "*"@,
        IrBinaryOp::Divide => "/"@,
        IrBinaryOp::Remainder => "%"@,
        IrBinaryOp::Equal => "=="@,
        IrBinaryOp::StrictEqual => "==="@,
        IrBinaryOp::NotEqual => "!="@,
        IrBinaryOp::StrictNotEqual => "!=="@,
        IrBinaryOp::Less => "<"@,
        IrBinaryOp::LessEqual => "<="@,
        IrBinaryOp::Greater => ">"@,
        IrBinaryOp::GreaterEqual => ">="@,
        IrBinaryOp::LogicalAnd => "&&"@,
        IrBinaryOp::LogicalOr => "||"@,
        IrBinaryOp::NullishCoalesce => "??"@,
    }
}

/// Lowering keeps each binary operator: the IR operator that a source
/// operator lowers to performs the operation written with the same symbol,
/// and no two source operators lower to the same IR operator.
pub proof fn law_lowering_keeps_binary_operators(a: BinaryOperator, b: BinaryOperator)
    ensures
        ir_operator_symbol(spec_binary_op(a)) == operator_symbol(a),
        spec_binary_op(a) == spec_binary_op(b) ==> a == b,
{
}

pub open spec fn spec_binary_op(op: BinaryOperator) -> IrBinaryOp {
    match op {
        BinaryOperator::Add => IrBinaryOp::Add,
        BinaryOperator::Subtract => IrBinaryOp::Subtract,
        BinaryOperator::Multiply => IrBinaryOp::Multiply,
        BinaryOperator::Divide => IrBinaryOp::Divide,
        BinaryOperator::Remainder => IrBinaryOp::Remainder,
        BinaryOperator::Equal => IrBinaryOp::Equal,
        BinaryOperator::StrictEqual => IrBinaryOp::StrictEqual,
        BinaryOperator::NotEqual => IrBinaryOp::NotEqual,
        BinaryOperator::StrictNotEqual => IrBinaryOp::StrictNotEqual,
        BinaryOperator::Less => IrBinaryOp::Less,
        BinaryOperator::LessEqual => IrBinaryOp::LessEqual,
        BinaryOperator::Greater => IrBinaryOp::Greater,
        BinaryOperator::GreaterEqual => IrBinaryOp::GreaterEqual,
        BinaryOperator::LogicalAnd => IrBinaryOp::LogicalAnd,
        BinaryOperator::LogicalOr => IrBinaryOp::LogicalOr,
        BinaryOperator::NullishCoalesce => IrBinaryOp::NullishCoalesce,
    }
}

fn binary_op(op: BinaryOperator) -> (r: IrBinaryOp)
    ensures
        r == spec_binary_op(op),
{
    match op {
        BinaryOperator::Add => IrBinaryOp::Add,
        BinaryOperator::Subtract => IrBinaryOp::Subtract,
        BinaryOperator::Multiply => IrBinaryOp::Multiply,
        BinaryOperator::Divide => IrBinaryOp::Divide,
        BinaryOperator::Remainder => IrBinaryOp::Remainder,
        BinaryOperator::Equal => IrBinaryOp::Equal,
        BinaryOperator::StrictEqual => IrBinaryOp::StrictEqual,
        BinaryOperator::NotEqual => IrBinaryOp::NotEqual,
        BinaryOperator::StrictNotEqual => IrBinaryOp::StrictNotEqual,
        BinaryOperator::Less => IrBinaryOp::Less,
        BinaryOperator::LessEqual => IrBinaryOp::LessEqual,
        BinaryOperator::Greater => IrBinaryOp::Greater,
        BinaryOperator::GreaterEqual => IrBinaryOp::GreaterEqual,
        BinaryOperator::LogicalAnd => IrBinaryOp::LogicalAnd,
        BinaryOperator::LogicalOr => IrBinaryOp::LogicalOr,
        BinaryOperator::NullishCoalesce => IrBinaryOp::NullishCoalesce,
    }
}

fn binary_type(op: BinaryOperator) -> (t: IrType)
    ensures
        t@ == binary_ir_type(op),
{
    match op {
        BinaryOperator::Add | BinaryOperator::Subtract | BinaryOperator::Multiply | BinaryOperator::Divide
        | BinaryOperator::Remainder => IrType::Number,
        BinaryOperator::NullishCoalesce => IrType::Unknown,
        _ => IrType::Boolean,
    }
}

/// The operation a compound assignment applies (`+=` adds, and so on).
fn assignment_binary_op(op: AssignmentOperator) -> (r: IrBinaryOp)
    ensures
        r == spec_assignment_op(op),
{
    match op {
        AssignmentOperator::Assign => IrBinaryOp::Add,
        AssignmentOperator::AddAssign => IrBinaryOp::Add,
        AssignmentOperator::SubtractAssign => IrBinaryOp::Subtract,
        AssignmentOperator::MultiplyAssign => IrBinaryOp::Multiply,
        AssignmentOperator::DivideAssign => IrBinaryOp::Divide,
        AssignmentOperator::RemainderAssign => IrBinaryOp::Remainder,
    }
}

/// The span at the very start of a source: byte 0, line 1, column 1.
pub open spec fn start_span() -> Span {
    Span { start: Position { byte: 0, line: 1, column: 1 }, end: Position { byte: 0, line: 1, column: 1 } }
}

fn empty_span() -> (s: Span)
    ensures
        s == start_span(),
{
    let position = Position { byte: 0, line: 1, column: 1 };
    Span { start: position, end: position }
}

/// The blocks of `f` are numbered by their position.
pub open spec fn blocks_numbered(blocks: Seq<IrBlock>) -> bool {
    forall|i: int| 0 <= i < blocks.len() ==> (#[trigger] blocks[i]).id.0 == i
}

struct FunctionLowerer {
    name: String,
    params: Vec<IrParam>,
    return_type: IrType,
    blocks: Vec<IrBlock>,
    current_block: usize,
    next_value: usize,
    locals: Vec<(String, IrType)>,
    source_span: Span,
}

/// The text of the name a call is made through.
pub open spec fn callee_text(e: Expression) -> Seq<char>
    decreases e,
{
    match e.kind {
        ExpressionKind::Identifier(name) => name@,
        ExpressionKind::Member { object, property } => callee_text(*object) + "."@ + property@,
        _ => "<expr>"@,
    }
}

/// The operation of a compound assignment.
pub open spec fn spec_assignment_op(op: AssignmentOperator) -> IrBinaryOp {
    match op {
        AssignmentOperator::Assign => IrBinaryOp::Add,
        AssignmentOperator::AddAssign => IrBinaryOp::Add,
        AssignmentOperator::SubtractAssign => IrBinaryOp::Subtract,
        AssignmentOperator::MultiplyAssign => IrBinaryOp::Multiply,
        AssignmentOperator::DivideAssign => IrBinaryOp::Divide,
        AssignmentOperator::RemainderAssign => IrBinaryOp::Remainder,
    }
}

/// A constant operand as a value.
pub enum IrConstModel {
    Number(Seq<char>),
    String(Seq<char>),
    Boolean(bool),
    Null,
    Undefined,
    Object(Seq<(Seq<char>, nat)>),
    Array(Seq<nat>),
}

/// An instruction's operation as a value; values and blocks by number.
pub enum IrKindModel {
    LoadConst(IrConstModel),
    LoadLocal(Seq<char>),
    StoreLocal(Seq<char>, nat),
    LoadMember(nat, Seq<char>),
    StoreMember(nat, Seq<char>, nat),
    Binary(IrBinaryOp, nat, nat),
    Call(Seq<char>, Seq<nat>),
    Branch(nat, nat, nat),
    Jump(nat),
    Return(Option<nat>),
}

/// An instruction as a value: its operation, the value it defines, its type and its span.
pub struct InstrModel {
    pub kind: IrKindModel,
    pub result: Option<nat>,
    pub ty: IrTypeModel,
    pub span: Span,
}

pub open spec fn const_model(c: IrConst) -> IrConstModel {
    match c {
        IrConst::Number(s) => IrConstModel::Number(s@),
        IrConst::String(s) => IrConstModel::String(s@),
        IrConst::Boolean(b) => IrConstModel::Boolean(b),
        IrConst::Null => IrConstModel::Null,
        IrConst::Undefined => IrConstModel::Undefined,
        IrConst::Object(values) => IrConstModel::Object(
            values@.map_values(|p: (String, ValueId)| (p.0@, p.1.0 as nat)),
        ),
        IrConst::Array(values) => IrConstModel::Array(values@.map_values(|v: ValueId| v.0 as nat)),
    }
}

pub open spec fn kind_model(k: IrInstructionKind) -> IrKindModel {
    match k {
        IrInstructionKind::LoadConst(c) => IrKindModel::LoadConst(const_model(c)),
        IrInstructionKind::LoadLocal(name) => IrKindModel::LoadLocal(name@),
        IrInstructionKind::StoreLocal(name, v) => IrKindModel::StoreLocal(name@, v.0 as nat),
        IrInstructionKind::LoadMember { object, property } => IrKindModel::LoadMember(object.0 as nat, property@),
        IrInstructionKind::StoreMember { object, property, value } => IrKindModel::StoreMember(
            object.0 as nat,
            property@,
            value.0 as nat,
        ),
        IrInstructionKind::Binary { op, left, right } => IrKindModel::Binary(op, left.0 as nat, right.0 as nat),
        IrInstructionKind::Call { callee, args } => IrKindModel::Call(callee@, args@.map_values(|v: ValueId| v.0 as nat)),
        IrInstructionKind::Branch { condition, then_block, else_block } => IrKindModel::Branch(
            condition.0 as nat,
            then_block.0 as nat,
            else_block.0 as nat,
        ),
        IrInstructionKind::Jump(b) => IrKindModel::Jump(b.0 as nat),
        IrInstructionKind::Return(v) => IrKindModel::Return(
            match v {
                Some(v) => Some(v.0 as nat),
                None => None,
            },
        ),
    }
}

pub open spec fn instr_model(i: IrInstruction) -> InstrModel {
    InstrModel {
        kind: kind_model(i.kind),
        result: match i.result {
            Some(v) => Some(v.0 as nat),
            None => None,
        },
        ty: i.ty@,
        span: i.source_span,
    }
}

/// A block's instructions as values.
pub open spec fn code_of(instructions: Seq<IrInstruction>) -> Seq<InstrModel> {
    instructions.map_values(|i: IrInstruction| instr_model(i))
}

/// The value number after `next`: numbers stop at `usize::MAX`.
pub open spec fn bump(next: nat) -> nat {
    if next < usize::MAX {
        next + 1
    } else {
        next
    }
}

/// An instruction that defines the value `v`.
pub open spec fn defining(kind: IrKindModel, v: nat, ty: IrTypeModel, span: Span) -> InstrModel {
    InstrModel { kind, result: Some(v), ty, span }
}

/// An instruction that defines no value.
pub open spec fn effect(kind: IrKindModel, ty: IrTypeModel, span: Span) -> InstrModel {
    InstrModel { kind, result: None, ty, span }
}

/// What lowering `e` emits into the current block, with the locals `locals`
/// and the values from `next` on free: the instructions, the value that
/// holds `e`, and the next free value.
pub open spec fn expr_code(locals: Locals, e: Expression, next: nat) -> (Seq<InstrModel>, nat, nat)
    decreases e, 0nat,
{
    match e.kind {
        ExpressionKind::Identifier(name) => (
            seq![defining(IrKindModel::LoadLocal(name@), next, value_type(locals, e), e.span)],
            next,
            bump(next),
        ),
        ExpressionKind::Number(s) => (
            seq![defining(IrKindModel::LoadConst(IrConstModel::Number(s@)), next, IrTypeModel::Number, e.span)],
            next,
            bump(next),
        ),
        ExpressionKind::String(s) => (
            seq![defining(IrKindModel::LoadConst(IrConstModel::String(s@)), next, IrTypeModel::String, e.span)],
            next,
            bump(next),
        ),
        ExpressionKind::Boolean(b) => (
            seq![defining(IrKindModel::LoadConst(IrConstModel::Boolean(b)), next, IrTypeModel::Boolean, e.span)],
            next,
            bump(next),
        ),
        ExpressionKind::Null => (
            seq![defining(IrKindModel::LoadConst(IrConstModel::Null), next, IrTypeModel::Null, e.span)],
            next,
            bump(next),
        ),
        ExpressionKind::Undefined => (
            seq![defining(IrKindModel::LoadConst(IrConstModel::Undefined), next, IrTypeModel::Undefined, e.span)],
            next,
            bump(next),
        ),
        ExpressionKind::Object(props) => {
            let (code, values, after) = props_code(locals, props@, props@.len() as int, next);
            (
                code.push(defining(IrKindModel::LoadConst(IrConstModel::Object(values)), after, value_type(locals, e), e.span)),
                after,
                bump(after),
            )
        },
        ExpressionKind::Array(elems) => {
            let (code, values, after) = exprs_code(locals, elems@, elems@.len() as int, next);
            (
                code.push(defining(IrKindModel::LoadConst(IrConstModel::Array(values)), after, value_type(locals, e), e.span)),
                after,
                bump(after),
            )
        },
        ExpressionKind::Member { object, property } => {
            let (code, object_value, after) = expr_code(locals, *object, next);
            (
                code.push(defining(IrKindModel::LoadMember(object_value, property@), after, value_type(locals, e), e.span)),
                after,
                bump(after),
            )
        },
        ExpressionKind::Call { callee, arguments } => {
            let (code, values, after) = exprs_code(locals, arguments@, arguments@.len() as int, next);
            (
                code.push(defining(IrKindModel::Call(callee_text(*callee), values), after, IrTypeModel::Unknown, e.span)),
                after,
                bump(after),
            )
        },
        ExpressionKind::Binary { left, operator, right } => {
            let (left_code, left_value, n1) = expr_code(locals, *left, next);
            let (right_code, right_value, n2) = expr_code(locals, *right, n1);
            (
                left_code + right_code.push(
                    defining(IrKindModel::Binary(spec_binary_op(operator), left_value, right_value), n2, binary_ir_type(operator), e.span),
                ),
                n2,
                bump(n2),
            )
        },
        ExpressionKind::Assignment { left, operator, right } => match left.kind {
            ExpressionKind::Identifier(name) => {
                let (code, value, after) = expr_code(locals, *right, next);
                (code.push(effect(IrKindModel::StoreLocal(name@, value), value_type(locals, *right), e.span)), value, after)
            },
            ExpressionKind::Member { object, property } => {
                let (object_code, object_value, n1) = expr_code(locals, *object, next);
                let (right_code, right_value, n2) = expr_code(locals, *right, n1);
                let ty = value_type(locals, *right);
                if operator == AssignmentOperator::Assign {
                    (
                        object_code + right_code.push(effect(IrKindModel::StoreMember(object_value, property@, right_value), ty, e.span)),
                        right_value,
                        n2,
                    )
                } else {
                    let current = n2;
                    let result = bump(n2);
                    (
                        object_code + right_code + seq![
                            defining(IrKindModel::LoadMember(object_value, property@), current, ty, left.span),
                            defining(IrKindModel::Binary(spec_assignment_op(operator), current, right_value), result, ty, e.span),
                            effect(IrKindModel::StoreMember(object_value, property@, result), ty, e.span),
                        ],
                        result,
                        bump(result),
                    )
                }
            },
            _ => expr_code(locals, *right, next),
        },
        ExpressionKind::Unary { argument, .. } => expr_code(locals, *argument, next),
        ExpressionKind::Error => (
            seq![defining(IrKindModel::LoadConst(IrConstModel::Undefined), next, IrTypeModel::Unknown, e.span)],
            next,
            bump(next),
        ),
    }
}

/// What lowering the first `n` expressions of `es` emits, one after the
/// other: the instructions, the value holding each, and the next free value.
pub open spec fn exprs_code(locals: Locals, es: Seq<Expression>, n: int, next: nat) -> (Seq<InstrModel>, Seq<nat>, nat)
    decreases es, n,
{
    if n <= 0 || n > es.len() {
        (Seq::empty(), Seq::empty(), next)
    } else {
        let (code, values, after) = exprs_code(locals, es, n - 1, next);
        let (last_code, last_value, last_after) = expr_code(locals, es[n - 1], after);
        (code + last_code, values.push(last_value), last_after)
    }
}

/// What lowering the values of the first `n` properties emits: the
/// instructions, each property's name with the value holding it, and the
/// next free value.
pub open spec fn props_code(locals: Locals, props: Seq<ObjectProperty>, n: int, next: nat) -> (
    Seq<InstrModel>,
    Seq<(Seq<char>, nat)>,
    nat,
)
    decreases props, n,
{
    if n <= 0 || n > props.len() {
        (Seq::empty(), Seq::empty(), next)
    } else {
        let (code, values, after) = props_code(locals, props, n - 1, next);
        let (last_code, last_value, last_after) = expr_code(locals, props[n - 1].value, after);
        (code + last_code, values.push((props[n - 1].name@, last_value)), last_after)
    }
}

/// Lowering in progress as a value: the instructions of each block, the
/// block being filled, the next free value, and the locals with their types.
pub struct LowerState {
    pub blocks: Seq<Seq<InstrModel>>,
    pub current: int,
    pub next: nat,
    pub locals: Locals,
}

/// `st` with `code` appended to the current block and `next` the next free value.
pub open spec fn with_code(st: LowerState, code: Seq<InstrModel>, next: nat) -> LowerState {
    LowerState { blocks: st.blocks.update(st.current, st.blocks[st.current] + code), next, ..st }
}

/// `st` with `i` appended to the current block.
pub open spec fn emit_in(st: LowerState, i: InstrModel) -> LowerState {
    with_code(st, seq![i], st.next)
}

/// `st` after lowering `e`, and the value holding `e`.
pub open spec fn expr_in(st: LowerState, e: Expression) -> (LowerState, nat) {
    let c = expr_code(st.locals, e, st.next);
    (with_code(st, c.0, c.2), c.1)
}

/// `st` after lowering the declaration `v` of the statement at `span`.
pub open spec fn variable_in(st: LowerState, v: VariableDeclaration, span: Span) -> LowerState {
    let declared = match v.ty {
        Some(t) => annotation_type(t),
        None => IrTypeModel::Unknown,
    };
    let (st1, value, ty) = match v.initializer {
        Some(e) => {
            let (x, value) = expr_in(st, e);
            (x, value, value_type(st.locals, e))
        },
        None => (
            with_code(
                st,
                seq![defining(IrKindModel::LoadConst(IrConstModel::Undefined), st.next, IrTypeModel::Undefined, span)],
                bump(st.next),
            ),
            st.next,
            IrTypeModel::Undefined,
        ),
    };
    let local_type = if declared is Unknown {
        ty
    } else {
        declared
    };
    let st2 = LowerState { locals: set_field(st1.locals, v.name@, local_type), ..st1 };
    emit_in(st2, effect(IrKindModel::StoreLocal(v.name@, value), local_type, span))
}

/// `st` after lowering the statement `s`: an `if` adds a then, an else and
/// a merge block after the others and goes on in the merge block; loops,
/// declarations of types, functions and classes, and imports emit nothing.
pub open spec fn stmt_in(st: LowerState, s: Statement) -> LowerState
    decreases s, 0nat,
{
    match s.kind {
        StatementKind::Variable(v) => variable_in(st, v, s.span),
        StatementKind::Return(value) => match value {
            Some(e) => {
                let (st1, v) = expr_in(st, e);
                emit_in(st1, effect(IrKindModel::Return(Some(v)), IrTypeModel::Undefined, s.span))
            },
            None => emit_in(st, effect(IrKindModel::Return(None), IrTypeModel::Undefined, s.span)),
        },
        StatementKind::Expression(e) => expr_in(st, e).0,
        StatementKind::Throw(e) => expr_in(st, e).0,
        StatementKind::If(i) => {
            let (st1, condition) = expr_in(st, i.test);
            let then_block = st1.blocks.len();
            let st2 = LowerState { blocks: st1.blocks + seq![Seq::empty(), Seq::empty(), Seq::empty()], ..st1 };
            let st3 = emit_in(
                st2,
                effect(IrKindModel::Branch(condition, then_block, then_block + 1), IrTypeModel::Undefined, i.test.span),
            );
            let st4 = stmt_in(LowerState { current: then_block as int, ..st3 }, *i.consequent);
            let st5 = emit_in(st4, effect(IrKindModel::Jump(then_block + 2), IrTypeModel::Undefined, s.span));
            let st6 = LowerState { current: then_block + 1int, ..st5 };
            let st7 = match i.alternate {
                Some(a) => stmt_in(st6, *a),
                None => st6,
            };
            let st8 = emit_in(st7, effect(IrKindModel::Jump(then_block + 2), IrTypeModel::Undefined, s.span));
            LowerState { current: then_block + 2int, ..st8 }
        },
        StatementKind::Block(body) => stmts_in(st, body@, body@.len() as int),
        StatementKind::Export(inner) => stmt_in(st, *inner),
        _ => st,
    }
}

/// `st` after lowering the first `n` statements of `ss`, in order.
pub open spec fn stmts_in(st: LowerState, ss: Seq<Statement>, n: int) -> LowerState
    decreases ss, n,
{
    if n <= 0 || n > ss.len() {
        st
    } else {
        stmt_in(stmts_in(st, ss, n - 1), ss[n - 1])
    }
}

/// `locals` after giving each of the first `n` `(name, type)` pairs its type, in order.
pub open spec fn set_fields(locals: Locals, pairs: Locals, n: int) -> Locals
    decreases n,
{
    if n <= 0 || n > pairs.len() {
        locals
    } else {
        let before = set_fields(locals, pairs, n - 1);
        set_field(before, pairs[n - 1].0, pairs[n - 1].1)
    }
}

/// Each parameter's name with the IR type of its annotation (`Unknown` without one).
pub open spec fn param_types(params: Seq<crate::ast::Parameter>) -> Locals {
    params.map_values(
        |p: crate::ast::Parameter|
            (
                p.name@,
                match p.ty {
                    Some(t) => annotation_type(t),
                    None => IrTypeModel::Unknown,
                },
            ),
    )
}

/// The IR parameters as `(name, type)` pairs.
pub open spec fn param_models(params: Seq<IrParam>) -> Locals {
    params.map_values(|p: IrParam| (p.name@, p.ty@))
}

/// Where lowering a function with parameters `params` starts: one empty
/// block, no values used, and the parameters as locals.
pub open spec fn start_state(params: Locals) -> LowerState {
    LowerState {
        blocks: seq![Seq::empty()],
        current: 0,
        next: 0,
        locals: set_fields(Seq::empty(), params, params.len() as int),
    }
}

/// The instructions of each block of the IR function for `f`.
pub open spec fn function_code(f: FunctionDeclaration) -> Seq<Seq<InstrModel>> {
    let params = param_types(f.params@);
    stmts_in(start_state(params), f.body@, f.body@.len() as int).blocks
}

/// The instructions of each block of `f`.
pub open spec fn blocks_code(f: IrFunction) -> Seq<Seq<InstrModel>> {
    f.blocks@.map_values(|b: IrBlock| code_of(b.instructions@))
}

/// `f` is the IR function of the declaration `d` at `span`.
pub open spec fn lowers_function(f: IrFunction, d: FunctionDeclaration, span: Span) -> bool {
    &&& f.name@ == d.name@
    &&& param_models(f.params@) == param_types(d.params@)
    &&& f.return_type@ == match d.return_type {
        Some(t) => annotation_type(t),
        None => IrTypeModel::Undefined,
    }
    &&& blocks_code(f) == function_code(d)
    &&& blocks_numbered(f.blocks@)
    &&& f.source_span == span
}

/// The function declarations among the first `n` top-level statements, with their spans.
pub open spec fn declared_functions(body: Seq<Statement>, n: int) -> Seq<(FunctionDeclaration, Span)>
    decreases n,
{
    if n <= 0 || n > body.len() {
        Seq::empty()
    } else {
        let before = declared_functions(body, n - 1);
        match body[n - 1].kind {
            StatementKind::Function(f) => before.push((f, body[n - 1].span)),
            _ => before,
        }
    }
}

/// The span of the entry function of `program`: the program's, or the
/// start of the source for an empty program.
pub open spec fn entry_span(program: Program) -> Span {
    match program.span {
        Some(span) => span,
        None => start_span(),
    }
}

/// The instructions of each block of the entry function of `program`: its
/// statements lowered in order (type and function declarations emit
/// nothing), then a return without a value.
pub open spec fn entry_code(program: Program) -> Seq<Seq<InstrModel>> {
    let st = stmts_in(start_state(Seq::empty()), program.body@, program.body@.len() as int);
    emit_in(st, effect(IrKindModel::Return(None), IrTypeModel::Undefined, entry_span(program))).blocks
}

/// The position of the first local named `name`.
pub open spec fn field_index(fields: Locals, name: Seq<char>) -> Option<int>
    decreases fields.len(),
{
    if fields.len() == 0 {
        None
    } else if fields[0].0 == name {
        Some(0)
    } else {
        match field_index(fields.drop_first(), name) {
            Some(i) => Some(i + 1),
            None => None,
        }
    }
}

/// `field_index` is the first position holding `name`.
proof fn lemma_field_index_at(fields: Locals, name: Seq<char>, i: int)
    requires
        0 <= i <= fields.len(),
        i < fields.len() ==> fields[i].0 == name,
        forall|j: int| 0 <= j < i ==> fields[j].0 != name,
    ensures
        field_index(fields, name) == if i < fields.len() {
            Some(i)
        } else {
            None::<int>
        },
    decreases i,
{
    if i > 0 {
        lemma_field_index_at(fields.drop_first(), name, i - 1);
    }
}

/// The locals with `name` given the type `t`: its first entry replaced,
/// or a new entry at the end.
pub open spec fn set_field(fields: Locals, name: Seq<char>, t: IrTypeModel) -> Locals {
    match field_index(fields, name) {
        Some(i) => fields.update(i, (name, t)),
        None => fields.push((name, t)),
    }
}

/// Gives the local `name` the type `t`, replacing an earlier entry.
fn set_local(locals: &mut Vec<(String, IrType)>, name: String, t: IrType)
    ensures
        ir_fields(final(locals)@) == set_field(ir_fields(old(locals)@), name@, t@),
{
    let ghost fm = ir_fields(locals@);
    let mut i: usize = 0;
    while i < locals.len()
        invariant
            i <= locals.len(),
            locals@ == old(locals)@,
            fm == ir_fields(locals@),
            fm.len() == locals@.len(),
            forall|j: int| 0 <= j < locals@.len() ==> #[trigger] fm[j] == (locals@[j].0@, ir_model(locals@[j].1)),
            forall|j: int| 0 <= j < i ==> fm[j].0 != name@,
        decreases locals.len() - i,
    {
        if crate::text::str_eq(locals[i].0.as_str(), name.as_str()) {
            proof {
                lemma_field_index_at(fm, name@, i as int);
            }
            locals.set(i, (name, t));
            assert(ir_fields(locals@) =~= fm.update(i as int, (name@, t@)));
            return;
        }
        i += 1;
    }
    proof {
        lemma_field_index_at(fm, name@, i as int);
    }
    locals.push((name, t));
    assert(ir_fields(locals@) =~= fm.push((name@, t@)));
}

/// The type of the first local named `name`.
fn find_local(locals: &Vec<(String, IrType)>, name: &str) -> (t: Option<IrType>)
    ensures
        match t {
            Some(found) => first_field(ir_fields(locals@), name@) == Some(found@),
            None => first_field(ir_fields(locals@), name@) is None,
        },
{
    let ghost fm = ir_fields(locals@);
    assert(fm.skip(0) =~= fm);
    let mut i: usize = 0;
    while i < locals.len()
        invariant
            i <= locals.len(),
            fm == ir_fields(locals@),
            fm.len() == locals@.len(),
            forall|j: int| 0 <= j < locals@.len() ==> #[trigger] fm[j] == (locals@[j].0@, ir_model(locals@[j].1)),
            first_field(fm, name@) == first_field(fm.skip(i as int), name@),
        decreases locals.len() - i,
    {
        let ghost rest = fm.skip(i as int);
        assert(rest.drop_first() =~= fm.skip(i + 1));
        assert(rest[0] == fm[i as int]);
        if crate::text::str_eq(locals[i].0.as_str(), name) {
            return Some(clone_ir_type(&locals[i].1));
        }
        i += 1;
    }
    assert(fm.skip(i as int) =~= Seq::<(Seq<char>, IrTypeModel)>::empty());
    None
}

impl FunctionLowerer {
    spec fn wf(&self) -> bool {
        &&& self.current_block < self.blocks@.len()
        &&& blocks_numbered(self.blocks@)
    }

    spec fn locals_model(&self) -> Locals {
        ir_fields(self.locals@)
    }

    /// The instructions of the current block, as values.
    spec fn code(&self) -> Seq<InstrModel> {
        code_of(self.blocks@[self.current_block as int].instructions@)
    }

    /// `self` is `before` after emitting `code` into the current block
    /// (leaving the other blocks as they were), with values up to `next` used.
    /// The lowering so far as a value.
    spec fn state(&self) -> LowerState {
        LowerState {
            blocks: self.blocks@.map_values(|b: IrBlock| code_of(b.instructions@)),
            current: self.current_block as int,
            next: self.next_value as nat,
            locals: self.locals_model(),
        }
    }

    spec fn emitted(&self, before: &FunctionLowerer, code: Seq<InstrModel>, next: nat) -> bool {
        &&& self.extends(before)
        &&& self.code() == before.code() + code
        &&& self.next_value == next
        &&& forall|i: int| 0 <= i < before.blocks@.len() && i != before.current_block ==> #[trigger] self.blocks@[i] == before.blocks@[i]
    }

    /// Lowering went on from `before`: the same locals and blocks, values numbered on.
    spec fn extends(&self, before: &FunctionLowerer) -> bool {
        &&& self.wf()
        &&& self.name == before.name
        &&& self.params == before.params
        &&& self.return_type == before.return_type
        &&& self.source_span == before.source_span
        &&& self.locals == before.locals
        &&& self.blocks@.len() == before.blocks@.len()
        &&& self.current_block == before.current_block
        &&& before.next_value <= self.next_value
    }

    fn new(name: &str, params: Vec<IrParam>, return_type: IrType, source_span: Span) -> (l: FunctionLowerer)
        ensures
            l.wf(),
            l.blocks@.len() == 1,
            l.next_value == 0,
            l.name@ == name@,
            l.state() == start_state(param_models(params@)),
            l.params == params,
            l.return_type == return_type,
            l.source_span == source_span,
    {
        let ghost pairs = param_models(params@);
        let mut locals: Vec<(String, IrType)> = Vec::new();
        let mut i: usize = 0;
        assert(ir_fields(locals@) =~= Seq::<(Seq<char>, IrTypeModel)>::empty());
        while i < params.len()
            invariant
                i <= params.len(),
                pairs == param_models(params@),
                ir_fields(locals@) == set_fields(Seq::empty(), pairs, i as int),
            decreases params.len() - i,
        {
            set_local(&mut locals, params[i].name.clone(), clone_ir_type(&params[i].ty));
            i += 1;
        }
        let mut blocks: Vec<IrBlock> = Vec::new();
        blocks.push(IrBlock { id: BlockId(0), instructions: Vec::new() });
        assert(code_of(blocks@[0].instructions@) =~= Seq::<InstrModel>::empty());
        assert(blocks@.map_values(|b: IrBlock| code_of(b.instructions@)) =~= seq![Seq::<InstrModel>::empty()]);
        FunctionLowerer {
            name: name.to_owned(),
            params,
            return_type,
            blocks,
            current_block: 0,
            next_value: 0,
            locals,
            source_span,
        }
    }

    fn finish(self) -> (f: IrFunction)
        requires
            self.wf(),
        ensures
            blocks_numbered(f.blocks@),
            f.name == self.name,
            f.params == self.params,
            f.return_type == self.return_type,
            f.source_span == self.source_span,
            blocks_code(f) == self.state().blocks,
    {
        IrFunction {
            name: self.name,
            params: self.params,
            return_type: self.return_type,
            blocks: self.blocks,
            source_span: self.source_span,
        }
    }

    /// A fresh value number. Numbers stop at `usize::MAX`, which no function reaches.
    fn allocate_value(&mut self) -> (v: ValueId)
        ensures
            v.0 == old(self).next_value,
            final(self).next_value == if old(self).next_value < usize::MAX {
                old(self).next_value + 1
            } else {
                old(self).next_value as int
            },
            final(self).blocks == old(self).blocks,
            final(self).locals == old(self).locals,
            final(self).current_block == old(self).current_block,
            final(self).name == old(self).name,
            final(self).params == old(self).params,
            final(self).return_type == old(self).return_type,
            final(self).source_span == old(self).source_span,
    {
        let value = ValueId(self.next_value);
        if self.next_value < usize::MAX {
            self.next_value = self.next_value + 1;
        }
        value
    }

    /// Appends an instruction to the current block.
    fn emit(&mut self, kind: IrInstructionKind, result: Option<ValueId>, ty: IrType, source_span: Span)
        requires
            old(self).wf(),
        ensures
            final(self).extends(old(self)),
            final(self).next_value == old(self).next_value,
            final(self).blocks@[old(self).current_block as int].instructions@ == old(self).blocks@[
                old(self).current_block as int].instructions@.push(
                IrInstruction { kind, result, ty, source_span },
            ),
            forall|i: int| 0 <= i < old(self).blocks@.len() && i != old(self).current_block ==> #[trigger] final(self).blocks@[i] == old(self).blocks@[i],
            final(self).code() == old(self).code().push(instr_model(IrInstruction { kind, result, ty, source_span })),
            final(self).emitted(old(self), seq![instr_model(IrInstruction { kind, result, ty, source_span })], old(self).next_value as nat),
    {
        let b = self.current_block;
        let mut block = IrBlock { id: BlockId(0), instructions: Vec::new() };
        std::mem::swap(&mut block, &mut self.blocks[b]);
        let ghost before = block.instructions@;
        block.instructions.push(IrInstruction { kind, result, ty, source_span });
        assert(code_of(block.instructions@) =~= code_of(before).push(instr_model(IrInstruction { kind, result, ty, source_span })));
        std::mem::swap(&mut block, &mut self.blocks[b]);
        assert(code_of(before).push(instr_model(IrInstruction { kind, result, ty, source_span })) =~= code_of(before) + seq![
            instr_model(IrInstruction { kind, result, ty, source_span }),
        ]);
    }

    fn create_block(&mut self) -> (id: BlockId)
        requires
            old(self).wf(),
        ensures
            final(self).wf(),
            id.0 == old(self).blocks@.len(),
            final(self).blocks@.len() == old(self).blocks@.len() + 1,
            final(self).locals == old(self).locals,
            final(self).current_block == old(self).current_block,
            final(self).next_value == old(self).next_value,
            final(self).name == old(self).name,
            final(self).params == old(self).params,
            final(self).return_type == old(self).return_type,
            final(self).source_span == old(self).source_span,
            final(self).state() == (LowerState { blocks: old(self).state().blocks.push(Seq::empty()), ..old(self).state() }),
    {
        let id = BlockId(self.blocks.len());
        let ghost before = self.blocks@;
        self.blocks.push(IrBlock { id, instructions: Vec::new() });
        assert(code_of(self.blocks@[before.len() as int].instructions@) =~= Seq::<InstrModel>::empty());
        assert forall|i: int| 0 <= i < before.len() implies #[trigger] self.blocks@[i] == before[i] by {}
        assert(self.state().blocks =~= old(self).state().blocks.push(Seq::empty()));
        id
    }

    fn load_const(&mut self, constant: IrConst, ty: IrType, span: Span) -> (r: (ValueId, IrType))
        requires
            old(self).wf(),
        ensures
            r.1@ == ty@,
            r.0.0 == old(self).next_value,
            final(self).emitted(
                old(self),
                seq![defining(IrKindModel::LoadConst(const_model(constant)), old(self).next_value as nat, ty@, span)],
                bump(old(self).next_value as nat),
            ),
    {
        let value = self.allocate_value();
        let result_type = clone_ir_type(&ty);
        let ghost instruction = IrInstruction { kind: IrInstructionKind::LoadConst(constant), result: Some(value), ty, source_span: span };
        self.emit(IrInstructionKind::LoadConst(constant), Some(value), ty, span);
        assert(old(self).code().push(instr_model(instruction)) =~= old(self).code() + seq![instr_model(instruction)]);
        (value, result_type)
    }
}

impl FunctionLowerer {
    /// Emits the instructions that compute `e`; gives the value holding it and its type.
    #[verifier::loop_isolation(false)]
    #[verifier::rlimit(40)]
    fn lower_expression(&mut self, e: &Expression) -> (r: (ValueId, IrType))
        requires
            old(self).wf(),
        ensures
            r.1@ == value_type(old(self).locals_model(), *e),
            r.0.0 == expr_code(old(self).locals_model(), *e, old(self).next_value as nat).1,
            final(self).emitted(
                old(self),
                expr_code(old(self).locals_model(), *e, old(self).next_value as nat).0,
                expr_code(old(self).locals_model(), *e, old(self).next_value as nat).2,
            ),
        decreases e, 1nat,
    {
        let ghost locals = self.locals_model();
        let ghost start = old(self).next_value as nat;
        let ghost base = old(self).code();
        match &e.kind {
            ExpressionKind::Identifier(name) => {
                let ty = match find_local(&self.locals, name.as_str()) {
                    Some(t) => t,
                    None => IrType::Unknown,
                };
                let value = self.allocate_value();
                let result_type = clone_ir_type(&ty);
                let kind = IrInstructionKind::LoadLocal(name.clone());
                let ghost instruction = IrInstruction { kind, result: Some(value), ty, source_span: e.span };
                self.emit(kind, Some(value), ty, e.span);
                assert(base.push(instr_model(instruction)) =~= base + seq![instr_model(instruction)]);
                (value, result_type)
            },
            ExpressionKind::Number(value) => self.load_const(IrConst::Number(value.clone()), IrType::Number, e.span),
            ExpressionKind::String(value) => self.load_const(IrConst::String(value.clone()), IrType::String, e.span),
            ExpressionKind::Boolean(value) => self.load_const(IrConst::Boolean(*value), IrType::Boolean, e.span),
            ExpressionKind::Null => self.load_const(IrConst::Null, IrType::Null, e.span),
            ExpressionKind::Undefined => self.load_const(IrConst::Undefined, IrType::Undefined, e.span),
            ExpressionKind::Object(properties) => {
                let mut values: Vec<(String, ValueId)> = Vec::new();
                let mut fields: Vec<(String, IrType)> = Vec::new();
                let mut i: usize = 0;
                while i < properties.len()
                    invariant
                        i <= properties.len(),
                        self.emitted(old(self), props_code(locals, properties@, i as int, start).0, props_code(locals, properties@, i as int, start).2),
                        values@.map_values(|p: (String, ValueId)| (p.0@, p.1.0 as nat)) == props_code(locals, properties@, i as int, start).1,
                        fields@.len() == i,
                        forall|j: int| 0 <= j < i ==> fields@[j].0@ == properties@[j].name@ && ir_model(#[trigger] fields@[j].1)
                            == value_type(locals, properties@[j].value),
                    decreases properties.len() - i,
                {
                    assert(decreases_to!(*e => e.kind));
                    assert(decreases_to!(e.kind => (e.kind)->Object_0));
                    assert(decreases_to!(*properties => properties@));
                    assert(decreases_to!(properties@ => properties@[i as int]));
                    assert(decreases_to!(properties@[i as int] => properties@[i as int].value));
                    let ghost prior = *self;
                    let ghost prior_values = values@.map_values(|p: (String, ValueId)| (p.0@, p.1.0 as nat));
                    let (value, ty) = self.lower_expression(&properties[i].value);
                    values.push((properties[i].name.clone(), value));
                    fields.push((properties[i].name.clone(), ty));
                    proof {
                        let part = expr_code(locals, properties@[i as int].value, prior.next_value as nat);
                        assert(self.code() =~= base + (props_code(locals, properties@, i as int, start).0 + part.0));
                        assert(values@.map_values(|p: (String, ValueId)| (p.0@, p.1.0 as nat)) =~= prior_values.push(
                            (properties@[i as int].name@, part.1),
                        ));
                    }
                    i += 1;
                }
                assert(ir_fields(fields@) =~= prop_value_types(locals, properties@));
                let ghost mid = *self;
                let ghost consts = values@.map_values(|p: (String, ValueId)| (p.0@, p.1.0 as nat));
                let r = self.load_const(IrConst::Object(values), IrType::Object(fields), e.span);
                proof {
                    let pc = props_code(locals, properties@, properties@.len() as int, start);
                    assert(self.code() =~= base + pc.0.push(
                        defining(IrKindModel::LoadConst(IrConstModel::Object(consts)), pc.2, value_type(locals, *e), e.span),
                    ));
                }
                r
            },
            ExpressionKind::Array(elements) => {
                let ghost types = elem_value_types(locals, elements@);
                let mut values: Vec<ValueId> = Vec::new();
                let mut element_type = IrType::Unknown;
                let mut i: usize = 0;
                while i < elements.len()
                    invariant
                        i <= elements.len(),
                        self.emitted(old(self), exprs_code(locals, elements@, i as int, start).0, exprs_code(locals, elements@, i as int, start).2),
                        values@.map_values(|v: ValueId| v.0 as nat) == exprs_code(locals, elements@, i as int, start).1,
                        element_type@ == first_known(types.take(i as int)),
                    decreases elements.len() - i,
                {
                    assert(decreases_to!(*e => e.kind));
                    assert(decreases_to!(e.kind => (e.kind)->Array_0));
                    assert(decreases_to!(*elements => elements@));
                    assert(decreases_to!(elements@ => elements@[i as int]));
                    let ghost prior = *self;
                    let ghost prior_values = values@.map_values(|v: ValueId| v.0 as nat);
                    let (value, ty) = self.lower_expression(&elements[i]);
                    values.push(value);
                    proof {
                        let part = expr_code(locals, elements@[i as int], prior.next_value as nat);
                        assert(self.code() =~= base + (exprs_code(locals, elements@, i as int, start).0 + part.0));
                        assert(values@.map_values(|v: ValueId| v.0 as nat) =~= prior_values.push(part.1));
                        assert(types.take(i + 1) =~= types.take(i as int).push(types[i as int]));
                        lemma_first_known_push(types.take(i as int), types[i as int]);
                    }
                    if is_unknown_type(&element_type) {
                        element_type = ty;
                    }
                    i += 1;
                }
                assert(types.take(elements.len() as int) =~= types);
                let ghost consts = values@.map_values(|v: ValueId| v.0 as nat);
                let r = self.load_const(IrConst::Array(values), IrType::Array(Box::new(element_type)), e.span);
                proof {
                    let ec = exprs_code(locals, elements@, elements@.len() as int, start);
                    assert(self.code() =~= base + ec.0.push(
                        defining(IrKindModel::LoadConst(IrConstModel::Array(consts)), ec.2, value_type(locals, *e), e.span),
                    ));
                }
                r
            },
            ExpressionKind::Member { object, property } => {
                let (object_value, object_type) = self.lower_expression(object);
                let ty = member_type(&object_type, property.as_str());
                let ghost mid = self.code();
                let value = self.allocate_value();
                let result_type = clone_ir_type(&ty);
                let kind = IrInstructionKind::LoadMember { object: object_value, property: property.clone() };
                let ghost instruction = IrInstruction { kind, result: Some(value), ty, source_span: e.span };
                self.emit(kind, Some(value), ty, e.span);
                proof {
                    let part = expr_code(locals, **object, start);
                    assert(self.code() =~= base + part.0.push(instr_model(instruction)));
                }
                (value, result_type)
            },
            ExpressionKind::Call { callee, arguments } => {
                let mut args: Vec<ValueId> = Vec::new();
                let mut i: usize = 0;
                while i < arguments.len()
                    invariant
                        i <= arguments.len(),
                        self.emitted(old(self), exprs_code(locals, arguments@, i as int, start).0, exprs_code(locals, arguments@, i as int, start).2),
                        args@.map_values(|v: ValueId| v.0 as nat) == exprs_code(locals, arguments@, i as int, start).1,
                    decreases arguments.len() - i,
                {
                    assert(decreases_to!(*e => e.kind));
                    assert(decreases_to!(e.kind => (e.kind)->arguments));
                    assert(decreases_to!(*arguments => arguments@));
                    assert(decreases_to!(arguments@ => arguments@[i as int]));
                    let ghost prior = *self;
                    let ghost prior_values = args@.map_values(|v: ValueId| v.0 as nat);
                    let (value, _ty) = self.lower_expression(&arguments[i]);
                    args.push(value);
                    proof {
                        let part = expr_code(locals, arguments@[i as int], prior.next_value as nat);
                        assert(self.code() =~= base + (exprs_code(locals, arguments@, i as int, start).0 + part.0));
                        assert(args@.map_values(|v: ValueId| v.0 as nat) =~= prior_values.push(part.1));
                    }
                    i += 1;
                }
                let name = callee_name(callee);
                let value = self.allocate_value();
                let kind = IrInstructionKind::Call { callee: name, args };
                let ghost instruction = IrInstruction { kind, result: Some(value), ty: IrType::Unknown, source_span: e.span };
                self.emit(kind, Some(value), IrType::Unknown, e.span);
                proof {
                    let ec = exprs_code(locals, arguments@, arguments@.len() as int, start);
                    assert(self.code() =~= base + ec.0.push(instr_model(instruction)));
                }
                (value, IrType::Unknown)
            },
            ExpressionKind::Binary { left, operator, right } => {
                let (left_value, _lt) = self.lower_expression(left);
                let (right_value, _rt) = self.lower_expression(right);
                let op = binary_op(*operator);
                let ty = binary_type(*operator);
                let value = self.allocate_value();
                let result_type = clone_ir_type(&ty);
                let kind = IrInstructionKind::Binary { op, left: left_value, right: right_value };
                let ghost instruction = IrInstruction { kind, result: Some(value), ty, source_span: e.span };
                self.emit(kind, Some(value), ty, e.span);
                proof {
                    let lc = expr_code(locals, **left, start);
                    let rc = expr_code(locals, **right, lc.2);
                    assert(self.code() =~= base + (lc.0 + rc.0.push(instr_model(instruction))));
                }
                (value, result_type)
            },
            ExpressionKind::Assignment { .. } => self.lower_assignment(e),
            ExpressionKind::Unary { argument, .. } => self.lower_expression(argument),
            ExpressionKind::Error => self.load_const(IrConst::Undefined, IrType::Unknown, e.span),
        }
    }

    /// An assignment: a store to the local or member assigned, after the
    /// read and operation of a compound member assignment.
    #[verifier::rlimit(40)]
    fn lower_assignment(&mut self, e: &Expression) -> (r: (ValueId, IrType))
        requires
            old(self).wf(),
            e.kind is Assignment,
        ensures
            match e.kind {
                ExpressionKind::Assignment { right, .. } => r.1@ == value_type(old(self).locals_model(), *right),
                _ => true,
            },
            r.0.0 == expr_code(old(self).locals_model(), *e, old(self).next_value as nat).1,
            final(self).emitted(
                old(self),
                expr_code(old(self).locals_model(), *e, old(self).next_value as nat).0,
                expr_code(old(self).locals_model(), *e, old(self).next_value as nat).2,
            ),
        decreases e, 0nat,
    {
        let ghost locals = self.locals_model();
        let ghost start = old(self).next_value as nat;
        let ghost base = old(self).code();
        let (left, operator, right) = match &e.kind {
            ExpressionKind::Assignment { left, operator, right } => (left, *operator, right),
            _ => return self.load_const(IrConst::Undefined, IrType::Unknown, e.span),
        };
        let span = e.span;
        match &left.kind {
            ExpressionKind::Identifier(name) => {
                let (right_value, right_type) = self.lower_expression(right);
                let stored_type = clone_ir_type(&right_type);
                let kind = IrInstructionKind::StoreLocal(name.clone(), right_value);
                let ghost instruction = IrInstruction { kind, result: None, ty: stored_type, source_span: span };
                self.emit(kind, None, stored_type, span);
                proof {
                    let rc = expr_code(locals, **right, start);
                    assert(self.code() =~= base + rc.0.push(instr_model(instruction)));
                }
                (right_value, right_type)
            },
            ExpressionKind::Member { object, property } => {
                let (object_value, _ot) = self.lower_expression(object);
                let (right_value, right_type) = self.lower_expression(right);
                let ghost oc = expr_code(locals, **object, start);
                let ghost rc = expr_code(locals, **right, oc.2);
                let ghost mid = self.code();
                assert(mid == base + (oc.0 + rc.0));
                let stored_value = match operator {
                    AssignmentOperator::Assign => right_value,
                    _ => {
                        let current_value = self.allocate_value();
                        let load_type = clone_ir_type(&right_type);
                        self.emit(
                            IrInstructionKind::LoadMember { object: object_value, property: property.clone() },
                            Some(current_value),
                            load_type,
                            left.span,
                        );
                        let result = self.allocate_value();
                        let op_type = clone_ir_type(&right_type);
                        let op = assignment_binary_op(operator);
                        self.emit(
                            IrInstructionKind::Binary { op, left: current_value, right: right_value },
                            Some(result),
                            op_type,
                            span,
                        );
                        result
                    },
                };
                let store_type = clone_ir_type(&right_type);
                self.emit(
                    IrInstructionKind::StoreMember { object: object_value, property: property.clone(), value: stored_value },
                    None,
                    store_type,
                    span,
                );
                proof {
                    let code = expr_code(locals, *e, start);
                    assert(self.code() =~= base + code.0);
                }
                (stored_value, right_type)
            },
            _ => self.lower_expression(right),
        }
    }
}

/// Emitting code into the current block, as a change of the lowering state.
proof fn lemma_emitted_state(before: FunctionLowerer, after: FunctionLowerer, code: Seq<InstrModel>, next: nat)
    requires
        before.wf(),
        after.emitted(&before, code, next),
    ensures
        after.state() == with_code(before.state(), code, next),
{
    let cur = before.current_block as int;
    assert forall|i: int| 0 <= i < after.blocks@.len() implies #[trigger] after.state().blocks[i] == with_code(
        before.state(),
        code,
        next,
    ).blocks[i] by {
        if i != cur {
            assert(after.blocks@[i] == before.blocks@[i]);
        }
    }
    assert(after.state().blocks =~= with_code(before.state(), code, next).blocks);
}

proof fn lemma_first_known_push(s: Seq<IrTypeModel>, x: IrTypeModel)
    ensures
        first_known(s.push(x)) == if first_known(s) is Unknown {
            x
        } else {
            first_known(s)
        },
    decreases s.len(),
{
    if s.len() > 0 {
        assert(s.push(x)[0] == s[0]);
        assert(s.push(x).drop_first() =~= s.drop_first().push(x));
        lemma_first_known_push(s.drop_first(), x);
    } else {
        assert(s.push(x).drop_first() =~= Seq::<IrTypeModel>::empty());
        assert(first_known(Seq::<IrTypeModel>::empty()) is Unknown);
        assert(s.push(x)[0] == x);
    }
}

impl FunctionLowerer {
    /// Emits the instructions of a statement; an `if` adds a then, an else
    /// and a merge block, and continues in the merge block.
    #[verifier::rlimit(40)]
    fn lower_statement(&mut self, statement: &Statement)
        requires
            old(self).wf(),
        ensures
            final(self).wf(),
            final(self).blocks@.len() >= old(self).blocks@.len(),
            final(self).name == old(self).name,
            final(self).params == old(self).params,
            final(self).return_type == old(self).return_type,
            final(self).source_span == old(self).source_span,
            final(self).state() == stmt_in(old(self).state(), *statement),
        decreases statement,
    {
        let ghost st = self.state();
        match &statement.kind {
            StatementKind::Variable(variable) => self.lower_variable(variable, statement.span),
            StatementKind::Return(value) => {
                let ghost before = *self;
                let value = match value {
                    Some(expression) => {
                        let v = self.lower_expression(expression).0;
                        proof {
                            let c = expr_code(before.locals_model(), *expression, before.next_value as nat);
                            lemma_emitted_state(before, *self, c.0, c.2);
                        }
                        Some(v)
                    },
                    None => None,
                };
                let ghost mid = *self;
                let kind = IrInstructionKind::Return(value);
                let ghost instruction = IrInstruction { kind, result: None, ty: IrType::Undefined, source_span: statement.span };
                self.emit(kind, None, IrType::Undefined, statement.span);
                proof {
                    lemma_emitted_state(mid, *self, seq![instr_model(instruction)], mid.next_value as nat);
                }
            },
            StatementKind::Expression(expression) => {
                let ghost before = *self;
                self.lower_expression(expression);
                proof {
                    let c = expr_code(before.locals_model(), *expression, before.next_value as nat);
                    lemma_emitted_state(before, *self, c.0, c.2);
                }
            },
            StatementKind::Throw(expression) => {
                let ghost before = *self;
                self.lower_expression(expression);
                proof {
                    let c = expr_code(before.locals_model(), *expression, before.next_value as nat);
                    lemma_emitted_state(before, *self, c.0, c.2);
                }
            },
            StatementKind::If(if_stmt) => {
                let ghost before = *self;
                let (condition, _ty) = self.lower_expression(&if_stmt.test);
                proof {
                    let c = expr_code(before.locals_model(), if_stmt.test, before.next_value as nat);
                    lemma_emitted_state(before, *self, c.0, c.2);
                }
                let then_block = self.create_block();
                let else_block = self.create_block();
                let merge_block = self.create_block();
                proof {
                    let st1 = expr_in(st, if_stmt.test).0;
                    assert(st1.blocks.push(Seq::empty()).push(Seq::empty()).push(Seq::empty()) =~= st1.blocks + seq![
                        Seq::empty(),
                        Seq::empty(),
                        Seq::empty(),
                    ]);
                }
                let ghost mid = *self;
                let kind = IrInstructionKind::Branch { condition, then_block, else_block };
                let ghost branch = IrInstruction { kind, result: None, ty: IrType::Undefined, source_span: if_stmt.test.span };
                self.emit(kind, None, IrType::Undefined, if_stmt.test.span);
                proof {
                    lemma_emitted_state(mid, *self, seq![instr_model(branch)], mid.next_value as nat);
                }
                self.current_block = then_block.0;
                assert(decreases_to!(*statement => statement.kind));
                assert(decreases_to!(statement.kind => (statement.kind)->If_0));
                assert(decreases_to!((statement.kind)->If_0 => *(statement.kind)->If_0.consequent));
                self.lower_statement(&if_stmt.consequent);
                let ghost after_then = *self;
                let jump = IrInstructionKind::Jump(merge_block);
                let ghost jump_instruction = IrInstruction { kind: jump, result: None, ty: IrType::Undefined, source_span: statement.span };
                self.emit(jump, None, IrType::Undefined, statement.span);
                proof {
                    lemma_emitted_state(after_then, *self, seq![instr_model(jump_instruction)], after_then.next_value as nat);
                }
                self.current_block = else_block.0;
                match &if_stmt.alternate {
                    Some(alternate) => {
                        assert(decreases_to!((statement.kind)->If_0 => (statement.kind)->If_0.alternate));
                        assert(decreases_to!((statement.kind)->If_0.alternate => *(statement.kind)->If_0.alternate->0));
                        self.lower_statement(alternate);
                    },
                    None => {},
                }
                let ghost after_else = *self;
                let jump = IrInstructionKind::Jump(merge_block);
                let ghost jump_instruction = IrInstruction { kind: jump, result: None, ty: IrType::Undefined, source_span: statement.span };
                self.emit(jump, None, IrType::Undefined, statement.span);
                proof {
                    lemma_emitted_state(after_else, *self, seq![instr_model(jump_instruction)], after_else.next_value as nat);
                }
                self.current_block = merge_block.0;
            },
            StatementKind::Block(body) => {
                let mut k: usize = 0;
                while k < body.len()
                    invariant
                        self.wf(),
                        self.blocks@.len() >= old(self).blocks@.len(),
                        self.name == old(self).name,
                        self.params == old(self).params,
                        self.return_type == old(self).return_type,
                        self.source_span == old(self).source_span,
                        statement.kind == StatementKind::Block(*body),
                        k <= body.len(),
                        self.state() == stmts_in(st, body@, k as int),
                    decreases body.len() - k,
                {
                    assert(decreases_to!(*statement => statement.kind));
                    assert(decreases_to!(statement.kind => (statement.kind)->Block_0));
                    assert(decreases_to!(*body => body@));
                    assert(decreases_to!(body@ => body@[k as int]));
                    self.lower_statement(&body[k]);
                    k += 1;
                }
            },
            StatementKind::Export(inner) => self.lower_statement(inner),
            _ => {},
        }
    }

    /// A declaration: its value (or `undefined`) stored to the local, which
    /// takes the declared type, or the value's type when none is declared.
    fn lower_variable(&mut self, variable: &VariableDeclaration, span: Span)
        requires
            old(self).wf(),
        ensures
            final(self).wf(),
            final(self).blocks@.len() == old(self).blocks@.len(),
            final(self).name == old(self).name,
            final(self).params == old(self).params,
            final(self).return_type == old(self).return_type,
            final(self).source_span == old(self).source_span,
            final(self).state() == variable_in(old(self).state(), *variable, span),
    {
        let ghost st = self.state();
        let declared_type = match &variable.ty {
            Some(ty) => type_from_node(ty),
            None => IrType::Unknown,
        };
        let ghost before = *self;
        let (value, ty) = match &variable.initializer {
            Some(expression) => {
                let r = self.lower_expression(expression);
                proof {
                    let c = expr_code(before.locals_model(), *expression, before.next_value as nat);
                    lemma_emitted_state(before, *self, c.0, c.2);
                }
                r
            },
            None => {
                let r = self.load_const(IrConst::Undefined, IrType::Undefined, span);
                proof {
                    lemma_emitted_state(
                        before,
                        *self,
                        seq![defining(IrKindModel::LoadConst(IrConstModel::Undefined), before.next_value as nat, IrTypeModel::Undefined, span)],
                        bump(before.next_value as nat),
                    );
                }
                r
            },
        };
        let local_type = if is_unknown_type(&declared_type) {
            ty
        } else {
            declared_type
        };
        set_local(&mut self.locals, variable.name.clone(), clone_ir_type(&local_type));
        let ghost mid = *self;
        let kind = IrInstructionKind::StoreLocal(variable.name.clone(), value);
        let ghost store = IrInstruction { kind, result: None, ty: local_type, source_span: span };
        self.emit(kind, None, local_type, span);
        proof {
            lemma_emitted_state(mid, *self, seq![instr_model(store)], mid.next_value as nat);
        }
    }
}

/// The IR function for a function declaration.
fn lower_function(function: &FunctionDeclaration, span: Span) -> (f: IrFunction)
    ensures
        lowers_function(f, *function, span),
{
    let mut params: Vec<IrParam> = Vec::new();
    let mut i: usize = 0;
    while i < function.params.len()
        invariant
            i <= function.params.len(),
            param_models(params@) == param_types(function.params@).take(i as int),
        decreases function.params.len() - i,
    {
        let ty = match &function.params[i].ty {
            Some(ty) => type_from_node(ty),
            None => IrType::Unknown,
        };
        let ghost prev = params@;
        let param = IrParam { name: function.params[i].name.clone(), ty };
        let ghost model = (param.name@, param.ty@);
        params.push(param);
        assert(param_models(params@) =~= param_models(prev).push(model));
        assert(param_types(function.params@).take(i + 1) =~= param_types(function.params@).take(i as int).push(model));
        i += 1;
    }
    assert(param_types(function.params@).take(function.params.len() as int) =~= param_types(function.params@));
    let return_type = match &function.return_type {
        Some(ty) => type_from_node(ty),
        None => IrType::Undefined,
    };
    let mut lowerer = FunctionLowerer::new(function.name.as_str(), params, return_type, span);
    let ghost start = lowerer.state();
    let mut k: usize = 0;
    while k < function.body.len()
        invariant
            lowerer.wf(),
            lowerer.name@ == function.name@,
            k <= function.body.len(),
            lowerer.state() == stmts_in(start, function.body@, k as int),
            param_models(lowerer.params@) == param_types(function.params@),
            lowerer.return_type@ == match function.return_type {
                Some(t) => annotation_type(t),
                None => IrTypeModel::Undefined,
            },
            lowerer.source_span == span,
        decreases function.body.len() - k,
    {
        lowerer.lower_statement(&function.body[k]);
        k += 1;
    }
    lowerer.finish()
}

/// `ir` lowers `program`: each top-level function declaration becomes an IR
/// function, in order; the other statements (type declarations emit
/// nothing) form the entry function `__entry`, which ends in a return.
pub open spec fn lowers_program(program: Program, ir: IrProgram) -> bool {
    &&& ir.source_span == program.span
    &&& ir.functions@.len() == declared_functions(program.body@, program.body@.len() as int).len()
    &&& forall|k: int| 0 <= k < ir.functions@.len() ==> {
        let (d, span) = declared_functions(program.body@, program.body@.len() as int)[k];
        lowers_function(#[trigger] ir.functions@[k], d, span)
    }
    &&& ir.entry.name@ == "__entry"@
    &&& ir.entry.params@.len() == 0
    &&& ir.entry.return_type@ == IrTypeModel::Undefined
    &&& ir.entry.source_span == entry_span(program)
    &&& blocks_code(ir.entry) == entry_code(program)
    &&& blocks_numbered(ir.entry.blocks@)
}

/// Lowers a program, as `lowers_program` says.
pub fn lower_program(program: &Program) -> (ir: IrProgram)
    ensures
        lowers_program(*program, ir),
{
    let mut functions: Vec<IrFunction> = Vec::new();
    let span_of_entry = match program.span {
        Some(span) => span,
        None => empty_span(),
    };
    let params: Vec<IrParam> = Vec::new();
    assert(param_models(params@) =~= Seq::<(Seq<char>, IrTypeModel)>::empty());
    let mut entry = FunctionLowerer::new("__entry", params, IrType::Undefined, span_of_entry);
    let ghost start = entry.state();
    let mut k: usize = 0;
    while k < program.body.len()
        invariant
            k <= program.body.len(),
            entry.wf(),
            entry.name@ == "__entry"@,
            entry.params@.len() == 0,
            entry.return_type@ == IrTypeModel::Undefined,
            entry.source_span == span_of_entry,
            span_of_entry == entry_span(*program),
            entry.state() == stmts_in(start, program.body@, k as int),
            functions@.len() == declared_functions(program.body@, k as int).len(),
            forall|j: int| 0 <= j < functions@.len() ==> {
                let (d, span) = declared_functions(program.body@, k as int)[j];
                lowers_function(#[trigger] functions@[j], d, span)
            },
        decreases program.body.len() - k,
    {
        let statement = &program.body[k];
        let ghost prior = declared_functions(program.body@, k as int);
        match &statement.kind {
            StatementKind::Function(function) => {
                functions.push(lower_function(function, statement.span));
                assert(stmt_in(entry.state(), *statement) == entry.state());
                assert(declared_functions(program.body@, k + 1) == prior.push((*function, statement.span)));
                assert forall|j: int| 0 <= j < functions@.len() implies {
                    let (d, span) = declared_functions(program.body@, k + 1)[j];
                    lowers_function(#[trigger] functions@[j], d, span)
                } by {
                    if j < prior.len() {
                        assert(declared_functions(program.body@, k + 1)[j] == prior[j]);
                    }
                }
            },
            StatementKind::Interface(_) | StatementKind::TypeAlias(_) | StatementKind::Class(_) => {
                assert(stmt_in(entry.state(), *statement) == entry.state());
            },
            _ => entry.lower_statement(statement),
        }
        k += 1;
    }
    let ghost before_return = entry;
    let kind = IrInstructionKind::Return(None);
    let ghost instruction = IrInstruction { kind, result: None, ty: IrType::Undefined, source_span: span_of_entry };
    entry.emit(kind, None, IrType::Undefined, span_of_entry);
    proof {
        lemma_emitted_state(before_return, entry, seq![instr_model(instruction)], before_return.next_value as nat);
    }
    IrProgram { functions, entry: entry.finish(), source_span: program.span }
}

/// What lowering `source` gives for the parse `parsed` of it: analysis runs
/// first; when it reports anything there is no IR and its diagnostics come
/// back, otherwise the parsed program is lowered and nothing is reported.
pub open spec fn lowered_from(parsed: ParseOutput, out: LoweredProgram) -> bool {
    &&& (out.ir is Some <==> analyzed(parsed).findings.len() == 0)
    &&& out.diagnostics@.map_values(|d: SemanticDiagnostic| (d.code, d.message@, d.span)) == analyzed(parsed).findings
    &&& out.ir matches Some(ir) ==> lowers_program(parsed.program, ir)
}

/// Lowers TypeScript source: it is parsed and analyzed first; a program
/// with diagnostics gives them and no IR.
pub fn lower_source(source: &str) -> (out: LoweredProgram)
    ensures
        out.ir is Some <==> out.diagnostics@.len() == 0,
        source@.len() < usize::MAX ==> exists|parsed: ParseOutput|
            #[trigger] parses_to(source@, parsed) && lowered_from(parsed, out),
        out.ir matches Some(ir) ==> {
            &&& ir.entry.name@ == "__entry"@
            &&& blocks_numbered(ir.entry.blocks@)
            &&& forall|i: int| 0 <= i < ir.functions@.len() ==> blocks_numbered(#[trigger] ir.functions@[i].blocks@)
        },
{
    let parsed = parse_source(source);
    let semantic = analyze_parsed(&parsed);
    if semantic.diagnostics.len() > 0 {
        let out = LoweredProgram { ir: None, diagnostics: semantic.diagnostics };
        assert(lowered_from(parsed, out));
        return out;
    }
    let ir = lower_program(&parsed.program);
    let out = LoweredProgram { ir: Some(ir), diagnostics: Vec::new() };
    assert(out.diagnostics@.map_values(|d: SemanticDiagnostic| (d.code, d.message@, d.span)) =~= analyzed(parsed).findings);
    assert(lowered_from(parsed, out));
    out
}

} // verus!
