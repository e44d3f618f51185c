//! Compilation of IR into a bytecode module: constants and source references
//! are interned into pools, locals are numbered, and each IR instruction
//! becomes one bytecode instruction.
use vstd::prelude::*;
use crate::bytecode::{
    bytecode_magic, bytecode_magic_bytes, source_ref_from_span, spec_source_ref, BytecodeBlock,
    BytecodeFunction, BytecodeHeader, BytecodeModule, Constant, ConstantModel, Instruction, Opcode,
    SourceRef, TypeTag, BYTECODE_VERSION,
};
use crate::ir::{
    lower_source, lowered_from, lowers_program, IrBinaryOp, IrConst, IrFunction, IrInstruction, IrInstructionKind, IrProgram,
    IrType, IrTypeModel,
};
use crate::parser::{parses_to, ParseOutput};
use crate::semantic::{analyzed, SemanticDiagnostic};
use crate::text::str_eq;

verus! {

#[derive(Debug, PartialEq)]
pub struct BytecodeOutput {
    pub module: Option<BytecodeModule>,
    pub diagnostics: Vec<SemanticDiagnostic>,
}

/// The first position of `x` in `pool`.
pub open spec fn pool_index<T>(pool: Seq<T>, x: T) -> Option<int>
    decreases pool.len(),
{
    if pool.len() == 0 {
        None
    } else if pool.last() == x {
        match pool_index(pool.drop_last(), x) {
            Some(i) => Some(i),
            None => Some(pool.len() - 1),
        }
    } else {
        pool_index(pool.drop_last(), x)
    }
}

/// No value occurs twice in `pool`.
pub open spec fn distinct<T>(pool: Seq<T>) -> bool {
    forall|a: int, b: int| 0 <= a < b < pool.len() ==> pool[a] != pool[b]
}

/// `pool` after interning `x`: unchanged if `x` is in it, else extended by `x`.
pub open spec fn interned<T>(pool: Seq<T>, x: T) -> Seq<T> {
    if pool_index(pool, x) is Some {
        pool
    } else {
        pool.push(x)
    }
}

proof fn lemma_pool_index<T>(pool: Seq<T>, x: T)
    ensures
        match pool_index(pool, x) {
            Some(i) => 0 <= i < pool.len() && pool[i] == x && forall|j: int| 0 <= j < i ==> pool[j] != x,
            None => forall|j: int| 0 <= j < pool.len() ==> pool[j] != x,
        },
    decreases pool.len(),
{
    if pool.len() > 0 {
        lemma_pool_index(pool.drop_last(), x);
        assert forall|j: int| 0 <= j < pool.len() - 1 implies pool.drop_last()[j] == pool[j] by {}
    }
}

proof fn lemma_interned<T>(pool: Seq<T>, x: T)
    requires
        distinct(pool),
    ensures
        distinct(interned(pool, x)),
        pool_index(interned(pool, x), x) is Some,
        interned(pool, x).len() <= pool.len() + 1,
        forall|y: T| #[trigger] pool_index(pool, y) is Some ==> pool_index(interned(pool, x), y) == pool_index(pool, y),
{
    lemma_pool_index(pool, x);
    let p2 = interned(pool, x);
    lemma_pool_index(p2, x);
    assert forall|y: T| #[trigger] pool_index(pool, y) is Some implies pool_index(p2, y) == pool_index(pool, y) by {
        lemma_pool_index(pool, y);
        lemma_pool_index(p2, y);
        if pool_index(pool, x) is None {
            assert(p2.drop_last() =~= pool);
        }
    }
}

/// Whether two constants are the same value.
fn constant_eq(a: &Constant, b: &Constant) -> (r: bool)
    ensures
        r == (a@ == b@),
{
    match (a, b) {
        (Constant::Number(x), Constant::Number(y)) => str_eq(x.as_str(), y.as_str()),
        (Constant::String(x), Constant::String(y)) => str_eq(x.as_str(), y.as_str()),
        (Constant::Symbol(x), Constant::Symbol(y)) => str_eq(x.as_str(), y.as_str()),
        (Constant::Boolean(x), Constant::Boolean(y)) => *x == *y,
        (Constant::Null, Constant::Null) => true,
        (Constant::Undefined, Constant::Undefined) => true,
        _ => false,
    }
}

pub open spec fn spec_type_tag(t: IrTypeModel) -> TypeTag {
    match t {
        IrTypeModel::Number => TypeTag::Number,
        IrTypeModel::String => TypeTag::String,
        IrTypeModel::Boolean => TypeTag::Boolean,
        IrTypeModel::Null => TypeTag::Null,
        IrTypeModel::Undefined => TypeTag::Undefined,
        IrTypeModel::Object(_) => TypeTag::Object,
        IrTypeModel::Array(_) => TypeTag::Array,
        IrTypeModel::Named(_) => TypeTag::Named,
        IrTypeModel::Unknown => TypeTag::Unknown,
    }
}

/// The verifier-visible tag of an IR type.
fn type_tag(ty: &IrType) -> (t: TypeTag)
    ensures
        t == spec_type_tag(ty@),
{
    match ty {
        IrType::Number => TypeTag::Number,
        IrType::String => TypeTag::String,
        IrType::Boolean => TypeTag::Boolean,
        IrType::Null => TypeTag::Null,
        IrType::Undefined => TypeTag::Undefined,
        IrType::Object(_) => TypeTag::Object,
        IrType::Array(_) => TypeTag::Array,
        IrType::Named(_) => TypeTag::Named,
        IrType::Unknown => TypeTag::Unknown,
    }
}

pub open spec fn spec_binary_op_code(op: IrBinaryOp) -> u32 {
    match op {
        IrBinaryOp::Add => 0,
        IrBinaryOp::Subtract => 1,
        IrBinaryOp::Multiply => 2,
        IrBinaryOp::Divide => 3,
        IrBinaryOp::Remainder => 4,
        IrBinaryOp::Equal => 5,
        IrBinaryOp::StrictEqual => 6,
        IrBinaryOp::NotEqual => 7,
        IrBinaryOp::StrictNotEqual => 8,
        IrBinaryOp::Less => 9,
        IrBinaryOp::LessEqual => 10,
        IrBinaryOp::Greater => 11,
        IrBinaryOp::GreaterEqual => 12,
        IrBinaryOp::LogicalAnd => 13,
        IrBinaryOp::LogicalOr => 14,
        IrBinaryOp::NullishCoalesce => 15,
    }
}

/// The operand that selects a binary operation.
fn binary_op_code(op: IrBinaryOp) -> (code: u32)
    ensures
        code == spec_binary_op_code(op),
{
    match op {
        IrBinaryOp::Add => 0,
        IrBinaryOp::Subtract => 1,
        IrBinaryOp::Multiply => 2,
        IrBinaryOp::Divide => 3,
        IrBinaryOp::Remainder => 4,
        IrBinaryOp::Equal => 5,
        IrBinaryOp::StrictEqual => 6,
        IrBinaryOp::NotEqual => 7,
        IrBinaryOp::StrictNotEqual => 8,
        IrBinaryOp::Less => 9,
        IrBinaryOp::LessEqual => 10,
        IrBinaryOp::Greater => 11,
        IrBinaryOp::GreaterEqual => 12,
        IrBinaryOp::LogicalAnd => 13,
        IrBinaryOp::LogicalOr => 14,
        IrBinaryOp::NullishCoalesce => 15,
    }
}

/// The opcode an IR instruction compiles to.
pub open spec fn spec_opcode(kind: IrInstructionKind) -> Opcode {
    match kind {
        IrInstructionKind::LoadConst(c) => match c {
            IrConst::Object(_) => Opcode::BuildObject,
            IrConst::Array(_) => Opcode::BuildArray,
            _ => Opcode::LoadConst,
        },
        IrInstructionKind::LoadLocal(_) => Opcode::LoadLocal,
        IrInstructionKind::StoreLocal(_, _) => Opcode::StoreLocal,
        IrInstructionKind::LoadMember { .. } => Opcode::LoadMember,
        IrInstructionKind::StoreMember { .. } => Opcode::StoreMember,
        IrInstructionKind::Binary { .. } => Opcode::Binary,
        IrInstructionKind::Call { .. } => Opcode::Call,
        IrInstructionKind::Branch { .. } => Opcode::Branch,
        IrInstructionKind::Jump(_) => Opcode::Jump,
        IrInstructionKind::Return(_) => Opcode::Return,
    }
}

/// The position of the last local named `name` among `locals`.
pub open spec fn last_local(locals: Seq<Seq<char>>, name: Seq<char>) -> Option<int>
    decreases locals.len(),
{
    if locals.len() == 0 {
        None
    } else if locals.last() == name {
        Some(locals.len() - 1)
    } else {
        last_local(locals.drop_last(), name)
    }
}

proof fn lemma_last_local(locals: Seq<Seq<char>>, name: Seq<char>)
    ensures
        match last_local(locals, name) {
            Some(i) => 0 <= i < locals.len() && locals[i] == name,
            None => forall|j: int| 0 <= j < locals.len() ==> locals[j] != name,
        },
    decreases locals.len(),
{
    if locals.len() > 0 {
        lemma_last_local(locals.drop_last(), name);
        assert forall|j: int| 0 <= j < locals.len() - 1 implies locals.drop_last()[j] == locals[j] by {}
    }
}

/// The local slot of `name`: its last slot, or a new one after all others.
fn local_id(name: &String, locals: &mut Vec<String>) -> (id: u32)
    ensures
        match last_local(old(locals)@.map_values(|s: String| s@), name@) {
            Some(i) => final(locals)@ == old(locals)@ && id == #[verifier::truncate] (i as u32),
            None => final(locals)@ == old(locals)@.push(*name) && id == #[verifier::truncate] (old(locals)@.len() as u32),
        },
{
    let ghost names = locals@.map_values(|s: String| s@);
    proof {
        lemma_last_local(names, name@);
    }
    assert(names.take(names.len() as int) =~= names);
    let mut k = locals.len();
    while k > 0
        invariant
            k <= locals@.len(),
            names == locals@.map_values(|s: String| s@),
            last_local(names, name@) == last_local(names.take(k as int), name@),
        decreases k,
    {
        let ghost prefix = names.take(k as int);
        assert(prefix.drop_last() =~= names.take(k - 1));
        if str_eq(locals[k - 1].as_str(), name.as_str()) {
            return #[verifier::truncate] ((k - 1) as u32);
        }
        k -= 1;
    }
    let id = #[verifier::truncate] (locals.len() as u32);
    locals.push(name.clone());
    id
}

/// The pool position of `c`, as an operand.
pub open spec fn slot<T>(pool: Seq<T>, c: T) -> u32 {
    match pool_index(pool, c) {
        Some(i) => i as u32,
        None => 0,
    }
}

/// The slot of the local `name`, as an operand.
pub open spec fn local_slot(locals: Seq<Seq<char>>, name: Seq<char>) -> u32 {
    match last_local(locals, name) {
        Some(i) => i as u32,
        None => 0,
    }
}

/// The constant a scalar IR constant stands for.
pub open spec fn scalar_constant(c: IrConst) -> ConstantModel {
    match c {
        IrConst::Number(v) => ConstantModel::Number(v@),
        IrConst::String(v) => ConstantModel::String(v@),
        IrConst::Boolean(b) => ConstantModel::Boolean(b),
        IrConst::Null => ConstantModel::Null,
        _ => ConstantModel::Undefined,
    }
}

/// The operands of an object literal: the property count, then each
/// property's name (as a symbol constant) and value.
pub open spec fn object_operands(props: Seq<(String, crate::ir::ValueId)>, consts: Seq<ConstantModel>) -> Seq<u32> {
    seq![props.len() as u32] + Seq::new(
        2 * props.len(),
        |k: int|
            if k % 2 == 0 {
                slot(consts, ConstantModel::Symbol(props[k / 2].0@))
            } else {
                props[k / 2].1.0 as u32
            },
    )
}

pub open spec fn value_operands(values: Seq<crate::ir::ValueId>) -> Seq<u32> {
    values.map_values(|v: crate::ir::ValueId| v.0 as u32)
}

/// The operands an IR instruction compiles to, given the constant pool and
/// the locals after it was compiled.
pub open spec fn spec_operands(kind: IrInstructionKind, consts: Seq<ConstantModel>, locals: Seq<Seq<char>>) -> Seq<u32> {
    match kind {
        IrInstructionKind::LoadConst(c) => match c {
            IrConst::Object(props) => object_operands(props@, consts),
            IrConst::Array(values) => seq![values@.len() as u32] + value_operands(values@),
            _ => seq![slot(consts, scalar_constant(c))],
        },
        IrInstructionKind::LoadLocal(name) => seq![local_slot(locals, name@)],
        IrInstructionKind::StoreLocal(name, v) => seq![local_slot(locals, name@), v.0 as u32],
        IrInstructionKind::LoadMember { object, property } => seq![
            object.0 as u32,
            slot(consts, ConstantModel::Symbol(property@)),
        ],
        IrInstructionKind::StoreMember { object, property, value } => seq![
            object.0 as u32,
            slot(consts, ConstantModel::Symbol(property@)),
            value.0 as u32,
        ],
        IrInstructionKind::Binary { op, left, right } => seq![spec_binary_op_code(op), left.0 as u32, right.0 as u32],
        IrInstructionKind::Call { callee, args } => seq![
            slot(consts, ConstantModel::Symbol(callee@)),
            args@.len() as u32,
        ] + value_operands(args@),
        IrInstructionKind::Branch { condition, then_block, else_block } => seq![
            condition.0 as u32,
            then_block.0 as u32,
            else_block.0 as u32,
        ],
        IrInstructionKind::Jump(b) => seq![b.0 as u32],
        IrInstructionKind::Return(v) => match v {
            Some(v) => seq![v.0 as u32],
            None => Seq::empty(),
        },
    }
}

/// Every entry of `before` keeps its first position in `after`.
pub open spec fn keeps<T>(before: Seq<T>, after: Seq<T>) -> bool {
    forall|c: T| #[trigger] pool_index(before, c) is Some ==> pool_index(after, c) == pool_index(before, c)
}

/// Every local of `before` keeps its slot in `after`.
pub open spec fn keeps_locals(before: Seq<Seq<char>>, after: Seq<Seq<char>>) -> bool {
    forall|n: Seq<char>| #[trigger] last_local(before, n) is Some ==> last_local(after, n) == last_local(before, n)
}

/// The constants and the local that an IR instruction refers to are in
/// `consts` and `locals`.
pub open spec fn refs_in(kind: IrInstructionKind, consts: Seq<ConstantModel>, locals: Seq<Seq<char>>) -> bool {
    match kind {
        IrInstructionKind::LoadConst(c) => match c {
            IrConst::Object(props) => forall|j: int|
                0 <= j < props@.len() ==> #[trigger] pool_index(consts, ConstantModel::Symbol(props@[j].0@)) is Some,
            IrConst::Array(_) => true,
            _ => pool_index(consts, scalar_constant(c)) is Some,
        },
        IrInstructionKind::LoadLocal(name) => last_local(locals, name@) is Some,
        IrInstructionKind::StoreLocal(name, _) => last_local(locals, name@) is Some,
        IrInstructionKind::LoadMember { property, .. } => pool_index(consts, ConstantModel::Symbol(property@)) is Some,
        IrInstructionKind::StoreMember { property, .. } => pool_index(consts, ConstantModel::Symbol(property@)) is Some,
        IrInstructionKind::Call { callee, .. } => pool_index(consts, ConstantModel::Symbol(callee@)) is Some,
        _ => true,
    }
}

/// `locals` after compiling an instruction of kind `kind`: a local it names
/// that has no slot yet gets the next one.
pub open spec fn with_local(locals: Seq<Seq<char>>, kind: IrInstructionKind) -> Seq<Seq<char>> {
    let named = match kind {
        IrInstructionKind::LoadLocal(name) => Some(name@),
        IrInstructionKind::StoreLocal(name, _) => Some(name@),
        _ => None,
    };
    match named {
        Some(n) => if last_local(locals, n) is Some {
            locals
        } else {
            locals.push(n)
        },
        None => locals,
    }
}

/// `locals` after compiling the first `n` instructions of `instrs`.
pub open spec fn instrs_locals(locals: Seq<Seq<char>>, instrs: Seq<IrInstruction>, n: int) -> Seq<Seq<char>>
    decreases n,
{
    if n <= 0 || n > instrs.len() {
        locals
    } else {
        with_local(instrs_locals(locals, instrs, n - 1), instrs[n - 1].kind)
    }
}

/// `locals` after compiling the first `n` blocks of `blocks`.
pub open spec fn blocks_locals(locals: Seq<Seq<char>>, blocks: Seq<crate::ir::IrBlock>, n: int) -> Seq<Seq<char>>
    decreases n,
{
    if n <= 0 || n > blocks.len() {
        locals
    } else {
        let before = blocks_locals(locals, blocks, n - 1);
        instrs_locals(before, blocks[n - 1].instructions@, blocks[n - 1].instructions@.len() as int)
    }
}

/// The local slots of a function: its parameters, then each other local
/// in the order its first instruction comes.
pub open spec fn function_locals(f: IrFunction) -> Seq<Seq<char>> {
    blocks_locals(
        f.params@.map_values(|p: crate::ir::IrParam| p.name@),
        f.blocks@,
        f.blocks@.len() as int,
    )
}

/// `out` is the bytecode of the IR instruction `i`, with the constant pool
/// `consts`, the source map `sources` and the local slots `locals`.
pub open spec fn compiles_instruction(
    i: IrInstruction,
    out: Instruction,
    consts: Seq<ConstantModel>,
    sources: Seq<SourceRef>,
    locals: Seq<Seq<char>>,
) -> bool {
    &&& out.opcode == spec_opcode(i.kind)
    &&& out.type_tag == spec_type_tag(i.ty@)
    &&& pool_index(sources, spec_source_ref(i.source_span)) is Some
    &&& out.source_ref == slot(sources, spec_source_ref(i.source_span))
    &&& refs_in(i.kind, consts, locals)
    &&& out.operands@ == spec_operands(i.kind, consts, locals)
}

proof fn lemma_with_local_keeps(locals: Seq<Seq<char>>, kind: IrInstructionKind)
    ensures
        keeps_locals(locals, with_local(locals, kind)),
{
    assert forall|n: Seq<char>| #[trigger] last_local(locals, n) is Some implies last_local(with_local(locals, kind), n)
        == last_local(locals, n) by {
        let after = with_local(locals, kind);
        if after != locals {
            assert(after.drop_last() =~= locals);
            assert(after.last() != n);
        }
    }
}

proof fn lemma_instrs_locals_keeps(locals: Seq<Seq<char>>, instrs: Seq<IrInstruction>, n: int)
    ensures
        keeps_locals(locals, instrs_locals(locals, instrs, n)),
    decreases n,
{
    if n > 0 && n <= instrs.len() {
        lemma_instrs_locals_keeps(locals, instrs, n - 1);
        lemma_with_local_keeps(instrs_locals(locals, instrs, n - 1), instrs[n - 1].kind);
    }
}

proof fn lemma_blocks_locals_keeps(locals: Seq<Seq<char>>, blocks: Seq<crate::ir::IrBlock>, n: int)
    ensures
        keeps_locals(locals, blocks_locals(locals, blocks, n)),
    decreases n,
{
    if n > 0 && n <= blocks.len() {
        lemma_blocks_locals_keeps(locals, blocks, n - 1);
        let before = blocks_locals(locals, blocks, n - 1);
        lemma_instrs_locals_keeps(before, blocks[n - 1].instructions@, blocks[n - 1].instructions@.len() as int);
    }
}

/// What an instruction compiled to stays its bytecode as the pools and the
/// locals grow.
proof fn lemma_compiled_stays(
    i: IrInstruction,
    out: Instruction,
    consts: Seq<ConstantModel>,
    consts2: Seq<ConstantModel>,
    sources: Seq<SourceRef>,
    sources2: Seq<SourceRef>,
    locals: Seq<Seq<char>>,
    locals2: Seq<Seq<char>>,
)
    requires
        compiles_instruction(i, out, consts, sources, locals),
        keeps(consts, consts2),
        keeps(sources, sources2),
        keeps_locals(locals, locals2),
    ensures
        compiles_instruction(i, out, consts2, sources2, locals2),
{
    assert(pool_index(sources, spec_source_ref(i.source_span)) is Some);
    match i.kind {
        IrInstructionKind::LoadConst(c) => match c {
            IrConst::Object(props) => {
                assert forall|j: int| 0 <= j < props@.len() implies #[trigger] pool_index(
                    consts2,
                    ConstantModel::Symbol(props@[j].0@),
                ) is Some && pool_index(consts2, ConstantModel::Symbol(props@[j].0@)) == pool_index(
                    consts,
                    ConstantModel::Symbol(props@[j].0@),
                ) by {
                    assert(pool_index(consts, ConstantModel::Symbol(props@[j].0@)) is Some);
                }
                assert(object_operands(props@, consts2) =~= object_operands(props@, consts));
            },
            IrConst::Array(_) => {},
            _ => {
                assert(pool_index(consts, scalar_constant(c)) is Some);
            },
        },
        IrInstructionKind::LoadLocal(name) => {
            assert(last_local(locals, name@) is Some);
        },
        IrInstructionKind::StoreLocal(name, _) => {
            assert(last_local(locals, name@) is Some);
        },
        IrInstructionKind::LoadMember { property, .. } => {
            assert(pool_index(consts, ConstantModel::Symbol(property@)) is Some);
        },
        IrInstructionKind::StoreMember { property, .. } => {
            assert(pool_index(consts, ConstantModel::Symbol(property@)) is Some);
        },
        IrInstructionKind::Call { callee, .. } => {
            assert(pool_index(consts, ConstantModel::Symbol(callee@)) is Some);
        },
        _ => {},
    }
}

/// `pool` after interning each of `xs` in order.
pub open spec fn intern_all<T>(pool: Seq<T>, xs: Seq<T>) -> Seq<T>
    decreases xs.len(),
{
    if xs.len() == 0 {
        pool
    } else {
        interned(intern_all(pool, xs.drop_last()), xs.last())
    }
}

proof fn lemma_intern_all_concat<T>(pool: Seq<T>, xs: Seq<T>, ys: Seq<T>)
    ensures
        intern_all(pool, xs + ys) == intern_all(intern_all(pool, xs), ys),
    decreases ys.len(),
{
    if ys.len() == 0 {
        assert(xs + ys =~= xs);
    } else {
        assert((xs + ys).drop_last() =~= xs + ys.drop_last());
        lemma_intern_all_concat(pool, xs, ys.drop_last());
    }
}

/// The property names of an object constant, as symbol constants.
pub open spec fn prop_symbols(props: Seq<(String, crate::ir::ValueId)>) -> Seq<ConstantModel> {
    props.map_values(|p: (String, crate::ir::ValueId)| ConstantModel::Symbol(p.0@))
}

/// The constants an instruction interns, in the order it interns them.
pub open spec fn kind_constants(kind: IrInstructionKind) -> Seq<ConstantModel> {
    match kind {
        IrInstructionKind::LoadConst(c) => match c {
            IrConst::Object(props) => prop_symbols(props@),
            IrConst::Array(_) => Seq::empty(),
            _ => seq![scalar_constant(c)],
        },
        IrInstructionKind::LoadMember { property, .. } => seq![ConstantModel::Symbol(property@)],
        IrInstructionKind::StoreMember { property, .. } => seq![ConstantModel::Symbol(property@)],
        IrInstructionKind::Call { callee, .. } => seq![ConstantModel::Symbol(callee@)],
        _ => Seq::empty(),
    }
}

/// The constants the first `n` instructions intern, in order.
pub open spec fn instrs_constants(is: Seq<IrInstruction>, n: int) -> Seq<ConstantModel>
    decreases n,
{
    if n <= 0 || n > is.len() {
        Seq::empty()
    } else {
        instrs_constants(is, n - 1) + kind_constants(is[n - 1].kind)
    }
}

/// The source references the first `n` instructions intern, in order.
pub open spec fn instrs_sources(is: Seq<IrInstruction>, n: int) -> Seq<SourceRef>
    decreases n,
{
    if n <= 0 || n > is.len() {
        Seq::empty()
    } else {
        instrs_sources(is, n - 1).push(spec_source_ref(is[n - 1].source_span))
    }
}

/// The constants the first `n` blocks intern, in order.
pub open spec fn blocks_constants(bs: Seq<crate::ir::IrBlock>, n: int) -> Seq<ConstantModel>
    decreases n,
{
    if n <= 0 || n > bs.len() {
        Seq::empty()
    } else {
        blocks_constants(bs, n - 1) + instrs_constants(bs[n - 1].instructions@, bs[n - 1].instructions@.len() as int)
    }
}

/// The source references the first `n` blocks intern, in order.
pub open spec fn blocks_sources(bs: Seq<crate::ir::IrBlock>, n: int) -> Seq<SourceRef>
    decreases n,
{
    if n <= 0 || n > bs.len() {
        Seq::empty()
    } else {
        blocks_sources(bs, n - 1) + instrs_sources(bs[n - 1].instructions@, bs[n - 1].instructions@.len() as int)
    }
}

/// The constants the first `n` functions intern, in order.
pub open spec fn functions_constants(fs: Seq<IrFunction>, n: int) -> Seq<ConstantModel>
    decreases n,
{
    if n <= 0 || n > fs.len() {
        Seq::empty()
    } else {
        functions_constants(fs, n - 1) + blocks_constants(fs[n - 1].blocks@, fs[n - 1].blocks@.len() as int)
    }
}

/// The source references the first `n` functions intern, in order.
pub open spec fn functions_sources(fs: Seq<IrFunction>, n: int) -> Seq<SourceRef>
    decreases n,
{
    if n <= 0 || n > fs.len() {
        Seq::empty()
    } else {
        functions_sources(fs, n - 1) + blocks_sources(fs[n - 1].blocks@, fs[n - 1].blocks@.len() as int)
    }
}

/// The functions of a program in the order they are compiled: its
/// functions, then the entry function.
pub open spec fn compile_order(ir: IrProgram) -> Seq<IrFunction> {
    ir.functions@.push(ir.entry)
}

struct Compiler {
    constants: Vec<Constant>,
    source_map: Vec<SourceRef>,
}

impl Compiler {
    spec fn pool(&self) -> Seq<ConstantModel> {
        self.constants@.map_values(|c: Constant| c@)
    }

    spec fn wf(&self) -> bool {
        &&& distinct(self.pool())
        &&& distinct(self.source_map@)
    }

    /// `self` has interned more than `before`, keeping every earlier slot.
    spec fn grows(&self, before: &Compiler) -> bool {
        &&& self.wf()
        &&& forall|c: ConstantModel| #[trigger] pool_index(before.pool(), c) is Some ==> pool_index(self.pool(), c)
            == pool_index(before.pool(), c)
        &&& forall|r: SourceRef| #[trigger] pool_index(before.source_map@, r) is Some ==> pool_index(
            self.source_map@,
            r,
        ) == pool_index(before.source_map@, r)
    }

    /// The slot of `c` in the constant pool, adding it if it is new.
    fn intern_constant(&mut self, c: Constant) -> (index: u32)
        requires
            old(self).wf(),
        ensures
            final(self).grows(old(self)),
            final(self).pool() == interned(old(self).pool(), c@),
            final(self).source_map == old(self).source_map,
            index == slot(final(self).pool(), c@),
    {
        let ghost pool = self.pool();
        proof {
            lemma_pool_index(pool, c@);
            lemma_interned(pool, c@);
        }
        let mut k: usize = 0;
        while k < self.constants.len()
            invariant
                k <= self.constants@.len(),
                pool == self.pool(),
                self.wf(),
                self.constants == old(self).constants,
                self.source_map == old(self).source_map,
                forall|j: int| 0 <= j < k ==> pool[j] != c@,
            decreases self.constants.len() - k,
        {
            if constant_eq(&self.constants[k], &c) {
                assert(pool[k as int] == c@);
                proof {
                    lemma_pool_index(pool, c@);
                }
                return #[verifier::truncate] (k as u32);
            }
            k += 1;
        }
        let index = #[verifier::truncate] (self.constants.len() as u32);
        self.constants.push(c);
        assert(self.pool() =~= pool.push(c@));
        proof {
            lemma_pool_index(self.pool(), c@);
            assert(self.pool().drop_last() =~= pool);
        }
        index
    }

    /// The slot of `r` in the source map, adding it if it is new.
    fn intern_source(&mut self, r: SourceRef) -> (index: u32)
        requires
            old(self).wf(),
        ensures
            final(self).grows(old(self)),
            final(self).source_map@ == interned(old(self).source_map@, r),
            final(self).constants == old(self).constants,
            index == slot(final(self).source_map@, r),
    {
        let ghost pool = self.source_map@;
        proof {
            lemma_pool_index(pool, r);
            lemma_interned(pool, r);
        }
        let mut k: usize = 0;
        while k < self.source_map.len()
            invariant
                k <= self.source_map@.len(),
                pool == self.source_map@,
                self.wf(),
                self.constants == old(self).constants,
                self.source_map == old(self).source_map,
                forall|j: int| 0 <= j < k ==> pool[j] != r,
            decreases self.source_map.len() - k,
        {
            if self.source_map[k] == r {
                proof {
                    lemma_pool_index(pool, r);
                }
                return #[verifier::truncate] (k as u32);
            }
            k += 1;
        }
        let index = #[verifier::truncate] (self.source_map.len() as u32);
        self.source_map.push(r);
        proof {
            lemma_pool_index(self.source_map@, r);
            assert(self.source_map@.drop_last() =~= pool);
        }
        index
    }
}

/// The constant an IR constant interns as, for the scalar ones.
fn scalar_to_constant(c: &IrConst) -> (k: Constant)
    ensures
        k@ == scalar_constant(*c),
{
    match c {
        IrConst::Number(v) => Constant::Number(v.clone()),
        IrConst::String(v) => Constant::String(v.clone()),
        IrConst::Boolean(b) => Constant::Boolean(*b),
        IrConst::Null => Constant::Null,
        _ => Constant::Undefined,
    }
}

fn push_values(out: &mut Vec<u32>, values: &Vec<crate::ir::ValueId>)
    ensures
        final(out)@ == old(out)@ + value_operands(values@),
{
    let mut i: usize = 0;
    while i < values.len()
        invariant
            i <= values.len(),
            out@ == old(out)@ + value_operands(values@.take(i as int)),
        decreases values.len() - i,
    {
        out.push(#[verifier::truncate] (values[i].0 as u32));
        assert(value_operands(values@.take(i + 1)) =~= value_operands(values@.take(i as int)).push(
            values@[i as int].0 as u32,
        ));
        i += 1;
    }
    assert(values@.take(values.len() as int) =~= values@);
}

impl Compiler {
    /// The operands of a constant: a constant slot, or for an object or
    /// array its size and parts.
    fn ir_const_operands(&mut self, constant: &IrConst) -> (ops: Vec<u32>)
        requires
            old(self).wf(),
        ensures
            final(self).grows(old(self)),
            final(self).source_map == old(self).source_map,
            ops@ == spec_operands(IrInstructionKind::LoadConst(*constant), final(self).pool(), Seq::empty()),
            refs_in(IrInstructionKind::LoadConst(*constant), final(self).pool(), Seq::empty()),
            final(self).pool() == intern_all(old(self).pool(), kind_constants(IrInstructionKind::LoadConst(*constant))),
    {
        let ghost pool0 = self.pool();
        let mut ops: Vec<u32> = Vec::new();
        match constant {
            IrConst::Object(properties) => {
                ops.push(#[verifier::truncate] (properties.len() as u32));
                let ghost props = properties@;
                let mut i: usize = 0;
                while i < properties.len()
                    invariant
                        i <= properties.len(),
                        props == properties@,
                        self.grows(old(self)),
                        self.source_map == old(self).source_map,
                        pool0 == old(self).pool(),
                        self.pool() == intern_all(
                            pool0,
                            prop_symbols(props).take(i as int),
                        ),
                        ops@.len() == 1 + 2 * i,
                        ops@[0] == #[verifier::truncate] (props.len() as u32),
                        forall|j: int| 0 <= j < i ==> #[trigger] pool_index(self.pool(), ConstantModel::Symbol(props[j].0@)) is Some,
                        forall|k: int| 0 <= k < 2 * i ==> #[trigger] ops@[1 + k] == (if k % 2 == 0 {
                            slot(self.pool(), ConstantModel::Symbol(props[k / 2].0@))
                        } else {
                            props[k / 2].1.0 as u32
                        }),
                    decreases properties.len() - i,
                {
                    let ghost before = *self;
                    let ghost syms = prop_symbols(props);
                    assert(syms.take(i + 1).drop_last() =~= syms.take(i as int));
                    let symbol = self.intern_constant(Constant::Symbol(properties[i].0.clone()));
                    proof {
                        lemma_interned(before.pool(), ConstantModel::Symbol(props[i as int].0@));
                    }
                    ops.push(symbol);
                    ops.push(#[verifier::truncate] (properties[i].1.0 as u32));
                    proof {
                        assert forall|j: int| 0 <= j < i + 1 implies #[trigger] pool_index(
                            self.pool(),
                            ConstantModel::Symbol(props[j].0@),
                        ) is Some by {
                            if j < i {
                                assert(pool_index(before.pool(), ConstantModel::Symbol(props[j].0@)) is Some);
                            }
                        }
                        assert forall|k: int| 0 <= k < 2 * (i + 1) implies #[trigger] ops@[1 + k] == (if k % 2 == 0 {
                            slot(self.pool(), ConstantModel::Symbol(props[k / 2].0@))
                        } else {
                            props[k / 2].1.0 as u32
                        }) by {
                            if k < 2 * i && k % 2 == 0 {
                                assert(pool_index(before.pool(), ConstantModel::Symbol(props[k / 2].0@)) is Some);
                            }
                        }
                    }
                    i += 1;
                }
                proof {
                    assert(prop_symbols(props).take(props.len() as int) =~= prop_symbols(props));
                    let target = object_operands(props, self.pool());
                    assert forall|m: int| 0 <= m < ops@.len() implies ops@[m] == target[m] by {
                        if m > 0 {
                            let k = m - 1;
                            assert(ops@[1 + k] == (if k % 2 == 0 {
                                slot(self.pool(), ConstantModel::Symbol(props[k / 2].0@))
                            } else {
                                props[k / 2].1.0 as u32
                            }));
                        }
                    }
                    assert(ops@ =~= target);
                }
            },
            IrConst::Array(values) => {
                ops.push(#[verifier::truncate] (values.len() as u32));
                push_values(&mut ops, values);
                assert(intern_all(pool0, Seq::<ConstantModel>::empty()) == pool0);
            },
            _ => {
                let ghost before = self.pool();
                let k = scalar_to_constant(constant);
                proof {
                    lemma_interned(before, k@);
                }
                let index = self.intern_constant(k);
                ops.push(index);
                assert(ops@ =~= seq![index]);
                assert(seq![k@].drop_last() =~= Seq::<ConstantModel>::empty());
            },
        }
        ops
    }
}

impl Compiler {
    /// One bytecode instruction for one IR instruction: the opcode of its
    /// kind, the tag of its type, its interned source reference, and its
    /// operands (value numbers, local slots, constant slots, block ids).
    #[verifier::rlimit(30)]
    fn compile_instruction(&mut self, instruction: &IrInstruction, locals: &mut Vec<String>) -> (out: Instruction)
        requires
            old(self).wf(),
        ensures
            final(self).grows(old(self)),
            compiles_instruction(
                *instruction,
                out,
                final(self).pool(),
                final(self).source_map@,
                final(locals)@.map_values(|s: String| s@),
            ),
            final(locals)@.map_values(|s: String| s@) == with_local(
                old(locals)@.map_values(|s: String| s@),
                instruction.kind,
            ),
            final(self).pool() == intern_all(old(self).pool(), kind_constants(instruction.kind)),
            final(self).source_map@ == interned(old(self).source_map@, spec_source_ref(instruction.source_span)),
    {
        let ghost sources_before = self.source_map@;
        proof {
            lemma_interned(sources_before, spec_source_ref(instruction.source_span));
        }
        let source_ref = self.intern_source(source_ref_from_span(instruction.source_span));
        let ghost after_source = self.source_map@;
        let ghost pool_before = self.pool();
        let type_tag = type_tag(&instruction.ty);
        let mut operands: Vec<u32> = Vec::new();
        let opcode = match &instruction.kind {
            IrInstructionKind::LoadConst(constant) => {
                operands = self.ir_const_operands(constant);
                match constant {
                    IrConst::Object(_) => Opcode::BuildObject,
                    IrConst::Array(_) => Opcode::BuildArray,
                    _ => Opcode::LoadConst,
                }
            },
            IrInstructionKind::LoadLocal(name) => {
                proof {
                    lemma_last_local(locals@.map_values(|s: String| s@), name@);
                }
                let id = local_id(name, locals);
                proof {
                    lemma_last_local(locals@.map_values(|s: String| s@), name@);
                }
                operands.push(id);
                Opcode::LoadLocal
            },
            IrInstructionKind::StoreLocal(name, value) => {
                proof {
                    lemma_last_local(locals@.map_values(|s: String| s@), name@);
                }
                let id = local_id(name, locals);
                proof {
                    lemma_last_local(locals@.map_values(|s: String| s@), name@);
                }
                operands.push(id);
                operands.push(#[verifier::truncate] (value.0 as u32));
                Opcode::StoreLocal
            },
            IrInstructionKind::LoadMember { object, property } => {
                proof {
                    lemma_interned(pool_before, ConstantModel::Symbol(property@));
                }
                operands.push(#[verifier::truncate] (object.0 as u32));
                let symbol = self.intern_constant(Constant::Symbol(property.clone()));
                operands.push(symbol);
                Opcode::LoadMember
            },
            IrInstructionKind::StoreMember { object, property, value } => {
                proof {
                    lemma_interned(pool_before, ConstantModel::Symbol(property@));
                }
                operands.push(#[verifier::truncate] (object.0 as u32));
                let symbol = self.intern_constant(Constant::Symbol(property.clone()));
                operands.push(symbol);
                operands.push(#[verifier::truncate] (value.0 as u32));
                Opcode::StoreMember
            },
            IrInstructionKind::Binary { op, left, right } => {
                operands.push(binary_op_code(*op));
                operands.push(#[verifier::truncate] (left.0 as u32));
                operands.push(#[verifier::truncate] (right.0 as u32));
                Opcode::Binary
            },
            IrInstructionKind::Call { callee, args } => {
                proof {
                    lemma_interned(pool_before, ConstantModel::Symbol(callee@));
                }
                let symbol = self.intern_constant(Constant::Symbol(callee.clone()));
                operands.push(symbol);
                operands.push(#[verifier::truncate] (args.len() as u32));
                push_values(&mut operands, args);
                Opcode::Call
            },
            IrInstructionKind::Branch { condition, then_block, else_block } => {
                operands.push(#[verifier::truncate] (condition.0 as u32));
                operands.push(#[verifier::truncate] (then_block.0 as u32));
                operands.push(#[verifier::truncate] (else_block.0 as u32));
                Opcode::Branch
            },
            IrInstructionKind::Jump(block) => {
                operands.push(#[verifier::truncate] (block.0 as u32));
                Opcode::Jump
            },
            IrInstructionKind::Return(value) => {
                match value {
                    Some(v) => operands.push(#[verifier::truncate] (v.0 as u32)),
                    None => {},
                }
                Opcode::Return
            },
        };
        proof {
            lemma_pool_index(after_source, spec_source_ref(instruction.source_span));
        }
        assert(locals@.map_values(|s: String| s@) =~= with_local(
            old(locals)@.map_values(|s: String| s@),
            instruction.kind,
        ));
        assert(self.pool() == intern_all(old(self).pool(), kind_constants(instruction.kind))) by {
            assert(pool_before == old(self).pool());
            assert(intern_all(pool_before, Seq::<ConstantModel>::empty()) == pool_before);
            match instruction.kind {
                IrInstructionKind::LoadMember { property, .. } => {
                    assert(seq![ConstantModel::Symbol(property@)].drop_last() =~= Seq::<ConstantModel>::empty());
                },
                IrInstructionKind::StoreMember { property, .. } => {
                    assert(seq![ConstantModel::Symbol(property@)].drop_last() =~= Seq::<ConstantModel>::empty());
                },
                IrInstructionKind::Call { callee, .. } => {
                    assert(seq![ConstantModel::Symbol(callee@)].drop_last() =~= Seq::<ConstantModel>::empty());
                },
                _ => {},
            }
        }
        assert(operands@ =~= spec_operands(
            instruction.kind,
            self.pool(),
            locals@.map_values(|s: String| s@),
        ));
        Instruction { opcode, operands, type_tag, source_ref }
    }
}

/// `bf` compiles the IR function `f` with the constant pool `consts` and
/// the source map `sources`: same name, parameter and return tags, blocks
/// with the same ids, each IR instruction compiled in place with the
/// function's local slots, and no exception handlers.
pub open spec fn compiles_function(
    f: IrFunction,
    bf: BytecodeFunction,
    consts: Seq<ConstantModel>,
    sources: Seq<SourceRef>,
) -> bool {
    &&& bf.name@ == f.name@
    &&& bf.params@.len() == f.params@.len()
    &&& forall|i: int| 0 <= i < f.params@.len() ==> #[trigger] bf.params@[i] == spec_type_tag(f.params@[i].ty@)
    &&& bf.return_type == spec_type_tag(f.return_type@)
    &&& bf.exception_table@.len() == 0
    &&& bf.blocks@.len() == f.blocks@.len()
    &&& forall|b: int| 0 <= b < f.blocks@.len() ==> {
        &&& (#[trigger] bf.blocks@[b]).id == f.blocks@[b].id.0 as u32
        &&& bf.blocks@[b].instructions@.len() == f.blocks@[b].instructions@.len()
    }
    &&& forall|b: int, k: int|
        0 <= b < f.blocks@.len() && 0 <= k < f.blocks@[b].instructions@.len() ==> compiles_instruction(
            f.blocks@[b].instructions@[k],
            #[trigger] bf.blocks@[b].instructions@[k],
            consts,
            sources,
            function_locals(f),
        )
}

proof fn lemma_function_stays(
    f: IrFunction,
    bf: BytecodeFunction,
    consts: Seq<ConstantModel>,
    consts2: Seq<ConstantModel>,
    sources: Seq<SourceRef>,
    sources2: Seq<SourceRef>,
)
    requires
        compiles_function(f, bf, consts, sources),
        keeps(consts, consts2),
        keeps(sources, sources2),
    ensures
        compiles_function(f, bf, consts2, sources2),
{
    let locals = function_locals(f);
    assert forall|b: int, k: int|
        0 <= b < f.blocks@.len() && 0 <= k < f.blocks@[b].instructions@.len() implies compiles_instruction(
        f.blocks@[b].instructions@[k],
        #[trigger] bf.blocks@[b].instructions@[k],
        consts2,
        sources2,
        locals,
    ) by {
        lemma_compiled_stays(
            f.blocks@[b].instructions@[k],
            bf.blocks@[b].instructions@[k],
            consts,
            consts2,
            sources,
            sources2,
            locals,
            locals,
        );
    }
}

impl Compiler {
    /// Compiles a function; its locals are numbered from its parameters on.
    #[verifier::rlimit(40)]
    fn compile_function(&mut self, function: &IrFunction) -> (out: BytecodeFunction)
        requires
            old(self).wf(),
        ensures
            final(self).grows(old(self)),
            compiles_function(*function, out, final(self).pool(), final(self).source_map@),
            final(self).pool() == intern_all(old(self).pool(), blocks_constants(function.blocks@, function.blocks@.len() as int)),
            final(self).source_map@ == intern_all(
                old(self).source_map@,
                blocks_sources(function.blocks@, function.blocks@.len() as int),
            ),
    {
        let ghost p0 = self.pool();
        let ghost s0 = self.source_map@;
        let ghost names = function.params@.map_values(|p: crate::ir::IrParam| p.name@);
        let mut locals: Vec<String> = Vec::new();
        let mut params: Vec<TypeTag> = Vec::new();
        let mut i: usize = 0;
        while i < function.params.len()
            invariant
                i <= function.params.len(),
                params@.len() == i,
                names == function.params@.map_values(|p: crate::ir::IrParam| p.name@),
                locals@.map_values(|s: String| s@) == names.take(i as int),
                forall|j: int| 0 <= j < i ==> #[trigger] params@[j] == spec_type_tag(function.params@[j].ty@),
            decreases function.params.len() - i,
        {
            let ghost before = locals@;
            let name = function.params[i].name.clone();
            assert(name@ == names[i as int]);
            locals.push(name);
            params.push(type_tag(&function.params[i].ty));
            assert(locals@.map_values(|s: String| s@) =~= before.map_values(|s: String| s@).push(name@));
            assert(names.take(i + 1) =~= names.take(i as int).push(names[i as int]));
            i += 1;
        }
        assert(names.take(function.params@.len() as int) =~= names);
        let mut blocks: Vec<BytecodeBlock> = Vec::new();
        let mut b: usize = 0;
        while b < function.blocks.len()
            invariant
                b <= function.blocks.len(),
                self.grows(old(self)),
                p0 == old(self).pool(),
                s0 == old(self).source_map@,
                self.pool() == intern_all(p0, blocks_constants(function.blocks@, b as int)),
                self.source_map@ == intern_all(s0, blocks_sources(function.blocks@, b as int)),
                blocks@.len() == b,
                locals@.map_values(|s: String| s@) == blocks_locals(names, function.blocks@, b as int),
                forall|x: int| 0 <= x < b ==> {
                    &&& (#[trigger] blocks@[x]).id == function.blocks@[x].id.0 as u32
                    &&& blocks@[x].instructions@.len() == function.blocks@[x].instructions@.len()
                },
                forall|x: int, k: int|
                    0 <= x < b && 0 <= k < function.blocks@[x].instructions@.len() ==> compiles_instruction(
                        function.blocks@[x].instructions@[k],
                        #[trigger] blocks@[x].instructions@[k],
                        self.pool(),
                        self.source_map@,
                        locals@.map_values(|s: String| s@),
                    ),
            decreases function.blocks.len() - b,
        {
            let block = &function.blocks[b];
            let ghost start = locals@.map_values(|s: String| s@);
            let mut instructions: Vec<Instruction> = Vec::new();
            let mut k: usize = 0;
            while k < block.instructions.len()
                invariant
                    b < function.blocks.len(),
                    *block == function.blocks@[b as int],
                    k <= block.instructions.len(),
                    self.grows(old(self)),
                    p0 == old(self).pool(),
                    s0 == old(self).source_map@,
                    self.pool() == intern_all(
                        p0,
                        blocks_constants(function.blocks@, b as int) + instrs_constants(block.instructions@, k as int),
                    ),
                    self.source_map@ == intern_all(
                        s0,
                        blocks_sources(function.blocks@, b as int) + instrs_sources(block.instructions@, k as int),
                    ),
                    instructions@.len() == k,
                    blocks@.len() == b,
                    start == blocks_locals(names, function.blocks@, b as int),
                    locals@.map_values(|s: String| s@) == instrs_locals(start, block.instructions@, k as int),
                    forall|y: int| 0 <= y < k ==> compiles_instruction(
                        block.instructions@[y],
                        #[trigger] instructions@[y],
                        self.pool(),
                        self.source_map@,
                        locals@.map_values(|s: String| s@),
                    ),
                    forall|x: int, j: int|
                        0 <= x < b && 0 <= j < function.blocks@[x].instructions@.len() ==> compiles_instruction(
                            function.blocks@[x].instructions@[j],
                            #[trigger] blocks@[x].instructions@[j],
                            self.pool(),
                            self.source_map@,
                            locals@.map_values(|s: String| s@),
                        ),
                decreases block.instructions.len() - k,
            {
                let ghost before = *self;
                let ghost locals_before = locals@.map_values(|s: String| s@);
                let compiled = self.compile_instruction(&block.instructions[k], &mut locals);
                proof {
                    let ca = blocks_constants(function.blocks@, b as int);
                    let ci = instrs_constants(block.instructions@, k as int);
                    let kc = kind_constants(block.instructions@[k as int].kind);
                    lemma_intern_all_concat(p0, ca + ci, kc);
                    assert(ca + instrs_constants(block.instructions@, k + 1) =~= (ca + ci) + kc);
                    let sa = blocks_sources(function.blocks@, b as int);
                    let si = instrs_sources(block.instructions@, k as int);
                    let r = spec_source_ref(block.instructions@[k as int].source_span);
                    assert(sa + instrs_sources(block.instructions@, k + 1) =~= (sa + si).push(r));
                    assert((sa + si).push(r).drop_last() =~= sa + si);
                    let locals_after = locals@.map_values(|s: String| s@);
                    assert forall|c: ConstantModel| #[trigger] pool_index(old(self).pool(), c) is Some implies pool_index(
                        self.pool(),
                        c,
                    ) == pool_index(old(self).pool(), c) by {
                        assert(pool_index(before.pool(), c) is Some);
                    }
                    assert forall|r: SourceRef| #[trigger] pool_index(old(self).source_map@, r) is Some implies pool_index(
                        self.source_map@,
                        r,
                    ) == pool_index(old(self).source_map@, r) by {
                        assert(pool_index(before.source_map@, r) is Some);
                    }
                    assert(keeps(before.pool(), self.pool()));
                    assert(keeps(before.source_map@, self.source_map@));
                    lemma_with_local_keeps(locals_before, block.instructions@[k as int].kind);
                    assert forall|y: int| 0 <= y < k implies compiles_instruction(
                        block.instructions@[y],
                        #[trigger] instructions@[y],
                        self.pool(),
                        self.source_map@,
                        locals_after,
                    ) by {
                        lemma_compiled_stays(
                            block.instructions@[y],
                            instructions@[y],
                            before.pool(),
                            self.pool(),
                            before.source_map@,
                            self.source_map@,
                            locals_before,
                            locals_after,
                        );
                    }
                    assert forall|x: int, j: int|
                        0 <= x < b && 0 <= j < function.blocks@[x].instructions@.len() implies compiles_instruction(
                        function.blocks@[x].instructions@[j],
                        #[trigger] blocks@[x].instructions@[j],
                        self.pool(),
                        self.source_map@,
                        locals_after,
                    ) by {
                        lemma_compiled_stays(
                            function.blocks@[x].instructions@[j],
                            blocks@[x].instructions@[j],
                            before.pool(),
                            self.pool(),
                            before.source_map@,
                            self.source_map@,
                            locals_before,
                            locals_after,
                        );
                    }
                }
                instructions.push(compiled);
                k += 1;
            }
            blocks.push(BytecodeBlock { id: #[verifier::truncate] (block.id.0 as u32), instructions });
            b += 1;
        }
        BytecodeFunction {
            name: function.name.clone(),
            params,
            return_type: type_tag(&function.return_type),
            blocks,
            exception_table: Vec::new(),
        }
    }

    /// The module for a program: its functions, then the entry function.
    fn compile(&mut self, ir: &IrProgram) -> (module: BytecodeModule)
        requires
            old(self).wf(),
            old(self).pool().len() == 0,
            old(self).source_map@.len() == 0,
        ensures
            compiles_program(*ir, module),
    {
        let mut functions: Vec<BytecodeFunction> = Vec::new();
        let mut i: usize = 0;
        while i < ir.functions.len()
            invariant
                i <= ir.functions.len(),
                self.wf(),
                functions@.len() == i,
                forall|j: int| 0 <= j < i ==> compiles_function(
                    #[trigger] ir.functions@[j],
                    functions@[j],
                    self.pool(),
                    self.source_map@,
                ),
                self.pool() == intern_all(Seq::empty(), functions_constants(compile_order(*ir), i as int)),
                self.source_map@ == intern_all(Seq::empty(), functions_sources(compile_order(*ir), i as int)),
            decreases ir.functions.len() - i,
        {
            let ghost before = *self;
            let compiled = self.compile_function(&ir.functions[i]);
            proof {
                let co = compile_order(*ir);
                assert(co[i as int] == ir.functions@[i as int]);
                let f = co[i as int];
                lemma_intern_all_concat(
                    Seq::empty(),
                    functions_constants(co, i as int),
                    blocks_constants(f.blocks@, f.blocks@.len() as int),
                );
                lemma_intern_all_concat(
                    Seq::empty(),
                    functions_sources(co, i as int),
                    blocks_sources(f.blocks@, f.blocks@.len() as int),
                );
                assert(keeps(before.pool(), self.pool()));
                assert(keeps(before.source_map@, self.source_map@));
                assert forall|j: int| 0 <= j < i implies compiles_function(
                    #[trigger] ir.functions@[j],
                    functions@[j],
                    self.pool(),
                    self.source_map@,
                ) by {
                    lemma_function_stays(
                        ir.functions@[j],
                        functions@[j],
                        before.pool(),
                        self.pool(),
                        before.source_map@,
                        self.source_map@,
                    );
                }
            }
            functions.push(compiled);
            i += 1;
        }
        let ghost before = *self;
        let entry = self.compile_function(&ir.entry);
        proof {
            let co = compile_order(*ir);
            let n = ir.functions@.len() as int;
            assert(co[n] == ir.entry);
            lemma_intern_all_concat(
                Seq::empty(),
                functions_constants(co, n),
                blocks_constants(ir.entry.blocks@, ir.entry.blocks@.len() as int),
            );
            lemma_intern_all_concat(
                Seq::empty(),
                functions_sources(co, n),
                blocks_sources(ir.entry.blocks@, ir.entry.blocks@.len() as int),
            );
            assert(keeps(before.pool(), self.pool()));
            assert(keeps(before.source_map@, self.source_map@));
            assert forall|j: int| 0 <= j < ir.functions@.len() implies compiles_function(
                #[trigger] ir.functions@[j],
                functions@[j],
                self.pool(),
                self.source_map@,
            ) by {
                lemma_function_stays(
                    ir.functions@[j],
                    functions@[j],
                    before.pool(),
                    self.pool(),
                    before.source_map@,
                    self.source_map@,
                );
            }
        }
        functions.push(entry);
        let mut constants: Vec<Constant> = Vec::new();
        let mut source_map: Vec<SourceRef> = Vec::new();
        std::mem::swap(&mut constants, &mut self.constants);
        std::mem::swap(&mut source_map, &mut self.source_map);
        let module = BytecodeModule {
            header: BytecodeHeader { magic: bytecode_magic_bytes(), version: BYTECODE_VERSION },
            constants,
            functions,
            source_map,
        };
        assert(forall|j: int| 0 <= j < ir.functions@.len() ==> #[trigger] module.functions@[j] == functions@[j]);
        module
    }
}

/// `m` is the bytecode module of `ir`: the current header; one function
/// per IR function, in order, then the entry function, each compiled with
/// the module's constant pool and source map, which hold exactly what those
/// functions intern, in the order it is first met.
pub open spec fn compiles_program(ir: IrProgram, m: BytecodeModule) -> bool {
    let consts = m.constants@.map_values(|c: Constant| c@);
    &&& m@.magic == bytecode_magic()
    &&& m@.version == BYTECODE_VERSION
    &&& m.functions@.len() == ir.functions@.len() + 1
    &&& forall|i: int|
        0 <= i < ir.functions@.len() ==> compiles_function(
            #[trigger] ir.functions@[i],
            m.functions@[i],
            consts,
            m.source_map@,
        )
    &&& compiles_function(ir.entry, m.functions@.last(), consts, m.source_map@)
    &&& distinct(consts)
    &&& distinct(m.source_map@)
    &&& consts == intern_all(
        Seq::empty(),
        functions_constants(compile_order(ir), ir.functions@.len() as int + 1),
    )
    &&& m.source_map@ == intern_all(
        Seq::empty(),
        functions_sources(compile_order(ir), ir.functions@.len() as int + 1),
    )
}

/// Compiles an IR program to a bytecode module: constants and source
/// references are interned in the order they are first met, locals are
/// numbered per function from its parameters on.
pub fn compile_program(ir: &IrProgram) -> (module: BytecodeModule)
    ensures
        compiles_program(*ir, module),
{
    let mut compiler = Compiler { constants: Vec::new(), source_map: Vec::new() };
    assert(compiler.pool() =~= Seq::<ConstantModel>::empty());
    compiler.compile(ir)
}

/// What compiling `source` gives for the parse `parsed` of it: analysis
/// runs first; when it reports anything there is no module and its
/// diagnostics come back, otherwise the module compiles the lowered program.
pub open spec fn compiled_from(parsed: ParseOutput, out: BytecodeOutput) -> bool {
    &&& (out.module is Some <==> analyzed(parsed).findings.len() == 0)
    &&& out.diagnostics@.map_values(|d: SemanticDiagnostic| (d.code, d.message@, d.span)) == analyzed(parsed).findings
    &&& out.module is Some ==> exists|ir: IrProgram|
        lowers_program(parsed.program, ir) && #[trigger] compiles_program(ir, out.module->0)
}

/// Compiles TypeScript source to a bytecode module. Source that does not
/// check gives its diagnostics and no module; otherwise the module is what
/// `compile_program` makes of the lowered program.
#[verifier::rlimit(60)]
#[verifier::spinoff_prover]
pub fn compile_source(source: &str) -> (out: BytecodeOutput)
    ensures
        out.module is Some <==> out.diagnostics@.len() == 0,
        source@.len() < usize::MAX ==> exists|parsed: ParseOutput|
            #[trigger] parses_to(source@, parsed) && compiled_from(parsed, out),
        out.module matches Some(m) ==> {
            &&& m@.magic == bytecode_magic()
            &&& m@.version == BYTECODE_VERSION
            &&& m.functions@.len() >= 1
            &&& m.functions@.last().name@ == "__entry"@
            &&& distinct(m.constants@.map_values(|c: Constant| c@))
            &&& distinct(m.source_map@)
        },
{
    let lowered = lower_source(source);
    let ghost lowered_copy = lowered;
    match lowered.ir {
        None => {
            let out = BytecodeOutput { module: None, diagnostics: lowered.diagnostics };
            proof {
                if source@.len() < usize::MAX {
                    let parsed = choose|parsed: ParseOutput| #[trigger] parses_to(source@, parsed) && lowered_from(
                        parsed,
                        lowered_copy,
                    );
                    assert(parses_to(source@, parsed) && compiled_from(parsed, out));
                }
            }
            out
        },
        Some(ir) => {
            let module = compile_program(&ir);
            let out = BytecodeOutput { module: Some(module), diagnostics: Vec::new() };
            proof {
                if source@.len() < usize::MAX {
                    let parsed = choose|parsed: ParseOutput| #[trigger] parses_to(source@, parsed) && lowered_from(
                        parsed,
                        lowered_copy,
                    );
                    assert(lowers_program(parsed.program, ir) && compiles_program(ir, module));
                    assert(lowered_copy.diagnostics@.len() == 0);
                    assert(analyzed(parsed).findings.len() == 0);
                    assert(out.diagnostics@.map_values(|d: SemanticDiagnostic| (d.code, d.message@, d.span))
                        =~= analyzed(parsed).findings);
                    assert(out.module is Some <==> analyzed(parsed).findings.len() == 0);
                    assert(exists|ir2: IrProgram| lowers_program(parsed.program, ir2) && #[trigger] compiles_program(ir2, module));
                    assert(parses_to(source@, parsed));
                    assert(out.module == Some(module));
                    assert(lowers_program(parsed.program, ir) && compiles_program(ir, out.module->0));
                    assert(out.module is Some ==> exists|ir2: IrProgram|
                        lowers_program(parsed.program, ir2) && #[trigger] compiles_program(ir2, out.module->0));
                    assert(out.diagnostics@.map_values(|d: SemanticDiagnostic| (d.code, d.message@, d.span))
                        == analyzed(parsed).findings);
                    assert(compiled_from(parsed, out));
                }
            }
            out
        },
    }
}

} // verus!
