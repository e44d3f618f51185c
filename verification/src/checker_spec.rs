//! What the bytecode verifier reports: every structural error of a module,
//! in the order the checks meet them.
//!
//! Inside a block, values are numbered in the order the value-producing
//! instructions appear, so the values defined so far are exactly `0..defined`.
//! The local slots are the parameters, then each slot that a `StoreLocal`
//! introduces at the next free index.
use vstd::prelude::*;
use crate::bytecode::{
    bytecode_magic, BlockModel, ExceptionEntry, FunctionModel, InstructionModel, ModuleModel,
    Opcode, TypeTag, VerifyErrorCode, BYTECODE_VERSION,
};

verus! {

/// One verifier finding: its code and its message.
pub type Finding = (VerifyErrorCode, Seq<char>);

/// A finding when `failed` holds, nothing otherwise.
pub open spec fn finding_if(failed: bool, code: VerifyErrorCode, message: Seq<char>) -> Seq<Finding> {
    if failed {
        seq![(code, message)]
    } else {
        Seq::empty()
    }
}

/// The operand at `k`, if there is one.
pub open spec fn operand(ops: Seq<u32>, k: int) -> Option<u32> {
    if 0 <= k < ops.len() {
        Some(ops[k])
    } else {
        None
    }
}

pub open spec fn count_findings(ops: Seq<u32>, expected: int) -> Seq<Finding> {
    finding_if(ops.len() != expected, VerifyErrorCode::InvalidValueReference, "invalid operand count"@)
}

pub open spec fn constant_findings(m: ModuleModel, index: Option<u32>) -> Seq<Finding> {
    finding_if(
        index is None || index.unwrap() >= m.constants.len(),
        VerifyErrorCode::InvalidConstantReference,
        "invalid constant pool reference"@,
    )
}

pub open spec fn local_findings(index: Option<u32>, locals: int) -> Seq<Finding> {
    finding_if(
        index is None || index.unwrap() >= locals,
        VerifyErrorCode::InvalidLocalReference,
        "invalid local reference"@,
    )
}

/// A value operand must name a value defined earlier in the block.
pub open spec fn value_findings(index: Option<u32>, defined: nat) -> Seq<Finding> {
    finding_if(
        index is None || index.unwrap() >= defined,
        VerifyErrorCode::InvalidValueReference,
        "invalid value reference"@,
    )
}

pub open spec fn target_findings(index: Option<u32>, block_ids: Set<u32>) -> Seq<Finding> {
    finding_if(
        index is None || !block_ids.contains(index.unwrap()),
        VerifyErrorCode::InvalidJumpTarget,
        "invalid jump target"@,
    )
}

/// The value operands `ops[k..]`, each checked in turn.
pub open spec fn values_from(ops: Seq<u32>, k: int, defined: nat) -> Seq<Finding>
    decreases ops.len() - k,
{
    if k < 0 || k >= ops.len() {
        Seq::empty()
    } else {
        value_findings(Some(ops[k]), defined) + values_from(ops, k + 1, defined)
    }
}

/// The (property, value) pairs of an object from `ops[k..]`: two operands
/// each, the last pair possibly cut short.
pub open spec fn pairs_from(m: ModuleModel, ops: Seq<u32>, k: int, defined: nat) -> Seq<Finding>
    decreases ops.len() + 1 - k,
{
    if k < 1 || k >= ops.len() {
        Seq::empty()
    } else {
        constant_findings(m, Some(ops[k])) + value_findings(operand(ops, k + 1), defined) + pairs_from(
            m,
            ops,
            k + 2,
            defined,
        )
    }
}

/// Whether the instruction produces a new value.
pub open spec fn defines_value(op: Opcode) -> bool {
    match op {
        Opcode::LoadConst | Opcode::BuildObject | Opcode::BuildArray | Opcode::LoadLocal
        | Opcode::LoadMember | Opcode::Binary | Opcode::Call => true,
        _ => false,
    }
}

pub open spec fn is_terminator(op: Opcode) -> bool {
    op == Opcode::Return || op == Opcode::Jump || op == Opcode::Branch
}

/// The findings of the operands of `i`, given the values and locals defined so far.
pub open spec fn operand_findings(
    m: ModuleModel,
    block_ids: Set<u32>,
    i: InstructionModel,
    defined: nat,
    locals: int,
) -> Seq<Finding> {
    let ops = i.operands;
    match i.opcode {
        Opcode::LoadConst => count_findings(ops, 1) + constant_findings(m, operand(ops, 0)),
        Opcode::BuildObject => {
            if ops.len() == 0 {
                seq![(VerifyErrorCode::InvalidValueReference, "object instruction missing property count"@)]
            } else {
                finding_if(
                    ops.len() != 1 + 2 * ops[0],
                    VerifyErrorCode::InvalidValueReference,
                    "object operand count does not match property count"@,
                ) + pairs_from(m, ops, 1, defined)
            }
        },
        Opcode::BuildArray => {
            if ops.len() == 0 {
                seq![(VerifyErrorCode::InvalidValueReference, "array instruction missing element count"@)]
            } else {
                finding_if(
                    ops.len() != ops[0] + 1,
                    VerifyErrorCode::InvalidValueReference,
                    "array operand count does not match element count"@,
                ) + values_from(ops, 1, defined)
            }
        },
        Opcode::LoadLocal => count_findings(ops, 1) + local_findings(operand(ops, 0), locals),
        Opcode::StoreLocal => count_findings(ops, 2) + finding_if(
            ops.len() > 0 && ops[0] > locals,
            VerifyErrorCode::InvalidLocalReference,
            "store skips local index"@,
        ) + value_findings(operand(ops, 1), defined),
        Opcode::LoadMember => count_findings(ops, 2) + value_findings(operand(ops, 0), defined)
            + constant_findings(m, operand(ops, 1)),
        Opcode::StoreMember => count_findings(ops, 3) + value_findings(operand(ops, 0), defined)
            + constant_findings(m, operand(ops, 1)) + value_findings(operand(ops, 2), defined),
        Opcode::Binary => count_findings(ops, 3) + value_findings(operand(ops, 1), defined)
            + value_findings(operand(ops, 2), defined) + finding_if(
            i.type_tag == TypeTag::Unknown,
            VerifyErrorCode::InvalidTypeState,
            "binary instruction must have verifier-visible type"@,
        ),
        Opcode::Call => {
            if ops.len() < 2 {
                seq![(VerifyErrorCode::InvalidValueReference, "call operands missing"@)]
            } else {
                constant_findings(m, operand(ops, 0)) + finding_if(
                    ops.len() != ops[1] + 2,
                    VerifyErrorCode::InvalidValueReference,
                    "call argument count does not match operands"@,
                ) + values_from(ops, 2, defined)
            }
        },
        Opcode::Branch => count_findings(ops, 3) + value_findings(operand(ops, 0), defined)
            + target_findings(operand(ops, 1), block_ids) + target_findings(operand(ops, 2), block_ids),
        Opcode::Jump => count_findings(ops, 1) + target_findings(operand(ops, 0), block_ids),
        Opcode::Return => finding_if(
            ops.len() > 1,
            VerifyErrorCode::InvalidValueReference,
            "return accepts zero or one value"@,
        ) + (if ops.len() > 0 {
            value_findings(Some(ops[0]), defined)
        } else {
            Seq::empty()
        }),
    }
}

/// All findings of one instruction: its source reference, then its operands.
pub open spec fn instruction_findings(
    m: ModuleModel,
    block_ids: Set<u32>,
    i: InstructionModel,
    defined: nat,
    locals: int,
) -> Seq<Finding> {
    finding_if(
        i.source_ref >= m.source_map.len(),
        VerifyErrorCode::InvalidSourceReference,
        "invalid source map reference"@,
    ) + operand_findings(m, block_ids, i, defined, locals)
}

/// The values defined once `i` has been checked. A call without its two
/// leading operands is rejected before it would define one.
pub open spec fn defined_after(i: InstructionModel, defined: nat) -> nat {
    if defines_value(i.opcode) && !(i.opcode == Opcode::Call && i.operands.len() < 2) {
        defined + 1
    } else {
        defined
    }
}

/// The local slots once `i` has been checked: a store to the next free slot adds it.
pub open spec fn locals_after(i: InstructionModel, locals: int) -> int {
    if i.opcode == Opcode::StoreLocal && i.operands.len() > 0 && i.operands[0] == locals {
        locals + 1
    } else {
        locals
    }
}

/// The findings of the instructions `instrs[k..]` of a block.
pub open spec fn instructions_from(
    m: ModuleModel,
    block_ids: Set<u32>,
    instrs: Seq<InstructionModel>,
    k: int,
    defined: nat,
    locals: int,
) -> Seq<Finding>
    decreases instrs.len() - k,
{
    if k < 0 || k >= instrs.len() {
        Seq::empty()
    } else {
        instruction_findings(m, block_ids, instrs[k], defined, locals) + instructions_from(
            m,
            block_ids,
            instrs,
            k + 1,
            defined_after(instrs[k], defined),
            locals_after(instrs[k], locals),
        )
    }
}

/// The local slots a function starts each block with: its parameters, counted in 32 bits.
pub open spec fn param_locals(f: FunctionModel) -> int {
    (f.params.len() as u32) as int
}

pub open spec fn block_findings(m: ModuleModel, f: FunctionModel, b: BlockModel) -> Seq<Finding> {
    instructions_from(m, block_id_set(f), b.instructions, 0, 0, param_locals(f))
}

/// The findings of the blocks `f.blocks[k..]`.
pub open spec fn blocks_from(m: ModuleModel, f: FunctionModel, k: int) -> Seq<Finding>
    decreases f.blocks.len() - k,
{
    if k < 0 || k >= f.blocks.len() {
        Seq::empty()
    } else {
        block_findings(m, f, f.blocks[k]) + blocks_from(m, f, k + 1)
    }
}

pub open spec fn block_id_set(f: FunctionModel) -> Set<u32> {
    Set::new(|id: u32| exists|k: int| 0 <= k < f.blocks.len() && f.blocks[k].id == id)
}

pub open spec fn exception_findings(ids: Set<u32>, e: ExceptionEntry) -> Seq<Finding> {
    finding_if(
        !ids.contains(e.start_block) || !ids.contains(e.end_block) || !ids.contains(e.handler_block)
            || e.start_block > e.end_block,
        VerifyErrorCode::InvalidExceptionEntry,
        "invalid exception table entry"@,
    )
}

/// The findings of the exception entries `f.exception_table[k..]`.
pub open spec fn exceptions_from(f: FunctionModel, k: int) -> Seq<Finding>
    decreases f.exception_table.len() - k,
{
    if k < 0 || k >= f.exception_table.len() {
        Seq::empty()
    } else {
        exception_findings(block_id_set(f), f.exception_table[k]) + exceptions_from(f, k + 1)
    }
}

/// Whether some block of `f` holds a return, jump or branch.
pub open spec fn has_terminator(f: FunctionModel) -> bool {
    exists|b: int, k: int|
        0 <= b < f.blocks.len() && 0 <= k < f.blocks[b].instructions.len() && is_terminator(
            #[trigger] f.blocks[b].instructions[k].opcode,
        )
}

/// The findings of one function: its exception table, its blocks, then a
/// missing terminator.
pub open spec fn function_findings(m: ModuleModel, f: FunctionModel) -> Seq<Finding> {
    exceptions_from(f, 0) + blocks_from(m, f, 0) + finding_if(
        !has_terminator(f),
        VerifyErrorCode::MissingTerminator,
        "function has no return, jump, or branch"@,
    )
}

/// The findings of the functions `m.functions[k..]`.
pub open spec fn functions_from(m: ModuleModel, k: int) -> Seq<Finding>
    decreases m.functions.len() - k,
{
    if k < 0 || k >= m.functions.len() {
        Seq::empty()
    } else {
        function_findings(m, m.functions[k]) + functions_from(m, k + 1)
    }
}

/// Everything the verifier reports about `m`, in order: the header, an empty
/// function table, then each function.
pub open spec fn module_findings(m: ModuleModel) -> Seq<Finding> {
    finding_if(
        m.magic != bytecode_magic() || m.version != BYTECODE_VERSION,
        VerifyErrorCode::InvalidHeader,
        "invalid bytecode header"@,
    ) + finding_if(
        m.functions.len() == 0,
        VerifyErrorCode::EmptyFunctionTable,
        "function table is empty"@,
    ) + functions_from(m, 0)
}

} // verus!
