//! The bytecode verifier: structural checks that a module must pass before it runs.
use vstd::prelude::*;
use crate::bytecode::{bytecode_magic, bytecode_magic_bytes, BytecodeBlock, BytecodeFunction, BytecodeModule, Instruction, Opcode, TypeTag, VerifyError, VerifyErrorCode, BYTECODE_VERSION};
use crate::checker_spec::{block_findings, block_id_set, blocks_from, constant_findings, count_findings, defined_after, exceptions_from, finding_if, function_findings, functions_from, has_terminator, instruction_findings, instructions_from, is_terminator, local_findings, locals_after, module_findings, operand, operand_findings, pairs_from, param_locals, target_findings, value_findings, values_from, Finding};

verus! {

/// The findings that a list of reported errors stands for.
pub open spec fn findings_of(errors: Seq<VerifyError>) -> Seq<Finding> {
    errors.map_values(|e: VerifyError| e@)
}

proof fn lemma_findings_push(errors: Seq<VerifyError>, e: VerifyError)
    ensures
        findings_of(errors.push(e)) == findings_of(errors).push(e@),
{
    assert(findings_of(errors.push(e)) =~= findings_of(errors).push(e@));
}

fn operand_at(ops: &Vec<u32>, k: usize) -> (r: Option<u32>)
    ensures
        r == operand(ops@, k as int),
{
    if k < ops.len() {
        Some(ops[k])
    } else {
        None
    }
}

/// Whether some block of `f` has the id `id`.
fn has_block(f: &BytecodeFunction, id: u32) -> (found: bool)
    ensures
        found == block_id_set(f@).contains(id),
{
    let mut k: usize = 0;
    while k < f.blocks.len()
        invariant
            k <= f.blocks.len(),
            forall|j: int| 0 <= j < k ==> f.blocks@[j].id != id,
        decreases f.blocks.len() - k,
    {
        if f.blocks[k].id == id {
            assert(f@.blocks[k as int].id == id);
            return true;
        }
        k += 1;
    }
    proof {
        if block_id_set(f@).contains(id) {
            let j = choose|j: int| 0 <= j < f@.blocks.len() && f@.blocks[j].id == id;
            assert(f.blocks@[j].id == id);
        }
    }
    false
}

struct Verifier<'a> {
    module: &'a BytecodeModule,
    errors: Vec<VerifyError>,
}

impl<'a> Verifier<'a> {
    /// Records one finding.
    fn report(&mut self, code: VerifyErrorCode, message: &str)
        ensures
            final(self).module == old(self).module,
            findings_of(final(self).errors@) == findings_of(old(self).errors@).push((code, message@)),
    {
        let e = VerifyError { code, message: message.to_owned() };
        proof {
            lemma_findings_push(self.errors@, e);
        }
        self.errors.push(e);
    }

    /// Records a finding when `failed` holds.
    fn report_if(&mut self, failed: bool, code: VerifyErrorCode, message: &str)
        ensures
            final(self).module == old(self).module,
            findings_of(final(self).errors@) == findings_of(old(self).errors@) + finding_if(
                failed,
                code,
                message@,
            ),
    {
        if failed {
            self.report(code, message);
            assert(findings_of(self.errors@) =~= findings_of(old(self).errors@) + finding_if(
                failed,
                code,
                message@,
            ));
        } else {
            assert(findings_of(self.errors@) =~= findings_of(old(self).errors@) + finding_if(
                failed,
                code,
                message@,
            ));
        }
    }

    fn expect_operands(&mut self, ops: &Vec<u32>, count: usize)
        ensures
            final(self).module == old(self).module,
            findings_of(final(self).errors@) == findings_of(old(self).errors@) + count_findings(
                ops@,
                count as int,
            ),
    {
        self.report_if(ops.len() != count, VerifyErrorCode::InvalidValueReference, "invalid operand count");
    }

    fn check_constant(&mut self, index: Option<u32>)
        ensures
            final(self).module == old(self).module,
            findings_of(final(self).errors@) == findings_of(old(self).errors@) + constant_findings(
                old(self).module@,
                index,
            ),
    {
        let failed = match index {
            None => true,
            Some(i) => i as usize >= self.module.constants.len(),
        };
        self.report_if(failed, VerifyErrorCode::InvalidConstantReference, "invalid constant pool reference");
    }

    fn check_local(&mut self, index: Option<u32>, locals: u64)
        ensures
            final(self).module == old(self).module,
            findings_of(final(self).errors@) == findings_of(old(self).errors@) + local_findings(
                index,
                locals as int,
            ),
    {
        let failed = match index {
            None => true,
            Some(i) => i as u64 >= locals,
        };
        self.report_if(failed, VerifyErrorCode::InvalidLocalReference, "invalid local reference");
    }

    fn check_value(&mut self, index: Option<u32>, defined: u64)
        ensures
            final(self).module == old(self).module,
            findings_of(final(self).errors@) == findings_of(old(self).errors@) + value_findings(
                index,
                defined as nat,
            ),
    {
        let failed = match index {
            None => true,
            Some(i) => i as u64 >= defined,
        };
        self.report_if(failed, VerifyErrorCode::InvalidValueReference, "invalid value reference");
    }

    fn check_target(&mut self, index: Option<u32>, f: &BytecodeFunction)
        ensures
            final(self).module == old(self).module,
            findings_of(final(self).errors@) == findings_of(old(self).errors@) + target_findings(
                index,
                block_id_set(f@),
            ),
    {
        let failed = match index {
            None => true,
            Some(i) => !has_block(f, i),
        };
        self.report_if(failed, VerifyErrorCode::InvalidJumpTarget, "invalid jump target");
    }

    /// Checks the value operands `ops[k..]`.
    fn check_values_from(&mut self, ops: &Vec<u32>, k: usize, defined: u64)
        ensures
            final(self).module == old(self).module,
            findings_of(final(self).errors@) == findings_of(old(self).errors@) + values_from(
                ops@,
                k as int,
                defined as nat,
            ),
    {
        let ghost start = findings_of(self.errors@);
        let ghost module = self.module;
        let mut j = k;
        if j > ops.len() {
            j = ops.len();
        }
        assert(values_from(ops@, k as int, defined as nat) == values_from(ops@, j as int, defined as nat));
        while j < ops.len()
            invariant
                j <= ops.len(),
                self.module == module,
                findings_of(self.errors@) + values_from(ops@, j as int, defined as nat) == start
                    + values_from(ops@, k as int, defined as nat),
            decreases ops.len() - j,
        {
            let ghost before = findings_of(self.errors@);
            self.check_value(Some(ops[j]), defined);
            assert(before + values_from(ops@, j as int, defined as nat) =~= findings_of(self.errors@)
                + values_from(ops@, j + 1, defined as nat));
            j += 1;
        }
        assert(findings_of(self.errors@) + values_from(ops@, j as int, defined as nat) =~= findings_of(
            self.errors@,
        ));
    }

    /// Checks the (property, value) pairs of an object from `ops[1..]`.
    fn check_pairs(&mut self, ops: &Vec<u32>, defined: u64)
        ensures
            final(self).module == old(self).module,
            findings_of(final(self).errors@) == findings_of(old(self).errors@) + pairs_from(
                old(self).module@,
                ops@,
                1,
                defined as nat,
            ),
    {
        let ghost start = findings_of(self.errors@);
        let ghost module = self.module;
        if ops.len() == 0 {
            return;
        }
        let mut j: usize = 1;
        while j < ops.len()
            invariant
                1 <= j,
                j <= ops.len(),
                self.module == module,
                findings_of(self.errors@) + pairs_from(module@, ops@, j as int, defined as nat) == start
                    + pairs_from(module@, ops@, 1, defined as nat),
            decreases ops.len() - j,
        {
            let ghost before = findings_of(self.errors@);
            self.check_constant(Some(ops[j]));
            let value = operand_at(ops, j + 1);
            self.check_value(value, defined);
            assert(before + pairs_from(module@, ops@, j as int, defined as nat) =~= findings_of(
                self.errors@,
            ) + pairs_from(module@, ops@, j + 2, defined as nat));
            if ops.len() - j <= 2 {
                j = ops.len();
            } else {
                j += 2;
            }
        }
        assert(findings_of(self.errors@) + pairs_from(module@, ops@, j as int, defined as nat)
            =~= findings_of(self.errors@));
    }
}

impl<'a> Verifier<'a> {
    /// Checks the operands of `ins` against what is defined so far.
    fn check_operands(&mut self, f: &BytecodeFunction, ins: &Instruction, defined: u64, locals: u64)
        ensures
            final(self).module == old(self).module,
            findings_of(final(self).errors@) == findings_of(old(self).errors@) + operand_findings(
                old(self).module@,
                block_id_set(f@),
                ins@,
                defined as nat,
                locals as int,
            ),
    {
        match ins.opcode {
            Opcode::LoadConst => self.check_load_const(f, ins, defined, locals),
            Opcode::BuildObject => self.check_build_object(f, ins, defined, locals),
            Opcode::BuildArray => self.check_build_array(f, ins, defined, locals),
            Opcode::LoadLocal => self.check_load_local(f, ins, defined, locals),
            Opcode::StoreLocal => self.check_store_local(f, ins, defined, locals),
            Opcode::LoadMember => self.check_load_member(f, ins, defined, locals),
            Opcode::StoreMember => self.check_store_member(f, ins, defined, locals),
            Opcode::Binary => self.check_binary(f, ins, defined, locals),
            Opcode::Call => self.check_call(f, ins, defined, locals),
            Opcode::Branch => self.check_branch(f, ins, defined, locals),
            Opcode::Jump => self.check_jump(f, ins, defined, locals),
            Opcode::Return => self.check_return(f, ins, defined, locals),
        }
    }

    fn check_load_const(&mut self, f: &BytecodeFunction, ins: &Instruction, defined: u64, locals: u64)
        requires
            ins.opcode == Opcode::LoadConst,
        ensures
            final(self).module == old(self).module,
            findings_of(final(self).errors@) == findings_of(old(self).errors@) + operand_findings(
                old(self).module@,
                block_id_set(f@),
                ins@,
                defined as nat,
                locals as int,
            ),
    {
        let ghost start = findings_of(self.errors@);
        let ops = &ins.operands;
        self.expect_operands(ops, 1);
        self.check_constant(operand_at(ops, 0));
        assert(findings_of(self.errors@) =~= start + operand_findings(
            old(self).module@,
            block_id_set(f@),
            ins@,
            defined as nat,
            locals as int,
        ));
    }

    fn check_build_object(&mut self, f: &BytecodeFunction, ins: &Instruction, defined: u64, locals: u64)
        requires
            ins.opcode == Opcode::BuildObject,
        ensures
            final(self).module == old(self).module,
            findings_of(final(self).errors@) == findings_of(old(self).errors@) + operand_findings(
                old(self).module@,
                block_id_set(f@),
                ins@,
                defined as nat,
                locals as int,
            ),
    {
        let ghost start = findings_of(self.errors@);
        let ops = &ins.operands;
        if ops.len() == 0 {
            self.report(
                VerifyErrorCode::InvalidValueReference,
                "object instruction missing property count",
            );
        } else {
            let expected: u64 = 1 + 2 * (ops[0] as u64);
            self.report_if(
                ops.len() as u64 != expected,
                VerifyErrorCode::InvalidValueReference,
                "object operand count does not match property count",
            );
            self.check_pairs(ops, defined);
        }
        assert(findings_of(self.errors@) =~= start + operand_findings(
            old(self).module@,
            block_id_set(f@),
            ins@,
            defined as nat,
            locals as int,
        ));
    }

    fn check_build_array(&mut self, f: &BytecodeFunction, ins: &Instruction, defined: u64, locals: u64)
        requires
            ins.opcode == Opcode::BuildArray,
        ensures
            final(self).module == old(self).module,
            findings_of(final(self).errors@) == findings_of(old(self).errors@) + operand_findings(
                old(self).module@,
                block_id_set(f@),
                ins@,
                defined as nat,
                locals as int,
            ),
    {
        let ghost start = findings_of(self.errors@);
        let ops = &ins.operands;
        if ops.len() == 0 {
            self.report(
                VerifyErrorCode::InvalidValueReference,
                "array instruction missing element count",
            );
        } else {
            let expected: u64 = ops[0] as u64 + 1;
            self.report_if(
                ops.len() as u64 != expected,
                VerifyErrorCode::InvalidValueReference,
                "array operand count does not match element count",
            );
            self.check_values_from(ops, 1, defined);
        }
        assert(findings_of(self.errors@) =~= start + operand_findings(
            old(self).module@,
            block_id_set(f@),
            ins@,
            defined as nat,
            locals as int,
        ));
    }

    fn check_load_local(&mut self, f: &BytecodeFunction, ins: &Instruction, defined: u64, locals: u64)
        requires
            ins.opcode == Opcode::LoadLocal,
        ensures
            final(self).module == old(self).module,
            findings_of(final(self).errors@) == findings_of(old(self).errors@) + operand_findings(
                old(self).module@,
                block_id_set(f@),
                ins@,
                defined as nat,
                locals as int,
            ),
    {
        let ghost start = findings_of(self.errors@);
        let ops = &ins.operands;
        self.expect_operands(ops, 1);
        self.check_local(operand_at(ops, 0), locals);
        assert(findings_of(self.errors@) =~= start + operand_findings(
            old(self).module@,
            block_id_set(f@),
            ins@,
            defined as nat,
            locals as int,
        ));
    }

    fn check_store_local(&mut self, f: &BytecodeFunction, ins: &Instruction, defined: u64, locals: u64)
        requires
            ins.opcode == Opcode::StoreLocal,
        ensures
            final(self).module == old(self).module,
            findings_of(final(self).errors@) == findings_of(old(self).errors@) + operand_findings(
                old(self).module@,
                block_id_set(f@),
                ins@,
                defined as nat,
                locals as int,
            ),
    {
        let ghost start = findings_of(self.errors@);
        let ops = &ins.operands;
        self.expect_operands(ops, 2);
        let skips = ops.len() > 0 && ops[0] as u64 > locals;
        self.report_if(skips, VerifyErrorCode::InvalidLocalReference, "store skips local index");
        self.check_value(operand_at(ops, 1), defined);
        assert(findings_of(self.errors@) =~= start + operand_findings(
            old(self).module@,
            block_id_set(f@),
            ins@,
            defined as nat,
            locals as int,
        ));
    }

    fn check_load_member(&mut self, f: &BytecodeFunction, ins: &Instruction, defined: u64, locals: u64)
        requires
            ins.opcode == Opcode::LoadMember,
        ensures
            final(self).module == old(self).module,
            findings_of(final(self).errors@) == findings_of(old(self).errors@) + operand_findings(
                old(self).module@,
                block_id_set(f@),
                ins@,
                defined as nat,
                locals as int,
            ),
    {
        let ghost start = findings_of(self.errors@);
        let ops = &ins.operands;
        self.expect_operands(ops, 2);
        self.check_value(operand_at(ops, 0), defined);
        self.check_constant(operand_at(ops, 1));
        assert(findings_of(self.errors@) =~= start + operand_findings(
            old(self).module@,
            block_id_set(f@),
            ins@,
            defined as nat,
            locals as int,
        ));
    }

    fn check_store_member(&mut self, f: &BytecodeFunction, ins: &Instruction, defined: u64, locals: u64)
        requires
            ins.opcode == Opcode::StoreMember,
        ensures
            final(self).module == old(self).module,
            findings_of(final(self).errors@) == findings_of(old(self).errors@) + operand_findings(
                old(self).module@,
                block_id_set(f@),
                ins@,
                defined as nat,
                locals as int,
            ),
    {
        let ghost start = findings_of(self.errors@);
        let ops = &ins.operands;
        self.expect_operands(ops, 3);
        self.check_value(operand_at(ops, 0), defined);
        self.check_constant(operand_at(ops, 1));
        self.check_value(operand_at(ops, 2), defined);
        assert(findings_of(self.errors@) =~= start + operand_findings(
            old(self).module@,
            block_id_set(f@),
            ins@,
            defined as nat,
            locals as int,
        ));
    }

    fn check_binary(&mut self, f: &BytecodeFunction, ins: &Instruction, defined: u64, locals: u64)
        requires
            ins.opcode == Opcode::Binary,
        ensures
            final(self).module == old(self).module,
            findings_of(final(self).errors@) == findings_of(old(self).errors@) + operand_findings(
                old(self).module@,
                block_id_set(f@),
                ins@,
                defined as nat,
                locals as int,
            ),
    {
        let ghost start = findings_of(self.errors@);
        let ops = &ins.operands;
        self.expect_operands(ops, 3);
        self.check_value(operand_at(ops, 1), defined);
        self.check_value(operand_at(ops, 2), defined);
        self.report_if(
            ins.type_tag == TypeTag::Unknown,
            VerifyErrorCode::InvalidTypeState,
            "binary instruction must have verifier-visible type",
        );
        assert(findings_of(self.errors@) =~= start + operand_findings(
            old(self).module@,
            block_id_set(f@),
            ins@,
            defined as nat,
            locals as int,
        ));
    }

    fn check_call(&mut self, f: &BytecodeFunction, ins: &Instruction, defined: u64, locals: u64)
        requires
            ins.opcode == Opcode::Call,
        ensures
            final(self).module == old(self).module,
            findings_of(final(self).errors@) == findings_of(old(self).errors@) + operand_findings(
                old(self).module@,
                block_id_set(f@),
                ins@,
                defined as nat,
                locals as int,
            ),
    {
        let ghost start = findings_of(self.errors@);
        let ops = &ins.operands;
        if ops.len() < 2 {
            self.report(VerifyErrorCode::InvalidValueReference, "call operands missing");
        } else {
            self.check_constant(operand_at(ops, 0));
            let expected: u64 = ops[1] as u64 + 2;
            self.report_if(
                ops.len() as u64 != expected,
                VerifyErrorCode::InvalidValueReference,
                "call argument count does not match operands",
            );
            self.check_values_from(ops, 2, defined);
        }
        assert(findings_of(self.errors@) =~= start + operand_findings(
            old(self).module@,
            block_id_set(f@),
            ins@,
            defined as nat,
            locals as int,
        ));
    }

    fn check_branch(&mut self, f: &BytecodeFunction, ins: &Instruction, defined: u64, locals: u64)
        requires
            ins.opcode == Opcode::Branch,
        ensures
            final(self).module == old(self).module,
            findings_of(final(self).errors@) == findings_of(old(self).errors@) + operand_findings(
                old(self).module@,
                block_id_set(f@),
                ins@,
                defined as nat,
                locals as int,
            ),
    {
        let ghost start = findings_of(self.errors@);
        let ops = &ins.operands;
        self.expect_operands(ops, 3);
        self.check_value(operand_at(ops, 0), defined);
        self.check_target(operand_at(ops, 1), f);
        self.check_target(operand_at(ops, 2), f);
        assert(findings_of(self.errors@) =~= start + operand_findings(
            old(self).module@,
            block_id_set(f@),
            ins@,
            defined as nat,
            locals as int,
        ));
    }

    fn check_jump(&mut self, f: &BytecodeFunction, ins: &Instruction, defined: u64, locals: u64)
        requires
            ins.opcode == Opcode::Jump,
        ensures
            final(self).module == old(self).module,
            findings_of(final(self).errors@) == findings_of(old(self).errors@) + operand_findings(
                old(self).module@,
                block_id_set(f@),
                ins@,
                defined as nat,
                locals as int,
            ),
    {
        let ghost start = findings_of(self.errors@);
        let ops = &ins.operands;
        self.expect_operands(ops, 1);
        self.check_target(operand_at(ops, 0), f);
        assert(findings_of(self.errors@) =~= start + operand_findings(
            old(self).module@,
            block_id_set(f@),
            ins@,
            defined as nat,
            locals as int,
        ));
    }

    fn check_return(&mut self, f: &BytecodeFunction, ins: &Instruction, defined: u64, locals: u64)
        requires
            ins.opcode == Opcode::Return,
        ensures
            final(self).module == old(self).module,
            findings_of(final(self).errors@) == findings_of(old(self).errors@) + operand_findings(
                old(self).module@,
                block_id_set(f@),
                ins@,
                defined as nat,
                locals as int,
            ),
    {
        let ghost start = findings_of(self.errors@);
        let ops = &ins.operands;
        self.report_if(
            ops.len() > 1,
            VerifyErrorCode::InvalidValueReference,
            "return accepts zero or one value",
        );
        if ops.len() > 0 {
            self.check_value(Some(ops[0]), defined);
        }
        assert(findings_of(self.errors@) =~= start + operand_findings(
            old(self).module@,
            block_id_set(f@),
            ins@,
            defined as nat,
            locals as int,
        ));
    }

    /// Checks one instruction, then accounts for the value or local slot it introduces.
    fn check_instruction(
        &mut self,
        f: &BytecodeFunction,
        ins: &Instruction,
        defined: &mut u64,
        locals: &mut u64,
    )
        requires
            *old(defined) < u64::MAX,
            *old(locals) <= u32::MAX + 1,
        ensures
            final(self).module == old(self).module,
            findings_of(final(self).errors@) == findings_of(old(self).errors@) + instruction_findings(
                old(self).module@,
                block_id_set(f@),
                ins@,
                *old(defined) as nat,
                *old(locals) as int,
            ),
            *final(defined) as nat == defined_after(ins@, *old(defined) as nat),
            *final(locals) as int == locals_after(ins@, *old(locals) as int),
            *final(locals) <= u32::MAX + 1,
    {
        let ghost start = findings_of(self.errors@);
        self.report_if(
            ins.source_ref as usize >= self.module.source_map.len(),
            VerifyErrorCode::InvalidSourceReference,
            "invalid source map reference",
        );
        self.check_operands(f, ins, *defined, *locals);
        assert(findings_of(self.errors@) =~= start + instruction_findings(
            old(self).module@,
            block_id_set(f@),
            ins@,
            *old(defined) as nat,
            *old(locals) as int,
        ));
        let call_without_operands = match ins.opcode {
            Opcode::Call => ins.operands.len() < 2,
            _ => false,
        };
        let defines = match ins.opcode {
            Opcode::LoadConst | Opcode::BuildObject | Opcode::BuildArray | Opcode::LoadLocal
            | Opcode::LoadMember | Opcode::Binary | Opcode::Call => true,
            _ => false,
        };
        if defines && !call_without_operands {
            *defined = *defined + 1;
        }
        match ins.opcode {
            Opcode::StoreLocal => {
                if ins.operands.len() > 0 && ins.operands[0] as u64 == *locals {
                    *locals = *locals + 1;
                }
            },
            _ => {},
        }
    }
}

impl<'a> Verifier<'a> {
    /// Checks the instructions of one block; tells whether the block holds a terminator.
    fn check_block(&mut self, f: &BytecodeFunction, block: &BytecodeBlock) -> (terminated: bool)
        ensures
            final(self).module == old(self).module,
            findings_of(final(self).errors@) == findings_of(old(self).errors@) + block_findings(
                old(self).module@,
                f@,
                block@,
            ),
            terminated == exists|k: int|
                0 <= k < block@.instructions.len() && is_terminator(
                    #[trigger] block@.instructions[k].opcode,
                ),
    {
        let ghost start = findings_of(self.errors@);
        let ghost module = self.module;
        let ghost ids = block_id_set(f@);
        let ghost instrs = block@.instructions;
        let mut defined: u64 = 0;
        let mut locals: u64 = f.params.len() as u32 as u64;
        let mut terminated = false;
        let mut k: usize = 0;
        while k < block.instructions.len()
            invariant
                k <= block.instructions.len(),
                self.module == module,
                ids == block_id_set(f@),
                instrs == block@.instructions,
                defined <= k,
                locals <= u32::MAX + 1,
                findings_of(self.errors@) + instructions_from(
                    module@,
                    ids,
                    instrs,
                    k as int,
                    defined as nat,
                    locals as int,
                ) == start + instructions_from(module@, ids, instrs, 0, 0, param_locals(f@)),
                terminated == exists|j: int| 0 <= j < k && is_terminator(#[trigger] instrs[j].opcode),
            decreases block.instructions.len() - k,
        {
            let ghost before = findings_of(self.errors@);
            let ghost d0 = defined as nat;
            let ghost l0 = locals as int;
            let ins = &block.instructions[k];
            assert(instrs[k as int] == ins@);
            self.check_instruction(f, ins, &mut defined, &mut locals);
            assert(before + instructions_from(module@, ids, instrs, k as int, d0, l0) =~= findings_of(
                self.errors@,
            ) + instructions_from(module@, ids, instrs, k + 1, defined as nat, locals as int));
            let ends = match ins.opcode {
                Opcode::Return | Opcode::Jump | Opcode::Branch => true,
                _ => false,
            };
            if ends {
                assert(is_terminator(instrs[k as int].opcode));
                terminated = true;
            }
            k += 1;
        }
        assert(findings_of(self.errors@) + instructions_from(
            module@,
            ids,
            instrs,
            k as int,
            defined as nat,
            locals as int,
        ) =~= findings_of(self.errors@));
        terminated
    }

    /// Checks one function: its exception table, its blocks, and that it can finish.
    fn check_function(&mut self, f: &BytecodeFunction)
        ensures
            final(self).module == old(self).module,
            findings_of(final(self).errors@) == findings_of(old(self).errors@) + function_findings(
                old(self).module@,
                f@,
            ),
    {
        let ghost start = findings_of(self.errors@);
        let ghost module = self.module;
        let mut k: usize = 0;
        while k < f.exception_table.len()
            invariant
                k <= f.exception_table.len(),
                self.module == module,
                findings_of(self.errors@) + exceptions_from(f@, k as int) == start + exceptions_from(f@, 0),
            decreases f.exception_table.len() - k,
        {
            let ghost before = findings_of(self.errors@);
            let entry = f.exception_table[k];
            let failed = !has_block(f, entry.start_block) || !has_block(f, entry.end_block)
                || !has_block(f, entry.handler_block) || entry.start_block > entry.end_block;
            self.report_if(failed, VerifyErrorCode::InvalidExceptionEntry, "invalid exception table entry");
            assert(before + exceptions_from(f@, k as int) =~= findings_of(self.errors@) + exceptions_from(
                f@,
                k + 1,
            ));
            k += 1;
        }
        let ghost after_exceptions = findings_of(self.errors@);
        assert(after_exceptions =~= start + exceptions_from(f@, 0)) by {
            assert(exceptions_from(f@, k as int) =~= Seq::<Finding>::empty());
        }
        let mut terminated = false;
        let mut b: usize = 0;
        while b < f.blocks.len()
            invariant
                b <= f.blocks.len(),
                self.module == module,
                findings_of(self.errors@) + blocks_from(module@, f@, b as int) == after_exceptions
                    + blocks_from(module@, f@, 0),
                terminated == exists|j: int, i: int|
                    0 <= j < b && 0 <= i < f@.blocks[j].instructions.len() && is_terminator(
                        #[trigger] f@.blocks[j].instructions[i].opcode,
                    ),
            decreases f.blocks.len() - b,
        {
            let ghost before = findings_of(self.errors@);
            let block = &f.blocks[b];
            assert(f@.blocks[b as int] == block@);
            let ends = self.check_block(f, block);
            assert(before + blocks_from(module@, f@, b as int) =~= findings_of(self.errors@)
                + blocks_from(module@, f@, b + 1));
            if ends {
                terminated = true;
            }
            b += 1;
        }
        assert(terminated == has_terminator(f@));
        let ghost after_blocks = findings_of(self.errors@);
        assert(after_blocks =~= after_exceptions + blocks_from(module@, f@, 0)) by {
            assert(blocks_from(module@, f@, b as int) =~= Seq::<Finding>::empty());
        }
        self.report_if(
            !terminated,
            VerifyErrorCode::MissingTerminator,
            "function has no return, jump, or branch",
        );
        assert(findings_of(self.errors@) =~= start + function_findings(module@, f@));
    }
}

/// Checks `module` before it may run: its header, a non-empty function table,
/// and for each function its exception table, every operand of every
/// instruction (constants, locals, values defined earlier in the block, jump
/// targets, source references) and the presence of a terminator. All findings
/// are reported, in the order they are met.
pub fn verify_module(module: &BytecodeModule) -> (res: Result<(), Vec<VerifyError>>)
    ensures
        match res {
            Ok(()) => module_findings(module@).len() == 0,
            Err(errors) => findings_of(errors@) == module_findings(module@) && errors@.len() > 0,
        },
{
    let mut verifier = Verifier { module, errors: Vec::new() };
    assert(findings_of(verifier.errors@) =~= Seq::<Finding>::empty());
    let expected = bytecode_magic_bytes();
    let magic = module.header.magic;
    let magic_ok = magic[0] == expected[0] && magic[1] == expected[1] && magic[2] == expected[2]
        && magic[3] == expected[3];
    assert(magic_ok == (module@.magic == bytecode_magic())) by {
        if magic_ok {
            assert(module@.magic =~= bytecode_magic());
        }
    }
    verifier.report_if(
        !magic_ok || module.header.version != BYTECODE_VERSION,
        VerifyErrorCode::InvalidHeader,
        "invalid bytecode header",
    );
    verifier.report_if(
        module.functions.len() == 0,
        VerifyErrorCode::EmptyFunctionTable,
        "function table is empty",
    );
    let ghost start = findings_of(verifier.errors@);
    let mut k: usize = 0;
    while k < module.functions.len()
        invariant
            k <= module.functions.len(),
            verifier.module == module,
            findings_of(verifier.errors@) + functions_from(module@, k as int) == start + functions_from(
                module@,
                0,
            ),
        decreases module.functions.len() - k,
    {
        let ghost before = findings_of(verifier.errors@);
        let f = &module.functions[k];
        assert(module@.functions[k as int] == f@);
        verifier.check_function(f);
        assert(before + functions_from(module@, k as int) =~= findings_of(verifier.errors@)
            + functions_from(module@, k + 1));
        k += 1;
    }
    assert(findings_of(verifier.errors@) =~= module_findings(module@)) by {
        assert(functions_from(module@, k as int) =~= Seq::<Finding>::empty());
    }
    if verifier.errors.len() == 0 {
        Ok(())
    } else {
        Err(verifier.errors)
    }
}

} // verus!
