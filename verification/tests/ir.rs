use lib::ir::{lower_program, lower_source, IrBinaryOp, IrConst, IrInstructionKind, IrType, ValueId};
use lib::parser::parse_source;

#[test]
fn lowers_initial_demo_to_entry_and_function_ir() {
    let source = r#"
interface Account {
  id: number;
  balance: number;
}

function credit(account: Account, amount: number): number {
  account.balance += amount;
  return account.balance;
}

const account: Account = {
  id: 1,
  balance: 100
};

console.log(credit(account, 50));
"#;

    let lowered = lower_source(source);
    assert!(lowered.diagnostics.is_empty(), "{:?}", lowered.diagnostics);

    let ir = lowered.ir.expect("valid source should lower");
    assert_eq!(ir.functions.len(), 1);
    assert_eq!(ir.functions[0].name, "credit");
    assert_eq!(ir.functions[0].return_type, IrType::Number);
    assert_eq!(ir.functions[0].params[0].name, "account");
    assert_eq!(
        ir.functions[0].params[0].ty,
        IrType::Named("Account".into())
    );
    assert!(ir.source_span.is_some());

    let function_instrs = &ir.functions[0].blocks[0].instructions;
    assert!(function_instrs.iter().any(|instruction| {
        matches!(
            instruction.kind,
            IrInstructionKind::StoreMember {
                property: ref name,
                ..
            } if name == "balance"
        )
    }));
    assert!(function_instrs
        .iter()
        .any(|instruction| matches!(instruction.kind, IrInstructionKind::Return(Some(_)))));

    let entry_instrs = &ir.entry.blocks[0].instructions;
    assert!(entry_instrs.iter().any(|instruction| {
        matches!(instruction.kind, IrInstructionKind::Call { ref callee, .. } if callee == "credit")
    }));
    assert!(entry_instrs.iter().any(|instruction| {
        matches!(instruction.kind, IrInstructionKind::Call { ref callee, .. } if callee == "console.log")
    }));
}

#[test]
fn preserves_source_spans_on_lowered_instructions() {
    let lowered = lower_source("const answer: number = 40 + 2;");
    let ir = lowered.ir.expect("valid source should lower");

    let binary = ir.entry.blocks[0]
        .instructions
        .iter()
        .find(|instruction| {
            matches!(
                instruction.kind,
                IrInstructionKind::Binary {
                    op: IrBinaryOp::Add,
                    ..
                }
            )
        })
        .expect("binary add instruction should exist");

    assert_eq!(binary.ty, IrType::Number);
    assert_eq!(binary.source_span.start.column, 24);
    assert_eq!(binary.source_span.end.column, 30);
}

#[test]
fn lowers_if_else_into_multiple_blocks() {
    let lowered = lower_source(
        r#"
let x: number = 1;
if (x > 0) {
  x += 1;
} else {
  x += 2;
}
"#,
    );
    let ir = lowered.ir.expect("valid source should lower");

    assert!(ir.entry.blocks.len() >= 4);
    assert!(ir.entry.blocks[0]
        .instructions
        .iter()
        .any(|instruction| matches!(instruction.kind, IrInstructionKind::Branch { .. })));
}

#[test]
fn does_not_lower_semantically_invalid_source() {
    let lowered = lower_source(
        r#"
interface Account {
  id: number;
  balance: number;
}

const account: Account = { id: 1 };
"#,
    );

    assert!(lowered.ir.is_none());
    assert!(!lowered.diagnostics.is_empty());
}

#[test]
fn the_entry_function_is_named_entry() {
    let ir = lower_source("const answer: number = 42;").ir.expect("valid source should lower");

    assert_eq!(ir.entry.name, "__entry");
    assert_eq!(ir.entry.blocks[0].id.0, 0);
}

#[test]
fn lowering_a_program_emits_each_expression_in_order() {
    let parsed = parse_source("const answer: number = 40 + 2;");
    let ir = lower_program(&parsed.program);

    let instructions = &ir.entry.blocks[0].instructions;
    assert_eq!(instructions.len(), 5);
    assert_eq!(instructions[0].kind, IrInstructionKind::LoadConst(IrConst::Number("40".into())));
    assert_eq!(instructions[0].result, Some(ValueId(0)));
    assert_eq!(instructions[1].kind, IrInstructionKind::LoadConst(IrConst::Number("2".into())));
    assert_eq!(
        instructions[2].kind,
        IrInstructionKind::Binary { op: IrBinaryOp::Add, left: ValueId(0), right: ValueId(1) }
    );
    assert_eq!(instructions[2].result, Some(ValueId(2)));
    assert_eq!(instructions[3].kind, IrInstructionKind::StoreLocal("answer".into(), ValueId(2)));
    assert_eq!(instructions[3].ty, IrType::Number);
    assert_eq!(instructions[4].kind, IrInstructionKind::Return(None));
}

#[test]
fn compound_member_assignment_reads_combines_and_stores() {
    let parsed = parse_source(
        "function credit(account: { balance: number }, amount: number): number {\n  account.balance += amount;\n  return account.balance;\n}\n",
    );
    let ir = lower_program(&parsed.program);

    let body = &ir.functions[0].blocks[0].instructions;
    assert_eq!(body[0].kind, IrInstructionKind::LoadLocal("account".into()));
    assert_eq!(body[1].kind, IrInstructionKind::LoadLocal("amount".into()));
    assert_eq!(
        body[2].kind,
        IrInstructionKind::LoadMember { object: ValueId(0), property: "balance".into() }
    );
    assert_eq!(
        body[3].kind,
        IrInstructionKind::Binary { op: IrBinaryOp::Add, left: ValueId(2), right: ValueId(1) }
    );
    assert_eq!(
        body[4].kind,
        IrInstructionKind::StoreMember { object: ValueId(0), property: "balance".into(), value: ValueId(3) }
    );
    assert!(matches!(body.last().unwrap().kind, IrInstructionKind::Return(Some(_))));
}
