use lib::bytecode::{Constant, Opcode, VerifyErrorCode};
use lib::checker::verify_module;
use lib::codec::{decode_module, encode_module};
use lib::compiler::{compile_program, compile_source};
use lib::ir::lower_program;
use lib::parser::parse_source;

const DEMO: &str = r#"
interface Account {
  id: number;
  balance: number;
}

function credit(account: Account, amount: number): number {
  account.balance += amount;
  return account.balance;
}

const account: Account = {
  id: 1,
  balance: 100
};

console.log(credit(account, 50));
"#;

#[test]
fn malformed_bytecode_crash_corpus_decodes_as_errors() {
    let corpus = [
        &[][..],
        b"TSVM",
        b"NOPE\x01\x00\x00\x00",
        b"TSVM\x01\x00\xff\xff\xff\xff",
    ];

    for bytes in corpus {
        assert!(decode_module(bytes).is_err());
    }
}

#[test]
fn decoding_an_encoded_module_gives_it_back() {
    let module = compile_source(DEMO).module.expect("demo should compile");

    let bytes = encode_module(&module);
    let decoded = decode_module(&bytes).expect("encoded module should decode");

    assert_eq!(decoded, module);
    assert_eq!(encode_module(&decoded), bytes);
}

#[test]
fn header_failures_are_named() {
    assert_eq!(decode_module(b"TS").unwrap_err().message, "unexpected end of bytecode");
    assert_eq!(decode_module(b"NOPE\x01\x00").unwrap_err().message, "invalid bytecode magic");
    assert_eq!(decode_module(b"TSVM\x02\x00").unwrap_err().message, "unsupported bytecode version");
}

#[test]
fn trailing_bytes_are_refused() {
    let module = compile_source("const answer: number = 42;").module.expect("source should compile");
    let mut bytes = encode_module(&module);
    bytes.push(0);

    assert_eq!(decode_module(&bytes).unwrap_err().message, "trailing bytes after bytecode module");
}

#[test]
fn compiled_modules_pass_verification() {
    let module = compile_source(DEMO).module.expect("demo should compile");

    assert_eq!(verify_module(&module), Ok(()));
    assert_eq!(module.functions.last().expect("entry exists").name, "__entry");
}

#[test]
fn verification_rejects_a_jump_out_of_the_function() {
    let mut module = compile_source("const answer: number = 42;")
        .module
        .expect("source should compile");
    module.functions[0].blocks[0].instructions[0].opcode = Opcode::Jump;
    module.functions[0].blocks[0].instructions[0].operands = vec![u32::MAX];

    let errors = verify_module(&module).expect_err("invalid bytecode must be rejected");

    assert!(errors.iter().any(|error| error.code == VerifyErrorCode::InvalidJumpTarget));
}

#[test]
fn verification_rejects_a_bad_magic() {
    let mut module = compile_source("const answer: number = 42;")
        .module
        .expect("source should compile");
    module.header.magic = *b"NOPE";

    let errors = verify_module(&module).expect_err("bad header must be rejected");

    assert_eq!(errors[0].code, VerifyErrorCode::InvalidHeader);
}

#[test]
fn invalid_source_does_not_compile() {
    let output = compile_source("const amount: number = \"50\";");

    assert!(output.module.is_none());
    assert!(!output.diagnostics.is_empty());
}

#[test]
fn compiling_interns_each_constant_once_and_numbers_locals() {
    let parsed = parse_source("const a = 1; const b = 1;");
    let ir = lower_program(&parsed.program);
    let module = compile_program(&ir);

    assert_eq!(module.constants, vec![Constant::Number("1".into())]);
    let entry = module.functions.last().unwrap();
    assert_eq!(entry.name, "__entry");
    let code = &entry.blocks[0].instructions;
    assert_eq!(code.len(), 5);
    assert_eq!(code[0].opcode, Opcode::LoadConst);
    assert_eq!(code[0].operands, vec![0]);
    assert_eq!(code[1].opcode, Opcode::StoreLocal);
    assert_eq!(code[1].operands, vec![0, 0]);
    assert_eq!(code[2].operands, vec![0]);
    assert_eq!(code[3].opcode, Opcode::StoreLocal);
    assert_eq!(code[3].operands, vec![1, 1]);
    assert_eq!(code[4].opcode, Opcode::Return);
    assert!(code[4].operands.is_empty());
}

#[test]
fn constants_are_pooled_in_the_order_they_are_first_met() {
    let output = compile_source("const answer: number = 42; const label: string = \"x\"; const again: number = 42;");

    assert!(output.diagnostics.is_empty());
    let module = output.module.expect("module should compile");
    assert_eq!(
        module.constants,
        vec![Constant::Number("42".into()), Constant::String("x".into())]
    );
}

#[test]
fn decoding_refuses_truncated_and_extended_encodings() {
    let module = compile_source("const answer: number = 42;")
        .module
        .expect("module should compile");
    let bytes = encode_module(&module);
    assert_eq!(decode_module(&bytes), Ok(module));
    for k in 0..bytes.len() {
        assert!(decode_module(&bytes[..k]).is_err());
    }
    let mut extended = bytes.clone();
    extended.push(0);
    assert!(decode_module(&extended).is_err());
}
