use lib::bytecode::Constant;
use lib::interop::InteropError;
use lib::prepared::{find_block, symbol_name, ExecuteError, PreparedModule};

#[test]
fn prepared_modules_compile_and_verify() {
    let prepared = PreparedModule::from_source(
        "function handleClick(current: number): number {\n  return current + 1;\n}\n",
    )
    .expect("handler should prepare");

    let names = prepared
        .module()
        .functions
        .iter()
        .map(|function| function.name.as_str())
        .collect::<Vec<_>>();
    assert_eq!(names, vec!["handleClick", "__entry"]);
}

#[test]
fn compile_errors_are_reported_before_verification() {
    let err = PreparedModule::from_source("const amount: number = \"50\";").expect_err("invalid source");

    assert!(matches!(err, ExecuteError::Compile(ref diagnostics) if !diagnostics.is_empty()));
}

#[test]
fn blocks_are_found_by_id() {
    let prepared = PreparedModule::from_source("const x: number = 1;\nconsole.log(x);\n")
        .expect("source should prepare");
    let entry = prepared.module().functions.last().expect("entry exists");

    assert_eq!(find_block(entry, 0).expect("block 0 exists").id, 0);
    assert_eq!(find_block(entry, 999), Err(ExecuteError::Runtime("block 999 missing".into())));
}

#[test]
fn symbols_are_read_from_symbol_and_string_constants() {
    assert_eq!(symbol_name(&Constant::Symbol("log".into())), Ok("log"));
    assert_eq!(symbol_name(&Constant::String("id".into())), Ok("id"));
    assert_eq!(
        symbol_name(&Constant::Null),
        Err(ExecuteError::Runtime("expected symbol constant".into()))
    );
    assert_eq!(InteropError::new("expected two numbers").message, "expected two numbers");
}
