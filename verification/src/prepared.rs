//! Compiled and verified programs ready to run, and the errors that stop a run.
use vstd::prelude::*;
use crate::bytecode::{BytecodeBlock, BytecodeFunction, BytecodeModule, Constant};
use crate::checker::{findings_of, verify_module};
use crate::checker_spec::module_findings;
use crate::compiler::{compiled_from, compiles_program};
use crate::ir::{lowers_program, IrProgram};
use crate::parser::{parses_to, ParseOutput};
use crate::compiler::compile_source;
use crate::heap::CollectionReport;
use crate::interop::InteropError;
use crate::modules::ModuleDiagnostic;
use crate::semantic::{analyzed, SemanticDiagnostic};
use crate::bytecode::VerifyError;
use crate::text::{decimal, push_decimal, push_str, string_from_chars};

verus! {

/// Why a program could not be prepared or run.
#[derive(Debug, Clone, PartialEq)]
pub enum ExecuteError {
    Module(Vec<ModuleDiagnostic>),
    Compile(Vec<SemanticDiagnostic>),
    Verify(Vec<VerifyError>),
    Interop(InteropError),
    Runtime(String),
}

/// What the heap held when a run ended.
#[derive(Debug, Copy, Clone, PartialEq, Eq)]
pub struct HeapStats {
    pub live_objects: usize,
    pub allocated_slots: usize,
    pub last_collection: CollectionReport,
}

/// A program that compiled and whose bytecode passed verification.
#[derive(Debug, Clone, PartialEq)]
pub struct PreparedModule {
    module: BytecodeModule,
}

impl PreparedModule {
    /// The bytecode this program runs.
    pub closed spec fn bytecode(&self) -> BytecodeModule {
        self.module
    }

    /// Compiles `source` and verifies its bytecode: compile errors come back as
    /// `Compile`, verification findings as `Verify`.
    pub fn from_source(source: &str) -> (r: Result<Self, ExecuteError>)
        ensures
            match r {
                Ok(prepared) => {
                    &&& module_findings(prepared.bytecode()@).len() == 0
                    &&& prepared.bytecode().functions@.len() >= 1
                    &&& prepared.bytecode().functions@.last().name@ == "__entry"@
                    &&& source@.len() < usize::MAX ==> exists|parsed: ParseOutput, ir: IrProgram|
                        #[trigger] parses_to(source@, parsed) && analyzed(parsed).findings.len() == 0
                            && lowers_program(parsed.program, ir) && #[trigger] compiles_program(ir, prepared.bytecode())
                },
                Err(ExecuteError::Compile(diagnostics)) => {
                    &&& diagnostics@.len() > 0
                    &&& source@.len() < usize::MAX ==> exists|parsed: ParseOutput|
                        #[trigger] parses_to(source@, parsed) && diagnostics@.map_values(
                            |d: SemanticDiagnostic| (d.code, d.message@, d.span),
                        ) == analyzed(parsed).findings
                },
                Err(ExecuteError::Verify(errors)) => {
                    &&& errors@.len() > 0
                    &&& source@.len() < usize::MAX ==> exists|parsed: ParseOutput, ir: IrProgram, m: BytecodeModule|
                        #[trigger] parses_to(source@, parsed) && analyzed(parsed).findings.len() == 0
                            && lowers_program(parsed.program, ir) && #[trigger] compiles_program(ir, m)
                            && findings_of(errors@) == module_findings(m@)
                },
                Err(_) => false,
            },
    {
        let compiled = compile_source(source);
        let ghost compiled_copy = compiled;
        proof {
            if source@.len() < usize::MAX {
                let parsed = choose|parsed: ParseOutput| #[trigger] parses_to(source@, parsed) && compiled_from(
                    parsed,
                    compiled_copy,
                );
                if let Some(m) = compiled_copy.module {
                    let ir = choose|ir: IrProgram| lowers_program(parsed.program, ir) && #[trigger] compiles_program(ir, compiled_copy.module->0);
                    assert(parses_to(source@, parsed) && analyzed(parsed).findings.len() == 0 && lowers_program(
                        parsed.program,
                        ir,
                    ) && compiles_program(ir, m));
                } else {
                    assert(parses_to(source@, parsed) && compiled_copy.diagnostics@.map_values(
                        |d: SemanticDiagnostic| (d.code, d.message@, d.span),
                    ) == analyzed(parsed).findings);
                }
            }
        }
        match compiled.module {
            None => Err(ExecuteError::Compile(compiled.diagnostics)),
            Some(module) => match verify_module(&module) {
                Ok(()) => Ok(PreparedModule { module }),
                Err(errors) => Err(ExecuteError::Verify(errors)),
            },
        }
    }

    /// The bytecode this program runs.
    pub fn module(&self) -> (module: &BytecodeModule)
        ensures
            *module == self.bytecode(),
    {
        &self.module
    }
}

/// The first block of `function` with the given id.
pub open spec fn block_index(blocks: Seq<BytecodeBlock>, id: u32) -> Option<int>
    decreases blocks.len(),
{
    if blocks.len() == 0 {
        None
    } else if blocks[0].id == id {
        Some(0)
    } else {
        match block_index(blocks.drop_first(), id) {
            Some(i) => Some(i + 1),
            None => None,
        }
    }
}

/// The block of `function` whose id is `id` (the first, if several share it);
/// a runtime error naming the id when there is none.
pub fn find_block(function: &BytecodeFunction, id: u32) -> (r: Result<&BytecodeBlock, ExecuteError>)
    ensures
        match block_index(function.blocks@, id) {
            Some(i) => r matches Ok(block) && *block == function.blocks@[i],
            None => r matches Err(ExecuteError::Runtime(message)) && message@ == "block "@ + decimal(id as nat)
                + " missing"@,
        },
{
    let mut i: usize = 0;
    assert(function.blocks@.skip(0) =~= function.blocks@);
    while i < function.blocks.len()
        invariant
            i <= function.blocks@.len(),
            block_index(function.blocks@, id) == match block_index(function.blocks@.skip(i as int), id) {
                Some(k) => Some(k + i),
                None => None::<int>,
            },
        decreases function.blocks.len() - i,
    {
        let ghost rest = function.blocks@.skip(i as int);
        assert(rest.drop_first() =~= function.blocks@.skip(i + 1));
        if function.blocks[i].id == id {
            return Ok(&function.blocks[i]);
        }
        i += 1;
    }
    let mut text: Vec<char> = Vec::new();
    push_str(&mut text, "block ");
    push_decimal(&mut text, id as usize);
    push_str(&mut text, " missing");
    Err(ExecuteError::Runtime(string_from_chars(text)))
}

/// The name a symbol (or string) constant holds.
pub fn symbol_name(constant: &Constant) -> (r: Result<&str, ExecuteError>)
    ensures
        match constant {
            Constant::Symbol(name) => r matches Ok(s) && s@ == name@,
            Constant::String(name) => r matches Ok(s) && s@ == name@,
            _ => r matches Err(ExecuteError::Runtime(message)) && message@ == "expected symbol constant"@,
        },
{
    match constant {
        Constant::Symbol(value) => Ok(value.as_str()),
        Constant::String(value) => Ok(value.as_str()),
        _ => Err(ExecuteError::Runtime("expected symbol constant".to_owned())),
    }
}

} // verus!
