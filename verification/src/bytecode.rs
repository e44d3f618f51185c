//! The bytecode module format: constants, functions, blocks and instructions,
//! with verifier-visible type tags and source references.
use vstd::prelude::*;
use crate::lexer::Span;

verus! {

pub const BYTECODE_VERSION: u16 = 1;

/// The four header bytes that open every encoded module (`TSVM`).
pub open spec fn bytecode_magic() -> Seq<u8> {
    seq![0x54u8, 0x53u8, 0x56u8, 0x4Du8]
}

/// The header bytes of a module produced by this library.
pub fn bytecode_magic_bytes() -> (magic: [u8; 4])
    ensures
        magic@ == bytecode_magic(),
{
    let magic = [0x54u8, 0x53u8, 0x56u8, 0x4Du8];
    assert(magic@ =~= bytecode_magic());
    magic
}

#[derive(Debug, Clone, PartialEq, Eq)]
pub struct BytecodeModule {
    pub header: BytecodeHeader,
    pub constants: Vec<Constant>,
    pub functions: Vec<BytecodeFunction>,
    pub source_map: Vec<SourceRef>,
}

#[derive(Debug, Clone, PartialEq, Eq)]
pub struct BytecodeHeader {
    pub magic: [u8; 4],
    pub version: u16,
}

#[derive(Debug, Clone, PartialEq, Eq, Hash)]
pub enum Constant {
    Number(String),
    String(String),
    Boolean(bool),
    Null,
    Undefined,
    Symbol(String),
}

#[derive(Debug, Clone, PartialEq, Eq)]
pub struct BytecodeFunction {
    pub name: String,
    pub params: Vec<TypeTag>,
    pub return_type: TypeTag,
    pub blocks: Vec<BytecodeBlock>,
    pub exception_table: Vec<ExceptionEntry>,
}

#[derive(Debug, Clone, PartialEq, Eq)]
pub struct BytecodeBlock {
    pub id: u32,
    pub instructions: Vec<Instruction>,
}

#[derive(Debug, Clone, PartialEq, Eq)]
pub struct Instruction {
    pub opcode: Opcode,
    pub operands: Vec<u32>,
    pub type_tag: TypeTag,
    pub source_ref: u32,
}

#[derive(Debug, Copy, Clone, PartialEq, Eq, Structural)]
pub enum Opcode {
    LoadConst,
    BuildObject,
    BuildArray,
    LoadLocal,
    StoreLocal,
    LoadMember,
    StoreMember,
    Binary,
    Call,
    Branch,
    Jump,
    Return,
}

#[derive(Debug, Copy, Clone, PartialEq, Eq, Structural)]
pub enum TypeTag {
    Number,
    String,
    Boolean,
    Null,
    Undefined,
    Object,
    Array,
    Named,
    Unknown,
}

#[derive(Debug, Copy, Clone, PartialEq, Eq, Hash, Structural)]
pub struct SourceRef {
    pub start_byte: u32,
    pub end_byte: u32,
    pub start_line: u32,
    pub start_column: u32,
    pub end_line: u32,
    pub end_column: u32,
}

#[derive(Debug, Copy, Clone, PartialEq, Eq, Structural)]
pub struct ExceptionEntry {
    pub start_block: u32,
    pub end_block: u32,
    pub handler_block: u32,
}

#[derive(Debug, Clone, PartialEq, Eq)]
pub struct DecodeError {
    pub message: String,
}

#[derive(Debug, Clone, PartialEq, Eq)]
pub struct VerifyError {
    pub code: VerifyErrorCode,
    pub message: String,
}

#[derive(Debug, Copy, Clone, PartialEq, Eq, Structural)]
pub enum VerifyErrorCode {
    InvalidHeader,
    EmptyFunctionTable,
    InvalidConstantReference,
    InvalidLocalReference,
    InvalidValueReference,
    InvalidJumpTarget,
    InvalidSourceReference,
    InvalidExceptionEntry,
    MissingTerminator,
    InvalidTypeState,
}

/// A constant with its text as characters.
pub enum ConstantModel {
    Number(Seq<char>),
    String(Seq<char>),
    Boolean(bool),
    Null,
    Undefined,
    Symbol(Seq<char>),
}

pub struct InstructionModel {
    pub opcode: Opcode,
    pub operands: Seq<u32>,
    pub type_tag: TypeTag,
    pub source_ref: u32,
}

pub struct BlockModel {
    pub id: u32,
    pub instructions: Seq<InstructionModel>,
}

pub struct FunctionModel {
    pub name: Seq<char>,
    pub params: Seq<TypeTag>,
    pub return_type: TypeTag,
    pub blocks: Seq<BlockModel>,
    pub exception_table: Seq<ExceptionEntry>,
}

/// A bytecode module as mathematical values.
pub struct ModuleModel {
    pub magic: Seq<u8>,
    pub version: u16,
    pub constants: Seq<ConstantModel>,
    pub functions: Seq<FunctionModel>,
    pub source_map: Seq<SourceRef>,
}

impl View for Constant {
    type V = ConstantModel;

    open spec fn view(&self) -> ConstantModel {
        match self {
            Constant::Number(s) => ConstantModel::Number(s@),
            Constant::String(s) => ConstantModel::String(s@),
            Constant::Boolean(b) => ConstantModel::Boolean(*b),
            Constant::Null => ConstantModel::Null,
            Constant::Undefined => ConstantModel::Undefined,
            Constant::Symbol(s) => ConstantModel::Symbol(s@),
        }
    }
}

impl View for Instruction {
    type V = InstructionModel;

    open spec fn view(&self) -> InstructionModel {
        InstructionModel {
            opcode: self.opcode,
            operands: self.operands@,
            type_tag: self.type_tag,
            source_ref: self.source_ref,
        }
    }
}

impl View for BytecodeBlock {
    type V = BlockModel;

    open spec fn view(&self) -> BlockModel {
        BlockModel { id: self.id, instructions: self.instructions@.map_values(|i: Instruction| i@) }
    }
}

impl View for BytecodeFunction {
    type V = FunctionModel;

    open spec fn view(&self) -> FunctionModel {
        FunctionModel {
            name: self.name@,
            params: self.params@,
            return_type: self.return_type,
            blocks: self.blocks@.map_values(|b: BytecodeBlock| b@),
            exception_table: self.exception_table@,
        }
    }
}

impl View for BytecodeModule {
    type V = ModuleModel;

    open spec fn view(&self) -> ModuleModel {
        ModuleModel {
            magic: self.header.magic@,
            version: self.header.version,
            constants: self.constants@.map_values(|c: Constant| c@),
            functions: self.functions@.map_values(|f: BytecodeFunction| f@),
            source_map: self.source_map@,
        }
    }
}

impl View for VerifyError {
    type V = (VerifyErrorCode, Seq<char>);

    open spec fn view(&self) -> (VerifyErrorCode, Seq<char>) {
        (self.code, self.message@)
    }
}

/// The source reference of `span`: each offset, line and column kept modulo 2^32.
pub open spec fn spec_source_ref(span: Span) -> SourceRef {
    SourceRef {
        start_byte: span.start.byte as u32,
        end_byte: span.end.byte as u32,
        start_line: span.start.line as u32,
        start_column: span.start.column as u32,
        end_line: span.end.line as u32,
        end_column: span.end.column as u32,
    }
}

/// Narrows every offset, line and column of `span` to 32 bits.
pub fn source_ref_from_span(span: Span) -> (r: SourceRef)
    ensures
        r == spec_source_ref(span),
{
    SourceRef {
        start_byte: span.start.byte as u32,
        end_byte: span.end.byte as u32,
        start_line: span.start.line as u32,
        start_column: span.start.column as u32,
        end_line: span.end.line as u32,
        end_column: span.end.column as u32,
    }
}

} // verus!
