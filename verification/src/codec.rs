//! Encoding bytecode modules to bytes and decoding them back.
use vstd::prelude::*;

use crate::bytecode::{bytecode_magic, bytecode_magic_bytes, BlockModel, BytecodeBlock, BytecodeFunction, BytecodeHeader, BytecodeModule, Constant, ConstantModel, DecodeError, ExceptionEntry, FunctionModel, Instruction, InstructionModel, Opcode, SourceRef, TypeTag, BYTECODE_VERSION};
use crate::text::{decimal, chars_of, push_decimal_u8, string_from_chars, utf8_text};
use crate::codec_spec::{decode_failure_text, enc_block, enc_constant, enc_exception, enc_function, enc_instruction, enc_list, enc_module, enc_seq, enc_source, enc_string, enc_tag, le_u16, le_u32, lemma_read_seq_step, lemma_read_seq_stop, opcode_byte, opcode_of_byte, read_block, read_byte, read_constant, read_counts, read_exception, read_function, read_instruction, read_list, read_module, read_operand, read_seq, read_source, read_string, read_tag, read_u16, read_u32, type_tag_byte, type_tag_of_byte};


verus! {

// ------------------------------------------------------------------ encode

fn write_u16(out: &mut Vec<u8>, value: u16)
    ensures
        final(out)@ == old(out)@ + le_u16(value),
{
    out.push((value % 256) as u8);
    out.push((value / 256) as u8);
    assert(final(out)@ =~= old(out)@ + le_u16(value));
}

fn write_u32(out: &mut Vec<u8>, value: u32)
    ensures
        final(out)@ == old(out)@ + le_u32(value),
{
    out.push((value % 256) as u8);
    out.push(((value / 256) % 256) as u8);
    out.push(((value / 65536) % 256) as u8);
    out.push((value / 16777216) as u8);
    assert(final(out)@ =~= old(out)@ + le_u32(value));
}

fn write_bytes(out: &mut Vec<u8>, bytes: &[u8])
    ensures
        final(out)@ == old(out)@ + bytes@,
{
    let mut i: usize = 0;
    while i < bytes.len()
        invariant
            i <= bytes.len(),
            out@ == old(out)@ + bytes@.take(i as int),
        decreases bytes.len() - i,
    {
        out.push(bytes[i]);
        i += 1;
        assert(out@ =~= old(out)@ + bytes@.take(i as int));
    }
    assert(bytes@.take(bytes.len() as int) =~= bytes@);
}

fn write_string(out: &mut Vec<u8>, value: &str)
    ensures
        final(out)@ == old(out)@ + enc_string(value@),
{
    let bytes = value.as_bytes();
    write_u32(out, bytes.len() as u32);
    write_bytes(out, bytes);
    assert(final(out)@ =~= old(out)@ + enc_string(value@));
}

fn opcode_to_u8(opcode: Opcode) -> (b: u8)
    ensures
        b == opcode_byte(opcode),
{
    match opcode {
        Opcode::LoadConst => 0,
        Opcode::BuildObject => 1,
        Opcode::BuildArray => 2,
        Opcode::LoadLocal => 3,
        Opcode::StoreLocal => 4,
        Opcode::LoadMember => 5,
        Opcode::StoreMember => 6,
        Opcode::Binary => 7,
        Opcode::Call => 8,
        Opcode::Branch => 9,
        Opcode::Jump => 10,
        Opcode::Return => 11,
    }
}

fn opcode_from_u8(value: u8) -> (op: Option<Opcode>)
    ensures
        op == opcode_of_byte(value),
{
    match value {
        0 => Some(Opcode::LoadConst),
        1 => Some(Opcode::BuildObject),
        2 => Some(Opcode::BuildArray),
        3 => Some(Opcode::LoadLocal),
        4 => Some(Opcode::StoreLocal),
        5 => Some(Opcode::LoadMember),
        6 => Some(Opcode::StoreMember),
        7 => Some(Opcode::Binary),
        8 => Some(Opcode::Call),
        9 => Some(Opcode::Branch),
        10 => Some(Opcode::Jump),
        11 => Some(Opcode::Return),
        _ => None,
    }
}

fn type_tag_to_u8(tag: TypeTag) -> (b: u8)
    ensures
        b == type_tag_byte(tag),
{
    match tag {
        TypeTag::Number => 0,
        TypeTag::String => 1,
        TypeTag::Boolean => 2,
        TypeTag::Null => 3,
        TypeTag::Undefined => 4,
        TypeTag::Object => 5,
        TypeTag::Array => 6,
        TypeTag::Named => 7,
        TypeTag::Unknown => 8,
    }
}

fn type_tag_from_u8(value: u8) -> (tag: Option<TypeTag>)
    ensures
        tag == type_tag_of_byte(value),
{
    match value {
        0 => Some(TypeTag::Number),
        1 => Some(TypeTag::String),
        2 => Some(TypeTag::Boolean),
        3 => Some(TypeTag::Null),
        4 => Some(TypeTag::Undefined),
        5 => Some(TypeTag::Object),
        6 => Some(TypeTag::Array),
        7 => Some(TypeTag::Named),
        8 => Some(TypeTag::Unknown),
        _ => None,
    }
}

fn write_constant(out: &mut Vec<u8>, constant: &Constant)
    ensures
        final(out)@ == old(out)@ + enc_constant(constant@),
{
    match constant {
        Constant::Number(value) => {
            out.push(0);
            write_string(out, value.as_str());
        },
        Constant::String(value) => {
            out.push(1);
            write_string(out, value.as_str());
        },
        Constant::Boolean(value) => {
            out.push(2);
            out.push(if *value { 1 } else { 0 });
        },
        Constant::Null => out.push(3),
        Constant::Undefined => out.push(4),
        Constant::Symbol(value) => {
            out.push(5);
            write_string(out, value.as_str());
        },
    }
    assert(final(out)@ =~= old(out)@ + enc_constant(constant@));
}

proof fn lemma_enc_seq_push<T>(s: Seq<T>, i: int, f: spec_fn(T) -> Seq<u8>)
    requires
        0 <= i < s.len(),
    ensures
        enc_seq(s.take(i + 1), f) == enc_seq(s.take(i), f) + f(s[i]),
{
    assert(s.take(i + 1).drop_last() =~= s.take(i));
}

fn write_source(out: &mut Vec<u8>, source: &SourceRef)
    ensures
        final(out)@ == old(out)@ + enc_source(*source),
{
    write_u32(out, source.start_byte);
    write_u32(out, source.end_byte);
    write_u32(out, source.start_line);
    write_u32(out, source.start_column);
    write_u32(out, source.end_line);
    write_u32(out, source.end_column);
    assert(final(out)@ =~= old(out)@ + enc_source(*source));
}

proof fn lemma_extend<T>(mid: Seq<u8>, s: Seq<T>, i: int, f: spec_fn(T) -> Seq<u8>)
    requires
        0 <= i < s.len(),
    ensures
        mid + enc_seq(s.take(i + 1), f) == (mid + enc_seq(s.take(i), f)) + f(s[i]),
{
    lemma_enc_seq_push(s, i, f);
    vstd::seq_lib::lemma_concat_associative(mid, enc_seq(s.take(i), f), f(s[i]));
}

fn write_operands(out: &mut Vec<u8>, operands: &Vec<u32>)
    ensures
        final(out)@ == old(out)@ + enc_list(operands@, |v: u32| le_u32(v)),
{
    write_u32(out, operands.len() as u32);
    let ghost mid = out@;
    let ghost f = |v: u32| le_u32(v);
    let mut i: usize = 0;
    while i < operands.len()
        invariant
            i <= operands.len(),
            f == |v: u32| le_u32(v),
            out@ == mid + enc_seq(operands@.take(i as int), f),
        decreases operands.len() - i,
    {
        proof {
            lemma_extend(mid, operands@, i as int, f);
        }
        write_u32(out, operands[i]);
        i += 1;
    }
    assert(operands@.take(operands.len() as int) =~= operands@);
    proof {
        vstd::seq_lib::lemma_concat_associative(old(out)@, le_u32(operands.len() as u32), enc_seq(operands@, f));
    }
}

fn write_instruction(out: &mut Vec<u8>, instruction: &Instruction)
    ensures
        final(out)@ == old(out)@ + enc_instruction(instruction@),
{
    out.push(opcode_to_u8(instruction.opcode));
    out.push(type_tag_to_u8(instruction.type_tag));
    let ghost head = out@;
    write_u32(out, instruction.source_ref);
    write_operands(out, &instruction.operands);
    assert(final(out)@ =~= old(out)@ + enc_instruction(instruction@));
}

fn write_instructions(out: &mut Vec<u8>, instructions: &Vec<Instruction>)
    ensures
        final(out)@ == old(out)@ + enc_list(
            instructions@.map_values(|i: Instruction| i@),
            |i: InstructionModel| enc_instruction(i),
        ),
{
    write_u32(out, instructions.len() as u32);
    let ghost mid = out@;
    let ghost f = |i: InstructionModel| enc_instruction(i);
    let ghost items = instructions@.map_values(|i: Instruction| i@);
    let mut i: usize = 0;
    while i < instructions.len()
        invariant
            i <= instructions.len(),
            items == instructions@.map_values(|i: Instruction| i@),
            f == |i: InstructionModel| enc_instruction(i),
            out@ == mid + enc_seq(items.take(i as int), f),
        decreases instructions.len() - i,
    {
        proof {
            lemma_extend(mid, items, i as int, f);
        }
        write_instruction(out, &instructions[i]);
        i += 1;
    }
    assert(items.take(instructions.len() as int) =~= items);
    proof {
        vstd::seq_lib::lemma_concat_associative(old(out)@, le_u32(instructions.len() as u32), enc_seq(items, f));
    }
}

fn write_block(out: &mut Vec<u8>, block: &BytecodeBlock)
    ensures
        final(out)@ == old(out)@ + enc_block(block@),
{
    write_u32(out, block.id);
    write_instructions(out, &block.instructions);
    assert(final(out)@ =~= old(out)@ + enc_block(block@));
}

fn write_params(out: &mut Vec<u8>, params: &Vec<TypeTag>)
    ensures
        final(out)@ == old(out)@ + enc_list(params@, |t: TypeTag| enc_tag(t)),
{
    write_u32(out, params.len() as u32);
    let ghost mid = out@;
    let ghost f = |t: TypeTag| enc_tag(t);
    let mut i: usize = 0;
    while i < params.len()
        invariant
            i <= params.len(),
            f == |t: TypeTag| enc_tag(t),
            out@ == mid + enc_seq(params@.take(i as int), f),
        decreases params.len() - i,
    {
        proof {
            lemma_extend(mid, params@, i as int, f);
        }
        let ghost before = out@;
        out.push(type_tag_to_u8(params[i]));
        assert(out@ =~= before + enc_tag(params@[i as int]));
        i += 1;
    }
    assert(params@.take(params.len() as int) =~= params@);
    proof {
        vstd::seq_lib::lemma_concat_associative(old(out)@, le_u32(params.len() as u32), enc_seq(params@, f));
    }
}

fn write_blocks(out: &mut Vec<u8>, blocks: &Vec<BytecodeBlock>)
    ensures
        final(out)@ == old(out)@ + enc_list(
            blocks@.map_values(|b: BytecodeBlock| b@),
            |b: BlockModel| enc_block(b),
        ),
{
    write_u32(out, blocks.len() as u32);
    let ghost mid = out@;
    let ghost f = |b: BlockModel| enc_block(b);
    let ghost items = blocks@.map_values(|b: BytecodeBlock| b@);
    let mut i: usize = 0;
    while i < blocks.len()
        invariant
            i <= blocks.len(),
            items == blocks@.map_values(|b: BytecodeBlock| b@),
            f == |b: BlockModel| enc_block(b),
            out@ == mid + enc_seq(items.take(i as int), f),
        decreases blocks.len() - i,
    {
        proof {
            lemma_extend(mid, items, i as int, f);
        }
        write_block(out, &blocks[i]);
        i += 1;
    }
    assert(items.take(blocks.len() as int) =~= items);
    proof {
        vstd::seq_lib::lemma_concat_associative(old(out)@, le_u32(blocks.len() as u32), enc_seq(items, f));
    }
}

fn write_exceptions(out: &mut Vec<u8>, entries: &Vec<ExceptionEntry>)
    ensures
        final(out)@ == old(out)@ + enc_list(entries@, |e: ExceptionEntry| enc_exception(e)),
{
    write_u32(out, entries.len() as u32);
    let ghost mid = out@;
    let ghost f = |e: ExceptionEntry| enc_exception(e);
    let mut i: usize = 0;
    while i < entries.len()
        invariant
            i <= entries.len(),
            f == |e: ExceptionEntry| enc_exception(e),
            out@ == mid + enc_seq(entries@.take(i as int), f),
        decreases entries.len() - i,
    {
        proof {
            lemma_extend(mid, entries@, i as int, f);
        }
        let ghost before = out@;
        let entry = &entries[i];
        write_u32(out, entry.start_block);
        write_u32(out, entry.end_block);
        write_u32(out, entry.handler_block);
        assert(out@ =~= before + enc_exception(entries@[i as int]));
        i += 1;
    }
    assert(entries@.take(entries.len() as int) =~= entries@);
    proof {
        vstd::seq_lib::lemma_concat_associative(old(out)@, le_u32(entries.len() as u32), enc_seq(entries@, f));
    }
}

fn write_function(out: &mut Vec<u8>, function: &BytecodeFunction)
    ensures
        final(out)@ == old(out)@ + enc_function(function@),
{
    write_string(out, function.name.as_str());
    write_params(out, &function.params);
    out.push(type_tag_to_u8(function.return_type));
    write_blocks(out, &function.blocks);
    write_exceptions(out, &function.exception_table);
    assert(final(out)@ =~= old(out)@ + enc_function(function@));
}

fn write_constants(out: &mut Vec<u8>, constants: &Vec<Constant>)
    ensures
        final(out)@ == old(out)@ + enc_seq(
            constants@.map_values(|c: Constant| c@),
            |c: ConstantModel| enc_constant(c),
        ),
{
    let ghost mid = out@;
    let ghost f = |c: ConstantModel| enc_constant(c);
    let ghost items = constants@.map_values(|c: Constant| c@);
    let mut i: usize = 0;
    while i < constants.len()
        invariant
            i <= constants.len(),
            items == constants@.map_values(|c: Constant| c@),
            f == |c: ConstantModel| enc_constant(c),
            out@ == mid + enc_seq(items.take(i as int), f),
        decreases constants.len() - i,
    {
        proof {
            lemma_extend(mid, items, i as int, f);
        }
        write_constant(out, &constants[i]);
        i += 1;
    }
    assert(items.take(constants.len() as int) =~= items);
}

fn write_sources(out: &mut Vec<u8>, sources: &Vec<SourceRef>)
    ensures
        final(out)@ == old(out)@ + enc_seq(sources@, |r: SourceRef| enc_source(r)),
{
    let ghost mid = out@;
    let ghost f = |r: SourceRef| enc_source(r);
    let mut i: usize = 0;
    while i < sources.len()
        invariant
            i <= sources.len(),
            f == |r: SourceRef| enc_source(r),
            out@ == mid + enc_seq(sources@.take(i as int), f),
        decreases sources.len() - i,
    {
        proof {
            lemma_extend(mid, sources@, i as int, f);
        }
        write_source(out, &sources[i]);
        i += 1;
    }
    assert(sources@.take(sources.len() as int) =~= sources@);
}

fn write_functions(out: &mut Vec<u8>, functions: &Vec<BytecodeFunction>)
    ensures
        final(out)@ == old(out)@ + enc_seq(
            functions@.map_values(|f: BytecodeFunction| f@),
            |f: FunctionModel| enc_function(f),
        ),
{
    let ghost mid = out@;
    let ghost f = |f: FunctionModel| enc_function(f);
    let ghost items = functions@.map_values(|f: BytecodeFunction| f@);
    let mut i: usize = 0;
    while i < functions.len()
        invariant
            i <= functions.len(),
            items == functions@.map_values(|f: BytecodeFunction| f@),
            f == |f: FunctionModel| enc_function(f),
            out@ == mid + enc_seq(items.take(i as int), f),
        decreases functions.len() - i,
    {
        proof {
            lemma_extend(mid, items, i as int, f);
        }
        write_function(out, &functions[i]);
        i += 1;
    }
    assert(items.take(functions.len() as int) =~= items);
}

/// Writes `module` in the bytecode format: header, table sizes, constant
/// pool, source map and function table. Counts and string lengths are
/// written as 32-bit values.
pub fn encode_module(module: &BytecodeModule) -> (out: Vec<u8>)
    ensures
        out@ == enc_module(module@),
{
    let mut out: Vec<u8> = Vec::new();
    let mut m: usize = 0;
    while m < 4
        invariant
            m <= 4,
            out@ == module.header.magic@.take(m as int),
        decreases 4 - m,
    {
        out.push(module.header.magic[m]);
        m += 1;
        assert(out@ =~= module.header.magic@.take(m as int));
    }
    assert(module.header.magic@.take(4) =~= module.header.magic@);
    write_u16(&mut out, module.header.version);
    write_u32(&mut out, module.constants.len() as u32);
    write_u32(&mut out, module.source_map.len() as u32);
    write_u32(&mut out, module.functions.len() as u32);
    write_constants(&mut out, &module.constants);
    write_sources(&mut out, &module.source_map);
    write_functions(&mut out, &module.functions);
    out
}

// ------------------------------------------------------------------ decode

fn decode_error(message: &str) -> (e: DecodeError)
    ensures
        e.message@ == message@,
{
    DecodeError { message: message.to_owned() }
}

fn decode_error_chars(message: Vec<char>) -> (e: DecodeError)
    ensures
        e.message@ == message@,
{
    DecodeError { message: string_from_chars(message) }
}

/// A cursor over the bytes of an encoded module.
struct Reader<'a> {
    bytes: &'a [u8],
    cursor: usize,
}

impl<'a> Reader<'a> {
    spec fn wf(&self) -> bool {
        self.cursor <= self.bytes@.len()
    }

    /// The bytes not read yet.
    spec fn rest(&self) -> Seq<u8> {
        self.bytes@.skip(self.cursor as int)
    }

    /// Moves past `len` bytes, failing when fewer are left.
    fn advance(&mut self, len: usize) -> (res: Result<(), DecodeError>)
        requires
            old(self).wf(),
        ensures
            final(self).wf(),
            final(self).bytes == old(self).bytes,
            res is Ok <==> len <= old(self).rest().len(),
            res is Ok ==> final(self).cursor == old(self).cursor + len,
            res matches Err(e) ==> e.message@ == (if old(self).cursor + len > usize::MAX {
                "bytecode length overflow"@
            } else {
                "unexpected end of bytecode"@
            }),
    {
        assert(self.rest().len() == self.bytes@.len() - self.cursor);
        match self.cursor.checked_add(len) {
            None => {
                assert(self.bytes@.len() == self.bytes.len());
                Err(decode_error("bytecode length overflow"))
            },
            Some(end) => {
                if end > self.bytes.len() {
                    Err(decode_error("unexpected end of bytecode"))
                } else {
                    self.cursor = end;
                    Ok(())
                }
            },
        }
    }

    fn read_u8(&mut self) -> (res: Result<u8, DecodeError>)
        requires
            old(self).wf(),
        ensures
            final(self).wf(),
            final(self).bytes == old(self).bytes,
            match read_byte(old(self).rest()) {
                Some((v, r)) => res matches Ok(x) && x == v && final(self).rest() == r,
                None => res is Err,
            },
    {
        let at = self.cursor;
        match self.advance(1) {
            Err(e) => Err(e),
            Ok(()) => {
                assert(old(self).rest().skip(1) =~= self.rest());
                Ok(self.bytes[at])
            },
        }
    }

    fn read_u16(&mut self) -> (res: Result<u16, DecodeError>)
        requires
            old(self).wf(),
        ensures
            final(self).wf(),
            final(self).bytes == old(self).bytes,
            match read_u16(old(self).rest()) {
                Some((v, r)) => res matches Ok(x) && x == v && final(self).rest() == r,
                None => res is Err,
            },
            old(self).cursor + 2 <= usize::MAX ==> (res matches Err(e) ==> e.message@
                == "unexpected end of bytecode"@),
    {
        let at = self.cursor;
        match self.advance(2) {
            Err(e) => Err(e),
            Ok(()) => {
                assert(old(self).rest().skip(2) =~= self.rest());
                let b0 = self.bytes[at] as u16;
                let b1 = self.bytes[at + 1] as u16;
                Ok(b0 + b1 * 256)
            },
        }
    }

    fn read_u32(&mut self) -> (res: Result<u32, DecodeError>)
        requires
            old(self).wf(),
        ensures
            final(self).wf(),
            final(self).bytes == old(self).bytes,
            match read_u32(old(self).rest()) {
                Some((v, r)) => res matches Ok(x) && x == v && final(self).rest() == r,
                None => res is Err,
            },
            old(self).cursor + 4 <= usize::MAX ==> (res matches Err(e) ==> e.message@
                == "unexpected end of bytecode"@),
    {
        let at = self.cursor;
        match self.advance(4) {
            Err(e) => Err(e),
            Ok(()) => {
                assert(old(self).rest().skip(4) =~= self.rest());
                let b0 = self.bytes[at] as u32;
                let b1 = self.bytes[at + 1] as u32;
                let b2 = self.bytes[at + 2] as u32;
                let b3 = self.bytes[at + 3] as u32;
                Ok(b0 + b1 * 256 + b2 * 65536 + b3 * 16777216)
            },
        }
    }

    fn read_string(&mut self) -> (res: Result<String, DecodeError>)
        requires
            old(self).wf(),
        ensures
            final(self).wf(),
            final(self).bytes == old(self).bytes,
            match read_string(old(self).rest()) {
                Some((v, r)) => res matches Ok(x) && x@ == v && final(self).rest() == r,
                None => res is Err,
            },
    {
        let len = match self.read_u32() {
            Err(e) => return Err(e),
            Ok(len) => len as usize,
        };
        let start = self.cursor;
        let ghost after_len = self.rest();
        match self.advance(len) {
            Err(e) => return Err(e),
            Ok(()) => {},
        }
        let mut text: Vec<u8> = Vec::new();
        let mut i = start;
        while i < self.cursor
            invariant
                start <= i <= self.cursor <= self.bytes@.len(),
                text@ == self.bytes@.subrange(start as int, i as int),
            decreases self.cursor - i,
        {
            text.push(self.bytes[i]);
            i += 1;
            assert(text@ =~= self.bytes@.subrange(start as int, i as int));
        }
        assert(after_len.take(len as int) =~= text@);
        assert(after_len.skip(len as int) =~= self.rest());
        match utf8_text(text.as_slice()) {
            Ok(s) => Ok(s),
            Err(reason) => {
                let mut message = chars_of("invalid UTF-8 string: ");
                let mut tail = chars_of(reason.as_str());
                message.append(&mut tail);
                Err(decode_error_chars(message))
            },
        }
    }
}

impl<'a> Reader<'a> {
    fn read_opcode(&mut self) -> (res: Result<Opcode, DecodeError>)
        requires
            old(self).wf(),
        ensures
            final(self).wf(),
            final(self).bytes == old(self).bytes,
            match read_byte(old(self).rest()) {
                Some((v, r)) => match opcode_of_byte(v) {
                    Some(op) => res matches Ok(x) && x == op && final(self).rest() == r,
                    None => res matches Err(e) && e.message@ == "invalid opcode "@ + decimal(v as nat),
                },
                None => res is Err,
            },
    {
        let value = match self.read_u8() {
            Err(e) => return Err(e),
            Ok(v) => v,
        };
        match opcode_from_u8(value) {
            Some(op) => Ok(op),
            None => {
                let mut message = chars_of("invalid opcode ");
                push_decimal_u8(&mut message, value);
                Err(decode_error_chars(message))
            },
        }
    }

    fn read_type_tag(&mut self) -> (res: Result<TypeTag, DecodeError>)
        requires
            old(self).wf(),
        ensures
            final(self).wf(),
            final(self).bytes == old(self).bytes,
            match read_tag(old(self).rest()) {
                Some((v, r)) => res matches Ok(x) && x == v && final(self).rest() == r,
                None => res is Err,
            },
            read_byte(old(self).rest()) matches Some((v, r)) ==> (type_tag_of_byte(v) is None ==> (
            res matches Err(e) && e.message@ == "invalid type tag "@ + decimal(v as nat))),
    {
        let value = match self.read_u8() {
            Err(e) => return Err(e),
            Ok(v) => v,
        };
        match type_tag_from_u8(value) {
            Some(tag) => Ok(tag),
            None => {
                let mut message = chars_of("invalid type tag ");
                push_decimal_u8(&mut message, value);
                Err(decode_error_chars(message))
            },
        }
    }

    fn read_constant(&mut self) -> (res: Result<Constant, DecodeError>)
        requires
            old(self).wf(),
        ensures
            final(self).wf(),
            final(self).bytes == old(self).bytes,
            match read_constant(old(self).rest()) {
                Some((v, r)) => res matches Ok(x) && x@ == v && final(self).rest() == r,
                None => res is Err,
            },
            read_byte(old(self).rest()) matches Some((tag, r)) ==> (tag > 5 ==> (
            res matches Err(e) && e.message@ == "invalid constant tag "@ + decimal(tag as nat))),
    {
        let tag = match self.read_u8() {
            Err(e) => return Err(e),
            Ok(v) => v,
        };
        if tag == 0 {
            match self.read_string() {
                Ok(text) => Ok(Constant::Number(text)),
                Err(e) => Err(e),
            }
        } else if tag == 1 {
            match self.read_string() {
                Ok(text) => Ok(Constant::String(text)),
                Err(e) => Err(e),
            }
        } else if tag == 2 {
            match self.read_u8() {
                Ok(v) => Ok(Constant::Boolean(v != 0)),
                Err(e) => Err(e),
            }
        } else if tag == 3 {
            Ok(Constant::Null)
        } else if tag == 4 {
            Ok(Constant::Undefined)
        } else if tag == 5 {
            match self.read_string() {
                Ok(text) => Ok(Constant::Symbol(text)),
                Err(e) => Err(e),
            }
        } else {
            let mut message = chars_of("invalid constant tag ");
            push_decimal_u8(&mut message, tag);
            Err(decode_error_chars(message))
        }
    }

    fn read_source(&mut self) -> (res: Result<SourceRef, DecodeError>)
        requires
            old(self).wf(),
        ensures
            final(self).wf(),
            final(self).bytes == old(self).bytes,
            match read_source(old(self).rest()) {
                Some((v, r)) => res matches Ok(x) && x == v && final(self).rest() == r,
                None => res is Err,
            },
    {
        let start_byte = match self.read_u32() { Err(e) => return Err(e), Ok(v) => v };
        let end_byte = match self.read_u32() { Err(e) => return Err(e), Ok(v) => v };
        let start_line = match self.read_u32() { Err(e) => return Err(e), Ok(v) => v };
        let start_column = match self.read_u32() { Err(e) => return Err(e), Ok(v) => v };
        let end_line = match self.read_u32() { Err(e) => return Err(e), Ok(v) => v };
        let end_column = match self.read_u32() { Err(e) => return Err(e), Ok(v) => v };
        Ok(SourceRef { start_byte, end_byte, start_line, start_column, end_line, end_column })
    }

    fn read_exception(&mut self) -> (res: Result<ExceptionEntry, DecodeError>)
        requires
            old(self).wf(),
        ensures
            final(self).wf(),
            final(self).bytes == old(self).bytes,
            match read_exception(old(self).rest()) {
                Some((v, r)) => res matches Ok(x) && x == v && final(self).rest() == r,
                None => res is Err,
            },
    {
        let start_block = match self.read_u32() { Err(e) => return Err(e), Ok(v) => v };
        let end_block = match self.read_u32() { Err(e) => return Err(e), Ok(v) => v };
        let handler_block = match self.read_u32() { Err(e) => return Err(e), Ok(v) => v };
        Ok(ExceptionEntry { start_block, end_block, handler_block })
    }
}

proof fn lemma_map_push<A, B>(s: Seq<A>, x: A, f: spec_fn(A) -> B)
    ensures
        s.push(x).map_values(f) == s.map_values(f).push(f(x)),
{
    assert(s.push(x).map_values(f) =~= s.map_values(f).push(f(x)));
}

impl<'a> Reader<'a> {
    fn read_operands(&mut self) -> (res: Result<Vec<u32>, DecodeError>)
        requires
            old(self).wf(),
        ensures
            final(self).wf(),
            final(self).bytes == old(self).bytes,
            match read_list(old(self).rest(), |x: Seq<u8>| read_operand(x)) {
                Some((v, r)) => res matches Ok(x) && x@ == v && final(self).rest() == r,
                None => res is Err,
            },
    {
        let count = match self.read_u32() {
            Err(e) => return Err(e),
            Ok(v) => v,
        };
        let ghost start = self.rest();
        let ghost bytes = self.bytes;
        let ghost rd = |x: Seq<u8>| read_operand(x);
        let mut items: Vec<u32> = Vec::new();
        let mut i: u32 = 0;
        while i < count
            invariant
                self.wf(),
                self.bytes == bytes,
                bytes == old(self).bytes,
                read_u32(old(self).rest()) == Some((count, start)),
                i <= count,
                rd == |x: Seq<u8>| read_operand(x),
                read_seq(i as nat, start, rd) == Some((items@, self.rest())),
            decreases count - i,
        {
            let ghost before = self.rest();
            proof {
                lemma_read_seq_step(i as nat, start, rd);
            }
            match self.read_u32() {
                Err(e) => {
                    proof {
                        lemma_read_seq_stop(i as nat, count as nat, start, rd);
                    }
                    return Err(e);
                },
                Ok(v) => {
                    items.push(v);
                },
            }
            i += 1;
        }
        Ok(items)
    }

    fn read_instruction(&mut self) -> (res: Result<Instruction, DecodeError>)
        requires
            old(self).wf(),
        ensures
            final(self).wf(),
            final(self).bytes == old(self).bytes,
            match read_instruction(old(self).rest()) {
                Some((v, r)) => res matches Ok(x) && x@ == v && final(self).rest() == r,
                None => res is Err,
            },
    {
        let opcode = match self.read_opcode() {
            Err(e) => return Err(e),
            Ok(v) => v,
        };
        let type_tag = match self.read_type_tag() {
            Err(e) => return Err(e),
            Ok(v) => v,
        };
        let source_ref = match self.read_u32() {
            Err(e) => return Err(e),
            Ok(v) => v,
        };
        let operands = match self.read_operands() {
            Err(e) => return Err(e),
            Ok(v) => v,
        };
        Ok(Instruction { opcode, operands, type_tag, source_ref })
    }

    fn read_instructions(&mut self) -> (res: Result<Vec<Instruction>, DecodeError>)
        requires
            old(self).wf(),
        ensures
            final(self).wf(),
            final(self).bytes == old(self).bytes,
            match read_list(old(self).rest(), |x: Seq<u8>| read_instruction(x)) {
                Some((v, r)) => res matches Ok(x) && x@.map_values(|i: Instruction| i@) == v
                    && final(self).rest() == r,
                None => res is Err,
            },
    {
        let count = match self.read_u32() {
            Err(e) => return Err(e),
            Ok(v) => v,
        };
        let ghost start = self.rest();
        let ghost bytes = self.bytes;
        let ghost rd = |x: Seq<u8>| read_instruction(x);
        let ghost view = |i: Instruction| i@;
        let mut items: Vec<Instruction> = Vec::new();
        let mut i: u32 = 0;
        while i < count
            invariant
                self.wf(),
                self.bytes == bytes,
                bytes == old(self).bytes,
                read_u32(old(self).rest()) == Some((count, start)),
                i <= count,
                rd == |x: Seq<u8>| read_instruction(x),
                view == |i: Instruction| i@,
                read_seq(i as nat, start, rd) == Some((items@.map_values(view), self.rest())),
            decreases count - i,
        {
            proof {
                lemma_read_seq_step(i as nat, start, rd);
            }
            match self.read_instruction() {
                Err(e) => {
                    proof {
                        lemma_read_seq_stop(i as nat, count as nat, start, rd);
                    }
                    return Err(e);
                },
                Ok(v) => {
                    proof {
                        lemma_map_push(items@, v, view);
                    }
                    items.push(v);
                },
            }
            i += 1;
        }
        Ok(items)
    }

    fn read_block(&mut self) -> (res: Result<BytecodeBlock, DecodeError>)
        requires
            old(self).wf(),
        ensures
            final(self).wf(),
            final(self).bytes == old(self).bytes,
            match read_block(old(self).rest()) {
                Some((v, r)) => res matches Ok(x) && x@ == v && final(self).rest() == r,
                None => res is Err,
            },
    {
        let id = match self.read_u32() {
            Err(e) => return Err(e),
            Ok(v) => v,
        };
        let instructions = match self.read_instructions() {
            Err(e) => return Err(e),
            Ok(v) => v,
        };
        Ok(BytecodeBlock { id, instructions })
    }

    fn read_blocks(&mut self) -> (res: Result<Vec<BytecodeBlock>, DecodeError>)
        requires
            old(self).wf(),
        ensures
            final(self).wf(),
            final(self).bytes == old(self).bytes,
            match read_list(old(self).rest(), |x: Seq<u8>| read_block(x)) {
                Some((v, r)) => res matches Ok(x) && x@.map_values(|b: BytecodeBlock| b@) == v
                    && final(self).rest() == r,
                None => res is Err,
            },
    {
        let count = match self.read_u32() {
            Err(e) => return Err(e),
            Ok(v) => v,
        };
        let ghost start = self.rest();
        let ghost bytes = self.bytes;
        let ghost rd = |x: Seq<u8>| read_block(x);
        let ghost view = |b: BytecodeBlock| b@;
        let mut items: Vec<BytecodeBlock> = Vec::new();
        let mut i: u32 = 0;
        while i < count
            invariant
                self.wf(),
                self.bytes == bytes,
                bytes == old(self).bytes,
                read_u32(old(self).rest()) == Some((count, start)),
                i <= count,
                rd == |x: Seq<u8>| read_block(x),
                view == |b: BytecodeBlock| b@,
                read_seq(i as nat, start, rd) == Some((items@.map_values(view), self.rest())),
            decreases count - i,
        {
            proof {
                lemma_read_seq_step(i as nat, start, rd);
            }
            match self.read_block() {
                Err(e) => {
                    proof {
                        lemma_read_seq_stop(i as nat, count as nat, start, rd);
                    }
                    return Err(e);
                },
                Ok(v) => {
                    proof {
                        lemma_map_push(items@, v, view);
                    }
                    items.push(v);
                },
            }
            i += 1;
        }
        Ok(items)
    }

    fn read_params(&mut self) -> (res: Result<Vec<TypeTag>, DecodeError>)
        requires
            old(self).wf(),
        ensures
            final(self).wf(),
            final(self).bytes == old(self).bytes,
            match read_list(old(self).rest(), |x: Seq<u8>| read_tag(x)) {
                Some((v, r)) => res matches Ok(x) && x@ == v && final(self).rest() == r,
                None => res is Err,
            },
    {
        let count = match self.read_u32() {
            Err(e) => return Err(e),
            Ok(v) => v,
        };
        let ghost start = self.rest();
        let ghost bytes = self.bytes;
        let ghost rd = |x: Seq<u8>| read_tag(x);
        let mut items: Vec<TypeTag> = Vec::new();
        let mut i: u32 = 0;
        while i < count
            invariant
                self.wf(),
                self.bytes == bytes,
                bytes == old(self).bytes,
                read_u32(old(self).rest()) == Some((count, start)),
                i <= count,
                rd == |x: Seq<u8>| read_tag(x),
                read_seq(i as nat, start, rd) == Some((items@, self.rest())),
            decreases count - i,
        {
            proof {
                lemma_read_seq_step(i as nat, start, rd);
            }
            match self.read_type_tag() {
                Err(e) => {
                    proof {
                        lemma_read_seq_stop(i as nat, count as nat, start, rd);
                    }
                    return Err(e);
                },
                Ok(v) => {
                    items.push(v);
                },
            }
            i += 1;
        }
        Ok(items)
    }

    fn read_exceptions(&mut self) -> (res: Result<Vec<ExceptionEntry>, DecodeError>)
        requires
            old(self).wf(),
        ensures
            final(self).wf(),
            final(self).bytes == old(self).bytes,
            match read_list(old(self).rest(), |x: Seq<u8>| read_exception(x)) {
                Some((v, r)) => res matches Ok(x) && x@ == v && final(self).rest() == r,
                None => res is Err,
            },
    {
        let count = match self.read_u32() {
            Err(e) => return Err(e),
            Ok(v) => v,
        };
        let ghost start = self.rest();
        let ghost bytes = self.bytes;
        let ghost rd = |x: Seq<u8>| read_exception(x);
        let mut items: Vec<ExceptionEntry> = Vec::new();
        let mut i: u32 = 0;
        while i < count
            invariant
                self.wf(),
                self.bytes == bytes,
                bytes == old(self).bytes,
                read_u32(old(self).rest()) == Some((count, start)),
                i <= count,
                rd == |x: Seq<u8>| read_exception(x),
                read_seq(i as nat, start, rd) == Some((items@, self.rest())),
            decreases count - i,
        {
            proof {
                lemma_read_seq_step(i as nat, start, rd);
            }
            match self.read_exception() {
                Err(e) => {
                    proof {
                        lemma_read_seq_stop(i as nat, count as nat, start, rd);
                    }
                    return Err(e);
                },
                Ok(v) => {
                    items.push(v);
                },
            }
            i += 1;
        }
        Ok(items)
    }

    fn read_function(&mut self) -> (res: Result<BytecodeFunction, DecodeError>)
        requires
            old(self).wf(),
        ensures
            final(self).wf(),
            final(self).bytes == old(self).bytes,
            match read_function(old(self).rest()) {
                Some((v, r)) => res matches Ok(x) && x@ == v && final(self).rest() == r,
                None => res is Err,
            },
    {
        let name = match self.read_string() {
            Err(e) => return Err(e),
            Ok(v) => v,
        };
        let params = match self.read_params() {
            Err(e) => return Err(e),
            Ok(v) => v,
        };
        let return_type = match self.read_type_tag() {
            Err(e) => return Err(e),
            Ok(v) => v,
        };
        let blocks = match self.read_blocks() {
            Err(e) => return Err(e),
            Ok(v) => v,
        };
        let exception_table = match self.read_exceptions() {
            Err(e) => return Err(e),
            Ok(v) => v,
        };
        Ok(BytecodeFunction { name, params, return_type, blocks, exception_table })
    }
}

/// Decodes a module written by [`encode_module`]: the header must carry the
/// supported magic and version, the three tables must be complete, every
/// string valid UTF-8, every tag known, and no byte may be left over.
#[verifier::loop_isolation(false)]
#[verifier::spinoff_prover]
#[verifier::rlimit(60)]
pub fn decode_module(bytes: &[u8]) -> (res: Result<BytecodeModule, DecodeError>)
    ensures
        match read_module(bytes@) {
            Some(m) => res matches Ok(module) && module@ == m,
            None => res is Err,
        },
        decode_failure_text(bytes@) matches Some(text) ==> (res matches Err(e) && e.message@ == text),
{
    let mut reader = Reader { bytes, cursor: 0 };
    assert(reader.rest() =~= bytes@);
    match reader.advance(4) {
        Err(e) => return Err(e),
        Ok(()) => {},
    }
    let magic = [bytes[0], bytes[1], bytes[2], bytes[3]];
    let expected = bytecode_magic_bytes();
    assert(magic@ =~= bytes@.take(4));
    if !(magic[0] == expected[0] && magic[1] == expected[1] && magic[2] == expected[2]
        && magic[3] == expected[3]) {
        assert(magic@ != bytecode_magic());
        return Err(decode_error("invalid bytecode magic"));
    }
    assert(magic@ =~= bytecode_magic());
    assert(reader.rest() =~= bytes@.skip(4));
    let version = match reader.read_u16() {
        Err(e) => return Err(e),
        Ok(v) => v,
    };
    if version != BYTECODE_VERSION {
        return Err(decode_error("unsupported bytecode version"));
    }
    let constant_count = match reader.read_u32() {
        Err(e) => return Err(e),
        Ok(v) => v,
    };
    let source_count = match reader.read_u32() {
        Err(e) => return Err(e),
        Ok(v) => v,
    };
    let function_count = match reader.read_u32() {
        Err(e) => return Err(e),
        Ok(v) => v,
    };
    assert(read_counts(bytes@.skip(4)) == Some((version, constant_count, source_count, function_count, reader.rest())));

    let ghost r4 = reader.rest();
    let ghost rd_c = |x: Seq<u8>| read_constant(x);
    let ghost view_c = |c: Constant| c@;
    let mut constants: Vec<Constant> = Vec::new();
    let mut i: u32 = 0;
    while i < constant_count
        invariant
            reader.wf(),
            reader.bytes == bytes,
            i <= constant_count,
            rd_c == |x: Seq<u8>| read_constant(x),
            view_c == |c: Constant| c@,
            read_seq(i as nat, r4, rd_c) == Some((constants@.map_values(view_c), reader.rest())),
        decreases constant_count - i,
    {
        proof {
            lemma_read_seq_step(i as nat, r4, rd_c);
        }
        match reader.read_constant() {
            Err(e) => {
                proof {
                    lemma_read_seq_stop(i as nat, constant_count as nat, r4, rd_c);
                }
                return Err(e);
            },
            Ok(v) => {
                proof {
                    lemma_map_push(constants@, v, view_c);
                }
                constants.push(v);
            },
        }
        i += 1;
    }

    let ghost r5 = reader.rest();
    let ghost rd_s = |x: Seq<u8>| read_source(x);
    let mut source_map: Vec<SourceRef> = Vec::new();
    let mut i: u32 = 0;
    while i < source_count
        invariant
            reader.wf(),
            reader.bytes == bytes,
            i <= source_count,
            rd_s == |x: Seq<u8>| read_source(x),
            read_seq(i as nat, r5, rd_s) == Some((source_map@, reader.rest())),
        decreases source_count - i,
    {
        proof {
            lemma_read_seq_step(i as nat, r5, rd_s);
        }
        match reader.read_source() {
            Err(e) => {
                proof {
                    lemma_read_seq_stop(i as nat, source_count as nat, r5, rd_s);
                }
                return Err(e);
            },
            Ok(v) => {
                source_map.push(v);
            },
        }
        i += 1;
    }

    let ghost r6 = reader.rest();
    let ghost rd_f = |x: Seq<u8>| read_function(x);
    let ghost view_f = |f: BytecodeFunction| f@;
    let mut functions: Vec<BytecodeFunction> = Vec::new();
    let mut i: u32 = 0;
    while i < function_count
        invariant
            reader.wf(),
            reader.bytes == bytes,
            i <= function_count,
            rd_f == |x: Seq<u8>| read_function(x),
            view_f == |f: BytecodeFunction| f@,
            read_seq(i as nat, r6, rd_f) == Some((functions@.map_values(view_f), reader.rest())),
        decreases function_count - i,
    {
        proof {
            lemma_read_seq_step(i as nat, r6, rd_f);
        }
        match reader.read_function() {
            Err(e) => {
                proof {
                    lemma_read_seq_stop(i as nat, function_count as nat, r6, rd_f);
                }
                return Err(e);
            },
            Ok(v) => {
                proof {
                    lemma_map_push(functions@, v, view_f);
                }
                functions.push(v);
            },
        }
        i += 1;
    }

    if reader.cursor != bytes.len() {
        return Err(decode_error("trailing bytes after bytecode module"));
    }
    assert(reader.rest().len() == 0);
    Ok(BytecodeModule {
        header: BytecodeHeader { magic, version },
        constants,
        functions,
        source_map,
    })
}

} // verus!
