//! The byte format of bytecode modules: what encoding writes, what decoding
//! reads, and the proofs that the two agree.
use vstd::prelude::*;
use vstd::utf8::{decode_utf8, encode_utf8, valid_utf8};
use crate::bytecode::{
    bytecode_magic, BlockModel, ConstantModel, ExceptionEntry, FunctionModel, InstructionModel,
    ModuleModel, Opcode, SourceRef, TypeTag, BYTECODE_VERSION,
};

verus! {


// ---------------------------------------------------------------- encoding

pub open spec fn le_u16(v: u16) -> Seq<u8> {
    seq![(v % 256) as u8, (v / 256) as u8]
}

pub open spec fn le_u32(v: u32) -> Seq<u8> {
    seq![(v % 256) as u8, ((v / 256) % 256) as u8, ((v / 65536) % 256) as u8, (v / 16777216) as u8]
}

pub open spec fn opcode_byte(op: Opcode) -> u8 {
    match op {
        Opcode::LoadConst => 0,
        Opcode::BuildObject => 1,
        Opcode::BuildArray => 2,
        Opcode::LoadLocal => 3,
        Opcode::StoreLocal => 4,
        Opcode::LoadMember => 5,
        Opcode::StoreMember => 6,
        Opcode::Binary => 7,
        Opcode::Call => 8,
        Opcode::Branch => 9,
        Opcode::Jump => 10,
        Opcode::Return => 11,
    }
}

pub open spec fn opcode_of_byte(b: u8) -> Option<Opcode> {
    if b == 0 {
        Some(Opcode::LoadConst)
    } else if b == 1 {
        Some(Opcode::BuildObject)
    } else if b == 2 {
        Some(Opcode::BuildArray)
    } else if b == 3 {
        Some(Opcode::LoadLocal)
    } else if b == 4 {
        Some(Opcode::StoreLocal)
    } else if b == 5 {
        Some(Opcode::LoadMember)
    } else if b == 6 {
        Some(Opcode::StoreMember)
    } else if b == 7 {
        Some(Opcode::Binary)
    } else if b == 8 {
        Some(Opcode::Call)
    } else if b == 9 {
        Some(Opcode::Branch)
    } else if b == 10 {
        Some(Opcode::Jump)
    } else if b == 11 {
        Some(Opcode::Return)
    } else {
        None
    }
}

pub open spec fn type_tag_byte(tag: TypeTag) -> u8 {
    match tag {
        TypeTag::Number => 0,
        TypeTag::String => 1,
        TypeTag::Boolean => 2,
        TypeTag::Null => 3,
        TypeTag::Undefined => 4,
        TypeTag::Object => 5,
        TypeTag::Array => 6,
        TypeTag::Named => 7,
        TypeTag::Unknown => 8,
    }
}

pub open spec fn type_tag_of_byte(b: u8) -> Option<TypeTag> {
    if b == 0 {
        Some(TypeTag::Number)
    } else if b == 1 {
        Some(TypeTag::String)
    } else if b == 2 {
        Some(TypeTag::Boolean)
    } else if b == 3 {
        Some(TypeTag::Null)
    } else if b == 4 {
        Some(TypeTag::Undefined)
    } else if b == 5 {
        Some(TypeTag::Object)
    } else if b == 6 {
        Some(TypeTag::Array)
    } else if b == 7 {
        Some(TypeTag::Named)
    } else if b == 8 {
        Some(TypeTag::Unknown)
    } else {
        None
    }
}

/// A string: its UTF-8 byte length (32 bits, little endian), then its UTF-8 bytes.
pub open spec fn enc_string(s: Seq<char>) -> Seq<u8> {
    le_u32(encode_utf8(s).len() as u32) + encode_utf8(s)
}

pub open spec fn enc_constant(c: ConstantModel) -> Seq<u8> {
    match c {
        ConstantModel::Number(s) => seq![0u8] + enc_string(s),
        ConstantModel::String(s) => seq![1u8] + enc_string(s),
        ConstantModel::Boolean(b) => seq![2u8, if b { 1u8 } else { 0u8 }],
        ConstantModel::Null => seq![3u8],
        ConstantModel::Undefined => seq![4u8],
        ConstantModel::Symbol(s) => seq![5u8] + enc_string(s),
    }
}

pub open spec fn enc_source(r: SourceRef) -> Seq<u8> {
    le_u32(r.start_byte) + le_u32(r.end_byte) + le_u32(r.start_line) + le_u32(r.start_column)
        + le_u32(r.end_line) + le_u32(r.end_column)
}

pub open spec fn enc_exception(e: ExceptionEntry) -> Seq<u8> {
    le_u32(e.start_block) + le_u32(e.end_block) + le_u32(e.handler_block)
}

pub open spec fn enc_tag(t: TypeTag) -> Seq<u8> {
    seq![type_tag_byte(t)]
}

/// The encodings of the items of `s`, one after another.
pub open spec fn enc_seq<T>(s: Seq<T>, f: spec_fn(T) -> Seq<u8>) -> Seq<u8>
    decreases s.len(),
{
    if s.len() == 0 {
        Seq::empty()
    } else {
        enc_seq(s.drop_last(), f) + f(s.last())
    }
}

/// A counted list: the item count (32 bits), then the items.
pub open spec fn enc_list<T>(s: Seq<T>, f: spec_fn(T) -> Seq<u8>) -> Seq<u8> {
    le_u32(s.len() as u32) + enc_seq(s, f)
}

pub open spec fn enc_instruction(i: InstructionModel) -> Seq<u8> {
    seq![opcode_byte(i.opcode), type_tag_byte(i.type_tag)] + le_u32(i.source_ref) + enc_list(
        i.operands,
        |v: u32| le_u32(v),
    )
}

pub open spec fn enc_block(b: BlockModel) -> Seq<u8> {
    le_u32(b.id) + enc_list(b.instructions, |i: InstructionModel| enc_instruction(i))
}

pub open spec fn enc_function(f: FunctionModel) -> Seq<u8> {
    enc_string(f.name) + enc_list(f.params, |t: TypeTag| enc_tag(t)) + enc_tag(f.return_type)
        + enc_list(f.blocks, |b: BlockModel| enc_block(b)) + enc_list(
        f.exception_table,
        |e: ExceptionEntry| enc_exception(e),
    )
}

/// The encoding of a module: header, the three table sizes, then the constant
/// pool, the source map and the function table.
pub open spec fn enc_module(m: ModuleModel) -> Seq<u8> {
    m.magic + le_u16(m.version) + le_u32(m.constants.len() as u32) + le_u32(m.source_map.len() as u32)
        + le_u32(m.functions.len() as u32) + enc_seq(m.constants, |c: ConstantModel| enc_constant(c))
        + enc_seq(m.source_map, |r: SourceRef| enc_source(r)) + enc_seq(
        m.functions,
        |f: FunctionModel| enc_function(f),
    )
}

// ------------------------------------------------------ encodability limits

pub open spec fn fits_u32(n: int) -> bool {
    0 <= n <= u32::MAX
}

pub open spec fn string_fits(s: Seq<char>) -> bool {
    fits_u32(encode_utf8(s).len() as int)
}

pub open spec fn constant_fits(c: ConstantModel) -> bool {
    match c {
        ConstantModel::Number(s) => string_fits(s),
        ConstantModel::String(s) => string_fits(s),
        ConstantModel::Symbol(s) => string_fits(s),
        _ => true,
    }
}

pub open spec fn instruction_fits(i: InstructionModel) -> bool {
    fits_u32(i.operands.len() as int)
}

pub open spec fn block_fits(b: BlockModel) -> bool {
    &&& fits_u32(b.instructions.len() as int)
    &&& forall|k: int| 0 <= k < b.instructions.len() ==> instruction_fits(#[trigger] b.instructions[k])
}

pub open spec fn function_fits(f: FunctionModel) -> bool {
    &&& string_fits(f.name)
    &&& fits_u32(f.params.len() as int)
    &&& fits_u32(f.blocks.len() as int)
    &&& fits_u32(f.exception_table.len() as int)
    &&& forall|k: int| 0 <= k < f.blocks.len() ==> block_fits(#[trigger] f.blocks[k])
}

/// Every count and string length of `m` fits the 32-bit fields of the format.
pub open spec fn module_fits(m: ModuleModel) -> bool {
    &&& m.magic.len() == 4
    &&& fits_u32(m.constants.len() as int)
    &&& fits_u32(m.source_map.len() as int)
    &&& fits_u32(m.functions.len() as int)
    &&& forall|k: int| 0 <= k < m.constants.len() ==> constant_fits(#[trigger] m.constants[k])
    &&& forall|k: int| 0 <= k < m.functions.len() ==> function_fits(#[trigger] m.functions[k])
}

// ---------------------------------------------------------------- decoding

/// Reads a little-endian value from the first bytes of `b`.
pub open spec fn read_u16(b: Seq<u8>) -> Option<(u16, Seq<u8>)> {
    if b.len() < 2 {
        None
    } else {
        Some(((b[0] + b[1] * 256) as u16, b.skip(2)))
    }
}

pub open spec fn read_u32(b: Seq<u8>) -> Option<(u32, Seq<u8>)> {
    if b.len() < 4 {
        None
    } else {
        Some(((b[0] + b[1] * 256 + b[2] * 65536 + b[3] * 16777216) as u32, b.skip(4)))
    }
}

pub open spec fn read_byte(b: Seq<u8>) -> Option<(u8, Seq<u8>)> {
    if b.len() < 1 {
        None
    } else {
        Some((b[0], b.skip(1)))
    }
}

pub open spec fn read_string(b: Seq<u8>) -> Option<(Seq<char>, Seq<u8>)> {
    match read_u32(b) {
        None => None,
        Some((len, rest)) => {
            if rest.len() < len || !valid_utf8(rest.take(len as int)) {
                None
            } else {
                Some((decode_utf8(rest.take(len as int)), rest.skip(len as int)))
            }
        },
    }
}

pub open spec fn read_constant(b: Seq<u8>) -> Option<(ConstantModel, Seq<u8>)> {
    match read_byte(b) {
        None => None,
        Some((tag, rest)) => {
            if tag == 0 {
                match read_string(rest) {
                    Some((s, r)) => Some((ConstantModel::Number(s), r)),
                    None => None,
                }
            } else if tag == 1 {
                match read_string(rest) {
                    Some((s, r)) => Some((ConstantModel::String(s), r)),
                    None => None,
                }
            } else if tag == 2 {
                match read_byte(rest) {
                    Some((v, r)) => Some((ConstantModel::Boolean(v != 0), r)),
                    None => None,
                }
            } else if tag == 3 {
                Some((ConstantModel::Null, rest))
            } else if tag == 4 {
                Some((ConstantModel::Undefined, rest))
            } else if tag == 5 {
                match read_string(rest) {
                    Some((s, r)) => Some((ConstantModel::Symbol(s), r)),
                    None => None,
                }
            } else {
                None
            }
        },
    }
}

pub open spec fn read_source(b: Seq<u8>) -> Option<(SourceRef, Seq<u8>)> {
    match read_u32(b) {
        None => None,
        Some((a, r1)) => match read_u32(r1) {
            None => None,
            Some((c, r2)) => match read_u32(r2) {
                None => None,
                Some((d, r3)) => match read_u32(r3) {
                    None => None,
                    Some((e, r4)) => match read_u32(r4) {
                        None => None,
                        Some((f, r5)) => match read_u32(r5) {
                            None => None,
                            Some((g, r6)) => Some(
                                (
                                    SourceRef {
                                        start_byte: a,
                                        end_byte: c,
                                        start_line: d,
                                        start_column: e,
                                        end_line: f,
                                        end_column: g,
                                    },
                                    r6,
                                ),
                            ),
                        },
                    },
                },
            },
        },
    }
}

pub open spec fn read_exception(b: Seq<u8>) -> Option<(ExceptionEntry, Seq<u8>)> {
    match read_u32(b) {
        None => None,
        Some((a, r1)) => match read_u32(r1) {
            None => None,
            Some((c, r2)) => match read_u32(r2) {
                None => None,
                Some((d, r3)) => Some((ExceptionEntry { start_block: a, end_block: c, handler_block: d }, r3)),
            },
        },
    }
}

pub open spec fn read_tag(b: Seq<u8>) -> Option<(TypeTag, Seq<u8>)> {
    match read_byte(b) {
        None => None,
        Some((v, r)) => match type_tag_of_byte(v) {
            Some(t) => Some((t, r)),
            None => None,
        },
    }
}

/// Reads `n` items one after another with `f`.
pub open spec fn read_seq<T>(n: nat, b: Seq<u8>, f: spec_fn(Seq<u8>) -> Option<(T, Seq<u8>)>) -> Option<
    (Seq<T>, Seq<u8>),
>
    decreases n,
{
    if n == 0 {
        Some((Seq::empty(), b))
    } else {
        match f(b) {
            None => None,
            Some((x, r)) => match read_seq((n - 1) as nat, r, f) {
                None => None,
                Some((xs, r2)) => Some((seq![x] + xs, r2)),
            },
        }
    }
}

/// Reads a counted list: the count, then that many items.
pub open spec fn read_list<T>(b: Seq<u8>, f: spec_fn(Seq<u8>) -> Option<(T, Seq<u8>)>) -> Option<
    (Seq<T>, Seq<u8>),
> {
    match read_u32(b) {
        None => None,
        Some((n, r)) => read_seq(n as nat, r, f),
    }
}

pub open spec fn read_operand(b: Seq<u8>) -> Option<(u32, Seq<u8>)> {
    read_u32(b)
}

pub open spec fn read_instruction(b: Seq<u8>) -> Option<(InstructionModel, Seq<u8>)> {
    match read_byte(b) {
        None => None,
        Some((op, r1)) => match opcode_of_byte(op) {
            None => None,
            Some(opcode) => match read_tag(r1) {
                None => None,
                Some((tag, r2)) => match read_u32(r2) {
                    None => None,
                    Some((src, r3)) => match read_list(r3, |x: Seq<u8>| read_operand(x)) {
                        None => None,
                        Some((operands, r4)) => Some(
                            (
                                InstructionModel {
                                    opcode,
                                    operands,
                                    type_tag: tag,
                                    source_ref: src,
                                },
                                r4,
                            ),
                        ),
                    },
                },
            },
        },
    }
}

pub open spec fn read_block(b: Seq<u8>) -> Option<(BlockModel, Seq<u8>)> {
    match read_u32(b) {
        None => None,
        Some((id, r1)) => match read_list(r1, |x: Seq<u8>| read_instruction(x)) {
            None => None,
            Some((instructions, r2)) => Some((BlockModel { id, instructions }, r2)),
        },
    }
}

pub open spec fn read_function(b: Seq<u8>) -> Option<(FunctionModel, Seq<u8>)> {
    match read_string(b) {
        None => None,
        Some((name, r1)) => match read_list(r1, |x: Seq<u8>| read_tag(x)) {
            None => None,
            Some((params, r2)) => match read_tag(r2) {
                None => None,
                Some((return_type, r3)) => match read_list(r3, |x: Seq<u8>| read_block(x)) {
                    None => None,
                    Some((blocks, r4)) => match read_list(r4, |x: Seq<u8>| read_exception(x)) {
                        None => None,
                        Some((exception_table, r5)) => Some(
                            (FunctionModel { name, params, return_type, blocks, exception_table }, r5),
                        ),
                    },
                },
            },
        },
    }
}

/// The version and the three table sizes that follow the magic bytes.
pub open spec fn read_counts(b: Seq<u8>) -> Option<(u16, u32, u32, u32, Seq<u8>)> {
    match read_u16(b) {
        None => None,
        Some((version, r1)) => match read_u32(r1) {
            None => None,
            Some((nc, r2)) => match read_u32(r2) {
                None => None,
                Some((ns, r3)) => match read_u32(r3) {
                    None => None,
                    Some((nf, r4)) => Some((version, nc, ns, nf, r4)),
                },
            },
        },
    }
}

/// The constant pool, source map and function table, which must use up `b`.
pub open spec fn read_tables(nc: u32, ns: u32, nf: u32, b: Seq<u8>) -> Option<
    (Seq<ConstantModel>, Seq<SourceRef>, Seq<FunctionModel>),
> {
    match read_seq(nc as nat, b, |x: Seq<u8>| read_constant(x)) {
        None => None,
        Some((constants, r5)) => match read_seq(ns as nat, r5, |x: Seq<u8>| read_source(x)) {
            None => None,
            Some((source_map, r6)) => match read_seq(nf as nat, r6, |x: Seq<u8>| read_function(x)) {
                None => None,
                Some((functions, r7)) => {
                    if r7.len() != 0 {
                        None
                    } else {
                        Some((constants, source_map, functions))
                    }
                },
            },
        },
    }
}

/// The module that `b` decodes to, if any.
pub open spec fn read_module(b: Seq<u8>) -> Option<ModuleModel> {
    if b.len() < 4 || b.take(4) != bytecode_magic() {
        None
    } else {
        match read_counts(b.skip(4)) {
            None => None,
            Some((version, nc, ns, nf, r4)) => {
                if version != BYTECODE_VERSION {
                    None
                } else {
                    match read_tables(nc, ns, nf, r4) {
                        None => None,
                        Some((constants, source_map, functions)) => Some(
                            ModuleModel { magic: bytecode_magic(), version, constants, functions, source_map },
                        ),
                    }
                }
            },
        }
    }
}

/// The message of a decoding failure met in the header, or in the bytes left
/// over after the tables; `None` where decoding succeeds or fails inside a table.
pub open spec fn decode_failure_text(b: Seq<u8>) -> Option<Seq<char>> {
    if b.len() < 4 {
        Some("unexpected end of bytecode"@)
    } else if b.take(4) != bytecode_magic() {
        Some("invalid bytecode magic"@)
    } else {
        match read_u16(b.skip(4)) {
            None => Some("unexpected end of bytecode"@),
            Some((version, _)) => {
                if version != BYTECODE_VERSION {
                    Some("unsupported bytecode version"@)
                } else {
                    match read_counts(b.skip(4)) {
                        None => Some("unexpected end of bytecode"@),
                        Some((_, nc, ns, nf, r4)) => match read_seq(
                            nc as nat,
                            r4,
                            |x: Seq<u8>| read_constant(x),
                        ) {
                            None => None,
                            Some((_, r5)) => match read_seq(ns as nat, r5, |x: Seq<u8>| read_source(x)) {
                                None => None,
                                Some((_, r6)) => match read_seq(
                                    nf as nat,
                                    r6,
                                    |x: Seq<u8>| read_function(x),
                                ) {
                                    None => None,
                                    Some((_, r7)) => {
                                        if r7.len() != 0 {
                                            Some("trailing bytes after bytecode module"@)
                                        } else {
                                            None
                                        }
                                    },
                                },
                            },
                        },
                    }
                }
            },
        }
    }
}

// ------------------------------------------------------------ agreement

proof fn lemma_u32_digits(v: u32)
    ensures
        (v % 256) as int + ((v / 256) % 256) as int * 256 + ((v / 65536) % 256) as int * 65536 + (v
            / 16777216) as int * 16777216 == v as int,
{
    assert((v % 256) as int + ((v / 256) % 256) as int * 256 + ((v / 65536) % 256) as int * 65536 + (
    v / 16777216) as int * 16777216 == v as int) by (nonlinear_arith);
}

proof fn lemma_u32_bytes(b0: u8, b1: u8, b2: u8, b3: u8)
    ensures
        ({
            let v = (b0 + b1 * 256 + b2 * 65536 + b3 * 16777216) as u32;
            &&& v as int == b0 + b1 * 256 + b2 * 65536 + b3 * 16777216
            &&& (v % 256) as u8 == b0
            &&& ((v / 256) % 256) as u8 == b1
            &&& ((v / 65536) % 256) as u8 == b2
            &&& (v / 16777216) as u8 == b3
        }),
{
    let w: int = b0 + b1 * 256 + b2 * 65536 + b3 * 16777216;
    assert(0 <= w < 0x1_0000_0000);
    assert(w % 256 == b0) by (nonlinear_arith)
        requires
            w == b0 + b1 * 256 + b2 * 65536 + b3 * 16777216,
            0 <= b0 < 256,
    ;
    assert((w / 256) % 256 == b1) by (nonlinear_arith)
        requires
            w == b0 + b1 * 256 + b2 * 65536 + b3 * 16777216,
            0 <= b0 < 256,
            0 <= b1 < 256,
    ;
    assert((w / 65536) % 256 == b2) by (nonlinear_arith)
        requires
            w == b0 + b1 * 256 + b2 * 65536 + b3 * 16777216,
            0 <= b0 < 256,
            0 <= b1 < 256,
            0 <= b2 < 256,
    ;
    assert(w / 16777216 == b3) by (nonlinear_arith)
        requires
            w == b0 + b1 * 256 + b2 * 65536 + b3 * 16777216,
            0 <= b0 < 256,
            0 <= b1 < 256,
            0 <= b2 < 256,
            0 <= b3 < 256,
    ;
}

pub proof fn lemma_read_u32_enc(v: u32, rest: Seq<u8>)
    ensures
        read_u32(le_u32(v) + rest) == Some((v, rest)),
{
    lemma_u32_digits(v);
    let b = le_u32(v) + rest;
    assert(b.skip(4) =~= rest);
}

pub proof fn lemma_read_u32_sound(b: Seq<u8>)
    ensures
        read_u32(b) matches Some((v, r)) ==> b == le_u32(v) + r,
{
    if b.len() >= 4 {
        lemma_u32_bytes(b[0], b[1], b[2], b[3]);
        let (v, r) = read_u32(b).unwrap();
        assert(b =~= le_u32(v) + r);
    }
}

proof fn lemma_u16_digits(v: u16)
    ensures
        (v % 256) as int + (v / 256) as int * 256 == v as int,
        (v / 256) < 256,
{
}

pub proof fn lemma_read_u16_enc(v: u16, rest: Seq<u8>)
    ensures
        read_u16(le_u16(v) + rest) == Some((v, rest)),
{
    lemma_u16_digits(v);
    let b = le_u16(v) + rest;
    assert(b.skip(2) =~= rest);
}

pub proof fn lemma_enc_seq_front<T>(s: Seq<T>, f: spec_fn(T) -> Seq<u8>)
    requires
        s.len() > 0,
    ensures
        enc_seq(s, f) == f(s[0]) + enc_seq(s.drop_first(), f),
    decreases s.len(),
{
    if s.len() == 1 {
        assert(s.drop_last() =~= Seq::<T>::empty());
        assert(s.drop_first() =~= Seq::<T>::empty());
        assert(enc_seq(s.drop_first(), f) =~= Seq::<u8>::empty());
        assert(f(s[0]) + Seq::<u8>::empty() =~= f(s[0]));
        assert(Seq::<u8>::empty() + f(s[0]) =~= f(s[0]));
    } else {
        lemma_enc_seq_front(s.drop_last(), f);
        assert(s.drop_last().drop_first() =~= s.drop_first().drop_last());
        assert(s.drop_first().last() == s.last());
        assert(s.drop_last()[0] == s[0]);
        assert((f(s[0]) + enc_seq(s.drop_last().drop_first(), f)) + f(s.last()) =~= f(s[0]) + (enc_seq(
            s.drop_first().drop_last(),
            f,
        ) + f(s.drop_first().last())));
    }
}

pub proof fn lemma_read_seq_enc<T>(
    s: Seq<T>,
    rest: Seq<u8>,
    enc: spec_fn(T) -> Seq<u8>,
    read: spec_fn(Seq<u8>) -> Option<(T, Seq<u8>)>,
    fits: spec_fn(T) -> bool,
)
    requires
        forall|x: T, r: Seq<u8>| fits(x) ==> #[trigger] read(enc(x) + r) == Some((x, r)),
        forall|k: int| 0 <= k < s.len() ==> fits(#[trigger] s[k]),
    ensures
        read_seq(s.len(), enc_seq(s, enc) + rest, read) == Some((s, rest)),
    decreases s.len(),
{
    if s.len() > 0 {
        lemma_enc_seq_front(s, enc);
        let tail = s.drop_first();
        assert(enc_seq(s, enc) + rest =~= enc(s[0]) + (enc_seq(tail, enc) + rest));
        assert(forall|k: int| 0 <= k < tail.len() ==> tail[k] == s[k + 1]);
        lemma_read_seq_enc(tail, rest, enc, read, fits);
        assert(fits(s[0]));
        assert(seq![s[0]] + tail =~= s);
    } else {
        assert(enc_seq(s, enc) + rest =~= rest);
        assert(s =~= Seq::<T>::empty());
    }
}

pub proof fn lemma_read_seq_fits<T>(
    n: nat,
    b: Seq<u8>,
    read: spec_fn(Seq<u8>) -> Option<(T, Seq<u8>)>,
    fits: spec_fn(T) -> bool,
)
    requires
        forall|b2: Seq<u8>| #[trigger] read(b2) is Some ==> fits(read(b2).unwrap().0),
    ensures
        read_seq(n, b, read) is Some ==> ({
            let s = read_seq(n, b, read).unwrap().0;
            &&& s.len() == n
            &&& forall|k: int| 0 <= k < s.len() ==> fits(#[trigger] s[k])
        }),
    decreases n,
{
    if n > 0 && read(b) is Some {
        let (x, r1) = read(b).unwrap();
        lemma_read_seq_fits((n - 1) as nat, r1, read, fits);
        if read_seq((n - 1) as nat, r1, read) is Some {
            let xs = read_seq((n - 1) as nat, r1, read).unwrap().0;
            let s = seq![x] + xs;
            assert forall|k: int| 0 <= k < s.len() implies fits(#[trigger] s[k]) by {
                if k > 0 {
                    assert(s[k] == xs[k - 1]);
                }
            }
        }
    }
}

/// Reading `n` items is reading the first `i`, then the other `n - i` from where they stopped.
pub proof fn lemma_read_seq_split<T>(
    i: nat,
    n: nat,
    b: Seq<u8>,
    read: spec_fn(Seq<u8>) -> Option<(T, Seq<u8>)>,
)
    requires
        i <= n,
        read_seq(i, b, read) is Some,
    ensures
        read_seq(n, b, read) == (match read_seq((n - i) as nat, read_seq(i, b, read).unwrap().1, read) {
            None => None,
            Some((ys, r)) => Some((read_seq(i, b, read).unwrap().0 + ys, r)),
        }),
    decreases i,
{
    if i == 0 {
        match read_seq(n, b, read) {
            None => {},
            Some((ys, r)) => {
                assert(Seq::<T>::empty() + ys =~= ys);
            },
        }
    } else {
        let (x, r1) = read(b).unwrap();
        lemma_read_seq_split((i - 1) as nat, (n - 1) as nat, r1, read);
        let xs = read_seq((i - 1) as nat, r1, read).unwrap().0;
        match read_seq((n - i) as nat, read_seq(i, b, read).unwrap().1, read) {
            None => {},
            Some((ys, r)) => {
                assert(seq![x] + (xs + ys) =~= (seq![x] + xs) + ys);
            },
        }
    }
}

/// One more item read after the first `i`.
pub proof fn lemma_read_seq_step<T>(i: nat, b: Seq<u8>, read: spec_fn(Seq<u8>) -> Option<(T, Seq<u8>)>)
    requires
        read_seq(i, b, read) is Some,
    ensures
        read_seq(i + 1, b, read) == (match read(read_seq(i, b, read).unwrap().1) {
            None => None,
            Some((x, r)) => Some((read_seq(i, b, read).unwrap().0.push(x), r)),
        }),
{
    lemma_read_seq_split(i, i + 1, b, read);
    let (xs, r0) = read_seq(i, b, read).unwrap();
    assert(((i + 1) - i) as nat == 1);
    match read(r0) {
        None => {},
        Some((x, r)) => {
            assert(read_seq(0, r, read) == Some((Seq::<T>::empty(), r)));
            assert(read_seq(1, r0, read) == Some((seq![x] + Seq::<T>::empty(), r)));
            assert(xs + (seq![x] + Seq::<T>::empty()) =~= xs.push(x));
        },
    }
}

/// Reading stops for good at the first item that cannot be read.
pub proof fn lemma_read_seq_stop<T>(
    i: nat,
    n: nat,
    b: Seq<u8>,
    read: spec_fn(Seq<u8>) -> Option<(T, Seq<u8>)>,
)
    requires
        i < n,
        read_seq(i, b, read) is Some,
        read(read_seq(i, b, read).unwrap().1) is None,
    ensures
        read_seq(n, b, read) is None,
{
    lemma_read_seq_split(i, n, b, read);
}

pub proof fn lemma_read_list_enc<T>(
    s: Seq<T>,
    rest: Seq<u8>,
    enc: spec_fn(T) -> Seq<u8>,
    read: spec_fn(Seq<u8>) -> Option<(T, Seq<u8>)>,
    fits: spec_fn(T) -> bool,
)
    requires
        fits_u32(s.len() as int),
        forall|x: T, r: Seq<u8>| fits(x) ==> #[trigger] read(enc(x) + r) == Some((x, r)),
        forall|k: int| 0 <= k < s.len() ==> fits(#[trigger] s[k]),
    ensures
        read_list(enc_list(s, enc) + rest, read) == Some((s, rest)),
{
    lemma_read_u32_enc(s.len() as u32, enc_seq(s, enc) + rest);
    assert(enc_list(s, enc) + rest =~= le_u32(s.len() as u32) + (enc_seq(s, enc) + rest));
    lemma_read_seq_enc(s, rest, enc, read, fits);
}

pub proof fn lemma_read_list_fits<T>(
    b: Seq<u8>,
    read: spec_fn(Seq<u8>) -> Option<(T, Seq<u8>)>,
    fits: spec_fn(T) -> bool,
)
    requires
        forall|b2: Seq<u8>| #[trigger] read(b2) is Some ==> fits(read(b2).unwrap().0),
    ensures
        read_list(b, read) is Some ==> ({
            let s = read_list(b, read).unwrap().0;
            &&& fits_u32(s.len() as int)
            &&& forall|k: int| 0 <= k < s.len() ==> fits(#[trigger] s[k])
        }),
{
    if read_u32(b) is Some {
        let (n, r) = read_u32(b).unwrap();
        lemma_read_seq_fits(n as nat, r, read, fits);
    }
}

pub proof fn lemma_read_string_enc(x: Seq<char>, rest: Seq<u8>)
    requires
        string_fits(x),
    ensures
        read_string(enc_string(x) + rest) == Some((x, rest)),
{
    broadcast use vstd::utf8::encode_utf8_decode_utf8, vstd::utf8::encode_utf8_valid_utf8;

    let bytes = encode_utf8(x);
    lemma_read_u32_enc(bytes.len() as u32, bytes + rest);
    assert(enc_string(x) + rest =~= le_u32(bytes.len() as u32) + (bytes + rest));
    assert((bytes + rest).take(bytes.len() as int) =~= bytes);
    assert((bytes + rest).skip(bytes.len() as int) =~= rest);
}

pub proof fn lemma_read_string_sound(b: Seq<u8>)
    ensures
        read_string(b) is Some ==> ({
            let (x, r) = read_string(b).unwrap();
            b == enc_string(x) + r && string_fits(x)
        }),
{
    broadcast use vstd::utf8::decode_utf8_encode_utf8;

    lemma_read_u32_sound(b);
    if read_string(b) is Some {
        let (len, rest) = read_u32(b).unwrap();
        let bytes = rest.take(len as int);
        let (x, r) = read_string(b).unwrap();
        assert(encode_utf8(x) == bytes);
        assert(rest =~= bytes + r);
        assert(b =~= enc_string(x) + r);
    }
}

pub proof fn lemma_read_constant_enc(c: ConstantModel, rest: Seq<u8>)
    requires
        constant_fits(c),
    ensures
        read_constant(enc_constant(c) + rest) == Some((c, rest)),
{
    let b = enc_constant(c) + rest;
    match c {
        ConstantModel::Number(x) => {
            assert(b.skip(1) =~= enc_string(x) + rest);
            lemma_read_string_enc(x, rest);
        },
        ConstantModel::String(x) => {
            assert(b.skip(1) =~= enc_string(x) + rest);
            lemma_read_string_enc(x, rest);
        },
        ConstantModel::Symbol(x) => {
            assert(b.skip(1) =~= enc_string(x) + rest);
            lemma_read_string_enc(x, rest);
        },
        ConstantModel::Boolean(v) => {
            assert(b.skip(1).skip(1) =~= rest);
        },
        _ => {
            assert(b.skip(1) =~= rest);
        },
    }
}

pub proof fn lemma_read_constant_fits(b: Seq<u8>)
    ensures
        read_constant(b) is Some ==> constant_fits(read_constant(b).unwrap().0),
{
    if b.len() >= 1 {
        lemma_read_string_sound(b.skip(1));
    }
}

pub proof fn lemma_read_source_enc(x: SourceRef, rest: Seq<u8>)
    ensures
        read_source(enc_source(x) + rest) == Some((x, rest)),
{
    let a = le_u32(x.start_byte);
    let b = le_u32(x.end_byte);
    let c = le_u32(x.start_line);
    let d = le_u32(x.start_column);
    let e = le_u32(x.end_line);
    let f = le_u32(x.end_column);
    let r5 = f + rest;
    let r4 = e + r5;
    let r3 = d + r4;
    let r2 = c + r3;
    let r1 = b + r2;
    vstd::seq_lib::lemma_concat_associative(a + b + c + d + e, f, rest);
    vstd::seq_lib::lemma_concat_associative(a + b + c + d, e, r5);
    vstd::seq_lib::lemma_concat_associative(a + b + c, d, r4);
    vstd::seq_lib::lemma_concat_associative(a + b, c, r3);
    vstd::seq_lib::lemma_concat_associative(a, b, r2);
    assert(enc_source(x) + rest == a + r1);
    lemma_read_u32_enc(x.start_byte, r1);
    lemma_read_u32_enc(x.end_byte, r2);
    lemma_read_u32_enc(x.start_line, r3);
    lemma_read_u32_enc(x.start_column, r4);
    lemma_read_u32_enc(x.end_line, r5);
    lemma_read_u32_enc(x.end_column, rest);
}

pub proof fn lemma_read_exception_enc(x: ExceptionEntry, rest: Seq<u8>)
    ensures
        read_exception(enc_exception(x) + rest) == Some((x, rest)),
{
    let b = enc_exception(x) + rest;
    let r1 = le_u32(x.end_block) + le_u32(x.handler_block) + rest;
    let r2 = le_u32(x.handler_block) + rest;
    assert(b =~= le_u32(x.start_block) + r1);
    assert(r1 =~= le_u32(x.end_block) + r2);
    lemma_read_u32_enc(x.start_block, r1);
    lemma_read_u32_enc(x.end_block, r2);
    lemma_read_u32_enc(x.handler_block, rest);
}

pub proof fn lemma_read_tag_enc(x: TypeTag, rest: Seq<u8>)
    ensures
        read_tag(enc_tag(x) + rest) == Some((x, rest)),
{
    assert((enc_tag(x) + rest).skip(1) =~= rest);
}

pub proof fn lemma_read_instruction_enc(x: InstructionModel, rest: Seq<u8>)
    requires
        instruction_fits(x),
    ensures
        read_instruction(enc_instruction(x) + rest) == Some((x, rest)),
{
    let enc_op = |v: u32| le_u32(v);
    let rd = |b: Seq<u8>| read_operand(b);
    let ops = enc_list(x.operands, enc_op);
    let b = enc_instruction(x) + rest;
    let r1 = seq![type_tag_byte(x.type_tag)] + le_u32(x.source_ref) + ops + rest;
    let r2 = le_u32(x.source_ref) + ops + rest;
    let r3 = ops + rest;
    assert(b.skip(1) =~= r1);
    assert(r1 =~= enc_tag(x.type_tag) + r2);
    assert(r2 =~= le_u32(x.source_ref) + r3);
    lemma_read_tag_enc(x.type_tag, r2);
    lemma_read_u32_enc(x.source_ref, r3);
    assert forall|v: u32, r: Seq<u8>| (|v: u32| true)(v) implies #[trigger] rd(enc_op(v) + r) == Some(
        (v, r),
    ) by {
        lemma_read_u32_enc(v, r);
    }
    lemma_read_list_enc(x.operands, rest, enc_op, rd, |v: u32| true);
}

pub proof fn lemma_read_block_enc(x: BlockModel, rest: Seq<u8>)
    requires
        block_fits(x),
    ensures
        read_block(enc_block(x) + rest) == Some((x, rest)),
{
    let enc_i = |i: InstructionModel| enc_instruction(i);
    let rd = |b: Seq<u8>| read_instruction(b);
    let fits = |i: InstructionModel| instruction_fits(i);
    let list = enc_list(x.instructions, enc_i);
    assert(enc_block(x) + rest =~= le_u32(x.id) + (list + rest));
    lemma_read_u32_enc(x.id, list + rest);
    assert forall|i: InstructionModel, r: Seq<u8>| fits(i) implies #[trigger] rd(enc_i(i) + r) == Some(
        (i, r),
    ) by {
        lemma_read_instruction_enc(i, r);
    }
    lemma_read_list_enc(x.instructions, rest, enc_i, rd, fits);
}

#[verifier::spinoff_prover]
#[verifier::rlimit(40)]
pub proof fn lemma_read_function_enc(x: FunctionModel, rest: Seq<u8>)
    requires
        function_fits(x),
    ensures
        read_function(enc_function(x) + rest) == Some((x, rest)),
{
    let enc_t = |t: TypeTag| enc_tag(t);
    let rd_t = |b: Seq<u8>| read_tag(b);
    let enc_b = |b: BlockModel| enc_block(b);
    let rd_b = |b: Seq<u8>| read_block(b);
    let fits_b = |b: BlockModel| block_fits(b);
    let enc_e = |e: ExceptionEntry| enc_exception(e);
    let rd_e = |b: Seq<u8>| read_exception(b);
    let excs = enc_list(x.exception_table, enc_e);
    let blocks = enc_list(x.blocks, enc_b);
    let ret = enc_tag(x.return_type);
    let params = enc_list(x.params, enc_t);
    let r4 = excs + rest;
    let r3 = blocks + r4;
    let r2 = ret + r3;
    let r1 = params + r2;
    assert(enc_function(x) + rest =~= enc_string(x.name) + r1);
    lemma_read_string_enc(x.name, r1);
    assert forall|t: TypeTag, r: Seq<u8>| (|t: TypeTag| true)(t) implies #[trigger] rd_t(enc_t(t) + r)
        == Some((t, r)) by {
        lemma_read_tag_enc(t, r);
    }
    lemma_read_list_enc(x.params, r2, enc_t, rd_t, |t: TypeTag| true);
    lemma_read_tag_enc(x.return_type, r3);
    assert forall|bm: BlockModel, r: Seq<u8>| fits_b(bm) implies #[trigger] rd_b(enc_b(bm) + r) == Some(
        (bm, r),
    ) by {
        lemma_read_block_enc(bm, r);
    }
    lemma_read_list_enc(x.blocks, r4, enc_b, rd_b, fits_b);
    assert forall|e: ExceptionEntry, r: Seq<u8>| (|e: ExceptionEntry| true)(e) implies #[trigger] rd_e(
        enc_e(e) + r,
    ) == Some((e, r)) by {
        lemma_read_exception_enc(e, r);
    }
    lemma_read_list_enc(x.exception_table, rest, enc_e, rd_e, |e: ExceptionEntry| true);
}

pub proof fn lemma_read_instruction_fits(b: Seq<u8>)
    ensures
        read_instruction(b) is Some ==> instruction_fits(read_instruction(b).unwrap().0),
{
    if b.len() >= 6 {
        let r3 = b.skip(1).skip(1).skip(4);
        if read_u32(r3) is Some {
            let (n, r) = read_u32(r3).unwrap();
            lemma_read_seq_fits(n as nat, r, |x: Seq<u8>| read_operand(x), |v: u32| true);
        }
    }
}

pub proof fn lemma_read_block_fits(b: Seq<u8>)
    ensures
        read_block(b) is Some ==> block_fits(read_block(b).unwrap().0),
{
    let fits = |i: InstructionModel| instruction_fits(i);
    let rd = |x: Seq<u8>| read_instruction(x);
    assert forall|b2: Seq<u8>| #[trigger] rd(b2) is Some implies fits(rd(b2).unwrap().0) by {
        lemma_read_instruction_fits(b2);
    }
    if read_u32(b) is Some {
        lemma_read_list_fits(read_u32(b).unwrap().1, rd, fits);
    }
}

pub proof fn lemma_read_function_fits(b: Seq<u8>)
    ensures
        read_function(b) is Some ==> function_fits(read_function(b).unwrap().0),
{
    lemma_read_string_sound(b);
    if read_function(b) is Some {
        let (name, r1) = read_string(b).unwrap();
        let rd_t = |x: Seq<u8>| read_tag(x);
        let rd_b = |x: Seq<u8>| read_block(x);
        let rd_e = |x: Seq<u8>| read_exception(x);
        let fits_b = |bm: BlockModel| block_fits(bm);
        lemma_read_list_fits(r1, rd_t, |t: TypeTag| true);
        let r2 = read_list(r1, rd_t).unwrap().1;
        let r3 = read_tag(r2).unwrap().1;
        assert forall|b2: Seq<u8>| #[trigger] rd_b(b2) is Some implies fits_b(rd_b(b2).unwrap().0) by {
            lemma_read_block_fits(b2);
        }
        lemma_read_list_fits(r3, rd_b, fits_b);
        let r4 = read_list(r3, rd_b).unwrap().1;
        lemma_read_list_fits(r4, rd_e, |e: ExceptionEntry| true);
    }
}

proof fn lemma_read_tables_enc(m: ModuleModel)
    requires
        module_fits(m),
    ensures
        read_tables(
            m.constants.len() as u32,
            m.source_map.len() as u32,
            m.functions.len() as u32,
            enc_seq(m.constants, |c: ConstantModel| enc_constant(c)) + enc_seq(
                m.source_map,
                |r: SourceRef| enc_source(r),
            ) + enc_seq(m.functions, |f: FunctionModel| enc_function(f)),
        ) == Some((m.constants, m.source_map, m.functions)),
{
    let enc_c = |c: ConstantModel| enc_constant(c);
    let rd_c = |x: Seq<u8>| read_constant(x);
    let fits_c = |c: ConstantModel| constant_fits(c);
    let enc_s = |r: SourceRef| enc_source(r);
    let rd_s = |x: Seq<u8>| read_source(x);
    let enc_f = |f: FunctionModel| enc_function(f);
    let rd_f = |x: Seq<u8>| read_function(x);
    let fits_f = |f: FunctionModel| function_fits(f);
    let fs = enc_seq(m.functions, enc_f);
    let ss = enc_seq(m.source_map, enc_s);
    let cs = enc_seq(m.constants, enc_c);
    assert(cs + ss + fs =~= cs + (ss + fs));
    assert forall|c: ConstantModel, r: Seq<u8>| fits_c(c) implies #[trigger] rd_c(enc_c(c) + r) == Some(
        (c, r),
    ) by {
        lemma_read_constant_enc(c, r);
    }
    lemma_read_seq_enc(m.constants, ss + fs, enc_c, rd_c, fits_c);
    assert forall|x: SourceRef, r: Seq<u8>| (|x: SourceRef| true)(x) implies #[trigger] rd_s(enc_s(x) + r)
        == Some((x, r)) by {
        lemma_read_source_enc(x, r);
    }
    lemma_read_seq_enc(m.source_map, fs, enc_s, rd_s, |x: SourceRef| true);
    assert forall|f: FunctionModel, r: Seq<u8>| fits_f(f) implies #[trigger] rd_f(enc_f(f) + r) == Some(
        (f, r),
    ) by {
        lemma_read_function_enc(f, r);
    }
    assert(fs =~= fs + Seq::<u8>::empty());
    lemma_read_seq_enc(m.functions, Seq::empty(), enc_f, rd_f, fits_f);
}

/// Decoding the encoding of a module with the supported header gives the module back.
#[verifier::rlimit(50)]
#[verifier::spinoff_prover]
pub proof fn lemma_decode_encode_roundtrip(m: ModuleModel)
    requires
        m.magic == bytecode_magic(),
        m.version == BYTECODE_VERSION,
        module_fits(m),
    ensures
        read_module(enc_module(m)) == Some(m),
{
    let tables = enc_seq(m.constants, |c: ConstantModel| enc_constant(c)) + enc_seq(
        m.source_map,
        |r: SourceRef| enc_source(r),
    ) + enc_seq(m.functions, |f: FunctionModel| enc_function(f));
    let r3 = le_u32(m.functions.len() as u32) + tables;
    let r2 = le_u32(m.source_map.len() as u32) + r3;
    let r1 = le_u32(m.constants.len() as u32) + r2;
    let b = enc_module(m);
    assert(b =~= m.magic + (le_u16(m.version) + r1));
    assert(b.take(4) =~= m.magic);
    assert(b.skip(4) =~= le_u16(m.version) + r1);
    lemma_read_u16_enc(m.version, r1);
    lemma_read_u32_enc(m.constants.len() as u32, r2);
    lemma_read_u32_enc(m.source_map.len() as u32, r3);
    lemma_read_u32_enc(m.functions.len() as u32, tables);
    lemma_read_tables_enc(m);
}

/// Every module that decoding accepts fits the format's limits, has the
/// supported header, and so is decoded again from its own encoding.
pub proof fn lemma_encode_decode_stable(b: Seq<u8>)
    ensures
        read_module(b) matches Some(m) ==> {
            &&& m.magic == bytecode_magic()
            &&& m.version == BYTECODE_VERSION
            &&& module_fits(m)
            &&& read_module(enc_module(m)) == Some(m)
        },
{
    if read_module(b) is Some {
        let m = read_module(b).unwrap();
        let (version, nc, ns, nf, r4) = read_counts(b.skip(4)).unwrap();
        let rd_c = |x: Seq<u8>| read_constant(x);
        let rd_s = |x: Seq<u8>| read_source(x);
        let rd_f = |x: Seq<u8>| read_function(x);
        assert forall|b2: Seq<u8>| #[trigger] rd_c(b2) is Some implies constant_fits(rd_c(b2).unwrap().0) by {
            lemma_read_constant_fits(b2);
        }
        lemma_read_seq_fits(nc as nat, r4, rd_c, |c: ConstantModel| constant_fits(c));
        let r5 = read_seq(nc as nat, r4, rd_c).unwrap().1;
        lemma_read_seq_fits(ns as nat, r5, rd_s, |x: SourceRef| true);
        let r6 = read_seq(ns as nat, r5, rd_s).unwrap().1;
        assert forall|b2: Seq<u8>| #[trigger] rd_f(b2) is Some implies function_fits(rd_f(b2).unwrap().0) by {
            lemma_read_function_fits(b2);
        }
        lemma_read_seq_fits(nf as nat, r6, rd_f, |f: FunctionModel| function_fits(f));
        lemma_decode_encode_roundtrip(m);
    }
}


// ---------------------------------------------------------------- extension

/// `f` reads the same value from `b` followed by more bytes, and leaves
/// those bytes behind the rest it left before.
pub open spec fn reads_through<T>(f: spec_fn(Seq<u8>) -> Option<(T, Seq<u8>)>) -> bool {
    forall|x: Seq<u8>, y: Seq<u8>|
        f(x) is Some ==> #[trigger] f(x + y) == Some((f(x).unwrap().0, f(x).unwrap().1 + y))
}

proof fn lemma_u32_ext(b: Seq<u8>, e: Seq<u8>)
    requires
        read_u32(b) is Some,
    ensures
        read_u32(b + e) == Some((read_u32(b).unwrap().0, read_u32(b).unwrap().1 + e)),
{
    assert((b + e)[0] == b[0] && (b + e)[1] == b[1] && (b + e)[2] == b[2] && (b + e)[3] == b[3]);
    assert((b + e).skip(4) =~= b.skip(4) + e);
}

proof fn lemma_u16_ext(b: Seq<u8>, e: Seq<u8>)
    requires
        read_u16(b) is Some,
    ensures
        read_u16(b + e) == Some((read_u16(b).unwrap().0, read_u16(b).unwrap().1 + e)),
{
    assert((b + e)[0] == b[0] && (b + e)[1] == b[1]);
    assert((b + e).skip(2) =~= b.skip(2) + e);
}

proof fn lemma_byte_ext(b: Seq<u8>, e: Seq<u8>)
    requires
        read_byte(b) is Some,
    ensures
        read_byte(b + e) == Some((read_byte(b).unwrap().0, read_byte(b).unwrap().1 + e)),
{
    assert((b + e)[0] == b[0]);
    assert((b + e).skip(1) =~= b.skip(1) + e);
}

proof fn lemma_string_ext(b: Seq<u8>, e: Seq<u8>)
    requires
        read_string(b) is Some,
    ensures
        read_string(b + e) == Some((read_string(b).unwrap().0, read_string(b).unwrap().1 + e)),
{
    lemma_u32_ext(b, e);
    let (len, rest) = read_u32(b).unwrap();
    assert((rest + e).take(len as int) =~= rest.take(len as int));
    assert((rest + e).skip(len as int) =~= rest.skip(len as int) + e);
}

proof fn lemma_constant_ext(b: Seq<u8>, e: Seq<u8>)
    requires
        read_constant(b) is Some,
    ensures
        read_constant(b + e) == Some((read_constant(b).unwrap().0, read_constant(b).unwrap().1 + e)),
{
    lemma_byte_ext(b, e);
    let (tag, rest) = read_byte(b).unwrap();
    if tag == 0 || tag == 1 || tag == 5 {
        lemma_string_ext(rest, e);
    } else if tag == 2 {
        lemma_byte_ext(rest, e);
    }
}

proof fn lemma_tag_ext(b: Seq<u8>, e: Seq<u8>)
    requires
        read_tag(b) is Some,
    ensures
        read_tag(b + e) == Some((read_tag(b).unwrap().0, read_tag(b).unwrap().1 + e)),
{
    lemma_byte_ext(b, e);
}

proof fn lemma_source_ext(b: Seq<u8>, e: Seq<u8>)
    requires
        read_source(b) is Some,
    ensures
        read_source(b + e) == Some((read_source(b).unwrap().0, read_source(b).unwrap().1 + e)),
{
    let r1 = read_u32(b).unwrap().1;
    let r2 = read_u32(r1).unwrap().1;
    let r3 = read_u32(r2).unwrap().1;
    let r4 = read_u32(r3).unwrap().1;
    let r5 = read_u32(r4).unwrap().1;
    lemma_u32_ext(b, e);
    lemma_u32_ext(r1, e);
    lemma_u32_ext(r2, e);
    lemma_u32_ext(r3, e);
    lemma_u32_ext(r4, e);
    lemma_u32_ext(r5, e);
}

proof fn lemma_exception_ext(b: Seq<u8>, e: Seq<u8>)
    requires
        read_exception(b) is Some,
    ensures
        read_exception(b + e) == Some((read_exception(b).unwrap().0, read_exception(b).unwrap().1 + e)),
{
    let r1 = read_u32(b).unwrap().1;
    let r2 = read_u32(r1).unwrap().1;
    lemma_u32_ext(b, e);
    lemma_u32_ext(r1, e);
    lemma_u32_ext(r2, e);
}

proof fn lemma_seq_ext<T>(n: nat, b: Seq<u8>, e: Seq<u8>, f: spec_fn(Seq<u8>) -> Option<(T, Seq<u8>)>)
    requires
        read_seq(n, b, f) is Some,
        reads_through(f),
    ensures
        read_seq(n, b + e, f) == Some((read_seq(n, b, f).unwrap().0, read_seq(n, b, f).unwrap().1 + e)),
    decreases n,
{
    if n > 0 {
        let (x, r) = f(b).unwrap();
        assert(f(b + e) == Some((x, r + e)));
        lemma_seq_ext((n - 1) as nat, r, e, f);
    }
}

proof fn lemma_list_ext<T>(b: Seq<u8>, e: Seq<u8>, f: spec_fn(Seq<u8>) -> Option<(T, Seq<u8>)>)
    requires
        read_list(b, f) is Some,
        reads_through(f),
    ensures
        read_list(b + e, f) == Some((read_list(b, f).unwrap().0, read_list(b, f).unwrap().1 + e)),
{
    lemma_u32_ext(b, e);
    let (n, r) = read_u32(b).unwrap();
    lemma_seq_ext(n as nat, r, e, f);
}

proof fn lemma_instruction_ext(b: Seq<u8>, e: Seq<u8>)
    requires
        read_instruction(b) is Some,
    ensures
        read_instruction(b + e) == Some((read_instruction(b).unwrap().0, read_instruction(b).unwrap().1 + e)),
{
    let rd = |x: Seq<u8>| read_operand(x);
    assert forall|x: Seq<u8>, y: Seq<u8>| rd(x) is Some implies #[trigger] rd(x + y) == Some(
        (rd(x).unwrap().0, rd(x).unwrap().1 + y),
    ) by {
        lemma_u32_ext(x, y);
    }
    let r1 = read_byte(b).unwrap().1;
    let r2 = read_tag(r1).unwrap().1;
    let r3 = read_u32(r2).unwrap().1;
    lemma_byte_ext(b, e);
    lemma_tag_ext(r1, e);
    lemma_u32_ext(r2, e);
    lemma_list_ext(r3, e, rd);
}

proof fn lemma_block_ext(b: Seq<u8>, e: Seq<u8>)
    requires
        read_block(b) is Some,
    ensures
        read_block(b + e) == Some((read_block(b).unwrap().0, read_block(b).unwrap().1 + e)),
{
    let rd = |x: Seq<u8>| read_instruction(x);
    assert forall|x: Seq<u8>, y: Seq<u8>| rd(x) is Some implies #[trigger] rd(x + y) == Some(
        (rd(x).unwrap().0, rd(x).unwrap().1 + y),
    ) by {
        lemma_instruction_ext(x, y);
    }
    let r1 = read_u32(b).unwrap().1;
    lemma_u32_ext(b, e);
    lemma_list_ext(r1, e, rd);
}

proof fn lemma_function_ext(b: Seq<u8>, e: Seq<u8>)
    requires
        read_function(b) is Some,
    ensures
        read_function(b + e) == Some((read_function(b).unwrap().0, read_function(b).unwrap().1 + e)),
{
    let rt = |x: Seq<u8>| read_tag(x);
    let rb = |x: Seq<u8>| read_block(x);
    let rx = |x: Seq<u8>| read_exception(x);
    assert forall|x: Seq<u8>, y: Seq<u8>| rt(x) is Some implies #[trigger] rt(x + y) == Some(
        (rt(x).unwrap().0, rt(x).unwrap().1 + y),
    ) by {
        lemma_tag_ext(x, y);
    }
    assert forall|x: Seq<u8>, y: Seq<u8>| rb(x) is Some implies #[trigger] rb(x + y) == Some(
        (rb(x).unwrap().0, rb(x).unwrap().1 + y),
    ) by {
        lemma_block_ext(x, y);
    }
    assert forall|x: Seq<u8>, y: Seq<u8>| rx(x) is Some implies #[trigger] rx(x + y) == Some(
        (rx(x).unwrap().0, rx(x).unwrap().1 + y),
    ) by {
        lemma_exception_ext(x, y);
    }
    let r1 = read_string(b).unwrap().1;
    let r2 = read_list(r1, rt).unwrap().1;
    let r3 = read_tag(r2).unwrap().1;
    let r4 = read_list(r3, rb).unwrap().1;
    lemma_string_ext(b, e);
    lemma_list_ext(r1, e, rt);
    lemma_tag_ext(r2, e);
    lemma_list_ext(r3, e, rb);
    lemma_list_ext(r4, e, rx);
}

/// Bytes that decode to a module decode to nothing once any bytes follow them.
pub proof fn law_decode_refuses_trailing_bytes(b: Seq<u8>, e: Seq<u8>)
    requires
        read_module(b) is Some,
        e.len() > 0,
    ensures
        read_module(b + e) is None,
{
    let be = b + e;
    assert(be.take(4) =~= b.take(4));
    assert(be.skip(4) =~= b.skip(4) + e);
    let r0 = b.skip(4);
    let r1 = read_u16(r0).unwrap().1;
    let r2 = read_u32(r1).unwrap().1;
    let r3 = read_u32(r2).unwrap().1;
    lemma_u16_ext(r0, e);
    lemma_u32_ext(r1, e);
    lemma_u32_ext(r2, e);
    lemma_u32_ext(r3, e);
    let (version, nc, ns, nf, r4) = read_counts(r0).unwrap();
    let rd_c = |x: Seq<u8>| read_constant(x);
    let rd_s = |x: Seq<u8>| read_source(x);
    let rd_f = |x: Seq<u8>| read_function(x);
    assert forall|x: Seq<u8>, y: Seq<u8>| rd_c(x) is Some implies #[trigger] rd_c(x + y) == Some(
        (rd_c(x).unwrap().0, rd_c(x).unwrap().1 + y),
    ) by {
        lemma_constant_ext(x, y);
    }
    assert forall|x: Seq<u8>, y: Seq<u8>| rd_s(x) is Some implies #[trigger] rd_s(x + y) == Some(
        (rd_s(x).unwrap().0, rd_s(x).unwrap().1 + y),
    ) by {
        lemma_source_ext(x, y);
    }
    assert forall|x: Seq<u8>, y: Seq<u8>| rd_f(x) is Some implies #[trigger] rd_f(x + y) == Some(
        (rd_f(x).unwrap().0, rd_f(x).unwrap().1 + y),
    ) by {
        lemma_function_ext(x, y);
    }
    let r5 = read_seq(nc as nat, r4, rd_c).unwrap().1;
    let r6 = read_seq(ns as nat, r5, rd_s).unwrap().1;
    let r7 = read_seq(nf as nat, r6, rd_f).unwrap().1;
    lemma_seq_ext(nc as nat, r4, e, rd_c);
    lemma_seq_ext(ns as nat, r5, e, rd_s);
    lemma_seq_ext(nf as nat, r6, e, rd_f);
    assert(r7.len() == 0);
    assert((r7 + e).len() != 0);
}

/// No proper prefix of a module's encoding decodes, and neither does the
/// encoding with any bytes after it.
pub proof fn law_decode_refuses_prefix_and_extension(m: ModuleModel, k: int, e: Seq<u8>)
    requires
        m.magic == bytecode_magic(),
        m.version == BYTECODE_VERSION,
        module_fits(m),
        0 <= k < enc_module(m).len(),
        e.len() > 0,
    ensures
        read_module(enc_module(m).take(k)) is None,
        read_module(enc_module(m) + e) is None,
{
    let b = enc_module(m);
    lemma_decode_encode_roundtrip(m);
    law_decode_refuses_trailing_bytes(b, e);
    if read_module(b.take(k)) is Some {
        assert(b.take(k) + b.skip(k) =~= b);
        law_decode_refuses_trailing_bytes(b.take(k), b.skip(k));
    }
}

} // verus!
