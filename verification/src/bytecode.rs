//! The bytecode object format: how an object of the intermediate representation is
//! laid out in bytes, and how it is read back.
//!
//! All integers are little endian. The file starts with `"\0JOO"`, the major, minor
//! and patch version of the targeted runtime, then three table entries (a 4-byte entry
//! count and a 4-byte offset each) for the external functions, the blocks and the local
//! variable slots. An external function is its name and its signature string, each as a
//! 4-byte byte length and the UTF-8 bytes. A block entry is the 4-byte number of its
//! instructions and the 4-byte offset of the first one. A local variable slot is one
//! byte, its size. An instruction takes 16 bytes: 3 bytes of padding, the opcode, then
//! 12 bytes of operands.

use vstd::prelude::*;
use vstd::utf8::{encode_utf8, decode_utf8, valid_utf8};
use crate::ir::{
    Instruction, Opcodes, ExtV, IrV, IrObject, IrExternalFn, Block, Signature, spec_opcode,
    spec_opcode_byte, spec_opcode_of_byte, spec_sig_string, lemma_opcode_byte_roundtrip,
    ext_view, strings_view,
};

verus! {

// ---------------------------------------------------------------------------------
// Little-endian integers.
// ---------------------------------------------------------------------------------

pub open spec fn u32_le(x: u32) -> Seq<u8> {
    seq![(x & 0xff) as u8, ((x >> 8u32) & 0xff) as u8, ((x >> 16u32) & 0xff) as u8, ((x >> 24u32) & 0xff) as u8]
}

pub open spec fn u64_le(x: u64) -> Seq<u8> {
    seq![
        (x & 0xff) as u8,
        ((x >> 8u64) & 0xff) as u8,
        ((x >> 16u64) & 0xff) as u8,
        ((x >> 24u64) & 0xff) as u8,
        ((x >> 32u64) & 0xff) as u8,
        ((x >> 40u64) & 0xff) as u8,
        ((x >> 48u64) & 0xff) as u8,
        ((x >> 56u64) & 0xff) as u8,
    ]
}

pub open spec fn le_u32(b0: u8, b1: u8, b2: u8, b3: u8) -> u32 {
    (b0 as u32) | ((b1 as u32) << 8u32) | ((b2 as u32) << 16u32) | ((b3 as u32) << 24u32)
}

pub open spec fn le_u64(b0: u8, b1: u8, b2: u8, b3: u8, b4: u8, b5: u8, b6: u8, b7: u8) -> u64 {
    (b0 as u64) | ((b1 as u64) << 8u64) | ((b2 as u64) << 16u64) | ((b3 as u64) << 24u64)
        | ((b4 as u64) << 32u64) | ((b5 as u64) << 40u64) | ((b6 as u64) << 48u64) | ((b7 as u64) << 56u64)
}

/// The `u32` stored at `at`.
pub open spec fn get_u32(b: Seq<u8>, at: int) -> u32 {
    le_u32(b[at], b[at + 1], b[at + 2], b[at + 3])
}

/// The `u64` stored at `at`.
pub open spec fn get_u64(b: Seq<u8>, at: int) -> u64 {
    le_u64(b[at], b[at + 1], b[at + 2], b[at + 3], b[at + 4], b[at + 5], b[at + 6], b[at + 7])
}

proof fn lemma_le_u32(x: u32)
    ensures
        le_u32(u32_le(x)[0], u32_le(x)[1], u32_le(x)[2], u32_le(x)[3]) == x,
{
    let b0 = (x & 0xff) as u8;
    let b1 = ((x >> 8u32) & 0xff) as u8;
    let b2 = ((x >> 16u32) & 0xff) as u8;
    let b3 = ((x >> 24u32) & 0xff) as u8;
    assert((b0 as u32) | ((b1 as u32) << 8u32) | ((b2 as u32) << 16u32) | ((b3 as u32) << 24u32) == x) by (bit_vector)
        requires
            b0 == (x & 0xff) as u8,
            b1 == ((x >> 8u32) & 0xff) as u8,
            b2 == ((x >> 16u32) & 0xff) as u8,
            b3 == ((x >> 24u32) & 0xff) as u8,
    ;
}

proof fn lemma_le_u64(x: u64)
    ensures
        le_u64(u64_le(x)[0], u64_le(x)[1], u64_le(x)[2], u64_le(x)[3], u64_le(x)[4], u64_le(x)[5], u64_le(x)[6], u64_le(x)[7]) == x,
{
    let b0 = (x & 0xff) as u8;
    let b1 = ((x >> 8u64) & 0xff) as u8;
    let b2 = ((x >> 16u64) & 0xff) as u8;
    let b3 = ((x >> 24u64) & 0xff) as u8;
    let b4 = ((x >> 32u64) & 0xff) as u8;
    let b5 = ((x >> 40u64) & 0xff) as u8;
    let b6 = ((x >> 48u64) & 0xff) as u8;
    let b7 = ((x >> 56u64) & 0xff) as u8;
    assert((b0 as u64) | ((b1 as u64) << 8u64) | ((b2 as u64) << 16u64) | ((b3 as u64) << 24u64)
        | ((b4 as u64) << 32u64) | ((b5 as u64) << 40u64) | ((b6 as u64) << 48u64) | ((b7 as u64) << 56u64) == x) by (bit_vector)
        requires
            b0 == (x & 0xff) as u8,
            b1 == ((x >> 8u64) & 0xff) as u8,
            b2 == ((x >> 16u64) & 0xff) as u8,
            b3 == ((x >> 24u64) & 0xff) as u8,
            b4 == ((x >> 32u64) & 0xff) as u8,
            b5 == ((x >> 40u64) & 0xff) as u8,
            b6 == ((x >> 48u64) & 0xff) as u8,
            b7 == ((x >> 56u64) & 0xff) as u8,
    ;
}

/// Where the bytes of `x` are stored at `at`, reading there gives `x`.
proof fn lemma_get_u32(b: Seq<u8>, at: int, x: u32)
    requires
        0 <= at,
        at + 4 <= b.len(),
        b.subrange(at, at + 4) == u32_le(x),
    ensures
        get_u32(b, at) == x,
{
    lemma_le_u32(x);
    assert(b[at] == b.subrange(at, at + 4)[0]);
    assert(b[at + 1] == b.subrange(at, at + 4)[1]);
    assert(b[at + 2] == b.subrange(at, at + 4)[2]);
    assert(b[at + 3] == b.subrange(at, at + 4)[3]);
}

proof fn lemma_get_u64(b: Seq<u8>, at: int, x: u64)
    requires
        0 <= at,
        at + 8 <= b.len(),
        b.subrange(at, at + 8) == u64_le(x),
    ensures
        get_u64(b, at) == x,
{
    lemma_le_u64(x);
    let s = b.subrange(at, at + 8);
    assert(b[at] == s[0]);
    assert(b[at + 1] == s[1]);
    assert(b[at + 2] == s[2]);
    assert(b[at + 3] == s[3]);
    assert(b[at + 4] == s[4]);
    assert(b[at + 5] == s[5]);
    assert(b[at + 6] == s[6]);
    assert(b[at + 7] == s[7]);
}

proof fn lemma_i64_u64(x: i64)
    ensures
        (x as u64) as i64 == x,
{
    assert((x as u64) as i64 == x) by (bit_vector);
}

/// Where `x + y` stands in `b` from `p`, `x` stands from `p` and `y` right after it.
proof fn lemma_sub_split(b: Seq<u8>, p: int, x: Seq<u8>, y: Seq<u8>)
    requires
        0 <= p,
        p + x.len() + y.len() <= b.len(),
        b.subrange(p, p + x.len() + y.len()) == x + y,
    ensures
        b.subrange(p, p + x.len()) == x,
        b.subrange(p + x.len(), p + x.len() + y.len()) == y,
{
    assert(b.subrange(p, p + x.len()) == (x + y).subrange(0, x.len() as int));
    assert((x + y).subrange(0, x.len() as int) == x);
    assert(b.subrange(p + x.len(), p + x.len() + y.len()) == (x + y).subrange(x.len() as int, (x.len() + y.len()) as int));
    assert((x + y).subrange(x.len() as int, (x.len() + y.len()) as int) == y);
}

// ---------------------------------------------------------------------------------
// Splitting a signature string at its slashes.
// ---------------------------------------------------------------------------------

/// The pieces of `s` between slashes, as `str::split('/')` gives them: always at
/// least one.
pub open spec fn spec_split(s: Seq<char>) -> Seq<Seq<char>>
    decreases s.len(),
{
    if s.len() == 0 {
        seq![Seq::<char>::empty()]
    } else {
        let p = spec_split(s.drop_last());
        if s.last() == '/' {
            p.push(Seq::<char>::empty())
        } else {
            p.update(p.len() - 1, p.last().push(s.last()))
        }
    }
}

pub open spec fn no_slash(s: Seq<char>) -> bool {
    forall|i: int| 0 <= i < s.len() ==> s[i] != '/'
}

proof fn lemma_split_len(s: Seq<char>)
    ensures
        spec_split(s).len() >= 1,
    decreases s.len(),
{
    if s.len() > 0 {
        lemma_split_len(s.drop_last());
    }
}

/// Appending characters that are no slash extends the last piece.
proof fn lemma_split_append(x: Seq<char>, a: Seq<char>)
    requires
        no_slash(a),
    ensures
        spec_split(x + a) == spec_split(x).update(spec_split(x).len() - 1, spec_split(x).last() + a),
    decreases a.len(),
{
    lemma_split_len(x);
    if a.len() == 0 {
        assert(x + a == x);
        assert(spec_split(x).last() + a == spec_split(x).last());
        assert(spec_split(x).update(spec_split(x).len() - 1, spec_split(x).last()) == spec_split(x));
    } else {
        let a0 = a.drop_last();
        lemma_split_append(x, a0);
        assert((x + a).drop_last() == x + a0);
        assert((x + a).last() == a.last());
        lemma_split_len(x + a0);
        assert(spec_split(x + a0).last() == spec_split(x).last() + a0);
        assert(spec_split(x).last() + a0 + seq![a.last()] == spec_split(x).last() + a);
        assert(spec_split(x + a) == spec_split(x + a0).update(spec_split(x + a0).len() - 1, spec_split(x + a0).last().push(a.last())));
        assert(spec_split(x + a0).last().push(a.last()) == spec_split(x).last() + a);
    }
}

/// Splitting the signature string gives back the return type and the arguments, when
/// none of them holds a slash.
pub proof fn lemma_split_sig_string(ret: Seq<char>, args: Seq<Seq<char>>)
    requires
        no_slash(ret),
        forall|i: int| 0 <= i < args.len() ==> no_slash(#[trigger] args[i]),
    ensures
        spec_split(spec_sig_string(ret, args)) == seq![ret] + args,
    decreases args.len(),
{
    if args.len() == 0 {
        lemma_split_append(Seq::empty(), ret);
        assert(Seq::<char>::empty() + ret == ret);
        assert(spec_split(Seq::<char>::empty()) == seq![Seq::<char>::empty()]);
        assert(seq![Seq::<char>::empty()].update(0, Seq::<char>::empty() + ret) == seq![ret]);
        assert(seq![ret] + args == seq![ret]);
    } else {
        let a0 = args.drop_last();
        let last = args.last();
        assert forall|i: int| 0 <= i < a0.len() implies no_slash(#[trigger] a0[i]) by {
            assert(a0[i] == args[i]);
        }
        lemma_split_sig_string(ret, a0);
        let x = spec_sig_string(ret, a0);
        let xs = x + "/"@;
        assert("/"@ == seq!['/']) by {
            reveal_strlit("/");
        }
        assert(xs.drop_last() == x);
        assert(xs.last() == '/');
        assert(spec_split(xs) == spec_split(x).push(Seq::<char>::empty()));
        assert(no_slash(last)) by {
            assert(last == args[args.len() - 1]);
        }
        lemma_split_append(xs, last);
        assert(spec_sig_string(ret, args) == xs + last);
        assert(Seq::<char>::empty() + last == last);
        assert(spec_split(xs).update(spec_split(xs).len() - 1, spec_split(xs).last() + last) == (seq![ret] + a0).push(last));
        assert((seq![ret] + a0).push(last) == seq![ret] + args);
    }
}


// ---------------------------------------------------------------------------------
// Writing.
// ---------------------------------------------------------------------------------

/// The first operand of an instruction (0 where it has none).
pub open spec fn instr_op1(i: Instruction) -> u32 {
    match i {
        Instruction::Nop() => 0,
        Instruction::Varref() => 0,
        Instruction::Pop(a) => a,
        Instruction::Dup(a) => a,
        Instruction::Swap(a) => a,
        Instruction::Br(a) => a,
        Instruction::Briz(a, _) => a,
        Instruction::Call(a) => a,
        Instruction::Iconst(a, _) => a,
        Instruction::Iload(a) => a,
        Instruction::Istore(a) => a,
        Instruction::Iret(a) => a,
        Instruction::Inot(a) => a,
        Instruction::Ior(a) => a,
        Instruction::Iand(a) => a,
        Instruction::Ixor(a) => a,
        Instruction::Ilshr(a) => a,
        Instruction::Iashr(a) => a,
        Instruction::Ishl(a) => a,
        Instruction::Ineg(a) => a,
        Instruction::Iadd(a) => a,
        Instruction::Isub(a) => a,
        Instruction::Imul(a) => a,
        Instruction::Idiv(a) => a,
        Instruction::Udiv(a) => a,
        Instruction::Irem(a) => a,
        Instruction::Urem(a) => a,
        Instruction::Ieq(a) => a,
        Instruction::Ine(a) => a,
        Instruction::Ige(a) => a,
        Instruction::Igt(a) => a,
        Instruction::Uge(a) => a,
        Instruction::Ugt(a) => a,
        Instruction::Ilt(a) => a,
        Instruction::Ile(a) => a,
        Instruction::Ule(a) => a,
        Instruction::Ult(a) => a,
        Instruction::Iconv(a, _) => a,
        Instruction::Uconv(a, _) => a,
    }
}

/// The second 4-byte operand of an instruction (0 where it has none).
pub open spec fn instr_op2(i: Instruction) -> u32 {
    match i {
        Instruction::Briz(_, b) => b,
        Instruction::Iconv(_, b) => b,
        Instruction::Uconv(_, b) => b,
        _ => 0,
    }
}

/// The 16 bytes of an instruction: 3 bytes of padding, the opcode, the first operand,
/// then either the 8-byte immediate of `iconst` or the second operand and 4 bytes of
/// padding.
pub open spec fn instr_bytes(i: Instruction) -> Seq<u8> {
    instr_head(i) + u32_le(instr_op1(i)) + instr_tail(i)
}

/// The padding and the opcode.
pub open spec fn instr_head(i: Instruction) -> Seq<u8> {
    seq![0u8, 0u8, 0u8, spec_opcode_byte(spec_opcode(i))]
}

/// The last 8 bytes: the immediate of `iconst`, or the second operand and padding.
pub open spec fn instr_tail(i: Instruction) -> Seq<u8> {
    match i {
        Instruction::Iconst(_, imm) => u64_le(imm as u64),
        _ => u32_le(instr_op2(i)) + seq![0u8, 0u8, 0u8, 0u8],
    }
}

/// The bytes of a run of instructions, one after the other.
pub open spec fn instrs_bytes(s: Seq<Instruction>) -> Seq<u8>
    decreases s.len(),
{
    if s.len() == 0 {
        Seq::empty()
    } else {
        instrs_bytes(s.drop_last()) + instr_bytes(s.last())
    }
}

/// A string as its 4-byte byte length and its UTF-8 bytes.
pub open spec fn str_entry(s: Seq<char>) -> Seq<u8> {
    u32_le(encode_utf8(s).len() as u32) + encode_utf8(s)
}

/// An external function's entry: its name, then its signature string.
pub open spec fn ext_entry(f: ExtV) -> Seq<u8> {
    str_entry(f.name) + str_entry(spec_sig_string(f.ret, f.args))
}

pub open spec fn ext_table(fs: Seq<ExtV>) -> Seq<u8>
    decreases fs.len(),
{
    if fs.len() == 0 {
        Seq::empty()
    } else {
        ext_table(fs.drop_last()) + ext_entry(fs.last())
    }
}

/// The number of instructions of all the blocks.
pub open spec fn total_instrs(bs: Seq<Seq<Instruction>>) -> nat
    decreases bs.len(),
{
    if bs.len() == 0 {
        0
    } else {
        total_instrs(bs.drop_last()) + bs.last().len()
    }
}

/// The block table, for instructions laid out from offset `base` on, block after block.
pub open spec fn block_table(bs: Seq<Seq<Instruction>>, base: nat) -> Seq<u8>
    decreases bs.len(),
{
    if bs.len() == 0 {
        Seq::empty()
    } else {
        block_table(bs.drop_last(), base)
            + u32_le(bs.last().len() as u32)
            + u32_le((base + 16 * total_instrs(bs.drop_last())) as u32)
    }
}

/// The instructions of all the blocks, block after block.
pub open spec fn code_area(bs: Seq<Seq<Instruction>>) -> Seq<u8>
    decreases bs.len(),
{
    if bs.len() == 0 {
        Seq::empty()
    } else {
        code_area(bs.drop_last()) + instrs_bytes(bs.last())
    }
}

/// `"\0JOO"`
pub open spec fn magic() -> Seq<u8> {
    seq![0u8, 0x4Au8, 0x4Fu8, 0x4Fu8]
}

/// The size of the header.
pub open spec fn header_len() -> nat {
    31
}

pub open spec fn blocks_offset(o: IrV) -> nat {
    header_len() + ext_table(o.ext_fn).len()
}

pub open spec fn vars_offset(o: IrV) -> nat {
    blocks_offset(o) + 8 * o.blocks.len()
}

pub open spec fn code_offset(o: IrV) -> nat {
    vars_offset(o) + o.local_vars.len()
}

/// The size of the object's bytes.
pub open spec fn object_size(o: IrV) -> nat {
    code_offset(o) + 16 * total_instrs(o.blocks)
}

pub open spec fn header(o: IrV, major: u8, minor: u8, patch: u8) -> Seq<u8> {
    magic() + seq![major, minor, patch]
        + u32_le(o.ext_fn.len() as u32) + u32_le(header_len() as u32)
        + u32_le(o.blocks.len() as u32) + u32_le(blocks_offset(o) as u32)
        + u32_le(o.local_vars.len() as u32) + u32_le(vars_offset(o) as u32)
}

/// The bytes of an object: the header, the external functions, the block table, the
/// local variable slots and the instructions, in this order.
pub open spec fn spec_write(o: IrV, major: u8, minor: u8, patch: u8) -> Seq<u8> {
    header(o, major, minor, patch) + ext_table(o.ext_fn) + block_table(o.blocks, code_offset(o))
        + o.local_vars + code_area(o.blocks)
}

// ---------------------------------------------------------------------------------
// Reading.
// ---------------------------------------------------------------------------------

/// Why an object could not be read.
#[derive(Clone, Copy, Debug, PartialEq, Eq, Structural)]
pub enum ReadError {
    /// The bytes end before what the object describes.
    UnexpectedEnd,
    /// The bytes do not start with `"\0JOO"`.
    BadHeader,
    /// The object targets another runtime version: major, minor, patch.
    UnsupportedVersion(u8, u8, u8),
    /// A string is not UTF-8.
    BadString,
    /// An instruction has an unknown opcode.
    BadOpcode(u8),
    /// The runtime's own version string is no version.
    UnknownRuntimeVersion,
}

/// Why an object could not be written.
#[derive(Clone, Copy, Debug, PartialEq, Eq, Structural)]
pub enum WriteError {
    /// The object does not fit the format's 4-byte offsets.
    TooLarge,
    /// The runtime's own version string is no version.
    UnknownRuntimeVersion,
}

/// The instruction of opcode `op` with operands `a`, `c` and immediate `imm`.
pub open spec fn decode_instr(op: Opcodes, a: u32, c: u32, imm: i64) -> Instruction {
    match op {
        Opcodes::Nop => Instruction::Nop(),
        Opcodes::Pop => Instruction::Pop(a),
        Opcodes::Dup => Instruction::Dup(a),
        Opcodes::Swap => Instruction::Swap(a),
        Opcodes::Br => Instruction::Br(a),
        Opcodes::Briz => Instruction::Briz(a, c),
        Opcodes::Call => Instruction::Call(a),
        Opcodes::Varref => Instruction::Varref(),
        Opcodes::Iconst => Instruction::Iconst(a, imm),
        Opcodes::Iload => Instruction::Iload(a),
        Opcodes::Istore => Instruction::Istore(a),
        Opcodes::Iret => Instruction::Iret(a),
        Opcodes::Inot => Instruction::Inot(a),
        Opcodes::Ior => Instruction::Ior(a),
        Opcodes::Iand => Instruction::Iand(a),
        Opcodes::Ixor => Instruction::Ixor(a),
        Opcodes::Ilshr => Instruction::Ilshr(a),
        Opcodes::Iashr => Instruction::Iashr(a),
        Opcodes::Ishl => Instruction::Ishl(a),
        Opcodes::Ineg => Instruction::Ineg(a),
        Opcodes::Iadd => Instruction::Iadd(a),
        Opcodes::Isub => Instruction::Isub(a),
        Opcodes::Imul => Instruction::Imul(a),
        Opcodes::Idiv => Instruction::Idiv(a),
        Opcodes::Udiv => Instruction::Udiv(a),
        Opcodes::Irem => Instruction::Irem(a),
        Opcodes::Urem => Instruction::Urem(a),
        Opcodes::Ieq => Instruction::Ieq(a),
        Opcodes::Ine => Instruction::Ine(a),
        Opcodes::Ige => Instruction::Ige(a),
        Opcodes::Igt => Instruction::Igt(a),
        Opcodes::Uge => Instruction::Uge(a),
        Opcodes::Ugt => Instruction::Ugt(a),
        Opcodes::Ilt => Instruction::Ilt(a),
        Opcodes::Ile => Instruction::Ile(a),
        Opcodes::Ule => Instruction::Ule(a),
        Opcodes::Ult => Instruction::Ult(a),
        Opcodes::Iconv => Instruction::Iconv(a, c),
        Opcodes::Uconv => Instruction::Uconv(a, c),
    }
}

/// The instruction whose 16 bytes start at `at`.
pub open spec fn spec_read_instr(b: Seq<u8>, at: int) -> Result<Instruction, ReadError> {
    if at < 0 || at + 16 > b.len() {
        Err(ReadError::UnexpectedEnd)
    } else {
        match spec_opcode_of_byte(b[at + 3]) {
            None => Err(ReadError::BadOpcode(b[at + 3])),
            Some(op) => Ok(decode_instr(op, get_u32(b, at + 4), get_u32(b, at + 8), get_u64(b, at + 8) as i64)),
        }
    }
}

/// The `n` instructions from offset `off` on.
pub open spec fn spec_read_instrs(b: Seq<u8>, off: int, n: nat) -> Result<Seq<Instruction>, ReadError>
    decreases n,
{
    if n == 0 {
        Ok(Seq::empty())
    } else {
        match spec_read_instrs(b, off, (n - 1) as nat) {
            Err(e) => Err(e),
            Ok(s) => match spec_read_instr(b, off + 16 * (n - 1)) {
                Err(e) => Err(e),
                Ok(i) => Ok(s.push(i)),
            },
        }
    }
}

/// The string stored at `p` and the offset after it.
pub open spec fn spec_read_str(b: Seq<u8>, p: int) -> Result<(Seq<char>, int), ReadError> {
    if p < 0 || p + 4 > b.len() {
        Err(ReadError::UnexpectedEnd)
    } else {
        let n = get_u32(b, p) as int;
        if p + 4 + n > b.len() {
            Err(ReadError::UnexpectedEnd)
        } else if !valid_utf8(b.subrange(p + 4, p + 4 + n)) {
            Err(ReadError::BadString)
        } else {
            Ok((decode_utf8(b.subrange(p + 4, p + 4 + n)), p + 4 + n))
        }
    }
}

/// The external function stored at `p` and the offset after it.
pub open spec fn spec_read_ext(b: Seq<u8>, p: int) -> Result<(ExtV, int), ReadError> {
    match spec_read_str(b, p) {
        Err(e) => Err(e),
        Ok((name, p1)) => match spec_read_str(b, p1) {
            Err(e) => Err(e),
            Ok((sig, p2)) => {
                let parts = spec_split(sig);
                Ok((ExtV { name, ret: parts[0], args: parts.drop_first() }, p2))
            },
        },
    }
}

/// `n` external functions stored one after the other from `p`, and the offset after
/// them.
pub open spec fn spec_read_exts(b: Seq<u8>, p: int, n: nat) -> Result<(Seq<ExtV>, int), ReadError>
    decreases n,
{
    if n == 0 {
        Ok((Seq::empty(), p))
    } else {
        match spec_read_exts(b, p, (n - 1) as nat) {
            Err(e) => Err(e),
            Ok((fs, q)) => match spec_read_ext(b, q) {
                Err(e) => Err(e),
                Ok((f, q2)) => Ok((fs.push(f), q2)),
            },
        }
    }
}

/// The instructions of block `j` of the block table at `tab`.
pub open spec fn spec_read_block(b: Seq<u8>, tab: int, j: int) -> Result<Seq<Instruction>, ReadError> {
    let e = tab + 8 * j;
    if e < 0 || e + 8 > b.len() {
        Err(ReadError::UnexpectedEnd)
    } else {
        spec_read_instrs(b, get_u32(b, e + 4) as int, get_u32(b, e) as nat)
    }
}

/// The first `n` blocks of the block table at `tab`.
pub open spec fn spec_read_blocks(b: Seq<u8>, tab: int, n: nat) -> Result<Seq<Seq<Instruction>>, ReadError>
    decreases n,
{
    if n == 0 {
        Ok(Seq::empty())
    } else {
        match spec_read_blocks(b, tab, (n - 1) as nat) {
            Err(e) => Err(e),
            Ok(bs) => match spec_read_block(b, tab, n - 1) {
                Err(e) => Err(e),
                Ok(s) => Ok(bs.push(s)),
            },
        }
    }
}

/// What reading an object out of `b` gives, for a runtime of version `major.minor`:
/// the header must hold `"\0JOO"`, the same major version and a minor version no
/// greater; then the tables are read where the header says they are.
pub open spec fn spec_read(b: Seq<u8>, major: u64, minor: u64) -> Result<IrV, ReadError> {
    if b.len() < 4 {
        Err(ReadError::UnexpectedEnd)
    } else if b.subrange(0, 4) != magic() {
        Err(ReadError::BadHeader)
    } else if b.len() < 7 {
        Err(ReadError::UnexpectedEnd)
    } else if b[4] as u64 != major || b[5] as u64 > minor {
        Err(ReadError::UnsupportedVersion(b[4], b[5], b[6]))
    } else if b.len() < header_len() {
        Err(ReadError::UnexpectedEnd)
    } else {
        let nv = get_u32(b, 23) as int;
        let vo = get_u32(b, 27) as int;
        match spec_read_exts(b, get_u32(b, 11) as int, get_u32(b, 7) as nat) {
            Err(e) => Err(e),
            Ok((fs, _)) => match spec_read_blocks(b, get_u32(b, 19) as int, get_u32(b, 15) as nat) {
                Err(e) => Err(e),
                Ok(bs) => if vo + nv > b.len() {
                    Err(ReadError::UnexpectedEnd)
                } else {
                    Ok(IrV { ext_fn: fs, blocks: bs, local_vars: b.subrange(vo, vo + nv) })
                },
            },
        }
    }
}


// ---------------------------------------------------------------------------------
// Reading back what was written.
// ---------------------------------------------------------------------------------

/// The object's bytes fit the 4-byte offsets of the format.
pub open spec fn fits(o: IrV) -> bool {
    object_size(o) <= u32::MAX
}

/// No type name of the signature holds a slash.
pub open spec fn ext_splittable(f: ExtV) -> bool {
    &&& no_slash(f.ret)
    &&& forall|a: int| 0 <= a < f.args.len() ==> no_slash(#[trigger] f.args[a])
}

/// No type name in a signature holds a slash, so that signatures split back apart.
pub open spec fn sigs_splittable(o: IrV) -> bool {
    forall|k: int| 0 <= k < o.ext_fn.len() ==> ext_splittable(#[trigger] o.ext_fn[k])
}

proof fn lemma_instr_bytes_len(i: Instruction)
    ensures
        instr_bytes(i).len() == 16,
{
}

proof fn lemma_instrs_bytes_len(s: Seq<Instruction>)
    ensures
        instrs_bytes(s).len() == 16 * s.len(),
    decreases s.len(),
{
    if s.len() > 0 {
        lemma_instrs_bytes_len(s.drop_last());
        lemma_instr_bytes_len(s.last());
    }
}

proof fn lemma_read_instr(b: Seq<u8>, at: int, i: Instruction)
    requires
        0 <= at,
        at + 16 <= b.len(),
        b.subrange(at, at + 16) == instr_bytes(i),
    ensures
        spec_read_instr(b, at) == Ok::<Instruction, ReadError>(i),
{
    let h = instr_head(i);
    let u = u32_le(instr_op1(i));
    let t = instr_tail(i);
    lemma_sub_split(b, at, h + u, t);
    lemma_sub_split(b, at, h, u);
    assert(b[at + 3] == b.subrange(at, at + 4)[3]);
    lemma_opcode_byte_roundtrip(spec_opcode(i), 0);
    lemma_get_u32(b, at + 4, instr_op1(i));
    match i {
        Instruction::Iconst(_, imm) => {
            lemma_get_u64(b, at + 8, imm as u64);
            lemma_i64_u64(imm);
        },
        _ => {
            lemma_sub_split(b, at + 8, u32_le(instr_op2(i)), seq![0u8, 0u8, 0u8, 0u8]);
            lemma_get_u32(b, at + 8, instr_op2(i));
        },
    }
}

proof fn lemma_read_instrs(b: Seq<u8>, off: int, s: Seq<Instruction>)
    requires
        0 <= off,
        off + 16 * s.len() <= b.len(),
        b.subrange(off, off + 16 * s.len()) == instrs_bytes(s),
    ensures
        spec_read_instrs(b, off, s.len()) == Ok::<Seq<Instruction>, ReadError>(s),
    decreases s.len(),
{
    if s.len() > 0 {
        let s0 = s.drop_last();
        lemma_instrs_bytes_len(s0);
        lemma_instr_bytes_len(s.last());
        lemma_sub_split(b, off, instrs_bytes(s0), instr_bytes(s.last()));
        lemma_read_instrs(b, off, s0);
        lemma_read_instr(b, off + 16 * s0.len(), s.last());
        assert(s0.push(s.last()) == s);
    } else {
        assert(s == Seq::<Instruction>::empty());
    }
}

proof fn lemma_read_str(b: Seq<u8>, p: int, s: Seq<char>)
    requires
        0 <= p,
        encode_utf8(s).len() <= u32::MAX,
        p + str_entry(s).len() <= b.len(),
        b.subrange(p, p + str_entry(s).len()) == str_entry(s),
    ensures
        spec_read_str(b, p) == Ok::<(Seq<char>, int), ReadError>((s, p + str_entry(s).len())),
{
    broadcast use vstd::utf8::group_utf8_lib;
    let e = encode_utf8(s);
    lemma_sub_split(b, p, u32_le(e.len() as u32), e);
    lemma_get_u32(b, p, e.len() as u32);
}

proof fn lemma_read_ext(b: Seq<u8>, p: int, f: ExtV)
    requires
        0 <= p,
        p + ext_entry(f).len() <= b.len(),
        ext_entry(f).len() <= u32::MAX,
        b.subrange(p, p + ext_entry(f).len()) == ext_entry(f),
        no_slash(f.ret),
        forall|a: int| 0 <= a < f.args.len() ==> no_slash(#[trigger] f.args[a]),
    ensures
        spec_read_ext(b, p) == Ok::<(ExtV, int), ReadError>((f, p + ext_entry(f).len())),
{
    let sig = spec_sig_string(f.ret, f.args);
    lemma_sub_split(b, p, str_entry(f.name), str_entry(sig));
    lemma_read_str(b, p, f.name);
    lemma_read_str(b, p + str_entry(f.name).len(), sig);
    lemma_split_sig_string(f.ret, f.args);
    let parts = spec_split(sig);
    assert(parts[0] == f.ret);
    assert(parts.drop_first() == f.args);
}

proof fn lemma_read_exts(b: Seq<u8>, p: int, fs: Seq<ExtV>)
    requires
        0 <= p,
        p + ext_table(fs).len() <= b.len(),
        ext_table(fs).len() <= u32::MAX,
        b.subrange(p, p + ext_table(fs).len()) == ext_table(fs),
        forall|k: int| 0 <= k < fs.len() ==> ext_splittable(#[trigger] fs[k]),
    ensures
        spec_read_exts(b, p, fs.len()) == Ok::<(Seq<ExtV>, int), ReadError>((fs, p + ext_table(fs).len())),
    decreases fs.len(),
{
    if fs.len() > 0 {
        let f0 = fs.drop_last();
        let f = fs.last();
        lemma_sub_split(b, p, ext_table(f0), ext_entry(f));
        assert forall|k: int| 0 <= k < f0.len() implies ext_splittable(#[trigger] f0[k]) by {
            assert(f0[k] == fs[k]);
        }
        lemma_read_exts(b, p, f0);
        assert(f == fs[fs.len() - 1]);
        assert(ext_splittable(f));
        lemma_read_ext(b, p + ext_table(f0).len(), f);
        assert(f0.push(f) == fs);
    } else {
        assert(fs == Seq::<ExtV>::empty());
    }
}

proof fn lemma_block_table_len(bs: Seq<Seq<Instruction>>, base: nat)
    ensures
        block_table(bs, base).len() == 8 * bs.len(),
    decreases bs.len(),
{
    if bs.len() > 0 {
        lemma_block_table_len(bs.drop_last(), base);
    }
}

proof fn lemma_code_area_len(bs: Seq<Seq<Instruction>>)
    ensures
        code_area(bs).len() == 16 * total_instrs(bs),
    decreases bs.len(),
{
    if bs.len() > 0 {
        lemma_code_area_len(bs.drop_last());
        lemma_instrs_bytes_len(bs.last());
    }
}

proof fn lemma_read_blocks(b: Seq<u8>, tab: int, bs: Seq<Seq<Instruction>>, base: nat)
    requires
        0 <= tab,
        tab + 8 * bs.len() <= b.len(),
        base + 16 * total_instrs(bs) <= b.len(),
        base + 16 * total_instrs(bs) <= u32::MAX,
        b.subrange(tab, tab + 8 * bs.len()) == block_table(bs, base),
        b.subrange(base as int, (base + 16 * total_instrs(bs)) as int) == code_area(bs),
    ensures
        spec_read_blocks(b, tab, bs.len()) == Ok::<Seq<Seq<Instruction>>, ReadError>(bs),
    decreases bs.len(),
{
    if bs.len() > 0 {
        let b0 = bs.drop_last();
        let last = bs.last();
        let t0 = total_instrs(b0);
        lemma_block_table_len(b0, base);
        lemma_code_area_len(b0);
        lemma_instrs_bytes_len(last);
        let entry = u32_le(last.len() as u32) + u32_le((base + 16 * t0) as u32);
        assert(block_table(bs, base) == block_table(b0, base) + entry);
        lemma_sub_split(b, tab, block_table(b0, base), entry);
        lemma_sub_split(b, base as int, code_area(b0), instrs_bytes(last));
        lemma_read_blocks(b, tab, b0, base);
        let e = tab + 8 * b0.len();
        lemma_sub_split(b, e, u32_le(last.len() as u32), u32_le((base + 16 * t0) as u32));
        lemma_get_u32(b, e, last.len() as u32);
        lemma_get_u32(b, e + 4, (base + 16 * t0) as u32);
        lemma_read_instrs(b, (base + 16 * t0) as int, last);
        assert(b0.push(last) == bs);
    } else {
        assert(bs == Seq::<Seq<Instruction>>::empty());
    }
}

proof fn lemma_ext_table_len(fs: Seq<ExtV>)
    ensures
        ext_table(fs).len() >= 8 * fs.len(),
    decreases fs.len(),
{
    if fs.len() > 0 {
        lemma_ext_table_len(fs.drop_last());
    }
}

proof fn lemma_header_fields(b: Seq<u8>, o: IrV, major: u8, minor: u8, patch: u8)
    requires
        fits(o),
        b.len() >= 31,
        b.subrange(0, 31) == header(o, major, minor, patch),
    ensures
        b.subrange(0, 4) == magic(),
        b[4] == major,
        b[5] == minor,
        get_u32(b, 7) == o.ext_fn.len(),
        get_u32(b, 11) == 31,
        get_u32(b, 15) == o.blocks.len(),
        get_u32(b, 19) == blocks_offset(o),
        get_u32(b, 23) == o.local_vars.len(),
        get_u32(b, 27) == vars_offset(o),
{
    lemma_ext_table_len(o.ext_fn);
    let m = magic() + seq![major, minor, patch];
    let f1 = u32_le(o.ext_fn.len() as u32);
    let f2 = u32_le(header_len() as u32);
    let f3 = u32_le(o.blocks.len() as u32);
    let f4 = u32_le(blocks_offset(o) as u32);
    let f5 = u32_le(o.local_vars.len() as u32);
    let f6 = u32_le(vars_offset(o) as u32);
    lemma_sub_split(b, 0, m + f1 + f2 + f3 + f4 + f5, f6);
    lemma_sub_split(b, 0, m + f1 + f2 + f3 + f4, f5);
    lemma_sub_split(b, 0, m + f1 + f2 + f3, f4);
    lemma_sub_split(b, 0, m + f1 + f2, f3);
    lemma_sub_split(b, 0, m + f1, f2);
    lemma_sub_split(b, 0, m, f1);
    lemma_sub_split(b, 0, magic(), seq![major, minor, patch]);
    assert(b[4] == b.subrange(4, 7)[0]);
    assert(b[5] == b.subrange(4, 7)[1]);
    lemma_get_u32(b, 7, o.ext_fn.len() as u32);
    lemma_get_u32(b, 11, header_len() as u32);
    lemma_get_u32(b, 15, o.blocks.len() as u32);
    lemma_get_u32(b, 19, blocks_offset(o) as u32);
    lemma_get_u32(b, 23, o.local_vars.len() as u32);
    lemma_get_u32(b, 27, vars_offset(o) as u32);
}

/// Reading the bytes written for an object gives back the object, for the runtime
/// version it was written for, when the object fits the format's offsets and no type
/// name in its signatures holds a slash.
/// Where each part of an object's bytes stands.
proof fn lemma_write_layout(o: IrV, major: u8, minor: u8, patch: u8)
    ensures
        ({
            let b = spec_write(o, major, minor, patch);
            &&& b.len() == object_size(o)
            &&& b.subrange(0, 31) == header(o, major, minor, patch)
            &&& b.subrange(31, blocks_offset(o) as int) == ext_table(o.ext_fn)
            &&& b.subrange(blocks_offset(o) as int, vars_offset(o) as int) == block_table(o.blocks, code_offset(o))
            &&& b.subrange(vars_offset(o) as int, code_offset(o) as int) == o.local_vars
            &&& b.subrange(code_offset(o) as int, object_size(o) as int) == code_area(o.blocks)
        }),
{
    let h = header(o, major, minor, patch);
    let et = ext_table(o.ext_fn);
    let bt = block_table(o.blocks, code_offset(o));
    let v = o.local_vars;
    let c = code_area(o.blocks);
    let b = spec_write(o, major, minor, patch);
    lemma_block_table_len(o.blocks, code_offset(o));
    lemma_code_area_len(o.blocks);
    assert(h.len() == 31);
    assert(b.len() == object_size(o));
    assert(b.subrange(0, b.len() as int) == b);
    lemma_sub_split(b, 0, h + et + bt + v, c);
    lemma_sub_split(b, 0, h + et + bt, v);
    lemma_sub_split(b, 0, h + et, bt);
    lemma_sub_split(b, 0, h, et);
}

/// Reading the bytes written for an object gives back the object, for the runtime
/// version it was written for, when the object fits the format's offsets and no type
/// name in its signatures holds a slash.
#[verifier::spinoff_prover]
pub proof fn lemma_read_write(o: IrV, major: u8, minor: u8, patch: u8)
    requires
        fits(o),
        sigs_splittable(o),
    ensures
        spec_read(spec_write(o, major, minor, patch), major as u64, minor as u64) == Ok::<IrV, ReadError>(o),
{
    let b = spec_write(o, major, minor, patch);
    lemma_write_layout(o, major, minor, patch);
    lemma_block_table_len(o.blocks, code_offset(o));
    lemma_code_area_len(o.blocks);
    lemma_header_fields(b, o, major, minor, patch);
    lemma_read_exts(b, 31, o.ext_fn);
    lemma_read_blocks(b, blocks_offset(o) as int, o.blocks, code_offset(o));
    let fs_r = spec_read_exts(b, 31, o.ext_fn.len());
    assert(fs_r == Ok::<(Seq<ExtV>, int), ReadError>((o.ext_fn, blocks_offset(o) as int)));
    let bs_r = spec_read_blocks(b, blocks_offset(o) as int, o.blocks.len());
    assert(bs_r == Ok::<Seq<Seq<Instruction>>, ReadError>(o.blocks));
    assert(b.subrange(vars_offset(o) as int, (vars_offset(o) + o.local_vars.len()) as int) == o.local_vars);
}

/// The padding of an instruction is ignored: two byte strings that differ only in the
/// first three bytes of the instruction at `at` read the same instruction there.
pub proof fn lemma_padding_ignored(b: Seq<u8>, b2: Seq<u8>, at: int)
    requires
        b2.len() == b.len(),
        forall|k: int| 0 <= k < b.len() && !(at <= k < at + 3) ==> b2[k] == b[k],
    ensures
        spec_read_instr(b2, at) == spec_read_instr(b, at),
{
    if 0 <= at && at + 16 <= b.len() {
        assert(b2[at + 3] == b[at + 3]);
        assert(get_u32(b2, at + 4) == get_u32(b, at + 4)) by {
            assert(b2[at + 4] == b[at + 4]);
            assert(b2[at + 5] == b[at + 5]);
            assert(b2[at + 6] == b[at + 6]);
            assert(b2[at + 7] == b[at + 7]);
        }
        assert(get_u64(b2, at + 8) == get_u64(b, at + 8)) by {
            assert(b2[at + 8] == b[at + 8]);
            assert(b2[at + 9] == b[at + 9]);
            assert(b2[at + 10] == b[at + 10]);
            assert(b2[at + 11] == b[at + 11]);
            assert(b2[at + 12] == b[at + 12]);
            assert(b2[at + 13] == b[at + 13]);
            assert(b2[at + 14] == b[at + 14]);
            assert(b2[at + 15] == b[at + 15]);
        }
    }
}

// ---------------------------------------------------------------------------------
// The writer.
// ---------------------------------------------------------------------------------

pub(crate) fn push_u32(v: &mut Vec<u8>, x: u32)
    ensures
        final(v)@ == old(v)@ + u32_le(x),
{
    v.push((x & 0xff) as u8);
    v.push(((x >> 8u32) & 0xff) as u8);
    v.push(((x >> 16u32) & 0xff) as u8);
    v.push(((x >> 24u32) & 0xff) as u8);
    assert(v@ =~= old(v)@ + u32_le(x));
}

pub(crate) fn push_u64(v: &mut Vec<u8>, x: u64)
    ensures
        final(v)@ == old(v)@ + u64_le(x),
{
    v.push((x & 0xff) as u8);
    v.push(((x >> 8u64) & 0xff) as u8);
    v.push(((x >> 16u64) & 0xff) as u8);
    v.push(((x >> 24u64) & 0xff) as u8);
    v.push(((x >> 32u64) & 0xff) as u8);
    v.push(((x >> 40u64) & 0xff) as u8);
    v.push(((x >> 48u64) & 0xff) as u8);
    v.push(((x >> 56u64) & 0xff) as u8);
    assert(v@ =~= old(v)@ + u64_le(x));
}

/// Appends the bytes of `src`.
fn push_bytes(v: &mut Vec<u8>, src: &[u8])
    ensures
        final(v)@ == old(v)@ + src@,
{
    let mut i: usize = 0;
    while i < src.len()
        invariant
            0 <= i <= src.len(),
            v@ == old(v)@ + src@.subrange(0, i as int),
        decreases src.len() - i,
    {
        v.push(src[i]);
        assert(src@.subrange(0, i + 1) == src@.subrange(0, i as int).push(src@[i as int]));
        i += 1;
    }
    assert(src@.subrange(0, src@.len() as int) == src@);
}

fn op1_of(i: Instruction) -> (r: u32)
    ensures
        r == instr_op1(i),
{
    match i {
        Instruction::Nop() => 0,
        Instruction::Varref() => 0,
        Instruction::Pop(a) => a,
        Instruction::Dup(a) => a,
        Instruction::Swap(a) => a,
        Instruction::Br(a) => a,
        Instruction::Briz(a, _) => a,
        Instruction::Call(a) => a,
        Instruction::Iconst(a, _) => a,
        Instruction::Iload(a) => a,
        Instruction::Istore(a) => a,
        Instruction::Iret(a) => a,
        Instruction::Inot(a) => a,
        Instruction::Ior(a) => a,
        Instruction::Iand(a) => a,
        Instruction::Ixor(a) => a,
        Instruction::Ilshr(a) => a,
        Instruction::Iashr(a) => a,
        Instruction::Ishl(a) => a,
        Instruction::Ineg(a) => a,
        Instruction::Iadd(a) => a,
        Instruction::Isub(a) => a,
        Instruction::Imul(a) => a,
        Instruction::Idiv(a) => a,
        Instruction::Udiv(a) => a,
        Instruction::Irem(a) => a,
        Instruction::Urem(a) => a,
        Instruction::Ieq(a) => a,
        Instruction::Ine(a) => a,
        Instruction::Ige(a) => a,
        Instruction::Igt(a) => a,
        Instruction::Uge(a) => a,
        Instruction::Ugt(a) => a,
        Instruction::Ilt(a) => a,
        Instruction::Ile(a) => a,
        Instruction::Ule(a) => a,
        Instruction::Ult(a) => a,
        Instruction::Iconv(a, _) => a,
        Instruction::Uconv(a, _) => a,
    }
}

fn op2_of(i: Instruction) -> (r: u32)
    ensures
        r == instr_op2(i),
{
    match i {
        Instruction::Briz(_, b) => b,
        Instruction::Iconv(_, b) => b,
        Instruction::Uconv(_, b) => b,
        _ => 0,
    }
}

/// Appends the 16 bytes of `i`.
fn push_instr(v: &mut Vec<u8>, i: Instruction)
    ensures
        final(v)@ == old(v)@ + instr_bytes(i),
{
    v.push(0);
    v.push(0);
    v.push(0);
    v.push(i.opcode().to_u8());
    assert(v@ == old(v)@ + instr_head(i));
    push_u32(v, op1_of(i));
    match i {
        Instruction::Iconst(_, imm) => {
            push_u64(v, imm as u64);
        },
        _ => {
            push_u32(v, op2_of(i));
            v.push(0);
            v.push(0);
            v.push(0);
            v.push(0);
        },
    }
    assert(v@ =~= old(v)@ + instr_bytes(i));
}

/// Appends a string as its byte length and its UTF-8 bytes.
fn push_str_entry(v: &mut Vec<u8>, s: &str)
    ensures
        final(v)@ == old(v)@ + str_entry(s@),
{
    let bytes = s.as_bytes();
    push_u32(v, bytes.len() as u32);
    push_bytes(v, bytes);
    assert(v@ =~= old(v)@ + str_entry(s@));
}

proof fn lemma_total_instrs_mono(bs: Seq<Seq<Instruction>>, k: int)
    requires
        0 <= k <= bs.len(),
    ensures
        total_instrs(bs.take(k)) <= total_instrs(bs),
    decreases bs.len() - k,
{
    if k < bs.len() {
        lemma_total_instrs_mono(bs, k + 1);
        assert(bs.take(k + 1).drop_last() == bs.take(k));
    } else {
        assert(bs.take(k) == bs);
    }
}

/// The bytes of `ir`, for a runtime of version `major.minor.patch`; `None` when they
/// would not fit the format's 4-byte offsets.
pub fn write_object(ir: &IrObject, major: u8, minor: u8, patch: u8) -> (r: Option<Vec<u8>>)
    ensures
        match r {
            Some(b) => fits(ir@) && b@ == spec_write(ir@, major, minor, patch),
            None => !fits(ir@),
        },
{
    let ghost o = ir@;
    // the external functions
    let mut et: Vec<u8> = Vec::new();
    let mut k: usize = 0;
    while k < ir.ext_fn.len()
        invariant
            0 <= k <= ir.ext_fn.len(),
            o == ir@,
            et@ == ext_table(o.ext_fn.take(k as int)),
        decreases ir.ext_fn.len() - k,
    {
        let f = &ir.ext_fn[k];
        push_str_entry(&mut et, f.name.as_str());
        let sig = f.sig.to_string();
        push_str_entry(&mut et, sig.as_str());
        proof {
            assert(o.ext_fn.take(k + 1).drop_last() == o.ext_fn.take(k as int));
            assert(o.ext_fn.take(k + 1).last() == ext_view(*f));
        }
        k += 1;
    }
    proof {
        assert(o.ext_fn.take(ir.ext_fn.len() as int) == o.ext_fn);
    }
    // the sizes
    let nb = ir.blocks.len();
    let nv = ir.local_vars.len();
    if et.len() > 0xffff_ffff || nb > 0xffff_ffff || nv > 0xffff_ffff {
        return None;
    }
    let mut total: u64 = 0;
    let mut j: usize = 0;
    while j < nb
        invariant
            0 <= j <= nb,
            nb == ir.blocks.len(),
            o == ir@,
            total == total_instrs(o.blocks.take(j as int)),
            total <= 0xffff_ffff,
        decreases nb - j,
    {
        let n = ir.blocks[j].to_vec().len();
        proof {
            assert(o.blocks.take(j + 1).drop_last() == o.blocks.take(j as int));
            assert(o.blocks.take(j + 1).last() == o.blocks[j as int]);
        }
        if n as u64 > 0xffff_ffff - total {
            proof {
                lemma_total_instrs_mono(o.blocks, j + 1);
            }
            return None;
        }
        total = total + n as u64;
        j += 1;
    }
    proof {
        assert(o.blocks.take(nb as int) == o.blocks);
    }
    let size: u64 = 31 + et.len() as u64 + 8 * nb as u64 + nv as u64 + 16 * total;
    if size > 0xffff_ffff {
        return None;
    }
    let blocks_off: u32 = (31 + et.len()) as u32;
    let vars_off: u32 = (31 + et.len() + 8 * nb) as u32;
    let code_off: u32 = (31 + et.len() + 8 * nb + nv) as u32;
    // the header
    let mut b: Vec<u8> = Vec::new();
    b.push(0);
    b.push(0x4A);
    b.push(0x4F);
    b.push(0x4F);
    b.push(major);
    b.push(minor);
    b.push(patch);
    push_u32(&mut b, ir.ext_fn.len() as u32);
    push_u32(&mut b, 31);
    push_u32(&mut b, nb as u32);
    push_u32(&mut b, blocks_off);
    push_u32(&mut b, nv as u32);
    push_u32(&mut b, vars_off);
    proof {
        assert(b@ =~= header(o, major, minor, patch));
    }
    push_bytes(&mut b, et.as_slice());
    // the block table
    let mut before: u64 = 0;
    let mut j: usize = 0;
    while j < nb
        invariant
            0 <= j <= nb,
            nb == ir.blocks.len(),
            o == ir@,
            before == total_instrs(o.blocks.take(j as int)),
            total == total_instrs(o.blocks),
            code_off == code_offset(o),
            code_offset(o) + 16 * total <= 0xffff_ffff,
            b@ == header(o, major, minor, patch) + ext_table(o.ext_fn) + block_table(o.blocks.take(j as int), code_offset(o)),
        decreases nb - j,
    {
        proof {
            lemma_total_instrs_mono(o.blocks, j + 1);
            assert(o.blocks.take(j + 1).drop_last() == o.blocks.take(j as int));
            assert(o.blocks.take(j + 1).last() == o.blocks[j as int]);
        }
        let n = ir.blocks[j].to_vec().len();
        push_u32(&mut b, n as u32);
        push_u32(&mut b, (code_off as u64 + 16 * before) as u32);
        before = before + n as u64;
        j += 1;
    }
    proof {
        assert(o.blocks.take(nb as int) == o.blocks);
    }
    // the local variable slots
    push_bytes(&mut b, ir.local_vars.as_slice());
    // the instructions
    let mut j: usize = 0;
    while j < nb
        invariant
            0 <= j <= nb,
            nb == ir.blocks.len(),
            o == ir@,
            b@ == header(o, major, minor, patch) + ext_table(o.ext_fn) + block_table(o.blocks, code_offset(o))
                + o.local_vars + code_area(o.blocks.take(j as int)),
        decreases nb - j,
    {
        let ins = ir.blocks[j].to_vec();
        let ghost start = b@;
        let mut q: usize = 0;
        while q < ins.len()
            invariant
                0 <= q <= ins.len(),
                b@ == start + instrs_bytes(ins@.take(q as int)),
            decreases ins.len() - q,
        {
            push_instr(&mut b, ins[q]);
            proof {
                assert(ins@.take(q + 1).drop_last() == ins@.take(q as int));
                assert(ins@.take(q + 1).last() == ins@[q as int]);
            }
            q += 1;
        }
        proof {
            assert(ins@.take(ins.len() as int) == ins@);
            assert(o.blocks.take(j + 1).drop_last() == o.blocks.take(j as int));
            assert(o.blocks.take(j + 1).last() == o.blocks[j as int]);
        }
        j += 1;
    }
    proof {
        assert(o.blocks.take(nb as int) == o.blocks);
    }
    Some(b)
}


// ---------------------------------------------------------------------------------
// The reader.
// ---------------------------------------------------------------------------------

/// Calls `String::from_utf8`, which its documentation says succeeds exactly when the
/// bytes are valid UTF-8, with the string they encode.
#[verifier::external_body]
fn string_from_utf8(v: Vec<u8>) -> (r: Option<String>)
    ensures
        match r {
            Some(s) => valid_utf8(v@) && s@ == decode_utf8(v@),
            None => !valid_utf8(v@),
        },
{
    String::from_utf8(v).ok()
}

fn read_u32(b: &Vec<u8>, at: usize) -> (r: u32)
    requires
        at + 4 <= b.len(),
    ensures
        r == get_u32(b@, at as int),
{
    (b[at] as u32) | ((b[at + 1] as u32) << 8u32) | ((b[at + 2] as u32) << 16u32) | ((b[at + 3] as u32) << 24u32)
}

fn read_u64(b: &Vec<u8>, at: usize) -> (r: u64)
    requires
        at + 8 <= b.len(),
    ensures
        r == get_u64(b@, at as int),
{
    (b[at] as u64) | ((b[at + 1] as u64) << 8u64) | ((b[at + 2] as u64) << 16u64) | ((b[at + 3] as u64) << 24u64)
        | ((b[at + 4] as u64) << 32u64) | ((b[at + 5] as u64) << 40u64) | ((b[at + 6] as u64) << 48u64)
        | ((b[at + 7] as u64) << 56u64)
}

fn decode_op(op: Opcodes, a: u32, c: u32, imm: i64) -> (r: Instruction)
    ensures
        r == decode_instr(op, a, c, imm),
{
    match op {
        Opcodes::Nop => Instruction::Nop(),
        Opcodes::Pop => Instruction::Pop(a),
        Opcodes::Dup => Instruction::Dup(a),
        Opcodes::Swap => Instruction::Swap(a),
        Opcodes::Br => Instruction::Br(a),
        Opcodes::Briz => Instruction::Briz(a, c),
        Opcodes::Call => Instruction::Call(a),
        Opcodes::Varref => Instruction::Varref(),
        Opcodes::Iconst => Instruction::Iconst(a, imm),
        Opcodes::Iload => Instruction::Iload(a),
        Opcodes::Istore => Instruction::Istore(a),
        Opcodes::Iret => Instruction::Iret(a),
        Opcodes::Inot => Instruction::Inot(a),
        Opcodes::Ior => Instruction::Ior(a),
        Opcodes::Iand => Instruction::Iand(a),
        Opcodes::Ixor => Instruction::Ixor(a),
        Opcodes::Ilshr => Instruction::Ilshr(a),
        Opcodes::Iashr => Instruction::Iashr(a),
        Opcodes::Ishl => Instruction::Ishl(a),
        Opcodes::Ineg => Instruction::Ineg(a),
        Opcodes::Iadd => Instruction::Iadd(a),
        Opcodes::Isub => Instruction::Isub(a),
        Opcodes::Imul => Instruction::Imul(a),
        Opcodes::Idiv => Instruction::Idiv(a),
        Opcodes::Udiv => Instruction::Udiv(a),
        Opcodes::Irem => Instruction::Irem(a),
        Opcodes::Urem => Instruction::Urem(a),
        Opcodes::Ieq => Instruction::Ieq(a),
        Opcodes::Ine => Instruction::Ine(a),
        Opcodes::Ige => Instruction::Ige(a),
        Opcodes::Igt => Instruction::Igt(a),
        Opcodes::Uge => Instruction::Uge(a),
        Opcodes::Ugt => Instruction::Ugt(a),
        Opcodes::Ilt => Instruction::Ilt(a),
        Opcodes::Ile => Instruction::Ile(a),
        Opcodes::Ule => Instruction::Ule(a),
        Opcodes::Ult => Instruction::Ult(a),
        Opcodes::Iconv => Instruction::Iconv(a, c),
        Opcodes::Uconv => Instruction::Uconv(a, c),
    }
}

fn read_instr(b: &Vec<u8>, at: u64) -> (r: Result<Instruction, ReadError>)
    ensures
        r == spec_read_instr(b@, at as int),
{
    let len = b.len() as u64;
    if at > len || len - at < 16 {
        return Err(ReadError::UnexpectedEnd);
    }
    let at = at as usize;
    match Opcodes::from_u8(b[at + 3]) {
        None => Err(ReadError::BadOpcode(b[at + 3])),
        Some(op) => Ok(decode_op(op, read_u32(b, at + 4), read_u32(b, at + 8), read_u64(b, at + 8) as i64)),
    }
}

proof fn lemma_read_instrs_err(b: Seq<u8>, off: int, k: nat, m: nat)
    requires
        k <= m,
        spec_read_instrs(b, off, k) is Err,
    ensures
        spec_read_instrs(b, off, m) == spec_read_instrs(b, off, k),
    decreases m - k,
{
    if k < m {
        lemma_read_instrs_err(b, off, k, (m - 1) as nat);
    }
}

/// The `n` instructions from offset `off` on.
fn read_instrs(b: &Vec<u8>, off: u32, n: u32) -> (r: Result<Vec<Instruction>, ReadError>)
    ensures
        match spec_read_instrs(b@, off as int, n as nat) {
            Ok(s) => r matches Ok(v) && v@ == s,
            Err(e) => r == Err::<Vec<Instruction>, ReadError>(e),
        },
{
    let mut v: Vec<Instruction> = Vec::new();
    let mut j: u32 = 0;
    while j < n
        invariant
            0 <= j <= n,
            spec_read_instrs(b@, off as int, j as nat) == Ok::<Seq<Instruction>, ReadError>(v@),
        decreases n - j,
    {
        let at: u64 = off as u64 + 16 * (j as u64);
        match read_instr(b, at) {
            Err(e) => {
                proof {
                    lemma_read_instrs_err(b@, off as int, (j + 1) as nat, n as nat);
                }
                return Err(e);
            },
            Ok(i) => {
                v.push(i);
            },
        }
        j += 1;
    }
    Ok(v)
}

/// The string stored at `p`, and the offset after it.
fn read_str(b: &Vec<u8>, p: u64) -> (r: Result<(String, u64), ReadError>)
    ensures
        match spec_read_str(b@, p as int) {
            Ok((s, q)) => r matches Ok(x) && x.0@ == s && x.1 == q,
            Err(e) => r matches Err(x) && x == e,
        },
{
    let len = b.len() as u64;
    if p > len || len - p < 4 {
        return Err(ReadError::UnexpectedEnd);
    }
    let n = read_u32(b, p as usize) as u64;
    if len - p - 4 < n {
        return Err(ReadError::UnexpectedEnd);
    }
    let start = (p + 4) as usize;
    let end = (p + 4 + n) as usize;
    let mut bytes: Vec<u8> = Vec::new();
    let mut i = start;
    while i < end
        invariant
            start <= i <= end,
            end <= b.len(),
            bytes@ == b@.subrange(start as int, i as int),
        decreases end - i,
    {
        bytes.push(b[i]);
        assert(b@.subrange(start as int, i + 1) == b@.subrange(start as int, i as int).push(b@[i as int]));
        i += 1;
    }
    match string_from_utf8(bytes) {
        None => Err(ReadError::BadString),
        Some(s) => Ok((s, p + 4 + n)),
    }
}

/// The pieces of `s` between its slashes.
fn split_sig(s: &str) -> (r: Vec<String>)
    ensures
        strings_view(r@) == spec_split(s@),
{
    let cs = crate::text::str_to_chars(s);
    let mut pieces: Vec<String> = Vec::new();
    let mut cur = String::new();
    let mut i: usize = 0;
    proof {
        assert(cs@.take(0) == Seq::<char>::empty());
        assert(strings_view(pieces@).push(cur@) == seq![Seq::<char>::empty()]);
    }
    while i < cs.len()
        invariant
            0 <= i <= cs.len(),
            cs@ == s@,
            strings_view(pieces@).push(cur@) == spec_split(cs@.take(i as int)),
        decreases cs.len() - i,
    {
        let c = cs[i];
        let ghost before = cs@.take(i as int);
        let ghost pv = strings_view(pieces@);
        let ghost cv = cur@;
        proof {
            assert(cs@.take(i + 1).drop_last() == before);
            assert(cs@.take(i + 1).last() == c);
            lemma_split_len(before);
        }
        if c == '/' {
            let done = cur;
            let ghost old_pieces = pieces@;
            pieces.push(done);
            cur = String::new();
            proof {
                assert(strings_view(pieces@) =~= pv.push(cv));
                assert(spec_split(cs@.take(i + 1)) == spec_split(before).push(Seq::<char>::empty()));
            }
        } else {
            crate::text::push_char(&mut cur, c);
            proof {
                assert(spec_split(cs@.take(i + 1)) == spec_split(before).update(spec_split(before).len() - 1, spec_split(before).last().push(c)));
                assert(strings_view(pieces@).push(cur@) =~= pv.push(cv).update(pv.len() as int, cv.push(c)));
            }
        }
        i += 1;
    }
    proof {
        assert(cs@.take(cs.len() as int) == cs@);
    }
    let ghost pv = strings_view(pieces@);
    let last = cur;
    pieces.push(last);
    proof {
        assert(strings_view(pieces@) =~= pv.push(last@));
    }
    pieces
}


/// The external function stored at `p`, and the offset after it.
fn read_ext(b: &Vec<u8>, p: u64) -> (r: Result<(IrExternalFn, u64), ReadError>)
    ensures
        match spec_read_ext(b@, p as int) {
            Ok((f, q)) => r matches Ok(x) && ext_view(x.0) == f && x.1 == q,
            Err(e) => r matches Err(x) && x == e,
        },
{
    let (name, p1) = match read_str(b, p) {
        Err(e) => {
            return Err(e);
        },
        Ok(x) => x,
    };
    let (sig, p2) = match read_str(b, p1) {
        Err(e) => {
            return Err(e);
        },
        Ok(x) => x,
    };
    let mut parts = split_sig(sig.as_str());
    let ghost pv = strings_view(parts@);
    proof {
        lemma_split_len(sig@);
    }
    let ret = parts.remove(0);
    proof {
        assert(strings_view(parts@) =~= pv.drop_first());
    }
    let f = IrExternalFn::new(name, Signature::new(ret, parts));
    Ok((f, p2))
}

proof fn lemma_read_exts_err(b: Seq<u8>, p: int, k: nat, m: nat)
    requires
        k <= m,
        spec_read_exts(b, p, k) is Err,
    ensures
        spec_read_exts(b, p, m) == spec_read_exts(b, p, k),
    decreases m - k,
{
    if k < m {
        lemma_read_exts_err(b, p, k, (m - 1) as nat);
    }
}

proof fn lemma_read_str_pos(b: Seq<u8>, p: int)
    ensures
        spec_read_str(b, p) matches Ok((_, q)) ==> p < q <= b.len(),
{
}

/// `n` external functions stored one after the other from `p`.
fn read_exts(b: &Vec<u8>, p: u32, n: u32) -> (r: Result<Vec<IrExternalFn>, ReadError>)
    ensures
        match spec_read_exts(b@, p as int, n as nat) {
            Ok((fs, _)) => r matches Ok(v) && v@.map_values(|f: IrExternalFn| ext_view(f)) == fs,
            Err(e) => r matches Err(x) && x == e,
        },
{
    let mut v: Vec<IrExternalFn> = Vec::new();
    let mut q: u64 = p as u64;
    let mut j: u32 = 0;
    proof {
        assert(v@.map_values(|f: IrExternalFn| ext_view(f)) =~= Seq::<ExtV>::empty());
    }
    while j < n
        invariant
            0 <= j <= n,
            spec_read_exts(b@, p as int, j as nat) == Ok::<(Seq<ExtV>, int), ReadError>((v@.map_values(|f: IrExternalFn| ext_view(f)), q as int)),
            j > 0 ==> q <= b.len(),
            j == 0 ==> q == p,
        decreases n - j,
    {
        let ghost fs = v@.map_values(|f: IrExternalFn| ext_view(f));
        proof {
            lemma_read_str_pos(b@, q as int);
        }
        match read_ext(b, q) {
            Err(e) => {
                proof {
                    lemma_read_exts_err(b@, p as int, (j + 1) as nat, n as nat);
                }
                return Err(e);
            },
            Ok((f, q2)) => {
                proof {
                    lemma_read_str_pos(b@, q as int);
                    if let Ok((_, q1)) = spec_read_str(b@, q as int) {
                        lemma_read_str_pos(b@, q1);
                    }
                }
                v.push(f);
                proof {
                    assert(v@.map_values(|f: IrExternalFn| ext_view(f)) =~= fs.push(ext_view(f)));
                }
                q = q2;
            },
        }
        j += 1;
    }
    Ok(v)
}

proof fn lemma_read_blocks_err(b: Seq<u8>, tab: int, k: nat, m: nat)
    requires
        k <= m,
        spec_read_blocks(b, tab, k) is Err,
    ensures
        spec_read_blocks(b, tab, m) == spec_read_blocks(b, tab, k),
    decreases m - k,
{
    if k < m {
        lemma_read_blocks_err(b, tab, k, (m - 1) as nat);
    }
}

/// The `n` blocks of the block table at `tab`.
fn read_blocks(b: &Vec<u8>, tab: u32, n: u32) -> (r: Result<Vec<Block>, ReadError>)
    ensures
        match spec_read_blocks(b@, tab as int, n as nat) {
            Ok(bs) => r matches Ok(v) && v@.map_values(|x: Block| x@) == bs,
            Err(e) => r matches Err(x) && x == e,
        },
{
    let mut v: Vec<Block> = Vec::new();
    let mut j: u32 = 0;
    let len = b.len() as u64;
    proof {
        assert(v@.map_values(|x: Block| x@) =~= Seq::<Seq<Instruction>>::empty());
    }
    while j < n
        invariant
            0 <= j <= n,
            len == b.len(),
            spec_read_blocks(b@, tab as int, j as nat) == Ok::<Seq<Seq<Instruction>>, ReadError>(v@.map_values(|x: Block| x@)),
        decreases n - j,
    {
        let ghost bs = v@.map_values(|x: Block| x@);
        let e: u64 = tab as u64 + 8 * (j as u64);
        if e > len || len - e < 8 {
            proof {
                lemma_read_blocks_err(b@, tab as int, (j + 1) as nat, n as nat);
            }
            return Err(ReadError::UnexpectedEnd);
        }
        let count = read_u32(b, e as usize);
        let off = read_u32(b, (e + 4) as usize);
        match read_instrs(b, off, count) {
            Err(err) => {
                proof {
                    lemma_read_blocks_err(b@, tab as int, (j + 1) as nat, n as nat);
                }
                return Err(err);
            },
            Ok(ins) => {
                let blk = Block::from_vec(&ins);
                v.push(blk);
                proof {
                    assert(v@.map_values(|x: Block| x@) =~= bs.push(ins@));
                }
            },
        }
        j += 1;
    }
    Ok(v)
}

/// Reads an object out of `b`, for a runtime of version `major.minor`.
pub fn read_object(b: &Vec<u8>, major: u64, minor: u64) -> (r: Result<IrObject, ReadError>)
    ensures
        match spec_read(b@, major, minor) {
            Ok(v) => r matches Ok(o) && o@ == v,
            Err(e) => r matches Err(x) && x == e,
        },
{
    if b.len() < 4 {
        return Err(ReadError::UnexpectedEnd);
    }
    if !(b[0] == 0 && b[1] == 0x4A && b[2] == 0x4F && b[3] == 0x4F) {
        proof {
            if b@.subrange(0, 4) == magic() {
                assert(b@[0] == b@.subrange(0, 4)[0]);
                assert(b@[1] == b@.subrange(0, 4)[1]);
                assert(b@[2] == b@.subrange(0, 4)[2]);
                assert(b@[3] == b@.subrange(0, 4)[3]);
            }
        }
        return Err(ReadError::BadHeader);
    }
    proof {
        assert(b@.subrange(0, 4) =~= magic());
    }
    if b.len() < 7 {
        return Err(ReadError::UnexpectedEnd);
    }
    if b[4] as u64 != major || b[5] as u64 > minor {
        return Err(ReadError::UnsupportedVersion(b[4], b[5], b[6]));
    }
    if b.len() < 31 {
        return Err(ReadError::UnexpectedEnd);
    }
    let ne = read_u32(b, 7);
    let eo = read_u32(b, 11);
    let nb = read_u32(b, 15);
    let bo = read_u32(b, 19);
    let nv = read_u32(b, 23);
    let vo = read_u32(b, 27);
    let ext_fn = match read_exts(b, eo, ne) {
        Err(e) => {
            return Err(e);
        },
        Ok(v) => v,
    };
    let blocks = match read_blocks(b, bo, nb) {
        Err(e) => {
            return Err(e);
        },
        Ok(v) => v,
    };
    if vo as u64 + nv as u64 > b.len() as u64 {
        return Err(ReadError::UnexpectedEnd);
    }
    let mut local_vars: Vec<u8> = Vec::new();
    let start = vo as usize;
    let end = (vo as u64 + nv as u64) as usize;
    let mut i = start;
    while i < end
        invariant
            start <= i <= end,
            end <= b.len(),
            local_vars@ == b@.subrange(start as int, i as int),
        decreases end - i,
    {
        local_vars.push(b[i]);
        assert(b@.subrange(start as int, i + 1) == b@.subrange(start as int, i as int).push(b@[i as int]));
        i += 1;
    }
    Ok(IrObject { ext_fn, blocks, local_vars })
}


/// The version of the runtime this library goes with.
pub const VERSION_STR: &'static str = "0.1.0";

/// The major, minor and patch numbers of a SemVer version string, when it is one.
pub uninterp spec fn semver_triple(s: Seq<char>) -> Option<(u64, u64, u64)>;

/// Calls `semver::Version::parse` and keeps the major, minor and patch numbers of the
/// version, or `None` where the string is no SemVer version. Which strings parse, and
/// to what, is named by `semver_triple` and not spelled out.
#[verifier::external_body]
fn parse_version(s: &str) -> (r: Option<(u64, u64, u64)>)
    ensures
        r == semver_triple(s@),
{
    match semver::Version::parse(s) {
        Ok(v) => Some((v.major, v.minor, v.patch)),
        Err(_) => None,
    }
}

/// The runtime's version: major, minor and patch.
pub fn runtime_version() -> (r: Option<(u64, u64, u64)>)
    ensures
        r == semver_triple(VERSION_STR@),
{
    parse_version(VERSION_STR)
}

/// The bytes of `ir` for this runtime's version (each number kept to its low byte).
pub fn write(ir: &IrObject) -> (r: Result<Vec<u8>, WriteError>)
    ensures
        match semver_triple(VERSION_STR@) {
            None => r == Err::<Vec<u8>, WriteError>(WriteError::UnknownRuntimeVersion),
            Some((ma, mi, pa)) => match r {
                Ok(b) => fits(ir@) && b@ == spec_write(ir@, ma as u8, mi as u8, pa as u8),
                Err(e) => e == WriteError::TooLarge && !fits(ir@),
            },
        },
{
    match runtime_version() {
        None => Err(WriteError::UnknownRuntimeVersion),
        Some((ma, mi, pa)) => match write_object(ir, ma as u8, mi as u8, pa as u8) {
            Some(b) => Ok(b),
            None => Err(WriteError::TooLarge),
        },
    }
}

/// Reads an object written for this runtime's version.
pub fn read(b: &Vec<u8>) -> (r: Result<IrObject, ReadError>)
    ensures
        match semver_triple(VERSION_STR@) {
            None => r matches Err(e) && e == ReadError::UnknownRuntimeVersion,
            Some((ma, mi, _)) => match spec_read(b@, ma, mi) {
                Ok(v) => r matches Ok(o) && o@ == v,
                Err(e) => r matches Err(x) && x == e,
            },
        },
{
    match runtime_version() {
        None => Err(ReadError::UnknownRuntimeVersion),
        Some((ma, mi, _)) => read_object(b, ma, mi),
    }
}


/// `read` gives back the object whose bytes `write` made, with this runtime's version,
/// where the object fits the format's offsets, no type name in its signatures holds a
/// slash, and the version's major and minor numbers fit the header's bytes.
pub proof fn lemma_write_then_read(o: IrV)
    requires
        fits(o),
        sigs_splittable(o),
    ensures
        match semver_triple(VERSION_STR@) {
            Some((ma, mi, pa)) => ma <= 255 && mi <= 255 ==>
                spec_read(spec_write(o, ma as u8, mi as u8, pa as u8), ma, mi) == Ok::<IrV, ReadError>(o),
            None => true,
        },
{
    match semver_triple(VERSION_STR@) {
        Some((ma, mi, pa)) => {
            lemma_read_write(o, ma as u8, mi as u8, pa as u8);
        },
        None => {},
    }
}

} // verus!
