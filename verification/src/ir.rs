//! The intermediate representation: instructions, blocks of instructions, external
//! function signatures, and the object that gathers them.

use vstd::prelude::*;
use index_list::IndexList;
use crate::text::push_str;

verus! {

/// A block's identifier: its index in the object, from zero.
pub type BlkId = u32;
/// An external function's identifier: its index in the object, from zero.
pub type FnId = u32;
/// A size in bytes; 0 stands for the size of a reference.
pub type Size = u32;
/// An immediate value.
pub type Imm = i64;

/// The opcodes of the bytecode, each with its byte.
#[derive(Clone, Copy, Debug, PartialEq, Eq, Structural)]
pub enum Opcodes {
    Nop,
    Pop,
    Dup,
    Swap,
    Br,
    Briz,
    Call,
    Varref,
    Iconst,
    Iload,
    Istore,
    Iret,
    Inot,
    Ior,
    Iand,
    Ixor,
    Ilshr,
    Iashr,
    Ishl,
    Ineg,
    Iadd,
    Isub,
    Imul,
    Idiv,
    Udiv,
    Irem,
    Urem,
    Ieq,
    Ine,
    Ige,
    Igt,
    Uge,
    Ugt,
    Ilt,
    Ile,
    Ule,
    Ult,
    Iconv,
    Uconv,
}

/// The byte of each opcode: `0x00` to `0x26` in the order of declaration.
pub open spec fn spec_opcode_byte(o: Opcodes) -> u8 {
    match o {
        Opcodes::Nop => 0x00,
        Opcodes::Pop => 0x01,
        Opcodes::Dup => 0x02,
        Opcodes::Swap => 0x03,
        Opcodes::Br => 0x04,
        Opcodes::Briz => 0x05,
        Opcodes::Call => 0x06,
        Opcodes::Varref => 0x07,
        Opcodes::Iconst => 0x08,
        Opcodes::Iload => 0x09,
        Opcodes::Istore => 0x0A,
        Opcodes::Iret => 0x0B,
        Opcodes::Inot => 0x0C,
        Opcodes::Ior => 0x0D,
        Opcodes::Iand => 0x0E,
        Opcodes::Ixor => 0x0F,
        Opcodes::Ilshr => 0x10,
        Opcodes::Iashr => 0x11,
        Opcodes::Ishl => 0x12,
        Opcodes::Ineg => 0x13,
        Opcodes::Iadd => 0x14,
        Opcodes::Isub => 0x15,
        Opcodes::Imul => 0x16,
        Opcodes::Idiv => 0x17,
        Opcodes::Udiv => 0x18,
        Opcodes::Irem => 0x19,
        Opcodes::Urem => 0x1A,
        Opcodes::Ieq => 0x1B,
        Opcodes::Ine => 0x1C,
        Opcodes::Ige => 0x1D,
        Opcodes::Igt => 0x1E,
        Opcodes::Uge => 0x1F,
        Opcodes::Ugt => 0x20,
        Opcodes::Ilt => 0x21,
        Opcodes::Ile => 0x22,
        Opcodes::Ule => 0x23,
        Opcodes::Ult => 0x24,
        Opcodes::Iconv => 0x25,
        Opcodes::Uconv => 0x26,
    }
}

/// The opcode of a byte, if it has one.
pub open spec fn spec_opcode_of_byte(b: u8) -> Option<Opcodes> {
    if b == 0x00 { Some(Opcodes::Nop) }
    else if b == 0x01 { Some(Opcodes::Pop) }
    else if b == 0x02 { Some(Opcodes::Dup) }
    else if b == 0x03 { Some(Opcodes::Swap) }
    else if b == 0x04 { Some(Opcodes::Br) }
    else if b == 0x05 { Some(Opcodes::Briz) }
    else if b == 0x06 { Some(Opcodes::Call) }
    else if b == 0x07 { Some(Opcodes::Varref) }
    else if b == 0x08 { Some(Opcodes::Iconst) }
    else if b == 0x09 { Some(Opcodes::Iload) }
    else if b == 0x0A { Some(Opcodes::Istore) }
    else if b == 0x0B { Some(Opcodes::Iret) }
    else if b == 0x0C { Some(Opcodes::Inot) }
    else if b == 0x0D { Some(Opcodes::Ior) }
    else if b == 0x0E { Some(Opcodes::Iand) }
    else if b == 0x0F { Some(Opcodes::Ixor) }
    else if b == 0x10 { Some(Opcodes::Ilshr) }
    else if b == 0x11 { Some(Opcodes::Iashr) }
    else if b == 0x12 { Some(Opcodes::Ishl) }
    else if b == 0x13 { Some(Opcodes::Ineg) }
    else if b == 0x14 { Some(Opcodes::Iadd) }
    else if b == 0x15 { Some(Opcodes::Isub) }
    else if b == 0x16 { Some(Opcodes::Imul) }
    else if b == 0x17 { Some(Opcodes::Idiv) }
    else if b == 0x18 { Some(Opcodes::Udiv) }
    else if b == 0x19 { Some(Opcodes::Irem) }
    else if b == 0x1A { Some(Opcodes::Urem) }
    else if b == 0x1B { Some(Opcodes::Ieq) }
    else if b == 0x1C { Some(Opcodes::Ine) }
    else if b == 0x1D { Some(Opcodes::Ige) }
    else if b == 0x1E { Some(Opcodes::Igt) }
    else if b == 0x1F { Some(Opcodes::Uge) }
    else if b == 0x20 { Some(Opcodes::Ugt) }
    else if b == 0x21 { Some(Opcodes::Ilt) }
    else if b == 0x22 { Some(Opcodes::Ile) }
    else if b == 0x23 { Some(Opcodes::Ule) }
    else if b == 0x24 { Some(Opcodes::Ult) }
    else if b == 0x25 { Some(Opcodes::Iconv) }
    else if b == 0x26 { Some(Opcodes::Uconv) }
    else { None }
}

impl Opcodes {
    /// The byte of the opcode.
    pub fn to_u8(self) -> (r: u8)
        ensures
            r == spec_opcode_byte(self),
    {
        match self {
            Opcodes::Nop => 0x00,
            Opcodes::Pop => 0x01,
            Opcodes::Dup => 0x02,
            Opcodes::Swap => 0x03,
            Opcodes::Br => 0x04,
            Opcodes::Briz => 0x05,
            Opcodes::Call => 0x06,
            Opcodes::Varref => 0x07,
            Opcodes::Iconst => 0x08,
            Opcodes::Iload => 0x09,
            Opcodes::Istore => 0x0A,
            Opcodes::Iret => 0x0B,
            Opcodes::Inot => 0x0C,
            Opcodes::Ior => 0x0D,
            Opcodes::Iand => 0x0E,
            Opcodes::Ixor => 0x0F,
            Opcodes::Ilshr => 0x10,
            Opcodes::Iashr => 0x11,
            Opcodes::Ishl => 0x12,
            Opcodes::Ineg => 0x13,
            Opcodes::Iadd => 0x14,
            Opcodes::Isub => 0x15,
            Opcodes::Imul => 0x16,
            Opcodes::Idiv => 0x17,
            Opcodes::Udiv => 0x18,
            Opcodes::Irem => 0x19,
            Opcodes::Urem => 0x1A,
            Opcodes::Ieq => 0x1B,
            Opcodes::Ine => 0x1C,
            Opcodes::Ige => 0x1D,
            Opcodes::Igt => 0x1E,
            Opcodes::Uge => 0x1F,
            Opcodes::Ugt => 0x20,
            Opcodes::Ilt => 0x21,
            Opcodes::Ile => 0x22,
            Opcodes::Ule => 0x23,
            Opcodes::Ult => 0x24,
            Opcodes::Iconv => 0x25,
            Opcodes::Uconv => 0x26,
        }
    }

    /// The opcode of a byte; `None` for a byte that is no opcode.
    pub fn from_u8(b: u8) -> (r: Option<Opcodes>)
        ensures
            r == spec_opcode_of_byte(b),
    {
        if b == 0x00 { Some(Opcodes::Nop) }
        else if b == 0x01 { Some(Opcodes::Pop) }
        else if b == 0x02 { Some(Opcodes::Dup) }
        else if b == 0x03 { Some(Opcodes::Swap) }
        else if b == 0x04 { Some(Opcodes::Br) }
        else if b == 0x05 { Some(Opcodes::Briz) }
        else if b == 0x06 { Some(Opcodes::Call) }
        else if b == 0x07 { Some(Opcodes::Varref) }
        else if b == 0x08 { Some(Opcodes::Iconst) }
        else if b == 0x09 { Some(Opcodes::Iload) }
        else if b == 0x0A { Some(Opcodes::Istore) }
        else if b == 0x0B { Some(Opcodes::Iret) }
        else if b == 0x0C { Some(Opcodes::Inot) }
        else if b == 0x0D { Some(Opcodes::Ior) }
        else if b == 0x0E { Some(Opcodes::Iand) }
        else if b == 0x0F { Some(Opcodes::Ixor) }
        else if b == 0x10 { Some(Opcodes::Ilshr) }
        else if b == 0x11 { Some(Opcodes::Iashr) }
        else if b == 0x12 { Some(Opcodes::Ishl) }
        else if b == 0x13 { Some(Opcodes::Ineg) }
        else if b == 0x14 { Some(Opcodes::Iadd) }
        else if b == 0x15 { Some(Opcodes::Isub) }
        else if b == 0x16 { Some(Opcodes::Imul) }
        else if b == 0x17 { Some(Opcodes::Idiv) }
        else if b == 0x18 { Some(Opcodes::Udiv) }
        else if b == 0x19 { Some(Opcodes::Irem) }
        else if b == 0x1A { Some(Opcodes::Urem) }
        else if b == 0x1B { Some(Opcodes::Ieq) }
        else if b == 0x1C { Some(Opcodes::Ine) }
        else if b == 0x1D { Some(Opcodes::Ige) }
        else if b == 0x1E { Some(Opcodes::Igt) }
        else if b == 0x1F { Some(Opcodes::Uge) }
        else if b == 0x20 { Some(Opcodes::Ugt) }
        else if b == 0x21 { Some(Opcodes::Ilt) }
        else if b == 0x22 { Some(Opcodes::Ile) }
        else if b == 0x23 { Some(Opcodes::Ule) }
        else if b == 0x24 { Some(Opcodes::Ult) }
        else if b == 0x25 { Some(Opcodes::Iconv) }
        else if b == 0x26 { Some(Opcodes::Uconv) }
        else { None }
    }
}

/// The rows of the object format's instruction table, in order: each opcode with its
/// name.
pub open spec fn instruction_table() -> Seq<(Opcodes, Seq<char>)> {
    seq![
        (Opcodes::Nop, "nop"@),
        (Opcodes::Pop, "pop"@),
        (Opcodes::Dup, "dup"@),
        (Opcodes::Swap, "swap"@),
        (Opcodes::Br, "br"@),
        (Opcodes::Briz, "briz"@),
        (Opcodes::Call, "call"@),
        (Opcodes::Varref, "varref"@),
        (Opcodes::Iconst, "iconst"@),
        (Opcodes::Iload, "iload"@),
        (Opcodes::Istore, "istore"@),
        (Opcodes::Iret, "iret"@),
        (Opcodes::Inot, "inot"@),
        (Opcodes::Ior, "ior"@),
        (Opcodes::Iand, "iand"@),
        (Opcodes::Ixor, "ixor"@),
        (Opcodes::Ilshr, "ilshr"@),
        (Opcodes::Iashr, "iashr"@),
        (Opcodes::Ishl, "ishl"@),
        (Opcodes::Ineg, "ineg"@),
        (Opcodes::Iadd, "iadd"@),
        (Opcodes::Isub, "isub"@),
        (Opcodes::Imul, "imul"@),
        (Opcodes::Idiv, "idiv"@),
        (Opcodes::Udiv, "udiv"@),
        (Opcodes::Irem, "irem"@),
        (Opcodes::Urem, "urem"@),
        (Opcodes::Ieq, "ieq"@),
        (Opcodes::Ine, "ine"@),
        (Opcodes::Ige, "ige"@),
        (Opcodes::Igt, "igt"@),
        (Opcodes::Uge, "uge"@),
        (Opcodes::Ugt, "ugt"@),
        (Opcodes::Ilt, "ilt"@),
        (Opcodes::Ile, "ile"@),
        (Opcodes::Ule, "ule"@),
        (Opcodes::Ult, "ult"@),
        (Opcodes::Iconv, "iconv"@),
        (Opcodes::Uconv, "uconv"@),
    ]
}

/// The byte of each opcode is the number of its row in the instruction table, and
/// every row's number is the byte of its opcode.
pub proof fn lemma_opcode_rows(o: Opcodes, k: int)
    ensures
        instruction_table().len() == 39,
        instruction_table()[spec_opcode_byte(o) as int].0 == o,
        0 <= k < 39 ==> spec_opcode_byte(instruction_table()[k].0) == k,
        0 <= k < 39 ==> spec_opcode_of_byte(k as u8) == Some(instruction_table()[k].0),
{
    lemma_opcode_byte_roundtrip(o, k as u8);
    let t = instruction_table();
    assert(t[0].0 == Opcodes::Nop);
    assert(t[1].0 == Opcodes::Pop);
    assert(t[2].0 == Opcodes::Dup);
    assert(t[3].0 == Opcodes::Swap);
    assert(t[4].0 == Opcodes::Br);
    assert(t[5].0 == Opcodes::Briz);
    assert(t[6].0 == Opcodes::Call);
    assert(t[7].0 == Opcodes::Varref);
    assert(t[8].0 == Opcodes::Iconst);
    assert(t[9].0 == Opcodes::Iload);
    assert(t[10].0 == Opcodes::Istore);
    assert(t[11].0 == Opcodes::Iret);
    assert(t[12].0 == Opcodes::Inot);
    assert(t[13].0 == Opcodes::Ior);
    assert(t[14].0 == Opcodes::Iand);
    assert(t[15].0 == Opcodes::Ixor);
    assert(t[16].0 == Opcodes::Ilshr);
    assert(t[17].0 == Opcodes::Iashr);
    assert(t[18].0 == Opcodes::Ishl);
    assert(t[19].0 == Opcodes::Ineg);
    assert(t[20].0 == Opcodes::Iadd);
    assert(t[21].0 == Opcodes::Isub);
    assert(t[22].0 == Opcodes::Imul);
    assert(t[23].0 == Opcodes::Idiv);
    assert(t[24].0 == Opcodes::Udiv);
    assert(t[25].0 == Opcodes::Irem);
    assert(t[26].0 == Opcodes::Urem);
    assert(t[27].0 == Opcodes::Ieq);
    assert(t[28].0 == Opcodes::Ine);
    assert(t[29].0 == Opcodes::Ige);
    assert(t[30].0 == Opcodes::Igt);
    assert(t[31].0 == Opcodes::Uge);
    assert(t[32].0 == Opcodes::Ugt);
    assert(t[33].0 == Opcodes::Ilt);
    assert(t[34].0 == Opcodes::Ile);
    assert(t[35].0 == Opcodes::Ule);
    assert(t[36].0 == Opcodes::Ult);
    assert(t[37].0 == Opcodes::Iconv);
    assert(t[38].0 == Opcodes::Uconv);
}

/// Reading back the byte of an opcode gives the opcode; a byte that has an opcode is
/// that opcode's byte.
pub proof fn lemma_opcode_byte_roundtrip(o: Opcodes, b: u8)
    ensures
        spec_opcode_of_byte(spec_opcode_byte(o)) == Some(o),
        spec_opcode_of_byte(b) matches Some(p) ==> spec_opcode_byte(p) == b,
{
}

/// An instruction of the intermediate representation, with its operands.
#[derive(Clone, Copy, Debug, PartialEq, Eq, Structural)]
pub enum Instruction {
    Nop(),
    Pop(Size),
    Dup(Size),
    Swap(Size),
    Br(BlkId),
    Briz(BlkId, BlkId),
    Call(FnId),
    Varref(),
    Iconst(Size, Imm),
    Iload(Size),
    Istore(Size),
    Iret(Size),
    Inot(Size),
    Ior(Size),
    Iand(Size),
    Ixor(Size),
    Ilshr(Size),
    Iashr(Size),
    Ishl(Size),
    Ineg(Size),
    Iadd(Size),
    Isub(Size),
    Imul(Size),
    Idiv(Size),
    Udiv(Size),
    Irem(Size),
    Urem(Size),
    Ieq(Size),
    Ine(Size),
    Ige(Size),
    Igt(Size),
    Uge(Size),
    Ugt(Size),
    Ilt(Size),
    Ile(Size),
    Ule(Size),
    Ult(Size),
    Iconv(Size, Size),
    Uconv(Size, Size),
}

/// The opcode of an instruction: the variant of the same name.
pub open spec fn spec_opcode(i: Instruction) -> Opcodes {
    match i {
        Instruction::Nop() => Opcodes::Nop,
        Instruction::Pop(..) => Opcodes::Pop,
        Instruction::Dup(..) => Opcodes::Dup,
        Instruction::Swap(..) => Opcodes::Swap,
        Instruction::Br(..) => Opcodes::Br,
        Instruction::Briz(..) => Opcodes::Briz,
        Instruction::Call(..) => Opcodes::Call,
        Instruction::Varref() => Opcodes::Varref,
        Instruction::Iconst(..) => Opcodes::Iconst,
        Instruction::Iload(..) => Opcodes::Iload,
        Instruction::Istore(..) => Opcodes::Istore,
        Instruction::Iret(..) => Opcodes::Iret,
        Instruction::Inot(..) => Opcodes::Inot,
        Instruction::Ior(..) => Opcodes::Ior,
        Instruction::Iand(..) => Opcodes::Iand,
        Instruction::Ixor(..) => Opcodes::Ixor,
        Instruction::Ilshr(..) => Opcodes::Ilshr,
        Instruction::Iashr(..) => Opcodes::Iashr,
        Instruction::Ishl(..) => Opcodes::Ishl,
        Instruction::Ineg(..) => Opcodes::Ineg,
        Instruction::Iadd(..) => Opcodes::Iadd,
        Instruction::Isub(..) => Opcodes::Isub,
        Instruction::Imul(..) => Opcodes::Imul,
        Instruction::Idiv(..) => Opcodes::Idiv,
        Instruction::Udiv(..) => Opcodes::Udiv,
        Instruction::Irem(..) => Opcodes::Irem,
        Instruction::Urem(..) => Opcodes::Urem,
        Instruction::Ieq(..) => Opcodes::Ieq,
        Instruction::Ine(..) => Opcodes::Ine,
        Instruction::Ige(..) => Opcodes::Ige,
        Instruction::Igt(..) => Opcodes::Igt,
        Instruction::Uge(..) => Opcodes::Uge,
        Instruction::Ugt(..) => Opcodes::Ugt,
        Instruction::Ilt(..) => Opcodes::Ilt,
        Instruction::Ile(..) => Opcodes::Ile,
        Instruction::Ule(..) => Opcodes::Ule,
        Instruction::Ult(..) => Opcodes::Ult,
        Instruction::Iconv(..) => Opcodes::Iconv,
        Instruction::Uconv(..) => Opcodes::Uconv,
    }
}

impl Instruction {
    /// The opcode of the instruction.
    pub fn opcode(&self) -> (r: Opcodes)
        ensures
            r == spec_opcode(*self),
    {
        match self {
            Self::Nop(..) => Opcodes::Nop,
            Self::Pop(..) => Opcodes::Pop,
            Self::Dup(..) => Opcodes::Dup,
            Self::Swap(..) => Opcodes::Swap,
            Self::Br(..) => Opcodes::Br,
            Self::Briz(..) => Opcodes::Briz,
            Self::Call(..) => Opcodes::Call,
            Self::Varref(..) => Opcodes::Varref,
            Self::Iconst(..) => Opcodes::Iconst,
            Self::Iload(..) => Opcodes::Iload,
            Self::Istore(..) => Opcodes::Istore,
            Self::Iret(..) => Opcodes::Iret,
            Self::Inot(..) => Opcodes::Inot,
            Self::Ior(..) => Opcodes::Ior,
            Self::Iand(..) => Opcodes::Iand,
            Self::Ixor(..) => Opcodes::Ixor,
            Self::Ilshr(..) => Opcodes::Ilshr,
            Self::Iashr(..) => Opcodes::Iashr,
            Self::Ishl(..) => Opcodes::Ishl,
            Self::Ineg(..) => Opcodes::Ineg,
            Self::Iadd(..) => Opcodes::Iadd,
            Self::Isub(..) => Opcodes::Isub,
            Self::Imul(..) => Opcodes::Imul,
            Self::Idiv(..) => Opcodes::Idiv,
            Self::Udiv(..) => Opcodes::Udiv,
            Self::Irem(..) => Opcodes::Irem,
            Self::Urem(..) => Opcodes::Urem,
            Self::Ieq(..) => Opcodes::Ieq,
            Self::Ine(..) => Opcodes::Ine,
            Self::Ige(..) => Opcodes::Ige,
            Self::Igt(..) => Opcodes::Igt,
            Self::Uge(..) => Opcodes::Uge,
            Self::Ugt(..) => Opcodes::Ugt,
            Self::Ilt(..) => Opcodes::Ilt,
            Self::Ile(..) => Opcodes::Ile,
            Self::Ule(..) => Opcodes::Ule,
            Self::Ult(..) => Opcodes::Ult,
            Self::Iconv(..) => Opcodes::Iconv,
            Self::Uconv(..) => Opcodes::Uconv,
        }
    }
}

/// The signature of a function as one string: the return type, then each argument
/// type, separated by slashes.
pub open spec fn spec_sig_string(ret: Seq<char>, args: Seq<Seq<char>>) -> Seq<char>
    decreases args.len(),
{
    if args.len() == 0 {
        ret
    } else {
        spec_sig_string(ret, args.drop_last()) + "/"@ + args.last()
    }
}

/// The types of a function: what it returns and what it takes.
pub struct Signature {
    pub ret: String,
    pub args: Vec<String>,
}

pub open spec fn strings_view(v: Seq<String>) -> Seq<Seq<char>> {
    v.map_values(|s: String| s@)
}

impl View for Signature {
    type V = (Seq<char>, Seq<Seq<char>>);

    open spec fn view(&self) -> (Seq<char>, Seq<Seq<char>>) {
        (self.ret@, strings_view(self.args@))
    }
}

impl Signature {
    pub fn new(ret: String, args: Vec<String>) -> (r: Self)
        ensures
            r.ret@ == ret@,
            r.args@ == args@,
    {
        Signature { ret, args }
    }

    /// The signature written as `ret/arg1/arg2...`.
    pub fn to_string(&self) -> (r: String)
        ensures
            r@ == spec_sig_string(self@.0, self@.1),
    {
        let mut s = self.ret.clone();
        let mut i: usize = 0;
        while i < self.args.len()
            invariant
                0 <= i <= self.args.len(),
                s@ == spec_sig_string(self.ret@, strings_view(self.args@.take(i as int))),
            decreases self.args.len() - i,
        {
            proof {
                assert(strings_view(self.args@.take(i + 1)).drop_last() == strings_view(self.args@.take(i as int)));
                assert(strings_view(self.args@.take(i + 1)).last() == self.args@[i as int]@);
            }
            push_str(&mut s, "/");
            push_str(&mut s, self.args[i].as_str());
            i += 1;
        }
        proof {
            assert(self.args@.take(self.args.len() as int) == self.args@);
        }
        s
    }
}

/// An external function the program calls: its name and signature.
pub struct IrExternalFn {
    pub name: String,
    pub sig: Signature,
}

impl IrExternalFn {
    pub fn new(name: String, sig: Signature) -> (r: Self)
        ensures
            r.name@ == name@,
            r.sig@ == sig@,
    {
        IrExternalFn { name, sig }
    }
}

/// The instructions held by a list of instructions, first to last.
pub uninterp spec fn instr_list_items(l: IndexList<Instruction>) -> Seq<Instruction>;

#[verifier::external_type_specification]
#[verifier::external_body]
#[verifier::reject_recursive_types(T)]
pub struct ExIndexList<T>(IndexList<T>);

/// Calls `IndexList::new`, which builds a list with no element.
#[verifier::external_body]
fn instr_list_new() -> (r: IndexList<Instruction>)
    ensures
        instr_list_items(r) == Seq::<Instruction>::empty(),
{
    IndexList::new()
}

/// Calls `IndexList::insert_last`, which links the new element after the last one.
#[verifier::external_body]
fn instr_list_insert_last(l: &mut IndexList<Instruction>, i: Instruction)
    ensures
        instr_list_items(*final(l)) == instr_list_items(*old(l)).push(i),
{
    l.insert_last(i);
}

/// Walks the list with `IndexList::iter`, which visits the elements from the first
/// to the last, and copies each.
#[verifier::external_body]
fn instr_list_to_vec(l: &IndexList<Instruction>) -> (r: Vec<Instruction>)
    ensures
        r@ == instr_list_items(*l),
{
    l.iter().copied().collect()
}

/// A block: a list of instructions.
pub struct Block {
    pub instructions: IndexList<Instruction>,
}

impl View for Block {
    type V = Seq<Instruction>;

    open spec fn view(&self) -> Seq<Instruction> {
        instr_list_items(self.instructions)
    }
}

impl Block {
    /// A block with no instruction.
    pub fn new() -> (r: Self)
        ensures
            r@ == Seq::<Instruction>::empty(),
    {
        Block { instructions: instr_list_new() }
    }

    /// Adds `i` after the last instruction.
    pub fn push(&mut self, i: Instruction)
        ensures
            final(self)@ == old(self)@.push(i),
    {
        instr_list_insert_last(&mut self.instructions, i);
    }

    /// A block holding `v`, in order.
    pub fn from_vec(v: &Vec<Instruction>) -> (r: Self)
        ensures
            r@ == v@,
    {
        let mut b = Block::new();
        let mut i: usize = 0;
        while i < v.len()
            invariant
                0 <= i <= v.len(),
                b@ == v@.take(i as int),
            decreases v.len() - i,
        {
            b.push(v[i]);
            assert(v@.take(i + 1) == v@.take(i as int).push(v@[i as int]));
            i += 1;
        }
        assert(v@.take(v.len() as int) == v@);
        b
    }

    /// The instructions, first to last.
    pub fn to_vec(&self) -> (r: Vec<Instruction>)
        ensures
            r@ == self@,
    {
        instr_list_to_vec(&self.instructions)
    }
}

/// What an external function is, as specifications see it: its name and signature.
pub struct ExtV {
    pub name: Seq<char>,
    pub ret: Seq<char>,
    pub args: Seq<Seq<char>>,
}

pub open spec fn ext_view(f: IrExternalFn) -> ExtV {
    ExtV { name: f.name@, ret: f.sig.ret@, args: strings_view(f.sig.args@) }
}

/// What an object is: its external functions, its blocks and its local variable slots.
pub struct IrV {
    pub ext_fn: Seq<ExtV>,
    pub blocks: Seq<Seq<Instruction>>,
    pub local_vars: Seq<u8>,
}

/// A compiled program: external functions, blocks and local variable slots (the size
/// of each).
pub struct IrObject {
    pub ext_fn: Vec<IrExternalFn>,
    pub blocks: Vec<Block>,
    pub local_vars: Vec<u8>,
}

impl View for IrObject {
    type V = IrV;

    open spec fn view(&self) -> IrV {
        IrV {
            ext_fn: self.ext_fn@.map_values(|f: IrExternalFn| ext_view(f)),
            blocks: self.blocks@.map_values(|b: Block| b@),
            local_vars: self.local_vars@,
        }
    }
}

impl IrObject {
    /// An object with nothing in it.
    pub fn new() -> (r: Self)
        ensures
            r@.ext_fn.len() == 0,
            r@.blocks.len() == 0,
            r@.local_vars.len() == 0,
    {
        IrObject { ext_fn: Vec::new(), blocks: Vec::new(), local_vars: Vec::new() }
    }

    /// Adds an empty block and returns its identifier.
    pub fn append_block(&mut self) -> (r: BlkId)
        requires
            old(self).blocks.len() < u32::MAX,
        ensures
            final(self)@.blocks == old(self)@.blocks.push(Seq::<Instruction>::empty()),
            final(self)@.ext_fn == old(self)@.ext_fn,
            final(self)@.local_vars == old(self)@.local_vars,
            r == old(self).blocks.len(),
    {
        let b = Block::new();
        self.blocks.push(b);
        proof {
            assert(self@.blocks == old(self)@.blocks.push(Seq::<Instruction>::empty()));
        }
        (self.blocks.len() - 1) as BlkId
    }

    /// The block `id`.
    pub fn get_block(&self, id: BlkId) -> (r: &Block)
        requires
            id < self.blocks.len(),
        ensures
            r@ == self@.blocks[id as int],
    {
        &self.blocks[id as usize]
    }

    /// Declares an external function and returns its identifier.
    pub fn decl_extern(&mut self, name: String, sig: Signature) -> (r: FnId)
        requires
            old(self).ext_fn.len() < u32::MAX,
        ensures
            final(self)@.ext_fn == old(self)@.ext_fn.push(ExtV { name: name@, ret: sig.ret@, args: strings_view(sig.args@) }),
            final(self)@.blocks == old(self)@.blocks,
            final(self)@.local_vars == old(self)@.local_vars,
            r == old(self).ext_fn.len(),
    {
        let f = IrExternalFn::new(name, sig);
        self.ext_fn.push(f);
        proof {
            assert(self@.ext_fn == old(self)@.ext_fn.push(ext_view(f)));
        }
        (self.ext_fn.len() - 1) as FnId
    }

    /// Adds a local variable slot of `size` bytes and returns its index.
    pub fn add_var(&mut self, size: u8) -> (r: u32)
        requires
            old(self).local_vars.len() <= u32::MAX,
        ensures
            final(self)@.local_vars == old(self)@.local_vars.push(size),
            final(self)@.ext_fn == old(self)@.ext_fn,
            final(self)@.blocks == old(self)@.blocks,
            r == old(self).local_vars.len(),
    {
        let tmp = self.local_vars.len();
        self.local_vars.push(size);
        tmp as u32
    }
}

/// A loaded program as the runtime holds it: the external functions (name, argument
/// count, whether it returns), the variables and the instructions of each block.
pub struct Object {
    pub extfn: Vec<(String, u8, bool)>,
    pub vars: Vec<i64>,
    pub blocks: Vec<Vec<Instruction>>,
}

} // verus!
