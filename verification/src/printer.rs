//! The text form of the intermediate representation, for reading it.

use vstd::prelude::*;
use crate::ir::{Instruction, Opcodes, IrObject, IrV, ExtV, spec_opcode, ext_view, strings_view, instruction_table, spec_opcode_byte};
use crate::numbers::{spec_dec, spec_idec, u64_to_dec, i64_to_dec};
use crate::text::push_str;

verus! {

/// The mnemonic of an opcode: its name in lower case.
pub open spec fn spec_mnemonic(o: Opcodes) -> Seq<char> {
    match o {
        Opcodes::Nop => "nop"@,
        Opcodes::Pop => "pop"@,
        Opcodes::Dup => "dup"@,
        Opcodes::Swap => "swap"@,
        Opcodes::Br => "br"@,
        Opcodes::Briz => "briz"@,
        Opcodes::Call => "call"@,
        Opcodes::Varref => "varref"@,
        Opcodes::Iconst => "iconst"@,
        Opcodes::Iload => "iload"@,
        Opcodes::Istore => "istore"@,
        Opcodes::Iret => "iret"@,
        Opcodes::Inot => "inot"@,
        Opcodes::Ior => "ior"@,
        Opcodes::Iand => "iand"@,
        Opcodes::Ixor => "ixor"@,
        Opcodes::Ilshr => "ilshr"@,
        Opcodes::Iashr => "iashr"@,
        Opcodes::Ishl => "ishl"@,
        Opcodes::Ineg => "ineg"@,
        Opcodes::Iadd => "iadd"@,
        Opcodes::Isub => "isub"@,
        Opcodes::Imul => "imul"@,
        Opcodes::Idiv => "idiv"@,
        Opcodes::Udiv => "udiv"@,
        Opcodes::Irem => "irem"@,
        Opcodes::Urem => "urem"@,
        Opcodes::Ieq => "ieq"@,
        Opcodes::Ine => "ine"@,
        Opcodes::Ige => "ige"@,
        Opcodes::Igt => "igt"@,
        Opcodes::Uge => "uge"@,
        Opcodes::Ugt => "ugt"@,
        Opcodes::Ilt => "ilt"@,
        Opcodes::Ile => "ile"@,
        Opcodes::Ule => "ule"@,
        Opcodes::Ult => "ult"@,
        Opcodes::Iconv => "iconv"@,
        Opcodes::Uconv => "uconv"@,
    }
}

/// Each opcode is printed by its name in the instruction table: the name on the row of
/// its number.
pub proof fn lemma_mnemonic_is_table_name(o: Opcodes)
    ensures
        spec_mnemonic(o) == instruction_table()[spec_opcode_byte(o) as int].1,
{
    let t = instruction_table();
    match o {
        Opcodes::Nop => assert(t[0].1 == "nop"@),
        Opcodes::Pop => assert(t[1].1 == "pop"@),
        Opcodes::Dup => assert(t[2].1 == "dup"@),
        Opcodes::Swap => assert(t[3].1 == "swap"@),
        Opcodes::Br => assert(t[4].1 == "br"@),
        Opcodes::Briz => assert(t[5].1 == "briz"@),
        Opcodes::Call => assert(t[6].1 == "call"@),
        Opcodes::Varref => assert(t[7].1 == "varref"@),
        Opcodes::Iconst => assert(t[8].1 == "iconst"@),
        Opcodes::Iload => assert(t[9].1 == "iload"@),
        Opcodes::Istore => assert(t[10].1 == "istore"@),
        Opcodes::Iret => assert(t[11].1 == "iret"@),
        Opcodes::Inot => assert(t[12].1 == "inot"@),
        Opcodes::Ior => assert(t[13].1 == "ior"@),
        Opcodes::Iand => assert(t[14].1 == "iand"@),
        Opcodes::Ixor => assert(t[15].1 == "ixor"@),
        Opcodes::Ilshr => assert(t[16].1 == "ilshr"@),
        Opcodes::Iashr => assert(t[17].1 == "iashr"@),
        Opcodes::Ishl => assert(t[18].1 == "ishl"@),
        Opcodes::Ineg => assert(t[19].1 == "ineg"@),
        Opcodes::Iadd => assert(t[20].1 == "iadd"@),
        Opcodes::Isub => assert(t[21].1 == "isub"@),
        Opcodes::Imul => assert(t[22].1 == "imul"@),
        Opcodes::Idiv => assert(t[23].1 == "idiv"@),
        Opcodes::Udiv => assert(t[24].1 == "udiv"@),
        Opcodes::Irem => assert(t[25].1 == "irem"@),
        Opcodes::Urem => assert(t[26].1 == "urem"@),
        Opcodes::Ieq => assert(t[27].1 == "ieq"@),
        Opcodes::Ine => assert(t[28].1 == "ine"@),
        Opcodes::Ige => assert(t[29].1 == "ige"@),
        Opcodes::Igt => assert(t[30].1 == "igt"@),
        Opcodes::Uge => assert(t[31].1 == "uge"@),
        Opcodes::Ugt => assert(t[32].1 == "ugt"@),
        Opcodes::Ilt => assert(t[33].1 == "ilt"@),
        Opcodes::Ile => assert(t[34].1 == "ile"@),
        Opcodes::Ule => assert(t[35].1 == "ule"@),
        Opcodes::Ult => assert(t[36].1 == "ult"@),
        Opcodes::Iconv => assert(t[37].1 == "iconv"@),
        Opcodes::Uconv => assert(t[38].1 == "uconv"@),
    }
}

/// The mnemonic of an opcode.
pub fn mnemonic(o: Opcodes) -> (r: &'static str)
    ensures
        r@ == spec_mnemonic(o),
{
    match o {
        Opcodes::Nop => "nop",
        Opcodes::Pop => "pop",
        Opcodes::Dup => "dup",
        Opcodes::Swap => "swap",
        Opcodes::Br => "br",
        Opcodes::Briz => "briz",
        Opcodes::Call => "call",
        Opcodes::Varref => "varref",
        Opcodes::Iconst => "iconst",
        Opcodes::Iload => "iload",
        Opcodes::Istore => "istore",
        Opcodes::Iret => "iret",
        Opcodes::Inot => "inot",
        Opcodes::Ior => "ior",
        Opcodes::Iand => "iand",
        Opcodes::Ixor => "ixor",
        Opcodes::Ilshr => "ilshr",
        Opcodes::Iashr => "iashr",
        Opcodes::Ishl => "ishl",
        Opcodes::Ineg => "ineg",
        Opcodes::Iadd => "iadd",
        Opcodes::Isub => "isub",
        Opcodes::Imul => "imul",
        Opcodes::Idiv => "idiv",
        Opcodes::Udiv => "udiv",
        Opcodes::Irem => "irem",
        Opcodes::Urem => "urem",
        Opcodes::Ieq => "ieq",
        Opcodes::Ine => "ine",
        Opcodes::Ige => "ige",
        Opcodes::Igt => "igt",
        Opcodes::Uge => "uge",
        Opcodes::Ugt => "ugt",
        Opcodes::Ilt => "ilt",
        Opcodes::Ile => "ile",
        Opcodes::Ule => "ule",
        Opcodes::Ult => "ult",
        Opcodes::Iconv => "iconv",
        Opcodes::Uconv => "uconv",
    }
}

/// The operands of an instruction, in order.
pub open spec fn instr_operands(i: Instruction) -> Seq<int> {
    match i {
        Instruction::Nop() => seq![],
        Instruction::Varref() => seq![],
        Instruction::Briz(a, b) => seq![a as int, b as int],
        Instruction::Iconv(a, b) => seq![a as int, b as int],
        Instruction::Uconv(a, b) => seq![a as int, b as int],
        Instruction::Iconst(a, v) => seq![a as int, v as int],
        Instruction::Pop(a) => seq![a as int],
        Instruction::Dup(a) => seq![a as int],
        Instruction::Swap(a) => seq![a as int],
        Instruction::Br(a) => seq![a as int],
        Instruction::Call(a) => seq![a as int],
        Instruction::Iload(a) => seq![a as int],
        Instruction::Istore(a) => seq![a as int],
        Instruction::Iret(a) => seq![a as int],
        Instruction::Inot(a) => seq![a as int],
        Instruction::Ior(a) => seq![a as int],
        Instruction::Iand(a) => seq![a as int],
        Instruction::Ixor(a) => seq![a as int],
        Instruction::Ilshr(a) => seq![a as int],
        Instruction::Iashr(a) => seq![a as int],
        Instruction::Ishl(a) => seq![a as int],
        Instruction::Ineg(a) => seq![a as int],
        Instruction::Iadd(a) => seq![a as int],
        Instruction::Isub(a) => seq![a as int],
        Instruction::Imul(a) => seq![a as int],
        Instruction::Idiv(a) => seq![a as int],
        Instruction::Udiv(a) => seq![a as int],
        Instruction::Irem(a) => seq![a as int],
        Instruction::Urem(a) => seq![a as int],
        Instruction::Ieq(a) => seq![a as int],
        Instruction::Ine(a) => seq![a as int],
        Instruction::Ige(a) => seq![a as int],
        Instruction::Igt(a) => seq![a as int],
        Instruction::Uge(a) => seq![a as int],
        Instruction::Ugt(a) => seq![a as int],
        Instruction::Ilt(a) => seq![a as int],
        Instruction::Ile(a) => seq![a as int],
        Instruction::Ule(a) => seq![a as int],
        Instruction::Ult(a) => seq![a as int],
    }
}

/// Each operand after a space.
pub open spec fn operands_text(s: Seq<int>) -> Seq<char>
    decreases s.len(),
{
    if s.len() == 0 {
        Seq::empty()
    } else {
        operands_text(s.drop_last()) + " "@ + spec_idec(s.last())
    }
}

proof fn lemma_operands1(x: int)
    ensures
        operands_text(seq![x]) == " "@ + spec_idec(x),
{
    assert(seq![x].drop_last() == Seq::<int>::empty());
    assert(seq![x].last() == x);
    assert(operands_text(Seq::<int>::empty()) == Seq::<char>::empty());
    assert(Seq::<char>::empty() + " "@ == " "@);
}

proof fn lemma_operands2(x: int, y: int)
    ensures
        operands_text(seq![x, y]) == " "@ + spec_idec(x) + " "@ + spec_idec(y),
{
    assert(seq![x, y].drop_last() == seq![x]);
    assert(seq![x, y].last() == y);
    lemma_operands1(x);
}

/// An instruction as text: its mnemonic and its operands, separated by spaces.
pub open spec fn spec_instr_text(i: Instruction) -> Seq<char> {
    spec_mnemonic(spec_opcode(i)) + operands_text(instr_operands(i))
}

/// An instruction as text.
pub fn instr_text(i: Instruction) -> (r: String)
    ensures
        r@ == spec_instr_text(i),
{
    let mut s = mnemonic(i.opcode()).to_owned();
    let ghost m = s@;
    match i {
        Instruction::Nop() | Instruction::Varref() => {
            assert(instr_operands(i) == Seq::<int>::empty());
        },
        Instruction::Briz(a, b) | Instruction::Iconv(a, b) | Instruction::Uconv(a, b) => {
            push_str(&mut s, " ");
            push_str(&mut s, u64_to_dec(a as u64).as_str());
            push_str(&mut s, " ");
            push_str(&mut s, u64_to_dec(b as u64).as_str());
            proof {
                lemma_operands2(a as int, b as int);
                assert(instr_operands(i) == seq![a as int, b as int]);
                assert(s@ =~= m + operands_text(seq![a as int, b as int]));
            }
        },
        Instruction::Iconst(a, v) => {
            push_str(&mut s, " ");
            push_str(&mut s, u64_to_dec(a as u64).as_str());
            push_str(&mut s, " ");
            push_str(&mut s, i64_to_dec(v).as_str());
            proof {
                lemma_operands2(a as int, v as int);
                assert(s@ =~= m + operands_text(seq![a as int, v as int]));
            }
        },
        Instruction::Pop(a) | Instruction::Dup(a) | Instruction::Swap(a) | Instruction::Br(a)
        | Instruction::Call(a) | Instruction::Iload(a) | Instruction::Istore(a) | Instruction::Iret(a)
        | Instruction::Inot(a) | Instruction::Ior(a) | Instruction::Iand(a) | Instruction::Ixor(a)
        | Instruction::Ilshr(a) | Instruction::Iashr(a) | Instruction::Ishl(a) | Instruction::Ineg(a)
        | Instruction::Iadd(a) | Instruction::Isub(a) | Instruction::Imul(a) | Instruction::Idiv(a)
        | Instruction::Udiv(a) | Instruction::Irem(a) | Instruction::Urem(a) | Instruction::Ieq(a)
        | Instruction::Ine(a) | Instruction::Ige(a) | Instruction::Igt(a) | Instruction::Uge(a)
        | Instruction::Ugt(a) | Instruction::Ilt(a) | Instruction::Ile(a) | Instruction::Ule(a)
        | Instruction::Ult(a) => {
            push_str(&mut s, " ");
            push_str(&mut s, u64_to_dec(a as u64).as_str());
            proof {
                lemma_operands1(a as int);
                assert(instr_operands(i) == seq![a as int]);
                assert(s@ =~= m + operands_text(seq![a as int]));
            }
        },
    }
    s
}

/// The argument types of a signature, separated by `", "`.
pub open spec fn args_text(args: Seq<Seq<char>>) -> Seq<char>
    decreases args.len(),
{
    if args.len() == 0 {
        Seq::empty()
    } else if args.len() == 1 {
        args[0]
    } else {
        args_text(args.drop_last()) + ", "@ + args.last()
    }
}

/// `extern fn name (args) -> ret;` and a newline.
pub open spec fn ext_line(f: ExtV) -> Seq<char> {
    "extern fn "@ + f.name + " ("@ + args_text(f.args) + ") -> "@ + f.ret + ";\n"@
}

pub open spec fn ext_lines(fs: Seq<ExtV>) -> Seq<char>
    decreases fs.len(),
{
    if fs.len() == 0 {
        Seq::empty()
    } else {
        ext_lines(fs.drop_last()) + ext_line(fs.last())
    }
}

/// Each instruction on a line of its own, after a tab.
pub open spec fn instrs_text(s: Seq<Instruction>) -> Seq<char>
    decreases s.len(),
{
    if s.len() == 0 {
        Seq::empty()
    } else {
        instrs_text(s.drop_last()) + "\t"@ + spec_instr_text(s.last()) + "\n"@
    }
}

/// The blocks, each as `B<number> : ` on a line, then its instructions; numbered from
/// zero.
pub open spec fn blocks_text(bs: Seq<Seq<Instruction>>) -> Seq<char>
    decreases bs.len(),
{
    if bs.len() == 0 {
        Seq::empty()
    } else {
        blocks_text(bs.drop_last()) + "B"@ + spec_dec((bs.len() - 1) as nat) + " : \n"@ + instrs_text(bs.last())
    }
}

/// An object as text: its external functions, then its blocks inside `fn main`.
pub open spec fn spec_ir_text(o: IrV) -> Seq<char> {
    ext_lines(o.ext_fn) + "fn main () -> i64 {\n"@ + blocks_text(o.blocks) + "}"@
}

/// The text of an object.
pub fn write_ir(ir: &IrObject) -> (r: String)
    ensures
        r@ == spec_ir_text(ir@),
{
    let ghost o = ir@;
    let mut s = String::new();
    let mut k: usize = 0;
    while k < ir.ext_fn.len()
        invariant
            0 <= k <= ir.ext_fn.len(),
            o == ir@,
            s@ == ext_lines(o.ext_fn.take(k as int)),
        decreases ir.ext_fn.len() - k,
    {
        let f = &ir.ext_fn[k];
        let ghost before = s@;
        push_str(&mut s, "extern fn ");
        push_str(&mut s, f.name.as_str());
        push_str(&mut s, " (");
        let mut a: usize = 0;
        let ghost head = s@;
        let ghost av = strings_view(f.sig.args@);
        while a < f.sig.args.len()
            invariant
                0 <= a <= f.sig.args.len(),
                av == strings_view(f.sig.args@),
                s@ == head + args_text(av.take(a as int)),
            decreases f.sig.args.len() - a,
        {
            if a != 0 {
                push_str(&mut s, ", ");
            }
            push_str(&mut s, f.sig.args[a].as_str());
            proof {
                assert(av.take(a + 1).drop_last() == av.take(a as int));
                assert(av.take(a + 1).last() == f.sig.args@[a as int]@);
                if a == 0 {
                    assert(av.take(1) == seq![av[0]]);
                    assert(av.take(0) == Seq::<Seq<char>>::empty());
                }
            }
            a += 1;
        }
        proof {
            assert(av.take(f.sig.args.len() as int) == av);
        }
        push_str(&mut s, ") -> ");
        push_str(&mut s, f.sig.ret.as_str());
        push_str(&mut s, ";\n");
        proof {
            assert(o.ext_fn.take(k + 1).drop_last() == o.ext_fn.take(k as int));
            assert(o.ext_fn.take(k + 1).last() == ext_view(*f));
            assert(s@ == before + ext_line(ext_view(*f)));
        }
        k += 1;
    }
    proof {
        assert(o.ext_fn.take(ir.ext_fn.len() as int) == o.ext_fn);
    }
    push_str(&mut s, "fn main () -> i64 {\n");
    let ghost head = s@;
    let mut j: usize = 0;
    while j < ir.blocks.len()
        invariant
            0 <= j <= ir.blocks.len(),
            o == ir@,
            s@ == head + blocks_text(o.blocks.take(j as int)),
        decreases ir.blocks.len() - j,
    {
        let ghost before = s@;
        push_str(&mut s, "B");
        push_str(&mut s, u64_to_dec(j as u64).as_str());
        push_str(&mut s, " : \n");
        let ins = ir.blocks[j].to_vec();
        let ghost mid = s@;
        let mut q: usize = 0;
        while q < ins.len()
            invariant
                0 <= q <= ins.len(),
                s@ == mid + instrs_text(ins@.take(q as int)),
            decreases ins.len() - q,
        {
            push_str(&mut s, "\t");
            push_str(&mut s, instr_text(ins[q]).as_str());
            push_str(&mut s, "\n");
            proof {
                assert(ins@.take(q + 1).drop_last() == ins@.take(q as int));
                assert(ins@.take(q + 1).last() == ins@[q as int]);
            }
            q += 1;
        }
        proof {
            assert(ins@.take(ins.len() as int) == ins@);
            assert(o.blocks.take(j + 1).drop_last() == o.blocks.take(j as int));
            assert(o.blocks.take(j + 1).last() == o.blocks[j as int]);
            assert(o.blocks.take(j + 1).len() - 1 == j);
        }
        j += 1;
    }
    proof {
        assert(o.blocks.take(ir.blocks.len() as int) == o.blocks);
    }
    push_str(&mut s, "}");
    s
}

} // verus!
