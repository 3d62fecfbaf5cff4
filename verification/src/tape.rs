//! The tape assembler: a program of one-character instructions in a `.TEXT` section
//! and the initial data in a `.DATA` section, assembled into an object.

use vstd::prelude::*;
use crate::chars::{is_whitespace, unicode_white_space};
use crate::numbers::{parse_i64, parse_usize, spec_parse_i64, spec_parse_usize};
use crate::text::{str_to_chars, push_char};
use crate::bytecode::{u64_le, push_u64};

verus! {

/// An instruction of the tape machine.
#[derive(Clone, Copy, Debug, PartialEq, Eq, Structural)]
pub enum Instructions {
    /// <
    Backward,
    /// >
    Forward,
    /// L
    Load,
    /// S
    Store,
    /// +
    Add,
    /// -
    Sub,
    /// *
    Mul,
    /// /
    Div,
    /// P
    Print,
    /// ]
    Jump,
    /// }
    JumpIfZero,
    /// Q
    Exit,
    /// I
    Inc,
    /// D
    Dec,
    /// C
    Compare,
}

/// The instruction a symbol stands for.
pub open spec fn spec_symbol_instr(c: char) -> Option<Instructions> {
    if c == '<' { Some(Instructions::Backward) }
    else if c == '>' { Some(Instructions::Forward) }
    else if c == 'L' { Some(Instructions::Load) }
    else if c == 'S' { Some(Instructions::Store) }
    else if c == '+' { Some(Instructions::Add) }
    else if c == '-' { Some(Instructions::Sub) }
    else if c == '*' { Some(Instructions::Mul) }
    else if c == '/' { Some(Instructions::Div) }
    else if c == 'P' { Some(Instructions::Print) }
    else if c == ']' { Some(Instructions::Jump) }
    else if c == '}' { Some(Instructions::JumpIfZero) }
    else if c == 'Q' { Some(Instructions::Exit) }
    else if c == 'I' { Some(Instructions::Inc) }
    else if c == 'D' { Some(Instructions::Dec) }
    else if c == 'C' { Some(Instructions::Compare) }
    else { None }
}

fn symbol_instr(c: char) -> (r: Option<Instructions>)
    ensures
        r == spec_symbol_instr(c),
{
    if c == '<' { Some(Instructions::Backward) }
    else if c == '>' { Some(Instructions::Forward) }
    else if c == 'L' { Some(Instructions::Load) }
    else if c == 'S' { Some(Instructions::Store) }
    else if c == '+' { Some(Instructions::Add) }
    else if c == '-' { Some(Instructions::Sub) }
    else if c == '*' { Some(Instructions::Mul) }
    else if c == '/' { Some(Instructions::Div) }
    else if c == 'P' { Some(Instructions::Print) }
    else if c == ']' { Some(Instructions::Jump) }
    else if c == '}' { Some(Instructions::JumpIfZero) }
    else if c == 'Q' { Some(Instructions::Exit) }
    else if c == 'I' { Some(Instructions::Inc) }
    else if c == 'D' { Some(Instructions::Dec) }
    else if c == 'C' { Some(Instructions::Compare) }
    else { None }
}

/// The byte of an instruction in an object: its place in the list of instructions.
pub open spec fn spec_instr_byte(i: Instructions) -> u8 {
    match i {
        Instructions::Backward => 0,
        Instructions::Forward => 1,
        Instructions::Load => 2,
        Instructions::Store => 3,
        Instructions::Add => 4,
        Instructions::Sub => 5,
        Instructions::Mul => 6,
        Instructions::Div => 7,
        Instructions::Print => 8,
        Instructions::Jump => 9,
        Instructions::JumpIfZero => 10,
        Instructions::Exit => 11,
        Instructions::Inc => 12,
        Instructions::Dec => 13,
        Instructions::Compare => 14,
    }
}

impl Instructions {
    pub fn to_u8(self) -> (r: u8)
        ensures
            r == spec_instr_byte(self),
    {
        match self {
            Instructions::Backward => 0,
            Instructions::Forward => 1,
            Instructions::Load => 2,
            Instructions::Store => 3,
            Instructions::Add => 4,
            Instructions::Sub => 5,
            Instructions::Mul => 6,
            Instructions::Div => 7,
            Instructions::Print => 8,
            Instructions::Jump => 9,
            Instructions::JumpIfZero => 10,
            Instructions::Exit => 11,
            Instructions::Inc => 12,
            Instructions::Dec => 13,
            Instructions::Compare => 14,
        }
    }
}


/// The opcodes of the tape machine's objects, each with its byte.
#[derive(Clone, Copy, Debug, PartialEq, Eq, Structural)]
pub enum Opcodes {
    Exit,
    Mkfr,
    Delfr,
    Pushi,
    Pushv,
    Pusht,
    Br,
    Call,
    Neg,
    Briz,
    Store,
    Add,
    Sub,
    Mul,
    Div,
    Eq,
    Ne,
    Gt,
    Ge,
    Le,
    Lt,
    Lsh,
    Rsh,
}

pub open spec fn spec_tape_opcode_byte(o: Opcodes) -> u8 {
    match o {
        Opcodes::Exit => 0x00,
        Opcodes::Mkfr => 0x01,
        Opcodes::Delfr => 0x02,
        Opcodes::Pushi => 0x10,
        Opcodes::Pushv => 0x11,
        Opcodes::Pusht => 0x12,
        Opcodes::Br => 0x13,
        Opcodes::Call => 0x14,
        Opcodes::Neg => 0x15,
        Opcodes::Briz => 0x20,
        Opcodes::Store => 0x21,
        Opcodes::Add => 0x22,
        Opcodes::Sub => 0x23,
        Opcodes::Mul => 0x24,
        Opcodes::Div => 0x25,
        Opcodes::Eq => 0x26,
        Opcodes::Ne => 0x27,
        Opcodes::Gt => 0x28,
        Opcodes::Ge => 0x29,
        Opcodes::Le => 0x2A,
        Opcodes::Lt => 0x2B,
        Opcodes::Lsh => 0x2C,
        Opcodes::Rsh => 0x2D,
    }
}

pub open spec fn spec_tape_opcode_of_byte(b: u8) -> Option<Opcodes> {
    if b == 0x00 { Some(Opcodes::Exit) }
    else if b == 0x01 { Some(Opcodes::Mkfr) }
    else if b == 0x02 { Some(Opcodes::Delfr) }
    else if b == 0x10 { Some(Opcodes::Pushi) }
    else if b == 0x11 { Some(Opcodes::Pushv) }
    else if b == 0x12 { Some(Opcodes::Pusht) }
    else if b == 0x13 { Some(Opcodes::Br) }
    else if b == 0x14 { Some(Opcodes::Call) }
    else if b == 0x15 { Some(Opcodes::Neg) }
    else if b == 0x20 { Some(Opcodes::Briz) }
    else if b == 0x21 { Some(Opcodes::Store) }
    else if b == 0x22 { Some(Opcodes::Add) }
    else if b == 0x23 { Some(Opcodes::Sub) }
    else if b == 0x24 { Some(Opcodes::Mul) }
    else if b == 0x25 { Some(Opcodes::Div) }
    else if b == 0x26 { Some(Opcodes::Eq) }
    else if b == 0x27 { Some(Opcodes::Ne) }
    else if b == 0x28 { Some(Opcodes::Gt) }
    else if b == 0x29 { Some(Opcodes::Ge) }
    else if b == 0x2A { Some(Opcodes::Le) }
    else if b == 0x2B { Some(Opcodes::Lt) }
    else if b == 0x2C { Some(Opcodes::Lsh) }
    else if b == 0x2D { Some(Opcodes::Rsh) }
    else { None }
}

impl Opcodes {
    /// The byte of the opcode.
    pub fn to_u8(self) -> (r: u8)
        ensures
            r == spec_tape_opcode_byte(self),
    {
        match self {
            Opcodes::Exit => 0x00,
            Opcodes::Mkfr => 0x01,
            Opcodes::Delfr => 0x02,
            Opcodes::Pushi => 0x10,
            Opcodes::Pushv => 0x11,
            Opcodes::Pusht => 0x12,
            Opcodes::Br => 0x13,
            Opcodes::Call => 0x14,
            Opcodes::Neg => 0x15,
            Opcodes::Briz => 0x20,
            Opcodes::Store => 0x21,
            Opcodes::Add => 0x22,
            Opcodes::Sub => 0x23,
            Opcodes::Mul => 0x24,
            Opcodes::Div => 0x25,
            Opcodes::Eq => 0x26,
            Opcodes::Ne => 0x27,
            Opcodes::Gt => 0x28,
            Opcodes::Ge => 0x29,
            Opcodes::Le => 0x2A,
            Opcodes::Lt => 0x2B,
            Opcodes::Lsh => 0x2C,
            Opcodes::Rsh => 0x2D,
        }
    }

    /// The opcode of a byte; `None` for a byte that is no opcode.
    pub fn from_u8(b: u8) -> (r: Option<Opcodes>)
        ensures
            r == spec_tape_opcode_of_byte(b),
    {
        if b == 0x00 { Some(Opcodes::Exit) }
        else if b == 0x01 { Some(Opcodes::Mkfr) }
        else if b == 0x02 { Some(Opcodes::Delfr) }
        else if b == 0x10 { Some(Opcodes::Pushi) }
        else if b == 0x11 { Some(Opcodes::Pushv) }
        else if b == 0x12 { Some(Opcodes::Pusht) }
        else if b == 0x13 { Some(Opcodes::Br) }
        else if b == 0x14 { Some(Opcodes::Call) }
        else if b == 0x15 { Some(Opcodes::Neg) }
        else if b == 0x20 { Some(Opcodes::Briz) }
        else if b == 0x21 { Some(Opcodes::Store) }
        else if b == 0x22 { Some(Opcodes::Add) }
        else if b == 0x23 { Some(Opcodes::Sub) }
        else if b == 0x24 { Some(Opcodes::Mul) }
        else if b == 0x25 { Some(Opcodes::Div) }
        else if b == 0x26 { Some(Opcodes::Eq) }
        else if b == 0x27 { Some(Opcodes::Ne) }
        else if b == 0x28 { Some(Opcodes::Gt) }
        else if b == 0x29 { Some(Opcodes::Ge) }
        else if b == 0x2A { Some(Opcodes::Le) }
        else if b == 0x2B { Some(Opcodes::Lt) }
        else if b == 0x2C { Some(Opcodes::Lsh) }
        else if b == 0x2D { Some(Opcodes::Rsh) }
        else { None }
    }
}

/// Reading back the byte of an opcode gives the opcode.
pub proof fn lemma_tape_opcode_roundtrip(o: Opcodes, b: u8)
    ensures
        spec_tape_opcode_of_byte(spec_tape_opcode_byte(o)) == Some(o),
        spec_tape_opcode_of_byte(b) matches Some(p) ==> spec_tape_opcode_byte(p) == b,
{
}

// ---------------------------------------------------------------------------------
// Sections of a source file.
// ---------------------------------------------------------------------------------

pub open spec fn starts_with(s: Seq<char>, c: char) -> bool {
    s.len() > 0 && s[0] == c
}

/// A source file, as its lines, and where its sections start and end.
pub struct SourceFile {
    pub lines: Vec<String>,
    /// first text line
    pub text_start: Option<u64>,
    /// last text line
    pub text_end: Option<u64>,
    /// first data line
    pub data_start: Option<u64>,
    /// last data line
    pub data_end: Option<u64>,
}

/// The places of the sections: text start and end, data start and end.
pub type Sections = (Option<u64>, Option<u64>, Option<u64>, Option<u64>);

/// The header lines (those that start with a dot), with their indices.
pub open spec fn spec_headers(lines: Seq<Seq<char>>) -> Seq<(int, Seq<char>)>
    decreases lines.len(),
{
    if lines.len() == 0 {
        Seq::empty()
    } else {
        let h = spec_headers(lines.drop_last());
        if starts_with(lines.last(), '.') {
            h.push(((lines.len() - 1) as int, lines.last()))
        } else {
            h
        }
    }
}

/// One header read into the sections, or the message of why it cannot be.
pub open spec fn spec_header_step(s: Sections, h: (int, Seq<char>)) -> Result<Sections, Seq<char>> {
    let (ts, te, ds, de) = s;
    if h.1 == ".DATA"@ {
        if ds is Some {
            Err("header found twice : .DATA"@)
        } else {
            let nds = Some(h.0 as u64);
            Ok((ts, if ts is Some { nds } else { te }, nds, de))
        }
    } else if h.1 == ".TEXT"@ {
        if ts is Some {
            Err("header found twice : .TEXT"@)
        } else {
            let nts = Some(h.0 as u64);
            Ok((nts, te, ds, if ds is Some { nts } else { de }))
        }
    } else {
        Err("bad header"@)
    }
}

/// The outcome of finding the headers: the sections, and the message where it fails.
/// The sections are those set before the failing header.
pub open spec fn spec_find_headers(lines: Seq<Seq<char>>) -> (Sections, Option<Seq<char>>) {
    let none: Sections = (None, None, None, None);
    let hs = spec_headers(lines);
    if hs.len() != 2 {
        (none, Some("to many headers"@))
    } else {
        match spec_header_step(none, hs[0]) {
            Err(m) => (none, Some(m)),
            Ok(s1) => match spec_header_step(s1, hs[1]) {
                Err(m) => (s1, Some(m)),
                Ok(s2) => (s2, None),
            },
        }
    }
}

pub open spec fn lines_view(v: Seq<String>) -> Seq<Seq<char>> {
    v.map_values(|s: String| s@)
}

fn header_step(s: Sections, idx: usize, line: &String) -> (r: Result<Sections, String>)
    ensures
        match spec_header_step(s, (idx as int, line@)) {
            Ok(x) => r == Ok::<Sections, String>(x),
            Err(m) => r matches Err(e) && e@ == m,
        },
{
    let (ts, te, ds, de) = s;
    if crate::lexer::str_eq(line.as_str(), ".DATA") {
        if ds.is_some() {
            Err("header found twice : .DATA".to_owned())
        } else {
            let nds = Some(idx as u64);
            Ok((ts, if ts.is_some() { nds } else { te }, nds, de))
        }
    } else if crate::lexer::str_eq(line.as_str(), ".TEXT") {
        if ts.is_some() {
            Err("header found twice : .TEXT".to_owned())
        } else {
            let nts = Some(idx as u64);
            Ok((nts, te, ds, if ds.is_some() { nts } else { de }))
        }
    } else {
        Err("bad header".to_owned())
    }
}

impl SourceFile {
    /// A file of these lines, with no section found yet.
    pub fn from_lines(lines: Vec<String>) -> (r: Self)
        ensures
            r.lines@ == lines@,
            r.text_start is None && r.text_end is None && r.data_start is None && r.data_end is None,
    {
        SourceFile { lines, text_start: None, text_end: None, data_start: None, data_end: None }
    }

    /// Finds the `.TEXT` and `.DATA` headers: there must be exactly two header lines,
    /// one of each. The section that comes first ends where the other starts.
    pub fn find_headers(&mut self) -> (r: Result<(), String>)
        ensures
            final(self).lines@ == old(self).lines@,
            ({
                let (s, m) = spec_find_headers(lines_view(old(self).lines@));
                &&& (final(self).text_start, final(self).text_end, final(self).data_start, final(self).data_end) == s
                &&& match m {
                    None => r is Ok,
                    Some(msg) => r matches Err(e) && e@ == msg,
                }
            }),
    {
        self.text_start = None;
        self.text_end = None;
        self.data_start = None;
        self.data_end = None;
        let ghost lv = lines_view(self.lines@);
        let mut idx: Vec<usize> = Vec::new();
        let mut i: usize = 0;
        while i < self.lines.len()
            invariant
                0 <= i <= self.lines.len(),
                lv == lines_view(self.lines@),
                idx.len() == spec_headers(lv.take(i as int)).len(),
                forall|k: int| 0 <= k < idx.len() ==> 0 <= #[trigger] idx@[k] < i
                    && spec_headers(lv.take(i as int))[k] == (idx@[k] as int, lv[idx@[k] as int]),
            decreases self.lines.len() - i,
        {
            let line = &self.lines[i];
            let first = match str_to_chars(line.as_str()).first() {
                Some(c) => *c == '.',
                None => false,
            };
            proof {
                assert(lv.take(i + 1).drop_last() == lv.take(i as int));
                assert(lv.take(i + 1).last() == lv[i as int]);
                assert(lv[i as int] == line@);
            }
            if first {
                idx.push(i);
            }
            i += 1;
        }
        proof {
            assert(lv.take(self.lines.len() as int) == lv);
        }
        if idx.len() != 2 {
            return Err("to many headers".to_owned());
        }
        let none: Sections = (None, None, None, None);
        let s1 = match header_step(none, idx[0], &self.lines[idx[0]]) {
            Err(e) => {
                return Err(e);
            },
            Ok(s) => s,
        };
        self.text_start = s1.0;
        self.text_end = s1.1;
        self.data_start = s1.2;
        self.data_end = s1.3;
        let s2 = match header_step(s1, idx[1], &self.lines[idx[1]]) {
            Err(e) => {
                return Err(e);
            },
            Ok(s) => s,
        };
        self.text_start = s2.0;
        self.text_end = s2.1;
        self.data_start = s2.2;
        self.data_end = s2.3;
        Ok(())
    }
}

// ---------------------------------------------------------------------------------
// The text section.
// ---------------------------------------------------------------------------------

/// The lines of the text section: after its header, before its end, and not comments.
pub open spec fn text_lines(lines: Seq<Seq<char>>, start: nat, end: Option<u64>) -> Seq<Seq<char>>
    decreases lines.len(),
{
    if lines.len() == 0 {
        Seq::empty()
    } else {
        let k = lines.len() - 1;
        let rest = text_lines(lines.drop_last(), start, end);
        if k > start && (end is None || k < end->0) && !starts_with(lines.last(), '#') {
            rest.push(lines.last())
        } else {
            rest
        }
    }
}

/// The characters of `s` that are not whitespace.
pub open spec fn non_blank(s: Seq<char>) -> Seq<char>
    decreases s.len(),
{
    if s.len() == 0 {
        Seq::empty()
    } else if unicode_white_space(s.last()) {
        non_blank(s.drop_last())
    } else {
        non_blank(s.drop_last()).push(s.last())
    }
}

/// The symbols of the text: the characters of its lines that are not whitespace.
pub open spec fn symbols(ls: Seq<Seq<char>>) -> Seq<char>
    decreases ls.len(),
{
    if ls.len() == 0 {
        Seq::empty()
    } else {
        symbols(ls.drop_last()) + non_blank(ls.last())
    }
}

/// The instructions of the symbols and the jump table: a `[` marks a jump target at the
/// index of the next instruction; the table starts with 0. Fails on the first symbol
/// that is neither.
pub open spec fn spec_assemble(syms: Seq<char>) -> Result<(Seq<Instructions>, Seq<usize>), char>
    decreases syms.len(),
{
    if syms.len() == 0 {
        Ok((Seq::empty(), seq![0usize]))
    } else {
        match spec_assemble(syms.drop_last()) {
            Err(c) => Err(c),
            Ok((ins, js)) => {
                let c = syms.last();
                if c == '[' {
                    Ok((ins, js.push(ins.len() as usize)))
                } else {
                    match spec_symbol_instr(c) {
                        None => Err(c),
                        Some(i) => Ok((ins.push(i), js)),
                    }
                }
            },
        }
    }
}

proof fn lemma_assemble_len(syms: Seq<char>)
    ensures
        spec_assemble(syms) matches Ok((ins, js)) ==> ins.len() <= syms.len() && js.len() <= syms.len() + 1,
    decreases syms.len(),
{
    if syms.len() > 0 {
        lemma_assemble_len(syms.drop_last());
    }
}

proof fn lemma_assemble_err(syms: Seq<char>, k: int)
    requires
        0 <= k <= syms.len(),
        spec_assemble(syms.take(k)) is Err,
    ensures
        spec_assemble(syms) == spec_assemble(syms.take(k)),
    decreases syms.len() - k,
{
    if k < syms.len() {
        assert(syms.take(k + 1).drop_last() == syms.take(k));
        lemma_assemble_err(syms, k + 1);
    } else {
        assert(syms.take(k) == syms);
    }
}

/// The instructions of the text section and its jump table (instruction indices).
pub struct TextData {
    pub instructions: Vec<Instructions>,
    pub jumps: Vec<usize>,
}

/// The message for a symbol that is no instruction.
pub open spec fn bad_instruction_msg(c: char) -> Seq<char> {
    "bad instruction : "@.push(c)
}

impl TextData {
    /// Assembles the text section of `file`, whose headers were found.
    pub fn try_from(file: &SourceFile) -> (r: Result<TextData, String>)
        ensures
            match file.text_start {
                None => r matches Err(e) && e@ == "you need to parse headers first"@,
                Some(ts) => match spec_assemble(symbols(text_lines(lines_view(file.lines@), ts as nat, file.text_end))) {
                    Ok((ins, js)) => r matches Ok(t) && t.instructions@ == ins && t.jumps@ == js,
                    Err(c) => r matches Err(e) && e@ == bad_instruction_msg(c),
                },
            },
    {
        let ts = match file.text_start {
            None => {
                return Err("you need to parse headers first".to_owned());
            },
            Some(ts) => ts,
        };
        let ghost lv = lines_view(file.lines@);
        // the symbols
        let mut syms: Vec<char> = Vec::new();
        let mut k: usize = 0;
        while k < file.lines.len()
            invariant
                0 <= k <= file.lines.len(),
                lv == lines_view(file.lines@),
                file.text_start == Some(ts),
                syms@ == symbols(text_lines(lv.take(k as int), ts as nat, file.text_end)),
            decreases file.lines.len() - k,
        {
            let cs = str_to_chars(file.lines[k].as_str());
            proof {
                assert(lv.take(k + 1).drop_last() == lv.take(k as int));
                assert(lv.take(k + 1).last() == lv[k as int]);
                assert(lv[k as int] == cs@);
            }
            let in_range = k as u64 > ts && match file.text_end {
                None => true,
                Some(te) => (k as u64) < te,
            };
            let comment = cs.len() > 0 && cs[0] == '#';
            if in_range && !comment {
                let ghost before = syms@;
                let mut q: usize = 0;
                while q < cs.len()
                    invariant
                        0 <= q <= cs.len(),
                        syms@ == before + non_blank(cs@.take(q as int)),
                    decreases cs.len() - q,
                {
                    proof {
                        assert(cs@.take(q + 1).drop_last() == cs@.take(q as int));
                        assert(cs@.take(q + 1).last() == cs@[q as int]);
                    }
                    if !is_whitespace(cs[q]) {
                        syms.push(cs[q]);
                    }
                    q += 1;
                }
                proof {
                    assert(cs@.take(cs.len() as int) == cs@);
                    assert(text_lines(lv.take(k + 1), ts as nat, file.text_end)
                        == text_lines(lv.take(k as int), ts as nat, file.text_end).push(cs@));
                    let tl = text_lines(lv.take(k as int), ts as nat, file.text_end);
                    assert(tl.push(cs@).drop_last() == tl);
                }
            } else {
                proof {
                    assert(text_lines(lv.take(k + 1), ts as nat, file.text_end)
                        == text_lines(lv.take(k as int), ts as nat, file.text_end));
                }
            }
            k += 1;
        }
        proof {
            assert(lv.take(file.lines.len() as int) == lv);
        }
        // the instructions
        let ghost all = syms@;
        let mut instructions: Vec<Instructions> = Vec::new();
        let mut jumps: Vec<usize> = vec![0];
        let mut j: usize = 0;
        proof {
            assert(all.take(0) == Seq::<char>::empty());
            assert(jumps@ == seq![0usize]);
            assert(instructions@ == Seq::<Instructions>::empty());
        }
        while j < syms.len()
            invariant
                0 <= j <= syms.len(),
                all == syms@,
                file.text_start == Some(ts),
                all == symbols(text_lines(lines_view(file.lines@), ts as nat, file.text_end)),
                spec_assemble(all.take(j as int)) == Ok::<(Seq<Instructions>, Seq<usize>), char>((instructions@, jumps@)),
            decreases syms.len() - j,
        {
            let c = syms[j];
            proof {
                assert(all.take(j + 1).drop_last() == all.take(j as int));
                assert(all.take(j + 1).last() == c);
                lemma_assemble_len(all.take(j as int));
            }
            if c == '[' {
                jumps.push(instructions.len());
            } else {
                match symbol_instr(c) {
                    None => {
                        proof {
                            lemma_assemble_err(all, j + 1);
                        }
                        let mut msg = "bad instruction : ".to_owned();
                        push_char(&mut msg, c);
                        return Err(msg);
                    },
                    Some(i) => {
                        instructions.push(i);
                    },
                }
            }
            j += 1;
        }
        proof {
            assert(all.take(syms.len() as int) == all);
        }
        Ok(TextData { instructions, jumps })
    }
}


// ---------------------------------------------------------------------------------
// The data section.
// ---------------------------------------------------------------------------------

/// The lines that are no comment, with their indices.
pub open spec fn entries(lines: Seq<Seq<char>>) -> Seq<(int, Seq<char>)>
    decreases lines.len(),
{
    if lines.len() == 0 {
        Seq::empty()
    } else {
        let e = entries(lines.drop_last());
        if starts_with(lines.last(), '#') {
            e
        } else {
            e.push(((lines.len() - 1) as int, lines.last()))
        }
    }
}

/// The numbers' lines: entries after the first two that lie after the data header and
/// before the end of the data section.
pub open spec fn number_lines(es: Seq<(int, Seq<char>)>, ds: u64, de: Option<u64>) -> Seq<Seq<char>>
    decreases es.len(),
{
    if es.len() <= 2 {
        Seq::empty()
    } else {
        let rest = number_lines(es.drop_last(), ds, de);
        let (k, l) = es.last();
        if k > ds && (de is None || k < de->0) {
            rest.push(l)
        } else {
            rest
        }
    }
}

pub open spec fn all_i64(ls: Seq<Seq<char>>) -> bool {
    forall|i: int| 0 <= i < ls.len() ==> spec_parse_i64(#[trigger] ls[i]) is Some
}

pub open spec fn i64s(ls: Seq<Seq<char>>) -> Seq<i64> {
    ls.map_values(|l: Seq<char>| spec_parse_i64(l)->0)
}

/// What reading the data section needs to go through: every number parses, there is a
/// size line that parses, and, where the numbers do not outnumber it, a default line
/// that parses.
pub open spec fn data_readable(lines: Seq<Seq<char>>, ds: u64, de: Option<u64>) -> bool {
    let es = entries(lines);
    let ns = number_lines(es, ds, de);
    &&& all_i64(ns)
    &&& es.len() >= 1
    &&& spec_parse_usize(es[0].1) is Some
    &&& ns.len() <= spec_parse_usize(es[0].1)->0 ==> es.len() >= 2 && spec_parse_i64(es[1].1) is Some
}

/// The data: the first line that is no comment gives how many numbers there are, the
/// second the number to fill up with; the numbers follow in the data section.
pub open spec fn spec_data(lines: Seq<Seq<char>>, ds: u64, de: Option<u64>) -> Result<Seq<i64>, Seq<char>> {
    let es = entries(lines);
    let ns = i64s(number_lines(es, ds, de));
    let size = spec_parse_usize(es[0].1)->0;
    if ns.len() > size {
        Err("to many numbers in data section"@)
    } else {
        Ok(ns + Seq::new((size - ns.len()) as nat, |i: int| spec_parse_i64(es[1].1)->0))
    }
}

impl SourceFile {
    /// The data section's numbers.
    pub fn parse_data(&self) -> (r: Result<Vec<i64>, String>)
        requires
            self.data_start matches Some(ds) ==> data_readable(lines_view(self.lines@), ds, self.data_end),
        ensures
            match self.data_start {
                None => r matches Err(e) && e@ == "you need to parse headers first"@,
                Some(ds) => match spec_data(lines_view(self.lines@), ds, self.data_end) {
                    Ok(v) => r matches Ok(x) && x@ == v,
                    Err(m) => r matches Err(e) && e@ == m,
                },
            },
    {
        let ds = match self.data_start {
            None => {
                return Err("you need to parse headers first".to_owned());
            },
            Some(ds) => ds,
        };
        let ghost lv = lines_view(self.lines@);
        let ghost all = number_lines(entries(lv), ds, self.data_end);
        let mut n: usize = 0;
        let mut size_line: usize = 0;
        let mut default_line: usize = 0;
        let mut numbers: Vec<i64> = Vec::new();
        let mut k: usize = 0;
        while k < self.lines.len()
            invariant
                0 <= k <= self.lines.len(),
                lv == lines_view(self.lines@),
                self.data_start == Some(ds),
                data_readable(lv, ds, self.data_end),
                all == number_lines(entries(lv), ds, self.data_end),
                n == entries(lv.take(k as int)).len(),
                n <= k,
                n >= 1 ==> size_line < k && entries(lv.take(k as int))[0].1 == lv[size_line as int],
                n >= 2 ==> default_line < k && entries(lv.take(k as int))[1].1 == lv[default_line as int],
                numbers@ == i64s(number_lines(entries(lv.take(k as int)), ds, self.data_end)),
                number_lines(entries(lv.take(k as int)), ds, self.data_end) == all.take(number_lines(entries(lv.take(k as int)), ds, self.data_end).len() as int),
                number_lines(entries(lv.take(k as int)), ds, self.data_end).len() <= all.len(),
            decreases self.lines.len() - k,
        {
            let cs = str_to_chars(self.lines[k].as_str());
            proof {
                assert(lv.take(k + 1).drop_last() == lv.take(k as int));
                assert(lv.take(k + 1).last() == lv[k as int]);
                assert(lv[k as int] == cs@);
                lemma_entries_prefix(lv, k as int);
                lemma_entries_take(lv, k + 1);
                lemma_number_lines_prefix(entries(lv), entries(lv.take(k + 1)).len() as int, ds, self.data_end);
            }
            if !(cs.len() > 0 && cs[0] == '#') {
                proof {
                    assert(entries(lv.take(k + 1)) == entries(lv.take(k as int)).push((k as int, cs@)));
                    assert(entries(lv.take(k + 1)).drop_last() == entries(lv.take(k as int)));
                }
                if n == 0 {
                    size_line = k;
                } else if n == 1 {
                    default_line = k;
                } else {
                    let in_range = k as u64 > ds && match self.data_end {
                        None => true,
                        Some(de) => (k as u64) < de,
                    };
                    if in_range {
                        let ghost before = numbers@;
                        proof {
                            let ns = number_lines(entries(lv.take(k + 1)), ds, self.data_end);
                            assert(ns.last() == cs@);
                            assert(all[ns.len() - 1] == cs@);
                            assert(spec_parse_i64(all[ns.len() - 1]) is Some);
                        }
                        let v = match parse_i64(self.lines[k].as_str()) {
                            Some(v) => v,
                            None => {
                                return Err("to many numbers in data section".to_owned());
                            },
                        };
                        numbers.push(v);
                        proof {
                            let ns = number_lines(entries(lv.take(k + 1)), ds, self.data_end);
                            assert(i64s(ns) =~= before.push(v));
                        }
                    }
                }
                n += 1;
            } else {
                proof {
                    assert(entries(lv.take(k + 1)) == entries(lv.take(k as int)));
                }
            }
            k += 1;
        }
        proof {
            assert(lv.take(self.lines.len() as int) == lv);
        }
        let size = match parse_usize(self.lines[size_line].as_str()) {
            Some(s) => s,
            None => {
                return Err("to many numbers in data section".to_owned());
            },
        };
        if numbers.len() > size {
            return Err("to many numbers in data section".to_owned());
        }
        let default = match parse_i64(self.lines[default_line].as_str()) {
            Some(d) => d,
            None => {
                return Err("to many numbers in data section".to_owned());
            },
        };
        let ghost base = numbers@;
        while numbers.len() < size
            invariant
                base.len() <= numbers.len() <= size,
                numbers@ == base + Seq::new((numbers.len() - base.len()) as nat, |i: int| default),
            decreases size - numbers.len(),
        {
            numbers.push(default);
            assert(base + Seq::new((numbers.len() - base.len()) as nat, |i: int| default)
                =~= numbers@);
        }
        Ok(numbers)
    }
}

proof fn lemma_entries_take(lv: Seq<Seq<char>>, k: int)
    requires
        0 <= k <= lv.len(),
    ensures
        entries(lv.take(k)).len() <= entries(lv).len(),
        entries(lv.take(k)) == entries(lv).take(entries(lv.take(k)).len() as int),
    decreases lv.len() - k,
{
    if k < lv.len() {
        lemma_entries_take(lv, k + 1);
        lemma_entries_prefix(lv, k);
        let a = entries(lv.take(k));
        let b = entries(lv.take(k + 1));
        let c = entries(lv);
        if b != a {
            assert(a == b.take(a.len() as int));
            assert(c.take(b.len() as int).take(a.len() as int) == c.take(a.len() as int));
        }
    } else {
        assert(lv.take(k) == lv);
    }
}

proof fn lemma_entries_prefix(lv: Seq<Seq<char>>, k: int)
    requires
        0 <= k < lv.len(),
    ensures
        entries(lv.take(k + 1)) == (if starts_with(lv[k], '#') {
            entries(lv.take(k))
        } else {
            entries(lv.take(k)).push((k, lv[k]))
        }),
{
    assert(lv.take(k + 1).drop_last() == lv.take(k));
    assert(lv.take(k + 1).last() == lv[k]);
}

proof fn lemma_number_lines_prefix(es: Seq<(int, Seq<char>)>, m: int, ds: u64, de: Option<u64>)
    requires
        0 <= m <= es.len(),
    ensures
        number_lines(es.take(m), ds, de).len() <= number_lines(es, ds, de).len(),
        number_lines(es.take(m), ds, de) == number_lines(es, ds, de).take(number_lines(es.take(m), ds, de).len() as int),
    decreases es.len() - m,
{
    if m < es.len() {
        lemma_number_lines_prefix(es, m + 1, ds, de);
        let a = number_lines(es.take(m), ds, de);
        let b = number_lines(es.take(m + 1), ds, de);
        let c = number_lines(es, ds, de);
        assert(es.take(m + 1).drop_last() == es.take(m));
        assert(es.take(m + 1).last() == es[m]);
        assert(b == a || b == a.push(es[m].1));
        if b == a.push(es[m].1) {
            assert(a == b.take(a.len() as int));
            assert(c.take(b.len() as int).take(a.len() as int) == c.take(a.len() as int));
        }
    } else {
        assert(es.take(m) == es);
    }
}

// ---------------------------------------------------------------------------------
// Objects.
// ---------------------------------------------------------------------------------

/// An assembled program: the block to start at, the jump table, the initial data and
/// the instructions.
pub struct Object {
    pub main_jump: u64,
    pub jumps: Vec<u64>,
    pub data: Vec<i64>,
    pub text: Vec<Instructions>,
}

pub open spec fn words_bytes(s: Seq<u64>) -> Seq<u8>
    decreases s.len(),
{
    if s.len() == 0 {
        Seq::empty()
    } else {
        words_bytes(s.drop_last()) + u64_le(s.last())
    }
}

pub open spec fn instrs_bytes(s: Seq<Instructions>) -> Seq<u8> {
    s.map_values(|i: Instructions| spec_instr_byte(i))
}

/// The bytes of an object: `"\0JOO"`, the entry block, then the jump table, the data
/// and the instructions, each after its length; all numbers in 8 little-endian bytes,
/// instructions in one byte each.
pub open spec fn spec_object_bytes(o: Object) -> Seq<u8> {
    seq![0u8, 0x4Au8, 0x4Fu8, 0x4Fu8] + u64_le(o.main_jump)
        + u64_le(o.jumps@.len() as u64) + words_bytes(o.jumps@)
        + u64_le(o.data@.len() as u64) + words_bytes(o.data@.map_values(|d: i64| d as u64))
        + u64_le(o.text@.len() as u64) + instrs_bytes(o.text@)
}

fn push_words(v: &mut Vec<u8>, s: &Vec<u64>)
    ensures
        final(v)@ == old(v)@ + words_bytes(s@),
{
    let mut i: usize = 0;
    while i < s.len()
        invariant
            0 <= i <= s.len(),
            v@ == old(v)@ + words_bytes(s@.take(i as int)),
        decreases s.len() - i,
    {
        push_u64(v, s[i]);
        proof {
            assert(s@.take(i + 1).drop_last() == s@.take(i as int));
        }
        i += 1;
    }
    proof {
        assert(s@.take(s.len() as int) == s@);
    }
}

impl Object {
    /// The object of an assembled text and its data, whose first number is the entry
    /// block; it must be one of the jump table.
    pub fn build(text: TextData, data: Vec<i64>) -> (r: Result<Object, String>)
        requires
            text.jumps.len() <= i64::MAX,
        ensures
            if data.len() < 1 || data[0] < 0 || data[0] >= text.jumps.len() {
                r matches Err(e) && e@ == "bad entry point"@
            } else {
                r matches Ok(o) && o.main_jump == data[0] && o.jumps@ == text.jumps@.map_values(|x: usize| x as u64)
                    && o.data@ == data@ && o.text@ == text.instructions@
            },
    {
        if data.len() < 1 || data[0] < 0 || data[0] >= text.jumps.len() as i64 {
            return Err("bad entry point".to_owned());
        }
        let mut jumps: Vec<u64> = Vec::new();
        let mut i: usize = 0;
        while i < text.jumps.len()
            invariant
                0 <= i <= text.jumps.len(),
                jumps@ == text.jumps@.take(i as int).map_values(|x: usize| x as u64),
            decreases text.jumps.len() - i,
        {
            jumps.push(text.jumps[i] as u64);
            proof {
                assert(text.jumps@.take(i + 1).map_values(|x: usize| x as u64)
                    =~= text.jumps@.take(i as int).map_values(|x: usize| x as u64).push(text.jumps@[i as int] as u64));
            }
            i += 1;
        }
        proof {
            assert(text.jumps@.take(text.jumps.len() as int) == text.jumps@);
        }
        let main_jump = data[0] as u64;
        Ok(Object { main_jump, jumps, data, text: text.instructions })
    }

    /// The bytes of the object.
    pub fn save(&self) -> (r: Vec<u8>)
        ensures
            r@ == spec_object_bytes(*self),
    {
        let mut b: Vec<u8> = Vec::new();
        b.push(0);
        b.push(0x4A);
        b.push(0x4F);
        b.push(0x4F);
        push_u64(&mut b, self.main_jump);
        push_u64(&mut b, self.jumps.len() as u64);
        push_words(&mut b, &self.jumps);
        push_u64(&mut b, self.data.len() as u64);
        let mut data: Vec<u64> = Vec::new();
        let mut i: usize = 0;
        while i < self.data.len()
            invariant
                0 <= i <= self.data.len(),
                data@ == self.data@.take(i as int).map_values(|d: i64| d as u64),
            decreases self.data.len() - i,
        {
            data.push(self.data[i] as u64);
            proof {
                assert(self.data@.take(i + 1).map_values(|d: i64| d as u64)
                    =~= self.data@.take(i as int).map_values(|d: i64| d as u64).push(self.data@[i as int] as u64));
            }
            i += 1;
        }
        proof {
            assert(self.data@.take(self.data.len() as int) == self.data@);
        }
        push_words(&mut b, &data);
        push_u64(&mut b, self.text.len() as u64);
        let ghost head = b@;
        let mut i: usize = 0;
        while i < self.text.len()
            invariant
                0 <= i <= self.text.len(),
                b@ == head + instrs_bytes(self.text@.take(i as int)),
            decreases self.text.len() - i,
        {
            b.push(self.text[i].to_u8());
            proof {
                assert(instrs_bytes(self.text@.take(i + 1)) =~= instrs_bytes(self.text@.take(i as int)).push(spec_instr_byte(self.text@[i as int])));
            }
            i += 1;
        }
        proof {
            assert(self.text@.take(self.text.len() as int) == self.text@);
            assert(b@ =~= spec_object_bytes(*self));
        }
        b
    }
}


/// A function the tape machine can call: whether it returns a value and how many
/// arguments it takes.
pub trait JolangExtern {
    fn has_return() -> bool;
    fn arg_count() -> u8;
}

/// The blocks of a text cut at the jump table's entries after the first. The entries
/// are instruction indices, so the block that starts at index `off` ends at the next
/// entry; `None` where an entry goes back or past the end of the text.
pub open spec fn spec_split_blocks(text: Seq<Instructions>, js: Seq<u64>, off: nat) -> Option<Seq<Seq<Instructions>>>
    decreases js.len(),
{
    if js.len() == 0 {
        Some(seq![text])
    } else if js[0] < off || js[0] - off > text.len() {
        None
    } else {
        let k = (js[0] - off) as int;
        match spec_split_blocks(text.skip(k), js.drop_first(), js[0] as nat) {
            None => None,
            Some(rest) => Some(seq![text.take(k)] + rest),
        }
    }
}

/// Cuts the instructions of an object into blocks at its jump table, for the runtime.
pub fn split_blocks(text: Vec<Instructions>, jumps: &Vec<u64>) -> (r: Vec<Vec<Instructions>>)
    requires
        jumps.len() >= 1,
        spec_split_blocks(text@, jumps@.drop_first(), 0) is Some,
    ensures
        r@.map_values(|b: Vec<Instructions>| b@) == spec_split_blocks(text@, jumps@.drop_first(), 0)->0,
{
    let ghost all = spec_split_blocks(text@, jumps@.drop_first(), 0)->0;
    let mut blocks: Vec<Vec<Instructions>> = Vec::new();
    let mut block_offset: usize = 0;
    let ghost tl = text.len();
    let mut current = text;
    let mut i: usize = 1;
    while i < jumps.len()
        invariant
            1 <= i <= jumps.len(),
            block_offset + current.len() == tl,
            spec_split_blocks(current@, jumps@.skip(i as int), block_offset as nat) is Some,
            all == blocks@.map_values(|b: Vec<Instructions>| b@) + spec_split_blocks(current@, jumps@.skip(i as int), block_offset as nat)->0,
        decreases jumps.len() - i,
    {
        let ghost js = jumps@.skip(i as int);
        proof {
            assert(js[0] == jumps@[i as int]);
            assert(js.drop_first() == jumps@.skip(i + 1));
            assert(jumps@[i as int] - block_offset <= current.len());
        }
        let jump = jumps[i];
        let next = current.split_off((jump - block_offset as u64) as usize);
        block_offset = jump as usize;
        let ghost before = blocks@.map_values(|b: Vec<Instructions>| b@);
        blocks.push(current);
        proof {
            assert(blocks@.map_values(|b: Vec<Instructions>| b@) =~= before.push(current@));
        }
        current = next;
        i += 1;
    }
    proof {
        assert(jumps@.skip(i as int).len() == 0);
    }
    let ghost before = blocks@.map_values(|b: Vec<Instructions>| b@);
    blocks.push(current);
    proof {
        assert(blocks@.map_values(|b: Vec<Instructions>| b@) =~= before.push(current@));
    }
    blocks
}

} // verus!
