//! The state of code generation: the blocks being written, with the sizes of the values
//! on their stacks, the block and place where the next instruction goes, the external
//! functions and the scopes of variables.

use vstd::prelude::*;
use crate::ir::{ext_view, spec_opcode, BlkId, Block, ExtV, FnId, Instruction, IrExternalFn, IrObject, Opcodes, Signature};
use crate::scope::{spec_declare, spec_lookup, spec_move, spec_numbered, Scope, ScopeV, VarType, Variable};
use crate::text::str_to_chars;

verus! {

/// The size of a variable of type `t`.
pub open spec fn type_size(t: VarType) -> u64 {
    match t {
        VarType::SignedInt(s) => s,
        VarType::UnsignedInt(s) => s,
    }
}

/// `st` without its `n` top entries (empty where it holds fewer).
pub open spec fn popn(st: Seq<u64>, n: nat) -> Seq<u64> {
    if n <= st.len() {
        st.take(st.len() - n)
    } else {
        Seq::empty()
    }
}

/// Whether the external function `f` returns a value.
pub open spec fn returns_value(f: ExtV) -> bool {
    f.ret != "void"@
}

/// The sizes on a block's stack after `i`, from the stack effects of the instruction
/// table: a size operand is the size of the value pushed, a comparison pushes a byte,
/// `varref` a reference (size 0), and a call to a function that returns a value pushes
/// a 64-bit integer (8 bytes). A call to an undeclared function changes nothing.
pub open spec fn spec_stack_after(st: Seq<u64>, i: Instruction, ext: Seq<ExtV>) -> Seq<u64> {
    match i {
        Instruction::Nop() | Instruction::Br(_) => st,
        Instruction::Pop(_) | Instruction::Briz(_, _) | Instruction::Iret(_) => popn(st, 1),
        Instruction::Dup(s) | Instruction::Iconst(s, _) => st.push(s as u64),
        Instruction::Swap(_) => if st.len() >= 2 {
            st.take(st.len() - 2).push(st[st.len() - 1]).push(st[st.len() - 2])
        } else {
            Seq::empty()
        },
        Instruction::Call(f) => if f < ext.len() {
            let p = popn(st, ext[f as int].args.len());
            if returns_value(ext[f as int]) { p.push(8) } else { p }
        } else {
            st
        },
        Instruction::Varref() => popn(st, 1).push(0),
        Instruction::Iload(s) | Instruction::Inot(s) | Instruction::Ineg(s) => popn(st, 1).push(s as u64),
        Instruction::Istore(_) => popn(st, 2),
        Instruction::Ior(s) | Instruction::Iand(s) | Instruction::Ixor(s) | Instruction::Ilshr(s)
        | Instruction::Iashr(s) | Instruction::Ishl(s) | Instruction::Iadd(s) | Instruction::Isub(s)
        | Instruction::Imul(s) | Instruction::Idiv(s) | Instruction::Udiv(s) | Instruction::Irem(s)
        | Instruction::Urem(s) => popn(st, 2).push(s as u64),
        Instruction::Ieq(_) | Instruction::Ine(_) | Instruction::Ige(_) | Instruction::Igt(_)
        | Instruction::Uge(_) | Instruction::Ugt(_) | Instruction::Ilt(_) | Instruction::Ile(_)
        | Instruction::Ule(_) | Instruction::Ult(_) => popn(st, 2).push(1),
        Instruction::Iconv(_, t) | Instruction::Uconv(_, t) => popn(st, 1).push(t as u64),
    }
}

/// How many values an instruction of opcode `o` takes off the stack and how many it
/// puts on it, as the "effect on stack" column of the instruction table shows (a call's
/// depend on the function called, and are left out).
pub open spec fn table_effect(o: Opcodes) -> (nat, nat) {
    match o {
        Opcodes::Nop | Opcodes::Br | Opcodes::Call => (0, 0),
        Opcodes::Pop | Opcodes::Briz | Opcodes::Iret => (1, 0),
        Opcodes::Dup => (1, 2),
        Opcodes::Swap => (2, 2),
        Opcodes::Varref | Opcodes::Iload | Opcodes::Inot | Opcodes::Ineg
        | Opcodes::Iconv | Opcodes::Uconv => (1, 1),
        Opcodes::Iconst => (0, 1),
        Opcodes::Istore => (2, 0),
        _ => (2, 1),
    }
}

/// The size of the value an instruction leaves on top of the stack, when it leaves
/// one: a comparison a byte, `varref` a reference, a conversion its target size, a
/// swap the value that was second, and the others the size they operate on.
pub open spec fn pushed_size(i: Instruction, st: Seq<u64>) -> u64 {
    match i {
        Instruction::Ieq(_) | Instruction::Ine(_) | Instruction::Ige(_) | Instruction::Igt(_)
        | Instruction::Uge(_) | Instruction::Ugt(_) | Instruction::Ilt(_) | Instruction::Ile(_)
        | Instruction::Ule(_) | Instruction::Ult(_) => 1,
        Instruction::Varref() => 0,
        Instruction::Iconv(_, t) | Instruction::Uconv(_, t) => t as u64,
        Instruction::Swap(_) => st[st.len() - 2],
        Instruction::Pop(s) | Instruction::Dup(s) | Instruction::Iconst(s, _) | Instruction::Iload(s)
        | Instruction::Istore(s) | Instruction::Iret(s) | Instruction::Inot(s) | Instruction::Ior(s)
        | Instruction::Iand(s) | Instruction::Ixor(s) | Instruction::Ilshr(s) | Instruction::Iashr(s)
        | Instruction::Ishl(s) | Instruction::Ineg(s) | Instruction::Iadd(s) | Instruction::Isub(s)
        | Instruction::Imul(s) | Instruction::Idiv(s) | Instruction::Udiv(s) | Instruction::Irem(s)
        | Instruction::Urem(s) => s as u64,
        _ => 0,
    }
}

/// On a stack that holds the values an instruction takes, the instruction removes
/// exactly that many from the top, leaves those below as they were, and puts exactly as
/// many on it as the instruction table says, the top one of the size it works on: so
/// `iadd`, `isub`, `imul`, ... turn two values into one, and a comparison two values
/// into a byte.
pub proof fn lemma_stack_effect(st: Seq<u64>, i: Instruction, ext: Seq<ExtV>)
    requires
        !(i is Call),
        st.len() >= table_effect(spec_opcode(i)).0,
    ensures
        ({
            let (p, q) = table_effect(spec_opcode(i));
            let after = spec_stack_after(st, i, ext);
            &&& after.len() == st.len() - p + q
            &&& after.take(st.len() - p) == st.take(st.len() - p)
            &&& q > 0 ==> after.last() == pushed_size(i, st)
        }),
{
    let (p, q) = table_effect(spec_opcode(i));
    let after = spec_stack_after(st, i, ext);
    assert(after.take(st.len() - p) =~= st.take(st.len() - p));
}

/// A call takes the function's arguments off the stack, leaves those below as they
/// were, and puts a 64-bit value (8 bytes) on it exactly where the function returns one.
pub proof fn lemma_call_effect(st: Seq<u64>, f: FnId, ext: Seq<ExtV>)
    requires
        f < ext.len(),
        st.len() >= ext[f as int].args.len(),
    ensures
        ({
            let n = ext[f as int].args.len();
            let after = spec_stack_after(st, Instruction::Call(f), ext);
            &&& after.take(st.len() - n) == st.take(st.len() - n)
            &&& returns_value(ext[f as int]) ==> after.len() == st.len() - n + 1 && after.last() == 8
            &&& !returns_value(ext[f as int]) ==> after.len() == st.len() - n
        }),
{
    let n = ext[f as int].args.len();
    let after = spec_stack_after(st, Instruction::Call(f), ext);
    assert(after.take(st.len() - n) =~= st.take(st.len() - n));
}

/// An instruction that leaves its block: after it nothing more is written there.
pub open spec fn is_terminator(i: Instruction) -> bool {
    i is Br || i is Briz || i is Iret
}

/// Whether `s` is `"void"`.
fn is_void(s: &String) -> (r: bool)
    ensures
        r == (s@ == "void"@),
{
    let cs = str_to_chars(s.as_str());
    proof {
        reveal_strlit("void");
    }
    if cs.len() != 4 {
        return false;
    }
    let r = cs[0] == 'v' && cs[1] == 'o' && cs[2] == 'i' && cs[3] == 'd';
    proof {
        if r {
            assert(s@ =~= "void"@);
        } else {
            if s@ == "void"@ {
                assert(s@[0] == 'v' && s@[1] == 'o' && s@[2] == 'i' && s@[3] == 'd');
            }
        }
    }
    r
}

/// Pops up to `n` entries off `st`.
fn pop_n(st: &mut Vec<u64>, n: usize)
    ensures
        final(st)@ == popn(old(st)@, n as nat),
{
    let mut k: usize = 0;
    while k < n
        invariant
            0 <= k <= n,
            st@ == popn(old(st)@, k as nat),
        decreases n - k,
    {
        let ghost before = st@;
        let _ = st.pop();
        proof {
            if k + 1 <= old(st)@.len() {
                assert(st@ =~= popn(old(st)@, (k + 1) as nat));
            } else {
                assert(st@ =~= popn(old(st)@, (k + 1) as nat));
            }
        }
        k += 1;
    }
}

/// Applies the stack effect of `i` to the sizes `st`.
fn apply_stack(st: &mut Vec<u64>, i: Instruction, ext: &Vec<IrExternalFn>)
    ensures
        final(st)@ == spec_stack_after(old(st)@, i, ext@.map_values(|f: IrExternalFn| ext_view(f))),
{
    let ghost ev = ext@.map_values(|f: IrExternalFn| ext_view(f));
    match i {
        Instruction::Nop() | Instruction::Br(_) => {},
        Instruction::Pop(_) | Instruction::Briz(_, _) | Instruction::Iret(_) => {
            pop_n(st, 1);
        },
        Instruction::Dup(s) | Instruction::Iconst(s, _) => {
            st.push(s as u64);
        },
        Instruction::Swap(_) => {
            if st.len() >= 2 {
                let a = st.pop().unwrap();
                let b = st.pop().unwrap();
                st.push(a);
                st.push(b);
                proof {
                    assert(st@ =~= old(st)@.take(old(st)@.len() - 2).push(old(st)@[old(st)@.len() - 1]).push(old(st)@[old(st)@.len() - 2]));
                }
            } else {
                st.clear();
                assert(st@ =~= Seq::<u64>::empty());
            }
        },
        Instruction::Call(f) => {
            if (f as usize) < ext.len() {
                let argc = ext[f as usize].sig.args.len();
                proof {
                    assert(ev[f as int] == ext_view(ext@[f as int]));
                }
                pop_n(st, argc);
                if !is_void(&ext[f as usize].sig.ret) {
                    st.push(8);
                }
            }
        },
        Instruction::Varref() => {
            pop_n(st, 1);
            st.push(0);
        },
        Instruction::Iload(s) | Instruction::Inot(s) | Instruction::Ineg(s) => {
            pop_n(st, 1);
            st.push(s as u64);
        },
        Instruction::Istore(_) => {
            pop_n(st, 2);
        },
        Instruction::Ior(s) | Instruction::Iand(s) | Instruction::Ixor(s) | Instruction::Ilshr(s)
        | Instruction::Iashr(s) | Instruction::Ishl(s) | Instruction::Iadd(s) | Instruction::Isub(s)
        | Instruction::Imul(s) | Instruction::Idiv(s) | Instruction::Udiv(s) | Instruction::Irem(s)
        | Instruction::Urem(s) => {
            pop_n(st, 2);
            st.push(s as u64);
        },
        Instruction::Ieq(_) | Instruction::Ine(_) | Instruction::Ige(_) | Instruction::Igt(_)
        | Instruction::Uge(_) | Instruction::Ugt(_) | Instruction::Ilt(_) | Instruction::Ile(_)
        | Instruction::Ule(_) | Instruction::Ult(_) => {
            pop_n(st, 2);
            st.push(1);
        },
        Instruction::Iconv(_, t) | Instruction::Uconv(_, t) => {
            pop_n(st, 1);
            st.push(t as u64);
        },
    }
}


/// A block being written: the sizes of its arguments, its instructions, and the sizes
/// of the values on its stack after the last of them.
pub struct GenBlock {
    pub args: Vec<u64>,
    pub instructions: Vec<Instruction>,
    pub stack_types: Vec<u64>,
}

/// What a block being written is.
pub struct GenBlockV {
    pub args: Seq<u64>,
    pub instrs: Seq<Instruction>,
    pub stack: Seq<u64>,
}

impl View for GenBlock {
    type V = GenBlockV;

    open spec fn view(&self) -> GenBlockV {
        GenBlockV { args: self.args@, instrs: self.instructions@, stack: self.stack_types@ }
    }
}

/// What a generator is: its blocks, its external functions, the block being written
/// and the place in it where the next instruction goes, and its scopes, the innermost
/// last.
pub struct GenV {
    pub blocks: Seq<GenBlockV>,
    pub ext_fn: Seq<ExtV>,
    pub current: Option<BlkId>,
    pub pos: nat,
    pub scopes: Seq<ScopeV>,
}

/// The generator's state.
pub struct IrGenerator {
    blocks: Vec<GenBlock>,
    ext_fn: Vec<IrExternalFn>,
    current_block: Option<BlkId>,
    current_pos: usize,
    scopes: Vec<Scope>,
}

impl View for IrGenerator {
    type V = GenV;

    closed spec fn view(&self) -> GenV {
        GenV {
            blocks: self.blocks@.map_values(|b: GenBlock| b@),
            ext_fn: self.ext_fn@.map_values(|f: IrExternalFn| ext_view(f)),
            current: self.current_block,
            pos: self.current_pos as nat,
            scopes: self.scopes@.map_values(|s: Scope| s@),
        }
    }
}

/// Whether `v` is writing into one of its blocks.
pub open spec fn writing(v: GenV) -> bool {
    v.current matches Some(b) && b < v.blocks.len()
}

/// The sizes of the variables of the scopes `s`, the innermost (last) scope first, each
/// scope's variables in the order of their declarations.
pub open spec fn spec_var_sizes(s: Seq<ScopeV>) -> Seq<u64>
    decreases s.len(),
{
    if s.len() == 0 {
        Seq::empty()
    } else {
        spec_var_sizes(s.drop_first()) + s[0].entries.map_values(|e: (Seq<char>, Variable)| type_size(e.1._type))
    }
}

/// The innermost scope of `s` that declares `name`.
pub open spec fn spec_scope_of(s: Seq<ScopeV>, name: Seq<char>) -> Option<int>
    decreases s.len(),
{
    if s.len() == 0 {
        None
    } else if spec_lookup(s.last().entries, name) is Some {
        Some(s.len() - 1)
    } else {
        spec_scope_of(s.drop_last(), name)
    }
}

/// The variable `name` as the innermost scope that declares it holds it.
pub open spec fn spec_find_var(s: Seq<ScopeV>, name: Seq<char>) -> Option<Variable> {
    match spec_scope_of(s, name) {
        Some(j) => spec_lookup(s[j].entries, name),
        None => None,
    }
}

/// The place of the top of the stack of the block being written (0 where none is).
pub open spec fn spec_top(v: GenV) -> u64 {
    if writing(v) {
        (v.blocks[v.current->0 as int].stack.len() - 1) as u64
    } else {
        0
    }
}

/// The generator after adding `i` where the next instruction goes: in the block being
/// written, `i` is inserted at the place and its stack effect applied, and the place
/// moves past it; after an instruction that leaves the block, no block is written.
pub open spec fn spec_add(v: GenV, i: Instruction) -> GenV {
    let after = if is_terminator(i) {
        GenV { current: None, pos: 0, ..v }
    } else if writing(v) {
        GenV { pos: v.pos + 1, ..v }
    } else {
        v
    };
    if writing(v) {
        let b = v.current->0 as int;
        let blk = v.blocks[b];
        GenV {
            blocks: v.blocks.update(b, GenBlockV {
                args: blk.args,
                instrs: blk.instrs.insert(v.pos as int, i),
                stack: spec_stack_after(blk.stack, i, v.ext_fn),
            }),
            ..after
        }
    } else {
        after
    }
}

impl IrGenerator {
    /// The generator is consistent: the place is within the block being written (and
    /// 0 where none is), and there are no more blocks and external functions than identifiers.
    pub open spec fn wf(&self) -> bool {
        let v = self@;
        &&& v.blocks.len() <= u32::MAX
        &&& v.ext_fn.len() <= u32::MAX
        &&& writing(v) ==> v.pos <= v.blocks[v.current->0 as int].instrs.len()
        &&& !writing(v) ==> v.pos == 0
    }

    /// A generator with no block, no external function and no scope.
    pub fn new() -> (r: Self)
        ensures
            r.wf(),
            r@.blocks.len() == 0,
            r@.ext_fn.len() == 0,
            r@.current is None,
            r@.pos == 0,
            r@.scopes.len() == 0,
    {
        IrGenerator { blocks: Vec::new(), ext_fn: Vec::new(), current_block: None, current_pos: 0, scopes: Vec::new() }
    }

    /// The block being written, if any.
    pub fn current_block(&self) -> (r: Option<BlkId>)
        ensures
            r == self@.current,
    {
        self.current_block
    }

    /// The blocks, as written so far.
    pub fn blocks(&self) -> (r: &Vec<GenBlock>)
        ensures
            r@.map_values(|b: GenBlock| b@) == self@.blocks,
    {
        &self.blocks
    }

    /// The external functions declared so far.
    pub fn get_externs(&self) -> (r: &Vec<IrExternalFn>)
        ensures
            r@.map_values(|f: IrExternalFn| ext_view(f)) == self@.ext_fn,
    {
        &self.ext_fn
    }

    /// The scopes, the innermost last.
    pub fn get_scopes(&self) -> (r: &Vec<Scope>)
        ensures
            r@.map_values(|s: Scope| s@) == self@.scopes,
    {
        &self.scopes
    }

    /// The number of values on the stack of the block being written.
    pub fn stack_size(&self) -> (r: Option<u64>)
        ensures
            r == (if writing(self@) { Some(self@.blocks[self@.current->0 as int].stack.len() as u64) } else { None::<u64> }),
    {
        match self.current_block {
            Some(b) => if (b as usize) < self.blocks.len() {
                Some(self.blocks[b as usize].stack_types.len() as u64)
            } else {
                None
            },
            None => None,
        }
    }

    /// The sizes of the variables of all scopes, the innermost scope first.
    pub fn var_sizes(&self) -> (r: Vec<u64>)
        ensures
            r@ == spec_var_sizes(self@.scopes),
    {
        let ghost sv = self@.scopes;
        let mut r: Vec<u64> = Vec::new();
        let mut j: usize = self.scopes.len();
        while j > 0
            invariant
                0 <= j <= self.scopes.len(),
                sv == self.scopes@.map_values(|s: Scope| s@),
                r@ == spec_var_sizes(sv.skip(j as int)),
            decreases j,
        {
            let ts = self.scopes[j - 1].var_types();
            let ghost before = r@;
            let mut k: usize = 0;
            while k < ts.len()
                invariant
                    0 <= k <= ts.len(),
                    r@ == before + ts@.take(k as int).map_values(|t: VarType| type_size(t)),
                decreases ts.len() - k,
            {
                let sz = match ts[k] {
                    VarType::SignedInt(s) => s,
                    VarType::UnsignedInt(s) => s,
                };
                r.push(sz);
                proof {
                    assert(ts@.take(k + 1).map_values(|t: VarType| type_size(t))
                        =~= ts@.take(k as int).map_values(|t: VarType| type_size(t)).push(type_size(ts@[k as int])));
                }
                k += 1;
            }
            proof {
                let s1 = sv.skip(j - 1);
                assert(s1.drop_first() =~= sv.skip(j as int));
                assert(s1[0] == self.scopes@[j - 1]@);
                assert(ts@.take(ts.len() as int) == ts@);
                assert(ts@.map_values(|t: VarType| type_size(t))
                    =~= s1[0].entries.map_values(|e: (Seq<char>, Variable)| type_size(e.1._type)));
            }
            j -= 1;
        }
        proof {
            assert(sv.skip(0) == sv);
        }
        r
    }

    /// Adds a block whose arguments are the variables of all scopes, innermost scope
    /// first, and whose stack holds them; returns its identifier.
    pub fn append_block(&mut self) -> (r: BlkId)
        requires
            old(self).wf(),
            old(self)@.blocks.len() < u32::MAX,
        ensures
            final(self).wf(),
            final(self)@ == (GenV {
                blocks: old(self)@.blocks.push(GenBlockV {
                    args: spec_var_sizes(old(self)@.scopes),
                    instrs: Seq::empty(),
                    stack: spec_var_sizes(old(self)@.scopes),
                }),
                ..old(self)@
            }),
            r == old(self)@.blocks.len(),
    {
        let args = self.var_sizes();
        let stack = self.var_sizes();
        let b = GenBlock { args, instructions: Vec::new(), stack_types: stack };
        self.blocks.push(b);
        proof {
            assert(self@.blocks =~= old(self)@.blocks.push(b@));
            assert(b@.instrs =~= Seq::<Instruction>::empty());
        }
        (self.blocks.len() - 1) as BlkId
    }

    /// Writes into `block` from its beginning: after its first instruction where it
    /// has one.
    pub fn goto_begin(&mut self, block: BlkId)
        requires
            old(self).wf(),
        ensures
            final(self).wf(),
            final(self)@ == (GenV {
                current: Some(block),
                pos: if block < old(self)@.blocks.len() && old(self)@.blocks[block as int].instrs.len() > 0 { 1 } else { 0 },
                ..old(self)@
            }),
    {
        self.current_block = Some(block);
        if (block as usize) < self.blocks.len() && self.blocks[block as usize].instructions.len() > 0 {
            self.current_pos = 1;
        } else {
            self.current_pos = 0;
        }
    }

    /// Writes into `block` after its last instruction.
    pub fn goto_end(&mut self, block: BlkId)
        requires
            old(self).wf(),
        ensures
            final(self).wf(),
            final(self)@ == (GenV {
                current: Some(block),
                pos: if block < old(self)@.blocks.len() { old(self)@.blocks[block as int].instrs.len() } else { 0 },
                ..old(self)@
            }),
    {
        self.current_block = Some(block);
        if (block as usize) < self.blocks.len() {
            self.current_pos = self.blocks[block as usize].instructions.len();
        } else {
            self.current_pos = 0;
        }
    }

    /// Adds `i` where the next instruction goes, and returns the index it takes in its
    /// block; `None` where no block is being written.
    pub fn add(&mut self, i: Instruction) -> (r: Option<usize>)
        requires
            old(self).wf(),
        ensures
            final(self).wf(),
            final(self)@ == spec_add(old(self)@, i),
            match r {
                Some(k) => writing(old(self)@) && k == old(self)@.pos,
                None => !writing(old(self)@),
            },
    {
        let ghost v = self@;
        let mut r: Option<usize> = None;
        match self.current_block {
            Some(b) => {
                if (b as usize) < self.blocks.len() {
                    let pos = self.current_pos;
                    let mut blk = self.blocks.remove(b as usize);
                    blk.instructions.insert(pos, i);
                    assert(pos < blk.instructions.len());
                    apply_stack(&mut blk.stack_types, i, &self.ext_fn);
                    self.blocks.insert(b as usize, blk);
                    self.current_pos = pos + 1;
                    r = Some(pos);
                    proof {
                        let ob = v.blocks[b as int];
                        assert(blk@ == GenBlockV {
                            args: ob.args,
                            instrs: ob.instrs.insert(v.pos as int, i),
                            stack: spec_stack_after(ob.stack, i, v.ext_fn),
                        });
                        assert(self@.blocks =~= v.blocks.update(b as int, blk@));
                    }
                }
            },
            None => {},
        }
        if is_terminator_exec(i) {
            self.current_block = None;
            self.current_pos = 0;
        }
        r
    }

    /// Enters `scope`, which becomes the innermost.
    pub fn enter_scope(&mut self, scope: Scope)
        requires
            old(self).wf(),
        ensures
            final(self).wf(),
            final(self)@ == (GenV { scopes: old(self)@.scopes.push(scope@), ..old(self)@ }),
    {
        self.scopes.push(scope);
        proof {
            assert(self@.scopes =~= old(self)@.scopes.push(scope@));
        }
    }

    /// Leaves the innermost scope, if there is one.
    pub fn exit_scope(&mut self)
        requires
            old(self).wf(),
        ensures
            final(self).wf(),
            final(self)@ == (GenV {
                scopes: if old(self)@.scopes.len() > 0 { old(self)@.scopes.drop_last() } else { old(self)@.scopes },
                ..old(self)@
            }),
    {
        let _ = self.scopes.pop();
        proof {
            assert(self@.scopes =~= (if old(self)@.scopes.len() > 0 { old(self)@.scopes.drop_last() } else { old(self)@.scopes }));
        }
    }

    /// Declares the external function `name` with signature `sig`; returns its
    /// identifier.
    pub fn decl_extern(&mut self, name: String, sig: Signature) -> (r: FnId)
        requires
            old(self).wf(),
            old(self)@.ext_fn.len() < u32::MAX,
        ensures
            final(self).wf(),
            final(self)@ == (GenV {
                ext_fn: old(self)@.ext_fn.push(ext_view(IrExternalFn { name, sig })),
                ..old(self)@
            }),
            r == old(self)@.ext_fn.len(),
    {
        let f = IrExternalFn::new(name, sig);
        self.ext_fn.push(f);
        proof {
            assert(self@.ext_fn =~= old(self)@.ext_fn.push(ext_view(f)));
        }
        (self.ext_fn.len() - 1) as FnId
    }

    /// The object written: the instructions of each block and the external functions.
    pub fn into_ir(self) -> (r: IrObject)
        ensures
            r@.blocks == self@.blocks.map_values(|b: GenBlockV| b.instrs),
            r@.ext_fn == self@.ext_fn,
            r@.local_vars.len() == 0,
    {
        let ghost v = self@;
        let IrGenerator { blocks, ext_fn, current_block: _, current_pos: _, scopes: _ } = self;
        let mut out: Vec<Block> = Vec::new();
        let mut j: usize = 0;
        while j < blocks.len()
            invariant
                0 <= j <= blocks.len(),
                v.blocks == blocks@.map_values(|b: GenBlock| b@),
                out@.map_values(|b: Block| b@) == v.blocks.take(j as int).map_values(|b: GenBlockV| b.instrs),
            decreases blocks.len() - j,
        {
            let b = Block::from_vec(&blocks[j].instructions);
            let ghost before = out@.map_values(|b: Block| b@);
            out.push(b);
            proof {
                assert(out@.map_values(|b: Block| b@) =~= before.push(b@));
                assert(v.blocks.take(j + 1).map_values(|b: GenBlockV| b.instrs)
                    =~= v.blocks.take(j as int).map_values(|b: GenBlockV| b.instrs).push(v.blocks[j as int].instrs));
            }
            j += 1;
        }
        proof {
            assert(v.blocks.take(blocks.len() as int) == v.blocks);
        }
        IrObject { ext_fn, blocks: out, local_vars: Vec::new() }
    }
}

/// The scope that `spec_scope_of` finds is one of `s`, and declares `name`.
proof fn lemma_scope_of(s: Seq<ScopeV>, name: Seq<char>)
    ensures
        spec_scope_of(s, name) matches Some(j) ==> 0 <= j < s.len() && spec_lookup(s[j].entries, name) is Some,
    decreases s.len(),
{
    if s.len() > 0 && spec_lookup(s.last().entries, name) is None {
        lemma_scope_of(s.drop_last(), name);
    }
}

impl IrGenerator {
    /// The index of the innermost scope that declares `name`.
    fn find_scope(&self, name: &String) -> (r: Option<usize>)
        ensures
            match r {
                Some(j) => spec_scope_of(self@.scopes, name@) == Some(j as int),
                None => spec_scope_of(self@.scopes, name@) is None,
            },
    {
        let ghost sv = self@.scopes;
        let mut j: usize = self.scopes.len();
        proof {
            assert(sv.take(j as int) == sv);
        }
        while j > 0
            invariant
                0 <= j <= self.scopes.len(),
                sv == self.scopes@.map_values(|s: Scope| s@),
                spec_scope_of(sv.take(j as int), name@) == spec_scope_of(sv, name@),
            decreases j,
        {
            let found = self.scopes[j - 1].get_var_offset(name).is_some();
            proof {
                let t = sv.take(j as int);
                assert(t.last() == self.scopes@[j - 1]@);
                assert(t.drop_last() =~= sv.take(j - 1));
            }
            if found {
                return Some(j - 1);
            }
            j -= 1;
        }
        None
    }

    /// Where the variable `name` stands, as the innermost scope that declares it says.
    pub fn get_var_offset(&self, name: &String) -> (r: Option<u64>)
        ensures
            r == match spec_find_var(self@.scopes, name@) {
                Some(v) => Some(v.pos),
                None => None::<u64>,
            },
    {
        proof {
            lemma_scope_of(self@.scopes, name@);
        }
        match self.find_scope(name) {
            Some(j) => {
                assert(self.scopes@[j as int]@ == self@.scopes[j as int]);
                assert(spec_find_var(self@.scopes, name@) == spec_lookup(self@.scopes[j as int].entries, name@));
                self.scopes[j].get_var_offset(name)
            },
            None => None,
        }
    }

    /// The size of the variable `name`, as the innermost scope that declares it says.
    pub fn get_var_size(&self, name: &String) -> (r: Option<u64>)
        ensures
            r == match spec_find_var(self@.scopes, name@) {
                Some(v) => Some(type_size(v._type)),
                None => None::<u64>,
            },
    {
        proof {
            lemma_scope_of(self@.scopes, name@);
        }
        match self.find_scope(name) {
            Some(j) => match {
                assert(self.scopes@[j as int]@ == self@.scopes[j as int]);
                self.scopes[j].get_var_type(name)
            } {
                Some(VarType::SignedInt(s)) => Some(s),
                Some(VarType::UnsignedInt(s)) => Some(s),
                None => None,
            },
            None => None,
        }
    }

    /// The place of the top of the stack of the block being written (0 where none is).
    fn top(&self) -> (r: u64)
        requires
            writing(self@) ==> self@.blocks[self@.current->0 as int].stack.len() > 0,
        ensures
            r == spec_top(self@),
    {
        match self.current_block {
            Some(b) => if (b as usize) < self.blocks.len() {
                (self.blocks[b as usize].stack_types.len() - 1) as u64
            } else {
                0
            },
            None => 0,
        }
    }

    /// Declares `name`, a variable of `size`, in the innermost scope, at the top of the
    /// stack of the block being written (at 0 where none is); returns that place.
    pub fn decl_var(&mut self, name: String, size: u64) -> (r: u64)
        requires
            old(self).wf(),
            writing(old(self)@) ==> old(self)@.blocks[old(self)@.current->0 as int].stack.len() > 0,
        ensures
            final(self).wf(),
            r == spec_top(old(self)@),
            final(self)@ == (GenV {
                scopes: if old(self)@.scopes.len() > 0 {
                    old(self)@.scopes.update(old(self)@.scopes.len() - 1, ScopeV {
                        entries: spec_declare(old(self)@.scopes.last().entries, name@, Variable { pos: r, _type: VarType::SignedInt(size) }),
                        ..old(self)@.scopes.last()
                    })
                } else {
                    old(self)@.scopes
                },
                ..old(self)@
            }),
    {
        let offset = self.top();
        if self.scopes.len() > 0 {
            let ghost n = name@;
            let mut s = self.scopes.pop().unwrap();
            s.decl_var(name, offset, VarType::SignedInt(size));
            self.scopes.push(s);
            proof {
                assert(self@.scopes =~= old(self)@.scopes.update(old(self)@.scopes.len() - 1, s@));
            }
        }
        offset
    }

    /// Moves the variable `name`, in the innermost scope that declares it, to the top of
    /// the stack of the block being written; returns that place.
    pub fn update_var(&mut self, name: &String) -> (r: u64)
        requires
            old(self).wf(),
            writing(old(self)@),
            old(self)@.blocks[old(self)@.current->0 as int].stack.len() > 0,
            spec_scope_of(old(self)@.scopes, name@) is Some,
        ensures
            final(self).wf(),
            r == spec_top(old(self)@),
            final(self)@ == (GenV {
                scopes: old(self)@.scopes.update(spec_scope_of(old(self)@.scopes, name@)->0, ScopeV {
                    entries: spec_move(old(self)@.scopes[spec_scope_of(old(self)@.scopes, name@)->0].entries, name@, r),
                    ..old(self)@.scopes[spec_scope_of(old(self)@.scopes, name@)->0]
                }),
                ..old(self)@
            }),
    {
        proof {
            lemma_scope_of(self@.scopes, name@);
        }
        let offset = self.top();
        let j = self.find_scope(name).unwrap();
        let mut s = self.scopes.remove(j);
        proof {
            assert(s@ == old(self)@.scopes[j as int]);
            assert(s.entries() == old(self)@.scopes[j as int].entries);
        }
        s.update_var(name, offset);
        self.scopes.insert(j, s);
        proof {
            assert(self@.scopes =~= old(self)@.scopes.update(j as int, s@));
        }
        offset
    }
}

/// The number of variables declared in the scopes `s`.
pub open spec fn var_count(s: Seq<ScopeV>) -> nat
    decreases s.len(),
{
    if s.len() == 0 {
        0
    } else {
        s[0].entries.len() + var_count(s.drop_first())
    }
}

/// The scopes `s` with their variables placed in order from 0, the innermost (last)
/// scope's first, as the arguments of a new block hold them.
pub open spec fn spec_receive(s: Seq<ScopeV>) -> Seq<ScopeV> {
    Seq::new(s.len(), |k: int| ScopeV { entries: spec_numbered(s[k].entries, var_count(s.skip(k + 1))), ..s[k] })
}

proof fn lemma_var_count_skip(s: Seq<ScopeV>, i: int)
    requires
        0 <= i <= s.len(),
    ensures
        var_count(s.skip(i)) <= var_count(s),
    decreases i,
{
    if i > 0 {
        lemma_var_count_skip(s, i - 1);
        assert(s.skip(i - 1).drop_first() =~= s.skip(i));
    } else {
        assert(s.skip(0) =~= s);
    }
}

impl IrGenerator {
    /// Places the variables of all scopes at the start of the stack of a block that
    /// received them as arguments: from 0, the innermost scope's first.
    pub fn recive_vars(&mut self)
        requires
            old(self).wf(),
            var_count(old(self)@.scopes) <= u64::MAX,
        ensures
            final(self).wf(),
            final(self)@ == (GenV { scopes: spec_receive(old(self)@.scopes), ..old(self)@ }),
    {
        let ghost sv = self@.scopes;
        let mut pos: u64 = 0;
        let mut j: usize = self.scopes.len();
        proof {
            assert(sv.skip(j as int) =~= Seq::<ScopeV>::empty());
        }
        while j > 0
            invariant
                0 <= j <= self.scopes.len(),
                self.scopes.len() == sv.len(),
                var_count(sv) <= u64::MAX,
                pos == var_count(sv.skip(j as int)),
                self.blocks == old(self).blocks,
                self.ext_fn == old(self).ext_fn,
                self.current_block == old(self).current_block,
                self.current_pos == old(self).current_pos,
                forall|m: int| 0 <= m < j ==> #[trigger] self.scopes@[m]@ == sv[m],
                forall|m: int| j <= m < sv.len() ==> #[trigger] self.scopes@[m]@ == spec_receive(sv)[m],
            decreases j,
        {
            proof {
                lemma_var_count_skip(sv, j - 1);
                assert(sv.skip(j - 1).drop_first() =~= sv.skip(j as int));
                assert(sv.skip(j - 1)[0] == sv[j - 1]);
            }
            let ghost before = self.scopes@;
            let mut s = self.scopes.remove(j - 1);
            proof {
                assert(s@ == sv[j - 1]);
            }
            pos = s.number_from(pos);
            self.scopes.insert(j - 1, s);
            proof {
                assert(self.scopes@ =~= before.update(j - 1, s));
                assert(s@ == spec_receive(sv)[j - 1]);
            }
            j -= 1;
        }
        proof {
            assert(self@.scopes =~= spec_receive(sv));
        }
    }
}

impl IrGenerator {
    /// The block being written, if it is one of the generator's.
    pub fn get_current_block(&self) -> (r: Option<&GenBlock>)
        ensures
            match r {
                Some(b) => writing(self@) && b@ == self@.blocks[self@.current->0 as int],
                None => !writing(self@),
            },
    {
        match self.current_block {
            Some(b) => if (b as usize) < self.blocks.len() {
                Some(&self.blocks[b as usize])
            } else {
                None
            },
            None => None,
        }
    }

    /// Pushes a value of `size` on the stack of the block being written; returns the
    /// number of values on it.
    pub fn inc_stack(&mut self, size: u64) -> (r: Option<u64>)
        requires
            old(self).wf(),
        ensures
            final(self).wf(),
            match r {
                Some(n) => {
                    let b = old(self)@.current->0 as int;
                    &&& writing(old(self)@)
                    &&& final(self)@ == (GenV {
                        blocks: old(self)@.blocks.update(b, GenBlockV { stack: old(self)@.blocks[b].stack.push(size), ..old(self)@.blocks[b] }),
                        ..old(self)@
                    })
                    &&& n == old(self)@.blocks[b].stack.len() + 1
                },
                None => !writing(old(self)@) && final(self)@ == old(self)@,
            },
    {
        match self.current_block {
            Some(b) => if (b as usize) < self.blocks.len() {
                let ghost v = self@;
                let mut blk = self.blocks.remove(b as usize);
                blk.stack_types.push(size);
                let n = blk.stack_types.len() as u64;
                self.blocks.insert(b as usize, blk);
                proof {
                    assert(self@.blocks =~= v.blocks.update(b as int, blk@));
                }
                Some(n)
            } else {
                None
            },
            None => None,
        }
    }

    /// Pops the top value off the stack of the block being written, if it has one;
    /// returns the number of values left on it.
    pub fn dec_stack(&mut self) -> (r: Option<u64>)
        requires
            old(self).wf(),
        ensures
            final(self).wf(),
            match r {
                Some(n) => {
                    let b = old(self)@.current->0 as int;
                    &&& writing(old(self)@)
                    &&& final(self)@ == (GenV {
                        blocks: old(self)@.blocks.update(b, GenBlockV { stack: popn(old(self)@.blocks[b].stack, 1), ..old(self)@.blocks[b] }),
                        ..old(self)@
                    })
                    &&& n == popn(old(self)@.blocks[b].stack, 1).len()
                },
                None => !writing(old(self)@) && final(self)@ == old(self)@,
            },
    {
        match self.current_block {
            Some(b) => if (b as usize) < self.blocks.len() {
                let ghost v = self@;
                let mut blk = self.blocks.remove(b as usize);
                pop_n(&mut blk.stack_types, 1);
                let n = blk.stack_types.len() as u64;
                self.blocks.insert(b as usize, blk);
                proof {
                    assert(self@.blocks =~= v.blocks.update(b as int, blk@));
                }
                Some(n)
            } else {
                None
            },
            None => None,
        }
    }
}

/// Whether `i` leaves its block.
fn is_terminator_exec(i: Instruction) -> (r: bool)
    ensures
        r == is_terminator(i),
{
    match i {
        Instruction::Br(_) | Instruction::Briz(_, _) | Instruction::Iret(_) => true,
        _ => false,
    }
}

} // verus!
