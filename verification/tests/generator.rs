use jolang::generator::IrGenerator;
use jolang::ir::{Instruction, Signature};
use jolang::scope::{Scope, ScopeKind, VarType};

fn stack(g: &IrGenerator, b: usize) -> Vec<u64> {
    g.blocks()[b].stack_types.clone()
}

#[test]
fn generator_adds_nothing_without_a_block() {
    let mut g = IrGenerator::new();
    assert_eq!(g.current_block(), None);
    assert_eq!(g.add(Instruction::Iconst(8, 1)), None);
    assert_eq!(g.stack_size(), None);
    g.goto_begin(3);
    assert_eq!(g.current_block(), Some(3));
    assert_eq!(g.add(Instruction::Iconst(8, 1)), None);
    assert_eq!(g.add(Instruction::Br(0)), None);
    assert_eq!(g.current_block(), None);
    assert_eq!(g.into_ir().blocks.len(), 0);
}

#[test]
fn generator_writes_blocks() {
    let mut g = IrGenerator::new();
    assert_eq!(g.append_block(), 0);
    assert_eq!(g.append_block(), 1);
    g.goto_begin(1);
    assert_eq!(g.add(Instruction::Iconst(8, 0)), Some(0));
    assert_eq!(g.stack_size(), Some(1));
    assert_eq!(g.add(Instruction::Iret(8)), Some(1));
    assert_eq!(g.current_block(), None);
    assert_eq!(stack(&g, 1), Vec::<u64>::new());
    g.goto_begin(0);
    g.add(Instruction::Iconst(4, 2));
    g.add(Instruction::Iconst(4, 3));
    g.add(Instruction::Iadd(4));
    assert_eq!(stack(&g, 0), vec![4]);
    g.add(Instruction::Iconst(4, 3));
    g.add(Instruction::Ilt(4));
    assert_eq!(stack(&g, 0), vec![1]);
    g.add(Instruction::Briz(1, 1));
    assert_eq!(g.current_block(), None);
    assert_eq!(stack(&g, 0), Vec::<u64>::new());
    let ir = g.into_ir();
    assert_eq!(ir.blocks.len(), 2);
    assert_eq!(ir.blocks[1].to_vec(), vec![Instruction::Iconst(8, 0), Instruction::Iret(8)]);
    assert_eq!(ir.blocks[0].to_vec().len(), 6);
    assert!(ir.local_vars.is_empty());
}

#[test]
fn generator_insertion_place() {
    let mut g = IrGenerator::new();
    g.append_block();
    g.goto_begin(0);
    g.add(Instruction::Iconst(8, 1));
    g.add(Instruction::Iconst(8, 2));
    // from the beginning of a block that holds instructions: after its first one
    g.goto_begin(0);
    assert_eq!(g.add(Instruction::Iconst(8, 3)), Some(1));
    g.goto_end(0);
    assert_eq!(g.add(Instruction::Iconst(8, 4)), Some(3));
    let ir = g.into_ir();
    assert_eq!(
        ir.blocks[0].to_vec(),
        vec![Instruction::Iconst(8, 1), Instruction::Iconst(8, 3), Instruction::Iconst(8, 2), Instruction::Iconst(8, 4)]
    );
}

#[test]
fn generator_stack_effects() {
    let mut g = IrGenerator::new();
    assert_eq!(g.decl_extern(String::from("print"), Signature::new(String::from("void"), vec![String::from("i64")])), 0);
    assert_eq!(g.decl_extern(String::from("input"), Signature::new(String::from("i64"), vec![])), 1);
    g.append_block();
    g.goto_begin(0);
    g.add(Instruction::Iconst(8, 7));
    g.add(Instruction::Call(0));
    assert_eq!(stack(&g, 0), Vec::<u64>::new());
    g.add(Instruction::Call(1));
    assert_eq!(stack(&g, 0), vec![8]);
    g.add(Instruction::Iconst(2, 1));
    g.add(Instruction::Swap(8));
    assert_eq!(stack(&g, 0), vec![2, 8]);
    g.add(Instruction::Iconv(8, 4));
    assert_eq!(stack(&g, 0), vec![2, 4]);
    g.add(Instruction::Dup(4));
    g.add(Instruction::Pop(4));
    g.add(Instruction::Istore(4));
    assert_eq!(stack(&g, 0), Vec::<u64>::new());
    g.add(Instruction::Iconst(4, 0));
    g.add(Instruction::Varref());
    g.add(Instruction::Iload(8));
    assert_eq!(stack(&g, 0), vec![8]);
    g.add(Instruction::Call(9));
    assert_eq!(stack(&g, 0), vec![8]);
    assert_eq!(g.get_externs().len(), 2);
}

#[test]
fn generator_variables() {
    let mut g = IrGenerator::new();
    g.enter_scope(Scope::new(ScopeKind::Root, 0, 1));
    g.append_block();
    g.goto_begin(0);
    g.add(Instruction::Iconst(8, 5));
    let x = String::from("x");
    assert_eq!(g.decl_var(x.clone(), 64), 0);
    assert_eq!(g.get_var_offset(&x), Some(0));
    assert_eq!(g.get_var_size(&x), Some(64));
    g.add(Instruction::Iconst(4, 1));
    g.add(Instruction::Iconst(4, 1));
    assert_eq!(g.update_var(&x), 2);
    assert_eq!(g.get_var_offset(&x), Some(2));
    g.enter_scope(Scope::new(ScopeKind::Block, 1, 2));
    assert_eq!(g.get_var_offset(&x), Some(2));
    assert_eq!(g.decl_var(x.clone(), 32), 2);
    assert_eq!(g.get_var_size(&x), Some(32));
    assert_eq!(g.decl_var(String::from("y"), 8), 2);
    assert_eq!(g.var_sizes(), vec![32, 8, 64]);
    assert_eq!(g.append_block(), 1);
    assert_eq!(g.blocks()[1].args, vec![32, 8, 64]);
    assert_eq!(stack(&g, 1), vec![32, 8, 64]);
    g.recive_vars();
    assert_eq!(g.get_var_offset(&x), Some(0));
    assert_eq!(g.get_var_offset(&String::from("y")), Some(1));
    g.exit_scope();
    assert_eq!(g.get_var_offset(&x), Some(2));
    assert_eq!(g.get_var_size(&x), Some(64));
    assert_eq!(g.get_scopes().len(), 1);
    g.exit_scope();
    g.exit_scope();
    assert_eq!(g.get_var_offset(&x), None);
    assert_eq!(g.get_var_size(&x), None);
}

#[test]
fn generator_stack_by_hand() {
    let mut g = IrGenerator::new();
    assert_eq!(g.inc_stack(8), None);
    assert_eq!(g.dec_stack(), None);
    assert!(g.get_current_block().is_none());
    g.append_block();
    g.goto_end(0);
    assert_eq!(g.inc_stack(8), Some(1));
    assert_eq!(g.inc_stack(4), Some(2));
    assert_eq!(g.get_current_block().unwrap().stack_types, vec![8, 4]);
    assert_eq!(g.dec_stack(), Some(1));
    assert_eq!(g.dec_stack(), Some(0));
    assert_eq!(g.dec_stack(), Some(0));
    assert!(g.get_current_block().unwrap().instructions.is_empty());
}
