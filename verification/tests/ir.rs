use jolang::bytecode::{read, read_object, runtime_version, write_object, ReadError};
use jolang::ir::{Block, Instruction, IrObject, Opcodes, Signature};
use jolang::printer::write_ir;

fn sample() -> IrObject {
    let mut ir = IrObject::new();
    ir.decl_extern(String::from("print"), Signature::new(String::from("void"), vec![String::from("i64")]));
    let b0 = ir.append_block();
    let b1 = ir.append_block();
    assert_eq!((b0, b1), (0, 1));
    ir.blocks[0].push(Instruction::Iconst(8, -5));
    ir.blocks[0].push(Instruction::Call(0));
    ir.blocks[0].push(Instruction::Iret(8));
    ir.blocks[1].push(Instruction::Br(0));
    ir.blocks[1].push(Instruction::Briz(0, 1));
    ir.blocks[1].push(Instruction::Iconv(4, 8));
    assert_eq!(ir.add_var(8), 0);
    assert_eq!(ir.add_var(0), 1);
    ir
}

const SAMPLE_TEXT: &str = "extern fn print (i64) -> void;\nfn main () -> i64 {\nB0 : \n\ticonst 8 -5\n\tcall 0\n\tiret 8\nB1 : \n\tbr 0\n\tbriz 0 1\n\ticonv 4 8\n}";

#[test]
fn ir_opcode_bytes() {
    assert_eq!(Opcodes::Nop.to_u8(), 0x00);
    assert_eq!(Opcodes::Iconst.to_u8(), 0x08);
    assert_eq!(Opcodes::Uconv.to_u8(), 0x26);
    assert_eq!(Opcodes::from_u8(0x14), Some(Opcodes::Iadd));
    assert_eq!(Opcodes::from_u8(0x27), None);
    for b in 0u8..=0x26 {
        assert_eq!(Opcodes::from_u8(b).unwrap().to_u8(), b);
    }
}

#[test]
fn ir_instruction_opcode() {
    assert_eq!(Instruction::Iconst(8, 3).opcode(), Opcodes::Iconst);
    assert_eq!(Instruction::Briz(1, 2).opcode(), Opcodes::Briz);
    assert_eq!(Instruction::Varref().opcode(), Opcodes::Varref);
    assert_eq!(Instruction::Uconv(1, 8).opcode(), Opcodes::Uconv);
}

#[test]
fn ir_signature_to_string() {
    let s = Signature::new(String::from("void"), vec![String::from("i32"), String::from("i64"), String::from("i16")]);
    assert_eq!(s.to_string(), "void/i32/i64/i16");
    let s = Signature::new(String::from("i32"), vec![String::from("i64"), String::from("i8")]);
    assert_eq!(s.to_string(), "i32/i64/i8");
    let s = Signature::new(String::from("void"), Vec::new());
    assert_eq!(s.to_string(), "void");
}

#[test]
fn ir_block_keeps_order() {
    let mut b = Block::new();
    b.push(Instruction::Nop());
    b.push(Instruction::Pop(4));
    assert_eq!(b.to_vec(), vec![Instruction::Nop(), Instruction::Pop(4)]);
    let c = Block::from_vec(&vec![Instruction::Dup(1), Instruction::Swap(2)]);
    assert_eq!(c.to_vec(), vec![Instruction::Dup(1), Instruction::Swap(2)]);
}

#[test]
fn ir_printer_text() {
    assert_eq!(write_ir(&sample()), SAMPLE_TEXT);
    assert_eq!(write_ir(&IrObject::new()), "fn main () -> i64 {\n}");
}

#[test]
fn bytecode_layout() {
    let b = write_object(&sample(), 0, 1, 0).unwrap();
    assert_eq!(b.len(), 166);
    assert_eq!(&b[0..4], &[0u8, b'J', b'O', b'O'][..]);
    assert_eq!(&b[4..7], &[0u8, 1, 0][..]);
    // external functions: 1 at offset 31
    assert_eq!(&b[7..15], &[1u8, 0, 0, 0, 31, 0, 0, 0][..]);
    // blocks: 2 at offset 52
    assert_eq!(&b[15..23], &[2u8, 0, 0, 0, 52, 0, 0, 0][..]);
    // local variable slots: 2 at offset 68
    assert_eq!(&b[23..31], &[2u8, 0, 0, 0, 68, 0, 0, 0][..]);
    // the name and the signature
    assert_eq!(&b[31..40], &[5u8, 0, 0, 0, b'p', b'r', b'i', b'n', b't'][..]);
    assert_eq!(&b[40..52], &[8u8, 0, 0, 0, b'v', b'o', b'i', b'd', b'/', b'i', b'6', b'4'][..]);
    // block table: 3 instructions at 70, 3 at 118
    assert_eq!(&b[52..68], &[3u8, 0, 0, 0, 70, 0, 0, 0, 3, 0, 0, 0, 118, 0, 0, 0][..]);
    assert_eq!(&b[68..70], &[8u8, 0][..]);
    // iconst 8 -5
    assert_eq!(&b[70..86], &[0u8, 0, 0, 0x08, 8, 0, 0, 0, 0xfb, 0xff, 0xff, 0xff, 0xff, 0xff, 0xff, 0xff][..]);
    // briz 0 1
    assert_eq!(&b[134..150], &[0u8, 0, 0, 0x05, 0, 0, 0, 0, 1, 0, 0, 0, 0, 0, 0, 0][..]);
}

#[test]
fn bytecode_read_back_what_was_written() {
    let ir = sample();
    let b = write_object(&ir, 0, 1, 0).unwrap();
    let back = read_object(&b, 0, 1).unwrap();
    assert_eq!(write_ir(&back), SAMPLE_TEXT);
    assert_eq!(back.local_vars, vec![8, 0]);
    assert_eq!(back.ext_fn[0].sig.args, vec![String::from("i64")]);
    assert_eq!(back.ext_fn[0].sig.ret, "void");
    let again = write_object(&back, 0, 1, 0).unwrap();
    assert_eq!(again, b);
}

#[test]
fn bytecode_read_back_empty_object() {
    let b = write_object(&IrObject::new(), 3, 2, 1).unwrap();
    assert_eq!(b.len(), 31);
    let back = read_object(&b, 3, 2).unwrap();
    assert!(back.ext_fn.is_empty() && back.blocks.is_empty() && back.local_vars.is_empty());
}

#[test]
fn bytecode_runtime_version() {
    assert_eq!(runtime_version(), Some((0, 1, 0)));
    let ir = sample();
    let b = jolang::bytecode::write(&ir).unwrap();
    assert_eq!(&b[4..7], &[0u8, 1, 0][..]);
    let back = read(&b).unwrap();
    assert_eq!(write_ir(&back), SAMPLE_TEXT);
}

#[test]
fn bytecode_bad_header() {
    let mut b = write_object(&sample(), 0, 1, 0).unwrap();
    b[1] = b'X';
    assert_eq!(read_object(&b, 0, 1).err(), Some(ReadError::BadHeader));
}

#[test]
fn bytecode_unsupported_version() {
    let b = write_object(&sample(), 1, 2, 3).unwrap();
    assert_eq!(read_object(&b, 0, 9).err(), Some(ReadError::UnsupportedVersion(1, 2, 3)));
    assert_eq!(read_object(&b, 1, 1).err(), Some(ReadError::UnsupportedVersion(1, 2, 3)));
    assert!(read_object(&b, 1, 2).is_ok());
    assert!(read_object(&b, 1, 5).is_ok());
}

#[test]
fn bytecode_truncated() {
    let b = write_object(&sample(), 0, 1, 0).unwrap();
    assert_eq!(read_object(&b[..20].to_vec(), 0, 1).err(), Some(ReadError::UnexpectedEnd));
    assert_eq!(read_object(&b[..100].to_vec(), 0, 1).err(), Some(ReadError::UnexpectedEnd));
}

#[test]
fn bytecode_bad_opcode() {
    let mut b = write_object(&sample(), 0, 1, 0).unwrap();
    b[70 + 3] = 0x30;
    assert_eq!(read_object(&b, 0, 1).err(), Some(ReadError::BadOpcode(0x30)));
}

#[test]
fn bytecode_bad_string() {
    let mut b = write_object(&sample(), 0, 1, 0).unwrap();
    b[35] = 0xff;
    assert_eq!(read_object(&b, 0, 1).err(), Some(ReadError::BadString));
}

#[test]
fn ir_object_building() {
    let mut ir = IrObject::new();
    assert_eq!(ir.append_block(), 0);
    assert_eq!(ir.get_block(0).to_vec(), Vec::<Instruction>::new());
    let f = ir.decl_extern(String::from("input"), Signature::new(String::from("i64"), Vec::new()));
    assert_eq!(f, 0);
    assert_eq!(ir.ext_fn[0].name, "input");
}

#[test]
fn bytecode_header_checked_in_order() {
    let wrong_magic = vec![b'J', b'O', b'O', 0u8, 0, 0, 0];
    assert_eq!(read(&wrong_magic).err(), Some(ReadError::BadHeader));
    assert_eq!(read_object(&wrong_magic[..4].to_vec(), 0, 1).err(), Some(ReadError::BadHeader));
    assert_eq!(read_object(&wrong_magic[..3].to_vec(), 0, 1).err(), Some(ReadError::UnexpectedEnd));
    let short_magic = vec![0u8, b'J', b'O', b'O', 0];
    assert_eq!(read_object(&short_magic, 0, 1).err(), Some(ReadError::UnexpectedEnd));
    let wrong_version = vec![0u8, b'J', b'O', b'O', 3, 0, 7];
    assert_eq!(read_object(&wrong_version, 0, 1).err(), Some(ReadError::UnsupportedVersion(3, 0, 7)));
    let mut longer = wrong_version.clone();
    longer.extend_from_slice(&[0u8; 10]);
    assert_eq!(read_object(&longer, 0, 1).err(), Some(ReadError::UnsupportedVersion(3, 0, 7)));
    let right_version = vec![0u8, b'J', b'O', b'O', 0, 1, 0, 0, 0];
    assert_eq!(read_object(&right_version, 0, 1).err(), Some(ReadError::UnexpectedEnd));
}
