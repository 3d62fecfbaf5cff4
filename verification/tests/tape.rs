use jolang::tape::{split_blocks, Instructions, Object, Opcodes, SourceFile, TextData};

fn file(lines: &[&str]) -> SourceFile {
    SourceFile::from_lines(lines.iter().map(|l| String::from(*l)).collect())
}

#[test]
fn tape_find_headers_text_first() {
    let mut f = file(&["# a program", ".TEXT", "<>", ".DATA", "1"]);
    assert!(f.find_headers().is_ok());
    assert_eq!((f.text_start, f.text_end, f.data_start, f.data_end), (Some(1), Some(3), Some(3), None));
}

#[test]
fn tape_find_headers_data_first() {
    let mut f = file(&[".DATA", "1", ".TEXT", "LS"]);
    assert!(f.find_headers().is_ok());
    assert_eq!((f.text_start, f.text_end, f.data_start, f.data_end), (Some(2), None, Some(0), Some(2)));
}

#[test]
fn tape_find_headers_errors() {
    assert_eq!(file(&[".TEXT"]).find_headers().err().unwrap(), "to many headers");
    assert_eq!(file(&[".TEXT", ".TEXT"]).find_headers().err().unwrap(), "header found twice : .TEXT");
    assert_eq!(file(&[".DATA", ".DATA"]).find_headers().err().unwrap(), "header found twice : .DATA");
    assert_eq!(file(&[".CODE", ".DATA"]).find_headers().err().unwrap(), "bad header");
}

#[test]
fn tape_text_data() {
    let mut f = file(&[".TEXT", "<> L S", "# comment", "+-*/P", "[]}Q", "I D C", ".DATA", "0"]);
    f.find_headers().unwrap();
    let t = TextData::try_from(&f).unwrap();
    assert_eq!(
        t.instructions,
        vec![
            Instructions::Backward,
            Instructions::Forward,
            Instructions::Load,
            Instructions::Store,
            Instructions::Add,
            Instructions::Sub,
            Instructions::Mul,
            Instructions::Div,
            Instructions::Print,
            Instructions::Jump,
            Instructions::JumpIfZero,
            Instructions::Exit,
            Instructions::Inc,
            Instructions::Dec,
            Instructions::Compare,
        ]
    );
    assert_eq!(t.jumps, vec![0, 9]);
}

#[test]
fn tape_text_data_errors() {
    let f = file(&[".TEXT", "<>"]);
    assert_eq!(TextData::try_from(&f).err().unwrap(), "you need to parse headers first");
    let mut f = file(&[".TEXT", "<x>", ".DATA"]);
    f.find_headers().unwrap();
    assert_eq!(TextData::try_from(&f).err().unwrap(), "bad instruction : x");
}

#[test]
fn tape_object_build_and_save() {
    let t = TextData { instructions: vec![Instructions::Inc, Instructions::Exit], jumps: vec![0, 1] };
    let o = Object::build(t, vec![1, 7]).unwrap();
    assert_eq!(o.main_jump, 1);
    assert_eq!(o.jumps, vec![0, 1]);
    let b = o.save();
    let mut expected: Vec<u8> = vec![0, b'J', b'O', b'O'];
    for w in [1u64, 2, 0, 1, 2, 1, 7, 2] {
        expected.extend_from_slice(&w.to_le_bytes());
    }
    expected.extend_from_slice(&[12, 11]);
    assert_eq!(b, expected);
}

#[test]
fn tape_object_bad_entry_point() {
    let t = || TextData { instructions: vec![], jumps: vec![0] };
    assert_eq!(Object::build(t(), vec![]).err().unwrap(), "bad entry point");
    assert_eq!(Object::build(t(), vec![-1]).err().unwrap(), "bad entry point");
    assert_eq!(Object::build(t(), vec![1]).err().unwrap(), "bad entry point");
    assert!(Object::build(t(), vec![0]).is_ok());
}

#[test]
fn tape_parse_data() {
    let mut f = file(&["4", "-1", ".TEXT", "LS", ".DATA", "# values", "7", "8"]);
    f.find_headers().unwrap();
    assert_eq!(f.parse_data().unwrap(), vec![7, 8, -1, -1]);
}

#[test]
fn tape_parse_data_errors() {
    let f = file(&["1", "0", ".DATA", "5"]);
    assert_eq!(f.parse_data().err().unwrap(), "you need to parse headers first");
    let mut f = file(&["1", "0", ".TEXT", ".DATA", "5", "6"]);
    f.find_headers().unwrap();
    assert_eq!(f.parse_data().err().unwrap(), "to many numbers in data section");
}

#[test]
fn tape_split_blocks() {
    let t = vec![
        Instructions::Inc,
        Instructions::Dec,
        Instructions::Load,
        Instructions::Store,
        Instructions::Add,
        Instructions::Sub,
        Instructions::Exit,
    ];
    let b = split_blocks(t.clone(), &vec![0, 2, 5]);
    assert_eq!(b, vec![t[0..2].to_vec(), t[2..5].to_vec(), t[5..7].to_vec()]);
    // the entries are instruction indices: each block runs to the next entry
    let b = split_blocks(t.clone(), &vec![0, 1, 3, 6]);
    assert_eq!(b, vec![t[0..1].to_vec(), t[1..3].to_vec(), t[3..6].to_vec(), t[6..7].to_vec()]);
    let b = split_blocks(t.clone(), &vec![0, 2, 5, 7]);
    assert_eq!(b, vec![t[0..2].to_vec(), t[2..5].to_vec(), t[5..7].to_vec(), vec![]]);
    let b = split_blocks(t.clone(), &vec![0]);
    assert_eq!(b, vec![t.clone()]);
}

#[test]
fn tape_opcode_bytes() {
    assert_eq!(Opcodes::Exit.to_u8(), 0x00);
    assert_eq!(Opcodes::Pushi.to_u8(), 0x10);
    assert_eq!(Opcodes::Rsh.to_u8(), 0x2D);
    assert_eq!(Opcodes::from_u8(0x22), Some(Opcodes::Add));
    assert_eq!(Opcodes::from_u8(0x03), None);
    assert_eq!(Opcodes::from_u8(0x2E), None);
}

#[test]
fn tape_exit_symbol_is_q() {
    let mut f = file(&[".TEXT", "IQ"]);
    f.text_start = Some(0);
    f.text_end = None;
    let t = TextData::try_from(&f).unwrap();
    assert_eq!(t.instructions, vec![Instructions::Inc, Instructions::Exit]);
    assert_eq!(t.jumps, vec![0]);
    let mut g = file(&[".TEXT", "IE"]);
    g.text_start = Some(0);
    assert_eq!(TextData::try_from(&g).err().unwrap(), "bad instruction : E");
}
