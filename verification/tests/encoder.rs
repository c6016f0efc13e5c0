use lc3_toolchain::assembler::asm_ins::OpcodeIns;
use lc3_toolchain::assembler::directive::Directive;
use lc3_toolchain::assembler::encoder::Asm;
use lc3_toolchain::assembler::token::{Token, TokenType};

fn mk_token(t: TokenType) -> Token {
    Token {
        inner_token: t,
        to: 0,
        from: 0,
        file_relative_from: 0,
        file_relative_to: 0,
        line_num: 0,
        original_match: "".to_string(),
    }
}

fn get_file(contents: Vec<TokenType>) -> Vec<Token> {
    let mut output = vec![
        mk_token(TokenType::Directive(Directive::ORIG)),
        mk_token(TokenType::Number(3000)),
    ];

    for token_t in contents {
        output.push(mk_token(token_t));
    }

    return output;
}

fn new_assembler() -> Asm {
    Asm::new().unwrap()
}

/// An assembler whose strings take one word for each character and no more.
fn unterminated() -> Asm {
    let mut assembler = new_assembler();
    assembler.semantic_checker.nul_terminated = false;
    assembler
}

#[test]
fn test_asm_directive_orig() {
    let mut assembler = new_assembler();

    let stream = vec![
        mk_token(TokenType::Directive(Directive::ORIG)),
        mk_token(TokenType::Number(3000)),
    ];

    let bin = assembler.assemble(stream);

    assert!(bin[0] == 3000);
    assert!(bin.len() == 1);

    let mut assembler = new_assembler();

    let stream = vec![
        mk_token(TokenType::Directive(Directive::ORIG)),
        mk_token(TokenType::Number(42)),
    ];

    let bin = assembler.assemble(stream);

    assert!(bin[0] == 42);
    assert!(bin.len() == 1);
}

#[test]
fn test_asm_directive_fill() {
    let mut assembler = new_assembler();

    let stream = get_file(vec![
        TokenType::Directive(Directive::FILL),
        TokenType::Number(10),
        TokenType::Directive(Directive::FILL),
        TokenType::Number(1999),
    ]);

    let bin = assembler.assemble(stream);

    assert!(bin[1] == 0b0000_0000_0000_1010);
    assert!(bin[2] == 1999);
}

#[test]
fn test_asm_directive_blkw() {
    let mut assembler = new_assembler();

    let stream = get_file(vec![
        TokenType::Directive(Directive::BLKW),
        TokenType::Number(3),
    ]);

    let bin = assembler.assemble(stream);

    assert!(bin[1] == 0);
    assert!(bin[2] == 0);
    assert!(bin[3] == 0);
    assert!(bin.len() == 4);
}

#[test]
fn test_asm_directive_stringz() {
    let mut assembler = unterminated();

    let stream = get_file(vec![
        TokenType::Directive(Directive::STRINGZ),
        TokenType::String(String::from("HELP ME!")),
    ]);

    let bin = assembler.assemble(stream);

    assert!(bin[1] as u8 == 'H' as u8);
    assert!(bin[2] as u8 == 'E' as u8);
    assert!(bin[3] as u8 == 'L' as u8);
    assert!(bin[4] as u8 == 'P' as u8);
    assert!(bin[5] as u8 == ' ' as u8);
    assert!(bin[6] as u8 == 'M' as u8);
    assert!(bin[7] as u8 == 'E' as u8);
    assert!(bin[8] as u8 == '!' as u8);

    assert!(bin.len() == 9);
}

#[test]
fn test_add_immediate() {
    let mut assembler = new_assembler();

    let stream = get_file(vec![
        TokenType::Instruction(OpcodeIns::Add),
        TokenType::Register(1),
        TokenType::Register(1),
        TokenType::Number(10),
    ]);

    let bin = assembler.assemble(stream);

    assert_eq!(bin[1], 0b0001_001_001_1_01010);
}

#[test]
fn test_add_register() {
    let mut assembler = new_assembler();

    let stream = get_file(vec![
        TokenType::Instruction(OpcodeIns::Add),
        TokenType::Register(1),
        TokenType::Register(1),
        TokenType::Register(7),
    ]);

    let bin = assembler.assemble(stream);

    assert_eq!(bin[1], 0b0001_001_001_0_00_111);
}

#[test]
fn test_and_immediate() {
    let mut assembler = new_assembler();

    let stream = get_file(vec![
        TokenType::Instruction(OpcodeIns::And),
        TokenType::Register(1),
        TokenType::Register(1),
        TokenType::Number(10),
    ]);

    let bin = assembler.assemble(stream);

    assert_eq!(bin[1], 0b0101_001_001_1_01010);
}

#[test]
fn test_and_register() {
    let mut assembler = new_assembler();

    let stream = get_file(vec![
        TokenType::Instruction(OpcodeIns::And),
        TokenType::Register(1),
        TokenType::Register(1),
        TokenType::Register(7),
    ]);

    let bin = assembler.assemble(stream);

    assert_eq!(bin[1], 0b0101_001_001_0_00_111);
}

#[test]
fn test_br() {
    let mut assembler = new_assembler();

    assembler.semantic_checker.symbol_table.insert(
        String::from("x"),
        (3010, mk_token(TokenType::Label(String::from("x")))),
    );

    let stream = get_file(vec![
        TokenType::Instruction(OpcodeIns::Br(false, false, false)),
        TokenType::Label("x".to_string()),
        TokenType::Instruction(OpcodeIns::Br(false, false, true)),
        TokenType::Label("x".to_string()),
        TokenType::Instruction(OpcodeIns::Br(false, true, false)),
        TokenType::Label("x".to_string()),
        TokenType::Instruction(OpcodeIns::Br(false, true, true)),
        TokenType::Label("x".to_string()),
        TokenType::Instruction(OpcodeIns::Br(true, false, false)),
        TokenType::Label("x".to_string()),
        TokenType::Instruction(OpcodeIns::Br(true, false, true)),
        TokenType::Label("x".to_string()),
        TokenType::Instruction(OpcodeIns::Br(true, true, false)),
        TokenType::Label("x".to_string()),
        TokenType::Instruction(OpcodeIns::Br(true, true, true)),
        TokenType::Label("x".to_string()),
    ]);

    let bin = assembler.assemble(stream);

    assert_eq!(bin[1], 0b0000_000_000001001);
    assert_eq!(bin[2], 0b0000_001_000001000);
    assert_eq!(bin[3], 0b0000_010_000000111);
    assert_eq!(bin[4], 0b0000_011_000000110);
    assert_eq!(bin[5], 0b0000_100_000000101);
    assert_eq!(bin[6], 0b0000_101_000000100);
    assert_eq!(bin[7], 0b0000_110_000000011);
    assert_eq!(bin[8], 0b0000_111_000000010);
}

#[test]
fn test_jsr() {
    let mut assembler = new_assembler();

    assembler.semantic_checker.symbol_table.insert(
        String::from("y"),
        (3256, mk_token(TokenType::Label(String::from("i")))),
    );

    let stream = get_file(vec![
        TokenType::Instruction(OpcodeIns::Jsr),
        TokenType::Label(String::from("y")),
    ]);

    let bin = assembler.assemble(stream);

    assert_eq!(bin[1], 0b0100_1_00011111111);
}

#[test]
fn test_jsrr() {
    let mut assembler = new_assembler();

    let stream = get_file(vec![
        TokenType::Instruction(OpcodeIns::Jsrr),
        TokenType::Register(6),
    ]);

    let bin = assembler.assemble(stream);

    assert_eq!(bin[1], 0b0100_000_110_000000);
}

#[test]
fn test_ld() {
    let mut assembler = new_assembler();

    assembler.semantic_checker.symbol_table.insert(
        String::from("i"),
        (3001, mk_token(TokenType::Label(String::from("i")))),
    );

    let stream = get_file(vec![
        TokenType::Instruction(OpcodeIns::Ld),
        TokenType::Register(1),
        TokenType::Label(String::from("i")),
    ]);

    let bin = assembler.assemble(stream);

    assert_eq!(bin[1], 0b0010_001_000000000);
}

#[test]
fn test_ldi() {
    let mut assembler = new_assembler();

    assembler.semantic_checker.symbol_table.insert(
        String::from("i"),
        (3001, mk_token(TokenType::Label(String::from("i")))),
    );

    let stream = get_file(vec![
        TokenType::Instruction(OpcodeIns::Ldi),
        TokenType::Register(1),
        TokenType::Label(String::from("i")),
    ]);

    let bin = assembler.assemble(stream);

    assert_eq!(bin[1], 0b1010_001_000000000);
}

#[test]
fn test_ldr() {
    let mut assembler = new_assembler();

    let stream = get_file(vec![
        TokenType::Instruction(OpcodeIns::Ldr),
        TokenType::Register(0),
        TokenType::Register(7),
        TokenType::Number(16),
    ]);

    let bin = assembler.assemble(stream);

    assert_eq!(bin[1], 0b0110_000_111_010000);
}

#[test]
fn asm_test_lea() {
    let mut assembler = new_assembler();

    assembler.semantic_checker.symbol_table.insert(
        String::from("i"),
        (3001, mk_token(TokenType::Label(String::from("i")))),
    );

    let stream = get_file(vec![
        TokenType::Instruction(OpcodeIns::Lea),
        TokenType::Register(1),
        TokenType::Label(String::from("i")),
    ]);

    let bin = assembler.assemble(stream);

    assert_eq!(bin[1], 0b1110_001_000000000);
}

#[test]
fn asm_test_not() {
    let mut assembler = new_assembler();

    let stream = get_file(vec![
        TokenType::Instruction(OpcodeIns::Not),
        TokenType::Register(1),
        TokenType::Register(1),
    ]);

    let bin = assembler.assemble(stream);

    assert_eq!(bin[1], 0b1001_001_001_111111);
}

#[test]
fn test_st() {
    let mut assembler = new_assembler();

    assembler.semantic_checker.symbol_table.insert(
        String::from("i"),
        (3001, mk_token(TokenType::Label(String::from("i")))),
    );

    let stream = get_file(vec![
        TokenType::Instruction(OpcodeIns::St),
        TokenType::Register(1),
        TokenType::Label(String::from("i")),
    ]);

    let bin = assembler.assemble(stream);

    assert_eq!(bin[1], 0b0011_001_000000000);
}

#[test]
fn test_sti() {
    let mut assembler = new_assembler();

    assembler.semantic_checker.symbol_table.insert(
        String::from("i"),
        (3001, mk_token(TokenType::Label(String::from("i")))),
    );

    let stream = get_file(vec![
        TokenType::Instruction(OpcodeIns::Sti),
        TokenType::Register(1),
        TokenType::Label(String::from("i")),
    ]);

    let bin = assembler.assemble(stream);

    assert_eq!(bin[1], 0b1011_001_000000000);
}

#[test]
fn test_str() {
    let mut assembler = new_assembler();

    let stream = get_file(vec![
        TokenType::Instruction(OpcodeIns::Str),
        TokenType::Register(0),
        TokenType::Register(7),
        TokenType::Number(16),
    ]);

    let bin = assembler.assemble(stream);

    assert_eq!(bin[1], 0b0111_000_111_010000);
}

#[test]
fn test_trap() {
    let mut assembler = new_assembler();

    let stream = get_file(vec![
        TokenType::Instruction(OpcodeIns::Trap(20)),
        TokenType::Instruction(OpcodeIns::Trap(21)),
        TokenType::Instruction(OpcodeIns::Trap(22)),
        TokenType::Instruction(OpcodeIns::Trap(23)),
        TokenType::Instruction(OpcodeIns::Trap(25)),
        TokenType::Instruction(OpcodeIns::Trap(32)),
    ]);

    let bin = assembler.assemble(stream);

    assert_eq!(bin[1], 0b1111_0000_0001_0100);
    assert_eq!(bin[2], 0b1111_0000_0001_0101);
    assert_eq!(bin[3], 0b1111_0000_0001_0110);
    assert_eq!(bin[4], 0b1111_0000_0001_0111);
    assert_eq!(bin[5], 0b1111_0000_0001_1001);
    assert_eq!(bin[6], 0b1111_0000_0010_0000);
}

#[test]
fn test_pcoffset9() {
    let mut assembler = new_assembler();

    assembler.semantic_checker.symbol_table.insert(
        String::from("x"),
        (3000, mk_token(TokenType::Label(String::from("i")))),
    );
    assembler.semantic_checker.symbol_table.insert(
        String::from("y"),
        (3003, mk_token(TokenType::Label(String::from("i")))),
    );

    let stream = get_file(vec![
        TokenType::Instruction(OpcodeIns::Sti),
        TokenType::Register(1),
        TokenType::Label(String::from("x")), // x -> 3000, pc == 3001 => -1
        TokenType::Instruction(OpcodeIns::Sti),
        TokenType::Register(1),
        TokenType::Label(String::from("y")), // y -> 3003, pc == 3002 => 1
    ]);

    let bin = assembler.assemble(stream);

    assert_eq!(bin[1], 0b1011_001_111111111);
    assert_eq!(bin[2], 0b1011_001_000000001);
}

#[test]
fn every_layout_of_the_table() {
    let mut assembler = new_assembler();
    assembler.semantic_checker.symbol_table.insert(
        String::from("t"),
        (3000, mk_token(TokenType::Label(String::from("t")))),
    );
    let stream = get_file(vec![
        TokenType::Label(String::from("t")),
        TokenType::Instruction(OpcodeIns::Add),
        TokenType::Register(7),
        TokenType::Register(0),
        TokenType::Number(-16),
        TokenType::Instruction(OpcodeIns::And),
        TokenType::Register(2),
        TokenType::Register(3),
        TokenType::Number(15),
        TokenType::Instruction(OpcodeIns::Jmp),
        TokenType::Register(5),
        TokenType::Instruction(OpcodeIns::Ret),
        TokenType::Instruction(OpcodeIns::Rti),
        TokenType::Instruction(OpcodeIns::Jsr),
        TokenType::Label(String::from("t")),
        TokenType::Instruction(OpcodeIns::Ldr),
        TokenType::Register(1),
        TokenType::Register(2),
        TokenType::Number(-32),
        TokenType::Instruction(OpcodeIns::Str),
        TokenType::Register(1),
        TokenType::Register(2),
        TokenType::Number(31),
        TokenType::Instruction(OpcodeIns::Lea),
        TokenType::Register(4),
        TokenType::Label(String::from("t")),
        TokenType::Instruction(OpcodeIns::Trap(0x25)),
        TokenType::Directive(Directive::FILL),
        TokenType::Number(-1),
        TokenType::Directive(Directive::BLKW),
        TokenType::Number(0),
        TokenType::Directive(Directive::BLKW),
        TokenType::Number(-4),
        TokenType::Directive(Directive::STRINGZ),
        TokenType::String(String::from("")),
        TokenType::Directive(Directive::STRINGZ),
        TokenType::String(String::from("A\u{1F600}")),
        TokenType::Directive(Directive::END),
        TokenType::Instruction(OpcodeIns::Ret),
    ]);
    let bin = assembler.try_assemble(&stream).unwrap();
    assert_eq!(
        bin,
        vec![
            3000,
            0b0001_111_000_1_10000,
            0b0101_010_011_1_01111,
            0b1100_000_101_000000,
            0b1100_000_111_000000,
            0b1000_0000_0000_0000,
            0b0100_1_11111111010, // t is six words behind the address after the JSR
            0b0110_001_010_100000,
            0b0111_001_010_011111,
            0b1110_100_111110111, // nine words behind
            0b1111_0000_0010_0101,
            0xffff,
            0,
            'A' as u16,
            0xf600,
            0,
        ]
    );
}

#[test]
fn what_does_not_read_as_a_program_gives_no_image() {
    let mut assembler = new_assembler();
    let none = |assembler: &mut Asm, contents: Vec<TokenType>| assembler.try_assemble(&get_file(contents)).is_none();
    assert!(assembler.try_assemble(&vec![]).is_none());
    assert!(assembler.try_assemble(&vec![mk_token(TokenType::Directive(Directive::ORIG))]).is_none());
    assert!(assembler
        .try_assemble(&vec![mk_token(TokenType::Instruction(OpcodeIns::Ret)), mk_token(TokenType::Number(1))])
        .is_none());
    assert!(none(&mut assembler, vec![TokenType::Instruction(OpcodeIns::Add), TokenType::Register(1), TokenType::Register(1)]));
    assert!(none(&mut assembler, vec![TokenType::Instruction(OpcodeIns::Add), TokenType::Register(1), TokenType::Register(1), TokenType::Number(16)]));
    assert!(none(&mut assembler, vec![TokenType::Instruction(OpcodeIns::Add), TokenType::Register(1), TokenType::Register(8), TokenType::Register(1)]));
    assert!(none(&mut assembler, vec![TokenType::Instruction(OpcodeIns::Ld), TokenType::Register(1), TokenType::Label("nowhere".to_string())]));
    assert!(none(&mut assembler, vec![TokenType::Instruction(OpcodeIns::INVALID)]));
    assert!(none(&mut assembler, vec![TokenType::Instruction(OpcodeIns::Trap(256))]));
    assert!(none(&mut assembler, vec![TokenType::Directive(Directive::ORIG), TokenType::Number(1)]));
    assert!(none(&mut assembler, vec![TokenType::Directive(Directive::FILL), TokenType::Register(1)]));
    assert!(none(&mut assembler, vec![TokenType::Register(1)]));
    assert!(none(&mut assembler, vec![TokenType::INVALID("?".to_string())]));
    assembler.semantic_checker.symbol_table.insert(
        String::from("far"),
        (3257, mk_token(TokenType::Label(String::from("far")))),
    );
    assert!(none(&mut assembler, vec![TokenType::Instruction(OpcodeIns::Ld), TokenType::Register(1), TokenType::Label("far".to_string())]));
    assembler.semantic_checker.symbol_table.insert(
        String::from("far"),
        (3256, mk_token(TokenType::Label(String::from("far")))),
    );
    let bin = assembler.try_assemble(&get_file(vec![
        TokenType::Instruction(OpcodeIns::Ld),
        TokenType::Register(1),
        TokenType::Label("far".to_string()),
    ]));
    assert_eq!(bin, Some(vec![3000, 0b0010_001_011111111]));
}

#[test]
fn the_pieces_of_the_encoder() {
    let mut assembler = new_assembler();
    assert_eq!(assembler.add_imm(0b0001_001_001_1_00000, 0xfff0, 5), 0b0001_001_001_1_10000);
    assert_eq!(assembler.add_imm(0b0001_001_001_1_00000, 15, 5), 0b0001_001_001_1_01111);
    assert_eq!(assembler.add_imm(0, 0xff00, 9), 0b1_0000_0000);
    assert_eq!(assembler.add_imm(0x4800, 0xfc00, 11), 0x4c00);
    let stream = get_file(vec![TokenType::Register(3), TokenType::Register(4), TokenType::Number(5)]);
    assert!(assembler.set_origin(&stream));
    assert_eq!((assembler.token_index, assembler.memory_location), (2, 3000));
    let operands = assembler.get_operands(&stream, 2);
    assert_eq!(operands.len(), 2);
    assert_eq!(operands[1].inner_token, TokenType::Register(4));
    assert_eq!(assembler.token_index, 4);
    assembler.increment();
    assert_eq!((assembler.token_index, assembler.memory_location), (5, 3001));
    assembler.token_index = 2;
    assert_eq!(assembler.handle_not(0x9000, &stream), Some(0b1001_011_100_111111));
    assert_eq!(assembler.token_index, 4);
    assembler.token_index = 2;
    assert_eq!(assembler.handle_reg_reg_offset6(0x6000, &stream), Some(0b0110_011_100_000101));
    assembler.token_index = 3;
    assert_eq!(assembler.handle_jsrr(0x4000, &stream), Some(0b0100_000_100_000000));
    assembler.token_index = 4;
    assert_eq!(assembler.handle_jsrr(0x4000, &stream), None);
    assert_eq!(assembler.token_index, 4);
    assert_eq!(assembler.handle_directive(&Directive::FILL, &stream), Some(vec![5]));
    assert_eq!((assembler.token_index, assembler.memory_location), (5, 3002));
    assert_eq!(assembler.handle_directive(&Directive::END, &stream), Some(vec![]));
    assert_eq!(assembler.handle_directive(&Directive::FILL, &stream), None);
    assert!(!assembler.set_origin(&vec![mk_token(TokenType::Label("a".to_string()))]));
}
