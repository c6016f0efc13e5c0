use lc3_toolchain::assembler::asm_error::{AsmError, ErrorType};
use lc3_toolchain::assembler::encoder::Asm;
use lc3_toolchain::assembler::file::AsmFile;
use lc3_toolchain::get_tokens;
use lc3_toolchain::assembler::token::{Token, TokenType};
use lc3_toolchain::output::WebIO;
use lc3_toolchain::vm::vm::VM;

fn assembler() -> Asm {
    Asm::new().unwrap()
}

#[test]
fn add_then_halt() {
    let image = assembler().run(String::from(".ORIG x3000\nADD R2,R1,R1\nHALT\n.END"));
    assert_eq!(image, vec![0x3000, 0b0001_010_001_000_001, 0xf025]);
    let mut vm = VM::new();
    let mut io = WebIO::new("");
    vm.registers.set(1, 5);
    assert_eq!(vm.run(image, &mut io, 1000), Ok(true));
    assert_eq!(vm.registers.get(2), 10);
    assert!(vm.registers.halt);
}

#[test]
fn fill_words() {
    let image = assembler().run(String::from(".ORIG x3000\n.FILL x000A\n.FILL #1999\n.END"));
    assert_eq!(image, vec![0x3000, 0x000a, 0x07cf]);
}

#[test]
fn a_string_and_its_terminator() {
    let source = ".ORIG x3000\n.STRINGZ \"HELP ME!\"\n.END";
    let image = assembler().run(String::from(source));
    assert_eq!(image.len(), 10);
    assert_eq!(image[1], 'H' as u16);
    assert_eq!(image[8], '!' as u16);
    assert_eq!(image[9], 0);

    let mut unterminated = assembler();
    unterminated.semantic_checker.nul_terminated = false;
    let image = unterminated.run(String::from(source));
    assert_eq!(image.len(), 9);
    assert_eq!(image[8], '!' as u16);

    assert_eq!(assembler().run(String::from(".ORIG x3000\n.STRINGZ \"\"\n.END")), vec![0x3000, 0]);
    assert_eq!(unterminated.run(String::from(".ORIG x3000\n.STRINGZ \"\"\n.END")), vec![0x3000]);
}

#[test]
fn count_down_loop() {
    let image = assembler().run(String::from(
        ".ORIG x3000\nLOOP ADD R1,R1,#-1\nBRp LOOP\nHALT\n.END",
    ));
    assert_eq!(image, vec![0x3000, 0b0001_001_001_1_11111, 0b0000_001_111111110, 0xf025]);
    let mut vm = VM::new();
    let mut io = WebIO::new("");
    vm.registers.set(1, 3);
    assert_eq!(vm.run(image, &mut io, 1000), Ok(true));
    assert!(vm.registers.halt);
    assert_eq!(vm.registers.get(1), 0);
    assert!(vm.registers.z);
    assert!(!vm.registers.n && !vm.registers.p);
}

#[test]
fn hello_through_puts() {
    let image = assembler().run(String::from(
        ".ORIG x3000\nLEA R0,MSG\nPUTS\nHALT\nMSG .STRINGZ \"Hi\"\n.END",
    ));
    assert_eq!(image, vec![0x3000, 0xe002, 0xf022, 0xf025, 'H' as u16, 'i' as u16, 0]);
    let mut vm = VM::new();
    let mut io = WebIO::new("");
    assert_eq!(vm.run(image, &mut io, 1000), Ok(true));
    assert_eq!(io.printed(), "Hi");
    assert!(vm.registers.halt);
}

#[test]
fn an_undefined_label_gives_no_image() {
    let mut assembler = assembler();
    let image = assembler.run(String::from(".ORIG x3000\nLD R1, FOO\nHALT\n.END"));
    assert!(image.is_empty());
    assert!(assembler.syntax_errors.is_empty());
    assert!(assembler.lexer.errors.is_empty());
    let errors = &assembler.semantic_checker.errors;
    assert_eq!(errors.len(), 1);
    assert_eq!(errors[0].code, "SM014");
    assert!(matches!(errors[0].err_type, ErrorType::LabelError));
    assert!(errors[0].generate_msg().starts_with("[SM014] LabelError: On line 2, "));
}

#[test]
fn each_stage_stops_the_next() {
    let mut assembler = assembler();
    assert!(assembler.run(String::from(".ORIG x3000\nADD R1, R1, R1, R1\nFOO 12\n.END")).is_empty());
    assert_eq!(assembler.syntax_errors.len(), 2);
    assert_eq!(assembler.syntax_errors[0].code, "SX000");
    assert_eq!(assembler.syntax_errors[1].line_num, 3);

    assert!(assembler.run(String::from(".ORIG x3000\n.STRINGZ \"a\\qb\"\n.END")).is_empty());
    assert!(assembler.syntax_errors.is_empty());
    assert_eq!(assembler.lexer.errors.len(), 1);
    assert_eq!(assembler.lexer.errors[0].code, "SX003");

    assert!(assembler.run(String::from(".ORIG x3000\nADD R1, R1, #16\n.END")).is_empty());
    assert!(assembler.lexer.errors.is_empty());
    assert_eq!(assembler.semantic_checker.errors.len(), 1);
    assert_eq!(assembler.semantic_checker.errors[0].code, "SM015");

    let image = assembler.run(String::from(".ORIG x3000\nADD R1, R1, #15\n.END"));
    assert_eq!(image, vec![0x3000, 0b0001_001_001_1_01111]);
    assert!(assembler.semantic_checker.errors.is_empty());
}

#[test]
fn assembling_twice_gives_the_same_image() {
    let source = ".ORIG x3000\nLEA R0, MSG\nLOOP LDR R1, R0, #0\nBRz DONE\nADD R0, R0, #1\nBRnzp LOOP\nDONE HALT\nMSG .STRINGZ \"text\"\nBUF .BLKW #3\n.END";
    let mut first = assembler();
    let one = first.run(String::from(source));
    let two = first.run(String::from(source));
    let three = assembler().run(String::from(source));
    assert_eq!(one.len(), 15);
    assert_eq!(one, two);
    assert_eq!(one, three);
}

#[test]
fn offsets_at_the_edge_of_nine_bits() {
    let image = assembler().run(String::from(".ORIG x3000\nLD R0, T\n.BLKW #255\nT .FILL #0\n.END"));
    assert_eq!(image[1], 0b0010_000_011111111);
    let image = assembler().run(String::from(".ORIG x3000\nT .BLKW #255\nBRnzp T\n.END"));
    assert_eq!(image[256], 0b0000_111_100000000);
    assert_eq!(image.len(), 257);
    let image = assembler().run(String::from(".ORIG x3000\n.BLKW #0\nADD R1, R1, #-16\n.END"));
    assert_eq!(image, vec![0x3000, 0b0001_001_001_1_10000]);
}

#[test]
fn diagnostics_as_text() {
    let mut error = AsmError::new(
        String::from("SX000"),
        "  ADD R1",
        12,
        ErrorType::SyntaxError,
        "something is wrong",
    );
    assert_eq!(error.generate_msg(), "[SX000] SyntaxError: On line 12, something is wrong\n\t  ADD R1\n");
    error.set_from_to(3, 5);
    assert_eq!(
        error.generate_msg(),
        "[SX000] SyntaxError: On line 12, something is wrong\n\t  ADD R1\n\t  ^^^^^\n"
    );
    error.set_from_to(0, 2);
    assert_eq!(
        error.generate_msg(),
        "[SX000] SyntaxError: On line 12, something is wrong\n\t  ADD R1\n\t^^\n"
    );
    let mut io = WebIO::new("");
    error.print(&mut io);
    assert_eq!(io.printed(), error.generate_msg());

    let token = Token {
        inner_token: TokenType::Register(1),
        to: 7,
        from: 6,
        file_relative_to: 27,
        file_relative_from: 26,
        line_num: 4,
        original_match: String::from("R1"),
    };
    let error = AsmError::from(String::from("SM008"), "  ADD R1", token, ErrorType::OperandError, "m");
    assert_eq!(error.line_num, 4);
    assert_eq!(error.from_to, Some((6, 7)));
    assert_eq!(error.generate_msg(), "[SM008] OperandError: On line 4, m\n\t  ADD R1\n\t     ^^^^^^^\n");
    assert_eq!(ErrorType::LogicalError.as_str(), "LogicalError");
    assert_eq!(ErrorType::BoundError.as_str(), "BoundError");
    assert_eq!(ErrorType::LabelError.as_str(), "LabelError");
    let zero = AsmError::new(String::from("SM013"), "", 0, ErrorType::LogicalError, "");
    assert_eq!(zero.generate_msg(), "[SM013] LogicalError: On line 0, \n\t\n");
    let big = AsmError::new(String::from("C"), "", 1_000_000_007, ErrorType::SyntaxError, "");
    assert!(big.generate_msg().contains("On line 1000000007,"));
}

#[test]
fn lines_of_a_file() {
    let file = AsmFile::new(String::from("first\r\nsecond\n\nfourth\r"));
    assert_eq!(file.get_line(1), "first");
    assert_eq!(file.get_line(2), "second");
    assert_eq!(file.get_line(3), "");
    assert_eq!(file.get_line(4), "fourth\r");
    assert_eq!(file.get_line(5), "");
    assert_eq!(file.get_line(0), "");
    assert_eq!(AsmFile::new(String::from("only\n")).get_line(1), "only");
    assert_eq!(AsmFile::new(String::from("only\n")).get_line(2), "");
    assert_eq!(AsmFile::new(String::new()).get_line(1), "");
}

#[test]
fn tokens_from_places() {
    let t = Token::new(10, 4, 3, "R2", TokenType::Register(2));
    assert_eq!((t.from, t.to), (1, 2));
    assert_eq!((t.file_relative_from, t.file_relative_to), (7, 8));
    assert_eq!(t.line_num, 3);
    assert_eq!(t.original_match, "R2");
    let useless = Token::get_useless_token();
    assert_eq!(useless.inner_token, TokenType::INVALID(String::new()));
    assert_eq!(useless.line_num, 0);
    assert_eq!(t.clone(), t);
}

#[test]
fn labels_stand_where_the_image_puts_them() {
    let source = ".ORIG x3000\nA ADD R1, R1, #1\nB .FILL #7\nC .BLKW #3\nD .STRINGZ \"ab\"\nE LD R2, B\nF HALT\n.END";
    let mut assembler = assembler();
    let image = assembler.run(String::from(source));
    let table = &assembler.semantic_checker.symbol_table;
    let at = |name: &str| table.get(name).unwrap().0 as usize;
    assert_eq!(table.len(), 6);
    // The words before each label are as many as its address is above the origin.
    assert_eq!(at("A"), 0x3000);
    assert_eq!(at("B"), 0x3001);
    assert_eq!(at("C"), 0x3002);
    assert_eq!(at("D"), 0x3005);
    assert_eq!(at("E"), 0x3008);
    assert_eq!(at("F"), 0x3009);
    assert_eq!(image.len(), 1 + 10);
    let word_at = |name: &str| image[1 + at(name) - 0x3000];
    assert_eq!(word_at("A"), 0b0001_001_001_1_00001);
    assert_eq!(word_at("B"), 7);
    assert_eq!(word_at("C"), 0);
    assert_eq!(word_at("D"), 'a' as u16);
    assert_eq!(word_at("E"), 0b0010_010_111111000);
    assert_eq!(word_at("F"), 0xf025);
}

#[test]
fn tokens_of_a_text() {
    let collection = get_tokens(String::from("LOOP BRnz LOOP ; again")).unwrap();
    assert_eq!(collection.tokens.len(), 3);
    assert_eq!(collection.tokens[0].inner_token, TokenType::Label(String::from("LOOP")));
    assert_eq!(collection.tokens[2].from, 10);
}
