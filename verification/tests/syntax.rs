use lc3_toolchain::assembler::encoder::Asm;
use lc3_toolchain::assembler::lexer::Lexer;
use lc3_toolchain::assembler::syntax::{
    SyntaxChecker, DIRECTIVE_LINE, DIRECTIVE_NAME, IGNORE_LINE, IMMEDIATE, INSTRUCTION_LINE,
    INSTRUCTION_NAME, LABEL, REGISTER, STRING_END, STRING_START, STRING_WHOLE,
};
use lc3_toolchain::assembler::token::TokenType;
use lc3_toolchain::tokens_from;
use regex::Regex;

fn checker() -> SyntaxChecker {
    SyntaxChecker::new().unwrap()
}

#[test]
fn test_instruction_lines() {
    let s = checker();

    assert!(s.is_ins(r"       add  r1, r1, r1 "));
    assert!(s.is_ins(r"hi     add  r1, r1, hi "));
    assert!(s.is_ins(r"       add  r1, hi, r1 "));
    assert!(s.is_ins(r"       add  hi, r1, r1 "));
    assert!(s.is_ins(r"       add  #1, r1, r1 "));
    assert!(s.is_ins(r"       add  #1, #1, r1 "));
    assert!(s.is_ins(r"       add  #1, r1, #1 "));
    assert!(s.is_ins(r"       add  #1, #1, #1 "));
    assert!(s.is_ins(r"       add  xF, XF, ff "));
    assert!(s.is_ins(r"_      add  R0, R1, r1 "));
    assert!(s.is_ins(r"       add  R0, R1 "));
    assert!(s.is_ins(r"       add  R0 "));
    assert!(s.is_ins(r"       add  #1, #1, #1 ; Comments are ignored"));
    assert!(s.is_ins(r"       add  #1, #1, #1;even here "));
    assert!(s.is_ins(r"       add ; Instructions don' need operands "));
    assert!(s.is_ins(r"here RET"));
    assert!(s.is_ins(r"add r1,r1, #1"));
    assert!(s.is_ins(r"                NOT     R0, R0"));
    assert!(s.is_ins(r"       hello    NOT     R0, R0 ; Whitespace must be allowed before labels"));
    assert!(s.is_ins(r"in"));
    assert!(s.is_ins(r"rin"));

    assert!(!s.is_ins(r"12 add r1, #1, #1"));
    assert!(!s.is_ins(r"hi add r1, 1, #1"));
    assert!(!s.is_ins(r"hi add r1, r1, r1, r1"));
    assert!(!s.is_ins(r"hi add! r1, r1, r1 "));
    assert!(!s.is_ins(r"hi .add r1, r1, r1 "));
    assert!(!s.is_ins(r"; comment"));
    assert!(!s.is_ins(r""));
}

#[test]
fn test_directive_lines() {
    let s = checker();

    assert!(s.is_dir(r#"        .ORIG  x3000 "#));
    assert!(s.is_dir(r#"start   .ORIG  x3000 "#));
    assert!(s.is_dir(r#"start   .orig  x3000 "#));
    assert!(s.is_dir(r#"start   .FILL  "HI!" "#));
    assert!(s.is_dir(r#"        .ANYTHING    "#));
    assert!(s.is_dir(r#"        .ORIG  #3000 "#));
    assert!(s.is_dir(r#"        .ORIG  #3000 ; comments are supported"#));
    assert!(s.is_dir(r#"        .ORIG  #3000;"#));
    assert!(s.is_dir(r#"start   .ORIG  #3000 ; MORE COMMENTS!!! "#));
    assert!(s.is_dir(r#".ORIG  #3000 ; labels are not required "#));
    assert!(s.is_dir(r#"        .end"#));
    assert!(s.is_dir(r#"        .END"#));
    assert!(s.is_dir(r#".END"#));
    assert!(s.is_dir(r#".Okay"#));
    assert!(s.is_dir(r#"    end    .END ; Whitespace must be allowed before labels"#));

    assert!(!s.is_dir(r#"         ORIG  x3000 "#));
    assert!(!s.is_dir(r#"        .ORIG  x3000, x3000 "#));
    assert!(!s.is_dir(r#"  ;     .ORIG  x3000 "#));
    assert!(!s.is_dir(r#"        ADD  r1, r1 "#));
    assert!(!s.is_dir(r#"HI    ADD  r1, r1 "#));
    assert!(!s.is_dir(r#"HI"#));
    assert!(!s.is_dir(r#""#));
    assert!(!s.is_dir(r#"_"#));
    assert!(!s.is_dir(r#"._"#));
    assert!(!s.is_dir(r#"._"#));
    assert!(!s.is_dir(r#" END. "#));
    assert!(!s.is_dir(r#" .! "#));
    assert!(!s.is_dir(r#" .! "#));
}

#[test]
fn test_ignore_lines() {
    let s = checker();

    assert!(s.is_ignore(r"  ;       .ORIG  x3000    "));
    assert!(s.is_ignore(r"  ;  A COMMENT  "));
    assert!(s.is_ignore(r"    "));
    assert!(s.is_ignore(r""));
    assert!(s.is_ignore(r";"));
    assert!(s.is_ignore("\t\t;"));
    assert!(s.is_ignore(" ;  LITERALLY ANYTHING YOU WOULD WANT TO PUT HERE ^_^"));

    assert!(!s.is_ignore(r"         .ORIG  x3000    "));
    assert!(!s.is_ignore(r"       add  r1, r1, r1   "));
    assert!(!s.is_ignore(r"       add  r1, r1, r1   "));
    assert!(!s.is_ignore(r"hello;   "));
    assert!(!s.is_ignore(r"_ "));
    assert!(!s.is_ignore(r"! "));
}

#[test]
fn test_br_nzp_regex() {
    let s = checker();

    assert!(s.is_instruction_name("BR"));
    assert!(s.is_instruction_name("BRN"));
    assert!(s.is_instruction_name("BRZ"));
    assert!(s.is_instruction_name("BRP"));
    assert!(s.is_instruction_name("BRNZ"));
    assert!(s.is_instruction_name("BRNP"));
    assert!(s.is_instruction_name("BRZP"));
    assert!(s.is_instruction_name("BRNZP"));

    assert!(s.is_instruction_name(&"brnzp".to_ascii_uppercase()));
}

#[test]
fn test_instruction_name() {
    let s = checker();

    assert!(s.is_instruction_name("BR"));
    assert!(s.is_instruction_name("ADD"));
    assert!(s.is_instruction_name("AND"));
    assert!(s.is_instruction_name("JMP"));
    assert!(s.is_instruction_name("JSR"));
    assert!(s.is_instruction_name("LD"));
    assert!(s.is_instruction_name("LDI"));
    assert!(s.is_instruction_name("LDR"));
    assert!(s.is_instruction_name("LEA"));
    assert!(s.is_instruction_name("RET"));
    assert!(s.is_instruction_name("RTI"));
    assert!(s.is_instruction_name("ST"));
    assert!(s.is_instruction_name("STI"));
    assert!(s.is_instruction_name("STR"));
    assert!(s.is_instruction_name("GETC"));
    assert!(s.is_instruction_name("OUT"));
    assert!(s.is_instruction_name("PUTS"));
    assert!(s.is_instruction_name("IN"));
    assert!(s.is_instruction_name("HALT"));

    assert!(!s.is_instruction_name("SIN"));
    assert!(!s.is_instruction_name("in"));
    assert!(!s.is_instruction_name("ANDY"));
    assert!(!s.is_instruction_name("AND "));
    assert!(!s.is_instruction_name("WHAT"));
    assert!(!s.is_instruction_name("^"));
    assert!(!s.is_instruction_name("???"));
    assert!(!s.is_instruction_name(""));
    assert!(!s.is_instruction_name(" "));
}

#[test]
fn test_register_regex() {
    let s = checker();

    assert!(s.is_valid_register("R0"));
    assert!(s.is_valid_register("R1"));
    assert!(s.is_valid_register("R2"));
    assert!(s.is_valid_register("R3"));
    assert!(s.is_valid_register("R4"));
    assert!(s.is_valid_register("R5"));
    assert!(s.is_valid_register("R6"));
    assert!(s.is_valid_register("R7"));

    assert!(!s.is_valid_register("R8"));
    assert!(!s.is_valid_register("RR7"));
}

#[test]
fn test_imm_regex() {
    let s = checker();

    assert!(s.is_valid_immediate_value("#1"));
    assert!(s.is_valid_immediate_value("#-1"));
    assert!(s.is_valid_immediate_value("#256"));
    assert!(s.is_valid_immediate_value("#-256"));
    assert!(s.is_valid_immediate_value("#779"));
    assert!(s.is_valid_immediate_value("#-918"));
    assert!(s.is_valid_immediate_value("x0FA1"));
    assert!(s.is_valid_immediate_value("#-918"));

    assert!(!s.is_valid_immediate_value("#0FA1"));
}

#[test]
fn words_and_strings_have_their_shapes() {
    let s = checker();

    assert!(s.is_directive_name(".ORIG"));
    assert!(s.is_directive_name(".STRINGZ"));
    assert!(!s.is_directive_name(".orig"));
    assert!(!s.is_directive_name(".ORIGIN"));
    assert!(s.is_valid_label("_loop1"));
    assert!(!s.is_valid_label("1loop"));
    assert!(!s.is_valid_label("lo-op"));
    assert!(s.is_valid_immediate_value("X3000"));
    assert!(s.is_valid_immediate_value("xbeef"));
    assert!(!s.is_valid_immediate_value("x"));
    assert!(s.is_valid_string_whole("\"abc\""));
    assert!(!s.is_valid_string_whole("\"abc"));
    assert!(s.is_string_start("\"abc"));
    assert!(!s.is_string_start("abc\""));
    assert!(s.is_string_end("abc\""));
    assert!(!s.is_string_end("\"abc"));
}

#[test]
fn the_screen_reports_each_bad_line() {
    let s = checker();
    let file = ".ORIG x3000\nadd r1, r1, r1, r1\n; fine\n12 add r1\nHALT\n.END\n";
    assert!(!s.is_syntactically_valid_file(file));
    let errors = s.syntax_errors(file);
    assert_eq!(errors.len(), 2);
    assert_eq!(errors[0].code, "SX000");
    assert_eq!(errors[0].line_num, 2);
    assert_eq!(errors[0].line_content, "add r1, r1, r1, r1");
    assert_eq!(errors[1].line_num, 4);
    assert_eq!(errors[1].line_content, "12 add r1");
    assert!(errors[0].from_to.is_none());

    assert!(s.is_syntactically_valid_file(".ORIG x3000\r\nHALT\r\n.END"));
    assert!(s.is_syntactically_valid_file(""));
    assert!(s.syntax_errors("\n\n").is_empty());
}

fn compiled_with(register: Result<Regex, regex::Error>) -> Option<SyntaxChecker> {
    SyntaxChecker::from_compiled(
        Regex::new(INSTRUCTION_LINE),
        Regex::new(DIRECTIVE_LINE),
        Regex::new(IGNORE_LINE),
        Regex::new(INSTRUCTION_NAME),
        Regex::new(DIRECTIVE_NAME),
        register,
        Regex::new(LABEL),
        Regex::new(IMMEDIATE),
        Regex::new(STRING_WHOLE),
        Regex::new(STRING_START),
        Regex::new(STRING_END),
    )
}

#[test]
fn a_checker_needs_every_pattern_compiled() {
    let s = compiled_with(Regex::new(REGISTER)).unwrap();
    assert!(s.is_valid_register("r7"));
    assert!(!s.is_valid_register("r8"));
    assert!(s.is_ins("add r1, r1, #-1"));
    assert!(s.is_valid_label("loop"));
    assert!(!s.is_valid_label("r7!"));

    assert!(Regex::new("(").is_err());
    assert!(compiled_with(Regex::new("(")).is_none());
    assert!(SyntaxChecker::new().is_some());
}

#[test]
fn what_is_built_on_a_checker() {
    assert!(Lexer::from_checker(None).is_none());
    assert!(Asm::from_lexer(None).is_none());
    assert!(tokens_from(None, String::from("RET")).is_none());

    let mut lexer = Lexer::from_checker(SyntaxChecker::new()).unwrap();
    assert_eq!(lexer.curr_line_num, 1);
    assert_eq!((lexer.file_position, lexer.line_position), (0, 0));
    assert!(lexer.token_stream.is_empty() && lexer.errors.is_empty());
    assert!(lexer.syntax_checker.is_valid_register("R3"));
    assert_eq!(lexer.run(String::from("R3"))[0].inner_token, TokenType::Register(3));

    let mut assembler = Asm::from_lexer(Lexer::new()).unwrap();
    assert_eq!((assembler.token_index, assembler.memory_location), (0, 0));
    assert!(assembler.semantic_checker.nul_terminated);
    assert!(assembler.syntax_errors.is_empty());
    assert_eq!(assembler.semantic_checker.symbol_table.len(), 0);
    assert_eq!(assembler.run(String::from(".ORIG x3000\nRET\n.END")), vec![0x3000, 0xc1c0]);

    let collection = tokens_from(Lexer::new(), String::from("RET ; done")).unwrap();
    assert_eq!(collection.tokens.len(), 1);
    assert_eq!(collection.tokens[0].original_match, "RET");
}
