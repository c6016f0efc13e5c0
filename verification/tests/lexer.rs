use lc3_toolchain::assembler::asm_ins::OpcodeIns;
use lc3_toolchain::assembler::directive::Directive;
use lc3_toolchain::assembler::lexer::{
    Lexer, WordShape, CODE_INVALID_ESCAPE_CHAR, CODE_STRING_NOT_ENDED, CODE_TOKEN_NO_CATEGORY,
};
use lc3_toolchain::assembler::token::{Token, TokenType};

fn lexer() -> Lexer {
    Lexer::new().unwrap()
}

fn first(source: &str) -> TokenType {
    lexer().run(String::from(source))[0].inner_token.clone()
}

#[test]
fn test_br_nzp() {
    let mut lexer = lexer();

    assert_eq!(
        lexer.run(String::from(" BR "))[0].inner_token,
        TokenType::Instruction(OpcodeIns::Br(true, true, true))
    );
    assert_eq!(
        lexer.run(String::from(" BRn "))[0].inner_token,
        TokenType::Instruction(OpcodeIns::Br(true, false, false))
    );
    assert_eq!(
        lexer.run(String::from(" BRz "))[0].inner_token,
        TokenType::Instruction(OpcodeIns::Br(false, true, false))
    );
    assert_eq!(
        lexer.run(String::from(" BRp "))[0].inner_token,
        TokenType::Instruction(OpcodeIns::Br(false, false, true))
    );
    assert_eq!(
        lexer.run(String::from(" BRnz "))[0].inner_token,
        TokenType::Instruction(OpcodeIns::Br(true, true, false))
    );
    assert_eq!(
        lexer.run(String::from(" BRnp "))[0].inner_token,
        TokenType::Instruction(OpcodeIns::Br(true, false, true))
    );
    assert_eq!(
        lexer.run(String::from(" BRzp "))[0].inner_token,
        TokenType::Instruction(OpcodeIns::Br(false, true, true))
    );
    assert_eq!(
        lexer.run(String::from(" BRnzp "))[0].inner_token,
        TokenType::Instruction(OpcodeIns::Br(true, true, true))
    );
}

#[test]
fn test_instructions() {
    let mut lexer = lexer();

    assert_eq!(
        lexer.run(String::from(" ADD "))[0].inner_token,
        TokenType::Instruction(OpcodeIns::Add)
    );
    assert_eq!(
        lexer.run(String::from(" AND "))[0].inner_token,
        TokenType::Instruction(OpcodeIns::And)
    );
    assert_eq!(
        lexer.run(String::from(" JMP "))[0].inner_token,
        TokenType::Instruction(OpcodeIns::Jmp)
    );
    assert_eq!(
        lexer.run(String::from(" JSR "))[0].inner_token,
        TokenType::Instruction(OpcodeIns::Jsr)
    );
    assert_eq!(
        lexer.run(String::from(" Jsrr "))[0].inner_token,
        TokenType::Instruction(OpcodeIns::Jsrr)
    );
    assert_eq!(
        lexer.run(String::from(" LD "))[0].inner_token,
        TokenType::Instruction(OpcodeIns::Ld)
    );
    assert_eq!(
        lexer.run(String::from(" LDI "))[0].inner_token,
        TokenType::Instruction(OpcodeIns::Ldi)
    );
    assert_eq!(
        lexer.run(String::from(" LDR "))[0].inner_token,
        TokenType::Instruction(OpcodeIns::Ldr)
    );
    assert_eq!(
        lexer.run(String::from(" LEA "))[0].inner_token,
        TokenType::Instruction(OpcodeIns::Lea)
    );
    assert_eq!(
        lexer.run(String::from(" NOT "))[0].inner_token,
        TokenType::Instruction(OpcodeIns::Not)
    );
    assert_eq!(
        lexer.run(String::from(" RET "))[0].inner_token,
        TokenType::Instruction(OpcodeIns::Ret)
    );
    assert_eq!(
        lexer.run(String::from(" RTI "))[0].inner_token,
        TokenType::Instruction(OpcodeIns::Rti)
    );
    assert_eq!(
        lexer.run(String::from(" ST "))[0].inner_token,
        TokenType::Instruction(OpcodeIns::St)
    );
    assert_eq!(
        lexer.run(String::from(" STI "))[0].inner_token,
        TokenType::Instruction(OpcodeIns::Sti)
    );
    assert_eq!(
        lexer.run(String::from(" STR "))[0].inner_token,
        TokenType::Instruction(OpcodeIns::Str)
    );
    assert_eq!(
        lexer.run(String::from(" GETC "))[0].inner_token,
        TokenType::Instruction(OpcodeIns::Trap(0x20))
    );
    assert_eq!(
        lexer.run(String::from(" OUT "))[0].inner_token,
        TokenType::Instruction(OpcodeIns::Trap(0x21))
    );
    assert_eq!(
        lexer.run(String::from(" PUTS "))[0].inner_token,
        TokenType::Instruction(OpcodeIns::Trap(0x22))
    );
    assert_eq!(
        lexer.run(String::from(" IN "))[0].inner_token,
        TokenType::Instruction(OpcodeIns::Trap(0x23))
    );
    assert_eq!(
        lexer.run(String::from(" HALT "))[0].inner_token,
        TokenType::Instruction(OpcodeIns::Trap(0x25))
    );

    assert_ne!(
        lexer.run(String::from(" HALTS "))[0].inner_token,
        TokenType::Instruction(OpcodeIns::Trap(0x25))
    );
    assert_ne!(
        lexer.run(String::from(" ADDI "))[0].inner_token,
        TokenType::Instruction(OpcodeIns::Add)
    );
    assert_ne!(
        lexer.run(String::from(" ANDY "))[0].inner_token,
        TokenType::Instruction(OpcodeIns::And)
    );
    assert_ne!(
        lexer.run(String::from(" JSRRR "))[0].inner_token,
        TokenType::Instruction(OpcodeIns::Jsrr)
    );
    assert_ne!(
        lexer.run(String::from(" badd "))[0].inner_token,
        TokenType::Instruction(OpcodeIns::Add)
    );
}

#[test]
fn test_registers() {
    let mut lexer = lexer();

    assert_eq!(lexer.run(String::from(" R0 "))[0].inner_token, TokenType::Register(0));
    assert_eq!(lexer.run(String::from(" R1 "))[0].inner_token, TokenType::Register(1));
    assert_eq!(lexer.run(String::from(" R2 "))[0].inner_token, TokenType::Register(2));
    assert_eq!(lexer.run(String::from(" R3 "))[0].inner_token, TokenType::Register(3));
    assert_eq!(lexer.run(String::from(" R4 "))[0].inner_token, TokenType::Register(4));
    assert_eq!(lexer.run(String::from(" R5 "))[0].inner_token, TokenType::Register(5));
    assert_eq!(lexer.run(String::from(" R6 "))[0].inner_token, TokenType::Register(6));
    assert_eq!(lexer.run(String::from(" R7 "))[0].inner_token, TokenType::Register(7));

    assert_ne!(lexer.run(String::from(" R8 "))[0].inner_token, TokenType::Register(8));
    assert_ne!(lexer.run(String::from(" RR1 "))[0].inner_token, TokenType::Register(1));
    assert_ne!(lexer.run(String::from(" GO_TO_R1 "))[0].inner_token, TokenType::Register(1));
    assert_ne!(
        lexer.run(String::from(" R1_FOREVER_IN_MY_HEART "))[0].inner_token,
        TokenType::Register(1)
    );
    assert_ne!(
        lexer.run(String::from(" okay_R1_your_right "))[0].inner_token,
        TokenType::Register(1)
    );
}

#[test]
fn test_directives() {
    let mut lexer = lexer();

    assert_eq!(
        lexer.run(String::from(" .ORIG "))[0].inner_token,
        TokenType::Directive(Directive::ORIG)
    );
    assert_eq!(
        lexer.run(String::from(" .FILL "))[0].inner_token,
        TokenType::Directive(Directive::FILL)
    );
    assert_eq!(
        lexer.run(String::from(" .BLKW "))[0].inner_token,
        TokenType::Directive(Directive::BLKW)
    );
    assert_eq!(
        lexer.run(String::from(" .STRINGZ "))[0].inner_token,
        TokenType::Directive(Directive::STRINGZ)
    );
    assert_eq!(
        lexer.run(String::from(" .END "))[0].inner_token,
        TokenType::Directive(Directive::END)
    );
}

#[test]
fn test_numbers() {
    let mut lexer = lexer();

    assert_eq!(lexer.run(String::from(" #1 "))[0].inner_token, TokenType::Number(1));
    assert_eq!(lexer.run(String::from(" #2 "))[0].inner_token, TokenType::Number(2));
    assert_eq!(lexer.run(String::from(" #3 "))[0].inner_token, TokenType::Number(3));
    assert_eq!(lexer.run(String::from(" #128 "))[0].inner_token, TokenType::Number(128));
    assert_eq!(lexer.run(String::from(" #-128 "))[0].inner_token, TokenType::Number(-128));

    assert_eq!(lexer.run(String::from(" x0000 "))[0].inner_token, TokenType::Number(0));
    assert_eq!(lexer.run(String::from(" x1 "))[0].inner_token, TokenType::Number(1));
    assert_eq!(lexer.run(String::from(" x0001 "))[0].inner_token, TokenType::Number(1));
    assert_eq!(lexer.run(String::from(" xFFFF "))[0].inner_token, TokenType::Number(-1));
}

#[test]
fn test_labels() {
    let mut lexer = lexer();
    let tokens = lexer.run(String::from("LOOP _x a1_b2\nDone9"));
    let names: Vec<TokenType> = tokens.iter().map(|t| t.inner_token.clone()).collect();
    assert_eq!(
        names,
        vec![
            TokenType::Label("LOOP".to_string()),
            TokenType::Label("_x".to_string()),
            TokenType::Label("a1_b2".to_string()),
            TokenType::Label("Done9".to_string()),
        ]
    );
    assert!(lexer.errors.is_empty());
}

#[test]
fn test_case_sensitivity() {
    let mut lexer = lexer();

    assert_eq!(
        lexer.run(String::from(" this "))[0].inner_token,
        TokenType::Label("this".to_string())
    );
    assert_eq!(
        lexer.run(String::from(" THIS "))[0].inner_token,
        TokenType::Label("THIS".to_string())
    );
    assert_ne!(
        lexer.run(String::from(" this "))[0].inner_token,
        TokenType::Label("THIS".to_string())
    );

    assert_eq!(
        lexer.run(String::from(" halt "))[0].inner_token,
        lexer.run(String::from(" HALT "))[0].inner_token
    );
    assert_eq!(
        lexer.run(String::from(" and "))[0].inner_token,
        lexer.run(String::from(" AND "))[0].inner_token
    );
    assert_eq!(
        lexer.run(String::from(" jsrR "))[0].inner_token,
        lexer.run(String::from(" JSRr "))[0].inner_token
    );
    assert_eq!(
        lexer.run(String::from(" LEA "))[0].inner_token,
        lexer.run(String::from(" lea "))[0].inner_token
    );
    assert_eq!(
        lexer.run(String::from(" GeTc "))[0].inner_token,
        lexer.run(String::from(" gEtC "))[0].inner_token
    );

    assert_ne!(
        lexer.run(String::from(r#" "string" "#))[0].inner_token,
        lexer.run(String::from(r#" "STRING" "#))[0].inner_token
    );

    assert_eq!(
        lexer.run(String::from(" r1 "))[0].inner_token,
        lexer.run(String::from(" R1 "))[0].inner_token
    );

    assert_eq!(
        lexer.run(String::from(" .end "))[0].inner_token,
        lexer.run(String::from(" .END "))[0].inner_token
    );
}

#[test]
fn test_hex_overflow() {
    let mut lexer = lexer();

    assert_eq!(lexer.run(String::from(" xFFF6 "))[0].inner_token, TokenType::Number(-10));
    assert_eq!(lexer.run(String::from(" xFFFF "))[0].inner_token, TokenType::Number(-1));
}

#[test]
fn test_commas() {
    let mut lexer = lexer();
    let spaced = lexer.run(String::from("ADD R1 R2 R3"));
    let commas = lexer.run(String::from("ADD R1,R2 , R3"));
    let kinds = |tokens: &Vec<Token>| -> Vec<TokenType> {
        tokens.iter().map(|t| t.inner_token.clone()).collect()
    };
    assert_eq!(kinds(&spaced), kinds(&commas));
    assert_eq!(
        kinds(&commas),
        vec![
            TokenType::Instruction(OpcodeIns::Add),
            TokenType::Register(1),
            TokenType::Register(2),
            TokenType::Register(3),
        ]
    );
    assert!(lexer.errors.is_empty());
}

#[test]
fn test_no_following_whitespace() {
    let mut lexer = lexer();

    assert_eq!(
        lexer.run(String::from("LA"))[0].inner_token,
        TokenType::Label(String::from("LA")),
    )
}

#[test]
fn lexer_test_comments() {
    let mut lexer = lexer();

    assert_eq!(
        lexer.run(String::from("LA;"))[0].inner_token,
        TokenType::Label(String::from("LA"))
    )
}

#[test]
fn test_invalid_escape_char() {
    let mut lexer = lexer();

    let _ = lexer.run(String::from(r#" "hello \." "#));

    assert_eq!(lexer.errors[0].code, String::from(CODE_INVALID_ESCAPE_CHAR));
}

#[test]
fn test_token_after_comment_line_is_captured() {
    let mut lexer = lexer();

    let tokens = lexer.run(String::from(
        r#"
; This
MAYBE_HERE
        "#,
    ));

    assert!(tokens[0].inner_token == TokenType::Label(String::from("MAYBE_HERE")));
}

#[test]
fn every_token_lies_where_it_says() {
    let source = "  .ORIG x3000 ; start\nLOOP ADD R1,R1,#-1\n\tBRp LOOP\nMSG .STRINGZ \"a\\tb\" ; text\n HALT\n.END";
    let chars: Vec<char> = source.chars().collect();
    let lines: Vec<Vec<char>> = source.split('\n').map(|l| l.chars().collect()).collect();
    let tokens = lexer().run(String::from(source));
    assert_eq!(tokens.len(), 14);
    for t in tokens.iter() {
        let lexeme: String = chars[t.file_relative_from..=t.file_relative_to].iter().collect();
        assert_eq!(lexeme, t.original_match);
        let in_line: String = lines[t.line_num - 1][t.from..=t.to].iter().collect();
        assert_eq!(in_line, t.original_match);
    }
    assert_eq!(tokens[0].line_num, 1);
    assert_eq!((tokens[0].from, tokens[0].to), (2, 6));
    assert_eq!(tokens[2].original_match, "LOOP");
    assert_eq!((tokens[2].line_num, tokens[2].from, tokens[2].to), (2, 0, 3));
    assert_eq!((tokens[2].file_relative_from, tokens[2].file_relative_to), (22, 25));
    assert_eq!(tokens[11].inner_token, TokenType::String("a\tb".to_string()));
    assert_eq!(tokens[11].original_match, "\"a\\tb\"");
    assert_eq!((tokens[11].line_num, tokens[11].from, tokens[11].to), (4, 13, 18));
}

#[test]
fn strings_and_their_escapes() {
    assert_eq!(first(r#""a\\b\"c\'d\n\r\t\0""#), TokenType::String("a\\b\"c'd\n\r\t\0".to_string()));
    assert_eq!(first(r#""""#), TokenType::String(String::new()));
    assert_eq!(first(r#""Hello, World! ; not a comment""#),
        TokenType::String("Hello, World! ; not a comment".to_string()));
}

#[test]
fn unknown_escape_gives_nul_and_an_error() {
    let mut lexer = lexer();
    let tokens = lexer.run(String::from("\n \"a\\qb\""));
    assert_eq!(tokens.len(), 1);
    assert_eq!(tokens[0].inner_token, TokenType::String("a\0b".to_string()));
    assert_eq!(lexer.errors.len(), 1);
    assert_eq!(lexer.errors[0].code, CODE_INVALID_ESCAPE_CHAR);
    assert_eq!(lexer.errors[0].line_num, 2);
    assert_eq!(lexer.errors[0].line_content, " \"a\\qb\"");
    assert_eq!(lexer.errors[0].msg, "the given escape character `\\q` does not exist.");
}

#[test]
fn string_not_closed_on_its_line() {
    let mut lexer = lexer();
    let tokens = lexer.run(String::from(".STRINGZ \"abc\nRET"));
    assert_eq!(tokens.len(), 3);
    assert_eq!(tokens[1].inner_token, TokenType::String("abc".to_string()));
    assert_eq!(tokens[1].original_match, "\"abc");
    assert_eq!(tokens[2].inner_token, TokenType::Instruction(OpcodeIns::Ret));
    assert_eq!(tokens[2].line_num, 2);
    assert_eq!(lexer.errors.len(), 1);
    assert_eq!(lexer.errors[0].code, CODE_STRING_NOT_ENDED);
    assert_eq!(lexer.errors[0].line_num, 1);

    let tokens = lexer.run(String::from("\"abc"));
    assert_eq!(tokens[0].inner_token, TokenType::String("abc".to_string()));
    assert_eq!(lexer.errors.len(), 1);
    assert_eq!(lexer.errors[0].code, CODE_STRING_NOT_ENDED);
}

#[test]
fn word_without_category_is_invalid() {
    let mut lexer = lexer();
    let tokens = lexer.run(String::from("RET\n  12ab  \n#99999 x10000 #-32768 #32767 #32768"));
    assert_eq!(tokens[1].inner_token, TokenType::INVALID("12ab".to_string()));
    assert_eq!(tokens[2].inner_token, TokenType::INVALID("#99999".to_string()));
    assert_eq!(tokens[3].inner_token, TokenType::INVALID("x10000".to_string()));
    assert_eq!(tokens[4].inner_token, TokenType::Number(-32768));
    assert_eq!(tokens[5].inner_token, TokenType::Number(32767));
    assert_eq!(tokens[6].inner_token, TokenType::INVALID("#32768".to_string()));
    assert_eq!(lexer.errors.len(), 4);
    for e in lexer.errors.iter() {
        assert_eq!(e.code, CODE_TOKEN_NO_CATEGORY);
    }
    assert_eq!(lexer.errors[0].line_num, 2);
    assert_eq!(lexer.errors[0].line_content, "  12ab  ");
    assert_eq!(lexer.errors[1].line_num, 3);
}

#[test]
fn hex_immediates_take_either_case() {
    assert_eq!(first("X3000"), TokenType::Number(0x3000));
    assert_eq!(first("xff"), TokenType::Number(255));
    assert_eq!(first("x7FFF"), TokenType::Number(32767));
    assert_eq!(first("x8000"), TokenType::Number(-32768));
}

#[test]
fn the_lexer_can_be_used_again() {
    let mut lexer = lexer();
    let _ = lexer.run(String::from("12ab \"open"));
    assert_eq!(lexer.errors.len(), 2);
    let tokens = lexer.run(String::from("\nRET"));
    assert!(lexer.errors.is_empty());
    assert_eq!(tokens.len(), 1);
    assert_eq!(tokens[0].line_num, 2);
    assert_eq!(tokens[0].file_relative_from, 1);
    assert_eq!(lexer.file_position, 0);
    assert_eq!(lexer.curr_line_num, 1);
    assert!(lexer.token_stream.is_empty());
}

#[test]
fn categorize_asks_the_shapes_in_order() {
    let none = WordShape {
        ignore: false,
        instruction: false,
        directive: false,
        register: false,
        immediate: false,
        label: false,
    };
    assert_eq!(Lexer::categorize("r1", WordShape { ignore: true, register: true, ..none }), None);
    assert_eq!(
        Lexer::categorize("add", WordShape { instruction: true, label: true, ..none }),
        Some(TokenType::Instruction(OpcodeIns::Add))
    );
    assert_eq!(
        Lexer::categorize("adds", WordShape { instruction: true, label: true, ..none }),
        Some(TokenType::INVALID("adds".to_string()))
    );
    assert_eq!(
        Lexer::categorize(".fill", WordShape { directive: true, ..none }),
        Some(TokenType::Directive(Directive::FILL))
    );
    assert_eq!(
        Lexer::categorize("a.end", WordShape { directive: true, ..none }),
        Some(TokenType::INVALID("a.end".to_string()))
    );
    assert_eq!(
        Lexer::categorize("r5", WordShape { register: true, label: true, ..none }),
        Some(TokenType::Register(5))
    );
    assert_eq!(
        Lexer::categorize("r8", WordShape { register: true, label: true, ..none }),
        Some(TokenType::INVALID("r8".to_string()))
    );
    assert_eq!(
        Lexer::categorize("#-16", WordShape { immediate: true, ..none }),
        Some(TokenType::Number(-16))
    );
    assert_eq!(
        Lexer::categorize("x1F", WordShape { immediate: true, label: true, ..none }),
        Some(TokenType::Number(31))
    );
    assert_eq!(
        Lexer::categorize("x1F", WordShape { label: true, ..none }),
        Some(TokenType::Label("x1F".to_string()))
    );
    assert_eq!(Lexer::categorize("x1F", none), Some(TokenType::INVALID("x1F".to_string())));
}

#[test]
fn parse_word_places_the_token_before_the_cursor() {
    let mut lexer = lexer();
    lexer.file_position = 10;
    lexer.line_position = 4;
    lexer.curr_line_num = 3;
    lexer.parse_word(String::from("R2"));
    let t = &lexer.token_stream[0];
    assert_eq!(t.inner_token, TokenType::Register(2));
    assert_eq!((t.from, t.to), (1, 2));
    assert_eq!((t.file_relative_from, t.file_relative_to), (7, 8));
    assert_eq!(t.line_num, 3);
    assert_eq!(lexer.parse_register("R6"), 6);
    assert_eq!(lexer.parse_immediate_value("#-7"), -7);
    assert_eq!(lexer.parse_immediate_value("xFFF6"), -10);
    assert_eq!(lexer.parse_escape('n'), '\n');
    assert_eq!(lexer.parse_escape('0'), '\0');
    assert!(lexer.errors.is_empty());
    assert_eq!(lexer.parse_escape('z'), '\0');
    assert_eq!(lexer.errors[0].code, CODE_INVALID_ESCAPE_CHAR);
}
