use stack_based_virtual_machine::parser::assembler::Assembler;
use stack_based_virtual_machine::parser::lexer::CharType;
use stack_based_virtual_machine::parser::lexer::Lexer;
use stack_based_virtual_machine::parser::reader::Reader;
use stack_based_virtual_machine::parser::tokens::Token;
use stack_based_virtual_machine::parser::tokens::TokenType;
use stack_based_virtual_machine::vm::cpu::FaultKind;
use stack_based_virtual_machine::vm::instruction::Opcode;

#[test]
fn lex_single_line() {
    let mut lexer = Lexer::new("PUSH 12");
    lexer.lex();
    assert_eq!(
        vec![
            Token::new(TokenType::Str("PUSH".into()), 1),
            Token::new(TokenType::Num(12), 1)
        ],
        lexer.tokens
    );
}

#[test]
fn lex_multiple_lines() {
    let mut lexer = Lexer::new("Start:\n PUSH 12\nPUSH 15");
    lexer.lex();
    assert_eq!(
        vec![
            Token::new(TokenType::Identifier("Start".into()), 1),
            Token::new(TokenType::Str("PUSH".into()), 2),
            Token::new(TokenType::Num(12), 2),
            Token::new(TokenType::Str("PUSH".into()), 3),
            Token::new(TokenType::Num(15), 3)
        ],
        lexer.tokens
    );
}

#[test]
fn assemble() {
    let tokens = vec![
        Token::new(TokenType::Identifier("Start".into()), 1),
        Token::new(TokenType::Str("PUSH".into()), 2),
        Token::new(TokenType::Num(12), 2),
        Token::new(TokenType::Num(0), 2),
        Token::new(TokenType::Str("PUSH".into()), 3),
        Token::new(TokenType::Num(15), 3),
        Token::new(TokenType::Num(0), 2),
    ];

    let code = vec![
        Opcode::encode(Opcode::PUSH, 12, 0),
        Opcode::encode(Opcode::PUSH, 15, 0),
    ];
    let mut assembler = Assembler::new(tokens, "");
    assembler.assemble();

    assert_eq!(code, assembler.output);
}

#[test]
fn lex_commas_and_whitespace_are_skipped() {
    let mut lexer = Lexer::new("ADD,\t 1");
    lexer.lex();
    assert_eq!(
        vec![
            Token::new(TokenType::Str("ADD".into()), 1),
            Token::new(TokenType::Num(1), 1)
        ],
        lexer.tokens
    );
}

#[test]
fn lex_largest_literal() {
    let mut lexer = Lexer::new("32767");
    lexer.lex();
    assert_eq!(vec![Token::new(TokenType::Num(32767), 1)], lexer.tokens);
}

#[test]
fn lexer_cursor_advance_and_peek() {
    let mut lexer = Lexer::new("AB");
    assert_eq!(lexer.peek(), Some('A'));
    assert_eq!(lexer.advance(), Some('A'));
    assert_eq!(lexer.peek(), Some('B'));
    assert_eq!(lexer.advance(), Some('B'));
    assert_eq!(lexer.peek(), None);
    assert_eq!(lexer.advance(), None);
}

#[test]
fn char_classes() {
    assert_eq!(Lexer::get_char_type('a'), CharType::Letter);
    assert_eq!(Lexer::get_char_type('Z'), CharType::Letter);
    assert_eq!(Lexer::get_char_type('7'), CharType::Num);
    assert_eq!(Lexer::get_char_type(':'), CharType::Colon);
    assert_eq!(Lexer::get_char_type(','), CharType::Comma);
    assert_eq!(Lexer::get_char_type(' '), CharType::WhiteSpace);
    assert_eq!(Lexer::get_char_type('\n'), CharType::Newline);
    assert_eq!(Lexer::get_char_type('\r'), CharType::Return);
    assert_eq!(Lexer::get_char_type('\t'), CharType::Tab);
    assert_eq!(Lexer::get_char_type('!'), CharType::Illegal);
}

#[test]
fn assemble_resolves_labels() {
    // A label is bound to the instruction index of the instruction after
    // it: `Start` to 0, `Loop` to 1.
    let tokens = vec![
        Token::new(TokenType::Identifier("Start".into()), 1),
        Token::new(TokenType::Str("PUSH".into()), 2),
        Token::new(TokenType::Num(1), 2),
        Token::new(TokenType::Num(0), 2),
        Token::new(TokenType::Identifier("Loop".into()), 3),
        Token::new(TokenType::Str("JMP".into()), 4),
        Token::new(TokenType::Str("Loop".into()), 4),
        Token::new(TokenType::Num(0), 4),
        Token::new(TokenType::Str("JMP".into()), 5),
        Token::new(TokenType::Str("Start".into()), 5),
        Token::new(TokenType::Num(0), 5),
    ];
    let mut assembler = Assembler::new(tokens, "");
    assembler.assemble();
    assert_eq!(
        vec![
            Opcode::encode(Opcode::PUSH, 1, 0),
            Opcode::encode(Opcode::JMP, 1, 0),
            Opcode::encode(Opcode::JMP, 0, 0)
        ],
        assembler.output
    );
}

#[test]
fn assemble_push_character() {
    let tokens = vec![
        Token::new(TokenType::Str("PUSH".into()), 1),
        Token::new(TokenType::Str("A".into()), 1),
        Token::new(TokenType::Num(0), 1),
    ];
    let mut assembler = Assembler::new(tokens, "");
    assembler.assemble();
    assert_eq!(vec![Opcode::encode(Opcode::PUSH, 65, 0)], assembler.output);
}

#[test]
fn misaligned_binary_rejected() {
    let bytes = vec![0u8, 0, 0, 0, 0];
    assert_eq!(
        Reader::decode_program(&bytes),
        Err(FaultKind::MisalignedBinary)
    );
}

#[test]
fn binary_image_round_trip() {
    let tokens = vec![
        Token::new(TokenType::Str("PUSH".into()), 1),
        Token::new(TokenType::Num(12), 1),
        Token::new(TokenType::Num(0), 1),
        Token::new(TokenType::Str("HALT".into()), 2),
        Token::new(TokenType::Num(0), 2),
        Token::new(TokenType::Num(0), 2),
    ];
    let mut assembler = Assembler::new(tokens, "");
    assembler.assemble();
    let bytes = assembler.to_bytes();
    assert_eq!(bytes.len(), 8);
    assert_eq!(Reader::decode_program(&bytes), Ok(assembler.output));
}

#[test]
fn words_decode_big_endian() {
    let bytes = vec![1u8, 2, 3, 4, 5, 6, 7, 8];
    assert_eq!(
        Reader::decode_program(&bytes),
        Ok(vec![0x0102_0304, 0x0506_0708])
    );
}

#[test]
fn mnemonics_name_opcodes() {
    assert_eq!(Opcode::from_name(&"HALT".to_string()), Opcode::HALT);
    assert_eq!(Opcode::from_name(&"RETURN".to_string()), Opcode::RETURN);
    assert_eq!(Opcode::from_name(&"NOSUCH".to_string()), Opcode::ILG);
}
