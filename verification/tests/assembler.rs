use remu::compiler::Compiler;
use remu::error::EmulatorError;
use remu::opcode::Opcode;
use remu::parser::Parser;
use remu::token::Register;
use remu::token::Token;

fn assemble(lines: &[&str]) -> Result<Vec<u8>, EmulatorError> {
    let owned: Vec<String> = lines.iter().map(|s| s.to_string()).collect();
    let mut parser = Parser::new(owned);
    let tokens = parser.parse()?;
    Compiler::new().compile(tokens)
}

fn parse_tokens(lines: &[&str]) -> Result<Vec<Token>, EmulatorError> {
    let owned: Vec<String> = lines.iter().map(|s| s.to_string()).collect();
    let mut parser = Parser::new(owned);
    parser.parse()
}

#[test]
fn canonical_forms_roundtrip() {
    let cases: Vec<(&str, u8, Opcode, u8)> = vec![
        ("mov A,0101", 0x35, Opcode::MovA, 5),
        ("mov B,0110", 0x76, Opcode::MovB, 6),
        ("mov A,B", 0x40, Opcode::MovA2B, 0),
        ("mov B,A", 0x10, Opcode::MovB2A, 0),
        ("add A,0001", 0x01, Opcode::AddA, 1),
        ("add B,0011", 0x53, Opcode::AddB, 3),
        ("jmp 0010", 0xF2, Opcode::Jmp, 2),
        ("jnc 0100", 0xE4, Opcode::Jnc, 4),
        ("in A", 0x20, Opcode::InA, 0),
        ("in B", 0x60, Opcode::InB, 0),
        ("out B", 0x90, Opcode::OutB, 0),
        ("out 1011", 0xBB, Opcode::OutIm, 11),
    ];
    for (text, byte, opcode, immediate) in cases {
        let program = assemble(&[text]).unwrap();
        assert_eq!(program, vec![byte], "encoding of {}", text);
        assert_eq!(Opcode::from_code(byte >> 4), Some(opcode), "opcode of {}", text);
        assert_eq!(opcode.code(), byte >> 4, "code of {}", text);
        assert_eq!(byte & 0x0f, immediate, "immediate of {}", text);
    }
}

#[test]
fn tokens_from_text() {
    let tokens = parse_tokens(&["mov A,0001", "add B,1111", "jnc 0000", "out B"]).unwrap();
    assert_eq!(
        tokens,
        vec![
            Token::Mov(Register::A, 1),
            Token::Add(Register::B, 15),
            Token::Jnc(0),
            Token::OutB,
        ]
    );
}

#[test]
fn immediate_masking() {
    // A five-digit operand parses to 16 and its low nibble, zero, lands in
    // the encoded word; the widest in-range operand is kept whole.
    let program = assemble(&["out 10000"]).unwrap();
    assert_eq!(program, vec![0xB0]);
    let program = assemble(&["mov A,10000"]).unwrap();
    assert_eq!(program, vec![0x30]);
    let program = assemble(&["add A,1111"]).unwrap();
    assert_eq!(program, vec![0x0F]);
}

#[test]
fn empty_program_is_error() {
    let lines: Vec<String> = Vec::new();
    let mut parser = Parser::new(lines);
    let tokens = parser.parse().unwrap();
    assert!(tokens.is_empty());
    assert!(Compiler::new().compile(tokens).is_err());
}

#[test]
fn missing_operand_errors() {
    assert!(parse_tokens(&["mov"]).is_err());
    assert!(parse_tokens(&["mov A"]).is_err());
    assert!(parse_tokens(&["add B"]).is_err());
    assert!(parse_tokens(&["jmp"]).is_err());
    assert!(parse_tokens(&["jnc"]).is_err());
    assert!(parse_tokens(&["in"]).is_err());
    assert!(parse_tokens(&["out"]).is_err());
}

#[test]
fn bad_register_errors() {
    assert!(parse_tokens(&["mov C,0101"]).is_err());
    assert!(parse_tokens(&["add C,0101"]).is_err());
    assert!(parse_tokens(&["in C"]).is_err());
}

#[test]
fn bad_immediate_errors() {
    assert!(parse_tokens(&["jmp xyz"]).is_err());
    assert!(parse_tokens(&["mov A,12"]).is_err());
    assert!(parse_tokens(&["out 111111111"]).is_err());
}

#[test]
fn error_message_names_offending_text() {
    let error = parse_tokens(&["jmp wxyz"]).unwrap_err();
    assert_eq!(error.message(), "Failed to parse string: wxyz");
    let error = parse_tokens(&["mov C,0101"]).unwrap_err();
    assert_eq!(error.message(), "Failed to parse register: C");
    let error = parse_tokens(&["mov"]).unwrap_err();
    assert_eq!(error.message(), "Failed to parse mov left hand");
    let error = parse_tokens(&["out"]).unwrap_err();
    assert_eq!(error.message(), "Failed to parse 'out' immediate value");
}

#[test]
fn tabs_separate_words() {
    let tokens = parse_tokens(&["mov\tA,\t0001", "add\tB , 0010"]).unwrap();
    assert_eq!(
        tokens,
        vec![Token::Mov(Register::A, 1), Token::Add(Register::B, 2)]
    );
}

#[test]
fn unknown_leading_words_are_skipped() {
    let tokens = parse_tokens(&["nop halt mov A,0001"]).unwrap();
    assert_eq!(tokens, vec![Token::Mov(Register::A, 1)]);
}

#[test]
fn separators_collapse() {
    let tokens = parse_tokens(&["mov   A ,, 0001"]).unwrap();
    assert_eq!(tokens, vec![Token::Mov(Register::A, 1)]);
}

#[test]
fn statements_may_span_lines() {
    let tokens = parse_tokens(&["mov", "A,0001"]).unwrap();
    assert_eq!(tokens, vec![Token::Mov(Register::A, 1)]);
}

#[test]
fn register_moves_encode_per_catalog() {
    // "mov A,B" loads A from B (code 0100); "mov B,A" the reverse (0001).
    assert_eq!(assemble(&["mov A,B"]).unwrap(), vec![0x40]);
    assert_eq!(assemble(&["mov B,A"]).unwrap(), vec![0x10]);
}

#[test]
fn default_builders_match_new() {
    let compiler = Compiler::default();
    assert_eq!(compiler.compile(vec![Token::OutB]).unwrap(), vec![0x90]);
}

#[test]
fn unassigned_codes_decode_to_nothing() {
    for code in [0b1000u8, 0b1010, 0b1100, 0b1101] {
        assert_eq!(Opcode::from_code(code), None);
    }
    assert_eq!(Opcode::from_code(0b0000), Some(Opcode::AddA));
    assert_eq!(Opcode::from_code(0b1111), Some(Opcode::Jmp));
}
