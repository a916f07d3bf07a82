// End-to-end tests of the assembler toolchain: lexing, parsing, label
// resolution and the assembled byte images.

use tinyvm::assembler::read_all_tokens;
use tinyvm::assembler::CompileError;
use tinyvm::assembler::Compiler;
use tinyvm::assembler::ParseError;
use tinyvm::assembler::ParsedInst;
use tinyvm::assembler::Parser;
use tinyvm::assembler::TokenType;

fn sample_source() -> &'static [u8] {
    b"; a small sample program\nstart:\nset a, 5\nset b, 3\nadd a, b\ndbg a, 0\npush a\npop c\ngt c, zero\nthen\njmp done\nnop\ndone:\nexit\n"
}

fn parse_source(source: &[u8]) -> Result<Vec<ParsedInst>, ParseError> {
    let tokens = read_all_tokens(source);
    let mut parser = Parser::new(source, tokens);
    parser.parse()
}

fn assemble(source: &[u8]) -> Result<Vec<u8>, CompileError> {
    let parsed = parse_source(source).expect("Unable to parse");
    let mut compiler = Compiler::new();
    compiler.compile(&parsed)
}

#[test]
fn test_parser() {
    let bytes = sample_source();
    let tokens = read_all_tokens(bytes);
    let mut parser = Parser::new(bytes, tokens);

    match parser.parse() {
        Ok(ok) => {
            println!("{:#?}", ok)
        }
        Err(err) => {
            panic!("{:?}", err)
        }
    };
}

#[test]
fn test_compiler() {
    let bytes = sample_source();
    let tokens = read_all_tokens(bytes);
    let mut parser = Parser::new(bytes, tokens);

    let mut compiler = Compiler::new();
    let parsed = parser.parse().expect("Unable to parse");

    compiler.precompile(&parsed).expect("Unable to compiled");
}

#[test]
fn lexer_classifies_tokens() {
    let src = b"set a, 5\nloop: ; comment\n";
    let tokens = read_all_tokens(src);
    let kinds: Vec<TokenType> = tokens.iter().map(|t| t.0).collect();
    assert_eq!(
        kinds,
        vec![
            TokenType::Id,
            TokenType::Id,
            TokenType::Comma,
            TokenType::Int,
            TokenType::NewLine,
            TokenType::Id,
            TokenType::Colon,
            TokenType::NewLine,
            TokenType::Eof,
        ]
    );
}

#[test]
fn lexer_skips_unrecognized_bytes() {
    // upper-case letters and '$' are silently dropped by the lexer
    let tokens = read_all_tokens(b"A$z");
    assert_eq!(tokens.len(), 2);
    assert_eq!(tokens[0].0, TokenType::Id);
    assert_eq!((tokens[0].1 .0, tokens[0].1 .1), (2, 3));
    assert_eq!(tokens[1].0, TokenType::Eof);
}

#[test]
fn lexer_ends_with_eof_on_empty_input() {
    let tokens = read_all_tokens(b"");
    assert_eq!(tokens.len(), 1);
    assert_eq!(tokens[0].0, TokenType::Eof);
}

#[test]
fn parser_picks_narrow_and_wide_loads() {
    let parsed = parse_source(b"set a, 255\nset b, 256\n").unwrap();
    assert!(matches!(parsed[0], ParsedInst::SetByte { dst: 1, val: 255 }));
    assert!(matches!(parsed[1], ParsedInst::SetShort { dst: 2, val: 256 }));
}

#[test]
fn parser_reads_hex_literals_with_decimal_first_digit() {
    let parsed = parse_source(b"set a, 0x1f\n").unwrap();
    assert!(matches!(parsed[0], ParsedInst::SetByte { dst: 1, val: 0x1f }));
}

#[test]
fn parser_rejects_hex_literal_with_letter_first_digit() {
    // "0xf" lexes as the integer "0" followed by the identifier "xf",
    // so the line does not end where the parser expects it to
    let err = parse_source(b"set a, 0xf\n").unwrap_err();
    assert!(matches!(
        err,
        ParseError::ExpectedToken {
            expected: TokenType::NewLine,
            found: TokenType::Id,
            ..
        }
    ));
}

#[test]
fn parser_rejects_line_head_tokens() {
    let err = parse_source(b", exit\n").unwrap_err();
    assert!(matches!(
        err,
        ParseError::UnexpectedToken {
            found: TokenType::Comma,
            ..
        }
    ));
}

#[test]
fn parser_rejects_missing_comma() {
    let err = parse_source(b"set a 5\n").unwrap_err();
    assert!(matches!(
        err,
        ParseError::ExpectedToken {
            expected: TokenType::Comma,
            found: TokenType::Int,
            ..
        }
    ));
}

#[test]
fn parser_rejects_identifier_where_int_needed() {
    let err = parse_source(b"set a, b\n").unwrap_err();
    assert!(matches!(
        err,
        ParseError::ExpectedInt {
            found: TokenType::Id
        }
    ));
}

#[test]
fn parser_rejects_int_where_register_needed() {
    let err = parse_source(b"set 5, 5\n").unwrap_err();
    assert!(matches!(
        err,
        ParseError::ExpectedId {
            found: TokenType::Int
        }
    ));
}

#[test]
fn parser_rejects_oversized_literal() {
    let err = parse_source(b"set a, 9999999999\n").unwrap_err();
    assert!(matches!(err, ParseError::BadIntLiteral { .. }));
}

#[test]
fn parser_rejects_unknown_mnemonic() {
    let err = parse_source(b"qwe a, b\n").unwrap_err();
    assert!(matches!(err, ParseError::UnknownMnemonic { .. }));
}

#[test]
fn parser_rejects_unknown_register() {
    let err = parse_source(b"set foo, 1\n").unwrap_err();
    assert!(matches!(err, ParseError::UnknownRegister { .. }));
}

#[test]
fn parser_accepts_blank_lines_and_comments() {
    let parsed = parse_source(b"\n\n; only a comment\nnop\n\nexit\n").unwrap();
    assert_eq!(parsed.len(), 2);
    assert!(matches!(parsed[0], ParsedInst::Nop));
    assert!(matches!(parsed[1], ParsedInst::Exit));
}

#[test]
fn token_listing_renders_spans_and_punctuation() {
    let src = b"set a, 5\n";
    let tokens = read_all_tokens(src);
    let listing = tinyvm::assembler::render_tokens(src, &tokens);
    assert_eq!(listing, b" Id(set) Id(a), Int(5)\n EOF\n".to_vec());
}

#[test]
fn assembly_resolves_forward_reference() {
    // jump at offset 0, target declared later at offset 3:
    // distance 3 encodes as the forward-jump opcode
    let image = assemble(b"jmp target\nnop\ntarget:\nexit\n").unwrap();
    assert_eq!(image, vec![2, 3, 0, 1, 1]);
}

#[test]
fn assembly_resolves_backward_reference() {
    // the same label declared before its reference resolves to the same
    // declared offset; distance zero or less takes the backward opcode
    let image = assemble(b"target:\nnop\njmp target\nexit\n").unwrap();
    assert_eq!(image, vec![0, 3, 255, 1, 1]);
}

#[test]
fn assembly_resolves_both_directions_to_one_offset() {
    // one label, one reference before it and one after it: both encode
    // distances measured to the same declared offset 2
    let image = assemble(b"jmp mid\nmid:\njmp mid\nexit\n").unwrap();
    assert_eq!(image, vec![2, 2, 3, 0, 1, 1]);
}

#[test]
fn assembly_lets_redefinition_overwrite() {
    // the second declaration of the name wins
    let image = assemble(b"x:\nnop\nx:\njmp x\nexit\n").unwrap();
    assert_eq!(image, vec![0, 3, 0, 1, 1]);
}

#[test]
fn assembly_appends_implicit_exit() {
    let image = assemble(b"nop\n").unwrap();
    assert_eq!(image, vec![0, 1]);
}

#[test]
fn assembly_encodes_call_as_absolute_target() {
    // call is three bytes with a big-endian absolute target, never relative
    let image = assemble(b"nop\ncall subr\nexit\nsubr:\nret\n").unwrap();
    assert_eq!(image, vec![0, 23, 0, 5, 1, 22, 1]);
}

#[test]
fn assembly_fails_on_unresolved_jump_label() {
    let err = assemble(b"jmp nowhere\nexit\n").unwrap_err();
    match err {
        CompileError::UndefinedJumpLabel { label } => assert_eq!(label, b"nowhere".to_vec()),
        other => panic!("wrong error: {:?}", other),
    }
}

#[test]
fn assembly_fails_on_unresolved_call_label() {
    let err = assemble(b"call nowhere\nexit\n").unwrap_err();
    match err {
        CompileError::UndefinedCallLabel { label } => assert_eq!(label, b"nowhere".to_vec()),
        other => panic!("wrong error: {:?}", other),
    }
}
