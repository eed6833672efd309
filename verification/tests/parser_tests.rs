use netfsck::parser::{parse, reconstruct, tokenize, OpCode, ParseError, Token};

#[test]
fn test_hello_world_parse() {
    let hello_world = ">++++++++[-<+++++++++>]<.>>+>-[+]++>++>+++[>[->+++<<+++>]<<]>-----.>->+++..+++.>-.<<+[>[+>+]>>]<--------------.>>.+++.------.--------.>+.>+.";
    let instructions = parse(hello_world).unwrap();
    let reconstruction = &reconstruct(instructions);

    assert_eq!(reconstruction, hello_world);
}

#[test]
fn test_nested_loop() {
    let hello_world = ">[>[+]<]<";
    let instructions = parse(hello_world).unwrap();
    let reconstruction = &reconstruct(instructions);

    assert_eq!(reconstruction, hello_world);
}

#[test]
fn test_empty_nested_loop() {
    let hello_world = "[[]]";
    let instructions = parse(hello_world).unwrap();
    let reconstruction = &reconstruct(instructions);

    assert_eq!(reconstruction, hello_world);
}

#[test]
fn test_one_element_loop() {
    let hello_world = "[+]";
    let instructions = parse(hello_world).unwrap();
    let reconstruction = &reconstruct(instructions);

    assert_eq!(reconstruction, hello_world);
}

#[test]
fn test_zeroarithmetic_loop() {
    let hello_world = "+[>[>]>[<]<]";
    let instructions = parse(hello_world).unwrap();
    let reconstruction = &reconstruct(instructions);

    assert_eq!(reconstruction, hello_world);
}

#[test]
fn tokenize_recognizes_all_sixteen_symbols() {
    assert_eq!(Token::tokenize('<'), Some(Token::Left));
    assert_eq!(Token::tokenize('>'), Some(Token::Right));
    assert_eq!(Token::tokenize('+'), Some(Token::Inc));
    assert_eq!(Token::tokenize('-'), Some(Token::Dec));
    assert_eq!(Token::tokenize('.'), Some(Token::Print));
    assert_eq!(Token::tokenize(','), Some(Token::Query));
    assert_eq!(Token::tokenize('['), Some(Token::BeginLoop));
    assert_eq!(Token::tokenize(']'), Some(Token::EndLoop));
    assert_eq!(Token::tokenize('`'), Some(Token::SetPort));
    assert_eq!(Token::tokenize('~'), Some(Token::Connect));
    assert_eq!(Token::tokenize('^'), Some(Token::SendData));
    assert_eq!(Token::tokenize('v'), Some(Token::RecieveData));
    assert_eq!(Token::tokenize('!'), Some(Token::Disconnect));
    assert_eq!(Token::tokenize('&'), Some(Token::SocketHandle));
    assert_eq!(Token::tokenize('%'), Some(Token::FlushWrites));
    assert_eq!(Token::tokenize('$'), Some(Token::SetTimeout));
    assert_eq!(Token::tokenize('x'), None);
    assert_eq!(Token::tokenize(' '), None);
}

#[test]
fn tokenize_drops_comment_characters() {
    let tokens = tokenize("a + b [five] -");
    assert_eq!(
        tokens,
        vec![
            Token::Inc,
            Token::BeginLoop,
            Token::RecieveData,
            Token::EndLoop,
            Token::Dec,
        ]
    );
}

#[test]
fn lone_end_bracket_fails() {
    assert!(matches!(parse("]"), Err(ParseError::MismatchedEndLoop)));
}

#[test]
fn unclosed_begin_bracket_fails() {
    assert!(matches!(parse("["), Err(ParseError::MismatchedBeginLoop)));
}

#[test]
fn excess_end_bracket_after_balanced_prefix_fails() {
    assert!(matches!(parse("[]]"), Err(ParseError::MismatchedEndLoop)));
    assert!(matches!(parse("+[-]]+"), Err(ParseError::MismatchedEndLoop)));
}

#[test]
fn unclosed_nested_begin_fails() {
    assert!(matches!(parse("[[]"), Err(ParseError::MismatchedBeginLoop)));
    assert!(matches!(parse("++[>["), Err(ParseError::MismatchedBeginLoop)));
}

#[test]
fn empty_input_parses_to_empty_list() {
    let instructions = parse("").unwrap();
    assert_eq!(instructions.len(), 0);
}

#[test]
fn adjacent_empty_loops_nest() {
    let instructions = parse("[[]]").unwrap();
    assert_eq!(instructions.len(), 1);
    assert_eq!(instructions[0].opcode, OpCode::Loop);
    assert_eq!(instructions[0].amount, 1);
    assert_eq!(instructions[0].instructions.len(), 1);
    assert_eq!(instructions[0].instructions[0].opcode, OpCode::Loop);
    assert_eq!(instructions[0].instructions[0].instructions.len(), 0);
}

#[test]
fn one_element_loop_structure() {
    let instructions = parse("[+]").unwrap();
    assert_eq!(instructions.len(), 1);
    assert_eq!(instructions[0].opcode, OpCode::Loop);
    assert_eq!(instructions[0].instructions.len(), 1);
    assert_eq!(instructions[0].instructions[0].opcode, OpCode::Inc);
    assert_eq!(instructions[0].instructions[0].amount, 1);
}

#[test]
fn runs_fold_into_counted_instructions() {
    let instructions = parse("+++>>--").unwrap();
    assert_eq!(instructions.len(), 3);
    assert_eq!(instructions[0].opcode, OpCode::Inc);
    assert_eq!(instructions[0].amount, 3);
    assert_eq!(instructions[1].opcode, OpCode::Right);
    assert_eq!(instructions[1].amount, 2);
    assert_eq!(instructions[2].opcode, OpCode::Dec);
    assert_eq!(instructions[2].amount, 2);
}

#[test]
fn comments_are_dropped_before_folding() {
    let instructions = parse("a+b+c").unwrap();
    assert_eq!(instructions.len(), 1);
    assert_eq!(instructions[0].opcode, OpCode::Inc);
    assert_eq!(instructions[0].amount, 2);
    let rendered = reconstruct(instructions);
    assert_eq!(rendered, "++");
}

#[test]
fn repeated_networking_opcodes_round_trip() {
    let program = "``^^vv";
    let instructions = parse(program).unwrap();
    assert_eq!(instructions.len(), 3);
    assert_eq!(instructions[0].amount, 2);
    let reconstruction = &reconstruct(instructions);
    assert_eq!(reconstruction, program);
}

#[test]
fn networking_opcodes_round_trip() {
    let program = "`~^v!&%$";
    let instructions = parse(program).unwrap();
    let reconstruction = &reconstruct(instructions);
    assert_eq!(reconstruction, program);
}
