use jbi::lexer::{lex, Error, Token};

fn token_char(t: &Token) -> char {
    match t {
        Token::Increment(_) => '+',
        Token::Decrement(_) => '-',
        Token::Print(_) => '.',
        Token::Read(_) => ',',
        Token::MoveRight(_) => '>',
        Token::MoveLeft(_) => '<',
        Token::OpenBracket(_) => '[',
        Token::CloseBracket(_) => ']',
    }
}

fn is_instruction(c: char) -> bool {
    matches!(c, '+' | '-' | '.' | ',' | '>' | '<' | '[' | ']')
}

#[test]
fn tokens_in_source_order() {
    let toks = lex("+-.,><[]", "t").unwrap();
    let chars: Vec<char> = toks.iter().map(token_char).collect();
    assert_eq!(chars, vec!['+', '-', '.', ',', '>', '<', '[', ']']);
}

#[test]
fn whitespace_is_skipped() {
    let toks = lex("+ \t\r\n-", "t").unwrap();
    assert_eq!(toks.len(), 2);
    match &toks[0] {
        Token::Increment(l) => {
            assert_eq!(l.lineno, 1);
            assert_eq!(l.range, (0, 1));
        }
        other => panic!("expected an increment token, got {}", token_char(other)),
    }
    match &toks[1] {
        Token::Decrement(l) => {
            assert_eq!(l.lineno, 2);
            assert_eq!(l.range, (0, 1));
        }
        other => panic!("expected a decrement token, got {}", token_char(other)),
    }
}

#[test]
fn instruction_chars_survive_a_roundtrip() {
    // Tokenizing and printing one character per token reproduces exactly
    // the instruction characters of the source, in order.
    let source = "+ +\n> [ . ] <\n- ,";
    let toks = lex(source, "t").unwrap();
    let rendered: String = toks.iter().map(token_char).collect();
    let expected: String = source.chars().filter(|c| is_instruction(*c)).collect();
    assert_eq!(rendered, expected);
}

#[test]
fn invalid_characters_are_all_reported() {
    // The scan never stops at the first bad character: every lexical
    // fault of the text comes back in one batch, in source order.
    let errs = lex("a+b\nc", "t").unwrap_err();
    assert_eq!(errs.len(), 3);
    let Error::InvalidCharacter(c0, l0) = &errs[0];
    assert_eq!(*c0, 'a');
    assert_eq!(l0.lineno, 1);
    assert_eq!(l0.range, (0, 1));
    let Error::InvalidCharacter(c1, l1) = &errs[1];
    assert_eq!(*c1, 'b');
    assert_eq!(l1.lineno, 1);
    assert_eq!(l1.range, (2, 3));
    let Error::InvalidCharacter(c2, l2) = &errs[2];
    assert_eq!(*c2, 'c');
    assert_eq!(l2.lineno, 2);
    assert_eq!(l2.range, (0, 1));
}

#[test]
fn locations_carry_file_and_line_text() {
    let toks = lex("  +\n>\n", "prog.b").unwrap();
    match &toks[0] {
        Token::Increment(l) => {
            assert_eq!(l.file, "prog.b");
            assert_eq!(l.line, "  +");
            assert_eq!(l.lineno, 1);
            assert_eq!(l.range, (2, 3));
        }
        _ => panic!("expected an increment token"),
    }
    match &toks[1] {
        Token::MoveRight(l) => {
            assert_eq!(l.line, ">");
            assert_eq!(l.lineno, 2);
            assert_eq!(l.range, (0, 1));
        }
        _ => panic!("expected a move-right token"),
    }
}

#[test]
fn empty_source_gives_no_tokens() {
    let toks = lex("", "t").unwrap();
    assert!(toks.is_empty());
}
