use scheme_interpreter::lexer::{generate_keywords, Lexer, LexerError};
use scheme_interpreter::token::{Token, TokenType};

fn tokens(input: &str) -> Vec<(String, TokenType)> {
    let mut lex = Lexer::init_lex(input.to_owned());
    let mut out = Vec::new();
    loop {
        let tok: Token = lex.next_token().unwrap();
        let done = tok.kind == TokenType::EOF;
        out.push((tok.literal, tok.kind));
        if done {
            return out;
        }
    }
}

fn first_error(input: &str) -> LexerError {
    let mut lex = Lexer::init_lex(input.to_owned());
    loop {
        match lex.next_token() {
            Ok(tok) => assert_ne!(tok.kind, TokenType::EOF),
            Err(e) => return e,
        }
    }
}

fn pair(literal: &str, kind: TokenType) -> (String, TokenType) {
    (literal.to_owned(), kind)
}

#[test]
fn empty_input_is_eof_at_once() {
    assert_eq!(tokens(""), vec![pair("\0", TokenType::EOF)]);
}

#[test]
fn eof_repeats() {
    let mut lex = Lexer::init_lex("x".to_owned());
    assert_eq!(lex.next_token().unwrap().kind, TokenType::IDENT);
    assert_eq!(lex.next_token().unwrap().kind, TokenType::EOF);
    assert_eq!(lex.next_token().unwrap().kind, TokenType::EOF);
}

#[test]
fn whitespace_only_is_eof() {
    assert_eq!(tokens(" \t\n "), vec![pair("\0", TokenType::EOF)]);
}

#[test]
fn punctuation_and_operators() {
    assert_eq!(
        tokens("( ) ' # , @ + - * / = < >"),
        vec![
            pair("(", TokenType::LPAREN),
            pair(")", TokenType::RPAREN),
            pair("'", TokenType::QUOTE),
            pair("#", TokenType::POUND),
            pair(",", TokenType::COMMA),
            pair("@", TokenType::AT),
            pair("+", TokenType::PLUS),
            pair("-", TokenType::MINUS),
            pair("*", TokenType::ASTERICK),
            pair("/", TokenType::SLASH),
            pair("=", TokenType::EQ),
            pair("<", TokenType::LT),
            pair(">", TokenType::GT),
            pair("\0", TokenType::EOF),
        ]
    );
}

#[test]
fn two_character_tokens() {
    assert_eq!(
        tokens("<= >= #t #f"),
        vec![
            pair("<=", TokenType::LTEQ),
            pair(">=", TokenType::GTEQ),
            pair("#t", TokenType::TRUE),
            pair("#f", TokenType::FALSE),
            pair("\0", TokenType::EOF),
        ]
    );
}

#[test]
fn lookahead_does_not_swallow_the_next_token() {
    assert_eq!(
        tokens("<x>3#a"),
        vec![
            pair("<", TokenType::LT),
            pair("x", TokenType::IDENT),
            pair(">", TokenType::GT),
            pair("3", TokenType::INT),
            pair("#", TokenType::POUND),
            pair("a", TokenType::IDENT),
            pair("\0", TokenType::EOF),
        ]
    );
}

#[test]
fn keywords_and_identifiers() {
    assert_eq!(
        tokens("let lambda if quote define begin else and or not letter x1"),
        vec![
            pair("let", TokenType::LET),
            pair("lambda", TokenType::LAMBDA),
            pair("if", TokenType::IF),
            pair("quote", TokenType::QUOTE),
            pair("define", TokenType::DEFINE),
            pair("begin", TokenType::BEGIN),
            pair("else", TokenType::ELSE),
            pair("and", TokenType::AND),
            pair("or", TokenType::OR),
            pair("not", TokenType::NOT),
            pair("letter", TokenType::IDENT),
            pair("x1", TokenType::IDENT),
            pair("\0", TokenType::EOF),
        ]
    );
}

#[test]
fn identifier_at_the_end_of_the_input() {
    assert_eq!(
        tokens("abc"),
        vec![pair("abc", TokenType::IDENT), pair("\0", TokenType::EOF)]
    );
}

#[test]
fn trailing_whitespace_after_a_word() {
    assert_eq!(
        tokens("abc  "),
        vec![pair("abc", TokenType::IDENT), pair("\0", TokenType::EOF)]
    );
}

#[test]
fn numbers_and_negative_numbers() {
    assert_eq!(
        tokens("12 -34 - 5 -x 7"),
        vec![
            pair("12", TokenType::INT),
            pair("-34", TokenType::INT),
            pair("-", TokenType::MINUS),
            pair("5", TokenType::INT),
            pair("-", TokenType::MINUS),
            pair("x", TokenType::IDENT),
            pair("7", TokenType::INT),
            pair("\0", TokenType::EOF),
        ]
    );
}

#[test]
fn number_stops_at_a_letter() {
    assert_eq!(
        tokens("12ab"),
        vec![
            pair("12", TokenType::INT),
            pair("ab", TokenType::IDENT),
            pair("\0", TokenType::EOF),
        ]
    );
}

#[test]
fn string_literal() {
    assert_eq!(
        tokens("\"hello world\" x"),
        vec![
            pair("hello world", TokenType::STRING),
            pair("x", TokenType::IDENT),
            pair("\0", TokenType::EOF),
        ]
    );
}

#[test]
fn empty_string_literal() {
    assert_eq!(
        tokens("\"\""),
        vec![pair("", TokenType::STRING), pair("\0", TokenType::EOF)]
    );
}

#[test]
fn unterminated_string_is_tolerated() {
    assert_eq!(
        tokens("\"abc"),
        vec![pair("abc", TokenType::STRING), pair("\0", TokenType::EOF)]
    );
    assert_eq!(
        tokens("\""),
        vec![pair("", TokenType::STRING), pair("\0", TokenType::EOF)]
    );
}

#[test]
fn single_line_comment_runs_to_the_line_end() {
    assert_eq!(
        tokens("-- note (x)\ny"),
        vec![
            pair("single-line-comment", TokenType::COMMENT),
            pair("y", TokenType::IDENT),
            pair("\0", TokenType::EOF),
        ]
    );
}

#[test]
fn single_line_comment_at_the_end_of_the_input() {
    assert_eq!(
        tokens("x -- rest"),
        vec![
            pair("x", TokenType::IDENT),
            pair("single-line-comment", TokenType::COMMENT),
            pair("\0", TokenType::EOF),
        ]
    );
}

#[test]
fn block_comment_is_passed_over() {
    assert_eq!(
        tokens("{- a - b -} x"),
        vec![
            pair("", TokenType::ILLEGAL),
            pair("x", TokenType::IDENT),
            pair("\0", TokenType::EOF),
        ]
    );
}

#[test]
fn block_comment_needs_a_minus_after_the_bracket() {
    match first_error("{x}") {
        LexerError::MultiLine(msg) => assert_eq!(
            msg,
            "Multiline comment must start with a bracket followed by a minus symbol {-"
        ),
        other => panic!("{:?}", other),
    }
}

#[test]
fn unterminated_block_comment_is_an_error() {
    match first_error("{- never closed") {
        LexerError::MultiLine(msg) => assert_eq!(
            msg,
            "Multiline comment must end with a minus symbol followed by a bracket -}"
        ),
        other => panic!("{:?}", other),
    }
    assert!(matches!(first_error("{-}"), LexerError::MultiLine(_)));
}

#[test]
fn unknown_character_is_reported() {
    match first_error("(+ 1 $)") {
        LexerError::UnknownToken(c) => assert_eq!(c, "$"),
        other => panic!("{:?}", other),
    }
}

#[test]
fn identifier_cut_inside_a_character_is_not_utf8() {
    // U+00E9 is the bytes C3 A9: the first is a letter when read alone, the
    // second is not, so the word is the single byte C3.
    match first_error("\u{e9}") {
        LexerError::ReadIdentifier(msg) => {
            assert_eq!(msg, "incomplete utf-8 byte sequence from index 0")
        }
        other => panic!("{:?}", other),
    }
}

#[test]
fn string_of_whole_characters_is_utf8() {
    assert_eq!(
        tokens("\"caf\u{e9}\""),
        vec![pair("caf\u{e9}", TokenType::STRING), pair("\0", TokenType::EOF)]
    );
}

#[test]
fn word_of_two_bytes_that_form_one_character() {
    // U+00B2 is the bytes C2 B2. Read alone, C2 is a letter and B2 is
    // numeric, so the two bytes form one word.
    assert_eq!(
        tokens("\u{b2}"),
        vec![pair("\u{b2}", TokenType::IDENT), pair("\0", TokenType::EOF)]
    );
}

#[test]
fn number_stops_before_a_two_byte_character() {
    // "1" and then the bytes C2 B2: read alone C2 is a letter, so the
    // number stops there and the two bytes are a word of their own.
    assert_eq!(
        tokens("1\u{b2}"),
        vec![
            pair("1", TokenType::INT),
            pair("\u{b2}", TokenType::IDENT),
            pair("\0", TokenType::EOF),
        ]
    );
}

#[test]
fn read_char_moves_one_byte_and_stops_at_the_end() {
    let mut lex = Lexer::init_lex("ab".to_owned());
    assert_eq!(lex.position(), 0);
    lex.read_char();
    assert_eq!(lex.position(), 1);
    assert_eq!(lex.next_token().unwrap().literal, "b");
    assert_eq!(lex.position(), 2);
    lex.read_char();
    assert_eq!(lex.position(), 2);
    assert_eq!(lex.next_token().unwrap().kind, TokenType::EOF);
}

#[test]
fn cursor_after_each_token() {
    let mut lex = Lexer::init_lex("  (foo -12 \"s\" <= )".to_owned());
    let mut cursors = Vec::new();
    loop {
        let tok = lex.next_token().unwrap();
        cursors.push(lex.position());
        if tok.kind == TokenType::EOF {
            break;
        }
    }
    assert_eq!(cursors, [3, 6, 10, 14, 17, 19, 19]);
}

#[test]
fn keyword_table() {
    let keys = generate_keywords();
    assert_eq!(keys.len(), 13);
    assert!(keys.contains(&("let".to_owned(), TokenType::LET)));
    assert!(keys.contains(&("lambda".to_owned(), TokenType::LAMBDA)));
    assert!(keys.contains(&("quote".to_owned(), TokenType::QUOTE)));
    assert!(keys.contains(&("define".to_owned(), TokenType::DEFINE)));
    assert!(keys.contains(&("not".to_owned(), TokenType::NOT)));
}
