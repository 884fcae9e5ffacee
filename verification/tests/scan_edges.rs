use lexer::lexer::Lexer;
use lexer::token::{LexError, TokenType};

fn scan_to_end(input: &str) -> Vec<TokenType> {
    let mut lexer = Lexer::new(input);
    let mut out = Vec::new();
    loop {
        let tok = lexer.next_token().unwrap();
        let done = matches!(tok.typ, TokenType::EOF);
        out.push(tok.typ);
        if done {
            break;
        }
    }
    out
}

#[test]
fn eof_is_idempotent() {
    let mut lexer = Lexer::new("x");
    assert_eq!(lexer.next_token().unwrap().typ, TokenType::Ident("x".to_string()));
    for _ in 0..5 {
        assert_eq!(lexer.next_token().unwrap().typ, TokenType::EOF);
    }
}

#[test]
fn empty_input_is_eof_forever() {
    let mut lexer = Lexer::new("");
    for _ in 0..5 {
        assert_eq!(lexer.next_token().unwrap().typ, TokenType::EOF);
    }
}

#[test]
fn spaces_only_is_eof() {
    assert_eq!(scan_to_end("   "), vec![TokenType::EOF]);
}

#[test]
fn trailing_dot_is_not_consumed() {
    assert_eq!(
        scan_to_end("1."),
        vec![TokenType::Int(1), TokenType::Illegal('.'), TokenType::EOF]
    );
}

#[test]
fn second_dot_ends_a_float() {
    assert_eq!(
        scan_to_end("1.2.3"),
        vec![
            TokenType::Float("1.2".to_string()),
            TokenType::Illegal('.'),
            TokenType::Int(3),
            TokenType::EOF,
        ]
    );
}

#[test]
fn tab_is_illegal() {
    assert_eq!(
        scan_to_end("a\tb"),
        vec![
            TokenType::Ident("a".to_string()),
            TokenType::Illegal('\t'),
            TokenType::Ident("b".to_string()),
            TokenType::EOF,
        ]
    );
}

#[test]
fn newline_is_illegal() {
    assert_eq!(
        scan_to_end("1\n2"),
        vec![
            TokenType::Int(1),
            TokenType::Illegal('\n'),
            TokenType::Int(2),
            TokenType::EOF,
        ]
    );
}

#[test]
fn unrecognized_symbol_is_illegal() {
    assert_eq!(
        scan_to_end("@"),
        vec![TokenType::Illegal('@'), TokenType::EOF]
    );
}

#[test]
fn float_pair_with_plus() {
    let tokens = scan_to_end("1.12 + 2.23");
    assert_eq!(
        tokens,
        vec![
            TokenType::Float("1.12".to_string()),
            TokenType::Plus,
            TokenType::Float("2.23".to_string()),
            TokenType::EOF,
        ]
    );
    let parsed: Vec<f32> = tokens
        .iter()
        .filter_map(|t| match t {
            TokenType::Float(s) => Some(s.parse::<f32>().unwrap()),
            _ => None,
        })
        .collect();
    assert_eq!(parsed, vec![1.12, 2.23]);
}

#[test]
fn recognized_input_never_yields_illegal() {
    let tokens = scan_to_end("my_var := 10 + 2 * other_3 % \"txt\" == ! bool");
    assert!(!tokens.iter().any(|t| matches!(t, TokenType::Illegal(_))));
    assert_eq!(tokens.last().unwrap(), &TokenType::EOF);
}

#[test]
fn double_equal_consumes_one_char() {
    assert_eq!(
        scan_to_end("=="),
        vec![TokenType::Equal, TokenType::Assign, TokenType::EOF]
    );
}

#[test]
fn not_equal_consumes_one_char() {
    assert_eq!(
        scan_to_end("!="),
        vec![TokenType::NotEqual, TokenType::Assign, TokenType::EOF]
    );
}

#[test]
fn lone_bang_is_bang() {
    assert_eq!(
        scan_to_end("!x"),
        vec![TokenType::Bang, TokenType::Ident("x".to_string()), TokenType::EOF]
    );
}

#[test]
fn keywords_and_type_words() {
    assert_eq!(
        scan_to_end("true false bool int float string truex"),
        vec![
            TokenType::Bool(true),
            TokenType::Bool(false),
            TokenType::Type("bool".to_string()),
            TokenType::Type("int".to_string()),
            TokenType::Type("float".to_string()),
            TokenType::Type("string".to_string()),
            TokenType::Ident("truex".to_string()),
            TokenType::EOF,
        ]
    );
}

#[test]
fn leading_zeros_parse_as_int() {
    assert_eq!(scan_to_end("007"), vec![TokenType::Int(7), TokenType::EOF]);
}

#[test]
fn int_literal_at_the_32_bit_limit() {
    assert_eq!(
        scan_to_end("2147483647"),
        vec![TokenType::Int(2147483647), TokenType::EOF]
    );
}

#[test]
fn int_literal_beyond_the_32_bit_limit_aborts() {
    let mut lexer = Lexer::new("2147483648");
    assert_eq!(lexer.next_token().unwrap_err(), LexError::IntOutOfRange);
    assert_eq!(lexer.next_token().unwrap().typ, TokenType::EOF);
}

#[test]
fn huge_int_literal_aborts() {
    let mut lexer = Lexer::new("99999999999999999999 + 1");
    assert_eq!(lexer.next_token().unwrap_err(), LexError::IntOutOfRange);
    assert_eq!(lexer.next_token().unwrap().typ, TokenType::Plus);
    assert_eq!(lexer.next_token().unwrap().typ, TokenType::Int(1));
    assert_eq!(lexer.next_token().unwrap().typ, TokenType::EOF);
}

#[test]
fn empty_string_literal() {
    assert_eq!(
        scan_to_end("\"\""),
        vec![TokenType::String(String::new()), TokenType::EOF]
    );
}

#[test]
fn unterminated_string_keeps_scanned_text() {
    assert_eq!(
        scan_to_end("\"abc"),
        vec![TokenType::String("ab".to_string()), TokenType::EOF]
    );
}

#[test]
fn lone_quote_is_an_empty_string_literal() {
    assert_eq!(
        scan_to_end("\""),
        vec![TokenType::String(String::new()), TokenType::EOF]
    );
}
