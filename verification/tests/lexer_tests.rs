use lexer::lexer::Lexer;
use lexer::token::TokenType;

fn assert_tokens(input: &str, expected: &[TokenType]) {
    let mut lexer = Lexer::new(input);
    for (i, t) in expected.iter().enumerate() {
        let tok = lexer.next_token().unwrap();
        assert_eq!(tok.typ, *t, "Wrong token type at index: {}", i);
    }
}

fn float_payloads(input: &str) -> Vec<f32> {
    let mut lexer = Lexer::new(input);
    let mut floats = Vec::new();
    loop {
        let tok = lexer.next_token().unwrap();
        match tok.typ {
            TokenType::Float(text) => floats.push(text.parse::<f32>().unwrap()),
            TokenType::EOF => break,
            _ => {}
        }
    }
    floats
}

#[test]
fn test_next_token_var_int() {
    let input = "my_var := 10";
    let tests = vec![
        TokenType::Ident(String::from("my_var")),
        TokenType::Colon,
        TokenType::Assign,
        TokenType::Int(10),
        TokenType::EOF,
    ];

    assert_tokens(input, &tests);
}

#[test]
fn test_next_token_var_float() {
    let input = "my_var3 := 99.0";
    let tokens = vec![
        TokenType::Ident(String::from("my_var3")),
        TokenType::Colon,
        TokenType::Assign,
        TokenType::Float(String::from("99.0")),
        TokenType::EOF,
    ];

    assert_tokens(input, &tokens);
    assert_eq!(float_payloads(input), vec![99.0]);
}

#[test]
fn test_next_token_var_string() {
    let input = "my_var := \"hello\"";
    let tokens = vec![
        TokenType::Ident(String::from("my_var")),
        TokenType::Colon,
        TokenType::Assign,
        TokenType::String("hello".to_string()),
        TokenType::EOF,
    ];

    assert_tokens(input, &tokens);
}

#[test]
fn test_next_token_var_true() {
    let input = "my_var3 := true";
    let tokens = vec![
        TokenType::Ident(String::from("my_var3")),
        TokenType::Colon,
        TokenType::Assign,
        TokenType::Bool(true),
        TokenType::EOF,
    ];

    assert_tokens(input, &tokens);
}

#[test]
fn test_next_token_var_false() {
    let input = "my_var3 := false";
    let tokens = vec![
        TokenType::Ident(String::from("my_var3")),
        TokenType::Colon,
        TokenType::Assign,
        TokenType::Bool(false),
        TokenType::EOF,
    ];

    assert_tokens(input, &tokens);
}

#[test]
fn test_next_token_var_type_bool() {
    let input = "my_var : bool = false";
    let tokens = vec![
        TokenType::Ident(String::from("my_var")),
        TokenType::Colon,
        TokenType::Type("bool".to_string()),
        TokenType::Assign,
        TokenType::Bool(false),
        TokenType::EOF,
    ];

    assert_tokens(input, &tokens);
}

#[test]
fn test_next_token_var_type_string() {
    let input = "my_var : string = \"hello\"";
    let tokens = vec![
        TokenType::Ident(String::from("my_var")),
        TokenType::Colon,
        TokenType::Type("string".to_string()),
        TokenType::Assign,
        TokenType::String("hello".to_string()),
        TokenType::EOF,
    ];

    assert_tokens(input, &tokens);
}

#[test]
fn test_next_token_var_type_int() {
    let input = "my_var : int = 10";
    let tokens = vec![
        TokenType::Ident(String::from("my_var")),
        TokenType::Colon,
        TokenType::Type("int".to_string()),
        TokenType::Assign,
        TokenType::Int(10),
        TokenType::EOF,
    ];

    assert_tokens(input, &tokens);
}

#[test]
fn test_next_token_var_type_float() {
    let input = "my_var : float = 10.123456";
    let tokens = vec![
        TokenType::Ident(String::from("my_var")),
        TokenType::Colon,
        TokenType::Type("float".to_string()),
        TokenType::Assign,
        TokenType::Float(String::from("10.123456")),
        TokenType::EOF,
    ];

    assert_tokens(input, &tokens);
    assert_eq!(float_payloads(input), vec![10.123456]);
}

#[test]
fn test_next_token_int_operators() {
    let input = "1 + 2 - 3 * 4 / 5 % 6";
    let tokens = vec![
        TokenType::Int(1),
        TokenType::Plus,
        TokenType::Int(2),
        TokenType::Minus,
        TokenType::Int(3),
        TokenType::Asterisk,
        TokenType::Int(4),
        TokenType::Slash,
        TokenType::Int(5),
        TokenType::Module,
        TokenType::Int(6),
        TokenType::EOF,
    ];

    assert_tokens(input, &tokens);
}

#[test]
fn test_next_token_float_operators() {
    let input = "1.12 + 2.23 - 3.34 * 4.45 / 5.56 % 6.67";
    let tokens = vec![
        TokenType::Float(String::from("1.12")),
        TokenType::Plus,
        TokenType::Float(String::from("2.23")),
        TokenType::Minus,
        TokenType::Float(String::from("3.34")),
        TokenType::Asterisk,
        TokenType::Float(String::from("4.45")),
        TokenType::Slash,
        TokenType::Float(String::from("5.56")),
        TokenType::Module,
        TokenType::Float(String::from("6.67")),
        TokenType::EOF,
    ];

    assert_tokens(input, &tokens);
    assert_eq!(float_payloads(input), vec![1.12, 2.23, 3.34, 4.45, 5.56, 6.67]);
}

#[test]
fn test_next_token_string() {
    let input = r#""hello!" + "bye!""#;
    let tokens = vec![
        TokenType::String("hello!".to_string()),
        TokenType::Plus,
        TokenType::String("bye!".to_string()),
        TokenType::EOF,
    ];

    assert_tokens(input, &tokens);
}

#[test]
fn test_next_token_string_escape() {
    let input = r#""escape this \" please""#;
    let tokens = vec![
        TokenType::String(r#"escape this \" please"#.to_string()),
        TokenType::EOF,
    ];

    assert_tokens(input, &tokens);
}
