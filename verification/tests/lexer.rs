use rspython::lexer::{lex_source, Lexer, Tok};

#[test]
fn test_line_comment() {
    let source = String::from(r"99232  # Bladibla");
    let tokens = lex_source(&source);
    assert_eq!(tokens, vec![Tok::Number]);
}

#[test]
fn test_assignment() {
    let source = String::from(r"avariable = 99 + 2-0");
    let tokens = lex_source(&source);
    assert_eq!(
        tokens,
        vec![
            Tok::Name,
            Tok::Equal,
            Tok::Number,
            Tok::Plus,
            Tok::Number,
            Tok::Minus,
            Tok::Number
        ]
    );
}

#[test]
fn test_indentation() {
    let source = String::from("def foo():\n   return 99\n");
    let tokens = lex_source(&source);
    assert_eq!(
        tokens,
        vec![
            Tok::Name,
            Tok::Name,
            Tok::Lbrace,
            Tok::RBrace,
            Tok::Colon,
            Tok::Newline,
            Tok::Indent,
            Tok::Name,
            Tok::Number,
            Tok::Newline,
            Tok::Dedent
        ]
    );
}

#[test]
fn test_newline_in_brackets() {
    let source = String::from("x = [\n    1,2\n]\n");
    let tokens = lex_source(&source);
    assert_eq!(
        tokens,
        vec![
            Tok::Name,
            Tok::Equal,
            Tok::Lbrace,
            Tok::Newline,
            Tok::Number,
            Tok::Comma,
            Tok::Number,
            Tok::Newline,
            Tok::RBrace,
            Tok::Newline
        ]
    );
}

#[test]
fn test_string_token_and_unterminated() {
    let tokens = lex_source(&String::from("x = 'abc'"));
    assert_eq!(tokens, vec![Tok::Name, Tok::Equal, Tok::String]);
    // An unterminated string ends tokenisation with the tokens read so far.
    let tokens = lex_source(&String::from("x = 'abc"));
    assert_eq!(tokens, vec![Tok::Name, Tok::Equal]);
}

#[test]
fn test_nested_dedents() {
    let source = String::from("a:\n  b:\n    c\nd\n");
    let tokens = lex_source(&source);
    assert_eq!(
        tokens,
        vec![
            Tok::Name,
            Tok::Colon,
            Tok::Newline,
            Tok::Indent,
            Tok::Name,
            Tok::Colon,
            Tok::Newline,
            Tok::Indent,
            Tok::Name,
            Tok::Newline,
            Tok::Dedent,
            Tok::Dedent,
            Tok::Name,
            Tok::Newline
        ]
    );
}

#[test]
fn test_next_token_directly() {
    let mut lexer = Lexer::new("1+2");
    assert_eq!(lexer.next_token(), Ok(Some(Tok::Number)));
    assert_eq!(lexer.next_token(), Ok(Some(Tok::Plus)));
    assert_eq!(lexer.next_token(), Ok(Some(Tok::Number)));
    assert_eq!(lexer.next_token(), Ok(None));
}
