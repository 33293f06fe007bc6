use zako::lexer::{Lexer, RedirectOp, Token};

#[test]
fn lexer_test_simple_command() {
    let mut lexer = Lexer::new("ls -l");
    assert_eq!(lexer.next_token(), Token::Word("ls".to_string()));
    assert_eq!(lexer.next_token(), Token::Word("-l".to_string()));
    assert_eq!(lexer.next_token(), Token::EOF);
}

#[test]
fn test_pipe() {
    let mut lexer = Lexer::new("ls | grep foo");
    assert_eq!(lexer.next_token(), Token::Word("ls".to_string()));
    assert_eq!(lexer.next_token(), Token::Pipe);
    assert_eq!(lexer.next_token(), Token::Word("grep".to_string()));
    assert_eq!(lexer.next_token(), Token::Word("foo".to_string()));
    assert_eq!(lexer.next_token(), Token::EOF);
}

#[test]
fn test_redirections() {
    let mut lexer = Lexer::new("echo hello > output.txt");
    assert_eq!(lexer.next_token(), Token::Word("echo".to_string()));
    assert_eq!(lexer.next_token(), Token::Word("hello".to_string()));
    assert_eq!(lexer.next_token(), Token::Redirect(RedirectOp::Output));
    assert_eq!(lexer.next_token(), Token::Word("output.txt".to_string()));
    assert_eq!(lexer.next_token(), Token::EOF);
}

#[test]
fn test_quoted_strings() {
    let mut lexer = Lexer::new(r#"echo "hello world" 'foo bar'"#);
    assert_eq!(lexer.next_token(), Token::Word("echo".to_string()));
    assert_eq!(lexer.next_token(), Token::Word("hello world".to_string()));
    assert_eq!(lexer.next_token(), Token::Word("foo bar".to_string()));
    assert_eq!(lexer.next_token(), Token::EOF);
}

fn all_tokens(input: &str) -> Vec<Token> {
    let mut lexer = Lexer::new(input);
    let mut tokens = Vec::new();
    loop {
        let token = lexer.next_token();
        if token == Token::EOF {
            return tokens;
        }
        tokens.push(token);
    }
}

fn word(text: &str) -> Token {
    Token::Word(text.to_string())
}

#[test]
fn quoted_text_is_not_split() {
    assert_eq!(all_tokens(r#""a b" 'c d'"#), vec![word("a b"), word("c d")]);
}

#[test]
fn operators() {
    assert_eq!(
        all_tokens("a|b;c&d<e>f>>g"),
        vec![
            word("a"),
            Token::Pipe,
            word("b"),
            Token::Semi,
            word("c"),
            Token::Background,
            word("d"),
            Token::Redirect(RedirectOp::Input),
            word("e"),
            Token::Redirect(RedirectOp::Output),
            word("f"),
            Token::Redirect(RedirectOp::Append),
            word("g"),
        ]
    );
    assert_eq!(
        all_tokens(">>>"),
        vec![Token::Redirect(RedirectOp::Append), Token::Redirect(RedirectOp::Output)]
    );
    assert_eq!(
        all_tokens("> >"),
        vec![Token::Redirect(RedirectOp::Output), Token::Redirect(RedirectOp::Output)]
    );
}

#[test]
fn end_of_input_repeats() {
    let mut lexer = Lexer::new("  \t\n ");
    assert_eq!(lexer.next_token(), Token::EOF);
    assert_eq!(lexer.next_token(), Token::EOF);
    let mut lexer = Lexer::new("");
    assert_eq!(lexer.next_token(), Token::EOF);
}

#[test]
fn escapes_in_quotes() {
    assert_eq!(all_tokens(r#""a\"b""#), vec![word("a\"b")]);
    assert_eq!(all_tokens(r#"'a\\b'"#), vec![word("a\\b")]);
    assert_eq!(all_tokens(r#""a\nb""#), vec![word("anb")]);
    assert_eq!(all_tokens(r#"'it\'s'"#), vec![word("it's")]);
    assert_eq!(all_tokens(r#""a'b""#), vec![word("a'b")]);
}

#[test]
fn unterminated_quotes_run_to_the_end() {
    assert_eq!(all_tokens("\"abc | d"), vec![word("abc | d")]);
    assert_eq!(all_tokens("'abc\\"), vec![word("abc")]);
    assert_eq!(all_tokens("\""), vec![word("")]);
    assert_eq!(all_tokens("\"\""), vec![word("")]);
}

#[test]
fn quotes_inside_words_are_plain() {
    assert_eq!(all_tokens("ab\"c d\""), vec![word("ab\"c"), word("d\"")]);
    assert_eq!(all_tokens("\"a b\"c"), vec![word("a b"), word("c")]);
    assert_eq!(all_tokens("a\\b"), vec![word("a\\b")]);
}

#[test]
fn unicode_white_space_separates() {
    assert_eq!(all_tokens("a\u{a0}b\u{3000}c"), vec![word("a"), word("b"), word("c")]);
    assert_eq!(all_tokens("é 越"), vec![word("é"), word("越")]);
}
