use kiln::lexer::{LexError, Lexer};
use kiln::token::Token;

fn lex(src: &str) -> Vec<Token> {
    Lexer::new(src).tokenize()
}

fn ident(s: &str) -> Token {
    Token::Identifier(s.to_string())
}

#[test]
fn keywords_and_type_names() {
    let toks = lex("main func let const export use struct return if else then end while for loop break continue and or not true false int float bool string byte ptr");
    assert_eq!(
        toks,
        vec![
            Token::Main, Token::Func, Token::Let, Token::Const, Token::Export, Token::Use,
            Token::Struct, Token::Return, Token::If, Token::Else, Token::Then, Token::End,
            Token::While, Token::For, Token::Loop, Token::Break, Token::Continue, Token::And,
            Token::Or, Token::Not, Token::Bool(true), Token::Bool(false), Token::TypeInt,
            Token::TypeFloat, Token::TypeBool, Token::TypeString, Token::TypeByte,
            Token::TypePtr, Token::Eof,
        ]
    );
}

#[test]
fn identifiers() {
    assert_eq!(
        lex("health _tmp x1 main2 mainly héllo"),
        vec![
            ident("health"), ident("_tmp"), ident("x1"), ident("main2"), ident("mainly"),
            ident("héllo"), Token::Eof,
        ]
    );
}

#[test]
fn integer_literals() {
    assert_eq!(lex("0 42 007"), vec![Token::Int(0), Token::Int(42), Token::Int(7), Token::Eof]);
    assert_eq!(lex("9223372036854775807"), vec![Token::Int(i64::MAX), Token::Eof]);
}

#[test]
fn integer_overflow_is_an_error() {
    assert_eq!(Lexer::new("9223372036854775808").try_tokenize(), Err(LexError::IntegerOverflow));
    assert_eq!(Lexer::new("let x = 99999999999999999999;").try_tokenize(), Err(LexError::IntegerOverflow));
}

#[test]
fn float_literals_keep_their_text() {
    assert_eq!(
        lex("3.14 1. 1.2.3"),
        vec![
            Token::Float("3.14".to_string()),
            Token::Float("1.".to_string()),
            Token::Float("1.2".to_string()),
            Token::Dot,
            Token::Int(3),
            Token::Eof,
        ]
    );
}

#[test]
fn string_literals() {
    assert_eq!(
        lex("\"Hello from Kiln!\" \"\""),
        vec![
            Token::StringLit("Hello from Kiln!".to_string()),
            Token::StringLit(String::new()),
            Token::Eof,
        ]
    );
    // an unterminated string runs to the end of the text
    assert_eq!(lex("\"abc"), vec![Token::StringLit("abc".to_string()), Token::Eof]);
}

#[test]
fn operators_and_punctuation() {
    assert_eq!(
        lex("+ ++ += - -- -= * *= / /= % = == != < <= > >= : ; , . ( ) [ ]"),
        vec![
            Token::Plus, Token::PlusPlus, Token::PlusAssign, Token::Minus, Token::MinusMinus,
            Token::MinusAssign, Token::Star, Token::StarAssign, Token::Slash, Token::SlashAssign,
            Token::Percent, Token::Assign, Token::Eq, Token::NotEq, Token::Lt, Token::LtEq,
            Token::Gt, Token::GtEq, Token::Colon, Token::Semicolon, Token::Comma, Token::Dot,
            Token::LParen, Token::RParen, Token::LBracket, Token::RBracket, Token::Eof,
        ]
    );
}

#[test]
fn operators_without_spaces() {
    assert_eq!(
        lex("i++;x+=1"),
        vec![
            ident("i"), Token::PlusPlus, Token::Semicolon, ident("x"), Token::PlusAssign,
            Token::Int(1), Token::Eof,
        ]
    );
}

#[test]
fn comments_are_skipped() {
    assert_eq!(
        lex("let x = 5;   // inline comment\n// a whole line\nx"),
        vec![
            Token::Let, ident("x"), Token::Assign, Token::Int(5), Token::Semicolon, ident("x"),
            Token::Eof,
        ]
    );
    assert_eq!(lex("// only a comment"), vec![Token::Eof]);
}

#[test]
fn bang_without_equals_is_an_error() {
    assert_eq!(Lexer::new("a ! b").try_tokenize(), Err(LexError::UnexpectedBang));
}

#[test]
fn unexpected_character_is_an_error() {
    assert_eq!(Lexer::new("x @ y").try_tokenize(), Err(LexError::UnexpectedChar('@')));
    let mut l = Lexer::new("#");
    assert_eq!(l.try_next_token(), Err(LexError::UnexpectedChar('#')));
}

#[test]
fn empty_and_blank_text() {
    assert_eq!(lex(""), vec![Token::Eof]);
    assert_eq!(lex("  \n\t  "), vec![Token::Eof]);
}

#[test]
fn end_of_text_stays_eof() {
    let mut l = Lexer::new("x  ");
    assert_eq!(l.next_token(), ident("x"));
    assert_eq!(l.next_token(), Token::Eof);
    assert_eq!(l.next_token(), Token::Eof);
    assert_eq!(l.next_token(), Token::Eof);
}

#[test]
fn tokens_end_with_a_single_eof() {
    let toks = lex("main then return 0; end");
    assert_eq!(toks.last(), Some(&Token::Eof));
    assert_eq!(toks.iter().filter(|t| **t == Token::Eof).count(), 1);
    assert_eq!(toks.len(), 7);
}

#[test]
fn next_token_reads_one_at_a_time() {
    let mut l = Lexer::new("a<=b");
    assert_eq!(l.next_token(), ident("a"));
    assert_eq!(l.next_token(), Token::LtEq);
    assert_eq!(l.next_token(), ident("b"));
    assert_eq!(l.next_token(), Token::Eof);
}

#[test]
fn first_program_of_the_readme() {
    assert_eq!(
        lex("main then\n    return 0;\nend\n"),
        vec![Token::Main, Token::Then, Token::Return, Token::Int(0), Token::Semicolon, Token::End, Token::Eof]
    );
}

#[test]
fn whitespace_between_tokens_does_not_matter() {
    assert_eq!(lex("let health:int = 100;"), lex("let   health :\tint=100 ;"));
    assert_eq!(lex("   \n x"), lex("x"));
}

#[test]
fn tokenize_is_next_token_repeated() {
    let src = "func f(a: int) then return a * 2; end // done\n";
    let all = lex(src);
    let mut l = Lexer::new(src);
    let mut one_by_one = Vec::new();
    loop {
        let t = l.next_token();
        let at_end = t == Token::Eof;
        one_by_one.push(t);
        if at_end {
            break;
        }
    }
    assert_eq!(all, one_by_one);
}

#[test]
fn blank_prefix_keeps_tokens() {
    let s = "let x = 1; // one\nx = x + 1;";
    assert_eq!(lex(&format!("  \t\n{}", s)), lex(s));
    assert_eq!(lex(&format!("// header\n\n  // more\n{}", s)), lex(s));
    assert_eq!(Lexer::new("// c\n x @").try_tokenize(), Lexer::new("x @").try_tokenize());
}

#[test]
fn eof_exactly_when_only_blank_remains() {
    let mut l = Lexer::new("x // trailing comment");
    assert_eq!(l.next_token(), ident("x"));
    assert_eq!(l.next_token(), Token::Eof);
    let mut l = Lexer::new("  // c\n  y");
    assert_eq!(l.next_token(), ident("y"));
    assert_eq!(lex("\u{a0}\u{2003}\u{3000}\r\n"), vec![Token::Eof]);
}

#[test]
fn same_token_compares_kind_and_text() {
    assert!(ident("a").same_as(&ident("a")));
    assert!(!ident("a").same_as(&ident("b")));
    assert!(Token::End.same_as(&Token::End));
    assert!(!Token::End.same_as(&Token::Then));
    assert!(Token::Int(3).same_as(&Token::Int(3)));
    assert!(!Token::Int(3).same_as(&Token::Int(4)));
    assert!(!Token::Float("1.5".to_string()).same_as(&Token::StringLit("1.5".to_string())));
}
