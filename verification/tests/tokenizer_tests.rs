use dsl_frontend::token::Token;
use dsl_frontend::tokenizer::{reconstruct, tokenize};

#[test]
fn empty_input_yields_no_tokens() {
    assert_eq!(tokenize(String::new()), Vec::<Token>::new());
}

#[test]
fn data_declaration_tokens() {
    let tokens = tokenize(String::from("data Foo { x : Int }"));
    assert_eq!(
        tokens,
        vec![
            Token::Data,
            Token::Symbol(String::from("Foo")),
            Token::LBrace,
            Token::Symbol(String::from("x")),
            Token::Colon,
            Token::Symbol(String::from("Int")),
            Token::RBrace,
        ]
    );
}

#[test]
fn comment_line_is_stripped() {
    assert_eq!(
        tokenize(String::from("// note\ndata Foo {}")),
        tokenize(String::from("data Foo {}"))
    );
}

#[test]
fn trailing_comment_is_stripped() {
    assert_eq!(
        tokenize(String::from("data Foo { // fields\n}")),
        tokenize(String::from("data Foo { }"))
    );
}

#[test]
fn comment_at_end_of_input_is_stripped() {
    assert_eq!(
        tokenize(String::from("data // trailing words")),
        vec![Token::Data]
    );
}

#[test]
fn lone_slash_is_no_comment() {
    assert_eq!(
        tokenize(String::from("a / b")),
        vec![
            Token::Symbol(String::from("a")),
            Token::Symbol(String::from("b")),
        ]
    );
}

#[test]
fn extra_whitespace_never_changes_tokens() {
    assert_eq!(
        tokenize(String::from("data   Foo\n{\n    x :   Int\n}\n")),
        tokenize(String::from("data Foo { x : Int }"))
    );
}

#[test]
fn every_fixed_token_is_recognised() {
    let tokens = tokenize(String::from("data group do run if for let create { } ( ) : , = . ;"));
    assert_eq!(
        tokens,
        vec![
            Token::Data,
            Token::Group,
            Token::Do,
            Token::Run,
            Token::If,
            Token::For,
            Token::Let,
            Token::CreateInstructionKeyword,
            Token::LBrace,
            Token::RBrace,
            Token::LParenthesis,
            Token::RParenthesis,
            Token::Colon,
            Token::Comma,
            Token::Equal,
            Token::Dot,
            Token::Semicolon,
        ]
    );
}

#[test]
fn integer_literals_are_parsed() {
    assert_eq!(
        tokenize(String::from("123 45 0")),
        vec![Token::Integer(123), Token::Integer(45), Token::Integer(0)]
    );
}

#[test]
fn oversized_integer_saturates() {
    assert_eq!(
        tokenize(String::from("99999999999999999999999999")),
        vec![Token::Integer(i64::MAX)]
    );
    assert_eq!(
        tokenize(String::from("9223372036854775807")),
        vec![Token::Integer(i64::MAX)]
    );
}

#[test]
fn keyword_wins_over_identifier_prefix() {
    assert_eq!(
        tokenize(String::from("database")),
        vec![Token::Data, Token::Symbol(String::from("base"))]
    );
    assert_eq!(
        tokenize(String::from("xdata")),
        vec![Token::Symbol(String::from("xdata"))]
    );
}

#[test]
fn longest_keyword_wins_within_shared_prefix() {
    assert_eq!(tokenize(String::from("do")), vec![Token::Do]);
    assert_eq!(tokenize(String::from("data")), vec![Token::Data]);
}

#[test]
fn unrecognised_characters_are_dropped() {
    assert_eq!(
        tokenize(String::from("x @ y #!")),
        vec![
            Token::Symbol(String::from("x")),
            Token::Symbol(String::from("y")),
        ]
    );
}

#[test]
fn unicode_letters_form_one_symbol() {
    assert_eq!(
        tokenize(String::from("d\u{e9}j\u{e0} vu")),
        vec![
            Token::Symbol(String::from("d\u{e9}j\u{e0}")),
            Token::Symbol(String::from("vu")),
        ]
    );
}

#[test]
fn unicode_letter_starts_a_symbol() {
    assert_eq!(
        tokenize(String::from("\u{e9}x x\u{3b1}1")),
        vec![
            Token::Symbol(String::from("\u{e9}x")),
            Token::Symbol(String::from("x\u{3b1}1")),
        ]
    );
}

#[test]
fn non_alphanumeric_unicode_is_dropped() {
    assert_eq!(
        tokenize(String::from("a \u{2603} b")),
        vec![
            Token::Symbol(String::from("a")),
            Token::Symbol(String::from("b")),
        ]
    );
}

#[test]
fn unicode_symbols_reconstruct_and_round_trip() {
    let tokens = tokenize(String::from("data \u{e9}t\u{e9} { x : Int }"));
    let text = reconstruct(&tokens);
    assert_eq!(tokenize(text), tokens);
}

#[test]
fn reconstruction_round_trips() {
    let source = String::from("group G(a: T1, b: T2) { R1(x=u), R2(y=v) } // done");
    let tokens = tokenize(source);
    let text = reconstruct(&tokens);
    assert_eq!(tokenize(text), tokens);
}

#[test]
fn reconstruction_round_trips_with_integers() {
    let tokens = tokenize(String::from("run (a 17 b) { }"));
    let text = reconstruct(&tokens);
    assert_eq!(tokenize(text), tokens);
}

#[test]
fn get_value_returns_canonical_text() {
    assert_eq!(Token::Data.get_value(), "data");
    assert_eq!(Token::CreateInstructionKeyword.get_value(), "create");
    assert_eq!(Token::LBrace.get_value(), "{");
    assert_eq!(Token::Symbol(String::from("hello")).get_value(), "hello");
    assert_eq!(Token::Integer(1230).get_value(), "1230");
    assert_eq!(Token::Integer(0).get_value(), "0");
    assert_eq!(Token::Integer(-57).get_value(), "-57");
    assert_eq!(Token::Integer(i64::MIN).get_value(), "-9223372036854775808");
}
