use tmpl_lexer::classify::{classify, CharClass};
use tmpl_lexer::lexer::Lexer;
use tmpl_lexer::token::Token;

fn lex(input: &str) -> Vec<Token> {
    Lexer::new(input.to_string()).tokens()
}

fn word(s: &str) -> Token {
    Token::Word { contents: s.to_string() }
}

fn space(s: &str) -> Token {
    Token::Whitespace { contents: s.to_string() }
}

fn var(s: &str) -> Token {
    Token::Var { name: s.to_string() }
}

fn rebuild(toks: &[Token]) -> String {
    toks.iter().map(|t| t.to_source()).collect()
}

#[test]
fn variable_then_word() {
    assert_eq!(lex("$name rest"), vec![var("name"), space(" "), word("rest")]);
}

#[test]
fn block_around_variable() {
    assert_eq!(
        lex("{ $x }"),
        vec![Token::BlockOpen, space(" "), var("x"), space(" "), Token::BlockClose]
    );
}

#[test]
fn quote_splits_words() {
    assert_eq!(lex("a\"b"), vec![word("a"), Token::String, word("b")]);
}

#[test]
fn word_stops_before_bracket_close() {
    assert_eq!(lex("foo]"), vec![word("foo"), Token::BracketClose]);
}

#[test]
fn empty_input_yields_nothing() {
    let mut l = Lexer::new(String::new());
    assert_eq!(l.next(), None);
    assert_eq!(l.position(), 0);
    assert_eq!(l.unrecognized(), None);
}

#[test]
fn exhausted_stream_stays_exhausted() {
    let mut l = Lexer::new("a b".to_string());
    assert_eq!(l.next(), Some(word("a")));
    assert_eq!(l.next(), Some(space(" ")));
    assert_eq!(l.next(), Some(word("b")));
    for _ in 0..5 {
        assert_eq!(l.next(), None);
        assert_eq!(l.position(), 3);
    }
}

#[test]
fn round_trip_reproduces_input() {
    let inputs = [
        "",
        "plain",
        "$name rest",
        "{ $x }",
        "[a]{b}\"c\"$d",
        "  \t\n mixed\r\n$v[w]  ",
        "$",
        "$}",
        "héllo wörld €",
        "a\u{a0}b\u{3000}c",
    ];
    for input in inputs {
        let mut l = Lexer::new(input.to_string());
        let toks = l.tokens();
        assert_eq!(rebuild(&toks), input);
        assert_eq!(l.position(), input.chars().count());
        assert_eq!(l.unrecognized(), None);
    }
}

#[test]
fn brackets_and_blocks_are_single_markers() {
    assert_eq!(
        lex("[[{}]]"),
        vec![
            Token::BracketOpen,
            Token::BracketOpen,
            Token::BlockOpen,
            Token::BlockClose,
            Token::BracketClose,
            Token::BracketClose
        ]
    );
}

#[test]
fn open_markers_inside_a_word_do_not_split_it() {
    assert_eq!(lex("a$b[c{d"), vec![word("a$b[c{d")]);
}

#[test]
fn variable_name_is_the_following_word_run() {
    assert_eq!(lex("$a$b}"), vec![var("a$b"), Token::BlockClose]);
}

#[test]
fn bare_sigil_gives_empty_name() {
    assert_eq!(lex("$"), vec![var("")]);
    assert_eq!(lex("$ x"), vec![var(""), space(" "), word("x")]);
    assert_eq!(lex("$\"q"), vec![var(""), Token::String, word("q")]);
}

#[test]
fn whitespace_run_is_kept_verbatim() {
    assert_eq!(lex("a \t\r\n b"), vec![word("a"), space(" \t\r\n "), word("b")]);
}

#[test]
fn unicode_whitespace_separates_words() {
    assert_eq!(
        lex("x\u{2003}y\u{85}z"),
        vec![word("x"), space("\u{2003}"), word("y"), space("\u{85}"), word("z")]
    );
}

#[test]
fn control_characters_belong_to_words() {
    assert_eq!(lex("a\u{8}b c"), vec![word("a\u{8}b"), space(" "), word("c")]);
    let mut l = Lexer::new("\u{8}".to_string());
    assert_eq!(l.tokens(), vec![word("\u{8}")]);
    assert_eq!(l.unrecognized(), None);
}

#[test]
fn cursor_counts_consumed_characters() {
    let mut l = Lexer::new("$ab cd".to_string());
    assert_eq!(l.position(), 0);
    assert_eq!(l.next(), Some(var("ab")));
    assert_eq!(l.position(), 3);
    assert_eq!(l.next(), Some(space(" ")));
    assert_eq!(l.position(), 4);
    assert_eq!(l.next(), Some(word("cd")));
    assert_eq!(l.position(), 6);
}

#[test]
fn classifier_gives_structural_priority() {
    assert_eq!(classify('$'), CharClass::Var);
    assert_eq!(classify('['), CharClass::BracketOpen);
    assert_eq!(classify(']'), CharClass::BracketClose);
    assert_eq!(classify('{'), CharClass::BlockOpen);
    assert_eq!(classify('}'), CharClass::BlockClose);
    assert_eq!(classify('"'), CharClass::StringDelim);
    assert_eq!(classify(' '), CharClass::Space);
    assert_eq!(classify('\u{b}'), CharClass::Space);
    assert_eq!(classify('a'), CharClass::Word);
    assert_eq!(classify('\u{8}'), CharClass::Word);
}

#[test]
fn token_source_text() {
    assert_eq!(var("x").to_source(), "$x");
    assert_eq!(word("w").to_source(), "w");
    assert_eq!(space(" \t").to_source(), " \t");
    assert_eq!(Token::String.to_source(), "\"");
    assert_eq!(Token::BracketOpen.to_source(), "[");
    assert_eq!(Token::BracketClose.to_source(), "]");
    assert_eq!(Token::BlockOpen.to_source(), "{");
    assert_eq!(Token::BlockClose.to_source(), "}");
}
