use minicomp::lexer::{lex, lex_aborts};
use minicomp::token::Token;

fn ident(t: &Token, name: &str) -> bool {
    match t {
        Token::Ident(s) => s == name,
        _ => false,
    }
}

#[test]
fn lexer_test() {
    let toks = lex("1 + 2 + 3").unwrap();
    assert!(toks.len() == 6);
    assert!(matches!(toks[0], Token::Num(1)));
    assert!(matches!(toks[1], Token::Plus));
    assert!(matches!(toks[2], Token::Num(2)));
    assert!(matches!(toks[3], Token::Plus));
    assert!(matches!(toks[4], Token::Num(3)));
    assert!(matches!(toks[5], Token::End));

    let toks = lex("3 + 215 +").unwrap();
    assert!(toks.len() == 5);
    assert!(matches!(toks[0], Token::Num(3)));
    assert!(matches!(toks[1], Token::Plus));
    assert!(matches!(toks[2], Token::Num(215)));
    assert!(matches!(toks[3], Token::Plus));
    assert!(matches!(toks[4], Token::End));

    // test that the lexer catches invalid tokens
    assert!(matches!(lex("^^^"), Err(_)));
}

#[test]
fn lex_unlisted_symbols_are_rejected() {
    assert_eq!(lex("^^^").unwrap_err(), "Lexer Error: Unrecognized symbol '^'");
    assert_eq!(lex("a.b").unwrap_err(), "Lexer Error: Unrecognized symbol '.'");
    assert_eq!(lex("x = $;").unwrap_err(), "Lexer Error: Unrecognized symbol '$'");
    assert_eq!(lex("\"s\"").unwrap_err(), "Lexer Error: Unrecognized symbol '\"'");
}

#[test]
fn lex_layout_characters_are_skipped() {
    let toks = lex("a\tb\r\nc").unwrap();
    assert_eq!(toks.len(), 4);
    assert!(ident(&toks[0], "a"));
    assert!(ident(&toks[1], "b"));
    assert!(ident(&toks[2], "c"));
}

#[test]
fn lex_empty_input_is_just_end() {
    let toks = lex("").unwrap();
    assert_eq!(toks.len(), 1);
    assert!(matches!(toks[0], Token::End));
}

#[test]
fn lex_keywords_and_identifiers() {
    let toks = lex("func return int print read while if else break continue main x_1").unwrap();
    assert!(matches!(toks[0], Token::Func));
    assert!(matches!(toks[1], Token::Return));
    assert!(matches!(toks[2], Token::Int));
    assert!(matches!(toks[3], Token::Print));
    assert!(matches!(toks[4], Token::Read));
    assert!(matches!(toks[5], Token::While));
    assert!(matches!(toks[6], Token::If));
    assert!(matches!(toks[7], Token::Else));
    assert!(matches!(toks[8], Token::Break));
    assert!(matches!(toks[9], Token::Continue));
    assert!(ident(&toks[10], "main"));
    assert!(ident(&toks[11], "x_1"));
    assert!(matches!(toks[12], Token::End));
    assert_eq!(toks.len(), 13);
}

#[test]
fn lex_symbols() {
    let toks = lex("-*/%,;[](){}").unwrap();
    assert!(matches!(toks[0], Token::Subtract));
    assert!(matches!(toks[1], Token::Multiply));
    assert!(matches!(toks[2], Token::Divide));
    assert!(matches!(toks[3], Token::Modulus));
    assert!(matches!(toks[4], Token::Comma));
    assert!(matches!(toks[5], Token::SemiColon));
    assert!(matches!(toks[6], Token::LeftBracket));
    assert!(matches!(toks[7], Token::RightBracket));
    assert!(matches!(toks[8], Token::LeftParen));
    assert!(matches!(toks[9], Token::RightParen));
    assert!(matches!(toks[10], Token::LeftCurly));
    assert!(matches!(toks[11], Token::RightCurly));
    assert!(matches!(toks[12], Token::End));
}

#[test]
fn lex_comparisons() {
    let toks = lex("< <= > >= = == != x").unwrap();
    assert!(matches!(toks[0], Token::Less));
    assert!(matches!(toks[1], Token::LessEqual));
    assert!(matches!(toks[2], Token::Greater));
    assert!(matches!(toks[3], Token::GreaterEqual));
    assert!(matches!(toks[4], Token::Assign));
    assert!(matches!(toks[5], Token::Equality));
    assert!(matches!(toks[6], Token::NotEqual));
    assert!(ident(&toks[7], "x"));
    assert!(matches!(toks[8], Token::End));
}

#[test]
fn lex_comments() {
    let toks = lex("a # all of this is ignored + 3\nb").unwrap();
    assert_eq!(toks.len(), 3);
    assert!(ident(&toks[0], "a"));
    assert!(ident(&toks[1], "b"));
    let toks = lex("# only a comment").unwrap();
    assert_eq!(toks.len(), 1);
}

#[test]
fn lex_invalid_identifier() {
    assert_eq!(lex("x = 12abc;").unwrap_err(), "Lexer Error: Invalid identifier '12'");
    assert_eq!(lex("7_").unwrap_err(), "Lexer Error: Invalid identifier '7'");
}

#[test]
fn lex_unrecognized_symbols() {
    assert_eq!(lex("a ! b").unwrap_err(), "Lexer Error: Unrecognized symbol '!'");
    assert_eq!(lex("a _b").unwrap_err(), "Lexer Error: Unrecognized symbol ' '");
    assert_eq!(lex("a\n_b").unwrap_err(), "Lexer Error: Unrecognized symbol '\n'");
}

#[test]
fn lex_largest_number() {
    let toks = lex("2147483647").unwrap();
    assert!(matches!(toks[0], Token::Num(2147483647)));
    let toks = lex("007").unwrap();
    assert!(matches!(toks[0], Token::Num(7)));
}

#[test]
fn lex_aborts_on_overflow_and_final_greater() {
    assert!(lex_aborts("2147483648"));
    assert!(lex_aborts("x = 99999999999999999999;"));
    assert!(lex_aborts("a >"));
    assert!(!lex_aborts("a > b"));
    assert!(!lex_aborts("2147483647"));
    assert!(!lex_aborts("12abc"));
}

#[test]
fn lex_output_ends_with_single_end() {
    let toks = lex("func main() { int a; a = 0; }").unwrap();
    let ends = toks.iter().filter(|t| matches!(t, Token::End)).count();
    assert_eq!(ends, 1);
    assert!(matches!(toks[toks.len() - 1], Token::End));
}

#[test]
fn lex_non_ascii_is_rejected() {
    assert_eq!(lex("a é b").unwrap_err(), "Lexer Error: Unrecognized symbol 'é'");
}
