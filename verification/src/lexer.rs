//! The lexer: its meaning as a spec function over the source characters,
//! and the executable scanner proved to agree with it.

use vstd::prelude::*;
use crate::token::{Token, TokenView};

verus! {

/// What lexing a character sequence comes to: the tokens, a lexer error
/// message, or an abort (inputs the lexer does not handle: a number past
/// `i32::MAX`, or a `>` as the last character).
pub enum Lexed {
    Tokens(Seq<TokenView>),
    Error(Seq<char>),
    Abort,
}

pub open spec fn is_digit(c: char) -> bool {
    '0' <= c && c <= '9'
}

pub open spec fn is_letter(c: char) -> bool {
    ('a' <= c && c <= 'z') || ('A' <= c && c <= 'Z')
}

/// Characters that may continue an identifier.
pub open spec fn is_word_char(c: char) -> bool {
    is_letter(c) || is_digit(c) || c == '_'
}

pub open spec fn digit_value(c: char) -> int {
    c as int - '0' as int
}

/// The value of a run of decimal digits.
pub open spec fn digits_value(d: Seq<char>) -> int
    decreases d.len(),
{
    if d.len() == 0 {
        0
    } else {
        digits_value(d.drop_last()) * 10 + digit_value(d.last())
    }
}

/// The first position at or after `i` that does not hold a digit.
pub open spec fn digits_end(s: Seq<char>, i: nat) -> nat
    decreases s.len() - i,
{
    if i < s.len() && is_digit(s[i as int]) {
        digits_end(s, i + 1)
    } else {
        i
    }
}

/// The first position at or after `i` that does not hold an identifier character.
pub open spec fn word_end(s: Seq<char>, i: nat) -> nat
    decreases s.len() - i,
{
    if i < s.len() && is_word_char(s[i as int]) {
        word_end(s, i + 1)
    } else {
        i
    }
}

/// The position of the first newline at or after `i`, or the length of `s`.
pub open spec fn line_end(s: Seq<char>, i: nat) -> nat
    decreases s.len() - i,
{
    if i < s.len() && s[i as int] != '\n' {
        line_end(s, i + 1)
    } else {
        i
    }
}

/// The token that a character stands for on its own.
pub open spec fn single_char_token(c: char) -> Option<TokenView> {
    if c == '+' {
        Some(TokenView::Plus)
    } else if c == '-' {
        Some(TokenView::Subtract)
    } else if c == '*' {
        Some(TokenView::Multiply)
    } else if c == '/' {
        Some(TokenView::Divide)
    } else if c == '%' {
        Some(TokenView::Modulus)
    } else if c == ',' {
        Some(TokenView::Comma)
    } else if c == ';' {
        Some(TokenView::SemiColon)
    } else if c == '[' {
        Some(TokenView::LeftBracket)
    } else if c == ']' {
        Some(TokenView::RightBracket)
    } else if c == '(' {
        Some(TokenView::LeftParen)
    } else if c == ')' {
        Some(TokenView::RightParen)
    } else if c == '{' {
        Some(TokenView::LeftCurly)
    } else if c == '}' {
        Some(TokenView::RightCurly)
    } else {
        None
    }
}

/// The token of a word: a keyword, or else an identifier.
pub open spec fn word_token(w: Seq<char>) -> TokenView {
    if w == "func"@ {
        TokenView::Func
    } else if w == "return"@ {
        TokenView::Return
    } else if w == "int"@ {
        TokenView::Int
    } else if w == "print"@ {
        TokenView::Print
    } else if w == "read"@ {
        TokenView::Read
    } else if w == "while"@ {
        TokenView::While
    } else if w == "if"@ {
        TokenView::If
    } else if w == "else"@ {
        TokenView::Else
    } else if w == "break"@ {
        TokenView::Break
    } else if w == "continue"@ {
        TokenView::Continue
    } else {
        TokenView::Ident(w)
    }
}

/// Layout characters besides blank and newline: tab, carriage return,
/// vertical tab and form feed. They separate tokens and are otherwise skipped.
pub open spec fn is_blank(c: char) -> bool {
    c == '\t' || c == '\r' || c == '\u{b}' || c == '\u{c}'
}

pub open spec fn unrecognized(c: char) -> Seq<char> {
    "Lexer Error: Unrecognized symbol '"@ + seq![c] + "'"@
}

pub open spec fn invalid_identifier(w: Seq<char>) -> Seq<char> {
    "Lexer Error: Invalid identifier '"@ + w + "'"@
}

pub proof fn lemma_digits_end(s: Seq<char>, i: nat)
    requires
        i <= s.len(),
    ensures
        i <= digits_end(s, i) <= s.len(),
        forall|k: int| i <= k < digits_end(s, i) ==> is_digit(#[trigger] s[k]),
        digits_end(s, i) < s.len() ==> !is_digit(s[digits_end(s, i) as int]),
    decreases s.len() - i,
{
    if i < s.len() && is_digit(s[i as int]) {
        lemma_digits_end(s, i + 1);
    }
}

pub proof fn lemma_word_end(s: Seq<char>, i: nat)
    requires
        i <= s.len(),
    ensures
        i <= word_end(s, i) <= s.len(),
        forall|k: int| i <= k < word_end(s, i) ==> is_word_char(#[trigger] s[k]),
    decreases s.len() - i,
{
    if i < s.len() && is_word_char(s[i as int]) {
        lemma_word_end(s, i + 1);
    }
}

pub proof fn lemma_line_end(s: Seq<char>, i: nat)
    requires
        i <= s.len(),
    ensures
        i <= line_end(s, i) <= s.len(),
        line_end(s, i) < s.len() ==> s[line_end(s, i) as int] == '\n',
    decreases s.len() - i,
{
    if i < s.len() && s[i as int] != '\n' {
        lemma_line_end(s, i + 1);
    }
}

/// Lexing of `s` from position `i`, with `acc` the tokens found before `i`.
pub open spec fn lex_from(s: Seq<char>, i: nat, acc: Seq<TokenView>) -> Lexed
    decreases s.len() - i,
{
    if i >= s.len() {
        Lexed::Tokens(acc.push(TokenView::End))
    } else {
        let c = s[i as int];
        let la = if i + 1 < s.len() {
            s[i + 1int]
        } else {
            '0'
        };
        if is_digit(c) {
            let e = digits_end(s, i + 1);
            proof {
                lemma_digits_end(s, i + 1);
            }
            if e < s.len() && (is_letter(s[e as int]) || s[e as int] == '_') {
                Lexed::Error(invalid_identifier(s.subrange(i as int, e as int)))
            } else if digits_value(s.subrange(i as int, e as int)) > i32::MAX {
                Lexed::Abort
            } else {
                let v = digits_value(s.subrange(i as int, e as int));
                lex_from(s, e, acc.push(TokenView::Num(v as i32)))
            }
        } else if c == '#' {
            let nl = line_end(s, i);
            proof {
                lemma_line_end(s, i);
            }
            if nl < s.len() {
                lex_from(s, nl + 1, acc)
            } else {
                Lexed::Tokens(acc.push(TokenView::End))
            }
        } else if single_char_token(c) is Some {
            lex_from(s, i + 1, acc.push(single_char_token(c)->0))
        } else if c == '>' {
            if i + 1 >= s.len() {
                Lexed::Abort
            } else if s[i + 1int] == '=' {
                lex_from(s, i + 2, acc.push(TokenView::GreaterEqual))
            } else {
                lex_from(s, i + 1, acc.push(TokenView::Greater))
            }
        } else if c == '<' {
            if la == '=' {
                lex_from(s, i + 2, acc.push(TokenView::LessEqual))
            } else {
                lex_from(s, i + 1, acc.push(TokenView::Less))
            }
        } else if c == '=' {
            if la == '=' {
                lex_from(s, i + 2, acc.push(TokenView::Equality))
            } else {
                lex_from(s, i + 1, acc.push(TokenView::Assign))
            }
        } else if c == '!' {
            if la == '=' {
                lex_from(s, i + 2, acc.push(TokenView::NotEqual))
            } else {
                Lexed::Error(unrecognized(c))
            }
        } else if is_letter(c) {
            let e = word_end(s, i + 1);
            proof {
                lemma_word_end(s, i + 1);
            }
            lex_from(s, e, acc.push(word_token(s.subrange(i as int, e as int))))
        } else if c == ' ' || c == '\n' {
            if la == '_' {
                Lexed::Error(unrecognized(c))
            } else {
                lex_from(s, i + 1, acc)
            }
        } else if is_blank(c) {
            lex_from(s, i + 1, acc)
        } else {
            Lexed::Error(unrecognized(c))
        }
    }
}

pub open spec fn is_keyword(w: Seq<char>) -> bool {
    word_token(w) != TokenView::Ident(w)
}

/// The shape of every token sequence the lexer produces: it ends with the one
/// `End` marker, numbers are never negative, and no identifier is a keyword.
pub open spec fn well_formed_tokens(t: Seq<TokenView>) -> bool {
    &&& t.len() >= 1
    &&& t.last() is End
    &&& forall|k: int| 0 <= k < t.len() - 1 ==> well_formed_token(#[trigger] t[k])
}

/// A token that can stand before the end marker.
pub open spec fn well_formed_token(x: TokenView) -> bool {
    match x {
        TokenView::End => false,
        TokenView::Num(v) => v >= 0,
        TokenView::Ident(w) => !is_keyword(w),
        _ => true,
    }
}

proof fn lemma_push_well_formed(acc: Seq<TokenView>, x: TokenView)
    requires
        forall|k: int| 0 <= k < acc.len() ==> well_formed_token(#[trigger] acc[k]),
        well_formed_token(x),
    ensures
        forall|k: int| 0 <= k < acc.push(x).len() ==> well_formed_token(#[trigger] acc.push(x)[k]),
{
    assert forall|k: int| 0 <= k < acc.push(x).len() implies well_formed_token(#[trigger] acc.push(x)[k]) by {
        if k < acc.len() {
            assert(acc.push(x)[k] == acc[k]);
        }
    }
}

proof fn lemma_end_well_formed(acc: Seq<TokenView>)
    requires
        forall|k: int| 0 <= k < acc.len() ==> well_formed_token(#[trigger] acc[k]),
    ensures
        well_formed_tokens(acc.push(TokenView::End)),
{
    let t = acc.push(TokenView::End);
    assert forall|k: int| 0 <= k < t.len() - 1 implies well_formed_token(#[trigger] t[k]) by {
        assert(t[k] == acc[k]);
    }
}

proof fn lemma_word_token_well_formed(w: Seq<char>)
    ensures
        well_formed_token(word_token(w)),
{
}

/// Lexing that starts from well-formed tokens ends with well-formed tokens.
proof fn lemma_lex_from_well_formed(s: Seq<char>, i: nat, acc: Seq<TokenView>)
    requires
        forall|k: int| 0 <= k < acc.len() ==> well_formed_token(#[trigger] acc[k]),
    ensures
        lex_from(s, i, acc) matches Lexed::Tokens(t) ==> well_formed_tokens(t),
    decreases s.len() - i,
{
    if i >= s.len() {
        lemma_end_well_formed(acc);
    } else {
        let c = s[i as int];
        let la = if i + 1 < s.len() {
            s[i + 1int]
        } else {
            '0'
        };
        if is_digit(c) {
            let e = digits_end(s, i + 1);
            lemma_digits_end(s, i + 1);
            let d = s.subrange(i as int, e as int);
            if !(e < s.len() && (is_letter(s[e as int]) || s[e as int] == '_')) && digits_value(d) <= i32::MAX {
                assert forall|k: int| 0 <= k < d.len() implies is_digit(#[trigger] d[k]) by {
                    assert(d[k] == s[i + k]);
                }
                lemma_digits_value_nonneg(d);
                let x = TokenView::Num(digits_value(d) as i32);
                lemma_push_well_formed(acc, x);
                lemma_lex_from_well_formed(s, e, acc.push(x));
            }
        } else if c == '#' {
            let nl = line_end(s, i);
            lemma_line_end(s, i);
            if nl < s.len() {
                lemma_lex_from_well_formed(s, nl + 1, acc);
            } else {
                lemma_end_well_formed(acc);
            }
        } else if single_char_token(c) is Some {
            let x = single_char_token(c)->0;
            lemma_push_well_formed(acc, x);
            lemma_lex_from_well_formed(s, i + 1, acc.push(x));
        } else if c == '>' {
            if i + 1 < s.len() {
                lemma_push_well_formed(acc, TokenView::GreaterEqual);
                lemma_push_well_formed(acc, TokenView::Greater);
                if s[i + 1int] == '=' {
                    lemma_lex_from_well_formed(s, i + 2, acc.push(TokenView::GreaterEqual));
                } else {
                    lemma_lex_from_well_formed(s, i + 1, acc.push(TokenView::Greater));
                }
            }
        } else if c == '<' {
            lemma_push_well_formed(acc, TokenView::LessEqual);
            lemma_push_well_formed(acc, TokenView::Less);
            if la == '=' {
                lemma_lex_from_well_formed(s, i + 2, acc.push(TokenView::LessEqual));
            } else {
                lemma_lex_from_well_formed(s, i + 1, acc.push(TokenView::Less));
            }
        } else if c == '=' {
            lemma_push_well_formed(acc, TokenView::Equality);
            lemma_push_well_formed(acc, TokenView::Assign);
            if la == '=' {
                lemma_lex_from_well_formed(s, i + 2, acc.push(TokenView::Equality));
            } else {
                lemma_lex_from_well_formed(s, i + 1, acc.push(TokenView::Assign));
            }
        } else if c == '!' {
            if la == '=' {
                lemma_push_well_formed(acc, TokenView::NotEqual);
                lemma_lex_from_well_formed(s, i + 2, acc.push(TokenView::NotEqual));
            }
        } else if is_letter(c) {
            let e = word_end(s, i + 1);
            lemma_word_end(s, i + 1);
            let x = word_token(s.subrange(i as int, e as int));
            lemma_word_token_well_formed(s.subrange(i as int, e as int));
            lemma_push_well_formed(acc, x);
            lemma_lex_from_well_formed(s, e, acc.push(x));
        } else if c == ' ' || c == '\n' {
            if la != '_' {
                lemma_lex_from_well_formed(s, i + 1, acc);
            }
        } else if is_blank(c) {
            lemma_lex_from_well_formed(s, i + 1, acc);
        }
    }
}

/// Whatever the lexer produces ends with the one end marker, holds no
/// negative number and no keyword as an identifier: a token sequence that
/// the parser accepts as input.
pub proof fn lemma_lex_well_formed(s: Seq<char>)
    ensures
        spec_lex(s) matches Lexed::Tokens(t) ==> well_formed_tokens(t),
{
    lemma_lex_from_well_formed(s, 0, seq![]);
}

/// What the lexer makes of a source text.
pub open spec fn spec_lex(s: Seq<char>) -> Lexed {
    lex_from(s, 0, seq![])
}


/// The result of running the lexer, with aborts made explicit.
pub enum LexOutcome {
    Tokens(Vec<Token>),
    Error(String),
    Abort,
}

impl View for LexOutcome {
    type V = Lexed;

    open spec fn view(&self) -> Lexed {
        match self {
            LexOutcome::Tokens(t) => Lexed::Tokens(t.deep_view()),
            LexOutcome::Error(m) => Lexed::Error(m@),
            LexOutcome::Abort => Lexed::Abort,
        }
    }
}

/// The characters of a string, in order.
fn chars_of(code: &str) -> (v: Vec<char>)
    ensures
        v@ == code@,
{
    let mut v: Vec<char> = Vec::new();
    for c in it: code.chars()
        invariant
            v@ == it.seq().take(it.index() as int),
    {
        v.push(c);
    }
    v
}


/// The value of a digit run, with every value past `i32::MAX` folded into `i32::MAX + 1`.
pub open spec fn capped(v: int) -> int {
    if v > i32::MAX {
        i32::MAX + 1
    } else {
        v
    }
}

proof fn lemma_digits_value_nonneg(d: Seq<char>)
    requires
        forall|k: int| 0 <= k < d.len() ==> is_digit(#[trigger] d[k]),
    ensures
        digits_value(d) >= 0,
    decreases d.len(),
{
    if d.len() > 0 {
        lemma_digits_value_nonneg(d.drop_last());
    }
}

fn same_text(w: &String, lit: &str) -> (b: bool)
    ensures
        b == (w@ == lit@),
{
    let l = String::from_str(lit);
    w.eq(&l)
}

fn word_to_token(w: String) -> (t: Token)
    ensures
        t.deep_view() == word_token(w@),
{
    if same_text(&w, "func") {
        Token::Func
    } else if same_text(&w, "return") {
        Token::Return
    } else if same_text(&w, "int") {
        Token::Int
    } else if same_text(&w, "print") {
        Token::Print
    } else if same_text(&w, "read") {
        Token::Read
    } else if same_text(&w, "while") {
        Token::While
    } else if same_text(&w, "if") {
        Token::If
    } else if same_text(&w, "else") {
        Token::Else
    } else if same_text(&w, "break") {
        Token::Break
    } else if same_text(&w, "continue") {
        Token::Continue
    } else {
        Token::Ident(w)
    }
}

fn single_char(c: char) -> (t: Option<Token>)
    ensures
        match t {
            Some(t) => single_char_token(c) == Some(t.deep_view()),
            None => single_char_token(c) is None,
        },
{
    if c == '+' {
        Some(Token::Plus)
    } else if c == '-' {
        Some(Token::Subtract)
    } else if c == '*' {
        Some(Token::Multiply)
    } else if c == '/' {
        Some(Token::Divide)
    } else if c == '%' {
        Some(Token::Modulus)
    } else if c == ',' {
        Some(Token::Comma)
    } else if c == ';' {
        Some(Token::SemiColon)
    } else if c == '[' {
        Some(Token::LeftBracket)
    } else if c == ']' {
        Some(Token::RightBracket)
    } else if c == '(' {
        Some(Token::LeftParen)
    } else if c == ')' {
        Some(Token::RightParen)
    } else if c == '{' {
        Some(Token::LeftCurly)
    } else if c == '}' {
        Some(Token::RightCurly)
    } else {
        None
    }
}

fn unrecognized_message(code: &str, i: usize) -> (m: String)
    requires
        i < code@.len(),
        i < usize::MAX,
    ensures
        m@ == unrecognized(code@[i as int]),
{
    let mut m = String::from_str("Lexer Error: Unrecognized symbol '");
    let symbol = code.substring_char(i, i + 1);
    assert(symbol@ =~= seq![code@[i as int]]);
    m.append(symbol);
    m.append("'");
    m
}

fn push_token(toks: &mut Vec<Token>, t: Token)
    ensures
        final(toks).deep_view() == old(toks).deep_view().push(t.deep_view()),
{
    let ghost t_view = t.deep_view();
    toks.push(t);
    assert(toks.deep_view() =~= old(toks).deep_view().push(t_view));
}

fn scan(code: &str, s: &Vec<char>) -> (r: LexOutcome)
    requires
        s@ == code@,
    ensures
        r@ == spec_lex(code@),
{
    let n = s.len();
    let mut toks: Vec<Token> = Vec::new();
    let mut i: usize = 0;
    assert(toks.deep_view() =~= Seq::<TokenView>::empty());
    while i < n
        invariant
            n == s@.len(),
            s@ == code@,
            i <= n,
            lex_from(s@, i as nat, toks.deep_view()) == spec_lex(s@),
        decreases n - i,
    {
        let c = s[i];
        let la = if i + 1 < n {
            s[i + 1]
        } else {
            '0'
        };
        let single = single_char(c);
        if '0' <= c && c <= '9' {
            let start = i;
            let mut val: i64 = (c as u32 - 48u32) as i64;
            i = i + 1;
            proof {
                lemma_digits_end(s@, i as nat);
                let first = s@.subrange(start as int, i as int);
                assert(first.drop_last() =~= Seq::<char>::empty());
                assert(first.last() == c);
                assert(digits_value(first.drop_last()) == 0);
                assert(digits_value(first) == digit_value(c));
            }
            loop
                invariant
                    n == s@.len(),
                    start < i <= n,
                    digits_end(s@, (start + 1) as nat) == digits_end(s@, i as nat),
                    forall|k: int| start <= k < i ==> is_digit(#[trigger] s@[k]),
                    val == capped(digits_value(s@.subrange(start as int, i as int))),
                ensures
                    i == digits_end(s@, (start + 1) as nat),
                    forall|k: int| start <= k < i ==> is_digit(#[trigger] s@[k]),
                    val == capped(digits_value(s@.subrange(start as int, i as int))),
                decreases n - i,
            {
                if i >= n {
                    break;
                }
                let ch = s[i];
                if !('0' <= ch && ch <= '9') {
                    break;
                }
                let ghost prev = s@.subrange(start as int, i as int);
                proof {
                    lemma_digits_value_nonneg(prev);
                }
                let d: i64 = (ch as u32 - 48u32) as i64;
                if val <= 2147483647 {
                    val = val * 10 + d;
                    if val > 2147483647 {
                        val = 2147483648;
                    }
                }
                i = i + 1;
                assert(s@.subrange(start as int, i as int).drop_last() =~= prev);
            }
            if i < n && (('a' <= s[i] && s[i] <= 'z') || ('A' <= s[i] && s[i] <= 'Z') || s[i] == '_') {
                let mut m = String::from_str("Lexer Error: Invalid identifier '");
                m.append(code.substring_char(start, i));
                m.append("'");
                return LexOutcome::Error(m);
            }
            if val > 2147483647 {
                return LexOutcome::Abort;
            }
            push_token(&mut toks, Token::Num(val as i32));
        } else if c == '#' {
            let start = i;
            proof {
                lemma_line_end(s@, i as nat);
            }
            loop
                invariant
                    n == s@.len(),
                    start <= i <= n,
                    line_end(s@, start as nat) == line_end(s@, i as nat),
                ensures
                    i == line_end(s@, start as nat),
                decreases n - i,
            {
                if i >= n {
                    break;
                }
                if s[i] == '\n' {
                    break;
                }
                i = i + 1;
            }
            if i < n {
                i = i + 1;
            }
        } else if single.is_some() {
            push_token(&mut toks, single.unwrap());
            i = i + 1;
        } else if c == '>' {
            if i + 1 >= n {
                return LexOutcome::Abort;
            }
            if s[i + 1] == '=' {
                push_token(&mut toks, Token::GreaterEqual);
                i = i + 2;
            } else {
                push_token(&mut toks, Token::Greater);
                i = i + 1;
            }
        } else if c == '<' {
            if la == '=' {
                push_token(&mut toks, Token::LessEqual);
                i = i + 2;
            } else {
                push_token(&mut toks, Token::Less);
                i = i + 1;
            }
        } else if c == '=' {
            if la == '=' {
                push_token(&mut toks, Token::Equality);
                i = i + 2;
            } else {
                push_token(&mut toks, Token::Assign);
                i = i + 1;
            }
        } else if c == '!' {
            if la == '=' {
                push_token(&mut toks, Token::NotEqual);
                i = i + 2;
            } else {
                return LexOutcome::Error(unrecognized_message(code, i));
            }
        } else if ('a' <= c && c <= 'z') || ('A' <= c && c <= 'Z') {
            let start = i;
            i = i + 1;
            proof {
                lemma_word_end(s@, i as nat);
            }
            loop
                invariant
                    n == s@.len(),
                    start < i <= n,
                    word_end(s@, (start + 1) as nat) == word_end(s@, i as nat),
                ensures
                    i == word_end(s@, (start + 1) as nat),
                decreases n - i,
            {
                if i >= n {
                    break;
                }
                let ch = s[i];
                if !(('A' <= ch && ch <= 'Z') || ('a' <= ch && ch <= 'z') || ('0' <= ch && ch
                    <= '9') || ch == '_') {
                    break;
                }
                i = i + 1;
            }
            let w = String::from_str(code.substring_char(start, i));
            push_token(&mut toks, word_to_token(w));
        } else if c == ' ' || c == '\n' {
            if la == '_' {
                return LexOutcome::Error(unrecognized_message(code, i));
            }
            i = i + 1;
        } else if c == '\t' || c == '\r' || c == '\u{b}' || c == '\u{c}' {
            i = i + 1;
        } else {
            return LexOutcome::Error(unrecognized_message(code, i));
        }
    }
    push_token(&mut toks, Token::End);
    LexOutcome::Tokens(toks)
}

/// Splits source text into tokens, ending with `Token::End`.
///
/// Fails with a lexer error message on a digit run followed by a letter or `_`,
/// on `!` not followed by `=`, on a blank or newline followed by `_`, and on
/// any character that is no part of a token and no layout (such as `^`, `.`
/// or `$`). Blanks, newlines, tabs, carriage returns and `#` comments are
/// skipped.
pub fn lex(code: &str) -> (r: Result<Vec<Token>, String>)
    requires
        !(spec_lex(code@) is Abort),
    ensures
        match spec_lex(code@) {
            Lexed::Tokens(t) => r matches Ok(v) && v.deep_view() == t,
            Lexed::Error(m) => r matches Err(e) && e@ == m,
            Lexed::Abort => false,
        },
        r matches Ok(v) ==> well_formed_tokens(v.deep_view()),
{
    proof {
        lemma_lex_well_formed(code@);
    }
    let s = chars_of(code);
    match scan(code, &s) {
        LexOutcome::Tokens(t) => Ok(t),
        LexOutcome::Error(m) => Err(m),
        // excluded by the precondition
        LexOutcome::Abort => Err(String::new()),
    }
}

/// Whether lexing `code` aborts: a number that does not fit in an `i32`, or
/// a `>` as the last character.
pub fn lex_aborts(code: &str) -> (b: bool)
    ensures
        b == (spec_lex(code@) is Abort),
{
    let s = chars_of(code);
    match scan(code, &s) {
        LexOutcome::Abort => true,
        _ => false,
    }
}

} // verus!
