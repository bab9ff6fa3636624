//! Statements: declarations, assignments, `return`, `print`, `read`, `while`
//! loops, `if`/`else`, `break` and `continue`, and statement blocks.

use vstd::prelude::*;
use crate::token::{Token, TokenView, tok};
use crate::text::{
    decimal, signed_decimal, usize_to_decimal, i32_to_decimal, starts_with, ends_with, lemma_starts_with_append,
    lemma_starts_with_trans,
};
use crate::state::{
    lemma_push_fresh, add_symbol, fail, CompilerState, Expression, ParseState, Parsed, state_of, outcome_matches, well_placed, has_symbol, has_func,
    find_symbol, find_func,
};
use crate::expr::{spec_expr, spec_bool, parse_expression, parse_bool_expression, advanced};

verus! {

/// A statement's end: the semicolon at `k`, or the error `msg` there.
pub open spec fn expect_semicolon(
    t: Seq<TokenView>,
    k: int,
    s: ParseState,
    code: Seq<char>,
    msg: Seq<char>,
) -> Parsed<Seq<char>> {
    if tok(t, k) is SemiColon {
        Ok((k + 1, s, code))
    } else {
        fail(k, s, msg)
    }
}

pub open spec fn with_symbol(s: ParseState, name: Seq<char>, kind: Seq<char>) -> ParseState {
    ParseState { syms: s.syms.push((name, kind)), ..s }
}

pub open spec fn duplicate_variable() -> Seq<char> {
    "Semantic Error: found duplicate variable {ident}"@
}

/// A declaration `int x;` or `int [n] x;`.
#[verifier::opaque]
pub open spec fn spec_decl(t: Seq<TokenView>, i: int, s: ParseState) -> Parsed<Seq<char>> {
    let end_msg = "Parser Error: Statements must end with a semicolon"@;
    if !(tok(t, i) is Int) {
        fail(i, s, "Parser Error: Declaration statements must being with 'int' keyword"@)
    } else {
        match tok(t, i + 1) {
            TokenView::LeftBracket => match tok(t, i + 2) {
                TokenView::Num(v) => if v <= 0 {
                    fail(i + 3, s, "Semantic Error: can't have an array of size 0 or lower"@)
                } else if !(tok(t, i + 3) is RightBracket) {
                    fail(i + 3, s, "Parser Error: Declaration statements for array rightBracket missing"@)
                } else {
                    match tok(t, i + 4) {
                        TokenView::Ident(id) => if has_symbol(s.syms, id, "array"@) {
                            fail(i + 5, s, duplicate_variable())
                        } else {
                            let code = "%int"@ + "["@ + "] "@ + id + ", "@ + signed_decimal(v as int) + "\n"@;
                            expect_semicolon(t, i + 5, with_symbol(s, id, "array"@), code, end_msg)
                        },
                        _ => fail(i + 4, s, "Parser Error: Declaration statements for array identifier missing"@),
                    }
                },
                _ => fail(i + 2, s, "Parser Error: Declaration statements for array number missing"@),
            },
            TokenView::Ident(id) => if has_symbol(s.syms, id, "int"@) {
                fail(i + 2, s, duplicate_variable())
            } else {
                expect_semicolon(t, i + 2, with_symbol(s, id, "int"@), "%int"@ + " "@ + id + "\n"@, end_msg)
            },
            _ => fail(i + 1, s, "Parser Error: Declarations must have an identifier or array size declaration"@),
        }
    }
}

/// `int x;` at `i`, with no `int` named `x` declared yet.
pub open spec fn is_scalar_declaration(t: Seq<TokenView>, i: int, s: ParseState) -> bool {
    &&& tok(t, i) is Int
    &&& tok(t, i + 1) is Ident
    &&& tok(t, i + 2) is SemiColon
    &&& !has_symbol(s.syms, tok(t, i + 1)->Ident_0, "int"@)
}

/// `int [n] x;` at `i`, with `n > 0` and no array named `x` declared yet.
pub open spec fn is_array_declaration(t: Seq<TokenView>, i: int, s: ParseState) -> bool {
    &&& tok(t, i) is Int
    &&& tok(t, i + 1) is LeftBracket
    &&& tok(t, i + 2) is Num
    &&& tok(t, i + 2)->Num_0 > 0
    &&& tok(t, i + 3) is RightBracket
    &&& tok(t, i + 4) is Ident
    &&& tok(t, i + 5) is SemiColon
    &&& !has_symbol(s.syms, tok(t, i + 4)->Ident_0, "array"@)
}

/// A declaration succeeds exactly on `int x;` with no `int` named `x` yet, and
/// on `int [n] x;` with `n > 0` and no array named `x` yet; it then reads those
/// tokens and adds `x` to the symbol table with its kind.
pub proof fn lemma_declaration_cases(t: Seq<TokenView>, i: int, s: ParseState)
    ensures
        spec_decl(t, i, s) is Ok <==> is_scalar_declaration(t, i, s) || is_array_declaration(t, i, s),
        is_scalar_declaration(t, i, s) ==> ({
            let x = tok(t, i + 1)->Ident_0;
            spec_decl(t, i, s) == Ok::<(int, ParseState, Seq<char>), (int, ParseState, Seq<char>)>(
                (i + 3, with_symbol(s, x, "int"@), "%int"@ + " "@ + x + "\n"@),
            )
        }),
        is_array_declaration(t, i, s) ==> ({
            let n = tok(t, i + 2)->Num_0;
            let x = tok(t, i + 4)->Ident_0;
            spec_decl(t, i, s) == Ok::<(int, ParseState, Seq<char>), (int, ParseState, Seq<char>)>(
                (i + 6, with_symbol(s, x, "array"@), "%int"@ + "["@ + "] "@ + x + ", "@ + signed_decimal(n as int) + "\n"@),
            )
        }),
{
    reveal(spec_decl);
}

/// The rest of `a[e1] = e2;` from the closing bracket at `k`, with `ei` the
/// code and name of the offset `e1`.
#[verifier::opaque]
pub open spec fn spec_store(t: Seq<TokenView>, k: int, s: ParseState, id: Seq<char>, ei: (Seq<char>, Seq<char>)) -> Parsed<Seq<char>> {
    if !(tok(t, k) is RightBracket) {
        fail(k, s, "Parser Error: missing right bracket ']'"@)
    } else if !(tok(t, k + 1) is Assign) {
        fail(k + 1, s, "Parser Error: missing '='"@)
    } else if !has_symbol(s.syms, id, "array"@) && !has_func(s.funcs, id) {
        fail(k + 2, s, "Semantic Error: {ident} doesn't exist / undeclared / mismatched type (not array)"@)
    } else {
        match spec_expr(t, k + 2, s) {
            Err(e) => Err(e),
            Ok((m, s2, e)) => expect_semicolon(
                t,
                m,
                s2,
                ei.0 + e.0 + "%mov ["@ + id + " + "@ + ei.1 + "], "@ + e.1 + "\n"@,
                "Parser Error: Missing SemiColon"@,
            ),
        }
    }
}

/// An assignment `x = e;` or `a[e1] = e2;`.
#[verifier::opaque]
pub open spec fn spec_assign(t: Seq<TokenView>, i: int, s: ParseState) -> Parsed<Seq<char>> {
    let end_msg = "Parser Error: Missing SemiColon"@;
    match tok(t, i) {
        TokenView::Ident(id) => match tok(t, i + 1) {
            TokenView::Assign => if !has_symbol(s.syms, id, "int"@) && !has_func(s.funcs, id) {
                fail(i + 2, s, "Semantic Error: {ident} doesn't exist / undeclared / mismatched types (not int)"@)
            } else {
                match spec_expr(t, i + 2, s) {
                    Err(e) => Err(e),
                    Ok((k, s1, e)) => expect_semicolon(
                        t,
                        k,
                        s1,
                        e.0 + "%mov "@ + id + ", "@ + e.1 + "\n"@,
                        end_msg,
                    ),
                }
            },
            TokenView::LeftBracket => match spec_expr(t, i + 2, s) {
                Err(e) => Err(e),
                Ok((k, s1, ei)) => spec_store(t, k, s1, id, ei),
            },
            _ => fail(i + 1, s, "Parser Error: missing '='"@),
        },
        _ => fail(i, s, "Parser Error: Assignment statements must being with an identifier"@),
    }
}

/// A statement of the form `keyword e;`, whose code is made by `code_of`
/// from the expression's code and name.
#[verifier::opaque]
pub open spec fn spec_keyword_expr(
    t: Seq<TokenView>,
    i: int,
    s: ParseState,
    keyword: TokenView,
    code_of: spec_fn(Seq<char>, Seq<char>) -> Seq<char>,
) -> Parsed<Seq<char>> {
    if tok(t, i) != keyword {
        fail(i, s, "Parser Error: Return statements must being with a return keyword"@)
    } else {
        match spec_expr(t, i + 1, s) {
            Err(e) => Err(e),
            Ok((k, s1, e)) => expect_semicolon(
                t,
                k,
                s1,
                code_of(e.0, e.1),
                "Parser Error: Statement is missing the '=' operator"@,
            ),
        }
    }
}

/// `return e;`
pub open spec fn spec_return(t: Seq<TokenView>, i: int, s: ParseState) -> Parsed<Seq<char>> {
    spec_keyword_expr(t, i, s, TokenView::Return, |c: Seq<char>, n: Seq<char>| c + "%ret "@ + n + "\n"@)
}

/// `print e;`
pub open spec fn spec_print(t: Seq<TokenView>, i: int, s: ParseState) -> Parsed<Seq<char>> {
    spec_keyword_expr(t, i, s, TokenView::Print, |c: Seq<char>, n: Seq<char>| c + "%out "@ + n + "\n"@)
}

/// `read e;` (only the expression's name enters the code)
pub open spec fn spec_read(t: Seq<TokenView>, i: int, s: ParseState) -> Parsed<Seq<char>> {
    spec_keyword_expr(t, i, s, TokenView::Read, |c: Seq<char>, n: Seq<char>| "%input "@ + n + "\n"@)
}

/// A statement; before a closing brace, the empty statement (nothing read,
/// no code).
pub open spec fn spec_statement(t: Seq<TokenView>, i: int, s: ParseState) -> Parsed<Seq<char>>
    decreases t.len() - i, 1int,
{
    match tok(t, i) {
        TokenView::Int => spec_decl(t, i, s),
        TokenView::Ident(_) => spec_assign(t, i, s),
        TokenView::Return => spec_return(t, i, s),
        TokenView::Print => spec_print(t, i, s),
        TokenView::Read => spec_read(t, i, s),
        TokenView::While => spec_while(t, i, s),
        TokenView::If => spec_if(t, i, s),
        TokenView::RightCurly => Ok((i, s, seq![])),
        TokenView::Continue => if s.whiles > 0 {
            expect_semicolon(t, i + 1, s, seq![], "Parser Error: Missing SemiColon"@)
        } else {
            fail(i, s, "Parser Error: Continue called out of while loop"@)
        },
        TokenView::Break => if s.whiles > 0 {
            expect_semicolon(
                t,
                i + 1,
                s,
                "%jmp :endloop"@ + decimal(s.whiles) + "\n"@,
                "Parser Error: Missing SemiColon"@,
            )
        } else {
            fail(i, s, "Parser Error: Break called out of while loop"@)
        },
        _ => fail(i, s, "Parser Error: invalid statement"@),
    }
}

/// Each kind of statement goes to its own parser: at `int`, an identifier,
/// `return`, `print`, `read`, `while` and `if`, a statement comes to exactly
/// what the declaration, assignment, return, print, read, loop and `if`
/// parsers give there (output, position, state and error alike).
pub proof fn lemma_statement_dispatch(t: Seq<TokenView>, i: int, s: ParseState)
    ensures
        tok(t, i) is Int ==> spec_statement(t, i, s) == spec_decl(t, i, s),
        tok(t, i) is Ident ==> spec_statement(t, i, s) == spec_assign(t, i, s),
        tok(t, i) is Return ==> spec_statement(t, i, s) == spec_return(t, i, s),
        tok(t, i) is Print ==> spec_statement(t, i, s) == spec_print(t, i, s),
        tok(t, i) is Read ==> spec_statement(t, i, s) == spec_read(t, i, s),
        tok(t, i) is While ==> spec_statement(t, i, s) == spec_while(t, i, s),
        tok(t, i) is If ==> spec_statement(t, i, s) == spec_if(t, i, s),
{
}

/// `break;` inside loops nested `n` deep jumps to the end label of the
/// innermost loop, `:endloop<n>`, and changes nothing else.
pub proof fn lemma_break_jumps_to_loop_end(t: Seq<TokenView>, i: int, s: ParseState)
    requires
        tok(t, i) is Break,
        tok(t, i + 1) is SemiColon,
        s.whiles > 0,
    ensures
        spec_statement(t, i, s) == Ok::<(int, ParseState, Seq<char>), (int, ParseState, Seq<char>)>(
            (i + 2, s, "%jmp :endloop"@ + decimal(s.whiles) + "\n"@),
        ),
{
}

/// `continue;` inside a loop emits no code and changes nothing; `break` and
/// `continue` outside any loop are errors at the keyword.
pub proof fn lemma_loop_jumps(t: Seq<TokenView>, i: int, s: ParseState)
    ensures
        tok(t, i) is Continue && tok(t, i + 1) is SemiColon && s.whiles > 0 ==> spec_statement(t, i, s)
            == Parsed::<Seq<char>>::Ok((i + 2, s, seq![])),
        tok(t, i) is Continue && s.whiles == 0 ==> spec_statement(t, i, s) == Parsed::<Seq<char>>::Err(
            (i, s, "Parser Error: Continue called out of while loop"@),
        ),
        tok(t, i) is Break && s.whiles == 0 ==> spec_statement(t, i, s) == Parsed::<Seq<char>>::Err(
            (i, s, "Parser Error: Break called out of while loop"@),
        ),
{
}

/// `return e;` compiles to the code of `e` followed by `%ret name(e)`; it
/// reads up to and including the semicolon and leaves the state that `e`
/// left.
pub proof fn lemma_return_code(t: Seq<TokenView>, i: int, s: ParseState)
    requires
        tok(t, i) is Return,
        spec_expr(t, i + 1, s) is Ok,
        tok(t, spec_expr(t, i + 1, s)->Ok_0.0) is SemiColon,
    ensures
        ({
            let (k, s1, e) = spec_expr(t, i + 1, s)->Ok_0;
            spec_return(t, i, s) == Parsed::<Seq<char>>::Ok((k + 1, s1, e.0 + "%ret "@ + e.1 + "\n"@))
        }),
{
    reveal(spec_keyword_expr);
}

/// `print e;` compiles to the code of `e` followed by `%out name(e)`.
pub proof fn lemma_print_code(t: Seq<TokenView>, i: int, s: ParseState)
    requires
        tok(t, i) is Print,
        spec_expr(t, i + 1, s) is Ok,
        tok(t, spec_expr(t, i + 1, s)->Ok_0.0) is SemiColon,
    ensures
        ({
            let (k, s1, e) = spec_expr(t, i + 1, s)->Ok_0;
            spec_print(t, i, s) == Parsed::<Seq<char>>::Ok((k + 1, s1, e.0 + "%out "@ + e.1 + "\n"@))
        }),
{
    reveal(spec_keyword_expr);
}

/// `read e;` compiles to `%input name(e)` alone: the code of `e` is not
/// emitted.
pub proof fn lemma_read_code(t: Seq<TokenView>, i: int, s: ParseState)
    requires
        tok(t, i) is Read,
        spec_expr(t, i + 1, s) is Ok,
        tok(t, spec_expr(t, i + 1, s)->Ok_0.0) is SemiColon,
    ensures
        ({
            let (k, s1, e) = spec_expr(t, i + 1, s)->Ok_0;
            spec_read(t, i, s) == Parsed::<Seq<char>>::Ok((k + 1, s1, "%input "@ + e.1 + "\n"@))
        }),
{
    reveal(spec_keyword_expr);
}

/// `return e;`, `print e;` and `read e;` fail as `e` fails when the
/// expression after the keyword does not parse.
pub proof fn lemma_keyword_statement_errors(t: Seq<TokenView>, i: int, s: ParseState)
    requires
        spec_expr(t, i + 1, s) is Err,
    ensures
        tok(t, i) is Return ==> spec_return(t, i, s) == Parsed::<Seq<char>>::Err(spec_expr(t, i + 1, s)->Err_0),
        tok(t, i) is Print ==> spec_print(t, i, s) == Parsed::<Seq<char>>::Err(spec_expr(t, i + 1, s)->Err_0),
        tok(t, i) is Read ==> spec_read(t, i, s) == Parsed::<Seq<char>>::Err(spec_expr(t, i + 1, s)->Err_0),
{
    reveal(spec_keyword_expr);
}

/// A scalar assignment `x = e;` to a declared `int` (or a function name)
/// compiles to the code of `e` followed by `%mov x, name(e)`.
pub proof fn lemma_scalar_assignment_code(t: Seq<TokenView>, i: int, s: ParseState)
    requires
        tok(t, i) is Ident,
        tok(t, i + 1) is Assign,
        has_symbol(s.syms, tok(t, i)->Ident_0, "int"@) || has_func(s.funcs, tok(t, i)->Ident_0),
        spec_expr(t, i + 2, s) is Ok,
        tok(t, spec_expr(t, i + 2, s)->Ok_0.0) is SemiColon,
    ensures
        ({
            let x = tok(t, i)->Ident_0;
            let (k, s1, e) = spec_expr(t, i + 2, s)->Ok_0;
            spec_assign(t, i, s) == Parsed::<Seq<char>>::Ok((k + 1, s1, e.0 + "%mov "@ + x + ", "@ + e.1 + "\n"@))
        }),
{
    reveal(spec_assign);
}

/// An element assignment `a[e1] = e2;` to a declared array (or a function
/// name) compiles to the code of the offset `e1`, then the code of the value
/// `e2`, then `%mov [a + name(e1)], name(e2)`.
pub proof fn lemma_element_assignment_code(t: Seq<TokenView>, i: int, s: ParseState)
    requires
        tok(t, i) is Ident,
        tok(t, i + 1) is LeftBracket,
        spec_expr(t, i + 2, s) is Ok,
        tok(t, spec_expr(t, i + 2, s)->Ok_0.0) is RightBracket,
        tok(t, spec_expr(t, i + 2, s)->Ok_0.0 + 1) is Assign,
        has_symbol(spec_expr(t, i + 2, s)->Ok_0.1.syms, tok(t, i)->Ident_0, "array"@)
            || has_func(spec_expr(t, i + 2, s)->Ok_0.1.funcs, tok(t, i)->Ident_0),
        spec_expr(t, spec_expr(t, i + 2, s)->Ok_0.0 + 2, spec_expr(t, i + 2, s)->Ok_0.1) is Ok,
        tok(t, spec_expr(t, spec_expr(t, i + 2, s)->Ok_0.0 + 2, spec_expr(t, i + 2, s)->Ok_0.1)->Ok_0.0) is SemiColon,
    ensures
        ({
            let a = tok(t, i)->Ident_0;
            let (k, s1, ei) = spec_expr(t, i + 2, s)->Ok_0;
            let (m, s2, e) = spec_expr(t, k + 2, s1)->Ok_0;
            spec_assign(t, i, s) == Parsed::<Seq<char>>::Ok(
                (m + 1, s2, ei.0 + e.0 + "%mov ["@ + a + " + "@ + ei.1 + "], "@ + e.1 + "\n"@),
            )
        }),
{
    reveal(spec_assign);
    reveal(spec_store);
}

/// The code of a block begins with the code it was started with.
pub proof fn lemma_block_keeps_code(t: Seq<TokenView>, i: int, s: ParseState, code: Seq<char>)
    requires
        spec_block(t, i, s, code) is Ok,
    ensures
        starts_with(spec_block(t, i, s, code)->Ok_0.2, code),
    decreases t.len() - i,
{
    assert(code.subrange(0, code.len() as int) =~= code);
    if !(tok(t, i) is RightCurly) {
        if let Ok((j, s1, c)) = spec_statement(t, i, s) {
            lemma_block_keeps_code(t, j, s1, code + c);
            lemma_starts_with_append(code, code, c);
            lemma_starts_with_trans(spec_block(t, i, s, code)->Ok_0.2, code + c, code);
        }
    }
}

/// In a block, each statement's code follows the code of the statements
/// before it: the block's code begins with `code ++ code(first statement)`.
pub proof fn lemma_block_statement_code(t: Seq<TokenView>, i: int, s: ParseState, code: Seq<char>)
    requires
        !(tok(t, i) is RightCurly),
        spec_statement(t, i, s) is Ok,
        spec_block(t, i, s, code) is Ok,
    ensures
        starts_with(spec_block(t, i, s, code)->Ok_0.2, code + spec_statement(t, i, s)->Ok_0.2),
{
    let (j, s1, c) = spec_statement(t, i, s)->Ok_0;
    lemma_block_keeps_code(t, j, s1, code + c);
}

/// The code of the statements of an `if` branch begins with the code it was
/// started with.
pub proof fn lemma_if_block_keeps_code(t: Seq<TokenView>, i: int, s: ParseState, code: Seq<char>)
    requires
        spec_if_block(t, i, s, code) is Ok,
    ensures
        starts_with(spec_if_block(t, i, s, code)->Ok_0.2, code),
    decreases t.len() - i,
{
    assert(code.subrange(0, code.len() as int) =~= code);
    if !(tok(t, i) is RightCurly) {
        if let Ok((j, s1, c)) = spec_statement(t, i, s) {
            let next = code + c + "%jmp :endif"@ + decimal(s1.ifs) + "\n"@;
            lemma_if_block_keeps_code(t, j, s1, next);
            assert(next.subrange(0, code.len() as int) =~= code);
            lemma_starts_with_trans(spec_if_block(t, i, s, code)->Ok_0.2, next, code);
        }
    }
}

/// In an `if` branch, each statement's code is followed by the jump to the
/// end label of the latest `if`, after the code of the statements before it.
pub proof fn lemma_if_block_statement_code(t: Seq<TokenView>, i: int, s: ParseState, code: Seq<char>)
    requires
        !(tok(t, i) is RightCurly),
        spec_statement(t, i, s) is Ok,
        spec_if_block(t, i, s, code) is Ok,
    ensures
        ({
            let (j, s1, c) = spec_statement(t, i, s)->Ok_0;
            starts_with(spec_if_block(t, i, s, code)->Ok_0.2, code + c + "%jmp :endif"@ + decimal(s1.ifs) + "\n"@)
        }),
{
    let (j, s1, c) = spec_statement(t, i, s)->Ok_0;
    lemma_if_block_keeps_code(t, j, s1, code + c + "%jmp :endif"@ + decimal(s1.ifs) + "\n"@);
}

/// A `while` loop's code begins with its start label, the code of the
/// condition and the branch out of the loop when the condition fails, and
/// the body comes after them.
pub proof fn lemma_while_code(t: Seq<TokenView>, i: int, s: ParseState)
    requires
        spec_while(t, i, s) is Ok,
    ensures
        ({
            let s1 = ParseState { whiles: s.whiles + 1, ..s };
            let (j, s2, b) = spec_bool(t, i + 1, s1)->Ok_0;
            &&& spec_bool(t, i + 1, s1) is Ok
            &&& starts_with(
                spec_while(t, i, s)->Ok_0.2,
                loop_begin(s.whiles + 1) + b.0 + "\n"@ + "%branch_ifn "@ + b.1 + ", :endloop"@ + decimal(s2.whiles)
                    + "\n"@,
            )
        }),
{
    let s1 = ParseState { whiles: s.whiles + 1, ..s };
    let (j, s2, b) = spec_bool(t, i + 1, s1)->Ok_0;
    let code = ":loopbegin"@ + decimal(s1.whiles) + "\n"@ + b.0 + "\n"@ + "%branch_ifn "@ + b.1 + ", :endloop"@
        + decimal(s2.whiles) + "\n"@;
    lemma_block_keeps_code(t, j + 1, s2, code);
    let (k, s3, body) = spec_block(t, j + 1, s2, code)->Ok_0;
    let w = s3.whiles;
    lemma_starts_with_append(body, code, "%jmp :loopbegin"@ + decimal(w) + "\n:endloop"@ + decimal(w) + "\n"@);
    assert(body + ("%jmp :loopbegin"@ + decimal(w) + "\n:endloop"@ + decimal(w) + "\n"@) =~= body + "%jmp :loopbegin"@
        + decimal(w) + "\n:endloop"@ + decimal(w) + "\n"@);
    assert(code =~= loop_begin(s.whiles + 1) + b.0 + "\n"@ + "%branch_ifn "@ + b.1 + ", :endloop"@ + decimal(s2.whiles)
        + "\n"@);
}

/// An `if` statement's code begins with the code of the condition, the
/// branch to the true label when it holds, the jump to the `else` label
/// otherwise, and the true label; the first branch comes after them.
pub proof fn lemma_if_code(t: Seq<TokenView>, i: int, s: ParseState)
    requires
        spec_if(t, i, s) is Ok,
    ensures
        ({
            let s1 = ParseState { ifs: s.ifs + 1, ..s };
            let (j, s2, b) = spec_bool(t, i + 1, s1)->Ok_0;
            let n = decimal(s2.ifs);
            &&& spec_bool(t, i + 1, s1) is Ok
            &&& starts_with(
                spec_if(t, i, s)->Ok_0.2,
                b.0 + "\n"@ + "%branch_if "@ + b.1 + ", :iftrue"@ + n + "\n%jmp :else"@ + n + "\n"@ + ":iftrue"@ + n
                    + "\n"@,
            )
        }),
{
    let s1 = ParseState { ifs: s.ifs + 1, ..s };
    let (j, s2, b) = spec_bool(t, i + 1, s1)->Ok_0;
    let n = decimal(s2.ifs);
    let code = b.0 + "\n"@ + "%branch_if "@ + b.1 + ", :iftrue"@ + n + "\n%jmp :else"@ + n + "\n"@ + ":iftrue"@ + n
        + "\n"@;
    lemma_if_block_keeps_code(t, j + 1, s2, code);
    let (k, s3, c3) = spec_if_block(t, j + 1, s2, code)->Ok_0;
    assert(spec_if(t, i, s) == spec_else(t, k + 1, s3, c3));
    if tok(t, k + 1) is Else {
        let c = c3 + ":else"@ + decimal(s3.ifs) + "\n"@;
        lemma_block_keeps_code(t, k + 3, s3, c);
        let (m, s4, c1) = spec_block(t, k + 3, s3, c)->Ok_0;
        let end = ":endif"@ + decimal(s4.ifs) + "\n"@;
        assert(spec_else(t, k + 1, s3, c3) == Parsed::<Seq<char>>::Ok(
            (m + 1, s4, c1 + ":endif"@ + decimal(s4.ifs) + "\n"@),
        ));
        assert(c1 + end =~= c1 + ":endif"@ + decimal(s4.ifs) + "\n"@);
        lemma_starts_with_append(c3, code, ":else"@ + decimal(s3.ifs) + "\n"@);
        assert(c3 + (":else"@ + decimal(s3.ifs) + "\n"@) =~= c);
        lemma_starts_with_trans(c1, c, code);
        lemma_starts_with_append(c1, code, end);
    } else {
        let tail = ":else"@ + decimal(s3.ifs) + "\n"@ + ":endif"@ + decimal(s3.ifs) + "\n"@;
        lemma_starts_with_append(c3, code, tail);
        assert(c3 + tail =~= c3 + ":else"@ + decimal(s3.ifs) + "\n"@ + ":endif"@ + decimal(s3.ifs) + "\n"@);
    }
}

/// Statements up to the closing brace, their code appended to `code`.
pub open spec fn spec_block(t: Seq<TokenView>, i: int, s: ParseState, code: Seq<char>) -> Parsed<Seq<char>>
    decreases t.len() - i, 2int,
{
    if tok(t, i) is RightCurly {
        Ok((i, s, code))
    } else {
        match spec_statement(t, i, s) {
            Err(e) => Err(e),
            Ok((j, s1, c)) => if i < j <= t.len() {
                spec_block(t, j, s1, code + c)
            } else {
                fail(i, s, seq![])
            },
        }
    }
}

/// The statements of an `if` branch: each is followed by a jump to the end
/// label of the latest `if`.
pub open spec fn spec_if_block(t: Seq<TokenView>, i: int, s: ParseState, code: Seq<char>) -> Parsed<Seq<char>>
    decreases t.len() - i, 2int,
{
    if tok(t, i) is RightCurly {
        Ok((i, s, code))
    } else {
        match spec_statement(t, i, s) {
            Err(e) => Err(e),
            Ok((j, s1, c)) => if i < j <= t.len() {
                spec_if_block(t, j, s1, code + c + "%jmp :endif"@ + decimal(s1.ifs) + "\n"@)
            } else {
                fail(i, s, seq![])
            },
        }
    }
}

/// The label line that opens the loop of depth `n`.
pub open spec fn loop_begin(n: nat) -> Seq<char> {
    ":loopbegin"@ + decimal(n) + "\n"@
}

/// The end label of the loop of depth `n`, on a line of its own.
pub open spec fn loop_end(n: nat) -> Seq<char> {
    "\n:endloop"@ + decimal(n) + "\n"@
}

/// `while cond { ... }`
pub open spec fn spec_while(t: Seq<TokenView>, i: int, s: ParseState) -> Parsed<Seq<char>>
    decreases t.len() - i, 0int,
{
    if !(tok(t, i) is While) {
        fail(i, s, "Parser Error: missing 'while'"@)
    } else {
        let s1 = ParseState { whiles: s.whiles + 1, ..s };
        let head = ":loopbegin"@ + decimal(s1.whiles) + "\n"@;
        match spec_bool(t, i + 1, s1) {
            Err(e) => Err(e),
            Ok((j, s2, b)) => {
                let code = head + b.0 + "\n"@ + "%branch_ifn "@ + b.1 + ", :endloop"@ + decimal(s2.whiles) + "\n"@;
                if !(tok(t, j) is LeftCurly) {
                    fail(j, s2, "Parser Error: expected '{'"@)
                } else if !(i < j) {
                    fail(i, s, seq![])
                } else {
                    match spec_block(t, j + 1, s2, code) {
                        Err(e) => Err(e),
                        Ok((k, s3, body)) => {
                            let w = s3.whiles;
                            let depth: nat = if w >= 1 {
                                (w - 1) as nat
                            } else {
                                0
                            };
                            Ok((
                                k + 1,
                                ParseState { whiles: depth, ..s3 },
                                body + "%jmp :loopbegin"@ + decimal(w) + "\n:endloop"@ + decimal(w) + "\n"@,
                            ))
                        },
                    }
                }
            },
        }
    }
}

/// What follows the first branch of an `if` at position `k`: an optional
/// `else { ... }`, then the end label.
pub open spec fn spec_else(t: Seq<TokenView>, k: int, s: ParseState, code: Seq<char>) -> Parsed<Seq<char>>
    decreases t.len() - k, 0int,
{
    if tok(t, k) is Else {
        let c = code + ":else"@ + decimal(s.ifs) + "\n"@;
        if !(tok(t, k + 1) is LeftCurly) {
            fail(k + 1, s, "Parser Error: expected '{'"@)
        } else {
            match spec_block(t, k + 2, s, c) {
                Err(e) => Err(e),
                Ok((m, s1, c1)) => Ok((m + 1, s1, c1 + ":endif"@ + decimal(s1.ifs) + "\n"@)),
            }
        }
    } else {
        Ok((k, s, code + ":else"@ + decimal(s.ifs) + "\n"@ + ":endif"@ + decimal(s.ifs) + "\n"@))
    }
}

/// The end label of the `if` counted `n`.
pub open spec fn if_end(n: nat) -> Seq<char> {
    ":endif"@ + decimal(n) + "\n"@
}

/// `if cond { ... }`, with an optional `else { ... }`.
pub open spec fn spec_if(t: Seq<TokenView>, i: int, s: ParseState) -> Parsed<Seq<char>>
    decreases t.len() - i, 0int,
{
    if !(tok(t, i) is If) {
        fail(i, s, "Parser Error: missing 'if'"@)
    } else {
        let s1 = ParseState { ifs: s.ifs + 1, ..s };
        match spec_bool(t, i + 1, s1) {
            Err(e) => Err(e),
            Ok((j, s2, b)) => {
                let n = decimal(s2.ifs);
                let code = b.0 + "\n"@ + "%branch_if "@ + b.1 + ", :iftrue"@ + n + "\n%jmp :else"@ + n + "\n"@;
                if !(tok(t, j) is LeftCurly) {
                    fail(j, s2, "Parser Error: expected '{'"@)
                } else if !(i < j) {
                    fail(i, s, seq![])
                } else {
                    match spec_if_block(t, j + 1, s2, code + ":iftrue"@ + n + "\n"@) {
                        Err(e) => Err(e),
                        Ok((k, s3, c3)) => if !(j < k < t.len()) {
                            fail(i, s, seq![])
                        } else {
                            spec_else(t, k + 1, s3, c3)
                        },
                    }
                }
            },
        }
    }
}

/// Parses a declaration statement at `*index`.
pub fn parse_declaration_statement(
    tokens: &Vec<Token>,
    index: &mut usize,
    symbol_table: &mut Vec<(String, String)>,
    ctx: &mut CompilerState,
) -> (r: Result<String, String>)
    requires
        well_placed(tokens.deep_view(), *old(index) as int, state_of(*old(symbol_table), *old(ctx))),
    ensures
        *old(index) <= *final(index) < tokens.len(),
        outcome_matches(
            r,
            *final(index) as int,
            state_of(*final(symbol_table), *final(ctx)),
            spec_decl(tokens.deep_view(), *old(index) as int, state_of(*old(symbol_table), *old(ctx))),
        ),
        r is Ok ==> advanced(
            tokens.deep_view(),
            *old(index) as int,
            *final(index) as int,
            state_of(*final(symbol_table), *final(ctx)),
        ),
        r is Ok ==> final(ctx).while_count == old(ctx).while_count,
        r is Ok && old(symbol_table).deep_view().no_duplicates() ==> final(symbol_table).deep_view().no_duplicates(),
        final(ctx).func_table == old(ctx).func_table,
        old(ctx).if_count <= final(ctx).if_count,
{
    reveal(spec_decl);
    assert(*index < tokens.len());
    match &tokens[*index] {
        Token::Int => {
            *index += 1;
        },
        _ => {
            return Err(String::from_str("Parser Error: Declaration statements must being with 'int' keyword"));
        },
    }
    let mut code = String::from_str("%int");
    match &tokens[*index] {
        Token::LeftBracket => {
            *index += 1;
            code.append("[");
            let size = match &tokens[*index] {
                Token::Num(val) => {
                    let val = *val;
                    *index += 1;
                    if val <= 0 {
                        return Err(String::from_str("Semantic Error: can't have an array of size 0 or lower"));
                    }
                    val
                },
                _ => {
                    return Err(String::from_str("Parser Error: Declaration statements for array number missing"));
                },
            };
            match &tokens[*index] {
                Token::RightBracket => {
                    *index += 1;
                    code.append("] ");
                },
                _ => {
                    return Err(String::from_str("Parser Error: Declaration statements for array rightBracket missing"));
                },
            }
            match &tokens[*index] {
                Token::Ident(ident) => {
                    *index += 1;
                    code.append(ident.as_str());
                    code.append(", ");
                    let digits = i32_to_decimal(size);
                    code.append(digits.as_str());
                    code.append("\n");
                    if find_symbol(symbol_table, ident, "array") {
                        return Err(String::from_str("Semantic Error: found duplicate variable {ident}"));
                    }
                    proof {
                        if symbol_table.deep_view().no_duplicates() {
                            lemma_push_fresh(symbol_table.deep_view(), (ident@, "array"@));
                        }
                    }
                    add_symbol(symbol_table, ident.clone(), "array");
                },
                _ => {
                    return Err(String::from_str("Parser Error: Declaration statements for array identifier missing"));
                },
            }
        },
        Token::Ident(ident) => {
            *index += 1;
            code.append(" ");
            code.append(ident.as_str());
            code.append("\n");
            if find_symbol(symbol_table, ident, "int") {
                return Err(String::from_str("Semantic Error: found duplicate variable {ident}"));
            }
            proof {
                if symbol_table.deep_view().no_duplicates() {
                    lemma_push_fresh(symbol_table.deep_view(), (ident@, "int"@));
                }
            }
            add_symbol(symbol_table, ident.clone(), "int");
        },
        _ => {
            return Err(String::from_str("Parser Error: Declarations must have an identifier or array size declaration"));
        },
    }
    match &tokens[*index] {
        Token::SemiColon => {
            *index += 1;
        },
        _ => {
            return Err(String::from_str("Parser Error: Statements must end with a semicolon"));
        },
    }
    Ok(code)
}

/// `x = e;` at `*index`.
fn parse_scalar_assignment(
    tokens: &Vec<Token>,
    index: &mut usize,
    symbol_table: &mut Vec<(String, String)>,
    ctx: &mut CompilerState,
    ident: &String,
) -> (r: Result<String, String>)
    requires
        well_placed(tokens.deep_view(), *old(index) as int, state_of(*old(symbol_table), *old(ctx))),
        tok(tokens.deep_view(), *old(index) as int) == TokenView::Ident(ident@),
        tok(tokens.deep_view(), *old(index) + 1) is Assign,
    ensures
        *old(index) <= *final(index) < tokens.len(),
        outcome_matches(
            r,
            *final(index) as int,
            state_of(*final(symbol_table), *final(ctx)),
            spec_assign(tokens.deep_view(), *old(index) as int, state_of(*old(symbol_table), *old(ctx))),
        ),
        r is Ok ==> advanced(
            tokens.deep_view(),
            *old(index) as int,
            *final(index) as int,
            state_of(*final(symbol_table), *final(ctx)),
        ),
        r is Ok ==> final(ctx).while_count == old(ctx).while_count,
        r is Ok && old(symbol_table).deep_view().no_duplicates() ==> final(symbol_table).deep_view().no_duplicates(),
        final(ctx).func_table == old(ctx).func_table,
        old(ctx).if_count <= final(ctx).if_count,
{
    reveal(spec_assign);
    assert(*index < tokens.len());
    *index += 2;
    if !find_symbol(symbol_table, ident, "int") && !find_func(&ctx.func_table, ident) {
        return Err(
            String::from_str("Semantic Error: {ident} doesn't exist / undeclared / mismatched types (not int)"),
        );
    }
    let expr = match parse_expression(tokens, index, symbol_table, ctx) {
        Ok(e) => e,
        Err(e) => return Err(e),
    };
    let mut code = expr.code;
    code.append("%mov ");
    code.append(ident.as_str());
    code.append(", ");
    code.append(expr.name.as_str());
    code.append("\n");
    match &tokens[*index] {
        Token::SemiColon => {
            *index += 1;
            Ok(code)
        },
        _ => Err(String::from_str("Parser Error: Missing SemiColon")),
    }
}

fn element_store(
    index_code: String,
    value_code: &String,
    array: &String,
    offset: &String,
    value: &String,
) -> (s: String)
    ensures
        s@ == index_code@ + value_code@ + "%mov ["@ + array@ + " + "@ + offset@ + "], "@ + value@ + "\n"@,
{
    let mut code = index_code;
    code.append(value_code.as_str());
    code.append("%mov [");
    code.append(array.as_str());
    code.append(" + ");
    code.append(offset.as_str());
    code.append("], ");
    code.append(value.as_str());
    code.append("\n");
    code
}

/// The rest of `a[e1] = e2;` from the closing bracket at `*index`.
#[verifier::rlimit(50)]
fn parse_store(
    tokens: &Vec<Token>,
    index: &mut usize,
    symbol_table: &mut Vec<(String, String)>,
    ctx: &mut CompilerState,
    ident: &String,
    expr_index: Expression,
) -> (r: Result<String, String>)
    requires
        well_placed(tokens.deep_view(), *old(index) as int, state_of(*old(symbol_table), *old(ctx))),
    ensures
        *old(index) <= *final(index) < tokens.len(),
        outcome_matches(
            r,
            *final(index) as int,
            state_of(*final(symbol_table), *final(ctx)),
            spec_store(
                tokens.deep_view(),
                *old(index) as int,
                state_of(*old(symbol_table), *old(ctx)),
                ident@,
                expr_index@,
            ),
        ),
        r is Ok ==> advanced(
            tokens.deep_view(),
            *old(index) as int,
            *final(index) as int,
            state_of(*final(symbol_table), *final(ctx)),
        ),
        r is Ok ==> final(ctx).while_count == old(ctx).while_count,
        *final(symbol_table) == *old(symbol_table),
        final(ctx).func_table == old(ctx).func_table,
        old(ctx).if_count <= final(ctx).if_count,
{
    reveal(spec_store);
    assert(*index < tokens.len());
    match &tokens[*index] {
        Token::RightBracket => {
            *index += 1;
        },
        _ => {
            return Err(String::from_str("Parser Error: missing right bracket ']'"));
        },
    }
    match &tokens[*index] {
        Token::Assign => {
            *index += 1;
        },
        _ => {
            return Err(String::from_str("Parser Error: missing '='"));
        },
    }
    if !find_symbol(symbol_table, ident, "array") && !find_func(&ctx.func_table, ident) {
        return Err(
            String::from_str("Semantic Error: {ident} doesn't exist / undeclared / mismatched type (not array)"),
        );
    }
    let expr = match parse_expression(tokens, index, symbol_table, ctx) {
        Ok(e) => e,
        Err(e) => return Err(e),
    };
    let code = element_store(expr_index.code, &expr.code, ident, &expr_index.name, &expr.name);
    match &tokens[*index] {
        Token::SemiColon => {
            *index += 1;
            Ok(code)
        },
        _ => Err(String::from_str("Parser Error: Missing SemiColon")),
    }
}

/// `a[e1] = e2;` at `*index`.
fn parse_element_assignment(
    tokens: &Vec<Token>,
    index: &mut usize,
    symbol_table: &mut Vec<(String, String)>,
    ctx: &mut CompilerState,
    ident: &String,
) -> (r: Result<String, String>)
    requires
        well_placed(tokens.deep_view(), *old(index) as int, state_of(*old(symbol_table), *old(ctx))),
        tok(tokens.deep_view(), *old(index) as int) == TokenView::Ident(ident@),
        tok(tokens.deep_view(), *old(index) + 1) is LeftBracket,
    ensures
        *old(index) <= *final(index) < tokens.len(),
        outcome_matches(
            r,
            *final(index) as int,
            state_of(*final(symbol_table), *final(ctx)),
            spec_assign(tokens.deep_view(), *old(index) as int, state_of(*old(symbol_table), *old(ctx))),
        ),
        r is Ok ==> advanced(
            tokens.deep_view(),
            *old(index) as int,
            *final(index) as int,
            state_of(*final(symbol_table), *final(ctx)),
        ),
        r is Ok ==> final(ctx).while_count == old(ctx).while_count,
        r is Ok && old(symbol_table).deep_view().no_duplicates() ==> final(symbol_table).deep_view().no_duplicates(),
        final(ctx).func_table == old(ctx).func_table,
        old(ctx).if_count <= final(ctx).if_count,
{
    reveal(spec_assign);
    assert(*index < tokens.len());
    *index += 2;
    let expr_index = match parse_expression(tokens, index, symbol_table, ctx) {
        Ok(e) => e,
        Err(e) => return Err(e),
    };
    parse_store(tokens, index, symbol_table, ctx, ident, expr_index)
}

/// Parses an assignment statement at `*index`.
pub fn parse_assignment_statement(
    tokens: &Vec<Token>,
    index: &mut usize,
    symbol_table: &mut Vec<(String, String)>,
    ctx: &mut CompilerState,
) -> (r: Result<String, String>)
    requires
        well_placed(tokens.deep_view(), *old(index) as int, state_of(*old(symbol_table), *old(ctx))),
    ensures
        *old(index) <= *final(index) < tokens.len(),
        outcome_matches(
            r,
            *final(index) as int,
            state_of(*final(symbol_table), *final(ctx)),
            spec_assign(tokens.deep_view(), *old(index) as int, state_of(*old(symbol_table), *old(ctx))),
        ),
        r is Ok ==> advanced(
            tokens.deep_view(),
            *old(index) as int,
            *final(index) as int,
            state_of(*final(symbol_table), *final(ctx)),
        ),
        r is Ok ==> final(ctx).while_count == old(ctx).while_count,
        r is Ok && old(symbol_table).deep_view().no_duplicates() ==> final(symbol_table).deep_view().no_duplicates(),
        final(ctx).func_table == old(ctx).func_table,
        old(ctx).if_count <= final(ctx).if_count,
{
    reveal(spec_assign);
    assert(*index < tokens.len());
    let ident = match &tokens[*index] {
        Token::Ident(dest) => dest,
        _ => {
            return Err(String::from_str("Parser Error: Assignment statements must being with an identifier"));
        },
    };
    match &tokens[*index + 1] {
        Token::Assign => parse_scalar_assignment(tokens, index, symbol_table, ctx, ident),
        Token::LeftBracket => parse_element_assignment(tokens, index, symbol_table, ctx, ident),
        _ => {
            *index += 1;
            Err(String::from_str("Parser Error: missing '='"))
        },
    }
}

/// Parses a return statement at `*index`.
pub fn parse_return_statement(
    tokens: &Vec<Token>,
    index: &mut usize,
    symbol_table: &mut Vec<(String, String)>,
    ctx: &mut CompilerState,
) -> (r: Result<String, String>)
    requires
        well_placed(tokens.deep_view(), *old(index) as int, state_of(*old(symbol_table), *old(ctx))),
    ensures
        *old(index) <= *final(index) < tokens.len(),
        outcome_matches(
            r,
            *final(index) as int,
            state_of(*final(symbol_table), *final(ctx)),
            spec_return(tokens.deep_view(), *old(index) as int, state_of(*old(symbol_table), *old(ctx))),
        ),
        r is Ok ==> advanced(
            tokens.deep_view(),
            *old(index) as int,
            *final(index) as int,
            state_of(*final(symbol_table), *final(ctx)),
        ),
        r is Ok ==> final(ctx).while_count == old(ctx).while_count,
        r is Ok && old(symbol_table).deep_view().no_duplicates() ==> final(symbol_table).deep_view().no_duplicates(),
        final(ctx).func_table == old(ctx).func_table,
        old(ctx).if_count <= final(ctx).if_count,
{
    reveal(spec_keyword_expr);
    assert(*index < tokens.len());
    match &tokens[*index] {
        Token::Return => {
            *index += 1;
        },
        _ => {
            return Err(String::from_str("Parser Error: Return statements must being with a return keyword"));
        },
    }
    let express = match parse_expression(tokens, index, symbol_table, ctx) {
        Ok(e) => e,
        Err(e) => return Err(e),
    };
    let mut code = express.code;
    code.append("%ret ");
    code.append(express.name.as_str());
    code.append("\n");
    match &tokens[*index] {
        Token::SemiColon => {
            *index += 1;
        },
        _ => {
            return Err(String::from_str("Parser Error: Statement is missing the '=' operator"));
        },
    }
    Ok(code)
}

/// Parses a print statement at `*index`.
pub fn parse_print_statement(
    tokens: &Vec<Token>,
    index: &mut usize,
    symbol_table: &mut Vec<(String, String)>,
    ctx: &mut CompilerState,
) -> (r: Result<String, String>)
    requires
        well_placed(tokens.deep_view(), *old(index) as int, state_of(*old(symbol_table), *old(ctx))),
    ensures
        *old(index) <= *final(index) < tokens.len(),
        outcome_matches(
            r,
            *final(index) as int,
            state_of(*final(symbol_table), *final(ctx)),
            spec_print(tokens.deep_view(), *old(index) as int, state_of(*old(symbol_table), *old(ctx))),
        ),
        r is Ok ==> advanced(
            tokens.deep_view(),
            *old(index) as int,
            *final(index) as int,
            state_of(*final(symbol_table), *final(ctx)),
        ),
        r is Ok ==> final(ctx).while_count == old(ctx).while_count,
        r is Ok && old(symbol_table).deep_view().no_duplicates() ==> final(symbol_table).deep_view().no_duplicates(),
        final(ctx).func_table == old(ctx).func_table,
        old(ctx).if_count <= final(ctx).if_count,
{
    reveal(spec_keyword_expr);
    assert(*index < tokens.len());
    match &tokens[*index] {
        Token::Print => {
            *index += 1;
        },
        _ => {
            return Err(String::from_str("Parser Error: Return statements must being with a return keyword"));
        },
    }
    let express = match parse_expression(tokens, index, symbol_table, ctx) {
        Ok(e) => e,
        Err(e) => return Err(e),
    };
    let mut code = express.code;
    code.append("%out ");
    code.append(express.name.as_str());
    code.append("\n");
    match &tokens[*index] {
        Token::SemiColon => {
            *index += 1;
        },
        _ => {
            return Err(String::from_str("Parser Error: Statement is missing the '=' operator"));
        },
    }
    Ok(code)
}

/// Parses a read statement at `*index`.
pub fn parse_read_statement(
    tokens: &Vec<Token>,
    index: &mut usize,
    symbol_table: &mut Vec<(String, String)>,
    ctx: &mut CompilerState,
) -> (r: Result<String, String>)
    requires
        well_placed(tokens.deep_view(), *old(index) as int, state_of(*old(symbol_table), *old(ctx))),
    ensures
        *old(index) <= *final(index) < tokens.len(),
        outcome_matches(
            r,
            *final(index) as int,
            state_of(*final(symbol_table), *final(ctx)),
            spec_read(tokens.deep_view(), *old(index) as int, state_of(*old(symbol_table), *old(ctx))),
        ),
        r is Ok ==> advanced(
            tokens.deep_view(),
            *old(index) as int,
            *final(index) as int,
            state_of(*final(symbol_table), *final(ctx)),
        ),
        r is Ok ==> final(ctx).while_count == old(ctx).while_count,
        r is Ok && old(symbol_table).deep_view().no_duplicates() ==> final(symbol_table).deep_view().no_duplicates(),
        final(ctx).func_table == old(ctx).func_table,
        old(ctx).if_count <= final(ctx).if_count,
{
    reveal(spec_keyword_expr);
    assert(*index < tokens.len());
    match &tokens[*index] {
        Token::Read => {
            *index += 1;
        },
        _ => {
            return Err(String::from_str("Parser Error: Return statements must being with a return keyword"));
        },
    }
    let express = match parse_expression(tokens, index, symbol_table, ctx) {
        Ok(e) => e,
        Err(e) => return Err(e),
    };
    let mut code = String::from_str("%input ");
    code.append(express.name.as_str());
    code.append("\n");
    match &tokens[*index] {
        Token::SemiColon => {
            *index += 1;
        },
        _ => {
            return Err(String::from_str("Parser Error: Statement is missing the '=' operator"));
        },
    }
    Ok(code)
}


/// Parses one statement at `*index`.
pub fn parse_statement(
    tokens: &Vec<Token>,
    index: &mut usize,
    symbol_table: &mut Vec<(String, String)>,
    ctx: &mut CompilerState,
) -> (r: Result<String, String>)
    requires
        well_placed(tokens.deep_view(), *old(index) as int, state_of(*old(symbol_table), *old(ctx))),
    ensures
        *old(index) <= *final(index) < tokens.len(),
        outcome_matches(
            r,
            *final(index) as int,
            state_of(*final(symbol_table), *final(ctx)),
            spec_statement(tokens.deep_view(), *old(index) as int, state_of(*old(symbol_table), *old(ctx))),
        ),
        r is Ok ==> well_placed(tokens.deep_view(), *final(index) as int, state_of(*final(symbol_table), *final(ctx))),
        r is Ok && !(tok(tokens.deep_view(), *old(index) as int) is RightCurly) ==> *old(index) < *final(index),
        r is Ok ==> final(ctx).while_count == old(ctx).while_count,
        r is Ok && old(symbol_table).deep_view().no_duplicates() ==> final(symbol_table).deep_view().no_duplicates(),
        final(ctx).func_table == old(ctx).func_table,
        old(ctx).if_count <= final(ctx).if_count,
    decreases tokens.len() - *old(index), 1int,
{
    match &tokens[*index] {
        Token::Int => parse_declaration_statement(tokens, index, symbol_table, ctx),
        Token::Ident(_) => parse_assignment_statement(tokens, index, symbol_table, ctx),
        Token::Return => parse_return_statement(tokens, index, symbol_table, ctx),
        Token::Print => parse_print_statement(tokens, index, symbol_table, ctx),
        Token::Read => parse_read_statement(tokens, index, symbol_table, ctx),
        Token::While => parse_While_loop(tokens, index, symbol_table, ctx),
        Token::If => parse_if_else_statement(tokens, index, symbol_table, ctx),
        Token::RightCurly => Ok(String::new()),
        Token::Continue => {
            if ctx.while_count > 0 {
                *index += 1;
                match &tokens[*index] {
                    Token::SemiColon => {
                        *index += 1;
                    },
                    _ => {
                        return Err(String::from_str("Parser Error: Missing SemiColon"));
                    },
                }
                Ok(String::new())
            } else {
                Err(String::from_str("Parser Error: Continue called out of while loop"))
            }
        },
        Token::Break => {
            if ctx.while_count > 0 {
                *index += 1;
                match &tokens[*index] {
                    Token::SemiColon => {
                        *index += 1;
                    },
                    _ => {
                        return Err(String::from_str("Parser Error: Missing SemiColon"));
                    },
                }
                let mut code = String::from_str("%jmp :endloop");
                let depth = usize_to_decimal(ctx.while_count);
                code.append(depth.as_str());
                code.append("\n");
                Ok(code)
            } else {
                Err(String::from_str("Parser Error: Break called out of while loop"))
            }
        },
        _ => Err(String::from_str("Parser Error: invalid statement")),
    }
}

/// Statements up to the closing brace, appended to `code0`.
pub(crate) fn parse_block(
    tokens: &Vec<Token>,
    index: &mut usize,
    symbol_table: &mut Vec<(String, String)>,
    ctx: &mut CompilerState,
    code0: String,
) -> (r: Result<String, String>)
    requires
        well_placed(tokens.deep_view(), *old(index) as int, state_of(*old(symbol_table), *old(ctx))),
    ensures
        *old(index) <= *final(index) < tokens.len(),
        outcome_matches(
            r,
            *final(index) as int,
            state_of(*final(symbol_table), *final(ctx)),
            spec_block(tokens.deep_view(), *old(index) as int, state_of(*old(symbol_table), *old(ctx)), code0@),
        ),
        r is Ok ==> *old(index) <= *final(index) && tok(tokens.deep_view(), *final(index) as int) is RightCurly
            && well_placed(tokens.deep_view(), *final(index) as int, state_of(*final(symbol_table), *final(ctx))),
        r is Ok ==> final(ctx).while_count == old(ctx).while_count,
        r is Ok && old(symbol_table).deep_view().no_duplicates() ==> final(symbol_table).deep_view().no_duplicates(),
        final(ctx).func_table == old(ctx).func_table,
        old(ctx).if_count <= final(ctx).if_count,
        r matches Ok(c) ==> starts_with(c@, code0@),
    decreases tokens.len() - *old(index), 2int,
{
    let ghost t = tokens.deep_view();
    let ghost i0 = *index as int;
    let ghost s0 = state_of(*symbol_table, *ctx);
    let ghost c0 = code0@;
    let mut code = code0;
    assert(code@.subrange(0, c0.len() as int) =~= c0);
    loop
        invariant
            t == tokens.deep_view(),
            i0 == *old(index) as int,
            s0 == state_of(*old(symbol_table), *old(ctx)),
            c0 == code0@,
            well_placed(t, *index as int, state_of(*symbol_table, *ctx)),
            i0 <= *index,
            spec_block(t, *index as int, state_of(*symbol_table, *ctx), code@) == spec_block(t, i0, s0, c0),
            ctx.while_count == old(ctx).while_count,
            ctx.func_table == old(ctx).func_table,
            starts_with(code@, c0),
            old(ctx).if_count <= ctx.if_count,
            old(symbol_table).deep_view().no_duplicates() ==> symbol_table.deep_view().no_duplicates(),
        ensures
            tok(t, *index as int) is RightCurly,
            well_placed(t, *index as int, state_of(*symbol_table, *ctx)),
            i0 <= *index,
            spec_block(t, *index as int, state_of(*symbol_table, *ctx), code@) == spec_block(t, i0, s0, c0),
            ctx.while_count == old(ctx).while_count,
            ctx.func_table == old(ctx).func_table,
            starts_with(code@, c0),
            old(ctx).if_count <= ctx.if_count,
            old(symbol_table).deep_view().no_duplicates() ==> symbol_table.deep_view().no_duplicates(),
        decreases tokens.len() - *index,
    {
        if matches!(tokens[*index], Token::RightCurly) {
            break;
        }
        let statement = match parse_statement(tokens, index, symbol_table, ctx) {
            Ok(c) => c,
            Err(e) => return Err(e),
        };
        let ghost before = code@;
        code.append(statement.as_str());
        proof {
            lemma_starts_with_append(before, c0, statement@);
        }
    }
    Ok(code)
}

/// The statements of an `if` branch, appended to `code0`.
fn parse_if_block(
    tokens: &Vec<Token>,
    index: &mut usize,
    symbol_table: &mut Vec<(String, String)>,
    ctx: &mut CompilerState,
    code0: String,
) -> (r: Result<String, String>)
    requires
        well_placed(tokens.deep_view(), *old(index) as int, state_of(*old(symbol_table), *old(ctx))),
    ensures
        *old(index) <= *final(index) < tokens.len(),
        outcome_matches(
            r,
            *final(index) as int,
            state_of(*final(symbol_table), *final(ctx)),
            spec_if_block(tokens.deep_view(), *old(index) as int, state_of(*old(symbol_table), *old(ctx)), code0@),
        ),
        r is Ok ==> *old(index) <= *final(index) && tok(tokens.deep_view(), *final(index) as int) is RightCurly
            && well_placed(tokens.deep_view(), *final(index) as int, state_of(*final(symbol_table), *final(ctx))),
        r is Ok ==> final(ctx).while_count == old(ctx).while_count,
        r is Ok && old(symbol_table).deep_view().no_duplicates() ==> final(symbol_table).deep_view().no_duplicates(),
        final(ctx).func_table == old(ctx).func_table,
        old(ctx).if_count <= final(ctx).if_count,
    decreases tokens.len() - *old(index), 2int,
{
    let ghost t = tokens.deep_view();
    let ghost i0 = *index as int;
    let ghost s0 = state_of(*symbol_table, *ctx);
    let ghost c0 = code0@;
    let mut code = code0;
    loop
        invariant
            t == tokens.deep_view(),
            i0 == *old(index) as int,
            s0 == state_of(*old(symbol_table), *old(ctx)),
            c0 == code0@,
            well_placed(t, *index as int, state_of(*symbol_table, *ctx)),
            i0 <= *index,
            spec_if_block(t, *index as int, state_of(*symbol_table, *ctx), code@) == spec_if_block(t, i0, s0, c0),
            ctx.while_count == old(ctx).while_count,
            ctx.func_table == old(ctx).func_table,
            old(ctx).if_count <= ctx.if_count,
            old(symbol_table).deep_view().no_duplicates() ==> symbol_table.deep_view().no_duplicates(),
        ensures
            tok(t, *index as int) is RightCurly,
            well_placed(t, *index as int, state_of(*symbol_table, *ctx)),
            i0 <= *index,
            spec_if_block(t, *index as int, state_of(*symbol_table, *ctx), code@) == spec_if_block(t, i0, s0, c0),
            ctx.while_count == old(ctx).while_count,
            ctx.func_table == old(ctx).func_table,
            old(ctx).if_count <= ctx.if_count,
            old(symbol_table).deep_view().no_duplicates() ==> symbol_table.deep_view().no_duplicates(),
        decreases tokens.len() - *index,
    {
        if matches!(tokens[*index], Token::RightCurly) {
            break;
        }
        let statement = match parse_statement(tokens, index, symbol_table, ctx) {
            Ok(c) => c,
            Err(e) => return Err(e),
        };
        code.append(statement.as_str());
        code.append("%jmp :endif");
        let n = usize_to_decimal(ctx.if_count);
        code.append(n.as_str());
        code.append("\n");
    }
    Ok(code)
}

/// Parses a `while` loop at `*index`.
#[allow(non_snake_case)]
pub fn parse_While_loop(
    tokens: &Vec<Token>,
    index: &mut usize,
    symbol_table: &mut Vec<(String, String)>,
    ctx: &mut CompilerState,
) -> (r: Result<String, String>)
    requires
        well_placed(tokens.deep_view(), *old(index) as int, state_of(*old(symbol_table), *old(ctx))),
    ensures
        *old(index) <= *final(index) < tokens.len(),
        outcome_matches(
            r,
            *final(index) as int,
            state_of(*final(symbol_table), *final(ctx)),
            spec_while(tokens.deep_view(), *old(index) as int, state_of(*old(symbol_table), *old(ctx))),
        ),
        r is Ok ==> advanced(
            tokens.deep_view(),
            *old(index) as int,
            *final(index) as int,
            state_of(*final(symbol_table), *final(ctx)),
        ),
        r is Ok ==> final(ctx).while_count == old(ctx).while_count,
        r is Ok && old(symbol_table).deep_view().no_duplicates() ==> final(symbol_table).deep_view().no_duplicates(),
        final(ctx).func_table == old(ctx).func_table,
        old(ctx).if_count <= final(ctx).if_count,
        r matches Ok(c) ==> starts_with(c@, loop_begin(old(ctx).while_count as nat + 1)) && ends_with(
            c@,
            loop_end(old(ctx).while_count as nat + 1),
        ),
    decreases tokens.len() - *old(index), 0int,
{
    match &tokens[*index] {
        Token::While => {
            *index += 1;
        },
        _ => {
            return Err(String::from_str("Parser Error: missing 'while'"));
        },
    }
    ctx.while_count = ctx.while_count + 1;
    let mut code = String::from_str(":loopbegin");
    let depth = usize_to_decimal(ctx.while_count);
    code.append(depth.as_str());
    code.append("\n");
    let ghost head = code@;
    assert(head =~= loop_begin(ctx.while_count as nat));
    let term = match parse_bool_expression(tokens, index, symbol_table, ctx) {
        Ok(b) => b,
        Err(e) => return Err(e),
    };
    code.append(term.code.as_str());
    code.append("\n");
    code.append("%branch_ifn ");
    code.append(term.name.as_str());
    code.append(", :endloop");
    let depth = usize_to_decimal(ctx.while_count);
    code.append(depth.as_str());
    code.append("\n");
    match &tokens[*index] {
        Token::LeftCurly => {
            *index += 1;
        },
        _ => {
            return Err(String::from_str("Parser Error: expected '{'"));
        },
    }
    assert(code@.subrange(0, head.len() as int) =~= head);
    let ghost before_block = code@;
    let mut code = match parse_block(tokens, index, symbol_table, ctx, code) {
        Ok(c) => c,
        Err(e) => return Err(e),
    };
    proof {
        lemma_starts_with_trans(code@, before_block, head);
    }
    let ghost body = code@;
    *index += 1;
    let w = ctx.while_count;
    let depth = usize_to_decimal(w);
    code.append("%jmp :loopbegin");
    code.append(depth.as_str());
    code.append("\n:endloop");
    code.append(depth.as_str());
    code.append("\n");
    assert(code@.subrange(0, head.len() as int) =~= body.subrange(0, head.len() as int));
    proof {
        reveal_strlit("\n:endloop");
        reveal_strlit("\n");
    }
    assert(code@.subrange(code@.len() - loop_end(w as nat).len(), code@.len() as int) =~= loop_end(w as nat));
    ctx.while_count = if w > 0 {
        w - 1
    } else {
        0
    };
    Ok(code)
}

/// The optional `else` branch at `*index` and the end label of an `if`.
fn parse_else(
    tokens: &Vec<Token>,
    index: &mut usize,
    symbol_table: &mut Vec<(String, String)>,
    ctx: &mut CompilerState,
    code0: String,
) -> (r: Result<String, String>)
    requires
        well_placed(tokens.deep_view(), *old(index) as int, state_of(*old(symbol_table), *old(ctx))),
    ensures
        *old(index) <= *final(index) < tokens.len(),
        outcome_matches(
            r,
            *final(index) as int,
            state_of(*final(symbol_table), *final(ctx)),
            spec_else(tokens.deep_view(), *old(index) as int, state_of(*old(symbol_table), *old(ctx)), code0@),
        ),
        r is Ok ==> *old(index) <= *final(index) && well_placed(
            tokens.deep_view(),
            *final(index) as int,
            state_of(*final(symbol_table), *final(ctx)),
        ),
        r is Ok ==> final(ctx).while_count == old(ctx).while_count,
        r is Ok && old(symbol_table).deep_view().no_duplicates() ==> final(symbol_table).deep_view().no_duplicates(),
        final(ctx).func_table == old(ctx).func_table,
        old(ctx).if_count <= final(ctx).if_count,
        r matches Ok(c) ==> ends_with(c@, if_end(final(ctx).if_count as nat)),
    decreases tokens.len() - *old(index), 0int,
{
    assert(*index < tokens.len());
    let mut code = code0;
    match &tokens[*index] {
        Token::Else => {
            *index += 1;
            code.append(":else");
            let n = usize_to_decimal(ctx.if_count);
            code.append(n.as_str());
            code.append("\n");
            match &tokens[*index] {
                Token::LeftCurly => {
                    *index += 1;
                },
                _ => {
                    return Err(String::from_str("Parser Error: expected '{'"));
                },
            }
            code = match parse_block(tokens, index, symbol_table, ctx, code) {
                Ok(c) => c,
                Err(e) => return Err(e),
            };
            *index += 1;
        },
        _ => {
            code.append(":else");
            let n = usize_to_decimal(ctx.if_count);
            code.append(n.as_str());
            code.append("\n");
        },
    }
    let ghost before = code@;
    code.append(":endif");
    let n = usize_to_decimal(ctx.if_count);
    code.append(n.as_str());
    code.append("\n");
    assert(code@.subrange(code@.len() - if_end(ctx.if_count as nat).len(), code@.len() as int)
        =~= if_end(ctx.if_count as nat));
    Ok(code)
}

/// Parses an `if` statement, with its optional `else` branch, at `*index`.
pub fn parse_if_else_statement(
    tokens: &Vec<Token>,
    index: &mut usize,
    symbol_table: &mut Vec<(String, String)>,
    ctx: &mut CompilerState,
) -> (r: Result<String, String>)
    requires
        well_placed(tokens.deep_view(), *old(index) as int, state_of(*old(symbol_table), *old(ctx))),
    ensures
        *old(index) <= *final(index) < tokens.len(),
        outcome_matches(
            r,
            *final(index) as int,
            state_of(*final(symbol_table), *final(ctx)),
            spec_if(tokens.deep_view(), *old(index) as int, state_of(*old(symbol_table), *old(ctx))),
        ),
        r is Ok ==> advanced(
            tokens.deep_view(),
            *old(index) as int,
            *final(index) as int,
            state_of(*final(symbol_table), *final(ctx)),
        ),
        r is Ok ==> final(ctx).while_count == old(ctx).while_count,
        r is Ok && old(symbol_table).deep_view().no_duplicates() ==> final(symbol_table).deep_view().no_duplicates(),
        final(ctx).func_table == old(ctx).func_table,
        old(ctx).if_count <= final(ctx).if_count,
        r matches Ok(c) ==> old(ctx).if_count < final(ctx).if_count && ends_with(c@, if_end(final(ctx).if_count as nat)),
    decreases tokens.len() - *old(index), 0int,
{
    match &tokens[*index] {
        Token::If => {
            *index += 1;
        },
        _ => {
            return Err(String::from_str("Parser Error: missing 'if'"));
        },
    }
    ctx.if_count = ctx.if_count + 1;
    let term = match parse_bool_expression(tokens, index, symbol_table, ctx) {
        Ok(b) => b,
        Err(e) => return Err(e),
    };
    let n = usize_to_decimal(ctx.if_count);
    let mut code = term.code;
    code.append("\n");
    code.append("%branch_if ");
    code.append(term.name.as_str());
    code.append(", :iftrue");
    code.append(n.as_str());
    code.append("\n%jmp :else");
    code.append(n.as_str());
    code.append("\n");
    match &tokens[*index] {
        Token::LeftCurly => {
            *index += 1;
            code.append(":iftrue");
            code.append(n.as_str());
            code.append("\n");
        },
        _ => {
            return Err(String::from_str("Parser Error: expected '{'"));
        },
    }
    let mut code = match parse_if_block(tokens, index, symbol_table, ctx, code) {
        Ok(c) => c,
        Err(e) => return Err(e),
    };
    *index += 1;
    parse_else(tokens, index, symbol_table, ctx, code)
}

} // verus!
