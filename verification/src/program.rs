//! Function definitions and whole programs.

use vstd::prelude::*;
use crate::token::{Token, TokenView, tok};
use crate::text::{signed_decimal, i32_to_decimal, starts_with, lemma_starts_with_append, lemma_starts_with_trans};
use crate::state::{
    lemma_push_fresh, add_symbol, fail, CompilerState, ParseState, Parsed, state_of, outcome_matches, well_placed, has_symbol, has_func,
    find_symbol, find_func, at_end, temp_name, next_count,
};
use crate::expr::{advanced, spec_expr, spec_mult, spec_term, spec_call_args, spec_mult_rest, spec_expr_rest, ExprView};
use crate::stmt::{spec_block, spec_statement, spec_return, spec_keyword_expr, with_symbol, duplicate_variable, parse_block};

verus! {

/// One parameter declaration, `int x` or `int [n] x`, appended to `code`.
pub open spec fn spec_param(t: Seq<TokenView>, i: int, s: ParseState, code: Seq<char>) -> Parsed<Seq<char>> {
    if !(tok(t, i) is Int) {
        fail(i, s, "Parser Error: Declaration statements must being with 'int' keyword"@)
    } else {
        let c = code + "%int"@;
        match tok(t, i + 1) {
            TokenView::LeftBracket => match tok(t, i + 2) {
                TokenView::Num(v) => if !(tok(t, i + 3) is RightBracket) {
                    fail(i + 3, s, "Parser Error: Declaration statements for array rightBracket missing"@)
                } else {
                    match tok(t, i + 4) {
                        TokenView::Ident(id) => if has_symbol(s.syms, id, "array"@) {
                            fail(i + 5, s, duplicate_variable())
                        } else {
                            Ok((
                                i + 5,
                                with_symbol(s, id, "array"@),
                                c + "["@ + "] "@ + id + ", "@ + signed_decimal(v as int),
                            ))
                        },
                        _ => fail(i + 4, s, "Parser Error: Declaration statements for array identifier missing"@),
                    }
                },
                _ => fail(i + 2, s, "Parser Error: Declaration statements for array number missing"@),
            },
            TokenView::Ident(id) => if has_symbol(s.syms, id, "int"@) {
                fail(i + 2, s, duplicate_variable())
            } else {
                Ok((i + 2, with_symbol(s, id, "int"@), c + " "@ + id))
            },
            _ => fail(i + 1, s, "Parser Error: Declarations must have an identifier or array size declaration"@),
        }
    }
}

/// The parameter list from position `i` up to the closing parenthesis.
pub open spec fn spec_params(t: Seq<TokenView>, i: int, s: ParseState, code: Seq<char>) -> Parsed<Seq<char>>
    decreases t.len() - i,
{
    if tok(t, i) is RightParen {
        Ok((i, s, code))
    } else {
        match spec_param(t, i, s, code) {
            Err(e) => Err(e),
            Ok((k, s1, c1)) => if i < k <= t.len() {
                match tok(t, k) {
                    TokenView::Comma => spec_params(t, k + 1, s1, c1 + ", "@),
                    TokenView::RightParen => Ok((k, s1, c1)),
                    _ => fail(k, s1, "Parser Error: invalid function call"@),
                }
            } else {
                fail(i, s, seq![])
            },
        }
    }
}

/// A function definition `func name(params) { statements }`.
pub open spec fn spec_function(t: Seq<TokenView>, i: int, s: ParseState) -> Parsed<Seq<char>> {
    if !(tok(t, i) is Func) {
        fail(i, s, "Parser Error: functions must begin with func"@)
    } else {
        let s0 = ParseState { syms: seq![], ..s };
        match tok(t, i + 1) {
            TokenView::Ident(name) => if has_func(s0.funcs, name) {
                fail(i + 2, s0, "Semantic Error: {identifier_name} func already exists"@)
            } else {
                let s1 = ParseState { funcs: s0.funcs.push(name), ..s0 };
                if !(tok(t, i + 2) is LeftParen) {
                    fail(i + 2, s1, "Parser Error: expected '('"@)
                } else {
                    match spec_params(t, i + 3, s1, "%func "@ + name + "("@) {
                        Err(e) => Err(e),
                        Ok((j, s2, c)) => if !(tok(t, j + 1) is LeftCurly) {
                            fail(j + 1, s2, "Parser Error: expected '{'"@)
                        } else {
                            match spec_block(t, j + 2, s2, c + ")\n"@) {
                                Err(e) => Err(e),
                                Ok((k, s3, c3)) => Ok((k + 1, s3, c3 + "%endfunc\n\n"@)),
                            }
                        },
                    }
                }
            },
            _ => fail(i + 1, s0, "Parser Error: functions must have a function identifier"@),
        }
    }
}

/// Function definitions up to the end marker, their code appended to `code`.
pub open spec fn spec_functions(t: Seq<TokenView>, i: int, s: ParseState, code: Seq<char>) -> Parsed<Seq<char>>
    decreases t.len() - i,
{
    if tok(t, i) is End {
        Ok((i, s, code))
    } else {
        match spec_function(t, i, s) {
            Err(e) => Err(e),
            Ok((j, s1, c)) => if i < j <= t.len() {
                spec_functions(t, j, s1, code + c)
            } else {
                fail(i, s, seq![])
            },
        }
    }
}

/// The state in which a program is compiled: the compiler state as it
/// stands, with an empty symbol table.
pub open spec fn ctx_state(ctx: CompilerState) -> ParseState {
    ParseState {
        syms: seq![],
        funcs: ctx.func_table.deep_view(),
        temps: ctx.temp_count,
        whiles: ctx.while_count as nat,
        ifs: ctx.if_count as nat,
    }
}

/// The compiler state left behind agrees with `s` (the symbol table aside).
pub open spec fn ctx_matches(ctx: CompilerState, s: ParseState) -> bool {
    &&& ctx.func_table.deep_view() == s.funcs
    &&& ctx.temp_count == s.temps
    &&& ctx.while_count == s.whiles
    &&& ctx.if_count == s.ifs
}

/// What compiling a program from position `i` in state `s` comes to: every
/// function definition in turn, then the check that `main` is among them.
/// On success the function table is emptied; the counters stay as they are.
pub open spec fn spec_program(t: Seq<TokenView>, i: int, s: ParseState) -> Parsed<Seq<char>> {
    match spec_functions(t, i, s, seq![]) {
        Err(e) => Err(e),
        Ok((j, s1, code)) => if has_func(s1.funcs, "main"@) {
            Ok((j, ParseState { funcs: seq![], ..s1 }, code))
        } else {
            fail(j, s1, "Semantic Error: main doesn't exists"@)
        },
    }
}


/// A parameter `int x` (no `int` named `x` yet) adds `x` as an `int` and
/// appends `%int x`; a parameter `int [n] x` (no array named `x` yet) adds `x`
/// as an array and appends `%int[] x, n`.
pub proof fn lemma_param_cases(t: Seq<TokenView>, i: int, s: ParseState, code: Seq<char>)
    requires
        tok(t, i) is Int,
    ensures
        tok(t, i + 1) is Ident && !has_symbol(s.syms, tok(t, i + 1)->Ident_0, "int"@) ==> ({
            let x = tok(t, i + 1)->Ident_0;
            spec_param(t, i, s, code) == Parsed::<Seq<char>>::Ok((i + 2, with_symbol(s, x, "int"@), code + "%int"@ + " "@ + x))
        }),
        tok(t, i + 1) is LeftBracket && tok(t, i + 2) is Num && tok(t, i + 3) is RightBracket && tok(t, i + 4) is Ident
            && !has_symbol(s.syms, tok(t, i + 4)->Ident_0, "array"@) ==> ({
            let n = tok(t, i + 2)->Num_0;
            let x = tok(t, i + 4)->Ident_0;
            spec_param(t, i, s, code) == Parsed::<Seq<char>>::Ok(
                (i + 5, with_symbol(s, x, "array"@), code + "%int"@ + "["@ + "] "@ + x + ", "@ + signed_decimal(n as int)),
            )
        }),
{
}

/// The code of a parameter list begins with the code it was started with.
pub proof fn lemma_params_keep_code(t: Seq<TokenView>, i: int, s: ParseState, code: Seq<char>)
    requires
        spec_params(t, i, s, code) is Ok,
    ensures
        starts_with(spec_params(t, i, s, code)->Ok_0.2, code),
    decreases t.len() - i,
{
    assert(code.subrange(0, code.len() as int) =~= code);
    if !(tok(t, i) is RightParen) {
        if let Ok((k, s1, c1)) = spec_param(t, i, s, code) {
            assert(c1.subrange(0, code.len() as int) =~= code);
            if tok(t, k) is Comma {
                lemma_params_keep_code(t, k + 1, s1, c1 + ", "@);
                lemma_starts_with_append(c1, code, ", "@);
                lemma_starts_with_trans(spec_params(t, i, s, code)->Ok_0.2, c1 + ", "@, code);
            }
        }
    }
}

/// The code of a sequence of function definitions begins with the code it
/// was started with.
pub proof fn lemma_functions_keep_code(t: Seq<TokenView>, i: int, s: ParseState, code: Seq<char>)
    requires
        spec_functions(t, i, s, code) is Ok,
    ensures
        starts_with(spec_functions(t, i, s, code)->Ok_0.2, code),
    decreases t.len() - i,
{
    assert(code.subrange(0, code.len() as int) =~= code);
    if !(tok(t, i) is End) {
        if let Ok((j, s1, c)) = spec_function(t, i, s) {
            lemma_functions_keep_code(t, j, s1, code + c);
            lemma_starts_with_append(code, code, c);
            lemma_starts_with_trans(spec_functions(t, i, s, code)->Ok_0.2, code + c, code);
        }
    }
}

/// The functions of a program are compiled in order: each definition's code
/// follows the code of the definitions before it.
pub proof fn lemma_functions_in_order(t: Seq<TokenView>, i: int, s: ParseState, code: Seq<char>)
    requires
        !(tok(t, i) is End),
        spec_function(t, i, s) is Ok,
        spec_functions(t, i, s, code) is Ok,
    ensures
        starts_with(spec_functions(t, i, s, code)->Ok_0.2, code + spec_function(t, i, s)->Ok_0.2),
{
    let (j, s1, c) = spec_function(t, i, s)->Ok_0;
    lemma_functions_keep_code(t, j, s1, code + c);
}

/// A program compiles exactly when its function definitions compile and
/// `main` is among the functions then defined; its code is theirs, and the
/// function table is emptied.
pub proof fn lemma_program_needs_main(t: Seq<TokenView>, i: int, s: ParseState)
    requires
        spec_functions(t, i, s, seq![]) is Ok,
    ensures
        ({
            let (j, s1, code) = spec_functions(t, i, s, seq![])->Ok_0;
            &&& has_func(s1.funcs, "main"@) ==> spec_program(t, i, s) == Parsed::<Seq<char>>::Ok(
                (j, ParseState { funcs: seq![], ..s1 }, code),
            )
            &&& !has_func(s1.funcs, "main"@) ==> spec_program(t, i, s) == Parsed::<Seq<char>>::Err(
                (j, s1, "Semantic Error: main doesn't exists"@),
            )
        }),
{
}

/// Parameters only add to the symbol table: the function table and the
/// counters stay as they are.
pub proof fn lemma_params_keep_tables(t: Seq<TokenView>, i: int, s: ParseState, code: Seq<char>)
    requires
        spec_params(t, i, s, code) is Ok,
    ensures
        ({
            let s1 = spec_params(t, i, s, code)->Ok_0.1;
            &&& s1.funcs == s.funcs
            &&& s1.temps == s.temps
            &&& s1.whiles == s.whiles
            &&& s1.ifs == s.ifs
        }),
    decreases t.len() - i,
{
    if !(tok(t, i) is RightParen) {
        if let Ok((k, s1, c1)) = spec_param(t, i, s, code) {
            if tok(t, k) is Comma {
                lemma_params_keep_tables(t, k + 1, s1, c1 + ", "@);
            }
        }
    }
}

/// A function is in the function table while its own parameters and body
/// are compiled: after `func name(`, the parameters are read in a state whose
/// function table is the old one with `name` added, and the body is compiled
/// in the state they leave, whose function table is that same one. The
/// definition's code is the body's code (started by the header) followed by
/// `%endfunc`.
pub proof fn lemma_function_body_sees_own_name(t: Seq<TokenView>, i: int, s: ParseState)
    requires
        tok(t, i) is Func,
        tok(t, i + 1) is Ident,
        !has_func(s.funcs, tok(t, i + 1)->Ident_0),
        tok(t, i + 2) is LeftParen,
    ensures
        ({
            let name = tok(t, i + 1)->Ident_0;
            let s1 = ParseState { syms: seq![], funcs: s.funcs.push(name), ..s };
            let params = spec_params(t, i + 3, s1, "%func "@ + name + "("@);
            &&& params is Err ==> spec_function(t, i, s) == params
            &&& params matches Ok((j, s2, c)) ==> {
                &&& s2.funcs == s.funcs.push(name)
                &&& has_func(s2.funcs, name)
                &&& tok(t, j + 1) is LeftCurly ==> spec_function(t, i, s) == match spec_block(t, j + 2, s2, c + ")\n"@) {
                    Err(e) => Parsed::<Seq<char>>::Err(e),
                    Ok((k, s3, c3)) => Parsed::<Seq<char>>::Ok((k + 1, s3, c3 + "%endfunc\n\n"@)),
                }
            }
        }),
{
    let name = tok(t, i + 1)->Ident_0;
    let s1 = ParseState { syms: seq![], funcs: s.funcs.push(name), ..s };
    if spec_params(t, i + 3, s1, "%func "@ + name + "("@) is Ok {
        lemma_params_keep_tables(t, i + 3, s1, "%func "@ + name + "("@);
        assert(s1.funcs.contains(name)) by {
            assert(s1.funcs[s1.funcs.len() - 1] == name);
        }
    }
}

/// `return f();` for a function `f` in the function table compiles to the
/// declaration of a fresh temporary, `%call` of `f` into it, and `%ret` of it.
pub proof fn lemma_return_call_without_arguments(t: Seq<TokenView>, i: int, s: ParseState, f: Seq<char>)
    requires
        tok(t, i) == TokenView::Return,
        tok(t, i + 1) == TokenView::Ident(f),
        tok(t, i + 2) == TokenView::LeftParen,
        tok(t, i + 3) == TokenView::RightParen,
        tok(t, i + 4) == TokenView::SemiColon,
        has_func(s.funcs, f),
    ensures
        ({
            let n = temp_name(s.temps);
            spec_statement(t, i, s) == Parsed::<Seq<char>>::Ok((
                i + 5,
                ParseState { temps: next_count(s.temps), ..s },
                "%int "@ + n + "\n%call "@ + n + ", "@ + (f + "("@ + ")"@) + "\n"@ + "%ret "@ + n + "\n"@,
            ))
        }),
{
    reveal(spec_keyword_expr);
    let n = temp_name(s.temps);
    let s2 = ParseState { temps: next_count(s.temps), ..s };
    let acc: ExprView = (seq![], f + "("@);
    assert(spec_call_args(t, i + 3, s, acc) == Parsed::<ExprView>::Ok((i + 3, s, acc)));
    let line = "%int "@ + n + "\n%call "@ + n + ", "@ + (f + "("@ + ")"@) + "\n"@;
    let e: ExprView = (acc.0 + line, n);
    assert(spec_term(t, i + 1, s) == Parsed::<ExprView>::Ok((i + 4, s2, e)));
    assert(spec_mult_rest(t, i + 4, s2, e) == Parsed::<ExprView>::Ok((i + 4, s2, e)));
    assert(spec_mult(t, i + 1, s) == Parsed::<ExprView>::Ok((i + 4, s2, e)));
    assert(spec_expr_rest(t, i + 4, s2, e) == Parsed::<ExprView>::Ok((i + 4, s2, e)));
    assert(spec_expr(t, i + 1, s) == Parsed::<ExprView>::Ok((i + 4, s2, e)));
    assert(acc.0 + line =~= line);
    assert(spec_return(t, i, s) == Parsed::<Seq<char>>::Ok((i + 5, s2, line + "%ret "@ + n + "\n"@)));
}

/// A function may call itself: `func f() { return f(); }` compiles, for any
/// name `f` not defined yet, to a `%call` of `f` from its own body.
pub proof fn lemma_self_call_compiles(t: Seq<TokenView>, i: int, s: ParseState, f: Seq<char>)
    requires
        tok(t, i) == TokenView::Func,
        tok(t, i + 1) == TokenView::Ident(f),
        tok(t, i + 2) == TokenView::LeftParen,
        tok(t, i + 3) == TokenView::RightParen,
        tok(t, i + 4) == TokenView::LeftCurly,
        tok(t, i + 5) == TokenView::Return,
        tok(t, i + 6) == TokenView::Ident(f),
        tok(t, i + 7) == TokenView::LeftParen,
        tok(t, i + 8) == TokenView::RightParen,
        tok(t, i + 9) == TokenView::SemiColon,
        tok(t, i + 10) == TokenView::RightCurly,
        !has_func(s.funcs, f),
    ensures
        ({
            let n = temp_name(s.temps);
            let s2 = ParseState { syms: seq![], funcs: s.funcs.push(f), temps: next_count(s.temps), ..s };
            spec_function(t, i, s) == Parsed::<Seq<char>>::Ok((
                i + 11,
                s2,
                "%func "@ + f + "("@ + ")\n"@ + "%int "@ + n + "\n%call "@ + n + ", "@ + (f + "("@ + ")"@) + "\n"@
                    + "%ret "@ + n + "\n"@ + "%endfunc\n\n"@,
            ))
        }),
{
    let n = temp_name(s.temps);
    let s1 = ParseState { syms: seq![], funcs: s.funcs.push(f), ..s };
    let s2 = ParseState { syms: seq![], funcs: s.funcs.push(f), temps: next_count(s.temps), ..s };
    let header = "%func "@ + f + "("@;
    assert(has_func(s1.funcs, f)) by {
        assert(s1.funcs[s1.funcs.len() - 1] == f);
    }
    assert(spec_params(t, i + 3, s1, header) == Parsed::<Seq<char>>::Ok((i + 3, s1, header)));
    let c = "%int "@ + n + "\n%call "@ + n + ", "@ + (f + "("@ + ")"@) + "\n"@ + "%ret "@ + n + "\n"@;
    lemma_return_call_without_arguments(t, i + 5, s1, f);
    let body0 = header + ")\n"@;
    assert(spec_block(t, i + 10, s2, body0 + c) == Parsed::<Seq<char>>::Ok((i + 10, s2, body0 + c)));
    assert(spec_block(t, i + 5, s1, body0) == Parsed::<Seq<char>>::Ok((i + 10, s2, body0 + c)));
    assert(body0 + c + "%endfunc\n\n"@ =~= "%func "@ + f + "("@ + ")\n"@ + "%int "@ + n + "\n%call "@ + n + ", "@
        + (f + "("@ + ")"@) + "\n"@ + "%ret "@ + n + "\n"@ + "%endfunc\n\n"@);
}

/// One parameter declaration at `*index`, appended to `code0`.
fn parse_parameter(
    tokens: &Vec<Token>,
    index: &mut usize,
    symbol_table: &mut Vec<(String, String)>,
    ctx: &CompilerState,
    code0: String,
) -> (r: Result<String, String>)
    requires
        well_placed(tokens.deep_view(), *old(index) as int, state_of(*old(symbol_table), *ctx)),
    ensures
        *old(index) <= *final(index) < tokens.len(),
        outcome_matches(
            r,
            *final(index) as int,
            state_of(*final(symbol_table), *ctx),
            spec_param(tokens.deep_view(), *old(index) as int, state_of(*old(symbol_table), *ctx), code0@),
        ),
        r is Ok ==> advanced(tokens.deep_view(), *old(index) as int, *final(index) as int, state_of(*final(symbol_table), *ctx)),
        r is Ok && old(symbol_table).deep_view().no_duplicates() ==> final(symbol_table).deep_view().no_duplicates(),
{
    assert(*index < tokens.len());
    let mut code = code0;
    match &tokens[*index] {
        Token::Int => {
            *index += 1;
            code.append("%int");
        },
        _ => {
            return Err(String::from_str("Parser Error: Declaration statements must being with 'int' keyword"));
        },
    }
    match &tokens[*index] {
        Token::LeftBracket => {
            *index += 1;
            code.append("[");
            let size = match &tokens[*index] {
                Token::Num(val) => {
                    *index += 1;
                    *val
                },
                _ => {
                    return Err(String::from_str("Parser Error: Declaration statements for array number missing"));
                },
            };
            match &tokens[*index] {
                Token::RightBracket => {
                    *index += 1;
                    code.append("] ");
                },
                _ => {
                    return Err(String::from_str("Parser Error: Declaration statements for array rightBracket missing"));
                },
            }
            match &tokens[*index] {
                Token::Ident(ident) => {
                    *index += 1;
                    code.append(ident.as_str());
                    code.append(", ");
                    let digits = i32_to_decimal(size);
                    code.append(digits.as_str());
                    if find_symbol(symbol_table, ident, "array") {
                        return Err(String::from_str("Semantic Error: found duplicate variable {ident}"));
                    }
                    proof {
                        if symbol_table.deep_view().no_duplicates() {
                            lemma_push_fresh(symbol_table.deep_view(), (ident@, "array"@));
                        }
                    }
                    add_symbol(symbol_table, ident.clone(), "array");
                },
                _ => {
                    return Err(String::from_str("Parser Error: Declaration statements for array identifier missing"));
                },
            }
        },
        Token::Ident(ident) => {
            *index += 1;
            code.append(" ");
            code.append(ident.as_str());
            if find_symbol(symbol_table, ident, "int") {
                return Err(String::from_str("Semantic Error: found duplicate variable {ident}"));
            }
            proof {
                if symbol_table.deep_view().no_duplicates() {
                    lemma_push_fresh(symbol_table.deep_view(), (ident@, "int"@));
                }
            }
            add_symbol(symbol_table, ident.clone(), "int");
        },
        _ => {
            return Err(String::from_str("Parser Error: Declarations must have an identifier or array size declaration"));
        },
    }
    Ok(code)
}

/// The parameter list at `*index`, up to the closing parenthesis.
fn parse_parameters(
    tokens: &Vec<Token>,
    index: &mut usize,
    symbol_table: &mut Vec<(String, String)>,
    ctx: &CompilerState,
    code0: String,
) -> (r: Result<String, String>)
    requires
        well_placed(tokens.deep_view(), *old(index) as int, state_of(*old(symbol_table), *ctx)),
    ensures
        *old(index) <= *final(index) < tokens.len(),
        outcome_matches(
            r,
            *final(index) as int,
            state_of(*final(symbol_table), *ctx),
            spec_params(tokens.deep_view(), *old(index) as int, state_of(*old(symbol_table), *ctx), code0@),
        ),
        r is Ok ==> *old(index) <= *final(index) && tok(tokens.deep_view(), *final(index) as int) is RightParen
            && well_placed(tokens.deep_view(), *final(index) as int, state_of(*final(symbol_table), *ctx)),
        r is Ok && old(symbol_table).deep_view().no_duplicates() ==> final(symbol_table).deep_view().no_duplicates(),
{
    let ghost t = tokens.deep_view();
    let ghost i0 = *index as int;
    let ghost s0 = state_of(*symbol_table, *ctx);
    let ghost c0 = code0@;
    let mut code = code0;
    loop
        invariant
            t == tokens.deep_view(),
            i0 == *old(index) as int,
            s0 == state_of(*old(symbol_table), *ctx),
            c0 == code0@,
            well_placed(t, *index as int, state_of(*symbol_table, *ctx)),
            i0 <= *index,
            spec_params(t, *index as int, state_of(*symbol_table, *ctx), code@) == spec_params(t, i0, s0, c0),
            old(symbol_table).deep_view().no_duplicates() ==> symbol_table.deep_view().no_duplicates(),
        ensures
            tok(t, *index as int) is RightParen,
            well_placed(t, *index as int, state_of(*symbol_table, *ctx)),
            i0 <= *index,
            spec_params(t, *index as int, state_of(*symbol_table, *ctx), code@) == spec_params(t, i0, s0, c0),
            old(symbol_table).deep_view().no_duplicates() ==> symbol_table.deep_view().no_duplicates(),
        decreases tokens.len() - *index,
    {
        if matches!(tokens[*index], Token::RightParen) {
            break;
        }
        code = match parse_parameter(tokens, index, symbol_table, ctx, code) {
            Ok(c) => c,
            Err(e) => return Err(e),
        };
        match &tokens[*index] {
            Token::Comma => {
                *index += 1;
                code.append(", ");
            },
            Token::RightParen => {},
            _ => {
                return Err(String::from_str("Parser Error: invalid function call"));
            },
        }
    }
    Ok(code)
}

/// Parses a function definition at `*index`.
pub fn parse_function(
    tokens: &Vec<Token>,
    index: &mut usize,
    symbol_table: &mut Vec<(String, String)>,
    ctx: &mut CompilerState,
) -> (r: Result<String, String>)
    requires
        well_placed(tokens.deep_view(), *old(index) as int, state_of(*old(symbol_table), *old(ctx))),
    ensures
        *old(index) <= *final(index) < tokens.len(),
        outcome_matches(
            r,
            *final(index) as int,
            state_of(*final(symbol_table), *final(ctx)),
            spec_function(tokens.deep_view(), *old(index) as int, state_of(*old(symbol_table), *old(ctx))),
        ),
        r is Ok ==> advanced(
            tokens.deep_view(),
            *old(index) as int,
            *final(index) as int,
            state_of(*final(symbol_table), *final(ctx)),
        ),
        r is Ok ==> final(symbol_table).deep_view().no_duplicates(),
        r is Ok && old(ctx).func_table.deep_view().no_duplicates() ==> final(ctx).func_table.deep_view().no_duplicates(),
{
    assert(*index < tokens.len());
    match &tokens[*index] {
        Token::Func => {
            *index += 1;
            symbol_table.clear();
            assert(symbol_table.deep_view() =~= Seq::<(Seq<char>, Seq<char>)>::empty());
        },
        _ => {
            return Err(String::from_str("Parser Error: functions must begin with func"));
        },
    }
    let mut function_code = match &tokens[*index] {
        Token::Ident(identifier_name) => {
            *index += 1;
            let mut code = String::from_str("%func ");
            code.append(identifier_name.as_str());
            if find_func(&ctx.func_table, identifier_name) {
                return Err(String::from_str("Semantic Error: {identifier_name} func already exists"));
            }
            let ghost funcs = ctx.func_table.deep_view();
            proof {
                if funcs.no_duplicates() {
                    lemma_push_fresh(funcs, identifier_name@);
                }
            }
            ctx.func_table.push(identifier_name.clone());
            assert(ctx.func_table.deep_view() =~= funcs.push(identifier_name@));
            code
        },
        _ => {
            return Err(String::from_str("Parser Error: functions must have a function identifier"));
        },
    };
    match &tokens[*index] {
        Token::LeftParen => {
            *index += 1;
            function_code.append("(");
        },
        _ => {
            return Err(String::from_str("Parser Error: expected '('"));
        },
    }
    function_code = match parse_parameters(tokens, index, symbol_table, ctx, function_code) {
        Ok(c) => c,
        Err(e) => return Err(e),
    };
    *index += 1;
    function_code.append(")\n");
    match &tokens[*index] {
        Token::LeftCurly => {
            *index += 1;
        },
        _ => {
            return Err(String::from_str("Parser Error: expected '{'"));
        },
    }
    function_code = match parse_block(tokens, index, symbol_table, ctx, function_code) {
        Ok(c) => c,
        Err(e) => return Err(e),
    };
    *index += 1;
    function_code.append("%endfunc\n\n");
    Ok(function_code)
}

/// Compiles a token sequence into intermediate code: every function
/// definition in turn, then a check that `main` is among them. The compiler
/// state carries the function table and the counters from one call to the
/// next; the function table is emptied after a successful compilation.
pub fn parse_program(tokens: &Vec<Token>, index: &mut usize, ctx: &mut CompilerState) -> (r: Result<String, String>)
    requires
        tokens.len() >= 1,
        tokens.deep_view().last() is End,
        *old(index) < tokens.len(),
        old(ctx).while_count + tokens.len() <= usize::MAX,
        old(ctx).if_count + tokens.len() <= usize::MAX,
    ensures
        match spec_program(tokens.deep_view(), *old(index) as int, ctx_state(*old(ctx))) {
            Ok((j, s, code)) => r matches Ok(c) && c@ == code && *final(index) == j && ctx_matches(*final(ctx), s),
            Err((j, s, m)) => r matches Err(e) && e@ == m && *final(index) == j && ctx_matches(*final(ctx), s),
        },
{
    let ghost t = tokens.deep_view();
    let ghost i0 = *index as int;
    let mut ir_code = String::new();
    let mut symbol_table: Vec<(String, String)> = Vec::new();
    assert(symbol_table.deep_view() =~= Seq::<(Seq<char>, Seq<char>)>::empty());
    let ghost st0 = state_of(symbol_table, *ctx);
    assert(st0 == ctx_state(*old(ctx)));
    while !at_end(tokens, *index)
        invariant
            t == tokens.deep_view(),
            i0 == *old(index) as int,
            st0 == ctx_state(*old(ctx)),
            i0 <= *index,
            well_placed(t, *index as int, state_of(symbol_table, *ctx)),
            spec_functions(t, *index as int, state_of(symbol_table, *ctx), ir_code@)
                == spec_functions(t, i0, st0, seq![]),
        decreases tokens.len() - *index,
    {
        let function_ir_code = match parse_function(tokens, index, &mut symbol_table, ctx) {
            Ok(c) => c,
            Err(e) => return Err(e),
        };
        ir_code.append(function_ir_code.as_str());
    }
    let main = String::from_str("main");
    if !find_func(&ctx.func_table, &main) {
        return Err(String::from_str("Semantic Error: main doesn't exists"));
    }
    ctx.func_table.clear();
    assert(ctx.func_table.deep_view() =~= Seq::<Seq<char>>::empty());
    Ok(ir_code)
}

} // verus!
