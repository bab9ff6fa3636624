//! Expressions: terms, products, sums and comparisons.
//!
//! Each executable parser is proved to agree with a spec function of the same
//! grammar rule. A spec function that continues at a position returned by
//! another one first checks that the position moved forward; this keeps the
//! definitions well-founded. The executable parsers show that a successful
//! parse always moves forward, so those checks never fail on the way.

use vstd::prelude::*;
use crate::token::{Token, TokenView, tok};
use crate::text::{signed_decimal, i32_to_decimal, starts_with, lemma_starts_with_append, lemma_starts_with_trans};
use crate::state::{
    CompilerState, ParseState, Parsed, Expression, fail, state_of, outcome_matches, well_placed,
    has_symbol, has_func, new_temp, temp_name, next_count, temp_steps, find_symbol, find_func, create_temp,
};

verus! {

/// Code and result name of an expression.
pub type ExprView = (Seq<char>, Seq<char>);

/// The instruction `op dest, a, b` with the declaration of `dest` before it.
pub open spec fn op_instr(op: Seq<char>, dest: Seq<char>, a: Seq<char>, b: Seq<char>) -> Seq<char> {
    "%int "@ + dest + "\n"@ + op + " "@ + dest + ", "@ + a + ", "@ + b + "\n"@
}

/// A term: a number, a variable, an array element `a[e]`, a call `f(e, ...)`
/// or a parenthesized expression.
pub open spec fn spec_term(t: Seq<TokenView>, i: int, s: ParseState) -> Parsed<ExprView>
    decreases t.len() - i, 0int,
{
    match tok(t, i) {
        TokenView::Ident(d) => match tok(t, i + 1) {
            TokenView::LeftBracket => match spec_expr(t, i + 2, s) {
                Err(e) => Err(e),
                Ok((k, s1, inside)) => if tok(t, k) is RightBracket {
                    if !has_symbol(s1.syms, d, "array"@) {
                        fail(k + 1, s1, "Semantic Error: array not found"@)
                    } else {
                        let (tn, s2) = new_temp(s1);
                        let instr = "["@ + d + " + "@ + inside.1 + "]\n"@;
                        Ok((k + 1, s2, ("%int "@ + tn + "\n%mov "@ + tn + ", "@ + instr, tn)))
                    }
                } else {
                    fail(k, s1, "Parser Error: missing right bracket ']'"@)
                },
            },
            TokenView::LeftParen => match spec_call_args(t, i + 2, s, (seq![], d + "("@)) {
                Err(e) => Err(e),
                Ok((k, s1, acc)) => if !has_func(s1.funcs, d) {
                    fail(k + 1, s1, "Semantic Error: function not found"@)
                } else {
                    let (tn, s2) = new_temp(s1);
                    let line = "%int "@ + tn + "\n%call "@ + tn + ", "@ + (acc.1 + ")"@) + "\n"@;
                    Ok((k + 1, s2, (acc.0 + line, tn)))
                },
            },
            _ => if !has_symbol(s.syms, d, "int"@) && !has_func(s.funcs, d) {
                fail(i + 1, s, "Semantic Error: function / identifier int not found"@)
            } else {
                Ok((i + 1, s, (seq![], d)))
            },
        },
        TokenView::Num(v) => Ok((i + 1, s, (seq![], signed_decimal(v as int)))),
        TokenView::LeftParen => match spec_expr(t, i + 1, s) {
            Err(e) => Err(e),
            Ok((k, s1, e)) => if tok(t, k) is RightParen {
                Ok((k + 1, s1, e))
            } else {
                fail(k, s1, "Parser Error: missing right parenthesis ')'"@)
            },
        },
        _ => fail(i, s, "Parser Error: missing expression term."@),
    }
}

/// The arguments of a call from position `i` up to the closing parenthesis;
/// `acc` holds the code so far and the call text so far.
pub open spec fn spec_call_args(t: Seq<TokenView>, i: int, s: ParseState, acc: ExprView) -> Parsed<ExprView>
    decreases t.len() - i, 3int,
{
    if tok(t, i) is RightParen {
        Ok((i, s, acc))
    } else {
        match spec_expr(t, i, s) {
            Err(e) => Err(e),
            Ok((k, s1, e)) => if i < k <= t.len() {
                let code = acc.0 + e.0 + "\n"@;
                let call = acc.1 + e.1;
                match tok(t, k) {
                    TokenView::Comma => spec_call_args(t, k + 1, s1, (code, call + ", "@)),
                    TokenView::RightParen => Ok((k, s1, (code, call))),
                    _ => fail(k, s1, "Parser Error: invalid function call"@),
                }
            } else {
                fail(i, s, seq![])
            },
        }
    }
}

/// A product: terms joined by `*`, `/` and `%`.
pub open spec fn spec_mult(t: Seq<TokenView>, i: int, s: ParseState) -> Parsed<ExprView>
    decreases t.len() - i, 1int,
{
    match spec_term(t, i, s) {
        Err(e) => Err(e),
        Ok((j, s1, e)) => if i < j <= t.len() {
            spec_mult_rest(t, j, s1, e)
        } else {
            fail(i, s, seq![])
        },
    }
}

pub open spec fn mult_op(k: TokenView) -> Option<Seq<char>> {
    match k {
        TokenView::Multiply => Some("%mult"@),
        TokenView::Divide => Some("%div"@),
        TokenView::Modulus => Some("%mod"@),
        _ => None,
    }
}

pub open spec fn add_op(k: TokenView) -> Option<Seq<char>> {
    match k {
        TokenView::Plus => Some("%add"@),
        TokenView::Subtract => Some("%sub"@),
        _ => None,
    }
}

/// The rest of a product after its first factors, `acc` being their value.
pub open spec fn spec_mult_rest(t: Seq<TokenView>, i: int, s: ParseState, acc: ExprView) -> Parsed<ExprView>
    decreases t.len() - i, 0int,
{
    match mult_op(tok(t, i)) {
        None => Ok((i, s, acc)),
        Some(op) => match spec_term(t, i + 1, s) {
            Err(e) => Err(e),
            Ok((j, s1, e)) => if i + 1 < j <= t.len() {
                let (tn, s2) = new_temp(s1);
                spec_mult_rest(t, j, s2, (acc.0 + e.0 + op_instr(op, tn, acc.1, e.1), tn))
            } else {
                fail(i, s, seq![])
            },
        },
    }
}

/// An expression: products joined by `+` and `-`.
pub open spec fn spec_expr(t: Seq<TokenView>, i: int, s: ParseState) -> Parsed<ExprView>
    decreases t.len() - i, 2int,
{
    match spec_mult(t, i, s) {
        Err(e) => Err(e),
        Ok((j, s1, e)) => if i < j <= t.len() {
            spec_expr_rest(t, j, s1, e)
        } else {
            fail(i, s, seq![])
        },
    }
}

/// The rest of a sum after its first summands, `acc` being their value.
pub open spec fn spec_expr_rest(t: Seq<TokenView>, i: int, s: ParseState, acc: ExprView) -> Parsed<ExprView>
    decreases t.len() - i, 0int,
{
    match add_op(tok(t, i)) {
        None => Ok((i, s, acc)),
        Some(op) => match spec_mult(t, i + 1, s) {
            Err(e) => Err(e),
            Ok((j, s1, e)) => if i + 1 < j <= t.len() {
                let (tn, s2) = new_temp(s1);
                spec_expr_rest(t, j, s2, (acc.0 + e.0 + op_instr(op, tn, acc.1, e.1), tn))
            } else {
                fail(i, s, seq![])
            },
        },
    }
}

pub open spec fn comparison(k: TokenView) -> Option<Seq<char>> {
    match k {
        TokenView::Greater => Some("gt"@),
        TokenView::Less => Some("lt"@),
        TokenView::LessEqual => Some("le"@),
        TokenView::GreaterEqual => Some("ge"@),
        TokenView::NotEqual => Some("neq"@),
        TokenView::Equality => Some("eq"@),
        _ => None,
    }
}

/// A comparison `e1 op e2`; only the names of the operands enter its code.
#[verifier::opaque]
pub open spec fn spec_bool(t: Seq<TokenView>, i: int, s: ParseState) -> Parsed<ExprView> {
    match spec_expr(t, i, s) {
        Err(e) => Err(e),
        Ok((j, s1, e1)) => match comparison(tok(t, j)) {
            None => fail(j, s1, "Parser Error: inequality sign missing"@),
            Some(q) => match spec_expr(t, j + 1, s1) {
                Err(e) => Err(e),
                Ok((k, s2, e2)) => {
                    let (tn, s3) = new_temp(s2);
                    Ok((k, s3, ("%int "@ + tn + "\n%"@ + q + " "@ + tn + ", "@ + e1.1 + ", "@ + e2.1, tn)))
                },
            },
        },
    }
}



/// The rest of a product stops inside the tokens, at or after its start.
pub proof fn lemma_mult_rest_bounds(t: Seq<TokenView>, i: int, s: ParseState, acc: ExprView)
    requires
        i <= t.len(),
        spec_mult_rest(t, i, s, acc) is Ok,
    ensures
        i <= spec_mult_rest(t, i, s, acc)->Ok_0.0 <= t.len(),
    decreases t.len() - i,
{
    if let Some(op) = mult_op(tok(t, i)) {
        if let Ok((j, s1, e)) = spec_term(t, i + 1, s) {
            let (tn, s2) = new_temp(s1);
            lemma_mult_rest_bounds(t, j, s2, (acc.0 + e.0 + op_instr(op, tn, acc.1, e.1), tn));
        }
    }
}

/// The rest of a sum stops inside the tokens, at or after its start.
pub proof fn lemma_expr_rest_bounds(t: Seq<TokenView>, i: int, s: ParseState, acc: ExprView)
    requires
        i <= t.len(),
        spec_expr_rest(t, i, s, acc) is Ok,
    ensures
        i <= spec_expr_rest(t, i, s, acc)->Ok_0.0 <= t.len(),
    decreases t.len() - i,
{
    if let Some(op) = add_op(tok(t, i)) {
        if let Ok((j, s1, e)) = spec_mult(t, i + 1, s) {
            let (tn, s2) = new_temp(s1);
            lemma_expr_rest_bounds(t, j, s2, (acc.0 + e.0 + op_instr(op, tn, acc.1, e.1), tn));
        }
    }
}

/// A parsed product reads at least one token and stops inside the tokens.
pub proof fn lemma_mult_bounds(t: Seq<TokenView>, i: int, s: ParseState)
    requires
        spec_mult(t, i, s) is Ok,
    ensures
        i < spec_mult(t, i, s)->Ok_0.0 <= t.len(),
{
    if let Ok((j, s1, e)) = spec_term(t, i, s) {
        lemma_mult_rest_bounds(t, j, s1, e);
    }
}

/// A parsed expression reads at least one token and stops inside the tokens.
pub proof fn lemma_expr_bounds(t: Seq<TokenView>, i: int, s: ParseState)
    requires
        spec_expr(t, i, s) is Ok,
    ensures
        i < spec_expr(t, i, s)->Ok_0.0 <= t.len(),
{
    if let Ok((j, s1, e)) = spec_mult(t, i, s) {
        lemma_expr_rest_bounds(t, j, s1, e);
    }
}

/// Parsed call arguments end at the closing parenthesis, at or after their start.
pub proof fn lemma_call_args_bounds(t: Seq<TokenView>, i: int, s: ParseState, acc: ExprView)
    requires
        spec_call_args(t, i, s, acc) is Ok,
    ensures
        i <= spec_call_args(t, i, s, acc)->Ok_0.0,
        tok(t, spec_call_args(t, i, s, acc)->Ok_0.0) is RightParen,
    decreases t.len() - i,
{
    if !(tok(t, i) is RightParen) {
        if let Ok((k, s1, e)) = spec_expr(t, i, s) {
            if tok(t, k) is Comma {
                lemma_call_args_bounds(t, k + 1, s1, (acc.0 + e.0 + "\n"@, acc.1 + e.1 + ", "@));
            }
        }
    }
}

/// A parsed term reads at least one token and stops inside the tokens.
pub proof fn lemma_term_bounds(t: Seq<TokenView>, i: int, s: ParseState)
    requires
        spec_term(t, i, s) is Ok,
    ensures
        i < spec_term(t, i, s)->Ok_0.0 <= t.len(),
{
    match tok(t, i) {
        TokenView::Ident(d) => match tok(t, i + 1) {
            TokenView::LeftBracket => lemma_expr_bounds(t, i + 2, s),
            TokenView::LeftParen => lemma_call_args_bounds(t, i + 2, s, (seq![], d + "("@)),
            _ => {},
        },
        TokenView::LeftParen => lemma_expr_bounds(t, i + 1, s),
        _ => {},
    }
}

/// The code of the rest of a product begins with the code of the factors
/// before it.
pub proof fn lemma_mult_rest_keeps_code(t: Seq<TokenView>, i: int, s: ParseState, acc: ExprView)
    requires
        spec_mult_rest(t, i, s, acc) is Ok,
    ensures
        starts_with(spec_mult_rest(t, i, s, acc)->Ok_0.2.0, acc.0),
    decreases t.len() - i,
{
    assert(acc.0.subrange(0, acc.0.len() as int) =~= acc.0);
    if let Some(op) = mult_op(tok(t, i)) {
        if let Ok((j, s1, e)) = spec_term(t, i + 1, s) {
            let (tn, s2) = new_temp(s1);
            let next = (acc.0 + e.0 + op_instr(op, tn, acc.1, e.1), tn);
            lemma_mult_rest_keeps_code(t, j, s2, next);
            assert(starts_with(next.0, acc.0)) by {
                assert(next.0.subrange(0, acc.0.len() as int) =~= acc.0);
            }
            lemma_starts_with_trans(spec_mult_rest(t, i, s, acc)->Ok_0.2.0, next.0, acc.0);
        }
    }
}

/// The code of the rest of a sum begins with the code of the summands
/// before it.
pub proof fn lemma_expr_rest_keeps_code(t: Seq<TokenView>, i: int, s: ParseState, acc: ExprView)
    requires
        spec_expr_rest(t, i, s, acc) is Ok,
    ensures
        starts_with(spec_expr_rest(t, i, s, acc)->Ok_0.2.0, acc.0),
    decreases t.len() - i,
{
    assert(acc.0.subrange(0, acc.0.len() as int) =~= acc.0);
    if let Some(op) = add_op(tok(t, i)) {
        if let Ok((j, s1, e)) = spec_mult(t, i + 1, s) {
            let (tn, s2) = new_temp(s1);
            let next = (acc.0 + e.0 + op_instr(op, tn, acc.1, e.1), tn);
            lemma_expr_rest_keeps_code(t, j, s2, next);
            assert(starts_with(next.0, acc.0)) by {
                assert(next.0.subrange(0, acc.0.len() as int) =~= acc.0);
            }
            lemma_starts_with_trans(spec_expr_rest(t, i, s, acc)->Ok_0.2.0, next.0, acc.0);
        }
    }
}

/// In a product `... op f ...`, the code computing the factor `f` follows the
/// code of the factors before it, and right after it stands the instruction
/// that combines them into a fresh temporary: the product's code begins with
/// `code(before) ++ code(f) ++ op_instr(op, t, name(before), name(f))`. The
/// name of `f` that this instruction reads is declared before it, unless `f`
/// has no code (a variable or a number).
pub proof fn lemma_product_factor_code(
    t: Seq<TokenView>,
    i: int,
    s: ParseState,
    acc: ExprView,
    op: Seq<char>,
    j: int,
    s1: ParseState,
    f: ExprView,
)
    requires
        mult_op(tok(t, i)) == Some(op),
        spec_term(t, i + 1, s) == Parsed::<ExprView>::Ok((j, s1, f)),
        spec_mult_rest(t, i, s, acc) is Ok,
    ensures
        starts_with(
            spec_mult_rest(t, i, s, acc)->Ok_0.2.0,
            acc.0 + f.0 + op_instr(op, temp_name(s1.temps), acc.1, f.1),
        ),
        f.0.len() == 0 || declares(acc.0 + f.0, f.1),
{
    lemma_term_computes(t, i + 1, s);
    if f.0.len() != 0 {
        lemma_declares_extend(acc.0, f.0, seq![], f.1);
        assert(acc.0 + f.0 + seq![] =~= acc.0 + f.0);
    }
    let (tn, s2) = new_temp(s1);
    lemma_mult_rest_keeps_code(t, j, s2, (acc.0 + f.0 + op_instr(op, tn, acc.1, f.1), tn));
}

/// In a sum `... op m ...`, the code computing the summand `m` follows the
/// code of the summands before it, and right after it stands the instruction
/// that combines them into a fresh temporary. The name of `m` that this
/// instruction reads is declared before it, unless `m` has no code.
pub proof fn lemma_sum_summand_code(
    t: Seq<TokenView>,
    i: int,
    s: ParseState,
    acc: ExprView,
    op: Seq<char>,
    j: int,
    s1: ParseState,
    m: ExprView,
)
    requires
        add_op(tok(t, i)) == Some(op),
        spec_mult(t, i + 1, s) == Parsed::<ExprView>::Ok((j, s1, m)),
        spec_expr_rest(t, i, s, acc) is Ok,
    ensures
        starts_with(
            spec_expr_rest(t, i, s, acc)->Ok_0.2.0,
            acc.0 + m.0 + op_instr(op, temp_name(s1.temps), acc.1, m.1),
        ),
        m.0.len() == 0 || declares(acc.0 + m.0, m.1),
{
    lemma_mult_computes(t, i + 1, s);
    if m.0.len() != 0 {
        lemma_declares_extend(acc.0, m.0, seq![], m.1);
        assert(acc.0 + m.0 + seq![] =~= acc.0 + m.0);
    }
    let (tn, s2) = new_temp(s1);
    lemma_expr_rest_keeps_code(t, j, s2, (acc.0 + m.0 + op_instr(op, tn, acc.1, m.1), tn));
}

/// A product of two factors `f1 op f2`: its code is `code(f1) ++ code(f2)`
/// followed by the instruction that computes `name(f1) op name(f2)` into a
/// fresh temporary, which names the product.
pub proof fn lemma_product_of_two(t: Seq<TokenView>, i: int, s: ParseState)
    requires
        spec_term(t, i, s) is Ok,
        mult_op(tok(t, spec_term(t, i, s)->Ok_0.0)) is Some,
        spec_term(t, spec_term(t, i, s)->Ok_0.0 + 1, spec_term(t, i, s)->Ok_0.1) is Ok,
        mult_op(
            tok(t, spec_term(t, spec_term(t, i, s)->Ok_0.0 + 1, spec_term(t, i, s)->Ok_0.1)->Ok_0.0),
        ) is None,
    ensures
        ({
            let (j, s1, f1) = spec_term(t, i, s)->Ok_0;
            let op = mult_op(tok(t, j))->Some_0;
            let (k, s2, f2) = spec_term(t, j + 1, s1)->Ok_0;
            let tn = temp_name(s2.temps);
            spec_mult(t, i, s) == Parsed::<ExprView>::Ok(
                (k, new_temp(s2).1, (f1.0 + f2.0 + op_instr(op, tn, f1.1, f2.1), tn)),
            )
        }),
{
    let (j, s1, f1) = spec_term(t, i, s)->Ok_0;
    let (k, s2, f2) = spec_term(t, j + 1, s1)->Ok_0;
    lemma_term_bounds(t, i, s);
    lemma_term_bounds(t, j + 1, s1);
}

/// A sum of two products `m1 op m2`: its code is `code(m1) ++ code(m2)`
/// followed by the instruction that computes `name(m1) op name(m2)` into a
/// fresh temporary, which names the sum.
pub proof fn lemma_sum_of_two(t: Seq<TokenView>, i: int, s: ParseState)
    requires
        spec_mult(t, i, s) is Ok,
        add_op(tok(t, spec_mult(t, i, s)->Ok_0.0)) is Some,
        spec_mult(t, spec_mult(t, i, s)->Ok_0.0 + 1, spec_mult(t, i, s)->Ok_0.1) is Ok,
        add_op(
            tok(t, spec_mult(t, spec_mult(t, i, s)->Ok_0.0 + 1, spec_mult(t, i, s)->Ok_0.1)->Ok_0.0),
        ) is None,
    ensures
        ({
            let (j, s1, m1) = spec_mult(t, i, s)->Ok_0;
            let op = add_op(tok(t, j))->Some_0;
            let (k, s2, m2) = spec_mult(t, j + 1, s1)->Ok_0;
            let tn = temp_name(s2.temps);
            spec_expr(t, i, s) == Parsed::<ExprView>::Ok(
                (k, new_temp(s2).1, (m1.0 + m2.0 + op_instr(op, tn, m1.1, m2.1), tn)),
            )
        }),
{
    let (j, s1, m1) = spec_mult(t, i, s)->Ok_0;
    let (k, s2, m2) = spec_mult(t, j + 1, s1)->Ok_0;
    lemma_mult_bounds(t, i, s);
    lemma_mult_bounds(t, j + 1, s1);
}

/// The code and the call text built for the arguments of a call begin with
/// what was built before them.
pub proof fn lemma_call_args_keep_code(t: Seq<TokenView>, i: int, s: ParseState, acc: ExprView)
    requires
        spec_call_args(t, i, s, acc) is Ok,
    ensures
        starts_with(spec_call_args(t, i, s, acc)->Ok_0.2.0, acc.0),
        starts_with(spec_call_args(t, i, s, acc)->Ok_0.2.1, acc.1),
    decreases t.len() - i,
{
    assert(acc.0.subrange(0, acc.0.len() as int) =~= acc.0);
    assert(acc.1.subrange(0, acc.1.len() as int) =~= acc.1);
    if !(tok(t, i) is RightParen) {
        if let Ok((k, s1, e)) = spec_expr(t, i, s) {
            let code = acc.0 + e.0 + "\n"@;
            let call = acc.1 + e.1;
            assert(code.subrange(0, acc.0.len() as int) =~= acc.0);
            assert(call.subrange(0, acc.1.len() as int) =~= acc.1);
            if tok(t, k) is Comma {
                let next = (code, call + ", "@);
                lemma_call_args_keep_code(t, k + 1, s1, next);
                lemma_starts_with_append(call, acc.1, ", "@);
                lemma_starts_with_trans(spec_call_args(t, i, s, acc)->Ok_0.2.0, code, acc.0);
                lemma_starts_with_trans(spec_call_args(t, i, s, acc)->Ok_0.2.1, next.1, acc.1);
            }
        }
    }
}

/// Each argument `e` of a call contributes its code, followed by a line
/// break, right after the code of the arguments before it; its name goes
/// into the call text right after the arguments before it, and is declared
/// in the code before the call unless `e` has no code.
pub proof fn lemma_call_argument_code(
    t: Seq<TokenView>,
    i: int,
    s: ParseState,
    acc: ExprView,
    k: int,
    s1: ParseState,
    e: ExprView,
)
    requires
        !(tok(t, i) is RightParen),
        spec_expr(t, i, s) == Parsed::<ExprView>::Ok((k, s1, e)),
        spec_call_args(t, i, s, acc) is Ok,
    ensures
        starts_with(spec_call_args(t, i, s, acc)->Ok_0.2.0, acc.0 + e.0 + "\n"@),
        starts_with(spec_call_args(t, i, s, acc)->Ok_0.2.1, acc.1 + e.1),
        e.0.len() == 0 || declares(acc.0 + e.0, e.1),
{
    lemma_expr_computes(t, i, s);
    if e.0.len() != 0 {
        lemma_declares_extend(acc.0, e.0, seq![], e.1);
        assert(acc.0 + e.0 + seq![] =~= acc.0 + e.0);
    }
    let code = acc.0 + e.0 + "\n"@;
    let call = acc.1 + e.1;
    assert(code.subrange(0, code.len() as int) =~= code);
    assert(call.subrange(0, call.len() as int) =~= call);
    if tok(t, k) is Comma {
        lemma_call_args_keep_code(t, k + 1, s1, (code, call + ", "@));
        lemma_starts_with_append(call, call, ", "@);
        lemma_starts_with_trans(spec_call_args(t, i, s, acc)->Ok_0.2.1, call + ", "@, call);
    }
}

/// A call `f(args)`: the code of its arguments comes first, then the
/// declaration of a fresh temporary and the `%call` into it, which names
/// the call.
pub proof fn lemma_call_code(t: Seq<TokenView>, i: int, s: ParseState)
    requires
        tok(t, i) is Ident,
        tok(t, i + 1) is LeftParen,
        spec_term(t, i, s) is Ok,
    ensures
        ({
            let f = tok(t, i)->Ident_0;
            let (k, s1, args) = spec_call_args(t, i + 2, s, (seq![], f + "("@))->Ok_0;
            let n = temp_name(s1.temps);
            &&& spec_call_args(t, i + 2, s, (seq![], f + "("@)) is Ok
            &&& spec_term(t, i, s) == Parsed::<ExprView>::Ok(
                (k + 1, new_temp(s1).1, (args.0 + "%int "@ + n + "\n%call "@ + n + ", "@ + args.1 + ")\n"@, n)),
            )
        }),
{
    let f = tok(t, i)->Ident_0;
    let (k, s1, args) = spec_call_args(t, i + 2, s, (seq![], f + "("@))->Ok_0;
    let n = temp_name(s1.temps);
    reveal_strlit(")");
    reveal_strlit("\n");
    reveal_strlit(")\n");
    assert(args.0 + ("%int "@ + n + "\n%call "@ + n + ", "@ + (args.1 + ")"@) + "\n"@)
        =~= args.0 + "%int "@ + n + "\n%call "@ + n + ", "@ + args.1 + ")\n"@);
}

/// A call with one argument, `f(e)`: its code is the argument's code, a
/// line break, then the declaration of a fresh temporary and
/// `%call t, f(name(e))`.
#[verifier::rlimit(40)]
pub proof fn lemma_call_with_one_argument(t: Seq<TokenView>, i: int, s: ParseState)
    requires
        tok(t, i) is Ident,
        tok(t, i + 1) is LeftParen,
        spec_expr(t, i + 2, s) is Ok,
        tok(t, spec_expr(t, i + 2, s)->Ok_0.0) is RightParen,
        has_func(spec_expr(t, i + 2, s)->Ok_0.1.funcs, tok(t, i)->Ident_0),
    ensures
        ({
            let f = tok(t, i)->Ident_0;
            let (k, s1, e) = spec_expr(t, i + 2, s)->Ok_0;
            let n = temp_name(s1.temps);
            spec_term(t, i, s) == Parsed::<ExprView>::Ok(
                (k + 1, new_temp(s1).1, (e.0 + "\n"@ + "%int "@ + n + "\n%call "@ + n + ", "@ + f + "("@ + e.1 + ")\n"@, n)),
            )
        }),
{
    let f = tok(t, i)->Ident_0;
    let (k, s1, e) = spec_expr(t, i + 2, s)->Ok_0;
    let n = temp_name(s1.temps);
    let acc: ExprView = (seq![], f + "("@);
    let args: ExprView = (acc.0 + e.0 + "\n"@, acc.1 + e.1);
    assert(!(tok(t, i + 2) is RightParen)) by {
        if tok(t, i + 2) is RightParen {
            assert(spec_term(t, i + 2, s) is Err);
            assert(spec_mult(t, i + 2, s) is Err);
        }
    }
    assert(spec_call_args(t, i + 2, s, acc) == Parsed::<ExprView>::Ok((k, s1, args))) by {
        lemma_expr_bounds(t, i + 2, s);
    }
    let line = "%int "@ + n + "\n%call "@ + n + ", "@ + (args.1 + ")"@) + "\n"@;
    assert(spec_term(t, i, s) == Parsed::<ExprView>::Ok((k + 1, new_temp(s1).1, (args.0 + line, n))));
    assert(args.0 + line =~= e.0 + "\n"@ + "%int "@ + n + "\n%call "@ + n + ", "@ + f + "("@ + e.1 + ")\n"@) by {
        reveal_strlit(")");
        reveal_strlit("\n");
        reveal_strlit(")\n");
        assert(acc.0 + e.0 + "\n"@ =~= e.0 + "\n"@);
    }
}

/// An array element `a[e]` of a declared array compiles to the declaration
/// of a fresh temporary and `%mov t, [a + name(e)]`; the code of the offset
/// `e` is not emitted.
pub proof fn lemma_element_read_code(t: Seq<TokenView>, i: int, s: ParseState)
    requires
        tok(t, i) is Ident,
        tok(t, i + 1) is LeftBracket,
        spec_expr(t, i + 2, s) is Ok,
        tok(t, spec_expr(t, i + 2, s)->Ok_0.0) is RightBracket,
        has_symbol(spec_expr(t, i + 2, s)->Ok_0.1.syms, tok(t, i)->Ident_0, "array"@),
    ensures
        ({
            let a = tok(t, i)->Ident_0;
            let (k, s1, e) = spec_expr(t, i + 2, s)->Ok_0;
            let n = temp_name(s1.temps);
            spec_term(t, i, s) == Parsed::<ExprView>::Ok(
                (k + 1, new_temp(s1).1, ("%int "@ + n + "\n%mov "@ + n + ", "@ + ("["@ + a + " + "@ + e.1 + "]\n"@), n)),
            )
        }),
{
}

/// The simple terms: a number is its own decimal notation and an `int`
/// variable (or function name) its own name, with no code; a parenthesized
/// expression is the expression itself, the closing parenthesis read.
pub proof fn lemma_simple_terms(t: Seq<TokenView>, i: int, s: ParseState)
    ensures
        tok(t, i) is Num ==> spec_term(t, i, s) == Parsed::<ExprView>::Ok(
            (i + 1, s, (seq![], signed_decimal(tok(t, i)->Num_0 as int))),
        ),
        tok(t, i) is Ident && !(tok(t, i + 1) is LeftBracket) && !(tok(t, i + 1) is LeftParen) ==> ({
            let x = tok(t, i)->Ident_0;
            &&& (has_symbol(s.syms, x, "int"@) || has_func(s.funcs, x)) ==> spec_term(t, i, s)
                == Parsed::<ExprView>::Ok((i + 1, s, (seq![], x)))
            &&& !(has_symbol(s.syms, x, "int"@) || has_func(s.funcs, x)) ==> spec_term(t, i, s)
                == Parsed::<ExprView>::Err((i + 1, s, "Semantic Error: function / identifier int not found"@))
        }),
        tok(t, i) is LeftParen && spec_expr(t, i + 1, s) is Ok && tok(t, spec_expr(t, i + 1, s)->Ok_0.0) is RightParen
            ==> ({
            let (k, s1, e) = spec_expr(t, i + 1, s)->Ok_0;
            spec_term(t, i, s) == Parsed::<ExprView>::Ok((k + 1, s1, e))
        }),
{
}

/// A comparison `e1 op e2` compiles to the declaration of a fresh temporary
/// and `%q t, name(e1), name(e2)`, `q` naming the comparison; the code of the
/// operands is not emitted.
pub proof fn lemma_comparison_code(t: Seq<TokenView>, i: int, s: ParseState)
    requires
        spec_expr(t, i, s) is Ok,
        comparison(tok(t, spec_expr(t, i, s)->Ok_0.0)) is Some,
        spec_expr(t, spec_expr(t, i, s)->Ok_0.0 + 1, spec_expr(t, i, s)->Ok_0.1) is Ok,
    ensures
        ({
            let (j, s1, e1) = spec_expr(t, i, s)->Ok_0;
            let q = comparison(tok(t, j))->Some_0;
            let (k, s2, e2) = spec_expr(t, j + 1, s1)->Ok_0;
            let n = temp_name(s2.temps);
            spec_bool(t, i, s) == Parsed::<ExprView>::Ok(
                (k, new_temp(s2).1, ("%int "@ + n + "\n%"@ + q + " "@ + n + ", "@ + e1.1 + ", "@ + e2.1, n)),
            )
        }),
{
    reveal(spec_bool);
}

/// `code` declares the temporary `n`: the line `%int n` stands in it.
pub open spec fn declares(code: Seq<char>, n: Seq<char>) -> bool {
    exists|p: int|
        0 <= p && p + ("%int "@ + n + "\n"@).len() <= code.len() && #[trigger] code.subrange(
            p,
            p + ("%int "@ + n + "\n"@).len(),
        ) == "%int "@ + n + "\n"@
}

/// The value of an expression is computed by its own code: either it has no
/// code (a variable or a number), or its code declares the name that holds
/// its value.
pub open spec fn computes(e: ExprView) -> bool {
    e.0.len() == 0 || declares(e.0, e.1)
}

/// What a piece of code declares stays declared with code put before it or
/// after it.
pub proof fn lemma_declares_extend(a: Seq<char>, b: Seq<char>, c: Seq<char>, n: Seq<char>)
    requires
        declares(b, n),
    ensures
        declares(a + b + c, n),
{
    let d = "%int "@ + n + "\n"@;
    let p = choose|p: int| 0 <= p && p + d.len() <= b.len() && #[trigger] b.subrange(p, p + d.len()) == d;
    let q = a.len() + p;
    assert((a + b + c).subrange(q, q + d.len()) =~= b.subrange(p, p + d.len()));
}

/// Code that begins with `%int n` and a line break declares `n`.
pub proof fn lemma_declares_first_line(n: Seq<char>, rest: Seq<char>)
    ensures
        declares("%int "@ + n + "\n"@ + rest, n),
{
    let d = "%int "@ + n + "\n"@;
    let code = d + rest;
    let p: int = 0;
    assert(code.subrange(p, p + d.len()) =~= d);
}

/// The code of an array element declares the temporary that receives it.
proof fn lemma_element_code_declares(tn: Seq<char>, a: Seq<char>, off: Seq<char>)
    ensures
        declares("%int "@ + tn + "\n%mov "@ + tn + ", "@ + ("["@ + a + " + "@ + off + "]\n"@), tn),
{
    let rest = "%mov "@ + tn + ", "@ + ("["@ + a + " + "@ + off + "]\n"@);
    lemma_declares_first_line(tn, rest);
    reveal_strlit("\n%mov ");
    reveal_strlit("%mov ");
    reveal_strlit("\n");
    assert("%int "@ + tn + "\n%mov "@ + tn + ", "@ + ("["@ + a + " + "@ + off + "]\n"@) =~= "%int "@ + tn + "\n"@ + rest);
}

/// The code of a call declares the temporary that receives its result.
proof fn lemma_call_code_declares(args: Seq<char>, tn: Seq<char>, call: Seq<char>)
    ensures
        declares(args + ("%int "@ + tn + "\n%call "@ + tn + ", "@ + call + "\n"@), tn),
{
    let rest = "%call "@ + tn + ", "@ + call + "\n"@;
    lemma_declares_first_line(tn, rest);
    reveal_strlit("\n%call ");
    reveal_strlit("%call ");
    reveal_strlit("\n");
    let line = "%int "@ + tn + "\n%call "@ + tn + ", "@ + call + "\n"@;
    assert(line =~= "%int "@ + tn + "\n"@ + rest);
    lemma_declares_extend(args, line, seq![], tn);
    assert(args + line + seq![] =~= args + line);
}

/// The instruction combining two operands declares its destination.
pub proof fn lemma_op_instr_declares(op: Seq<char>, dest: Seq<char>, a: Seq<char>, b: Seq<char>)
    ensures
        declares(op_instr(op, dest, a, b), dest),
{
    let rest = op + " "@ + dest + ", "@ + a + ", "@ + b + "\n"@;
    lemma_declares_first_line(dest, rest);
    assert(op_instr(op, dest, a, b) =~= "%int "@ + dest + "\n"@ + rest);
}

/// Each further factor of a product makes a value computed by the product's
/// code so far.
pub proof fn lemma_mult_rest_computes(t: Seq<TokenView>, i: int, s: ParseState, acc: ExprView)
    requires
        computes(acc),
        spec_mult_rest(t, i, s, acc) is Ok,
    ensures
        computes(spec_mult_rest(t, i, s, acc)->Ok_0.2),
    decreases t.len() - i,
{
    if let Some(op) = mult_op(tok(t, i)) {
        if let Ok((j, s1, e)) = spec_term(t, i + 1, s) {
            let (tn, s2) = new_temp(s1);
            let instr = op_instr(op, tn, acc.1, e.1);
            lemma_op_instr_declares(op, tn, acc.1, e.1);
            lemma_declares_extend(acc.0 + e.0, instr, seq![], tn);
            assert(acc.0 + e.0 + instr + seq![] =~= acc.0 + e.0 + instr);
            lemma_mult_rest_computes(t, j, s2, (acc.0 + e.0 + instr, tn));
        }
    }
}

/// Each further summand of a sum makes a value computed by the sum's code so
/// far.
pub proof fn lemma_expr_rest_computes(t: Seq<TokenView>, i: int, s: ParseState, acc: ExprView)
    requires
        computes(acc),
        spec_expr_rest(t, i, s, acc) is Ok,
    ensures
        computes(spec_expr_rest(t, i, s, acc)->Ok_0.2),
    decreases t.len() - i,
{
    if let Some(op) = add_op(tok(t, i)) {
        if let Ok((j, s1, e)) = spec_mult(t, i + 1, s) {
            let (tn, s2) = new_temp(s1);
            let instr = op_instr(op, tn, acc.1, e.1);
            lemma_op_instr_declares(op, tn, acc.1, e.1);
            lemma_declares_extend(acc.0 + e.0, instr, seq![], tn);
            assert(acc.0 + e.0 + instr + seq![] =~= acc.0 + e.0 + instr);
            lemma_expr_rest_computes(t, j, s2, (acc.0 + e.0 + instr, tn));
        }
    }
}

/// The value of a term is computed by the term's own code.
pub proof fn lemma_term_computes(t: Seq<TokenView>, i: int, s: ParseState)
    requires
        spec_term(t, i, s) is Ok,
    ensures
        computes(spec_term(t, i, s)->Ok_0.2),
    decreases t.len() - i, 0int,
{
    match tok(t, i) {
        TokenView::Ident(d) => match tok(t, i + 1) {
            TokenView::LeftBracket => {
                let (k, s1, inside) = spec_expr(t, i + 2, s)->Ok_0;
                lemma_element_code_declares(temp_name(s1.temps), d, inside.1);
            },
            TokenView::LeftParen => {
                let (k, s1, acc) = spec_call_args(t, i + 2, s, (seq![], d + "("@))->Ok_0;
                lemma_call_code_declares(acc.0, temp_name(s1.temps), acc.1 + ")"@);
            },
            _ => {},
        },
        TokenView::LeftParen => {
            lemma_expr_computes(t, i + 1, s);
        },
        _ => {},
    }
}

/// The value of a product is computed by the product's own code.
pub proof fn lemma_mult_computes(t: Seq<TokenView>, i: int, s: ParseState)
    requires
        spec_mult(t, i, s) is Ok,
    ensures
        computes(spec_mult(t, i, s)->Ok_0.2),
    decreases t.len() - i, 1int,
{
    let (j, s1, e) = spec_term(t, i, s)->Ok_0;
    lemma_term_computes(t, i, s);
    lemma_mult_rest_computes(t, j, s1, e);
}

/// The value of an expression is computed by the expression's own code:
/// either the expression has no code (a variable or a number), or its code
/// declares the name that holds its value.
pub proof fn lemma_expr_computes(t: Seq<TokenView>, i: int, s: ParseState)
    requires
        spec_expr(t, i, s) is Ok,
    ensures
        computes(spec_expr(t, i, s)->Ok_0.2),
    decreases t.len() - i, 2int,
{
    let (j, s1, e) = spec_mult(t, i, s)->Ok_0;
    lemma_mult_computes(t, i, s);
    lemma_expr_rest_computes(t, j, s1, e);
}

/// Parsing read at least one token and stopped at a well-placed position.
pub open spec fn advanced(t: Seq<TokenView>, i0: int, i1: int, st: ParseState) -> bool {
    i0 < i1 && well_placed(t, i1, st)
}

/// Only the temporary counter changed.
pub open spec fn only_temps_changed(
    syms0: Vec<(String, String)>,
    ctx0: CompilerState,
    syms1: Vec<(String, String)>,
    ctx1: CompilerState,
) -> bool {
    &&& syms1 == syms0
    &&& ctx1.func_table == ctx0.func_table
    &&& ctx1.while_count == ctx0.while_count
    &&& ctx1.if_count == ctx0.if_count
}

fn op_instruction(op: &str, dest: &String, a: &String, b: &String) -> (s: String)
    ensures
        s@ == op_instr(op@, dest@, a@, b@),
{
    let mut instr = String::from_str("%int ");
    instr.append(dest.as_str());
    instr.append("\n");
    instr.append(op);
    instr.append(" ");
    instr.append(dest.as_str());
    instr.append(", ");
    instr.append(a.as_str());
    instr.append(", ");
    instr.append(b.as_str());
    instr.append("\n");
    instr
}

fn element_code(tn: &String, array: &String, offset: &String) -> (s: String)
    ensures
        s@ == "%int "@ + tn@ + "\n%mov "@ + tn@ + ", "@ + ("["@ + array@ + " + "@ + offset@ + "]\n"@),
{
    let mut instr = String::from_str("[");
    instr.append(array.as_str());
    instr.append(" + ");
    instr.append(offset.as_str());
    instr.append("]\n");
    let mut code = String::from_str("%int ");
    code.append(tn.as_str());
    code.append("\n%mov ");
    code.append(tn.as_str());
    code.append(", ");
    code.append(instr.as_str());
    code
}

fn call_line(tn: &String, call: &String) -> (s: String)
    ensures
        s@ == "%int "@ + tn@ + "\n%call "@ + tn@ + ", "@ + call@ + "\n"@,
{
    let mut line = String::from_str("%int ");
    line.append(tn.as_str());
    line.append("\n%call ");
    line.append(tn.as_str());
    line.append(", ");
    line.append(call.as_str());
    line.append("\n");
    line
}

/// The arguments of a call, up to the closing parenthesis.
fn parse_call_args(
    tokens: &Vec<Token>,
    index: &mut usize,
    symbol_table: &mut Vec<(String, String)>,
    ctx: &mut CompilerState,
    code0: String,
    call0: String,
) -> (r: Result<Expression, String>)
    requires
        well_placed(tokens.deep_view(), *old(index) as int, state_of(*old(symbol_table), *old(ctx))),
    ensures
        *old(index) <= *final(index) < tokens.len(),
        outcome_matches(
            r,
            *final(index) as int,
            state_of(*final(symbol_table), *final(ctx)),
            spec_call_args(
                tokens.deep_view(),
                *old(index) as int,
                state_of(*old(symbol_table), *old(ctx)),
                (code0@, call0@),
            ),
        ),
        r is Ok ==> *old(index) <= *final(index) && tok(tokens.deep_view(), *final(index) as int) is RightParen
            && well_placed(tokens.deep_view(), *final(index) as int, state_of(*final(symbol_table), *final(ctx))),
        only_temps_changed(*old(symbol_table), *old(ctx), *final(symbol_table), *final(ctx)),
        temp_steps(old(ctx).temp_count, final(ctx).temp_count) <= *final(index) - *old(index),
    decreases tokens.len() - *old(index), 4int,
{
    let ghost t = tokens.deep_view();
    let ghost i0 = *index as int;
    let ghost s0 = state_of(*symbol_table, *ctx);
    let ghost a0 = (code0@, call0@);
    let mut code = code0;
    let mut call = call0;
    loop
        invariant
            t == tokens.deep_view(),
            i0 == *old(index) as int,
            s0 == state_of(*old(symbol_table), *old(ctx)),
            a0 == (code0@, call0@),
            well_placed(t, *index as int, state_of(*symbol_table, *ctx)),
            i0 <= *index,
            spec_call_args(t, *index as int, state_of(*symbol_table, *ctx), (code@, call@))
                == spec_call_args(t, i0, s0, a0),
            only_temps_changed(*old(symbol_table), *old(ctx), *symbol_table, *ctx),
            temp_steps(old(ctx).temp_count, ctx.temp_count) <= *index - i0,
        ensures
            tok(t, *index as int) is RightParen,
            well_placed(t, *index as int, state_of(*symbol_table, *ctx)),
            i0 <= *index,
            spec_call_args(t, *index as int, state_of(*symbol_table, *ctx), (code@, call@))
                == spec_call_args(t, i0, s0, a0),
            only_temps_changed(*old(symbol_table), *old(ctx), *symbol_table, *ctx),
            temp_steps(old(ctx).temp_count, ctx.temp_count) <= *index - i0,
        decreases tokens.len() - *index,
    {
        if matches!(tokens[*index], Token::RightParen) {
            break;
        }
        let inside = match parse_expression(tokens, index, symbol_table, ctx) {
            Ok(e) => e,
            Err(e) => return Err(e),
        };
        code.append(inside.code.as_str());
        code.append("\n");
        call.append(inside.name.as_str());
        match &tokens[*index] {
            Token::Comma => {
                *index += 1;
                call.append(", ");
            },
            Token::RightParen => {},
            _ => {
                return Err(String::from_str("Parser Error: invalid function call"));
            },
        }
    }
    Ok(Expression { code, name: call })
}

/// An array element `a[e]` at `*index`.
fn parse_element(
    tokens: &Vec<Token>,
    index: &mut usize,
    symbol_table: &mut Vec<(String, String)>,
    ctx: &mut CompilerState,
    dest: &String,
) -> (r: Result<Expression, String>)
    requires
        well_placed(tokens.deep_view(), *old(index) as int, state_of(*old(symbol_table), *old(ctx))),
        tok(tokens.deep_view(), *old(index) as int) == TokenView::Ident(dest@),
        tok(tokens.deep_view(), *old(index) + 1) is LeftBracket,
    ensures
        *old(index) <= *final(index) < tokens.len(),
        outcome_matches(
            r,
            *final(index) as int,
            state_of(*final(symbol_table), *final(ctx)),
            spec_term(tokens.deep_view(), *old(index) as int, state_of(*old(symbol_table), *old(ctx))),
        ),
        r is Ok ==> advanced(
            tokens.deep_view(),
            *old(index) as int,
            *final(index) as int,
            state_of(*final(symbol_table), *final(ctx)),
        ),
        only_temps_changed(*old(symbol_table), *old(ctx), *final(symbol_table), *final(ctx)),
        temp_steps(old(ctx).temp_count, final(ctx).temp_count) <= *final(index) - *old(index),
    decreases tokens.len() - *old(index), 0int,
{
    *index += 2;
    let inside = match parse_expression(tokens, index, symbol_table, ctx) {
        Ok(e) => e,
        Err(e) => return Err(e),
    };
    match &tokens[*index] {
        Token::RightBracket => {
            *index += 1;
            if !find_symbol(symbol_table, dest, "array") {
                return Err(String::from_str("Semantic Error: array not found"));
            }
            let tn = create_temp(ctx);
            let code = element_code(&tn, dest, &inside.name);
            Ok(Expression { code, name: tn })
        },
        _ => Err(String::from_str("Parser Error: missing right bracket ']'")),
    }
}

/// A function call `f(e, ...)` at `*index`.
fn parse_call(
    tokens: &Vec<Token>,
    index: &mut usize,
    symbol_table: &mut Vec<(String, String)>,
    ctx: &mut CompilerState,
    dest: &String,
) -> (r: Result<Expression, String>)
    requires
        well_placed(tokens.deep_view(), *old(index) as int, state_of(*old(symbol_table), *old(ctx))),
        tok(tokens.deep_view(), *old(index) as int) == TokenView::Ident(dest@),
        tok(tokens.deep_view(), *old(index) + 1) is LeftParen,
    ensures
        *old(index) <= *final(index) < tokens.len(),
        outcome_matches(
            r,
            *final(index) as int,
            state_of(*final(symbol_table), *final(ctx)),
            spec_term(tokens.deep_view(), *old(index) as int, state_of(*old(symbol_table), *old(ctx))),
        ),
        r is Ok ==> advanced(
            tokens.deep_view(),
            *old(index) as int,
            *final(index) as int,
            state_of(*final(symbol_table), *final(ctx)),
        ),
        only_temps_changed(*old(symbol_table), *old(ctx), *final(symbol_table), *final(ctx)),
        temp_steps(old(ctx).temp_count, final(ctx).temp_count) <= *final(index) - *old(index),
    decreases tokens.len() - *old(index), 0int,
{
    *index += 2;
    let mut call = dest.clone();
    call.append("(");
    let args = match parse_call_args(tokens, index, symbol_table, ctx, String::new(), call) {
        Ok(a) => a,
        Err(e) => return Err(e),
    };
    *index += 1;
    let mut call = args.name;
    call.append(")");
    if !find_func(&ctx.func_table, dest) {
        return Err(String::from_str("Semantic Error: function not found"));
    }
    let tn = create_temp(ctx);
    let line = call_line(&tn, &call);
    let mut code = args.code;
    code.append(line.as_str());
    Ok(Expression { code, name: tn })
}

/// Parses a term at `*index`.
#[verifier::rlimit(50)]
pub fn parse_term(
    tokens: &Vec<Token>,
    index: &mut usize,
    symbol_table: &mut Vec<(String, String)>,
    ctx: &mut CompilerState,
) -> (r: Result<Expression, String>)
    requires
        well_placed(tokens.deep_view(), *old(index) as int, state_of(*old(symbol_table), *old(ctx))),
    ensures
        *old(index) <= *final(index) < tokens.len(),
        outcome_matches(
            r,
            *final(index) as int,
            state_of(*final(symbol_table), *final(ctx)),
            spec_term(tokens.deep_view(), *old(index) as int, state_of(*old(symbol_table), *old(ctx))),
        ),
        r is Ok ==> advanced(
            tokens.deep_view(),
            *old(index) as int,
            *final(index) as int,
            state_of(*final(symbol_table), *final(ctx)),
        ),
        only_temps_changed(*old(symbol_table), *old(ctx), *final(symbol_table), *final(ctx)),
        temp_steps(old(ctx).temp_count, final(ctx).temp_count) <= *final(index) - *old(index),
    decreases tokens.len() - *old(index), 1int,
{
    match &tokens[*index] {
        Token::Ident(dest) => {
            match &tokens[*index + 1] {
                Token::LeftBracket => parse_element(tokens, index, symbol_table, ctx, dest),
                Token::LeftParen => parse_call(tokens, index, symbol_table, ctx, dest),
                _ => {
                    *index += 1;
                    if !find_symbol(symbol_table, dest, "int") && !find_func(&ctx.func_table, dest) {
                        return Err(String::from_str("Semantic Error: function / identifier int not found"));
                    }
                    Ok(Expression { code: String::new(), name: dest.clone() })
                },
            }
        },
        Token::Num(val) => {
            *index += 1;
            Ok(Expression { code: String::new(), name: i32_to_decimal(*val) })
        },
        Token::LeftParen => {
            *index += 1;
            let e = match parse_expression(tokens, index, symbol_table, ctx) {
                Ok(e) => e,
                Err(e) => return Err(e),
            };
            match &tokens[*index] {
                Token::RightParen => {
                    *index += 1;
                    Ok(e)
                },
                _ => Err(String::from_str("Parser Error: missing right parenthesis ')'")),
            }
        },
        _ => Err(String::from_str("Parser Error: missing expression term.")),
    }
}

/// Parses a product of terms at `*index`.
pub fn parse_multiply_expression(
    tokens: &Vec<Token>,
    index: &mut usize,
    symbol_table: &mut Vec<(String, String)>,
    ctx: &mut CompilerState,
) -> (r: Result<Expression, String>)
    requires
        well_placed(tokens.deep_view(), *old(index) as int, state_of(*old(symbol_table), *old(ctx))),
    ensures
        *old(index) <= *final(index) < tokens.len(),
        outcome_matches(
            r,
            *final(index) as int,
            state_of(*final(symbol_table), *final(ctx)),
            spec_mult(tokens.deep_view(), *old(index) as int, state_of(*old(symbol_table), *old(ctx))),
        ),
        r is Ok ==> advanced(
            tokens.deep_view(),
            *old(index) as int,
            *final(index) as int,
            state_of(*final(symbol_table), *final(ctx)),
        ),
        only_temps_changed(*old(symbol_table), *old(ctx), *final(symbol_table), *final(ctx)),
        temp_steps(old(ctx).temp_count, final(ctx).temp_count) <= *final(index) - *old(index),
        r is Ok ==> mult_op(tok(tokens.deep_view(), *final(index) as int)) is None,
    decreases tokens.len() - *old(index), 2int,
{
    let ghost t = tokens.deep_view();
    let ghost i0 = *index as int;
    let ghost s0 = state_of(*symbol_table, *ctx);
    let mut expression = match parse_term(tokens, index, symbol_table, ctx) {
        Ok(e) => e,
        Err(e) => return Err(e),
    };
    loop
        invariant
            t == tokens.deep_view(),
            i0 == *old(index) as int,
            s0 == state_of(*old(symbol_table), *old(ctx)),
            well_placed(t, *index as int, state_of(*symbol_table, *ctx)),
            i0 < *index,
            spec_mult_rest(t, *index as int, state_of(*symbol_table, *ctx), expression@)
                == spec_mult(t, i0, s0),
            only_temps_changed(*old(symbol_table), *old(ctx), *symbol_table, *ctx),
            temp_steps(old(ctx).temp_count, ctx.temp_count) <= *index - i0,
        ensures
            mult_op(tok(t, *index as int)) is None,
            well_placed(t, *index as int, state_of(*symbol_table, *ctx)),
            i0 < *index,
            spec_mult_rest(t, *index as int, state_of(*symbol_table, *ctx), expression@)
                == spec_mult(t, i0, s0),
            only_temps_changed(*old(symbol_table), *old(ctx), *symbol_table, *ctx),
            temp_steps(old(ctx).temp_count, ctx.temp_count) <= *index - i0,
        decreases tokens.len() - *index,
    {
        let op: &str = match tokens[*index] {
            Token::Multiply => "%mult",
            Token::Divide => "%div",
            Token::Modulus => "%mod",
            _ => {
                break;
            },
        };
        *index += 1;
        let term = match parse_term(tokens, index, symbol_table, ctx) {
            Ok(e) => e,
            Err(e) => return Err(e),
        };
        expression.code.append(term.code.as_str());
        let tn = create_temp(ctx);
        let instr = op_instruction(op, &tn, &expression.name, &term.name);
        expression.code.append(instr.as_str());
        expression.name = tn;
    }
    Ok(expression)
}

/// Parses a sum of products at `*index`.
pub fn parse_expression(
    tokens: &Vec<Token>,
    index: &mut usize,
    symbol_table: &mut Vec<(String, String)>,
    ctx: &mut CompilerState,
) -> (r: Result<Expression, String>)
    requires
        well_placed(tokens.deep_view(), *old(index) as int, state_of(*old(symbol_table), *old(ctx))),
    ensures
        *old(index) <= *final(index) < tokens.len(),
        outcome_matches(
            r,
            *final(index) as int,
            state_of(*final(symbol_table), *final(ctx)),
            spec_expr(tokens.deep_view(), *old(index) as int, state_of(*old(symbol_table), *old(ctx))),
        ),
        r is Ok ==> advanced(
            tokens.deep_view(),
            *old(index) as int,
            *final(index) as int,
            state_of(*final(symbol_table), *final(ctx)),
        ),
        only_temps_changed(*old(symbol_table), *old(ctx), *final(symbol_table), *final(ctx)),
        temp_steps(old(ctx).temp_count, final(ctx).temp_count) <= *final(index) - *old(index),
        r is Ok ==> add_op(tok(tokens.deep_view(), *final(index) as int)) is None && mult_op(
            tok(tokens.deep_view(), *final(index) as int),
        ) is None,
    decreases tokens.len() - *old(index), 3int,
{
    let ghost t = tokens.deep_view();
    let ghost i0 = *index as int;
    let ghost s0 = state_of(*symbol_table, *ctx);
    let mut expr = match parse_multiply_expression(tokens, index, symbol_table, ctx) {
        Ok(e) => e,
        Err(e) => return Err(e),
    };
    loop
        invariant
            t == tokens.deep_view(),
            i0 == *old(index) as int,
            s0 == state_of(*old(symbol_table), *old(ctx)),
            well_placed(t, *index as int, state_of(*symbol_table, *ctx)),
            i0 < *index,
            mult_op(tok(t, *index as int)) is None,
            spec_expr_rest(t, *index as int, state_of(*symbol_table, *ctx), expr@)
                == spec_expr(t, i0, s0),
            only_temps_changed(*old(symbol_table), *old(ctx), *symbol_table, *ctx),
            temp_steps(old(ctx).temp_count, ctx.temp_count) <= *index - i0,
        ensures
            add_op(tok(t, *index as int)) is None,
            well_placed(t, *index as int, state_of(*symbol_table, *ctx)),
            i0 < *index,
            mult_op(tok(t, *index as int)) is None,
            spec_expr_rest(t, *index as int, state_of(*symbol_table, *ctx), expr@)
                == spec_expr(t, i0, s0),
            only_temps_changed(*old(symbol_table), *old(ctx), *symbol_table, *ctx),
            temp_steps(old(ctx).temp_count, ctx.temp_count) <= *index - i0,
        decreases tokens.len() - *index,
    {
        let opcode: &str = match tokens[*index] {
            Token::Plus => "%add",
            Token::Subtract => "%sub",
            _ => {
                break;
            },
        };
        *index += 1;
        let m_expr = match parse_multiply_expression(tokens, index, symbol_table, ctx) {
            Ok(e) => e,
            Err(e) => return Err(e),
        };
        let tn = create_temp(ctx);
        let instr = op_instruction(opcode, &tn, &expr.name, &m_expr.name);
        expr.code.append(m_expr.code.as_str());
        expr.code.append(instr.as_str());
        expr.name = tn;
    }
    Ok(expr)
}


fn comparison_code(tn: &String, inequality: &str, first: &String, second: &String) -> (s: String)
    ensures
        s@ == "%int "@ + tn@ + "\n%"@ + inequality@ + " "@ + tn@ + ", "@ + first@ + ", "@ + second@,
{
    let mut code = String::from_str("%int ");
    code.append(tn.as_str());
    code.append("\n%");
    code.append(inequality);
    code.append(" ");
    code.append(tn.as_str());
    code.append(", ");
    code.append(first.as_str());
    code.append(", ");
    code.append(second.as_str());
    code
}

/// Parses a comparison `e1 op e2` at `*index`.
#[verifier::rlimit(50)]
pub fn parse_bool_expression(
    tokens: &Vec<Token>,
    index: &mut usize,
    symbol_table: &mut Vec<(String, String)>,
    ctx: &mut CompilerState,
) -> (r: Result<Expression, String>)
    requires
        well_placed(tokens.deep_view(), *old(index) as int, state_of(*old(symbol_table), *old(ctx))),
    ensures
        *old(index) <= *final(index) < tokens.len(),
        outcome_matches(
            r,
            *final(index) as int,
            state_of(*final(symbol_table), *final(ctx)),
            spec_bool(tokens.deep_view(), *old(index) as int, state_of(*old(symbol_table), *old(ctx))),
        ),
        r is Ok ==> advanced(
            tokens.deep_view(),
            *old(index) as int,
            *final(index) as int,
            state_of(*final(symbol_table), *final(ctx)),
        ),
        only_temps_changed(*old(symbol_table), *old(ctx), *final(symbol_table), *final(ctx)),
        temp_steps(old(ctx).temp_count, final(ctx).temp_count) <= *final(index) - *old(index),
        r matches Ok(e) ==> exists|n: usize|
            #[trigger] temp_name(n) == e.name@ && final(ctx).temp_count == next_count(n),
{
    reveal(spec_bool);
    let first_term = match parse_expression(tokens, index, symbol_table, ctx) {
        Ok(e) => e.name,
        Err(e) => return Err(e),
    };
    let inequality: &str = match tokens[*index] {
        Token::Greater => "gt",
        Token::Less => "lt",
        Token::LessEqual => "le",
        Token::GreaterEqual => "ge",
        Token::NotEqual => "neq",
        Token::Equality => "eq",
        _ => {
            return Err(String::from_str("Parser Error: inequality sign missing"));
        },
    };
    assert(*index < tokens.len());
    *index += 1;
    let second_term = match parse_expression(tokens, index, symbol_table, ctx) {
        Ok(e) => e.name,
        Err(e) => return Err(e),
    };
    let ghost count = ctx.temp_count;
    let tn = create_temp(ctx);
    assert(temp_name(count) == tn@);
    let code = comparison_code(&tn, inequality, &first_term, &second_term);
    Ok(Expression { code, name: tn })
}

} // verus!
