//! Parser state: the symbol table, the function table and the counters for
//! temporaries, loop depth and `if` labels, with the lookups on them.

use vstd::prelude::*;
use crate::token::{Token, TokenView};
use crate::text::{decimal, usize_to_decimal, lemma_decimal_injective};

verus! {

/// The compiler's running state beside the symbol table: the functions
/// defined so far, the counter for fresh temporaries, the depth of the
/// enclosing `while` loops and the number of `if` statements seen.
pub struct CompilerState {
    pub func_table: Vec<String>,
    pub temp_count: usize,
    pub while_count: usize,
    pub if_count: usize,
}

/// The mathematical state of the parser: the symbol table as
/// `(name, kind)` pairs and the compiler state.
pub struct ParseState {
    pub syms: Seq<(Seq<char>, Seq<char>)>,
    pub funcs: Seq<Seq<char>>,
    pub temps: usize,
    pub whiles: nat,
    pub ifs: nat,
}

pub open spec fn state_of(symbol_table: Vec<(String, String)>, ctx: CompilerState) -> ParseState {
    ParseState {
        syms: symbol_table.deep_view(),
        funcs: ctx.func_table.deep_view(),
        temps: ctx.temp_count,
        whiles: ctx.while_count as nat,
        ifs: ctx.if_count as nat,
    }
}

/// What a parsing function comes to: the position after what it read, the
/// new state and its output; or, on an error, the position and state at
/// which it stopped and the error message.
pub type Parsed<T> = Result<(int, ParseState, T), (int, ParseState, Seq<char>)>;

/// Stopping at position `i` in state `s` with the error `msg`.
pub open spec fn fail<T>(i: int, s: ParseState, msg: Seq<char>) -> Parsed<T> {
    Err((i, s, msg))
}

/// An executable parse result, with the index and state it left behind,
/// agrees with the mathematical one.
pub open spec fn outcome_matches<A: View>(
    r: Result<A, String>,
    index: int,
    st: ParseState,
    spec: Parsed<A::V>,
) -> bool {
    match spec {
        Ok((j, s, v)) => r matches Ok(a) && a@ == v && index == j && st == s,
        Err((j, s, m)) => r matches Err(e) && e@ == m && index == j && st == s,
    }
}

/// The positions that parsing functions start from: inside a token
/// sequence that ends with `End`, with room in the loop and `if` counters
/// for one more step per token left to read.
pub open spec fn well_placed(t: Seq<TokenView>, i: int, st: ParseState) -> bool {
    &&& t.len() > 0
    &&& t.last() is End
    &&& 0 <= i < t.len()
    &&& st.whiles + (t.len() - i) <= usize::MAX
    &&& st.ifs + (t.len() - i) <= usize::MAX
}

/// The generated code of an expression and the name that holds its value.
#[derive(Debug)]
pub struct Expression {
    pub code: String,
    pub name: String,
}

impl View for Expression {
    type V = (Seq<char>, Seq<char>);

    open spec fn view(&self) -> (Seq<char>, Seq<char>) {
        (self.code@, self.name@)
    }
}

pub open spec fn has_symbol(syms: Seq<(Seq<char>, Seq<char>)>, name: Seq<char>, kind: Seq<char>) -> bool {
    syms.contains((name, kind))
}

pub open spec fn has_func(funcs: Seq<Seq<char>>, name: Seq<char>) -> bool {
    funcs.contains(name)
}

/// The temporary counter after one more temporary (it wraps around).
pub open spec fn next_count(n: usize) -> usize {
    if n == usize::MAX {
        0
    } else {
        (n + 1) as usize
    }
}

/// How far the temporary counter moved forward from `a` to `b`, counting
/// the wrap from `usize::MAX` to 0 as one step.
pub open spec fn temp_steps(a: usize, b: usize) -> int {
    if a <= b {
        b - a
    } else {
        b + usize::MAX + 1 - a
    }
}

pub open spec fn temp_name(n: usize) -> Seq<char> {
    "t"@ + decimal(n as nat)
}

/// A fresh temporary: its name, and the state that counts it.
pub open spec fn new_temp(s: ParseState) -> (Seq<char>, ParseState) {
    (temp_name(s.temps), ParseState { temps: next_count(s.temps), ..s })
}

/// Temporaries made from different counts have different names; in
/// particular each call of `create_temp` gives a name other than the one
/// before it.
pub proof fn lemma_temp_names_distinct(a: usize, b: usize)
    requires
        a != b,
    ensures
        temp_name(a) != temp_name(b),
{
    lemma_decimal_injective(a as nat, b as nat);
    reveal_strlit("t");
    if temp_name(a) == temp_name(b) {
        assert(temp_name(a).subrange(1, temp_name(a).len() as int) =~= decimal(a as nat));
        assert(temp_name(b).subrange(1, temp_name(b).len() as int) =~= decimal(b as nat));
    }
}

/// The counter moves on with every temporary: `create_temp` never hands out
/// the name it handed out just before.
pub proof fn lemma_next_temp_is_fresh(n: usize)
    ensures
        temp_name(next_count(n)) != temp_name(n),
{
    lemma_temp_names_distinct(next_count(n), n);
}

/// Adding an element that is not there yet keeps a sequence free of repetitions.
pub proof fn lemma_push_fresh<A>(s: Seq<A>, x: A)
    requires
        s.no_duplicates(),
        !s.contains(x),
    ensures
        s.push(x).no_duplicates(),
{
    let p = s.push(x);
    assert forall|i: int, j: int| 0 <= i < p.len() && 0 <= j < p.len() && i != j implies p[i] != p[j] by {
        if i == s.len() {
            assert(p[j] == s[j]);
        } else if j == s.len() {
            assert(p[i] == s[i]);
        } else {
            assert(p[i] == s[i] && p[j] == s[j]);
        }
    }
}

/// Adds `(name, kind)` at the end of the symbol table.
pub(crate) fn add_symbol(symbol_table: &mut Vec<(String, String)>, name: String, kind: &str)
    ensures
        final(symbol_table).deep_view() == old(symbol_table).deep_view().push((name@, kind@)),
{
    let ghost entry = (name@, kind@);
    symbol_table.push((name, String::from_str(kind)));
    assert(symbol_table.deep_view() =~= old(symbol_table).deep_view().push(entry));
}

/// Whether the token at `index` is the end marker.
pub fn at_end(tokens: &Vec<Token>, index: usize) -> (b: bool)
    requires
        index < tokens.len(),
    ensures
        b == (tokens.deep_view()[index as int] is End),
{
    match tokens[index] {
        Token::End => true,
        _ => false,
    }
}

/// Whether the symbol table holds `symbol` with the kind `genre`.
pub fn find_symbol(symbol_table: &Vec<(String, String)>, symbol: &String, genre: &str) -> (b: bool)
    ensures
        b == has_symbol(symbol_table.deep_view(), symbol@, genre@),
{
    let kind = String::from_str(genre);
    let mut k: usize = 0;
    while k < symbol_table.len()
        invariant
            k <= symbol_table.len(),
            kind@ == genre@,
            forall|j: int| 0 <= j < k ==> symbol_table.deep_view()[j] != (symbol@, genre@),
        decreases symbol_table.len() - k,
    {
        if symbol_table[k].0.eq(symbol) && symbol_table[k].1.eq(&kind) {
            assert(symbol_table.deep_view()[k as int] == (symbol@, genre@));
            return true;
        }
        k = k + 1;
    }
    proof {
        if symbol_table.deep_view().contains((symbol@, genre@)) {
            let j = choose|j: int| 0 <= j < symbol_table.deep_view().len()
                && symbol_table.deep_view()[j] == (symbol@, genre@);
            assert(symbol_table.deep_view()[j] != (symbol@, genre@));
        }
    }
    false
}

/// Whether `symbol` names a function defined so far.
pub fn find_func(table: &Vec<String>, symbol: &String) -> (b: bool)
    ensures
        b == has_func(table.deep_view(), symbol@),
{
    let mut k: usize = 0;
    while k < table.len()
        invariant
            k <= table.len(),
            forall|j: int| 0 <= j < k ==> table.deep_view()[j] != symbol@,
        decreases table.len() - k,
    {
        if table[k].eq(symbol) {
            assert(table.deep_view()[k as int] == symbol@);
            return true;
        }
        k = k + 1;
    }
    proof {
        if table.deep_view().contains(symbol@) {
            let j = choose|j: int| 0 <= j < table.deep_view().len() && table.deep_view()[j] == symbol@;
            assert(table.deep_view()[j] != symbol@);
        }
    }
    false
}

/// A fresh temporary name `t<n>`, counting it.
pub fn create_temp(ctx: &mut CompilerState) -> (name: String)
    ensures
        name@ == temp_name(old(ctx).temp_count),
        final(ctx).temp_count == next_count(old(ctx).temp_count),
        temp_steps(old(ctx).temp_count, final(ctx).temp_count) == 1,
        final(ctx).func_table == old(ctx).func_table,
        final(ctx).while_count == old(ctx).while_count,
        final(ctx).if_count == old(ctx).if_count,
{
    let count = ctx.temp_count;
    ctx.temp_count = if count == usize::MAX {
        0
    } else {
        count + 1
    };
    let mut name = String::from_str("t");
    let digits = usize_to_decimal(count);
    name.append(digits.as_str());
    name
}

} // verus!
