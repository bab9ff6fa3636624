use minicomp::lexer::lex;
use minicomp::program::{parse_function, parse_program};
use minicomp::expr::{parse_bool_expression, parse_expression, parse_multiply_expression, parse_term};
use minicomp::state::{at_end, create_temp, find_func, find_symbol, CompilerState};
use minicomp::stmt::{
    parse_assignment_statement, parse_declaration_statement, parse_if_else_statement, parse_print_statement,
    parse_read_statement, parse_return_statement, parse_statement, parse_While_loop,
};
use minicomp::token::Token;

fn compile(src: &str) -> Result<String, String> {
    let tokens = lex(src).unwrap();
    let mut index = 0;
    let mut ctx = fresh();
    parse_program(&tokens, &mut index, &mut ctx)
}

fn fresh() -> CompilerState {
    CompilerState { func_table: vec![], temp_count: 0, while_count: 0, if_count: 0 }
}

fn syms(entries: &[(&str, &str)]) -> Vec<(String, String)> {
    entries.iter().map(|(a, b)| (a.to_string(), b.to_string())).collect()
}

#[test]
fn program_with_arithmetic() {
    let ir = compile("func main() { int a; a = 1 + 2; print(a); }").unwrap();
    assert_eq!(ir, "%func main()\n%int a\n%int t0\n%add t0, 1, 2\n%mov a, t0\n%out a\n%endfunc\n\n");
}

#[test]
fn program_with_while_loop() {
    let ir = compile("func main() { int i; i = 0; while i < 3 { i = i + 1; } }").unwrap();
    assert_eq!(
        ir,
        "%func main()\n%int i\n%mov i, 0\n:loopbegin1\n%int t0\n%lt t0, i, 3\n%branch_ifn t0, :endloop1\n\
         %int t1\n%add t1, i, 1\n%mov i, t1\n%jmp :loopbegin1\n:endloop1\n%endfunc\n\n"
    );
}

#[test]
fn program_with_if_else() {
    let ir = compile("func main() { int a; if a == 1 { a = 2; } else { a = 3; } }").unwrap();
    assert_eq!(
        ir,
        "%func main()\n%int a\n%int t0\n%eq t0, a, 1\n%branch_if t0, :iftrue1\n%jmp :else1\n:iftrue1\n\
         %mov a, 2\n%jmp :endif1\n:else1\n%mov a, 3\n:endif1\n%endfunc\n\n"
    );
}

#[test]
fn program_with_if_without_else() {
    let ir = compile("func main() { int a; if a != 0 { print(a); } }").unwrap();
    assert_eq!(
        ir,
        "%func main()\n%int a\n%int t0\n%neq t0, a, 0\n%branch_if t0, :iftrue1\n%jmp :else1\n:iftrue1\n\
         %out a\n%jmp :endif1\n:else1\n:endif1\n%endfunc\n\n"
    );
}

#[test]
fn program_with_call() {
    let ir = compile("func f(int x) { return x; } func main() { int a; a = f(1); }").unwrap();
    assert_eq!(
        ir,
        "%func f(%int x)\n%ret x\n%endfunc\n\n%func main()\n%int a\n\n%int t0\n%call t0, f(1)\n%mov a, t0\n%endfunc\n\n"
    );
}

#[test]
fn program_with_arrays() {
    let ir = compile("func main() { int [4] arr; arr[0] = 5; print(arr[1]); }").unwrap();
    assert_eq!(
        ir,
        "%func main()\n%int[] arr, 4\n%mov [arr + 0], 5\n%int t0\n%mov t0, [arr + 1]\n%out t0\n%endfunc\n\n"
    );
}

#[test]
fn program_with_array_parameter_and_read() {
    let ir = compile("func main(int [2] a, int b) { read b; }").unwrap();
    assert_eq!(ir, "%func main(%int[] a, 2, %int b)\n%input b\n%endfunc\n\n");
}

#[test]
fn program_with_precedence() {
    let ir = compile("func main() { int a; a = 1 + 2 * 3 - 4 % 2; }").unwrap();
    assert_eq!(
        ir,
        "%func main()\n%int a\n%int t0\n%mult t0, 2, 3\n%int t1\n%add t1, 1, t0\n%int t2\n%mod t2, 4, 2\n\
         %int t3\n%sub t3, t1, t2\n%mov a, t3\n%endfunc\n\n"
    );
}

#[test]
fn program_with_break_and_continue() {
    let ir = compile("func main() { while 1 < 2 { break; continue; } }").unwrap();
    assert_eq!(
        ir,
        "%func main()\n:loopbegin1\n%int t0\n%lt t0, 1, 2\n%branch_ifn t0, :endloop1\n%jmp :endloop1\n\
         %jmp :loopbegin1\n:endloop1\n%endfunc\n\n"
    );
}

#[test]
fn program_errors() {
    assert_eq!(compile("func f() { }").unwrap_err(), "Semantic Error: main doesn't exists");
    assert_eq!(compile("").unwrap_err(), "Semantic Error: main doesn't exists");
    assert_eq!(compile("int a;").unwrap_err(), "Parser Error: functions must begin with func");
    assert_eq!(compile("func () {}").unwrap_err(), "Parser Error: functions must have a function identifier");
    assert_eq!(
        compile("func main() {} func main() {}").unwrap_err(),
        "Semantic Error: {identifier_name} func already exists"
    );
    assert_eq!(compile("func main {}").unwrap_err(), "Parser Error: expected '('");
    assert_eq!(compile("func main() int").unwrap_err(), "Parser Error: expected '{'");
    assert_eq!(
        compile("func main(a) {}").unwrap_err(),
        "Parser Error: Declaration statements must being with 'int' keyword"
    );
    assert_eq!(compile("func main(int a b) {}").unwrap_err(), "Parser Error: invalid function call");
    assert_eq!(
        compile("func main(int a, int a) {}").unwrap_err(),
        "Semantic Error: found duplicate variable {ident}"
    );
    assert_eq!(
        compile("func main(int [x] a) {}").unwrap_err(),
        "Parser Error: Declaration statements for array number missing"
    );
    assert_eq!(
        compile("func main(int [2 a) {}").unwrap_err(),
        "Parser Error: Declaration statements for array rightBracket missing"
    );
    assert_eq!(
        compile("func main(int [2] 3) {}").unwrap_err(),
        "Parser Error: Declaration statements for array identifier missing"
    );
    assert_eq!(
        compile("func main(int ;) {}").unwrap_err(),
        "Parser Error: Declarations must have an identifier or array size declaration"
    );
}

#[test]
fn statement_errors() {
    assert_eq!(compile("func main() { ; }").unwrap_err(), "Parser Error: invalid statement");
    assert_eq!(compile("func main() { break; }").unwrap_err(), "Parser Error: Break called out of while loop");
    assert_eq!(
        compile("func main() { continue; }").unwrap_err(),
        "Parser Error: Continue called out of while loop"
    );
    assert_eq!(
        compile("func main() { while 1 < 2 { break } }").unwrap_err(),
        "Parser Error: Missing SemiColon"
    );
    assert_eq!(
        compile("func main() { int [0] a; }").unwrap_err(),
        "Semantic Error: can't have an array of size 0 or lower"
    );
    assert_eq!(
        compile("func main() { int a }").unwrap_err(),
        "Parser Error: Statements must end with a semicolon"
    );
    assert_eq!(
        compile("func main() { int a; int a; }").unwrap_err(),
        "Semantic Error: found duplicate variable {ident}"
    );
    assert_eq!(
        compile("func main() { a = 1; }").unwrap_err(),
        "Semantic Error: {ident} doesn't exist / undeclared / mismatched types (not int)"
    );
    assert_eq!(
        compile("func main() { int a; a[0] = 1; }").unwrap_err(),
        "Semantic Error: {ident} doesn't exist / undeclared / mismatched type (not array)"
    );
    assert_eq!(compile("func main() { int a; a 1; }").unwrap_err(), "Parser Error: missing '='");
    assert_eq!(compile("func main() { int [2] a; a[0 = 1; }").unwrap_err(), "Parser Error: missing right bracket ']'");
    assert_eq!(compile("func main() { int [2] a; a[0] 1; }").unwrap_err(), "Parser Error: missing '='");
    assert_eq!(compile("func main() { int a; a = 1 }").unwrap_err(), "Parser Error: Missing SemiColon");
    assert_eq!(
        compile("func main() { return 1 }").unwrap_err(),
        "Parser Error: Statement is missing the '=' operator"
    );
    assert_eq!(
        compile("func main() { while 1 { } }").unwrap_err(),
        "Parser Error: inequality sign missing"
    );
    assert_eq!(compile("func main() { while 1 < 2 x }").unwrap_err(), "Parser Error: expected '{'");
    assert_eq!(compile("func main() { if 1 < 2 x }").unwrap_err(), "Parser Error: expected '{'");
    assert_eq!(compile("func main() { if 1 < 2 { } else x }").unwrap_err(), "Parser Error: expected '{'");
}

#[test]
fn expression_errors() {
    assert_eq!(
        compile("func main() { print(b); }").unwrap_err(),
        "Semantic Error: function / identifier int not found"
    );
    assert_eq!(compile("func main() { print(b[0]); }").unwrap_err(), "Semantic Error: array not found");
    assert_eq!(compile("func main() { print(g(1)); }").unwrap_err(), "Semantic Error: function not found");
    assert_eq!(compile("func main() { print(+); }").unwrap_err(), "Parser Error: missing expression term.");
    assert_eq!(
        compile("func main() { print((1; }").unwrap_err(),
        "Parser Error: missing right parenthesis ')'"
    );
    assert_eq!(
        compile("func main() { int [2] b; print(b[1; }").unwrap_err(),
        "Parser Error: missing right bracket ']'"
    );
    assert_eq!(compile("func main() { print(main(1 2)); }").unwrap_err(), "Parser Error: invalid function call");
}

#[test]
fn term_kinds() {
    let tokens = lex("42 x ; (7)").unwrap();
    let mut st = syms(&[("x", "int")]);
    let mut ctx = fresh();
    let mut index = 0;
    let e = parse_term(&tokens, &mut index, &mut st, &mut ctx).unwrap();
    assert_eq!((e.code.as_str(), e.name.as_str(), index), ("", "42", 1));
    let e = parse_term(&tokens, &mut index, &mut st, &mut ctx).unwrap();
    assert_eq!((e.code.as_str(), e.name.as_str(), index), ("", "x", 2));
    index = 3;
    let e = parse_term(&tokens, &mut index, &mut st, &mut ctx).unwrap();
    assert_eq!((e.code.as_str(), e.name.as_str(), index), ("", "7", 6));
    assert_eq!(ctx.temp_count, 0);
}

#[test]
fn negative_number_term() {
    let tokens = vec![Token::Num(-12), Token::End];
    let mut st = vec![];
    let mut ctx = fresh();
    let mut index = 0;
    let e = parse_term(&tokens, &mut index, &mut st, &mut ctx).unwrap();
    assert_eq!(e.name, "-12");
}

#[test]
fn multiply_expression() {
    let tokens = lex("a * 2 / b ;").unwrap();
    let mut st = syms(&[("a", "int"), ("b", "int")]);
    let mut ctx = fresh();
    let mut index = 0;
    let e = parse_multiply_expression(&tokens, &mut index, &mut st, &mut ctx).unwrap();
    assert_eq!(e.code, "%int t0\n%mult t0, a, 2\n%int t1\n%div t1, t0, b\n");
    assert_eq!(e.name, "t1");
    assert_eq!(index, 5);
    assert_eq!(ctx.temp_count, 2);
}

#[test]
fn expression_stops_before_other_tokens() {
    let tokens = lex("a - 1 ;").unwrap();
    let mut st = syms(&[("a", "int")]);
    let mut ctx = fresh();
    ctx.temp_count = 7;
    let mut index = 0;
    let e = parse_expression(&tokens, &mut index, &mut st, &mut ctx).unwrap();
    assert_eq!(e.code, "%int t7\n%sub t7, a, 1\n");
    assert_eq!(e.name, "t7");
    assert_eq!(index, 3);
    assert_eq!(ctx.temp_count, 8);
}

#[test]
fn bool_expression_forms() {
    for (src, op) in [("1 > 2", "gt"), ("1 < 2", "lt"), ("1 <= 2", "le"), ("1 >= 2", "ge"), ("1 != 2", "neq"), ("1 == 2", "eq")] {
        let tokens = lex(src).unwrap();
        let mut st = vec![];
        let mut ctx = fresh();
        let mut index = 0;
        let e = parse_bool_expression(&tokens, &mut index, &mut st, &mut ctx).unwrap();
        assert_eq!(e.code, format!("%int t0\n%{} t0, 1, 2", op));
        assert_eq!(e.name, "t0");
    }
}

#[test]
fn bool_expression_keeps_only_names() {
    let tokens = lex("1 + 1 < 3").unwrap();
    let mut st = vec![];
    let mut ctx = fresh();
    let mut index = 0;
    let e = parse_bool_expression(&tokens, &mut index, &mut st, &mut ctx).unwrap();
    assert_eq!(e.code, "%int t1\n%lt t1, t0, 3");
}

#[test]
fn temp_counter_wraps() {
    let mut ctx = fresh();
    assert_eq!(create_temp(&mut ctx), "t0");
    assert_eq!(create_temp(&mut ctx), "t1");
    assert_eq!(ctx.temp_count, 2);
    ctx.temp_count = usize::MAX;
    let last = create_temp(&mut ctx);
    assert_eq!(last, format!("t{}", usize::MAX));
    assert_eq!(ctx.temp_count, 0);
    assert_ne!(last, create_temp(&mut ctx));
}

#[test]
fn successive_temps_differ() {
    let mut ctx = fresh();
    ctx.temp_count = 9;
    let a = create_temp(&mut ctx);
    let b = create_temp(&mut ctx);
    assert_eq!(a, "t9");
    assert_eq!(b, "t10");
    assert_ne!(a, b);
}

#[test]
fn table_lookups() {
    let st = syms(&[("a", "int"), ("b", "array")]);
    assert!(find_symbol(&st, &"a".to_string(), "int"));
    assert!(!find_symbol(&st, &"a".to_string(), "array"));
    assert!(find_symbol(&st, &"b".to_string(), "array"));
    assert!(!find_symbol(&st, &"c".to_string(), "int"));
    let funcs = vec!["main".to_string(), "f".to_string()];
    assert!(find_func(&funcs, &"f".to_string()));
    assert!(!find_func(&funcs, &"g".to_string()));
    assert!(!find_func(&vec![], &"main".to_string()));
}

#[test]
fn end_marker() {
    let tokens = lex("x").unwrap();
    assert!(!at_end(&tokens, 0));
    assert!(at_end(&tokens, 1));
}

#[test]
fn statement_functions_directly() {
    let tokens = lex("int x; x = 3; return x; print x; read x;").unwrap();
    let mut st = vec![];
    let mut ctx = fresh();
    let mut index = 0;
    assert_eq!(parse_declaration_statement(&tokens, &mut index, &mut st, &mut ctx).unwrap(), "%int x\n");
    assert_eq!(st, syms(&[("x", "int")]));
    assert_eq!(parse_assignment_statement(&tokens, &mut index, &mut st, &mut ctx).unwrap(), "%mov x, 3\n");
    assert_eq!(parse_return_statement(&tokens, &mut index, &mut st, &mut ctx).unwrap(), "%ret x\n");
    assert_eq!(parse_print_statement(&tokens, &mut index, &mut st, &mut ctx).unwrap(), "%out x\n");
    assert_eq!(parse_read_statement(&tokens, &mut index, &mut st, &mut ctx).unwrap(), "%input x\n");
    assert!(at_end(&tokens, index));
}

#[test]
fn statement_functions_reject_wrong_start() {
    let tokens = lex("x ;").unwrap();
    let mut st = vec![];
    let mut ctx = fresh();
    let mut index = 0;
    assert_eq!(
        parse_declaration_statement(&tokens, &mut index, &mut st, &mut ctx).unwrap_err(),
        "Parser Error: Declaration statements must being with 'int' keyword"
    );
    let mut index = 0;
    assert_eq!(
        parse_return_statement(&tokens, &mut index, &mut st, &mut ctx).unwrap_err(),
        "Parser Error: Return statements must being with a return keyword"
    );
    let mut index = 0;
    assert_eq!(
        parse_print_statement(&tokens, &mut index, &mut st, &mut ctx).unwrap_err(),
        "Parser Error: Return statements must being with a return keyword"
    );
    let mut index = 0;
    assert_eq!(
        parse_read_statement(&tokens, &mut index, &mut st, &mut ctx).unwrap_err(),
        "Parser Error: Return statements must being with a return keyword"
    );
    let tokens = lex("1 ;").unwrap();
    let mut index = 0;
    assert_eq!(
        parse_assignment_statement(&tokens, &mut index, &mut st, &mut ctx).unwrap_err(),
        "Parser Error: Assignment statements must being with an identifier"
    );
    let mut index = 0;
    assert_eq!(
        parse_While_loop(&tokens, &mut index, &mut st, &mut ctx).unwrap_err(),
        "Parser Error: missing 'while'"
    );
    let mut index = 0;
    assert_eq!(
        parse_if_else_statement(&tokens, &mut index, &mut st, &mut ctx).unwrap_err(),
        "Parser Error: missing 'if'"
    );
    let mut index = 0;
    assert_eq!(
        parse_function(&tokens, &mut index, &mut st, &mut ctx).unwrap_err(),
        "Parser Error: functions must begin with func"
    );
}

#[test]
fn while_loop_restores_depth() {
    let tokens = lex("while 1 < 2 { while 2 < 3 { break; } break; }").unwrap();
    let mut st = vec![];
    let mut ctx = fresh();
    let mut index = 0;
    let code = parse_While_loop(&tokens, &mut index, &mut st, &mut ctx).unwrap();
    assert_eq!(ctx.while_count, 0);
    assert_eq!(
        code,
        ":loopbegin1\n%int t0\n%lt t0, 1, 2\n%branch_ifn t0, :endloop1\n:loopbegin2\n%int t1\n%lt t1, 2, 3\n\
         %branch_ifn t1, :endloop2\n%jmp :endloop2\n%jmp :loopbegin2\n:endloop2\n%jmp :endloop1\n\
         %jmp :loopbegin1\n:endloop1\n"
    );
}

#[test]
fn if_counter_keeps_growing() {
    let tokens = lex("if 1 < 2 { if 2 < 3 { } }").unwrap();
    let mut st = vec![];
    let mut ctx = fresh();
    let mut index = 0;
    let code = parse_statement(&tokens, &mut index, &mut st, &mut ctx).unwrap();
    assert_eq!(ctx.if_count, 2);
    assert_eq!(
        code,
        "%int t0\n%lt t0, 1, 2\n%branch_if t0, :iftrue1\n%jmp :else1\n:iftrue1\n\
         %int t1\n%lt t1, 2, 3\n%branch_if t1, :iftrue2\n%jmp :else2\n:iftrue2\n:else2\n:endif2\n\
         %jmp :endif2\n:else2\n:endif2\n"
    );
}

#[test]
fn function_clears_symbol_table() {
    let tokens = lex("func f(int a) { } func g(int a) { }").unwrap();
    let mut st = vec![];
    let mut ctx = fresh();
    let mut index = 0;
    assert_eq!(parse_function(&tokens, &mut index, &mut st, &mut ctx).unwrap(), "%func f(%int a)\n%endfunc\n\n");
    assert_eq!(parse_function(&tokens, &mut index, &mut st, &mut ctx).unwrap(), "%func g(%int a)\n%endfunc\n\n");
    assert_eq!(ctx.func_table, vec!["f".to_string(), "g".to_string()]);
    assert_eq!(st, syms(&[("a", "int")]));
}

#[test]
fn break_inside_a_loop_context() {
    let tokens = lex("break; continue;").unwrap();
    let mut st = vec![];
    let mut ctx = fresh();
    ctx.while_count = 3;
    let mut index = 0;
    assert_eq!(parse_statement(&tokens, &mut index, &mut st, &mut ctx).unwrap(), "%jmp :endloop3\n");
    assert_eq!(parse_statement(&tokens, &mut index, &mut st, &mut ctx).unwrap(), "");
    assert_eq!(index, 4);
    assert_eq!(ctx.while_count, 3);
}

#[test]
fn lexer_output_feeds_the_parser() {
    let tokens = lex("func main() { int x; read x; print(x * 2); }").unwrap();
    let mut index = 0;
    let mut ctx = fresh();
    let ir = parse_program(&tokens, &mut index, &mut ctx).unwrap();
    assert_eq!(index, tokens.len() - 1);
    assert_eq!(ir, "%func main()\n%int x\n%input x\n%int t0\n%mult t0, x, 2\n%out t0\n%endfunc\n\n");
}

#[test]
fn statement_before_closing_brace_is_empty() {
    let tokens = vec![Token::RightCurly, Token::End];
    let mut st = vec![];
    let mut ctx = fresh();
    let mut index = 0;
    assert_eq!(parse_statement(&tokens, &mut index, &mut st, &mut ctx).unwrap(), "");
    assert_eq!(index, 0);
}

#[test]
fn duplicate_function_leaves_table() {
    let tokens = lex("func f() { }").unwrap();
    let mut st = vec![];
    let mut ctx = fresh();
    ctx.func_table = vec!["f".to_string()];
    let mut index = 0;
    let e = parse_function(&tokens, &mut index, &mut st, &mut ctx).unwrap_err();
    assert_eq!(e, "Semantic Error: {identifier_name} func already exists");
    assert_eq!(ctx.func_table, vec!["f".to_string()]);
    assert_eq!(index, 2);
}

#[test]
fn function_error_before_func_changes_nothing() {
    let tokens = lex("int a").unwrap();
    let mut st = syms(&[("x", "int")]);
    let mut ctx = fresh();
    let mut index = 0;
    let e = parse_function(&tokens, &mut index, &mut st, &mut ctx).unwrap_err();
    assert_eq!(e, "Parser Error: functions must begin with func");
    assert_eq!(index, 0);
    assert_eq!(st, syms(&[("x", "int")]));
}

#[test]
fn declaration_errors_leave_table() {
    let tokens = vec![
        Token::Int,
        Token::LeftBracket,
        Token::Num(0),
        Token::RightBracket,
        Token::Ident("a".to_string()),
        Token::SemiColon,
        Token::End,
    ];
    let mut st = vec![];
    let mut ctx = fresh();
    let mut index = 0;
    let e = parse_declaration_statement(&tokens, &mut index, &mut st, &mut ctx).unwrap_err();
    assert_eq!(e, "Semantic Error: can't have an array of size 0 or lower");
    assert_eq!(st, vec![]);
    assert_eq!(index, 3);

    let tokens = lex("int a;").unwrap();
    let mut st = syms(&[("a", "int")]);
    let mut index = 0;
    let e = parse_declaration_statement(&tokens, &mut index, &mut st, &mut ctx).unwrap_err();
    assert_eq!(e, "Semantic Error: found duplicate variable {ident}");
    assert_eq!(st, syms(&[("a", "int")]));
    assert_eq!(index, 2);
}

#[test]
fn expression_errors_leave_counter() {
    let tokens = lex("1 ;").unwrap();
    let mut st = vec![];
    let mut ctx = fresh();
    let mut index = 0;
    let e = parse_bool_expression(&tokens, &mut index, &mut st, &mut ctx).unwrap_err();
    assert_eq!(e, "Parser Error: inequality sign missing");
    assert_eq!(index, 1);
    assert_eq!(ctx.temp_count, 0);

    let tokens = lex("2 * ;").unwrap();
    let mut index = 0;
    let e = parse_multiply_expression(&tokens, &mut index, &mut st, &mut ctx).unwrap_err();
    assert_eq!(e, "Parser Error: missing expression term.");
    assert_eq!(index, 2);
    assert_eq!(ctx.temp_count, 0);
}

#[test]
fn break_outside_loop_reads_nothing() {
    let tokens = lex("break;").unwrap();
    let mut st = vec![];
    let mut ctx = fresh();
    let mut index = 0;
    let e = parse_statement(&tokens, &mut index, &mut st, &mut ctx).unwrap_err();
    assert_eq!(e, "Parser Error: Break called out of while loop");
    assert_eq!(index, 0);
}

#[test]
fn assignment_missing_equals_stops_after_name() {
    let tokens = lex("a 1;").unwrap();
    let mut st = syms(&[("a", "int")]);
    let mut ctx = fresh();
    let mut index = 0;
    let e = parse_assignment_statement(&tokens, &mut index, &mut st, &mut ctx).unwrap_err();
    assert_eq!(e, "Parser Error: missing '='");
    assert_eq!(index, 1);
}

#[test]
fn compiler_state_carries_over_between_programs() {
    let mut ctx = fresh();
    let tokens = lex("func main() { int a; a = 1 + 2; if a < 3 { } }").unwrap();
    let mut index = 0;
    parse_program(&tokens, &mut index, &mut ctx).unwrap();
    assert_eq!(ctx.temp_count, 2);
    assert_eq!(ctx.if_count, 1);
    assert!(ctx.func_table.is_empty());
    let mut index = 0;
    let ir = parse_program(&tokens, &mut index, &mut ctx).unwrap();
    assert_eq!(
        ir,
        "%func main()\n%int a\n%int t2\n%add t2, 1, 2\n%mov a, t2\n%int t3\n%lt t3, a, 3\n\
         %branch_if t3, :iftrue2\n%jmp :else2\n:iftrue2\n:else2\n:endif2\n%endfunc\n\n"
    );
}

#[test]
fn failed_program_keeps_function_table() {
    let mut ctx = fresh();
    let tokens = lex("func f() { } func g() { } func f() { }").unwrap();
    let mut index = 0;
    let e = parse_program(&tokens, &mut index, &mut ctx).unwrap_err();
    assert_eq!(e, "Semantic Error: {identifier_name} func already exists");
    assert_eq!(ctx.func_table, vec!["f".to_string(), "g".to_string()]);
    let tokens = lex("func f() { }").unwrap();
    let mut index = 0;
    let e = parse_program(&tokens, &mut index, &mut ctx).unwrap_err();
    assert_eq!(e, "Semantic Error: {identifier_name} func already exists");
}

#[test]
fn temporaries_never_outnumber_tokens_read() {
    let tokens = lex("a + b * (c - 1) ;").unwrap();
    let mut st = syms(&[("a", "int"), ("b", "int"), ("c", "int")]);
    let mut ctx = fresh();
    ctx.temp_count = usize::MAX;
    let mut index = 0;
    let e = parse_expression(&tokens, &mut index, &mut st, &mut ctx).unwrap();
    assert_eq!(index, 9);
    assert_eq!(ctx.temp_count, 2);
    assert_eq!(e.name, "t1");
}
