use rua::ast::RuaError;
use rua::jit::JitLayout;
use rua::lexer::{lex_all, TokenKind};
use rua::parser::Parser;
use rua::runtime::{apply_binop, num_val, Runtime, RunStep, Value};

fn layout() -> JitLayout {
    JitLayout {
        code_base: 0x1000,
        data_base: 0x2000,
        table_addr: 0x3000,
        print_addr: 0x4000,
        itoa_addr: 0x5000,
        scratch_addr: 0x6000,
        newline_addr: 0x7000,
        space_addr: 0x7002,
    }
}

/// Runs a program with machine code disabled; gives what it printed, or
/// the error it stopped with and what it printed before.
fn run_source(src: &str) -> (String, Option<RuaError>) {
    let toks = lex_all(src).unwrap();
    let (prog, fns) = Parser::parse_tokens(toks).unwrap();
    let rt = Runtime::build(&fns, false, &layout()).expect("code generation");
    let mut m = rt.run(&prog);
    let mut out = String::new();
    loop {
        match rt.exec(&mut m) {
            RunStep::Continue => {}
            RunStep::Print(s) => out.push_str(&s),
            RunStep::Native(..) => panic!("machine code is disabled"),
            RunStep::Done(_) => return (out, None),
            RunStep::Error(e) => return (out, Some(e)),
            RunStep::Fault => panic!("fault"),
        }
    }
}

#[test]
fn readme_example_concatenates() {
    let (out, err) = run_source("变量 number = \"10\"\n喵叫(10 + number)");
    assert!(err.is_none());
    assert_eq!(out, "1010\n");
}

#[test]
fn print_separates_arguments_with_spaces() {
    let (out, _) = run_source("喵叫(1, \"a\", 2 * 3)");
    assert_eq!(out, "1 a 6\n");
}

#[test]
fn recursion_through_the_bytecode_engine() {
    let src = "喵 fib(n) { 如果 n < 2 { 返回 n } 返回 fib(n - 1) + fib(n - 2) }\n喵叫(fib(15))";
    let (out, err) = run_source(src);
    assert!(err.is_none());
    assert_eq!(out, "610\n");
}

#[test]
fn interpreted_function_sees_caller_scope() {
    let src = "变量 g = 5\n喵 f(x) { 返回 x + g }\n喵叫(f(1))";
    let (out, _) = run_source(src);
    assert_eq!(out, "6\n");
}

#[test]
fn while_loop_counts() {
    let src = "变量 i = 0\n变量 s = 0\n当 i < 5 { s = s + i\n i = i + 1 }\n喵叫(s)";
    let (out, _) = run_source(src);
    assert_eq!(out, "10\n");
}

#[test]
fn assignment_then_read_gives_the_value() {
    let (out, _) = run_source("变量 x = 1\nx = 2\n喵叫(x)");
    assert_eq!(out, "2\n");
}

#[test]
fn arrays_share_elements() {
    let src = "数组 a[3] = {0}\n变量 b = a\nb[1] = 7\n喵叫(a[1], a[0])";
    let (out, _) = run_source(src);
    assert_eq!(out, "7 0\n");
}

#[test]
fn array_index_out_of_range_is_an_error() {
    let (_, err) = run_source("数组 a[2] = {0}\n喵叫(a[5])");
    let e = err.unwrap();
    assert_eq!(e.msg, "数组下标越界");
    assert_eq!(e.line, 2);
}

#[test]
fn undefined_variable_is_reported_at_line_zero() {
    let (_, err) = run_source("喵叫(y)");
    let e = err.unwrap();
    assert_eq!(e.msg, "未定义的变量");
    assert_eq!(e.line, 0);
}

#[test]
fn wrong_argument_count_is_an_error() {
    let (_, err) = run_source("喵 f(a) { 返回 a }\nf(1, 2)");
    assert_eq!(err.unwrap().msg, "函数参数数量不匹配");
}

#[test]
fn undefined_function_is_an_error() {
    let (_, err) = run_source("g(1)");
    assert_eq!(err.unwrap().msg, "未定义的函数");
}

#[test]
fn division_by_zero_in_the_bytecode_engine() {
    let (_, err) = run_source("喵 d(a) { 返回 10 / a }\n喵叫(d(0))");
    let e = err.unwrap();
    assert_eq!(e.msg, "不能除以 0");
    assert_eq!(e.line, 1);
}

#[test]
fn output_before_an_error_is_kept() {
    let (out, err) = run_source("喵叫(1)\n喵叫(2 - \"x\")");
    assert_eq!(out, "1\n");
    assert_eq!(err.unwrap().msg, "运算需要数字");
}

#[test]
fn binop_rules() {
    let r = apply_binop(TokenKind::Plus, &Value::Str("a".to_string()), &num_val(1), 1).unwrap();
    match r {
        Value::Str(s) => assert_eq!(s, "a1"),
        _ => panic!("not a string"),
    }
    let e = apply_binop(TokenKind::Percent, &num_val(1), &num_val(0), 4).unwrap_err();
    assert_eq!(e.msg, "不能取模 0");
    assert_eq!(e.line, 4);
    let e = apply_binop(TokenKind::Lt, &Value::Str("a".to_string()), &num_val(0), 2).unwrap_err();
    assert_eq!(e.msg, "比较需要数字");
    match apply_binop(TokenKind::Eqeq, &Value::Str("a".to_string()), &num_val(0), 2).unwrap() {
        Value::Num(n) => assert_eq!(n, 0),
        _ => panic!("not a number"),
    }
    match apply_binop(TokenKind::Plus, &num_val(i64::MAX), &num_val(1), 2).unwrap() {
        Value::Num(n) => assert_eq!(n, i64::MIN),
        _ => panic!("not a number"),
    }
    let e = apply_binop(TokenKind::Comma, &num_val(1), &num_val(1), 9).unwrap_err();
    assert_eq!(e.msg, "未知运算符");
}

#[test]
fn return_leaves_a_loop() {
    let src = "喵 f() { 变量 i = 0\n 当 1 { i = i + 1\n 如果 i == 3 { 返回 i } } }\n喵叫(f())";
    let (out, _) = run_source(src);
    assert_eq!(out, "3\n");
}

#[test]
fn build_stops_at_a_wide_call_in_machine_code() {
    let toks = lex_all("喵 f(a) { 返回 a }\n喵 g() { 返回 f(1, 2, 3, 4, 5, 6, 7) }").unwrap();
    let (_, fns) = Parser::parse_tokens(toks).unwrap();
    assert!(Runtime::build(&fns, true, &layout()).is_none());
    let toks = lex_all("喵 f(a) { 返回 a }\n喵 g() { 返回 f(1, 2) }").unwrap();
    let (_, fns) = Parser::parse_tokens(toks).unwrap();
    assert!(Runtime::build(&fns, true, &layout()).is_some());
}

#[test]
fn build_without_machine_code_keeps_every_function_off_the_jit() {
    let toks = lex_all("喵 f(a) { 返回 a }\n喵 g() { 返回 f(1, 2, 3, 4, 5, 6, 7) }").unwrap();
    let (_, fns) = Parser::parse_tokens(toks).unwrap();
    let rt = Runtime::build_without_machine_code(&fns, true);
    assert_eq!(rt.jit.len(), 0);
    assert!(rt.fns.iter().all(|f| f.jit.is_none()));
    assert_eq!(rt.fns[0].vm, Some(0));
}
