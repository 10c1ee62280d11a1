use rua::jit::{compile_functions as jit_compile, plan_function, JitLayout};
use rua::lexer::lex_all;
use rua::native::rab::parse;
use rua::native::vm::{run, start, traced_step, RunEnd, Step};
use rua::parser::Parser;
use rua::vm::{compile_functions, dump_engine, invoke, invoke_step, VmStep};

fn functions(src: &str) -> Vec<rua::ast::Node> {
    let toks = lex_all(src).unwrap();
    Parser::parse_tokens(toks).unwrap().1
}

fn layout() -> JitLayout {
    JitLayout {
        code_base: 0x1000,
        data_base: 0x2000,
        table_addr: 0x3000,
        print_addr: 0x4000,
        itoa_addr: 0x5000,
        scratch_addr: 0x6000,
        newline_addr: 0x7000,
        space_addr: 0x7002,
    }
}

#[test]
fn vm_compiles_only_integer_functions() {
    let fns = functions("变量 g = 1\n喵 a(x) { 返回 x * 2 }\n喵 b() { 返回 g }\n喵 c() { 返回 b() }");
    let engine = compile_functions(&fns);
    assert_eq!(engine.len(), 1);
    assert_eq!(engine.get_idx(&"a".to_string()), Some(0));
    assert_eq!(engine.get_idx(&"b".to_string()), None);
    assert_eq!(engine.get_idx(&"c".to_string()), None);
    assert_eq!(engine.func_name(0), "a");
    assert_eq!(engine.func_name(7), "?");
}

#[test]
fn vm_listing() {
    let fns = functions("喵 a(x) { 返回 x + 1 }");
    let engine = compile_functions(&fns);
    let text = dump_engine(&engine);
    assert_eq!(
        text,
        "可 VM 函数 1 个\n函数[0] a：5 条指令\n     0: load v0\n     1: push 1\n     2: add\n     3: ret\n     4: ret\n"
    );
}

fn run_vm(src: &str, name: &str, args: Vec<i64>) -> (Vec<String>, VmStep) {
    let fns = functions(src);
    let engine = compile_functions(&fns);
    let idx = engine.get_idx(&name.to_string()).unwrap();
    let mut m = invoke(&engine, idx, &args).unwrap();
    let mut lines = Vec::new();
    loop {
        match invoke_step(&engine, &mut m) {
            VmStep::Continue => {}
            VmStep::Print(s) => lines.push(s),
            other => return (lines, other),
        }
    }
}

#[test]
fn vm_runs_mutual_recursion() {
    let src = "喵 even(n) { 如果 n == 0 { 返回 1 } 返回 odd(n - 1) }\n喵 odd(n) { 如果 n == 0 { 返回 0 } 返回 even(n - 1) }";
    let (_, end) = run_vm(src, "even", vec![10]);
    assert!(matches!(end, VmStep::Done(1)));
    let (_, end) = run_vm(src, "odd", vec![10]);
    assert!(matches!(end, VmStep::Done(0)));
}

#[test]
fn vm_prints_and_returns_zero_without_return() {
    let (lines, end) = run_vm("喵 p(x) { 喵叫(\"x=\", x) }", "p", vec![4]);
    assert_eq!(lines, vec!["x= 4".to_string()]);
    assert!(matches!(end, VmStep::Done(0)));
}

#[test]
fn vm_returns_zero_when_the_body_ends_in_an_expression() {
    let (lines, end) = run_vm("喵 f(a) { a + 1 }", "f", vec![5]);
    assert!(lines.is_empty());
    assert!(matches!(end, VmStep::Done(0)));
}

#[test]
fn vm_remainder_by_zero() {
    let (_, end) = run_vm("喵 m(x) { 返回 x % 0 }", "m", vec![3]);
    match end {
        VmStep::Error(e) => {
            assert_eq!(e.msg, "不能取模 0");
            assert_eq!(e.line, 1);
        }
        _ => panic!("no error"),
    }
}

#[test]
fn vm_entry_out_of_range() {
    let fns = functions("喵 a(x) { 返回 x }");
    let engine = compile_functions(&fns);
    let e = invoke(&engine, 5, &vec![]).err().unwrap();
    assert_eq!(e.msg, "未定义的函数");
}

#[test]
fn jit_plans_and_emits_a_prologue() {
    let fns = functions("喵 add(a, b) { 返回 a + b }\n喵 many(a, b, c, d, e, f, g) { 返回 a }");
    match &fns[0] {
        rua::ast::Node::Func { params, body, .. } => {
            let plan = plan_function(params, body).unwrap();
            assert_eq!(plan.param_count, 2);
            assert_eq!((plan.pushed_bytes + plan.frame_bytes) % 16, 8);
        }
        _ => panic!("not a function"),
    }
    match &fns[1] {
        rua::ast::Node::Func { params, body, .. } => assert!(plan_function(params, body).is_none()),
        _ => panic!("not a function"),
    }
    let engine = jit_compile(&fns, &layout()).unwrap();
    assert_eq!(engine.len(), 1);
    assert_eq!(engine.get_idx(&"add".to_string()), Some(0));
    assert_eq!(engine.entries[0], 0x1000);
    assert_eq!(&engine.code[0..4], &[0x55, 0x48, 0x8B, 0xEC]);
    assert_eq!(*engine.code.last().unwrap(), 0xC3);
}

#[test]
fn jit_lays_functions_out_one_after_another() {
    let fns = functions("喵 f() { 返回 7 }\n喵 g() { 8 }");
    let engine = jit_compile(&fns, &layout()).unwrap();
    assert_eq!(engine.len(), 2);
    assert_eq!(engine.entries[0], 0x1000);
    assert_eq!(&engine.code[0..4], &[0x55u8, 0x48, 0x8B, 0xEC][..]);
    let second = engine.entries[1] - 0x1000;
    assert_eq!(engine.code[second - 1], 0xC3);
    assert_eq!(&engine.code[second..second + 4], &[0x55u8, 0x48, 0x8B, 0xEC][..]);
    assert_eq!(*engine.code.last().unwrap(), 0xC3);
}

#[test]
fn jit_puts_print_literals_in_the_data_buffer() {
    let fns = functions("喵 p() { 喵叫(\"hi\", \"hi\") }");
    let engine = jit_compile(&fns, &layout()).unwrap();
    assert_eq!(engine.data, b"hi\0".to_vec());
}

#[test]
fn jit_refuses_a_call_with_seven_arguments() {
    let fns = functions("喵 f(a) { 返回 a }\n喵 g() { 返回 f(1, 2, 3, 4, 5, 6, 7) }");
    assert!(jit_compile(&fns, &layout()).is_none());
}

#[test]
fn jit_skips_a_wide_call_outside_compiled_functions() {
    let fns = functions("喵 f(a, b, c, d, e, h, k) { 返回 a }\n喵 g() { 返回 f(1, 2, 3, 4, 5, 6, 7) }\n喵 s(x) { 返回 x }");
    let engine = jit_compile(&fns, &layout()).unwrap();
    assert_eq!(engine.len(), 1);
    assert_eq!(engine.get_idx(&"s".to_string()), Some(0));
    assert_eq!(engine.get_idx(&"g".to_string()), None);
}

fn rab(code: &[u8]) -> Vec<u8> {
    let mut d = Vec::new();
    d.extend_from_slice(b"RUA\0");
    d.extend_from_slice(&1i32.to_le_bytes());
    d.extend_from_slice(&1i32.to_le_bytes());
    d.extend_from_slice(&42i32.to_le_bytes());
    d.extend_from_slice(&1i32.to_le_bytes());
    d.extend_from_slice(&2i32.to_le_bytes());
    d.extend_from_slice(b"hi");
    d.extend_from_slice(&0i32.to_le_bytes());
    d.extend_from_slice(&4i32.to_le_bytes());
    d.extend_from_slice(b"main");
    d.extend_from_slice(&(code.len() as i32).to_le_bytes());
    d.extend_from_slice(code);
    d
}

#[test]
fn rab_parses_and_runs() {
    let code = [
        0x01, 1, 0, 0, 0, 0, 0, 0, 0x12, 0, 1, 0, 0, 0, 0, 0, 0x02, 2, 0, 0, 0, 0, 0, 0, 0x12, 0, 2, 0, 0, 0, 0, 0, 0x00,
    ];
    let p = parse(&rab(&code)).unwrap();
    assert_eq!(p.constants, vec![42]);
    assert_eq!(p.strings, vec!["hi".to_string()]);
    assert_eq!(p.entry_point, "main");
    let rep = run(&p, 100).unwrap();
    assert_eq!(rep.output, vec!["42".to_string(), "hi".to_string()]);
    assert!(matches!(rep.end, RunEnd::Halted));
}

#[test]
fn rab_refuses_a_bad_magic() {
    let mut d = rab(&[0x00]);
    d[0] = b'X';
    assert!(parse(&d).is_err());
}

#[test]
fn rab_runner_refuses_empty_code() {
    let p = parse(&rab(&[])).unwrap();
    assert_eq!(start(&p).err().unwrap().message, "字节码为空");
    assert!(run(&p, 10).is_err());
}

#[test]
fn rab_runner_stops_at_the_budget() {
    let code = [0x0D, 0, 0, 0, 0xF8, 0xFF, 0xFF, 0xFF];
    let p = parse(&rab(&code)).unwrap();
    let rep = run(&p, 5).unwrap();
    assert!(matches!(rep.end, RunEnd::OutOfSteps));
}

#[test]
fn vm_listing_quotes_string_literals() {
    let fns = functions("喵 p() { 喵叫(\"a\\\"b\") }");
    let engine = compile_functions(&fns);
    let text = dump_engine(&engine);
    assert!(text.contains("pushstr \"a\\\"b\""), "{}", text);
    assert!(text.contains("call 喵叫 (1 args)"), "{}", text);
}

#[test]
fn rab_trace_lines_and_limit() {
    let code = [
        0x01, 1, 0, 0, 0, 0, 0, 0, 0x12, 0, 1, 0, 0, 0, 0, 0, 0x00,
    ];
    let p = parse(&rab(&code)).unwrap();
    let mut m = start(&p).unwrap();
    let head = format!("[TRACE] ip=   0 op=0x01 sp={} fp={} fsp={} cp={}", m.sp, m.fp, m.fsp, m.cp);
    let (lines, s) = traced_step(&mut m, &p, 0);
    assert_eq!(lines, vec![head, "[TRACE]     rd=1 rs1=0(=0) rs2=0(=0) extra=0".to_string()]);
    assert!(matches!(s, Step::Continue));
    let (lines, s) = traced_step(&mut m, &p, 1);
    assert_eq!(lines.len(), 1);
    assert!(lines[0].starts_with("[TRACE] ip=   8 op=0x12 "), "{}", lines[0]);
    assert!(matches!(s, Step::Print(ref t) if t == "42"));
    let (lines, s) = traced_step(&mut m, &p, 2000);
    assert_eq!(lines, vec!["[TRACE] 超过 2000 步，终止（疑似死循环）".to_string()]);
    match s {
        Step::Error(e) => assert_eq!(e.message, "trace 步数超限"),
        _ => panic!("no limit error"),
    }
}
