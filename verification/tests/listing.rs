use rua::jit::JitLayout;
use rua::lexer::lex_all;
use rua::listing::{function_line, node_dump, token_line};
use rua::parser::Parser;
use rua::runtime::Runtime;

fn parse(src: &str) -> (rua::ast::Node, Vec<rua::ast::Node>) {
    Parser::parse_tokens(lex_all(src).unwrap()).unwrap()
}

#[test]
fn outline_of_a_program() {
    let (prog, _) = parse("变量 x = 1 + 2\n喵叫(\"hi\", x)");
    assert_eq!(
        node_dump(&prog, 0),
        "程序（2 条语句）\n  变量声明 x\n    二元运算 Plus\n      数字 1\n      数字 2\n  函数调用 喵叫\n    字符串 \"hi\"\n    变量引用 x\n"
    );
}

#[test]
fn outline_of_a_function_indented() {
    let (_, fns) = parse("喵 f(a, b) { 如果 a > b 那么 { 返回 a } 否则 { 返回 b } }");
    assert_eq!(
        node_dump(&fns[0], 1),
        "  函数定义 f（形参 [\"a\", \"b\"]）\n    代码块（1 条语句）\n      如果\n        二元运算 Gt\n          变量引用 a\n          变量引用 b\n        真分支\n        代码块（1 条语句）\n          返回\n            变量引用 a\n        假分支\n        代码块（1 条语句）\n          返回\n            变量引用 b\n"
    );
}

#[test]
fn token_lines() {
    let toks = lex_all("x = 7").unwrap();
    assert_eq!(token_line(0, &toks[0]), "[0] 行 1 标识符 \"x\" 数值=0");
    assert_eq!(token_line(2, &toks[2]), "[2] 行 1 数字 数值=7");
}

#[test]
fn function_lines() {
    let (_, fns) = parse("喵 f(a) { 返回 a }\n变量 g = 0\n喵 h() { 返回 g }");
    let layout = JitLayout {
        code_base: 0x1000,
        data_base: 0x2000,
        table_addr: 0x3000,
        print_addr: 0x4000,
        itoa_addr: 0x5000,
        scratch_addr: 0x6000,
        newline_addr: 0x7000,
        space_addr: 0x7002,
    };
    let rt = Runtime::build(&fns, true, &layout).unwrap();
    assert_eq!(function_line(&rt.fns[0], true), "函数 f（形参 [\"a\"]）→ JIT [0] / VM [0]");
    assert_eq!(function_line(&rt.fns[1], true), "函数 h（形参 []）→ 未 JIT / 解释");
    assert_eq!(function_line(&rt.fns[0], false), "函数 f（形参 [\"a\"]）→ 已关闭 / VM [0]");
}
