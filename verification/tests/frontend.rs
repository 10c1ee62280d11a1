use rua::ast::{node_kind_name, Node, NodeKind, RuaError};
use rua::lexer::{lex_all, token_kind_name, TokenKind};
use rua::parser::Parser;

#[test]
fn lexes_a_declaration() {
    let toks = lex_all("变量 x = 12").unwrap();
    let kinds: Vec<TokenKind> = toks.iter().map(|t| t.kind).collect();
    assert_eq!(kinds, vec![TokenKind::Bian, TokenKind::Ident, TokenKind::Assign, TokenKind::Num, TokenKind::Eof]);
    assert_eq!(toks[3].num, 12);
    assert_eq!(toks[1].text.as_deref(), Some("x"));
}

#[test]
fn lexes_strings_and_comments() {
    let toks = lex_all("喵叫(\"a b\") # 注释\n返回").unwrap();
    assert_eq!(toks[0].kind, TokenKind::Miaojiao);
    assert_eq!(toks[2].kind, TokenKind::Str);
    assert_eq!(toks[2].text.as_deref(), Some("a b"));
    assert_eq!(toks[4].kind, TokenKind::Fanhui);
    assert_eq!(toks[4].line, 2);
}

#[test]
fn lexer_reports_an_unclosed_string() {
    let e = lex_all("喵叫(\"abc").unwrap_err();
    assert_eq!(e.line, 1);
}

#[test]
fn token_kind_names_are_readable() {
    assert!(!token_kind_name(TokenKind::Plus).is_empty());
    assert_ne!(token_kind_name(TokenKind::Plus), token_kind_name(TokenKind::Minus));
}

#[test]
fn parses_functions_apart_from_statements() {
    let toks = lex_all("喵 加(a, b) { 返回 a + b }\n喵叫(加(1, 2))").unwrap();
    let (prog, fns) = Parser::parse_tokens(toks).unwrap();
    assert_eq!(fns.len(), 1);
    assert_eq!(fns[0].kind(), NodeKind::Func);
    match &prog {
        Node::Prog { stmts } => {
            assert_eq!(stmts.len(), 1);
            assert_eq!(stmts[0].kind(), NodeKind::Call);
        }
        _ => panic!("not a program"),
    }
}

#[test]
fn parser_reports_a_missing_brace() {
    let toks = lex_all("如果 1 { 喵叫(1)").unwrap();
    assert!(Parser::parse_tokens(toks).is_err());
}

#[test]
fn binary_operators_follow_precedence() {
    let toks = lex_all("变量 x = 1 + 2 * 3").unwrap();
    let (prog, _) = Parser::parse_tokens(toks).unwrap();
    match &prog {
        Node::Prog { stmts } => match &stmts[0] {
            Node::Var { right, .. } => match right.as_ref() {
                Node::Binary { op, right, .. } => {
                    assert_eq!(*op, TokenKind::Plus);
                    assert_eq!(right.kind(), NodeKind::Binary);
                }
                _ => panic!("not a binary"),
            },
            _ => panic!("not a declaration"),
        },
        _ => panic!("not a program"),
    }
}

#[test]
fn error_report_names_the_line() {
    let e = RuaError::new(3, "未定义的变量");
    assert_eq!(e.report(), "第 3 行：未定义的变量");
    assert_eq!(node_kind_name(NodeKind::Call), "函数调用");
}
