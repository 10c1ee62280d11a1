//! The parser: tokens to a syntax tree, by recursive descent.
//!
//! Binary operators are parsed by precedence climbing (`== !=` 1, comparisons
//! 2, `+ -` 3, `* / %` 4, all left associative); an expression followed by
//! `=` is an assignment. Statements are dispatched on their first keyword;
//! top-level `喵` definitions are collected apart from the program's
//! statements.
use vstd::prelude::*;
use crate::ast::{err_view, kind_of, lemma_ident_view, line_of, nodes_view, ErrorView, Node, NodeKind, NodeView, RuaError};
use crate::lexer::{Token, TokenKind, TokenView};

verus! {

/// The parser state: the tokens (which must contain an `Eof` at or after the
/// position) and the position of the next token.
pub struct Parser {
    toks: Vec<Token>,
    pos: usize,
}

// ---------------------------------------------------------------------
// The grammar, as functions of the token sequence.
// ---------------------------------------------------------------------

pub type PResult = Result<(NodeView, int), ErrorView>;

/// The views of a token list.
pub open spec fn tview(v: Seq<Token>) -> Seq<TokenView> {
    v.map_values(|t: Token| t@)
}

/// The kind of the token at `p` (`Eof` outside the sequence).
pub open spec fn tk(ts: Seq<TokenView>, p: int) -> TokenKind {
    if 0 <= p < ts.len() { ts[p].kind } else { TokenKind::Eof }
}

/// The line of the token at `p`.
pub open spec fn tl(ts: Seq<TokenView>, p: int) -> usize {
    if 0 <= p < ts.len() { ts[p].line } else { 0 }
}

/// The text of the token at `p`, empty when it has none.
pub open spec fn tt(ts: Seq<TokenView>, p: int) -> Seq<char> {
    if 0 <= p < ts.len() {
        match ts[p].text {
            Some(s) => s,
            None => Seq::empty(),
        }
    } else {
        Seq::empty()
    }
}

/// The error recorded where a recursive step would not move forward; the
/// parser always moves forward, so it never arises.
pub open spec fn stuck() -> ErrorView {
    err_view(0, Seq::empty())
}

/// Binary operator precedence (higher binds tighter), 0 for non-operators.
pub open spec fn prec_of(k: TokenKind) -> int {
    match k {
        TokenKind::Eqeq | TokenKind::Neq => 1,
        TokenKind::Gt | TokenKind::Lt | TokenKind::Ge | TokenKind::Le => 2,
        TokenKind::Plus | TokenKind::Minus => 3,
        TokenKind::Star | TokenKind::Slash | TokenKind::Percent => 4,
        _ => 0,
    }
}

/// Expects a token of kind `k` at `p`.
pub open spec fn p_expect(ts: Seq<TokenView>, p: int, k: TokenKind) -> Result<int, ErrorView> {
    if tk(ts, p) != k {
        Err(err_view(tl(ts, p), "语法错误：期望的符号不匹配"@))
    } else {
        Ok(p + 1)
    }
}

/// Expects an identifier at `p`; its name.
pub open spec fn p_ident(ts: Seq<TokenView>, p: int) -> Result<(Seq<char>, int), ErrorView> {
    if tk(ts, p) != TokenKind::Ident {
        Err(err_view(tl(ts, p), "语法错误：期望标识符"@))
    } else {
        Ok((tt(ts, p), p + 1))
    }
}

/// An expression, possibly an assignment `target = value`.
pub open spec fn p_expr(ts: Seq<TokenView>, p: int) -> PResult
    decreases ts.len() - p, 4int,
{
    match p_prec(ts, p, 1) {
        Err(e) => Err(e),
        Ok((n, q)) => if tk(ts, q) == TokenKind::Assign {
            if p <= q < ts.len() {
                match p_expr(ts, q + 1) {
                    Err(e) => Err(e),
                    Ok((r, q2)) => Ok((
                        NodeView::Assign { line: tl(ts, q), target: Box::new(n), right: Box::new(r) },
                        q2,
                    )),
                }
            } else {
                Err(stuck())
            }
        } else {
            Ok((n, q))
        },
    }
}

/// A binary expression whose operators all have precedence at least `min`.
pub open spec fn p_prec(ts: Seq<TokenView>, p: int, min: int) -> PResult
    decreases ts.len() - p, 3int,
{
    match p_primary(ts, p) {
        Err(e) => Err(e),
        Ok((l, q)) => if p < q <= ts.len() {
            p_binops(ts, q, min, l)
        } else {
            Err(stuck())
        },
    }
}

/// The operator loop of precedence climbing, with `left` parsed so far.
pub open spec fn p_binops(ts: Seq<TokenView>, p: int, min: int, left: NodeView) -> PResult
    decreases ts.len() - p, 0int,
{
    let op = tk(ts, p);
    let prec = prec_of(op);
    if prec < min || !(0 <= p < ts.len()) {
        Ok((left, p))
    } else {
        match p_prec(ts, p + 1, prec + 1) {
            Err(e) => Err(e),
            Ok((r, q)) => if p < q <= ts.len() {
                p_binops(
                    ts,
                    q,
                    min,
                    NodeView::Binary { line: tl(ts, p), op, left: Box::new(left), right: Box::new(r) },
                )
            } else {
                Err(stuck())
            },
        }
    }
}

/// A primary expression followed by its call and index suffixes (a
/// `喵叫(...)` call takes no suffix).
pub open spec fn p_primary(ts: Seq<TokenView>, p: int) -> PResult
    decreases ts.len() - p, 2int,
{
    let k = tk(ts, p);
    if !(0 <= p < ts.len()) {
        Err(err_view(tl(ts, p), "语法错误：期望表达式"@))
    } else if k == TokenKind::Num {
        p_postfix(ts, p + 1, NodeView::Num { line: tl(ts, p), num: ts[p].num })
    } else if k == TokenKind::Str {
        p_postfix(ts, p + 1, NodeView::Str { line: tl(ts, p), text: tt(ts, p) })
    } else if k == TokenKind::LP {
        match p_expr(ts, p + 1) {
            Err(e) => Err(e),
            Ok((n, q)) => match p_expect(ts, q, TokenKind::RP) {
                Err(e) => Err(e),
                Ok(q2) => if p < q2 <= ts.len() {
                    p_postfix(ts, q2, n)
                } else {
                    Err(stuck())
                },
            },
        }
    } else if k == TokenKind::Ident {
        p_postfix(ts, p + 1, NodeView::Ident { line: tl(ts, p), name: tt(ts, p) })
    } else if k == TokenKind::Miaojiao {
        match p_call_args(ts, p + 1) {
            Err(e) => Err(e),
            Ok((args, q)) => Ok((NodeView::Call { line: tl(ts, p), name: "喵叫"@, args }, q)),
        }
    } else {
        Err(err_view(tl(ts, p), "语法错误：期望表达式"@))
    }
}

/// The call and index suffixes after the expression `n`.
pub open spec fn p_postfix(ts: Seq<TokenView>, p: int, n: NodeView) -> PResult
    decreases ts.len() - p, 1int,
{
    if tk(ts, p) == TokenKind::LP {
        if kind_of(n) != NodeKind::Ident {
            Err(err_view(line_of(n), "语法错误：只能调用函数"@))
        } else {
            match p_call_args(ts, p) {
                Err(e) => Err(e),
                Ok((args, q)) => if p < q <= ts.len() {
                    p_postfix(ts, q, NodeView::Call { line: line_of(n), name: n->Ident_name, args })
                } else {
                    Err(stuck())
                },
            }
        }
    } else if tk(ts, p) == TokenKind::LB && 0 <= p < ts.len() {
        match p_expr(ts, p + 1) {
            Err(e) => Err(e),
            Ok((index, q)) => match p_expect(ts, q, TokenKind::RB) {
                Err(e) => Err(e),
                Ok(q2) => if p < q2 <= ts.len() {
                    p_postfix(
                        ts,
                        q2,
                        NodeView::Index { line: tl(ts, p), base: Box::new(n), index: Box::new(index) },
                    )
                } else {
                    Err(stuck())
                },
            },
        }
    } else {
        Ok((n, p))
    }
}

/// Call arguments: `( expr, expr, ... )`.
pub open spec fn p_call_args(ts: Seq<TokenView>, p: int) -> Result<(Seq<NodeView>, int), ErrorView>
    decreases ts.len() - p, 0int,
{
    match p_expect(ts, p, TokenKind::LP) {
        Err(e) => Err(e),
        Ok(q) => if tk(ts, q) != TokenKind::RP {
            if 0 <= p < ts.len() {
                match p_expr(ts, q) {
                    Err(e) => Err(e),
                    Ok((a, q2)) => if p < q2 <= ts.len() {
                        p_args_more(ts, q2, seq![a])
                    } else {
                        Err(stuck())
                    },
                }
            } else {
                Err(stuck())
            }
        } else {
            Ok((Seq::empty(), q + 1))
        },
    }
}

/// The rest of an argument list after the arguments `acc`.
pub open spec fn p_args_more(ts: Seq<TokenView>, p: int, acc: Seq<NodeView>) -> Result<
    (Seq<NodeView>, int),
    ErrorView,
>
    decreases ts.len() - p, 0int,
{
    if tk(ts, p) == TokenKind::Comma && 0 <= p < ts.len() {
        match p_expr(ts, p + 1) {
            Err(e) => Err(e),
            Ok((a, q)) => if p < q <= ts.len() {
                p_args_more(ts, q, acc.push(a))
            } else {
                Err(stuck())
            },
        }
    } else {
        match p_expect(ts, p, TokenKind::RP) {
            Err(e) => Err(e),
            Ok(q) => Ok((acc, q)),
        }
    }
}


/// `变量 name = expr`.
pub open spec fn p_var(ts: Seq<TokenView>, p: int) -> PResult {
    match p_ident(ts, p + 1) {
        Err(e) => Err(e),
        Ok((name, q)) => match p_expect(ts, q, TokenKind::Assign) {
            Err(e) => Err(e),
            Ok(q2) => match p_expr(ts, q2) {
                Err(e) => Err(e),
                Ok((r, q3)) => Ok((NodeView::Var { line: tl(ts, p), name, right: Box::new(r) }, q3)),
            },
        },
    }
}

/// `数组 name[len] = { expr }`; the length must be an integer literal.
pub open spec fn p_array(ts: Seq<TokenView>, p: int) -> PResult {
    match p_ident(ts, p + 1) {
        Err(e) => Err(e),
        Ok((name, q)) => match p_expect(ts, q, TokenKind::LB) {
            Err(e) => Err(e),
            Ok(q2) => if tk(ts, q2) != TokenKind::Num {
                Err(err_view(tl(ts, q2), "数组长度必须是数字"@))
            } else {
                match p_expect(ts, q2 + 1, TokenKind::RB) {
                    Err(e) => Err(e),
                    Ok(q3) => match p_expect(ts, q3, TokenKind::Assign) {
                        Err(e) => Err(e),
                        Ok(q4) => match p_expect(ts, q4, TokenKind::LC) {
                            Err(e) => Err(e),
                            Ok(q5) => match p_expr(ts, q5) {
                                Err(e) => Err(e),
                                Ok((r, q6)) => match p_expect(ts, q6, TokenKind::RC) {
                                    Err(e) => Err(e),
                                    Ok(q7) => Ok((
                                        NodeView::Array {
                                            line: tl(ts, p),
                                            name,
                                            len: ts[q2].num,
                                            right: Box::new(r),
                                        },
                                        q7,
                                    )),
                                },
                            },
                        },
                    },
                }
            },
        },
    }
}

/// `返回 expr?`: no value when `{`, `}` or the end follows.
pub open spec fn p_return(ts: Seq<TokenView>, p: int) -> PResult {
    let k = tk(ts, p + 1);
    if k != TokenKind::LC && k != TokenKind::Eof && k != TokenKind::RC {
        match p_expr(ts, p + 1) {
            Err(e) => Err(e),
            Ok((v, q)) => Ok((NodeView::Return { line: tl(ts, p), value: Some(Box::new(v)) }, q)),
        }
    } else {
        Ok((NodeView::Return { line: tl(ts, p), value: None }, p + 1))
    }
}

/// `如果 cond 那么? { ... } 否则? { ... }`.
pub open spec fn p_if(ts: Seq<TokenView>, p: int) -> PResult
    decreases ts.len() - p, 1int,
{
    match p_expr(ts, p + 1) {
        Err(e) => Err(e),
        Ok((c, q)) => {
            let q1 = if tk(ts, q) == TokenKind::Name { q + 1 } else { q };
            if p < q1 <= ts.len() {
                match p_block(ts, q1) {
                    Err(e) => Err(e),
                    Ok((then, q2)) => if tk(ts, q2) == TokenKind::Fouze {
                        if p < q2 < ts.len() {
                            match p_block(ts, q2 + 1) {
                                Err(e) => Err(e),
                                Ok((eb, q3)) => Ok((
                                    NodeView::If {
                                        line: tl(ts, p),
                                        cond: Box::new(c),
                                        then: Box::new(then),
                                        else_b: Some(Box::new(eb)),
                                    },
                                    q3,
                                )),
                            }
                        } else {
                            Err(stuck())
                        }
                    } else {
                        Ok((
                            NodeView::If {
                                line: tl(ts, p),
                                cond: Box::new(c),
                                then: Box::new(then),
                                else_b: None,
                            },
                            q2,
                        ))
                    },
                }
            } else {
                Err(stuck())
            }
        },
    }
}

/// `当 cond 那么? { ... }`.
pub open spec fn p_while(ts: Seq<TokenView>, p: int) -> PResult
    decreases ts.len() - p, 1int,
{
    match p_expr(ts, p + 1) {
        Err(e) => Err(e),
        Ok((c, q)) => {
            let q1 = if tk(ts, q) == TokenKind::Name { q + 1 } else { q };
            if p < q1 <= ts.len() {
                match p_block(ts, q1) {
                    Err(e) => Err(e),
                    Ok((body, q2)) => Ok((
                        NodeView::While { line: tl(ts, p), cond: Box::new(c), body: Box::new(body) },
                        q2,
                    )),
                }
            } else {
                Err(stuck())
            }
        },
    }
}

/// One statement, dispatched on its first token.
pub open spec fn p_stmt(ts: Seq<TokenView>, p: int) -> PResult
    decreases ts.len() - p, 2int,
{
    let k = tk(ts, p);
    if k == TokenKind::Bian {
        p_var(ts, p)
    } else if k == TokenKind::Shizu {
        p_array(ts, p)
    } else if k == TokenKind::Ruguo {
        p_if(ts, p)
    } else if k == TokenKind::Dang {
        p_while(ts, p)
    } else if k == TokenKind::Fanhui {
        p_return(ts, p)
    } else {
        p_expr(ts, p)
    }
}

/// `{ statements }`.
pub open spec fn p_block(ts: Seq<TokenView>, p: int) -> PResult
    decreases ts.len() - p, 4int,
{
    match p_expect(ts, p, TokenKind::LC) {
        Err(e) => Err(e),
        Ok(q) => match p_stmts(ts, q, Seq::empty()) {
            Err(e) => Err(e),
            Ok((stmts, q2)) => Ok((NodeView::Block { line: tl(ts, p), stmts }, q2)),
        },
    }
}

/// The statements of a block after `acc`, up to and including the `}`.
pub open spec fn p_stmts(ts: Seq<TokenView>, p: int, acc: Seq<NodeView>) -> Result<
    (Seq<NodeView>, int),
    ErrorView,
>
    decreases ts.len() - p, 3int,
{
    if tk(ts, p) != TokenKind::RC && tk(ts, p) != TokenKind::Eof {
        match p_stmt(ts, p) {
            Err(e) => Err(e),
            Ok((st, q)) => if p < q <= ts.len() {
                p_stmts(ts, q, acc.push(st))
            } else {
                Err(stuck())
            },
        }
    } else {
        match p_expect(ts, p, TokenKind::RC) {
            Err(e) => Err(e),
            Ok(q) => Ok((acc, q)),
        }
    }
}

/// The parameters after `acc`, up to (not including) the `)`.
pub open spec fn p_params_more(ts: Seq<TokenView>, p: int, acc: Seq<Seq<char>>) -> Result<
    (Seq<Seq<char>>, int),
    ErrorView,
>
    decreases ts.len() - p,
{
    if tk(ts, p) == TokenKind::Comma && 0 <= p < ts.len() {
        match p_ident(ts, p + 1) {
            Err(e) => Err(e),
            Ok((name, q)) => if p < q <= ts.len() {
                p_params_more(ts, q, acc.push(name))
            } else {
                Err(stuck())
            },
        }
    } else {
        Ok((acc, p))
    }
}

/// The part of a function definition after its parameters have been read.
pub open spec fn p_func_tail(
    ts: Seq<TokenView>,
    line: usize,
    name: Seq<char>,
    params: Result<(Seq<Seq<char>>, int), ErrorView>,
) -> PResult {
    match params {
        Err(e) => Err(e),
        Ok((params, q5)) => match p_expect(ts, q5, TokenKind::RP) {
            Err(e) => Err(e),
            Ok(q6) => match p_block(ts, q6) {
                Err(e) => Err(e),
                Ok((body, q7)) => Ok((NodeView::Func { line, name, params, body: Box::new(body) }, q7)),
            },
        },
    }
}

/// `喵 name(params) { body }`.
pub open spec fn p_function(ts: Seq<TokenView>, p: int) -> PResult {
    match p_expect(ts, p, TokenKind::Miao) {
        Err(e) => Err(e),
        Ok(q) => match p_ident(ts, q) {
            Err(e) => Err(e),
            Ok((name, q2)) => match p_expect(ts, q2, TokenKind::LP) {
                Err(e) => Err(e),
                Ok(q3) => p_func_tail(
                    ts,
                    tl(ts, p),
                    name,
                    if tk(ts, q3) != TokenKind::RP {
                        match p_ident(ts, q3) {
                            Err(e) => Err(e),
                            Ok((first, q4)) => p_params_more(ts, q4, seq![first]),
                        }
                    } else {
                        Ok((Seq::empty(), q3))
                    },
                ),
            },
        },
    }
}

/// The top level from `p` on: statements and function definitions, each
/// collected in order, up to the `Eof`.
pub open spec fn p_program(ts: Seq<TokenView>, p: int, stmts: Seq<NodeView>, fns: Seq<NodeView>) -> Result<
    (Seq<NodeView>, Seq<NodeView>),
    ErrorView,
>
    decreases ts.len() - p,
{
    if tk(ts, p) == TokenKind::Eof {
        Ok((stmts, fns))
    } else if tk(ts, p) == TokenKind::Miao {
        match p_function(ts, p) {
            Err(e) => Err(e),
            Ok((f, q)) => if p < q <= ts.len() {
                p_program(ts, q, stmts, fns.push(f))
            } else {
                Err(stuck())
            },
        }
    } else {
        match p_stmt(ts, p) {
            Err(e) => Err(e),
            Ok((st, q)) => if p < q <= ts.len() {
                p_program(ts, q, stmts.push(st), fns)
            } else {
                Err(stuck())
            },
        }
    }
}


proof fn lemma_postfix_not_callable(ts: Seq<TokenView>, p: int, n: NodeView)
    requires
        tk(ts, p) == TokenKind::LP,
        kind_of(n) != NodeKind::Ident,
    ensures
        p_postfix(ts, p, n) == Err::<(NodeView, int), ErrorView>(
            err_view(line_of(n), "语法错误：只能调用函数"@),
        ),
{
}

proof fn lemma_postfix_call(ts: Seq<TokenView>, p: int, n: NodeView)
    requires
        tk(ts, p) == TokenKind::LP,
        kind_of(n) == NodeKind::Ident,
    ensures
        p_postfix(ts, p, n) == (match p_call_args(ts, p) {
            Err(e) => Err(e),
            Ok((args, q)) => if p < q <= ts.len() {
                p_postfix(ts, q, NodeView::Call { line: line_of(n), name: n->Ident_name, args })
            } else {
                Err(stuck())
            },
        }),
{
}

proof fn lemma_postfix_index(ts: Seq<TokenView>, p: int, n: NodeView)
    requires
        tk(ts, p) == TokenKind::LB,
        0 <= p < ts.len(),
    ensures
        p_postfix(ts, p, n) == (match p_expr(ts, p + 1) {
            Err(e) => Err(e),
            Ok((index, q)) => match p_expect(ts, q, TokenKind::RB) {
                Err(e) => Err(e),
                Ok(q2) => if p < q2 <= ts.len() {
                    p_postfix(
                        ts,
                        q2,
                        NodeView::Index { line: tl(ts, p), base: Box::new(n), index: Box::new(index) },
                    )
                } else {
                    Err(stuck())
                },
            },
        }),
{
}

proof fn lemma_postfix_done(ts: Seq<TokenView>, p: int, n: NodeView)
    requires
        tk(ts, p) != TokenKind::LP,
        tk(ts, p) != TokenKind::LB,
    ensures
        p_postfix(ts, p, n) == Ok::<(NodeView, int), ErrorView>((n, p)),
{
}

/// Three numbers joined by two operators, followed by a token that ends an
/// expression: the operator with the higher precedence takes its operands
/// first, and of two with the same precedence the left one does.
proof fn lemma_two_operators(ts: Seq<TokenView>, p: int)
    requires
        0 <= p,
        p + 5 <= ts.len(),
        tk(ts, p) == TokenKind::Num,
        tk(ts, p + 2) == TokenKind::Num,
        tk(ts, p + 4) == TokenKind::Num,
        prec_of(tk(ts, p + 1)) >= 1,
        prec_of(tk(ts, p + 3)) >= 1,
        tk(ts, p + 5) == TokenKind::RP || tk(ts, p + 5) == TokenKind::RB || tk(ts, p + 5) == TokenKind::RC || tk(
            ts,
            p + 5,
        ) == TokenKind::Comma || tk(ts, p + 5) == TokenKind::Eof,
    ensures
        ({
            let op1 = tk(ts, p + 1);
            let op2 = tk(ts, p + 3);
            let a = NodeView::Num { line: tl(ts, p), num: ts[p].num };
            let b = NodeView::Num { line: tl(ts, p + 2), num: ts[p + 2].num };
            let c = NodeView::Num { line: tl(ts, p + 4), num: ts[p + 4].num };
            &&& prec_of(op1) < prec_of(op2) ==> p_expr(ts, p) == Ok::<(NodeView, int), ErrorView>((
                NodeView::Binary {
                    line: tl(ts, p + 1),
                    op: op1,
                    left: Box::new(a),
                    right: Box::new(NodeView::Binary { line: tl(ts, p + 3), op: op2, left: Box::new(b), right: Box::new(c) }),
                },
                p + 5,
            ))
            &&& prec_of(op1) >= prec_of(op2) ==> p_expr(ts, p) == Ok::<(NodeView, int), ErrorView>((
                NodeView::Binary {
                    line: tl(ts, p + 3),
                    op: op2,
                    left: Box::new(NodeView::Binary { line: tl(ts, p + 1), op: op1, left: Box::new(a), right: Box::new(b) }),
                    right: Box::new(c),
                },
                p + 5,
            ))
        }),
{
    let op1 = tk(ts, p + 1);
    let op2 = tk(ts, p + 3);
    let p1 = prec_of(op1);
    let p2 = prec_of(op2);
    let a = NodeView::Num { line: tl(ts, p), num: ts[p].num };
    let b = NodeView::Num { line: tl(ts, p + 2), num: ts[p + 2].num };
    let c = NodeView::Num { line: tl(ts, p + 4), num: ts[p + 4].num };
    assert(prec_of(tk(ts, p + 5)) == 0);
    assert(p_postfix(ts, p + 1, a) == Ok::<(NodeView, int), ErrorView>((a, p + 1)));
    assert(p_primary(ts, p) == Ok::<(NodeView, int), ErrorView>((a, p + 1)));
    assert(p_postfix(ts, p + 3, b) == Ok::<(NodeView, int), ErrorView>((b, p + 3)));
    assert(p_primary(ts, p + 2) == Ok::<(NodeView, int), ErrorView>((b, p + 3)));
    assert(p_postfix(ts, p + 5, c) == Ok::<(NodeView, int), ErrorView>((c, p + 5)));
    assert(p_primary(ts, p + 4) == Ok::<(NodeView, int), ErrorView>((c, p + 5)));
    assert(p_binops(ts, p + 5, p2 + 1, c) == Ok::<(NodeView, int), ErrorView>((c, p + 5)));
    assert(p_prec(ts, p + 4, p2 + 1) == Ok::<(NodeView, int), ErrorView>((c, p + 5)));
    if p1 < p2 {
        let inner = NodeView::Binary { line: tl(ts, p + 3), op: op2, left: Box::new(b), right: Box::new(c) };
        let outer = NodeView::Binary { line: tl(ts, p + 1), op: op1, left: Box::new(a), right: Box::new(inner) };
        assert(p_binops(ts, p + 5, p1 + 1, inner) == Ok::<(NodeView, int), ErrorView>((inner, p + 5)));
        assert(p_binops(ts, p + 3, p1 + 1, b) == Ok::<(NodeView, int), ErrorView>((inner, p + 5)));
        assert(p_prec(ts, p + 2, p1 + 1) == Ok::<(NodeView, int), ErrorView>((inner, p + 5)));
        assert(p_binops(ts, p + 5, 1, outer) == Ok::<(NodeView, int), ErrorView>((outer, p + 5)));
        assert(p_binops(ts, p + 1, 1, a) == Ok::<(NodeView, int), ErrorView>((outer, p + 5)));
        assert(p_prec(ts, p, 1) == Ok::<(NodeView, int), ErrorView>((outer, p + 5)));
    } else {
        let left = NodeView::Binary { line: tl(ts, p + 1), op: op1, left: Box::new(a), right: Box::new(b) };
        let outer = NodeView::Binary { line: tl(ts, p + 3), op: op2, left: Box::new(left), right: Box::new(c) };
        assert(p_binops(ts, p + 3, p1 + 1, b) == Ok::<(NodeView, int), ErrorView>((b, p + 3)));
        assert(p_prec(ts, p + 2, p1 + 1) == Ok::<(NodeView, int), ErrorView>((b, p + 3)));
        assert(p_binops(ts, p + 5, 1, outer) == Ok::<(NodeView, int), ErrorView>((outer, p + 5)));
        assert(p_binops(ts, p + 3, 1, left) == Ok::<(NodeView, int), ErrorView>((outer, p + 5)));
        assert(p_binops(ts, p + 1, 1, a) == Ok::<(NodeView, int), ErrorView>((outer, p + 5)));
        assert(p_prec(ts, p, 1) == Ok::<(NodeView, int), ErrorView>((outer, p + 5)));
    }
}

/// How `a op1 b op2 c` groups. `+` and `-` bind alike, less tightly than
/// `*`, `/` and `%`, which bind alike; the comparisons `> < >= <=` bind
/// less tightly than all of these, and `==` and `!=` least tightly. So
/// `a - b * c` is `a - (b * c)`, while `a - b + c` is `(a - b) + c` and
/// `a * b - c` is `(a * b) - c`: of two operators that bind alike the left
/// one goes first.
pub proof fn law_parse_precedence(ts: Seq<TokenView>, p: int)
    requires
        0 <= p,
        p + 5 <= ts.len(),
        tk(ts, p) == TokenKind::Num,
        tk(ts, p + 2) == TokenKind::Num,
        tk(ts, p + 4) == TokenKind::Num,
        tk(ts, p + 5) == TokenKind::RP || tk(ts, p + 5) == TokenKind::RB || tk(ts, p + 5) == TokenKind::RC || tk(
            ts,
            p + 5,
        ) == TokenKind::Comma || tk(ts, p + 5) == TokenKind::Eof,
    ensures
        ({
            let op1 = tk(ts, p + 1);
            let op2 = tk(ts, p + 3);
            let additive1 = op1 == TokenKind::Plus || op1 == TokenKind::Minus;
            let additive2 = op2 == TokenKind::Plus || op2 == TokenKind::Minus;
            let mult1 = op1 == TokenKind::Star || op1 == TokenKind::Slash || op1 == TokenKind::Percent;
            let mult2 = op2 == TokenKind::Star || op2 == TokenKind::Slash || op2 == TokenKind::Percent;
            let order1 = op1 == TokenKind::Gt || op1 == TokenKind::Lt || op1 == TokenKind::Ge || op1 == TokenKind::Le;
            let order2 = op2 == TokenKind::Gt || op2 == TokenKind::Lt || op2 == TokenKind::Ge || op2 == TokenKind::Le;
            let equality1 = op1 == TokenKind::Eqeq || op1 == TokenKind::Neq;
            let equality2 = op2 == TokenKind::Eqeq || op2 == TokenKind::Neq;
            let a = NodeView::Num { line: tl(ts, p), num: ts[p].num };
            let b = NodeView::Num { line: tl(ts, p + 2), num: ts[p + 2].num };
            let c = NodeView::Num { line: tl(ts, p + 4), num: ts[p + 4].num };
            let right_first = NodeView::Binary {
                line: tl(ts, p + 1),
                op: op1,
                left: Box::new(a),
                right: Box::new(NodeView::Binary { line: tl(ts, p + 3), op: op2, left: Box::new(b), right: Box::new(c) }),
            };
            let left_first = NodeView::Binary {
                line: tl(ts, p + 3),
                op: op2,
                left: Box::new(NodeView::Binary { line: tl(ts, p + 1), op: op1, left: Box::new(a), right: Box::new(b) }),
                right: Box::new(c),
            };
            &&& (additive1 && mult2) || (order1 && (additive2 || mult2)) || (equality1 && (order2 || additive2
                || mult2)) ==> p_expr(ts, p) == Ok::<(NodeView, int), ErrorView>((right_first, p + 5))
            &&& (additive1 && additive2) || (mult1 && (mult2 || additive2 || order2 || equality2)) || (additive1
                && (order2 || equality2)) || (order1 && (order2 || equality2)) || (equality1 && equality2) ==> p_expr(
                ts,
                p,
            ) == Ok::<(NodeView, int), ErrorView>((left_first, p + 5))
        }),
{
    let op1 = tk(ts, p + 1);
    let op2 = tk(ts, p + 3);
    if prec_of(op1) >= 1 && prec_of(op2) >= 1 {
        lemma_two_operators(ts, p);
    }
}

// ---------------------------------------------------------------------
// The parser.
// ---------------------------------------------------------------------

/// Whether `r` is what a parse step specified by `spec` gives, with the
/// parser left at `pos` after success.
pub open spec fn node_result(r: Result<Node, RuaError>, spec: PResult, pos: int) -> bool {
    match spec {
        Ok((n, q)) => r matches Ok(x) && x@ == n && pos == q,
        Err(e) => r matches Err(x) && x@ == e,
    }
}

/// A copy of a token.
fn copy_token(t: &Token) -> (c: Token)
    ensures
        c@ == t@,
{
    Token {
        kind: t.kind,
        text: match &t.text {
            Some(s) => Some(s.clone()),
            None => None,
        },
        num: t.num,
        line: t.line,
    }
}

/// The text of a token, empty when it has none.
fn text_of(t: Token) -> (s: String)
    ensures
        s@ == (match t@.text {
            Some(x) => x,
            None => Seq::empty(),
        }),
{
    match t.text {
        Some(x) => x,
        None => String::new(),
    }
}

/// The binary operator precedence of a token kind.
fn op_prec(k: TokenKind) -> (p: i32)
    ensures
        p == prec_of(k),
{
    match k {
        TokenKind::Eqeq | TokenKind::Neq => 1,
        TokenKind::Gt | TokenKind::Lt | TokenKind::Ge | TokenKind::Le => 2,
        TokenKind::Plus | TokenKind::Minus => 3,
        TokenKind::Star | TokenKind::Slash | TokenKind::Percent => 4,
        _ => 0,
    }
}

impl Parser {
    /// There is an `Eof` token at or after the position.
    pub closed spec fn wf(&self) -> bool {
        exists|e: int| self.pos <= e < self.toks@.len() && #[trigger] self.toks@[e].kind == TokenKind::Eof
    }

    /// The token views.
    pub closed spec fn ts(&self) -> Seq<TokenView> {
        tview(self.toks@)
    }

    fn new(toks: Vec<Token>) -> (p: Parser)
        ensures
            p.toks == toks,
            p.pos == 0,
    {
        Parser { toks, pos: 0 }
    }

    /// The kind of the current token.
    fn peek(&self) -> (k: TokenKind)
        requires
            self.wf(),
        ensures
            k == tk(self.ts(), self.pos as int),
            self.pos < self.toks@.len(),
    {
        let ghost e = choose|e: int| self.pos <= e < self.toks@.len() && #[trigger] self.toks@[e].kind == TokenKind::Eof;
        assert(self.toks@[self.pos as int]@ == self.ts()[self.pos as int]);
        self.toks[self.pos].kind
    }

    /// Takes the current (non-`Eof`) token.
    fn advance(&mut self) -> (t: Token)
        requires
            old(self).wf(),
            tk(old(self).ts(), old(self).pos as int) != TokenKind::Eof,
        ensures
            final(self).wf(),
            final(self).toks == old(self).toks,
            final(self).pos == old(self).pos + 1,
            old(self).pos < old(self).toks@.len(),
            t@ == old(self).ts()[old(self).pos as int],
    {
        let ghost e = choose|e: int| self.pos <= e < self.toks@.len() && #[trigger] self.toks@[e].kind == TokenKind::Eof;
        assert(self.toks@[self.pos as int]@ == self.ts()[self.pos as int]);
        let t = copy_token(&self.toks[self.pos]);
        let n = self.toks.len();
        assert(self.pos < n);
        self.pos = self.pos + 1;
        assert(self.pos <= e && self.toks@[e].kind == TokenKind::Eof);
        t
    }

    /// Takes a token of kind `k`, or fails.
    fn expect(&mut self, k: TokenKind) -> (r: Result<Token, RuaError>)
        requires
            old(self).wf(),
            k != TokenKind::Eof,
        ensures
            final(self).wf(),
            final(self).toks == old(self).toks,
            match p_expect(old(self).ts(), old(self).pos as int, k) {
                Ok(q) => r matches Ok(t) && final(self).pos == q && t@ == old(self).ts()[old(self).pos as int],
                Err(e) => r matches Err(x) && x@ == e,
            },
    {
        if self.peek() != k {
            return Err(RuaError::new(self.toks[self.pos].line, "语法错误：期望的符号不匹配"));
        }
        Ok(self.advance())
    }


    /// Takes an identifier and returns its name, or fails.
    fn expect_ident(&mut self) -> (r: Result<String, RuaError>)
        requires
            old(self).wf(),
        ensures
            final(self).wf(),
            final(self).toks == old(self).toks,
            match p_ident(old(self).ts(), old(self).pos as int) {
                Ok((name, q)) => r matches Ok(x) && x@ == name && final(self).pos == q,
                Err(e) => r matches Err(x) && x@ == e,
            },
    {
        if self.peek() != TokenKind::Ident {
            return Err(RuaError::new(self.toks[self.pos].line, "语法错误：期望标识符"));
        }
        let t = self.advance();
        Ok(text_of(t))
    }

    /// Call arguments `( expr, ... )`.
    fn parse_call_args(&mut self) -> (r: Result<Vec<Node>, RuaError>)
        requires
            old(self).wf(),
        ensures
            final(self).wf(),
            final(self).toks == old(self).toks,
            match p_call_args(old(self).ts(), old(self).pos as int) {
                Ok((args, q)) => r matches Ok(v) && nodes_view(v@) == args && final(self).pos == q,
                Err(e) => r matches Err(x) && x@ == e,
            },
            r is Ok ==> final(self).pos > old(self).pos,
        decreases old(self).toks@.len() - old(self).pos, 1int,
    {
        self.expect(TokenKind::LP)?;
        let mut args: Vec<Node> = Vec::new();
        if self.peek() != TokenKind::RP {
            let first = self.parse_expr()?;
            args.push(first);
            assert(nodes_view(args@) =~= seq![first@]);
            while self.peek() == TokenKind::Comma
                invariant
                    self.wf(),
                    self.toks == old(self).toks,
                    self.pos > old(self).pos,
                    p_args_more(self.ts(), self.pos as int, nodes_view(args@)) == p_call_args(
                        old(self).ts(),
                        old(self).pos as int,
                    ),
                decreases self.toks@.len() - self.pos,
            {
                self.advance();
                let a = self.parse_expr()?;
                let ghost before = args@;
                args.push(a);
                assert(nodes_view(args@) =~= nodes_view(before).push(a@));
            }
        } else {
            assert(nodes_view(args@) =~= Seq::<NodeView>::empty());
        }
        self.expect(TokenKind::RP)?;
        Ok(args)
    }

    /// A binary expression whose operators have precedence at least `min`.
    fn parse_expr_prec(&mut self, min: i32) -> (r: Result<Node, RuaError>)
        requires
            old(self).wf(),
            1 <= min <= 5,
        ensures
            final(self).wf(),
            final(self).toks == old(self).toks,
            node_result(r, p_prec(old(self).ts(), old(self).pos as int, min as int), final(self).pos as int),
            r is Ok ==> final(self).pos > old(self).pos,
        decreases old(self).toks@.len() - old(self).pos, 3int,
    {
        let mut left = self.parse_primary()?;
        while op_prec(self.peek()) >= min
            invariant
                self.wf(),
                self.toks == old(self).toks,
                self.pos > old(self).pos,
                1 <= min <= 5,
                p_binops(self.ts(), self.pos as int, min as int, left@) == p_prec(
                    old(self).ts(),
                    old(self).pos as int,
                    min as int,
                ),
            decreases self.toks@.len() - self.pos,
        {
            let op = self.peek();
            let prec = op_prec(op);
            let tok = self.advance();
            let right = self.parse_expr_prec(prec + 1)?;
            left = Node::Binary { line: tok.line, op, left: Box::new(left), right: Box::new(right) };
        }
        Ok(left)
    }

    /// A primary expression and its call and index suffixes.
    fn parse_primary(&mut self) -> (r: Result<Node, RuaError>)
        requires
            old(self).wf(),
        ensures
            final(self).wf(),
            final(self).toks == old(self).toks,
            node_result(r, p_primary(old(self).ts(), old(self).pos as int), final(self).pos as int),
            r is Ok ==> final(self).pos > old(self).pos,
        decreases old(self).toks@.len() - old(self).pos, 2int,
    {
        let k = self.peek();
        let mut n: Node;
        if k == TokenKind::Num {
            let t = self.advance();
            n = Node::Num { line: t.line, num: t.num };
        } else if k == TokenKind::Str {
            let t = self.advance();
            let line = t.line;
            n = Node::Str { line, text: text_of(t) };
        } else if k == TokenKind::LP {
            self.advance();
            n = self.parse_expr()?;
            self.expect(TokenKind::RP)?;
        } else if k == TokenKind::Ident {
            let t = self.advance();
            let line = t.line;
            n = Node::Ident { line, name: text_of(t) };
        } else if k == TokenKind::Miaojiao {
            let t = self.advance();
            let args = self.parse_call_args()?;
            return Ok(Node::Call { line: t.line, name: String::from_str("喵叫"), args });
        } else {
            return Err(RuaError::new(self.toks[self.pos].line, "语法错误：期望表达式"));
        }
        // suffixes: calls (of identifiers only) and indexing
        while self.peek() == TokenKind::LP || self.peek() == TokenKind::LB
            invariant
                self.wf(),
                self.toks == old(self).toks,
                self.pos > old(self).pos,
                p_postfix(self.ts(), self.pos as int, n@) == p_primary(
                    old(self).ts(),
                    old(self).pos as int,
                ),
            decreases self.toks@.len() - self.pos,
        {
            if self.peek() == TokenKind::LP {
                let line = n.line();
                if n.kind() != NodeKind::Ident {
                    proof {
                        lemma_postfix_not_callable(self.ts(), self.pos as int, n@);
                    }
                    return Err(RuaError::new(line, "语法错误：只能调用函数"));
                }
                proof {
                    lemma_ident_view(n);
                }
                let name = match &n {
                    Node::Ident { name, .. } => name.clone(),
                    _ => String::new(),
                };
                proof {
                    lemma_postfix_call(self.ts(), self.pos as int, n@);
                }
                let ghost nv = n@;
                let ghost p1 = self.pos as int;
                assert(name@ == nv->Ident_name);
                let args = self.parse_call_args()?;
                let ghost q = self.pos as int;
                assert(p_call_args(self.ts(), p1) == Ok::<(Seq<NodeView>, int), ErrorView>((nodes_view(args@), q)));
                n = Node::Call { line, name, args };
                assert(n@ == NodeView::Call { line: line_of(nv), name: nv->Ident_name, args: nodes_view(args@) });
            } else {
                proof {
                    lemma_postfix_index(self.ts(), self.pos as int, n@);
                }
                let t = self.advance();
                let index = self.parse_expr()?;
                self.expect(TokenKind::RB)?;
                let ghost nv = n@;
                n = Node::Index { line: t.line, base: Box::new(n), index: Box::new(index) };
                assert(n@ == NodeView::Index { line: t.line, base: Box::new(nv), index: Box::new(index@) });
            }
        }
        proof {
            lemma_postfix_done(self.ts(), self.pos as int, n@);
        }
        Ok(n)
    }

    /// An expression, possibly an assignment.
    fn parse_expr(&mut self) -> (r: Result<Node, RuaError>)
        requires
            old(self).wf(),
        ensures
            final(self).wf(),
            final(self).toks == old(self).toks,
            node_result(r, p_expr(old(self).ts(), old(self).pos as int), final(self).pos as int),
            r is Ok ==> final(self).pos > old(self).pos,
        decreases old(self).toks@.len() - old(self).pos, 4int,
    {
        let mut n = self.parse_expr_prec(1)?;
        if self.peek() == TokenKind::Assign {
            let t = self.advance();
            let right = self.parse_expr()?;
            n = Node::Assign { line: t.line, target: Box::new(n), right: Box::new(right) };
        }
        Ok(n)
    }

    /// `变量 name = expr` (the current token is `变量`).
    fn parse_var(&mut self) -> (r: Result<Node, RuaError>)
        requires
            old(self).wf(),
            tk(old(self).ts(), old(self).pos as int) == TokenKind::Bian,
        ensures
            final(self).wf(),
            final(self).toks == old(self).toks,
            node_result(r, p_var(old(self).ts(), old(self).pos as int), final(self).pos as int),
            r is Ok ==> final(self).pos > old(self).pos,
    {
        let t = self.advance();
        let name = self.expect_ident()?;
        self.expect(TokenKind::Assign)?;
        let right = self.parse_expr()?;
        Ok(Node::Var { line: t.line, name, right: Box::new(right) })
    }

    /// `数组 name[len] = { expr }` (the current token is `数组`).
    fn parse_array(&mut self) -> (r: Result<Node, RuaError>)
        requires
            old(self).wf(),
            tk(old(self).ts(), old(self).pos as int) == TokenKind::Shizu,
        ensures
            final(self).wf(),
            final(self).toks == old(self).toks,
            node_result(r, p_array(old(self).ts(), old(self).pos as int), final(self).pos as int),
            r is Ok ==> final(self).pos > old(self).pos,
    {
        let t = self.advance();
        let name = self.expect_ident()?;
        self.expect(TokenKind::LB)?;
        if self.peek() != TokenKind::Num {
            return Err(RuaError::new(self.toks[self.pos].line, "数组长度必须是数字"));
        }
        let len_t = self.advance();
        self.expect(TokenKind::RB)?;
        self.expect(TokenKind::Assign)?;
        self.expect(TokenKind::LC)?;
        let right = self.parse_expr()?;
        self.expect(TokenKind::RC)?;
        Ok(Node::Array { line: t.line, name, len: len_t.num, right: Box::new(right) })
    }

    /// `如果 cond 那么? { ... } 否则? { ... }` (the current token is `如果`).
    fn parse_if(&mut self) -> (r: Result<Node, RuaError>)
        requires
            old(self).wf(),
            tk(old(self).ts(), old(self).pos as int) == TokenKind::Ruguo,
        ensures
            final(self).wf(),
            final(self).toks == old(self).toks,
            node_result(r, p_if(old(self).ts(), old(self).pos as int), final(self).pos as int),
            r is Ok ==> final(self).pos > old(self).pos,
        decreases old(self).toks@.len() - old(self).pos, 1int,
    {
        let t = self.advance();
        let cond = self.parse_expr()?;
        if self.peek() == TokenKind::Name {
            self.advance();
        }
        let then = self.parse_block()?;
        let else_b = if self.peek() == TokenKind::Fouze {
            self.advance();
            Some(Box::new(self.parse_block()?))
        } else {
            None
        };
        Ok(Node::If { line: t.line, cond: Box::new(cond), then: Box::new(then), else_b })
    }

    /// `当 cond 那么? { ... }` (the current token is `当`).
    fn parse_while(&mut self) -> (r: Result<Node, RuaError>)
        requires
            old(self).wf(),
            tk(old(self).ts(), old(self).pos as int) == TokenKind::Dang,
        ensures
            final(self).wf(),
            final(self).toks == old(self).toks,
            node_result(r, p_while(old(self).ts(), old(self).pos as int), final(self).pos as int),
            r is Ok ==> final(self).pos > old(self).pos,
        decreases old(self).toks@.len() - old(self).pos, 1int,
    {
        let t = self.advance();
        let cond = self.parse_expr()?;
        if self.peek() == TokenKind::Name {
            self.advance();
        }
        let body = self.parse_block()?;
        Ok(Node::While { line: t.line, cond: Box::new(cond), body: Box::new(body) })
    }

    /// `返回 expr?` (the current token is `返回`).
    fn parse_return(&mut self) -> (r: Result<Node, RuaError>)
        requires
            old(self).wf(),
            tk(old(self).ts(), old(self).pos as int) == TokenKind::Fanhui,
        ensures
            final(self).wf(),
            final(self).toks == old(self).toks,
            node_result(r, p_return(old(self).ts(), old(self).pos as int), final(self).pos as int),
            r is Ok ==> final(self).pos > old(self).pos,
    {
        let t = self.advance();
        let value = if self.peek() != TokenKind::LC && self.peek() != TokenKind::Eof && self.peek()
            != TokenKind::RC {
            Some(Box::new(self.parse_expr()?))
        } else {
            None
        };
        Ok(Node::Return { line: t.line, value })
    }

    /// One statement.
    fn parse_statement(&mut self) -> (r: Result<Node, RuaError>)
        requires
            old(self).wf(),
        ensures
            final(self).wf(),
            final(self).toks == old(self).toks,
            node_result(r, p_stmt(old(self).ts(), old(self).pos as int), final(self).pos as int),
            r is Ok ==> final(self).pos > old(self).pos,
        decreases old(self).toks@.len() - old(self).pos, 2int,
    {
        match self.peek() {
            TokenKind::Bian => self.parse_var(),
            TokenKind::Shizu => self.parse_array(),
            TokenKind::Ruguo => self.parse_if(),
            TokenKind::Dang => self.parse_while(),
            TokenKind::Fanhui => self.parse_return(),
            _ => self.parse_expr(),
        }
    }

    /// `{ statements }`.
    fn parse_block(&mut self) -> (r: Result<Node, RuaError>)
        requires
            old(self).wf(),
        ensures
            final(self).wf(),
            final(self).toks == old(self).toks,
            node_result(r, p_block(old(self).ts(), old(self).pos as int), final(self).pos as int),
            r is Ok ==> final(self).pos > old(self).pos,
        decreases old(self).toks@.len() - old(self).pos, 3int,
    {
        let t = self.expect(TokenKind::LC)?;
        let mut stmts: Vec<Node> = Vec::new();
        assert(nodes_view(stmts@) =~= Seq::<NodeView>::empty());
        while self.peek() != TokenKind::RC && self.peek() != TokenKind::Eof
            invariant
                self.wf(),
                self.toks == old(self).toks,
                self.pos > old(self).pos,
                p_stmts(self.ts(), self.pos as int, nodes_view(stmts@)) == p_stmts(
                    old(self).ts(),
                    old(self).pos + 1,
                    Seq::empty(),
                ),
                p_expect(old(self).ts(), old(self).pos as int, TokenKind::LC) == Ok::<int, ErrorView>(
                    old(self).pos + 1,
                ),
                t@.line == tl(old(self).ts(), old(self).pos as int),
            decreases self.toks@.len() - self.pos,
        {
            let st = self.parse_statement()?;
            let ghost before = stmts@;
            stmts.push(st);
            assert(nodes_view(stmts@) =~= nodes_view(before).push(st@));
        }
        self.expect(TokenKind::RC)?;
        Ok(Node::Block { line: t.line, stmts })
    }

    /// `喵 name(params) { body }`.
    fn parse_function(&mut self) -> (r: Result<Node, RuaError>)
        requires
            old(self).wf(),
        ensures
            final(self).wf(),
            final(self).toks == old(self).toks,
            node_result(r, p_function(old(self).ts(), old(self).pos as int), final(self).pos as int),
            r is Ok ==> final(self).pos > old(self).pos,
    {
        let t = self.expect(TokenKind::Miao)?;
        let name = self.expect_ident()?;
        self.expect(TokenKind::LP)?;
        let mut params: Vec<String> = Vec::new();
        let ghost q3 = self.pos as int;
        if self.peek() != TokenKind::RP {
            let first = self.expect_ident()?;
            params.push(first);
            assert(params@.map_values(|p: String| p@) =~= seq![first@]);
            while self.peek() == TokenKind::Comma
                invariant
                    self.wf(),
                    self.toks == old(self).toks,
                    self.pos > q3,
                    p_function(old(self).ts(), old(self).pos as int) == p_func_tail(
                        self.ts(),
                        t.line,
                        name@,
                        p_params_more(self.ts(), self.pos as int, params@.map_values(|p: String| p@)),
                    ),
                decreases self.toks@.len() - self.pos,
            {
                self.advance();
                let pname = self.expect_ident()?;
                let ghost before = params@;
                params.push(pname);
                assert(params@.map_values(|p: String| p@) =~= before.map_values(|p: String| p@).push(
                    pname@,
                ));
            }
        } else {
            assert(params@.map_values(|p: String| p@) =~= Seq::<Seq<char>>::empty());
        }
        self.expect(TokenKind::RP)?;
        let body = self.parse_block()?;
        Ok(Node::Func { line: t.line, name, params, body: Box::new(body) })
    }

    /// Parses a token stream into the program node (its top-level
    /// statements) and the list of top-level function definitions.
    pub fn parse_tokens(toks: Vec<Token>) -> (r: Result<(Node, Vec<Node>), RuaError>)
        requires
            exists|e: int| 0 <= e < toks@.len() && #[trigger] toks@[e].kind == TokenKind::Eof,
        ensures
            match p_program(tview(toks@), 0, Seq::empty(), Seq::empty()) {
                Ok((stmts, fns)) => r matches Ok((prog, fv)) && prog@ == (NodeView::Prog {
                    stmts,
                }) && nodes_view(fv@) == fns,
                Err(e) => r matches Err(x) && x@ == e,
            },
    {
        let mut ps = Parser::new(toks);
        let mut stmts: Vec<Node> = Vec::new();
        let mut fns: Vec<Node> = Vec::new();
        assert(nodes_view(stmts@) =~= Seq::<NodeView>::empty());
        assert(nodes_view(fns@) =~= Seq::<NodeView>::empty());
        while ps.peek() != TokenKind::Eof
            invariant
                ps.wf(),
                ps.toks == toks,
                p_program(ps.ts(), ps.pos as int, nodes_view(stmts@), nodes_view(fns@)) == p_program(
                    tview(toks@),
                    0,
                    Seq::empty(),
                    Seq::empty(),
                ),
            decreases ps.toks@.len() - ps.pos,
        {
            if ps.peek() == TokenKind::Miao {
                let f = ps.parse_function()?;
                let ghost before = fns@;
                fns.push(f);
                assert(nodes_view(fns@) =~= nodes_view(before).push(f@));
            } else {
                let st = ps.parse_statement()?;
                let ghost before = stmts@;
                stmts.push(st);
                assert(nodes_view(stmts@) =~= nodes_view(before).push(st@));
            }
        }
        Ok((Node::Prog { stmts }, fns))
    }
} // impl

} // verus!
