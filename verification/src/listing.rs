//! Debug listings: the syntax tree as an indented outline, one line per
//! token, one line per registered function. The program prints them.
use vstd::prelude::*;
use crate::ast::{kind_of, node_kind_name, node_kind_text, Node, NodeView};
use crate::lexer::{token_kind_name, token_kind_text, Token, TokenKind, TokenView};
use crate::runtime::Function;
use crate::text::{debug_text, decimal, push_decimal, push_str, push_unsigned, quoted};

verus! {

broadcast use vstd::string::group_string_axioms;

/// The name of a token kind as written in the source of the enum.
pub open spec fn token_kind_ident(k: TokenKind) -> Seq<char> {
    match k {
        TokenKind::Eof => "Eof"@,
        TokenKind::Num => "Num"@,
        TokenKind::Str => "Str"@,
        TokenKind::Ident => "Ident"@,
        TokenKind::Miao => "Miao"@,
        TokenKind::Bian => "Bian"@,
        TokenKind::Ruguo => "Ruguo"@,
        TokenKind::Name => "Name"@,
        TokenKind::Fouze => "Fouze"@,
        TokenKind::Dang => "Dang"@,
        TokenKind::Fanhui => "Fanhui"@,
        TokenKind::Miaojiao => "Miaojiao"@,
        TokenKind::Shizu => "Shizu"@,
        TokenKind::LP => "LP"@,
        TokenKind::RP => "RP"@,
        TokenKind::LB => "LB"@,
        TokenKind::RB => "RB"@,
        TokenKind::LC => "LC"@,
        TokenKind::RC => "RC"@,
        TokenKind::Comma => "Comma"@,
        TokenKind::Plus => "Plus"@,
        TokenKind::Minus => "Minus"@,
        TokenKind::Star => "Star"@,
        TokenKind::Slash => "Slash"@,
        TokenKind::Percent => "Percent"@,
        TokenKind::Eqeq => "Eqeq"@,
        TokenKind::Neq => "Neq"@,
        TokenKind::Gt => "Gt"@,
        TokenKind::Lt => "Lt"@,
        TokenKind::Ge => "Ge"@,
        TokenKind::Le => "Le"@,
        TokenKind::Assign => "Assign"@,
    }
}

/// The name of a token kind as written in the source of the enum (the
/// outline names an operator by it).
pub fn token_kind_ident_str(k: TokenKind) -> (s: &'static str)
    ensures
        s@ == token_kind_ident(k),
{
    match k {
        TokenKind::Eof => "Eof",
        TokenKind::Num => "Num",
        TokenKind::Str => "Str",
        TokenKind::Ident => "Ident",
        TokenKind::Miao => "Miao",
        TokenKind::Bian => "Bian",
        TokenKind::Ruguo => "Ruguo",
        TokenKind::Name => "Name",
        TokenKind::Fouze => "Fouze",
        TokenKind::Dang => "Dang",
        TokenKind::Fanhui => "Fanhui",
        TokenKind::Miaojiao => "Miaojiao",
        TokenKind::Shizu => "Shizu",
        TokenKind::LP => "LP",
        TokenKind::RP => "RP",
        TokenKind::LB => "LB",
        TokenKind::RB => "RB",
        TokenKind::LC => "LC",
        TokenKind::RC => "RC",
        TokenKind::Comma => "Comma",
        TokenKind::Plus => "Plus",
        TokenKind::Minus => "Minus",
        TokenKind::Star => "Star",
        TokenKind::Slash => "Slash",
        TokenKind::Percent => "Percent",
        TokenKind::Eqeq => "Eqeq",
        TokenKind::Neq => "Neq",
        TokenKind::Gt => "Gt",
        TokenKind::Lt => "Lt",
        TokenKind::Ge => "Ge",
        TokenKind::Le => "Le",
        TokenKind::Assign => "Assign",
    }
}

/// `k` levels of indentation, two spaces each.
pub open spec fn pad_of(k: nat) -> Seq<char>
    decreases k,
{
    if k == 0 {
        Seq::empty()
    } else {
        pad_of((k - 1) as nat) + "  "@
    }
}

/// The names from the `i`-th on, each quoted, separated by `, `.
pub open spec fn names_join(ps: Seq<Seq<char>>, i: int) -> Seq<char>
    decreases ps.len() - i,
{
    if i < 0 || i >= ps.len() {
        Seq::empty()
    } else {
        (if i == 0 {
            Seq::empty()
        } else {
            ", "@
        }) + debug_text(ps[i]) + names_join(ps, i + 1)
    }
}

/// A list of names in brackets, each quoted: `["a", "b"]`.
pub open spec fn names_text(ps: Seq<Seq<char>>) -> Seq<char> {
    "["@ + names_join(ps, 0) + "]"@
}

/// The outline of a node at indentation `p`: its own line, then its
/// children one level deeper.
pub open spec fn dump_text(n: NodeView, p: Seq<char>) -> Seq<char>
    decreases n, 1int,
{
    let q = p + "  "@;
    let k = node_kind_text(kind_of(n));
    match n {
        NodeView::Num { num, .. } => p + k + " "@ + decimal(num as int) + "\n"@,
        NodeView::Str { text, .. } => p + k + " "@ + debug_text(text) + "\n"@,
        NodeView::Ident { name, .. } => p + k + " "@ + name + "\n"@,
        NodeView::Var { name, right, .. } => p + k + " "@ + name + "\n"@ + dump_text(*right, q),
        NodeView::Array { name, len, right, .. } => p + k + " "@ + name + " 长度="@ + decimal(len as int) + "\n"@
            + dump_text(*right, q),
        NodeView::Assign { target, right, .. } => p + "赋值\n"@ + dump_text(*target, q) + dump_text(*right, q),
        NodeView::Index { base, index, .. } => p + "数组下标\n"@ + dump_text(*base, q) + dump_text(*index, q),
        NodeView::Binary { op, left, right, .. } => p + "二元运算 "@ + token_kind_ident(op) + "\n"@ + dump_text(*left, q)
            + dump_text(*right, q),
        NodeView::Call { name, args, .. } => p + "函数调用 "@ + name + "\n"@ + dump_list(args, 0, q),
        NodeView::If { cond, then, else_b, .. } => p + "如果\n"@ + dump_text(*cond, q) + p + "  真分支\n"@ + dump_text(
            *then,
            q,
        ) + match else_b {
            Some(e) => p + "  假分支\n"@ + dump_text(*e, q),
            None => Seq::empty(),
        },
        NodeView::While { cond, body, .. } => p + "当循环\n"@ + dump_text(*cond, q) + dump_text(*body, q),
        NodeView::Return { value, .. } => p + "返回\n"@ + match value {
            Some(v) => dump_text(*v, q),
            None => Seq::empty(),
        },
        NodeView::Block { stmts, .. } => p + k + "（"@ + decimal(stmts.len() as int) + " 条语句）\n"@ + dump_list(stmts, 0, q),
        NodeView::Prog { stmts } => p + k + "（"@ + decimal(stmts.len() as int) + " 条语句）\n"@ + dump_list(stmts, 0, q),
        NodeView::Func { name, params, body, .. } => p + k + " "@ + name + "（形参 "@ + names_text(params) + "）\n"@
            + dump_text(*body, q),
    }
}

/// The outlines of the nodes from the `i`-th on, one after the other.
pub open spec fn dump_list(ns: Seq<NodeView>, i: int, p: Seq<char>) -> Seq<char>
    decreases ns, ns.len() - i,
{
    if i < 0 || i >= ns.len() {
        Seq::empty()
    } else {
        dump_text(ns[i], p) + dump_list(ns, i + 1, p)
    }
}

/// Appends the quoted names in brackets.
fn push_names(out: &mut String, ps: &Vec<String>)
    ensures
        final(out)@ == old(out)@ + names_text(crate::vm::names_view(ps@)),
{
    let ghost pv = crate::vm::names_view(ps@);
    push_str(out, "[");
    let mut i: usize = 0;
    while i < ps.len()
        invariant
            i <= ps@.len(),
            pv == crate::vm::names_view(ps@),
            old(out)@ + "["@ + names_join(pv, 0) == out@ + names_join(pv, i as int),
        decreases ps@.len() - i,
    {
        let ghost before = out@;
        if i > 0 {
            push_str(out, ", ");
        }
        let q = quoted(ps[i].as_str());
        push_str(out, q.as_str());
        assert(pv[i as int] == ps@[i as int]@);
        assert(out@ + names_join(pv, i + 1) =~= before + names_join(pv, i as int));
        i = i + 1;
    }
    push_str(out, "]");
    assert(final(out)@ =~= old(out)@ + names_text(pv));
}

/// Appends the outline of `n` at indentation `p`.
#[verifier::rlimit(100)]
fn dump_into(out: &mut String, n: &Node, p: &String)
    ensures
        final(out)@ == old(out)@ + dump_text(n@, p@),
    decreases n, 1int,
{
    let mut q = String::new();
    push_str(&mut q, p.as_str());
    push_str(&mut q, "  ");
    let k = node_kind_name(n.kind());
    let ghost o = out@;
    match n {
        Node::Num { num, .. } => {
            push_str(out, p.as_str());
            push_str(out, k);
            push_str(out, " ");
            push_decimal(out, *num);
            push_str(out, "\n");
            assert(out@ =~= o + dump_text(n@, p@));
        },
        Node::Str { text, .. } => {
            push_str(out, p.as_str());
            push_str(out, k);
            push_str(out, " ");
            let t = quoted(text.as_str());
            push_str(out, t.as_str());
            push_str(out, "\n");
            assert(out@ =~= o + dump_text(n@, p@));
        },
        Node::Ident { name, .. } => {
            push_str(out, p.as_str());
            push_str(out, k);
            push_str(out, " ");
            push_str(out, name.as_str());
            push_str(out, "\n");
            assert(out@ =~= o + dump_text(n@, p@));
        },
        Node::Var { name, right, .. } => {
            push_str(out, p.as_str());
            push_str(out, k);
            push_str(out, " ");
            push_str(out, name.as_str());
            push_str(out, "\n");
            dump_into(out, right, &q);
            assert(out@ =~= o + dump_text(n@, p@));
        },
        Node::Array { name, len, right, .. } => {
            push_str(out, p.as_str());
            push_str(out, k);
            push_str(out, " ");
            push_str(out, name.as_str());
            push_str(out, " 长度=");
            push_decimal(out, *len);
            push_str(out, "\n");
            dump_into(out, right, &q);
            assert(out@ =~= o + dump_text(n@, p@));
        },
        Node::Assign { target, right, .. } => {
            push_str(out, p.as_str());
            push_str(out, "赋值\n");
            dump_into(out, target, &q);
            dump_into(out, right, &q);
            assert(out@ =~= o + dump_text(n@, p@));
        },
        Node::Index { base, index, .. } => {
            push_str(out, p.as_str());
            push_str(out, "数组下标\n");
            dump_into(out, base, &q);
            dump_into(out, index, &q);
            assert(out@ =~= o + dump_text(n@, p@));
        },
        Node::Binary { op, left, right, .. } => {
            push_str(out, p.as_str());
            push_str(out, "二元运算 ");
            push_str(out, token_kind_ident_str(*op));
            push_str(out, "\n");
            dump_into(out, left, &q);
            dump_into(out, right, &q);
            assert(out@ =~= o + dump_text(n@, p@));
        },
        Node::Call { name, args, .. } => {
            push_str(out, p.as_str());
            push_str(out, "函数调用 ");
            push_str(out, name.as_str());
            push_str(out, "\n");
            dump_all(out, n, args, &q);
            assert(out@ =~= o + dump_text(n@, p@));
        },
        Node::If { cond, then, else_b, .. } => {
            push_str(out, p.as_str());
            push_str(out, "如果\n");
            dump_into(out, cond, &q);
            push_str(out, p.as_str());
            push_str(out, "  真分支\n");
            dump_into(out, then, &q);
            match else_b {
                Some(eb) => {
                    push_str(out, p.as_str());
                    push_str(out, "  假分支\n");
                    dump_into(out, eb, &q);
                },
                None => {},
            }
            assert(out@ =~= o + dump_text(n@, p@));
        },
        Node::While { cond, body, .. } => {
            push_str(out, p.as_str());
            push_str(out, "当循环\n");
            dump_into(out, cond, &q);
            dump_into(out, body, &q);
            assert(out@ =~= o + dump_text(n@, p@));
        },
        Node::Return { value, .. } => {
            push_str(out, p.as_str());
            push_str(out, "返回\n");
            match value {
                Some(v) => dump_into(out, v, &q),
                None => {},
            }
            assert(out@ =~= o + dump_text(n@, p@));
        },
        Node::Block { stmts, .. } => {
            push_str(out, p.as_str());
            push_str(out, k);
            push_str(out, "（");
            push_unsigned(out, stmts.len());
            push_str(out, " 条语句）\n");
            dump_all(out, n, stmts, &q);
            assert(out@ =~= o + dump_text(n@, p@));
        },
        Node::Prog { stmts } => {
            push_str(out, p.as_str());
            push_str(out, k);
            push_str(out, "（");
            push_unsigned(out, stmts.len());
            push_str(out, " 条语句）\n");
            dump_all(out, n, stmts, &q);
            assert(out@ =~= o + dump_text(n@, p@));
        },
        Node::Func { name, params, body, .. } => {
            push_str(out, p.as_str());
            push_str(out, k);
            push_str(out, " ");
            push_str(out, name.as_str());
            push_str(out, "（形参 ");
            push_names(out, params);
            push_str(out, "）\n");
            dump_into(out, body, &q);
            assert(out@ =~= o + dump_text(n@, p@));
        },
    }
}

/// Appends the outlines of the children `ns` of `parent`.
fn dump_all(out: &mut String, parent: &Node, ns: &Vec<Node>, p: &String)
    requires
        (parent is Call && parent->Call_args == *ns) || (parent is Block && parent->Block_stmts == *ns) || (
        parent is Prog && parent->Prog_stmts == *ns),
    ensures
        final(out)@ == old(out)@ + dump_list(crate::ast::nodes_view(ns@), 0, p@),
    decreases parent, 0int,
{
    let ghost nv = crate::ast::nodes_view(ns@);
    let mut i: usize = 0;
    while i < ns.len()
        invariant
            i <= ns@.len(),
            nv == crate::ast::nodes_view(ns@),
            (parent is Call && parent->Call_args == *ns) || (parent is Block && parent->Block_stmts == *ns) || (
            parent is Prog && parent->Prog_stmts == *ns),
            old(out)@ + dump_list(nv, 0, p@) == out@ + dump_list(nv, i as int, p@),
        decreases ns@.len() - i,
    {
        assert(decreases_to!(parent => ns@[i as int]));
        assert(nv[i as int] == ns@[i as int]@);
        let ghost before = out@;
        dump_into(out, &ns[i], p);
        assert(out@ + dump_list(nv, i + 1, p@) =~= before + dump_list(nv, i as int, p@));
        i = i + 1;
    }
}

/// The outline of a syntax tree, starting at indentation level `indent`.
pub fn node_dump(n: &Node, indent: usize) -> (s: String)
    ensures
        s@ == dump_text(n@, pad_of(indent as nat)),
{
    let mut p = String::new();
    let mut i: usize = 0;
    while i < indent
        invariant
            i <= indent,
            p@ == pad_of(i as nat),
        decreases indent - i,
    {
        push_str(&mut p, "  ");
        i = i + 1;
    }
    let mut s = String::new();
    dump_into(&mut s, n, &p);
    assert(s@ =~= dump_text(n@, pad_of(indent as nat)));
    s
}

/// The listing line of token `i`: its line, kind, quoted text (where it has
/// one) and number.
pub open spec fn token_text(i: int, t: TokenView) -> Seq<char> {
    "["@ + decimal(i) + "] 行 "@ + decimal(t.line as int) + " "@ + token_kind_text(t.kind) + match t.text {
        Some(x) => " "@ + debug_text(x),
        None => Seq::empty(),
    } + " 数值="@ + decimal(t.num as int)
}

/// The listing line of token `i`.
pub fn token_line(i: usize, t: &Token) -> (s: String)
    ensures
        s@ == token_text(i as int, t@),
{
    let mut s = String::new();
    push_str(&mut s, "[");
    push_unsigned(&mut s, i);
    push_str(&mut s, "] 行 ");
    push_unsigned(&mut s, t.line);
    push_str(&mut s, " ");
    push_str(&mut s, token_kind_name(t.kind));
    match &t.text {
        Some(x) => {
            push_str(&mut s, " ");
            let q = quoted(x.as_str());
            push_str(&mut s, q.as_str());
        },
        None => {},
    }
    push_str(&mut s, " 数值=");
    push_decimal(&mut s, t.num);
    assert(s@ =~= token_text(i as int, t@));
    s
}

/// Where calls of a function go: machine code (or `已关闭` when machine code
/// is off, `未 JIT` when it has none), then the VM or the interpreter.
pub open spec fn function_text(name: Seq<char>, params: Seq<Seq<char>>, vm: Option<usize>, jit: Option<usize>, jit_enabled: bool) -> Seq<char> {
    "函数 "@ + name + "（形参 "@ + names_text(params) + "）→ "@ + (if !jit_enabled {
        "已关闭"@
    } else {
        match jit {
            Some(j) => "JIT ["@ + decimal(j as int) + "]"@,
            None => "未 JIT"@,
        }
    }) + " / "@ + match vm {
        Some(v) => "VM ["@ + decimal(v as int) + "]"@,
        None => "解释"@,
    }
}

/// The listing line of a registered function.
pub fn function_line(f: &Function, jit_enabled: bool) -> (s: String)
    ensures
        s@ == function_text(f.name@, crate::vm::names_view(f.params@), f.vm, f.jit, jit_enabled),
{
    let mut s = String::new();
    push_str(&mut s, "函数 ");
    push_str(&mut s, f.name.as_str());
    push_str(&mut s, "（形参 ");
    push_names(&mut s, &f.params);
    push_str(&mut s, "）→ ");
    if !jit_enabled {
        push_str(&mut s, "已关闭");
    } else {
        match f.jit {
            Some(j) => {
                push_str(&mut s, "JIT [");
                push_unsigned(&mut s, j);
                push_str(&mut s, "]");
            },
            None => push_str(&mut s, "未 JIT"),
        }
    }
    push_str(&mut s, " / ");
    match f.vm {
        Some(v) => {
            push_str(&mut s, "VM [");
            push_unsigned(&mut s, v);
            push_str(&mut s, "]");
        },
        None => push_str(&mut s, "解释"),
    }
    assert(s@ =~= function_text(f.name@, crate::vm::names_view(f.params@), f.vm, f.jit, jit_enabled));
    s
}

} // verus!
