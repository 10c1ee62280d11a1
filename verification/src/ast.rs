//! The syntax tree produced by the parser and consumed by the interpreter,
//! the bytecode compiler and the code generator, and the error type shared
//! by the whole front end.
use vstd::prelude::*;
use crate::lexer::TokenKind;
use crate::text::{decimal, push_str, push_unsigned};

verus! {

/// The kind of a syntax tree node.
#[derive(Debug, Clone, Copy, PartialEq, Eq, Structural)]
pub enum NodeKind {
    Num,
    Str,
    Ident,
    Var,
    Array,
    Assign,
    Index,
    Binary,
    Call,
    If,
    While,
    Return,
    Block,
    Prog,
    Func,
}

/// A syntax tree node; every variant but `Prog` carries its source line.
#[derive(Debug)]
pub enum Node {
    /// Integer literal.
    Num { line: usize, num: i64 },
    /// String literal.
    Str { line: usize, text: String },
    /// Variable read.
    Ident { line: usize, name: String },
    /// `变量 name = right`.
    Var { line: usize, name: String, right: Box<Node> },
    /// `数组 name[len] = { right }`: every element starts as `right`.
    Array { line: usize, name: String, len: i64, right: Box<Node> },
    /// `target = right`; the target is an `Ident` or an `Index`.
    Assign { line: usize, target: Box<Node>, right: Box<Node> },
    /// `base[index]`.
    Index { line: usize, base: Box<Node>, index: Box<Node> },
    /// `left op right`.
    Binary { line: usize, op: TokenKind, left: Box<Node>, right: Box<Node> },
    /// A call of a user function or of the built-in `喵叫`.
    Call { line: usize, name: String, args: Vec<Node> },
    /// `如果 cond 那么? { then } 否则? { else_b }`.
    If { line: usize, cond: Box<Node>, then: Box<Node>, else_b: Option<Box<Node>> },
    /// `当 cond 那么? { body }`.
    While { line: usize, cond: Box<Node>, body: Box<Node> },
    /// `返回 value?`.
    Return { line: usize, value: Option<Box<Node>> },
    /// `{ stmts }`.
    Block { line: usize, stmts: Vec<Node> },
    /// The top-level statements of a program.
    Prog { stmts: Vec<Node> },
    /// `喵 name(params) { body }`.
    Func { line: usize, name: String, params: Vec<String>, body: Box<Node> },
}

/// The abstract value of a node: strings as character sequences.
pub enum NodeView {
    Num { line: usize, num: i64 },
    Str { line: usize, text: Seq<char> },
    Ident { line: usize, name: Seq<char> },
    Var { line: usize, name: Seq<char>, right: Box<NodeView> },
    Array { line: usize, name: Seq<char>, len: i64, right: Box<NodeView> },
    Assign { line: usize, target: Box<NodeView>, right: Box<NodeView> },
    Index { line: usize, base: Box<NodeView>, index: Box<NodeView> },
    Binary { line: usize, op: TokenKind, left: Box<NodeView>, right: Box<NodeView> },
    Call { line: usize, name: Seq<char>, args: Seq<NodeView> },
    If { line: usize, cond: Box<NodeView>, then: Box<NodeView>, else_b: Option<Box<NodeView>> },
    While { line: usize, cond: Box<NodeView>, body: Box<NodeView> },
    Return { line: usize, value: Option<Box<NodeView>> },
    Block { line: usize, stmts: Seq<NodeView> },
    Prog { stmts: Seq<NodeView> },
    Func { line: usize, name: Seq<char>, params: Seq<Seq<char>>, body: Box<NodeView> },
}

/// The view of each node of a list.
pub open spec fn nodes_view(s: Seq<Node>) -> Seq<NodeView>
    decreases s, 0int,
{
    Seq::new(s.len(), |i: int| if 0 <= i < s.len() { node_view(s[i]) } else { NodeView::Prog { stmts: Seq::empty() } })
}

/// The abstract value of a node.
pub open spec fn node_view(n: Node) -> NodeView
    decreases n, 1int,
{
    match n {
        Node::Num { line, num } => NodeView::Num { line, num },
        Node::Str { line, text } => NodeView::Str { line, text: text@ },
        Node::Ident { line, name } => NodeView::Ident { line, name: name@ },
        Node::Var { line, name, right } => NodeView::Var { line, name: name@, right: Box::new(node_view(*right)) },
        Node::Array { line, name, len, right } => NodeView::Array {
            line,
            name: name@,
            len,
            right: Box::new(node_view(*right)),
        },
        Node::Assign { line, target, right } => NodeView::Assign {
            line,
            target: Box::new(node_view(*target)),
            right: Box::new(node_view(*right)),
        },
        Node::Index { line, base, index } => NodeView::Index {
            line,
            base: Box::new(node_view(*base)),
            index: Box::new(node_view(*index)),
        },
        Node::Binary { line, op, left, right } => NodeView::Binary {
            line,
            op,
            left: Box::new(node_view(*left)),
            right: Box::new(node_view(*right)),
        },
        Node::Call { line, name, args } => NodeView::Call {
            line,
            name: name@,
            args: nodes_view(args@),
        },
        Node::If { line, cond, then, else_b } => NodeView::If {
            line,
            cond: Box::new(node_view(*cond)),
            then: Box::new(node_view(*then)),
            else_b: match else_b {
                Some(e) => Some(Box::new(node_view(*e))),
                None => None,
            },
        },
        Node::While { line, cond, body } => NodeView::While {
            line,
            cond: Box::new(node_view(*cond)),
            body: Box::new(node_view(*body)),
        },
        Node::Return { line, value } => NodeView::Return {
            line,
            value: match value {
                Some(e) => Some(Box::new(node_view(*e))),
                None => None,
            },
        },
        Node::Block { line, stmts } => NodeView::Block {
            line,
            stmts: nodes_view(stmts@),
        },
        Node::Prog { stmts } => NodeView::Prog {
            stmts: nodes_view(stmts@),
        },
        Node::Func { line, name, params, body } => NodeView::Func {
            line,
            name: name@,
            params: params@.map_values(|p: String| p@),
            body: Box::new(node_view(*body)),
        },
    }
}

/// A node whose view is an identifier is an identifier.
pub proof fn lemma_ident_view(n: Node)
    requires
        kind_of(n@) == NodeKind::Ident,
    ensures
        n is Ident,
        n@ == (NodeView::Ident { line: n->Ident_line, name: n->Ident_name@ }),
{
}

impl View for Node {
    type V = NodeView;

    open spec fn view(&self) -> NodeView {
        node_view(*self)
    }
}

/// The kind of a node view.
pub open spec fn kind_of(n: NodeView) -> NodeKind {
    match n {
        NodeView::Num { .. } => NodeKind::Num,
        NodeView::Str { .. } => NodeKind::Str,
        NodeView::Ident { .. } => NodeKind::Ident,
        NodeView::Var { .. } => NodeKind::Var,
        NodeView::Array { .. } => NodeKind::Array,
        NodeView::Assign { .. } => NodeKind::Assign,
        NodeView::Index { .. } => NodeKind::Index,
        NodeView::Binary { .. } => NodeKind::Binary,
        NodeView::Call { .. } => NodeKind::Call,
        NodeView::If { .. } => NodeKind::If,
        NodeView::While { .. } => NodeKind::While,
        NodeView::Return { .. } => NodeKind::Return,
        NodeView::Block { .. } => NodeKind::Block,
        NodeView::Prog { .. } => NodeKind::Prog,
        NodeView::Func { .. } => NodeKind::Func,
    }
}

/// The source line of a node view (0 for a program).
pub open spec fn line_of(n: NodeView) -> usize {
    match n {
        NodeView::Num { line, .. } => line,
        NodeView::Str { line, .. } => line,
        NodeView::Ident { line, .. } => line,
        NodeView::Var { line, .. } => line,
        NodeView::Array { line, .. } => line,
        NodeView::Assign { line, .. } => line,
        NodeView::Index { line, .. } => line,
        NodeView::Binary { line, .. } => line,
        NodeView::Call { line, .. } => line,
        NodeView::If { line, .. } => line,
        NodeView::While { line, .. } => line,
        NodeView::Return { line, .. } => line,
        NodeView::Block { line, .. } => line,
        NodeView::Prog { .. } => 0,
        NodeView::Func { line, .. } => line,
    }
}

impl Node {
    /// The kind of this node.
    pub fn kind(&self) -> (k: NodeKind)
        ensures
            k == kind_of(self@),
    {
        match self {
            Node::Num { .. } => NodeKind::Num,
            Node::Str { .. } => NodeKind::Str,
            Node::Ident { .. } => NodeKind::Ident,
            Node::Var { .. } => NodeKind::Var,
            Node::Array { .. } => NodeKind::Array,
            Node::Assign { .. } => NodeKind::Assign,
            Node::Index { .. } => NodeKind::Index,
            Node::Binary { .. } => NodeKind::Binary,
            Node::Call { .. } => NodeKind::Call,
            Node::If { .. } => NodeKind::If,
            Node::While { .. } => NodeKind::While,
            Node::Return { .. } => NodeKind::Return,
            Node::Block { .. } => NodeKind::Block,
            Node::Prog { .. } => NodeKind::Prog,
            Node::Func { .. } => NodeKind::Func,
        }
    }

    /// The source line of this node; a program has none and gives 0.
    pub fn line(&self) -> (l: usize)
        ensures
            l == line_of(self@),
    {
        match self {
            Node::Num { line, .. } => *line,
            Node::Str { line, .. } => *line,
            Node::Ident { line, .. } => *line,
            Node::Var { line, .. } => *line,
            Node::Array { line, .. } => *line,
            Node::Assign { line, .. } => *line,
            Node::Index { line, .. } => *line,
            Node::Binary { line, .. } => *line,
            Node::Call { line, .. } => *line,
            Node::If { line, .. } => *line,
            Node::While { line, .. } => *line,
            Node::Return { line, .. } => *line,
            Node::Block { line, .. } => *line,
            Node::Prog { .. } => 0,
            Node::Func { line, .. } => *line,
        }
    }
}

/// An error of the lexer, the parser or the interpreter: a source line
/// (0 when unknown) and a message.
#[derive(Debug, Clone)]
pub struct RuaError {
    pub line: usize,
    pub msg: String,
}

/// The abstract value of an error.
pub struct ErrorView {
    pub line: usize,
    pub msg: Seq<char>,
}

impl View for RuaError {
    type V = ErrorView;

    open spec fn view(&self) -> ErrorView {
        ErrorView { line: self.line, msg: self.msg@ }
    }
}

pub open spec fn err_view(line: usize, msg: Seq<char>) -> ErrorView {
    ErrorView { line, msg }
}

impl RuaError {
    /// An error at `line` with message `msg`.
    pub fn new(line: usize, msg: &str) -> (e: RuaError)
        ensures
            e@ == err_view(line, msg@),
    {
        RuaError { line, msg: String::from_str(msg) }
    }

    /// The report text: `第 N 行：` followed by the message.
    pub fn report(&self) -> (s: String)
        ensures
            s@ == "第 "@ + decimal(self.line as int) + " 行："@ + self.msg@,
    {
        let mut s = String::from_str("第 ");
        push_unsigned(&mut s, self.line);
        push_str(&mut s, " 行：");
        push_str(&mut s, self.msg.as_str());
        s
    }
}

/// The readable name of a node kind.
pub open spec fn node_kind_text(k: NodeKind) -> Seq<char> {
    match k {
        NodeKind::Num => "数字"@,
        NodeKind::Str => "字符串"@,
        NodeKind::Ident => "变量引用"@,
        NodeKind::Var => "变量声明"@,
        NodeKind::Array => "数组声明"@,
        NodeKind::Assign => "赋值"@,
        NodeKind::Index => "数组下标"@,
        NodeKind::Binary => "二元运算"@,
        NodeKind::Call => "函数调用"@,
        NodeKind::If => "如果"@,
        NodeKind::While => "当循环"@,
        NodeKind::Return => "返回"@,
        NodeKind::Block => "代码块"@,
        NodeKind::Prog => "程序"@,
        NodeKind::Func => "函数定义"@,
    }
}

/// The readable (Chinese) name of a node kind, used in debug output.
pub fn node_kind_name(k: NodeKind) -> (s: &'static str)
    ensures
        s@ == node_kind_text(k),
{
    match k {
        NodeKind::Num => "数字",
        NodeKind::Str => "字符串",
        NodeKind::Ident => "变量引用",
        NodeKind::Var => "变量声明",
        NodeKind::Array => "数组声明",
        NodeKind::Assign => "赋值",
        NodeKind::Index => "数组下标",
        NodeKind::Binary => "二元运算",
        NodeKind::Call => "函数调用",
        NodeKind::If => "如果",
        NodeKind::While => "当循环",
        NodeKind::Return => "返回",
        NodeKind::Block => "代码块",
        NodeKind::Prog => "程序",
        NodeKind::Func => "函数定义",
    }
}

/// A copy of a list of names.
pub fn copy_names(v: &Vec<String>) -> (c: Vec<String>)
    ensures
        c@.map_values(|p: String| p@) == v@.map_values(|p: String| p@),
{
    let mut c: Vec<String> = Vec::new();
    let mut i: usize = 0;
    while i < v.len()
        invariant
            i <= v@.len(),
            c@.map_values(|p: String| p@) == v@.subrange(0, i as int).map_values(|p: String| p@),
        decreases v@.len() - i,
    {
        let ghost before = c@;
        let x = v[i].clone();
        c.push(x);
        assert(c@.map_values(|p: String| p@) =~= before.map_values(|p: String| p@).push(v@[i as int]@));
        assert(v@.subrange(0, i + 1).map_values(|p: String| p@) =~= v@.subrange(0, i as int).map_values(|p: String| p@).push(v@[i as int]@));
        i = i + 1;
    }
    assert(v@.subrange(0, v@.len() as int) =~= v@);
    c
}

/// A deep copy of a node.
pub fn copy_node(n: &Node) -> (c: Node)
    ensures
        c@ == n@,
    decreases n, 1int,
{
    match n {
        Node::Num { line, num } => Node::Num { line: *line, num: *num },
        Node::Str { line, text } => Node::Str { line: *line, text: text.clone() },
        Node::Ident { line, name } => Node::Ident { line: *line, name: name.clone() },
        Node::Var { line, name, right } => Node::Var { line: *line, name: name.clone(), right: Box::new(copy_node(right)) },
        Node::Array { line, name, len, right } => Node::Array {
            line: *line,
            name: name.clone(),
            len: *len,
            right: Box::new(copy_node(right)),
        },
        Node::Assign { line, target, right } => Node::Assign {
            line: *line,
            target: Box::new(copy_node(target)),
            right: Box::new(copy_node(right)),
        },
        Node::Index { line, base, index } => Node::Index {
            line: *line,
            base: Box::new(copy_node(base)),
            index: Box::new(copy_node(index)),
        },
        Node::Binary { line, op, left, right } => Node::Binary {
            line: *line,
            op: *op,
            left: Box::new(copy_node(left)),
            right: Box::new(copy_node(right)),
        },
        Node::Call { line, name, args } => Node::Call { line: *line, name: name.clone(), args: copy_nodes(n, args) },
        Node::If { line, cond, then, else_b } => Node::If {
            line: *line,
            cond: Box::new(copy_node(cond)),
            then: Box::new(copy_node(then)),
            else_b: match else_b {
                Some(e) => Some(Box::new(copy_node(e))),
                None => None,
            },
        },
        Node::While { line, cond, body } => Node::While {
            line: *line,
            cond: Box::new(copy_node(cond)),
            body: Box::new(copy_node(body)),
        },
        Node::Return { line, value } => Node::Return {
            line: *line,
            value: match value {
                Some(e) => Some(Box::new(copy_node(e))),
                None => None,
            },
        },
        Node::Block { line, stmts } => Node::Block { line: *line, stmts: copy_nodes(n, stmts) },
        Node::Prog { stmts } => Node::Prog { stmts: copy_nodes(n, stmts) },
        Node::Func { line, name, params, body } => Node::Func {
            line: *line,
            name: name.clone(),
            params: copy_names(params),
            body: Box::new(copy_node(body)),
        },
    }
}

fn copy_nodes(parent: &Node, ns: &Vec<Node>) -> (c: Vec<Node>)
    requires
        (parent is Block && parent->Block_stmts == *ns) || (parent is Prog && parent->Prog_stmts == *ns) || (
        parent is Call && parent->Call_args == *ns),
    ensures
        nodes_view(c@) == nodes_view(ns@),
    decreases parent, 0int,
{
    let mut c: Vec<Node> = Vec::new();
    let mut i: usize = 0;
    while i < ns.len()
        invariant
            i <= ns@.len(),
            (parent is Block && parent->Block_stmts == *ns) || (parent is Prog && parent->Prog_stmts == *ns) || (
            parent is Call && parent->Call_args == *ns),
            nodes_view(c@) == nodes_view(ns@).subrange(0, i as int),
        decreases ns@.len() - i,
    {
        assert(decreases_to!(parent => ns@[i as int]));
        let ghost before = c@;
        let x = copy_node(&ns[i]);
        c.push(x);
        assert(nodes_view(c@) =~= nodes_view(before).push(ns@[i as int]@));
        assert(nodes_view(ns@).subrange(0, i + 1) =~= nodes_view(ns@).subrange(0, i as int).push(ns@[i as int]@));
        i = i + 1;
    }
    assert(nodes_view(ns@).subrange(0, ns@.len() as int) =~= nodes_view(ns@));
    c
}

} // verus!
