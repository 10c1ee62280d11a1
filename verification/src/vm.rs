//! The integer bytecode VM: a stack machine for "VM-able" functions.
//!
//! A function is VM-able when it only works on integers: no string literal
//! outside a `喵叫` argument, no array, no indexing, every name is one of its
//! parameters or a local it declares with `变量`, and every function it
//! calls is VM-able too (a property computed over the whole function table).
//! Such functions are compiled to stack-machine code and run by a frame
//! machine; everything else stays with the tree-walking interpreter.
use vstd::prelude::*;
use crate::ast::{err_view, kind_of, lemma_ident_view, line_of, nodes_view, ErrorView, Node, NodeKind, NodeView, RuaError};
use crate::lexer::TokenKind;
use crate::text::{debug_text, decimal, push_char, push_decimal, push_str, push_unsigned, quoted};
use vstd::string::StrSliceExecFns;

verus! {

/// Stack values: integers, and string literals handed to `喵叫`.
#[derive(Debug, Clone)]
pub enum VmVal {
    Int(i64),
    Str(String),
}

/// Stack-machine instructions. Operators pop the right then the left operand
/// and push the result; jump targets are instruction indices.
#[derive(Debug, Clone)]
pub enum Inst {
    Push(i64),
    PushStr(String),
    LoadVar(u32),
    StoreVar(u32),
    Add,
    Sub,
    Mul,
    /// Division, with the source line for its error.
    Div(u32),
    /// Remainder, with the source line for its error.
    Mod(u32),
    Eq,
    Ne,
    Gt,
    Lt,
    Ge,
    Le,
    Jmp(usize),
    /// Pops the top and jumps when it is 0.
    Jz(usize),
    /// Calls the function with this index on this many arguments.
    Call(usize, u8),
    /// The built-in `喵叫` on this many arguments.
    CallPrint(u8),
    Ret,
    Pop,
}

/// The abstract value of an instruction.
pub enum InstView {
    Push(i64),
    PushStr(Seq<char>),
    LoadVar(u32),
    StoreVar(u32),
    Add,
    Sub,
    Mul,
    Div(u32),
    Mod(u32),
    Eq,
    Ne,
    Gt,
    Lt,
    Ge,
    Le,
    Jmp(usize),
    Jz(usize),
    Call(usize, u8),
    CallPrint(u8),
    Ret,
    Pop,
}

impl View for Inst {
    type V = InstView;

    open spec fn view(&self) -> InstView {
        match self {
            Inst::Push(n) => InstView::Push(*n),
            Inst::PushStr(s) => InstView::PushStr(s@),
            Inst::LoadVar(i) => InstView::LoadVar(*i),
            Inst::StoreVar(i) => InstView::StoreVar(*i),
            Inst::Add => InstView::Add,
            Inst::Sub => InstView::Sub,
            Inst::Mul => InstView::Mul,
            Inst::Div(l) => InstView::Div(*l),
            Inst::Mod(l) => InstView::Mod(*l),
            Inst::Eq => InstView::Eq,
            Inst::Ne => InstView::Ne,
            Inst::Gt => InstView::Gt,
            Inst::Lt => InstView::Lt,
            Inst::Ge => InstView::Ge,
            Inst::Le => InstView::Le,
            Inst::Jmp(t) => InstView::Jmp(*t),
            Inst::Jz(t) => InstView::Jz(*t),
            Inst::Call(i, n) => InstView::Call(*i, *n),
            Inst::CallPrint(n) => InstView::CallPrint(*n),
            Inst::Ret => InstView::Ret,
            Inst::Pop => InstView::Pop,
        }
    }
}

pub open spec fn code_view(c: Seq<Inst>) -> Seq<InstView> {
    c.map_values(|i: Inst| i@)
}

/// A compiled function: its code and its number of local slots.
#[derive(Debug)]
pub struct VmFunc {
    pub code: Vec<Inst>,
    pub locals: u32,
}

/// The compiled VM-able functions, indexed, with their names.
pub struct VmEngine {
    pub funcs: Vec<VmFunc>,
    /// Name to index, one entry per name (a later entry for the same name
    /// replaces the earlier one).
    pub map: Vec<(String, usize)>,
}

// ---------------------------------------------------------------------
// Name tables: association lists with one entry per name.
// ---------------------------------------------------------------------

/// The index of the entry for `name` at or after `i`, or -1.
pub open spec fn find_from<V>(t: Seq<(Seq<char>, V)>, name: Seq<char>, i: int) -> int
    decreases t.len() - i,
{
    if i < 0 || i >= t.len() {
        -1
    } else if t[i].0 == name {
        i
    } else {
        find_from(t, name, i + 1)
    }
}

pub open spec fn find<V>(t: Seq<(Seq<char>, V)>, name: Seq<char>) -> int {
    find_from(t, name, 0)
}

pub open spec fn lookup<V>(t: Seq<(Seq<char>, V)>, name: Seq<char>) -> Option<V> {
    if find(t, name) >= 0 { Some(t[find(t, name)].1) } else { None }
}

/// Sets `name` to `v`: replaces its entry, or appends one.
pub open spec fn insert<V>(t: Seq<(Seq<char>, V)>, name: Seq<char>, v: V) -> Seq<(Seq<char>, V)> {
    if find(t, name) >= 0 {
        t.update(find(t, name), (name, v))
    } else {
        t.push((name, v))
    }
}

pub open spec fn table_view<V>(t: Seq<(String, V)>) -> Seq<(Seq<char>, V)> {
    t.map_values(|e: (String, V)| (e.0@, e.1))
}

proof fn lemma_find_from<V>(t: Seq<(Seq<char>, V)>, name: Seq<char>, i: int)
    requires
        0 <= i,
    ensures
        find_from(t, name, i) == -1 || (i <= find_from(t, name, i) < t.len() && t[find_from(
            t,
            name,
            i,
        )].0 == name),
        find_from(t, name, i) == -1 ==> forall|k: int| i <= k < t.len() ==> t[k].0 != name,
    decreases t.len() - i,
{
    if i < t.len() && t[i].0 != name {
        lemma_find_from(t, name, i + 1);
    }
}

/// The index of the entry for `name`.
fn table_find<V>(t: &Vec<(String, V)>, name: &String) -> (r: Option<usize>)
    ensures
        find(table_view(t@), name@) >= 0 <==> r is Some,
        r matches Some(i) ==> i == find(table_view(t@), name@) && i < t@.len(),
{
    let mut i: usize = 0;
    while i < t.len()
        invariant
            i <= t@.len(),
            find_from(table_view(t@), name@, i as int) == find(table_view(t@), name@),
        decreases t@.len() - i,
    {
        if t[i].0 == *name {
            return Some(i);
        }
        i = i + 1;
    }
    None
}

/// The slot stored for `name`.
pub fn table_get_u32(t: &Vec<(String, u32)>, name: &String) -> (r: Option<u32>)
    ensures
        r == lookup(table_view(t@), name@),
{
    table_get(t, name)
}

/// The value stored for `name`.
pub fn table_lookup(t: &Vec<(String, usize)>, name: &String) -> (r: Option<usize>)
    ensures
        r == lookup(table_view(t@), name@),
{
    table_get(t, name)
}

/// The value stored for `name`.
fn table_get<V: Copy>(t: &Vec<(String, V)>, name: &String) -> (r: Option<V>)
    ensures
        r == lookup(table_view(t@), name@),
{
    match table_find(t, name) {
        Some(i) => Some(t[i].1),
        None => None,
    }
}

/// Sets `name` to `v`.
pub(crate) fn table_insert<V: Copy>(t: &mut Vec<(String, V)>, name: String, v: V)
    ensures
        table_view(final(t)@) == insert(table_view(old(t)@), name@, v),
        final(t)@.len() == insert(table_view(old(t)@), name@, v).len(),
{
    let ghost tv = table_view(t@);
    match table_find(t, &name) {
        Some(i) => {
            t.set(i, (name, v));
            assert(table_view(t@) =~= tv.update(i as int, (name@, v)));
        },
        None => {
            t.push((name, v));
            assert(table_view(t@) =~= tv.push((name@, v)));
        },
    }
}

impl VmEngine {
    /// The index of the function called `name`, if it is VM-able.
    pub fn get_idx(&self, name: &String) -> (r: Option<usize>)
        ensures
            r == lookup(table_view(self.map@), name@),
    {
        table_get(&self.map, name)
    }

    /// The number of VM-able functions.
    pub fn len(&self) -> (n: usize)
        ensures
            n == self.funcs@.len(),
    {
        self.funcs.len()
    }
}


// ---------------------------------------------------------------------
// Which functions are VM-able: the pre-scan.
// ---------------------------------------------------------------------

/// The name of the built-in print.
pub open spec fn print_name() -> Seq<char> {
    "喵叫"@
}

/// What the pre-scan of a function has found so far: its local slots (the
/// parameters first, then each `变量` in order) and the names it calls.
pub struct ScanView {
    pub vars: Seq<(Seq<char>, u32)>,
    pub callees: Seq<Seq<char>>,
}

/// The pre-scan state of a function.
pub struct ScanInfo {
    pub vars: Vec<(String, u32)>,
    pub callees: Vec<String>,
}

impl View for ScanInfo {
    type V = ScanView;

    open spec fn view(&self) -> ScanView {
        ScanView { vars: table_view(self.vars@), callees: self.callees@.map_values(|s: String| s@) }
    }
}

/// Scans an expression: `None` when it is not VM-able, else the state with
/// the names it calls added.
pub open spec fn sc_expr(e: NodeView, s: ScanView) -> Option<ScanView>
    decreases e, 0int,
{
    match e {
        NodeView::Num { .. } => Some(s),
        NodeView::Ident { name, .. } => if lookup(s.vars, name) is Some {
            Some(s)
        } else {
            None
        },
        NodeView::Binary { left, right, .. } => match sc_expr(*left, s) {
            Some(s1) => sc_expr(*right, s1),
            None => None,
        },
        NodeView::Call { name, args, .. } => if name == print_name() {
            sc_print_args(args, 0, s)
        } else {
            sc_args(args, 0, ScanView { vars: s.vars, callees: s.callees.push(name) })
        },
        _ => None,
    }
}

/// Scans the arguments of a user call from the `i`-th on.
pub open spec fn sc_args(args: Seq<NodeView>, i: int, s: ScanView) -> Option<ScanView>
    decreases args, args.len() - i,
{
    if i < 0 || i >= args.len() {
        Some(s)
    } else {
        match sc_expr(args[i], s) {
            Some(s1) => sc_args(args, i + 1, s1),
            None => None,
        }
    }
}

/// Scans the arguments of `喵叫` from the `i`-th on: string literals pass.
pub open spec fn sc_print_args(args: Seq<NodeView>, i: int, s: ScanView) -> Option<ScanView>
    decreases args, args.len() - i,
{
    if i < 0 || i >= args.len() {
        Some(s)
    } else if args[i] is Str {
        sc_print_args(args, i + 1, s)
    } else {
        match sc_expr(args[i], s) {
            Some(s1) => sc_print_args(args, i + 1, s1),
            None => None,
        }
    }
}

/// Scans a statement; a `变量` takes the next slot, numbered by the size of
/// the table before it.
pub open spec fn sc_stmt(st: NodeView, s: ScanView) -> Option<ScanView>
    decreases st, 1int,
{
    match st {
        NodeView::Var { name, right, .. } => match sc_expr(*right, s) {
            Some(s1) => Some(
                ScanView { vars: insert(s1.vars, name, s1.vars.len() as u32), callees: s1.callees },
            ),
            None => None,
        },
        NodeView::Assign { target, right, .. } => match *target {
            NodeView::Ident { name, .. } => if lookup(s.vars, name) is Some {
                sc_expr(*right, s)
            } else {
                None
            },
            _ => None,
        },
        NodeView::Return { value, .. } => match value {
            Some(e) => sc_expr(*e, s),
            None => Some(s),
        },
        NodeView::If { cond, then, else_b, .. } => match sc_expr(*cond, s) {
            Some(s1) => match sc_block(*then, s1) {
                Some(s2) => match else_b {
                    Some(eb) => sc_block(*eb, s2),
                    None => Some(s2),
                },
                None => None,
            },
            None => None,
        },
        NodeView::While { cond, body, .. } => match sc_expr(*cond, s) {
            Some(s1) => sc_block(*body, s1),
            None => None,
        },
        NodeView::Block { .. } => sc_block(st, s),
        _ => sc_expr(st, s),
    }
}

/// Scans a block or a program statement by statement.
pub open spec fn sc_block(b: NodeView, s: ScanView) -> Option<ScanView>
    decreases b, 0int,
{
    match b {
        NodeView::Block { stmts, .. } => sc_stmts(stmts, 0, s),
        NodeView::Prog { stmts } => sc_stmts(stmts, 0, s),
        _ => None,
    }
}

pub open spec fn sc_stmts(stmts: Seq<NodeView>, i: int, s: ScanView) -> Option<ScanView>
    decreases stmts, stmts.len() - i,
{
    if i < 0 || i >= stmts.len() {
        Some(s)
    } else {
        match sc_stmt(stmts[i], s) {
            Some(s1) => sc_stmts(stmts, i + 1, s1),
            None => None,
        }
    }
}

/// The slots of the parameters: the `k`-th parameter gets slot `k`, a
/// repeated name keeps its last slot.
pub open spec fn param_vars(params: Seq<Seq<char>>, n: int) -> Seq<(Seq<char>, u32)>
    decreases n,
{
    if n <= 0 || n > params.len() {
        Seq::empty()
    } else {
        insert(param_vars(params, n - 1), params[n - 1], (n - 1) as u32)
    }
}

/// The pre-scan of a function: `None` when it is not VM-able.
pub open spec fn sc_function(params: Seq<Seq<char>>, body: NodeView) -> Option<ScanView> {
    sc_block(body, ScanView { vars: param_vars(params, params.len() as int), callees: Seq::empty() })
}

/// Whether `name` is the built-in print.
pub(crate) fn is_print_name(name: &String) -> (b: bool)
    ensures
        b == (name@ == print_name()),
{
    let p = String::from_str("喵叫");
    *name == p
}

fn scan_expr(e: &Node, info: &mut ScanInfo) -> (ok: bool)
    ensures
        ok == sc_expr(e@, old(info)@) is Some,
        ok ==> final(info)@ == sc_expr(e@, old(info)@).unwrap(),
    decreases e,
{
    match e {
        Node::Num { .. } => true,
        Node::Ident { name, .. } => table_get(&info.vars, name).is_some(),
        Node::Binary { left, right, .. } => {
            if !scan_expr(left, info) {
                return false;
            }
            scan_expr(right, info)
        },
        Node::Call { name, args, .. } => {
            let ghost av = nodes_view(args@);
            if is_print_name(name) {
                let ghost s0 = info@;
                let mut i: usize = 0;
                while i < args.len()
                    invariant
                        i <= args@.len(),
                        av == nodes_view(args@),
                        sc_print_args(av, 0, s0) == sc_print_args(av, i as int, info@),
                        sc_expr(e@, old(info)@) == sc_print_args(av, 0, s0),
                        e is Call && e->Call_args == *args,
                    decreases args@.len() - i,
                {
                    assert(av[i as int] == args@[i as int]@);
                    assert(decreases_to!(e => args@[i as int]));
                    match &args[i] {
                        Node::Str { .. } => {},
                        _ => {
                            if !scan_expr(&args[i], info) {
                                return false;
                            }
                        },
                    }
                    i = i + 1;
                }
                true
            } else {
                info.callees.push(name.clone());
                proof {
                    assert(info@.callees =~= old(info)@.callees.push(name@));
                }
                let ghost s0 = info@;
                let mut i: usize = 0;
                while i < args.len()
                    invariant
                        i <= args@.len(),
                        av == nodes_view(args@),
                        sc_args(av, 0, s0) == sc_args(av, i as int, info@),
                        sc_expr(e@, old(info)@) == sc_args(av, 0, s0),
                        e is Call && e->Call_args == *args,
                    decreases args@.len() - i,
                {
                    assert(av[i as int] == args@[i as int]@);
                    assert(decreases_to!(e => args@[i as int]));
                    if !scan_expr(&args[i], info) {
                        return false;
                    }
                    i = i + 1;
                }
                true
            }
        },
        _ => false,
    }
}

fn scan_stmt(st: &Node, info: &mut ScanInfo) -> (ok: bool)
    ensures
        ok == sc_stmt(st@, old(info)@) is Some,
        ok ==> final(info)@ == sc_stmt(st@, old(info)@).unwrap(),
    decreases st, 1int,
{
    match st {
        Node::Var { name, right, .. } => {
            if !scan_expr(right, info) {
                return false;
            }
            let slot = info.vars.len() as u32;
            table_insert(&mut info.vars, name.clone(), slot);
            true
        },
        Node::Assign { target, right, .. } => match &**target {
            Node::Ident { name, .. } => {
                assert(target@ == NodeView::Ident { line: target->Ident_line, name: name@ });
                if table_get(&info.vars, name).is_none() {
                    return false;
                }
                scan_expr(right, info)
            },
            _ => {
                proof {
                    if kind_of(target@) == NodeKind::Ident {
                        lemma_ident_view(**target);
                    }
                }
                false
            },
        },
        Node::Return { value, .. } => match value {
            Some(e) => scan_expr(e, info),
            None => true,
        },
        Node::If { cond, then, else_b, .. } => {
            if !scan_expr(cond, info) {
                return false;
            }
            if !scan_block(then, info) {
                return false;
            }
            match else_b {
                Some(eb) => scan_block(eb, info),
                None => true,
            }
        },
        Node::While { cond, body, .. } => {
            if !scan_expr(cond, info) {
                return false;
            }
            scan_block(body, info)
        },
        Node::Block { .. } => scan_block(st, info),
        _ => scan_expr(st, info),
    }
}

fn scan_block(b: &Node, info: &mut ScanInfo) -> (ok: bool)
    ensures
        ok == sc_block(b@, old(info)@) is Some,
        ok ==> final(info)@ == sc_block(b@, old(info)@).unwrap(),
    decreases b, 0int,
{
    let stmts: &Vec<Node> = match b {
        Node::Block { stmts, .. } => stmts,
        Node::Prog { stmts } => stmts,
        _ => {
            return false;
        },
    };
    let ghost sv = nodes_view(stmts@);
    let mut i: usize = 0;
    while i < stmts.len()
        invariant
            i <= stmts@.len(),
            sv == nodes_view(stmts@),
            sc_block(b@, old(info)@) == sc_stmts(sv, i as int, info@),
            (b is Block && b->Block_stmts == *stmts) || (b is Prog && b->Prog_stmts == *stmts),
        decreases stmts@.len() - i,
    {
        assert(sv[i as int] == stmts@[i as int]@);
        assert(decreases_to!(b => stmts@[i as int]));
        if !scan_stmt(&stmts[i], info) {
            return false;
        }
        i = i + 1;
    }
    true
}

/// The view of a list of names.
pub open spec fn names_view(v: Seq<String>) -> Seq<Seq<char>> {
    v.map_values(|p: String| p@)
}

/// Pre-scans a function: its local slots and callees when it is VM-able.
pub fn scan_function(params: &Vec<String>, body: &Node) -> (r: Option<ScanInfo>)
    ensures
        r is Some == sc_function(names_view(params@), body@) is Some,
        r matches Some(info) ==> sc_function(names_view(params@), body@) == Some(info@),
{
    let ghost pv = names_view(params@);
    let mut info = ScanInfo { vars: Vec::new(), callees: Vec::new() };
    let mut k: usize = 0;
    while k < params.len()
        invariant
            k <= params@.len(),
            pv == names_view(params@),
            table_view(info.vars@) == param_vars(pv, k as int),
            info.callees@.len() == 0,
        decreases params@.len() - k,
    {
        table_insert(&mut info.vars, params[k].clone(), k as u32);
        k = k + 1;
    }
    assert(info@.callees =~= Seq::<Seq<char>>::empty());
    assert(info@.vars == param_vars(pv, params@.len() as int));
    if scan_block(body, &mut info) {
        Some(info)
    } else {
        None
    }
}

// ---------------------------------------------------------------------
// Compiling a VM-able function to stack-machine code.
// ---------------------------------------------------------------------

/// Code and the error that stopped the compiler, if one did; the code is
/// what was emitted up to that point.
pub type Emitted = (Seq<InstView>, Option<ErrorView>);

/// The instruction of a binary operator.
pub open spec fn op_inst(op: TokenKind, line: usize) -> Option<InstView> {
    match op {
        TokenKind::Plus => Some(InstView::Add),
        TokenKind::Minus => Some(InstView::Sub),
        TokenKind::Star => Some(InstView::Mul),
        TokenKind::Slash => Some(InstView::Div(line as u32)),
        TokenKind::Percent => Some(InstView::Mod(line as u32)),
        TokenKind::Eqeq => Some(InstView::Eq),
        TokenKind::Neq => Some(InstView::Ne),
        TokenKind::Gt => Some(InstView::Gt),
        TokenKind::Lt => Some(InstView::Lt),
        TokenKind::Ge => Some(InstView::Ge),
        TokenKind::Le => Some(InstView::Le),
        _ => None,
    }
}

/// `[Pop]` when the result is dropped.
pub open spec fn pop_unless(keep: bool) -> Seq<InstView> {
    if keep {
        Seq::empty()
    } else {
        seq![InstView::Pop]
    }
}

/// `[Push(0)]` when a result is kept.
pub open spec fn zero_if(keep: bool) -> Seq<InstView> {
    if keep {
        seq![InstView::Push(0)]
    } else {
        Seq::empty()
    }
}

/// The code of an expression: it pushes the expression's value.
pub open spec fn cp_expr(e: NodeView, m: Seq<(Seq<char>, usize)>, v: Seq<(Seq<char>, u32)>) -> Emitted
    decreases e, 0int,
{
    match e {
        NodeView::Num { num, .. } => (seq![InstView::Push(num)], None),
        NodeView::Str { text, .. } => (seq![InstView::PushStr(text)], None),
        NodeView::Ident { line, name } => match lookup(v, name) {
            Some(slot) => (seq![InstView::LoadVar(slot)], None),
            None => (Seq::empty(), Some(err_view(line, "未定义的变量"@))),
        },
        NodeView::Binary { line, op, left, right } => {
            let (c1, e1) = cp_expr(*left, m, v);
            if e1 is Some {
                (c1, e1)
            } else {
                let (c2, e2) = cp_expr(*right, m, v);
                if e2 is Some {
                    (c1 + c2, e2)
                } else {
                    match op_inst(op, line) {
                        Some(i) => (c1 + c2 + seq![i], None),
                        None => (c1 + c2, Some(err_view(line, "未知运算符"@))),
                    }
                }
            }
        },
        NodeView::Call { line, name, args } => if name == print_name() {
            let (c, er) = cp_args(args, 0, m, v);
            if er is Some {
                (c, er)
            } else {
                (c + seq![InstView::CallPrint(args.len() as u8)], None)
            }
        } else {
            match lookup(m, name) {
                None => (Seq::empty(), Some(err_view(line, "未定义的函数"@))),
                Some(idx) => {
                    let (c, er) = cp_args(args, 0, m, v);
                    if er is Some {
                        (c, er)
                    } else {
                        (c + seq![InstView::Call(idx, args.len() as u8)], None)
                    }
                },
            }
        },
        _ => (Seq::empty(), Some(err_view(line_of(e), "不支持该表达式"@))),
    }
}

/// The code of the arguments from the `i`-th on, in order.
pub open spec fn cp_args(args: Seq<NodeView>, i: int, m: Seq<(Seq<char>, usize)>, v: Seq<(Seq<char>, u32)>) -> Emitted
    decreases args, args.len() - i,
{
    if i < 0 || i >= args.len() {
        (Seq::empty(), None)
    } else {
        let (c, er) = cp_expr(args[i], m, v);
        if er is Some {
            (c, er)
        } else {
            let (c2, e2) = cp_args(args, i + 1, m, v);
            (c + c2, e2)
        }
    }
}

/// The code of a statement that starts at index `base`; with `keep` it
/// leaves the statement's value on the stack.
pub open spec fn cp_stmt(st: NodeView, keep: bool, base: int, m: Seq<(Seq<char>, usize)>, v: Seq<(Seq<char>, u32)>) -> Emitted
    decreases st, 1int,
{
    match st {
        NodeView::Var { line, name, right } => {
            let (c, er) = cp_expr(*right, m, v);
            if er is Some {
                (c, er)
            } else {
                match lookup(v, name) {
                    None => (c, Some(err_view(line, "未定义的变量"@))),
                    Some(slot) => (c + seq![InstView::StoreVar(slot)] + pop_unless(keep), None),
                }
            }
        },
        NodeView::Assign { target, right, .. } => match *target {
            NodeView::Ident { line: tl, name } => match lookup(v, name) {
                None => (Seq::empty(), Some(err_view(tl, "未定义的变量"@))),
                Some(slot) => {
                    let (c, er) = cp_expr(*right, m, v);
                    if er is Some {
                        (c, er)
                    } else {
                        (c + seq![InstView::StoreVar(slot)] + pop_unless(keep), None)
                    }
                },
            },
            _ => (Seq::empty(), Some(err_view(line_of(*target), "赋值目标无效"@))),
        },
        NodeView::Return { value, .. } => match value {
            Some(x) => {
                let (c, er) = cp_expr(*x, m, v);
                if er is Some {
                    (c, er)
                } else {
                    (c + seq![InstView::Ret], None)
                }
            },
            None => (seq![InstView::Push(0), InstView::Ret], None),
        },
        NodeView::If { cond, then, else_b, .. } => {
            let (c0, e0) = cp_expr(*cond, m, v);
            if e0 is Some {
                (c0, e0)
            } else {
                let p1 = base + c0.len() + 1;
                let (c1, e1) = cp_block(*then, keep, p1, m, v);
                if e1 is Some {
                    (c0 + seq![InstView::Jz(0)] + c1, e1)
                } else {
                    let else_pos = p1 + c1.len() + 1;
                    let (c2, e2) = match else_b {
                        Some(eb) => cp_block(*eb, keep, else_pos, m, v),
                        None => (zero_if(keep), None),
                    };
                    if e2 is Some {
                        (c0 + seq![InstView::Jz(0)] + c1 + seq![InstView::Jmp(0)] + c2, e2)
                    } else {
                        let end = else_pos + c2.len();
                        (
                            c0 + seq![InstView::Jz(else_pos as usize)] + c1 + seq![InstView::Jmp(end as usize)]
                                + c2,
                            None,
                        )
                    }
                }
            }
        },
        NodeView::While { cond, body, .. } => {
            let (c0, e0) = cp_expr(*cond, m, v);
            if e0 is Some {
                (c0, e0)
            } else {
                let p1 = base + c0.len() + 1;
                let (c1, e1) = cp_block(*body, false, p1, m, v);
                if e1 is Some {
                    (c0 + seq![InstView::Jz(0)] + c1, e1)
                } else {
                    let end = p1 + c1.len() + 1;
                    (
                        c0 + seq![InstView::Jz(end as usize)] + c1 + seq![InstView::Jmp(base as usize)]
                            + zero_if(keep),
                        None,
                    )
                }
            }
        },
        NodeView::Block { .. } => cp_block(st, keep, base, m, v),
        _ => {
            let (c, er) = cp_expr(st, m, v);
            if er is Some {
                (c, er)
            } else {
                (c + pop_unless(keep), None)
            }
        },
    }
}

/// The code of a block: its statements in order, only the last one keeping
/// its value; an empty block has the value 0.
pub open spec fn cp_block(b: NodeView, keep: bool, base: int, m: Seq<(Seq<char>, usize)>, v: Seq<(Seq<char>, u32)>) -> Emitted
    decreases b, 0int,
{
    match b {
        NodeView::Block { stmts, .. } => cp_body(stmts, keep, base, m, v),
        NodeView::Prog { stmts } => cp_body(stmts, keep, base, m, v),
        _ => (Seq::empty(), Some(err_view(line_of(b), "期望代码块"@))),
    }
}

pub open spec fn cp_body(stmts: Seq<NodeView>, keep: bool, base: int, m: Seq<(Seq<char>, usize)>, v: Seq<(Seq<char>, u32)>) -> Emitted
    decreases stmts, stmts.len() + 1,
{
    if stmts.len() == 0 {
        (zero_if(keep), None)
    } else {
        cp_stmts(stmts, 0, keep, base, m, v)
    }
}

pub open spec fn cp_stmts(stmts: Seq<NodeView>, i: int, keep: bool, base: int, m: Seq<(Seq<char>, usize)>, v: Seq<(Seq<char>, u32)>) -> Emitted
    decreases stmts, stmts.len() - i,
{
    if i < 0 || i >= stmts.len() {
        (Seq::empty(), None)
    } else if i == stmts.len() - 1 {
        cp_stmt(stmts[i], keep, base, m, v)
    } else {
        let (c, er) = cp_stmt(stmts[i], false, base, m, v);
        if er is Some {
            (c, er)
        } else {
            let (c2, e2) = cp_stmts(stmts, i + 1, keep, base + c.len(), m, v);
            (c + c2, e2)
        }
    }
}

/// The compiler of one function: the engine's name table, the function's
/// slots and the code emitted so far.
struct FnCompiler<'a> {
    map: &'a Vec<(String, usize)>,
    vars: Vec<(String, u32)>,
    code: Vec<Inst>,
}

/// `r` reports the error of `out`, and the code grew by the code of `out`.
pub open spec fn emitted_as(before: Seq<Inst>, after: Seq<Inst>, r: Result<(), RuaError>, out: Emitted) -> bool {
    &&& code_view(after) == code_view(before) + out.0
    &&& (r is Err <==> out.1 is Some)
    &&& (r matches Err(x) ==> out.1 == Some(x@))
}

impl<'a> FnCompiler<'a> {
    /// Appends an instruction and gives its index.
    fn emit(&mut self, inst: Inst) -> (at: usize)
        ensures
            final(self).map == old(self).map,
            final(self).vars == old(self).vars,
            code_view(final(self).code@) == code_view(old(self).code@).push(inst@),
            final(self).code@.len() == old(self).code@.len() + 1,
            at == old(self).code@.len(),
    {
        let ghost before = self.code@;
        self.code.push(inst);
        assert(code_view(self.code@) =~= code_view(before).push(inst@));
        self.code.len() - 1
    }

    /// Replaces the instruction at `at`.
    fn patch(&mut self, at: usize, inst: Inst)
        requires
            at < old(self).code@.len(),
        ensures
            final(self).map == old(self).map,
            final(self).vars == old(self).vars,
            code_view(final(self).code@) == code_view(old(self).code@).update(at as int, inst@),
            final(self).code@.len() == old(self).code@.len(),
    {
        let ghost before = self.code@;
        self.code.set(at, inst);
        assert(code_view(self.code@) =~= code_view(before).update(at as int, inst@));
    }
}

impl<'a> FnCompiler<'a> {
    /// Emits the code of an expression.
    fn compile_expr(&mut self, e: &Node) -> (r: Result<(), RuaError>)
        ensures
            final(self).map == old(self).map,
            final(self).vars == old(self).vars,
            emitted_as(old(self).code@, final(self).code@, r, cp_expr(e@, table_view(old(self).map@), table_view(old(self).vars@))),
        decreases e,
    {
        let ghost m = table_view(self.map@);
        let ghost v = table_view(self.vars@);
        match e {
            Node::Num { num, .. } => {
                self.emit(Inst::Push(*num));
                assert(code_view(self.code@) =~= code_view(old(self).code@) + cp_expr(e@, m, v).0);
                Ok(())
            },
            Node::Str { text, .. } => {
                self.emit(Inst::PushStr(text.clone()));
                assert(code_view(self.code@) =~= code_view(old(self).code@) + cp_expr(e@, m, v).0);
                Ok(())
            },
            Node::Ident { name, .. } => match table_get(&self.vars, name) {
                Some(slot) => {
                    self.emit(Inst::LoadVar(slot));
                    assert(code_view(self.code@) =~= code_view(old(self).code@) + cp_expr(e@, m, v).0);
                    Ok(())
                },
                None => Err(RuaError::new(e.line(), "未定义的变量")),
            },
            Node::Binary { op, left, right, line } => {
                let ghost c0 = self.code@;
                match self.compile_expr(left) {
                    Ok(()) => {},
                    Err(x) => {
                        return Err(x);
                    },
                }
                let ghost c1 = self.code@;
                match self.compile_expr(right) {
                    Ok(()) => {},
                    Err(x) => {
                        assert(code_view(self.code@) =~= code_view(c0) + (cp_expr(left@, m, v).0 + cp_expr(right@, m, v).0));
                        return Err(x);
                    },
                }
                let ghost c2 = self.code@;
                let inst = match op {
                    TokenKind::Plus => Inst::Add,
                    TokenKind::Minus => Inst::Sub,
                    TokenKind::Star => Inst::Mul,
                    TokenKind::Slash => Inst::Div(*line as u32),
                    TokenKind::Percent => Inst::Mod(*line as u32),
                    TokenKind::Eqeq => Inst::Eq,
                    TokenKind::Neq => Inst::Ne,
                    TokenKind::Gt => Inst::Gt,
                    TokenKind::Lt => Inst::Lt,
                    TokenKind::Ge => Inst::Ge,
                    TokenKind::Le => Inst::Le,
                    _ => {
                        assert(code_view(self.code@) =~= code_view(c0) + (cp_expr(left@, m, v).0 + cp_expr(right@, m, v).0));
                        assert(op_inst(*op, *line) is None);
                        return Err(RuaError::new(*line, "未知运算符"));
                    },
                };
                assert(op_inst(*op, *line) == Some(inst@));
                self.emit(inst);
                assert(code_view(self.code@) =~= code_view(c0) + (cp_expr(left@, m, v).0 + cp_expr(right@, m, v).0 + seq![inst@]));
                Ok(())
            },
            Node::Call { name, args, line } => {
                let ghost av = nodes_view(args@);
                let ghost c0 = self.code@;
                let is_print = is_print_name(name);
                let mut target: usize = 0;
                if !is_print {
                    match table_get(self.map, name) {
                        Some(idx) => {
                            target = idx;
                        },
                        None => {
                            return Err(RuaError::new(*line, "未定义的函数"));
                        },
                    }
                }
                let ghost fi = if is_print {
                    InstView::CallPrint(args@.len() as u8)
                } else {
                    InstView::Call(target, args@.len() as u8)
                };
                assert(e@ == NodeView::Call { line: *line, name: name@, args: av });
                let mut i: usize = 0;
                while i < args.len()
                    invariant
                        i <= args@.len(),
                        av == nodes_view(args@),
                        e is Call && e->Call_args == *args,
                        cp_args(av, 0, m, v).1 is Some ==> cp_expr(e@, m, v) == cp_args(av, 0, m, v),
                        cp_args(av, 0, m, v).1 is None ==> cp_expr(e@, m, v) == (cp_args(av, 0, m, v).0 + seq![fi], None::<ErrorView>),
                        self.map == old(self).map,
                        self.vars == old(self).vars,
                        m == table_view(self.map@),
                        v == table_view(self.vars@),
                        code_view(c0) == code_view(old(self).code@),
                        cp_args(av, 0, m, v).1 is None ==> cp_args(av, i as int, m, v).1 is None,
                        ({
                            let r = cp_args(av, i as int, m, v);
                            let acc = code_view(self.code@).subrange(code_view(c0).len() as int, code_view(self.code@).len() as int);
                            &&& code_view(self.code@) == code_view(c0) + acc
                            &&& cp_args(av, 0, m, v) == (acc + r.0, r.1)
                        }),
                    decreases args@.len() - i,
                {
                    assert(av[i as int] == args@[i as int]@);
                    assert(decreases_to!(e => args@[i as int]));
                    let ghost before = self.code@;
                    match self.compile_expr(&args[i]) {
                        Ok(()) => {},
                        Err(x) => {
                            assert(code_view(self.code@) =~= code_view(c0) + cp_args(av, 0, m, v).0);
                            return Err(x);
                        },
                    }
                    proof {
                        let acc = code_view(before).subrange(code_view(c0).len() as int, code_view(before).len() as int);
                        let acc2 = code_view(self.code@).subrange(code_view(c0).len() as int, code_view(self.code@).len() as int);
                        assert(acc2 =~= acc + cp_expr(av[i as int], m, v).0);
                        assert(code_view(self.code@) =~= code_view(c0) + acc2);
                        let r2 = cp_args(av, i + 1, m, v);
                        assert(acc + (cp_expr(av[i as int], m, v).0 + r2.0) =~= acc2 + r2.0);
                    }
                    i = i + 1;
                }
                proof {
                    let acc = code_view(self.code@).subrange(code_view(c0).len() as int, code_view(self.code@).len() as int);
                    assert(cp_args(av, 0, m, v).0 =~= acc);
                }
                if is_print {
                    self.emit(Inst::CallPrint(args.len() as u8));
                } else {
                    self.emit(Inst::Call(target, args.len() as u8));
                }
                assert(code_view(self.code@) =~= code_view(c0) + cp_expr(e@, m, v).0);
                Ok(())
            },
            _ => {
                proof {
                    assert(!(e@ is Num) && !(e@ is Str) && !(e@ is Ident) && !(e@ is Binary) && !(e@ is Call));
                }
                Err(RuaError::new(e.line(), "不支持该表达式"))
            },
        }
    }
}

impl<'a> FnCompiler<'a> {
    /// Emits the code of a statement; with `keep` the statement's value is
    /// left on the stack.
    fn compile_stmt(&mut self, st: &Node, keep: bool) -> (r: Result<(), RuaError>)
        ensures
            final(self).map == old(self).map,
            final(self).vars == old(self).vars,
            emitted_as(
                old(self).code@,
                final(self).code@,
                r,
                cp_stmt(st@, keep, old(self).code@.len() as int, table_view(old(self).map@), table_view(old(self).vars@)),
            ),
        decreases st, 1int,
    {
        let ghost m = table_view(self.map@);
        let ghost v = table_view(self.vars@);
        let ghost c0 = self.code@;
        let ghost base = c0.len() as int;
        match st {
            Node::Var { name, right, .. } => {
                match self.compile_expr(right) {
                    Ok(()) => {},
                    Err(x) => {
                        return Err(x);
                    },
                }
                match table_get(&self.vars, name) {
                    None => {
                        return Err(RuaError::new(st.line(), "未定义的变量"));
                    },
                    Some(slot) => {
                        self.emit(Inst::StoreVar(slot));
                        if !keep {
                            self.emit(Inst::Pop);
                        }
                    },
                }
                assert(code_view(self.code@) =~= code_view(c0) + cp_stmt(st@, keep, base, m, v).0);
                Ok(())
            },
            Node::Assign { target, right, .. } => {
                let slot = match &**target {
                    Node::Ident { name, .. } => {
                        assert(target@ == NodeView::Ident { line: target->Ident_line, name: name@ });
                        match table_get(&self.vars, name) {
                            Some(k) => k,
                            None => {
                                return Err(RuaError::new(target.line(), "未定义的变量"));
                            },
                        }
                    },
                    _ => {
                        proof {
                            if kind_of(target@) == NodeKind::Ident {
                                lemma_ident_view(**target);
                            }
                        }
                        return Err(RuaError::new(target.line(), "赋值目标无效"));
                    },
                };
                match self.compile_expr(right) {
                    Ok(()) => {},
                    Err(x) => {
                        return Err(x);
                    },
                }
                self.emit(Inst::StoreVar(slot));
                if !keep {
                    self.emit(Inst::Pop);
                }
                assert(code_view(self.code@) =~= code_view(c0) + cp_stmt(st@, keep, base, m, v).0);
                Ok(())
            },
            Node::Return { value, .. } => {
                match value {
                    Some(x) => {
                        match self.compile_expr(x) {
                            Ok(()) => {},
                            Err(er) => {
                                return Err(er);
                            },
                        }
                    },
                    None => {
                        self.emit(Inst::Push(0));
                    },
                }
                self.emit(Inst::Ret);
                assert(code_view(self.code@) =~= code_view(c0) + cp_stmt(st@, keep, base, m, v).0);
                Ok(())
            },
            Node::If { .. } => self.compile_if(st, keep),
            Node::While { .. } => self.compile_while(st, keep),
            Node::Block { .. } => self.compile_block(st, keep),
            _ => {
                match self.compile_expr(st) {
                    Ok(()) => {},
                    Err(x) => {
                        return Err(x);
                    },
                }
                if !keep {
                    self.emit(Inst::Pop);
                }
                assert(code_view(self.code@) =~= code_view(c0) + cp_stmt(st@, keep, base, m, v).0);
                Ok(())
            },
        }
    }

    /// Emits the code of a block: all statements, the last one keeping its
    /// value when `keep`; an empty block pushes 0 when `keep`.
    #[verifier::rlimit(100)]
    #[verifier::spinoff_prover]
    fn compile_block(&mut self, b: &Node, keep: bool) -> (r: Result<(), RuaError>)
        ensures
            final(self).map == old(self).map,
            final(self).vars == old(self).vars,
            emitted_as(
                old(self).code@,
                final(self).code@,
                r,
                cp_block(b@, keep, old(self).code@.len() as int, table_view(old(self).map@), table_view(old(self).vars@)),
            ),
        decreases b, 0int,
    {
        let ghost m = table_view(self.map@);
        let ghost v = table_view(self.vars@);
        let ghost c0 = self.code@;
        let ghost base = c0.len() as int;
        let stmts: &Vec<Node> = match b {
            Node::Block { stmts, .. } => stmts,
            Node::Prog { stmts } => stmts,
            _ => {
                return Err(RuaError::new(b.line(), "期望代码块"));
            },
        };
        let ghost sv = nodes_view(stmts@);
        if stmts.len() == 0 {
            if keep {
                self.emit(Inst::Push(0));
            }
            assert(code_view(self.code@) =~= code_view(c0) + cp_block(b@, keep, base, m, v).0);
            return Ok(());
        }
        let last = stmts.len() - 1;
        let mut i: usize = 0;
        let ghost mut acc: Seq<InstView> = Seq::empty();
        assert(code_view(self.code@) =~= code_view(c0) + acc);
        while i < last
            invariant
                last == stmts@.len() - 1,
                i <= last,
                sv == nodes_view(stmts@),
                (b is Block && b->Block_stmts == *stmts) || (b is Prog && b->Prog_stmts == *stmts),
                cp_block(b@, keep, base, m, v) == cp_stmts(sv, 0, keep, base, m, v),
                self.map == old(self).map,
                self.vars == old(self).vars,
                m == table_view(self.map@),
                v == table_view(self.vars@),
                base == c0.len(),
                c0 == old(self).code@,
                code_view(self.code@) == code_view(c0) + acc,
                self.code@.len() == base + acc.len(),
                cp_stmts(sv, 0, keep, base, m, v) == (
                    acc + cp_stmts(sv, i as int, keep, base + acc.len(), m, v).0,
                    cp_stmts(sv, i as int, keep, base + acc.len(), m, v).1,
                ),
            decreases last - i,
        {
            assert(sv[i as int] == stmts@[i as int]@);
            assert(decreases_to!(b => stmts@[i as int]));
            let ghost p = self.code@.len() as int;
            match self.compile_stmt(&stmts[i], false) {
                Ok(()) => {},
                Err(x) => {
                    assert(cp_stmts(sv, i as int, keep, p, m, v) == cp_stmt(sv[i as int], false, p, m, v));
                    assert(code_view(self.code@) =~= code_view(c0) + (acc + cp_stmt(sv[i as int], false, p, m, v).0));
                    return Err(x);
                },
            }
            proof {
                let c = cp_stmt(sv[i as int], false, p, m, v).0;
                let r2 = cp_stmts(sv, i + 1, keep, p + c.len(), m, v);
                assert(acc + (c + r2.0) =~= (acc + c) + r2.0);
                assert(code_view(self.code@) =~= code_view(c0) + (acc + c));
                acc = acc + c;
            }
            i = i + 1;
        }
        assert(sv[last as int] == stmts@[last as int]@);
        assert(decreases_to!(b => stmts@[last as int]));
        let r = self.compile_stmt(&stmts[last], keep);
        proof {
            assert(code_view(self.code@) =~= code_view(c0) + (acc + cp_stmts(sv, last as int, keep, base + acc.len(), m, v).0));
        }
        r
    }
}

impl<'a> FnCompiler<'a> {
    /// Emits `如果`: the condition, a `Jz` to the else part, the then part, a
    /// `Jmp` past the else part, the else part (0 when absent and kept).
    #[verifier::rlimit(100)]
    fn compile_if(&mut self, st: &Node, keep: bool) -> (r: Result<(), RuaError>)
        requires
            st is If,
        ensures
            final(self).map == old(self).map,
            final(self).vars == old(self).vars,
            emitted_as(
                old(self).code@,
                final(self).code@,
                r,
                cp_stmt(st@, keep, old(self).code@.len() as int, table_view(old(self).map@), table_view(old(self).vars@)),
            ),
        decreases st, 0int,
    {
        let ghost m = table_view(self.map@);
        let ghost v = table_view(self.vars@);
        let ghost c0 = self.code@;
        let ghost base = c0.len() as int;
        let (cond, then, else_b) = match st {
            Node::If { cond, then, else_b, .. } => (cond, then, else_b),
            _ => {
                return Err(RuaError::new(0, "期望代码块"));
            },
        };
        match self.compile_expr(cond) {
            Ok(()) => {},
            Err(x) => {
                return Err(x);
            },
        }
        let ghost ce = cp_expr(cond@, m, v).0;
        let jz = self.emit(Inst::Jz(0));
        match self.compile_block(then, keep) {
            Ok(()) => {},
            Err(x) => {
                assert(code_view(self.code@) =~= code_view(c0) + cp_stmt(st@, keep, base, m, v).0);
                return Err(x);
            },
        }
        let ghost c1 = cp_block(then@, keep, base + ce.len() + 1, m, v).0;
        let jmp = self.emit(Inst::Jmp(0));
        let else_pos = self.code.len();
        let ghost c2;
        match else_b {
            Some(eb) => {
                match self.compile_block(eb, keep) {
                    Ok(()) => {},
                    Err(x) => {
                        assert(code_view(self.code@) =~= code_view(c0) + cp_stmt(st@, keep, base, m, v).0);
                        return Err(x);
                    },
                }
                proof {
                    c2 = cp_block(eb@, keep, else_pos as int, m, v).0;
                }
            },
            None => {
                if keep {
                    self.emit(Inst::Push(0));
                }
                proof {
                    c2 = zero_if(keep);
                }
            },
        }
        let end = self.code.len();
        let ghost unpatched = code_view(self.code@);
        assert(unpatched =~= code_view(c0) + ce + seq![InstView::Jz(0)] + c1 + seq![InstView::Jmp(0)] + c2);
        assert(unpatched.len() == self.code@.len());
        assert(jz < jmp && jmp < self.code@.len());
        self.patch(jz, Inst::Jz(else_pos));
        self.patch(jmp, Inst::Jmp(end));
        assert(code_view(self.code@) =~= code_view(c0) + (ce + seq![InstView::Jz(else_pos)] + c1 + seq![InstView::Jmp(end)] + c2));
        assert(code_view(self.code@) =~= code_view(c0) + cp_stmt(st@, keep, base, m, v).0);
        Ok(())
        }

    /// Emits `当`: the condition, a `Jz` past the loop, the body (value dropped), a `Jmp` back to the condition; 0 when kept.
    #[verifier::rlimit(100)]
    fn compile_while(&mut self, st: &Node, keep: bool) -> (r: Result<(), RuaError>)
requires
    st is While,
ensures
    final(self).map == old(self).map,
    final(self).vars == old(self).vars,
    emitted_as(
        old(self).code@,
        final(self).code@,
        r,
        cp_stmt(st@, keep, old(self).code@.len() as int, table_view(old(self).map@), table_view(old(self).vars@)),
    ),
decreases st, 0int,
    {
let ghost m = table_view(self.map@);
let ghost v = table_view(self.vars@);
let ghost c0 = self.code@;
let ghost base = c0.len() as int;
        let (cond, body) = match st {
            Node::While { cond, body, .. } => (cond, body),
            _ => {
                return Err(RuaError::new(0, "期望代码块"));
            },
        };
        let loop_pos = self.code.len();
        match self.compile_expr(cond) {
            Ok(()) => {},
            Err(x) => {
                return Err(x);
            },
        }
        let ghost ce = cp_expr(cond@, m, v).0;
        let jz = self.emit(Inst::Jz(0));
        match self.compile_block(body, false) {
            Ok(()) => {},
            Err(x) => {
                assert(code_view(self.code@) =~= code_view(c0) + cp_stmt(st@, keep, base, m, v).0);
                return Err(x);
            },
        }
        let ghost c1 = cp_block(body@, false, base + ce.len() + 1, m, v).0;
        self.emit(Inst::Jmp(loop_pos));
        let end = self.code.len();
        assert(code_view(self.code@) =~= code_view(c0) + ce + seq![InstView::Jz(0)] + c1 + seq![InstView::Jmp(loop_pos)]);
        self.patch(jz, Inst::Jz(end));
        if keep {
            self.emit(Inst::Push(0));
        }
        assert(code_view(self.code@) =~= code_view(c0) + (ce + seq![InstView::Jz(end)] + c1 + seq![InstView::Jmp(loop_pos)] + zero_if(keep)));
        assert(code_view(self.code@) =~= code_view(c0) + cp_stmt(st@, keep, base, m, v).0);
        Ok(())
        }

}

// ---------------------------------------------------------------------
// Compiling the function table.
// ---------------------------------------------------------------------

proof fn lemma_find_from_update<V>(t: Seq<(Seq<char>, V)>, p: int, k: Seq<char>, v: V, c: Seq<char>, i: int)
    requires
        0 <= p < t.len(),
        t[p].0 == k,
        0 <= i,
    ensures
        find_from(t.update(p, (k, v)), c, i) == find_from(t, c, i),
    decreases t.len() - i,
{
    if i < t.len() {
        lemma_find_from_update(t, p, k, v, c, i + 1);
    }
}

proof fn lemma_find_from_push<V>(t: Seq<(Seq<char>, V)>, k: Seq<char>, v: V, c: Seq<char>, i: int)
    requires
        0 <= i <= t.len(),
    ensures
        find_from(t.push((k, v)), c, i) == (if find_from(t, c, i) >= 0 {
            find_from(t, c, i)
        } else if c == k {
            t.len() as int
        } else {
            -1
        }),
    decreases t.len() - i,
{
    let t2 = t.push((k, v));
    if i < t.len() {
        lemma_find_from_push(t, k, v, c, i + 1);
        assert(t2[i] == t[i]);
    } else {
        assert(find_from(t2, c, i + 1) == -1);
    }
}

pub proof fn lemma_lookup_insert<V>(t: Seq<(Seq<char>, V)>, k: Seq<char>, v: V, c: Seq<char>)
    ensures
        lookup(insert(t, k, v), c) == (if c == k { Some(v) } else { lookup(t, c) }),
{
    lemma_find_from(t, k, 0);
    lemma_find_from(t, c, 0);
    if find(t, k) >= 0 {
        lemma_find_from_update(t, find(t, k), k, v, c, 0);
        if c == k {
            assert(find(t, c) == find(t, k));
        } else if find(t, c) >= 0 {
            assert(find(t, c) != find(t, k));
        }
    } else {
        lemma_find_from_push(t, k, v, c, 0);
    }
}

/// The name of a function definition.
pub open spec fn fname(f: NodeView) -> Seq<char> {
    match f {
        NodeView::Func { name, .. } => name,
        _ => Seq::empty(),
    }
}

/// The pre-scan of a function definition; `None` for anything else.
pub open spec fn scan_of(f: NodeView) -> Option<ScanView> {
    match f {
        NodeView::Func { params, body, .. } => sc_function(params, *body),
        _ => None,
    }
}

/// The body of a function definition.
pub open spec fn body_of(f: NodeView) -> NodeView {
    match f {
        NodeView::Func { body, .. } => *body,
        _ => f,
    }
}

/// Each function's name to its position among the first `i` nodes (a
/// later definition of a name replaces an earlier one).
pub open spec fn name_index(fs: Seq<NodeView>, i: int) -> Seq<(Seq<char>, usize)>
    decreases i,
{
    if i <= 0 || i > fs.len() {
        Seq::empty()
    } else if fs[i - 1] is Func {
        insert(name_index(fs, i - 1), fname(fs[i - 1]), (i - 1) as usize)
    } else {
        name_index(fs, i - 1)
    }
}

/// A callee that is defined and in the set `s`.
pub open spec fn callee_in(fs: Seq<NodeView>, s: Seq<bool>, c: Seq<char>) -> bool {
    match lookup(name_index(fs, fs.len() as int), c) {
        Some(j) => j < s.len() && s[j as int],
        None => false,
    }
}

/// Function `k` scans as VM-able and all it calls is in `s`.
pub open spec fn callees_in(fs: Seq<NodeView>, s: Seq<bool>, k: int) -> bool {
    match scan_of(fs[k]) {
        Some(sv) => forall|u: int| 0 <= u < sv.callees.len() ==> #[trigger] callee_in(fs, s, sv.callees[u]),
        None => false,
    }
}

/// A set of functions closed under calls: each scans as VM-able and calls
/// only functions of the set.
pub open spec fn closed(fs: Seq<NodeView>, s: Seq<bool>) -> bool {
    &&& s.len() == fs.len()
    &&& forall|k: int| 0 <= k < s.len() && #[trigger] s[k] ==> callees_in(fs, s, k)
}

/// A function is VM-able when some closed set holds it: the VM-able
/// functions are the largest closed set.
pub open spec fn vm_able(fs: Seq<NodeView>, i: int) -> bool {
    exists|s: Seq<bool>| #[trigger] closed(fs, s) && s[i]
}

pub open spec fn vm_set(fs: Seq<NodeView>) -> Seq<bool> {
    Seq::new(fs.len(), |i: int| vm_able(fs, i))
}

/// How many of the first `i` functions are in `e`: the index the next one
/// of them gets.
pub open spec fn slot_count(e: Seq<bool>, i: int) -> int
    decreases i,
{
    if i <= 0 {
        0
    } else {
        slot_count(e, i - 1) + if e[i - 1] { 1int } else { 0int }
    }
}

/// The engine's name table after the first `i` functions.
pub open spec fn engine_map(fs: Seq<NodeView>, e: Seq<bool>, i: int) -> Seq<(Seq<char>, usize)>
    decreases i,
{
    if i <= 0 {
        Seq::empty()
    } else if e[i - 1] {
        insert(engine_map(fs, e, i - 1), fname(fs[i - 1]), slot_count(e, i - 1) as usize)
    } else {
        engine_map(fs, e, i - 1)
    }
}

/// The code compiled for function `i`: its body with no value kept, then
/// `Ret` (which gives 0 on the empty stack a body without `返回` leaves),
/// unless compiling stopped at an error.
pub open spec fn compiled_code(fs: Seq<NodeView>, m: Seq<(Seq<char>, usize)>, i: int) -> Seq<InstView> {
    let (c, er) = cp_block(body_of(fs[i]), false, 0, m, scan_of(fs[i]).unwrap().vars);
    if er is None {
        c.push(InstView::Ret)
    } else {
        c
    }
}

/// The last of the first `i` VM-able functions whose name maps to index `k`:
/// the one whose code ends up there; -1 when none does.
pub open spec fn writer(fs: Seq<NodeView>, e: Seq<bool>, m: Seq<(Seq<char>, usize)>, k: int, i: int) -> int
    decreases i,
{
    if i <= 0 {
        -1
    } else if e[i - 1] && lookup(m, fname(fs[i - 1])) == Some(k as usize) {
        i - 1
    } else {
        writer(fs, e, m, k, i - 1)
    }
}

/// Entry `k` of the engine: the code of its writer, or an empty
/// placeholder when it has none.
pub open spec fn func_is(f: VmFunc, fs: Seq<NodeView>, e: Seq<bool>, m: Seq<(Seq<char>, usize)>, k: int, i: int) -> bool {
    let w = writer(fs, e, m, k, i);
    if w >= 0 {
        &&& code_view(f.code@) == compiled_code(fs, m, w)
        &&& f.locals == scan_of(fs[w]).unwrap().vars.len() as u32
    } else {
        &&& f.code@.len() == 0
        &&& f.locals == 0
    }
}

pub open spec fn count_true(s: Seq<bool>) -> nat
    decreases s.len(),
{
    if s.len() == 0 {
        0
    } else {
        count_true(s.drop_last()) + if s.last() { 1nat } else { 0nat }
    }
}

pub proof fn lemma_count_clear(s: Seq<bool>, i: int)
    requires
        0 <= i < s.len(),
        s[i],
    ensures
        count_true(s.update(i, false)) + 1 == count_true(s),
    decreases s.len(),
{
    if i < s.len() - 1 {
        lemma_count_clear(s.drop_last(), i);
        assert(s.update(i, false).drop_last() =~= s.drop_last().update(i, false));
    } else {
        assert(s.update(i, false).drop_last() =~= s.drop_last());
    }
}

pub proof fn lemma_name_index_bound(fs: Seq<NodeView>, i: int, c: Seq<char>)
    requires
        0 <= i <= fs.len(),
    ensures
        lookup(name_index(fs, i), c) matches Some(j) ==> j < i,
    decreases i,
{
    if i > 0 {
        lemma_name_index_bound(fs, i - 1, c);
        if fs[i - 1] is Func {
            lemma_lookup_insert(name_index(fs, i - 1), fname(fs[i - 1]), (i - 1) as usize, c);
        }
    }
}

/// The parts of a function definition: name, parameters and body.
pub(crate) fn func_parts(f: &Node) -> (r: Option<(&String, &Vec<String>, &Node)>)
    ensures
        r is Some == f@ is Func,
        r matches Some(p) ==> fname(f@) == p.0@ && scan_of(f@) == sc_function(names_view(p.1@), p.2@)
            && body_of(f@) == p.2@ && f@ == (NodeView::Func {
                line: f->Func_line,
                name: p.0@,
                params: names_view(p.1@),
                body: Box::new(p.2@),
            }),
{
    match f {
        Node::Func { name, params, body, .. } => {
            assert(params@.map_values(|p: String| p@) =~= names_view(params@));
            Some((name, params, &**body))
        },
        _ => None,
    }
}

/// A copy of a slot table.
fn copy_vars(t: &Vec<(String, u32)>) -> (c: Vec<(String, u32)>)
    ensures
        table_view(c@) == table_view(t@),
        c@.len() == t@.len(),
{
    let mut c: Vec<(String, u32)> = Vec::new();
    let mut i: usize = 0;
    while i < t.len()
        invariant
            i <= t@.len(),
            c@.len() == i,
            table_view(c@) == table_view(t@).subrange(0, i as int),
        decreases t@.len() - i,
    {
        let ghost before = c@;
        c.push((t[i].0.clone(), t[i].1));
        assert(table_view(c@) =~= table_view(before).push((t@[i as int].0@, t@[i as int].1)));
        assert(table_view(t@).subrange(0, i + 1) =~= table_view(t@).subrange(0, i as int).push(table_view(t@)[i as int]));
        i = i + 1;
    }
    assert(table_view(t@).subrange(0, t@.len() as int) =~= table_view(t@));
    c
}

pub open spec fn opt_scan(o: Option<ScanInfo>) -> Option<ScanView> {
    match o {
        Some(x) => Some(x@),
        None => None,
    }
}

/// Every function in `s` is in `e`.
pub open spec fn subset_of(s: Seq<bool>, e: Seq<bool>) -> bool {
    forall|j: int| 0 <= j < s.len() && #[trigger] s[j] ==> j < e.len() && e[j]
}

pub proof fn lemma_engine_map(fs: Seq<NodeView>, e: Seq<bool>, i: int, c: Seq<char>)
    requires
        0 <= i <= e.len(),
        i <= usize::MAX,
    ensures
        lookup(engine_map(fs, e, i), c) matches Some(k) ==> k < slot_count(e, i),
        0 <= slot_count(e, i) <= i,
        forall|j: int| 0 <= j < i && e[j] && fname(fs[j]) == c ==> lookup(engine_map(fs, e, i), c) is Some,
    decreases i,
{
    if i > 0 {
        lemma_engine_map(fs, e, i - 1, c);
        if e[i - 1] {
            let sc = slot_count(e, i - 1);
            assert(0 <= sc <= i - 1);
            assert(slot_count(e, i) == sc + 1);
            lemma_lookup_insert(engine_map(fs, e, i - 1), fname(fs[i - 1]), sc as usize, c);
            assert(engine_map(fs, e, i) == insert(engine_map(fs, e, i - 1), fname(fs[i - 1]), sc as usize));
        } else {
            assert(engine_map(fs, e, i) == engine_map(fs, e, i - 1));
            assert(slot_count(e, i) == slot_count(e, i - 1));
        }
    }
}

/// The engine compiled from the function definitions `fs`.
pub open spec fn compiled(fs: Seq<NodeView>, engine: VmEngine) -> bool {
    let e = vm_set(fs);
    let m = engine_map(fs, e, fs.len() as int);
    &&& table_view(engine.map@) == m
    &&& engine.funcs@.len() == slot_count(e, fs.len() as int)
    &&& forall|k: int| 0 <= k < engine.funcs@.len() ==> func_is(#[trigger] engine.funcs@[k], fs, e, m, k, fs.len() as int)
}

/// Compiles the function table: decides which functions are VM-able (the
/// largest set closed under calls), gives each of them an index in order
/// of definition, then compiles each body with no value kept, followed by
/// `Ret` unless compiling stopped at an error: a function that ends without
/// `返回` returns on an empty stack, which gives 0. A name defined twice maps to
/// the later index, and both definitions compile into it, the later last.
#[verifier::rlimit(60)]
pub fn compile_functions(fns: &Vec<Node>) -> (engine: VmEngine)
    ensures
        compiled(nodes_view(fns@), engine),
{
    let ghost fs = nodes_view(fns@);
    let n = fns.len();
    let mut scans: Vec<Option<ScanInfo>> = Vec::new();
    let mut names: Vec<(String, usize)> = Vec::new();
    let mut i: usize = 0;
    while i < n
        invariant
            n == fns@.len(),
            fs == nodes_view(fns@),
            i <= n,
            scans@.len() == i,
            forall|j: int| 0 <= j < i ==> opt_scan(#[trigger] scans@[j]) == scan_of(fs[j]),
            table_view(names@) == name_index(fs, i as int),
        decreases n - i,
    {
        assert(fs[i as int] == fns@[i as int]@);
        match func_parts(&fns[i]) {
            Some((name, params, body)) => {
                table_insert(&mut names, name.clone(), i);
                scans.push(scan_function(params, body));
            },
            None => {
                scans.push(None);
            },
        }
        i = i + 1;
    }
    let mut eligible: Vec<bool> = Vec::new();
    let mut i: usize = 0;
    while i < n
        invariant
            n == fns@.len(),
            fs == nodes_view(fns@),
            i <= n,
            scans@.len() == n,
            forall|j: int| 0 <= j < n ==> opt_scan(#[trigger] scans@[j]) == scan_of(fs[j]),
            eligible@.len() == i,
            forall|j: int| 0 <= j < i ==> #[trigger] eligible@[j] == scan_of(fs[j]) is Some,
        decreases n - i,
    {
        assert(opt_scan(scans@[i as int]) == scan_of(fs[i as int]));
        eligible.push(scans[i].is_some());
        i = i + 1;
    }
    proof {
        assert forall|s: Seq<bool>| #[trigger] closed(fs, s) implies subset_of(s, eligible@) by {
            assert forall|j: int| 0 <= j < s.len() && #[trigger] s[j] implies j < eligible@.len() && eligible@[j] by {
                assert(callees_in(fs, s, j));
            }
        }
    }
    let mut changed = true;
    while changed
        invariant
            n == fns@.len(),
            fs == nodes_view(fns@),
            scans@.len() == n,
            forall|j: int| 0 <= j < n ==> opt_scan(#[trigger] scans@[j]) == scan_of(fs[j]),
            table_view(names@) == name_index(fs, n as int),
            eligible@.len() == n,
            forall|j: int| 0 <= j < n && #[trigger] eligible@[j] ==> scan_of(fs[j]) is Some,
            forall|s: Seq<bool>| #[trigger] closed(fs, s) ==> subset_of(s, eligible@),
            !changed ==> closed(fs, eligible@),
        decreases count_true(eligible@) + if changed { 1nat } else { 0nat },
    {
        changed = false;
        let ghost start = eligible@;
        let mut i: usize = 0;
        while i < n
            invariant
                n == fns@.len(),
                fs == nodes_view(fns@),
                i <= n,
                scans@.len() == n,
                forall|j: int| 0 <= j < n ==> opt_scan(#[trigger] scans@[j]) == scan_of(fs[j]),
                table_view(names@) == name_index(fs, n as int),
                eligible@.len() == n,
                forall|j: int| 0 <= j < n && #[trigger] eligible@[j] ==> scan_of(fs[j]) is Some,
                forall|s: Seq<bool>| #[trigger] closed(fs, s) ==> subset_of(s, eligible@),
                !changed ==> eligible@ == start,
                changed ==> count_true(eligible@) < count_true(start),
                count_true(eligible@) <= count_true(start),
                !changed ==> forall|k: int| 0 <= k < i && #[trigger] eligible@[k] ==> callees_in(fs, eligible@, k),
            decreases n - i,
        {
            if eligible[i] {
                match &scans[i] {
                    Some(info) => {
                        assert(opt_scan(scans@[i as int]) == scan_of(fs[i as int]));
                        let ghost entry = eligible@;
                        let ghost was_changed = changed;
                        let mut t: usize = 0;
                        let mut cut = false;
                        while t < info.callees.len() && !cut
                            invariant
                                n == fns@.len(),
                                fs == nodes_view(fns@),
                                i < n,
                                table_view(names@) == name_index(fs, n as int),
                                eligible@.len() == n,
                                forall|j: int| 0 <= j < n && #[trigger] eligible@[j] ==> scan_of(fs[j]) is Some,
                                forall|s: Seq<bool>| #[trigger] closed(fs, s) ==> subset_of(s, eligible@),
                                Some(info@) == scan_of(fs[i as int]),
                                t <= info.callees@.len(),
                                !cut ==> eligible@ == entry && changed == was_changed,
                                !cut ==> forall|u: int| 0 <= u < t ==> #[trigger] callee_in(fs, eligible@, info@.callees[u]),
                                cut ==> changed && count_true(eligible@) < count_true(entry),
                                entry[i as int],
                            decreases info.callees@.len() - t + if cut { 0int } else { 1int },
                        {
                            let ghost c = info@.callees[t as int];
                            assert(info.callees@[t as int]@ == c);
                            let bad = match table_get(&names, &info.callees[t]) {
                                Some(j) => {
                                    proof {
                                        lemma_name_index_bound(fs, n as int, c);
                                    }
                                    !eligible[j]
                                },
                                None => true,
                            };
                            if bad {
                                proof {
                                    assert(!callee_in(fs, eligible@, c));
                                    assert forall|s: Seq<bool>| #[trigger] closed(fs, s) implies subset_of(
                                        s,
                                        eligible@.update(i as int, false),
                                    ) by {
                                        assert(subset_of(s, eligible@));
                                        assert forall|j: int| 0 <= j < s.len() && #[trigger] s[j] implies j
                                            < eligible@.update(i as int, false).len() && eligible@.update(
                                            i as int,
                                            false,
                                        )[j] by {
                                            if j == i {
                                                assert(callees_in(fs, s, i as int));
                                                assert(0 <= t < info@.callees.len());
                                                let sv = scan_of(fs[i as int]).unwrap();
                                                assert(sv == info@);
                                                assert(callee_in(fs, s, sv.callees[t as int]));
                                            }
                                        }
                                    }
                                    lemma_count_clear(eligible@, i as int);
                                }
                                eligible.set(i, false);
                                changed = true;
                                cut = true;
                            } else {
                                t = t + 1;
                            }
                        }
                        proof {
                            if !cut {
                                assert(callees_in(fs, eligible@, i as int));
                            }
                        }
                    },
                    None => {},
                }
            }
            i = i + 1;
        }
    }
    proof {
        assert forall|j: int| 0 <= j < n implies eligible@[j] == vm_able(fs, j) by {
            if eligible@[j] {
                assert(closed(fs, eligible@));
            }
            if vm_able(fs, j) {
                let s = choose|s: Seq<bool>| #[trigger] closed(fs, s) && s[j];
                assert(subset_of(s, eligible@));
            }
        }
        assert(eligible@ =~= vm_set(fs));
    }
    let ghost e = eligible@;
    let mut funcs: Vec<VmFunc> = Vec::new();
    let mut map: Vec<(String, usize)> = Vec::new();
    let mut i: usize = 0;
    while i < n
        invariant
            n == fns@.len(),
            fs == nodes_view(fns@),
            i <= n,
            e == eligible@,
            e.len() == n,
            forall|j: int| 0 <= j < n && #[trigger] e[j] ==> scan_of(fs[j]) is Some,
            funcs@.len() == slot_count(e, i as int),
            table_view(map@) == engine_map(fs, e, i as int),
            forall|k: int| 0 <= k < funcs@.len() ==> (#[trigger] funcs@[k]).code@.len() == 0 && funcs@[k].locals == 0,
        decreases n - i,
    {
        assert(fs[i as int] == fns@[i as int]@);
        if eligible[i] {
            match func_parts(&fns[i]) {
                Some((name, _, _)) => {
                    let idx = funcs.len();
                    table_insert(&mut map, name.clone(), idx);
                    funcs.push(VmFunc { code: Vec::new(), locals: 0 });
                },
                None => {},
            }
        }
        i = i + 1;
    }
    let ghost m = table_view(map@);
    let mut i: usize = 0;
    while i < n
        invariant
            n == fns@.len(),
            fs == nodes_view(fns@),
            i <= n,
            e == eligible@,
            e.len() == n,
            forall|j: int| 0 <= j < n && #[trigger] e[j] ==> scan_of(fs[j]) is Some,
            scans@.len() == n,
            forall|j: int| 0 <= j < n ==> opt_scan(#[trigger] scans@[j]) == scan_of(fs[j]),
            funcs@.len() == slot_count(e, n as int),
            m == table_view(map@),
            m == engine_map(fs, e, n as int),
            forall|k: int| 0 <= k < funcs@.len() ==> func_is(#[trigger] funcs@[k], fs, e, m, k, i as int),
        decreases n - i,
    {
        assert(fs[i as int] == fns@[i as int]@);
        if eligible[i] {
            match (func_parts(&fns[i]), &scans[i]) {
                (Some((name, _, body)), Some(info)) => {
                    assert(opt_scan(scans@[i as int]) == scan_of(fs[i as int]));
                    let vars = copy_vars(&info.vars);
                    let mut c = FnCompiler { map: &map, vars, code: Vec::new() };
                    let ok = c.compile_block(body, false).is_ok();
                    if ok {
                        c.emit(Inst::Ret);
                    }
                    proof {
                        let out = cp_block(body_of(fs[i as int]), false, 0, m, scan_of(fs[i as int]).unwrap().vars);
                        assert(code_view(Seq::<Inst>::empty()) =~= Seq::<InstView>::empty());
                        assert(code_view(c.code@) =~= compiled_code(fs, m, i as int));
                        lemma_engine_map(fs, e, n as int, name@);
                    }
                    let idx = match table_get(&map, name) {
                        Some(k) => k,
                        None => 0,
                    };
                    let total = info.vars.len() as u32;
                    let ghost before = funcs@;
                    funcs.set(idx, VmFunc { code: c.code, locals: total });
                    proof {
                        assert forall|k: int| 0 <= k < funcs@.len() implies func_is(
                            #[trigger] funcs@[k],
                            fs,
                            e,
                            m,
                            k,
                            i + 1,
                        ) by {
                            if k != idx {
                                assert(func_is(before[k], fs, e, m, k, i as int));
                            }
                        }
                    }
                },
                _ => {},
            }
        } else {
            proof {
                assert forall|k: int| 0 <= k < funcs@.len() implies func_is(#[trigger] funcs@[k], fs, e, m, k, i + 1) by {
                    assert(func_is(funcs@[k], fs, e, m, k, i as int));
                }
            }
        }
        i = i + 1;
    }
    VmEngine { funcs, map }
}

// ---------------------------------------------------------------------
// Running compiled code: a frame machine, one instruction per step.
// ---------------------------------------------------------------------

/// The abstract value of a stack value.
pub enum ValView {
    Int(i64),
    Str(Seq<char>),
}

impl View for VmVal {
    type V = ValView;

    open spec fn view(&self) -> ValView {
        match self {
            VmVal::Int(n) => ValView::Int(*n),
            VmVal::Str(s) => ValView::Str(s@),
        }
    }
}

pub open spec fn vals_view(s: Seq<VmVal>) -> Seq<ValView> {
    s.map_values(|v: VmVal| v@)
}

/// A stack value read as an integer: a string reads as 0.
pub open spec fn as_int(v: ValView) -> i64 {
    match v {
        ValView::Int(n) => n,
        ValView::Str(_) => 0,
    }
}

/// A call frame: the function, the next instruction, the operand stack and
/// the local slots.
pub struct Frame {
    pub func: usize,
    pub pc: usize,
    pub stack: Vec<VmVal>,
    pub locals: Vec<VmVal>,
}

pub struct FrameView {
    pub func: usize,
    pub pc: usize,
    pub stack: Seq<ValView>,
    pub locals: Seq<ValView>,
}

impl View for Frame {
    type V = FrameView;

    open spec fn view(&self) -> FrameView {
        FrameView { func: self.func, pc: self.pc, stack: vals_view(self.stack@), locals: vals_view(self.locals@) }
    }
}

/// A running call of a compiled function: the current frame and, below it,
/// the frames of its callers.
pub struct Invocation {
    pub callers: Vec<Frame>,
    pub frame: Frame,
}

pub struct InvocationView {
    pub callers: Seq<FrameView>,
    pub frame: FrameView,
}

impl View for Invocation {
    type V = InvocationView;

    open spec fn view(&self) -> InvocationView {
        InvocationView { callers: self.callers@.map_values(|f: Frame| f@), frame: self.frame@ }
    }
}

/// What one step of an invocation did.
#[derive(Debug)]
pub enum VmStep {
    /// Go on.
    Continue,
    /// `喵叫` prints this line (a newline follows it).
    Print(String),
    /// The invocation returned this value.
    Done(i64),
    /// The invocation stopped with this error.
    Error(RuaError),
    /// The instruction overflowed (`i64::MIN / -1`) or the machine is not one
    /// that a call can reach.
    Fault,
}

pub enum VmStepView {
    Continue,
    Print(Seq<char>),
    Done(i64),
    Error(ErrorView),
    Fault,
}

impl View for VmStep {
    type V = VmStepView;

    open spec fn view(&self) -> VmStepView {
        match self {
            VmStep::Continue => VmStepView::Continue,
            VmStep::Print(s) => VmStepView::Print(s@),
            VmStep::Done(n) => VmStepView::Done(*n),
            VmStep::Error(e) => VmStepView::Error(e@),
            VmStep::Fault => VmStepView::Fault,
        }
    }
}

/// Pops the top of a stack; an empty stack gives 0.
pub open spec fn pop_val(st: Seq<ValView>) -> (ValView, Seq<ValView>) {
    if st.len() == 0 {
        (ValView::Int(0), st)
    } else {
        (st.last(), st.drop_last())
    }
}

/// The first `k` values popped, in the order they come off.
pub open spec fn popped(st: Seq<ValView>, k: nat) -> Seq<ValView>
    decreases k,
{
    if k == 0 {
        Seq::empty()
    } else {
        popped(st, (k - 1) as nat).push(pop_val(after_pops(st, (k - 1) as nat)).0)
    }
}

/// The stack after `k` pops.
pub open spec fn after_pops(st: Seq<ValView>, k: nat) -> Seq<ValView>
    decreases k,
{
    if k == 0 {
        st
    } else {
        pop_val(after_pops(st, (k - 1) as nat)).1
    }
}

/// The `n` arguments on top of the stack, first argument first.
pub open spec fn call_args(st: Seq<ValView>, n: nat) -> Seq<ValView> {
    popped(st, n).reverse()
}

/// Values fitted to `n` slots: cut, or filled up with 0.
pub open spec fn fit_slots(vals: Seq<ValView>, n: nat) -> Seq<ValView> {
    if vals.len() >= n {
        vals.subrange(0, n as int)
    } else {
        vals + Seq::new((n - vals.len()) as nat, |i: int| ValView::Int(0))
    }
}

/// The text `喵叫` prints for a value.
pub open spec fn val_text(v: ValView) -> Seq<char> {
    match v {
        ValView::Int(n) => decimal(n as int),
        ValView::Str(s) => s,
    }
}

/// The values' texts separated by single spaces.
pub open spec fn print_text(vals: Seq<ValView>) -> Seq<char>
    decreases vals.len(),
{
    if vals.len() == 0 {
        Seq::empty()
    } else if vals.len() == 1 {
        val_text(vals[0])
    } else {
        print_text(vals.drop_last()) + " "@ + val_text(vals.last())
    }
}

/// The result of an integer operator on its left and right operand; `None`
/// where Rust's own operator overflows (a quotient or remainder of
/// `i64::MIN` by -1). Sums, differences and products wrap.
pub open spec fn int_result(i: InstView, a: i64, b: i64) -> Option<i64> {
    match i {
        InstView::Add => Some(a.wrapping_add(b)),
        InstView::Sub => Some(a.wrapping_sub(b)),
        InstView::Mul => Some(a.wrapping_mul(b)),
        InstView::Div(_) => a.checked_div(b),
        InstView::Mod(_) => a.checked_rem(b),
        InstView::Eq => Some(if a == b { 1 } else { 0 }),
        InstView::Ne => Some(if a != b { 1 } else { 0 }),
        InstView::Gt => Some(if a > b { 1 } else { 0 }),
        InstView::Lt => Some(if a < b { 1 } else { 0 }),
        InstView::Ge => Some(if a >= b { 1 } else { 0 }),
        InstView::Le => Some(if a <= b { 1 } else { 0 }),
        _ => None,
    }
}

pub open spec fn is_binary(i: InstView) -> bool {
    i is Add || i is Sub || i is Mul || i is Div || i is Mod || i is Eq || i is Ne || i is Gt || i is Lt || i is Ge
        || i is Le
}

pub open spec fn with_frame(m: InvocationView, f: FrameView) -> InvocationView {
    InvocationView { callers: m.callers, frame: f }
}

/// One step of an invocation of the engine's code.
pub open spec fn spec_invoke_step(eng: VmEngine, m: InvocationView) -> (InvocationView, VmStepView) {
    let fr = m.frame;
    if fr.func >= eng.funcs@.len() {
        (m, VmStepView::Fault)
    } else {
        let code = code_view(eng.funcs@[fr.func as int].code@);
        if fr.pc >= code.len() {
            (m, VmStepView::Done(0))
        } else {
            let f1 = FrameView { pc: (fr.pc + 1) as usize, ..fr };
            let inst = code[fr.pc as int];
            match inst {
                InstView::Push(n) => (with_frame(m, FrameView { stack: f1.stack.push(ValView::Int(n)), ..f1 }), VmStepView::Continue),
                InstView::PushStr(t) => (with_frame(m, FrameView { stack: f1.stack.push(ValView::Str(t)), ..f1 }), VmStepView::Continue),
                InstView::LoadVar(i) => {
                    let v = if i < f1.locals.len() { f1.locals[i as int] } else { ValView::Int(0) };
                    (with_frame(m, FrameView { stack: f1.stack.push(v), ..f1 }), VmStepView::Continue)
                },
                InstView::StoreVar(i) => {
                    let (v, st) = pop_val(f1.stack);
                    let locals = if i < f1.locals.len() { f1.locals.update(i as int, v) } else { f1.locals };
                    (with_frame(m, FrameView { stack: st, locals, ..f1 }), VmStepView::Continue)
                },
                InstView::Jmp(t) => (with_frame(m, FrameView { pc: t, ..f1 }), VmStepView::Continue),
                InstView::Jz(t) => {
                    let (v, st) = pop_val(f1.stack);
                    let pc = if as_int(v) == 0 { t } else { f1.pc };
                    (with_frame(m, FrameView { pc, stack: st, ..f1 }), VmStepView::Continue)
                },
                InstView::Call(fi, n) => {
                    let args = call_args(f1.stack, n as nat);
                    let st = after_pops(f1.stack, n as nat);
                    if fi >= eng.funcs@.len() {
                        (m, VmStepView::Error(err_view(0, "未定义的函数"@)))
                    } else {
                        let callee = FrameView {
                            func: fi,
                            pc: 0,
                            stack: Seq::empty(),
                            locals: fit_slots(args, eng.funcs@[fi as int].locals as nat),
                        };
                        (
                            InvocationView { callers: m.callers.push(FrameView { stack: st, ..f1 }), frame: callee },
                            VmStepView::Continue,
                        )
                    }
                },
                InstView::CallPrint(n) => {
                    let args = call_args(f1.stack, n as nat);
                    let st = after_pops(f1.stack, n as nat);
                    (with_frame(m, FrameView { stack: st.push(ValView::Int(0)), ..f1 }), VmStepView::Print(print_text(args)))
                },
                InstView::Ret => {
                    let (r, st) = pop_val(f1.stack);
                    if m.callers.len() > 0 {
                        let caller = m.callers.last();
                        (
                            InvocationView {
                                callers: m.callers.drop_last(),
                                frame: FrameView { stack: caller.stack.push(r), ..caller },
                            },
                            VmStepView::Continue,
                        )
                    } else {
                        (m, VmStepView::Done(as_int(r)))
                    }
                },
                InstView::Pop => (with_frame(m, FrameView { stack: pop_val(f1.stack).1, ..f1 }), VmStepView::Continue),
                _ => {
                    let (b, s1) = pop_val(f1.stack);
                    let (a, s2) = pop_val(s1);
                    if inst is Div && as_int(b) == 0 {
                        (m, VmStepView::Error(err_view(inst->Div_0 as usize, "不能除以 0"@)))
                    } else if inst is Mod && as_int(b) == 0 {
                        (m, VmStepView::Error(err_view(inst->Mod_0 as usize, "不能取模 0"@)))
                    } else {
                        match int_result(inst, as_int(a), as_int(b)) {
                            Some(r) => (with_frame(m, FrameView { stack: s2.push(ValView::Int(r)), ..f1 }), VmStepView::Continue),
                            None => (m, VmStepView::Fault),
                        }
                    }
                },
            }
        }
    }
}

/// `s` is the outcome `r` gives, and when the invocation goes on its state
/// is the one `r` gives.
pub open spec fn invoke_step_is(new: InvocationView, s: VmStepView, r: (InvocationView, VmStepView)) -> bool {
    &&& s == r.1
    &&& (s is Continue || s is Print) ==> new == r.0
}

fn copy_val(v: &VmVal) -> (c: VmVal)
    ensures
        c@ == v@,
{
    match v {
        VmVal::Int(n) => VmVal::Int(*n),
        VmVal::Str(t) => VmVal::Str(t.clone()),
    }
}

fn as_int_of(v: &VmVal) -> (n: i64)
    ensures
        n == as_int(v@),
{
    match v {
        VmVal::Int(n) => *n,
        VmVal::Str(_) => 0,
    }
}

/// Pops the top of a stack; an empty stack gives 0.
fn pop_vm(st: &mut Vec<VmVal>) -> (v: VmVal)
    ensures
        (v@, vals_view(final(st)@)) == pop_val(vals_view(old(st)@)),
{
    let ghost before = st@;
    match st.pop() {
        Some(v) => {
            assert(vals_view(st@) =~= vals_view(before).drop_last());
            v
        },
        None => VmVal::Int(0),
    }
}

fn push_vm(st: &mut Vec<VmVal>, v: VmVal)
    ensures
        vals_view(final(st)@) == vals_view(old(st)@).push(v@),
{
    let ghost before = st@;
    st.push(v);
    assert(vals_view(st@) =~= vals_view(before).push(v@));
}

proof fn lemma_popped_len(st: Seq<ValView>, k: nat)
    ensures
        popped(st, k).len() == k,
    decreases k,
{
    if k > 0 {
        lemma_popped_len(st, (k - 1) as nat);
    }
}

/// Pops `n` values and gives them first argument first.
fn take_args(st: &mut Vec<VmVal>, n: usize) -> (args: Vec<VmVal>)
    ensures
        vals_view(args@) == call_args(vals_view(old(st)@), n as nat),
        vals_view(final(st)@) == after_pops(vals_view(old(st)@), n as nat),
{
    let ghost st0 = vals_view(st@);
    let mut out: Vec<VmVal> = Vec::new();
    let mut k: usize = 0;
    while k < n
        invariant
            k <= n,
            vals_view(out@) == popped(st0, k as nat),
            vals_view(st@) == after_pops(st0, k as nat),
        decreases n - k,
    {
        let v = pop_vm(st);
        push_vm(&mut out, v);
        k = k + 1;
    }
    let ghost p = vals_view(out@);
    proof {
        lemma_popped_len(st0, n as nat);
        assert(p.subrange(0, n as int) =~= p);
    }
    let mut args: Vec<VmVal> = Vec::new();
    let mut j: usize = 0;
    while j < n
        invariant
            j <= n,
            p.len() == n,
            out@.len() == n - j,
            vals_view(out@) == p.subrange(0, n - j),
            vals_view(args@) == p.reverse().subrange(0, j as int),
        decreases n - j,
    {
        let ghost before = out@;
        assert(vals_view(before)[n - j - 1] == p[n - j - 1]);
        assert(vals_view(before)[n - j - 1] == before[n - j - 1]@);
        let v = match out.pop() {
            Some(v) => v,
            None => VmVal::Int(0),
        };
        assert(v == before[n - j - 1]);
        assert(v@ == p[n - j - 1]);
        assert(vals_view(out@) =~= p.subrange(0, n - j - 1));
        push_vm(&mut args, v);
        assert(vals_view(args@) =~= p.reverse().subrange(0, j + 1));
        j = j + 1;
    }
    assert(vals_view(args@) =~= p.reverse());
    args
}

/// Fits values to `n` slots: cuts them, or fills up with 0.
fn fit_vm(vals: &mut Vec<VmVal>, n: usize)
    ensures
        vals_view(final(vals)@) == fit_slots(vals_view(old(vals)@), n as nat),
{
    let ghost v0 = vals_view(vals@);
    if vals.len() >= n {
        vals.truncate(n);
        assert(vals_view(vals@) =~= v0.subrange(0, n as int));
    } else {
        let start = vals.len();
        while vals.len() < n
            invariant
                start <= vals@.len() <= n,
                vals_view(vals@) == v0 + Seq::new((vals@.len() - start) as nat, |i: int| ValView::Int(0)),
                v0.len() == start,
            decreases n - vals@.len(),
        {
            let ghost before = vals_view(vals@);
            push_vm(vals, VmVal::Int(0));
            assert(vals_view(vals@) =~= v0 + Seq::new((vals@.len() - start) as nat, |i: int| ValView::Int(0)));
        }
    }
}

/// The line `喵叫` prints for these values.
fn print_line(vals: &Vec<VmVal>) -> (s: String)
    ensures
        s@ == print_text(vals_view(vals@)),
{
    let mut s = String::new();
    let mut i: usize = 0;
    while i < vals.len()
        invariant
            i <= vals@.len(),
            s@ == print_text(vals_view(vals@).subrange(0, i as int)),
        decreases vals@.len() - i,
    {
        let ghost vv = vals_view(vals@);
        if i > 0 {
            push_str(&mut s, " ");
        }
        match &vals[i] {
            VmVal::Int(x) => push_decimal(&mut s, *x),
            VmVal::Str(t) => push_str(&mut s, t.as_str()),
        }
        proof {
            let sub = vv.subrange(0, i + 1);
            assert(sub.drop_last() =~= vv.subrange(0, i as int));
            assert(sub.last() == vals@[i as int]@);
            if i == 0 {
                assert(s@ =~= print_text(sub));
            }
        }
        i = i + 1;
    }
    assert(vals_view(vals@).subrange(0, vals@.len() as int) =~= vals_view(vals@));
    s
}

pub open spec fn ints_view(args: Seq<i64>) -> Seq<ValView> {
    args.map_values(|n: i64| ValView::Int(n))
}

/// Starts a call of function `idx` on integer arguments: its frame holds
/// the arguments fitted to its slots. An index outside the engine is
/// refused.
pub fn invoke(engine: &VmEngine, idx: usize, args: &Vec<i64>) -> (r: Result<Invocation, RuaError>)
    ensures
        idx >= engine.funcs@.len() <==> r is Err,
        r matches Err(e) ==> e@ == err_view(0, "未定义的函数"@),
        r matches Ok(m) ==> m@ == (InvocationView {
            callers: Seq::empty(),
            frame: FrameView {
                func: idx,
                pc: 0,
                stack: Seq::empty(),
                locals: fit_slots(ints_view(args@), engine.funcs@[idx as int].locals as nat),
            },
        }),
{
    if idx >= engine.funcs.len() {
        return Err(RuaError::new(0, "未定义的函数"));
    }
    let mut locals: Vec<VmVal> = Vec::new();
    let mut i: usize = 0;
    while i < args.len()
        invariant
            i <= args@.len(),
            vals_view(locals@) == ints_view(args@).subrange(0, i as int),
        decreases args@.len() - i,
    {
        push_vm(&mut locals, VmVal::Int(args[i]));
        assert(ints_view(args@).subrange(0, i + 1) =~= ints_view(args@).subrange(0, i as int).push(ValView::Int(args@[i as int])));
        i = i + 1;
    }
    assert(ints_view(args@).subrange(0, args@.len() as int) =~= ints_view(args@));
    fit_vm(&mut locals, engine.funcs[idx].locals as usize);
    let m = Invocation { callers: Vec::new(), frame: Frame { func: idx, pc: 0, stack: Vec::new(), locals } };
    assert(m@.callers =~= Seq::<FrameView>::empty());
    assert(m@.frame.stack =~= Seq::<ValView>::empty());
    Ok(m)
}

fn step_binary(m: &mut Invocation, inst: &Inst) -> (s: VmStep)
    requires
        is_binary(inst@),
    ensures
        ({
            let f1 = old(m)@.frame;
            let (b, s1) = pop_val(f1.stack);
            let (a, s2) = pop_val(s1);
            let i = inst@;
            if i is Div && as_int(b) == 0 {
                s@ == VmStepView::Error(err_view(i->Div_0 as usize, "不能除以 0"@))
            } else if i is Mod && as_int(b) == 0 {
                s@ == VmStepView::Error(err_view(i->Mod_0 as usize, "不能取模 0"@))
            } else {
                match int_result(i, as_int(a), as_int(b)) {
                    Some(r) => s@ is Continue && final(m)@ == with_frame(old(m)@, FrameView { stack: s2.push(ValView::Int(r)), ..f1 }),
                    None => s@ is Fault,
                }
            }
        }),
{
    let b = pop_vm(&mut m.frame.stack);
    let a = pop_vm(&mut m.frame.stack);
    let x = as_int_of(&a);
    let y = as_int_of(&b);
    let r: i64 = match inst {
        Inst::Add => x.wrapping_add(y),
        Inst::Sub => x.wrapping_sub(y),
        Inst::Mul => x.wrapping_mul(y),
        Inst::Div(line) => {
            if y == 0 {
                return VmStep::Error(RuaError::new(*line as usize, "不能除以 0"));
            }
            match x.checked_div(y) {
                Some(q) => q,
                None => {
                    return VmStep::Fault;
                },
            }
        },
        Inst::Mod(line) => {
            if y == 0 {
                return VmStep::Error(RuaError::new(*line as usize, "不能取模 0"));
            }
            match x.checked_rem(y) {
                Some(q) => q,
                None => {
                    return VmStep::Fault;
                },
            }
        },
        Inst::Eq => if x == y { 1 } else { 0 },
        Inst::Ne => if x != y { 1 } else { 0 },
        Inst::Gt => if x > y { 1 } else { 0 },
        Inst::Lt => if x < y { 1 } else { 0 },
        Inst::Ge => if x >= y { 1 } else { 0 },
        Inst::Le => if x <= y { 1 } else { 0 },
        _ => {
            return VmStep::Fault;
        },
    };
    push_vm(&mut m.frame.stack, VmVal::Int(r));
    VmStep::Continue
}

fn step_call(engine: &VmEngine, m: &mut Invocation, fi: usize, n: u8) -> (s: VmStep)
    ensures
        ({
            let f1 = old(m)@.frame;
            let args = call_args(f1.stack, n as nat);
            let st = after_pops(f1.stack, n as nat);
            if fi >= engine.funcs@.len() {
                s@ == VmStepView::Error(err_view(0, "未定义的函数"@))
            } else {
                &&& s@ is Continue
                &&& final(m)@ == InvocationView {
                    callers: old(m)@.callers.push(FrameView { stack: st, ..f1 }),
                    frame: FrameView {
                        func: fi,
                        pc: 0,
                        stack: Seq::empty(),
                        locals: fit_slots(args, engine.funcs@[fi as int].locals as nat),
                    },
                }
            }
        }),
{
    let mut locals = take_args(&mut m.frame.stack, n as usize);
    if fi >= engine.funcs.len() {
        return VmStep::Error(RuaError::new(0, "未定义的函数"));
    }
    fit_vm(&mut locals, engine.funcs[fi].locals as usize);
    let mut callee = Frame { func: fi, pc: 0, stack: Vec::new(), locals };
    std::mem::swap(&mut m.frame, &mut callee);
    let ghost before = m.callers@;
    m.callers.push(callee);
    assert(m@.callers =~= old(m)@.callers.push(callee@));
    assert(m@.frame.stack =~= Seq::<ValView>::empty());
    VmStep::Continue
}

fn step_ret(m: &mut Invocation) -> (s: VmStep)
    ensures
        ({
            let (r, st) = pop_val(old(m)@.frame.stack);
            if old(m)@.callers.len() > 0 {
                let caller = old(m)@.callers.last();
                &&& s@ is Continue
                &&& final(m)@ == InvocationView {
                    callers: old(m)@.callers.drop_last(),
                    frame: FrameView { stack: caller.stack.push(r), ..caller },
                }
            } else {
                s@ == VmStepView::Done(as_int(r))
            }
        }),
{
    let r = pop_vm(&mut m.frame.stack);
    let ghost cs = m.callers@;
    match m.callers.pop() {
        Some(caller) => {
            let mut caller = caller;
            push_vm(&mut caller.stack, r);
            m.frame = caller;
            assert(m@.callers =~= old(m)@.callers.drop_last());
            VmStep::Continue
        },
        None => VmStep::Done(as_int_of(&r)),
    }
}

/// Runs one instruction of an invocation.
pub fn invoke_step(engine: &VmEngine, m: &mut Invocation) -> (s: VmStep)
    ensures
        invoke_step_is(final(m)@, s@, spec_invoke_step(*engine, old(m)@)),
{
    let f = m.frame.func;
    if f >= engine.funcs.len() {
        return VmStep::Fault;
    }
    let code = &engine.funcs[f].code;
    let pc = m.frame.pc;
    if pc >= code.len() {
        return VmStep::Done(0);
    }
    m.frame.pc = pc + 1;
    let inst = &code[pc];
    assert(code_view(code@)[pc as int] == inst@);
    match inst {
        Inst::Push(n) => {
            push_vm(&mut m.frame.stack, VmVal::Int(*n));
            VmStep::Continue
        },
        Inst::PushStr(t) => {
            push_vm(&mut m.frame.stack, VmVal::Str(t.clone()));
            VmStep::Continue
        },
        Inst::LoadVar(i) => {
            let k = *i as usize;
            let v = if k < m.frame.locals.len() {
                copy_val(&m.frame.locals[k])
            } else {
                VmVal::Int(0)
            };
            push_vm(&mut m.frame.stack, v);
            VmStep::Continue
        },
        Inst::StoreVar(i) => {
            let k = *i as usize;
            let v = pop_vm(&mut m.frame.stack);
            if k < m.frame.locals.len() {
                let ghost before = m.frame.locals@;
                m.frame.locals.set(k, v);
                assert(vals_view(m.frame.locals@) =~= vals_view(before).update(k as int, v@));
            }
            VmStep::Continue
        },
        Inst::Jmp(t) => {
            m.frame.pc = *t;
            VmStep::Continue
        },
        Inst::Jz(t) => {
            let v = pop_vm(&mut m.frame.stack);
            if as_int_of(&v) == 0 {
                m.frame.pc = *t;
            }
            VmStep::Continue
        },
        Inst::Call(fi, n) => step_call(engine, m, *fi, *n),
        Inst::CallPrint(n) => {
            let args = take_args(&mut m.frame.stack, *n as usize);
            push_vm(&mut m.frame.stack, VmVal::Int(0));
            VmStep::Print(print_line(&args))
        },
        Inst::Ret => step_ret(m),
        Inst::Pop => {
            pop_vm(&mut m.frame.stack);
            VmStep::Continue
        },
        _ => step_binary(m, inst),
    }
}

// ---------------------------------------------------------------------
// Names and listings.
// ---------------------------------------------------------------------

/// The name of the first table entry, from the `i`-th on, whose index is
/// `idx`; "?" when there is none.
pub open spec fn name_for(t: Seq<(Seq<char>, usize)>, idx: usize, i: int) -> Seq<char>
    decreases t.len() - i,
{
    if i < 0 || i >= t.len() {
        "?"@
    } else if t[i].1 == idx {
        t[i].0
    } else {
        name_for(t, idx, i + 1)
    }
}

/// Every name of a table has one entry, and no two entries share an index;
/// all indices are below `bound`.
pub open spec fn one_to_one(t: Seq<(Seq<char>, usize)>, bound: int) -> bool {
    &&& forall|a: int, b: int| 0 <= a < t.len() && 0 <= b < t.len() && a != b ==> #[trigger] t[a].0 != #[trigger] t[b].0
    &&& forall|a: int, b: int| 0 <= a < t.len() && 0 <= b < t.len() && a != b ==> t[a].1 != t[b].1
    &&& forall|a: int| 0 <= a < t.len() ==> (#[trigger] t[a]).1 < bound
}

proof fn lemma_insert_one_to_one(t: Seq<(Seq<char>, usize)>, bound: int, k: Seq<char>, v: usize)
    requires
        one_to_one(t, bound),
        v >= bound,
    ensures
        one_to_one(insert(t, k, v), v + 1),
{
    lemma_find_from(t, k, 0);
    let t2 = insert(t, k, v);
    if find(t, k) >= 0 {
        let p = find(t, k);
        assert forall|a: int, b: int| 0 <= a < t2.len() && 0 <= b < t2.len() && a != b implies #[trigger] t2[a].0
            != #[trigger] t2[b].0 && t2[a].1 != t2[b].1 by {
            assert(t2[a].0 == t[a].0);
            assert(t2[b].0 == t[b].0);
        }
    } else {
        assert forall|a: int, b: int| 0 <= a < t2.len() && 0 <= b < t2.len() && a != b implies #[trigger] t2[a].0
            != #[trigger] t2[b].0 && t2[a].1 != t2[b].1 by {
            if a < t.len() {
                assert(t2[a] == t[a]);
            }
            if b < t.len() {
                assert(t2[b] == t[b]);
            }
        }
    }
}

/// The engine's name table is one to one.
proof fn lemma_engine_map_one_to_one(fs: Seq<NodeView>, e: Seq<bool>, i: int)
    requires
        0 <= i <= e.len(),
        i <= usize::MAX,
    ensures
        one_to_one(engine_map(fs, e, i), slot_count(e, i)),
    decreases i,
{
    if i > 0 {
        lemma_engine_map_one_to_one(fs, e, i - 1);
        lemma_engine_map(fs, e, i - 1, Seq::empty());
        if e[i - 1] {
            lemma_insert_one_to_one(engine_map(fs, e, i - 1), slot_count(e, i - 1), fname(fs[i - 1]), slot_count(e, i - 1) as usize);
        }
    }
}

proof fn lemma_name_for_at(t: Seq<(Seq<char>, usize)>, idx: usize, i: int, p: int)
    requires
        0 <= i <= p < t.len(),
        t[p].1 == idx,
        forall|j: int| i <= j < p ==> t[j].1 != idx,
    ensures
        name_for(t, idx, i) == t[p].0,
    decreases p - i,
{
    if i < p {
        lemma_name_for_at(t, idx, i + 1, p);
    }
}

/// Rust's quotient and remainder of two `i64` values where neither is
/// refused: the quotient truncates toward zero, so that quotient times
/// divisor plus remainder gives the dividend back, with a remainder smaller
/// than the divisor and of the dividend's sign.
#[verifier::spinoff_prover]
pub(crate) proof fn lemma_i64_div_rem(x: i64, y: i64)
    requires
        y != 0,
        !(x == i64::MIN && y == -1),
    ensures
        x.checked_div(y) matches Some(q) && x.checked_rem(y) matches Some(r) && q * y + r == x && -(
        if y < 0 { -y } else { y as int }) < r < (if y < 0 { -y } else { y as int }) && (r == 0 || (r < 0) == (x < 0)),
{
    let xi = x as int;
    let d = y as int;
    if xi == 0 {
        assert(x.checked_div(y) == Some(0i64));
        assert(x.checked_rem(y) == Some(0i64));
        assert(0i64 * y + 0i64 == x);
    } else if xi > 0 && d > 0 {
        vstd::arithmetic::div_mod::lemma_fundamental_div_mod(xi, d);
        vstd::arithmetic::div_mod::lemma_mod_bound(xi, d);
        let q = xi / d;
        let r = xi % d;
        assert(0 <= q <= xi) by (nonlinear_arith)
            requires
                xi == d * q + r,
                0 <= r < d,
                xi > 0,
                d > 0,
        ;
        assert(q * d == d * q) by (nonlinear_arith);
        assert(q * d + r == xi);
        assert(x.checked_div(y) == Some(q as i64));
        assert(x.checked_rem(y) == Some(r as i64));
        assert((q as i64) * y + (r as i64) == x);
    } else if xi < 0 && d < 0 {
        let xx = -xi;
        let dd = -d;
        vstd::arithmetic::div_mod::lemma_fundamental_div_mod(xx, dd);
        vstd::arithmetic::div_mod::lemma_mod_bound(xx, dd);
        let q = xx / dd;
        let r = xx % dd;
        assert(0 <= q <= xx) by (nonlinear_arith)
            requires
                xx == dd * q + r,
                0 <= r < dd,
                xx > 0,
                dd > 0,
        ;
        assert(dd >= 2 ==> 2 * q <= xx) by (nonlinear_arith)
            requires
                xx == dd * q + r,
                0 <= r < dd,
                q >= 0,
        ;
        assert(dd == 1 ==> q == xx) by (nonlinear_arith)
            requires
                xx == dd * q + r,
                0 <= r < dd,
        ;
        assert(q * d == -(dd * q)) by (nonlinear_arith)
            requires
                d == -dd,
        ;
        assert(q * d + (r * -1) == xi);
        assert(x.checked_div(y) == Some(q as i64));
        assert(x.checked_rem(y) == Some((r * -1) as i64));
        assert((q as i64) * y + ((r * -1) as i64) == x);
    } else if xi < 0 {
        let xx = -xi;
        vstd::arithmetic::div_mod::lemma_fundamental_div_mod(xx, d);
        vstd::arithmetic::div_mod::lemma_mod_bound(xx, d);
        let q = xx / d;
        let r = xx % d;
        assert(0 <= q <= xx) by (nonlinear_arith)
            requires
                xx == d * q + r,
                0 <= r < d,
                xx > 0,
                d > 0,
        ;
        assert((q * -1) * d == -(d * q)) by (nonlinear_arith);
        assert((q * -1) * d + (r * -1) == xi);
        assert(x.checked_div(y) == Some((q * -1) as i64));
        assert(x.checked_rem(y) == Some((r * -1) as i64));
        assert(((q * -1) as i64) * y + ((r * -1) as i64) == x);
    } else {
        let dd = -d;
        vstd::arithmetic::div_mod::lemma_fundamental_div_mod(xi, dd);
        vstd::arithmetic::div_mod::lemma_mod_bound(xi, dd);
        let q = xi / dd;
        let r = xi % dd;
        assert(0 <= q <= xi) by (nonlinear_arith)
            requires
                xi == dd * q + r,
                0 <= r < dd,
                xi > 0,
                dd > 0,
        ;
        assert((q * -1) * d == dd * q) by (nonlinear_arith)
            requires
                d == -dd,
        ;
        assert((q * -1) * d + r == xi);
        assert(x.checked_div(y) == Some((q * -1) as i64));
        assert(x.checked_rem(y) == Some(r as i64));
        assert(((q * -1) as i64) * y + (r as i64) == x);
    }
}

/// `Div` and `Mod` divide the left operand by the right one with the
/// quotient truncated toward zero: quotient times divisor plus remainder is
/// the dividend, and the remainder is smaller than the divisor and has the
/// dividend's sign. The one pair Rust's operators refuse gives no result.
pub proof fn law_vm_div_mod_results(a: i64, b: i64, l1: u32, l2: u32)
    requires
        b != 0,
    ensures
        a == i64::MIN && b == -1 ==> int_result(InstView::Div(l1), a, b) is None && int_result(InstView::Mod(l2), a, b) is None,
        !(a == i64::MIN && b == -1) ==> (int_result(InstView::Div(l1), a, b) matches Some(q) && int_result(
            InstView::Mod(l2),
            a,
            b,
        ) matches Some(r) && q * b + r == a && -(if b < 0 { -b } else { b as int }) < r < (if b < 0 { -b } else { b as int })
            && (r == 0 || (r < 0) == (a < 0))),
{
    if !(a == i64::MIN && b == -1) {
        lemma_i64_div_rem(a, b);
    }
}

/// A binary expression compiles to the code of its left operand, then that
/// of its right one, then the instruction of its operator: `+` `Add`, `-`
/// `Sub`, `*` `Mul`, `/` `Div`, `%` `Mod`, `==` `Eq`, `!=` `Ne`, `>` `Gt`,
/// `<` `Lt`, `>=` `Ge`, `<=` `Le` (division and remainder carry the line
/// for their error).
pub proof fn law_compile_binary(
    line: usize,
    op: TokenKind,
    l: NodeView,
    r: NodeView,
    m: Seq<(Seq<char>, usize)>,
    v: Seq<(Seq<char>, u32)>,
)
    requires
        cp_expr(l, m, v).1 is None,
        cp_expr(r, m, v).1 is None,
        op == TokenKind::Plus || op == TokenKind::Minus || op == TokenKind::Star || op == TokenKind::Slash || op
            == TokenKind::Percent || op == TokenKind::Eqeq || op == TokenKind::Neq || op == TokenKind::Gt || op
            == TokenKind::Lt || op == TokenKind::Ge || op == TokenKind::Le,
    ensures
        cp_expr(NodeView::Binary { line, op, left: Box::new(l), right: Box::new(r) }, m, v) == (
            cp_expr(l, m, v).0 + cp_expr(r, m, v).0 + seq![
                match op {
                    TokenKind::Plus => InstView::Add,
                    TokenKind::Minus => InstView::Sub,
                    TokenKind::Star => InstView::Mul,
                    TokenKind::Slash => InstView::Div(line as u32),
                    TokenKind::Percent => InstView::Mod(line as u32),
                    TokenKind::Eqeq => InstView::Eq,
                    TokenKind::Neq => InstView::Ne,
                    TokenKind::Gt => InstView::Gt,
                    TokenKind::Lt => InstView::Lt,
                    TokenKind::Ge => InstView::Ge,
                    _ => InstView::Le,
                },
            ],
            None::<ErrorView>,
        ),
{
}

/// An arithmetic or comparison instruction takes the right operand `b` from
/// the top of the stack and the left operand `a` from below it, and pushes
/// in their place `a + b`, `a - b` or `a * b` (wrapping), or for a
/// comparison 1 when `a` compares so to `b` and 0 when it does not; the
/// frame moves to the next instruction and nothing else changes.
pub proof fn law_vm_binary_step(eng: VmEngine, m: InvocationView, rest: Seq<ValView>, a: i64, b: i64)
    requires
        m.frame.func < eng.funcs@.len(),
        m.frame.pc < code_view(eng.funcs@[m.frame.func as int].code@).len(),
        m.frame.stack == rest.push(ValView::Int(a)).push(ValView::Int(b)),
        ({
            let i = code_view(eng.funcs@[m.frame.func as int].code@)[m.frame.pc as int];
            i is Add || i is Sub || i is Mul || i is Eq || i is Ne || i is Gt || i is Lt || i is Ge || i is Le
        }),
    ensures
        ({
            let i = code_view(eng.funcs@[m.frame.func as int].code@)[m.frame.pc as int];
            let r = spec_invoke_step(eng, m);
            &&& r.1 == VmStepView::Continue
            &&& r.0.callers == m.callers
            &&& r.0.frame.func == m.frame.func
            &&& r.0.frame.pc == (m.frame.pc + 1) as usize
            &&& r.0.frame.locals == m.frame.locals
            &&& r.0.frame.stack == rest.push(
                ValView::Int(
                    match i {
                        InstView::Add => a.wrapping_add(b),
                        InstView::Sub => a.wrapping_sub(b),
                        InstView::Mul => a.wrapping_mul(b),
                        InstView::Eq => if a == b { 1 } else { 0 },
                        InstView::Ne => if a != b { 1 } else { 0 },
                        InstView::Gt => if a > b { 1 } else { 0 },
                        InstView::Lt => if a < b { 1 } else { 0 },
                        InstView::Ge => if a >= b { 1 } else { 0 },
                        _ => if a <= b { 1 } else { 0 },
                    },
                ),
            )
        }),
{
    let st = m.frame.stack;
    assert(pop_val(st).1 =~= rest.push(ValView::Int(a)));
    assert(pop_val(pop_val(st).1).1 =~= rest);
}

/// The results of the comparison instructions relate as the comparisons
/// do: `a <= b` is `b >= a`, `a < b` is `b > a`, exactly one of `a < b`
/// and `a >= b` (and of `a > b` and `a <= b`) gives 1, and an operand
/// compared with itself is `<=`, `>=` and `==` but not `<`, `>` or `!=`.
pub proof fn law_vm_compare_results(a: i64, b: i64)
    ensures
        int_result(InstView::Le, a, b) == int_result(InstView::Ge, b, a),
        int_result(InstView::Lt, a, b) == int_result(InstView::Gt, b, a),
        int_result(InstView::Lt, a, b).unwrap() + int_result(InstView::Ge, a, b).unwrap() == 1,
        int_result(InstView::Gt, a, b).unwrap() + int_result(InstView::Le, a, b).unwrap() == 1,
        int_result(InstView::Eq, a, b).unwrap() + int_result(InstView::Ne, a, b).unwrap() == 1,
        int_result(InstView::Le, a, a) == Some(1i64),
        int_result(InstView::Ge, a, a) == Some(1i64),
        int_result(InstView::Eq, a, a) == Some(1i64),
        int_result(InstView::Lt, a, a) == Some(0i64),
        int_result(InstView::Gt, a, a) == Some(0i64),
        int_result(InstView::Ne, a, a) == Some(0i64),
        int_result(InstView::Le, a, b) == Some(if a <= b { 1i64 } else { 0i64 }),
        int_result(InstView::Sub, a, b) matches Some(d) && d.wrapping_add(b) == a,
{
}

/// In a compiled engine, a name and the index it maps to correspond both
/// ways: `func_name` of the index `get_idx` gives for a name is that name.
pub proof fn law_name_index(fs: Seq<NodeView>, engine: VmEngine, c: Seq<char>)
    requires
        compiled(fs, engine),
        fs.len() <= usize::MAX,
    ensures
        lookup(table_view(engine.map@), c) matches Some(k) ==> name_for(table_view(engine.map@), k, 0) == c,
{
    let e = vm_set(fs);
    let t = table_view(engine.map@);
    lemma_engine_map_one_to_one(fs, e, fs.len() as int);
    if let Some(k) = lookup(t, c) {
        lemma_find_from(t, c, 0);
        let p = find(t, c);
        assert forall|j: int| 0 <= j < p implies t[j].1 != k by {
            assert(t[j].1 != t[p].1);
        }
        lemma_name_for_at(t, k, 0, p);
    }
}

/// The VM-able functions form the largest set closed under calls: the set
/// is closed, and every closed set lies inside it.
pub proof fn law_vm_set_largest(fs: Seq<NodeView>)
    ensures
        closed(fs, vm_set(fs)),
        forall|s: Seq<bool>| #[trigger] closed(fs, s) ==> subset_of(s, vm_set(fs)),
{
    let v = vm_set(fs);
    assert forall|k: int| 0 <= k < v.len() && #[trigger] v[k] implies callees_in(fs, v, k) by {
        let s = choose|s: Seq<bool>| #[trigger] closed(fs, s) && s[k];
        assert(callees_in(fs, s, k));
        let sv = scan_of(fs[k]).unwrap();
        assert forall|u: int| 0 <= u < sv.callees.len() implies #[trigger] callee_in(fs, v, sv.callees[u]) by {
            assert(callee_in(fs, s, sv.callees[u]));
            let j = lookup(name_index(fs, fs.len() as int), sv.callees[u]).unwrap();
            assert(closed(fs, s) && s[j as int]);
            assert(vm_able(fs, j as int));
        }
    }
    assert forall|s: Seq<bool>| #[trigger] closed(fs, s) implies subset_of(s, v) by {
        assert forall|j: int| 0 <= j < s.len() && #[trigger] s[j] implies j < v.len() && v[j] by {
            assert(closed(fs, s) && s[j]);
        }
    }
}

proof fn lemma_name_for_none(t: Seq<(Seq<char>, usize)>, idx: usize, i: int)
    requires
        0 <= i,
        forall|j: int| i <= j < t.len() ==> t[j].1 != idx,
    ensures
        name_for(t, idx, i) == "?"@,
    decreases t.len() - i,
{
    if i < t.len() {
        lemma_name_for_none(t, idx, i + 1);
    }
}

/// Definitions with pairwise different names.
pub open spec fn distinct_names(fs: Seq<NodeView>) -> bool {
    forall|a: int, b: int| 0 <= a < b < fs.len() && fs[a] is Func && fs[b] is Func ==> fname(fs[a]) != fname(fs[b])
}

/// With distinct names, entry `k` of the engine's name table is the `k`-th
/// compiled function, and every name comes from a function before `i`.
proof fn lemma_engine_map_dense(fs: Seq<NodeView>, e: Seq<bool>, i: int)
    requires
        0 <= i <= e.len(),
        e.len() == fs.len(),
        i <= usize::MAX,
        distinct_names(fs),
        forall|j: int| 0 <= j < e.len() && #[trigger] e[j] ==> fs[j] is Func,
    ensures
        engine_map(fs, e, i).len() == slot_count(e, i),
        forall|k: int| 0 <= k < engine_map(fs, e, i).len() ==> #[trigger] engine_map(fs, e, i)[k].1 == k,
        forall|k: int| #![trigger engine_map(fs, e, i)[k]] 0 <= k < engine_map(fs, e, i).len() ==> exists|j: int| 0 <= j < i && e[j] && #[trigger] fname(fs[j]) == engine_map(fs, e, i)[k].0,
    decreases i,
{
    if i > 0 {
        lemma_engine_map_dense(fs, e, i - 1);
        lemma_engine_map(fs, e, i - 1, Seq::empty());
        let t = engine_map(fs, e, i - 1);
        if e[i - 1] {
            let c = fname(fs[i - 1]);
            lemma_find_from(t, c, 0);
            assert(find(t, c) < 0) by {
                if find(t, c) >= 0 {
                    let k = find(t, c);
                    let j = choose|j: int| 0 <= j < i - 1 && e[j] && #[trigger] fname(fs[j]) == t[k].0;
                    assert(fname(fs[j]) == fname(fs[i - 1]));
                }
            }
            let t2 = insert(t, c, slot_count(e, i - 1) as usize);
            assert(t2 == t.push((c, slot_count(e, i - 1) as usize)));
            assert forall|k: int| #![trigger t2[k]] 0 <= k < t2.len() implies exists|j: int| 0 <= j < i && e[j] && #[trigger] fname(fs[j]) == t2[k].0 by {
                if k < t.len() {
                    let j = choose|j: int| 0 <= j < i - 1 && e[j] && #[trigger] fname(fs[j]) == t[k].0;
                    assert(fname(fs[j]) == t2[k].0);
                } else {
                    assert(fname(fs[i - 1]) == t2[k].0);
                }
            }
        } else {
            assert forall|k: int| #![trigger t[k]] 0 <= k < t.len() implies exists|j: int| 0 <= j < i && e[j] && #[trigger] fname(fs[j]) == t[k].0 by {
                let j = choose|j: int| 0 <= j < i - 1 && e[j] && #[trigger] fname(fs[j]) == t[k].0;
                assert(fname(fs[j]) == t[k].0);
            }
        }
    }
}

/// In a compiled engine of functions with distinct names, each index below
/// the number of functions has a name that maps back to it, and an index
/// past them has none ("?").
pub proof fn law_index_name(fs: Seq<NodeView>, engine: VmEngine, k: usize)
    requires
        compiled(fs, engine),
        fs.len() <= usize::MAX,
        distinct_names(fs),
    ensures
        k < engine.funcs@.len() ==> lookup(table_view(engine.map@), name_for(table_view(engine.map@), k, 0)) == Some(k),
        k >= engine.funcs@.len() ==> name_for(table_view(engine.map@), k, 0) == "?"@,
{
    let e = vm_set(fs);
    let t = table_view(engine.map@);
    lemma_engine_map_one_to_one(fs, e, fs.len() as int);
    law_vm_set_largest(fs);
    assert forall|j: int| 0 <= j < e.len() && #[trigger] e[j] implies fs[j] is Func by {
        assert(callees_in(fs, e, j));
    }
    lemma_engine_map_dense(fs, e, fs.len() as int);
    if k < engine.funcs@.len() {
        assert(t[k as int].1 == k);
        lemma_name_for_at(t, k, 0, k as int);
        lemma_find_from(t, t[k as int].0, 0);
        let p = find(t, t[k as int].0);
        assert(p == k as int) by {
            if p != k as int {
                assert(t[p].0 == t[k as int].0);
            }
        }
    } else {
        assert forall|j: int| 0 <= j < t.len() implies t[j].1 != k by {
            assert(t[j].1 == j);
        }
        lemma_name_for_none(t, k, 0);
    }
}

impl VmEngine {
    /// The name of the function at `idx`, or "?" when no name maps to it.
    pub fn func_name(&self, idx: usize) -> (s: &str)
        ensures
            s@ == name_for(table_view(self.map@), idx, 0),
    {
        let mut i: usize = 0;
        while i < self.map.len()
            invariant
                i <= self.map@.len(),
                name_for(table_view(self.map@), idx, 0) == name_for(table_view(self.map@), idx, i as int),
            decreases self.map@.len() - i,
        {
            if self.map[i].1 == idx {
                return self.map[i].0.as_str();
            }
            i = i + 1;
        }
        "?"
    }
}

/// The listing of one instruction.
pub open spec fn inst_text(i: InstView) -> Seq<char> {
    match i {
        InstView::Push(n) => "push "@ + decimal(n as int),
        InstView::PushStr(t) => "pushstr "@ + debug_text(t),
        InstView::LoadVar(k) => "load v"@ + decimal(k as int),
        InstView::StoreVar(k) => "store v"@ + decimal(k as int),
        InstView::Add => "add"@,
        InstView::Sub => "sub"@,
        InstView::Mul => "mul"@,
        InstView::Div(l) => "div (line "@ + decimal(l as int) + ")"@,
        InstView::Mod(l) => "mod (line "@ + decimal(l as int) + ")"@,
        InstView::Eq => "eq"@,
        InstView::Ne => "ne"@,
        InstView::Gt => "gt"@,
        InstView::Lt => "lt"@,
        InstView::Ge => "ge"@,
        InstView::Le => "le"@,
        InstView::Jmp(t) => "jmp "@ + decimal(t as int),
        InstView::Jz(t) => "jz "@ + decimal(t as int),
        InstView::Call(f, n) => "call f"@ + decimal(f as int) + " ("@ + decimal(n as int) + " args)"@,
        InstView::CallPrint(n) => "call 喵叫 ("@ + decimal(n as int) + " args)"@,
        InstView::Ret => "ret"@,
        InstView::Pop => "pop"@,
    }
}

impl Inst {
    /// The listing of this instruction.
    pub fn disasm(&self) -> (s: String)
        ensures
            s@ == inst_text(self@),
    {
        match self {
            Inst::Push(n) => {
                let mut s = String::from_str("push ");
                push_decimal(&mut s, *n);
                s
            },
            Inst::PushStr(t) => {
                let mut s = String::from_str("pushstr ");
                let q = quoted(t.as_str());
                push_str(&mut s, q.as_str());
                s
            },
            Inst::LoadVar(k) => {
                let mut s = String::from_str("load v");
                push_unsigned(&mut s, *k as usize);
                s
            },
            Inst::StoreVar(k) => {
                let mut s = String::from_str("store v");
                push_unsigned(&mut s, *k as usize);
                s
            },
            Inst::Add => String::from_str("add"),
            Inst::Sub => String::from_str("sub"),
            Inst::Mul => String::from_str("mul"),
            Inst::Div(l) => {
                let mut s = String::from_str("div (line ");
                push_unsigned(&mut s, *l as usize);
                push_str(&mut s, ")");
                s
            },
            Inst::Mod(l) => {
                let mut s = String::from_str("mod (line ");
                push_unsigned(&mut s, *l as usize);
                push_str(&mut s, ")");
                s
            },
            Inst::Eq => String::from_str("eq"),
            Inst::Ne => String::from_str("ne"),
            Inst::Gt => String::from_str("gt"),
            Inst::Lt => String::from_str("lt"),
            Inst::Ge => String::from_str("ge"),
            Inst::Le => String::from_str("le"),
            Inst::Jmp(t) => {
                let mut s = String::from_str("jmp ");
                push_unsigned(&mut s, *t);
                s
            },
            Inst::Jz(t) => {
                let mut s = String::from_str("jz ");
                push_unsigned(&mut s, *t);
                s
            },
            Inst::Call(f, n) => {
                let mut s = String::from_str("call f");
                push_unsigned(&mut s, *f);
                push_str(&mut s, " (");
                push_unsigned(&mut s, *n as usize);
                push_str(&mut s, " args)");
                s
            },
            Inst::CallPrint(n) => {
                let mut s = String::from_str("call 喵叫 (");
                push_unsigned(&mut s, *n as usize);
                push_str(&mut s, " args)");
                s
            },
            Inst::Ret => String::from_str("ret"),
            Inst::Pop => String::from_str("pop"),
        }
    }
}

/// `t` right-aligned in a field of `w` characters.
pub open spec fn pad_left(t: Seq<char>, w: nat) -> Seq<char> {
    if t.len() >= w {
        t
    } else {
        Seq::new((w - t.len()) as nat, |i: int| ' ') + t
    }
}

/// The listing lines of the first `k` instructions of `code`.
pub open spec fn code_listing(code: Seq<InstView>, k: int) -> Seq<char>
    decreases k,
{
    if k <= 0 || k > code.len() {
        Seq::empty()
    } else {
        code_listing(code, k - 1) + "  "@ + pad_left(decimal(k - 1), 4) + ": "@ + inst_text(code[k - 1]) + "\n"@
    }
}

/// The listing of the first `k` functions of the engine.
pub open spec fn engine_listing(eng: VmEngine, k: int) -> Seq<char>
    decreases k,
{
    if k <= 0 || k > eng.funcs@.len() {
        Seq::empty()
    } else {
        let code = code_view(eng.funcs@[k - 1].code@);
        engine_listing(eng, k - 1) + "函数["@ + decimal(k - 1) + "] "@ + name_for(table_view(eng.map@), (k - 1) as usize, 0)
            + "："@ + decimal(code.len() as int) + " 条指令\n"@ + code_listing(code, code.len() as int)
    }
}

/// Appends the decimal text of `n` right-aligned in a field of 4.
fn push_padded(s: &mut String, n: usize)
    ensures
        final(s)@ == old(s)@ + pad_left(decimal(n as int), 4),
{
    let mut t = String::new();
    push_unsigned(&mut t, n);
    let ghost d = decimal(n as int);
    assert(t@ =~= d);
    let len = t.as_str().unicode_len();
    let mut k: usize = len;
    while k < 4
        invariant
            len <= k,
            len == d.len(),
            k <= 4 || k == len,
            s@ == old(s)@ + Seq::new((k - len) as nat, |i: int| ' '),
        decreases 4 - k,
    {
        push_char(s, ' ');
        k = k + 1;
        assert(s@ =~= old(s)@ + Seq::new((k - len) as nat, |i: int| ' '));
    }
    push_str(s, t.as_str());
    assert(s@ =~= old(s)@ + pad_left(d, 4));
}

/// The listing of the engine's code: the number of functions, then each
/// function's index, name and length, and one line per instruction.
#[verifier::rlimit(60)]
pub fn dump_engine(engine: &VmEngine) -> (out: String)
    ensures
        out@ == "可 VM 函数 "@ + decimal(engine.funcs@.len() as int) + " 个\n"@ + engine_listing(*engine, engine.funcs@.len() as int),
{
    let mut out = String::from_str("可 VM 函数 ");
    push_unsigned(&mut out, engine.funcs.len());
    push_str(&mut out, " 个\n");
    let ghost head = out@;
    let mut idx: usize = 0;
    while idx < engine.funcs.len()
        invariant
            idx <= engine.funcs@.len(),
            out@ == head + engine_listing(*engine, idx as int),
        decreases engine.funcs@.len() - idx,
    {
        let f = &engine.funcs[idx];
        let ghost code = code_view(f.code@);
        let ghost before = out@;
        push_str(&mut out, "函数[");
        push_unsigned(&mut out, idx);
        push_str(&mut out, "] ");
        push_str(&mut out, engine.func_name(idx));
        push_str(&mut out, "：");
        push_unsigned(&mut out, f.code.len());
        push_str(&mut out, " 条指令\n");
        let ghost mid = out@;
        let mut pc: usize = 0;
        while pc < f.code.len()
            invariant
                pc <= f.code@.len(),
                code == code_view(f.code@),
                out@ == mid + code_listing(code, pc as int),
            decreases f.code@.len() - pc,
        {
            push_str(&mut out, "  ");
            push_padded(&mut out, pc);
            push_str(&mut out, ": ");
            let line = f.code[pc].disasm();
            push_str(&mut out, line.as_str());
            push_str(&mut out, "\n");
            assert(code[pc as int] == f.code@[pc as int]@);
            assert(out@ =~= mid + code_listing(code, pc + 1));
            pc = pc + 1;
        }
        assert(out@ =~= head + engine_listing(*engine, idx + 1));
        idx = idx + 1;
    }
    out
}

} // verus!
