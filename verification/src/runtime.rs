//! The tree-walking interpreter.
//!
//! Values are numbers, strings and arrays; an array is a handle into the
//! machine's heap, so copies of it share the elements. Variables live in a
//! chain of scopes, innermost last: a call opens a scope whose parent is the
//! caller's (the language scopes dynamically). Lookups and assignments walk
//! the chain from the innermost scope out, and in each scope take the first
//! binding of the name; an assignment to an unknown name binds it in the
//! innermost scope.
//!
//! Evaluation is an explicit machine: a stack of tasks, a stack of values
//! and, per call, whether a `返回` has run and with which value. One step
//! runs one task. Printing, calls of machine-code functions and the end of
//! the run are reported to the caller of `Runtime::exec`, which does the outside
//! work and resumes the machine.
use vstd::prelude::*;
use crate::ast::{err_view, line_of, nodes_view, ErrorView, Node, NodeKind, NodeView, RuaError};
use crate::jit::{self, JitEngine, JitLayout};
use crate::lexer::TokenKind;
use crate::text::{decimal, push_decimal, push_str};
use crate::vm::{self, find, insert, lookup, table_view, Invocation, VmEngine, VmStep};

verus! {

/// A value of the interpreter.
#[derive(Debug)]
pub enum Value {
    Num(i64),
    Str(String),
    /// An array: its handle in the heap.
    Arr(usize),
}

/// The abstract value of a value.
pub enum ValueView {
    Num(i64),
    Str(Seq<char>),
    Arr(usize),
}

impl View for Value {
    type V = ValueView;

    open spec fn view(&self) -> ValueView {
        match self {
            Value::Num(n) => ValueView::Num(*n),
            Value::Str(s) => ValueView::Str(s@),
            Value::Arr(h) => ValueView::Arr(*h),
        }
    }
}

pub open spec fn values_view(s: Seq<Value>) -> Seq<ValueView> {
    s.map_values(|v: Value| v@)
}

/// A number value.
pub fn num_val(n: i64) -> (v: Value)
    ensures
        v@ == ValueView::Num(n),
{
    Value::Num(n)
}

/// A copy of a value (an array copy shares the elements).
pub fn copy_value(v: &Value) -> (c: Value)
    ensures
        c@ == v@,
{
    match v {
        Value::Num(n) => Value::Num(*n),
        Value::Str(s) => Value::Str(s.clone()),
        Value::Arr(h) => Value::Arr(*h),
    }
}

/// A value read as a number: strings and arrays read as 0.
pub open spec fn num_field(v: ValueView) -> i64 {
    match v {
        ValueView::Num(n) => n,
        _ => 0,
    }
}

fn num_field_of(v: &Value) -> (n: i64)
    ensures
        n == num_field(v@),
{
    match v {
        Value::Num(n) => *n,
        _ => 0,
    }
}

/// Truth of a condition: a nonzero number, a nonempty string, any array.
pub open spec fn truth(v: ValueView) -> bool {
    match v {
        ValueView::Str(s) => s.len() > 0,
        ValueView::Arr(_) => true,
        ValueView::Num(n) => n != 0,
    }
}

fn is_true(v: &Value) -> (b: bool)
    ensures
        b == truth(v@),
{
    match v {
        Value::Str(s) => !s.as_str().is_empty(),
        Value::Arr(_) => true,
        Value::Num(n) => *n != 0,
    }
}

/// The text `喵叫` prints for a value.
pub open spec fn print_text(v: ValueView) -> Seq<char> {
    match v {
        ValueView::Str(s) => s,
        ValueView::Arr(_) => "数组"@,
        ValueView::Num(n) => decimal(n as int),
    }
}

fn value_text(v: &Value) -> (s: String)
    ensures
        s@ == print_text(v@),
{
    match v {
        Value::Str(t) => t.clone(),
        Value::Arr(_) => String::from_str("数组"),
        Value::Num(n) => {
            let mut s = String::new();
            push_decimal(&mut s, *n);
            s
        },
    }
}

// ---------------------------------------------------------------------
// Binary operators.
// ---------------------------------------------------------------------

/// The result of a binary operator: a value, an error, or an overflow where
/// Rust's own division panics (`i64::MIN / -1`, `i64::MIN % -1`).
pub enum BinView {
    Val(ValueView),
    Fail(ErrorView),
    Overflow,
}

pub open spec fn is_str(v: ValueView) -> bool {
    v is Str
}

/// The text of an operand of a string concatenation.
pub open spec fn concat_text(v: ValueView) -> Seq<char> {
    match v {
        ValueView::Str(s) => s,
        _ => decimal(num_field(v) as int),
    }
}

/// Equality: two strings by content, a string never equals anything else,
/// everything else by its number (an array reads as 0).
pub open spec fn values_equal(a: ValueView, b: ValueView) -> bool {
    if is_str(a) || is_str(b) {
        match (a, b) {
            (ValueView::Str(x), ValueView::Str(y)) => x == y,
            _ => false,
        }
    } else {
        num_field(a) == num_field(b)
    }
}

pub open spec fn flag(b: bool) -> ValueView {
    ValueView::Num(if b { 1 } else { 0 })
}

/// A binary operator on two values. `+` concatenates when either side is a
/// string (a number as its decimal text) and otherwise adds; `- * / %` and
/// the comparisons need numbers; arithmetic wraps.
pub open spec fn binop(op: TokenKind, a: ValueView, b: ValueView, line: usize) -> BinView {
    let x = num_field(a);
    let y = num_field(b);
    match op {
        TokenKind::Plus => if is_str(a) || is_str(b) {
            BinView::Val(ValueView::Str(concat_text(a) + concat_text(b)))
        } else {
            BinView::Val(ValueView::Num(x.wrapping_add(y)))
        },
        TokenKind::Minus => if is_str(a) || is_str(b) {
            BinView::Fail(err_view(line, "运算需要数字"@))
        } else {
            BinView::Val(ValueView::Num(x.wrapping_sub(y)))
        },
        TokenKind::Star => if is_str(a) || is_str(b) {
            BinView::Fail(err_view(line, "运算需要数字"@))
        } else {
            BinView::Val(ValueView::Num(x.wrapping_mul(y)))
        },
        TokenKind::Slash => if is_str(a) || is_str(b) {
            BinView::Fail(err_view(line, "运算需要数字"@))
        } else if y == 0 {
            BinView::Fail(err_view(line, "不能除以 0"@))
        } else {
            match x.checked_div(y) {
                Some(q) => BinView::Val(ValueView::Num(q)),
                None => BinView::Overflow,
            }
        },
        TokenKind::Percent => if is_str(a) || is_str(b) {
            BinView::Fail(err_view(line, "运算需要数字"@))
        } else if y == 0 {
            BinView::Fail(err_view(line, "不能取模 0"@))
        } else {
            match x.checked_rem(y) {
                Some(q) => BinView::Val(ValueView::Num(q)),
                None => BinView::Overflow,
            }
        },
        TokenKind::Eqeq => BinView::Val(flag(values_equal(a, b))),
        TokenKind::Neq => BinView::Val(flag(!values_equal(a, b))),
        TokenKind::Gt | TokenKind::Lt | TokenKind::Ge | TokenKind::Le => if is_str(a) || is_str(b) {
            BinView::Fail(err_view(line, "比较需要数字"@))
        } else {
            BinView::Val(
                flag(
                    match op {
                        TokenKind::Gt => x > y,
                        TokenKind::Lt => x < y,
                        TokenKind::Ge => x >= y,
                        _ => x <= y,
                    },
                ),
            )
        },
        _ => BinView::Fail(err_view(line, "未知运算符"@)),
    }
}

fn is_str_value(v: &Value) -> (b: bool)
    ensures
        b == is_str(v@),
{
    match v {
        Value::Str(_) => true,
        _ => false,
    }
}

fn concat_part(v: &Value) -> (s: String)
    ensures
        s@ == concat_text(v@),
{
    match v {
        Value::Str(t) => t.clone(),
        _ => {
            let mut s = String::new();
            push_decimal(&mut s, num_field_of(v));
            s
        },
    }
}

fn equal_values(a: &Value, b: &Value) -> (r: bool)
    ensures
        r == values_equal(a@, b@),
{
    if is_str_value(a) || is_str_value(b) {
        match (a, b) {
            (Value::Str(x), Value::Str(y)) => *x == *y,
            _ => false,
        }
    } else {
        num_field_of(a) == num_field_of(b)
    }
}

/// Applies a binary operator; the one input on which Rust's division
/// overflows is left out.
pub fn apply_binop(op: TokenKind, a: &Value, b: &Value, line: usize) -> (r: Result<Value, RuaError>)
    requires
        !(binop(op, a@, b@, line) is Overflow),
    ensures
        match r {
            Ok(v) => binop(op, a@, b@, line) == BinView::Val(v@),
            Err(e) => binop(op, a@, b@, line) == BinView::Fail(e@),
        },
{
    let x = num_field_of(a);
    let y = num_field_of(b);
    let strs = is_str_value(a) || is_str_value(b);
    match op {
        TokenKind::Plus => {
            if strs {
                let mut s = concat_part(a);
                let t = concat_part(b);
                push_str(&mut s, t.as_str());
                Ok(Value::Str(s))
            } else {
                Ok(Value::Num(x.wrapping_add(y)))
            }
        },
        TokenKind::Minus => {
            if strs {
                Err(RuaError::new(line, "运算需要数字"))
            } else {
                Ok(Value::Num(x.wrapping_sub(y)))
            }
        },
        TokenKind::Star => {
            if strs {
                Err(RuaError::new(line, "运算需要数字"))
            } else {
                Ok(Value::Num(x.wrapping_mul(y)))
            }
        },
        TokenKind::Slash => {
            if strs {
                Err(RuaError::new(line, "运算需要数字"))
            } else if y == 0 {
                Err(RuaError::new(line, "不能除以 0"))
            } else {
                match x.checked_div(y) {
                    Some(q) => Ok(Value::Num(q)),
                    None => Err(RuaError::new(line, "不能除以 0")),
                }
            }
        },
        TokenKind::Percent => {
            if strs {
                Err(RuaError::new(line, "运算需要数字"))
            } else if y == 0 {
                Err(RuaError::new(line, "不能取模 0"))
            } else {
                match x.checked_rem(y) {
                    Some(q) => Ok(Value::Num(q)),
                    None => Err(RuaError::new(line, "不能取模 0")),
                }
            }
        },
        TokenKind::Eqeq => Ok(Value::Num(if equal_values(a, b) { 1 } else { 0 })),
        TokenKind::Neq => Ok(Value::Num(if !equal_values(a, b) { 1 } else { 0 })),
        TokenKind::Gt | TokenKind::Lt | TokenKind::Ge | TokenKind::Le => {
            if strs {
                Err(RuaError::new(line, "比较需要数字"))
            } else {
                let c = match op {
                    TokenKind::Gt => x > y,
                    TokenKind::Lt => x < y,
                    TokenKind::Ge => x >= y,
                    _ => x <= y,
                };
                Ok(Value::Num(if c { 1 } else { 0 }))
            }
        },
        _ => Err(RuaError::new(line, "未知运算符")),
    }
}

/// Whether a binary operator overflows on these values.
fn binop_overflows(op: TokenKind, a: &Value, b: &Value, line: usize) -> (r: bool)
    ensures
        r == binop(op, a@, b@, line) is Overflow,
{
    let x = num_field_of(a);
    let y = num_field_of(b);
    if is_str_value(a) || is_str_value(b) || y == 0 {
        return false;
    }
    match op {
        TokenKind::Slash => x.checked_div(y).is_none(),
        TokenKind::Percent => x.checked_rem(y).is_none(),
        _ => false,
    }
}

// ---------------------------------------------------------------------
// Scopes and arrays.
// ---------------------------------------------------------------------

/// One scope: its bindings in the order they were made.
pub type ScopeView = Seq<(Seq<char>, ValueView)>;

pub open spec fn scope_view(s: Seq<(String, Value)>) -> ScopeView {
    s.map_values(|b: (String, Value)| (b.0@, b.1@))
}

/// One scope of variables, bindings in the order they were made.
pub struct Env {
    pub bindings: Vec<(String, Value)>,
}

/// Per call: whether a `返回` has run, and its value.
pub struct Ctx {
    pub returning: bool,
    pub retval: Value,
}

pub open spec fn scopes_view(s: Seq<Env>) -> Seq<ScopeView> {
    s.map_values(|b: Env| scope_view(b.bindings@))
}

/// The value of `name`: the first binding of it in the innermost scope
/// that has one.
pub open spec fn env_get(envs: Seq<ScopeView>, name: Seq<char>) -> Option<ValueView>
    decreases envs.len(),
{
    if envs.len() == 0 {
        None
    } else {
        match lookup(envs.last(), name) {
            Some(v) => Some(v),
            None => env_get(envs.drop_last(), name),
        }
    }
}

/// The innermost scope that binds `name`, or -1.
pub open spec fn env_owner(envs: Seq<ScopeView>, name: Seq<char>) -> int
    decreases envs.len(),
{
    if envs.len() == 0 {
        -1
    } else if find(envs.last(), name) >= 0 {
        envs.len() - 1
    } else {
        env_owner(envs.drop_last(), name)
    }
}

/// A new binding in the innermost scope.
pub open spec fn env_bind(envs: Seq<ScopeView>, name: Seq<char>, v: ValueView) -> Seq<ScopeView> {
    envs.update(envs.len() - 1, envs.last().push((name, v)))
}

/// Assignment: the first binding in the innermost scope that has the name
/// gets the value; when no scope has it, a binding is made in the innermost
/// scope.
pub open spec fn env_set(envs: Seq<ScopeView>, name: Seq<char>, v: ValueView) -> Seq<ScopeView> {
    let k = env_owner(envs, name);
    if k >= 0 {
        envs.update(k, envs[k].update(find(envs[k], name), (name, v)))
    } else {
        env_bind(envs, name, v)
    }
}

/// The outcome of an array access: a value, an error, or a handle that is
/// not in the heap.
pub enum AccessView {
    Val(ValueView),
    Fail(ErrorView),
    Lost,
}

/// `base[idx]`.
pub open spec fn array_get(heap: Seq<Seq<ValueView>>, base: ValueView, idx: ValueView, line: usize) -> AccessView {
    match base {
        ValueView::Arr(h) => match idx {
            ValueView::Num(n) => if n < 0 {
                AccessView::Fail(err_view(line, "数组下标越界"@))
            } else if h >= heap.len() {
                AccessView::Lost
            } else if n >= heap[h as int].len() {
                AccessView::Fail(err_view(line, "数组下标越界"@))
            } else {
                AccessView::Val(heap[h as int][n as int])
            },
            _ => AccessView::Fail(err_view(line, "数组下标越界"@)),
        },
        _ => AccessView::Fail(err_view(line, "该变量不是数组"@)),
    }
}

/// Checks of `base[idx] = v`: `None` when the element can be written.
pub open spec fn array_set_check(heap: Seq<Seq<ValueView>>, base: ValueView, idx: ValueView, line: usize) -> AccessView {
    match array_get(heap, base, idx, line) {
        AccessView::Val(_) => AccessView::Val(ValueView::Num(0)),
        other => other,
    }
}

pub open spec fn heap_view(h: Seq<Vec<Value>>) -> Seq<Seq<ValueView>> {
    h.map_values(|a: Vec<Value>| values_view(a@))
}

fn scope_find(scope: &Vec<(String, Value)>, name: &String) -> (r: Option<usize>)
    ensures
        find(scope_view(scope@), name@) >= 0 <==> r is Some,
        r matches Some(i) ==> i == find(scope_view(scope@), name@) && i < scope@.len(),
{
    let ghost t = scope_view(scope@);
    let mut i: usize = 0;
    while i < scope.len()
        invariant
            i <= scope@.len(),
            t == scope_view(scope@),
            vm::find_from(t, name@, i as int) == find(t, name@),
        decreases scope@.len() - i,
    {
        if scope[i].0 == *name {
            return Some(i);
        }
        i = i + 1;
    }
    None
}

/// Reads a variable.
fn env_lookup(envs: &Vec<Env>, name: &String) -> (r: Option<Value>)
    ensures
        match r {
            Some(v) => env_get(scopes_view(envs@), name@) == Some(v@),
            None => env_get(scopes_view(envs@), name@) is None,
        },
{
    let ghost all = scopes_view(envs@);
    let mut k: usize = envs.len();
    assert(all.subrange(0, k as int) =~= all);
    while k > 0
        invariant
            k <= envs@.len(),
            all == scopes_view(envs@),
            env_get(all, name@) == env_get(all.subrange(0, k as int), name@),
        decreases k,
    {
        let scope = &envs[k - 1].bindings;
        let ghost sub = all.subrange(0, k as int);
        assert(sub.last() == scope_view(scope@));
        assert(sub.drop_last() =~= all.subrange(0, k - 1));
        match scope_find(scope, name) {
            Some(i) => {
                return Some(copy_value(&scope[i].1));
            },
            None => {},
        }
        k = k - 1;
    }
    assert(all.subrange(0, 0) =~= Seq::<ScopeView>::empty());
    None
}

/// Binds `name` in the innermost scope.
fn bind_var(envs: &mut Vec<Env>, name: String, v: Value)
    requires
        old(envs)@.len() > 0,
    ensures
        scopes_view(final(envs)@) == env_bind(scopes_view(old(envs)@), name@, v@),
        final(envs)@.len() == old(envs)@.len(),
{
    let ghost before = scopes_view(envs@);
    let last = envs.len() - 1;
    let mut scope: Vec<(String, Value)> = Vec::new();
    std::mem::swap(&mut scope, &mut envs[last].bindings);
    let ghost sv = scope_view(scope@);
    scope.push((name, v));
    assert(scope_view(scope@) =~= sv.push((name@, v@)));
    envs.set(last, Env { bindings: scope });
    assert(scopes_view(envs@) =~= env_bind(before, name@, v@));
}

proof fn lemma_env_owner(envs: Seq<ScopeView>, name: Seq<char>)
    ensures
        -1 <= env_owner(envs, name) < envs.len(),
        env_owner(envs, name) >= 0 ==> find(envs[env_owner(envs, name)], name) >= 0,
    decreases envs.len(),
{
    if envs.len() > 0 && find(envs.last(), name) < 0 {
        lemma_env_owner(envs.drop_last(), name);
    }
}

/// Assigns a variable.
fn set_var(envs: &mut Vec<Env>, name: String, v: Value)
    requires
        old(envs)@.len() > 0,
    ensures
        scopes_view(final(envs)@) == env_set(scopes_view(old(envs)@), name@, v@),
        final(envs)@.len() == old(envs)@.len(),
{
    let ghost all = scopes_view(envs@);
    let mut k: usize = envs.len();
    assert(all.subrange(0, k as int) =~= all);
    while k > 0
        invariant
            k <= envs@.len(),
            all == scopes_view(envs@),
            env_owner(all, name@) == env_owner(all.subrange(0, k as int), name@),
            envs@ == old(envs)@,
        decreases k,
    {
        let ghost sub = all.subrange(0, k as int);
        assert(sub.last() == scope_view(envs@[k - 1].bindings@));
        assert(sub.drop_last() =~= all.subrange(0, k - 1));
        match scope_find(&envs[k - 1].bindings, &name) {
            Some(i) => {
                let mut scope: Vec<(String, Value)> = Vec::new();
                std::mem::swap(&mut scope, &mut envs[k - 1].bindings);
                let ghost sv = scope_view(scope@);
                scope.set(i, (name, v));
                assert(scope_view(scope@) =~= sv.update(i as int, (name@, v@)));
                envs.set(k - 1, Env { bindings: scope });
                proof {
                    lemma_env_owner(all, name@);
                }
                assert(scopes_view(envs@) =~= env_set(all, name@, v@));
                return;
            },
            None => {},
        }
        k = k - 1;
    }
    assert(all.subrange(0, 0) =~= Seq::<ScopeView>::empty());
    bind_var(envs, name, v);
}

// ---------------------------------------------------------------------
// The function table and the runtime.
// ---------------------------------------------------------------------

/// A function of the program, with its index in the bytecode engine and in
/// the machine-code engine when it was compiled there.
pub struct Function {
    pub name: String,
    pub params: Vec<String>,
    pub body: Node,
    pub vm: Option<usize>,
    pub jit: Option<usize>,
}

/// The runtime: the function table, the two engines, and whether calls go
/// to machine code when they can.
pub struct Runtime {
    pub fns: Vec<Function>,
    pub vm: VmEngine,
    pub jit: JitEngine,
    pub jit_enabled: bool,
}

/// The first function called `name`, or -1.
pub open spec fn find_fn(fns: Seq<Function>, name: Seq<char>, i: int) -> int
    decreases fns.len() - i,
{
    if i < 0 || i >= fns.len() {
        -1
    } else if fns[i].name@ == name {
        i
    } else {
        find_fn(fns, name, i + 1)
    }
}

// ---------------------------------------------------------------------
// The machine.
// ---------------------------------------------------------------------

/// A pending piece of work.
pub enum Task<'a> {
    /// Evaluate a node and push its value.
    Eval(&'a Node),
    /// Bind the name to the value on top (a `变量`).
    Bind(&'a String),
    /// Pop the initial element, make the array, bind it, push it.
    MakeArray(&'a String, i64),
    /// Assign the value on top to the name.
    SetVar(&'a String),
    /// An assignment to something that is neither a name nor an element.
    BadTarget(usize),
    /// Pop index and array, write the value below them (which stays).
    ArraySet(usize),
    /// After the array of an element read: when it was named, it must be
    /// an array.
    CheckArray(bool, usize),
    /// Pop index and array, push the element.
    IndexGet(usize),
    /// Pop right and left operand, push the result.
    BinOp(TokenKind, usize),
    /// Pop a value and print it; all but the first get a space before.
    PrintVal(bool),
    /// End the printed line; the call's value is 0.
    PrintEnd,
    /// Pop the arguments and call the function at this index.
    Invoke(usize, usize),
    /// Waiting for the result of a machine-code call.
    AwaitNative,
    /// Step the running bytecode call.
    RunVm,
    /// End an interpreted call: its value is the returned one, if any.
    Leave,
    /// Pop the condition of this `如果` and run a branch.
    Branch(&'a Node),
    /// Pop the condition of this `当`: run the body or stop.
    LoopTest(&'a Node),
    /// The body of this `当` has run.
    LoopBody(&'a Node),
    /// A `返回` with the value on top.
    DoReturn,
    /// Run the statements of this block from the given one on.
    Stmts(&'a Node, usize),
    /// The given statement of this block has run.
    After(&'a Node, usize),
}

pub enum TaskView {
    Eval(NodeView),
    Bind(Seq<char>),
    MakeArray(Seq<char>, i64),
    SetVar(Seq<char>),
    BadTarget(usize),
    ArraySet(usize),
    CheckArray(bool, usize),
    IndexGet(usize),
    BinOp(TokenKind, usize),
    PrintVal(bool),
    PrintEnd,
    Invoke(usize, usize),
    AwaitNative,
    RunVm,
    Leave,
    Branch(NodeView),
    LoopTest(NodeView),
    LoopBody(NodeView),
    DoReturn,
    Stmts(NodeView, usize),
    After(NodeView, usize),
}

impl<'a> View for Task<'a> {
    type V = TaskView;

    open spec fn view(&self) -> TaskView {
        match self {
            Task::Eval(n) => TaskView::Eval(n@),
            Task::Bind(s) => TaskView::Bind(s@),
            Task::MakeArray(s, l) => TaskView::MakeArray(s@, *l),
            Task::SetVar(s) => TaskView::SetVar(s@),
            Task::BadTarget(l) => TaskView::BadTarget(*l),
            Task::ArraySet(l) => TaskView::ArraySet(*l),
            Task::CheckArray(b, l) => TaskView::CheckArray(*b, *l),
            Task::IndexGet(l) => TaskView::IndexGet(*l),
            Task::BinOp(o, l) => TaskView::BinOp(*o, *l),
            Task::PrintVal(b) => TaskView::PrintVal(*b),
            Task::PrintEnd => TaskView::PrintEnd,
            Task::Invoke(f, n) => TaskView::Invoke(*f, *n),
            Task::AwaitNative => TaskView::AwaitNative,
            Task::RunVm => TaskView::RunVm,
            Task::Leave => TaskView::Leave,
            Task::Branch(n) => TaskView::Branch(n@),
            Task::LoopTest(n) => TaskView::LoopTest(n@),
            Task::LoopBody(n) => TaskView::LoopBody(n@),
            Task::DoReturn => TaskView::DoReturn,
            Task::Stmts(n, i) => TaskView::Stmts(n@, *i),
            Task::After(n, i) => TaskView::After(n@, *i),
        }
    }
}

pub open spec fn tasks_view<'a>(t: Seq<Task<'a>>) -> Seq<TaskView> {
    t.map_values(|x: Task<'a>| x@)
}

/// The interpreter's state: scopes (innermost last), the array heap, the
/// value stack, the task stack, per call whether it has returned and with
/// what, and the running bytecode call.
pub struct Machine<'a> {
    pub envs: Vec<Env>,
    pub heap: Vec<Vec<Value>>,
    pub vals: Vec<Value>,
    pub tasks: Vec<Task<'a>>,
    pub ctxs: Vec<Ctx>,
    pub vm: Option<Invocation>,
}

pub struct MachineView {
    pub envs: Seq<ScopeView>,
    pub heap: Seq<Seq<ValueView>>,
    pub vals: Seq<ValueView>,
    pub tasks: Seq<TaskView>,
    pub ctxs: Seq<(bool, ValueView)>,
    pub vm: Option<vm::InvocationView>,
}

impl<'a> View for Machine<'a> {
    type V = MachineView;

    open spec fn view(&self) -> MachineView {
        MachineView {
            envs: scopes_view(self.envs@),
            heap: heap_view(self.heap@),
            vals: values_view(self.vals@),
            tasks: tasks_view(self.tasks@),
            ctxs: self.ctxs@.map_values(|c: Ctx| (c.returning, c.retval@)),
            vm: match self.vm {
                Some(i) => Some(i@),
                None => None,
            },
        }
    }
}

/// What one step did.
#[derive(Debug)]
pub enum RunStep {
    Continue,
    /// Print this text (it carries its own newline, if any).
    Print(String),
    /// Call the machine-code function at this index with these arguments,
    /// then hand its result to `resume_native`.
    Native(usize, Vec<i64>),
    /// The program ended with this value.
    Done(Value),
    Error(RuaError),
    /// The machine cannot go on: a division overflowed, an array length was
    /// negative, or the machine is not one the interpreter reaches.
    Fault,
}

pub enum RunStepView {
    Continue,
    Print(Seq<char>),
    Native(usize, Seq<i64>),
    Done(ValueView),
    Error(ErrorView),
    Fault,
}

impl View for RunStep {
    type V = RunStepView;

    open spec fn view(&self) -> RunStepView {
        match self {
            RunStep::Continue => RunStepView::Continue,
            RunStep::Print(s) => RunStepView::Print(s@),
            RunStep::Native(i, a) => RunStepView::Native(*i, a@),
            RunStep::Done(v) => RunStepView::Done(v@),
            RunStep::Error(e) => RunStepView::Error(e@),
            RunStep::Fault => RunStepView::Fault,
        }
    }
}

/// The value on top of a stack (0 when empty).
pub open spec fn top(vals: Seq<ValueView>) -> ValueView {
    if vals.len() > 0 {
        vals.last()
    } else {
        ValueView::Num(0)
    }
}

pub open spec fn pop(vals: Seq<ValueView>) -> (ValueView, Seq<ValueView>) {
    if vals.len() > 0 {
        (vals.last(), vals.drop_last())
    } else {
        (ValueView::Num(0), vals)
    }
}

pub open spec fn pops(st: Seq<ValueView>, k: nat) -> Seq<ValueView>
    decreases k,
{
    if k == 0 {
        Seq::empty()
    } else {
        pops(st, (k - 1) as nat).push(pop(rest_after(st, (k - 1) as nat)).0)
    }
}

pub open spec fn rest_after(st: Seq<ValueView>, k: nat) -> Seq<ValueView>
    decreases k,
{
    if k == 0 {
        st
    } else {
        pop(rest_after(st, (k - 1) as nat)).1
    }
}

/// The `n` arguments on top of the stack, first argument first.
pub open spec fn top_args(st: Seq<ValueView>, n: nat) -> Seq<ValueView> {
    pops(st, n).reverse()
}

pub open spec fn with_vals(m: MachineView, vals: Seq<ValueView>) -> MachineView {
    MachineView { vals, ..m }
}

pub open spec fn with_tasks(m: MachineView, tasks: Seq<TaskView>) -> MachineView {
    MachineView { tasks, ..m }
}

pub open spec fn returning(m: MachineView) -> bool {
    m.ctxs.len() > 0 && m.ctxs.last().0
}

/// The statements of a block or program.
pub open spec fn stmts_of(n: NodeView) -> Seq<NodeView> {
    match n {
        NodeView::Block { stmts, .. } => stmts,
        NodeView::Prog { stmts } => stmts,
        _ => Seq::empty(),
    }
}

/// Tasks that evaluate the arguments, first argument on top.
pub open spec fn arg_tasks(args: Seq<NodeView>) -> Seq<TaskView> {
    Seq::new(args.len(), |i: int| TaskView::Eval(args[args.len() - 1 - i]))
}

/// Tasks that evaluate and print each argument, first argument on top.
pub open spec fn print_tasks(args: Seq<NodeView>) -> Seq<TaskView> {
    Seq::new(
        2 * args.len(),
        |i: int|
            if i % 2 == 0 {
                TaskView::PrintVal(args.len() - 1 - i / 2 == 0)
            } else {
                TaskView::Eval(args[args.len() - 1 - i / 2])
            },
    )
}

pub open spec fn push_val(m: MachineView, v: ValueView) -> (MachineView, RunStepView) {
    (with_vals(m, m.vals.push(v)), RunStepView::Continue)
}

pub open spec fn push_tasks(m: MachineView, t: Seq<TaskView>) -> (MachineView, RunStepView) {
    (with_tasks(m, m.tasks + t), RunStepView::Continue)
}

pub open spec fn fail(m: MachineView, line: usize, msg: Seq<char>) -> (MachineView, RunStepView) {
    (m, RunStepView::Error(err_view(line, msg)))
}

/// Evaluating a node (its task already popped).
pub open spec fn eval_spec(rt: Runtime, m: MachineView, n: NodeView) -> (MachineView, RunStepView) {
    match n {
        NodeView::Num { num, .. } => push_val(m, ValueView::Num(num)),
        NodeView::Str { text, .. } => push_val(m, ValueView::Str(text)),
        NodeView::Ident { name, .. } => match env_get(m.envs, name) {
            Some(v) => push_val(m, v),
            None => fail(m, 0, "未定义的变量"@),
        },
        NodeView::Var { name, right, .. } => push_tasks(m, seq![TaskView::Bind(name), TaskView::Eval(*right)]),
        NodeView::Array { name, len, right, .. } => push_tasks(
            m,
            seq![TaskView::MakeArray(name, len), TaskView::Eval(*right)],
        ),
        NodeView::Assign { target, right, .. } => match *target {
            NodeView::Ident { name, .. } => push_tasks(m, seq![TaskView::SetVar(name), TaskView::Eval(*right)]),
            NodeView::Index { base, index, line } => push_tasks(
                m,
                seq![TaskView::ArraySet(line), TaskView::Eval(*index), TaskView::Eval(*base), TaskView::Eval(*right)],
            ),
            _ => push_tasks(m, seq![TaskView::BadTarget(line_of(*target)), TaskView::Eval(*right)]),
        },
        NodeView::Index { base, index, line } => push_tasks(
            m,
            seq![
                TaskView::IndexGet(line),
                TaskView::Eval(*index),
                TaskView::CheckArray(*base is Ident, line),
                TaskView::Eval(*base),
            ],
        ),
        NodeView::Binary { op, left, right, line } => push_tasks(
            m,
            seq![TaskView::BinOp(op, line), TaskView::Eval(*right), TaskView::Eval(*left)],
        ),
        NodeView::Call { name, args, line } => if name == vm::print_name() {
            push_tasks(m, seq![TaskView::PrintEnd] + print_tasks(args))
        } else {
            let fi = find_fn(rt.fns@, name, 0);
            if fi < 0 {
                fail(m, line, "未定义的函数"@)
            } else if rt.fns@[fi].params@.len() != args.len() {
                fail(m, line, "函数参数数量不匹配"@)
            } else if args.len() > 64 {
                fail(m, line, "参数过多"@)
            } else {
                push_tasks(m, seq![TaskView::Invoke(fi as usize, args.len() as usize)] + arg_tasks(args))
            }
        },
        NodeView::If { cond, .. } => push_tasks(m, seq![TaskView::Branch(n), TaskView::Eval(*cond)]),
        NodeView::While { cond, .. } => (
            MachineView { vals: m.vals.push(ValueView::Num(0)), tasks: m.tasks + seq![TaskView::LoopTest(n), TaskView::Eval(*cond)], ..m },
            RunStepView::Continue,
        ),
        NodeView::Return { value, .. } => match value {
            Some(e) => push_tasks(m, seq![TaskView::DoReturn, TaskView::Eval(*e)]),
            None => (
                MachineView { vals: m.vals.push(ValueView::Num(0)), tasks: m.tasks.push(TaskView::DoReturn), ..m },
                RunStepView::Continue,
            ),
        },
        NodeView::Func { .. } => push_val(m, ValueView::Num(0)),
        _ => (
            MachineView { vals: m.vals.push(ValueView::Num(0)), tasks: m.tasks.push(TaskView::Stmts(n, 0)), ..m },
            RunStepView::Continue,
        ),
    }
}

/// The scope of a call: each parameter bound to its argument, in order
/// (as many as there are of both).
pub open spec fn params_scope(params: Seq<Seq<char>>, args: Seq<ValueView>) -> ScopeView {
    let n = if params.len() < args.len() { params.len() } else { args.len() };
    Seq::new(n, |i: int| (params[i], args[i]))
}

/// The numbers of the values (a string or array reads as 0).
pub open spec fn nums_of(args: Seq<ValueView>) -> Seq<i64> {
    args.map_values(|v: ValueView| num_field(v))
}

/// Calling function `fi` on the `n` values on top of the stack: through
/// machine code when enabled and compiled, else through the bytecode engine
/// when compiled there, else by interpreting its body in a new scope whose
/// parent is the caller's.
pub open spec fn invoke_spec(rt: Runtime, m: MachineView, fi: usize, n: usize) -> (MachineView, RunStepView) {
    let args = top_args(m.vals, n as nat);
    let vals = rest_after(m.vals, n as nat);
    if fi >= rt.fns@.len() {
        (m, RunStepView::Fault)
    } else {
        let f = rt.fns@[fi as int];
        if rt.jit_enabled && f.jit is Some {
            (
                MachineView { vals, tasks: m.tasks.push(TaskView::AwaitNative), ..m },
                RunStepView::Native(f.jit.unwrap(), nums_of(args)),
            )
        } else if f.vm is Some {
            let k = f.vm.unwrap();
            if k >= rt.vm.funcs@.len() {
                fail(m, 0, "未定义的函数"@)
            } else {
                (
                    MachineView {
                        vals,
                        tasks: m.tasks.push(TaskView::RunVm),
                        vm: Some(
                            vm::InvocationView {
                                callers: Seq::empty(),
                                frame: vm::FrameView {
                                    func: k,
                                    pc: 0,
                                    stack: Seq::empty(),
                                    locals: vm::fit_slots(vm::ints_view(nums_of(args)), rt.vm.funcs@[k as int].locals as nat),
                                },
                            },
                        ),
                        ..m
                    },
                    RunStepView::Continue,
                )
            }
        } else {
            (
                MachineView {
                    vals,
                    envs: m.envs.push(params_scope(vm::names_view(f.params@), args)),
                    ctxs: m.ctxs.push((false, ValueView::Num(0))),
                    tasks: m.tasks + seq![TaskView::Leave, TaskView::Eval(f.body@)],
                    ..m
                },
                RunStepView::Continue,
            )
        }
    }
}

/// One step of the running bytecode call; its printed lines get their
/// newline here.
pub open spec fn run_vm_spec(rt: Runtime, m: MachineView) -> (MachineView, RunStepView) {
    match m.vm {
        None => (m, RunStepView::Fault),
        Some(inv) => {
            let (inv2, out) = vm::spec_invoke_step(rt.vm, inv);
            match out {
                vm::VmStepView::Continue => (
                    MachineView { vm: Some(inv2), tasks: m.tasks.push(TaskView::RunVm), ..m },
                    RunStepView::Continue,
                ),
                vm::VmStepView::Print(line) => (
                    MachineView { vm: Some(inv2), tasks: m.tasks.push(TaskView::RunVm), ..m },
                    RunStepView::Print(line + "\n"@),
                ),
                vm::VmStepView::Done(r) => (
                    MachineView { vm: None, vals: m.vals.push(ValueView::Num(r)), ..m },
                    RunStepView::Continue,
                ),
                vm::VmStepView::Error(e) => (m, RunStepView::Error(e)),
                vm::VmStepView::Fault => (m, RunStepView::Fault),
            }
        },
    }
}

/// Ending an interpreted call.
pub open spec fn leave_spec(m: MachineView) -> (MachineView, RunStepView) {
    if m.ctxs.len() == 0 || m.envs.len() == 0 {
        (m, RunStepView::Fault)
    } else {
        let (r, vs) = pop(m.vals);
        let c = m.ctxs.last();
        (
            MachineView {
                vals: vs.push(if c.0 { c.1 } else { r }),
                ctxs: m.ctxs.drop_last(),
                envs: m.envs.drop_last(),
                ..m
            },
            RunStepView::Continue,
        )
    }
}

/// Runs the task on top (already popped into `m`).
pub open spec fn task_spec(rt: Runtime, m: MachineView, t: TaskView) -> (MachineView, RunStepView) {
    match t {
        TaskView::Eval(n) => eval_spec(rt, m, n),
        TaskView::Bind(name) => if m.envs.len() == 0 {
            (m, RunStepView::Fault)
        } else {
            (MachineView { envs: env_bind(m.envs, name, top(m.vals)), ..m }, RunStepView::Continue)
        },
        TaskView::MakeArray(name, len) => {
            let (init, vs) = pop(m.vals);
            if len < 0 || m.envs.len() == 0 {
                (m, RunStepView::Fault)
            } else {
                let h = m.heap.len() as usize;
                (
                    MachineView {
                        heap: m.heap.push(Seq::new(len as nat, |i: int| init)),
                        envs: env_bind(m.envs, name, ValueView::Arr(h)),
                        vals: vs.push(ValueView::Arr(h)),
                        ..m
                    },
                    RunStepView::Continue,
                )
            }
        },
        TaskView::SetVar(name) => if m.envs.len() == 0 {
            (m, RunStepView::Fault)
        } else {
            (MachineView { envs: env_set(m.envs, name, top(m.vals)), ..m }, RunStepView::Continue)
        },
        TaskView::BadTarget(line) => fail(m, line, "赋值目标无效"@),
        TaskView::ArraySet(line) => {
            let (idx, v1) = pop(m.vals);
            let (b, v2) = pop(v1);
            match array_get(m.heap, b, idx, line) {
                AccessView::Val(_) => {
                    let h = b->Arr_0 as int;
                    let k = num_field(idx) as int;
                    (
                        MachineView { heap: m.heap.update(h, m.heap[h].update(k, top(v2))), vals: v2, ..m },
                        RunStepView::Continue,
                    )
                },
                AccessView::Fail(e) => (m, RunStepView::Error(e)),
                AccessView::Lost => (m, RunStepView::Fault),
            }
        },
        TaskView::CheckArray(is_ident, line) => if is_ident && !(top(m.vals) is Arr) {
            fail(m, line, "该变量不是数组"@)
        } else {
            (m, RunStepView::Continue)
        },
        TaskView::IndexGet(line) => {
            let (idx, v1) = pop(m.vals);
            let (b, v2) = pop(v1);
            match array_get(m.heap, b, idx, line) {
                AccessView::Val(x) => push_val(with_vals(m, v2), x),
                AccessView::Fail(e) => (m, RunStepView::Error(e)),
                AccessView::Lost => (m, RunStepView::Fault),
            }
        },
        TaskView::BinOp(op, line) => {
            let (b, v1) = pop(m.vals);
            let (a, v2) = pop(v1);
            match binop(op, a, b, line) {
                BinView::Val(x) => push_val(with_vals(m, v2), x),
                BinView::Fail(e) => (m, RunStepView::Error(e)),
                BinView::Overflow => (m, RunStepView::Fault),
            }
        },
        TaskView::PrintVal(first) => {
            let (v, vs) = pop(m.vals);
            (with_vals(m, vs), RunStepView::Print(if first { print_text(v) } else { " "@ + print_text(v) }))
        },
        TaskView::PrintEnd => (with_vals(m, m.vals.push(ValueView::Num(0))), RunStepView::Print("\n"@)),
        TaskView::Invoke(fi, n) => invoke_spec(rt, m, fi, n),
        TaskView::AwaitNative => (m, RunStepView::Fault),
        TaskView::RunVm => run_vm_spec(rt, m),
        TaskView::Leave => leave_spec(m),
        TaskView::Branch(n) => {
            let (c, vs) = pop(m.vals);
            let m2 = with_vals(m, vs);
            match n {
                NodeView::If { then, else_b, .. } => if truth(c) {
                    push_tasks(m2, seq![TaskView::Eval(*then)])
                } else {
                    match else_b {
                        Some(e) => push_tasks(m2, seq![TaskView::Eval(*e)]),
                        None => push_val(m2, ValueView::Num(0)),
                    }
                },
                _ => (m2, RunStepView::Fault),
            }
        },
        TaskView::LoopTest(n) => {
            let (c, vs) = pop(m.vals);
            let m2 = with_vals(m, vs);
            match n {
                NodeView::While { body, .. } => if truth(c) {
                    push_tasks(m2, seq![TaskView::LoopBody(n), TaskView::Eval(*body)])
                } else {
                    (m2, RunStepView::Continue)
                },
                _ => (m2, RunStepView::Fault),
            }
        },
        TaskView::LoopBody(n) => {
            let (r, v1) = pop(m.vals);
            let v2 = pop(v1).1;
            let m2 = with_vals(m, v2.push(r));
            match n {
                NodeView::While { cond, .. } => if returning(m2) {
                    (m2, RunStepView::Continue)
                } else {
                    push_tasks(m2, seq![TaskView::LoopTest(n), TaskView::Eval(*cond)])
                },
                _ => (m2, RunStepView::Fault),
            }
        },
        TaskView::DoReturn => if m.ctxs.len() == 0 {
            (m, RunStepView::Fault)
        } else {
            (MachineView { ctxs: m.ctxs.update(m.ctxs.len() - 1, (true, top(m.vals))), ..m }, RunStepView::Continue)
        },
        TaskView::Stmts(n, i) => {
            let st = stmts_of(n);
            if i >= st.len() {
                (m, RunStepView::Continue)
            } else {
                push_tasks(m, seq![TaskView::After(n, i), TaskView::Eval(st[i as int])])
            }
        },
        TaskView::After(n, i) => {
            let (r, v1) = pop(m.vals);
            let v2 = pop(v1).1;
            let m2 = with_vals(m, v2.push(r));
            if returning(m2) {
                (m2, RunStepView::Continue)
            } else if i >= usize::MAX {
                (m2, RunStepView::Fault)
            } else {
                push_tasks(m2, seq![TaskView::Stmts(n, (i + 1) as usize)])
            }
        },
    }
}

/// One step of the interpreter: the program's value once no task is left.
pub open spec fn spec_step(rt: Runtime, m: MachineView) -> (MachineView, RunStepView) {
    if m.tasks.len() == 0 {
        (m, RunStepView::Done(top(m.vals)))
    } else if m.tasks.last() is AwaitNative {
        (m, RunStepView::Fault)
    } else {
        task_spec(rt, with_tasks(m, m.tasks.drop_last()), m.tasks.last())
    }
}

/// `s` is the outcome `r` gives, and when the run goes on (or waits for a
/// machine-code result) the machine is in the state `r` gives.
pub open spec fn step_is(new: MachineView, s: RunStepView, r: (MachineView, RunStepView)) -> bool {
    &&& s == r.1
    &&& (s is Continue || s is Print || s is Native) ==> new == r.0
}

// ---------------------------------------------------------------------
// The machine, executably.
// ---------------------------------------------------------------------

fn pop_value(vals: &mut Vec<Value>) -> (v: Value)
    ensures
        (v@, values_view(final(vals)@)) == pop(values_view(old(vals)@)),
{
    let ghost before = vals@;
    match vals.pop() {
        Some(v) => {
            assert(values_view(vals@) =~= values_view(before).drop_last());
            v
        },
        None => Value::Num(0),
    }
}

fn push_value(vals: &mut Vec<Value>, v: Value)
    ensures
        values_view(final(vals)@) == values_view(old(vals)@).push(v@),
{
    let ghost before = vals@;
    vals.push(v);
    assert(values_view(vals@) =~= values_view(before).push(v@));
}

fn top_value(vals: &Vec<Value>) -> (v: Value)
    ensures
        v@ == top(values_view(vals@)),
{
    if vals.len() > 0 {
        copy_value(&vals[vals.len() - 1])
    } else {
        Value::Num(0)
    }
}

fn push_task<'a>(tasks: &mut Vec<Task<'a>>, t: Task<'a>)
    ensures
        tasks_view(final(tasks)@) == tasks_view(old(tasks)@).push(t@),
{
    let ghost before = tasks@;
    tasks.push(t);
    assert(tasks_view(tasks@) =~= tasks_view(before).push(t@));
}

proof fn lemma_pops_len(st: Seq<ValueView>, k: nat)
    ensures
        pops(st, k).len() == k,
    decreases k,
{
    if k > 0 {
        lemma_pops_len(st, (k - 1) as nat);
    }
}

/// Pops `n` values, first argument first.
fn take_values(vals: &mut Vec<Value>, n: usize) -> (args: Vec<Value>)
    ensures
        values_view(args@) == top_args(values_view(old(vals)@), n as nat),
        values_view(final(vals)@) == rest_after(values_view(old(vals)@), n as nat),
{
    let ghost st0 = values_view(vals@);
    let mut out: Vec<Value> = Vec::new();
    let mut k: usize = 0;
    while k < n
        invariant
            k <= n,
            values_view(out@) == pops(st0, k as nat),
            values_view(vals@) == rest_after(st0, k as nat),
        decreases n - k,
    {
        let v = pop_value(vals);
        push_value(&mut out, v);
        k = k + 1;
    }
    let ghost p = values_view(out@);
    proof {
        lemma_pops_len(st0, n as nat);
        assert(p.subrange(0, n as int) =~= p);
    }
    let mut args: Vec<Value> = Vec::new();
    let mut j: usize = 0;
    while j < n
        invariant
            j <= n,
            p.len() == n,
            out@.len() == n - j,
            values_view(out@) == p.subrange(0, n - j),
            values_view(args@) == p.reverse().subrange(0, j as int),
        decreases n - j,
    {
        let ghost before = out@;
        assert(values_view(before)[n - j - 1] == p[n - j - 1]);
        assert(values_view(before)[n - j - 1] == before[n - j - 1]@);
        let v = match out.pop() {
            Some(v) => v,
            None => Value::Num(0),
        };
        assert(v == before[n - j - 1]);
        assert(values_view(out@) =~= p.subrange(0, n - j - 1));
        push_value(&mut args, v);
        assert(values_view(args@) =~= p.reverse().subrange(0, j + 1));
        j = j + 1;
    }
    assert(values_view(args@) =~= p.reverse());
    args
}

/// The first function called `name`.
fn find_function(fns: &Vec<Function>, name: &String) -> (r: Option<usize>)
    ensures
        match r {
            Some(i) => find_fn(fns@, name@, 0) == i && i < fns@.len(),
            None => find_fn(fns@, name@, 0) == -1,
        },
{
    let mut i: usize = 0;
    while i < fns.len()
        invariant
            i <= fns@.len(),
            find_fn(fns@, name@, 0) == find_fn(fns@, name@, i as int),
        decreases fns@.len() - i,
    {
        if fns[i].name == *name {
            return Some(i);
        }
        i = i + 1;
    }
    None
}

fn tasks_push2<'a>(m: &mut Machine<'a>, a: Task<'a>, b: Task<'a>)
    ensures
        final(m)@ == with_tasks(old(m)@, old(m)@.tasks + seq![a@, b@]),
{
    push_task(&mut m.tasks, a);
    push_task(&mut m.tasks, b);
    assert(m@.tasks =~= old(m)@.tasks + seq![a@, b@]);
}

fn eval_call<'a>(rt: &'a Runtime, m: &mut Machine<'a>, n: &'a Node) -> (s: RunStep)
    requires
        n is Call,
    ensures
        step_is(final(m)@, s@, eval_spec(*rt, old(m)@, n@)),
{
    let (name, args, line) = match n {
        Node::Call { name, args, line } => (name, args, *line),
        _ => {
            return RunStep::Fault;
        },
    };
    let ghost av = nodes_view(args@);
    let ghost t0 = m@.tasks;
    assert(n@ == NodeView::Call { line, name: name@, args: av });
    let len = args.len();
    if vm::is_print_name(name) {
        push_task(&mut m.tasks, Task::PrintEnd);
        let mut k: usize = len;
        while k > 0
            invariant
                k <= len,
                len == args@.len(),
                av == nodes_view(args@),
                m@ == with_tasks(old(m)@, m@.tasks),
                m@.tasks == t0 + seq![TaskView::PrintEnd] + print_tasks(av).subrange(0, 2 * (len - k)),
            decreases k,
        {
            let ghost before = m@.tasks;
            push_task(&mut m.tasks, Task::PrintVal(k - 1 == 0));
            assert(av[k - 1] == args@[k - 1]@);
            push_task(&mut m.tasks, Task::Eval(&args[k - 1]));
            assert(print_tasks(av).subrange(0, 2 * (len - (k - 1))) =~= print_tasks(av).subrange(0, 2 * (len - k)).push(
                TaskView::PrintVal(k - 1 == 0),
            ).push(TaskView::Eval(av[k - 1])));
            k = k - 1;
        }
        assert(print_tasks(av).subrange(0, 2 * len as int) =~= print_tasks(av));
        assert(m@.tasks =~= t0 + (seq![TaskView::PrintEnd] + print_tasks(av)));
        return RunStep::Continue;
    }
    let fi = match find_function(&rt.fns, name) {
        Some(i) => i,
        None => {
            return RunStep::Error(RuaError::new(line, "未定义的函数"));
        },
    };
    if rt.fns[fi].params.len() != len {
        return RunStep::Error(RuaError::new(line, "函数参数数量不匹配"));
    }
    if len > 64 {
        return RunStep::Error(RuaError::new(line, "参数过多"));
    }
    push_task(&mut m.tasks, Task::Invoke(fi, len));
    let mut k: usize = len;
    while k > 0
        invariant
            k <= len,
            len == args@.len(),
            av == nodes_view(args@),
            m@ == with_tasks(old(m)@, m@.tasks),
            m@.tasks == t0 + seq![TaskView::Invoke(fi, len)] + arg_tasks(av).subrange(0, len - k),
        decreases k,
    {
        assert(av[k - 1] == args@[k - 1]@);
        push_task(&mut m.tasks, Task::Eval(&args[k - 1]));
        assert(arg_tasks(av).subrange(0, len - (k - 1)) =~= arg_tasks(av).subrange(0, len - k).push(
            TaskView::Eval(av[k - 1]),
        ));
        k = k - 1;
    }
    assert(arg_tasks(av).subrange(0, len as int) =~= arg_tasks(av));
    assert(m@.tasks =~= t0 + (seq![TaskView::Invoke(fi, len)] + arg_tasks(av)));
    RunStep::Continue
}

fn eval_assign<'a>(rt: &'a Runtime, m: &mut Machine<'a>, n: &'a Node) -> (s: RunStep)
    requires
        n is Assign,
    ensures
        step_is(final(m)@, s@, eval_spec(*rt, old(m)@, n@)),
{
    let (target, right) = match n {
        Node::Assign { target, right, .. } => (target, right),
        _ => {
            return RunStep::Fault;
        },
    };
    match &**target {
        Node::Ident { name, .. } => {
            assert(target@ == NodeView::Ident { line: target->Ident_line, name: name@ });
            tasks_push2(m, Task::SetVar(name), Task::Eval(right));
        },
        Node::Index { base, index, line } => {
            assert(target@ == NodeView::Index { line: *line, base: Box::new(base@), index: Box::new(index@) });
            let ghost t0 = m@.tasks;
            tasks_push2(m, Task::ArraySet(*line), Task::Eval(index));
            tasks_push2(m, Task::Eval(base), Task::Eval(right));
            assert(m@.tasks =~= t0 + seq![TaskView::ArraySet(*line), TaskView::Eval(index@), TaskView::Eval(base@), TaskView::Eval(right@)]);
        },
        _ => {
            assert(!(target@ is Ident) && !(target@ is Index));
            tasks_push2(m, Task::BadTarget(target.line()), Task::Eval(right));
        },
    }
    RunStep::Continue
}

fn eval_index<'a>(rt: &'a Runtime, m: &mut Machine<'a>, n: &'a Node) -> (s: RunStep)
    requires
        n is Index,
    ensures
        step_is(final(m)@, s@, eval_spec(*rt, old(m)@, n@)),
{
    let (base, index, line) = match n {
        Node::Index { base, index, line } => (base, index, *line),
        _ => {
            return RunStep::Fault;
        },
    };
    let is_ident = match &**base {
        Node::Ident { .. } => true,
        _ => false,
    };
    assert(is_ident == base@ is Ident);
    let ghost t0 = m@.tasks;
    tasks_push2(m, Task::IndexGet(line), Task::Eval(index));
    tasks_push2(m, Task::CheckArray(is_ident, line), Task::Eval(base));
    assert(m@.tasks =~= t0 + seq![TaskView::IndexGet(line), TaskView::Eval(index@), TaskView::CheckArray(is_ident, line), TaskView::Eval(base@)]);
    RunStep::Continue
}

#[verifier::rlimit(60)]
fn eval<'a>(rt: &'a Runtime, m: &mut Machine<'a>, n: &'a Node) -> (s: RunStep)
    ensures
        step_is(final(m)@, s@, eval_spec(*rt, old(m)@, n@)),
{
    match n {
        Node::Num { num, .. } => {
            push_value(&mut m.vals, Value::Num(*num));
            RunStep::Continue
        },
        Node::Str { text, .. } => {
            push_value(&mut m.vals, Value::Str(text.clone()));
            RunStep::Continue
        },
        Node::Ident { name, .. } => match env_lookup(&m.envs, name) {
            Some(v) => {
                push_value(&mut m.vals, v);
                RunStep::Continue
            },
            None => RunStep::Error(RuaError::new(0, "未定义的变量")),
        },
        Node::Var { name, right, .. } => {
            tasks_push2(m, Task::Bind(name), Task::Eval(right));
            RunStep::Continue
        },
        Node::Array { name, len, right, .. } => {
            tasks_push2(m, Task::MakeArray(name, *len), Task::Eval(right));
            RunStep::Continue
        },
        Node::Assign { .. } => eval_assign(rt, m, n),
        Node::Index { .. } => eval_index(rt, m, n),
        Node::Binary { op, left, right, line } => {
            let ghost t0 = m@.tasks;
            tasks_push2(m, Task::BinOp(*op, *line), Task::Eval(right));
            push_task(&mut m.tasks, Task::Eval(left));
            assert(m@.tasks =~= t0 + seq![TaskView::BinOp(*op, *line), TaskView::Eval(right@), TaskView::Eval(left@)]);
            RunStep::Continue
        },
        Node::Call { .. } => eval_call(rt, m, n),
        Node::If { cond, .. } => {
            tasks_push2(m, Task::Branch(n), Task::Eval(cond));
            RunStep::Continue
        },
        Node::While { cond, .. } => {
            push_value(&mut m.vals, Value::Num(0));
            tasks_push2(m, Task::LoopTest(n), Task::Eval(cond));
            RunStep::Continue
        },
        Node::Return { value, .. } => {
            match value {
                Some(e) => {
                    tasks_push2(m, Task::DoReturn, Task::Eval(e));
                },
                None => {
                    push_value(&mut m.vals, Value::Num(0));
                    push_task(&mut m.tasks, Task::DoReturn);
                },
            }
            RunStep::Continue
        },
        Node::Func { .. } => {
            push_value(&mut m.vals, Value::Num(0));
            RunStep::Continue
        },
        Node::Block { .. } | Node::Prog { .. } => {
            push_value(&mut m.vals, Value::Num(0));
            push_task(&mut m.tasks, Task::Stmts(n, 0));
            RunStep::Continue
        },
    }
}

/// The outcome of an array access, executably.
enum Access {
    At(usize, usize),
    Fail(RuaError),
    Lost,
}

/// Checks `base[idx]`: the handle and element index when in range.
fn access(heap: &Vec<Vec<Value>>, base: &Value, idx: &Value, line: usize) -> (r: Access)
    ensures
        match r {
            Access::At(h, k) => {
                &&& base@ == ValueView::Arr(h)
                &&& idx@ == ValueView::Num(k as i64)
                &&& k <= i64::MAX
                &&& h < heap@.len()
                &&& k < heap@[h as int]@.len()
                &&& array_get(heap_view(heap@), base@, idx@, line) == AccessView::Val(heap_view(heap@)[h as int][k as int])
            },
            Access::Fail(e) => array_get(heap_view(heap@), base@, idx@, line) == AccessView::Fail(e@),
            Access::Lost => array_get(heap_view(heap@), base@, idx@, line) is Lost,
        },
{
    match base {
        Value::Arr(h) => match idx {
            Value::Num(n) => {
                if *n < 0 {
                    Access::Fail(RuaError::new(line, "数组下标越界"))
                } else if *h >= heap.len() {
                    Access::Lost
                } else if *n as u64 >= heap[*h].len() as u64 {
                    Access::Fail(RuaError::new(line, "数组下标越界"))
                } else {
                    Access::At(*h, *n as usize)
                }
            },
            _ => Access::Fail(RuaError::new(line, "数组下标越界")),
        },
        _ => Access::Fail(RuaError::new(line, "该变量不是数组")),
    }
}

fn run_make_array<'a>(rt: &'a Runtime, m: &mut Machine<'a>, name: &String, len: i64) -> (s: RunStep)
    ensures
        step_is(final(m)@, s@, task_spec(*rt, old(m)@, TaskView::MakeArray(name@, len))),
{
    let init = pop_value(&mut m.vals);
    if len < 0 || m.envs.len() == 0 {
        return RunStep::Fault;
    }
    let mut items: Vec<Value> = Vec::new();
    let mut k: i64 = 0;
    while k < len
        invariant
            0 <= k <= len,
            values_view(items@) == Seq::new(k as nat, |i: int| init@),
        decreases len - k,
    {
        push_value(&mut items, copy_value(&init));
        k = k + 1;
        assert(values_view(items@) =~= Seq::new(k as nat, |i: int| init@));
    }
    let h = m.heap.len();
    let ghost hv = heap_view(m.heap@);
    m.heap.push(items);
    assert(heap_view(m.heap@) =~= hv.push(Seq::new(len as nat, |i: int| init@)));
    bind_var(&mut m.envs, name.clone(), Value::Arr(h));
    push_value(&mut m.vals, Value::Arr(h));
    RunStep::Continue
}

fn run_array_set<'a>(rt: &'a Runtime, m: &mut Machine<'a>, line: usize) -> (s: RunStep)
    ensures
        step_is(final(m)@, s@, task_spec(*rt, old(m)@, TaskView::ArraySet(line))),
{
    let idx = pop_value(&mut m.vals);
    let base = pop_value(&mut m.vals);
    let v = top_value(&m.vals);
    match access(&m.heap, &base, &idx, line) {
        Access::At(h, k) => {
            let ghost hv = heap_view(m.heap@);
            let mut row: Vec<Value> = Vec::new();
            std::mem::swap(&mut row, &mut m.heap[h]);
            let ghost rv = values_view(row@);
            row.set(k, v);
            assert(values_view(row@) =~= rv.update(k as int, v@));
            m.heap.set(h, row);
            assert(heap_view(m.heap@) =~= hv.update(h as int, hv[h as int].update(k as int, v@)));
            assert(num_field(idx@) as int == k);
            assert(m@.heap == hv.update(h as int, hv[h as int].update(k as int, v@)));
            assert(m@.vals == values_view(m.vals@));
            RunStep::Continue
        },
        Access::Fail(e) => RunStep::Error(e),
        Access::Lost => RunStep::Fault,
    }
}

fn run_index_get<'a>(rt: &'a Runtime, m: &mut Machine<'a>, line: usize) -> (s: RunStep)
    ensures
        step_is(final(m)@, s@, task_spec(*rt, old(m)@, TaskView::IndexGet(line))),
{
    let idx = pop_value(&mut m.vals);
    let base = pop_value(&mut m.vals);
    match access(&m.heap, &base, &idx, line) {
        Access::At(h, k) => {
            let v = copy_value(&m.heap[h][k]);
            push_value(&mut m.vals, v);
            RunStep::Continue
        },
        Access::Fail(e) => RunStep::Error(e),
        Access::Lost => RunStep::Fault,
    }
}

fn run_binop<'a>(rt: &'a Runtime, m: &mut Machine<'a>, op: TokenKind, line: usize) -> (s: RunStep)
    ensures
        step_is(final(m)@, s@, task_spec(*rt, old(m)@, TaskView::BinOp(op, line))),
{
    let b = pop_value(&mut m.vals);
    let a = pop_value(&mut m.vals);
    if binop_overflows(op, &a, &b, line) {
        return RunStep::Fault;
    }
    match apply_binop(op, &a, &b, line) {
        Ok(v) => {
            push_value(&mut m.vals, v);
            RunStep::Continue
        },
        Err(e) => RunStep::Error(e),
    }
}

fn run_invoke<'a>(rt: &'a Runtime, m: &mut Machine<'a>, fi: usize, n: usize) -> (s: RunStep)
    ensures
        step_is(final(m)@, s@, task_spec(*rt, old(m)@, TaskView::Invoke(fi, n))),
{
    let args = take_values(&mut m.vals, n);
    if fi >= rt.fns.len() {
        return RunStep::Fault;
    }
    let f = &rt.fns[fi];
    let mut nums: Vec<i64> = Vec::new();
    let mut i: usize = 0;
    while i < args.len()
        invariant
            i <= args@.len(),
            nums@ == nums_of(values_view(args@)).subrange(0, i as int),
        decreases args@.len() - i,
    {
        nums.push(num_field_of(&args[i]));
        assert(nums_of(values_view(args@)).subrange(0, i + 1) =~= nums_of(values_view(args@)).subrange(0, i as int).push(
            num_field(args@[i as int]@),
        ));
        i = i + 1;
    }
    assert(nums_of(values_view(args@)).subrange(0, args@.len() as int) =~= nums_of(values_view(args@)));
    if rt.jit_enabled {
        match f.jit {
            Some(j) => {
                push_task(&mut m.tasks, Task::AwaitNative);
                return RunStep::Native(j, nums);
            },
            None => {},
        }
    }
    match f.vm {
        Some(k) => match vm::invoke(&rt.vm, k, &nums) {
            Ok(inv) => {
                m.vm = Some(inv);
                push_task(&mut m.tasks, Task::RunVm);
                RunStep::Continue
            },
            Err(e) => RunStep::Error(e),
        },
        None => {
            let ghost pv = vm::names_view(f.params@);
            let ghost av = values_view(args@);
            let mut scope: Vec<(String, Value)> = Vec::new();
            let mut args = args;
            let mut i: usize = 0;
            let cnt = if f.params.len() < args.len() { f.params.len() } else { args.len() };
            while i < cnt
                invariant
                    i <= cnt,
                    cnt <= f.params@.len(),
                    cnt <= args@.len(),
                    values_view(args@) == av,
                    pv == vm::names_view(f.params@),
                    scope_view(scope@) == Seq::new(i as nat, |j: int| (pv[j], av[j])),
                decreases cnt - i,
            {
                let ghost before = scope@;
                let p = f.params[i].clone();
                let a = copy_value(&args[i]);
                assert(p@ == pv[i as int]);
                assert(a@ == av[i as int]);
                scope.push((p, a));
                assert(scope_view(scope@) =~= scope_view(before).push((pv[i as int], av[i as int])));
                assert(scope_view(scope@) =~= Seq::new((i + 1) as nat, |j: int| (pv[j], av[j])));
                i = i + 1;
            }
            let ghost ev = scopes_view(m.envs@);
            let ghost sv = scope_view(scope@);
            m.envs.push(Env { bindings: scope });
            assert(scopes_view(m.envs@) =~= ev.push(sv));
            let ghost cv = m@.ctxs;
            m.ctxs.push(Ctx { returning: false, retval: Value::Num(0) });
            assert(m@.ctxs =~= cv.push((false, ValueView::Num(0))));
            let ghost tv = m@.tasks;
            push_task(&mut m.tasks, Task::Leave);
            push_task(&mut m.tasks, Task::Eval(&f.body));
            assert(m@.tasks =~= tv + seq![TaskView::Leave, TaskView::Eval(f.body@)]);
            assert(sv =~= params_scope(pv, av));
            RunStep::Continue
        },
    }
}

fn run_vm<'a>(rt: &'a Runtime, m: &mut Machine<'a>) -> (s: RunStep)
    ensures
        step_is(final(m)@, s@, task_spec(*rt, old(m)@, TaskView::RunVm)),
{
    let mut inv = match m.vm.take() {
        Some(i) => i,
        None => {
            return RunStep::Fault;
        },
    };
    match vm::invoke_step(&rt.vm, &mut inv) {
        VmStep::Continue => {
            m.vm = Some(inv);
            push_task(&mut m.tasks, Task::RunVm);
            RunStep::Continue
        },
        VmStep::Print(line) => {
            m.vm = Some(inv);
            push_task(&mut m.tasks, Task::RunVm);
            let mut text = line;
            push_str(&mut text, "\n");
            RunStep::Print(text)
        },
        VmStep::Done(r) => {
            push_value(&mut m.vals, Value::Num(r));
            RunStep::Continue
        },
        VmStep::Error(e) => RunStep::Error(e),
        VmStep::Fault => RunStep::Fault,
    }
}

fn run_leave<'a>(rt: &'a Runtime, m: &mut Machine<'a>) -> (s: RunStep)
    ensures
        step_is(final(m)@, s@, task_spec(*rt, old(m)@, TaskView::Leave)),
{
    if m.ctxs.len() == 0 || m.envs.len() == 0 {
        return RunStep::Fault;
    }
    let r = pop_value(&mut m.vals);
    let ghost cv = m@.ctxs;
    let c = match m.ctxs.pop() {
        Some(c) => c,
        None => {
            return RunStep::Fault;
        },
    };
    assert(m@.ctxs =~= cv.drop_last());
    let ghost ev = scopes_view(m.envs@);
    m.envs.pop();
    assert(scopes_view(m.envs@) =~= ev.drop_last());
    if c.returning {
        push_value(&mut m.vals, c.retval);
    } else {
        push_value(&mut m.vals, r);
    }
    RunStep::Continue
}

fn run_branch<'a>(rt: &'a Runtime, m: &mut Machine<'a>, n: &'a Node) -> (s: RunStep)
    ensures
        step_is(final(m)@, s@, task_spec(*rt, old(m)@, TaskView::Branch(n@))),
{
    let c = pop_value(&mut m.vals);
    match n {
        Node::If { then, else_b, .. } => {
            if is_true(&c) {
                push_task(&mut m.tasks, Task::Eval(then));
                assert(m@.tasks =~= old(m)@.tasks + seq![TaskView::Eval(then@)]);
            } else {
                match else_b {
                    Some(e) => {
                        push_task(&mut m.tasks, Task::Eval(e));
                        assert(m@.tasks =~= old(m)@.tasks + seq![TaskView::Eval(e@)]);
                    },
                    None => {
                        push_value(&mut m.vals, Value::Num(0));
                    },
                }
            }
            RunStep::Continue
        },
        _ => RunStep::Fault,
    }
}

fn run_loop_test<'a>(rt: &'a Runtime, m: &mut Machine<'a>, n: &'a Node) -> (s: RunStep)
    ensures
        step_is(final(m)@, s@, task_spec(*rt, old(m)@, TaskView::LoopTest(n@))),
{
    let c = pop_value(&mut m.vals);
    match n {
        Node::While { body, .. } => {
            if is_true(&c) {
                tasks_push2(m, Task::LoopBody(n), Task::Eval(body));
            }
            RunStep::Continue
        },
        _ => RunStep::Fault,
    }
}

fn is_returning<'a>(m: &Machine<'a>) -> (b: bool)
    ensures
        b == returning(m@),
{
    m.ctxs.len() > 0 && m.ctxs[m.ctxs.len() - 1].returning
}

/// Replaces the previous value under the top with the top.
fn replace_last<'a>(m: &mut Machine<'a>)
    ensures
        final(m)@ == with_vals(old(m)@, pop(pop(old(m)@.vals).1).1.push(pop(old(m)@.vals).0)),
{
    let r = pop_value(&mut m.vals);
    pop_value(&mut m.vals);
    push_value(&mut m.vals, r);
}

fn run_loop_body<'a>(rt: &'a Runtime, m: &mut Machine<'a>, n: &'a Node) -> (s: RunStep)
    ensures
        step_is(final(m)@, s@, task_spec(*rt, old(m)@, TaskView::LoopBody(n@))),
{
    replace_last(m);
    match n {
        Node::While { cond, .. } => {
            if !is_returning(m) {
                tasks_push2(m, Task::LoopTest(n), Task::Eval(cond));
            }
            RunStep::Continue
        },
        _ => RunStep::Fault,
    }
}

fn run_after<'a>(rt: &'a Runtime, m: &mut Machine<'a>, n: &'a Node, i: usize) -> (s: RunStep)
    ensures
        step_is(final(m)@, s@, task_spec(*rt, old(m)@, TaskView::After(n@, i))),
{
    replace_last(m);
    if !is_returning(m) {
        if i == usize::MAX {
            return RunStep::Fault;
        }
        push_task(&mut m.tasks, Task::Stmts(n, i + 1));
        assert(m@.tasks =~= old(m)@.tasks + seq![TaskView::Stmts(n@, (i + 1) as usize)]);
    }
    RunStep::Continue
}

fn run_stmts<'a>(rt: &'a Runtime, m: &mut Machine<'a>, n: &'a Node, i: usize) -> (s: RunStep)
    ensures
        step_is(final(m)@, s@, task_spec(*rt, old(m)@, TaskView::Stmts(n@, i))),
{
    let stmts: &Vec<Node> = match n {
        Node::Block { stmts, .. } => stmts,
        Node::Prog { stmts } => stmts,
        _ => {
            return RunStep::Continue;
        },
    };
    assert(stmts_of(n@) == nodes_view(stmts@));
    if i >= stmts.len() {
        return RunStep::Continue;
    }
    assert(stmts_of(n@)[i as int] == stmts@[i as int]@);
    tasks_push2(m, Task::After(n, i), Task::Eval(&stmts[i]));
    RunStep::Continue
}

fn run_do_return<'a>(rt: &'a Runtime, m: &mut Machine<'a>) -> (s: RunStep)
    ensures
        step_is(final(m)@, s@, task_spec(*rt, old(m)@, TaskView::DoReturn)),
{
    if m.ctxs.len() == 0 {
        return RunStep::Fault;
    }
    let v = top_value(&m.vals);
    let last = m.ctxs.len() - 1;
    let ghost cv = m@.ctxs;
    m.ctxs.set(last, Ctx { returning: true, retval: v });
    assert(m@.ctxs =~= cv.update(last as int, (true, v@)));
    RunStep::Continue
}

fn run_print_val<'a>(rt: &'a Runtime, m: &mut Machine<'a>, first: bool) -> (s: RunStep)
    ensures
        step_is(final(m)@, s@, task_spec(*rt, old(m)@, TaskView::PrintVal(first))),
{
    let v = pop_value(&mut m.vals);
    let t = value_text(&v);
    if first {
        RunStep::Print(t)
    } else {
        let mut out = String::from_str(" ");
        push_str(&mut out, t.as_str());
        RunStep::Print(out)
    }
}

fn run_bind<'a>(rt: &'a Runtime, m: &mut Machine<'a>, name: &String, assign: bool) -> (s: RunStep)
    ensures
        step_is(
            final(m)@,
            s@,
            task_spec(*rt, old(m)@, if assign { TaskView::SetVar(name@) } else { TaskView::Bind(name@) }),
        ),
{
    if m.envs.len() == 0 {
        return RunStep::Fault;
    }
    let v = top_value(&m.vals);
    if assign {
        set_var(&mut m.envs, name.clone(), v);
    } else {
        bind_var(&mut m.envs, name.clone(), v);
    }
    RunStep::Continue
}

/// The machine at the start of a run of `prog`: one empty global scope,
/// one call context, and the program to evaluate.
pub open spec fn initial(prog: NodeView) -> MachineView {
    MachineView {
        envs: seq![Seq::empty()],
        heap: Seq::empty(),
        vals: Seq::empty(),
        tasks: seq![TaskView::Eval(prog)],
        ctxs: seq![(false, ValueView::Num(0))],
        vm: None,
    }
}

impl Runtime {
    /// Starts a run of a program.
    pub fn run<'a>(&'a self, prog: &'a Node) -> (m: Machine<'a>)
        ensures
            m@ == initial(prog@),
    {
        let mut envs: Vec<Env> = Vec::new();
        envs.push(Env { bindings: Vec::new() });
        let mut tasks: Vec<Task<'a>> = Vec::new();
        tasks.push(Task::Eval(prog));
        let mut ctxs: Vec<Ctx> = Vec::new();
        ctxs.push(Ctx { returning: false, retval: Value::Num(0) });
        let m = Machine { envs, heap: Vec::new(), vals: Vec::new(), tasks, ctxs, vm: None };
        assert(scope_view(m.envs@[0].bindings@) =~= Seq::<(Seq<char>, ValueView)>::empty());
        assert(m@.envs =~= seq![Seq::<(Seq<char>, ValueView)>::empty()]);
        assert(m@.heap =~= Seq::<Seq<ValueView>>::empty());
        assert(m@.vals =~= Seq::<ValueView>::empty());
        assert(m@.tasks =~= seq![TaskView::Eval(prog@)]);
        assert(m@.ctxs =~= seq![(false, ValueView::Num(0))]);
        m
    }

    /// Runs one step of the machine.
    pub fn exec<'a>(&'a self, m: &mut Machine<'a>) -> (s: RunStep)
        ensures
            step_is(final(m)@, s@, spec_step(*self, old(m)@)),
    {
        let rt = self;
        let len = m.tasks.len();
        if len == 0 {
            return RunStep::Done(top_value(&m.vals));
        }
        match &m.tasks[len - 1] {
            Task::AwaitNative => {
                return RunStep::Fault;
            },
            _ => {},
        }
        let ghost tv = tasks_view(m.tasks@);
        let t = match m.tasks.pop() {
            Some(t) => t,
            None => {
                return RunStep::Fault;
            },
        };
        assert(tasks_view(m.tasks@) =~= tv.drop_last());
        assert(m@ == with_tasks(old(m)@, old(m)@.tasks.drop_last()));
        match t {
            Task::Eval(n) => eval(rt, m, n),
            Task::Bind(name) => run_bind(rt, m, name, false),
            Task::MakeArray(name, len) => run_make_array(rt, m, name, len),
            Task::SetVar(name) => run_bind(rt, m, name, true),
            Task::BadTarget(line) => RunStep::Error(RuaError::new(line, "赋值目标无效")),
            Task::ArraySet(line) => run_array_set(rt, m, line),
            Task::CheckArray(is_ident, line) => {
                let is_arr = if m.vals.len() > 0 {
                    match &m.vals[m.vals.len() - 1] {
                        Value::Arr(_) => true,
                        _ => false,
                    }
                } else {
                    false
                };
                if is_ident && !is_arr {
                    RunStep::Error(RuaError::new(line, "该变量不是数组"))
                } else {
                    RunStep::Continue
                }
            },
            Task::IndexGet(line) => run_index_get(rt, m, line),
            Task::BinOp(op, line) => run_binop(rt, m, op, line),
            Task::PrintVal(first) => run_print_val(rt, m, first),
            Task::PrintEnd => {
                push_value(&mut m.vals, Value::Num(0));
                RunStep::Print(String::from_str("\n"))
            },
            Task::Invoke(fi, n) => run_invoke(rt, m, fi, n),
            Task::AwaitNative => RunStep::Fault,
            Task::RunVm => run_vm(rt, m),
            Task::Leave => run_leave(rt, m),
            Task::Branch(n) => run_branch(rt, m, n),
            Task::LoopTest(n) => run_loop_test(rt, m, n),
            Task::LoopBody(n) => run_loop_body(rt, m, n),
            Task::DoReturn => run_do_return(rt, m),
            Task::Stmts(n, i) => run_stmts(rt, m, n, i),
            Task::After(n, i) => run_after(rt, m, n, i),
        }
    }
}

/// The machine waits for the result of a machine-code call.
pub open spec fn awaiting(m: MachineView) -> bool {
    m.tasks.len() > 0 && m.tasks.last() is AwaitNative
}

/// The machine once the result of its machine-code call is in.
pub open spec fn resumed(m: MachineView, result: i64) -> MachineView {
    MachineView { tasks: m.tasks.drop_last(), vals: m.vals.push(ValueView::Num(result)), ..m }
}

/// Hands the result of a machine-code call to a machine waiting for one; a
/// machine that is not waiting is left as it is.
pub fn resume_native<'a>(m: &mut Machine<'a>, result: i64) -> (ok: bool)
    ensures
        ok == awaiting(old(m)@),
        ok ==> final(m)@ == resumed(old(m)@, result),
        !ok ==> final(m)@ == old(m)@,
{
    let len = m.tasks.len();
    if len == 0 {
        return false;
    }
    match &m.tasks[len - 1] {
        Task::AwaitNative => {},
        _ => {
            return false;
        },
    }
    let ghost tv = tasks_view(m.tasks@);
    m.tasks.pop();
    assert(tasks_view(m.tasks@) =~= tv.drop_last());
    push_value(&mut m.vals, Value::Num(result));
    true
}

/// The function table entry made of definition `f`.
pub open spec fn function_of(f: NodeView, fun: Function, vm: VmEngine, jit: JitEngine) -> bool {
    &&& vm::fname(f) == fun.name@
    &&& f == (NodeView::Func { line: f->Func_line, name: fun.name@, params: vm::names_view(fun.params@), body: Box::new(fun.body@) })
    &&& fun.vm == lookup(table_view(vm.map@), fun.name@)
    &&& fun.jit == lookup(table_view(jit.map@), fun.name@)
}

impl Runtime {
    /// Builds the runtime of a program's function definitions: compiles the
    /// VM-able functions to bytecode and the machine-code ones for the given
    /// addresses, and records for each function its indices there. `None`
    /// exactly where machine-code generation stops: a function that goes to
    /// machine code calls a user function with more than six arguments.
    pub fn build(fns: &Vec<Node>, jit_enabled: bool, layout: &JitLayout) -> (r: Option<Runtime>)
        requires
            forall|i: int| 0 <= i < fns@.len() ==> (#[trigger] fns@[i])@ is Func,
        ensures
            r matches Some(rt) ==> {
                &&& vm::compiled(nodes_view(fns@), rt.vm)
                &&& jit::jit_compiled(nodes_view(fns@), *layout, rt.jit)
                &&& rt.jit_enabled == jit_enabled
                &&& rt.fns@.len() == fns@.len()
                &&& forall|i: int| 0 <= i < fns@.len() ==> function_of(fns@[i]@, #[trigger] rt.fns@[i], rt.vm, rt.jit)
            },
            r is None <==> jit::jit_wide(nodes_view(fns@)),
    {
        let engine = vm::compile_functions(fns);
        let jit_engine = match jit::compile_functions(fns, layout) {
            Some(e) => e,
            None => {
                return None;
            },
        };
        Some(Self::assemble(fns, engine, jit_engine, jit_enabled))
    }

    /// The runtime on a target without machine code: the VM-able functions
    /// compiled to bytecode, no machine-code engine (no function has an
    /// entry there).
    pub fn build_without_machine_code(fns: &Vec<Node>, jit_enabled: bool) -> (rt: Runtime)
        requires
            forall|i: int| 0 <= i < fns@.len() ==> (#[trigger] fns@[i])@ is Func,
        ensures
            vm::compiled(nodes_view(fns@), rt.vm),
            rt.jit.entries@.len() == 0,
            rt.jit.map@.len() == 0,
            rt.jit.code@.len() == 0,
            rt.jit.data@.len() == 0,
            rt.jit_enabled == jit_enabled,
            rt.fns@.len() == fns@.len(),
            forall|i: int| 0 <= i < fns@.len() ==> function_of(fns@[i]@, #[trigger] rt.fns@[i], rt.vm, rt.jit),
    {
        let engine = vm::compile_functions(fns);
        let jit_engine = JitEngine::empty();
        Self::assemble(fns, engine, jit_engine, jit_enabled)
    }

    /// The function table over the two engines.
    fn assemble(fns: &Vec<Node>, engine: VmEngine, jit_engine: JitEngine, jit_enabled: bool) -> (rt: Runtime)
        requires
            forall|i: int| 0 <= i < fns@.len() ==> (#[trigger] fns@[i])@ is Func,
        ensures
            rt.vm == engine,
            rt.jit == jit_engine,
            rt.jit_enabled == jit_enabled,
            rt.fns@.len() == fns@.len(),
            forall|i: int| 0 <= i < fns@.len() ==> function_of(fns@[i]@, #[trigger] rt.fns@[i], rt.vm, rt.jit),
    {
        let mut functions: Vec<Function> = Vec::new();
        let mut i: usize = 0;
        while i < fns.len()
            invariant
                i <= fns@.len(),
                functions@.len() == i,
                forall|j: int| 0 <= j < fns@.len() ==> (#[trigger] fns@[j])@ is Func,
                forall|j: int| 0 <= j < i ==> function_of(fns@[j]@, #[trigger] functions@[j], engine, jit_engine),
            decreases fns@.len() - i,
        {
            match vm::func_parts(&fns[i]) {
                Some((name, params, body)) => {
                    let ps = crate::ast::copy_names(params);
                    assert(vm::names_view(ps@) =~= vm::names_view(params@)) by {
                        assert(ps@.map_values(|p: String| p@) == params@.map_values(|p: String| p@));
                    }
                    let f = Function {
                        name: name.clone(),
                        params: ps,
                        body: crate::ast::copy_node(body),
                        vm: engine.get_idx(name),
                        jit: jit_engine.get_idx(name),
                    };
                    functions.push(f);
                },
                None => {},
            }
            i = i + 1;
        }
        Runtime { fns: functions, vm: engine, jit: jit_engine, jit_enabled }
    }
}

// ---------------------------------------------------------------------
// Laws.
// ---------------------------------------------------------------------

/// On two numbers a comparison gives the number 1 when it holds and 0 when
/// it does not: `a >= b` is `b <= a`, `a > b` is `b < a`, and a number is
/// `>=`, `<=` and `==` itself but neither `>`, `<` nor `!=` itself.
pub proof fn law_compare_numbers(x: i64, y: i64, line: usize)
    ensures
        binop(TokenKind::Ge, ValueView::Num(x), ValueView::Num(y), line) == BinView::Val(
            ValueView::Num(if x >= y { 1 } else { 0 }),
        ),
        binop(TokenKind::Le, ValueView::Num(x), ValueView::Num(y), line) == BinView::Val(
            ValueView::Num(if x <= y { 1 } else { 0 }),
        ),
        binop(TokenKind::Gt, ValueView::Num(x), ValueView::Num(y), line) == BinView::Val(
            ValueView::Num(if x > y { 1 } else { 0 }),
        ),
        binop(TokenKind::Lt, ValueView::Num(x), ValueView::Num(y), line) == BinView::Val(
            ValueView::Num(if x < y { 1 } else { 0 }),
        ),
        binop(TokenKind::Eqeq, ValueView::Num(x), ValueView::Num(y), line) == BinView::Val(
            ValueView::Num(if x == y { 1 } else { 0 }),
        ),
        binop(TokenKind::Neq, ValueView::Num(x), ValueView::Num(y), line) == BinView::Val(
            ValueView::Num(if x != y { 1 } else { 0 }),
        ),
        binop(TokenKind::Ge, ValueView::Num(x), ValueView::Num(y), line) == binop(
            TokenKind::Le,
            ValueView::Num(y),
            ValueView::Num(x),
            line,
        ),
        binop(TokenKind::Gt, ValueView::Num(x), ValueView::Num(y), line) == binop(
            TokenKind::Lt,
            ValueView::Num(y),
            ValueView::Num(x),
            line,
        ),
        binop(TokenKind::Ge, ValueView::Num(x), ValueView::Num(x), line) == BinView::Val(ValueView::Num(1)),
        binop(TokenKind::Le, ValueView::Num(x), ValueView::Num(x), line) == BinView::Val(ValueView::Num(1)),
        binop(TokenKind::Eqeq, ValueView::Num(x), ValueView::Num(x), line) == BinView::Val(ValueView::Num(1)),
        binop(TokenKind::Gt, ValueView::Num(x), ValueView::Num(x), line) == BinView::Val(ValueView::Num(0)),
        binop(TokenKind::Lt, ValueView::Num(x), ValueView::Num(x), line) == BinView::Val(ValueView::Num(0)),
        binop(TokenKind::Neq, ValueView::Num(x), ValueView::Num(x), line) == BinView::Val(ValueView::Num(0)),
{
}

/// On two numbers `+` and `-` give the sum and the difference where it fits
/// in 64 bits (and wrap where it does not): `+` is commutative, and adding
/// the right operand back to a difference gives the left one.
pub proof fn law_add_sub_numbers(x: i64, y: i64, line: usize)
    ensures
        i64::MIN <= x + y <= i64::MAX ==> binop(TokenKind::Plus, ValueView::Num(x), ValueView::Num(y), line)
            == BinView::Val(ValueView::Num((x + y) as i64)),
        i64::MIN <= x - y <= i64::MAX ==> binop(TokenKind::Minus, ValueView::Num(x), ValueView::Num(y), line)
            == BinView::Val(ValueView::Num((x - y) as i64)),
        binop(TokenKind::Plus, ValueView::Num(x), ValueView::Num(y), line) == binop(
            TokenKind::Plus,
            ValueView::Num(y),
            ValueView::Num(x),
            line,
        ),
        binop(TokenKind::Minus, ValueView::Num(x), ValueView::Num(y), line) matches BinView::Val(ValueView::Num(d))
            && d.wrapping_add(y) == x,
{
}

/// On two numbers `/` and `%` divide with the quotient truncated toward
/// zero: quotient times divisor plus remainder is the dividend, and the
/// remainder is smaller than the divisor and has the dividend's sign. A zero
/// divisor is refused with an error, and so is a string operand.
pub proof fn law_div_rem_numbers(x: i64, y: i64, line: usize)
    requires
        !(x == i64::MIN && y == -1),
    ensures
        y != 0 ==> (binop(TokenKind::Slash, ValueView::Num(x), ValueView::Num(y), line) matches BinView::Val(
            ValueView::Num(q),
        ) && binop(TokenKind::Percent, ValueView::Num(x), ValueView::Num(y), line) matches BinView::Val(
            ValueView::Num(r),
        ) && q * y + r == x && -(if y < 0 { -y } else { y as int }) < r < (if y < 0 { -y } else { y as int }) && (r
            == 0 || (r < 0) == (x < 0))),
        y == 0 ==> binop(TokenKind::Slash, ValueView::Num(x), ValueView::Num(y), line) == BinView::Fail(
            err_view(line, "不能除以 0"@),
        ),
        y == 0 ==> binop(TokenKind::Percent, ValueView::Num(x), ValueView::Num(y), line) == BinView::Fail(
            err_view(line, "不能取模 0"@),
        ),
{
    if y != 0 {
        vm::lemma_i64_div_rem(x, y);
    }
}

/// `+` with a string on either side joins the two texts, left text first,
/// a number taking part as its decimal text; `-`, `*` and the order
/// comparisons refuse a string operand.
pub proof fn law_string_operands(s1: Seq<char>, s2: Seq<char>, n: i64, line: usize)
    ensures
        binop(TokenKind::Plus, ValueView::Str(s1), ValueView::Str(s2), line) == BinView::Val(ValueView::Str(s1 + s2)),
        binop(TokenKind::Plus, ValueView::Str(s1), ValueView::Num(n), line) == BinView::Val(
            ValueView::Str(s1 + decimal(n as int)),
        ),
        binop(TokenKind::Plus, ValueView::Num(n), ValueView::Str(s2), line) == BinView::Val(
            ValueView::Str(decimal(n as int) + s2),
        ),
        binop(TokenKind::Minus, ValueView::Str(s1), ValueView::Num(n), line) == BinView::Fail(
            err_view(line, "运算需要数字"@),
        ),
        binop(TokenKind::Star, ValueView::Num(n), ValueView::Str(s2), line) == BinView::Fail(
            err_view(line, "运算需要数字"@),
        ),
        binop(TokenKind::Lt, ValueView::Str(s1), ValueView::Num(n), line) == BinView::Fail(
            err_view(line, "比较需要数字"@),
        ),
{
}

/// Reading a variable right after assigning it gives the assigned value,
/// whichever scope the assignment landed in.
pub proof fn law_env_set_get(envs: Seq<ScopeView>, name: Seq<char>, v: ValueView)
    requires
        envs.len() > 0,
    ensures
        env_get(env_set(envs, name, v), name) == Some(v),
    decreases envs.len(),
{
    let last = envs.last();
    let k = env_owner(envs, name);
    let e2 = env_set(envs, name, v);
    lemma_env_owner(envs, name);
    if find(last, name) >= 0 {
        assert(k == envs.len() - 1);
        assert(e2.last() == insert(last, name, v));
        vm::lemma_lookup_insert(last, name, v, name);
    } else {
        assert(k == env_owner(envs.drop_last(), name));
        if k >= 0 {
            lemma_env_owner(envs.drop_last(), name);
            assert(e2.last() == last);
            assert(e2.drop_last() =~= env_set(envs.drop_last(), name, v));
            law_env_set_get(envs.drop_last(), name, v);
        } else {
            assert(e2.last() == insert(last, name, v));
            vm::lemma_lookup_insert(last, name, v, name);
        }
    }
}

/// Reading an element right after writing it gives the written value.
pub proof fn law_array_set_get(heap: Seq<Seq<ValueView>>, h: usize, k: i64, v: ValueView, line: usize)
    requires
        array_get(heap, ValueView::Arr(h), ValueView::Num(k), line) is Val,
    ensures
        array_get(
            heap.update(h as int, heap[h as int].update(k as int, v)),
            ValueView::Arr(h),
            ValueView::Num(k),
            line,
        ) == AccessView::Val(v),
{
}

} // verus!
