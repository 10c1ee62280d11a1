//! The register machine that runs `.rab` programs.
//!
//! All function frames live in one value stack; register `rX` of the current
//! frame is `stack[fp + X]`. A call takes the values pushed before it as the
//! new frame's `r0..rN`; a return writes `r0` back into the caller's `r0`.
//! Jumps are relative: `ip += 8 + extra`.
//!
//! The machine advances one instruction per `step`; the caller runs the loop,
//! prints what a step asks to print, and stops on halt, error or fault. A
//! fault is an instruction that reads or writes outside the machine's memory
//! (or divides `i32::MIN` by `-1`): the run cannot go on.
use vstd::prelude::*;
use crate::native::rab::{
    le_i32_at, Program, ProgramView, OP_ADD, OP_ARRGET, OP_ARRNEW, OP_ARRSET, OP_CALL, OP_DIV, OP_EQ,
    OP_GE, OP_GT, OP_HALT, OP_JIF, OP_JMP, OP_LE, OP_LT, OP_MOD, OP_MOV, OP_MOVI, OP_MOVS, OP_MUL,
    OP_NE, OP_PRINT, OP_PUSH, OP_RET, OP_SUB,
};
use crate::text::{decimal, decimal_string, push_char, push_decimal, push_str};

verus! {

pub const STACK_CAP: usize = 65536;
pub const CALL_CAP: usize = 65536;
pub const FRAME_CAP: usize = 65536;

/// The type tag of a machine value.
#[derive(Clone, Copy, Debug, PartialEq, Eq, Structural)]
pub enum ValueType {
    Integer,
    String,
    Array,
}

/// A machine value: an integer, or an index into the string or array pool.
#[derive(Clone, Copy, Debug, PartialEq, Eq, Structural)]
pub struct Value {
    pub ty: ValueType,
    pub data: i32,
}

/// A run-time error reported by the program.
#[derive(Debug)]
pub struct VmError {
    pub message: String,
}

impl Value {
    /// The zero integer, the value every fresh register holds.
    pub fn zero() -> (v: Value)
        ensures
            v == zero_value(),
    {
        Value { ty: ValueType::Integer, data: 0 }
    }

    fn integer(v: i32) -> (r: Value)
        ensures
            r == (Value { ty: ValueType::Integer, data: v }),
    {
        Value { ty: ValueType::Integer, data: v }
    }
}

pub open spec fn zero_value() -> Value {
    Value { ty: ValueType::Integer, data: 0 }
}

pub open spec fn int_value(v: int) -> Value {
    Value { ty: ValueType::Integer, data: v as i32 }
}

/// The whole machine state.
pub struct Machine {
    pub stack: Vec<Value>,
    pub call_stack: Vec<i32>,
    pub frame_stack: Vec<i32>,
    pub sp: i32,
    pub cp: i32,
    pub fsp: i32,
    pub fp: i32,
    pub ip: i32,
    pub str_pool: Vec<String>,
    pub array_pool: Vec<Vec<Value>>,
}

/// The abstract machine state.
pub struct MachineView {
    pub stack: Seq<Value>,
    pub call_stack: Seq<i32>,
    pub frame_stack: Seq<i32>,
    pub sp: i32,
    pub cp: i32,
    pub fsp: i32,
    pub fp: i32,
    pub ip: i32,
    pub str_pool: Seq<Seq<char>>,
    pub array_pool: Seq<Seq<Value>>,
}

impl View for Machine {
    type V = MachineView;

    open spec fn view(&self) -> MachineView {
        MachineView {
            stack: self.stack@,
            call_stack: self.call_stack@,
            frame_stack: self.frame_stack@,
            sp: self.sp,
            cp: self.cp,
            fsp: self.fsp,
            fp: self.fp,
            ip: self.ip,
            str_pool: self.str_pool@.map_values(|s: String| s@),
            array_pool: self.array_pool@.map_values(|a: Vec<Value>| a@),
        }
    }
}

/// What one step did.
#[derive(Debug)]
pub enum Step {
    /// The instruction ran; go on.
    Continue,
    /// The instruction prints this text, then a newline; go on.
    Print(String),
    /// `HALT`: the run is over.
    Halt,
    /// The program stops with this error.
    Error(VmError),
    /// The instruction reaches outside the machine; the run cannot go on.
    Fault,
}

/// The abstract outcome of a step.
pub enum StepView {
    Continue,
    Print(Seq<char>),
    Halt,
    Error(Seq<char>),
    Fault,
}

impl View for Step {
    type V = StepView;

    open spec fn view(&self) -> StepView {
        match self {
            Step::Continue => StepView::Continue,
            Step::Print(s) => StepView::Print(s@),
            Step::Halt => StepView::Halt,
            Step::Error(e) => StepView::Error(e.message@),
            Step::Fault => StepView::Fault,
        }
    }
}

// ---------------------------------------------------------------------
// Semantics.
// ---------------------------------------------------------------------

/// The number of code bytes an instruction with this opcode reads.
pub open spec fn op_width(op: u8) -> int {
    if op == OP_HALT || op == OP_RET {
        1
    } else if op == OP_MOV || op == OP_PUSH || op == OP_PRINT {
        3
    } else if op == OP_MOVI || op == OP_MOVS || op == OP_JMP || op == OP_JIF || op == OP_CALL {
        8
    } else if op <= OP_ARRSET {
        4
    } else {
        1
    }
}

/// The `i32` operand in bytes 4..8 of the instruction at `ip`.
pub open spec fn extra(code: Seq<u8>, ip: int) -> i32 {
    le_i32_at(code, ip + 4) as i32
}

/// The stack slot of register `r` in the current frame.
pub open spec fn reg_slot(m: MachineView, r: u8) -> int {
    m.fp.wrapping_add(r as i32) as int
}

pub open spec fn reg_ok(m: MachineView, r: u8) -> bool {
    0 <= reg_slot(m, r) < m.stack.len()
}

pub open spec fn reg(m: MachineView, r: u8) -> Value {
    m.stack[reg_slot(m, r)]
}

pub open spec fn set_reg(m: MachineView, r: u8, v: Value) -> MachineView {
    MachineView { stack: m.stack.update(reg_slot(m, r), v), ..m }
}

pub open spec fn next(m: MachineView) -> MachineView {
    MachineView { ip: m.ip.wrapping_add(8), ..m }
}

/// Writes `v` to register `rd` and moves to the next instruction.
pub open spec fn write_next(m: MachineView, rd: u8, v: Value) -> (MachineView, StepView) {
    if reg_ok(m, rd) {
        (next(set_reg(m, rd, v)), StepView::Continue)
    } else {
        (m, StepView::Fault)
    }
}

pub open spec fn sem_movi(m: MachineView, p: ProgramView, code: Seq<u8>, ip: int) -> (MachineView, StepView) {
    let rd = code[ip + 1];
    let ci = extra(code, ip);
    if ci < 0 || ci >= p.constants.len() {
        (m, StepView::Fault)
    } else {
        write_next(m, rd, int_value(p.constants[ci as int] as int))
    }
}

pub open spec fn sem_movs(m: MachineView, p: ProgramView, code: Seq<u8>, ip: int) -> (MachineView, StepView) {
    let rd = code[ip + 1];
    let si = extra(code, ip);
    if si < 0 || si >= p.strings.len() || m.str_pool.len() >= i32::MAX {
        (m, StepView::Fault)
    } else {
        let m2 = MachineView { str_pool: m.str_pool.push(p.strings[si as int]), ..m };
        write_next(m2, rd, Value { ty: ValueType::String, data: m.str_pool.len() as i32 })
    }
}

pub open spec fn sem_mov(m: MachineView, code: Seq<u8>, ip: int) -> (MachineView, StepView) {
    let rd = code[ip + 1];
    let rs = code[ip + 2];
    if !reg_ok(m, rs) {
        (m, StepView::Fault)
    } else {
        write_next(m, rd, reg(m, rs))
    }
}

pub open spec fn pool_ok(m: MachineView, v: Value) -> bool {
    0 <= v.data < m.str_pool.len()
}

pub open spec fn sem_add(m: MachineView, code: Seq<u8>, ip: int) -> (MachineView, StepView) {
    let rd = code[ip + 1];
    let rs1 = code[ip + 2];
    let rs2 = code[ip + 3];
    if !reg_ok(m, rs1) || !reg_ok(m, rs2) {
        (m, StepView::Fault)
    } else {
        let b = reg(m, rs1);
        let c = reg(m, rs2);
        if b.ty == ValueType::Integer && c.ty == ValueType::Integer {
            write_next(m, rd, Value { ty: ValueType::Integer, data: b.data.wrapping_add(c.data) })
        } else if b.ty == ValueType::String && c.ty == ValueType::String {
            if !pool_ok(m, b) || !pool_ok(m, c) || m.str_pool.len() >= i32::MAX {
                (m, StepView::Fault)
            } else {
                let s = m.str_pool[b.data as int] + m.str_pool[c.data as int];
                let m2 = MachineView { str_pool: m.str_pool.push(s), ..m };
                write_next(m2, rd, Value { ty: ValueType::String, data: m.str_pool.len() as i32 })
            }
        } else {
            (m, StepView::Error("加法操作数类型不匹配"@))
        }
    }
}

/// The integer result of a two-register arithmetic or comparison opcode.
pub open spec fn int_op(op: u8, x: i32, y: i32) -> i32 {
    if op == OP_SUB {
        x.wrapping_sub(y)
    } else if op == OP_MUL {
        x.wrapping_mul(y)
    } else if op == OP_LT {
        if x < y { 1 } else { 0 }
    } else if op == OP_GT {
        if x > y { 1 } else { 0 }
    } else if op == OP_LE {
        if x <= y { 1 } else { 0 }
    } else {
        if x >= y { 1 } else { 0 }
    }
}

pub open spec fn sem_int_op(m: MachineView, code: Seq<u8>, ip: int, op: u8) -> (MachineView, StepView) {
    let rd = code[ip + 1];
    let rs1 = code[ip + 2];
    let rs2 = code[ip + 3];
    if !reg_ok(m, rs1) || !reg_ok(m, rs2) {
        (m, StepView::Fault)
    } else {
        write_next(m, rd, int_value(int_op(op, reg(m, rs1).data, reg(m, rs2).data) as int))
    }
}

pub open spec fn sem_div(m: MachineView, code: Seq<u8>, ip: int, op: u8) -> (MachineView, StepView) {
    let rd = code[ip + 1];
    let rs1 = code[ip + 2];
    let rs2 = code[ip + 3];
    if !reg_ok(m, rs1) || !reg_ok(m, rs2) {
        (m, StepView::Fault)
    } else {
        let x = reg(m, rs1).data;
        let c = reg(m, rs2).data;
        if c == 0 {
            (m, StepView::Error("除数为零"@))
        } else {
            let r = if op == OP_DIV { x.checked_div(c) } else { x.checked_rem(c) };
            match r {
                Some(v) => write_next(m, rd, int_value(v as int)),
                None => (m, StepView::Fault),
            }
        }
    }
}

pub open spec fn sem_eq(m: MachineView, code: Seq<u8>, ip: int, op: u8) -> (MachineView, StepView) {
    let rd = code[ip + 1];
    let rs1 = code[ip + 2];
    let rs2 = code[ip + 3];
    if !reg_ok(m, rs1) || !reg_ok(m, rs2) {
        (m, StepView::Fault)
    } else {
        let b = reg(m, rs1);
        let c = reg(m, rs2);
        if b.ty == c.ty && b.ty == ValueType::String && (!pool_ok(m, b) || !pool_ok(m, c)) {
            (m, StepView::Fault)
        } else {
            let equal = if b.ty != c.ty {
                false
            } else if b.ty == ValueType::String {
                m.str_pool[b.data as int] == m.str_pool[c.data as int]
            } else {
                b.data == c.data
            };
            let result = if (op == OP_EQ) == equal { 1int } else { 0int };
            write_next(m, rd, int_value(result))
        }
    }
}

pub open spec fn sem_jmp(m: MachineView, code: Seq<u8>, ip: int) -> (MachineView, StepView) {
    (MachineView { ip: m.ip.wrapping_add(8i32.wrapping_add(extra(code, ip))), ..m }, StepView::Continue)
}

pub open spec fn sem_jif(m: MachineView, code: Seq<u8>, ip: int) -> (MachineView, StepView) {
    let rs1 = code[ip + 2];
    if !reg_ok(m, rs1) {
        (m, StepView::Fault)
    } else if reg(m, rs1).data == 0 {
        sem_jmp(m, code, ip)
    } else {
        (next(m), StepView::Continue)
    }
}

pub open spec fn sem_push(m: MachineView, code: Seq<u8>, ip: int) -> (MachineView, StepView) {
    let rs1 = code[ip + 2];
    let sp = m.sp.wrapping_add(1);
    if !reg_ok(m, rs1) || sp < 0 || sp >= m.stack.len() {
        (m, StepView::Fault)
    } else {
        (next(MachineView { sp, stack: m.stack.update(sp as int, reg(m, rs1)), ..m }), StepView::Continue)
    }
}

/// Clears `count` slots from `start` on, highest slot first; `None` when a
/// slot is outside the stack.
pub open spec fn clear_slots(stack: Seq<Value>, start: i32, count: int) -> Option<Seq<Value>>
    decreases count,
{
    if count <= 0 {
        Some(stack)
    } else {
        let slot = start.wrapping_add((count - 1) as i32);
        if slot < 0 || slot >= stack.len() {
            None
        } else {
            clear_slots(stack.update(slot as int, zero_value()), start, count - 1)
        }
    }
}

pub open spec fn sem_call(m: MachineView, p: ProgramView, code: Seq<u8>, ip: int) -> (MachineView, StepView) {
    let fi = extra(code, ip);
    if fi < 0 || fi >= p.functions.len() {
        (m, StepView::Fault)
    } else {
        let f = p.functions[fi as int];
        let p_cnt = f.param_count;
        let r_cnt = f.reg_count;
        let new_fp = m.sp.wrapping_sub(p_cnt);
        let dst_start = new_fp.wrapping_add(p_cnt).wrapping_add(1);
        let zero_count = r_cnt.wrapping_sub(p_cnt).wrapping_sub(1);
        let cp = m.cp.wrapping_add(1);
        match clear_slots(m.stack, dst_start, zero_count as int) {
            None => (m, StepView::Fault),
            Some(stack) => if cp < 0 {
                (m, StepView::Fault)
            } else {
                let calls = if m.call_stack.len() <= cp {
                    m.call_stack + Seq::new((cp + 1 - m.call_stack.len()) as nat, |i: int| 0i32)
                } else {
                    m.call_stack
                };
                (
                    MachineView {
                        stack,
                        fsp: m.fsp.wrapping_add(1),
                        frame_stack: m.frame_stack.push(new_fp),
                        sp: new_fp.wrapping_add(r_cnt).wrapping_sub(1),
                        fp: new_fp,
                        cp,
                        call_stack: calls.update(cp as int, m.ip.wrapping_add(8)),
                        ip: f.code_offset,
                        ..m
                    },
                    StepView::Continue,
                )
            },
        }
    }
}

pub open spec fn sem_ret(m: MachineView) -> (MachineView, StepView) {
    if !reg_ok(m, 0) {
        (m, StepView::Fault)
    } else {
        let ret_val = reg(m, 0);
        let fsp = m.fsp.wrapping_sub(1);
        let frames = if m.frame_stack.len() > 0 { m.frame_stack.drop_last() } else { m.frame_stack };
        if fsp >= 0 && fsp >= frames.len() {
            (m, StepView::Fault)
        } else {
            let fp = if fsp >= 0 { frames[fsp as int] } else { 0i32 };
            if fp < 0 || fp >= m.stack.len() || m.cp < 0 || m.cp >= m.call_stack.len() {
                (m, StepView::Fault)
            } else {
                (
                    MachineView {
                        sp: m.fp.wrapping_sub(1),
                        fsp,
                        frame_stack: frames,
                        fp,
                        stack: m.stack.update(fp as int, ret_val),
                        ip: m.call_stack[m.cp as int],
                        cp: m.cp.wrapping_sub(1),
                        ..m
                    },
                    StepView::Continue,
                )
            }
        }
    }
}

pub open spec fn sem_print(m: MachineView, code: Seq<u8>, ip: int) -> (MachineView, StepView) {
    let rs1 = code[ip + 2];
    if !reg_ok(m, rs1) {
        (m, StepView::Fault)
    } else {
        let v = reg(m, rs1);
        match v.ty {
            ValueType::Integer => (next(m), StepView::Print(decimal(v.data as int))),
            ValueType::String => if pool_ok(m, v) {
                (next(m), StepView::Print(m.str_pool[v.data as int]))
            } else {
                (m, StepView::Fault)
            },
            ValueType::Array => (next(m), StepView::Print("(数组)"@)),
        }
    }
}

pub open spec fn sem_arrnew(m: MachineView, code: Seq<u8>, ip: int) -> (MachineView, StepView) {
    let rd = code[ip + 1];
    let rs_size = code[ip + 2];
    let rs_init = code[ip + 3];
    if !reg_ok(m, rs_size) {
        (m, StepView::Fault)
    } else if reg(m, rs_size).data < 1 {
        (m, StepView::Error("数组长度必须为正数"@))
    } else if !reg_ok(m, rs_init) || m.array_pool.len() >= i32::MAX {
        (m, StepView::Fault)
    } else {
        let arr = Seq::new(reg(m, rs_size).data as nat, |i: int| reg(m, rs_init));
        let m2 = MachineView { array_pool: m.array_pool.push(arr), ..m };
        write_next(m2, rd, Value { ty: ValueType::Array, data: m.array_pool.len() as i32 })
    }
}

pub open spec fn sem_arrget(m: MachineView, code: Seq<u8>, ip: int) -> (MachineView, StepView) {
    let rd = code[ip + 1];
    let rs_arr = code[ip + 2];
    let rs_idx = code[ip + 3];
    if !reg_ok(m, rs_arr) {
        (m, StepView::Fault)
    } else if reg(m, rs_arr).ty != ValueType::Array {
        (m, StepView::Error("索引的目标不是数组"@))
    } else if !reg_ok(m, rs_idx) || reg(m, rs_arr).data < 0 || reg(m, rs_arr).data >= m.array_pool.len() {
        (m, StepView::Fault)
    } else {
        let arr = m.array_pool[reg(m, rs_arr).data as int];
        let idx = reg(m, rs_idx).data;
        if idx < 0 || idx >= arr.len() {
            (m, StepView::Error("数组下标越界"@))
        } else {
            write_next(m, rd, arr[idx as int])
        }
    }
}

pub open spec fn sem_arrset(m: MachineView, code: Seq<u8>, ip: int) -> (MachineView, StepView) {
    let rs_val = code[ip + 1];
    let rs_arr = code[ip + 2];
    let rs_idx = code[ip + 3];
    if !reg_ok(m, rs_arr) {
        (m, StepView::Fault)
    } else if reg(m, rs_arr).ty != ValueType::Array {
        (m, StepView::Error("索引的目标不是数组"@))
    } else if !reg_ok(m, rs_idx) || reg(m, rs_arr).data < 0 || reg(m, rs_arr).data >= m.array_pool.len() {
        (m, StepView::Fault)
    } else {
        let h = reg(m, rs_arr).data as int;
        let idx = reg(m, rs_idx).data;
        if idx < 0 || idx >= m.array_pool[h].len() {
            (m, StepView::Error("数组下标越界"@))
        } else if !reg_ok(m, rs_val) {
            (m, StepView::Fault)
        } else {
            let arr = m.array_pool[h].update(idx as int, reg(m, rs_val));
            (next(MachineView { array_pool: m.array_pool.update(h, arr), ..m }), StepView::Continue)
        }
    }
}

/// The text of an unknown-opcode error.
pub open spec fn unknown_op_text(op: u8, ip: int) -> Seq<char> {
    "未知操作码: 0x"@ + seq![hex_digit(op as nat / 16), hex_digit(op as nat % 16)] + " @ ip="@
        + decimal(ip)
}

pub open spec fn hex_digit(d: nat) -> char {
    if d < 10 { ((48 + d) as u32) as char } else { ((55 + d) as u32) as char }
}

/// One instruction of the machine: the state after it and what it did.
pub open spec fn spec_step(m: MachineView, p: ProgramView) -> (MachineView, StepView) {
    let code = p.code;
    let ip = m.ip as int;
    if ip < 0 || ip >= code.len() {
        (m, StepView::Fault)
    } else if ip + op_width(code[ip]) > code.len() {
        (m, StepView::Fault)
    } else {
        let op = code[ip];
        if op == OP_HALT {
            (m, StepView::Halt)
        } else if op == OP_MOVI {
            sem_movi(m, p, code, ip)
        } else if op == OP_MOVS {
            sem_movs(m, p, code, ip)
        } else if op == OP_MOV {
            sem_mov(m, code, ip)
        } else if op == OP_ADD {
            sem_add(m, code, ip)
        } else if op == OP_SUB || op == OP_MUL || op == OP_LT || op == OP_GT || op == OP_LE
            || op == OP_GE {
            sem_int_op(m, code, ip, op)
        } else if op == OP_DIV || op == OP_MOD {
            sem_div(m, code, ip, op)
        } else if op == OP_EQ || op == OP_NE {
            sem_eq(m, code, ip, op)
        } else if op == OP_JMP {
            sem_jmp(m, code, ip)
        } else if op == OP_JIF {
            sem_jif(m, code, ip)
        } else if op == OP_PUSH {
            sem_push(m, code, ip)
        } else if op == OP_CALL {
            sem_call(m, p, code, ip)
        } else if op == OP_RET {
            sem_ret(m)
        } else if op == OP_PRINT {
            sem_print(m, code, ip)
        } else if op == OP_ARRNEW {
            sem_arrnew(m, code, ip)
        } else if op == OP_ARRGET {
            sem_arrget(m, code, ip)
        } else if op == OP_ARRSET {
            sem_arrset(m, code, ip)
        } else {
            (m, StepView::Error(unknown_op_text(op, ip)))
        }
    }
}

/// The state a run starts in: an all-zero stack of `STACK_CAP` values, empty
/// call and frame stacks, `sp = cp = fsp = -1`, `fp = ip = 0`, empty pools.
pub open spec fn initial_state() -> MachineView {
    MachineView {
        stack: Seq::new(STACK_CAP as nat, |i: int| zero_value()),
        call_stack: Seq::empty(),
        frame_stack: Seq::empty(),
        sp: -1i32,
        cp: -1i32,
        fsp: -1i32,
        fp: 0,
        ip: 0,
        str_pool: Seq::empty(),
        array_pool: Seq::empty(),
    }
}


/// The run-time error that a step reports.
fn vm_error(msg: &str) -> (s: Step)
    ensures
        s@ == StepView::Error(msg@),
{
    Step::Error(VmError { message: String::from_str(msg) })
}

/// Whether a step's outcome and new state are those of `r`: the outcome is
/// `r.1`, and unless the step faulted the new state is `r.0`.
pub open spec fn step_is(new: MachineView, s: StepView, r: (MachineView, StepView)) -> bool {
    &&& s == r.1
    &&& !(r.1 is Fault) ==> new == r.0
}

impl Machine {
    /// A machine in its initial state.
    pub fn new() -> (m: Machine)
        ensures
            m@ == initial_state(),
    {
        let mut stack: Vec<Value> = Vec::new();
        let mut i: usize = 0;
        while i < STACK_CAP
            invariant
                i <= STACK_CAP,
                stack@ == Seq::new(i as nat, |k: int| zero_value()),
            decreases STACK_CAP - i,
        {
            stack.push(Value::zero());
            i = i + 1;
            assert(stack@ =~= Seq::new(i as nat, |k: int| zero_value()));
        }
        let m = Machine {
            stack,
            call_stack: Vec::new(),
            frame_stack: Vec::new(),
            sp: -1,
            cp: -1,
            fsp: -1,
            fp: 0,
            ip: 0,
            str_pool: Vec::new(),
            array_pool: Vec::new(),
        };
        assert(m@.str_pool =~= Seq::<Seq<char>>::empty());
        assert(m@.array_pool =~= Seq::<Seq<Value>>::empty());
        m
    }

    /// The stack slot of register `r`, when it lies in the stack.
    fn slot(&self, r: u8) -> (o: Option<usize>)
        ensures
            o is Some <==> reg_ok(self@, r),
            o matches Some(i) ==> i == reg_slot(self@, r),
    {
        let w = self.fp.wrapping_add(r as i32);
        if w < 0 || w as usize >= self.stack.len() {
            None
        } else {
            Some(w as usize)
        }
    }

    /// Writes `v` to register `rd` and moves on to the next instruction.
    fn write_next(&mut self, rd: u8, v: Value) -> (s: Step)
        ensures
            step_is(final(self)@, s@, write_next(old(self)@, rd, v)),
    {
        match self.slot(rd) {
            None => Step::Fault,
            Some(i) => {
                self.stack.set(i, v);
                self.ip = self.ip.wrapping_add(8);
                Step::Continue
            },
        }
    }

    /// Pushes a string onto the string pool and returns its handle.
    fn push_string(&mut self, s: String) -> (h: i32)
        requires
            old(self).str_pool@.len() < i32::MAX,
        ensures
            final(self)@ == (MachineView { str_pool: old(self)@.str_pool.push(s@), ..old(self)@ }),
            h == old(self)@.str_pool.len(),
    {
        let ghost old_pool = self.str_pool@;
        let h = self.str_pool.len() as i32;
        self.str_pool.push(s);
        assert(self.str_pool@.map_values(|t: String| t@) =~= old_pool.map_values(|t: String| t@).push(s@));
        h
    }

    fn op_movi(&mut self, p: &Program, ip: usize) -> (s: Step)
        requires
            ip + 8 <= p.code.len(),
        ensures
            step_is(final(self)@, s@, sem_movi(old(self)@, p@, p.code@, ip as int)),
    {
        let rd = p.code[ip + 1];
        let ci = extra_i32(&p.code, ip);
        if ci < 0 || ci as usize >= p.constants.len() {
            return Step::Fault;
        }
        self.write_next(rd, Value::integer(p.constants[ci as usize]))
    }

    fn op_movs(&mut self, p: &Program, ip: usize) -> (s: Step)
        requires
            ip + 8 <= p.code.len(),
        ensures
            step_is(final(self)@, s@, sem_movs(old(self)@, p@, p.code@, ip as int)),
    {
        let rd = p.code[ip + 1];
        let si = extra_i32(&p.code, ip);
        if si < 0 || si as usize >= p.strings.len() || self.str_pool.len() >= i32::MAX as usize {
            return Step::Fault;
        }
        let h = self.push_string(p.strings[si as usize].clone());
        self.write_next(rd, Value { ty: ValueType::String, data: h })
    }

    fn op_mov(&mut self, p: &Program, ip: usize) -> (s: Step)
        requires
            ip + 3 <= p.code.len(),
        ensures
            step_is(final(self)@, s@, sem_mov(old(self)@, p.code@, ip as int)),
    {
        let rd = p.code[ip + 1];
        let rs = p.code[ip + 2];
        match self.slot(rs) {
            None => Step::Fault,
            Some(i) => {
                let v = self.stack[i];
                self.write_next(rd, v)
            },
        }
    }

    fn op_add(&mut self, p: &Program, ip: usize) -> (s: Step)
        requires
            ip + 4 <= p.code.len(),
        ensures
            step_is(final(self)@, s@, sem_add(old(self)@, p.code@, ip as int)),
    {
        let rd = p.code[ip + 1];
        let (i1, i2) = match (self.slot(p.code[ip + 2]), self.slot(p.code[ip + 3])) {
            (Some(a), Some(b)) => (a, b),
            _ => return Step::Fault,
        };
        let b = self.stack[i1];
        let c = self.stack[i2];
        if b.ty == ValueType::Integer && c.ty == ValueType::Integer {
            self.write_next(rd, Value::integer(b.data.wrapping_add(c.data)))
        } else if b.ty == ValueType::String && c.ty == ValueType::String {
            if b.data < 0 || b.data as usize >= self.str_pool.len() || c.data < 0 || c.data as usize
                >= self.str_pool.len() || self.str_pool.len() >= i32::MAX as usize {
                return Step::Fault;
            }
            let mut joined = self.str_pool[b.data as usize].clone();
            joined.append(self.str_pool[c.data as usize].as_str());
            let h = self.push_string(joined);
            self.write_next(rd, Value { ty: ValueType::String, data: h })
        } else {
            vm_error("加法操作数类型不匹配")
        }
    }

    fn op_int(&mut self, p: &Program, ip: usize, op: u8) -> (s: Step)
        requires
            ip + 4 <= p.code.len(),
        ensures
            step_is(final(self)@, s@, sem_int_op(old(self)@, p.code@, ip as int, op)),
    {
        let rd = p.code[ip + 1];
        let (i1, i2) = match (self.slot(p.code[ip + 2]), self.slot(p.code[ip + 3])) {
            (Some(a), Some(b)) => (a, b),
            _ => return Step::Fault,
        };
        let x = self.stack[i1].data;
        let y = self.stack[i2].data;
        let v: i32 = if op == OP_SUB {
            x.wrapping_sub(y)
        } else if op == OP_MUL {
            x.wrapping_mul(y)
        } else if op == OP_LT {
            if x < y { 1 } else { 0 }
        } else if op == OP_GT {
            if x > y { 1 } else { 0 }
        } else if op == OP_LE {
            if x <= y { 1 } else { 0 }
        } else {
            if x >= y { 1 } else { 0 }
        };
        self.write_next(rd, Value::integer(v))
    }

    fn op_div(&mut self, p: &Program, ip: usize, op: u8) -> (s: Step)
        requires
            ip + 4 <= p.code.len(),
        ensures
            step_is(final(self)@, s@, sem_div(old(self)@, p.code@, ip as int, op)),
    {
        let rd = p.code[ip + 1];
        let (i1, i2) = match (self.slot(p.code[ip + 2]), self.slot(p.code[ip + 3])) {
            (Some(a), Some(b)) => (a, b),
            _ => return Step::Fault,
        };
        let x = self.stack[i1].data;
        let c = self.stack[i2].data;
        if c == 0 {
            return vm_error("除数为零");
        }
        let r = if op == OP_DIV { x.checked_div(c) } else { x.checked_rem(c) };
        match r {
            Some(v) => self.write_next(rd, Value::integer(v)),
            None => Step::Fault,
        }
    }

    fn op_eq(&mut self, p: &Program, ip: usize, op: u8) -> (s: Step)
        requires
            ip + 4 <= p.code.len(),
        ensures
            step_is(final(self)@, s@, sem_eq(old(self)@, p.code@, ip as int, op)),
    {
        let rd = p.code[ip + 1];
        let (i1, i2) = match (self.slot(p.code[ip + 2]), self.slot(p.code[ip + 3])) {
            (Some(a), Some(b)) => (a, b),
            _ => return Step::Fault,
        };
        let b = self.stack[i1];
        let c = self.stack[i2];
        let equal = if b.ty != c.ty {
            false
        } else if b.ty == ValueType::String {
            if b.data < 0 || b.data as usize >= self.str_pool.len() || c.data < 0 || c.data as usize
                >= self.str_pool.len() {
                return Step::Fault;
            }
            self.str_pool[b.data as usize] == self.str_pool[c.data as usize]
        } else {
            b.data == c.data
        };
        let result: i32 = if op == OP_EQ {
            if equal { 1 } else { 0 }
        } else {
            if equal { 0 } else { 1 }
        };
        self.write_next(rd, Value::integer(result))
    }

    fn op_jif(&mut self, p: &Program, ip: usize) -> (s: Step)
        requires
            ip + 8 <= p.code.len(),
        ensures
            step_is(final(self)@, s@, sem_jif(old(self)@, p.code@, ip as int)),
    {
        let offset = extra_i32(&p.code, ip);
        match self.slot(p.code[ip + 2]) {
            None => Step::Fault,
            Some(i) => {
                if self.stack[i].data == 0 {
                    self.ip = self.ip.wrapping_add(8i32.wrapping_add(offset));
                } else {
                    self.ip = self.ip.wrapping_add(8);
                }
                Step::Continue
            },
        }
    }

    fn op_push(&mut self, p: &Program, ip: usize) -> (s: Step)
        requires
            ip + 3 <= p.code.len(),
        ensures
            step_is(final(self)@, s@, sem_push(old(self)@, p.code@, ip as int)),
    {
        let sp = self.sp.wrapping_add(1);
        match self.slot(p.code[ip + 2]) {
            None => Step::Fault,
            Some(i) => {
                if sp < 0 || sp as usize >= self.stack.len() {
                    return Step::Fault;
                }
                let v = self.stack[i];
                self.sp = sp;
                self.stack.set(sp as usize, v);
                self.ip = self.ip.wrapping_add(8);
                Step::Continue
            },
        }
    }

    fn op_call(&mut self, p: &Program, ip: usize) -> (s: Step)
        requires
            ip + 8 <= p.code.len(),
        ensures
            step_is(final(self)@, s@, sem_call(old(self)@, p@, p.code@, ip as int)),
    {
        let fi = extra_i32(&p.code, ip);
        if fi < 0 || fi as usize >= p.functions.len() {
            return Step::Fault;
        }
        let f = &p.functions[fi as usize];
        assert(p@.functions[fi as int] == f@);
        let p_cnt = f.param_count;
        let r_cnt = f.reg_count;
        let new_fp = self.sp.wrapping_sub(p_cnt);
        let dst_start = new_fp.wrapping_add(p_cnt).wrapping_add(1);
        let zero_count = r_cnt.wrapping_sub(p_cnt).wrapping_sub(1);
        let cp = self.cp.wrapping_add(1);
        // clear locals and temporaries, highest slot first
        if !clear_frame(&mut self.stack, dst_start, zero_count) {
            return Step::Fault;
        }
        if cp < 0 {
            return Step::Fault;
        }
        grow_calls(&mut self.call_stack, cp as usize);
        self.fsp = self.fsp.wrapping_add(1);
        self.frame_stack.push(new_fp);
        self.sp = new_fp.wrapping_add(r_cnt).wrapping_sub(1);
        self.fp = new_fp;
        self.cp = cp;
        self.call_stack.set(cp as usize, self.ip.wrapping_add(8));
        self.ip = f.code_offset;
        Step::Continue
    }

    fn op_ret(&mut self) -> (s: Step)
        ensures
            step_is(final(self)@, s@, sem_ret(old(self)@)),
    {
        let i0 = match self.slot(0) {
            None => return Step::Fault,
            Some(i) => i,
        };
        let ret_val = self.stack[i0];
        let fsp = self.fsp.wrapping_sub(1);
        let ghost frames = if self.frame_stack@.len() > 0 {
            self.frame_stack@.drop_last()
        } else {
            self.frame_stack@
        };
        let ghost m0 = self@;
        if self.frame_stack.len() > 0 {
            if fsp >= 0 && fsp as usize >= self.frame_stack.len() - 1 {
                return Step::Fault;
            }
        } else {
            if fsp >= 0 {
                return Step::Fault;
            }
        }
        let fp: i32 = if fsp >= 0 { self.frame_stack[fsp as usize] } else { 0 };
        if fp < 0 || fp as usize >= self.stack.len() || self.cp < 0 || self.cp as usize
            >= self.call_stack.len() {
            return Step::Fault;
        }
        self.sp = self.fp.wrapping_sub(1);
        self.fsp = fsp;
        self.frame_stack.pop();
        assert(self.frame_stack@ =~= frames);
        self.fp = fp;
        self.stack.set(fp as usize, ret_val);
        self.ip = self.call_stack[self.cp as usize];
        self.cp = self.cp.wrapping_sub(1);
        Step::Continue
    }

    fn op_print(&mut self, p: &Program, ip: usize) -> (s: Step)
        requires
            ip + 3 <= p.code.len(),
        ensures
            step_is(final(self)@, s@, sem_print(old(self)@, p.code@, ip as int)),
    {
        let i = match self.slot(p.code[ip + 2]) {
            None => return Step::Fault,
            Some(i) => i,
        };
        let v = self.stack[i];
        let text = match v.ty {
            ValueType::Integer => decimal_string(v.data as i64),
            ValueType::String => {
                if v.data < 0 || v.data as usize >= self.str_pool.len() {
                    return Step::Fault;
                }
                self.str_pool[v.data as usize].clone()
            },
            ValueType::Array => String::from_str("(数组)"),
        };
        self.ip = self.ip.wrapping_add(8);
        Step::Print(text)
    }

    fn op_arrnew(&mut self, p: &Program, ip: usize) -> (s: Step)
        requires
            ip + 4 <= p.code.len(),
        ensures
            step_is(final(self)@, s@, sem_arrnew(old(self)@, p.code@, ip as int)),
    {
        let rd = p.code[ip + 1];
        let is = match self.slot(p.code[ip + 2]) {
            None => return Step::Fault,
            Some(i) => i,
        };
        let size = self.stack[is].data;
        if size < 1 {
            return vm_error("数组长度必须为正数");
        }
        let ii = match self.slot(p.code[ip + 3]) {
            None => return Step::Fault,
            Some(i) => i,
        };
        if self.array_pool.len() >= i32::MAX as usize {
            return Step::Fault;
        }
        let init = self.stack[ii];
        let mut arr: Vec<Value> = Vec::new();
        let mut k: i32 = 0;
        while k < size
            invariant
                0 <= k <= size,
                arr@ == Seq::new(k as nat, |j: int| init),
            decreases size - k,
        {
            arr.push(init);
            k = k + 1;
            assert(arr@ =~= Seq::new(k as nat, |j: int| init));
        }
        let ghost old_pool = self.array_pool@;
        let h = self.array_pool.len() as i32;
        self.array_pool.push(arr);
        assert(self.array_pool@.map_values(|a: Vec<Value>| a@) =~= old_pool.map_values(
            |a: Vec<Value>| a@,
        ).push(arr@));
        self.write_next(rd, Value { ty: ValueType::Array, data: h })
    }

    fn op_arrget(&mut self, p: &Program, ip: usize) -> (s: Step)
        requires
            ip + 4 <= p.code.len(),
        ensures
            step_is(final(self)@, s@, sem_arrget(old(self)@, p.code@, ip as int)),
    {
        let rd = p.code[ip + 1];
        let ia = match self.slot(p.code[ip + 2]) {
            None => return Step::Fault,
            Some(i) => i,
        };
        let h = self.stack[ia];
        if h.ty != ValueType::Array {
            return vm_error("索引的目标不是数组");
        }
        let ix = match self.slot(p.code[ip + 3]) {
            None => return Step::Fault,
            Some(i) => i,
        };
        if h.data < 0 || h.data as usize >= self.array_pool.len() {
            return Step::Fault;
        }
        let idx = self.stack[ix].data;
        let arr = &self.array_pool[h.data as usize];
        if idx < 0 || idx as usize >= arr.len() {
            return vm_error("数组下标越界");
        }
        let v = arr[idx as usize];
        self.write_next(rd, v)
    }

    fn op_arrset(&mut self, p: &Program, ip: usize) -> (s: Step)
        requires
            ip + 4 <= p.code.len(),
        ensures
            step_is(final(self)@, s@, sem_arrset(old(self)@, p.code@, ip as int)),
    {
        let ia = match self.slot(p.code[ip + 2]) {
            None => return Step::Fault,
            Some(i) => i,
        };
        let h = self.stack[ia];
        if h.ty != ValueType::Array {
            return vm_error("索引的目标不是数组");
        }
        let ix = match self.slot(p.code[ip + 3]) {
            None => return Step::Fault,
            Some(i) => i,
        };
        if h.data < 0 || h.data as usize >= self.array_pool.len() {
            return Step::Fault;
        }
        let idx = self.stack[ix].data;
        let hi = h.data as usize;
        if idx < 0 || idx as usize >= self.array_pool[hi].len() {
            return vm_error("数组下标越界");
        }
        let iv = match self.slot(p.code[ip + 1]) {
            None => return Step::Fault,
            Some(i) => i,
        };
        let new_val = self.stack[iv];
        let ghost old_pool = self.array_pool@;
        let mut arr = self.array_pool[hi].clone();
        arr.set(idx as usize, new_val);
        self.array_pool.set(hi, arr);
        assert(self.array_pool@.map_values(|a: Vec<Value>| a@) =~= old_pool.map_values(
            |a: Vec<Value>| a@,
        ).update(hi as int, old_pool[hi as int]@.update(idx as int, new_val)));
        self.ip = self.ip.wrapping_add(8);
        Step::Continue
    }
}

/// Clears `count` stack slots from `start` on, highest first; false when a
/// slot lies outside the stack.
fn clear_frame(stack: &mut Vec<Value>, start: i32, count: i32) -> (ok: bool)
    ensures
        ok <==> clear_slots(old(stack)@, start, count as int) is Some,
        ok ==> final(stack)@ == clear_slots(old(stack)@, start, count as int)->Some_0,
{
    let mut k: i32 = count;
    while k > 0
        invariant
            k <= count,
            clear_slots(old(stack)@, start, count as int) == clear_slots(stack@, start, k as int),
        decreases k,
    {
        let slot = start.wrapping_add(k - 1);
        if slot < 0 || slot as usize >= stack.len() {
            return false;
        }
        stack.set(slot as usize, Value::zero());
        k = k - 1;
    }
    true
}

/// Pads the call stack with zeros until `cp` is a valid index.
fn grow_calls(calls: &mut Vec<i32>, cp: usize)
    ensures
        final(calls)@ == (if old(calls)@.len() <= cp {
            old(calls)@ + Seq::new((cp + 1 - old(calls)@.len()) as nat, |i: int| 0i32)
        } else {
            old(calls)@
        }),
{
    let ghost c0 = calls@;
    assert(c0 =~= c0 + Seq::new(0, |i: int| 0i32));
    while calls.len() <= cp
        invariant
            calls@ == c0 + Seq::new((calls@.len() - c0.len()) as nat, |i: int| 0i32),
            calls@.len() >= c0.len(),
            calls@.len() <= (if c0.len() <= cp { cp + 1 } else { c0.len() as int }),
        decreases cp + 1 - calls@.len(),
    {
        calls.push(0);
        assert(calls@ =~= c0 + Seq::new((calls@.len() - c0.len()) as nat, |i: int| 0i32));
    }
}

/// The `i32` operand of the instruction at `ip`.
fn extra_i32(code: &Vec<u8>, ip: usize) -> (v: i32)
    requires
        ip + 8 <= code.len(),
    ensures
        v == extra(code@, ip as int),
{
    let u: u32 = code[ip + 4] as u32 + 256 * (code[ip + 5] as u32) + 65536 * (code[ip + 6] as u32)
        + 16777216 * (code[ip + 7] as u32);
    if u >= 0x8000_0000 {
        (u as i64 - 0x1_0000_0000i64) as i32
    } else {
        u as i32
    }
}

/// Appends the two upper-case hex digits of a byte.
fn push_hex(s: &mut String, b: u8)
    ensures
        final(s)@ == old(s)@ + seq![hex_digit(b as nat / 16), hex_digit(b as nat % 16)],
{
    let hi = b / 16;
    let lo = b % 16;
    let c1: char = if hi < 10 { (48u8 + hi) as char } else { (55u8 + hi) as char };
    let c2: char = if lo < 10 { (48u8 + lo) as char } else { (55u8 + lo) as char };
    push_char(s, c1);
    push_char(s, c2);
    assert(final(s)@ =~= old(s)@ + seq![hex_digit(b as nat / 16), hex_digit(b as nat % 16)]);
}

/// Starts a run: a program without code is refused, otherwise the machine
/// starts in its initial state.
pub fn start(program: &Program) -> (r: Result<Machine, VmError>)
    ensures
        program.code@.len() == 0 <==> r is Err,
        r matches Err(e) ==> e.message@ == "字节码为空"@,
        r matches Ok(m) ==> m@ == initial_state(),
{
    if program.code.len() == 0 {
        return Err(VmError { message: String::from_str("字节码为空") });
    }
    Ok(Machine::new())
}

/// Runs one instruction.
///
/// The outcome is that of `spec_step`, and unless the instruction faulted the
/// machine is left in the state `spec_step` gives.
pub fn step(m: &mut Machine, program: &Program) -> (s: Step)
    ensures
        step_is(final(m)@, s@, spec_step(old(m)@, program@)),
{
    let code = &program.code;
    if m.ip < 0 || m.ip as usize >= code.len() {
        return Step::Fault;
    }
    let ip = m.ip as usize;
    let op = code[ip];
    let width: usize = if op == OP_HALT || op == OP_RET {
        1
    } else if op == OP_MOV || op == OP_PUSH || op == OP_PRINT {
        3
    } else if op == OP_MOVI || op == OP_MOVS || op == OP_JMP || op == OP_JIF || op == OP_CALL {
        8
    } else if op <= OP_ARRSET {
        4
    } else {
        1
    };
    if width > code.len() - ip {
        return Step::Fault;
    }
    if op == OP_HALT {
        Step::Halt
    } else if op == OP_MOVI {
        m.op_movi(program, ip)
    } else if op == OP_MOVS {
        m.op_movs(program, ip)
    } else if op == OP_MOV {
        m.op_mov(program, ip)
    } else if op == OP_ADD {
        m.op_add(program, ip)
    } else if op == OP_SUB || op == OP_MUL || op == OP_LT || op == OP_GT || op == OP_LE || op
        == OP_GE {
        m.op_int(program, ip, op)
    } else if op == OP_DIV || op == OP_MOD {
        m.op_div(program, ip, op)
    } else if op == OP_EQ || op == OP_NE {
        m.op_eq(program, ip, op)
    } else if op == OP_JMP {
        let offset = extra_i32(code, ip);
        m.ip = m.ip.wrapping_add(8i32.wrapping_add(offset));
        Step::Continue
    } else if op == OP_JIF {
        m.op_jif(program, ip)
    } else if op == OP_PUSH {
        m.op_push(program, ip)
    } else if op == OP_CALL {
        m.op_call(program, ip)
    } else if op == OP_RET {
        m.op_ret()
    } else if op == OP_PRINT {
        m.op_print(program, ip)
    } else if op == OP_ARRNEW {
        m.op_arrnew(program, ip)
    } else if op == OP_ARRGET {
        m.op_arrget(program, ip)
    } else if op == OP_ARRSET {
        m.op_arrset(program, ip)
    } else {
        let mut msg = String::from_str("未知操作码: 0x");
        push_hex(&mut msg, op);
        push_str(&mut msg, " @ ip=");
        push_decimal(&mut msg, m.ip as i64);
        Step::Error(VmError { message: msg })
    }
}

/// How a bounded run ended.
#[derive(Debug)]
pub enum RunEnd {
    /// `HALT`.
    Halted,
    /// The program stopped with this error.
    Failed(VmError),
    /// An instruction reached outside the machine.
    Faulted,
    /// The step budget ran out first.
    OutOfSteps,
}

pub enum RunEndView {
    Halted,
    Failed(Seq<char>),
    Faulted,
    OutOfSteps,
}

/// The lines a bounded run printed, and how it ended.
pub struct RunReport {
    pub output: Vec<String>,
    pub end: RunEnd,
}

pub open spec fn end_view(e: RunEnd) -> RunEndView {
    match e {
        RunEnd::Halted => RunEndView::Halted,
        RunEnd::Failed(x) => RunEndView::Failed(x.message@),
        RunEnd::Faulted => RunEndView::Faulted,
        RunEnd::OutOfSteps => RunEndView::OutOfSteps,
    }
}

/// At most `k` steps from `m`: the lines printed and how the run ended.
pub open spec fn run_from(m: MachineView, p: ProgramView, k: nat) -> (Seq<Seq<char>>, RunEndView)
    decreases k,
{
    if k == 0 {
        (Seq::empty(), RunEndView::OutOfSteps)
    } else {
        let (m2, s) = spec_step(m, p);
        match s {
            StepView::Continue => run_from(m2, p, (k - 1) as nat),
            StepView::Print(t) => {
                let (o, e) = run_from(m2, p, (k - 1) as nat);
                (seq![t] + o, e)
            },
            StepView::Halt => (Seq::empty(), RunEndView::Halted),
            StepView::Error(msg) => (Seq::empty(), RunEndView::Failed(msg)),
            StepView::Fault => (Seq::empty(), RunEndView::Faulted),
        }
    }
}

/// Runs a program from a fresh machine for at most `max_steps` steps,
/// collecting the printed lines; a program without code is refused.
pub fn run(program: &Program, max_steps: u64) -> (r: Result<RunReport, VmError>)
    ensures
        program.code@.len() == 0 <==> r is Err,
        r matches Err(e) ==> e.message@ == "字节码为空"@,
        r matches Ok(rep) ==> (rep.output@.map_values(|l: String| l@), end_view(rep.end)) == run_from(
            initial_state(),
            program@,
            max_steps as nat,
        ),
{
    let mut m = match start(program) {
        Ok(m) => m,
        Err(e) => {
            return Err(e);
        },
    };
    let ghost total = run_from(initial_state(), program@, max_steps as nat);
    let mut out: Vec<String> = Vec::new();
    assert(out@.map_values(|l: String| l@) + run_from(m@, program@, max_steps as nat).0 =~= run_from(m@, program@, max_steps as nat).0);
    let mut k: u64 = max_steps;
    while k > 0
        invariant
            program.code@.len() > 0,
            total == run_from(initial_state(), program@, max_steps as nat),
            ({
                let r = run_from(m@, program@, k as nat);
                (out@.map_values(|l: String| l@) + r.0, r.1) == total
            }),
        decreases k,
    {
        let ghost before = m@;
        let ghost ob = out@.map_values(|l: String| l@);
        let s = step(&mut m, program);
        match s {
            Step::Continue => {},
            Step::Print(t) => {
                out.push(t);
                proof {
                    let r2 = run_from(m@, program@, (k - 1) as nat);
                    assert(out@.map_values(|l: String| l@) =~= ob.push(t@));
                    assert(ob + (seq![t@] + r2.0) =~= ob.push(t@) + r2.0);
                }
            },
            Step::Halt => {
                assert(ob + Seq::<Seq<char>>::empty() =~= ob);
                return Ok(RunReport { output: out, end: RunEnd::Halted });
            },
            Step::Error(e) => {
                assert(ob + Seq::<Seq<char>>::empty() =~= ob);
                return Ok(RunReport { output: out, end: RunEnd::Failed(e) });
            },
            Step::Fault => {
                assert(ob + Seq::<Seq<char>>::empty() =~= ob);
                return Ok(RunReport { output: out, end: RunEnd::Faulted });
            },
        }
        k = k - 1;
    }
    assert(out@.map_values(|l: String| l@) + Seq::<Seq<char>>::empty() =~= out@.map_values(|l: String| l@));
    Ok(RunReport { output: out, end: RunEnd::OutOfSteps })
}

// ---------------------------------------------------------------------
// Tracing (`RUA_TRACE`).
// ---------------------------------------------------------------------

/// The number of steps a traced run may take.
pub const TRACE_LIMIT: u64 = 2000;


/// The spaces that right-align a non-negative decimal in four columns.
pub open spec fn pad4(n: int) -> Seq<char> {
    if n < 10 {
        "   "@
    } else if n < 100 {
        "  "@
    } else if n < 1000 {
        " "@
    } else {
        Seq::empty()
    }
}

/// Whether register `r` of the current frame lies on the stack.
pub open spec fn reg_in(m: MachineView, r: int) -> bool {
    0 <= m.fp + r < m.stack.len()
}

/// The first trace line of the instruction at `ip`: its position, opcode
/// and the machine's stack, frame and call pointers.
pub open spec fn trace_head(m: MachineView, op: u8) -> Seq<char> {
    "[TRACE] ip="@ + pad4(m.ip as int) + decimal(m.ip as int) + " op=0x"@ + seq![hex_digit(op as nat / 16), hex_digit(op as nat % 16)]
        + " sp="@ + decimal(m.sp as int) + " fp="@ + decimal(m.fp as int) + " fsp="@ + decimal(m.fsp as int) + " cp="@
        + decimal(m.cp as int)
}

/// What the trace shows before the instruction at `ip`: the head line,
/// and for `MOVI`, `SUB`, `LE` and `JIF` a line with the operands, the
/// values of the two source registers and the extra field; `None` where
/// reading them would leave the code or the stack.
pub open spec fn trace_text(m: MachineView, p: ProgramView) -> Option<Seq<Seq<char>>> {
    let code = p.code;
    if m.ip < 0 || m.ip >= code.len() {
        None
    } else {
        let ip = m.ip as int;
        let op = code[ip];
        let head = trace_head(m, op);
        if op == OP_MOVI || op == OP_SUB || op == OP_LE || op == OP_JIF {
            if ip + 8 > code.len() || !reg_in(m, code[ip + 2] as int) || !reg_in(m, code[ip + 3] as int) {
                None
            } else {
                let rd = code[ip + 1];
                let rs1 = code[ip + 2];
                let rs2 = code[ip + 3];
                Some(
                    seq![
                        head,
                        "[TRACE]     rd="@ + decimal(rd as int) + " rs1="@ + decimal(rs1 as int) + "(="@ + decimal(
                            m.stack[m.fp + rs1].data as int,
                        ) + ") rs2="@ + decimal(rs2 as int) + "(="@ + decimal(m.stack[m.fp + rs2].data as int) + ") extra="@
                            + decimal(extra(code, ip) as int),
                    ],
                )
            }
        } else {
            Some(seq![head])
        }
    }
}

/// The line printed when a traced run reaches its step limit.
pub open spec fn trace_limit_line() -> Seq<char> {
    "[TRACE] 超过 2000 步，终止（疑似死循环）"@
}

/// The trace lines before the instruction at `ip`, or `None` where reading
/// what they show would leave the code or the stack.
pub fn trace_lines(m: &Machine, program: &Program) -> (r: Option<Vec<String>>)
    ensures
        match r {
            Some(v) => trace_text(m@, program@) == Some(v@.map_values(|s: String| s@)),
            None => trace_text(m@, program@) is None,
        },
{
    let code = &program.code;
    if m.ip < 0 || m.ip as usize >= code.len() {
        return None;
    }
    let ip = m.ip as usize;
    let op = code[ip];
    let mut head = String::new();
    push_str(&mut head, "[TRACE] ip=");
    if m.ip < 10 {
        push_str(&mut head, "   ");
    } else if m.ip < 100 {
        push_str(&mut head, "  ");
    } else if m.ip < 1000 {
        push_str(&mut head, " ");
    }
    push_decimal(&mut head, m.ip as i64);
    push_str(&mut head, " op=0x");
    push_hex(&mut head, op);
    push_str(&mut head, " sp=");
    push_decimal(&mut head, m.sp as i64);
    push_str(&mut head, " fp=");
    push_decimal(&mut head, m.fp as i64);
    push_str(&mut head, " fsp=");
    push_decimal(&mut head, m.fsp as i64);
    push_str(&mut head, " cp=");
    push_decimal(&mut head, m.cp as i64);
    let ghost hv = head@;
    assert(hv =~= trace_head(m@, op));
    let mut lines: Vec<String> = Vec::new();
    lines.push(head);
    if op == OP_MOVI || op == OP_SUB || op == OP_LE || op == OP_JIF {
        if code.len() - ip < 8 {
            return None;
        }
        let rd = code[ip + 1];
        let rs1 = code[ip + 2];
        let rs2 = code[ip + 3];
        let k1 = m.fp as i64 + rs1 as i64;
        let k2 = m.fp as i64 + rs2 as i64;
        if k1 < 0 || k1 as usize >= m.stack.len() || k2 < 0 || k2 as usize >= m.stack.len() {
            return None;
        }
        let v1 = m.stack[k1 as usize].data;
        let v2 = m.stack[k2 as usize].data;
        let extra = extra_i32(code, ip);
        let mut line = String::new();
        push_str(&mut line, "[TRACE]     rd=");
        push_decimal(&mut line, rd as i64);
        push_str(&mut line, " rs1=");
        push_decimal(&mut line, rs1 as i64);
        push_str(&mut line, "(=");
        push_decimal(&mut line, v1 as i64);
        push_str(&mut line, ") rs2=");
        push_decimal(&mut line, rs2 as i64);
        push_str(&mut line, "(=");
        push_decimal(&mut line, v2 as i64);
        push_str(&mut line, ") extra=");
        push_decimal(&mut line, extra as i64);
        lines.push(line);
    }
    assert(trace_text(m@, program@) == Some(lines@.map_values(|s: String| s@)));
    Some(lines)
}

/// One step of a traced run that has made `done` steps: past the limit it
/// stops with the limit error and leaves the machine as it is; otherwise it
/// gives the trace lines of the instruction and runs it as `step` does (a
/// fault where the trace would read outside the code or the stack).
pub fn traced_step(m: &mut Machine, program: &Program, done: u64) -> (r: (Vec<String>, Step))
    ensures
        done >= TRACE_LIMIT ==> {
            &&& r.0@.map_values(|s: String| s@) == seq![trace_limit_line()]
            &&& r.1@ == StepView::Error("trace 步数超限"@)
            &&& final(m)@ == old(m)@
        },
        done < TRACE_LIMIT ==> match trace_text(old(m)@, program@) {
            Some(ls) => {
                &&& r.0@.map_values(|s: String| s@) == ls
                &&& step_is(final(m)@, r.1@, spec_step(old(m)@, program@))
            },
            None => r.1@ is Fault && r.0@.len() == 0,
        },
{
    if done >= TRACE_LIMIT {
        let mut v: Vec<String> = Vec::new();
        v.push(String::from_str("[TRACE] 超过 2000 步，终止（疑似死循环）"));
        assert(v@.map_values(|s: String| s@) =~= seq![trace_limit_line()]);
        return (v, Step::Error(VmError { message: String::from_str("trace 步数超限") }));
    }
    match trace_lines(m, program) {
        Some(lines) => {
            let s = step(m, program);
            (lines, s)
        },
        None => (Vec::new(), Step::Fault),
    }
}

/// Rust's quotient and remainder of two `i32` values where neither is
/// refused: the quotient truncates toward zero, so that quotient times
/// divisor plus remainder gives the dividend back, with a remainder smaller
/// than the divisor and of the dividend's sign.
#[verifier::spinoff_prover]
proof fn lemma_i32_div_rem(x: i32, y: i32)
    requires
        y != 0,
        !(x == i32::MIN && y == -1),
    ensures
        x.checked_div(y) matches Some(q) && x.checked_rem(y) matches Some(r) && q * y + r == x && -(
        if y < 0 { -y } else { y as int }) < r < (if y < 0 { -y } else { y as int }) && (r == 0 || (r < 0) == (x < 0)),
{
    let xi = x as int;
    let d = y as int;
    if xi == 0 {
        assert(x.checked_div(y) == Some(0i32));
        assert(x.checked_rem(y) == Some(0i32));
        assert(0i32 * y + 0i32 == x);
    } else if xi > 0 && d > 0 {
        vstd::arithmetic::div_mod::lemma_fundamental_div_mod(xi, d);
        vstd::arithmetic::div_mod::lemma_mod_bound(xi, d);
        let q = xi / d;
        let r = xi % d;
        assert(0 <= q <= xi) by (nonlinear_arith)
            requires
                xi == d * q + r,
                0 <= r < d,
                xi > 0,
                d > 0,
        ;
        assert(q * d == d * q) by (nonlinear_arith);
        assert(q * d + r == xi);
        assert(x.checked_div(y) == Some(q as i32));
        assert(x.checked_rem(y) == Some(r as i32));
        assert((q as i32) * y + (r as i32) == x);
    } else if xi < 0 && d < 0 {
        let xx = -xi;
        let dd = -d;
        vstd::arithmetic::div_mod::lemma_fundamental_div_mod(xx, dd);
        vstd::arithmetic::div_mod::lemma_mod_bound(xx, dd);
        let q = xx / dd;
        let r = xx % dd;
        assert(0 <= q <= xx) by (nonlinear_arith)
            requires
                xx == dd * q + r,
                0 <= r < dd,
                xx > 0,
                dd > 0,
        ;
        assert(dd >= 2 ==> 2 * q <= xx) by (nonlinear_arith)
            requires
                xx == dd * q + r,
                0 <= r < dd,
                q >= 0,
        ;
        assert(dd == 1 ==> q == xx) by (nonlinear_arith)
            requires
                xx == dd * q + r,
                0 <= r < dd,
        ;
        assert(q * d == -(dd * q)) by (nonlinear_arith)
            requires
                d == -dd,
        ;
        assert(q * d + (r * -1) == xi);
        assert(x.checked_div(y) == Some(q as i32));
        assert(x.checked_rem(y) == Some((r * -1) as i32));
        assert((q as i32) * y + ((r * -1) as i32) == x);
    } else if xi < 0 {
        let xx = -xi;
        vstd::arithmetic::div_mod::lemma_fundamental_div_mod(xx, d);
        vstd::arithmetic::div_mod::lemma_mod_bound(xx, d);
        let q = xx / d;
        let r = xx % d;
        assert(0 <= q <= xx) by (nonlinear_arith)
            requires
                xx == d * q + r,
                0 <= r < d,
                xx > 0,
                d > 0,
        ;
        assert((q * -1) * d == -(d * q)) by (nonlinear_arith);
        assert((q * -1) * d + (r * -1) == xi);
        assert(x.checked_div(y) == Some((q * -1) as i32));
        assert(x.checked_rem(y) == Some((r * -1) as i32));
        assert(((q * -1) as i32) * y + ((r * -1) as i32) == x);
    } else {
        let dd = -d;
        vstd::arithmetic::div_mod::lemma_fundamental_div_mod(xi, dd);
        vstd::arithmetic::div_mod::lemma_mod_bound(xi, dd);
        let q = xi / dd;
        let r = xi % dd;
        assert(0 <= q <= xi) by (nonlinear_arith)
            requires
                xi == dd * q + r,
                0 <= r < dd,
                xi > 0,
                dd > 0,
        ;
        assert((q * -1) * d == dd * q) by (nonlinear_arith)
            requires
                d == -dd,
        ;
        assert((q * -1) * d + r == xi);
        assert(x.checked_div(y) == Some((q * -1) as i32));
        assert(x.checked_rem(y) == Some(r as i32));
        assert(((q * -1) as i32) * y + (r as i32) == x);
    }
}

/// `DIV` and `MOD` (`op rd, rs1, rs2`) divide `rs1` by `rs2` with the
/// quotient truncated toward zero: the quotient `DIV` writes times the
/// divisor plus the remainder `MOD` writes is the dividend, and the
/// remainder is smaller than the divisor and has the dividend's sign. A zero
/// divisor is an error.
pub proof fn law_div_mod_step(m: MachineView, code: Seq<u8>, ip: int)
    requires
        0 <= ip,
        ip + 4 <= code.len(),
        reg_ok(m, code[ip + 1]),
        reg_ok(m, code[ip + 2]),
        reg_ok(m, code[ip + 3]),
        !(reg(m, code[ip + 2]).data == i32::MIN && reg(m, code[ip + 3]).data == -1),
    ensures
        ({
            let rd = code[ip + 1];
            let x = reg(m, code[ip + 2]).data;
            let y = reg(m, code[ip + 3]).data;
            let qd = sem_div(m, code, ip, OP_DIV);
            let rm = sem_div(m, code, ip, OP_MOD);
            &&& y == 0 ==> qd.1 == StepView::Error("除数为零"@) && rm.1 == StepView::Error("除数为零"@)
            &&& y != 0 ==> {
                &&& qd.1 == StepView::Continue
                &&& rm.1 == StepView::Continue
                &&& reg(qd.0, rd).ty == ValueType::Integer
                &&& reg(rm.0, rd).ty == ValueType::Integer
                &&& reg(qd.0, rd).data * y + reg(rm.0, rd).data == x
                &&& -(if y < 0 { -y } else { y as int }) < reg(rm.0, rd).data < (if y < 0 { -y } else { y as int })
                &&& reg(rm.0, rd).data == 0 || (reg(rm.0, rd).data < 0) == (x < 0)
            }
        }),
{
    let x = reg(m, code[ip + 2]).data;
    let y = reg(m, code[ip + 3]).data;
    if y != 0 {
        lemma_i32_div_rem(x, y);
    }
}

/// On two integer registers `ADD` writes their sum (wrapping to 32 bits, so
/// the exact sum where it fits), `EQ` writes 1 when they are equal and 0
/// when not, and `NE` the other way round; each then moves to the next
/// instruction.
pub proof fn law_add_eq_step(m: MachineView, code: Seq<u8>, ip: int)
    requires
        0 <= ip,
        ip + 4 <= code.len(),
        reg_ok(m, code[ip + 1]),
        reg_ok(m, code[ip + 2]),
        reg_ok(m, code[ip + 3]),
        reg(m, code[ip + 2]).ty == ValueType::Integer,
        reg(m, code[ip + 3]).ty == ValueType::Integer,
    ensures
        ({
            let rd = code[ip + 1];
            let x = reg(m, code[ip + 2]).data;
            let y = reg(m, code[ip + 3]).data;
            let add = sem_add(m, code, ip);
            let eq = sem_eq(m, code, ip, OP_EQ);
            let ne = sem_eq(m, code, ip, OP_NE);
            &&& add.1 == StepView::Continue
            &&& reg(add.0, rd) == (Value { ty: ValueType::Integer, data: x.wrapping_add(y) })
            &&& i32::MIN <= x + y <= i32::MAX ==> reg(add.0, rd).data == x + y
            &&& add.0.ip == m.ip.wrapping_add(8)
            &&& eq.1 == StepView::Continue
            &&& ne.1 == StepView::Continue
            &&& reg(eq.0, rd) == (Value { ty: ValueType::Integer, data: if x == y { 1i32 } else { 0i32 } })
            &&& reg(ne.0, rd) == (Value { ty: ValueType::Integer, data: if x != y { 1i32 } else { 0i32 } })
        }),
{
}

/// `SUB`, `MUL`, `LT`, `GT`, `LE` and `GE` (`op rd, rs1, rs2`) write into
/// `rd` the integer `rs1 - rs2` or `rs1 * rs2` (wrapping to 32 bits), or for
/// a comparison 1 when `rs1` compares so to `rs2` and 0 when it does not;
/// no other slot changes and the machine moves to the next instruction.
pub proof fn law_int_op_step(m: MachineView, p: ProgramView)
    requires
        0 <= m.ip,
        m.ip + 4 <= p.code.len(),
        p.code[m.ip as int] == OP_SUB || p.code[m.ip as int] == OP_MUL || p.code[m.ip as int] == OP_LT
            || p.code[m.ip as int] == OP_GT || p.code[m.ip as int] == OP_LE || p.code[m.ip as int] == OP_GE,
        reg_ok(m, p.code[m.ip + 1]),
        reg_ok(m, p.code[m.ip + 2]),
        reg_ok(m, p.code[m.ip + 3]),
    ensures
        ({
            let op = p.code[m.ip as int];
            let rd = p.code[m.ip + 1];
            let x = reg(m, p.code[m.ip + 2]).data;
            let y = reg(m, p.code[m.ip + 3]).data;
            let r = spec_step(m, p);
            let v: i32 = if op == OP_SUB {
                x.wrapping_sub(y)
            } else if op == OP_MUL {
                x.wrapping_mul(y)
            } else if op == OP_LT {
                if x < y { 1 } else { 0 }
            } else if op == OP_GT {
                if x > y { 1 } else { 0 }
            } else if op == OP_LE {
                if x <= y { 1 } else { 0 }
            } else {
                if x >= y { 1 } else { 0 }
            };
            &&& r.1 == StepView::Continue
            &&& r.0.ip == m.ip.wrapping_add(8)
            &&& r.0.fp == m.fp
            &&& r.0.stack == m.stack.update(reg_slot(m, rd), Value { ty: ValueType::Integer, data: v })
            &&& reg(r.0, rd) == (Value { ty: ValueType::Integer, data: v })
        }),
{
}

/// The integer opcodes relate as their operations do: a difference plus
/// the right operand gives the left one back, `x <= y` is `y >= x`,
/// `x < y` is `y > x`, exactly one of `x < y` and `x >= y` (and of `x > y`
/// and `x <= y`) gives 1, and a value is `<=` and `>=` itself but neither
/// `<` nor `>` itself.
pub proof fn law_int_op_relations(x: i32, y: i32)
    ensures
        int_op(OP_SUB, x, y).wrapping_add(y) == x,
        i32::MIN <= x - y <= i32::MAX ==> int_op(OP_SUB, x, y) == x - y,
        int_op(OP_LE, x, y) == int_op(OP_GE, y, x),
        int_op(OP_LT, x, y) == int_op(OP_GT, y, x),
        int_op(OP_LT, x, y) + int_op(OP_GE, x, y) == 1,
        int_op(OP_GT, x, y) + int_op(OP_LE, x, y) == 1,
        int_op(OP_LE, x, x) == 1,
        int_op(OP_GE, x, x) == 1,
        int_op(OP_LT, x, x) == 0,
        int_op(OP_GT, x, x) == 0,
{
}

/// An `ARRGET` after an `ARRSET` through the same array and index registers
/// reads the value stored.
pub proof fn law_arrset_arrget(m: MachineView, code: Seq<u8>, ip1: int, ip2: int)
    requires
        0 <= ip1,
        ip1 + 4 <= code.len(),
        0 <= ip2,
        ip2 + 4 <= code.len(),
        sem_arrset(m, code, ip1).1 == StepView::Continue,
        code[ip2 + 2] == code[ip1 + 2],
        code[ip2 + 3] == code[ip1 + 3],
        reg_ok(sem_arrset(m, code, ip1).0, code[ip2 + 1]),
    ensures
        sem_arrget(sem_arrset(m, code, ip1).0, code, ip2).1 == StepView::Continue,
        reg(sem_arrget(sem_arrset(m, code, ip1).0, code, ip2).0, code[ip2 + 1]) == reg(m, code[ip1 + 1]),
{
    let m2 = sem_arrset(m, code, ip1).0;
    let rd = code[ip2 + 1];
    let m3 = set_reg(m2, rd, reg(m, code[ip1 + 1]));
    assert(m3.stack[reg_slot(m3, rd)] == reg(m, code[ip1 + 1]));
}

/// A `CALL` and the `RET` of its callee. The call starts the callee at its
/// code with its frame right below the stack top (`fp = sp - n` for `n`
/// parameters); whatever the callee does in between, as long as it returns
/// from its own frame, the `RET` gives the caller back its frame pointer
/// and call depth, writes the callee's `r0` into the caller's `r0`, leaves
/// `sp` just below the callee's frame and continues after the `CALL`.
/// The caller's frame is the top of the frame stack, or the main frame
/// (`fp` 0) when the frame stack is empty, as a run keeps it.
pub proof fn law_call_ret(m: MachineView, p: ProgramView, code: Seq<u8>, k: int, m3: MachineView)
    requires
        0 <= k,
        k + 8 <= code.len(),
        sem_call(m, p, code, k).1 == StepView::Continue,
        -1 <= m.fsp < i32::MAX,
        m.cp < i32::MAX,
        m.frame_stack.len() == m.fsp + 1,
        m.fsp >= 0 ==> m.frame_stack[m.fsp as int] == m.fp,
        m.fsp == -1 ==> m.fp == 0,
        0 <= m.fp < m3.stack.len(),
        m3.fp == sem_call(m, p, code, k).0.fp,
        m3.fsp == sem_call(m, p, code, k).0.fsp,
        m3.frame_stack == sem_call(m, p, code, k).0.frame_stack,
        m3.cp == sem_call(m, p, code, k).0.cp,
        m3.call_stack == sem_call(m, p, code, k).0.call_stack,
        reg_ok(m3, 0),
    ensures
        sem_call(m, p, code, k).0.fp == m.sp.wrapping_sub(p.functions[extra(code, k) as int].param_count),
        sem_call(m, p, code, k).0.ip == p.functions[extra(code, k) as int].code_offset,
        sem_ret(m3).1 == StepView::Continue,
        sem_ret(m3).0.fp == m.fp,
        sem_ret(m3).0.fsp == m.fsp,
        sem_ret(m3).0.frame_stack == m.frame_stack,
        sem_ret(m3).0.cp == m.cp,
        sem_ret(m3).0.ip == m.ip.wrapping_add(8),
        sem_ret(m3).0.stack[m.fp as int] == reg(m3, 0),
        sem_ret(m3).0.sp == m3.fp.wrapping_sub(1),
{
    let m2 = sem_call(m, p, code, k).0;
    assert(m2.frame_stack.drop_last() =~= m.frame_stack);
    assert(m2.cp == m.cp + 1);
    assert(m2.fsp == m.fsp + 1);
    assert(m2.call_stack[m2.cp as int] == m.ip.wrapping_add(8));
}

} // verus!
