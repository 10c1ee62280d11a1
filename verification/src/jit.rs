//! The x86-64 code generator for integer functions.
//!
//! A function is compiled to machine code when it is VM-able, has at most
//! six parameters, and calls only such functions. The generator works on
//! plain bytes: the addresses it embeds (the code and data buffers, the
//! table of entry points, the print helpers) come from the caller, which
//! maps executable memory, copies the bytes there and runs them.
use vstd::prelude::*;
use crate::ast::{nodes_view, Node, NodeView};
use crate::lexer::TokenKind;
use crate::vm::{
    body_of, callee_in, count_true, engine_map, fname, insert, lemma_count_clear, lemma_engine_map, lemma_lookup_insert,
    lemma_name_index_bound, lookup, name_index, sc_args, sc_block, sc_expr, sc_print_args, sc_stmt, sc_stmts, slot_count,
    subset_of, table_insert, table_view, ScanView,
};

verus! {

/// The addresses the generated code refers to.
pub struct JitLayout {
    /// Where the code of the first function will be copied.
    pub code_base: usize,
    /// Where the string literals will be copied.
    pub data_base: usize,
    /// The table of entry points that calls go through.
    pub table_addr: usize,
    /// The print helper (text, terminator).
    pub print_addr: usize,
    /// The integer formatting helper (value, buffer).
    pub itoa_addr: usize,
    /// The buffer the formatting helper writes to.
    pub scratch_addr: usize,
    /// The terminators "\n" and " ".
    pub newline_addr: usize,
    pub space_addr: usize,
}

/// The compiled functions: their entry points, names, and the bytes of the
/// code and data buffers.
pub struct JitEngine {
    pub entries: Vec<usize>,
    pub map: Vec<(String, usize)>,
    pub code: Vec<u8>,
    pub data: Vec<u8>,
}

impl JitEngine {
    /// An engine with no functions.
    pub fn empty() -> (e: JitEngine)
        ensures
            e.entries@.len() == 0,
            e.map@.len() == 0,
            e.code@.len() == 0,
            e.data@.len() == 0,
    {
        JitEngine { entries: Vec::new(), map: Vec::new(), code: Vec::new(), data: Vec::new() }
    }

    /// The index of the function called `name`, if it was compiled.
    pub fn get_idx(&self, name: &String) -> (r: Option<usize>)
        ensures
            r == lookup(table_view(self.map@), name@),
    {
        crate::vm::table_lookup(&self.map, name)
    }

    /// The number of compiled functions.
    pub fn len(&self) -> (n: usize)
        ensures
            n == self.entries@.len(),
    {
        self.entries.len()
    }
}

// ---------------------------------------------------------------------
// Registers and instruction encodings.
// ---------------------------------------------------------------------

pub const RAX: u8 = 0;
pub const RCX: u8 = 1;
pub const RDX: u8 = 2;
pub const RBX: u8 = 3;
pub const RSP: u8 = 4;
pub const RBP: u8 = 5;
pub const RSI: u8 = 6;
pub const RDI: u8 = 7;
pub const R8: u8 = 8;
pub const R9: u8 = 9;
pub const R10: u8 = 10;
pub const R11: u8 = 11;
pub const R12: u8 = 12;
pub const R13: u8 = 13;
pub const R14: u8 = 14;
pub const R15: u8 = 15;

/// Condition codes (low nibble of `0F 8x` and `0F 9x`).
pub const JCC_E: u8 = 4;
pub const JCC_NE: u8 = 5;
pub const JCC_L: u8 = 12;
pub const JCC_LE: u8 = 14;
pub const JCC_G: u8 = 15;
pub const JCC_GE: u8 = 13;

/// Virtual registers from this one on live in stack slots.
pub const SPILL_VREG: u32 = 14;
/// At most this many parameters (the argument registers).
pub const JIT_MAX_PARAMS: usize = 6;

/// The four little-endian bytes of a 32-bit value.
pub open spec fn le32(v: i32) -> Seq<u8> {
    let u = v as u32;
    seq![(u & 0xff) as u8, ((u >> 8u32) & 0xff) as u8, ((u >> 16u32) & 0xff) as u8, ((u >> 24u32) & 0xff) as u8]
}

/// The eight little-endian bytes of a 64-bit value.
pub open spec fn le64(v: i64) -> Seq<u8> {
    le32((v as u64 & 0xffff_ffff) as u32 as i32) + le32(((v as u64 >> 32u64) & 0xffff_ffff) as u32 as i32)
}

/// The REX prefix with the W, R and B bits; none when all are clear.
pub open spec fn rex(w: bool, r: bool, b: bool) -> Seq<u8> {
    if w || r || b {
        seq![(0x40 + (if w { 8int } else { 0 }) + (if r { 4int } else { 0 }) + (if b { 1int } else { 0 })) as u8]
    } else {
        Seq::empty()
    }
}

/// A ModRM byte.
pub open spec fn modrm(md: u8, o: u8, e: u8) -> u8 {
    (md * 64 + (o % 8) * 8 + e % 8) as u8
}

/// `opcode` with a register-to-register ModRM (`r` in the reg field).
pub open spec fn enc_rr(opc: Seq<u8>, r: u8, e: u8) -> Seq<u8> {
    rex(true, r >= 8, e >= 8) + opc + seq![modrm(3, r, e)]
}

/// `opcode` with `r` and the frame slot `[rbp + disp]`.
pub open spec fn enc_mem(opc: Seq<u8>, r: u8, disp: i32) -> Seq<u8> {
    rex(true, r >= 8, false) + opc + seq![modrm(2, r, RBP)] + le32(disp)
}

/// The x86-64 assembler of one function: code bytes, label positions (-1
/// while unbound) and pending jumps (offset of the rel32 field, label).
pub struct Emitter {
    pub code: Vec<u8>,
    pub label_pos: Vec<i128>,
    pub patches: Vec<(usize, u64)>,
}

impl Emitter {
    pub fn new() -> (e: Emitter)
        ensures
            e.code@.len() == 0,
            e.label_pos@.len() == 0,
            e.patches@.len() == 0,
    {
        Emitter { code: Vec::new(), label_pos: Vec::new(), patches: Vec::new() }
    }

    fn emit8(&mut self, v: u8)
        ensures
            final(self).code@ == old(self).code@.push(v),
            final(self).label_pos == old(self).label_pos,
            final(self).patches == old(self).patches,
    {
        self.code.push(v);
    }

    fn emit32(&mut self, v: i32)
        ensures
            final(self).code@ == old(self).code@ + le32(v),
            final(self).label_pos == old(self).label_pos,
            final(self).patches == old(self).patches,
    {
        let u = v as u32;
        self.code.push((u & 0xff) as u8);
        self.code.push(((u >> 8u32) & 0xff) as u8);
        self.code.push(((u >> 16u32) & 0xff) as u8);
        self.code.push(((u >> 24u32) & 0xff) as u8);
        assert(self.code@ =~= old(self).code@ + le32(v));
    }

    fn emit64(&mut self, v: i64)
        ensures
            final(self).code@ == old(self).code@ + le64(v),
            final(self).label_pos == old(self).label_pos,
            final(self).patches == old(self).patches,
    {
        let u = v as u64;
        self.emit32((u & 0xffff_ffff) as u32 as i32);
        self.emit32(((u >> 32u64) & 0xffff_ffff) as u32 as i32);
        assert(self.code@ =~= old(self).code@ + le64(v));
    }

    fn rex(&mut self, w: bool, r: bool, b: bool)
        ensures
            final(self).code@ == old(self).code@ + rex(w, r, b),
            final(self).label_pos == old(self).label_pos,
            final(self).patches == old(self).patches,
    {
        if w || r || b {
            let v: u8 = 0x40 + (if w { 8u8 } else { 0 }) + (if r { 4u8 } else { 0 }) + (if b { 1u8 } else { 0 });
            self.emit8(v);
            assert(self.code@ =~= old(self).code@ + rex(w, r, b));
        } else {
            assert(self.code@ =~= old(self).code@ + rex(w, r, b));
        }
    }

    fn modrm(&mut self, md: u8, o: u8, e: u8)
        requires
            md < 4,
        ensures
            final(self).code@ == old(self).code@.push(modrm(md, o, e)),
            final(self).label_pos == old(self).label_pos,
            final(self).patches == old(self).patches,
    {
        self.emit8(md * 64 + (o % 8) * 8 + e % 8);
    }

    /// An instruction with a register-to-register operand.
    fn rr(&mut self, opc: &[u8], r: u8, e: u8)
        ensures
            final(self).code@ == old(self).code@ + enc_rr(opc@, r, e),
            final(self).label_pos == old(self).label_pos,
            final(self).patches == old(self).patches,
    {
        self.rex(true, r >= 8, e >= 8);
        let mut i: usize = 0;
        let ghost c0 = self.code@;
        while i < opc.len()
            invariant
                i <= opc@.len(),
                self.code@ == c0 + opc@.subrange(0, i as int),
                self.label_pos == old(self).label_pos,
                self.patches == old(self).patches,
            decreases opc@.len() - i,
        {
            self.emit8(opc[i]);
            assert(opc@.subrange(0, i + 1) =~= opc@.subrange(0, i as int).push(opc@[i as int]));
            i = i + 1;
        }
        assert(opc@.subrange(0, opc@.len() as int) =~= opc@);
        self.modrm(3, r, e);
        assert(self.code@ =~= old(self).code@ + enc_rr(opc@, r, e));
    }

    /// An instruction with a register and a frame slot operand.
    fn mem(&mut self, opc: &[u8], r: u8, disp: i32)
        ensures
            final(self).code@ == old(self).code@ + enc_mem(opc@, r, disp),
            final(self).label_pos == old(self).label_pos,
            final(self).patches == old(self).patches,
    {
        self.rex(true, r >= 8, false);
        let mut i: usize = 0;
        let ghost c0 = self.code@;
        while i < opc.len()
            invariant
                i <= opc@.len(),
                self.code@ == c0 + opc@.subrange(0, i as int),
                self.label_pos == old(self).label_pos,
                self.patches == old(self).patches,
            decreases opc@.len() - i,
        {
            self.emit8(opc[i]);
            assert(opc@.subrange(0, i + 1) =~= opc@.subrange(0, i as int).push(opc@[i as int]));
            i = i + 1;
        }
        assert(opc@.subrange(0, opc@.len() as int) =~= opc@);
        self.modrm(2, r, RBP);
        self.emit32(disp);
        assert(self.code@ =~= old(self).code@ + enc_mem(opc@, r, disp));
    }
}

pub open spec fn enc_mov(dst: u8, src: u8) -> Seq<u8> {
    if dst == src {
        Seq::empty()
    } else {
        enc_rr(seq![0x8Bu8], dst, src)
    }
}

pub open spec fn enc_mov32(reg: u8, imm: i32) -> Seq<u8> {
    rex(true, false, reg >= 8) + seq![0xC7u8, modrm(3, 0, reg)] + le32(imm)
}

pub open spec fn enc_mov64(reg: u8, imm: i64) -> Seq<u8> {
    rex(true, false, reg >= 8) + seq![(0xB8 + reg % 8) as u8] + le64(imm)
}

pub open spec fn enc_unary(opc: u8, ext: u8, reg: u8) -> Seq<u8> {
    rex(true, false, reg >= 8) + seq![opc, modrm(3, ext, reg)]
}

pub open spec fn enc_short(base: u8, reg: u8) -> Seq<u8> {
    rex(false, false, reg >= 8) + seq![(base + reg % 8) as u8]
}

impl Emitter {
    /// `mov dst, src` (nothing when they are the same register).
    fn mov(&mut self, dst: u8, src: u8)
        ensures
            final(self).code@ == old(self).code@ + enc_mov(dst, src),
            final(self).label_pos == old(self).label_pos,
            final(self).patches == old(self).patches,
    {
        if dst == src {
            assert(self.code@ =~= old(self).code@ + enc_mov(dst, src));
            return;
        }
        self.rr(&[0x8Bu8], dst, src);
    }

    /// `mov reg, imm32` (sign-extended).
    fn mov32(&mut self, reg: u8, imm: i32)
        ensures
            final(self).code@ == old(self).code@ + enc_mov32(reg, imm),
            final(self).label_pos == old(self).label_pos,
            final(self).patches == old(self).patches,
    {
        self.rex(true, false, reg >= 8);
        self.emit8(0xC7);
        self.modrm(3, 0, reg);
        self.emit32(imm);
        assert(self.code@ =~= old(self).code@ + enc_mov32(reg, imm));
    }

    /// `movabs reg, imm64`.
    fn mov64(&mut self, reg: u8, imm: i64)
        ensures
            final(self).code@ == old(self).code@ + enc_mov64(reg, imm),
            final(self).label_pos == old(self).label_pos,
            final(self).patches == old(self).patches,
    {
        self.rex(true, false, reg >= 8);
        self.emit8(0xB8 + reg % 8);
        self.emit64(imm);
        assert(self.code@ =~= old(self).code@ + enc_mov64(reg, imm));
    }

    /// `mov reg, [rbp + disp]`.
    fn load_rbp(&mut self, reg: u8, disp: i32)
        ensures
            final(self).code@ == old(self).code@ + enc_mem(seq![0x8Bu8], reg, disp),
            final(self).label_pos == old(self).label_pos,
            final(self).patches == old(self).patches,
    {
        self.mem(&[0x8Bu8], reg, disp);
    }

    /// `mov [rbp + disp], reg`.
    fn store_rbp(&mut self, disp: i32, reg: u8)
        ensures
            final(self).code@ == old(self).code@ + enc_mem(seq![0x89u8], reg, disp),
            final(self).label_pos == old(self).label_pos,
            final(self).patches == old(self).patches,
    {
        self.mem(&[0x89u8], reg, disp);
    }

    /// `mov rax, [rax + disp]` (an entry of the function table).
    fn load_rax_idx(&mut self, disp: i32)
        ensures
            final(self).code@ == old(self).code@ + rex(true, false, false) + seq![0x8Bu8, modrm(2, RAX, RAX)]
                + le32(disp),
            final(self).label_pos == old(self).label_pos,
            final(self).patches == old(self).patches,
    {
        self.rex(true, false, false);
        self.emit8(0x8B);
        self.modrm(2, RAX, RAX);
        self.emit32(disp);
        assert(self.code@ =~= old(self).code@ + rex(true, false, false) + seq![0x8Bu8, modrm(2, RAX, RAX)] + le32(disp));
    }

    /// `test reg, reg` (the REX.R bit stays clear).
    fn test(&mut self, reg: u8)
        ensures
            final(self).code@ == old(self).code@ + enc_unary(0x85, reg, reg),
            final(self).label_pos == old(self).label_pos,
            final(self).patches == old(self).patches,
    {
        self.rex(true, false, reg >= 8);
        self.emit8(0x85);
        self.modrm(3, reg, reg);
        assert(self.code@ =~= old(self).code@ + enc_unary(0x85, reg, reg));
    }

    /// `setcc al`.
    fn setcc_al(&mut self, cc: u8)
        requires
            cc < 16,
        ensures
            final(self).code@ == old(self).code@ + seq![0x0Fu8, (0x90 + cc) as u8, 0xC0u8],
            final(self).label_pos == old(self).label_pos,
            final(self).patches == old(self).patches,
    {
        self.emit8(0x0F);
        self.emit8(0x90 + cc);
        self.emit8(0xC0);
        assert(self.code@ =~= old(self).code@ + seq![0x0Fu8, (0x90 + cc) as u8, 0xC0u8]);
    }

    /// `movzx eax, al`.
    fn movzx_al(&mut self)
        ensures
            final(self).code@ == old(self).code@ + seq![0x0Fu8, 0xB6u8, 0xC0u8],
            final(self).label_pos == old(self).label_pos,
            final(self).patches == old(self).patches,
    {
        self.emit8(0x0F);
        self.emit8(0xB6);
        self.emit8(0xC0);
        assert(self.code@ =~= old(self).code@ + seq![0x0Fu8, 0xB6u8, 0xC0u8]);
    }

    /// `cqo`.
    fn cqo(&mut self)
        ensures
            final(self).code@ == old(self).code@ + rex(true, false, false) + seq![0x99u8],
            final(self).label_pos == old(self).label_pos,
            final(self).patches == old(self).patches,
    {
        self.rex(true, false, false);
        self.emit8(0x99);
        assert(self.code@ =~= old(self).code@ + rex(true, false, false) + seq![0x99u8]);
    }

    /// `opc /ext reg` with REX.W: `idiv`, `sub rsp`, `add rsp` and the like.
    fn unary(&mut self, opc: u8, ext: u8, reg: u8)
        requires
            ext < 8,
        ensures
            final(self).code@ == old(self).code@ + enc_unary(opc, ext, reg),
            final(self).label_pos == old(self).label_pos,
            final(self).patches == old(self).patches,
    {
        self.rex(true, false, reg >= 8);
        self.emit8(opc);
        self.modrm(3, ext, reg);
        assert(self.code@ =~= old(self).code@ + enc_unary(opc, ext, reg));
    }

    /// `idiv qword [rbp + disp]`.
    fn idiv_mem(&mut self, disp: i32)
        ensures
            final(self).code@ == old(self).code@ + rex(true, false, false) + seq![0xF7u8, modrm(2, 7, RBP)] + le32(disp),
            final(self).label_pos == old(self).label_pos,
            final(self).patches == old(self).patches,
    {
        self.rex(true, false, false);
        self.emit8(0xF7);
        self.modrm(2, 7, RBP);
        self.emit32(disp);
        assert(self.code@ =~= old(self).code@ + rex(true, false, false) + seq![0xF7u8, modrm(2, 7, RBP)] + le32(disp));
    }

    /// `push reg` (`base` 0x50) or `pop reg` (`base` 0x58).
    fn short(&mut self, base: u8, reg: u8)
        requires
            base == 0x50 || base == 0x58,
        ensures
            final(self).code@ == old(self).code@ + enc_short(base, reg),
            final(self).label_pos == old(self).label_pos,
            final(self).patches == old(self).patches,
    {
        self.rex(false, false, reg >= 8);
        self.emit8(base + reg % 8);
        assert(self.code@ =~= old(self).code@ + enc_short(base, reg));
    }

    /// `sub rsp, imm32` (`ext` 5) or `add rsp, imm32` (`ext` 0).
    fn rsp_imm(&mut self, ext: u8, imm: i32)
        requires
            ext < 8,
        ensures
            final(self).code@ == old(self).code@ + enc_unary(0x81, ext, RSP) + le32(imm),
            final(self).label_pos == old(self).label_pos,
            final(self).patches == old(self).patches,
    {
        self.unary(0x81, ext, RSP);
        self.emit32(imm);
    }

    /// `call reg`.
    fn call_reg(&mut self, reg: u8)
        ensures
            final(self).code@ == old(self).code@ + rex(false, false, reg >= 8) + seq![0xFFu8, modrm(3, 2, reg)],
            final(self).label_pos == old(self).label_pos,
            final(self).patches == old(self).patches,
    {
        self.rex(false, false, reg >= 8);
        self.emit8(0xFF);
        self.modrm(3, 2, reg);
        assert(self.code@ =~= old(self).code@ + rex(false, false, reg >= 8) + seq![0xFFu8, modrm(3, 2, reg)]);
    }

    /// `xor eax, eax`.
    fn xor_eax(&mut self)
        ensures
            final(self).code@ == old(self).code@ + seq![0x31u8, 0xC0u8],
            final(self).label_pos == old(self).label_pos,
            final(self).patches == old(self).patches,
    {
        self.emit8(0x31);
        self.emit8(0xC0);
        assert(self.code@ =~= old(self).code@ + seq![0x31u8, 0xC0u8]);
    }

    /// `ret`.
    fn ret(&mut self)
        ensures
            final(self).code@ == old(self).code@.push(0xC3u8),
            final(self).label_pos == old(self).label_pos,
            final(self).patches == old(self).patches,
    {
        self.emit8(0xC3);
    }
}

// ---------------------------------------------------------------------
// Labels and jumps.
// ---------------------------------------------------------------------

/// The rel32 of a jump whose offset field is at `imm` to `pos`.
pub open spec fn rel(pos: i128, imm: usize) -> i32 {
    (pos - imm - 4) as i32
}

/// `code` with the four bytes at `at` replaced by `v`.
pub open spec fn write32(code: Seq<u8>, at: int, v: i32) -> Seq<u8> {
    code.subrange(0, at) + le32(v) + code.subrange(at + 4, code.len() as int)
}

/// The jumps of `ps` to label `id` filled in with offsets to `pos`, in order.
pub open spec fn fill(code: Seq<u8>, ps: Seq<(usize, u64)>, id: u64, pos: i128) -> Seq<u8>
    decreases ps.len(),
{
    if ps.len() == 0 {
        code
    } else {
        let c = fill(code, ps.drop_last(), id, pos);
        let p = ps.last();
        if p.1 == id {
            write32(c, p.0 as int, rel(pos, p.0))
        } else {
            c
        }
    }
}

/// The pending jumps of `ps` to labels other than `id`.
pub open spec fn others(ps: Seq<(usize, u64)>, id: u64) -> Seq<(usize, u64)>
    decreases ps.len(),
{
    if ps.len() == 0 {
        Seq::empty()
    } else {
        let rest = others(ps.drop_last(), id);
        if ps.last().1 == id {
            rest
        } else {
            rest.push(ps.last())
        }
    }
}

/// Every jump of `ps` has its field within `n` bytes and a label below `m`.
pub open spec fn bounded(ps: Seq<(usize, u64)>, n: int, m: int) -> bool {
    forall|k: int| 0 <= k < ps.len() ==> (#[trigger] ps[k]).0 + 4 <= n && ps[k].1 < m
}

proof fn lemma_others_bounded(ps: Seq<(usize, u64)>, id: u64, n: int, m: int)
    requires
        bounded(ps, n, m),
    ensures
        bounded(others(ps, id), n, m),
    decreases ps.len(),
{
    if ps.len() > 0 {
        assert(bounded(ps.drop_last(), n, m)) by {
            assert forall|k: int| 0 <= k < ps.drop_last().len() implies (#[trigger] ps.drop_last()[k]).0 + 4 <= n
                && ps.drop_last()[k].1 < m by {
                assert(ps.drop_last()[k] == ps[k]);
            }
        }
        lemma_others_bounded(ps.drop_last(), id, n, m);
        assert(ps[ps.len() - 1].0 + 4 <= n);
    }
}

impl Emitter {
    /// Every pending jump has its offset field inside the code and waits
    /// for a label that exists and is not bound yet.
    pub open spec fn wf(&self) -> bool {
        bounded(self.patches@, self.code@.len() as int, self.label_pos@.len() as int)
    }

    /// A new, unbound label.
    fn new_label(&mut self) -> (id: u64)
        ensures
            id == old(self).label_pos@.len(),
            final(self).label_pos@ == old(self).label_pos@.push(-1i128),
            final(self).code == old(self).code,
            final(self).patches == old(self).patches,
    {
        self.label_pos.push(-1);
        (self.label_pos.len() - 1) as u64
    }

    /// Writes a 32-bit value over the four bytes at `at`.
    fn write_at(&mut self, at: usize, v: i32)
        requires
            at + 4 <= old(self).code@.len(),
        ensures
            final(self).code@ == write32(old(self).code@, at as int, v),
            final(self).label_pos == old(self).label_pos,
            final(self).patches == old(self).patches,
    {
        let u = v as u32;
        let n = self.code.len();
        assert(at + 4 <= n);
        self.code.set(at, (u & 0xff) as u8);
        self.code.set(at + 1, ((u >> 8u32) & 0xff) as u8);
        self.code.set(at + 2, ((u >> 16u32) & 0xff) as u8);
        self.code.set(at + 3, ((u >> 24u32) & 0xff) as u8);
        assert(self.code@ =~= write32(old(self).code@, at as int, v));
    }

    /// Binds label `id` here and fills in the jumps waiting for it.
    fn bind_label(&mut self, id: u64)
        requires
            old(self).wf(),
            id < old(self).label_pos@.len(),
        ensures
            final(self).wf(),
            final(self).label_pos@ == old(self).label_pos@.update(id as int, old(self).code@.len() as i128),
            final(self).code@ == fill(old(self).code@, old(self).patches@, id, old(self).code@.len() as i128),
            final(self).patches@ == others(old(self).patches@, id),
    {
        let pos = self.code.len() as i128;
        let nl = self.label_pos.len();
        assert(id < nl);
        assert(id as usize as int == id as int);
        self.label_pos.set(id as usize, pos);
        let ghost ps0 = self.patches@;
        let ghost c0 = self.code@;
        let ghost mut k: int = 0;
        let mut i: usize = 0;
        while i < self.patches.len()
            invariant
                0 <= k <= ps0.len(),
                self.patches@ == others(ps0.subrange(0, k), id) + ps0.subrange(k, ps0.len() as int),
                i == others(ps0.subrange(0, k), id).len(),
                self.code@ == fill(c0, ps0.subrange(0, k), id, pos),
                0 <= pos <= usize::MAX,
                self.code@.len() == c0.len(),
                pos == c0.len() as i128,
                bounded(ps0, c0.len() as int, self.label_pos@.len() as int),
                self.label_pos@ == old(self).label_pos@.update(id as int, pos),
            decreases ps0.len() - k,
        {
            assert(k < ps0.len()) by {
                if k == ps0.len() {
                    assert(ps0.subrange(k, ps0.len() as int).len() == 0);
                }
            }
            let ghost p = ps0[k];
            assert(self.patches@[i as int] == p);
            assert(ps0.subrange(0, k + 1).drop_last() =~= ps0.subrange(0, k));
            assert(ps0.subrange(0, k + 1).last() == p);
            if self.patches[i].1 == id {
                let imm = self.patches[i].0;
                let off = (pos - imm as i128 - 4) as i32;
                self.write_at(imm, off);
                let ghost before = self.patches@;
                self.patches.remove(i);
                assert(self.patches@ =~= others(ps0.subrange(0, k + 1), id) + ps0.subrange(k + 1, ps0.len() as int));
            } else {
                assert(self.patches@ =~= others(ps0.subrange(0, k + 1), id) + ps0.subrange(k + 1, ps0.len() as int));
                i = i + 1;
            }
            proof {
                k = k + 1;
            }
        }
        proof {
            assert(k == ps0.len());
            assert(ps0.subrange(0, ps0.len() as int) =~= ps0);
            assert(self.patches@ =~= others(ps0, id));
            lemma_others_bounded(ps0, id, c0.len() as int, self.label_pos@.len() as int);
        }
    }
}

/// A jump's offset field at `imm` to label `id`: written now when the label
/// is bound, else left pending.
pub open spec fn after_patch(e_code: Seq<u8>, e_ps: Seq<(usize, u64)>, labels: Seq<i128>, imm: int, id: u64) -> (Seq<u8>, Seq<(usize, u64)>) {
    let pos = labels[id as int];
    if pos >= 0 {
        (write32(e_code, imm, rel(pos, imm as usize)), e_ps)
    } else {
        (e_code, e_ps.push((imm as usize, id)))
    }
}

impl Emitter {
    fn patch_here(&mut self, imm: usize, id: u64)
        requires
            old(self).wf(),
            imm + 4 <= old(self).code@.len(),
            id < old(self).label_pos@.len(),
        ensures
            final(self).wf(),
            final(self).label_pos == old(self).label_pos,
            (final(self).code@, final(self).patches@) == after_patch(old(self).code@, old(self).patches@, old(self).label_pos@, imm as int, id),
    {
        let nl = self.label_pos.len();
        assert(id < nl);
        let pos = self.label_pos[id as usize];
        if pos >= 0 {
            let off = (pos - imm as i128 - 4) as i32;
            self.write_at(imm, off);
        } else {
            let ghost ps = self.patches@;
            self.patches.push((imm, id));
            assert(bounded(self.patches@, self.code@.len() as int, self.label_pos@.len() as int)) by {
                assert forall|k: int| 0 <= k < self.patches@.len() implies (#[trigger] self.patches@[k]).0 + 4
                    <= self.code@.len() && self.patches@[k].1 < self.label_pos@.len() by {
                    if k < ps.len() {
                        assert(self.patches@[k] == ps[k]);
                    }
                }
            }
        }
    }

    /// `jmp rel32` to a label.
    fn emit_jmp(&mut self, id: u64)
        requires
            old(self).wf(),
            id < old(self).label_pos@.len(),
        ensures
            final(self).wf(),
            final(self).label_pos == old(self).label_pos,
            (final(self).code@, final(self).patches@) == after_patch(
                old(self).code@ + seq![0xE9u8] + le32(0),
                old(self).patches@,
                old(self).label_pos@,
                old(self).code@.len() + 1int,
                id,
            ),
    {
        self.emit8(0xE9);
        self.emit32(0);
        assert(self.code@ =~= old(self).code@ + seq![0xE9u8] + le32(0));
        let imm = self.code.len() - 4;
        self.patch_here(imm, id);
    }

    /// `jcc rel32` to a label.
    fn emit_jcc(&mut self, id: u64, cc: u8)
        requires
            old(self).wf(),
            id < old(self).label_pos@.len(),
            cc < 16,
        ensures
            final(self).wf(),
            final(self).label_pos == old(self).label_pos,
            (final(self).code@, final(self).patches@) == after_patch(
                old(self).code@ + seq![0x0Fu8, (0x80 + cc) as u8] + le32(0),
                old(self).patches@,
                old(self).label_pos@,
                old(self).code@.len() + 2int,
                id,
            ),
    {
        self.emit8(0x0F);
        self.emit8(0x80 + cc);
        self.emit32(0);
        assert(self.code@ =~= old(self).code@ + seq![0x0Fu8, (0x80 + cc) as u8] + le32(0));
        let imm = self.code.len() - 4;
        self.patch_here(imm, id);
    }
}

// ---------------------------------------------------------------------
// Planning a function: virtual registers and the frame.
// ---------------------------------------------------------------------

/// How far evaluating an expression advances the register counter: two
/// temporaries per operator, one per argument (a string literal passed to
/// `喵叫` is not evaluated). The counter wraps like the `u32` it is.
pub open spec fn cnt_expr(n: NodeView, next: u32) -> u32
    decreases n, 0int,
{
    match n {
        NodeView::Binary { left, right, .. } => cnt_expr(*right, cnt_expr(*left, next.wrapping_add(2))),
        NodeView::Call { name, args, .. } => cnt_args(
            args,
            0,
            name == crate::vm::print_name(),
            next.wrapping_add(args.len() as u32),
        ),
        _ => next,
    }
}

pub open spec fn cnt_args(args: Seq<NodeView>, i: int, print: bool, next: u32) -> u32
    decreases args, args.len() - i,
{
    if i < 0 || i >= args.len() {
        next
    } else if print && args[i] is Str {
        cnt_args(args, i + 1, print, next)
    } else {
        cnt_args(args, i + 1, print, cnt_expr(args[i], next))
    }
}

/// How far a statement advances the counter; with `vars` it also records
/// each `变量` at register `base + counter` (the counter before it).
pub open spec fn cnt_stmt(n: NodeView, next: u32, base: u32, vars: Seq<(Seq<char>, u32)>) -> (u32, Seq<(Seq<char>, u32)>)
    decreases n, 1int,
{
    match n {
        NodeView::Var { name, right, .. } => (
            cnt_expr(*right, next.wrapping_add(1)),
            insert(vars, name, base.wrapping_add(next)),
        ),
        NodeView::Assign { right, .. } => (cnt_expr(*right, next.wrapping_add(1)), vars),
        NodeView::Return { value, .. } => match value {
            Some(v) => (cnt_expr(*v, next.wrapping_add(1)), vars),
            None => (next.wrapping_add(1), vars),
        },
        NodeView::If { cond, then, else_b, .. } => {
            let a = cnt_expr(*cond, next.wrapping_add(1));
            let (b, v1) = cnt_stmt(*then, a, base, vars);
            match else_b {
                Some(e) => cnt_stmt(*e, b, base, v1),
                None => (b, v1),
            }
        },
        NodeView::While { cond, body, .. } => cnt_stmt(*body, cnt_expr(*cond, next.wrapping_add(1)), base, vars),
        NodeView::Block { stmts, .. } => cnt_stmts(stmts, 0, next, base, vars),
        NodeView::Prog { stmts } => cnt_stmts(stmts, 0, next, base, vars),
        _ => (cnt_expr(n, next.wrapping_add(1)), vars),
    }
}

pub open spec fn cnt_stmts(stmts: Seq<NodeView>, i: int, next: u32, base: u32, vars: Seq<(Seq<char>, u32)>) -> (u32, Seq<(Seq<char>, u32)>)
    decreases stmts, stmts.len() - i,
{
    if i < 0 || i >= stmts.len() {
        (next, vars)
    } else {
        let (a, v1) = cnt_stmt(stmts[i], next, base, vars);
        cnt_stmts(stmts, i + 1, a, base, v1)
    }
}

/// Whether the code of a node calls out or divides (then the caller-saved
/// registers get slots in the frame).
pub open spec fn side_effects(n: NodeView) -> bool
    decreases n, 1int,
{
    match n {
        NodeView::Call { .. } => true,
        NodeView::Binary { op, left, right, .. } => op == TokenKind::Slash || op == TokenKind::Percent
            || side_effects(*left) || side_effects(*right),
        NodeView::Var { right, .. } => side_effects(*right),
        NodeView::Assign { target, right, .. } => side_effects(*target) || side_effects(*right),
        NodeView::Return { value, .. } => match value {
            Some(v) => side_effects(*v),
            None => false,
        },
        NodeView::If { cond, then, else_b, .. } => side_effects(*cond) || side_effects(*then) || match else_b {
            Some(e) => side_effects(*e),
            None => false,
        },
        NodeView::While { cond, body, .. } => side_effects(*cond) || side_effects(*body),
        NodeView::Block { stmts, .. } => any_side_effects(stmts, 0),
        NodeView::Prog { stmts } => any_side_effects(stmts, 0),
        _ => false,
    }
}

pub open spec fn any_side_effects(ns: Seq<NodeView>, i: int) -> bool
    decreases ns, ns.len() - i,
{
    if i < 0 || i >= ns.len() {
        false
    } else {
        side_effects(ns[i]) || any_side_effects(ns, i + 1)
    }
}

fn count_expr(n: &Node, next: &mut u32)
    ensures
        *final(next) == cnt_expr(n@, *old(next)),
    decreases n,
{
    match n {
        Node::Binary { left, right, .. } => {
            *next = next.wrapping_add(2);
            count_expr(left, next);
            count_expr(right, next);
        },
        Node::Call { name, args, .. } => {
            let ghost av = nodes_view(args@);
            let print = crate::vm::is_print_name(name);
            *next = next.wrapping_add(args.len() as u32);
            let mut i: usize = 0;
            while i < args.len()
                invariant
                    i <= args@.len(),
                    av == nodes_view(args@),
                    n is Call && n->Call_args == *args,
                    n@ == (NodeView::Call { line: n->Call_line, name: name@, args: av }),
                    print == (name@ == crate::vm::print_name()),
                    cnt_expr(n@, *old(next)) == cnt_args(av, i as int, print, *next),
                decreases args@.len() - i,
            {
                assert(av[i as int] == args@[i as int]@);
                assert(decreases_to!(n => args@[i as int]));
                let skip = print && match &args[i] {
                    Node::Str { .. } => true,
                    _ => false,
                };
                if !skip {
                    count_expr(&args[i], next);
                }
                i = i + 1;
            }
        },
        _ => {},
    }
}

fn side_effects_of(n: &Node) -> (r: bool)
    ensures
        r == side_effects(n@),
    decreases n, 1int,
{
    match n {
        Node::Call { .. } => true,
        Node::Binary { op, left, right, .. } => {
            let d = match op {
                TokenKind::Slash | TokenKind::Percent => true,
                _ => false,
            };
            d || side_effects_of(left) || side_effects_of(right)
        },
        Node::Var { right, .. } => side_effects_of(right),
        Node::Assign { target, right, .. } => side_effects_of(target) || side_effects_of(right),
        Node::Return { value, .. } => match value {
            Some(v) => side_effects_of(v),
            None => false,
        },
        Node::If { cond, then, else_b, .. } => side_effects_of(cond) || side_effects_of(then) || match else_b {
            Some(e) => side_effects_of(e),
            None => false,
        },
        Node::While { cond, body, .. } => side_effects_of(cond) || side_effects_of(body),
        Node::Block { stmts, .. } => any_side_effects_of(n, stmts),
        Node::Prog { stmts } => any_side_effects_of(n, stmts),
        _ => false,
    }
}

fn any_side_effects_of(parent: &Node, ns: &Vec<Node>) -> (r: bool)
    requires
        (parent is Block && parent->Block_stmts == *ns) || (parent is Prog && parent->Prog_stmts == *ns),
    ensures
        r == any_side_effects(nodes_view(ns@), 0),
    decreases parent, 0int,
{
    let ghost sv = nodes_view(ns@);
    let mut i: usize = 0;
    while i < ns.len()
        invariant
            i <= ns@.len(),
            sv == nodes_view(ns@),
            (parent is Block && parent->Block_stmts == *ns) || (parent is Prog && parent->Prog_stmts == *ns),
            any_side_effects(sv, 0) == any_side_effects(sv, i as int),
        decreases ns@.len() - i,
    {
        assert(sv[i as int] == ns@[i as int]@);
        assert(decreases_to!(parent => ns@[i as int]));
        if side_effects_of(&ns[i]) {
            return true;
        }
        i = i + 1;
    }
    false
}

/// The compile plan of a function.
pub struct FnPlan {
    pub param_count: u32,
    /// Variable name to virtual register: parameters 1..=P, then each
    /// `变量` at `P + 1 + counter`.
    pub vars: Vec<(String, u32)>,
    pub max_vreg: u32,
    /// Whether the code calls out or divides.
    pub needs_call: bool,
    /// Per physical register: a callee-saved one the code uses.
    pub callee_saved_used: Vec<bool>,
    /// Bytes pushed by the prologue: the old `rbp` and the callee-saved
    /// registers used.
    pub pushed_bytes: i32,
    /// The frame below them: spill slots, caller-saved slots, alignment.
    pub frame_bytes: i32,
    /// Per physical register: its caller-saved slot offset from `rbp` (0
    /// for none).
    pub save_off: Vec<i32>,
}

/// Statement counting: how far the counter advances over a statement.
fn count_stmt(n: &Node, next: &mut u32)
    ensures
        *final(next) == cnt_stmt(n@, *old(next), 0, Seq::empty()).0,
    decreases n, 1int,
{
    match n {
        Node::Var { right, .. } => {
            *next = next.wrapping_add(1);
            count_expr(right, next);
        },
        Node::Assign { right, .. } => {
            *next = next.wrapping_add(1);
            count_expr(right, next);
        },
        Node::Return { value, .. } => {
            *next = next.wrapping_add(1);
            match value {
                Some(v) => count_expr(v, next),
                None => {},
            }
        },
        Node::If { cond, then, else_b, .. } => {
            *next = next.wrapping_add(1);
            count_expr(cond, next);
            let ghost a = *next;
            count_stmt(then, next);
            match else_b {
                Some(e) => {
                    proof {
                        lemma_cnt_indep(e@, *next, 0, cnt_stmt(then@, a, 0, Seq::empty()).1, 0, Seq::empty());
                    }
                    count_stmt(e, next);
                },
                None => {},
            }
        },
        Node::While { cond, body, .. } => {
            *next = next.wrapping_add(1);
            count_expr(cond, next);
            count_stmt(body, next);
        },
        Node::Block { stmts, .. } => count_stmts(n, stmts, next),
        Node::Prog { stmts } => count_stmts(n, stmts, next),
        _ => {
            *next = next.wrapping_add(1);
            count_expr(n, next);
        },
    }
}

fn count_stmts(parent: &Node, ns: &Vec<Node>, next: &mut u32)
    requires
        (parent is Block && parent->Block_stmts == *ns) || (parent is Prog && parent->Prog_stmts == *ns),
    ensures
        *final(next) == cnt_stmts(nodes_view(ns@), 0, *old(next), 0, Seq::empty()).0,
    decreases parent, 0int,
{
    let ghost sv = nodes_view(ns@);
    let ghost mut vars: Seq<(Seq<char>, u32)> = Seq::empty();
    let mut i: usize = 0;
    while i < ns.len()
        invariant
            i <= ns@.len(),
            sv == nodes_view(ns@),
            (parent is Block && parent->Block_stmts == *ns) || (parent is Prog && parent->Prog_stmts == *ns),
            cnt_stmts(sv, 0, *old(next), 0, Seq::empty()).0 == cnt_stmts(sv, i as int, *next, 0, vars).0,
        decreases ns@.len() - i,
    {
        assert(sv[i as int] == ns@[i as int]@);
        assert(decreases_to!(parent => ns@[i as int]));
        proof {
            lemma_cnt_indep(sv[i as int], *next, 0, vars, 0, Seq::empty());
            lemma_cnt_stmts_indep(sv, i + 1, cnt_stmt(sv[i as int], *next, 0, vars).0, 0, cnt_stmt(sv[i as int], *next, 0, vars).1, 0, cnt_stmt(sv[i as int], *next, 0, Seq::empty()).1);
            vars = cnt_stmt(sv[i as int], *next, 0, Seq::empty()).1;
        }
        count_stmt(&ns[i], next);
        i = i + 1;
    }
}

/// The counter a statement reaches does not depend on the variable table.
proof fn lemma_cnt_indep(n: NodeView, next: u32, b1: u32, v1: Seq<(Seq<char>, u32)>, b2: u32, v2: Seq<(Seq<char>, u32)>)
    ensures
        cnt_stmt(n, next, b1, v1).0 == cnt_stmt(n, next, b2, v2).0,
    decreases n, 1int,
{
    match n {
        NodeView::If { cond, then, else_b, .. } => {
            let a = cnt_expr(*cond, next.wrapping_add(1));
            lemma_cnt_indep(*then, a, b1, v1, b2, v2);
            match else_b {
                Some(e) => {
                    lemma_cnt_indep(*e, cnt_stmt(*then, a, b1, v1).0, b1, cnt_stmt(*then, a, b1, v1).1, b2, cnt_stmt(*then, a, b2, v2).1);
                },
                None => {},
            }
        },
        NodeView::While { cond, body, .. } => {
            lemma_cnt_indep(*body, cnt_expr(*cond, next.wrapping_add(1)), b1, v1, b2, v2);
        },
        NodeView::Block { stmts, .. } => lemma_cnt_stmts_indep(stmts, 0, next, b1, v1, b2, v2),
        NodeView::Prog { stmts } => lemma_cnt_stmts_indep(stmts, 0, next, b1, v1, b2, v2),
        _ => {},
    }
}

proof fn lemma_cnt_stmts_indep(
    stmts: Seq<NodeView>,
    i: int,
    next: u32,
    b1: u32,
    v1: Seq<(Seq<char>, u32)>,
    b2: u32,
    v2: Seq<(Seq<char>, u32)>,
)
    ensures
        cnt_stmts(stmts, i, next, b1, v1).0 == cnt_stmts(stmts, i, next, b2, v2).0,
    decreases stmts, stmts.len() - i,
{
    if 0 <= i < stmts.len() {
        lemma_cnt_indep(stmts[i], next, b1, v1, b2, v2);
        let (a, w1) = cnt_stmt(stmts[i], next, b1, v1);
        let w2 = cnt_stmt(stmts[i], next, b2, v2).1;
        lemma_cnt_stmts_indep(stmts, i + 1, a, b1, w1, b2, w2);
    }
}

/// Statement walk that records the `变量` registers in the plan.
fn build_vars(n: &Node, next: &mut u32, plan: &mut FnPlan)
    ensures
        (*final(next), table_view(final(plan).vars@)) == cnt_stmt(
            n@,
            *old(next),
            old(plan).param_count.wrapping_add(1),
            table_view(old(plan).vars@),
        ),
        final(plan).param_count == old(plan).param_count,
    decreases n, 1int,
{
    match n {
        Node::Var { name, right, .. } => {
            let r = plan.param_count.wrapping_add(1).wrapping_add(*next);
            crate::vm::table_insert(&mut plan.vars, name.clone(), r);
            *next = next.wrapping_add(1);
            count_expr(right, next);
        },
        Node::Assign { right, .. } => {
            *next = next.wrapping_add(1);
            count_expr(right, next);
        },
        Node::Return { value, .. } => {
            *next = next.wrapping_add(1);
            match value {
                Some(v) => count_expr(v, next),
                None => {},
            }
        },
        Node::If { cond, then, else_b, .. } => {
            *next = next.wrapping_add(1);
            count_expr(cond, next);
            build_vars(then, next, plan);
            match else_b {
                Some(e) => build_vars(e, next, plan),
                None => {},
            }
        },
        Node::While { cond, body, .. } => {
            *next = next.wrapping_add(1);
            count_expr(cond, next);
            build_vars(body, next, plan);
        },
        Node::Block { stmts, .. } => build_vars_list(n, stmts, next, plan),
        Node::Prog { stmts } => build_vars_list(n, stmts, next, plan),
        _ => {
            *next = next.wrapping_add(1);
            count_expr(n, next);
        },
    }
}

fn build_vars_list(parent: &Node, ns: &Vec<Node>, next: &mut u32, plan: &mut FnPlan)
    requires
        (parent is Block && parent->Block_stmts == *ns) || (parent is Prog && parent->Prog_stmts == *ns),
    ensures
        (*final(next), table_view(final(plan).vars@)) == cnt_stmts(
            nodes_view(ns@),
            0,
            *old(next),
            old(plan).param_count.wrapping_add(1),
            table_view(old(plan).vars@),
        ),
        final(plan).param_count == old(plan).param_count,
    decreases parent, 0int,
{
    let ghost sv = nodes_view(ns@);
    let ghost base = plan.param_count.wrapping_add(1);
    let mut i: usize = 0;
    while i < ns.len()
        invariant
            i <= ns@.len(),
            sv == nodes_view(ns@),
            (parent is Block && parent->Block_stmts == *ns) || (parent is Prog && parent->Prog_stmts == *ns),
            plan.param_count == old(plan).param_count,
            base == plan.param_count.wrapping_add(1),
            cnt_stmts(sv, 0, *old(next), base, table_view(old(plan).vars@)) == cnt_stmts(
                sv,
                i as int,
                *next,
                base,
                table_view(plan.vars@),
            ),
        decreases ns@.len() - i,
    {
        assert(sv[i as int] == ns@[i as int]@);
        assert(decreases_to!(parent => ns@[i as int]));
        build_vars(&ns[i], next, plan);
        i = i + 1;
    }
}

/// The plan, abstractly.
pub struct PlanView {
    pub param_count: u32,
    pub vars: Seq<(Seq<char>, u32)>,
    pub max_vreg: u32,
    pub needs_call: bool,
    pub callee_saved_used: Seq<bool>,
    pub pushed_bytes: i32,
    pub frame_bytes: i32,
    pub save_off: Seq<i32>,
}

impl View for FnPlan {
    type V = PlanView;

    open spec fn view(&self) -> PlanView {
        PlanView {
            param_count: self.param_count,
            vars: table_view(self.vars@),
            max_vreg: self.max_vreg,
            needs_call: self.needs_call,
            callee_saved_used: self.callee_saved_used@,
            pushed_bytes: self.pushed_bytes,
            frame_bytes: self.frame_bytes,
            save_off: self.save_off@,
        }
    }
}

/// Parameter `k` (from 0) in virtual register `k + 1`; a repeated name keeps
/// its last register.
pub open spec fn arg_slots(params: Seq<Seq<char>>, n: int) -> Seq<(Seq<char>, u32)>
    decreases n,
{
    if n <= 0 || n > params.len() {
        Seq::empty()
    } else {
        insert(arg_slots(params, n - 1), params[n - 1], n as u32)
    }
}

/// The callee-saved registers that virtual registers 1..=max map to: rbx,
/// r12, r13, r14, r15 for registers 1 to 5.
pub open spec fn callee_saved_reg(r: int, max: u32) -> bool {
    (r == 3 && max >= 1) || (r == 12 && max >= 2) || (r == 13 && max >= 3) || (r == 14 && max >= 4) || (r == 15
        && max >= 5)
}

/// The slot index of a caller-saved register: rsi, rdi, rdx, rcx, r8..r11.
pub open spec fn save_index(r: int) -> int {
    if r == 6 {
        0
    } else if r == 7 {
        1
    } else if r == 2 {
        2
    } else if r == 1 {
        3
    } else if 8 <= r <= 11 {
        r - 4
    } else {
        -1
    }
}

/// The largest number of spill slots a frame is planned for: with the
/// pushed registers (at most 48 bytes), the caller-saved slots (64 bytes)
/// and 8 bytes of alignment, a frame of this many 8-byte slots still fits
/// the 32-bit frame arithmetic (8 * 268435440 + 120 < 2^31); one slot more
/// would overflow it.
pub const MAX_SPILL: u32 = 268435440;

/// The plan of a function: none when it has more than six parameters, is
/// not VM-able, or needs more spill slots than 32-bit frame arithmetic
/// holds; otherwise its registers and a frame that keeps the stack
/// 16-byte aligned at calls (pushed plus frame bytes is 8 modulo 16).
pub open spec fn plan_spec(params: Seq<Seq<char>>, body: NodeView) -> Option<PlanView> {
    if params.len() > JIT_MAX_PARAMS || crate::vm::sc_function(params, body) is None {
        None
    } else {
        let pc = params.len() as u32;
        let cnext = cnt_stmt(body, 0, 0, Seq::empty()).0;
        let max = if cnext > 0 { pc.wrapping_add(cnext) } else { pc };
        let npushed: int = if max >= 5 { 5 } else { max as int };
        let pushed = 8 + 8 * npushed;
        let spill: int = if max >= SPILL_VREG { max - 13 } else { 0 };
        if spill > MAX_SPILL as int {
            None
        } else {
            let needs = side_effects(body);
            let frame0 = 8 * spill + if needs { 64int } else { 0int };
            let frame = if (pushed + frame0) % 16 == 8 { frame0 } else { frame0 + 8 };
            Some(
                PlanView {
                    param_count: pc,
                    vars: cnt_stmt(body, 0, (pc + 1) as u32, arg_slots(params, params.len() as int)).1,
                    max_vreg: max,
                    needs_call: needs,
                    callee_saved_used: Seq::new(16, |r: int| callee_saved_reg(r, max)),
                    pushed_bytes: pushed as i32,
                    frame_bytes: frame as i32,
                    save_off: Seq::new(
                        16,
                        |r: int|
                            if needs && save_index(r) >= 0 {
                                (-(pushed + 8 * spill + 8 * save_index(r))) as i32
                            } else {
                                0i32
                            },
                    ),
                },
            )
        }
    }
}

fn save_index_of(r: usize) -> (i: Option<i32>)
    ensures
        match i {
            Some(k) => save_index(r as int) == k && 0 <= k <= 7,
            None => save_index(r as int) == -1,
        },
{
    if r == 6 {
        Some(0)
    } else if r == 7 {
        Some(1)
    } else if r == 2 {
        Some(2)
    } else if r == 1 {
        Some(3)
    } else if 8 <= r && r <= 11 {
        Some((r - 4) as i32)
    } else {
        None
    }
}

/// Plans a function: VM-able with at most six parameters, its variables'
/// registers, and its frame layout.
pub fn plan_function(params: &Vec<String>, body: &Node) -> (r: Option<FnPlan>)
    ensures
        match r {
            Some(p) => plan_spec(crate::vm::names_view(params@), body@) == Some(p@),
            None => plan_spec(crate::vm::names_view(params@), body@) is None,
        },
{
    let ghost pv = crate::vm::names_view(params@);
    if params.len() > JIT_MAX_PARAMS {
        return None;
    }
    if crate::vm::scan_function(params, body).is_none() {
        return None;
    }
    let pc = params.len() as u32;
    let mut vars: Vec<(String, u32)> = Vec::new();
    let mut i: usize = 0;
    while i < params.len()
        invariant
            i <= params@.len() <= 6,
            pv == crate::vm::names_view(params@),
            table_view(vars@) == arg_slots(pv, i as int),
        decreases params@.len() - i,
    {
        crate::vm::table_insert(&mut vars, params[i].clone(), (i + 1) as u32);
        i = i + 1;
    }
    let mut plan = FnPlan {
        param_count: pc,
        vars,
        max_vreg: 0,
        needs_call: false,
        callee_saved_used: Vec::new(),
        pushed_bytes: 0,
        frame_bytes: 0,
        save_off: Vec::new(),
    };
    let mut next: u32 = 0;
    build_vars(body, &mut next, &mut plan);
    let mut cnext: u32 = 0;
    count_stmt(body, &mut cnext);
    let max_vreg = if cnext > 0 { pc.wrapping_add(cnext) } else { pc };
    let npushed: i32 = if max_vreg >= 5 { 5 } else { max_vreg as i32 };
    let pushed: i32 = 8 + 8 * npushed;
    let spill: u32 = if max_vreg >= SPILL_VREG { max_vreg - 13 } else { 0 };
    if spill > MAX_SPILL {
        return None;
    }
    let needs = side_effects_of(body);
    let mut used: Vec<bool> = Vec::new();
    let mut save_off: Vec<i32> = Vec::new();
    let mut r: usize = 0;
    while r < 16
        invariant
            r <= 16,
            used@ == Seq::new(r as nat, |k: int| callee_saved_reg(k, max_vreg)),
            save_off@ == Seq::new(
                r as nat,
                |k: int|
                    if needs && save_index(k) >= 0 {
                        (-(pushed + 8 * spill + 8 * save_index(k))) as i32
                    } else {
                        0i32
                    },
            ),
            0 <= spill <= MAX_SPILL,
            8 <= pushed <= 48,
        decreases 16 - r,
    {
        let c = (r == 3 && max_vreg >= 1) || (r == 12 && max_vreg >= 2) || (r == 13 && max_vreg >= 3) || (r == 14
            && max_vreg >= 4) || (r == 15 && max_vreg >= 5);
        used.push(c);
        let off: i32 = match save_index_of(r) {
            Some(k) => if needs {
                -(pushed + 8 * (spill as i32) + 8 * k)
            } else {
                0
            },
            None => 0,
        };
        save_off.push(off);
        r = r + 1;
        assert(used@ =~= Seq::new(r as nat, |k: int| callee_saved_reg(k, max_vreg)));
        assert(save_off@ =~= Seq::new(
            r as nat,
            |k: int|
                if needs && save_index(k) >= 0 {
                    (-(pushed + 8 * spill + 8 * save_index(k))) as i32
                } else {
                    0i32
                },
        ));
    }
    let frame0: i32 = 8 * (spill as i32) + if needs { 64 } else { 0 };
    let mut frame = frame0;
    while (pushed + frame) % 16 != 8
        invariant
            frame == frame0 || (frame == frame0 + 8 && (pushed + frame0) % 16 == 0),
            0 <= frame0 <= 8 * MAX_SPILL + 64,
            8 <= pushed <= 48,
            (pushed + frame0) % 8 == 0,
        decreases frame0 + 8 - frame,
    {
        frame = frame + 8;
    }
    plan.max_vreg = max_vreg;
    plan.needs_call = needs;
    plan.callee_saved_used = used;
    plan.pushed_bytes = pushed;
    plan.frame_bytes = frame;
    plan.save_off = save_off;
    Some(plan)
}

// ---------------------------------------------------------------------
// Code generation.
// ---------------------------------------------------------------------

/// The physical register of a virtual register below the spill limit.
pub open spec fn vreg_phys(v: u32) -> u8 {
    if v == 0 {
        RAX
    } else if v == 1 {
        RBX
    } else if v == 2 {
        R12
    } else if v == 3 {
        R13
    } else if v == 4 {
        R14
    } else if v == 5 {
        R15
    } else if v == 6 {
        RSI
    } else if v == 7 {
        RDI
    } else if v == 8 {
        RDX
    } else if v == 9 {
        RCX
    } else if v == 10 {
        R8
    } else if v == 11 {
        R9
    } else if v == 12 {
        R10
    } else {
        R11
    }
}

/// The argument registers: rdi, rsi, rdx, rcx, r8, r9.
pub open spec fn arg_reg(i: int) -> u8 {
    if i == 0 {
        RDI
    } else if i == 1 {
        RSI
    } else if i == 2 {
        RDX
    } else if i == 3 {
        RCX
    } else if i == 4 {
        R8
    } else {
        R9
    }
}

fn phys(v: u32) -> (r: Option<u8>)
    ensures
        v < SPILL_VREG ==> r == Some(vreg_phys(v)),
        v >= SPILL_VREG ==> r is None,
{
    if v >= SPILL_VREG {
        None
    } else if v == 0 {
        Some(RAX)
    } else if v == 1 {
        Some(RBX)
    } else if v == 2 {
        Some(R12)
    } else if v == 3 {
        Some(R13)
    } else if v == 4 {
        Some(R14)
    } else if v == 5 {
        Some(R15)
    } else if v == 6 {
        Some(RSI)
    } else if v == 7 {
        Some(RDI)
    } else if v == 8 {
        Some(RDX)
    } else if v == 9 {
        Some(RCX)
    } else if v == 10 {
        Some(R8)
    } else if v == 11 {
        Some(R9)
    } else if v == 12 {
        Some(R10)
    } else {
        Some(R11)
    }
}

fn arg_reg_of(i: usize) -> (r: u8)
    ensures
        r == arg_reg(i as int),
{
    if i == 0 {
        RDI
    } else if i == 1 {
        RSI
    } else if i == 2 {
        RDX
    } else if i == 3 {
        RCX
    } else if i == 4 {
        R8
    } else {
        R9
    }
}

/// The frame slot of a spilled virtual register: below the pushed
/// registers, 8 bytes each.
pub open spec fn spill_off(pushed: i32, v: u32) -> i32 {
    (0i32).wrapping_sub(pushed.wrapping_add((v as i32).wrapping_sub(14).wrapping_mul(8)))
}

fn spill_off_of(plan: &FnPlan, v: u32) -> (o: i32)
    ensures
        o == spill_off(plan.pushed_bytes, v),
{
    (0i32).wrapping_sub(plan.pushed_bytes.wrapping_add((v as i32).wrapping_sub(14).wrapping_mul(8)))
}

/// The state shared by the functions being compiled: the data buffer, the
/// addresses, the indices of the compiled functions and the code so far.
pub struct JitState {
    pub data: Vec<u8>,
    pub layout: JitLayout,
    pub table_idx: Vec<(String, usize)>,
    pub code: Vec<u8>,
}

/// The end of the NUL-terminated entry that starts at `i`.
pub open spec fn entry_end(data: Seq<u8>, i: int) -> int
    decreases data.len() - i,
{
    if i < 0 {
        0
    } else if i >= data.len() {
        data.len() as int
    } else if data[i] == 0 {
        i
    } else {
        entry_end(data, i + 1)
    }
}

/// The start of the first entry from `base` on that holds `t`, or -1.
pub open spec fn find_lit(data: Seq<u8>, t: Seq<u8>, base: int) -> int
    decreases data.len() - base,
{
    if base < 0 || base >= data.len() {
        -1
    } else {
        let end = entry_end(data, base);
        proof {
            lemma_entry_end(data, base);
        }
        if data.subrange(base, end) == t {
            base
        } else if end >= data.len() {
            -1
        } else {
            find_lit(data, t, end + 1)
        }
    }
}

pub proof fn lemma_entry_end(data: Seq<u8>, i: int)
    requires
        0 <= i <= data.len(),
    ensures
        i <= entry_end(data, i) <= data.len(),
    decreases data.len() - i,
{
    if i < data.len() && data[i] != 0 {
        lemma_entry_end(data, i + 1);
    }
}

/// The address of a literal's bytes in the data buffer: an equal entry
/// already there, else the bytes appended with a terminating NUL.
fn lit_addr(jit: &mut JitState, t: &[u8]) -> (a: i64)
    ensures
        ({
            let f = find_lit(old(jit).data@, t@, 0);
            if f >= 0 {
                &&& final(jit).data@ == old(jit).data@
                &&& a == old(jit).layout.data_base.wrapping_add(f as usize) as i64
            } else {
                &&& final(jit).data@ == old(jit).data@ + t@ + seq![0u8]
                &&& a == old(jit).layout.data_base.wrapping_add(old(jit).data@.len() as usize) as i64
            }
        }),
        final(jit).layout == old(jit).layout,
        final(jit).table_idx == old(jit).table_idx,
        final(jit).code == old(jit).code,
{
    let ghost d = jit.data@;
    let mut base: usize = 0;
    while base < jit.data.len()
        invariant
            jit.data@ == d,
            base <= d.len(),
            find_lit(d, t@, 0) == find_lit(d, t@, base as int),
            jit.layout == old(jit).layout,
            jit.table_idx == old(jit).table_idx,
            jit.code == old(jit).code,
        decreases d.len() - base,
    {
        let mut end = base;
        while end < jit.data.len() && jit.data[end] != 0
            invariant
                jit.data@ == d,
                base <= end <= d.len(),
                entry_end(d, base as int) == entry_end(d, end as int),
            decreases d.len() - end,
        {
            end = end + 1;
        }
        let mut same = end - base == t.len();
        let mut k: usize = 0;
        while same && k < t.len()
            invariant
                jit.data@ == d,
                base <= end <= d.len(),
                end - base == t@.len() || !same,
                k <= t@.len(),
                same ==> forall|j: int| 0 <= j < k ==> d[base + j] == t@[j],
                !same ==> d.subrange(base as int, end as int) != t@,
            decreases t@.len() - k + if same { 1int } else { 0int },
        {
            assert(base + k < end);
        if jit.data[base + k] != t[k] {
                same = false;
                assert(d.subrange(base as int, end as int)[k as int] != t@[k as int]);
            } else {
                k = k + 1;
            }
        }
        if same {
            assert(d.subrange(base as int, end as int) =~= t@);
            return jit.layout.data_base.wrapping_add(base) as i64;
        }
        if end < jit.data.len() {
            base = end + 1;
        } else {
            base = end;
        }
    }
    let off = jit.data.len();
    let mut i: usize = 0;
    while i < t.len()
        invariant
            i <= t@.len(),
            jit.data@ == d + t@.subrange(0, i as int),
            off == d.len(),
            jit.layout == old(jit).layout,
            jit.table_idx == old(jit).table_idx,
            jit.code == old(jit).code,
        decreases t@.len() - i,
    {
        jit.data.push(t[i]);
        assert(t@.subrange(0, i + 1) =~= t@.subrange(0, i as int).push(t@[i as int]));
        i = i + 1;
    }
    jit.data.push(0);
    assert(t@.subrange(0, t@.len() as int) =~= t@);
    assert(jit.data@ =~= d + t@ + seq![0u8]);
    jit.layout.data_base.wrapping_add(off) as i64
}

/// The code that loads virtual register `v` into `dst`.
pub open spec fn vreg_load(pushed: i32, dst: u8, v: u32) -> Seq<u8> {
    if v >= SPILL_VREG {
        enc_mem(seq![0x8Bu8], dst, spill_off(pushed, v))
    } else {
        enc_mov(dst, vreg_phys(v))
    }
}

/// The code that stores `src` into virtual register `v`.
pub open spec fn vreg_store(pushed: i32, v: u32, src: u8) -> Seq<u8> {
    if v >= SPILL_VREG {
        enc_mem(seq![0x89u8], src, spill_off(pushed, v))
    } else {
        enc_mov(vreg_phys(v), src)
    }
}

/// The caller-saved frame slot of a register (0 for none).
pub open spec fn save_slot_of(save: Seq<i32>, reg: u8) -> i32 {
    if (reg as int) < save.len() {
        save[reg as int]
    } else {
        0
    }
}

/// The caller-saved registers in save order: rsi, rdi, rdx, rcx, r8..r11.
pub open spec fn caller_saved(i: int) -> u8 {
    if i == 0 {
        RSI
    } else if i == 1 {
        RDI
    } else if i == 2 {
        RDX
    } else if i == 3 {
        RCX
    } else if i == 4 {
        R8
    } else if i == 5 {
        R9
    } else if i == 6 {
        R10
    } else {
        R11
    }
}

fn caller_saved_of(i: usize) -> (r: u8)
    ensures
        r == caller_saved(i as int),
{
    if i == 0 {
        RSI
    } else if i == 1 {
        RDI
    } else if i == 2 {
        RDX
    } else if i == 3 {
        RCX
    } else if i == 4 {
        R8
    } else if i == 5 {
        R9
    } else if i == 6 {
        R10
    } else {
        R11
    }
}

/// The code that saves the first `i` caller-saved registers into their
/// slots.
pub open spec fn save_code(save: Seq<i32>, i: int) -> Seq<u8>
    decreases i,
{
    if i <= 0 {
        Seq::empty()
    } else {
        save_code(save, i - 1) + enc_mem(seq![0x89u8], caller_saved(i - 1), save_slot_of(save, caller_saved(i - 1)))
    }
}

/// The code that restores the caller-saved registers from the last down to
/// the `i`-th.
pub open spec fn restore_code(save: Seq<i32>, i: int) -> Seq<u8>
    decreases 8 - i,
{
    if i >= 8 {
        Seq::empty()
    } else {
        restore_code(save, i + 1) + enc_mem(seq![0x8Bu8], caller_saved(i), save_slot_of(save, caller_saved(i)))
    }
}

/// The code that loads an argument from virtual register `v` into `dst`: a
/// caller-saved source is read from its slot.
pub open spec fn arg_load(pushed: i32, save: Seq<i32>, dst: u8, v: u32) -> Seq<u8> {
    if v >= SPILL_VREG {
        enc_mem(seq![0x8Bu8], dst, spill_off(pushed, v))
    } else if save_slot_of(save, vreg_phys(v)) != 0 {
        enc_mem(seq![0x8Bu8], dst, save_slot_of(save, vreg_phys(v)))
    } else {
        enc_mov(dst, vreg_phys(v))
    }
}

/// The opcode of an arithmetic operator with a register or memory source.
pub open spec fn arith_opc(op: TokenKind) -> Seq<u8> {
    match op {
        TokenKind::Plus => seq![0x03u8],
        TokenKind::Minus => seq![0x2Bu8],
        _ => seq![0x0Fu8, 0xAFu8],
    }
}

/// The condition code of a comparison.
pub open spec fn cond_code(op: TokenKind) -> u8 {
    match op {
        TokenKind::Eqeq => JCC_E,
        TokenKind::Neq => JCC_NE,
        TokenKind::Lt => JCC_L,
        TokenKind::Le => JCC_LE,
        TokenKind::Gt => JCC_G,
        _ => JCC_GE,
    }
}

/// The code of `lt op rt` into `dst`: the left operand in rax, the
/// operation with the right operand from its register or slot, the result
/// stored; division and remainder save the caller-saved registers around
/// `cqo; idiv`; comparisons `cmp`, `setcc al`, `movzx eax, al`.
pub open spec fn binop_code(pushed: i32, save: Seq<i32>, op: TokenKind, lt: u32, rt: u32, dst: u32) -> Seq<u8> {
    let right_spilled = rt >= SPILL_VREG;
    let off = spill_off(pushed, rt);
    match op {
        TokenKind::Plus | TokenKind::Minus | TokenKind::Star => vreg_load(pushed, RAX, lt) + (if right_spilled {
            enc_mem(arith_opc(op), RAX, off)
        } else {
            enc_rr(arith_opc(op), RAX, vreg_phys(rt))
        }) + vreg_store(pushed, dst, RAX),
        TokenKind::Slash | TokenKind::Percent => save_code(save, 8) + vreg_load(pushed, RAX, lt) + rex(true, false, false)
            + seq![0x99u8] + (if right_spilled {
            rex(true, false, false) + seq![0xF7u8, modrm(2, 7, RBP)] + le32(off)
        } else {
            enc_unary(0xF7, 7, vreg_phys(rt))
        }) + (if op == TokenKind::Percent {
            enc_mov(RAX, RDX)
        } else {
            Seq::empty()
        }) + restore_code(save, 0) + vreg_store(pushed, dst, RAX),
        TokenKind::Eqeq | TokenKind::Neq | TokenKind::Lt | TokenKind::Le | TokenKind::Gt | TokenKind::Ge => vreg_load(
            pushed,
            RAX,
            lt,
        ) + (if right_spilled {
            enc_mem(seq![0x3Bu8], RAX, off)
        } else if vreg_phys(rt) != RAX {
            enc_rr(seq![0x3Bu8], RAX, vreg_phys(rt))
        } else {
            Seq::empty()
        }) + seq![0x0Fu8, (0x90 + cond_code(op)) as u8, 0xC0u8] + seq![0x0Fu8, 0xB6u8, 0xC0u8] + vreg_store(pushed, dst, RAX),
        _ => Seq::empty(),
    }
}

/// What the code of an expression depends on besides the expression: the
/// plan's frame (pushed bytes, caller-saved slots, variable registers), the
/// entry-table indices of the compiled functions, the addresses and the
/// number of parameters.
pub struct GenCtx {
    pub pushed: i32,
    pub save: Seq<i32>,
    pub vars: Seq<(Seq<char>, u32)>,
    pub tbl: Seq<(Seq<char>, usize)>,
    pub layout: JitLayout,
    pub pc: u32,
}

/// The register an expression is evaluated in: its own, or rax for a
/// spilled one.
pub open spec fn reg_of(v: u32) -> u8 {
    if v >= SPILL_VREG {
        RAX
    } else {
        vreg_phys(v)
    }
}

/// For a spilled register, the store of `reg` into its slot.
pub open spec fn spill_store(pushed: i32, v: u32, reg: u8) -> Seq<u8> {
    if v >= SPILL_VREG {
        enc_mem(seq![0x89u8], reg, spill_off(pushed, v))
    } else {
        Seq::empty()
    }
}

/// The load of a constant: the sign-extended 32-bit form where it fits.
pub open spec fn imm_code(reg: u8, num: i64) -> Seq<u8> {
    if i32::MIN <= num <= i32::MAX {
        enc_mov32(reg, num as i32)
    } else {
        enc_mov64(reg, num)
    }
}

/// `call reg`.
pub open spec fn call_code(reg: u8) -> Seq<u8> {
    rex(false, false, reg >= 8) + seq![0xFFu8, modrm(3, 2, reg)]
}

/// The address of a literal and the data buffer after interning it.
pub open spec fn lit(d: Seq<u8>, base: usize, t: Seq<u8>) -> (i64, Seq<u8>) {
    let f = find_lit(d, t, 0);
    if f >= 0 {
        (base.wrapping_add(f as usize) as i64, d)
    } else {
        (base.wrapping_add(d.len() as usize) as i64, d + t + seq![0u8])
    }
}

/// The register of argument `k` of a call evaluated at counter `next`.
pub open spec fn arg_v(next: u32, k: int, pc: u32) -> u32 {
    next.wrapping_add(k as u32).wrapping_add(pc.wrapping_add(1))
}

/// The code of an expression evaluated into `dst` with the counter at
/// `next`, and the data buffer after it (string literals of `喵叫` are
/// interned there).
pub open spec fn expr_gen(n: NodeView, dst: u32, next: u32, d: Seq<u8>, cx: GenCtx) -> (Seq<u8>, Seq<u8>)
    decreases n, 0int,
{
    let reg = reg_of(dst);
    match n {
        NodeView::Num { num, .. } => (imm_code(reg, num) + spill_store(cx.pushed, dst, reg), d),
        NodeView::Ident { name, .. } => match lookup(cx.vars, name) {
            Some(v) => (vreg_load(cx.pushed, reg, v) + spill_store(cx.pushed, dst, reg), d),
            None => (Seq::empty(), d),
        },
        NodeView::Binary { op, left, right, .. } => {
            let lt = next.wrapping_add(cx.pc.wrapping_add(1));
            let rt = next.wrapping_add(1).wrapping_add(cx.pc.wrapping_add(1));
            let n2 = next.wrapping_add(2);
            let (c1, d1) = expr_gen(*left, lt, n2, d, cx);
            let (c2, d2) = expr_gen(*right, rt, cnt_expr(*left, n2), d1, cx);
            (c1 + c2 + binop_code(cx.pushed, cx.save, op, lt, rt, dst), d2)
        },
        NodeView::Call { name, args, .. } => {
            let print = name == crate::vm::print_name();
            let vs = Seq::new(args.len(), |k: int| arg_v(next, k, cx.pc));
            let (c1, d1) = args_gen(args, 0, print, vs, next.wrapping_add(args.len() as u32), d, cx);
            let (c2, d2) = call_gen(name, args, vs, dst, d1, cx);
            (c1 + c2, d2)
        },
        _ => (Seq::empty(), d),
    }
}

/// The code evaluating the arguments from the `i`-th on into their
/// registers `vs`, the counter at `cur`; a string literal passed to `喵叫`
/// is loaded as its address.
pub open spec fn args_gen(
    args: Seq<NodeView>,
    i: int,
    print: bool,
    vs: Seq<u32>,
    cur: u32,
    d: Seq<u8>,
    cx: GenCtx,
) -> (Seq<u8>, Seq<u8>)
    decreases args, args.len() - i,
{
    if i < 0 || i >= args.len() {
        (Seq::empty(), d)
    } else if print && args[i] is Str {
        let v = vs[i];
        let (a, d1) = lit(d, cx.layout.data_base, vstd::utf8::encode_utf8(args[i]->Str_text));
        let c = enc_mov64(reg_of(v), a) + spill_store(cx.pushed, v, reg_of(v));
        let (rest, d2) = args_gen(args, i + 1, print, vs, cur, d1, cx);
        (c + rest, d2)
    } else {
        let (c, d1) = expr_gen(args[i], vs[i], cur, d, cx);
        let (rest, d2) = args_gen(args, i + 1, print, vs, cnt_expr(args[i], cur), d1, cx);
        (c + rest, d2)
    }
}

/// The printing of argument `i` of `喵叫`: formatted (a literal by its
/// address, a number through the formatting helper), then printed with a
/// space after it, or a newline after the last; the caller-saved registers
/// are reloaded after the call.
pub open spec fn print_item(args: Seq<NodeView>, i: int, vs: Seq<u32>, d: Seq<u8>, cx: GenCtx) -> (Seq<u8>, Seq<u8>) {
    let lay = cx.layout;
    let (first, d1) = if args[i] is Str {
        let (a, d1) = lit(d, lay.data_base, vstd::utf8::encode_utf8(args[i]->Str_text));
        (enc_mov64(RDI, a), d1)
    } else {
        (arg_load(cx.pushed, cx.save, RDI, vs[i]) + enc_mov64(RSI, lay.scratch_addr as i64) + enc_mov64(
            RAX,
            lay.itoa_addr as i64,
        ) + call_code(RAX) + enc_mov64(RDI, lay.scratch_addr as i64), d)
    };
    let endl = if i == args.len() - 1 {
        lay.newline_addr as i64
    } else {
        lay.space_addr as i64
    };
    (first + enc_mov64(RSI, endl) + enc_mov64(RAX, lay.print_addr as i64) + call_code(RAX) + restore_code(cx.save, 0), d1)
}

/// The printing of the arguments of `喵叫` from the `i`-th on.
pub open spec fn print_gen(args: Seq<NodeView>, i: int, vs: Seq<u32>, d: Seq<u8>, cx: GenCtx) -> (Seq<u8>, Seq<u8>)
    decreases args.len() - i,
{
    if i < 0 || i >= args.len() {
        (Seq::empty(), d)
    } else {
        let (c, d1) = print_item(args, i, vs, d, cx);
        let (rest, d2) = print_gen(args, i + 1, vs, d1, cx);
        (c + rest, d2)
    }
}

/// The loads of the arguments of a user call from the `i`-th on into the
/// argument registers (those past the sixth have none).
pub open spec fn user_args_gen(n: int, i: int, vs: Seq<u32>, cx: GenCtx) -> Seq<u8>
    decreases n - i,
{
    if i < 0 || i >= n {
        Seq::empty()
    } else {
        (if i >= JIT_MAX_PARAMS {
            Seq::empty()
        } else {
            arg_load(cx.pushed, cx.save, arg_reg(i), vs[i])
        }) + user_args_gen(n, i + 1, vs, cx)
    }
}

/// The code of the call itself, once the arguments are in `vs`: `喵叫`
/// saves the caller-saved registers and prints each argument, then gives
/// 0; a user function is called through its entry in the table with the
/// arguments in the argument registers, and its result stored.
pub open spec fn call_gen(name: Seq<char>, args: Seq<NodeView>, vs: Seq<u32>, dst: u32, d: Seq<u8>, cx: GenCtx) -> (Seq<u8>, Seq<u8>) {
    if name == crate::vm::print_name() {
        let (c, d1) = print_gen(args, 0, vs, d, cx);
        (save_code(cx.save, 8) + c + seq![0x31u8, 0xC0u8] + vreg_store(cx.pushed, dst, RAX), d1)
    } else {
        let fidx: usize = match lookup(cx.tbl, name) {
            Some(k) => k,
            None => 0,
        };
        (save_code(cx.save, 8) + user_args_gen(args.len() as int, 0, vs, cx) + enc_mov64(RAX, cx.layout.table_addr as i64)
            + rex(true, false, false) + seq![0x8Bu8, modrm(2, RAX, RAX)] + le32((fidx as i32).wrapping_mul(8)) + call_code(
            RAX,
        ) + restore_code(cx.save, 0) + vreg_store(cx.pushed, dst, RAX), d)
    }
}

/// The code of a statement laid out from position `pos`, with the data
/// buffer, the positions of the offset fields of its `返回` jumps (left 0,
/// waiting for the epilogue) and the counter after it.
pub struct StmtOut {
    pub code: Seq<u8>,
    pub data: Seq<u8>,
    pub rets: Seq<usize>,
    pub next: u32,
}

/// Pending jumps at the positions `ps`, all to label `id`.
pub open spec fn with_label(ps: Seq<usize>, id: u64) -> Seq<(usize, u64)> {
    ps.map_values(|p: usize| (p, id))
}

/// `test rax, rax`.
pub open spec fn test_rax() -> Seq<u8> {
    enc_unary(0x85, RAX, RAX)
}

/// The code of a statement at position `pos` with the counter at `next`:
/// `变量` and `=` evaluate into the variable's register; `返回` evaluates
/// into a temporary, loads it into rax and jumps to the epilogue; `如果`
/// and `当` evaluate the condition, test it and jump over their parts; any
/// other statement is an expression evaluated into a temporary.
#[verifier::opaque]
pub open spec fn stmt_gen(n: NodeView, pos: int, next: u32, d: Seq<u8>, cx: GenCtx) -> StmtOut
    decreases n, 1int,
{
    let t = next.wrapping_add(cx.pc.wrapping_add(1));
    let n1 = next.wrapping_add(1);
    let same = StmtOut { code: Seq::empty(), data: d, rets: Seq::empty(), next };
    match n {
        NodeView::Var { name, right, .. } => match lookup(cx.vars, name) {
            Some(v) => {
                let e = expr_gen(*right, v, n1, d, cx);
                StmtOut { code: e.0, data: e.1, rets: Seq::empty(), next: cnt_expr(*right, n1) }
            },
            None => same,
        },
        NodeView::Assign { target, right, .. } => match *target {
            NodeView::Ident { name, .. } => match lookup(cx.vars, name) {
                Some(v) => {
                    let e = expr_gen(*right, v, n1, d, cx);
                    StmtOut { code: e.0, data: e.1, rets: Seq::empty(), next: cnt_expr(*right, n1) }
                },
                None => same,
            },
            _ => same,
        },
        NodeView::Return { value, .. } => match value {
            Some(v) => {
                let e = expr_gen(*v, t, n1, d, cx);
                let head = e.0 + vreg_load(cx.pushed, RAX, t);
                StmtOut {
                    code: head + seq![0xE9u8] + le32(0),
                    data: e.1,
                    rets: seq![(pos + head.len() + 1) as usize],
                    next: cnt_expr(*v, n1),
                }
            },
            None => StmtOut { code: seq![0xE9u8] + le32(0), data: d, rets: seq![(pos + 1) as usize], next: n1 },
        },
        NodeView::If { cond, then, else_b, .. } => {
            let e = expr_gen(*cond, t, n1, d, cx);
            let head = e.0 + vreg_load(cx.pushed, RAX, t) + test_rax();
            let jcc_at = pos + head.len() + 2;
            let a = stmt_gen(*then, jcc_at + 4, cnt_expr(*cond, n1), e.1, cx);
            let jmp_at = jcc_at + 4 + a.code.len() + 1;
            let else_pos = jmp_at + 4;
            let b = match else_b {
                Some(eb) => stmt_gen(*eb, else_pos, a.next, a.data, cx),
                None => StmtOut { code: Seq::empty(), data: a.data, rets: Seq::empty(), next: a.next },
            };
            let done_pos = else_pos + b.code.len();
            StmtOut {
                code: head + seq![0x0Fu8, 0x84u8] + le32(rel(else_pos as i128, jcc_at as usize)) + a.code + seq![0xE9u8] + le32(
                    rel(done_pos as i128, jmp_at as usize),
                ) + b.code,
                data: b.data,
                rets: a.rets + b.rets,
                next: b.next,
            }
        },
        NodeView::While { cond, body, .. } => {
            let e = expr_gen(*cond, t, n1, d, cx);
            let head = e.0 + vreg_load(cx.pushed, RAX, t) + test_rax();
            let jcc_at = pos + head.len() + 2;
            let a = stmt_gen(*body, jcc_at + 4, cnt_expr(*cond, n1), e.1, cx);
            let jmp_at = jcc_at + 4 + a.code.len() + 1;
            let done_pos = jmp_at + 4;
            StmtOut {
                code: head + seq![0x0Fu8, 0x84u8] + le32(rel(done_pos as i128, jcc_at as usize)) + a.code + seq![0xE9u8] + le32(
                    rel(pos as i128, jmp_at as usize),
                ),
                data: a.data,
                rets: a.rets,
                next: a.next,
            }
        },
        NodeView::Block { stmts, .. } => list_gen(stmts, 0, pos, next, d, cx),
        NodeView::Prog { stmts } => list_gen(stmts, 0, pos, next, d, cx),
        _ => {
            let e = expr_gen(n, t, n1, d, cx);
            StmtOut { code: e.0, data: e.1, rets: Seq::empty(), next: cnt_expr(n, n1) }
        },
    }
}

/// The statements from the `i`-th on, one after the other.
pub open spec fn list_gen(ns: Seq<NodeView>, i: int, pos: int, next: u32, d: Seq<u8>, cx: GenCtx) -> StmtOut
    decreases ns, ns.len() - i,
{
    if i < 0 || i >= ns.len() {
        StmtOut { code: Seq::empty(), data: d, rets: Seq::empty(), next }
    } else {
        let a = stmt_gen(ns[i], pos, next, d, cx);
        let b = list_gen(ns, i + 1, pos + a.code.len(), a.next, a.data, cx);
        StmtOut { code: a.code + b.code, data: b.data, rets: a.rets + b.rets, next: b.next }
    }
}

proof fn lemma_write_at(x: Seq<u8>, y: Seq<u8>, v: i32)
    ensures
        write32(x + le32(0) + y, x.len() as int, v) == x + le32(v) + y,
{
    let c = x + le32(0) + y;
    assert(c.subrange(0, x.len() as int) =~= x);
    assert(c.subrange(x.len() + 4int, c.len() as int) =~= y);
    assert(write32(c, x.len() as int, v) =~= x + le32(v) + y);
}

/// Binding the label of a forward jump whose offset field is at `at`, with
/// `mid` emitted since and the jumps `b` (to other labels) pending after it.
proof fn lemma_bind_forward(
    pre: Seq<u8>,
    mid: Seq<u8>,
    a: Seq<(usize, u64)>,
    at: usize,
    id: u64,
    b: Seq<(usize, u64)>,
)
    requires
        at == pre.len(),
        forall|k: int| 0 <= k < a.len() ==> (#[trigger] a[k]).1 != id,
        forall|k: int| 0 <= k < b.len() ==> (#[trigger] b[k]).1 != id,
    ensures
        fill(pre + le32(0) + mid, a + seq![(at, id)] + b, id, (pre.len() + 4 + mid.len()) as i128) == pre + le32(
            rel((pre.len() + 4 + mid.len()) as i128, at),
        ) + mid,
        others(a + seq![(at, id)] + b, id) == a + b,
{
    let code = pre + le32(0) + mid;
    lemma_fill_one(code, a, at, id, b, (pre.len() + 4 + mid.len()) as i128);
    lemma_write_at(pre, mid, rel((pre.len() + 4 + mid.len()) as i128, at));
}

/// The pending jumps `p0` (made before labels `l0len` on) and the `返回`
/// jumps `w` (to the epilogue, older) wait for none of the new labels.
proof fn lemma_not_waiting(p0: Seq<(usize, u64)>, rets: Seq<usize>, epi: u64, l0len: int, id: u64)
    requires
        forall|k: int| 0 <= k < p0.len() ==> (#[trigger] p0[k]).1 < l0len,
        epi < l0len,
        id >= l0len,
    ensures
        forall|k: int| 0 <= k < p0.len() ==> (#[trigger] p0[k]).1 != id,
        forall|k: int| 0 <= k < with_label(rets, epi).len() ==> (#[trigger] with_label(rets, epi)[k]).1 != id,
        forall|k: int| 0 <= k < (p0 + with_label(rets, epi)).len() ==> (#[trigger] (p0 + with_label(rets, epi))[k]).1 != id,
{
    assert forall|k: int| 0 <= k < (p0 + with_label(rets, epi)).len() implies (#[trigger] (p0 + with_label(rets, epi))[k]).1 != id by {
        if k < p0.len() {
            assert((p0 + with_label(rets, epi))[k] == p0[k]);
        } else {
            assert((p0 + with_label(rets, epi))[k] == with_label(rets, epi)[k - p0.len()]);
        }
    }
}

/// The layout of `如果` from its parts.
#[verifier::rlimit(100)]
#[verifier::spinoff_prover]
proof fn lemma_if_gen(nv: NodeView, pos: int, next: u32, d: Seq<u8>, cx: GenCtx)
    requires
        nv is If,
    ensures
        ({
            let t = next.wrapping_add(cx.pc.wrapping_add(1));
            let n1 = next.wrapping_add(1);
            let e = expr_gen(*nv->If_cond, t, n1, d, cx);
            let head = e.0 + vreg_load(cx.pushed, RAX, t) + test_rax();
            let jcc_at = pos + head.len() + 2;
            let a = stmt_gen(*nv->If_then, jcc_at + 4, cnt_expr(*nv->If_cond, n1), e.1, cx);
            let jmp_at = jcc_at + 4 + a.code.len() + 1;
            let else_pos = jmp_at + 4;
            let b = match nv->If_else_b {
                Some(eb) => stmt_gen(*eb, else_pos, a.next, a.data, cx),
                None => StmtOut { code: Seq::empty(), data: a.data, rets: Seq::empty(), next: a.next },
            };
            let done_pos = else_pos + b.code.len();
            let g = stmt_gen(nv, pos, next, d, cx);
            &&& g.code == head + seq![0x0Fu8, 0x84u8] + le32(rel(else_pos as i128, jcc_at as usize)) + a.code + seq![0xE9u8]
                + le32(rel(done_pos as i128, jmp_at as usize)) + b.code
            &&& g.data == b.data
            &&& g.rets == a.rets + b.rets
            &&& g.next == b.next
        }),
{
    reveal(stmt_gen);
}

/// The layout of `当` from its parts.
#[verifier::rlimit(100)]
#[verifier::spinoff_prover]
proof fn lemma_while_gen(nv: NodeView, pos: int, next: u32, d: Seq<u8>, cx: GenCtx)
    requires
        nv is While,
    ensures
        ({
            let t = next.wrapping_add(cx.pc.wrapping_add(1));
            let n1 = next.wrapping_add(1);
            let e = expr_gen(*nv->While_cond, t, n1, d, cx);
            let head = e.0 + vreg_load(cx.pushed, RAX, t) + test_rax();
            let jcc_at = pos + head.len() + 2;
            let a = stmt_gen(*nv->While_body, jcc_at + 4, cnt_expr(*nv->While_cond, n1), e.1, cx);
            let jmp_at = jcc_at + 4 + a.code.len() + 1;
            let done_pos = jmp_at + 4;
            let g = stmt_gen(nv, pos, next, d, cx);
            &&& g.code == head + seq![0x0Fu8, 0x84u8] + le32(rel(done_pos as i128, jcc_at as usize)) + a.code + seq![0xE9u8]
                + le32(rel(pos as i128, jmp_at as usize))
            &&& g.data == a.data
            &&& g.rets == a.rets
            &&& g.next == a.next
        }),
{
    reveal(stmt_gen);
}

/// One step of laying out a list of statements.
proof fn lemma_list_step(ns: Seq<NodeView>, i: int, pos: int, next: u32, d: Seq<u8>, cx: GenCtx)
    requires
        0 <= i < ns.len(),
    ensures
        ({
            let a = stmt_gen(ns[i], pos, next, d, cx);
            let b = list_gen(ns, i + 1, pos + a.code.len(), a.next, a.data, cx);
            &&& list_gen(ns, i, pos, next, d, cx).code == a.code + b.code
            &&& list_gen(ns, i, pos, next, d, cx).rets == a.rets + b.rets
            &&& list_gen(ns, i, pos, next, d, cx).data == b.data
            &&& list_gen(ns, i, pos, next, d, cx).next == b.next
        }),
{
    reveal(stmt_gen);
}

proof fn lemma_fill_none(code: Seq<u8>, ps: Seq<(usize, u64)>, id: u64, pos: i128)
    requires
        forall|k: int| 0 <= k < ps.len() ==> (#[trigger] ps[k]).1 != id,
    ensures
        fill(code, ps, id, pos) == code,
        others(ps, id) == ps,
    decreases ps.len(),
{
    if ps.len() > 0 {
        assert forall|k: int| 0 <= k < ps.drop_last().len() implies (#[trigger] ps.drop_last()[k]).1 != id by {
            assert(ps.drop_last()[k] == ps[k]);
        }
        lemma_fill_none(code, ps.drop_last(), id, pos);
        assert(ps.drop_last().push(ps.last()) =~= ps);
    }
}

/// Binding a label that exactly one pending jump waits for writes that
/// jump's offset and drops it from the pending ones.
proof fn lemma_fill_one(code: Seq<u8>, a: Seq<(usize, u64)>, p: usize, id: u64, b: Seq<(usize, u64)>, pos: i128)
    requires
        forall|k: int| 0 <= k < a.len() ==> (#[trigger] a[k]).1 != id,
        forall|k: int| 0 <= k < b.len() ==> (#[trigger] b[k]).1 != id,
    ensures
        fill(code, a + seq![(p, id)] + b, id, pos) == write32(code, p as int, rel(pos, p)),
        others(a + seq![(p, id)] + b, id) == a + b,
    decreases b.len(),
{
    if b.len() == 0 {
        assert(a + seq![(p, id)] + b =~= a.push((p, id)));
        assert((a.push((p, id))).drop_last() =~= a);
        lemma_fill_none(code, a, id, pos);
        assert(a + b =~= a);
    } else {
        let b0 = b.drop_last();
        assert forall|k: int| 0 <= k < b0.len() implies (#[trigger] b0[k]).1 != id by {
            assert(b0[k] == b[k]);
        }
        lemma_fill_one(code, a, p, id, b0, pos);
        assert((a + seq![(p, id)] + b).drop_last() =~= a + seq![(p, id)] + b0);
        assert((a + seq![(p, id)] + b).last() == b.last());
        assert(b.last() == b[b.len() - 1]);
        assert((a + b0).push(b.last()) =~= a + b);
    }
}

/// The compiler of one function.
struct FnCompiler<'a> {
    plan: &'a FnPlan,
    em: Emitter,
    /// The label of the epilogue (`返回` jumps there).
    epilogue: u64,
    /// The counter of temporaries and locals, advanced as the plan counted.
    next: u32,
    /// Set where code generation cannot go on: a call with more arguments
    /// than argument registers, or a name without a register.
    failed: bool,
}

impl<'a> FnCompiler<'a> {
    spec fn ok(&self) -> bool {
        &&& self.em.wf()
        &&& self.epilogue < self.em.label_pos@.len()
    }

    /// What every emitting step keeps.
    spec fn kept(&self, old: &FnCompiler<'a>) -> bool {
        &&& self.ok()
        &&& self.plan == old.plan
        &&& self.epilogue == old.epilogue
        &&& self.em.label_pos@.len() >= old.em.label_pos@.len()
        &&& old.failed ==> self.failed
    }

    /// No jump emitted and no label touched.
    spec fn flat(&self, old: &FnCompiler<'a>) -> bool {
        &&& self.em.patches == old.em.patches
        &&& self.em.label_pos == old.em.label_pos
    }

    /// What the code of an expression depends on, with the shared state `j`.
    spec fn gen_ctx(&self, j: JitState) -> GenCtx {
        GenCtx {
            pushed: self.plan.pushed_bytes,
            save: self.plan.save_off@,
            vars: table_view(self.plan.vars@),
            tbl: table_view(j.table_idx@),
            layout: j.layout,
            pc: self.plan.param_count,
        }
    }

    /// Loads a virtual register into `dst`.
    fn load_reg(&mut self, dst: u8, vreg: u32)
        requires
            old(self).ok(),
        ensures
            final(self).kept(old(self)),
            final(self).flat(old(self)),
            final(self).next == old(self).next,
            final(self).failed == old(self).failed,
            final(self).em.code@ == old(self).em.code@ + if vreg >= SPILL_VREG {
                enc_mem(seq![0x8Bu8], dst, spill_off(old(self).plan.pushed_bytes, vreg))
            } else {
                enc_mov(dst, vreg_phys(vreg))
            },
    {
        match phys(vreg) {
            None => {
                let off = spill_off_of(self.plan, vreg);
                self.em.load_rbp(dst, off);
            },
            Some(p) => self.em.mov(dst, p),
        }
    }

    /// Stores `src` into a virtual register.
    fn store_reg(&mut self, vreg: u32, src: u8)
        requires
            old(self).ok(),
        ensures
            final(self).kept(old(self)),
            final(self).flat(old(self)),
            final(self).next == old(self).next,
            final(self).failed == old(self).failed,
            final(self).em.code@ == old(self).em.code@ + if vreg >= SPILL_VREG {
                enc_mem(seq![0x89u8], src, spill_off(old(self).plan.pushed_bytes, vreg))
            } else {
                enc_mov(vreg_phys(vreg), src)
            },
    {
        match phys(vreg) {
            None => {
                let off = spill_off_of(self.plan, vreg);
                self.em.store_rbp(off, src);
            },
            Some(p) => self.em.mov(p, src),
        }
    }

    /// The caller-saved slot of a register, 0 for none.
    fn save_slot(&self, reg: u8) -> (o: i32)
        ensures
            o == (if (reg as int) < self.plan.save_off@.len() { self.plan.save_off@[reg as int] } else { 0 }),
    {
        if (reg as usize) < self.plan.save_off.len() {
            self.plan.save_off[reg as usize]
        } else {
            0
        }
    }

    /// Loads an argument: a caller-saved source is read from its slot, as
    /// earlier argument loads may have overwritten the register.
    fn load_arg_reg(&mut self, dst: u8, vreg: u32)
        requires
            old(self).ok(),
        ensures
            final(self).kept(old(self)),
            final(self).flat(old(self)),
            final(self).next == old(self).next,
            final(self).failed == old(self).failed,
            final(self).em.code@ == old(self).em.code@ + arg_load(
                old(self).plan.pushed_bytes,
                old(self).plan.save_off@,
                dst,
                vreg,
            ),
    {
        match phys(vreg) {
            None => {
                let off = spill_off_of(self.plan, vreg);
                self.em.load_rbp(dst, off);
            },
            Some(p) => {
                let slot = self.save_slot(p);
                if slot != 0 {
                    self.em.load_rbp(dst, slot);
                } else {
                    self.em.mov(dst, p);
                }
            },
        }
    }

    /// Saves rsi, rdi, rdx, rcx, r8..r11 into their slots.
    fn save_callersaved(&mut self)
        requires
            old(self).ok(),
        ensures
            final(self).kept(old(self)),
            final(self).flat(old(self)),
            final(self).next == old(self).next,
            final(self).failed == old(self).failed,
            final(self).em.code@ == old(self).em.code@ + save_code(old(self).plan.save_off@, 8),
    {
        let mut i: usize = 0;
        while i < 8
            invariant
                i <= 8,
                self.kept(old(self)),
                self.flat(old(self)),
                self.next == old(self).next,
                self.failed == old(self).failed,
                self.em.code@ == old(self).em.code@ + save_code(old(self).plan.save_off@, i as int),
            decreases 8 - i,
        {
            let reg = caller_saved_of(i);
            let off = self.save_slot(reg);
            self.em.store_rbp(off, reg);
            i = i + 1;
        }
    }

    /// Restores the caller-saved registers, in reverse order.
    fn restore_callersaved(&mut self)
        requires
            old(self).ok(),
        ensures
            final(self).kept(old(self)),
            final(self).flat(old(self)),
            final(self).next == old(self).next,
            final(self).failed == old(self).failed,
            final(self).em.code@ == old(self).em.code@ + restore_code(old(self).plan.save_off@, 0),
    {
        let mut i: usize = 8;
        while i > 0
            invariant
                i <= 8,
                self.kept(old(self)),
                self.flat(old(self)),
                self.next == old(self).next,
                self.failed == old(self).failed,
                self.em.code@ == old(self).em.code@ + restore_code(old(self).plan.save_off@, i as int),
            decreases i,
        {
            let reg = caller_saved_of(i - 1);
            let off = self.save_slot(reg);
            self.em.load_rbp(reg, off);
            i = i - 1;
        }
    }

    /// The result of `lt op rt` into `dst`.
    fn emit_binop(&mut self, op: TokenKind, lt: u32, rt: u32, dst: u32)
        requires
            old(self).ok(),
        ensures
            final(self).kept(old(self)),
            final(self).flat(old(self)),
            final(self).next == old(self).next,
            final(self).failed == old(self).failed,
            final(self).em.code@ == old(self).em.code@ + binop_code(
                old(self).plan.pushed_bytes,
                old(self).plan.save_off@,
                op,
                lt,
                rt,
                dst,
            ),
    {
        match op {
            TokenKind::Plus | TokenKind::Minus | TokenKind::Star => self.emit_arith(op, lt, rt, dst),
            TokenKind::Slash | TokenKind::Percent => self.emit_divmod(op, lt, rt, dst),
            TokenKind::Eqeq | TokenKind::Neq | TokenKind::Lt | TokenKind::Le | TokenKind::Gt | TokenKind::Ge => self.emit_compare(op, lt, rt, dst),
            _ => {
                assert(self.em.code@ =~= old(self).em.code@ + binop_code(self.plan.pushed_bytes, self.plan.save_off@, op, lt, rt, dst));
            },
        }
    }

    /// `+`, `-` or `*`.
    #[verifier::rlimit(50)]
    #[verifier::spinoff_prover]
    fn emit_arith(&mut self, op: TokenKind, lt: u32, rt: u32, dst: u32)
        requires
            old(self).ok(),
            op == TokenKind::Plus || op == TokenKind::Minus || op == TokenKind::Star,
        ensures
            final(self).kept(old(self)),
            final(self).flat(old(self)),
            final(self).next == old(self).next,
            final(self).failed == old(self).failed,
            final(self).em.code@ == old(self).em.code@ + binop_code(
                old(self).plan.pushed_bytes,
                old(self).plan.save_off@,
                op,
                lt,
                rt,
                dst,
            ),
    {
        let ghost pushed = self.plan.pushed_bytes;
        let ghost c0 = self.em.code@;
        self.load_reg(RAX, lt);
        let ghost c1 = self.em.code@;
        match phys(rt) {
            None => {
                let off = spill_off_of(self.plan, rt);
                match op {
                    TokenKind::Plus => self.em.mem(&[0x03u8], RAX, off),
                    TokenKind::Minus => self.em.mem(&[0x2Bu8], RAX, off),
                    _ => self.em.mem(&[0x0Fu8, 0xAFu8], RAX, off),
                }
            },
            Some(r) => match op {
                TokenKind::Plus => self.em.rr(&[0x03u8], RAX, r),
                TokenKind::Minus => self.em.rr(&[0x2Bu8], RAX, r),
                _ => self.em.rr(&[0x0Fu8, 0xAFu8], RAX, r),
            },
        }
        let ghost mid = if rt >= SPILL_VREG {
            enc_mem(arith_opc(op), RAX, spill_off(pushed, rt))
        } else {
            enc_rr(arith_opc(op), RAX, vreg_phys(rt))
        };
        assert(self.em.code@ =~= c1 + mid);
        self.store_reg(dst, RAX);
        assert(self.em.code@ =~= c0 + (vreg_load(pushed, RAX, lt) + mid + vreg_store(pushed, dst, RAX)));
    }

    /// `/` or `%`: `cqo; idiv` with the caller-saved registers saved around.
    #[verifier::rlimit(50)]
    #[verifier::spinoff_prover]
    fn emit_divmod(&mut self, op: TokenKind, lt: u32, rt: u32, dst: u32)
        requires
            old(self).ok(),
            op == TokenKind::Slash || op == TokenKind::Percent,
        ensures
            final(self).kept(old(self)),
            final(self).flat(old(self)),
            final(self).next == old(self).next,
            final(self).failed == old(self).failed,
            final(self).em.code@ == old(self).em.code@ + binop_code(
                old(self).plan.pushed_bytes,
                old(self).plan.save_off@,
                op,
                lt,
                rt,
                dst,
            ),
    {
        let ghost pushed = self.plan.pushed_bytes;
        let ghost save = self.plan.save_off@;
        let ghost c0 = self.em.code@;
        self.save_callersaved();
        self.load_reg(RAX, lt);
        self.em.cqo();
        let ghost c1 = self.em.code@;
        match phys(rt) {
            None => {
                let off = spill_off_of(self.plan, rt);
                self.em.idiv_mem(off);
            },
            Some(r) => self.em.unary(0xF7, 7, r),
        }
        let ghost mid = if rt >= SPILL_VREG {
            rex(true, false, false) + seq![0xF7u8, modrm(2, 7, RBP)] + le32(spill_off(pushed, rt))
        } else {
            enc_unary(0xF7, 7, vreg_phys(rt))
        };
        assert(self.em.code@ =~= c1 + mid);
        let ghost c2 = self.em.code@;
        match op {
            TokenKind::Percent => self.em.mov(RAX, RDX),
            _ => {},
        }
        let ghost rem = if op == TokenKind::Percent {
            enc_mov(RAX, RDX)
        } else {
            Seq::empty()
        };
        assert(self.em.code@ =~= c2 + rem);
        self.restore_callersaved();
        self.store_reg(dst, RAX);
        assert(self.em.code@ =~= c0 + (save_code(save, 8) + vreg_load(pushed, RAX, lt) + rex(true, false, false) + seq![0x99u8]
            + mid + rem + restore_code(save, 0) + vreg_store(pushed, dst, RAX)));
    }

    /// A comparison: `cmp`, `setcc al`, `movzx eax, al`.
    #[verifier::rlimit(50)]
    #[verifier::spinoff_prover]
    fn emit_compare(&mut self, op: TokenKind, lt: u32, rt: u32, dst: u32)
        requires
            old(self).ok(),
            op == TokenKind::Eqeq || op == TokenKind::Neq || op == TokenKind::Lt || op == TokenKind::Le || op
                == TokenKind::Gt || op == TokenKind::Ge,
        ensures
            final(self).kept(old(self)),
            final(self).flat(old(self)),
            final(self).next == old(self).next,
            final(self).failed == old(self).failed,
            final(self).em.code@ == old(self).em.code@ + binop_code(
                old(self).plan.pushed_bytes,
                old(self).plan.save_off@,
                op,
                lt,
                rt,
                dst,
            ),
    {
        let ghost pushed = self.plan.pushed_bytes;
        let ghost c0 = self.em.code@;
        let cc = match op {
            TokenKind::Eqeq => JCC_E,
            TokenKind::Neq => JCC_NE,
            TokenKind::Lt => JCC_L,
            TokenKind::Le => JCC_LE,
            TokenKind::Gt => JCC_G,
            _ => JCC_GE,
        };
        assert(cc == cond_code(op));
        self.load_reg(RAX, lt);
        let ghost c1 = self.em.code@;
        match phys(rt) {
            None => {
                let off = spill_off_of(self.plan, rt);
                self.em.mem(&[0x3Bu8], RAX, off);
            },
            Some(r) => {
                if r != RAX {
                    self.em.rr(&[0x3Bu8], RAX, r);
                }
            },
        }
        let ghost mid = if rt >= SPILL_VREG {
            enc_mem(seq![0x3Bu8], RAX, spill_off(pushed, rt))
        } else if vreg_phys(rt) != RAX {
            enc_rr(seq![0x3Bu8], RAX, vreg_phys(rt))
        } else {
            Seq::empty()
        };
        assert(self.em.code@ =~= c1 + mid);
        self.em.setcc_al(cc);
        self.em.movzx_al();
        self.store_reg(dst, RAX);
        assert(self.em.code@ =~= c0 + (vreg_load(pushed, RAX, lt) + mid + seq![0x0Fu8, (0x90 + cond_code(op)) as u8, 0xC0u8]
            + seq![0x0Fu8, 0xB6u8, 0xC0u8] + vreg_store(pushed, dst, RAX)));
    }
}

/// What a code-generating step keeps of the shared state.
pub open spec fn jit_kept(new: JitState, old: JitState) -> bool {
    &&& new.layout == old.layout
    &&& new.table_idx == old.table_idx
    &&& new.code == old.code
}

impl<'a> FnCompiler<'a> {
    /// A call: `喵叫` formats and prints each argument through the helpers;
    /// a user function is called through the table of entry points with the
    /// arguments in the argument registers.
    fn emit_call(&mut self, jit: &mut JitState, name: &String, args: &Vec<Node>, arg_vreg: &Vec<u32>, dst: u32)
        requires
            old(self).ok(),
            arg_vreg@.len() == args@.len(),
        ensures
            final(self).kept(old(self)),
            final(self).flat(old(self)),
            final(self).next == old(self).next,
            jit_kept(*final(jit), *old(jit)),
            args@.len() > JIT_MAX_PARAMS && name@ != crate::vm::print_name() ==> final(self).failed,
            !old(self).failed && (name@ == crate::vm::print_name() || (args@.len() <= JIT_MAX_PARAMS && lookup(
                table_view(old(jit).table_idx@),
                name@,
            ) is Some)) ==> !final(self).failed,
            final(self).em.code@ == old(self).em.code@ + call_gen(
                name@,
                nodes_view(args@),
                arg_vreg@,
                dst,
                old(jit).data@,
                old(self).gen_ctx(*old(jit)),
            ).0,
            final(jit).data@ == call_gen(
                name@,
                nodes_view(args@),
                arg_vreg@,
                dst,
                old(jit).data@,
                old(self).gen_ctx(*old(jit)),
            ).1,
    {
        if crate::vm::is_print_name(name) {
            self.emit_print_call(jit, args, arg_vreg, dst);
        } else {
            self.emit_user_call(jit, name, args, arg_vreg, dst);
        }
    }

    /// `喵叫`: each argument printed, then 0.
    #[verifier::rlimit(50)]
    #[verifier::spinoff_prover]
    fn emit_print_call(&mut self, jit: &mut JitState, args: &Vec<Node>, arg_vreg: &Vec<u32>, dst: u32)
        requires
            old(self).ok(),
            arg_vreg@.len() == args@.len(),
        ensures
            final(self).kept(old(self)),
            final(self).flat(old(self)),
            final(self).next == old(self).next,
            final(self).failed == old(self).failed,
            jit_kept(*final(jit), *old(jit)),
            final(self).em.code@ == old(self).em.code@ + call_gen(
                crate::vm::print_name(),
                nodes_view(args@),
                arg_vreg@,
                dst,
                old(jit).data@,
                old(self).gen_ctx(*old(jit)),
            ).0,
            final(jit).data@ == call_gen(
                crate::vm::print_name(),
                nodes_view(args@),
                arg_vreg@,
                dst,
                old(jit).data@,
                old(self).gen_ctx(*old(jit)),
            ).1,
    {
        let ghost cx = self.gen_ctx(*jit);
        let ghost av = nodes_view(args@);
        let ghost vs = arg_vreg@;
        let ghost d0 = jit.data@;
        let ghost c00 = self.em.code@;
        self.save_callersaved();
        let ghost c0 = self.em.code@;
        let mut i: usize = 0;
        while i < args.len()
            invariant
                i <= args@.len(),
                arg_vreg@.len() == args@.len(),
                self.kept(old(self)),
                self.flat(old(self)),
                self.next == old(self).next,
                jit_kept(*jit, *old(jit)),
                self.failed == old(self).failed,
                cx == old(self).gen_ctx(*old(jit)),
                av == nodes_view(args@),
                vs == arg_vreg@,
                self.em.code@ + print_gen(av, i as int, vs, jit.data@, cx).0 == c0 + print_gen(av, 0, vs, d0, cx).0,
                print_gen(av, i as int, vs, jit.data@, cx).1 == print_gen(av, 0, vs, d0, cx).1,
            decreases args@.len() - i,
        {
            let ghost ci = self.em.code@;
            let ghost di = jit.data@;
            self.emit_print_arg(jit, args, arg_vreg, i);
            proof {
                let step = print_item(av, i as int, vs, di, cx);
                let rest = print_gen(av, i + 1, vs, jit.data@, cx);
                assert(self.em.code@ + rest.0 =~= ci + (step.0 + rest.0));
            }
            i = i + 1;
        }
        self.em.xor_eax();
        self.store_reg(dst, RAX);
        assert(self.em.code@ =~= c00 + call_gen(crate::vm::print_name(), av, vs, dst, d0, cx).0);
    }

    /// Argument `i` of `喵叫`.
    #[verifier::rlimit(50)]
    #[verifier::spinoff_prover]
    fn emit_print_arg(&mut self, jit: &mut JitState, args: &Vec<Node>, arg_vreg: &Vec<u32>, i: usize)
        requires
            old(self).ok(),
            arg_vreg@.len() == args@.len(),
            i < args@.len(),
        ensures
            final(self).kept(old(self)),
            final(self).flat(old(self)),
            final(self).next == old(self).next,
            final(self).failed == old(self).failed,
            jit_kept(*final(jit), *old(jit)),
            final(self).em.code@ == old(self).em.code@ + print_item(
                nodes_view(args@),
                i as int,
                arg_vreg@,
                old(jit).data@,
                old(self).gen_ctx(*old(jit)),
            ).0,
            final(jit).data@ == print_item(
                nodes_view(args@),
                i as int,
                arg_vreg@,
                old(jit).data@,
                old(self).gen_ctx(*old(jit)),
            ).1,
    {
        let ghost c0 = self.em.code@;
        let ghost av = nodes_view(args@);
        assert(av[i as int] == args@[i as int]@);
        let print_addr = jit.layout.print_addr as i64;
        let itoa_addr = jit.layout.itoa_addr as i64;
        let scratch = jit.layout.scratch_addr as i64;
        match &args[i] {
            Node::Str { text, .. } => {
                let addr = lit_addr(jit, text.as_str().as_bytes());
                self.em.mov64(RDI, addr);
            },
            _ => {
                self.load_arg_reg(RDI, arg_vreg[i]);
                self.em.mov64(RSI, scratch);
                self.em.mov64(RAX, itoa_addr);
                self.em.call_reg(RAX);
                self.em.mov64(RDI, scratch);
            },
        }
        let ghost c1 = self.em.code@;
        let endl = if i == args.len() - 1 {
            jit.layout.newline_addr as i64
        } else {
            jit.layout.space_addr as i64
        };
        self.em.mov64(RSI, endl);
        self.em.mov64(RAX, print_addr);
        self.em.call_reg(RAX);
        self.restore_callersaved();
        assert(self.em.code@ =~= c1 + (enc_mov64(RSI, endl) + enc_mov64(RAX, print_addr) + call_code(RAX) + restore_code(
            self.plan.save_off@,
            0,
        )));
    }

    /// A call of a user function through the entry table.
    #[verifier::rlimit(50)]
    #[verifier::spinoff_prover]
    fn emit_user_call(&mut self, jit: &mut JitState, name: &String, args: &Vec<Node>, arg_vreg: &Vec<u32>, dst: u32)
        requires
            old(self).ok(),
            arg_vreg@.len() == args@.len(),
            name@ != crate::vm::print_name(),
        ensures
            final(self).kept(old(self)),
            final(self).flat(old(self)),
            final(self).next == old(self).next,
            jit_kept(*final(jit), *old(jit)),
            args@.len() > JIT_MAX_PARAMS ==> final(self).failed,
            !old(self).failed && args@.len() <= JIT_MAX_PARAMS && lookup(table_view(old(jit).table_idx@), name@) is Some
                ==> !final(self).failed,
            final(self).em.code@ == old(self).em.code@ + call_gen(
                name@,
                nodes_view(args@),
                arg_vreg@,
                dst,
                old(jit).data@,
                old(self).gen_ctx(*old(jit)),
            ).0,
            final(jit).data@ == old(jit).data@,
    {
        let ghost cx = self.gen_ctx(*jit);
        let ghost vs = arg_vreg@;
        let ghost c00 = self.em.code@;
        let fidx = match crate::vm::table_lookup(&jit.table_idx, name) {
            Some(k) => k,
            None => {
                self.failed = true;
                0
            },
        };
        self.save_callersaved();
        let ghost c1 = self.em.code@;
        let mut i: usize = 0;
        while i < args.len()
            invariant
                i <= args@.len(),
                arg_vreg@.len() == args@.len(),
                self.kept(old(self)),
                self.flat(old(self)),
                self.next == old(self).next,
                jit_kept(*jit, *old(jit)),
                i > JIT_MAX_PARAMS ==> self.failed,
                !old(self).failed && args@.len() <= JIT_MAX_PARAMS && lookup(table_view(old(jit).table_idx@), name@)
                    is Some ==> !self.failed,
                cx == old(self).gen_ctx(*old(jit)),
                vs == arg_vreg@,
                jit.data@ == old(jit).data@,
                self.em.code@ + user_args_gen(args@.len() as int, i as int, vs, cx) == c1 + user_args_gen(
                    args@.len() as int,
                    0,
                    vs,
                    cx,
                ),
            decreases args@.len() - i,
        {
            let ghost ci = self.em.code@;
            if i >= JIT_MAX_PARAMS {
                self.failed = true;
            } else {
                let r = arg_reg_of(i);
                self.load_arg_reg(r, arg_vreg[i]);
            }
            assert(self.em.code@ + user_args_gen(args@.len() as int, i + 1, vs, cx) =~= ci + user_args_gen(
                args@.len() as int,
                i as int,
                vs,
                cx,
            ));
            i = i + 1;
        }
        let ghost c2 = self.em.code@;
        self.em.mov64(RAX, jit.layout.table_addr as i64);
        self.em.load_rax_idx((fidx as i32).wrapping_mul(8));
        self.em.call_reg(RAX);
        self.restore_callersaved();
        self.store_reg(dst, RAX);
        assert(self.em.code@ =~= c00 + call_gen(name@, nodes_view(args@), vs, dst, old(jit).data@, cx).0);
    }

    /// Evaluates an expression into virtual register `dst`; the counter
    /// advances as the plan counted.
    #[verifier::rlimit(60)]
    #[verifier::spinoff_prover]
    fn compile_expr(&mut self, jit: &mut JitState, n: &Node, dst: u32)
        requires
            old(self).ok(),
        ensures
            final(self).kept(old(self)),
            final(self).flat(old(self)),
            final(self).next == cnt_expr(n@, old(self).next),
            jit_kept(*final(jit), *old(jit)),
            wide_expr(n@) ==> final(self).failed,
            !old(self).failed && !wide_expr(n@) && ok_expr(n@, table_view(old(self).plan.vars@), table_view(old(jit).table_idx@))
                ==> !final(self).failed,
            final(self).em.code@ == old(self).em.code@ + expr_gen(
                n@,
                dst,
                old(self).next,
                old(jit).data@,
                old(self).gen_ctx(*old(jit)),
            ).0,
            final(jit).data@ == expr_gen(n@, dst, old(self).next, old(jit).data@, old(self).gen_ctx(*old(jit))).1,
        decreases n, 1int,
    {
        let ghost cx = self.gen_ctx(*jit);
        let ghost c0 = self.em.code@;
        let ghost d0 = jit.data@;
        let ghost nx0 = self.next;
        let pc = self.plan.param_count;
        match n {
            Node::Num { num, .. } => {
                let reg = match phys(dst) {
                    Some(p) => p,
                    None => RAX,
                };
                if *num >= i32::MIN as i64 && *num <= i32::MAX as i64 {
                    self.em.mov32(reg, *num as i32);
                } else {
                    self.em.mov64(reg, *num);
                }
                let ghost c1 = self.em.code@;
                if dst >= SPILL_VREG {
                    let off = spill_off_of(self.plan, dst);
                    self.em.store_rbp(off, reg);
                }
                assert(self.em.code@ =~= c1 + spill_store(cx.pushed, dst, reg));
                assert(self.em.code@ =~= c0 + expr_gen(n@, dst, nx0, d0, cx).0);
            },
            Node::Ident { name, .. } => {
                let reg = match phys(dst) {
                    Some(p) => p,
                    None => RAX,
                };
                match crate::vm::table_get_u32(&self.plan.vars, name) {
                    Some(v) => {
                        self.load_reg(reg, v);
                        let ghost c1 = self.em.code@;
                        if dst >= SPILL_VREG {
                            let off = spill_off_of(self.plan, dst);
                            self.em.store_rbp(off, reg);
                        }
                        assert(self.em.code@ =~= c1 + spill_store(cx.pushed, dst, reg));
                    },
                    None => {
                        self.failed = true;
                    },
                }
                assert(self.em.code@ =~= c0 + expr_gen(n@, dst, nx0, d0, cx).0);
            },
            Node::Binary { op, left, right, .. } => {
                let lt = self.next.wrapping_add(pc.wrapping_add(1));
                let rt = self.next.wrapping_add(1).wrapping_add(pc.wrapping_add(1));
                self.next = self.next.wrapping_add(2);
                self.compile_expr(jit, left, lt);
                self.compile_expr(jit, right, rt);
                self.emit_binop(*op, lt, rt, dst);
                assert(self.em.code@ =~= c0 + expr_gen(n@, dst, nx0, d0, cx).0);
            },
            Node::Call { name, args, .. } => {
                self.compile_call(jit, n, name, args, dst);
            },
            _ => {},
        }
    }

    /// A call: the arguments evaluated into consecutive registers, then the
    /// call itself.
    #[verifier::rlimit(60)]
    #[verifier::spinoff_prover]
    fn compile_call(&mut self, jit: &mut JitState, n: &Node, name: &String, args: &Vec<Node>, dst: u32)
        requires
            old(self).ok(),
            n is Call && n->Call_args == *args,
            n@ == (NodeView::Call { line: n->Call_line, name: name@, args: nodes_view(args@) }),
        ensures
            final(self).kept(old(self)),
            final(self).flat(old(self)),
            final(self).next == cnt_expr(n@, old(self).next),
            jit_kept(*final(jit), *old(jit)),
            wide_expr(n@) ==> final(self).failed,
            !old(self).failed && !wide_expr(n@) && ok_expr(n@, table_view(old(self).plan.vars@), table_view(old(jit).table_idx@))
                ==> !final(self).failed,
            final(self).em.code@ == old(self).em.code@ + expr_gen(
                n@,
                dst,
                old(self).next,
                old(jit).data@,
                old(self).gen_ctx(*old(jit)),
            ).0,
            final(jit).data@ == expr_gen(n@, dst, old(self).next, old(jit).data@, old(self).gen_ctx(*old(jit))).1,
        decreases n, 0int,
    {
        let ghost cx = self.gen_ctx(*jit);
        let ghost c0 = self.em.code@;
        let ghost d0 = jit.data@;
        let ghost nx0 = self.next;
        let pc = self.plan.param_count;
        let ghost av = nodes_view(args@);
        let print = crate::vm::is_print_name(name);
        let mut arg_vreg: Vec<u32> = Vec::new();
        let mut k: usize = 0;
        while k < args.len()
            invariant
                k <= args@.len(),
                arg_vreg@.len() == k,
                self.next == old(self).next,
                self.kept(old(self)),
                self.flat(old(self)),
                pc == cx.pc,
                nx0 == old(self).next,
                forall|j: int| 0 <= j < k ==> arg_vreg@[j] == arg_v(nx0, j, cx.pc),
            decreases args@.len() - k,
        {
            arg_vreg.push(self.next.wrapping_add(k as u32).wrapping_add(pc.wrapping_add(1)));
            k = k + 1;
        }
        let ghost vs = arg_vreg@;
        assert(vs =~= Seq::new(av.len(), |j: int| arg_v(nx0, j, cx.pc)));
        self.next = self.next.wrapping_add(args.len() as u32);
        let ghost cur0 = self.next;
        let mut i: usize = 0;
        while i < args.len()
            invariant
                i <= args@.len(),
                arg_vreg@.len() == args@.len(),
                vs == arg_vreg@,
                av == nodes_view(args@),
                n is Call && n->Call_args == *args,
                n@ == (NodeView::Call { line: n->Call_line, name: name@, args: av }),
                print == (name@ == crate::vm::print_name()),
                cnt_expr(n@, old(self).next) == cnt_args(av, i as int, print, self.next),
                self.kept(old(self)),
                self.flat(old(self)),
                jit_kept(*jit, *old(jit)),
                cx == old(self).gen_ctx(*old(jit)),
                !self.failed ==> wide_args(av, 0) == wide_args(av, i as int),
                !old(self).failed && !wide_expr(n@) && ok_expr(n@, table_view(old(self).plan.vars@), table_view(old(jit).table_idx@))
                    ==> !self.failed && ok_args(av, i as int, print, table_view(old(self).plan.vars@), table_view(old(jit).table_idx@)),
                self.em.code@ + args_gen(av, i as int, print, vs, self.next, jit.data@, cx).0 == c0 + args_gen(
                    av,
                    0,
                    print,
                    vs,
                    cur0,
                    d0,
                    cx,
                ).0,
                args_gen(av, i as int, print, vs, self.next, jit.data@, cx).1 == args_gen(av, 0, print, vs, cur0, d0, cx).1,
            decreases args@.len() - i,
        {
            assert(av[i as int] == args@[i as int]@);
            assert(decreases_to!(n => args@[i as int]));
            let ghost ci = self.em.code@;
            let ghost di = jit.data@;
            let ghost cur = self.next;
            let is_lit = match &args[i] {
                Node::Str { .. } => true,
                _ => false,
            };
            if print && is_lit {
                match &args[i] {
                    Node::Str { text, .. } => {
                        let addr = lit_addr(jit, text.as_str().as_bytes());
                        let v = arg_vreg[i];
                        let reg = match phys(v) {
                            Some(p) => p,
                            None => RAX,
                        };
                        self.em.mov64(reg, addr);
                        let ghost c1 = self.em.code@;
                        if v >= SPILL_VREG {
                            let off = spill_off_of(self.plan, v);
                            self.em.store_rbp(off, reg);
                        }
                        assert(self.em.code@ =~= c1 + spill_store(cx.pushed, v, reg));
                    },
                    _ => {},
                }
            } else {
                self.compile_expr(jit, &args[i], arg_vreg[i]);
            }
            proof {
                if !self.failed {
                    assert(!wide_expr(av[i as int]));
                    assert(wide_args(av, i as int) == (wide_expr(av[i as int]) || wide_args(av, i + 1)));
                }
                assert(ok_args(av, i as int, print, table_view(old(self).plan.vars@), table_view(old(jit).table_idx@))
                    ==> ok_args(av, i + 1, print, table_view(old(self).plan.vars@), table_view(old(jit).table_idx@)));
                let step = args_gen(av, i as int, print, vs, cur, di, cx);
                let rest = args_gen(av, i + 1, print, vs, self.next, jit.data@, cx);
                assert(step.1 == rest.1);
                assert(self.em.code@ + rest.0 =~= ci + step.0);
            }
            i = i + 1;
        }
        let ghost c2 = self.em.code@;
        self.emit_call(jit, name, args, &arg_vreg, dst);
        assert(self.em.code@ =~= c0 + expr_gen(n@, dst, nx0, d0, cx).0);
    }
}

impl<'a> FnCompiler<'a> {
    /// The code, pending `返回` jumps, data and counter after a statement are
    /// those `g` gives; labels made before keep their positions and the
    /// epilogue stays unbound.
    spec fn emitted(&self, old: &FnCompiler<'a>, j: JitState, oj: JitState, g: StmtOut) -> bool {
        &&& self.em.code@ == old.em.code@ + g.code
        &&& self.em.patches@ == old.em.patches@ + with_label(g.rets, old.epilogue)
        &&& j.data@ == g.data
        &&& self.next == g.next
        &&& self.em.label_pos@.subrange(0, old.em.label_pos@.len() as int) == old.em.label_pos@
        &&& self.em.label_pos@[self.epilogue as int] < 0
    }

    /// Emits a statement. `返回` leaves its value in rax and jumps to the
    /// epilogue; `如果` and `当` test rax and jump over their parts.
    #[verifier::rlimit(100)]
    #[verifier::spinoff_prover]
    fn compile_stmt(&mut self, jit: &mut JitState, n: &Node)
        requires
            old(self).ok(),
            old(self).em.label_pos@[old(self).epilogue as int] < 0,
        ensures
            final(self).kept(old(self)),
            jit_kept(*final(jit), *old(jit)),
            names_only(n@) && !final(self).failed ==> final(self).next == cnt_stmt(n@, old(self).next, 0, Seq::empty()).0,
            wide_stmt(n@) ==> final(self).failed,
            !old(self).failed && !wide_stmt(n@) && ok_stmt(n@, table_view(old(self).plan.vars@), table_view(old(jit).table_idx@))
                ==> !final(self).failed,
            final(self).emitted(
                old(self),
                *final(jit),
                *old(jit),
                stmt_gen(n@, old(self).em.code@.len() as int, old(self).next, old(jit).data@, old(self).gen_ctx(*old(jit))),
            ),
        decreases n, 2int,
    {
        let ghost cx = self.gen_ctx(*jit);
        let ghost c0 = self.em.code@;
        let ghost p0 = self.em.patches@;
        let ghost d0 = jit.data@;
        let ghost nx0 = self.next;
        let pc = self.plan.param_count;
        proof {
            reveal(stmt_gen);
        }
        match n {
            Node::Var { name, right, .. } => {
                match crate::vm::table_get_u32(&self.plan.vars, name) {
                    Some(v) => {
                        self.next = self.next.wrapping_add(1);
                        self.compile_expr(jit, right, v);
                    },
                    None => {
                        self.failed = true;
                    },
                }
                assert(with_label(Seq::<usize>::empty(), self.epilogue) =~= Seq::<(usize, u64)>::empty());
                assert(self.em.patches@ =~= p0 + with_label(Seq::<usize>::empty(), self.epilogue));
                assert(self.em.code@ =~= c0 + stmt_gen(n@, c0.len() as int, nx0, d0, cx).code);
            },
            Node::Assign { target, right, .. } => {
                assert(with_label(Seq::<usize>::empty(), self.epilogue) =~= Seq::<(usize, u64)>::empty());
                assert(self.em.patches@ =~= p0 + with_label(Seq::<usize>::empty(), self.epilogue));
                assert(self.em.code@ =~= c0 + Seq::<u8>::empty());
                let v = match &**target {
                    Node::Ident { name, .. } => match crate::vm::table_get_u32(&self.plan.vars, name) {
                        Some(v) => v,
                        None => {
                            self.failed = true;
                            assert(self.em.label_pos@.subrange(0, self.em.label_pos@.len() as int) =~= self.em.label_pos@);
                            return;
                        },
                    },
                    _ => {
                        proof {
                            if crate::ast::kind_of(target@) == crate::ast::NodeKind::Ident {
                                crate::ast::lemma_ident_view(**target);
                            }
                        }
                        assert(self.em.label_pos@.subrange(0, self.em.label_pos@.len() as int) =~= self.em.label_pos@);
                        return;
                    },
                };
                self.next = self.next.wrapping_add(1);
                self.compile_expr(jit, right, v);
                assert(self.em.patches@ =~= p0 + with_label(Seq::<usize>::empty(), self.epilogue));
                assert(self.em.code@ =~= c0 + stmt_gen(n@, c0.len() as int, nx0, d0, cx).code);
            },
            Node::Return { value, .. } => {
                let t = self.next.wrapping_add(pc.wrapping_add(1));
                self.next = self.next.wrapping_add(1);
                match value {
                    Some(v) => {
                        self.compile_expr(jit, v, t);
                        self.load_reg(RAX, t);
                    },
                    None => {},
                }
                let ghost c1 = self.em.code@;
                let epi = self.epilogue;
                self.em.emit_jmp(epi);
                proof {
                    let g = stmt_gen(n@, c0.len() as int, nx0, d0, cx);
                    assert(self.em.code@ =~= c0 + g.code);
                    assert(g.rets == seq![(c1.len() + 1) as usize]);
                    assert(with_label(g.rets, epi) =~= seq![((c1.len() + 1) as usize, epi)]);
                    assert(self.em.patches@ =~= p0 + with_label(g.rets, epi));
                    assert(self.em.label_pos@.subrange(0, self.em.label_pos@.len() as int) =~= self.em.label_pos@);
                }
            },
            Node::If { .. } => self.compile_if(jit, n),
            Node::While { .. } => self.compile_while(jit, n),
            Node::Block { stmts, .. } => self.compile_list(jit, n, stmts),
            Node::Prog { stmts } => self.compile_list(jit, n, stmts),
            _ => {
                let t = self.next.wrapping_add(pc.wrapping_add(1));
                self.next = self.next.wrapping_add(1);
                self.compile_expr(jit, n, t);
                assert(with_label(Seq::<usize>::empty(), self.epilogue) =~= Seq::<(usize, u64)>::empty());
                assert(self.em.patches@ =~= p0 + with_label(Seq::<usize>::empty(), self.epilogue));
                assert(self.em.code@ =~= c0 + stmt_gen(n@, c0.len() as int, nx0, d0, cx).code);
            },
        }
        proof {
            assert(self.em.label_pos@.subrange(0, old(self).em.label_pos@.len() as int) =~= old(self).em.label_pos@);
        }
    }

    /// `如果`: the condition, `jz` to the else part, the then part, `jmp`
    /// past the else part.
    #[verifier::rlimit(100)]
    #[verifier::spinoff_prover]
    fn compile_if(&mut self, jit: &mut JitState, n: &Node)
        requires
            old(self).ok(),
            old(self).em.label_pos@[old(self).epilogue as int] < 0,
            n is If,
        ensures
            final(self).kept(old(self)),
            jit_kept(*final(jit), *old(jit)),
            names_only(n@) && !final(self).failed ==> final(self).next == cnt_stmt(n@, old(self).next, 0, Seq::empty()).0,
            wide_stmt(n@) ==> final(self).failed,
            !old(self).failed && !wide_stmt(n@) && ok_stmt(n@, table_view(old(self).plan.vars@), table_view(old(jit).table_idx@))
                ==> !final(self).failed,
            final(self).emitted(
                old(self),
                *final(jit),
                *old(jit),
                stmt_gen(n@, old(self).em.code@.len() as int, old(self).next, old(jit).data@, old(self).gen_ctx(*old(jit))),
            ),
        decreases n, 1int,
    {
        let ghost cx = self.gen_ctx(*jit);
        let ghost c0 = self.em.code@;
        let ghost p0 = self.em.patches@;
        let ghost l0 = self.em.label_pos@;
        let ghost d0 = jit.data@;
        let ghost nx0 = self.next;
        let ghost epi = self.epilogue;
        let pc = self.plan.param_count;
        proof {
            assert forall|k: int| 0 <= k < p0.len() implies (#[trigger] p0[k]).1 < l0.len() by {
                assert(p0[k].1 < l0.len());
            }
        }
        match n {
            Node::If { cond, then, else_b, .. } => {
                self.emit_test(jit, cond);
                let ghost c1 = self.em.code@;
                let ghost a = self.next;
                let ghost da = jit.data@;
                let else_lab = self.em.new_label();
                let done_lab = self.em.new_label();
                let ghost la = self.em.label_pos@;
                self.if_then(jit, n, else_lab, done_lab);
                let ghost ga = stmt_gen(then@, c1.len() + 6int, a, da, cx);
                let jmp_pos: usize = self.em.code.len() - 4;
                let ghost jmp_at = jmp_pos;
                assert(jmp_at == c1.len() + 6 + ga.code.len() + 1);
                let ghost ce = self.em.code@;
                let ghost le = self.em.label_pos@;
                let ghost pe = self.em.patches@;
                let ghost wa = with_label(ga.rets, epi);
                proof {
                    lemma_not_waiting(p0, ga.rets, epi, l0.len() as int, done_lab);
                    assert(pe.last() == (jmp_at, done_lab));
                    assert(pe.drop_last() =~= p0 + wa);
                    assert(ce.subrange(ce.len() - 4, ce.len() as int) =~= le32(0));
                    assert(le.subrange(0, la.len() as int)[done_lab as int] == la.update(else_lab as int, (jmp_at + 4) as i128)[done_lab as int]);
                    assert(le[done_lab as int] < 0);
                }
                self.if_else(jit, n, done_lab);
                proof {
                    lemma_if_gen(n@, c0.len() as int, nx0, d0, cx);
                    let ge = match else_b {
                        Some(eb) => stmt_gen(eb@, ce.len() as int, ga.next, ga.data, cx),
                        None => StmtOut { code: Seq::empty(), data: ga.data, rets: Seq::empty(), next: ga.next },
                    };
                    if let Some(eb) = else_b {
                        lemma_cnt_indep(eb@, ga.next, 0, cnt_stmt(then@, a, 0, Seq::empty()).1, 0, Seq::empty());
                    }
                    let g = stmt_gen(n@, c0.len() as int, nx0, d0, cx);
                    assert(ce.subrange(0, ce.len() - 4) =~= c1 + seq![0x0Fu8, 0x84u8] + le32(rel((jmp_at + 4) as i128, (c1.len() + 2) as usize)) + ga.code + seq![0xE9u8]);
                    assert(self.em.code@ =~= c0 + g.code);
                    assert(with_label(g.rets, epi) =~= wa + with_label(ge.rets, epi));
                    assert(self.em.patches@ =~= p0 + with_label(g.rets, epi));
                    let lf = self.em.label_pos@;
                    assert forall|k: int| 0 <= k < l0.len() implies lf.subrange(0, l0.len() as int)[k] == l0[k] by {
                        assert(lf.subrange(0, le.len() as int)[k] == lf[k]);
                        assert(le.subrange(0, la.len() as int)[k] == le[k]);
                        assert(la[k] == l0[k]);
                    }
                    assert(lf.subrange(0, l0.len() as int) =~= l0);
                }
            },
            _ => {},
        }
    }

    /// A condition: evaluated into a fresh temporary, loaded into rax and
    /// tested.
    #[verifier::rlimit(60)]
    #[verifier::spinoff_prover]
    fn emit_test(&mut self, jit: &mut JitState, cond: &Node)
        requires
            old(self).ok(),
        ensures
            final(self).kept(old(self)),
            final(self).flat(old(self)),
            jit_kept(*final(jit), *old(jit)),
            final(self).next == cnt_expr(cond@, old(self).next.wrapping_add(1)),
            wide_expr(cond@) ==> final(self).failed,
            !old(self).failed && !wide_expr(cond@) && ok_expr(cond@, table_view(old(self).plan.vars@), table_view(old(jit).table_idx@))
                ==> !final(self).failed,
            ({
                let cx = old(self).gen_ctx(*old(jit));
                let t = old(self).next.wrapping_add(cx.pc.wrapping_add(1));
                let e = expr_gen(cond@, t, old(self).next.wrapping_add(1), old(jit).data@, cx);
                &&& final(self).em.code@ == old(self).em.code@ + (e.0 + vreg_load(cx.pushed, RAX, t) + test_rax())
                &&& final(jit).data@ == e.1
            }),
    {
        let ghost c0 = self.em.code@;
        let pc = self.plan.param_count;
        let c = self.next.wrapping_add(pc.wrapping_add(1));
        self.next = self.next.wrapping_add(1);
        self.compile_expr(jit, cond, c);
        self.load_reg(RAX, c);
        self.em.test(RAX);
        assert(self.em.code@ =~= c0 + (expr_gen(cond@, c, old(self).next.wrapping_add(1), old(jit).data@, old(self).gen_ctx(
            *old(jit),
        )).0 + vreg_load(self.plan.pushed_bytes, RAX, c) + test_rax()));
    }

    /// The else part of `如果` (if any), then the done label bound, which
    /// fills the `jmp` just before it.
    #[verifier::rlimit(100)]
    #[verifier::spinoff_prover]
    fn if_else(&mut self, jit: &mut JitState, n: &Node, done_lab: u64)
        requires
            old(self).ok(),
            old(self).em.label_pos@[old(self).epilogue as int] < 0,
            n is If,
            done_lab < old(self).em.label_pos@.len(),
            old(self).em.label_pos@[done_lab as int] < 0,
            old(self).epilogue != done_lab,
            old(self).em.code@.len() >= 4,
            old(self).em.code@.subrange(old(self).em.code@.len() - 4, old(self).em.code@.len() as int) == le32(0),
            old(self).em.patches@.len() > 0,
            old(self).em.patches@.last() == ((old(self).em.code@.len() - 4) as usize, done_lab),
            forall|k: int| 0 <= k < old(self).em.patches@.drop_last().len() ==> (#[trigger] old(self).em.patches@.drop_last()[k]).1 != done_lab,
        ensures
            final(self).kept(old(self)),
            jit_kept(*final(jit), *old(jit)),
            ({
                let len = old(self).em.code@.len() as int;
                let ge = match n->If_else_b {
                    Some(eb) => stmt_gen(eb@, len, old(self).next, old(jit).data@, old(self).gen_ctx(*old(jit))),
                    None => StmtOut { code: Seq::empty(), data: old(jit).data@, rets: Seq::empty(), next: old(self).next },
                };
                &&& final(self).em.code@ == old(self).em.code@.subrange(0, len - 4) + le32(rel((len + ge.code.len()) as i128, (len - 4) as usize)) + ge.code
                &&& final(self).em.patches@ == old(self).em.patches@.drop_last() + with_label(ge.rets, old(self).epilogue)
                &&& final(jit).data@ == ge.data
                &&& final(self).next == ge.next
                &&& final(self).em.label_pos@.subrange(0, old(self).em.label_pos@.len() as int) == old(self).em.label_pos@.update(
                    done_lab as int,
                    (len + ge.code.len()) as i128,
                )
                &&& final(self).em.label_pos@[final(self).epilogue as int] < 0
                &&& (match n->If_else_b {
                    Some(eb) => {
                        &&& names_only(eb@) && !final(self).failed ==> final(self).next == cnt_stmt(eb@, old(self).next, 0, Seq::empty()).0
                        &&& wide_stmt(eb@) ==> final(self).failed
                        &&& !old(self).failed && !wide_stmt(eb@) && ok_stmt(eb@, table_view(old(self).plan.vars@), table_view(old(jit).table_idx@))
                            ==> !final(self).failed
                    },
                    None => final(self).failed == old(self).failed,
                })
            }),
        decreases n, 0int,
    {
        let ghost cx = self.gen_ctx(*jit);
        let ghost c0 = self.em.code@;
        let ghost p0 = self.em.patches@;
        let ghost l0 = self.em.label_pos@;
        let ghost epi = self.epilogue;
        let at: usize = self.em.code.len() - 4;
        let ghost pre = c0.subrange(0, c0.len() - 4);
        assert(c0 =~= pre + le32(0));
        assert(p0 =~= p0.drop_last() + seq![((c0.len() - 4) as usize, done_lab)]);
        match n {
            Node::If { else_b, .. } => {
                let ghost ge = match else_b {
                    Some(eb) => stmt_gen(eb@, c0.len() as int, self.next, jit.data@, cx),
                    None => StmtOut { code: Seq::empty(), data: jit.data@, rets: Seq::empty(), next: self.next },
                };
                match else_b {
                    Some(eb) => {
                        assert(self.gen_ctx(*jit) == cx);
                        self.compile_stmt(jit, eb);
                    },
                    None => {
                        assert(self.em.patches@ =~= p0 + with_label(ge.rets, epi));
                        assert(self.em.code@ =~= c0 + ge.code);
                        assert(self.em.label_pos@.subrange(0, l0.len() as int) =~= l0);
                    },
                }
                let ghost cf = self.em.code@;
                let ghost lf = self.em.label_pos@;
                assert(lf.subrange(0, l0.len() as int)[done_lab as int] == l0[done_lab as int]);
                let ghost wb = with_label(ge.rets, epi);
                proof {
                    assert forall|k: int| 0 <= k < wb.len() implies (#[trigger] wb[k]).1 != done_lab by {
                        assert(wb[k].1 == epi);
                    }
                    assert(self.em.patches@ =~= p0.drop_last() + seq![((c0.len() - 4) as usize, done_lab)] + wb);
                    assert(cf =~= pre + le32(0) + ge.code);
                    lemma_bind_forward(pre, ge.code, p0.drop_last(), at, done_lab, wb);
                }
                self.em.bind_label(done_lab);
                proof {
                    let lg = self.em.label_pos@;
                    assert forall|k: int| 0 <= k < l0.len() implies lg.subrange(0, l0.len() as int)[k] == l0.update(
                        done_lab as int,
                        cf.len() as i128,
                    )[k] by {
                        if k != done_lab {
                            assert(lf.subrange(0, l0.len() as int)[k] == l0[k]);
                        }
                    }
                    assert(lg.subrange(0, l0.len() as int) =~= l0.update(done_lab as int, cf.len() as i128));
                    assert(lg[epi as int] == lf[epi as int]);
                }
            },
            _ => {},
        }
    }

    /// The then part of `如果`: `jz` to the else label, the then part, `jmp`
    /// to the done label, the else label bound after it.
    #[verifier::rlimit(100)]
    #[verifier::spinoff_prover]
    fn if_then(&mut self, jit: &mut JitState, n: &Node, else_lab: u64, done_lab: u64)
        requires
            old(self).ok(),
            old(self).em.label_pos@[old(self).epilogue as int] < 0,
            n is If,
            old(self).em.label_pos@.len() == else_lab + 2,
            done_lab == else_lab + 1,
            old(self).em.label_pos@[else_lab as int] < 0,
            old(self).em.label_pos@[done_lab as int] < 0,
            old(self).epilogue < else_lab,
            forall|k: int| 0 <= k < old(self).em.patches@.len() ==> (#[trigger] old(self).em.patches@[k]).1 < else_lab,
        ensures
            final(self).kept(old(self)),
            jit_kept(*final(jit), *old(jit)),
            names_only(n->If_then@) && !final(self).failed ==> final(self).next == cnt_stmt(n->If_then@, old(self).next, 0, Seq::empty()).0,
            wide_stmt(n->If_then@) ==> final(self).failed,
            !old(self).failed && !wide_stmt(n->If_then@) && ok_stmt(n->If_then@, table_view(old(self).plan.vars@), table_view(old(jit).table_idx@))
                ==> !final(self).failed,
            ({
                let pos = old(self).em.code@.len() as int;
                let ga = stmt_gen(n->If_then@, pos + 6, old(self).next, old(jit).data@, old(self).gen_ctx(*old(jit)));
                let jmp_at = pos + 6 + ga.code.len() + 1;
                &&& final(self).em.code@ == old(self).em.code@ + seq![0x0Fu8, 0x84u8] + le32(rel((jmp_at + 4) as i128, (pos + 2) as usize))
                    + ga.code + seq![0xE9u8] + le32(0)
                &&& final(self).em.patches@ == old(self).em.patches@ + with_label(ga.rets, old(self).epilogue) + seq![(jmp_at as usize, done_lab)]
                &&& final(jit).data@ == ga.data
                &&& final(self).next == ga.next
                &&& final(self).em.label_pos@.subrange(0, old(self).em.label_pos@.len() as int) == old(self).em.label_pos@.update(
                    else_lab as int,
                    (jmp_at + 4) as i128,
                )
                &&& final(self).em.label_pos@[final(self).epilogue as int] < 0
            }),
        decreases n, 0int,
    {
        let ghost cx = self.gen_ctx(*jit);
        let ghost c1 = self.em.code@;
        let ghost p0 = self.em.patches@;
        let ghost la = self.em.label_pos@;
        let ghost epi = self.epilogue;
        match n {
            Node::If { then, .. } => {
                self.em.emit_jcc(else_lab, JCC_E);
                let jcc_pos: usize = self.em.code.len() - 4;
                let ghost jcc_at = jcc_pos;
                let ghost ca = self.em.code@;
                let ghost ga = stmt_gen(then@, ca.len() as int, self.next, jit.data@, cx);
                assert(self.gen_ctx(*jit) == cx);
                self.compile_stmt(jit, then);
                let ghost cb = self.em.code@;
                let ghost lb = self.em.label_pos@;
                assert(lb.subrange(0, la.len() as int)[else_lab as int] == la[else_lab as int]);
                assert(lb.subrange(0, la.len() as int)[done_lab as int] == la[done_lab as int]);
                self.em.emit_jmp(done_lab);
                let jmp_pos: usize = self.em.code.len() - 4;
                let ghost jmp_at = jmp_pos;
                let ghost cj = self.em.code@;
                let ghost wa = with_label(ga.rets, epi);
                proof {
                    lemma_not_waiting(p0, ga.rets, epi, else_lab as int, else_lab);
                    let b = wa.push((jmp_at, done_lab));
                    assert forall|k: int| 0 <= k < b.len() implies (#[trigger] b[k]).1 != else_lab by {
                        if k < wa.len() {
                            assert(b[k] == wa[k]);
                        }
                    }
                    assert(self.em.patches@ =~= p0 + seq![(jcc_at, else_lab)] + b);
                    assert(cj =~= (c1 + seq![0x0Fu8, 0x84u8]) + le32(0) + (ga.code + seq![0xE9u8] + le32(0)));
                    lemma_bind_forward(c1 + seq![0x0Fu8, 0x84u8], ga.code + seq![0xE9u8] + le32(0), p0, jcc_at, else_lab, b);
                    assert(p0 + b =~= (p0 + wa) + seq![(jmp_at, done_lab)]);
                }
                self.em.bind_label(else_lab);
                proof {
                    assert(self.em.code@ =~= c1 + seq![0x0Fu8, 0x84u8] + le32(rel(cj.len() as i128, jcc_at)) + ga.code + seq![0xE9u8]
                        + le32(0));
                    let lf = self.em.label_pos@;
                    assert forall|k: int| 0 <= k < la.len() implies lf.subrange(0, la.len() as int)[k] == la.update(
                        else_lab as int,
                        cj.len() as i128,
                    )[k] by {
                        if k != else_lab {
                            assert(lb.subrange(0, la.len() as int)[k] == la[k]);
                        }
                    }
                    assert(lf.subrange(0, la.len() as int) =~= la.update(else_lab as int, cj.len() as i128));
                }
            },
            _ => {},
        }
    }

    /// `当`: the condition, `jz` past the loop, the body, `jmp` back to the
    /// condition.
    #[verifier::rlimit(100)]
    #[verifier::spinoff_prover]
    fn compile_while(&mut self, jit: &mut JitState, n: &Node)
        requires
            old(self).ok(),
            old(self).em.label_pos@[old(self).epilogue as int] < 0,
            n is While,
        ensures
            final(self).kept(old(self)),
            jit_kept(*final(jit), *old(jit)),
            names_only(n@) && !final(self).failed ==> final(self).next == cnt_stmt(n@, old(self).next, 0, Seq::empty()).0,
            wide_stmt(n@) ==> final(self).failed,
            !old(self).failed && !wide_stmt(n@) && ok_stmt(n@, table_view(old(self).plan.vars@), table_view(old(jit).table_idx@))
                ==> !final(self).failed,
            final(self).emitted(
                old(self),
                *final(jit),
                *old(jit),
                stmt_gen(n@, old(self).em.code@.len() as int, old(self).next, old(jit).data@, old(self).gen_ctx(*old(jit))),
            ),
        decreases n, 1int,
    {
        let ghost cx = self.gen_ctx(*jit);
        let ghost c0 = self.em.code@;
        let ghost p0 = self.em.patches@;
        let ghost l0 = self.em.label_pos@;
        let ghost d0 = jit.data@;
        let ghost nx0 = self.next;
        let ghost epi = self.epilogue;
        let pc = self.plan.param_count;
        proof {
            assert forall|k: int| 0 <= k < p0.len() implies (#[trigger] p0[k]).1 < l0.len() by {
                assert(p0[k].1 < l0.len());
            }
        }
        match n {
            Node::While { cond, body, .. } => {
                let loop_lab = self.em.new_label();
                let done_lab = self.em.new_label();
                proof {
                    lemma_not_waiting(p0, Seq::empty(), epi, l0.len() as int, loop_lab);
                    lemma_fill_none(c0, p0, loop_lab, c0.len() as i128);
                }
                self.em.bind_label(loop_lab);
                let ghost lq = self.em.label_pos@;
                self.emit_test(jit, cond);
                let ghost c1 = self.em.code@;
                let ghost a = self.next;
                let ghost da = jit.data@;
                self.em.emit_jcc(done_lab, JCC_E);
                let jcc_pos: usize = self.em.code.len() - 4;
                let ghost ca = self.em.code@;
                let ghost ga = stmt_gen(body@, ca.len() as int, a, da, cx);
                let ghost pa = self.em.patches@;
                assert(pa == p0.push((jcc_pos, done_lab)));
                assert(self.gen_ctx(*jit) == cx);
                self.compile_stmt(jit, body);
                let ghost cb = self.em.code@;
                let ghost lb = self.em.label_pos@;
                assert(cb == ca + ga.code);
                assert(self.em.patches@ == pa + with_label(ga.rets, epi));
                assert(lb.subrange(0, lq.len() as int)[loop_lab as int] == lq[loop_lab as int]);
                assert(lb.subrange(0, lq.len() as int)[done_lab as int] == lq[done_lab as int]);
                self.em.emit_jmp(loop_lab);
                let jmp_pos: usize = self.em.code.len() - 4;
                let ghost cj = self.em.code@;
                let ghost wa = with_label(ga.rets, epi);
                assert(self.em.patches@ == pa + wa);
                assert(cj == write32(cb + seq![0xE9u8] + le32(0), cb.len() + 1int, rel(c0.len() as i128, jmp_pos)));
                assert(jmp_pos == cb.len() + 1);
                assert(lb[loop_lab as int] == c0.len() as i128);
                proof {
                    lemma_write_at(cb + seq![0xE9u8], Seq::empty(), rel(c0.len() as i128, jmp_pos));
                    assert(cb + seq![0xE9u8] + le32(0) + Seq::<u8>::empty() =~= cb + seq![0xE9u8] + le32(0));
                    assert(cj =~= cb + seq![0xE9u8] + le32(rel(c0.len() as i128, jmp_pos)));
                    lemma_not_waiting(p0, ga.rets, epi, l0.len() as int, done_lab);
                    assert(self.em.patches@ =~= p0 + seq![(jcc_pos, done_lab)] + wa);
                    let mid = ga.code + seq![0xE9u8] + le32(rel(c0.len() as i128, jmp_pos));
                    assert(cj =~= (c1 + seq![0x0Fu8, 0x84u8]) + le32(0) + mid);
                    lemma_bind_forward(c1 + seq![0x0Fu8, 0x84u8], mid, p0, jcc_pos, done_lab, wa);
                }
                self.em.bind_label(done_lab);
                proof {
                    lemma_while_gen(n@, c0.len() as int, nx0, d0, cx);
                    let g = stmt_gen(n@, c0.len() as int, nx0, d0, cx);
                    assert(self.em.code@ =~= c0 + g.code);
                    assert(self.em.patches@ =~= p0 + with_label(g.rets, epi));
                    let lf = self.em.label_pos@;
                    assert forall|k: int| 0 <= k < l0.len() implies lf.subrange(0, l0.len() as int)[k] == l0[k] by {
                        assert(lb.subrange(0, lq.len() as int)[k] == lq[k]);
                    }
                    assert(lf.subrange(0, l0.len() as int) =~= l0);
                    assert(lb.subrange(0, lq.len() as int)[epi as int] == lq[epi as int]);
                }
            },
            _ => {},
        }
    }

    fn compile_list(&mut self, jit: &mut JitState, parent: &Node, ns: &Vec<Node>)
        requires
            old(self).ok(),
            old(self).em.label_pos@[old(self).epilogue as int] < 0,
            (parent is Block && parent->Block_stmts == *ns) || (parent is Prog && parent->Prog_stmts == *ns),
        ensures
            final(self).emitted(
                old(self),
                *final(jit),
                *old(jit),
                list_gen(nodes_view(ns@), 0, old(self).em.code@.len() as int, old(self).next, old(jit).data@, old(self).gen_ctx(*old(jit))),
            ),
            final(self).kept(old(self)),
            jit_kept(*final(jit), *old(jit)),
            names_only_list(nodes_view(ns@), 0) && !final(self).failed ==> final(self).next == cnt_stmts(
                nodes_view(ns@),
                0,
                old(self).next,
                0,
                Seq::empty(),
            ).0,
            wide_list(nodes_view(ns@), 0) ==> final(self).failed,
            !old(self).failed && !wide_list(nodes_view(ns@), 0) && ok_list(
                nodes_view(ns@),
                0,
                table_view(old(self).plan.vars@),
                table_view(old(jit).table_idx@),
            ) ==> !final(self).failed,
        decreases parent, 0int,
    {
        let ghost sv = nodes_view(ns@);
        let ghost cx = self.gen_ctx(*jit);
        let ghost c0 = self.em.code@;
        let ghost p0 = self.em.patches@;
        let ghost d0 = jit.data@;
        let ghost nx0 = self.next;
        let ghost epi = self.epilogue;
        let ghost g0 = list_gen(sv, 0, c0.len() as int, nx0, d0, cx);
        let ghost mut vars: Seq<(Seq<char>, u32)> = Seq::empty();
        let mut i: usize = 0;
        while i < ns.len()
            invariant
                sv == nodes_view(ns@),
                cx == old(self).gen_ctx(*old(jit)),
                epi == old(self).epilogue,
                g0 == list_gen(sv, 0, c0.len() as int, nx0, d0, cx),
                self.em.code@ + list_gen(sv, i as int, self.em.code@.len() as int, self.next, jit.data@, cx).code == c0 + g0.code,
                self.em.patches@ + with_label(list_gen(sv, i as int, self.em.code@.len() as int, self.next, jit.data@, cx).rets, epi)
                    == p0 + with_label(g0.rets, epi),
                list_gen(sv, i as int, self.em.code@.len() as int, self.next, jit.data@, cx).data == g0.data,
                list_gen(sv, i as int, self.em.code@.len() as int, self.next, jit.data@, cx).next == g0.next,
                self.em.label_pos@.subrange(0, old(self).em.label_pos@.len() as int) == old(self).em.label_pos@,
                self.em.label_pos@[self.epilogue as int] < 0,
                names_only_list(sv, 0) && !self.failed ==> names_only_list(sv, i as int) && cnt_stmts(sv, 0, old(self).next, 0, Seq::empty()).0 == cnt_stmts(sv, i as int, self.next, 0, vars).0,
                i <= ns@.len(),
                (parent is Block && parent->Block_stmts == *ns) || (parent is Prog && parent->Prog_stmts == *ns),
                self.kept(old(self)),
                jit_kept(*jit, *old(jit)),
                !self.failed ==> wide_list(sv, 0) == wide_list(sv, i as int),
                !old(self).failed && !wide_list(sv, 0) && ok_list(sv, 0, table_view(old(self).plan.vars@), table_view(old(jit).table_idx@))
                    ==> !self.failed && ok_list(sv, i as int, table_view(old(self).plan.vars@), table_view(old(jit).table_idx@)),
            decreases ns@.len() - i,
        {
            assert(decreases_to!(parent => ns@[i as int]));
            assert(sv[i as int] == ns@[i as int]@);
            proof {
                lemma_cnt_indep(sv[i as int], self.next, 0, vars, 0, Seq::empty());
                lemma_cnt_stmts_indep(
                    sv,
                    i + 1,
                    cnt_stmt(sv[i as int], self.next, 0, vars).0,
                    0,
                    cnt_stmt(sv[i as int], self.next, 0, vars).1,
                    0,
                    cnt_stmt(sv[i as int], self.next, 0, Seq::empty()).1,
                );
                vars = cnt_stmt(sv[i as int], self.next, 0, Seq::empty()).1;
            }
            let ghost ci = self.em.code@;
            let ghost pi = self.em.patches@;
            let ghost li = self.em.label_pos@;
            let ghost gi_next = self.next;
            let ghost gi_data = jit.data@;
            let ghost gi = list_gen(sv, i as int, ci.len() as int, self.next, jit.data@, cx);
            let ghost ga = stmt_gen(sv[i as int], ci.len() as int, self.next, jit.data@, cx);
            assert(self.gen_ctx(*jit) == cx);
            self.compile_stmt(jit, &ns[i]);
            proof {
                lemma_list_step(sv, i as int, ci.len() as int, gi_next, gi_data, cx);
                assert(self.em.code@ == ci + ga.code);
                assert(self.next == ga.next);
                assert(jit.data@ == ga.data);
                assert(gi.code == ga.code + list_gen(sv, i + 1, ci.len() + ga.code.len() as int, ga.next, ga.data, cx).code);
                let gr = list_gen(sv, i + 1, self.em.code@.len() as int, self.next, jit.data@, cx);
                assert(self.em.code@ + gr.code =~= ci + gi.code);
                assert(with_label(gi.rets, epi) =~= with_label(ga.rets, epi) + with_label(gr.rets, epi));
                assert(self.em.patches@ + with_label(gr.rets, epi) =~= pi + with_label(gi.rets, epi));
                assert(self.em.label_pos@.subrange(0, old(self).em.label_pos@.len() as int) =~= old(self).em.label_pos@) by {
                    assert(self.em.label_pos@.subrange(0, li.len() as int) == li);
                    assert forall|k: int| 0 <= k < old(self).em.label_pos@.len() implies self.em.label_pos@[k] == old(self).em.label_pos@[k] by {
                        assert(self.em.label_pos@.subrange(0, li.len() as int)[k] == li[k]);
                        assert(li.subrange(0, old(self).em.label_pos@.len() as int)[k] == li[k]);
                    }
                }
            }
            i = i + 1;
        }
        proof {
            let gr = list_gen(sv, i as int, self.em.code@.len() as int, self.next, jit.data@, cx);
            assert(with_label(gr.rets, epi) =~= Seq::<(usize, u64)>::empty());
            assert(self.em.code@ =~= c0 + g0.code);
            assert(self.em.patches@ =~= p0 + with_label(g0.rets, epi));
        }
    }
}

/// Every assignment in a statement targets a name (as in any VM-able
/// function).
pub open spec fn names_only(n: NodeView) -> bool
    decreases n, 1int,
{
    match n {
        NodeView::Assign { target, .. } => *target is Ident,
        NodeView::If { then, else_b, .. } => names_only(*then) && match else_b {
            Some(e) => names_only(*e),
            None => true,
        },
        NodeView::While { body, .. } => names_only(*body),
        NodeView::Block { stmts, .. } => names_only_list(stmts, 0),
        NodeView::Prog { stmts } => names_only_list(stmts, 0),
        _ => true,
    }
}

pub open spec fn names_only_list(ns: Seq<NodeView>, i: int) -> bool
    decreases ns, ns.len() - i,
{
    if i < 0 || i >= ns.len() {
        true
    } else {
        names_only(ns[i]) && names_only_list(ns, i + 1)
    }
}

/// Whether evaluating an expression makes a call to a user function with
/// more arguments than there are argument registers.
pub open spec fn wide_expr(n: NodeView) -> bool
    decreases n, 1int,
{
    match n {
        NodeView::Binary { left, right, .. } => wide_expr(*left) || wide_expr(*right),
        NodeView::Call { name, args, .. } => (args.len() > JIT_MAX_PARAMS && name != crate::vm::print_name())
            || wide_args(args, 0),
        _ => false,
    }
}

pub open spec fn wide_args(ns: Seq<NodeView>, i: int) -> bool
    decreases ns, ns.len() - i,
{
    if i < 0 || i >= ns.len() {
        false
    } else {
        wide_expr(ns[i]) || wide_args(ns, i + 1)
    }
}

/// Whether a statement, as the code generator walks it, makes such a call.
pub open spec fn wide_stmt(n: NodeView) -> bool
    decreases n, 1int,
{
    match n {
        NodeView::Var { right, .. } => wide_expr(*right),
        NodeView::Assign { target, right, .. } => *target is Ident && wide_expr(*right),
        NodeView::Return { value, .. } => match value {
            Some(v) => wide_expr(*v),
            None => false,
        },
        NodeView::If { cond, then, else_b, .. } => wide_expr(*cond) || wide_stmt(*then) || match else_b {
            Some(e) => wide_stmt(*e),
            None => false,
        },
        NodeView::While { cond, body, .. } => wide_expr(*cond) || wide_stmt(*body),
        NodeView::Block { stmts, .. } => wide_list(stmts, 0),
        NodeView::Prog { stmts } => wide_list(stmts, 0),
        _ => wide_expr(n),
    }
}

pub open spec fn wide_list(ns: Seq<NodeView>, i: int) -> bool
    decreases ns, ns.len() - i,
{
    if i < 0 || i >= ns.len() {
        false
    } else {
        wide_stmt(ns[i]) || wide_list(ns, i + 1)
    }
}

/// Every name the code generator looks up while walking an expression has
/// an entry: variables in the register table `f`, called functions in the
/// entry table `t`.
pub open spec fn ok_expr(n: NodeView, f: Seq<(Seq<char>, u32)>, t: Seq<(Seq<char>, usize)>) -> bool
    decreases n, 0int,
{
    match n {
        NodeView::Ident { name, .. } => lookup(f, name) is Some,
        NodeView::Binary { left, right, .. } => ok_expr(*left, f, t) && ok_expr(*right, f, t),
        NodeView::Call { name, args, .. } => (name == crate::vm::print_name() || lookup(t, name) is Some)
            && ok_args(args, 0, name == crate::vm::print_name(), f, t),
        _ => true,
    }
}

pub open spec fn ok_args(
    args: Seq<NodeView>,
    i: int,
    print: bool,
    f: Seq<(Seq<char>, u32)>,
    t: Seq<(Seq<char>, usize)>,
) -> bool
    decreases args, args.len() - i,
{
    if i < 0 || i >= args.len() {
        true
    } else if print && args[i] is Str {
        ok_args(args, i + 1, print, f, t)
    } else {
        ok_expr(args[i], f, t) && ok_args(args, i + 1, print, f, t)
    }
}

/// The same of a statement.
pub open spec fn ok_stmt(n: NodeView, f: Seq<(Seq<char>, u32)>, t: Seq<(Seq<char>, usize)>) -> bool
    decreases n, 1int,
{
    match n {
        NodeView::Var { name, right, .. } => lookup(f, name) is Some && ok_expr(*right, f, t),
        NodeView::Assign { target, right, .. } => match *target {
            NodeView::Ident { name, .. } => lookup(f, name) is Some && ok_expr(*right, f, t),
            _ => true,
        },
        NodeView::Return { value, .. } => match value {
            Some(v) => ok_expr(*v, f, t),
            None => true,
        },
        NodeView::If { cond, then, else_b, .. } => ok_expr(*cond, f, t) && ok_stmt(*then, f, t) && match else_b {
            Some(e) => ok_stmt(*e, f, t),
            None => true,
        },
        NodeView::While { cond, body, .. } => ok_expr(*cond, f, t) && ok_stmt(*body, f, t),
        NodeView::Block { stmts, .. } => ok_list(stmts, 0, f, t),
        NodeView::Prog { stmts } => ok_list(stmts, 0, f, t),
        _ => ok_expr(n, f, t),
    }
}

pub open spec fn ok_list(ns: Seq<NodeView>, i: int, f: Seq<(Seq<char>, u32)>, t: Seq<(Seq<char>, usize)>) -> bool
    decreases ns, ns.len() - i,
{
    if i < 0 || i >= ns.len() {
        true
    } else {
        ok_stmt(ns[i], f, t) && ok_list(ns, i + 1, f, t)
    }
}

/// Some function that goes to machine code calls a user function with more
/// arguments than there are argument registers.
pub open spec fn jit_wide(fs: Seq<NodeView>) -> bool {
    exists|k: int| 0 <= k < fs.len() && #[trigger] jit_set(fs)[k] && wide_stmt(body_of(fs[k]))
}

/// The callee-saved registers in push order: rbx, r12, r13, r14, r15.
pub open spec fn callee_saved(i: int) -> u8 {
    if i == 0 {
        RBX
    } else if i == 1 {
        R12
    } else if i == 2 {
        R13
    } else if i == 3 {
        R14
    } else {
        R15
    }
}

fn callee_saved_of(i: usize) -> (r: u8)
    ensures
        r == callee_saved(i as int),
{
    if i == 0 {
        RBX
    } else if i == 1 {
        R12
    } else if i == 2 {
        R13
    } else if i == 3 {
        R14
    } else {
        R15
    }
}

/// Whether the plan pushes a callee-saved register.
fn pushes(plan: &FnPlan, reg: u8) -> (b: bool)
    ensures
        b == ((reg as int) < plan.callee_saved_used@.len() && plan.callee_saved_used@[reg as int]),
{
    (reg as usize) < plan.callee_saved_used.len() && plan.callee_saved_used[reg as usize]
}

/// The pushes of the callee-saved registers the plan uses, from the `k`-th
/// on.
pub open spec fn push_code(used: Seq<bool>, k: int) -> Seq<u8>
    decreases 5 - k,
{
    if k < 0 || k >= 5 {
        Seq::empty()
    } else {
        (if (callee_saved(k) as int) < used.len() && used[callee_saved(k) as int] {
            enc_short(0x50, callee_saved(k))
        } else {
            Seq::empty()
        }) + push_code(used, k + 1)
    }
}

/// The pops of the callee-saved registers the plan uses, the `k`-th down
/// to the first.
pub open spec fn pop_code(used: Seq<bool>, k: int) -> Seq<u8>
    decreases k,
{
    if k <= 0 || k > 5 {
        Seq::empty()
    } else {
        (if (callee_saved(k - 1) as int) < used.len() && used[callee_saved(k - 1) as int] {
            enc_short(0x58, callee_saved(k - 1))
        } else {
            Seq::empty()
        }) + pop_code(used, k - 1)
    }
}

/// The moves of parameters `i` onwards (of `n`) from the argument registers
/// into their virtual registers.
pub open spec fn param_code(n: int, i: int) -> Seq<u8>
    decreases n - i,
{
    if i < 0 || i >= n {
        Seq::empty()
    } else {
        (if reg_of((i + 1) as u32) != arg_reg(i) {
            enc_mov(reg_of((i + 1) as u32), arg_reg(i))
        } else {
            Seq::empty()
        }) + param_code(n, i + 1)
    }
}

/// The prologue of a function with `n` parameters under plan `p`.
pub open spec fn prologue_code(p: PlanView, n: int) -> Seq<u8> {
    enc_short(0x50, RBP) + enc_mov(RBP, RSP) + push_code(p.callee_saved_used, 0) + (if p.frame_bytes > 0 {
        enc_unary(0x81, 5, RSP) + le32(p.frame_bytes)
    } else {
        Seq::empty()
    }) + seq![0x31u8, 0xC0u8] + param_code(n, 0)
}

/// The epilogue of a function under plan `p`.
pub open spec fn epilogue_code(p: PlanView) -> Seq<u8> {
    (if p.frame_bytes > 0 {
        enc_unary(0x81, 0, RSP) + le32(p.frame_bytes)
    } else {
        Seq::empty()
    }) + pop_code(p.callee_saved_used, 5) + enc_short(0x58, RBP) + seq![0xC3u8]
}

/// What the code of a function's body depends on under plan `p`.
pub open spec fn plan_ctx(p: PlanView, tbl: Seq<(Seq<char>, usize)>, layout: JitLayout) -> GenCtx {
    GenCtx { pushed: p.pushed_bytes, save: p.save_off, vars: p.vars, tbl, layout, pc: p.param_count }
}

/// The machine code of a function with `n` parameters and body `body`
/// under plan `p`, and the data buffer after it: the prologue, the body
/// with its `返回` jumps filled in to the epilogue, `xor eax, eax` for a
/// body that runs off its end, and the epilogue.
pub open spec fn fn_code(p: PlanView, n: int, body: NodeView, d: Seq<u8>, tbl: Seq<(Seq<char>, usize)>, layout: JitLayout) -> (Seq<u8>, Seq<u8>) {
    let pro = prologue_code(p, n);
    let g = stmt_gen(body, pro.len() as int, 0, d, plan_ctx(p, tbl, layout));
    let main = pro + g.code + seq![0x31u8, 0xC0u8];
    (fill(main, with_label(g.rets, 0), 0, main.len() as i128) + epilogue_code(p), g.data)
}

/// Compiles one function and appends its code to the shared code buffer:
/// prologue (`push rbp; mov rbp, rsp`, the callee-saved registers it uses,
/// the frame, `xor eax, eax`, parameters from the argument registers), the
/// body, `xor eax, eax` where the body runs off its end (such a function
/// gives 0), and the epilogue (frame released, registers popped, `pop rbp;
/// ret`; `返回` jumps there). Gives its entry address, or `None` where code generation stops (a
/// call with more than six arguments, a name without a register).
fn emit_function(jit: &mut JitState, plan: &FnPlan, params: &Vec<String>, body: &Node) -> (entry: Option<usize>)
    requires
        params@.len() <= JIT_MAX_PARAMS,
    ensures
        final(jit).layout == old(jit).layout,
        final(jit).table_idx == old(jit).table_idx,
        entry is Some ==> old(jit).code@.is_prefix_of(final(jit).code@),
        entry is Some ==> final(jit).code@.len() > old(jit).code@.len(),
        entry matches Some(a) ==> a == old(jit).layout.code_base.wrapping_add(old(jit).code@.len() as usize),
        entry is None ==> final(jit).code == old(jit).code,
        wide_stmt(body@) ==> entry is None,
        !wide_stmt(body@) && ok_stmt(body@, table_view(plan.vars@), table_view(old(jit).table_idx@)) ==> entry is Some,
        entry is Some ==> final(jit).code@ == old(jit).code@ + fn_code(plan@, params@.len() as int, body@, old(jit).data@, table_view(old(jit).table_idx@), old(jit).layout).0,
        entry is Some ==> final(jit).data@ == fn_code(plan@, params@.len() as int, body@, old(jit).data@, table_view(old(jit).table_idx@), old(jit).layout).1,
{
    let mut comp = FnCompiler { plan, em: Emitter::new(), epilogue: 0, next: 0, failed: false };
    let epi = comp.em.new_label();
    comp.epilogue = epi;
    comp.em.short(0x50, RBP);
    comp.em.mov(RBP, RSP);
    let ghost used = plan.callee_saved_used@;
    let ghost head = enc_short(0x50, RBP) + enc_mov(RBP, RSP);
    assert(comp.em.code@ =~= head);
    let mut k: usize = 0;
    while k < 5
        invariant
            k <= 5,
            used == plan.callee_saved_used@,
            comp.em.code@ + push_code(used, k as int) == head + push_code(used, 0),
            comp.ok(),
            comp.plan == plan,
            comp.epilogue == epi,
            !comp.failed,
            comp.next == 0,
            comp.em.label_pos@ == seq![-1i128],
            comp.em.patches@ == Seq::<(usize, u64)>::empty(),
        decreases 5 - k,
    {
        let ghost ck = comp.em.code@;
        let reg = callee_saved_of(k);
        if pushes(plan, reg) {
            comp.em.short(0x50, reg);
        }
        assert(comp.em.code@ + push_code(used, k + 1) =~= ck + push_code(used, k as int));
        k = k + 1;
    }
    if plan.frame_bytes > 0 {
        comp.em.rsp_imm(5, plan.frame_bytes);
    }
    comp.em.xor_eax();
    let ghost c_pre = comp.em.code@;
    assert(c_pre + param_code(params@.len() as int, 0) =~= prologue_code(plan@, params@.len() as int));
    let mut i: usize = 0;
    while i < params.len()
        invariant
            i <= params@.len() <= JIT_MAX_PARAMS,
            comp.em.code@ + param_code(params@.len() as int, i as int) == prologue_code(plan@, params@.len() as int),
            comp.ok(),
            comp.plan == plan,
            comp.epilogue == epi,
            !comp.failed,
            comp.next == 0,
            comp.em.label_pos@ == seq![-1i128],
            comp.em.patches@ == Seq::<(usize, u64)>::empty(),
        decreases params@.len() - i,
    {
        let v = (i + 1) as u32;
        let p = match phys(v) {
            Some(p) => p,
            None => RAX,
        };
        let a = arg_reg_of(i);
        let ghost ci = comp.em.code@;
        if p != a {
            comp.em.mov(p, a);
        }
        assert(comp.em.code@ + param_code(params@.len() as int, i + 1) =~= ci + param_code(params@.len() as int, i as int));
        i = i + 1;
    }
    let ghost pro = comp.em.code@;
    assert(pro == prologue_code(plan@, params@.len() as int));
    let ghost d0 = jit.data@;
    let ghost cx = comp.gen_ctx(*jit);
    assert(cx == plan_ctx(plan@, table_view(jit.table_idx@), jit.layout));
    let ghost g = stmt_gen(body@, pro.len() as int, 0, d0, cx);
    comp.compile_stmt(jit, body);
    if comp.failed {
        return None;
    }
    comp.em.xor_eax();
    let ghost main = comp.em.code@;
    assert(main =~= pro + g.code + seq![0x31u8, 0xC0u8]);
    assert(comp.em.patches@ =~= with_label(g.rets, 0));
    comp.em.bind_label(epi);
    let ghost body_done = comp.em.code@;
    if plan.frame_bytes > 0 {
        comp.em.rsp_imm(0, plan.frame_bytes);
    }
    let ghost c_pop = comp.em.code@;
    let mut k: usize = 5;
    while k > 0
        invariant
            k <= 5,
            comp.plan == plan,
            used == plan.callee_saved_used@,
            comp.em.code@ + pop_code(used, k as int) == c_pop + pop_code(used, 5),
        decreases k,
    {
        let ghost ck = comp.em.code@;
        let reg = callee_saved_of(k - 1);
        if pushes(plan, reg) {
            comp.em.short(0x58, reg);
        }
        assert(comp.em.code@ + pop_code(used, k - 1) =~= ck + pop_code(used, k as int));
        k = k - 1;
    }
    comp.em.short(0x58, RBP);
    comp.em.ret();
    assert(comp.em.code@ =~= body_done + epilogue_code(plan@));
    let entry = jit.layout.code_base.wrapping_add(jit.code.len());
    let ghost c0 = jit.code@;
    let code = comp.em.code;
    let mut j: usize = 0;
    while j < code.len()
        invariant
            j <= code@.len(),
            jit.code@ == c0 + code@.subrange(0, j as int),
            jit.data@ == g.data,
            jit.layout == old(jit).layout,
            jit.table_idx == old(jit).table_idx,
        decreases code@.len() - j,
    {
        jit.code.push(code[j]);
        assert(code@.subrange(0, j + 1) =~= code@.subrange(0, j as int).push(code@[j as int]));
        j = j + 1;
    }
    assert(code@.subrange(0, code@.len() as int) =~= code@);
    assert(jit.code@ =~= c0 + fn_code(plan@, params@.len() as int, body@, d0, table_view(jit.table_idx@), jit.layout).0);
    assert(c0.is_prefix_of(jit.code@)) by {
        assert(jit.code@.subrange(0, c0.len() as int) =~= c0);
    }
    Some(entry)
}

// ---------------------------------------------------------------------
// Compiling the function table.
// ---------------------------------------------------------------------

/// The names of the user functions a node calls, in source order.
pub open spec fn callees_of(n: NodeView) -> Seq<Seq<char>>
    decreases n, 1int,
{
    match n {
        NodeView::Call { name, args, .. } => (if name != crate::vm::print_name() {
            seq![name]
        } else {
            Seq::empty()
        }) + callees_list(args, 0),
        NodeView::Binary { left, right, .. } => callees_of(*left) + callees_of(*right),
        NodeView::Var { right, .. } => callees_of(*right),
        NodeView::Assign { right, .. } => callees_of(*right),
        NodeView::Return { value, .. } => match value {
            Some(v) => callees_of(*v),
            None => Seq::empty(),
        },
        NodeView::If { cond, then, else_b, .. } => callees_of(*cond) + callees_of(*then) + match else_b {
            Some(e) => callees_of(*e),
            None => Seq::empty(),
        },
        NodeView::While { cond, body, .. } => callees_of(*cond) + callees_of(*body),
        NodeView::Block { stmts, .. } => callees_list(stmts, 0),
        NodeView::Prog { stmts } => callees_list(stmts, 0),
        _ => Seq::empty(),
    }
}

pub open spec fn callees_list(ns: Seq<NodeView>, i: int) -> Seq<Seq<char>>
    decreases ns, ns.len() - i,
{
    if i < 0 || i >= ns.len() {
        Seq::empty()
    } else {
        callees_of(ns[i]) + callees_list(ns, i + 1)
    }
}

fn push_names(out: &mut Vec<String>, extra: Vec<String>)
    ensures
        crate::vm::names_view(final(out)@) == crate::vm::names_view(old(out)@) + crate::vm::names_view(extra@),
{
    let ghost o = crate::vm::names_view(out@);
    let mut extra = extra;
    let ghost ev = crate::vm::names_view(extra@);
    let mut rev: Vec<String> = Vec::new();
    while extra.len() > 0
        invariant
            crate::vm::names_view(extra@) + crate::vm::names_view(rev@).reverse() == ev,
        decreases extra@.len(),
    {
        let ghost before = extra@;
        let x = extra.pop().unwrap();
        let ghost rb = rev@;
        rev.push(x);
        assert(crate::vm::names_view(before) =~= crate::vm::names_view(extra@).push(x@));
        assert(crate::vm::names_view(rev@) =~= crate::vm::names_view(rb).push(x@));
        assert(crate::vm::names_view(rev@).reverse() =~= seq![x@] + crate::vm::names_view(rb).reverse());
        assert(crate::vm::names_view(extra@) + crate::vm::names_view(rev@).reverse() =~= crate::vm::names_view(before)
            + crate::vm::names_view(rb).reverse());
    }
    assert(crate::vm::names_view(rev@).reverse() =~= ev);
    while rev.len() > 0
        invariant
            crate::vm::names_view(out@) + crate::vm::names_view(rev@).reverse() == o + ev,
        decreases rev@.len(),
    {
        let ghost before = rev@;
        let ghost ob = out@;
        let x = rev.pop().unwrap();
        out.push(x);
        assert(crate::vm::names_view(before) =~= crate::vm::names_view(rev@).push(x@));
        assert(crate::vm::names_view(before).reverse() =~= seq![x@] + crate::vm::names_view(rev@).reverse());
        assert(crate::vm::names_view(out@) =~= crate::vm::names_view(ob).push(x@));
        assert(crate::vm::names_view(out@) + crate::vm::names_view(rev@).reverse() =~= crate::vm::names_view(ob)
            + crate::vm::names_view(before).reverse());
    }
    assert(crate::vm::names_view(rev@).reverse() =~= Seq::<Seq<char>>::empty());
    assert(crate::vm::names_view(out@) =~= o + ev);
}

/// The user functions a node calls, in source order.
fn collect_callees(n: &Node) -> (out: Vec<String>)
    ensures
        crate::vm::names_view(out@) == callees_of(n@),
    decreases n, 1int,
{
    let mut out: Vec<String> = Vec::new();
    match n {
        Node::Call { name, args, .. } => {
            if !crate::vm::is_print_name(name) {
                out.push(name.clone());
            }
            let rest = collect_list(n, args);
            push_names(&mut out, rest);
            proof {
                if name@ != crate::vm::print_name() {
                    assert(crate::vm::names_view(seq![*name]) =~= seq![name@]);
                }
            }
        },
        Node::Binary { left, right, .. } => {
            push_names(&mut out, collect_callees(left));
            push_names(&mut out, collect_callees(right));
        },
        Node::Var { right, .. } => {
            push_names(&mut out, collect_callees(right));
        },
        Node::Assign { right, .. } => {
            push_names(&mut out, collect_callees(right));
        },
        Node::Return { value, .. } => match value {
            Some(v) => {
                push_names(&mut out, collect_callees(v));
            },
            None => {},
        },
        Node::If { cond, then, else_b, .. } => {
            push_names(&mut out, collect_callees(cond));
            push_names(&mut out, collect_callees(then));
            match else_b {
                Some(e) => {
                    push_names(&mut out, collect_callees(e));
                },
                None => {},
            }
        },
        Node::While { cond, body, .. } => {
            push_names(&mut out, collect_callees(cond));
            push_names(&mut out, collect_callees(body));
        },
        Node::Block { stmts, .. } => {
            push_names(&mut out, collect_list(n, stmts));
        },
        Node::Prog { stmts } => {
            push_names(&mut out, collect_list(n, stmts));
        },
        _ => {},
    }
    assert(crate::vm::names_view(out@) =~= callees_of(n@));
    out
}

fn collect_list(parent: &Node, ns: &Vec<Node>) -> (out: Vec<String>)
    requires
        (parent is Block && parent->Block_stmts == *ns) || (parent is Prog && parent->Prog_stmts == *ns) || (
        parent is Call && parent->Call_args == *ns),
    ensures
        crate::vm::names_view(out@) == callees_list(nodes_view(ns@), 0),
    decreases parent, 0int,
{
    let ghost sv = nodes_view(ns@);
    let mut out: Vec<String> = Vec::new();
    let mut i: usize = 0;
    while i < ns.len()
        invariant
            i <= ns@.len(),
            sv == nodes_view(ns@),
            (parent is Block && parent->Block_stmts == *ns) || (parent is Prog && parent->Prog_stmts == *ns) || (
            parent is Call && parent->Call_args == *ns),
            crate::vm::names_view(out@) + callees_list(sv, i as int) == callees_list(sv, 0),
        decreases ns@.len() - i,
    {
        assert(sv[i as int] == ns@[i as int]@);
        assert(decreases_to!(parent => ns@[i as int]));
        let ghost before = crate::vm::names_view(out@);
        push_names(&mut out, collect_callees(&ns[i]));
        assert(before + callees_list(sv, i as int) =~= crate::vm::names_view(out@) + callees_list(sv, i + 1));
        i = i + 1;
    }
    assert(crate::vm::names_view(out@) =~= callees_list(sv, 0));
    out
}

/// A function definition that can be planned.
pub open spec fn plannable(f: NodeView) -> bool {
    match f {
        NodeView::Func { params, body, .. } => plan_spec(params, *body) is Some,
        _ => false,
    }
}

/// Function `k` can be planned and all it calls is in `s`.
pub open spec fn jit_callees_in(fs: Seq<NodeView>, s: Seq<bool>, k: int) -> bool {
    &&& plannable(fs[k])
    &&& forall|u: int|
        0 <= u < callees_of(body_of(fs[k])).len() ==> #[trigger] callee_in(fs, s, callees_of(body_of(fs[k]))[u])
}

/// A set of functions closed under calls, each of which can be planned.
pub open spec fn jit_closed(fs: Seq<NodeView>, s: Seq<bool>) -> bool {
    &&& s.len() == fs.len()
    &&& forall|k: int| 0 <= k < s.len() && #[trigger] s[k] ==> jit_callees_in(fs, s, k)
}

/// The functions compiled to machine code: the largest closed set.
pub open spec fn jit_able(fs: Seq<NodeView>, i: int) -> bool {
    exists|s: Seq<bool>| #[trigger] jit_closed(fs, s) && s[i]
}

pub open spec fn jit_set(fs: Seq<NodeView>) -> Seq<bool> {
    Seq::new(fs.len(), |i: int| jit_able(fs, i))
}

/// The number of parameters of a function definition.
pub open spec fn param_count_of(f: NodeView) -> int {
    match f {
        NodeView::Func { params, .. } => params.len() as int,
        _ => 0,
    }
}

/// The code buffer and data buffer after compiling, in order, those of the
/// first `i` definitions that `e` marks.
pub open spec fn jit_out(fs: Seq<NodeView>, e: Seq<bool>, tbl: Seq<(Seq<char>, usize)>, layout: JitLayout, i: int) -> (Seq<u8>, Seq<u8>)
    decreases i,
{
    if i <= 0 {
        (Seq::empty(), Seq::empty())
    } else {
        let prev = jit_out(fs, e, tbl, layout, i - 1);
        if e[i - 1] && plan_of(fs[i - 1]) is Some {
            let f = fn_code(plan_of(fs[i - 1]).unwrap(), param_count_of(fs[i - 1]), body_of(fs[i - 1]), prev.1, tbl, layout);
            (prev.0 + f.0, f.1)
        } else {
            prev
        }
    }
}

/// Entry `k` of the table: the address where the code of its writer (the
/// last compiled definition of that name) starts.
pub open spec fn entry_of(fs: Seq<NodeView>, e: Seq<bool>, m: Seq<(Seq<char>, usize)>, layout: JitLayout, k: int, i: int) -> usize {
    let w = crate::vm::writer(fs, e, m, k, i);
    if w >= 0 {
        layout.code_base.wrapping_add(jit_out(fs, e, m, layout, w).0.len() as usize)
    } else {
        0
    }
}

proof fn lemma_jit_out_empty(fs: Seq<NodeView>, e: Seq<bool>, tbl: Seq<(Seq<char>, usize)>, layout: JitLayout, i: int)
    requires
        forall|k: int| 0 <= k < i ==> !e[k],
    ensures
        jit_out(fs, e, tbl, layout, i) == (Seq::<u8>::empty(), Seq::<u8>::empty()),
    decreases i,
{
    if i > 0 {
        lemma_jit_out_empty(fs, e, tbl, layout, i - 1);
    }
}

/// The machine-code engine compiled from the function definitions `fs`
/// for the addresses `layout`: its names and entries are those of the
/// largest closed set; its code is the code of those functions one after
/// the other, its data buffer the literals they print; each entry is where
/// its function's code starts.
pub open spec fn jit_compiled(fs: Seq<NodeView>, layout: JitLayout, e: JitEngine) -> bool {
    let s = jit_set(fs);
    let m = engine_map(fs, s, fs.len() as int);
    &&& table_view(e.map@) == m
    &&& e.entries@.len() == slot_count(s, fs.len() as int)
    &&& e.code@ == jit_out(fs, s, m, layout, fs.len() as int).0
    &&& e.data@ == jit_out(fs, s, m, layout, fs.len() as int).1
    &&& forall|k: int| 0 <= k < e.entries@.len() ==> #[trigger] e.entries@[k] == entry_of(fs, s, m, layout, k, fs.len() as int)
}

/// Compiles the function table to machine code for the given addresses:
/// decides which functions compile (the largest set of plannable functions
/// closed under calls), numbers them in order of definition, and emits
/// each into the shared code buffer. `None` exactly where code generation
/// stops: a compiled function calls a user function with more than six
/// arguments (every name it looks up is found, as the plan and the closed
/// set guarantee).
#[verifier::rlimit(60)]
pub fn compile_functions(fns: &Vec<Node>, layout: &JitLayout) -> (r: Option<JitEngine>)
    ensures
        r matches Some(e) ==> jit_compiled(nodes_view(fns@), *layout, e),
        r is None <==> jit_wide(nodes_view(fns@)),
{
    let ghost fs = nodes_view(fns@);
    let n = fns.len();
    let mut plans: Vec<Option<FnPlan>> = Vec::new();
    let mut callees: Vec<Vec<String>> = Vec::new();
    let mut names: Vec<(String, usize)> = Vec::new();
    let mut i: usize = 0;
    while i < n
        invariant
            n == fns@.len(),
            fs == nodes_view(fns@),
            i <= n,
            plans@.len() == i,
            callees@.len() == i,
            forall|j: int| 0 <= j < i ==> (#[trigger] plans@[j] is Some) == plannable(fs[j]),
            forall|j: int| 0 <= j < i && (#[trigger] plans@[j]) is Some ==> plan_of(fs[j]) == Some(plans@[j].unwrap()@),
            forall|j: int| 0 <= j < i && plannable(fs[j]) ==> crate::vm::names_view((#[trigger] callees@[j])@) == callees_of(body_of(fs[j])),
            table_view(names@) == name_index(fs, i as int),
        decreases n - i,
    {
        assert(fs[i as int] == fns@[i as int]@);
        match crate::vm::func_parts(&fns[i]) {
            Some((name, params, body)) => {
                table_insert(&mut names, name.clone(), i);
                plans.push(plan_function(params, body));
                callees.push(collect_callees(body));
            },
            None => {
                plans.push(None);
                callees.push(Vec::new());
            },
        }
        i = i + 1;
    }
    let mut eligible: Vec<bool> = Vec::new();
    let mut i: usize = 0;
    while i < n
        invariant
            n == fns@.len(),
            i <= n,
            plans@.len() == n,
            forall|j: int| 0 <= j < n ==> (#[trigger] plans@[j] is Some) == plannable(fs[j]),
            eligible@.len() == i,
            forall|j: int| 0 <= j < i ==> #[trigger] eligible@[j] == plannable(fs[j]),
        decreases n - i,
    {
        assert((plans@[i as int] is Some) == plannable(fs[i as int]));
        eligible.push(plans[i].is_some());
        i = i + 1;
    }
    proof {
        assert forall|s: Seq<bool>| #[trigger] jit_closed(fs, s) implies subset_of(s, eligible@) by {
            assert forall|j: int| 0 <= j < s.len() && #[trigger] s[j] implies j < eligible@.len() && eligible@[j] by {
                assert(jit_callees_in(fs, s, j));
            }
        }
    }
    let mut changed = true;
    while changed
        invariant
            n == fns@.len(),
            fs == nodes_view(fns@),
            callees@.len() == n,
            forall|j: int| 0 <= j < n && plannable(fs[j]) ==> crate::vm::names_view((#[trigger] callees@[j])@) == callees_of(body_of(fs[j])),
            table_view(names@) == name_index(fs, n as int),
            eligible@.len() == n,
            forall|j: int| 0 <= j < n && #[trigger] eligible@[j] ==> plannable(fs[j]),
            forall|s: Seq<bool>| #[trigger] jit_closed(fs, s) ==> subset_of(s, eligible@),
            !changed ==> jit_closed(fs, eligible@),
        decreases count_true(eligible@) + if changed { 1nat } else { 0nat },
    {
        changed = false;
        let ghost start = eligible@;
        let mut i: usize = 0;
        while i < n
            invariant
                n == fns@.len(),
                fs == nodes_view(fns@),
                i <= n,
                callees@.len() == n,
                forall|j: int| 0 <= j < n && plannable(fs[j]) ==> crate::vm::names_view((#[trigger] callees@[j])@) == callees_of(body_of(fs[j])),
                table_view(names@) == name_index(fs, n as int),
                eligible@.len() == n,
                forall|j: int| 0 <= j < n && #[trigger] eligible@[j] ==> plannable(fs[j]),
                forall|s: Seq<bool>| #[trigger] jit_closed(fs, s) ==> subset_of(s, eligible@),
                !changed ==> eligible@ == start,
                changed ==> count_true(eligible@) < count_true(start),
                count_true(eligible@) <= count_true(start),
                !changed ==> forall|k: int| 0 <= k < i && #[trigger] eligible@[k] ==> jit_callees_in(fs, eligible@, k),
            decreases n - i,
        {
            if eligible[i] {
                let cs = &callees[i];
                let ghost cv = crate::vm::names_view(cs@);
                assert(cv == callees_of(body_of(fs[i as int])));
                let ghost entry = eligible@;
                let ghost was_changed = changed;
                let mut t: usize = 0;
                let mut cut = false;
                while t < cs.len() && !cut
                    invariant
                        n == fns@.len(),
                        fs == nodes_view(fns@),
                        i < n,
                        table_view(names@) == name_index(fs, n as int),
                        eligible@.len() == n,
                        forall|j: int| 0 <= j < n && #[trigger] eligible@[j] ==> plannable(fs[j]),
                        forall|s: Seq<bool>| #[trigger] jit_closed(fs, s) ==> subset_of(s, eligible@),
                        cv == crate::vm::names_view(cs@),
                        cv == callees_of(body_of(fs[i as int])),
                        t <= cs@.len(),
                        !cut ==> eligible@ == entry && changed == was_changed,
                        !cut ==> forall|u: int| 0 <= u < t ==> #[trigger] callee_in(fs, eligible@, cv[u]),
                        cut ==> changed && count_true(eligible@) < count_true(entry),
                        entry[i as int],
                        plannable(fs[i as int]),
                    decreases cs@.len() - t + if cut { 0int } else { 1int },
                {
                    let ghost c = cv[t as int];
                    assert(cs@[t as int]@ == c);
                    let bad = match crate::vm::table_lookup(&names, &cs[t]) {
                        Some(j) => {
                            proof {
                                lemma_name_index_bound(fs, n as int, c);
                            }
                            !eligible[j]
                        },
                        None => true,
                    };
                    if bad {
                        proof {
                            assert(!callee_in(fs, eligible@, c));
                            assert forall|s: Seq<bool>| #[trigger] jit_closed(fs, s) implies subset_of(
                                s,
                                eligible@.update(i as int, false),
                            ) by {
                                assert(subset_of(s, eligible@));
                                assert forall|j: int| 0 <= j < s.len() && #[trigger] s[j] implies j
                                    < eligible@.update(i as int, false).len() && eligible@.update(
                                    i as int,
                                    false,
                                )[j] by {
                                    if j == i {
                                        assert(jit_callees_in(fs, s, i as int));
                                        assert(callee_in(fs, s, cv[t as int]));
                                    }
                                }
                            }
                            lemma_count_clear(eligible@, i as int);
                        }
                        eligible.set(i, false);
                        changed = true;
                        cut = true;
                    } else {
                        t = t + 1;
                    }
                }
                proof {
                    if !cut {
                        assert(jit_callees_in(fs, eligible@, i as int));
                    }
                }
            }
            i = i + 1;
        }
    }
    proof {
        assert forall|j: int| 0 <= j < n implies eligible@[j] == jit_able(fs, j) by {
            if eligible@[j] {
                assert(jit_closed(fs, eligible@));
            }
            if jit_able(fs, j) {
                let s = choose|s: Seq<bool>| #[trigger] jit_closed(fs, s) && s[j];
                assert(subset_of(s, eligible@));
            }
        }
        assert(eligible@ =~= jit_set(fs));
    }
    let ghost e = eligible@;
    let mut entries: Vec<usize> = Vec::new();
    let mut map: Vec<(String, usize)> = Vec::new();
    let mut i: usize = 0;
    while i < n
        invariant
            n == fns@.len(),
            fs == nodes_view(fns@),
            i <= n,
            e == eligible@,
            e.len() == n,
            forall|j: int| 0 <= j < n && #[trigger] e[j] ==> plannable(fs[j]),
            entries@.len() == slot_count(e, i as int),
            table_view(map@) == engine_map(fs, e, i as int),
            forall|k: int| 0 <= k < entries@.len() ==> #[trigger] entries@[k] == 0,
        decreases n - i,
    {
        assert(fs[i as int] == fns@[i as int]@);
        if eligible[i] {
            match crate::vm::func_parts(&fns[i]) {
                Some((name, _, _)) => {
                    let idx = entries.len();
                    table_insert(&mut map, name.clone(), idx);
                    entries.push(0);
                },
                None => {},
            }
        }
        i = i + 1;
    }
    if entries.len() == 0 {
        proof {
            lemma_no_slots(e, n as int);
            lemma_jit_out_empty(fs, e, engine_map(fs, e, n as int), *layout, n as int);
        }
        let r = JitEngine { entries, map, code: Vec::new(), data: Vec::new() };
        assert(r.code@ =~= Seq::<u8>::empty());
        assert(r.data@ =~= Seq::<u8>::empty());
        return Some(r);
    }
    let mut jit = JitState {
        data: Vec::new(),
        layout: JitLayout { ..*layout },
        table_idx: copy_table(&map),
        code: Vec::new(),
    };
    let ghost mm = engine_map(fs, e, n as int);
    assert(jit.code@ =~= jit_out(fs, e, mm, *layout, 0).0);
    assert(jit.data@ =~= jit_out(fs, e, mm, *layout, 0).1);
    let mut i: usize = 0;
    while i < n
        invariant
            n == fns@.len(),
            fs == nodes_view(fns@),
            i <= n,
            plans@.len() == n,
            mm == engine_map(fs, e, n as int),
            jit.layout == *layout,
            jit.code@ == jit_out(fs, e, mm, *layout, i as int).0,
            jit.data@ == jit_out(fs, e, mm, *layout, i as int).1,
            forall|k: int| 0 <= k < entries@.len() ==> #[trigger] entries@[k] == entry_of(fs, e, mm, *layout, k, i as int),
            forall|j: int| 0 <= j < n ==> (#[trigger] plans@[j] is Some) == plannable(fs[j]),
            forall|j: int| 0 <= j < n && (#[trigger] plans@[j]) is Some ==> plan_of(fs[j]) == Some(plans@[j].unwrap()@),
            jit_closed(fs, e),
            table_view(jit.table_idx@) == engine_map(fs, e, n as int),
            e == eligible@,
            e == jit_set(fs),
            e.len() == n,
            forall|j: int| 0 <= j < n && #[trigger] e[j] ==> plannable(fs[j]),
            entries@.len() == slot_count(e, n as int),
            table_view(map@) == engine_map(fs, e, n as int),
            forall|k: int| 0 <= k < i && #[trigger] e[k] ==> !wide_stmt(body_of(fs[k])),
        decreases n - i,
    {
        assert(fs[i as int] == fns@[i as int]@);
        let ghost before = entries@;
        let ghost code_i = jit.code@;
        if eligible[i] {
            assert(plans@[i as int] is Some);
            match (crate::vm::func_parts(&fns[i]), &plans[i]) {
                (Some((name, params, body)), Some(plan)) => {
                    proof {
                        lemma_callees_in_table(fs, e, i as int);
                        lemma_plan_names(crate::vm::names_view(params@), body@, engine_map(fs, e, n as int));
                        assert(plan@ == plan_of(fs[i as int]).unwrap());
                        assert(crate::vm::names_view(params@).len() == params@.len());
                        assert(param_count_of(fs[i as int]) == params@.len());
                        lemma_engine_map(fs, e, n as int, name@);
                    }
                    if params.len() <= JIT_MAX_PARAMS {
                        match emit_function(&mut jit, plan, params, body) {
                            Some(entry) => match crate::vm::table_lookup(&map, name) {
                                Some(idx) => {
                                    if idx < entries.len() {
                                        entries.set(idx, entry);
                                    }
                                    proof {
                                        assert forall|k: int| 0 <= k < entries@.len() implies #[trigger] entries@[k] == entry_of(
                                            fs,
                                            e,
                                            mm,
                                            *layout,
                                            k,
                                            i + 1,
                                        ) by {
                                            if k != idx {
                                                assert(entries@[k] == before[k]);
                                                assert(entry_of(fs, e, mm, *layout, k, i as int) == before[k]);
                                            }
                                        }
                                    }
                                },
                                None => {},
                            },
                            None => {
                                assert(e[i as int] && wide_stmt(body_of(fs[i as int])));
                                return None;
                            },
                        }
                    }
                },
                _ => {},
            }
        } else {
            proof {
                assert forall|k: int| 0 <= k < entries@.len() implies #[trigger] entries@[k] == entry_of(fs, e, mm, *layout, k, i + 1) by {
                    assert(entries@[k] == before[k]);
                    assert(entry_of(fs, e, mm, *layout, k, i as int) == before[k]);
                }
            }
        }
        i = i + 1;
    }
    Some(JitEngine { entries, map, code: jit.code, data: jit.data })
}

/// Every name of `a` has an entry in `b`.
pub open spec fn keys_sub(a: Seq<(Seq<char>, u32)>, b: Seq<(Seq<char>, u32)>) -> bool {
    forall|c: Seq<char>| #[trigger] lookup(a, c) is Some ==> lookup(b, c) is Some
}

/// Every name of `cs` has an entry in `t`.
pub open spec fn calls_ok(cs: Seq<Seq<char>>, t: Seq<(Seq<char>, usize)>) -> bool {
    forall|u: int| 0 <= u < cs.len() ==> #[trigger] lookup(t, cs[u]) is Some
}

/// The plan of a function definition.
pub open spec fn plan_of(f: NodeView) -> Option<PlanView> {
    match f {
        NodeView::Func { params, body, .. } => plan_spec(params, *body),
        _ => None,
    }
}

proof fn lemma_calls_concat(a: Seq<Seq<char>>, b: Seq<Seq<char>>, t: Seq<(Seq<char>, usize)>)
    requires
        calls_ok(a + b, t),
    ensures
        calls_ok(a, t),
        calls_ok(b, t),
{
    assert forall|u: int| 0 <= u < a.len() implies #[trigger] lookup(t, a[u]) is Some by {
        assert((a + b)[u] == a[u]);
    }
    assert forall|u: int| 0 <= u < b.len() implies #[trigger] lookup(t, b[u]) is Some by {
        assert((a + b)[a.len() + u] == b[u]);
    }
}

proof fn lemma_insert_keys(a: Seq<(Seq<char>, u32)>, b: Seq<(Seq<char>, u32)>, k: Seq<char>, x: u32, y: u32)
    requires
        keys_sub(a, b),
    ensures
        keys_sub(insert(a, k, x), insert(b, k, y)),
        keys_sub(b, insert(b, k, y)),
        lookup(insert(b, k, y), k) is Some,
{
    assert forall|c: Seq<char>| #[trigger] lookup(insert(a, k, x), c) is Some implies lookup(insert(b, k, y), c) is Some by {
        lemma_lookup_insert(a, k, x, c);
        lemma_lookup_insert(b, k, y, c);
    }
    assert forall|c: Seq<char>| #[trigger] lookup(b, c) is Some implies lookup(insert(b, k, y), c) is Some by {
        lemma_lookup_insert(b, k, y, c);
    }
    lemma_lookup_insert(b, k, y, k);
}

/// Counting a statement only adds names to the table.
proof fn lemma_cnt_grows(st: NodeView, next: u32, base: u32, v: Seq<(Seq<char>, u32)>)
    ensures
        keys_sub(v, cnt_stmt(st, next, base, v).1),
    decreases st, 1int,
{
    match st {
        NodeView::Var { name, .. } => {
            lemma_insert_keys(v, v, name, 0, base.wrapping_add(next));
        },
        NodeView::If { cond, then, else_b, .. } => {
            let a = cnt_expr(*cond, next.wrapping_add(1));
            lemma_cnt_grows(*then, a, base, v);
            let (b, v1) = cnt_stmt(*then, a, base, v);
            if let Some(e) = else_b {
                lemma_cnt_grows(*e, b, base, v1);
            }
        },
        NodeView::While { cond, body, .. } => {
            lemma_cnt_grows(*body, cnt_expr(*cond, next.wrapping_add(1)), base, v);
        },
        NodeView::Block { stmts, .. } => lemma_cnts_grows(stmts, 0, next, base, v),
        NodeView::Prog { stmts } => lemma_cnts_grows(stmts, 0, next, base, v),
        _ => {},
    }
}

proof fn lemma_cnts_grows(stmts: Seq<NodeView>, i: int, next: u32, base: u32, v: Seq<(Seq<char>, u32)>)
    ensures
        keys_sub(v, cnt_stmts(stmts, i, next, base, v).1),
    decreases stmts, stmts.len() - i,
{
    if 0 <= i < stmts.len() {
        let (a, v1) = cnt_stmt(stmts[i], next, base, v);
        lemma_cnt_grows(stmts[i], next, base, v);
        lemma_cnts_grows(stmts, i + 1, a, base, v1);
    }
}

/// An expression that scans as VM-able names only known variables, and the
/// functions it calls are those of `callees_of`.
proof fn lemma_scan_expr(e: NodeView, s: ScanView, f: Seq<(Seq<char>, u32)>, t: Seq<(Seq<char>, usize)>)
    requires
        sc_expr(e, s) is Some,
        keys_sub(s.vars, f),
        calls_ok(callees_of(e), t),
    ensures
        ok_expr(e, f, t),
        sc_expr(e, s).unwrap().vars == s.vars,
    decreases e, 0int,
{
    match e {
        NodeView::Binary { left, right, .. } => {
            lemma_calls_concat(callees_of(*left), callees_of(*right), t);
            lemma_scan_expr(*left, s, f, t);
            let s1 = sc_expr(*left, s).unwrap();
            lemma_scan_expr(*right, s1, f, t);
        },
        NodeView::Call { name, args, .. } => {
            let pre: Seq<Seq<char>> = if name != crate::vm::print_name() {
                seq![name]
            } else {
                Seq::empty()
            };
            lemma_calls_concat(pre, callees_list(args, 0), t);
            if name == crate::vm::print_name() {
                lemma_scan_print_args(args, 0, s, f, t);
            } else {
                assert(lookup(t, pre[0]) is Some);
                lemma_scan_args(args, 0, ScanView { vars: s.vars, callees: s.callees.push(name) }, f, t);
            }
        },
        _ => {},
    }
}

proof fn lemma_scan_args(args: Seq<NodeView>, i: int, s: ScanView, f: Seq<(Seq<char>, u32)>, t: Seq<(Seq<char>, usize)>)
    requires
        sc_args(args, i, s) is Some,
        keys_sub(s.vars, f),
        calls_ok(callees_list(args, i), t),
    ensures
        ok_args(args, i, false, f, t),
        sc_args(args, i, s).unwrap().vars == s.vars,
    decreases args, args.len() - i,
{
    if 0 <= i < args.len() {
        lemma_calls_concat(callees_of(args[i]), callees_list(args, i + 1), t);
        lemma_scan_expr(args[i], s, f, t);
        let s1 = sc_expr(args[i], s).unwrap();
        lemma_scan_args(args, i + 1, s1, f, t);
    }
}

proof fn lemma_scan_print_args(
    args: Seq<NodeView>,
    i: int,
    s: ScanView,
    f: Seq<(Seq<char>, u32)>,
    t: Seq<(Seq<char>, usize)>,
)
    requires
        sc_print_args(args, i, s) is Some,
        keys_sub(s.vars, f),
        calls_ok(callees_list(args, i), t),
    ensures
        ok_args(args, i, true, f, t),
        sc_print_args(args, i, s).unwrap().vars == s.vars,
    decreases args, args.len() - i,
{
    if 0 <= i < args.len() {
        lemma_calls_concat(callees_of(args[i]), callees_list(args, i + 1), t);
        if args[i] is Str {
            lemma_scan_print_args(args, i + 1, s, f, t);
        } else {
            lemma_scan_expr(args[i], s, f, t);
            let s1 = sc_expr(args[i], s).unwrap();
            lemma_scan_print_args(args, i + 1, s1, f, t);
        }
    }
}

/// A statement that scans as VM-able names only variables that the
/// planned register table `f` holds, given the table before it (`v`) holds
/// the names known there.
proof fn lemma_scan_stmt(
    st: NodeView,
    s: ScanView,
    next: u32,
    base: u32,
    v: Seq<(Seq<char>, u32)>,
    f: Seq<(Seq<char>, u32)>,
    t: Seq<(Seq<char>, usize)>,
)
    requires
        sc_stmt(st, s) is Some,
        keys_sub(s.vars, v),
        keys_sub(cnt_stmt(st, next, base, v).1, f),
        calls_ok(callees_of(st), t),
    ensures
        ok_stmt(st, f, t),
        keys_sub(sc_stmt(st, s).unwrap().vars, cnt_stmt(st, next, base, v).1),
    decreases st, 1int,
{
    lemma_cnt_grows(st, next, base, v);
    match st {
        NodeView::Var { name, right, .. } => {
            lemma_scan_expr(*right, s, f, t);
            let s1 = sc_expr(*right, s).unwrap();
            lemma_insert_keys(s1.vars, v, name, s1.vars.len() as u32, base.wrapping_add(next));
        },
        NodeView::Assign { target, right, .. } => {
            if let NodeView::Ident { name, .. } = *target {
                lemma_scan_expr(*right, s, f, t);
            }
        },
        NodeView::Return { value, .. } => {
            if let Some(x) = value {
                lemma_scan_expr(*x, s, f, t);
            }
        },
        NodeView::If { cond, then, else_b, .. } => {
            let rest: Seq<Seq<char>> = match else_b {
                Some(e) => callees_of(*e),
                None => Seq::empty(),
            };
            lemma_calls_concat(callees_of(*cond) + callees_of(*then), rest, t);
            lemma_calls_concat(callees_of(*cond), callees_of(*then), t);
            let a = cnt_expr(*cond, next.wrapping_add(1));
            let (b, v1) = cnt_stmt(*then, a, base, v);
            lemma_cnt_grows(*then, a, base, v);
            if let Some(e) = else_b {
                lemma_cnt_grows(*e, b, base, v1);
            }
            lemma_scan_expr(*cond, s, f, t);
            let s1 = sc_expr(*cond, s).unwrap();
            lemma_scan_block(*then, s1, a, base, v, f, t);
            let s2 = sc_block(*then, s1).unwrap();
            if let Some(e) = else_b {
                lemma_scan_block(*e, s2, b, base, v1, f, t);
            }
        },
        NodeView::While { cond, body, .. } => {
            lemma_calls_concat(callees_of(*cond), callees_of(*body), t);
            let a = cnt_expr(*cond, next.wrapping_add(1));
            lemma_cnt_grows(*body, a, base, v);
            lemma_scan_expr(*cond, s, f, t);
            let s1 = sc_expr(*cond, s).unwrap();
            lemma_scan_block(*body, s1, a, base, v, f, t);
        },
        NodeView::Block { .. } => {
            lemma_scan_block(st, s, next, base, v, f, t);
        },
        NodeView::Prog { .. } => {},
        _ => {
            lemma_scan_expr(st, s, f, t);
        },
    }
}

proof fn lemma_scan_block(
    b: NodeView,
    s: ScanView,
    next: u32,
    base: u32,
    v: Seq<(Seq<char>, u32)>,
    f: Seq<(Seq<char>, u32)>,
    t: Seq<(Seq<char>, usize)>,
)
    requires
        sc_block(b, s) is Some,
        keys_sub(s.vars, v),
        keys_sub(cnt_stmt(b, next, base, v).1, f),
        calls_ok(callees_of(b), t),
    ensures
        ok_stmt(b, f, t),
        keys_sub(sc_block(b, s).unwrap().vars, cnt_stmt(b, next, base, v).1),
    decreases b, 0int,
{
    match b {
        NodeView::Block { stmts, .. } => lemma_scan_stmts(stmts, 0, s, next, base, v, f, t),
        NodeView::Prog { stmts } => lemma_scan_stmts(stmts, 0, s, next, base, v, f, t),
        _ => {},
    }
}

proof fn lemma_scan_stmts(
    stmts: Seq<NodeView>,
    i: int,
    s: ScanView,
    next: u32,
    base: u32,
    v: Seq<(Seq<char>, u32)>,
    f: Seq<(Seq<char>, u32)>,
    t: Seq<(Seq<char>, usize)>,
)
    requires
        sc_stmts(stmts, i, s) is Some,
        keys_sub(s.vars, v),
        keys_sub(cnt_stmts(stmts, i, next, base, v).1, f),
        calls_ok(callees_list(stmts, i), t),
    ensures
        ok_list(stmts, i, f, t),
        keys_sub(sc_stmts(stmts, i, s).unwrap().vars, cnt_stmts(stmts, i, next, base, v).1),
    decreases stmts, stmts.len() - i,
{
    if 0 <= i < stmts.len() {
        lemma_calls_concat(callees_of(stmts[i]), callees_list(stmts, i + 1), t);
        let (a, v1) = cnt_stmt(stmts[i], next, base, v);
        lemma_cnts_grows(stmts, i + 1, a, base, v1);
        lemma_scan_stmt(stmts[i], s, next, base, v, f, t);
        let s1 = sc_stmt(stmts[i], s).unwrap();
        lemma_scan_stmts(stmts, i + 1, s1, a, base, v1, f, t);
    }
}

proof fn lemma_param_slots(params: Seq<Seq<char>>, n: int)
    requires
        0 <= n <= params.len(),
    ensures
        keys_sub(crate::vm::param_vars(params, n), arg_slots(params, n)),
    decreases n,
{
    if n > 0 {
        lemma_param_slots(params, n - 1);
        lemma_insert_keys(
            crate::vm::param_vars(params, n - 1),
            arg_slots(params, n - 1),
            params[n - 1],
            (n - 1) as u32,
            n as u32,
        );
    }
}

/// A planned function names only variables of its register table.
proof fn lemma_plan_names(params: Seq<Seq<char>>, body: NodeView, t: Seq<(Seq<char>, usize)>)
    requires
        plan_spec(params, body) is Some,
        calls_ok(callees_of(body), t),
    ensures
        ok_stmt(body, plan_spec(params, body).unwrap().vars, t),
{
    let pc = params.len() as u32;
    let v0 = arg_slots(params, params.len() as int);
    let s0 = ScanView { vars: crate::vm::param_vars(params, params.len() as int), callees: Seq::empty() };
    lemma_param_slots(params, params.len() as int);
    let f = cnt_stmt(body, 0, (pc + 1) as u32, v0).1;
    assert(plan_spec(params, body).unwrap().vars == f);
    lemma_scan_block(body, s0, 0, (pc + 1) as u32, v0, f, t);
}

proof fn lemma_name_index_fname(fs: Seq<NodeView>, i: int, c: Seq<char>, j: usize)
    requires
        0 <= i <= fs.len(),
        fs.len() <= usize::MAX,
        lookup(name_index(fs, i), c) == Some(j),
    ensures
        j < i,
        fname(fs[j as int]) == c,
    decreases i,
{
    if i > 0 {
        if fs[i - 1] is Func {
            lemma_lookup_insert(name_index(fs, i - 1), fname(fs[i - 1]), (i - 1) as usize, c);
            if c != fname(fs[i - 1]) {
                lemma_name_index_fname(fs, i - 1, c, j);
            }
        } else {
            lemma_name_index_fname(fs, i - 1, c, j);
        }
    }
}

/// The functions a machine-code function calls all have entries.
proof fn lemma_callees_in_table(fs: Seq<NodeView>, e: Seq<bool>, k: int)
    requires
        jit_closed(fs, e),
        0 <= k < fs.len(),
        e[k],
        fs.len() <= usize::MAX,
    ensures
        calls_ok(callees_of(body_of(fs[k])), engine_map(fs, e, fs.len() as int)),
{
    let cs = callees_of(body_of(fs[k]));
    let n = fs.len() as int;
    assert(jit_callees_in(fs, e, k));
    assert forall|u: int| 0 <= u < cs.len() implies #[trigger] lookup(engine_map(fs, e, n), cs[u]) is Some by {
        assert(callee_in(fs, e, cs[u]));
        let j = lookup(name_index(fs, n), cs[u]).unwrap();
        lemma_name_index_fname(fs, n, cs[u], j);
        lemma_engine_map(fs, e, n, cs[u]);
        assert(e[j as int] && fname(fs[j as int]) == cs[u]);
    }
}

proof fn lemma_no_slots(e: Seq<bool>, n: int)
    ensures
        slot_count(e, n) >= 0,
        slot_count(e, n) == 0 ==> forall|k: int| 0 <= k < n ==> !e[k],
    decreases n,
{
    if n > 0 {
        lemma_no_slots(e, n - 1);
    }
}

fn copy_table(t: &Vec<(String, usize)>) -> (c: Vec<(String, usize)>)
    ensures
        table_view(c@) == table_view(t@),
{
    let mut c: Vec<(String, usize)> = Vec::new();
    let mut i: usize = 0;
    while i < t.len()
        invariant
            i <= t@.len(),
            table_view(c@) == table_view(t@).subrange(0, i as int),
        decreases t@.len() - i,
    {
        let ghost before = c@;
        c.push((t[i].0.clone(), t[i].1));
        assert(table_view(c@) =~= table_view(before).push((t@[i as int].0@, t@[i as int].1)));
        assert(table_view(t@).subrange(0, i + 1) =~= table_view(t@).subrange(0, i as int).push(table_view(t@)[i as int]));
        i = i + 1;
    }
    assert(table_view(t@).subrange(0, t@.len() as int) =~= table_view(t@));
    c
}

/// The functions that go to machine code form the largest set of plannable
/// functions closed under calls: the set is closed, and every closed set
/// lies inside it.
pub proof fn law_jit_set_largest(fs: Seq<NodeView>)
    ensures
        jit_closed(fs, jit_set(fs)),
        forall|s: Seq<bool>| #[trigger] jit_closed(fs, s) ==> subset_of(s, jit_set(fs)),
{
    let v = jit_set(fs);
    assert forall|k: int| 0 <= k < v.len() && #[trigger] v[k] implies jit_callees_in(fs, v, k) by {
        let s = choose|s: Seq<bool>| #[trigger] jit_closed(fs, s) && s[k];
        assert(jit_callees_in(fs, s, k));
        let cs = callees_of(body_of(fs[k]));
        assert forall|u: int| 0 <= u < cs.len() implies #[trigger] callee_in(fs, v, cs[u]) by {
            assert(callee_in(fs, s, cs[u]));
            let j = lookup(name_index(fs, fs.len() as int), cs[u]).unwrap();
            assert(jit_closed(fs, s) && s[j as int]);
            assert(jit_able(fs, j as int));
        }
    }
    assert forall|s: Seq<bool>| #[trigger] jit_closed(fs, s) implies subset_of(s, v) by {
        assert forall|j: int| 0 <= j < s.len() && #[trigger] s[j] implies j < v.len() && v[j] by {
            assert(jit_closed(fs, s) && s[j]);
        }
    }
}

/// Scanning an expression records exactly the functions it calls.
proof fn lemma_scan_callees_expr(e: NodeView, s: ScanView)
    ensures
        sc_expr(e, s) matches Some(s1) ==> s1.callees == s.callees + callees_of(e),
    decreases e, 0int,
{
    match e {
        NodeView::Binary { left, right, .. } => {
            lemma_scan_callees_expr(*left, s);
            if let Some(s1) = sc_expr(*left, s) {
                lemma_scan_callees_expr(*right, s1);
                assert(s.callees + callees_of(*left) + callees_of(*right) =~= s.callees + (callees_of(*left) + callees_of(*right)));
            }
        },
        NodeView::Call { name, args, .. } => {
            if name == crate::vm::print_name() {
                lemma_scan_callees_print(args, 0, s);
                assert(Seq::<Seq<char>>::empty() + callees_list(args, 0) =~= callees_list(args, 0));
            } else {
                let s0 = ScanView { vars: s.vars, callees: s.callees.push(name) };
                lemma_scan_callees_args(args, 0, s0);
                assert(s.callees.push(name) + callees_list(args, 0) =~= s.callees + (seq![name] + callees_list(args, 0)));
            }
        },
        _ => {
            assert(s.callees + Seq::<Seq<char>>::empty() =~= s.callees);
        },
    }
}

proof fn lemma_scan_callees_args(args: Seq<NodeView>, i: int, s: ScanView)
    ensures
        sc_args(args, i, s) matches Some(s1) ==> s1.callees == s.callees + callees_list(args, i),
    decreases args, args.len() - i,
{
    if 0 <= i < args.len() {
        lemma_scan_callees_expr(args[i], s);
        if let Some(s1) = sc_expr(args[i], s) {
            lemma_scan_callees_args(args, i + 1, s1);
            assert(s.callees + callees_of(args[i]) + callees_list(args, i + 1) =~= s.callees + (callees_of(args[i])
                + callees_list(args, i + 1)));
        }
    } else {
        assert(s.callees + Seq::<Seq<char>>::empty() =~= s.callees);
    }
}

proof fn lemma_scan_callees_print(args: Seq<NodeView>, i: int, s: ScanView)
    ensures
        sc_print_args(args, i, s) matches Some(s1) ==> s1.callees == s.callees + callees_list(args, i),
    decreases args, args.len() - i,
{
    if 0 <= i < args.len() {
        if args[i] is Str {
            lemma_scan_callees_print(args, i + 1, s);
            assert(callees_of(args[i]) =~= Seq::<Seq<char>>::empty());
            assert(callees_of(args[i]) + callees_list(args, i + 1) =~= callees_list(args, i + 1));
        } else {
            lemma_scan_callees_expr(args[i], s);
            if let Some(s1) = sc_expr(args[i], s) {
                lemma_scan_callees_print(args, i + 1, s1);
                assert(s.callees + callees_of(args[i]) + callees_list(args, i + 1) =~= s.callees + (callees_of(args[i])
                    + callees_list(args, i + 1)));
            }
        }
    } else {
        assert(s.callees + Seq::<Seq<char>>::empty() =~= s.callees);
    }
}

/// Scanning a statement records exactly the functions it calls.
proof fn lemma_scan_callees_stmt(st: NodeView, s: ScanView)
    ensures
        sc_stmt(st, s) matches Some(s1) ==> s1.callees == s.callees + callees_of(st),
    decreases st, 1int,
{
    match st {
        NodeView::Var { right, .. } => {
            lemma_scan_callees_expr(*right, s);
        },
        NodeView::Assign { right, .. } => {
            lemma_scan_callees_expr(*right, s);
        },
        NodeView::Return { value, .. } => {
            if let Some(v) = value {
                lemma_scan_callees_expr(*v, s);
            } else {
                assert(s.callees + Seq::<Seq<char>>::empty() =~= s.callees);
            }
        },
        NodeView::If { cond, then, else_b, .. } => {
            lemma_scan_callees_expr(*cond, s);
            if let Some(s1) = sc_expr(*cond, s) {
                lemma_scan_callees_block(*then, s1);
                if let Some(s2) = sc_block(*then, s1) {
                    match else_b {
                        Some(eb) => {
                            lemma_scan_callees_block(*eb, s2);
                            assert(s.callees + callees_of(*cond) + callees_of(*then) + callees_of(*eb) =~= s.callees + (
                            callees_of(*cond) + callees_of(*then) + callees_of(*eb)));
                        },
                        None => {
                            assert(s.callees + callees_of(*cond) + callees_of(*then) =~= s.callees + (callees_of(*cond)
                                + callees_of(*then) + Seq::<Seq<char>>::empty()));
                        },
                    }
                }
            }
        },
        NodeView::While { cond, body, .. } => {
            lemma_scan_callees_expr(*cond, s);
            if let Some(s1) = sc_expr(*cond, s) {
                lemma_scan_callees_block(*body, s1);
                assert(s.callees + callees_of(*cond) + callees_of(*body) =~= s.callees + (callees_of(*cond) + callees_of(
                    *body,
                )));
            }
        },
        NodeView::Block { .. } => {
            lemma_scan_callees_block(st, s);
        },
        _ => {
            lemma_scan_callees_expr(st, s);
        },
    }
}

proof fn lemma_scan_callees_block(b: NodeView, s: ScanView)
    ensures
        sc_block(b, s) matches Some(s1) ==> s1.callees == s.callees + callees_of(b),
    decreases b, 0int,
{
    match b {
        NodeView::Block { stmts, .. } => lemma_scan_callees_stmts(stmts, 0, s),
        NodeView::Prog { stmts } => lemma_scan_callees_stmts(stmts, 0, s),
        _ => {},
    }
}

proof fn lemma_scan_callees_stmts(stmts: Seq<NodeView>, i: int, s: ScanView)
    ensures
        sc_stmts(stmts, i, s) matches Some(s1) ==> s1.callees == s.callees + callees_list(stmts, i),
    decreases stmts, stmts.len() - i,
{
    if 0 <= i < stmts.len() {
        lemma_scan_callees_stmt(stmts[i], s);
        if let Some(s1) = sc_stmt(stmts[i], s) {
            lemma_scan_callees_stmts(stmts, i + 1, s1);
            assert(s.callees + callees_of(stmts[i]) + callees_list(stmts, i + 1) =~= s.callees + (callees_of(stmts[i])
                + callees_list(stmts, i + 1)));
        }
    } else {
        assert(s.callees + Seq::<Seq<char>>::empty() =~= s.callees);
    }
}

/// Every function that goes to machine code also goes to the VM, and has
/// at most six parameters.
pub proof fn law_jit_within_vm(fs: Seq<NodeView>)
    ensures
        forall|k: int| 0 <= k < fs.len() && #[trigger] jit_set(fs)[k] ==> crate::vm::vm_set(fs)[k] && param_count_of(fs[k])
            <= JIT_MAX_PARAMS,
{
    let j = jit_set(fs);
    law_jit_set_largest(fs);
    assert forall|k: int| 0 <= k < j.len() && #[trigger] j[k] implies crate::vm::callees_in(fs, j, k) by {
        assert(jit_callees_in(fs, j, k));
        let f = fs[k];
        let params = f->Func_params;
        let body = *f->Func_body;
        let s0 = ScanView { vars: crate::vm::param_vars(params, params.len() as int), callees: Seq::empty() };
        lemma_scan_callees_block(body, s0);
        let sv = crate::vm::scan_of(f).unwrap();
        assert(sv.callees =~= callees_of(body_of(f)));
        assert forall|u: int| 0 <= u < sv.callees.len() implies #[trigger] callee_in(fs, j, sv.callees[u]) by {
            assert(callee_in(fs, j, callees_of(body_of(f))[u]));
        }
    }
    assert(crate::vm::closed(fs, j));
    crate::vm::law_vm_set_largest(fs);
    assert forall|k: int| 0 <= k < fs.len() && #[trigger] jit_set(fs)[k] implies crate::vm::vm_set(fs)[k] && param_count_of(
        fs[k],
    ) <= JIT_MAX_PARAMS by {
        assert(subset_of(j, crate::vm::vm_set(fs)));
        assert(jit_callees_in(fs, j, k));
    }
}

/// The arithmetic operators take the left operand into rax and combine the
/// right one into it with the x86-64 instruction of the operator: `+` is
/// `add rax, r/m64` (opcode 03), `-` is `sub rax, r/m64` (opcode 2B, left
/// minus right), `*` is `imul rax, r/m64` (opcodes 0F AF). The code of `-`
/// and that of `+` on the same operands differ in that opcode byte alone.
pub proof fn law_jit_arith_opcodes(pushed: i32, save: Seq<i32>, lt: u32, rt: u32, dst: u32)
    ensures
        binop_code(pushed, save, TokenKind::Plus, lt, rt, dst) == vreg_load(pushed, RAX, lt) + (if rt >= SPILL_VREG {
            enc_mem(seq![0x03u8], RAX, spill_off(pushed, rt))
        } else {
            enc_rr(seq![0x03u8], RAX, vreg_phys(rt))
        }) + vreg_store(pushed, dst, RAX),
        binop_code(pushed, save, TokenKind::Minus, lt, rt, dst) == vreg_load(pushed, RAX, lt) + (if rt >= SPILL_VREG {
            enc_mem(seq![0x2Bu8], RAX, spill_off(pushed, rt))
        } else {
            enc_rr(seq![0x2Bu8], RAX, vreg_phys(rt))
        }) + vreg_store(pushed, dst, RAX),
        binop_code(pushed, save, TokenKind::Star, lt, rt, dst) == vreg_load(pushed, RAX, lt) + (if rt >= SPILL_VREG {
            enc_mem(seq![0x0Fu8, 0xAFu8], RAX, spill_off(pushed, rt))
        } else {
            enc_rr(seq![0x0Fu8, 0xAFu8], RAX, vreg_phys(rt))
        }) + vreg_store(pushed, dst, RAX),
        ({
            let minus = binop_code(pushed, save, TokenKind::Minus, lt, rt, dst);
            let plus = binop_code(pushed, save, TokenKind::Plus, lt, rt, dst);
            let k = vreg_load(pushed, RAX, lt).len() as int + 1;
            &&& minus.len() == plus.len()
            &&& minus[k] == 0x2Bu8
            &&& plus[k] == 0x03u8
            &&& forall|i: int| 0 <= i < minus.len() && i != k ==> minus[i] == plus[i]
        }),
{
    let a = vreg_load(pushed, RAX, lt);
    let b = vreg_store(pushed, dst, RAX);
    let off = spill_off(pushed, rt);
    let xm = if rt >= SPILL_VREG { enc_mem(seq![0x2Bu8], RAX, off) } else { enc_rr(seq![0x2Bu8], RAX, vreg_phys(rt)) };
    let xp = if rt >= SPILL_VREG { enc_mem(seq![0x03u8], RAX, off) } else { enc_rr(seq![0x03u8], RAX, vreg_phys(rt)) };
    assert(rex(true, false, false).len() == 1);
    assert(rex(true, false, vreg_phys(rt) >= 8).len() == 1);
    assert(xm =~= xp.update(1, 0x2Bu8));
    let minus = binop_code(pushed, save, TokenKind::Minus, lt, rt, dst);
    let plus = binop_code(pushed, save, TokenKind::Plus, lt, rt, dst);
    assert(minus =~= a + xm + b);
    assert(plus =~= a + xp + b);
    assert(minus =~= plus.update(a.len() as int + 1, 0x2Bu8));
}

/// `/` and `%` both sign-extend rax into rdx and divide (`cqo; idiv`: 48 99,
/// then F7 /7 on the right operand) between saving and restoring the
/// caller-saved registers; `/` keeps the quotient that `idiv` leaves in
/// rax, `%` the remainder it leaves in rdx, moved into rax by
/// `mov rax, rdx` (48 8B C2). The code of `%` is that of `/` with those
/// three bytes before the restore.
pub proof fn law_jit_div_rem(pushed: i32, save: Seq<i32>, lt: u32, rt: u32, dst: u32)
    ensures
        ({
            let idiv = if rt >= SPILL_VREG {
                seq![0x48u8, 0xF7u8, 0xBDu8] + le32(spill_off(pushed, rt))
            } else {
                seq![(if vreg_phys(rt) >= 8 { 0x49u8 } else { 0x48u8 }), 0xF7u8, (0xF8 + vreg_phys(rt) % 8) as u8]
            };
            &&& binop_code(pushed, save, TokenKind::Slash, lt, rt, dst) == save_code(save, 8) + vreg_load(pushed, RAX, lt)
                + seq![0x48u8, 0x99u8] + idiv + restore_code(save, 0) + vreg_store(pushed, dst, RAX)
            &&& binop_code(pushed, save, TokenKind::Percent, lt, rt, dst) == save_code(save, 8) + vreg_load(
                pushed,
                RAX,
                lt,
            ) + seq![0x48u8, 0x99u8] + idiv + seq![0x48u8, 0x8Bu8, 0xC2u8] + restore_code(save, 0) + vreg_store(
                pushed,
                dst,
                RAX,
            )
        }),
{
    let idiv = if rt >= SPILL_VREG {
        seq![0x48u8, 0xF7u8, 0xBDu8] + le32(spill_off(pushed, rt))
    } else {
        seq![(if vreg_phys(rt) >= 8 { 0x49u8 } else { 0x48u8 }), 0xF7u8, (0xF8 + vreg_phys(rt) % 8) as u8]
    };
    let mid = if rt >= SPILL_VREG {
        rex(true, false, false) + seq![0xF7u8, modrm(2, 7, RBP)] + le32(spill_off(pushed, rt))
    } else {
        enc_unary(0xF7, 7, vreg_phys(rt))
    };
    assert(modrm(2, 7, RBP) == 0xBDu8);
    assert(modrm(3, 7, vreg_phys(rt)) == (0xF8 + vreg_phys(rt) % 8) as u8);
    assert(mid =~= idiv);
    assert(rex(true, false, false) + seq![0x99u8] =~= seq![0x48u8, 0x99u8]);
    assert(modrm(3, RAX, RDX) == 0xC2u8);
    assert(enc_mov(RAX, RDX) =~= seq![0x48u8, 0x8Bu8, 0xC2u8]);
}

/// A comparison sets rax to 1 when it holds and to 0 when it does not:
/// `cmp rax, r/m64` (opcode 3B, left against right; no compare when the
/// right operand is itself in rax), then the `setcc al` of the operator
/// (`==` sete 94, `!=` setne 95, `<` setl 9C, `<=` setle 9E, `>` setg 9F,
/// `>=` setge 9D, all signed) and `movzx eax, al`.
pub proof fn law_jit_compare_setcc(pushed: i32, save: Seq<i32>, op: TokenKind, lt: u32, rt: u32, dst: u32)
    requires
        op == TokenKind::Eqeq || op == TokenKind::Neq || op == TokenKind::Lt || op == TokenKind::Le || op
            == TokenKind::Gt || op == TokenKind::Ge,
    ensures
        binop_code(pushed, save, op, lt, rt, dst) == vreg_load(pushed, RAX, lt) + (if rt >= SPILL_VREG {
            enc_mem(seq![0x3Bu8], RAX, spill_off(pushed, rt))
        } else if vreg_phys(rt) != RAX {
            enc_rr(seq![0x3Bu8], RAX, vreg_phys(rt))
        } else {
            Seq::empty()
        }) + seq![
            0x0Fu8,
            match op {
                TokenKind::Eqeq => 0x94u8,
                TokenKind::Neq => 0x95u8,
                TokenKind::Lt => 0x9Cu8,
                TokenKind::Le => 0x9Eu8,
                TokenKind::Gt => 0x9Fu8,
                _ => 0x9Du8,
            },
            0xC0u8,
        ] + seq![0x0Fu8, 0xB6u8, 0xC0u8] + vreg_store(pushed, dst, RAX),
{
}

/// A planned frame keeps the stack 16-byte aligned at the calls the code
/// makes: the prologue's pushes plus the frame come to 8 modulo 16 (the
/// return address makes up the rest).
pub proof fn law_frame_aligned(params: Seq<Seq<char>>, body: NodeView)
    ensures
        plan_spec(params, body) matches Some(p) ==> (p.pushed_bytes + p.frame_bytes) % 16 == 8 && p.frame_bytes
            >= 0,
{
    if let Some(p) = plan_spec(params, body) {
        let pc = params.len() as u32;
        let cnext = cnt_stmt(body, 0, 0, Seq::empty()).0;
        let max = if cnext > 0 { pc.wrapping_add(cnext) } else { pc };
        let npushed: int = if max >= 5 { 5 } else { max as int };
        let spill: int = if max >= SPILL_VREG { max - 13 } else { 0 };
        let needs = side_effects(body);
        let q = 1 + npushed + spill + if needs { 8int } else { 0int };
        assert(8 + 8 * npushed + 8 * spill + (if needs { 64int } else { 0int }) == 8 * q);
        assert((8 * q) % 16 == 0 || (8 * q) % 16 == 8) by (nonlinear_arith);
        assert((8 * q + 8) % 16 == 8 || (8 * q) % 16 == 8) by (nonlinear_arith);
    }
}

} // verus!
