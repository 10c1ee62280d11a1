//! Reading the `.rab` binary bytecode format.
//!
//! Layout (all multi-byte integers little endian, `i32` = 4 bytes):
//! magic `RUA\0`, version (1), constant count + constants, string count +
//! strings (each a length and UTF-8 bytes), function count + functions (name,
//! param count, local count, register count, code offset), the entry point
//! name, and finally the code size and the code bytes.
use vstd::prelude::*;
use vstd::utf8::*;
use crate::text::{decimal, push_decimal};

verus! {

pub const VERSION: i32 = 1;

pub const OP_HALT: u8 = 0x00;
pub const OP_MOVI: u8 = 0x01;
pub const OP_MOVS: u8 = 0x02;
pub const OP_MOV: u8 = 0x03;
pub const OP_ADD: u8 = 0x04;
pub const OP_SUB: u8 = 0x05;
pub const OP_MUL: u8 = 0x06;
pub const OP_DIV: u8 = 0x07;
pub const OP_MOD: u8 = 0x08;
pub const OP_EQ: u8 = 0x09;
pub const OP_NE: u8 = 0x0A;
pub const OP_LT: u8 = 0x0B;
pub const OP_GT: u8 = 0x0C;
pub const OP_JMP: u8 = 0x0D;
pub const OP_JIF: u8 = 0x0E;
pub const OP_PUSH: u8 = 0x0F;
pub const OP_CALL: u8 = 0x10;
pub const OP_RET: u8 = 0x11;
pub const OP_PRINT: u8 = 0x12;
pub const OP_LE: u8 = 0x13;
pub const OP_GE: u8 = 0x14;
pub const OP_ARRNEW: u8 = 0x15;
pub const OP_ARRGET: u8 = 0x16;
pub const OP_ARRSET: u8 = 0x17;

/// One entry of the function table.
#[derive(Debug, Clone)]
pub struct FunctionInfo {
    pub name: String,
    pub param_count: i32,
    pub local_count: i32,
    pub reg_count: i32,
    pub code_offset: i32,
}

/// A loaded bytecode program.
#[derive(Debug, Clone)]
pub struct Program {
    pub constants: Vec<i32>,
    pub strings: Vec<String>,
    pub functions: Vec<FunctionInfo>,
    pub entry_point: String,
    pub code: Vec<u8>,
}

/// Why a byte string is not a loadable program.
#[derive(Debug)]
pub struct RabError {
    pub message: String,
}

/// The abstract value of a function table entry.
pub struct FunctionInfoView {
    pub name: Seq<char>,
    pub param_count: i32,
    pub local_count: i32,
    pub reg_count: i32,
    pub code_offset: i32,
}

/// The abstract value of a program.
pub struct ProgramView {
    pub constants: Seq<i32>,
    pub strings: Seq<Seq<char>>,
    pub functions: Seq<FunctionInfoView>,
    pub entry_point: Seq<char>,
    pub code: Seq<u8>,
}

impl View for FunctionInfo {
    type V = FunctionInfoView;

    open spec fn view(&self) -> FunctionInfoView {
        FunctionInfoView {
            name: self.name@,
            param_count: self.param_count,
            local_count: self.local_count,
            reg_count: self.reg_count,
            code_offset: self.code_offset,
        }
    }
}

impl View for Program {
    type V = ProgramView;

    open spec fn view(&self) -> ProgramView {
        ProgramView {
            constants: self.constants@,
            strings: self.strings@.map_values(|s: String| s@),
            functions: self.functions@.map_values(|f: FunctionInfo| f@),
            entry_point: self.entry_point@,
            code: self.code@,
        }
    }
}

/// The kinds of malformed input, each with its own message.
#[derive(Debug, Clone, Copy, PartialEq, Eq)]
pub enum RabFault {
    TooShort,
    BadMagic,
    BadVersion(i32),
    Truncated,
    NegativeLength,
    StringTruncated,
    BadUtf8,
    CodeTruncated,
}

/// The message that a fault is reported with.
pub open spec fn fault_text(f: RabFault) -> Seq<char> {
    match f {
        RabFault::TooShort => "不是有效的 .rab 文件（长度不足）"@,
        RabFault::BadMagic => "不是有效的 .rab 文件（magic 不匹配）"@,
        RabFault::BadVersion(v) => "不支持的 .rab 版本: "@ + decimal(v as int),
        RabFault::Truncated => "文件过早结束"@,
        RabFault::NegativeLength => "非法负长度字段"@,
        RabFault::StringTruncated => "字符串数据截断"@,
        RabFault::BadUtf8 => "字符串不是合法 UTF-8"@,
        RabFault::CodeTruncated => "指令流数据截断"@,
    }
}

/// Builds the error value of a fault.
pub fn fault_error(f: RabFault) -> (e: RabError)
    ensures
        e.message@ == fault_text(f),
{
    let message = match f {
        RabFault::TooShort => String::from_str("不是有效的 .rab 文件（长度不足）"),
        RabFault::BadMagic => String::from_str("不是有效的 .rab 文件（magic 不匹配）"),
        RabFault::BadVersion(v) => {
            let mut s = String::from_str("不支持的 .rab 版本: ");
            push_decimal(&mut s, v as i64);
            s
        },
        RabFault::Truncated => String::from_str("文件过早结束"),
        RabFault::NegativeLength => String::from_str("非法负长度字段"),
        RabFault::StringTruncated => String::from_str("字符串数据截断"),
        RabFault::BadUtf8 => String::from_str("字符串不是合法 UTF-8"),
        RabFault::CodeTruncated => String::from_str("指令流数据截断"),
    };
    RabError { message }
}

// ---------------------------------------------------------------------
// The format, read as a function of the bytes.
// ---------------------------------------------------------------------

/// The unsigned value of four little-endian bytes starting at `p`.
pub open spec fn le_u32_at(d: Seq<u8>, p: int) -> int {
    d[p] as int + 256 * (d[p + 1] as int) + 65536 * (d[p + 2] as int) + 16777216 * (d[p + 3] as int)
}

/// The two's-complement `i32` held by four little-endian bytes at `p`.
pub open spec fn le_i32_at(d: Seq<u8>, p: int) -> int {
    let u = le_u32_at(d, p);
    if u >= 0x8000_0000 { u - 0x1_0000_0000 } else { u }
}

/// Reads an `i32` at `p`: it needs four bytes.
pub open spec fn read_i32(d: Seq<u8>, p: int) -> Result<(i32, int), RabFault> {
    if d.len() - p < 4 {
        Err(RabFault::Truncated)
    } else {
        Ok((le_i32_at(d, p) as i32, p + 4))
    }
}

/// Reads a length field: an `i32` that must not be negative.
pub open spec fn read_len(d: Seq<u8>, p: int) -> Result<(nat, int), RabFault> {
    match read_i32(d, p) {
        Err(e) => Err(e),
        Ok((v, q)) => if v < 0 { Err(RabFault::NegativeLength) } else { Ok((v as nat, q)) },
    }
}

/// Reads a string: a length, then that many bytes of UTF-8.
pub open spec fn read_string(d: Seq<u8>, p: int) -> Result<(Seq<char>, int), RabFault> {
    match read_len(d, p) {
        Err(e) => Err(e),
        Ok((n, q)) => if d.len() - q < n {
            Err(RabFault::StringTruncated)
        } else if !valid_utf8(d.subrange(q, q + n)) {
            Err(RabFault::BadUtf8)
        } else {
            Ok((decode_utf8(d.subrange(q, q + n)), q + n))
        },
    }
}

/// Reads one function table entry.
pub open spec fn read_function(d: Seq<u8>, p: int) -> Result<(FunctionInfoView, int), RabFault> {
    match read_string(d, p) {
        Err(e) => Err(e),
        Ok((name, p1)) => match read_i32(d, p1) {
            Err(e) => Err(e),
            Ok((pc, p2)) => match read_i32(d, p2) {
                Err(e) => Err(e),
                Ok((lc, p3)) => match read_i32(d, p3) {
                    Err(e) => Err(e),
                    Ok((rc, p4)) => match read_i32(d, p4) {
                        Err(e) => Err(e),
                        Ok((co, p5)) => Ok((
                            FunctionInfoView {
                                name,
                                param_count: pc,
                                local_count: lc,
                                reg_count: rc,
                                code_offset: co,
                            },
                            p5,
                        )),
                    },
                },
            },
        },
    }
}

/// Reads `n` consecutive items with `item`, the first at `p`.
pub open spec fn read_many<A>(
    d: Seq<u8>,
    p: int,
    n: nat,
    item: spec_fn(Seq<u8>, int) -> Result<(A, int), RabFault>,
) -> Result<(Seq<A>, int), RabFault>
    decreases n,
{
    if n == 0 {
        Ok((Seq::empty(), p))
    } else {
        match read_many(d, p, (n - 1) as nat, item) {
            Err(e) => Err(e),
            Ok((s, q)) => match item(d, q) {
                Err(e) => Err(e),
                Ok((v, q2)) => Ok((s.push(v), q2)),
            },
        }
    }
}

/// Reads a count, then that many items.
pub open spec fn read_counted<A>(
    d: Seq<u8>,
    p: int,
    item: spec_fn(Seq<u8>, int) -> Result<(A, int), RabFault>,
) -> Result<(Seq<A>, int), RabFault> {
    match read_len(d, p) {
        Err(e) => Err(e),
        Ok((n, q)) => read_many(d, q, n, item),
    }
}

pub open spec fn i32_item() -> spec_fn(Seq<u8>, int) -> Result<(i32, int), RabFault> {
    |d: Seq<u8>, p: int| read_i32(d, p)
}

pub open spec fn string_item() -> spec_fn(Seq<u8>, int) -> Result<(Seq<char>, int), RabFault> {
    |d: Seq<u8>, p: int| read_string(d, p)
}

pub open spec fn function_item() -> spec_fn(Seq<u8>, int) -> Result<(FunctionInfoView, int), RabFault> {
    |d: Seq<u8>, p: int| read_function(d, p)
}

/// Reads the code section: a size, then that many bytes.
pub open spec fn read_code(d: Seq<u8>, p: int) -> Result<Seq<u8>, RabFault> {
    match read_len(d, p) {
        Err(e) => Err(e),
        Ok((n, q)) => if d.len() - q < n {
            Err(RabFault::CodeTruncated)
        } else {
            Ok(d.subrange(q, q + n))
        },
    }
}

/// The magic bytes `RUA\0`.
pub open spec fn magic() -> Seq<u8> {
    seq![0x52u8, 0x55u8, 0x41u8, 0u8]
}

/// What a byte string means as a `.rab` file: the program it holds, or the
/// first fault met when reading it front to back.
pub open spec fn spec_parse(d: Seq<u8>) -> Result<ProgramView, RabFault> {
    if d.len() < 8 {
        Err(RabFault::TooShort)
    } else if d.subrange(0, 4) != magic() {
        Err(RabFault::BadMagic)
    } else if le_i32_at(d, 4) != 1 {
        Err(RabFault::BadVersion(le_i32_at(d, 4) as i32))
    } else {
        match read_counted(d, 8, i32_item()) {
            Err(e) => Err(e),
            Ok((constants, p1)) => match read_counted(d, p1, string_item()) {
                Err(e) => Err(e),
                Ok((strings, p2)) => match read_counted(d, p2, function_item()) {
                    Err(e) => Err(e),
                    Ok((functions, p3)) => match read_string(d, p3) {
                        Err(e) => Err(e),
                        Ok((entry_point, p4)) => match read_code(d, p4) {
                            Err(e) => Err(e),
                            Ok(code) => Ok(
                                ProgramView { constants, strings, functions, entry_point, code },
                            ),
                        },
                    },
                },
            },
        }
    }
}

/// A failure part-way through reading items is the failure of reading more.
proof fn lemma_read_many_err<A>(
    d: Seq<u8>,
    p: int,
    i: nat,
    n: nat,
    item: spec_fn(Seq<u8>, int) -> Result<(A, int), RabFault>,
    e: RabFault,
)
    requires
        i < n,
        read_many(d, p, i, item) is Ok,
        item(d, read_many(d, p, i, item)->Ok_0.1) == Err::<(A, int), RabFault>(e),
    ensures
        read_many(d, p, n, item) == Err::<(Seq<A>, int), RabFault>(e),
    decreases n,
{
    if n == i + 1 {
    } else {
        lemma_read_many_err(d, p, i, (n - 1) as nat, item, e);
    }
}

// ---------------------------------------------------------------------
// The reader.
// ---------------------------------------------------------------------

/// A cursor over the bytes of a file.
struct Reader<'a> {
    data: &'a [u8],
    pos: usize,
}

/// Decodes bytes as UTF-8 (std `String::from_utf8` on a copy of them).
#[verifier::external_body]
fn utf8_string(bytes: &[u8]) -> (r: Option<String>)
    ensures
        r is Some <==> valid_utf8(bytes@),
        r matches Some(s) ==> s@ == decode_utf8(bytes@),
{
    String::from_utf8(bytes.to_vec()).ok()
}

impl<'a> Reader<'a> {
    fn new(data: &'a [u8]) -> (r: Self)
        ensures
            r.data@ == data@,
            r.pos == 0,
    {
        Reader { data, pos: 0 }
    }

    /// Bytes left after the cursor.
    fn remaining(&self) -> (n: usize)
        ensures
            n == if self.pos <= self.data@.len() { self.data@.len() - self.pos } else { 0 },
    {
        self.data.len().saturating_sub(self.pos)
    }

    /// Takes the next `n` bytes.
    fn read_bytes(&mut self, n: usize) -> (r: Result<&'a [u8], RabError>)
        requires
            old(self).pos <= old(self).data@.len(),
        ensures
            final(self).data == old(self).data,
            final(self).pos <= final(self).data@.len(),
            old(self).data@.len() - old(self).pos < n ==> {
                &&& r matches Err(e) && e.message@ == fault_text(RabFault::Truncated)
                &&& final(self).pos == old(self).pos
            },
            old(self).data@.len() - old(self).pos >= n ==> {
                &&& r matches Ok(b) && b@ == old(self).data@.subrange(
                    old(self).pos as int,
                    old(self).pos + n,
                )
                &&& final(self).pos == old(self).pos + n
            },
    {
        let rem: usize = self.data.len() - self.pos;
        if rem < n {
            return Err(fault_error(RabFault::Truncated));
        }
        let end: usize = self.pos + n;
        let slice = &self.data[self.pos..end];
        self.pos = end;
        Ok(slice)
    }

    /// Reads a little-endian `i32`.
    fn read_i32(&mut self) -> (r: Result<i32, RabError>)
        requires
            old(self).pos <= old(self).data@.len(),
        ensures
            final(self).data == old(self).data,
            final(self).pos <= final(self).data@.len(),
            match read_i32(old(self).data@, old(self).pos as int) {
                Ok((v, q)) => r matches Ok(x) && x == v && final(self).pos == q,
                Err(f) => r matches Err(e) && e.message@ == fault_text(f),
            },
    {
        let b = self.read_bytes(4)?;
        let u: u32 = b[0] as u32 + 256 * (b[1] as u32) + 65536 * (b[2] as u32) + 16777216 * (
        b[3] as u32);
        let v: i32 = if u >= 0x8000_0000 {
            (u as i64 - 0x1_0000_0000i64) as i32
        } else {
            u as i32
        };
        Ok(v)
    }

    /// Reads a length field (an `i32` that must not be negative).
    fn read_len(&mut self) -> (r: Result<usize, RabError>)
        requires
            old(self).pos <= old(self).data@.len(),
        ensures
            final(self).data == old(self).data,
            final(self).pos <= final(self).data@.len(),
            match read_len(old(self).data@, old(self).pos as int) {
                Ok((v, q)) => r matches Ok(x) && x == v && final(self).pos == q,
                Err(f) => r matches Err(e) && e.message@ == fault_text(f),
            },
    {
        let v = self.read_i32()?;
        if v < 0 {
            return Err(fault_error(RabFault::NegativeLength));
        }
        Ok(v as usize)
    }

    /// Reads a length-prefixed UTF-8 string.
    fn read_string(&mut self) -> (r: Result<String, RabError>)
        requires
            old(self).pos <= old(self).data@.len(),
        ensures
            final(self).data == old(self).data,
            final(self).pos <= final(self).data@.len(),
            match read_string(old(self).data@, old(self).pos as int) {
                Ok((s, q)) => r matches Ok(x) && x@ == s && final(self).pos == q,
                Err(f) => r matches Err(e) && e.message@ == fault_text(f),
            },
    {
        let len = self.read_len()?;
        if self.remaining() < len {
            return Err(fault_error(RabFault::StringTruncated));
        }
        let bytes = self.read_bytes(len)?;
        match utf8_string(bytes) {
            Some(s) => Ok(s),
            None => Err(fault_error(RabFault::BadUtf8)),
        }
    }

    /// Reads one function table entry.
    fn read_function(&mut self) -> (r: Result<FunctionInfo, RabError>)
        requires
            old(self).pos <= old(self).data@.len(),
        ensures
            final(self).data == old(self).data,
            final(self).pos <= final(self).data@.len(),
            match read_function(old(self).data@, old(self).pos as int) {
                Ok((f, q)) => r matches Ok(x) && x@ == f && final(self).pos == q,
                Err(f) => r matches Err(e) && e.message@ == fault_text(f),
            },
    {
        let name = self.read_string()?;
        let param_count = self.read_i32()?;
        let local_count = self.read_i32()?;
        let reg_count = self.read_i32()?;
        let code_offset = self.read_i32()?;
        Ok(FunctionInfo { name, param_count, local_count, reg_count, code_offset })
    }
}

impl<'a> Reader<'a> {
    /// Reads a count and then that many `i32` constants.
    fn read_constants(&mut self) -> (r: Result<Vec<i32>, RabError>)
        requires
            old(self).pos <= old(self).data@.len(),
        ensures
            final(self).data == old(self).data,
            final(self).pos <= final(self).data@.len(),
            match read_counted(old(self).data@, old(self).pos as int, i32_item()) {
                Ok((s, q)) => r matches Ok(x) && x@ == s && final(self).pos == q,
                Err(f) => r matches Err(e) && e.message@ == fault_text(f),
            },
    {
        let ghost d = self.data@;
        let ghost d0 = self.data;
        let count = self.read_len()?;
        let ghost start = self.pos as int;
        let mut items: Vec<i32> = Vec::new();
        let mut i: usize = 0;
        while i < count
            invariant
                self.data@ == d,
                self.data == d0,
                d0 == old(self).data,
                d == old(self).data@,
                read_len(d, old(self).pos as int) == Ok::<(nat, int), RabFault>((count as nat, start)),
                self.pos <= d.len(),
                i <= count,
                read_many(d, start, i as nat, i32_item()) == Ok::<(Seq<i32>, int), RabFault>(
                    (items@, self.pos as int),
                ),
            decreases count - i,
        {
            let ghost before = self.pos as int;
            let res = self.read_i32();
            match res {
                Ok(v) => {
                    items.push(v);
                    i = i + 1;
                },
                Err(e) => {
                        proof {
                        let f = read_i32(d, before)->Err_0;
                        lemma_read_many_err(d, start, i as nat, count as nat, i32_item(), f);
                    }
                    return Err(e);
                },
            }
        }
        Ok(items)
    }

    /// Reads a count and then that many strings.
    fn read_strings(&mut self) -> (r: Result<Vec<String>, RabError>)
        requires
            old(self).pos <= old(self).data@.len(),
        ensures
            final(self).data == old(self).data,
            final(self).pos <= final(self).data@.len(),
            match read_counted(old(self).data@, old(self).pos as int, string_item()) {
                Ok((s, q)) => r matches Ok(x) && x@.map_values(|t: String| t@) == s
                    && final(self).pos == q,
                Err(f) => r matches Err(e) && e.message@ == fault_text(f),
            },
    {
        let ghost d = self.data@;
        let ghost d0 = self.data;
        let count = self.read_len()?;
        let ghost start = self.pos as int;
        let mut items: Vec<String> = Vec::new();
        let mut i: usize = 0;
        assert(items@.map_values(|t: String| t@) =~= Seq::<Seq<char>>::empty());
        while i < count
            invariant
                self.data@ == d,
                self.data == d0,
                d0 == old(self).data,
                d == old(self).data@,
                read_len(d, old(self).pos as int) == Ok::<(nat, int), RabFault>((count as nat, start)),
                self.pos <= d.len(),
                i <= count,
                read_many(d, start, i as nat, string_item()) == Ok::<
                    (Seq<Seq<char>>, int),
                    RabFault,
                >((items@.map_values(|t: String| t@), self.pos as int)),
            decreases count - i,
        {
            let ghost before = self.pos as int;
            let ghost old_items = items@;
            let res = self.read_string();
            match res {
                Ok(v) => {
                    items.push(v);
                    i = i + 1;
                    assert(items@.map_values(|t: String| t@) =~= old_items.map_values(
                        |t: String| t@,
                    ).push(v@));
                },
                Err(e) => {
                    proof {
                        let f = read_string(d, before)->Err_0;
                        lemma_read_many_err(d, start, i as nat, count as nat, string_item(), f);
                    }
                    return Err(e);
                },
            }
        }
        Ok(items)
    }

    /// Reads a count and then that many function table entries.
    fn read_functions(&mut self) -> (r: Result<Vec<FunctionInfo>, RabError>)
        requires
            old(self).pos <= old(self).data@.len(),
        ensures
            final(self).data == old(self).data,
            final(self).pos <= final(self).data@.len(),
            match read_counted(old(self).data@, old(self).pos as int, function_item()) {
                Ok((s, q)) => r matches Ok(x) && x@.map_values(|t: FunctionInfo| t@) == s
                    && final(self).pos == q,
                Err(f) => r matches Err(e) && e.message@ == fault_text(f),
            },
    {
        let ghost d = self.data@;
        let ghost d0 = self.data;
        let count = self.read_len()?;
        let ghost start = self.pos as int;
        let mut items: Vec<FunctionInfo> = Vec::new();
        let mut i: usize = 0;
        assert(items@.map_values(|t: FunctionInfo| t@) =~= Seq::<FunctionInfoView>::empty());
        while i < count
            invariant
                self.data@ == d,
                self.data == d0,
                d0 == old(self).data,
                d == old(self).data@,
                read_len(d, old(self).pos as int) == Ok::<(nat, int), RabFault>((count as nat, start)),
                self.pos <= d.len(),
                i <= count,
                read_many(d, start, i as nat, function_item()) == Ok::<
                    (Seq<FunctionInfoView>, int),
                    RabFault,
                >((items@.map_values(|t: FunctionInfo| t@), self.pos as int)),
            decreases count - i,
        {
            let ghost before = self.pos as int;
            let ghost old_items = items@;
            let res = self.read_function();
            match res {
                Ok(v) => {
                    items.push(v);
                    i = i + 1;
                    assert(items@.map_values(|t: FunctionInfo| t@) =~= old_items.map_values(
                        |t: FunctionInfo| t@,
                    ).push(v@));
                },
                Err(e) => {
                    proof {
                        let f = read_function(d, before)->Err_0;
                        lemma_read_many_err(d, start, i as nat, count as nat, function_item(), f);
                    }
                    return Err(e);
                },
            }
        }
        Ok(items)
    }

    /// Reads the code section.
    fn read_code(&mut self) -> (r: Result<Vec<u8>, RabError>)
        requires
            old(self).pos <= old(self).data@.len(),
        ensures
            match read_code(old(self).data@, old(self).pos as int) {
                Ok(c) => r matches Ok(x) && x@ == c,
                Err(f) => r matches Err(e) && e.message@ == fault_text(f),
            },
    {
        let code_size = self.read_len()?;
        if self.remaining() < code_size {
            return Err(fault_error(RabFault::CodeTruncated));
        }
        let code_bytes = self.read_bytes(code_size)?;
        Ok(vstd::slice::slice_to_vec(code_bytes))
    }
}

/// Checks the magic bytes and the version; the body starts at offset 8.
fn check_header(data: &[u8]) -> (r: Result<(), RabError>)
    ensures
        r is Ok <==> {
            &&& data@.len() >= 8
            &&& data@.subrange(0, 4) == magic()
            &&& le_i32_at(data@, 4) == 1
        },
        r matches Err(e) ==> {
            if data@.len() < 8 {
                e.message@ == fault_text(RabFault::TooShort)
            } else if data@.subrange(0, 4) != magic() {
                e.message@ == fault_text(RabFault::BadMagic)
            } else {
                e.message@ == fault_text(RabFault::BadVersion(le_i32_at(data@, 4) as i32))
            }
        },
{
    let mut r = Reader::new(data);
    if r.remaining() < 8 {
        return Err(fault_error(RabFault::TooShort));
    }
    let mg = r.read_bytes(4)?;
    if !(mg[0] == 0x52u8 && mg[1] == 0x55u8 && mg[2] == 0x41u8 && mg[3] == 0u8) {
        assert(data@.subrange(0, 4) != magic()) by {
            if data@.subrange(0, 4) == magic() {
                assert(mg@[0] == magic()[0]);
                assert(mg@[1] == magic()[1]);
                assert(mg@[2] == magic()[2]);
                assert(mg@[3] == magic()[3]);
            }
        }
        return Err(fault_error(RabFault::BadMagic));
    }
    assert(data@.subrange(0, 4) =~= magic());
    let version = r.read_i32()?;
    if version != VERSION {
        return Err(fault_error(RabFault::BadVersion(version)));
    }
    Ok(())
}

/// Parses the contents of a `.rab` file.
///
/// Succeeds exactly when `spec_parse` finds a program, and then returns that
/// program; otherwise the error carries the message of the first fault.
pub fn parse(data: &[u8]) -> (r: Result<Program, RabError>)
    ensures
        match spec_parse(data@) {
            Ok(p) => r matches Ok(x) && x@ == p,
            Err(f) => r matches Err(e) && e.message@ == fault_text(f),
        },
{
    check_header(data)?;
    let mut r = Reader::new(data);
    r.pos = 8;
    let constants = r.read_constants()?;
    let strings = r.read_strings()?;
    let functions = r.read_functions()?;
    let entry_point = r.read_string()?;
    let code = r.read_code()?;
    let p = Program { constants, strings, functions, entry_point, code };
    Ok(p)
}

} // verus!
