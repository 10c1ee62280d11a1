//! The lexer: source text to tokens.
//!
//! Keywords are Chinese words (喵 变量 如果 那么 否则 当 返回 喵叫 数组);
//! identifiers are made of ASCII letters, digits, `_` and the common CJK
//! ideographs U+4E00..=U+9FA5; integers are runs of ASCII digits; strings
//! are quoted with `"` `'` or the full-width `“”` `‘’` (escapes `\n \t \r \\
//! \" \'` work inside the ASCII quotes only, other escapes are dropped);
//! comments are `#` to the end of the line or `#* ... *#`. A NUL character
//! ends the source like the end of the text does.
use vstd::prelude::*;
use crate::ast::{err_view, ErrorView, RuaError};
use crate::text::push_char;

verus! {

broadcast use vstd::string::group_string_axioms;

/// Token kinds. The keyword kinds are named after the pinyin of the keyword.
#[derive(Debug, Clone, Copy, PartialEq, Eq, Structural)]
pub enum TokenKind {
    /// End of the source.
    Eof,
    /// Integer literal.
    Num,
    /// String literal.
    Str,
    /// Identifier.
    Ident,
    /// 喵 (function definition).
    Miao,
    /// 变量 (variable declaration).
    Bian,
    /// 如果 (if).
    Ruguo,
    /// 那么 (optional "then").
    Name,
    /// 否则 (else).
    Fouze,
    /// 当 (while).
    Dang,
    /// 返回 (return).
    Fanhui,
    /// 喵叫 (built-in print).
    Miaojiao,
    /// 数组 (array declaration).
    Shizu,
    LP,
    RP,
    LB,
    RB,
    LC,
    RC,
    Comma,
    Plus,
    Minus,
    Star,
    Slash,
    Percent,
    Eqeq,
    Neq,
    Gt,
    Lt,
    Ge,
    Le,
    Assign,
}

/// A token: its kind, the text of an identifier or string literal, the value
/// of an integer literal (0 otherwise) and its source line.
#[derive(Debug, Clone)]
pub struct Token {
    pub kind: TokenKind,
    pub text: Option<String>,
    pub num: i64,
    pub line: usize,
}

/// The abstract value of a token.
pub struct TokenView {
    pub kind: TokenKind,
    pub text: Option<Seq<char>>,
    pub num: i64,
    pub line: usize,
}

impl View for Token {
    type V = TokenView;

    open spec fn view(&self) -> TokenView {
        TokenView {
            kind: self.kind,
            text: match self.text {
                Some(s) => Some(s@),
                None => None,
            },
            num: self.num,
            line: self.line,
        }
    }
}

pub open spec fn tok(kind: TokenKind, text: Option<Seq<char>>, num: i64, line: int) -> TokenView {
    TokenView { kind, text, num, line: line as usize }
}

impl Token {
    /// A token without text.
    pub fn new(kind: TokenKind, num: i64, line: usize) -> (t: Token)
        ensures
            t@ == tok(kind, None, num, line as int),
    {
        Token { kind, text: None, num, line }
    }
}

// ---------------------------------------------------------------------
// The token grammar, as functions of the character sequence.
// ---------------------------------------------------------------------

/// The character at `p`, or NUL past the end.
pub open spec fn peek_at(cs: Seq<char>, p: int) -> char {
    if 0 <= p < cs.len() { cs[p] } else { '\0' }
}

/// One position further, but not past the end.
pub open spec fn adv(cs: Seq<char>, p: int) -> int {
    if p < cs.len() { p + 1 } else { p }
}

/// Characters that identifiers (and keywords) are made of.
pub open spec fn is_ident(c: char) -> bool {
    ('a' <= c && c <= 'z') || ('A' <= c && c <= 'Z') || ('0' <= c && c <= '9') || c == '_' || (
    0x4E00 <= (c as u32) && (c as u32) <= 0x9FA5)
}

pub open spec fn is_digit(c: char) -> bool {
    '0' <= c && c <= '9'
}

/// The keyword spelled by `s`, or `Ident` when it is no keyword.
pub open spec fn keyword_of(s: Seq<char>) -> TokenKind {
    if s == seq!['喵'] {
        TokenKind::Miao
    } else if s == seq!['变', '量'] {
        TokenKind::Bian
    } else if s == seq!['如', '果'] {
        TokenKind::Ruguo
    } else if s == seq!['那', '么'] {
        TokenKind::Name
    } else if s == seq!['否', '则'] {
        TokenKind::Fouze
    } else if s == seq!['当'] {
        TokenKind::Dang
    } else if s == seq!['返', '回'] {
        TokenKind::Fanhui
    } else if s == seq!['喵', '叫'] {
        TokenKind::Miaojiao
    } else if s == seq!['数', '组'] {
        TokenKind::Shizu
    } else {
        TokenKind::Ident
    }
}

/// The end of the run of identifier characters that starts at `p`.
pub open spec fn ident_end(cs: Seq<char>, p: int) -> int
    decreases cs.len() - p,
{
    if 0 <= p < cs.len() && is_ident(cs[p]) { ident_end(cs, p + 1) } else { p }
}

/// The end of the run of digits that starts at `p`.
pub open spec fn digits_end(cs: Seq<char>, p: int) -> int
    decreases cs.len() - p,
{
    if 0 <= p < cs.len() && is_digit(cs[p]) { digits_end(cs, p + 1) } else { p }
}

/// The value of the digits `cs[p..e]`, accumulated as `n * 10 + d` with
/// two's-complement wrap-around.
pub open spec fn digits_value(cs: Seq<char>, p: int, e: int) -> i64
    decreases e - p,
{
    if e <= p {
        0
    } else {
        digits_value(cs, p, e - 1).wrapping_mul(10).wrapping_add(((cs[e - 1] as u32) - 48) as i64)
    }
}

/// Where a `#` comment that starts before `p` ends: at the next newline
/// (which is not consumed) or at the end.
pub open spec fn line_comment_end(cs: Seq<char>, p: int) -> int
    decreases cs.len() - p,
{
    if 0 <= p < cs.len() && cs[p] != '\0' && cs[p] != '\n' {
        line_comment_end(cs, p + 1)
    } else {
        p
    }
}

/// Where a `#* ... *#` comment whose body starts at `p` ends, and the line
/// reached: just after `*#`, or at the end.
pub open spec fn block_comment_end(cs: Seq<char>, p: int, line: int) -> (int, int)
    decreases cs.len() - p,
{
    if !(0 <= p < cs.len()) || cs[p] == '\0' {
        (p, line)
    } else if cs[p] == '*' && p + 1 < cs.len() && cs[p + 1] == '#' {
        (p + 2, line)
    } else {
        block_comment_end(cs, p + 1, if cs[p] == '\n' { line + 1 } else { line })
    }
}

/// The closing quote of an opening quote.
pub open spec fn closing_quote(q: char) -> char {
    if q == '"' {
        '"'
    } else if q == '\'' {
        '\''
    } else if q == '\u{201C}' {
        '\u{201D}'
    } else {
        '\u{2019}'
    }
}

/// The character an escape letter stands for, if it is an escape.
pub open spec fn escape_of(e: char) -> Option<char> {
    if e == 'n' {
        Some('\n')
    } else if e == 't' {
        Some('\t')
    } else if e == 'r' {
        Some('\r')
    } else if e == '\\' {
        Some('\\')
    } else if e == '"' {
        Some('"')
    } else if e == '\'' {
        Some('\'')
    } else {
        None
    }
}

/// Scans the body of a string literal from `p` (the character after the
/// opening quote or after the part already read into `buf`): the contents,
/// the position after the closing quote and the line reached.
pub open spec fn string_body(
    cs: Seq<char>,
    p: int,
    line: int,
    start_line: int,
    ascii: bool,
    close: char,
    buf: Seq<char>,
) -> Result<(Seq<char>, int, int), ErrorView>
    decreases cs.len() - p,
{
    let c = peek_at(cs, p);
    if c == '\0' && !(0 <= p < cs.len()) {
        Err(err_view(start_line as usize, "字符串未闭合"@))
    } else if c == '\0' {
        Err(err_view(start_line as usize, "字符串未闭合"@))
    } else {
        let line2 = if c == '\n' { line + 1 } else { line };
        if c == close {
            Ok((buf, p + 1, line2))
        } else if c == '\\' && ascii {
            let e = peek_at(cs, p + 1);
            let buf2 = match escape_of(e) {
                Some(x) => buf.push(x),
                None => buf,
            };
            string_body(cs, adv(cs, p + 1), line2, start_line, ascii, close, buf2)
        } else {
            string_body(cs, p + 1, line2, start_line, ascii, close, buf.push(c))
        }
    }
}

/// A string literal whose opening quote is at `p`.
pub open spec fn string_at(cs: Seq<char>, p: int, line: int) -> Result<(TokenView, int, int), ErrorView> {
    let q = cs[p];
    match string_body(cs, p + 1, line, line, q == '"' || q == '\'', closing_quote(q), Seq::empty()) {
        Ok((s, p2, l2)) => Ok((tok(TokenKind::Str, Some(s), 0, line), p2, l2)),
        Err(e) => Err(e),
    }
}

/// The kind of a one-character operator or delimiter, if `c` is one.
pub open spec fn single_kind(c: char) -> Option<TokenKind> {
    if c == '+' {
        Some(TokenKind::Plus)
    } else if c == '-' {
        Some(TokenKind::Minus)
    } else if c == '*' {
        Some(TokenKind::Star)
    } else if c == '/' {
        Some(TokenKind::Slash)
    } else if c == '%' {
        Some(TokenKind::Percent)
    } else if c == '(' {
        Some(TokenKind::LP)
    } else if c == ')' {
        Some(TokenKind::RP)
    } else if c == '[' {
        Some(TokenKind::LB)
    } else if c == ']' {
        Some(TokenKind::RB)
    } else if c == '{' {
        Some(TokenKind::LC)
    } else if c == '}' {
        Some(TokenKind::RC)
    } else if c == ',' {
        Some(TokenKind::Comma)
    } else {
        None
    }
}

/// The token that starts at `p` (`p` is not blank, not a comment, not the end).
pub open spec fn token_at(cs: Seq<char>, p: int, line: int) -> Result<(TokenView, int, int), ErrorView> {
    let c = cs[p];
    if is_digit(c) {
        let e = digits_end(cs, p);
        Ok((tok(TokenKind::Num, None, digits_value(cs, p, e), line), e, line))
    } else if is_ident(c) {
        let e = ident_end(cs, p);
        let text = cs.subrange(p, e);
        let k = keyword_of(text);
        if k == TokenKind::Ident {
            Ok((tok(TokenKind::Ident, Some(text), 0, line), e, line))
        } else {
            Ok((tok(k, None, 0, line), e, line))
        }
    } else if c == '"' || c == '\'' || c == '\u{201C}' || c == '\u{2018}' {
        string_at(cs, p, line)
    } else if single_kind(c) is Some {
        Ok((tok(single_kind(c)->Some_0, None, 0, line), p + 1, line))
    } else if c == '=' {
        if peek_at(cs, p + 1) == '=' {
            Ok((tok(TokenKind::Eqeq, None, 0, line), p + 2, line))
        } else {
            Ok((tok(TokenKind::Assign, None, 0, line), p + 1, line))
        }
    } else if c == '!' {
        if peek_at(cs, p + 1) == '=' {
            Ok((tok(TokenKind::Neq, None, 0, line), p + 2, line))
        } else {
            Err(err_view(line as usize, "无法识别的字符"@))
        }
    } else if c == '>' {
        if peek_at(cs, p + 1) == '=' {
            Ok((tok(TokenKind::Ge, None, 0, line), p + 2, line))
        } else {
            Ok((tok(TokenKind::Gt, None, 0, line), p + 1, line))
        }
    } else if c == '<' {
        if peek_at(cs, p + 1) == '=' {
            Ok((tok(TokenKind::Le, None, 0, line), p + 2, line))
        } else {
            Ok((tok(TokenKind::Lt, None, 0, line), p + 1, line))
        }
    } else {
        Err(err_view(line as usize, "无法识别的字符"@))
    }
}

pub proof fn lemma_block_comment_end(cs: Seq<char>, p: int, line: int)
    requires
        0 <= p,
    ensures
        p <= block_comment_end(cs, p, line).0,
        p <= cs.len() ==> block_comment_end(cs, p, line).0 <= cs.len(),
    decreases cs.len() - p,
{
    if 0 <= p < cs.len() && cs[p] != '\0' && !(cs[p] == '*' && p + 1 < cs.len() && cs[p + 1]
        == '#') {
        lemma_block_comment_end(cs, p + 1, if cs[p] == '\n' { line + 1 } else { line });
    }
}

pub proof fn lemma_line_comment_end(cs: Seq<char>, p: int)
    ensures
        p <= line_comment_end(cs, p),
        p <= cs.len() ==> line_comment_end(cs, p) <= cs.len(),
    decreases cs.len() - p,
{
    if 0 <= p < cs.len() && cs[p] != '\0' && cs[p] != '\n' {
        lemma_line_comment_end(cs, p + 1);
    }
}

/// The next token at or after `p` (blanks and comments are skipped), with
/// the position after it and the line reached; at the end (or at a NUL
/// character) an `Eof` token that consumes nothing.
pub open spec fn lex_at(cs: Seq<char>, p: int, line: int) -> Result<(TokenView, int, int), ErrorView>
    decreases cs.len() - p,
{
    let c = peek_at(cs, p);
    if p < 0 || c == '\0' {
        Ok((tok(TokenKind::Eof, None, 0, line), p, line))
    } else if c == '\n' {
        lex_at(cs, p + 1, line + 1)
    } else if c == ' ' || c == '\t' || c == '\r' {
        lex_at(cs, p + 1, line)
    } else if c == '#' {
        if peek_at(cs, p + 1) == '*' {
            let (q, l) = block_comment_end(cs, p + 2, line);
            proof {
                lemma_block_comment_end(cs, p + 2, line);
            }
            lex_at(cs, q, l)
        } else {
            proof {
                lemma_line_comment_end(cs, p + 1);
            }
            lex_at(cs, line_comment_end(cs, p + 1), line)
        }
    } else {
        token_at(cs, p, line)
    }
}

/// `done` are the tokens read from `(p, line)` on, none of them `Eof`, and
/// they lead to `(pe, le)`.
pub open spec fn lex_prefix(cs: Seq<char>, p: int, line: int, done: Seq<TokenView>, pe: int, le: int) -> bool
    decreases done.len(),
{
    if done.len() == 0 {
        p == pe && line == le
    } else {
        match lex_at(cs, p, line) {
            Ok((t, p2, l2)) => t == done[0] && t.kind != TokenKind::Eof && lex_prefix(
                cs,
                p2,
                l2,
                done.drop_first(),
                pe,
                le,
            ),
            Err(_) => false,
        }
    }
}

/// `toks` is the whole token stream read from `(p, line)`: tokens up to and
/// including the first `Eof`.
pub open spec fn lex_run(cs: Seq<char>, p: int, line: int, toks: Seq<TokenView>) -> bool {
    &&& toks.len() > 0
    &&& toks.last().kind == TokenKind::Eof
    &&& exists|pe: int, le: int|
        lex_prefix(cs, p, line, toks.drop_last(), pe, le) && (lex_at(cs, pe, le) matches Ok(
            (t, _, _),
        ) && t == toks.last())
}

/// Reading tokens from `(p, line)` fails with `e` after `n` good tokens.
pub open spec fn lex_fail(cs: Seq<char>, p: int, line: int, e: ErrorView) -> bool {
    exists|done: Seq<TokenView>, pe: int, le: int|
        lex_prefix(cs, p, line, done, pe, le) && lex_at(cs, pe, le) == Err::<
            (TokenView, int, int),
            ErrorView,
        >(e)
}

proof fn lemma_lex_prefix_push(
    cs: Seq<char>,
    p: int,
    line: int,
    done: Seq<TokenView>,
    pe: int,
    le: int,
    t: TokenView,
    p2: int,
    l2: int,
)
    requires
        lex_prefix(cs, p, line, done, pe, le),
        lex_at(cs, pe, le) == Ok::<(TokenView, int, int), ErrorView>((t, p2, l2)),
        t.kind != TokenKind::Eof,
    ensures
        lex_prefix(cs, p, line, done.push(t), p2, l2),
    decreases done.len(),
{
    if done.len() == 0 {
        assert(done.push(t).drop_first() =~= Seq::<TokenView>::empty());
        assert(lex_prefix(cs, p2, l2, Seq::<TokenView>::empty(), p2, l2));
        assert(done.push(t)[0] == t);
    } else {
        let (t0, q, l) = lex_at(cs, p, line)->Ok_0;
        lemma_lex_prefix_push(cs, q, l, done.drop_first(), pe, le, t, p2, l2);
        assert(done.push(t).drop_first() =~= done.drop_first().push(t));
    }
}

// ---------------------------------------------------------------------
// The lexer.
// ---------------------------------------------------------------------

/// Lexer state: the source characters, the next position and the line.
struct Lexer {
    chars: Vec<char>,
    pos: usize,
    line: usize,
}

/// Whether `c` may appear in an identifier: ASCII letters and digits, `_`,
/// and the ideographs U+4E00..=U+9FA5.
fn is_ident_char(c: char) -> (b: bool)
    ensures
        b == is_ident(c),
{
    ('a' <= c && c <= 'z') || ('A' <= c && c <= 'Z') || ('0' <= c && c <= '9') || c == '_' || (
    0x4E00u32 <= (c as u32) && (c as u32) <= 0x9FA5u32)
}

/// The keyword spelled by `s`, or `Ident`.
fn keyword_kind(s: &Vec<char>) -> (k: TokenKind)
    ensures
        k == keyword_of(s@),
{
    let n = s.len();
    if n == 1 {
        let a = s[0];
        if a == '喵' {
            assert(s@ =~= seq!['喵']);
            return TokenKind::Miao;
        }
        if a == '当' {
            assert(s@ =~= seq!['当']);
            return TokenKind::Dang;
        }
    } else if n == 2 {
        let a = s[0];
        let b = s[1];
        if a == '变' && b == '量' {
            assert(s@ =~= seq!['变', '量']);
            return TokenKind::Bian;
        }
        if a == '如' && b == '果' {
            assert(s@ =~= seq!['如', '果']);
            return TokenKind::Ruguo;
        }
        if a == '那' && b == '么' {
            assert(s@ =~= seq!['那', '么']);
            return TokenKind::Name;
        }
        if a == '否' && b == '则' {
            assert(s@ =~= seq!['否', '则']);
            return TokenKind::Fouze;
        }
        if a == '返' && b == '回' {
            assert(s@ =~= seq!['返', '回']);
            return TokenKind::Fanhui;
        }
        if a == '喵' && b == '叫' {
            assert(s@ =~= seq!['喵', '叫']);
            return TokenKind::Miaojiao;
        }
        if a == '数' && b == '组' {
            assert(s@ =~= seq!['数', '组']);
            return TokenKind::Shizu;
        }
    }
    proof {
        if n == 1 {
            assert(s@ != seq!['变', '量']);
            assert(seq!['喵'][0] == '喵');
            assert(seq!['当'][0] == '当');
        } else if n == 2 {
            assert(seq!['变', '量'][0] == '变' && seq!['变', '量'][1] == '量');
            assert(seq!['如', '果'][0] == '如' && seq!['如', '果'][1] == '果');
            assert(seq!['那', '么'][0] == '那' && seq!['那', '么'][1] == '么');
            assert(seq!['否', '则'][0] == '否' && seq!['否', '则'][1] == '则');
            assert(seq!['返', '回'][0] == '返' && seq!['返', '回'][1] == '回');
            assert(seq!['喵', '叫'][0] == '喵' && seq!['喵', '叫'][1] == '叫');
            assert(seq!['数', '组'][0] == '数' && seq!['数', '组'][1] == '组');
        }
    }
    TokenKind::Ident
}


impl Lexer {
    /// The lexer's well-formedness: the position is within the source, the
    /// line count is bounded by the characters read, and the source is
    /// shorter than the largest index.
    spec fn inv(&self) -> bool {
        &&& self.pos <= self.chars@.len()
        &&& self.line <= self.pos + 1
        &&& self.chars@.len() < usize::MAX
    }

    /// A lexer at the start of `src`.
    fn new(src: &str) -> (l: Lexer)
        requires
            src@.len() < usize::MAX,
        ensures
            l.inv(),
            l.chars@ == src@,
            l.pos == 0,
            l.line == 1,
    {
        let mut chars: Vec<char> = Vec::new();
        for c in it: src.chars()
            invariant
                chars@ == it.seq().take(it.index() as int),
        {
            chars.push(c);
        }
        assert(chars@ =~= src@);
        Lexer { chars, pos: 0, line: 1 }
    }

    /// The current character, NUL at the end.
    fn peek(&self) -> (c: char)
        ensures
            c == peek_at(self.chars@, self.pos as int),
    {
        if self.pos >= self.chars.len() {
            '\0'
        } else {
            self.chars[self.pos]
        }
    }

    /// Moves one character on (not past the end).
    fn advance(&mut self)
        requires
            old(self).pos <= old(self).chars@.len(),
        ensures
            final(self).chars == old(self).chars,
            final(self).line == old(self).line,
            final(self).pos == adv(old(self).chars@, old(self).pos as int),
    {
        if self.pos < self.chars.len() {
            self.pos = self.pos + 1;
        }
    }

    /// Skips the body of a `#* ... *#` comment.
    fn skip_block_comment(&mut self)
        requires
            old(self).inv(),
        ensures
            final(self).inv(),
            final(self).chars == old(self).chars,
            (final(self).pos as int, final(self).line as int) == block_comment_end(
                old(self).chars@,
                old(self).pos as int,
                old(self).line as int,
            ),
    {
        loop
            invariant
                self.inv(),
                self.chars == old(self).chars,
                block_comment_end(self.chars@, self.pos as int, self.line as int)
                    == block_comment_end(old(self).chars@, old(self).pos as int, old(self).line as int),
            decreases self.chars@.len() - self.pos,
        {
            if self.peek() == '\0' {
                return;
            }
            if self.peek() == '*' && self.pos + 1 < self.chars.len() && self.chars[self.pos + 1]
                == '#' {
                self.advance();
                self.advance();
                return;
            }
            if self.peek() == '\n' {
                self.line = self.line + 1;
            }
            self.advance();
        }
    }

    /// Skips the rest of a `#` comment, up to (not over) the newline.
    fn skip_line_comment(&mut self)
        requires
            old(self).inv(),
        ensures
            final(self).inv(),
            final(self).chars == old(self).chars,
            final(self).line == old(self).line,
            final(self).pos == line_comment_end(old(self).chars@, old(self).pos as int),
    {
        while self.peek() != '\0' && self.peek() != '\n'
            invariant
                self.inv(),
                self.chars == old(self).chars,
                self.line == old(self).line,
                line_comment_end(self.chars@, self.pos as int) == line_comment_end(
                    old(self).chars@,
                    old(self).pos as int,
                ),
            decreases self.chars@.len() - self.pos,
        {
            self.advance();
        }
    }

    /// Scans a string literal whose opening quote `q` is the current
    /// character; `line` is the current line.
    fn lex_string(&mut self, q: char, line: usize) -> (r: Result<Token, RuaError>)
        requires
            old(self).inv(),
            old(self).pos < old(self).chars@.len(),
            old(self).chars@[old(self).pos as int] == q,
            old(self).line == line,
        ensures
            final(self).inv(),
            final(self).chars == old(self).chars,
            r is Ok ==> final(self).pos > old(self).pos,
            match string_at(old(self).chars@, old(self).pos as int, line as int) {
                Ok((t, p2, l2)) => r matches Ok(x) && x@ == t && final(self).pos == p2
                    && final(self).line == l2,
                Err(e) => r matches Err(x) && x@ == e,
            },
    {
        let close = if q == '"' {
            '"'
        } else if q == '\'' {
            '\''
        } else if q == '\u{201C}' {
            '\u{201D}'
        } else {
            '\u{2019}'
        };
        let ascii = q == '"' || q == '\'';
        self.advance();
        let mut buf = String::new();
        loop
            invariant
                self.inv(),
                self.chars == old(self).chars,
                self.pos > old(self).pos,
                old(self).pos < old(self).chars@.len(),
                old(self).chars@[old(self).pos as int] == q,
                ascii == (q == '"' || q == '\''),
                close == closing_quote(q),
                string_body(
                    self.chars@,
                    self.pos as int,
                    self.line as int,
                    line as int,
                    ascii,
                    close,
                    buf@,
                ) == string_body(
                    self.chars@,
                    old(self).pos + 1,
                    line as int,
                    line as int,
                    ascii,
                    close,
                    Seq::empty(),
                ),
            decreases self.chars@.len() - self.pos,
        {
            if self.peek() == '\0' {
                return Err(RuaError::new(line, "字符串未闭合"));
            }
            let c = self.peek();
            if c == '\n' {
                self.line = self.line + 1;
            }
            if c == close {
                self.advance();
                let mut t = Token::new(TokenKind::Str, 0, line);
                t.text = Some(buf);
                return Ok(t);
            }
            if c == '\\' && ascii {
                self.advance();
                let e = self.peek();
                let esc = if e == 'n' {
                    Some('\n')
                } else if e == 't' {
                    Some('\t')
                } else if e == 'r' {
                    Some('\r')
                } else if e == '\\' {
                    Some('\\')
                } else if e == '"' {
                    Some('"')
                } else if e == '\'' {
                    Some('\'')
                } else {
                    None
                };
                self.advance();
                if let Some(ch) = esc {
                    push_char(&mut buf, ch);
                }
                continue;
            }
            push_char(&mut buf, c);
            self.advance();
        }
    }

    /// Scans the token that starts at the current (non-blank) character.
    fn lex_token(&mut self) -> (r: Result<Token, RuaError>)
        requires
            old(self).inv(),
            old(self).pos < old(self).chars@.len(),
            old(self).chars@[old(self).pos as int] != '\0',
        ensures
            final(self).inv(),
            final(self).chars == old(self).chars,
            match token_at(old(self).chars@, old(self).pos as int, old(self).line as int) {
                Ok((t, p2, l2)) => r matches Ok(x) && x@ == t && final(self).pos == p2
                    && final(self).line == l2,
                Err(e) => r matches Err(x) && x@ == e,
            },
            r is Ok ==> final(self).pos > old(self).pos,
    {
        let c0 = self.peek();
        let start = self.pos;
        // integers: a run of ASCII digits
        if '0' <= c0 && c0 <= '9' {
            let mut n: i64 = 0;
            while '0' <= self.peek() && self.peek() <= '9'
                invariant
                    self.inv(),
                    self.chars == old(self).chars,
                    self.line == old(self).line,
                    start <= self.pos,
                    digits_end(self.chars@, start as int) == digits_end(self.chars@, self.pos as int),
                    n == digits_value(self.chars@, start as int, self.pos as int),
                decreases self.chars@.len() - self.pos,
            {
                let d: i64 = (self.peek() as u32 - 48u32) as i64;
                n = n.wrapping_mul(10).wrapping_add(d);
                self.advance();
            }
            return Ok(Token::new(TokenKind::Num, n, self.line));
        }
        // identifiers and keywords
        if is_ident_char(c0) {
            let mut text = String::new();
            let mut letters: Vec<char> = Vec::new();
            while is_ident_char(self.peek())
                invariant
                    self.inv(),
                    self.chars == old(self).chars,
                    self.line == old(self).line,
                    start <= self.pos,
                    ident_end(self.chars@, start as int) == ident_end(self.chars@, self.pos as int),
                    letters@ == self.chars@.subrange(start as int, self.pos as int),
                    text@ == letters@,
                decreases self.chars@.len() - self.pos,
            {
                let c = self.peek();
                push_char(&mut text, c);
                letters.push(c);
                self.advance();
                assert(letters@ =~= self.chars@.subrange(start as int, self.pos as int));
            }
            let k = keyword_kind(&letters);
            if k == TokenKind::Ident {
                let mut t = Token::new(TokenKind::Ident, 0, self.line);
                t.text = Some(text);
                return Ok(t);
            }
            return Ok(Token::new(k, 0, self.line));
        }
        // strings
        if c0 == '"' || c0 == '\'' || c0 == '\u{201C}' || c0 == '\u{2018}' {
            return self.lex_string(c0, self.line);
        }
        // operators and delimiters
        let line = self.line;
        self.advance();
        match c0 {
            '+' => Ok(Token::new(TokenKind::Plus, 0, line)),
            '-' => Ok(Token::new(TokenKind::Minus, 0, line)),
            '*' => Ok(Token::new(TokenKind::Star, 0, line)),
            '/' => Ok(Token::new(TokenKind::Slash, 0, line)),
            '%' => Ok(Token::new(TokenKind::Percent, 0, line)),
            '(' => Ok(Token::new(TokenKind::LP, 0, line)),
            ')' => Ok(Token::new(TokenKind::RP, 0, line)),
            '[' => Ok(Token::new(TokenKind::LB, 0, line)),
            ']' => Ok(Token::new(TokenKind::RB, 0, line)),
            '{' => Ok(Token::new(TokenKind::LC, 0, line)),
            '}' => Ok(Token::new(TokenKind::RC, 0, line)),
            ',' => Ok(Token::new(TokenKind::Comma, 0, line)),
            '=' => {
                if self.peek() == '=' {
                    self.advance();
                    return Ok(Token::new(TokenKind::Eqeq, 0, line));
                }
                Ok(Token::new(TokenKind::Assign, 0, line))
            },
            '!' => {
                if self.peek() == '=' {
                    self.advance();
                    return Ok(Token::new(TokenKind::Neq, 0, line));
                }
                Err(RuaError::new(line, "无法识别的字符"))
            },
            '>' => {
                if self.peek() == '=' {
                    self.advance();
                    return Ok(Token::new(TokenKind::Ge, 0, line));
                }
                Ok(Token::new(TokenKind::Gt, 0, line))
            },
            '<' => {
                if self.peek() == '=' {
                    self.advance();
                    return Ok(Token::new(TokenKind::Le, 0, line));
                }
                Ok(Token::new(TokenKind::Lt, 0, line))
            },
            _ => Err(RuaError::new(line, "无法识别的字符")),
        }
    }

    /// Scans the next token, skipping blanks and comments; at the end (or at
    /// a NUL character) an `Eof` token.
    fn lex_next(&mut self) -> (r: Result<Token, RuaError>)
        requires
            old(self).inv(),
        ensures
            final(self).inv(),
            final(self).chars == old(self).chars,
            match lex_at(old(self).chars@, old(self).pos as int, old(self).line as int) {
                Ok((t, p2, l2)) => r matches Ok(x) && x@ == t && final(self).pos == p2
                    && final(self).line == l2,
                Err(e) => r matches Err(x) && x@ == e,
            },
            r matches Ok(t) && t.kind != TokenKind::Eof ==> final(self).pos > old(self).pos,
    {
        loop
            invariant
                self.inv(),
                self.chars == old(self).chars,
                old(self).pos <= self.pos,
                lex_at(self.chars@, self.pos as int, self.line as int) == lex_at(
                    old(self).chars@,
                    old(self).pos as int,
                    old(self).line as int,
                ),
            decreases self.chars@.len() - self.pos,
        {
            if self.peek() == '\0' {
                return Ok(Token::new(TokenKind::Eof, 0, self.line));
            }
            let c0 = self.peek();
            // newlines count lines
            if c0 == '\n' {
                self.advance();
                self.line = self.line + 1;
                continue;
            }
            // blanks
            if c0 == ' ' || c0 == '\t' || c0 == '\r' {
                self.advance();
                continue;
            }
            // comments: `#` to the end of the line, or `#* ... *#`
            if c0 == '#' {
                self.advance();
                if self.peek() == '*' {
                    self.advance();
                    proof {
                        lemma_block_comment_end(self.chars@, self.pos as int, self.line as int);
                    }
                    self.skip_block_comment();
                } else {
                    proof {
                        lemma_line_comment_end(self.chars@, self.pos as int);
                    }
                    self.skip_line_comment();
                }
                continue;
            }
            return self.lex_token();
        }
    }

    /// Scans the whole source: all tokens up to and including `Eof`.
    fn lex_all(lexer: Lexer) -> (r: Result<Vec<Token>, RuaError>)
        requires
            lexer.inv(),
        ensures
            match r {
                Ok(toks) => lex_run(
                    lexer.chars@,
                    lexer.pos as int,
                    lexer.line as int,
                    toks@.map_values(|t: Token| t@),
                ),
                Err(e) => lex_fail(lexer.chars@, lexer.pos as int, lexer.line as int, e@),
            },
    {
        let ghost cs = lexer.chars@;
        let ghost p0 = lexer.pos as int;
        let ghost l0 = lexer.line as int;
        let mut lx = lexer;
        let mut toks: Vec<Token> = Vec::new();
        assert(toks@.map_values(|t: Token| t@) =~= Seq::<TokenView>::empty());
        loop
            invariant
                lx.inv(),
                lx.chars@ == cs,
                cs == lexer.chars@,
                p0 == lexer.pos as int,
                l0 == lexer.line as int,
                lex_prefix(cs, p0, l0, toks@.map_values(|t: Token| t@), lx.pos as int, lx.line as int),
            decreases lx.chars@.len() - lx.pos,
        {
            let ghost done = toks@.map_values(|t: Token| t@);
            let ghost (pe, le) = (lx.pos as int, lx.line as int);
            let t = match lx.lex_next() {
                Ok(t) => t,
                Err(e) => {
                    assert(lex_prefix(cs, p0, l0, done, pe, le));
                    assert(lex_at(cs, pe, le) == Err::<(TokenView, int, int), ErrorView>(e@));
                    assert(lex_fail(cs, p0, l0, e@));
                    return Err(e);
                },
            };
            let end = t.kind == TokenKind::Eof;
            let ghost tv = t@;
            toks.push(t);
            assert(toks@.map_values(|t: Token| t@) =~= done.push(tv));
            if end {
                let ghost all = toks@.map_values(|t: Token| t@);
                assert(all.drop_last() =~= done);
                assert(lex_prefix(cs, p0, l0, all.drop_last(), pe, le));
                assert(lex_at(cs, pe, le) matches Ok((t, _, _)) && t == all.last());
                assert(lex_run(cs, p0, l0, all));
                return Ok(toks);
            }
            proof {
                lemma_lex_prefix_push(cs, p0, l0, done, pe, le, tv, lx.pos as int, lx.line as int);
            }
        }
    }
}

/// Only identifiers and strings carry text.
pub open spec fn text_ok(t: TokenView) -> bool {
    (t.kind == TokenKind::Ident || t.kind == TokenKind::Str) <==> t.text is Some
}

proof fn lemma_block_comment_line(cs: Seq<char>, p: int, line: int)
    requires
        0 <= p,
    ensures
        block_comment_end(cs, p, line).1 >= line,
        block_comment_end(cs, p, line).1 - line <= block_comment_end(cs, p, line).0 - p,
    decreases cs.len() - p,
{
    if 0 <= p < cs.len() && cs[p] != '\0' && !(cs[p] == '*' && p + 1 < cs.len() && cs[p + 1] == '#') {
        lemma_block_comment_line(cs, p + 1, if cs[p] == '\n' { line + 1 } else { line });
    }
}

proof fn lemma_run_ends(cs: Seq<char>, p: int)
    requires
        0 <= p <= cs.len(),
    ensures
        p <= ident_end(cs, p) <= cs.len(),
        p <= digits_end(cs, p) <= cs.len(),
    decreases cs.len() - p,
{
    if p < cs.len() {
        lemma_run_ends(cs, p + 1);
    }
}

proof fn lemma_string_body_line(
    cs: Seq<char>,
    p: int,
    line: int,
    start_line: int,
    ascii: bool,
    close: char,
    buf: Seq<char>,
)
    requires
        0 <= p <= cs.len(),
    ensures
        string_body(cs, p, line, start_line, ascii, close, buf) matches Ok((_, p2, l2)) ==> p < p2 <= cs.len() && line
            <= l2 && l2 - line <= p2 - p,
    decreases cs.len() - p,
{
    let c = peek_at(cs, p);
    if c != '\0' {
        let line2 = if c == '\n' { line + 1 } else { line };
        if c == close {
        } else if c == '\\' && ascii {
            let e = peek_at(cs, p + 1);
            let buf2 = match escape_of(e) {
                Some(x) => buf.push(x),
                None => buf,
            };
            lemma_string_body_line(cs, adv(cs, p + 1), line2, start_line, ascii, close, buf2);
        } else {
            lemma_string_body_line(cs, p + 1, line2, start_line, ascii, close, buf.push(c));
        }
    }
}

/// A token read at `(p, line)`: the position and line after it advance no
/// less than lines are counted, the token is on a line from `line` to the
/// one after it, and only identifiers and strings carry text.
pub proof fn lemma_lex_at_token(cs: Seq<char>, p: int, line: int)
    requires
        0 <= p <= cs.len(),
        0 <= line,
        line + cs.len() - p <= usize::MAX,
    ensures
        lex_at(cs, p, line) matches Ok((t, p2, l2)) ==> {
            &&& p <= p2 <= cs.len()
            &&& line <= l2
            &&& l2 - line <= p2 - p
            &&& line <= t.line <= l2
            &&& text_ok(t)
        },
    decreases cs.len() - p,
{
    let c = peek_at(cs, p);
    if p < 0 || c == '\0' {
    } else if c == '\n' {
        lemma_lex_at_token(cs, p + 1, line + 1);
    } else if c == ' ' || c == '\t' || c == '\r' {
        lemma_lex_at_token(cs, p + 1, line);
    } else if c == '#' {
        if peek_at(cs, p + 1) == '*' {
            let (q, l) = block_comment_end(cs, p + 2, line);
            lemma_block_comment_end(cs, p + 2, line);
            lemma_block_comment_line(cs, p + 2, line);
            lemma_lex_at_token(cs, q, l);
        } else {
            lemma_line_comment_end(cs, p + 1);
            lemma_lex_at_token(cs, line_comment_end(cs, p + 1), line);
        }
    } else {
        lemma_run_ends(cs, p);
        let q = cs[p];
        if q == '"' || q == '\'' || q == '\u{201C}' || q == '\u{2018}' {
            lemma_string_body_line(cs, p + 1, line, line, q == '"' || q == '\'', closing_quote(q), Seq::empty());
        }
    }
}

/// The tokens read before the end: none is `Eof`, each carries text only
/// where it is an identifier or a string, and their lines never decrease,
/// from `line` up to `le`.
#[verifier::rlimit(50)]
proof fn lemma_lex_prefix_lines(cs: Seq<char>, p: int, line: int, done: Seq<TokenView>, pe: int, le: int)
    requires
        lex_prefix(cs, p, line, done, pe, le),
        0 <= p <= cs.len(),
        0 <= line,
        line + cs.len() - p <= usize::MAX,
    ensures
        line <= le,
        p <= pe <= cs.len(),
        le + cs.len() - pe <= line + cs.len() - p,
        forall|i: int| 0 <= i < done.len() ==> (#[trigger] done[i]).kind != TokenKind::Eof && text_ok(done[i]) && line
            <= done[i].line <= le,
        forall|i: int, j: int| 0 <= i <= j < done.len() ==> (#[trigger] done[i]).line <= (#[trigger] done[j]).line,
    decreases done.len(),
{
    if done.len() > 0 {
        lemma_lex_at_token(cs, p, line);
        let r = lex_at(cs, p, line);
        let (t, p2, l2) = r->Ok_0;
        let rest = done.drop_first();
        lemma_lex_prefix_lines(cs, p2, l2, rest, pe, le);
        assert forall|i: int| 0 <= i < done.len() implies (#[trigger] done[i]).kind != TokenKind::Eof && text_ok(done[i])
            && line <= done[i].line <= le by {
            if i > 0 {
                assert(done[i] == rest[i - 1]);
            }
        }
        assert forall|i: int, j: int| 0 <= i <= j < done.len() implies (#[trigger] done[i]).line <= (#[trigger] done[j]).line by {
            if i > 0 {
                assert(done[i] == rest[i - 1]);
                assert(done[j] == rest[j - 1]);
            } else if j > 0 {
                assert(done[j] == rest[j - 1]);
            }
        }
    }
}

/// A whole token stream ends in its only `Eof`, only identifiers and
/// strings carry text, and the line numbers never decrease.
#[verifier::rlimit(50)]
pub proof fn law_token_stream(cs: Seq<char>, toks: Seq<TokenView>)
    requires
        lex_run(cs, 0, 1, toks),
        cs.len() < usize::MAX,
    ensures
        toks.len() > 0,
        toks.last().kind == TokenKind::Eof,
        forall|i: int| 0 <= i < toks.len() - 1 ==> (#[trigger] toks[i]).kind != TokenKind::Eof,
        forall|i: int| 0 <= i < toks.len() ==> text_ok(#[trigger] toks[i]),
        forall|i: int, j: int| 0 <= i <= j < toks.len() ==> (#[trigger] toks[i]).line <= (#[trigger] toks[j]).line,
{
    let (pe, le) = choose|pe: int, le: int|
        lex_prefix(cs, 0, 1, toks.drop_last(), pe, le) && (lex_at(cs, pe, le) matches Ok((t, _, _)) && t == toks.last());
    let done = toks.drop_last();
    lemma_lex_prefix_lines(cs, 0, 1, done, pe, le);
    lemma_lex_at_token(cs, pe, le);
    let last = toks.last();
    assert(le <= last.line);
    assert forall|i: int| 0 <= i < toks.len() - 1 implies (#[trigger] toks[i]).kind != TokenKind::Eof by {
        assert(toks[i] == done[i]);
    }
    assert forall|i: int| 0 <= i < toks.len() implies text_ok(#[trigger] toks[i]) by {
        if i < toks.len() - 1 {
            assert(toks[i] == done[i]);
        }
    }
    assert forall|i: int, j: int| 0 <= i <= j < toks.len() implies (#[trigger] toks[i]).line <= (#[trigger] toks[j]).line by {
        if j < toks.len() - 1 {
            assert(toks[i] == done[i]);
            assert(toks[j] == done[j]);
        } else if i < toks.len() - 1 {
            assert(toks[i] == done[i]);
        }
    }
}

/// Lexes a whole source text: the tokens up to and including `Eof`, or the
/// first lexical error.
pub fn lex_all(src: &str) -> (r: Result<Vec<Token>, RuaError>)
    requires
        src@.len() < usize::MAX,
    ensures
        match r {
            Ok(toks) => lex_run(src@, 0, 1, toks@.map_values(|t: Token| t@)),
            Err(e) => lex_fail(src@, 0, 1, e@),
        },
{
    Lexer::lex_all(Lexer::new(src))
}

/// The readable name of a token kind.
pub open spec fn token_kind_text(k: TokenKind) -> Seq<char> {
    match k {
        TokenKind::Eof => "文件结束"@,
        TokenKind::Num => "数字"@,
        TokenKind::Str => "字符串"@,
        TokenKind::Ident => "标识符"@,
        TokenKind::Miao => "喵(函数)"@,
        TokenKind::Bian => "变量"@,
        TokenKind::Ruguo => "如果"@,
        TokenKind::Name => "那么"@,
        TokenKind::Fouze => "否则"@,
        TokenKind::Dang => "当"@,
        TokenKind::Fanhui => "返回"@,
        TokenKind::Miaojiao => "喵叫"@,
        TokenKind::Shizu => "数组"@,
        TokenKind::LP => "左括号("@,
        TokenKind::RP => "右括号)"@,
        TokenKind::LB => "左中括号["@,
        TokenKind::RB => "右中括号]"@,
        TokenKind::LC => "左花括号{"@,
        TokenKind::RC => "右花括号}"@,
        TokenKind::Comma => "逗号"@,
        TokenKind::Plus => "加号+"@,
        TokenKind::Minus => "减号-"@,
        TokenKind::Star => "乘号*"@,
        TokenKind::Slash => "除号/"@,
        TokenKind::Percent => "模号%"@,
        TokenKind::Eqeq => "等于=="@,
        TokenKind::Neq => "不等于!="@,
        TokenKind::Gt => "大于>"@,
        TokenKind::Lt => "小于<"@,
        TokenKind::Ge => "大于等于>="@,
        TokenKind::Le => "小于等于<="@,
        TokenKind::Assign => "赋值="@,
    }
}

/// The readable (Chinese) name of a token kind, used in debug output.
pub fn token_kind_name(k: TokenKind) -> (s: &'static str)
    ensures
        s@ == token_kind_text(k),
{
    match k {
        TokenKind::Eof => "文件结束",
        TokenKind::Num => "数字",
        TokenKind::Str => "字符串",
        TokenKind::Ident => "标识符",
        TokenKind::Miao => "喵(函数)",
        TokenKind::Bian => "变量",
        TokenKind::Ruguo => "如果",
        TokenKind::Name => "那么",
        TokenKind::Fouze => "否则",
        TokenKind::Dang => "当",
        TokenKind::Fanhui => "返回",
        TokenKind::Miaojiao => "喵叫",
        TokenKind::Shizu => "数组",
        TokenKind::LP => "左括号(",
        TokenKind::RP => "右括号)",
        TokenKind::LB => "左中括号[",
        TokenKind::RB => "右中括号]",
        TokenKind::LC => "左花括号{",
        TokenKind::RC => "右花括号}",
        TokenKind::Comma => "逗号",
        TokenKind::Plus => "加号+",
        TokenKind::Minus => "减号-",
        TokenKind::Star => "乘号*",
        TokenKind::Slash => "除号/",
        TokenKind::Percent => "模号%",
        TokenKind::Eqeq => "等于==",
        TokenKind::Neq => "不等于!=",
        TokenKind::Gt => "大于>",
        TokenKind::Lt => "小于<",
        TokenKind::Ge => "大于等于>=",
        TokenKind::Le => "小于等于<=",
        TokenKind::Assign => "赋值=",
    }
}

} // verus!
