//! The assembler half of the toolchain: a lexer that classifies raw source
//! bytes into tokens, a parser that turns the token stream into structured
//! instructions, and a two-pass compiler that assigns byte offsets, resolves
//! labels and emits the final program image.
//!
//! Each stage is specified by a pure function over sequences — [`lex_from`],
//! [`spec_parse`] and [`spec_compile`] — and the executable code is proved
//! to compute exactly those functions.

use vstd::prelude::*;

use crate::vm::encode;
use crate::vm::opcode_of;
use crate::vm::Inst;

verus! {

/// One classified token: its kind and the byte-offset span it covers in the
/// source text.
#[derive(Copy, Clone, Debug, Eq, PartialEq)]
pub struct Token(pub TokenType, pub (usize, usize));

/// The kinds of token the lexer produces.
#[derive(Copy, Clone, Debug, Eq, PartialEq, Structural)]
pub enum TokenType {
    Id,
    Int,
    Comma,
    NewLine,
    Colon,
    Eof,
}

/// An ASCII decimal digit.
pub open spec fn is_digit(b: u8) -> bool {
    48 <= b <= 57
}

/// An ASCII hexadecimal digit, either case.
pub open spec fn is_hex_digit(b: u8) -> bool {
    is_digit(b) || (97 <= b <= 102) || (65 <= b <= 70)
}

/// A byte that may appear in an identifier: a lower-case letter or an
/// underscore.
pub open spec fn is_id_byte(b: u8) -> bool {
    (97 <= b <= 122) || b == 95
}

/// The position where a comment that is open at `i` ends: the next line
/// break, or the end of the source.
pub open spec fn comment_end(src: Seq<u8>, i: nat) -> nat
    decreases src.len() - i,
{
    if i >= src.len() {
        src.len()
    } else if src[i as int] == 10 {
        i
    } else {
        comment_end(src, i + 1)
    }
}

/// The end of the run of decimal digits that starts at `i`.
pub open spec fn digits_end(src: Seq<u8>, i: nat) -> nat
    decreases src.len() - i,
{
    if i >= src.len() {
        i
    } else if !is_digit(src[i as int]) {
        i
    } else {
        digits_end(src, i + 1)
    }
}

/// The end of the run of hexadecimal digits that starts at `i`.
pub open spec fn hex_digits_end(src: Seq<u8>, i: nat) -> nat
    decreases src.len() - i,
{
    if i >= src.len() {
        i
    } else if !is_hex_digit(src[i as int]) {
        i
    } else {
        hex_digits_end(src, i + 1)
    }
}

/// The end of the run of identifier bytes that starts at `i`.
pub open spec fn id_end(src: Seq<u8>, i: nat) -> nat
    decreases src.len() - i,
{
    if i >= src.len() {
        i
    } else if !is_id_byte(src[i as int]) {
        i
    } else {
        id_end(src, i + 1)
    }
}

/// Whether the bytes at `i` open a hexadecimal literal: a zero, an `x` and a
/// decimal digit, with the digit strictly inside the source. A literal whose
/// first digit after `0x` is `a` to `f` is not recognized as hexadecimal;
/// the `0` alone is read as a decimal literal instead.
pub open spec fn is_hex_start(src: Seq<u8>, i: nat) -> bool {
    src[i as int] == 48 && i + 2 < src.len() && src[i as int + 1] == 120 && is_digit(
        src[i as int + 2],
    )
}

/// The token stream of the source from position `i` on. Unrecognized bytes
/// (upper-case letters among them) are silently skipped, never an error;
/// the stream always ends with one end-of-input token.
pub open spec fn lex_from(src: Seq<u8>, i: nat) -> Seq<Token>
    decreases src.len() - i,
    via lex_from_decreases
{
    if i >= src.len() {
        seq![Token(TokenType::Eof, (i as usize, i as usize))]
    } else {
        let b = src[i as int];
        if b == 59 {
            lex_from(src, comment_end(src, i))
        } else if b == 32 {
            lex_from(src, i + 1)
        } else if b == 44 {
            seq![Token(TokenType::Comma, (i as usize, (i + 1) as usize))] + lex_from(src, i + 1)
        } else if b == 10 {
            seq![Token(TokenType::NewLine, (i as usize, (i + 1) as usize))] + lex_from(src, i + 1)
        } else if b == 58 {
            seq![Token(TokenType::Colon, (i as usize, (i + 1) as usize))] + lex_from(src, i + 1)
        } else if is_digit(b) {
            let end = if is_hex_start(src, i) {
                hex_digits_end(src, i + 2)
            } else {
                digits_end(src, i)
            };
            seq![Token(TokenType::Int, (i as usize, end as usize))] + lex_from(src, end)
        } else if is_id_byte(b) {
            let end = id_end(src, i + 1);
            seq![Token(TokenType::Id, (i as usize, end as usize))] + lex_from(src, end)
        } else {
            lex_from(src, i + 1)
        }
    }
}

#[via_fn]
proof fn lex_from_decreases(src: Seq<u8>, i: nat) {
    if i < src.len() {
        let b = src[i as int];
        if b == 59 {
            lemma_comment_end_bounds(src, i);
        } else if is_digit(b) {
            if is_hex_start(src, i) {
                lemma_hex_digits_end_bounds(src, i + 2);
            } else {
                assert(digits_end(src, i) == digits_end(src, i + 1));
                lemma_digits_end_bounds(src, i + 1);
            }
        } else if is_id_byte(b) && !(b == 32 || b == 44 || b == 10 || b == 58) {
            lemma_id_end_bounds(src, i + 1);
        }
    }
}

/// A comment scan moves forward and never leaves the source.
pub proof fn lemma_comment_end_bounds(src: Seq<u8>, i: nat)
    requires
        i < src.len(),
        src[i as int] != 10,
    ensures
        i < comment_end(src, i) <= src.len(),
    decreases src.len() - i,
{
    if i + 1 < src.len() && src[i as int + 1] != 10 {
        lemma_comment_end_bounds(src, i + 1);
    } else if i + 1 >= src.len() {
        assert(comment_end(src, i + 1) == src.len());
    } else {
        assert(comment_end(src, i + 1) == i + 1);
    }
}

/// A digit scan never moves backward and never leaves the source.
pub proof fn lemma_digits_end_bounds(src: Seq<u8>, i: nat)
    requires
        i <= src.len(),
    ensures
        i <= digits_end(src, i) <= src.len(),
    decreases src.len() - i,
{
    if i < src.len() && is_digit(src[i as int]) {
        lemma_digits_end_bounds(src, i + 1);
    }
}

/// A hexadecimal digit scan never moves backward and never leaves the
/// source.
pub proof fn lemma_hex_digits_end_bounds(src: Seq<u8>, i: nat)
    requires
        i <= src.len(),
    ensures
        i <= hex_digits_end(src, i) <= src.len(),
    decreases src.len() - i,
{
    if i < src.len() && is_hex_digit(src[i as int]) {
        lemma_hex_digits_end_bounds(src, i + 1);
    }
}

/// An identifier scan never moves backward and never leaves the source.
pub proof fn lemma_id_end_bounds(src: Seq<u8>, i: nat)
    requires
        i <= src.len(),
    ensures
        i <= id_end(src, i) <= src.len(),
    decreases src.len() - i,
{
    if i < src.len() && is_id_byte(src[i as int]) {
        lemma_id_end_bounds(src, i + 1);
    }
}

/// Reads the whole source into its token stream. Comments run from `;` to
/// the end of the line; unrecognized bytes are skipped; the result always
/// ends with an end-of-input token.
pub fn read_all_tokens(source: &[u8]) -> (r: Vec<Token>)
    ensures
        r@ == lex_from(source@, 0),
{
    let mut res: Vec<Token> = Vec::new();
    let mut ptr: usize = 0;
    let n = source.len();
    loop
        invariant_except_break
            ptr <= n,
            n == source@.len(),
            lex_from(source@, 0) == res@ + lex_from(source@, ptr as nat),
        ensures
            res@ == lex_from(source@, 0),
        decreases n - ptr,
    {
        let ghost res0 = res@;
        let ghost p0 = ptr as nat;
        if ptr >= n {
            res.push(Token(TokenType::Eof, (ptr, ptr)));
            proof {
                assert(lex_from(source@, p0) == seq![
                    Token(TokenType::Eof, (p0 as usize, p0 as usize)),
                ]);
                assert(res@ =~= res0 + lex_from(source@, p0));
            }
            break ;
        }
        let b = source[ptr];
        if b == 59 {
            while ptr < n && source[ptr] != 10
                invariant
                    p0 <= ptr <= n,
                    n == source@.len(),
                    comment_end(source@, p0) == comment_end(source@, ptr as nat),
                decreases n - ptr,
            {
                ptr = ptr + 1;
            }
            proof {
                lemma_comment_end_bounds(source@, p0);
                assert(comment_end(source@, ptr as nat) == ptr as nat);
                assert(lex_from(source@, p0) == lex_from(source@, ptr as nat));
            }
        } else if b == 32 {
            ptr = ptr + 1;
        } else if b == 44 {
            res.push(Token(TokenType::Comma, (ptr, ptr + 1)));
            ptr = ptr + 1;
            proof {
                assert(res@ + lex_from(source@, ptr as nat) =~= res0 + lex_from(source@, p0));
            }
        } else if b == 10 {
            res.push(Token(TokenType::NewLine, (ptr, ptr + 1)));
            ptr = ptr + 1;
            proof {
                assert(res@ + lex_from(source@, ptr as nat) =~= res0 + lex_from(source@, p0));
            }
        } else if b == 58 {
            res.push(Token(TokenType::Colon, (ptr, ptr + 1)));
            ptr = ptr + 1;
            proof {
                assert(res@ + lex_from(source@, ptr as nat) =~= res0 + lex_from(source@, p0));
            }
        } else if 48 <= b && b <= 57 {
            let start = ptr;
            if b == 48 && n - ptr > 2 && source[ptr + 1] == 120 && is_digit_byte(source[ptr + 2]) {
                ptr = ptr + 2;
                while ptr < n && is_hex_digit_byte(source[ptr])
                    invariant
                        ptr <= n,
                        n == source@.len(),
                        hex_digits_end(source@, p0 + 2) == hex_digits_end(source@, ptr as nat),
                    decreases n - ptr,
                {
                    ptr = ptr + 1;
                }
                proof {
                    lemma_hex_digits_end_bounds(source@, p0 + 2);
                    assert(hex_digits_end(source@, ptr as nat) == ptr as nat);
                }
            } else {
                while ptr < n && is_digit_byte(source[ptr])
                    invariant
                        ptr <= n,
                        n == source@.len(),
                        digits_end(source@, p0) == digits_end(source@, ptr as nat),
                    decreases n - ptr,
                {
                    ptr = ptr + 1;
                }
                proof {
                    assert(digits_end(source@, p0) == digits_end(source@, p0 + 1));
                    lemma_digits_end_bounds(source@, p0 + 1);
                    assert(digits_end(source@, ptr as nat) == ptr as nat);
                }
            }
            res.push(Token(TokenType::Int, (start, ptr)));
            proof {
                assert(res@ + lex_from(source@, ptr as nat) =~= res0 + lex_from(source@, p0));
            }
        } else if (97 <= b && b <= 122) || b == 95 {
            let start = ptr;
            ptr = ptr + 1;
            while ptr < n && is_id_byte_exec(source[ptr])
                invariant
                    ptr <= n,
                    n == source@.len(),
                    id_end(source@, p0 + 1) == id_end(source@, ptr as nat),
                decreases n - ptr,
            {
                ptr = ptr + 1;
            }
            proof {
                lemma_id_end_bounds(source@, p0 + 1);
                assert(id_end(source@, ptr as nat) == ptr as nat);
            }
            res.push(Token(TokenType::Id, (start, ptr)));
            proof {
                assert(res@ + lex_from(source@, ptr as nat) =~= res0 + lex_from(source@, p0));
            }
        } else {
            ptr = ptr + 1;
        }
    }
    res
}

/// Whether a byte is an ASCII decimal digit.
fn is_digit_byte(b: u8) -> (r: bool)
    ensures
        r == is_digit(b),
{
    48 <= b && b <= 57
}

/// Whether a byte is an ASCII hexadecimal digit.
fn is_hex_digit_byte(b: u8) -> (r: bool)
    ensures
        r == is_hex_digit(b),
{
    (48 <= b && b <= 57) || (97 <= b && b <= 102) || (65 <= b && b <= 70)
}

/// Whether a byte may appear in an identifier.
fn is_id_byte_exec(b: u8) -> (r: bool)
    ensures
        r == is_id_byte(b),
{
    (97 <= b && b <= 122) || b == 95
}

/// A well-formed token stream: non-empty, closed by an end-of-input token,
/// every span inside the source. [`read_all_tokens`] always produces one.
pub open spec fn wf_tokens(toks: Seq<Token>, src: Seq<u8>) -> bool {
    &&& toks.len() > 0
    &&& toks.last().0 == TokenType::Eof
    &&& forall|k: int|
        0 <= k < toks.len() ==> (#[trigger] toks[k]).1.0 <= toks[k].1.1 && toks[k].1.1
            <= src.len()
}

/// The lexer's output is well formed, from any starting position.
pub proof fn lemma_lex_from_wf(src: Seq<u8>, i: nat)
    requires
        i <= src.len(),
        src.len() <= usize::MAX,
    ensures
        wf_tokens(lex_from(src, i), src),
    decreases src.len() - i,
{
    if i >= src.len() {
    } else {
        let b = src[i as int];
        if b == 59 {
            lemma_comment_end_bounds(src, i);
            lemma_lex_from_wf(src, comment_end(src, i));
        } else if b == 32 {
            lemma_lex_from_wf(src, i + 1);
        } else if b == 44 || b == 10 || b == 58 {
            lemma_lex_from_wf(src, i + 1);
        } else if is_digit(b) {
            if is_hex_start(src, i) {
                lemma_hex_digits_end_bounds(src, i + 2);
                lemma_lex_from_wf(src, hex_digits_end(src, i + 2));
            } else {
                assert(digits_end(src, i) == digits_end(src, i + 1));
                lemma_digits_end_bounds(src, i + 1);
                lemma_lex_from_wf(src, digits_end(src, i));
            }
        } else if is_id_byte(b) {
            lemma_id_end_bounds(src, i + 1);
            lemma_lex_from_wf(src, id_end(src, i + 1));
        } else {
            lemma_lex_from_wf(src, i + 1);
        }
    }
}

/// The token the parser sees at `pos`: past the end of the stream, the last
/// token (the end-of-input token, in a well-formed stream).
pub open spec fn tok_at(toks: Seq<Token>, pos: nat) -> Token
    recommends
        toks.len() > 0,
{
    if pos < toks.len() {
        toks[pos as int]
    } else {
        toks[toks.len() - 1]
    }
}

/// The source text a token covers.
pub open spec fn span_bytes(src: Seq<u8>, t: Token) -> Seq<u8> {
    src.subrange(t.1.0 as int, t.1.1 as int)
}

/// One parsed statement: a label declaration or an instruction with its
/// decoded operands. Registers are small integers, zero to fifteen; label
/// names are raw source bytes.
#[derive(Clone, Debug)]
pub enum ParsedInst {
    Label { label: Vec<u8> },
    Nop,
    Exit,
    Jump { label: Vec<u8> },
    Then,
    Otherwise,
    SetByte { dst: u32, val: u8 },
    SetShort { dst: u32, val: u16 },
    Push { src: u32 },
    Pop { dst: u32 },
    Add { dst: u32, src: u32 },
    Sub { dst: u32, src: u32 },
    Mul { dst: u32, src: u32 },
    Div { dst: u32, src: u32 },
    Mod { dst: u32, src: u32 },
    Neg { dst: u32 },
    GreaterThan { left: u32, right: u32 },
    LessThan { left: u32, right: u32 },
    GreaterEqual { left: u32, right: u32 },
    LessEqual { left: u32, right: u32 },
    Equal { left: u32, right: u32 },
    NotEqual { left: u32, right: u32 },
    Return,
    Call { label: Vec<u8> },
    Mov { dst: u32, src: u32 },
    Debug { src: u32, mode: u32 },
}

/// The mathematical value of a parsed statement: the same shape with label
/// names as byte sequences.
pub enum ParsedInstV {
    Label { label: Seq<u8> },
    Nop,
    Exit,
    Jump { label: Seq<u8> },
    Then,
    Otherwise,
    SetByte { dst: u32, val: u8 },
    SetShort { dst: u32, val: u16 },
    Push { src: u32 },
    Pop { dst: u32 },
    Add { dst: u32, src: u32 },
    Sub { dst: u32, src: u32 },
    Mul { dst: u32, src: u32 },
    Div { dst: u32, src: u32 },
    Mod { dst: u32, src: u32 },
    Neg { dst: u32 },
    GreaterThan { left: u32, right: u32 },
    LessThan { left: u32, right: u32 },
    GreaterEqual { left: u32, right: u32 },
    LessEqual { left: u32, right: u32 },
    Equal { left: u32, right: u32 },
    NotEqual { left: u32, right: u32 },
    Return,
    Call { label: Seq<u8> },
    Mov { dst: u32, src: u32 },
    Debug { src: u32, mode: u32 },
}

impl View for ParsedInst {
    type V = ParsedInstV;

    open spec fn view(&self) -> ParsedInstV {
        match self {
            ParsedInst::Label { label } => ParsedInstV::Label { label: label@ },
            ParsedInst::Nop => ParsedInstV::Nop,
            ParsedInst::Exit => ParsedInstV::Exit,
            ParsedInst::Jump { label } => ParsedInstV::Jump { label: label@ },
            ParsedInst::Then => ParsedInstV::Then,
            ParsedInst::Otherwise => ParsedInstV::Otherwise,
            ParsedInst::SetByte { dst, val } => ParsedInstV::SetByte { dst: *dst, val: *val },
            ParsedInst::SetShort { dst, val } => ParsedInstV::SetShort { dst: *dst, val: *val },
            ParsedInst::Push { src } => ParsedInstV::Push { src: *src },
            ParsedInst::Pop { dst } => ParsedInstV::Pop { dst: *dst },
            ParsedInst::Add { dst, src } => ParsedInstV::Add { dst: *dst, src: *src },
            ParsedInst::Sub { dst, src } => ParsedInstV::Sub { dst: *dst, src: *src },
            ParsedInst::Mul { dst, src } => ParsedInstV::Mul { dst: *dst, src: *src },
            ParsedInst::Div { dst, src } => ParsedInstV::Div { dst: *dst, src: *src },
            ParsedInst::Mod { dst, src } => ParsedInstV::Mod { dst: *dst, src: *src },
            ParsedInst::Neg { dst } => ParsedInstV::Neg { dst: *dst },
            ParsedInst::GreaterThan { left, right } => ParsedInstV::GreaterThan {
                left: *left,
                right: *right,
            },
            ParsedInst::LessThan { left, right } => ParsedInstV::LessThan {
                left: *left,
                right: *right,
            },
            ParsedInst::GreaterEqual { left, right } => ParsedInstV::GreaterEqual {
                left: *left,
                right: *right,
            },
            ParsedInst::LessEqual { left, right } => ParsedInstV::LessEqual {
                left: *left,
                right: *right,
            },
            ParsedInst::Equal { left, right } => ParsedInstV::Equal {
                left: *left,
                right: *right,
            },
            ParsedInst::NotEqual { left, right } => ParsedInstV::NotEqual {
                left: *left,
                right: *right,
            },
            ParsedInst::Return => ParsedInstV::Return,
            ParsedInst::Call { label } => ParsedInstV::Call { label: label@ },
            ParsedInst::Mov { dst, src } => ParsedInstV::Mov { dst: *dst, src: *src },
            ParsedInst::Debug { src, mode } => ParsedInstV::Debug { src: *src, mode: *mode },
        }
    }
}

/// The values of a whole statement list.
pub open spec fn insts_view(v: Seq<ParsedInst>) -> Seq<ParsedInstV> {
    v.map_values(|x: ParsedInst| x@)
}

/// A syntax error. Parsing stops at the first one; each carries the
/// offending token kind or its byte-offset span in the source.
#[derive(Copy, Clone, Debug, PartialEq, Eq)]
pub enum ParseError {
    /// A token that cannot start a statement stood at the head of a line.
    UnexpectedToken { found: TokenType, at: (usize, usize) },
    /// A specific token kind was required and something else stood there.
    ExpectedToken { expected: TokenType, found: TokenType, at: (usize, usize) },
    /// An integer literal was required.
    ExpectedInt { found: TokenType },
    /// An identifier was required.
    ExpectedId { found: TokenType },
    /// An integer literal that does not parse or does not fit.
    BadIntLiteral { at: (usize, usize) },
    /// A line head that is neither a known mnemonic nor a label declaration.
    UnknownMnemonic { at: (usize, usize) },
    /// A name where a register was required.
    UnknownRegister { at: (usize, usize) },
}

/// The value of a decimal digit string, most significant first.
pub open spec fn dec_value(s: Seq<u8>) -> int
    decreases s.len(),
{
    if s.len() == 0 {
        0
    } else {
        dec_value(s.drop_last()) * 10 + (s.last() - 48)
    }
}

/// The value of one hexadecimal digit byte, either case.
pub open spec fn hex_digit_value(b: u8) -> int {
    if is_digit(b) {
        b - 48
    } else if 97 <= b <= 102 {
        b - 87
    } else {
        b - 55
    }
}

/// The value of a hexadecimal digit string, most significant first.
pub open spec fn hex_value(s: Seq<u8>) -> int
    decreases s.len(),
{
    if s.len() == 0 {
        0
    } else {
        hex_value(s.drop_last()) * 16 + hex_digit_value(s.last())
    }
}

/// Every byte a decimal digit.
pub open spec fn all_digits(s: Seq<u8>) -> bool {
    forall|k: int| 0 <= k < s.len() ==> is_digit(#[trigger] s[k])
}

/// Every byte a hexadecimal digit.
pub open spec fn all_hex_digits(s: Seq<u8>) -> bool {
    forall|k: int| 0 <= k < s.len() ==> is_hex_digit(#[trigger] s[k])
}

/// The numeric value of an integer literal's text, if it has one. A literal
/// opening with a zero, an `x` and a decimal digit is hexadecimal; anything
/// else must be all decimal digits.
pub open spec fn int_value(s: Seq<u8>) -> Option<int> {
    if s.len() >= 3 && s[0] == 48 && s[1] == 120 && is_digit(s[2]) {
        let rest = s.subrange(2, s.len() as int);
        if all_hex_digits(rest) {
            Some(hex_value(rest))
        } else {
            None
        }
    } else if s.len() > 0 && all_digits(s) {
        Some(dec_value(s))
    } else {
        None
    }
}

/// The register number a name denotes: `zero`/`z`, the thirteen
/// general-purpose letters `a` to `m` with their numeric aliases `$0` to
/// `$12`, the scratch register `at` and the stack pointer `sp`.
pub open spec fn reg_num(s: Seq<u8>) -> Option<u32> {
    if s.len() == 1 {
        if s[0] == 122 {
            Some(0)
        } else if 97 <= s[0] <= 109 {
            Some((s[0] - 96) as u32)
        } else {
            None
        }
    } else if s.len() == 2 {
        if s[0] == 97 && s[1] == 116 {
            Some(14)
        } else if s[0] == 115 && s[1] == 112 {
            Some(15)
        } else if s[0] == 36 && is_digit(s[1]) {
            Some((s[1] - 48 + 1) as u32)
        } else {
            None
        }
    } else if s.len() == 3 {
        if s[0] == 36 && s[1] == 49 && 48 <= s[2] <= 50 {
            Some((11 + s[2] - 48) as u32)
        } else {
            None
        }
    } else if s.len() == 4 {
        if s[0] == 122 && s[1] == 101 && s[2] == 114 && s[3] == 111 {
            Some(0)
        } else {
            None
        }
    } else {
        None
    }
}

/// A two-byte keyword.
pub open spec fn kw2(s: Seq<u8>, a: u8, b: u8) -> bool {
    s.len() == 2 && s[0] == a && s[1] == b
}

/// A three-byte keyword.
pub open spec fn kw3(s: Seq<u8>, a: u8, b: u8, c: u8) -> bool {
    s.len() == 3 && s[0] == a && s[1] == b && s[2] == c
}

/// A four-byte keyword.
pub open spec fn kw4(s: Seq<u8>, a: u8, b: u8, c: u8, d: u8) -> bool {
    s.len() == 4 && s[0] == a && s[1] == b && s[2] == c && s[3] == d
}

/// Expecting a token kind at `pos`.
pub open spec fn spec_expect(toks: Seq<Token>, pos: nat, ty: TokenType) -> Result<
    (),
    ParseError,
> {
    let t = tok_at(toks, pos);
    if t.0 != ty {
        Err(ParseError::ExpectedToken { expected: ty, found: t.0, at: t.1 })
    } else {
        Ok(())
    }
}

/// Consuming a token of kind `ty` at `pos`: the next position on success.
pub open spec fn spec_consume(toks: Seq<Token>, pos: nat, ty: TokenType) -> Result<
    nat,
    ParseError,
> {
    match spec_expect(toks, pos, ty) {
        Ok(u) => Ok(pos + 1),
        Err(e) => Err(e),
    }
}

/// Consuming an identifier at `pos`: its text and the next position.
pub open spec fn spec_consume_id(src: Seq<u8>, toks: Seq<Token>, pos: nat) -> Result<
    (Seq<u8>, nat),
    ParseError,
> {
    let t = tok_at(toks, pos);
    if t.0 != TokenType::Id {
        Err(ParseError::ExpectedId { found: t.0 })
    } else {
        Ok((span_bytes(src, t), pos + 1))
    }
}

/// Consuming an integer literal at `pos`: its value and the next position.
/// A literal without a value, or one beyond the 31-bit range, is an error.
pub open spec fn spec_consume_int(src: Seq<u8>, toks: Seq<Token>, pos: nat) -> Result<
    (int, nat),
    ParseError,
> {
    let t = tok_at(toks, pos);
    if t.0 != TokenType::Int {
        Err(ParseError::ExpectedInt { found: t.0 })
    } else {
        match int_value(span_bytes(src, t)) {
            Some(v) => if v <= 2147483647 {
                Ok((v, pos + 1))
            } else {
                Err(ParseError::BadIntLiteral { at: t.1 })
            },
            None => Err(ParseError::BadIntLiteral { at: t.1 }),
        }
    }
}

/// Consuming a register name at `pos`: its number and the next position.
pub open spec fn spec_parse_reg(src: Seq<u8>, toks: Seq<Token>, pos: nat) -> Result<
    (u32, nat),
    ParseError,
> {
    let t = tok_at(toks, pos);
    if t.0 != TokenType::Id {
        Err(ParseError::ExpectedId { found: t.0 })
    } else {
        match reg_num(span_bytes(src, t)) {
            Some(n) => Ok((n, pos + 1)),
            None => Err(ParseError::UnknownRegister { at: t.1 }),
        }
    }
}

/// Consuming a register, a comma and a second register.
pub open spec fn spec_parse_2reg(src: Seq<u8>, toks: Seq<Token>, pos: nat) -> Result<
    (u32, u32, nat),
    ParseError,
> {
    match spec_parse_reg(src, toks, pos) {
        Err(e) => Err(e),
        Ok((r1, p1)) => match spec_consume(toks, p1, TokenType::Comma) {
            Err(e) => Err(e),
            Ok(p2) => match spec_parse_reg(src, toks, p2) {
                Err(e) => Err(e),
                Ok((r2, p3)) => Ok((r1, r2, p3)),
            },
        },
    }
}

/// Parsing one line whose head token stands at `pos`: the statement it
/// declares and the position after it (past the line's closing newline,
/// unless the stream ends there). The head must be an identifier: a known
/// mnemonic with its operands, or any name immediately followed by a colon,
/// which declares a label.
pub open spec fn spec_parse_instruction(src: Seq<u8>, toks: Seq<Token>, pos: nat) -> Result<
    (ParsedInstV, nat),
    ParseError,
> {
    let t = tok_at(toks, pos);
    if t.0 != TokenType::Id {
        Err(ParseError::ExpectedId { found: t.0 })
    } else {
        let name = span_bytes(src, t);
        let p1 = pos + 1;
        let body: Result<(ParsedInstV, nat), ParseError> = if kw3(name, 110, 111, 112) {
            Ok((ParsedInstV::Nop, p1))
        } else if kw4(name, 101, 120, 105, 116) {
            Ok((ParsedInstV::Exit, p1))
        } else if kw3(name, 106, 109, 112) {
            match spec_consume_id(src, toks, p1) {
                Err(e) => Err(e),
                Ok((l, p2)) => Ok((ParsedInstV::Jump { label: l }, p2)),
            }
        } else if kw4(name, 116, 104, 101, 110) {
            Ok((ParsedInstV::Then, p1))
        } else if kw4(name, 101, 108, 115, 101) {
            Ok((ParsedInstV::Otherwise, p1))
        } else if kw3(name, 115, 101, 116) {
            match spec_parse_reg(src, toks, p1) {
                Err(e) => Err(e),
                Ok((r, p2)) => match spec_consume(toks, p2, TokenType::Comma) {
                    Err(e) => Err(e),
                    Ok(p3) => match spec_consume_int(src, toks, p3) {
                        Err(e) => Err(e),
                        Ok((v, p4)) => if v > 255 {
                            Ok((ParsedInstV::SetShort { dst: r, val: (v % 65536) as u16 }, p4))
                        } else {
                            Ok((ParsedInstV::SetByte { dst: r, val: v as u8 }, p4))
                        },
                    },
                },
            }
        } else if kw4(name, 112, 117, 115, 104) {
            match spec_parse_reg(src, toks, p1) {
                Err(e) => Err(e),
                Ok((r, p2)) => Ok((ParsedInstV::Push { src: r }, p2)),
            }
        } else if kw3(name, 112, 111, 112) {
            match spec_parse_reg(src, toks, p1) {
                Err(e) => Err(e),
                Ok((r, p2)) => Ok((ParsedInstV::Pop { dst: r }, p2)),
            }
        } else if kw3(name, 97, 100, 100) {
            match spec_parse_2reg(src, toks, p1) {
                Err(e) => Err(e),
                Ok((a, b, p2)) => Ok((ParsedInstV::Add { dst: a, src: b }, p2)),
            }
        } else if kw3(name, 115, 117, 98) {
            match spec_parse_2reg(src, toks, p1) {
                Err(e) => Err(e),
                Ok((a, b, p2)) => Ok((ParsedInstV::Sub { dst: a, src: b }, p2)),
            }
        } else if kw3(name, 109, 117, 108) {
            match spec_parse_2reg(src, toks, p1) {
                Err(e) => Err(e),
                Ok((a, b, p2)) => Ok((ParsedInstV::Mul { dst: a, src: b }, p2)),
            }
        } else if kw3(name, 100, 105, 118) {
            match spec_parse_2reg(src, toks, p1) {
                Err(e) => Err(e),
                Ok((a, b, p2)) => Ok((ParsedInstV::Div { dst: a, src: b }, p2)),
            }
        } else if kw3(name, 109, 111, 100) {
            match spec_parse_2reg(src, toks, p1) {
                Err(e) => Err(e),
                Ok((a, b, p2)) => Ok((ParsedInstV::Mod { dst: a, src: b }, p2)),
            }
        } else if kw3(name, 110, 101, 103) {
            match spec_parse_reg(src, toks, p1) {
                Err(e) => Err(e),
                Ok((r, p2)) => Ok((ParsedInstV::Neg { dst: r }, p2)),
            }
        } else if kw2(name, 103, 116) {
            match spec_parse_2reg(src, toks, p1) {
                Err(e) => Err(e),
                Ok((a, b, p2)) => Ok((ParsedInstV::GreaterThan { left: a, right: b }, p2)),
            }
        } else if kw2(name, 108, 116) {
            match spec_parse_2reg(src, toks, p1) {
                Err(e) => Err(e),
                Ok((a, b, p2)) => Ok((ParsedInstV::LessThan { left: a, right: b }, p2)),
            }
        } else if kw2(name, 103, 101) {
            match spec_parse_2reg(src, toks, p1) {
                Err(e) => Err(e),
                Ok((a, b, p2)) => Ok((ParsedInstV::GreaterEqual { left: a, right: b }, p2)),
            }
        } else if kw2(name, 108, 101) {
            match spec_parse_2reg(src, toks, p1) {
                Err(e) => Err(e),
                Ok((a, b, p2)) => Ok((ParsedInstV::LessEqual { left: a, right: b }, p2)),
            }
        } else if kw2(name, 101, 113) {
            match spec_parse_2reg(src, toks, p1) {
                Err(e) => Err(e),
                Ok((a, b, p2)) => Ok((ParsedInstV::Equal { left: a, right: b }, p2)),
            }
        } else if kw3(name, 110, 101, 113) {
            match spec_parse_2reg(src, toks, p1) {
                Err(e) => Err(e),
                Ok((a, b, p2)) => Ok((ParsedInstV::NotEqual { left: a, right: b }, p2)),
            }
        } else if kw3(name, 114, 101, 116) {
            Ok((ParsedInstV::Return, p1))
        } else if kw4(name, 99, 97, 108, 108) {
            match spec_consume_id(src, toks, p1) {
                Err(e) => Err(e),
                Ok((l, p2)) => Ok((ParsedInstV::Call { label: l }, p2)),
            }
        } else if kw3(name, 109, 111, 118) {
            match spec_parse_2reg(src, toks, p1) {
                Err(e) => Err(e),
                Ok((a, b, p2)) => Ok((ParsedInstV::Mov { dst: a, src: b }, p2)),
            }
        } else if kw3(name, 100, 98, 103) {
            match spec_parse_reg(src, toks, p1) {
                Err(e) => Err(e),
                Ok((r, p2)) => match spec_consume(toks, p2, TokenType::Comma) {
                    Err(e) => Err(e),
                    Ok(p3) => match spec_consume_int(src, toks, p3) {
                        Err(e) => Err(e),
                        Ok((v, p4)) => Ok((ParsedInstV::Debug { src: r, mode: v as u32 }, p4)),
                    },
                },
            }
        } else {
            if tok_at(toks, p1).0 == TokenType::Colon {
                Ok((ParsedInstV::Label { label: name }, p1 + 1))
            } else {
                Err(ParseError::UnknownMnemonic { at: t.1 })
            }
        };
        match body {
            Err(e) => Err(e),
            Ok((inst, p)) => if tok_at(toks, p).0 != TokenType::Eof {
                match spec_consume(toks, p, TokenType::NewLine) {
                    Err(e) => Err(e),
                    Ok(p2) => Ok((inst, p2)),
                }
            } else {
                Ok((inst, p))
            },
        }
    }
}

/// Parsing the statement list from `pos` to the end of the stream: a line
/// per statement, blank lines skipped, stopped by the end-of-input token.
/// The first syntax error aborts the whole parse.
pub open spec fn spec_parse(src: Seq<u8>, toks: Seq<Token>, pos: nat) -> Result<
    Seq<ParsedInstV>,
    ParseError,
>
    decreases toks.len() - pos,
    via spec_parse_decreases
{
    if pos >= toks.len() {
        Ok(Seq::empty())
    } else {
        let t = tok_at(toks, pos);
        match t.0 {
            TokenType::Id => match spec_parse_instruction(src, toks, pos) {
                Err(e) => Err(e),
                Ok((inst, p2)) => match spec_parse(src, toks, p2) {
                    Err(e) => Err(e),
                    Ok(rest) => Ok(seq![inst] + rest),
                },
            },
            TokenType::Int => Err(ParseError::UnexpectedToken { found: t.0, at: t.1 }),
            TokenType::Comma => Err(ParseError::UnexpectedToken { found: t.0, at: t.1 }),
            TokenType::NewLine => spec_parse(src, toks, pos + 1),
            TokenType::Colon => Err(ParseError::UnexpectedToken { found: t.0, at: t.1 }),
            TokenType::Eof => Ok(Seq::empty()),
        }
    }
}

#[via_fn]
proof fn spec_parse_decreases(src: Seq<u8>, toks: Seq<Token>, pos: nat) {
    if pos < toks.len() && tok_at(toks, pos).0 == TokenType::Id {
        lemma_parse_instruction_advances(src, toks, pos);
    }
}

/// A successfully parsed line always consumes at least its head token.
pub proof fn lemma_parse_instruction_advances(src: Seq<u8>, toks: Seq<Token>, pos: nat)
    ensures
        spec_parse_instruction(src, toks, pos) matches Ok((i, p)) ==> p > pos,
{
}

/// The parser: it borrows the source text and owns the token stream, and
/// turns them into the statement list that the compiler consumes. Parsing
/// is pure with respect to its input; the position only moves forward.
pub struct Parser<'a> {
    source: &'a [u8],
    tokens: Vec<Token>,
    pos: usize,
}

impl<'a> Parser<'a> {
    /// The source text being parsed.
    pub closed spec fn src(&self) -> Seq<u8> {
        self.source@
    }

    /// The token stream being parsed.
    pub closed spec fn toks(&self) -> Seq<Token> {
        self.tokens@
    }

    /// The current token position.
    pub closed spec fn position(&self) -> nat {
        self.pos as nat
    }

    /// A parser whose token stream is well formed for its source.
    pub open spec fn wf(&self) -> bool {
        wf_tokens(self.toks(), self.src())
    }

    /// A parser over `source` and its token stream, at the start.
    pub fn new(source: &[u8], tokens: Vec<Token>) -> (r: Parser)
        ensures
            r.src() == source@,
            r.toks() == tokens@,
            r.position() == 0,
    {
        Parser { source, tokens, pos: 0 }
    }

    /// The token at `pos`, the end-of-input token when `pos` runs past the
    /// stream.
    fn tk(&self, pos: usize) -> (r: Token)
        requires
            self.toks().len() > 0,
        ensures
            r == tok_at(self.toks(), pos as nat),
    {
        let p = if pos < self.tokens.len() {
            pos
        } else {
            self.tokens.len() - 1
        };
        self.tokens[p]
    }

    /// The source bytes a span covers, as an owned vector.
    fn span_text(&self, span: (usize, usize)) -> (r: Vec<u8>)
        requires
            span.0 <= span.1 <= self.src().len(),
        ensures
            r@ == self.src().subrange(span.0 as int, span.1 as int),
    {
        let mut v: Vec<u8> = Vec::new();
        let mut k = span.0;
        while k < span.1
            invariant
                span.0 <= k <= span.1 <= self.src().len(),
                self.src().len() == self.source@.len(),
                v@ == self.src().subrange(span.0 as int, k as int),
            decreases span.1 - k,
        {
            v.push(self.source[k]);
            k = k + 1;
            proof {
                assert(v@ =~= self.src().subrange(span.0 as int, k as int));
            }
        }
        proof {
            assert(v@ =~= self.src().subrange(span.0 as int, span.1 as int));
        }
        v
    }

    /// Checks that the current token has kind `ty`, without consuming it.
    fn expect(&self, ty: TokenType) -> (r: Result<(), ParseError>)
        requires
            self.toks().len() > 0,
        ensures
            r == spec_expect(self.toks(), self.position(), ty),
    {
        let t = self.tk(self.pos);
        if t.0 != ty {
            Err(ParseError::ExpectedToken { expected: ty, found: t.0, at: t.1 })
        } else {
            Ok(())
        }
    }

    /// Consumes one token of kind `ty`.
    fn consume(&mut self, ty: TokenType) -> (r: Result<(), ParseError>)
        requires
            old(self).wf(),
            ty != TokenType::Eof,
        ensures
            final(self).src() == old(self).src(),
            final(self).toks() == old(self).toks(),
            final(self).wf(),
            (match spec_consume(old(self).toks(), old(self).position(), ty) {
                Ok(p) => r == Ok::<(), ParseError>(()) && final(self).position() == p,
                Err(e) => r == Err::<(), ParseError>(e) && final(self).position() == old(self).position(),
            }),
    {
        let r = self.expect(ty);
        match r {
            Ok(u) => {
                proof {
                    if self.pos >= self.tokens.len() {
                        assert(tok_at(self.toks(), self.position()).0 == TokenType::Eof);
                    }
                }
                self.pos = self.pos + 1;
                Ok(())
            },
            Err(e) => Err(e),
        }
    }

    /// The current token's text, when it is an identifier; does not consume.
    fn expect_id(&self) -> (r: Result<Vec<u8>, ParseError>)
        requires
            self.wf(),
        ensures
            (match spec_consume_id(self.src(), self.toks(), self.position()) {
                Ok((s, p)) => r matches Ok(v) && v@ == s,
                Err(e) => r == Err::<Vec<u8>, ParseError>(e),
            }),
    {
        let t = self.tk(self.pos);
        if t.0 != TokenType::Id {
            Err(ParseError::ExpectedId { found: t.0 })
        } else {
            Ok(self.span_text(t.1))
        }
    }

    /// Consumes an identifier and returns its text.
    fn consume_id(&mut self) -> (r: Result<Vec<u8>, ParseError>)
        requires
            old(self).wf(),
        ensures
            final(self).src() == old(self).src(),
            final(self).toks() == old(self).toks(),
            final(self).wf(),
            (match spec_consume_id(old(self).src(), old(self).toks(), old(self).position()) {
                Ok((s, p)) => r matches Ok(v) && v@ == s && final(self).position() == p,
                Err(e) => r == Err::<Vec<u8>, ParseError>(e) && final(self).position() == old(self).position(),
            }),
    {
        let r = self.expect_id();
        match r {
            Ok(v) => {
                proof {
                    if self.pos >= self.tokens.len() {
                        assert(tok_at(self.toks(), self.position()).0 == TokenType::Eof);
                    }
                }
                self.pos = self.pos + 1;
                Ok(v)
            },
            Err(e) => Err(e),
        }
    }

    /// The current token's numeric value, when it is an integer literal in
    /// range; does not consume.
    fn expect_int(&self) -> (r: Result<i32, ParseError>)
        requires
            self.wf(),
        ensures
            (match spec_consume_int(self.src(), self.toks(), self.position()) {
                Ok((v, p)) => r matches Ok(x) && x == v && 0 <= v,
                Err(e) => r == Err::<i32, ParseError>(e),
            }),
    {
        let t = self.tk(self.pos);
        if t.0 != TokenType::Int {
            return Err(ParseError::ExpectedInt { found: t.0 });
        }
        let bytes = self.span_text(t.1);
        let parsed = parse_int_bytes(&bytes);
        match parsed {
            Some(x) => Ok(x),
            None => Err(ParseError::BadIntLiteral { at: t.1 }),
        }
    }

    /// Consumes an integer literal and returns its value.
    fn consume_int(&mut self) -> (r: Result<i32, ParseError>)
        requires
            old(self).wf(),
        ensures
            final(self).src() == old(self).src(),
            final(self).toks() == old(self).toks(),
            final(self).wf(),
            (match spec_consume_int(old(self).src(), old(self).toks(), old(self).position()) {
                Ok((v, p)) => r matches Ok(x) && x == v && 0 <= v && final(self).position() == p,
                Err(e) => r == Err::<i32, ParseError>(e) && final(self).position() == old(self).position(),
            }),
    {
        let r = self.expect_int();
        match r {
            Ok(v) => {
                proof {
                    if self.pos >= self.tokens.len() {
                        assert(tok_at(self.toks(), self.position()).0 == TokenType::Eof);
                    }
                }
                self.pos = self.pos + 1;
                Ok(v)
            },
            Err(e) => Err(e),
        }
    }

    /// Consumes a register name and returns its number.
    fn parse_reg(&mut self) -> (r: Result<u32, ParseError>)
        requires
            old(self).wf(),
        ensures
            final(self).src() == old(self).src(),
            final(self).toks() == old(self).toks(),
            final(self).wf(),
            (match spec_parse_reg(old(self).src(), old(self).toks(), old(self).position()) {
                Ok((n, p)) => r == Ok::<u32, ParseError>(n) && final(self).position() == p,
                Err(e) => r == Err::<u32, ParseError>(e),
            }),
    {
        let t = self.tk(self.pos);
        let name = match self.consume_id() {
            Ok(v) => v,
            Err(e) => {
                return Err(e);
            },
        };
        let n = name.len();
        if n == 1 {
            let c = name[0];
            if c == 122 {
                Ok(0)
            } else if 97 <= c && c <= 109 {
                Ok((c - 96) as u32)
            } else {
                Err(ParseError::UnknownRegister { at: t.1 })
            }
        } else if n == 2 {
            let c0 = name[0];
            let c1 = name[1];
            if c0 == 97 && c1 == 116 {
                Ok(14)
            } else if c0 == 115 && c1 == 112 {
                Ok(15)
            } else if c0 == 36 && 48 <= c1 && c1 <= 57 {
                Ok((c1 - 48 + 1) as u32)
            } else {
                Err(ParseError::UnknownRegister { at: t.1 })
            }
        } else if n == 3 {
            let c0 = name[0];
            let c1 = name[1];
            let c2 = name[2];
            if c0 == 36 && c1 == 49 && 48 <= c2 && c2 <= 50 {
                Ok((11 + c2 - 48) as u32)
            } else {
                Err(ParseError::UnknownRegister { at: t.1 })
            }
        } else if n == 4 {
            if name[0] == 122 && name[1] == 101 && name[2] == 114 && name[3] == 111 {
                Ok(0)
            } else {
                Err(ParseError::UnknownRegister { at: t.1 })
            }
        } else {
            Err(ParseError::UnknownRegister { at: t.1 })
        }
    }

    /// Consumes a register, a comma and a second register.
    fn parse_2reg(&mut self) -> (r: Result<(u32, u32), ParseError>)
        requires
            old(self).wf(),
        ensures
            final(self).src() == old(self).src(),
            final(self).toks() == old(self).toks(),
            final(self).wf(),
            (match spec_parse_2reg(old(self).src(), old(self).toks(), old(self).position()) {
                Ok((a, b, p)) => r == Ok::<(u32, u32), ParseError>((a, b)) && final(self).position() == p,
                Err(e) => r == Err::<(u32, u32), ParseError>(e),
            }),
    {
        let arg1 = match self.parse_reg() {
            Ok(v) => v,
            Err(e) => {
                return Err(e);
            },
        };
        match self.consume(TokenType::Comma) {
            Ok(u) => {},
            Err(e) => {
                return Err(e);
            },
        }
        let arg2 = match self.parse_reg() {
            Ok(v) => v,
            Err(e) => {
                return Err(e);
            },
        };
        Ok((arg1, arg2))
    }
}

/// The numeric value of an integer literal's bytes, when it has one within
/// the 31-bit range.
fn parse_int_bytes(s: &Vec<u8>) -> (r: Option<i32>)
    ensures
        (match int_value(s@) {
            Some(v) => if v <= 2147483647 {
                r matches Some(x) && x == v && x >= 0
            } else {
                r is None
            },
            None => r is None,
        }),
{
    let n = s.len();
    if n >= 3 && s[0] == 48 && s[1] == 120 && is_digit_byte(s[2]) {
        parse_hex_tail(s)
    } else {
        parse_dec_bytes(s)
    }
}

/// Parses a run of decimal digits as a 31-bit value.
fn parse_dec_bytes(s: &Vec<u8>) -> (r: Option<i32>)
    ensures
        (match r {
            Some(x) => s@.len() > 0 && all_digits(s@) && x == dec_value(s@) && dec_value(s@)
                <= 2147483647 && x >= 0,
            None => !(s@.len() > 0 && all_digits(s@) && dec_value(s@) <= 2147483647),
        }),
{
    let n = s.len();
    if n == 0 {
        return None;
    }
    let mut acc: u64 = 0;
    let mut too_big = false;
    let mut k: usize = 0;
    while k < n
        invariant
            k <= n,
            n == s@.len(),
            forall|j: int| 0 <= j < k ==> is_digit(#[trigger] s@[j]),
            !too_big ==> acc == dec_value(s@.take(k as int)) && acc <= 2147483647,
            too_big ==> dec_value(s@.take(k as int)) > 2147483647,
        decreases n - k,
    {
        let b = s[k];
        if !(48 <= b && b <= 57) {
            return None;
        }
        proof {
            assert(s@.take(k as int + 1).drop_last() =~= s@.take(k as int));
            assert(s@.take(k as int + 1).last() == s@[k as int]);
        }
        if !too_big {
            acc = acc * 10 + (b - 48) as u64;
            if acc > 2147483647 {
                too_big = true;
            }
        }
        k = k + 1;
    }
    proof {
        assert(s@.take(n as int) =~= s@);
    }
    if too_big {
        None
    } else {
        Some(acc as i32)
    }
}

/// Parses the hexadecimal digits after a `0x` opening as a 31-bit value.
fn parse_hex_tail(s: &Vec<u8>) -> (r: Option<i32>)
    requires
        s@.len() >= 3,
        s@[0] == 48,
        s@[1] == 120,
        is_digit(s@[2]),
    ensures
        ({
            let rest = s@.subrange(2, s@.len() as int);
            match r {
                Some(x) => all_hex_digits(rest) && x == hex_value(rest) && hex_value(rest)
                    <= 2147483647 && x >= 0,
                None => !(all_hex_digits(rest) && hex_value(rest) <= 2147483647),
            }
        }),
{
    let ghost rest = s@.subrange(2, s@.len() as int);
    let n = s.len();
    let mut acc: u64 = 0;
    let mut too_big = false;
    let mut k: usize = 2;
    while k < n
        invariant
            2 <= k <= n,
            n == s@.len(),
            rest == s@.subrange(2, s@.len() as int),
            forall|j: int| 0 <= j < k - 2 ==> is_hex_digit(#[trigger] rest[j]),
            !too_big ==> acc == hex_value(rest.take(k - 2)) && acc <= 2147483647,
            too_big ==> hex_value(rest.take(k - 2)) > 2147483647,
        decreases n - k,
    {
        let b = s[k];
        if !((48 <= b && b <= 57) || (97 <= b && b <= 102) || (65 <= b && b <= 70)) {
            proof {
                assert(rest[k - 2] == s@[k as int]);
                assert(!all_hex_digits(rest));
            }
            return None;
        }
        proof {
            assert(rest[k - 2] == s@[k as int]);
            assert(rest.take(k - 2 + 1).drop_last() =~= rest.take(k - 2));
            assert(rest.take(k - 2 + 1).last() == rest[k - 2]);
        }
        let d: u64 = if 48 <= b && b <= 57 {
            (b - 48) as u64
        } else if 97 <= b && b <= 102 {
            (b - 87) as u64
        } else {
            (b - 55) as u64
        };
        if !too_big {
            acc = acc * 16 + d;
            if acc > 2147483647 {
                too_big = true;
            }
        }
        k = k + 1;
    }
    proof {
        assert(rest.take(n - 2) =~= rest);
    }
    if too_big {
        None
    } else {
        Some(acc as i32)
    }
}

/// Appends one statement, with its value related to the vector's.
fn push_inst(inst: &mut Vec<ParsedInst>, x: ParsedInst)
    ensures
        insts_view(final(inst)@) == insts_view(old(inst)@).push(x@),
{
    let ghost xv = x@;
    inst.push(x);
    proof {
        assert(insts_view(inst@) =~= insts_view(old(inst)@).push(xv));
    }
}

/// A two-byte name.
fn name_is2(name: &Vec<u8>, a: u8, b: u8) -> (r: bool)
    ensures
        r == kw2(name@, a, b),
{
    name.len() == 2 && name[0] == a && name[1] == b
}

/// A three-byte name.
fn name_is3(name: &Vec<u8>, a: u8, b: u8, c: u8) -> (r: bool)
    ensures
        r == kw3(name@, a, b, c),
{
    name.len() == 3 && name[0] == a && name[1] == b && name[2] == c
}

/// A four-byte name.
fn name_is4(name: &Vec<u8>, a: u8, b: u8, c: u8, d: u8) -> (r: bool)
    ensures
        r == kw4(name@, a, b, c, d),
{
    name.len() == 4 && name[0] == a && name[1] == b && name[2] == c && name[3] == d
}

impl<'a> Parser<'a> {
    /// Parses the whole statement list: one statement per line, blank lines
    /// skipped, stopped at end of input. The first syntax error aborts the
    /// parse and is returned; parsing has no effect beyond building the
    /// result.
    pub fn parse(&mut self) -> (r: Result<Vec<ParsedInst>, ParseError>)
        requires
            old(self).wf(),
            old(self).position() <= old(self).toks().len(),
        ensures
            final(self).src() == old(self).src(),
            final(self).toks() == old(self).toks(),
            (match spec_parse(old(self).src(), old(self).toks(), old(self).position()) {
                Ok(s) => r matches Ok(v) && insts_view(v@) == s,
                Err(e) => r matches Err(e2) && e2 == e,
            }),
    {
        let mut inst: Vec<ParsedInst> = Vec::new();
        let ghost src0 = self.src();
        let ghost toks0 = self.toks();
        let ghost pos0 = self.position();
        loop
            invariant_except_break
                self.wf(),
                self.src() == src0,
                self.toks() == toks0,
                src0 == old(self).src(),
                toks0 == old(self).toks(),
                pos0 == old(self).position(),
                self.position() <= toks0.len(),
                (match spec_parse(src0, toks0, pos0) {
                    Ok(s) => spec_parse(src0, toks0, self.position()) matches Ok(rest) && s
                        == insts_view(inst@) + rest,
                    Err(e) => spec_parse(src0, toks0, self.position()) == Err::<
                        Seq<ParsedInstV>,
                        ParseError,
                    >(e),
                }),
            ensures
                self.src() == src0,
                self.toks() == toks0,
                spec_parse(src0, toks0, pos0) == Ok::<Seq<ParsedInstV>, ParseError>(
                    insts_view(inst@),
                ),
            decreases toks0.len() - self.position(),
        {
            let t = self.tk(self.pos);
            match t.0 {
                TokenType::Id => {
                    let ghost pre = self.position();
                    let step = self.parse_instruction(&mut inst);
                    match step {
                        Ok(u) => {
                            proof {
                                assert(pre < toks0.len());
                                match spec_parse_instruction(src0, toks0, pre) {
                                    Ok((v, p2)) => {
                                        match spec_parse(src0, toks0, p2) {
                                            Ok(rest2) => {
                                                assert(spec_parse(src0, toks0, pre) == Ok::<
                                                    Seq<ParsedInstV>,
                                                    ParseError,
                                                >(seq![v] + rest2));
                                                match spec_parse(src0, toks0, pos0) {
                                                    Ok(s) => {
                                                        assert(s =~= insts_view(inst@) + rest2);
                                                    },
                                                    Err(e) => {},
                                                }
                                            },
                                            Err(e2) => {},
                                        }
                                    },
                                    Err(e) => {},
                                }
                            }
                        },
                        Err(e) => {
                            proof {
                                assert(pre < toks0.len());
                                assert(spec_parse(src0, toks0, pre) == Err::<
                                    Seq<ParsedInstV>,
                                    ParseError,
                                >(e));
                            }
                            return Err(e);
                        },
                    }
                },
                TokenType::Int => {
                    proof {
                        assert(self.position() < toks0.len());
                    }
                    return Err(ParseError::UnexpectedToken { found: t.0, at: t.1 });
                },
                TokenType::Comma => {
                    proof {
                        assert(self.position() < toks0.len());
                    }
                    return Err(ParseError::UnexpectedToken { found: t.0, at: t.1 });
                },
                TokenType::NewLine => {
                    let n = self.tokens.len();
                    proof {
                        assert(self.position() < toks0.len());
                    }
                    self.pos = self.pos + 1;
                },
                TokenType::Colon => {
                    proof {
                        assert(self.position() < toks0.len());
                    }
                    return Err(ParseError::UnexpectedToken { found: t.0, at: t.1 });
                },
                TokenType::Eof => {
                    proof {
                        match spec_parse(src0, toks0, pos0) {
                            Ok(s) => {
                                assert(spec_parse(src0, toks0, self.position()) == Ok::<
                                    Seq<ParsedInstV>,
                                    ParseError,
                                >(Seq::empty()));
                                assert(s =~= insts_view(inst@));
                            },
                            Err(e) => {
                                assert(false);
                            },
                        }
                    }
                    break ;
                },
            }
        }
        Ok(inst)
    }

    /// Parses one line — a known mnemonic with its operands, or a label
    /// declaration — and appends the statement to `inst`, consuming the
    /// line's closing newline unless the stream ends there.
    #[verifier::rlimit(100)]
    fn parse_instruction(&mut self, inst: &mut Vec<ParsedInst>) -> (r: Result<(), ParseError>)
        requires
            old(self).wf(),
        ensures
            final(self).src() == old(self).src(),
            final(self).toks() == old(self).toks(),
            final(self).wf(),
            (match spec_parse_instruction(
                old(self).src(),
                old(self).toks(),
                old(self).position(),
            ) {
                Ok((v, p)) => r == Ok::<(), ParseError>(()) && final(self).position() == p && p
                    > old(self).position() && final(self).position() <= old(self).toks().len()
                    && insts_view(final(inst)@) == insts_view(old(inst)@).push(v),
                Err(e) => r == Err::<(), ParseError>(e),
            }),
    {
        let t = self.tk(self.pos);
        let name = match self.consume_id() {
            Ok(v) => v,
            Err(e) => {
                return Err(e);
            },
        };
        if name_is3(&name, 110, 111, 112) {
            push_inst(inst, ParsedInst::Nop);
        } else if name_is4(&name, 101, 120, 105, 116) {
            push_inst(inst, ParsedInst::Exit);
        } else if name_is3(&name, 106, 109, 112) {
            let arg1 = match self.consume_id() {
                Ok(v) => v,
                Err(e) => {
                    return Err(e);
                },
            };
            push_inst(inst, ParsedInst::Jump { label: arg1 });
        } else if name_is4(&name, 116, 104, 101, 110) {
            push_inst(inst, ParsedInst::Then);
        } else if name_is4(&name, 101, 108, 115, 101) {
            push_inst(inst, ParsedInst::Otherwise);
        } else if name_is3(&name, 115, 101, 116) {
            let arg1 = match self.parse_reg() {
                Ok(v) => v,
                Err(e) => {
                    return Err(e);
                },
            };
            match self.consume(TokenType::Comma) {
                Ok(u) => {},
                Err(e) => {
                    return Err(e);
                },
            }
            let raw = match self.consume_int() {
                Ok(v) => v,
                Err(e) => {
                    return Err(e);
                },
            };
            let arg2 = raw as u32;
            if arg2 > 255 {
                push_inst(inst, ParsedInst::SetShort { dst: arg1, val: (arg2 % 65536) as u16 });
            } else {
                push_inst(inst, ParsedInst::SetByte { dst: arg1, val: arg2 as u8 });
            }
        } else if name_is4(&name, 112, 117, 115, 104) {
            let arg1 = match self.parse_reg() {
                Ok(v) => v,
                Err(e) => {
                    return Err(e);
                },
            };
            push_inst(inst, ParsedInst::Push { src: arg1 });
        } else if name_is3(&name, 112, 111, 112) {
            let arg1 = match self.parse_reg() {
                Ok(v) => v,
                Err(e) => {
                    return Err(e);
                },
            };
            push_inst(inst, ParsedInst::Pop { dst: arg1 });
        } else if name_is3(&name, 97, 100, 100) {
            let (arg1, arg2) = match self.parse_2reg() {
                Ok(v) => v,
                Err(e) => {
                    return Err(e);
                },
            };
            push_inst(inst, ParsedInst::Add { dst: arg1, src: arg2 });
        } else if name_is3(&name, 115, 117, 98) {
            let (arg1, arg2) = match self.parse_2reg() {
                Ok(v) => v,
                Err(e) => {
                    return Err(e);
                },
            };
            push_inst(inst, ParsedInst::Sub { dst: arg1, src: arg2 });
        } else if name_is3(&name, 109, 117, 108) {
            let (arg1, arg2) = match self.parse_2reg() {
                Ok(v) => v,
                Err(e) => {
                    return Err(e);
                },
            };
            push_inst(inst, ParsedInst::Mul { dst: arg1, src: arg2 });
        } else if name_is3(&name, 100, 105, 118) {
            let (arg1, arg2) = match self.parse_2reg() {
                Ok(v) => v,
                Err(e) => {
                    return Err(e);
                },
            };
            push_inst(inst, ParsedInst::Div { dst: arg1, src: arg2 });
        } else if name_is3(&name, 109, 111, 100) {
            let (arg1, arg2) = match self.parse_2reg() {
                Ok(v) => v,
                Err(e) => {
                    return Err(e);
                },
            };
            push_inst(inst, ParsedInst::Mod { dst: arg1, src: arg2 });
        } else if name_is3(&name, 110, 101, 103) {
            let arg1 = match self.parse_reg() {
                Ok(v) => v,
                Err(e) => {
                    return Err(e);
                },
            };
            push_inst(inst, ParsedInst::Neg { dst: arg1 });
        } else if name_is2(&name, 103, 116) {
            let (arg1, arg2) = match self.parse_2reg() {
                Ok(v) => v,
                Err(e) => {
                    return Err(e);
                },
            };
            push_inst(inst, ParsedInst::GreaterThan { left: arg1, right: arg2 });
        } else if name_is2(&name, 108, 116) {
            let (arg1, arg2) = match self.parse_2reg() {
                Ok(v) => v,
                Err(e) => {
                    return Err(e);
                },
            };
            push_inst(inst, ParsedInst::LessThan { left: arg1, right: arg2 });
        } else if name_is2(&name, 103, 101) {
            let (arg1, arg2) = match self.parse_2reg() {
                Ok(v) => v,
                Err(e) => {
                    return Err(e);
                },
            };
            push_inst(inst, ParsedInst::GreaterEqual { left: arg1, right: arg2 });
        } else if name_is2(&name, 108, 101) {
            let (arg1, arg2) = match self.parse_2reg() {
                Ok(v) => v,
                Err(e) => {
                    return Err(e);
                },
            };
            push_inst(inst, ParsedInst::LessEqual { left: arg1, right: arg2 });
        } else if name_is2(&name, 101, 113) {
            let (arg1, arg2) = match self.parse_2reg() {
                Ok(v) => v,
                Err(e) => {
                    return Err(e);
                },
            };
            push_inst(inst, ParsedInst::Equal { left: arg1, right: arg2 });
        } else if name_is3(&name, 110, 101, 113) {
            let (arg1, arg2) = match self.parse_2reg() {
                Ok(v) => v,
                Err(e) => {
                    return Err(e);
                },
            };
            push_inst(inst, ParsedInst::NotEqual { left: arg1, right: arg2 });
        } else if name_is3(&name, 114, 101, 116) {
            push_inst(inst, ParsedInst::Return);
        } else if name_is4(&name, 99, 97, 108, 108) {
            let label = match self.consume_id() {
                Ok(v) => v,
                Err(e) => {
                    return Err(e);
                },
            };
            push_inst(inst, ParsedInst::Call { label });
        } else if name_is3(&name, 109, 111, 118) {
            let (arg1, arg2) = match self.parse_2reg() {
                Ok(v) => v,
                Err(e) => {
                    return Err(e);
                },
            };
            push_inst(inst, ParsedInst::Mov { dst: arg1, src: arg2 });
        } else if name_is3(&name, 100, 98, 103) {
            let arg1 = match self.parse_reg() {
                Ok(v) => v,
                Err(e) => {
                    return Err(e);
                },
            };
            match self.consume(TokenType::Comma) {
                Ok(u) => {},
                Err(e) => {
                    return Err(e);
                },
            }
            let raw = match self.consume_int() {
                Ok(v) => v,
                Err(e) => {
                    return Err(e);
                },
            };
            push_inst(inst, ParsedInst::Debug { src: arg1, mode: raw as u32 });
        } else {
            let colon_ahead = self.expect(TokenType::Colon);
            if colon_ahead.is_ok() {
                match self.consume(TokenType::Colon) {
                    Ok(u) => {},
                    Err(e) => {
                        return Err(e);
                    },
                }
                push_inst(inst, ParsedInst::Label { label: name });
            } else {
                return Err(ParseError::UnknownMnemonic { at: t.1 });
            }
        }
        if self.tk(self.pos).0 != TokenType::Eof {
            match self.consume(TokenType::NewLine) {
                Ok(u) => {},
                Err(e) => {
                    return Err(e);
                },
            }
        }
        Ok(())
    }
}

/// One buffered item of the first compilation pass: either final bytes
/// (an opcode with zero to three operand bytes) or a placeholder standing
/// for a jump or call whose target label is not resolved yet.
#[derive(Clone, Debug)]
pub enum PrecompiledInst {
    JumpPlaceHolder(Vec<u8>, usize),
    CallPlaceHolder(Vec<u8>),
    Compiled1(Inst),
    Compiled2(Inst, u8),
    Compiled3(Inst, u8, u8),
    Compiled4(Inst, u8, u8, u8),
}

/// The mathematical value of a buffered item.
pub enum PreInstV {
    JumpPlaceHolder(Seq<u8>, nat),
    CallPlaceHolder(Seq<u8>),
    Compiled1(Inst),
    Compiled2(Inst, u8),
    Compiled3(Inst, u8, u8),
    Compiled4(Inst, u8, u8, u8),
}

impl View for PrecompiledInst {
    type V = PreInstV;

    open spec fn view(&self) -> PreInstV {
        match self {
            PrecompiledInst::JumpPlaceHolder(l, p) => PreInstV::JumpPlaceHolder(l@, *p as nat),
            PrecompiledInst::CallPlaceHolder(l) => PreInstV::CallPlaceHolder(l@),
            PrecompiledInst::Compiled1(i) => PreInstV::Compiled1(*i),
            PrecompiledInst::Compiled2(i, a) => PreInstV::Compiled2(*i, *a),
            PrecompiledInst::Compiled3(i, a, b) => PreInstV::Compiled3(*i, *a, *b),
            PrecompiledInst::Compiled4(i, a, b, c) => PreInstV::Compiled4(*i, *a, *b, *c),
        }
    }
}

/// The values of a whole buffer.
pub open spec fn buf_view(b: Seq<PrecompiledInst>) -> Seq<PreInstV> {
    b.map_values(|x: PrecompiledInst| x@)
}

/// The values of a symbol table.
pub open spec fn table_view(t: Seq<(Vec<u8>, usize)>) -> Seq<(Seq<u8>, nat)> {
    t.map_values(|p: (Vec<u8>, usize)| (p.0@, p.1 as nat))
}

/// An assembly error: a jump or call whose target label was never
/// declared. The whole assembly aborts; no partial image is produced.
#[derive(Clone, Debug, PartialEq, Eq)]
pub enum CompileError {
    UndefinedJumpLabel { label: Vec<u8> },
    UndefinedCallLabel { label: Vec<u8> },
}

/// The mathematical value of an assembly error.
pub enum CompileErrorV {
    UndefinedJumpLabel { label: Seq<u8> },
    UndefinedCallLabel { label: Seq<u8> },
}

impl View for CompileError {
    type V = CompileErrorV;

    open spec fn view(&self) -> CompileErrorV {
        match self {
            CompileError::UndefinedJumpLabel { label } => CompileErrorV::UndefinedJumpLabel {
                label: label@,
            },
            CompileError::UndefinedCallLabel { label } => CompileErrorV::UndefinedCallLabel {
                label: label@,
            },
        }
    }
}

/// Whether a statement declares the given label name.
pub open spec fn declares(i: ParsedInstV, name: Seq<u8>) -> bool {
    i matches ParsedInstV::Label { label } && label == name
}

/// The offset a label name resolves to: its most recent declaration wins,
/// so a redefinition silently overwrites the earlier one.
pub open spec fn table_lookup(t: Seq<(Seq<u8>, nat)>, name: Seq<u8>) -> Option<nat>
    decreases t.len(),
{
    if t.len() == 0 {
        None
    } else if t.last().0 == name {
        Some(t.last().1)
    } else {
        table_lookup(t.drop_last(), name)
    }
}

/// The encoded byte length of one statement; label declarations emit no
/// bytes.
pub open spec fn enc_len(i: ParsedInstV) -> nat {
    match i {
        ParsedInstV::Label { .. } => 0,
        ParsedInstV::Nop => 1,
        ParsedInstV::Exit => 1,
        ParsedInstV::Jump { .. } => 2,
        ParsedInstV::Then => 1,
        ParsedInstV::Otherwise => 1,
        ParsedInstV::SetByte { .. } => 3,
        ParsedInstV::SetShort { .. } => 4,
        ParsedInstV::Push { .. } => 2,
        ParsedInstV::Pop { .. } => 2,
        ParsedInstV::Add { .. } => 3,
        ParsedInstV::Sub { .. } => 3,
        ParsedInstV::Mul { .. } => 3,
        ParsedInstV::Div { .. } => 3,
        ParsedInstV::Mod { .. } => 3,
        ParsedInstV::Neg { .. } => 2,
        ParsedInstV::GreaterThan { .. } => 3,
        ParsedInstV::LessThan { .. } => 3,
        ParsedInstV::GreaterEqual { .. } => 3,
        ParsedInstV::LessEqual { .. } => 3,
        ParsedInstV::Equal { .. } => 3,
        ParsedInstV::NotEqual { .. } => 3,
        ParsedInstV::Return => 1,
        ParsedInstV::Call { .. } => 3,
        ParsedInstV::Mov { .. } => 3,
        ParsedInstV::Debug { .. } => 3,
    }
}

/// The buffered item one statement contributes, given the running offset
/// `pos` at which it stands; meaningless for label declarations, which
/// contribute none.
pub open spec fn pre_item(i: ParsedInstV, pos: nat) -> PreInstV
    recommends
        !(i is Label),
{
    match i {
        ParsedInstV::Label { .. } => PreInstV::Compiled1(Inst::Nop),
        ParsedInstV::Nop => PreInstV::Compiled1(Inst::Nop),
        ParsedInstV::Exit => PreInstV::Compiled1(Inst::Exit),
        ParsedInstV::Jump { label } => PreInstV::JumpPlaceHolder(label, pos),
        ParsedInstV::Then => PreInstV::Compiled1(Inst::Then),
        ParsedInstV::Otherwise => PreInstV::Compiled1(Inst::Otherwise),
        ParsedInstV::SetByte { dst, val } => PreInstV::Compiled3(
            Inst::SetByte,
            (dst % 256) as u8,
            val,
        ),
        ParsedInstV::SetShort { dst, val } => PreInstV::Compiled4(
            Inst::SetShort,
            (dst % 256) as u8,
            (val / 256) as u8,
            (val % 256) as u8,
        ),
        ParsedInstV::Push { src } => PreInstV::Compiled2(Inst::Push, (src % 256) as u8),
        ParsedInstV::Pop { dst } => PreInstV::Compiled2(Inst::Pop, (dst % 256) as u8),
        ParsedInstV::Add { dst, src } => PreInstV::Compiled3(
            Inst::Add,
            (dst % 256) as u8,
            (src % 256) as u8,
        ),
        ParsedInstV::Sub { dst, src } => PreInstV::Compiled3(
            Inst::Sub,
            (dst % 256) as u8,
            (src % 256) as u8,
        ),
        ParsedInstV::Mul { dst, src } => PreInstV::Compiled3(
            Inst::Mul,
            (dst % 256) as u8,
            (src % 256) as u8,
        ),
        ParsedInstV::Div { dst, src } => PreInstV::Compiled3(
            Inst::Div,
            (dst % 256) as u8,
            (src % 256) as u8,
        ),
        ParsedInstV::Mod { dst, src } => PreInstV::Compiled3(
            Inst::Mod,
            (dst % 256) as u8,
            (src % 256) as u8,
        ),
        ParsedInstV::Neg { dst } => PreInstV::Compiled2(Inst::Neg, (dst % 256) as u8),
        ParsedInstV::GreaterThan { left, right } => PreInstV::Compiled3(
            Inst::GreaterThan,
            (left % 256) as u8,
            (right % 256) as u8,
        ),
        ParsedInstV::LessThan { left, right } => PreInstV::Compiled3(
            Inst::LessThan,
            (left % 256) as u8,
            (right % 256) as u8,
        ),
        ParsedInstV::GreaterEqual { left, right } => PreInstV::Compiled3(
            Inst::GreaterEqual,
            (left % 256) as u8,
            (right % 256) as u8,
        ),
        ParsedInstV::LessEqual { left, right } => PreInstV::Compiled3(
            Inst::LessEqual,
            (left % 256) as u8,
            (right % 256) as u8,
        ),
        ParsedInstV::Equal { left, right } => PreInstV::Compiled3(
            Inst::Equal,
            (left % 256) as u8,
            (right % 256) as u8,
        ),
        ParsedInstV::NotEqual { left, right } => PreInstV::Compiled3(
            Inst::NotEqual,
            (left % 256) as u8,
            (right % 256) as u8,
        ),
        ParsedInstV::Return => PreInstV::Compiled1(Inst::Return),
        ParsedInstV::Call { label } => PreInstV::CallPlaceHolder(label),
        ParsedInstV::Mov { dst, src } => PreInstV::Compiled3(
            Inst::Mov,
            (dst % 256) as u8,
            (src % 256) as u8,
        ),
        ParsedInstV::Debug { src, mode } => PreInstV::Compiled3(
            Inst::Debug,
            (src % 256) as u8,
            (mode % 256) as u8,
        ),
    }
}

/// The first pass after the first `k` statements: the symbol table built so
/// far, the buffered items, and the running byte offset. A label
/// declaration records the current offset under its name and emits nothing;
/// every other statement appends one buffered item and advances the offset
/// by its encoded length.
pub open spec fn precomp(insts: Seq<ParsedInstV>, k: int) -> (
    Seq<(Seq<u8>, nat)>,
    Seq<PreInstV>,
    nat,
)
    decreases k,
{
    if k <= 0 {
        (Seq::empty(), Seq::empty(), 0)
    } else {
        let (t, b, p) = precomp(insts, k - 1);
        let i = insts[k - 1];
        match i {
            ParsedInstV::Label { label } => (t.push((label, p)), b, p),
            _ => (t, b.push(pre_item(i, p)), p + enc_len(i)),
        }
    }
}

/// The first pass over the whole statement list, with the implicit exit
/// instruction appended at the end so execution always has a terminator.
pub open spec fn precomp_full(insts: Seq<ParsedInstV>) -> (
    Seq<(Seq<u8>, nat)>,
    Seq<PreInstV>,
    nat,
) {
    let (t, b, p) = precomp(insts, insts.len() as int);
    (t, b.push(PreInstV::Compiled1(Inst::Exit)), p + 1)
}

/// The byte holding `n` modulo 2^8.
pub open spec fn wrap8(n: int) -> u8 {
    (n % 256) as u8
}

/// The final bytes of one buffered item, resolved against the complete
/// symbol table. A jump to label at distance `target - pos` becomes the
/// forward opcode when the distance is positive and the backward opcode
/// otherwise, with the distance truncated to one byte either way; a call
/// becomes its opcode and the absolute big-endian 16-bit target. An
/// unresolved label is the error, named.
pub open spec fn enc_item(it: PreInstV, t: Seq<(Seq<u8>, nat)>) -> Result<Seq<u8>, CompileErrorV> {
    match it {
        PreInstV::JumpPlaceHolder(l, pos) => match table_lookup(t, l) {
            None => Err(CompileErrorV::UndefinedJumpLabel { label: l }),
            Some(target) => if target > pos {
                Ok(seq![opcode_of(Inst::JumpFw), wrap8(target - pos)])
            } else {
                Ok(seq![opcode_of(Inst::JumpBw), wrap8(target - pos)])
            },
        },
        PreInstV::CallPlaceHolder(l) => match table_lookup(t, l) {
            None => Err(CompileErrorV::UndefinedCallLabel { label: l }),
            Some(target) => Ok(
                seq![
                    opcode_of(Inst::Call),
                    (target / 256 % 256) as u8,
                    (target % 256) as u8,
                ],
            ),
        },
        PreInstV::Compiled1(i) => Ok(seq![opcode_of(i)]),
        PreInstV::Compiled2(i, a) => Ok(seq![opcode_of(i), a]),
        PreInstV::Compiled3(i, a, b) => Ok(seq![opcode_of(i), a, b]),
        PreInstV::Compiled4(i, a, b, c) => Ok(seq![opcode_of(i), a, b, c]),
    }
}

/// The second pass over the first `k` buffered items, in offset order; the
/// first unresolved label aborts the whole assembly.
pub open spec fn assemble_items(b: Seq<PreInstV>, t: Seq<(Seq<u8>, nat)>, k: int) -> Result<
    Seq<u8>,
    CompileErrorV,
>
    decreases k,
{
    if k <= 0 {
        Ok(Seq::empty())
    } else {
        match assemble_items(b, t, k - 1) {
            Err(e) => Err(e),
            Ok(bytes) => match enc_item(b[k - 1], t) {
                Err(e) => Err(e),
                Ok(ib) => Ok(bytes + ib),
            },
        }
    }
}

/// The whole assembly of a statement list: the first pass builds the
/// complete symbol table and the buffer, the second resolves every
/// placeholder against that table — so a label helps a reference before it
/// exactly as well as one after it — and concatenates the bytes in offset
/// order.
pub open spec fn spec_compile(insts: Seq<ParsedInstV>) -> Result<Seq<u8>, CompileErrorV> {
    let (t, b, p) = precomp_full(insts);
    assemble_items(b, t, b.len() as int)
}

/// Once the second pass has failed, it stays failed with the same error.
proof fn lemma_assemble_err(b: Seq<PreInstV>, t: Seq<(Seq<u8>, nat)>, k: int, n: int)
    requires
        0 <= k <= n,
        assemble_items(b, t, k) is Err,
    ensures
        assemble_items(b, t, n) == assemble_items(b, t, k),
    decreases n - k,
{
    if n > k {
        lemma_assemble_err(b, t, k, n - 1);
    }
}

/// Appending a buffered item, at the value level.
proof fn lemma_buf_view_push(s: Seq<PrecompiledInst>, x: PrecompiledInst)
    ensures
        buf_view(s.push(x)) == buf_view(s).push(x@),
{
    assert(buf_view(s.push(x)) =~= buf_view(s).push(x@));
}

/// Appending a symbol-table entry, at the value level.
proof fn lemma_table_view_push(s: Seq<(Vec<u8>, usize)>, x: (Vec<u8>, usize))
    ensures
        table_view(s.push(x)) == table_view(s).push((x.0@, x.1 as nat)),
{
    assert(table_view(s.push(x)) =~= table_view(s).push((x.0@, x.1 as nat)));
}

/// An owned copy of a byte vector.
fn copy_bytes(v: &Vec<u8>) -> (r: Vec<u8>)
    ensures
        r@ == v@,
{
    let mut out: Vec<u8> = Vec::new();
    let mut k: usize = 0;
    let n = v.len();
    while k < n
        invariant
            k <= n,
            n == v@.len(),
            out@ == v@.take(k as int),
        decreases n - k,
    {
        out.push(v[k]);
        k = k + 1;
        proof {
            assert(out@ =~= v@.take(k as int));
        }
    }
    proof {
        assert(v@.take(n as int) =~= v@);
    }
    out
}

/// Whether two byte vectors hold the same bytes.
fn bytes_eq(a: &Vec<u8>, b: &Vec<u8>) -> (r: bool)
    ensures
        r == (a@ == b@),
{
    let n = a.len();
    if n != b.len() {
        return false;
    }
    let mut k: usize = 0;
    while k < n
        invariant
            k <= n,
            n == a@.len(),
            n == b@.len(),
            forall|j: int| 0 <= j < k ==> a@[j] == b@[j],
        decreases n - k,
    {
        if a[k] != b[k] {
            return false;
        }
        k = k + 1;
    }
    proof {
        assert(a@ =~= b@);
    }
    true
}

/// Looks a label up in the symbol table; the most recent entry wins.
fn table_get(table: &Vec<(Vec<u8>, usize)>, name: &Vec<u8>) -> (r: Option<usize>)
    ensures
        (match table_lookup(table_view(table@), name@) {
            Some(v) => r matches Some(x) && x == v,
            None => r is None,
        }),
{
    let n = table.len();
    let mut k: usize = n;
    proof {
        assert(table_view(table@).take(n as int) =~= table_view(table@));
    }
    while k > 0
        invariant
            k <= n,
            n == table@.len(),
            table_lookup(table_view(table@), name@) == table_lookup(
                table_view(table@).take(k as int),
                name@,
            ),
        decreases k,
    {
        k = k - 1;
        let entry = &table[k];
        proof {
            assert(table_view(table@).take(k as int + 1).drop_last() =~= table_view(
                table@,
            ).take(k as int));
            assert(table_view(table@).take(k as int + 1).last() == (entry.0@, entry.1 as nat));
        }
        if bytes_eq(&entry.0, name) {
            return Some(entry.1);
        }
    }
    proof {
        assert(table_view(table@).take(0) =~= Seq::<(Seq<u8>, nat)>::empty());
    }
    None
}

/// The two-pass compiler. One instance assembles one program: the first
/// pass assigns byte offsets, builds the symbol table and buffers partially
/// encoded items; the second rewrites the placeholders into final bytes
/// once every label is known.
pub struct Compiler {
    symbol_table: Vec<(Vec<u8>, usize)>,
    buffer: Vec<PrecompiledInst>,
    pos: usize,
}

impl Compiler {
    /// The symbol table built so far.
    pub closed spec fn table(&self) -> Seq<(Seq<u8>, nat)> {
        table_view(self.symbol_table@)
    }

    /// The buffered items of the first pass.
    pub closed spec fn buf(&self) -> Seq<PreInstV> {
        buf_view(self.buffer@)
    }

    /// The running byte offset of the first pass.
    pub closed spec fn offset(&self) -> nat {
        self.pos as nat
    }

    /// A compiler that has assembled nothing yet.
    pub open spec fn is_fresh(&self) -> bool {
        self.table().len() == 0 && self.buf().len() == 0 && self.offset() == 0
    }

    /// A fresh compiler.
    pub fn new() -> (r: Compiler)
        ensures
            r.is_fresh(),
    {
        let c = Compiler { symbol_table: Vec::new(), buffer: Vec::new(), pos: 0 };
        proof {
            assert(c.table() =~= Seq::<(Seq<u8>, nat)>::empty());
            assert(c.buf() =~= Seq::<PreInstV>::empty());
        }
        c
    }

    /// Buffers one already-final single-byte instruction.
    fn inst_1(&mut self, i: Inst)
        requires
            old(self).offset() + 1 <= usize::MAX,
        ensures
            final(self).table() == old(self).table(),
            final(self).buf() == old(self).buf().push(PreInstV::Compiled1(i)),
            final(self).offset() == old(self).offset() + 1,
    {
        proof {
            lemma_buf_view_push(self.buffer@, PrecompiledInst::Compiled1(i));
        }
        self.buffer.push(PrecompiledInst::Compiled1(i));
        self.pos = self.pos + 1;
    }

    /// Buffers an instruction with one operand byte.
    fn inst_2(&mut self, i: Inst, a: u8)
        requires
            old(self).offset() + 2 <= usize::MAX,
        ensures
            final(self).table() == old(self).table(),
            final(self).buf() == old(self).buf().push(PreInstV::Compiled2(i, a)),
            final(self).offset() == old(self).offset() + 2,
    {
        proof {
            lemma_buf_view_push(self.buffer@, PrecompiledInst::Compiled2(i, a));
        }
        self.buffer.push(PrecompiledInst::Compiled2(i, a));
        self.pos = self.pos + 2;
    }

    /// Buffers an instruction with two operand bytes.
    fn inst_3(&mut self, i: Inst, a: u8, b: u8)
        requires
            old(self).offset() + 3 <= usize::MAX,
        ensures
            final(self).table() == old(self).table(),
            final(self).buf() == old(self).buf().push(PreInstV::Compiled3(i, a, b)),
            final(self).offset() == old(self).offset() + 3,
    {
        proof {
            lemma_buf_view_push(self.buffer@, PrecompiledInst::Compiled3(i, a, b));
        }
        self.buffer.push(PrecompiledInst::Compiled3(i, a, b));
        self.pos = self.pos + 3;
    }

    /// Buffers an instruction with three operand bytes.
    fn inst_4(&mut self, i: Inst, a: u8, b: u8, c: u8)
        requires
            old(self).offset() + 4 <= usize::MAX,
        ensures
            final(self).table() == old(self).table(),
            final(self).buf() == old(self).buf().push(PreInstV::Compiled4(i, a, b, c)),
            final(self).offset() == old(self).offset() + 4,
    {
        proof {
            lemma_buf_view_push(self.buffer@, PrecompiledInst::Compiled4(i, a, b, c));
        }
        self.buffer.push(PrecompiledInst::Compiled4(i, a, b, c));
        self.pos = self.pos + 4;
    }
}

/// An owned copy of one buffered item.
fn clone_pre(x: &PrecompiledInst) -> (r: PrecompiledInst)
    ensures
        r@ == x@,
{
    match x {
        PrecompiledInst::JumpPlaceHolder(l, p) => PrecompiledInst::JumpPlaceHolder(
            copy_bytes(l),
            *p,
        ),
        PrecompiledInst::CallPlaceHolder(l) => PrecompiledInst::CallPlaceHolder(copy_bytes(l)),
        PrecompiledInst::Compiled1(i) => PrecompiledInst::Compiled1(*i),
        PrecompiledInst::Compiled2(i, a) => PrecompiledInst::Compiled2(*i, *a),
        PrecompiledInst::Compiled3(i, a, b) => PrecompiledInst::Compiled3(*i, *a, *b),
        PrecompiledInst::Compiled4(i, a, b, c) => PrecompiledInst::Compiled4(*i, *a, *b, *c),
    }
}

/// An owned copy of the whole buffer, item values kept.
fn clone_buffer(b: &Vec<PrecompiledInst>) -> (r: Vec<PrecompiledInst>)
    ensures
        buf_view(r@) == buf_view(b@),
{
    let mut out: Vec<PrecompiledInst> = Vec::new();
    let mut k: usize = 0;
    let n = b.len();
    proof {
        assert(buf_view(out@) =~= buf_view(b@).take(0));
    }
    while k < n
        invariant
            k <= n,
            n == b@.len(),
            buf_view(out@) == buf_view(b@).take(k as int),
        decreases n - k,
    {
        let item = clone_pre(&b[k]);
        proof {
            lemma_buf_view_push(out@, item);
        }
        out.push(item);
        k = k + 1;
        proof {
            assert(buf_view(out@) =~= buf_view(b@).take(k as int));
        }
    }
    proof {
        assert(buf_view(b@).take(n as int) =~= buf_view(b@));
    }
    out
}

impl Compiler {
    /// The first pass: walks the statements in order, recording each label
    /// declaration at the current byte offset, buffering every other
    /// statement either as final bytes or as a placeholder, and appending
    /// the implicit exit instruction at the end. Never fails; the result is
    /// a copy of the buffer.
    pub fn precompile(&mut self, insts: &Vec<ParsedInst>) -> (r: Result<
        Vec<PrecompiledInst>,
        CompileError,
    >)
        requires
            old(self).is_fresh(),
            4 * insts@.len() + 1 <= usize::MAX,
        ensures
            ({
                let (t, b, p) = precomp_full(insts_view(insts@));
                &&& final(self).table() == t
                &&& final(self).buf() == b
                &&& final(self).offset() == p
                &&& r matches Ok(v) && buf_view(v@) == b
            }),
    {
        let ghost iv = insts_view(insts@);
        let n = insts.len();
        let mut k: usize = 0;
        proof {
            assert(self.table() =~= precomp(iv, 0).0);
            assert(self.buf() =~= precomp(iv, 0).1);
        }
        while k < n
            invariant
                k <= n,
                n == insts@.len(),
                iv == insts_view(insts@),
                4 * n + 1 <= usize::MAX,
                self.offset() <= 4 * k,
                (self.table(), self.buf(), self.offset()) == precomp(iv, k as int),
            decreases n - k,
        {
            let inst = &insts[k];
            proof {
                assert(iv[k as int] == insts@[k as int]@);
            }
            match inst {
                ParsedInst::Label { label } => {
                    let entry = (copy_bytes(label), self.pos);
                    proof {
                        lemma_table_view_push(self.symbol_table@, entry);
                    }
                    self.symbol_table.push(entry);
                },
                ParsedInst::Nop => self.inst_1(Inst::Nop),
                ParsedInst::Exit => self.inst_1(Inst::Exit),
                ParsedInst::Jump { label } => {
                    let ph = PrecompiledInst::JumpPlaceHolder(copy_bytes(label), self.pos);
                    proof {
                        lemma_buf_view_push(self.buffer@, ph);
                    }
                    self.buffer.push(ph);
                    self.pos = self.pos + 2;
                },
                ParsedInst::Then => self.inst_1(Inst::Then),
                ParsedInst::Otherwise => self.inst_1(Inst::Otherwise),
                ParsedInst::SetByte { dst, val } => self.inst_3(
                    Inst::SetByte,
                    (*dst % 256) as u8,
                    *val,
                ),
                ParsedInst::SetShort { dst, val } => self.inst_4(
                    Inst::SetShort,
                    (*dst % 256) as u8,
                    (*val / 256) as u8,
                    (*val % 256) as u8,
                ),
                ParsedInst::Push { src } => self.inst_2(Inst::Push, (*src % 256) as u8),
                ParsedInst::Pop { dst } => self.inst_2(Inst::Pop, (*dst % 256) as u8),
                ParsedInst::Add { dst, src } => self.inst_3(
                    Inst::Add,
                    (*dst % 256) as u8,
                    (*src % 256) as u8,
                ),
                ParsedInst::Sub { dst, src } => self.inst_3(
                    Inst::Sub,
                    (*dst % 256) as u8,
                    (*src % 256) as u8,
                ),
                ParsedInst::Mul { dst, src } => self.inst_3(
                    Inst::Mul,
                    (*dst % 256) as u8,
                    (*src % 256) as u8,
                ),
                ParsedInst::Div { dst, src } => self.inst_3(
                    Inst::Div,
                    (*dst % 256) as u8,
                    (*src % 256) as u8,
                ),
                ParsedInst::Mod { dst, src } => self.inst_3(
                    Inst::Mod,
                    (*dst % 256) as u8,
                    (*src % 256) as u8,
                ),
                ParsedInst::Neg { dst } => self.inst_2(Inst::Neg, (*dst % 256) as u8),
                ParsedInst::GreaterThan { left, right } => self.inst_3(
                    Inst::GreaterThan,
                    (*left % 256) as u8,
                    (*right % 256) as u8,
                ),
                ParsedInst::LessThan { left, right } => self.inst_3(
                    Inst::LessThan,
                    (*left % 256) as u8,
                    (*right % 256) as u8,
                ),
                ParsedInst::GreaterEqual { left, right } => self.inst_3(
                    Inst::GreaterEqual,
                    (*left % 256) as u8,
                    (*right % 256) as u8,
                ),
                ParsedInst::LessEqual { left, right } => self.inst_3(
                    Inst::LessEqual,
                    (*left % 256) as u8,
                    (*right % 256) as u8,
                ),
                ParsedInst::Equal { left, right } => self.inst_3(
                    Inst::Equal,
                    (*left % 256) as u8,
                    (*right % 256) as u8,
                ),
                ParsedInst::NotEqual { left, right } => self.inst_3(
                    Inst::NotEqual,
                    (*left % 256) as u8,
                    (*right % 256) as u8,
                ),
                ParsedInst::Return => self.inst_1(Inst::Return),
                ParsedInst::Call { label } => {
                    let ph = PrecompiledInst::CallPlaceHolder(copy_bytes(label));
                    proof {
                        lemma_buf_view_push(self.buffer@, ph);
                    }
                    self.buffer.push(ph);
                    self.pos = self.pos + 3;
                },
                ParsedInst::Mov { dst, src } => self.inst_3(
                    Inst::Mov,
                    (*dst % 256) as u8,
                    (*src % 256) as u8,
                ),
                ParsedInst::Debug { src, mode } => self.inst_3(
                    Inst::Debug,
                    (*src % 256) as u8,
                    (*mode % 256) as u8,
                ),
            }
            k = k + 1;
        }
        self.inst_1(Inst::Exit);
        let copy = clone_buffer(&self.buffer);
        Ok(copy)
    }

    /// Assembles a parsed statement list into its final byte image. Both
    /// passes run here: offsets and the symbol table first, then every
    /// placeholder is resolved against the complete table, so a label
    /// declared after its references resolves exactly as one declared
    /// before them. The first unresolved label aborts the whole assembly
    /// with that label's name; no partial image is returned.
    #[verifier::rlimit(100)]
    pub fn compile(&mut self, insts: &Vec<ParsedInst>) -> (r: Result<Vec<u8>, CompileError>)
        requires
            old(self).is_fresh(),
            4 * insts@.len() + 1 <= usize::MAX,
        ensures
            final(self).table() == precomp_full(insts_view(insts@)).0,
            final(self).buf() == precomp_full(insts_view(insts@)).1,
            final(self).offset() == precomp_full(insts_view(insts@)).2,
            (match spec_compile(insts_view(insts@)) {
                Ok(bytes) => r matches Ok(v) && v@ == bytes,
                Err(e) => r matches Err(e2) && e2@ == e,
            }),
    {
        let mut image: Vec<u8> = Vec::new();
        let _precompiled = self.precompile(insts);
        let ghost t = self.table();
        let ghost b = self.buf();
        let n = self.buffer.len();
        let mut k: usize = 0;
        while k < n
            invariant
                k <= n,
                n == self.buffer@.len(),
                t == table_view(self.symbol_table@),
                b == buf_view(self.buffer@),
                t == precomp_full(insts_view(insts@)).0,
                b == precomp_full(insts_view(insts@)).1,
                self.offset() == precomp_full(insts_view(insts@)).2,
                assemble_items(b, t, k as int) == Ok::<Seq<u8>, CompileErrorV>(image@),
            decreases n - k,
        {
            let ghost image0 = image@;
            let item = &self.buffer[k];
            proof {
                assert(b[k as int] == self.buffer@[k as int]@);
            }
            match item {
                PrecompiledInst::JumpPlaceHolder(label, pos) => {
                    let looked = table_get(&self.symbol_table, label);
                    match looked {
                        None => {
                            proof {
                                lemma_assemble_err(b, t, k as int + 1, b.len() as int);
                            }
                            return Err(
                                CompileError::UndefinedJumpLabel { label: copy_bytes(label) },
                            );
                        },
                        Some(target) => {
                            let pos_v = *pos;
                            if target > pos_v {
                                let d = target - pos_v;
                                image.push(encode(Inst::JumpFw));
                                image.push((d % 256) as u8);
                            } else {
                                let d = pos_v - target;
                                proof {
                                    lemma_wrap8_neg(d as int);
                                }
                                image.push(encode(Inst::JumpBw));
                                image.push(((256 - (d % 256)) % 256) as u8);
                            }
                            proof {
                                let ib = (match enc_item(b[k as int], t) {
                                    Ok(s) => s,
                                    Err(e) => Seq::empty(),
                                });
                                assert(image@ =~= image0 + ib);
                            }
                        },
                    }
                },
                PrecompiledInst::CallPlaceHolder(label) => {
                    let looked = table_get(&self.symbol_table, label);
                    match looked {
                        None => {
                            proof {
                                lemma_assemble_err(b, t, k as int + 1, b.len() as int);
                            }
                            return Err(
                                CompileError::UndefinedCallLabel { label: copy_bytes(label) },
                            );
                        },
                        Some(target) => {
                            image.push(encode(Inst::Call));
                            image.push((target / 256 % 256) as u8);
                            image.push((target % 256) as u8);
                            proof {
                                let ib = (match enc_item(b[k as int], t) {
                                    Ok(s) => s,
                                    Err(e) => Seq::empty(),
                                });
                                assert(image@ =~= image0 + ib);
                            }
                        },
                    }
                },
                PrecompiledInst::Compiled1(i) => {
                    image.push(encode(*i));
                    proof {
                        let ib = (match enc_item(b[k as int], t) {
                            Ok(s) => s,
                            Err(e) => Seq::empty(),
                        });
                        assert(image@ =~= image0 + ib);
                    }
                },
                PrecompiledInst::Compiled2(i, a) => {
                    image.push(encode(*i));
                    image.push(*a);
                    proof {
                        let ib = (match enc_item(b[k as int], t) {
                            Ok(s) => s,
                            Err(e) => Seq::empty(),
                        });
                        assert(image@ =~= image0 + ib);
                    }
                },
                PrecompiledInst::Compiled3(i, a, bb) => {
                    image.push(encode(*i));
                    image.push(*a);
                    image.push(*bb);
                    proof {
                        let ib = (match enc_item(b[k as int], t) {
                            Ok(s) => s,
                            Err(e) => Seq::empty(),
                        });
                        assert(image@ =~= image0 + ib);
                    }
                },
                PrecompiledInst::Compiled4(i, a, bb, c) => {
                    image.push(encode(*i));
                    image.push(*a);
                    image.push(*bb);
                    image.push(*c);
                    proof {
                        let ib = (match enc_item(b[k as int], t) {
                            Ok(s) => s,
                            Err(e) => Seq::empty(),
                        });
                        assert(image@ =~= image0 + ib);
                    }
                },
            }
            k = k + 1;
        }
        Ok(image)
    }
}

/// Negating a distance commutes with truncation to one byte.
proof fn lemma_wrap8_neg(d: int)
    requires
        d >= 0,
    ensures
        wrap8(-d) == (((256 - (d % 256)) % 256) as u8),
{
    vstd::arithmetic::div_mod::lemma_fundamental_div_mod(d, 256);
    vstd::arithmetic::div_mod::lemma_mod_multiples_vanish(-(d / 256), -(d % 256), 256);
    assert((-d) % 256 == (-(d % 256)) % 256);
    let m = d % 256;
    if m == 0 {
        assert((0int) % 256 == 0);
    } else {
        assert((-m) % 256 == 256 - m);
    }
}

/// The lexer emits at most one token per source byte, plus the closing
/// end-of-input token.
pub proof fn lemma_lex_token_count(src: Seq<u8>, i: nat)
    requires
        i <= src.len(),
    ensures
        lex_from(src, i).len() <= src.len() - i + 1,
    decreases src.len() - i,
{
    if i >= src.len() {
    } else {
        let b = src[i as int];
        if b == 59 {
            lemma_comment_end_bounds(src, i);
            lemma_lex_token_count(src, comment_end(src, i));
        } else if b == 32 {
            lemma_lex_token_count(src, i + 1);
        } else if b == 44 || b == 10 || b == 58 {
            lemma_lex_token_count(src, i + 1);
        } else if is_digit(b) {
            if is_hex_start(src, i) {
                lemma_hex_digits_end_bounds(src, i + 2);
                lemma_lex_token_count(src, hex_digits_end(src, i + 2));
            } else {
                assert(digits_end(src, i) == digits_end(src, i + 1));
                lemma_digits_end_bounds(src, i + 1);
                lemma_lex_token_count(src, digits_end(src, i));
            }
        } else if is_id_byte(b) {
            lemma_id_end_bounds(src, i + 1);
            lemma_lex_token_count(src, id_end(src, i + 1));
        } else {
            lemma_lex_token_count(src, i + 1);
        }
    }
}

/// A successful parse yields at most one statement per remaining token.
pub proof fn lemma_spec_parse_count(src: Seq<u8>, toks: Seq<Token>, pos: nat)
    ensures
        (match spec_parse(src, toks, pos) {
            Ok(s) => if pos <= toks.len() {
                s.len() + pos <= toks.len()
            } else {
                s.len() == 0
            },
            Err(e) => true,
        }),
    decreases toks.len() - pos,
{
    if pos >= toks.len() {
    } else {
        let t = tok_at(toks, pos);
        match t.0 {
            TokenType::Id => {
                lemma_parse_instruction_advances(src, toks, pos);
                match spec_parse_instruction(src, toks, pos) {
                    Ok((inst, p2)) => {
                        lemma_spec_parse_count(src, toks, p2);
                    },
                    Err(e) => {},
                }
            },
            TokenType::NewLine => {
                lemma_spec_parse_count(src, toks, pos + 1);
            },
            _ => {},
        }
    }
}

/// An assembly-unit error: either the parse failed or a label could not be
/// resolved.
#[derive(Clone, Debug, PartialEq, Eq)]
pub enum AsmError {
    Parse(ParseError),
    Compile(CompileError),
}

/// The mathematical value of an assembly-unit error.
pub enum AsmErrorV {
    Parse(ParseError),
    Compile(CompileErrorV),
}

impl View for AsmError {
    type V = AsmErrorV;

    open spec fn view(&self) -> AsmErrorV {
        match self {
            AsmError::Parse(e) => AsmErrorV::Parse(*e),
            AsmError::Compile(e) => AsmErrorV::Compile(e@),
        }
    }
}

/// The whole assembly unit as one pure function: the source bytes are
/// tokenized, parsed and compiled into the final program image, or the
/// first error aborts everything.
pub open spec fn spec_assemble(src: Seq<u8>) -> Result<Seq<u8>, AsmErrorV> {
    match spec_parse(src, lex_from(src, 0), 0) {
        Err(e) => Err(AsmErrorV::Parse(e)),
        Ok(insts) => match spec_compile(insts) {
            Ok(bytes) => Ok(bytes),
            Err(e) => Err(AsmErrorV::Compile(e)),
        },
    }
}

/// Assembles one source unit into its program image: tokenize, parse,
/// compile. Pure with respect to the source; the first syntax or
/// resolution error aborts with no partial image.
pub fn assemble(source: &[u8]) -> (r: Result<Vec<u8>, AsmError>)
    requires
        4 * source@.len() + 5 <= usize::MAX,
    ensures
        (match spec_assemble(source@) {
            Ok(bytes) => r matches Ok(v) && v@ == bytes,
            Err(e) => r matches Err(e2) && e2@ == e,
        }),
{
    let src_len = source.len();
    let tokens = read_all_tokens(source);
    proof {
        assert(source@.len() == src_len);
        lemma_lex_from_wf(source@, 0);
        lemma_lex_token_count(source@, 0);
        lemma_spec_parse_count(source@, tokens@, 0);
    }
    let mut parser = Parser::new(source, tokens);
    let parsed = match parser.parse() {
        Ok(v) => v,
        Err(e) => {
            return Err(AsmError::Parse(e));
        },
    };
    proof {
        assert(insts_view(parsed@).len() == parsed@.len());
        assert(4 * parsed@.len() + 1 <= usize::MAX);
    }
    let mut compiler = Compiler::new();
    match compiler.compile(&parsed) {
        Ok(image) => Ok(image),
        Err(e) => Err(AsmError::Compile(e)),
    }
}

/// The textual rendering of one token, as the token listing prints it:
/// identifiers and literals with their raw span bytes, punctuation as
/// itself, the end of input marked on a line of its own.
pub open spec fn render_token(src: Seq<u8>, t: Token) -> Seq<u8> {
    match t.0 {
        TokenType::Id => seq![32u8, 73, 100, 40] + span_bytes(src, t) + seq![41u8],
        TokenType::Int => seq![32u8, 73, 110, 116, 40] + span_bytes(src, t) + seq![41u8],
        TokenType::Comma => seq![44u8],
        TokenType::NewLine => seq![10u8],
        TokenType::Colon => seq![58u8, 32],
        TokenType::Eof => seq![32u8, 69, 79, 70, 10],
    }
}

/// The rendering of the token stream from position `k` on.
pub open spec fn render_tokens_from(src: Seq<u8>, toks: Seq<Token>, k: nat) -> Seq<u8>
    decreases toks.len() - k,
{
    if k >= toks.len() {
        Seq::empty()
    } else {
        render_token(src, toks[k as int]) + render_tokens_from(src, toks, k + 1)
    }
}

/// The rendering of a whole token stream.
pub open spec fn spec_render_tokens(src: Seq<u8>, toks: Seq<Token>) -> Seq<u8> {
    render_tokens_from(src, toks, 0)
}

/// Appends the source bytes of one span.
fn push_span(out: &mut Vec<u8>, source: &[u8], lo: usize, hi: usize)
    requires
        lo <= hi <= source@.len(),
    ensures
        final(out)@ == old(out)@ + source@.subrange(lo as int, hi as int),
{
    let mut k = lo;
    while k < hi
        invariant
            lo <= k <= hi <= source@.len(),
            out@ == old(out)@ + source@.subrange(lo as int, k as int),
        decreases hi - k,
    {
        out.push(source[k]);
        k = k + 1;
        proof {
            assert(out@ =~= old(out)@ + source@.subrange(lo as int, k as int));
        }
    }
}

/// Renders the classified token stream as the diagnostic listing the host
/// prints: each identifier or literal with its source text, punctuation as
/// itself, the end of input on its own line.
pub fn render_tokens(source: &[u8], tokens: &Vec<Token>) -> (r: Vec<u8>)
    requires
        wf_tokens(tokens@, source@),
    ensures
        r@ == spec_render_tokens(source@, tokens@),
{
    let mut out: Vec<u8> = Vec::new();
    let n = tokens.len();
    let mut k: usize = 0;
    proof {
        assert(spec_render_tokens(source@, tokens@) =~= out@ + render_tokens_from(
            source@,
            tokens@,
            0,
        ));
    }
    while k < n
        invariant
            k <= n,
            n == tokens@.len(),
            wf_tokens(tokens@, source@),
            spec_render_tokens(source@, tokens@) == out@ + render_tokens_from(
                source@,
                tokens@,
                k as nat,
            ),
        decreases n - k,
    {
        let ghost out0 = out@;
        let t = tokens[k];
        match t.0 {
            TokenType::Id => {
                out.push(32);
                out.push(73);
                out.push(100);
                out.push(40);
                push_span(&mut out, source, t.1.0, t.1.1);
                out.push(41);
            },
            TokenType::Int => {
                out.push(32);
                out.push(73);
                out.push(110);
                out.push(116);
                out.push(40);
                push_span(&mut out, source, t.1.0, t.1.1);
                out.push(41);
            },
            TokenType::Comma => {
                out.push(44);
            },
            TokenType::NewLine => {
                out.push(10);
            },
            TokenType::Colon => {
                out.push(58);
                out.push(32);
            },
            TokenType::Eof => {
                out.push(32);
                out.push(69);
                out.push(79);
                out.push(70);
                out.push(10);
            },
        }
        proof {
            assert(out@ =~= out0 + render_token(source@, tokens@[k as int]));
            assert(out@ + render_tokens_from(source@, tokens@, k as nat + 1) =~= out0
                + render_tokens_from(source@, tokens@, k as nat));
        }
        k = k + 1;
    }
    proof {
        assert(spec_render_tokens(source@, tokens@) =~= out@);
    }
    out
}

} // verus!
