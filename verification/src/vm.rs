//! The virtual machine: a fixed-register, flat-memory interpreter for the
//! byte-coded programs that the assembler emits.
//!
//! The machine has sixteen 16-bit registers, a 1024-byte flat memory shared
//! by code and stack (there is no protection between the two: a stack that
//! grows far enough overwrites the program, by design), a 16-bit program
//! counter and one condition flag. Register 0 always reads as zero and
//! writes to it are discarded; register 14 is the scratch register that
//! return uses; register 15 is the stack pointer, which moves down by two on
//! push and call and up by two on pop and return.
//!
//! The semantics are given once, as the specification function [`step_spec`]
//! over the abstract [`MachineState`]; the executable interpreter is proved
//! to follow it step by step. Any access outside the fixed register or
//! memory bounds is a fault that ends the run; a byte that is no opcode is
//! decoded explicitly and yields an invalid-opcode fault rather than
//! undefined behaviour.

use vstd::prelude::*;

use crate::fmt::dec5_bytes;
use crate::fmt::dec_bytes;
use crate::fmt::dec_pad4_bytes;
use crate::fmt::hex2_bytes;
use crate::fmt::hex4_bytes;
use crate::fmt::hex_bytes_lower;
use crate::fmt::push_dec;
use crate::fmt::push_dec5;
use crate::fmt::push_dec_pad4;
use crate::fmt::push_hex2;
use crate::fmt::push_hex4;
use crate::fmt::push_hex_lower;

verus! {

broadcast use vstd::array::group_array_axioms;

/// The instruction set. Each instruction is encoded as one opcode byte
/// followed by zero to three operand bytes.
#[derive(Copy, Clone, Debug, PartialEq, Eq, Structural)]
pub enum Inst {
    Nop,
    Exit,
    JumpFw,
    JumpBw,
    Then,
    Otherwise,
    SetByte,
    SetShort,
    Push,
    Pop,
    Add,
    Sub,
    Mul,
    Div,
    Mod,
    Neg,
    GreaterThan,
    LessThan,
    GreaterEqual,
    LessEqual,
    Equal,
    NotEqual,
    Return,
    Call,
    Mov,
    Debug,
}

/// The opcode byte that encodes an instruction.
pub open spec fn opcode_of(i: Inst) -> u8 {
    match i {
        Inst::Nop => 0,
        Inst::Exit => 1,
        Inst::JumpFw => 2,
        Inst::JumpBw => 3,
        Inst::Then => 4,
        Inst::Otherwise => 5,
        Inst::SetByte => 6,
        Inst::SetShort => 7,
        Inst::Push => 8,
        Inst::Pop => 9,
        Inst::Add => 10,
        Inst::Sub => 11,
        Inst::Mul => 12,
        Inst::Div => 13,
        Inst::Mod => 14,
        Inst::Neg => 15,
        Inst::GreaterThan => 16,
        Inst::LessThan => 17,
        Inst::GreaterEqual => 18,
        Inst::LessEqual => 19,
        Inst::Equal => 20,
        Inst::NotEqual => 21,
        Inst::Return => 22,
        Inst::Call => 23,
        Inst::Mov => 24,
        Inst::Debug => 25,
    }
}

/// The instruction a byte encodes, or `None` for the bytes that encode none.
pub open spec fn decode_spec(b: u8) -> Option<Inst> {
    if b == 0 {
        Some(Inst::Nop)
    } else if b == 1 {
        Some(Inst::Exit)
    } else if b == 2 {
        Some(Inst::JumpFw)
    } else if b == 3 {
        Some(Inst::JumpBw)
    } else if b == 4 {
        Some(Inst::Then)
    } else if b == 5 {
        Some(Inst::Otherwise)
    } else if b == 6 {
        Some(Inst::SetByte)
    } else if b == 7 {
        Some(Inst::SetShort)
    } else if b == 8 {
        Some(Inst::Push)
    } else if b == 9 {
        Some(Inst::Pop)
    } else if b == 10 {
        Some(Inst::Add)
    } else if b == 11 {
        Some(Inst::Sub)
    } else if b == 12 {
        Some(Inst::Mul)
    } else if b == 13 {
        Some(Inst::Div)
    } else if b == 14 {
        Some(Inst::Mod)
    } else if b == 15 {
        Some(Inst::Neg)
    } else if b == 16 {
        Some(Inst::GreaterThan)
    } else if b == 17 {
        Some(Inst::LessThan)
    } else if b == 18 {
        Some(Inst::GreaterEqual)
    } else if b == 19 {
        Some(Inst::LessEqual)
    } else if b == 20 {
        Some(Inst::Equal)
    } else if b == 21 {
        Some(Inst::NotEqual)
    } else if b == 22 {
        Some(Inst::Return)
    } else if b == 23 {
        Some(Inst::Call)
    } else if b == 24 {
        Some(Inst::Mov)
    } else if b == 25 {
        Some(Inst::Debug)
    } else {
        None
    }
}

/// Encoded length of an instruction: the opcode byte plus its operands.
pub open spec fn inst_len(i: Inst) -> u16 {
    match i {
        Inst::Nop => 1,
        Inst::Exit => 1,
        Inst::JumpFw => 2,
        Inst::JumpBw => 2,
        Inst::Then => 1,
        Inst::Otherwise => 1,
        Inst::SetByte => 3,
        Inst::SetShort => 4,
        Inst::Push => 2,
        Inst::Pop => 2,
        Inst::Add => 3,
        Inst::Sub => 3,
        Inst::Mul => 3,
        Inst::Div => 3,
        Inst::Mod => 3,
        Inst::Neg => 2,
        Inst::GreaterThan => 3,
        Inst::LessThan => 3,
        Inst::GreaterEqual => 3,
        Inst::LessEqual => 3,
        Inst::Equal => 3,
        Inst::NotEqual => 3,
        Inst::Return => 1,
        Inst::Call => 3,
        Inst::Mov => 3,
        Inst::Debug => 3,
    }
}

/// Decodes one opcode byte.
pub fn decode(b: u8) -> (r: Option<Inst>)
    ensures
        r == decode_spec(b),
{
    match b {
        0 => Some(Inst::Nop),
        1 => Some(Inst::Exit),
        2 => Some(Inst::JumpFw),
        3 => Some(Inst::JumpBw),
        4 => Some(Inst::Then),
        5 => Some(Inst::Otherwise),
        6 => Some(Inst::SetByte),
        7 => Some(Inst::SetShort),
        8 => Some(Inst::Push),
        9 => Some(Inst::Pop),
        10 => Some(Inst::Add),
        11 => Some(Inst::Sub),
        12 => Some(Inst::Mul),
        13 => Some(Inst::Div),
        14 => Some(Inst::Mod),
        15 => Some(Inst::Neg),
        16 => Some(Inst::GreaterThan),
        17 => Some(Inst::LessThan),
        18 => Some(Inst::GreaterEqual),
        19 => Some(Inst::LessEqual),
        20 => Some(Inst::Equal),
        21 => Some(Inst::NotEqual),
        22 => Some(Inst::Return),
        23 => Some(Inst::Call),
        24 => Some(Inst::Mov),
        25 => Some(Inst::Debug),
        _ => None,
    }
}

/// Encodes an instruction as its opcode byte.
pub fn encode(i: Inst) -> (r: u8)
    ensures
        r == opcode_of(i),
{
    match i {
        Inst::Nop => 0,
        Inst::Exit => 1,
        Inst::JumpFw => 2,
        Inst::JumpBw => 3,
        Inst::Then => 4,
        Inst::Otherwise => 5,
        Inst::SetByte => 6,
        Inst::SetShort => 7,
        Inst::Push => 8,
        Inst::Pop => 9,
        Inst::Add => 10,
        Inst::Sub => 11,
        Inst::Mul => 12,
        Inst::Div => 13,
        Inst::Mod => 14,
        Inst::Neg => 15,
        Inst::GreaterThan => 16,
        Inst::LessThan => 17,
        Inst::GreaterEqual => 18,
        Inst::LessEqual => 19,
        Inst::Equal => 20,
        Inst::NotEqual => 21,
        Inst::Return => 22,
        Inst::Call => 23,
        Inst::Mov => 24,
        Inst::Debug => 25,
    }
}

/// Encoded length of one instruction.
pub fn instruction_len(i: Inst) -> (r: u16)
    ensures
        r == inst_len(i),
{
    match i {
        Inst::Nop => 1,
        Inst::Exit => 1,
        Inst::JumpFw => 2,
        Inst::JumpBw => 2,
        Inst::Then => 1,
        Inst::Otherwise => 1,
        Inst::SetByte => 3,
        Inst::SetShort => 4,
        Inst::Push => 2,
        Inst::Pop => 2,
        Inst::Add => 3,
        Inst::Sub => 3,
        Inst::Mul => 3,
        Inst::Div => 3,
        Inst::Mod => 3,
        Inst::Neg => 2,
        Inst::GreaterThan => 3,
        Inst::LessThan => 3,
        Inst::GreaterEqual => 3,
        Inst::LessEqual => 3,
        Inst::Equal => 3,
        Inst::NotEqual => 3,
        Inst::Return => 1,
        Inst::Call => 3,
        Inst::Mov => 3,
        Inst::Debug => 3,
    }
}

/// Decoding an encoded instruction gives the instruction back.
pub proof fn lemma_decode_encode(i: Inst)
    ensures
        decode_spec(opcode_of(i)) == Some(i),
{
}

/// A fatal execution fault. Any of these ends the run immediately; there is
/// no recovery and no partial result.
#[derive(Copy, Clone, Debug, PartialEq, Eq, Structural)]
pub enum Fault {
    /// A memory access outside the 1024-byte address space, the program
    /// counter included.
    OutOfBoundsMemory,
    /// An operand byte addressed a register outside the sixteen slots.
    OutOfBoundsRegister,
    /// The byte at the program counter encodes no instruction.
    InvalidOpcode,
}

/// What one executed step reported.
#[derive(Copy, Clone, Debug, PartialEq, Eq, Structural)]
pub enum StepOutcome {
    /// The instruction completed and the machine keeps running.
    Continue,
    /// The exit instruction was reached.
    Halted,
    /// A fatal fault; the machine state is left as it was before the
    /// faulting instruction.
    Faulted(Fault),
}

/// The abstract machine state that the contracts speak of.
#[verifier::ext_equal]
pub struct MachineState {
    /// The sixteen registers.
    pub regs: Seq<u16>,
    /// The 1024 bytes of flat memory, code and stack together.
    pub ram: Seq<u8>,
    /// The program counter.
    pub pc: u16,
    /// The condition flag that comparisons set and the skip markers read.
    pub flag: bool,
    /// Everything the debug instruction has printed so far.
    pub out: Seq<u8>,
}

impl MachineState {
    /// The fixed shape of a real machine: sixteen registers, 1024 memory
    /// bytes.
    pub open spec fn wf(self) -> bool {
        self.regs.len() == 16 && self.ram.len() == 1024
    }
}

/// The memory after writing `bytes` into `ram` starting at position `at`.
pub open spec fn store_bytes(ram: Seq<u8>, at: int, bytes: Seq<u8>) -> Seq<u8> {
    Seq::new(ram.len(), |i: int| if at <= i < at + bytes.len() {
        bytes[i - at]
    } else {
        ram[i]
    })
}

/// The state of a freshly created machine: everything zero, flag clear, no
/// output.
pub open spec fn init_state() -> MachineState {
    MachineState {
        regs: Seq::new(16, |i: int| 0u16),
        ram: Seq::new(1024, |i: int| 0u8),
        pc: 0,
        flag: false,
        out: Seq::empty(),
    }
}

/// The result of one abstract step.
pub enum Transition {
    /// The machine keeps running in the given state.
    Step(MachineState),
    /// The machine reached exit in the given state.
    Halt(MachineState),
    /// The machine faulted; execution ends.
    Abort(Fault),
}

/// The signed value of a 16-bit word, read as two's complement.
pub open spec fn signed16(x: u16) -> int {
    if x < 32768 {
        x as int
    } else {
        x as int - 65536
    }
}

/// The signed value of a byte, read as two's complement.
pub open spec fn signed8(x: u8) -> int {
    if x < 128 {
        x as int
    } else {
        x as int - 256
    }
}

/// The 16-bit word whose two's-complement value is `n` modulo 2^16.
pub open spec fn wrap16(n: int) -> u16 {
    (n % 65536) as u16
}

/// A value already in 16-bit range wraps to itself.
pub proof fn lemma_wrap16_small(n: int)
    requires
        0 <= n < 65536,
    ensures
        wrap16(n) == n,
{
    vstd::arithmetic::div_mod::lemma_small_mod(n as nat, 65536nat);
}

/// Shifting by a multiple of 2^16 does not change the wrapped word.
pub proof fn lemma_wrap16_shift(n: int, k: int)
    ensures
        wrap16(n + 65536 * k) == wrap16(n),
{
    vstd::arithmetic::div_mod::lemma_mod_multiples_vanish(k, n, 65536);
}

/// Absolute value.
pub open spec fn abs_val(n: int) -> int {
    if n >= 0 {
        n
    } else {
        -n
    }
}

/// Division truncated toward zero, as machine division behaves.
pub open spec fn truncated_div(a: int, b: int) -> int {
    if (a >= 0) == (b >= 0) {
        abs_val(a) / abs_val(b)
    } else {
        -(abs_val(a) / abs_val(b))
    }
}

/// Remainder with the sign of the dividend, paired with [`truncated_div`].
pub open spec fn truncated_rem(a: int, b: int) -> int {
    if a >= 0 {
        abs_val(a) % abs_val(b)
    } else {
        -(abs_val(a) % abs_val(b))
    }
}

/// The textual name of an instruction, as the disassembly prints it.
pub open spec fn inst_name(i: Inst) -> Seq<u8> {
    match i {
        Inst::Nop => seq![78u8, 111, 112],
        Inst::Exit => seq![69u8, 120, 105, 116],
        Inst::JumpFw => seq![74u8, 117, 109, 112, 70, 119],
        Inst::JumpBw => seq![74u8, 117, 109, 112, 66, 119],
        Inst::Then => seq![84u8, 104, 101, 110],
        Inst::Otherwise => seq![79u8, 116, 104, 101, 114, 119, 105, 115, 101],
        Inst::SetByte => seq![83u8, 101, 116, 66, 121, 116, 101],
        Inst::SetShort => seq![83u8, 101, 116, 83, 104, 111, 114, 116],
        Inst::Push => seq![80u8, 117, 115, 104],
        Inst::Pop => seq![80u8, 111, 112],
        Inst::Add => seq![65u8, 100, 100],
        Inst::Sub => seq![83u8, 117, 98],
        Inst::Mul => seq![77u8, 117, 108],
        Inst::Div => seq![68u8, 105, 118],
        Inst::Mod => seq![77u8, 111, 100],
        Inst::Neg => seq![78u8, 101, 103],
        Inst::GreaterThan => seq![71u8, 114, 101, 97, 116, 101, 114, 84, 104, 97, 110],
        Inst::LessThan => seq![76u8, 101, 115, 115, 84, 104, 97, 110],
        Inst::GreaterEqual => seq![71u8, 114, 101, 97, 116, 101, 114, 69, 113, 117, 97, 108],
        Inst::LessEqual => seq![76u8, 101, 115, 115, 69, 113, 117, 97, 108],
        Inst::Equal => seq![69u8, 113, 117, 97, 108],
        Inst::NotEqual => seq![78u8, 111, 116, 69, 113, 117, 97, 108],
        Inst::Return => seq![82u8, 101, 116, 117, 114, 110],
        Inst::Call => seq![67u8, 97, 108, 108],
        Inst::Mov => seq![77u8, 111, 118],
        Inst::Debug => seq![68u8, 101, 98, 117, 103],
    }
}

/// Space-separated two-digit hexadecimal renderings of up to `k` operand
/// bytes starting at `pos`, stopping at the end of memory.
pub open spec fn operand_hexes(ram: Seq<u8>, pos: nat, k: nat) -> Seq<u8>
    decreases k,
{
    if k == 0 {
        Seq::empty()
    } else if pos >= ram.len() {
        Seq::empty()
    } else {
        seq![32u8] + hex2_bytes(ram[pos as int] as nat) + operand_hexes(ram, pos + 1, (k - 1) as nat)
    }
}

/// One line of the disassembly listing: the position, the instruction name
/// (`??` for a byte that encodes nothing) and its operand bytes.
pub open spec fn disasm_line(ram: Seq<u8>, pos: nat) -> Seq<u8>
    recommends
        pos < ram.len(),
{
    let b = ram[pos as int];
    let name = match decode_spec(b) {
        Some(i) => inst_name(i),
        None => seq![63u8, 63u8],
    };
    let l = match decode_spec(b) {
        Some(i) => inst_len(i) as nat,
        None => 1,
    };
    hex4_bytes(pos % 65536) + seq![32u8, 32u8] + name + operand_hexes(ram, pos + 1, (l - 1) as nat)
        + seq![10u8]
}

/// The disassembly listing of memory from `pos` on, one line per decoded
/// instruction. A byte that encodes nothing is listed as `??` and skipped
/// one byte at a time.
pub open spec fn disasm_from(ram: Seq<u8>, pos: nat) -> Seq<u8>
    decreases ram.len() - pos,
{
    if pos >= ram.len() {
        Seq::empty()
    } else {
        let l = match decode_spec(ram[pos as int]) {
            Some(i) => inst_len(i) as nat,
            None => 1,
        };
        let next = if pos + l <= ram.len() {
            pos + l
        } else {
            ram.len()
        };
        disasm_line(ram, pos) + disasm_from(ram, next)
    }
}

/// The register block of the state dump, from register `i` on: one line per
/// register with its decimal and hexadecimal value.
pub open spec fn reg_lines(regs: Seq<u16>, i: nat) -> Seq<u8>
    decreases 16 - i,
{
    if i >= 16 {
        Seq::empty()
    } else {
        seq![10u8, 32, 32, 32, 32] + dec_pad4_bytes(regs[i as int] as nat) + seq![32u8, 40, 48, 120]
            + hex4_bytes(regs[i as int] as nat) + seq![41u8] + reg_lines(regs, i + 1)
    }
}

/// The full machine-state dump that an unrecognized debug mode prints: the
/// program counter, the disassembled memory and all sixteen registers.
pub open spec fn dump_bytes(s: MachineState) -> Seq<u8> {
    seq![123u8] + seq![10u8, 32, 32, 112, 99, 58, 32] + dec_bytes(s.pc as nat) + seq![
        10u8,
        32,
        32,
        114,
        97,
        109,
        58,
        32,
        91,
        10,
    ] + disasm_from(s.ram, 0) + seq![32u8, 32, 93] + seq![
        10u8,
        32,
        32,
        114,
        101,
        103,
        105,
        115,
        116,
        101,
        114,
        115,
        58,
        32,
        91,
    ] + reg_lines(s.regs, 0) + seq![10u8, 32, 32, 93] + seq![10u8, 125]
}

/// What the debug instruction prints for a register value `v` in rendering
/// mode `m`: modes 0 to 4 end with a line break, modes 10 to 14 do not.
pub open spec fn debug_render(v: u16, m: u8) -> Seq<u8> {
    if m == 0 {
        dec_bytes(v as nat) + seq![10u8]
    } else if m == 1 {
        hex_bytes_lower(v as nat) + seq![10u8]
    } else if m == 2 {
        dec5_bytes(v as nat) + seq![10u8]
    } else if m == 3 {
        hex4_bytes(v as nat) + seq![10u8]
    } else if m == 4 {
        seq![48u8, 120] + hex4_bytes(v as nat) + seq![10u8]
    } else if m == 10 {
        dec_bytes(v as nat)
    } else if m == 11 {
        hex_bytes_lower(v as nat)
    } else if m == 12 {
        dec5_bytes(v as nat)
    } else if m == 13 {
        hex4_bytes(v as nat)
    } else if m == 14 {
        seq![48u8, 120] + hex4_bytes(v as nat)
    } else {
        Seq::empty()
    }
}

/// Whether debug mode `m` renders a register value (as opposed to dumping
/// the whole machine state).
pub open spec fn is_render_mode(m: u8) -> bool {
    m <= 4 || (10 <= m && m <= 14)
}

/// The effect of the conditional-skip markers when the flag says to skip:
/// peek at the next opcode byte and advance the counter past that whole
/// instruction without executing it.
pub open spec fn skip_next(s: MachineState) -> Transition {
    if s.pc as int >= s.ram.len() {
        Transition::Abort(Fault::OutOfBoundsMemory)
    } else {
        match decode_spec(s.ram[s.pc as int]) {
            None => Transition::Abort(Fault::InvalidOpcode),
            Some(i) => Transition::Step(
                MachineState { pc: wrap16(s.pc + inst_len(i)), ..s },
            ),
        }
    }
}

/// Forward jump: the operand byte is the unsigned distance from the jump
/// instruction's own offset, so the counter lands at the operand's address
/// plus the distance less one — exactly the resolved target the assembler
/// encoded.
pub open spec fn spec_jump_fw(s: MachineState) -> Transition {
    if s.pc as int >= s.ram.len() {
        Transition::Abort(Fault::OutOfBoundsMemory)
    } else {
        let d = s.ram[s.pc as int];
        Transition::Step(MachineState { pc: wrap16(s.pc + d - 1), ..s })
    }
}

/// Backward jump: the operand byte is reinterpreted as a signed
/// displacement and applied from the operand's own address less one.
pub open spec fn spec_jump_bw(s: MachineState) -> Transition {
    if s.pc as int >= s.ram.len() {
        Transition::Abort(Fault::OutOfBoundsMemory)
    } else {
        let d = s.ram[s.pc as int];
        Transition::Step(MachineState { pc: wrap16(s.pc + signed8(d) - 1), ..s })
    }
}

/// Narrow immediate load; a write to register 0 is discarded.
pub open spec fn spec_set_byte(s: MachineState) -> Transition {
    if s.pc as int + 1 >= s.ram.len() {
        Transition::Abort(Fault::OutOfBoundsMemory)
    } else {
        let r = s.ram[s.pc as int];
        let v = s.ram[s.pc as int + 1];
        if r == 0 {
            Transition::Step(MachineState { pc: wrap16(s.pc + 2), ..s })
        } else if r as int >= s.regs.len() {
            Transition::Abort(Fault::OutOfBoundsRegister)
        } else {
            Transition::Step(
                MachineState { regs: s.regs.update(r as int, v as u16), pc: wrap16(s.pc + 2), ..s },
            )
        }
    }
}

/// Wide immediate load, big-endian; a write to register 0 is discarded.
pub open spec fn spec_set_short(s: MachineState) -> Transition {
    if s.pc as int + 2 >= s.ram.len() {
        Transition::Abort(Fault::OutOfBoundsMemory)
    } else {
        let r = s.ram[s.pc as int];
        let hi = s.ram[s.pc as int + 1];
        let lo = s.ram[s.pc as int + 2];
        if r == 0 {
            Transition::Step(MachineState { pc: wrap16(s.pc + 3), ..s })
        } else if r as int >= s.regs.len() {
            Transition::Abort(Fault::OutOfBoundsRegister)
        } else {
            Transition::Step(
                MachineState {
                    regs: s.regs.update(r as int, (hi as int * 256 + lo as int) as u16),
                    pc: wrap16(s.pc + 3),
                    ..s
                },
            )
        }
    }
}

/// Push: the stack pointer moves down by two and the source register's
/// value (the moved pointer itself, when the source is register 15) is
/// stored at the new position, high byte first.
pub open spec fn spec_push(s: MachineState) -> Transition {
    if s.pc as int >= s.ram.len() {
        Transition::Abort(Fault::OutOfBoundsMemory)
    } else {
        let r = s.ram[s.pc as int];
        let sp_new = wrap16(s.regs[15] - 2);
        if r as int >= s.regs.len() {
            Transition::Abort(Fault::OutOfBoundsRegister)
        } else if sp_new as int + 1 >= s.ram.len() {
            Transition::Abort(Fault::OutOfBoundsMemory)
        } else {
            let regs2 = s.regs.update(15, sp_new);
            let v = regs2[r as int];
            Transition::Step(
                MachineState {
                    regs: regs2,
                    ram: s.ram.update(sp_new as int, (v / 256) as u8).update(
                        sp_new as int + 1,
                        (v % 256) as u8,
                    ),
                    pc: wrap16(s.pc + 1),
                    ..s
                },
            )
        }
    }
}

/// Pop: two bytes at the current stack pointer into the destination
/// register (discarded for register 0, without touching memory), then the
/// pointer moves up by two.
pub open spec fn spec_pop(s: MachineState) -> Transition {
    if s.pc as int >= s.ram.len() {
        Transition::Abort(Fault::OutOfBoundsMemory)
    } else {
        let r = s.ram[s.pc as int];
        if r == 0 {
            Transition::Step(
                MachineState {
                    regs: s.regs.update(15, wrap16(s.regs[15] + 2)),
                    pc: wrap16(s.pc + 1),
                    ..s
                },
            )
        } else {
            let sp = s.regs[15];
            if sp as int + 1 >= s.ram.len() {
                Transition::Abort(Fault::OutOfBoundsMemory)
            } else if r as int >= s.regs.len() {
                Transition::Abort(Fault::OutOfBoundsRegister)
            } else {
                let v = (s.ram[sp as int] as int * 256 + s.ram[sp as int + 1] as int) as u16;
                let regs2 = s.regs.update(r as int, v);
                Transition::Step(
                    MachineState {
                        regs: regs2.update(15, wrap16(regs2[15] + 2)),
                        pc: wrap16(s.pc + 1),
                        ..s
                    },
                )
            }
        }
    }
}

/// Negate, two's-complement; a write to register 0 is discarded.
pub open spec fn spec_neg(s: MachineState) -> Transition {
    if s.pc as int >= s.ram.len() {
        Transition::Abort(Fault::OutOfBoundsMemory)
    } else {
        let r = s.ram[s.pc as int];
        if r == 0 {
            Transition::Step(MachineState { pc: wrap16(s.pc + 1), ..s })
        } else if r as int >= s.regs.len() {
            Transition::Abort(Fault::OutOfBoundsRegister)
        } else {
            Transition::Step(
                MachineState {
                    regs: s.regs.update(r as int, wrap16(-signed16(s.regs[r as int]))),
                    pc: wrap16(s.pc + 1),
                    ..s
                },
            )
        }
    }
}

/// Return: the saved big-endian address at the stack pointer goes into the
/// scratch register 14 and becomes the counter; the pointer moves up by
/// two.
pub open spec fn spec_return(s: MachineState) -> Transition {
    let sp = s.regs[15];
    if sp as int + 1 >= s.ram.len() {
        Transition::Abort(Fault::OutOfBoundsMemory)
    } else {
        let v = (s.ram[sp as int] as int * 256 + s.ram[sp as int + 1] as int) as u16;
        Transition::Step(
            MachineState { regs: s.regs.update(14, v).update(15, wrap16(sp + 2)), pc: v, ..s },
        )
    }
}

/// Call: the absolute big-endian target follows the opcode; the address
/// after the operands is pushed with the same encoding as push, and the
/// counter jumps to the target.
pub open spec fn spec_call(s: MachineState) -> Transition {
    if s.pc as int + 1 >= s.ram.len() {
        Transition::Abort(Fault::OutOfBoundsMemory)
    } else {
        let hi = s.ram[s.pc as int];
        let lo = s.ram[s.pc as int + 1];
        let ret = wrap16(s.pc + 2);
        let sp_new = wrap16(s.regs[15] - 2);
        if sp_new as int + 1 >= s.ram.len() {
            Transition::Abort(Fault::OutOfBoundsMemory)
        } else {
            Transition::Step(
                MachineState {
                    regs: s.regs.update(15, sp_new),
                    ram: s.ram.update(sp_new as int, (ret / 256) as u8).update(
                        sp_new as int + 1,
                        (ret % 256) as u8,
                    ),
                    pc: (hi as int * 256 + lo as int) as u16,
                    ..s
                },
            )
        }
    }
}

/// Debug print: appends the selected rendering of a register, or the whole
/// state dump for an unrecognized mode, to the machine's output.
pub open spec fn spec_debug(s: MachineState) -> Transition {
    if s.pc as int + 1 >= s.ram.len() {
        Transition::Abort(Fault::OutOfBoundsMemory)
    } else {
        let a = s.ram[s.pc as int];
        let m = s.ram[s.pc as int + 1];
        if is_render_mode(m) {
            if a as int >= s.regs.len() {
                Transition::Abort(Fault::OutOfBoundsRegister)
            } else {
                Transition::Step(
                    MachineState {
                        out: s.out + debug_render(s.regs[a as int], m),
                        pc: wrap16(s.pc + 2),
                        ..s
                    },
                )
            }
        } else {
            Transition::Step(
                MachineState { out: s.out + dump_bytes(s), pc: wrap16(s.pc + 2), ..s },
            )
        }
    }
}

/// The effect of instruction `i` on state `s`, where `s.pc` already points
/// at the first operand byte (the opcode byte has been fetched).
#[verifier::opaque]
pub open spec fn step_inst(s: MachineState, i: Inst) -> Transition {
    match i {
        Inst::Nop => Transition::Step(s),
        Inst::Exit => Transition::Halt(s),
        Inst::JumpFw => spec_jump_fw(s),
        Inst::JumpBw => spec_jump_bw(s),
        Inst::Then => if !s.flag {
            skip_next(s)
        } else {
            Transition::Step(s)
        },
        Inst::Otherwise => if s.flag {
            skip_next(s)
        } else {
            Transition::Step(s)
        },
        Inst::SetByte => spec_set_byte(s),
        Inst::SetShort => spec_set_short(s),
        Inst::Push => spec_push(s),
        Inst::Pop => spec_pop(s),
        Inst::Add => spec_binary_arith(s, |x: u16, y: u16| wrap16(x + y)),
        Inst::Sub => spec_binary_arith(s, |x: u16, y: u16| wrap16(x - y)),
        Inst::Mul => spec_binary_arith(s, |x: u16, y: u16| wrap16(x * y)),
        Inst::Div => spec_guarded_arith(
            s,
            |x: u16, y: u16| wrap16(truncated_div(signed16(x), signed16(y))),
        ),
        Inst::Mod => spec_guarded_arith(
            s,
            |x: u16, y: u16| wrap16(truncated_rem(signed16(x), signed16(y))),
        ),
        Inst::Neg => spec_neg(s),
        Inst::GreaterThan => spec_compare(s, |x: u16, y: u16| signed16(x) > signed16(y)),
        Inst::LessThan => spec_compare(s, |x: u16, y: u16| signed16(x) < signed16(y)),
        Inst::GreaterEqual => spec_compare(s, |x: u16, y: u16| signed16(x) >= signed16(y)),
        Inst::LessEqual => spec_compare(s, |x: u16, y: u16| signed16(x) <= signed16(y)),
        Inst::Equal => spec_compare(s, |x: u16, y: u16| x == y),
        Inst::NotEqual => spec_compare(s, |x: u16, y: u16| x != y),
        Inst::Return => spec_return(s),
        Inst::Call => spec_call(s),
        Inst::Mov => spec_binary_arith(s, |x: u16, y: u16| y),
        Inst::Debug => spec_debug(s),
    }
}

/// The shared shape of add, subtract, multiply and move: two register
/// operands, the write skipped entirely (operands unchecked) when the
/// destination is register 0.
pub open spec fn spec_binary_arith(s: MachineState, f: spec_fn(u16, u16) -> u16) -> Transition {
    if s.pc as int + 1 >= s.ram.len() {
        Transition::Abort(Fault::OutOfBoundsMemory)
    } else {
        let a = s.ram[s.pc as int];
        let b = s.ram[s.pc as int + 1];
        if a == 0 {
            Transition::Step(MachineState { pc: wrap16(s.pc + 2), ..s })
        } else if a as int >= s.regs.len() || b as int >= s.regs.len() {
            Transition::Abort(Fault::OutOfBoundsRegister)
        } else {
            Transition::Step(
                MachineState {
                    regs: s.regs.update(a as int, f(s.regs[a as int], s.regs[b as int])),
                    pc: wrap16(s.pc + 2),
                    ..s
                },
            )
        }
    }
}

/// The shared shape of divide and modulo: the divisor register is read
/// first, and a zero divisor leaves the destination untouched (a defined
/// no-op, not a fault).
pub open spec fn spec_guarded_arith(s: MachineState, f: spec_fn(u16, u16) -> u16) -> Transition {
    if s.pc as int + 1 >= s.ram.len() {
        Transition::Abort(Fault::OutOfBoundsMemory)
    } else {
        let a = s.ram[s.pc as int];
        let b = s.ram[s.pc as int + 1];
        if b as int >= s.regs.len() {
            Transition::Abort(Fault::OutOfBoundsRegister)
        } else if s.regs[b as int] != 0 && a != 0 {
            if a as int >= s.regs.len() {
                Transition::Abort(Fault::OutOfBoundsRegister)
            } else {
                Transition::Step(
                    MachineState {
                        regs: s.regs.update(a as int, f(s.regs[a as int], s.regs[b as int])),
                        pc: wrap16(s.pc + 2),
                        ..s
                    },
                )
            }
        } else {
            Transition::Step(MachineState { pc: wrap16(s.pc + 2), ..s })
        }
    }
}

/// The shared shape of the six comparisons: both registers are read, the
/// flag is set, no register is written.
pub open spec fn spec_compare(s: MachineState, f: spec_fn(u16, u16) -> bool) -> Transition {
    if s.pc as int + 1 >= s.ram.len() {
        Transition::Abort(Fault::OutOfBoundsMemory)
    } else {
        let a = s.ram[s.pc as int];
        let b = s.ram[s.pc as int + 1];
        if a as int >= s.regs.len() || b as int >= s.regs.len() {
            Transition::Abort(Fault::OutOfBoundsRegister)
        } else {
            Transition::Step(
                MachineState {
                    flag: f(s.regs[a as int], s.regs[b as int]),
                    pc: wrap16(s.pc + 2),
                    ..s
                },
            )
        }
    }
}

/// One abstract machine step: fetch the opcode byte at the program counter,
/// advance past it, and apply the instruction's effect.
pub open spec fn step_spec(s: MachineState) -> Transition {
    if s.pc as int >= s.ram.len() {
        Transition::Abort(Fault::OutOfBoundsMemory)
    } else {
        match decode_spec(s.ram[s.pc as int]) {
            None => Transition::Abort(Fault::InvalidOpcode),
            Some(i) => step_inst(MachineState { pc: wrap16(s.pc + 1), ..s }, i),
        }
    }
}

/// The machine's status after at most `n` steps from `s`: still running in
/// some state, halted in some state, or aborted by a fault. Halting and
/// aborting are absorbing.
pub open spec fn advance(s: MachineState, n: nat) -> Transition
    decreases n,
{
    if n == 0 {
        Transition::Step(s)
    } else {
        match step_spec(s) {
            Transition::Step(s2) => advance(s2, (n - 1) as nat),
            t => t,
        }
    }
}

/// Extending a run by one step applies [`step_spec`] to the state reached so
/// far.
pub proof fn lemma_advance_extend(s0: MachineState, t: MachineState, n: nat)
    requires
        advance(s0, n) == Transition::Step(t),
    ensures
        advance(s0, n + 1) == step_spec(t),
    decreases n,
{
    if n == 0 {
        assert(t == s0);
        match step_spec(s0) {
            Transition::Step(s2) => {
                assert(advance(s2, 0) == Transition::Step(s2));
            },
            _ => {},
        }
    } else {
        match step_spec(s0) {
            Transition::Step(s2) => {
                lemma_advance_extend(s2, t, (n - 1) as nat);
                assert(advance(s0, n + 1) == advance(s2, n as nat));
            },
            _ => {},
        }
    }
}

/// The virtual machine: sixteen 16-bit registers, 1024 bytes of memory
/// shared by code and stack, a program counter and the condition flag, plus
/// the bytes that the debug instruction has printed.
pub struct VM {
    registers: [u16; 16],
    ram: [u8; 1024],
    pc: u16,
    skip_flag: bool,
    output: Vec<u8>,
}

impl View for VM {
    type V = MachineState;

    closed spec fn view(&self) -> MachineState {
        MachineState {
            regs: self.registers@,
            ram: self.ram@,
            pc: self.pc,
            flag: self.skip_flag,
            out: self.output@,
        }
    }
}

/// Appends the disassembly listing of `ram` from `pos` on.
fn push_disasm(out: &mut Vec<u8>, ram: &[u8; 1024], pos: usize)
    requires
        pos <= 1024,
    ensures
        final(out)@ == old(out)@ + disasm_from(ram@, pos as nat),
    decreases 1024 - pos,
{
    if pos < 1024 {
        let b = ram[pos];
        push_hex4(out, pos as u16);
        out.push(32);
        out.push(32);
        let l: u16 = match decode(b) {
            Some(i) => {
                push_inst_name(out, i);
                instruction_len(i)
            },
            None => {
                out.push(63);
                out.push(63);
                1
            },
        };
        push_operand_hexes(out, ram, pos + 1, l - 1);
        out.push(10);
        assert(out@ =~= old(out)@ + disasm_line(ram@, pos as nat));
        let next = if pos + (l as usize) <= 1024 {
            pos + l as usize
        } else {
            1024
        };
        push_disasm(out, ram, next);
        assert(out@ =~= old(out)@ + disasm_from(ram@, pos as nat));
    }
}

/// Appends up to `k` operand bytes from `ram` starting at `pos`, each as a
/// space and two hexadecimal digits.
fn push_operand_hexes(out: &mut Vec<u8>, ram: &[u8; 1024], pos: usize, k: u16)
    ensures
        final(out)@ == old(out)@ + operand_hexes(ram@, pos as nat, k as nat),
    decreases k,
{
    if k == 0 {
    } else if pos >= 1024 {
    } else {
        out.push(32);
        push_hex2(out, ram[pos]);
        push_operand_hexes(out, ram, pos + 1, k - 1);
        assert(out@ =~= old(out)@ + operand_hexes(ram@, pos as nat, k as nat));
    }
}

/// Appends the name of an instruction as the disassembly prints it.
fn push_inst_name(out: &mut Vec<u8>, i: Inst)
    ensures
        final(out)@ == old(out)@ + inst_name(i),
{
    match i {
        Inst::Nop => {
            out.push(78);
            out.push(111);
            out.push(112);
        },
        Inst::Exit => {
            out.push(69);
            out.push(120);
            out.push(105);
            out.push(116);
        },
        Inst::JumpFw => {
            out.push(74);
            out.push(117);
            out.push(109);
            out.push(112);
            out.push(70);
            out.push(119);
        },
        Inst::JumpBw => {
            out.push(74);
            out.push(117);
            out.push(109);
            out.push(112);
            out.push(66);
            out.push(119);
        },
        Inst::Then => {
            out.push(84);
            out.push(104);
            out.push(101);
            out.push(110);
        },
        Inst::Otherwise => {
            out.push(79);
            out.push(116);
            out.push(104);
            out.push(101);
            out.push(114);
            out.push(119);
            out.push(105);
            out.push(115);
            out.push(101);
        },
        Inst::SetByte => {
            out.push(83);
            out.push(101);
            out.push(116);
            out.push(66);
            out.push(121);
            out.push(116);
            out.push(101);
        },
        Inst::SetShort => {
            out.push(83);
            out.push(101);
            out.push(116);
            out.push(83);
            out.push(104);
            out.push(111);
            out.push(114);
            out.push(116);
        },
        Inst::Push => {
            out.push(80);
            out.push(117);
            out.push(115);
            out.push(104);
        },
        Inst::Pop => {
            out.push(80);
            out.push(111);
            out.push(112);
        },
        Inst::Add => {
            out.push(65);
            out.push(100);
            out.push(100);
        },
        Inst::Sub => {
            out.push(83);
            out.push(117);
            out.push(98);
        },
        Inst::Mul => {
            out.push(77);
            out.push(117);
            out.push(108);
        },
        Inst::Div => {
            out.push(68);
            out.push(105);
            out.push(118);
        },
        Inst::Mod => {
            out.push(77);
            out.push(111);
            out.push(100);
        },
        Inst::Neg => {
            out.push(78);
            out.push(101);
            out.push(103);
        },
        Inst::GreaterThan => {
            out.push(71);
            out.push(114);
            out.push(101);
            out.push(97);
            out.push(116);
            out.push(101);
            out.push(114);
            out.push(84);
            out.push(104);
            out.push(97);
            out.push(110);
        },
        Inst::LessThan => {
            out.push(76);
            out.push(101);
            out.push(115);
            out.push(115);
            out.push(84);
            out.push(104);
            out.push(97);
            out.push(110);
        },
        Inst::GreaterEqual => {
            out.push(71);
            out.push(114);
            out.push(101);
            out.push(97);
            out.push(116);
            out.push(101);
            out.push(114);
            out.push(69);
            out.push(113);
            out.push(117);
            out.push(97);
            out.push(108);
        },
        Inst::LessEqual => {
            out.push(76);
            out.push(101);
            out.push(115);
            out.push(115);
            out.push(69);
            out.push(113);
            out.push(117);
            out.push(97);
            out.push(108);
        },
        Inst::Equal => {
            out.push(69);
            out.push(113);
            out.push(117);
            out.push(97);
            out.push(108);
        },
        Inst::NotEqual => {
            out.push(78);
            out.push(111);
            out.push(116);
            out.push(69);
            out.push(113);
            out.push(117);
            out.push(97);
            out.push(108);
        },
        Inst::Return => {
            out.push(82);
            out.push(101);
            out.push(116);
            out.push(117);
            out.push(114);
            out.push(110);
        },
        Inst::Call => {
            out.push(67);
            out.push(97);
            out.push(108);
            out.push(108);
        },
        Inst::Mov => {
            out.push(77);
            out.push(111);
            out.push(118);
        },
        Inst::Debug => {
            out.push(68);
            out.push(101);
            out.push(98);
            out.push(117);
            out.push(103);
        },
    }
    assert(out@ =~= old(out)@ + inst_name(i));
}

/// Appends the register block of the state dump from register `i` on.
fn push_reg_lines(out: &mut Vec<u8>, regs: &[u16; 16], i: usize)
    requires
        i <= 16,
    ensures
        final(out)@ == old(out)@ + reg_lines(regs@, i as nat),
    decreases 16 - i,
{
    if i < 16 {
        out.push(10);
        out.push(32);
        out.push(32);
        out.push(32);
        out.push(32);
        push_dec_pad4(out, regs[i]);
        out.push(32);
        out.push(40);
        out.push(48);
        out.push(120);
        push_hex4(out, regs[i]);
        out.push(41);
        push_reg_lines(out, regs, i + 1);
        assert(out@ =~= old(out)@ + reg_lines(regs@, i as nat));
    }
}

/// Whether `x` is smaller than `y` when both are read as signed 16-bit
/// values.
fn signed_less(x: u16, y: u16) -> (r: bool)
    ensures
        r == (signed16(x) < signed16(y)),
{
    if (x >= 32768) == (y >= 32768) {
        x < y
    } else {
        x >= 32768
    }
}

/// The magnitude of the signed value of `x`.
fn signed_magnitude(x: u16) -> (r: u32)
    ensures
        r == abs_val(signed16(x)),
{
    if x >= 32768 {
        65536 - x as u32
    } else {
        x as u32
    }
}

/// For a non-negative dividend and positive divisor, the quotient lies
/// between zero and the dividend.
proof fn lemma_div_bounded(a: int, b: int)
    requires
        a >= 0,
        b >= 1,
    ensures
        0 <= a / b <= a,
{
    vstd::arithmetic::div_mod::lemma_div_basics_4(a, b);
    vstd::arithmetic::div_mod::lemma_div_basics_5(a, b);
}

/// The 16-bit word holding `-q` in two's complement, for a magnitude `q` of
/// at most 32768.
fn negated_word(q: u32) -> (r: u16)
    requires
        q <= 32768,
    ensures
        r == wrap16(-(q as int)),
{
    proof {
        if q == 0 {
            lemma_wrap16_small(0);
        } else {
            lemma_wrap16_shift(-(q as int), 1);
            lemma_wrap16_small(65536 - q as int);
        }
    }
    if q == 0 {
        0
    } else {
        (65536 - q) as u16
    }
}

impl VM {
    /// A machine with all registers and memory zeroed, the counter at zero
    /// and the flag clear. The stack pointer is not set up until
    /// [`VM::reset`].
    pub fn new() -> (r: VM)
        ensures
            r@ == init_state(),
    {
        let vm = VM {
            registers: [0u16; 16],
            ram: [0u8; 1024],
            pc: 0,
            skip_flag: false,
            output: Vec::new(),
        };
        proof {
            assert(vm@.regs =~= init_state().regs);
            assert(vm@.ram =~= init_state().ram);
            assert(vm@.out =~= init_state().out);
            assert(vm@ =~= init_state());
        }
        vm
    }

    /// Points the stack pointer at the top of memory (its size less two) and
    /// the program counter at address zero, ready to run a loaded program.
    pub fn reset(&mut self)
        ensures
            final(self)@ == (MachineState {
                regs: old(self)@.regs.update(15, 1022u16),
                pc: 0,
                ..old(self)@
            }),
    {
        self.registers[15] = 1022;
        self.pc = 0;
    }

    /// Loads one program byte at the program counter and advances the
    /// counter, the loader's way of streaming an assembled image into memory
    /// from address zero.
    pub fn set(&mut self, i: u8)
        requires
            old(self)@.pc < 1024,
        ensures
            final(self)@ == (MachineState {
                ram: old(self)@.ram.update(old(self)@.pc as int, i),
                pc: (old(self)@.pc + 1) as u16,
                ..old(self)@
            }),
    {
        self.ram[self.pc as usize] = i;
        self.pc = self.pc + 1;
    }

    /// Streams a whole program image into memory at the program counter,
    /// leaving the counter just past it: the loader's one call for an
    /// assembled image, equivalent to [`VM::set`] byte by byte.
    pub fn load(&mut self, image: &Vec<u8>)
        requires
            old(self)@.pc as int + image@.len() <= 1024,
        ensures
            final(self)@ == (MachineState {
                ram: store_bytes(old(self)@.ram, old(self)@.pc as int, image@),
                pc: (old(self)@.pc + image@.len()) as u16,
                ..old(self)@
            }),
    {
        let mut k: usize = 0;
        let n = image.len();
        while k < n
            invariant
                k <= n,
                n == image@.len(),
                old(self)@.pc as int + n <= 1024,
                self@ == (MachineState {
                    ram: store_bytes(old(self)@.ram, old(self)@.pc as int, image@.take(k as int)),
                    pc: (old(self)@.pc + k) as u16,
                    ..old(self)@
                }),
            decreases n - k,
        {
            self.set(image[k]);
            k = k + 1;
            proof {
                assert(self@.ram =~= store_bytes(
                    old(self)@.ram,
                    old(self)@.pc as int,
                    image@.take(k as int),
                ));
                assert(self@ =~= (MachineState {
                    ram: store_bytes(old(self)@.ram, old(self)@.pc as int, image@.take(k as int)),
                    pc: (old(self)@.pc + k) as u16,
                    ..old(self)@
                }));
            }
        }
        proof {
            assert(image@.take(n as int) =~= image@);
        }
    }

    /// Everything the debug instruction has printed so far.
    pub fn output(&self) -> (r: &Vec<u8>)
        ensures
            r@ == self@.out,
    {
        &self.output
    }

    /// The value a register holds.
    pub fn register(&self, i: usize) -> (r: u16)
        requires
            i < 16,
        ensures
            r == self@.regs[i as int],
    {
        self.registers[i]
    }

    /// The current program counter.
    pub fn program_counter(&self) -> (r: u16)
        ensures
            r == self@.pc,
    {
        self.pc
    }

    /// The condition flag the last comparison left.
    pub fn flag(&self) -> (r: bool)
        ensures
            r == self@.flag,
    {
        self.skip_flag
    }

    /// The disassembly listing of the whole memory, one line per decoded
    /// instruction.
    pub fn disassembly(&self) -> (r: Vec<u8>)
        ensures
            r@ == disasm_from(self@.ram, 0),
    {
        let mut out: Vec<u8> = Vec::new();
        push_disasm(&mut out, &self.ram, 0);
        out
    }

    /// The full state dump that an unrecognized debug mode prints.
    #[verifier::rlimit(100)]
    pub fn render_state(&self) -> (r: Vec<u8>)
        ensures
            r@ == dump_bytes(self@),
    {
        let mut out: Vec<u8> = Vec::new();
        out.push(123);
        out.push(10);
        out.push(32);
        out.push(32);
        out.push(112);
        out.push(99);
        out.push(58);
        out.push(32);
        let ghost t1 = seq![123u8] + seq![10u8, 32, 32, 112, 99, 58, 32];
        assert(out@ =~= t1);
        push_dec(&mut out, self.pc);
        let ghost t2 = t1 + dec_bytes(self.pc as nat);
        out.push(10);
        out.push(32);
        out.push(32);
        out.push(114);
        out.push(97);
        out.push(109);
        out.push(58);
        out.push(32);
        out.push(91);
        out.push(10);
        let ghost t3 = t2 + seq![10u8, 32, 32, 114, 97, 109, 58, 32, 91, 10];
        assert(out@ =~= t3);
        push_disasm(&mut out, &self.ram, 0);
        let ghost t4 = t3 + disasm_from(self@.ram, 0);
        out.push(32);
        out.push(32);
        out.push(93);
        let ghost t5 = t4 + seq![32u8, 32, 93];
        assert(out@ =~= t5);
        out.push(10);
        out.push(32);
        out.push(32);
        out.push(114);
        out.push(101);
        out.push(103);
        out.push(105);
        out.push(115);
        out.push(116);
        out.push(101);
        out.push(114);
        out.push(115);
        out.push(58);
        out.push(32);
        out.push(91);
        let ghost t6 = t5 + seq![10u8, 32, 32, 114, 101, 103, 105, 115, 116, 101, 114, 115, 58, 32, 91];
        assert(out@ =~= t6);
        push_reg_lines(&mut out, &self.registers, 0);
        let ghost t7 = t6 + reg_lines(self@.regs, 0);
        out.push(10);
        out.push(32);
        out.push(32);
        out.push(93);
        let ghost t8 = t7 + seq![10u8, 32, 32, 93];
        assert(out@ =~= t8);
        out.push(10);
        out.push(125);
        assert(out@ =~= t8 + seq![10u8, 125]);
        assert(out@ == dump_bytes(self@));
        out
    }

    /// Executes the one instruction at the program counter. On a fault the
    /// state is left as it was before the instruction.
    pub fn step(&mut self) -> (r: StepOutcome)
        ensures
            (match step_spec(old(self)@) {
                Transition::Step(s2) => r == StepOutcome::Continue && final(self)@ == s2,
                Transition::Halt(s2) => r == StepOutcome::Halted && final(self)@ == s2,
                Transition::Abort(f) => r == StepOutcome::Faulted(f) && final(self)@ == old(
                    self,
                )@,
            }),
    {
        let pc0 = self.pc;
        if pc0 >= 1024 {
            return StepOutcome::Faulted(Fault::OutOfBoundsMemory);
        }
        let op = self.ram[pc0 as usize];
        let inst = match decode(op) {
            Some(i) => i,
            None => {
                return StepOutcome::Faulted(Fault::InvalidOpcode);
            },
        };
        self.pc = pc0 + 1;
        proof {
            assert(self@ =~= (MachineState { pc: wrap16(old(self)@.pc + 1), ..old(self)@ }));
        }
        let outcome = match inst {
            Inst::Nop => self.op_nop(),
            Inst::Exit => self.op_exit(),
            Inst::JumpFw => self.op_jump_fw(),
            Inst::JumpBw => self.op_jump_bw(),
            Inst::Then => self.op_then(),
            Inst::Otherwise => self.op_otherwise(),
            Inst::SetByte => self.op_set_byte(),
            Inst::SetShort => self.op_set_short(),
            Inst::Push => self.op_push(),
            Inst::Pop => self.op_pop(),
            Inst::Add => self.op_add(),
            Inst::Sub => self.op_sub(),
            Inst::Mul => self.op_mul(),
            Inst::Div => self.op_div(),
            Inst::Mod => self.op_mod(),
            Inst::Neg => self.op_neg(),
            Inst::GreaterThan => self.op_greater_than(),
            Inst::LessThan => self.op_less_than(),
            Inst::GreaterEqual => self.op_greater_equal(),
            Inst::LessEqual => self.op_less_equal(),
            Inst::Equal => self.op_equal(),
            Inst::NotEqual => self.op_not_equal(),
            Inst::Return => self.op_return(),
            Inst::Call => self.op_call(),
            Inst::Mov => self.op_mov(),
            Inst::Debug => self.op_debug(),
        };
        match outcome {
            StepOutcome::Faulted(f) => {
                self.pc = pc0;
                proof {
                    assert(self@ =~= old(self)@);
                }
                StepOutcome::Faulted(f)
            },
            other => other,
        }
    }

    /// The no-operation instruction.
    fn op_nop(&mut self) -> (r: StepOutcome)
        ensures
            (match step_inst(old(self)@, Inst::Nop) {
                Transition::Step(s2) => r == StepOutcome::Continue && final(self)@ == s2,
                Transition::Halt(s2) => r == StepOutcome::Halted && final(self)@ == s2,
                Transition::Abort(f) => r == StepOutcome::Faulted(f) && final(self)@ == old(
                    self,
                )@,
            }),
    {
        proof {
            reveal(step_inst);
        }
        StepOutcome::Continue
    }

    /// The exit instruction: the terminal state of a run.
    fn op_exit(&mut self) -> (r: StepOutcome)
        ensures
            (match step_inst(old(self)@, Inst::Exit) {
                Transition::Step(s2) => r == StepOutcome::Continue && final(self)@ == s2,
                Transition::Halt(s2) => r == StepOutcome::Halted && final(self)@ == s2,
                Transition::Abort(f) => r == StepOutcome::Faulted(f) && final(self)@ == old(
                    self,
                )@,
            }),
    {
        proof {
            reveal(step_inst);
        }
        StepOutcome::Halted
    }

    /// Forward jump: the operand byte, an unsigned distance counted from
    /// the jump's own offset, lands the counter on the encoded target.
    fn op_jump_fw(&mut self) -> (r: StepOutcome)
        ensures
            (match step_inst(old(self)@, Inst::JumpFw) {
                Transition::Step(s2) => r == StepOutcome::Continue && final(self)@ == s2,
                Transition::Halt(s2) => r == StepOutcome::Halted && final(self)@ == s2,
                Transition::Abort(f) => r == StepOutcome::Faulted(f) && final(self)@ == old(
                    self,
                )@,
            }),
    {
        proof {
            reveal(step_inst);
        }
        let p = self.pc;
        if p >= 1024 {
            return StepOutcome::Faulted(Fault::OutOfBoundsMemory);
        }
        let d = self.ram[p as usize];
        let t: u32 = p as u32 + d as u32;
        proof {
            if p as int + d == 0 {
                lemma_wrap16_shift(-1, 1);
                lemma_wrap16_small(65535);
            } else {
                lemma_wrap16_small(p + d - 1);
            }
        }
        self.pc = if t == 0 {
            65535
        } else {
            (t - 1) as u16
        };
        StepOutcome::Continue
    }

    /// Backward jump: the operand byte is reinterpreted as a signed
    /// displacement, applied from the operand's own address less one.
    #[verifier::rlimit(30)]
    fn op_jump_bw(&mut self) -> (r: StepOutcome)
        ensures
            (match step_inst(old(self)@, Inst::JumpBw) {
                Transition::Step(s2) => r == StepOutcome::Continue && final(self)@ == s2,
                Transition::Halt(s2) => r == StepOutcome::Halted && final(self)@ == s2,
                Transition::Abort(f) => r == StepOutcome::Faulted(f) && final(self)@ == old(
                    self,
                )@,
            }),
    {
        proof {
            reveal(step_inst);
        }
        let p = self.pc;
        if p >= 1024 {
            return StepOutcome::Faulted(Fault::OutOfBoundsMemory);
        }
        let d = self.ram[p as usize];
        let delta: u32 = if d < 128 {
            d as u32
        } else {
            d as u32 + 65280
        };
        proof {
            if d < 128 {
                lemma_wrap16_shift(p + signed8(d) - 1, 1);
            } else {
                lemma_wrap16_shift(p + signed8(d) - 1, 2);
            }
        }
        self.pc = ((p as u32 + delta + 65535) % 65536) as u16;
        StepOutcome::Continue
    }

    /// The `then` marker: when the flag is clear, skip the one instruction
    /// that follows, whole.
    fn op_then(&mut self) -> (r: StepOutcome)
        ensures
            (match step_inst(old(self)@, Inst::Then) {
                Transition::Step(s2) => r == StepOutcome::Continue && final(self)@ == s2,
                Transition::Halt(s2) => r == StepOutcome::Halted && final(self)@ == s2,
                Transition::Abort(f) => r == StepOutcome::Faulted(f) && final(self)@ == old(
                    self,
                )@,
            }),
    {
        proof {
            reveal(step_inst);
        }
        if !self.skip_flag {
            let p = self.pc;
            if p >= 1024 {
                return StepOutcome::Faulted(Fault::OutOfBoundsMemory);
            }
            match decode(self.ram[p as usize]) {
                None => {
                    return StepOutcome::Faulted(Fault::InvalidOpcode);
                },
                Some(i2) => {
                    self.pc = p + instruction_len(i2);
                },
            }
        }
        StepOutcome::Continue
    }

    /// The `else` marker: when the flag is set, skip the one instruction
    /// that follows, whole.
    fn op_otherwise(&mut self) -> (r: StepOutcome)
        ensures
            (match step_inst(old(self)@, Inst::Otherwise) {
                Transition::Step(s2) => r == StepOutcome::Continue && final(self)@ == s2,
                Transition::Halt(s2) => r == StepOutcome::Halted && final(self)@ == s2,
                Transition::Abort(f) => r == StepOutcome::Faulted(f) && final(self)@ == old(
                    self,
                )@,
            }),
    {
        proof {
            reveal(step_inst);
        }
        if self.skip_flag {
            let p = self.pc;
            if p >= 1024 {
                return StepOutcome::Faulted(Fault::OutOfBoundsMemory);
            }
            match decode(self.ram[p as usize]) {
                None => {
                    return StepOutcome::Faulted(Fault::InvalidOpcode);
                },
                Some(i2) => {
                    self.pc = p + instruction_len(i2);
                },
            }
        }
        StepOutcome::Continue
    }

    /// Narrow immediate load: one literal byte into a register; a write to
    /// register 0 is discarded.
    fn op_set_byte(&mut self) -> (r: StepOutcome)
        ensures
            (match step_inst(old(self)@, Inst::SetByte) {
                Transition::Step(s2) => r == StepOutcome::Continue && final(self)@ == s2,
                Transition::Halt(s2) => r == StepOutcome::Halted && final(self)@ == s2,
                Transition::Abort(f) => r == StepOutcome::Faulted(f) && final(self)@ == old(
                    self,
                )@,
            }),
    {
        proof {
            reveal(step_inst);
        }
        let p = self.pc;
        let i0 = p as usize;
        if i0 + 1 >= 1024 {
            return StepOutcome::Faulted(Fault::OutOfBoundsMemory);
        }
        let reg = self.ram[i0];
        let v = self.ram[i0 + 1];
        if reg != 0 {
            if reg >= 16 {
                return StepOutcome::Faulted(Fault::OutOfBoundsRegister);
            }
            self.registers[reg as usize] = v as u16;
        }
        self.pc = p + 2;
        StepOutcome::Continue
    }

    /// Wide immediate load: a big-endian 16-bit literal into a register; a
    /// write to register 0 is discarded.
    fn op_set_short(&mut self) -> (r: StepOutcome)
        ensures
            (match step_inst(old(self)@, Inst::SetShort) {
                Transition::Step(s2) => r == StepOutcome::Continue && final(self)@ == s2,
                Transition::Halt(s2) => r == StepOutcome::Halted && final(self)@ == s2,
                Transition::Abort(f) => r == StepOutcome::Faulted(f) && final(self)@ == old(
                    self,
                )@,
            }),
    {
        proof {
            reveal(step_inst);
        }
        let p = self.pc;
        let i0 = p as usize;
        if i0 + 2 >= 1024 {
            return StepOutcome::Faulted(Fault::OutOfBoundsMemory);
        }
        let reg = self.ram[i0];
        let hi = self.ram[i0 + 1];
        let lo = self.ram[i0 + 2];
        if reg != 0 {
            if reg >= 16 {
                return StepOutcome::Faulted(Fault::OutOfBoundsRegister);
            }
            self.registers[reg as usize] = hi as u16 * 256 + lo as u16;
        }
        self.pc = p + 3;
        StepOutcome::Continue
    }

    /// Push: the stack pointer moves down by two, then the source register's
    /// value is stored at the new position, high byte first.
    #[verifier::rlimit(30)]
    fn op_push(&mut self) -> (r: StepOutcome)
        ensures
            (match step_inst(old(self)@, Inst::Push) {
                Transition::Step(s2) => r == StepOutcome::Continue && final(self)@ == s2,
                Transition::Halt(s2) => r == StepOutcome::Halted && final(self)@ == s2,
                Transition::Abort(f) => r == StepOutcome::Faulted(f) && final(self)@ == old(
                    self,
                )@,
            }),
    {
        proof {
            reveal(step_inst);
        }
        let p = self.pc;
        let i0 = p as usize;
        if i0 >= 1024 {
            return StepOutcome::Faulted(Fault::OutOfBoundsMemory);
        }
        let reg = self.ram[i0];
        let sp = self.registers[15];
        let sp_new: u16 = if sp >= 2 {
            sp - 2
        } else {
            sp + 65534
        };
        proof {
            if sp >= 2 {
                lemma_wrap16_small(sp - 2);
            } else {
                lemma_wrap16_shift(sp - 2, 1);
                lemma_wrap16_small(sp + 65534);
            }
        }
        if reg >= 16 {
            return StepOutcome::Faulted(Fault::OutOfBoundsRegister);
        }
        let a0 = sp_new as usize;
        if a0 + 1 >= 1024 {
            return StepOutcome::Faulted(Fault::OutOfBoundsMemory);
        }
        let v: u16 = if reg == 15 {
            sp_new
        } else {
            self.registers[reg as usize]
        };
        self.registers[15] = sp_new;
        self.ram[a0] = (v / 256) as u8;
        self.ram[a0 + 1] = (v % 256) as u8;
        self.pc = p + 1;
        StepOutcome::Continue
    }

    /// Pop: two bytes at the current stack pointer into the destination
    /// register (discarded for register 0), then the pointer moves up by
    /// two.
    #[verifier::rlimit(30)]
    fn op_pop(&mut self) -> (r: StepOutcome)
        ensures
            (match step_inst(old(self)@, Inst::Pop) {
                Transition::Step(s2) => r == StepOutcome::Continue && final(self)@ == s2,
                Transition::Halt(s2) => r == StepOutcome::Halted && final(self)@ == s2,
                Transition::Abort(f) => r == StepOutcome::Faulted(f) && final(self)@ == old(
                    self,
                )@,
            }),
    {
        proof {
            reveal(step_inst);
        }
        let p = self.pc;
        let i0 = p as usize;
        if i0 >= 1024 {
            return StepOutcome::Faulted(Fault::OutOfBoundsMemory);
        }
        let reg = self.ram[i0];
        if reg == 0 {
            let sp = self.registers[15];
            let sp_new: u16 = if sp <= 65533 {
                sp + 2
            } else {
                sp - 65534
            };
            proof {
                if sp <= 65533 {
                    lemma_wrap16_small(sp + 2);
                } else {
                    lemma_wrap16_shift(sp + 2 - 65536, 1);
                    lemma_wrap16_small(sp - 65534);
                }
            }
            self.registers[15] = sp_new;
            self.pc = p + 1;
            StepOutcome::Continue
        } else {
            let sp = self.registers[15];
            let a0 = sp as usize;
            if a0 + 1 >= 1024 {
                return StepOutcome::Faulted(Fault::OutOfBoundsMemory);
            }
            if reg >= 16 {
                return StepOutcome::Faulted(Fault::OutOfBoundsRegister);
            }
            let v: u16 = self.ram[a0] as u16 * 256 + self.ram[a0 + 1] as u16;
            self.registers[reg as usize] = v;
            let sp2 = self.registers[15];
            let sp_new: u16 = if sp2 <= 65533 {
                sp2 + 2
            } else {
                sp2 - 65534
            };
            proof {
                if sp2 <= 65533 {
                    lemma_wrap16_small(sp2 + 2);
                } else {
                    lemma_wrap16_shift(sp2 + 2 - 65536, 1);
                    lemma_wrap16_small(sp2 - 65534);
                }
            }
            self.registers[15] = sp_new;
            self.pc = p + 1;
            StepOutcome::Continue
        }
    }

    /// Add: 16-bit two's-complement addition with wraparound; a write to
    /// register 0 is discarded without reading the operands.
    fn op_add(&mut self) -> (r: StepOutcome)
        ensures
            (match step_inst(old(self)@, Inst::Add) {
                Transition::Step(s2) => r == StepOutcome::Continue && final(self)@ == s2,
                Transition::Halt(s2) => r == StepOutcome::Halted && final(self)@ == s2,
                Transition::Abort(f) => r == StepOutcome::Faulted(f) && final(self)@ == old(
                    self,
                )@,
            }),
    {
        proof {
            reveal(step_inst);
        }
        let p = self.pc;
        let i0 = p as usize;
        if i0 + 1 >= 1024 {
            return StepOutcome::Faulted(Fault::OutOfBoundsMemory);
        }
        let a = self.ram[i0];
        let b = self.ram[i0 + 1];
        if a != 0 {
            if a >= 16 || b >= 16 {
                return StepOutcome::Faulted(Fault::OutOfBoundsRegister);
            }
            let x = self.registers[a as usize];
            let y = self.registers[b as usize];
            let v: u16 = ((x as u32 + y as u32) % 65536) as u16;
            self.registers[a as usize] = v;
        }
        self.pc = p + 2;
        StepOutcome::Continue
    }

    /// Subtract, with the same wraparound and register-0 rules as add.
    #[verifier::rlimit(30)]
    fn op_sub(&mut self) -> (r: StepOutcome)
        ensures
            (match step_inst(old(self)@, Inst::Sub) {
                Transition::Step(s2) => r == StepOutcome::Continue && final(self)@ == s2,
                Transition::Halt(s2) => r == StepOutcome::Halted && final(self)@ == s2,
                Transition::Abort(f) => r == StepOutcome::Faulted(f) && final(self)@ == old(
                    self,
                )@,
            }),
    {
        proof {
            reveal(step_inst);
        }
        let p = self.pc;
        let i0 = p as usize;
        if i0 + 1 >= 1024 {
            return StepOutcome::Faulted(Fault::OutOfBoundsMemory);
        }
        let a = self.ram[i0];
        let b = self.ram[i0 + 1];
        if a != 0 {
            if a >= 16 || b >= 16 {
                return StepOutcome::Faulted(Fault::OutOfBoundsRegister);
            }
            let x = self.registers[a as usize];
            let y = self.registers[b as usize];
            proof {
                lemma_wrap16_shift(x - y, 1);
            }
            let v: u16 = ((x as u32 + 65536 - y as u32) % 65536) as u16;
            self.registers[a as usize] = v;
        }
        self.pc = p + 2;
        StepOutcome::Continue
    }

    /// Multiply, two's-complement with wraparound, same register-0 rule.
    fn op_mul(&mut self) -> (r: StepOutcome)
        ensures
            (match step_inst(old(self)@, Inst::Mul) {
                Transition::Step(s2) => r == StepOutcome::Continue && final(self)@ == s2,
                Transition::Halt(s2) => r == StepOutcome::Halted && final(self)@ == s2,
                Transition::Abort(f) => r == StepOutcome::Faulted(f) && final(self)@ == old(
                    self,
                )@,
            }),
    {
        proof {
            reveal(step_inst);
        }
        let p = self.pc;
        let i0 = p as usize;
        if i0 + 1 >= 1024 {
            return StepOutcome::Faulted(Fault::OutOfBoundsMemory);
        }
        let a = self.ram[i0];
        let b = self.ram[i0 + 1];
        if a != 0 {
            if a >= 16 || b >= 16 {
                return StepOutcome::Faulted(Fault::OutOfBoundsRegister);
            }
            let x = self.registers[a as usize];
            let y = self.registers[b as usize];
            assert((x as int) * (y as int) <= 65535 * 65535) by (nonlinear_arith)
                requires
                    x <= 65535,
                    y <= 65535,
            ;
            let v: u16 = ((x as u32 * y as u32) % 65536) as u16;
            self.registers[a as usize] = v;
        }
        self.pc = p + 2;
        StepOutcome::Continue
    }

    /// Divide, truncated toward zero; a zero divisor leaves the destination
    /// untouched, a defined no-op rather than a fault.
    fn op_div(&mut self) -> (r: StepOutcome)
        ensures
            (match step_inst(old(self)@, Inst::Div) {
                Transition::Step(s2) => r == StepOutcome::Continue && final(self)@ == s2,
                Transition::Halt(s2) => r == StepOutcome::Halted && final(self)@ == s2,
                Transition::Abort(f) => r == StepOutcome::Faulted(f) && final(self)@ == old(
                    self,
                )@,
            }),
    {
        proof {
            reveal(step_inst);
        }
        let p = self.pc;
        let i0 = p as usize;
        if i0 + 1 >= 1024 {
            return StepOutcome::Faulted(Fault::OutOfBoundsMemory);
        }
        let a = self.ram[i0];
        let b = self.ram[i0 + 1];
        if b >= 16 {
            return StepOutcome::Faulted(Fault::OutOfBoundsRegister);
        }
        let y = self.registers[b as usize];
        if y != 0 && a != 0 {
            if a >= 16 {
                return StepOutcome::Faulted(Fault::OutOfBoundsRegister);
            }
            let x = self.registers[a as usize];
            let xm = signed_magnitude(x);
            let ym = signed_magnitude(y);
            let q = xm / ym;
            proof {
                lemma_div_bounded(xm as int, ym as int);
                lemma_wrap16_small(q as int);
            }
            let v: u16 = if (x >= 32768) == (y >= 32768) {
                q as u16
            } else {
                negated_word(q)
            };
            self.registers[a as usize] = v;
        }
        self.pc = p + 2;
        StepOutcome::Continue
    }

    /// Modulo, with the dividend's sign; a zero divisor leaves the
    /// destination untouched, a defined no-op rather than a fault.
    #[verifier::rlimit(30)]
    fn op_mod(&mut self) -> (r: StepOutcome)
        ensures
            (match step_inst(old(self)@, Inst::Mod) {
                Transition::Step(s2) => r == StepOutcome::Continue && final(self)@ == s2,
                Transition::Halt(s2) => r == StepOutcome::Halted && final(self)@ == s2,
                Transition::Abort(f) => r == StepOutcome::Faulted(f) && final(self)@ == old(
                    self,
                )@,
            }),
    {
        proof {
            reveal(step_inst);
        }
        let p = self.pc;
        let i0 = p as usize;
        if i0 + 1 >= 1024 {
            return StepOutcome::Faulted(Fault::OutOfBoundsMemory);
        }
        let a = self.ram[i0];
        let b = self.ram[i0 + 1];
        if b >= 16 {
            return StepOutcome::Faulted(Fault::OutOfBoundsRegister);
        }
        let y = self.registers[b as usize];
        if y != 0 && a != 0 {
            if a >= 16 {
                return StepOutcome::Faulted(Fault::OutOfBoundsRegister);
            }
            let x = self.registers[a as usize];
            let xm = signed_magnitude(x);
            let ym = signed_magnitude(y);
            let q = xm % ym;
            proof {
                lemma_wrap16_small(q as int);
            }
            let v: u16 = if x >= 32768 {
                negated_word(q)
            } else {
                q as u16
            };
            self.registers[a as usize] = v;
        }
        self.pc = p + 2;
        StepOutcome::Continue
    }

    /// Negate, two's-complement; a write to register 0 is discarded.
    #[verifier::rlimit(30)]
    fn op_neg(&mut self) -> (r: StepOutcome)
        ensures
            (match step_inst(old(self)@, Inst::Neg) {
                Transition::Step(s2) => r == StepOutcome::Continue && final(self)@ == s2,
                Transition::Halt(s2) => r == StepOutcome::Halted && final(self)@ == s2,
                Transition::Abort(f) => r == StepOutcome::Faulted(f) && final(self)@ == old(
                    self,
                )@,
            }),
    {
        proof {
            reveal(step_inst);
        }
        let p = self.pc;
        let i0 = p as usize;
        if i0 >= 1024 {
            return StepOutcome::Faulted(Fault::OutOfBoundsMemory);
        }
        let reg = self.ram[i0];
        if reg != 0 {
            if reg >= 16 {
                return StepOutcome::Faulted(Fault::OutOfBoundsRegister);
            }
            let x = self.registers[reg as usize];
            proof {
                if x == 0 {
                    lemma_wrap16_small(0);
                } else {
                    if x < 32768 {
                        lemma_wrap16_shift(-(x as int), 1);
                    }
                    lemma_wrap16_small(65536 - x as int);
                }
            }
            let v: u16 = if x == 0 {
                0
            } else {
                (65536u32 - x as u32) as u16
            };
            self.registers[reg as usize] = v;
        }
        self.pc = p + 1;
        StepOutcome::Continue
    }

    /// Signed greater-than comparison; sets the flag, writes no register.
    fn op_greater_than(&mut self) -> (r: StepOutcome)
        ensures
            (match step_inst(old(self)@, Inst::GreaterThan) {
                Transition::Step(s2) => r == StepOutcome::Continue && final(self)@ == s2,
                Transition::Halt(s2) => r == StepOutcome::Halted && final(self)@ == s2,
                Transition::Abort(f) => r == StepOutcome::Faulted(f) && final(self)@ == old(
                    self,
                )@,
            }),
    {
        proof {
            reveal(step_inst);
        }
        let p = self.pc;
        let i0 = p as usize;
        if i0 + 1 >= 1024 {
            return StepOutcome::Faulted(Fault::OutOfBoundsMemory);
        }
        let a = self.ram[i0];
        let b = self.ram[i0 + 1];
        if a >= 16 || b >= 16 {
            return StepOutcome::Faulted(Fault::OutOfBoundsRegister);
        }
        self.skip_flag = signed_less(self.registers[b as usize], self.registers[a as usize]);
        self.pc = p + 2;
        StepOutcome::Continue
    }

    /// Signed less-than comparison; sets the flag, writes no register.
    fn op_less_than(&mut self) -> (r: StepOutcome)
        ensures
            (match step_inst(old(self)@, Inst::LessThan) {
                Transition::Step(s2) => r == StepOutcome::Continue && final(self)@ == s2,
                Transition::Halt(s2) => r == StepOutcome::Halted && final(self)@ == s2,
                Transition::Abort(f) => r == StepOutcome::Faulted(f) && final(self)@ == old(
                    self,
                )@,
            }),
    {
        proof {
            reveal(step_inst);
        }
        let p = self.pc;
        let i0 = p as usize;
        if i0 + 1 >= 1024 {
            return StepOutcome::Faulted(Fault::OutOfBoundsMemory);
        }
        let a = self.ram[i0];
        let b = self.ram[i0 + 1];
        if a >= 16 || b >= 16 {
            return StepOutcome::Faulted(Fault::OutOfBoundsRegister);
        }
        self.skip_flag = signed_less(self.registers[a as usize], self.registers[b as usize]);
        self.pc = p + 2;
        StepOutcome::Continue
    }

    /// Signed greater-or-equal comparison; sets the flag, writes no
    /// register.
    fn op_greater_equal(&mut self) -> (r: StepOutcome)
        ensures
            (match step_inst(old(self)@, Inst::GreaterEqual) {
                Transition::Step(s2) => r == StepOutcome::Continue && final(self)@ == s2,
                Transition::Halt(s2) => r == StepOutcome::Halted && final(self)@ == s2,
                Transition::Abort(f) => r == StepOutcome::Faulted(f) && final(self)@ == old(
                    self,
                )@,
            }),
    {
        proof {
            reveal(step_inst);
        }
        let p = self.pc;
        let i0 = p as usize;
        if i0 + 1 >= 1024 {
            return StepOutcome::Faulted(Fault::OutOfBoundsMemory);
        }
        let a = self.ram[i0];
        let b = self.ram[i0 + 1];
        if a >= 16 || b >= 16 {
            return StepOutcome::Faulted(Fault::OutOfBoundsRegister);
        }
        self.skip_flag = !signed_less(self.registers[a as usize], self.registers[b as usize]);
        self.pc = p + 2;
        StepOutcome::Continue
    }

    /// Signed less-or-equal comparison; sets the flag, writes no register.
    fn op_less_equal(&mut self) -> (r: StepOutcome)
        ensures
            (match step_inst(old(self)@, Inst::LessEqual) {
                Transition::Step(s2) => r == StepOutcome::Continue && final(self)@ == s2,
                Transition::Halt(s2) => r == StepOutcome::Halted && final(self)@ == s2,
                Transition::Abort(f) => r == StepOutcome::Faulted(f) && final(self)@ == old(
                    self,
                )@,
            }),
    {
        proof {
            reveal(step_inst);
        }
        let p = self.pc;
        let i0 = p as usize;
        if i0 + 1 >= 1024 {
            return StepOutcome::Faulted(Fault::OutOfBoundsMemory);
        }
        let a = self.ram[i0];
        let b = self.ram[i0 + 1];
        if a >= 16 || b >= 16 {
            return StepOutcome::Faulted(Fault::OutOfBoundsRegister);
        }
        self.skip_flag = !signed_less(self.registers[b as usize], self.registers[a as usize]);
        self.pc = p + 2;
        StepOutcome::Continue
    }

    /// Equality comparison on the raw bit patterns; sets the flag.
    fn op_equal(&mut self) -> (r: StepOutcome)
        ensures
            (match step_inst(old(self)@, Inst::Equal) {
                Transition::Step(s2) => r == StepOutcome::Continue && final(self)@ == s2,
                Transition::Halt(s2) => r == StepOutcome::Halted && final(self)@ == s2,
                Transition::Abort(f) => r == StepOutcome::Faulted(f) && final(self)@ == old(
                    self,
                )@,
            }),
    {
        proof {
            reveal(step_inst);
        }
        let p = self.pc;
        let i0 = p as usize;
        if i0 + 1 >= 1024 {
            return StepOutcome::Faulted(Fault::OutOfBoundsMemory);
        }
        let a = self.ram[i0];
        let b = self.ram[i0 + 1];
        if a >= 16 || b >= 16 {
            return StepOutcome::Faulted(Fault::OutOfBoundsRegister);
        }
        self.skip_flag = self.registers[a as usize] == self.registers[b as usize];
        self.pc = p + 2;
        StepOutcome::Continue
    }

    /// Inequality comparison on the raw bit patterns; sets the flag.
    fn op_not_equal(&mut self) -> (r: StepOutcome)
        ensures
            (match step_inst(old(self)@, Inst::NotEqual) {
                Transition::Step(s2) => r == StepOutcome::Continue && final(self)@ == s2,
                Transition::Halt(s2) => r == StepOutcome::Halted && final(self)@ == s2,
                Transition::Abort(f) => r == StepOutcome::Faulted(f) && final(self)@ == old(
                    self,
                )@,
            }),
    {
        proof {
            reveal(step_inst);
        }
        let p = self.pc;
        let i0 = p as usize;
        if i0 + 1 >= 1024 {
            return StepOutcome::Faulted(Fault::OutOfBoundsMemory);
        }
        let a = self.ram[i0];
        let b = self.ram[i0 + 1];
        if a >= 16 || b >= 16 {
            return StepOutcome::Faulted(Fault::OutOfBoundsRegister);
        }
        self.skip_flag = self.registers[a as usize] != self.registers[b as usize];
        self.pc = p + 2;
        StepOutcome::Continue
    }

    /// Return: pops the saved address into the scratch register and resumes
    /// there, the stack pointer moving up by two.
    fn op_return(&mut self) -> (r: StepOutcome)
        ensures
            (match step_inst(old(self)@, Inst::Return) {
                Transition::Step(s2) => r == StepOutcome::Continue && final(self)@ == s2,
                Transition::Halt(s2) => r == StepOutcome::Halted && final(self)@ == s2,
                Transition::Abort(f) => r == StepOutcome::Faulted(f) && final(self)@ == old(
                    self,
                )@,
            }),
    {
        proof {
            reveal(step_inst);
        }
        let sp = self.registers[15];
        let a0 = sp as usize;
        if a0 + 1 >= 1024 {
            return StepOutcome::Faulted(Fault::OutOfBoundsMemory);
        }
        let v: u16 = self.ram[a0] as u16 * 256 + self.ram[a0 + 1] as u16;
        self.registers[14] = v;
        self.registers[15] = sp + 2;
        self.pc = v;
        StepOutcome::Continue
    }

    /// Call: reads the absolute big-endian target, pushes the return address
    /// with the same encoding as push, and jumps.
    fn op_call(&mut self) -> (r: StepOutcome)
        ensures
            (match step_inst(old(self)@, Inst::Call) {
                Transition::Step(s2) => r == StepOutcome::Continue && final(self)@ == s2,
                Transition::Halt(s2) => r == StepOutcome::Halted && final(self)@ == s2,
                Transition::Abort(f) => r == StepOutcome::Faulted(f) && final(self)@ == old(
                    self,
                )@,
            }),
    {
        proof {
            reveal(step_inst);
        }
        let p = self.pc;
        let i0 = p as usize;
        if i0 + 1 >= 1024 {
            return StepOutcome::Faulted(Fault::OutOfBoundsMemory);
        }
        let hi = self.ram[i0];
        let lo = self.ram[i0 + 1];
        let ret: u16 = p + 2;
        let sp = self.registers[15];
        let sp_new: u16 = if sp >= 2 {
            sp - 2
        } else {
            sp + 65534
        };
        proof {
            if sp >= 2 {
                lemma_wrap16_small(sp - 2);
            } else {
                lemma_wrap16_shift(sp - 2, 1);
                lemma_wrap16_small(sp + 65534);
            }
        }
        let a0 = sp_new as usize;
        if a0 + 1 >= 1024 {
            return StepOutcome::Faulted(Fault::OutOfBoundsMemory);
        }
        self.registers[15] = sp_new;
        self.ram[a0] = (ret / 256) as u8;
        self.ram[a0 + 1] = (ret % 256) as u8;
        self.pc = hi as u16 * 256 + lo as u16;
        StepOutcome::Continue
    }

    /// Move one register's value into another; a write to register 0 is
    /// discarded without reading the source.
    fn op_mov(&mut self) -> (r: StepOutcome)
        ensures
            (match step_inst(old(self)@, Inst::Mov) {
                Transition::Step(s2) => r == StepOutcome::Continue && final(self)@ == s2,
                Transition::Halt(s2) => r == StepOutcome::Halted && final(self)@ == s2,
                Transition::Abort(f) => r == StepOutcome::Faulted(f) && final(self)@ == old(
                    self,
                )@,
            }),
    {
        proof {
            reveal(step_inst);
        }
        let p = self.pc;
        let i0 = p as usize;
        if i0 + 1 >= 1024 {
            return StepOutcome::Faulted(Fault::OutOfBoundsMemory);
        }
        let a = self.ram[i0];
        let b = self.ram[i0 + 1];
        if a != 0 {
            if a >= 16 || b >= 16 {
                return StepOutcome::Faulted(Fault::OutOfBoundsRegister);
            }
            let v = self.registers[b as usize];
            self.registers[a as usize] = v;
        }
        self.pc = p + 2;
        StepOutcome::Continue
    }

    /// Debug print: renders a register in the selected mode into the
    /// machine's output, or, for an unrecognized mode, appends the full
    /// state dump. Registers and control flow are untouched.
    #[verifier::rlimit(30)]
    fn op_debug(&mut self) -> (r: StepOutcome)
        ensures
            (match step_inst(old(self)@, Inst::Debug) {
                Transition::Step(s2) => r == StepOutcome::Continue && final(self)@ == s2,
                Transition::Halt(s2) => r == StepOutcome::Halted && final(self)@ == s2,
                Transition::Abort(f) => r == StepOutcome::Faulted(f) && final(self)@ == old(
                    self,
                )@,
            }),
    {
        proof {
            reveal(step_inst);
        }
        let p = self.pc;
        let i0 = p as usize;
        if i0 + 1 >= 1024 {
            return StepOutcome::Faulted(Fault::OutOfBoundsMemory);
        }
        let a = self.ram[i0];
        let m = self.ram[i0 + 1];
        if m <= 4 || (10 <= m && m <= 14) {
            if a >= 16 {
                return StepOutcome::Faulted(Fault::OutOfBoundsRegister);
            }
            let v = self.registers[a as usize];
            if m == 0 {
                push_dec(&mut self.output, v);
                self.output.push(10);
            } else if m == 1 {
                push_hex_lower(&mut self.output, v);
                self.output.push(10);
            } else if m == 2 {
                push_dec5(&mut self.output, v);
                self.output.push(10);
            } else if m == 3 {
                push_hex4(&mut self.output, v);
                self.output.push(10);
            } else if m == 4 {
                self.output.push(48);
                self.output.push(120);
                push_hex4(&mut self.output, v);
                self.output.push(10);
            } else if m == 10 {
                push_dec(&mut self.output, v);
            } else if m == 11 {
                push_hex_lower(&mut self.output, v);
            } else if m == 12 {
                push_dec5(&mut self.output, v);
            } else if m == 13 {
                push_hex4(&mut self.output, v);
            } else {
                self.output.push(48);
                self.output.push(120);
                push_hex4(&mut self.output, v);
            }
            assert(self@.out =~= old(self)@.out + debug_render(v, m));
        } else {
            let mut dump = self.render_state();
            self.output.append(&mut dump);
            assert(self@.out =~= old(self)@.out + dump_bytes(old(self)@));
        }
        self.pc = p + 2;
        StepOutcome::Continue
    }

    /// Runs the loaded program, executing up to `max_steps` instructions,
    /// until the exit instruction or a fault. The result is exactly what the
    /// abstract machine reaches from the starting state: `Halted` when some
    /// number of steps within the budget halts it in the final state,
    /// `Faulted` when a step aborts (the state then left at the last one
    /// before the faulting instruction), and `Continue` when the whole
    /// budget was spent with the machine still running — a caller that wants
    /// to run to completion simply calls again.
    #[verifier::rlimit(100)]
    pub fn run(&mut self, max_steps: u64) -> (r: StepOutcome)
        ensures
            r == StepOutcome::Continue ==> advance(old(self)@, max_steps as nat)
                == Transition::Step(final(self)@),
            r == StepOutcome::Halted ==> exists|n: nat|
                n <= max_steps && advance(old(self)@, n) == Transition::Halt(final(self)@),
            r matches StepOutcome::Faulted(f) ==> (exists|n: nat|
                n < max_steps && advance(old(self)@, n) == Transition::Step(final(self)@))
                && step_spec(final(self)@) == Transition::Abort(f),
    {
        let ghost s0 = self@;
        let mut i: u64 = 0;
        while i < max_steps
            invariant
                s0 == old(self)@,
                i <= max_steps,
                advance(s0, i as nat) == Transition::Step(self@),
            decreases max_steps - i,
        {
            let ghost pre = self@;
            let outcome = self.step();
            proof {
                lemma_advance_extend(s0, pre, i as nat);
            }
            match outcome {
                StepOutcome::Continue => {
                    proof {
                        assert(step_spec(pre) == Transition::Step(self@));
                        assert(advance(s0, i as nat + 1) == Transition::Step(self@));
                    }
                },
                StepOutcome::Halted => {
                    proof {
                        assert(step_spec(pre) == Transition::Halt(self@));
                        assert(advance(old(self)@, i as nat + 1) == Transition::Halt(self@));
                        assert(exists|n: nat|
                            n <= max_steps && advance(old(self)@, n) == Transition::Halt(
                                self@,
                            )) by {
                            assert(i as nat + 1 <= max_steps && advance(old(self)@, i as nat + 1)
                                == Transition::Halt(self@));
                        }
                    }
                    return StepOutcome::Halted;
                },
                StepOutcome::Faulted(f) => {
                    proof {
                        assert(self@ == pre);
                        assert(step_spec(self@) == Transition::Abort(f));
                        assert(advance(old(self)@, i as nat) == Transition::Step(self@));
                        assert(exists|n: nat|
                            n < max_steps && advance(old(self)@, n) == Transition::Step(
                                self@,
                            )) by {
                            assert((i as nat) < max_steps && advance(old(self)@, i as nat)
                                == Transition::Step(self@));
                        }
                    }
                    return StepOutcome::Faulted(f);
                },
            }
            i = i + 1;
        }
        StepOutcome::Continue
    }
}

} // verus!
