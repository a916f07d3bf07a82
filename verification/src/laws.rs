//! Laws of the toolchain, stated and proved once over the specification
//! functions: how label resolution, the arithmetic, the conditional-skip
//! markers and the stack discipline behave on every input, not just on the
//! inputs a test happens to pick.

use vstd::prelude::*;

use crate::assembler::declares;
use crate::assembler::precomp;
use crate::assembler::precomp_full;
use crate::assembler::table_lookup;
use crate::assembler::wrap8;
use crate::assembler::ParsedInstV;
use crate::fmt::dec_bytes;
use crate::vm::advance;
use crate::vm::debug_render;
use crate::vm::decode_spec;
use crate::vm::inst_len;
use crate::vm::opcode_of;
use crate::vm::signed16;
use crate::vm::signed8;
use crate::vm::step_inst;
use crate::vm::step_spec;
use crate::vm::wrap16;
use crate::vm::Inst;
use crate::vm::MachineState;
use crate::vm::Transition;

verus! {

/// Interpreting a 16-bit word as signed commutes with wrapping addition:
/// the destination a wrapped add leaves behind reads, as a signed value, as
/// the two's-complement wraparound of the signed sum — wraparound, not
/// saturation.
pub proof fn lemma_add_wraps_signed(x: u16, y: u16)
    ensures
        signed16(wrap16(x + y)) == ((signed16(x) + signed16(y) + 32768) % 65536) - 32768,
{
    let u = x + y;
    if u < 65536 {
        crate::vm::lemma_wrap16_small(u as int);
    } else {
        crate::vm::lemma_wrap16_shift(u - 65536, 1);
        crate::vm::lemma_wrap16_small(u - 65536);
    }
    let sv = signed16(x) + signed16(y) + 32768;
    if sv < 0 {
        vstd::arithmetic::div_mod::lemma_mod_multiples_vanish(1, sv, 65536);
        vstd::arithmetic::div_mod::lemma_small_mod((sv + 65536) as nat, 65536nat);
    } else if sv >= 65536 {
        vstd::arithmetic::div_mod::lemma_mod_multiples_vanish(1, sv - 65536, 65536);
        vstd::arithmetic::div_mod::lemma_small_mod((sv - 65536) as nat, 65536nat);
    } else {
        vstd::arithmetic::div_mod::lemma_small_mod(sv as nat, 65536nat);
    }
}

/// An add instruction leaves in its destination exactly the 16-bit
/// wraparound of the two register words; every other part of the state but
/// the counter stays.
pub proof fn lemma_add_semantics(s: MachineState, a: u8, b: u8)
    requires
        s.wf(),
        s.pc as int + 1 < s.ram.len(),
        s.ram[s.pc as int] == a,
        s.ram[s.pc as int + 1] == b,
        1 <= a < 16,
        b < 16,
    ensures
        step_inst(s, Inst::Add) == Transition::Step(
            MachineState {
                regs: s.regs.update(a as int, wrap16(s.regs[a as int] + s.regs[b as int])),
                pc: wrap16(s.pc + 2),
                ..s
            },
        ),
{
    reveal(step_inst);
}

/// Divide and modulo by a register holding zero are defined no-ops: the
/// destination keeps its prior value, nothing faults, and only the counter
/// moves.
pub proof fn lemma_divide_by_zero_keeps_destination(s: MachineState, i: Inst, a: u8, b: u8)
    requires
        s.wf(),
        i == Inst::Div || i == Inst::Mod,
        s.pc as int + 1 < s.ram.len(),
        s.ram[s.pc as int] == a,
        s.ram[s.pc as int + 1] == b,
        b < 16,
        s.regs[b as int] == 0,
    ensures
        step_inst(s, i) == Transition::Step(MachineState { pc: wrap16(s.pc + 2), ..s }),
{
    reveal(step_inst);
}

/// A `then` marker with the flag clear skips the one instruction that
/// follows it, whole: for a two-byte-encoded instruction the counter lands
/// exactly two bytes past the marker's own byte, and nothing else of the
/// state changes — the skipped instruction has no effect at all.
pub proof fn lemma_skip_marker_skips_whole_instruction(s: MachineState, i2: Inst)
    requires
        s.wf(),
        (s.pc as int) < s.ram.len(),
        !s.flag,
        decode_spec(s.ram[s.pc as int]) == Some(i2),
        inst_len(i2) == 2,
    ensures
        step_inst(s, Inst::Then) == Transition::Step(
            MachineState { pc: wrap16(s.pc + 2), ..s },
        ),
{
    reveal(step_inst);
}

/// A jump encoded by the assembler for a target ahead of it lands exactly
/// on that target: the operand holds the unsigned distance `target - p`
/// from the jump's own offset `p`, and the step sets the counter to the
/// target, nothing else changing.
pub proof fn lemma_forward_jump_reaches_target(s: MachineState, p: u16, target: u16)
    requires
        s.wf(),
        s.pc == p,
        p as int + 1 < s.ram.len(),
        0 < target - p <= 255,
        s.ram[p as int] == opcode_of(Inst::JumpFw),
        s.ram[p as int + 1] == wrap8(target - p),
    ensures
        step_spec(s) == Transition::Step(MachineState { pc: target, ..s }),
{
    reveal(step_inst);
    vstd::arithmetic::div_mod::lemma_small_mod((target - p) as nat, 256nat);
    crate::vm::lemma_wrap16_small(p + 1);
    crate::vm::lemma_wrap16_small(target as int);
}

/// The backward half of the same round trip, the deliberately fragile
/// encoding: the signed distance `target - p` (zero or negative, down to
/// -128) is stored by truncation to one byte and reinterpreted as signed at
/// run time, and the step lands the counter exactly on the target.
pub proof fn lemma_backward_jump_reaches_target(s: MachineState, p: u16, target: u16)
    requires
        s.wf(),
        s.pc == p,
        p as int + 1 < s.ram.len(),
        target <= p,
        p - target <= 128,
        s.ram[p as int] == opcode_of(Inst::JumpBw),
        s.ram[p as int + 1] == wrap8(target - p),
    ensures
        step_spec(s) == Transition::Step(MachineState { pc: target, ..s }),
{
    reveal(step_inst);
    let diff = target - p;
    if diff == 0 {
        vstd::arithmetic::div_mod::lemma_small_mod(0nat, 256nat);
        assert(signed8(wrap8(diff)) == diff);
    } else {
        vstd::arithmetic::div_mod::lemma_mod_multiples_vanish(1, diff, 256);
        vstd::arithmetic::div_mod::lemma_small_mod((diff + 256) as nat, 256nat);
        assert(wrap8(diff) == diff + 256);
        assert(signed8(wrap8(diff)) == diff);
    }
    crate::vm::lemma_wrap16_small(p + 1);
    crate::vm::lemma_wrap16_small(target as int);
}

/// Register 0 is hard-wired to zero: no instruction a step can execute
/// writes it, so once zero it reads as zero after every step that keeps the
/// machine running or halts it.
pub proof fn lemma_register_zero_preserved(s: MachineState)
    requires
        s.wf(),
        s.regs[0] == 0,
    ensures
        (match step_spec(s) {
            Transition::Step(s2) => s2.regs.len() == 16 && s2.regs[0] == 0,
            Transition::Halt(s2) => s2.regs.len() == 16 && s2.regs[0] == 0,
            Transition::Abort(f) => true,
        }),
{
    reveal(step_inst);
}

/// Loading an immediate into a register and printing it in decimal mode
/// prints exactly the decimal rendering of that immediate, for every
/// 16-bit value and every writable register: the wide load puts the
/// big-endian immediate into the register and the debug instruction renders
/// the register, with a closing line break.
pub proof fn lemma_load_and_print_decimal(s: MachineState, r: u8, v: u16)
    requires
        s.wf(),
        1 <= r < 16,
        s.pc as int + 6 < 1024,
        s.ram[s.pc as int] == opcode_of(Inst::SetShort),
        s.ram[s.pc as int + 1] == r,
        s.ram[s.pc as int + 2] == (v / 256) as u8,
        s.ram[s.pc as int + 3] == (v % 256) as u8,
        s.ram[s.pc as int + 4] == opcode_of(Inst::Debug),
        s.ram[s.pc as int + 5] == r,
        s.ram[s.pc as int + 6] == 0,
    ensures
        (advance(s, 2) matches Transition::Step(s2) && s2.regs[r as int] == v && s2.out == s.out
            + (dec_bytes(v as nat) + seq![10u8])),
{
    reveal(step_inst);
    crate::vm::lemma_wrap16_small(s.pc + 1);
    crate::vm::lemma_wrap16_small(s.pc + 4);
    crate::vm::lemma_wrap16_small(s.pc + 5);
    crate::vm::lemma_wrap16_small(s.pc + 7);
    let m1 = MachineState { regs: s.regs.update(r as int, v), pc: (s.pc + 4) as u16, ..s };
    assert(step_spec(s) == Transition::Step(m1)) by {
        vstd::arithmetic::div_mod::lemma_fundamental_div_mod(v as int, 256);
        assert(MachineState { pc: (s.pc + 1) as u16, ..s }.pc == s.pc + 1);
    }
    let m2 = MachineState {
        pc: (s.pc + 7) as u16,
        out: s.out + debug_render(v, 0),
        ..m1
    };
    assert(step_spec(m1) == Transition::Step(m2));
    assert(advance(m2, 0) == Transition::Step(m2));
    assert(advance(m1, 1) == Transition::Step(m2));
    assert(advance(s, 2) == Transition::Step(m2));
}

/// The narrow form of the same law: a one-byte load (the form the
/// assembler picks for immediates up to 255) followed by the decimal debug
/// print prints exactly that immediate's decimal rendering.
pub proof fn lemma_load_byte_and_print_decimal(s: MachineState, r: u8, v: u8)
    requires
        s.wf(),
        1 <= r < 16,
        s.pc as int + 5 < 1024,
        s.ram[s.pc as int] == opcode_of(Inst::SetByte),
        s.ram[s.pc as int + 1] == r,
        s.ram[s.pc as int + 2] == v,
        s.ram[s.pc as int + 3] == opcode_of(Inst::Debug),
        s.ram[s.pc as int + 4] == r,
        s.ram[s.pc as int + 5] == 0,
    ensures
        (advance(s, 2) matches Transition::Step(s2) && s2.regs[r as int] == v as u16 && s2.out
            == s.out + (dec_bytes(v as nat) + seq![10u8])),
{
    reveal(step_inst);
    crate::vm::lemma_wrap16_small(s.pc + 1);
    crate::vm::lemma_wrap16_small(s.pc + 3);
    crate::vm::lemma_wrap16_small(s.pc + 4);
    crate::vm::lemma_wrap16_small(s.pc + 6);
    let m1 = MachineState { regs: s.regs.update(r as int, v as u16), pc: (s.pc + 3) as u16, ..s };
    assert(step_spec(s) == Transition::Step(m1));
    let m2 = MachineState { pc: (s.pc + 6) as u16, out: s.out + debug_render(v as u16, 0), ..m1 };
    assert(step_spec(m1) == Transition::Step(m2));
    assert(advance(m2, 0) == Transition::Step(m2));
    assert(advance(m1, 1) == Transition::Step(m2));
    assert(advance(s, 2) == Transition::Step(m2));
}

/// Push followed immediately by pop on the same register restores the
/// register and the stack pointer exactly — in fact the whole register
/// file — leaving only the two scratched stack cells and the counter
/// changed. The stack must not overlap the two instructions themselves
/// (code and stack share the one memory, and an overlapping stack rewrites
/// the program — the documented corruption, not covered here).
pub proof fn lemma_push_pop_roundtrip(s: MachineState, r: u8)
    requires
        s.wf(),
        r < 16,
        s.pc as int + 3 < 1024,
        s.ram[s.pc as int] == opcode_of(Inst::Push),
        s.ram[s.pc as int + 1] == r,
        s.ram[s.pc as int + 2] == opcode_of(Inst::Pop),
        s.ram[s.pc as int + 3] == r,
        2 <= s.regs[15],
        s.regs[15] <= 1024,
        s.pc as int + 3 < s.regs[15] - 2,
    ensures
        (advance(s, 2) matches Transition::Step(s2) && s2.regs == s.regs && s2.pc == wrap16(
            s.pc + 4,
        ) && s2.flag == s.flag && s2.out == s.out),
{
    reveal(step_inst);
    let sp = s.regs[15];
    crate::vm::lemma_wrap16_small(s.pc + 1);
    crate::vm::lemma_wrap16_small(s.pc + 2);
    crate::vm::lemma_wrap16_small(s.pc + 3);
    crate::vm::lemma_wrap16_small(s.pc + 4);
    crate::vm::lemma_wrap16_small(sp - 2);
    crate::vm::lemma_wrap16_small(sp as int);
    let sp_new = (sp - 2) as u16;
    let regs1 = s.regs.update(15, sp_new);
    let v = regs1[r as int];
    let ram1 = s.ram.update(sp_new as int, (v / 256) as u8).update(
        sp_new as int + 1,
        (v % 256) as u8,
    );
    let m1 = MachineState { regs: regs1, ram: ram1, pc: (s.pc + 2) as u16, ..s };
    assert(step_spec(s) == Transition::Step(m1));
    vstd::arithmetic::div_mod::lemma_fundamental_div_mod(v as int, 256);
    if r == 0 {
        let m2 = MachineState { regs: regs1.update(15, sp), pc: (s.pc + 4) as u16, ..m1 };
        assert(step_spec(m1) == Transition::Step(m2));
        assert(m2.regs =~= s.regs);
        assert(advance(m2, 0) == Transition::Step(m2));
        assert(advance(m1, 1) == Transition::Step(m2));
        assert(advance(s, 2) == Transition::Step(m2));
    } else {
        let back = (ram1[sp_new as int] as int * 256 + ram1[sp_new as int + 1] as int) as u16;
        assert(back == v);
        let regs2 = regs1.update(r as int, back);
        let m2 = MachineState {
            regs: regs2.update(15, wrap16(regs2[15] + 2)),
            pc: (s.pc + 4) as u16,
            ..m1
        };
        assert(step_spec(m1) == Transition::Step(m2));
        if r == 15 {
            assert(regs2[15] == sp - 2);
            crate::vm::lemma_wrap16_small(sp as int);
            assert(m2.regs =~= s.regs);
        } else {
            assert(regs2[15] == sp_new);
            assert(m2.regs =~= s.regs);
        }
        assert(advance(m2, 0) == Transition::Step(m2));
        assert(advance(m1, 1) == Transition::Step(m2));
        assert(advance(s, 2) == Transition::Step(m2));
    }
}

/// A call pushes the address of the instruction after it and jumps; the
/// return at the target pops that address back, so execution resumes
/// exactly after the call with the stack pointer restored, the popped
/// address left in the scratch register 14. The stack cells must not
/// overlap the call or the return instruction bytes.
pub proof fn lemma_call_return_roundtrip(s: MachineState, target: u16)
    requires
        s.wf(),
        s.pc as int + 2 < 1024,
        s.ram[s.pc as int] == opcode_of(Inst::Call),
        s.ram[s.pc as int + 1] == (target / 256) as u8,
        s.ram[s.pc as int + 2] == (target % 256) as u8,
        (target as int) < 1024,
        s.ram[target as int] == opcode_of(Inst::Return),
        2 <= s.regs[15],
        s.regs[15] <= 1024,
        s.pc as int + 2 < s.regs[15] - 2,
        (target as int) < s.regs[15] - 2,
    ensures
        (advance(s, 2) matches Transition::Step(s2) && s2.pc == wrap16(s.pc + 3) && s2.regs[15]
            == s.regs[15] && s2.regs == s.regs.update(14, wrap16(s.pc + 3)) && s2.flag == s.flag
            && s2.out == s.out),
{
    reveal(step_inst);
    let sp = s.regs[15];
    crate::vm::lemma_wrap16_small(s.pc + 1);
    crate::vm::lemma_wrap16_small(s.pc + 3);
    crate::vm::lemma_wrap16_small(sp - 2);
    crate::vm::lemma_wrap16_small(sp as int);
    let ret = (s.pc + 3) as u16;
    let sp_new = (sp - 2) as u16;
    let ram1 = s.ram.update(sp_new as int, (ret / 256) as u8).update(
        sp_new as int + 1,
        (ret % 256) as u8,
    );
    vstd::arithmetic::div_mod::lemma_fundamental_div_mod(target as int, 256);
    vstd::arithmetic::div_mod::lemma_fundamental_div_mod(ret as int, 256);
    let m1 = MachineState { regs: s.regs.update(15, sp_new), ram: ram1, pc: target, ..s };
    assert(step_spec(s) == Transition::Step(m1));
    let back = (ram1[sp_new as int] as int * 256 + ram1[sp_new as int + 1] as int) as u16;
    assert(back == ret);
    let m2 = MachineState {
        regs: m1.regs.update(14, back).update(15, wrap16(sp_new + 2)),
        pc: back,
        ..m1
    };
    assert(step_spec(m1) == Transition::Step(m2));
    assert(m2.regs =~= s.regs.update(14, wrap16(s.pc + 3)));
    assert(advance(m2, 0) == Transition::Step(m2));
    assert(advance(m1, 1) == Transition::Step(m2));
    assert(advance(s, 2) == Transition::Step(m2));
}

/// Once a label is declared and not redeclared later, the growing symbol
/// table keeps resolving it to the offset recorded at the declaration.
proof fn lemma_label_lookup_from(insts: Seq<ParsedInstV>, k: int, name: Seq<u8>, m: int)
    requires
        0 <= k < m <= insts.len(),
        declares(insts[k], name),
        forall|j: int| k < j < m ==> !(#[trigger] declares(insts[j], name)),
    ensures
        table_lookup(precomp(insts, m).0, name) == Some(precomp(insts, k).2),
    decreases m - k,
{
    if m == k + 1 {
        let t = precomp(insts, k).0;
        let p = precomp(insts, k).2;
        assert(precomp(insts, m).0 == t.push((name, p)));
        assert(table_lookup(t.push((name, p)), name) == Some(p));
    } else {
        lemma_label_lookup_from(insts, k, name, m - 1);
        let t = precomp(insts, m - 1).0;
        let p = precomp(insts, m - 1).2;
        assert(!declares(insts[m - 1], name));
        match insts[m - 1] {
            ParsedInstV::Label { label } => {
                assert(label != name);
                assert(precomp(insts, m).0 == t.push((label, p)));
                assert(t.push((label, p)).drop_last() =~= t);
                assert(table_lookup(t.push((label, p)), name) == table_lookup(t, name));
            },
            _ => {
                assert(precomp(insts, m).0 == t);
            },
        }
    }
}

/// Label references resolve to the byte offset recorded at the label's
/// declaration, whether each reference stands before or after the
/// declaration: resolution always reads the table that the completed first
/// pass built, so declaration order cannot change the resolved offset.
pub proof fn lemma_label_resolution_position_independent(
    insts: Seq<ParsedInstV>,
    k: int,
    name: Seq<u8>,
)
    requires
        0 <= k < insts.len(),
        declares(insts[k], name),
        forall|j: int| k < j < insts.len() ==> !(#[trigger] declares(insts[j], name)),
    ensures
        table_lookup(precomp_full(insts).0, name) == Some(precomp(insts, k).2),
{
    lemma_label_lookup_from(insts, k, name, insts.len() as int);
}

} // verus!
