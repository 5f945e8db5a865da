//! Laws relating the assembler's encodings to the engine's decodings.

use vstd::prelude::*;
use vstd::arithmetic::div_mod::{
    lemma_fundamental_div_mod, lemma_mod_add_multiples_vanish, lemma_small_mod,
};
use crate::emulator::MachineView;
use crate::engine::{bank_base, sign_ext, sjmp_target, step_spec, run_spec, RunStatus, StepResult};
use crate::numeral::{spec_parse_numeral, NumErr};
use crate::parser::{patches_fit, rel_byte, run_patches, PatchV};
use crate::regs::bit8_get;

verus! {

/// The relative byte the assembler emits is exactly the displacement the
/// engine decodes: for a target within signed-byte reach of the address
/// after the jump, encoding with [`rel_byte`] and executing `sjmp` lands
/// the program counter on the target. A forward target gives the plain
/// difference; a backward target gives its two's complement.
pub proof fn lemma_sjmp_round_trip(pc: u16, target: u16)
    requires
        -128 <= target - (pc + 2) <= 127,
    ensures
        sjmp_target(pc, rel_byte(target as int, pc as int + 2)) == target,
        sign_ext(rel_byte(target as int, pc as int + 2)) == target - (pc + 2),
{
    let d = target - (pc + 2);
    let rel = rel_byte(target as int, pc as int + 2);
    assert(rel as int == d % 256);
    if d >= 0 {
        lemma_small_mod(d as nat, 256);
    } else {
        lemma_mod_add_multiples_vanish(d, 256);
        lemma_small_mod((d + 256) as nat, 256);
    }
    assert(sign_ext(rel) == d);
    lemma_small_mod(target as nat, 0x10000);
}

/// The two bytes an absolute patch writes are the big-endian halves of the
/// label's address: decoded most significant byte first, they give the
/// address back whenever it fits 16 bits.
pub proof fn lemma_abs_patch_round_trip(a: usize)
    requires
        a <= 0xffff,
    ensures
        ((a as int / 256) % 256) * 256 + (a as int) % 256 == a,
{
    lemma_fundamental_div_mod(a as int, 256);
    lemma_small_mod((a as nat) / 256, 256);
}

/// Bank switching: with bank-select bits `RS1:RS0 = 01`, `mov R0, #data`
/// writes its immediate to RAM address 0x08, and to no other address.
pub proof fn lemma_bank_select(s: MachineView)
    requires
        s.ram.len() == 128,
        s.pc as int + 1 < s.rom.len(),
        s.pc as int + 2 <= 0xffff,
        s.rom[s.pc as int] == 0x74,
        bit8_get(s.psw, 3),
        !bit8_get(s.psw, 4),
    ensures
        step_spec(s) is Next,
        step_spec(s)->Next_0.ram == s.ram.update(8, s.rom[s.pc as int + 1]),
        step_spec(s)->Next_0.ram[8] == s.rom[s.pc as int + 1],
        forall|i: int|
            0 <= i < s.ram.len() && i != 8 ==> step_spec(s)->Next_0.ram[i] == s.ram[i],
{
    assert(bank_base(s.psw) == 8);
}

/// End-of-program halt: when a run ends with [`RunStatus::Halted`], the
/// program counter is left pointing at the end opcode itself, whatever
/// follows it in the buffer.
pub proof fn lemma_halt_points_at_end(s: MachineView, fuel: nat)
    requires
        run_spec(s, fuel).1 == RunStatus::Halted,
    ensures
        run_spec(s, fuel).0.pc < run_spec(s, fuel).0.rom.len(),
        run_spec(s, fuel).0.rom[run_spec(s, fuel).0.pc as int] == 0x00,
    decreases fuel,
{
    if fuel > 0 {
        match step_spec(s) {
            StepResult::Halt => {},
            StepResult::Next(s2) => {
                lemma_halt_points_at_end(s2, (fuel - 1) as nat);
            },
            StepResult::Fault => {},
        }
    }
}

/// The decoder mirrors the encoder for `mov Rn, #data`: when the code
/// store holds exactly what the assembler emits for register `n` and
/// immediate `d`, one step writes `d` to slot `n` of the register bank the
/// current PSW selects, and advances past the two encoded bytes.
pub proof fn lemma_step_mov_rn_data(s: MachineView, n: u8, d: u8)
    requires
        s.ram.len() == 128,
        n < 8,
        s.pc as int + 1 < s.rom.len(),
        s.pc as int + 2 <= 0xffff,
        s.rom.subrange(s.pc as int, s.pc as int + 2) == crate::codegen::enc_mov_rn_data(n, d),
    ensures
        step_spec(s) == StepResult::Next(
            MachineView {
                ram: s.ram.update(bank_base(s.psw) + n, d),
                pc: (s.pc + 2) as u16,
                ..s
            },
        ),
{
    let enc = crate::codegen::enc_mov_rn_data(n, d);
    assert(s.rom[s.pc as int] == enc[0]);
    assert(s.rom[s.pc as int + 1] == enc[1]);
}

/// `mov Rn, Rm` decodes in the window the engine recognizes: the encoding
/// `0x7C + n*8 + m` is matched back as a register-register move only for
/// opcodes up to `0x7F`, that is for `n == 0` and `m` up to 3; there the
/// destination slot receives the source slot's byte.
pub proof fn lemma_step_mov_rn_rn(s: MachineView, n: u8, m: u8)
    requires
        s.ram.len() == 128,
        n == 0,
        m <= 3,
        (s.pc as int) < s.rom.len(),
        s.pc as int + 1 <= 0xffff,
        s.rom.subrange(s.pc as int, s.pc as int + 1) == crate::codegen::enc_mov_rn_rn(n, m),
    ensures
        step_spec(s) == StepResult::Next(
            MachineView {
                ram: s.ram.update(
                    bank_base(s.psw) + n,
                    s.ram[bank_base(s.psw) as int + m],
                ),
                pc: (s.pc + 1) as u16,
                ..s
            },
        ),
{
    assert(s.rom[s.pc as int] == crate::codegen::enc_mov_rn_rn(n, m)[0]);
}

/// `mov A, #data` decodes as encoded: the accumulator receives the
/// immediate byte.
pub proof fn lemma_step_mov_a_data(s: MachineView, d: u8)
    requires
        s.pc as int + 1 < s.rom.len(),
        s.pc as int + 2 <= 0xffff,
        s.rom.subrange(s.pc as int, s.pc as int + 2) == crate::codegen::enc_mov_a_data(d),
    ensures
        step_spec(s) == StepResult::Next(MachineView { a: d, pc: (s.pc + 2) as u16, ..s }),
{
    assert(s.rom[s.pc as int] == crate::codegen::enc_mov_a_data(d)[0]);
    assert(s.rom[s.pc as int + 1] == crate::codegen::enc_mov_a_data(d)[1]);
}

/// `mov A, Rn` decodes as encoded: the accumulator receives slot `n` of
/// the selected bank.
pub proof fn lemma_step_mov_a_rn(s: MachineView, n: u8)
    requires
        s.ram.len() == 128,
        n < 8,
        (s.pc as int) < s.rom.len(),
        s.pc as int + 1 <= 0xffff,
        s.rom.subrange(s.pc as int, s.pc as int + 1) == crate::codegen::enc_mov_a_rn(n),
    ensures
        step_spec(s) == StepResult::Next(
            MachineView {
                a: s.ram[bank_base(s.psw) as int + n],
                pc: (s.pc + 1) as u16,
                ..s
            },
        ),
{
    assert(s.rom[s.pc as int] == crate::codegen::enc_mov_a_rn(n)[0]);
}

/// `mov Rn, A` decodes as encoded: slot `n` of the selected bank receives
/// the accumulator.
pub proof fn lemma_step_mov_rn_a(s: MachineView, n: u8)
    requires
        s.ram.len() == 128,
        n < 8,
        (s.pc as int) < s.rom.len(),
        s.pc as int + 1 <= 0xffff,
        s.rom.subrange(s.pc as int, s.pc as int + 1) == crate::codegen::enc_mov_rn_a(n),
    ensures
        step_spec(s) == StepResult::Next(
            MachineView {
                ram: s.ram.update(bank_base(s.psw) + n, s.a),
                pc: (s.pc + 1) as u16,
                ..s
            },
        ),
{
    assert(s.rom[s.pc as int] == crate::codegen::enc_mov_rn_a(n)[0]);
}

/// `mov B, Rn` decodes as encoded.
pub proof fn lemma_step_mov_b_rn(s: MachineView, n: u8)
    requires
        s.ram.len() == 128,
        n < 8,
        (s.pc as int) < s.rom.len(),
        s.pc as int + 1 <= 0xffff,
        s.rom.subrange(s.pc as int, s.pc as int + 1) == crate::codegen::enc_mov_b_rn(n),
    ensures
        step_spec(s) == StepResult::Next(
            MachineView {
                b: s.ram[bank_base(s.psw) as int + n],
                pc: (s.pc + 1) as u16,
                ..s
            },
        ),
{
    assert(s.rom[s.pc as int] == crate::codegen::enc_mov_b_rn(n)[0]);
}

/// `mov B, #data` decodes as encoded.
pub proof fn lemma_step_mov_b_data(s: MachineView, d: u8)
    requires
        s.pc as int + 1 < s.rom.len(),
        s.pc as int + 2 <= 0xffff,
        s.rom.subrange(s.pc as int, s.pc as int + 2) == crate::codegen::enc_mov_b_data(d),
    ensures
        step_spec(s) == StepResult::Next(MachineView { b: d, pc: (s.pc + 2) as u16, ..s }),
{
    assert(s.rom[s.pc as int] == crate::codegen::enc_mov_b_data(d)[0]);
    assert(s.rom[s.pc as int + 1] == crate::codegen::enc_mov_b_data(d)[1]);
}

/// `mov Rn, B` decodes as encoded.
pub proof fn lemma_step_mov_rn_b(s: MachineView, n: u8)
    requires
        s.ram.len() == 128,
        n < 8,
        (s.pc as int) < s.rom.len(),
        s.pc as int + 1 <= 0xffff,
        s.rom.subrange(s.pc as int, s.pc as int + 1) == crate::codegen::enc_mov_rn_b(n),
    ensures
        step_spec(s) == StepResult::Next(
            MachineView {
                ram: s.ram.update(bank_base(s.psw) + n, s.b),
                pc: (s.pc + 1) as u16,
                ..s
            },
        ),
{
    assert(s.rom[s.pc as int] == crate::codegen::enc_mov_rn_b(n)[0]);
}

/// `mov A, B` and `mov B, A` decode as encoded.
pub proof fn lemma_step_mov_between_a_b(s: MachineView)
    requires
        (s.pc as int) < s.rom.len(),
        s.pc as int + 1 <= 0xffff,
    ensures
        s.rom.subrange(s.pc as int, s.pc as int + 1) == crate::codegen::enc_mov_a_b()
            ==> step_spec(s) == StepResult::Next(
            MachineView { a: s.b, pc: (s.pc + 1) as u16, ..s },
        ),
        s.rom.subrange(s.pc as int, s.pc as int + 1) == crate::codegen::enc_mov_b_a()
            ==> step_spec(s) == StepResult::Next(
            MachineView { b: s.a, pc: (s.pc + 1) as u16, ..s },
        ),
{
    assert(s.rom.subrange(s.pc as int, s.pc as int + 1)[0] == s.rom[s.pc as int]);
}

/// `add A, #data` decodes as encoded: the accumulator takes the sum,
/// wrapping at eight bits.
pub proof fn lemma_step_add_a_data(s: MachineView, d: u8)
    requires
        s.pc as int + 1 < s.rom.len(),
        s.pc as int + 2 <= 0xffff,
        s.rom.subrange(s.pc as int, s.pc as int + 2) == crate::codegen::enc_add_a_data(d),
    ensures
        step_spec(s) == StepResult::Next(
            MachineView { a: crate::engine::wrap_add8(s.a, d), pc: (s.pc + 2) as u16, ..s },
        ),
{
    assert(s.rom[s.pc as int] == crate::codegen::enc_add_a_data(d)[0]);
    assert(s.rom[s.pc as int + 1] == crate::codegen::enc_add_a_data(d)[1]);
}

/// `add A, B`, `add A, Rn` and `add A, A` decode as encoded, each with
/// eight-bit wraparound.
pub proof fn lemma_step_add_register_forms(s: MachineView, n: u8)
    requires
        s.ram.len() == 128,
        n < 8,
        (s.pc as int) < s.rom.len(),
        s.pc as int + 1 <= 0xffff,
    ensures
        s.rom.subrange(s.pc as int, s.pc as int + 1) == crate::codegen::enc_add_a_b()
            ==> step_spec(s) == StepResult::Next(
            MachineView { a: crate::engine::wrap_add8(s.a, s.b), pc: (s.pc + 1) as u16, ..s },
        ),
        s.rom.subrange(s.pc as int, s.pc as int + 1) == crate::codegen::enc_add_a_rn(n)
            ==> step_spec(s) == StepResult::Next(
            MachineView {
                a: crate::engine::wrap_add8(s.a, s.ram[bank_base(s.psw) as int + n]),
                pc: (s.pc + 1) as u16,
                ..s
            },
        ),
        s.rom.subrange(s.pc as int, s.pc as int + 1) == crate::codegen::enc_add_a_a()
            ==> step_spec(s) == StepResult::Next(
            MachineView { a: crate::engine::wrap_add8(s.a, s.a), pc: (s.pc + 1) as u16, ..s },
        ),
{
    assert(s.rom.subrange(s.pc as int, s.pc as int + 1)[0] == s.rom[s.pc as int]);
}

/// The end opcode halts the machine at once.
pub proof fn lemma_step_end(s: MachineView)
    requires
        (s.pc as int) < s.rom.len(),
        s.rom[s.pc as int] == 0x00,
    ensures
        step_spec(s) == StepResult::Halt,
{
}

/// An assembled `sjmp` lands on its label: when the code store holds the
/// opcode and the relative byte the assembler computes for `target`, one
/// step moves the program counter exactly to `target`.
pub proof fn lemma_step_sjmp(s: MachineView, target: u16)
    requires
        s.pc as int + 1 < s.rom.len(),
        s.rom[s.pc as int] == 0x28,
        s.rom[s.pc as int + 1] == rel_byte(target as int, s.pc as int + 2),
        -128 <= target - (s.pc + 2) <= 127,
    ensures
        step_spec(s) == StepResult::Next(MachineView { pc: target, ..s }),
{
    lemma_sjmp_round_trip(s.pc, target);
}

/// An assembled (or patched) `ljmp` lands on its label: when the code
/// store holds the opcode and the two big-endian bytes of address `a`, one
/// step moves the program counter exactly to `a`.
pub proof fn lemma_step_ljmp(s: MachineView, a: usize)
    requires
        a <= 0xffff,
        s.pc as int + 2 < s.rom.len(),
        s.rom[s.pc as int] == 0x29,
        s.rom[s.pc as int + 1] == ((a as int / 256) % 256) as u8,
        s.rom[s.pc as int + 2] == ((a as int) % 256) as u8,
    ensures
        step_spec(s) == StepResult::Next(MachineView { pc: a as u16, ..s }),
{
    lemma_abs_patch_round_trip(a);
}

/// The patch pass never changes the buffer's length.
pub proof fn lemma_run_patches_len(cg: Seq<u8>, lb: Map<Seq<char>, usize>, fa: Seq<PatchV>)
    requires
        run_patches(cg, lb, fa) is Ok,
        patches_fit(fa, cg.len() as int),
    ensures
        run_patches(cg, lb, fa)->Ok_0.len() == cg.len(),
    decreases fa.len(),
{
    if fa.len() > 0 {
        let p = fa[0];
        let a = lb[p.name] as int;
        let cg2 = if p.abs {
            cg.update(p.off as int, ((a / 256) % 256) as u8).update(
                p.off as int + 1,
                (a % 256) as u8,
            )
        } else {
            cg.update(p.off as int, rel_byte(a, p.off as int + 1))
        };
        assert forall|j: int|
            0 <= j < fa.drop_first().len() implies fa.drop_first()[j] == (#[trigger] fa[j + 1]) by {}
        lemma_run_patches_len(cg2, lb, fa.drop_first());
    }
}

/// The patch pass is local: a byte no recorded patch names comes out of
/// the patch pass unchanged.
pub proof fn lemma_run_patches_untouched(
    cg: Seq<u8>,
    lb: Map<Seq<char>, usize>,
    fa: Seq<PatchV>,
    i: int,
)
    requires
        run_patches(cg, lb, fa) is Ok,
        patches_fit(fa, cg.len() as int),
        0 <= i < cg.len(),
        forall|k: int|
            0 <= k < fa.len() ==> (#[trigger] fa[k]).off != i && !(fa[k].abs && fa[k].off + 1
                == i),
    ensures
        run_patches(cg, lb, fa)->Ok_0[i] == cg[i],
    decreases fa.len(),
{
    if fa.len() > 0 {
        let p = fa[0];
        let a = lb[p.name] as int;
        let cg2 = if p.abs {
            cg.update(p.off as int, ((a / 256) % 256) as u8).update(
                p.off as int + 1,
                (a % 256) as u8,
            )
        } else {
            cg.update(p.off as int, rel_byte(a, p.off as int + 1))
        };
        assert(cg2[i] == cg[i]);
        assert forall|k: int|
            0 <= k < fa.drop_first().len() implies (#[trigger] fa.drop_first()[k]).off != i && !(
        fa.drop_first()[k].abs && fa.drop_first()[k].off + 1 == i) by {
            assert(fa.drop_first()[k] == fa[k + 1]);
        }
        lemma_run_patches_untouched(cg2, lb, fa.drop_first(), i);
    }
}

/// Label resolution through a relative forward reference: once the patch
/// pass succeeds, the byte at a recorded relative patch offset is exactly
/// the displacement from the byte after it to the label's final address,
/// as long as no later patch writes the same byte. The label is
/// necessarily known.
pub proof fn lemma_patch_rel_final(
    cg: Seq<u8>,
    lb: Map<Seq<char>, usize>,
    fa: Seq<PatchV>,
    k: int,
)
    requires
        run_patches(cg, lb, fa) is Ok,
        patches_fit(fa, cg.len() as int),
        0 <= k < fa.len(),
        !fa[k].abs,
        forall|j: int|
            k < j < fa.len() ==> (#[trigger] fa[j]).off != fa[k].off && !(fa[j].abs && fa[j].off
                + 1 == fa[k].off),
    ensures
        lb.contains_key(fa[k].name),
        run_patches(cg, lb, fa)->Ok_0[fa[k].off as int] == rel_byte(
            lb[fa[k].name] as int,
            fa[k].off as int + 1,
        ),
    decreases fa.len(),
{
    let p = fa[0];
    let a = lb[p.name] as int;
    let cg2 = if p.abs {
        cg.update(p.off as int, ((a / 256) % 256) as u8).update(
            p.off as int + 1,
            (a % 256) as u8,
        )
    } else {
        cg.update(p.off as int, rel_byte(a, p.off as int + 1))
    };
    assert forall|j: int|
        0 <= j < fa.drop_first().len() implies fa.drop_first()[j] == (#[trigger] fa[j + 1]) by {}
    if k == 0 {
        assert(cg2[p.off as int] == rel_byte(a, p.off as int + 1));
        lemma_run_patches_untouched(cg2, lb, fa.drop_first(), p.off as int);
    } else {
        assert(cg2.len() == cg.len());
        assert(fa.drop_first()[k - 1] == fa[k]);
        lemma_patch_rel_final(cg2, lb, fa.drop_first(), k - 1);
    }
}

/// Label resolution through an absolute forward reference: once the patch
/// pass succeeds, the two bytes at a recorded absolute patch offset hold
/// the label's final address big-endian, as long as no later patch writes
/// either byte. The label is necessarily known.
pub proof fn lemma_patch_abs_final(
    cg: Seq<u8>,
    lb: Map<Seq<char>, usize>,
    fa: Seq<PatchV>,
    k: int,
)
    requires
        run_patches(cg, lb, fa) is Ok,
        patches_fit(fa, cg.len() as int),
        0 <= k < fa.len(),
        fa[k].abs,
        forall|j: int|
            k < j < fa.len() ==> (#[trigger] fa[j]).off != fa[k].off && fa[j].off != fa[k].off + 1
                && !(fa[j].abs && (fa[j].off + 1 == fa[k].off || fa[j].off + 1 == fa[k].off + 1)),
    ensures
        lb.contains_key(fa[k].name),
        run_patches(cg, lb, fa)->Ok_0[fa[k].off as int] == ((lb[fa[k].name] as int / 256)
            % 256) as u8,
        run_patches(cg, lb, fa)->Ok_0[fa[k].off as int + 1] == ((lb[fa[k].name] as int)
            % 256) as u8,
    decreases fa.len(),
{
    let p = fa[0];
    let a = lb[p.name] as int;
    let cg2 = if p.abs {
        cg.update(p.off as int, ((a / 256) % 256) as u8).update(
            p.off as int + 1,
            (a % 256) as u8,
        )
    } else {
        cg.update(p.off as int, rel_byte(a, p.off as int + 1))
    };
    assert forall|j: int|
        0 <= j < fa.drop_first().len() implies fa.drop_first()[j] == (#[trigger] fa[j + 1]) by {}
    if k == 0 {
        assert(cg2[p.off as int] == ((a / 256) % 256) as u8);
        assert(cg2[p.off as int + 1] == (a % 256) as u8);
        lemma_run_patches_untouched(cg2, lb, fa.drop_first(), p.off as int);
        lemma_run_patches_untouched(cg2, lb, fa.drop_first(), p.off as int + 1);
    } else {
        assert(cg2.len() == cg.len());
        assert(fa.drop_first()[k - 1] == fa[k]);
        lemma_patch_abs_final(cg2, lb, fa.drop_first(), k - 1);
    }
}

/// A negative literal is rejected with the error of its own kind, never
/// two's-complemented into a value.
pub proof fn lemma_negative_rejected(s: Seq<char>, max: nat)
    requires
        s.len() > 0,
        s[0] == '-',
    ensures
        spec_parse_numeral(s, max) == Err::<nat, NumErr>(NumErr::Negative),
{
}

} // verus!

