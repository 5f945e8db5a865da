//! The code generator: a single emission pass over the instruction stream
//! with a symbol table populated as it goes, followed by one patch pass
//! that backfills forward references once every label is known.

use vstd::prelude::*;
use crate::codegen;
use crate::codegen::{
    enc_add_a_a, enc_add_a_b, enc_add_a_data, enc_add_a_rn, enc_ljmp, enc_mov_a_b, enc_mov_a_data,
    enc_mov_a_rn, enc_mov_b_a, enc_mov_b_data, enc_mov_b_rn, enc_mov_rn_a, enc_mov_rn_b,
    enc_mov_rn_data, enc_mov_rn_rn, enc_sjmp,
};
use crate::lexer::{Instruction, InstrV};
use crate::numeral::{parse_number, parse_number_16, spec_parse_numeral, NumErr};
use crate::symtab::SymbolTable;

verus! {

/// A `mov`/`add` destination operand.
#[derive(Debug)]
pub enum Destination {
    RegisterR(u8),
    RegisterA,
    RegisterB,
    Label(String),
}

/// A `mov`/`add` source operand.
#[derive(Debug)]
pub enum Source {
    RegisterR(u8),
    RegisterA,
    RegisterB,
    Label(String),
    Immediate(u8),
}

/// The model of a [`Destination`].
#[verifier::ext_equal]
pub enum DestV {
    RegR(u8),
    RegA,
    RegB,
    Label(Seq<char>),
}

/// The model of a [`Source`].
#[verifier::ext_equal]
pub enum SrcV {
    RegR(u8),
    RegA,
    RegB,
    Label(Seq<char>),
    Imm(u8),
}

impl View for Destination {
    type V = DestV;

    open spec fn view(&self) -> DestV {
        match self {
            Destination::RegisterR(n) => DestV::RegR(*n),
            Destination::RegisterA => DestV::RegA,
            Destination::RegisterB => DestV::RegB,
            Destination::Label(s) => DestV::Label(s@),
        }
    }
}

impl View for Source {
    type V = SrcV;

    open spec fn view(&self) -> SrcV {
        match self {
            Source::RegisterR(n) => SrcV::RegR(*n),
            Source::RegisterA => SrcV::RegA,
            Source::RegisterB => SrcV::RegB,
            Source::Label(s) => SrcV::Label(s@),
            Source::Immediate(d) => SrcV::Imm(*d),
        }
    }
}

/// A fatal assembly error, carrying the offending source line where one
/// is known.
#[derive(Debug)]
pub enum AsmError {
    /// A numeric literal that is empty, has a bad digit, or overflows.
    MalformedNumber { line: usize },
    /// A negative numeric literal.
    NegativeNumber { line: usize },
    /// An `org` directive pointing behind the current position.
    OrgBackward { line: usize },
    /// An operand pair with no valid encoding (`mov A,A`, `mov B,B`, or an
    /// `add` destination other than `A`).
    InvalidOperands { line: usize },
    /// A label operand where `mov`/`add` support none.
    UnsupportedOperands { line: usize },
    /// A forward reference whose label was never declared.
    UndefinedLabel { name: String },
}

/// The model of an [`AsmError`].
#[verifier::ext_equal]
pub enum ErrV {
    MalformedNumber { line: nat },
    NegativeNumber { line: nat },
    OrgBackward { line: nat },
    InvalidOperands { line: nat },
    UnsupportedOperands { line: nat },
    UndefinedLabel { name: Seq<char> },
}

impl View for AsmError {
    type V = ErrV;

    open spec fn view(&self) -> ErrV {
        match self {
            AsmError::MalformedNumber { line } => ErrV::MalformedNumber { line: *line as nat },
            AsmError::NegativeNumber { line } => ErrV::NegativeNumber { line: *line as nat },
            AsmError::OrgBackward { line } => ErrV::OrgBackward { line: *line as nat },
            AsmError::InvalidOperands { line } => ErrV::InvalidOperands { line: *line as nat },
            AsmError::UnsupportedOperands { line } => ErrV::UnsupportedOperands {
                line: *line as nat,
            },
            AsmError::UndefinedLabel { name } => ErrV::UndefinedLabel { name: name@ },
        }
    }
}

/// What a numeral error means at a given source line.
pub open spec fn num_err(e: NumErr, line: nat) -> ErrV {
    match e {
        NumErr::Malformed => ErrV::MalformedNumber { line },
        NumErr::Negative => ErrV::NegativeNumber { line },
    }
}

/// Whether `s` is a register operand: `R`/`r` followed by one digit 0-7.
pub open spec fn is_reg_operand(s: Seq<char>) -> bool {
    s.len() == 2 && (s[0] == 'R' || s[0] == 'r') && 48 <= s[1] as u32 <= 55
}

/// The register index of a register operand.
pub open spec fn reg_index(s: Seq<char>) -> u8 {
    (s[1] as u32 - 48) as u8
}

/// What a destination operand means: a register, or a label fallback.
pub open spec fn spec_parse_destination(s: Seq<char>) -> DestV {
    if is_reg_operand(s) {
        DestV::RegR(reg_index(s))
    } else if s.len() == 1 && (s[0] == 'A' || s[0] == 'a') {
        DestV::RegA
    } else if s.len() == 1 && (s[0] == 'B' || s[0] == 'b') {
        DestV::RegB
    } else {
        DestV::Label(s)
    }
}

/// What a source operand means: a `#`-prefixed immediate (whose numeral
/// must parse), a register, or a label fallback.
pub open spec fn spec_parse_source(s: Seq<char>) -> Result<SrcV, NumErr> {
    if s.len() > 0 && s[0] == '#' {
        match spec_parse_numeral(s.drop_first(), 255) {
            Ok(v) => Ok(SrcV::Imm(v as u8)),
            Err(e) => Err(e),
        }
    } else if is_reg_operand(s) {
        Ok(SrcV::RegR(reg_index(s)))
    } else if s.len() == 1 && (s[0] == 'A' || s[0] == 'a') {
        Ok(SrcV::RegA)
    } else if s.len() == 1 && (s[0] == 'B' || s[0] == 'b') {
        Ok(SrcV::RegB)
    } else {
        Ok(SrcV::Label(s))
    }
}

/// Parse a destination operand.
pub fn parse_destination(s: &str) -> (r: Destination)
    ensures
        r@ == spec_parse_destination(s@),
{
    let n = s.unicode_len();
    if n == 2 {
        let c0 = s.get_char(0);
        if c0 == 'R' || c0 == 'r' {
            let c1 = s.get_char(1) as u32;
            if 48 <= c1 && c1 <= 55 {
                return Destination::RegisterR((c1 - 48) as u8);
            }
        }
    }
    if n == 1 {
        let c0 = s.get_char(0);
        if c0 == 'A' || c0 == 'a' {
            return Destination::RegisterA;
        }
        if c0 == 'B' || c0 == 'b' {
            return Destination::RegisterB;
        }
    }
    Destination::Label(s.to_owned())
}

/// Parse a source operand.
pub fn parse_source(s: &str) -> (r: Result<Source, NumErr>)
    ensures
        (match r {
            Ok(src) => Ok(src@),
            Err(e) => Err(e),
        }) == spec_parse_source(s@),
{
    let n = s.unicode_len();
    if n > 0 && s.get_char(0) == '#' {
        let digits = s.substring_char(1, n);
        proof {
            assert(digits@ =~= s@.drop_first());
        }
        return match parse_number(digits) {
            Ok(v) => Ok(Source::Immediate(v)),
            Err(e) => Err(e),
        };
    }
    if n == 2 {
        let c0 = s.get_char(0);
        if c0 == 'R' || c0 == 'r' {
            let c1 = s.get_char(1) as u32;
            if 48 <= c1 && c1 <= 55 {
                return Ok(Source::RegisterR((c1 - 48) as u8));
            }
        }
    }
    if n == 1 {
        let c0 = s.get_char(0);
        if c0 == 'A' || c0 == 'a' {
            return Ok(Source::RegisterA);
        }
        if c0 == 'B' || c0 == 'b' {
            return Ok(Source::RegisterB);
        }
    }
    Ok(Source::Label(s.to_owned()))
}

/// A recorded forward reference: the byte offset to backfill, the label it
/// waits for, and whether the patch is a 16-bit absolute address (two
/// bytes, big-endian) or an 8-bit relative displacement (one byte).
#[verifier::ext_equal]
pub struct PatchV {
    pub off: nat,
    pub name: Seq<char>,
    pub abs: bool,
}

/// The assembler's state: the code buffer, the symbol table, and the
/// forward references recorded so far.
#[verifier::ext_equal]
pub struct AsmSt {
    pub cg: Seq<u8>,
    pub lb: Map<Seq<char>, usize>,
    pub fa: Seq<PatchV>,
}

/// Every patch in `fa` fits inside a buffer of length `len`: one byte for
/// a relative patch, two for an absolute one.
pub open spec fn patches_fit(fa: Seq<PatchV>, len: int) -> bool {
    forall|k: int|
        0 <= k < fa.len() ==> #[trigger] fa[k].off + (if fa[k].abs {
            2int
        } else {
            1int
        }) <= len
}

/// Every recorded patch fits inside the code buffer.
pub open spec fn fa_wf(st: AsmSt) -> bool {
    patches_fit(st.fa, st.cg.len() as int)
}

/// The reserved pseudo-label bound to the current program counter.
pub open spec fn dollar() -> Seq<char> {
    seq!['$']
}

/// Case-insensitive mnemonic tests.
pub open spec fn is_org(s: Seq<char>) -> bool {
    s.len() == 3 && (s[0] == 'o' || s[0] == 'O') && (s[1] == 'r' || s[1] == 'R') && (s[2] == 'g'
        || s[2] == 'G')
}

pub open spec fn is_sjmp(s: Seq<char>) -> bool {
    s.len() == 4 && (s[0] == 's' || s[0] == 'S') && (s[1] == 'j' || s[1] == 'J') && (s[2] == 'm'
        || s[2] == 'M') && (s[3] == 'p' || s[3] == 'P')
}

pub open spec fn is_ljmp(s: Seq<char>) -> bool {
    s.len() == 4 && (s[0] == 'l' || s[0] == 'L') && (s[1] == 'j' || s[1] == 'J') && (s[2] == 'm'
        || s[2] == 'M') && (s[3] == 'p' || s[3] == 'P')
}

pub open spec fn is_mov(s: Seq<char>) -> bool {
    s.len() == 3 && (s[0] == 'm' || s[0] == 'M') && (s[1] == 'o' || s[1] == 'O') && (s[2] == 'v'
        || s[2] == 'V')
}

pub open spec fn is_add(s: Seq<char>) -> bool {
    s.len() == 3 && (s[0] == 'a' || s[0] == 'A') && (s[1] == 'd' || s[1] == 'D') && (s[2] == 'd'
        || s[2] == 'D')
}

/// Resolve a jump operand to an 8-bit address: a known label (truncated to
/// a byte), a `#` immediate, or `None` for a label still to be declared.
/// An empty operand resolves to zero and records nothing.
pub open spec fn resolve8(lb: Map<Seq<char>, usize>, op: Seq<char>) -> Result<Option<u8>, NumErr> {
    if lb.contains_key(op) {
        Ok(Some(lb[op] as u8))
    } else if op.len() > 0 && op[0] == '#' {
        match spec_parse_numeral(op.drop_first(), 255) {
            Ok(v) => Ok(Some(v as u8)),
            Err(e) => Err(e),
        }
    } else if op.len() == 0 {
        Ok(Some(0))
    } else {
        Ok(None)
    }
}

/// Resolve a jump operand to a 16-bit address, as [`resolve8`] does.
pub open spec fn resolve16(lb: Map<Seq<char>, usize>, op: Seq<char>) -> Result<
    Option<u16>,
    NumErr,
> {
    if lb.contains_key(op) {
        Ok(Some(lb[op] as u16))
    } else if op.len() > 0 && op[0] == '#' {
        match spec_parse_numeral(op.drop_first(), 65535) {
            Ok(v) => Ok(Some(v as u16)),
            Err(e) => Err(e),
        }
    } else if op.len() == 0 {
        Ok(Some(0))
    } else {
        Ok(None)
    }
}

/// The relative-branch byte reaching `target` from the instruction that
/// ends at `after`: their difference, two's-complemented into one byte.
pub open spec fn rel_byte(target: int, after: int) -> u8 {
    (((target - after) % 256) as u8)
}

/// Append `n` zero bytes.
pub open spec fn zeros(n: nat) -> Seq<u8> {
    Seq::new(n, |i: int| 0u8)
}

/// What one instruction does to the assembler state. The pseudo-label `$`
/// is re-bound to the current program counter first, so operands using it
/// resolve to "here". Unknown mnemonics are skipped as a deliberate
/// tolerance.
pub open spec fn asm_step(ins: InstrV, st0: AsmSt) -> Result<AsmSt, ErrV> {
    let st = AsmSt { lb: st0.lb.insert(dollar(), st0.cg.len() as usize), ..st0 };
    match ins {
        InstrV::Label { name, line } => Ok(
            AsmSt { lb: st.lb.insert(name, st.cg.len() as usize), ..st },
        ),
        InstrV::End { line } => Ok(AsmSt { cg: st.cg + seq![0u8], ..st }),
        InstrV::OneArg { name, op, line } => one_arg_step(name, op, line, st),
        InstrV::TwoArg { name, op1, op2, line } => two_arg_step(name, op1, op2, line, st),
    }
}

/// What a one-operand line does: the `org` directive, a jump, or nothing
/// for an unknown mnemonic.
pub open spec fn one_arg_step(name: Seq<char>, op: Seq<char>, line: nat, st: AsmSt) -> Result<
    AsmSt,
    ErrV,
> {
    if is_org(name) {
        match spec_parse_numeral(op, 65535) {
            Err(e) => Err(num_err(e, line)),
            Ok(addr) => if addr >= st.cg.len() {
                Ok(AsmSt { cg: st.cg + zeros((addr - st.cg.len()) as nat), ..st })
            } else {
                Err(ErrV::OrgBackward { line })
            },
        }
    } else if is_sjmp(name) {
        match resolve8(st.lb, op) {
            Err(e) => Err(num_err(e, line)),
            Ok(Some(target)) => Ok(
                AsmSt {
                    cg: st.cg + enc_sjmp(rel_byte(target as int, st.cg.len() as int + 2)),
                    ..st
                },
            ),
            Ok(None) => Ok(
                AsmSt {
                    cg: st.cg + enc_sjmp(0),
                    fa: st.fa.push(PatchV { off: (st.cg.len() + 1) as nat, name: op, abs: false }),
                    ..st
                },
            ),
        }
    } else if is_ljmp(name) {
        match resolve16(st.lb, op) {
            Err(e) => Err(num_err(e, line)),
            Ok(Some(target)) => Ok(AsmSt { cg: st.cg + enc_ljmp(target), ..st }),
            Ok(None) => Ok(
                AsmSt {
                    cg: st.cg + enc_ljmp(0),
                    fa: st.fa.push(PatchV { off: (st.cg.len() + 1) as nat, name: op, abs: true }),
                    ..st
                },
            ),
        }
    } else {
        Ok(st)
    }
}

/// What a two-operand line does: lower `mov` or `add`, or nothing for an
/// unknown mnemonic.
pub open spec fn two_arg_step(
    name: Seq<char>,
    op1: Seq<char>,
    op2: Seq<char>,
    line: nat,
    st: AsmSt,
) -> Result<AsmSt, ErrV> {
    if is_mov(name) {
        mov_step(op1, op2, line, st)
    } else if is_add(name) {
        add_step(op1, op2, line, st)
    } else {
        Ok(st)
    }
}

/// Append one encoded instruction to the buffer.
pub open spec fn emit(st: AsmSt, bytes: Seq<u8>) -> Result<AsmSt, ErrV> {
    Ok(AsmSt { cg: st.cg + bytes, ..st })
}

/// Lower a `mov` operand pair to its encoding. `mov A,A` and `mov B,B`
/// have no encoding; label operands are unsupported and rejected rather
/// than silently miscompiled.
pub open spec fn mov_step(op1: Seq<char>, op2: Seq<char>, line: nat, st: AsmSt) -> Result<
    AsmSt,
    ErrV,
> {
    let dest = spec_parse_destination(op1);
    match spec_parse_source(op2) {
        Err(e) => Err(num_err(e, line)),
        Ok(src) => match (dest, src) {
            (DestV::RegR(n), SrcV::Imm(d)) => emit(st, enc_mov_rn_data(n, d)),
            (DestV::RegR(n), SrcV::RegA) => emit(st, enc_mov_rn_a(n)),
            (DestV::RegR(n), SrcV::RegB) => emit(st, enc_mov_rn_b(n)),
            (DestV::RegR(n), SrcV::RegR(m)) => emit(st, enc_mov_rn_rn(n, m)),
            (DestV::RegA, SrcV::Imm(d)) => emit(st, enc_mov_a_data(d)),
            (DestV::RegA, SrcV::RegR(n)) => emit(st, enc_mov_a_rn(n)),
            (DestV::RegA, SrcV::RegB) => emit(st, enc_mov_a_b()),
            (DestV::RegA, SrcV::RegA) => Err(ErrV::InvalidOperands { line }),
            (DestV::RegB, SrcV::Imm(d)) => emit(st, enc_mov_b_data(d)),
            (DestV::RegB, SrcV::RegR(n)) => emit(st, enc_mov_b_rn(n)),
            (DestV::RegB, SrcV::RegA) => emit(st, enc_mov_b_a()),
            (DestV::RegB, SrcV::RegB) => Err(ErrV::InvalidOperands { line }),
            (DestV::Label(_), _) => Err(ErrV::UnsupportedOperands { line }),
            (_, SrcV::Label(_)) => Err(ErrV::UnsupportedOperands { line }),
        },
    }
}

/// Lower an `add`: the destination must be the accumulator, and label
/// sources are unsupported.
pub open spec fn add_step(op1: Seq<char>, op2: Seq<char>, line: nat, st: AsmSt) -> Result<
    AsmSt,
    ErrV,
> {
    let dest = spec_parse_destination(op1);
    match spec_parse_source(op2) {
        Err(e) => Err(num_err(e, line)),
        Ok(src) => if !(dest is RegA) {
            Err(ErrV::InvalidOperands { line })
        } else {
            match src {
                SrcV::RegR(n) => emit(st, enc_add_a_rn(n)),
                SrcV::Imm(d) => emit(st, enc_add_a_data(d)),
                SrcV::RegA => emit(st, enc_add_a_a()),
                SrcV::RegB => emit(st, enc_add_a_b()),
                SrcV::Label(_) => Err(ErrV::UnsupportedOperands { line }),
            }
        },
    }
}

/// The emission pass: fold [`asm_step`] over the instruction stream.
pub open spec fn pass1(instrs: Seq<InstrV>, st: AsmSt) -> Result<AsmSt, ErrV>
    decreases instrs.len(),
{
    if instrs.len() == 0 {
        Ok(st)
    } else {
        match asm_step(instrs[0], st) {
            Err(e) => Err(e),
            Ok(st2) => pass1(instrs.drop_first(), st2),
        }
    }
}

/// The patch pass: backfill each forward reference in order. An absolute
/// patch writes the label's address big-endian at the two recorded bytes;
/// a relative patch writes the displacement from the byte after the
/// recorded offset. A label still unknown here is fatal.
pub open spec fn run_patches(cg: Seq<u8>, lb: Map<Seq<char>, usize>, fa: Seq<PatchV>) -> Result<
    Seq<u8>,
    ErrV,
>
    decreases fa.len(),
{
    if fa.len() == 0 {
        Ok(cg)
    } else {
        let p = fa[0];
        if !lb.contains_key(p.name) {
            Err(ErrV::UndefinedLabel { name: p.name })
        } else {
            let a = lb[p.name] as int;
            let cg2 = if p.abs {
                cg.update(p.off as int, ((a / 256) % 256) as u8).update(
                    p.off as int + 1,
                    (a % 256) as u8,
                )
            } else {
                cg.update(p.off as int, rel_byte(a, p.off as int + 1))
            };
            run_patches(cg2, lb, fa.drop_first())
        }
    }
}

/// The whole two-pass assembly, from an instruction stream and a starting
/// state to the final state whose buffer is fully patched.
pub open spec fn spec_assemble(instrs: Seq<InstrV>, st0: AsmSt) -> Result<AsmSt, ErrV> {
    match pass1(instrs, st0) {
        Err(e) => Err(e),
        Ok(st) => match run_patches(st.cg, st.lb, st.fa) {
            Err(e) => Err(e),
            Ok(cg) => Ok(AsmSt { cg, ..st }),
        },
    }
}

/// A state whose patches fit keeps fitting when the buffer only grows and
/// the patch list stays.
proof fn lemma_fa_preserved(st: AsmSt, st2: AsmSt)
    requires
        fa_wf(st),
        st2.fa == st.fa,
        st2.cg.len() >= st.cg.len(),
    ensures
        fa_wf(st2),
{
    assert forall|k: int|
        0 <= k < st2.fa.len() implies #[trigger] st2.fa[k].off + (if st2.fa[k].abs {
        2int
    } else {
        1int
    }) <= st2.cg.len() by {
        assert(st.fa[k].off + (if st.fa[k].abs {
            2int
        } else {
            1int
        }) <= st.cg.len());
    }
}

/// Pushing one fitting patch onto a fitting list keeps every patch fitting.
proof fn lemma_fa_push(st: AsmSt, st2: AsmSt, p: PatchV)
    requires
        fa_wf(st),
        st2.fa == st.fa.push(p),
        st2.cg.len() >= st.cg.len(),
        p.off + (if p.abs {
            2int
        } else {
            1int
        }) <= st2.cg.len(),
    ensures
        fa_wf(st2),
{
    assert forall|k: int|
        0 <= k < st2.fa.len() implies #[trigger] st2.fa[k].off + (if st2.fa[k].abs {
        2int
    } else {
        1int
    }) <= st2.cg.len() by {
        if k < st.fa.len() {
            assert(st2.fa[k] == st.fa[k]);
            assert(st.fa[k].off + (if st.fa[k].abs {
                2int
            } else {
                1int
            }) <= st.cg.len());
        } else {
            assert(st2.fa[k] == p);
        }
    }
}

/// A successful step keeps every recorded patch inside the buffer, never
/// shrinks the buffer, and grows it by at most three bytes beyond the
/// 16-bit address space an `org` directive can reach.
#[verifier::rlimit(100)]
#[verifier::spinoff_prover]
pub proof fn lemma_asm_step_wf(ins: InstrV, st: AsmSt, st2: AsmSt)
    requires
        asm_step(ins, st) == Ok::<AsmSt, ErrV>(st2),
        fa_wf(st),
    ensures
        fa_wf(st2),
        st.cg.len() <= st2.cg.len(),
        st2.cg.len() <= (if st.cg.len() < 65536 {
            65536int
        } else {
            st.cg.len() as int
        }) + 3,
{
    let stm = AsmSt { lb: st.lb.insert(dollar(), st.cg.len() as usize), ..st };
    match ins {
        InstrV::Label { name, line } => {
            lemma_fa_preserved(st, st2);
        },
        InstrV::End { line } => {
            lemma_fa_preserved(st, st2);
        },
        InstrV::OneArg { name, op, line } => {
            if is_org(name) {
                lemma_fa_preserved(st, st2);
            } else if is_sjmp(name) {
                match resolve8(stm.lb, op) {
                    Err(_) => {},
                    Ok(Some(_)) => {
                        lemma_fa_preserved(st, st2);
                    },
                    Ok(None) => {
                        lemma_fa_push(
                            st,
                            st2,
                            PatchV { off: (st.cg.len() + 1) as nat, name: op, abs: false },
                        );
                    },
                }
            } else if is_ljmp(name) {
                match resolve16(stm.lb, op) {
                    Err(_) => {},
                    Ok(Some(_)) => {
                        lemma_fa_preserved(st, st2);
                    },
                    Ok(None) => {
                        lemma_fa_push(
                            st,
                            st2,
                            PatchV { off: (st.cg.len() + 1) as nat, name: op, abs: true },
                        );
                    },
                }
            } else {
                lemma_fa_preserved(st, st2);
            }
        },
        InstrV::TwoArg { name, op1, op2, line } => {
            lemma_fa_preserved(st, st2);
        },
    }
}

/// Build the error a failed numeral means at `line`.
fn mk_num_err(e: NumErr, line: usize) -> (r: AsmError)
    ensures
        r@ == num_err(e, line as nat),
{
    match e {
        NumErr::Malformed => AsmError::MalformedNumber { line },
        NumErr::Negative => AsmError::NegativeNumber { line },
    }
}

/// Case-insensitive mnemonic tests, mirroring the spec predicates.
fn mn_org(s: &str) -> (r: bool)
    ensures
        r == is_org(s@),
{
    if s.unicode_len() != 3 {
        return false;
    }
    let c0 = s.get_char(0);
    let c1 = s.get_char(1);
    let c2 = s.get_char(2);
    (c0 == 'o' || c0 == 'O') && (c1 == 'r' || c1 == 'R') && (c2 == 'g' || c2 == 'G')
}

fn mn_sjmp(s: &str) -> (r: bool)
    ensures
        r == is_sjmp(s@),
{
    if s.unicode_len() != 4 {
        return false;
    }
    let c0 = s.get_char(0);
    let c1 = s.get_char(1);
    let c2 = s.get_char(2);
    let c3 = s.get_char(3);
    (c0 == 's' || c0 == 'S') && (c1 == 'j' || c1 == 'J') && (c2 == 'm' || c2 == 'M') && (c3 == 'p'
        || c3 == 'P')
}

fn mn_ljmp(s: &str) -> (r: bool)
    ensures
        r == is_ljmp(s@),
{
    if s.unicode_len() != 4 {
        return false;
    }
    let c0 = s.get_char(0);
    let c1 = s.get_char(1);
    let c2 = s.get_char(2);
    let c3 = s.get_char(3);
    (c0 == 'l' || c0 == 'L') && (c1 == 'j' || c1 == 'J') && (c2 == 'm' || c2 == 'M') && (c3 == 'p'
        || c3 == 'P')
}

fn mn_mov(s: &str) -> (r: bool)
    ensures
        r == is_mov(s@),
{
    if s.unicode_len() != 3 {
        return false;
    }
    let c0 = s.get_char(0);
    let c1 = s.get_char(1);
    let c2 = s.get_char(2);
    (c0 == 'm' || c0 == 'M') && (c1 == 'o' || c1 == 'O') && (c2 == 'v' || c2 == 'V')
}

fn mn_add(s: &str) -> (r: bool)
    ensures
        r == is_add(s@),
{
    if s.unicode_len() != 3 {
        return false;
    }
    let c0 = s.get_char(0);
    let c1 = s.get_char(1);
    let c2 = s.get_char(2);
    (c0 == 'a' || c0 == 'A') && (c1 == 'd' || c1 == 'D') && (c2 == 'd' || c2 == 'D')
}

/// The two-pass code generator: consumes the instruction stream in `raw`
/// and leaves the assembled program in `cg`.
pub struct IPContext {
    pub cg: Vec<u8>,
    pub raw: Vec<Instruction>,
    pub lb: SymbolTable,
    pub future_addrs: Vec<(usize, String, bool)>,
}

impl IPContext {
    /// The assembler state this context holds.
    pub open spec fn st(&self) -> AsmSt {
        AsmSt {
            cg: self.cg@,
            lb: self.lb@,
            fa: self.future_addrs@.map_values(
                |t: (usize, String, bool)| PatchV { off: t.0 as nat, name: t.1@, abs: t.2 },
            ),
        }
    }

    /// A fresh context over the given instruction stream.
    pub fn new(raw: Vec<Instruction>) -> (r: IPContext)
        ensures
            r.raw == raw,
            r.st() == (AsmSt {
                cg: Seq::<u8>::empty(),
                lb: Map::<Seq<char>, usize>::empty(),
                fa: Seq::<PatchV>::empty(),
            }),
    {
        let r = IPContext {
            cg: Vec::new(),
            raw,
            lb: SymbolTable::new(),
            future_addrs: Vec::new(),
        };
        proof {
            assert(r.st() =~= (AsmSt {
                cg: Seq::<u8>::empty(),
                lb: Map::<Seq<char>, usize>::empty(),
                fa: Seq::<PatchV>::empty(),
            }));
        }
        r
    }

    /// Resolve a jump operand to an 8-bit address. A known label resolves
    /// at once (truncated to a byte), a `#` immediate parses, and anything
    /// else is a not-yet-declared label: `fa` receives its name and a zero
    /// placeholder is returned.
    pub fn parse_address(&self, op: &str, fa: &mut String) -> (r: Result<u8, NumErr>)
        ensures
            self.lb@.contains_key(op@) ==> (r == Ok::<u8, NumErr>((self.lb@[op@] as u8))
                && *final(fa) == *old(fa)),
            !self.lb@.contains_key(op@) && op@.len() > 0 && op@[0] == '#' ==> ((match
                spec_parse_numeral(op@.drop_first(), 255) {
                Ok(v) => r == Ok::<u8, NumErr>((v as u8)),
                Err(e) => r == Err::<u8, NumErr>(e),
            }) && *final(fa) == *old(fa)),
            !self.lb@.contains_key(op@) && !(op@.len() > 0 && op@[0] == '#') ==> (r == Ok::<
                u8,
                NumErr,
            >(0) && final(fa)@ == op@),
    {
        match self.lb.get(op) {
            Some(a) => Ok(a as u8),
            None => {
                let n = op.unicode_len();
                if n > 0 && op.get_char(0) == '#' {
                    let digits = op.substring_char(1, n);
                    proof {
                        assert(digits@ =~= op@.drop_first());
                    }
                    parse_number(digits)
                } else {
                    *fa = op.to_owned();
                    Ok(0)
                }
            },
        }
    }

    /// Resolve a jump operand to a 16-bit address, as
    /// [`IPContext::parse_address`] does for 8 bits.
    pub fn parse_address_16(&self, op: &str, fa: &mut String) -> (r: Result<u16, NumErr>)
        ensures
            self.lb@.contains_key(op@) ==> (r == Ok::<u16, NumErr>((self.lb@[op@] as u16))
                && *final(fa) == *old(fa)),
            !self.lb@.contains_key(op@) && op@.len() > 0 && op@[0] == '#' ==> ((match
                spec_parse_numeral(op@.drop_first(), 65535) {
                Ok(v) => r == Ok::<u16, NumErr>((v as u16)),
                Err(e) => r == Err::<u16, NumErr>(e),
            }) && *final(fa) == *old(fa)),
            !self.lb@.contains_key(op@) && !(op@.len() > 0 && op@[0] == '#') ==> (r == Ok::<
                u16,
                NumErr,
            >(0) && final(fa)@ == op@),
    {
        match self.lb.get(op) {
            Some(a) => Ok(a as u16),
            None => {
                let n = op.unicode_len();
                if n > 0 && op.get_char(0) == '#' {
                    let digits = op.substring_char(1, n);
                    proof {
                        assert(digits@ =~= op@.drop_first());
                    }
                    parse_number_16(digits)
                } else {
                    *fa = op.to_owned();
                    Ok(0)
                }
            },
        }
    }
}

impl IPContext {
    /// The two-pass assembly: emit every instruction in order, binding
    /// labels and recording forward references as the program counter
    /// advances, then backfill every forward reference from the complete
    /// symbol table. Exactly [`spec_assemble`] applied to the instruction
    /// stream, with the error it names on the input it names.
    pub fn run(&mut self) -> (r: Result<(), AsmError>)
        requires
            fa_wf(old(self).st()),
            old(self).cg@.len() + 65539 + 3 * old(self).raw@.len() <= usize::MAX,
        ensures
            final(self).raw == old(self).raw,
            (match r {
                Ok(_) => Ok::<AsmSt, ErrV>(final(self).st()),
                Err(e) => Err::<AsmSt, ErrV>(e@),
            }) == spec_assemble(
                old(self).raw@.map_values(|ins: Instruction| ins@),
                old(self).st(),
            ),
    {
        let ghost instrs = self.raw@.map_values(|ins: Instruction| ins@);
        let ghost st_init = self.st();
        let ghost len0 = self.cg@.len() as int;
        let n = self.raw.len();
        proof {
            assert(instrs.skip(0) =~= instrs);
        }
        let mut i: usize = 0;
        while i < n
            invariant
                i <= n,
                n == self.raw@.len(),
                self.raw == old(self).raw,
                instrs == old(self).raw@.map_values(|ins: Instruction| ins@),
                st_init == old(self).st(),
                len0 == old(self).cg@.len() as int,
                len0 + 65539 + 3 * (n as int) <= usize::MAX,
                fa_wf(self.st()),
                self.cg@.len() <= (if len0 < 65536 {
                    65536int
                } else {
                    len0
                }) + 3 * (i as int),
                pass1(instrs.skip(i as int), self.st()) == pass1(instrs, st_init),
            decreases n - i,
        {
            let ins = self.raw[i].clone();
            let ghost pre = self.st();
            let res = self.exec_step(ins);
            match res {
                Ok(()) => {
                    proof {
                        assert(instrs.skip(i as int)[0] == instrs[i as int]);
                        assert(instrs.skip(i as int).drop_first() =~= instrs.skip(i as int + 1));
                        lemma_asm_step_wf(instrs[i as int], pre, self.st());
                    }
                },
                Err(e) => {
                    proof {
                        assert(instrs.skip(i as int)[0] == instrs[i as int]);
                        assert(pass1(instrs, st_init) == Err::<AsmSt, ErrV>(e@));
                    }
                    return Err(e);
                },
            }
            i += 1;
        }
        proof {
            assert(instrs.skip(n as int) =~= Seq::<InstrV>::empty());
            assert(pass1(instrs, st_init) == Ok::<AsmSt, ErrV>(self.st()));
        }
        let ghost st1 = self.st();
        let ghost lb_snap = self.lb;
        let ghost fa_snap = self.future_addrs;
        let m = self.future_addrs.len();
        proof {
            assert(st1.fa.skip(0) =~= st1.fa);
        }
        let mut j: usize = 0;
        while j < m
            invariant
                j <= m,
                m == self.future_addrs@.len(),
                self.raw == old(self).raw,
                self.lb == lb_snap,
                self.future_addrs == fa_snap,
                self.st().lb == st1.lb,
                self.st().fa == st1.fa,
                self.cg@.len() == st1.cg.len(),
                fa_wf(st1),
                instrs == old(self).raw@.map_values(|ins: Instruction| ins@),
                st_init == old(self).st(),
                pass1(instrs, st_init) == Ok::<AsmSt, ErrV>(st1),
                run_patches(self.cg@, st1.lb, st1.fa.skip(j as int)) == run_patches(
                    st1.cg,
                    st1.lb,
                    st1.fa,
                ),
            decreases m - j,
        {
            let off = self.future_addrs[j].0;
            let abs = self.future_addrs[j].2;
            let name = self.future_addrs[j].1.clone();
            let ghost p = st1.fa[j as int];
            proof {
                assert(p == (PatchV { off: off as nat, name: name@, abs }));
                assert(st1.fa.skip(j as int)[0] == p);
                assert(st1.fa.skip(j as int).drop_first() =~= st1.fa.skip(j as int + 1));
                assert(p.off + (if p.abs {
                    2int
                } else {
                    1int
                }) <= st1.cg.len());
            }
            match self.lb.get(name.as_str()) {
                None => {
                    return Err(AsmError::UndefinedLabel { name });
                },
                Some(a) => {
                    if abs {
                        let buf_len = self.cg.len();
                        proof {
                            assert(off + 2 <= buf_len);
                        }
                        let hi = ((a / 256) % 256) as u8;
                        let lo = (a % 256) as u8;
                        self.cg.set(off, hi);
                        self.cg.set(off + 1, lo);
                    } else {
                        let am = a % 256;
                        let om = off % 256;
                        let rel = ((am + 512 - om - 1) % 256) as u8;
                        proof {
                            vstd::arithmetic::div_mod::lemma_fundamental_div_mod(a as int, 256);
                            vstd::arithmetic::div_mod::lemma_fundamental_div_mod(off as int, 256);
                            vstd::arithmetic::div_mod::lemma_mod_multiples_vanish(
                                (a as int) / 256 - (off as int) / 256 - 2,
                                am as int + 512 - om as int - 1,
                                256,
                            );
                            assert(rel == rel_byte(a as int, off as int + 1));
                        }
                        self.cg.set(off, rel);
                    }
                },
            }
            j += 1;
        }
        proof {
            assert(st1.fa.skip(m as int) =~= Seq::<PatchV>::empty());
            assert(run_patches(st1.cg, st1.lb, st1.fa) == Ok::<Seq<u8>, ErrV>(self.cg@));
            assert(self.st() =~= (AsmSt { cg: self.cg@, ..st1 }));
        }
        Ok(())
    }

    /// Apply one instruction to the assembler state, exactly as
    /// [`asm_step`] says.
    #[verifier::rlimit(100)]
    fn exec_step(&mut self, ins: Instruction) -> (r: Result<(), AsmError>)
        requires
            old(self).cg@.len() < usize::MAX,
        ensures
            final(self).raw == old(self).raw,
            match r {
                Ok(_) => asm_step(ins@, old(self).st()) == Ok::<AsmSt, ErrV>(final(self).st()),
                Err(e) => asm_step(ins@, old(self).st()) == Err::<AsmSt, ErrV>(e@),
            },
    {
        let ghost st0 = self.st();
        let pc = self.cg.len();
        self.lb.insert("$".to_owned(), pc);
        proof {
            reveal_strlit("$");
            assert("$"@ =~= dollar());
        }
        let ghost st = AsmSt { lb: st0.lb.insert(dollar(), st0.cg.len() as usize), ..st0 };
        proof {
            assert(self.st() =~= st);
        }
        match ins {
            Instruction::Label { name, line } => {
                let ghost namev = name@;
                let addr = self.cg.len();
                self.lb.insert(name, addr);
                proof {
                    assert(self.st() =~= (AsmSt {
                        lb: st.lb.insert(namev, st.cg.len() as usize),
                        ..st
                    }));
                }
                Ok(())
            },
            Instruction::End { line } => {
                self.cg.push(0);
                proof {
                    assert(self.cg@ =~= st.cg + seq![0u8]);
                    assert(self.st() =~= (AsmSt { cg: st.cg + seq![0u8], ..st }));
                }
                Ok(())
            },
            Instruction::OneArg { name, op, line } => self.exec_one_arg(name, op, line),
            Instruction::TwoArg { name, op1, op2, line } => self.exec_two_arg(
                name,
                op1,
                op2,
                line,
            ),
        }
    }

    /// Apply a one-operand line, exactly as [`one_arg_step`] says of the
    /// current state.
    #[verifier::rlimit(60)]
    fn exec_one_arg(&mut self, name: String, op: String, line: usize) -> (r: Result<(), AsmError>)
        requires
            old(self).cg@.len() < usize::MAX,
        ensures
            final(self).raw == old(self).raw,
            match r {
                Ok(_) => one_arg_step(name@, op@, line as nat, old(self).st()) == Ok::<
                    AsmSt,
                    ErrV,
                >(final(self).st()),
                Err(e) => one_arg_step(name@, op@, line as nat, old(self).st()) == Err::<
                    AsmSt,
                    ErrV,
                >(e@),
            },
    {
        let ghost st = self.st();
        {
                if mn_org(name.as_str()) {
                    match parse_number_16(op.as_str()) {
                        Err(e) => Err(mk_num_err(e, line)),
                        Ok(addr) => {
                            let target = addr as usize;
                            if target < self.cg.len() {
                                return Err(AsmError::OrgBackward { line });
                            }
                            let ghost fam = self.st().fa;
                            while self.cg.len() < target
                                invariant
                                    st.cg.len() <= self.cg@.len() <= target,
                                    self.cg@ == st.cg + zeros(
                                        (self.cg@.len() - st.cg.len()) as nat,
                                    ),
                                    self.lb@ == st.lb,
                                    self.st().fa == fam,
                                    self.raw == old(self).raw,
                                decreases target - self.cg@.len(),
                            {
                                self.cg.push(0);
                                proof {
                                    assert(self.cg@ =~= st.cg + zeros(
                                        (self.cg@.len() - st.cg.len()) as nat,
                                    ));
                                }
                            }
                            proof {
                                assert(self.st() =~= (AsmSt {
                                    cg: st.cg + zeros((addr - st.cg.len()) as nat),
                                    fa: fam,
                                    ..st
                                }));
                            }
                            Ok(())
                        },
                    }
                } else if mn_sjmp(name.as_str()) {
                    let mut fa_name = String::new();
                    let addr = match self.parse_address(op.as_str(), &mut fa_name) {
                        Ok(a) => a,
                        Err(e) => {
                            return Err(mk_num_err(e, line));
                        },
                    };
                    if fa_name.as_str().unicode_len() > 0 {
                        let off = self.cg.len() + 1;
                        let ghost fa_namev = fa_name@;
                        self.future_addrs.push((off, fa_name, false));
                        let mut v = codegen::sjmp(0);
                        self.cg.append(&mut v);
                        proof {
                            assert(fa_namev == op@);
                            assert(resolve8(st.lb, op@) == Ok::<Option<u8>, NumErr>(None));
                            assert(self.st().fa =~= st.fa.push(
                                PatchV { off: (st.cg.len() + 1) as nat, name: op@, abs: false },
                            ));
                            assert(self.cg@ =~= st.cg + enc_sjmp(0));
                            assert(self.st() =~= (AsmSt {
                                cg: st.cg + enc_sjmp(0),
                                fa: st.fa.push(
                                    PatchV { off: (st.cg.len() + 1) as nat, name: op@, abs: false },
                                ),
                                ..st
                            }));
                        }
                        Ok(())
                    } else {
                        let am = self.cg.len() % 256;
                        let rel = ((addr as usize + 512 - am - 2) % 256) as u8;
                        proof {
                            vstd::arithmetic::div_mod::lemma_fundamental_div_mod(
                                st.cg.len() as int,
                                256,
                            );
                            vstd::arithmetic::div_mod::lemma_mod_multiples_vanish(
                                -((st.cg.len() as int) / 256 + 2),
                                addr + 512 - am - 2,
                                256,
                            );
                            assert(rel == rel_byte(addr as int, st.cg.len() as int + 2));
                            assert(resolve8(st.lb, op@) == Ok::<Option<u8>, NumErr>(Some(addr)));
                        }
                        let mut v = codegen::sjmp(rel);
                        self.cg.append(&mut v);
                        proof {
                            assert(self.cg@ =~= st.cg + enc_sjmp(
                                rel_byte(addr as int, st.cg.len() as int + 2),
                            ));
                            assert(self.st() =~= (AsmSt {
                                cg: st.cg + enc_sjmp(rel_byte(addr as int, st.cg.len() as int + 2)),
                                ..st
                            }));
                        }
                        Ok(())
                    }
                } else if mn_ljmp(name.as_str()) {
                    let mut fa_name = String::new();
                    let addr = match self.parse_address_16(op.as_str(), &mut fa_name) {
                        Ok(a) => a,
                        Err(e) => {
                            return Err(mk_num_err(e, line));
                        },
                    };
                    if fa_name.as_str().unicode_len() > 0 {
                        let off = self.cg.len() + 1;
                        let ghost fa_namev = fa_name@;
                        self.future_addrs.push((off, fa_name, true));
                        let mut v = codegen::ljmp(0);
                        self.cg.append(&mut v);
                        proof {
                            assert(fa_namev == op@);
                            assert(resolve16(st.lb, op@) == Ok::<Option<u16>, NumErr>(None));
                            assert(self.st().fa =~= st.fa.push(
                                PatchV { off: (st.cg.len() + 1) as nat, name: op@, abs: true },
                            ));
                            assert(self.cg@ =~= st.cg + enc_ljmp(0));
                            assert(self.st() =~= (AsmSt {
                                cg: st.cg + enc_ljmp(0),
                                fa: st.fa.push(
                                    PatchV { off: (st.cg.len() + 1) as nat, name: op@, abs: true },
                                ),
                                ..st
                            }));
                        }
                        Ok(())
                    } else {
                        let mut v = codegen::ljmp(addr);
                        self.cg.append(&mut v);
                        proof {
                            assert(resolve16(st.lb, op@) == Ok::<Option<u16>, NumErr>(Some(addr)));
                            assert(self.cg@ =~= st.cg + enc_ljmp(addr));
                            assert(self.st() =~= (AsmSt { cg: st.cg + enc_ljmp(addr), ..st }));
                        }
                        Ok(())
                    }
                } else {
                    proof {
                        assert(self.st() =~= st);
                    }
                    Ok(())
                }
        }
    }

    /// Apply a two-operand line, exactly as [`two_arg_step`] says of the
    /// current state.
    #[verifier::rlimit(60)]
    fn exec_two_arg(&mut self, name: String, op1: String, op2: String, line: usize) -> (r: Result<
        (),
        AsmError,
    >)
        ensures
            final(self).raw == old(self).raw,
            match r {
                Ok(_) => two_arg_step(name@, op1@, op2@, line as nat, old(self).st()) == Ok::<
                    AsmSt,
                    ErrV,
                >(final(self).st()),
                Err(e) => two_arg_step(name@, op1@, op2@, line as nat, old(self).st()) == Err::<
                    AsmSt,
                    ErrV,
                >(e@),
            },
    {
        let ghost st = self.st();
        {
                if mn_mov(name.as_str()) {
                    let dest = parse_destination(op1.as_str());
                    let src = match parse_source(op2.as_str()) {
                        Ok(s) => s,
                        Err(e) => {
                            return Err(mk_num_err(e, line));
                        },
                    };
                    match (dest, src) {
                        (Destination::RegisterR(n), Source::Immediate(d)) => {
                            let mut v = codegen::mov_rn_data(n, d);
                            self.cg.append(&mut v);
                            proof {
                                assert(self.st() =~= (AsmSt {
                                    cg: st.cg + enc_mov_rn_data(n, d),
                                    ..st
                                }));
                            }
                            Ok(())
                        },
                        (Destination::RegisterR(n), Source::RegisterA) => {
                            let mut v = codegen::mov_rn_a(n);
                            self.cg.append(&mut v);
                            proof {
                                assert(self.st() =~= (AsmSt { cg: st.cg + enc_mov_rn_a(n), ..st }));
                            }
                            Ok(())
                        },
                        (Destination::RegisterR(n), Source::RegisterB) => {
                            let mut v = codegen::mov_rn_b(n);
                            self.cg.append(&mut v);
                            proof {
                                assert(self.st() =~= (AsmSt { cg: st.cg + enc_mov_rn_b(n), ..st }));
                            }
                            Ok(())
                        },
                        (Destination::RegisterR(n), Source::RegisterR(m)) => {
                            let mut v = codegen::mov_rn_rn(n, m);
                            self.cg.append(&mut v);
                            proof {
                                assert(self.st() =~= (AsmSt {
                                    cg: st.cg + enc_mov_rn_rn(n, m),
                                    ..st
                                }));
                            }
                            Ok(())
                        },
                        (Destination::RegisterA, Source::Immediate(d)) => {
                            let mut v = codegen::mov_a_data(d);
                            self.cg.append(&mut v);
                            proof {
                                assert(self.st() =~= (AsmSt {
                                    cg: st.cg + enc_mov_a_data(d),
                                    ..st
                                }));
                            }
                            Ok(())
                        },
                        (Destination::RegisterA, Source::RegisterR(n)) => {
                            let mut v = codegen::mov_a_rn(n);
                            self.cg.append(&mut v);
                            proof {
                                assert(self.st() =~= (AsmSt { cg: st.cg + enc_mov_a_rn(n), ..st }));
                            }
                            Ok(())
                        },
                        (Destination::RegisterA, Source::RegisterB) => {
                            let mut v = codegen::mov_a_b();
                            self.cg.append(&mut v);
                            proof {
                                assert(self.st() =~= (AsmSt { cg: st.cg + enc_mov_a_b(), ..st }));
                            }
                            Ok(())
                        },
                        (Destination::RegisterA, Source::RegisterA) => Err(
                            AsmError::InvalidOperands { line },
                        ),
                        (Destination::RegisterB, Source::Immediate(d)) => {
                            let mut v = codegen::mov_b_data(d);
                            self.cg.append(&mut v);
                            proof {
                                assert(self.st() =~= (AsmSt {
                                    cg: st.cg + enc_mov_b_data(d),
                                    ..st
                                }));
                            }
                            Ok(())
                        },
                        (Destination::RegisterB, Source::RegisterR(n)) => {
                            let mut v = codegen::mov_b_rn(n);
                            self.cg.append(&mut v);
                            proof {
                                assert(self.st() =~= (AsmSt { cg: st.cg + enc_mov_b_rn(n), ..st }));
                            }
                            Ok(())
                        },
                        (Destination::RegisterB, Source::RegisterA) => {
                            let mut v = codegen::mov_b_a();
                            self.cg.append(&mut v);
                            proof {
                                assert(self.st() =~= (AsmSt { cg: st.cg + enc_mov_b_a(), ..st }));
                            }
                            Ok(())
                        },
                        (Destination::RegisterB, Source::RegisterB) => Err(
                            AsmError::InvalidOperands { line },
                        ),
                        (Destination::Label(_), _) => Err(AsmError::UnsupportedOperands { line }),
                        (_, Source::Label(_)) => Err(AsmError::UnsupportedOperands { line }),
                    }
                } else if mn_add(name.as_str()) {
                    let dest = parse_destination(op1.as_str());
                    let src = match parse_source(op2.as_str()) {
                        Ok(s) => s,
                        Err(e) => {
                            return Err(mk_num_err(e, line));
                        },
                    };
                    if !(matches!(dest, Destination::RegisterA)) {
                        return Err(AsmError::InvalidOperands { line });
                    }
                    match src {
                        Source::RegisterR(n) => {
                            let mut v = codegen::add_a_rn(n);
                            self.cg.append(&mut v);
                            proof {
                                assert(self.st() =~= (AsmSt { cg: st.cg + enc_add_a_rn(n), ..st }));
                            }
                            Ok(())
                        },
                        Source::Immediate(d) => {
                            let mut v = codegen::add_a_data(d);
                            self.cg.append(&mut v);
                            proof {
                                assert(self.st() =~= (AsmSt {
                                    cg: st.cg + enc_add_a_data(d),
                                    ..st
                                }));
                            }
                            Ok(())
                        },
                        Source::RegisterA => {
                            let mut v = codegen::add_a_a();
                            self.cg.append(&mut v);
                            proof {
                                assert(self.st() =~= (AsmSt { cg: st.cg + enc_add_a_a(), ..st }));
                            }
                            Ok(())
                        },
                        Source::RegisterB => {
                            let mut v = codegen::add_a_b();
                            self.cg.append(&mut v);
                            proof {
                                assert(self.st() =~= (AsmSt { cg: st.cg + enc_add_a_b(), ..st }));
                            }
                            Ok(())
                        },
                        Source::Label(_) => Err(AsmError::UnsupportedOperands { line }),
                    }
                } else {
                    proof {
                        assert(self.st() =~= st);
                    }
                    Ok(())
                }
        }
    }
}

} // verus!
