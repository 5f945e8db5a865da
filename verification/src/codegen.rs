//! Byte encodings of the supported instruction forms.
//!
//! The spec functions here are the single source of truth for the
//! instruction set: the assembler emits exactly these sequences and the
//! execution engine decodes by the same opcode arithmetic.

use vstd::prelude::*;

verus! {

/// `mov Rn, #data`: opcode `0x74 + n`, then the immediate byte.
pub open spec fn enc_mov_rn_data(rn: u8, data: u8) -> Seq<u8> {
    seq![(0x74 + rn) as u8, data]
}

/// `mov Rn, Rm`: opcode `0x7C + n*8 + m`.
pub open spec fn enc_mov_rn_rn(rn1: u8, rn2: u8) -> Seq<u8> {
    seq![(0x7c + rn1 * 8 + rn2) as u8]
}

/// `mov A, #data`: opcode `0x8C`, then the immediate byte.
pub open spec fn enc_mov_a_data(data: u8) -> Seq<u8> {
    seq![0x8cu8, data]
}

/// `mov A, Rn`: opcode `0x84 + n`.
pub open spec fn enc_mov_a_rn(rn: u8) -> Seq<u8> {
    seq![(0x84 + rn) as u8]
}

/// `mov Rn, A`: opcode `0x8D + n`.
pub open spec fn enc_mov_rn_a(rn: u8) -> Seq<u8> {
    seq![(0x8d + rn) as u8]
}

/// `mov B, Rn`: opcode `0x95 + n`.
pub open spec fn enc_mov_b_rn(rn: u8) -> Seq<u8> {
    seq![(0x95 + rn) as u8]
}

/// `mov B, #data`: opcode `0x9D`, then the immediate byte.
pub open spec fn enc_mov_b_data(data: u8) -> Seq<u8> {
    seq![0x9du8, data]
}

/// `mov Rn, B`: opcode `0x9E + n`.
pub open spec fn enc_mov_rn_b(rn: u8) -> Seq<u8> {
    seq![(0x9e + rn) as u8]
}

/// `mov A, B`: opcode `0xA6`.
pub open spec fn enc_mov_a_b() -> Seq<u8> {
    seq![0xa6u8]
}

/// `mov B, A`: opcode `0xA7`.
pub open spec fn enc_mov_b_a() -> Seq<u8> {
    seq![0xa7u8]
}

/// `add A, #data`: opcode `0x50`, then the immediate byte.
pub open spec fn enc_add_a_data(data: u8) -> Seq<u8> {
    seq![0x50u8, data]
}

/// `add A, B`: opcode `0x51`.
pub open spec fn enc_add_a_b() -> Seq<u8> {
    seq![0x51u8]
}

/// `add A, Rn`: opcode `0x52 + n`.
pub open spec fn enc_add_a_rn(rn: u8) -> Seq<u8> {
    seq![(0x52 + rn) as u8]
}

/// `add A, A`: opcode `0x5A`.
pub open spec fn enc_add_a_a() -> Seq<u8> {
    seq![0x5au8]
}

/// `sjmp rel8`: opcode `0x28`, then the signed relative displacement.
pub open spec fn enc_sjmp(offset: u8) -> Seq<u8> {
    seq![0x28u8, offset]
}

/// `ljmp addr16`: opcode `0x29`, then the target big-endian.
pub open spec fn enc_ljmp(addr: u16) -> Seq<u8> {
    seq![0x29u8, (addr >> 8) as u8, (addr & 0xff) as u8]
}

/// Emit `mov Rn, #data`.
pub fn mov_rn_data(rn: u8, data: u8) -> (r: Vec<u8>)
    requires
        rn < 8,
    ensures
        r@ == enc_mov_rn_data(rn, data),
{
    let mut bytes = Vec::new();
    bytes.push(0x74 + rn);
    bytes.push(data);
    proof {
        assert(bytes@ =~= enc_mov_rn_data(rn, data));
    }
    bytes
}

/// Emit `mov Rn, Rm`.
pub fn mov_rn_rn(rn1: u8, rn2: u8) -> (r: Vec<u8>)
    requires
        rn1 < 8,
        rn2 < 8,
    ensures
        r@ == enc_mov_rn_rn(rn1, rn2),
{
    let mut bytes = Vec::new();
    bytes.push(0x7c + rn1 * 8 + rn2);
    proof {
        assert(bytes@ =~= enc_mov_rn_rn(rn1, rn2));
    }
    bytes
}

/// Emit `mov A, #data`.
pub fn mov_a_data(data: u8) -> (r: Vec<u8>)
    ensures
        r@ == enc_mov_a_data(data),
{
    let mut bytes = Vec::new();
    bytes.push(0x8c);
    bytes.push(data);
    proof {
        assert(bytes@ =~= enc_mov_a_data(data));
    }
    bytes
}

/// Emit `mov A, Rn`.
pub fn mov_a_rn(rn: u8) -> (r: Vec<u8>)
    requires
        rn < 8,
    ensures
        r@ == enc_mov_a_rn(rn),
{
    let mut bytes = Vec::new();
    bytes.push(0x84 + rn);
    proof {
        assert(bytes@ =~= enc_mov_a_rn(rn));
    }
    bytes
}

/// Emit `mov Rn, A`.
pub fn mov_rn_a(rn: u8) -> (r: Vec<u8>)
    requires
        rn < 8,
    ensures
        r@ == enc_mov_rn_a(rn),
{
    let mut bytes = Vec::new();
    bytes.push(0x8d + rn);
    proof {
        assert(bytes@ =~= enc_mov_rn_a(rn));
    }
    bytes
}

/// Emit `mov B, Rn`.
pub fn mov_b_rn(rn: u8) -> (r: Vec<u8>)
    requires
        rn < 8,
    ensures
        r@ == enc_mov_b_rn(rn),
{
    let mut bytes = Vec::new();
    bytes.push(0x95 + rn);
    proof {
        assert(bytes@ =~= enc_mov_b_rn(rn));
    }
    bytes
}

/// Emit `mov B, #data`.
pub fn mov_b_data(data: u8) -> (r: Vec<u8>)
    ensures
        r@ == enc_mov_b_data(data),
{
    let mut bytes = Vec::new();
    bytes.push(0x9d);
    bytes.push(data);
    proof {
        assert(bytes@ =~= enc_mov_b_data(data));
    }
    bytes
}

/// Emit `mov Rn, B`.
pub fn mov_rn_b(rn: u8) -> (r: Vec<u8>)
    requires
        rn < 8,
    ensures
        r@ == enc_mov_rn_b(rn),
{
    let mut bytes = Vec::new();
    bytes.push(0x9e + rn);
    proof {
        assert(bytes@ =~= enc_mov_rn_b(rn));
    }
    bytes
}

/// Emit `mov A, B`.
pub fn mov_a_b() -> (r: Vec<u8>)
    ensures
        r@ == enc_mov_a_b(),
{
    let mut bytes = Vec::new();
    bytes.push(0xa6);
    proof {
        assert(bytes@ =~= enc_mov_a_b());
    }
    bytes
}

/// Emit `mov B, A`.
pub fn mov_b_a() -> (r: Vec<u8>)
    ensures
        r@ == enc_mov_b_a(),
{
    let mut bytes = Vec::new();
    bytes.push(0xa7);
    proof {
        assert(bytes@ =~= enc_mov_b_a());
    }
    bytes
}

/// Emit `add A, #data`.
pub fn add_a_data(data: u8) -> (r: Vec<u8>)
    ensures
        r@ == enc_add_a_data(data),
{
    let mut bytes = Vec::new();
    bytes.push(0x50);
    bytes.push(data);
    proof {
        assert(bytes@ =~= enc_add_a_data(data));
    }
    bytes
}

/// Emit `add A, B`.
pub fn add_a_b() -> (r: Vec<u8>)
    ensures
        r@ == enc_add_a_b(),
{
    let mut bytes = Vec::new();
    bytes.push(0x51);
    proof {
        assert(bytes@ =~= enc_add_a_b());
    }
    bytes
}

/// Emit `add A, Rn`.
pub fn add_a_rn(rn: u8) -> (r: Vec<u8>)
    requires
        rn < 8,
    ensures
        r@ == enc_add_a_rn(rn),
{
    let mut bytes = Vec::new();
    bytes.push(0x52 + rn);
    proof {
        assert(bytes@ =~= enc_add_a_rn(rn));
    }
    bytes
}

/// Emit `add A, A`.
pub fn add_a_a() -> (r: Vec<u8>)
    ensures
        r@ == enc_add_a_a(),
{
    let mut bytes = Vec::new();
    bytes.push(0x5a);
    proof {
        assert(bytes@ =~= enc_add_a_a());
    }
    bytes
}

/// Emit `sjmp rel8`.
pub fn sjmp(offset: u8) -> (r: Vec<u8>)
    ensures
        r@ == enc_sjmp(offset),
{
    let mut bytes = Vec::new();
    bytes.push(0x28);
    bytes.push(offset);
    proof {
        assert(bytes@ =~= enc_sjmp(offset));
    }
    bytes
}

/// Emit `ljmp addr16`. The address is stored most significant byte first.
pub fn ljmp(addr: u16) -> (r: Vec<u8>)
    ensures
        r@ == enc_ljmp(addr),
{
    let mut bytes = Vec::new();
    bytes.push(0x29);
    bytes.push((addr >> 8) as u8);
    bytes.push((addr & 0xff) as u8);
    proof {
        assert(bytes@ =~= enc_ljmp(addr));
    }
    bytes
}

} // verus!
