//! Little-endian and big-endian encodings of unsigned integers, as used by
//! the gzip-family wire formats.
use vstd::prelude::*;

verus! {

/// The value `v % 256^n`, encoded as `n` bytes, least significant first.
pub open spec fn le_bytes(v: nat, n: nat) -> Seq<u8>
    decreases n,
{
    if n == 0 {
        Seq::empty()
    } else {
        seq![(v % 256) as u8] + le_bytes(v / 256, (n - 1) as nat)
    }
}

/// The value `v % 256^n`, encoded as `n` bytes, most significant first.
pub open spec fn be_bytes(v: nat, n: nat) -> Seq<u8>
    decreases n,
{
    if n == 0 {
        Seq::empty()
    } else {
        be_bytes(v / 256, (n - 1) as nat) + seq![(v % 256) as u8]
    }
}

/// The unsigned value of a byte string read least-significant byte first.
pub open spec fn le_val(s: Seq<u8>) -> nat
    decreases s.len(),
{
    if s.len() == 0 {
        0
    } else {
        (s[0] + 256 * le_val(s.skip(1))) as nat
    }
}

pub proof fn lemma_le_bytes_len(v: nat, n: nat)
    ensures
        le_bytes(v, n).len() == n,
    decreases n,
{
    if n > 0 {
        lemma_le_bytes_len(v / 256, (n - 1) as nat);
    }
}

pub proof fn lemma_be_bytes_len(v: nat, n: nat)
    ensures
        be_bytes(v, n).len() == n,
    decreases n,
{
    if n > 0 {
        lemma_be_bytes_len(v / 256, (n - 1) as nat);
    }
}

/// 256^n.
pub open spec fn pow256(n: nat) -> nat
    decreases n,
{
    if n == 0 {
        1
    } else {
        256 * pow256((n - 1) as nat)
    }
}

pub proof fn lemma_pow256_pos(n: nat)
    ensures
        pow256(n) >= 1,
    decreases n,
{
    if n > 0 {
        lemma_pow256_pos((n - 1) as nat);
    }
}

/// Reading back an `n`-byte little-endian encoding recovers the value modulo
/// `256^n`.
pub proof fn lemma_le_val_le_bytes(v: nat, n: nat)
    ensures
        le_val(le_bytes(v, n)) == v % pow256(n),
    decreases n,
{
    if n == 0 {
        assert(v % 1 == 0) by {
            vstd::arithmetic::div_mod::lemma_mod_self_0(1);
            vstd::arithmetic::div_mod::lemma_mod_multiples_basic(v as int, 1);
        }
    } else {
        let rest = le_bytes(v / 256, (n - 1) as nat);
        lemma_le_bytes_len(v / 256, (n - 1) as nat);
        assert(le_bytes(v, n) == seq![(v % 256) as u8] + rest);
        assert((seq![(v % 256) as u8] + rest).skip(1) =~= rest);
        lemma_le_val_le_bytes(v / 256, (n - 1) as nat);
        assert(le_val(le_bytes(v, n)) == v % 256 + 256 * ((v / 256) % pow256((n - 1) as nat)));
        assert(pow256(n) == 256 * pow256((n - 1) as nat));
        lemma_pow256_pos((n - 1) as nat);
        vstd::arithmetic::div_mod::lemma_mod_breakdown(v as int, 256, pow256((n - 1) as nat) as int);
    }
}

/// Append `v` as four little-endian bytes.
pub fn append_le_u32(out: &mut Vec<u8>, v: u32)
    ensures
        final(out)@ == old(out)@ + le_bytes(v as nat, 4),
{
    let x1: u32 = v / 256;
    let x2: u32 = x1 / 256;
    let x3: u32 = x2 / 256;
    out.push((v % 256) as u8);
    out.push((x1 % 256) as u8);
    out.push((x2 % 256) as u8);
    out.push((x3 % 256) as u8);
    proof {
        reveal_with_fuel(le_bytes, 5);
        assert(le_bytes(x3 as nat / 256, 0) =~= Seq::<u8>::empty());
        assert(out@ =~= old(out)@ + le_bytes(v as nat, 4));
    }
}

/// Append `v` as two little-endian bytes.
pub fn append_le_u16(out: &mut Vec<u8>, v: u16)
    ensures
        final(out)@ == old(out)@ + le_bytes(v as nat, 2),
{
    let x1: u16 = v / 256;
    out.push((v % 256) as u8);
    out.push((x1 % 256) as u8);
    proof {
        reveal_with_fuel(le_bytes, 3);
        assert(out@ =~= old(out)@ + le_bytes(v as nat, 2));
    }
}

/// Append `v` as four big-endian bytes.
pub fn append_be_u32(out: &mut Vec<u8>, v: u32)
    ensures
        final(out)@ == old(out)@ + be_bytes(v as nat, 4),
{
    let x1: u32 = v / 256;
    let x2: u32 = x1 / 256;
    let x3: u32 = x2 / 256;
    out.push((x3 % 256) as u8);
    out.push((x2 % 256) as u8);
    out.push((x1 % 256) as u8);
    out.push((v % 256) as u8);
    proof {
        reveal_with_fuel(be_bytes, 5);
        assert(out@ =~= old(out)@ + be_bytes(v as nat, 4));
    }
}

/// Append `v` as two big-endian bytes.
pub fn append_be_u16(out: &mut Vec<u8>, v: u16)
    ensures
        final(out)@ == old(out)@ + be_bytes(v as nat, 2),
{
    let x1: u16 = v / 256;
    out.push((x1 % 256) as u8);
    out.push((v % 256) as u8);
    proof {
        reveal_with_fuel(be_bytes, 3);
        assert(out@ =~= old(out)@ + be_bytes(v as nat, 2));
    }
}

/// Read two little-endian bytes at `i`.
pub fn read_le_u16(bytes: &[u8], i: usize) -> (r: u16)
    requires
        i + 2 <= bytes@.len(),
    ensures
        r as nat == le_val(bytes@.subrange(i as int, i as int + 2)),
{
    let b0 = bytes[i];
    let b1 = bytes[i + 1];
    let r: u16 = b0 as u16 + 256 * (b1 as u16);
    proof {
        let s = bytes@.subrange(i as int, i as int + 2);
        assert(s.skip(1) =~= bytes@.subrange(i as int + 1, i as int + 2));
        assert(s.skip(1).skip(1) =~= Seq::<u8>::empty());
        reveal_with_fuel(le_val, 3);
        assert(le_val(s) == b0 + 256 * (b1 as nat));
    }
    r
}

/// Read four little-endian bytes at `i`.
pub fn read_le_u32(bytes: &[u8], i: usize) -> (r: u32)
    requires
        i + 4 <= bytes@.len(),
    ensures
        r as nat == le_val(bytes@.subrange(i as int, i as int + 4)),
{
    let b0 = bytes[i];
    let b1 = bytes[i + 1];
    let b2 = bytes[i + 2];
    let b3 = bytes[i + 3];
    let r: u32 = b0 as u32 + 256 * (b1 as u32) + 65536 * (b2 as u32) + 16777216 * (b3 as u32);
    proof {
        let s = bytes@.subrange(i as int, i as int + 4);
        assert(s.skip(1) =~= bytes@.subrange(i as int + 1, i as int + 4));
        assert(s.skip(1).skip(1) =~= bytes@.subrange(i as int + 2, i as int + 4));
        assert(s.skip(1).skip(1).skip(1) =~= bytes@.subrange(i as int + 3, i as int + 4));
        assert(s.skip(1).skip(1).skip(1).skip(1) =~= Seq::<u8>::empty());
        reveal_with_fuel(le_val, 5);
        assert(le_val(s) == b0 + 256 * (b1 as nat + 256 * (b2 as nat + 256 * (b3 as nat))));
    }
    r
}

} // verus!
