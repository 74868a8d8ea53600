//! Running checksums over the uncompressed byte stream.
//!
//! A check computes the checksum of the bytes fed to it and keeps track of how
//! many bytes went in. Independent checks over adjacent byte ranges can be
//! `combine`d, in input order, into the checksum of the concatenated range;
//! gzip and zlib rely on this to build a whole-stream checksum out of
//! per-block checksums computed concurrently.
use vstd::prelude::*;

verus! {

/// The CRC-32 (gzip polynomial) of a non-empty byte sequence.
///
/// The value is computed by the outside codec crate; this name stands for its
/// result, which depends on the bytes alone.
pub uninterp spec fn crc32_nonempty(s: Seq<u8>) -> u32;

/// The CRC-32 (gzip polynomial) of a byte sequence: zero over no bytes,
/// which is the register's fresh state, and the codec's value otherwise.
pub open spec fn crc32_of(s: Seq<u8>) -> u32 {
    if s.len() == 0 {
        0
    } else {
        crc32_nonempty(s)
    }
}

/// The Adler-32 `a` component: one plus the sum of all bytes, modulo 65521.
pub open spec fn adler_a(s: Seq<u8>) -> nat
    decreases s.len(),
{
    if s.len() == 0 {
        1
    } else {
        ((adler_a(s.drop_last()) + s.last()) % 65521) as nat
    }
}

/// The Adler-32 `b` component: the sum of the `a` components of all prefixes,
/// modulo 65521.
pub open spec fn adler_b(s: Seq<u8>) -> nat
    decreases s.len(),
{
    if s.len() == 0 {
        0
    } else {
        ((adler_b(s.drop_last()) + adler_a(s)) % 65521) as nat
    }
}

/// The Adler-32 checksum of a byte sequence: `b * 65536 + a`.
pub open spec fn adler32_of(s: Seq<u8>) -> u32 {
    (adler_b(s) * 65536 + adler_a(s)) as u32
}

pub proof fn lemma_adler_bounds(s: Seq<u8>)
    ensures
        adler_a(s) < 65521,
        adler_b(s) < 65521,
{
    if s.len() == 0 {
    }
}

/// A checksum of a block of bytes together with the count of bytes that went
/// into it.
pub trait Check: Sized {
    /// The bytes fed into this check so far.
    spec fn fed(&self) -> Seq<u8>;

    /// The checksum function this check computes over the bytes fed.
    spec fn sum_of(s: Seq<u8>) -> u32;

    /// The byte count this check reports for the bytes fed.
    spec fn amount_of(s: Seq<u8>) -> nat;


    /// Create a fresh check over the empty byte range.
    fn new() -> (r: Self)
        ensures
            r.fed() == Seq::<u8>::empty(),
    ;

    /// The current checksum of all bytes fed so far.
    fn sum(&self) -> (r: u32)
        ensures
            r == Self::sum_of(self.fed()),
    ;

    /// The byte count this check reports, which wraps at 2^32 as the 32-bit
    /// trailer fields it feeds do.
    fn amount(&self) -> (r: u32)
        ensures
            r as nat == Self::amount_of(self.fed()),
    ;

    /// Feed more bytes into the check.
    fn update(&mut self, bytes: &[u8])
        ensures
            final(self).fed() == old(self).fed() + bytes@,
    ;

    /// Fold the checksum of the byte range that follows this one into this
    /// check, so that it becomes the check of the concatenated range. The
    /// other range's byte count must fit the 64 bits that carry it.
    fn combine(&mut self, other: &Self)
        requires
            other.fed().len() <= u64::MAX,
        ensures
            final(self).fed() == old(self).fed() + other.fed(),
    ;
}

#[verifier::external_type_specification]
#[verifier::external_body]
pub struct ExCrc(flate2::Crc);

/// The CRC-32 check used by gzip, and per block by BGZF and MGZIP.
///
/// The arithmetic is done by the outside codec crate; its result is named
/// [`crc32_of`] and this type's contracts are stated over that name. The
/// `bytes` field models the byte range the inner state was computed over;
/// only the trusted wrappers below touch the inner state.
pub struct Crc32 {
    inner: flate2::Crc,
    bytes: Ghost<Seq<u8>>,
}

/// Relies on `flate2::Crc::new`: a fresh CRC-32 state over no bytes.
#[verifier::external_body]
fn crc_new() -> flate2::Crc {
    flate2::Crc::new()
}

/// Relies on `flate2::Crc::update`: feeds bytes into the CRC-32 state.
#[verifier::external_body]
fn crc_update(c: &mut Crc32, bytes: &[u8])
    ensures
        final(c).fed() == old(c).fed() + bytes@,
{
    c.inner.update(bytes);
}

/// Relies on `flate2::Crc::sum`: the state is the CRC-32 of the bytes fed,
/// and a fresh state over no bytes sums to zero.
#[verifier::external_body]
fn crc_sum(c: &Crc32) -> (r: u32)
    ensures
        r == crc32_of(c.fed()),
        c.fed().len() > 0 ==> r == crc32_nonempty(c.fed()),
{
    c.inner.sum()
}

/// Relies on `flate2::Crc::amount`: the count of bytes fed, held in 64 bits
/// and truncated to 32; since 2^32 divides 2^64, the result is the byte count
/// modulo 2^32 whatever the length.
#[verifier::external_body]
fn crc_amount(c: &Crc32) -> (r: u32)
    ensures
        r as nat == c.fed().len() % 0x100000000,
{
    c.inner.amount()
}

/// Relies on `flate2::Crc::combine`: the combined state is the CRC-32 of the
/// two byte ranges concatenated. The second range's byte count, which the
/// combine consumes, is carried exactly in 64 bits.
#[verifier::external_body]
fn crc_combine(c: &mut Crc32, other: &Crc32)
    requires
        other.fed().len() <= u64::MAX,
    ensures
        final(c).fed() == old(c).fed() + other.fed(),
{
    c.inner.combine(&other.inner);
}

impl Check for Crc32 {
    closed spec fn fed(&self) -> Seq<u8> {
        self.bytes@
    }

    open spec fn sum_of(s: Seq<u8>) -> u32 {
        crc32_of(s)
    }

    open spec fn amount_of(s: Seq<u8>) -> nat {
        s.len() % 0x100000000
    }

    fn new() -> (r: Self) {
        Crc32 { inner: crc_new(), bytes: Ghost(Seq::empty()) }
    }

    fn sum(&self) -> (r: u32) {
        crc_sum(self)
    }

    fn amount(&self) -> (r: u32) {
        crc_amount(self)
    }

    fn update(&mut self, bytes: &[u8]) {
        crc_update(self, bytes);
    }

    fn combine(&mut self, other: &Self) {
        crc_combine(self, other);
    }
}

/// The Adler-32 check used by zlib. Beside the two checksum components it
/// carries the byte count in the two residues its contracts need: modulo
/// 65521 for combining, and modulo 2^32 for the 32-bit trailer fields.
pub struct Adler32 {
    sum_a: u32,
    sum_b: u32,
    count_rem: u32,
    count_low: u32,
    bytes: Ghost<Seq<u8>>,
}

impl Adler32 {
    #[verifier::type_invariant]
    spec fn wf(self) -> bool {
        &&& self.sum_a == adler_a(self.bytes@)
        &&& self.sum_b == adler_b(self.bytes@)
        &&& self.count_rem == self.bytes@.len() % 65521
        &&& self.count_low == self.bytes@.len() % 0x100000000
    }
}

impl Check for Adler32 {
    closed spec fn fed(&self) -> Seq<u8> {
        self.bytes@
    }

    open spec fn sum_of(s: Seq<u8>) -> u32 {
        adler32_of(s)
    }

    open spec fn amount_of(s: Seq<u8>) -> nat {
        s.len() % 0x100000000
    }

    fn new() -> (r: Self) {
        Adler32 { sum_a: 1, sum_b: 0, count_rem: 0, count_low: 0, bytes: Ghost(Seq::empty()) }
    }

    fn sum(&self) -> (r: u32) {
        proof {
            use_type_invariant(&*self);
            lemma_adler_bounds(self.bytes@);
        }
        self.sum_b * 65536 + self.sum_a
    }

    fn amount(&self) -> (r: u32) {
        proof {
            use_type_invariant(&*self);
        }
        self.count_low
    }

    fn update(&mut self, bytes: &[u8]) {
        proof {
            use_type_invariant(&*self);
        }
        let ghost start = self.bytes@;
        let mut i: usize = 0;
        while i < bytes.len()
            invariant
                i <= bytes@.len(),
                self.bytes@ == start + bytes@.take(i as int),
                self.wf(),
            decreases bytes@.len() - i,
        {
            proof {
                use_type_invariant(&*self);
                lemma_adler_bounds(self.bytes@);
                assert((start + bytes@.take(i as int + 1)).drop_last() =~= start + bytes@.take(
                    i as int,
                ));
                assert((start + bytes@.take(i as int + 1)).last() == bytes@[i as int]);
                vstd::arithmetic::div_mod::lemma_add_mod_noop_right(
                    1,
                    self.bytes@.len() as int,
                    65521,
                );
                vstd::arithmetic::div_mod::lemma_add_mod_noop_right(
                    1,
                    self.bytes@.len() as int,
                    0x100000000,
                );
            }
            let x = bytes[i];
            let na = (self.sum_a + x as u32) % 65521;
            let nb = (self.sum_b + na) % 65521;
            let ncr = (self.count_rem + 1) % 65521;
            let ncl = ((self.count_low as u64 + 1) % 0x100000000) as u32;
            let ghost nbytes = self.bytes@.push(x);
            proof {
                assert(nbytes =~= start + bytes@.take(i as int + 1));
            }
            *self = Adler32 {
                sum_a: na,
                sum_b: nb,
                count_rem: ncr,
                count_low: ncl,
                bytes: Ghost(nbytes),
            };
            i = i + 1;
        }
        proof {
            assert(bytes@.take(bytes@.len() as int) =~= bytes@);
        }
    }

    fn combine(&mut self, other: &Self) {
        proof {
            use_type_invariant(&*self);
            use_type_invariant(other);
            lemma_adler_bounds(self.bytes@);
            lemma_adler_bounds(other.bytes@);
            lemma_adler_a_concat(self.bytes@, other.bytes@);
            lemma_adler_b_concat(self.bytes@, other.bytes@);
        }
        let rem: u32 = other.count_rem;
        let alpha: u32 = (self.sum_a + 65520) % 65521;
        let na: u32 = (self.sum_a + other.sum_a + 65520) % 65521;
        proof {
            assert((rem as int) * (alpha as int) <= 65520 * 65520) by (nonlinear_arith)
                requires
                    rem < 65521,
                    alpha < 65521,
            ;
            vstd::arithmetic::div_mod::lemma_add_mod_noop(
                self.bytes@.len() as int,
                other.bytes@.len() as int,
                65521,
            );
            vstd::arithmetic::div_mod::lemma_add_mod_noop(
                self.bytes@.len() as int,
                other.bytes@.len() as int,
                0x100000000,
            );
        }
        let nb64: u64 = (self.sum_b as u64 + other.sum_b as u64 + (rem as u64) * (alpha as u64))
            % 65521;
        let nb: u32 = nb64 as u32;
        let ncr: u32 = ((self.count_rem as u64 + other.count_rem as u64) % 65521) as u32;
        let ncl: u32 = ((self.count_low as u64 + other.count_low as u64) % 0x100000000) as u32;
        let ghost nbytes = self.bytes@ + other.bytes@;
        *self = Adler32 {
            sum_a: na,
            sum_b: nb,
            count_rem: ncr,
            count_low: ncl,
            bytes: Ghost(nbytes),
        };
    }
}

/// A check that computes nothing, for formats without a whole-stream
/// checksum.
pub struct PassThroughCheck {
    bytes: Ghost<Seq<u8>>,
}

impl Check for PassThroughCheck {
    closed spec fn fed(&self) -> Seq<u8> {
        self.bytes@
    }

    open spec fn sum_of(s: Seq<u8>) -> u32 {
        0
    }

    open spec fn amount_of(s: Seq<u8>) -> nat {
        0
    }

    fn new() -> (r: Self) {
        PassThroughCheck { bytes: Ghost(Seq::empty()) }
    }

    fn sum(&self) -> (r: u32) {
        0
    }

    fn amount(&self) -> (r: u32) {
        0
    }

    fn update(&mut self, bytes: &[u8]) {
        self.bytes = Ghost(self.bytes@ + bytes@);
    }

    fn combine(&mut self, other: &Self) {
        self.bytes = Ghost(self.bytes@ + other.bytes@);
    }
}

/// Checksum combine law, Adler-32 `a` component: the `a` component of a
/// concatenation is determined by the `a` components of the two parts.
pub proof fn lemma_adler_a_concat(s1: Seq<u8>, s2: Seq<u8>)
    ensures
        adler_a(s1 + s2) == (adler_a(s1) + adler_a(s2) + 65520) % 65521,
    decreases s2.len(),
{
    let m: int = 65521;
    let a1 = adler_a(s1) as int;
    if s2.len() == 0 {
        assert(s1 + s2 =~= s1);
        lemma_adler_bounds(s1);
        vstd::arithmetic::div_mod::lemma_mod_add_multiples_vanish(a1, m);
        vstd::arithmetic::div_mod::lemma_small_mod(adler_a(s1), 65521);
    } else {
        let t = s2.drop_last();
        let x = s2.last() as int;
        let at = adler_a(t) as int;
        assert((s1 + s2).drop_last() =~= s1 + t);
        assert((s1 + s2).len() > 0);
        assert((s1 + s2).last() == s2.last());
        lemma_adler_a_concat(s1, t);
        assert(adler_a(s1 + s2) as int == (((a1 + at + 65520) % m) + x) % m);
        vstd::arithmetic::div_mod::lemma_add_mod_noop_right(x, a1 + at + 65520, m);
        assert(adler_a(s1 + s2) as int == (a1 + at + 65520 + x) % m);
        assert(adler_a(s2) as int == (at + x) % m);
        vstd::arithmetic::div_mod::lemma_add_mod_noop_right(a1 + 65520, at + x, m);
        assert((a1 + adler_a(s2) + 65520) % m == (a1 + 65520 + (at + x)) % m);
    }
}

/// Checksum combine law, Adler-32 `b` component: the `b` component of a
/// concatenation is determined by the components of the two parts and the
/// length of the second part.
pub proof fn lemma_adler_b_concat(s1: Seq<u8>, s2: Seq<u8>)
    ensures
        adler_b(s1 + s2) == (adler_b(s1) + adler_b(s2) + (s2.len() % 65521) * ((adler_a(
            s1,
        ) + 65520) % 65521)) % 65521,
    decreases s2.len(),
{
    let m: int = 65521;
    let a1 = adler_a(s1) as int;
    let b1 = adler_b(s1) as int;
    let alpha = (a1 + 65520) % m;
    if s2.len() == 0 {
        assert(s1 + s2 =~= s1);
        lemma_adler_bounds(s1);
        assert(adler_b(s2) == 0);
        assert(s2.len() % 65521 == 0);
        assert((s2.len() % 65521) as int * alpha == 0) by (nonlinear_arith)
            requires
                s2.len() % 65521 == 0,
        ;
        vstd::arithmetic::div_mod::lemma_small_mod(adler_b(s1), 65521);
        assert((b1 + adler_b(s2) + (s2.len() % 65521) * ((adler_a(s1) + 65520) % 65521)) % 65521
            == b1 % 65521);
    } else {
        let t = s2.drop_last();
        let x = s2.last() as int;
        let n = s2.len() as int;
        let bt = adler_b(t) as int;
        let as2 = adler_a(s2) as int;
        assert((s1 + s2).drop_last() =~= s1 + t);
        assert((s1 + s2).last() == s2.last());
        lemma_adler_b_concat(s1, t);
        lemma_adler_a_concat(s1, s2);
        // Unfold one step of the recursion on both sides.
        assert(adler_b(s1 + s2) as int == (adler_b(s1 + t) as int + adler_a(s1 + s2) as int) % m);
        let k = (n - 1) % m;
        assert(adler_b(s1 + t) as int == (b1 + bt + k * alpha) % m);
        assert(adler_a(s1 + s2) as int == (a1 + as2 + 65520) % m);
        vstd::arithmetic::div_mod::lemma_add_mod_noop(b1 + bt + k * alpha, a1 + as2 + 65520, m);
        assert(adler_b(s1 + s2) as int == (b1 + bt + k * alpha + a1 + as2 + 65520) % m);
        // Replace a1 + 65520 by alpha under the modulus.
        vstd::arithmetic::div_mod::lemma_add_mod_noop_right(
            b1 + bt + k * alpha + as2,
            a1 + 65520,
            m,
        );
        assert(adler_b(s1 + s2) as int == (b1 + bt + as2 + k * alpha + alpha) % m);
        // (k + 1) copies of alpha.
        assert(k * alpha + alpha == (k + 1) * alpha) by (nonlinear_arith);
        // (k + 1) is congruent to n, so (k + 1) * alpha is congruent to
        // (n % m) * alpha.
        vstd::arithmetic::div_mod::lemma_add_mod_noop_right(1, n - 1, m);
        assert((k + 1) % m == n % m);
        vstd::arithmetic::div_mod::lemma_mul_mod_noop_left(k + 1, alpha, m);
        vstd::arithmetic::div_mod::lemma_mul_mod_noop_left(n, alpha, m);
        assert(((k + 1) * alpha) % m == ((n % m) * alpha) % m);
        vstd::arithmetic::div_mod::lemma_add_mod_noop_right(
            b1 + bt + as2,
            (k + 1) * alpha,
            m,
        );
        vstd::arithmetic::div_mod::lemma_add_mod_noop_right(
            b1 + bt + as2,
            (n % m) * alpha,
            m,
        );
        assert(adler_b(s1 + s2) as int == (b1 + bt + as2 + (n % m) * alpha) % m);
        // Fold the right-hand side's recursion step back up.
        assert(adler_b(s2) as int == (bt + as2) % m);
        vstd::arithmetic::div_mod::lemma_add_mod_noop_right(
            b1 + (n % m) * alpha,
            bt + as2,
            m,
        );
        assert((b1 + adler_b(s2) as int + (n % m) * alpha) % m == (b1 + (bt + as2) + (n % m) * alpha) % m);
    }
}

} // verus!
