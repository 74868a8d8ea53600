//! The checksum combine law on concrete values, for both CRC-32 and
//! Adler-32, against single-pass references.
use gzp::check::{Adler32, Check, Crc32, PassThroughCheck};

fn pseudo_random(n: usize, mut seed: u64) -> Vec<u8> {
    let mut out = Vec::with_capacity(n);
    for _ in 0..n {
        seed = seed.wrapping_mul(6364136223846793005).wrapping_add(1442695040888963407);
        out.push((seed >> 33) as u8);
    }
    out
}

#[test]
fn crc32_combine_matches_single_pass() {
    let data = pseudo_random(100_000, 5);
    let (a, rest) = data.split_at(33_333);
    let (b, c) = rest.split_at(41_111);

    let mut whole = Crc32::new();
    whole.update(&data);

    let mut first = Crc32::new();
    first.update(a);
    let mut second = Crc32::new();
    second.update(b);
    let mut third = Crc32::new();
    third.update(c);
    first.combine(&second);
    first.combine(&third);

    assert_eq!(first.sum(), whole.sum());
    assert_eq!(first.amount(), whole.amount());
    assert_eq!(whole.amount(), 100_000);
}

#[test]
fn crc32_matches_reference() {
    let data = b"This is a first test line\nThis is a second test line\n";
    let mut ours = Crc32::new();
    ours.update(data);
    let mut reference = flate2::Crc::new();
    reference.update(data);
    assert_eq!(ours.sum(), reference.sum());
}

#[test]
fn adler32_combine_matches_single_pass() {
    let data = pseudo_random(80_000, 9);
    let (a, rest) = data.split_at(1);
    let (b, c) = rest.split_at(65_520);

    let mut whole = Adler32::new();
    whole.update(&data);

    let mut first = Adler32::new();
    first.update(a);
    let mut second = Adler32::new();
    second.update(b);
    let mut third = Adler32::new();
    third.update(c);
    first.combine(&second);
    first.combine(&third);

    assert_eq!(first.sum(), whole.sum());
    assert_eq!(first.amount(), whole.amount());
}

#[test]
fn adler32_known_value() {
    // Adler-32 of "Wikipedia" is the classic worked example.
    let mut check = Adler32::new();
    check.update(b"Wikipedia");
    assert_eq!(check.sum(), 0x11E60398);
    assert_eq!(check.amount(), 9);
}

#[test]
fn crc32_empty_is_zero() {
    let check = Crc32::new();
    assert_eq!(check.sum(), 0);
    assert_eq!(check.amount(), 0);
}

#[test]
fn adler32_empty_is_one() {
    let check = Adler32::new();
    assert_eq!(check.sum(), 1);
    assert_eq!(check.amount(), 0);
}

#[test]
fn pass_through_check_is_inert() {
    let mut check = PassThroughCheck::new();
    check.update(b"anything at all");
    let other = PassThroughCheck::new();
    check.combine(&other);
    assert_eq!(check.sum(), 0);
    assert_eq!(check.amount(), 0);
}
