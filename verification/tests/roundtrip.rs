//! Whole-stream round trips through the reference pipeline, decoded with the
//! standard decoders.
use std::io::Read;

use gzp::deflate::Bgzf;
use gzp::deflate::{Gzip, Mgzip, RawDeflate, Zlib};
use gzp::par::compress::compress_all;
use gzp::par::decompress::decompress_all;
use gzp::snap::Snap;
use gzp::{BUFSIZE, DICT_SIZE};

const LINES: &[u8] = b"This is a first test line\nThis is a second test line\n";

fn pseudo_random(n: usize, mut seed: u64) -> Vec<u8> {
    let mut out = Vec::with_capacity(n);
    for _ in 0..n {
        seed = seed.wrapping_mul(6364136223846793005).wrapping_add(1442695040888963407);
        out.push((seed >> 33) as u8);
    }
    out
}

fn gunzip(data: &[u8]) -> Vec<u8> {
    let mut decoder = flate2::bufread::GzDecoder::new(data);
    let mut out = Vec::new();
    decoder.read_to_end(&mut out).unwrap();
    out
}

#[test]
fn test_simple() {
    let compressed = compress_all(&Gzip {}, LINES, 3, 65536).unwrap();
    assert_eq!(
        &compressed[..10],
        &[0x1f, 0x8b, 0x08, 0x00, 0x00, 0x00, 0x00, 0x00, 0x00, 0xff]
    );
    assert_eq!(gunzip(&compressed), LINES.to_vec());
}

#[test]
fn test_regression() {
    let input: [u8; 206] = [
        132, 19, 107, 159, 69, 217, 180, 131, 224, 49, 143, 41, 194, 30, 151, 22, 55, 30, 42, 139,
        219, 62, 123, 44, 148, 144, 88, 233, 199, 126, 110, 65, 6, 87, 51, 215, 17, 253, 22, 63,
        110, 1, 100, 202, 44, 138, 187, 226, 50, 50, 218, 24, 193, 218, 43, 172, 69, 71, 8, 164,
        5, 186, 189, 215, 151, 170, 243, 235, 219, 103, 1, 0, 102, 80, 179, 95, 247, 26, 168, 147,
        139, 245, 177, 253, 94, 82, 146, 133, 103, 223, 96, 34, 128, 237, 143, 182, 48, 201, 201,
        92, 29, 172, 137, 70, 227, 98, 181, 246, 80, 21, 106, 175, 246, 41, 229, 187, 87, 65, 79,
        63, 115, 66, 143, 251, 41, 251, 214, 7, 64, 196, 27, 180, 42, 132, 116, 211, 148, 44, 177,
        137, 91, 119, 245, 156, 78, 24, 253, 69, 38, 52, 152, 115, 123, 94, 162, 72, 186, 239,
        136, 179, 11, 180, 78, 54, 217, 120, 173, 141, 114, 174, 220, 160, 223, 184, 114, 73, 148,
        120, 43, 25, 21, 62, 62, 244, 85, 87, 19, 174, 182, 227, 228, 70, 153, 5, 92, 51, 161, 9,
        140, 199, 244, 241, 151, 236, 81, 211,
    ];
    let compressed = compress_all(&Gzip {}, &input, 3, DICT_SIZE).unwrap();
    assert_eq!(gunzip(&compressed), input.to_vec());
    // The trailer stores the CRC-32 of the input and its length.
    let mut crc = flate2::Crc::new();
    crc.update(&input);
    let n = compressed.len();
    let stored_crc = u32::from_le_bytes(compressed[n - 8..n - 4].try_into().unwrap());
    let stored_len = u32::from_le_bytes(compressed[n - 4..].try_into().unwrap());
    assert_eq!(stored_crc, crc.sum());
    assert_eq!(stored_len, 206);
}

#[test]
fn gzip_multi_block_with_dictionary() {
    let input = pseudo_random(100_000, 7);
    let compressed = compress_all(&Gzip {}, &input, 6, DICT_SIZE).unwrap();
    assert_eq!(gunzip(&compressed), input);
}

#[test]
fn gzip_all_levels_roundtrip() {
    let input = pseudo_random(40_000, 11);
    for level in 0..=9 {
        let compressed = compress_all(&Gzip {}, &input, level, DICT_SIZE).unwrap();
        assert_eq!(gunzip(&compressed), input, "level {}", level);
    }
}

#[test]
fn gzip_boundary_sizes_roundtrip() {
    for n in [0usize, 1, DICT_SIZE - 1, DICT_SIZE, DICT_SIZE + 1] {
        let input = pseudo_random(n, n as u64 + 1);
        let compressed = compress_all(&Gzip {}, &input, 3, DICT_SIZE).unwrap();
        assert_eq!(gunzip(&compressed), input, "size {}", n);
    }
}

#[test]
fn test_simple_zlib() {
    let input = b"\
        This is a longer test than normal to come up with a bunch of text.\n\
        We'll read just a few lines at a time.\n\
        ";
    let compressed = compress_all(&Zlib {}, input, 3, BUFSIZE).unwrap();
    let mut decoder = flate2::bufread::ZlibDecoder::new(&compressed[..]);
    let mut out = Vec::new();
    decoder.read_to_end(&mut out).unwrap();
    assert_eq!(out, input.to_vec());
}

#[test]
fn zlib_multi_block_roundtrip() {
    let input = pseudo_random(90_000, 13);
    let compressed = compress_all(&Zlib {}, &input, 5, DICT_SIZE).unwrap();
    let mut decoder = flate2::bufread::ZlibDecoder::new(&compressed[..]);
    let mut out = Vec::new();
    decoder.read_to_end(&mut out).unwrap();
    assert_eq!(out, input);
}

#[test]
fn raw_deflate_roundtrip() {
    let input = pseudo_random(70_000, 17);
    let compressed = compress_all(&RawDeflate {}, &input, 4, DICT_SIZE).unwrap();
    let mut decoder = flate2::bufread::DeflateDecoder::new(&compressed[..]);
    let mut out = Vec::new();
    decoder.read_to_end(&mut out).unwrap();
    assert_eq!(out, input);
}

#[test]
fn test_simple_mgzip() {
    let input = b"
        This is a longer test than normal to come up with a bunch of text.
        We'll read just a few lines at a time.
        ";
    let compressed = compress_all(&Mgzip {}, input, 3, BUFSIZE).unwrap();
    let mut decoder = flate2::bufread::MultiGzDecoder::new(&compressed[..]);
    let mut out = Vec::new();
    decoder.read_to_end(&mut out).unwrap();
    assert_eq!(out, input.to_vec());
}

#[test]
fn test_simple_mgzip_etoe_decompress() {
    let input = b"
        This is a longer test than normal to come up with a bunch of text.
        We'll read just a few lines at a time.
        ";
    let compressed = compress_all(&Mgzip {}, input, 3, BUFSIZE).unwrap();
    let out = decompress_all(&Mgzip {}, &compressed).unwrap();
    assert_eq!(out, input.to_vec());
}

#[test]
fn mgzip_one_mebibyte_both_readers() {
    let input = pseudo_random(1 << 20, 42);
    let compressed = compress_all(&Mgzip {}, &input, 3, BUFSIZE).unwrap();
    let parallel = decompress_all(&Mgzip {}, &compressed).unwrap();
    let mut decoder = flate2::bufread::MultiGzDecoder::new(&compressed[..]);
    let mut synchronous = Vec::new();
    decoder.read_to_end(&mut synchronous).unwrap();
    assert_eq!(parallel, input);
    assert_eq!(synchronous, input);
}

#[test]
fn test_simple_bgzf_etoe_decompress() {
    let input = b"
        This is a longer test than normal to come up with a bunch of text.
        We'll read just a few lines at a time.
        ";
    let compressed = compress_all(&Bgzf {}, input, 3, gzp::bgzf::BGZF_BLOCK_SIZE).unwrap();
    let out = decompress_all(&Bgzf {}, &compressed).unwrap();
    assert_eq!(out, input.to_vec());
}

#[test]
fn bgzf_stream_ends_with_eof_sentinel() {
    let input = pseudo_random(200_000, 23);
    let compressed = compress_all(&Bgzf {}, &input, 3, gzp::bgzf::BGZF_BLOCK_SIZE).unwrap();
    let eof = gzp::bgzf::bgzf_eof();
    assert!(compressed.len() >= 28);
    assert_eq!(&compressed[compressed.len() - 28..], &eof[..]);
    assert_eq!(decompress_all(&Bgzf {}, &compressed).unwrap(), input);
    // The stream is also plain multi-member gzip.
    let mut decoder = flate2::bufread::MultiGzDecoder::new(&compressed[..]);
    let mut out = Vec::new();
    decoder.read_to_end(&mut out).unwrap();
    assert_eq!(out, input);
}

#[test]
fn bgzf_block_at_cap_accepted() {
    let input = pseudo_random(gzp::bgzf::BGZF_BLOCK_SIZE, 3);
    let compressed = compress_all(&Bgzf {}, &input, 3, gzp::bgzf::BGZF_BLOCK_SIZE).unwrap();
    assert_eq!(decompress_all(&Bgzf {}, &compressed).unwrap(), input);
}

#[test]
fn test_simple_snap() {
    let compressed = compress_all(&Snap {}, LINES, 3, BUFSIZE).unwrap();
    let mut decoder = snap::read::FrameDecoder::new(&compressed[..]);
    let mut out = Vec::new();
    decoder.read_to_end(&mut out).unwrap();
    assert_eq!(out, LINES.to_vec());
}

#[test]
fn snap_multi_block_roundtrip() {
    let input = pseudo_random(150_000, 29);
    let compressed = compress_all(&Snap {}, &input, 3, DICT_SIZE).unwrap();
    let mut decoder = snap::read::FrameDecoder::new(&compressed[..]);
    let mut out = Vec::new();
    decoder.read_to_end(&mut out).unwrap();
    assert_eq!(out, input);
}

#[test]
fn empty_input_roundtrips() {
    let gz = compress_all(&Gzip {}, b"", 3, DICT_SIZE).unwrap();
    assert_eq!(gunzip(&gz), Vec::<u8>::new());

    let zz = compress_all(&Zlib {}, b"", 3, DICT_SIZE).unwrap();
    let mut decoder = flate2::bufread::ZlibDecoder::new(&zz[..]);
    let mut out = Vec::new();
    decoder.read_to_end(&mut out).unwrap();
    assert_eq!(out, Vec::<u8>::new());

    let bg = compress_all(&Bgzf {}, b"", 3, gzp::bgzf::BGZF_BLOCK_SIZE).unwrap();
    assert_eq!(&bg[bg.len() - 28..], &gzp::bgzf::bgzf_eof()[..]);
    assert_eq!(decompress_all(&Bgzf {}, &bg).unwrap(), Vec::<u8>::new());

    let mg = compress_all(&Mgzip {}, b"", 3, BUFSIZE).unwrap();
    assert_eq!(decompress_all(&Mgzip {}, &mg).unwrap(), Vec::<u8>::new());
}
