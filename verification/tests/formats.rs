//! Wire-format details: header bytes, field encodings, block sizes read back
//! from headers, and block-framed independence on concrete streams.
use gzp::deflate::Bgzf;
use gzp::deflate::{Gzip, Mgzip, Zlib};
use gzp::endian::{append_be_u16, append_le_u32, read_le_u16, read_le_u32};
use gzp::par::compress::compress_all;
use gzp::par::decompress::decompress_all;
use gzp::{to_bytes, BlockFormatSpec, FormatSpec, Pair, BUFSIZE};

#[test]
fn gzip_header_bytes_per_level() {
    let g = Gzip {};
    assert_eq!(g.header(3), vec![0x1f, 0x8b, 0x08, 0x00, 0x00, 0x00, 0x00, 0x00, 0x00, 0xff]);
    assert_eq!(g.header(9)[8], 2);
    assert_eq!(g.header(1)[8], 4);
    assert_eq!(g.header(0)[8], 4);
    assert_eq!(g.header(6)[8], 0);
}

#[test]
fn gzip_header_from_pairs_matches() {
    // The header can equally be written as header fields.
    let pairs = vec![
        Pair { num_bytes: 1, value: 31 },
        Pair { num_bytes: 1, value: 139 },
        Pair { num_bytes: 1, value: 8 },
        Pair { num_bytes: 1, value: 0 },
        Pair { num_bytes: 4, value: 0 },
        Pair { num_bytes: 1, value: 0 },
        Pair { num_bytes: 1, value: 255 },
    ];
    assert_eq!(to_bytes(&pairs), Gzip {}.header(3));
}

#[test]
fn pair_encodings_are_little_and_big_endian() {
    let pairs = vec![
        Pair { num_bytes: 4, value: 0x01020304 },
        Pair { num_bytes: -4, value: 0x01020304 },
        Pair { num_bytes: -2, value: 0x0102 },
    ];
    assert_eq!(to_bytes(&pairs), vec![4, 3, 2, 1, 1, 2, 3, 4, 1, 2]);
}

#[test]
fn endian_helpers_roundtrip() {
    let mut buf = Vec::new();
    append_le_u32(&mut buf, 0xdeadbeef);
    append_be_u16(&mut buf, 0x0102);
    assert_eq!(buf, vec![0xef, 0xbe, 0xad, 0xde, 0x01, 0x02]);
    assert_eq!(read_le_u32(&buf, 0), 0xdeadbeef);
    assert_eq!(read_le_u16(&buf, 0), 0xbeef);
}

#[test]
fn zlib_header_is_a_multiple_of_31() {
    let z = Zlib {};
    for level in 0..=9 {
        let h = z.header(level);
        assert_eq!(h.len(), 2);
        let value = ((h[0] as u32) << 8) + h[1] as u32;
        assert_eq!(value % 31, 0, "level {}", level);
        assert_eq!(h[0] & 0x0f, 8, "deflate method, level {}", level);
    }
}

#[test]
fn mgzip_header_declares_the_frame_size() {
    let m = Mgzip {};
    let frame = compress_all(&m, b"hello mgzip block", 3, BUFSIZE).unwrap();
    assert!(m.check_header(&frame[..20]).is_ok());
    let declared = m.get_block_size(&frame[..20]).unwrap();
    assert_eq!(declared, frame.len());
    let footer = m.get_footer_values(&frame[20..frame.len()]);
    assert_eq!(footer.amount, 17);
}

#[test]
fn bgzf_header_declares_the_frame_size() {
    let b = Bgzf {};
    let stream = compress_all(&b, b"hello bgzf block", 3, gzp::bgzf::BGZF_BLOCK_SIZE).unwrap();
    assert!(b.check_header(&stream[..18]).is_ok());
    let declared = b.get_block_size(&stream[..18]).unwrap();
    // The stream is one data frame followed by the 28-byte empty block.
    assert_eq!(declared, stream.len() - 28);
    let eof_start = stream.len() - 28;
    assert!(b.check_header(&stream[eof_start..eof_start + 18]).is_ok());
    assert_eq!(b.get_block_size(&stream[eof_start..eof_start + 18]).unwrap(), 28);
}

#[test]
fn removing_a_middle_block_removes_exactly_its_bytes() {
    let m = Mgzip {};
    let one = compress_all(&m, b"first block ", 3, BUFSIZE).unwrap();
    let two = compress_all(&m, b"second block ", 3, BUFSIZE).unwrap();
    let three = compress_all(&m, b"third block", 3, BUFSIZE).unwrap();
    let mut whole = Vec::new();
    whole.extend_from_slice(&one);
    whole.extend_from_slice(&two);
    whole.extend_from_slice(&three);
    assert_eq!(decompress_all(&m, &whole).unwrap(), b"first block second block third block");
    let mut without_middle = Vec::new();
    without_middle.extend_from_slice(&one);
    without_middle.extend_from_slice(&three);
    assert_eq!(decompress_all(&m, &without_middle).unwrap(), b"first block third block");
    // And each block decodes on its own.
    assert_eq!(decompress_all(&m, &two).unwrap(), b"second block ");
}

#[test]
fn buffer_sizing_helpers() {
    assert_eq!(gzp::deflate::output_buffer_size(0), 128);
    assert_eq!(gzp::deflate::output_buffer_size(1000), 1128);
    assert_eq!(gzp::deflate::output_buffer_size(100_000), 110_000);
    assert_eq!(gzp::bgzf::extra_amount(100), 128);
    assert_eq!(gzp::bgzf::extra_amount(10_000), 1000);
    assert_eq!(gzp::mgzip::extra_amount(1280), 128);
    assert_eq!(gzp::mgzip::extra_amount(1290), 129);
}

#[test]
fn parsnap_builder_keeps_its_settings() {
    let sink: Vec<u8> = Vec::new();
    let b = gzp::parsnap::ParSnapBuilder::new(sink).buffer_size(4096).num_threads(2);
    assert_eq!(b.buffer_size, 4096);
    assert_eq!(b.num_threads, 2);
}
