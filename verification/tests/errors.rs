//! Rejected inputs: invalid headers, misdeclared block sizes, corrupted
//! checksums, and invalid configuration.
use gzp::deflate::Bgzf;
use gzp::deflate::Mgzip;
use gzp::par::compress::{compress_all, ParCompressBuilder};
use gzp::par::decompress::{decompress_all, ParDecompressBuilder};
use gzp::{BlockFormatSpec, GzpError, BUFSIZE, DICT_SIZE};

#[test]
fn extra_field_flag_clear_is_rejected() {
    // A 20-byte buffer whose fourth byte lacks the extra-field flag.
    let mut buf = [0u8; 20];
    buf[0] = 0x1f;
    buf[1] = 0x8b;
    buf[2] = 0x08;
    buf[3] = 0x00;
    let r = decompress_all(&Mgzip {}, &buf);
    assert!(matches!(r, Err(GzpError::InvalidHeader(_))));
}

#[test]
fn bad_magic_is_rejected() {
    let good = compress_all(&Mgzip {}, b"payload", 3, BUFSIZE).unwrap();
    let mut bad = good.clone();
    bad[0] = 0x1e;
    let r = decompress_all(&Mgzip {}, &bad);
    assert!(matches!(r, Err(GzpError::InvalidHeader(_))));
}

#[test]
fn bad_subfield_identifier_is_rejected() {
    let good = compress_all(&Bgzf {}, b"payload", 3, gzp::bgzf::BGZF_BLOCK_SIZE).unwrap();
    let mut bad = good.clone();
    bad[12] = b'X';
    let r = decompress_all(&Bgzf {}, &bad);
    assert!(matches!(r, Err(GzpError::InvalidHeader(_))));
}

#[test]
fn check_header_reports_each_fault() {
    let bgzf = Bgzf {};
    let mut header = [0u8; 18];
    header[0] = 0x1f;
    header[1] = 0x8b;
    header[3] = 0x04;
    header[12] = b'B';
    header[13] = b'C';
    assert!(bgzf.check_header(&header).is_ok());
    let mut bad_flag = header;
    bad_flag[3] = 0;
    assert!(matches!(
        bgzf.check_header(&bad_flag),
        Err(GzpError::InvalidHeader("Extra field flag not set"))
    ));
    let mut bad_sid = header;
    bad_sid[13] = b'Z';
    assert!(matches!(bgzf.check_header(&bad_sid), Err(GzpError::InvalidHeader("Bad SID"))));
    let mut bad_magic = header;
    bad_magic[1] = 0;
    assert!(matches!(bgzf.check_header(&bad_magic), Err(GzpError::InvalidHeader("Bad magic"))));
    let mgzip = Mgzip {};
    let mut mg_header = [0u8; 20];
    mg_header[0] = 0x1f;
    mg_header[1] = 0x8b;
    mg_header[3] = 0x04;
    mg_header[12] = b'I';
    mg_header[13] = b'G';
    assert!(mgzip.check_header(&mg_header).is_ok());
    let mut mg_bad_flag = mg_header;
    mg_bad_flag[3] = 0;
    assert!(matches!(
        mgzip.check_header(&mg_bad_flag),
        Err(GzpError::InvalidHeader("Extra field flag not set"))
    ));
}

#[test]
fn truncated_stream_is_rejected() {
    let good = compress_all(&Mgzip {}, b"some data to frame", 3, BUFSIZE).unwrap();
    let truncated = &good[..10];
    let r = decompress_all(&Mgzip {}, truncated);
    assert!(matches!(r, Err(GzpError::InvalidHeader(_))));
}

#[test]
fn block_size_beyond_stream_is_rejected() {
    let good = compress_all(&Bgzf {}, b"some data to frame", 3, gzp::bgzf::BGZF_BLOCK_SIZE)
        .unwrap();
    // Shorten the stream below what the first header declares.
    let r = decompress_all(&Bgzf {}, &good[..good.len() - 30]);
    assert!(matches!(r, Err(GzpError::InvalidBlockSize(_))));
}

#[test]
fn corrupted_checksum_reports_both_values() {
    let input = b"block contents whose checksum will be corrupted";
    let mut stream = compress_all(&Mgzip {}, input, 3, BUFSIZE).unwrap();
    // The stored CRC-32 sits eight bytes before the end of the only block.
    let n = stream.len();
    let expected_good =
        u32::from_le_bytes(stream[n - 8..n - 4].try_into().unwrap());
    stream[n - 8] ^= 0xff;
    let corrupted = u32::from_le_bytes(stream[n - 8..n - 4].try_into().unwrap());
    match decompress_all(&Mgzip {}, &stream) {
        Err(GzpError::InvalidCheck { found, expected }) => {
            assert_eq!(found, expected_good);
            assert_eq!(expected, corrupted);
        }
        other => panic!("unexpected result: {:?}", other.map(|v| v.len())),
    }
}

#[test]
fn undecodable_block_body_is_rejected() {
    let input = b"a block whose deflate body will be clobbered";
    let mut stream = compress_all(&Mgzip {}, input, 3, BUFSIZE).unwrap();
    // Overwrite the DEFLATE body with a reserved block type the decoder
    // rejects, leaving header and trailer in place.
    let n = stream.len();
    for byte in &mut stream[20..n - 8] {
        *byte = 0xff;
    }
    let r = decompress_all(&Mgzip {}, &stream);
    assert!(matches!(r, Err(GzpError::DecompressError)));
}

#[test]
fn buffer_size_below_dictionary_is_rejected() {
    let r = ParCompressBuilder::<Mgzip>::new().buffer_size(DICT_SIZE - 1);
    assert!(matches!(r, Err(GzpError::BufferSize(b, d)) if b == DICT_SIZE - 1 && d == DICT_SIZE));
    let r = ParDecompressBuilder::<Bgzf>::new().buffer_size(100);
    assert!(matches!(r, Err(GzpError::BufferSize(100, _))));
}

#[test]
fn zero_threads_is_rejected() {
    let r = ParCompressBuilder::<Mgzip>::new().num_threads(0);
    assert!(matches!(r, Err(GzpError::NumThreads(0))));
    let r = ParDecompressBuilder::<Bgzf>::new().num_threads(0);
    assert!(matches!(r, Err(GzpError::NumThreads(0))));
    let ok = ParCompressBuilder::<Mgzip>::new().num_threads(8).unwrap();
    assert_eq!(ok.num_threads, 8);
}
