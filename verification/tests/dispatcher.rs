//! The block dispatcher's slicing, dictionary carry-over, finish semantics,
//! and the in-order assembly of the stream.
use gzp::check::Check;
use gzp::deflate::Gzip;
use gzp::par::compress::{compress_all, BlockDispatcher};
use gzp::{FormatSpec, GzpError, DICT_SIZE};

fn pseudo_random(n: usize, mut seed: u64) -> Vec<u8> {
    let mut out = Vec::with_capacity(n);
    for _ in 0..n {
        seed = seed.wrapping_mul(6364136223846793005).wrapping_add(1442695040888963407);
        out.push((seed >> 33) as u8);
    }
    out
}

#[test]
fn write_slices_full_blocks_and_keeps_the_rest() {
    let mut d = BlockDispatcher::new(Gzip {}, DICT_SIZE);
    let input = pseudo_random(3 * DICT_SIZE + 100, 1);
    let jobs = d.write(&input).unwrap();
    // Every full block is dispatched; strictly less than one block stays.
    assert_eq!(jobs.len(), 3);
    for (i, job) in jobs.iter().enumerate() {
        assert_eq!(job.data.len(), DICT_SIZE);
        assert_eq!(job.data[..], input[i * DICT_SIZE..(i + 1) * DICT_SIZE]);
        assert!(!job.is_last);
    }
    // The first block carries no dictionary; each later one carries the tail
    // of its predecessor.
    assert!(jobs[0].dictionary.is_none());
    for i in 1..3 {
        let dict = jobs[i].dictionary.as_ref().unwrap();
        assert_eq!(dict[..], jobs[i - 1].data[..]);
    }
    // Finishing drains the rest and marks the last job.
    let tail = d.finish().unwrap();
    assert_eq!(tail.len(), 1);
    assert_eq!(tail[0].data[..], input[3 * DICT_SIZE..]);
    assert!(tail[0].is_last);
}

#[test]
fn write_of_an_exact_multiple_leaves_nothing_buffered() {
    let mut d = BlockDispatcher::new(Gzip {}, DICT_SIZE);
    let input = pseudo_random(2 * DICT_SIZE, 5);
    let jobs = d.write(&input).unwrap();
    assert_eq!(jobs.len(), 2);
    assert_eq!(jobs[0].data.len(), DICT_SIZE);
    assert_eq!(jobs[1].data.len(), DICT_SIZE);
    // The stream still needs its closing job, which is empty here.
    let tail = d.finish().unwrap();
    assert_eq!(tail.len(), 1);
    assert!(tail[0].data.is_empty());
    assert!(tail[0].is_last);
}

#[test]
fn finish_twice_succeeds_and_write_after_finish_fails() {
    let mut d = BlockDispatcher::new(Gzip {}, DICT_SIZE);
    d.write(b"a little data").unwrap();
    let first = d.finish().unwrap();
    assert_eq!(first.len(), 1);
    let second = d.finish().unwrap();
    assert!(second.is_empty());
    assert!(matches!(d.write(b"more"), Err(GzpError::ChannelSend)));
    assert!(matches!(d.flush(), Err(GzpError::ChannelSend)));
}

#[test]
fn finish_on_empty_stream_dispatches_one_empty_last_job() {
    let mut d = BlockDispatcher::new(Gzip {}, DICT_SIZE);
    let jobs = d.finish().unwrap();
    assert_eq!(jobs.len(), 1);
    assert!(jobs[0].data.is_empty());
    assert!(jobs[0].is_last);
}

#[test]
fn flush_drains_without_closing() {
    let mut d = BlockDispatcher::new(Gzip {}, DICT_SIZE);
    d.write(b"first piece").unwrap();
    let jobs = d.flush().unwrap();
    assert_eq!(jobs.len(), 1);
    assert_eq!(&jobs[0].data[..], b"first piece");
    assert!(!jobs[0].is_last);
    // The stream is still open.
    let more = d.write(b"second piece").unwrap();
    assert!(more.is_empty());
    let tail = d.finish().unwrap();
    assert_eq!(&tail[0].data[..], b"second piece");
}

#[test]
fn stream_is_blocks_in_input_order() {
    // Encoding each block by hand, in input order, reassembles exactly the
    // stream the pipeline produces; any other order differs.
    let format = Gzip {};
    let input = pseudo_random(2 * DICT_SIZE + 500, 3);
    let level = 3;
    let stream = compress_all(&format, &input, level, DICT_SIZE).unwrap();

    let mut encoder = format.create_compressor(level).unwrap();
    let mut check = format.create_check();
    let mut manual = format.header(level);
    let blocks: [&[u8]; 3] = [
        &input[..DICT_SIZE],
        &input[DICT_SIZE..2 * DICT_SIZE],
        &input[2 * DICT_SIZE..],
    ];
    let mut encoded = Vec::new();
    let mut dict: Option<Vec<u8>> = None;
    for (i, block) in blocks.iter().enumerate() {
        let is_last = i == blocks.len() - 1;
        let out = format
            .encode(block, &mut encoder, level, dict.as_ref(), is_last)
            .unwrap();
        check.update(block);
        dict = Some(block[block.len().saturating_sub(DICT_SIZE)..].to_vec());
        encoded.push(out);
    }
    for part in &encoded {
        manual.extend_from_slice(part);
    }
    manual.extend_from_slice(&format.footer(&check));
    assert_eq!(manual, stream);

    // Concatenating the same parts in a different order breaks the stream.
    let mut reordered = format.header(level);
    reordered.extend_from_slice(&encoded[1]);
    reordered.extend_from_slice(&encoded[0]);
    reordered.extend_from_slice(&encoded[2]);
    reordered.extend_from_slice(&format.footer(&check));
    assert_ne!(reordered, stream);
}
