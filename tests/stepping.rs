use evan_hash::bits::{reverse_bits, rotate_right, word_from_be, word_to_be};
use evan_hash::compress::transform;
use evan_hash::pad::fill_block;
use evan_hash::{digest_hex, hash_hex, EvanHash, INITIAL_STATE};

fn blocks_of(data: &[u8]) -> Vec<[u8; 8]> {
    let mut h = EvanHash::new(data);
    let mut out = Vec::new();
    while h.has_more() {
        h.update();
        out.push(h.block());
    }
    out
}

#[test]
fn empty_message_is_one_marker_block() {
    assert_eq!(blocks_of(b""), vec![[0u8; 8]]);
    assert_eq!(EvanHash::hash(b""), [255, 100, 211, 37, 112, 167, 41, 37]);
}

#[test]
fn exact_multiple_gets_extra_marker_block() {
    let blocks = blocks_of(b"ABCDEFGH");
    assert_eq!(blocks.len(), 2);
    assert_eq!(blocks[0], *b"ABCDEFGH");
    assert_eq!(blocks[1], [8, 0, 0, 0, 0, 0, 0, 0]);
    assert_eq!(EvanHash::hash(b"ABCDEFGH"), [46, 91, 212, 94, 66, 47, 216, 252]);
}

#[test]
fn seven_bytes_fit_one_block_with_marker() {
    assert_eq!(blocks_of(b"ABCDEFG"), vec![[65, 66, 67, 68, 69, 70, 71, 7]]);
}

#[test]
fn block_count_follows_length() {
    let quick = b"The quick brown fox jumps over the lazy dog";
    assert_eq!(blocks_of(quick).len(), quick.len() / 8 + 1);
    assert_eq!(blocks_of(&[0u8; 16]).len(), 3);
    assert_eq!(blocks_of(&[0u8; 15]).len(), 2);
}

#[test]
fn long_message_marker_is_truncated() {
    let data = vec![b'A'; 300];
    let blocks = blocks_of(&data);
    assert_eq!(blocks.len(), 38);
    let last = blocks[blocks.len() - 1];
    assert_eq!(last, [65, 65, 65, 65, 44, 0, 0, 0]);
    assert_eq!((300 % 256) as u8, 44);
}

#[test]
fn lengths_apart_by_256_share_marker_and_collide_here() {
    let short = vec![b'A'; 44];
    let long = vec![b'A'; 300];
    let expected = [145, 194, 157, 88, 21, 55, 155, 62];
    assert_eq!(EvanHash::hash(&short), expected);
    assert_eq!(EvanHash::hash(&long), expected);
}

#[test]
fn repeated_calls_agree() {
    let data = b"The quick brown fox jumps over the lazy dog";
    let first = EvanHash::hash(data);
    for _ in 0..5 {
        assert_eq!(EvanHash::hash(data), first);
    }
}

#[test]
fn stepping_by_hand_matches_hash() {
    let data = b"Different";
    let mut h = EvanHash::new(data);
    assert_eq!(h.state(), INITIAL_STATE);
    assert_eq!(h.blocks_mixed(), 0);
    while h.has_more() {
        h.update();
    }
    assert_eq!(h.blocks_mixed(), 2);
    assert_eq!(h.finalize(), [66, 58, 46, 209, 211, 241, 24, 150]);
}

#[test]
fn zero_block_keeps_state() {
    let mut h = EvanHash::new(b"xyz");
    h.process_block();
    assert_eq!(h.state(), INITIAL_STATE);
}

#[test]
fn hex_text_of_digest() {
    assert_eq!(hash_hex(b""), "ff64d32570a72925");
    assert_eq!(hash_hex(b"ABCDEFG"), "481d6f033b8739a3");
    assert_eq!(hash_hex(b"Short"), "82ad92bbce5f4ec4");
}

#[test]
fn fill_block_copies_pads_and_marks() {
    assert_eq!(fill_block(b"ABCDEFGHIJ", 0), *b"ABCDEFGH");
    assert_eq!(fill_block(b"ABCDEFGHIJ", 8), [73, 74, 10, 0, 0, 0, 0, 0]);
    assert_eq!(fill_block(b"ABC", 0), [65, 66, 67, 3, 0, 0, 0, 0]);
}

#[test]
fn word_conversions_are_big_endian() {
    let b = [1, 2, 3, 4, 5, 6, 7, 8];
    assert_eq!(word_from_be(&b), 0x0102_0304_0506_0708);
    assert_eq!(word_from_be(&b), u64::from_be_bytes(b));
    assert_eq!(word_to_be(0x0102_0304_0506_0708), b);
}

#[test]
fn bit_helpers_match_std() {
    let samples: [u64; 5] = [0, 1, 0x8000_0000_0000_0001, 0x0123_4567_89ab_cdef, u64::MAX - 7];
    for &x in samples.iter() {
        for &n in [7u64, 13, 17, 19, 23, 32, 37, 43, 51].iter() {
            assert_eq!(rotate_right(x, n), x.rotate_right(n as u32));
        }
        assert_eq!(reverse_bits(x), x.reverse_bits());
    }
    assert_eq!(rotate_right(1, 1), 1u64 << 63);
    assert_eq!(reverse_bits(1), 1u64 << 63);
}

#[test]
fn transforms_follow_table() {
    let w: u64 = 0x0123_4567_89ab_cdef;
    assert_eq!(transform(w, 0), !w);
    assert_eq!(transform(w, 1), w.rotate_right(17));
    assert_eq!(transform(w, 4), w.reverse_bits());
    assert_eq!(transform(w, 5), w ^ 0xAAAA_AAAA_AAAA_AAAA);
    assert_eq!(transform(w, 7), w ^ 0x5555_5555_5555_5555);
    assert_eq!(transform(w, 12), w.rotate_right(7));
}

#[test]
fn digest_hex_writes_two_lowercase_digits_per_byte() {
    assert_eq!(digest_hex(&[0x00, 0x01, 0x0f, 0x10, 0xab, 0xcd, 0xef, 0xff]), "00010f10abcdefff");
    assert_eq!(digest_hex(&INITIAL_STATE), "ff64d32570a72925");
}
