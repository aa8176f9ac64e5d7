use zk_wasm::error::EmailError;
use zk_wasm::partial_hash::compute_partial_hash_for_email;
use zk_wasm::planner::calculate_split_point;
use zk_wasm::sha256::{
    compute_sha256_partial_state, prepare_block, sha256_compress, INITIAL_STATE, ROUND_CONSTANTS,
    SHA256_BLOCK_SIZE,
};

fn filler_email() -> Vec<u8> {
    let mut email = Vec::new();
    for _ in 0..100 {
        email.extend_from_slice(b"X-Header: some-long-value-here\r\n");
    }
    email.extend_from_slice(b"From: test@g.bracu.ac.bd\r\n");
    email.extend_from_slice(b"To: other@example.com\r\n");
    email
}

/// Pads `remaining` as the tail of a message of `total_length` bytes and
/// absorbs it into `state`; gives the digest as hex.
fn finish(state: &[u32], remaining: &[u8], total_length: u64) -> String {
    let mut tail = remaining.to_vec();
    tail.push(0x80);
    while (tail.len() % 64) != 56 {
        tail.push(0);
    }
    tail.extend_from_slice(&(total_length.wrapping_mul(8)).to_be_bytes());
    let mut words = [0u32; 8];
    words.copy_from_slice(state);
    for chunk in tail.chunks(64) {
        let block = prepare_block(chunk);
        sha256_compress(&mut words, &block);
    }
    words.iter().map(|w| format!("{:08x}", w)).collect()
}

#[test]
fn test_partial_hash_matches_full() {
    let data: Vec<u8> = (0..192).map(|i| (i % 256) as u8).collect();
    let prefix = &data[..128];
    let state = compute_sha256_partial_state(prefix);
    assert!(state.iter().any(|&x| x != 0));
}

#[test]
fn test_compute_partial_hash_for_email() {
    let email = filler_email();
    let result = compute_partial_hash_for_email(&email, 2560).unwrap();
    let remaining = result.remaining();
    let remaining_str = String::from_utf8_lossy(&remaining);
    assert!(remaining_str.contains("From:"));
}

#[test]
fn filler_email_is_split_at_the_last_boundary_before_from() {
    let email = filler_email();
    assert_eq!(email.len(), 3249);
    let result = compute_partial_hash_for_email(&email, 2560).unwrap();
    assert_eq!(result.prehashed_length(), 3136);
    assert_eq!(result.prehashed_length() % 64, 0);
    assert_eq!(result.total_length(), 3249);
    assert_eq!(result.remaining(), email[3136..].to_vec());
    assert!(result.remaining().len() <= 2560);
    assert_eq!(
        result.state(),
        vec![
            0x2787c390, 0xd4548bbe, 0x931c3533, 0x06ff9cfd, 0x80a83d52, 0x350270ed, 0xd5524705,
            0xc4d2e1ac,
        ]
    );
}

#[test]
fn resuming_from_the_split_gives_the_digest_of_the_whole_header() {
    let email = filler_email();
    let result = compute_partial_hash_for_email(&email, 2560).unwrap();
    assert_eq!(
        finish(&result.state(), &result.remaining(), result.total_length()),
        "6a19eef207a051765733b11677f6d8575e2ccd52ae5ef11668a870148c132c10"
    );
}

#[test]
fn resuming_from_an_unsplit_header_gives_its_digest() {
    let data: Vec<u8> = (0..192).map(|i| (i % 256) as u8).collect();
    let result = compute_partial_hash_for_email(&data, 192).unwrap();
    assert_eq!(
        finish(&result.state(), &result.remaining(), result.total_length()),
        "8b4a544837a1a0280fa8a7c82865c27a1064b3cc6281fda0753566b9bb104a87"
    );
}

#[test]
fn header_within_capacity_is_left_whole() {
    let header = b"To: a@b.c\r\nSubject: nothing from anyone\r\n".to_vec();
    let result = compute_partial_hash_for_email(&header, header.len()).unwrap();
    assert_eq!(result.prehashed_length(), 0);
    assert_eq!(result.total_length(), header.len() as u64);
    assert_eq!(result.remaining(), header);
    assert_eq!(result.state(), INITIAL_STATE.to_vec());
    let roomy = compute_partial_hash_for_email(&header, 10_000).unwrap();
    assert_eq!(roomy.prehashed_length(), 0);
    assert_eq!(roomy.remaining(), header);
    assert_eq!(roomy.state(), INITIAL_STATE.to_vec());
}

#[test]
fn empty_header_is_left_whole() {
    let result = compute_partial_hash_for_email(&[], 0).unwrap();
    assert_eq!(result.prehashed_length(), 0);
    assert_eq!(result.total_length(), 0);
    assert!(result.remaining().is_empty());
    assert_eq!(result.state(), INITIAL_STATE.to_vec());
}

#[test]
fn long_header_without_from_is_refused() {
    let mut header = Vec::new();
    for _ in 0..10 {
        header.extend_from_slice(b"X-Header: some-long-value-here\r\n");
    }
    let result = compute_partial_hash_for_email(&header, 100);
    assert_eq!(result.err(), Some(EmailError::FromHeaderNotFound));
}

#[test]
fn early_from_header_is_unsplittable() {
    let mut header = b"From: early@example.com\r\n".to_vec();
    for _ in 0..100 {
        header.extend_from_slice(b"X-Header: some-long-value-here\r\n");
    }
    let result = compute_partial_hash_for_email(&header, 2560);
    assert_eq!(result.err(), Some(EmailError::Unsplittable));
}

#[test]
fn from_header_at_a_boundary_inside_the_forced_prefix_is_unsplittable() {
    // 64 bytes of other headers, then `From:` at offset 64, with at least
    // 100 bytes to hash ahead: the only boundary at or below 100 is 64,
    // which is not before the header.
    let mut header = Vec::new();
    header.extend_from_slice(b"X-Header: some-long-value-here\r\n");
    header.extend_from_slice(b"X-Header: some-long-value-here\r\n");
    assert_eq!(header.len(), 64);
    header.extend_from_slice(b"From: a@example.com\r\n");
    while header.len() < 300 {
        header.extend_from_slice(b"X-Header: some-long-value-here\r\n");
    }
    let capacity = header.len() - 100;
    let result = compute_partial_hash_for_email(&header, capacity);
    assert_eq!(result.err(), Some(EmailError::Unsplittable));
}

#[test]
fn from_header_past_the_last_boundary_of_the_forced_prefix_is_split_there() {
    // `From:` at offset 70 with 100 bytes to hash ahead: the split falls back
    // to 64, before the header, and leaves more than the capacity.
    let mut header = Vec::new();
    header.extend_from_slice(b"X-Header: some-long-value-here\r\n");
    header.extend_from_slice(b"X-Header: some-long-value-here\r\n");
    header.extend_from_slice(b"X: 1\r\n");
    assert_eq!(header.len(), 70);
    header.extend_from_slice(b"From: a@example.com\r\n");
    while header.len() < 300 {
        header.extend_from_slice(b"X-Header: some-long-value-here\r\n");
    }
    let capacity = header.len() - 100;
    let result = compute_partial_hash_for_email(&header, capacity).unwrap();
    assert_eq!(result.prehashed_length(), 64);
    assert_eq!(result.remaining(), header[64..].to_vec());
    assert_eq!(result.state(), compute_sha256_partial_state(&header[..64]));
    assert!(result.remaining().len() > capacity);
}

#[test]
fn split_of_zero_is_a_split() {
    // `From:` at offset 6 with 10 bytes to hash ahead: the last boundary at
    // or below 10 is 0, which lies before the header.
    let mut header = b"X: 1\r\nFrom: a@example.com\r\n".to_vec();
    while header.len() < 200 {
        header.extend_from_slice(b"X-Header: some-long-value-here\r\n");
    }
    let capacity = header.len() - 10;
    let result = compute_partial_hash_for_email(&header, capacity).unwrap();
    assert_eq!(result.prehashed_length(), 0);
    assert_eq!(result.remaining(), header);
    assert_eq!(result.state(), INITIAL_STATE.to_vec());
}

#[test]
fn split_point_rules() {
    assert_eq!(calculate_split_point(689, 3200), Some(3136));
    assert_eq!(calculate_split_point(64, 65), Some(64));
    assert_eq!(calculate_split_point(65, 100), None);
    assert_eq!(calculate_split_point(0, 64), Some(0));
    assert_eq!(calculate_split_point(0, 65), Some(64));
    assert_eq!(calculate_split_point(0, 1), Some(0));
    assert_eq!(calculate_split_point(100, 70), Some(64));
    assert_eq!(calculate_split_point(100, 64), None);
    assert_eq!(calculate_split_point(100, 100), Some(64));
    assert_eq!(calculate_split_point(128, 128), None);
    assert_eq!(calculate_split_point(10, 5), Some(0));
    assert_eq!(calculate_split_point(0, 0), None);
    assert_eq!(calculate_split_point(usize::MAX, usize::MAX), Some(usize::MAX - 63));
}

#[test]
fn every_split_is_aligned_and_before_the_position() {
    for min_split in 0..200usize {
        for from_pos in 0..200usize {
            if let Some(split) = calculate_split_point(min_split, from_pos) {
                assert_eq!(split % 64, 0);
                assert!(split < from_pos);
                if min_split < from_pos {
                    assert!(split >= min_split);
                }
            }
        }
    }
}

#[test]
fn compress_matches_the_standard_on_abc() {
    let mut block_bytes = [0u8; 64];
    block_bytes[..3].copy_from_slice(b"abc");
    block_bytes[3] = 0x80;
    block_bytes[63] = 24;
    let block = prepare_block(&block_bytes);
    assert_eq!(block[0], 0x61626380);
    assert_eq!(block[15], 24);
    let mut state = INITIAL_STATE;
    sha256_compress(&mut state, &block);
    assert_eq!(
        state,
        [
            0xba7816bf, 0x8f01cfea, 0x414140de, 0x5dae2223, 0xb00361a3, 0x96177a9c, 0xb410ff61,
            0xf20015ad,
        ]
    );
}

#[test]
fn compress_of_a_zero_block() {
    let mut state = INITIAL_STATE;
    sha256_compress(&mut state, &[0u32; 16]);
    assert_eq!(
        state,
        [
            0xda5698be, 0x17b9b469, 0x62335799, 0x779fbeca, 0x8ce5d491, 0xc0d26243, 0xbafef9ea,
            0x1837a9d8,
        ]
    );
}

#[test]
fn empty_message_digest() {
    assert_eq!(
        finish(&INITIAL_STATE, &[], 0),
        "e3b0c44298fc1c149afbf4c8996fb92427ae41e4649b934ca495991b7852b855"
    );
}

#[test]
fn midstate_of_two_blocks() {
    let data: Vec<u8> = (0..192).map(|i| (i % 256) as u8).collect();
    assert_eq!(
        compute_sha256_partial_state(&data[..128]),
        vec![
            0x593253ad, 0xfb4cc018, 0xbe611395, 0x485e47c1, 0x5a5b271d, 0xfb8da14f, 0xe8f77fb4,
            0xd05eacbc,
        ]
    );
}

#[test]
fn midstate_of_nothing_is_the_initial_state() {
    assert_eq!(compute_sha256_partial_state(&[]), INITIAL_STATE.to_vec());
}

#[test]
fn prepare_block_reads_big_endian_words() {
    let bytes: Vec<u8> = (0..64).collect();
    let block = prepare_block(&bytes);
    assert_eq!(block[0], 0x00010203);
    assert_eq!(block[1], 0x04050607);
    assert_eq!(block[15], 0x3c3d3e3f);
}

#[test]
fn constants_are_the_standard_ones() {
    assert_eq!(SHA256_BLOCK_SIZE, 64);
    assert_eq!(INITIAL_STATE[0], 0x6a09e667);
    assert_eq!(INITIAL_STATE[7], 0x5be0cd19);
    assert_eq!(ROUND_CONSTANTS[0], 0x428a2f98);
    assert_eq!(ROUND_CONSTANTS[63], 0xc67178f2);
}
