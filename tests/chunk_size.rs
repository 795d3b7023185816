use static_mem_cache::file_stream::{get_block_size, optimal_buf_size, DEFAULT_READ_BUF_SIZE};

#[test]
fn block_size_is_raised_to_default() {
    assert_eq!(get_block_size(0), DEFAULT_READ_BUF_SIZE);
    assert_eq!(get_block_size(512), 4096);
    assert_eq!(get_block_size(65536), 65536);
}

#[test]
fn small_file_is_read_in_one_chunk() {
    assert_eq!(optimal_buf_size(100, 512), 100);
    assert_eq!(optimal_buf_size(0, 4096), 0);
    assert_eq!(optimal_buf_size(4095, 65536), 4095);
}

#[test]
fn large_file_uses_block_size() {
    assert_eq!(optimal_buf_size(10_000, 512), 4096);
    assert_eq!(optimal_buf_size(1_000_000, 65536), 65536);
    assert_eq!(optimal_buf_size(4096, 4096), 4096);
}

#[test]
fn chunk_size_bounds_hold_on_samples() {
    for len in [0u64, 1, 100, 4095, 4096, 4097, 10_000, 1 << 20] {
        for blk in [0usize, 512, 4096, 8192, 65536] {
            let r = optimal_buf_size(len, blk) as u64;
            assert!(r <= len);
            if blk as u64 <= len && len >= 4096 {
                assert!(r >= 4096);
            }
            if len < 4096 {
                assert_eq!(r, len);
            }
        }
    }
}
