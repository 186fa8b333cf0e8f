use filequeue::truncate::{bytes_to_remove, plan_truncation, Truncation};

#[test]
fn nothing_is_removed_at_or_below_the_upper_limit() {
    assert_eq!(bytes_to_remove(4096, 0, 4096, 4096), 0);
    assert_eq!(bytes_to_remove(0, 0, 4096, 4096), 0);
    assert_eq!(bytes_to_remove(100, 0, 4096, 512), 0);
}

#[test]
fn whole_blocks_above_the_lower_limit_are_removed() {
    assert_eq!(bytes_to_remove(5000, 0, 4096, 4096), 4096);
    assert_eq!(bytes_to_remove(10000, 1000, 8000, 4096), 8192);
    assert_eq!(bytes_to_remove(10000, 0, 8000, 1), 10000);
    assert_eq!(bytes_to_remove(8193, 1, 8000, 4096), 8192);
}

#[test]
fn less_than_one_block_above_the_lower_limit_removes_nothing() {
    assert_eq!(bytes_to_remove(5000, 1000, 4096, 4096), 0);
    assert_eq!(bytes_to_remove(5000, 6000, 4096, 4096), 0);
    assert_eq!(bytes_to_remove(5000, 5000, 4096, 1), 0);
}

#[test]
fn the_largest_sizes_do_not_overflow() {
    assert_eq!(bytes_to_remove(u64::MAX, 0, 0, 1), u64::MAX);
    assert_eq!(bytes_to_remove(u64::MAX, 0, 0, u64::MAX), u64::MAX);
    assert_eq!(bytes_to_remove(u64::MAX, 0, 0, 4096), u64::MAX - 4095);
    assert_eq!(bytes_to_remove(u64::MAX, u64::MAX, 0, 4096), 0);
}

#[test]
fn a_file_of_5000_bytes_loses_one_block() {
    let plan = plan_truncation(5000, 5000, 0, 4096, 4096);
    assert_eq!(plan, Truncation { bytes: 4096, size: 904, cursor: 904 });
    let with_ten_pending = plan_truncation(5000, 4990, 0, 4096, 4096);
    assert_eq!(with_ten_pending, Truncation { bytes: 4096, size: 904, cursor: 894 });
}

#[test]
fn the_cursor_moves_back_by_the_bytes_removed() {
    let plan = plan_truncation(10000, 9000, 1000, 8000, 4096);
    assert_eq!(plan.bytes, 8192);
    assert_eq!(plan.size, 1808);
    assert_eq!(plan.cursor, 808);
}

#[test]
fn a_cursor_inside_the_removed_range_lands_on_the_start() {
    let plan = plan_truncation(5000, 1000, 0, 4096, 4096);
    assert_eq!(plan, Truncation { bytes: 4096, size: 904, cursor: 0 });
    let edge = plan_truncation(5000, 4096, 0, 4096, 4096);
    assert_eq!(edge.cursor, 0);
    let under = plan_truncation(5000, 4095, 0, 4096, 4096);
    assert_eq!(under.cursor, 0);
}

#[test]
fn a_plan_that_removes_nothing_leaves_size_and_cursor() {
    let plan = plan_truncation(3000, 2500, 0, 4096, 4096);
    assert_eq!(plan, Truncation { bytes: 0, size: 3000, cursor: 2500 });
}

#[test]
fn the_cursor_stays_inside_the_file_after_truncation() {
    let sizes = [4097u64, 5000, 8192, 8193, 100_000, 1 << 40];
    let lowers = [0u64, 1, 4095, 4096, 5000];
    let blocks = [1u64, 512, 4096, 65536];
    for &size in sizes.iter() {
        for &lower in lowers.iter() {
            for &blk in blocks.iter() {
                for &cursor in [0, size / 2, size].iter() {
                    let plan = plan_truncation(size, cursor, lower, 4096, blk);
                    assert_eq!(plan.bytes % blk, 0);
                    assert_eq!(plan.size, size - plan.bytes);
                    assert!(plan.cursor <= plan.size);
                    if cursor >= plan.bytes {
                        assert_eq!(plan.cursor, cursor - plan.bytes);
                    }
                    if plan.bytes > 0 {
                        assert!(plan.size >= lower);
                        assert!(plan.size - lower < blk);
                    }
                }
            }
        }
    }
}
