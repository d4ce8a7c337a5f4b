use irium_poawx::explorer_indexer::{
    find_common_ancestor, next_batch, reorg_scan_count, reorg_scan_from, RpcBlock, RpcHeader,
};

fn block(height: i64, hash: &str) -> RpcBlock {
    RpcBlock {
        height,
        miner_address: None,
        tx_hex: vec![],
        header: RpcHeader {
            hash: hash.to_string(),
            prev_hash: String::new(),
            merkle_root: String::new(),
            time: 0,
            bits: String::new(),
            nonce: 0,
            version: 0,
        },
        auxpow_hex: None,
    }
}

#[test]
fn finds_highest_actual_common_ancestor() {
    let indexed = vec![(10, "a10".to_string()), (11, "a11".to_string()), (12, "old12".to_string())];
    let node = vec![block(10, "a10"), block(11, "a11"), block(12, "new12")];
    assert_eq!(find_common_ancestor(&indexed, &node), Some((11, "a11".to_string())));
}

#[test]
fn fails_closed_when_scan_window_has_no_common_block() {
    let indexed = vec![(10, "old10".to_string())];
    let node = vec![block(10, "new10")];
    assert_eq!(find_common_ancestor(&indexed, &node), None);
}

#[test]
fn a_later_index_entry_for_a_height_wins() {
    let indexed = vec![(10, "x".to_string()), (10, "a10".to_string())];
    let node = vec![block(10, "a10")];
    assert_eq!(find_common_ancestor(&indexed, &node), Some((10, "a10".to_string())));
    let indexed2 = vec![(10, "a10".to_string()), (10, "x".to_string())];
    assert_eq!(find_common_ancestor(&indexed2, &node), None);
}

#[test]
fn sync_plan_arithmetic() {
    assert_eq!(reorg_scan_from(100, 12), 88);
    assert_eq!(reorg_scan_from(5, 12), 0);
    assert_eq!(reorg_scan_count(88, 100), 13);
    assert_eq!(next_batch(-1, 0, 500), Some((0, 1)));
    assert_eq!(next_batch(100, 100, 500), None);
    assert_eq!(next_batch(100, 2000, 500), Some((101, 500)));
    assert_eq!(next_batch(1990, 2000, 500), Some((1991, 10)));
}
