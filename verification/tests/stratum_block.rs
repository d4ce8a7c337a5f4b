use irium_poawx::stratum_block::{
    build_coinbase_tx, build_irx1_commitment_script, build_merkle_branches,
    build_poawx_coinbase_tx, build_solo_coinbase_tx, coinbase_prefix_suffix, header_bytes,
    merkle_root_from_coinbase, parse_address_to_pkh, parse_hex32, parse_u32_hex, parse_worker_pkh_hex,
    poawx_coinbase_prefix_suffix, solo_coinbase_prefix_suffix, address_pkh_from_decoded,
    BlockError, EXTRANONCE_MARKER,
};
use irium_poawx::stratum_receipts::{compute_receipts_root_from_pending, PoawxPendingReceipt};

fn unhex(s: &str) -> Vec<u8> {
    hex::decode(s).unwrap()
}

#[test]
fn pool_coinbase_matches_the_node_wire_format() {
    let tx = build_coinbase_tx(1, 5_000_000_000, &[0x11; 20], &[1, 2, 3, 4, 5, 6, 7, 8], true, &[]);
    assert_eq!(
        tx,
        unhex("0100000001200000000000000000000000000000000000000000000000000000000000000000ffffffff0f0101497269756d0102030405060708ffffffff0100f2052a010000001976a914111111111111111111111111111111111111111188ac00000000")
    );
}

#[test]
fn coinbase_without_bip34_carries_the_decimal_height_and_extras() {
    let tx = build_coinbase_tx(123, 7, &[0x11; 20], &[], false, &[(0, vec![0x6a, 0x01, 0x02])]);
    assert_eq!(
        tx,
        unhex("0100000001200000000000000000000000000000000000000000000000000000000000000000ffffffff09497269756d20313233ffffffff0207000000000000001976a914111111111111111111111111111111111111111188ac0000000000000000036a010200000000")
    );
}

#[test]
fn bip34_height_push_is_minimal_with_sign_padding() {
    let head = |h: u64| {
        let tx = build_coinbase_tx(h, 0, &[0; 20], &[], true, &[]);
        tx[43..].to_vec()
    };
    assert_eq!(&head(0)[..2], &[1, 0]);
    assert_eq!(&head(1)[..2], &[1, 1]);
    assert_eq!(&head(128)[..3], &[2, 0x80, 0]);
    assert_eq!(&head(255)[..3], &[2, 0xff, 0]);
    assert_eq!(&head(256)[..3], &[2, 0, 1]);
    assert_eq!(&head(0x7f_ffff)[..4], &[3, 0xff, 0xff, 0x7f]);
}

#[test]
fn prefix_and_suffix_reassemble_around_the_marker() {
    let extras = vec![(0u64, vec![0xfa, 0xce])];
    let (p, s) = coinbase_prefix_suffix(50_000, 99, &[0x22; 20], true, &extras);
    let full = build_coinbase_tx(50_000, 99, &[0x22; 20], &EXTRANONCE_MARKER, true, &extras);
    let mut joined = p.clone();
    joined.extend_from_slice(&EXTRANONCE_MARKER);
    joined.extend_from_slice(&s);
    assert_eq!(joined, full);
    let with_nonce = build_coinbase_tx(50_000, 99, &[0x22; 20], &[9; 8], true, &extras);
    let mut joined2 = p;
    joined2.extend_from_slice(&[9; 8]);
    joined2.extend_from_slice(&s);
    assert_eq!(joined2, with_nonce);

    let (sp, ss) = solo_coinbase_prefix_suffix(7, 1000, &[1; 20], &[2; 20], 250, false);
    let sfull = build_solo_coinbase_tx(7, 1000, &[1; 20], &[2; 20], 250, &EXTRANONCE_MARKER, false);
    assert_eq!([sp, EXTRANONCE_MARKER.to_vec(), ss].concat(), sfull);

    let payouts = vec![([3u8; 20], 10u64), ([4u8; 20], 20u64)];
    let (pp, ps) = poawx_coinbase_prefix_suffix(7, 30, &[0; 20], true, &[], &payouts);
    let pfull = build_poawx_coinbase_tx(7, 30, &[0; 20], &EXTRANONCE_MARKER, true, &[], &payouts);
    assert_eq!([pp, EXTRANONCE_MARKER.to_vec(), ps].concat(), pfull);
}

#[test]
fn solo_coinbase_splits_reward_and_caps_the_fee() {
    let tx = build_solo_coinbase_tx(1, 1000, &[1; 20], &[2; 20], 250, &[], true);
    let n = tx.len();
    let outs = &tx[n - 4 - 2 * 34 - 1..n - 4];
    assert_eq!(outs[0], 2);
    assert_eq!(u64::from_le_bytes(outs[1..9].try_into().unwrap()), 975);
    assert_eq!(u64::from_le_bytes(outs[35..43].try_into().unwrap()), 25);
    let capped = build_solo_coinbase_tx(1, 1000, &[1; 20], &[2; 20], 20_000, &[], true);
    let m = capped.len();
    let couts = &capped[m - 4 - 2 * 34 - 1..m - 4];
    assert_eq!(u64::from_le_bytes(couts[1..9].try_into().unwrap()), 0);
    assert_eq!(u64::from_le_bytes(couts[35..43].try_into().unwrap()), 1000);
}

#[test]
fn solo_coinbase_rounds_the_worker_share_down() {
    // worker = floor(reward * (10 000 - fee) / 10 000); the pool gets the rest.
    let tx = build_solo_coinbase_tx(1, 1, &[1; 20], &[2; 20], 1, &[], false);
    let n = tx.len();
    let outs = &tx[n - 4 - 2 * 34 - 1..n - 4];
    assert_eq!(outs[0], 2, "exactly two outputs");
    assert_eq!(u64::from_le_bytes(outs[1..9].try_into().unwrap()), 0);
    assert_eq!(&outs[9..35], &[&[25u8, 0x76, 0xa9, 0x14][..], &[1u8; 20][..], &[0x88, 0xac][..]].concat()[..]);
    assert_eq!(u64::from_le_bytes(outs[35..43].try_into().unwrap()), 1);
    let big = build_solo_coinbase_tx(1, u64::MAX, &[1; 20], &[2; 20], 1, &[], false);
    let m = big.len();
    let bouts = &big[m - 4 - 2 * 34 - 1..m - 4];
    let worker = u64::from_le_bytes(bouts[1..9].try_into().unwrap());
    let pool = u64::from_le_bytes(bouts[35..43].try_into().unwrap());
    assert_eq!(worker as u128, (u64::MAX as u128) * 9_999 / 10_000);
    assert_eq!(worker as u128 + pool as u128, u64::MAX as u128);
}

#[test]
fn poawx_coinbase_pays_each_role_in_order() {
    let payouts = vec![([3u8; 20], 550u64), ([4u8; 20], 220u64)];
    let tx = build_poawx_coinbase_tx(2, 1000, &[0; 20], &[], false, &[(0, vec![0x6a])], &payouts);
    let expected_outputs: Vec<u8> = [
        vec![3],
        550u64.to_le_bytes().to_vec(),
        vec![25, 0x76, 0xa9, 0x14],
        vec![3u8; 20],
        vec![0x88, 0xac],
        220u64.to_le_bytes().to_vec(),
        vec![25, 0x76, 0xa9, 0x14],
        vec![4u8; 20],
        vec![0x88, 0xac],
        0u64.to_le_bytes().to_vec(),
        vec![1, 0x6a],
        vec![0, 0, 0, 0],
    ]
    .concat();
    assert!(tx.ends_with(&expected_outputs));
}

#[test]
fn merkle_branch_and_root_for_a_small_template() {
    let b = build_merkle_branches(&["00".to_string(), "01".to_string()]).unwrap();
    assert_eq!(
        b,
        vec![
            <[u8; 32]>::try_from(unhex("1406e05881e299367766d313e26c05564ec91bf721d31726bd6e46e60689539a")).unwrap(),
            <[u8; 32]>::try_from(unhex("75f272d1e81d5fcdedbea1cbf8e8c5e5d6d638fbc521645fba5f7e107511e56c")).unwrap(),
        ]
    );
    let root = merkle_root_from_coinbase([0xaa; 32], &b);
    assert_eq!(root.to_vec(), unhex("7b8b8217ce18faeeb428250213be155f0ae94cfc8976f78f530e9d37957405cb"));
    assert_eq!(build_merkle_branches(&[]).unwrap(), Vec::<[u8; 32]>::new());
    assert_eq!(merkle_root_from_coinbase([7; 32], &[]), [7; 32]);
    assert_eq!(build_merkle_branches(&["0g".to_string()]), Err(BlockError::HexDecode));
    assert_eq!(build_merkle_branches(&["000".to_string()]), Err(BlockError::HexDecode));
}

#[test]
fn header_and_commitment_layouts() {
    let h = header_bytes(0x2000_0000, [1; 32], [2; 32], 0x6000_0000, 0x1d00_ffff, 42);
    assert_eq!(&h[0..4], &0x2000_0000u32.to_le_bytes());
    assert_eq!(&h[4..36], &[1; 32]);
    assert_eq!(&h[36..68], &[2; 32]);
    assert_eq!(&h[68..72], &0x6000_0000u32.to_le_bytes());
    assert_eq!(&h[72..76], &0x1d00_ffffu32.to_le_bytes());
    assert_eq!(&h[76..80], &42u32.to_le_bytes());
    let s = build_irx1_commitment_script(&[5; 32]);
    assert_eq!(&s[0..6], &[0x6a, 0x24, b'i', b'r', b'x', b'1']);
    assert_eq!(&s[6..], &[5; 32]);
}

#[test]
fn hex_parsing() {
    assert_eq!(parse_hex32(&"ab".repeat(32)), Ok([0xab; 32]));
    assert_eq!(parse_hex32(&"AB".repeat(32)), Ok([0xab; 32]));
    assert_eq!(parse_hex32("abcd"), Err(BlockError::HexLength));
    assert_eq!(parse_hex32("xyz0"), Err(BlockError::HexDecode));
    assert_eq!(parse_u32_hex("0x1d00ffff"), Ok(0x1d00_ffff));
    assert_eq!(parse_u32_hex("1D00FFFF"), Ok(0x1d00_ffff));
    assert_eq!(parse_u32_hex("0x0x10"), Ok(16));
    assert_eq!(parse_u32_hex("+ff"), Ok(255));
    assert_eq!(parse_u32_hex("ffffffff"), Ok(u32::MAX));
    assert_eq!(parse_u32_hex("100000000"), Err(BlockError::HexParse));
    assert_eq!(parse_u32_hex(""), Err(BlockError::HexParse));
    assert_eq!(parse_u32_hex("0x"), Err(BlockError::HexParse));
    assert_eq!(parse_u32_hex("+"), Err(BlockError::HexParse));
    assert_eq!(parse_u32_hex("-1"), Err(BlockError::HexParse));
    assert_eq!(parse_u32_hex("000000000001"), Ok(1));
}

#[test]
fn payout_addresses_decode_and_check() {
    let pkh: Vec<u8> = (1u8..=20).collect();
    assert_eq!(parse_address_to_pkh("PwMiDAQnrkKZL9dTfCpiavfCy8LZrFtiGG").unwrap().to_vec(), pkh);
    assert_eq!(parse_address_to_pkh("PwMiDAQnrkKZL9dTfCpiavfCy8LZrHNhYc"), Err(BlockError::AddressChecksum));
    assert_eq!(parse_address_to_pkh("4WJhSxF84A8Z4PvTHGJHkpg4AG4MR"), Err(BlockError::AddressLength));
    assert_eq!(parse_address_to_pkh("0OIl"), Err(BlockError::Base58Decode));
    assert_eq!(address_pkh_from_decoded(&[0u8; 24]), Err(BlockError::AddressLength));
    assert_eq!(BlockError::AddressChecksum.message(), "address checksum mismatch");
}

fn receipt(h: u64, lane: &str, pkh: &str, pubkey: &str, sig: &str, sol: &str, nonce: &str, del: &str, ext: &str) -> PoawxPendingReceipt {
    PoawxPendingReceipt {
        height: h,
        lane: lane.to_string(),
        worker_pkh: pkh.to_string(),
        worker_pubkey: pubkey.to_string(),
        worker_sig: sig.to_string(),
        solution: sol.to_string(),
        commitment_nonce: nonce.to_string(),
        delegation: del.to_string(),
        phase20_ext: ext.to_string(),
    }
}

#[test]
fn receipts_root_in_both_forms() {
    let pk1 = "aa".repeat(20);
    let pk2 = "bb".repeat(20);
    let pub1 = "02".repeat(33);
    let pub2 = "03".repeat(33);
    let a = vec![
        receipt(60_000, "B", &pk1, &pub1, "30", "0102", "ff", "", "ee"),
        receipt(60_000, "A", &pk2, &pub2, "31", "zz", "00", "0a0b", ""),
    ];
    assert_eq!(
        compute_receipts_root_from_pending(&a).to_vec(),
        unhex("c0514151707bf5287704d53d5e2cefaf763c98f15e5ddc7d6392a411da3dd6a5")
    );
    let mut reversed = a.clone_list();
    reversed.reverse();
    assert_eq!(compute_receipts_root_from_pending(&reversed), compute_receipts_root_from_pending(&a));
    let l = vec![
        receipt(10, "B", &pk1, &pub1, "30", "0102", "ff", "", "ee"),
        receipt(10, "A", &pk2, &pub2, "31", "zz", "00", "0a0b", ""),
    ];
    assert_eq!(
        compute_receipts_root_from_pending(&l).to_vec(),
        unhex("c52544c5e39fa261c44d198c7b8aa00aea388194791c911017c2edc2234fcace")
    );
    assert_eq!(
        compute_receipts_root_from_pending(&[]).to_vec(),
        unhex("e3b0c44298fc1c149afbf4c8996fb92427ae41e4649b934ca495991b7852b855")
    );
}

trait CloneList {
    fn clone_list(&self) -> Vec<PoawxPendingReceipt>;
}

impl CloneList for Vec<PoawxPendingReceipt> {
    fn clone_list(&self) -> Vec<PoawxPendingReceipt> {
        self.iter()
            .map(|r| PoawxPendingReceipt {
                height: r.height,
                lane: r.lane.clone(),
                worker_pkh: r.worker_pkh.clone(),
                worker_pubkey: r.worker_pubkey.clone(),
                worker_sig: r.worker_sig.clone(),
                solution: r.solution.clone(),
                commitment_nonce: r.commitment_nonce.clone(),
                delegation: r.delegation.clone(),
                phase20_ext: r.phase20_ext.clone(),
            })
            .collect()
    }
}

#[test]
fn worker_pkh_hex_parsing() {
    assert_eq!(parse_worker_pkh_hex(&format!("  {}\n", "ab".repeat(20))), Some([0xab; 20]));
    assert_eq!(parse_worker_pkh_hex(&"AB".repeat(20)), Some([0xab; 20]));
    assert_eq!(parse_worker_pkh_hex(&"ab".repeat(32)), None, "a 32-byte hash is no key hash");
    assert_eq!(parse_worker_pkh_hex("xyz"), None);
    assert_eq!(parse_worker_pkh_hex(""), None);
}

#[test]
fn split_coinbase_takes_any_extranonce() {
    let extras = vec![(5u64, vec![0x6a, 0x01, 0x02])];
    let (p, s) = coinbase_prefix_suffix(840_000, 625_000_000, &[0x33; 20], true, &extras);
    for en in [[0u8; 8], [1, 2, 3, 4, 5, 6, 7, 8], [0xff; 8]] {
        let joined = [p.clone(), en.to_vec(), s.clone()].concat();
        assert_eq!(joined, build_coinbase_tx(840_000, 625_000_000, &[0x33; 20], &en, true, &extras));
    }
    let (sp, ss) = solo_coinbase_prefix_suffix(12, 1000, &[1; 20], &[2; 20], 100, false);
    let en = [9u8, 8, 7, 6, 5, 4, 3, 2];
    let joined = [sp, en.to_vec(), ss].concat();
    assert_eq!(joined, build_solo_coinbase_tx(12, 1000, &[1; 20], &[2; 20], 100, &en, false));
}

#[test]
fn leading_ones_of_an_address_decode_to_zero_bytes() {
    assert_eq!(parse_address_to_pkh("1111111111111111111114oLvT2"), Ok([0u8; 20]));
    assert_eq!(parse_address_to_pkh("1111111111111111111114oLvT3"), Err(BlockError::AddressChecksum));
    assert_eq!(parse_address_to_pkh("11111111111111111111114oLvT2"), Err(BlockError::AddressLength));
}
