use irium_poawx::committee_miner::{
    committee_target_size, first_selected_round, kept_members, pools_ready, read_keys_text,
    registration_due, KeysFileError, REGISTRATION_INTERVAL_BLOCKS,
};

#[test]
fn committee_keys_file_parsing() {
    let k1 = "11".repeat(32);
    let k2 = "AbAb".repeat(16);
    let text = format!("  {k1}  \n\n\t{k2}\r\n");
    let keys = read_keys_text(&text).unwrap();
    assert_eq!(keys, vec![[0x11u8; 32], [0xab; 32]]);
    assert_eq!(read_keys_text(""), Err(KeysFileError::Empty));
    assert_eq!(read_keys_text("\n  \n"), Err(KeysFileError::Empty));
    assert_eq!(read_keys_text(&format!("{k1}\nzz\n")), Err(KeysFileError::BadHex));
    assert_eq!(read_keys_text(&format!("{k1}\nabcd\n")), Err(KeysFileError::WrongLength(2)));
    assert_eq!(read_keys_text(&format!("{k1}\u{00e9}")), Err(KeysFileError::BadHex));
    // The first bad line decides, even with a good key after it.
    assert_eq!(read_keys_text(&format!("abcd\nzz\n{k1}")), Err(KeysFileError::WrongLength(2)));
    // Unicode whitespace around a key is trimmed.
    assert_eq!(read_keys_text(&format!("\u{3000}{k1}\u{00a0}")).unwrap(), vec![[0x11u8; 32]]);
}

#[test]
fn first_selected_round_is_the_earliest() {
    let unit = u64::MAX / 100;
    assert_eq!(first_selected_round(0, 100, 3), Some(0));
    assert_eq!(first_selected_round(unit * 5, 100, 3), Some(2));
    assert_eq!(first_selected_round(unit * 5, 100, 1), None);
    assert_eq!(first_selected_round(unit * 20, 100, 2), None);
    assert_eq!(first_selected_round(unit * 20, 100, 3), Some(3));
    assert_eq!(first_selected_round(u64::MAX, 100, 1000), None);
    assert_eq!(first_selected_round(u64::MAX - 1, 0, 0), Some(0));
}

#[test]
fn proposer_registration_is_throttled_to_every_twenty_blocks() {
    assert!(registration_due(true, 0, 5));
    assert!(!registration_due(false, 0, 5));
    assert!(!registration_due(true, 100, 119));
    assert!(registration_due(true, 100, 120));
    assert!(!registration_due(true, 100, 50), "a clock that went back waits");
    assert_eq!(REGISTRATION_INTERVAL_BLOCKS, 20);
}

#[test]
fn committee_size_never_exceeds_the_keys() {
    assert_eq!(committee_target_size(None, 7), 7);
    assert_eq!(committee_target_size(Some(3), 7), 3);
    assert_eq!(committee_target_size(Some(9), 7), 7);
    assert_eq!(committee_target_size(Some(0), 7), 0);
    assert_eq!(committee_target_size(Some(u64::MAX), 0), 0);
}

#[test]
fn pools_need_two_supporters_and_one_of_each_other_role() {
    assert!(pools_ready(2, 1, 1));
    assert!(!pools_ready(1, 5, 5));
    assert!(!pools_ready(3, 0, 1));
    assert!(!pools_ready(3, 1, 0));
}

#[test]
fn kept_members_drop_the_winner_and_those_the_sortition_refuses() {
    let admitted = [true, false, true, true, false];
    assert_eq!(kept_members(2, &admitted, true), vec![0, 3]);
    assert_eq!(kept_members(2, &admitted, false), vec![0, 1, 3, 4]);
    assert_eq!(kept_members(9, &[], true), Vec::<usize>::new());
}
