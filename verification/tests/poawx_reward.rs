use irium_poawx::activation::NodeEnv;
use irium_poawx::poawx_reward::{
    multi_role_amounts, reward_manifest_caps_enforced, reward_manifest_caps_gate,
    role_amounts_with_fallback, PoawxRewardFallbackMode, PoawxRewardManifestV1,
    PoawxRewardManifestValidationError, PoawxRewardRole, PoawxRoleRewardCap, REWARD_MANIFEST_WIRE,
};

const NET: u8 = 1;
const SUBSIDY: u64 = 50_000_000_000;

fn full(total: u64) -> PoawxRewardManifestV1 {
    PoawxRewardManifestV1::new_full(
        NET,
        10,
        total,
        [0x01u8; 20],
        [0x02u8; 20],
        [0x03u8; 20],
        [0x04u8; 20],
        0,
        [0u8; 20],
    )
}

#[test]
fn phase31_valid_reward_manifest_accepts_55_22_13_10() {
    let m = full(SUBSIDY);
    assert_eq!(m.outputs[1].amount, SUBSIDY * 2200 / 10000);
    assert_eq!(m.outputs[2].amount, SUBSIDY * 1300 / 10000);
    assert_eq!(m.outputs[3].amount, SUBSIDY * 1000 / 10000);
    assert_eq!(
        m.outputs[0].amount,
        SUBSIDY - m.outputs[1].amount - m.outputs[2].amount - m.outputs[3].amount
    );
    assert_eq!(m.minted_total(), SUBSIDY);
    assert!(m.validate_caps(NET, SUBSIDY, 0).is_ok());
}

#[test]
fn phase31_rejects_role_cap_overpay() {
    let mut m = full(SUBSIDY);
    m.outputs[1].amount += 1;
    assert!(matches!(
        m.validate_caps(NET, SUBSIDY, 0),
        Err(PoawxRewardManifestValidationError::RoleCapExceeded(PoawxRewardRole::Compute))
            | Err(PoawxRewardManifestValidationError::SumMismatch)
    ));
    let mut m = full(SUBSIDY);
    m.outputs[2].amount = PoawxRoleRewardCap::for_role(PoawxRewardRole::Verify).ceiling(SUBSIDY) + 1;
    assert!(m.validate_caps(NET, SUBSIDY, 0).is_err());
    let mut m = full(SUBSIDY);
    m.outputs[3].amount = PoawxRoleRewardCap::for_role(PoawxRewardRole::Support).ceiling(SUBSIDY) + 1;
    assert!(m.validate_caps(NET, SUBSIDY, 0).is_err());
}

#[test]
fn phase31_rejects_total_coinbase_overpay() {
    let m = full(SUBSIDY);
    assert_eq!(
        m.validate_caps(NET, SUBSIDY - 1, 0),
        Err(PoawxRewardManifestValidationError::TotalOverpay)
    );
    let mut m2 = full(SUBSIDY);
    m2.outputs[0].amount += 1000;
    assert!(m2.validate_caps(NET, SUBSIDY, 0).is_err());
}

#[test]
fn phase31_low_participation_fallback_non_inflationary() {
    let m = PoawxRewardManifestV1::new_fallback(
        NET,
        10,
        SUBSIDY,
        [Some([0x01u8; 20]), Some([0x02u8; 20]), Some([0x03u8; 20]), None],
        0,
        [0u8; 20],
    );
    assert_eq!(m.outputs[3].amount, 0, "absent support not minted");
    assert!(m.minted_total() < SUBSIDY, "minted < subsidy (non-inflationary)");
    assert!(m.validate_caps(NET, SUBSIDY, 0).is_ok());
    let m1 = PoawxRewardManifestV1::new_fallback(
        NET,
        10,
        SUBSIDY,
        [Some([0x01u8; 20]), None, None, None],
        0,
        [0u8; 20],
    );
    assert!(m1.minted_total() <= SUBSIDY);
    assert!(m1.validate_caps(NET, SUBSIDY, 0).is_ok());
    let m0 = PoawxRewardManifestV1::new_fallback(NET, 10, SUBSIDY, [None; 4], 0, [0u8; 20]);
    assert_eq!(m0.minted_total(), 0);
    assert!(m0.validate_caps(NET, SUBSIDY, 0).is_ok());
}

#[test]
fn phase31_rounding_is_deterministic() {
    for total in [1u64, 3, 7, 9999, 10001, 50_000_000_001, u64::MAX / 2] {
        let m = full(total);
        assert_eq!(m.minted_total(), total, "exact sum for total={total}");
        let amts = multi_role_amounts(total);
        assert_eq!(
            [m.outputs[0].amount, m.outputs[1].amount, m.outputs[2].amount, m.outputs[3].amount],
            amts,
            "manifest matches canonical split for total={total}"
        );
        assert_eq!(role_amounts_with_fallback(total, [true; 4]), amts);
    }
}

#[test]
fn phase31_manifest_digest_changes_with_content() {
    let a = full(SUBSIDY);
    let mut b = full(SUBSIDY);
    b.outputs[0].pkh[0] ^= 1;
    assert_ne!(a.manifest_digest(), b.manifest_digest());
    assert_eq!(a.manifest_digest(), full(SUBSIDY).manifest_digest());
}

#[test]
fn phase31_mainnet_no_manifest_caps() {
    let m = full(SUBSIDY);
    assert_eq!(
        m.validate_caps(0, SUBSIDY, 0),
        Err(PoawxRewardManifestValidationError::MainnetHardOff)
    );
    assert!(!reward_manifest_caps_gate(0, Some(1), 100), "mainnet gate off");
    assert!(reward_manifest_caps_gate(1, Some(1), 100), "testnet gate on");
    assert!(!reward_manifest_caps_gate(1, None, 100), "no activation off");
}

#[test]
fn manifest_wire_roundtrips_and_rejects_bad_length() {
    let m = full(SUBSIDY);
    let bytes = m.serialize();
    assert_eq!(bytes.len(), REWARD_MANIFEST_WIRE);
    assert_eq!(PoawxRewardManifestV1::deserialize(&bytes).unwrap(), m);
    assert!(PoawxRewardManifestV1::deserialize(&bytes[..bytes.len() - 1]).is_err());
    let mut bad = bytes.clone();
    bad[0] = 2;
    assert!(PoawxRewardManifestV1::deserialize(&bad).is_err());
    assert_eq!(PoawxRewardFallbackMode::from_byte(PoawxRewardFallbackMode::PresentRolesOnly.to_byte()), Some(PoawxRewardFallbackMode::PresentRolesOnly));
}

#[test]
fn multi_role_split_of_one_million() {
    assert_eq!(multi_role_amounts(1_000_000), [550_000, 220_000, 130_000, 100_000]);
    assert_eq!(role_amounts_with_fallback(1_000_000, [true, true, true, false]), [550_000, 220_000, 130_000, 0]);
}

#[test]
fn caps_enforced_reads_the_node_env() {
    let mut env = NodeEnv::unset(1);
    env.reward_manifest_caps_activation_height = Some(5);
    assert!(!reward_manifest_caps_enforced(&env, 10));
    env.reward_manifest_caps_required = true;
    assert!(reward_manifest_caps_enforced(&env, 10));
    assert!(!reward_manifest_caps_enforced(&env, 4));
}

#[test]
fn manifest_error_texts_name_the_role() {
    let text = |e: PoawxRewardManifestValidationError| -> String { e.message().into_iter().collect() };
    assert_eq!(
        text(PoawxRewardManifestValidationError::RoleCapExceeded(PoawxRewardRole::Compute)),
        "phase31: role Compute reward exceeds cap"
    );
    assert_eq!(
        text(PoawxRewardManifestValidationError::PenalizedRecipient(PoawxRewardRole::Support)),
        "phase31: role Support recipient is penalized"
    );
    assert_eq!(text(PoawxRewardManifestValidationError::FeeOverCap), "phase31: fee exceeds third-party cap");
}

#[test]
fn penalized_support_recipient_is_refused() {
    let m = full(SUBSIDY);
    assert_eq!(m.validate_finality_recipient_eligibility(true), Ok(()));
    assert_eq!(
        m.validate_finality_recipient_eligibility(false),
        Err(PoawxRewardManifestValidationError::PenalizedRecipient(PoawxRewardRole::Support))
    );
    let mut absent = full(SUBSIDY);
    absent.outputs[3].present = false;
    assert_eq!(absent.validate_finality_recipient_eligibility(false), Ok(()));
    let mut zero = full(SUBSIDY);
    zero.outputs[3].amount = 0;
    assert_eq!(zero.validate_finality_recipient_eligibility(false), Ok(()));
}

#[test]
fn manifest_deserialize_names_the_first_failed_check() {
    let m = PoawxRewardManifestV1::new_full(1, 10, 1000, [1u8; 20], [2u8; 20], [3u8; 20], [4u8; 20], 0, [0u8; 20]);
    let raw = m.serialize();
    assert_eq!(raw.len(), 161);
    assert_eq!(PoawxRewardManifestV1::deserialize(&raw), Ok(m));
    let err = |b: &[u8]| PoawxRewardManifestV1::deserialize(b).unwrap_err();

    let mut bad = raw.clone();
    bad[70] = 2;
    assert_eq!(err(&bad), "reward manifest: bad present flag".to_string());
    assert_eq!(err(&raw[..160]), "reward manifest: bad length".to_string());
    let mut bad = raw.clone();
    bad[0] = 2;
    bad[70] = 2;
    assert_eq!(err(&bad), "reward manifest: bad version".to_string());
    let mut bad = raw.clone();
    bad[40] = 2;
    assert_eq!(err(&bad), "reward manifest: bad fallback".to_string());
    let mut bad = raw.clone();
    bad[71] = 9;
    assert_eq!(err(&bad), "reward manifest: bad role id".to_string());
    let mut bad = raw.clone();
    bad[71] = 3;
    assert_eq!(err(&bad), "reward manifest: non-canonical role order".to_string());
    let mut bad = raw.clone();
    bad[71 + 29] = 7;
    bad[131] = 0;
    assert_eq!(err(&bad), "reward manifest: bad present flag".to_string());
}
