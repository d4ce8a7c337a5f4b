use irium_poawx::activation::NodeEnv;
use irium_poawx::activation::mainnet_combined_activation_height;
use irium_poawx::poawx_proposer::{
    mainnet_proposer_nonexclusive_activation_height, proposer_nonexclusive_gate,
    cap_difficulty_if_enforced, contributor_role_binding_gate, cumulative_slots,
    fork_choice_hardening_gate, is_selected, mainnet_contributor_role_binding_height,
    mainnet_pow_demotion_activation_height, mainnet_pow_demotion_active, max_reorg_depth,
    max_round_for_elapsed, min_finality_committee, min_time_for_round, pow_demotion_gate,
    proposer_priority, proposer_registration_gate, proposer_threshold, proposer_vrf_gate,
    registration_anchor_valid, CheckedRegistration, GossipOutcome, NodeProposerRegistrationPool,
    ProposerEligibilityRegistry, RegistrationCheck, registration_check, DEFAULT_MAX_REORG_DEPTH_DEVNET,
    DEFAULT_MIN_FINALITY_COMMITTEE_DEVNET, MAX_REORG_DEPTH_HARD_FLOOR,
    PROPOSER_REG_REFRESH_MIN_ANCHOR_DELTA,
};

#[test]
fn contributor_role_binding_gate_mainnet_activates_at_height() {
    let h = mainnet_contributor_role_binding_height().expect("activation height is set");
    assert!(!contributor_role_binding_gate(0, Some(1), h - 1));
    assert!(contributor_role_binding_gate(0, Some(1), h));
    assert!(contributor_role_binding_gate(0, None, h + 1));
    assert!(!contributor_role_binding_gate(0, None, 100));
    assert!(!contributor_role_binding_gate(2, None, 100));
    assert!(!contributor_role_binding_gate(2, Some(50), 49));
    assert!(contributor_role_binding_gate(2, Some(50), 50));
    assert!(contributor_role_binding_gate(2, Some(50), 100));
}

#[test]
fn cumulative_slots_cascade() {
    assert_eq!(cumulative_slots(0, 100), 1);
    assert_eq!(cumulative_slots(1, 100), 4);
    assert_eq!(cumulative_slots(2, 100), 14);
    assert_eq!(cumulative_slots(3, 100), 100);
    assert_eq!(cumulative_slots(9, 100), 100);
    assert_eq!(cumulative_slots(2, 5), 5);
    assert_eq!(cumulative_slots(0, 5), 1);
    assert_eq!(cumulative_slots(0, 0), 1);
}

#[test]
fn threshold_widens_and_saturates() {
    assert_eq!(proposer_threshold(100, 0), u64::MAX / 100);
    assert_eq!(proposer_threshold(100, 1), (u64::MAX / 100) * 4);
    assert_eq!(proposer_threshold(100, 2), (u64::MAX / 100) * 14);
    assert_eq!(proposer_threshold(100, 3), u64::MAX);
    assert_eq!(proposer_threshold(1, 0), u64::MAX);
    assert_eq!(proposer_threshold(4, 1), u64::MAX);
    let n = 50;
    let mut prev = 0u64;
    for r in 0..6u32 {
        let t = proposer_threshold(n, r);
        assert!(t >= prev, "threshold must be non-decreasing in round");
        prev = t;
    }
    assert_eq!(prev, u64::MAX);
}

#[test]
fn selection_by_priority() {
    let n = 100;
    let tau0 = proposer_threshold(n, 0);
    assert!(is_selected(0, n, 0));
    assert!(is_selected(tau0 - 1, n, 0));
    assert!(!is_selected(tau0, n, 0));
    assert!(!is_selected(u64::MAX, n, 0));
    let p = tau0 + 1;
    assert!(!is_selected(p, n, 0));
    assert!(is_selected(p, n, 3));
}

#[test]
fn round_timing() {
    assert_eq!(min_time_for_round(1000, 0, 30), 1000);
    assert_eq!(min_time_for_round(1000, 1, 30), 1030);
    assert_eq!(min_time_for_round(1000, 2, 30), 1060);
    assert_eq!(max_round_for_elapsed(0, 30), 0);
    assert_eq!(max_round_for_elapsed(29, 30), 0);
    assert_eq!(max_round_for_elapsed(30, 30), 1);
    assert_eq!(max_round_for_elapsed(95, 30), 3);
}

#[test]
fn gate_mainnet_activates_at_50000() {
    assert!(!proposer_vrf_gate(0, Some(1), 49_999));
    assert!(proposer_vrf_gate(0, Some(1), 50_000));
    assert!(proposer_vrf_gate(0, None, 1_000_000));
    assert!(proposer_vrf_gate(2, Some(1), 1));
    assert!(proposer_vrf_gate(1, Some(100), 100));
    assert!(!proposer_vrf_gate(2, Some(100), 99));
    assert!(!proposer_vrf_gate(2, None, 1));
}

#[test]
fn mainnet_pow_demotion_const_controls_net0_activation() {
    assert!(!mainnet_pow_demotion_active(None, 10_000_000));
    assert!(!mainnet_pow_demotion_active(Some(100), 99));
    assert!(mainnet_pow_demotion_active(Some(100), 100));
    assert!(mainnet_pow_demotion_active(Some(100), 101));
    assert_eq!(
        pow_demotion_gate(0, Some(1), 10_000_000),
        mainnet_pow_demotion_active(mainnet_pow_demotion_activation_height(), 10_000_000)
    );
}

#[test]
fn priority_from_output_le() {
    let mut out = [0u8; 32];
    out[0..8].copy_from_slice(&7u64.to_le_bytes());
    assert_eq!(proposer_priority(&out), 7);
}

#[test]
fn fork_choice_hardening_gate_and_depth_floor() {
    assert!(!fork_choice_hardening_gate(0, Some(1), 100));
    assert!(fork_choice_hardening_gate(2, Some(50), 50));
    assert!(fork_choice_hardening_gate(2, Some(50), 999));
    assert!(!fork_choice_hardening_gate(2, Some(50), 49));
    assert!(!fork_choice_hardening_gate(2, None, 100));
    let mut env = NodeEnv::unset(2);
    env.max_reorg_depth = Some(2);
    assert_eq!(max_reorg_depth(&env), MAX_REORG_DEPTH_HARD_FLOOR);
    env.max_reorg_depth = Some(250);
    assert_eq!(max_reorg_depth(&env), 250);
    env.max_reorg_depth = None;
    assert_eq!(max_reorg_depth(&env), DEFAULT_MAX_REORG_DEPTH_DEVNET);
    assert_eq!(min_finality_committee(&env), DEFAULT_MIN_FINALITY_COMMITTEE_DEVNET);
}

#[test]
fn registration_gate_pure() {
    assert!(!proposer_registration_gate(false, Some(1), 100));
    assert!(!proposer_registration_gate(true, None, 100));
    assert!(proposer_registration_gate(true, Some(50), 50));
    assert!(proposer_registration_gate(true, Some(50), 999));
    assert!(!proposer_registration_gate(true, Some(50), 49));
}

#[test]
fn registration_anchor_window_math() {
    assert!(registration_anchor_valid(60, 66, 64));
    assert!(registration_anchor_valid(65, 66, 64));
    assert!(!registration_anchor_valid(0, 66, 64));
    assert!(registration_anchor_valid(0, 64, 64));
    assert!(!registration_anchor_valid(0, 65, 64));
    assert!(!registration_anchor_valid(66, 66, 64));
    assert!(!registration_anchor_valid(67, 66, 64));
}

#[test]
fn registry_is_registered_tracks_keys() {
    let mut reg = ProposerEligibilityRegistry::default();
    let k = [0x9u8; 33];
    assert!(!reg.is_registered(&k));
    reg.register(k, [0x1u8; 20], 5);
    assert!(reg.is_registered(&k));
    reg.unregister(&k, 5);
    assert!(!reg.is_registered(&k));
}

#[test]
fn anti_spam_cap_math() {
    assert_eq!(cap_difficulty_if_enforced(20, false, 8), 20);
    assert_eq!(cap_difficulty_if_enforced(20, true, 8), 8);
    assert_eq!(cap_difficulty_if_enforced(4, true, 8), 4);
}

#[test]
fn registry_freeze_and_expiry() {
    let mut reg = ProposerEligibilityRegistry::default();
    let k1 = [0x11u8; 33];
    let k2 = [0x22u8; 33];
    let (fd, ew) = (16u64, 100u64);
    reg.register(k1, [0x01u8; 20], 10);
    reg.register(k2, [0x02u8; 20], 12);
    assert_eq!(reg.eligible_count_with(10, fd, ew), 0);
    assert!(reg.is_eligible_with(&k1, 26, fd, ew));
    assert!(!reg.is_eligible_with(&k2, 26, fd, ew));
    assert_eq!(reg.eligible_count_with(26, fd, ew), 1);
    assert_eq!(reg.eligible_count_with(28, fd, ew), 2);
    assert!(!reg.is_eligible_with(&k1, 126, fd, ew));
    assert!(reg.is_eligible_with(&k2, 126, fd, ew));
}

#[test]
fn registry_register_unregister_symmetry() {
    let mut reg = ProposerEligibilityRegistry::default();
    let k = [0x33u8; 33];
    let (fd, ew) = (4u64, 100u64);
    reg.register(k, [0x03u8; 20], 20);
    reg.register(k, [0x03u8; 20], 21);
    assert_eq!(reg.len(), 1);
    assert!(reg.is_eligible_with(&k, 24, fd, ew));
    reg.unregister(&k, 20);
    reg.unregister(&k, 21);
    assert_eq!(reg.len(), 0);
    assert!(!reg.is_eligible_with(&k, 24, fd, ew));
}

fn checked(key_byte: u8, anchor: u64) -> RegistrationCheck {
    RegistrationCheck::Valid(CheckedRegistration {
        vrf_pubkey: [key_byte; 33],
        anchor_height: anchor,
        bytes: vec![key_byte, anchor as u8],
    })
}

#[test]
fn pool_refreshes_to_fresher_anchor() {
    let mut pool = NodeProposerRegistrationPool::default();
    assert_eq!(pool.ingest_bytes(checked(7, 0)), GossipOutcome::AcceptedNew);
    assert_eq!(pool.ingest_bytes(checked(7, 5)), GossipOutcome::Duplicate);
    let held = pool.announce_candidates(1, &[]);
    assert_eq!(held, vec![vec![7u8, 5u8]]);
    assert_eq!(
        pool.ingest_bytes(checked(7, 5 + PROPOSER_REG_REFRESH_MIN_ANCHOR_DELTA)),
        GossipOutcome::AcceptedNew
    );
    assert_eq!(pool.ingest_bytes(checked(7, 0)), GossipOutcome::Duplicate);
    assert_eq!(pool.len(), 1);
}

#[test]
fn pool_announces_first_come_first_served() {
    let mut pool = NodeProposerRegistrationPool::default();
    pool.ingest_bytes(checked(9, 1));
    pool.ingest_bytes(checked(2, 1));
    pool.ingest_bytes(checked(5, 1));
    pool.ingest_bytes(checked(9, 100));
    let c = pool.announce_candidates(8, &[[2u8; 33]]);
    assert_eq!(c, vec![vec![9u8, 100u8], vec![5u8, 1u8]]);
    assert_eq!(pool.announce_candidates(1, &[]), vec![vec![9u8, 100u8]]);
    pool.forget(&[[9u8; 33]]);
    assert!(!pool.contains(&[9u8; 33]));
    assert!(pool.contains(&[5u8; 33]));
    assert_eq!(pool.announce_candidates(8, &[]), vec![vec![2u8, 1u8], vec![5u8, 1u8]]);
}

#[test]
fn pool_rejects_failed_checks_with_their_reason() {
    let mut pool = NodeProposerRegistrationPool::default();
    assert_eq!(
        pool.ingest_bytes(RegistrationCheck::Disabled),
        GossipOutcome::Rejected("registration gossip disabled".to_string())
    );
    assert_eq!(
        pool.ingest_bytes(RegistrationCheck::BadLength),
        GossipOutcome::Rejected("registration: bad length".to_string())
    );
    assert_eq!(
        pool.ingest_bytes(RegistrationCheck::AnchorUnavailable),
        GossipOutcome::Rejected("registration: anchor unavailable; cannot verify sybil work".to_string())
    );
    assert_eq!(
        pool.ingest_bytes(RegistrationCheck::Invalid("bad sig".to_string())),
        GossipOutcome::Rejected("bad sig".to_string())
    );
    assert_eq!(pool.len(), 0);
    assert!(pool.submit(None).is_empty());
    let b = pool.submit(Some(CheckedRegistration { vrf_pubkey: [1u8; 33], anchor_height: 3, bytes: vec![1, 2, 3] }));
    assert_eq!(b, vec![1, 2, 3]);
    assert!(pool.contains(&[1u8; 33]));
}

#[test]
fn pool_is_capped() {
    let mut pool = NodeProposerRegistrationPool::default();
    for i in 0..1024u32 {
        let mut key = [0u8; 33];
        key[0..4].copy_from_slice(&i.to_le_bytes());
        let out = pool.ingest_bytes(RegistrationCheck::Valid(CheckedRegistration {
            vrf_pubkey: key,
            anchor_height: 1,
            bytes: vec![],
        }));
        assert_eq!(out, GossipOutcome::AcceptedNew);
    }
    assert_eq!(
        pool.ingest_bytes(checked(0xff, 1)),
        GossipOutcome::Rejected("registration: pool full".to_string())
    );
}

#[test]
fn pow_demotion_reads_its_own_const_env_ignored() {
    assert_eq!(mainnet_pow_demotion_activation_height(), mainnet_combined_activation_height());
    let c = mainnet_combined_activation_height().expect("combined knob set");
    for h in [0u64, 49_999, 50_000, 60_000, c - 1, c, u64::MAX] {
        assert_eq!(
            pow_demotion_gate(0, Some(1), h),
            pow_demotion_gate(0, None, h),
            "demotion ignores env at every mainnet height (h={h})"
        );
    }
    assert!(!pow_demotion_gate(0, None, c - 1));
    assert!(pow_demotion_gate(0, None, c));
}

#[test]
fn pow_demotion_and_nonexclusive_gates_follow_the_mainnet_heights() {
    assert!(!pow_demotion_gate(2, Some(10), 9));
    assert!(pow_demotion_gate(2, Some(10), 10));
    assert!(!pow_demotion_gate(2, None, 1));
    assert_eq!(mainnet_proposer_nonexclusive_activation_height(), Some(59_900));
    assert!(proposer_nonexclusive_gate(0, None, 59_900));
    assert!(proposer_nonexclusive_gate(0, Some(u64::MAX), 59_900));
    assert!(!proposer_nonexclusive_gate(0, None, 59_899));
    assert!(!proposer_nonexclusive_gate(0, Some(1), 59_899));
    assert!(proposer_nonexclusive_gate(2, Some(10), 10));
    assert!(!proposer_nonexclusive_gate(2, None, 10));
}

#[test]
fn registration_checks_run_in_order_and_the_first_failure_decides() {
    let reg = || CheckedRegistration { vrf_pubkey: [3; 33], anchor_height: 4, bytes: vec![1, 2] };
    let bad = || Err::<CheckedRegistration, String>("registration: bad version".to_string());
    assert!(matches!(registration_check(false, false, bad(), false, Err("x".into())), RegistrationCheck::Disabled));
    assert!(matches!(registration_check(true, false, bad(), false, Err("x".into())), RegistrationCheck::BadLength));
    assert!(matches!(
        registration_check(true, true, bad(), false, Err("x".into())),
        RegistrationCheck::Undecodable(e) if e == "registration: bad version"
    ));
    assert!(matches!(registration_check(true, true, Ok(reg()), false, Err("x".into())), RegistrationCheck::AnchorUnavailable));
    assert!(matches!(
        registration_check(true, true, Ok(reg()), true, Err("registration: bad signature".into())),
        RegistrationCheck::Invalid(e) if e == "registration: bad signature"
    ));
    let ok = registration_check(true, true, Ok(reg()), true, Ok(()));
    assert!(matches!(&ok, RegistrationCheck::Valid(r) if r.anchor_height == 4 && r.vrf_pubkey == [3; 33]));
    let mut pool = NodeProposerRegistrationPool::default();
    assert_eq!(pool.ingest_bytes(ok), GossipOutcome::AcceptedNew);
    let refused = registration_check(true, true, Ok(reg()), false, Ok(()));
    assert_eq!(
        pool.ingest_bytes(refused),
        GossipOutcome::Rejected("registration: anchor unavailable; cannot verify sybil work".to_string())
    );
    assert_eq!(pool.len(), 1);
}
