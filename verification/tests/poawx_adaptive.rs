use irium_poawx::poawx_adaptive::{
    adaptive_commitment_required_pure, adaptive_mode_gate, assess, AdaptiveMode,
    NetworkSignals, PoawxAdaptiveChainSignals, PoawxAdaptiveCommitmentV1, PoawxAdaptiveState,
    PoawxAdaptiveValidationError, ADAPTIVE_COMMITMENT_WIRE, CAUTION_MIN_ROLE_PARTICIPATION,
    CAUTION_MIN_TICKETS, DEFENSE_CONCENTRATION_PERMILLE, DEFENSE_EVIDENCE_COUNT,
    DEFENSE_INVALID_WORK, DEFENSE_REORG_SIGNAL, RECOVERY_WINDOW,
};

fn healthy() -> NetworkSignals {
    NetworkSignals {
        active_miner_count: 10,
        valid_role_count: 3,
        recent_invalid_work: 0,
        recent_reorg_signal: 0,
        reward_concentration_permille: 300,
        finality_available: true,
    }
}

#[test]
fn healthy_is_normal() {
    let p = assess(&healthy(), AdaptiveMode::Normal);
    assert_eq!(p.mode, AdaptiveMode::Normal);
    assert_eq!(p.confirmation_multiplier, 1);
    assert!(!p.stricter_verification && !p.require_ticket_threshold && !p.role_fallback);
}

#[test]
fn low_miner_count_is_caution_not_halt() {
    let mut s = healthy();
    s.active_miner_count = 1;
    s.valid_role_count = 1;
    let p = assess(&s, AdaptiveMode::Normal);
    assert_eq!(p.mode, AdaptiveMode::Caution);
    assert!(s.can_produce_block(), "one miner still produces blocks (not halt)");
}

#[test]
fn reorg_or_invalid_or_concentration_is_defense() {
    let mut s = healthy();
    s.recent_reorg_signal = DEFENSE_REORG_SIGNAL;
    assert_eq!(assess(&s, AdaptiveMode::Normal).mode, AdaptiveMode::Defense);
    let mut s2 = healthy();
    s2.recent_invalid_work = DEFENSE_INVALID_WORK;
    assert_eq!(assess(&s2, AdaptiveMode::Normal).mode, AdaptiveMode::Defense);
    let mut s3 = healthy();
    s3.reward_concentration_permille = DEFENSE_CONCENTRATION_PERMILLE;
    let p3 = assess(&s3, AdaptiveMode::Normal);
    assert_eq!(p3.mode, AdaptiveMode::Defense);
    assert_eq!(p3.confirmation_multiplier, 4);
    assert!(p3.stricter_verification && p3.require_ticket_threshold && p3.require_finality);
}

#[test]
fn defense_to_recovery_then_normal() {
    let p = assess(&healthy(), AdaptiveMode::Defense);
    assert_eq!(p.mode, AdaptiveMode::Recovery);
    let p2 = assess(&healthy(), AdaptiveMode::Recovery);
    assert_eq!(p2.mode, AdaptiveMode::Normal);
    let mut s = healthy();
    s.recent_invalid_work = 1;
    let p3 = assess(&s, AdaptiveMode::Recovery);
    assert_eq!(p3.mode, AdaptiveMode::Recovery);
}

#[test]
fn zero_miners_cannot_produce() {
    let mut s = healthy();
    s.active_miner_count = 0;
    assert!(!s.can_produce_block(), "zero miners -> no block production possible");
    let _ = assess(&s, AdaptiveMode::Normal);
}

#[test]
fn gate_logic_pure() {
    assert!(!adaptive_mode_gate(0, Some(1), 100), "mainnet hard-off");
    assert!(adaptive_mode_gate(1, Some(1), 100));
    assert!(!adaptive_mode_gate(1, None, 100));
    assert!(!adaptive_mode_gate(1, Some(50), 10));
}

fn healthy_chain_signals() -> PoawxAdaptiveChainSignals {
    PoawxAdaptiveChainSignals {
        dominance_concentration_permille: 300,
        active_role_participation: 5,
        registered_ticket_count: 5,
        double_sign_evidence_count: 0,
        finality_available: true,
    }
}

#[test]
fn phase34_normal_mode_stays_normal() {
    let st = PoawxAdaptiveState::genesis();
    let next = st.next(&healthy_chain_signals());
    assert_eq!(next.mode, AdaptiveMode::Normal);
    assert_eq!(next.recovery_window_remaining, 0);
    let next2 = next.next(&healthy_chain_signals());
    assert_eq!(next2.mode, AdaptiveMode::Normal);
}

#[test]
fn phase34_low_ticket_count_enters_caution() {
    let mut sig = healthy_chain_signals();
    sig.registered_ticket_count = CAUTION_MIN_TICKETS - 1;
    let next = PoawxAdaptiveState::genesis().next(&sig);
    assert_eq!(next.mode, AdaptiveMode::Caution);
    let mut sig2 = healthy_chain_signals();
    sig2.active_role_participation = CAUTION_MIN_ROLE_PARTICIPATION - 1;
    assert_eq!(PoawxAdaptiveState::genesis().next(&sig2).mode, AdaptiveMode::Caution);
}

#[test]
fn phase34_double_sign_penalty_enters_defense() {
    let mut sig = healthy_chain_signals();
    sig.double_sign_evidence_count = DEFENSE_EVIDENCE_COUNT;
    let next = PoawxAdaptiveState::genesis().next(&sig);
    assert_eq!(next.mode, AdaptiveMode::Defense);
    assert_eq!(next.recovery_window_remaining, RECOVERY_WINDOW);
}

#[test]
fn phase34_dominance_concentration_enters_defense() {
    let mut sig = healthy_chain_signals();
    sig.dominance_concentration_permille = DEFENSE_CONCENTRATION_PERMILLE;
    assert_eq!(PoawxAdaptiveState::genesis().next(&sig).mode, AdaptiveMode::Defense);
}

#[test]
fn phase34_recovery_exits_after_clean_window() {
    let mut sig = healthy_chain_signals();
    sig.double_sign_evidence_count = DEFENSE_EVIDENCE_COUNT;
    let mut st = PoawxAdaptiveState::genesis().next(&sig);
    assert_eq!(st.mode, AdaptiveMode::Defense);
    st = st.next(&healthy_chain_signals());
    assert_eq!(st.mode, AdaptiveMode::Recovery);
    assert_eq!(st.recovery_window_remaining, RECOVERY_WINDOW);
    let mut seen_recovery = 0;
    for _ in 0..(RECOVERY_WINDOW - 1) {
        st = st.next(&healthy_chain_signals());
        assert_eq!(st.mode, AdaptiveMode::Recovery);
        seen_recovery += 1;
    }
    assert_eq!(seen_recovery, RECOVERY_WINDOW - 1);
    st = st.next(&healthy_chain_signals());
    assert_eq!(st.mode, AdaptiveMode::Normal);
}

#[test]
fn phase34_recovery_relapses_to_defense_on_instability() {
    let mut sig = healthy_chain_signals();
    sig.double_sign_evidence_count = DEFENSE_EVIDENCE_COUNT;
    let st = PoawxAdaptiveState::genesis().next(&sig);
    let st = st.next(&healthy_chain_signals());
    assert_eq!(st.mode, AdaptiveMode::Recovery);
    let relapse = st.next(&sig);
    assert_eq!(relapse.mode, AdaptiveMode::Defense);
}

#[test]
fn phase34_invalid_adaptive_commitment_rejected() {
    let net = 1u8;
    let pre = PoawxAdaptiveState::genesis();
    let sig = healthy_chain_signals();
    let post = pre.next(&sig);
    let good = PoawxAdaptiveCommitmentV1::new(net, 7, &pre, &post, &sig);
    assert!(good.validate(net, 7, &pre, &post, &sig).is_ok());

    let mut bad = good;
    bad.pre_mode = AdaptiveMode::Defense.to_byte();
    assert_eq!(
        bad.validate(net, 7, &pre, &post, &sig),
        Err(PoawxAdaptiveValidationError::PreModeMismatch)
    );
    let mut bad = good;
    bad.post_mode = AdaptiveMode::Defense.to_byte();
    assert_eq!(
        bad.validate(net, 7, &pre, &post, &sig),
        Err(PoawxAdaptiveValidationError::PostModeMismatch)
    );
    let mut bad = good;
    bad.post_state_digest = [0x99u8; 32];
    assert_eq!(
        bad.validate(net, 7, &pre, &post, &sig),
        Err(PoawxAdaptiveValidationError::PostStateMismatch)
    );
    let mut bad = good;
    bad.metrics_digest = [0x42u8; 32];
    assert_eq!(
        bad.validate(net, 7, &pre, &post, &sig),
        Err(PoawxAdaptiveValidationError::MetricsMismatch)
    );
    assert_eq!(
        good.validate(net, 8, &pre, &post, &sig),
        Err(PoawxAdaptiveValidationError::WrongHeight)
    );
    assert_eq!(
        good.validate(2, 7, &pre, &post, &sig),
        Err(PoawxAdaptiveValidationError::WrongNetwork)
    );
    let bogus_post = PoawxAdaptiveState { mode: AdaptiveMode::Defense, recovery_window_remaining: 0 };
    let bogus = PoawxAdaptiveCommitmentV1::new(net, 7, &pre, &bogus_post, &sig);
    assert!(bogus.validate(net, 7, &pre, &post, &sig).is_err());
}

#[test]
fn phase34_mainnet_no_op() {
    assert!(!adaptive_mode_gate(0, Some(1), 100));
    assert!(!adaptive_commitment_required_pure(0, true));
    let pre = PoawxAdaptiveState::genesis();
    let sig = healthy_chain_signals();
    let post = pre.next(&sig);
    let c = PoawxAdaptiveCommitmentV1::new(0, 7, &pre, &post, &sig);
    assert_eq!(
        c.validate(0, 7, &pre, &post, &sig),
        Err(PoawxAdaptiveValidationError::MainnetHardOff)
    );
}

#[test]
fn phase34_local_signals_not_consensus() {
    let mut local = NetworkSignals {
        active_miner_count: 10,
        valid_role_count: 5,
        recent_invalid_work: 0,
        recent_reorg_signal: DEFENSE_REORG_SIGNAL,
        reward_concentration_permille: 300,
        finality_available: true,
    };
    assert_eq!(assess(&local, AdaptiveMode::Normal).mode, AdaptiveMode::Defense);
    local.recent_invalid_work = DEFENSE_INVALID_WORK;
    assert_eq!(assess(&local, AdaptiveMode::Normal).mode, AdaptiveMode::Defense);
    let sig = healthy_chain_signals();
    assert_eq!(PoawxAdaptiveState::genesis().next(&sig).mode, AdaptiveMode::Normal);
    assert_eq!(PoawxAdaptiveState::genesis().next(&sig), PoawxAdaptiveState::genesis().next(&sig));
}

#[test]
fn phase34_commitment_wire_roundtrips_and_state_digest_stable() {
    let net = 1u8;
    let pre = PoawxAdaptiveState::genesis();
    let sig = healthy_chain_signals();
    let post = pre.next(&sig);
    let c = PoawxAdaptiveCommitmentV1::new(net, 12345, &pre, &post, &sig);
    let bytes = c.serialize();
    assert_eq!(bytes.len(), ADAPTIVE_COMMITMENT_WIRE);
    assert_eq!(PoawxAdaptiveCommitmentV1::deserialize(&bytes).unwrap(), c);
    assert!(PoawxAdaptiveCommitmentV1::deserialize(&bytes[..bytes.len() - 1]).is_err());
    assert_eq!(post.digest(), pre.next(&sig).digest());
    let other = PoawxAdaptiveState { mode: AdaptiveMode::Defense, recovery_window_remaining: RECOVERY_WINDOW };
    assert_ne!(post.digest(), other.digest());
}

#[test]
fn phase34_bad_mode_byte_rejected() {
    assert_eq!(AdaptiveMode::from_byte(9), Err(PoawxAdaptiveValidationError::BadMode));
    for m in [AdaptiveMode::Normal, AdaptiveMode::Caution, AdaptiveMode::Defense, AdaptiveMode::Recovery] {
        assert_eq!(AdaptiveMode::from_byte(m.to_byte()).unwrap(), m);
    }
}
