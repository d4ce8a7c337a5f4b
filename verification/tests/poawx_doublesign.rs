use irium_poawx::poawx_doublesign::{
    detect_double_sign, evidence_check, evidence_id, DoubleSignPenaltyState, NodeDoubleSignEvidenceCache,
    PenaltyEvidence, VoteFacts, DEFAULT_SUSPEND_EPOCHS, EVIDENCE_CACHE_CAP,
};
use irium_poawx::poawx_proposer::GossipOutcome;

const NET: u8 = 1;

/// The fields of a Commit vote by the member whose key byte is `seed`.
fn vote(seed: u8, net: u8, height: u64, epoch: u64, block_hash: [u8; 32]) -> VoteFacts {
    let mut digest = [0u8; 32];
    digest[0] = net;
    digest[1..9].copy_from_slice(&height.to_le_bytes());
    digest[9..17].copy_from_slice(&epoch.to_le_bytes());
    digest[17] = block_hash[0];
    digest[18] = seed;
    VoteFacts {
        network_id: net,
        target_height: height,
        committee_epoch: epoch,
        vote_type: 0,
        member_pkh: [seed; 20],
        member_pubkey: vec![seed; 33],
        block_hash,
        digest,
    }
}

fn check(expected: u8, net: u8, a: &VoteFacts, b: &VoteFacts, committee: &[[u8; 20]]) -> Result<(), String> {
    evidence_check(expected, net, a, b, Ok(()), Ok(()), committee)
}

fn evidence(net: u8, a: &VoteFacts, b: &VoteFacts, height: u64) -> PenaltyEvidence {
    PenaltyEvidence {
        id: evidence_id(net, &a.digest, &b.digest),
        member_pkh: a.member_pkh,
        committee_epoch: a.committee_epoch,
        height,
    }
}

#[test]
fn phase29_accepts_valid_double_sign_evidence() {
    let va = vote(0x21, NET, 10, 0, [0xAA; 32]);
    let vb = vote(0x21, NET, 10, 0, [0xBB; 32]);
    let committee = vec![va.member_pkh];
    assert!(check(NET, NET, &va, &vb, &committee).is_ok(), "valid equivocation");
    let mut st = DoubleSignPenaltyState::new();
    let ev = evidence(NET, &va, &vb, 10);
    assert_eq!(st.apply_evidence(check(NET, NET, &va, &vb, &committee), &ev, DEFAULT_SUSPEND_EPOCHS), Ok(true));
    assert_eq!(st.penalized_count(), 1, "one identity penalized");
    assert!(st.is_suspended(&va.member_pkh, 0));
    assert_eq!(st.apply_evidence(check(NET, NET, &va, &vb, &committee), &ev, DEFAULT_SUSPEND_EPOCHS), Ok(false));
    assert_eq!(st.evidence_count(), 1);
}

#[test]
fn phase29_duplicate_vote_is_not_double_sign() {
    let v = vote(0x22, NET, 10, 0, [0xAA; 32]);
    let committee = vec![v.member_pkh];
    let r = check(NET, NET, &v, &v, &committee);
    assert_eq!(r, Err("double-sign: same block hash (duplicate, not evidence)".to_string()));
    let mut st = DoubleSignPenaltyState::new();
    assert!(st.apply_evidence(r, &evidence(NET, &v, &v, 10), 1).is_err());
    assert_eq!(st.penalized_count(), 0);
}

#[test]
fn phase29_rejects_invalid_double_sign_signature() {
    let va = vote(0x23, NET, 10, 0, [0xAA; 32]);
    let vb = vote(0x23, NET, 10, 0, [0xBB; 32]);
    let committee = vec![va.member_pkh];
    let r = evidence_check(NET, NET, &va, &vb, Ok(()), Err("finality vote: bad signature".to_string()), &committee);
    assert_eq!(r, Err("finality vote: bad signature".to_string()));
}

#[test]
fn phase29_rejects_wrong_network_evidence() {
    let va = vote(0x24, NET, 10, 0, [0xAA; 32]);
    let vb = vote(0x24, NET, 10, 0, [0xBB; 32]);
    let committee = vec![va.member_pkh];
    assert_eq!(check(2, NET, &va, &vb, &committee), Err("double-sign: wrong network".to_string()));
    assert_eq!(check(0, NET, &va, &vb, &committee), Err("double-sign: mainnet hard-off".to_string()));
    let vc = vote(0x24, 2, 10, 0, [0xCC; 32]);
    assert_eq!(check(NET, NET, &va, &vc, &committee), Err("double-sign: vote wrong network".to_string()));
}

#[test]
fn phase29_rejects_non_committee_double_sign() {
    let va = vote(0x25, NET, 10, 0, [0xAA; 32]);
    let vb = vote(0x25, NET, 10, 0, [0xBB; 32]);
    let refused = Err("double-sign: non-committee voter".to_string());
    assert_eq!(check(NET, NET, &va, &vb, &[]), refused);
    assert_eq!(check(NET, NET, &va, &vb, &[[0x00; 20]]), refused);
}

#[test]
fn phase29_different_heights_not_double_sign() {
    let va = vote(0x26, NET, 10, 0, [0xAA; 32]);
    let vb = vote(0x26, NET, 11, 0, [0xBB; 32]);
    let committee = vec![va.member_pkh];
    assert_eq!(
        check(NET, NET, &va, &vb, &committee),
        Err("double-sign: different heights (not equivocation)".to_string())
    );
    let vc = vote(0x26, NET, 10, 1, [0xBB; 32]);
    assert_eq!(check(NET, NET, &va, &vc, &committee), Err("double-sign: different epoch".to_string()));
    let mut vd = vote(0x26, NET, 10, 0, [0xBB; 32]);
    vd.vote_type = 1;
    assert_eq!(check(NET, NET, &va, &vd, &committee), Err("double-sign: different vote type".to_string()));
    let ve = vote(0x27, NET, 10, 0, [0xBB; 32]);
    assert_eq!(check(NET, NET, &va, &ve, &committee), Err("double-sign: different identity".to_string()));
    let mut vf = vote(0x26, NET, 10, 0, [0xBB; 32]);
    vf.digest = va.digest;
    assert_eq!(check(NET, NET, &va, &vf, &committee), Err("double-sign: identical vote".to_string()));
}

#[test]
fn phase29_double_sign_evidence_canonical_order() {
    let va = vote(0x27, NET, 10, 0, [0xAA; 32]);
    let vb = vote(0x27, NET, 10, 0, [0xBB; 32]);
    assert_eq!(evidence_id(NET, &va.digest, &vb.digest), evidence_id(NET, &vb.digest, &va.digest), "order-independent id");
    assert_ne!(evidence_id(NET, &va.digest, &vb.digest), evidence_id(2, &va.digest, &vb.digest));
}

#[test]
fn phase29_penalized_finality_member_ineligible() {
    let va = vote(0x28, NET, 10, 5, [0xAA; 32]);
    let vb = vote(0x28, NET, 10, 5, [0xBB; 32]);
    let committee = vec![va.member_pkh];
    let mut st = DoubleSignPenaltyState::new();
    st.apply_evidence(check(NET, NET, &va, &vb, &committee), &evidence(NET, &va, &vb, 10), 1).unwrap();
    assert!(!st.is_eligible_for_finality(&va.member_pkh, 5), "penalized member ineligible during window");
    assert!(st.is_eligible_for_finality(&va.member_pkh, 6), "eligible after suspension window expires");
    assert!(st.is_eligible_for_finality(&[0x77; 20], 5));
}

#[test]
fn phase29_penalty_state_replays_deterministically() {
    let a1 = vote(0x31, NET, 20, 2, [0x01; 32]);
    let a2 = vote(0x31, NET, 20, 2, [0x02; 32]);
    let b1 = vote(0x32, NET, 21, 2, [0x03; 32]);
    let b2 = vote(0x32, NET, 21, 2, [0x04; 32]);
    let committee = vec![a1.member_pkh, b1.member_pkh];
    let ea = evidence(NET, &a1, &a2, 20);
    let eb = evidence(NET, &b1, &b2, 21);
    let ok_a = || check(NET, NET, &a1, &a2, &committee);
    let ok_b = || check(NET, NET, &b1, &b2, &committee);

    let mut s1 = DoubleSignPenaltyState::new();
    s1.apply_evidence(ok_a(), &ea, 1).unwrap();
    s1.apply_evidence(ok_b(), &eb, 1).unwrap();
    let mut s2 = DoubleSignPenaltyState::new();
    s2.apply_evidence(ok_b(), &eb, 1).unwrap();
    s2.apply_evidence(ok_a(), &ea, 1).unwrap();
    s2.apply_evidence(ok_a(), &ea, 1).unwrap();
    for pkh in [a1.member_pkh, b1.member_pkh, [0x99; 20]] {
        for epoch in 0..5 {
            assert_eq!(s1.is_suspended(&pkh, epoch), s2.is_suspended(&pkh, epoch));
        }
    }
    assert!(s1.is_suspended(&a1.member_pkh, 2) && !s1.is_suspended(&a1.member_pkh, 3));
    assert_eq!(s1.penalized_count(), 2);
    assert_eq!(s2.penalized_count(), 2);
    assert_eq!(s1.evidence_count(), 2);
    assert_eq!(s2.evidence_count(), 2);
}

#[test]
fn phase29_mainnet_applies_no_penalty() {
    let va = vote(0x29, 0, 10, 0, [0xAA; 32]);
    let vb = vote(0x29, 0, 10, 0, [0xBB; 32]);
    let committee = vec![va.member_pkh];
    let mut st = DoubleSignPenaltyState::new();
    let r = check(0, 0, &va, &vb, &committee);
    assert!(st.apply_evidence(r, &evidence(0, &va, &vb, 10), 1).is_err(), "mainnet hard-off: no penalty");
    assert_eq!(st.penalized_count(), 0);
}

#[test]
fn phase29_local_evidence_cache_bounded_and_dedup() {
    let mut cache = NodeDoubleSignEvidenceCache::new();
    let va = vote(0x2C, NET, 10, 0, [0xAA; 32]);
    let vb = vote(0x2C, NET, 10, 0, [0xBB; 32]);
    let id = evidence_id(NET, &va.digest, &vb.digest);
    assert!(matches!(cache.ingest(0, Ok(()), id, vec![1]), GossipOutcome::Rejected(_)));
    assert_eq!(cache.ingest(NET, Ok(()), id, vec![1, 2]), GossipOutcome::AcceptedNew);
    assert_eq!(cache.ingest(NET, Ok(()), id, vec![1, 2]), GossipOutcome::Duplicate);
    assert_eq!(cache.len(), 1);
    assert_eq!(
        cache.ingest(NET, Err("double-sign evidence: bad length".to_string()), [0; 32], vec![]),
        GossipOutcome::Rejected("double-sign evidence: bad length".to_string())
    );
    cache.clear();
    assert!(cache.is_empty());
}

#[test]
fn evidence_cache_keeps_id_order_and_evicts_the_smallest_id() {
    let mut cache = NodeDoubleSignEvidenceCache::new();
    let id = |n: u32| {
        let mut a = [0u8; 32];
        a[..4].copy_from_slice(&n.to_be_bytes());
        a
    };
    for n in (1..=EVIDENCE_CACHE_CAP as u32).rev() {
        assert_eq!(cache.ingest(NET, Ok(()), id(n), n.to_be_bytes().to_vec()), GossipOutcome::AcceptedNew);
    }
    assert_eq!(cache.len(), EVIDENCE_CACHE_CAP);
    let all = cache.all();
    assert_eq!(all[0], 1u32.to_be_bytes().to_vec());
    assert_eq!(all[EVIDENCE_CACHE_CAP - 1], (EVIDENCE_CACHE_CAP as u32).to_be_bytes().to_vec());
    assert_eq!(cache.ingest(NET, Ok(()), id(0), vec![0xEE]), GossipOutcome::AcceptedNew);
    assert_eq!(cache.len(), EVIDENCE_CACHE_CAP);
    let all = cache.all();
    assert_eq!(all[0], vec![0xEE], "the new smallest id leads");
    assert_eq!(all[1], 2u32.to_be_bytes().to_vec(), "id 1 was evicted");
    assert_eq!(cache.ingest(NET, Ok(()), id(1), vec![1]), GossipOutcome::AcceptedNew);
}

#[test]
fn phase29_detect_double_sign_from_votes() {
    let va = vote(0x2A, NET, 10, 0, [0xAA; 32]);
    let vb = vote(0x2A, NET, 10, 0, [0xBB; 32]);
    let vc = vote(0x2B, NET, 10, 0, [0xCC; 32]);
    let votes = vec![va, vc, vb];
    let found = detect_double_sign(&votes);
    assert_eq!(found, vec![(0, 2)], "exactly one equivocation pair");
    assert_eq!(votes[found[0].0].member_pkh, [0x2A; 20]);
}

#[test]
fn detection_keeps_one_pair_per_evidence_id() {
    let a = vote(0x40, NET, 10, 0, [0x01; 32]);
    let b = vote(0x40, NET, 10, 0, [0x02; 32]);
    let c = vote(0x40, NET, 10, 0, [0x03; 32]);
    let b_again = vote(0x40, NET, 10, 0, [0x02; 32]);
    let votes = vec![a, b, c, b_again];
    // (0,3) repeats (0,1) and (2,3) repeats (1,2); (1,3) commits to one block.
    assert_eq!(detect_double_sign(&votes), vec![(0, 1), (0, 2), (1, 2)]);
    assert_eq!(detect_double_sign(&Vec::new()), Vec::<(usize, usize)>::new());
}
