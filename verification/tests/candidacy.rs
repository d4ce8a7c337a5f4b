use irium_poawx::candidacy::{
    eligible_for_role, BidRule, InclusionError, RegisteredCandidate,
};
use irium_poawx::poawx_admission::{
    canonical_eligible_set, decode_rcr1_script, encode_rcr1_script, enforce_mandatory_inclusion,
    MandatorySet, RoleCandidacyRegistration, RCR1_MAGIC,
};

fn cand(role: u8, pkh: u8, wire: &[u8]) -> RegisteredCandidate {
    RegisteredCandidate { role_id: role, solver_pkh: [pkh; 20], wire: wire.to_vec() }
}

fn reg(recorded: u64, target: u64, seed: u8, c: RegisteredCandidate, burn: u64, tip: u64) -> RoleCandidacyRegistration {
    RoleCandidacyRegistration {
        recorded_height: recorded,
        target_height: target,
        seed: [seed; 32],
        candidate: c,
        fee_burn: burn,
        fee_tip: tip,
    }
}

#[test]
fn rcr1_script_layout_and_roundtrip() {
    let c = vec![0xaa, 0xbb, 0xcc];
    let s = encode_rcr1_script(1234, &[7u8; 32], &c);
    assert_eq!(s[0], 0x6a, "OP_RETURN");
    assert_eq!(s[1] as usize, 49 + 3, "a short payload is pushed directly");
    assert_eq!(&s[2..8], &RCR1_MAGIC);
    assert_eq!(s[8], 1, "version");
    assert_eq!(u64::from_le_bytes(s[9..17].try_into().unwrap()), 1234);
    assert_eq!(&s[17..49], &[7u8; 32]);
    assert_eq!(u16::from_le_bytes([s[49], s[50]]), 3);
    assert_eq!(&s[51..], &c[..]);
    assert_eq!(decode_rcr1_script(&s), Some((1234, [7u8; 32], c)));

    let big = vec![0x5a; 100];
    let s = encode_rcr1_script(9, &[1u8; 32], &big);
    assert_eq!(s[1], 0x4c, "a long payload uses OP_PUSHDATA1");
    assert_eq!(s[2] as usize, 149);
    assert_eq!(decode_rcr1_script(&s), Some((9, [1u8; 32], big)));
}

#[test]
fn rcr1_decode_refuses_malformed_scripts() {
    let good = encode_rcr1_script(5, &[2u8; 32], &[1, 2]);
    assert_eq!(decode_rcr1_script(&[]), None);
    let mut s = good.clone();
    s[0] = 0x6b;
    assert_eq!(decode_rcr1_script(&s), None, "not OP_RETURN");
    assert_eq!(decode_rcr1_script(&good[..good.len() - 1]), None, "truncated push");
    let mut s = good.clone();
    s[2] = b'X';
    assert_eq!(decode_rcr1_script(&s), None, "wrong magic");
    let mut s = good.clone();
    s[49] = 3;
    assert_eq!(decode_rcr1_script(&s), None, "candidate longer than the payload");
    let mut s = good.clone();
    s[8] = 9;
    assert_eq!(decode_rcr1_script(&s), None, "only version 1 is a registration");
    assert_eq!(decode_rcr1_script(&[0x6a, 0x4c]), None);
}

#[test]
fn canonical_set_keeps_each_solvers_best_bid_ranked_by_fee() {
    let seed = [9u8; 32];
    let h = 100;
    // settle window for L=64, D=3: recorded in [36, 97]
    let records = vec![
        reg(50, h, 9, cand(1, 0x10, b"a"), 10, 0),
        reg(51, h, 9, cand(1, 0x10, b"b"), 10, 5), // same solver, higher bid: replaces
        reg(52, h, 9, cand(1, 0x10, b"c"), 15, 0), // same solver, equal bid: smaller candidate bytes kept
        reg(60, h, 9, cand(1, 0x20, b"d"), 30, 0),
        reg(61, h, 9, cand(1, 0x05, b"e"), 15, 0), // ties 0x10 at 15; smaller key first
        reg(98, h, 9, cand(1, 0x30, b"f"), 99, 0), // too recent
        reg(35, h, 9, cand(1, 0x31, b"g"), 99, 0), // too old
        reg(60, h + 1, 9, cand(1, 0x32, b"h"), 99, 0), // other target
        reg(60, h, 8, cand(1, 0x33, b"i"), 99, 0), // other seed
        reg(60, h, 9, cand(1, 0x34, b"j"), 4, 90), // below the burn floor
        reg(60, h, 9, cand(2, 0x40, b"k"), 7, 0),
        reg(60, h, 9, cand(3, 0x50, b"l"), 8, u64::MAX), // saturating bid
    ];
    let m = canonical_eligible_set(&records, h, &seed, 64, 3, 16, 5, [1, 2, 3]);
    let view = |v: &Vec<RegisteredCandidate>| -> Vec<(u8, u8, Vec<u8>)> {
        v.iter().map(|c| (c.role_id, c.solver_pkh[0], c.wire.clone())).collect()
    };
    assert_eq!(
        view(&m.compute),
        vec![(1, 0x20, b"d".to_vec()), (1, 0x05, b"e".to_vec()), (1, 0x10, b"b".to_vec())]
    );
    assert_eq!(view(&m.verify), vec![(2, 0x40, b"k".to_vec())]);
    assert_eq!(view(&m.support), vec![(3, 0x50, b"l".to_vec())]);

    let capped = canonical_eligible_set(&records, h, &seed, 64, 3, 2, 5, [1, 2, 3]);
    assert_eq!(view(&capped.compute), vec![(1, 0x20, b"d".to_vec()), (1, 0x05, b"e".to_vec())]);

    let rule = BidRule { height: h, seed, lo: 0, hi: 0, fee_burn_min: 0, role: 1 };
    assert!(eligible_for_role(&records, &rule, 16).is_empty());
    let empty = canonical_eligible_set(&Vec::new(), h, &seed, 64, 3, 16, 5, [1, 2, 3]);
    assert!(empty.compute.is_empty() && empty.verify.is_empty() && empty.support.is_empty());
}

#[test]
fn mandatory_inclusion_requires_every_eligible_candidate() {
    let req = MandatorySet {
        compute: vec![cand(1, 0x10, b""), cand(1, 0x11, b"")],
        verify: vec![cand(2, 0x20, b"")],
        support: vec![],
    };
    let full = vec![cand(2, 0x20, b"x"), cand(1, 0x11, b"y"), cand(1, 0x10, b"z"), cand(3, 0x99, b"")];
    assert_eq!(enforce_mandatory_inclusion(&full, &req, [1, 2, 3]), Ok(()));
    let missing = vec![cand(2, 0x20, b""), cand(1, 0x10, b"")];
    assert_eq!(
        enforce_mandatory_inclusion(&missing, &req, [1, 2, 3]),
        Err(InclusionError { role: 1, solver_pkh: [0x11; 20] })
    );
    let wrong_role = vec![cand(1, 0x10, b""), cand(1, 0x11, b""), cand(3, 0x20, b"")];
    assert_eq!(
        enforce_mandatory_inclusion(&wrong_role, &req, [1, 2, 3]),
        Err(InclusionError { role: 2, solver_pkh: [0x20; 20] })
    );
    assert_eq!(enforce_mandatory_inclusion(&Vec::new(), &MandatorySet::default(), [1, 2, 3]), Ok(()));
}

#[test]
fn canonical_set_solvers_do_not_depend_on_record_order() {
    let seed = [3u8; 32];
    let mut records = vec![
        reg(40, 70, 3, cand(1, 0x01, b"a"), 10, 2),
        reg(41, 70, 3, cand(1, 0x02, b"b"), 12, 0),
        reg(42, 70, 3, cand(1, 0x03, b"c"), 9, 9),
        reg(43, 70, 3, cand(1, 0x01, b"d"), 20, 0),
        reg(44, 70, 3, cand(1, 0x04, b"e"), 12, 0),
    ];
    let solvers = |m: &MandatorySet| -> Vec<u8> { m.compute.iter().map(|c| c.solver_pkh[0]).collect() };
    let forward = canonical_eligible_set(&records, 70, &seed, 64, 3, 16, 1, [1, 2, 3]);
    records.reverse();
    let backward = canonical_eligible_set(&records, 70, &seed, 64, 3, 16, 1, [1, 2, 3]);
    assert_eq!(solvers(&forward), vec![0x01, 0x03, 0x02, 0x04]);
    assert_eq!(solvers(&forward), solvers(&backward));
}

#[test]
fn canonical_set_breaks_equal_bids_on_candidate_bytes() {
    let seed = [4u8; 32];
    let mut records = vec![
        reg(40, 70, 4, cand(1, 0x01, b"zz"), 10, 0),
        reg(41, 70, 4, cand(1, 0x01, b"ab"), 7, 3),
        reg(42, 70, 4, cand(1, 0x01, b"m"), 10, 0),
        reg(43, 70, 4, cand(1, 0x02, b"q"), 10, 0),
    ];
    let view = |m: &MandatorySet| -> Vec<(u8, Vec<u8>)> {
        m.compute.iter().map(|c| (c.solver_pkh[0], c.wire.clone())).collect()
    };
    let forward = canonical_eligible_set(&records, 70, &seed, 64, 3, 16, 1, [1, 2, 3]);
    assert_eq!(view(&forward), vec![(0x01, b"ab".to_vec()), (0x02, b"q".to_vec())]);
    records.reverse();
    let backward = canonical_eligible_set(&records, 70, &seed, 64, 3, 16, 1, [1, 2, 3]);
    assert_eq!(view(&forward), view(&backward));
    records.swap(0, 2);
    let shuffled = canonical_eligible_set(&records, 70, &seed, 64, 3, 16, 1, [1, 2, 3]);
    assert_eq!(view(&forward), view(&shuffled));
}
