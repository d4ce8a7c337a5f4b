//! The double-sign (finality equivocation) penalty: its activation gate (off
//! on mainnet whatever the environment says), the evidence id, the order of
//! the evidence checks, and the replayable penalty state. The finality vote
//! itself (its signature, digest and wire form) belongs to a module this
//! crate does not hold; the checks here take what those give.
use vstd::prelude::*;
use crate::activation::{NodeEnv, reached, is_reached};
use crate::byte_order::{bytes_lt, bytes_less, lemma_bytes_lt_irreflexive, lemma_bytes_lt_total,
    lemma_bytes_lt_transitive};
use crate::digest::{sha256, sha256_of};
use crate::wire::{bytes_equal, push_all};
use crate::proposer_pool::GossipOutcome;

verus! {

pub const DOUBLE_SIGN_EVIDENCE_VERSION: u8 = 1;
/// Default suspension window (committee epochs) for a confirmed double-sign.
pub const DEFAULT_SUSPEND_EPOCHS: u64 = 1;

/// Penalty activation: never on network 0 (mainnet); elsewhere from the activation
/// height on.
pub fn double_sign_penalty_gate(network_id: u8, activation: Option<u64>, height: u64) -> (b: bool)
    ensures
        b == (network_id != 0 && reached(activation, height)),
{
    if network_id == 0 {
        return false;
    }
    is_reached(activation, height)
}

pub fn double_sign_penalty_active(env: &NodeEnv, height: u64) -> (b: bool)
    ensures
        b == (env.network_id != 0 && reached(env.double_sign_penalty_activation_height, height)),
{
    double_sign_penalty_gate(env.network_id, env.double_sign_penalty_activation_height, height)
}


// ── Evidence id ─────────────────────────────────────────────────────────────

/// Domain tag of the evidence id: ASCII `IRIUM_POAWX_DOUBLE_SIGN_EVIDENCE_V1`.
pub const EVIDENCE_DOMAIN: [u8; 35] = [0x49, 0x52, 0x49, 0x55, 0x4d, 0x5f, 0x50, 0x4f, 0x41, 0x57, 0x58, 0x5f, 0x44, 0x4f, 0x55, 0x42, 0x4c, 0x45, 0x5f, 0x53, 0x49, 0x47, 0x4e, 0x5f, 0x45, 0x56, 0x49, 0x44, 0x45, 0x4e, 0x43, 0x45, 0x5f, 0x56, 0x31];

/// What the evidence id hashes: the domain, the version, the network, then
/// the two vote digests, the lower (as bytes compare) first.
pub open spec fn evidence_preimage(network_id: u8, da: Seq<u8>, db: Seq<u8>) -> Seq<u8> {
    let (lo, hi) = if !bytes_lt(db, da) {
        (da, db)
    } else {
        (db, da)
    };
    EVIDENCE_DOMAIN@ + seq![DOUBLE_SIGN_EVIDENCE_VERSION, network_id] + lo + hi
}

/// The id of the evidence made of two votes with digests `da` and `db`.
pub fn evidence_id(network_id: u8, da: &[u8; 32], db: &[u8; 32]) -> (id: [u8; 32])
    ensures
        id@ == sha256_of(evidence_preimage(network_id, da@, db@)),
{
    let mut pre: Vec<u8> = Vec::new();
    push_all(&mut pre, EVIDENCE_DOMAIN.as_slice());
    pre.push(DOUBLE_SIGN_EVIDENCE_VERSION);
    pre.push(network_id);
    if !bytes_less(db.as_slice(), da.as_slice()) {
        push_all(&mut pre, da.as_slice());
        push_all(&mut pre, db.as_slice());
    } else {
        push_all(&mut pre, db.as_slice());
        push_all(&mut pre, da.as_slice());
    }
    assert(pre@ =~= evidence_preimage(network_id, da@, db@));
    sha256(pre.as_slice())
}

/// The evidence id does not depend on which vote is presented first.
pub proof fn lemma_evidence_id_order_independent(network_id: u8, da: Seq<u8>, db: Seq<u8>)
    ensures
        evidence_preimage(network_id, da, db) == evidence_preimage(network_id, db, da),
{
    lemma_bytes_lt_total(da, db);
    if bytes_lt(da, db) && bytes_lt(db, da) {
        lemma_bytes_lt_transitive(da, db, da);
        lemma_bytes_lt_irreflexive(da);
    }
}

// ── The evidence checks ─────────────────────────────────────────────────────

/// The fields of a finality vote that the evidence checks read, with the
/// vote's digest.
pub struct VoteFacts {
    pub network_id: u8,
    pub target_height: u64,
    pub committee_epoch: u64,
    pub vote_type: u8,
    pub member_pkh: [u8; 20],
    pub member_pubkey: Vec<u8>,
    pub block_hash: [u8; 32],
    pub digest: [u8; 32],
}

/// Whether `pkh` is one of the committee's members.
pub open spec fn in_committee(committee: Seq<[u8; 20]>, pkh: Seq<u8>) -> bool {
    exists|i: int| 0 <= i < committee.len() && (#[trigger] committee[i])@ == pkh
}

/// The outcome of the evidence checks, in the order they run: mainnet is
/// off, the evidence and both votes are of the expected network, both votes
/// verify (`sig_a`, `sig_b`: the vote's own check), they share height, epoch,
/// vote type and identity, commit to different blocks, are not the same vote,
/// and the signer sits on the committee. The first that fails decides.
pub open spec fn evidence_check_spec(
    expected_network: u8,
    evidence_network: u8,
    a: VoteFacts,
    b: VoteFacts,
    sig_a: Result<(), String>,
    sig_b: Result<(), String>,
    committee: Seq<[u8; 20]>,
) -> Result<(), Seq<char>> {
    if expected_network == 0 {
        Err("double-sign: mainnet hard-off"@)
    } else if evidence_network != expected_network {
        Err("double-sign: wrong network"@)
    } else if a.network_id != expected_network || b.network_id != expected_network {
        Err("double-sign: vote wrong network"@)
    } else if sig_a is Err {
        Err(sig_a->Err_0@)
    } else if sig_b is Err {
        Err(sig_b->Err_0@)
    } else if a.target_height != b.target_height {
        Err("double-sign: different heights (not equivocation)"@)
    } else if a.committee_epoch != b.committee_epoch {
        Err("double-sign: different epoch"@)
    } else if a.vote_type != b.vote_type {
        Err("double-sign: different vote type"@)
    } else if a.member_pkh@ != b.member_pkh@ || a.member_pubkey@ != b.member_pubkey@ {
        Err("double-sign: different identity"@)
    } else if a.block_hash@ == b.block_hash@ {
        Err("double-sign: same block hash (duplicate, not evidence)"@)
    } else if a.digest@ == b.digest@ {
        Err("double-sign: identical vote"@)
    } else if !in_committee(committee, a.member_pkh@) {
        Err("double-sign: non-committee voter"@)
    } else {
        Ok(())
    }
}

fn committee_contains(committee: &[[u8; 20]], pkh: &[u8; 20]) -> (b: bool)
    ensures
        b == in_committee(committee@, pkh@),
{
    let mut i: usize = 0;
    while i < committee.len()
        invariant
            i <= committee@.len(),
            forall|j: int| 0 <= j < i ==> (#[trigger] committee@[j])@ != pkh@,
        decreases committee@.len() - i,
    {
        if bytes_equal(committee[i].as_slice(), pkh.as_slice()) {
            return true;
        }
        i = i + 1;
    }
    false
}

/// Checks a pair of votes offered as double-sign evidence (see
/// [`evidence_check_spec`]); `Err` carries the first failed check's reason.
pub fn evidence_check(
    expected_network: u8,
    evidence_network: u8,
    a: &VoteFacts,
    b: &VoteFacts,
    sig_a: Result<(), String>,
    sig_b: Result<(), String>,
    committee: &[[u8; 20]],
) -> (r: Result<(), String>)
    ensures
        r is Ok ==> {
            &&& expected_network != 0
            &&& evidence_network == expected_network
            &&& a.network_id == expected_network && b.network_id == expected_network
            &&& sig_a is Ok && sig_b is Ok
            &&& a.target_height == b.target_height
            &&& a.committee_epoch == b.committee_epoch
            &&& a.vote_type == b.vote_type
            &&& a.member_pkh@ == b.member_pkh@ && a.member_pubkey@ == b.member_pubkey@
            &&& a.block_hash@ != b.block_hash@
            &&& a.digest@ != b.digest@
            &&& exists|i: int| 0 <= i < committee@.len() && committee@[i]@ == a.member_pkh@
        },
        expected_network == 0 ==> r is Err,
        match r {
            Ok(()) => evidence_check_spec(expected_network, evidence_network, *a, *b, sig_a, sig_b, committee@) is Ok,
            Err(e) => evidence_check_spec(expected_network, evidence_network, *a, *b, sig_a, sig_b, committee@) == Err::<(), Seq<char>>(e@),
        },
{
    if expected_network == 0 {
        return Err("double-sign: mainnet hard-off".to_owned());
    }
    if evidence_network != expected_network {
        return Err("double-sign: wrong network".to_owned());
    }
    if a.network_id != expected_network || b.network_id != expected_network {
        return Err("double-sign: vote wrong network".to_owned());
    }
    if let Err(e) = sig_a {
        return Err(e);
    }
    if let Err(e) = sig_b {
        return Err(e);
    }
    if a.target_height != b.target_height {
        return Err("double-sign: different heights (not equivocation)".to_owned());
    }
    if a.committee_epoch != b.committee_epoch {
        return Err("double-sign: different epoch".to_owned());
    }
    if a.vote_type != b.vote_type {
        return Err("double-sign: different vote type".to_owned());
    }
    if !bytes_equal(a.member_pkh.as_slice(), b.member_pkh.as_slice()) || !bytes_equal(
        a.member_pubkey.as_slice(),
        b.member_pubkey.as_slice(),
    ) {
        return Err("double-sign: different identity".to_owned());
    }
    if bytes_equal(a.block_hash.as_slice(), b.block_hash.as_slice()) {
        return Err("double-sign: same block hash (duplicate, not evidence)".to_owned());
    }
    if bytes_equal(a.digest.as_slice(), b.digest.as_slice()) {
        return Err("double-sign: identical vote".to_owned());
    }
    if !committee_contains(committee, &a.member_pkh) {
        return Err("double-sign: non-committee voter".to_owned());
    }
    Ok(())
}

// ── Finding equivocations among votes ───────────────────────────────────────

/// Whether two votes are an equivocation: same network, height, epoch, vote
/// type and identity, different committed blocks.
pub open spec fn equivocates(a: VoteFacts, b: VoteFacts) -> bool {
    &&& a.network_id == b.network_id
    &&& a.target_height == b.target_height
    &&& a.committee_epoch == b.committee_epoch
    &&& a.vote_type == b.vote_type
    &&& a.member_pkh@ == b.member_pkh@
    &&& a.member_pubkey@ == b.member_pubkey@
    &&& a.block_hash@ != b.block_hash@
}

/// The evidence id of the pair `(i, j)` of `votes`.
pub open spec fn pair_id(votes: Seq<VoteFacts>, i: int, j: int) -> Seq<u8> {
    sha256_of(evidence_preimage(votes[i].network_id, votes[i].digest@, votes[j].digest@))
}

/// Whether pair `(i2, j2)` comes before `(i, j)` (by first index, then second).
pub open spec fn pair_before(i2: int, j2: int, i: int, j: int) -> bool {
    i2 < i || (i2 == i && j2 < j)
}

/// Whether `(i, j)` (with `i < j`) is an equivocating pair whose evidence id
/// no earlier equivocating pair has.
pub open spec fn first_of_its_id(votes: Seq<VoteFacts>, i: int, j: int) -> bool {
    &&& 0 <= i < j < votes.len()
    &&& equivocates(votes[i], votes[j])
    &&& forall|i2: int, j2: int|
        0 <= i2 < j2 < votes.len() && pair_before(i2, j2, i, j) && equivocates(
            #[trigger] votes[i2],
            #[trigger] votes[j2],
        ) ==> pair_id(votes, i2, j2) != pair_id(votes, i, j)
}

/// A reported equivocation is two votes of one identity in one finality
/// domain (same network, target height, committee epoch and vote type) that
/// commit to different blocks: votes at different heights never are.
pub proof fn lemma_reported_pairs_equivocate(votes: Seq<VoteFacts>, i: int, j: int)
    requires
        first_of_its_id(votes, i, j),
    ensures
        0 <= i < j < votes.len(),
        votes[i].network_id == votes[j].network_id,
        votes[i].target_height == votes[j].target_height,
        votes[i].committee_epoch == votes[j].committee_epoch,
        votes[i].vote_type == votes[j].vote_type,
        votes[i].member_pkh@ == votes[j].member_pkh@,
        votes[i].member_pubkey@ == votes[j].member_pubkey@,
        votes[i].block_hash@ != votes[j].block_hash@,
{
}

fn equivocates_exec(a: &VoteFacts, b: &VoteFacts) -> (r: bool)
    ensures
        r == equivocates(*a, *b),
{
    a.network_id == b.network_id && a.target_height == b.target_height && a.committee_epoch
        == b.committee_epoch && a.vote_type == b.vote_type && bytes_equal(
        a.member_pkh.as_slice(),
        b.member_pkh.as_slice(),
    ) && bytes_equal(a.member_pubkey.as_slice(), b.member_pubkey.as_slice()) && !bytes_equal(
        a.block_hash.as_slice(),
        b.block_hash.as_slice(),
    )
}

fn ids_contain(seen: &Vec<[u8; 32]>, id: &[u8; 32]) -> (b: bool)
    ensures
        b == exists|k: int| 0 <= k < seen@.len() && (#[trigger] seen@[k])@ == id@,
{
    let mut k: usize = 0;
    while k < seen.len()
        invariant
            k <= seen@.len(),
            forall|m: int| 0 <= m < k ==> (#[trigger] seen@[m])@ != id@,
        decreases seen@.len() - k,
    {
        if bytes_equal(seen[k].as_slice(), id.as_slice()) {
            return true;
        }
        k = k + 1;
    }
    false
}

/// The equivocations among `votes`, as index pairs `(i, j)` with `i < j`, in
/// pair order: each equivocating pair whose evidence id no earlier one had.
pub fn detect_double_sign(votes: &Vec<VoteFacts>) -> (r: Vec<(usize, usize)>)
    ensures
        forall|k: int|
            0 <= k < r@.len() ==> {
                let (i, j) = #[trigger] r@[k];
                &&& i < j < votes@.len()
                &&& votes@[i as int].network_id == votes@[j as int].network_id
                &&& votes@[i as int].target_height == votes@[j as int].target_height
                &&& votes@[i as int].committee_epoch == votes@[j as int].committee_epoch
                &&& votes@[i as int].vote_type == votes@[j as int].vote_type
                &&& votes@[i as int].member_pkh@ == votes@[j as int].member_pkh@
                &&& votes@[i as int].member_pubkey@ == votes@[j as int].member_pubkey@
                &&& votes@[i as int].block_hash@ != votes@[j as int].block_hash@
            },
        forall|k: int| 0 <= k < r@.len() ==> first_of_its_id(votes@, (#[trigger] r@[k]).0 as int, r@[k].1 as int),
        forall|k: int, l: int|
            0 <= k < l < r@.len() ==> pair_before(
                (#[trigger] r@[k]).0 as int,
                r@[k].1 as int,
                (#[trigger] r@[l]).0 as int,
                r@[l].1 as int,
            ),
        forall|i: int, j: int| #[trigger] first_of_its_id(votes@, i, j) ==> r@.contains((i as usize, j as usize)),
{
    let n = votes.len();
    let mut out: Vec<(usize, usize)> = Vec::new();
    let mut seen: Vec<[u8; 32]> = Vec::new();
    let mut i: usize = 0;
    while i < n
        invariant
            n == votes@.len(),
            i <= n,
            seen@.len() == out@.len(),
            forall|k: int| 0 <= k < out@.len() ==> (#[trigger] seen@[k])@ == pair_id(votes@, out@[k].0 as int, out@[k].1 as int),
            forall|k: int| 0 <= k < out@.len() ==> first_of_its_id(votes@, (#[trigger] out@[k]).0 as int, out@[k].1 as int),
            forall|k: int| 0 <= k < out@.len() ==> (#[trigger] out@[k]).0 < i,
            forall|k: int, l: int|
                0 <= k < l < out@.len() ==> pair_before(
                    (#[trigger] out@[k]).0 as int,
                    out@[k].1 as int,
                    (#[trigger] out@[l]).0 as int,
                    out@[l].1 as int,
                ),
            forall|i2: int, j2: int|
                0 <= i2 < j2 < n && i2 < i && equivocates(#[trigger] votes@[i2], #[trigger] votes@[j2]) ==> exists|k: int|
                    0 <= k < seen@.len() && (#[trigger] seen@[k])@ == pair_id(votes@, i2, j2),
            forall|i2: int, j2: int| #[trigger] first_of_its_id(votes@, i2, j2) && i2 < i ==> out@.contains((i2 as usize, j2 as usize)),
        decreases n - i,
    {
        let mut j: usize = i + 1;
        while j < n
            invariant
                n == votes@.len(),
                i < n,
                i + 1 <= j <= n,
                seen@.len() == out@.len(),
                forall|k: int| 0 <= k < out@.len() ==> (#[trigger] seen@[k])@ == pair_id(votes@, out@[k].0 as int, out@[k].1 as int),
                forall|k: int| 0 <= k < out@.len() ==> first_of_its_id(votes@, (#[trigger] out@[k]).0 as int, out@[k].1 as int),
                forall|k: int| 0 <= k < out@.len() ==> pair_before((#[trigger] out@[k]).0 as int, out@[k].1 as int, i as int, j as int),
                forall|k: int, l: int|
                    0 <= k < l < out@.len() ==> pair_before(
                        (#[trigger] out@[k]).0 as int,
                        out@[k].1 as int,
                        (#[trigger] out@[l]).0 as int,
                        out@[l].1 as int,
                    ),
                forall|i2: int, j2: int|
                    0 <= i2 < j2 < n && pair_before(i2, j2, i as int, j as int) && equivocates(#[trigger] votes@[i2], #[trigger] votes@[j2]) ==> exists|k: int|
                        0 <= k < seen@.len() && (#[trigger] seen@[k])@ == pair_id(votes@, i2, j2),
                forall|i2: int, j2: int| #[trigger] first_of_its_id(votes@, i2, j2) && pair_before(i2, j2, i as int, j as int) ==> out@.contains((i2 as usize, j2 as usize)),
            decreases n - j,
        {
            if equivocates_exec(&votes[i], &votes[j]) {
                let id = evidence_id(votes[i].network_id, &votes[i].digest, &votes[j].digest);
                assert(id@ == pair_id(votes@, i as int, j as int));
                if !ids_contain(&seen, &id) {
                    proof {
                        assert(first_of_its_id(votes@, i as int, j as int));
                    }
                    let ghost old_out = out@;
                    let ghost old_seen = seen@;
                    out.push((i, j));
                    seen.push(id);
                    proof {
                        assert(out@[out@.len() - 1] == (i, j));
                        assert forall|i2: int, j2: int| #[trigger] first_of_its_id(votes@, i2, j2) && pair_before(i2, j2, i as int, j + 1) implies out@.contains((i2 as usize, j2 as usize)) by {
                            if pair_before(i2, j2, i as int, j as int) {
                                let k = choose|k: int| 0 <= k < old_out.len() && old_out[k] == (i2 as usize, j2 as usize);
                                assert(out@[k] == old_out[k]);
                            } else {
                                assert(out@[old_out.len() as int] == (i2 as usize, j2 as usize));
                            }
                        }
                        assert forall|i2: int, j2: int|
                            0 <= i2 < j2 < n && pair_before(i2, j2, i as int, j + 1) && equivocates(#[trigger] votes@[i2], #[trigger] votes@[j2]) implies exists|k: int|
                                0 <= k < seen@.len() && (#[trigger] seen@[k])@ == pair_id(votes@, i2, j2) by {
                            if pair_before(i2, j2, i as int, j as int) {
                                let k = choose|k: int| 0 <= k < old_seen.len() && (#[trigger] old_seen[k])@ == pair_id(votes@, i2, j2);
                                assert(seen@[k] == old_seen[k]);
                            } else {
                                assert(seen@[old_seen.len() as int]@ == pair_id(votes@, i2, j2));
                            }
                        }
                    }
                } else {
                    proof {
                        let k = choose|k: int| 0 <= k < seen@.len() && (#[trigger] seen@[k])@ == id@;
                        assert(!first_of_its_id(votes@, i as int, j as int)) by {
                            let p = out@[k];
                            assert(pair_before(p.0 as int, p.1 as int, i as int, j as int));
                            assert(first_of_its_id(votes@, p.0 as int, p.1 as int));
                            assert(equivocates(votes@[p.0 as int], votes@[p.1 as int]));
                        }
                        assert forall|i2: int, j2: int| #[trigger] first_of_its_id(votes@, i2, j2) && pair_before(i2, j2, i as int, j + 1) implies out@.contains((i2 as usize, j2 as usize)) by {
                            if !pair_before(i2, j2, i as int, j as int) {
                                assert(i2 == i && j2 == j);
                            }
                        }
                        assert forall|i2: int, j2: int|
                            0 <= i2 < j2 < n && pair_before(i2, j2, i as int, j + 1) && equivocates(#[trigger] votes@[i2], #[trigger] votes@[j2]) implies exists|k: int|
                                0 <= k < seen@.len() && (#[trigger] seen@[k])@ == pair_id(votes@, i2, j2) by {
                            if !pair_before(i2, j2, i as int, j as int) {
                                assert(i2 == i && j2 == j);
                            }
                        }
                    }
                }
            } else {
                proof {
                    assert forall|i2: int, j2: int| #[trigger] first_of_its_id(votes@, i2, j2) && pair_before(i2, j2, i as int, j + 1) implies out@.contains((i2 as usize, j2 as usize)) by {
                        if !pair_before(i2, j2, i as int, j as int) {
                            assert(i2 == i && j2 == j);
                        }
                    }
                }
            }
            j = j + 1;
        }
        i = i + 1;
    }
    proof {
        assert forall|k: int| 0 <= k < out@.len() implies {
            let (i, j) = #[trigger] out@[k];
            &&& i < j < votes@.len()
            &&& votes@[i as int].network_id == votes@[j as int].network_id
            &&& votes@[i as int].target_height == votes@[j as int].target_height
            &&& votes@[i as int].committee_epoch == votes@[j as int].committee_epoch
            &&& votes@[i as int].vote_type == votes@[j as int].vote_type
            &&& votes@[i as int].member_pkh@ == votes@[j as int].member_pkh@
            &&& votes@[i as int].member_pubkey@ == votes@[j as int].member_pubkey@
            &&& votes@[i as int].block_hash@ != votes@[j as int].block_hash@
        } by {
            lemma_reported_pairs_equivocate(votes@, out@[k].0 as int, out@[k].1 as int);
        }
    }
    out
}

// ── The replayable penalty state ────────────────────────────────────────────

/// One member's penalty: how many pieces of evidence hit it (saturating),
/// the committee epoch its suspension runs until (suspended while the
/// current epoch is below it), and the highest block height of a change.
#[derive(Debug, Clone, Copy, PartialEq, Eq, Structural)]
pub struct PenaltyRecordState {
    pub invalid_count: u64,
    pub suspended_until_epoch: u64,
    pub last_update_height: u64,
}

/// A checked piece of evidence as the penalty state takes it: its id, the
/// member it convicts, its committee epoch and the height it is applied at.
#[derive(Debug, Clone, Copy)]
pub struct PenaltyEvidence {
    pub id: [u8; 32],
    pub member_pkh: [u8; 20],
    pub committee_epoch: u64,
    pub height: u64,
}

/// The penalty state as a value: each penalized member's record, and the
/// ids of the evidence applied so far.
pub struct PenaltyView {
    pub records: Map<Seq<u8>, PenaltyRecordState>,
    pub applied: Set<Seq<u8>>,
}

pub open spec fn sat_add_u64(a: u64, b: u64) -> u64 {
    if a + b > u64::MAX {
        u64::MAX
    } else {
        (a + b) as u64
    }
}

pub open spec fn max_u64(a: u64, b: u64) -> u64 {
    if a >= b {
        a
    } else {
        b
    }
}

/// A member's record once one more piece of evidence is applied: one more
/// count, suspended at least until the evidence's epoch plus the window,
/// and the height raised to the evidence's.
pub open spec fn record_after(r: PenaltyRecordState, e: PenaltyEvidence, suspend_epochs: u64) -> PenaltyRecordState {
    PenaltyRecordState {
        invalid_count: sat_add_u64(r.invalid_count, 1),
        suspended_until_epoch: max_u64(r.suspended_until_epoch, sat_add_u64(e.committee_epoch, suspend_epochs)),
        last_update_height: max_u64(r.last_update_height, e.height),
    }
}

pub open spec fn fresh_record() -> PenaltyRecordState {
    PenaltyRecordState { invalid_count: 0, suspended_until_epoch: 0, last_update_height: 0 }
}

/// Applies one checked piece of evidence: nothing changes (and `false`) when
/// its id was applied before; otherwise the id is recorded, the member's
/// record takes the evidence, and `true`.
pub open spec fn penalty_step(v: PenaltyView, e: PenaltyEvidence, suspend_epochs: u64) -> (PenaltyView, bool) {
    if v.applied.contains(e.id@) {
        (v, false)
    } else {
        let r = if v.records.contains_key(e.member_pkh@) {
            v.records[e.member_pkh@]
        } else {
            fresh_record()
        };
        (
            PenaltyView {
                records: v.records.insert(e.member_pkh@, record_after(r, e, suspend_epochs)),
                applied: v.applied.insert(e.id@),
            },
            true,
        )
    }
}

/// Replay does not depend on order: two pieces of evidence applied in either
/// order give the same state, provided one id never names two different
/// pieces of evidence.
pub proof fn lemma_penalty_steps_commute(v: PenaltyView, e1: PenaltyEvidence, e2: PenaltyEvidence, s: u64)
    requires
        e1.id@ == e2.id@ ==> (e1.member_pkh@ == e2.member_pkh@ && e1.committee_epoch == e2.committee_epoch
            && e1.height == e2.height),
    ensures
        penalty_step(penalty_step(v, e1, s).0, e2, s).0 == penalty_step(penalty_step(v, e2, s).0, e1, s).0,
{
    let a = penalty_step(penalty_step(v, e1, s).0, e2, s).0;
    let b = penalty_step(penalty_step(v, e2, s).0, e1, s).0;
    assert(a.records =~= b.records);
    assert(a.applied =~= b.applied);
}

/// What one new piece of evidence does to the state, over all states: its
/// id joins the applied ids and nothing else does; the convicted member's
/// count goes up by one (saturating), its suspension lasts at least until
/// the evidence's epoch plus the window (saturating) and never shortens, its
/// height never drops; every other member's record is untouched. Evidence
/// whose id was applied before changes nothing.
pub proof fn lemma_penalty_step_effect(v: PenaltyView, e: PenaltyEvidence, s: u64, k: Seq<u8>)
    ensures
        v.applied.contains(e.id@) ==> penalty_step(v, e, s) == (v, false),
        !v.applied.contains(e.id@) ==> {
            let (w, fresh) = penalty_step(v, e, s);
            let old_count: int = if v.records.contains_key(e.member_pkh@) {
                v.records[e.member_pkh@].invalid_count as int
            } else {
                0
            };
            let old_until: int = if v.records.contains_key(e.member_pkh@) {
                v.records[e.member_pkh@].suspended_until_epoch as int
            } else {
                0
            };
            &&& fresh
            &&& w.applied.contains(e.id@)
            &&& (k != e.id@ ==> (w.applied.contains(k) == v.applied.contains(k)))
            &&& w.records.contains_key(e.member_pkh@)
            &&& w.records[e.member_pkh@].invalid_count == if old_count == u64::MAX { old_count } else { old_count + 1 }
            &&& w.records[e.member_pkh@].suspended_until_epoch >= old_until
            &&& w.records[e.member_pkh@].suspended_until_epoch >= if e.committee_epoch + s > u64::MAX {
                u64::MAX as int
            } else {
                e.committee_epoch + s
            }
            &&& w.records[e.member_pkh@].last_update_height >= e.height
            &&& (k != e.member_pkh@ ==> (w.records.contains_key(k) == v.records.contains_key(k)
                && (v.records.contains_key(k) ==> w.records[k] == v.records[k])))
        },
{
}

/// Applying the same evidence again changes nothing.
pub proof fn lemma_penalty_step_idempotent(v: PenaltyView, e: PenaltyEvidence, s: u64)
    ensures
        penalty_step(penalty_step(v, e, s).0, e, s) == (penalty_step(v, e, s).0, false),
{
}

/// The records of `v`, one per member: each later entry of a member
/// replaces an earlier one.
pub open spec fn records_map(v: Seq<([u8; 20], PenaltyRecordState)>) -> Map<Seq<u8>, PenaltyRecordState>
    decreases v.len(),
{
    if v.len() == 0 {
        Map::empty()
    } else {
        records_map(v.drop_last()).insert(v.last().0@, v.last().1)
    }
}

pub open spec fn keys_unique(v: Seq<([u8; 20], PenaltyRecordState)>) -> bool {
    forall|i: int, j: int| 0 <= i < j < v.len() ==> (#[trigger] v[i]).0@ != (#[trigger] v[j]).0@
}

pub open spec fn ids_view(v: Seq<[u8; 32]>) -> Seq<Seq<u8>> {
    v.map_values(|a: [u8; 32]| a@)
}

proof fn lemma_records_map_dom(v: Seq<([u8; 20], PenaltyRecordState)>, k: Seq<u8>)
    ensures
        records_map(v).contains_key(k) <==> exists|i: int| 0 <= i < v.len() && (#[trigger] v[i]).0@ == k,
    decreases v.len(),
{
    if v.len() > 0 {
        lemma_records_map_dom(v.drop_last(), k);
        if records_map(v).contains_key(k) && v.last().0@ != k {
            let i = choose|i: int| 0 <= i < v.len() - 1 && (#[trigger] v.drop_last()[i]).0@ == k;
            assert(v[i] == v.drop_last()[i]);
        }
        if exists|i: int| 0 <= i < v.len() && (#[trigger] v[i]).0@ == k {
            let i = choose|i: int| 0 <= i < v.len() && (#[trigger] v[i]).0@ == k;
            if i < v.len() - 1 {
                assert(v.drop_last()[i] == v[i]);
            }
        }
    }
}

proof fn lemma_records_map_at(v: Seq<([u8; 20], PenaltyRecordState)>, i: int)
    requires
        keys_unique(v),
        0 <= i < v.len(),
    ensures
        records_map(v).contains_key(v[i].0@),
        records_map(v)[v[i].0@] == v[i].1,
    decreases v.len(),
{
    if i < v.len() - 1 {
        assert(v.drop_last()[i] == v[i]);
        assert(keys_unique(v.drop_last())) by {
            assert forall|a: int, b: int| 0 <= a < b < v.drop_last().len() implies (#[trigger] v.drop_last()[a]).0@
                != (#[trigger] v.drop_last()[b]).0@ by {
                assert(v.drop_last()[a] == v[a] && v.drop_last()[b] == v[b]);
            }
        }
        lemma_records_map_at(v.drop_last(), i);
        assert(v[i].0@ != v[v.len() - 1].0@);
    }
}

proof fn lemma_records_map_update(v: Seq<([u8; 20], PenaltyRecordState)>, i: int, r: PenaltyRecordState)
    requires
        keys_unique(v),
        0 <= i < v.len(),
    ensures
        records_map(v.update(i, (v[i].0, r))) == records_map(v).insert(v[i].0@, r),
        keys_unique(v.update(i, (v[i].0, r))),
    decreases v.len(),
{
    let w = v.update(i, (v[i].0, r));
    assert(keys_unique(w)) by {
        assert forall|a: int, b: int| 0 <= a < b < w.len() implies (#[trigger] w[a]).0@ != (#[trigger] w[b]).0@ by {
            assert(w[a].0 == v[a].0 && w[b].0 == v[b].0);
        }
    }
    if i == v.len() - 1 {
        assert(w.drop_last() =~= v.drop_last());
        assert(records_map(w) =~= records_map(v).insert(v[i].0@, r));
    } else {
        assert(w.drop_last() =~= v.drop_last().update(i, (v[i].0, r)));
        assert(keys_unique(v.drop_last())) by {
            assert forall|a: int, b: int| 0 <= a < b < v.drop_last().len() implies (#[trigger] v.drop_last()[a]).0@
                != (#[trigger] v.drop_last()[b]).0@ by {
                assert(v.drop_last()[a] == v[a] && v.drop_last()[b] == v[b]);
            }
        }
        assert(v.drop_last()[i] == v[i]);
        lemma_records_map_update(v.drop_last(), i, r);
        assert(v[i].0@ != v.last().0@);
        assert(records_map(w) =~= records_map(v).insert(v[i].0@, r));
    }
}

/// The double-sign penalty state: each penalized member's record and the
/// ids of the evidence applied.
pub struct DoubleSignPenaltyState {
    records: Vec<([u8; 20], PenaltyRecordState)>,
    applied: Vec<[u8; 32]>,
}

impl DoubleSignPenaltyState {
    #[verifier::type_invariant]
    spec fn well_formed(self) -> bool {
        &&& keys_unique(self.records@)
        &&& ids_view(self.applied@).no_duplicates()
    }

    pub closed spec fn view(&self) -> PenaltyView {
        PenaltyView { records: records_map(self.records@), applied: ids_view(self.applied@).to_set() }
    }

    /// No penalties, no evidence.
    pub fn new() -> (s: Self)
        ensures
            s.view().records == Map::<Seq<u8>, PenaltyRecordState>::empty(),
            s.view().applied == Set::<Seq<u8>>::empty(),
    {
        let s = DoubleSignPenaltyState { records: Vec::new(), applied: Vec::new() };
        assert(ids_view(s.applied@).to_set() =~= Set::<Seq<u8>>::empty());
        s
    }

    fn find_record(&self, pkh: &[u8; 20]) -> (r: Option<usize>)
        ensures
            match r {
                Some(i) => i < self.records@.len() && self.records@[i as int].0@ == pkh@,
                None => !records_map(self.records@).contains_key(pkh@),
            },
    {
        let mut i: usize = 0;
        while i < self.records.len()
            invariant
                i <= self.records@.len(),
                forall|j: int| 0 <= j < i ==> (#[trigger] self.records@[j]).0@ != pkh@,
            decreases self.records@.len() - i,
        {
            if bytes_equal(self.records[i].0.as_slice(), pkh.as_slice()) {
                return Some(i);
            }
            i = i + 1;
        }
        proof {
            lemma_records_map_dom(self.records@, pkh@);
        }
        None
    }

    fn was_applied(&self, id: &[u8; 32]) -> (b: bool)
        ensures
            b == ids_view(self.applied@).to_set().contains(id@),
    {
        let mut i: usize = 0;
        while i < self.applied.len()
            invariant
                i <= self.applied@.len(),
                forall|j: int| 0 <= j < i ==> (#[trigger] self.applied@[j])@ != id@,
            decreases self.applied@.len() - i,
        {
            if bytes_equal(self.applied[i].as_slice(), id.as_slice()) {
                proof {
                    assert(ids_view(self.applied@)[i as int] == id@);
                }
                return true;
            }
            i = i + 1;
        }
        proof {
            if ids_view(self.applied@).to_set().contains(id@) {
                let k = choose|k: int| 0 <= k < ids_view(self.applied@).len() && ids_view(self.applied@)[k] == id@;
                assert(self.applied@[k]@ == id@);
            }
        }
        false
    }

    /// Applies evidence that passed its checks (`check`), or refuses it with
    /// the failed check's reason and no change. Applied evidence changes the
    /// state as [`penalty_step`] says; `Ok(false)` means it was applied before.
    pub fn apply_evidence(
        &mut self,
        check: Result<(), String>,
        e: &PenaltyEvidence,
        suspend_epochs: u64,
    ) -> (r: Result<bool, String>)
        ensures
            match check {
                Err(m) => r == Err::<bool, String>(m) && final(self).view() == old(self).view(),
                Ok(_) => r == Ok::<bool, String>(penalty_step(old(self).view(), *e, suspend_epochs).1)
                    && final(self).view() == penalty_step(old(self).view(), *e, suspend_epochs).0,
            },
    {
        proof {
            use_type_invariant(&*self);
        }
        if let Err(m) = check {
            return Err(m);
        }
        if self.was_applied(&e.id) {
            return Ok(false);
        }
        let ghost pre = self.view();
        let until = e.committee_epoch.saturating_add(suspend_epochs);
        let found = self.find_record(&e.member_pkh);
        let mut records = Vec::new();
        std::mem::swap(&mut records, &mut self.records);
        let mut applied = Vec::new();
        std::mem::swap(&mut applied, &mut self.applied);
        let ghost old_records = records@;
        let ghost old_applied = applied@;
        match found {
            Some(i) => {
                let cur = records[i].1;
                let next = PenaltyRecordState {
                    invalid_count: cur.invalid_count.saturating_add(1),
                    suspended_until_epoch: if cur.suspended_until_epoch >= until {
                        cur.suspended_until_epoch
                    } else {
                        until
                    },
                    last_update_height: if cur.last_update_height >= e.height {
                        cur.last_update_height
                    } else {
                        e.height
                    },
                };
                let k = records[i].0;
                records.set(i, (k, next));
                proof {
                    lemma_records_map_at(old_records, i as int);
                    lemma_records_map_update(old_records, i as int, next);
                    assert(records@ == old_records.update(i as int, (old_records[i as int].0, next)));
                }
            },
            None => {
                let next = PenaltyRecordState {
                    invalid_count: 1,
                    suspended_until_epoch: until,
                    last_update_height: e.height,
                };
                records.push((e.member_pkh, next));
                proof {
                    assert(records@.drop_last() =~= old_records);
                    assert(keys_unique(records@)) by {
                        assert forall|a: int, b: int| 0 <= a < b < records@.len() implies (#[trigger] records@[a]).0@
                            != (#[trigger] records@[b]).0@ by {
                            if b == records@.len() - 1 {
                                assert(records@[a] == old_records[a]);
                                lemma_records_map_dom(old_records, e.member_pkh@);
                            } else {
                                assert(records@[a] == old_records[a] && records@[b] == old_records[b]);
                            }
                        }
                    }
                }
            },
        }
        applied.push(e.id);
        proof {
            assert(ids_view(applied@) =~= ids_view(old_applied).push(e.id@));
            assert(!ids_view(old_applied).contains(e.id@));
            assert(ids_view(applied@).no_duplicates());
            let sa = ids_view(applied@);
            let so = ids_view(old_applied);
            assert forall|x: Seq<u8>| sa.to_set().contains(x) <==> so.to_set().insert(e.id@).contains(x) by {
                if sa.contains(x) {
                    let k = choose|k: int| 0 <= k < sa.len() && sa[k] == x;
                    if k < so.len() {
                        assert(so[k] == x);
                    }
                }
                if so.contains(x) {
                    let k = choose|k: int| 0 <= k < so.len() && so[k] == x;
                    assert(sa[k] == x);
                }
                if x == e.id@ {
                    assert(sa[so.len() as int] == x);
                }
            }
            assert(sa.to_set() =~= so.to_set().insert(e.id@));
        }
        *self = DoubleSignPenaltyState { records, applied };
        proof {
            assert(self.view().records =~= penalty_step(pre, *e, suspend_epochs).0.records);
        }
        Ok(true)
    }

    /// Whether `pkh` is suspended at `current_epoch`: it has a record and the
    /// epoch is below the end of its suspension.
    pub fn is_suspended(&self, pkh: &[u8; 20], current_epoch: u64) -> (b: bool)
        ensures
            b == (self.view().records.contains_key(pkh@) && current_epoch
                < self.view().records[pkh@].suspended_until_epoch),
    {
        proof {
            use_type_invariant(self);
        }
        match self.find_record(pkh) {
            Some(i) => {
                proof {
                    lemma_records_map_at(self.records@, i as int);
                }
                current_epoch < self.records[i].1.suspended_until_epoch
            },
            None => false,
        }
    }

    /// Whether `pkh` may serve on the finality committee at `current_epoch`:
    /// whenever it is not suspended.
    pub fn is_eligible_for_finality(&self, pkh: &[u8; 20], current_epoch: u64) -> (b: bool)
        ensures
            b == !(self.view().records.contains_key(pkh@) && current_epoch
                < self.view().records[pkh@].suspended_until_epoch),
    {
        !self.is_suspended(pkh, current_epoch)
    }

    /// How many members have a penalty record.
    pub fn penalized_count(&self) -> (n: usize)
        ensures
            n == self.view().records.dom().len(),
    {
        proof {
            use_type_invariant(self);
            lemma_records_map_len(self.records@);
        }
        self.records.len()
    }

    /// How many pieces of evidence were applied.
    pub fn evidence_count(&self) -> (n: usize)
        ensures
            n == self.view().applied.len(),
    {
        proof {
            use_type_invariant(self);
            ids_view(self.applied@).unique_seq_to_set();
        }
        self.applied.len()
    }
}

proof fn lemma_records_map_len(v: Seq<([u8; 20], PenaltyRecordState)>)
    requires
        keys_unique(v),
    ensures
        records_map(v).dom().finite(),
        records_map(v).dom().len() == v.len(),
    decreases v.len(),
{
    if v.len() > 0 {
        assert(keys_unique(v.drop_last())) by {
            assert forall|a: int, b: int| 0 <= a < b < v.drop_last().len() implies (#[trigger] v.drop_last()[a]).0@
                != (#[trigger] v.drop_last()[b]).0@ by {
                assert(v.drop_last()[a] == v[a] && v.drop_last()[b] == v[b]);
            }
        }
        lemma_records_map_len(v.drop_last());
        lemma_records_map_dom(v.drop_last(), v.last().0@);
        if records_map(v.drop_last()).contains_key(v.last().0@) {
            let i = choose|i: int| 0 <= i < v.drop_last().len() && (#[trigger] v.drop_last()[i]).0@ == v.last().0@;
            assert(v[i] == v.drop_last()[i]);
        }
    }
}

// ── The bounded local evidence cache ────────────────────────────────────────

/// Most pieces of evidence the local cache holds.
pub const EVIDENCE_CACHE_CAP: usize = 4096;

/// Whether the cached `(id, bytes)` entries are in strictly ascending id order.
pub open spec fn ids_ascending(s: Seq<(Seq<u8>, Seq<u8>)>) -> bool {
    forall|i: int, j: int| 0 <= i < j < s.len() ==> bytes_lt((#[trigger] s[i]).0, (#[trigger] s[j]).0)
}

/// Whether some entry has id `id`.
pub open spec fn has_id(s: Seq<(Seq<u8>, Seq<u8>)>, id: Seq<u8>) -> bool {
    exists|i: int| 0 <= i < s.len() && (#[trigger] s[i]).0 == id
}

/// The first position from `i` whose id is not below `id`.
pub open spec fn first_not_below(s: Seq<(Seq<u8>, Seq<u8>)>, id: Seq<u8>, i: int) -> int
    decreases s.len() - i,
{
    if i < 0 || i >= s.len() {
        s.len() as int
    } else if bytes_lt(s[i].0, id) {
        first_not_below(s, id, i + 1)
    } else {
        i
    }
}

/// The cache once new evidence `(id, bytes)` is taken: at the cap, the entry
/// with the smallest id leaves first; the new entry then takes its place in
/// id order.
pub open spec fn cache_after(s: Seq<(Seq<u8>, Seq<u8>)>, id: Seq<u8>, bytes: Seq<u8>) -> Seq<(Seq<u8>, Seq<u8>)> {
    let base = if s.len() >= EVIDENCE_CACHE_CAP {
        s.drop_first()
    } else {
        s
    };
    base.insert(first_not_below(base, id, 0), (id, bytes))
}

pub open spec fn cache_entries_view(v: Seq<([u8; 32], Vec<u8>)>) -> Seq<(Seq<u8>, Seq<u8>)> {
    v.map_values(|e: ([u8; 32], Vec<u8>)| (e.0@, e.1@))
}

/// A bounded cache of checked double-sign evidence, kept for observation
/// only: its `(id, wire bytes)` entries in ascending id order.
pub struct NodeDoubleSignEvidenceCache {
    entries: Vec<([u8; 32], Vec<u8>)>,
}

proof fn lemma_insert_keeps_ascending(base: Seq<(Seq<u8>, Seq<u8>)>, id: Seq<u8>, bytes: Seq<u8>)
    requires
        ids_ascending(base),
        !has_id(base, id),
    ensures
        ids_ascending(base.insert(first_not_below(base, id, 0), (id, bytes))),
{
    let p = first_not_below(base, id, 0);
    lemma_first_not_below(base, id, 0);
    let t = base.insert(p, (id, bytes));
    assert forall|i: int, j: int| 0 <= i < j < t.len() implies bytes_lt((#[trigger] t[i]).0, (#[trigger] t[j]).0) by {
        if j < p {
            assert(t[i] == base[i] && t[j] == base[j]);
        } else if j == p {
            assert(t[i] == base[i]);
        } else if i == p {
            assert(t[j] == base[j - 1]);
            assert(!bytes_lt(base[p].0, id));
            assert(base[p].0 != id);
            lemma_bytes_lt_total(base[p].0, id);
            if j - 1 > p {
                lemma_bytes_lt_transitive(id, base[p].0, base[j - 1].0);
            }
        } else if i < p {
            assert(t[i] == base[i] && t[j] == base[j - 1]);
            assert(bytes_lt(base[i].0, id));
            assert(!bytes_lt(base[p].0, id));
            assert(base[p].0 != id);
            lemma_bytes_lt_total(base[p].0, id);
            lemma_bytes_lt_transitive(base[i].0, id, base[p].0);
            if j - 1 > p {
                lemma_bytes_lt_transitive(base[i].0, base[p].0, base[j - 1].0);
            }
        } else {
            assert(t[i] == base[i - 1] && t[j] == base[j - 1]);
        }
    }
}

/// What taking new evidence does to the cache, over all caches: the new
/// entry is in it; every old entry stays, except that a full cache first
/// drops the entry with the smallest id, which is then gone; and the cache
/// grows by one up to the cap.
pub proof fn lemma_cache_after_effect(s: Seq<(Seq<u8>, Seq<u8>)>, id: Seq<u8>, bytes: Seq<u8>)
    requires
        ids_ascending(s),
        !has_id(s, id),
        s.len() <= EVIDENCE_CACHE_CAP,
    ensures
        ({
            let t = cache_after(s, id, bytes);
            &&& t.len() == if s.len() >= EVIDENCE_CACHE_CAP { s.len() } else { s.len() + 1 }
            &&& exists|k: int| 0 <= k < t.len() && t[k] == (id, bytes)
            &&& forall|i: int|
                0 <= i < s.len() && (s.len() < EVIDENCE_CACHE_CAP || i >= 1) ==> exists|k: int|
                    0 <= k < t.len() && t[k] == #[trigger] s[i]
            &&& s.len() >= EVIDENCE_CACHE_CAP ==> (forall|k: int| 0 <= k < t.len() ==> (#[trigger] t[k]).0 != s[0].0)
            &&& forall|i: int| 1 <= i < s.len() ==> bytes_lt(s[0].0, #[trigger] s[i].0)
            &&& ids_ascending(t)
        }),
{
    let base = if s.len() >= EVIDENCE_CACHE_CAP { s.drop_first() } else { s };
    let p = first_not_below(base, id, 0);
    lemma_first_not_below(base, id, 0);
    let t = base.insert(p, (id, bytes));
    assert(t[p] == (id, bytes));
    assert forall|i: int|
        0 <= i < s.len() && (s.len() < EVIDENCE_CACHE_CAP || i >= 1) implies exists|k: int|
            0 <= k < t.len() && t[k] == #[trigger] s[i] by {
        let bi = if s.len() >= EVIDENCE_CACHE_CAP { i - 1 } else { i };
        assert(base[bi] == s[i]);
        if bi < p {
            assert(t[bi] == s[i]);
        } else {
            assert(t[bi + 1] == s[i]);
        }
    }
    assert(ids_ascending(base)) by {
        if s.len() >= EVIDENCE_CACHE_CAP {
            assert forall|a: int, b: int| 0 <= a < b < base.len() implies bytes_lt((#[trigger] base[a]).0, (#[trigger] base[b]).0) by {
                assert(base[a] == s[a + 1] && base[b] == s[b + 1]);
            }
        }
    }
    assert(!has_id(base, id)) by {
        if has_id(base, id) {
            let k = choose|k: int| 0 <= k < base.len() && (#[trigger] base[k]).0 == id;
            if s.len() >= EVIDENCE_CACHE_CAP {
                assert(base[k] == s[k + 1]);
            } else {
                assert(base[k] == s[k]);
            }
        }
    }
    lemma_insert_keeps_ascending(base, id, bytes);
    assert(t == cache_after(s, id, bytes));
    assert forall|i: int| 1 <= i < s.len() implies bytes_lt(s[0].0, #[trigger] s[i].0) by {
        let z = s[0];
        let y = s[i];
        assert(bytes_lt(z.0, y.0));
    }
    if s.len() >= EVIDENCE_CACHE_CAP {
        assert forall|k: int| 0 <= k < t.len() implies (#[trigger] t[k]).0 != s[0].0 by {
            if k == p {
                assert(s[0].0 != id);
            } else {
                let bi = if k < p { k } else { k - 1 };
                assert(t[k] == base[bi]);
                assert(base[bi] == s[bi + 1]);
                assert(bytes_lt(s[0].0, s[bi + 1].0));
                lemma_bytes_lt_irreflexive(s[0].0);
            }
        }
    }
}

proof fn lemma_first_not_below(s: Seq<(Seq<u8>, Seq<u8>)>, id: Seq<u8>, i: int)
    requires
        0 <= i <= s.len(),
    ensures
        i <= first_not_below(s, id, i) <= s.len(),
        forall|j: int| i <= j < first_not_below(s, id, i) ==> bytes_lt((#[trigger] s[j]).0, id),
        first_not_below(s, id, i) < s.len() ==> !bytes_lt(s[first_not_below(s, id, i)].0, id),
    decreases s.len() - i,
{
    if i < s.len() && bytes_lt(s[i].0, id) {
        lemma_first_not_below(s, id, i + 1);
    }
}

impl NodeDoubleSignEvidenceCache {
    #[verifier::type_invariant]
    spec fn well_formed(self) -> bool {
        &&& ids_ascending(cache_entries_view(self.entries@))
        &&& self.entries@.len() <= EVIDENCE_CACHE_CAP
    }

    pub closed spec fn view(&self) -> Seq<(Seq<u8>, Seq<u8>)> {
        cache_entries_view(self.entries@)
    }

    /// An empty cache.
    pub fn new() -> (c: Self)
        ensures
            c.view() == Seq::<(Seq<u8>, Seq<u8>)>::empty(),
    {
        let c = NodeDoubleSignEvidenceCache { entries: Vec::new() };
        assert(c.view() =~= Seq::<(Seq<u8>, Seq<u8>)>::empty());
        c
    }

    /// Takes evidence that passed its checks (`check`) on network `network`:
    /// refused on mainnet or with the failed check's reason, a duplicate
    /// where its id is cached, and otherwise cached as [`cache_after`] says.
    pub fn ingest(&mut self, network: u8, check: Result<(), String>, id: [u8; 32], bytes: Vec<u8>) -> (o:
        GossipOutcome)
        ensures
            ids_ascending(final(self).view()),
            final(self).view().len() <= EVIDENCE_CACHE_CAP,
            o == GossipOutcome::AcceptedNew ==> network != 0 && check is Ok && !has_id(old(self).view(), id@)
                && exists|k: int| 0 <= k < final(self).view().len() && final(self).view()[k] == (id@, bytes@),
            o == GossipOutcome::Duplicate ==> final(self).view() == old(self).view(),
            network == 0 ==> (o matches GossipOutcome::Rejected(m) && m@ == "mainnet hard-off"@
                && final(self).view() == old(self).view()),
            network != 0 ==> match check {
                Err(e) => o == GossipOutcome::Rejected(e) && final(self).view() == old(self).view(),
                Ok(_) => if has_id(old(self).view(), id@) {
                    o == GossipOutcome::Duplicate && final(self).view() == old(self).view()
                } else {
                    o == GossipOutcome::AcceptedNew && final(self).view() == cache_after(
                        old(self).view(),
                        id@,
                        bytes@,
                    )
                },
            },
    {
        proof {
            use_type_invariant(&*self);
        }
        if network == 0 {
            return GossipOutcome::Rejected("mainnet hard-off".to_owned());
        }
        if let Err(e) = check {
            return GossipOutcome::Rejected(e);
        }
        let ghost old_view = self.view();
        let mut i: usize = 0;
        while i < self.entries.len()
            invariant
                i <= self.entries@.len(),
                old_view == cache_entries_view(self.entries@),
                old_view == old(self).view(),
                network != 0,
                check is Ok,
                ids_ascending(old_view),
                self.entries@.len() <= EVIDENCE_CACHE_CAP,
                forall|j: int| 0 <= j < i ==> (#[trigger] self.entries@[j]).0@ != id@,
            decreases self.entries@.len() - i,
        {
            if bytes_equal(self.entries[i].0.as_slice(), id.as_slice()) {
                proof {
                    assert(old_view[i as int].0 == id@);
                }
                return GossipOutcome::Duplicate;
            }
            i = i + 1;
        }
        proof {
            if has_id(old_view, id@) {
                let k = choose|k: int| 0 <= k < old_view.len() && (#[trigger] old_view[k]).0 == id@;
                assert(self.entries@[k].0@ == id@);
            }
        }
        let mut entries = Vec::new();
        std::mem::swap(&mut entries, &mut self.entries);
        assert(entries@.len() <= EVIDENCE_CACHE_CAP);
        if entries.len() >= EVIDENCE_CACHE_CAP {
            entries.remove(0);
            proof {
                assert(cache_entries_view(entries@) =~= old_view.drop_first());
            }
        }
        let ghost base = cache_entries_view(entries@);
        proof {
            assert(ids_ascending(base)) by {
                if old_view.len() >= EVIDENCE_CACHE_CAP {
                    assert forall|a: int, b: int| 0 <= a < b < base.len() implies bytes_lt(
                        (#[trigger] base[a]).0,
                        (#[trigger] base[b]).0,
                    ) by {
                        assert(base[a] == old_view[a + 1] && base[b] == old_view[b + 1]);
                    }
                }
            }
            assert(!has_id(base, id@)) by {
                if has_id(base, id@) {
                    let k = choose|k: int| 0 <= k < base.len() && (#[trigger] base[k]).0 == id@;
                    if old_view.len() >= EVIDENCE_CACHE_CAP {
                        assert(base[k] == old_view[k + 1]);
                    } else {
                        assert(base[k] == old_view[k]);
                    }
                    assert(has_id(old_view, id@));
                }
            }
        }
        let mut p: usize = 0;
        while p < entries.len()
            invariant
                p <= entries@.len(),
                base == cache_entries_view(entries@),
                entries@.len() < EVIDENCE_CACHE_CAP,
                ids_ascending(base),
                !has_id(base, id@),
                first_not_below(base, id@, 0) == first_not_below(base, id@, p as int),
            ensures
                first_not_below(base, id@, 0) == p as int,
                p <= entries@.len(),
            decreases entries@.len() - p,
        {
            if !bytes_less(entries[p].0.as_slice(), id.as_slice()) {
                assert(base[p as int].0 == entries@[p as int].0@);
                break;
            }
            assert(base[p as int].0 == entries@[p as int].0@);
            p = p + 1;
        }
        let ghost bytes_view = bytes@;
        entries.insert(p, (id, bytes));
        proof {
            assert(cache_entries_view(entries@) =~= base.insert(p as int, (id@, bytes_view)));
            lemma_insert_keeps_ascending(base, id@, bytes_view);
            lemma_first_not_below(base, id@, 0);
            lemma_cache_after_effect(old_view, id@, bytes_view);
        }
        *self = NodeDoubleSignEvidenceCache { entries };
        GossipOutcome::AcceptedNew
    }

    /// How many pieces of evidence are cached.
    pub fn len(&self) -> (n: usize)
        ensures
            n == self.view().len(),
            n <= EVIDENCE_CACHE_CAP,
    {
        proof {
            use_type_invariant(self);
        }
        self.entries.len()
    }

    /// Whether nothing is cached.
    pub fn is_empty(&self) -> (b: bool)
        ensures
            b == (self.view().len() == 0),
    {
        self.entries.len() == 0
    }

    /// Empties the cache.
    pub fn clear(&mut self)
        ensures
            final(self).view() == Seq::<(Seq<u8>, Seq<u8>)>::empty(),
    {
        *self = NodeDoubleSignEvidenceCache { entries: Vec::new() };
        assert(self.view() =~= Seq::<(Seq<u8>, Seq<u8>)>::empty());
    }

    /// The cached evidence's wire bytes, in ascending id order.
    pub fn all(&self) -> (v: Vec<Vec<u8>>)
        ensures
            v@.len() == self.view().len(),
            forall|i: int| 0 <= i < v@.len() ==> (#[trigger] v@[i])@ == self.view()[i].1,
    {
        let mut v: Vec<Vec<u8>> = Vec::new();
        let mut i: usize = 0;
        while i < self.entries.len()
            invariant
                i <= self.entries@.len(),
                v@.len() == i,
                forall|j: int| 0 <= j < i ==> (#[trigger] v@[j])@ == self.entries@[j].1@,
            decreases self.entries@.len() - i,
        {
            let mut b: Vec<u8> = Vec::new();
            push_all(&mut b, self.entries[i].1.as_slice());
            v.push(b);
            i = i + 1;
        }
        v
    }
}

} // verus!
