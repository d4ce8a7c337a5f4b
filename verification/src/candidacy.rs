//! On-chain role-candidacy registrations (RCR1): the OP_RETURN codec that
//! carries them, and the mandatory-inclusion set derived from them.
//!
//! A registration carries a role candidate. The candidate's own encoding is
//! its business: here it travels as its wire bytes, together with the two
//! fields that the rules read (its role and its solver's key hash).
use vstd::prelude::*;
use crate::byte_order::{bytes_less, bytes_lt, lemma_bytes_lt_irreflexive, lemma_bytes_lt_total,
    lemma_bytes_lt_transitive};
use crate::wire::{bytes_equal, get_le16, get_le64, le16, le64, push_all, push_le16, push_le64, read_array32,
    read_le16, read_le64, lemma_le16_roundtrip, lemma_le64_roundtrip};

verus! {

/// Magic of a role-candidacy registration output (`irmrcr`).
pub const RCR1_MAGIC: [u8; 6] = [0x69, 0x72, 0x6d, 0x72, 0x63, 0x72];

/// The OP_RETURN opcode.
pub const OP_RETURN: u8 = 0x6a;

/// The OP_PUSHDATA1 opcode.
pub const OP_PUSHDATA1: u8 = 0x4c;

/// The payload of a registration: magic, version 1, target height (8 bytes
/// LE), seed, candidate length (2 bytes LE, truncated to 16 bits), candidate.
pub open spec fn rcr1_payload(target_height: u64, seed: Seq<u8>, candidate: Seq<u8>) -> Seq<u8> {
    RCR1_MAGIC@ + seq![1u8] + le64(target_height) + seed + le16(candidate.len() as u16) + candidate
}

/// The script: OP_RETURN, then the payload pushed directly (under 76 bytes)
/// or with OP_PUSHDATA1; the push length is truncated to 8 bits.
pub open spec fn rcr1_script(target_height: u64, seed: Seq<u8>, candidate: Seq<u8>) -> Seq<u8> {
    let p = rcr1_payload(target_height, seed, candidate);
    let push = if p.len() < 76 {
        seq![p.len() as u8]
    } else {
        seq![OP_PUSHDATA1, p.len() as u8]
    };
    seq![OP_RETURN] + push + p
}

/// Encodes a registration into an OP_RETURN `script_pubkey`; the carrying
/// output's value is the burned fee.
pub fn encode_rcr1_script(target_height: u64, seed: &[u8; 32], candidate: &[u8]) -> (script: Vec<u8>)
    ensures
        script@ == rcr1_script(target_height, seed@, candidate@),
{
    let mut payload: Vec<u8> = Vec::new();
    push_all(&mut payload, RCR1_MAGIC.as_slice());
    payload.push(1u8);
    push_le64(&mut payload, target_height);
    push_all(&mut payload, seed.as_slice());
    push_le16(&mut payload, candidate.len() as u16);
    push_all(&mut payload, candidate);
    assert(payload@ =~= rcr1_payload(target_height, seed@, candidate@));
    let mut script: Vec<u8> = Vec::new();
    script.push(OP_RETURN);
    if payload.len() < 76 {
        script.push(payload.len() as u8);
    } else {
        script.push(OP_PUSHDATA1);
        script.push(payload.len() as u8);
    }
    push_all(&mut script, payload.as_slice());
    script
}

/// Where the payload starts and how long it is, read from the push after
/// OP_RETURN; nothing when the script ends first.
pub open spec fn rcr1_push(script: Seq<u8>) -> Option<(int, int)> {
    if script.len() < 2 {
        None
    } else if script[1] == OP_PUSHDATA1 {
        if script.len() < 3 {
            None
        } else {
            Some((3, script[2] as int))
        }
    } else {
        Some((2, script[1] as int))
    }
}

/// The fields of a registration payload: the target height, the seed and
/// the candidate's bytes; nothing unless it starts with the magic and
/// version 1, holds the fixed fields and the candidate bytes its length
/// announces.
pub open spec fn rcr1_fields(p: Seq<u8>) -> Option<(u64, Seq<u8>, Seq<u8>)> {
    if p.len() < 49 || p.subrange(0, 6) != RCR1_MAGIC@ || p[6] != 1 {
        None
    } else {
        let clen = get_le16(p, 47) as int;
        if 49 + clen > p.len() {
            None
        } else {
            Some((get_le64(p, 7), p.subrange(15, 47), p.subrange(49, 49 + clen)))
        }
    }
}

/// What a script holds as a registration: nothing unless it is OP_RETURN with
/// a complete push, whose payload then gives the fields.
pub open spec fn rcr1_frame(script: Seq<u8>) -> Option<(u64, Seq<u8>, Seq<u8>)> {
    if script.len() == 0 || script[0] != OP_RETURN {
        None
    } else {
        match rcr1_push(script) {
            None => None,
            Some((i, plen)) => if i + plen > script.len() {
                None
            } else {
                rcr1_fields(script.subrange(i, i + plen))
            },
        }
    }
}

/// What a decoded registration script holds, over all scripts: it starts
/// with OP_RETURN (0x6a); the payload starts right after a one-byte push
/// length, or after OP_PUSHDATA1 (0x4c) and its length; the payload begins
/// with `irmrcr` and the version byte 1, and the target height, seed and
/// candidate bytes are read from it (little-endian height at 7, seed at
/// 15..47, candidate after its 16-bit length at 47).
pub proof fn lemma_rcr1_frame_meaning(script: Seq<u8>)
    ensures
        rcr1_frame(script) matches Some((h, seed, c)) ==> {
            let start: int = if script[1] == 0x4c { 3 } else { 2 };
            let plen: int = if script[1] == 0x4c { script[2] as int } else { script[1] as int };
            &&& script[0] == 0x6a
            &&& start + plen <= script.len()
            &&& plen >= 49
            &&& script[start] == 0x69 && script[start + 1] == 0x72 && script[start + 2] == 0x6d
                && script[start + 3] == 0x72 && script[start + 4] == 0x63 && script[start + 5] == 0x72
            &&& script[start + 6] == 1
            &&& h == get_le64(script, start + 7)
            &&& seed == script.subrange(start + 15, start + 47)
            &&& c == script.subrange(start + 49, start + 49 + c.len() as int)
            &&& c.len() == get_le16(script, start + 47)
            &&& 49 + c.len() <= plen
        },
{
    if let Some((h, seed, c)) = rcr1_frame(script) {
        let (i, plen) = rcr1_push(script).unwrap();
        let p = script.subrange(i, i + plen);
        assert(p.subrange(0, 6) == RCR1_MAGIC@);
        assert(p.subrange(0, 6)[0] == script[i] && p.subrange(0, 6)[1] == script[i + 1] && p.subrange(0, 6)[2]
            == script[i + 2] && p.subrange(0, 6)[3] == script[i + 3] && p.subrange(0, 6)[4] == script[i + 4]
            && p.subrange(0, 6)[5] == script[i + 5]);
        assert(p[6] == script[i + 6]);
        assert(get_le64(p, 7) == get_le64(script, i + 7));
        assert(get_le16(p, 47) == get_le16(script, i + 47));
        assert(p.subrange(15, 47) =~= script.subrange(i + 15, i + 47));
        assert(p.subrange(49, 49 + c.len() as int) =~= script.subrange(i + 49, i + 49 + c.len() as int));
    }
}

fn magic_matches(p: &[u8]) -> (b: bool)
    requires
        p@.len() >= 6,
    ensures
        b == (p@.subrange(0, 6) == RCR1_MAGIC@),
{
    let mut i: usize = 0;
    while i < 6
        invariant
            i <= 6 <= p@.len(),
            forall|k: int| 0 <= k < i ==> p@[k] == RCR1_MAGIC@[k],
        decreases 6 - i,
    {
        if p[i] != RCR1_MAGIC[i] {
            assert(p@.subrange(0, 6)[i as int] != RCR1_MAGIC@[i as int]);
            return false;
        }
        i = i + 1;
    }
    assert(p@.subrange(0, 6) =~= RCR1_MAGIC@);
    true
}

fn copy_range(s: &[u8], lo: usize, hi: usize) -> (v: Vec<u8>)
    requires
        lo <= hi <= s@.len(),
    ensures
        v@ == s@.subrange(lo as int, hi as int),
{
    let mut v: Vec<u8> = Vec::new();
    let mut i: usize = lo;
    while i < hi
        invariant
            lo <= i <= hi <= s@.len(),
            v@ == s@.subrange(lo as int, i as int),
        decreases hi - i,
    {
        v.push(s[i]);
        assert(v@ =~= s@.subrange(lo as int, i + 1));
        i = i + 1;
    }
    v
}

/// Reads a registration out of an OP_RETURN script: `(target_height, seed,
/// candidate bytes)`, only where the script is a well-formed RCR1
/// registration. RCR1 is version 1 of the format (the magic `irmrcr` names
/// the role-candidacy registration v1, and the encoder writes 1 into the
/// version byte), so a payload with another version byte is refused. The
/// candidate's own decoding belongs to the candidate type, which this crate
/// does not hold: the caller applies it and refuses a candidate that does
/// not decode.
pub fn decode_rcr1_script(script: &[u8]) -> (r: Option<(u64, [u8; 32], Vec<u8>)>)
    ensures
        match r {
            Some((h, seed, c)) => rcr1_frame(script@) == Some((h, seed@, c@)),
            None => rcr1_frame(script@) is None,
        },
{
    if script.len() == 0 || script[0] != OP_RETURN {
        return None;
    }
    if script.len() < 2 {
        return None;
    }
    let mut i: usize = 1;
    let plen: usize = if script[1] == OP_PUSHDATA1 {
        if script.len() < 3 {
            return None;
        }
        i = 2;
        script[2] as usize
    } else {
        script[1] as usize
    };
    i = i + 1;
    if plen > script.len() - i {
        return None;
    }
    let ghost p = script@.subrange(i as int, i + plen);
    if plen < 49 {
        return None;
    }
    let payload = copy_range(script, i, i + plen);
    if !magic_matches(payload.as_slice()) {
        return None;
    }
    if payload[6] != 1 {
        return None;
    }
    let target_height = read_le64(payload.as_slice(), 7);
    let seed = read_array32(payload.as_slice(), 15);
    let clen = read_le16(payload.as_slice(), 47) as usize;
    if clen > plen - 49 {
        return None;
    }
    let cand = copy_range(payload.as_slice(), 49, 49 + clen);
    Some((target_height, seed, cand))
}

proof fn lemma_rcr1_payload_fields(target_height: u64, seed: Seq<u8>, candidate: Seq<u8>)
    requires
        seed.len() == 32,
        candidate.len() <= 206,
    ensures
        rcr1_payload(target_height, seed, candidate).len() == 49 + candidate.len(),
        rcr1_fields(rcr1_payload(target_height, seed, candidate)) == Some(
            (target_height, seed, candidate),
        ),
{
    let p = rcr1_payload(target_height, seed, candidate);
    let c16 = candidate.len() as u16;
    let h8 = le64(target_height);
    let l2 = le16(c16);
    assert(p =~= RCR1_MAGIC@ + seq![1u8] + h8 + seed + l2 + candidate);
    assert(forall|k: int| 0 <= k < 8 ==> p[7 + k] == #[trigger] h8[k]);
    assert(p[7] == h8[0] && p[8] == h8[1] && p[9] == h8[2] && p[10] == h8[3]);
    assert(p[11] == h8[4] && p[12] == h8[5] && p[13] == h8[6] && p[14] == h8[7]);
    lemma_le64_roundtrip(target_height);
    assert(p[47] == l2[0] && p[48] == l2[1]);
    assert(p[6] == 1u8);
    lemma_le16_roundtrip(c16);
    assert(p.subrange(0, 6) =~= RCR1_MAGIC@);
    assert(p.subrange(15, 47) =~= seed);
    assert(p.subrange(49, 49 + candidate.len() as int) =~= candidate);
}

proof fn lemma_rcr1_push_of(p: Seq<u8>)
    requires
        p.len() <= 255,
    ensures
        ({
            let push = if p.len() < 76 {
                seq![p.len() as u8]
            } else {
                seq![OP_PUSHDATA1, p.len() as u8]
            };
            let s = seq![OP_RETURN] + push + p;
            let i: int = if p.len() < 76 {
                2
            } else {
                3
            };
            &&& s.len() > 0 && s[0] == OP_RETURN
            &&& rcr1_push(s) == Some((i, p.len() as int))
            &&& s.subrange(i, i + p.len()) == p
        }),
{
    let push = if p.len() < 76 {
        seq![p.len() as u8]
    } else {
        seq![OP_PUSHDATA1, p.len() as u8]
    };
    let s = seq![OP_RETURN] + push + p;
    let i: int = if p.len() < 76 {
        2
    } else {
        3
    };
    assert((p.len() as u8) as int == p.len());
    assert(s.subrange(i, i + p.len()) =~= p);
}

/// Decoding gives back what encoding wrote, whenever the payload fits one
/// push (at most 255 bytes, so candidates of at most 206 bytes).
pub proof fn lemma_rcr1_roundtrip(target_height: u64, seed: Seq<u8>, candidate: Seq<u8>)
    requires
        seed.len() == 32,
        candidate.len() <= 206,
    ensures
        rcr1_frame(rcr1_script(target_height, seed, candidate)) == Some((target_height, seed, candidate)),
{
    let p = rcr1_payload(target_height, seed, candidate);
    lemma_rcr1_payload_fields(target_height, seed, candidate);
    lemma_rcr1_push_of(p);
    let s = rcr1_script(target_height, seed, candidate);
    let i: int = if p.len() < 76 {
        2
    } else {
        3
    };
    assert(s.subrange(i, i + p.len()) == p);
}

// ── The mandatory-inclusion set ─────────────────────────────────────────────

/// A role candidate as the registration rules read it: its role, its
/// solver's key hash, and its wire bytes.
#[derive(Debug, Clone)]
pub struct RegisteredCandidate {
    pub role_id: u8,
    pub solver_pkh: [u8; 20],
    pub wire: Vec<u8>,
}

/// A fee-paying, self-registered role candidacy recorded on chain:
/// `fee_burn` is the burned sybil floor, `fee_tip` the recorder's incentive.
#[derive(Debug, Clone)]
pub struct RoleCandidacyRegistration {
    pub recorded_height: u64,
    pub target_height: u64,
    pub seed: [u8; 32],
    pub candidate: RegisteredCandidate,
    pub fee_burn: u64,
    pub fee_tip: u64,
}

/// The candidates a block must include, per contributor role.
#[derive(Debug, Clone)]
pub struct MandatorySet {
    pub compute: Vec<RegisteredCandidate>,
    pub verify: Vec<RegisteredCandidate>,
    pub support: Vec<RegisteredCandidate>,
}

impl Default for MandatorySet {
    fn default() -> (m: MandatorySet)
        ensures
            m.compute@.len() == 0 && m.verify@.len() == 0 && m.support@.len() == 0,
    {
        MandatorySet { compute: Vec::new(), verify: Vec::new(), support: Vec::new() }
    }
}

/// Which registrations count for one role at one height: recorded within
/// `[lo, hi]`, aimed at `height` with its seed, burning at least the floor.
#[derive(Debug, Clone, Copy)]
pub struct BidRule {
    pub height: u64,
    pub seed: [u8; 32],
    pub lo: u64,
    pub hi: u64,
    pub fee_burn_min: u64,
    pub role: u8,
}

/// A registration's bid: burn plus tip, saturating.
pub open spec fn bid_total(r: RoleCandidacyRegistration) -> int {
    if r.fee_burn + r.fee_tip > u64::MAX {
        u64::MAX as int
    } else {
        r.fee_burn + r.fee_tip
    }
}

/// Whether a registration counts under `rule`.
pub open spec fn bid_ok(r: RoleCandidacyRegistration, rule: BidRule) -> bool {
    &&& rule.lo <= r.recorded_height <= rule.hi
    &&& r.target_height == rule.height
    &&& r.seed@ == rule.seed@
    &&& r.fee_burn >= rule.fee_burn_min
    &&& r.candidate.role_id == rule.role
}

pub open spec fn same_solver(a: RoleCandidacyRegistration, b: RoleCandidacyRegistration) -> bool {
    a.candidate.solver_pkh@ == b.candidate.solver_pkh@
}

/// Whether bid `a` beats bid `b`: a higher total, or an equal total and the
/// smaller candidate bytes. Ties are thus broken by the candidate itself.
pub open spec fn outbids(a: RoleCandidacyRegistration, b: RoleCandidacyRegistration) -> bool {
    ||| bid_total(a) > bid_total(b)
    ||| (bid_total(a) == bid_total(b) && bytes_lt(a.candidate.wire@, b.candidate.wire@))
}

/// Whether `recs[x]` is its solver's best bid among the first `n`
/// registrations: it counts, it beats every earlier bid of the solver, and no
/// later one beats it (of bids equal in total and candidate bytes, the first).
pub open spec fn best_among(recs: Seq<RoleCandidacyRegistration>, n: int, x: int, rule: BidRule) -> bool {
    &&& 0 <= x < n <= recs.len()
    &&& bid_ok(recs[x], rule)
    &&& forall|j: int|
        #![trigger recs[j]]
        0 <= j < n && bid_ok(recs[j], rule) && same_solver(recs[j], recs[x]) ==> (j < x ==> outbids(
            recs[x],
            recs[j],
        )) && (x < j ==> !outbids(recs[j], recs[x]))
}

proof fn lemma_outbids_irreflexive(a: RoleCandidacyRegistration)
    ensures
        !outbids(a, a),
{
    lemma_bytes_lt_irreflexive(a.candidate.wire@);
}

proof fn lemma_outbids_transitive(a: RoleCandidacyRegistration, b: RoleCandidacyRegistration, c: RoleCandidacyRegistration)
    requires
        outbids(a, b),
        outbids(b, c),
    ensures
        outbids(a, c),
{
    if bid_total(a) == bid_total(b) && bid_total(b) == bid_total(c) {
        lemma_bytes_lt_transitive(a.candidate.wire@, b.candidate.wire@, c.candidate.wire@);
    }
}

/// Two bids neither of which beats the other are equal in total and bytes.
proof fn lemma_outbids_cases(a: RoleCandidacyRegistration, b: RoleCandidacyRegistration)
    ensures
        outbids(a, b) || outbids(b, a) || (bid_total(a) == bid_total(b) && a.candidate.wire@
            == b.candidate.wire@),
{
    lemma_bytes_lt_total(a.candidate.wire@, b.candidate.wire@);
}

/// A bid that beats `b` beats every bid that does not beat `b`.
proof fn lemma_outbids_past(a: RoleCandidacyRegistration, b: RoleCandidacyRegistration, c: RoleCandidacyRegistration)
    requires
        outbids(a, b),
        !outbids(c, b),
    ensures
        outbids(a, c),
{
    lemma_outbids_cases(b, c);
    if outbids(b, c) {
        lemma_outbids_transitive(a, b, c);
    }
}

fn outbids_exec(a: &RoleCandidacyRegistration, b: &RoleCandidacyRegistration) -> (r: bool)
    ensures
        r == outbids(*a, *b),
{
    let ta = bid_total_exec(a);
    let tb = bid_total_exec(b);
    ta > tb || (ta == tb && bytes_less(a.candidate.wire.as_slice(), b.candidate.wire.as_slice()))
}

/// Whether `recs[x]` is its solver's best bid.
pub open spec fn is_best_bid(recs: Seq<RoleCandidacyRegistration>, x: int, rule: BidRule) -> bool {
    best_among(recs, recs.len() as int, x, rule)
}

fn same_solver_exec(a: &RoleCandidacyRegistration, b: &RoleCandidacyRegistration) -> (r: bool)
    ensures
        r == same_solver(*a, *b),
{
    bytes_equal(a.candidate.solver_pkh.as_slice(), b.candidate.solver_pkh.as_slice())
}

fn bid_ok_exec(r: &RoleCandidacyRegistration, rule: &BidRule) -> (b: bool)
    ensures
        b == bid_ok(*r, *rule),
{
    rule.lo <= r.recorded_height && r.recorded_height <= rule.hi && r.target_height == rule.height
        && bytes_equal(r.seed.as_slice(), rule.seed.as_slice()) && r.fee_burn >= rule.fee_burn_min
        && r.candidate.role_id == rule.role
}

fn bid_total_exec(r: &RoleCandidacyRegistration) -> (t: u64)
    ensures
        t == bid_total(*r),
{
    r.fee_burn.saturating_add(r.fee_tip)
}

/// Two best bids of one solver are the same registration.
proof fn lemma_best_unique(recs: Seq<RoleCandidacyRegistration>, n: int, x: int, y: int, rule: BidRule)
    requires
        best_among(recs, n, x, rule),
        best_among(recs, n, y, rule),
        same_solver(recs[x], recs[y]),
    ensures
        x == y,
{
    if x < y {
        assert(recs[y] == recs[y]);
        assert(outbids(recs[y], recs[x]));
        assert(!outbids(recs[y], recs[x]));
    } else if y < x {
        assert(outbids(recs[x], recs[y]));
        assert(!outbids(recs[x], recs[y]));
    }
}

fn find_solver(recs: &Vec<RoleCandidacyRegistration>, best: &Vec<usize>, x: usize) -> (r: Option<usize>)
    requires
        x < recs@.len(),
        forall|q: int| 0 <= q < best@.len() ==> #[trigger] best@[q] < recs@.len(),
    ensures
        match r {
            Some(k) => k < best@.len() && same_solver(recs@[best@[k as int] as int], recs@[x as int]),
            None => forall|q: int|
                0 <= q < best@.len() ==> !same_solver(recs@[#[trigger] best@[q] as int], recs@[x as int]),
        },
{
    let mut k: usize = 0;
    while k < best.len()
        invariant
            x < recs@.len(),
            k <= best@.len(),
            forall|q: int| 0 <= q < best@.len() ==> #[trigger] best@[q] < recs@.len(),
            forall|q: int| 0 <= q < k ==> !same_solver(recs@[#[trigger] best@[q] as int], recs@[x as int]),
        decreases best@.len() - k,
    {
        if same_solver_exec(&recs[best[k]], &recs[x]) {
            return Some(k);
        }
        k = k + 1;
    }
    None
}

/// Each solver's best bid, one index per solver.
fn best_bids(recs: &Vec<RoleCandidacyRegistration>, rule: &BidRule) -> (best: Vec<usize>)
    ensures
        forall|k: int| 0 <= k < best@.len() ==> is_best_bid(recs@, #[trigger] best@[k] as int, *rule),
        forall|x: int| is_best_bid(recs@, x, *rule) ==> exists|k: int|
            0 <= k < best@.len() && #[trigger] best@[k] as int == x,
        forall|a: int, b: int|
            0 <= a < b < best@.len() ==> !same_solver(recs@[#[trigger] best@[a] as int], recs@[#[trigger] best@[b] as int]),
{
    let n = recs.len();
    let mut best: Vec<usize> = Vec::new();
    let mut i: usize = 0;
    while i < n
        invariant
            n == recs@.len(),
            i <= n,
            forall|k: int| 0 <= k < best@.len() ==> best_among(recs@, i as int, #[trigger] best@[k] as int, *rule),
            forall|j: int|
                0 <= j < i && bid_ok(#[trigger] recs@[j], *rule) ==> exists|k: int|
                    0 <= k < best@.len() && same_solver(recs@[#[trigger] best@[k] as int], recs@[j]),
            forall|a: int, b: int|
                0 <= a < b < best@.len() ==> !same_solver(recs@[#[trigger] best@[a] as int], recs@[#[trigger] best@[b] as int]),
        decreases n - i,
    {
        let ghost old_best = best@;
        let ghost ii = i as int;
        let ok = bid_ok_exec(&recs[i], rule);
        if ok {
            match find_solver(recs, &best, i) {
                Some(k) => {
                    if outbids_exec(&recs[i], &recs[best[k]]) {
                        best.set(k, i);
                        proof {
                            let x = old_best[k as int] as int;
                            assert forall|q: int| 0 <= q < best@.len() implies best_among(
                                recs@,
                                ii + 1,
                                #[trigger] best@[q] as int,
                                *rule,
                            ) by {
                                if q == k {
                                    assert forall|j: int|
                                        #![trigger recs@[j]]
                                        0 <= j < ii + 1 && bid_ok(recs@[j], *rule) && same_solver(
                                            recs@[j],
                                            recs@[ii],
                                        ) implies (j < ii ==> outbids(recs@[ii], recs@[j])) && (ii < j
                                            ==> !outbids(recs@[j], recs@[ii])) by {
                                        if j < ii {
                                            assert(same_solver(recs@[j], recs@[x]));
                                            assert(best_among(recs@, ii, x, *rule));
                                            if j < x {
                                                lemma_outbids_transitive(recs@[ii], recs@[x], recs@[j]);
                                            } else if j > x {
                                                lemma_outbids_past(recs@[ii], recs@[x], recs@[j]);
                                            }
                                        }
                                    }
                                } else {
                                    let y = old_best[q] as int;
                                    assert(best_among(recs@, ii, y, *rule));
                                    if q < k {
                                        assert(!same_solver(recs@[old_best[q] as int], recs@[old_best[k as int] as int]));
                                    } else {
                                        assert(!same_solver(recs@[old_best[k as int] as int], recs@[old_best[q] as int]));
                                    }
                                    assert(!same_solver(recs@[ii], recs@[y]));
                                }
                            }
                            assert forall|j: int|
                                0 <= j < ii + 1 && bid_ok(#[trigger] recs@[j], *rule) implies exists|q: int|
                                    0 <= q < best@.len() && same_solver(recs@[#[trigger] best@[q] as int], recs@[j]) by {
                                if j < ii {
                                    let q0 = choose|q: int|
                                        0 <= q < old_best.len() && same_solver(recs@[#[trigger] old_best[q] as int], recs@[j]);
                                    if q0 == k {
                                        assert(same_solver(recs@[best@[q0] as int], recs@[j]));
                                    } else {
                                        assert(best@[q0] == old_best[q0]);
                                    }
                                } else {
                                    assert(same_solver(recs@[best@[k as int] as int], recs@[j]));
                                }
                            }
                            assert forall|a: int, b: int|
                                0 <= a < b < best@.len() implies !same_solver(
                                    recs@[#[trigger] best@[a] as int],
                                    recs@[#[trigger] best@[b] as int],
                                ) by {
                                if a == k {
                                    assert(!same_solver(recs@[old_best[a] as int], recs@[old_best[b] as int]));
                                } else if b == k {
                                    assert(!same_solver(recs@[old_best[a] as int], recs@[old_best[b] as int]));
                                } else {
                                    assert(!same_solver(recs@[old_best[a] as int], recs@[old_best[b] as int]));
                                }
                            }
                        }
                    } else {
                        proof {
                            assert forall|q: int| 0 <= q < best@.len() implies best_among(
                                recs@,
                                ii + 1,
                                #[trigger] best@[q] as int,
                                *rule,
                            ) by {
                                let y = best@[q] as int;
                                assert(best_among(recs@, ii, y, *rule));
                                if q != k {
                                    if q < k {
                                        assert(!same_solver(recs@[best@[q] as int], recs@[best@[k as int] as int]));
                                    } else {
                                        assert(!same_solver(recs@[best@[k as int] as int], recs@[best@[q] as int]));
                                    }
                                    assert(!same_solver(recs@[ii], recs@[y]));
                                }
                            }
                            assert forall|j: int|
                                0 <= j < ii + 1 && bid_ok(#[trigger] recs@[j], *rule) implies exists|q: int|
                                    0 <= q < best@.len() && same_solver(recs@[#[trigger] best@[q] as int], recs@[j]) by {
                                if j == ii {
                                    assert(same_solver(recs@[best@[k as int] as int], recs@[j]));
                                }
                            }
                        }
                    }
                },
                None => {
                    best.push(i);
                    proof {
                        assert forall|q: int| 0 <= q < best@.len() implies best_among(
                            recs@,
                            ii + 1,
                            #[trigger] best@[q] as int,
                            *rule,
                        ) by {
                            if q < old_best.len() {
                                let y = old_best[q] as int;
                                assert(best_among(recs@, ii, y, *rule));
                                assert(!same_solver(recs@[y], recs@[ii]));
                            } else {
                                assert forall|j: int|
                                    #![trigger recs@[j]]
                                    0 <= j < ii + 1 && bid_ok(recs@[j], *rule) && same_solver(
                                        recs@[j],
                                        recs@[ii],
                                    ) implies (j < ii ==> outbids(recs@[ii], recs@[j])) && (ii < j
                                        ==> !outbids(recs@[j], recs@[ii])) by {
                                    if j < ii {
                                        let q0 = choose|q: int|
                                            0 <= q < old_best.len() && same_solver(recs@[#[trigger] old_best[q] as int], recs@[j]);
                                        assert(!same_solver(recs@[old_best[q0] as int], recs@[ii]));
                                    }
                                }
                            }
                        }
                        assert forall|j: int|
                            0 <= j < ii + 1 && bid_ok(#[trigger] recs@[j], *rule) implies exists|q: int|
                                0 <= q < best@.len() && same_solver(recs@[#[trigger] best@[q] as int], recs@[j]) by {
                            if j < ii {
                                let q0 = choose|q: int|
                                    0 <= q < old_best.len() && same_solver(recs@[#[trigger] old_best[q] as int], recs@[j]);
                                assert(best@[q0] == old_best[q0]);
                            } else {
                                assert(best@[old_best.len() as int] == i);
                            }
                        }
                        assert forall|a: int, b: int|
                            0 <= a < b < best@.len() implies !same_solver(
                                recs@[#[trigger] best@[a] as int],
                                recs@[#[trigger] best@[b] as int],
                            ) by {
                            if b == old_best.len() {
                                assert(!same_solver(recs@[old_best[a] as int], recs@[ii]));
                            } else {
                                assert(!same_solver(recs@[old_best[a] as int], recs@[old_best[b] as int]));
                            }
                        }
                    }
                },
            }
        } else {
            proof {
                assert forall|q: int| 0 <= q < best@.len() implies best_among(
                    recs@,
                    ii + 1,
                    #[trigger] best@[q] as int,
                    *rule,
                ) by {
                    assert(best_among(recs@, ii, best@[q] as int, *rule));
                }
            }
        }
        i = i + 1;
    }
    proof {
        assert forall|x: int| is_best_bid(recs@, x, *rule) implies exists|k: int|
            0 <= k < best@.len() && #[trigger] best@[k] as int == x by {
            assert(bid_ok(recs@[x], *rule));
            let k0 = choose|k: int| 0 <= k < best@.len() && same_solver(recs@[#[trigger] best@[k] as int], recs@[x]);
            assert(best_among(recs@, n as int, best@[k0] as int, *rule));
            lemma_best_unique(recs@, n as int, best@[k0] as int, x, *rule);
        }
    }
    best
}

/// Whether `a` ranks ahead of `b`: a higher bid, or an equal bid and the
/// smaller solver key hash.
pub open spec fn ranks_before(a: RoleCandidacyRegistration, b: RoleCandidacyRegistration) -> bool {
    ||| bid_total(a) > bid_total(b)
    ||| (bid_total(a) == bid_total(b) && bytes_lt(a.candidate.solver_pkh@, b.candidate.solver_pkh@))
}

proof fn lemma_rank_irreflexive(a: RoleCandidacyRegistration)
    ensures
        !ranks_before(a, a),
{
    lemma_bytes_lt_irreflexive(a.candidate.solver_pkh@);
}

proof fn lemma_rank_transitive(a: RoleCandidacyRegistration, b: RoleCandidacyRegistration, c: RoleCandidacyRegistration)
    requires
        ranks_before(a, b),
        ranks_before(b, c),
    ensures
        ranks_before(a, c),
{
    if bid_total(a) == bid_total(b) && bid_total(b) == bid_total(c) {
        lemma_bytes_lt_transitive(a.candidate.solver_pkh@, b.candidate.solver_pkh@, c.candidate.solver_pkh@);
    }
}

proof fn lemma_rank_total(a: RoleCandidacyRegistration, b: RoleCandidacyRegistration)
    requires
        !same_solver(a, b),
    ensures
        ranks_before(a, b) || ranks_before(b, a),
{
    lemma_bytes_lt_total(a.candidate.solver_pkh@, b.candidate.solver_pkh@);
}

fn ranks_ahead(a: &RoleCandidacyRegistration, b: &RoleCandidacyRegistration) -> (r: bool)
    ensures
        r == ranks_before(*a, *b),
{
    let ta = bid_total_exec(a);
    let tb = bid_total_exec(b);
    ta > tb || (ta == tb && bytes_less(a.candidate.solver_pkh.as_slice(), b.candidate.solver_pkh.as_slice()))
}

/// The bids of `best`, ranked.
fn rank_bids(recs: &Vec<RoleCandidacyRegistration>, best: &Vec<usize>) -> (ranked: Vec<usize>)
    requires
        forall|q: int| 0 <= q < best@.len() ==> #[trigger] best@[q] < recs@.len(),
        forall|a: int, b: int|
            0 <= a < b < best@.len() ==> !same_solver(recs@[#[trigger] best@[a] as int], recs@[#[trigger] best@[b] as int]),
    ensures
        ranked@.len() == best@.len(),
        forall|x: usize| ranked@.contains(x) <==> best@.contains(x),
        forall|a: int, b: int|
            0 <= a < b < ranked@.len() ==> ranks_before(recs@[#[trigger] ranked@[a] as int], recs@[#[trigger] ranked@[b] as int]),
{
    let mut ranked: Vec<usize> = Vec::new();
    let mut k: usize = 0;
    while k < best.len()
        invariant
            k <= best@.len(),
            ranked@.len() == k,
            forall|q: int| 0 <= q < best@.len() ==> #[trigger] best@[q] < recs@.len(),
            forall|a: int, b: int|
                0 <= a < b < best@.len() ==> !same_solver(recs@[#[trigger] best@[a] as int], recs@[#[trigger] best@[b] as int]),
            forall|x: usize| ranked@.contains(x) <==> best@.take(k as int).contains(x),
            forall|a: int, b: int|
                0 <= a < b < ranked@.len() ==> ranks_before(recs@[#[trigger] ranked@[a] as int], recs@[#[trigger] ranked@[b] as int]),
        decreases best@.len() - k,
    {
        let e = best[k];
        let ghost s = ranked@;
        let ghost re = recs@[e as int];
        assert forall|q: int| 0 <= q < s.len() implies #[trigger] s[q] < recs@.len() && !same_solver(recs@[s[q] as int], re) by {
            assert(s.contains(s[q]));
            assert(best@.take(k as int).contains(s[q]));
            let w = choose|w: int| 0 <= w < k && #[trigger] best@.take(k as int)[w] == s[q];
            assert(best@[w] == s[q]);
        }
        let mut p: usize = 0;
        while p < ranked.len() && !ranks_ahead(&recs[e], &recs[ranked[p]])
            invariant
                p <= ranked@.len(),
                s == ranked@,
                e < recs@.len(),
                re == recs@[e as int],
                forall|q: int| 0 <= q < s.len() ==> #[trigger] s[q] < recs@.len() && !same_solver(recs@[s[q] as int], re),
                forall|q: int| 0 <= q < p ==> ranks_before(recs@[#[trigger] s[q] as int], re),
            decreases ranked@.len() - p,
        {
            proof {
                lemma_rank_total(recs@[s[p as int] as int], re);
            }
            p = p + 1;
        }
        ranked.insert(p, e);
        proof {
            let t = ranked@;
            assert(t =~= s.insert(p as int, e));
            assert forall|a: int, b: int|
                0 <= a < b < t.len() implies ranks_before(recs@[#[trigger] t[a] as int], recs@[#[trigger] t[b] as int]) by {
                if b < p {
                    assert(t[a] == s[a] && t[b] == s[b]);
                } else if b == p {
                    assert(t[a] == s[a]);
                } else if a == p {
                    assert(p < s.len());
                    assert(ranks_before(re, recs@[s[p as int] as int]));
                    if b - 1 > p {
                        assert(ranks_before(recs@[s[p as int] as int], recs@[s[b - 1] as int]));
                        lemma_rank_transitive(re, recs@[s[p as int] as int], recs@[s[b - 1] as int]);
                    }
                } else if a < p {
                    assert(t[a] == s[a] && t[b] == s[b - 1]);
                } else {
                    assert(t[a] == s[a - 1] && t[b] == s[b - 1]);
                }
            }
            assert(best@.take(k + 1) =~= best@.take(k as int).push(e));
            assert forall|x: usize| t.contains(x) <==> best@.take(k + 1).contains(x) by {
                if t.contains(x) {
                    let w = choose|w: int| 0 <= w < t.len() && #[trigger] t[w] == x;
                    if w < p {
                        assert(s[w] == x && s.contains(x));
                    } else if w > p {
                        assert(s[w - 1] == x && s.contains(x));
                    }
                    assert(best@.take(k + 1)[k as int] == e);
                    if x != e {
                        assert(best@.take(k as int).contains(x));
                        let w2 = choose|w2: int| 0 <= w2 < k && #[trigger] best@.take(k as int)[w2] == x;
                        assert(best@.take(k + 1)[w2] == x);
                    }
                }
                if best@.take(k + 1).contains(x) {
                    let w = choose|w: int| 0 <= w < k + 1 && #[trigger] best@.take(k + 1)[w] == x;
                    if w == k {
                        assert(t[p as int] == x);
                    } else {
                        assert(best@.take(k as int)[w] == x);
                        assert(s.contains(x));
                        let w2 = choose|w2: int| 0 <= w2 < s.len() && #[trigger] s[w2] == x;
                        if w2 < p {
                            assert(t[w2] == x);
                        } else {
                            assert(t[w2 + 1] == x);
                        }
                    }
                }
            }
        }
        k = k + 1;
    }
    assert(best@.take(best@.len() as int) =~= best@);
    ranked
}

/// Whether `idx` lists every solver's best bid, once each, in rank order.
pub open spec fn is_ranking(recs: Seq<RoleCandidacyRegistration>, idx: Seq<int>, rule: BidRule) -> bool {
    &&& forall|k: int| 0 <= k < idx.len() ==> is_best_bid(recs, #[trigger] idx[k], rule)
    &&& forall|x: int| is_best_bid(recs, x, rule) ==> idx.contains(x)
    &&& forall|a: int, b: int|
        0 <= a < b < idx.len() ==> ranks_before(recs[#[trigger] idx[a]], recs[#[trigger] idx[b]])
}

/// Whether two candidates hold the same role, solver and bytes.
pub open spec fn same_candidate(c: RegisteredCandidate, d: RegisteredCandidate) -> bool {
    c.role_id == d.role_id && c.solver_pkh@ == d.solver_pkh@ && c.wire@ == d.wire@
}

/// Whether `out` holds the candidates of the first `cap` bids of `idx`.
pub open spec fn top_of_ranking(
    recs: Seq<RoleCandidacyRegistration>,
    idx: Seq<int>,
    cap: usize,
    out: Seq<RegisteredCandidate>,
) -> bool {
    &&& out.len() == (if idx.len() < cap {
        idx.len()
    } else {
        cap as nat
    })
    &&& forall|k: int| 0 <= k < out.len() ==> same_candidate(#[trigger] out[k], recs[idx[k]].candidate)
}

/// Whether `out` is the eligible list for `rule`: the candidates of the
/// `cap` best-ranked solvers, each with its best bid.
pub open spec fn eligible_list(
    recs: Seq<RoleCandidacyRegistration>,
    rule: BidRule,
    cap: usize,
    out: Seq<RegisteredCandidate>,
) -> bool {
    exists|idx: Seq<int>| is_ranking(recs, idx, rule) && top_of_ranking(recs, idx, cap, out)
}

fn copy_candidate(c: &RegisteredCandidate) -> (d: RegisteredCandidate)
    ensures
        same_candidate(d, *c),
{
    RegisteredCandidate {
        role_id: c.role_id,
        solver_pkh: c.solver_pkh,
        wire: vstd::slice::slice_to_vec(c.wire.as_slice()),
    }
}

/// The eligible candidates for one role: each solver's best bid among the
/// registrations that count under `rule`, ranked by bid (then solver key
/// hash), the first `cap` of them.
pub fn eligible_for_role(records: &Vec<RoleCandidacyRegistration>, rule: &BidRule, cap: usize) -> (out: Vec<
    RegisteredCandidate,
>)
    ensures
        eligible_list(records@, *rule, cap, out@),
{
    let best = best_bids(records, rule);
    let ranked = rank_bids(records, &best);
    let ghost idx = ranked@.map_values(|u: usize| u as int);
    assert forall|q: int| 0 <= q < ranked@.len() implies #[trigger] ranked@[q] < records@.len() by {
        assert(ranked@.contains(ranked@[q]));
        let w = choose|w: int| 0 <= w < best@.len() && #[trigger] best@[w] == ranked@[q];
        assert(is_best_bid(records@, best@[w] as int, *rule));
    }
    let n = if ranked.len() < cap {
        ranked.len()
    } else {
        cap
    };
    let mut out: Vec<RegisteredCandidate> = Vec::new();
    let mut k: usize = 0;
    while k < n
        invariant
            n <= ranked@.len(),
            k <= n,
            out@.len() == k,
            forall|q: int| 0 <= q < ranked@.len() ==> #[trigger] ranked@[q] < records@.len(),
            forall|q: int| 0 <= q < k ==> same_candidate(#[trigger] out@[q], records@[ranked@[q] as int].candidate),
        decreases n - k,
    {
        let c = copy_candidate(&records[ranked[k]].candidate);
        out.push(c);
        k = k + 1;
    }
    proof {
        assert forall|k: int| 0 <= k < idx.len() implies is_best_bid(records@, #[trigger] idx[k], *rule) by {
            assert(best@.contains(ranked@[k]));
            let w = choose|w: int| 0 <= w < best@.len() && #[trigger] best@[w] == ranked@[k];
            assert(is_best_bid(records@, best@[w] as int, *rule));
        }
        assert forall|x: int| is_best_bid(records@, x, *rule) implies idx.contains(x) by {
            let w = choose|w: int| 0 <= w < best@.len() && #[trigger] best@[w] as int == x;
            assert(best@.contains(best@[w]));
            assert(ranked@.contains(best@[w]));
            let v = choose|v: int| 0 <= v < ranked@.len() && #[trigger] ranked@[v] == best@[w];
            assert(idx[v] == x);
        }
        assert forall|a: int, b: int| 0 <= a < b < idx.len() implies ranks_before(
            records@[#[trigger] idx[a]],
            records@[#[trigger] idx[b]],
        ) by {
            assert(ranks_before(records@[ranked@[a] as int], records@[ranked@[b] as int]));
        }
        assert(is_ranking(records@, idx, *rule));
        assert(top_of_ranking(records@, idx, cap, out@));
    }
    out
}

/// Two rankings of the same bids are the same: the rank order decides it.
pub proof fn lemma_ranking_unique(recs: Seq<RoleCandidacyRegistration>, a: Seq<int>, b: Seq<int>, rule: BidRule)
    requires
        is_ranking(recs, a, rule),
        is_ranking(recs, b, rule),
    ensures
        a == b,
{
    lemma_sorted_same_contents(recs, a, b);
}

proof fn lemma_sorted_same_contents(recs: Seq<RoleCandidacyRegistration>, a: Seq<int>, b: Seq<int>)
    requires
        forall|i: int, j: int| 0 <= i < j < a.len() ==> ranks_before(recs[#[trigger] a[i]], recs[#[trigger] a[j]]),
        forall|i: int, j: int| 0 <= i < j < b.len() ==> ranks_before(recs[#[trigger] b[i]], recs[#[trigger] b[j]]),
        forall|x: int| a.contains(x) <==> b.contains(x),
    ensures
        a == b,
    decreases a.len(),
{
    if a.len() == 0 {
        if b.len() > 0 {
            assert(b.contains(b[0]));
        }
        assert(b =~= a);
    } else {
        assert(a.contains(a[0]));
        assert(b.len() > 0);
        assert(b.contains(b[0]));
        if a[0] != b[0] {
            let i = choose|i: int| 0 <= i < a.len() && a[i] == b[0];
            let j = choose|j: int| 0 <= j < b.len() && b[j] == a[0];
            assert(i > 0 && j > 0);
            assert(ranks_before(recs[a[0]], recs[a[i]]));
            assert(ranks_before(recs[b[0]], recs[b[j]]));
            lemma_rank_transitive(recs[a[0]], recs[b[0]], recs[a[0]]);
            lemma_rank_irreflexive(recs[a[0]]);
        }
        let ta = a.drop_first();
        let tb = b.drop_first();
        assert forall|x: int| ta.contains(x) <==> tb.contains(x) by {
            if ta.contains(x) {
                let i = choose|i: int| 0 <= i < ta.len() && ta[i] == x;
                assert(a[i + 1] == x);
                assert(ranks_before(recs[a[0]], recs[a[i + 1]]));
                lemma_rank_irreflexive(recs[x]);
                assert(a.contains(x));
                let j = choose|j: int| 0 <= j < b.len() && b[j] == x;
                assert(j != 0);
                assert(tb[j - 1] == x);
            }
            if tb.contains(x) {
                let i = choose|i: int| 0 <= i < tb.len() && tb[i] == x;
                assert(b[i + 1] == x);
                assert(ranks_before(recs[b[0]], recs[b[i + 1]]));
                lemma_rank_irreflexive(recs[x]);
                assert(b.contains(x));
                let j = choose|j: int| 0 <= j < a.len() && a[j] == x;
                assert(j != 0);
                assert(ta[j - 1] == x);
            }
        }
        assert forall|i: int, j: int| 0 <= i < j < ta.len() implies ranks_before(recs[#[trigger] ta[i]], recs[#[trigger] ta[j]]) by {
            assert(ta[i] == a[i + 1] && ta[j] == a[j + 1]);
        }
        assert forall|i: int, j: int| 0 <= i < j < tb.len() implies ranks_before(recs[#[trigger] tb[i]], recs[#[trigger] tb[j]]) by {
            assert(tb[i] == b[i + 1] && tb[j] == b[j + 1]);
        }
        lemma_sorted_same_contents(recs, ta, tb);
        assert(a =~= seq![a[0]] + ta);
        assert(b =~= seq![b[0]] + tb);
    }
}

/// `a - b`, not below 0.
pub open spec fn sat_sub(a: u64, b: u64) -> u64 {
    if a >= b {
        (a - b) as u64
    } else {
        0
    }
}

/// The rule for one role at `height`: registrations recorded within
/// `[height - lead_window, height - settle_depth]` (each not below 0).
pub open spec fn settle_rule(
    height: u64,
    seed: [u8; 32],
    lead_window: u64,
    settle_depth: u64,
    fee_burn_min: u64,
    role: u8,
) -> BidRule {
    BidRule {
        height,
        seed,
        lo: sat_sub(height, lead_window),
        hi: sat_sub(height, settle_depth),
        fee_burn_min,
        role,
    }
}

/// The canonical eligible (mandatory) set for `height`, from on-chain
/// registrations alone: per contributor role (`roles` holds the role ids of
/// compute, verify and support, in that order), the eligible list of
/// `eligible_for_role` with at most `cap_per_role` candidates.
pub fn canonical_eligible_set(
    records: &Vec<RoleCandidacyRegistration>,
    height: u64,
    seed: &[u8; 32],
    lead_window: u64,
    settle_depth: u64,
    cap_per_role: usize,
    fee_burn_min: u64,
    roles: [u8; 3],
) -> (m: MandatorySet)
    ensures
        eligible_list(
            records@,
            settle_rule(height, *seed, lead_window, settle_depth, fee_burn_min, roles[0]),
            cap_per_role,
            m.compute@,
        ),
        eligible_list(
            records@,
            settle_rule(height, *seed, lead_window, settle_depth, fee_burn_min, roles[1]),
            cap_per_role,
            m.verify@,
        ),
        eligible_list(
            records@,
            settle_rule(height, *seed, lead_window, settle_depth, fee_burn_min, roles[2]),
            cap_per_role,
            m.support@,
        ),
{
    let lo = height.saturating_sub(lead_window);
    let hi = height.saturating_sub(settle_depth);
    let compute = eligible_for_role(
        records,
        &BidRule { height, seed: *seed, lo, hi, fee_burn_min, role: roles[0] },
        cap_per_role,
    );
    let verify = eligible_for_role(
        records,
        &BidRule { height, seed: *seed, lo, hi, fee_burn_min, role: roles[1] },
        cap_per_role,
    );
    let support = eligible_for_role(
        records,
        &BidRule { height, seed: *seed, lo, hi, fee_burn_min, role: roles[2] },
        cap_per_role,
    );
    MandatorySet { compute, verify, support }
}

/// A block that left out an eligible candidate: the role and its solver.
#[derive(Debug, Clone, Copy, PartialEq, Eq)]
pub struct InclusionError {
    pub role: u8,
    pub solver_pkh: [u8; 20],
}

/// Whether the block's candidates hold one for `role` by the solver `pkh`.
pub open spec fn includes(cs: Seq<RegisteredCandidate>, role: u8, pkh: Seq<u8>) -> bool {
    exists|i: int| 0 <= i < cs.len() && #[trigger] cs[i].role_id == role && cs[i].solver_pkh@ == pkh
}

/// The first candidate of `needed` that the block does not include, if any.
pub open spec fn first_omitted(cs: Seq<RegisteredCandidate>, role: u8, needed: Seq<RegisteredCandidate>) -> Option<int>
    decreases needed.len(),
{
    if needed.len() == 0 {
        None
    } else if !includes(cs, role, needed[0].solver_pkh@) {
        Some(0)
    } else {
        match first_omitted(cs, role, needed.drop_first()) {
            Some(k) => Some(k + 1),
            None => None,
        }
    }
}

/// The role and solver of the first required candidate the block left out,
/// looking at compute, then verify, then support; nothing when none is.
pub open spec fn first_left_out(cs: Seq<RegisteredCandidate>, req: MandatorySet, roles: [u8; 3]) -> Option<(u8, Seq<u8>)> {
    match first_omitted(cs, roles[0], req.compute@) {
        Some(k) => Some((roles[0], req.compute@[k].solver_pkh@)),
        None => match first_omitted(cs, roles[1], req.verify@) {
            Some(k) => Some((roles[1], req.verify@[k].solver_pkh@)),
            None => match first_omitted(cs, roles[2], req.support@) {
                Some(k) => Some((roles[2], req.support@[k].solver_pkh@)),
                None => None,
            },
        },
    }
}

fn includes_exec(cs: &Vec<RegisteredCandidate>, role: u8, pkh: &[u8; 20]) -> (b: bool)
    ensures
        b == includes(cs@, role, pkh@),
{
    let mut i: usize = 0;
    while i < cs.len()
        invariant
            i <= cs@.len(),
            forall|q: int| 0 <= q < i ==> !(#[trigger] cs@[q].role_id == role && cs@[q].solver_pkh@ == pkh@),
        decreases cs@.len() - i,
    {
        if cs[i].role_id == role && bytes_equal(cs[i].solver_pkh.as_slice(), pkh.as_slice()) {
            return true;
        }
        i = i + 1;
    }
    false
}

fn first_omitted_exec(cs: &Vec<RegisteredCandidate>, role: u8, needed: &Vec<RegisteredCandidate>) -> (r: Option<usize>)
    ensures
        match r {
            Some(k) => first_omitted(cs@, role, needed@) == Some(k as int) && k < needed@.len(),
            None => first_omitted(cs@, role, needed@) is None,
        },
{
    let mut k: usize = 0;
    assert(needed@.skip(0) =~= needed@);
    while k < needed.len()
        invariant
            k <= needed@.len(),
            first_omitted(cs@, role, needed@) == match first_omitted(cs@, role, needed@.skip(k as int)) {
                Some(j) => Some(j + k),
                None => None::<int>,
            },
        decreases needed@.len() - k,
    {
        assert(needed@.skip(k as int).drop_first() =~= needed@.skip(k + 1));
        assert(needed@.skip(k as int)[0] == needed@[k as int]);
        if !includes_exec(cs, role, &needed[k].solver_pkh) {
            return Some(k);
        }
        k = k + 1;
    }
    None
}

/// The mandatory-inclusion rule: the block's committed candidates `cs` must
/// hold, for every contributor role, every candidate of the canonical
/// eligible set (matched by role and solver).
pub fn enforce_mandatory_inclusion(cs: &Vec<RegisteredCandidate>, req: &MandatorySet, roles: [u8; 3]) -> (r: Result<(), InclusionError>)
    ensures
        match first_left_out(cs@, *req, roles) {
            None => r is Ok,
            Some((role, pkh)) => r matches Err(e) && e.role == role && e.solver_pkh@ == pkh,
        },
{
    match first_omitted_exec(cs, roles[0], &req.compute) {
        Some(k) => {
            return Err(InclusionError { role: roles[0], solver_pkh: req.compute[k].solver_pkh });
        },
        None => {},
    }
    match first_omitted_exec(cs, roles[1], &req.verify) {
        Some(k) => {
            return Err(InclusionError { role: roles[1], solver_pkh: req.verify[k].solver_pkh });
        },
        None => {},
    }
    match first_omitted_exec(cs, roles[2], &req.support) {
        Some(k) => {
            return Err(InclusionError { role: roles[2], solver_pkh: req.support[k].solver_pkh });
        },
        None => {},
    }
    Ok(())
}

// ── Independence from the order of the records ──────────────────────────────

/// A bid as the ranking sees it: its total, its solver and its candidate bytes.
pub open spec fn bid_key(r: RoleCandidacyRegistration) -> (int, Seq<u8>, Seq<u8>) {
    (bid_total(r), r.candidate.solver_pkh@, r.candidate.wire@)
}

/// Rank order on keys: a higher total, or an equal total and the smaller
/// solver key hash.
pub open spec fn key_before(a: (int, Seq<u8>, Seq<u8>), b: (int, Seq<u8>, Seq<u8>)) -> bool {
    a.0 > b.0 || (a.0 == b.0 && bytes_lt(a.1, b.1))
}

/// Whether bid `r` beats a bid with key `k` (as `outbids` compares bids).
pub open spec fn beats_key(r: RoleCandidacyRegistration, k: (int, Seq<u8>, Seq<u8>)) -> bool {
    bid_total(r) > k.0 || (bid_total(r) == k.0 && bytes_lt(r.candidate.wire@, k.2))
}

/// Whether `k` is the top bid of its solver among the registrations that
/// count: one of them has this key and none beats it. It does not depend
/// on the order of `recs`.
pub open spec fn top_bid(recs: Seq<RoleCandidacyRegistration>, rule: BidRule, k: (int, Seq<u8>, Seq<u8>)) -> bool {
    &&& exists|j: int|
        0 <= j < recs.len() && bid_ok(#[trigger] recs[j], rule) && bid_key(recs[j]) == k
    &&& forall|j: int|
        0 <= j < recs.len() && bid_ok(#[trigger] recs[j], rule) && recs[j].candidate.solver_pkh@ == k.1
            ==> !beats_key(recs[j], k)
}

proof fn lemma_best_is_top(recs: Seq<RoleCandidacyRegistration>, rule: BidRule, x: int)
    requires
        is_best_bid(recs, x, rule),
    ensures
        top_bid(recs, rule, bid_key(recs[x])),
{
    let k = bid_key(recs[x]);
    assert(bid_ok(recs[x], rule) && bid_key(recs[x]) == k);
    assert forall|j: int|
        0 <= j < recs.len() && bid_ok(#[trigger] recs[j], rule) && recs[j].candidate.solver_pkh@
            == k.1 implies !beats_key(recs[j], k) by {
        assert(same_solver(recs[j], recs[x]));
        if j < x {
            assert(outbids(recs[x], recs[j]));
            if beats_key(recs[j], k) {
                assert(outbids(recs[j], recs[x]));
                lemma_outbids_transitive(recs[x], recs[j], recs[x]);
                lemma_outbids_irreflexive(recs[x]);
            }
        } else if j > x {
            assert(!outbids(recs[j], recs[x]));
        } else {
            lemma_outbids_irreflexive(recs[x]);
        }
    }
}

/// The first registration (below `n`) that counts and has key `k`.
proof fn lemma_first_with_key(recs: Seq<RoleCandidacyRegistration>, rule: BidRule, k: (int, Seq<u8>, Seq<u8>), n: int) -> (f: int)
    requires
        0 <= n <= recs.len(),
        exists|j: int| 0 <= j < n && bid_ok(#[trigger] recs[j], rule) && bid_key(recs[j]) == k,
    ensures
        0 <= f < n,
        bid_ok(recs[f], rule) && bid_key(recs[f]) == k,
        forall|j: int| 0 <= j < f ==> !(bid_ok(#[trigger] recs[j], rule) && bid_key(recs[j]) == k),
    decreases n,
{
    if exists|j: int| 0 <= j < n - 1 && bid_ok(#[trigger] recs[j], rule) && bid_key(recs[j]) == k {
        lemma_first_with_key(recs, rule, k, n - 1)
    } else {
        let j = choose|j: int| 0 <= j < n && bid_ok(#[trigger] recs[j], rule) && bid_key(recs[j]) == k;
        assert(j == n - 1);
        n - 1
    }
}

proof fn lemma_top_has_best(recs: Seq<RoleCandidacyRegistration>, rule: BidRule, k: (int, Seq<u8>, Seq<u8>)) -> (x: int)
    requires
        top_bid(recs, rule, k),
    ensures
        is_best_bid(recs, x, rule),
        bid_key(recs[x]) == k,
{
    let x = lemma_first_with_key(recs, rule, k, recs.len() as int);
    assert forall|j: int|
        #![trigger recs[j]]
        0 <= j < recs.len() && bid_ok(recs[j], rule) && same_solver(recs[j], recs[x]) implies (j < x
            ==> outbids(recs[x], recs[j])) && (x < j ==> !outbids(recs[j], recs[x])) by {
        assert(!beats_key(recs[j], k));
        if j < x {
            lemma_outbids_cases(recs[x], recs[j]);
            if !outbids(recs[x], recs[j]) {
                assert(!(bid_ok(recs[j], rule) && bid_key(recs[j]) == k));
                assert(bid_key(recs[j]) =~= k);
            }
        }
    }
    x
}

proof fn lemma_top_bid_permutation(
    r1: Seq<RoleCandidacyRegistration>,
    r2: Seq<RoleCandidacyRegistration>,
    rule: BidRule,
    k: (int, Seq<u8>, Seq<u8>),
)
    requires
        r1.to_multiset() == r2.to_multiset(),
        top_bid(r1, rule, k),
    ensures
        top_bid(r2, rule, k),
{
    r1.to_multiset_ensures();
    r2.to_multiset_ensures();
    let j1 = choose|j: int| 0 <= j < r1.len() && bid_ok(#[trigger] r1[j], rule) && bid_key(r1[j]) == k;
    assert(r1.contains(r1[j1]));
    assert(r1.to_multiset().count(r1[j1]) > 0);
    assert(r2.to_multiset().count(r1[j1]) > 0);
    assert(r2.contains(r1[j1]));
    let j2 = choose|j: int| 0 <= j < r2.len() && r2[j] == r1[j1];
    assert(bid_ok(r2[j2], rule) && bid_key(r2[j2]) == k);
    assert forall|j: int|
        0 <= j < r2.len() && bid_ok(#[trigger] r2[j], rule) && r2[j].candidate.solver_pkh@ == k.1
            implies !beats_key(r2[j], k) by {
        assert(r2.contains(r2[j]));
        assert(r2.to_multiset().count(r2[j]) > 0);
        assert(r1.to_multiset().count(r2[j]) > 0);
        assert(r1.contains(r2[j]));
        let i = choose|i: int| 0 <= i < r1.len() && r1[i] == r2[j];
        assert(bid_ok(r1[i], rule));
    }
}

proof fn lemma_sorted_keys_unique(a: Seq<(int, Seq<u8>, Seq<u8>)>, b: Seq<(int, Seq<u8>, Seq<u8>)>)
    requires
        forall|i: int, j: int| 0 <= i < j < a.len() ==> key_before(#[trigger] a[i], #[trigger] a[j]),
        forall|i: int, j: int| 0 <= i < j < b.len() ==> key_before(#[trigger] b[i], #[trigger] b[j]),
        forall|x: (int, Seq<u8>, Seq<u8>)| a.contains(x) <==> b.contains(x),
    ensures
        a == b,
    decreases a.len(),
{
    if a.len() == 0 {
        if b.len() > 0 {
            assert(b.contains(b[0]));
        }
        assert(b =~= a);
    } else {
        assert(a.contains(a[0]));
        assert(b.contains(b[0]));
        if a[0] != b[0] {
            let i = choose|i: int| 0 <= i < a.len() && a[i] == b[0];
            let j = choose|j: int| 0 <= j < b.len() && b[j] == a[0];
            assert(key_before(a[0], a[i]));
            assert(key_before(b[0], b[j]));
            if a[0].0 == b[0].0 {
                lemma_bytes_lt_transitive(a[0].1, b[0].1, a[0].1);
            }
            lemma_bytes_lt_irreflexive(a[0].1);
        }
        let ta = a.drop_first();
        let tb = b.drop_first();
        assert forall|x: (int, Seq<u8>, Seq<u8>)| ta.contains(x) <==> tb.contains(x) by {
            if ta.contains(x) {
                let i = choose|i: int| 0 <= i < ta.len() && ta[i] == x;
                assert(key_before(a[0], a[i + 1]));
                lemma_bytes_lt_irreflexive(x.1);
                assert(a.contains(x));
                let j = choose|j: int| 0 <= j < b.len() && b[j] == x;
                assert(tb[j - 1] == x);
            }
            if tb.contains(x) {
                let i = choose|i: int| 0 <= i < tb.len() && tb[i] == x;
                assert(key_before(b[0], b[i + 1]));
                lemma_bytes_lt_irreflexive(x.1);
                assert(b.contains(x));
                let j = choose|j: int| 0 <= j < a.len() && a[j] == x;
                assert(ta[j - 1] == x);
            }
        }
        assert forall|i: int, j: int| 0 <= i < j < ta.len() implies key_before(#[trigger] ta[i], #[trigger] ta[j]) by {
            assert(ta[i] == a[i + 1] && ta[j] == a[j + 1]);
        }
        assert forall|i: int, j: int| 0 <= i < j < tb.len() implies key_before(#[trigger] tb[i], #[trigger] tb[j]) by {
            assert(tb[i] == b[i + 1] && tb[j] == b[j + 1]);
        }
        lemma_sorted_keys_unique(ta, tb);
        assert(a =~= seq![a[0]] + ta);
        assert(b =~= seq![b[0]] + tb);
    }
}

/// The keys of a ranking, in its order.
pub open spec fn ranking_keys(recs: Seq<RoleCandidacyRegistration>, idx: Seq<int>) -> Seq<(int, Seq<u8>, Seq<u8>)> {
    idx.map_values(|x: int| bid_key(recs[x]))
}

proof fn lemma_ranking_keys(recs: Seq<RoleCandidacyRegistration>, idx: Seq<int>, rule: BidRule)
    requires
        is_ranking(recs, idx, rule),
    ensures
        forall|i: int, j: int|
            0 <= i < j < idx.len() ==> key_before(
                #[trigger] ranking_keys(recs, idx)[i],
                #[trigger] ranking_keys(recs, idx)[j],
            ),
        forall|k: (int, Seq<u8>, Seq<u8>)| ranking_keys(recs, idx).contains(k) <==> top_bid(recs, rule, k),
{
    let ks = ranking_keys(recs, idx);
    assert forall|i: int, j: int| 0 <= i < j < idx.len() implies key_before(#[trigger] ks[i], #[trigger] ks[j]) by {
        assert(ranks_before(recs[idx[i]], recs[idx[j]]));
    }
    assert forall|k: (int, Seq<u8>, Seq<u8>)| ks.contains(k) <==> top_bid(recs, rule, k) by {
        if ks.contains(k) {
            let i = choose|i: int| 0 <= i < ks.len() && ks[i] == k;
            assert(is_best_bid(recs, idx[i], rule));
            lemma_best_is_top(recs, rule, idx[i]);
        }
        if top_bid(recs, rule, k) {
            let x = lemma_top_has_best(recs, rule, k);
            assert(idx.contains(x));
            let i = choose|i: int| 0 <= i < idx.len() && idx[i] == x;
            assert(ks[i] == k);
        }
    }
}

/// The eligible list does not depend on the order of the registrations:
/// any reordering gives the same candidates, in the same order.
pub proof fn lemma_eligible_list_order_independent(
    r1: Seq<RoleCandidacyRegistration>,
    r2: Seq<RoleCandidacyRegistration>,
    rule: BidRule,
    cap: usize,
    out1: Seq<RegisteredCandidate>,
    out2: Seq<RegisteredCandidate>,
)
    requires
        r1.to_multiset() == r2.to_multiset(),
        eligible_list(r1, rule, cap, out1),
        eligible_list(r2, rule, cap, out2),
    ensures
        out1.len() == out2.len(),
        forall|k: int| 0 <= k < out1.len() ==> same_candidate(#[trigger] out1[k], out2[k]),
{
    let idx1 = choose|idx: Seq<int>| is_ranking(r1, idx, rule) && top_of_ranking(r1, idx, cap, out1);
    let idx2 = choose|idx: Seq<int>| is_ranking(r2, idx, rule) && top_of_ranking(r2, idx, cap, out2);
    lemma_ranking_keys(r1, idx1, rule);
    lemma_ranking_keys(r2, idx2, rule);
    let k1 = ranking_keys(r1, idx1);
    let k2 = ranking_keys(r2, idx2);
    assert forall|k: (int, Seq<u8>, Seq<u8>)| k1.contains(k) <==> k2.contains(k) by {
        if top_bid(r1, rule, k) {
            lemma_top_bid_permutation(r1, r2, rule, k);
        }
        if top_bid(r2, rule, k) {
            lemma_top_bid_permutation(r2, r1, rule, k);
        }
    }
    lemma_sorted_keys_unique(k1, k2);
    assert(idx1.len() == k1.len() && idx2.len() == k2.len());
    assert forall|k: int| 0 <= k < out1.len() implies same_candidate(#[trigger] out1[k], out2[k]) by {
        assert(k1[k] == k2[k]);
        assert(same_candidate(out1[k], r1[idx1[k]].candidate));
        assert(same_candidate(out2[k], r2[idx2[k]].candidate));
        assert(is_best_bid(r1, idx1[k], rule));
        assert(is_best_bid(r2, idx2[k], rule));
    }
}

} // verus!
