//! The node-local pool of gossiped proposer registrations awaiting on-chain
//! announcement: one record per VRF key, the freshest anchor kept, refreshes
//! rebroadcast only when the anchor advanced enough, and announce candidates
//! taken first come, first served. Decoding and checking a registration's
//! signature and sybil work stand outside the library; the pool receives
//! their outcome.
use vstd::prelude::*;
use crate::proposer_registry::key_eq;
use crate::poawx_proposer::{PROPOSER_REG_POOL_MAX, PROPOSER_REG_REFRESH_MIN_ANCHOR_DELTA};

verus! {

/// What happened to a gossiped item.
#[derive(Debug, Clone, PartialEq, Eq)]
pub enum GossipOutcome {
    /// New: store and rebroadcast.
    AcceptedNew,
    /// Already known (or not worth rebroadcasting).
    Duplicate,
    /// Refused, with the reason.
    Rejected(String),
}

/// A registration that passed decoding and its signature and sybil-work
/// checks against its anchor block: the VRF key, the anchor height and the
/// wire bytes.
pub struct CheckedRegistration {
    pub vrf_pubkey: [u8; 33],
    pub anchor_height: u64,
    pub bytes: Vec<u8>,
}

/// The outcome of the checks on gossiped registration bytes, in the order
/// they run.
pub enum RegistrationCheck {
    /// Registration gossip is off on this node.
    Disabled,
    /// The bytes are not a registration's length.
    BadLength,
    /// The bytes do not decode; the decoder's reason.
    Undecodable(String),
    /// The anchor block is not held here, so the sybil work cannot be checked.
    AnchorUnavailable,
    /// The signature or sybil work is wrong; the checker's reason.
    Invalid(String),
    /// All checks passed.
    Valid(CheckedRegistration),
}

/// The outcome of the checks, taken in the order the node makes them:
/// gossip enabled, the length, decoding, the anchor block, then signature and
/// sybil work. The first that fails decides.
pub open spec fn check_outcome(
    gossip_enabled: bool,
    length_ok: bool,
    decoded: Result<CheckedRegistration, String>,
    anchor_found: bool,
    validated: Result<(), String>,
) -> RegistrationCheck {
    if !gossip_enabled {
        RegistrationCheck::Disabled
    } else if !length_ok {
        RegistrationCheck::BadLength
    } else {
        match decoded {
            Err(e) => RegistrationCheck::Undecodable(e),
            Ok(reg) => if !anchor_found {
                RegistrationCheck::AnchorUnavailable
            } else {
                match validated {
                    Err(e) => RegistrationCheck::Invalid(e),
                    Ok(_) => RegistrationCheck::Valid(reg),
                }
            },
        }
    }
}

/// Combines the results of the checks on gossiped registration bytes into
/// their outcome (see [`check_outcome`]): the results of checks after the
/// first failed one are not read.
pub fn registration_check(
    gossip_enabled: bool,
    length_ok: bool,
    decoded: Result<CheckedRegistration, String>,
    anchor_found: bool,
    validated: Result<(), String>,
) -> (c: RegistrationCheck)
    ensures
        c == check_outcome(gossip_enabled, length_ok, decoded, anchor_found, validated),
{
    if !gossip_enabled {
        return RegistrationCheck::Disabled;
    }
    if !length_ok {
        return RegistrationCheck::BadLength;
    }
    let reg = match decoded {
        Err(e) => {
            return RegistrationCheck::Undecodable(e);
        },
        Ok(reg) => reg,
    };
    if !anchor_found {
        return RegistrationCheck::AnchorUnavailable;
    }
    match validated {
        Err(e) => RegistrationCheck::Invalid(e),
        Ok(_) => RegistrationCheck::Valid(reg),
    }
}

/// One pooled registration: its key, arrival number, anchor height and bytes.
pub struct PooledRegistration {
    pub key: [u8; 33],
    pub seq: u64,
    pub anchor_height: u64,
    pub bytes: Vec<u8>,
}

/// The model of a pooled registration.
pub type PooledView = (Seq<u8>, u64, u64, Seq<u8>);

pub open spec fn pooled_view(p: PooledRegistration) -> PooledView {
    (p.key@, p.seq, p.anchor_height, p.bytes@)
}

pub open spec fn pool_view(v: Seq<PooledRegistration>) -> Seq<PooledView> {
    v.map_values(|p: PooledRegistration| pooled_view(p))
}

/// Keys distinct, arrival numbers strictly increasing and below `next_seq`.
pub open spec fn pool_wf(s: Seq<PooledView>, next_seq: u64) -> bool {
    &&& forall|i: int, j: int| 0 <= i < j < s.len() ==> #[trigger] s[i].0 != #[trigger] s[j].0
    &&& forall|i: int, j: int| 0 <= i < j < s.len() ==> #[trigger] s[i].1 < #[trigger] s[j].1
    &&& forall|i: int| 0 <= i < s.len() ==> (#[trigger] s[i]).1 < next_seq
    &&& forall|i: int| 0 <= i < s.len() ==> (#[trigger] s[i]).0.len() == 33
}

/// The index of the record for `key`, if any.
pub open spec fn index_of_key(s: Seq<PooledView>, key: Seq<u8>) -> Option<int> {
    if exists|i: int| 0 <= i < s.len() && s[i].0 == key {
        Some(choose|i: int| 0 <= i < s.len() && s[i].0 == key)
    } else {
        None
    }
}

/// What ingesting a checked registration does, with the pool after it: the
/// outcome is `0` for new, `1` for duplicate, `2` for a full pool. A known key
/// with an equal or fresher anchor is a duplicate and changes nothing; a
/// fresher anchor replaces the record but keeps its place in the queue, and
/// is new only when the anchor advanced by the refresh delta; an unknown key
/// joins the end of the queue unless the pool is full.
pub open spec fn ingest_spec(
    s: Seq<PooledView>,
    next_seq: u64,
    key: Seq<u8>,
    anchor: u64,
    bytes: Seq<u8>,
) -> (int, Seq<PooledView>, u64) {
    match index_of_key(s, key) {
        Some(i) => if anchor <= s[i].2 {
            (1, s, next_seq)
        } else {
            (
                if anchor - s[i].2 >= PROPOSER_REG_REFRESH_MIN_ANCHOR_DELTA {
                    0
                } else {
                    1
                },
                s.update(i, (key, s[i].1, anchor, bytes)),
                next_seq,
            )
        },
        None => if s.len() >= PROPOSER_REG_POOL_MAX || next_seq == u64::MAX {
            (2, s, next_seq)
        } else {
            (0, s.push((key, next_seq, anchor, bytes)), (next_seq + 1) as u64)
        },
    }
}

/// The outcome that a code of [`ingest_spec`] stands for.
pub open spec fn outcome_is(o: GossipOutcome, code: int) -> bool {
    if code == 0 {
        o == GossipOutcome::AcceptedNew
    } else if code == 1 {
        o == GossipOutcome::Duplicate
    } else {
        o matches GossipOutcome::Rejected(m) && m@ == "registration: pool full"@
    }
}

/// The records not excluded, in queue order.
pub open spec fn not_excluded(s: Seq<PooledView>, exclude: Seq<Seq<u8>>) -> Seq<PooledView>
    decreases s.len(),
{
    if s.len() == 0 {
        s
    } else {
        let sub = not_excluded(s.drop_last(), exclude);
        if exclude.contains(s.last().0) {
            sub
        } else {
            sub.push(s.last())
        }
    }
}

/// The views of keys.
pub open spec fn keys_view(v: Seq<[u8; 33]>) -> Seq<Seq<u8>> {
    v.map_values(|k: [u8; 33]| k@)
}

/// The records whose key is not listed, in queue order.
pub open spec fn without_keys(s: Seq<PooledView>, keys: Seq<Seq<u8>>) -> Seq<PooledView> {
    not_excluded(s, keys)
}

/// The pool.
pub struct NodeProposerRegistrationPool {
    entries: Vec<PooledRegistration>,
    next_seq: u64,
}

impl NodeProposerRegistrationPool {
    /// The records in queue (arrival) order.
    pub closed spec fn view(&self) -> Seq<PooledView> {
        pool_view(self.entries@)
    }

    /// The arrival number the next new key gets.
    pub closed spec fn next_seq(&self) -> u64 {
        self.next_seq
    }

    #[verifier::type_invariant]
    spec fn wf(&self) -> bool {
        pool_wf(pool_view(self.entries@), self.next_seq)
    }

    pub fn new() -> (p: Self)
        ensures
            p.view().len() == 0,
            p.next_seq() == 0,
    {
        NodeProposerRegistrationPool { entries: Vec::new(), next_seq: 0 }
    }

    fn find(&self, key: &[u8; 33]) -> (r: Option<usize>)
        requires
            pool_wf(pool_view(self.entries@), self.next_seq),
        ensures
            match r {
                Some(i) => i < self.entries@.len() && index_of_key(self.view(), key@) == Some(
                    i as int,
                ),
                None => index_of_key(self.view(), key@) is None,
            },
    {
        let ghost s = pool_view(self.entries@);
        let mut i: usize = 0;
        while i < self.entries.len()
            invariant
                i <= self.entries@.len(),
                s == pool_view(self.entries@),
                pool_wf(s, self.next_seq),
                forall|j: int| 0 <= j < i ==> (#[trigger] s[j]).0 != key@,
            decreases self.entries@.len() - i,
        {
            if key_eq(&self.entries[i].key, key) {
                proof {
                    assert(s[i as int].0 == key@);
                    let c = choose|c: int| 0 <= c < s.len() && s[c].0 == key@;
                    if c != i {
                        if c < i {
                        } else {
                            assert(s[i as int].0 != s[c].0);
                        }
                    }
                }
                return Some(i);
            }
            i = i + 1;
        }
        None
    }

    /// Whether a record for `key` is pooled.
    pub fn contains(&self, key: &[u8; 33]) -> (b: bool)
        ensures
            b == (index_of_key(self.view(), key@) is Some),
    {
        proof {
            use_type_invariant(self);
        }
        self.find(key).is_some()
    }

    pub fn len(&self) -> (n: usize)
        ensures
            n == self.view().len(),
    {
        self.entries.len()
    }

    fn insert_checked(&mut self, reg: CheckedRegistration) -> (code: u8)
        ensures
            ({
                let (c, s, n) = ingest_spec(
                    old(self).view(),
                    old(self).next_seq(),
                    reg.vrf_pubkey@,
                    reg.anchor_height,
                    reg.bytes@,
                );
                &&& code == c
                &&& final(self).view() == s
                &&& final(self).next_seq() == n
            }),
    {
        proof {
            use_type_invariant(&*self);
        }
        let ghost s = self.view();
        match self.find(&reg.vrf_pubkey) {
            Some(i) => {
                let existing_anchor = self.entries[i].anchor_height;
                if reg.anchor_height <= existing_anchor {
                    return 1;
                }
                let seq = self.entries[i].seq;
                let advanced = reg.anchor_height - existing_anchor
                    >= PROPOSER_REG_REFRESH_MIN_ANCHOR_DELTA;
                let rec = PooledRegistration {
                    key: reg.vrf_pubkey,
                    seq,
                    anchor_height: reg.anchor_height,
                    bytes: reg.bytes,
                };
                let ghost rv = pooled_view(rec);
                let mut entries = Vec::new();
                std::mem::swap(&mut entries, &mut self.entries);
                entries.set(i, rec);
                proof {
                    assert(pool_view(entries@) =~= s.update(i as int, rv));
                    assert(pool_wf(pool_view(entries@), self.next_seq)) by {
                        let t = pool_view(entries@);
                        assert forall|a: int, b: int| 0 <= a < b < t.len() implies #[trigger] t[a].0
                            != #[trigger] t[b].0 by {
                            if a == i {
                                assert(s[b].0 != s[a].0);
                            } else if b == i {
                                assert(s[b].0 != s[a].0);
                            }
                        }
                        assert forall|a: int, b: int| 0 <= a < b < t.len() implies #[trigger] t[a].1
                            < #[trigger] t[b].1 by {
                            assert(s[a].1 < s[b].1);
                        }
                        assert forall|a: int| 0 <= a < t.len() implies (#[trigger] t[a]).1 < self.next_seq by {
                            assert(s[a].1 < self.next_seq);
                        }
                        assert forall|a: int| 0 <= a < t.len() implies (#[trigger] t[a]).0.len() == 33 by {
                            assert(s[a].0.len() == 33);
                        }
                    }
                }
                self.entries = entries;
                if advanced {
                    0
                } else {
                    1
                }
            },
            None => {
                if self.entries.len() >= PROPOSER_REG_POOL_MAX || self.next_seq == u64::MAX {
                    return 2;
                }
                let seq = self.next_seq;
                let rec = PooledRegistration {
                    key: reg.vrf_pubkey,
                    seq,
                    anchor_height: reg.anchor_height,
                    bytes: reg.bytes,
                };
                let ghost rv = pooled_view(rec);
                let mut entries = Vec::new();
                std::mem::swap(&mut entries, &mut self.entries);
                entries.push(rec);
                proof {
                    assert(pool_view(entries@) =~= s.push(rv));
                    let t = pool_view(entries@);
                    assert forall|a: int, b: int| 0 <= a < b < t.len() implies #[trigger] t[a].0
                        != #[trigger] t[b].0 by {
                        if b == s.len() {
                            assert(s[a].0 != reg.vrf_pubkey@);
                        }
                    }
                    assert forall|a: int, b: int| 0 <= a < b < t.len() implies #[trigger] t[a].1
                        < #[trigger] t[b].1 by {
                        if b == s.len() {
                            assert(s[a].1 < seq);
                        }
                    }
                    assert forall|a: int| 0 <= a < t.len() implies (#[trigger] t[a]).1 < seq + 1 by {
                        if a < s.len() {
                            assert(s[a].1 < seq);
                        }
                    }
                }
                *self = NodeProposerRegistrationPool { entries, next_seq: seq + 1 };
                0
            },
        }
    }

    /// Takes the outcome of the checks on gossiped registration bytes: every
    /// failed check is refused with its reason; a valid registration is pooled
    /// as [`ingest_spec`] says.
    pub fn ingest_bytes(&mut self, check: RegistrationCheck) -> (o: GossipOutcome)
        ensures
            match check {
                RegistrationCheck::Disabled => o matches GossipOutcome::Rejected(m) && m@
                    == "registration gossip disabled"@ && final(self).view() == old(self).view(),
                RegistrationCheck::BadLength => o matches GossipOutcome::Rejected(m) && m@
                    == "registration: bad length"@ && final(self).view() == old(self).view(),
                RegistrationCheck::Undecodable(e) => o == GossipOutcome::Rejected(e)
                    && final(self).view() == old(self).view(),
                RegistrationCheck::AnchorUnavailable => o matches GossipOutcome::Rejected(m) && m@
                    == "registration: anchor unavailable; cannot verify sybil work"@ && final(self).view() == old(self).view(),
                RegistrationCheck::Invalid(e) => o == GossipOutcome::Rejected(e) && final(self).view() == old(self).view(),
                RegistrationCheck::Valid(reg) => {
                    let (c, s, n) = ingest_spec(
                        old(self).view(),
                        old(self).next_seq(),
                        reg.vrf_pubkey@,
                        reg.anchor_height,
                        reg.bytes@,
                    );
                    &&& outcome_is(o, c)
                    &&& final(self).view() == s
                    &&& final(self).next_seq() == n
                },
            },
    {
        match check {
            RegistrationCheck::Disabled => GossipOutcome::Rejected(
                "registration gossip disabled".to_owned(),
            ),
            RegistrationCheck::BadLength => GossipOutcome::Rejected(
                "registration: bad length".to_owned(),
            ),
            RegistrationCheck::Undecodable(e) => GossipOutcome::Rejected(e),
            RegistrationCheck::AnchorUnavailable => GossipOutcome::Rejected(
                "registration: anchor unavailable; cannot verify sybil work".to_owned(),
            ),
            RegistrationCheck::Invalid(e) => GossipOutcome::Rejected(e),
            RegistrationCheck::Valid(reg) => {
                let code = self.insert_checked(reg);
                if code == 0 {
                    GossipOutcome::AcceptedNew
                } else if code == 1 {
                    GossipOutcome::Duplicate
                } else {
                    GossipOutcome::Rejected("registration: pool full".to_owned())
                }
            },
        }
    }

    /// Local submission of a registration: one that failed its checks
    /// (`None`) pools nothing and gives empty bytes; a valid one is stored
    /// (keeping its queue place where the key is known, else joining the end)
    /// and its bytes are returned for gossip.
    pub fn submit(&mut self, reg: Option<CheckedRegistration>) -> (b: Vec<u8>)
        ensures
            match reg {
                None => b@.len() == 0 && final(self).view() == old(self).view(),
                Some(r) => b@ == r.bytes@ && match index_of_key(old(self).view(), r.vrf_pubkey@) {
                    Some(i) => final(self).view() == old(self).view().update(
                        i,
                        (r.vrf_pubkey@, old(self).view()[i].1, r.anchor_height, r.bytes@),
                    ),
                    None => (old(self).next_seq() == u64::MAX && final(self).view() == old(self).view()) || (old(self).next_seq() < u64::MAX && final(self).view() == old(self).view().push(
                        (r.vrf_pubkey@, old(self).next_seq(), r.anchor_height, r.bytes@),
                    )),
                },
            },
    {
        proof {
            use_type_invariant(&*self);
        }
        let reg = match reg {
            None => {
                return Vec::new();
            },
            Some(r) => r,
        };
        let ghost s = self.view();
        let out = vstd::slice::slice_to_vec(reg.bytes.as_slice());
        match self.find(&reg.vrf_pubkey) {
            Some(i) => {
                let seq = self.entries[i].seq;
                let rec = PooledRegistration {
                    key: reg.vrf_pubkey,
                    seq,
                    anchor_height: reg.anchor_height,
                    bytes: reg.bytes,
                };
                let ghost rv = pooled_view(rec);
                let mut entries = Vec::new();
                std::mem::swap(&mut entries, &mut self.entries);
                entries.set(i, rec);
                proof {
                    assert(pool_view(entries@) =~= s.update(i as int, rv));
                    let t = pool_view(entries@);
                    assert forall|a: int, b: int| 0 <= a < b < t.len() implies #[trigger] t[a].0
                        != #[trigger] t[b].0 by {
                        if a == i {
                            assert(s[b].0 != s[a].0);
                        } else if b == i {
                            assert(s[b].0 != s[a].0);
                        }
                    }
                    assert forall|a: int, b: int| 0 <= a < b < t.len() implies #[trigger] t[a].1
                        < #[trigger] t[b].1 by {
                        assert(s[a].1 < s[b].1);
                    }
                    assert forall|a: int| 0 <= a < t.len() implies (#[trigger] t[a]).1 < self.next_seq by {
                        assert(s[a].1 < self.next_seq);
                    }
                    assert forall|a: int| 0 <= a < t.len() implies (#[trigger] t[a]).0.len() == 33 by {
                        assert(s[a].0.len() == 33);
                    }
                }
                self.entries = entries;
            },
            None => {
                if self.next_seq == u64::MAX {
                    return out;
                }
                let seq = self.next_seq;
                let rec = PooledRegistration {
                    key: reg.vrf_pubkey,
                    seq,
                    anchor_height: reg.anchor_height,
                    bytes: reg.bytes,
                };
                let ghost rv = pooled_view(rec);
                let mut entries = Vec::new();
                std::mem::swap(&mut entries, &mut self.entries);
                entries.push(rec);
                proof {
                    assert(pool_view(entries@) =~= s.push(rv));
                    let t = pool_view(entries@);
                    assert forall|a: int, b: int| 0 <= a < b < t.len() implies #[trigger] t[a].0
                        != #[trigger] t[b].0 by {
                        if b == s.len() {
                            assert(s[a].0 != reg.vrf_pubkey@);
                        }
                    }
                    assert forall|a: int, b: int| 0 <= a < b < t.len() implies #[trigger] t[a].1
                        < #[trigger] t[b].1 by {
                        if b == s.len() {
                            assert(s[a].1 < seq);
                        }
                    }
                    assert forall|a: int| 0 <= a < t.len() implies (#[trigger] t[a]).1 < seq + 1 by {
                        if a < s.len() {
                            assert(s[a].1 < seq);
                        }
                    }
                }
                *self = NodeProposerRegistrationPool { entries, next_seq: seq + 1 };
            },
        }
        out
    }

    /// Up to `max` pooled registrations whose key is not in `exclude`, in
    /// arrival order (first come, first served), as their bytes.
    pub fn announce_candidates(&self, max: usize, exclude: &[[u8; 33]]) -> (r: Vec<Vec<u8>>)
        ensures
            ({
                let c = not_excluded(self.view(), keys_view(exclude@));
                let n = if max < c.len() { max as int } else { c.len() as int };
                &&& r@.len() == n
                &&& forall|i: int| 0 <= i < n ==> (#[trigger] r@[i])@ == c[i].3
            }),
    {
        let ghost s = self.view();
        let ghost ex = keys_view(exclude@);
        let mut out: Vec<Vec<u8>> = Vec::new();
        let mut i: usize = 0;
        assert(s.take(0) =~= Seq::<PooledView>::empty());
        while i < self.entries.len() && out.len() < max
            invariant
                i <= self.entries@.len(),
                s == pool_view(self.entries@),
                ex == keys_view(exclude@),
                out@.len() <= max,
                out@.len() == not_excluded(s.take(i as int), ex).len(),
                forall|k: int| 0 <= k < out@.len() ==> (#[trigger] out@[k])@ == not_excluded(
                    s.take(i as int),
                    ex,
                )[k].3,
            decreases self.entries@.len() - i,
        {
            let excluded = key_listed(&self.entries[i].key, exclude);
            assert(s.take(i + 1).drop_last() =~= s.take(i as int));
            assert(s.take(i + 1).last() == s[i as int]);
            if !excluded {
                out.push(vstd::slice::slice_to_vec(self.entries[i].bytes.as_slice()));
            }
            i = i + 1;
        }
        proof {
            lemma_not_excluded_prefix(s, ex, i as int);
        }
        out
    }

    /// Drops the records of the listed keys; the rest keep their order.
    pub fn forget(&mut self, keys: &[[u8; 33]])
        ensures
            final(self).view() == not_excluded(old(self).view(), keys_view(keys@)),
            final(self).next_seq() == old(self).next_seq(),
    {
        proof {
            use_type_invariant(&*self);
        }
        let ghost s = self.view();
        let ghost ks = keys_view(keys@);
        let ns = self.next_seq;
        let mut old_entries = Vec::new();
        std::mem::swap(&mut old_entries, &mut self.entries);
        let mut kept: Vec<PooledRegistration> = Vec::new();
        assert(s.take(0) =~= Seq::<PooledView>::empty());
        let n = old_entries.len();
        let mut rest = old_entries;
        assert(s.skip(0) =~= s);
        let mut i: usize = 0;
        while i < n
            invariant
                n == s.len(),
                i <= n,
                ks == keys_view(keys@),
                pool_view(rest@) == s.skip(i as int),
                pool_wf(s, ns),
                pool_view(kept@) == not_excluded(s.take(i as int), ks),
                pool_wf(pool_view(kept@), ns),
                forall|a: int| 0 <= a < kept@.len() ==> i < n ==> (#[trigger] kept@[a]).seq < s[i as int].1,
                forall|a: int, j: int|
                    0 <= a < kept@.len() && i <= j < n ==> (#[trigger] kept@[a]).key@ != #[trigger] s[j].0,
            decreases n - i,
        {
            assert(pool_view(rest@).len() == n - i);
            let ghost before_rest = rest@;
            let rec = rest.remove(0);
            proof {
                assert(rest@ =~= before_rest.subrange(1, before_rest.len() as int));
                assert(pooled_view(rec) == pool_view(before_rest)[0]);
                assert(pooled_view(rec) == s.skip(i as int)[0]);
                assert forall|k: int| 0 <= k < rest@.len() implies pool_view(rest@)[k] == s.skip(
                    i + 1,
                )[k] by {
                    assert(rest@[k] == before_rest[k + 1]);
                    assert(pool_view(before_rest)[k + 1] == s.skip(i as int)[k + 1]);
                }
                assert(pool_view(rest@) =~= s.skip(i + 1));
                assert(s.take(i + 1).drop_last() =~= s.take(i as int));
                assert(s.take(i + 1).last() == s[i as int]);
            }
            let excluded = key_listed(&rec.key, keys);
            if !excluded {
                let ghost before = pool_view(kept@);
                kept.push(rec);
                proof {
                    let t = pool_view(kept@);
                    assert(t =~= before.push(s[i as int]));
                    assert forall|a: int, b: int| 0 <= a < b < t.len() implies #[trigger] t[a].0
                        != #[trigger] t[b].0 by {
                        if b == before.len() {
                            assert(kept@[a].key@ != s[i as int].0);
                        }
                    }
                    assert forall|a: int, b: int| 0 <= a < b < t.len() implies #[trigger] t[a].1
                        < #[trigger] t[b].1 by {
                        if b == before.len() {
                            assert(kept@[a].seq < s[i as int].1);
                        }
                    }
                }
            }
            proof {
                assert forall|a: int| 0 <= a < kept@.len() ==> i + 1 < n ==> (#[trigger] kept@[a]).seq
                    < s[i + 1].1 by {
                    if 0 <= a < kept@.len() && i + 1 < n {
                        assert(s[i as int].1 < s[i + 1].1);
                    }
                }
                assert forall|a: int, j: int|
                    0 <= a < kept@.len() && i + 1 <= j < n implies (#[trigger] kept@[a]).key@
                        != #[trigger] s[j].0 by {
                    if a == kept@.len() - 1 && !excluded {
                        assert(s[i as int].0 != s[j].0);
                    }
                }
            }
            i = i + 1;
        }
        assert(s.take(n as int) =~= s);
        *self = NodeProposerRegistrationPool { entries: kept, next_seq: ns };
    }
}

impl Default for NodeProposerRegistrationPool {
    fn default() -> (p: Self)
        ensures
            p.view().len() == 0,
            p.next_seq() == 0,
    {
        Self::new()
    }
}

/// Whether `key` is in `keys`.
fn key_listed(key: &[u8; 33], keys: &[[u8; 33]]) -> (b: bool)
    ensures
        b == keys_view(keys@).contains(key@),
{
    let mut i: usize = 0;
    while i < keys.len()
        invariant
            i <= keys@.len(),
            forall|j: int| 0 <= j < i ==> keys@[j]@ != key@,
        decreases keys@.len() - i,
    {
        if key_eq(&keys[i], key) {
            assert(keys_view(keys@)[i as int] == key@);
            return true;
        }
        i = i + 1;
    }
    assert(!keys_view(keys@).contains(key@)) by {
        if keys_view(keys@).contains(key@) {
            let j = choose|j: int| 0 <= j < keys_view(keys@).len() && keys_view(keys@)[j] == key@;
            assert(keys@[j]@ == key@);
        }
    }
    false
}

/// Taking the first `n` of what survives the filter, once that many survived
/// from a prefix, gives the same as filtering everything.
proof fn lemma_not_excluded_prefix(s: Seq<PooledView>, ex: Seq<Seq<u8>>, i: int)
    requires
        0 <= i <= s.len(),
    ensures
        forall|k: int|
            0 <= k < not_excluded(s.take(i), ex).len() ==> k < not_excluded(s, ex).len()
                && #[trigger] not_excluded(s.take(i), ex)[k] == not_excluded(s, ex)[k],
        not_excluded(s.take(i), ex).len() <= not_excluded(s, ex).len(),
        i == s.len() ==> not_excluded(s.take(i), ex) == not_excluded(s, ex),
    decreases s.len() - i,
{
    if i == s.len() {
        assert(s.take(i) =~= s);
    } else {
        lemma_not_excluded_prefix(s, ex, i + 1);
        let a = s.take(i);
        let b = s.take(i + 1);
        assert(b.drop_last() =~= a);
        assert(b.last() == s[i]);
        assert(not_excluded(b, ex) == if ex.contains(s[i].0) {
            not_excluded(a, ex)
        } else {
            not_excluded(a, ex).push(s[i])
        });
        assert forall|k: int| 0 <= k < not_excluded(a, ex).len() implies k < not_excluded(
            s,
            ex,
        ).len() && #[trigger] not_excluded(a, ex)[k] == not_excluded(s, ex)[k] by {
            assert(not_excluded(a, ex)[k] == not_excluded(b, ex)[k]);
        }
    }
}

proof fn lemma_not_excluded_absent(s: Seq<PooledView>, ex: Seq<Seq<u8>>)
    requires
        forall|i: int| 0 <= i < s.len() ==> !ex.contains(#[trigger] s[i].0),
    ensures
        not_excluded(s, ex) == s,
    decreases s.len(),
{
    if s.len() > 0 {
        lemma_not_excluded_absent(s.drop_last(), ex);
        assert(s.drop_last().push(s.last()) =~= s);
    }
}

/// Forgetting a key undoes pooling it: after a registration for a new key is
/// pooled, dropping that key gives back the pool as it was.
pub proof fn lemma_forget_undoes_new_ingest(
    s: Seq<PooledView>,
    next_seq: u64,
    key: Seq<u8>,
    anchor: u64,
    bytes: Seq<u8>,
)
    requires
        index_of_key(s, key) is None,
        s.len() < PROPOSER_REG_POOL_MAX,
        next_seq < u64::MAX,
    ensures
        ingest_spec(s, next_seq, key, anchor, bytes).0 == 0,
        not_excluded(ingest_spec(s, next_seq, key, anchor, bytes).1, seq![key]) == s,
{
    let t = s.push((key, next_seq, anchor, bytes));
    assert(t.drop_last() =~= s);
    assert(seq![key].contains(key)) by {
        assert(seq![key][0] == key);
    }
    assert forall|i: int| 0 <= i < s.len() implies !seq![key].contains(#[trigger] s[i].0) by {
        if seq![key].contains(s[i].0) {
            let j = choose|j: int| 0 <= j < 1 && seq![key][j] == s[i].0;
            assert(s[i].0 == key);
        }
    }
    lemma_not_excluded_absent(s, seq![key]);
}

/// A refresh keeps a key's place in the queue: the arrival number of a known
/// key never changes when it is ingested again.
pub proof fn lemma_refresh_keeps_queue_place(
    s: Seq<PooledView>,
    next_seq: u64,
    key: Seq<u8>,
    anchor: u64,
    bytes: Seq<u8>,
    i: int,
)
    requires
        index_of_key(s, key) == Some(i),
    ensures
        ingest_spec(s, next_seq, key, anchor, bytes).1.len() == s.len(),
        ingest_spec(s, next_seq, key, anchor, bytes).1[i].1 == s[i].1,
        ingest_spec(s, next_seq, key, anchor, bytes).2 == next_seq,
{
}

} // verus!
