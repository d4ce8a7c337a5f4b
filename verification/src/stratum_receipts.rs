//! The receipts root that a pool block commits to in its `irx1` output,
//! computed from the pending work receipts of the template.
use vstd::prelude::*;
use crate::wire::{le64, push_le64, push_all};
use crate::digest::{sha256_of, sha256};
use crate::codec::{hex_decode, hex_decoded};
use crate::byte_order::{
    bytes_lt, bytes_less, sorted_bytes, digests_view, sort_digests, lemma_bytes_lt_irreflexive,
    lemma_bytes_lt_transitive,
};
use crate::stratum_block::text_bytes;

verus! {

/// A pending PoAW-X work receipt of a block template, its byte fields in hex.
pub struct PoawxPendingReceipt {
    pub height: u64,
    pub lane: String,
    pub worker_pkh: String,
    pub worker_pubkey: String,
    pub worker_sig: String,
    pub solution: String,
    pub commitment_nonce: String,
    pub delegation: String,
    pub phase20_ext: String,
}

/// Receipts at or above this height are committed in the audit form.
pub const AUDIT_RECEIPTS_HEIGHT: u64 = 50_000;

/// The lane's first byte, `A` for an empty lane.
pub open spec fn lane_byte(lane: Seq<char>) -> u8 {
    let b = text_bytes(lane);
    if b.len() > 0 { b[0] } else { 0x41u8 }
}

/// A hex field's bytes, empty where it is not valid hex.
pub open spec fn hex_or_empty(s: Seq<char>) -> Seq<u8> {
    match hex_decoded(text_bytes(s)) {
        Some(b) => b,
        None => seq![],
    }
}

/// The SHA-256 of a non-empty, valid hex field; nothing otherwise.
pub open spec fn optional_digest(s: Seq<char>) -> Seq<u8> {
    if s.len() == 0 {
        seq![]
    } else {
        match hex_decoded(text_bytes(s)) {
            Some(b) => sha256_of(b),
            None => seq![],
        }
    }
}

/// A receipt's digest in the audit form: every field, with the delegation and
/// the phase-20 extension hashed.
pub open spec fn audit_inner(r: PoawxPendingReceipt) -> Seq<u8> {
    sha256_of(
        le64(r.height) + seq![lane_byte(r.lane@)] + hex_or_empty(r.worker_pkh@) + hex_or_empty(
            r.worker_pubkey@,
        ) + hex_or_empty(r.worker_sig@) + hex_or_empty(r.solution@) + hex_or_empty(
            r.commitment_nonce@,
        ) + optional_digest(r.delegation@) + optional_digest(r.phase20_ext@),
    )
}

/// A receipt's digest in the earlier form: no key or signature, no extension.
pub open spec fn legacy_inner(r: PoawxPendingReceipt) -> Seq<u8> {
    sha256_of(
        le64(r.height) + seq![lane_byte(r.lane@)] + hex_or_empty(r.worker_pkh@) + hex_or_empty(
            r.solution@,
        ) + hex_or_empty(r.commitment_nonce@) + optional_digest(r.delegation@),
    )
}

/// The sort key of the earlier form: height, lane byte, worker pkh text and
/// nonce text, as bytes.
pub type ReceiptKey = (u64, u8, Seq<u8>, Seq<u8>);

pub open spec fn receipt_key(r: PoawxPendingReceipt) -> ReceiptKey {
    (r.height, lane_byte(r.lane@), text_bytes(r.worker_pkh@), text_bytes(r.commitment_nonce@))
}

pub open spec fn key_lt(a: ReceiptKey, b: ReceiptKey) -> bool {
    a.0 < b.0 || (a.0 == b.0 && (a.1 < b.1 || (a.1 == b.1 && (bytes_lt(a.2, b.2) || (a.2 == b.2
        && bytes_lt(a.3, b.3))))))
}

pub proof fn lemma_key_lt_irreflexive(a: ReceiptKey)
    ensures
        !key_lt(a, a),
{
    lemma_bytes_lt_irreflexive(a.2);
    lemma_bytes_lt_irreflexive(a.3);
}

pub proof fn lemma_key_lt_transitive(a: ReceiptKey, b: ReceiptKey, c: ReceiptKey)
    requires
        key_lt(a, b),
        key_lt(b, c),
    ensures
        key_lt(a, c),
{
    if a.0 == b.0 && b.0 == c.0 && a.1 == b.1 && b.1 == c.1 {
        if bytes_lt(a.2, b.2) && bytes_lt(b.2, c.2) {
            lemma_bytes_lt_transitive(a.2, b.2, c.2);
        } else if a.2 == b.2 && b.2 == c.2 {
            lemma_bytes_lt_transitive(a.3, b.3, c.3);
        }
    }
}

/// Whether no entry is followed by one whose key comes before it.
pub open spec fn sorted_by_key(s: Seq<(ReceiptKey, Seq<u8>)>) -> bool {
    forall|i: int, j: int| 0 <= i < j < s.len() ==> !key_lt(#[trigger] s[j].0, #[trigger] s[i].0)
}

/// Byte strings one after the other.
pub open spec fn flatten(s: Seq<Seq<u8>>) -> Seq<u8>
    decreases s.len(),
{
    if s.len() == 0 {
        seq![]
    } else {
        flatten(s.drop_last()) + s.last()
    }
}

/// Whether the receipts are committed in the audit form: the first one is at
/// or above the audit height.
pub open spec fn audit_form(receipts: Seq<PoawxPendingReceipt>) -> bool {
    receipts.len() > 0 && receipts[0].height >= AUDIT_RECEIPTS_HEIGHT
}

/// The audit-form digest of each receipt.
pub open spec fn audit_inners(receipts: Seq<PoawxPendingReceipt>) -> Seq<Seq<u8>> {
    receipts.map_values(|r: PoawxPendingReceipt| audit_inner(r))
}

/// The key and earlier-form digest of each receipt.
pub open spec fn legacy_entries(receipts: Seq<PoawxPendingReceipt>) -> Seq<(ReceiptKey, Seq<u8>)> {
    receipts.map_values(|r: PoawxPendingReceipt| (receipt_key(r), legacy_inner(r)))
}

/// The receipts root: in the audit form, the SHA-256 of all audit digests in
/// ascending byte order; otherwise the SHA-256 of the earlier-form digests
/// taken in the order of the receipts' keys. Receipts with equal keys may come
/// in either order, as `sort_unstable_by` leaves them.
pub open spec fn receipts_root_is(receipts: Seq<PoawxPendingReceipt>, root: Seq<u8>) -> bool {
    if audit_form(receipts) {
        exists|s: Seq<Seq<u8>>|
            #![trigger flatten(s)]
            sorted_bytes(s) && s.to_multiset() == audit_inners(receipts).to_multiset() && root
                == sha256_of(flatten(s))
    } else {
        exists|s: Seq<(ReceiptKey, Seq<u8>)>|
            #![trigger s.to_multiset()]
            sorted_by_key(s) && s.to_multiset() == legacy_entries(receipts).to_multiset() && root
                == sha256_of(flatten(s.map_values(|e: (ReceiptKey, Seq<u8>)| e.1)))
    }
}

fn hex_field(s: &String) -> (b: Vec<u8>)
    ensures
        b@ == hex_or_empty(s@),
{
    match hex_decode(s.as_str().as_bytes()) {
        Some(v) => v,
        None => Vec::new(),
    }
}

fn push_optional_digest(buf: &mut Vec<u8>, s: &String)
    ensures
        final(buf)@ == old(buf)@ + optional_digest(s@),
{
    if s.as_str().is_empty() {
        assert(old(buf)@ + optional_digest(s@) =~= old(buf)@);
        return;
    }
    match hex_decode(s.as_str().as_bytes()) {
        Some(v) => {
            let d = sha256(v.as_slice());
            push_all(buf, d.as_slice());
        },
        None => {
            assert(old(buf)@ + optional_digest(s@) =~= old(buf)@);
        },
    }
}

fn first_lane_byte(lane: &String) -> (b: u8)
    ensures
        b == lane_byte(lane@),
{
    let bytes = lane.as_str().as_bytes();
    if bytes.len() > 0 {
        bytes[0]
    } else {
        0x41
    }
}

fn audit_digest(r: &PoawxPendingReceipt) -> (d: [u8; 32])
    ensures
        d@ == audit_inner(*r),
{
    let mut buf: Vec<u8> = Vec::new();
    push_le64(&mut buf, r.height);
    buf.push(first_lane_byte(&r.lane));
    let f = hex_field(&r.worker_pkh);
    push_all(&mut buf, f.as_slice());
    let f = hex_field(&r.worker_pubkey);
    push_all(&mut buf, f.as_slice());
    let f = hex_field(&r.worker_sig);
    push_all(&mut buf, f.as_slice());
    let f = hex_field(&r.solution);
    push_all(&mut buf, f.as_slice());
    let f = hex_field(&r.commitment_nonce);
    push_all(&mut buf, f.as_slice());
    push_optional_digest(&mut buf, &r.delegation);
    push_optional_digest(&mut buf, &r.phase20_ext);
    assert(buf@ =~= le64(r.height) + seq![lane_byte(r.lane@)] + hex_or_empty(r.worker_pkh@)
        + hex_or_empty(r.worker_pubkey@) + hex_or_empty(r.worker_sig@) + hex_or_empty(r.solution@)
        + hex_or_empty(r.commitment_nonce@) + optional_digest(r.delegation@) + optional_digest(
        r.phase20_ext@,
    ));
    sha256(buf.as_slice())
}

fn legacy_digest(r: &PoawxPendingReceipt) -> (d: [u8; 32])
    ensures
        d@ == legacy_inner(*r),
{
    let mut buf: Vec<u8> = Vec::new();
    push_le64(&mut buf, r.height);
    buf.push(first_lane_byte(&r.lane));
    let f = hex_field(&r.worker_pkh);
    push_all(&mut buf, f.as_slice());
    let f = hex_field(&r.solution);
    push_all(&mut buf, f.as_slice());
    let f = hex_field(&r.commitment_nonce);
    push_all(&mut buf, f.as_slice());
    push_optional_digest(&mut buf, &r.delegation);
    assert(buf@ =~= le64(r.height) + seq![lane_byte(r.lane@)] + hex_or_empty(r.worker_pkh@)
        + hex_or_empty(r.solution@) + hex_or_empty(r.commitment_nonce@) + optional_digest(
        r.delegation@,
    ));
    sha256(buf.as_slice())
}

/// One receipt's sort key and digest in the earlier form.
struct LegacyEntry {
    height: u64,
    lane: u8,
    pkh: Vec<u8>,
    nonce: Vec<u8>,
    inner: [u8; 32],
}

spec fn entry_view(e: LegacyEntry) -> (ReceiptKey, Seq<u8>) {
    ((e.height, e.lane, e.pkh@, e.nonce@), e.inner@)
}

spec fn entries_view(v: Seq<LegacyEntry>) -> Seq<(ReceiptKey, Seq<u8>)> {
    v.map_values(|e: LegacyEntry| entry_view(e))
}

fn entry_less(a: &LegacyEntry, b: &LegacyEntry) -> (r: bool)
    ensures
        r == key_lt(entry_view(*a).0, entry_view(*b).0),
{
    if a.height != b.height {
        return a.height < b.height;
    }
    if a.lane != b.lane {
        return a.lane < b.lane;
    }
    if bytes_less(a.pkh.as_slice(), b.pkh.as_slice()) {
        return true;
    }
    if bytes_less(b.pkh.as_slice(), a.pkh.as_slice()) {
        proof {
            crate::byte_order::lemma_bytes_lt_irreflexive(a.pkh@);
            if a.pkh@ == b.pkh@ {
            }
        }
        return false;
    }
    proof {
        crate::byte_order::lemma_bytes_lt_total(a.pkh@, b.pkh@);
    }
    bytes_less(a.nonce.as_slice(), b.nonce.as_slice())
}

fn sort_entries(v: Vec<LegacyEntry>) -> (out: Vec<LegacyEntry>)
    ensures
        sorted_by_key(entries_view(out@)),
        entries_view(out@).to_multiset() == entries_view(v@).to_multiset(),
{
    let mut v = v;
    let mut out: Vec<LegacyEntry> = Vec::new();
    let ghost v0 = entries_view(v@);
    let ghost n = v@.len();
    proof {
        assert(entries_view(out@) =~= Seq::<(ReceiptKey, Seq<u8>)>::empty());
        assert(v0.skip(n as int) =~= Seq::<(ReceiptKey, Seq<u8>)>::empty());
        assert(v0.take(n as int) =~= v0);
    }
    while v.len() > 0
        invariant
            n == v0.len(),
            v@.len() <= n,
            entries_view(v@) == v0.take(v@.len() as int),
            sorted_by_key(entries_view(out@)),
            entries_view(out@).to_multiset() == v0.skip(v@.len() as int).to_multiset(),
        decreases v@.len(),
    {
        let ghost m = v@.len();
        let ghost before_v = entries_view(v@);
        let x = v.pop().unwrap();
        let ghost s = entries_view(out@);
        let ghost xv = entry_view(x);
        proof {
            assert(xv == before_v[m - 1]);
            assert(xv == v0[m - 1]);
            assert(entries_view(v@) =~= v0.take(m - 1));
            assert(v0.skip(m - 1) =~= seq![xv] + v0.skip(m as int));
            vstd::seq_lib::lemma_multiset_commutative(seq![xv], v0.skip(m as int));
            assert(v0.skip(m as int) + seq![xv] =~= v0.skip(m as int).push(xv));
            vstd::seq_lib::to_multiset_build(v0.skip(m as int), xv);
        }
        let mut p: usize = 0;
        while p < out.len() && !entry_less(&x, &out[p])
            invariant
                p <= out@.len(),
                s == entries_view(out@),
                xv == entry_view(x),
                forall|i: int| 0 <= i < p ==> !key_lt(xv.0, #[trigger] s[i].0),
            decreases out@.len() - p,
        {
            p = p + 1;
        }
        out.insert(p, x);
        proof {
            let t = entries_view(out@);
            assert(t =~= s.insert(p as int, xv));
            assert forall|i: int, j: int| 0 <= i < j < t.len() implies !key_lt(
                #[trigger] t[j].0,
                #[trigger] t[i].0,
            ) by {
                if i < p && j == p {
                } else if i == p && j > p {
                    if key_lt(t[j].0, xv.0) {
                        assert(key_lt(xv.0, s[p as int].0));
                        lemma_key_lt_transitive(t[j].0, xv.0, s[p as int].0);
                        if j - 1 > p {
                            assert(!key_lt(s[j - 1].0, s[p as int].0));
                        } else {
                            lemma_key_lt_irreflexive(s[p as int].0);
                        }
                    }
                } else if i < p && j > p {
                    assert(!key_lt(s[j - 1].0, s[i].0));
                } else if i > p {
                    assert(!key_lt(s[j - 1].0, s[i - 1].0));
                } else {
                    assert(!key_lt(s[j].0, s[i].0));
                }
            }
            vstd::seq_lib::to_multiset_insert(s, p as int, xv);
            assert(t.to_multiset() == s.to_multiset().insert(xv));
            assert(s.to_multiset().insert(xv) == v0.skip(m as int).push(xv).to_multiset());
            vstd::seq_lib::lemma_multiset_commutative(seq![xv], v0.skip(m as int));
            vstd::seq_lib::lemma_multiset_commutative(v0.skip(m as int), seq![xv]);
            assert(v0.skip(m as int) + seq![xv] =~= v0.skip(m as int).push(xv));
            assert(seq![xv].to_multiset().add(v0.skip(m as int).to_multiset()) =~= v0.skip(
                m as int,
            ).to_multiset().add(seq![xv].to_multiset()));
            assert(v0.skip(m as int).push(xv).to_multiset() == (seq![xv] + v0.skip(
                m as int,
            )).to_multiset());
            assert(t.to_multiset() == v0.skip(m - 1).to_multiset());
        }
    }
    assert(v0.skip(0) =~= v0);
    out
}

proof fn lemma_flatten_push(s: Seq<Seq<u8>>, x: Seq<u8>)
    ensures
        flatten(s.push(x)) == flatten(s) + x,
{
    assert(s.push(x).drop_last() =~= s);
}

/// The receipts root committed by a pool block (see [`receipts_root_is`]).
pub fn compute_receipts_root_from_pending(receipts: &[PoawxPendingReceipt]) -> (root: [u8; 32])
    ensures
        receipts_root_is(receipts@, root@),
{
    let audit_active = receipts.len() > 0 && receipts[0].height >= AUDIT_RECEIPTS_HEIGHT;
    if audit_active {
        let mut inners: Vec<[u8; 32]> = Vec::new();
        let mut i: usize = 0;
        while i < receipts.len()
            invariant
                i <= receipts@.len(),
                digests_view(inners@) == audit_inners(receipts@.take(i as int)),
            decreases receipts@.len() - i,
        {
            let d = audit_digest(&receipts[i]);
            let ghost before = digests_view(inners@);
            inners.push(d);
            assert(digests_view(inners@) =~= before.push(d@));
            assert(receipts@.take(i + 1) =~= receipts@.take(i as int).push(receipts@[i as int]));
            assert(audit_inners(receipts@.take(i + 1)) =~= audit_inners(receipts@.take(i as int)).push(
                audit_inner(receipts@[i as int]),
            ));
            i = i + 1;
        }
        assert(receipts@.take(receipts@.len() as int) =~= receipts@);
        let sorted = sort_digests(inners);
        let mut outer: Vec<u8> = Vec::new();
        let mut j: usize = 0;
        while j < sorted.len()
            invariant
                j <= sorted@.len(),
                outer@ == flatten(digests_view(sorted@).take(j as int)),
            decreases sorted@.len() - j,
        {
            proof {
                assert(digests_view(sorted@).take(j + 1) =~= digests_view(sorted@).take(
                    j as int,
                ).push(sorted@[j as int]@));
                lemma_flatten_push(digests_view(sorted@).take(j as int), sorted@[j as int]@);
            }
            push_all(&mut outer, sorted[j].as_slice());
            j = j + 1;
        }
        assert(digests_view(sorted@).take(sorted@.len() as int) =~= digests_view(sorted@));
        let root = sha256(outer.as_slice());
        assert(flatten(digests_view(sorted@)) == outer@);
        return root;
    }
    let mut entries: Vec<LegacyEntry> = Vec::new();
    let mut i: usize = 0;
    while i < receipts.len()
        invariant
            i <= receipts@.len(),
            entries_view(entries@) == legacy_entries(receipts@.take(i as int)),
        decreases receipts@.len() - i,
    {
        let r = &receipts[i];
        let e = LegacyEntry {
            height: r.height,
            lane: first_lane_byte(&r.lane),
            pkh: vstd::slice::slice_to_vec(r.worker_pkh.as_str().as_bytes()),
            nonce: vstd::slice::slice_to_vec(r.commitment_nonce.as_str().as_bytes()),
            inner: legacy_digest(r),
        };
        let ghost ev = entry_view(e);
        let ghost before = entries_view(entries@);
        entries.push(e);
        assert(entries_view(entries@) =~= before.push(ev));
        assert(receipts@.take(i + 1) =~= receipts@.take(i as int).push(receipts@[i as int]));
        assert(ev == (receipt_key(receipts@[i as int]), legacy_inner(receipts@[i as int])));
        assert(legacy_entries(receipts@.take(i + 1)) =~= legacy_entries(receipts@.take(i as int)).push(
            ev,
        ));
        i = i + 1;
    }
    assert(receipts@.take(receipts@.len() as int) =~= receipts@);
    let sorted = sort_entries(entries);
    let ghost sv = entries_view(sorted@);
    let ghost inners = sv.map_values(|e: (ReceiptKey, Seq<u8>)| e.1);
    let mut outer: Vec<u8> = Vec::new();
    let mut j: usize = 0;
    while j < sorted.len()
        invariant
            j <= sorted@.len(),
            sv == entries_view(sorted@),
            inners == sv.map_values(|e: (ReceiptKey, Seq<u8>)| e.1),
            outer@ == flatten(inners.take(j as int)),
        decreases sorted@.len() - j,
    {
        proof {
            assert(inners.take(j + 1) =~= inners.take(j as int).push(sorted@[j as int].inner@));
            lemma_flatten_push(inners.take(j as int), sorted@[j as int].inner@);
        }
        push_all(&mut outer, sorted[j].inner.as_slice());
        j = j + 1;
    }
    assert(inners.take(sorted@.len() as int) =~= inners);
    let root = sha256(outer.as_slice());
    assert(sorted_by_key(sv) && sv.to_multiset() == legacy_entries(receipts@).to_multiset());
    root
}

/// In the audit form the receipts root does not depend on the order of the
/// receipts: two lists whose audit digests are the same multiset (for
/// instance, one list and any reordering of it) get the same root.
pub proof fn lemma_audit_root_order_independent(
    r1: Seq<PoawxPendingReceipt>,
    r2: Seq<PoawxPendingReceipt>,
    root1: Seq<u8>,
    root2: Seq<u8>,
)
    requires
        audit_form(r1),
        audit_form(r2),
        audit_inners(r1).to_multiset() == audit_inners(r2).to_multiset(),
        receipts_root_is(r1, root1),
        receipts_root_is(r2, root2),
    ensures
        root1 == root2,
{
    let s1 = choose|s: Seq<Seq<u8>>|
        #![trigger flatten(s)]
        sorted_bytes(s) && s.to_multiset() == audit_inners(r1).to_multiset() && root1 == sha256_of(
            flatten(s),
        );
    let s2 = choose|s: Seq<Seq<u8>>|
        #![trigger flatten(s)]
        sorted_bytes(s) && s.to_multiset() == audit_inners(r2).to_multiset() && root2 == sha256_of(
            flatten(s),
        );
    crate::byte_order::lemma_sorted_unique(s1, s2);
}

} // verus!
