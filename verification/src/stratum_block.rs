//! Block pieces built by the stratum pool: coinbase transactions in the node's
//! wire format, the coinbase split around the extranonce, Merkle branches and
//! roots, the 80-byte header, the `irx1` receipts commitment and the receipts
//! root, and payout addresses.
use vstd::prelude::*;
use crate::wire::{le16, le32, le64, push_le16, push_le32, push_le64, push_all};
use crate::digest::{sha256_of, sha256, sha256d};
use crate::codec::{hex_decode, hex_decoded, bs58_decode, bs58_decoded};

verus! {

// ── Encodings ───────────────────────────────────────────────────────────────

/// Bitcoin's compact size: one byte below 0xfd, else a tag and 2, 4 or 8
/// little-endian bytes.
pub open spec fn varint(v: nat) -> Seq<u8> {
    if v < 0xfd {
        seq![v as u8]
    } else if v <= 0xffff {
        seq![0xfdu8] + le16(v as u16)
    } else if v <= 0xffff_ffff {
        seq![0xfeu8] + le32(v as u32)
    } else {
        seq![0xffu8] + le64(v as u64)
    }
}

fn put_varint(v: usize, out: &mut Vec<u8>)
    ensures
        final(out)@ == old(out)@ + varint(v as nat),
{
    if v < 0xfd {
        out.push(v as u8);
        assert(final(out)@ =~= old(out)@ + varint(v as nat));
    } else if v <= 0xffff {
        out.push(0xfd);
        push_le16(out, v as u16);
        assert(final(out)@ =~= old(out)@ + varint(v as nat));
    } else if v as u64 <= 0xffff_ffff {
        out.push(0xfe);
        push_le32(out, v as u32);
        assert(final(out)@ =~= old(out)@ + varint(v as nat));
    } else {
        out.push(0xff);
        push_le64(out, v as u64);
        assert(final(out)@ =~= old(out)@ + varint(v as nat));
    }
}

/// The pay-to-public-key-hash output script for `pkh`.
pub open spec fn p2pkh(pkh: Seq<u8>) -> Seq<u8> {
    seq![0x76u8, 0xa9u8, 0x14u8] + pkh + seq![0x88u8, 0xacu8]
}

fn p2pkh_script(pkh: &[u8; 20]) -> (s: Vec<u8>)
    ensures
        s@ == p2pkh(pkh@),
{
    let mut s: Vec<u8> = Vec::with_capacity(25);
    s.push(0x76);
    s.push(0xa9);
    s.push(0x14);
    push_all(&mut s, pkh.as_slice());
    s.push(0x88);
    s.push(0xac);
    assert(s@ =~= p2pkh(pkh@));
    s
}

/// The little-endian bytes of `n` with no trailing zero byte (empty for 0).
pub open spec fn le_minimal(n: nat) -> Seq<u8>
    decreases n,
{
    if n == 0 {
        seq![]
    } else {
        seq![(n % 256) as u8] + le_minimal(n / 256)
    }
}

/// The BIP34 height push: a length byte, then the minimal little-endian
/// number, with a zero byte added where the top bit would read as a sign.
pub open spec fn bip34_height(height: u64) -> Seq<u8> {
    let raw0 = if height == 0 { seq![0u8] } else { le_minimal(height as nat) };
    let raw = if raw0.last() >= 0x80 { raw0.push(0u8) } else { raw0 };
    seq![raw.len() as u8] + raw
}

fn encode_bip34_height(height: u64) -> (out: Vec<u8>)
    ensures
        out@ == bip34_height(height),
{
    let mut n = height;
    let mut raw: Vec<u8> = Vec::new();
    while n > 0
        invariant
            raw@ + le_minimal(n as nat) == le_minimal(height as nat),
        decreases n,
    {
        let b = (n & 0xff) as u8;
        assert(n & 0xff == n % 256) by (bit_vector);
        assert(n >> 8 == n / 256) by (bit_vector);
        assert(raw@.push(b) + le_minimal((n / 256) as nat) =~= raw@ + le_minimal(n as nat));
        raw.push(b);
        n = n >> 8;
    }
    assert(raw@ =~= le_minimal(height as nat));
    if raw.len() == 0 {
        raw.push(0);
    }
    let last = raw[raw.len() - 1];
    if last >= 0x80 {
        raw.push(0);
    }
    let mut out: Vec<u8> = Vec::new();
    out.push(raw.len() as u8);
    push_all(&mut out, raw.as_slice());
    assert(out@ =~= bip34_height(height));
    out
}

/// The ASCII decimal digits of `n`, most significant first.
pub open spec fn decimal_digits(n: nat) -> Seq<u8>
    decreases n,
{
    if n < 10 {
        seq![(0x30 + n) as u8]
    } else {
        decimal_digits(n / 10).push((0x30 + n % 10) as u8)
    }
}

fn push_decimal(n: u64, out: &mut Vec<u8>)
    ensures
        final(out)@ == old(out)@ + decimal_digits(n as nat),
    decreases n,
{
    if n >= 10 {
        push_decimal(n / 10, out);
    }
    out.push(0x30u8 + (n % 10) as u8);
    assert(final(out)@ =~= old(out)@ + decimal_digits(n as nat));
}

/// `Irium` in ASCII.
pub const IRIUM_TAG: [u8; 5] = [0x49, 0x72, 0x69, 0x75, 0x6d];

/// The coinbase script before the extranonce: the BIP34 height push and
/// `Irium`, or, without BIP34, `Irium ` and the decimal height.
pub open spec fn script_sig_head(height: u64, bip34: bool) -> Seq<u8> {
    if bip34 {
        bip34_height(height) + IRIUM_TAG@
    } else {
        IRIUM_TAG@ + seq![0x20u8] + decimal_digits(height as nat)
    }
}

fn script_sig_head_bytes(height: u64, bip34: bool) -> (s: Vec<u8>)
    ensures
        s@ == script_sig_head(height, bip34),
{
    if bip34 {
        let mut s = encode_bip34_height(height);
        push_all(&mut s, IRIUM_TAG.as_slice());
        s
    } else {
        let mut s: Vec<u8> = Vec::new();
        push_all(&mut s, IRIUM_TAG.as_slice());
        s.push(0x20);
        push_decimal(height, &mut s);
        assert(s@ =~= script_sig_head(height, bip34));
        s
    }
}

// ── Coinbase transactions ───────────────────────────────────────────────────

/// The single coinbase input: version, one input with a null outpoint whose
/// txid carries the node's one-byte length prefix, the script, the sequence.
pub open spec fn coinbase_input(height: u64, bip34: bool, extranonce: Seq<u8>) -> Seq<u8> {
    let ss = script_sig_head(height, bip34) + extranonce;
    le32(1) + varint(1) + seq![32u8] + Seq::new(32, |i: int| 0u8) + le32(0xffff_ffff)
        + varint(ss.len()) + ss + le32(0xffff_ffff)
}

/// One serialized output.
pub open spec fn tx_output(value: u64, script: Seq<u8>) -> Seq<u8> {
    le64(value) + varint(script.len()) + script
}

/// The outputs, one after the other.
pub open spec fn outputs_bytes(outs: Seq<(u64, Seq<u8>)>) -> Seq<u8>
    decreases outs.len(),
{
    if outs.len() == 0 {
        seq![]
    } else {
        outputs_bytes(outs.drop_last()) + tx_output(outs.last().0, outs.last().1)
    }
}

/// A whole coinbase transaction with the given outputs and lock time zero.
pub open spec fn coinbase_tx(
    height: u64,
    bip34: bool,
    extranonce: Seq<u8>,
    outs: Seq<(u64, Seq<u8>)>,
) -> Seq<u8> {
    coinbase_input(height, bip34, extranonce) + varint(outs.len()) + outputs_bytes(outs) + le32(0)
}

/// The view of extra outputs given as `(value, script)` pairs.
pub open spec fn extras_view(extras: Seq<(u64, Vec<u8>)>) -> Seq<(u64, Seq<u8>)> {
    extras.map_values(|e: (u64, Vec<u8>)| (e.0, e.1@))
}

/// The view of role payouts given as `(pkh, value)` pairs.
pub open spec fn payouts_view(payouts: Seq<([u8; 20], u64)>) -> Seq<(u64, Seq<u8>)> {
    payouts.map_values(|p: ([u8; 20], u64)| (p.1, p2pkh(p.0@)))
}

pub proof fn lemma_outputs_concat(a: Seq<(u64, Seq<u8>)>, b: Seq<(u64, Seq<u8>)>)
    ensures
        outputs_bytes(a + b) == outputs_bytes(a) + outputs_bytes(b),
    decreases b.len(),
{
    if b.len() == 0 {
        assert(a + b =~= a);
        assert(outputs_bytes(a) + outputs_bytes(b) =~= outputs_bytes(a));
    } else {
        assert((a + b).drop_last() =~= a + b.drop_last());
        lemma_outputs_concat(a, b.drop_last());
        assert((a + b).last() == b.last());
        assert(outputs_bytes(a + b) =~= outputs_bytes(a) + outputs_bytes(b));
    }
}

fn push_output(tx: &mut Vec<u8>, value: u64, script: &[u8])
    ensures
        final(tx)@ == old(tx)@ + tx_output(value, script@),
{
    push_le64(tx, value);
    put_varint(script.len(), tx);
    push_all(tx, script);
    assert(final(tx)@ =~= old(tx)@ + tx_output(value, script@));
}

fn push_coinbase_input(tx: &mut Vec<u8>, height: u64, bip34: bool, extranonce: &[u8])
    ensures
        final(tx)@ == old(tx)@ + coinbase_input(height, bip34, extranonce@),
{
    push_le32(tx, 1);
    put_varint(1, tx);
    tx.push(32u8);
    let zeros = [0u8; 32];
    push_all(tx, zeros.as_slice());
    push_le32(tx, 0xffff_ffff);
    let mut script_sig = script_sig_head_bytes(height, bip34);
    push_all(&mut script_sig, extranonce);
    put_varint(script_sig.len(), tx);
    push_all(tx, script_sig.as_slice());
    push_le32(tx, 0xffff_ffff);
    assert(zeros@ =~= Seq::new(32, |i: int| 0u8));
    assert(final(tx)@ =~= old(tx)@ + coinbase_input(height, bip34, extranonce@));
}

fn push_extras(tx: &mut Vec<u8>, extras: &[(u64, Vec<u8>)])
    ensures
        final(tx)@ == old(tx)@ + outputs_bytes(extras_view(extras@)),
{
    let mut i: usize = 0;
    while i < extras.len()
        invariant
            i <= extras@.len(),
            tx@ == old(tx)@ + outputs_bytes(extras_view(extras@.take(i as int))),
        decreases extras@.len() - i,
    {
        let (value, script) = &extras[i];
        push_output(tx, *value, script.as_slice());
        assert(extras_view(extras@.take(i + 1)).drop_last() =~= extras_view(extras@.take(i as int)));
        i = i + 1;
    }
    assert(extras@.take(extras@.len() as int) =~= extras@);
}

fn push_payouts(tx: &mut Vec<u8>, payouts: &[([u8; 20], u64)])
    ensures
        final(tx)@ == old(tx)@ + outputs_bytes(payouts_view(payouts@)),
{
    let mut i: usize = 0;
    while i < payouts.len()
        invariant
            i <= payouts@.len(),
            tx@ == old(tx)@ + outputs_bytes(payouts_view(payouts@.take(i as int))),
        decreases payouts@.len() - i,
    {
        let (pkh, value) = &payouts[i];
        let spk = p2pkh_script(pkh);
        push_output(tx, *value, spk.as_slice());
        assert(payouts_view(payouts@.take(i + 1)).drop_last() =~= payouts_view(
            payouts@.take(i as int),
        ));
        i = i + 1;
    }
    assert(payouts@.take(payouts@.len() as int) =~= payouts@);
}

/// The pool coinbase: one output of `reward` to `pkh`, then the zero-value
/// header-batch outputs in `extras`.
pub fn build_coinbase_tx(
    height: u64,
    reward: u64,
    pkh: &[u8; 20],
    extranonce: &[u8],
    bip34_height: bool,
    extras: &[(u64, Vec<u8>)],
) -> (tx: Vec<u8>)
    requires
        extras@.len() < usize::MAX,
    ensures
        tx@ == coinbase_tx(
            height,
            bip34_height,
            extranonce@,
            seq![(reward, p2pkh(pkh@))] + extras_view(extras@),
        ),
{
    let mut tx: Vec<u8> = Vec::new();
    push_coinbase_input(&mut tx, height, bip34_height, extranonce);
    put_varint(1 + extras.len(), &mut tx);
    let spk = p2pkh_script(pkh);
    push_output(&mut tx, reward, spk.as_slice());
    push_extras(&mut tx, extras);
    push_le32(&mut tx, 0);
    proof {
        let head = seq![(reward, p2pkh(pkh@))];
        lemma_outputs_concat(head, extras_view(extras@));
        assert(head.drop_last() =~= Seq::<(u64, Seq<u8>)>::empty());
        assert(outputs_bytes(head.drop_last()) =~= Seq::<u8>::empty());
        assert(head.last() == (reward, p2pkh(pkh@)));
        assert(outputs_bytes(head) =~= tx_output(reward, p2pkh(pkh@)));
        assert((head + extras_view(extras@)).len() == 1 + extras@.len());
    }
    assert(tx@ =~= coinbase_tx(
        height,
        bip34_height,
        extranonce@,
        seq![(reward, p2pkh(pkh@))] + extras_view(extras@),
    ));
    tx
}

/// The PoAW-X coinbase: one output per role payout (primary, compute, verify,
/// support, and a fee where one applies), then the `extras`. The payouts are
/// the ones derived from the first pending receipt; `reward` and `pool_pkh`
/// do not enter the transaction.
pub fn build_poawx_coinbase_tx(
    height: u64,
    reward: u64,
    pool_pkh: &[u8; 20],
    extranonce: &[u8],
    bip34_height: bool,
    extras: &[(u64, Vec<u8>)],
    role_payouts: &[([u8; 20], u64)],
) -> (tx: Vec<u8>)
    requires
        role_payouts@.len() + extras@.len() <= usize::MAX,
    ensures
        tx@ == coinbase_tx(
            height,
            bip34_height,
            extranonce@,
            payouts_view(role_payouts@) + extras_view(extras@),
        ),
{
    let mut tx: Vec<u8> = Vec::new();
    push_coinbase_input(&mut tx, height, bip34_height, extranonce);
    put_varint(role_payouts.len() + extras.len(), &mut tx);
    push_payouts(&mut tx, role_payouts);
    push_extras(&mut tx, extras);
    push_le32(&mut tx, 0);
    proof {
        lemma_outputs_concat(payouts_view(role_payouts@), extras_view(extras@));
    }
    assert(tx@ =~= coinbase_tx(
        height,
        bip34_height,
        extranonce@,
        payouts_view(role_payouts@) + extras_view(extras@),
    ));
    tx
}

/// The worker's share of a solo block: `reward * (10 000 - fee_bps) / 10 000`,
/// rounded down, with `fee_bps` capped at 10 000.
pub open spec fn solo_worker_reward(reward: u64, fee_bps: u64) -> int {
    let capped = if fee_bps < 10_000 { fee_bps } else { 10_000 };
    (reward * (10_000 - capped)) / 10_000
}

/// The pool's fee: what the worker's reward leaves of `reward`.
pub open spec fn solo_pool_fee(reward: u64, fee_bps: u64) -> int {
    reward - solo_worker_reward(reward, fee_bps)
}

/// The solo split, over all rewards and fees: the worker and the pool share
/// exactly the reward; the worker's part is `reward * (10 000 - fee) / 10 000`
/// rounded down (the fee counted up to 10 000 bps), so the rounding goes to
/// the pool; no fee pays the worker everything, a fee of 10 000 bps or more
/// pays the worker nothing.
pub proof fn lemma_solo_split(reward: u64, fee_bps: u64)
    ensures
        0 <= solo_worker_reward(reward, fee_bps) <= reward,
        solo_worker_reward(reward, fee_bps) + solo_pool_fee(reward, fee_bps) == reward,
        ({
            let keep: int = if fee_bps < 10_000 { 10_000 - fee_bps } else { 0 };
            let w = solo_worker_reward(reward, fee_bps);
            w * 10_000 <= reward * keep < (w + 1) * 10_000
        }),
        fee_bps == 0 ==> solo_worker_reward(reward, fee_bps) == reward,
        fee_bps >= 10_000 ==> solo_worker_reward(reward, fee_bps) == 0,
{
    let keep: int = if fee_bps < 10_000 { 10_000 - fee_bps } else { 0 };
    let w = solo_worker_reward(reward, fee_bps);
    assert(0 <= w <= reward && w * 10_000 <= reward * keep < (w + 1) * 10_000) by (nonlinear_arith)
        requires
            0 <= keep <= 10_000,
            w == (reward * keep) / 10_000,
            reward >= 0,
    ;
    if fee_bps == 0 {
        assert((reward * 10_000) / 10_000 == reward) by (nonlinear_arith)
            requires
                reward >= 0,
        ;
    }
}

/// The solo coinbase: the worker's reward first, then the pool fee (the rest
/// of `reward`), always two outputs (a zero fee included).
pub fn build_solo_coinbase_tx(
    height: u64,
    reward: u64,
    worker_pkh: &[u8; 20],
    pool_pkh: &[u8; 20],
    fee_bps: u64,
    extranonce: &[u8],
    bip34_height: bool,
) -> (tx: Vec<u8>)
    ensures
        tx@ == coinbase_tx(
            height,
            bip34_height,
            extranonce@,
            seq![
                (solo_worker_reward(reward, fee_bps) as u64, p2pkh(worker_pkh@)),
                (solo_pool_fee(reward, fee_bps) as u64, p2pkh(pool_pkh@)),
            ],
        ),
{
    let fee_bps_capped: u64 = if fee_bps < 10_000 { fee_bps } else { 10_000 };
    let keep: u64 = 10_000 - fee_bps_capped;
    assert((reward as int) * (keep as int) <= (u64::MAX as int) * 10_000) by (nonlinear_arith)
        requires
            keep <= 10_000,
    ;
    let wide: u128 = (reward as u128) * (keep as u128) / 10_000;
    assert(wide <= reward) by (nonlinear_arith)
        requires
            wide == (reward as int) * (keep as int) / 10_000,
            keep <= 10_000,
    ;
    let worker_reward = wide as u64;
    let pool_fee = reward - worker_reward;
    let mut tx: Vec<u8> = Vec::new();
    push_coinbase_input(&mut tx, height, bip34_height, extranonce);
    put_varint(2, &mut tx);
    let worker_spk = p2pkh_script(worker_pkh);
    push_output(&mut tx, worker_reward, worker_spk.as_slice());
    let pool_spk = p2pkh_script(pool_pkh);
    push_output(&mut tx, pool_fee, pool_spk.as_slice());
    push_le32(&mut tx, 0);
    proof {
        let outs = seq![
            (solo_worker_reward(reward, fee_bps) as u64, p2pkh(worker_pkh@)),
            (solo_pool_fee(reward, fee_bps) as u64, p2pkh(pool_pkh@)),
        ];
        assert(outs.drop_last().drop_last() =~= Seq::<(u64, Seq<u8>)>::empty());
        assert(outputs_bytes(outs.drop_last().drop_last()) =~= Seq::<u8>::empty());
        assert(outs.drop_last().last() == (worker_reward, worker_spk@));
        assert(outs.last() == (pool_fee, pool_spk@));
        assert(outputs_bytes(outs.drop_last()) =~= tx_output(worker_reward, worker_spk@));
        assert(outputs_bytes(outs) =~= tx_output(worker_reward, worker_spk@) + tx_output(
            pool_fee,
            pool_spk@,
        ));
    }
    assert(tx@ =~= coinbase_tx(
        height,
        bip34_height,
        extranonce@,
        seq![
            (solo_worker_reward(reward, fee_bps) as u64, p2pkh(worker_pkh@)),
            (solo_pool_fee(reward, fee_bps) as u64, p2pkh(pool_pkh@)),
        ],
    ));
    tx
}

// ── Splitting the coinbase around the extranonce ───────────────────────────

/// The 8-byte placeholder built into the coinbase where the miner's
/// extranonce goes; it is non-zero so that no zero field matches it.
pub const EXTRANONCE_MARKER: [u8; 8] = [0xfa, 0xce, 0xb0, 0x0c, 0x1c, 0xab, 0xad, 0x1d];

/// Whether the marker stands at `i` in `full`.
pub open spec fn marker_at(full: Seq<u8>, i: int) -> bool {
    0 <= i && i + 8 <= full.len() && full.subrange(i, i + 8) == EXTRANONCE_MARKER@
}

/// The first position at or after `i` where the marker stands, or the length
/// of `full` where it stands nowhere there.
pub open spec fn first_marker_from(full: Seq<u8>, i: int) -> int
    decreases full.len() - i,
{
    if i < 0 || i + 8 > full.len() {
        full.len() as int
    } else if marker_at(full, i) {
        i
    } else {
        first_marker_from(full, i + 1)
    }
}

pub proof fn lemma_first_marker_bound(full: Seq<u8>, i: int, k: int)
    requires
        0 <= i <= k,
        marker_at(full, k),
    ensures
        i <= first_marker_from(full, i) <= k,
        marker_at(full, first_marker_from(full, i)),
    decreases k - i,
{
    if !marker_at(full, i) {
        lemma_first_marker_bound(full, i + 1, k);
    }
}

fn find_marker(full: &[u8]) -> (pos: usize)
    ensures
        pos == first_marker_from(full@, 0),
{
    let n = full.len();
    let mut i: usize = 0;
    while n >= 8 && i <= n - 8
        invariant
            n == full@.len(),
            first_marker_from(full@, i as int) == first_marker_from(full@, 0),
        decreases n - i,
    {
        let mut j: usize = 0;
        let mut same = true;
        while j < 8
            invariant
                i + 8 <= n,
                n == full@.len(),
                j <= 8,
                same == (forall|k: int| 0 <= k < j ==> full@[i + k] == EXTRANONCE_MARKER@[k]),
            decreases 8 - j,
        {
            if full[i + j] != EXTRANONCE_MARKER[j] {
                same = false;
            }
            j = j + 1;
        }
        if same {
            assert(full@.subrange(i as int, i + 8) =~= EXTRANONCE_MARKER@);
            return i;
        }
        assert(!marker_at(full@, i as int)) by {
            if marker_at(full@, i as int) {
                let k = choose|k: int| 0 <= k < 8 && full@[i + k] != EXTRANONCE_MARKER@[k];
                assert(full@.subrange(i as int, i + 8)[k] == full@[i + k]);
            }
        }
        i = i + 1;
    }
    n
}

/// What the stratum job sends: the coinbase up to the extranonce and from just
/// after it.
pub open spec fn split_at_marker(full: Seq<u8>) -> (Seq<u8>, Seq<u8>) {
    let pos = first_marker_from(full, 0);
    (full.subrange(0, pos), full.subrange(pos + 8, full.len() as int))
}

proof fn lemma_split_reassembles(full: Seq<u8>, k: int)
    requires
        marker_at(full, k),
    ensures
        0 <= first_marker_from(full, 0) <= k,
        marker_at(full, first_marker_from(full, 0)),
        split_at_marker(full).0 + EXTRANONCE_MARKER@ + split_at_marker(full).1 == full,
{
    lemma_first_marker_bound(full, 0, k);
    let pos = first_marker_from(full, 0);
    let a = full.subrange(0, pos);
    let b = full.subrange(pos, pos + 8);
    let c = full.subrange(pos + 8, full.len() as int);
    assert(a + b + c =~= full);
}

fn split_marker(full: &Vec<u8>) -> (r: (Vec<u8>, Vec<u8>))
    requires
        exists|k: int| marker_at(full@, k),
    ensures
        r.0@ == split_at_marker(full@).0,
        r.1@ == split_at_marker(full@).1,
{
    let ghost k = choose|k: int| marker_at(full@, k);
    proof {
        lemma_first_marker_bound(full@, 0, k);
    }
    let pos = find_marker(full.as_slice());
    let mut pre: Vec<u8> = Vec::new();
    let mut post: Vec<u8> = Vec::new();
    let mut i: usize = 0;
    while i < full.len()
        invariant
            pos + 8 <= full@.len(),
            i <= full@.len(),
            pre@ == full@.subrange(0, if i < pos { i as int } else { pos as int }),
            post@ == full@.subrange(pos + 8, if i < pos + 8 { pos + 8 } else { i as int }),
        decreases full@.len() - i,
    {
        if i < pos {
            pre.push(full[i]);
        } else if i >= pos + 8 {
            post.push(full[i]);
        }
        assert(pre@ =~= full@.subrange(0, if i + 1 < pos { i + 1 } else { pos as int }));
        assert(post@ =~= full@.subrange(pos + 8, if i + 1 < pos + 8 { pos + 8 } else { i + 1 }));
        i = i + 1;
    }
    (pre, post)
}

proof fn lemma_marker_in_coinbase(height: u64, bip34: bool, outs: Seq<(u64, Seq<u8>)>)
    ensures
        ({
            let full = coinbase_tx(height, bip34, EXTRANONCE_MARKER@, outs);
            &&& exists|k: int| marker_at(full, k)
            &&& split_at_marker(full).0 + EXTRANONCE_MARKER@ + split_at_marker(full).1 == full
        }),
{
    let ss = script_sig_head(height, bip34) + EXTRANONCE_MARKER@;
    let pre = le32(1) + varint(1) + seq![32u8] + Seq::new(32, |i: int| 0u8) + le32(0xffff_ffff)
        + varint(ss.len()) + script_sig_head(height, bip34);
    let post = le32(0xffff_ffff) + varint(outs.len()) + outputs_bytes(outs) + le32(0);
    let full = coinbase_tx(height, bip34, EXTRANONCE_MARKER@, outs);
    assert(full =~= pre + EXTRANONCE_MARKER@ + post);
    assert(full.subrange(pre.len() as int, (pre.len() + 8) as int) =~= EXTRANONCE_MARKER@);
    lemma_split_reassembles(full, pre.len() as int);
}

/// Where the extranonce starts in a coinbase: after the version, the null
/// outpoint, the script length and the head of the script.
pub open spec fn extranonce_offset(height: u64, bip34: bool) -> int {
    let head = script_sig_head(height, bip34);
    (4 + 1 + 1 + 32 + 4 + varint(head.len() + 8).len() + head.len()) as int
}

proof fn lemma_first_marker_is(full: Seq<u8>, i: int, p: int)
    requires
        0 <= i <= p,
        marker_at(full, p),
        forall|j: int| i <= j < p ==> !#[trigger] marker_at(full, j),
    ensures
        first_marker_from(full, i) == p,
    decreases p - i,
{
    if i < p {
        lemma_first_marker_is(full, i + 1, p);
    }
}

/// The split of a coinbase serves every extranonce: whatever eight bytes are
/// put between the prefix and the suffix, the result is the coinbase built
/// with those bytes as its extranonce. This holds where the marker stands
/// nowhere before the extranonce's place (it can, for one height whose
/// BIP34 push spells it).
pub proof fn lemma_split_takes_any_extranonce(
    height: u64,
    bip34: bool,
    outs: Seq<(u64, Seq<u8>)>,
    en: Seq<u8>,
)
    requires
        en.len() == 8,
        forall|i: int|
            0 <= i < extranonce_offset(height, bip34) ==> !#[trigger] marker_at(
                coinbase_tx(height, bip34, EXTRANONCE_MARKER@, outs),
                i,
            ),
    ensures
        split_at_marker(coinbase_tx(height, bip34, EXTRANONCE_MARKER@, outs)).0 + en + split_at_marker(
            coinbase_tx(height, bip34, EXTRANONCE_MARKER@, outs),
        ).1 == coinbase_tx(height, bip34, en, outs),
{
    let head = script_sig_head(height, bip34);
    let pre = le32(1) + varint(1) + seq![32u8] + Seq::new(32, |i: int| 0u8) + le32(0xffff_ffff)
        + varint(head.len() + 8) + head;
    let post = le32(0xffff_ffff) + varint(outs.len()) + outputs_bytes(outs) + le32(0);
    let full = coinbase_tx(height, bip34, EXTRANONCE_MARKER@, outs);
    assert((head + EXTRANONCE_MARKER@).len() == head.len() + 8);
    assert((head + en).len() == head.len() + 8);
    assert(full =~= pre + EXTRANONCE_MARKER@ + post);
    assert(coinbase_tx(height, bip34, en, outs) =~= pre + en + post);
    assert(pre.len() == extranonce_offset(height, bip34));
    assert(full.subrange(pre.len() as int, (pre.len() + 8) as int) =~= EXTRANONCE_MARKER@);
    lemma_first_marker_is(full, 0, pre.len() as int);
    assert(full.subrange(0, pre.len() as int) =~= pre);
    assert(full.subrange((pre.len() + 8) as int, full.len() as int) =~= post);
}

/// The pool coinbase split around its extranonce: built with the marker in
/// the extranonce's place, cut at the first place the marker stands. The two
/// parts with the marker between them give back the whole transaction.
pub fn coinbase_prefix_suffix(
    height: u64,
    reward: u64,
    pkh: &[u8; 20],
    bip34_height: bool,
    extras: &[(u64, Vec<u8>)],
) -> (r: (Vec<u8>, Vec<u8>))
    requires
        extras@.len() < usize::MAX,
    ensures
        ({
            let full = coinbase_tx(
                height,
                bip34_height,
                EXTRANONCE_MARKER@,
                seq![(reward, p2pkh(pkh@))] + extras_view(extras@),
            );
            &&& (r.0@, r.1@) == split_at_marker(full)
            &&& r.0@ + EXTRANONCE_MARKER@ + r.1@ == full
        }),
{
    let full = build_coinbase_tx(height, reward, pkh, EXTRANONCE_MARKER.as_slice(), bip34_height, extras);
    proof {
        lemma_marker_in_coinbase(height, bip34_height, seq![(reward, p2pkh(pkh@))] + extras_view(extras@));
    }
    split_marker(&full)
}

/// The PoAW-X coinbase split around its extranonce (see
/// [`coinbase_prefix_suffix`]).
pub fn poawx_coinbase_prefix_suffix(
    height: u64,
    reward: u64,
    pool_pkh: &[u8; 20],
    bip34_height: bool,
    extras: &[(u64, Vec<u8>)],
    role_payouts: &[([u8; 20], u64)],
) -> (r: (Vec<u8>, Vec<u8>))
    requires
        role_payouts@.len() + extras@.len() <= usize::MAX,
    ensures
        ({
            let full = coinbase_tx(
                height,
                bip34_height,
                EXTRANONCE_MARKER@,
                payouts_view(role_payouts@) + extras_view(extras@),
            );
            &&& (r.0@, r.1@) == split_at_marker(full)
            &&& r.0@ + EXTRANONCE_MARKER@ + r.1@ == full
        }),
{
    let full = build_poawx_coinbase_tx(
        height,
        reward,
        pool_pkh,
        EXTRANONCE_MARKER.as_slice(),
        bip34_height,
        extras,
        role_payouts,
    );
    proof {
        lemma_marker_in_coinbase(height, bip34_height, payouts_view(role_payouts@) + extras_view(extras@));
    }
    split_marker(&full)
}

/// The solo coinbase split around its extranonce (see
/// [`coinbase_prefix_suffix`]).
pub fn solo_coinbase_prefix_suffix(
    height: u64,
    reward: u64,
    worker_pkh: &[u8; 20],
    pool_pkh: &[u8; 20],
    fee_bps: u64,
    bip34_height: bool,
) -> (r: (Vec<u8>, Vec<u8>))
    ensures
        ({
            let full = coinbase_tx(
                height,
                bip34_height,
                EXTRANONCE_MARKER@,
                seq![
                    (solo_worker_reward(reward, fee_bps) as u64, p2pkh(worker_pkh@)),
                    (solo_pool_fee(reward, fee_bps) as u64, p2pkh(pool_pkh@)),
                ],
            );
            &&& (r.0@, r.1@) == split_at_marker(full)
            &&& r.0@ + EXTRANONCE_MARKER@ + r.1@ == full
        }),
{
    let full = build_solo_coinbase_tx(
        height,
        reward,
        worker_pkh,
        pool_pkh,
        fee_bps,
        EXTRANONCE_MARKER.as_slice(),
        bip34_height,
    );
    proof {
        lemma_marker_in_coinbase(
            height,
            bip34_height,
            seq![
                (solo_worker_reward(reward, fee_bps) as u64, p2pkh(worker_pkh@)),
                (solo_pool_fee(reward, fee_bps) as u64, p2pkh(pool_pkh@)),
            ],
        );
    }
    split_marker(&full)
}

// ── Merkle branches and the header ──────────────────────────────────────────

/// SHA-256 applied twice.
pub open spec fn sha256d_of(x: Seq<u8>) -> Seq<u8> {
    sha256_of(sha256_of(x))
}

/// The bytes of a text, as `str::as_bytes` gives them.
pub open spec fn text_bytes(s: Seq<char>) -> Seq<u8> {
    vstd::utf8::encode_utf8(s)
}

/// The parent of the pair at `2 * i`, the last node paired with itself where
/// the level has an odd length.
pub open spec fn merkle_parent(level: Seq<Seq<u8>>, i: int) -> Seq<u8> {
    let left = level[2 * i];
    let right = if 2 * i + 1 < level.len() { level[2 * i + 1] } else { level[2 * i] };
    sha256d_of(left + right)
}

/// The level above `level`.
pub open spec fn next_level(level: Seq<Seq<u8>>) -> Seq<Seq<u8>> {
    Seq::new(((level.len() + 1) / 2) as nat, |i: int| merkle_parent(level, i))
}

/// The Merkle branch of the leftmost leaf (the coinbase): its sibling on each
/// level, from the leaves up.
pub open spec fn merkle_branches(level: Seq<Seq<u8>>) -> Seq<Seq<u8>>
    decreases level.len(),
{
    if level.len() <= 1 {
        seq![]
    } else {
        seq![level[1]] + merkle_branches(next_level(level))
    }
}

/// The leaves of a block template: a zero placeholder for the coinbase, then
/// the double hash of each transaction's bytes.
pub open spec fn template_leaves(txs: Seq<Seq<u8>>) -> Seq<Seq<u8>> {
    seq![Seq::new(32, |i: int| 0u8)] + txs.map_values(|tx: Seq<u8>| sha256d_of(tx))
}

/// Whether every template transaction is valid hex.
pub open spec fn all_hex(txs: Seq<String>) -> bool {
    forall|i: int| 0 <= i < txs.len() ==> (#[trigger] hex_decoded(text_bytes(txs[i]@))) is Some
}

/// The decoded template transactions.
pub open spec fn decoded_txs(txs: Seq<String>) -> Seq<Seq<u8>> {
    txs.map_values(|s: String| hex_decoded(text_bytes(s@)).unwrap())
}

/// The views of a list of digests.
pub open spec fn digests_view(v: Seq<[u8; 32]>) -> Seq<Seq<u8>> {
    v.map_values(|d: [u8; 32]| d@)
}

/// What the stratum pool could not do.
#[derive(Debug, Clone, Copy, PartialEq, Eq, Structural)]
pub enum BlockError {
    /// A template transaction or a hash is not valid hex.
    HexDecode,
    /// A hash does not decode to 32 bytes.
    HexLength,
    /// A number is not valid hexadecimal for a `u32`.
    HexParse,
    /// An address is not valid Base58.
    Base58Decode,
    /// An address does not decode to 25 bytes.
    AddressLength,
    /// An address's checksum does not match.
    AddressChecksum,
}

/// The text of a block-building error.
pub open spec fn block_error_text(e: BlockError) -> Seq<char> {
    match e {
        BlockError::HexDecode => "hex decode failed"@,
        BlockError::HexLength => "expected 32 bytes"@,
        BlockError::HexParse => "hex parse failed"@,
        BlockError::Base58Decode => "base58 decode failed"@,
        BlockError::AddressLength => "invalid address length"@,
        BlockError::AddressChecksum => "address checksum mismatch"@,
    }
}

impl BlockError {
    /// The error's text.
    pub fn message(&self) -> (s: String)
        ensures
            s@ == block_error_text(*self),
    {
        match self {
            BlockError::HexDecode => "hex decode failed".to_owned(),
            BlockError::HexLength => "expected 32 bytes".to_owned(),
            BlockError::HexParse => "hex parse failed".to_owned(),
            BlockError::Base58Decode => "base58 decode failed".to_owned(),
            BlockError::AddressLength => "invalid address length".to_owned(),
            BlockError::AddressChecksum => "address checksum mismatch".to_owned(),
        }
    }
}

fn concat32(a: &[u8; 32], b: &[u8; 32]) -> (v: Vec<u8>)
    ensures
        v@ == a@ + b@,
{
    let mut v: Vec<u8> = Vec::new();
    push_all(&mut v, a.as_slice());
    push_all(&mut v, b.as_slice());
    v
}

fn merkle_next(level: &Vec<[u8; 32]>) -> (next: Vec<[u8; 32]>)
    requires
        level@.len() >= 1,
    ensures
        digests_view(next@) == next_level(digests_view(level@)),
{
    let ghost lv = digests_view(level@);
    let mut next: Vec<[u8; 32]> = Vec::new();
    let n = level.len();
    let pairs = n / 2 + n % 2;
    let mut p: usize = 0;
    while p < pairs
        invariant
            lv == digests_view(level@),
            n == level@.len(),
            pairs == n / 2 + n % 2,
            p <= pairs,
            next@.len() == p,
            forall|j: int| 0 <= j < next@.len() ==> (#[trigger] next@[j])@ == merkle_parent(lv, j),
        decreases pairs - p,
    {
        let i = 2 * p;
        let left = level[i];
        let right = if i + 1 < n { level[i + 1] } else { level[i] };
        let data = concat32(&left, &right);
        let h = sha256d(data.as_slice());
        next.push(h);
        p = p + 1;
    }
    assert(digests_view(next@) =~= next_level(lv));
    next
}

/// The Merkle branch for a template: every transaction's hex decoded and
/// double-hashed, a zero placeholder put first for the coinbase, and the
/// sibling of the leftmost node taken on each level. Fails exactly where a
/// transaction is not valid hex.
pub fn build_merkle_branches(template_tx_hex: &[String]) -> (r: Result<Vec<[u8; 32]>, BlockError>)
    ensures
        match r {
            Ok(b) => all_hex(template_tx_hex@) && digests_view(b@) == merkle_branches(
                template_leaves(decoded_txs(template_tx_hex@)),
            ),
            Err(e) => !all_hex(template_tx_hex@) && e == BlockError::HexDecode,
        },
{
    let ghost txs = template_tx_hex@;
    let mut level: Vec<[u8; 32]> = Vec::new();
    let zero = [0u8; 32];
    level.push(zero);
    assert(zero@ =~= Seq::new(32, |i: int| 0u8));
    assert(txs.take(0) =~= Seq::<String>::empty());
    assert(digests_view(level@) =~= template_leaves(decoded_txs(txs.take(0))));
    let mut k: usize = 0;
    while k < template_tx_hex.len()
        invariant
            txs == template_tx_hex@,
            k <= txs.len(),
            level@.len() == k + 1,
            forall|j: int| 0 <= j < k ==> (#[trigger] hex_decoded(text_bytes(txs[j]@))) is Some,
            digests_view(level@) == template_leaves(decoded_txs(txs.take(k as int))),
        decreases txs.len() - k,
    {
        let raw = match hex_decode(template_tx_hex[k].as_str().as_bytes()) {
            Some(b) => b,
            None => {
                assert(hex_decoded(text_bytes(txs[k as int]@)) is None);
                return Err(BlockError::HexDecode);
            },
        };
        assert(hex_decoded(text_bytes(txs[k as int]@)) == Some(raw@));
        let h = sha256d(raw.as_slice());
        let ghost before = digests_view(level@);
        let ghost dk = decoded_txs(txs.take(k as int));
        assert(decoded_txs(txs.take(k + 1)) =~= dk.push(raw@));
        assert(template_leaves(dk.push(raw@)) =~= template_leaves(dk).push(sha256d_of(raw@)));
        level.push(h);
        assert(digests_view(level@) =~= before.push(h@));
        assert(digests_view(level@) =~= template_leaves(decoded_txs(txs.take(k + 1))));
        k = k + 1;
    }
    assert(txs.take(txs.len() as int) =~= txs);
    let ghost leaves = digests_view(level@);
    let mut branches: Vec<[u8; 32]> = Vec::new();
    while level.len() > 1
        invariant
            level@.len() >= 1,
            merkle_branches(leaves) == digests_view(branches@) + merkle_branches(
                digests_view(level@),
            ),
        decreases level@.len(),
    {
        let sibling = level[1];
        let ghost lv = digests_view(level@);
        let ghost prev = digests_view(branches@);
        branches.push(sibling);
        assert(digests_view(branches@) =~= prev.push(sibling@));
        let next = merkle_next(&level);
        level = next;
        assert(merkle_branches(lv) == seq![lv[1]] + merkle_branches(next_level(lv)));
        assert(prev + merkle_branches(lv) =~= prev.push(sibling@) + merkle_branches(next_level(lv)));
    }
    assert(merkle_branches(digests_view(level@)) =~= Seq::<Seq<u8>>::empty());
    assert(digests_view(branches@) + Seq::<Seq<u8>>::empty() =~= digests_view(branches@));
    Ok(branches)
}

/// Folding the branch into the coinbase hash: each step hashes the running
/// root followed by the next branch.
pub open spec fn merkle_fold(h: Seq<u8>, branches: Seq<Seq<u8>>) -> Seq<u8>
    decreases branches.len(),
{
    if branches.len() == 0 {
        h
    } else {
        sha256d_of(merkle_fold(h, branches.drop_last()) + branches.last())
    }
}

/// The Merkle root from the coinbase hash and the branch.
pub fn merkle_root_from_coinbase(coinbase_hash: [u8; 32], branches: &[[u8; 32]]) -> (root: [u8; 32])
    ensures
        root@ == merkle_fold(coinbase_hash@, digests_view(branches@)),
{
    let mut root = coinbase_hash;
    let mut i: usize = 0;
    while i < branches.len()
        invariant
            i <= branches@.len(),
            root@ == merkle_fold(coinbase_hash@, digests_view(branches@.take(i as int))),
        decreases branches@.len() - i,
    {
        let data = concat32(&root, &branches[i]);
        root = sha256d(data.as_slice());
        assert(digests_view(branches@.take(i + 1)).drop_last() =~= digests_view(
            branches@.take(i as int),
        ));
        i = i + 1;
    }
    assert(branches@.take(branches@.len() as int) =~= branches@);
    root
}

/// The Merkle root of a level: the single node once one is left.
pub open spec fn merkle_root_of(level: Seq<Seq<u8>>) -> Seq<u8>
    decreases level.len(),
{
    if level.len() <= 1 {
        if level.len() == 1 { level[0] } else { seq![] }
    } else {
        merkle_root_of(next_level(level))
    }
}

proof fn lemma_fold_first(h: Seq<u8>, b0: Seq<u8>, rest: Seq<Seq<u8>>)
    ensures
        merkle_fold(h, seq![b0] + rest) == merkle_fold(sha256d_of(h + b0), rest),
    decreases rest.len(),
{
    if rest.len() == 0 {
        let s = seq![b0] + rest;
        assert(s.drop_last() =~= Seq::<Seq<u8>>::empty());
        assert(merkle_fold(h, s.drop_last()) == h);
        assert(s.last() == b0);
        assert(merkle_fold(h, s) == sha256d_of(h + b0));
    } else {
        let s = seq![b0] + rest;
        lemma_fold_first(h, b0, rest.drop_last());
        assert(s.drop_last() =~= seq![b0] + rest.drop_last());
        assert(s.last() == rest.last());
        assert(merkle_fold(h, s) == sha256d_of(merkle_fold(h, s.drop_last()) + s.last()));
    }
}

/// What the miner's root is: folding the branch of a level into a new
/// leftmost leaf gives the Merkle root of the level with that leaf put in
/// place of the placeholder.
pub proof fn lemma_branch_root(level: Seq<Seq<u8>>, c: Seq<u8>)
    requires
        level.len() >= 1,
    ensures
        merkle_fold(c, merkle_branches(level)) == merkle_root_of(level.update(0, c)),
    decreases level.len(),
{
    if level.len() == 1 {
        assert(merkle_branches(level) =~= Seq::<Seq<u8>>::empty());
    } else {
        let up = level.update(0, c);
        let nl = next_level(level);
        let p = sha256d_of(c + level[1]);
        assert(next_level(up) =~= nl.update(0, p)) by {
            assert forall|i: int| 0 <= i < nl.len() implies #[trigger] next_level(up)[i] == nl.update(0, p)[i] by {
                if i == 0 {
                    assert(merkle_parent(up, 0) == p);
                } else {
                    assert(up[2 * i] == level[2 * i]);
                    if 2 * i + 1 < level.len() {
                        assert(up[2 * i + 1] == level[2 * i + 1]);
                    }
                }
            }
        }
        lemma_fold_first(c, level[1], merkle_branches(nl));
        lemma_branch_root(nl, p);
    }
}

/// The stratum round trip: a template's branch, folded into a coinbase hash
/// by [`merkle_root_from_coinbase`], gives the Merkle root of the template's
/// leaves with that coinbase hash in the placeholder's place.
pub proof fn lemma_template_root(txs: Seq<Seq<u8>>, coinbase_hash: Seq<u8>)
    ensures
        merkle_fold(coinbase_hash, merkle_branches(template_leaves(txs))) == merkle_root_of(
            template_leaves(txs).update(0, coinbase_hash),
        ),
{
    lemma_branch_root(template_leaves(txs), coinbase_hash);
}

/// The 80-byte block header.
pub open spec fn header_layout(
    version: u32,
    prev_hash: Seq<u8>,
    merkle_root: Seq<u8>,
    ntime: u32,
    nbits: u32,
    nonce: u32,
) -> Seq<u8> {
    le32(version) + prev_hash + merkle_root + le32(ntime) + le32(nbits) + le32(nonce)
}

pub fn header_bytes(
    version: u32,
    prev_hash: [u8; 32],
    merkle_root: [u8; 32],
    ntime: u32,
    nbits: u32,
    nonce: u32,
) -> (h: [u8; 80])
    ensures
        h@ == header_layout(version, prev_hash@, merkle_root@, ntime, nbits, nonce),
{
    let mut v: Vec<u8> = Vec::new();
    push_le32(&mut v, version);
    push_all(&mut v, prev_hash.as_slice());
    push_all(&mut v, merkle_root.as_slice());
    push_le32(&mut v, ntime);
    push_le32(&mut v, nbits);
    push_le32(&mut v, nonce);
    let mut h = [0u8; 80];
    let mut i: usize = 0;
    while i < 80
        invariant
            i <= 80,
            v@.len() == 80,
            forall|j: int| 0 <= j < i ==> h@[j] == v@[j],
        decreases 80 - i,
    {
        h[i] = v[i];
        i = i + 1;
    }
    assert(h@ =~= header_layout(version, prev_hash@, merkle_root@, ntime, nbits, nonce));
    h
}

/// `irx1` in ASCII.
pub const IRX1_TAG: [u8; 4] = [0x69, 0x72, 0x78, 0x31];

/// The receipts-root commitment output script: `OP_RETURN`, a 36-byte push,
/// `irx1` and the root.
pub fn build_irx1_commitment_script(root: &[u8; 32]) -> (s: Vec<u8>)
    ensures
        s@ == seq![0x6au8, 0x24u8] + IRX1_TAG@ + root@,
{
    let mut s: Vec<u8> = Vec::new();
    s.push(0x6a);
    s.push(0x24);
    push_all(&mut s, IRX1_TAG.as_slice());
    push_all(&mut s, root.as_slice());
    assert(s@ =~= seq![0x6au8, 0x24u8] + IRX1_TAG@ + root@);
    s
}

// ── Parsing ─────────────────────────────────────────────────────────────────

/// A 32-byte hash from hex: the hex must be valid and decode to exactly 32
/// bytes.
pub fn parse_hex32(s: &str) -> (r: Result<[u8; 32], BlockError>)
    ensures
        match r {
            Ok(h) => hex_decoded(text_bytes(s@)) == Some(h@),
            Err(e) => {
                ||| (hex_decoded(text_bytes(s@)) is None && e == BlockError::HexDecode)
                ||| (hex_decoded(text_bytes(s@)) matches Some(b) && b.len() != 32 && e
                    == BlockError::HexLength)
            },
        },
{
    let b = match hex_decode(s.as_bytes()) {
        Some(b) => b,
        None => {
            return Err(BlockError::HexDecode);
        },
    };
    if b.len() != 32 {
        return Err(BlockError::HexLength);
    }
    let h = crate::wire::read_array32(b.as_slice(), 0);
    assert(h@ =~= b@);
    Ok(h)
}

/// A worker's 20-byte key hash from hex, surrounding whitespace ignored;
/// nothing unless it decodes to exactly 20 bytes.
pub fn parse_worker_pkh_hex(hex_str: &str) -> (r: Option<[u8; 20]>)
    ensures
        match hex_decoded(text_bytes(crate::text::trimmed(hex_str@))) {
            Some(b) => if b.len() == 20 {
                r matches Some(p) && p@ == b
            } else {
                r is None
            },
            None => r is None,
        },
{
    let t = crate::text::trim_str(hex_str);
    let b = match hex_decode(t.as_bytes()) {
        Some(b) => b,
        None => {
            return None;
        },
    };
    if b.len() != 20 {
        return None;
    }
    let p = crate::wire::read_array20(b.as_slice(), 0);
    assert(p@ =~= b@);
    Some(p)
}

/// A `u32` from hex text: every leading `0x` removed, then parsed as
/// `u32::from_str_radix(.., 16)` does.
pub fn parse_u32_hex(s: &str) -> (r: Result<u32, BlockError>)
    ensures
        match r {
            Ok(v) => crate::text::hex_u32_of(crate::text::strip_0x(s@)) == Some(v),
            Err(e) => crate::text::hex_u32_of(crate::text::strip_0x(s@)) is None && e
                == BlockError::HexParse,
        },
{
    let chars = crate::text::chars_of(s);
    let k = crate::text::skip_0x(chars.as_slice());
    let mut rest: Vec<char> = Vec::new();
    let mut i: usize = k;
    while i < chars.len()
        invariant
            k <= i <= chars@.len(),
            rest@ == chars@.subrange(k as int, i as int),
        decreases chars@.len() - i,
    {
        rest.push(chars[i]);
        assert(rest@ =~= chars@.subrange(k as int, i + 1));
        i = i + 1;
    }
    match crate::text::parse_hex_u32(rest.as_slice()) {
        Some(v) => Ok(v),
        None => Err(BlockError::HexParse),
    }
}

/// What a decoded Base58 address gives: 25 bytes, a version byte, the 20-byte
/// key hash, then the first 4 bytes of the double SHA-256 of the first 21.
pub open spec fn address_pkh_of(decoded: Seq<u8>) -> Result<Seq<u8>, BlockError> {
    if decoded.len() != 25 {
        Err(BlockError::AddressLength)
    } else if decoded.subrange(21, 25) != sha256d_of(decoded.subrange(0, 21)).subrange(0, 4) {
        Err(BlockError::AddressChecksum)
    } else {
        Ok(decoded.subrange(1, 21))
    }
}

/// The key hash in a decoded Base58 address, checked as [`address_pkh_of`] says.
pub fn address_pkh_from_decoded(decoded: &[u8]) -> (r: Result<[u8; 20], BlockError>)
    ensures
        match r {
            Ok(p) => address_pkh_of(decoded@) == Ok::<Seq<u8>, BlockError>(p@),
            Err(e) => address_pkh_of(decoded@) == Err::<Seq<u8>, BlockError>(e),
        },
{
    if decoded.len() != 25 {
        return Err(BlockError::AddressLength);
    }
    let mut payload: Vec<u8> = Vec::new();
    let mut i: usize = 0;
    while i < 21
        invariant
            decoded@.len() == 25,
            i <= 21,
            payload@ == decoded@.subrange(0, i as int),
        decreases 21 - i,
    {
        payload.push(decoded[i]);
        assert(payload@ =~= decoded@.subrange(0, i + 1));
        i = i + 1;
    }
    let check = sha256d(payload.as_slice());
    assert(check@ == sha256d_of(decoded@.subrange(0, 21)));
    let mut j: usize = 0;
    while j < 4
        invariant
            decoded@.len() == 25,
            check@.len() == 32,
            check@ == sha256d_of(decoded@.subrange(0, 21)),
            j <= 4,
            forall|m: int| 0 <= m < j ==> decoded@[21 + m] == check@[m],
        decreases 4 - j,
    {
        if decoded[21 + j] != check[j] {
            assert(decoded@.subrange(21, 25)[j as int] != check@.subrange(0, 4)[j as int]);
            assert(decoded@.subrange(21, 25) != check@.subrange(0, 4));
            assert(check@ == sha256d_of(decoded@.subrange(0, 21)));
            return Err(BlockError::AddressChecksum);
        }
        j = j + 1;
    }
    assert(decoded@.subrange(21, 25) =~= check@.subrange(0, 4));
    let pkh = crate::wire::read_array20(decoded, 1);
    Ok(pkh)
}

/// The key hash of a Base58 address: decoded with `bs58`, then checked and
/// taken apart as [`address_pkh_from_decoded`] does.
pub fn parse_address_to_pkh(addr: &str) -> (r: Result<[u8; 20], BlockError>)
    ensures
        match bs58_decoded(addr@) {
            None => r == Err::<[u8; 20], BlockError>(BlockError::Base58Decode),
            Some(d) => match r {
                Ok(p) => address_pkh_of(d) == Ok::<Seq<u8>, BlockError>(p@),
                Err(e) => address_pkh_of(d) == Err::<Seq<u8>, BlockError>(e),
            },
        },
{
    match bs58_decode(addr) {
        None => Err(BlockError::Base58Decode),
        Some(d) => address_pkh_from_decoded(d.as_slice()),
    }
}

} // verus!
