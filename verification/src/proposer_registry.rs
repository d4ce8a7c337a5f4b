//! The reorg-safe registry of eligible proposer VRF keys.
//!
//! A key is eligible for height `H` only through on-chain registrations frozen
//! at `H - freeze_depth` and not older than the expiry window, so the seed
//! revealed at `H - 1` cannot be used to register a winning key after the fact.
//! Registrations apply when a block connects and revert, as the exact inverse,
//! when it disconnects. Keys are kept in ascending byte order, so every listing
//! is deterministic.
use vstd::prelude::*;
use crate::activation::NodeEnv;
use crate::poawx_proposer::{proposer_freeze_depth, proposer_expiry_window, max1};

verus! {

/// Strict lexicographic order on byte strings of equal length.
pub open spec fn lex_lt(a: Seq<u8>, b: Seq<u8>) -> bool
    decreases a.len(),
{
    if a.len() == 0 || b.len() == 0 {
        false
    } else if a[0] < b[0] {
        true
    } else if a[0] == b[0] {
        lex_lt(a.drop_first(), b.drop_first())
    } else {
        false
    }
}

pub proof fn lemma_lex_irreflexive(a: Seq<u8>)
    ensures
        !lex_lt(a, a),
    decreases a.len(),
{
    if a.len() > 0 {
        lemma_lex_irreflexive(a.drop_first());
    }
}

pub proof fn lemma_lex_transitive(a: Seq<u8>, b: Seq<u8>, c: Seq<u8>)
    requires
        lex_lt(a, b),
        lex_lt(b, c),
    ensures
        lex_lt(a, c),
    decreases a.len(),
{
    if a[0] == b[0] && b[0] == c[0] {
        lemma_lex_transitive(a.drop_first(), b.drop_first(), c.drop_first());
    }
}

pub proof fn lemma_lex_total(a: Seq<u8>, b: Seq<u8>)
    requires
        a.len() == b.len(),
    ensures
        a == b || lex_lt(a, b) || lex_lt(b, a),
    decreases a.len(),
{
    if a.len() == 0 {
        assert(a =~= b);
    } else if a[0] == b[0] {
        lemma_lex_total(a.drop_first(), b.drop_first());
        if a.drop_first() == b.drop_first() {
            assert(a =~= seq![a[0]] + a.drop_first());
            assert(b =~= seq![b[0]] + b.drop_first());
        }
    }
}

/// Compares two keys in ascending byte order.
pub fn key_lt(a: &[u8; 33], b: &[u8; 33]) -> (r: bool)
    ensures
        r == lex_lt(a@, b@),
{
    let mut i: usize = 0;
    assert(a@.skip(0) =~= a@);
    assert(b@.skip(0) =~= b@);
    while i < 33
        invariant
            i <= 33,
            a@.len() == 33,
            b@.len() == 33,
            a@.take(i as int) == b@.take(i as int),
            lex_lt(a@, b@) == lex_lt(a@.skip(i as int), b@.skip(i as int)),
        decreases 33 - i,
    {
        assert(a@.skip(i as int).drop_first() =~= a@.skip(i + 1));
        assert(b@.skip(i as int).drop_first() =~= b@.skip(i + 1));
        if a[i] < b[i] {
            return true;
        }
        if a[i] > b[i] {
            return false;
        }
        assert(a@.take(i + 1) =~= a@.take(i as int).push(a@[i as int]));
        assert(b@.take(i + 1) =~= b@.take(i as int).push(b@[i as int]));
        i = i + 1;
    }
    false
}

pub fn key_eq(a: &[u8; 33], b: &[u8; 33]) -> (r: bool)
    ensures
        r == (a@ == b@),
{
    crate::wire::bytes_equal(a.as_slice(), b.as_slice())
}

/// The model of one registry entry: key, owner pkh, and the set of heights at
/// which the key appeared on-chain.
pub type EntryView = (Seq<u8>, Seq<u8>, Set<u64>);

/// Keys strictly ascending, each entry with at least one height.
pub open spec fn view_wf(s: Seq<EntryView>) -> bool {
    &&& forall|i: int, j: int| 0 <= i < j < s.len() ==> lex_lt(#[trigger] s[i].0, #[trigger] s[j].0)
    &&& forall|i: int| 0 <= i < s.len() ==> (#[trigger] s[i]).2.len() > 0 && s[i].2.finite()
    &&& forall|i: int| 0 <= i < s.len() ==> (#[trigger] s[i]).0.len() == 33
}

/// Number of leading entries whose key is below `k`: where `k` is, or would go.
pub open spec fn lower_bound(s: Seq<EntryView>, k: Seq<u8>) -> int
    decreases s.len(),
{
    if s.len() == 0 {
        0
    } else if lex_lt(s[0].0, k) {
        1 + lower_bound(s.drop_first(), k)
    } else {
        0
    }
}

pub proof fn lemma_lower_bound(s: Seq<EntryView>, k: Seq<u8>, p: int)
    requires
        0 <= p <= s.len(),
        forall|j: int| 0 <= j < p ==> lex_lt(#[trigger] s[j].0, k),
        p == s.len() || !lex_lt(s[p].0, k),
    ensures
        lower_bound(s, k) == p,
    decreases s.len(),
{
    if s.len() > 0 && p > 0 {
        assert forall|j: int| 0 <= j < p - 1 implies lex_lt(#[trigger] s.drop_first()[j].0, k) by {
            assert(s.drop_first()[j] == s[j + 1]);
        }
        if p < s.len() {
            assert(s.drop_first()[p - 1] == s[p]);
        }
        lemma_lower_bound(s.drop_first(), k, p - 1);
    }
}

/// The registry after recording that `k` (owned by `pkh`) appeared at `h`.
pub open spec fn after_register(s: Seq<EntryView>, k: Seq<u8>, pkh: Seq<u8>, h: u64) -> Seq<
    EntryView,
> {
    let p = lower_bound(s, k);
    if p < s.len() && s[p].0 == k {
        s.update(p, (k, pkh, s[p].2.insert(h)))
    } else {
        s.insert(p, (k, pkh, set![h]))
    }
}

/// The registry after withdrawing the appearance of `k` at `h`; a key left
/// with no height is dropped.
pub open spec fn after_unregister(s: Seq<EntryView>, k: Seq<u8>, h: u64) -> Seq<EntryView> {
    let p = lower_bound(s, k);
    if p < s.len() && s[p].0 == k {
        let hs = s[p].2.remove(h);
        if hs.len() == 0 {
            s.remove(p)
        } else {
            s.update(p, (k, s[p].1, hs))
        }
    } else {
        s
    }
}

/// Whether some height in `hs` lies in `[lo, hi]`.
pub open spec fn window_hit(hs: Set<u64>, lo: u64, hi: u64) -> bool {
    exists|x: u64| hs.contains(x) && lo <= x <= hi
}

/// The inclusive frozen window `[lo, hi]` for target `t`: `None` until `fd`
/// blocks of history exist.
pub open spec fn frozen_window(fd: u64, ew: u64, t: u64) -> Option<(u64, u64)> {
    if t < fd {
        None
    } else {
        let hi = (t - fd) as u64;
        let back = if ew == 0 {
            0
        } else {
            ew - 1
        };
        let lo = if hi < back {
            0
        } else {
            hi - back
        };
        Some((lo as u64, hi))
    }
}

/// Entries of `s` with a height in `[lo, hi]`, counted.
pub open spec fn count_hits(s: Seq<EntryView>, lo: u64, hi: u64) -> nat
    decreases s.len(),
{
    if s.len() == 0 {
        0
    } else {
        count_hits(s.drop_last(), lo, hi) + if window_hit(s.last().2, lo, hi) {
            1nat
        } else {
            0nat
        }
    }
}

/// Owner pkhs of the entries of `s` with a height in `[lo, hi]`, in key order.
pub open spec fn pkhs_hit(s: Seq<EntryView>, lo: u64, hi: u64) -> Seq<Seq<u8>>
    decreases s.len(),
{
    if s.len() == 0 {
        Seq::empty()
    } else if window_hit(s.last().2, lo, hi) {
        pkhs_hit(s.drop_last(), lo, hi).push(s.last().1)
    } else {
        pkhs_hit(s.drop_last(), lo, hi)
    }
}

pub open spec fn eligible_count_spec(s: Seq<EntryView>, t: u64, fd: u64, ew: u64) -> nat {
    match frozen_window(fd, ew, t) {
        None => 0,
        Some(w) => count_hits(s, w.0, w.1),
    }
}

pub open spec fn is_eligible_spec(s: Seq<EntryView>, k: Seq<u8>, t: u64, fd: u64, ew: u64) -> bool {
    match frozen_window(fd, ew, t) {
        None => false,
        Some(w) => exists|i: int| 0 <= i < s.len() && s[i].0 == k && window_hit(s[i].2, w.0, w.1),
    }
}

pub open spec fn eligible_pkhs_spec(s: Seq<EntryView>, t: u64, fd: u64, ew: u64) -> Seq<Seq<u8>> {
    match frozen_window(fd, ew, t) {
        None => Seq::empty(),
        Some(w) => pkhs_hit(s, w.0, w.1),
    }
}

pub struct ProposerKeyRecord {
    pkh: [u8; 20],
    heights: Vec<u64>,
}

pub struct RegistryEntry {
    key: [u8; 33],
    rec: ProposerKeyRecord,
}

pub closed spec fn entry_view(e: RegistryEntry) -> EntryView {
    (e.key@, e.rec.pkh@, e.rec.heights@.to_set())
}

pub closed spec fn entries_view(v: Seq<RegistryEntry>) -> Seq<EntryView> {
    v.map_values(|e: RegistryEntry| entry_view(e))
}

pub closed spec fn entries_wf(v: Seq<RegistryEntry>) -> bool {
    &&& view_wf(entries_view(v))
    &&& forall|i: int| 0 <= i < v.len() ==> (#[trigger] v[i]).rec.heights@.no_duplicates()
}

/// Reorg-safe registry of eligible proposer VRF keys.
pub struct ProposerEligibilityRegistry {
    keys: Vec<RegistryEntry>,
}

impl View for ProposerEligibilityRegistry {
    type V = Seq<EntryView>;

    closed spec fn view(&self) -> Seq<EntryView> {
        entries_view(self.keys@)
    }
}

impl Default for ProposerEligibilityRegistry {
    fn default() -> (r: Self)
        ensures
            r@ == Seq::<EntryView>::empty(),
    {
        Self::new()
    }
}

impl ProposerEligibilityRegistry {
    #[verifier::type_invariant]
    closed spec fn inv(self) -> bool {
        entries_wf(self.keys@)
    }

    /// An empty registry (nothing is read from the environment).
    pub fn from_env() -> (r: Self)
        ensures
            r@ == Seq::<EntryView>::empty(),
    {
        Self::new()
    }

    /// An empty registry.
    pub fn new() -> (r: Self)
        ensures
            r@ == Seq::<EntryView>::empty(),
    {
        let r = ProposerEligibilityRegistry { keys: Vec::new() };
        assert(r@ =~= Seq::<EntryView>::empty());
        r
    }

    /// The model is always well formed: keys strictly ascending, each with a height.
    pub fn wf_holds(&self) -> (b: bool)
        ensures
            b,
            view_wf(self@),
    {
        proof {
            use_type_invariant(self);
        }
        true
    }

    /// Position at which `k` is, or would be inserted.
    fn position(keys: &Vec<RegistryEntry>, k: &[u8; 33]) -> (p: usize)
        requires
            entries_wf(keys@),
        ensures
            p == lower_bound(entries_view(keys@), k@),
            p <= keys@.len(),
            forall|j: int| 0 <= j < p ==> lex_lt(#[trigger] keys@[j].key@, k@),
            p == keys@.len() || !lex_lt(keys@[p as int].key@, k@),
    {
        let ghost s = entries_view(keys@);
        let mut i: usize = 0;
        while i < keys.len() && key_lt(&keys[i].key, k)
            invariant
                i <= keys@.len(),
                s == entries_view(keys@),
                forall|j: int| 0 <= j < i ==> lex_lt(#[trigger] keys@[j].key@, k@),
            decreases keys@.len() - i,
        {
            i = i + 1;
        }
        proof {
            assert forall|j: int| 0 <= j < i implies lex_lt(#[trigger] s[j].0, k@) by {
                assert(s[j] == entry_view(keys@[j]));
                assert(lex_lt(keys@[j].key@, k@));
            }
            if i < keys@.len() {
                assert(s[i as int] == entry_view(keys@[i as int]));
            }
            lemma_lower_bound(s, k@, i as int);
        }
        i
    }

    /// Record that `vrf_pubkey` (owned by `pkh`) appeared on-chain at `height`.
    pub fn register(&mut self, vrf_pubkey: [u8; 33], pkh: [u8; 20], height: u64)
        ensures
            final(self)@ == after_register(old(self)@, vrf_pubkey@, pkh@, height),
    {
        proof {
            use_type_invariant(&*self);
        }
        let mut keys: Vec<RegistryEntry> = Vec::new();
        std::mem::swap(&mut keys, &mut self.keys);
        let ghost s0 = keys@;
        let ghost v0 = entries_view(s0);
        let p = Self::position(&keys, &vrf_pubkey);
        if p < keys.len() && key_eq(&keys[p].key, &vrf_pubkey) {
            let mut e = keys.remove(p);
            let ghost e0 = e;
            e.rec.pkh = pkh;
            if !vec_contains(&e.rec.heights, height) {
                e.rec.heights.push(height);
                proof {
                    lemma_push_to_set(e0.rec.heights@, height);
                }
            } else {
                assert(e.rec.heights@.to_set() =~= e0.rec.heights@.to_set().insert(height));
            }
            keys.insert(p, e);
            proof {
                assert(keys@ =~= s0.update(p as int, e));
                assert(entries_view(keys@) =~= v0.update(p as int, entry_view(e)));
                assert(v0[p as int] == entry_view(e0));
                lemma_update_preserves_wf(s0, p as int, e);
            }
        } else {
            let mut hs: Vec<u64> = Vec::new();
            hs.push(height);
            let e = RegistryEntry { key: vrf_pubkey, rec: ProposerKeyRecord { pkh, heights: hs } };
            assert(e.rec.heights@[0] == height);
            assert(e.rec.heights@.to_set() =~= set![height]);
            keys.insert(p, e);
            proof {
                assert(entries_view(keys@) =~= v0.insert(p as int, entry_view(e)));
                lemma_insert_preserves_wf(s0, p as int, e);
            }
        }
        self.keys = keys;
    }

    /// Exact inverse of [`Self::register`] for the same `(vrf_pubkey, height)`.
    pub fn unregister(&mut self, vrf_pubkey: &[u8; 33], height: u64)
        ensures
            final(self)@ == after_unregister(old(self)@, vrf_pubkey@, height),
    {
        proof {
            use_type_invariant(&*self);
        }
        let mut keys: Vec<RegistryEntry> = Vec::new();
        std::mem::swap(&mut keys, &mut self.keys);
        let ghost s0 = keys@;
        let ghost v0 = entries_view(s0);
        let p = Self::position(&keys, vrf_pubkey);
        if p < keys.len() && key_eq(&keys[p].key, vrf_pubkey) {
            let mut e = keys.remove(p);
            let ghost e0 = e;
            assert(v0[p as int] == entry_view(e0));
            vec_remove_value(&mut e.rec.heights, height);
            assert(e.rec.heights@.to_set() =~= e0.rec.heights@.to_set().remove(height));
            if e.rec.heights.len() == 0 {
                proof {
                    assert(e.rec.heights@.to_set() =~= Set::<u64>::empty());
                    assert(entries_view(keys@) =~= v0.remove(p as int));
                    lemma_remove_preserves_wf(s0, p as int);
                }
            } else {
                keys.insert(p, e);
                proof {
                    assert(e.rec.heights@.to_set().contains(e.rec.heights@[0]));
                    vstd::seq_lib::seq_to_set_is_finite(e.rec.heights@);
                    assert(e.rec.heights@.to_set().len() > 0);
                    assert(keys@ =~= s0.update(p as int, e));
                    assert(entries_view(keys@) =~= v0.update(
                        p as int,
                        (vrf_pubkey@, v0[p as int].1, v0[p as int].2.remove(height)),
                    ));
                    lemma_update_preserves_wf(s0, p as int, e);
                }
            }
        }
        self.keys = keys;
    }

    /// Number of keys with a registration in the frozen window of `target_height`.
    pub fn eligible_count_with(&self, target_height: u64, fd: u64, ew: u64) -> (n: u64)
        ensures
            n == eligible_count_spec(self@, target_height, fd, ew),
    {
        proof {
            use_type_invariant(self);
        }
        let (lo, hi) = match Self::frozen_window_with(fd, ew, target_height) {
            Some(w) => w,
            None => {
                return 0;
            },
        };
        let ghost s = self@;
        let mut n: u64 = 0;
        let mut i: usize = 0;
        while i < self.keys.len()
            invariant
                i <= self.keys@.len(),
                s == entries_view(self.keys@),
                n == count_hits(s.take(i as int), lo, hi),
                n <= i,
            decreases self.keys@.len() - i,
        {
            let hit = heights_hit(&self.keys[i].rec.heights, lo, hi);
            proof {
                assert(s.take(i + 1).drop_last() =~= s.take(i as int));
                assert(s.take(i + 1).last() == entry_view(self.keys@[i as int]));
            }
            if hit {
                n = n + 1;
            }
            i = i + 1;
        }
        assert(s.take(s.len() as int) =~= s);
        n
    }

    /// Whether `vrf_pubkey` has a registration in the frozen window of `target_height`.
    pub fn is_eligible_with(&self, vrf_pubkey: &[u8; 33], target_height: u64, fd: u64, ew: u64) -> (b: bool)
        ensures
            b == is_eligible_spec(self@, vrf_pubkey@, target_height, fd, ew),
    {
        proof {
            use_type_invariant(self);
        }
        let (lo, hi) = match Self::frozen_window_with(fd, ew, target_height) {
            Some(w) => w,
            None => {
                return false;
            },
        };
        let ghost s = self@;
        let p = Self::position(&self.keys, vrf_pubkey);
        if p < self.keys.len() && key_eq(&self.keys[p].key, vrf_pubkey) {
            let b = heights_hit(&self.keys[p].rec.heights, lo, hi);
            proof {
                assert(s[p as int] == entry_view(self.keys@[p as int]));
                if !b {
                    assert forall|i: int| 0 <= i < s.len() && s[i].0 == vrf_pubkey@ implies !window_hit(
                        s[i].2,
                        lo,
                        hi,
                    ) by {
                        if i != p {
                            lemma_keys_distinct(s, i, p as int);
                        }
                    }
                }
            }
            b
        } else {
            proof {
                assert forall|i: int| 0 <= i < s.len() implies s[i].0 != vrf_pubkey@ by {
                    assert(s[i] == entry_view(self.keys@[i]));
                    if i < p {
                        assert(lex_lt(self.keys@[i].key@, vrf_pubkey@));
                        lemma_lex_irreflexive(vrf_pubkey@);
                    } else if i > p {
                        assert(s[p as int] == entry_view(self.keys@[p as int]));
                        lemma_lex_total(s[p as int].0, vrf_pubkey@);
                        assert(lex_lt(s[p as int].0, s[i].0));
                        if s[i].0 == vrf_pubkey@ {
                            lemma_lex_transitive(vrf_pubkey@, s[p as int].0, s[i].0);
                            lemma_lex_irreflexive(vrf_pubkey@);
                        }
                    }
                }
            }
            false
        }
    }

    /// Owner pkhs of the keys eligible at `target_height`, in ascending key order.
    pub fn eligible_pkhs_with(&self, target_height: u64, fd: u64, ew: u64) -> (r: Vec<[u8; 20]>)
        ensures
            r@.map_values(|a: [u8; 20]| a@) == eligible_pkhs_spec(self@, target_height, fd, ew),
    {
        proof {
            use_type_invariant(self);
        }
        let mut r: Vec<[u8; 20]> = Vec::new();
        let (lo, hi) = match Self::frozen_window_with(fd, ew, target_height) {
            Some(w) => w,
            None => {
                assert(r@.map_values(|a: [u8; 20]| a@) =~= Seq::<Seq<u8>>::empty());
                return r;
            },
        };
        let ghost s = self@;
        let mut i: usize = 0;
        while i < self.keys.len()
            invariant
                i <= self.keys@.len(),
                s == entries_view(self.keys@),
                r@.map_values(|a: [u8; 20]| a@) == pkhs_hit(s.take(i as int), lo, hi),
            decreases self.keys@.len() - i,
        {
            let hit = heights_hit(&self.keys[i].rec.heights, lo, hi);
            proof {
                assert(s.take(i + 1).drop_last() =~= s.take(i as int));
                assert(s.take(i + 1).last() == entry_view(self.keys@[i as int]));
            }
            if hit {
                let ghost old_r = r@;
                r.push(self.keys[i].rec.pkh);
                assert(r@.map_values(|a: [u8; 20]| a@) =~= old_r.map_values(|a: [u8; 20]| a@).push(
                    self.keys@[i as int].rec.pkh@,
                ));
            }
            i = i + 1;
        }
        assert(s.take(s.len() as int) =~= s);
        r
    }

    /// [`Self::eligible_count_with`] with the freeze depth and expiry window of `env`.
    pub fn eligible_count(&self, env: &NodeEnv, target_height: u64) -> (n: u64)
        ensures
            n == eligible_count_spec(
                self@,
                target_height,
                env_freeze_depth(*env),
                env_expiry_window(*env),
            ),
    {
        self.eligible_count_with(target_height, proposer_freeze_depth(env), proposer_expiry_window(env))
    }

    /// [`Self::is_eligible_with`] with the freeze depth and expiry window of `env`.
    pub fn is_eligible(&self, env: &NodeEnv, vrf_pubkey: &[u8; 33], target_height: u64) -> (b: bool)
        ensures
            b == is_eligible_spec(
                self@,
                vrf_pubkey@,
                target_height,
                env_freeze_depth(*env),
                env_expiry_window(*env),
            ),
    {
        self.is_eligible_with(
            vrf_pubkey,
            target_height,
            proposer_freeze_depth(env),
            proposer_expiry_window(env),
        )
    }

    /// [`Self::eligible_pkhs_with`] with the freeze depth and expiry window of `env`.
    pub fn eligible_pkhs(&self, env: &NodeEnv, target_height: u64) -> (r: Vec<[u8; 20]>)
        ensures
            r@.map_values(|a: [u8; 20]| a@) == eligible_pkhs_spec(
                self@,
                target_height,
                env_freeze_depth(*env),
                env_expiry_window(*env),
            ),
    {
        self.eligible_pkhs_with(target_height, proposer_freeze_depth(env), proposer_expiry_window(env))
    }

    /// Whether the key has any on-chain registration, frozen or not.
    pub fn is_registered(&self, vrf_pubkey: &[u8; 33]) -> (b: bool)
        ensures
            b == exists|i: int| 0 <= i < self@.len() && self@[i].0 == vrf_pubkey@,
    {
        proof {
            use_type_invariant(self);
        }
        let ghost s = self@;
        let mut i: usize = 0;
        while i < self.keys.len()
            invariant
                i <= self.keys@.len(),
                s == entries_view(self.keys@),
                s == self@,
                forall|j: int| 0 <= j < i ==> s[j].0 != vrf_pubkey@,
            decreases self.keys@.len() - i,
        {
            assert(s[i as int] == entry_view(self.keys@[i as int]));
            if key_eq(&self.keys[i].key, vrf_pubkey) {
                assert(s[i as int].0 == vrf_pubkey@);
                return true;
            }
            i = i + 1;
        }
        false
    }

    /// Number of registered keys.
    pub fn len(&self) -> (n: usize)
        ensures
            n == self@.len(),
    {
        self.keys.len()
    }

    pub fn is_empty(&self) -> (b: bool)
        ensures
            b == (self@.len() == 0),
    {
        self.keys.len() == 0
    }
}

pub open spec fn env_freeze_depth(env: NodeEnv) -> u64 {
    let v = match env.proposer_freeze_depth {
        Some(v) => v,
        None => 16,
    };
    if v < 2 {
        2
    } else {
        v
    }
}

pub open spec fn env_expiry_window(env: NodeEnv) -> u64 {
    max1(
        match env.proposer_expiry_window {
            Some(v) => v,
            None => 2016,
        },
    )
}

impl ProposerEligibilityRegistry {
    /// The inclusive frozen window `[lo, hi]` for `target_height`, with freeze
    /// depth `fd` and expiry window `ew`; `None` until `fd` blocks of history exist.
    fn frozen_window_with(fd: u64, ew: u64, target_height: u64) -> (w: Option<(u64, u64)>)
        ensures
            w == frozen_window(fd, ew, target_height),
    {
        if target_height < fd {
            return None;
        }
        let hi = target_height - fd;
        let back = if ew == 0 {
            0
        } else {
            ew - 1
        };
        let lo = if hi < back {
            0
        } else {
            hi - back
        };
        Some((lo, hi))
    }
}

fn vec_contains(v: &Vec<u64>, x: u64) -> (b: bool)
    ensures
        b == v@.contains(x),
{
    let mut i: usize = 0;
    while i < v.len()
        invariant
            i <= v@.len(),
            forall|j: int| 0 <= j < i ==> v@[j] != x,
        decreases v@.len() - i,
    {
        if v[i] == x {
            return true;
        }
        i = i + 1;
    }
    false
}

/// Removes `x` (which occurs at most once) from `v`.
fn vec_remove_value(v: &mut Vec<u64>, x: u64)
    requires
        old(v)@.no_duplicates(),
    ensures
        final(v)@.no_duplicates(),
        final(v)@.to_set() == old(v)@.to_set().remove(x),
{
    let mut i: usize = 0;
    while i < v.len()
        invariant
            i <= v@.len(),
            v@ == old(v)@,
            old(v)@.no_duplicates(),
            forall|j: int| 0 <= j < i ==> v@[j] != x,
        decreases v@.len() - i,
    {
        if v[i] == x {
            let ghost s = v@;
            v.remove(i);
            proof {
                s.remove_ensures(i as int);
                assert forall|y: u64| v@.contains(y) <==> (s.contains(y) && y != x) by {
                    if v@.contains(y) {
                        let k = choose|k: int| 0 <= k < v@.len() && v@[k] == y;
                        if k < i {
                            assert(s[k] == y);
                            assert(k != i);
                        } else {
                            assert(s[k + 1] == y);
                            assert(k + 1 != i);
                        }
                    }
                    if s.contains(y) && y != x {
                        let k = choose|k: int| 0 <= k < s.len() && s[k] == y;
                        if k < i {
                            assert(v@[k] == y);
                        } else {
                            assert(k != i);
                            assert(v@[k - 1] == y);
                        }
                    }
                }
                assert forall|a: int, b: int| 0 <= a < v@.len() && 0 <= b < v@.len() && a != b implies v@[a]
                    != v@[b] by {
                    let a0 = if a < i { a } else { a + 1 };
                    let b0 = if b < i { b } else { b + 1 };
                    assert(v@[a] == s[a0] && v@[b] == s[b0]);
                }
            }
            assert(v@.to_set() =~= s.to_set().remove(x));
            return;
        }
        i = i + 1;
    }
    assert(v@.to_set() =~= old(v)@.to_set().remove(x));
}

proof fn lemma_push_to_set(s: Seq<u64>, h: u64)
    ensures
        s.push(h).to_set() == s.to_set().insert(h),
{
    assert forall|y: u64| s.push(h).contains(y) <==> (s.contains(y) || y == h) by {
        if s.push(h).contains(y) {
            let k = choose|k: int| 0 <= k < s.push(h).len() && s.push(h)[k] == y;
            if k < s.len() {
                assert(s[k] == y);
            }
        }
        if s.contains(y) {
            let k = choose|k: int| 0 <= k < s.len() && s[k] == y;
            assert(s.push(h)[k] == y);
        }
        if y == h {
            assert(s.push(h)[s.len() as int] == h);
        }
    }
    assert forall|y: u64| #[trigger] s.push(h).to_set().contains(y) == s.to_set().insert(h).contains(y) by {
        assert(s.push(h).contains(y) <==> (s.contains(y) || y == h));
    }
    assert(s.push(h).to_set() =~= s.to_set().insert(h));
}

fn heights_hit(v: &Vec<u64>, lo: u64, hi: u64) -> (b: bool)
    ensures
        b == window_hit(v@.to_set(), lo, hi),
{
    let mut i: usize = 0;
    while i < v.len()
        invariant
            i <= v@.len(),
            forall|j: int| 0 <= j < i ==> !(lo <= #[trigger] v@[j] <= hi),
        decreases v@.len() - i,
    {
        if lo <= v[i] && v[i] <= hi {
            assert(v@.to_set().contains(v@[i as int]));
            return true;
        }
        i = i + 1;
    }
    assert forall|x: u64| v@.to_set().contains(x) implies !(lo <= x <= hi) by {
        let k = choose|k: int| 0 <= k < v@.len() && v@[k] == x;
    }
    false
}

proof fn lemma_keys_distinct(s: Seq<EntryView>, i: int, j: int)
    requires
        view_wf(s),
        0 <= i < s.len(),
        0 <= j < s.len(),
        i != j,
    ensures
        s[i].0 != s[j].0,
{
    if i < j {
        assert(lex_lt(s[i].0, s[j].0));
        if s[i].0 == s[j].0 {
            lemma_lex_irreflexive(s[i].0);
        }
    } else {
        assert(lex_lt(s[j].0, s[i].0));
        if s[i].0 == s[j].0 {
            lemma_lex_irreflexive(s[i].0);
        }
    }
}

proof fn lemma_update_preserves_wf(s0: Seq<RegistryEntry>, p: int, e: RegistryEntry)
    requires
        entries_wf(s0),
        0 <= p < s0.len(),
        e.key@ == s0[p].key@,
        e.rec.heights@.no_duplicates(),
        e.rec.heights@.len() > 0,
    ensures
        entries_wf(s0.update(p, e)),
{
    let s1 = s0.update(p, e);
    let v0 = entries_view(s0);
    let v1 = entries_view(s1);
    assert(e.rec.heights@.to_set().contains(e.rec.heights@[0]));
    vstd::seq_lib::seq_to_set_is_finite(e.rec.heights@);
    assert forall|i: int| 0 <= i < v1.len() implies (#[trigger] v1[i]).2.len() > 0 && v1[i].2.finite()
        && v1[i].0.len() == 33 by {
        if i != p {
            assert(v1[i] == v0[i]);
        }
    }
    assert forall|i: int, j: int| 0 <= i < j < v1.len() implies lex_lt(
        #[trigger] v1[i].0,
        #[trigger] v1[j].0,
    ) by {
        assert(v1[i].0 == v0[i].0);
        assert(v1[j].0 == v0[j].0);
    }
}

proof fn lemma_insert_preserves_wf(s0: Seq<RegistryEntry>, p: int, e: RegistryEntry)
    requires
        entries_wf(s0),
        0 <= p <= s0.len(),
        forall|j: int| 0 <= j < p ==> lex_lt(#[trigger] s0[j].key@, e.key@),
        p == s0.len() || (!lex_lt(s0[p].key@, e.key@) && s0[p].key@ != e.key@),
        e.rec.heights@.no_duplicates(),
        e.rec.heights@.len() > 0,
        e.key@.len() == 33,
    ensures
        entries_wf(s0.insert(p, e)),
{
    let s1 = s0.insert(p, e);
    let v0 = entries_view(s0);
    let v1 = entries_view(s1);
    assert(e.rec.heights@.to_set().contains(e.rec.heights@[0]));
    vstd::seq_lib::seq_to_set_is_finite(e.rec.heights@);
    if p < s0.len() {
        assert(v0[p] == entry_view(s0[p]));
        lemma_lex_total(s0[p].key@, e.key@);
    }
    assert forall|i: int| 0 <= i < v1.len() implies (#[trigger] v1[i]).2.len() > 0 && v1[i].2.finite()
        && v1[i].0.len() == 33 by {
        if i < p {
            assert(v1[i] == v0[i]);
        } else if i > p {
            assert(v1[i] == v0[i - 1]);
        }
    }
    assert forall|i: int| 0 <= i < s1.len() implies (#[trigger] s1[i]).rec.heights@.no_duplicates() by {
        if i < p {
            assert(s1[i] == s0[i]);
        } else if i > p {
            assert(s1[i] == s0[i - 1]);
        }
    }
    assert forall|i: int, j: int| 0 <= i < j < v1.len() implies lex_lt(
        #[trigger] v1[i].0,
        #[trigger] v1[j].0,
    ) by {
        if j < p {
            assert(v1[i] == v0[i] && v1[j] == v0[j]);
        } else if j == p {
            assert(v1[i] == v0[i]);
            assert(v0[i] == entry_view(s0[i]));
        } else if i < p {
            assert(v1[i] == v0[i] && v1[j] == v0[j - 1]);
            assert(v0[i] == entry_view(s0[i]));
            if j - 1 == p {
                lemma_lex_transitive(v0[i].0, e.key@, v0[p].0);
            } else {
                assert(lex_lt(v0[p].0, v0[j - 1].0));
                lemma_lex_transitive(v0[i].0, e.key@, v0[p].0);
                lemma_lex_transitive(v0[i].0, v0[p].0, v0[j - 1].0);
            }
        } else if i == p {
            assert(v1[j] == v0[j - 1]);
            if j - 1 == p {
            } else {
                assert(lex_lt(v0[p].0, v0[j - 1].0));
                lemma_lex_transitive(e.key@, v0[p].0, v0[j - 1].0);
            }
        } else {
            assert(v1[i] == v0[i - 1] && v1[j] == v0[j - 1]);
        }
    }
}

proof fn lemma_remove_preserves_wf(s0: Seq<RegistryEntry>, p: int)
    requires
        entries_wf(s0),
        0 <= p < s0.len(),
    ensures
        entries_wf(s0.remove(p)),
{
    let s1 = s0.remove(p);
    let v0 = entries_view(s0);
    let v1 = entries_view(s1);
    assert forall|i: int| 0 <= i < v1.len() implies (#[trigger] v1[i]).2.len() > 0 && v1[i].2.finite()
        && v1[i].0.len() == 33 by {
        if i < p {
            assert(v1[i] == v0[i]);
        } else {
            assert(v1[i] == v0[i + 1]);
        }
    }
    assert forall|i: int| 0 <= i < s1.len() implies (#[trigger] s1[i]).rec.heights@.no_duplicates() by {
        if i < p {
            assert(s1[i] == s0[i]);
        } else {
            assert(s1[i] == s0[i + 1]);
        }
    }
    assert forall|i: int, j: int| 0 <= i < j < v1.len() implies lex_lt(
        #[trigger] v1[i].0,
        #[trigger] v1[j].0,
    ) by {
        let i0 = if i < p {
            i
        } else {
            i + 1
        };
        let j0 = if j < p {
            j
        } else {
            j + 1
        };
        assert(v1[i] == v0[i0] && v1[j] == v0[j0]);
    }
}


/// What `lower_bound` returns: every key before it is smaller than `k`, and
/// the key at it (if any) is not.
pub proof fn lemma_lower_bound_props(s: Seq<EntryView>, k: Seq<u8>)
    ensures
        0 <= lower_bound(s, k) <= s.len(),
        forall|j: int| 0 <= j < lower_bound(s, k) ==> lex_lt(#[trigger] s[j].0, k),
        lower_bound(s, k) == s.len() || !lex_lt(s[lower_bound(s, k)].0, k),
    decreases s.len(),
{
    if s.len() > 0 && lex_lt(s[0].0, k) {
        lemma_lower_bound_props(s.drop_first(), k);
        let p = lower_bound(s, k);
        assert forall|j: int| 0 <= j < p implies lex_lt(#[trigger] s[j].0, k) by {
            if j > 0 {
                assert(s[j] == s.drop_first()[j - 1]);
            }
        }
        if p < s.len() {
            assert(s[p] == s.drop_first()[p - 1]);
        }
    }
}

/// Registering a key at a height and then unregistering that same key and
/// height restores the registry exactly, whenever the key was absent or was
/// already owned by `pkh` without that height (the disconnect of a block
/// undoes its connect).
pub proof fn lemma_unregister_undoes_register(s: Seq<EntryView>, k: Seq<u8>, pkh: Seq<u8>, h: u64)
    requires
        view_wf(s),
        k.len() == 33,
        forall|i: int| 0 <= i < s.len() && #[trigger] s[i].0 == k ==> s[i].1 == pkh && !s[i].2.contains(h),
    ensures
        after_unregister(after_register(s, k, pkh, h), k, h) == s,
{
    lemma_lower_bound_props(s, k);
    let p = lower_bound(s, k);
    let s1 = after_register(s, k, pkh, h);
    lemma_lex_irreflexive(k);
    if p < s.len() && s[p].0 == k {
        assert forall|j: int| 0 <= j < p implies lex_lt(#[trigger] s1[j].0, k) by {
            assert(s1[j] == s[j]);
        }
        lemma_lower_bound(s1, k, p);
        let hs = s[p].2.insert(h).remove(h);
        assert(hs =~= s[p].2);
        assert(after_unregister(s1, k, h) =~= s);
    } else {
        assert forall|j: int| 0 <= j < p implies lex_lt(#[trigger] s1[j].0, k) by {
            assert(s1[j] == s[j]);
        }
        assert(s1[p] == (k, pkh, set![h]));
        lemma_lower_bound(s1, k, p);
        assert(set![h].remove(h) =~= Set::<u64>::empty());
        assert(after_unregister(s1, k, h) =~= s);
    }
}

/// Registering the same appearance twice is the same as registering it once.
pub proof fn lemma_register_idempotent(s: Seq<EntryView>, k: Seq<u8>, pkh: Seq<u8>, h: u64)
    requires
        view_wf(s),
    ensures
        after_register(after_register(s, k, pkh, h), k, pkh, h) == after_register(s, k, pkh, h),
{
    lemma_lower_bound_props(s, k);
    let p = lower_bound(s, k);
    let s1 = after_register(s, k, pkh, h);
    lemma_lex_irreflexive(k);
    assert forall|j: int| 0 <= j < p implies lex_lt(#[trigger] s1[j].0, k) by {
        assert(s1[j] == s[j]);
    }
    assert(s1[p].0 == k);
    lemma_lower_bound(s1, k, p);
    assert(s1[p].2.insert(h) =~= s1[p].2);
    assert(after_register(s1, k, pkh, h) =~= s1);
}

} // verus!
