//! The integer parts of the PoAW-X simulator: its configuration (never
//! mainnet), its deterministic generator, the finality rule it models, the
//! miners' reward windows, and the concentration measures of a run. The
//! scenarios' plans and verdicts are in `poawx_scenarios`. The mining run
//! itself runs nowhere in this crate: its proposer lottery needs the node's
//! fairness weight and puzzle-mode assignment, which the crate does not hold.
use vstd::prelude::*;
use crate::digest::{sha256, sha256_of};
use crate::splitmix::{GOLDEN_GAMMA, splitmix_output, splitmix_next};
use crate::wire::{get_le64, le32, push_all, push_le32, read_array20, read_le64};

verus! {

/// The simulator's settings.
#[derive(Clone, Debug, PartialEq, Eq)]
pub struct SimConfig {
    pub seed: u64,
    /// The modeled network: devnet by default; mainnet (0) is refused.
    pub network_id: u8,
    pub miners: u32,
    /// The attacker's share of all base work, in permille.
    pub attacker_share_permille: u32,
    pub epochs: u32,
    pub blocks_per_epoch: u32,
    pub subsidy: u64,
    /// The recent-reward window, in blocks.
    pub window: u64,
    /// The sybil registration target, in leading zero bits.
    pub sybil_bits: u32,
    pub out_dir: String,
}

impl Default for SimConfig {
    fn default() -> (c: SimConfig)
        ensures
            c.seed == 1 && c.network_id == 2 && c.miners == 12 && c.attacker_share_permille == 200,
            c.epochs == 4 && c.blocks_per_epoch == 16 && c.subsidy == 1_000_000,
            c.window == 32 && c.sybil_bits == 16,
            c.out_dir@ == "./poawx-sim-out"@,
    {
        SimConfig {
            seed: 1,
            network_id: 2,
            miners: 12,
            attacker_share_permille: 200,
            epochs: 4,
            blocks_per_epoch: 16,
            subsidy: 1_000_000,
            window: 32,
            sybil_bits: 16,
            out_dir: "./poawx-sim-out".to_owned(),
        }
    }
}

/// Whether a run with these settings may go ahead: never on mainnet.
pub fn sim_network_allowed(cfg: &SimConfig) -> (b: bool)
    ensures
        b == (cfg.network_id != 0),
{
    cfg.network_id != 0
}

/// The simulator's generator: SplitMix64 started from `seed ^ GOLDEN_GAMMA`.
pub struct Prng(pub u64);

impl Prng {
    pub fn new(seed: u64) -> (p: Prng)
        ensures
            p.0 == seed ^ GOLDEN_GAMMA,
    {
        Prng(seed ^ GOLDEN_GAMMA)
    }

    pub fn next_u64(&mut self) -> (r: u64)
        ensures
            final(self).0 == old(self).0.wrapping_add(GOLDEN_GAMMA),
            r == splitmix_output(final(self).0),
    {
        splitmix_next(&mut self.0)
    }

    /// A draw reduced into `[0, n)`; 0 (and no draw) for `n == 0`.
    pub fn below(&mut self, n: u64) -> (r: u64)
        ensures
            n == 0 ==> r == 0 && final(self).0 == old(self).0,
            n > 0 ==> final(self).0 == old(self).0.wrapping_add(GOLDEN_GAMMA) && r
                == splitmix_output(final(self).0) % n,
    {
        if n == 0 {
            return 0;
        }
        self.next_u64() % n
    }
}

/// The finality rule the simulator models: a reorg whose fork point lies
/// below a finalized height (above zero) is rejected.
pub fn reorg_below_finalized_rejected(finalized_height: u64, fork_point: u64) -> (b: bool)
    ensures
        b == (finalized_height > 0 && fork_point < finalized_height),
{
    finalized_height > 0 && fork_point < finalized_height
}

/// A simulated miner.
#[derive(Clone, Debug)]
pub struct Miner {
    pub id: u32,
    pub pkh: [u8; 20],
    /// Honest work capacity.
    pub base_work: u64,
    pub attacker: bool,
    /// Coordination group (pool or sybil cluster); unique when solo.
    pub group: u32,
    /// `(height, reward)` within the window.
    pub recent: Vec<(u64, u64)>,
    pub total_reward: u64,
}

/// `a + b`, saturating at `u64::MAX`.
pub open spec fn sat_add(a: int, b: int) -> int {
    if a + b > u64::MAX {
        u64::MAX as int
    } else {
        a + b
    }
}

/// The saturating sum of the rewards of `recent` earned above `lo`.
pub open spec fn recent_sum(recent: Seq<(u64, u64)>, lo: u64) -> int
    decreases recent.len(),
{
    if recent.len() == 0 {
        0
    } else {
        let rest = recent_sum(recent.drop_last(), lo);
        if recent.last().0 > lo {
            sat_add(rest, recent.last().1 as int)
        } else {
            rest
        }
    }
}

/// `height - window`, not below 0.
pub open spec fn window_floor(height: u64, window: u64) -> u64 {
    if height >= window {
        (height - window) as u64
    } else {
        0
    }
}

/// The entries of `recent` above `lo`, in order.
pub open spec fn kept_above(recent: Seq<(u64, u64)>, lo: u64) -> Seq<(u64, u64)>
    decreases recent.len(),
{
    if recent.len() == 0 {
        recent
    } else {
        let rest = kept_above(recent.drop_last(), lo);
        if recent.last().0 > lo {
            rest.push(recent.last())
        } else {
            rest
        }
    }
}

impl Miner {
    /// The reward earned in the `window` blocks up to `height` (saturating).
    pub fn recent_total(&self, height: u64, window: u64) -> (t: u64)
        ensures
            t == recent_sum(self.recent@, window_floor(height, window)),
    {
        let lo = if height >= window {
            height - window
        } else {
            0
        };
        let mut t: u64 = 0;
        let mut i: usize = 0;
        while i < self.recent.len()
            invariant
                i <= self.recent@.len(),
                t == recent_sum(self.recent@.take(i as int), lo),
            decreases self.recent@.len() - i,
        {
            let (h, r) = self.recent[i];
            assert(self.recent@.take(i + 1).drop_last() =~= self.recent@.take(i as int));
            if h > lo {
                t = t.saturating_add(r);
            }
            i = i + 1;
        }
        assert(self.recent@.take(self.recent@.len() as int) =~= self.recent@);
        t
    }

    /// Records a reward at `height`: the total grows (saturating), and the
    /// window keeps only entries above `height - window`.
    pub fn record(&mut self, height: u64, reward: u64, window: u64)
        ensures
            final(self).total_reward == sat_add(old(self).total_reward as int, reward as int),
            final(self).recent@ == kept_above(
                old(self).recent@.push((height, reward)),
                window_floor(height, window),
            ),
            final(self).id == old(self).id && final(self).pkh == old(self).pkh,
            final(self).base_work == old(self).base_work && final(self).group == old(self).group,
            final(self).attacker == old(self).attacker,
    {
        self.total_reward = self.total_reward.saturating_add(reward);
        let lo = if height >= window {
            height - window
        } else {
            0
        };
        let mut all = Vec::new();
        std::mem::swap(&mut all, &mut self.recent);
        all.push((height, reward));
        let mut kept: Vec<(u64, u64)> = Vec::new();
        let mut i: usize = 0;
        while i < all.len()
            invariant
                i <= all@.len(),
                kept@ == kept_above(all@.take(i as int), lo),
            decreases all@.len() - i,
        {
            let e = all[i];
            assert(all@.take(i + 1).drop_last() =~= all@.take(i as int));
            if e.0 > lo {
                kept.push(e);
            }
            i = i + 1;
        }
        assert(all@.take(all@.len() as int) =~= all@);
        self.recent = kept;
    }
}

/// The sum of a sequence of naturals.
pub open spec fn sum_of(s: Seq<int>) -> int
    decreases s.len(),
{
    if s.len() == 0 {
        0
    } else {
        sum_of(s.drop_last()) + s.last()
    }
}

/// The largest of a sequence (0 for none).
pub open spec fn max_of(s: Seq<int>) -> int
    decreases s.len(),
{
    if s.len() == 0 {
        0
    } else if s.last() > max_of(s.drop_last()) {
        s.last()
    } else {
        max_of(s.drop_last())
    }
}

/// The permille share of the largest value in the total, capped at 1000; 0
/// for a zero total.
pub open spec fn top_share_permille(s: Seq<int>) -> int {
    if sum_of(s) == 0 {
        0
    } else if max_of(s) * 1000 / sum_of(s) > 1000 {
        1000
    } else {
        max_of(s) * 1000 / sum_of(s)
    }
}

proof fn lemma_max_of_props(s: Seq<int>)
    requires
        forall|i: int| 0 <= i < s.len() ==> 0 <= #[trigger] s[i],
    ensures
        0 <= max_of(s) <= sum_of(s),
        forall|i: int| 0 <= i < s.len() ==> #[trigger] s[i] <= max_of(s),
        s.len() > 0 ==> exists|i: int| 0 <= i < s.len() && s[i] == max_of(s),
    decreases s.len(),
{
    if s.len() > 0 {
        let t = s.drop_last();
        assert forall|i: int| 0 <= i < t.len() implies 0 <= #[trigger] t[i] by {
            assert(t[i] == s[i]);
        }
        lemma_max_of_props(t);
        assert forall|i: int| 0 <= i < s.len() implies #[trigger] s[i] <= max_of(s) by {
            if i < s.len() - 1 {
                assert(t[i] == s[i]);
            }
        }
        if s.last() > max_of(t) {
            assert(s[s.len() - 1] == max_of(s));
        } else if t.len() > 0 {
            let i = choose|i: int| 0 <= i < t.len() && t[i] == max_of(t);
            assert(s[i] == max_of(s));
        } else {
            assert(s[0] == s.last());
        }
    }
}

/// The top share, over all non-negative values: 0 for a zero total; else a
/// permille not above 1000 that is the floor of the largest value's share, so
/// no value's share reaches the next permille and some value's share is at
/// least this one.
pub proof fn lemma_top_share_meaning(s: Seq<int>)
    requires
        forall|i: int| 0 <= i < s.len() ==> 0 <= #[trigger] s[i],
    ensures
        0 <= top_share_permille(s) <= 1000,
        sum_of(s) == 0 ==> top_share_permille(s) == 0,
        sum_of(s) > 0 ==> forall|i: int| 0 <= i < s.len() ==> #[trigger] s[i] * 1000 < (top_share_permille(s) + 1)
            * sum_of(s),
        sum_of(s) > 0 ==> exists|i: int| 0 <= i < s.len() && top_share_permille(s) * sum_of(s) <= s[i] * 1000,
{
    lemma_max_of_props(s);
    let m = max_of(s);
    let t = sum_of(s);
    if t > 0 {
        let r = m * 1000 / t;
        assert(0 <= r <= 1000 && r * t <= m * 1000 && m * 1000 < (r + 1) * t) by (nonlinear_arith)
            requires
                0 <= m <= t,
                t > 0,
                r == m * 1000 / t,
        ;
        assert(top_share_permille(s) == r);
        assert forall|i: int| 0 <= i < s.len() implies #[trigger] s[i] * 1000 < (r + 1) * t by {
            assert(s[i] * 1000 <= m * 1000) by (nonlinear_arith)
                requires
                    s[i] <= m,
            ;
        }
        if s.len() == 0 {
            assert(t == 0);
        }
    }
}

pub open spec fn base_works(m: Seq<Miner>) -> Seq<int> {
    m.map_values(|x: Miner| x.base_work as int)
}

pub open spec fn total_rewards(m: Seq<Miner>) -> Seq<int> {
    m.map_values(|x: Miner| x.total_reward as int)
}

proof fn lemma_sum_bound(s: Seq<int>, bound: int)
    requires
        bound >= 0,
        forall|i: int| 0 <= i < s.len() ==> 0 <= #[trigger] s[i] <= bound,
    ensures
        0 <= sum_of(s) <= s.len() * bound,
        0 <= max_of(s) <= bound,
    decreases s.len(),
{
    if s.len() > 0 {
        lemma_sum_bound(s.drop_last(), bound);
        assert(s.len() * bound == (s.len() - 1) * bound + bound) by (nonlinear_arith);
    }
}

proof fn lemma_max_le_sum(s: Seq<int>)
    requires
        forall|i: int| 0 <= i < s.len() ==> 0 <= #[trigger] s[i],
    ensures
        max_of(s) <= sum_of(s),
        0 <= max_of(s),
        0 <= sum_of(s),
    decreases s.len(),
{
    if s.len() > 0 {
        lemma_max_le_sum(s.drop_last());
    }
}

fn top_share(vals: &Vec<u64>) -> (r: u32)
    requires
        vals@.len() <= u32::MAX,
    ensures
        r == top_share_permille(vals@.map_values(|v: u64| v as int)),
{
    let ghost s = vals@.map_values(|v: u64| v as int);
    let mut total: u128 = 0;
    let mut top: u128 = 0;
    let mut i: usize = 0;
    while i < vals.len()
        invariant
            i <= vals@.len() <= u32::MAX,
            s == vals@.map_values(|v: u64| v as int),
            total == sum_of(s.take(i as int)),
            top == max_of(s.take(i as int)),
            total <= i * (u64::MAX as int),
        decreases vals@.len() - i,
    {
        assert(s.take(i + 1).drop_last() =~= s.take(i as int));
        assert(s.take(i + 1).last() == vals@[i as int] as int);
        let v = vals[i] as u128;
        assert(total + v <= (i + 1) * (u64::MAX as int)) by (nonlinear_arith)
            requires
                total <= i * (u64::MAX as int),
                v <= u64::MAX,
        ;
        assert((i + 1) * (u64::MAX as int) <= 0x1_0000_0000 * 0x1_0000_0000_0000_0000) by (
        nonlinear_arith)
            requires
                i + 1 <= 0x1_0000_0000,
        ;
        total = total + v;
        if v > top {
            top = v;
        }
        i = i + 1;
    }
    assert(s.take(vals@.len() as int) =~= s);
    if total == 0 {
        return 0;
    }
    proof {
        assert forall|k: int| 0 <= k < s.len() implies 0 <= #[trigger] s[k] <= u64::MAX by {}
        lemma_sum_bound(s, u64::MAX as int);
        lemma_max_le_sum(s);
    }
    let scaled = top * 1000 / total;
    if scaled > 1000 {
        1000
    } else {
        scaled as u32
    }
}

/// The permille share of all base work held by the strongest miner.
pub fn top1_raw_share_permille(miners: &Vec<Miner>) -> (r: u32)
    requires
        miners@.len() <= u32::MAX,
    ensures
        r == top_share_permille(base_works(miners@)),
        r <= 1000,
{
    proof {
        assert forall|i: int| 0 <= i < base_works(miners@).len() implies 0 <= #[trigger] base_works(miners@)[i] by {}
        lemma_top_share_meaning(base_works(miners@));
    }
    let mut vals: Vec<u64> = Vec::new();
    let mut i: usize = 0;
    while i < miners.len()
        invariant
            i <= miners@.len(),
            vals@.len() == i,
            forall|k: int| 0 <= k < i ==> vals@[k] == miners@[k].base_work,
        decreases miners@.len() - i,
    {
        vals.push(miners[i].base_work);
        i = i + 1;
    }
    assert(vals@.map_values(|v: u64| v as int) =~= base_works(miners@));
    top_share(&vals)
}

/// The permille share of all rewards earned by the most rewarded miner.
pub fn top1_reward_share_permille(miners: &Vec<Miner>) -> (r: u32)
    requires
        miners@.len() <= u32::MAX,
    ensures
        r == top_share_permille(total_rewards(miners@)),
        r <= 1000,
{
    proof {
        assert forall|i: int| 0 <= i < total_rewards(miners@).len() implies 0 <= #[trigger] total_rewards(miners@)[i] by {}
        lemma_top_share_meaning(total_rewards(miners@));
    }
    let mut vals: Vec<u64> = Vec::new();
    let mut i: usize = 0;
    while i < miners.len()
        invariant
            i <= miners@.len(),
            vals@.len() == i,
            forall|k: int| 0 <= k < i ==> vals@[k] == miners@[k].total_reward,
        decreases miners@.len() - i,
    {
        vals.push(miners[i].total_reward);
        i = i + 1;
    }
    assert(vals@.map_values(|v: u64| v as int) =~= total_rewards(miners@));
    top_share(&vals)
}

/// The domain tag of the simulated miners' key hashes: `POAWX_SIM_MINER_PKH`.
pub const SIM_MINER_PKH_TAG: [u8; 19] = [
    0x50, 0x4f, 0x41, 0x57, 0x58, 0x5f, 0x53, 0x49, 0x4d, 0x5f, 0x4d, 0x49, 0x4e, 0x45, 0x52, 0x5f,
    0x50, 0x4b, 0x48,
];

/// The domain tag of the per-scenario seed salt: `POAWX_SIM_SCENARIO_SALT`.
pub const SIM_SCENARIO_SALT_TAG: [u8; 23] = [
    0x50, 0x4f, 0x41, 0x57, 0x58, 0x5f, 0x53, 0x49, 0x4d, 0x5f, 0x53, 0x43, 0x45, 0x4e, 0x41, 0x52,
    0x49, 0x4f, 0x5f, 0x53, 0x41, 0x4c, 0x54,
];

/// The key hash of simulated miner `id`: the first 20 bytes of
/// SHA-256(tag || id as 4 little-endian bytes).
pub open spec fn sim_pkh(id: u32) -> Seq<u8> {
    sha256_of(SIM_MINER_PKH_TAG@ + le32(id)).subrange(0, 20)
}

pub fn pkh_for(id: u32) -> (p: [u8; 20])
    ensures
        p@ == sim_pkh(id),
{
    let mut buf: Vec<u8> = Vec::new();
    push_all(&mut buf, SIM_MINER_PKH_TAG.as_slice());
    push_le32(&mut buf, id);
    let d = sha256(buf.as_slice());
    read_array20(d.as_slice(), 0)
}

/// A scenario's seed salt: the first 8 bytes, little-endian, of
/// SHA-256(tag || the name's bytes).
pub open spec fn sim_scenario_salt(name: Seq<char>) -> u64 {
    get_le64(sha256_of(SIM_SCENARIO_SALT_TAG@ + vstd::utf8::encode_utf8(name)), 0)
}

pub fn scenario_salt(name: &str) -> (r: u64)
    ensures
        r == sim_scenario_salt(name@),
{
    let mut buf: Vec<u8> = Vec::new();
    push_all(&mut buf, SIM_SCENARIO_SALT_TAG.as_slice());
    push_all(&mut buf, name.as_bytes());
    let d = sha256(buf.as_slice());
    read_le64(d.as_slice(), 0)
}

/// The generator's state after `k` draws from `s0`.
pub open spec fn sim_draw_state(s0: u64, k: nat) -> u64
    decreases k,
{
    if k == 0 {
        s0
    } else {
        sim_draw_state(s0, (k - 1) as nat).wrapping_add(GOLDEN_GAMMA)
    }
}

/// Whether miner `id` is the attacker: miner 0, when the attacker holds any work.
pub open spec fn sim_is_attacker(permille: u32, id: int) -> bool {
    permille > 0 && id == 0
}

/// The attacker's base work: its permille of `n * 100` units.
pub open spec fn sim_attacker_work(n: u32, permille: u32) -> int {
    (n * 100) * permille / 1000
}

/// The honest miners' base work: the rest of `n * 100` units, not below 0.
pub open spec fn sim_honest_work(n: u32, permille: u32) -> int {
    if n * 100 >= sim_attacker_work(n, permille) {
        n * 100 - sim_attacker_work(n, permille)
    } else {
        0
    }
}

/// The number of honest miners, at least 1.
pub open spec fn sim_honest_n(n: u32, permille: u32) -> int {
    let h = if permille > 0 {
        if n >= 1 {
            n - 1
        } else {
            0
        }
    } else {
        n as int
    };
    if h < 1 {
        1
    } else {
        h
    }
}

/// How many draws the generator has made once miner `id` has been built:
/// one per honest miner so far.
pub open spec fn sim_draws_through(permille: u32, id: int) -> nat {
    if permille > 0 {
        id as nat
    } else {
        (id + 1) as nat
    }
}

/// Miner `id`'s base work: the attacker's share (at least 1), or the honest
/// miners' average (at least 1) scaled by a jitter of 70..=130 percent drawn
/// from the generator, at least 1.
pub open spec fn sim_base_work(n: u32, permille: u32, s0: u64, id: int) -> int {
    if sim_is_attacker(permille, id) {
        if sim_attacker_work(n, permille) < 1 {
            1
        } else {
            sim_attacker_work(n, permille)
        }
    } else {
        let avg = sim_honest_work(n, permille) / sim_honest_n(n, permille);
        let per = if avg < 1 {
            1
        } else {
            avg
        };
        let jitter = 70 + splitmix_output(sim_draw_state(s0, sim_draws_through(permille, id))) % 61;
        let w = per * jitter / 100;
        if w < 1 {
            1
        } else {
            w
        }
    }
}

/// Builds `n` miners. When the attacker holds any work, miner 0 is the
/// attacker with its permille of the `n * 100` work units, grouped (999) with
/// its coordinated sybils when `coordinated_attacker`; every other miner gets
/// the honest average scaled by one jitter draw. The generator makes one
/// draw per honest miner, in order.
pub fn build_miners(cfg: &SimConfig, prng: &mut Prng, n: u32, coordinated_attacker: bool) -> (v:
    Vec<Miner>)
    requires
        n * 100 * cfg.attacker_share_permille <= u64::MAX,
    ensures
        v@.len() == n,
        final(prng).0 == sim_draw_state(
            old(prng).0,
            if cfg.attacker_share_permille > 0 && n > 0 {
                (n - 1) as nat
            } else {
                n as nat
            },
        ),
        forall|i: int|
            0 <= i < n ==> {
                let m = #[trigger] v@[i];
                &&& m.id == i
                &&& m.pkh@ == sim_pkh(i as u32)
                &&& m.base_work == sim_base_work(n, cfg.attacker_share_permille, old(prng).0, i)
                &&& m.attacker == sim_is_attacker(cfg.attacker_share_permille, i)
                &&& m.group == (if sim_is_attacker(cfg.attacker_share_permille, i)
                    && coordinated_attacker {
                    999
                } else {
                    i
                })
                &&& m.recent@.len() == 0
                &&& m.total_reward == 0
            },
{
    let permille = cfg.attacker_share_permille;
    let ghost s0 = prng.0;
    let total_work: u64 = (n as u64) * 100;
    let attacker_work: u64 = total_work * (permille as u64) / 1000;
    let honest_work: u64 = total_work.saturating_sub(attacker_work);
    let less: u32 = if permille > 0 {
        1
    } else {
        0
    };
    let h: u32 = n.saturating_sub(less);
    let honest_n: u32 = if h < 1 {
        1
    } else {
        h
    };
    assert(attacker_work == sim_attacker_work(n, permille));
    assert(honest_work == sim_honest_work(n, permille));
    assert(honest_n == sim_honest_n(n, permille));
    let mut miners: Vec<Miner> = Vec::new();
    let mut id: u32 = 0;
    while id < n
        invariant
            id <= n,
            permille == cfg.attacker_share_permille,
            attacker_work == sim_attacker_work(n, permille),
            honest_work == sim_honest_work(n, permille),
            honest_n == sim_honest_n(n, permille),
            honest_work <= n * 100,
            miners@.len() == id,
            prng.0 == sim_draw_state(
                s0,
                if id == 0 {
                    0
                } else {
                    sim_draws_through(permille, id - 1)
                },
            ),
            forall|i: int|
                0 <= i < id ==> {
                    let m = #[trigger] miners@[i];
                    &&& m.id == i
                    &&& m.pkh@ == sim_pkh(i as u32)
                    &&& m.base_work == sim_base_work(n, permille, s0, i)
                    &&& m.attacker == sim_is_attacker(permille, i)
                    &&& m.group == (if sim_is_attacker(permille, i) && coordinated_attacker {
                        999
                    } else {
                        i
                    })
                    &&& m.recent@.len() == 0
                    &&& m.total_reward == 0
                },
        decreases n - id,
    {
        let is_attacker = permille > 0 && id == 0;
        let base_work: u64 = if is_attacker {
            if attacker_work < 1 {
                1
            } else {
                attacker_work
            }
        } else {
            let ghost before = prng.0;
            let draw = prng.below(61);
            assert(prng.0 == sim_draw_state(s0, sim_draws_through(permille, id as int)));
            let jitter: u64 = 70 + draw;
            let avg: u64 = honest_work / (honest_n as u64);
            let per: u64 = if avg < 1 {
                1
            } else {
                avg
            };
            assert(per * jitter <= 0x1_0000_0000 * 100 * 130) by (nonlinear_arith)
                requires
                    per <= 0x1_0000_0000 * 100,
                    jitter <= 130,
            ;
            let w = per * jitter / 100;
            if w < 1 {
                1
            } else {
                w
            }
        };
        let group: u32 = if is_attacker && coordinated_attacker {
            999
        } else {
            id
        };
        miners.push(
            Miner {
                id,
                pkh: pkh_for(id),
                base_work,
                attacker: is_attacker,
                group,
                recent: Vec::new(),
                total_reward: 0,
            },
        );
        id = id + 1;
    }
    miners
}

/// The coordination groups of a miner set.
pub open spec fn groups_of(m: Seq<Miner>) -> Seq<u32> {
    m.map_values(|x: Miner| x.group)
}

/// The sum of the values of the entries in group `g`.
pub open spec fn group_sum(vals: Seq<int>, groups: Seq<u32>, g: u32) -> int
    decreases vals.len(),
{
    if vals.len() == 0 {
        0
    } else {
        group_sum(vals.drop_last(), groups.drop_last(), g) + if groups[vals.len() - 1] == g {
            vals.last()
        } else {
            0
        }
    }
}

/// For each entry, the total of its whole group.
pub open spec fn group_totals(vals: Seq<int>, groups: Seq<u32>) -> Seq<int> {
    Seq::new(vals.len(), |i: int| group_sum(vals, groups, groups[i]))
}

/// The permille share of the total held by the largest group, capped at 1000;
/// 0 for a zero total.
pub open spec fn top_group_share(vals: Seq<int>, groups: Seq<u32>) -> int {
    if sum_of(vals) == 0 {
        0
    } else if max_of(group_totals(vals, groups)) * 1000 / sum_of(vals) > 1000 {
        1000
    } else {
        max_of(group_totals(vals, groups)) * 1000 / sum_of(vals)
    }
}

proof fn lemma_group_sum_take(vals: Seq<int>, groups: Seq<u32>, g: u32, j: int)
    requires
        0 <= j < vals.len(),
        vals.len() == groups.len(),
    ensures
        group_sum(vals.take(j + 1), groups.take(j + 1), g) == group_sum(vals.take(j), groups.take(j), g)
            + if groups[j] == g {
            vals[j]
        } else {
            0
        },
{
    assert(vals.take(j + 1).drop_last() =~= vals.take(j));
    assert(groups.take(j + 1).drop_last() =~= groups.take(j));
}

fn group_total_at(vals: &Vec<u64>, groups: &Vec<u32>, g: u32) -> (t: u128)
    requires
        vals@.len() == groups@.len() <= u32::MAX,
    ensures
        t == group_sum(vals@.map_values(|v: u64| v as int), groups@, g),
        t <= vals@.len() * (u64::MAX as int),
{
    let ghost s = vals@.map_values(|v: u64| v as int);
    let mut t: u128 = 0;
    let mut j: usize = 0;
    while j < vals.len()
        invariant
            j <= vals@.len() == groups@.len() <= u32::MAX,
            s == vals@.map_values(|v: u64| v as int),
            t == group_sum(s.take(j as int), groups@.take(j as int), g),
            t <= j * (u64::MAX as int),
        decreases vals@.len() - j,
    {
        proof {
            lemma_group_sum_take(s, groups@, g, j as int);
        }
        assert((j + 1) * (u64::MAX as int) <= 0x1_0000_0000 * 0x1_0000_0000_0000_0000) by (
        nonlinear_arith)
            requires
                j + 1 <= 0x1_0000_0000,
        ;
        if groups[j] == g {
            t = t + vals[j] as u128;
        }
        assert(t <= (j + 1) * (u64::MAX as int)) by (nonlinear_arith)
            requires
                t <= j * (u64::MAX as int) + u64::MAX,
        ;
        j = j + 1;
    }
    assert(s.take(vals@.len() as int) =~= s);
    assert(groups@.take(vals@.len() as int) =~= groups@);
    t
}

fn top_group_share_of(vals: &Vec<u64>, groups: &Vec<u32>) -> (r: u32)
    requires
        vals@.len() == groups@.len() <= u32::MAX,
    ensures
        r == top_group_share(vals@.map_values(|v: u64| v as int), groups@),
{
    let ghost s = vals@.map_values(|v: u64| v as int);
    let ghost gt = group_totals(s, groups@);
    let mut total: u128 = 0;
    let mut top: u128 = 0;
    let mut i: usize = 0;
    while i < vals.len()
        invariant
            i <= vals@.len() == groups@.len() <= u32::MAX,
            s == vals@.map_values(|v: u64| v as int),
            gt == group_totals(s, groups@),
            total == sum_of(s.take(i as int)),
            top == max_of(gt.take(i as int)),
            top <= vals@.len() * (u64::MAX as int),
            total <= i * (u64::MAX as int),
        decreases vals@.len() - i,
    {
        assert(s.take(i + 1).drop_last() =~= s.take(i as int));
        assert(gt.take(i + 1).drop_last() =~= gt.take(i as int));
        let v = vals[i] as u128;
        assert(total + v <= (i + 1) * (u64::MAX as int)) by (nonlinear_arith)
            requires
                total <= i * (u64::MAX as int),
                v <= u64::MAX,
        ;
        assert((i + 1) * (u64::MAX as int) <= 0x1_0000_0000 * 0x1_0000_0000_0000_0000) by (
        nonlinear_arith)
            requires
                i + 1 <= 0x1_0000_0000,
        ;
        total = total + v;
        let g = group_total_at(vals, groups, groups[i]);
        assert(gt.take(i + 1).last() == g);
        if g > top {
            top = g;
        }
        i = i + 1;
    }
    assert(s.take(vals@.len() as int) =~= s);
    assert(gt.take(vals@.len() as int) =~= gt);
    if total == 0 {
        return 0;
    }
    assert(top * 1000 <= 0x1_0000_0000 * 0x1_0000_0000_0000_0000 * 1000) by (nonlinear_arith)
        requires
            top <= vals@.len() * (u64::MAX as int),
            vals@.len() <= u32::MAX,
    ;
    let scaled = top * 1000 / total;
    if scaled > 1000 {
        1000
    } else {
        scaled as u32
    }
}

/// The permille share of all rewards earned by the most rewarded coordination
/// group: a coordinated pool's combined take.
pub fn top_group_reward_share_permille(miners: &Vec<Miner>) -> (r: u32)
    requires
        miners@.len() <= u32::MAX,
    ensures
        r == top_group_share(total_rewards(miners@), groups_of(miners@)),
{
    let mut vals: Vec<u64> = Vec::new();
    let mut groups: Vec<u32> = Vec::new();
    let mut i: usize = 0;
    while i < miners.len()
        invariant
            i <= miners@.len(),
            vals@.len() == i,
            groups@.len() == i,
            forall|k: int| 0 <= k < i ==> vals@[k] == miners@[k].total_reward,
            forall|k: int| 0 <= k < i ==> groups@[k] == miners@[k].group,
        decreases miners@.len() - i,
    {
        vals.push(miners[i].total_reward);
        groups.push(miners[i].group);
        i = i + 1;
    }
    assert(vals@.map_values(|v: u64| v as int) =~= total_rewards(miners@));
    assert(groups@ =~= groups_of(miners@));
    top_group_share_of(&vals, &groups)
}

/// The permille share of all base work held by the largest coordination group.
pub fn top_group_raw_share_permille(miners: &Vec<Miner>) -> (r: u32)
    requires
        miners@.len() <= u32::MAX,
    ensures
        r == top_group_share(base_works(miners@), groups_of(miners@)),
{
    let mut vals: Vec<u64> = Vec::new();
    let mut groups: Vec<u32> = Vec::new();
    let mut i: usize = 0;
    while i < miners.len()
        invariant
            i <= miners@.len(),
            vals@.len() == i,
            groups@.len() == i,
            forall|k: int| 0 <= k < i ==> vals@[k] == miners@[k].base_work,
            forall|k: int| 0 <= k < i ==> groups@[k] == miners@[k].group,
        decreases miners@.len() - i,
    {
        vals.push(miners[i].base_work);
        groups.push(miners[i].group);
        i = i + 1;
    }
    assert(vals@.map_values(|v: u64| v as int) =~= base_works(miners@));
    assert(groups@ =~= groups_of(miners@));
    top_group_share_of(&vals, &groups)
}

/// `|x|`.
pub open spec fn abs_int(x: int) -> int {
    if x >= 0 {
        x
    } else {
        -x
    }
}

/// The sum over `t` of `|x - t[j]|`.
pub open spec fn abs_diff_sum(x: int, t: Seq<int>) -> int
    decreases t.len(),
{
    if t.len() == 0 {
        0
    } else {
        abs_diff_sum(x, t.drop_last()) + abs_int(x - t.last())
    }
}

/// The sum over every pair `(s[i], t[j])` of `|s[i] - t[j]|`.
pub open spec fn pair_abs_sum(s: Seq<int>, t: Seq<int>) -> int
    decreases s.len(),
{
    if s.len() == 0 {
        0
    } else {
        pair_abs_sum(s.drop_last(), t) + abs_diff_sum(s.last(), t)
    }
}

/// The Gini coefficient of `s`, times 1000, rounded down: the sum of
/// `|s[i] - s[j]|` over all ordered pairs over `2 * n * total`; 0 for no
/// entries or a zero total.
pub open spec fn gini_x1000(s: Seq<int>) -> int {
    if s.len() == 0 || sum_of(s) == 0 {
        0
    } else {
        pair_abs_sum(s, s) * 1000 / (2 * s.len() * sum_of(s))
    }
}

proof fn lemma_abs_diff_sum_bounds(x: int, t: Seq<int>)
    requires
        0 <= x <= u64::MAX,
        forall|j: int| 0 <= j < t.len() ==> 0 <= #[trigger] t[j] <= u64::MAX,
    ensures
        0 <= abs_diff_sum(x, t) <= t.len() * (u64::MAX as int),
        abs_diff_sum(x, t) <= t.len() * x + sum_of(t),
    decreases t.len(),
{
    if t.len() > 0 {
        lemma_abs_diff_sum_bounds(x, t.drop_last());
        assert(t.len() * (u64::MAX as int) == (t.len() - 1) * (u64::MAX as int) + u64::MAX) by (
        nonlinear_arith);
        assert(t.len() * x == (t.len() - 1) * x + x) by (nonlinear_arith);
    }
}

proof fn lemma_pair_abs_sum_bounds(s: Seq<int>, t: Seq<int>)
    requires
        forall|i: int| 0 <= i < s.len() ==> 0 <= #[trigger] s[i] <= u64::MAX,
        forall|j: int| 0 <= j < t.len() ==> 0 <= #[trigger] t[j] <= u64::MAX,
    ensures
        0 <= pair_abs_sum(s, t) <= t.len() * sum_of(s) + s.len() * sum_of(t),
    decreases s.len(),
{
    if s.len() > 0 {
        lemma_pair_abs_sum_bounds(s.drop_last(), t);
        lemma_abs_diff_sum_bounds(s.last(), t);
        assert(t.len() * sum_of(s) == t.len() * sum_of(s.drop_last()) + t.len() * s.last()) by (
        nonlinear_arith)
            requires
                sum_of(s) == sum_of(s.drop_last()) + s.last(),
        ;
        assert(s.len() * sum_of(t) == (s.len() - 1) * sum_of(t) + sum_of(t)) by (nonlinear_arith);
    }
}

fn sum_u64s(vals: &Vec<u64>) -> (total: u128)
    requires
        vals@.len() <= u32::MAX,
    ensures
        total == sum_of(vals@.map_values(|v: u64| v as int)),
        total <= vals@.len() * (u64::MAX as int),
{
    let ghost s = vals@.map_values(|v: u64| v as int);
    let mut total: u128 = 0;
    let mut i: usize = 0;
    while i < vals.len()
        invariant
            i <= vals@.len() <= u32::MAX,
            s == vals@.map_values(|v: u64| v as int),
            total == sum_of(s.take(i as int)),
            total <= i * (u64::MAX as int),
        decreases vals@.len() - i,
    {
        assert(s.take(i + 1).drop_last() =~= s.take(i as int));
        let v = vals[i] as u128;
        assert(total + v <= (i + 1) * (u64::MAX as int)) by (nonlinear_arith)
            requires
                total <= i * (u64::MAX as int),
                v <= u64::MAX,
        ;
        assert((i + 1) * (u64::MAX as int) <= 0x1_0000_0000 * 0x1_0000_0000_0000_0000) by (
        nonlinear_arith)
            requires
                i + 1 <= 0x1_0000_0000,
        ;
        total = total + v;
        i = i + 1;
    }
    assert(s.take(vals@.len() as int) =~= s);
    total
}

fn abs_diff_row(x: u64, vals: &Vec<u64>) -> (r: u128)
    requires
        vals@.len() <= u32::MAX,
    ensures
        r == abs_diff_sum(x as int, vals@.map_values(|v: u64| v as int)),
        r <= vals@.len() * (u64::MAX as int),
{
    let ghost s = vals@.map_values(|v: u64| v as int);
    let mut r: u128 = 0;
    let mut j: usize = 0;
    while j < vals.len()
        invariant
            j <= vals@.len() <= u32::MAX,
            s == vals@.map_values(|v: u64| v as int),
            r == abs_diff_sum(x as int, s.take(j as int)),
            r <= j * (u64::MAX as int),
        decreases vals@.len() - j,
    {
        assert(s.take(j + 1).drop_last() =~= s.take(j as int));
        let y = vals[j];
        let d: u128 = if x > y {
            (x - y) as u128
        } else {
            (y - x) as u128
        };
        assert(r + d <= (j + 1) * (u64::MAX as int)) by (nonlinear_arith)
            requires
                r <= j * (u64::MAX as int),
                d <= u64::MAX,
        ;
        assert((j + 1) * (u64::MAX as int) <= 0x1_0000_0000 * 0x1_0000_0000_0000_0000) by (
        nonlinear_arith)
            requires
                j + 1 <= 0x1_0000_0000,
        ;
        r = r + d;
        j = j + 1;
    }
    assert(s.take(vals@.len() as int) =~= s);
    r
}

/// The most miners the Gini computation takes: beyond it the products of the
/// computation no longer fit in 128 bits.
pub const GINI_MAX_MINERS: usize = 0x400_0000;

fn gini_of(vals: &Vec<u64>) -> (g: u64)
    requires
        vals@.len() <= GINI_MAX_MINERS,
    ensures
        g == gini_x1000(vals@.map_values(|v: u64| v as int)),
        g <= 1000,
{
    let ghost s = vals@.map_values(|v: u64| v as int);
    let n = vals.len();
    if n == 0 {
        return 0;
    }
    let total = sum_u64s(vals);
    if total == 0 {
        return 0;
    }
    let mut acc: u128 = 0;
    let mut i: usize = 0;
    while i < n
        invariant
            n == vals@.len() <= GINI_MAX_MINERS,
            i <= n,
            s == vals@.map_values(|v: u64| v as int),
            acc == pair_abs_sum(s.take(i as int), s),
            acc <= i * n * (u64::MAX as int),
        decreases n - i,
    {
        assert(s.take(i + 1).drop_last() =~= s.take(i as int));
        assert(s.take(i + 1).last() == vals@[i as int] as int);
        let row = abs_diff_row(vals[i], vals);
        assert(acc + row <= (i + 1) * n * (u64::MAX as int)) by (nonlinear_arith)
            requires
                acc <= i * n * (u64::MAX as int),
                row <= n * (u64::MAX as int),
        ;
        assert((i + 1) * n * (u64::MAX as int) <= 0x400_0000 * 0x400_0000 * 0x1_0000_0000_0000_0000)
            by (nonlinear_arith)
            requires
                i + 1 <= 0x400_0000,
                n <= 0x400_0000,
        ;
        acc = acc + row;
        i = i + 1;
    }
    assert(s.take(n as int) =~= s);
    proof {
        assert forall|k: int| 0 <= k < s.len() implies 0 <= #[trigger] s[k] <= u64::MAX by {}
        lemma_pair_abs_sum_bounds(s, s);
        lemma_sum_bound(s, u64::MAX as int);
    }
    assert(acc * 1000 <= 2 * n * total * 1000) by (nonlinear_arith)
        requires
            acc <= n * total + n * total,
    ;
    assert(2 * n * total <= 2 * n * total * 1000 <= 2 * 0x400_0000 * (0x400_0000
        * 0x1_0000_0000_0000_0000) * 1000) by (nonlinear_arith)
        requires
            n <= 0x400_0000,
            0 <= total <= n * (u64::MAX as int),
    ;
    assert(2 * 0x400_0000 * (0x400_0000 * 0x1_0000_0000_0000_0000) * 1000 <= u128::MAX) by (
    nonlinear_arith);
    let denom: u128 = 2 * (n as u128) * total;
    assert(denom > 0) by (nonlinear_arith)
        requires
            denom == 2 * n * total,
            n > 0,
            total > 0,
    ;
    let q = acc * 1000 / denom;
    assert(q <= 1000) by (nonlinear_arith)
        requires
            q == (acc * 1000) as int / denom as int,
            acc * 1000 <= denom * 1000,
            denom > 0,
    ;
    q as u64
}

/// The Gini coefficient of the miners' total rewards, times 1000 (0: all
/// equal; near 1000: one miner took everything).
pub fn reward_gini_x1000(miners: &Vec<Miner>) -> (g: u64)
    requires
        miners@.len() <= GINI_MAX_MINERS,
    ensures
        g == gini_x1000(total_rewards(miners@)),
        g <= 1000,
{
    let mut vals: Vec<u64> = Vec::new();
    let mut i: usize = 0;
    while i < miners.len()
        invariant
            i <= miners@.len(),
            vals@.len() == i,
            forall|k: int| 0 <= k < i ==> vals@[k] == miners@[k].total_reward,
        decreases miners@.len() - i,
    {
        vals.push(miners[i].total_reward);
        i = i + 1;
    }
    assert(vals@.map_values(|v: u64| v as int) =~= total_rewards(miners@));
    gini_of(&vals)
}

} // verus!
