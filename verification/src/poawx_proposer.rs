//! PoAW-X VRF-assigned proposer sortition: the lottery math, the activation
//! gates, and the reorg-safe registry of eligible proposer keys.
//!
//! A backup cascade keyed to block time keeps the chain live if the primary
//! proposer is offline: round 0 admits the top 1 (lowest VRF score), round 1 the
//! top 4, round 2 the top 14, round 3 and later every eligible key.
use vstd::prelude::*;
use crate::activation::{NodeEnv, reached, is_reached, routed_gate, routed_gate_on, effective_activation, poawx_effective_activation};
use crate::wire::get_le64;
pub use crate::proposer_registry::ProposerEligibilityRegistry;
pub use crate::proposer_pool::{
    NodeProposerRegistrationPool, GossipOutcome, CheckedRegistration, RegistrationCheck,
    registration_check,
};

verus! {

/// The primary proposer role id.
pub const ROLE_PROPOSER: u8 = 0;

/// Default freeze depth (blocks) of the eligibility registry.
pub const DEFAULT_PROPOSER_FREEZE_DEPTH: u64 = 16;

/// Default round interval (seconds): the target block time.
pub const DEFAULT_PROPOSER_ROUND_INTERVAL_SECS: u64 = 120;

/// Default anti-spam PoW floor (leading-zero bits) on testnet/devnet.
pub const DEFAULT_PROPOSER_ANTI_SPAM_BITS: u32 = 8;

/// Max registrations activated from the queue head per block.
pub const PROPOSER_REG_CAP: usize = 8;

/// Max new registrations a producer may announce per block.
pub const PROPOSER_ANNOUNCE_CAP: usize = 8;

/// A registration's anchor must lie within this many blocks of the including height.
pub const PROPOSER_REG_ANCHOR_WINDOW: u64 = 64;

/// Default emergency stall threshold (seconds): 6h.
pub const DEFAULT_PROPOSER_STALL_RECOVERY_SECS: u64 = 21_600;

pub const DEFAULT_MAX_REORG_DEPTH_MAINNET: u64 = 1000;

pub const DEFAULT_MAX_REORG_DEPTH_DEVNET: u64 = 100;

/// A configured reorg cap never drops below this.
pub const MAX_REORG_DEPTH_HARD_FLOOR: u64 = 10;

pub const DEFAULT_MIN_FINALITY_COMMITTEE_MAINNET: u64 = 16;

pub const DEFAULT_MIN_FINALITY_COMMITTEE_DEVNET: u64 = 4;

pub const PROPOSER_REG_POOL_MAX: usize = 1024;

/// Minimum anchor advance before a refreshed pooled registration is rebroadcast.
pub const PROPOSER_REG_REFRESH_MIN_ANCHOR_DELTA: u64 = 8;

pub open spec fn slots_of_round(round: u32) -> u64 {
    if round == 0 {
        1
    } else if round == 1 {
        4
    } else if round == 2 {
        14
    } else {
        u64::MAX
    }
}

pub open spec fn max1(n: u64) -> u64 {
    if n == 0 {
        1
    } else {
        n
    }
}

pub open spec fn spec_cumulative_slots(round: u32, eligible_count: u64) -> u64 {
    let cum = slots_of_round(round);
    let n = max1(eligible_count);
    if cum <= n {
        cum
    } else {
        n
    }
}

/// Cumulative admitted proposer slots by `round` (1, 4, 14, then all), capped at
/// `eligible_count` (treated as at least 1).
pub fn cumulative_slots(round: u32, eligible_count: u64) -> (s: u64)
    ensures
        s == spec_cumulative_slots(round, eligible_count),
{
    let cum: u64 = match round {
        0 => 1,
        1 => 4,
        2 => 14,
        _ => u64::MAX,
    };
    let n = if eligible_count == 0 {
        1
    } else {
        eligible_count
    };
    if cum <= n {
        cum
    } else {
        n
    }
}

/// Proposer-lottery priority of a VRF output: its first 8 bytes, little-endian.
/// Lower is higher priority.
pub fn proposer_priority(vrf_output: &[u8; 32]) -> (p: u64)
    ensures
        p == get_le64(vrf_output@, 0),
{
    crate::wire::read_le64(vrf_output.as_slice(), 0)
}

pub open spec fn spec_threshold(eligible_count: u64, round: u32) -> u64 {
    let n = max1(eligible_count);
    let slots = spec_cumulative_slots(round, n);
    if slots >= n {
        u64::MAX
    } else if (u64::MAX / n) * slots > u64::MAX {
        u64::MAX
    } else {
        ((u64::MAX / n) * slots) as u64
    }
}

/// Selection threshold at `round`: `(u64::MAX / n) * slots`, saturating, and
/// `u64::MAX` once every eligible key is admitted. An empty registry counts as
/// one key, so everyone is admitted.
pub fn proposer_threshold(eligible_count: u64, round: u32) -> (t: u64)
    ensures
        t == spec_threshold(eligible_count, round),
{
    let n = if eligible_count == 0 {
        1
    } else {
        eligible_count
    };
    let slots = cumulative_slots(round, n);
    if slots >= n {
        return u64::MAX;
    }
    crate::wire::sat_mul_u64(u64::MAX / n, slots)
}

/// Whether `priority` is selected at `round` among `eligible_count` keys.
pub fn is_selected(priority: u64, eligible_count: u64, round: u32) -> (b: bool)
    ensures
        b == (priority < spec_threshold(eligible_count, round)),
        round >= 3 || eligible_count <= 1 ==> b == (priority < u64::MAX),
        round == 0 && eligible_count >= 2 ==> b == (priority < u64::MAX / eligible_count),
{
    proof {
        lemma_threshold_values(eligible_count, round);
    }
    priority < proposer_threshold(eligible_count, round)
}

/// The selection threshold, over all key counts and rounds: with at most
/// one key, or from round 3 on, everything below `u64::MAX` is admitted;
/// otherwise round 0 admits one key's share `u64::MAX / n`, round 1 four
/// shares and round 2 fourteen, until those cover all `n` keys.
pub proof fn lemma_threshold_values(n: u64, round: u32)
    ensures
        n <= 1 || round >= 3 ==> spec_threshold(n, round) == u64::MAX,
        n >= 2 && round == 0 ==> spec_threshold(n, round) == u64::MAX / n,
        round == 1 ==> spec_threshold(n, round) == if n > 4 { (u64::MAX / n) * 4 } else { u64::MAX as int },
        round == 2 ==> spec_threshold(n, round) == if n > 14 { (u64::MAX / n) * 14 } else { u64::MAX as int },
{
    if n > 4 {
        assert((u64::MAX / n) * 4 <= u64::MAX) by (nonlinear_arith)
            requires
                n > 4,
        ;
    }
    if n > 14 {
        assert((u64::MAX / n) * 14 <= u64::MAX) by (nonlinear_arith)
            requires
                n > 14,
        ;
    }
    if n >= 2 {
        assert((u64::MAX / n) * 1 <= u64::MAX) by (nonlinear_arith)
            requires
                n >= 2,
        ;
    }
}

/// The threshold never shrinks as the round advances, and from round 3 on it
/// admits every priority but `u64::MAX`.
pub proof fn lemma_threshold_monotone_in_round(n: u64, r1: u32, r2: u32)
    requires
        r1 <= r2,
    ensures
        spec_threshold(n, r1) <= spec_threshold(n, r2),
        r2 >= 3 ==> spec_threshold(n, r2) == u64::MAX,
{
    let m = max1(n);
    let q = u64::MAX / m;
    let s1 = spec_cumulative_slots(r1, m);
    let s2 = spec_cumulative_slots(r2, m);
    assert(s1 <= s2);
    if s1 < m && s2 < m {
        assert(q * s1 <= q * s2) by (nonlinear_arith)
            requires
                s1 <= s2,
        ;
    }
}

/// A key selected at some round stays selected at every later round.
pub proof fn lemma_selection_persists(priority: u64, n: u64, r1: u32, r2: u32)
    requires
        r1 <= r2,
        priority < spec_threshold(n, r1),
    ensures
        priority < spec_threshold(n, r2),
{
    lemma_threshold_monotone_in_round(n, r1, r2);
}

pub open spec fn spec_min_time_for_round(parent_time: u32, round: u32, interval: u64) -> u32 {
    let add = if round * interval > u64::MAX {
        u64::MAX as int
    } else {
        round * interval
    };
    let add32 = if add > u32::MAX {
        u32::MAX as int
    } else {
        add
    };
    if parent_time + add32 > u32::MAX {
        u32::MAX
    } else {
        (parent_time + add32) as u32
    }
}

/// Earliest header timestamp for a round-`round` block: `parent_time + round *
/// interval`, saturating.
pub fn min_time_for_round(parent_time: u32, round: u32, round_interval_secs: u64) -> (t: u32)
    ensures
        t == spec_min_time_for_round(parent_time, round, round_interval_secs),
{
    let add = crate::wire::sat_mul_u64(round as u64, round_interval_secs);
    let add32: u32 = if add > u32::MAX as u64 {
        u32::MAX
    } else {
        add as u32
    };
    parent_time.saturating_add(add32)
}

/// Highest round open `elapsed_secs` after the parent: `elapsed / interval`
/// (interval at least 1), capped at `u32::MAX`.
pub fn max_round_for_elapsed(elapsed_secs: u64, round_interval_secs: u64) -> (r: u32)
    ensures
        r == if elapsed_secs / max1(round_interval_secs) > u32::MAX {
            u32::MAX as int
        } else {
            (elapsed_secs / max1(round_interval_secs)) as int
        },
{
    let iv = if round_interval_secs == 0 {
        1
    } else {
        round_interval_secs
    };
    let q = elapsed_secs / iv;
    if q > u32::MAX as u64 {
        u32::MAX
    } else {
        q as u32
    }
}

/// A round is open exactly when its earliest timestamp has been reached
/// (no saturation): `round <= elapsed / interval` iff `round * interval <= elapsed`.
pub proof fn lemma_round_open_iff_time_reached(elapsed: u64, interval: u64, round: u32)
    requires
        interval >= 1,
    ensures
        (round <= elapsed / interval) <==> (round * interval <= elapsed),
{
    let e = elapsed as int;
    let i = interval as int;
    let r = round as int;
    assert((r <= e / i) <==> (r * i <= e)) by (nonlinear_arith)
        requires
            i >= 1,
            e >= 0,
            r >= 0,
    ;
}

// ── environment-derived parameters ──────────────────────────────────────────

/// Freeze depth: the environment value or 16, at least 2.
pub fn proposer_freeze_depth(env: &NodeEnv) -> (d: u64)
    ensures
        d == ({
            let v = match env.proposer_freeze_depth {
                Some(v) => v,
                None => 16,
            };
            if v < 2 {
                2
            } else {
                v
            }
        }),
{
    let v = match env.proposer_freeze_depth {
        Some(v) => v,
        None => DEFAULT_PROPOSER_FREEZE_DEPTH,
    };
    if v < 2 {
        2
    } else {
        v
    }
}

/// Round interval: the environment value or 120, at least 1.
pub fn proposer_round_interval_secs(env: &NodeEnv) -> (s: u64)
    ensures
        s == max1(
            match env.proposer_round_interval_secs {
                Some(v) => v,
                None => 120,
            },
        ),
{
    let v = match env.proposer_round_interval_secs {
        Some(v) => v,
        None => DEFAULT_PROPOSER_ROUND_INTERVAL_SECS,
    };
    if v == 0 {
        1
    } else {
        v
    }
}

/// Anti-spam PoW floor: 20 bits on mainnet, else the environment value or 8.
pub fn proposer_anti_spam_bits(env: &NodeEnv) -> (b: u32)
    ensures
        b == if env.network_id == 0 {
            20
        } else {
            match env.proposer_anti_spam_bits {
                Some(v) => v,
                None => 8,
            }
        },
{
    if env.network_id == 0 {
        return 20;
    }
    match env.proposer_anti_spam_bits {
        Some(v) => v,
        None => DEFAULT_PROPOSER_ANTI_SPAM_BITS,
    }
}

/// Stall threshold (seconds): the environment value or 21,600, at least 14,400.
pub fn proposer_stall_recovery_secs(env: &NodeEnv) -> (s: u64)
    ensures
        s == ({
            let v = match env.proposer_stall_recovery_secs {
                Some(v) => v,
                None => 21_600,
            };
            if v < 14_400 {
                14_400
            } else {
                v
            }
        }),
{
    let v = match env.proposer_stall_recovery_secs {
        Some(v) => v,
        None => DEFAULT_PROPOSER_STALL_RECOVERY_SECS,
    };
    if v < 14_400 {
        14_400
    } else {
        v
    }
}

/// Registration expiry window: the environment value or 2016, at least 1.
pub fn proposer_expiry_window(env: &NodeEnv) -> (w: u64)
    ensures
        w == max1(
            match env.proposer_expiry_window {
                Some(v) => v,
                None => 2016,
            },
        ),
{
    let v = match env.proposer_expiry_window {
        Some(v) => v,
        None => 2016,
    };
    if v == 0 {
        1
    } else {
        v
    }
}

/// Max blocks a single reorg may disconnect: the environment value, else 1000
/// on mainnet and 100 elsewhere, never below 10.
pub fn max_reorg_depth(env: &NodeEnv) -> (d: u64)
    ensures
        d == ({
            let v = match env.max_reorg_depth {
                Some(v) => v,
                None => if env.network_id == 0 {
                    1000
                } else {
                    100
                },
            };
            if v < 10 {
                10
            } else {
                v
            }
        }),
{
    let default = if env.network_id == 0 {
        DEFAULT_MAX_REORG_DEPTH_MAINNET
    } else {
        DEFAULT_MAX_REORG_DEPTH_DEVNET
    };
    let v = match env.max_reorg_depth {
        Some(v) => v,
        None => default,
    };
    if v < MAX_REORG_DEPTH_HARD_FLOOR {
        MAX_REORG_DEPTH_HARD_FLOOR
    } else {
        v
    }
}

/// Minimum distinct committee keys before finality advances: the environment
/// value, else 16 on mainnet and 4 elsewhere, at least 1.
pub fn min_finality_committee(env: &NodeEnv) -> (m: u64)
    ensures
        m == max1(
            match env.min_finality_committee {
                Some(v) => v,
                None => if env.network_id == 0 {
                    16
                } else {
                    4
                },
            },
        ),
{
    let default = if env.network_id == 0 {
        DEFAULT_MIN_FINALITY_COMMITTEE_MAINNET
    } else {
        DEFAULT_MIN_FINALITY_COMMITTEE_DEVNET
    };
    let v = match env.min_finality_committee {
        Some(v) => v,
        None => default,
    };
    if v == 0 {
        1
    } else {
        v
    }
}

// ── activation gates ────────────────────────────────────────────────────────

/// Compiled mainnet activation of PoW demotion: the combined deploy height,
/// 61,414 (live on mainnet from there).
pub fn mainnet_pow_demotion_activation_height() -> (r: Option<u64>)
    ensures
        r == Some(61_414u64),
{
    Some(61_414)
}

/// Compiled mainnet activation of non-exclusive proposer eligibility: 59,900.
pub fn mainnet_proposer_nonexclusive_activation_height() -> (r: Option<u64>)
    ensures
        r == Some(59_900u64),
{
    Some(59_900)
}

/// Mainnet activation height of the contributor-role solver binding.
pub fn mainnet_contributor_role_binding_height() -> (r: Option<u64>)
    ensures
        r == Some(57_920u64),
{
    Some(57_920)
}

/// Mainnet-constant evaluation for PoW demotion: on iff the height is set and reached.
pub fn mainnet_pow_demotion_active(mainnet_activation: Option<u64>, height: u64) -> (b: bool)
    ensures
        b == reached(mainnet_activation, height),
{
    is_reached(mainnet_activation, height)
}

/// PoW-demotion gate: on mainnet only the compiled constant counts (on from
/// 61,414, whatever the environment says); elsewhere the supplied activation.
pub fn pow_demotion_gate(network_id: u8, activation: Option<u64>, height: u64) -> (b: bool)
    ensures
        b == if network_id == 0 {
            height >= 61_414
        } else {
            reached(activation, height)
        },
{
    if network_id == 0 {
        return mainnet_pow_demotion_active(mainnet_pow_demotion_activation_height(), height);
    }
    is_reached(activation, height)
}

pub fn pow_demotion_active(env: &NodeEnv, height: u64) -> (b: bool)
    ensures
        b == if env.network_id == 0 {
            height >= 61_414
        } else {
            reached(env.pow_demotion_activation_height, height)
        },
{
    pow_demotion_gate(env.network_id, env.pow_demotion_activation_height, height)
}

pub fn mainnet_proposer_nonexclusive_active(mainnet_activation: Option<u64>, height: u64) -> (b: bool)
    ensures
        b == reached(mainnet_activation, height),
{
    is_reached(mainnet_activation, height)
}

/// Non-exclusive eligibility gate, modelled on [`pow_demotion_gate`].
pub fn proposer_nonexclusive_gate(network_id: u8, activation: Option<u64>, height: u64) -> (b: bool)
    ensures
        b == if network_id == 0 {
            height >= 59_900
        } else {
            reached(activation, height)
        },
{
    if network_id == 0 {
        return mainnet_proposer_nonexclusive_active(
            mainnet_proposer_nonexclusive_activation_height(),
            height,
        );
    }
    is_reached(activation, height)
}

pub fn proposer_nonexclusive_active(env: &NodeEnv, height: u64) -> (b: bool)
    ensures
        b == if env.network_id == 0 {
            height >= 59_900
        } else {
            reached(env.proposer_nonexclusive_activation_height, height)
        },
{
    proposer_nonexclusive_gate(env.network_id, env.proposer_nonexclusive_activation_height, height)
}

/// When `enforced`, the puzzle difficulty is capped at `floor` (never raised).
pub fn cap_difficulty_if_enforced(configured: u32, enforced: bool, floor: u32) -> (d: u32)
    ensures
        d == if enforced && floor < configured {
            floor
        } else {
            configured
        },
{
    if enforced {
        if floor < configured {
            floor
        } else {
            configured
        }
    } else {
        configured
    }
}

/// Proposer VRF gate: routed through the effective activation.
pub fn proposer_vrf_gate(network_id: u8, activation: Option<u64>, height: u64) -> (b: bool)
    ensures
        b == routed_gate(network_id, activation, height),
{
    routed_gate_on(network_id, activation, height)
}

pub fn proposer_vrf_active(env: &NodeEnv, height: u64) -> (b: bool)
    ensures
        b == routed_gate(env.network_id, env.proposer_vrf_activation_height, height),
{
    proposer_vrf_gate(env.network_id, env.proposer_vrf_activation_height, height)
}

/// Whether the proposer VRF is required: always on mainnet, else the flag.
pub fn proposer_vrf_required(env: &NodeEnv) -> (b: bool)
    ensures
        b == (env.network_id == 0 || env.proposer_vrf_required),
{
    if env.network_id == 0 {
        return true;
    }
    env.proposer_vrf_required
}

pub open spec fn spec_vrf_enforced(env: NodeEnv, height: u64) -> bool {
    routed_gate(env.network_id, env.proposer_vrf_activation_height, height) && (env.network_id
        == 0 || env.proposer_vrf_required)
}

pub fn proposer_vrf_enforced(env: &NodeEnv, height: u64) -> (b: bool)
    ensures
        b == spec_vrf_enforced(*env, height),
{
    proposer_vrf_active(env, height) && proposer_vrf_required(env)
}

/// Effective puzzle difficulty at `height`: capped at the anti-spam floor when
/// the proposer VRF gate is enforced.
pub fn effective_puzzle_difficulty_bits(env: &NodeEnv, configured: u32, height: u64) -> (d: u32)
    ensures
        ({
            let floor = if env.network_id == 0 {
                20u32
            } else {
                match env.proposer_anti_spam_bits {
                    Some(v) => v,
                    None => 8,
                }
            };
            d == if spec_vrf_enforced(*env, height) && floor < configured {
                floor
            } else {
                configured
            }
        }),
{
    cap_difficulty_if_enforced(
        configured,
        proposer_vrf_enforced(env, height),
        proposer_anti_spam_bits(env),
    )
}

pub open spec fn spec_anchor_valid(anchor_height: u64, height: u64, window: u64) -> bool {
    anchor_height < height && !(height > window && anchor_height < height - window)
}

/// A registration anchor is acceptable at `height` iff it is strictly in the
/// past and no more than `window` blocks back.
pub fn registration_anchor_valid(anchor_height: u64, height: u64, window: u64) -> (b: bool)
    ensures
        b == spec_anchor_valid(anchor_height, height, window),
        b <==> (anchor_height < height && height - anchor_height <= window),
{
    anchor_height < height && !(height > window && anchor_height < height - window)
}

/// Registration gate: only where the proposer VRF is active, at/after activation.
pub fn proposer_registration_gate(vrf_active: bool, activation: Option<u64>, height: u64) -> (b: bool)
    ensures
        b == (vrf_active && reached(activation, height)),
{
    vrf_active && is_reached(activation, height)
}

pub fn proposer_registration_active(env: &NodeEnv, height: u64) -> (b: bool)
    ensures
        b == (routed_gate(env.network_id, env.proposer_vrf_activation_height, height) && reached(
            effective_activation(env.network_id, env.proposer_registration_activation_height),
            height,
        )),
{
    proposer_registration_gate(
        proposer_vrf_active(env, height),
        poawx_effective_activation(env.network_id, env.proposer_registration_activation_height),
        height,
    )
}

/// Fork-choice hardening gate: routed through the effective activation.
pub fn fork_choice_hardening_gate(network_id: u8, activation: Option<u64>, height: u64) -> (b: bool)
    ensures
        b == routed_gate(network_id, activation, height),
{
    routed_gate_on(network_id, activation, height)
}

pub fn fork_choice_hardening_active(env: &NodeEnv, height: u64) -> (b: bool)
    ensures
        b == routed_gate(env.network_id, env.fork_choice_hardening_activation_height, height),
{
    fork_choice_hardening_gate(env.network_id, env.fork_choice_hardening_activation_height, height)
}

/// Audit-hardening gate: routed through the effective activation.
pub fn audit_hardening_gate(network_id: u8, activation: Option<u64>, height: u64) -> (b: bool)
    ensures
        b == routed_gate(network_id, activation, height),
{
    routed_gate_on(network_id, activation, height)
}

pub fn audit_hardening_active(env: &NodeEnv, height: u64) -> (b: bool)
    ensures
        b == routed_gate(env.network_id, env.audit_hardening_activation_height, height),
{
    audit_hardening_gate(env.network_id, env.audit_hardening_activation_height, height)
}

/// Contributor-role binding gate: mainnet at the fixed height 57,920, elsewhere
/// the supplied activation.
pub fn contributor_role_binding_gate(network_id: u8, env_activation: Option<u64>, height: u64) -> (b: bool)
    ensures
        b == if network_id == 0 {
            height >= 57_920
        } else {
            reached(env_activation, height)
        },
{
    let eff = if network_id == 0 {
        mainnet_contributor_role_binding_height()
    } else {
        env_activation
    };
    is_reached(eff, height)
}

pub fn contributor_role_binding_active(env: &NodeEnv, height: u64) -> (b: bool)
    ensures
        b == if env.network_id == 0 {
            height >= 57_920
        } else {
            reached(env.contributor_role_binding_activation_height, height)
        },
{
    contributor_role_binding_gate(
        env.network_id,
        env.contributor_role_binding_activation_height,
        height,
    )
}

/// Whether proposer-registration gossip is enabled: off mainnet, or on mainnet
/// since PoAW-X has an activation height there.
pub fn proposer_registration_gossip_enabled(env: &NodeEnv) -> (b: bool)
    ensures
        b,
{
    env.network_id != 0 || crate::activation::mainnet_poawx_activation_height().is_some()
}

/// Mainnet ignores the environment for every routed gate of this module.
pub proof fn lemma_routed_gates_ignore_env_on_mainnet(a: Option<u64>, b: Option<u64>, h: u64)
    ensures
        routed_gate(0, a, h) == routed_gate(0, b, h),
        routed_gate(0, a, h) == (h >= 50_000),
{
}

} // verus!
