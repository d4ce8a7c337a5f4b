//! Phased PoAW-X activation schedule.
//!
//! * Pre-activation (`height < A`): no PoAW-X sections required.
//! * Warm-up window `A ..= A + W`: ticket registrations are collected, ticket
//!   eligibility is not yet required.
//! * Enforcement height `E = A + W + 1`: full ticket-store eligibility required.
//!
//! Mainnet (`network_id == 0`) has no activation height: every gate is off there.
use vstd::prelude::*;
use crate::activation::{NodeEnv, reached, is_reached};

verus! {

/// Default warm-up window length (blocks between activation and enforcement).
pub const DEFAULT_POAWX_WARMUP_WINDOW: u64 = 100;

/// Real mainnet activation height of the schedule: none (disabled).
pub fn mainnet_poawx_activation_height() -> (r: Option<u64>)
    ensures
        r == None::<u64>,
{
    None
}

/// Activation height for `network_id` given the environment's schedule height:
/// always `None` on mainnet, the environment value elsewhere.
pub fn poawx_activation_height(network_id: u8, env_activation: Option<u64>) -> (r: Option<u64>)
    ensures
        r == if network_id == 0 {
            None
        } else {
            env_activation
        },
{
    if network_id == 0 {
        return mainnet_poawx_activation_height();
    }
    env_activation
}

/// Warm-up window length: the environment value, else [`DEFAULT_POAWX_WARMUP_WINDOW`].
pub fn poawx_warmup_window(env_window: Option<u64>) -> (w: u64)
    ensures
        w == match env_window {
            Some(v) => v,
            None => 100,
        },
{
    match env_window {
        Some(v) => v,
        None => DEFAULT_POAWX_WARMUP_WINDOW,
    }
}

pub open spec fn sat_add(a: u64, b: u64) -> u64 {
    if a + b > u64::MAX {
        u64::MAX
    } else {
        (a + b) as u64
    }
}

pub open spec fn enforcement_height(activation: u64, warmup: u64) -> u64 {
    sat_add(sat_add(activation, warmup), 1)
}

/// Enforcement height `E = A + W + 1` (saturating).
pub fn ticket_enforcement_height(activation: u64, warmup: u64) -> (e: u64)
    ensures
        e == enforcement_height(activation, warmup),
        activation + warmup + 1 <= u64::MAX ==> e == activation + warmup + 1,
{
    activation.saturating_add(warmup).saturating_add(1)
}

/// Whether PoAW-X support has begun at `height` (`height >= A`); never on mainnet.
pub fn poawx_supported_at(network_id: u8, activation: Option<u64>, height: u64) -> (b: bool)
    ensures
        b == (network_id != 0 && reached(activation, height)),
{
    if network_id == 0 {
        return false;
    }
    is_reached(activation, height)
}

/// Whether `height` lies in the warm-up window `A ..= A + W`; never on mainnet.
pub fn in_warmup_at(network_id: u8, activation: Option<u64>, warmup: u64, height: u64) -> (b: bool)
    ensures
        b == (network_id != 0 && match activation {
            Some(a) => a <= height && height <= sat_add(a, warmup),
            None => false,
        }),
{
    if network_id == 0 {
        return false;
    }
    match activation {
        Some(a) => height >= a && height <= a.saturating_add(warmup),
        None => false,
    }
}

/// Whether full ticket-store eligibility is enforced at `height` (`height >= E`).
pub fn ticket_enforced_at(network_id: u8, activation: Option<u64>, warmup: u64, height: u64) -> (b: bool)
    ensures
        b == (network_id != 0 && match activation {
            Some(a) => height >= enforcement_height(a, warmup),
            None => false,
        }),
{
    if network_id == 0 {
        return false;
    }
    match activation {
        Some(a) => height >= ticket_enforcement_height(a, warmup),
        None => false,
    }
}

/// [`poawx_supported_at`] with the network and heights taken from `env`.
pub fn poawx_supported(env: &NodeEnv, height: u64) -> (b: bool)
    ensures
        b == (env.network_id != 0 && reached(env.schedule_activation_height, height)),
{
    let net = env.network_id;
    poawx_supported_at(net, poawx_activation_height(net, env.schedule_activation_height), height)
}

/// [`in_warmup_at`] with the network, height and window taken from `env`.
pub fn in_warmup(env: &NodeEnv, height: u64) -> (b: bool)
    ensures
        b == (env.network_id != 0 && match env.schedule_activation_height {
            Some(a) => a <= height && height <= sat_add(
                a,
                match env.schedule_warmup_window {
                    Some(v) => v,
                    None => 100,
                },
            ),
            None => false,
        }),
{
    let net = env.network_id;
    in_warmup_at(
        net,
        poawx_activation_height(net, env.schedule_activation_height),
        poawx_warmup_window(env.schedule_warmup_window),
        height,
    )
}

/// [`ticket_enforced_at`] with the network, height and window taken from `env`.
pub fn ticket_enforced(env: &NodeEnv, height: u64) -> (b: bool)
    ensures
        b == (env.network_id != 0 && match env.schedule_activation_height {
            Some(a) => height >= enforcement_height(
                a,
                match env.schedule_warmup_window {
                    Some(v) => v,
                    None => 100,
                },
            ),
            None => false,
        }),
{
    let net = env.network_id;
    ticket_enforced_at(
        net,
        poawx_activation_height(net, env.schedule_activation_height),
        poawx_warmup_window(env.schedule_warmup_window),
        height,
    )
}

/// True iff mainnet PoAW-X schedule activation is disabled.
pub fn mainnet_activation_disabled() -> (b: bool)
    ensures
        b,
{
    mainnet_poawx_activation_height().is_none()
}

/// The three phases partition every height past activation: a supported
/// height is either in the warm-up window or enforced, never both, and
/// enforcement implies support.
pub proof fn lemma_phases_partition(network_id: u8, a: u64, w: u64, height: u64)
    requires
        a + w + 1 <= u64::MAX,
    ensures
        ({
            let act = Some(a);
            let sup = network_id != 0 && reached(act, height);
            let warm = network_id != 0 && a <= height && height <= sat_add(a, w);
            let enf = network_id != 0 && height >= enforcement_height(a, w);
            &&& sup <==> (warm || enf)
            &&& !(warm && enf)
        }),
{
}

/// Enforcement, once on, stays on at every later height.
pub proof fn lemma_enforcement_monotone(network_id: u8, a: u64, w: u64, h1: u64, h2: u64)
    requires
        h1 <= h2,
        network_id != 0 && h1 >= enforcement_height(a, w),
    ensures
        network_id != 0 && h2 >= enforcement_height(a, w),
{
}

} // verus!
