//! PoAW-X adaptive security mode: a deterministic state machine from observed
//! signals to a posture (Normal / Caution / Defense / Recovery) and its policy.
//!
//! The chain continues while at least one valid miner exists; low
//! participation enters Caution, never a halt. The consensus path reads only
//! chain-derived signals and is committed in each block (`ADM1` section); it is
//! off on mainnet.
use vstd::prelude::*;
use crate::activation::{NodeEnv, routed_gate, routed_gate_on};
use crate::wire::{le32, le64, get_le64, push_le32, push_le64, push_all, read_le64, read_array32};
use crate::digest::{sha256, sha256_of};

verus! {

#[derive(Debug, Clone, Copy, PartialEq, Eq, Structural)]
pub enum AdaptiveMode {
    Normal,
    Caution,
    Defense,
    Recovery,
}

/// Observed network signals (a caller-supplied snapshot).
#[derive(Debug, Clone, Copy)]
pub struct NetworkSignals {
    pub active_miner_count: u32,
    pub valid_role_count: u32,
    pub recent_invalid_work: u32,
    pub recent_reorg_signal: u32,
    pub reward_concentration_permille: u32,
    pub finality_available: bool,
}

/// Policy output for a mode.
#[derive(Debug, Clone, Copy, PartialEq, Eq, Structural)]
pub struct AdaptivePolicy {
    pub mode: AdaptiveMode,
    pub confirmation_multiplier: u32,
    pub stricter_verification: bool,
    pub require_ticket_threshold: bool,
    pub require_finality: bool,
    pub role_fallback: bool,
}

pub const CAUTION_MIN_MINERS: u32 = 3;

pub const CAUTION_MIN_ROLES: u32 = 3;

pub const DEFENSE_INVALID_WORK: u32 = 5;

pub const DEFENSE_REORG_SIGNAL: u32 = 2;

pub const DEFENSE_CONCENTRATION_PERMILLE: u32 = 700;

pub open spec fn signals_defense(s: NetworkSignals) -> bool {
    s.recent_invalid_work >= 5 || s.recent_reorg_signal >= 2 || s.reward_concentration_permille >= 700
}

pub open spec fn signals_low(s: NetworkSignals) -> bool {
    s.active_miner_count < 3 || s.valid_role_count < 3
}

pub open spec fn signals_stable(s: NetworkSignals) -> bool {
    s.recent_invalid_work == 0 && s.recent_reorg_signal == 0 && s.reward_concentration_permille < 700
}

impl NetworkSignals {
    /// A block can be produced as long as at least one valid miner exists.
    pub fn can_produce_block(&self) -> (b: bool)
        ensures
            b == (self.active_miner_count >= 1),
    {
        self.active_miner_count >= 1
    }

    fn is_defense(&self) -> (b: bool)
        ensures
            b == signals_defense(*self),
    {
        self.recent_invalid_work >= DEFENSE_INVALID_WORK || self.recent_reorg_signal
            >= DEFENSE_REORG_SIGNAL || self.reward_concentration_permille
            >= DEFENSE_CONCENTRATION_PERMILLE
    }

    fn is_low_participation(&self) -> (b: bool)
        ensures
            b == signals_low(*self),
    {
        self.active_miner_count < CAUTION_MIN_MINERS || self.valid_role_count < CAUTION_MIN_ROLES
    }

    fn is_stable(&self) -> (b: bool)
        ensures
            b == signals_stable(*self),
    {
        self.recent_invalid_work == 0 && self.recent_reorg_signal == 0
            && self.reward_concentration_permille < DEFENSE_CONCENTRATION_PERMILLE
    }
}

pub open spec fn spec_policy(mode: AdaptiveMode) -> AdaptivePolicy {
    match mode {
        AdaptiveMode::Normal => AdaptivePolicy {
            mode,
            confirmation_multiplier: 1,
            stricter_verification: false,
            require_ticket_threshold: false,
            require_finality: false,
            role_fallback: false,
        },
        AdaptiveMode::Caution => AdaptivePolicy {
            mode,
            confirmation_multiplier: 2,
            stricter_verification: false,
            require_ticket_threshold: false,
            require_finality: false,
            role_fallback: true,
        },
        AdaptiveMode::Defense => AdaptivePolicy {
            mode,
            confirmation_multiplier: 4,
            stricter_verification: true,
            require_ticket_threshold: true,
            require_finality: true,
            role_fallback: true,
        },
        AdaptiveMode::Recovery => AdaptivePolicy {
            mode,
            confirmation_multiplier: 2,
            stricter_verification: true,
            require_ticket_threshold: true,
            require_finality: false,
            role_fallback: true,
        },
    }
}

fn policy_for(mode: AdaptiveMode) -> (p: AdaptivePolicy)
    ensures
        p == spec_policy(mode),
{
    match mode {
        AdaptiveMode::Normal => AdaptivePolicy {
            mode,
            confirmation_multiplier: 1,
            stricter_verification: false,
            require_ticket_threshold: false,
            require_finality: false,
            role_fallback: false,
        },
        AdaptiveMode::Caution => AdaptivePolicy {
            mode,
            confirmation_multiplier: 2,
            stricter_verification: false,
            require_ticket_threshold: false,
            require_finality: false,
            role_fallback: true,
        },
        AdaptiveMode::Defense => AdaptivePolicy {
            mode,
            confirmation_multiplier: 4,
            stricter_verification: true,
            require_ticket_threshold: true,
            require_finality: true,
            role_fallback: true,
        },
        AdaptiveMode::Recovery => AdaptivePolicy {
            mode,
            confirmation_multiplier: 2,
            stricter_verification: true,
            require_ticket_threshold: true,
            require_finality: false,
            role_fallback: true,
        },
    }
}

/// The mode `assess` selects: instability first, then the Defense -> Recovery
/// -> Normal hysteresis, low participation as Caution.
pub open spec fn assessed_mode(s: NetworkSignals, prior: AdaptiveMode) -> AdaptiveMode {
    if signals_defense(s) {
        AdaptiveMode::Defense
    } else if prior == AdaptiveMode::Defense && signals_stable(s) {
        AdaptiveMode::Recovery
    } else if signals_low(s) {
        AdaptiveMode::Caution
    } else if prior == AdaptiveMode::Recovery {
        if signals_stable(s) {
            AdaptiveMode::Normal
        } else {
            AdaptiveMode::Recovery
        }
    } else {
        AdaptiveMode::Normal
    }
}

/// How the assessed mode follows from the signals, over all signals and
/// prior modes: instability (5 or more invalid work, 2 or more reorg
/// signals, or a reward concentration of 700 permille or more) is Defense
/// and nothing else is; leaving Defense on stable signals is Recovery; low
/// participation (fewer than 3 miners or 3 roles) is otherwise Caution, never
/// Normal; Recovery ends in Normal only once participation is healthy and the
/// signals are stable; and each mode carries its policy.
pub proof fn lemma_assess_modes(s: NetworkSignals, prior: AdaptiveMode)
    ensures
        ({
            let m = assessed_mode(s, prior);
            let unstable = s.recent_invalid_work >= 5 || s.recent_reorg_signal >= 2
                || s.reward_concentration_permille >= 700;
            let calm = s.recent_invalid_work == 0 && s.recent_reorg_signal == 0
                && s.reward_concentration_permille < 700;
            let low = s.active_miner_count < 3 || s.valid_role_count < 3;
            &&& (m == AdaptiveMode::Defense) == unstable
            &&& (!unstable && prior == AdaptiveMode::Defense && calm) ==> m == AdaptiveMode::Recovery
            &&& (!unstable && !(prior == AdaptiveMode::Defense && calm) && low) ==> m == AdaptiveMode::Caution
            &&& m == AdaptiveMode::Normal ==> !low && !unstable
            &&& m == AdaptiveMode::Recovery ==> prior == AdaptiveMode::Defense || prior == AdaptiveMode::Recovery
            &&& (prior == AdaptiveMode::Recovery && !unstable && !low) ==> (m == AdaptiveMode::Normal) == calm
            &&& (prior != AdaptiveMode::Defense && prior != AdaptiveMode::Recovery && !unstable && !low)
                ==> m == AdaptiveMode::Normal
            &&& spec_policy(m).mode == m
            &&& spec_policy(m).confirmation_multiplier == match m {
                AdaptiveMode::Normal => 1u32,
                AdaptiveMode::Caution => 2u32,
                AdaptiveMode::Defense => 4u32,
                AdaptiveMode::Recovery => 2u32,
            }
            &&& spec_policy(m).role_fallback == (m != AdaptiveMode::Normal)
        }),
{
}

/// Deterministically assess the adaptive policy from the signals and the prior mode.
pub fn assess(signals: &NetworkSignals, prior_mode: AdaptiveMode) -> (p: AdaptivePolicy)
    ensures
        p == spec_policy(assessed_mode(*signals, prior_mode)),
        (signals.active_miner_count < 3 || signals.valid_role_count < 3) && signals.recent_invalid_work
            < 5 && signals.recent_reorg_signal < 2 && signals.reward_concentration_permille < 700
            && prior_mode != AdaptiveMode::Defense ==> p.mode == AdaptiveMode::Caution
            && p.role_fallback && p.confirmation_multiplier == 2,
        p.mode == AdaptiveMode::Normal ==> signals.active_miner_count >= 3 && signals.valid_role_count
            >= 3,
{
    proof {
        lemma_assess_modes(*signals, prior_mode);
    }
    if signals.is_defense() {
        return policy_for(AdaptiveMode::Defense);
    }
    if prior_mode == AdaptiveMode::Defense && signals.is_stable() {
        return policy_for(AdaptiveMode::Recovery);
    }
    if signals.is_low_participation() {
        return policy_for(AdaptiveMode::Caution);
    }
    if prior_mode == AdaptiveMode::Recovery {
        if signals.is_stable() {
            return policy_for(AdaptiveMode::Normal);
        }
        return policy_for(AdaptiveMode::Recovery);
    }
    policy_for(AdaptiveMode::Normal)
}

/// Adaptive-mode gate: routed through the effective activation (the fixed
/// PoAW-X height on mainnet).
pub fn adaptive_mode_gate(network_id: u8, activation: Option<u64>, height: u64) -> (b: bool)
    ensures
        b == routed_gate(network_id, activation, height),
{
    routed_gate_on(network_id, activation, height)
}

pub fn adaptive_mode_active(env: &NodeEnv, height: u64) -> (b: bool)
    ensures
        b == routed_gate(env.network_id, env.adaptive_mode_activation_height, height),
{
    adaptive_mode_gate(env.network_id, env.adaptive_mode_activation_height, height)
}

pub open spec fn mode_byte(m: AdaptiveMode) -> u8 {
    match m {
        AdaptiveMode::Normal => 0,
        AdaptiveMode::Caution => 1,
        AdaptiveMode::Defense => 2,
        AdaptiveMode::Recovery => 3,
    }
}

pub open spec fn mode_of_byte(b: u8) -> Option<AdaptiveMode> {
    if b == 0 {
        Some(AdaptiveMode::Normal)
    } else if b == 1 {
        Some(AdaptiveMode::Caution)
    } else if b == 2 {
        Some(AdaptiveMode::Defense)
    } else if b == 3 {
        Some(AdaptiveMode::Recovery)
    } else {
        None
    }
}

impl AdaptiveMode {
    /// Stable wire byte.
    pub fn to_byte(self) -> (b: u8)
        ensures
            b == mode_byte(self),
    {
        match self {
            AdaptiveMode::Normal => 0,
            AdaptiveMode::Caution => 1,
            AdaptiveMode::Defense => 2,
            AdaptiveMode::Recovery => 3,
        }
    }

    pub fn from_byte(b: u8) -> (r: Result<Self, PoawxAdaptiveValidationError>)
        ensures
            match mode_of_byte(b) {
                Some(m) => r == Ok::<AdaptiveMode, PoawxAdaptiveValidationError>(m),
                None => r == Err::<AdaptiveMode, PoawxAdaptiveValidationError>(
                    PoawxAdaptiveValidationError::BadMode,
                ),
            },
    {
        match b {
            0 => Ok(AdaptiveMode::Normal),
            1 => Ok(AdaptiveMode::Caution),
            2 => Ok(AdaptiveMode::Defense),
            3 => Ok(AdaptiveMode::Recovery),
            _ => Err(PoawxAdaptiveValidationError::BadMode),
        }
    }
}

/// Every mode survives its wire byte.
pub proof fn lemma_mode_byte_roundtrip(m: AdaptiveMode)
    ensures
        mode_of_byte(mode_byte(m)) == Some(m),
{
}

/// Recent committed-block window scanned for participation and evidence counts.
pub const ADAPTIVE_RECENT_WINDOW: u64 = 16;

pub const CAUTION_MIN_TICKETS: u32 = 3;

pub const CAUTION_MIN_ROLE_PARTICIPATION: u32 = 3;

pub const DEFENSE_EVIDENCE_COUNT: u32 = 1;

/// Blocks spent in Recovery after leaving Defense.
pub const RECOVERY_WINDOW: u32 = 4;

/// ASCII `IRIUM_POAWX_ADAPTIVE_STATE_V1`.
pub const ADAPTIVE_STATE_DIGEST_TAG: [u8; 29] = [0x49, 0x52, 0x49, 0x55, 0x4d, 0x5f, 0x50, 0x4f, 0x41, 0x57, 0x58, 0x5f, 0x41, 0x44, 0x41, 0x50, 0x54, 0x49, 0x56, 0x45, 0x5f, 0x53, 0x54, 0x41, 0x54, 0x45, 0x5f, 0x56, 0x31];

/// ASCII `IRIUM_POAWX_ADAPTIVE_METRICS_V1`.
pub const ADAPTIVE_METRICS_DIGEST_TAG: [u8; 31] = [0x49, 0x52, 0x49, 0x55, 0x4d, 0x5f, 0x50, 0x4f, 0x41, 0x57, 0x58, 0x5f, 0x41, 0x44, 0x41, 0x50, 0x54, 0x49, 0x56, 0x45, 0x5f, 0x4d, 0x45, 0x54, 0x52, 0x49, 0x43, 0x53, 0x5f, 0x56, 0x31];

pub const ADAPTIVE_COMMITMENT_VERSION: u8 = 1;

/// version + network + height + pre_mode + post_mode + 3 x 32-byte digests.
pub const ADAPTIVE_COMMITMENT_WIRE: usize = 108;

#[derive(Debug, Clone, Copy, PartialEq, Eq, Structural)]
pub enum PoawxAdaptiveValidationError {
    MainnetHardOff,
    WrongVersion,
    WrongNetwork,
    WrongHeight,
    BadMode,
    PreModeMismatch,
    PostModeMismatch,
    PreStateMismatch,
    PostStateMismatch,
    MetricsMismatch,
    Malformed,
}

/// Strictly chain-derived signals: the only input to the consensus transition.
#[derive(Debug, Clone, Copy, PartialEq, Eq, Structural)]
pub struct PoawxAdaptiveChainSignals {
    pub dominance_concentration_permille: u32,
    pub active_role_participation: u32,
    pub registered_ticket_count: u32,
    pub double_sign_evidence_count: u32,
    pub finality_available: bool,
}

pub open spec fn chain_defense(s: PoawxAdaptiveChainSignals) -> bool {
    s.dominance_concentration_permille >= 700 || s.double_sign_evidence_count >= 1
}

pub open spec fn chain_low(s: PoawxAdaptiveChainSignals) -> bool {
    s.registered_ticket_count < 3 || s.active_role_participation < 3
}

pub open spec fn signals_preimage(s: PoawxAdaptiveChainSignals) -> Seq<u8> {
    ADAPTIVE_METRICS_DIGEST_TAG@ + le32(s.dominance_concentration_permille) + le32(
        s.active_role_participation,
    ) + le32(s.registered_ticket_count) + le32(s.double_sign_evidence_count) + seq![
        if s.finality_available { 1u8 } else { 0u8 },
    ]
}

impl PoawxAdaptiveChainSignals {
    fn is_defense(&self) -> (b: bool)
        ensures
            b == chain_defense(*self),
    {
        self.dominance_concentration_permille >= DEFENSE_CONCENTRATION_PERMILLE
            || self.double_sign_evidence_count >= DEFENSE_EVIDENCE_COUNT
    }

    fn is_low_participation(&self) -> (b: bool)
        ensures
            b == chain_low(*self),
    {
        self.registered_ticket_count < CAUTION_MIN_TICKETS || self.active_role_participation
            < CAUTION_MIN_ROLE_PARTICIPATION
    }

    /// SHA-256 digest of the signals, bound into the commitment.
    pub fn digest(&self) -> (d: [u8; 32])
        ensures
            d@ == sha256_of(signals_preimage(*self)),
    {
        let mut h: Vec<u8> = Vec::new();
        push_all(&mut h, ADAPTIVE_METRICS_DIGEST_TAG.as_slice());
        push_le32(&mut h, self.dominance_concentration_permille);
        push_le32(&mut h, self.active_role_participation);
        push_le32(&mut h, self.registered_ticket_count);
        push_le32(&mut h, self.double_sign_evidence_count);
        h.push(if self.finality_available {
            1u8
        } else {
            0u8
        });
        assert(h@ =~= signals_preimage(*self));
        sha256(h.as_slice())
    }
}

/// Small, reorg-safe adaptive state carried from block to block.
#[derive(Debug, Clone, Copy, PartialEq, Eq, Structural)]
pub struct PoawxAdaptiveState {
    pub mode: AdaptiveMode,
    pub recovery_window_remaining: u32,
}

pub open spec fn state_preimage(st: PoawxAdaptiveState) -> Seq<u8> {
    ADAPTIVE_STATE_DIGEST_TAG@ + seq![mode_byte(st.mode)] + le32(st.recovery_window_remaining)
}

/// The consensus transition (see [`PoawxAdaptiveState::next`]).
pub open spec fn next_state(st: PoawxAdaptiveState, s: PoawxAdaptiveChainSignals) -> PoawxAdaptiveState {
    if chain_defense(s) {
        PoawxAdaptiveState { mode: AdaptiveMode::Defense, recovery_window_remaining: 4 }
    } else if st.mode == AdaptiveMode::Defense {
        PoawxAdaptiveState { mode: AdaptiveMode::Recovery, recovery_window_remaining: 4 }
    } else if st.mode == AdaptiveMode::Recovery && st.recovery_window_remaining > 1 {
        PoawxAdaptiveState {
            mode: AdaptiveMode::Recovery,
            recovery_window_remaining: (st.recovery_window_remaining - 1) as u32,
        }
    } else if chain_low(s) {
        PoawxAdaptiveState { mode: AdaptiveMode::Caution, recovery_window_remaining: 0 }
    } else {
        PoawxAdaptiveState { mode: AdaptiveMode::Normal, recovery_window_remaining: 0 }
    }
}

/// The state after `n` blocks under the same signals.
pub open spec fn iterate_state(st: PoawxAdaptiveState, s: PoawxAdaptiveChainSignals, n: nat) -> PoawxAdaptiveState
    decreases n,
{
    if n == 0 {
        st
    } else {
        next_state(iterate_state(st, s, (n - 1) as nat), s)
    }
}

impl PoawxAdaptiveState {
    /// Initial state: Normal, no recovery window.
    pub fn genesis() -> (st: Self)
        ensures
            st == (PoawxAdaptiveState { mode: AdaptiveMode::Normal, recovery_window_remaining: 0 }),
    {
        PoawxAdaptiveState { mode: AdaptiveMode::Normal, recovery_window_remaining: 0 }
    }

    /// SHA-256 digest of the state.
    pub fn digest(&self) -> (d: [u8; 32])
        ensures
            d@ == sha256_of(state_preimage(*self)),
    {
        let mut h: Vec<u8> = Vec::new();
        push_all(&mut h, ADAPTIVE_STATE_DIGEST_TAG.as_slice());
        h.push(self.mode.to_byte());
        push_le32(&mut h, self.recovery_window_remaining);
        assert(h@ =~= state_preimage(*self));
        sha256(h.as_slice())
    }

    /// Deterministic transition from `self` under chain-derived `signals`:
    /// instability enters Defense; the first clean block after Defense starts a
    /// four-block Recovery window, which counts down; then low participation
    /// gives Caution and otherwise Normal.
    pub fn next(&self, signals: &PoawxAdaptiveChainSignals) -> (st: Self)
        ensures
            st == next_state(*self, *signals),
            (st.mode == AdaptiveMode::Defense) == (signals.dominance_concentration_permille >= 700
                || signals.double_sign_evidence_count >= 1),
            st.mode == AdaptiveMode::Normal ==> signals.registered_ticket_count >= 3
                && signals.active_role_participation >= 3,
    {
        proof {
            lemma_next_state_modes(*self, *signals);
        }
        if signals.is_defense() {
            return PoawxAdaptiveState {
                mode: AdaptiveMode::Defense,
                recovery_window_remaining: RECOVERY_WINDOW,
            };
        }
        if self.mode == AdaptiveMode::Defense {
            return PoawxAdaptiveState {
                mode: AdaptiveMode::Recovery,
                recovery_window_remaining: RECOVERY_WINDOW,
            };
        }
        if self.mode == AdaptiveMode::Recovery {
            let rem = self.recovery_window_remaining.saturating_sub(1);
            if rem > 0 {
                return PoawxAdaptiveState { mode: AdaptiveMode::Recovery, recovery_window_remaining: rem };
            }
        }
        if signals.is_low_participation() {
            PoawxAdaptiveState { mode: AdaptiveMode::Caution, recovery_window_remaining: 0 }
        } else {
            PoawxAdaptiveState { mode: AdaptiveMode::Normal, recovery_window_remaining: 0 }
        }
    }
}

/// The consensus transition over all states and signals: a dominance
/// concentration of 700 permille or more, or any double-sign evidence, enters
/// Defense (with a four-block window) and nothing else does; the first clean
/// block after Defense starts the four-block Recovery window, which counts
/// down while more than one block remains; every other state lands in
/// Caution when fewer than 3 tickets are registered or fewer than 3 roles
/// take part, else in Normal, with no window.
pub proof fn lemma_next_state_modes(st: PoawxAdaptiveState, s: PoawxAdaptiveChainSignals)
    ensures
        ({
            let n = next_state(st, s);
            let unstable = s.dominance_concentration_permille >= 700 || s.double_sign_evidence_count >= 1;
            let low = s.registered_ticket_count < 3 || s.active_role_participation < 3;
            &&& (n.mode == AdaptiveMode::Defense) == unstable
            &&& unstable ==> n.recovery_window_remaining == 4
            &&& (!unstable && st.mode == AdaptiveMode::Defense) ==> n == (PoawxAdaptiveState {
                mode: AdaptiveMode::Recovery,
                recovery_window_remaining: 4,
            })
            &&& (!unstable && st.mode == AdaptiveMode::Recovery && st.recovery_window_remaining > 1)
                ==> n.mode == AdaptiveMode::Recovery && n.recovery_window_remaining
                == st.recovery_window_remaining - 1
            &&& (!unstable && st.mode != AdaptiveMode::Defense && !(st.mode == AdaptiveMode::Recovery
                && st.recovery_window_remaining > 1)) ==> n.recovery_window_remaining == 0 && n.mode
                == if low {
                AdaptiveMode::Caution
            } else {
                AdaptiveMode::Normal
            }
            &&& n.mode == AdaptiveMode::Normal ==> !low && !unstable
            &&& n.mode == AdaptiveMode::Recovery ==> 1 <= n.recovery_window_remaining <= 4
                || st.recovery_window_remaining > 5
        }),
{
}

/// After Defense, clean signals hold the chain in Recovery for exactly
/// `RECOVERY_WINDOW` blocks, counting down, and the next block returns to the
/// base mode (Caution under low participation, else Normal).
pub proof fn lemma_recovery_window(st: PoawxAdaptiveState, s: PoawxAdaptiveChainSignals, k: nat)
    requires
        st.mode == AdaptiveMode::Defense,
        !chain_defense(s),
        1 <= k <= 5,
    ensures
        k <= 4 ==> iterate_state(st, s, k) == (PoawxAdaptiveState {
            mode: AdaptiveMode::Recovery,
            recovery_window_remaining: (5 - k) as u32,
        }),
        k == 5 ==> iterate_state(st, s, k).mode == if chain_low(s) {
            AdaptiveMode::Caution
        } else {
            AdaptiveMode::Normal
        },
    decreases k,
{
    assert(iterate_state(st, s, k) == next_state(iterate_state(st, s, (k - 1) as nat), s));
    if k > 1 {
        lemma_recovery_window(st, s, (k - 1) as nat);
    } else {
        assert(iterate_state(st, s, 0) == st);
    }
}

/// Instability always enters Defense, whatever the prior state.
pub proof fn lemma_defense_dominates(st: PoawxAdaptiveState, s: PoawxAdaptiveChainSignals)
    requires
        chain_defense(s),
    ensures
        next_state(st, s).mode == AdaptiveMode::Defense,
        next_state(st, s).recovery_window_remaining == 4,
{
}

/// Block-carried adaptive-mode commitment (`ADM1` section).
#[derive(Debug, Clone, Copy, PartialEq, Eq)]
pub struct PoawxAdaptiveCommitmentV1 {
    pub version: u8,
    pub network_id: u8,
    pub block_height: u64,
    pub pre_mode: u8,
    pub post_mode: u8,
    pub pre_state_digest: [u8; 32],
    pub post_state_digest: [u8; 32],
    pub metrics_digest: [u8; 32],
}

pub open spec fn commitment_bytes(c: PoawxAdaptiveCommitmentV1) -> Seq<u8> {
    seq![c.version, c.network_id] + le64(c.block_height) + seq![c.pre_mode, c.post_mode]
        + c.pre_state_digest@ + c.post_state_digest@ + c.metrics_digest@
}

/// What [`PoawxAdaptiveCommitmentV1::validate`] answers, in the order it checks.
pub open spec fn spec_validate_commitment(
    c: PoawxAdaptiveCommitmentV1,
    expected_network: u8,
    height: u64,
    pre: PoawxAdaptiveState,
    post: PoawxAdaptiveState,
    signals: PoawxAdaptiveChainSignals,
) -> Result<(), PoawxAdaptiveValidationError> {
    if expected_network == 0 {
        Err(PoawxAdaptiveValidationError::MainnetHardOff)
    } else if c.version != 1 {
        Err(PoawxAdaptiveValidationError::WrongVersion)
    } else if c.network_id != expected_network {
        Err(PoawxAdaptiveValidationError::WrongNetwork)
    } else if c.block_height != height {
        Err(PoawxAdaptiveValidationError::WrongHeight)
    } else if mode_of_byte(c.pre_mode) is None || mode_of_byte(c.post_mode) is None {
        Err(PoawxAdaptiveValidationError::BadMode)
    } else if c.pre_mode != mode_byte(pre.mode) {
        Err(PoawxAdaptiveValidationError::PreModeMismatch)
    } else if c.post_mode != mode_byte(post.mode) {
        Err(PoawxAdaptiveValidationError::PostModeMismatch)
    } else if c.pre_state_digest@ != sha256_of(state_preimage(pre)) {
        Err(PoawxAdaptiveValidationError::PreStateMismatch)
    } else if c.post_state_digest@ != sha256_of(state_preimage(post)) {
        Err(PoawxAdaptiveValidationError::PostStateMismatch)
    } else if c.metrics_digest@ != sha256_of(signals_preimage(signals)) {
        Err(PoawxAdaptiveValidationError::MetricsMismatch)
    } else {
        Ok(())
    }
}

impl PoawxAdaptiveCommitmentV1 {
    pub fn new(
        network_id: u8,
        block_height: u64,
        pre: &PoawxAdaptiveState,
        post: &PoawxAdaptiveState,
        signals: &PoawxAdaptiveChainSignals,
    ) -> (c: Self)
        ensures
            c.version == 1,
            c.network_id == network_id,
            c.block_height == block_height,
            c.pre_mode == mode_byte(pre.mode),
            c.post_mode == mode_byte(post.mode),
            c.pre_state_digest@ == sha256_of(state_preimage(*pre)),
            c.post_state_digest@ == sha256_of(state_preimage(*post)),
            c.metrics_digest@ == sha256_of(signals_preimage(*signals)),
    {
        PoawxAdaptiveCommitmentV1 {
            version: ADAPTIVE_COMMITMENT_VERSION,
            network_id,
            block_height,
            pre_mode: pre.mode.to_byte(),
            post_mode: post.mode.to_byte(),
            pre_state_digest: pre.digest(),
            post_state_digest: post.digest(),
            metrics_digest: signals.digest(),
        }
    }

    /// The fixed 108-byte wire encoding.
    pub fn serialize(&self) -> (o: Vec<u8>)
        ensures
            o@ == commitment_bytes(*self),
            o@.len() == 108,
    {
        let mut o: Vec<u8> = Vec::new();
        o.push(self.version);
        o.push(self.network_id);
        push_le64(&mut o, self.block_height);
        o.push(self.pre_mode);
        o.push(self.post_mode);
        push_all(&mut o, self.pre_state_digest.as_slice());
        push_all(&mut o, self.post_state_digest.as_slice());
        push_all(&mut o, self.metrics_digest.as_slice());
        assert(o@ =~= commitment_bytes(*self));
        o
    }

    /// Parses the wire encoding: exact length and version 1; mode bytes are
    /// checked by [`Self::validate`], not here.
    pub fn deserialize(raw: &[u8]) -> (r: Result<Self, String>)
        ensures
            r is Ok <==> (raw@.len() == 108 && raw@[0] == 1),
            r matches Ok(c) ==> {
                &&& c.version == 1
                &&& c.network_id == raw@[1]
                &&& c.block_height == get_le64(raw@, 2)
                &&& c.pre_mode == raw@[10]
                &&& c.post_mode == raw@[11]
                &&& c.pre_state_digest@ == raw@.subrange(12, 44)
                &&& c.post_state_digest@ == raw@.subrange(44, 76)
                &&& c.metrics_digest@ == raw@.subrange(76, 108)
            },
    {
        if raw.len() != ADAPTIVE_COMMITMENT_WIRE {
            return Err("adaptive commitment: bad length".to_owned());
        }
        if raw[0] != ADAPTIVE_COMMITMENT_VERSION {
            return Err("adaptive commitment: bad version".to_owned());
        }
        Ok(PoawxAdaptiveCommitmentV1 {
            version: ADAPTIVE_COMMITMENT_VERSION,
            network_id: raw[1],
            block_height: read_le64(raw, 2),
            pre_mode: raw[10],
            post_mode: raw[11],
            pre_state_digest: read_array32(raw, 12),
            post_state_digest: read_array32(raw, 44),
            metrics_digest: read_array32(raw, 76),
        })
    }

    /// Validates the commitment against the recomputed pre/post state and
    /// signals. Rejected on mainnet.
    pub fn validate(
        &self,
        expected_network: u8,
        height: u64,
        pre: &PoawxAdaptiveState,
        post: &PoawxAdaptiveState,
        signals: &PoawxAdaptiveChainSignals,
    ) -> (r: Result<(), PoawxAdaptiveValidationError>)
        ensures
            r == spec_validate_commitment(*self, expected_network, height, *pre, *post, *signals),
    {
        if expected_network == 0 {
            return Err(PoawxAdaptiveValidationError::MainnetHardOff);
        }
        if self.version != ADAPTIVE_COMMITMENT_VERSION {
            return Err(PoawxAdaptiveValidationError::WrongVersion);
        }
        if self.network_id != expected_network {
            return Err(PoawxAdaptiveValidationError::WrongNetwork);
        }
        if self.block_height != height {
            return Err(PoawxAdaptiveValidationError::WrongHeight);
        }
        if AdaptiveMode::from_byte(self.pre_mode).is_err() {
            return Err(PoawxAdaptiveValidationError::BadMode);
        }
        if AdaptiveMode::from_byte(self.post_mode).is_err() {
            return Err(PoawxAdaptiveValidationError::BadMode);
        }
        if self.pre_mode != pre.mode.to_byte() {
            return Err(PoawxAdaptiveValidationError::PreModeMismatch);
        }
        if self.post_mode != post.mode.to_byte() {
            return Err(PoawxAdaptiveValidationError::PostModeMismatch);
        }
        let pd = pre.digest();
        if !crate::wire::bytes_equal(self.pre_state_digest.as_slice(), pd.as_slice()) {
            return Err(PoawxAdaptiveValidationError::PreStateMismatch);
        }
        let qd = post.digest();
        if !crate::wire::bytes_equal(self.post_state_digest.as_slice(), qd.as_slice()) {
            return Err(PoawxAdaptiveValidationError::PostStateMismatch);
        }
        let md = signals.digest();
        if !crate::wire::bytes_equal(self.metrics_digest.as_slice(), md.as_slice()) {
            return Err(PoawxAdaptiveValidationError::MetricsMismatch);
        }
        Ok(())
    }
}

/// A commitment built from a pre-state, post-state and signals validates
/// against exactly those values on any non-mainnet network at its height.
pub proof fn lemma_commitment_validates(
    c: PoawxAdaptiveCommitmentV1,
    net: u8,
    height: u64,
    pre: PoawxAdaptiveState,
    post: PoawxAdaptiveState,
    s: PoawxAdaptiveChainSignals,
)
    requires
        net != 0,
        c.version == 1,
        c.network_id == net,
        c.block_height == height,
        c.pre_mode == mode_byte(pre.mode),
        c.post_mode == mode_byte(post.mode),
        c.pre_state_digest@ == sha256_of(state_preimage(pre)),
        c.post_state_digest@ == sha256_of(state_preimage(post)),
        c.metrics_digest@ == sha256_of(signals_preimage(s)),
    ensures
        spec_validate_commitment(c, net, height, pre, post, s) is Ok,
{
    lemma_mode_byte_roundtrip(pre.mode);
    lemma_mode_byte_roundtrip(post.mode);
}

/// Whether an `ADM1` commitment is required on every block: never on mainnet.
pub fn adaptive_commitment_required(env: &NodeEnv) -> (b: bool)
    ensures
        b == (env.network_id != 0 && env.adaptive_commitment_required),
{
    adaptive_commitment_required_pure(env.network_id, env.adaptive_commitment_required)
}

pub fn adaptive_commitment_required_pure(network_id: u8, required: bool) -> (b: bool)
    ensures
        b == (network_id != 0 && required),
{
    network_id != 0 && required
}

/// A commitment is enforced only when adaptive mode is active and required.
pub fn adaptive_commitment_enforced(env: &NodeEnv, height: u64) -> (b: bool)
    ensures
        b == (routed_gate(env.network_id, env.adaptive_mode_activation_height, height)
            && env.network_id != 0 && env.adaptive_commitment_required),
{
    adaptive_mode_active(env, height) && adaptive_commitment_required(env)
}

} // verus!
