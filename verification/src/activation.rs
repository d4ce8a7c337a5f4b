//! Network identity and consensus activation heights.
//!
//! Mainnet activation heights are fixed in code and never read from the
//! environment; testnet and devnet take their heights from operator-supplied
//! overrides. The environment itself is read by the caller and handed in as
//! plain values (an override, or a [`NodeEnv`] snapshot).
use vstd::prelude::*;
use crate::text::{chars_of, trim_chars, to_ascii_lower_chars, chars_equal, trimmed, ascii_lower_seq};

verus! {

/// Mainnet HTLCv1 activation height.
pub fn mainnet_htlcv1_activation_height() -> (r: Option<u64>)
    ensures
        r == Some(18677u64),
{
    Some(18677u64)
}

/// Mainnet LWMA difficulty activation height (active since 16,462).
pub fn mainnet_lwma_activation_height() -> (r: Option<u64>)
    ensures
        r == Some(16_462u64),
{
    Some(16_462u64)
}

/// Mainnet LWMA v2 activation height.
pub fn mainnet_lwma_v2_activation_height() -> (r: Option<u64>)
    ensures
        r == Some(19_740u64),
{
    Some(19_740u64)
}

/// Mainnet block-time V2 activation height (T 600s -> 120s plus halving rescale).
pub fn mainnet_block_time_v2_activation_height() -> (r: Option<u64>)
    ensures
        r == Some(24_250u64),
{
    Some(24_250u64)
}

/// Mainnet AuxPoW merged-mining activation height.
pub fn mainnet_auxpow_activation_height() -> (r: Option<u64>)
    ensures
        r == Some(24_800u64),
{
    Some(24_800u64)
}

/// Mainnet Bitcoin SPV header relay activation height.
pub fn mainnet_btc_spv_relay_activation_height() -> (r: Option<u64>)
    ensures
        r == Some(23_850u64),
{
    Some(23_850u64)
}

/// Mainnet anchor for the BTC SPV header relay: block 880,000.
pub const MAINNET_BTC_ANCHOR_HEIGHT: u64 = 880_000;

/// Bitcoin mainnet block 880000 hash in natural byte order.
pub const MAINNET_BTC_ANCHOR_HASH: [u8; 32] = [
    0x80, 0x28, 0xca, 0x5c, 0xec, 0x82, 0x20, 0xcf, 0x1d, 0xfd, 0x2a, 0x9c, 0x9a, 0x96, 0x07, 0x05,
    0x40, 0x3c, 0x3c, 0x28, 0x17, 0x0b, 0x01, 0x00, 0x00, 0x00, 0x00, 0x00, 0x00, 0x00, 0x00, 0x00,
];

pub const MAINNET_BTC_ANCHOR_BITS: u32 = 0x17028c61;

pub const MAINNET_BTC_ANCHOR_TIME: u32 = 1_737_337_343;

/// Mainnet Litecoin SPV header relay activation height.
pub fn mainnet_ltc_spv_relay_activation_height() -> (r: Option<u64>)
    ensures
        r == Some(24_800u64),
{
    Some(24_800u64)
}

/// Mainnet anchor for the LTC SPV header relay: Litecoin block 3,106,656.
pub const MAINNET_LTC_ANCHOR_HEIGHT: u64 = 3_106_656;

/// Anchor hash in display order (reversed to natural order where it is used).
pub const MAINNET_LTC_ANCHOR_HASH_DISPLAY: [u8; 32] = [
    0x8a, 0x89, 0xd2, 0xe5, 0x23, 0x29, 0xaa, 0xbe, 0x63, 0xfa, 0xbe, 0xb9, 0xd4, 0xcf, 0x73, 0x4d,
    0x8a, 0x44, 0xde, 0x15, 0x85, 0x98, 0xaf, 0xb6, 0x56, 0x0f, 0x20, 0xf8, 0xc9, 0x47, 0xbe, 0x64,
];

pub const MAINNET_LTC_ANCHOR_BITS: u32 = 0x1929_b619;

pub const MAINNET_LTC_ANCHOR_TIME: u32 = 1_778_676_649;

/// Mainnet HtlcLtcSwapV1 activation height.
pub fn mainnet_htlc_ltc_swap_v1_activation_height() -> (r: Option<u64>)
    ensures
        r == Some(24_800u64),
{
    Some(24_800u64)
}

/// Mainnet LtcSwapOrder activation height.
pub fn mainnet_ltc_swap_order_v1_activation_height() -> (r: Option<u64>)
    ensures
        r == Some(24_800u64),
{
    Some(24_800u64)
}

/// Mainnet coinbase header-batch activation height.
pub fn mainnet_coinbase_header_batch_activation_height() -> (r: Option<u64>)
    ensures
        r == Some(24_800u64),
{
    Some(24_800u64)
}

/// Mainnet HtlcBtcSwapV1 activation height.
pub fn mainnet_htlc_btc_swap_v1_activation_height() -> (r: Option<u64>)
    ensures
        r == Some(23_850u64),
{
    Some(23_850u64)
}

/// Mainnet SwapOrder activation height.
pub fn mainnet_swap_order_v1_activation_height() -> (r: Option<u64>)
    ensures
        r == Some(23_850u64),
{
    Some(23_850u64)
}

/// Mainnet activation of bech32 P2WPKH BTC payments in swap claims: pending governance.
pub fn mainnet_btc_swap_bech32_payment_activation_height() -> (r: Option<u64>)
    ensures
        r == None::<u64>,
{
    None
}

/// Mainnet MPSOv1 (M-of-N multisig output) activation height.
pub fn mainnet_mpsov1_activation_height() -> (r: Option<u64>)
    ensures
        r == Some(20_000u64),
{
    Some(20_000u64)
}

/// Mainnet height of the Bitcoin-standard block-header serialization fork.
pub const STANDARD_HEADER_ACTIVATION_HEIGHT: u64 = 23_500;

/// Mainnet PoAW-X consensus activation height, fixed in code.
pub fn mainnet_poawx_activation_height() -> (r: Option<u64>)
    ensures
        r == Some(50_000u64),
{
    Some(50_000u64)
}

/// The single deploy knob of the combined mainnet activation.
pub fn mainnet_combined_activation_height() -> (r: Option<u64>)
    ensures
        r == Some(61_414u64),
{
    Some(61_414u64)
}

/// Mainnet fair-distribution enforcement activation height.
pub fn mainnet_fair_distribution_activation_height() -> (r: Option<u64>)
    ensures
        r == Some(62236u64),
{
    Some(62236u64)
}

/// Mainnet activation of the four-output (one payee per role) coinbase.
pub fn mainnet_four_role_payout_activation_height() -> (r: Option<u64>)
    ensures
        r == Some(64_940u64),
{
    Some(64_940u64)
}

/// Mainnet activation height for delegated (mode-1) PoAW-X receipts.
pub fn mainnet_poawx_delegation_height() -> (r: Option<u64>)
    ensures
        r == Some(57_920u64),
{
    Some(57_920u64)
}

/// Mainnet PoAW-X liveness-recovery activation height.
pub fn mainnet_poawx_liveness_recovery_activation_height() -> (r: Option<u64>)
    ensures
        r == Some(50_000u64),
{
    Some(50_000u64)
}

/// The network a node runs on.
#[derive(Debug, Clone, Copy, PartialEq, Eq, Structural)]
pub enum NetworkKind {
    Mainnet,
    Testnet,
    Devnet,
}

/// The network an `IRIUM_NETWORK` value names (after trimming and ASCII case folding):
/// `testnet`, or `devnet`/`regtest`/`trial`; anything else is mainnet.
pub open spec fn network_kind_of(v: Seq<char>) -> NetworkKind {
    let t = ascii_lower_seq(trimmed(v));
    if t == seq!['t', 'e', 's', 't', 'n', 'e', 't'] {
        NetworkKind::Testnet
    } else if t == seq!['d', 'e', 'v', 'n', 'e', 't'] || t == seq!['r', 'e', 'g', 't', 'e', 's', 't']
        || t == seq!['t', 'r', 'i', 'a', 'l'] {
        NetworkKind::Devnet
    } else {
        NetworkKind::Mainnet
    }
}

/// One-byte network identifier: mainnet 0, testnet 1, devnet 2.
pub open spec fn network_id_of(k: NetworkKind) -> u8 {
    match k {
        NetworkKind::Mainnet => 0,
        NetworkKind::Testnet => 1,
        NetworkKind::Devnet => 2,
    }
}

impl NetworkKind {
    pub fn from_env_value(v: &str) -> (k: Self)
        ensures
            k == network_kind_of(v@),
    {
        let t = to_ascii_lower_chars(&trim_chars(&chars_of(v)));
        if chars_equal(t.as_slice(), &['t', 'e', 's', 't', 'n', 'e', 't']) {
            NetworkKind::Testnet
        } else if chars_equal(t.as_slice(), &['d', 'e', 'v', 'n', 'e', 't']) || chars_equal(
            t.as_slice(),
            &['r', 'e', 'g', 't', 'e', 's', 't'],
        ) || chars_equal(t.as_slice(), &['t', 'r', 'i', 'a', 'l']) {
            NetworkKind::Devnet
        } else {
            NetworkKind::Mainnet
        }
    }

    /// Stable one-byte network identifier bound into PoAW-X delegations.
    pub fn id_byte(self) -> (b: u8)
        ensures
            b == network_id_of(self),
    {
        match self {
            NetworkKind::Mainnet => 0,
            NetworkKind::Testnet => 1,
            NetworkKind::Devnet => 2,
        }
    }
}

/// The network named by the `IRIUM_NETWORK` value `var` (mainnet when unset).
pub fn network_kind_from_env(var: Option<&str>) -> (k: NetworkKind)
    ensures
        k == match var {
            Some(v) => network_kind_of(v@),
            None => NetworkKind::Mainnet,
        },
{
    match var {
        Some(v) => NetworkKind::from_env_value(v),
        None => NetworkKind::Mainnet,
    }
}

/// The network identifier byte for the `IRIUM_NETWORK` value `var`.
pub fn network_id_byte(var: Option<&str>) -> (b: u8)
    ensures
        b == network_id_of(
            match var {
                Some(v) => network_kind_of(v@),
                None => NetworkKind::Mainnet,
            },
        ),
{
    network_kind_from_env(var).id_byte()
}

/// Whether an optional activation height has been reached at `height`.
pub open spec fn reached(activation: Option<u64>, height: u64) -> bool {
    match activation {
        Some(h) => height >= h,
        None => false,
    }
}

pub fn is_reached(activation: Option<u64>, height: u64) -> (b: bool)
    ensures
        b == reached(activation, height),
{
    match activation {
        Some(h) => height >= h,
        None => false,
    }
}

/// Whether mainnet PoAW-X is active at `height` on network `network_id`
/// (mainnet past the fixed activation height; never on testnet/devnet).
pub fn poawx_mainnet_active(network_id: u8, height: u64) -> (b: bool)
    ensures
        b == (network_id == 0 && height >= 50_000),
{
    network_id == 0 && is_reached(mainnet_poawx_activation_height(), height)
}

pub open spec fn effective_activation(network_id: u8, env_activation: Option<u64>) -> Option<u64> {
    if network_id == 0 {
        Some(50_000u64)
    } else {
        env_activation
    }
}

/// Effective per-gate activation: the fixed mainnet height on mainnet (the
/// environment is ignored), else the supplied testnet/devnet activation.
pub fn poawx_effective_activation(network_id: u8, env_activation: Option<u64>) -> (r: Option<u64>)
    ensures
        r == effective_activation(network_id, env_activation),
{
    if network_id == 0 {
        mainnet_poawx_activation_height()
    } else {
        env_activation
    }
}

/// Whether a gate that routes through [`poawx_effective_activation`] is on.
pub open spec fn routed_gate(network_id: u8, activation: Option<u64>, height: u64) -> bool {
    reached(effective_activation(network_id, activation), height)
}

pub fn routed_gate_on(network_id: u8, activation: Option<u64>, height: u64) -> (b: bool)
    ensures
        b == routed_gate(network_id, activation, height),
        network_id == 0 ==> b == (height >= 50_000),
        network_id != 0 ==> b == (activation matches Some(h) && height >= h),
{
    is_reached(poawx_effective_activation(network_id, activation), height)
}

/// A snapshot of the node settings that the environment supplies: the network,
/// and each activation height, flag and tunable already parsed from its variable
/// (`None` or `false` where the variable is unset or does not parse).
#[derive(Debug, Clone, Copy)]
pub struct NodeEnv {
    pub network_id: u8,
    /// `IRIUM_POAWX_MODE` is `active`.
    pub poawx_mode_active: bool,
    pub poawx_activation_height: Option<u64>,
    pub liveness_recovery_activation_height: Option<u64>,
    pub schedule_activation_height: Option<u64>,
    pub schedule_warmup_window: Option<u64>,
    pub proposer_freeze_depth: Option<u64>,
    pub proposer_round_interval_secs: Option<u64>,
    pub proposer_anti_spam_bits: Option<u32>,
    pub pow_demotion_activation_height: Option<u64>,
    pub proposer_nonexclusive_activation_height: Option<u64>,
    pub proposer_vrf_activation_height: Option<u64>,
    /// `IRIUM_POAWX_PROPOSER_VRF_REQUIRED` is `1`.
    pub proposer_vrf_required: bool,
    pub proposer_registration_activation_height: Option<u64>,
    pub proposer_stall_recovery_secs: Option<u64>,
    pub proposer_expiry_window: Option<u64>,
    pub fork_choice_hardening_activation_height: Option<u64>,
    pub audit_hardening_activation_height: Option<u64>,
    pub contributor_role_binding_activation_height: Option<u64>,
    pub max_reorg_depth: Option<u64>,
    pub min_finality_committee: Option<u64>,
    pub adaptive_mode_activation_height: Option<u64>,
    /// `IRIUM_POAWX_ADAPTIVE_COMMITMENT_REQUIRED` is `1`.
    pub adaptive_commitment_required: bool,
    pub reward_manifest_caps_activation_height: Option<u64>,
    /// `IRIUM_POAWX_REWARD_MANIFEST_CAPS_REQUIRED` is `1`.
    pub reward_manifest_caps_required: bool,
    /// `IRIUM_POAWX_REWARD_MANIFEST_REQUIRED` is `1`.
    pub reward_manifest_section_required: bool,
    pub candidate_admission_window: Option<u64>,
    pub candidate_admission_activation_height: Option<u64>,
    /// `IRIUM_POAWX_CANDIDATE_ADMISSION_REQUIRED` is `1`.
    pub candidate_admission_required: bool,
    /// `IRIUM_POAWX_REMOTE_ENROLLMENT` is `1`.
    pub remote_enrollment: bool,
    pub double_sign_penalty_activation_height: Option<u64>,
    pub mandatory_inclusion_enforce_height: Option<u64>,
    pub mandatory_inclusion_record_height: Option<u64>,
    pub puzzle_difficulty_bits: Option<u32>,
    pub miner_interval_secs: Option<u64>,
    pub admission_rate_window_secs: Option<u64>,
    pub admission_rate_max: Option<u32>,
    pub admission_cooldown_secs: Option<u64>,
}

impl NodeEnv {
    /// The settings of a node on `network_id` with no variable set.
    pub fn unset(network_id: u8) -> (e: NodeEnv)
        ensures
            e.network_id == network_id,
            !e.poawx_mode_active && !e.proposer_vrf_required && !e.adaptive_commitment_required,
            !e.reward_manifest_caps_required && !e.reward_manifest_section_required,
            !e.candidate_admission_required && !e.remote_enrollment,
            e.poawx_activation_height is None && e.liveness_recovery_activation_height is None,
            e.schedule_activation_height is None && e.schedule_warmup_window is None,
            e.proposer_freeze_depth is None && e.proposer_round_interval_secs is None,
            e.proposer_anti_spam_bits is None && e.pow_demotion_activation_height is None,
            e.proposer_nonexclusive_activation_height is None,
            e.proposer_vrf_activation_height is None,
            e.proposer_registration_activation_height is None,
            e.proposer_stall_recovery_secs is None && e.proposer_expiry_window is None,
            e.fork_choice_hardening_activation_height is None,
            e.audit_hardening_activation_height is None,
            e.contributor_role_binding_activation_height is None,
            e.max_reorg_depth is None && e.min_finality_committee is None,
            e.adaptive_mode_activation_height is None,
            e.reward_manifest_caps_activation_height is None,
            e.candidate_admission_window is None && e.candidate_admission_activation_height is None,
            e.double_sign_penalty_activation_height is None,
            e.mandatory_inclusion_enforce_height is None && e.mandatory_inclusion_record_height is None,
            e.puzzle_difficulty_bits is None && e.miner_interval_secs is None,
            e.admission_rate_window_secs is None && e.admission_rate_max is None,
            e.admission_cooldown_secs is None,
    {
        NodeEnv {
            network_id,
            poawx_mode_active: false,
            poawx_activation_height: None,
            liveness_recovery_activation_height: None,
            schedule_activation_height: None,
            schedule_warmup_window: None,
            proposer_freeze_depth: None,
            proposer_round_interval_secs: None,
            proposer_anti_spam_bits: None,
            pow_demotion_activation_height: None,
            proposer_nonexclusive_activation_height: None,
            proposer_vrf_activation_height: None,
            proposer_vrf_required: false,
            proposer_registration_activation_height: None,
            proposer_stall_recovery_secs: None,
            proposer_expiry_window: None,
            fork_choice_hardening_activation_height: None,
            audit_hardening_activation_height: None,
            contributor_role_binding_activation_height: None,
            max_reorg_depth: None,
            min_finality_committee: None,
            adaptive_mode_activation_height: None,
            adaptive_commitment_required: false,
            reward_manifest_caps_activation_height: None,
            reward_manifest_caps_required: false,
            reward_manifest_section_required: false,
            candidate_admission_window: None,
            candidate_admission_activation_height: None,
            candidate_admission_required: false,
            remote_enrollment: false,
            double_sign_penalty_activation_height: None,
            mandatory_inclusion_enforce_height: None,
            mandatory_inclusion_record_height: None,
            puzzle_difficulty_bits: None,
            miner_interval_secs: None,
            admission_rate_window_secs: None,
            admission_rate_max: None,
            admission_cooldown_secs: None,
        }
    }
}

/// Whether PoAW-X consensus is active at `height`: the fixed height on mainnet;
/// on testnet/devnet the `IRIUM_POAWX_MODE=active` master switch and the
/// `IRIUM_POAWX_ACTIVATION_HEIGHT` must both hold.
pub fn poawx_consensus_active(env: &NodeEnv, height: u64) -> (b: bool)
    ensures
        b == if env.network_id == 0 {
            height >= 50_000
        } else {
            env.poawx_mode_active && reached(env.poawx_activation_height, height)
        },
{
    if env.network_id == 0 {
        return is_reached(mainnet_poawx_activation_height(), height);
    }
    if !env.poawx_mode_active {
        return false;
    }
    is_reached(env.poawx_activation_height, height)
}

/// Whether the PoAW-X producer/RPC layer serves at `height`: height-gated on
/// mainnet, the master switch alone on testnet/devnet.
pub fn poawx_serving_active(env: &NodeEnv, height: u64) -> (b: bool)
    ensures
        b == if env.network_id == 0 {
            height >= 50_000
        } else {
            env.poawx_mode_active
        },
{
    if env.network_id == 0 {
        return is_reached(mainnet_poawx_activation_height(), height);
    }
    env.poawx_mode_active
}

/// Whether PoAW-X liveness recovery is active at `height`.
pub fn poawx_liveness_recovery_active(env: &NodeEnv, height: u64) -> (b: bool)
    ensures
        b == if env.network_id == 0 {
            height >= 50_000
        } else {
            reached(env.liveness_recovery_activation_height, height)
        },
{
    if env.network_id == 0 {
        return is_reached(mainnet_poawx_liveness_recovery_activation_height(), height);
    }
    is_reached(env.liveness_recovery_activation_height, height)
}

/// Mainnet constant for mainnet, the override for testnet/devnet.
pub open spec fn resolve(network: NetworkKind, mainnet: Option<u64>, env_override: Option<u64>) -> Option<u64> {
    match network {
        NetworkKind::Mainnet => mainnet,
        _ => env_override,
    }
}

pub fn resolved_htlcv1_activation_height(network: NetworkKind, env_override: Option<u64>) -> (r: Option<u64>)
    ensures
        r == resolve(network, Some(18677u64), env_override),
{
    match network {
        NetworkKind::Mainnet => mainnet_htlcv1_activation_height(),
        NetworkKind::Testnet | NetworkKind::Devnet => env_override,
    }
}

pub fn resolved_lwma_activation_height(network: NetworkKind, env_override: Option<u64>) -> (r: Option<u64>)
    ensures
        r == resolve(network, Some(16_462u64), env_override),
{
    match network {
        NetworkKind::Mainnet => mainnet_lwma_activation_height(),
        NetworkKind::Testnet | NetworkKind::Devnet => env_override,
    }
}

pub fn resolved_lwma_v2_activation_height(network: NetworkKind, env_override: Option<u64>) -> (r: Option<u64>)
    ensures
        r == resolve(network, Some(19_740u64), env_override),
{
    match network {
        NetworkKind::Mainnet => mainnet_lwma_v2_activation_height(),
        NetworkKind::Testnet | NetworkKind::Devnet => env_override,
    }
}

/// Standard-header activation: mainnet always the historical height (the
/// override is ignored); testnet/devnet the override, else 1 so that genesis
/// keeps the legacy header.
pub fn resolved_standard_header_activation_height(network: NetworkKind, env_override: Option<u64>) -> (r: u64)
    ensures
        r == match network {
            NetworkKind::Mainnet => 23_500,
            _ => match env_override {
                Some(h) => h,
                None => 1,
            },
        },
{
    resolve_standard_header_activation(network, env_override)
}

pub fn resolve_standard_header_activation(network: NetworkKind, env_override: Option<u64>) -> (r: u64)
    ensures
        r == match network {
            NetworkKind::Mainnet => 23_500,
            _ => match env_override {
                Some(h) => h,
                None => 1,
            },
        },
{
    match network {
        NetworkKind::Mainnet => STANDARD_HEADER_ACTIVATION_HEIGHT,
        NetworkKind::Testnet | NetworkKind::Devnet => match env_override {
            Some(h) => h,
            None => 1,
        },
    }
}

pub fn resolved_auxpow_activation_height(network: NetworkKind, env_override: Option<u64>) -> (r: Option<u64>)
    ensures
        r == resolve(network, Some(24_800u64), env_override),
{
    match network {
        NetworkKind::Mainnet => mainnet_auxpow_activation_height(),
        NetworkKind::Testnet | NetworkKind::Devnet => env_override,
    }
}

pub fn resolved_block_time_v2_activation_height(network: NetworkKind, env_override: Option<u64>) -> (r: Option<u64>)
    ensures
        r == resolve(network, Some(24_250u64), env_override),
{
    match network {
        NetworkKind::Mainnet => mainnet_block_time_v2_activation_height(),
        NetworkKind::Testnet | NetworkKind::Devnet => env_override,
    }
}

pub fn resolved_btc_spv_relay_activation_height(network: NetworkKind, env_override: Option<u64>) -> (r: Option<u64>)
    ensures
        r == resolve(network, Some(23_850u64), env_override),
{
    match network {
        NetworkKind::Mainnet => mainnet_btc_spv_relay_activation_height(),
        NetworkKind::Testnet | NetworkKind::Devnet => env_override,
    }
}

pub fn resolved_ltc_spv_relay_activation_height(network: NetworkKind, env_override: Option<u64>) -> (r: Option<u64>)
    ensures
        r == resolve(network, Some(24_800u64), env_override),
{
    match network {
        NetworkKind::Mainnet => mainnet_ltc_spv_relay_activation_height(),
        NetworkKind::Testnet | NetworkKind::Devnet => env_override,
    }
}

pub fn resolved_htlc_ltc_swap_v1_activation_height(network: NetworkKind, env_override: Option<u64>) -> (r: Option<u64>)
    ensures
        r == resolve(network, Some(24_800u64), env_override),
{
    match network {
        NetworkKind::Mainnet => mainnet_htlc_ltc_swap_v1_activation_height(),
        NetworkKind::Testnet | NetworkKind::Devnet => env_override,
    }
}

pub fn resolved_ltc_swap_order_v1_activation_height(network: NetworkKind, env_override: Option<u64>) -> (r: Option<u64>)
    ensures
        r == resolve(network, Some(24_800u64), env_override),
{
    match network {
        NetworkKind::Mainnet => mainnet_ltc_swap_order_v1_activation_height(),
        NetworkKind::Testnet | NetworkKind::Devnet => env_override,
    }
}

pub fn resolved_htlc_btc_swap_v1_activation_height(network: NetworkKind, env_override: Option<u64>) -> (r: Option<u64>)
    ensures
        r == resolve(network, Some(23_850u64), env_override),
{
    match network {
        NetworkKind::Mainnet => mainnet_htlc_btc_swap_v1_activation_height(),
        NetworkKind::Testnet | NetworkKind::Devnet => env_override,
    }
}

pub fn resolved_swap_order_v1_activation_height(network: NetworkKind, env_override: Option<u64>) -> (r: Option<u64>)
    ensures
        r == resolve(network, Some(23_850u64), env_override),
{
    match network {
        NetworkKind::Mainnet => mainnet_swap_order_v1_activation_height(),
        NetworkKind::Testnet | NetworkKind::Devnet => env_override,
    }
}

pub fn resolved_btc_swap_bech32_payment_activation_height(network: NetworkKind, env_override: Option<u64>) -> (r: Option<u64>)
    ensures
        r == resolve(network, None, env_override),
{
    match network {
        NetworkKind::Mainnet => mainnet_btc_swap_bech32_payment_activation_height(),
        NetworkKind::Testnet | NetworkKind::Devnet => env_override,
    }
}

pub fn resolved_coinbase_header_batch_activation_height(network: NetworkKind, env_override: Option<u64>) -> (r: Option<u64>)
    ensures
        r == resolve(network, Some(24_800u64), env_override),
{
    match network {
        NetworkKind::Mainnet => mainnet_coinbase_header_batch_activation_height(),
        NetworkKind::Devnet | NetworkKind::Testnet => env_override,
    }
}

pub fn resolved_mpsov1_activation_height(network: NetworkKind, env_override: Option<u64>) -> (r: Option<u64>)
    ensures
        r == resolve(network, Some(20_000u64), env_override),
{
    match network {
        NetworkKind::Mainnet => mainnet_mpsov1_activation_height(),
        NetworkKind::Testnet | NetworkKind::Devnet => env_override,
    }
}

/// Mainnet ignores every environment override: whatever the override, each
/// resolver answers with the compiled mainnet height.
pub proof fn lemma_mainnet_resolution_ignores_override(mainnet: Option<u64>, a: Option<u64>, b: Option<u64>)
    ensures
        resolve(NetworkKind::Mainnet, mainnet, a) == resolve(NetworkKind::Mainnet, mainnet, b),
{
}

/// A routed gate, over all networks, activations and heights: on mainnet it
/// is on exactly from height 50,000, whatever the activation says; elsewhere
/// exactly from the supplied activation height, and never without one; and
/// once on, it stays on at every later height.
pub proof fn lemma_routed_gate_meaning(network_id: u8, activation: Option<u64>, h1: u64, h2: u64)
    ensures
        network_id == 0 ==> routed_gate(network_id, activation, h1) == (h1 >= 50_000),
        network_id != 0 ==> routed_gate(network_id, activation, h1) == (activation matches Some(a)
            && h1 >= a),
        h1 <= h2 && routed_gate(network_id, activation, h1) ==> routed_gate(network_id, activation, h2),
{
}

/// On mainnet the effective activation does not depend on the environment.
pub proof fn lemma_effective_activation_ignores_env_on_mainnet(a: Option<u64>, b: Option<u64>)
    ensures
        effective_activation(0, a) == effective_activation(0, b),
        effective_activation(0, a) == Some(50_000u64),
{
}

} // verus!
