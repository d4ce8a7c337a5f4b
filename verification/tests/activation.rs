use irium_poawx::activation::{
    mainnet_auxpow_activation_height, mainnet_block_time_v2_activation_height,
    mainnet_btc_spv_relay_activation_height, mainnet_btc_swap_bech32_payment_activation_height,
    mainnet_htlc_btc_swap_v1_activation_height, mainnet_htlc_ltc_swap_v1_activation_height,
    mainnet_ltc_spv_relay_activation_height, mainnet_ltc_swap_order_v1_activation_height,
    mainnet_lwma_v2_activation_height, mainnet_swap_order_v1_activation_height,
    network_id_byte, network_kind_from_env, poawx_effective_activation,
    resolve_standard_header_activation, resolved_auxpow_activation_height,
    resolved_block_time_v2_activation_height, resolved_btc_spv_relay_activation_height,
    resolved_btc_swap_bech32_payment_activation_height, resolved_htlc_btc_swap_v1_activation_height,
    resolved_htlc_ltc_swap_v1_activation_height, resolved_ltc_spv_relay_activation_height,
    resolved_ltc_swap_order_v1_activation_height, resolved_lwma_v2_activation_height,
    resolved_swap_order_v1_activation_height, NetworkKind, MAINNET_LTC_ANCHOR_BITS,
    MAINNET_LTC_ANCHOR_HASH_DISPLAY, MAINNET_LTC_ANCHOR_HEIGHT, MAINNET_LTC_ANCHOR_TIME,
    STANDARD_HEADER_ACTIVATION_HEIGHT, mainnet_poawx_activation_height,
};

#[test]
fn standard_header_resolver_mainnet_ignores_override() {
    assert_eq!(
        resolve_standard_header_activation(NetworkKind::Mainnet, Some(5)),
        STANDARD_HEADER_ACTIVATION_HEIGHT
    );
    assert_eq!(
        resolve_standard_header_activation(NetworkKind::Mainnet, None),
        STANDARD_HEADER_ACTIVATION_HEIGHT
    );
}

#[test]
fn standard_header_resolver_non_mainnet_default_one_or_override() {
    assert_eq!(resolve_standard_header_activation(NetworkKind::Devnet, None), 1);
    assert_eq!(resolve_standard_header_activation(NetworkKind::Testnet, None), 1);
    assert_eq!(resolve_standard_header_activation(NetworkKind::Devnet, Some(123)), 123);
    assert_eq!(resolve_standard_header_activation(NetworkKind::Testnet, Some(7)), 7);
}

#[test]
fn mainnet_lwma_v2_activation_height_is_set() {
    assert_eq!(mainnet_lwma_v2_activation_height(), Some(19_740));
    assert_eq!(resolved_lwma_v2_activation_height(NetworkKind::Mainnet, None), Some(19_740));
}

#[test]
fn mainnet_auxpow_activation_height_is_24800() {
    assert_eq!(mainnet_auxpow_activation_height(), Some(24_800));
    assert_eq!(resolved_auxpow_activation_height(NetworkKind::Mainnet, None), Some(24_800));
}

#[test]
fn mainnet_block_time_v2_activation_height_is_24250() {
    assert_eq!(mainnet_block_time_v2_activation_height(), Some(24_250));
    assert_eq!(resolved_block_time_v2_activation_height(NetworkKind::Mainnet, None), Some(24_250));
}

#[test]
fn mainnet_btc_spv_relay_height_is_23850() {
    assert_eq!(mainnet_btc_spv_relay_activation_height(), Some(23_850));
    assert_eq!(resolved_btc_spv_relay_activation_height(NetworkKind::Mainnet, None), Some(23_850));
}

#[test]
fn mainnet_htlc_btc_swap_v1_height_is_23850() {
    assert_eq!(mainnet_htlc_btc_swap_v1_activation_height(), Some(23_850));
    assert_eq!(resolved_htlc_btc_swap_v1_activation_height(NetworkKind::Mainnet, None), Some(23_850));
}

#[test]
fn mainnet_swap_order_v1_height_is_23850() {
    assert_eq!(mainnet_swap_order_v1_activation_height(), Some(23_850));
    assert_eq!(resolved_swap_order_v1_activation_height(NetworkKind::Mainnet, None), Some(23_850));
}

#[test]
fn mainnet_ltc_spv_height_activated_at_24800() {
    assert_eq!(mainnet_ltc_spv_relay_activation_height(), Some(24_800));
    assert_eq!(resolved_ltc_spv_relay_activation_height(NetworkKind::Mainnet, None), Some(24_800));
}

#[test]
fn mainnet_ltc_anchor_constants_have_expected_values() {
    assert_eq!(MAINNET_LTC_ANCHOR_HEIGHT, 3_106_656);
    assert_eq!(MAINNET_LTC_ANCHOR_BITS, 0x1929_b619);
    assert_eq!(MAINNET_LTC_ANCHOR_TIME, 1_778_676_649);
    assert_eq!(MAINNET_LTC_ANCHOR_HASH_DISPLAY[0], 0x8a);
    assert_eq!(MAINNET_LTC_ANCHOR_HASH_DISPLAY[31], 0x64);
}

#[test]
fn mainnet_htlc_ltc_swap_v1_height_activated_at_24800() {
    assert_eq!(mainnet_htlc_ltc_swap_v1_activation_height(), Some(24_800));
    assert_eq!(resolved_htlc_ltc_swap_v1_activation_height(NetworkKind::Mainnet, None), Some(24_800));
}

#[test]
fn mainnet_ltc_swap_order_v1_height_activated_at_24800() {
    assert_eq!(mainnet_ltc_swap_order_v1_activation_height(), Some(24_800));
    assert_eq!(resolved_ltc_swap_order_v1_activation_height(NetworkKind::Mainnet, None), Some(24_800));
}

#[test]
fn mainnet_btc_swap_bech32_payment_is_none_pending_governance() {
    assert!(mainnet_btc_swap_bech32_payment_activation_height().is_none());
    assert!(resolved_btc_swap_bech32_payment_activation_height(NetworkKind::Mainnet, None).is_none());
}

#[test]
fn mainnet_ignores_env_overrides_non_mainnet_uses_them() {
    assert_eq!(resolved_auxpow_activation_height(NetworkKind::Mainnet, Some(99_999)), Some(24_800));
    assert_eq!(resolved_auxpow_activation_height(NetworkKind::Devnet, Some(1000)), Some(1000));
    assert_eq!(resolved_auxpow_activation_height(NetworkKind::Testnet, Some(1000)), Some(1000));
    assert_eq!(resolved_btc_spv_relay_activation_height(NetworkKind::Mainnet, Some(12_345)), Some(23_850));
    assert_eq!(resolved_ltc_swap_order_v1_activation_height(NetworkKind::Devnet, Some(222)), Some(222));
    assert_eq!(resolved_btc_swap_bech32_payment_activation_height(NetworkKind::Mainnet, Some(12_345)), None);
    assert_eq!(resolved_btc_swap_bech32_payment_activation_height(NetworkKind::Testnet, Some(55)), Some(55));
}

#[test]
fn network_kind_parses_env_values() {
    assert_eq!(network_kind_from_env(None), NetworkKind::Mainnet);
    assert_eq!(network_kind_from_env(Some(" Devnet ")), NetworkKind::Devnet);
    assert_eq!(network_kind_from_env(Some("TESTNET")), NetworkKind::Testnet);
    assert_eq!(network_id_byte(Some("devnet")), 2);
    assert_eq!(network_id_byte(Some("testnet")), 1);
    assert_eq!(network_id_byte(None), 0);
}

#[test]
fn effective_activation_ignores_env_on_mainnet() {
    assert_eq!(mainnet_poawx_activation_height(), Some(50_000));
    for env in [None, Some(1u64), Some(u64::MAX)] {
        assert_eq!(poawx_effective_activation(0, env), Some(50_000));
    }
    assert_eq!(poawx_effective_activation(2, Some(7)), Some(7));
    assert_eq!(poawx_effective_activation(2, None), None);
}

#[test]
fn every_routed_gate_is_on_at_a_live_mainnet_height() {
    let h = 60_000;
    assert!(irium_poawx::poawx_adaptive::adaptive_mode_gate(0, None, h));
    assert!(irium_poawx::poawx_proposer::proposer_vrf_gate(0, None, h));
    assert!(irium_poawx::poawx_proposer::fork_choice_hardening_gate(0, None, h));
    assert!(irium_poawx::poawx_admission::candidate_admission_gate(0, None, h));
}

#[test]
fn mainnet_activation_boundary_is_exact() {
    // The anti-domination, puzzle-work and finality-committee gates belong to
    // modules this crate does not hold; in their place the boundary is
    // checked on `routed_gate_on` itself and on two routed gates the crate
    // does hold.
    assert!(!irium_poawx::activation::routed_gate_on(0, None, 49_999));
    assert!(irium_poawx::activation::routed_gate_on(0, None, 50_000));
    assert!(!irium_poawx::poawx_proposer::proposer_vrf_gate(0, None, 49_999));
    assert!(irium_poawx::poawx_proposer::proposer_vrf_gate(0, None, 50_000));
    assert!(!irium_poawx::poawx_adaptive::adaptive_mode_gate(0, None, 49_999));
    assert!(irium_poawx::poawx_adaptive::adaptive_mode_gate(0, None, 50_000));
}
