use irium_poawx::activation::NodeEnv;
use irium_poawx::poawx_activation_schedule::{
    in_warmup, in_warmup_at, mainnet_activation_disabled, mainnet_poawx_activation_height, poawx_activation_height,
    poawx_supported_at, poawx_warmup_window, ticket_enforced, ticket_enforced_at,
    ticket_enforcement_height, DEFAULT_POAWX_WARMUP_WINDOW,
};

#[test]
fn c1_mainnet_activation_disabled_by_default() {
    assert!(mainnet_poawx_activation_height().is_none());
    assert!(mainnet_activation_disabled());
    assert_eq!(poawx_activation_height(0, Some(1)), None);
    assert!(!poawx_supported_at(0, Some(1), 1_000_000));
    assert!(!in_warmup_at(0, Some(1), 100, 1));
    assert!(!ticket_enforced_at(0, Some(1), 100, 1_000_000));
}

#[test]
fn c1_enforcement_height_is_a_plus_w_plus_one() {
    assert_eq!(ticket_enforcement_height(1000, 100), 1101);
    assert_eq!(ticket_enforcement_height(1, 0), 2);
}

#[test]
fn c1_phase_boundaries_pure() {
    let net = 1u8;
    let a = Some(1000u64);
    let w = 100u64;
    assert!(!poawx_supported_at(net, a, 999));
    assert!(!in_warmup_at(net, a, w, 999));
    assert!(!ticket_enforced_at(net, a, w, 999));
    assert!(poawx_supported_at(net, a, 1000));
    assert!(in_warmup_at(net, a, w, 1000));
    assert!(!ticket_enforced_at(net, a, w, 1000));
    assert!(in_warmup_at(net, a, w, 1100));
    assert!(!ticket_enforced_at(net, a, w, 1100));
    assert!(poawx_supported_at(net, a, 1101));
    assert!(!in_warmup_at(net, a, w, 1101));
    assert!(ticket_enforced_at(net, a, w, 1101));
    assert!(ticket_enforced_at(net, a, w, 5000));
}

#[test]
fn c1_no_activation_means_nothing_on() {
    let net = 1u8;
    assert!(!poawx_supported_at(net, None, 10));
    assert!(!in_warmup_at(net, None, 100, 10));
    assert!(!ticket_enforced_at(net, None, 100, 10));
}

#[test]
fn c1_zero_warmup_enforces_immediately_after_activation() {
    let net = 2u8;
    let a = Some(5u64);
    assert!(in_warmup_at(net, a, 0, 5));
    assert!(!ticket_enforced_at(net, a, 0, 5));
    assert!(ticket_enforced_at(net, a, 0, 6));
}

#[test]
fn schedule_reads_its_settings_from_the_node_env() {
    let mut env = NodeEnv::unset(1);
    env.schedule_activation_height = Some(1000);
    assert_eq!(poawx_warmup_window(None), DEFAULT_POAWX_WARMUP_WINDOW);
    assert!(in_warmup(&env, 1000));
    env.schedule_warmup_window = Some(0);
    assert!(!in_warmup(&env, 1001));
    assert!(ticket_enforced(&env, 1001));
    assert_eq!(ticket_enforcement_height(u64::MAX, 5), u64::MAX);
}
