use irium_poawx::poawx_sim::{
    build_miners, pkh_for, reorg_below_finalized_rejected, reward_gini_x1000, scenario_salt,
    sim_network_allowed, top1_raw_share_permille, top1_reward_share_permille,
    top_group_raw_share_permille, top_group_reward_share_permille, Miner, Prng, SimConfig,
};
use irium_poawx::poawx_fairness::{all_measures, MeasureId, Mutation, SplitMix64};
use irium_poawx::poawx_doublesign::{double_sign_penalty_active, double_sign_penalty_gate};
use irium_poawx::activation::NodeEnv;

#[test]
fn mainnet_network_id_is_refused_in_model() {
    assert_ne!(SimConfig::default().network_id, 0);
    let mut cfg = SimConfig::default();
    assert!(sim_network_allowed(&cfg));
    cfg.network_id = 0;
    assert!(!sim_network_allowed(&cfg));
}

#[test]
fn splitmix_known_values() {
    let mut g = SplitMix64(0);
    assert_eq!(g.next_u64(), 0xe220_a839_7b1d_cdaf);
    assert_eq!(g.next_u64(), 0x6e78_9e6a_a1b9_65f4);
    let mut p = Prng::new(0x9E37_79B9_7F4A_7C15);
    assert_eq!(p.next_u64(), 0xe220_a839_7b1d_cdaf);
    let mut q = Prng::new(5);
    assert_eq!(q.below(0), 0);
    let before = q.0;
    let x = q.below(10);
    assert!(x < 10);
    assert_ne!(q.0, before);
}

#[test]
fn finality_rule_rejects_only_reorgs_below_it() {
    assert!(reorg_below_finalized_rejected(10, 9));
    assert!(!reorg_below_finalized_rejected(10, 10));
    assert!(!reorg_below_finalized_rejected(0, 0));
}

fn miner(id: u32, work: u64, reward: u64) -> Miner {
    Miner { id, pkh: [id as u8; 20], base_work: work, attacker: false, group: id, recent: vec![], total_reward: reward }
}

#[test]
fn miner_reward_window() {
    let mut m = miner(1, 100, 0);
    m.record(10, 5, 4);
    m.record(12, 7, 4);
    m.record(15, 1, 4);
    assert_eq!(m.total_reward, 13);
    assert_eq!(m.recent, vec![(12, 7), (15, 1)]);
    assert_eq!(m.recent_total(15, 4), 8);
    assert_eq!(m.recent_total(16, 4), 1);
    m.total_reward = u64::MAX;
    m.record(15, 1, 4);
    assert_eq!(m.total_reward, u64::MAX);
}

#[test]
fn concentration_shares() {
    let ms = vec![miner(0, 300, 10), miner(1, 100, 30), miner(2, 600, 60)];
    assert_eq!(top1_raw_share_permille(&ms), 600);
    assert_eq!(top1_reward_share_permille(&ms), 600);
    let none = vec![miner(0, 0, 0)];
    assert_eq!(top1_raw_share_permille(&none), 0);
    let big = vec![miner(0, u64::MAX, 1), miner(1, u64::MAX, 1)];
    assert_eq!(top1_raw_share_permille(&big), 500);
}

#[test]
fn fairness_measures_and_mutations() {
    let names: Vec<&str> = all_measures().into_iter().map(|m| m.name()).collect();
    assert_eq!(names[0], "M1 per-key KS");
    assert_eq!(names.len(), 7);
    assert_eq!(MeasureId::M10CascadeOccupancy.name(), "M10 cascade");
    let mu = Mutation::default();
    assert!(!mu.ks && !mu.threshold);
}

#[test]
fn double_sign_penalty_is_off_on_mainnet() {
    assert!(!double_sign_penalty_gate(0, Some(1), 100));
    assert!(double_sign_penalty_gate(1, Some(1), 100));
    assert!(!double_sign_penalty_gate(1, None, 100));
    assert!(!double_sign_penalty_gate(1, Some(200), 100));
    let mut env = NodeEnv::unset(2);
    env.double_sign_penalty_activation_height = Some(3);
    assert!(double_sign_penalty_active(&env, 3));
    env.network_id = 0;
    assert!(!double_sign_penalty_active(&env, 3));
}

fn miner_with(id: u32, base_work: u64, total_reward: u64, group: u32) -> Miner {
    Miner { id, pkh: [0u8; 20], base_work, attacker: false, group, recent: Vec::new(), total_reward }
}

#[test]
fn sim_miner_identities_and_salts() {
    assert_eq!(pkh_for(0).to_vec(), hex::decode("4547b7a0de6aa88e7aec37e59d2fde10b1e0e756").unwrap());
    assert_eq!(pkh_for(7).to_vec(), hex::decode("ca4f268162d9ac1e2958c63055ccbdea296ed4d1").unwrap());
    assert_ne!(pkh_for(0), pkh_for(1));
    assert_eq!(scenario_salt("normal"), 14190577451613652931);
    assert_eq!(scenario_salt("dominant_pool"), 10459072214791389956);
}

#[test]
fn sim_builds_miners_deterministically() {
    let cfg = SimConfig::default();
    let mut prng = Prng::new(1);
    let miners = build_miners(&cfg, &mut prng, 12, false);
    let works: Vec<u64> = miners.iter().map(|m| m.base_work).collect();
    assert_eq!(works, vec![240, 89, 76, 103, 83, 87, 99, 83, 96, 101, 70, 91]);
    assert_eq!(prng.0, 7681369315911520507);
    assert!(miners[0].attacker && !miners[1].attacker);
    assert_eq!(miners[0].group, 0, "a solo attacker keeps its own group");
    assert_eq!(miners[3].id, 3);
    assert_eq!(miners[3].pkh, pkh_for(3));
    assert!(miners.iter().all(|m| m.recent.is_empty() && m.total_reward == 0));

    let mut pool = cfg.clone();
    pool.attacker_share_permille = 600;
    let mut prng = Prng::new(5);
    let miners = build_miners(&pool, &mut prng, 6, true);
    let works: Vec<u64> = miners.iter().map(|m| m.base_work).collect();
    assert_eq!(works, vec![360, 43, 47, 42, 35, 42]);
    let groups: Vec<u32> = miners.iter().map(|m| m.group).collect();
    assert_eq!(groups, vec![999, 1, 2, 3, 4, 5]);
    assert_eq!(prng.0, 13064056694810536057);
    assert_eq!(top_group_raw_share_permille(&miners), 632);

    let mut honest = cfg.clone();
    honest.attacker_share_permille = 0;
    let mut prng = Prng::new(5);
    let miners = build_miners(&honest, &mut prng, 3, true);
    let works: Vec<u64> = miners.iter().map(|m| m.base_work).collect();
    assert_eq!(works, vec![91, 98, 89]);
    assert!(miners.iter().all(|m| !m.attacker));
    assert_eq!(prng.0, 8709371129873690703);
}

#[test]
fn sim_reward_gini_and_group_shares() {
    let rewards = |v: &[u64]| -> Vec<Miner> {
        v.iter().enumerate().map(|(i, r)| miner_with(i as u32, 1, *r, i as u32)).collect()
    };
    assert_eq!(reward_gini_x1000(&rewards(&[0, 0, 10])), 666);
    assert_eq!(reward_gini_x1000(&rewards(&[5, 5, 5])), 0);
    assert_eq!(reward_gini_x1000(&rewards(&[1, 2, 3, 4])), 250);
    assert_eq!(reward_gini_x1000(&rewards(&[])), 0);
    assert_eq!(reward_gini_x1000(&rewards(&[0, 0])), 0);

    let grouped = vec![
        miner_with(0, 10, 100, 1),
        miner_with(1, 20, 1, 2),
        miner_with(2, 30, 1, 1),
        miner_with(3, 40, 0, 3),
    ];
    assert_eq!(top_group_raw_share_permille(&grouped), 400);
    assert_eq!(top1_raw_share_permille(&grouped), 400);
    assert_eq!(top_group_reward_share_permille(&grouped), 990);
    assert_eq!(top_group_reward_share_permille(&rewards(&[0, 0])), 0);
}
