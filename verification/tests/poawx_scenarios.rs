use irium_poawx::poawx_adaptive::AdaptiveMode;
use irium_poawx::poawx_scenarios::{
    scenario_checks, scenario_plan, MiningOutcome, ScenarioEvidence, ScenarioPlan, ScenarioReport,
};
use irium_poawx::poawx_sim::{Miner, SimConfig};

fn m(id: u32, work: u64, reward: u64, group: u32) -> Miner {
    Miner { id, pkh: [id as u8; 20], base_work: work, attacker: false, group, recent: vec![], total_reward: reward }
}

fn outcome(halted: bool, raw: u32, rew: u32, gini: u64, mode: AdaptiveMode, counts: [u64; 5]) -> MiningOutcome {
    MiningOutcome {
        blocks_produced: if halted { 0 } else { 64 },
        halted,
        top1_raw_share_permille: raw,
        top1_reward_share_permille: rew,
        gini,
        final_mode: mode,
        puzzle_mode_counts: counts,
    }
}

fn ev(run: Option<MiningOutcome>) -> ScenarioEvidence {
    ScenarioEvidence { run, biased_run: None, sybil_cost: None, suspended_weight_permille: 0, suspended_high_trust_eligible: false }
}

fn verdicts(r: &ScenarioReport) -> Vec<(String, bool)> {
    r.checks.iter().map(|c| (c.name.clone(), c.passed)).collect()
}

#[test]
fn scenario_plans_follow_each_scenario() {
    let cfg = SimConfig::default();
    let full = (cfg.epochs * cfg.blocks_per_epoch) as u64;
    assert_eq!(
        scenario_plan("normal", &cfg),
        Some(ScenarioPlan { attacker_share_permille: 200, miners: 12, blocks: full, coordinated: false, biased_rerun: false })
    );
    assert_eq!(
        scenario_plan("low_participation", &cfg),
        Some(ScenarioPlan { attacker_share_permille: 0, miners: 2, blocks: 16, coordinated: false, biased_rerun: false })
    );
    assert_eq!(scenario_plan("dominant_miner", &cfg).unwrap().attacker_share_permille, 700);
    assert!(scenario_plan("dominant_pool", &cfg).unwrap().coordinated);
    let mut small = cfg.clone();
    small.miners = 2;
    small.attacker_share_permille = 0;
    small.blocks_per_epoch = 4;
    assert_eq!(
        scenario_plan("reorg", &small),
        Some(ScenarioPlan { attacker_share_permille: 1, miners: 6, blocks: 16, coordinated: true, biased_rerun: false })
    );
    assert_eq!(scenario_plan("low_participation", &small).unwrap().blocks, 8);
    assert!(scenario_plan("randomness_manipulation", &cfg).unwrap().biased_rerun);
    assert_eq!(scenario_plan("sybil", &cfg), None);
    assert_eq!(scenario_plan("finality_attack", &cfg), None);
    assert_eq!(scenario_plan("nope", &cfg), None);
}

#[test]
fn normal_and_low_participation_verdicts() {
    let cfg = SimConfig::default();
    let ok = outcome(false, 300, 400, 100, AdaptiveMode::Normal, [10; 5]);
    let r = scenario_checks("normal", &cfg, &ev(Some(ok)), &vec![]);
    assert_eq!(r.scenario, "normal");
    assert!(r.passed);
    assert_eq!(
        verdicts(&r),
        vec![("chain_does_not_halt".to_string(), true), ("reward_concentration_bounded".to_string(), true)]
    );
    let heavy = outcome(false, 300, 501, 100, AdaptiveMode::Normal, [10; 5]);
    let r = scenario_checks("normal", &cfg, &ev(Some(heavy)), &vec![]);
    assert!(!r.passed);
    assert!(!r.checks[1].passed);
    let r = scenario_checks("normal", &cfg, &ev(None), &vec![]);
    assert_eq!(verdicts(&r).iter().filter(|c| c.1).count(), 0, "no run, nothing holds");

    let caution = outcome(false, 0, 0, 0, AdaptiveMode::Caution, [0; 5]);
    assert!(scenario_checks("low_participation", &cfg, &ev(Some(caution)), &vec![]).passed);
    let defense = outcome(false, 0, 0, 0, AdaptiveMode::Defense, [0; 5]);
    let r = scenario_checks("low_participation", &cfg, &ev(Some(defense)), &vec![]);
    assert_eq!(verdicts(&r)[1], ("adaptive_enters_caution".to_string(), false));
}

#[test]
fn domination_verdicts_read_the_miners() {
    let cfg = SimConfig::default();
    let reduced = outcome(false, 700, 550, 0, AdaptiveMode::Normal, [0; 5]);
    let miners = vec![m(0, 700, 5, 0), m(1, 300, 9, 1)];
    let r = scenario_checks("dominant_miner", &cfg, &ev(Some(reduced)), &miners);
    assert!(r.passed);
    let broke = vec![m(0, 700, 0, 0), m(1, 300, 9, 1)];
    let r = scenario_checks("dominant_miner", &cfg, &ev(Some(reduced)), &broke);
    assert_eq!(verdicts(&r)[1], ("strong_miner_not_banned".to_string(), false));
    // group 9 holds 600 permille of the work and 571 of the rewards
    let pool = vec![m(0, 300, 20, 9), m(1, 300, 20, 9), m(2, 400, 30, 2)];
    assert!(scenario_checks("dominant_pool", &cfg, &ev(None), &pool).passed);
    let pool = vec![m(0, 300, 40, 9), m(1, 300, 40, 9), m(2, 400, 20, 2)];
    assert!(!scenario_checks("dominant_pool", &cfg, &ev(None), &pool).passed);
}

#[test]
fn sybil_reorg_randomness_and_reward_verdicts() {
    let mut cfg = SimConfig::default();
    let mut e = ev(None);
    assert!(!scenario_checks("sybil", &cfg, &e, &vec![]).passed);
    e.sybil_cost = Some((70_000, true));
    assert!(scenario_checks("sybil", &cfg, &e, &vec![]).passed);
    e.sybil_cost = Some((1, false));
    assert_eq!(
        verdicts(&scenario_checks("sybil", &cfg, &e, &vec![])),
        vec![("sybil_has_nonzero_cost".to_string(), false), ("sybil_grind_succeeds_within_cap".to_string(), false)]
    );
    cfg.sybil_bits = 0;
    assert!(scenario_checks("sybil", &cfg, &e, &vec![]).passed);

    let cfg = SimConfig::default();
    let strong = outcome(false, 0, 700, 0, AdaptiveMode::Normal, [0; 5]);
    assert!(scenario_checks("reorg", &cfg, &ev(Some(strong)), &vec![]).passed, "a 20% attacker is below majority");
    let mut big = cfg.clone();
    big.attacker_share_permille = 600;
    let r = scenario_checks("reorg", &big, &ev(Some(strong)), &vec![]);
    assert_eq!(
        verdicts(&r),
        vec![("attacker_below_majority".to_string(), false), ("deep_reorg_below_finalized_rejected".to_string(), true)]
    );

    let blocks = 64;
    let mut e = ev(Some(outcome(false, 0, 0, 0, AdaptiveMode::Normal, [blocks, 0, 0, 0, 0])));
    assert!(!scenario_checks("randomness_manipulation", &cfg, &e, &vec![]).passed, "the biased run is missing");
    e.biased_run = Some(outcome(false, 0, 0, 0, AdaptiveMode::Normal, [20, 20, 20, 4, 0]));
    assert!(scenario_checks("randomness_manipulation", &cfg, &e, &vec![]).passed);
    e.biased_run = Some(outcome(false, 0, 0, 0, AdaptiveMode::Normal, [blocks + 1, 0, 0, 0, 0]));
    assert!(!scenario_checks("randomness_manipulation", &cfg, &e, &vec![]).passed);

    let run = ev(Some(outcome(false, 0, 0, 900, AdaptiveMode::Normal, [0; 5])));
    let two = vec![m(0, 1, 5, 0), m(1, 1, 0, 1), m(2, 1, 7, 2)];
    assert!(scenario_checks("reward_distribution", &cfg, &run, &two).passed);
    let one = vec![m(0, 1, 5, 0), m(1, 1, 0, 1)];
    assert_eq!(verdicts(&scenario_checks("reward_distribution", &cfg, &run, &one))[0].1, false);
    let unequal = ev(Some(outcome(false, 0, 0, 901, AdaptiveMode::Normal, [0; 5])));
    assert_eq!(verdicts(&scenario_checks("reward_distribution", &cfg, &unequal, &two))[1].1, false);
}

#[test]
fn finality_fresh_wipe_and_unknown_verdicts() {
    let mut cfg = SimConfig::default();
    let r = scenario_checks("finality_attack", &cfg, &ev(None), &vec![]);
    assert!(r.passed);
    assert_eq!(r.checks.len(), 6);
    assert_eq!(r.checks[3].name, "double_sign_penalty_removes_finality_weight");
    cfg.attacker_share_permille = 667;
    let r = scenario_checks("finality_attack", &cfg, &ev(None), &vec![]);
    assert_eq!(verdicts(&r)[0], ("attacker_cannot_forge_finality".to_string(), false));
    let mut weighted = ev(None);
    weighted.suspended_weight_permille = 500;
    let r = scenario_checks("finality_attack", &SimConfig::default(), &weighted, &vec![]);
    assert!(!r.checks[3].passed && !r.checks[5].passed && !r.passed);

    let r = scenario_checks("fresh_wipe", &cfg, &ev(None), &vec![]);
    assert!(r.passed);
    assert_eq!(verdicts(&r), vec![("fresh_wipe_covered_by_phase26e".to_string(), true)]);
    let r = scenario_checks("no_such", &cfg, &ev(None), &vec![]);
    assert!(!r.passed);
    assert_eq!(r.scenario, "no_such");
    assert_eq!(verdicts(&r), vec![("unknown_scenario".to_string(), false)]);
}
