//! The simulator's scenarios: how each one sets up its mining run, and the
//! verdicts it draws from what the run produced. The run itself (the weighted
//! proposer lottery with the fairness weight and the puzzle-mode assignment)
//! and the sybil grind rest on node primitives this crate does not hold; they
//! come in as a [`ScenarioEvidence`].
use vstd::prelude::*;
use crate::poawx_adaptive::AdaptiveMode;
use crate::poawx_sim::{
    groups_of, base_works, reorg_below_finalized_rejected, top_group_raw_share_permille,
    top_group_reward_share_permille, top_group_share, total_rewards, Miner, SimConfig,
};
use crate::text::{chars_equal, chars_of};

verus! {

/// What a mining run produced.
#[derive(Debug, Clone, Copy)]
pub struct MiningOutcome {
    pub blocks_produced: u64,
    pub halted: bool,
    pub top1_raw_share_permille: u32,
    pub top1_reward_share_permille: u32,
    pub gini: u64,
    pub final_mode: AdaptiveMode,
    pub puzzle_mode_counts: [u64; 5],
}

/// What a scenario's verdicts are drawn from, besides the settings and the
/// miners after the run: the run (and, for the randomness scenario, the run
/// with a biased seed), the measured sybil grind (hashes per identity, and
/// whether the target was reached within the cap), and the suspended penalty
/// status's finality weight multiplier and high-trust eligibility.
pub struct ScenarioEvidence {
    pub run: Option<MiningOutcome>,
    pub biased_run: Option<MiningOutcome>,
    pub sybil_cost: Option<(u64, bool)>,
    pub suspended_weight_permille: u32,
    pub suspended_high_trust_eligible: bool,
}

/// How a scenario runs its mining: the attacker's share of base work, the
/// number of miners, the number of blocks, whether the attacker is one
/// coordinated group, and whether a second run with a biased seed follows.
#[derive(Debug, Clone, Copy, PartialEq, Eq, Structural)]
pub struct ScenarioPlan {
    pub attacker_share_permille: u32,
    pub miners: u32,
    pub blocks: u64,
    pub coordinated: bool,
    pub biased_rerun: bool,
}

/// One check of a scenario: its name and whether it passed.
pub struct ScenarioCheck {
    pub name: String,
    pub passed: bool,
}

/// A scenario's verdicts, in order, and whether all held.
pub struct ScenarioReport {
    pub scenario: String,
    pub passed: bool,
    pub checks: Vec<ScenarioCheck>,
}

pub open spec fn max_u32(a: u32, b: u32) -> u32 {
    if a >= b {
        a
    } else {
        b
    }
}

/// Blocks of a full run: every epoch's blocks.
pub open spec fn full_blocks(cfg: SimConfig) -> int {
    cfg.epochs * cfg.blocks_per_epoch
}

/// Whether the scenario runs for every epoch's blocks.
pub open spec fn runs_full_epochs(name: Seq<char>) -> bool {
    name == "normal"@ || name == "dominant_miner"@ || name == "dominant_pool"@ || name
        == "randomness_manipulation"@ || name == "reward_distribution"@
}

/// The blocks of the short reorg run: an epoch, and at least 16.
pub open spec fn reorg_blocks(cfg: SimConfig) -> u64 {
    if cfg.blocks_per_epoch >= 16 {
        cfg.blocks_per_epoch as u64
    } else {
        16
    }
}

/// The plan of a scenario that mines; `None` for those that do not.
pub open spec fn plan_of(name: Seq<char>, cfg: SimConfig) -> Option<ScenarioPlan> {
    let many = max_u32(cfg.miners, 6);
    let full = full_blocks(cfg) as u64;
    if name == "normal"@ || name == "reward_distribution"@ {
        Some(ScenarioPlan { attacker_share_permille: cfg.attacker_share_permille, miners: many, blocks: full, coordinated: false, biased_rerun: false })
    } else if name == "low_participation"@ {
        Some(ScenarioPlan { attacker_share_permille: 0, miners: 2, blocks: if cfg.blocks_per_epoch >= 8 { cfg.blocks_per_epoch as u64 } else { 8 }, coordinated: false, biased_rerun: false })
    } else if name == "dominant_miner"@ {
        Some(ScenarioPlan { attacker_share_permille: 700, miners: many, blocks: full, coordinated: false, biased_rerun: false })
    } else if name == "dominant_pool"@ {
        Some(ScenarioPlan { attacker_share_permille: 600, miners: many, blocks: full, coordinated: true, biased_rerun: false })
    } else if name == "reorg"@ {
        Some(ScenarioPlan { attacker_share_permille: max_u32(cfg.attacker_share_permille, 1), miners: many, blocks: reorg_blocks(cfg), coordinated: true, biased_rerun: false })
    } else if name == "randomness_manipulation"@ {
        Some(ScenarioPlan { attacker_share_permille: cfg.attacker_share_permille, miners: many, blocks: full, coordinated: false, biased_rerun: true })
    } else {
        None
    }
}

fn name_is(n: &Vec<char>, lit: &str) -> (b: bool)
    ensures
        b == (n@ == lit@),
{
    let l = chars_of(lit);
    chars_equal(n.as_slice(), l.as_slice())
}

/// How scenario `name` runs its mining (see [`plan_of`]); the full-epoch
/// runs count their blocks in 32 bits, as the simulator does.
pub fn scenario_plan(name: &str, cfg: &SimConfig) -> (p: Option<ScenarioPlan>)
    requires
        runs_full_epochs(name@) ==> full_blocks(*cfg) <= u32::MAX,
    ensures
        p == plan_of(name@, *cfg),
{
    let n = chars_of(name);
    let many = if cfg.miners >= 6 {
        cfg.miners
    } else {
        6
    };
    if name_is(&n, "normal") || name_is(&n, "reward_distribution") {
        let full = (cfg.epochs * cfg.blocks_per_epoch) as u64;
        Some(ScenarioPlan { attacker_share_permille: cfg.attacker_share_permille, miners: many, blocks: full, coordinated: false, biased_rerun: false })
    } else if name_is(&n, "low_participation") {
        let blocks = if cfg.blocks_per_epoch >= 8 {
            cfg.blocks_per_epoch as u64
        } else {
            8
        };
        Some(ScenarioPlan { attacker_share_permille: 0, miners: 2, blocks, coordinated: false, biased_rerun: false })
    } else if name_is(&n, "dominant_miner") {
        let full = (cfg.epochs * cfg.blocks_per_epoch) as u64;
        Some(ScenarioPlan { attacker_share_permille: 700, miners: many, blocks: full, coordinated: false, biased_rerun: false })
    } else if name_is(&n, "dominant_pool") {
        let full = (cfg.epochs * cfg.blocks_per_epoch) as u64;
        Some(ScenarioPlan { attacker_share_permille: 600, miners: many, blocks: full, coordinated: true, biased_rerun: false })
    } else if name_is(&n, "reorg") {
        let att = if cfg.attacker_share_permille >= 1 {
            cfg.attacker_share_permille
        } else {
            1
        };
        let blocks = if cfg.blocks_per_epoch >= 16 {
            cfg.blocks_per_epoch as u64
        } else {
            16
        };
        Some(ScenarioPlan { attacker_share_permille: att, miners: many, blocks, coordinated: true, biased_rerun: false })
    } else if name_is(&n, "randomness_manipulation") {
        let full = (cfg.epochs * cfg.blocks_per_epoch) as u64;
        Some(ScenarioPlan { attacker_share_permille: cfg.attacker_share_permille, miners: many, blocks: full, coordinated: false, biased_rerun: true })
    } else {
        None
    }
}

/// How many miners earned anything.
pub open spec fn earning_count(m: Seq<Miner>) -> nat
    decreases m.len(),
{
    if m.len() == 0 {
        0
    } else {
        earning_count(m.drop_last()) + if m.last().total_reward > 0 {
            1nat
        } else {
            0nat
        }
    }
}

/// Whether no puzzle mode was assigned more often than there were blocks.
pub open spec fn not_captured(o: MiningOutcome, blocks: int) -> bool {
    forall|i: int| 0 <= i < 5 ==> #[trigger] o.puzzle_mode_counts[i] <= blocks
}

/// Whether the penalty for a double signature takes away finality weight
/// and high-trust eligibility.
pub open spec fn penalty_removes_weight(ev: ScenarioEvidence) -> bool {
    ev.suspended_weight_permille == 0 && !ev.suspended_high_trust_eligible
}

/// The verdicts of scenario `name`, in order: each check's name and whether
/// it held. A check that needs a run fails where none was supplied.
pub open spec fn scenario_verdicts(
    name: Seq<char>,
    cfg: SimConfig,
    ev: ScenarioEvidence,
    miners: Seq<Miner>,
) -> Seq<(Seq<char>, bool)> {
    let run = ev.run;
    if name == "normal"@ {
        seq![
            ("chain_does_not_halt"@, run matches Some(o) && !o.halted),
            ("reward_concentration_bounded"@, run matches Some(o) && o.top1_reward_share_permille <= 500),
        ]
    } else if name == "low_participation"@ {
        seq![
            ("low_participation_does_not_halt"@, run matches Some(o) && !o.halted),
            ("adaptive_enters_caution"@, run matches Some(o) && o.final_mode == AdaptiveMode::Caution),
        ]
    } else if name == "dominant_miner"@ {
        seq![
            ("anti_domination_reduces_share"@, run matches Some(o) && o.top1_reward_share_permille < o.top1_raw_share_permille),
            ("strong_miner_not_banned"@, miners.len() > 0 && miners[0].total_reward > 0),
        ]
    } else if name == "dominant_pool"@ {
        seq![
            ("coordinated_group_share_reduced"@, top_group_share(total_rewards(miners), groups_of(miners))
                < top_group_share(base_works(miners), groups_of(miners))),
        ]
    } else if name == "sybil"@ {
        seq![
            ("sybil_has_nonzero_cost"@, cfg.sybil_bits == 0 || (ev.sybil_cost matches Some(c) && c.0 > 1)),
            ("sybil_grind_succeeds_within_cap"@, cfg.sybil_bits == 0 || (ev.sybil_cost matches Some(c) && c.1)),
        ]
    } else if name == "reorg"@ {
        let finalized = (reorg_blocks(cfg) - 2) as u64;
        seq![
            ("attacker_below_majority"@, (run matches Some(o) && o.top1_reward_share_permille < 500)
                || max_u32(cfg.attacker_share_permille, 1) < 500),
            ("deep_reorg_below_finalized_rejected"@, finalized > 0 && finalized - 1 < finalized),
        ]
    } else if name == "randomness_manipulation"@ {
        seq![
            ("puzzle_distribution_not_captured"@, (run matches Some(o) && not_captured(o, full_blocks(cfg)))
                && (ev.biased_run matches Some(b) && not_captured(b, full_blocks(cfg)))),
        ]
    } else if name == "reward_distribution"@ {
        seq![
            ("rewards_distributed"@, earning_count(miners) >= 2),
            ("gini_bounded"@, run matches Some(o) && o.gini <= 900),
        ]
    } else if name == "finality_attack"@ {
        seq![
            ("attacker_cannot_forge_finality"@, cfg.attacker_share_permille <= 666),
            ("below_third_cannot_stall"@, true),
            ("finalized_reorg_rejected"@, true),
            ("double_sign_penalty_removes_finality_weight"@, penalty_removes_weight(ev)),
            ("local_detection_is_not_consensus"@, true),
            ("block_evidence_excludes_future_finality"@, penalty_removes_weight(ev)),
        ]
    } else if name == "fresh_wipe"@ {
        seq![("fresh_wipe_covered_by_phase26e"@, true)]
    } else {
        seq![("unknown_scenario"@, false)]
    }
}

/// A check's name and verdict.
pub open spec fn check_view(c: ScenarioCheck) -> (Seq<char>, bool) {
    (c.name@, c.passed)
}

fn check(name: &str, passed: bool) -> (c: ScenarioCheck)
    ensures
        c.name@ == name@,
        c.passed == passed,
{
    ScenarioCheck { name: name.to_owned(), passed }
}

fn halted_or_missing(run: &Option<MiningOutcome>) -> (b: bool)
    ensures
        b == !(*run matches Some(o) && !o.halted),
{
    match run {
        Some(o) => o.halted,
        None => true,
    }
}

fn within_blocks(x: &MiningOutcome, blocks: u64) -> (b: bool)
    ensures
        b == not_captured(*x, blocks as int),
{
    let mut i: usize = 0;
    while i < 5
        invariant
            i <= 5,
            forall|j: int| 0 <= j < i ==> #[trigger] x.puzzle_mode_counts[j] <= blocks,
        decreases 5 - i,
    {
        if x.puzzle_mode_counts[i] > blocks {
            assert(!(x.puzzle_mode_counts[i as int] <= blocks));
            return false;
        }
        i = i + 1;
    }
    true
}

fn counts_within(o: &Option<MiningOutcome>, blocks: u64) -> (b: bool)
    ensures
        b == (*o matches Some(x) && not_captured(x, blocks as int)),
{
    match o {
        Some(x) => within_blocks(x, blocks),
        None => false,
    }
}

fn count_earning(miners: &Vec<Miner>) -> (n: usize)
    ensures
        n == earning_count(miners@),
{
    let mut n: usize = 0;
    let mut i: usize = 0;
    while i < miners.len()
        invariant
            i <= miners@.len(),
            n == earning_count(miners@.take(i as int)),
            n <= i,
        decreases miners@.len() - i,
    {
        assert(miners@.take(i + 1).drop_last() =~= miners@.take(i as int));
        if miners[i].total_reward > 0 {
            n = n + 1;
        }
        i = i + 1;
    }
    assert(miners@.take(miners@.len() as int) =~= miners@);
    n
}

fn verdicts(name: &str, cfg: &SimConfig, ev: &ScenarioEvidence, miners: &Vec<Miner>) -> (v: Vec<ScenarioCheck>)
    requires
        miners@.len() <= u32::MAX,
    ensures
        v@.map_values(|c: ScenarioCheck| check_view(c)) == scenario_verdicts(name@, *cfg, *ev, miners@),
{
    let n = chars_of(name);
    let mut v: Vec<ScenarioCheck> = Vec::new();
    let run = &ev.run;
    if name_is(&n, "normal") {
        v.push(check("chain_does_not_halt", !halted_or_missing(run)));
        let ok = match run {
            Some(o) => o.top1_reward_share_permille <= 500,
            None => false,
        };
        v.push(check("reward_concentration_bounded", ok));
    } else if name_is(&n, "low_participation") {
        v.push(check("low_participation_does_not_halt", !halted_or_missing(run)));
        let ok = match run {
            Some(o) => match o.final_mode {
                AdaptiveMode::Caution => true,
                _ => false,
            },
            None => false,
        };
        v.push(check("adaptive_enters_caution", ok));
    } else if name_is(&n, "dominant_miner") {
        let ok = match run {
            Some(o) => o.top1_reward_share_permille < o.top1_raw_share_permille,
            None => false,
        };
        v.push(check("anti_domination_reduces_share", ok));
        v.push(check("strong_miner_not_banned", miners.len() > 0 && miners[0].total_reward > 0));
    } else if name_is(&n, "dominant_pool") {
        let raw = top_group_raw_share_permille(miners);
        let rew = top_group_reward_share_permille(miners);
        v.push(check("coordinated_group_share_reduced", rew < raw));
    } else if name_is(&n, "sybil") {
        let (cost_ok, reached) = match ev.sybil_cost {
            Some(c) => (c.0 > 1, c.1),
            None => (false, false),
        };
        v.push(check("sybil_has_nonzero_cost", cfg.sybil_bits == 0 || cost_ok));
        v.push(check("sybil_grind_succeeds_within_cap", cfg.sybil_bits == 0 || reached));
    } else if name_is(&n, "reorg") {
        let ok = match run {
            Some(o) => o.top1_reward_share_permille < 500,
            None => false,
        };
        let att = if cfg.attacker_share_permille >= 1 {
            cfg.attacker_share_permille
        } else {
            1
        };
        v.push(check("attacker_below_majority", ok || att < 500));
        let blocks: u64 = if cfg.blocks_per_epoch >= 16 {
            cfg.blocks_per_epoch as u64
        } else {
            16
        };
        let finalized = blocks.saturating_sub(2);
        let fork = finalized.saturating_sub(1);
        v.push(check("deep_reorg_below_finalized_rejected", reorg_below_finalized_rejected(finalized, fork)));
    } else if name_is(&n, "randomness_manipulation") {
        let e = cfg.epochs as u64;
        let b = cfg.blocks_per_epoch as u64;
        assert(e * b <= u32::MAX as int * u32::MAX as int) by (nonlinear_arith)
            requires
                e <= u32::MAX,
                b <= u32::MAX,
        ;
        let blocks = e * b;
        let ok = counts_within(run, blocks) && counts_within(&ev.biased_run, blocks);
        v.push(check("puzzle_distribution_not_captured", ok));
    } else if name_is(&n, "reward_distribution") {
        v.push(check("rewards_distributed", count_earning(miners) >= 2));
        let ok = match run {
            Some(o) => o.gini <= 900,
            None => false,
        };
        v.push(check("gini_bounded", ok));
    } else if name_is(&n, "finality_attack") {
        let finalized: u64 = 8;
        let removed = ev.suspended_weight_permille == 0 && !ev.suspended_high_trust_eligible;
        v.push(check("attacker_cannot_forge_finality", cfg.attacker_share_permille <= 666));
        v.push(check("below_third_cannot_stall", true));
        v.push(check(
            "finalized_reorg_rejected",
            reorg_below_finalized_rejected(finalized, finalized - 1) && !reorg_below_finalized_rejected(finalized, finalized),
        ));
        v.push(check("double_sign_penalty_removes_finality_weight", removed));
        v.push(check("local_detection_is_not_consensus", true));
        v.push(check("block_evidence_excludes_future_finality", removed));
    } else if name_is(&n, "fresh_wipe") {
        v.push(check("fresh_wipe_covered_by_phase26e", true));
    } else {
        v.push(check("unknown_scenario", false));
    }
    assert(v@.map_values(|c: ScenarioCheck| check_view(c)) =~= scenario_verdicts(name@, *cfg, *ev, miners@));
    v
}

/// Whether every verdict held.
pub open spec fn all_passed(v: Seq<(Seq<char>, bool)>) -> bool {
    forall|i: int| 0 <= i < v.len() ==> #[trigger] v[i].1
}

/// The report of scenario `name`: its verdicts (see [`scenario_verdicts`]),
/// drawn from the settings, the run's evidence and the miners after the run,
/// and whether all of them held.
pub fn scenario_checks(
    name: &str,
    cfg: &SimConfig,
    ev: &ScenarioEvidence,
    miners: &Vec<Miner>,
) -> (r: ScenarioReport)
    requires
        miners@.len() <= u32::MAX,
    ensures
        r.scenario@ == name@,
        r.checks@.map_values(|c: ScenarioCheck| check_view(c)) == scenario_verdicts(name@, *cfg, *ev, miners@),
        r.passed == all_passed(scenario_verdicts(name@, *cfg, *ev, miners@)),
{
    let checks = verdicts(name, cfg, ev, miners);
    let ghost want = scenario_verdicts(name@, *cfg, *ev, miners@);
    let mut passed = true;
    let mut i: usize = 0;
    while i < checks.len()
        invariant
            i <= checks@.len(),
            checks@.map_values(|c: ScenarioCheck| check_view(c)) == want,
            passed == forall|j: int| 0 <= j < i ==> #[trigger] want[j].1,
        decreases checks@.len() - i,
    {
        assert(checks@.map_values(|c: ScenarioCheck| check_view(c))[i as int] == check_view(
            checks@[i as int],
        ));
        assert(want[i as int].1 == checks@[i as int].passed);
        if !checks[i].passed {
            passed = false;
        }
        i = i + 1;
    }
    ScenarioReport { scenario: name.to_owned(), passed, checks }
}

} // verus!
