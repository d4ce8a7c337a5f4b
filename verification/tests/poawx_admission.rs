use irium_poawx::activation::NodeEnv;
use irium_poawx::poawx_admission::{
    admission_flood_cooldown_secs, admission_rate_max, admission_rate_settings,
    admission_rate_step, admission_rate_window_secs, candidate_admission_active,
    candidate_admission_enforced, candidate_admission_enforced_gate, candidate_admission_gate,
    candidate_admission_gossip_enabled, candidate_admission_required, candidate_admission_window,
    enrollment_transport_decision, mainnet_mandatory_inclusion_record_activation_height,
    mandatory_inclusion_enforce_active, mandatory_inclusion_record_active,
    remote_enrollment_enabled, AdmissionRate, AdmissionRateLimiter, EnrollmentTransport,
    RateClass, RateSettings, DEFAULT_CANDIDATE_ADMISSION_WINDOW, NANOS_PER_SEC,
};

#[test]
fn enrollment_transport_decision_matrix() {
    assert_eq!(enrollment_transport_decision(true, false, false), EnrollmentTransport::Admit);
    assert_eq!(enrollment_transport_decision(true, true, true), EnrollmentTransport::Admit);
    assert_eq!(enrollment_transport_decision(false, false, true), EnrollmentTransport::Forbidden);
    assert_eq!(enrollment_transport_decision(false, false, false), EnrollmentTransport::Forbidden);
    assert_eq!(enrollment_transport_decision(false, true, true), EnrollmentTransport::Admit);
    assert_eq!(enrollment_transport_decision(false, true, false), EnrollmentTransport::RateLimited);
}

#[test]
fn gate_logic_pure_and_mainnet_off() {
    assert!(!candidate_admission_gate(0, Some(1), 100));
    assert!(candidate_admission_gate(1, Some(1), 100));
    assert!(!candidate_admission_gate(1, None, 100));
    assert!(candidate_admission_enforced_gate(1, Some(1), true, 100));
    assert!(!candidate_admission_enforced_gate(1, Some(1), false, 100));
    assert!(!candidate_admission_enforced_gate(0, Some(1), true, 100));
}

#[test]
fn admission_settings_come_from_the_node_env() {
    let mut env = NodeEnv::unset(2);
    assert_eq!(candidate_admission_window(&env), DEFAULT_CANDIDATE_ADMISSION_WINDOW);
    env.candidate_admission_window = Some(0);
    assert_eq!(candidate_admission_window(&env), DEFAULT_CANDIDATE_ADMISSION_WINDOW);
    env.candidate_admission_window = Some(9);
    assert_eq!(candidate_admission_window(&env), 9);
    assert!(!candidate_admission_required(&env));
    assert!(candidate_admission_required(&NodeEnv::unset(0)));
    assert!(!candidate_admission_gossip_enabled(&env));
    assert!(candidate_admission_gossip_enabled(&NodeEnv::unset(0)));
    env.candidate_admission_activation_height = Some(10);
    assert!(candidate_admission_active(&env, 10));
    assert!(!candidate_admission_enforced(&env, 10));
    env.candidate_admission_required = true;
    assert!(candidate_admission_enforced(&env, 10));
    assert!(!remote_enrollment_enabled(&env));
    env.remote_enrollment = true;
    assert!(remote_enrollment_enabled(&env));
}

#[test]
fn mandatory_inclusion_is_disarmed_on_mainnet_and_recorded_from_the_lead_window() {
    let main = NodeEnv::unset(0);
    assert!(!mandatory_inclusion_enforce_active(&main, u64::MAX));
    assert_eq!(mainnet_mandatory_inclusion_record_activation_height(), Some(62_172));
    assert!(!mandatory_inclusion_record_active(&main, 62_171));
    assert!(mandatory_inclusion_record_active(&main, 62_172));
    let mut dev = NodeEnv::unset(2);
    assert!(!mandatory_inclusion_enforce_active(&dev, 100));
    dev.mandatory_inclusion_enforce_height = Some(100);
    dev.mandatory_inclusion_record_height = Some(36);
    assert!(mandatory_inclusion_enforce_active(&dev, 100));
    assert!(!mandatory_inclusion_enforce_active(&dev, 99));
    assert!(mandatory_inclusion_record_active(&dev, 36));
}

#[test]
fn rate_settings_clamp() {
    let mut env = NodeEnv::unset(2);
    assert_eq!(admission_rate_window_secs(&env), 10);
    assert_eq!(admission_rate_max(&env), 50);
    assert_eq!(admission_flood_cooldown_secs(&env), 300);
    env.admission_rate_window_secs = Some(0);
    env.admission_rate_max = Some(1);
    env.admission_cooldown_secs = Some(1_000_000);
    assert_eq!(admission_rate_window_secs(&env), 1);
    assert_eq!(admission_rate_max(&env), 4);
    assert_eq!(admission_flood_cooldown_secs(&env), 86_400);
    env.admission_rate_window_secs = Some(99_999);
    assert_eq!(admission_rate_window_secs(&env), 3600);
    let s = admission_rate_settings(&NodeEnv::unset(2));
    assert_eq!(s, RateSettings { window: 10 * NANOS_PER_SEC, max: 50, cooldown: 300 * NANOS_PER_SEC });
}

fn default_settings() -> RateSettings {
    admission_rate_settings(&NodeEnv::unset(2))
}

#[test]
fn admission_rate_limiter_passes_honest_drops_flood() {
    let s = default_settings();
    let mut lim = AdmissionRateLimiter::new();
    let honest: u128 = 0x0a00_0001;
    let flood: u128 = 0x0a00_0002;
    let now = 1_000;
    for _ in 0..40 {
        assert!(lim.allow(RateClass::Enrollment, honest, now, s), "honest rate must never be blocked");
    }
    let (mut allowed, mut dropped) = (0u32, 0u32);
    for _ in 0..600 {
        if lim.allow(RateClass::Enrollment, flood, now, s) {
            allowed += 1;
        } else {
            dropped += 1;
        }
    }
    assert!(allowed <= 55, "flood capped near window max, allowed={allowed}");
    assert!(dropped >= 540, "flood overwhelmingly dropped, dropped={dropped}");
    assert!(lim.allow(RateClass::Enrollment, honest, now, s), "honest unaffected by a separate flooder");
}

#[test]
fn gossip_flood_does_not_starve_enrollment_from_same_ip() {
    let s = default_settings();
    let mut lim = AdmissionRateLimiter::new();
    let peer: u128 = 0x0a00_0003;
    let now = 5;
    let mut gossip_dropped = 0u32;
    for _ in 0..600 {
        if !lim.allow(RateClass::Gossip, peer, now, s) {
            gossip_dropped += 1;
        }
    }
    assert!(gossip_dropped >= 540);
    for i in 0..40 {
        assert!(lim.allow(RateClass::Enrollment, peer, now, s), "enrollment call {i} starved");
    }
    let mut enroll_dropped = 0u32;
    for _ in 0..600 {
        if !lim.allow(RateClass::Enrollment, peer, now, s) {
            enroll_dropped += 1;
        }
    }
    assert!(enroll_dropped >= 540);
}

#[test]
fn flood_enters_cooldown_and_recovers_after_it() {
    let s = RateSettings { window: 10, max: 4, cooldown: 100 };
    let mut r = AdmissionRate { window_start: 0, count: 0, strikes: 0, cooldown_until: None };
    let mut outcomes = Vec::new();
    for _ in 0..7 {
        let (next, ok) = admission_rate_step(r, 0, s);
        outcomes.push(ok);
        r = next;
    }
    assert_eq!(outcomes, vec![true, true, true, true, false, false, false]);
    assert_eq!(r.strikes, 3);
    assert_eq!(r.cooldown_until, Some(100));
    let (same, ok) = admission_rate_step(r, 50, s);
    assert!(!ok);
    assert_eq!(same, r);
    let (fresh, ok) = admission_rate_step(r, 100, s);
    assert!(ok);
    assert_eq!(fresh, AdmissionRate { window_start: 100, count: 1, strikes: 0, cooldown_until: None });
}

#[test]
fn a_new_window_resets_the_count_and_forgives_a_clean_window() {
    let s = RateSettings { window: 10, max: 4, cooldown: 0 };
    let r = AdmissionRate { window_start: 0, count: 3, strikes: 2, cooldown_until: None };
    let (next, ok) = admission_rate_step(r, 10, s);
    assert!(ok);
    assert_eq!(next, AdmissionRate { window_start: 10, count: 1, strikes: 0, cooldown_until: None });
    let r2 = AdmissionRate { window_start: 0, count: 9, strikes: 7, cooldown_until: None };
    let (next2, _) = admission_rate_step(r2, 10, s);
    assert_eq!(next2.strikes, 7);
    let mut lim = AdmissionRateLimiter::new();
    assert!(lim.state(RateClass::Gossip, 1).is_none());
    lim.allow(RateClass::Gossip, 1, 0, s);
    assert_eq!(lim.state(RateClass::Gossip, 1).unwrap().count, 1);
    assert_eq!(lim.len(), 1);
    lim.clear();
    assert_eq!(lim.len(), 0);
}

#[test]
fn limiter_allows_exactly_the_window_budget_to_a_flood() {
    let window = 10 * NANOS_PER_SEC;
    for cooldown in [0, window, 300 * NANOS_PER_SEC] {
        let s = RateSettings { window, max: 7, cooldown };
        let mut lim = AdmissionRateLimiter::new();
        let start = 2_000u64;
        let mut allowed = 0u32;
        for i in 0..500u64 {
            let now = start + i * (window / 500);
            if lim.allow(RateClass::Gossip, 77, now, s) {
                allowed += 1;
            }
        }
        assert_eq!(allowed, 7, "cooldown {cooldown}");
        assert!(lim.allow(RateClass::Gossip, 78, start + window - 1, s));
    }
}
