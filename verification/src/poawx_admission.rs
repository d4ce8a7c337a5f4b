//! Candidate admission: its activation gates, the transport decision for
//! remote enrollment, the mandatory-inclusion phase gates, and the per-source
//! flood limiter that budgets peer gossip and the enrollment surface
//! separately. The registration codec and the mandatory set itself live in
//! `candidacy`.
use vstd::prelude::*;
pub use crate::candidacy::{
    canonical_eligible_set, decode_rcr1_script, encode_rcr1_script, enforce_mandatory_inclusion,
    MandatorySet, RoleCandidacyRegistration, RCR1_MAGIC,
};
use crate::activation::{
    NodeEnv, routed_gate, routed_gate_on, effective_activation, poawx_effective_activation, reached,
    is_reached, mainnet_fair_distribution_activation_height,
};

verus! {

/// Default admission window (heights ahead of the tip a candidate may be
/// admitted for).
pub const DEFAULT_CANDIDATE_ADMISSION_WINDOW: u64 = 64;

/// The admission window: the configured value where it is at least 1, else
/// the default.
pub fn candidate_admission_window(env: &NodeEnv) -> (w: u64)
    ensures
        w == match env.candidate_admission_window {
            Some(v) if v >= 1 => v,
            _ => DEFAULT_CANDIDATE_ADMISSION_WINDOW,
        },
{
    match env.candidate_admission_window {
        Some(v) if v >= 1 => v,
        _ => DEFAULT_CANDIDATE_ADMISSION_WINDOW,
    }
}

/// Whether admissions are required once admission is active: always on mainnet,
/// by `IRIUM_POAWX_CANDIDATE_ADMISSION_REQUIRED=1` elsewhere.
pub fn candidate_admission_required(env: &NodeEnv) -> (b: bool)
    ensures
        b == (env.network_id == 0 || env.candidate_admission_required),
{
    if env.network_id == 0 {
        return true;
    }
    env.candidate_admission_required
}

/// The admission gate: the mainnet activation height on mainnet, the
/// configured one elsewhere.
pub fn candidate_admission_gate(network_id: u8, activation: Option<u64>, height: u64) -> (b: bool)
    ensures
        b == routed_gate(network_id, activation, height),
{
    routed_gate_on(network_id, activation, height)
}

/// Admission active, and admissions required.
pub fn candidate_admission_enforced_gate(
    network_id: u8,
    activation: Option<u64>,
    required: bool,
    height: u64,
) -> (b: bool)
    ensures
        b == (routed_gate(network_id, activation, height) && required),
{
    candidate_admission_gate(network_id, activation, height) && required
}

pub fn candidate_admission_active(env: &NodeEnv, height: u64) -> (b: bool)
    ensures
        b == routed_gate(env.network_id, env.candidate_admission_activation_height, height),
{
    candidate_admission_gate(env.network_id, env.candidate_admission_activation_height, height)
}

pub fn candidate_admission_enforced(env: &NodeEnv, height: u64) -> (b: bool)
    ensures
        b == (routed_gate(env.network_id, env.candidate_admission_activation_height, height) && (
        env.network_id == 0 || env.candidate_admission_required)),
{
    candidate_admission_enforced_gate(
        env.network_id,
        env.candidate_admission_activation_height,
        candidate_admission_required(env),
        height,
    )
}

/// Whether this node ingests and gossips admissions: an activation height is
/// in effect (always on mainnet).
pub fn candidate_admission_gossip_enabled(env: &NodeEnv) -> (b: bool)
    ensures
        b == effective_activation(env.network_id, env.candidate_admission_activation_height) is Some,
{
    poawx_effective_activation(env.network_id, env.candidate_admission_activation_height).is_some()
}

/// Whether the operator opted in to enrollment from non-loopback sources
/// (`IRIUM_POAWX_REMOTE_ENROLLMENT=1`, on every network).
pub fn remote_enrollment_enabled(env: &NodeEnv) -> (b: bool)
    ensures
        b == env.remote_enrollment,
{
    env.remote_enrollment
}

/// Transport-admission outcome for a remote enrollment submission.
#[derive(Debug, Clone, Copy, PartialEq, Eq, Structural)]
pub enum EnrollmentTransport {
    Admit,
    Forbidden,
    RateLimited,
}

/// Loopback is always admitted; another caller only when the operator opted
/// in, and then only under the per-source rate limit.
pub fn enrollment_transport_decision(is_loopback: bool, opted_in: bool, under_rate: bool) -> (d:
    EnrollmentTransport)
    ensures
        d == if is_loopback {
            EnrollmentTransport::Admit
        } else if !opted_in {
            EnrollmentTransport::Forbidden
        } else if !under_rate {
            EnrollmentTransport::RateLimited
        } else {
            EnrollmentTransport::Admit
        },
{
    if is_loopback {
        return EnrollmentTransport::Admit;
    }
    if !opted_in {
        return EnrollmentTransport::Forbidden;
    }
    if !under_rate {
        return EnrollmentTransport::RateLimited;
    }
    EnrollmentTransport::Admit
}

// ── Mandatory inclusion ─────────────────────────────────────────────────────

/// Registrations recorded in `[H - L, H - D]` are eligible at `H`: `L`.
pub const MANDATORY_LEAD_WINDOW: u64 = 64;
/// `D`: a registration must be on-chain by `H - D`.
pub const MANDATORY_SETTLE_DEPTH: u64 = 3;
/// `N`: the top candidates by fee kept per role.
pub const MANDATORY_CAP_PER_ROLE: usize = 16;
/// The burned sybil floor of a registration.
pub const MANDATORY_FEE_BURN_MIN: u64 = 5_000_000;

/// Mainnet height at which mandatory inclusion is enforced: none (disarmed).
pub fn mainnet_mandatory_inclusion_activation_height() -> (r: Option<u64>)
    ensures
        r == None::<u64>,
{
    None
}

/// Mainnet height at which registrations start to be recorded: the lead
/// window before the fair-distribution activation.
pub fn mainnet_mandatory_inclusion_record_activation_height() -> (r: Option<u64>)
    ensures
        r == Some(62_172u64),
{
    match mainnet_fair_distribution_activation_height() {
        Some(e) => Some(e.saturating_sub(MANDATORY_LEAD_WINDOW)),
        None => None,
    }
}

/// Whether mandatory inclusion is enforced at `height`: never on mainnet (no
/// height), from `IRIUM_POAWX_MANDATORY_INCLUSION_ENFORCE_HEIGHT` elsewhere.
pub fn mandatory_inclusion_enforce_active(env: &NodeEnv, height: u64) -> (b: bool)
    ensures
        b == if env.network_id == 0 {
            false
        } else {
            reached(env.mandatory_inclusion_enforce_height, height)
        },
{
    if env.network_id == 0 {
        return is_reached(mainnet_mandatory_inclusion_activation_height(), height);
    }
    is_reached(env.mandatory_inclusion_enforce_height, height)
}

/// Whether registrations are recorded at `height`: from the mainnet record
/// height on mainnet, from `IRIUM_POAWX_MANDATORY_INCLUSION_RECORD_HEIGHT`
/// elsewhere.
pub fn mandatory_inclusion_record_active(env: &NodeEnv, height: u64) -> (b: bool)
    ensures
        b == if env.network_id == 0 {
            height >= 62_172
        } else {
            reached(env.mandatory_inclusion_record_height, height)
        },
{
    if env.network_id == 0 {
        return is_reached(mainnet_mandatory_inclusion_record_activation_height(), height);
    }
    is_reached(env.mandatory_inclusion_record_height, height)
}

// ── Per-source flood limiter ────────────────────────────────────────────────

/// `v` clamped to `[lo, hi]`.
pub open spec fn clamp(v: int, lo: int, hi: int) -> int {
    if v < lo {
        lo
    } else if v > hi {
        hi
    } else {
        v
    }
}

/// The limiter window in seconds: configured or 10, clamped to `[1, 3600]`.
pub fn admission_rate_window_secs(env: &NodeEnv) -> (w: u64)
    ensures
        w == clamp(
            match env.admission_rate_window_secs {
                Some(v) => v as int,
                None => 10,
            },
            1,
            3600,
        ),
{
    let v = match env.admission_rate_window_secs {
        Some(v) => v,
        None => 10,
    };
    if v < 1 {
        1
    } else if v > 3600 {
        3600
    } else {
        v
    }
}

/// The most requests a source may make per window: configured or 50, clamped
/// to `[4, 1 000 000]`.
pub fn admission_rate_max(env: &NodeEnv) -> (m: u32)
    ensures
        m == clamp(
            match env.admission_rate_max {
                Some(v) => v as int,
                None => 50,
            },
            4,
            1_000_000,
        ),
{
    let v = match env.admission_rate_max {
        Some(v) => v,
        None => 50,
    };
    if v < 4 {
        4
    } else if v > 1_000_000 {
        1_000_000
    } else {
        v
    }
}

/// The drop-cooldown after a sustained flood, in seconds: configured or 300,
/// clamped to `[0, 86 400]`.
pub fn admission_flood_cooldown_secs(env: &NodeEnv) -> (c: u64)
    ensures
        c == clamp(
            match env.admission_cooldown_secs {
                Some(v) => v as int,
                None => 300,
            },
            0,
            86_400,
        ),
{
    let v = match env.admission_cooldown_secs {
        Some(v) => v,
        None => 300,
    };
    if v > 86_400 {
        86_400
    } else {
        v
    }
}

/// Which traffic class a rate check belongs to; the two never share a budget.
#[derive(Debug, Clone, Copy, PartialEq, Eq, Hash, Structural)]
pub enum RateClass {
    /// Peer gossip ingest: candidate admissions, proposer registrations.
    Gossip,
    /// The HTTP enrollment surface.
    Enrollment,
}

/// One source's limiter state, times in nanoseconds of a monotonic clock.
#[derive(Debug, Clone, Copy, PartialEq, Eq, Structural)]
pub struct AdmissionRate {
    pub window_start: u64,
    pub count: u32,
    pub strikes: u32,
    pub cooldown_until: Option<u64>,
}

/// The limiter's settings, durations in nanoseconds.
#[derive(Debug, Clone, Copy, PartialEq, Eq, Structural)]
pub struct RateSettings {
    pub window: u64,
    pub max: u32,
    pub cooldown: u64,
}

pub const NANOS_PER_SEC: u64 = 1_000_000_000;

/// The settings from the node's environment.
pub fn admission_rate_settings(env: &NodeEnv) -> (s: RateSettings)
    ensures
        s.window == admission_rate_window_secs_spec(*env) * NANOS_PER_SEC,
        s.max == admission_rate_max_spec(*env),
        s.cooldown == admission_flood_cooldown_secs_spec(*env) * NANOS_PER_SEC,
{
    let w = admission_rate_window_secs(env);
    let m = admission_rate_max(env);
    let c = admission_flood_cooldown_secs(env);
    RateSettings { window: w * NANOS_PER_SEC, max: m, cooldown: c * NANOS_PER_SEC }
}

pub open spec fn admission_rate_window_secs_spec(env: NodeEnv) -> int {
    clamp(
        match env.admission_rate_window_secs {
            Some(v) => v as int,
            None => 10,
        },
        1,
        3600,
    )
}

pub open spec fn admission_rate_max_spec(env: NodeEnv) -> int {
    clamp(
        match env.admission_rate_max {
            Some(v) => v as int,
            None => 50,
        },
        4,
        1_000_000,
    )
}

pub open spec fn admission_flood_cooldown_secs_spec(env: NodeEnv) -> int {
    clamp(
        match env.admission_cooldown_secs {
            Some(v) => v as int,
            None => 300,
        },
        0,
        86_400,
    )
}

/// A fresh state first seen at `now`.
pub open spec fn fresh_rate(now: u64) -> AdmissionRate {
    AdmissionRate { window_start: now, count: 0, strikes: 0, cooldown_until: None }
}

/// `now - since`, zero where the clock reads earlier.
pub open spec fn elapsed(now: u64, since: u64) -> int {
    if now >= since {
        now - since
    } else {
        0
    }
}

/// One request at `now`: dropped while a cooldown runs; a cooldown that ran
/// out resets the state; a window that ran out starts a new one, forgiving
/// the strikes of a window that stayed under the limit; then the request is
/// counted, and allowed while the count stays within `max`. Each request over
/// the limit is a strike, and the third strike starts the cooldown (when it
/// is non-zero).
pub open spec fn rate_step(r: AdmissionRate, now: u64, s: RateSettings) -> (AdmissionRate, bool) {
    if r.cooldown_until matches Some(u) && u > now {
        (r, false)
    } else {
        let r1 = if r.cooldown_until is Some {
            fresh_rate(now)
        } else {
            r
        };
        let r2 = if elapsed(now, r1.window_start) >= s.window {
            AdmissionRate {
                window_start: now,
                count: 0,
                strikes: if r1.count <= s.max { 0 } else { r1.strikes },
                cooldown_until: None,
            }
        } else {
            r1
        };
        let count = if r2.count == u32::MAX { u32::MAX } else { (r2.count + 1) as u32 };
        if count > s.max {
            let strikes = if r2.strikes == u32::MAX { u32::MAX } else { (r2.strikes + 1) as u32 };
            let cd = if strikes >= 3 && s.cooldown > 0 {
                Some(if now as int + s.cooldown as int > u64::MAX { u64::MAX } else { (now
                    + s.cooldown) as u64 })
            } else {
                r2.cooldown_until
            };
            (AdmissionRate { count, strikes, cooldown_until: cd, ..r2 }, false)
        } else {
            (AdmissionRate { count, ..r2 }, true)
        }
    }
}

/// Applies one request to a source's state (see [`rate_step`]).
pub fn admission_rate_step(r: AdmissionRate, now: u64, s: RateSettings) -> (out: (
    AdmissionRate,
    bool,
))
    ensures
        out == rate_step(r, now, s),
{
    let mut e = r;
    if let Some(until) = e.cooldown_until {
        if until > now {
            return (e, false);
        }
        e = AdmissionRate { window_start: now, count: 0, strikes: 0, cooldown_until: None };
    }
    let since = if now >= e.window_start {
        now - e.window_start
    } else {
        0
    };
    if since >= s.window {
        if e.count <= s.max {
            e.strikes = 0;
        }
        e.window_start = now;
        e.count = 0;
    }
    e.count = e.count.saturating_add(1);
    if e.count > s.max {
        e.strikes = e.strikes.saturating_add(1);
        if e.strikes >= 3 && s.cooldown > 0 {
            e.cooldown_until = Some(now.saturating_add(s.cooldown));
        }
        return (e, false);
    }
    (e, true)
}

/// Within one window a source is allowed at most `max` requests: an allowed
/// request leaves the count within `max`, and a request in the same window
/// raises the count by one.
pub proof fn lemma_allowed_within_budget(r: AdmissionRate, now: u64, s: RateSettings)
    ensures
        rate_step(r, now, s).1 ==> rate_step(r, now, s).0.count <= s.max,
        rate_step(r, now, s).1 ==> rate_step(r, now, s).0.cooldown_until is None,
        (r.cooldown_until is None && elapsed(now, r.window_start) < s.window && r.count < u32::MAX)
            ==> rate_step(r, now, s).0.count == r.count + 1 && rate_step(r, now, s).0.window_start
            == r.window_start,
{
}

/// A source in cooldown is dropped and its state is left as it was.
pub proof fn lemma_cooldown_drops(r: AdmissionRate, now: u64, s: RateSettings)
    requires
        r.cooldown_until matches Some(u) && u > now,
    ensures
        rate_step(r, now, s) == (r, false),
{
}

/// Honest traffic is never dropped: a source under the limit in its window,
/// with no cooldown, is allowed.
pub proof fn lemma_under_limit_allowed(r: AdmissionRate, now: u64, s: RateSettings)
    requires
        r.cooldown_until is None,
        r.count < s.max,
    ensures
        rate_step(r, now, s).1,
{
}

/// The requests at `times`, in order, from state `r`: the state after them
/// and how many were allowed.
pub open spec fn rate_run(r: AdmissionRate, times: Seq<u64>, s: RateSettings) -> (AdmissionRate, nat)
    decreases times.len(),
{
    if times.len() == 0 {
        (r, 0)
    } else {
        let p = rate_run(r, times.drop_last(), s);
        let q = rate_step(p.0, times.last(), s);
        (q.0, p.1 + if q.1 {
            1nat
        } else {
            0nat
        })
    }
}

/// Whether every time of `times` falls in the window that opens at `w0`.
pub open spec fn all_in_window(times: Seq<u64>, w0: u64, s: RateSettings) -> bool {
    forall|i: int|
        0 <= i < times.len() ==> w0 <= #[trigger] times[i] < u64::MAX && times[i] - w0 < s.window
}

/// A state of the window that opened at `w0` whose cooldown, if any, outlasts it.
spec fn held_in_window(r: AdmissionRate, w0: u64, s: RateSettings) -> bool {
    &&& r.window_start == w0
    &&& r.cooldown_until matches Some(u) ==> (u >= w0 + s.window || u == u64::MAX)
}

/// How many more requests the state can still allow in its window.
spec fn budget_left(r: AdmissionRate, s: RateSettings) -> int {
    if r.cooldown_until is Some || r.count >= s.max {
        0
    } else {
        s.max - r.count
    }
}

proof fn lemma_run_in_window(r: AdmissionRate, times: Seq<u64>, s: RateSettings, w0: u64)
    requires
        held_in_window(r, w0, s),
        all_in_window(times, w0, s),
        s.cooldown == 0 || s.cooldown >= s.window,
        s.max < u32::MAX,
    ensures
        held_in_window(rate_run(r, times, s).0, w0, s),
        rate_run(r, times, s).1 + budget_left(rate_run(r, times, s).0, s) <= budget_left(r, s),
    decreases times.len(),
{
    if times.len() > 0 {
        let init = times.drop_last();
        assert forall|i: int| 0 <= i < init.len() implies w0 <= #[trigger] init[i] < u64::MAX && init[i]
            - w0 < s.window by {
            assert(init[i] == times[i]);
        }
        lemma_run_in_window(r, init, s, w0);
        assert(w0 <= times[times.len() - 1]);
    }
}

/// Flood bound: from a state with no cooldown, requests that all fall in
/// its window are allowed at most as often as the window's budget has room
/// left (`max` less the count so far), however many arrive. It holds when
/// the cooldown is off or lasts at least a window, so that no cooldown runs
/// out, and a fresh window opens, inside the window.
pub proof fn lemma_rate_flood_bound(r: AdmissionRate, times: Seq<u64>, s: RateSettings)
    requires
        r.cooldown_until is None,
        all_in_window(times, r.window_start, s),
        s.cooldown == 0 || s.cooldown >= s.window,
        s.max < u32::MAX,
    ensures
        rate_run(r, times, s).1 <= if r.count < s.max {
            s.max - r.count
        } else {
            0
        },
{
    lemma_run_in_window(r, times, s, r.window_start);
}

/// One limiter entry: the class and the source address (an IPv4 address
/// mapped into IPv6, or an IPv6 address, as a number).
#[derive(Debug, Clone, Copy, PartialEq, Eq, Structural)]
pub struct RateEntry {
    pub class: RateClass,
    pub source: u128,
    pub rate: AdmissionRate,
}

/// Entries kept when the table is pruned: those in cooldown or in a window
/// that is still running.
pub open spec fn live_entry(e: RateEntry, now: u64, window: u64) -> bool {
    (e.rate.cooldown_until matches Some(u) && u > now) || elapsed(now, e.rate.window_start) < window
}

/// The live entries, in their order.
pub open spec fn live_entries(v: Seq<RateEntry>, now: u64, window: u64) -> Seq<RateEntry>
    decreases v.len(),
{
    if v.len() == 0 {
        v
    } else {
        let sub = live_entries(v.drop_last(), now, window);
        if live_entry(v.last(), now, window) {
            sub.push(v.last())
        } else {
            sub
        }
    }
}

/// Above this many entries the table is pruned before the next request.
pub const RATE_TABLE_PRUNE_ABOVE: usize = 8192;

/// The per-(class, source) limiter table.
pub struct AdmissionRateLimiter {
    entries: Vec<RateEntry>,
}

/// Whether the entry is for `(class, source)`.
pub open spec fn entry_for(e: RateEntry, class: RateClass, source: u128) -> bool {
    e.class == class && e.source == source
}

/// The state of `(class, source)` in the table (its last entry), or `None`.
pub open spec fn state_of(v: Seq<RateEntry>, class: RateClass, source: u128) -> Option<AdmissionRate>
    decreases v.len(),
{
    if v.len() == 0 {
        None
    } else if entry_for(v.last(), class, source) {
        Some(v.last().rate)
    } else {
        state_of(v.drop_last(), class, source)
    }
}

/// Whether `i` is the last entry for `(class, source)`.
pub open spec fn last_entry_for(v: Seq<RateEntry>, i: int, class: RateClass, source: u128) -> bool {
    &&& 0 <= i < v.len()
    &&& entry_for(v[i], class, source)
    &&& forall|j: int| i < j < v.len() ==> !entry_for(#[trigger] v[j], class, source)
}

proof fn lemma_state_none(v: Seq<RateEntry>, class: RateClass, source: u128)
    requires
        forall|j: int| 0 <= j < v.len() ==> !entry_for(#[trigger] v[j], class, source),
    ensures
        state_of(v, class, source) is None,
    decreases v.len(),
{
    if v.len() > 0 {
        lemma_state_none(v.drop_last(), class, source);
    }
}

proof fn lemma_state_at_last(v: Seq<RateEntry>, i: int, class: RateClass, source: u128)
    requires
        last_entry_for(v, i, class, source),
    ensures
        state_of(v, class, source) == Some(v[i].rate),
    decreases v.len(),
{
    if i < v.len() - 1 {
        lemma_state_at_last(v.drop_last(), i, class, source);
    }
}

proof fn lemma_update_keeps(pre: Seq<RateEntry>, i: int, entry: RateEntry, c: RateClass, src: u128)
    requires
        last_entry_for(pre, i, entry.class, entry.source),
    ensures
        state_of(pre.update(i, entry), c, src) == if entry_for(entry, c, src) {
            Some(entry.rate)
        } else {
            state_of(pre, c, src)
        },
    decreases pre.len(),
{
    let post = pre.update(i, entry);
    if i == pre.len() - 1 {
        assert(post.drop_last() =~= pre.drop_last());
    } else {
        assert(post.drop_last() =~= pre.drop_last().update(i, entry));
        lemma_update_keeps(pre.drop_last(), i, entry, c, src);
    }
}

/// The table that a request at `now` works on: past
/// [`RATE_TABLE_PRUNE_ABOVE`] entries only the live ones, else all of them.
pub open spec fn table_before(v: Seq<RateEntry>, now: u64, s: RateSettings) -> Seq<RateEntry> {
    if v.len() > RATE_TABLE_PRUNE_ABOVE {
        live_entries(v, now, s.window)
    } else {
        v
    }
}

/// The state a request of `(class, source)` at `now` starts from: the
/// source's state in the table it works on, or a fresh one.
pub open spec fn start_state(v: Seq<RateEntry>, class: RateClass, source: u128, now: u64, s: RateSettings) -> AdmissionRate {
    match state_of(table_before(v, now, s), class, source) {
        Some(r) => r,
        None => fresh_rate(now),
    }
}

/// One request of `(class, source)` at `now` takes table `pre` to `post` with
/// answer `ok`: the source's state takes one [`rate_step`], whose answer is
/// `ok`, and every other source keeps its state in the table worked on.
pub open spec fn allow_outcome(
    pre: Seq<RateEntry>,
    class: RateClass,
    source: u128,
    now: u64,
    s: RateSettings,
    post: Seq<RateEntry>,
    ok: bool,
) -> bool {
    let start = start_state(pre, class, source, now, s);
    &&& ok == rate_step(start, now, s).1
    &&& state_of(post, class, source) == Some(rate_step(start, now, s).0)
    &&& forall|c: RateClass, src: u128|
        !(c == class && src == source) ==> #[trigger] state_of(post, c, src) == state_of(
            table_before(pre, now, s),
            c,
            src,
        )
}

proof fn lemma_live_keeps_state(v: Seq<RateEntry>, now: u64, w: u64, c: RateClass, src: u128)
    ensures
        state_of(v, c, src) is None ==> state_of(live_entries(v, now, w), c, src) is None,
        state_of(v, c, src) matches Some(r) ==> ((r.cooldown_until matches Some(u) && u > now)
            || elapsed(now, r.window_start) < w) ==> state_of(live_entries(v, now, w), c, src)
            == Some(r),
    decreases v.len(),
{
    if v.len() > 0 {
        lemma_live_keeps_state(v.drop_last(), now, w, c, src);
        let sub = live_entries(v.drop_last(), now, w);
        if live_entry(v.last(), now, w) {
            assert(sub.push(v.last()).drop_last() =~= sub);
        }
    }
}

/// How many of the answers are `true`.
pub open spec fn allowed_count(oks: Seq<bool>) -> nat
    decreases oks.len(),
{
    if oks.len() == 0 {
        0
    } else {
        allowed_count(oks.drop_last()) + if oks.last() {
            1nat
        } else {
            0nat
        }
    }
}

proof fn lemma_limiter_follows_run(
    views: Seq<Seq<RateEntry>>,
    oks: Seq<bool>,
    times: Seq<u64>,
    class: RateClass,
    source: u128,
    s: RateSettings,
    k: int,
)
    requires
        times.len() > 0,
        views.len() == times.len() + 1,
        oks.len() == times.len(),
        state_of(views[0], class, source) is None,
        forall|i: int|
            0 <= i < times.len() ==> #[trigger] allow_outcome(
                views[i],
                class,
                source,
                times[i],
                s,
                views[i + 1],
                oks[i],
            ),
        all_in_window(times, times[0], s),
        s.cooldown == 0 || s.cooldown >= s.window,
        s.max < u32::MAX,
        1 <= k <= times.len(),
    ensures
        state_of(views[k], class, source) == Some(rate_run(fresh_rate(times[0]), times.take(k), s).0),
        allowed_count(oks.take(k)) == rate_run(fresh_rate(times[0]), times.take(k), s).1,
    decreases k,
{
    let r0 = fresh_rate(times[0]);
    let i = k - 1;
    assert(allow_outcome(views[i], class, source, times[i], s, views[i + 1], oks[i]));
    assert(times.take(k).drop_last() =~= times.take(i));
    assert(oks.take(k).drop_last() =~= oks.take(i));
    assert(times.take(k).last() == times[i]);
    assert(oks.take(k).last() == oks[i]);
    if i == 0 {
        lemma_live_keeps_state(views[0], times[0], s.window, class, source);
        assert(start_state(views[0], class, source, times[0], s) == r0);
        assert(times.take(0) =~= Seq::<u64>::empty());
        assert(oks.take(0) =~= Seq::<bool>::empty());
    } else {
        lemma_limiter_follows_run(views, oks, times, class, source, s, i);
        let run = rate_run(r0, times.take(i), s);
        assert(all_in_window(times.take(i), times[0], s));
        lemma_run_in_window(r0, times.take(i), s, times[0]);
        lemma_live_keeps_state(views[i], times[i], s.window, class, source);
        assert(start_state(views[i], class, source, times[i], s) == run.0);
    }
    assert(allowed_count(oks.take(k)) == allowed_count(oks.take(i)) + if oks[i] {
        1nat
    } else {
        0nat
    });
}

/// Flood bound of the limiter: for one `(class, source)` that had no state,
/// a run of requests whose times all fall in the window opened by the first
/// is allowed at most `max` times, however the table grows and is pruned in
/// between (`views[i]` is the table before request `i`, `oks[i]` its answer).
/// It holds when the cooldown is off or lasts at least a window.
pub proof fn lemma_limiter_flood_bound(
    views: Seq<Seq<RateEntry>>,
    oks: Seq<bool>,
    times: Seq<u64>,
    class: RateClass,
    source: u128,
    s: RateSettings,
)
    requires
        times.len() > 0,
        views.len() == times.len() + 1,
        oks.len() == times.len(),
        state_of(views[0], class, source) is None,
        forall|i: int|
            0 <= i < times.len() ==> #[trigger] allow_outcome(
                views[i],
                class,
                source,
                times[i],
                s,
                views[i + 1],
                oks[i],
            ),
        all_in_window(times, times[0], s),
        s.cooldown == 0 || s.cooldown >= s.window,
        s.max < u32::MAX,
    ensures
        allowed_count(oks) <= s.max,
{
    let n = times.len() as int;
    lemma_limiter_follows_run(views, oks, times, class, source, s, n);
    assert(times.take(n) =~= times);
    assert(oks.take(n) =~= oks);
    lemma_rate_flood_bound(fresh_rate(times[0]), times, s);
}

impl AdmissionRateLimiter {
    pub closed spec fn view(&self) -> Seq<RateEntry> {
        self.entries@
    }

    pub fn new() -> (l: Self)
        ensures
            l.view().len() == 0,
    {
        AdmissionRateLimiter { entries: Vec::new() }
    }

    /// Forgets every source.
    pub fn clear(&mut self)
        ensures
            final(self).view().len() == 0,
    {
        self.entries = Vec::new();
    }

    pub fn len(&self) -> (n: usize)
        ensures
            n == self.view().len(),
    {
        self.entries.len()
    }

    /// The state recorded for `(class, source)`.
    pub fn state(&self, class: RateClass, source: u128) -> (r: Option<AdmissionRate>)
        ensures
            r == state_of(self.view(), class, source),
    {
        match self.find(class, source) {
            Some(i) => {
                proof {
                    lemma_state_at_last(self.entries@, i as int, class, source);
                }
                Some(self.entries[i].rate)
            },
            None => None,
        }
    }

    fn find(&self, class: RateClass, source: u128) -> (r: Option<usize>)
        ensures
            match r {
                Some(i) => last_entry_for(self.entries@, i as int, class, source),
                None => state_of(self.entries@, class, source) is None && forall|j: int|
                    0 <= j < self.entries@.len() ==> !entry_for(#[trigger] self.entries@[j], class, source),
            },
    {
        let mut i: usize = self.entries.len();
        while i > 0
            invariant
                i <= self.entries@.len(),
                forall|j: int|
                    i <= j < self.entries@.len() ==> !entry_for(#[trigger] self.entries@[j], class, source),
            decreases i,
        {
            let e = self.entries[i - 1];
            if e.class == class && e.source == source {
                return Some(i - 1);
            }
            i = i - 1;
        }
        proof {
            lemma_state_none(self.entries@, class, source);
        }
        None
    }

    /// Whether one more request of `class` from `source` is allowed at `now`.
    /// Past [`RATE_TABLE_PRUNE_ABOVE`] entries, the table first keeps only
    /// live entries; then the source's state (fresh where it has none) takes
    /// one [`rate_step`], whose answer is returned. No other source's state
    /// changes.
    pub fn allow(&mut self, class: RateClass, source: u128, now: u64, s: RateSettings) -> (ok: bool)
        ensures
            allow_outcome(old(self).view(), class, source, now, s, final(self).view(), ok),
    {
        let ghost pre_all = self.entries@;
        if self.entries.len() > RATE_TABLE_PRUNE_ABOVE {
            let mut kept: Vec<RateEntry> = Vec::new();
            let mut i: usize = 0;
            assert(pre_all.take(0) =~= Seq::<RateEntry>::empty());
            while i < self.entries.len()
                invariant
                    i <= self.entries@.len(),
                    self.entries@ == pre_all,
                    kept@ == live_entries(pre_all.take(i as int), now, s.window),
                decreases self.entries@.len() - i,
            {
                let e = self.entries[i];
                let live = match e.rate.cooldown_until {
                    Some(u) => u > now,
                    None => false,
                } || (if now >= e.rate.window_start {
                    now - e.rate.window_start
                } else {
                    0
                }) < s.window;
                assert(pre_all.take(i + 1).drop_last() =~= pre_all.take(i as int));
                assert(pre_all.take(i + 1).last() == e);
                if live {
                    kept.push(e);
                }
                i = i + 1;
            }
            assert(pre_all.take(pre_all.len() as int) =~= pre_all);
            self.entries = kept;
        }
        let ghost pre = self.entries@;
        let found = self.find(class, source);
        let start = match found {
            Some(i) => {
                proof {
                    lemma_state_at_last(pre, i as int, class, source);
                }
                self.entries[i].rate
            },
            None => AdmissionRate { window_start: now, count: 0, strikes: 0, cooldown_until: None },
        };
        let (next, ok) = admission_rate_step(start, now, s);
        let entry = RateEntry { class, source, rate: next };
        match found {
            Some(i) => {
                self.entries.set(i, entry);
                proof {
                    assert forall|c: RateClass, src: u128|
                        #![trigger state_of(self.entries@, c, src)]
                        true implies state_of(self.entries@, c, src) == if entry_for(entry, c, src) {
                            Some(entry.rate)
                        } else {
                            state_of(pre, c, src)
                        } by {
                        lemma_update_keeps(pre, i as int, entry, c, src);
                    }
                }
            },
            None => {
                self.entries.push(entry);
                proof {
                    assert forall|c: RateClass, src: u128|
                        #![trigger state_of(self.entries@, c, src)]
                        true implies state_of(self.entries@, c, src) == if entry_for(entry, c, src) {
                            Some(entry.rate)
                        } else {
                            state_of(pre, c, src)
                        } by {
                        assert(self.entries@.drop_last() =~= pre);
                    }
                }
            },
        }
        ok
    }
}

} // verus!
