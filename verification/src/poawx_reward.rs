//! PoAW-X reward manifest: the four-role split (55/22/13/10), per-role caps,
//! and the deterministic, non-inflationary low-participation fallback.
//!
//! Compute, verify and support are capped at their bps floors; primary is the
//! residual and absorbs the rounding remainder. Absent roles are not minted.
//! The additive cap gate is off on mainnet.
use vstd::prelude::*;
use crate::activation::{NodeEnv, reached, is_reached};
use crate::wire::{le16, le64, get_le16, get_le64, push_le16, push_le64, push_all, read_le16, read_le64, read_array20};
use crate::digest::{sha256, sha256_of};
use crate::text::chars_of;

verus! {

pub const MULTI_ROLE_PRIMARY_BPS: u64 = 5500;

pub const MULTI_ROLE_COMPUTE_BPS: u64 = 2200;

pub const MULTI_ROLE_VERIFY_BPS: u64 = 1300;

pub const MULTI_ROLE_SUPPORT_BPS: u64 = 1000;

/// Highest third-party pool fee a manifest may declare (bps).
pub const THIRD_PARTY_FEE_CAP_BPS: u16 = 500;

pub const REWARD_MANIFEST_VERSION: u8 = 1;

/// version + network + height + total + fee_bps + fee_pkh + fallback + 4 x
/// (role + pkh + amount + present) = 161 bytes.
pub const REWARD_MANIFEST_WIRE: usize = 161;

#[derive(Debug, Clone, Copy, PartialEq, Eq, Structural)]
pub enum PoawxRewardRole {
    Primary,
    Compute,
    Verify,
    Support,
}

pub open spec fn role_id(r: PoawxRewardRole) -> u8 {
    match r {
        PoawxRewardRole::Primary => 0,
        PoawxRewardRole::Compute => 1,
        PoawxRewardRole::Verify => 2,
        PoawxRewardRole::Support => 3,
    }
}

pub open spec fn role_bps(r: PoawxRewardRole) -> u64 {
    match r {
        PoawxRewardRole::Primary => 5500,
        PoawxRewardRole::Compute => 2200,
        PoawxRewardRole::Verify => 1300,
        PoawxRewardRole::Support => 1000,
    }
}

pub open spec fn role_of_id(id: u8) -> Option<PoawxRewardRole> {
    if id == 0 {
        Some(PoawxRewardRole::Primary)
    } else if id == 1 {
        Some(PoawxRewardRole::Compute)
    } else if id == 2 {
        Some(PoawxRewardRole::Verify)
    } else if id == 3 {
        Some(PoawxRewardRole::Support)
    } else {
        None
    }
}

impl PoawxRewardRole {
    pub fn id(self) -> (b: u8)
        ensures
            b == role_id(self),
    {
        match self {
            PoawxRewardRole::Primary => 0,
            PoawxRewardRole::Compute => 1,
            PoawxRewardRole::Verify => 2,
            PoawxRewardRole::Support => 3,
        }
    }

    pub fn bps(self) -> (b: u64)
        ensures
            b == role_bps(self),
    {
        match self {
            PoawxRewardRole::Primary => MULTI_ROLE_PRIMARY_BPS,
            PoawxRewardRole::Compute => MULTI_ROLE_COMPUTE_BPS,
            PoawxRewardRole::Verify => MULTI_ROLE_VERIFY_BPS,
            PoawxRewardRole::Support => MULTI_ROLE_SUPPORT_BPS,
        }
    }

    pub fn from_id(id: u8) -> (r: Option<Self>)
        ensures
            r == role_of_id(id),
    {
        match id {
            0 => Some(PoawxRewardRole::Primary),
            1 => Some(PoawxRewardRole::Compute),
            2 => Some(PoawxRewardRole::Verify),
            3 => Some(PoawxRewardRole::Support),
            _ => None,
        }
    }
}

/// Deterministic fallback policy for participation.
#[derive(Debug, Clone, Copy, PartialEq, Eq, Structural)]
pub enum PoawxRewardFallbackMode {
    /// All four roles have recipients: the canonical exact split is paid in full.
    FullParticipation,
    /// Only roles with a recipient are minted; absent shares are not minted.
    PresentRolesOnly,
}

pub open spec fn fallback_byte(m: PoawxRewardFallbackMode) -> u8 {
    match m {
        PoawxRewardFallbackMode::FullParticipation => 0,
        PoawxRewardFallbackMode::PresentRolesOnly => 1,
    }
}

impl PoawxRewardFallbackMode {
    pub fn to_byte(self) -> (b: u8)
        ensures
            b == fallback_byte(self),
    {
        match self {
            PoawxRewardFallbackMode::FullParticipation => 0,
            PoawxRewardFallbackMode::PresentRolesOnly => 1,
        }
    }

    pub fn from_byte(b: u8) -> (r: Option<Self>)
        ensures
            r == if b == 0 {
                Some(PoawxRewardFallbackMode::FullParticipation)
            } else if b == 1 {
                Some(PoawxRewardFallbackMode::PresentRolesOnly)
            } else {
                None
            },
    {
        match b {
            0 => Some(PoawxRewardFallbackMode::FullParticipation),
            1 => Some(PoawxRewardFallbackMode::PresentRolesOnly),
            _ => None,
        }
    }
}

/// `floor(total * bps / 10000)`.
pub open spec fn bps_floor(total: u64, bps: u64) -> int {
    (total as int * bps as int) / 10000
}

/// A per-role reward ceiling (bps of the total).
#[derive(Debug, Clone, Copy, PartialEq, Eq, Structural)]
pub struct PoawxRoleRewardCap {
    pub role: PoawxRewardRole,
    pub bps: u64,
}

impl PoawxRoleRewardCap {
    pub fn for_role(role: PoawxRewardRole) -> (c: Self)
        ensures
            c.role == role,
            c.bps == role_bps(role),
    {
        PoawxRoleRewardCap { role, bps: role.bps() }
    }

    /// `floor(bps * total / 10000)`, the hard ceiling of a non-primary role
    /// (truncated to 64 bits, as the cast does, for bps above 10000).
    pub fn ceiling(&self, total: u64) -> (c: u64)
        ensures
            c == ((total as int * self.bps as int) / 10000) as u64,
            self.bps <= 10000 ==> c == bps_floor(total, self.bps),
    {
        assert(total as int * self.bps as int <= u64::MAX as int * u64::MAX as int) by (nonlinear_arith);
        let v: u128 = (total as u128 * self.bps as u128) / 10000u128;
        if self.bps <= 10000 {
            assert(v <= total) by (nonlinear_arith)
                requires
                    v == (total as int * self.bps as int) / 10000,
                    self.bps <= 10000,
            ;
        }
        v as u64
    }
}

fn floor_bps(total: u64, bps: u64) -> (f: u64)
    requires
        bps <= 10000,
    ensures
        f == bps_floor(total, bps),
        f <= total,
{
    assert(total as int * bps as int <= u64::MAX as int * 10000) by (nonlinear_arith)
        requires
            bps <= 10000,
    ;
    let v: u128 = (total as u128 * bps as u128) / 10000u128;
    assert(v <= total) by (nonlinear_arith)
        requires
            v == (total as int * bps as int) / 10000,
            bps <= 10000,
    ;
    v as u64
}

proof fn lemma_floors_fit(total: u64)
    ensures
        bps_floor(total, 2200) + bps_floor(total, 1300) + bps_floor(total, 1000) + bps_floor(
            total,
            5500,
        ) <= total,
        bps_floor(total, 2200) + bps_floor(total, 1300) + bps_floor(total, 1000) <= total,
{
    let t = total as int;
    let a = bps_floor(total, 2200);
    let b = bps_floor(total, 1300);
    let c = bps_floor(total, 1000);
    let d = bps_floor(total, 5500);
    assert(a * 10000 <= t * 2200 && b * 10000 <= t * 1300 && c * 10000 <= t * 1000 && d * 10000
        <= t * 5500) by (nonlinear_arith)
        requires
            a == (t * 2200) / 10000,
            b == (t * 1300) / 10000,
            c == (t * 1000) / 10000,
            d == (t * 5500) / 10000,
            t >= 0,
    ;
}

/// The canonical four-role split of `total`: `[primary, compute, verify, support]`
/// with compute/verify/support at their bps floors and primary the residual.
pub open spec fn spec_multi_role_amounts(total: u64) -> Seq<u64> {
    let c = bps_floor(total, 2200);
    let v = bps_floor(total, 1300);
    let s = bps_floor(total, 1000);
    seq![(total - c - v - s) as u64, c as u64, v as u64, s as u64]
}

/// Role amounts with the non-inflationary fallback: present non-primary roles
/// get their floor, absent roles 0, and a present primary the residual
/// `total - compute_floor - verify_floor - support_floor`.
pub open spec fn spec_role_amounts(total: u64, present: Seq<bool>) -> Seq<u64> {
    let c = bps_floor(total, 2200);
    let v = bps_floor(total, 1300);
    let s = bps_floor(total, 1000);
    seq![
        if present[0] { (total - c - v - s) as u64 } else { 0 },
        if present[1] { c as u64 } else { 0 },
        if present[2] { v as u64 } else { 0 },
        if present[3] { s as u64 } else { 0 },
    ]
}

/// The canonical four-role split of `total`.
pub fn multi_role_amounts(total: u64) -> (a: [u64; 4])
    ensures
        a@ == spec_multi_role_amounts(total),
        a[0] + a[1] + a[2] + a[3] == total,
{
    role_amounts_with_fallback(total, [true, true, true, true])
}

/// Rounding-aware role amounts with the deterministic fallback; their sum (the
/// minted total) is never above `total`.
pub fn role_amounts_with_fallback(total: u64, present: [bool; 4]) -> (a: [u64; 4])
    ensures
        a@ == spec_role_amounts(total, present@),
        a[1] == if present[1] { (total as int * 2200) / 10000 } else { 0 },
        a[2] == if present[2] { (total as int * 1300) / 10000 } else { 0 },
        a[3] == if present[3] { (total as int * 1000) / 10000 } else { 0 },
        a[0] == if present[0] {
            total - (total as int * 2200) / 10000 - (total as int * 1300) / 10000 - (total as int
                * 1000) / 10000
        } else {
            0
        },
        a[0] + a[1] + a[2] + a[3] <= total,
        (present[0] && present[1] && present[2] && present[3]) ==> a[0] + a[1] + a[2] + a[3]
            == total,
{
    proof {
        lemma_floors_fit(total);
    }
    let cf = floor_bps(total, MULTI_ROLE_COMPUTE_BPS);
    let vf = floor_bps(total, MULTI_ROLE_VERIFY_BPS);
    let sf = floor_bps(total, MULTI_ROLE_SUPPORT_BPS);
    let c = if present[1] {
        cf
    } else {
        0
    };
    let v = if present[2] {
        vf
    } else {
        0
    };
    let s = if present[3] {
        sf
    } else {
        0
    };
    let primary_floor = floor_bps(total, MULTI_ROLE_PRIMARY_BPS);
    let remainder = total - primary_floor - cf - vf - sf;
    let p = if present[0] {
        primary_floor + remainder
    } else {
        0
    };
    let a = [p, c, v, s];
    assert(a@ =~= spec_role_amounts(total, present@));
    proof {
        lemma_role_amounts_per_role(total, present@, present@, 0);
    }
    a
}

/// Each role's amount depends only on the total and on whether that role is
/// present: a present compute, verify or support role gets `floor(total *
/// bps / 10000)` for its 2200, 1300 or 1000 bps, a present primary gets what
/// is left of the total after all three of those floors, and an absent role
/// gets 0; no role's share passes to another.
pub proof fn lemma_role_amounts_per_role(total: u64, p1: Seq<bool>, p2: Seq<bool>, i: int)
    requires
        p1.len() == 4,
        p2.len() == 4,
        0 <= i < 4,
        p1[i] == p2[i],
    ensures
        spec_role_amounts(total, p1)[i] == spec_role_amounts(total, p2)[i],
        spec_role_amounts(total, p1)[1] == if p1[1] { (total as int * 2200) / 10000 } else { 0 },
        spec_role_amounts(total, p1)[2] == if p1[2] { (total as int * 1300) / 10000 } else { 0 },
        spec_role_amounts(total, p1)[3] == if p1[3] { (total as int * 1000) / 10000 } else { 0 },
        spec_role_amounts(total, p1)[0] == if p1[0] {
            total - (total as int * 2200) / 10000 - (total as int * 1300) / 10000 - (total as int
                * 1000) / 10000
        } else {
            0
        },
{
    lemma_floors_fit(total);
}

/// The minted total never exceeds the subsidy, whatever subset of roles is present.
pub proof fn lemma_fallback_non_inflationary(total: u64, present: Seq<bool>)
    requires
        present.len() == 4,
    ensures
        ({
            let a = spec_role_amounts(total, present);
            a[0] + a[1] + a[2] + a[3] <= total
        }),
        present =~= seq![true, true, true, true] ==> spec_role_amounts(total, present)
            == spec_multi_role_amounts(total),
{
    lemma_floors_fit(total);
}

#[derive(Debug, Clone, Copy, PartialEq, Eq, Structural)]
pub enum PoawxRewardManifestValidationError {
    WrongVersion,
    WrongNetwork,
    MainnetHardOff,
    RoleCapExceeded(PoawxRewardRole),
    PrimaryNotResidual,
    TotalOverpay,
    SumMismatch,
    FeeOverCap,
    PenalizedRecipient(PoawxRewardRole),
    DigestMismatch,
}

/// A role's name as the error text shows it.
pub open spec fn role_name(r: PoawxRewardRole) -> Seq<char> {
    match r {
        PoawxRewardRole::Primary => "Primary"@,
        PoawxRewardRole::Compute => "Compute"@,
        PoawxRewardRole::Verify => "Verify"@,
        PoawxRewardRole::Support => "Support"@,
    }
}

/// The text of a validation error.
pub open spec fn manifest_error_text(e: PoawxRewardManifestValidationError) -> Seq<char> {
    match e {
        PoawxRewardManifestValidationError::WrongVersion => "phase31: reward manifest wrong version"@,
        PoawxRewardManifestValidationError::WrongNetwork => "phase31: reward manifest wrong network"@,
        PoawxRewardManifestValidationError::MainnetHardOff => "phase31: reward manifest mainnet hard-off"@,
        PoawxRewardManifestValidationError::RoleCapExceeded(r) => "phase31: role "@ + role_name(r)
            + " reward exceeds cap"@,
        PoawxRewardManifestValidationError::PrimaryNotResidual => "phase31: primary reward is not the residual"@,
        PoawxRewardManifestValidationError::TotalOverpay => "phase31: total reward exceeds subsidy + fees"@,
        PoawxRewardManifestValidationError::SumMismatch => "phase31: role rewards do not sum to minted total"@,
        PoawxRewardManifestValidationError::FeeOverCap => "phase31: fee exceeds third-party cap"@,
        PoawxRewardManifestValidationError::PenalizedRecipient(r) => "phase31: role "@ + role_name(r)
            + " recipient is penalized"@,
        PoawxRewardManifestValidationError::DigestMismatch => "phase31: reward manifest digest mismatch"@,
    }
}

fn role_name_chars(r: PoawxRewardRole) -> (v: Vec<char>)
    ensures
        v@ == role_name(r),
{
    match r {
        PoawxRewardRole::Primary => chars_of("Primary"),
        PoawxRewardRole::Compute => chars_of("Compute"),
        PoawxRewardRole::Verify => chars_of("Verify"),
        PoawxRewardRole::Support => chars_of("Support"),
    }
}

fn role_text(r: PoawxRewardRole, tail: &str) -> (v: Vec<char>)
    ensures
        v@ == "phase31: role "@ + role_name(r) + tail@,
{
    let mut v = chars_of("phase31: role ");
    let mut name = role_name_chars(r);
    v.append(&mut name);
    let mut t = chars_of(tail);
    v.append(&mut t);
    v
}

impl PoawxRewardManifestValidationError {
    /// The human-readable message of this error.
    pub fn message(&self) -> (s: Vec<char>)
        ensures
            s@ == manifest_error_text(*self),
    {
        match self {
            PoawxRewardManifestValidationError::WrongVersion => chars_of("phase31: reward manifest wrong version"),
            PoawxRewardManifestValidationError::WrongNetwork => chars_of("phase31: reward manifest wrong network"),
            PoawxRewardManifestValidationError::MainnetHardOff => chars_of("phase31: reward manifest mainnet hard-off"),
            PoawxRewardManifestValidationError::RoleCapExceeded(r) => role_text(*r, " reward exceeds cap"),
            PoawxRewardManifestValidationError::PrimaryNotResidual => chars_of("phase31: primary reward is not the residual"),
            PoawxRewardManifestValidationError::TotalOverpay => chars_of("phase31: total reward exceeds subsidy + fees"),
            PoawxRewardManifestValidationError::SumMismatch => chars_of("phase31: role rewards do not sum to minted total"),
            PoawxRewardManifestValidationError::FeeOverCap => chars_of("phase31: fee exceeds third-party cap"),
            PoawxRewardManifestValidationError::PenalizedRecipient(r) => role_text(*r, " recipient is penalized"),
            PoawxRewardManifestValidationError::DigestMismatch => chars_of("phase31: reward manifest digest mismatch"),
        }
    }
}

#[derive(Debug, Clone, Copy, PartialEq, Eq)]
pub struct PoawxRewardRoleOutput {
    pub role: PoawxRewardRole,
    pub pkh: [u8; 20],
    pub amount: u64,
    pub present: bool,
}

/// Versioned reward manifest; `outputs` are the gross role allocations in the
/// canonical order `[Primary, Compute, Verify, Support]`.
#[derive(Debug, Clone, PartialEq, Eq)]
pub struct PoawxRewardManifestV1 {
    pub version: u8,
    pub network_id: u8,
    pub block_height: u64,
    pub total_reward: u64,
    pub fee_bps: u16,
    pub fee_pkh: [u8; 20],
    pub fallback: PoawxRewardFallbackMode,
    pub outputs: [PoawxRewardRoleOutput; 4],
}

pub open spec fn canonical_role(i: int) -> PoawxRewardRole {
    if i == 0 {
        PoawxRewardRole::Primary
    } else if i == 1 {
        PoawxRewardRole::Compute
    } else if i == 2 {
        PoawxRewardRole::Verify
    } else {
        PoawxRewardRole::Support
    }
}

pub open spec fn minted_sum(m: PoawxRewardManifestV1) -> int {
    m.outputs[0].amount + m.outputs[1].amount + m.outputs[2].amount + m.outputs[3].amount
}

pub open spec fn output_bytes(o: PoawxRewardRoleOutput) -> Seq<u8> {
    seq![role_id(o.role)] + o.pkh@ + le64(o.amount) + seq![if o.present { 1u8 } else { 0u8 }]
}

/// The 161-byte wire form of a manifest.
pub open spec fn manifest_bytes(m: PoawxRewardManifestV1) -> Seq<u8> {
    seq![m.version, m.network_id] + le64(m.block_height) + le64(m.total_reward) + le16(m.fee_bps)
        + m.fee_pkh@ + seq![fallback_byte(m.fallback)] + output_bytes(m.outputs[0]) + output_bytes(
        m.outputs[1],
    ) + output_bytes(m.outputs[2]) + output_bytes(m.outputs[3])
}

/// Whether output slot `i` of `raw` is well formed (canonical role, 0/1 flag).
pub open spec fn output_slot_ok(raw: Seq<u8>, i: int) -> bool {
    let off = 41 + 30 * i;
    &&& raw[off] == i
    &&& (raw[off + 29] == 0 || raw[off + 29] == 1)
}

/// Whether `raw` is an accepted manifest encoding.
pub open spec fn manifest_wire_ok(raw: Seq<u8>) -> bool {
    &&& raw.len() == 161
    &&& raw[0] == 1
    &&& (raw[40] == 0 || raw[40] == 1)
    &&& forall|i: int| 0 <= i < 4 ==> output_slot_ok(raw, i)
}

/// Why output slot `i` (and the slots after it) refuse `raw`: the first of
/// an unknown role id, a role out of canonical order, or a present flag other
/// than 0 or 1; `None` when every slot from `i` on is well formed.
pub open spec fn slot_reject_reason(raw: Seq<u8>, i: int) -> Option<Seq<char>>
    decreases 4 - i,
{
    if 0 <= i < 4 {
        let off = 41 + 30 * i;
        if raw[off] > 3 {
            Some("reward manifest: bad role id"@)
        } else if raw[off] != i {
            Some("reward manifest: non-canonical role order"@)
        } else if raw[off + 29] > 1 {
            Some("reward manifest: bad present flag"@)
        } else {
            slot_reject_reason(raw, i + 1)
        }
    } else {
        None
    }
}

/// Why `raw` is refused: the message of the first check it fails, in the
/// order length, version, fallback byte, then the output slots in turn;
/// `None` when it is an accepted encoding.
pub open spec fn manifest_reject_reason(raw: Seq<u8>) -> Option<Seq<char>> {
    if raw.len() != 161 {
        Some("reward manifest: bad length"@)
    } else if raw[0] != 1 {
        Some("reward manifest: bad version"@)
    } else if raw[40] > 1 {
        Some("reward manifest: bad fallback"@)
    } else {
        slot_reject_reason(raw, 0)
    }
}

proof fn lemma_slot_reject_none(raw: Seq<u8>, i: int)
    requires
        raw.len() == 161,
        0 <= i <= 4,
    ensures
        (slot_reject_reason(raw, i) is None) <==> (forall|j: int| i <= j < 4 ==> output_slot_ok(raw, j)),
    decreases 4 - i,
{
    if i < 4 {
        lemma_slot_reject_none(raw, i + 1);
        if forall|j: int| i <= j < 4 ==> output_slot_ok(raw, j) {
            assert(output_slot_ok(raw, i));
            assert forall|j: int| i + 1 <= j < 4 implies output_slot_ok(raw, j) by {
                assert(i <= j < 4);
            }
        }
    }
}

/// A manifest encoding is refused for a reason exactly when it is not an
/// accepted encoding.
pub proof fn lemma_manifest_reject_reason_none(raw: Seq<u8>)
    ensures
        (manifest_reject_reason(raw) is None) <==> manifest_wire_ok(raw),
{
    if raw.len() == 161 && raw[0] == 1 && raw[40] <= 1 {
        lemma_slot_reject_none(raw, 0);
    }
}

/// Whether `m` is what the accepted encoding `raw` decodes to.
pub open spec fn manifest_decodes_to(raw: Seq<u8>, m: PoawxRewardManifestV1) -> bool {
    &&& m.version == 1
    &&& m.network_id == raw[1]
    &&& m.block_height == get_le64(raw, 2)
    &&& m.total_reward == get_le64(raw, 10)
    &&& m.fee_bps == get_le16(raw, 18)
    &&& m.fee_pkh@ == raw.subrange(20, 40)
    &&& fallback_byte(m.fallback) == raw[40]
    &&& forall|i: int|
        #![trigger m.outputs[i]]
        0 <= i < 4 ==> {
            let off = 41 + 30 * i;
            &&& m.outputs[i].role == canonical_role(i)
            &&& m.outputs[i].pkh@ == raw.subrange(off + 1, off + 21)
            &&& m.outputs[i].amount == get_le64(raw, off + 21)
            &&& m.outputs[i].present == (raw[off + 29] == 1)
        }
}

/// The preimage hashed by [`PoawxRewardManifestV1::manifest_digest`].
pub open spec fn digest_preimage(m: PoawxRewardManifestV1) -> Seq<u8> {
    manifest_domain() + seq![m.version, m.network_id] + le64(m.block_height) + le64(m.total_reward)
        + le16(m.fee_bps) + m.fee_pkh@ + output_bytes(m.outputs[0]) + output_bytes(m.outputs[1])
        + output_bytes(m.outputs[2]) + output_bytes(m.outputs[3])
}

/// Domain tag of the manifest digest: ASCII `IRIUM_POAWX_REWARD_MANIFEST_V1`.
pub const MANIFEST_DOMAIN: [u8; 30] = [0x49, 0x52, 0x49, 0x55, 0x4d, 0x5f, 0x50, 0x4f, 0x41, 0x57, 0x58, 0x5f, 0x52, 0x45, 0x57, 0x41, 0x52, 0x44, 0x5f, 0x4d, 0x41, 0x4e, 0x49, 0x46, 0x45, 0x53, 0x54, 0x5f, 0x56, 0x31];

pub open spec fn manifest_domain() -> Seq<u8> {
    MANIFEST_DOMAIN@
}

fn role_out(role: PoawxRewardRole, pkh: [u8; 20], amount: u64, present: bool) -> (o: PoawxRewardRoleOutput)
    ensures
        o == (PoawxRewardRoleOutput { role, pkh, amount, present }),
{
    PoawxRewardRoleOutput { role, pkh, amount, present }
}

fn push_output(o: &mut Vec<u8>, out: &PoawxRewardRoleOutput)
    ensures
        final(o)@ == old(o)@ + output_bytes(*out),
{
    o.push(out.role.id());
    push_all(o, out.pkh.as_slice());
    push_le64(o, out.amount);
    o.push(if out.present {
        1u8
    } else {
        0u8
    });
    assert(final(o)@ =~= old(o)@ + output_bytes(*out));
}

/// The non-primary caps, non-inflation and primary-residual rules of
/// [`PoawxRewardManifestV1::validate_caps`], in the order it checks them.
pub open spec fn spec_validate_caps(
    m: PoawxRewardManifestV1,
    expected_network: u8,
    subsidy: u64,
    fees: u64,
) -> Result<(), PoawxRewardManifestValidationError> {
    let cap = |i: int| bps_floor(m.total_reward, role_bps(canonical_role(i)));
    let bad = |i: int|
        if !m.outputs[i].present {
            m.outputs[i].amount != 0
        } else {
            m.outputs[i].amount > cap(i)
        };
    let others = m.outputs[1].amount + m.outputs[2].amount + m.outputs[3].amount;
    if expected_network == 0 {
        Err(PoawxRewardManifestValidationError::MainnetHardOff)
    } else if m.version != 1 {
        Err(PoawxRewardManifestValidationError::WrongVersion)
    } else if m.network_id != expected_network {
        Err(PoawxRewardManifestValidationError::WrongNetwork)
    } else if m.total_reward > subsidy + fees {
        Err(PoawxRewardManifestValidationError::TotalOverpay)
    } else if m.fee_bps > 500 {
        Err(PoawxRewardManifestValidationError::FeeOverCap)
    } else if bad(1) {
        Err(PoawxRewardManifestValidationError::RoleCapExceeded(PoawxRewardRole::Compute))
    } else if bad(2) {
        Err(PoawxRewardManifestValidationError::RoleCapExceeded(PoawxRewardRole::Verify))
    } else if bad(3) {
        Err(PoawxRewardManifestValidationError::RoleCapExceeded(PoawxRewardRole::Support))
    } else if m.outputs[0].present && m.outputs[0].amount > m.total_reward {
        Err(PoawxRewardManifestValidationError::RoleCapExceeded(PoawxRewardRole::Primary))
    } else if !m.outputs[0].present && m.outputs[0].amount != 0 {
        Err(PoawxRewardManifestValidationError::RoleCapExceeded(PoawxRewardRole::Primary))
    } else if (if minted_sum(m) > u64::MAX {
        u64::MAX as int
    } else {
        minted_sum(m)
    }) > m.total_reward {
        Err(PoawxRewardManifestValidationError::TotalOverpay)
    } else {
        Ok(())
    }
}

/// What passing the cap check means, over all manifests: not mainnet, version
/// 1, the expected network, a total within subsidy plus fees, a fee of at
/// most 500 bps, every present compute, verify and support amount within
/// `floor(total * bps / 10000)` of its 2200, 1300 or 1000 bps, every absent
/// role at 0, and all amounts together within the total (the sum is taken
/// saturating, so at the largest total it only has to reach it). And the split that
/// [`role_amounts_with_fallback`] makes always passes, whichever roles are
/// present.
pub proof fn lemma_validate_caps_meaning(m: PoawxRewardManifestV1, net: u8, subsidy: u64, fees: u64)
    ensures
        spec_validate_caps(m, net, subsidy, fees) is Ok ==> {
            &&& net != 0 && m.version == 1 && m.network_id == net
            &&& m.total_reward <= subsidy + fees
            &&& m.fee_bps <= 500
            &&& (m.outputs[1].present ==> m.outputs[1].amount <= (m.total_reward as int * 2200) / 10000)
            &&& (m.outputs[2].present ==> m.outputs[2].amount <= (m.total_reward as int * 1300) / 10000)
            &&& (m.outputs[3].present ==> m.outputs[3].amount <= (m.total_reward as int * 1000) / 10000)
            &&& (forall|i: int| 0 <= i < 4 && !m.outputs[i].present ==> #[trigger] m.outputs[i].amount == 0)
            &&& (m.outputs[0].amount + m.outputs[1].amount + m.outputs[2].amount + m.outputs[3].amount
                <= m.total_reward || m.total_reward == u64::MAX)
        },
        (net != 0 && m.version == 1 && m.network_id == net && m.total_reward <= subsidy + fees
            && m.fee_bps <= 500 && (forall|i: int|
            0 <= i < 4 ==> #[trigger] m.outputs[i].amount == spec_role_amounts(
                m.total_reward,
                seq![m.outputs[0].present, m.outputs[1].present, m.outputs[2].present, m.outputs[3].present],
            )[i])) ==> spec_validate_caps(m, net, subsidy, fees) is Ok,
{
    let p = seq![m.outputs[0].present, m.outputs[1].present, m.outputs[2].present, m.outputs[3].present];
    lemma_fallback_non_inflationary(m.total_reward, p);
    lemma_role_amounts_per_role(m.total_reward, p, p, 0);
    if spec_validate_caps(m, net, subsidy, fees) is Ok {
        assert forall|i: int| 0 <= i < 4 && !m.outputs[i].present implies #[trigger] m.outputs[i].amount == 0 by {
            if i == 0 {
            } else if i == 1 {
            } else if i == 2 {
            } else {
            }
        }
    }
    if (net != 0 && m.version == 1 && m.network_id == net && m.total_reward <= subsidy + fees
        && m.fee_bps <= 500 && (forall|i: int|
        0 <= i < 4 ==> #[trigger] m.outputs[i].amount == spec_role_amounts(m.total_reward, p)[i])) {
        assert(m.outputs[0].amount == spec_role_amounts(m.total_reward, p)[0]);
        assert(m.outputs[1].amount == spec_role_amounts(m.total_reward, p)[1]);
        assert(m.outputs[2].amount == spec_role_amounts(m.total_reward, p)[2]);
        assert(m.outputs[3].amount == spec_role_amounts(m.total_reward, p)[3]);
    }
}

impl PoawxRewardManifestV1 {
    /// Full-participation manifest: the canonical exact split.
    pub fn new_full(
        network_id: u8,
        block_height: u64,
        total_reward: u64,
        primary_pkh: [u8; 20],
        compute_pkh: [u8; 20],
        verify_pkh: [u8; 20],
        support_pkh: [u8; 20],
        fee_bps: u16,
        fee_pkh: [u8; 20],
    ) -> (m: Self)
        ensures
            m.version == 1,
            m.network_id == network_id,
            m.block_height == block_height,
            m.total_reward == total_reward,
            m.fee_bps == fee_bps,
            m.fee_pkh == fee_pkh,
            m.fallback == PoawxRewardFallbackMode::FullParticipation,
            m.outputs[0] == role_out_spec(PoawxRewardRole::Primary, primary_pkh, spec_multi_role_amounts(total_reward)[0], true),
            m.outputs[1] == role_out_spec(PoawxRewardRole::Compute, compute_pkh, spec_multi_role_amounts(total_reward)[1], true),
            m.outputs[2] == role_out_spec(PoawxRewardRole::Verify, verify_pkh, spec_multi_role_amounts(total_reward)[2], true),
            m.outputs[3] == role_out_spec(PoawxRewardRole::Support, support_pkh, spec_multi_role_amounts(total_reward)[3], true),
            minted_sum(m) == total_reward,
    {
        let amts = multi_role_amounts(total_reward);
        PoawxRewardManifestV1 {
            version: REWARD_MANIFEST_VERSION,
            network_id,
            block_height,
            total_reward,
            fee_bps,
            fee_pkh,
            fallback: PoawxRewardFallbackMode::FullParticipation,
            outputs: [
                role_out(PoawxRewardRole::Primary, primary_pkh, amts[0], true),
                role_out(PoawxRewardRole::Compute, compute_pkh, amts[1], true),
                role_out(PoawxRewardRole::Verify, verify_pkh, amts[2], true),
                role_out(PoawxRewardRole::Support, support_pkh, amts[3], true),
            ],
        }
    }

    /// Low-participation manifest: `recipients[i] == None` marks role `i`
    /// absent; its share is not minted and its pkh is all zero.
    pub fn new_fallback(
        network_id: u8,
        block_height: u64,
        total_reward: u64,
        recipients: [Option<[u8; 20]>; 4],
        fee_bps: u16,
        fee_pkh: [u8; 20],
    ) -> (m: Self)
        ensures
            m.version == 1,
            m.network_id == network_id,
            m.block_height == block_height,
            m.total_reward == total_reward,
            m.fee_bps == fee_bps,
            m.fee_pkh == fee_pkh,
            m.fallback == PoawxRewardFallbackMode::PresentRolesOnly,
            forall|i: int|
                #![trigger m.outputs[i]]
                0 <= i < 4 ==> {
                    &&& m.outputs[i].role == canonical_role(i)
                    &&& m.outputs[i].present == recipients[i] is Some
                    &&& m.outputs[i].pkh@ == match recipients[i] {
                        Some(p) => p@,
                        None => Seq::new(20, |_j: int| 0u8),
                    }
                    &&& m.outputs[i].amount == spec_role_amounts(
                        total_reward,
                        seq![recipients[0] is Some, recipients[1] is Some, recipients[2] is Some, recipients[3] is Some],
                    )[i]
                },
            minted_sum(m) <= total_reward,
    {
        let present = [
            recipients[0].is_some(),
            recipients[1].is_some(),
            recipients[2].is_some(),
            recipients[3].is_some(),
        ];
        assert(present@ =~= seq![recipients[0] is Some, recipients[1] is Some, recipients[2] is Some, recipients[3] is Some]);
        let amts = role_amounts_with_fallback(total_reward, present);
        let p0 = match recipients[0] { Some(p) => p, None => [0u8; 20] };
        let p1 = match recipients[1] { Some(p) => p, None => [0u8; 20] };
        let p2 = match recipients[2] { Some(p) => p, None => [0u8; 20] };
        let p3 = match recipients[3] { Some(p) => p, None => [0u8; 20] };
        PoawxRewardManifestV1 {
            version: REWARD_MANIFEST_VERSION,
            network_id,
            block_height,
            total_reward,
            fee_bps,
            fee_pkh,
            fallback: PoawxRewardFallbackMode::PresentRolesOnly,
            outputs: [
                role_out(PoawxRewardRole::Primary, p0, amts[0], present[0]),
                role_out(PoawxRewardRole::Compute, p1, amts[1], present[1]),
                role_out(PoawxRewardRole::Verify, p2, amts[2], present[2]),
                role_out(PoawxRewardRole::Support, p3, amts[3], present[3]),
            ],
        }
    }

    /// Minted total: the saturating sum of the role amounts.
    pub fn minted_total(&self) -> (t: u64)
        ensures
            t == if minted_sum(*self) > u64::MAX {
                u64::MAX as int
            } else {
                minted_sum(*self)
            },
    {
        let a = self.outputs[0].amount.saturating_add(self.outputs[1].amount);
        let b = a.saturating_add(self.outputs[2].amount);
        b.saturating_add(self.outputs[3].amount)
    }

    /// Deterministic SHA-256 digest of the manifest contents (fallback excluded).
    pub fn manifest_digest(&self) -> (d: [u8; 32])
        ensures
            d@ == sha256_of(digest_preimage(*self)),
    {
        let mut h: Vec<u8> = Vec::new();
        push_all(&mut h, MANIFEST_DOMAIN.as_slice());
        h.push(self.version);
        h.push(self.network_id);
        push_le64(&mut h, self.block_height);
        push_le64(&mut h, self.total_reward);
        push_le16(&mut h, self.fee_bps);
        push_all(&mut h, self.fee_pkh.as_slice());
        push_output(&mut h, &self.outputs[0]);
        push_output(&mut h, &self.outputs[1]);
        push_output(&mut h, &self.outputs[2]);
        push_output(&mut h, &self.outputs[3]);
        assert(h@ =~= digest_preimage(*self));
        sha256(h.as_slice())
    }

    /// The fixed-size (161-byte) wire encoding.
    pub fn serialize(&self) -> (o: Vec<u8>)
        ensures
            o@ == manifest_bytes(*self),
            o@.len() == 161,
    {
        let mut o: Vec<u8> = Vec::new();
        o.push(self.version);
        o.push(self.network_id);
        push_le64(&mut o, self.block_height);
        push_le64(&mut o, self.total_reward);
        push_le16(&mut o, self.fee_bps);
        push_all(&mut o, self.fee_pkh.as_slice());
        o.push(self.fallback.to_byte());
        push_output(&mut o, &self.outputs[0]);
        push_output(&mut o, &self.outputs[1]);
        push_output(&mut o, &self.outputs[2]);
        push_output(&mut o, &self.outputs[3]);
        assert(o@ =~= manifest_bytes(*self));
        o
    }

    /// Parses the wire encoding. Strict: exact length, known version, canonical
    /// role order, fallback and present bytes 0 or 1. A refused encoding is
    /// answered with the message of the first check it fails.
    pub fn deserialize(raw: &[u8]) -> (r: Result<Self, String>)
        ensures
            r is Ok <==> manifest_wire_ok(raw@),
            r matches Ok(m) ==> manifest_decodes_to(raw@, m),
            r matches Err(e) ==> manifest_reject_reason(raw@) == Some(e@),
    {
        proof {
            lemma_manifest_reject_reason_none(raw@);
        }
        if raw.len() != REWARD_MANIFEST_WIRE {
            return Err("reward manifest: bad length".to_owned());
        }
        if raw[0] != REWARD_MANIFEST_VERSION {
            return Err("reward manifest: bad version".to_owned());
        }
        let network_id = raw[1];
        let block_height = read_le64(raw, 2);
        let total_reward = read_le64(raw, 10);
        let fee_bps = read_le16(raw, 18);
        let fee_pkh = read_array20(raw, 20);
        let fallback = match PoawxRewardFallbackMode::from_byte(raw[40]) {
            Some(f) => f,
            None => {
                return Err("reward manifest: bad fallback".to_owned());
            },
        };
        let mut outputs = [role_out(PoawxRewardRole::Primary, [0u8; 20], 0, false); 4];
        let mut i: usize = 0;
        while i < 4
            invariant
                i <= 4,
                raw@.len() == 161,
                raw@[0] == 1,
                raw@[40] <= 1,
                manifest_reject_reason(raw@) == slot_reject_reason(raw@, i as int),
                forall|j: int| 0 <= j < i ==> output_slot_ok(raw@, j),
                forall|j: int|
                    #![trigger outputs[j]]
                    0 <= j < i ==> {
                        let off = 41 + 30 * j;
                        &&& outputs[j].role == canonical_role(j)
                        &&& outputs[j].pkh@ == raw@.subrange(off + 1, off + 21)
                        &&& outputs[j].amount == get_le64(raw@, off + 21)
                        &&& outputs[j].present == (raw@[off + 29] == 1)
                    },
            decreases 4 - i,
        {
            let off = 41 + 30 * i;
            let expected: u8 = i as u8;
            let role = match PoawxRewardRole::from_id(raw[off]) {
                Some(r) => r,
                None => {
                    proof {
                        assert(!output_slot_ok(raw@, i as int));
                    }
                    return Err("reward manifest: bad role id".to_owned());
                },
            };
            if raw[off] != expected {
                proof {
                    assert(!output_slot_ok(raw@, i as int));
                }
                return Err("reward manifest: non-canonical role order".to_owned());
            }
            let pkh = read_array20(raw, off + 1);
            let amount = read_le64(raw, off + 21);
            let present = match raw[off + 29] {
                0 => false,
                1 => true,
                _ => {
                    proof {
                        assert(!output_slot_ok(raw@, i as int));
                    }
                    return Err("reward manifest: bad present flag".to_owned());
                },
            };
            outputs[i] = role_out(role, pkh, amount, present);
            i = i + 1;
        }
        Ok(PoawxRewardManifestV1 {
            version: REWARD_MANIFEST_VERSION,
            network_id,
            block_height,
            total_reward,
            fee_bps,
            fee_pkh,
            fallback,
            outputs,
        })
    }

    /// A penalized signer may not take the finality (support) reward: refused
    /// when the support output is present with a positive amount and its
    /// recipient is not eligible. `support_eligible` is the penalty state's
    /// answer for `self.outputs[3].pkh` at the current epoch.
    pub fn validate_finality_recipient_eligibility(&self, support_eligible: bool) -> (r: Result<
        (),
        PoawxRewardManifestValidationError,
    >)
        ensures
            r == if self.outputs[3].present && self.outputs[3].amount > 0 && !support_eligible {
                Err::<(), PoawxRewardManifestValidationError>(
                    PoawxRewardManifestValidationError::PenalizedRecipient(PoawxRewardRole::Support),
                )
            } else {
                Ok::<(), PoawxRewardManifestValidationError>(())
            },
    {
        let support = &self.outputs[3];
        if support.present && support.amount > 0 && !support_eligible {
            return Err(PoawxRewardManifestValidationError::PenalizedRecipient(PoawxRewardRole::Support));
        }
        Ok(())
    }

    /// Validates caps and non-inflation. Off on mainnet; additive to the
    /// exact-match coinbase validation (it only adds rejections).
    pub fn validate_caps(&self, expected_network: u8, subsidy: u64, fees: u64) -> (r: Result<(), PoawxRewardManifestValidationError>)
        ensures
            r == spec_validate_caps(*self, expected_network, subsidy, fees),
            r is Ok ==> expected_network != 0 && self.network_id == expected_network && self.fee_bps <= 500
                && (self.outputs[0].amount + self.outputs[1].amount + self.outputs[2].amount
                + self.outputs[3].amount <= self.total_reward || self.total_reward == u64::MAX) && (self.outputs[1].present ==> self.outputs[1].amount
                <= (self.total_reward as int * 2200) / 10000),
    {
        proof {
            lemma_validate_caps_meaning(*self, expected_network, subsidy, fees);
        }
        if expected_network == 0 {
            return Err(PoawxRewardManifestValidationError::MainnetHardOff);
        }
        if self.version != REWARD_MANIFEST_VERSION {
            return Err(PoawxRewardManifestValidationError::WrongVersion);
        }
        if self.network_id != expected_network {
            return Err(PoawxRewardManifestValidationError::WrongNetwork);
        }
        if self.total_reward > subsidy.saturating_add(fees) {
            return Err(PoawxRewardManifestValidationError::TotalOverpay);
        }
        if self.fee_bps > THIRD_PARTY_FEE_CAP_BPS {
            return Err(PoawxRewardManifestValidationError::FeeOverCap);
        }
        let ccap = PoawxRoleRewardCap::for_role(PoawxRewardRole::Compute).ceiling(self.total_reward);
        let o1 = &self.outputs[1];
        if (!o1.present && o1.amount != 0) || (o1.present && o1.amount > ccap) {
            return Err(PoawxRewardManifestValidationError::RoleCapExceeded(PoawxRewardRole::Compute));
        }
        let vcap = PoawxRoleRewardCap::for_role(PoawxRewardRole::Verify).ceiling(self.total_reward);
        let o2 = &self.outputs[2];
        if (!o2.present && o2.amount != 0) || (o2.present && o2.amount > vcap) {
            return Err(PoawxRewardManifestValidationError::RoleCapExceeded(PoawxRewardRole::Verify));
        }
        let scap = PoawxRoleRewardCap::for_role(PoawxRewardRole::Support).ceiling(self.total_reward);
        let o3 = &self.outputs[3];
        if (!o3.present && o3.amount != 0) || (o3.present && o3.amount > scap) {
            return Err(PoawxRewardManifestValidationError::RoleCapExceeded(PoawxRewardRole::Support));
        }
        proof {
            lemma_floors_fit(self.total_reward);
        }
        let others = o1.amount + o2.amount + o3.amount;
        let primary = &self.outputs[0];
        if primary.present {
            // The residual rule: primary plus the others must be the minted total.
            if primary.amount.saturating_add(others) != self.minted_total() {
                return Err(PoawxRewardManifestValidationError::SumMismatch);
            }
            if primary.amount > self.total_reward {
                return Err(PoawxRewardManifestValidationError::RoleCapExceeded(PoawxRewardRole::Primary));
            }
        } else if primary.amount != 0 {
            return Err(PoawxRewardManifestValidationError::RoleCapExceeded(PoawxRewardRole::Primary));
        }
        if self.minted_total() > self.total_reward {
            return Err(PoawxRewardManifestValidationError::TotalOverpay);
        }
        Ok(())
    }
}

pub open spec fn role_out_spec(role: PoawxRewardRole, pkh: [u8; 20], amount: u64, present: bool) -> PoawxRewardRoleOutput {
    PoawxRewardRoleOutput { role, pkh, amount, present }
}

/// Decoding the wire form of a version-1 manifest with canonical role order
/// gives back that manifest: every field round-trips.
#[verifier::rlimit(80)]
#[verifier::spinoff_prover]
pub proof fn lemma_manifest_wire_roundtrip(m: PoawxRewardManifestV1)
    requires
        m.version == 1,
        forall|i: int| 0 <= i < 4 ==> #[trigger] m.outputs[i].role == canonical_role(i),
    ensures
        manifest_wire_ok(manifest_bytes(m)),
        manifest_decodes_to(manifest_bytes(m), m),
{
    let raw = manifest_bytes(m);
    let head = seq![m.version, m.network_id] + le64(m.block_height) + le64(m.total_reward) + le16(
        m.fee_bps,
    ) + m.fee_pkh@ + seq![fallback_byte(m.fallback)];
    assert(head.len() == 41);
    assert(raw =~= head + output_bytes(m.outputs[0]) + output_bytes(m.outputs[1]) + output_bytes(
        m.outputs[2],
    ) + output_bytes(m.outputs[3]));
    crate::wire::lemma_le64_roundtrip(m.block_height);
    crate::wire::lemma_le64_roundtrip(m.total_reward);
    crate::wire::lemma_le16_roundtrip(m.fee_bps);
    assert(raw.subrange(2, 10) =~= le64(m.block_height));
    assert(raw.subrange(10, 18) =~= le64(m.total_reward));
    assert(raw.subrange(18, 20) =~= le16(m.fee_bps));
    assert(raw.subrange(20, 40) =~= m.fee_pkh@);
    assert(get_le64(raw, 2) == get_le64(le64(m.block_height), 0));
    assert(get_le64(raw, 10) == get_le64(le64(m.total_reward), 0));
    assert(get_le16(raw, 18) == get_le16(le16(m.fee_bps), 0));
    assert(raw[0] == m.version && raw[1] == m.network_id && raw[40] == fallback_byte(m.fallback));
    let o0 = output_bytes(m.outputs[0]);
    let o1 = output_bytes(m.outputs[1]);
    let o2 = output_bytes(m.outputs[2]);
    let o3 = output_bytes(m.outputs[3]);
    lemma_slice_mid(head, o0, o1 + o2 + o3);
    assert(raw =~= head + o0 + (o1 + o2 + o3));
    lemma_slice_mid(head + o0, o1, o2 + o3);
    assert(raw =~= (head + o0) + o1 + (o2 + o3));
    lemma_slice_mid(head + o0 + o1, o2, o3);
    assert(raw =~= (head + o0 + o1) + o2 + o3);
    lemma_slice_mid(head + o0 + o1 + o2, o3, Seq::empty());
    assert(raw =~= (head + o0 + o1 + o2) + o3 + Seq::<u8>::empty());
    lemma_output_fields(raw, 41, m.outputs[0]);
    lemma_output_fields(raw, 71, m.outputs[1]);
    lemma_output_fields(raw, 101, m.outputs[2]);
    lemma_output_fields(raw, 131, m.outputs[3]);
    assert(m.outputs[0].role == canonical_role(0));
    assert(m.outputs[1].role == canonical_role(1));
    assert(m.outputs[2].role == canonical_role(2));
    assert(m.outputs[3].role == canonical_role(3));
}

proof fn lemma_slice_mid(pre: Seq<u8>, mid: Seq<u8>, post: Seq<u8>)
    ensures
        (pre + mid + post).subrange(pre.len() as int, (pre.len() + mid.len()) as int) == mid,
{
    assert((pre + mid + post).subrange(pre.len() as int, (pre.len() + mid.len()) as int) =~= mid);
}

proof fn lemma_output_fields(raw: Seq<u8>, off: int, o: PoawxRewardRoleOutput)
    requires
        0 <= off,
        off + 30 <= raw.len(),
        raw.subrange(off, off + 30) == output_bytes(o),
    ensures
        raw[off] == role_id(o.role),
        o.pkh@ == raw.subrange(off + 1, off + 21),
        o.amount == get_le64(raw, off + 21),
        o.present == (raw[off + 29] == 1),
        raw[off + 29] == 0 || raw[off + 29] == 1,
{
    let w = raw.subrange(off, off + 30);
    let l = le64(o.amount);
    assert(w[0] == raw[off]);
    assert(w[29] == raw[off + 29]);
    assert(o.pkh@ =~= raw.subrange(off + 1, off + 21)) by {
        assert forall|j: int| 0 <= j < 20 implies o.pkh@[j] == raw[off + 1 + j] by {
            assert(w[1 + j] == raw[off + 1 + j]);
        }
    }
    assert(w.subrange(21, 29) =~= l);
    assert(w[21] == raw[off + 21] && w[22] == raw[off + 22] && w[23] == raw[off + 23] && w[24]
        == raw[off + 24] && w[25] == raw[off + 25] && w[26] == raw[off + 26] && w[27] == raw[off
        + 27] && w[28] == raw[off + 28]);
    assert(w[21] == l[0] && w[22] == l[1] && w[23] == l[2] && w[24] == l[3] && w[25] == l[4]
        && w[26] == l[5] && w[27] == l[6] && w[28] == l[7]);
    crate::wire::lemma_le64_roundtrip(o.amount);
}

// ── additive cap gate (off on mainnet, off by default) ──────────────────────

pub fn reward_manifest_caps_gate(network_id: u8, activation: Option<u64>, height: u64) -> (b: bool)
    ensures
        b == (network_id != 0 && reached(activation, height)),
{
    if network_id == 0 {
        return false;
    }
    is_reached(activation, height)
}

pub fn reward_manifest_caps_active(env: &NodeEnv, height: u64) -> (b: bool)
    ensures
        b == (env.network_id != 0 && reached(env.reward_manifest_caps_activation_height, height)),
{
    reward_manifest_caps_gate(env.network_id, env.reward_manifest_caps_activation_height, height)
}

/// Whether the additive cap check is required: never on mainnet, else the flag.
pub fn reward_manifest_caps_required(env: &NodeEnv) -> (b: bool)
    ensures
        b == (env.network_id != 0 && env.reward_manifest_caps_required),
{
    if env.network_id == 0 {
        return false;
    }
    env.reward_manifest_caps_required
}

/// The cap gate is on only when active at `height` and required.
pub fn reward_manifest_caps_enforced(env: &NodeEnv, height: u64) -> (b: bool)
    ensures
        b == (env.network_id != 0 && reached(env.reward_manifest_caps_activation_height, height)
            && env.reward_manifest_caps_required),
{
    reward_manifest_caps_active(env, height) && reward_manifest_caps_required(env)
}

/// Whether the block-carried manifest section must be present: never on mainnet.
pub fn reward_manifest_section_required(env: &NodeEnv) -> (b: bool)
    ensures
        b == (env.network_id != 0 && env.reward_manifest_section_required),
{
    if env.network_id == 0 {
        return false;
    }
    env.reward_manifest_section_required
}

pub fn reward_manifest_section_enforced(env: &NodeEnv, height: u64) -> (b: bool)
    ensures
        b == (env.network_id != 0 && reached(env.reward_manifest_caps_activation_height, height)
            && env.reward_manifest_section_required),
{
    reward_manifest_caps_active(env, height) && reward_manifest_section_required(env)
}

} // verus!
