//! Drive flags and their reduction to one resolved drive per net.
//!
//! A contribution to a net is a small set of flags. Contributions are
//! accumulated with bitwise OR, which is associative, commutative and
//! idempotent, so the accumulated set does not depend on the order in which
//! the components were visited. The set is reduced once per net and tick.

use vstd::prelude::*;

verus! {

/// A set of drive flags, one bit per flag.
pub type Drive = u8;

/// The empty set: nothing drives the net.
pub const DRIVE_HIGH_Z: Drive = 0;

/// A weak pull towards low.
pub const DRIVE_WEAK_LOW: Drive = 1;

/// A weak pull towards high.
pub const DRIVE_WEAK_HIGH: Drive = 2;

/// A strong drive to low.
pub const DRIVE_STRONG_LOW: Drive = 4;

/// A strong drive to high.
pub const DRIVE_STRONG_HIGH: Drive = 8;

/// The outcome of reducing the flags accumulated on one net.
#[derive(Clone, Copy, Debug, PartialEq, Eq, Structural)]
pub enum DriveType {
    Low,
    High,
    HighZ,
    ShootThrough,
}

/// Whether the set holds the flag, or one of the flags, of `flag`.
pub open spec fn has_flag(d: Drive, flag: Drive) -> bool {
    d & flag != 0
}

/// Whether the weak-low flag is in the set.
pub open spec fn has_weak_low(d: Drive) -> bool {
    has_flag(d, DRIVE_WEAK_LOW)
}

/// Whether the weak-high flag is in the set.
pub open spec fn has_weak_high(d: Drive) -> bool {
    has_flag(d, DRIVE_WEAK_HIGH)
}

/// Whether the strong-low flag is in the set.
pub open spec fn has_strong_low(d: Drive) -> bool {
    has_flag(d, DRIVE_STRONG_LOW)
}

/// Whether the strong-high flag is in the set.
pub open spec fn has_strong_high(d: Drive) -> bool {
    has_flag(d, DRIVE_STRONG_HIGH)
}

/// Whether either strong flag is in the set.
pub open spec fn has_strong(d: Drive) -> bool {
    has_strong_low(d) || has_strong_high(d)
}

/// Whether the set pulls low once strong flags have silenced weak ones.
pub open spec fn pulls_low(d: Drive) -> bool {
    if has_strong(d) {
        has_strong_low(d)
    } else {
        has_weak_low(d)
    }
}

/// Whether the set pulls high once strong flags have silenced weak ones.
pub open spec fn pulls_high(d: Drive) -> bool {
    if has_strong(d) {
        has_strong_high(d)
    } else {
        has_weak_high(d)
    }
}

/// The union of two flag sets.
pub open spec fn spec_merge_drives(a: Drive, b: Drive) -> Drive {
    a | b
}

/// The reduction rule: strong flags silence weak flags, then no remaining
/// flag is high-Z, only low flags is low, only high flags is high, and both
/// directions at once is shoot-through.
pub open spec fn spec_resolve_drive(d: Drive) -> DriveType {
    if pulls_low(d) && pulls_high(d) {
        DriveType::ShootThrough
    } else if pulls_low(d) {
        DriveType::Low
    } else if pulls_high(d) {
        DriveType::High
    } else {
        DriveType::HighZ
    }
}

/// Accumulates one more contribution onto a net.
pub fn merge_drives(a: Drive, b: Drive) -> (merged: Drive)
    ensures
        merged == spec_merge_drives(a, b),
        has_weak_low(merged) == (has_weak_low(a) || has_weak_low(b)),
        has_weak_high(merged) == (has_weak_high(a) || has_weak_high(b)),
        has_strong_low(merged) == (has_strong_low(a) || has_strong_low(b)),
        has_strong_high(merged) == (has_strong_high(a) || has_strong_high(b)),
{
    proof {
        lemma_merge_flags(a, b);
    }
    a | b
}

/// Reduces the flags accumulated on one net to a resolved drive.
pub fn resolve_drive(d: Drive) -> (resolved: DriveType)
    ensures
        resolved == spec_resolve_drive(d),
{
    let strong = d & (DRIVE_STRONG_LOW | DRIVE_STRONG_HIGH) != 0;
    proof {
        lemma_strong_mask(d);
    }
    let low = if strong {
        d & DRIVE_STRONG_LOW != 0
    } else {
        d & DRIVE_WEAK_LOW != 0
    };
    let high = if strong {
        d & DRIVE_STRONG_HIGH != 0
    } else {
        d & DRIVE_WEAK_HIGH != 0
    };
    if low && high {
        DriveType::ShootThrough
    } else if low {
        DriveType::Low
    } else if high {
        DriveType::High
    } else {
        DriveType::HighZ
    }
}

/// Testing both strong bits at once is the same as testing each.
pub proof fn lemma_strong_mask(d: Drive)
    ensures
        (d & (DRIVE_STRONG_LOW | DRIVE_STRONG_HIGH) != 0) == has_strong(d),
{
    assert((d & (4u8 | 8u8) != 0) == ((d & 4u8 != 0) || (d & 8u8 != 0))) by (bit_vector);
}

/// A flag is in a union exactly when it is in one of the two sets.
pub proof fn lemma_merge_flag(a: Drive, b: Drive, flag: Drive)
    ensures
        has_flag(spec_merge_drives(a, b), flag) == (has_flag(a, flag) || has_flag(b, flag)),
        !has_flag(DRIVE_HIGH_Z, flag),
{
    assert(((a | b) & flag != 0) == ((a & flag != 0) || (b & flag != 0))) by (bit_vector);
    assert(0u8 & flag == 0) by (bit_vector);
}

/// Each of the four flags is in a union exactly when it is in one of the
/// two sets.
pub proof fn lemma_merge_flags(a: Drive, b: Drive)
    ensures
        has_weak_low(spec_merge_drives(a, b)) == (has_weak_low(a) || has_weak_low(b)),
        has_weak_high(spec_merge_drives(a, b)) == (has_weak_high(a) || has_weak_high(b)),
        has_strong_low(spec_merge_drives(a, b)) == (has_strong_low(a) || has_strong_low(b)),
        has_strong_high(spec_merge_drives(a, b)) == (has_strong_high(a) || has_strong_high(b)),
{
    lemma_merge_flag(a, b, DRIVE_WEAK_LOW);
    lemma_merge_flag(a, b, DRIVE_WEAK_HIGH);
    lemma_merge_flag(a, b, DRIVE_STRONG_LOW);
    lemma_merge_flag(a, b, DRIVE_STRONG_HIGH);
}

/// Which flags each of the five named sets holds.
pub proof fn lemma_named_drives()
    ensures
        !has_weak_low(DRIVE_HIGH_Z) && !has_weak_high(DRIVE_HIGH_Z),
        !has_strong_low(DRIVE_HIGH_Z) && !has_strong_high(DRIVE_HIGH_Z),
        has_weak_low(DRIVE_WEAK_LOW) && !has_weak_high(DRIVE_WEAK_LOW),
        !has_strong_low(DRIVE_WEAK_LOW) && !has_strong_high(DRIVE_WEAK_LOW),
        !has_weak_low(DRIVE_WEAK_HIGH) && has_weak_high(DRIVE_WEAK_HIGH),
        !has_strong_low(DRIVE_WEAK_HIGH) && !has_strong_high(DRIVE_WEAK_HIGH),
        !has_weak_low(DRIVE_STRONG_LOW) && !has_weak_high(DRIVE_STRONG_LOW),
        has_strong_low(DRIVE_STRONG_LOW) && !has_strong_high(DRIVE_STRONG_LOW),
        !has_weak_low(DRIVE_STRONG_HIGH) && !has_weak_high(DRIVE_STRONG_HIGH),
        !has_strong_low(DRIVE_STRONG_HIGH) && has_strong_high(DRIVE_STRONG_HIGH),
        spec_resolve_drive(DRIVE_HIGH_Z) == DriveType::HighZ,
        spec_resolve_drive(DRIVE_WEAK_LOW) == DriveType::Low,
        spec_resolve_drive(DRIVE_WEAK_HIGH) == DriveType::High,
        spec_resolve_drive(DRIVE_STRONG_LOW) == DriveType::Low,
        spec_resolve_drive(DRIVE_STRONG_HIGH) == DriveType::High,
{
    assert(0u8 & 1u8 == 0 && 0u8 & 2u8 == 0 && 0u8 & 4u8 == 0 && 0u8 & 8u8 == 0) by (bit_vector);
    assert(1u8 & 1u8 != 0 && 1u8 & 2u8 == 0 && 1u8 & 4u8 == 0 && 1u8 & 8u8 == 0) by (bit_vector);
    assert(2u8 & 1u8 == 0 && 2u8 & 2u8 != 0 && 2u8 & 4u8 == 0 && 2u8 & 8u8 == 0) by (bit_vector);
    assert(4u8 & 1u8 == 0 && 4u8 & 2u8 == 0 && 4u8 & 4u8 != 0 && 4u8 & 8u8 == 0) by (bit_vector);
    assert(8u8 & 1u8 == 0 && 8u8 & 2u8 == 0 && 8u8 & 4u8 == 0 && 8u8 & 8u8 != 0) by (bit_vector);
}

/// Accumulation does not depend on the order of two contributions.
pub proof fn lemma_merge_commutative(a: Drive, b: Drive)
    ensures
        spec_merge_drives(a, b) == spec_merge_drives(b, a),
{
    assert(a | b == b | a) by (bit_vector);
}

/// Accumulation does not depend on how contributions are grouped.
pub proof fn lemma_merge_associative(a: Drive, b: Drive, c: Drive)
    ensures
        spec_merge_drives(spec_merge_drives(a, b), c) == spec_merge_drives(
            a,
            spec_merge_drives(b, c),
        ),
{
    assert((a | b) | c == a | (b | c)) by (bit_vector);
}

/// Contributing the same flags twice changes nothing, and high-Z is neutral.
pub proof fn lemma_merge_idempotent_and_neutral(a: Drive)
    ensures
        spec_merge_drives(a, a) == a,
        spec_merge_drives(a, DRIVE_HIGH_Z) == a,
        spec_merge_drives(DRIVE_HIGH_Z, a) == a,
{
    assert(a | a == a) by (bit_vector);
    assert(a | 0u8 == a) by (bit_vector);
    assert(0u8 | a == a) by (bit_vector);
}

/// A strong flag decides the resolved drive whatever the weak flags are.
pub proof fn lemma_strong_overrides_weak(d: Drive, weak: Drive)
    requires
        has_strong(d),
        !has_strong(weak),
    ensures
        spec_resolve_drive(spec_merge_drives(d, weak)) == spec_resolve_drive(d),
{
    lemma_merge_flags(d, weak);
}

} // verus!
