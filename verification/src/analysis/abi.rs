//! ABI compatibility checking for NEM drivers and NXL libraries.
use vstd::prelude::*;
use crate::text::{decimal, u64_to_string};

verus! {

/// The ABI range a driver declares.
#[derive(Debug, Clone, Copy)]
pub struct AbiVersion {
    pub min: u16,
    pub target: u16,
    pub max: u16,
}

/// Outcome of checking a driver against the kernel ABI.
#[derive(Debug, Clone, Copy, PartialEq, Eq, Structural)]
pub enum AbiCompatibility {
    Compatible,
    TooOld { required: u16, available: u16 },
    TooNew { required: u16, available: u16 },
}

/// The NEM ABI version this kernel provides.
pub const KERNEL_ABI_VERSION: u16 = 8;

/// The kernel is below the driver's minimum (`TooOld`), above its maximum
/// (`TooNew`), or inside the declared range.
pub open spec fn spec_check_nem_abi(d: AbiVersion) -> AbiCompatibility {
    if KERNEL_ABI_VERSION < d.min {
        AbiCompatibility::TooOld { required: d.min, available: KERNEL_ABI_VERSION }
    } else if KERNEL_ABI_VERSION > d.max {
        AbiCompatibility::TooNew { required: d.max, available: KERNEL_ABI_VERSION }
    } else {
        AbiCompatibility::Compatible
    }
}

pub fn check_nem_abi(driver: &AbiVersion) -> (r: AbiCompatibility)
    ensures
        r == spec_check_nem_abi(*driver),
{
    if KERNEL_ABI_VERSION < driver.min {
        AbiCompatibility::TooOld { required: driver.min, available: KERNEL_ABI_VERSION }
    } else if KERNEL_ABI_VERSION > driver.max {
        AbiCompatibility::TooNew { required: driver.max, available: KERNEL_ABI_VERSION }
    } else {
        AbiCompatibility::Compatible
    }
}

/// The one-line report of a compatibility result.
pub open spec fn compatibility_text(r: AbiCompatibility) -> Seq<char> {
    match r {
        AbiCompatibility::Compatible => "✓ Compatible"@,
        AbiCompatibility::TooOld { required, available } => "✗ Driver requires ABI ≥"@ + decimal(
            required as nat,
        ) + ", kernel has "@ + decimal(available as nat),
        AbiCompatibility::TooNew { required, available } => "✗ Driver requires ABI ≤"@ + decimal(
            required as nat,
        ) + ", kernel has "@ + decimal(available as nat),
    }
}

fn requirement_text(head: &str, required: u16, available: u16) -> (r: String)
    ensures
        r@ == head@ + decimal(required as nat) + ", kernel has "@ + decimal(available as nat),
{
    let mut s = String::from_str(head);
    let req = u64_to_string(required as u64);
    s.append(req.as_str());
    s.append(", kernel has ");
    let av = u64_to_string(available as u64);
    s.append(av.as_str());
    s
}

pub fn format_compatibility(result: &AbiCompatibility) -> (r: String)
    ensures
        r@ == compatibility_text(*result),
{
    match result {
        AbiCompatibility::Compatible => String::from_str("✓ Compatible"),
        AbiCompatibility::TooOld { required, available } => requirement_text(
            "✗ Driver requires ABI ≥",
            *required,
            *available,
        ),
        AbiCompatibility::TooNew { required, available } => requirement_text(
            "✗ Driver requires ABI ≤",
            *required,
            *available,
        ),
    }
}

/// A driver is compatible exactly when the kernel's ABI lies within its
/// declared range, the condition `NemDriver::abi_compatible` tests.
pub proof fn lemma_compatible_iff_in_range(d: AbiVersion)
    ensures
        (spec_check_nem_abi(d) == AbiCompatibility::Compatible) <==> (d.min <= KERNEL_ABI_VERSION
            && KERNEL_ABI_VERSION <= d.max),
{
}

} // verus!
