//! Architectural consistency checks and invariants.
use vstd::prelude::*;
use crate::text::{decimal, u64_to_string};

verus! {

/// A finding of the consistency check.
#[derive(Debug, Clone)]
pub struct ConsistencyIssue {
    pub severity: Severity,
    pub category: String,
    pub message: String,
}

/// How serious a finding is.
#[derive(Debug, Clone, Copy, PartialEq, Eq, Structural)]
pub enum Severity {
    Error,
    Warning,
    Info,
}

/// The architectural invariants of the kernel, as `(id, description)`.
pub open spec fn spec_invariants() -> Seq<(Seq<char>, Seq<char>)> {
    seq![
        ("INV-1"@, "No Ring 0 shell commands. All interactive commands in userbin/ as .NXE"@),
        ("INV-2"@, "Syscall dispatch via SSDT (O(1)), not match. RAX is the index."@),
        ("INV-3"@, "Every resource is an Ob object. No raw kernel resource outside Ob."@),
        ("INV-4"@, "Drivers run in isolated NEM sandbox. No direct kernel memory access."@),
        ("INV-5"@, "New syscalls (RAX ≥ 60) MUST be sys_ob_* operating on Ob objects."@),
        ("INV-6"@, "HAL is the only module with inline assembly. All arch code behind HAL."@),
        ("INV-7"@, "No circular dependencies between kernel subsystems."@),
        ("INV-8"@, "100% Rust. No C or C++ in the kernel."@),
        ("INV-9"@, "SSDT ABI is frozen within a major kernel version (semver)."@),
        ("INV-10"@, "NEM ABI is versioned. Drivers declare min/target/max versions."@),
    ]
}

/// The invariant table (what the tools list as `INVARIANTS`).
pub fn invariants() -> (r: Vec<(&'static str, &'static str)>)
    ensures
        r@.len() == spec_invariants().len(),
        forall|i: int|
            0 <= i < r@.len() ==> (#[trigger] r@[i].0@, r@[i].1@) == spec_invariants()[i],
{
    let mut v: Vec<(&'static str, &'static str)> = Vec::new();
    v.push(("INV-1", "No Ring 0 shell commands. All interactive commands in userbin/ as .NXE"));
    v.push(("INV-2", "Syscall dispatch via SSDT (O(1)), not match. RAX is the index."));
    v.push(("INV-3", "Every resource is an Ob object. No raw kernel resource outside Ob."));
    v.push(("INV-4", "Drivers run in isolated NEM sandbox. No direct kernel memory access."));
    v.push(("INV-5", "New syscalls (RAX ≥ 60) MUST be sys_ob_* operating on Ob objects."));
    v.push(("INV-6", "HAL is the only module with inline assembly. All arch code behind HAL."));
    v.push(("INV-7", "No circular dependencies between kernel subsystems."));
    v.push(("INV-8", "100% Rust. No C or C++ in the kernel."));
    v.push(("INV-9", "SSDT ABI is frozen within a major kernel version (semver)."));
    v.push(("INV-10", "NEM ABI is versioned. Drivers declare min/target/max versions."));
    v
}

/// The single informational finding that counts the invariants.
pub fn check_invariants() -> (r: Vec<ConsistencyIssue>)
    ensures
        r@.len() == 1,
        r@[0].severity == Severity::Info,
        r@[0].category@ == "invariants"@,
        r@[0].message@ == decimal(spec_invariants().len()) + " architectural invariants defined"@,
{
    let table = invariants();
    let mut message = u64_to_string(table.len() as u64);
    message.append(" architectural invariants defined");
    let mut v: Vec<ConsistencyIssue> = Vec::new();
    v.push(
        ConsistencyIssue {
            severity: Severity::Info,
            category: String::from_str("invariants"),
            message,
        },
    );
    v
}

} // verus!
