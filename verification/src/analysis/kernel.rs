//! Kernel architecture summary.
use vstd::prelude::*;
use crate::text::{
    chars_of, has_prefix, lines, lines_of, slice_to_vec_chars, starts_with, string_from_chars, trim,
    trim_bounds, trim_chars,
};

verus! {

/// Kernel architecture information.
pub struct KernelInfo {
    pub version: String,
    pub boot_phases: Vec<&'static str>,
    pub subsystems: Vec<(&'static str, &'static str)>,
}

/// The first of `ls[i..]` that starts with `p` (after trimming it when
/// `trim_first` holds), with `p` removed.
pub open spec fn first_prefixed_from(
    ls: Seq<Seq<char>>,
    p: Seq<char>,
    trim_first: bool,
    i: int,
) -> Option<Seq<char>>
    decreases ls.len() - i,
{
    if i < 0 || i >= ls.len() {
        None
    } else {
        let l = if trim_first {
            trim(ls[i])
        } else {
            ls[i]
        };
        if has_prefix(l, p) {
            Some(l.subrange(p.len() as int, l.len() as int))
        } else {
            first_prefixed_from(ls, p, trim_first, i + 1)
        }
    }
}

/// The version that an `AGENTS.md` states on its `**Version:** v` line,
/// or `dev` when the file is missing or has no such line.
pub open spec fn agents_version(content: Option<Seq<char>>, trim_first: bool) -> Seq<char> {
    match content {
        None => "dev"@,
        Some(c) => match first_prefixed_from(lines(c), "**Version:** v"@, trim_first, 0) {
            Some(rest) => trim(rest),
            None => "dev"@,
        },
    }
}

/// Reads the version from the text of `AGENTS.md` (`None` when it cannot be read).
/// With `trim_first`, each line is trimmed before its prefix is tested.
pub fn version_from_agents(content: Option<&str>, trim_first: bool) -> (r: String)
    ensures
        r@ == agents_version(
            match content {
                Some(c) => Some(c@),
                None => None,
            },
            trim_first,
        ),
{
    match content {
        None => String::from_str("dev"),
        Some(c) => {
            let cs = chars_of(c);
            let ls = lines_of(cs.as_slice());
            let tag = chars_of("**Version:** v");
            let mut i: usize = 0;
            while i < ls.len()
                invariant
                    content == Some(c),
                    i <= ls@.len(),
                    ls@.len() == lines(c@).len(),
                    forall|j: int| 0 <= j < ls@.len() ==> #[trigger] ls@[j]@ == lines(c@)[j],
                    tag@ == "**Version:** v"@,
                    first_prefixed_from(lines(c@), tag@, trim_first, 0) == first_prefixed_from(
                        lines(c@),
                        tag@,
                        trim_first,
                        i as int,
                    ),
                decreases ls@.len() - i,
            {
                let line: Vec<char> = if trim_first {
                    trim_chars(ls[i].as_slice())
                } else {
                    ls[i].clone()
                };
                assert(line@ == (if trim_first {
                    trim(lines(c@)[i as int])
                } else {
                    lines(c@)[i as int]
                }));
                if starts_with(line.as_slice(), tag.as_slice()) {
                    let (a, b) = trim_bounds(line.as_slice(), tag.len(), line.len());
                    let v = slice_to_vec_chars(line.as_slice(), a, b);
                    assert(first_prefixed_from(lines(c@), tag@, trim_first, i as int) == Some(
                        line@.subrange(tag@.len() as int, line@.len() as int),
                    ));
                    let r = string_from_chars(v.as_slice());
                    return r;
                }
                i = i + 1;
            }
            String::from_str("dev")
        },
    }
}

pub open spec fn spec_boot_phases() -> Seq<Seq<char>> {
    seq![
        "Phase 0: Early boot (GDT, IDT, CPU init)"@,
        "Phase 1: Memory (page tables, allocators)"@,
        "Phase 2: Kernel services (scheduler, HAL)"@,
        "Phase 3: Driver loading (NEM boot drivers)"@,
        "Phase 4: Userland init (spawn neoinit)"@,
    ]
}

pub open spec fn spec_subsystems() -> Seq<(Seq<char>, Seq<char>)> {
    seq![
        ("scheduler"@, "SMP priority scheduler with work stealing"@),
        ("memory"@, "Buddy allocator, slab, demand paging"@),
        ("drivers"@, "NEM v3 driver framework with isolation"@),
        ("fs"@, "NeoFS v2 + VFS with mount support"@),
        ("net"@, "TCP/IP stack, ARP, DHCP, e1000"@),
        ("registry"@, "Cell-based Registry hive persistence"@),
        ("security"@, "SID, Token, ACL, SAM, SeAccessCheck"@),
        ("object"@, "Object Manager (Ob) — 16 types, 7 syscalls"@),
        ("hal"@, "x86_64 HAL: GDT, IDT, IOAPIC, MSI-X"@),
        ("services"@, "Service Manager for system services"@),
    ]
}

/// Kernel summary: the version that `AGENTS.md` states (its text is
/// `agents`, `None` when it cannot be read), the boot phases and the subsystems.
pub fn get_kernel_info(agents: Option<&str>) -> (r: KernelInfo)
    ensures
        r.version@ == agents_version(
            match agents {
                Some(c) => Some(c@),
                None => None,
            },
            false,
        ),
        r.boot_phases@.len() == spec_boot_phases().len(),
        forall|i: int|
            0 <= i < r.boot_phases@.len() ==> #[trigger] r.boot_phases@[i]@ == spec_boot_phases()[i],
        r.subsystems@.len() == spec_subsystems().len(),
        forall|i: int|
            0 <= i < r.subsystems@.len() ==> (#[trigger] r.subsystems@[i].0@, r.subsystems@[i].1@)
                == spec_subsystems()[i],
{
    let version = version_from_agents(agents, false);
    let mut boot_phases: Vec<&'static str> = Vec::new();
    boot_phases.push("Phase 0: Early boot (GDT, IDT, CPU init)");
    boot_phases.push("Phase 1: Memory (page tables, allocators)");
    boot_phases.push("Phase 2: Kernel services (scheduler, HAL)");
    boot_phases.push("Phase 3: Driver loading (NEM boot drivers)");
    boot_phases.push("Phase 4: Userland init (spawn neoinit)");
    let mut subsystems: Vec<(&'static str, &'static str)> = Vec::new();
    subsystems.push(("scheduler", "SMP priority scheduler with work stealing"));
    subsystems.push(("memory", "Buddy allocator, slab, demand paging"));
    subsystems.push(("drivers", "NEM v3 driver framework with isolation"));
    subsystems.push(("fs", "NeoFS v2 + VFS with mount support"));
    subsystems.push(("net", "TCP/IP stack, ARP, DHCP, e1000"));
    subsystems.push(("registry", "Cell-based Registry hive persistence"));
    subsystems.push(("security", "SID, Token, ACL, SAM, SeAccessCheck"));
    subsystems.push(("object", "Object Manager (Ob) — 16 types, 7 syscalls"));
    subsystems.push(("hal", "x86_64 HAL: GDT, IDT, IOAPIC, MSI-X"));
    subsystems.push(("services", "Service Manager for system services"));
    KernelInfo { version, boot_phases, subsystems }
}

} // verus!

verus! {

/// `FILE:LINE:NAME` for a symbol, with the line counted from one.
pub open spec fn symbol_location_text(s: crate::database::SymbolView) -> Seq<char> {
    s.file + ":"@ + crate::text::decimal((s.range.start.line + 1) as nat) + ":"@ + s.name
}

/// The locations of at most `max` symbols named `query` (case-insensitively).
pub fn search_symbols(db: &crate::database::Database, query: &str, max: usize) -> (r: Vec<String>)
    ensures
        ({
            let found = crate::database::ids_to_symbols(
                db@.symbols,
                crate::database::list_or_empty(db@.name_index, crate::text::lowercase(query@)),
            );
            let n = if found.len() < max {
                found.len() as int
            } else {
                max as int
            };
            &&& r@.len() == n
            &&& forall|i: int| 0 <= i < n ==> #[trigger] r@[i]@ == symbol_location_text(found[i])
        }),
{
    let found = db.find_by_name(query);
    let ghost fv = crate::database::views_of(found@);
    let mut r: Vec<String> = Vec::new();
    let mut i: usize = 0;
    while i < found.len() && i < max
        invariant
            i <= found@.len(),
            i <= max,
            fv == crate::database::views_of(found@),
            r@.len() == i,
            forall|q: int| 0 <= q < i ==> #[trigger] r@[q]@ == symbol_location_text(fv[q]),
        decreases found@.len() - i,
    {
        let s = &found[i];
        let mut t = s.file.clone();
        t.append(":");
        let line = crate::text::u64_to_string(s.range.start.line as u64 + 1);
        t.append(line.as_str());
        t.append(":");
        t.append(s.name.as_str());
        assert(fv[i as int] == s@);
        r.push(t);
        i = i + 1;
    }
    assert(fv.len() == found@.len());
    r
}

} // verus!
