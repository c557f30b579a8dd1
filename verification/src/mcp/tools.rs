//! The texts the agent tools answer with. What a tool reads from disk is
//! handed in by the caller.
use vstd::prelude::*;
use crate::analysis::abi::{
    check_nem_abi, compatibility_text, format_compatibility, spec_check_nem_abi, AbiVersion, KERNEL_ABI_VERSION,
};
use crate::analysis::consistency::{check_invariants, invariants, spec_invariants, Severity};
use crate::analysis::kernel::{
    agents_version, get_kernel_info, search_symbols, spec_boot_phases, spec_subsystems, symbol_location_text,
};
use crate::database::{ids_to_symbols, list_or_empty, Database};
use crate::mcp::server::{is, tool_views, ToolSpec, ToolSpecView};
use crate::database::opt_text;
use crate::text::{
    chars_of, concat_all, decimal, ends_with, has_prefix, has_suffix, joined, lemma_concat_all_push,
    lemma_joined_push, lowercase, pad_right, push_padded, starts_with, u64_to_string,
};

verus! {

/// The tools of the agent server, over the workspace root and its indexed symbols.
pub struct McpTools {
    pub root: String,
    pub db: Database,
}

pub open spec fn opt_text_of(o: Option<&str>) -> Option<Seq<char>> {
    match o {
        Some(s) => Some(s@),
        None => None,
    }
}

/// `  name: description` lines of the subsystems.
pub open spec fn subsystem_lines(ss: Seq<(Seq<char>, Seq<char>)>) -> Seq<Seq<char>> {
    ss.map_values(|e: (Seq<char>, Seq<char>)| "  "@ + e.0 + ": "@ + e.1 + "\n"@)
}

/// Subsystem lines with the name padded to fifteen characters.
pub open spec fn padded_subsystem_lines(ss: Seq<(Seq<char>, Seq<char>)>) -> Seq<Seq<char>> {
    ss.map_values(|e: (Seq<char>, Seq<char>)| "  "@ + pad_right(e.0, 15) + " "@ + e.1 + "\n"@)
}

/// Indented lines.
pub open spec fn indented_lines(ls: Seq<Seq<char>>) -> Seq<Seq<char>> {
    ls.map_values(|l: Seq<char>| "  "@ + l + "\n"@)
}

/// `kernel_index`: the version, then the subsystems.
pub open spec fn kernel_index_text(agents: Option<Seq<char>>) -> Seq<char> {
    "NeoDOS v"@ + agents_version(agents, false) + "\n=== Kernel Architecture ===\n"@ + concat_all(
        subsystem_lines(spec_subsystems()),
    )
}

/// `get_kernel_architecture`: the version, the boot phases, the subsystems.
pub open spec fn architecture_text(agents: Option<Seq<char>>) -> Seq<char> {
    "NeoDOS v"@ + agents_version(agents, false) + "\n\n=== Boot Phases ===\n"@ + concat_all(
        indented_lines(spec_boot_phases()),
    ) + "\n=== Subsystems ===\n"@ + concat_all(padded_subsystem_lines(spec_subsystems()))
}

/// `boot_phases`: the boot phases.
pub open spec fn boot_phases_text() -> Seq<char> {
    "Boot Phases:\n"@ + concat_all(indented_lines(spec_boot_phases()))
}

/// `check_consistency`: the findings, then the invariants.
pub open spec fn consistency_text() -> Seq<char> {
    "=== Consistency Check ===\n"@ + "["@ + "INFO"@ + "] "@ + "invariants"@ + ": "@ + decimal(spec_invariants().len())
        + " architectural invariants defined"@ + "\n"@ + "\nInvariants ("@ + decimal(spec_invariants().len())
        + "):\n"@ + concat_all(subsystem_lines(spec_invariants()))
}

/// `check_abi_compatibility` for the three numbers, each cut to 16 bits.
pub open spec fn abi_text(min: u64, target: u64, max: u64) -> Seq<char> {
    "Driver ABI: min="@ + decimal((min as u16) as nat) + ", target="@ + decimal((target as u16) as nat) + ", max="@
        + decimal((max as u16) as nat) + "\nKernel ABI: "@ + decimal(KERNEL_ABI_VERSION as nat) + "\n"@
        + compatibility_text(
        spec_check_nem_abi(AbiVersion { min: min as u16, target: target as u16, max: max as u16 }),
    )
}

/// `search_symbol`: the locations found, one per line, or a note that there are none.
pub open spec fn search_text(db: crate::database::DbView, query: Seq<char>, max: usize) -> Seq<char> {
    let found = ids_to_symbols(db.symbols, list_or_empty(db.name_index, lowercase(query)));
    let n = if found.len() < max {
        found.len() as int
    } else {
        max as int
    };
    if n == 0 {
        "No results for '"@ + query + "'"@
    } else {
        joined(found.take(n).map_values(|s: crate::database::SymbolView| symbol_location_text(s)), "\n"@)
    }
}

/// What is known of a build artifact: missing, or present with its size
/// (`None` when its metadata cannot be read).
#[derive(Debug, Clone, Copy, PartialEq, Eq, Structural)]
pub enum Artifact {
    Missing,
    Present(Option<u64>),
}

/// The report line of an artifact of `name` whose size is shown by `size`.
pub open spec fn artifact_line(a: Artifact, present: Seq<char>, missing: Seq<char>) -> Seq<Seq<char>> {
    match a {
        Artifact::Missing => seq![missing],
        Artifact::Present(Some(_)) => seq![present],
        Artifact::Present(None) => seq![],
    }
}

/// `get_build_errors`: one line per artifact: the kernel image and the
/// bootloader with their size in bytes, the disk image in whole mebibytes.
pub open spec fn build_report(kernel: Artifact, boot: Artifact, disk: Artifact) -> Seq<char> {
    let ks = match kernel {
        Artifact::Present(Some(n)) => n,
        _ => 0,
    };
    let bs = match boot {
        Artifact::Present(Some(n)) => n,
        _ => 0,
    };
    let ds = match disk {
        Artifact::Present(Some(n)) => n,
        _ => 0,
    };
    joined(
        artifact_line(kernel, "✓ kernel.elf ("@ + decimal(ks as nat) + " bytes)"@, "✗ kernel.elf NOT FOUND"@)
            + artifact_line(boot, "✓ bootloader.efi ("@ + decimal(bs as nat) + " bytes)"@, "✗ bootloader.efi NOT FOUND"@)
            + artifact_line(
            disk,
            "✓ disk_image.img ("@ + decimal((ds / 1024 / 1024) as nat) + " MB)"@,
            "⚠ disk_image.img not found"@,
        ),
        "\n"@,
    )
}

/// An NXL library directory: its name starts with `lib` and ends with `-nxl`.
pub open spec fn is_nxl_dir(name: Seq<char>) -> bool {
    has_prefix(name, "lib"@) && has_suffix(name, "-nxl"@)
}

/// The NXL library directories among `names`, as indented lines.
pub open spec fn nxl_lines(names: Seq<Seq<char>>) -> Seq<char>
    decreases names.len(),
{
    if names.len() == 0 {
        seq![]
    } else if is_nxl_dir(names.last()) {
        nxl_lines(names.drop_last()) + "  "@ + names.last() + "\n"@
    } else {
        nxl_lines(names.drop_last())
    }
}

/// `list_loaded_modules`: for category `all` or `nem` the driver
/// directories (`None` when the drivers directory cannot be listed); for
/// `all` or `dll` the NXL libraries among the root's directories.
pub open spec fn modules_text(category: Seq<char>, drivers: Option<Seq<Seq<char>>>, root_dirs: Option<Seq<Seq<char>>>) -> Seq<char> {
    let nem = if category == "all"@ || category == "nem"@ {
        "NEM Drivers:\n"@ + match drivers {
            Some(d) => concat_all(indented_lines(d)),
            None => seq![],
        }
    } else {
        seq![]
    };
    let dll = if category == "all"@ || category == "dll"@ {
        "\nNXL Libraries:\n"@ + match root_dirs {
            Some(d) => nxl_lines(d),
            None => seq![],
        }
    } else {
        seq![]
    };
    let out = nem + dll;
    if out.len() == 0 {
        "No modules found.\n"@
    } else {
        out
    }
}

pub open spec fn texts_of(v: Seq<String>) -> Seq<Seq<char>> {
    v.map_values(|s: String| s@)
}

fn push_indented(out: &mut String, items: &Vec<&'static str>)
    ensures
        final(out)@ == old(out)@ + concat_all(indented_lines(items@.map_values(|s: &str| s@))),
{
    let ghost start = out@;
    let ghost v = items@.map_values(|s: &str| s@);
    let mut i: usize = 0;
    assert(indented_lines(v.take(0)) =~= Seq::<Seq<char>>::empty());
    while i < items.len()
        invariant
            i <= items@.len(),
            v == items@.map_values(|s: &str| s@),
            out@ == start + concat_all(indented_lines(v.take(i as int))),
        decreases items@.len() - i,
    {
        out.append("  ");
        out.append(items[i]);
        out.append("\n");
        proof {
            assert(indented_lines(v.take(i + 1)) =~= indented_lines(v.take(i as int)).push("  "@ + v[i as int] + "\n"@));
            lemma_concat_all_push(indented_lines(v.take(i as int)), "  "@ + v[i as int] + "\n"@);
        }
        i = i + 1;
    }
    assert(v.take(items@.len() as int) =~= v);
}

fn push_pairs(out: &mut String, items: &Vec<(&'static str, &'static str)>, padded: bool)
    ensures
        final(out)@ == old(out)@ + concat_all(
            if padded {
                padded_subsystem_lines(items@.map_values(|e: (&str, &str)| (e.0@, e.1@)))
            } else {
                subsystem_lines(items@.map_values(|e: (&str, &str)| (e.0@, e.1@)))
            },
        ),
{
    let ghost start = out@;
    let ghost v = items@.map_values(|e: (&str, &str)| (e.0@, e.1@));
    let ghost lines = if padded {
        padded_subsystem_lines(v)
    } else {
        subsystem_lines(v)
    };
    let mut i: usize = 0;
    assert(lines.take(0) =~= Seq::<Seq<char>>::empty());
    while i < items.len()
        invariant
            i <= items@.len(),
            v == items@.map_values(|e: (&str, &str)| (e.0@, e.1@)),
            lines == if padded {
                padded_subsystem_lines(v)
            } else {
                subsystem_lines(v)
            },
            out@ == start + concat_all(lines.take(i as int)),
        decreases items@.len() - i,
    {
        let ghost before = out@;
        out.append("  ");
        if padded {
            push_padded(out, items[i].0, 15);
            out.append(" ");
        } else {
            out.append(items[i].0);
            out.append(": ");
        }
        out.append(items[i].1);
        out.append("\n");
        proof {
            assert(lines.take(i + 1) =~= lines.take(i as int).push(lines[i as int]));
            lemma_concat_all_push(lines.take(i as int), lines[i as int]);
            assert(out@ =~= before + lines[i as int]);
        }
        i = i + 1;
    }
    assert(lines.take(items@.len() as int) =~= lines);
}

/// The text of `memory_layout`.
pub open spec fn memory_layout_text() -> Seq<char> {
    "Kernel Memory Layout:\n0x00000000 - 0x00001000: Null page (captures null derefs)\n0x00001000 - 0x00100000: Bootloader + BootInfo\n0x00100000 - 0x00400000: Kernel code + data\n0x00400000 - 0x01000000: Kernel heap (buddy + slab)\n0x01000000 - 0x04000000: Page tables + MMIO\n0x04000000 - 0x10000000: NEM isolation regions (16×16MB)\n0x10000000 - 0x20000000: NXL shared libraries\n0x20000000 - 0x40000000: User address space (Ring 3)\n\nAllocators:\nBuddy: power-of-2, bitmap, max 4 GB\nSlab: per-size caches (32B, 64B, 128B, 256B, 512B, 1KB, 2KB, 4KB)\nLinked-list: fallback for large allocations"@
}

/// The text of `security_info`.
pub open spec fn security_text() -> Seq<char> {
    "Security Reference Monitor:\n- SID: Security Identifier (S-1-5-21-{rid})\n- Token: integrity_level + creation_time + group SIDs\n- ACL: Discretionary + System ACL\n- SAM: built-in Administrator (500) + Guest (501)\n- SeAccessCheck: object permission validation\n- Integrity levels: Untrusted(0), Low(1), Medium(2), High(3), System(4)"@
}

/// The text of `scheduler_info`.
pub open spec fn scheduler_text() -> Seq<char> {
    "Scheduler:\n- Priority levels: 0 (idle) .. 31 (realtime)\n- Per-CPU run queues with work stealing\n- SMP: IPI, TLB shootdown\n- Timeslice: ~30ms default\n- Aging: priority boost after wait\n- KWait: blocking engine (events, timers, I/O)\n- DPC: Deferred Procedure Calls\n- APC: Asynchronous Procedure Calls"@
}

/// The text of `ipc_info`.
pub open spec fn ipc_text() -> Seq<char> {
    "IPC Subsystem:\n- Pipes: ring buffer, 4KB×16 slots, zero-copy (planned)\n- IRP: I/O Request Packets, pool-allocated\n- Work queue: kernel worker thread pool\n- Event Bus: centralized, priority-ordered, typed events\n- Handles: Ob handle table, per-process"@
}

impl McpTools {
    pub fn new(root: String, db: Database) -> (r: McpTools)
        ensures
            r.root == root,
            r.db@ == db@,
    {
        McpTools { root, db }
    }

    /// The text of `kernel_index`; `agents` is the text of the root's
    /// `AGENTS.md` (`None` when it cannot be read).
    pub fn kernel_index(&self, agents: Option<&str>) -> (r: String)
        ensures
            r@ == kernel_index_text(opt_text_of(agents)),
    {
        let info = get_kernel_info(agents);
        let mut out = String::from_str("NeoDOS v");
        out.append(info.version.as_str());
        out.append("\n=== Kernel Architecture ===\n");
        push_pairs(&mut out, &info.subsystems, false);
        assert(info.subsystems@.map_values(|e: (&str, &str)| (e.0@, e.1@)) =~= spec_subsystems());
        out
    }

    /// The text of `get_kernel_architecture`.
    pub fn get_kernel_architecture(&self, agents: Option<&str>) -> (r: String)
        ensures
            r@ == architecture_text(opt_text_of(agents)),
    {
        let info = get_kernel_info(agents);
        let mut out = String::from_str("NeoDOS v");
        out.append(info.version.as_str());
        out.append("\n\n=== Boot Phases ===\n");
        push_indented(&mut out, &info.boot_phases);
        out.append("\n=== Subsystems ===\n");
        push_pairs(&mut out, &info.subsystems, true);
        assert(info.subsystems@.map_values(|e: (&str, &str)| (e.0@, e.1@)) =~= spec_subsystems());
        assert(info.boot_phases@.map_values(|s: &str| s@) =~= spec_boot_phases());
        out
    }

    /// The text of `boot_phases`.
    pub fn boot_phases(&self) -> (r: String)
        ensures
            r@ == boot_phases_text(),
    {
        let info = get_kernel_info(None);
        let mut out = String::from_str("Boot Phases:\n");
        push_indented(&mut out, &info.boot_phases);
        assert(info.boot_phases@.map_values(|s: &str| s@) =~= spec_boot_phases());
        out
    }

    /// The text of `check_consistency`.
    pub fn check_consistency(&self) -> (r: String)
        ensures
            r@ == consistency_text(),
    {
        let mut out = String::from_str("=== Consistency Check ===\n");
        let issues = check_invariants();
        let mut i: usize = 0;
        while i < issues.len()
            invariant
                issues@.len() == 1,
                issues@[0].severity == Severity::Info,
                issues@[0].category@ == "invariants"@,
                issues@[0].message@ == decimal(spec_invariants().len()) + " architectural invariants defined"@,
                i <= 1,
                i == 0 ==> out@ == "=== Consistency Check ===\n"@,
                i == 1 ==> out@ == "=== Consistency Check ===\n"@ + "["@ + "INFO"@ + "] "@ + "invariants"@ + ": "@
                    + decimal(spec_invariants().len()) + " architectural invariants defined"@ + "\n"@,
            decreases 1 - i,
        {
            let issue = &issues[i];
            let sev = match issue.severity {
                Severity::Error => "ERROR",
                Severity::Warning => "WARN",
                Severity::Info => "INFO",
            };
            out.append("[");
            out.append(sev);
            out.append("] ");
            out.append(issue.category.as_str());
            out.append(": ");
            out.append(issue.message.as_str());
            out.append("\n");
            i = i + 1;
        }
        let table = invariants();
        out.append("\nInvariants (");
        let n = u64_to_string(table.len() as u64);
        out.append(n.as_str());
        out.append("):\n");
        push_pairs(&mut out, &table, false);
        assert(table@.map_values(|e: (&str, &str)| (e.0@, e.1@)) =~= spec_invariants());
        out
    }

    /// The text of `check_abi_compatibility`; each number is cut to 16 bits.
    pub fn check_abi_compatibility(&self, abi_min: u64, abi_target: u64, abi_max: u64) -> (r: String)
        ensures
            r@ == abi_text(abi_min, abi_target, abi_max),
    {
        let min = abi_min as u16;
        let target = abi_target as u16;
        let max = abi_max as u16;
        let driver = AbiVersion { min, target, max };
        let result = check_nem_abi(&driver);
        let mut out = String::from_str("Driver ABI: min=");
        let a = u64_to_string(min as u64);
        out.append(a.as_str());
        out.append(", target=");
        let b = u64_to_string(target as u64);
        out.append(b.as_str());
        out.append(", max=");
        let c = u64_to_string(max as u64);
        out.append(c.as_str());
        out.append("\nKernel ABI: ");
        let k = u64_to_string(KERNEL_ABI_VERSION as u64);
        out.append(k.as_str());
        out.append("\n");
        let f = format_compatibility(&result);
        out.append(f.as_str());
        out
    }

    /// The text of `search_symbol`: at most `max_results` symbols named `query`.
    pub fn search_symbol(&self, query: &str, max_results: usize) -> (r: String)
        ensures
            r@ == search_text(self.db@, query@, max_results),
    {
        let results = search_symbols(&self.db, query, max_results);
        let ghost found = ids_to_symbols(self.db@.symbols, list_or_empty(self.db@.name_index, lowercase(query@)));
        let ghost n = results@.len();
        if results.len() == 0 {
            let mut out = String::from_str("No results for '");
            out.append(query);
            out.append("'");
            return out;
        }
        let ghost want = found.take(n as int).map_values(|s: crate::database::SymbolView| symbol_location_text(s));
        assert(texts_of(results@) =~= want);
        let mut out = String::new();
        let mut i: usize = 0;
        assert(texts_of(results@).take(0) =~= Seq::<Seq<char>>::empty());
        while i < results.len()
            invariant
                i <= results@.len(),
                out@ == joined(texts_of(results@).take(i as int), "\n"@),
            decreases results@.len() - i,
        {
            if i > 0 {
                out.append("\n");
            }
            out.append(results[i].as_str());
            proof {
                assert(texts_of(results@).take(i + 1) =~= texts_of(results@).take(i as int).push(results@[i as int]@));
                lemma_joined_push(texts_of(results@).take(i as int), "\n"@, results@[i as int]@);
            }
            i = i + 1;
        }
        assert(texts_of(results@).take(results@.len() as int) =~= texts_of(results@));
        out
    }

    /// The text of `get_build_errors` for the state of `kernel.elf`,
    /// `bootloader.efi` and `disk_image.img` under the root.
    pub fn get_build_errors(&self, kernel: Artifact, boot: Artifact, disk: Artifact) -> (r: String)
        ensures
            r@ == build_report(kernel, boot, disk),
    {
        let mut lines: Vec<String> = Vec::new();
        match kernel {
            Artifact::Missing => lines.push(String::from_str("✗ kernel.elf NOT FOUND")),
            Artifact::Present(Some(n)) => {
                let mut t = String::from_str("✓ kernel.elf (");
                let d = u64_to_string(n);
                t.append(d.as_str());
                t.append(" bytes)");
                lines.push(t);
            },
            Artifact::Present(None) => {},
        }
        match boot {
            Artifact::Missing => lines.push(String::from_str("✗ bootloader.efi NOT FOUND")),
            Artifact::Present(Some(n)) => {
                let mut t = String::from_str("✓ bootloader.efi (");
                let d = u64_to_string(n);
                t.append(d.as_str());
                t.append(" bytes)");
                lines.push(t);
            },
            Artifact::Present(None) => {},
        }
        match disk {
            Artifact::Missing => lines.push(String::from_str("⚠ disk_image.img not found")),
            Artifact::Present(Some(n)) => {
                let mut t = String::from_str("✓ disk_image.img (");
                let d = u64_to_string(n / 1024 / 1024);
                t.append(d.as_str());
                t.append(" MB)");
                lines.push(t);
            },
            Artifact::Present(None) => {},
        }
        let ks = match kernel {
            Artifact::Present(Some(n)) => n,
            _ => 0,
        };
        let bs = match boot {
            Artifact::Present(Some(n)) => n,
            _ => 0,
        };
        let ds = match disk {
            Artifact::Present(Some(n)) => n,
            _ => 0,
        };
        assert(texts_of(lines@) =~= artifact_line(kernel, "✓ kernel.elf ("@ + decimal(ks as nat) + " bytes)"@, "✗ kernel.elf NOT FOUND"@)
            + artifact_line(boot, "✓ bootloader.efi ("@ + decimal(bs as nat) + " bytes)"@, "✗ bootloader.efi NOT FOUND"@)
            + artifact_line(
            disk,
            "✓ disk_image.img ("@ + decimal((ds / 1024 / 1024) as nat) + " MB)"@,
            "⚠ disk_image.img not found"@,
        ));
        let mut out = String::new();
        let mut i: usize = 0;
        assert(texts_of(lines@).take(0) =~= Seq::<Seq<char>>::empty());
        while i < lines.len()
            invariant
                i <= lines@.len(),
                out@ == joined(texts_of(lines@).take(i as int), "\n"@),
            decreases lines@.len() - i,
        {
            if i > 0 {
                out.append("\n");
            }
            out.append(lines[i].as_str());
            proof {
                assert(texts_of(lines@).take(i + 1) =~= texts_of(lines@).take(i as int).push(lines@[i as int]@));
                lemma_joined_push(texts_of(lines@).take(i as int), "\n"@, lines@[i as int]@);
            }
            i = i + 1;
        }
        assert(texts_of(lines@).take(lines@.len() as int) =~= texts_of(lines@));
        out
    }

    /// The text of `list_loaded_modules`: `drivers` are the names of the
    /// directories under `drivers/` (`None` when that cannot be listed);
    /// `root_dirs` those of the directories under the root.
    pub fn list_loaded_modules(
        &self,
        category: &str,
        drivers: Option<&Vec<String>>,
        root_dirs: Option<&Vec<String>>,
    ) -> (r: String)
        ensures
            r@ == modules_text(
                category@,
                match drivers {
                    Some(d) => Some(texts_of(d@)),
                    None => None,
                },
                match root_dirs {
                    Some(d) => Some(texts_of(d@)),
                    None => None,
                },
            ),
    {
        let cat = chars_of(category);
        let all = chars_of("all");
        let nem = chars_of("nem");
        let dll = chars_of("dll");
        let is_all = crate::indexer::chars_eq(cat.as_slice(), all.as_slice());
        let mut out = String::new();
        if is_all || crate::indexer::chars_eq(cat.as_slice(), nem.as_slice()) {
            out.append("NEM Drivers:\n");
            if let Some(d) = drivers {
                let ghost start = out@;
                let mut i: usize = 0;
                assert(indented_lines(texts_of(d@).take(0)) =~= Seq::<Seq<char>>::empty());
                while i < d.len()
                    invariant
                        i <= d@.len(),
                        out@ == start + concat_all(indented_lines(texts_of(d@).take(i as int))),
                    decreases d@.len() - i,
                {
                    out.append("  ");
                    out.append(d[i].as_str());
                    out.append("\n");
                    proof {
                        assert(indented_lines(texts_of(d@).take(i + 1)) =~= indented_lines(texts_of(d@).take(i as int)).push(
                            "  "@ + d@[i as int]@ + "\n"@,
                        ));
                        lemma_concat_all_push(indented_lines(texts_of(d@).take(i as int)), "  "@ + d@[i as int]@ + "\n"@);
                    }
                    i = i + 1;
                }
                assert(texts_of(d@).take(d@.len() as int) =~= texts_of(d@));
            }
        }
        let ghost nem_part = out@;
        if is_all || crate::indexer::chars_eq(cat.as_slice(), dll.as_slice()) {
            out.append("\nNXL Libraries:\n");
            if let Some(d) = root_dirs {
                let ghost start = out@;
                let lib = chars_of("lib");
                let nxl = chars_of("-nxl");
                let mut i: usize = 0;
                assert(texts_of(d@).take(0) =~= Seq::<Seq<char>>::empty());
                while i < d.len()
                    invariant
                        i <= d@.len(),
                        lib@ == "lib"@,
                        nxl@ == "-nxl"@,
                        out@ == start + nxl_lines(texts_of(d@).take(i as int)),
                    decreases d@.len() - i,
                {
                    assert(texts_of(d@).take(i + 1).drop_last() =~= texts_of(d@).take(i as int));
                    let name = chars_of(d[i].as_str());
                    if starts_with(name.as_slice(), lib.as_slice()) && ends_with(name.as_slice(), nxl.as_slice()) {
                        out.append("  ");
                        out.append(d[i].as_str());
                        out.append("\n");
                    }
                    i = i + 1;
                }
                assert(texts_of(d@).take(d@.len() as int) =~= texts_of(d@));
            }
        }
        if out.unicode_len() == 0 {
            out.append("No modules found.\n");
        }
        proof {
            reveal_strlit("all");
            reveal_strlit("nem");
            reveal_strlit("dll");
            reveal_strlit("NEM Drivers:\n");
            reveal_strlit("\nNXL Libraries:\n");
        }
        out
    }

    /// The text of `memory_layout`.
    pub fn memory_layout(&self) -> (r: String)
        ensures
            r@ == memory_layout_text(),
    {
        String::from_str("Kernel Memory Layout:\n0x00000000 - 0x00001000: Null page (captures null derefs)\n0x00001000 - 0x00100000: Bootloader + BootInfo\n0x00100000 - 0x00400000: Kernel code + data\n0x00400000 - 0x01000000: Kernel heap (buddy + slab)\n0x01000000 - 0x04000000: Page tables + MMIO\n0x04000000 - 0x10000000: NEM isolation regions (16×16MB)\n0x10000000 - 0x20000000: NXL shared libraries\n0x20000000 - 0x40000000: User address space (Ring 3)\n\nAllocators:\nBuddy: power-of-2, bitmap, max 4 GB\nSlab: per-size caches (32B, 64B, 128B, 256B, 512B, 1KB, 2KB, 4KB)\nLinked-list: fallback for large allocations")
    }

    /// The text of `security_info`.
    pub fn security_info(&self) -> (r: String)
        ensures
            r@ == security_text(),
    {
        String::from_str("Security Reference Monitor:\n- SID: Security Identifier (S-1-5-21-{rid})\n- Token: integrity_level + creation_time + group SIDs\n- ACL: Discretionary + System ACL\n- SAM: built-in Administrator (500) + Guest (501)\n- SeAccessCheck: object permission validation\n- Integrity levels: Untrusted(0), Low(1), Medium(2), High(3), System(4)")
    }

    /// The text of `scheduler_info`.
    pub fn scheduler_info(&self) -> (r: String)
        ensures
            r@ == scheduler_text(),
    {
        String::from_str("Scheduler:\n- Priority levels: 0 (idle) .. 31 (realtime)\n- Per-CPU run queues with work stealing\n- SMP: IPI, TLB shootdown\n- Timeslice: ~30ms default\n- Aging: priority boost after wait\n- KWait: blocking engine (events, timers, I/O)\n- DPC: Deferred Procedure Calls\n- APC: Asynchronous Procedure Calls")
    }

    /// The text of `ipc_info`.
    pub fn ipc_info(&self) -> (r: String)
        ensures
            r@ == ipc_text(),
    {
        String::from_str("IPC Subsystem:\n- Pipes: ring buffer, 4KB×16 slots, zero-copy (planned)\n- IRP: I/O Request Packets, pool-allocated\n- Work queue: kernel worker thread pool\n- Event Bus: centralized, priority-ordered, typed events\n- Handles: Ob handle table, per-process")
    }
}


/// The arguments of a tool call that the tools read; each is `None` where
/// the call does not give it, or gives a value of another type.
#[derive(Debug, Clone)]
pub struct ToolArgs {
    pub query: Option<String>,
    pub max_results: Option<u64>,
    pub category: Option<String>,
    pub abi_min: Option<u64>,
    pub abi_target: Option<u64>,
    pub abi_max: Option<u64>,
}

/// What the tools read under the workspace root: the text of `AGENTS.md`,
/// the state of the three build artifacts, and the names of the directories
/// under `drivers/` and under the root (`None` where they cannot be read).
#[derive(Debug, Clone)]
pub struct ToolInputs {
    pub agents: Option<String>,
    pub kernel: Artifact,
    pub boot: Artifact,
    pub disk: Artifact,
    pub drivers: Option<Vec<String>>,
    pub root_dirs: Option<Vec<String>>,
}

pub open spec fn text_or(o: Option<String>, default: Seq<char>) -> Seq<char> {
    match o {
        Some(s) => s@,
        None => default,
    }
}

pub open spec fn number_or(o: Option<u64>, default: u64) -> u64 {
    match o {
        Some(n) => n,
        None => default,
    }
}

pub open spec fn opt_texts(o: Option<Vec<String>>) -> Option<Seq<Seq<char>>> {
    match o {
        Some(v) => Some(texts_of(v@)),
        None => None,
    }
}

/// The answer of the tool `name`: a missing query is empty, a missing
/// `max_results` is 30, a missing category is `all`, and a missing ABI
/// number is 0. A name that no tool has is answered as unknown.
pub open spec fn tool_text(db: crate::database::DbView, name: Seq<char>, args: ToolArgs, inputs: ToolInputs) -> Seq<char> {
    let agents = opt_text(inputs.agents);
    if name == "kernel_index"@ {
        kernel_index_text(agents)
    } else if name == "search_symbol"@ {
        search_text(db, text_or(args.query, ""@), number_or(args.max_results, 30) as usize)
    } else if name == "get_kernel_architecture"@ {
        architecture_text(agents)
    } else if name == "get_build_errors"@ {
        build_report(inputs.kernel, inputs.boot, inputs.disk)
    } else if name == "list_loaded_modules"@ {
        modules_text(text_or(args.category, "all"@), opt_texts(inputs.drivers), opt_texts(inputs.root_dirs))
    } else if name == "check_abi_compatibility"@ {
        abi_text(number_or(args.abi_min, 0), number_or(args.abi_target, 0), number_or(args.abi_max, 0))
    } else if name == "check_consistency"@ {
        consistency_text()
    } else if name == "boot_phases"@ {
        boot_phases_text()
    } else if name == "memory_layout"@ {
        memory_layout_text()
    } else if name == "security_info"@ {
        security_text()
    } else if name == "scheduler_info"@ {
        scheduler_text()
    } else if name == "ipc_info"@ {
        ipc_text()
    } else {
        "Unknown tool: "@ + name
    }
}

fn text_arg<'a>(o: &'a Option<String>, default: &'a str) -> (r: &'a str)
    ensures
        r@ == text_or(*o, default@),
{
    match o {
        Some(s) => s.as_str(),
        None => default,
    }
}

fn number_arg(o: Option<u64>, default: u64) -> (r: u64)
    ensures
        r == number_or(o, default),
{
    match o {
        Some(n) => n,
        None => default,
    }
}

fn opt_str(o: &Option<String>) -> (r: Option<&str>)
    ensures
        opt_text_of(r) == opt_text(*o),
{
    match o {
        Some(s) => Some(s.as_str()),
        None => None,
    }
}

fn opt_list(o: &Option<Vec<String>>) -> (r: Option<&Vec<String>>)
    ensures
        match r {
            Some(d) => Some(texts_of(d@)),
            None => None::<Seq<Seq<char>>>,
        } == opt_texts(*o),
{
    match o {
        Some(v) => Some(v),
        None => None,
    }
}

impl McpTools {
    /// Runs the tool `name` on the arguments of the call and on what was
    /// read under the root.
    pub fn run_tool(&self, name: &str, args: &ToolArgs, inputs: &ToolInputs) -> (r: String)
        ensures
            r@ == tool_text(self.db@, name@, *args, *inputs),
    {
        let n = chars_of(name);
        let agents = opt_str(&inputs.agents);
        if is(&n, "kernel_index") {
            self.kernel_index(agents)
        } else if is(&n, "search_symbol") {
            let max = number_arg(args.max_results, 30);
            self.search_symbol(text_arg(&args.query, ""), max as usize)
        } else if is(&n, "get_kernel_architecture") {
            self.get_kernel_architecture(agents)
        } else if is(&n, "get_build_errors") {
            self.get_build_errors(inputs.kernel, inputs.boot, inputs.disk)
        } else if is(&n, "list_loaded_modules") {
            self.list_loaded_modules(
                text_arg(&args.category, "all"),
                opt_list(&inputs.drivers),
                opt_list(&inputs.root_dirs),
            )
        } else if is(&n, "check_abi_compatibility") {
            self.check_abi_compatibility(
                number_arg(args.abi_min, 0),
                number_arg(args.abi_target, 0),
                number_arg(args.abi_max, 0),
            )
        } else if is(&n, "check_consistency") {
            self.check_consistency()
        } else if is(&n, "boot_phases") {
            self.boot_phases()
        } else if is(&n, "memory_layout") {
            self.memory_layout()
        } else if is(&n, "security_info") {
            self.security_info()
        } else if is(&n, "scheduler_info") {
            self.scheduler_info()
        } else if is(&n, "ipc_info") {
            self.ipc_info()
        } else {
            let mut out = String::from_str("Unknown tool: ");
            out.append(name);
            out
        }
    }
}

/// The tools, in the order they are listed: name, description and input schema.
pub open spec fn tool_table() -> Seq<ToolSpecView> {
    seq![
        ToolSpecView {
            name: "kernel_index"@,
            description: "List all kernel source files with line counts, grouped by subsystem"@,
            input_schema: "{\"type\":\"object\",\"properties\":{\"format\":{\"type\":\"string\",\"enum\":[\"tree\",\"summary\"],\"default\":\"tree\"}}}"@,
        },
        ToolSpecView {
            name: "search_symbol"@,
            description: "Search for function, struct, trait, or const definitions in kernel source"@,
            input_schema: "{\"type\":\"object\",\"properties\":{\"query\":{\"type\":\"string\"},\"max_results\":{\"type\":\"integer\",\"default\":30}},\"required\":[\"query\"]}"@,
        },
        ToolSpecView {
            name: "get_kernel_architecture"@,
            description: "Return kernel memory layout, boot phase sequence, subsystem boundaries"@,
            input_schema: "{\"type\":\"object\",\"properties\":{}}"@,
        },
        ToolSpecView {
            name: "get_build_errors"@,
            description: "Check for build issues: missing artifacts, ABI mismatches"@,
            input_schema: "{\"type\":\"object\",\"properties\":{}}"@,
        },
        ToolSpecView {
            name: "list_loaded_modules"@,
            description: "List NEM drivers and NXLs found in build artifacts"@,
            input_schema: "{\"type\":\"object\",\"properties\":{\"category\":{\"type\":\"string\",\"enum\":[\"all\",\"nem\",\"dll\"],\"default\":\"all\"}}}"@,
        },
        ToolSpecView {
            name: "check_abi_compatibility"@,
            description: "Check ABI compatibility between a NEM driver and the kernel"@,
            input_schema: "{\"type\":\"object\",\"properties\":{\"abi_min\":{\"type\":\"integer\"},\"abi_target\":{\"type\":\"integer\"},\"abi_max\":{\"type\":\"integer\"}},\"required\":[\"abi_min\",\"abi_target\",\"abi_max\"]}"@,
        },
        ToolSpecView {
            name: "check_consistency"@,
            description: "Validate architectural consistency: code, docs, artifacts, invariants"@,
            input_schema: "{\"type\":\"object\",\"properties\":{\"targets\":{\"type\":\"string\",\"enum\":[\"all\",\"code\",\"docs\",\"artifacts\",\"invariants\"],\"default\":\"all\"}}}"@,
        },
        ToolSpecView {
            name: "boot_phases"@,
            description: "Describe kernel boot phases and initialization sequence"@,
            input_schema: "{\"type\":\"object\",\"properties\":{}}"@,
        },
        ToolSpecView {
            name: "memory_layout"@,
            description: "Show kernel memory layout: regions, allocators, page tables"@,
            input_schema: "{\"type\":\"object\",\"properties\":{}}"@,
        },
        ToolSpecView {
            name: "security_info"@,
            description: "Show security subsystem: SIDs, tokens, ACL structure"@,
            input_schema: "{\"type\":\"object\",\"properties\":{}}"@,
        },
        ToolSpecView {
            name: "scheduler_info"@,
            description: "Show scheduler state: processes, threads, run queues, priorities"@,
            input_schema: "{\"type\":\"object\",\"properties\":{}}"@,
        },
        ToolSpecView {
            name: "ipc_info"@,
            description: "Show IPC subsystem: pipes, IRP pool, work queue, event bus"@,
            input_schema: "{\"type\":\"object\",\"properties\":{}}"@,
        },
    ]
}

fn tool(name: &str, description: &str, input_schema: &str) -> (r: ToolSpec)
    ensures
        r@ == (ToolSpecView { name: name@, description: description@, input_schema: input_schema@ }),
{
    ToolSpec {
        name: String::from_str(name),
        description: String::from_str(description),
        input_schema: String::from_str(input_schema),
    }
}

impl McpTools {
    /// Every tool, in the order they are listed.
    pub fn all_tools(&self) -> (r: Vec<ToolSpec>)
        ensures
            tool_views(r@) == tool_table(),
    {
        let mut v: Vec<ToolSpec> = Vec::new();
        v.push(tool(
            "kernel_index",
            "List all kernel source files with line counts, grouped by subsystem",
            "{\"type\":\"object\",\"properties\":{\"format\":{\"type\":\"string\",\"enum\":[\"tree\",\"summary\"],\"default\":\"tree\"}}}",
        ));
        v.push(tool(
            "search_symbol",
            "Search for function, struct, trait, or const definitions in kernel source",
            "{\"type\":\"object\",\"properties\":{\"query\":{\"type\":\"string\"},\"max_results\":{\"type\":\"integer\",\"default\":30}},\"required\":[\"query\"]}",
        ));
        v.push(tool(
            "get_kernel_architecture",
            "Return kernel memory layout, boot phase sequence, subsystem boundaries",
            "{\"type\":\"object\",\"properties\":{}}",
        ));
        v.push(tool(
            "get_build_errors",
            "Check for build issues: missing artifacts, ABI mismatches",
            "{\"type\":\"object\",\"properties\":{}}",
        ));
        v.push(tool(
            "list_loaded_modules",
            "List NEM drivers and NXLs found in build artifacts",
            "{\"type\":\"object\",\"properties\":{\"category\":{\"type\":\"string\",\"enum\":[\"all\",\"nem\",\"dll\"],\"default\":\"all\"}}}",
        ));
        v.push(tool(
            "check_abi_compatibility",
            "Check ABI compatibility between a NEM driver and the kernel",
            "{\"type\":\"object\",\"properties\":{\"abi_min\":{\"type\":\"integer\"},\"abi_target\":{\"type\":\"integer\"},\"abi_max\":{\"type\":\"integer\"}},\"required\":[\"abi_min\",\"abi_target\",\"abi_max\"]}",
        ));
        v.push(tool(
            "check_consistency",
            "Validate architectural consistency: code, docs, artifacts, invariants",
            "{\"type\":\"object\",\"properties\":{\"targets\":{\"type\":\"string\",\"enum\":[\"all\",\"code\",\"docs\",\"artifacts\",\"invariants\"],\"default\":\"all\"}}}",
        ));
        v.push(tool(
            "boot_phases",
            "Describe kernel boot phases and initialization sequence",
            "{\"type\":\"object\",\"properties\":{}}",
        ));
        v.push(tool(
            "memory_layout",
            "Show kernel memory layout: regions, allocators, page tables",
            "{\"type\":\"object\",\"properties\":{}}",
        ));
        v.push(tool(
            "security_info",
            "Show security subsystem: SIDs, tokens, ACL structure",
            "{\"type\":\"object\",\"properties\":{}}",
        ));
        v.push(tool(
            "scheduler_info",
            "Show scheduler state: processes, threads, run queues, priorities",
            "{\"type\":\"object\",\"properties\":{}}",
        ));
        v.push(tool(
            "ipc_info",
            "Show IPC subsystem: pipes, IRP pool, work queue, event bus",
            "{\"type\":\"object\",\"properties\":{}}",
        ));
        assert(tool_views(v@) =~= tool_table());
        v
    }
}

} // verus!
