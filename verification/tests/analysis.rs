use neodos_toolkit::analysis::abi::{check_nem_abi, format_compatibility, AbiCompatibility, AbiVersion, KERNEL_ABI_VERSION};
use neodos_toolkit::analysis::consistency::{check_invariants, invariants, Severity};
use neodos_toolkit::analysis::kernel::{get_kernel_info, search_symbols, version_from_agents};
use neodos_toolkit::database::{fresh_symbol_id, Database, Position, Range, Symbol, SymbolKind};

#[test]
fn abi_ranges() {
    assert_eq!(KERNEL_ABI_VERSION, 8);
    assert_eq!(check_nem_abi(&AbiVersion { min: 1, target: 8, max: 10 }), AbiCompatibility::Compatible);
    assert_eq!(check_nem_abi(&AbiVersion { min: 8, target: 8, max: 8 }), AbiCompatibility::Compatible);
    assert_eq!(
        check_nem_abi(&AbiVersion { min: 9, target: 9, max: 12 }),
        AbiCompatibility::TooOld { required: 9, available: 8 }
    );
    assert_eq!(
        check_nem_abi(&AbiVersion { min: 1, target: 2, max: 7 }),
        AbiCompatibility::TooNew { required: 7, available: 8 }
    );
}

#[test]
fn abi_report_texts() {
    assert_eq!(format_compatibility(&AbiCompatibility::Compatible), "✓ Compatible");
    assert_eq!(
        format_compatibility(&AbiCompatibility::TooOld { required: 9, available: 8 }),
        "✗ Driver requires ABI ≥9, kernel has 8"
    );
    assert_eq!(
        format_compatibility(&AbiCompatibility::TooNew { required: 7, available: 8 }),
        "✗ Driver requires ABI ≤7, kernel has 8"
    );
}

#[test]
fn invariant_table_and_check() {
    let t = invariants();
    assert_eq!(t.len(), 10);
    assert_eq!(t[0].0, "INV-1");
    let issues = check_invariants();
    assert_eq!(issues.len(), 1);
    assert_eq!(issues[0].severity, Severity::Info);
    assert_eq!(issues[0].category, "invariants");
    assert_eq!(issues[0].message, "10 architectural invariants defined");
}

#[test]
fn kernel_version_from_agents() {
    let text = "# NeoDOS\n  **Version:** v0.39.2  \nmore";
    assert_eq!(version_from_agents(Some(text), true), "0.39.2");
    assert_eq!(version_from_agents(Some(text), false), "dev");
    assert_eq!(version_from_agents(Some("**Version:** v1.0\n"), false), "1.0");
    assert_eq!(version_from_agents(None, true), "dev");
    let info = get_kernel_info(Some("**Version:** v2"));
    assert_eq!(info.version, "2");
    assert_eq!(info.boot_phases.len(), 5);
    assert_eq!(info.subsystems.len(), 10);
    assert_eq!(info.subsystems[0].0, "scheduler");
}

#[test]
fn symbol_search_lines() {
    let mut next = 1u64;
    let mut db = Database::new();
    for (name, line) in [("sys_write", 4u32), ("SYS_WRITE", 9u32)] {
        let r = Range { start: Position { line, character: 0 }, end: Position { line, character: 3 } };
        db.insert_symbol(Symbol {
            id: fresh_symbol_id(&mut next),
            name: name.to_string(),
            kind: SymbolKind::FUNCTION,
            neodos_kind: None,
            file: "k.rs".to_string(),
            range: r,
            selection_range: r,
            parent: None,
            children: vec![],
            documentation: None,
            detail: None,
            signature: None,
            visibility: None,
            attributes: vec![],
            is_deprecated: false,
            is_test: false,
            syscall_number: None,
            capabilities: None,
        });
    }
    assert_eq!(search_symbols(&db, "Sys_Write", 10), vec!["k.rs:5:sys_write".to_string(), "k.rs:10:SYS_WRITE".to_string()]);
    assert_eq!(search_symbols(&db, "sys_write", 1).len(), 1);
    assert!(search_symbols(&db, "missing", 10).is_empty());
}
