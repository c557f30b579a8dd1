use neodos_toolkit::database::Database;
use neodos_toolkit::mcp::server::{is_neodos_root, reply_for, request_from_line, LineOutcome, McpServer, McpStep, Reply};
use neodos_toolkit::mcp::tools::{Artifact, McpTools, ToolArgs, ToolInputs};

fn tools() -> McpTools {
    McpTools::new("/neodos".to_string(), Database::new())
}

#[test]
fn kernel_index_text() {
    let t = tools().kernel_index(Some("**Version:** v0.40\n"));
    assert!(t.starts_with("NeoDOS v0.40\n=== Kernel Architecture ===\n  scheduler: SMP priority scheduler with work stealing\n"));
    assert_eq!(t.lines().count(), 12);
    let dev = tools().kernel_index(None);
    assert!(dev.starts_with("NeoDOS vdev\n"));
}

#[test]
fn architecture_pads_subsystem_names() {
    let t = tools().get_kernel_architecture(None);
    assert!(t.starts_with("NeoDOS vdev\n\n=== Boot Phases ===\n  Phase 0: Early boot (GDT, IDT, CPU init)\n"));
    assert!(t.contains("\n=== Subsystems ===\n  scheduler       SMP priority scheduler with work stealing\n"));
    assert!(t.contains("  fs              NeoFS v2 + VFS with mount support\n"));
}

#[test]
fn boot_phases_and_consistency() {
    let b = tools().boot_phases();
    assert!(b.starts_with("Boot Phases:\n  Phase 0"));
    assert_eq!(b.lines().count(), 6);
    let c = tools().check_consistency();
    assert!(c.starts_with("=== Consistency Check ===\n[INFO] invariants: 10 architectural invariants defined\n\nInvariants (10):\n  INV-1: "));
}

#[test]
fn abi_tool_cuts_to_sixteen_bits() {
    let t = tools().check_abi_compatibility(9, 9, 65536 + 12);
    assert_eq!(t, "Driver ABI: min=9, target=9, max=12\nKernel ABI: 8\n✗ Driver requires ABI ≥9, kernel has 8");
    let ok = tools().check_abi_compatibility(1, 8, 10);
    assert!(ok.ends_with("✓ Compatible"));
}

#[test]
fn search_without_results() {
    assert_eq!(tools().search_symbol("nothing", 30), "No results for 'nothing'");
}

#[test]
fn build_report() {
    let t = tools().get_build_errors(Artifact::Present(Some(1234)), Artifact::Missing, Artifact::Present(Some(3 * 1024 * 1024 + 5)));
    assert_eq!(t, "✓ kernel.elf (1234 bytes)\n✗ bootloader.efi NOT FOUND\n✓ disk_image.img (3 MB)");
    let t = tools().get_build_errors(Artifact::Present(None), Artifact::Present(Some(1)), Artifact::Missing);
    assert_eq!(t, "✓ bootloader.efi (1 bytes)\n⚠ disk_image.img not found");
}

#[test]
fn module_listing() {
    let drivers = vec!["e1000".to_string(), "ahci".to_string()];
    let dirs = vec!["libc-nxl".to_string(), "drivers".to_string(), "libgfx-nxl".to_string(), "lib".to_string()];
    let all = tools().list_loaded_modules("all", Some(&drivers), Some(&dirs));
    assert_eq!(all, "NEM Drivers:\n  e1000\n  ahci\n\nNXL Libraries:\n  libc-nxl\n  libgfx-nxl\n");
    let nem = tools().list_loaded_modules("nem", None, Some(&dirs));
    assert_eq!(nem, "NEM Drivers:\n");
    assert_eq!(tools().list_loaded_modules("other", Some(&drivers), Some(&dirs)), "No modules found.\n");
}

#[test]
fn info_tools_are_fixed_texts() {
    assert!(tools().memory_layout().starts_with("Kernel Memory Layout:\n0x00000000 - 0x00001000"));
    assert!(tools().memory_layout().contains("\n\nAllocators:\nBuddy: power-of-2"));
    assert!(tools().security_info().starts_with("Security Reference Monitor:\n- SID"));
    assert!(tools().scheduler_info().ends_with("- APC: Asynchronous Procedure Calls"));
    assert!(tools().ipc_info().starts_with("IPC Subsystem:\n- Pipes"));
}

#[test]
fn server_registers_and_dispatches() {
    let mut s = McpServer::new("neodos-mcp", "0.40");
    assert_eq!(s.tool_count(), 0);
    s.register_all_tools(&tools());
    assert_eq!(s.tool_count(), 12);
    assert_eq!(s.tools()[0].name, "kernel_index");
    assert_eq!(s.find_tool(Some("ipc_info")), Ok(11));
    assert_eq!(s.find_tool(Some("nope")), Err("Unknown tool: nope".to_string()));
    assert_eq!(s.find_tool(None), Err("Missing tool name".to_string()));
    assert!(matches!(s.dispatch("initialize", true), McpStep::Initialize));
    assert!(!s.is_initialized());
    assert!(matches!(s.dispatch("notifications/initialized", false), McpStep::Empty));
    assert!(s.is_initialized());
    assert!(matches!(s.dispatch("tools/call", true), McpStep::ToolsCall));
    match s.dispatch("resources/list", true) {
        McpStep::Fail { code, message } => {
            assert_eq!(code, -32601);
            assert_eq!(message, "Method not found: resources/list");
        },
        _ => panic!("failure expected"),
    }
    assert!(matches!(s.dispatch("resources/list", false), McpStep::Ignore));
    assert_eq!(reply_for(true, true), Reply::Result);
    assert_eq!(reply_for(false, true), Reply::Nothing);
    assert_eq!(reply_for(false, false), Reply::Error);
    for t in s.tools() {
        assert!(serde_json::from_str::<serde_json::Value>(&t.input_schema).is_ok());
    }
}

#[test]
fn root_detection() {
    assert!(is_neodos_root(Some("# NeoDOS agents"), false));
    assert!(!is_neodos_root(Some("# something"), false));
    assert!(is_neodos_root(None, true));
    assert!(!is_neodos_root(None, false));
}

fn no_args() -> ToolArgs {
    ToolArgs { query: None, max_results: None, category: None, abi_min: None, abi_target: None, abi_max: None }
}

fn inputs() -> ToolInputs {
    ToolInputs {
        agents: Some("**Version:** v0.41\n".to_string()),
        kernel: Artifact::Missing,
        boot: Artifact::Present(Some(7)),
        disk: Artifact::Missing,
        drivers: Some(vec!["ahci".to_string()]),
        root_dirs: Some(vec!["libc-nxl".to_string(), "src".to_string()]),
    }
}

#[test]
fn run_tool_dispatches_with_defaults() {
    let t = tools();
    let i = inputs();
    assert_eq!(t.run_tool("kernel_index", &no_args(), &i), t.kernel_index(Some("**Version:** v0.41\n")));
    assert!(t.run_tool("kernel_index", &no_args(), &i).starts_with("NeoDOS v0.41\n"));
    assert_eq!(t.run_tool("search_symbol", &no_args(), &i), "No results for ''");
    let mut q = no_args();
    q.query = Some("vmm".to_string());
    assert_eq!(t.run_tool("search_symbol", &q, &i), "No results for 'vmm'");
    assert_eq!(t.run_tool("get_build_errors", &no_args(), &i), "✗ kernel.elf NOT FOUND\n✓ bootloader.efi (7 bytes)\n⚠ disk_image.img not found");
    assert_eq!(t.run_tool("list_loaded_modules", &no_args(), &i), "NEM Drivers:\n  ahci\n\nNXL Libraries:\n  libc-nxl\n");
    let mut c = no_args();
    c.category = Some("dll".to_string());
    assert_eq!(t.run_tool("list_loaded_modules", &c, &i), "\nNXL Libraries:\n  libc-nxl\n");
    assert_eq!(t.run_tool("check_abi_compatibility", &no_args(), &i), t.check_abi_compatibility(0, 0, 0));
    let mut a = no_args();
    a.abi_min = Some(1);
    a.abi_target = Some(8);
    a.abi_max = Some(10);
    assert!(t.run_tool("check_abi_compatibility", &a, &i).ends_with("✓ Compatible"));
    assert_eq!(t.run_tool("check_consistency", &no_args(), &i), t.check_consistency());
    assert_eq!(t.run_tool("boot_phases", &no_args(), &i), t.boot_phases());
    assert_eq!(t.run_tool("memory_layout", &no_args(), &i), t.memory_layout());
    assert_eq!(t.run_tool("security_info", &no_args(), &i), t.security_info());
    assert_eq!(t.run_tool("scheduler_info", &no_args(), &i), t.scheduler_info());
    assert_eq!(t.run_tool("ipc_info", &no_args(), &i), t.ipc_info());
    assert_eq!(t.run_tool("get_kernel_architecture", &no_args(), &i), t.get_kernel_architecture(Some("**Version:** v0.41\n")));
    assert_eq!(t.run_tool("format_disk", &no_args(), &i), "Unknown tool: format_disk");
}

#[test]
fn lines_are_read_as_requests() {
    match request_from_line(r#"{"jsonrpc":"2.0","id":"a","method":"tools/list"}"#) {
        LineOutcome::Request { method, id, params } => {
            assert_eq!(method, "tools/list");
            assert_eq!(id, Some(serde_json::Value::from("a")));
            assert!(params.is_none());
        },
        _ => panic!("request expected"),
    }
    match request_from_line(r#"{"method":"notifications/initialized","params":{}}"#) {
        LineOutcome::Request { id, params, .. } => assert!(id.is_none() && params.is_some()),
        _ => panic!("notification expected"),
    }
    assert!(matches!(request_from_line(r#"{"id":1}"#), LineOutcome::Ignore));
    assert!(matches!(request_from_line(r#"{"method":null}"#), LineOutcome::Ignore));
    match request_from_line("not json") {
        LineOutcome::ParseError(m) => assert!(m.starts_with("Parse error: ") && m.len() > "Parse error: ".len()),
        _ => panic!("parse error expected"),
    }
}
