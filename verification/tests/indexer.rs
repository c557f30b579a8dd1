use neodos_toolkit::config::NeodosConfig;
use neodos_toolkit::database::{Database, NeodosItemKind, NeodosKind, SymbolKind};
use neodos_toolkit::indexer::{
    accept_discovered, entry_allowed, extract_impl_target, is_rust_source_name, extract_name, is_excluded, parse_mod_decl,
    parse_syscallnum_variant, Indexer, ParsedFile,
};

fn index_code(code: &str) -> ParsedFile {
    let mut next = 1u64;
    Indexer::parse_file("test.rs", code, &mut next)
}

fn chars(s: &str) -> Vec<char> {
    s.chars().collect()
}

#[test]
fn test_parse_function() {
    let p = index_code("pub fn sys_write(fd: u64, buf: &[u8]) -> u64 { 0 }");
    assert_eq!(p.symbols.len(), 1);
    assert_eq!(p.symbols[0].name, "sys_write");
}

#[test]
fn test_parse_struct() {
    let p = index_code("#[repr(C)]\npub struct BootInfo {\n    magic: u32,\n}");
    assert_eq!(p.symbols.len(), 1);
    assert_eq!(p.symbols[0].name, "BootInfo");
    assert_eq!(p.symbols[0].kind, SymbolKind::STRUCT);
}

#[test]
fn test_parse_enum() {
    let p = index_code("pub enum ThreadState { Ready, Running, Blocked, Terminated }");
    assert_eq!(p.symbols.len(), 1);
    assert_eq!(p.symbols[0].kind, SymbolKind::ENUM);
}

#[test]
fn test_parse_trait() {
    let p = index_code("pub trait FileSystem { fn read(&self) -> Result<(), ()>; }");
    assert_eq!(p.symbols.len(), 1);
    assert_eq!(p.symbols[0].kind, SymbolKind::INTERFACE);
}

#[test]
fn test_parse_const() {
    let p = index_code("pub const KERNEL_VERSION: &str = \"v0.39\";\nconst MAX: usize = 16;");
    assert_eq!(p.symbols.len(), 2);
    assert!(p.symbols.iter().all(|s| s.kind == SymbolKind::CONSTANT));
}

#[test]
fn test_syscall_detection() {
    let p = index_code("pub fn sys_exit(code: u64) -> ! { loop {} }");
    assert_eq!(p.neodos_items.len(), 1);
}

#[test]
fn test_cap_constants() {
    let p = index_code("pub const CAP_IRQ: u64 = 1 << 0;\npub const CAP_DMA: u64 = 1 << 1;");
    assert_eq!(p.neodos_items.len(), 2);
    assert!(p.neodos_items.iter().all(|i| i.name.starts_with("CAP_")));
}

#[test]
fn test_doc_comment_collection() {
    let p = index_code("/// Writes to console.\n/// Returns bytes written.\npub fn sys_write(fd: u64) -> u64 { 0 }");
    assert_eq!(p.symbols.len(), 1);
    let doc = p.symbols[0].documentation.as_deref().unwrap_or("");
    assert!(doc.contains("Writes to console"));
    assert!(doc.contains("Returns bytes written"));
}

#[test]
fn ids_are_taken_in_order_one_per_symbol() {
    let mut next = 100u64;
    let p = Indexer::parse_file("a.rs", "pub fn a() {}\nstruct B;\n// note\nconst C: u8 = 1;", &mut next);
    assert_eq!(p.symbols.len(), 3);
    assert_eq!(p.symbols[0].id.0, 100);
    assert_eq!(p.symbols[1].id.0, 101);
    assert_eq!(p.symbols[2].id.0, 102);
    assert_eq!(next, 103);
    assert!(p.references.is_empty());
}

#[test]
fn syscall_handler_gets_number_and_item() {
    let p = index_code("pub fn sys_write(fd: u64) -> u64 { 0 }");
    let s = &p.symbols[0];
    assert_eq!(s.syscall_number, Some(1));
    assert_eq!(s.neodos_kind, Some(NeodosKind::Syscall(1)));
    assert_eq!(p.neodos_items[0].kind, NeodosItemKind::SyscallHandler);
    assert_eq!(p.neodos_items[0].detail, "syscall #1: sys_write");
    assert_eq!(s.visibility.as_deref(), Some("pub"));
}

#[test]
fn impl_methods_and_targets() {
    let p = index_code("impl Scheduler {\n    pub fn tick(&mut self) {}\n}\nfn free() {}");
    let names: Vec<&str> = p.symbols.iter().map(|s| s.name.as_str()).collect();
    assert_eq!(names, vec!["Scheduler", "tick", "free"]);
    assert_eq!(p.symbols[0].kind, SymbolKind::OBJECT);
    assert_eq!(p.symbols[1].kind, SymbolKind::METHOD);
    assert_eq!(p.symbols[2].kind, SymbolKind::FUNCTION);
}

#[test]
fn module_and_macro_declarations() {
    let p = index_code("pub mod sched;\nmacro_rules! kprint {");
    assert_eq!(p.symbols.len(), 2);
    assert_eq!(p.symbols[0].name, "sched");
    assert_eq!(p.symbols[0].kind, SymbolKind::MODULE);
    assert_eq!(p.symbols[1].name, "kprint");
}

#[test]
fn boot_phase_function() {
    let p = index_code("fn phase_memory() {}");
    assert_eq!(p.symbols[0].neodos_kind, Some(NeodosKind::BootPhase));
    assert_eq!(p.neodos_items[0].kind, NeodosItemKind::BootPhaseFn);
    assert_eq!(p.symbols[0].visibility.as_deref(), Some("private"));
}

#[test]
fn exclude_patterns() {
    let ex = vec!["target/**".to_string(), ".git/**".to_string()];
    assert!(is_excluded("/w/target/debug/x.rs", &ex));
    assert!(!is_excluded("/w/src/main.rs", &ex));
    assert!(entry_allowed("good.rs", 1, "/w/good.rs", &ex));
    assert!(!entry_allowed(".hidden", 1, "/w/.hidden", &ex));
    assert!(entry_allowed(".hidden", 2, "/w/src/.hidden", &ex));
    assert!(!entry_allowed("target", 1, "/w/target/", &ex));
}

#[test]
fn discovery_stops_at_max_files() {
    let mut files = Vec::new();
    assert!(!accept_discovered(&mut files, "a.rs".to_string(), 2));
    assert!(accept_discovered(&mut files, "b.rs".to_string(), 2));
    assert_eq!(files, vec!["a.rs".to_string(), "b.rs".to_string()]);
}

#[test]
fn index_workspace_counts_symbols() {
    let indexer = Indexer::new(NeodosConfig::default());
    let mut db = Database::new();
    let mut next = 1u64;
    let a = Indexer::parse_file("a.rs", "fn a() {}\nfn b() {}", &mut next);
    let b = Indexer::parse_file("b.rs", "struct S;", &mut next);
    let files = vec!["a.rs".to_string(), "b.rs".to_string(), "c.rs".to_string()];
    let count = indexer.index_workspace(&mut db, &files, vec![("a.rs".to_string(), a), ("b.rs".to_string(), b)]);
    assert_eq!(count, 3);
    assert_eq!(db.all_files, files);
    assert_eq!(db.find_by_name("b").len(), 1);
    assert_eq!(db.document_symbols("a.rs").len(), 2);
}

#[test]
fn parallelism_defaults() {
    let mut cfg = NeodosConfig::default();
    let idx = Indexer::new(cfg.clone());
    assert_eq!(idx.parallelism(Some(8)), 8);
    assert_eq!(idx.parallelism(None), 4);
    cfg.indexing.threads = 3;
    let idx = Indexer::new(cfg);
    assert_eq!(idx.parallelism(Some(8)), 3);
}

#[test]
fn helper_extractors() {
    assert_eq!(parse_mod_decl(&chars("pub mod foo;")), Some(chars("foo")));
    assert_eq!(extract_name(&chars("pub struct Foo<T> {"), &chars("struct")), Some(chars("Foo")));
    assert_eq!(extract_impl_target(&chars("impl Display for Foo {")), Some(chars("Foo")));
    assert_eq!(parse_syscallnum_variant(&chars("Write = 1,")), Some((chars("Write"), 1)));
}

#[test]
fn index_workspace_lists_each_file() {
    let indexer = Indexer::new(NeodosConfig::default());
    let mut db = Database::new();
    let mut next = 1u64;
    let a = Indexer::parse_file("a.rs", "fn a() {}\nfn b() {}\nconst C: u8 = 1;", &mut next);
    let b = Indexer::parse_file("b.rs", "struct S;", &mut next);
    let a_ids: Vec<u64> = a.symbols.iter().map(|s| s.id.0).collect();
    let files = vec!["a.rs".to_string(), "b.rs".to_string(), "c.rs".to_string()];
    indexer.index_workspace(&mut db, &files, vec![("a.rs".to_string(), a), ("b.rs".to_string(), b)]);
    let listed: Vec<u64> = db.document_symbols("a.rs").iter().map(|s| s.id.0).collect();
    assert_eq!(listed, a_ids);
    assert_eq!(db.document_symbols("b.rs").len(), 1);
    assert!(db.document_symbols("c.rs").is_empty());
}

#[test]
fn rust_sources_by_name() {
    assert!(is_rust_source_name("main.rs"));
    assert!(is_rust_source_name("a.b.rs"));
    assert!(is_rust_source_name("..rs"));
    assert!(!is_rust_source_name(".rs"));
    assert!(!is_rust_source_name("rs"));
    assert!(!is_rust_source_name("main.rsx"));
    assert!(!is_rust_source_name("Cargo.toml"));
}
