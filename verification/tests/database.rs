use neodos_toolkit::database::{
    fresh_symbol_id, Database, FileIndex, NeodosItem, NeodosItemKind, NeodosKind, Position, Range, Reference,
    Symbol, SymbolId, SymbolKind,
};

fn make_range() -> Range {
    Range {
        start: Position { line: 0, character: 0 },
        end: Position { line: 0, character: 10 },
    }
}

fn make_sym(next: &mut u64, name: &str, kind: SymbolKind) -> Symbol {
    Symbol {
        id: fresh_symbol_id(next),
        name: name.to_string(),
        kind,
        neodos_kind: None,
        file: "test.rs".to_string(),
        range: make_range(),
        selection_range: make_range(),
        parent: None,
        children: Vec::new(),
        documentation: None,
        detail: None,
        signature: None,
        visibility: None,
        attributes: Vec::new(),
        is_deprecated: false,
        is_test: false,
        syscall_number: None,
        capabilities: None,
    }
}

#[test]
fn test_insert_and_lookup() {
    let mut next = 1u64;
    let mut db = Database::new();
    let s = make_sym(&mut next, "test_fn", SymbolKind::FUNCTION);
    let id = db.insert_symbol(s);
    assert!(db.lookup(&id).is_some());
    assert_eq!(db.lookup(&id).unwrap().name, "test_fn");
}

#[test]
fn test_find_by_name() {
    let mut next = 1u64;
    let mut db = Database::new();
    let s = make_sym(&mut next, "MyStruct", SymbolKind::STRUCT);
    db.insert_symbol(s);
    let found = db.find_by_name("mystruct");
    assert_eq!(found.len(), 1);
    assert_eq!(found[0].name, "MyStruct");
}

#[test]
fn test_find_by_prefix() {
    let mut next = 1u64;
    let mut db = Database::new();
    db.insert_symbol(make_sym(&mut next, "sys_write", SymbolKind::FUNCTION));
    db.insert_symbol(make_sym(&mut next, "sys_read", SymbolKind::FUNCTION));
    db.insert_symbol(make_sym(&mut next, "sys_exit", SymbolKind::FUNCTION));
    db.insert_symbol(make_sym(&mut next, "other", SymbolKind::VARIABLE));

    let found = db.find_by_prefix("sys_");
    assert_eq!(found.len(), 3);
}

#[test]
fn test_replace_file_index_removes_old() {
    let mut next = 1u64;
    let mut db = Database::new();
    let f = "replace.rs".to_string();
    let range = make_range();

    let mut gone = make_sym(&mut next, "gone", SymbolKind::FUNCTION);
    gone.file = f.clone();
    gone.range = range;
    gone.selection_range = range;
    let old = FileIndex { file: f.clone(), symbols: vec![gone], references: vec![], neodos_items: vec![] };
    db.replace_file_index(old);
    assert_eq!(db.find_by_name("gone").len(), 1);

    let mut new_one = make_sym(&mut next, "new_one", SymbolKind::FUNCTION);
    new_one.file = f.clone();
    let new = FileIndex { file: f.clone(), symbols: vec![new_one], references: vec![], neodos_items: vec![] };
    db.replace_file_index(new);
    assert_eq!(db.find_by_name("gone").len(), 0);
    assert_eq!(db.find_by_name("new_one").len(), 1);
}

#[test]
fn fresh_ids_count_up() {
    let mut next = 7u64;
    assert_eq!(fresh_symbol_id(&mut next), SymbolId(7));
    assert_eq!(fresh_symbol_id(&mut next), SymbolId(8));
    assert_eq!(next, 9);
}

#[test]
fn lookup_of_unknown_id_is_none() {
    let db = Database::new();
    assert!(db.lookup(&SymbolId(42)).is_none());
    assert!(db.find_by_name("nothing").is_empty());
    assert!(db.references_for(&SymbolId(42)).is_empty());
}

#[test]
fn child_is_recorded_under_its_parent() {
    let mut next = 1u64;
    let mut db = Database::new();
    let parent = make_sym(&mut next, "Thing", SymbolKind::OBJECT);
    let pid = db.insert_symbol(parent);
    let mut child = make_sym(&mut next, "method", SymbolKind::METHOD);
    child.parent = Some(pid);
    let cid = db.insert_symbol(child);
    assert_eq!(db.lookup(&pid).unwrap().children, vec![cid]);
}

#[test]
fn references_are_listed_in_order() {
    let mut db = Database::new();
    db.insert_reference(Reference { from: SymbolId(1), to: SymbolId(5) });
    db.insert_reference(Reference { from: SymbolId(1), to: SymbolId(3) });
    db.insert_reference(Reference { from: SymbolId(2), to: SymbolId(9) });
    assert_eq!(db.references_for(&SymbolId(1)), vec![SymbolId(5), SymbolId(3)]);
}

#[test]
fn innermost_symbol_at_position() {
    let mut next = 1u64;
    let mut db = Database::new();
    let mut outer = make_sym(&mut next, "Outer", SymbolKind::STRUCT);
    outer.range = Range { start: Position { line: 0, character: 0 }, end: Position { line: 10, character: 1 } };
    let mut inner = make_sym(&mut next, "inner", SymbolKind::METHOD);
    inner.range = Range { start: Position { line: 2, character: 4 }, end: Position { line: 4, character: 5 } };
    db.insert_symbol(outer);
    db.insert_symbol(inner);
    let at = db.find_at_position("test.rs", Position { line: 3, character: 0 });
    assert_eq!(at.len(), 2);
    let best = db.find_innermost_at_position("test.rs", Position { line: 3, character: 0 }).unwrap();
    assert_eq!(best.name, "inner");
    assert!(db.find_innermost_at_position("test.rs", Position { line: 11, character: 0 }).is_none());
    assert_eq!(db.document_symbols("test.rs").len(), 2);
}

#[test]
fn syscall_and_command_items_are_registered() {
    let mut next = 1u64;
    let mut db = Database::new();
    let mut s = make_sym(&mut next, "sys_write", SymbolKind::FUNCTION);
    s.neodos_kind = Some(NeodosKind::Syscall(1));
    let items = vec![
        NeodosItem { kind: NeodosItemKind::SyscallHandler, name: "SyscallNum::Write (1)".to_string(), detail: "syscall #1: Write".to_string() },
        NeodosItem { kind: NeodosItemKind::SyscallHandler, name: "SyscallNum::7 (spawn)".to_string(), detail: "syscall #7: spawn".to_string() },
        NeodosItem { kind: NeodosItemKind::ShellCommand, name: "dir".to_string(), detail: "List directory".to_string() },
        NeodosItem { kind: NeodosItemKind::DriverState, name: "Running".to_string(), detail: "DriverState variant".to_string() },
    ];
    db.replace_file_index(FileIndex { file: "test.rs".to_string(), symbols: vec![s], references: vec![], neodos_items: items });
    assert_eq!(db.syscalls.len(), 1);
    assert_eq!(db.syscalls.get(&7).unwrap().name, "SyscallNum::7 (spawn)");
    assert_eq!(db.shell_commands.len(), 1);
    assert!(db.shell_commands.contains_key("dir"));
}

#[test]
fn item_kind_names() {
    assert_eq!(NeodosItemKind::SyscallHandler.to_string(), "SyscallHandler");
    assert_eq!(NeodosItemKind::DriverState.to_string(), "DriverState");
    assert_eq!(NeodosKind::Syscall(3).label(), "syscall");
    assert_eq!(NeodosKind::BootPhase.label(), "boot-phase");
}

#[test]
fn completion_kind_of_symbols() {
    let mut next = 1u64;
    let s = make_sym(&mut next, "f", SymbolKind::METHOD);
    assert_eq!(s.completion_item_kind(), neodos_toolkit::database::CompletionItemKind::FUNCTION);
    let c = make_sym(&mut next, "C", SymbolKind::CLASS);
    assert_eq!(c.completion_item_kind(), neodos_toolkit::database::CompletionItemKind::STRUCT);
    let o = make_sym(&mut next, "o", SymbolKind::OBJECT);
    assert_eq!(o.completion_item_kind(), neodos_toolkit::database::CompletionItemKind::TEXT);
}

#[test]
fn names_are_found_ignoring_unicode_case() {
    let mut next = 1u64;
    let mut db = Database::new();
    db.insert_symbol(make_sym(&mut next, "ÄRGER", SymbolKind::CONSTANT));
    assert_eq!(db.find_by_name("ärger").len(), 1);
    assert_eq!(db.find_by_prefix("är").len(), 1);
}

#[test]
fn prefix_search_ignores_ascii_case() {
    let mut next = 1u64;
    let mut db = Database::new();
    db.insert_symbol(make_sym(&mut next, "KernelMain", SymbolKind::FUNCTION));
    db.insert_symbol(make_sym(&mut next, "kernel_panic", SymbolKind::FUNCTION));
    db.insert_symbol(make_sym(&mut next, "Other", SymbolKind::FUNCTION));
    let mut names: Vec<String> = db.find_by_prefix("KERNEL").into_iter().map(|s| s.name).collect();
    names.sort();
    assert_eq!(names, vec!["KernelMain".to_string(), "kernel_panic".to_string()]);
    assert_eq!(db.find_by_name("OTHER").len(), 1);
}

fn sym_in(next: &mut u64, name: &str, file: &str) -> Symbol {
    let mut s = make_sym(next, name, SymbolKind::FUNCTION);
    s.file = file.to_string();
    s
}

fn index_of(file: &str, symbols: Vec<Symbol>) -> FileIndex {
    FileIndex { file: file.to_string(), symbols, references: vec![], neodos_items: vec![] }
}

#[test]
fn replacing_one_file_leaves_the_others() {
    let mut next = 1u64;
    let mut db = Database::new();
    db.replace_file_index(index_of("a.rs", vec![sym_in(&mut next, "a_one", "a.rs"), sym_in(&mut next, "a_two", "a.rs")]));
    db.replace_file_index(index_of("b.rs", vec![sym_in(&mut next, "b_one", "b.rs")]));
    let b_before: Vec<SymbolId> = db.document_symbols("b.rs").into_iter().map(|s| s.id).collect();

    let n1 = sym_in(&mut next, "a_three", "a.rs");
    let n2 = sym_in(&mut next, "a_four", "a.rs");
    let (id1, id2) = (n1.id, n2.id);
    db.replace_file_index(index_of("a.rs", vec![n1, n2]));

    let a_ids: Vec<SymbolId> = db.document_symbols("a.rs").into_iter().map(|s| s.id).collect();
    assert_eq!(a_ids, vec![id1, id2]);
    let b_after: Vec<SymbolId> = db.document_symbols("b.rs").into_iter().map(|s| s.id).collect();
    assert_eq!(b_after, b_before);
    assert_eq!(db.find_by_name("b_one").len(), 1);
    assert!(db.find_by_name("a_one").is_empty());
    assert!(db.lookup(&SymbolId(1)).is_none());
    assert!(db.lookup(&SymbolId(3)).is_some());
}

#[test]
fn innermost_prefers_the_last_of_equal_areas() {
    let mut next = 1u64;
    let mut db = Database::new();
    let r = Range { start: Position { line: 1, character: 0 }, end: Position { line: 3, character: 0 } };
    let mut first = make_sym(&mut next, "first", SymbolKind::FUNCTION);
    first.range = r;
    let mut second = make_sym(&mut next, "second", SymbolKind::FUNCTION);
    second.range = r;
    let mut wide = make_sym(&mut next, "wide", SymbolKind::MODULE);
    wide.range = Range { start: Position { line: 0, character: 0 }, end: Position { line: 9, character: 0 } };
    db.insert_symbol(first);
    db.insert_symbol(second);
    db.insert_symbol(wide);
    let at = Position { line: 2, character: 0 };
    assert_eq!(db.find_at_position("test.rs", at).len(), 3);
    assert_eq!(db.find_innermost_at_position("test.rs", at).unwrap().name, "second");
    assert!(db.find_innermost_at_position("test.rs", Position { line: 20, character: 0 }).is_none());
}
