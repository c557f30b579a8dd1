use neodos_toolkit::config::NeodosConfig;
use neodos_toolkit::database::{CompletionItemKind, Database, Position, SymbolKind};
use neodos_toolkit::lsp::handlers::{
    path_to_uri, rank_completions, symbol_kind_label, uri_to_path, word_at_position, CompletionItem, DiagnosticSeverity, LspHandlers, MarkedText,
};
use neodos_toolkit::lsp::server::{
    body_length, choose_roots, classify_header, frame_message, message_from_body, plan_event, route, unhandled_reply, HeaderLine, IndexAction, LspRoute,
};
use neodos_toolkit::workspace::FileEvent;

fn pos(line: u32, character: u32) -> Position {
    Position { line, character }
}

fn handlers_with(path: &str, text: &str) -> (LspHandlers, u64) {
    let mut h = LspHandlers::new(Database::new(), &NeodosConfig::default());
    let mut next = 1u64;
    h.on_did_open(path.to_string(), 1, text.to_string(), &mut next);
    (h, next)
}

fn item(label: &str) -> CompletionItem {
    CompletionItem {
        label: label.to_string(),
        kind: CompletionItemKind::TEXT,
        detail: None,
        documentation: None,
        insert_text: None,
        plain_text: false,
    }
}

#[test]
fn word_under_cursor() {
    let text = "let x = sys_write(fd);\n  CAP_IRQ | x";
    assert_eq!(word_at_position(text, pos(0, 10)), Some("sys_write".to_string()));
    assert_eq!(word_at_position(text, pos(0, 8)), Some("sys_write".to_string()));
    assert_eq!(word_at_position(text, pos(1, 4)), Some("CAP_IRQ".to_string()));
    assert_eq!(word_at_position(text, pos(0, 3)), Some("let".to_string()));
    assert_eq!(word_at_position(text, pos(0, 7)), None);
    assert_eq!(word_at_position(text, pos(0, 100)), None);
    assert_eq!(word_at_position(text, pos(5, 0)), None);
    assert_eq!(word_at_position("a::b!(c)", pos(0, 2)), Some("a::b!".to_string()));
}

#[test]
fn word_with_multibyte_characters() {
    let text = "é foo";
    assert_eq!(word_at_position(text, pos(0, 3)), Some("foo".to_string()));
    assert_eq!(word_at_position(text, pos(0, 0)), Some("é".to_string()));
}

#[test]
fn kind_labels() {
    assert_eq!(symbol_kind_label(SymbolKind::INTERFACE), "trait");
    assert_eq!(symbol_kind_label(SymbolKind::OBJECT), "impl");
    assert_eq!(symbol_kind_label(SymbolKind::FILE), "symbol");
}

#[test]
fn ranking_puts_exact_first_sorts_and_dedups() {
    let items = vec![item("sys_write"), item("SYS"), item("sys_read"), item("sys_read"), item("sys")];
    let r = rank_completions(&items, Some("sys"));
    let labels: Vec<&str> = r.iter().map(|c| c.label.as_str()).collect();
    assert_eq!(labels, vec!["SYS", "sys", "sys_read", "sys_write"]);
    let many: Vec<CompletionItem> = (0..60).map(|i| item(&format!("n{i:02}"))).collect();
    let r = rank_completions(&many, None);
    assert_eq!(r.len(), 50);
    assert_eq!(r[0].label, "n00");
    assert_eq!(r[49].label, "n49");
}

#[test]
fn completion_from_indexed_document() {
    let text = "pub fn sys_write(fd: u64) -> u64 { 0 }\npub fn sys_read() {}\nsys_";
    let (h, _) = handlers_with("k.rs", text);
    let items = h.completion(Some(text), pos(2, 2)).expect("completions");
    let labels: Vec<&str> = items.iter().map(|c| c.label.as_str()).collect();
    assert_eq!(labels, vec!["sys_read", "sys_write"]);
    assert_eq!(items[1].kind, CompletionItemKind::FUNCTION);
    assert!(items[1].plain_text);
    assert!(h.completion(None, pos(0, 0)).expect("always answers").is_empty());
}

#[test]
fn goto_and_references() {
    let text = "pub struct Task {\n}\nfn run(t: Task) {}";
    let (h, _) = handlers_with("t.rs", text);
    let defs = h.goto_definition(Some(text), pos(2, 11)).expect("definition");
    assert_eq!(defs.len(), 1);
    assert_eq!(defs[0].file, "t.rs");
    assert_eq!(defs[0].range.start.line, 0);
    assert!(h.goto_definition(Some(text), pos(1, 5)).is_none());
    let refs = h.find_references(Some(text), pos(2, 11), true).expect("references");
    assert_eq!(refs.len(), 1);
    assert_eq!(refs[0].range.start.line, 0);
    assert!(h.find_references(Some(text), pos(2, 11), false).expect("references").is_empty());
}

#[test]
fn goto_falls_back_to_prefix_search() {
    let text = "fn schedule_next() {}\nsched";
    let (h, _) = handlers_with("s.rs", text);
    let defs = h.goto_definition(Some(text), pos(1, 1)).expect("prefix match");
    assert_eq!(defs.len(), 1);
    assert_eq!(defs[0].range.start.line, 0);
}

#[test]
fn hover_describes_symbol() {
    let text = "/// Exits.\npub fn sys_exit(code: u64) { }";
    let (h, _) = handlers_with("/src/k/sys.rs", text);
    let hv = h.hover("/src/k/sys.rs", pos(1, 9)).expect("hover");
    match &hv.contents[0] {
        MarkedText::Code { language, value } => {
            assert_eq!(language, "rust");
            assert_eq!(value, "pub fn sys_exit(code: u64)");
        },
        _ => panic!("signature expected"),
    }
    let texts: Vec<String> = hv.contents[1..]
        .iter()
        .map(|m| match m {
            MarkedText::Text(t) => t.clone(),
            MarkedText::Code { value, .. } => value.clone(),
        })
        .collect();
    assert_eq!(texts, vec!["**NeoDOS syscall**", "Syscall #0", "**Visibility:** pub", "Exits.", "sys.rs:2:1"]);
    assert!(h.hover("/src/k/sys.rs", pos(0, 0)).is_none());
}

#[test]
fn rename_groups_edits_by_file() {
    let text = "pub fn old_name() {}";
    let (h, _) = handlers_with("r.rs", text);
    let edits = h.rename("r.rs", pos(0, 8), "new_name").expect("rename");
    assert_eq!(edits.len(), 1);
    assert_eq!(edits[0].0, "r.rs");
    assert_eq!(edits[0].1.len(), 1);
    assert_eq!(edits[0].1[0].new_text, "new_name");
    assert!(h.rename("r.rs", pos(3, 0), "x").is_none());
}

#[test]
fn outline_nests_methods_under_impl() {
    let text = "impl Queue {\n    pub fn push(&mut self) {}\n}\nstruct Other;";
    let (h, _) = handlers_with("q.rs", text);
    let outline = h.document_symbols("q.rs");
    let names: Vec<(usize, &str)> = outline.iter().map(|(d, s)| (*d, s.name.as_str())).collect();
    assert_eq!(names.len(), 3);
    assert_eq!(names[0], (0, "Queue"));
    assert_eq!(names[2], (0, "Other"));
    assert!(h.document_symbols("none.rs").is_empty());
}

#[test]
fn bracket_diagnostics() {
    let h = LspHandlers::new(Database::new(), &NeodosConfig::default());
    let d = h.diagnostics(Some("fn a() {\n  (x\n"));
    assert_eq!(d.len(), 2);
    assert_eq!(d[0].message, "unbalanced braces: 1 unclosed");
    assert_eq!(d[1].message, "unbalanced parentheses: 1 unclosed");
    assert_eq!(d[0].range.start.line, 1);
    assert_eq!(d[0].severity, DiagnosticSeverity::ERROR);
    assert_eq!(d[0].source, "neodos-lsp");
    let d = h.diagnostics(Some("}}"));
    assert_eq!(d.len(), 1);
    assert_eq!(d[0].message, "unbalanced braces: -2 unclosed");
    assert!(h.diagnostics(Some("fn ok() {}")).is_empty());
    assert!(h.diagnostics(None).is_empty());
}

#[test]
fn change_and_close_documents() {
    let (mut h, mut next) = handlers_with("c.rs", "fn first() {}");
    h.on_did_change("c.rs".to_string(), 2, vec!["fn x() {}".to_string(), "fn second() {}".to_string()], &mut next);
    assert_eq!(h.cache.get_source("c.rs"), Some("fn second() {}".to_string()));
    assert!(h.db.find_by_name("first").is_empty());
    assert_eq!(h.db.find_by_name("second").len(), 1);
    h.on_did_change("c.rs".to_string(), 3, vec![], &mut next);
    assert_eq!(h.cache.get_source("c.rs"), Some("fn second() {}".to_string()));
    h.on_did_close("c.rs");
    assert_eq!(h.cache.get_source("c.rs"), None);
    assert_eq!(h.db.find_by_name("second").len(), 1);
}

#[test]
fn message_routing() {
    assert_eq!(route("textDocument/hover"), LspRoute::Hover);
    assert_eq!(route("exit"), LspRoute::Exit);
    assert_eq!(route("workspace/symbol"), LspRoute::Unhandled);
    assert_eq!(unhandled_reply("foo/bar", true), Some((-32601, "method not found: foo/bar".to_string())));
    assert_eq!(unhandled_reply("foo/bar", false), None);
}

#[test]
fn header_lines() {
    assert!(matches!(classify_header("Content-Length: 42\r\n"), HeaderLine::ContentLength(42)));
    assert!(matches!(classify_header("content-length:7"), HeaderLine::ContentLength(7)));
    assert!(matches!(classify_header("\r\n"), HeaderLine::Blank));
    assert!(matches!(classify_header("Content-Type: utf-8"), HeaderLine::Other));
    match classify_header("Content-Length: abc") {
        HeaderLine::InvalidLength(m) => assert_eq!(m, "invalid Content-Length: invalid digit found in string"),
        _ => panic!("invalid length expected"),
    }
    match classify_header("Content-Length:") {
        HeaderLine::InvalidLength(m) => assert_eq!(m, "invalid Content-Length: cannot parse integer from empty string"),
        _ => panic!("invalid length expected"),
    }
    match classify_header("Content-Length: 99999999999999999999999") {
        HeaderLine::InvalidLength(m) => assert_eq!(m, "invalid Content-Length: number too large to fit in target type"),
        _ => panic!("invalid length expected"),
    }
    assert_eq!(body_length(Some(3)), Ok(3));
    assert_eq!(body_length(None), Err("missing Content-Length header".to_string()));
}

#[test]
fn roots_and_events() {
    assert_eq!(choose_roots(Some(vec!["/a".to_string()]), Some("/b".to_string())), Some(vec!["/a".to_string()]));
    assert_eq!(choose_roots(Some(vec![]), Some("/b".to_string())), None);
    assert_eq!(choose_roots(None, Some("/b".to_string())), Some(vec!["/b".to_string()]));
    assert_eq!(choose_roots(None, None), None);
    assert!(matches!(plan_event(FileEvent::Modified("x.rs".to_string())), IndexAction::Reindex(p) if p == "x.rs"));
    assert!(matches!(plan_event(FileEvent::Deleted("x.rs".to_string())), IndexAction::Forget(p) if p == "x.rs"));
    assert!(matches!(plan_event(FileEvent::FullRescan), IndexAction::Rescan));
}

#[test]
fn file_uris_and_paths() {
    assert_eq!(uri_to_path("file:///a/b.rs"), Some("/a/b.rs".to_string()));
    assert_eq!(uri_to_path("file:///src/my%20file.rs"), Some("/src/my file.rs".to_string()));
    assert_eq!(uri_to_path("https://example.com/a.rs"), None);
    assert_eq!(uri_to_path("not a uri"), None);
    assert_eq!(path_to_uri("/a/b.rs"), Some("file:///a/b.rs".to_string()));
    assert_eq!(path_to_uri("/src/my file.rs"), Some("file:///src/my%20file.rs".to_string()));
    assert_eq!(path_to_uri("relative/x.rs"), None);
    let back = path_to_uri("/work/kernel/main.rs").and_then(|u| uri_to_path(&u));
    assert_eq!(back, Some("/work/kernel/main.rs".to_string()));
}

#[test]
fn framed_header_reads_back_as_its_length() {
    let body = "{\"jsonrpc\":\"2.0\",\"id\":1,\"result\":\"caf\u{e9}\"}";
    let framed = frame_message(body);
    let mut lines = framed.split_inclusive('\n');
    let first = lines.next().unwrap();
    let second = lines.next().unwrap();
    match classify_header(first) {
        HeaderLine::ContentLength(n) => assert_eq!(n, body.len()),
        _ => panic!("length line not recognised"),
    }
    assert!(matches!(classify_header(second), HeaderLine::Blank));
    assert_eq!(&framed[first.len() + second.len()..], body);
}

#[test]
fn message_bodies_are_read_or_refused() {
    let ok = message_from_body(br#"{"jsonrpc":"2.0","id":3,"method":"initialize","params":{"a":1}}"#.to_vec()).unwrap();
    assert_eq!(ok.method, "initialize");
    assert_eq!(ok.id, Some(serde_json::Value::from(3)));
    assert_eq!(ok.params.as_ref().and_then(|p| p.get("a")).and_then(|a| a.as_u64()), Some(1));
    let note = message_from_body(br#"{"method":"initialized"}"#.to_vec()).unwrap();
    assert!(note.id.is_none() && note.params.is_none());

    let bad_utf8 = message_from_body(vec![b'{', 0xff, b'}']).err().unwrap();
    assert!(bad_utf8.starts_with("invalid UTF-8: "));
    let bad_json = message_from_body(b"{not json".to_vec()).err().unwrap();
    assert!(bad_json.starts_with("invalid JSON: "));
    assert!(bad_json.ends_with(" (\"{not json\")"));
    assert_eq!(message_from_body(br#"{"id":1}"#.to_vec()).err().unwrap(), "missing method field");
    assert_eq!(message_from_body(br#"{"method":5}"#.to_vec()).err().unwrap(), "missing method field");
    assert_eq!(message_from_body(b"[1,2]".to_vec()).err().unwrap(), "missing method field");
}

#[test]
fn ranked_labels_never_repeat() {
    let items = vec![item("b"), item("a"), item("b"), item("c"), item("a"), item("B"), item("b")];
    let r = rank_completions(&items, Some("b"));
    let labels: Vec<&str> = r.iter().map(|c| c.label.as_str()).collect();
    assert_eq!(labels, vec!["B", "b", "a", "c"]);
}
