//! The symbol database: symbols by id, per-file and per-name indices, the
//! reference graph, and the NeoDOS-specific items (syscalls, shell commands).
use vstd::prelude::*;
use dashmap::DashMap;
use crate::text::{ascii_lowercase, ascii_text, lowercase, to_lowercase};
use crate::config::eq_ignore_ascii_case_spec;

verus! {

#[verifier::external_type_specification]
#[verifier::external_body]
#[verifier::reject_recursive_types(K)]
#[verifier::reject_recursive_types(V)]
#[verifier::reject_recursive_types(S)]
pub struct ExDashMap<K, V, S>(DashMap<K, V, S>);

/// Identifier of an indexed symbol.
#[derive(Debug, Clone, Copy, PartialEq, Eq, Structural, Hash, PartialOrd, Ord)]
pub struct SymbolId(pub u64);

/// Hands out the next symbol id from the counter `next`.
pub fn fresh_symbol_id(next: &mut u64) -> (r: SymbolId)
    requires
        *old(next) < u64::MAX,
    ensures
        r.0 == *old(next),
        *final(next) == *old(next) + 1,
{
    let id = *next;
    *next = *next + 1;
    SymbolId(id)
}

/// NeoDOS meaning of a symbol.
#[derive(Debug, Clone, Copy, PartialEq, Eq, Structural, Hash)]
pub enum NeodosKind {
    Syscall(u64),
    BootPhase,
}

pub open spec fn neodos_kind_label(k: NeodosKind) -> Seq<char> {
    match k {
        NeodosKind::Syscall(_) => "syscall"@,
        NeodosKind::BootPhase => "boot-phase"@,
    }
}

impl NeodosKind {
    pub fn label(&self) -> (r: &'static str)
        ensures
            r@ == neodos_kind_label(*self),
    {
        match self {
            NeodosKind::Syscall(_) => "syscall",
            NeodosKind::BootPhase => "boot-phase",
        }
    }
}

/// A position in a text document: zero-based line and UTF-8 byte column.
#[derive(Debug, Clone, Copy, PartialEq, Eq, Structural)]
pub struct Position {
    pub line: u32,
    pub character: u32,
}

/// A range between two positions.
#[derive(Debug, Clone, Copy, PartialEq, Eq, Structural)]
pub struct Range {
    pub start: Position,
    pub end: Position,
}

/// Kinds of document symbols, numbered as in the language server protocol.
#[allow(non_camel_case_types)]
#[derive(Debug, Clone, Copy, PartialEq, Eq, Structural, Hash)]
pub enum SymbolKind {
    FILE,
    MODULE,
    NAMESPACE,
    PACKAGE,
    CLASS,
    METHOD,
    PROPERTY,
    FIELD,
    CONSTRUCTOR,
    ENUM,
    INTERFACE,
    FUNCTION,
    VARIABLE,
    CONSTANT,
    STRING,
    NUMBER,
    BOOLEAN,
    ARRAY,
    OBJECT,
    KEY,
    NULL,
    ENUM_MEMBER,
    STRUCT,
    EVENT,
    OPERATOR,
    TYPE_PARAMETER,
}

/// Kinds of completion items, numbered as in the language server protocol.
#[allow(non_camel_case_types)]
#[derive(Debug, Clone, Copy, PartialEq, Eq, Structural, Hash)]
pub enum CompletionItemKind {
    TEXT,
    METHOD,
    FUNCTION,
    CONSTRUCTOR,
    FIELD,
    VARIABLE,
    CLASS,
    INTERFACE,
    MODULE,
    PROPERTY,
    UNIT,
    VALUE,
    ENUM,
    KEYWORD,
    SNIPPET,
    COLOR,
    FILE,
    REFERENCE,
    FOLDER,
    ENUM_MEMBER,
    CONSTANT,
    STRUCT,
    EVENT,
    OPERATOR,
    TYPE_PARAMETER,
}

/// An indexed symbol. Paths are kept as text.
#[derive(Debug, Clone)]
pub struct Symbol {
    pub id: SymbolId,
    pub name: String,
    pub kind: SymbolKind,
    pub neodos_kind: Option<NeodosKind>,
    pub file: String,
    pub range: Range,
    pub selection_range: Range,
    pub parent: Option<SymbolId>,
    pub children: Vec<SymbolId>,
    pub documentation: Option<String>,
    pub detail: Option<String>,
    pub signature: Option<String>,
    pub visibility: Option<String>,
    pub attributes: Vec<String>,
    pub is_deprecated: bool,
    pub is_test: bool,
    pub syscall_number: Option<u64>,
    pub capabilities: Option<u64>,
}

/// The mathematical value of a `Symbol`: its texts as character sequences.
pub struct SymbolView {
    pub id: SymbolId,
    pub name: Seq<char>,
    pub kind: SymbolKind,
    pub neodos_kind: Option<NeodosKind>,
    pub file: Seq<char>,
    pub range: Range,
    pub selection_range: Range,
    pub parent: Option<SymbolId>,
    pub children: Seq<SymbolId>,
    pub documentation: Option<Seq<char>>,
    pub detail: Option<Seq<char>>,
    pub signature: Option<Seq<char>>,
    pub visibility: Option<Seq<char>>,
    pub attributes: Seq<Seq<char>>,
    pub is_deprecated: bool,
    pub is_test: bool,
    pub syscall_number: Option<u64>,
    pub capabilities: Option<u64>,
}

pub open spec fn opt_text(o: Option<String>) -> Option<Seq<char>> {
    match o {
        Some(s) => Some(s@),
        None => None,
    }
}

pub open spec fn texts(v: Seq<String>) -> Seq<Seq<char>> {
    v.map_values(|s: String| s@)
}

impl View for Symbol {
    type V = SymbolView;

    open spec fn view(&self) -> SymbolView {
        SymbolView {
            id: self.id,
            name: self.name@,
            kind: self.kind,
            neodos_kind: self.neodos_kind,
            file: self.file@,
            range: self.range,
            selection_range: self.selection_range,
            parent: self.parent,
            children: self.children@,
            documentation: opt_text(self.documentation),
            detail: opt_text(self.detail),
            signature: opt_text(self.signature),
            visibility: opt_text(self.visibility),
            attributes: texts(self.attributes@),
            is_deprecated: self.is_deprecated,
            is_test: self.is_test,
            syscall_number: self.syscall_number,
            capabilities: self.capabilities,
        }
    }
}

pub fn clone_opt_string(o: &Option<String>) -> (r: Option<String>)
    ensures
        opt_text(r) == opt_text(*o),
{
    match o {
        Some(s) => Some(s.clone()),
        None => None,
    }
}

pub fn clone_strings(v: &Vec<String>) -> (r: Vec<String>)
    ensures
        texts(r@) == texts(v@),
{
    let mut r: Vec<String> = Vec::new();
    let mut i: usize = 0;
    while i < v.len()
        invariant
            i <= v@.len(),
            r@.len() == i,
            forall|j: int| 0 <= j < i ==> #[trigger] r@[j]@ == v@[j]@,
        decreases v@.len() - i,
    {
        r.push(v[i].clone());
        i = i + 1;
    }
    assert(texts(r@) =~= texts(v@));
    r
}

pub fn clone_ids(v: &Vec<SymbolId>) -> (r: Vec<SymbolId>)
    ensures
        r@ == v@,
{
    let mut r: Vec<SymbolId> = Vec::new();
    let mut i: usize = 0;
    while i < v.len()
        invariant
            i <= v@.len(),
            r@ == v@.subrange(0, i as int),
        decreases v@.len() - i,
    {
        r.push(v[i]);
        i = i + 1;
        assert(r@ =~= v@.subrange(0, i as int));
    }
    assert(v@.subrange(0, v@.len() as int) =~= v@);
    r
}

pub open spec fn spec_completion_item_kind(k: SymbolKind) -> CompletionItemKind {
    if k == SymbolKind::FUNCTION || k == SymbolKind::METHOD {
        CompletionItemKind::FUNCTION
    } else if k == SymbolKind::STRUCT || k == SymbolKind::CLASS {
        CompletionItemKind::STRUCT
    } else if k == SymbolKind::ENUM {
        CompletionItemKind::ENUM
    } else if k == SymbolKind::INTERFACE {
        CompletionItemKind::INTERFACE
    } else if k == SymbolKind::MODULE {
        CompletionItemKind::MODULE
    } else if k == SymbolKind::VARIABLE {
        CompletionItemKind::VARIABLE
    } else if k == SymbolKind::CONSTANT {
        CompletionItemKind::CONSTANT
    } else if k == SymbolKind::TYPE_PARAMETER {
        CompletionItemKind::TYPE_PARAMETER
    } else {
        CompletionItemKind::TEXT
    }
}

impl Symbol {
    /// A copy with the same value.
    pub fn duplicate(&self) -> (r: Symbol)
        ensures
            r@ == self@,
    {
        Symbol {
            id: self.id,
            name: self.name.clone(),
            kind: self.kind,
            neodos_kind: self.neodos_kind,
            file: self.file.clone(),
            range: self.range,
            selection_range: self.selection_range,
            parent: self.parent,
            children: clone_ids(&self.children),
            documentation: clone_opt_string(&self.documentation),
            detail: clone_opt_string(&self.detail),
            signature: clone_opt_string(&self.signature),
            visibility: clone_opt_string(&self.visibility),
            attributes: clone_strings(&self.attributes),
            is_deprecated: self.is_deprecated,
            is_test: self.is_test,
            syscall_number: self.syscall_number,
            capabilities: self.capabilities,
        }
    }

    /// The completion kind shown for this symbol.
    pub fn completion_item_kind(&self) -> (r: CompletionItemKind)
        ensures
            r == spec_completion_item_kind(self.kind),
    {
        let k = self.kind;
        if k == SymbolKind::FUNCTION || k == SymbolKind::METHOD {
            CompletionItemKind::FUNCTION
        } else if k == SymbolKind::STRUCT || k == SymbolKind::CLASS {
            CompletionItemKind::STRUCT
        } else if k == SymbolKind::ENUM {
            CompletionItemKind::ENUM
        } else if k == SymbolKind::INTERFACE {
            CompletionItemKind::INTERFACE
        } else if k == SymbolKind::MODULE {
            CompletionItemKind::MODULE
        } else if k == SymbolKind::VARIABLE {
            CompletionItemKind::VARIABLE
        } else if k == SymbolKind::CONSTANT {
            CompletionItemKind::CONSTANT
        } else if k == SymbolKind::TYPE_PARAMETER {
            CompletionItemKind::TYPE_PARAMETER
        } else {
            CompletionItemKind::TEXT
        }
    }
}

} // verus!

verus! {

/// A reference from one symbol to another.
#[derive(Debug, Clone, Copy)]
pub struct Reference {
    pub from: SymbolId,
    pub to: SymbolId,
}

/// The NeoDOS-specific items the indexer recognises.
#[derive(Debug, Clone, Copy, PartialEq, Eq, Structural)]
pub enum NeodosItemKind {
    SyscallHandler,
    ShellCommand,
    BootPhaseFn,
    FileSystemImpl,
    CapabilityFlag,
    DriverState,
}

pub open spec fn item_kind_text(k: NeodosItemKind) -> Seq<char> {
    match k {
        NeodosItemKind::SyscallHandler => "SyscallHandler"@,
        NeodosItemKind::ShellCommand => "ShellCommand"@,
        NeodosItemKind::BootPhaseFn => "BootPhaseFn"@,
        NeodosItemKind::FileSystemImpl => "FileSystemImpl"@,
        NeodosItemKind::CapabilityFlag => "CapabilityFlag"@,
        NeodosItemKind::DriverState => "DriverState"@,
    }
}

impl NeodosItemKind {
    /// The variant's name, as the kind is displayed.
    pub fn to_string(&self) -> (r: String)
        ensures
            r@ == item_kind_text(*self),
    {
        match self {
            NeodosItemKind::SyscallHandler => String::from_str("SyscallHandler"),
            NeodosItemKind::ShellCommand => String::from_str("ShellCommand"),
            NeodosItemKind::BootPhaseFn => String::from_str("BootPhaseFn"),
            NeodosItemKind::FileSystemImpl => String::from_str("FileSystemImpl"),
            NeodosItemKind::CapabilityFlag => String::from_str("CapabilityFlag"),
            NeodosItemKind::DriverState => String::from_str("DriverState"),
        }
    }
}

/// A NeoDOS-specific item found in a file.
#[derive(Debug, Clone)]
pub struct NeodosItem {
    pub kind: NeodosItemKind,
    pub name: String,
    pub detail: String,
}

pub struct NeodosItemView {
    pub kind: NeodosItemKind,
    pub name: Seq<char>,
    pub detail: Seq<char>,
}

impl View for NeodosItem {
    type V = NeodosItemView;

    open spec fn view(&self) -> NeodosItemView {
        NeodosItemView { kind: self.kind, name: self.name@, detail: self.detail@ }
    }
}

impl NeodosItem {
    pub fn duplicate(&self) -> (r: NeodosItem)
        ensures
            r@ == self@,
    {
        NeodosItem { kind: self.kind, name: self.name.clone(), detail: self.detail.clone() }
    }
}

/// Everything indexed from one file.
#[derive(Debug, Clone)]
pub struct FileIndex {
    pub file: String,
    pub symbols: Vec<Symbol>,
    pub references: Vec<Reference>,
    pub neodos_items: Vec<NeodosItem>,
}

pub struct FileIndexView {
    pub file: Seq<char>,
    pub symbols: Seq<SymbolView>,
    pub references: Seq<Reference>,
    pub neodos_items: Seq<NeodosItemView>,
}

impl View for FileIndex {
    type V = FileIndexView;

    open spec fn view(&self) -> FileIndexView {
        FileIndexView {
            file: self.file@,
            symbols: self.symbols@.map_values(|s: Symbol| s@),
            references: self.references@,
            neodos_items: self.neodos_items@.map_values(|i: NeodosItem| i@),
        }
    }
}

pub fn clone_symbols(v: &Vec<Symbol>) -> (r: Vec<Symbol>)
    ensures
        r@.map_values(|s: Symbol| s@) == v@.map_values(|s: Symbol| s@),
{
    let mut r: Vec<Symbol> = Vec::new();
    let mut i: usize = 0;
    while i < v.len()
        invariant
            i <= v@.len(),
            r@.len() == i,
            forall|j: int| 0 <= j < i ==> #[trigger] r@[j]@ == v@[j]@,
        decreases v@.len() - i,
    {
        r.push(v[i].duplicate());
        i = i + 1;
    }
    assert(r@.map_values(|s: Symbol| s@) =~= v@.map_values(|s: Symbol| s@));
    r
}

pub fn clone_items(v: &Vec<NeodosItem>) -> (r: Vec<NeodosItem>)
    ensures
        r@.map_values(|s: NeodosItem| s@) == v@.map_values(|s: NeodosItem| s@),
{
    let mut r: Vec<NeodosItem> = Vec::new();
    let mut i: usize = 0;
    while i < v.len()
        invariant
            i <= v@.len(),
            r@.len() == i,
            forall|j: int| 0 <= j < i ==> #[trigger] r@[j]@ == v@[j]@,
        decreases v@.len() - i,
    {
        r.push(v[i].duplicate());
        i = i + 1;
    }
    assert(r@.map_values(|s: NeodosItem| s@) =~= v@.map_values(|s: NeodosItem| s@));
    r
}

pub fn clone_references(v: &Vec<Reference>) -> (r: Vec<Reference>)
    ensures
        r@ == v@,
{
    let mut r: Vec<Reference> = Vec::new();
    let mut i: usize = 0;
    while i < v.len()
        invariant
            i <= v@.len(),
            r@ == v@.subrange(0, i as int),
        decreases v@.len() - i,
    {
        r.push(v[i]);
        i = i + 1;
        assert(r@ =~= v@.subrange(0, i as int));
    }
    assert(v@.subrange(0, v@.len() as int) =~= v@);
    r
}

impl FileIndex {
    pub fn duplicate(&self) -> (r: FileIndex)
        ensures
            r@ == self@,
    {
        FileIndex {
            file: self.file.clone(),
            symbols: clone_symbols(&self.symbols),
            references: clone_references(&self.references),
            neodos_items: clone_items(&self.neodos_items),
        }
    }
}

/// A `DashMap` table of the database.
pub type SymbolTable = DashMap<u64, Symbol>;

/// A `DashMap` table of the database.
pub type IdLists = DashMap<u64, Vec<SymbolId>>;

/// A `DashMap` table of the database.
pub type NamedIdLists = DashMap<String, Vec<SymbolId>>;

/// A `DashMap` table of the database.
pub type FileIndexTable = DashMap<String, FileIndex>;

/// A `DashMap` table of the database.
pub type NumberedItems = DashMap<u64, NeodosItem>;

/// A `DashMap` table of the database.
pub type NamedItems = DashMap<String, NeodosItem>;

// The maps of the database live in `DashMap`s. Each map type gets a name for
// its contents (keys and values by their views) and one trusted item per
// `DashMap` method that the database calls.

/// Contents of a symbol table keyed by symbol id.
pub uninterp spec fn symbol_entries(m: SymbolTable) -> Map<u64, SymbolView>;

/// Contents of an id-list table keyed by symbol id.
pub uninterp spec fn id_lists(m: IdLists) -> Map<u64, Seq<SymbolId>>;

/// Contents of an id-list table keyed by text.
pub uninterp spec fn named_id_lists(m: NamedIdLists) -> Map<Seq<char>, Seq<SymbolId>>;

/// Contents of the per-file index table.
pub uninterp spec fn file_index_entries(m: FileIndexTable) -> Map<Seq<char>, FileIndexView>;

/// Contents of an item table keyed by number.
pub uninterp spec fn numbered_items(m: NumberedItems) -> Map<u64, NeodosItemView>;

/// Contents of an item table keyed by text.
pub uninterp spec fn named_items(m: NamedItems) -> Map<Seq<char>, NeodosItemView>;

/// `DashMap::new`: an empty map.
#[verifier::external_body]
fn new_symbol_table() -> (r: SymbolTable)
    ensures
        symbol_entries(r).dom().is_empty(),
{
    DashMap::new()
}

/// `DashMap::insert`: the key now maps to the value; other keys keep theirs.
#[verifier::external_body]
fn symbol_table_insert(m: &mut SymbolTable, k: u64, v: Symbol)
    ensures
        symbol_entries(*final(m)) == symbol_entries(*old(m)).insert(k, v@),
{
    m.insert(k, v);
}

/// `DashMap::get`, cloning the value found: some exactly when the key has a value, and then that value.
#[verifier::external_body]
fn symbol_table_get(m: &SymbolTable, k: u64) -> (r: Option<Symbol>)
    ensures
        r is Some <==> symbol_entries(*m).contains_key(k),
        r matches Some(s) ==> s@ == symbol_entries(*m)[k],
{
    m.get(&k).map(|e| e.value().clone())
}

/// `DashMap::contains_key`: whether the key has a value.
#[verifier::external_body]
fn symbol_table_contains(m: &SymbolTable, k: u64) -> (r: bool)
    ensures
        r == symbol_entries(*m).contains_key(k),
{
    m.contains_key(&k)
}

/// `DashMap::remove`: the key is gone; other keys keep their values.
#[verifier::external_body]
fn symbol_table_remove(m: &mut SymbolTable, k: u64)
    ensures
        symbol_entries(*final(m)) == symbol_entries(*old(m)).remove(k),
{
    m.remove(&k);
}

/// `DashMap::new`: the map is empty.
#[verifier::external_body]
fn new_id_lists() -> (r: IdLists)
    ensures
        id_lists(r).dom().is_empty(),
{
    DashMap::new()
}

/// `DashMap::insert`: the key now maps to the value; other keys keep theirs.
#[verifier::external_body]
fn id_lists_insert(m: &mut IdLists, k: u64, v: Vec<SymbolId>)
    ensures
        id_lists(*final(m)) == id_lists(*old(m)).insert(k, v@),
{
    m.insert(k, v);
}

/// `DashMap::get`, cloning the list found: some exactly when the key has a list, and then that list.
#[verifier::external_body]
fn id_lists_get(m: &IdLists, k: u64) -> (r: Option<Vec<SymbolId>>)
    ensures
        r is Some <==> id_lists(*m).contains_key(k),
        r matches Some(v) ==> v@ == id_lists(*m)[k],
{
    m.get(&k).map(|e| e.value().clone())
}

/// `DashMap::remove`: the key is gone; other keys keep their values.
#[verifier::external_body]
fn id_lists_remove(m: &mut IdLists, k: u64)
    ensures
        id_lists(*final(m)) == id_lists(*old(m)).remove(k),
{
    m.remove(&k);
}

/// `DashMap::new`: the map is empty.
#[verifier::external_body]
fn new_named_id_lists() -> (r: NamedIdLists)
    ensures
        named_id_lists(r).dom().is_empty(),
{
    DashMap::new()
}

/// `DashMap::insert`; keys are equal exactly when their texts are.
#[verifier::external_body]
fn named_id_lists_insert(m: &mut NamedIdLists, k: String, v: Vec<SymbolId>)
    ensures
        named_id_lists(*final(m)) == named_id_lists(*old(m)).insert(k@, v@),
{
    m.insert(k, v);
}

/// `DashMap::get`, cloning the list found: some exactly when the key has a list, and then that list.
#[verifier::external_body]
fn named_id_lists_get(m: &NamedIdLists, k: &str) -> (r: Option<Vec<SymbolId>>)
    ensures
        r is Some <==> named_id_lists(*m).contains_key(k@),
        r matches Some(v) ==> v@ == named_id_lists(*m)[k@],
{
    m.get(k).map(|e| e.value().clone())
}

/// `DashMap::remove`: the key is gone; other keys keep their values.
#[verifier::external_body]
fn named_id_lists_remove(m: &mut NamedIdLists, k: &str)
    ensures
        named_id_lists(*final(m)) == named_id_lists(*old(m)).remove(k@),
{
    m.remove(k);
}

/// `DashMap::iter`, collected: every entry once, keys and lists cloned, in
/// the map's own order.
#[verifier::external_body]
fn named_id_lists_entries(m: &NamedIdLists) -> (r: Vec<(String, Vec<SymbolId>)>)
    ensures
        forall|i: int|
            0 <= i < r@.len() ==> #[trigger] named_id_lists(*m).contains_key(r@[i].0@)
                && named_id_lists(*m)[r@[i].0@] == r@[i].1@,
        forall|i: int, j: int| 0 <= i < j < r@.len() ==> r@[i].0@ != r@[j].0@,
        forall|k: Seq<char>|
            #[trigger] named_id_lists(*m).contains_key(k) ==> exists|i: int|
                0 <= i < r@.len() && r@[i].0@ == k,
{
    m.iter().map(|e| (e.key().clone(), e.value().clone())).collect()
}

/// `DashMap::new`: the map is empty.
#[verifier::external_body]
fn new_file_index_table() -> (r: FileIndexTable)
    ensures
        file_index_entries(r).dom().is_empty(),
{
    DashMap::new()
}

/// `DashMap::insert`: the key now maps to the value; other keys keep theirs.
#[verifier::external_body]
fn file_index_table_insert(m: &mut FileIndexTable, k: String, v: FileIndex)
    ensures
        file_index_entries(*final(m)) == file_index_entries(*old(m)).insert(k@, v@),
{
    m.insert(k, v);
}

/// `DashMap::new`: the map is empty.
#[verifier::external_body]
fn new_numbered_items() -> (r: NumberedItems)
    ensures
        numbered_items(r).dom().is_empty(),
{
    DashMap::new()
}

/// `DashMap::insert`: the key now maps to the value; other keys keep theirs.
#[verifier::external_body]
fn numbered_items_insert(m: &mut NumberedItems, k: u64, v: NeodosItem)
    ensures
        numbered_items(*final(m)) == numbered_items(*old(m)).insert(k, v@),
{
    m.insert(k, v);
}

/// `DashMap::iter`, collected: every entry once, items cloned, in the map's own order.
#[verifier::external_body]
pub(crate) fn numbered_items_entries(m: &NumberedItems) -> (r: Vec<(u64, NeodosItem)>)
    ensures
        forall|i: int|
            0 <= i < r@.len() ==> #[trigger] numbered_items(*m).contains_key(r@[i].0)
                && numbered_items(*m)[r@[i].0] == r@[i].1@,
        forall|i: int, j: int| 0 <= i < j < r@.len() ==> r@[i].0 != r@[j].0,
        forall|k: u64|
            #[trigger] numbered_items(*m).contains_key(k) ==> exists|i: int|
                0 <= i < r@.len() && r@[i].0 == k,
{
    m.iter().map(|e| (*e.key(), e.value().clone())).collect()
}

/// `DashMap::new`: the map is empty.
#[verifier::external_body]
fn new_named_items() -> (r: NamedItems)
    ensures
        named_items(r).dom().is_empty(),
{
    DashMap::new()
}

/// `DashMap::insert`: the key now maps to the value; other keys keep theirs.
#[verifier::external_body]
fn named_items_insert(m: &mut NamedItems, k: String, v: NeodosItem)
    ensures
        named_items(*final(m)) == named_items(*old(m)).insert(k@, v@),
{
    m.insert(k, v);
}

/// `DashMap::iter`, collected: every entry once, cloned, in the map's own order.
#[verifier::external_body]
pub(crate) fn named_items_entries(m: &NamedItems) -> (r: Vec<(String, NeodosItem)>)
    ensures
        forall|i: int|
            0 <= i < r@.len() ==> #[trigger] named_items(*m).contains_key(r@[i].0@)
                && named_items(*m)[r@[i].0@] == r@[i].1@,
        forall|i: int, j: int| 0 <= i < j < r@.len() ==> r@[i].0@ != r@[j].0@,
        forall|k: Seq<char>|
            #[trigger] named_items(*m).contains_key(k) ==> exists|i: int|
                0 <= i < r@.len() && r@[i].0@ == k,
{
    m.iter().map(|e| (e.key().clone(), e.value().clone())).collect()
}

} // verus!

verus! {

/// The symbol database.
pub struct Database {
    pub symbols: SymbolTable,
    pub file_symbols: NamedIdLists,
    pub name_index: NamedIdLists,
    pub references: IdLists,
    pub file_indices: FileIndexTable,
    pub syscalls: NumberedItems,
    pub shell_commands: NamedItems,
    pub all_files: Vec<String>,
}

/// The contents of a `Database`.
pub struct DbView {
    pub symbols: Map<u64, SymbolView>,
    pub file_symbols: Map<Seq<char>, Seq<SymbolId>>,
    pub name_index: Map<Seq<char>, Seq<SymbolId>>,
    pub references: Map<u64, Seq<SymbolId>>,
    pub file_indices: Map<Seq<char>, FileIndexView>,
    pub syscalls: Map<u64, NeodosItemView>,
    pub shell_commands: Map<Seq<char>, NeodosItemView>,
    pub all_files: Seq<Seq<char>>,
}

impl View for Database {
    type V = DbView;

    open spec fn view(&self) -> DbView {
        DbView {
            symbols: symbol_entries(self.symbols),
            file_symbols: named_id_lists(self.file_symbols),
            name_index: named_id_lists(self.name_index),
            references: id_lists(self.references),
            file_indices: file_index_entries(self.file_indices),
            syscalls: numbered_items(self.syscalls),
            shell_commands: named_items(self.shell_commands),
            all_files: texts(self.all_files@),
        }
    }
}

/// The list stored under `k`, empty when there is none.
pub open spec fn list_or_empty<K>(m: Map<K, Seq<SymbolId>>, k: K) -> Seq<SymbolId> {
    if m.contains_key(k) {
        m[k]
    } else {
        seq![]
    }
}

/// `id` appended to the list under `k` (created empty when missing).
pub open spec fn append_id<K>(m: Map<K, Seq<SymbolId>>, k: K, id: SymbolId) -> Map<K, Seq<SymbolId>> {
    m.insert(k, list_or_empty(m, k).push(id))
}

pub open spec fn with_child(s: SymbolView, c: SymbolId) -> SymbolView {
    SymbolView { children: s.children.push(c), ..s }
}

/// The database after `insert_symbol(s)`: the symbol is stored under its id,
/// its id appended to its lower-cased name's list and to its file's list,
/// and to the children of its parent when the parent is stored.
pub open spec fn spec_insert_symbol(db: DbView, s: SymbolView) -> DbView {
    let syms = db.symbols.insert(s.id.0, s);
    let syms2 = match s.parent {
        Some(p) => if syms.contains_key(p.0) {
            syms.insert(p.0, with_child(syms[p.0], s.id))
        } else {
            syms
        },
        None => syms,
    };
    DbView {
        symbols: syms2,
        name_index: append_id(db.name_index, lowercase(s.name), s.id),
        file_symbols: append_id(db.file_symbols, s.file, s.id),
        ..db
    }
}

/// The database after `insert_reference(r)`.
pub open spec fn spec_insert_reference(db: DbView, r: Reference) -> DbView {
    DbView { references: append_id(db.references, r.from.0, r.to), ..db }
}

/// The stored symbols among `ids`, in order.
pub open spec fn ids_to_symbols(syms: Map<u64, SymbolView>, ids: Seq<SymbolId>) -> Seq<SymbolView>
    decreases ids.len(),
{
    if ids.len() == 0 {
        seq![]
    } else {
        let rest = ids_to_symbols(syms, ids.drop_last());
        if syms.contains_key(ids.last().0) {
            rest.push(syms[ids.last().0])
        } else {
            rest
        }
    }
}

pub open spec fn views_of(v: Seq<Symbol>) -> Seq<SymbolView> {
    v.map_values(|s: Symbol| s@)
}

impl Database {
    /// An empty database.
    pub fn new() -> (r: Database)
        ensures
            r@.symbols.dom().is_empty(),
            r@.file_symbols.dom().is_empty(),
            r@.name_index.dom().is_empty(),
            r@.references.dom().is_empty(),
            r@.file_indices.dom().is_empty(),
            r@.syscalls.dom().is_empty(),
            r@.shell_commands.dom().is_empty(),
            r@.all_files.len() == 0,
            indexes_consistent(r@),
    {
        let r = Database {
            symbols: new_symbol_table(),
            file_symbols: new_named_id_lists(),
            name_index: new_named_id_lists(),
            references: new_id_lists(),
            file_indices: new_file_index_table(),
            syscalls: new_numbered_items(),
            shell_commands: new_named_items(),
            all_files: Vec::new(),
        };
        assert(forall|x: u64| !r@.symbols.contains_key(x));
        assert(forall|k: Seq<char>| !r@.name_index.contains_key(k));
        assert(forall|k: Seq<char>| !r@.file_symbols.contains_key(k));
        r
    }

    fn append_named(m: &mut NamedIdLists, k: String, id: SymbolId)
        ensures
            named_id_lists(*final(m)) == append_id(named_id_lists(*old(m)), k@, id),
    {
        let mut ids = match named_id_lists_get(m, k.as_str()) {
            Some(v) => v,
            None => Vec::new(),
        };
        ids.push(id);
        named_id_lists_insert(m, k, ids);
    }

    fn append_numbered(m: &mut IdLists, k: u64, id: SymbolId)
        ensures
            id_lists(*final(m)) == append_id(id_lists(*old(m)), k, id),
    {
        let mut ids = match id_lists_get(m, k) {
            Some(v) => v,
            None => Vec::new(),
        };
        ids.push(id);
        id_lists_insert(m, k, ids);
    }

    /// Stores `sym` and indexes it by lower-cased name, by file, and under its parent.
    pub fn insert_symbol(&mut self, sym: Symbol) -> (r: SymbolId)
        ensures
            r == sym.id,
            final(self)@ == spec_insert_symbol(old(self)@, sym@),
            ascii_text(sym.name@) ==> final(self)@.name_index == append_id(
                old(self)@.name_index,
                ascii_lowercase(sym.name@),
                sym.id,
            ),
            indexes_consistent(old(self)@) && !old(self)@.symbols.contains_key(sym.id.0) ==> indexes_consistent(
                final(self)@,
            ),
    {
        proof {
            if indexes_consistent(self@) && !self@.symbols.contains_key(sym.id.0) {
                lemma_insert_symbol_consistent(self@, sym@);
            }
        }
        let id = sym.id;
        let name_lower = to_lowercase(sym.name.as_str());
        let copy = sym.duplicate();
        symbol_table_insert(&mut self.symbols, id.0, copy);
        Self::append_named(&mut self.name_index, name_lower, id);
        if let Some(parent) = sym.parent {
            if let Some(mut p) = symbol_table_get(&self.symbols, parent.0) {
                p.children.push(id);
                symbol_table_insert(&mut self.symbols, parent.0, p);
            }
        }
        Self::append_named(&mut self.file_symbols, sym.file.clone(), id);
        id
    }

    /// Records that `reference.from` refers to `reference.to`.
    pub fn insert_reference(&mut self, reference: Reference)
        ensures
            final(self)@ == spec_insert_reference(old(self)@, reference),
    {
        Self::append_numbered(&mut self.references, reference.from.0, reference.to);
    }

    /// The symbol stored under `id`, if any.
    pub fn lookup(&self, id: &SymbolId) -> (r: Option<Symbol>)
        ensures
            r is Some <==> self@.symbols.contains_key(id.0),
            r matches Some(s) ==> s@ == self@.symbols[id.0],
    {
        symbol_table_get(&self.symbols, id.0)
    }

    fn symbols_for(&self, ids: &Vec<SymbolId>) -> (r: Vec<Symbol>)
        ensures
            views_of(r@) == ids_to_symbols(self@.symbols, ids@),
    {
        let mut r: Vec<Symbol> = Vec::new();
        let mut i: usize = 0;
        while i < ids.len()
            invariant
                i <= ids@.len(),
                views_of(r@) == ids_to_symbols(self@.symbols, ids@.subrange(0, i as int)),
            decreases ids@.len() - i,
        {
            let ghost before = r@;
            assert(ids@.subrange(0, i + 1).drop_last() =~= ids@.subrange(0, i as int));
            if let Some(s) = symbol_table_get(&self.symbols, ids[i].0) {
                r.push(s);
                assert(views_of(r@) =~= views_of(before).push(s@));
            }
            i = i + 1;
        }
        assert(ids@.subrange(0, ids@.len() as int) =~= ids@);
        r
    }

    /// The stored symbols whose lower-cased name equals that of `name`.
    pub fn find_by_name(&self, name: &str) -> (r: Vec<Symbol>)
        ensures
            views_of(r@) == ids_to_symbols(
                self@.symbols,
                list_or_empty(self@.name_index, lowercase(name@)),
            ),
            ascii_text(name@) ==> views_of(r@) == ids_to_symbols(
                self@.symbols,
                list_or_empty(self@.name_index, ascii_lowercase(name@)),
            ),
    {
        let lower = to_lowercase(name);
        match named_id_lists_get(&self.name_index, lower.as_str()) {
            Some(ids) => self.symbols_for(&ids),
            None => {
                let r: Vec<Symbol> = Vec::new();
                assert(views_of(r@) =~= seq![]);
                r
            },
        }
    }

    /// The ids that `id` refers to.
    pub fn references_for(&self, id: &SymbolId) -> (r: Vec<SymbolId>)
        ensures
            r@ == list_or_empty(self@.references, id.0),
    {
        match id_lists_get(&self.references, id.0) {
            Some(v) => v,
            None => Vec::new(),
        }
    }

    /// The stored symbols of `file`, in insertion order.
    pub fn document_symbols(&self, file: &str) -> (r: Vec<Symbol>)
        ensures
            views_of(r@) == ids_to_symbols(self@.symbols, list_or_empty(self@.file_symbols, file@)),
    {
        match named_id_lists_get(&self.file_symbols, file) {
            Some(ids) => self.symbols_for(&ids),
            None => {
                let r: Vec<Symbol> = Vec::new();
                assert(views_of(r@) =~= seq![]);
                r
            },
        }
    }
}

} // verus!

verus! {

/// `keys` lists every key of `m` exactly once.
pub open spec fn enumerates<K, V>(keys: Seq<K>, m: Map<K, V>) -> bool {
    &&& forall|i: int| 0 <= i < keys.len() ==> #[trigger] m.contains_key(keys[i])
    &&& forall|i: int, j: int| 0 <= i < j < keys.len() ==> keys[i] != keys[j]
    &&& forall|k: K| #[trigger] m.contains_key(k) ==> exists|i: int| 0 <= i < keys.len() && keys[i] == k
}

/// The stored symbols of every name among `keys` that starts with `p`, name after name.
pub open spec fn prefix_symbols(db: DbView, keys: Seq<Seq<char>>, p: Seq<char>) -> Seq<SymbolView>
    decreases keys.len(),
{
    if keys.len() == 0 {
        seq![]
    } else {
        let rest = prefix_symbols(db, keys.drop_last(), p);
        let k = keys.last();
        if crate::text::has_prefix(k, p) {
            rest + ids_to_symbols(db.symbols, list_or_empty(db.name_index, k))
        } else {
            rest
        }
    }
}

/// The position lies within the range (both ends included).
pub open spec fn range_contains(r: Range, p: Position) -> bool {
    &&& p.line >= r.start.line
    &&& p.line <= r.end.line
    &&& (p.line != r.start.line || p.character >= r.start.character)
    &&& (p.line != r.end.line || p.character <= r.end.character)
}

pub open spec fn at_position(s: Seq<SymbolView>, p: Position) -> Seq<SymbolView>
    decreases s.len(),
{
    if s.len() == 0 {
        seq![]
    } else {
        let rest = at_position(s.drop_last(), p);
        if range_contains(s.last().range, p) {
            rest.push(s.last())
        } else {
            rest
        }
    }
}

/// Size measure of a range, computed in wrapping 32-bit arithmetic:
/// lines count 10000 each, plus the column difference.
pub open spec fn range_area(r: Range) -> u32 {
    r.end.line.wrapping_sub(r.start.line).wrapping_mul(10000).wrapping_add(
        r.end.character.wrapping_sub(r.start.character),
    )
}

/// The last of the symbols with the smallest area.
pub open spec fn innermost(s: Seq<SymbolView>) -> Option<SymbolView>
    decreases s.len(),
{
    if s.len() == 0 {
        None
    } else {
        match innermost(s.drop_last()) {
            None => Some(s.last()),
            Some(b) => if range_area(s.last().range) <= range_area(b.range) {
                Some(s.last())
            } else {
                Some(b)
            },
        }
    }
}

/// The innermost of a list is absent exactly when the list is empty;
/// otherwise it is the element at some position `k` whose area is the least
/// of the list, and every element after `k` has a larger area (so it is the
/// last element of least area).
pub proof fn lemma_innermost_is_last_smallest(s: Seq<SymbolView>)
    ensures
        innermost(s) is None <==> s.len() == 0,
        innermost(s) matches Some(x) ==> exists|k: int|
            #![trigger s[k]]
            0 <= k < s.len() && s[k] == x && (forall|j: int|
                0 <= j < s.len() ==> range_area(x.range) <= range_area(#[trigger] s[j].range)) && (forall|j: int|
                k < j < s.len() ==> range_area(x.range) < range_area(#[trigger] s[j].range)),
    decreases s.len(),
{
    if s.len() > 0 {
        let t = s.drop_last();
        lemma_innermost_is_last_smallest(t);
        let n = s.len() - 1;
        match innermost(t) {
            None => {
                assert(s[n] == s.last());
            },
            Some(b) => {
                let k = choose|k: int|
                    #![trigger t[k]]
                    0 <= k < t.len() && t[k] == b && (forall|j: int|
                        0 <= j < t.len() ==> range_area(b.range) <= range_area(#[trigger] t[j].range)) && (forall|j: int|
                        k < j < t.len() ==> range_area(b.range) < range_area(#[trigger] t[j].range));
                if range_area(s.last().range) <= range_area(b.range) {
                    assert(s[n] == s.last());
                    assert forall|j: int| 0 <= j < s.len() implies range_area(s.last().range) <= range_area(
                        #[trigger] s[j].range,
                    ) by {
                        if j < n {
                            assert(s[j] == t[j]);
                        }
                    }
                } else {
                    assert(s[k] == t[k]);
                    assert forall|j: int| 0 <= j < s.len() implies range_area(b.range) <= range_area(
                        #[trigger] s[j].range,
                    ) by {
                        if j < n {
                            assert(s[j] == t[j]);
                        }
                    }
                    assert forall|j: int| k < j < s.len() implies range_area(b.range) < range_area(
                        #[trigger] s[j].range,
                    ) by {
                        if j < n {
                            assert(s[j] == t[j]);
                        }
                    }
                }
            },
        }
    }
}

fn area_of(r: &Range) -> (a: u32)
    ensures
        a == range_area(*r),
{
    r.end.line.wrapping_sub(r.start.line).wrapping_mul(10000).wrapping_add(
        r.end.character.wrapping_sub(r.start.character),
    )
}

impl Database {
    /// The stored symbols of every indexed name that starts with the
    /// lower-cased `prefix`; names are visited in the table's own order.
    pub fn find_by_prefix(&self, prefix: &str) -> (r: Vec<Symbol>)
        ensures
            exists|keys: Seq<Seq<char>>|
                enumerates(keys, self@.name_index) && views_of(r@) == prefix_symbols(
                    self@,
                    keys,
                    lowercase(prefix@),
                ),
            ascii_text(prefix@) ==> exists|keys: Seq<Seq<char>>|
                enumerates(keys, self@.name_index) && views_of(r@) == prefix_symbols(
                    self@,
                    keys,
                    ascii_lowercase(prefix@),
                ),
    {
        let lower = to_lowercase(prefix);
        let lower_chars = crate::text::chars_of(lower.as_str());
        let entries = named_id_lists_entries(&self.name_index);
        let ghost keys = entries@.map_values(|e: (String, Vec<SymbolId>)| e.0@);
        let mut r: Vec<Symbol> = Vec::new();
        let mut i: usize = 0;
        assert(views_of(r@) =~= prefix_symbols(self@, keys.subrange(0, 0), lower_chars@));
        while i < entries.len()
            invariant
                i <= entries@.len(),
                keys == entries@.map_values(|e: (String, Vec<SymbolId>)| e.0@),
                lower_chars@ == lowercase(prefix@),
                forall|q: int|
                    0 <= q < entries@.len() ==> #[trigger] named_id_lists(self.name_index).contains_key(
                        entries@[q].0@,
                    ) && named_id_lists(self.name_index)[entries@[q].0@] == entries@[q].1@,
                views_of(r@) == prefix_symbols(self@, keys.subrange(0, i as int), lower_chars@),
            decreases entries@.len() - i,
        {
            let ghost before = r@;
            assert(keys.subrange(0, i + 1).drop_last() =~= keys.subrange(0, i as int));
            let key_chars = crate::text::chars_of(entries[i].0.as_str());
            if crate::text::starts_with(key_chars.as_slice(), lower_chars.as_slice()) {
                let mut found = self.symbols_for(&entries[i].1);
                let ghost found_v = found@;
                r.append(&mut found);
                assert(views_of(r@) =~= views_of(before) + views_of(found_v));
            }
            i = i + 1;
        }
        proof {
            assert(keys.subrange(0, entries@.len() as int) =~= keys);
            assert(enumerates(keys, self@.name_index)) by {
                assert forall|k: Seq<char>| #[trigger]
                    self@.name_index.contains_key(k) implies exists|q: int|
                    0 <= q < keys.len() && keys[q] == k by {
                    let q = choose|q: int| 0 <= q < entries@.len() && entries@[q].0@ == k;
                    assert(keys[q] == k);
                }
            }
        }
        r
    }

    /// The stored symbols of `file` whose range contains `pos`.
    pub fn find_at_position(&self, file: &str, pos: Position) -> (r: Vec<Symbol>)
        ensures
            views_of(r@) == at_position(
                ids_to_symbols(self@.symbols, list_or_empty(self@.file_symbols, file@)),
                pos,
            ),
    {
        let all = self.document_symbols(file);
        let mut r: Vec<Symbol> = Vec::new();
        let mut i: usize = 0;
        while i < all.len()
            invariant
                i <= all@.len(),
                views_of(r@) == at_position(views_of(all@).subrange(0, i as int), pos),
            decreases all@.len() - i,
        {
            let ghost before = r@;
            assert(views_of(all@).subrange(0, i + 1).drop_last() =~= views_of(all@).subrange(
                0,
                i as int,
            ));
            let s = &all[i];
            let rg = s.range;
            if pos.line >= rg.start.line && pos.line <= rg.end.line && (pos.line
                != rg.start.line || pos.character >= rg.start.character) && (pos.line
                != rg.end.line || pos.character <= rg.end.character) {
                r.push(s.duplicate());
                assert(views_of(r@) =~= views_of(before).push(s@));
            }
            i = i + 1;
        }
        assert(views_of(all@).subrange(0, all@.len() as int) =~= views_of(all@));
        r
    }

    /// Among the symbols of `file` containing `pos`, the last one of smallest area.
    pub fn find_innermost_at_position(&self, file: &str, pos: Position) -> (r: Option<Symbol>)
        ensures
            match r {
                Some(s) => innermost(
                    at_position(
                        ids_to_symbols(self@.symbols, list_or_empty(self@.file_symbols, file@)),
                        pos,
                    ),
                ) == Some(s@),
                None => innermost(
                    at_position(
                        ids_to_symbols(self@.symbols, list_or_empty(self@.file_symbols, file@)),
                        pos,
                    ),
                ) is None,
            },
    {
        let cands = self.find_at_position(file, pos);
        let mut best: Option<usize> = None;
        let mut i: usize = 0;
        while i < cands.len()
            invariant
                i <= cands@.len(),
                match best {
                    Some(b) => b < i && innermost(views_of(cands@).subrange(0, i as int)) == Some(
                        cands@[b as int]@,
                    ),
                    None => i == 0,
                },
            decreases cands@.len() - i,
        {
            assert(views_of(cands@).subrange(0, i + 1).drop_last() =~= views_of(cands@).subrange(
                0,
                i as int,
            ));
            match best {
                None => {
                    best = Some(i);
                },
                Some(b) => {
                    if area_of(&cands[i].range) <= area_of(&cands[b].range) {
                        best = Some(i);
                    }
                },
            }
            i = i + 1;
        }
        assert(views_of(cands@).subrange(0, cands@.len() as int) =~= views_of(cands@));
        match best {
            Some(b) => Some(cands[b].duplicate()),
            None => None,
        }
    }
}

} // verus!

verus! {

/// `m` without the keys of `ids`, removed one after the other.
pub open spec fn remove_ids<V>(m: Map<u64, V>, ids: Seq<SymbolId>) -> Map<u64, V>
    decreases ids.len(),
{
    if ids.len() == 0 {
        m
    } else {
        remove_ids(m, ids.drop_last()).remove(ids.last().0)
    }
}

/// The ids of `ids` that are still stored in `syms`, in order.
pub open spec fn live_ids(ids: Seq<SymbolId>, syms: Map<u64, SymbolView>) -> Seq<SymbolId>
    decreases ids.len(),
{
    if ids.len() == 0 {
        seq![]
    } else {
        let rest = live_ids(ids.drop_last(), syms);
        if syms.contains_key(ids.last().0) {
            rest.push(ids.last())
        } else {
            rest
        }
    }
}

/// The name index restricted to stored symbols, without names left empty.
pub open spec fn prune_names(names: Map<Seq<char>, Seq<SymbolId>>, syms: Map<u64, SymbolView>) -> Map<
    Seq<char>,
    Seq<SymbolId>,
> {
    Map::new(
        |k: Seq<char>| names.contains_key(k) && live_ids(names[k], syms).len() > 0,
        |k: Seq<char>| live_ids(names[k], syms),
    )
}

/// The names of `done` pruned, the others as they were.
pub open spec fn partly_pruned(
    names: Map<Seq<char>, Seq<SymbolId>>,
    syms: Map<u64, SymbolView>,
    done: Seq<Seq<char>>,
) -> Map<Seq<char>, Seq<SymbolId>> {
    Map::new(
        |k: Seq<char>| names.contains_key(k) && (done.contains(k) ==> live_ids(names[k], syms).len() > 0),
        |k: Seq<char>|
            if done.contains(k) {
                live_ids(names[k], syms)
            } else {
                names[k]
            },
    )
}

/// The database once everything it held for `file` is dropped.
pub open spec fn spec_clear_file(db: DbView, file: Seq<char>) -> DbView {
    let old_ids = list_or_empty(db.file_symbols, file);
    let syms = remove_ids(db.symbols, old_ids);
    DbView {
        symbols: syms,
        references: remove_ids(db.references, old_ids),
        file_symbols: db.file_symbols.remove(file),
        name_index: prune_names(db.name_index, syms),
        ..db
    }
}

pub open spec fn insert_symbols(db: DbView, s: Seq<SymbolView>) -> DbView
    decreases s.len(),
{
    if s.len() == 0 {
        db
    } else {
        spec_insert_symbol(insert_symbols(db, s.drop_last()), s.last())
    }
}

pub open spec fn insert_references(db: DbView, rs: Seq<Reference>) -> DbView
    decreases rs.len(),
{
    if rs.len() == 0 {
        db
    } else {
        spec_insert_reference(insert_references(db, rs.drop_last()), rs.last())
    }
}

/// `s` up to its first `c`.
pub open spec fn before_char(s: Seq<char>, c: char) -> Seq<char> {
    match crate::text::find(s, seq![c]) {
        Some(k) => s.subrange(0, k),
        None => s,
    }
}

/// The number of a `SyscallNum::NAME (N)` item: the text after the prefix
/// up to the first `(`, trimmed, read as a `u64`.
pub open spec fn syscall_number_of(name: Seq<char>) -> Option<u64> {
    let p = "SyscallNum::"@;
    if crate::text::has_prefix(name, p) {
        crate::text::parse_u64_spec(
            crate::text::trim(before_char(name.subrange(p.len() as int, name.len() as int), '(')),
        )
    } else {
        None
    }
}

/// Syscall items with a number go to the syscall table, shell commands to
/// the command table by name; other items are not registered.
pub open spec fn spec_register_item(db: DbView, it: NeodosItemView) -> DbView {
    match it.kind {
        NeodosItemKind::SyscallHandler => match syscall_number_of(it.name) {
            Some(n) => DbView { syscalls: db.syscalls.insert(n, it), ..db },
            None => db,
        },
        NeodosItemKind::ShellCommand => DbView {
            shell_commands: db.shell_commands.insert(it.name, it),
            ..db
        },
        _ => db,
    }
}

pub open spec fn register_items(db: DbView, items: Seq<NeodosItemView>) -> DbView
    decreases items.len(),
{
    if items.len() == 0 {
        db
    } else {
        spec_register_item(register_items(db, items.drop_last()), items.last())
    }
}

/// The database after `replace_file_index(idx)`: what it held for the file is
/// dropped, the index is recorded, and its symbols, references and items are
/// added in order.
pub open spec fn spec_replace_file_index(db: DbView, idx: FileIndexView) -> DbView {
    let d1 = spec_clear_file(db, idx.file);
    let d2 = DbView { file_indices: d1.file_indices.insert(idx.file, idx), ..d1 };
    register_items(insert_references(insert_symbols(d2, idx.symbols), idx.references), idx.neodos_items)
}

fn syscall_number(name: &str) -> (r: Option<u64>)
    ensures
        r == syscall_number_of(name@),
{
    let cs = crate::text::chars_of(name);
    let p = crate::text::chars_of("SyscallNum::");
    if !crate::text::starts_with(cs.as_slice(), p.as_slice()) {
        return None;
    }
    let open: [char; 1] = ['('];
    assert(open@ =~= seq!['(']);
    let rest = crate::text::slice_to_vec_chars(cs.as_slice(), p.len(), cs.len());
    let end = match crate::text::find_chars(rest.as_slice(), &open) {
        Some(k) => k,
        None => rest.len(),
    };
    let (a, b) = crate::text::trim_bounds(rest.as_slice(), 0, end);
    let num = crate::text::slice_to_vec_chars(rest.as_slice(), a, b);
    assert(rest@.subrange(0, rest@.len() as int) =~= rest@);
    proof {
        crate::text::lemma_find_from_bounds(rest@, seq!['('], 0);
    }
    crate::text::parse_u64(num.as_slice())
}

impl Database {
    fn live_list(&self, ids: &Vec<SymbolId>) -> (r: Vec<SymbolId>)
        ensures
            r@ == live_ids(ids@, self@.symbols),
    {
        let mut r: Vec<SymbolId> = Vec::new();
        let mut j: usize = 0;
        while j < ids.len()
            invariant
                j <= ids@.len(),
                r@ == live_ids(ids@.subrange(0, j as int), self@.symbols),
            decreases ids@.len() - j,
        {
            assert(ids@.subrange(0, j + 1).drop_last() =~= ids@.subrange(0, j as int));
            if symbol_table_contains(&self.symbols, ids[j].0) {
                r.push(ids[j]);
            }
            j = j + 1;
        }
        assert(ids@.subrange(0, ids@.len() as int) =~= ids@);
        r
    }

    fn prune_name_index(&mut self)
        ensures
            final(self)@ == (DbView {
                name_index: prune_names(old(self)@.name_index, old(self)@.symbols),
                ..old(self)@
            }),
    {
        let ghost orig = self@.name_index;
        let entries = named_id_lists_entries(&self.name_index);
        let ghost keys = entries@.map_values(|e: (String, Vec<SymbolId>)| e.0@);
        let mut i: usize = 0;
        assert(orig =~= partly_pruned(orig, self@.symbols, keys.subrange(0, 0)));
        while i < entries.len()
            invariant
                i <= entries@.len(),
                keys == entries@.map_values(|e: (String, Vec<SymbolId>)| e.0@),
                forall|q: int|
                    0 <= q < entries@.len() ==> #[trigger] orig.contains_key(entries@[q].0@)
                        && orig[entries@[q].0@] == entries@[q].1@,
                forall|q: int, w: int| 0 <= q < w < entries@.len() ==> entries@[q].0@ != entries@[w].0@,
                self@ == (DbView {
                    name_index: partly_pruned(orig, old(self)@.symbols, keys.subrange(0, i as int)),
                    ..old(self)@
                }),
            decreases entries@.len() - i,
        {
            let live = self.live_list(&entries[i].1);
            let ghost k = entries@[i as int].0@;
            let ghost done = keys.subrange(0, i as int);
            let ghost done2 = keys.subrange(0, i + 1);
            assert(keys[i as int] == k);
            assert(!done.contains(k)) by {
                if done.contains(k) {
                    let w = choose|w: int| 0 <= w < done.len() && done[w] == k;
                    assert(entries@[w].0@ == k);
                }
            }
            assert forall|x: Seq<char>| #[trigger] done2.contains(x) == (done.contains(x) || x == k) by {
                if done2.contains(x) {
                    let w = choose|w: int| 0 <= w < done2.len() && done2[w] == x;
                    if w < i {
                        assert(done[w] == x);
                    }
                }
                if done.contains(x) {
                    let w = choose|w: int| 0 <= w < done.len() && done[w] == x;
                    assert(done2[w] == x);
                }
                if x == k {
                    assert(done2[i as int] == x);
                }
            }
            let ghost before = named_id_lists(self.name_index);
            let ghost syms = self@.symbols;
            assert(syms == old(self)@.symbols);
            assert(orig.contains_key(entries@[i as int].0@));
            assert(orig[k] == entries@[i as int].1@);
            assert(live@ == live_ids(orig[k], syms));
            if live.len() == 0 {
                named_id_lists_remove(&mut self.name_index, entries[i].0.as_str());
            } else {
                named_id_lists_insert(&mut self.name_index, entries[i].0.clone(), live);
            }
            let ghost after = named_id_lists(self.name_index);
            let ghost target = partly_pruned(orig, syms, done2);
            assert forall|x: Seq<char>| #[trigger] after.contains_key(x) == target.contains_key(x) by {
                if x != k {
                    assert(done2.contains(x) == done.contains(x));
                }
            }
            assert forall|x: Seq<char>| #[trigger] after.contains_key(x) implies after[x] == target[x] by {
                if x != k {
                    assert(done2.contains(x) == done.contains(x));
                } else {
                    assert(done2.contains(x));
                }
            }
            assert(named_id_lists(self.name_index) =~= partly_pruned(
                orig,
                old(self)@.symbols,
                done2,
            ));
            i = i + 1;
        }
        proof {
            assert(keys.subrange(0, entries@.len() as int) =~= keys);
            assert forall|x: Seq<char>| #[trigger] orig.contains_key(x) implies keys.contains(x) by {
                let q = choose|q: int| 0 <= q < entries@.len() && entries@[q].0@ == x;
                assert(keys[q] == x);
            }
            assert(named_id_lists(self.name_index) =~= prune_names(orig, old(self)@.symbols));
        }
    }

    fn clear_file(&mut self, file: &str)
        ensures
            final(self)@ == spec_clear_file(old(self)@, file@),
    {
        let old_ids = match named_id_lists_get(&self.file_symbols, file) {
            Some(v) => v,
            None => Vec::new(),
        };
        let ghost syms0 = self@.symbols;
        let ghost refs0 = self@.references;
        let mut i: usize = 0;
        while i < old_ids.len()
            invariant
                i <= old_ids@.len(),
                old_ids@ == list_or_empty(old(self)@.file_symbols, file@),
                self@ == (DbView {
                    symbols: remove_ids(syms0, old_ids@.subrange(0, i as int)),
                    references: remove_ids(refs0, old_ids@.subrange(0, i as int)),
                    ..old(self)@
                }),
                syms0 == old(self)@.symbols,
                refs0 == old(self)@.references,
            decreases old_ids@.len() - i,
        {
            assert(old_ids@.subrange(0, i + 1).drop_last() =~= old_ids@.subrange(0, i as int));
            symbol_table_remove(&mut self.symbols, old_ids[i].0);
            id_lists_remove(&mut self.references, old_ids[i].0);
            i = i + 1;
        }
        assert(old_ids@.subrange(0, old_ids@.len() as int) =~= old_ids@);
        named_id_lists_remove(&mut self.file_symbols, file);
        self.prune_name_index();
    }

    fn register_item(&mut self, item: &NeodosItem)
        ensures
            final(self)@ == spec_register_item(old(self)@, item@),
    {
        match item.kind {
            NeodosItemKind::SyscallHandler => {
                if let Some(num) = syscall_number(item.name.as_str()) {
                    numbered_items_insert(&mut self.syscalls, num, item.duplicate());
                }
            },
            NeodosItemKind::ShellCommand => {
                named_items_insert(&mut self.shell_commands, item.name.clone(), item.duplicate());
            },
            _ => {},
        }
    }

    /// Replaces everything indexed for `index.file` by the contents of `index`.
    pub fn replace_file_index(&mut self, index: FileIndex)
        ensures
            final(self)@ == spec_replace_file_index(old(self)@, index@),
            indexes_consistent(old(self)@) && (forall|k: int|
                0 <= k < index@.symbols.len() ==> #[trigger] index@.symbols[k].file == index@.file
                    && !old(self)@.symbols.contains_key(index@.symbols[k].id.0)) && (forall|j: int, k: int|
                0 <= j < k < index@.symbols.len() ==> #[trigger] index@.symbols[j].id != #[trigger] index@.symbols[k].id)
                ==> indexes_consistent(final(self)@),
    {
        proof {
            if indexes_consistent(self@) && (forall|k: int|
                0 <= k < index@.symbols.len() ==> #[trigger] index@.symbols[k].file == index@.file
                    && !self@.symbols.contains_key(index@.symbols[k].id.0)) && (forall|j: int, k: int|
                0 <= j < k < index@.symbols.len() ==> #[trigger] index@.symbols[j].id != #[trigger] index@.symbols[k].id) {
                lemma_replace_keeps_consistency(self@, index@);
            }
        }
        self.clear_file(index.file.as_str());
        file_index_table_insert(&mut self.file_indices, index.file.clone(), index.duplicate());
        let ghost d2 = self@;
        let mut i: usize = 0;
        while i < index.symbols.len()
            invariant
                i <= index.symbols@.len(),
                self@ == insert_symbols(d2, index@.symbols.subrange(0, i as int)),
            decreases index.symbols@.len() - i,
        {
            assert(index@.symbols.subrange(0, i + 1).drop_last() =~= index@.symbols.subrange(
                0,
                i as int,
            ));
            self.insert_symbol(index.symbols[i].duplicate());
            i = i + 1;
        }
        assert(index@.symbols.subrange(0, index.symbols@.len() as int) =~= index@.symbols);
        let ghost d3 = self@;
        let mut j: usize = 0;
        while j < index.references.len()
            invariant
                j <= index.references@.len(),
                self@ == insert_references(d3, index@.references.subrange(0, j as int)),
            decreases index.references@.len() - j,
        {
            assert(index@.references.subrange(0, j + 1).drop_last() =~= index@.references.subrange(
                0,
                j as int,
            ));
            self.insert_reference(index.references[j]);
            j = j + 1;
        }
        assert(index@.references.subrange(0, index.references@.len() as int) =~= index@.references);
        let ghost d4 = self@;
        let mut k: usize = 0;
        while k < index.neodos_items.len()
            invariant
                k <= index.neodos_items@.len(),
                self@ == register_items(d4, index@.neodos_items.subrange(0, k as int)),
            decreases index.neodos_items@.len() - k,
        {
            assert(index@.neodos_items.subrange(0, k + 1).drop_last()
                =~= index@.neodos_items.subrange(0, k as int));
            self.register_item(&index.neodos_items[k]);
            k = k + 1;
        }
        assert(index@.neodos_items.subrange(0, index.neodos_items@.len() as int)
            =~= index@.neodos_items);
    }
}

} // verus!

verus! {

/// Looking a symbol up right after inserting it gives it back, unless it
/// names itself as its parent (then it is also recorded as its own child).
pub proof fn lemma_lookup_after_insert(db: DbView, s: SymbolView)
    requires
        s.parent != Some(s.id),
    ensures
        spec_insert_symbol(db, s).symbols.contains_key(s.id.0),
        spec_insert_symbol(db, s).symbols[s.id.0] == s,
{
}

/// After inserting a symbol, the symbols found under its name end with it
/// (unless it names itself as its parent).
pub proof fn lemma_find_by_name_after_insert(db: DbView, s: SymbolView)
    requires
        s.parent != Some(s.id),
    ensures
        ({
            let d = spec_insert_symbol(db, s);
            let found = ids_to_symbols(d.symbols, list_or_empty(d.name_index, lowercase(s.name)));
            found.len() > 0 && found.last() == s
        }),
{
    let d = spec_insert_symbol(db, s);
    let ids = list_or_empty(d.name_index, lowercase(s.name));
    assert(ids == list_or_empty(db.name_index, lowercase(s.name)).push(s.id));
    assert(ids.drop_last() =~= list_or_empty(db.name_index, lowercase(s.name)));
}

/// Names are matched without regard to ASCII letter case: right after a
/// symbol with an ASCII name is inserted, every ASCII query that equals the
/// name up to letter case finds it, last among the symbols of that name
/// (unless it names itself as its parent).
pub proof fn lemma_find_by_name_ignores_ascii_case(db: DbView, s: SymbolView, query: Seq<char>)
    requires
        s.parent != Some(s.id),
        ascii_text(s.name),
        ascii_text(query),
        eq_ignore_ascii_case_spec(query, s.name),
    ensures
        ({
            let syms = spec_insert_symbol(db, s).symbols;
            let index = append_id(db.name_index, ascii_lowercase(s.name), s.id);
            let found = ids_to_symbols(syms, list_or_empty(index, ascii_lowercase(query)));
            found.len() > 0 && found.last() == s
        }),
{
    assert(ascii_lowercase(query) =~= ascii_lowercase(s.name));
    let syms = spec_insert_symbol(db, s).symbols;
    let key = ascii_lowercase(s.name);
    let ids = list_or_empty(append_id(db.name_index, key, s.id), key);
    assert(ids == list_or_empty(db.name_index, key).push(s.id));
    assert(ids.drop_last() =~= list_or_empty(db.name_index, key));
    assert(syms.contains_key(s.id.0) && syms[s.id.0] == s);
}

/// The references recorded for a symbol end with the last one inserted from it.
pub proof fn lemma_references_after_insert(db: DbView, r: Reference)
    ensures
        list_or_empty(spec_insert_reference(db, r).references, r.from.0) == list_or_empty(db.references, r.from.0).push(
            r.to,
        ),
{
}

/// No id of `ids` is left in `m` after they are removed.
pub proof fn lemma_remove_ids_gone<V>(m: Map<u64, V>, ids: Seq<SymbolId>, id: SymbolId)
    requires
        ids.contains(id),
    ensures
        !remove_ids(m, ids).contains_key(id.0),
    decreases ids.len(),
{
    if ids.last() != id {
        assert(ids.drop_last().contains(id)) by {
            let k = choose|k: int| 0 <= k < ids.len() && ids[k] == id;
            assert(ids.drop_last()[k] == id);
        }
        lemma_remove_ids_gone(m, ids.drop_last(), id);
    }
}

/// Inserting symbols stores no key but theirs and those stored before.
pub proof fn lemma_insert_symbols_keys(db: DbView, s: Seq<SymbolView>, k: u64)
    requires
        !db.symbols.contains_key(k),
        forall|j: int| 0 <= j < s.len() ==> #[trigger] s[j].id.0 != k,
    ensures
        !insert_symbols(db, s).symbols.contains_key(k),
    decreases s.len(),
{
    if s.len() > 0 {
        lemma_insert_symbols_keys(db, s.drop_last(), k);
    }
}

/// Inserting references leaves the symbols as they are.
pub proof fn lemma_insert_references_symbols(db: DbView, rs: Seq<Reference>)
    ensures
        insert_references(db, rs).symbols == db.symbols,
        insert_references(db, rs).file_symbols == db.file_symbols,
        insert_references(db, rs).name_index == db.name_index,
        insert_references(db, rs).file_indices == db.file_indices,
    decreases rs.len(),
{
    if rs.len() > 0 {
        lemma_insert_references_symbols(db, rs.drop_last());
    }
}

/// Registering items leaves the symbols as they are.
pub proof fn lemma_register_items_symbols(db: DbView, items: Seq<NeodosItemView>)
    ensures
        register_items(db, items).symbols == db.symbols,
        register_items(db, items).file_symbols == db.file_symbols,
        register_items(db, items).name_index == db.name_index,
        register_items(db, items).file_indices == db.file_indices,
    decreases items.len(),
{
    if items.len() > 0 {
        lemma_register_items_symbols(db, items.drop_last());
    }
}

/// Replacing a file's index drops each symbol the file had before that the
/// new index does not hold again.
pub proof fn lemma_replace_drops_old_symbols(db: DbView, idx: FileIndexView, id: SymbolId)
    requires
        list_or_empty(db.file_symbols, idx.file).contains(id),
        forall|j: int| 0 <= j < idx.symbols.len() ==> #[trigger] idx.symbols[j].id != id,
    ensures
        !spec_replace_file_index(db, idx).symbols.contains_key(id.0),
{
    let d1 = spec_clear_file(db, idx.file);
    lemma_remove_ids_gone(db.symbols, list_or_empty(db.file_symbols, idx.file), id);
    let d2 = DbView { file_indices: d1.file_indices.insert(idx.file, idx), ..d1 };
    assert forall|j: int| 0 <= j < idx.symbols.len() implies #[trigger] idx.symbols[j].id.0 != id.0 by {
        assert(idx.symbols[j].id != id);
    }
    lemma_insert_symbols_keys(d2, idx.symbols, id.0);
    let d3 = insert_symbols(d2, idx.symbols);
    lemma_insert_references_symbols(d3, idx.references);
    lemma_register_items_symbols(insert_references(d3, idx.references), idx.neodos_items);
}

/// After replacing a file's index, a symbol is stored under the id of each
/// symbol of the new index.
pub proof fn lemma_replace_stores_new_symbols(db: DbView, idx: FileIndexView, k: int)
    requires
        0 <= k < idx.symbols.len(),
    ensures
        spec_replace_file_index(db, idx).symbols.contains_key(idx.symbols[k].id.0),
{
    let d1 = spec_clear_file(db, idx.file);
    let d2 = DbView { file_indices: d1.file_indices.insert(idx.file, idx), ..d1 };
    lemma_insert_symbols_keeps(d2, idx.symbols, k);
    let d3 = insert_symbols(d2, idx.symbols);
    lemma_insert_references_symbols(d3, idx.references);
    lemma_register_items_symbols(insert_references(d3, idx.references), idx.neodos_items);
}

/// Inserting symbols of file `f` appends their ids, in order, to the list
/// of `f` and leaves the lists of the other files alone.
proof fn lemma_insert_symbols_file_lists(db: DbView, s: Seq<SymbolView>, f: Seq<char>)
    requires
        forall|k: int| 0 <= k < s.len() ==> #[trigger] s[k].file == f,
    ensures
        list_or_empty(insert_symbols(db, s).file_symbols, f) == list_or_empty(db.file_symbols, f) + s.map_values(
            |x: SymbolView| x.id,
        ),
        forall|g: Seq<char>|
            g != f ==> #[trigger] list_or_empty(insert_symbols(db, s).file_symbols, g) == list_or_empty(
                db.file_symbols,
                g,
            ),
        insert_symbols(db, s).file_indices == db.file_indices,
    decreases s.len(),
{
    if s.len() == 0 {
        assert(list_or_empty(db.file_symbols, f) + s.map_values(|x: SymbolView| x.id) =~= list_or_empty(
            db.file_symbols,
            f,
        ));
    } else {
        let t = s.drop_last();
        assert forall|k: int| 0 <= k < t.len() implies #[trigger] t[k].file == f by {
            assert(t[k] == s[k]);
        }
        lemma_insert_symbols_file_lists(db, t, f);
        assert(s.last().file == f);
        assert(s.map_values(|x: SymbolView| x.id) =~= t.map_values(|x: SymbolView| x.id).push(s.last().id));
        assert(list_or_empty(db.file_symbols, f) + s.map_values(|x: SymbolView| x.id) =~= (list_or_empty(
            db.file_symbols,
            f,
        ) + t.map_values(|x: SymbolView| x.id)).push(s.last().id));
        let prev = insert_symbols(db, t);
        assert(insert_symbols(db, s).file_symbols == append_id(prev.file_symbols, f, s.last().id));
        assert forall|g: Seq<char>| g != f implies #[trigger] list_or_empty(insert_symbols(db, s).file_symbols, g)
            == list_or_empty(db.file_symbols, g) by {
            assert(list_or_empty(prev.file_symbols, g) == list_or_empty(db.file_symbols, g));
        }
    }
}

/// Inserting symbols leaves alone the stored symbol `id` when none of them
/// has that id or names it as its parent.
proof fn lemma_insert_symbols_other(db: DbView, s: Seq<SymbolView>, id: u64)
    requires
        forall|k: int| 0 <= k < s.len() ==> #[trigger] s[k].id.0 != id && s[k].parent != Some(SymbolId(id)),
    ensures
        insert_symbols(db, s).symbols.contains_key(id) == db.symbols.contains_key(id),
        db.symbols.contains_key(id) ==> insert_symbols(db, s).symbols[id] == db.symbols[id],
    decreases s.len(),
{
    if s.len() > 0 {
        let t = s.drop_last();
        assert forall|k: int| 0 <= k < t.len() implies #[trigger] t[k].id.0 != id && t[k].parent != Some(SymbolId(id)) by {
            assert(t[k] == s[k]);
        }
        lemma_insert_symbols_other(db, t, id);
        assert(s[s.len() - 1].id.0 != id && s[s.len() - 1].parent != Some(SymbolId(id)));
    }
}

/// Removing ids leaves the other entries as they were.
proof fn lemma_remove_ids_other<V>(m: Map<u64, V>, ids: Seq<SymbolId>, id: u64)
    requires
        !ids.contains(SymbolId(id)),
    ensures
        remove_ids(m, ids).contains_key(id) == m.contains_key(id),
        m.contains_key(id) ==> remove_ids(m, ids)[id] == m[id],
    decreases ids.len(),
{
    if ids.len() > 0 {
        assert(!ids.drop_last().contains(SymbolId(id))) by {
            if ids.drop_last().contains(SymbolId(id)) {
                let k = choose|k: int| 0 <= k < ids.drop_last().len() && ids.drop_last()[k] == SymbolId(id);
                assert(ids[k] == SymbolId(id));
            }
        }
        lemma_remove_ids_other(m, ids.drop_last(), id);
        assert(ids.last() != SymbolId(id)) by {
            if ids.last() == SymbolId(id) {
                assert(ids[ids.len() - 1] == SymbolId(id));
            }
        }
    }
}

/// Replacing the index of a file touches no other file: the new index is
/// recorded for the file; the file's list
/// becomes the ids of the new symbols, in their order; every other file
/// keeps its list; and a stored symbol keeps its entry unless the file
/// listed it before, or a new symbol has its id or names it as its parent.
pub proof fn lemma_replace_touches_only_its_file(db: DbView, idx: FileIndexView)
    requires
        forall|k: int| 0 <= k < idx.symbols.len() ==> #[trigger] idx.symbols[k].file == idx.file,
    ensures
        ({
            let r = spec_replace_file_index(db, idx);
            &&& r.file_indices.contains_key(idx.file) && r.file_indices[idx.file] == idx
            &&& list_or_empty(r.file_symbols, idx.file) == idx.symbols.map_values(|x: SymbolView| x.id)
            &&& forall|g: Seq<char>|
                g != idx.file ==> #[trigger] list_or_empty(r.file_symbols, g) == list_or_empty(db.file_symbols, g)
            &&& forall|id: u64|
                #![trigger r.symbols.contains_key(id)]
                db.symbols.contains_key(id) && !list_or_empty(db.file_symbols, idx.file).contains(SymbolId(id)) && (
                forall|k: int|
                    0 <= k < idx.symbols.len() ==> #[trigger] idx.symbols[k].id.0 != id && idx.symbols[k].parent
                        != Some(SymbolId(id))) ==> r.symbols.contains_key(id) && r.symbols[id] == db.symbols[id]
        }),
{
    let d1 = spec_clear_file(db, idx.file);
    let d2 = DbView { file_indices: d1.file_indices.insert(idx.file, idx), ..d1 };
    let d3 = insert_symbols(d2, idx.symbols);
    let d4 = insert_references(d3, idx.references);
    lemma_insert_symbols_file_lists(d2, idx.symbols, idx.file);
    lemma_insert_references_symbols(d3, idx.references);
    lemma_register_items_symbols(d4, idx.neodos_items);
    let r = spec_replace_file_index(db, idx);
    assert(list_or_empty(d2.file_symbols, idx.file) == Seq::<SymbolId>::empty());
    assert(list_or_empty(r.file_symbols, idx.file) =~= idx.symbols.map_values(|x: SymbolView| x.id));
    assert forall|g: Seq<char>| g != idx.file implies #[trigger] list_or_empty(r.file_symbols, g) == list_or_empty(
        db.file_symbols,
        g,
    ) by {
        assert(list_or_empty(d3.file_symbols, g) == list_or_empty(d2.file_symbols, g));
    }
    let old_ids = list_or_empty(db.file_symbols, idx.file);
    assert forall|id: u64|
        #![trigger r.symbols.contains_key(id)]
        db.symbols.contains_key(id) && !old_ids.contains(SymbolId(id)) && (forall|k: int|
            0 <= k < idx.symbols.len() ==> #[trigger] idx.symbols[k].id.0 != id && idx.symbols[k].parent != Some(
                SymbolId(id),
            )) implies r.symbols.contains_key(id) && r.symbols[id] == db.symbols[id] by {
        lemma_remove_ids_other(db.symbols, old_ids, id);
        lemma_insert_symbols_other(d2, idx.symbols, id);
    }
}

/// Every id listed in `m` is a stored symbol.
pub open spec fn lists_stored(m: Map<Seq<char>, Seq<SymbolId>>, syms: Map<u64, SymbolView>) -> bool {
    forall|k: Seq<char>, i: int|
        #![trigger m[k][i]]
        m.contains_key(k) && 0 <= i < m[k].len() ==> syms.contains_key(m[k][i].0)
}

/// The indexes agree with the symbol table: every listed id is a stored
/// symbol, and a file lists only symbols of that file; every stored symbol
/// is stored under its own id and listed under its file and under its
/// lower-cased name; and no name is listed with no symbol.
pub open spec fn indexes_consistent(db: DbView) -> bool {
    &&& lists_stored(db.name_index, db.symbols)
    &&& lists_stored(db.file_symbols, db.symbols)
    &&& forall|g: Seq<char>, i: int|
        #![trigger db.file_symbols[g][i]]
        db.file_symbols.contains_key(g) && 0 <= i < db.file_symbols[g].len() ==> db.symbols[db.file_symbols[g][i].0].file
            == g
    &&& forall|id: u64|
        #![trigger db.symbols.contains_key(id)]
        db.symbols.contains_key(id) ==> {
            &&& db.symbols[id].id.0 == id
            &&& list_or_empty(db.file_symbols, db.symbols[id].file).contains(SymbolId(id))
            &&& list_or_empty(db.name_index, lowercase(db.symbols[id].name)).contains(SymbolId(id))
        }
    &&& forall|k: Seq<char>| #![trigger db.name_index[k]] db.name_index.contains_key(k) ==> db.name_index[k].len() > 0
}

proof fn lemma_append_keeps(m: Map<Seq<char>, Seq<SymbolId>>, k: Seq<char>, id: SymbolId, g: Seq<char>, x: SymbolId)
    requires
        list_or_empty(m, g).contains(x),
    ensures
        list_or_empty(append_id(m, k, id), g).contains(x),
{
    if g == k {
        let j = choose|j: int| 0 <= j < list_or_empty(m, g).len() && list_or_empty(m, g)[j] == x;
        assert(list_or_empty(append_id(m, k, id), g)[j] == x);
    }
}

/// Inserting a symbol under a fresh id keeps the indexes consistent.
pub proof fn lemma_insert_symbol_consistent(db: DbView, s: SymbolView)
    requires
        indexes_consistent(db),
        !db.symbols.contains_key(s.id.0),
    ensures
        indexes_consistent(spec_insert_symbol(db, s)),
{
    let d = spec_insert_symbol(db, s);
    let n = s.id.0;
    assert forall|x: u64| #[trigger] d.symbols.contains_key(x) <==> (db.symbols.contains_key(x) || x == n) by {}
    assert forall|x: u64|
        #![trigger d.symbols[x]]
        d.symbols.contains_key(x) ==> d.symbols[x].file == (if x == n {
            s.file
        } else {
            db.symbols[x].file
        }) && d.symbols[x].name == (if x == n {
            s.name
        } else {
            db.symbols[x].name
        }) && d.symbols[x].id == (if x == n {
            s.id
        } else {
            db.symbols[x].id
        }) by {}
    assert forall|k: Seq<char>, i: int|
        #![trigger d.name_index[k][i]]
        d.name_index.contains_key(k) && 0 <= i < d.name_index[k].len() implies d.symbols.contains_key(
            d.name_index[k][i].0,
        ) by {
        if k == lowercase(s.name) && i == list_or_empty(db.name_index, k).len() {
        } else {
            assert(d.name_index[k][i] == db.name_index[k][i]);
        }
    }
    assert forall|g: Seq<char>, i: int|
        #![trigger d.file_symbols[g][i]]
        d.file_symbols.contains_key(g) && 0 <= i < d.file_symbols[g].len() implies d.symbols.contains_key(
            d.file_symbols[g][i].0,
        ) && d.symbols[d.file_symbols[g][i].0].file == g by {
        if g == s.file && i == list_or_empty(db.file_symbols, g).len() {
        } else {
            assert(d.file_symbols[g][i] == db.file_symbols[g][i]);
        }
    }
    assert forall|x: u64| #![trigger d.symbols.contains_key(x)] d.symbols.contains_key(x) implies {
        &&& d.symbols[x].id.0 == x
        &&& list_or_empty(d.file_symbols, d.symbols[x].file).contains(SymbolId(x))
        &&& list_or_empty(d.name_index, lowercase(d.symbols[x].name)).contains(SymbolId(x))
    } by {
        if x == n {
            let fl = list_or_empty(d.file_symbols, s.file);
            assert(fl[fl.len() - 1] == s.id);
            let nl = list_or_empty(d.name_index, lowercase(s.name));
            assert(nl[nl.len() - 1] == s.id);
        } else {
            assert(db.symbols.contains_key(x));
            lemma_append_keeps(db.file_symbols, s.file, s.id, db.symbols[x].file, SymbolId(x));
            lemma_append_keeps(db.name_index, lowercase(s.name), s.id, lowercase(db.symbols[x].name), SymbolId(x));
        }
    }
    assert forall|k: Seq<char>| #![trigger d.name_index[k]] d.name_index.contains_key(k) implies d.name_index[k].len() > 0 by {
        if k != lowercase(s.name) {
            assert(db.name_index[k].len() > 0);
        }
    }
}

/// Inserting symbols under fresh, distinct ids keeps the indexes consistent.
pub proof fn lemma_insert_symbols_consistent(db: DbView, s: Seq<SymbolView>)
    requires
        indexes_consistent(db),
        forall|k: int| 0 <= k < s.len() ==> !db.symbols.contains_key(#[trigger] s[k].id.0),
        forall|j: int, k: int| 0 <= j < k < s.len() ==> #[trigger] s[j].id != #[trigger] s[k].id,
    ensures
        indexes_consistent(insert_symbols(db, s)),
    decreases s.len(),
{
    if s.len() > 0 {
        let t = s.drop_last();
        assert forall|k: int| 0 <= k < t.len() implies !db.symbols.contains_key(#[trigger] t[k].id.0) by {
            assert(t[k] == s[k]);
        }
        assert forall|j: int, k: int| 0 <= j < k < t.len() implies #[trigger] t[j].id != #[trigger] t[k].id by {
            assert(t[j] == s[j] && t[k] == s[k]);
        }
        lemma_insert_symbols_consistent(db, t);
        let last = s[s.len() - 1];
        assert(!db.symbols.contains_key(last.id.0));
        assert forall|j: int| 0 <= j < t.len() implies #[trigger] t[j].id.0 != last.id.0 by {
            assert(t[j] == s[j]);
            assert(s[j].id != s[s.len() - 1].id);
        }
        lemma_insert_symbols_keys(db, t, last.id.0);
        lemma_insert_symbol_consistent(insert_symbols(db, t), last);
    }
}

proof fn lemma_remove_ids_within<V>(m: Map<u64, V>, ids: Seq<SymbolId>, x: u64)
    ensures
        remove_ids(m, ids).contains_key(x) ==> m.contains_key(x) && !ids.contains(SymbolId(x)),
    decreases ids.len(),
{
    if ids.len() > 0 {
        lemma_remove_ids_within(m, ids.drop_last(), x);
        if remove_ids(m, ids).contains_key(x) && ids.contains(SymbolId(x)) {
            let k = choose|k: int| 0 <= k < ids.len() && ids[k] == SymbolId(x);
            if k < ids.len() - 1 {
                assert(ids.drop_last()[k] == SymbolId(x));
            }
        }
    }
}

proof fn lemma_live_ids(ids: Seq<SymbolId>, syms: Map<u64, SymbolView>, x: SymbolId)
    ensures
        forall|i: int| 0 <= i < live_ids(ids, syms).len() ==> syms.contains_key(#[trigger] live_ids(ids, syms)[i].0),
        ids.contains(x) && syms.contains_key(x.0) ==> live_ids(ids, syms).contains(x),
    decreases ids.len(),
{
    if ids.len() > 0 {
        lemma_live_ids(ids.drop_last(), syms, x);
        let rest = live_ids(ids.drop_last(), syms);
        if ids.contains(x) && syms.contains_key(x.0) {
            let k = choose|k: int| 0 <= k < ids.len() && ids[k] == x;
            if k < ids.len() - 1 {
                assert(ids.drop_last()[k] == x);
                let j = choose|j: int| 0 <= j < rest.len() && rest[j] == x;
                if syms.contains_key(ids.last().0) {
                    assert(rest.push(ids.last())[j] == x);
                }
            } else {
                assert(rest.push(ids.last())[rest.len() as int] == x);
            }
        }
        if syms.contains_key(ids.last().0) {
            assert forall|i: int| 0 <= i < rest.push(ids.last()).len() implies syms.contains_key(
                #[trigger] rest.push(ids.last())[i].0,
            ) by {
                if i < rest.len() {
                    assert(rest.push(ids.last())[i] == rest[i]);
                }
            }
        }
    }
}

/// Dropping what the database held for a file keeps the indexes consistent.
pub proof fn lemma_clear_file_consistent(db: DbView, f: Seq<char>)
    requires
        indexes_consistent(db),
    ensures
        indexes_consistent(spec_clear_file(db, f)),
{
    let d = spec_clear_file(db, f);
    let old_ids = list_or_empty(db.file_symbols, f);
    assert forall|x: u64| #[trigger] d.symbols.contains_key(x) implies db.symbols.contains_key(x) && !old_ids.contains(
        SymbolId(x),
    ) && d.symbols[x] == db.symbols[x] by {
        lemma_remove_ids_within(db.symbols, old_ids, x);
        lemma_remove_ids_other(db.symbols, old_ids, x);
    }
    assert forall|k: Seq<char>, i: int|
        #![trigger d.name_index[k][i]]
        d.name_index.contains_key(k) && 0 <= i < d.name_index[k].len() implies d.symbols.contains_key(
            d.name_index[k][i].0,
        ) by {
        lemma_live_ids(db.name_index[k], d.symbols, SymbolId(0));
        assert(d.name_index[k] == live_ids(db.name_index[k], d.symbols));
    }
    assert forall|g: Seq<char>, i: int|
        #![trigger d.file_symbols[g][i]]
        d.file_symbols.contains_key(g) && 0 <= i < d.file_symbols[g].len() implies d.symbols.contains_key(
            d.file_symbols[g][i].0,
        ) && d.symbols[d.file_symbols[g][i].0].file == g by {
        let x = db.file_symbols[g][i];
        assert(d.file_symbols[g][i] == x);
        assert(db.symbols.contains_key(x.0) && db.symbols[x.0].file == g);
        if old_ids.contains(x) {
            let j = choose|j: int| 0 <= j < old_ids.len() && old_ids[j] == x;
            assert(db.file_symbols[f][j] == x);
            assert(db.symbols[x.0].file == f);
        }
        lemma_remove_ids_other(db.symbols, old_ids, x.0);
    }
    assert forall|x: u64| #![trigger d.symbols.contains_key(x)] d.symbols.contains_key(x) implies {
        &&& d.symbols[x].id.0 == x
        &&& list_or_empty(d.file_symbols, d.symbols[x].file).contains(SymbolId(x))
        &&& list_or_empty(d.name_index, lowercase(d.symbols[x].name)).contains(SymbolId(x))
    } by {
        assert(db.symbols.contains_key(x));
        let sym = db.symbols[x];
        if sym.file == f {
            assert(old_ids.contains(SymbolId(x)));
        }
        let key = lowercase(sym.name);
        lemma_live_ids(list_or_empty(db.name_index, key), d.symbols, SymbolId(x));
        let live = live_ids(list_or_empty(db.name_index, key), d.symbols);
        let j = choose|j: int| 0 <= j < live.len() && live[j] == SymbolId(x);
        assert(live.len() > 0);
        assert(d.name_index.contains_key(key));
    }
}

proof fn lemma_ids_to_symbols_agree(m1: Map<u64, SymbolView>, m2: Map<u64, SymbolView>, ids: Seq<SymbolId>)
    requires
        forall|i: int|
            0 <= i < ids.len() ==> m1.contains_key(#[trigger] ids[i].0) && m2.contains_key(ids[i].0) && m1[ids[i].0]
                == m2[ids[i].0],
    ensures
        ids_to_symbols(m1, ids) == ids_to_symbols(m2, ids),
    decreases ids.len(),
{
    if ids.len() > 0 {
        let t = ids.drop_last();
        assert forall|i: int| 0 <= i < t.len() implies m1.contains_key(#[trigger] t[i].0) && m2.contains_key(t[i].0)
            && m1[t[i].0] == m2[t[i].0] by {
            assert(t[i] == ids[i]);
        }
        lemma_ids_to_symbols_agree(m1, m2, t);
        assert(m1.contains_key(ids[ids.len() - 1].0));
    }
}

/// In a consistent database, replacing the index of a file leaves the
/// symbols of every other file as they were, when the new symbols belong to
/// the file, come with fresh ids and have no parent.
pub proof fn lemma_replace_keeps_other_documents(db: DbView, idx: FileIndexView)
    requires
        indexes_consistent(db),
        forall|k: int|
            0 <= k < idx.symbols.len() ==> #[trigger] idx.symbols[k].file == idx.file && !db.symbols.contains_key(
                idx.symbols[k].id.0,
            ) && idx.symbols[k].parent is None,
    ensures
        forall|g: Seq<char>|
            g != idx.file ==> #[trigger] ids_to_symbols(
                spec_replace_file_index(db, idx).symbols,
                list_or_empty(spec_replace_file_index(db, idx).file_symbols, g),
            ) == ids_to_symbols(db.symbols, list_or_empty(db.file_symbols, g)),
{
    let r = spec_replace_file_index(db, idx);
    lemma_replace_touches_only_its_file(db, idx);
    let old_ids = list_or_empty(db.file_symbols, idx.file);
    assert forall|g: Seq<char>| g != idx.file implies #[trigger] ids_to_symbols(
        r.symbols,
        list_or_empty(r.file_symbols, g),
    ) == ids_to_symbols(db.symbols, list_or_empty(db.file_symbols, g)) by {
        let l = list_or_empty(db.file_symbols, g);
        assert(list_or_empty(r.file_symbols, g) == l);
        assert forall|i: int| 0 <= i < l.len() implies r.symbols.contains_key(#[trigger] l[i].0) && db.symbols.contains_key(
            l[i].0,
        ) && r.symbols[l[i].0] == db.symbols[l[i].0] by {
            let x = l[i];
            assert(db.file_symbols[g][i] == x);
            assert(db.symbols.contains_key(x.0) && db.symbols[x.0].file == g);
            assert(!old_ids.contains(x)) by {
                if old_ids.contains(x) {
                    let j = choose|j: int| 0 <= j < old_ids.len() && old_ids[j] == x;
                    assert(db.file_symbols[idx.file][j] == x);
                }
            }
            assert(x == SymbolId(x.0));
            assert forall|k: int| 0 <= k < idx.symbols.len() implies #[trigger] idx.symbols[k].id.0 != x.0
                && idx.symbols[k].parent != Some(SymbolId(x.0)) by {
                assert(idx.symbols[k].file == idx.file);
            }
            assert(r.symbols.contains_key(x.0));
        }
        lemma_ids_to_symbols_agree(r.symbols, db.symbols, l);
    }
}

/// Replacing the index of a file keeps the indexes consistent, when the
/// new symbols belong to the file and come with fresh, distinct ids.
pub proof fn lemma_replace_keeps_consistency(db: DbView, idx: FileIndexView)
    requires
        indexes_consistent(db),
        forall|k: int|
            0 <= k < idx.symbols.len() ==> #[trigger] idx.symbols[k].file == idx.file && !db.symbols.contains_key(
                idx.symbols[k].id.0,
            ),
        forall|j: int, k: int| 0 <= j < k < idx.symbols.len() ==> #[trigger] idx.symbols[j].id != #[trigger] idx.symbols[k].id,
    ensures
        indexes_consistent(spec_replace_file_index(db, idx)),
{
    let d1 = spec_clear_file(db, idx.file);
    lemma_clear_file_consistent(db, idx.file);
    let d2 = DbView { file_indices: d1.file_indices.insert(idx.file, idx), ..d1 };
    assert(indexes_consistent(d2));
    assert forall|k: int| 0 <= k < idx.symbols.len() implies !d2.symbols.contains_key(#[trigger] idx.symbols[k].id.0) by {
        assert(idx.symbols[k].file == idx.file);
        lemma_remove_ids_within(db.symbols, list_or_empty(db.file_symbols, idx.file), idx.symbols[k].id.0);
    }
    lemma_insert_symbols_consistent(d2, idx.symbols);
    let d3 = insert_symbols(d2, idx.symbols);
    lemma_insert_references_symbols(d3, idx.references);
    let d4 = insert_references(d3, idx.references);
    lemma_register_items_symbols(d4, idx.neodos_items);
    let r = spec_replace_file_index(db, idx);
    assert(r.symbols == d3.symbols && r.file_symbols == d3.file_symbols && r.name_index == d3.name_index);
}

/// A symbol inserted among others stays stored.
pub proof fn lemma_insert_symbols_keeps(db: DbView, s: Seq<SymbolView>, k: int)
    requires
        0 <= k < s.len(),
    ensures
        insert_symbols(db, s).symbols.contains_key(s[k].id.0),
    decreases s.len(),
{
    if k < s.len() - 1 {
        lemma_insert_symbols_keeps(db, s.drop_last(), k);
        assert(s.drop_last()[k] == s[k]);
    }
}

} // verus!
