//! The line-oriented source indexer: symbols and NeoDOS items of a Rust file.
use vstd::prelude::*;
use crate::config::NeodosConfig;
use crate::database::{
    NeodosItem, NeodosItemKind, NeodosItemView, NeodosKind, Position, Range, Reference, Symbol,
    SymbolId, SymbolKind, SymbolView,
};
use crate::text::{
    after_first, after_last, after_last_chars, before, before_chars, chars_of, contains,
    contains_chars, find, find_chars, has_prefix, has_suffix, is_uppercase, is_ws, is_whitespace,
    lemma_find_from_bounds, parse_u64, parse_u64_spec, slice_to_vec_chars, starts_with, ends_with,
    strip_all_prefix, strip_all_prefix_chars, strip_all_suffix_char, strip_all_suffix_chars,
    strip_both_char, strip_both_chars, trim, trim_bounds, trim_chars, uppercase_char,
};

verus! {

pub open spec fn opt_chars(o: Option<Vec<char>>) -> Option<Seq<char>> {
    match o {
        Some(v) => Some(v@),
        None => None,
    }
}

/// Character-sequence equality.
pub fn chars_eq(a: &[char], b: &[char]) -> (r: bool)
    ensures
        r == (a@ == b@),
{
    if a.len() != b.len() {
        return false;
    }
    let r = starts_with(a, b);
    if r {
        assert(a@.subrange(0, b@.len() as int) =~= a@);
    } else {
        assert(a@.subrange(0, b@.len() as int) =~= a@);
    }
    r
}

/// `s` without its first `n` characters.
pub fn skip_chars(s: &[char], n: usize) -> (r: Vec<char>)
    requires
        n <= s@.len(),
    ensures
        r@ == s@.subrange(n as int, s@.len() as int),
{
    slice_to_vec_chars(s, n, s.len())
}

pub fn trimmed(s: &[char]) -> (r: Vec<char>)
    ensures
        r@ == trim(s@),
{
    trim_chars(s)
}

/// Characters that end a `mod` name.
pub open spec fn mod_delim(c: char) -> bool {
    c == ';' || c == '{' || c == ' '
}

/// Index of the first `mod_delim` at or after `i` (the length if none).
pub open spec fn mod_delim_pos(s: Seq<char>, i: int) -> int
    decreases s.len() - i,
{
    if i < 0 || i >= s.len() {
        s.len() as int
    } else if mod_delim(s[i]) {
        i
    } else {
        mod_delim_pos(s, i + 1)
    }
}

/// The module a `mod NAME;` / `pub mod NAME {` line declares.
pub open spec fn spec_mod_decl(t: Seq<char>) -> Option<Seq<char>> {
    let rest = if has_prefix(t, "pub mod "@) {
        Some(t.subrange("pub mod "@.len() as int, t.len() as int))
    } else if has_prefix(t, "mod "@) {
        Some(t.subrange("mod "@.len() as int, t.len() as int))
    } else {
        None
    };
    match rest {
        None => None,
        Some(r) => {
            let name = trim(r.subrange(0, mod_delim_pos(r, 0)));
            if name.len() > 0 && !contains(name, "//"@) {
                Some(name)
            } else {
                None
            }
        },
    }
}

pub fn parse_mod_decl(t: &[char]) -> (r: Option<Vec<char>>)
    ensures
        opt_chars(r) == spec_mod_decl(t@),
{
    let p1 = chars_of("pub mod ");
    let p2 = chars_of("mod ");
    let rest = if starts_with(t, p1.as_slice()) {
        skip_chars(t, p1.len())
    } else if starts_with(t, p2.as_slice()) {
        skip_chars(t, p2.len())
    } else {
        return None;
    };
    let mut k: usize = 0;
    while k < rest.len() && !(rest[k] == ';' || rest[k] == '{' || rest[k] == ' ')
        invariant
            k <= rest@.len(),
            mod_delim_pos(rest@, 0) == mod_delim_pos(rest@, k as int),
        decreases rest@.len() - k,
    {
        k = k + 1;
    }
    let (a, b) = trim_bounds(rest.as_slice(), 0, k);
    let name = slice_to_vec_chars(rest.as_slice(), a, b);
    let slashes = chars_of("//");
    if name.len() > 0 && !contains_chars(name.as_slice(), slashes.as_slice()) {
        Some(name)
    } else {
        None
    }
}

/// Characters that separate words when a declared name is read.
pub open spec fn name_delim(c: char) -> bool {
    is_ws(c) || c == '<' || c == '(' || c == ';' || c == '{' || c == '!'
}

fn is_name_delim(c: char) -> (r: bool)
    ensures
        r == name_delim(c),
{
    is_whitespace(c) || c == '<' || c == '(' || c == ';' || c == '{' || c == '!'
}

/// First index at or after `i` that is not a name delimiter.
pub open spec fn token_start(s: Seq<char>, i: int) -> int
    decreases s.len() - i,
{
    if i < 0 || i >= s.len() {
        s.len() as int
    } else if !name_delim(s[i]) {
        i
    } else {
        token_start(s, i + 1)
    }
}

/// First index at or after `i` that is a name delimiter.
pub open spec fn token_end(s: Seq<char>, i: int) -> int
    decreases s.len() - i,
{
    if i < 0 || i >= s.len() {
        s.len() as int
    } else if name_delim(s[i]) {
        i
    } else {
        token_end(s, i + 1)
    }
}

/// The first non-empty piece of `s` split at name delimiters (empty if none).
pub open spec fn first_token(s: Seq<char>) -> Seq<char> {
    let a = token_start(s, 0);
    s.subrange(a, token_end(s, a))
}

pub proof fn lemma_token_bounds(s: Seq<char>, i: int)
    requires
        0 <= i <= s.len(),
    ensures
        i <= token_start(s, i) <= s.len(),
        i <= token_end(s, i) <= s.len(),
    decreases s.len() - i,
{
    if i < s.len() {
        lemma_token_bounds(s, i + 1);
    }
}

/// Words that are never taken as declared names.
pub open spec fn reserved_name(n: Seq<char>) -> bool {
    n == "mut"@ || n == "ref"@ || n == "self"@ || n == "&"@ || n == "unsafe"@ || n == "async"@
}

/// The name after the first occurrence of `kw` in `t`.
pub open spec fn spec_extract_name(t: Seq<char>, kw: Seq<char>) -> Option<Seq<char>> {
    match find(t, kw) {
        None => None,
        Some(p) => {
            let name = trim(first_token(t.subrange(p + kw.len(), t.len() as int)));
            if name.len() == 0 || contains(name, "//"@) || reserved_name(name) {
                None
            } else {
                Some(name)
            }
        },
    }
}

pub fn extract_name(t: &[char], kw: &[char]) -> (r: Option<Vec<char>>)
    ensures
        opt_chars(r) == spec_extract_name(t@, kw@),
{
    proof {
        lemma_find_from_bounds(t@, kw@, 0);
    }
    let p = match find_chars(t, kw) {
        Some(p) => p,
        None => return None,
    };
    let tl = t.len();
    assert(p + kw@.len() <= tl);
    let after = skip_chars(t, p + kw.len());
    let mut a: usize = 0;
    while a < after.len() && is_name_delim(after[a])
        invariant
            a <= after@.len(),
            token_start(after@, 0) == token_start(after@, a as int),
        decreases after@.len() - a,
    {
        a = a + 1;
    }
    let mut b: usize = a;
    while b < after.len() && !is_name_delim(after[b])
        invariant
            a <= b <= after@.len(),
            token_end(after@, a as int) == token_end(after@, b as int),
        decreases after@.len() - b,
    {
        b = b + 1;
    }
    let (x, y) = trim_bounds(after.as_slice(), a, b);
    let name = slice_to_vec_chars(after.as_slice(), x, y);
    let slashes = chars_of("//");
    if name.len() == 0 || contains_chars(name.as_slice(), slashes.as_slice()) {
        return None;
    }
    let w1 = chars_of("mut");
    let w2 = chars_of("ref");
    let w3 = chars_of("self");
    let w4 = chars_of("&");
    let w5 = chars_of("unsafe");
    let w6 = chars_of("async");
    if chars_eq(name.as_slice(), w1.as_slice()) || chars_eq(name.as_slice(), w2.as_slice())
        || chars_eq(name.as_slice(), w3.as_slice()) || chars_eq(name.as_slice(), w4.as_slice())
        || chars_eq(name.as_slice(), w5.as_slice()) || chars_eq(name.as_slice(), w6.as_slice()) {
        return None;
    }
    Some(name)
}

/// The macro name of a `macro_rules! NAME {` line.
pub open spec fn spec_macro_name(t: Seq<char>) -> Option<Seq<char>> {
    if has_prefix(t, "macro_rules!"@) {
        let rest = trim(t.subrange("macro_rules!"@.len() as int, t.len() as int));
        let name = strip_both_char(trim(before(rest, "{"@)), '!');
        if name.len() == 0 {
            None
        } else {
            Some(name)
        }
    } else {
        None
    }
}

pub fn extract_macro_name(t: &[char]) -> (r: Option<Vec<char>>)
    ensures
        opt_chars(r) == spec_macro_name(t@),
{
    let p = chars_of("macro_rules!");
    if !starts_with(t, p.as_slice()) {
        return None;
    }
    let rest = trimmed(skip_chars(t, p.len()).as_slice());
    let brace = chars_of("{");
    let head = trimmed(before_chars(rest.as_slice(), brace.as_slice()).as_slice());
    let name = strip_both_chars(head.as_slice(), '!');
    if name.len() == 0 {
        None
    } else {
        Some(name)
    }
}

/// The type an `impl` line is for: behind the last `for `, before any `<`,
/// `{` or `where`, trimmed.
pub open spec fn spec_impl_target(t: Seq<char>) -> Option<Seq<char>> {
    if has_prefix(t, "impl "@) {
        let rest = t.subrange("impl "@.len() as int, t.len() as int);
        let target = trim(
            before(before(before(after_last(rest, "for "@), "<"@), "{"@), "where"@),
        );
        if target.len() == 0 {
            None
        } else {
            Some(target)
        }
    } else {
        None
    }
}

pub fn extract_impl_target(t: &[char]) -> (r: Option<Vec<char>>)
    ensures
        opt_chars(r) == spec_impl_target(t@),
{
    let p = chars_of("impl ");
    if !starts_with(t, p.as_slice()) {
        return None;
    }
    let rest = skip_chars(t, p.len());
    let for_kw = chars_of("for ");
    let lt = chars_of("<");
    let brace = chars_of("{");
    let where_kw = chars_of("where");
    proof {
        reveal_strlit("for ");
    }
    let s1 = after_last_chars(rest.as_slice(), for_kw.as_slice());
    let s2 = before_chars(s1.as_slice(), lt.as_slice());
    let s3 = before_chars(s2.as_slice(), brace.as_slice());
    let s4 = before_chars(s3.as_slice(), where_kw.as_slice());
    let target = trimmed(s4.as_slice());
    if target.len() == 0 {
        None
    } else {
        Some(target)
    }
}

} // verus!

verus! {

pub open spec fn lines_view(ls: Seq<Vec<char>>) -> Seq<Seq<char>> {
    ls.map_values(|v: Vec<char>| v@)
}

pub fn copy_chars(v: &Vec<char>) -> (r: Vec<char>)
    ensures
        r@ == v@,
{
    assert(v@.subrange(0, v@.len() as int) =~= v@);
    slice_to_vec_chars(v.as_slice(), 0, v.len())
}

/// `acc` followed by the lines `ls[j..end]`, stopping after the first that holds `{`.
pub open spec fn append_lines(acc: Seq<char>, ls: Seq<Seq<char>>, j: int, end: int) -> Seq<char>
    decreases end - j,
{
    if j >= end || j < 0 {
        acc
    } else if contains(ls[j], "{"@) {
        acc + ls[j]
    } else {
        append_lines(acc + ls[j], ls, j + 1, end)
    }
}

/// The signature of a declaration at line `idx` whose trimmed text is `line`:
/// without a `{` on it, up to nine following lines are joined until one holds
/// a `{`; the result is cut at the first `{` and trimmed.
pub open spec fn spec_signature(line: Seq<char>, ls: Seq<Seq<char>>, idx: int) -> Seq<char> {
    let end = if ls.len() < idx + 10 {
        ls.len() as int
    } else {
        idx + 10
    };
    let joined = if contains(line, "{"@) {
        line
    } else {
        append_lines(line, ls, idx + 1, end)
    };
    trim(before(joined, "{"@))
}

pub fn extract_signature(line: &[char], ls: &Vec<Vec<char>>, idx: usize) -> (r: Vec<char>)
    requires
        idx < ls@.len(),
    ensures
        r@ == spec_signature(line@, lines_view(ls@), idx as int),
{
    let brace = chars_of("{");
    let ghost lv = lines_view(ls@);
    let mut sig = slice_to_vec_chars(line, 0, line.len());
    assert(line@.subrange(0, line@.len() as int) =~= line@);
    if !contains_chars(sig.as_slice(), brace.as_slice()) {
        let end: usize = if ls.len() - idx < 10 {
            ls.len()
        } else {
            idx + 10
        };
        let mut j = idx + 1;
        while j < end
            invariant_except_break
                append_lines(line@, lv, idx + 1, end as int) == append_lines(
                    sig@,
                    lv,
                    j as int,
                    end as int,
                ),
            invariant
                idx + 1 <= j,
                end <= ls@.len(),
                brace@ == "{"@,
                lv == lines_view(ls@),
            ensures
                append_lines(line@, lv, idx + 1, end as int) == sig@,
            decreases end - j,
        {
            let mut piece = copy_chars(&ls[j]);
            let stop = contains_chars(piece.as_slice(), brace.as_slice());
            assert(lv[j as int] == ls@[j as int]@);
            sig.append(&mut piece);
            if stop {
                break;
            }
            j = j + 1;
        }
    }
    let cut = before_chars(sig.as_slice(), brace.as_slice());
    trimmed(cut.as_slice())
}

/// Well-known syscall handler names and their numbers.
pub open spec fn spec_syscall_table() -> Seq<(Seq<char>, u64)> {
    seq![
        ("exit"@, 0u64), ("write"@, 1u64), ("yield"@, 2u64), ("getpid"@, 3u64),
        ("read"@, 4u64), ("pipe"@, 5u64), ("dup2"@, 6u64), ("spawn"@, 7u64),
        ("readdir"@, 8u64), ("waitpid"@, 9u64), ("open"@, 10u64),
        ("readfile"@, 11u64), ("writefile"@, 12u64), ("close"@, 13u64),
        ("chdir"@, 16u64), ("getcwd"@, 17u64), ("brk"@, 18u64), ("mmap"@, 19u64),
        ("munmap"@, 20u64), ("loadlib"@, 21u64), ("thread_create"@, 22u64),
        ("thread_join"@, 23u64), ("getcpuinfo"@, 24u64), ("mkdir"@, 25u64),
        ("unlink"@, 26u64), ("rmdir"@, 27u64), ("rename"@, 28u64),
        ("wait_alertable"@, 40u64), ("sleep_ex"@, 41u64),
        ("get_version"@, 43u64), ("get_datetime"@, 44u64), ("get_meminfo"@, 45u64),
        ("get_volume_label"@, 46u64), ("chdir_parent"@, 47u64), ("kobj_enum"@, 48u64),
    ]
}

fn syscall_table() -> (r: Vec<(&'static str, u64)>)
    ensures
        r@.len() == spec_syscall_table().len(),
        forall|i: int|
            0 <= i < r@.len() ==> (#[trigger] r@[i].0@, r@[i].1) == spec_syscall_table()[i],
{
    let mut t: Vec<(&'static str, u64)> = Vec::new();
    t.push(("exit", 0));
    t.push(("write", 1));
    t.push(("yield", 2));
    t.push(("getpid", 3));
    t.push(("read", 4));
    t.push(("pipe", 5));
    t.push(("dup2", 6));
    t.push(("spawn", 7));
    t.push(("readdir", 8));
    t.push(("waitpid", 9));
    t.push(("open", 10));
    t.push(("readfile", 11));
    t.push(("writefile", 12));
    t.push(("close", 13));
    t.push(("chdir", 16));
    t.push(("getcwd", 17));
    t.push(("brk", 18));
    t.push(("mmap", 19));
    t.push(("munmap", 20));
    t.push(("loadlib", 21));
    t.push(("thread_create", 22));
    t.push(("thread_join", 23));
    t.push(("getcpuinfo", 24));
    t.push(("mkdir", 25));
    t.push(("unlink", 26));
    t.push(("rmdir", 27));
    t.push(("rename", 28));
    t.push(("wait_alertable", 40));
    t.push(("sleep_ex", 41));
    t.push(("get_version", 43));
    t.push(("get_datetime", 44));
    t.push(("get_meminfo", 45));
    t.push(("get_volume_label", 46));
    t.push(("chdir_parent", 47));
    t.push(("kobj_enum", 48));
    t
}

/// Number of the first table entry named `n` at or after `i`.
pub open spec fn table_lookup(tab: Seq<(Seq<char>, u64)>, n: Seq<char>, i: int) -> Option<u64>
    decreases tab.len() - i,
{
    if i < 0 || i >= tab.len() {
        None
    } else if tab[i].0 == n {
        Some(tab[i].1)
    } else {
        table_lookup(tab, n, i + 1)
    }
}

/// The number given by the first attribute `syscall(N)` among `attrs[i..]`.
pub open spec fn attr_syscall(attrs: Seq<Seq<char>>, i: int) -> Option<u64>
    decreases attrs.len() - i,
{
    if i < 0 || i >= attrs.len() {
        None
    } else if has_prefix(attrs[i], "syscall("@) {
        parse_u64_spec(strip_all_suffix_char(strip_all_prefix(attrs[i], "syscall("@), ')'))
    } else {
        attr_syscall(attrs, i + 1)
    }
}

/// The syscall a function implements: `sys_N` or a well-known `sys_NAME`,
/// or, for other names, the first `#[syscall(N)]` attribute.
pub open spec fn spec_detect_syscall(name: Seq<char>, attrs: Seq<Seq<char>>) -> Option<u64> {
    if has_prefix(name, "sys_"@) {
        let rest = name.subrange("sys_"@.len() as int, name.len() as int);
        match parse_u64_spec(rest) {
            Some(n) => Some(n),
            None => table_lookup(spec_syscall_table(), rest, 0),
        }
    } else {
        attr_syscall(attrs, 0)
    }
}

pub fn detect_syscall_handler(name: &[char], attrs: &Vec<Vec<char>>) -> (r: Option<u64>)
    ensures
        r == spec_detect_syscall(name@, lines_view(attrs@)),
{
    let sys = chars_of("sys_");
    if starts_with(name, sys.as_slice()) {
        let rest = skip_chars(name, sys.len());
        if let Some(n) = parse_u64(rest.as_slice()) {
            return Some(n);
        }
        let tab = syscall_table();
        let mut i: usize = 0;
        while i < tab.len()
            invariant
                rest@ == name@.subrange("sys_"@.len() as int, name@.len() as int),
                has_prefix(name@, "sys_"@),
                parse_u64_spec(rest@) is None,
                i <= tab@.len(),
                tab@.len() == spec_syscall_table().len(),
                forall|q: int|
                    0 <= q < tab@.len() ==> (#[trigger] tab@[q].0@, tab@[q].1)
                        == spec_syscall_table()[q],
                table_lookup(spec_syscall_table(), rest@, 0) == table_lookup(
                    spec_syscall_table(),
                    rest@,
                    i as int,
                ),
            decreases tab@.len() - i,
        {
            let entry = chars_of(tab[i].0);
            assert((tab@[i as int].0@, tab@[i as int].1) == spec_syscall_table()[i as int]);
            if chars_eq(entry.as_slice(), rest.as_slice()) {
                return Some(tab[i].1);
            }
            i = i + 1;
        }
        None
    } else {
        let p = chars_of("syscall(");
        let ghost av = lines_view(attrs@);
        let mut i: usize = 0;
        while i < attrs.len()
            invariant
                !has_prefix(name@, "sys_"@),
                i <= attrs@.len(),
                av == lines_view(attrs@),
                p@ == "syscall("@,
                attr_syscall(av, 0) == attr_syscall(av, i as int),
            decreases attrs@.len() - i,
        {
            assert(av[i as int] == attrs@[i as int]@);
            if starts_with(attrs[i].as_slice(), p.as_slice()) {
                let a = strip_all_prefix_chars(attrs[i].as_slice(), p.as_slice());
                let b = strip_all_suffix_chars(a.as_slice(), ')');
                return parse_u64(b.as_slice());
            }
            i = i + 1;
        }
        None
    }
}

/// A `Name = N,` variant of a syscall-number enum.
pub open spec fn spec_syscallnum_variant(trimmed: Seq<char>) -> Option<(Seq<char>, u64)> {
    let t = trim(trimmed);
    if !has_suffix(t, ","@) {
        None
    } else {
        let t2 = strip_all_suffix_char(t, ',');
        match after_first(t2, "="@) {
            None => None,
            Some(rhs) => {
                let name = trim(before(t2, "="@));
                match parse_u64_spec(trim(rhs)) {
                    None => None,
                    Some(n) => if name.len() == 0 || !uppercase_char(name[0]) {
                        None
                    } else {
                        Some((name, n))
                    },
                }
            },
        }
    }
}

pub fn parse_syscallnum_variant(trimmed_line: &[char]) -> (r: Option<(Vec<char>, u64)>)
    ensures
        match r {
            Some((n, v)) => spec_syscallnum_variant(trimmed_line@) == Some((n@, v)),
            None => spec_syscallnum_variant(trimmed_line@) is None,
        },
{
    let t = trimmed(trimmed_line);
    let comma = chars_of(",");
    if !ends_with(t.as_slice(), comma.as_slice()) {
        return None;
    }
    let t2 = strip_all_suffix_chars(t.as_slice(), ',');
    let eq = chars_of("=");
    proof {
        lemma_find_from_bounds(t2@, "="@, 0);
    }
    let k = match find_chars(t2.as_slice(), eq.as_slice()) {
        Some(k) => k,
        None => return None,
    };
    let t2l = t2.len();
    assert(k + eq@.len() <= t2l);
    let name = trimmed(slice_to_vec_chars(t2.as_slice(), 0, k).as_slice());
    let rhs = trimmed(skip_chars(t2.as_slice(), k + eq.len()).as_slice());
    let number = match parse_u64(rhs.as_slice()) {
        Some(n) => n,
        None => return None,
    };
    if name.len() == 0 || !is_uppercase(name[0]) {
        return None;
    }
    Some((name, number))
}

/// `split("description: ").nth(1)`, defaulting to `Shell command`.
pub open spec fn command_description(l: Seq<char>) -> Seq<char> {
    match after_first(l, "description: "@) {
        Some(r) => before(r, "description: "@),
        None => "Shell command"@,
    }
}

/// The first of `ls[j..end]` that has `name: "NAME"`: the name and the description.
pub open spec fn command_at(ls: Seq<Seq<char>>, j: int, end: int) -> Option<(Seq<char>, Seq<char>)>
    decreases end - j,
{
    if j >= end || j < 0 {
        None
    } else {
        let l = ls[j];
        match after_first(l, "name: \""@) {
            Some(rest) => match find(rest, "\""@) {
                Some(e) => Some((rest.subrange(0, e), strip_both_char(command_description(l), '"'))),
                None => command_at(ls, j + 1, end),
            },
            None => command_at(ls, j + 1, end),
        }
    }
}

/// A shell command registered near line `idx` (that line and the next four).
pub open spec fn spec_command_entry(ls: Seq<Seq<char>>, idx: int) -> Option<(Seq<char>, Seq<char>)> {
    let end = if ls.len() < idx + 5 {
        ls.len() as int
    } else {
        idx + 5
    };
    command_at(ls, idx, end)
}

fn after_first_chars(s: &[char], p: &[char]) -> (r: Option<Vec<char>>)
    ensures
        opt_chars(r) == after_first(s@, p@),
{
    proof {
        lemma_find_from_bounds(s@, p@, 0);
    }
    let sl = s.len();
    match find_chars(s, p) {
        Some(k) => {
            assert(k + p@.len() <= sl);
            Some(slice_to_vec_chars(s, k + p.len(), s.len()))
        },
        None => None,
    }
}

pub fn parse_command_entry(ls: &Vec<Vec<char>>, idx: usize) -> (r: Option<(Vec<char>, Vec<char>)>)
    requires
        idx < ls@.len(),
    ensures
        match r {
            Some((n, d)) => spec_command_entry(lines_view(ls@), idx as int) == Some((n@, d@)),
            None => spec_command_entry(lines_view(ls@), idx as int) is None,
        },
{
    let ghost lv = lines_view(ls@);
    let end: usize = if ls.len() - idx < 5 {
        ls.len()
    } else {
        idx + 5
    };
    let key = chars_of("name: \"");
    let quote = chars_of("\"");
    let desc_key = chars_of("description: ");
    let mut j = idx;
    while j < end
        invariant
            idx <= j,
            end <= ls@.len(),
            lv == lines_view(ls@),
            key@ == "name: \""@,
            quote@ == "\""@,
            desc_key@ == "description: "@,
            spec_command_entry(lv, idx as int) == command_at(lv, j as int, end as int),
            end == (if ls@.len() < idx + 5 {
                ls@.len() as int
            } else {
                idx + 5
            }),
        decreases end - j,
    {
        let l = &ls[j];
        assert(lv[j as int] == l@);
        if let Some(rest) = after_first_chars(l.as_slice(), key.as_slice()) {
            proof {
                lemma_find_from_bounds(rest@, quote@, 0);
            }
            if let Some(e) = find_chars(rest.as_slice(), quote.as_slice()) {
                let name = slice_to_vec_chars(rest.as_slice(), 0, e);
                let desc = match after_first_chars(l.as_slice(), desc_key.as_slice()) {
                    Some(d) => before_chars(d.as_slice(), desc_key.as_slice()),
                    None => chars_of("Shell command"),
                };
                let desc2 = strip_both_chars(desc.as_slice(), '"');
                return Some((name, desc2));
            }
        }
        j = j + 1;
    }
    None
}

/// A variant of the driver state enum (`Loaded,`, `Active }` and the like).
pub open spec fn spec_driver_state(s: Seq<char>) -> bool {
    let t = trim(s);
    (has_prefix(t, "Loaded"@) || has_prefix(t, "Initialized"@) || has_prefix(t, "Registered"@)
        || has_prefix(t, "Bound"@) || has_prefix(t, "Active"@) || has_prefix(t, "Faulted"@)
        || has_prefix(t, "Unloaded"@) || has_prefix(t, "Unloading"@)) && (has_suffix(t, ","@)
        || has_suffix(t, "}"@))
}

pub fn is_driver_state_enum(s: &[char]) -> (r: bool)
    ensures
        r == spec_driver_state(s@),
{
    let t = trimmed(s);
    let ts = t.as_slice();
    let starts = starts_with(ts, chars_of("Loaded").as_slice()) || starts_with(
        ts,
        chars_of("Initialized").as_slice(),
    ) || starts_with(ts, chars_of("Registered").as_slice()) || starts_with(
        ts,
        chars_of("Bound").as_slice(),
    ) || starts_with(ts, chars_of("Active").as_slice()) || starts_with(
        ts,
        chars_of("Faulted").as_slice(),
    ) || starts_with(ts, chars_of("Unloaded").as_slice()) || starts_with(
        ts,
        chars_of("Unloading").as_slice(),
    );
    starts && (ends_with(ts, chars_of(",").as_slice()) || ends_with(ts, chars_of("}").as_slice()))
}

} // verus!

verus! {

/// The indexer's state between two lines.
pub struct ScanView {
    pub symbols: Seq<SymbolView>,
    pub items: Seq<NeodosItemView>,
    pub comment: Option<Seq<char>>,
    pub attrs: Seq<Seq<char>>,
    pub impl_target: Option<Seq<char>>,
    pub brace: int,
    pub next_id: int,
}

/// The text of a doc-comment line.
pub open spec fn doc_text(t: Seq<char>) -> Seq<char> {
    trim(strip_all_prefix(strip_all_prefix(t, "///"@), "//!"@))
}

/// Doc lines accumulate, one per line.
pub open spec fn join_comment(prev: Option<Seq<char>>, doc: Seq<char>) -> Seq<char> {
    let p = match prev {
        Some(p) => p,
        None => seq![],
    };
    if p.len() == 0 {
        doc
    } else {
        p + "\n"@ + doc
    }
}

/// Some pending attribute mentions `deprecated`.
pub open spec fn any_deprecated(attrs: Seq<Seq<char>>) -> bool {
    exists|k: int| 0 <= k < attrs.len() && contains(#[trigger] attrs[k], "deprecated"@)
}

/// Where a declaration on line `i` starts: its line and the byte width of its indentation.
pub open spec fn decl_start(i: int, line: Seq<char>) -> Position {
    Position {
        line: i as u32,
        character: (crate::text::utf8_len(line) - crate::text::utf8_len(crate::text::trim_start(line)))
            as u32,
    }
}

/// Where a declaration on line `i` ends: the byte length of the line.
pub open spec fn decl_end(i: int, line: Seq<char>) -> Position {
    Position { line: i as u32, character: crate::text::utf8_len(line) as u32 }
}

/// A fresh symbol for a declaration: it takes the next id, the pending doc
/// comment and the pending attributes.
pub open spec fn new_sym(
    st: ScanView,
    name: Seq<char>,
    kind: SymbolKind,
    path: Seq<char>,
    i: int,
    line: Seq<char>,
) -> SymbolView {
    let r = Range { start: decl_start(i, line), end: decl_end(i, line) };
    SymbolView {
        id: SymbolId(st.next_id as u64),
        name,
        kind,
        neodos_kind: None,
        file: path,
        range: r,
        selection_range: r,
        parent: None,
        children: seq![],
        documentation: st.comment,
        detail: None,
        signature: None,
        visibility: None,
        attributes: st.attrs,
        is_deprecated: any_deprecated(st.attrs),
        is_test: false,
        syscall_number: None,
        capabilities: None,
    }
}

/// The state once a symbol has been made: the comment is used up and the id taken.
pub open spec fn taken(st: ScanView) -> ScanView {
    ScanView { comment: None, next_id: st.next_id + 1, ..st }
}

pub open spec fn push_sym(st: ScanView, s: SymbolView) -> ScanView {
    ScanView { symbols: st.symbols.push(s), ..st }
}

pub open spec fn push_item(st: ScanView, kind: NeodosItemKind, name: Seq<char>, detail: Seq<char>) -> ScanView {
    ScanView { items: st.items.push(NeodosItemView { kind, name, detail }), ..st }
}

pub open spec fn clear_attrs(st: ScanView) -> ScanView {
    ScanView { attrs: seq![], ..st }
}

/// A declaration `kw NAME` of the given symbol kind.
pub open spec fn simple_decl(
    st: ScanView,
    t: Seq<char>,
    kw: Seq<char>,
    kind: SymbolKind,
    path: Seq<char>,
    i: int,
    line: Seq<char>,
) -> ScanView {
    match spec_extract_name(t, kw) {
        Some(name) => clear_attrs(push_sym(taken(st), new_sym(st, name, kind, path, i, line))),
        None => clear_attrs(st),
    }
}

pub open spec fn is_method_line(t: Seq<char>) -> bool {
    has_prefix(t, "pub fn"@) || has_prefix(t, "fn "@) || has_prefix(t, "pub unsafe fn"@)
        || has_prefix(t, "unsafe fn"@)
}

pub open spec fn is_fn_line(t: Seq<char>) -> bool {
    has_prefix(t, "pub fn"@) || has_prefix(t, "fn "@) || has_prefix(t, "pub(crate) fn"@)
        || has_prefix(t, "pub(super) fn"@) || has_prefix(t, "pub unsafe fn"@) || has_prefix(
        t,
        "unsafe fn"@,
    ) || has_prefix(t, "pub async fn"@) || has_prefix(t, "async fn"@)
}

pub open spec fn is_file_op(name: Seq<char>) -> bool {
    name == "read"@ || name == "write"@ || name == "open"@ || name == "close"@
}

/// A `fn` inside an `impl` block: a method with its signature; the file
/// system entry points `read`, `write`, `open`, `close` are also recorded.
pub open spec fn method_step(
    st: ScanView,
    ls: Seq<Seq<char>>,
    i: int,
    path: Seq<char>,
    t: Seq<char>,
) -> ScanView {
    match spec_extract_name(t, "fn"@) {
        Some(name) => {
            let s0 = new_sym(st, name, SymbolKind::METHOD, path, i, ls[i]);
            let s = SymbolView { signature: Some(spec_signature(t, ls, i)), ..s0 };
            let st1 = taken(st);
            let st2 = if is_file_op(name) {
                push_item(
                    st1,
                    NeodosItemKind::FileSystemImpl,
                    name,
                    "impl "@ + st.impl_target.unwrap() + "::"@ + name,
                )
            } else {
                st1
            };
            clear_attrs(push_sym(st2, s))
        },
        None => clear_attrs(st),
    }
}

pub open spec fn is_test_fn(t: Seq<char>, attrs: Seq<Seq<char>>) -> bool {
    contains(t, "#[test]"@) || exists|k: int| 0 <= k < attrs.len() && #[trigger] attrs[k] == "test"@
}

/// A free function: visibility, signature, test flag, and its NeoDOS role
/// (syscall handler or boot phase) with the matching item.
pub open spec fn fn_step(st: ScanView, ls: Seq<Seq<char>>, i: int, path: Seq<char>, t: Seq<char>) -> ScanView {
    match spec_extract_name(t, "fn"@) {
        Some(name) => {
            let s0 = new_sym(st, name, SymbolKind::FUNCTION, path, i, ls[i]);
            let sc = spec_detect_syscall(name, st.attrs);
            let nk = if has_prefix(name, "PHASE_"@) || has_prefix(name, "phase_"@) {
                Some(NeodosKind::BootPhase)
            } else {
                match sc {
                    Some(n) => Some(NeodosKind::Syscall(n)),
                    None => None,
                }
            };
            let s = SymbolView {
                visibility: Some(
                    if contains(t, "pub "@) {
                        "pub"@
                    } else {
                        "private"@
                    },
                ),
                signature: Some(spec_signature(t, ls, i)),
                is_test: is_test_fn(t, st.attrs),
                neodos_kind: nk,
                syscall_number: sc,
                ..s0
            };
            let st1 = push_sym(taken(st), s);
            let st2 = match nk {
                Some(NeodosKind::Syscall(n)) => push_item(
                    st1,
                    NeodosItemKind::SyscallHandler,
                    name,
                    "syscall #"@ + crate::text::decimal(n as nat) + ": "@ + name,
                ),
                Some(NeodosKind::BootPhase) => push_item(
                    st1,
                    NeodosItemKind::BootPhaseFn,
                    name,
                    "Boot phase: "@ + name,
                ),
                None => st1,
            };
            clear_attrs(st2)
        },
        None => clear_attrs(st),
    }
}

/// The value of a `const NAME: T = VALUE;` line: between the first and a
/// second `=`, trimmed, without trailing `;` (`?` when there is no `=`).
pub open spec fn const_value(t: Seq<char>) -> Seq<char> {
    let v = match after_first(t, "="@) {
        Some(r) => before(r, "="@),
        None => "?"@,
    };
    strip_all_suffix_char(trim(v), ';')
}

/// A constant; `CAP_` constants are also capability flags.
pub open spec fn const_step(st: ScanView, ls: Seq<Seq<char>>, i: int, path: Seq<char>, t: Seq<char>) -> ScanView {
    match spec_extract_name(t, "const"@) {
        Some(name) => {
            let st1 = push_sym(taken(st), new_sym(st, name, SymbolKind::CONSTANT, path, i, ls[i]));
            let st2 = if has_prefix(name, "CAP_"@) {
                push_item(
                    st1,
                    NeodosItemKind::CapabilityFlag,
                    name,
                    "Capability: "@ + name + " = "@ + const_value(t),
                )
            } else {
                st1
            };
            clear_attrs(st2)
        },
        None => clear_attrs(st),
    }
}

/// An `impl` line opens a block for its target type.
pub open spec fn impl_step(st: ScanView, ls: Seq<Seq<char>>, i: int, path: Seq<char>, t: Seq<char>) -> ScanView {
    match spec_impl_target(t) {
        Some(target) => {
            let s = new_sym(st, target, SymbolKind::OBJECT, path, i, ls[i]);
            clear_attrs(
                push_sym(ScanView { impl_target: Some(target), brace: 1, ..taken(st) }, s),
            )
        },
        None => clear_attrs(st),
    }
}

/// Lines that are no declaration: syscall-number variants, shell command
/// tables, driver states; any other non-empty line that is no attribute
/// drops the pending attributes.
pub open spec fn other_step(st: ScanView, ls: Seq<Seq<char>>, i: int, t: Seq<char>) -> ScanView {
    match spec_syscallnum_variant(t) {
        Some((vname, n)) => push_item(
            st,
            NeodosItemKind::SyscallHandler,
            "SyscallNum::"@ + vname + " ("@ + crate::text::decimal(n as nat) + ")"@,
            "syscall #"@ + crate::text::decimal(n as nat) + ": "@ + vname,
        ),
        None => if contains(t, "CommandEntry {"@) || contains(t, "CommandEntry::new"@) {
            match spec_command_entry(ls, i) {
                Some((n, d)) => push_item(st, NeodosItemKind::ShellCommand, n, d),
                None => st,
            }
        } else if spec_driver_state(t) {
            push_item(
                st,
                NeodosItemKind::DriverState,
                strip_all_suffix_char(trim(t), ','),
                "DriverState variant"@,
            )
        } else if t.len() > 0 && !has_prefix(t, "#"@) {
            clear_attrs(st)
        } else {
            st
        },
    }
}

/// A line outside any `impl` method: items by their leading keyword.
pub open spec fn decl_step(st: ScanView, ls: Seq<Seq<char>>, i: int, path: Seq<char>, t: Seq<char>) -> ScanView {
    let line = ls[i];
    if is_fn_line(t) {
        fn_step(st, ls, i, path, t)
    } else if has_prefix(t, "pub struct"@) || has_prefix(t, "struct "@) {
        simple_decl(st, t, "struct"@, SymbolKind::STRUCT, path, i, line)
    } else if has_prefix(t, "pub enum"@) || has_prefix(t, "enum "@) {
        simple_decl(st, t, "enum"@, SymbolKind::ENUM, path, i, line)
    } else if has_prefix(t, "pub trait"@) || has_prefix(t, "trait "@) {
        simple_decl(st, t, "trait"@, SymbolKind::INTERFACE, path, i, line)
    } else if has_prefix(t, "pub type"@) || has_prefix(t, "type "@) {
        simple_decl(st, t, "type"@, SymbolKind::TYPE_PARAMETER, path, i, line)
    } else if (has_prefix(t, "pub const"@) || has_prefix(t, "const "@)) && !contains(t, " fn "@) {
        const_step(st, ls, i, path, t)
    } else if has_prefix(t, "pub static"@) || has_prefix(t, "static "@) {
        simple_decl(st, t, "static"@, SymbolKind::CONSTANT, path, i, line)
    } else if has_prefix(t, "macro_rules!"@) {
        match spec_macro_name(t) {
            Some(name) => clear_attrs(
                push_sym(taken(st), new_sym(st, name, SymbolKind::FUNCTION, path, i, line)),
            ),
            None => clear_attrs(st),
        }
    } else if has_prefix(t, "impl "@) {
        impl_step(st, ls, i, path, t)
    } else {
        other_step(st, ls, i, t)
    }
}

/// Brace depth of the open `impl` block after line `t`: opening braces add,
/// closing braces subtract, never below zero.
pub open spec fn next_brace(b: int, t: Seq<char>) -> int {
    let up = b + crate::text::count_char(t, '{');
    let down = crate::text::count_char(t, '}');
    if up >= down {
        up - down
    } else {
        0
    }
}

/// One line of the file.
#[verifier::opaque]
pub open spec fn step(st: ScanView, ls: Seq<Seq<char>>, i: int, path: Seq<char>) -> ScanView {
    let line = ls[i];
    let t = trim(line);
    if has_prefix(t, "///"@) || has_prefix(t, "//!"@) {
        ScanView { comment: Some(join_comment(st.comment, doc_text(t))), ..st }
    } else if has_prefix(t, "/*"@) && contains(t, "*/"@) {
        st
    } else if has_prefix(t, "#["@) && has_suffix(t, "]"@) {
        ScanView { attrs: st.attrs.push(t.subrange(2, t.len() - 1)), ..st }
    } else if has_prefix(t, "#["@) {
        ScanView { attrs: st.attrs.push(t.subrange(2, t.len() as int)), ..st }
    } else if has_suffix(t, "]"@) && st.attrs.len() > 0 {
        ScanView {
            attrs: st.attrs.update(
                st.attrs.len() - 1,
                st.attrs.last() + strip_all_suffix_char(t, ']'),
            ),
            ..st
        }
    } else {
        match spec_mod_decl(t) {
            Some(name) => clear_attrs(
                push_sym(taken(st), new_sym(st, name, SymbolKind::MODULE, path, i, line)),
            ),
            None => {
                if st.impl_target is Some {
                    let stb = ScanView { brace: next_brace(st.brace, t), ..st };
                    if is_method_line(t) {
                        method_step(stb, ls, i, path, t)
                    } else if stb.brace == 0 {
                        decl_step(ScanView { impl_target: None, ..stb }, ls, i, path, t)
                    } else {
                        decl_step(stb, ls, i, path, t)
                    }
                } else {
                    decl_step(st, ls, i, path, t)
                }
            },
        }
    }
}

pub open spec fn scan_start(first_id: int) -> ScanView {
    ScanView {
        symbols: seq![],
        items: seq![],
        comment: None,
        attrs: seq![],
        impl_target: None,
        brace: 0,
        next_id: first_id,
    }
}

/// The state after the first `n` lines.
pub open spec fn scan(ls: Seq<Seq<char>>, path: Seq<char>, first_id: int, n: int) -> ScanView
    decreases n,
{
    if n <= 0 {
        scan_start(first_id)
    } else {
        step(scan(ls, path, first_id, n - 1), ls, n - 1, path)
    }
}

} // verus!

verus! {

/// Symbols, references and NeoDOS items of one file.
#[derive(Debug, Clone)]
pub struct ParsedFile {
    pub symbols: Vec<crate::database::Symbol>,
    pub references: Vec<Reference>,
    pub neodos_items: Vec<NeodosItem>,
}

struct Scanner {
    symbols: Vec<Symbol>,
    items: Vec<NeodosItem>,
    comment: Option<Vec<char>>,
    attrs: Vec<Vec<char>>,
    impl_target: Option<Vec<char>>,
    brace: u128,
    next_id: u64,
}

impl View for Scanner {
    type V = ScanView;

    closed spec fn view(&self) -> ScanView {
        ScanView {
            symbols: crate::database::views_of(self.symbols@),
            items: self.items@.map_values(|x: NeodosItem| x@),
            comment: opt_chars(self.comment),
            attrs: lines_view(self.attrs@),
            impl_target: opt_chars(self.impl_target),
            brace: self.brace as int,
            next_id: self.next_id as int,
        }
    }
}

fn strings_of(v: &Vec<Vec<char>>) -> (r: Vec<String>)
    ensures
        crate::database::texts(r@) == lines_view(v@),
{
    let mut r: Vec<String> = Vec::new();
    let mut i: usize = 0;
    while i < v.len()
        invariant
            i <= v@.len(),
            r@.len() == i,
            forall|j: int| 0 <= j < i ==> #[trigger] r@[j]@ == v@[j]@,
        decreases v@.len() - i,
    {
        r.push(crate::text::string_from_chars(v[i].as_slice()));
        i = i + 1;
    }
    assert(crate::database::texts(r@) =~= lines_view(v@));
    r
}

fn opt_string(o: &Option<Vec<char>>) -> (r: Option<String>)
    ensures
        crate::database::opt_text(r) == opt_chars(*o),
{
    match o {
        Some(v) => Some(crate::text::string_from_chars(v.as_slice())),
        None => None,
    }
}

fn has_deprecated(attrs: &Vec<Vec<char>>) -> (r: bool)
    ensures
        r == any_deprecated(lines_view(attrs@)),
{
    let key = chars_of("deprecated");
    let mut i: usize = 0;
    while i < attrs.len()
        invariant
            i <= attrs@.len(),
            key@ == "deprecated"@,
            forall|k: int| 0 <= k < i ==> !contains(#[trigger] lines_view(attrs@)[k], "deprecated"@),
        decreases attrs@.len() - i,
    {
        if contains_chars(attrs[i].as_slice(), key.as_slice()) {
            assert(contains(lines_view(attrs@)[i as int], "deprecated"@));
            return true;
        }
        i = i + 1;
    }
    false
}

fn has_test_attr(attrs: &Vec<Vec<char>>) -> (r: bool)
    ensures
        r == exists|k: int| 0 <= k < attrs@.len() && #[trigger] lines_view(attrs@)[k] == "test"@,
{
    let key = chars_of("test");
    let mut i: usize = 0;
    while i < attrs.len()
        invariant
            i <= attrs@.len(),
            key@ == "test"@,
            forall|k: int| 0 <= k < i ==> #[trigger] lines_view(attrs@)[k] != "test"@,
        decreases attrs@.len() - i,
    {
        if chars_eq(attrs[i].as_slice(), key.as_slice()) {
            assert(lines_view(attrs@)[i as int] == "test"@);
            return true;
        }
        i = i + 1;
    }
    false
}

} // verus!

verus! {

fn cat(a: &[char], b: &[char]) -> (r: Vec<char>)
    ensures
        r@ == a@ + b@,
{
    let mut r = slice_to_vec_chars(a, 0, a.len());
    let mut t = slice_to_vec_chars(b, 0, b.len());
    assert(a@.subrange(0, a@.len() as int) =~= a@);
    assert(b@.subrange(0, b@.len() as int) =~= b@);
    r.append(&mut t);
    r
}

impl Scanner {
    fn make_sym(&mut self, name: &[char], kind: SymbolKind, path: &str, i: usize, line: &[char]) -> (r: Symbol)
        requires
            old(self)@.next_id < u64::MAX,
        ensures
            r@ == new_sym(old(self)@, name@, kind, path@, i as int, line@),
            final(self)@ == taken(old(self)@),
    {
        let (ind, len) = crate::text::indent_and_len(line);
        let start = Position { line: i as u32, character: ind as u32 };
        let end = Position { line: i as u32, character: len as u32 };
        let rg = Range { start, end };
        let id = crate::database::fresh_symbol_id(&mut self.next_id);
        let documentation = opt_string(&self.comment);
        self.comment = None;
        let attributes = strings_of(&self.attrs);
        let is_deprecated = has_deprecated(&self.attrs);
        let r = Symbol {
            id,
            name: crate::text::string_from_chars(name),
            kind,
            neodos_kind: None,
            file: String::from_str(path),
            range: rg,
            selection_range: rg,
            parent: None,
            children: Vec::new(),
            documentation,
            detail: None,
            signature: None,
            visibility: None,
            attributes,
            is_deprecated,
            is_test: false,
            syscall_number: None,
            capabilities: None,
        };
        assert(r@.children =~= seq![]);
        r
    }

    fn push_symbol(&mut self, s: Symbol)
        ensures
            final(self)@ == push_sym(old(self)@, s@),
    {
        self.symbols.push(s);
        assert(self@.symbols =~= old(self)@.symbols.push(s@));
    }

    fn push_neodos_item(&mut self, kind: NeodosItemKind, name: &[char], detail: &[char])
        ensures
            final(self)@ == push_item(old(self)@, kind, name@, detail@),
    {
        let it = NeodosItem {
            kind,
            name: crate::text::string_from_chars(name),
            detail: crate::text::string_from_chars(detail),
        };
        self.items.push(it);
        assert(self@.items =~= old(self)@.items.push(it@));
    }

    fn clear_attributes(&mut self)
        ensures
            final(self)@ == clear_attrs(old(self)@),
    {
        self.attrs = Vec::new();
        assert(self@.attrs =~= seq![]);
    }

    fn simple_decl(
        &mut self,
        t: &[char],
        kw: &str,
        kind: SymbolKind,
        path: &str,
        i: usize,
        line: &[char],
    )
        requires
            old(self)@.next_id < u64::MAX,
        ensures
            final(self)@ == simple_decl(old(self)@, t@, kw@, kind, path@, i as int, line@),
    {
        let kwc = chars_of(kw);
        match extract_name(t, kwc.as_slice()) {
            Some(name) => {
                let s = self.make_sym(name.as_slice(), kind, path, i, line);
                self.push_symbol(s);
                self.clear_attributes();
            },
            None => {
                self.clear_attributes();
            },
        }
    }

    fn method_line(&mut self, ls: &Vec<Vec<char>>, i: usize, path: &str, t: &[char])
        requires
            old(self)@.next_id < u64::MAX,
            i < ls@.len(),
            old(self)@.impl_target is Some,
        ensures
            final(self)@ == method_step(old(self)@, lines_view(ls@), i as int, path@, t@),
    {
        let fnk = chars_of("fn");
        match extract_name(t, fnk.as_slice()) {
            Some(name) => {
                assert(lines_view(ls@)[i as int] == ls@[i as int]@);
                let mut s = self.make_sym(name.as_slice(), SymbolKind::METHOD, path, i, ls[i].as_slice());
                let sig = extract_signature(t, ls, i);
                s.signature = Some(crate::text::string_from_chars(sig.as_slice()));
                let n = name.as_slice();
                if chars_eq(n, chars_of("read").as_slice()) || chars_eq(n, chars_of("write").as_slice())
                    || chars_eq(n, chars_of("open").as_slice()) || chars_eq(
                    n,
                    chars_of("close").as_slice(),
                ) {
                    let target = match &self.impl_target {
                        Some(x) => copy_chars(x),
                        None => Vec::new(),
                    };
                    let d = cat(
                        cat(
                            cat(chars_of("impl ").as_slice(), target.as_slice()).as_slice(),
                            chars_of("::").as_slice(),
                        ).as_slice(),
                        n,
                    );
                    self.push_neodos_item(NeodosItemKind::FileSystemImpl, n, d.as_slice());
                }
                self.push_symbol(s);
                self.clear_attributes();
            },
            None => {
                self.clear_attributes();
            },
        }
    }

    fn fn_line(&mut self, ls: &Vec<Vec<char>>, i: usize, path: &str, t: &[char])
        requires
            old(self)@.next_id < u64::MAX,
            i < ls@.len(),
        ensures
            final(self)@ == fn_step(old(self)@, lines_view(ls@), i as int, path@, t@),
    {
        let fnk = chars_of("fn");
        match extract_name(t, fnk.as_slice()) {
            Some(name) => {
                assert(lines_view(ls@)[i as int] == ls@[i as int]@);
                let ghost st0 = self@;
                let sc = detect_syscall_handler(name.as_slice(), &self.attrs);
                let is_test = contains_chars(t, chars_of("#[test]").as_slice()) || has_test_attr(
                    &self.attrs,
                );
                let mut s = self.make_sym(name.as_slice(), SymbolKind::FUNCTION, path, i, ls[i].as_slice());
                let is_pub = contains_chars(t, chars_of("pub ").as_slice());
                s.visibility = Some(
                    if is_pub {
                        String::from_str("pub")
                    } else {
                        String::from_str("private")
                    },
                );
                let sig = extract_signature(t, ls, i);
                s.signature = Some(crate::text::string_from_chars(sig.as_slice()));
                s.is_test = is_test;
                let n = name.as_slice();
                let phase = starts_with(n, chars_of("PHASE_").as_slice()) || starts_with(
                    n,
                    chars_of("phase_").as_slice(),
                );
                let nk = if phase {
                    Some(NeodosKind::BootPhase)
                } else {
                    match sc {
                        Some(num) => Some(NeodosKind::Syscall(num)),
                        None => None,
                    }
                };
                s.neodos_kind = nk;
                s.syscall_number = sc;
                self.push_symbol(s);
                match nk {
                    Some(NeodosKind::Syscall(num)) => {
                        let digits = crate::text::decimal_chars(num);
                        let d = cat(
                            cat(
                                cat(chars_of("syscall #").as_slice(), digits.as_slice()).as_slice(),
                                chars_of(": ").as_slice(),
                            ).as_slice(),
                            n,
                        );
                        self.push_neodos_item(NeodosItemKind::SyscallHandler, n, d.as_slice());
                    },
                    Some(NeodosKind::BootPhase) => {
                        let d = cat(chars_of("Boot phase: ").as_slice(), n);
                        self.push_neodos_item(NeodosItemKind::BootPhaseFn, n, d.as_slice());
                    },
                    None => {},
                }
                self.clear_attributes();
                assert(self@ == fn_step(st0, lines_view(ls@), i as int, path@, t@));
            },
            None => {
                self.clear_attributes();
            },
        }
    }

    fn const_line(&mut self, ls: &Vec<Vec<char>>, i: usize, path: &str, t: &[char])
        requires
            old(self)@.next_id < u64::MAX,
            i < ls@.len(),
        ensures
            final(self)@ == const_step(old(self)@, lines_view(ls@), i as int, path@, t@),
    {
        let kw = chars_of("const");
        match extract_name(t, kw.as_slice()) {
            Some(name) => {
                assert(lines_view(ls@)[i as int] == ls@[i as int]@);
                let s = self.make_sym(name.as_slice(), SymbolKind::CONSTANT, path, i, ls[i].as_slice());
                self.push_symbol(s);
                let n = name.as_slice();
                if starts_with(n, chars_of("CAP_").as_slice()) {
                    let eq = chars_of("=");
                    let v = match after_first_chars(t, eq.as_slice()) {
                        Some(r) => before_chars(r.as_slice(), eq.as_slice()),
                        None => chars_of("?"),
                    };
                    let val = strip_all_suffix_chars(trimmed(v.as_slice()).as_slice(), ';');
                    let d = cat(
                        cat(
                            cat(chars_of("Capability: ").as_slice(), n).as_slice(),
                            chars_of(" = ").as_slice(),
                        ).as_slice(),
                        val.as_slice(),
                    );
                    self.push_neodos_item(NeodosItemKind::CapabilityFlag, n, d.as_slice());
                }
                self.clear_attributes();
            },
            None => {
                self.clear_attributes();
            },
        }
    }

    fn impl_line(&mut self, ls: &Vec<Vec<char>>, i: usize, path: &str, t: &[char])
        requires
            old(self)@.next_id < u64::MAX,
            i < ls@.len(),
        ensures
            final(self)@ == impl_step(old(self)@, lines_view(ls@), i as int, path@, t@),
    {
        match extract_impl_target(t) {
            Some(target) => {
                assert(lines_view(ls@)[i as int] == ls@[i as int]@);
                let s = self.make_sym(target.as_slice(), SymbolKind::OBJECT, path, i, ls[i].as_slice());
                self.impl_target = Some(target);
                self.brace = 1;
                self.push_symbol(s);
                self.clear_attributes();
            },
            None => {
                self.clear_attributes();
            },
        }
    }

    fn other_line(&mut self, ls: &Vec<Vec<char>>, i: usize, t: &[char])
        requires
            i < ls@.len(),
        ensures
            final(self)@ == other_step(old(self)@, lines_view(ls@), i as int, t@),
    {
        match parse_syscallnum_variant(t) {
            Some((vname, num)) => {
                let digits = crate::text::decimal_chars(num);
                let name = cat(
                    cat(
                        cat(
                            cat(chars_of("SyscallNum::").as_slice(), vname.as_slice()).as_slice(),
                            chars_of(" (").as_slice(),
                        ).as_slice(),
                        digits.as_slice(),
                    ).as_slice(),
                    chars_of(")").as_slice(),
                );
                let d = cat(
                    cat(
                        cat(chars_of("syscall #").as_slice(), digits.as_slice()).as_slice(),
                        chars_of(": ").as_slice(),
                    ).as_slice(),
                    vname.as_slice(),
                );
                self.push_neodos_item(NeodosItemKind::SyscallHandler, name.as_slice(), d.as_slice());
            },
            None => {
                if contains_chars(t, chars_of("CommandEntry {").as_slice()) || contains_chars(
                    t,
                    chars_of("CommandEntry::new").as_slice(),
                ) {
                    match parse_command_entry(ls, i) {
                        Some((n, d)) => {
                            self.push_neodos_item(NeodosItemKind::ShellCommand, n.as_slice(), d.as_slice());
                        },
                        None => {},
                    }
                } else if is_driver_state_enum(t) {
                    let name = strip_all_suffix_chars(trimmed(t).as_slice(), ',');
                    let d = chars_of("DriverState variant");
                    self.push_neodos_item(NeodosItemKind::DriverState, name.as_slice(), d.as_slice());
                } else if t.len() > 0 && !starts_with(t, chars_of("#").as_slice()) {
                    self.clear_attributes();
                }
            },
        }
    }

    fn decl_line(&mut self, ls: &Vec<Vec<char>>, i: usize, path: &str, t: &[char])
        requires
            old(self)@.next_id < u64::MAX,
            i < ls@.len(),
        ensures
            final(self)@ == decl_step(old(self)@, lines_view(ls@), i as int, path@, t@),
    {
        assert(lines_view(ls@)[i as int] == ls@[i as int]@);
        let line = ls[i].as_slice();
        if starts_with(t, chars_of("pub fn").as_slice()) || starts_with(t, chars_of("fn ").as_slice())
            || starts_with(t, chars_of("pub(crate) fn").as_slice()) || starts_with(
            t,
            chars_of("pub(super) fn").as_slice(),
        ) || starts_with(t, chars_of("pub unsafe fn").as_slice()) || starts_with(
            t,
            chars_of("unsafe fn").as_slice(),
        ) || starts_with(t, chars_of("pub async fn").as_slice()) || starts_with(
            t,
            chars_of("async fn").as_slice(),
        ) {
            self.fn_line(ls, i, path, t);
        } else if starts_with(t, chars_of("pub struct").as_slice()) || starts_with(
            t,
            chars_of("struct ").as_slice(),
        ) {
            self.simple_decl(t, "struct", SymbolKind::STRUCT, path, i, line);
        } else if starts_with(t, chars_of("pub enum").as_slice()) || starts_with(
            t,
            chars_of("enum ").as_slice(),
        ) {
            self.simple_decl(t, "enum", SymbolKind::ENUM, path, i, line);
        } else if starts_with(t, chars_of("pub trait").as_slice()) || starts_with(
            t,
            chars_of("trait ").as_slice(),
        ) {
            self.simple_decl(t, "trait", SymbolKind::INTERFACE, path, i, line);
        } else if starts_with(t, chars_of("pub type").as_slice()) || starts_with(
            t,
            chars_of("type ").as_slice(),
        ) {
            self.simple_decl(t, "type", SymbolKind::TYPE_PARAMETER, path, i, line);
        } else if (starts_with(t, chars_of("pub const").as_slice()) || starts_with(
            t,
            chars_of("const ").as_slice(),
        )) && !contains_chars(t, chars_of(" fn ").as_slice()) {
            self.const_line(ls, i, path, t);
        } else if starts_with(t, chars_of("pub static").as_slice()) || starts_with(
            t,
            chars_of("static ").as_slice(),
        ) {
            self.simple_decl(t, "static", SymbolKind::CONSTANT, path, i, line);
        } else if starts_with(t, chars_of("macro_rules!").as_slice()) {
            match extract_macro_name(t) {
                Some(name) => {
                    let s = self.make_sym(name.as_slice(), SymbolKind::FUNCTION, path, i, line);
                    self.push_symbol(s);
                    self.clear_attributes();
                },
                None => {
                    self.clear_attributes();
                },
            }
        } else if starts_with(t, chars_of("impl ").as_slice()) {
            self.impl_line(ls, i, path, t);
        } else {
            self.other_line(ls, i, t);
        }
    }
}

} // verus!

verus! {

impl Scanner {
    fn scan_line(&mut self, ls: &Vec<Vec<char>>, i: usize, path: &str)
        requires
            old(self)@.next_id < u64::MAX,
            i < ls@.len(),
            old(self)@.brace + 0x1_0000_0000_0000_0000 <= u128::MAX,
        ensures
            final(self)@ == step(old(self)@, lines_view(ls@), i as int, path@),
            old(self)@.next_id <= final(self)@.next_id <= old(self)@.next_id + 1,
            final(self)@.brace <= old(self)@.brace + 0x1_0000_0000_0000_0000,
    {
        reveal(step);
        assert(lines_view(ls@)[i as int] == ls@[i as int]@);
        let t = trimmed(ls[i].as_slice());
        let ts = t.as_slice();
        if starts_with(ts, chars_of("///").as_slice()) || starts_with(ts, chars_of("//!").as_slice()) {
            let d1 = strip_all_prefix_chars(ts, chars_of("///").as_slice());
            let d2 = strip_all_prefix_chars(d1.as_slice(), chars_of("//!").as_slice());
            let doc = trimmed(d2.as_slice());
            let prev = match &self.comment {
                Some(p) => copy_chars(p),
                None => Vec::new(),
            };
            let joined = if prev.len() == 0 {
                doc
            } else {
                cat(cat(prev.as_slice(), chars_of("\n").as_slice()).as_slice(), doc.as_slice())
            };
            self.comment = Some(joined);
            return;
        }
        if starts_with(ts, chars_of("/*").as_slice()) && contains_chars(ts, chars_of("*/").as_slice()) {
            return;
        }
        let open_attr = starts_with(ts, chars_of("#[").as_slice());
        let close_attr = ends_with(ts, chars_of("]").as_slice());
        proof {
            reveal_strlit("#[");
            reveal_strlit("]");
        }
        if open_attr && close_attr {
            proof {
                if t@.len() < 3 {
                    assert(t@.subrange(0, 2)[1] == '[');
                    assert(t@.subrange(t@.len() - 1, t@.len() as int)[0] == ']');
                }
            }
            let a = slice_to_vec_chars(ts, 2, ts.len() - 1);
            self.attrs.push(a);
            assert(self@.attrs =~= old(self)@.attrs.push(t@.subrange(2, t@.len() - 1)));
            return;
        }
        if open_attr {
            let a = slice_to_vec_chars(ts, 2, ts.len());
            self.attrs.push(a);
            assert(self@.attrs =~= old(self)@.attrs.push(t@.subrange(2, t@.len() as int)));
            return;
        }
        if close_attr && self.attrs.len() > 0 {
            let tail = strip_all_suffix_chars(ts, ']');
            let last = self.attrs.len() - 1;
            let joined = cat(self.attrs[last].as_slice(), tail.as_slice());
            self.attrs.set(last, joined);
            assert(self@.attrs =~= old(self)@.attrs.update(
                old(self)@.attrs.len() - 1,
                old(self)@.attrs.last() + strip_all_suffix_char(t@, ']'),
            ));
            return;
        }
        match parse_mod_decl(ts) {
            Some(name) => {
                let s = self.make_sym(name.as_slice(), SymbolKind::MODULE, path, i, ls[i].as_slice());
                self.push_symbol(s);
                self.clear_attributes();
                return;
            },
            None => {},
        }
        if self.impl_target.is_some() {
            let opens = crate::text::count_chars(ts, '{') as u128;
            let closes = crate::text::count_chars(ts, '}') as u128;
            proof {
                crate::text::lemma_count_char_le(t@, '{');
            }
            let up = self.brace + opens;
            self.brace = if up >= closes {
                up - closes
            } else {
                0
            };
            if starts_with(ts, chars_of("pub fn").as_slice()) || starts_with(
                ts,
                chars_of("fn ").as_slice(),
            ) || starts_with(ts, chars_of("pub unsafe fn").as_slice()) || starts_with(
                ts,
                chars_of("unsafe fn").as_slice(),
            ) {
                self.method_line(ls, i, path, ts);
                return;
            }
            if self.brace == 0 {
                self.impl_target = None;
            }
        }
        self.decl_line(ls, i, path, ts);
    }
}

pub proof fn lemma_step_next_id(st: ScanView, ls: Seq<Seq<char>>, i: int, path: Seq<char>)
    ensures
        st.next_id <= step(st, ls, i, path).next_id <= st.next_id + 1,
{
    lemma_step_symbols(st, ls, i, path);
}

pub proof fn lemma_scan_next_id(ls: Seq<Seq<char>>, path: Seq<char>, first_id: int, n: int)
    requires
        0 <= n,
    ensures
        first_id <= scan(ls, path, first_id, n).next_id <= first_id + n,
    decreases n,
{
    if n > 0 {
        lemma_scan_next_id(ls, path, first_id, n - 1);
        lemma_step_next_id(scan(ls, path, first_id, n - 1), ls, n - 1, path);
    }
}

/// The symbols found so far carry the ids handed out from `first_id`, in order.
pub open spec fn ids_from(st: ScanView, first_id: int) -> bool {
    &&& st.symbols.len() == st.next_id - first_id
    &&& forall|k: int| 0 <= k < st.symbols.len() ==> #[trigger] st.symbols[k].id.0 == first_id + k
}

/// `nx` has the symbols of `st`, or one more that took `st`'s next id.
pub open spec fn at_most_one_more(st: ScanView, nx: ScanView, path: Seq<char>, i: int) -> bool {
    ||| nx.symbols == st.symbols && nx.next_id == st.next_id
    ||| nx.next_id == st.next_id + 1 && nx.symbols == st.symbols.push(nx.symbols.last())
        && nx.symbols.last().id == SymbolId(st.next_id as u64) && nx.symbols.last().file == path
        && nx.symbols.last().range.start.line == i as u32 && nx.symbols.last().range.end.line == i as u32
        && nx.symbols.last().parent is None
}

/// Every symbol found so far belongs to the file at `path`.
pub open spec fn all_in_file(st: ScanView, path: Seq<char>) -> bool {
    forall|k: int| 0 <= k < st.symbols.len() ==> #[trigger] st.symbols[k].file == path
}

proof fn lemma_decl_step_symbols(st: ScanView, ls: Seq<Seq<char>>, i: int, path: Seq<char>, t: Seq<char>)
    ensures
        at_most_one_more(st, decl_step(st, ls, i, path, t), path, i),
{
    let line = ls[i];
    if is_fn_line(t) {
        assert(at_most_one_more(st, fn_step(st, ls, i, path, t), path, i));
    } else if has_prefix(t, "pub struct"@) || has_prefix(t, "struct "@) {
        assert(at_most_one_more(st, simple_decl(st, t, "struct"@, SymbolKind::STRUCT, path, i, line), path, i));
    } else if has_prefix(t, "pub enum"@) || has_prefix(t, "enum "@) {
        assert(at_most_one_more(st, simple_decl(st, t, "enum"@, SymbolKind::ENUM, path, i, line), path, i));
    } else if has_prefix(t, "pub trait"@) || has_prefix(t, "trait "@) {
        assert(at_most_one_more(st, simple_decl(st, t, "trait"@, SymbolKind::INTERFACE, path, i, line), path, i));
    } else if has_prefix(t, "pub type"@) || has_prefix(t, "type "@) {
        assert(at_most_one_more(st, simple_decl(st, t, "type"@, SymbolKind::TYPE_PARAMETER, path, i, line), path, i));
    } else if (has_prefix(t, "pub const"@) || has_prefix(t, "const "@)) && !contains(t, " fn "@) {
        assert(at_most_one_more(st, const_step(st, ls, i, path, t), path, i));
    } else if has_prefix(t, "pub static"@) || has_prefix(t, "static "@) {
        assert(at_most_one_more(st, simple_decl(st, t, "static"@, SymbolKind::CONSTANT, path, i, line), path, i));
    } else if has_prefix(t, "macro_rules!"@) {
    } else if has_prefix(t, "impl "@) {
        assert(at_most_one_more(st, impl_step(st, ls, i, path, t), path, i));
    } else {
        assert(at_most_one_more(st, other_step(st, ls, i, t), path, i));
    }
}

/// A line adds at most one symbol, which takes the next id.
pub proof fn lemma_step_symbols(st: ScanView, ls: Seq<Seq<char>>, i: int, path: Seq<char>)
    ensures
        at_most_one_more(st, step(st, ls, i, path), path, i),
{
    reveal(step);
    let t = trim(ls[i]);
    if st.impl_target is Some {
        let stb = ScanView { brace: next_brace(st.brace, t), ..st };
        lemma_decl_step_symbols(ScanView { impl_target: None, ..stb }, ls, i, path, t);
        lemma_decl_step_symbols(stb, ls, i, path, t);
        assert(at_most_one_more(stb, method_step(stb, ls, i, path, t), path, i));
    } else {
        lemma_decl_step_symbols(st, ls, i, path, t);
    }
}

pub proof fn lemma_step_ids(st: ScanView, ls: Seq<Seq<char>>, i: int, path: Seq<char>, first_id: int)
    requires
        ids_from(st, first_id),
        0 <= st.next_id < u64::MAX,
    ensures
        ids_from(step(st, ls, i, path), first_id),
        all_in_file(st, path) ==> all_in_file(step(st, ls, i, path), path),
{
    lemma_step_symbols(st, ls, i, path);
    let nx = step(st, ls, i, path);
    if nx.next_id == st.next_id + 1 {
        assert forall|k: int| 0 <= k < nx.symbols.len() implies #[trigger] nx.symbols[k].id.0 == first_id + k by {
            if k < st.symbols.len() {
                assert(nx.symbols[k] == st.symbols[k]);
            }
        }
        if all_in_file(st, path) {
            assert forall|k: int| 0 <= k < nx.symbols.len() implies #[trigger] nx.symbols[k].file == path by {
                if k < st.symbols.len() {
                    assert(nx.symbols[k] == st.symbols[k]);
                }
            }
        }
    }
}

/// Scanning a file hands out one id per symbol, in order from `first_id`:
/// the symbols are as many as the ids used, which are at most one per line;
/// and every symbol found belongs to the file scanned.
pub proof fn lemma_scan_ids(ls: Seq<Seq<char>>, path: Seq<char>, first_id: int, n: int)
    requires
        0 <= n,
        0 <= first_id,
        first_id + n <= u64::MAX,
    ensures
        ids_from(scan(ls, path, first_id, n), first_id),
        scan(ls, path, first_id, n).symbols.len() <= n,
        all_in_file(scan(ls, path, first_id, n), path),
    decreases n,
{
    if n > 0 {
        lemma_scan_ids(ls, path, first_id, n - 1);
        lemma_scan_next_id(ls, path, first_id, n - 1);
        lemma_step_ids(scan(ls, path, first_id, n - 1), ls, n - 1, path, first_id);
        lemma_step_next_id(scan(ls, path, first_id, n - 1), ls, n - 1, path);
    } else {
        assert(scan(ls, path, first_id, 0) == scan_start(first_id));
    }
}

/// Every symbol found so far sits on one line, has no parent, and the lines
/// of the symbols rise strictly, all below line `n`.
pub open spec fn lines_rise(st: ScanView, n: int) -> bool {
    &&& forall|k: int|
        0 <= k < st.symbols.len() ==> (#[trigger] st.symbols[k]).range.start.line == st.symbols[k].range.end.line
            && st.symbols[k].range.start.line < n && st.symbols[k].parent is None
    &&& forall|j: int, k: int|
        0 <= j < k < st.symbols.len() ==> (#[trigger] st.symbols[j]).range.start.line < (
        #[trigger] st.symbols[k]).range.start.line
}

proof fn lemma_scan_lines(ls: Seq<Seq<char>>, path: Seq<char>, first_id: int, n: int)
    requires
        0 <= n <= 0x1_0000_0000,
    ensures
        lines_rise(scan(ls, path, first_id, n), n),
    decreases n,
{
    if n > 0 {
        lemma_scan_lines(ls, path, first_id, n - 1);
        let st = scan(ls, path, first_id, n - 1);
        let nx = scan(ls, path, first_id, n);
        lemma_step_symbols(st, ls, n - 1, path);
        assert(nx == step(st, ls, n - 1, path));
        assert(((n - 1) as u32) == n - 1);
        if nx.symbols.len() > st.symbols.len() {
            assert forall|k: int| 0 <= k < nx.symbols.len() - 1 implies #[trigger] nx.symbols[k] == st.symbols[k] by {}
            assert forall|k: int| 0 <= k < nx.symbols.len() implies (#[trigger] nx.symbols[k]).range.start.line
                == nx.symbols[k].range.end.line && nx.symbols[k].range.start.line < n && nx.symbols[k].parent is None by {
                if k < st.symbols.len() {
                    assert(nx.symbols[k] == st.symbols[k]);
                }
            }
            assert forall|j: int, k: int| 0 <= j < k < nx.symbols.len() implies (#[trigger] nx.symbols[j]).range.start.line
                < (#[trigger] nx.symbols[k]).range.start.line by {
                assert(nx.symbols[j] == st.symbols[j]);
                if k < st.symbols.len() {
                    assert(nx.symbols[k] == st.symbols[k]);
                }
            }
        }
    } else {
        assert(scan(ls, path, first_id, 0) == scan_start(first_id));
    }
}

/// What scanning a file yields: the symbols take the ids `first_id`,
/// `first_id + 1`, ... in order (so they are distinct and rising), at most
/// one per line; each belongs to the file, has no parent and sits on a
/// single line; and their lines rise strictly. (`parse_file` returns these
/// symbols and no references.)
pub proof fn lemma_scan_structure(ls: Seq<Seq<char>>, path: Seq<char>, first_id: int, n: int)
    requires
        0 <= n <= 0x1_0000_0000,
        0 <= first_id,
        first_id + n <= u64::MAX,
    ensures
        ({
            let st = scan(ls, path, first_id, n);
            &&& st.symbols.len() <= n
            &&& forall|k: int| 0 <= k < st.symbols.len() ==> #[trigger] st.symbols[k].id.0 == first_id + k
            &&& all_in_file(st, path)
            &&& lines_rise(st, n)
        }),
{
    lemma_scan_ids(ls, path, first_id, n);
    lemma_scan_lines(ls, path, first_id, n);
}

/// A free function declared on line `i` (outside any `impl` block, on a
/// line that is not a comment or attribute) is indexed as one new symbol of
/// kind `FUNCTION`, named as declared, whose visibility is `pub` exactly
/// when the trimmed line contains `pub ` (as in `pub fn`, `pub unsafe fn`,
/// `pub async fn`) and `private` otherwise.
pub proof fn lemma_fn_line_visibility(st: ScanView, ls: Seq<Seq<char>>, i: int, path: Seq<char>)
    requires
        0 <= i < ls.len(),
        st.impl_target is None,
        is_fn_line(trim(ls[i])),
        spec_extract_name(trim(ls[i]), "fn"@) is Some,
        !has_prefix(trim(ls[i]), "///"@),
        !has_prefix(trim(ls[i]), "//!"@),
        !has_prefix(trim(ls[i]), "/*"@),
        !has_prefix(trim(ls[i]), "#["@),
        !(has_suffix(trim(ls[i]), "]"@) && st.attrs.len() > 0),
        spec_mod_decl(trim(ls[i])) is None,
    ensures
        ({
            let t = trim(ls[i]);
            let nx = step(st, ls, i, path);
            &&& nx.symbols.len() == st.symbols.len() + 1
            &&& forall|k: int| 0 <= k < st.symbols.len() ==> #[trigger] nx.symbols[k] == st.symbols[k]
            &&& nx.symbols.last().name == spec_extract_name(t, "fn"@)->0
            &&& nx.symbols.last().kind == SymbolKind::FUNCTION
            &&& nx.symbols.last().visibility == Some(
                if contains(t, "pub "@) {
                    "pub"@
                } else {
                    "private"@
                },
            )
        }),
{
    reveal(step);
    let t = trim(ls[i]);
    assert(step(st, ls, i, path) == fn_step(st, ls, i, path, t));
}

/// Scans the workspace's sources into the database.
pub struct Indexer {
    pub config: NeodosConfig,
}

impl Indexer {
    pub fn new(config: NeodosConfig) -> (r: Indexer)
        ensures
            r.config == config,
    {
        Indexer { config }
    }

    /// Threads to index with: the configured count, or when that is zero
    /// the available parallelism (`None` when it cannot be known, then four).
    pub fn parallelism(&self, available: Option<usize>) -> (r: usize)
        ensures
            r == if self.config.indexing.threads == 0 {
                match available {
                    Some(n) => n,
                    None => 4,
                }
            } else {
                self.config.indexing.threads
            },
    {
        if self.config.indexing.threads == 0 {
            match available {
                Some(n) => n,
                None => 4,
            }
        } else {
            self.config.indexing.threads
        }
    }

    /// Indexes one source file. Symbols take their ids from `next_id` upwards,
    /// one per symbol; each line yields at most one symbol.
    pub fn parse_file(path: &str, content: &str, next_id: &mut u64) -> (r: ParsedFile)
        requires
            *old(next_id) + crate::text::lines(content@).len() <= u64::MAX,
        ensures
            ({
                let fin = scan(
                    crate::text::lines(content@),
                    path@,
                    *old(next_id) as int,
                    crate::text::lines(content@).len() as int,
                );
                &&& crate::database::views_of(r.symbols@) == fin.symbols
                &&& r.neodos_items@.map_values(|x: NeodosItem| x@) == fin.items
                &&& r.references@.len() == 0
                &&& *final(next_id) == fin.next_id
            }),
    {
        let cs = chars_of(content);
        let ls = crate::text::lines_of(cs.as_slice());
        let ghost lv = crate::text::lines(content@);
        assert(lines_view(ls@) =~= lv);
        let mut sc = Scanner {
            symbols: Vec::new(),
            items: Vec::new(),
            comment: None,
            attrs: Vec::new(),
            impl_target: None,
            brace: 0,
            next_id: *next_id,
        };
        assert(sc@ =~= scan_start(*old(next_id) as int)) by {
            assert(sc@.symbols =~= seq![]);
            assert(sc@.items =~= seq![]);
            assert(sc@.attrs =~= seq![]);
        }
        let mut i: usize = 0;
        while i < ls.len()
            invariant
                i <= ls@.len(),
                lines_view(ls@) == lv,
                ls@.len() == lv.len(),
                *old(next_id) + lv.len() <= u64::MAX,
                sc@ == scan(lv, path@, *old(next_id) as int, i as int),
                sc@.brace <= i * 0x1_0000_0000_0000_0000,
            decreases ls@.len() - i,
        {
            proof {
                lemma_scan_next_id(lv, path@, *old(next_id) as int, i as int);
            }
            sc.scan_line(&ls, i, path);
            i = i + 1;
        }
        *next_id = sc.next_id;
        let r = ParsedFile { symbols: sc.symbols, references: Vec::new(), neodos_items: sc.items };
        r
    }
}

} // verus!

verus! {

/// `p` excludes a path: a `DIR/**` pattern excludes paths that contain
/// `DIR`, any other pattern paths that contain it.
pub open spec fn pattern_excludes(path: Seq<char>, p: Seq<char>) -> bool {
    if has_suffix(p, "/**"@) {
        contains(path, p.subrange(0, p.len() - 3))
    } else {
        contains(path, p)
    }
}

/// Some exclude pattern matches the path.
pub open spec fn spec_excluded(path: Seq<char>, pats: Seq<Seq<char>>) -> bool {
    exists|k: int| 0 <= k < pats.len() && pattern_excludes(path, #[trigger] pats[k])
}

/// Whether the walk may enter (or yield) an entry: hidden entries directly
/// under a root are skipped, and so is every path an exclude pattern matches.
pub open spec fn spec_entry_allowed(name: Seq<char>, depth: nat, path: Seq<char>, pats: Seq<Seq<char>>) -> bool {
    !(has_prefix(name, "."@) && depth == 1) && !spec_excluded(path, pats)
}

pub fn is_excluded(path: &str, exclude: &Vec<String>) -> (r: bool)
    ensures
        r == spec_excluded(path@, crate::database::texts(exclude@)),
{
    let pc = chars_of(path);
    let suffix = chars_of("/**");
    proof {
        reveal_strlit("/**");
    }
    let ghost pats = crate::database::texts(exclude@);
    let mut i: usize = 0;
    while i < exclude.len()
        invariant
            i <= exclude@.len(),
            pats == crate::database::texts(exclude@),
            pc@ == path@,
            suffix@ == "/**"@,
            suffix@.len() == 3,
            forall|k: int| 0 <= k < i ==> !pattern_excludes(path@, #[trigger] pats[k]),
        decreases exclude@.len() - i,
    {
        let p = chars_of(exclude[i].as_str());
        assert(pats[i as int] == p@);
        let hit = if ends_with(p.as_slice(), suffix.as_slice()) {
            let head = slice_to_vec_chars(p.as_slice(), 0, p.len() - 3);
            contains_chars(pc.as_slice(), head.as_slice())
        } else {
            contains_chars(pc.as_slice(), p.as_slice())
        };
        if hit {
            assert(pattern_excludes(path@, pats[i as int]));
            return true;
        }
        i = i + 1;
    }
    false
}

pub fn entry_allowed(name: &str, depth: usize, path: &str, exclude: &Vec<String>) -> (r: bool)
    ensures
        r == spec_entry_allowed(name@, depth as nat, path@, crate::database::texts(exclude@)),
{
    let n = chars_of(name);
    if starts_with(n.as_slice(), chars_of(".").as_slice()) && depth == 1 {
        return false;
    }
    !is_excluded(path, exclude)
}

/// A file name whose extension is `rs`: it ends with `.rs` and has something
/// before that dot (a name such as `.rs` is all stem and has no extension).
pub open spec fn spec_rust_source_name(name: Seq<char>) -> bool {
    name.len() > 3 && has_suffix(name, ".rs"@)
}

/// Whether a discovered file, by its name, is a Rust source.
pub fn is_rust_source_name(name: &str) -> (r: bool)
    ensures
        r == spec_rust_source_name(name@),
{
    let n = chars_of(name);
    let ext = chars_of(".rs");
    proof {
        reveal_strlit(".rs");
    }
    n.len() > 3 && ends_with(n.as_slice(), ext.as_slice())
}

/// Adds a discovered source file; tells whether the limit of `max_files` is reached.
pub fn accept_discovered(files: &mut Vec<String>, path: String, max_files: usize) -> (full: bool)
    ensures
        final(files)@ == old(files)@.push(path),
        full == (final(files)@.len() >= max_files),
{
    files.push(path);
    files.len() >= max_files
}

/// Number of symbols in `results`.
pub open spec fn symbol_total(results: Seq<(String, ParsedFile)>) -> int
    decreases results.len(),
{
    if results.len() == 0 {
        0
    } else {
        symbol_total(results.drop_last()) + results.last().1.symbols@.len()
    }
}

/// The index of a parsed file.
pub open spec fn file_index_of(path: Seq<char>, p: ParsedFile) -> crate::database::FileIndexView {
    crate::database::FileIndexView {
        file: path,
        symbols: crate::database::views_of(p.symbols@),
        references: p.references@,
        neodos_items: p.neodos_items@.map_values(|x: NeodosItem| x@),
    }
}

/// The database after replacing the index of every parsed file in turn.
pub open spec fn replace_all(db: crate::database::DbView, results: Seq<(String, ParsedFile)>) -> crate::database::DbView
    decreases results.len(),
{
    if results.len() == 0 {
        db
    } else {
        crate::database::spec_replace_file_index(
            replace_all(db, results.drop_last()),
            file_index_of(results.last().0@, results.last().1),
        )
    }
}

/// After a scan is recorded, each scanned file lists exactly the ids of the
/// symbols parsed from it, in their order (so as many as were parsed), and
/// every file the scan did not reach keeps its list; this holds when the
/// scanned paths are distinct and each parsed symbol belongs to its file.
pub proof fn lemma_scan_lists_each_file(db: crate::database::DbView, results: Seq<(String, ParsedFile)>)
    requires
        forall|i: int, j: int| 0 <= i < j < results.len() ==> #[trigger] results[i].0@ != #[trigger] results[j].0@,
        forall|i: int, k: int|
            0 <= i < results.len() && 0 <= k < results[i].1.symbols@.len() ==> #[trigger] results[i].1.symbols@[k]@.file
                == results[i].0@,
    ensures
        forall|i: int|
            0 <= i < results.len() ==> #[trigger] crate::database::list_or_empty(
                replace_all(db, results).file_symbols,
                results[i].0@,
            ) == crate::database::views_of(results[i].1.symbols@).map_values(
                |x: crate::database::SymbolView| x.id,
            ),
        forall|g: Seq<char>|
            (forall|i: int| 0 <= i < results.len() ==> #[trigger] results[i].0@ != g) ==> #[trigger]
                crate::database::list_or_empty(replace_all(db, results).file_symbols, g)
                == crate::database::list_or_empty(db.file_symbols, g),
    decreases results.len(),
{
    if results.len() > 0 {
        let t = results.drop_last();
        assert forall|i: int, j: int| 0 <= i < j < t.len() implies #[trigger] t[i].0@ != #[trigger] t[j].0@ by {
            assert(t[i] == results[i] && t[j] == results[j]);
        }
        assert forall|i: int, k: int|
            0 <= i < t.len() && 0 <= k < t[i].1.symbols@.len() implies #[trigger] t[i].1.symbols@[k]@.file == t[i].0@ by {
            assert(t[i] == results[i]);
        }
        lemma_scan_lists_each_file(db, t);
        let n = results.len() - 1;
        let last = results[n];
        let idx = file_index_of(last.0@, last.1);
        assert forall|k: int| 0 <= k < idx.symbols.len() implies #[trigger] idx.symbols[k].file == idx.file by {
            assert(idx.symbols[k] == last.1.symbols@[k]@);
        }
        crate::database::lemma_replace_touches_only_its_file(replace_all(db, t), idx);
        let r = replace_all(db, results);
        assert forall|i: int|
            0 <= i < results.len() implies #[trigger] crate::database::list_or_empty(r.file_symbols, results[i].0@)
            == crate::database::views_of(results[i].1.symbols@).map_values(|x: crate::database::SymbolView| x.id) by {
            if i < n {
                assert(t[i] == results[i]);
                assert(results[i].0@ != results[n].0@);
            }
        }
        assert forall|g: Seq<char>|
            (forall|i: int| 0 <= i < results.len() ==> #[trigger] results[i].0@ != g) implies #[trigger]
            crate::database::list_or_empty(r.file_symbols, g) == crate::database::list_or_empty(db.file_symbols, g) by {
            assert(results[n].0@ != g);
            assert forall|i: int| 0 <= i < t.len() implies #[trigger] t[i].0@ != g by {
                assert(t[i] == results[i]);
                assert(results[i].0@ != g);
            }
        }
    }
}

impl Indexer {
    /// Records the parsed files of a workspace scan (those that could be read)
    /// and the list of all its files; returns how many symbols were indexed.
    pub fn index_workspace(
        &self,
        db: &mut crate::database::Database,
        files: &Vec<String>,
        results: Vec<(String, ParsedFile)>,
    ) -> (count: usize)
        requires
            symbol_total(results@) <= usize::MAX,
        ensures
            count == symbol_total(results@),
            final(db)@ == (crate::database::DbView {
                all_files: crate::database::texts(files@),
                ..replace_all(old(db)@, results@)
            }),
    {
        let ghost rs = results@;
        let mut count: usize = 0;
        let mut i: usize = 0;
        while i < results.len()
            invariant
                i <= results@.len(),
                rs == results@,
                symbol_total(rs) <= usize::MAX,
                count == symbol_total(rs.subrange(0, i as int)),
                db@ == replace_all(old(db)@, rs.subrange(0, i as int)),
            decreases results@.len() - i,
        {
            proof {
                assert(rs.subrange(0, i + 1).drop_last() =~= rs.subrange(0, i as int));
                lemma_symbol_total_prefix(rs, i + 1);
            }
            let (path, parsed) = (&results[i].0, &results[i].1);
            let sc = parsed.symbols.len();
            let fi = crate::database::FileIndex {
                file: path.clone(),
                symbols: crate::database::clone_symbols(&parsed.symbols),
                references: crate::database::clone_references(&parsed.references),
                neodos_items: crate::database::clone_items(&parsed.neodos_items),
            };
            db.replace_file_index(fi);
            count = count + sc;
            i = i + 1;
        }
        assert(rs.subrange(0, rs.len() as int) =~= rs);
        let mut all: Vec<String> = Vec::new();
        let mut j: usize = 0;
        while j < files.len()
            invariant
                j <= files@.len(),
                all@.len() == j,
                forall|q: int| 0 <= q < j ==> #[trigger] all@[q]@ == files@[q]@,
            decreases files@.len() - j,
        {
            all.push(files[j].clone());
            j = j + 1;
        }
        assert(crate::database::texts(all@) =~= crate::database::texts(files@));
        db.all_files = all;
        count
    }
}

pub proof fn lemma_symbol_total_prefix(rs: Seq<(String, ParsedFile)>, k: int)
    requires
        0 <= k <= rs.len(),
    ensures
        0 <= symbol_total(rs.subrange(0, k)) <= symbol_total(rs),
    decreases rs.len() - k,
{
    if k < rs.len() {
        lemma_symbol_total_prefix(rs, k + 1);
        assert(rs.subrange(0, k + 1).drop_last() =~= rs.subrange(0, k));
        lemma_symbol_total_nonneg(rs.subrange(0, k));
    } else {
        assert(rs.subrange(0, k) =~= rs);
        lemma_symbol_total_nonneg(rs);
    }
}

pub proof fn lemma_symbol_total_nonneg(rs: Seq<(String, ParsedFile)>)
    ensures
        symbol_total(rs) >= 0,
    decreases rs.len(),
{
    if rs.len() > 0 {
        lemma_symbol_total_nonneg(rs.drop_last());
    }
}

} // verus!
