//! Answers to editor requests, computed from the symbol database and the
//! sources of open documents.
use vstd::prelude::*;
use crate::config::{eq_ignore_ascii_case, eq_ignore_ascii_case_spec};
use crate::cache::{cache_insert, without_path, DocumentCache};
use crate::indexer::{scan, Indexer, ParsedFile};
use crate::config::NeodosConfig;
use crate::database::{
    clone_opt_string, enumerates, neodos_kind_label, opt_text, prefix_symbols,
    spec_completion_item_kind, views_of, ids_to_symbols, list_or_empty, innermost, at_position, Range,
    SymbolId, CompletionItemKind, FileIndex, FileIndexView, NeodosItemKind, spec_replace_file_index, clone_symbols,
    clone_items, clone_references, Database, DbView, NeodosItem, NeodosItemView, Position,
    Symbol, SymbolKind, SymbolView,
};
use crate::indexer::chars_eq;
use crate::text::{
    count_char, count_chars, after_last, chars_of, decimal, hex, hex_chars, has_prefix, lines, lines_of, lowercase, slice_to_vec_chars, string_from_chars, u64_to_string,
    utf8_len, utf8_len_of,
};

verus! {

/// The file-system path that `url::Url::parse` followed by
/// `Url::to_file_path` gives for a URI, as text; `None` where either fails.
pub uninterp spec fn uri_file_path(uri: Seq<char>) -> Option<Seq<char>>;

/// The text of the `file://` URL that `url::Url::from_file_path` gives for an
/// absolute path; `None` where it fails.
pub uninterp spec fn file_uri_of_path(path: Seq<char>) -> Option<Seq<char>>;

/// `url::Url::parse`, then `Url::to_file_path`, the path read lossily as
/// text. The contract only names the result: which URIs the `url` crate
/// accepts, and how it percent-decodes them, is left to `uri_file_path`.
#[verifier::external_body]
fn file_path_of_uri(uri: &str) -> (r: Option<String>)
    ensures
        opt_text(r) == uri_file_path(uri@),
{
    url::Url::parse(uri).ok().and_then(|u| u.to_file_path().ok()).map(|p| p.to_string_lossy().into_owned())
}

/// `url::Url::from_file_path`, then `Url::as_str`. The contract only names
/// the result: which paths count as absolute on the platform, and how the
/// `url` crate percent-encodes them, is left to `file_uri_of_path`.
#[verifier::external_body]
fn file_uri_of(path: &str) -> (r: Option<String>)
    ensures
        opt_text(r) == file_uri_of_path(path@),
{
    url::Url::from_file_path(path).ok().map(|u| u.as_str().to_string())
}

/// The path that a `file://` URI names; `None` where the `url` crate does not
/// read it as a local file.
pub fn uri_to_path(uri: &str) -> (r: Option<String>)
    ensures
        opt_text(r) == uri_file_path(uri@),
{
    file_path_of_uri(uri)
}

/// The `file://` URI of an absolute path; `None` where the `url` crate
/// refuses the path (a relative one among them).
pub fn path_to_uri(abs_path: &str) -> (r: Option<String>)
    ensures
        opt_text(r) == file_uri_of_path(abs_path@),
{
    file_uri_of(abs_path)
}

/// What `char::is_alphanumeric` says of a character.
pub uninterp spec fn alphanumeric(c: char) -> bool;

/// `char::is_alphanumeric`: alphabetic or numeric in the Unicode sense.
/// Among ASCII characters these are exactly the letters and the digits; the
/// rest of the Unicode tables is left to the name `alphanumeric`.
#[verifier::external_body]
fn is_alphanumeric(c: char) -> (r: bool)
    ensures
        r == alphanumeric(c),
        (c as u32) < 0x80 ==> (r <==> (('a' <= c && c <= 'z') || ('A' <= c && c <= 'Z') || ('0' <= c && c <= '9'))),
{
    c.is_alphanumeric()
}

/// A character that may stand in a word before the cursor.
pub open spec fn word_char_before(c: char) -> bool {
    alphanumeric(c) || c == '_' || c == ':' || c == '#' || c == '!'
}

/// A character that may stand in a word from the cursor on.
pub open spec fn word_char_after(c: char) -> bool {
    alphanumeric(c) || c == '_' || c == ':' || c == '!' || c == '?'
}

/// Length of the longest run of word characters at the end of `s`.
pub open spec fn run_before(s: Seq<char>) -> nat
    decreases s.len(),
{
    if s.len() == 0 {
        0
    } else if word_char_before(s.last()) {
        run_before(s.drop_last()) + 1
    } else {
        0
    }
}

/// Length of the longest run of word characters at the start of `s`.
pub open spec fn run_after(s: Seq<char>) -> nat
    decreases s.len(),
{
    if s.len() == 0 {
        0
    } else if word_char_after(s[0]) {
        run_after(s.drop_first()) + 1
    } else {
        0
    }
}

/// Byte offset `col` ends a whole number of characters of `l`.
pub open spec fn on_char_boundary(l: Seq<char>, col: int) -> bool {
    exists|k: int| 0 <= k <= l.len() && utf8_len(l.subrange(0, k)) == col
}

/// The number of characters of `l` that take `col` bytes.
pub open spec fn char_index_of_byte(l: Seq<char>, col: int) -> int {
    choose|k: int| 0 <= k <= l.len() && utf8_len(l.subrange(0, k)) == col
}

/// The cursor can be placed: when its line exists and its byte column lies
/// inside the line, the column falls between two characters.
pub open spec fn cursor_on_boundary(content: Seq<char>, p: Position) -> bool {
    let ls = lines(content);
    (p.line as int) < ls.len() && (p.character as int) < utf8_len(ls[p.line as int]) ==> on_char_boundary(
        ls[p.line as int],
        p.character as int,
    )
}

/// The word under the cursor: the word characters just before the byte
/// column joined to those from it on; none past the end of the line or
/// when both runs are empty.
pub open spec fn word_at(content: Seq<char>, p: Position) -> Option<Seq<char>> {
    let ls = lines(content);
    if (p.line as int) >= ls.len() {
        None
    } else {
        let l = ls[p.line as int];
        if (p.character as int) >= utf8_len(l) {
            None
        } else {
            let k = char_index_of_byte(l, p.character as int);
            let w = l.subrange(k - run_before(l.subrange(0, k)), k + run_after(l.subrange(k, l.len() as int)));
            if w.len() == 0 {
                None
            } else {
                Some(w)
            }
        }
    }
}

/// Longer prefixes take more bytes.
pub proof fn lemma_utf8_prefix_increasing(l: Seq<char>, i: int, j: int)
    requires
        0 <= i < j <= l.len(),
    ensures
        utf8_len(l.subrange(0, i)) < utf8_len(l.subrange(0, j)),
    decreases j - i,
{
    assert(l.subrange(0, j).drop_last() =~= l.subrange(0, j - 1));
    if i < j - 1 {
        lemma_utf8_prefix_increasing(l, i, j - 1);
    }
}

fn before_char_ok(c: char) -> (r: bool)
    ensures
        r == word_char_before(c),
{
    is_alphanumeric(c) || c == '_' || c == ':' || c == '#' || c == '!'
}

fn after_char_ok(c: char) -> (r: bool)
    ensures
        r == word_char_after(c),
{
    is_alphanumeric(c) || c == '_' || c == ':' || c == '!' || c == '?'
}

/// The word under the cursor `pos` in `content`.
pub fn word_at_position(content: &str, pos: Position) -> (r: Option<String>)
    requires
        cursor_on_boundary(content@, pos),
    ensures
        match r {
            Some(w) => word_at(content@, pos) == Some(w@),
            None => word_at(content@, pos) is None,
        },
{
    let cs = chars_of(content);
    let ls = lines_of(cs.as_slice());
    let li = pos.line as usize;
    if li >= ls.len() {
        return None;
    }
    let l = ls[li].as_slice();
    let ghost lv = l@;
    assert(lv == lines(content@)[pos.line as int]);
    let col = pos.character as u128;
    let total = utf8_len_of(l, 0, l.len());
    assert(l@.subrange(0, l@.len() as int) =~= l@);
    if col >= total {
        return None;
    }
    let mut k: usize = 0;
    let mut acc: u128 = 0;
    assert(l@.subrange(0, 0) =~= Seq::<char>::empty());
    while k < l.len() && acc < col
        invariant
            k <= l@.len(),
            acc == utf8_len(l@.subrange(0, k as int)),
            col < total,
            total == utf8_len(l@),
            forall|j: int| 0 <= j < k ==> utf8_len(#[trigger] l@.subrange(0, j)) < col,
        decreases l@.len() - k,
    {
        let w = utf8_len_of(l, k, k + 1);
        proof {
            assert(l@.subrange(0, k + 1) =~= l@.subrange(0, k as int) + l@.subrange(k as int, k + 1));
            crate::text::lemma_utf8_len_concat(l@.subrange(0, k as int), l@.subrange(k as int, k + 1));
            crate::text::lemma_utf8_len_le(l@);
            if k + 1 < l@.len() {
                lemma_utf8_prefix_increasing(l@, k + 1, l@.len() as int);
            }
            assert(l@.subrange(0, l@.len() as int) =~= l@);
        }
        acc = acc + w;
        k = k + 1;
    }
    proof {
        assert(l@.subrange(0, l@.len() as int) =~= l@);
        let k0 = choose|k0: int| 0 <= k0 <= l@.len() && utf8_len(l@.subrange(0, k0)) == col;
        if k0 < k {
            assert(utf8_len(l@.subrange(0, k0)) < col);
        } else if k0 > k {
            lemma_utf8_prefix_increasing(l@, k as int, k0);
        }
        assert(k0 == k);
        let k1 = char_index_of_byte(l@, col as int);
        if k1 < k {
            assert(utf8_len(l@.subrange(0, k1)) < col);
        } else if k1 > k {
            lemma_utf8_prefix_increasing(l@, k as int, k1);
        }
        assert(k1 == k);
    }
    let mut b: usize = 0;
    assert(l@.subrange(0, k as int).subrange(0, k as int) =~= l@.subrange(0, k as int));
    while b < k && before_char_ok(l[k - 1 - b])
        invariant
            b <= k <= l@.len(),
            run_before(l@.subrange(0, k as int)) == b + run_before(l@.subrange(0, k - b)),
        decreases k - b,
    {
        assert(l@.subrange(0, k - b).drop_last() =~= l@.subrange(0, k - b - 1));
        b = b + 1;
    }
    proof {
        if b < k {
            assert(l@.subrange(0, k - b).last() == l@[k - 1 - b]);
        } else {
            assert(l@.subrange(0, k - b) =~= Seq::<char>::empty());
        }
    }
    let mut a: usize = 0;
    while a < l.len() - k && after_char_ok(l[k + a])
        invariant
            k <= l@.len(),
            k + a <= l@.len(),
            run_after(l@.subrange(k as int, l@.len() as int)) == a + run_after(
                l@.subrange(k + a, l@.len() as int),
            ),
        decreases l@.len() - k - a,
    {
        assert(l@.subrange(k + a, l@.len() as int).drop_first() =~= l@.subrange(k + a + 1, l@.len() as int));
        a = a + 1;
    }
    proof {
        if k + a < l@.len() {
            assert(l@.subrange(k + a, l@.len() as int)[0] == l@[k + a]);
        } else {
            assert(l@.subrange(k + a, l@.len() as int) =~= Seq::<char>::empty());
        }
    }
    let w = slice_to_vec_chars(l, k - b, k + a);
    if w.len() == 0 {
        None
    } else {
        Some(string_from_chars(w.as_slice()))
    }
}

/// The word naming a kind of symbol in hover texts.
pub open spec fn kind_label(kind: SymbolKind) -> Seq<char> {
    match kind {
        SymbolKind::FUNCTION => "function"@,
        SymbolKind::MODULE => "module"@,
        SymbolKind::STRUCT => "struct"@,
        SymbolKind::ENUM => "enum"@,
        SymbolKind::INTERFACE => "trait"@,
        SymbolKind::METHOD => "method"@,
        SymbolKind::CONSTANT => "constant"@,
        SymbolKind::VARIABLE => "variable"@,
        SymbolKind::TYPE_PARAMETER => "type"@,
        SymbolKind::OBJECT => "impl"@,
        _ => "symbol"@,
    }
}

/// The word naming a kind of symbol in hover texts.
pub fn symbol_kind_label(kind: SymbolKind) -> (r: &'static str)
    ensures
        r@ == kind_label(kind),
{
    match kind {
        SymbolKind::FUNCTION => "function",
        SymbolKind::MODULE => "module",
        SymbolKind::STRUCT => "struct",
        SymbolKind::ENUM => "enum",
        SymbolKind::INTERFACE => "trait",
        SymbolKind::METHOD => "method",
        SymbolKind::CONSTANT => "constant",
        SymbolKind::VARIABLE => "variable",
        SymbolKind::TYPE_PARAMETER => "type",
        SymbolKind::OBJECT => "impl",
        _ => "symbol",
    }
}

} // verus!

verus! {

/// A proposed completion.
#[derive(Debug, Clone)]
pub struct CompletionItem {
    pub label: String,
    pub kind: CompletionItemKind,
    pub detail: Option<String>,
    pub documentation: Option<String>,
    pub insert_text: Option<String>,
    /// The inserted text is marked as plain text (not a snippet).
    pub plain_text: bool,
}

pub struct CompletionItemView {
    pub label: Seq<char>,
    pub kind: CompletionItemKind,
    pub detail: Option<Seq<char>>,
    pub documentation: Option<Seq<char>>,
    pub insert_text: Option<Seq<char>>,
    pub plain_text: bool,
}

impl View for CompletionItem {
    type V = CompletionItemView;

    open spec fn view(&self) -> CompletionItemView {
        CompletionItemView {
            label: self.label@,
            kind: self.kind,
            detail: opt_text(self.detail),
            documentation: opt_text(self.documentation),
            insert_text: opt_text(self.insert_text),
            plain_text: self.plain_text,
        }
    }
}

impl CompletionItem {
    /// A copy with the same value.
    pub fn duplicate(&self) -> (r: CompletionItem)
        ensures
            r@ == self@,
    {
        CompletionItem {
            label: self.label.clone(),
            kind: self.kind,
            detail: clone_opt_string(&self.detail),
            documentation: clone_opt_string(&self.documentation),
            insert_text: clone_opt_string(&self.insert_text),
            plain_text: self.plain_text,
        }
    }
}

pub open spec fn item_views(v: Seq<CompletionItem>) -> Seq<CompletionItemView> {
    v.map_values(|c: CompletionItem| c@)
}

/// Lexicographic order of texts by code point, which is the order of their
/// UTF-8 bytes that `String` comparison uses.
pub open spec fn text_lt(a: Seq<char>, b: Seq<char>) -> bool
    decreases a.len(),
{
    if a.len() == 0 {
        b.len() > 0
    } else if b.len() == 0 {
        false
    } else if a[0] != b[0] {
        a[0] < b[0]
    } else {
        text_lt(a.drop_first(), b.drop_first())
    }
}

/// The item's label equals the typed prefix up to ASCII case.
pub open spec fn exact_match(p: Option<Seq<char>>, x: CompletionItemView) -> bool {
    match p {
        Some(p) => eq_ignore_ascii_case_spec(x.label, p),
        None => false,
    }
}

/// `x` may stay before `y`: exact matches first, then by label.
pub open spec fn ranks_before_or_ties(p: Option<Seq<char>>, x: CompletionItemView, y: CompletionItemView) -> bool {
    (exact_match(p, x) && !exact_match(p, y)) || (exact_match(p, x) == exact_match(p, y) && !text_lt(
        y.label,
        x.label,
    ))
}

/// `x` placed into `s` after the last element that may stay before it.
pub open spec fn insert_ranked(p: Option<Seq<char>>, s: Seq<CompletionItemView>, x: CompletionItemView) -> Seq<
    CompletionItemView,
>
    decreases s.len(),
{
    if s.len() == 0 {
        seq![x]
    } else if ranks_before_or_ties(p, s.last(), x) {
        s.push(x)
    } else {
        insert_ranked(p, s.drop_last(), x).push(s.last())
    }
}

/// The stable sort of `s`: exact matches first, then by label, equal keys in their first order.
pub open spec fn sort_ranked(p: Option<Seq<char>>, s: Seq<CompletionItemView>) -> Seq<CompletionItemView>
    decreases s.len(),
{
    if s.len() == 0 {
        s
    } else {
        insert_ranked(p, sort_ranked(p, s.drop_last()), s.last())
    }
}

/// `s` with each run of equal labels reduced to its first item.
pub open spec fn dedup_labels(s: Seq<CompletionItemView>) -> Seq<CompletionItemView>
    decreases s.len(),
{
    if s.len() <= 1 {
        s
    } else if s.last().label == s[s.len() - 2].label {
        dedup_labels(s.drop_last())
    } else {
        dedup_labels(s.drop_last()).push(s.last())
    }
}

/// The completions offered from candidates `s`: sorted, without repeated
/// labels, at most fifty.
pub open spec fn ranked(p: Option<Seq<char>>, s: Seq<CompletionItemView>) -> Seq<CompletionItemView> {
    let d = dedup_labels(sort_ranked(p, s));
    if d.len() > 50 {
        d.take(50)
    } else {
        d
    }
}

fn text_less(a: &[char], b: &[char]) -> (r: bool)
    ensures
        r == text_lt(a@, b@),
{
    let mut i: usize = 0;
    assert(a@.subrange(0, a@.len() as int) =~= a@);
    assert(b@.subrange(0, b@.len() as int) =~= b@);
    while i < a.len() && i < b.len() && a[i] == b[i]
        invariant
            i <= a@.len(),
            i <= b@.len(),
            text_lt(a@, b@) == text_lt(a@.subrange(i as int, a@.len() as int), b@.subrange(i as int, b@.len() as int)),
        decreases a@.len() - i,
    {
        assert(a@.subrange(i as int, a@.len() as int).drop_first() =~= a@.subrange(i + 1, a@.len() as int));
        assert(b@.subrange(i as int, b@.len() as int).drop_first() =~= b@.subrange(i + 1, b@.len() as int));
        i = i + 1;
    }
    if i == a.len() {
        i < b.len()
    } else if i == b.len() {
        false
    } else {
        a[i] < b[i]
    }
}

fn is_exact(p: &Option<Vec<char>>, x: &CompletionItem) -> (r: bool)
    ensures
        r == exact_match(
            match p {
                Some(v) => Some(v@),
                None => None,
            },
            x@,
        ),
{
    match p {
        Some(v) => {
            let l = chars_of(x.label.as_str());
            eq_ignore_ascii_case(l.as_slice(), v.as_slice())
        },
        None => false,
    }
}

fn may_precede(p: &Option<Vec<char>>, x: &CompletionItem, y: &CompletionItem) -> (r: bool)
    ensures
        r == ranks_before_or_ties(
            match p {
                Some(v) => Some(v@),
                None => None,
            },
            x@,
            y@,
        ),
{
    let ex = is_exact(p, x);
    let ey = is_exact(p, y);
    if ex != ey {
        ex
    } else {
        let lx = chars_of(x.label.as_str());
        let ly = chars_of(y.label.as_str());
        !text_less(ly.as_slice(), lx.as_slice())
    }
}

/// Inserting at the place found by scanning from the end.
pub proof fn lemma_insert_ranked_at(p: Option<Seq<char>>, s: Seq<CompletionItemView>, x: CompletionItemView, j: int)
    requires
        0 <= j <= s.len(),
        forall|t: int| j <= t < s.len() ==> !ranks_before_or_ties(p, #[trigger] s[t], x),
        j > 0 ==> ranks_before_or_ties(p, s[j - 1], x),
    ensures
        insert_ranked(p, s, x) == s.take(j).push(x) + s.skip(j),
    decreases s.len(),
{
    if s.len() == 0 {
        assert(s.take(j).push(x) + s.skip(j) =~= seq![x]);
    } else if j == s.len() {
        assert(s.take(j).push(x) + s.skip(j) =~= s.push(x));
    } else {
        assert(!ranks_before_or_ties(p, s[s.len() - 1], x));
        let d = s.drop_last();
        assert forall|t: int| j <= t < d.len() implies !ranks_before_or_ties(p, #[trigger] d[t], x) by {
            assert(d[t] == s[t]);
        }
        if j > 0 {
            assert(d[j - 1] == s[j - 1]);
        }
        lemma_insert_ranked_at(p, d, x, j);
        assert(s.take(j).push(x) + s.skip(j) =~= (d.take(j).push(x) + d.skip(j)).push(s.last()));
    }
}

/// The completions offered from `items` for the typed `prefix`: exact
/// matches first, then by label; one item per label; at most fifty.
pub fn rank_completions(items: &Vec<CompletionItem>, prefix: Option<&str>) -> (r: Vec<CompletionItem>)
    ensures
        item_views(r@) == ranked(
            match prefix {
                Some(q) => Some(q@),
                None => None,
            },
            item_views(items@),
        ),
{
    let pv: Option<Vec<char>> = match prefix {
        Some(q) => Some(chars_of(q)),
        None => None,
    };
    let ghost p: Option<Seq<char>> = match prefix {
        Some(q) => Some(q@),
        None => None,
    };
    assert(p == match pv {
        Some(v) => Some(v@),
        None => None::<Seq<char>>,
    });
    let ghost iv = item_views(items@);
    let mut sorted: Vec<CompletionItem> = Vec::new();
    let mut i: usize = 0;
    assert(iv.take(0) =~= Seq::<CompletionItemView>::empty());
    assert(item_views(sorted@) =~= Seq::<CompletionItemView>::empty());
    while i < items.len()
        invariant
            i <= items@.len(),
            iv == item_views(items@),
            p == match pv {
                Some(v) => Some(v@),
                None => None::<Seq<char>>,
            },
            item_views(sorted@) == sort_ranked(p, iv.take(i as int)),
        decreases items@.len() - i,
    {
        assert(iv.take(i + 1).drop_last() =~= iv.take(i as int));
        let x = &items[i];
        let mut j: usize = sorted.len();
        while j > 0 && !may_precede(&pv, &sorted[j - 1], x)
            invariant
                j <= sorted@.len(),
                p == match pv {
                    Some(v) => Some(v@),
                    None => None::<Seq<char>>,
                },
                forall|t: int| j <= t < sorted@.len() ==> !ranks_before_or_ties(p, #[trigger] item_views(sorted@)[t], x@),
            decreases j,
        {
            j = j - 1;
        }
        let ghost before = item_views(sorted@);
        proof {
            lemma_insert_ranked_at(p, before, x@, j as int);
        }
        sorted.insert(j, x.duplicate());
        assert(item_views(sorted@) =~= before.take(j as int).push(x@) + before.skip(j as int));
        assert(iv.take(i + 1).last() == x@);
        i = i + 1;
    }
    assert(iv.take(items@.len() as int) =~= iv);
    let ghost sv = item_views(sorted@);
    let mut out: Vec<CompletionItem> = Vec::new();
    let mut k: usize = 0;
    assert(item_views(out@) =~= dedup_labels(sv.take(0)));
    while k < sorted.len()
        invariant
            k <= sorted@.len(),
            sv == item_views(sorted@),
            item_views(out@) == dedup_labels(sv.take(k as int)),
            k > 0 ==> out@.len() > 0 && out@.last()@.label == sv[k - 1].label,
        decreases sorted@.len() - k,
    {
        let ghost before = item_views(out@);
        assert(sv.take(k + 1).drop_last() =~= sv.take(k as int));
        let x = &sorted[k];
        let keep = if out.len() == 0 {
            true
        } else {
            let a = chars_of(out[out.len() - 1].label.as_str());
            let b = chars_of(x.label.as_str());
            !chars_eq(a.as_slice(), b.as_slice())
        };
        if keep {
            out.push(x.duplicate());
            assert(item_views(out@) =~= before.push(x@));
        }
        proof {
            if k == 0 {
                assert(sv.take(1) =~= seq![x@]);
                assert(item_views(out@) =~= seq![x@]);
            } else {
                assert(sv.take(k + 1)[k - 1] == sv[k - 1]);
                assert(sv.take(k + 1).last() == x@);
            }
        }
        k = k + 1;
    }
    assert(sv.take(sorted@.len() as int) =~= sv);
    let ghost d = item_views(out@);
    if out.len() > 50 {
        out.truncate(50);
        assert(item_views(out@) =~= d.take(50));
    }
    out
}

} // verus!

verus! {

/// The completion offered for an indexed symbol.
pub open spec fn symbol_completion(s: SymbolView) -> CompletionItemView {
    CompletionItemView {
        label: s.name,
        kind: spec_completion_item_kind(s.kind),
        detail: match s.detail {
            Some(d) => Some(d),
            None => match s.neodos_kind {
                Some(k) => Some("["@ + neodos_kind_label(k) + "]"@),
                None => None,
            },
        },
        documentation: s.documentation,
        insert_text: Some(s.name),
        plain_text: true,
    }
}

/// The completion offered for syscall number `n`.
pub open spec fn syscall_completion(n: u64, it: NeodosItemView) -> CompletionItemView {
    CompletionItemView {
        label: "sys_"@ + it.name,
        kind: CompletionItemKind::FUNCTION,
        detail: Some("syscall #"@ + decimal(n as nat) + " — "@ + it.detail),
        documentation: None,
        insert_text: Some("sys_"@ + it.name),
        plain_text: false,
    }
}

/// The completion offered for a shell command.
pub open spec fn command_completion(name: Seq<char>, it: NeodosItemView) -> CompletionItemView {
    CompletionItemView {
        label: name,
        kind: CompletionItemKind::FUNCTION,
        detail: Some(it.detail),
        documentation: None,
        insert_text: Some(name),
        plain_text: false,
    }
}

/// The completion offered for an indexed symbol.
pub fn sym_to_completion(sym: &Symbol) -> (r: CompletionItem)
    ensures
        r@ == symbol_completion(sym@),
{
    let detail = match &sym.detail {
        Some(d) => Some(d.clone()),
        None => match sym.neodos_kind {
            Some(k) => {
                let mut t = String::from_str("[");
                t.append(k.label());
                t.append("]");
                Some(t)
            },
            None => None,
        },
    };
    CompletionItem {
        label: sym.name.clone(),
        kind: sym.completion_item_kind(),
        detail,
        documentation: clone_opt_string(&sym.documentation),
        insert_text: Some(sym.name.clone()),
        plain_text: true,
    }
}

fn syscall_item(n: u64, it: &NeodosItem) -> (r: CompletionItem)
    ensures
        r@ == syscall_completion(n, it@),
{
    let mut label = String::from_str("sys_");
    label.append(it.name.as_str());
    let mut detail = String::from_str("syscall #");
    let num = u64_to_string(n);
    detail.append(num.as_str());
    detail.append(" — ");
    detail.append(it.detail.as_str());
    CompletionItem {
        label: label.clone(),
        kind: CompletionItemKind::FUNCTION,
        detail: Some(detail),
        documentation: None,
        insert_text: Some(label),
        plain_text: false,
    }
}

fn command_item(name: &String, it: &NeodosItem) -> (r: CompletionItem)
    ensures
        r@ == command_completion(name@, it@),
{
    CompletionItem {
        label: name.clone(),
        kind: CompletionItemKind::FUNCTION,
        detail: Some(it.detail.clone()),
        documentation: None,
        insert_text: Some(name.clone()),
        plain_text: false,
    }
}

/// `s` is what a prefix search of the database for `q` returns, for some
/// order in which the name index is walked.
pub open spec fn prefix_search_result(db: DbView, q: Seq<char>, s: Seq<SymbolView>) -> bool {
    exists|keys: Seq<Seq<char>>| enumerates(keys, db.name_index) && s == prefix_symbols(db, keys, lowercase(q))
}

/// Syscalls are offered for a word starting with `sys_`.
pub open spec fn wants_syscalls(p: Option<Seq<char>>) -> bool {
    p matches Some(q) && has_prefix(q, "sys_"@)
}

/// Shell commands are offered for a word of at most three bytes.
pub open spec fn wants_commands(p: Option<Seq<char>>) -> bool {
    p matches Some(q) && utf8_len(q) <= 3
}

/// Capability constants are offered for a word starting with `CAP_`.
pub open spec fn wants_capabilities(p: Option<Seq<char>>) -> bool {
    p matches Some(q) && has_prefix(q, "CAP_"@)
}

/// The four sources of completions for the word `p`, each empty when it
/// does not apply: symbols whose name starts with the word, syscalls and
/// shell commands (each table walked in its own order), capability constants.
pub open spec fn completion_sources(
    db: DbView,
    p: Option<Seq<char>>,
    named: Seq<SymbolView>,
    sys: Seq<u64>,
    cmds: Seq<Seq<char>>,
    caps: Seq<SymbolView>,
) -> bool {
    &&& match p {
        Some(q) => prefix_search_result(db, q, named),
        None => named.len() == 0,
    }
    &&& if wants_syscalls(p) {
        enumerates(sys, db.syscalls)
    } else {
        sys.len() == 0
    }
    &&& if wants_commands(p) {
        enumerates(cmds, db.shell_commands)
    } else {
        cmds.len() == 0
    }
    &&& if wants_capabilities(p) {
        prefix_search_result(db, "CAP_"@, caps)
    } else {
        caps.len() == 0
    }
}

/// The candidates gathered from the sources, in this order.
pub open spec fn completion_candidates(
    db: DbView,
    named: Seq<SymbolView>,
    sys: Seq<u64>,
    cmds: Seq<Seq<char>>,
    caps: Seq<SymbolView>,
) -> Seq<CompletionItemView> {
    named.map_values(|s: SymbolView| symbol_completion(s)) + sys.map_values(
        |n: u64| syscall_completion(n, db.syscalls[n]),
    ) + cmds.map_values(|k: Seq<char>| command_completion(k, db.shell_commands[k])) + caps.map_values(
        |s: SymbolView| symbol_completion(s),
    )
}

/// The word under the cursor of a document whose source may be unknown.
pub open spec fn word_in(content: Option<Seq<char>>, pos: Position) -> Option<Seq<char>> {
    match content {
        Some(c) => word_at(c, pos),
        None => None,
    }
}

pub open spec fn opt_view(o: Option<&str>) -> Option<Seq<char>> {
    match o {
        Some(s) => Some(s@),
        None => None,
    }
}

/// The cursor can be placed in the document, when its source is known.
pub open spec fn cursor_ok(content: Option<&str>, pos: Position) -> bool {
    content matches Some(c) ==> cursor_on_boundary(c@, pos)
}

/// Request handlers over the database and the cache of open documents.
pub struct LspHandlers {
    pub db: Database,
    pub cache: DocumentCache,
}

fn push_symbol_completions(items: &mut Vec<CompletionItem>, syms: &Vec<Symbol>)
    ensures
        item_views(final(items)@) == item_views(old(items)@) + views_of(syms@).map_values(
            |s: SymbolView| symbol_completion(s),
        ),
{
    let ghost start = item_views(items@);
    let mut i: usize = 0;
    while i < syms.len()
        invariant
            i <= syms@.len(),
            item_views(items@) == start + views_of(syms@).take(i as int).map_values(
                |s: SymbolView| symbol_completion(s),
            ),
        decreases syms@.len() - i,
    {
        let ghost before = item_views(items@);
        items.push(sym_to_completion(&syms[i]));
        assert(views_of(syms@).take(i + 1) =~= views_of(syms@).take(i as int).push(syms@[i as int]@));
        assert(item_views(items@) =~= before.push(symbol_completion(syms@[i as int]@)));
        i = i + 1;
    }
    assert(views_of(syms@).take(syms@.len() as int) =~= views_of(syms@));
}

impl LspHandlers {
    /// Handlers over `db` with an empty cache sized by the configuration.
    pub fn new(db: Database, config: &NeodosConfig) -> (r: LspHandlers)
        ensures
            r.db@ == db@,
            r.cache.entries().len() == 0,
            r.cache.cap() == if config.cache.documents < 2 {
                2
            } else {
                config.cache.documents
            },
    {
        LspHandlers { db, cache: DocumentCache::new(config.cache.documents) }
    }

    /// Completions for the word under the cursor in a document with source
    /// `content` (`None` when it can be read neither from the cache nor from disk).
    pub fn completion(&self, content: Option<&str>, pos: Position) -> (r: Option<Vec<CompletionItem>>)
        requires
            cursor_ok(content, pos),
        ensures
            r matches Some(v) && exists|
                named: Seq<SymbolView>,
                sys: Seq<u64>,
                cmds: Seq<Seq<char>>,
                caps: Seq<SymbolView>,
            |
                completion_sources(self.db@, word_in(opt_view(content), pos), named, sys, cmds, caps)
                    && item_views(v@) == ranked(
                    word_in(opt_view(content), pos),
                    completion_candidates(self.db@, named, sys, cmds, caps),
                ),
    {
        let word = match content {
            Some(c) => word_at_position(c, pos),
            None => None,
        };
        let ghost p: Option<Seq<char>> = word_in(opt_view(content), pos);
        assert(p == match word {
            Some(w) => Some(w@),
            None => None::<Seq<char>>,
        });
        let ghost db = self.db@;
        let mut items: Vec<CompletionItem> = Vec::new();
        let ghost mut named: Seq<SymbolView> = seq![];
        let ghost mut sys: Seq<u64> = seq![];
        let ghost mut cmds: Seq<Seq<char>> = seq![];
        let ghost mut caps: Seq<SymbolView> = seq![];
        if let Some(w) = &word {
            let found = self.db.find_by_prefix(w.as_str());
            push_symbol_completions(&mut items, &found);
            proof {
                named = views_of(found@);
            }
        }
        assert(item_views(items@) =~= named.map_values(|s: SymbolView| symbol_completion(s)));
        let wc: Vec<char> = match &word {
            Some(w) => chars_of(w.as_str()),
            None => Vec::new(),
        };
        let sys_prefix = chars_of("sys_");
        proof {
            reveal_strlit("sys_");
        }
        if word.is_some() && crate::text::starts_with(wc.as_slice(), sys_prefix.as_slice()) {
            let entries = crate::database::numbered_items_entries(&self.db.syscalls);
            let ghost before = item_views(items@);
            let mut i: usize = 0;
            while i < entries.len()
                invariant
                    i <= entries@.len(),
                    forall|q: int|
                        0 <= q < entries@.len() ==> #[trigger] db.syscalls.contains_key(entries@[q].0)
                            && db.syscalls[entries@[q].0] == entries@[q].1@,
                    item_views(items@) == before + entries@.take(i as int).map_values(
                        |e: (u64, NeodosItem)| syscall_completion(e.0, db.syscalls[e.0]),
                    ),
                decreases entries@.len() - i,
            {
                let ghost b0 = item_views(items@);
                assert(db.syscalls.contains_key(entries@[i as int].0));
                items.push(syscall_item(entries[i].0, &entries[i].1));
                assert(entries@.take(i + 1) =~= entries@.take(i as int).push(entries@[i as int]));
                assert(item_views(items@) =~= b0.push(syscall_completion(entries@[i as int].0, db.syscalls[entries@[i as int].0])));
                i = i + 1;
            }
            proof {
                sys = entries@.map_values(|e: (u64, NeodosItem)| e.0);
                assert(entries@.take(entries@.len() as int) =~= entries@);
                assert(sys.map_values(|n: u64| syscall_completion(n, db.syscalls[n])) =~= entries@.map_values(
                    |e: (u64, NeodosItem)| syscall_completion(e.0, db.syscalls[e.0]),
                ));
                assert(enumerates(sys, db.syscalls)) by {
                    assert forall|k: u64| #[trigger] db.syscalls.contains_key(k) implies exists|q: int|
                        0 <= q < sys.len() && sys[q] == k by {
                        let q = choose|q: int| 0 <= q < entries@.len() && entries@[q].0 == k;
                        assert(sys[q] == k);
                    }
                    assert forall|q: int| 0 <= q < sys.len() implies #[trigger] db.syscalls.contains_key(sys[q]) by {
                        assert(sys[q] == entries@[q].0);
                    }
                }
            }
        }
        assert(item_views(items@) =~= named.map_values(|s: SymbolView| symbol_completion(s)) + sys.map_values(
            |n: u64| syscall_completion(n, db.syscalls[n]),
        ));
        let small = match &word {
            Some(w) => crate::text::utf8_len_of(wc.as_slice(), 0, wc.len()) <= 3,
            None => false,
        };
        proof {
            assert(wc@.subrange(0, wc@.len() as int) =~= wc@);
        }
        if small {
            let entries = crate::database::named_items_entries(&self.db.shell_commands);
            let ghost before = item_views(items@);
            let mut i: usize = 0;
            while i < entries.len()
                invariant
                    i <= entries@.len(),
                    forall|q: int|
                        0 <= q < entries@.len() ==> #[trigger] db.shell_commands.contains_key(entries@[q].0@)
                            && db.shell_commands[entries@[q].0@] == entries@[q].1@,
                    item_views(items@) == before + entries@.take(i as int).map_values(
                        |e: (String, NeodosItem)| command_completion(e.0@, db.shell_commands[e.0@]),
                    ),
                decreases entries@.len() - i,
            {
                let ghost b0 = item_views(items@);
                assert(db.shell_commands.contains_key(entries@[i as int].0@));
                items.push(command_item(&entries[i].0, &entries[i].1));
                assert(entries@.take(i + 1) =~= entries@.take(i as int).push(entries@[i as int]));
                assert(item_views(items@) =~= b0.push(
                    command_completion(entries@[i as int].0@, db.shell_commands[entries@[i as int].0@]),
                ));
                i = i + 1;
            }
            proof {
                cmds = entries@.map_values(|e: (String, NeodosItem)| e.0@);
                assert(entries@.take(entries@.len() as int) =~= entries@);
                assert(cmds.map_values(|k: Seq<char>| command_completion(k, db.shell_commands[k])) =~= entries@.map_values(
                    |e: (String, NeodosItem)| command_completion(e.0@, db.shell_commands[e.0@]),
                ));
                assert(enumerates(cmds, db.shell_commands)) by {
                    assert forall|k: Seq<char>| #[trigger] db.shell_commands.contains_key(k) implies exists|q: int|
                        0 <= q < cmds.len() && cmds[q] == k by {
                        let q = choose|q: int| 0 <= q < entries@.len() && entries@[q].0@ == k;
                        assert(cmds[q] == k);
                    }
                    assert forall|q: int| 0 <= q < cmds.len() implies #[trigger] db.shell_commands.contains_key(cmds[q]) by {
                        assert(cmds[q] == entries@[q].0@);
                    }
                    assert forall|q: int, t: int| 0 <= q < t < cmds.len() implies cmds[q] != cmds[t] by {
                        assert(cmds[q] == entries@[q].0@);
                        assert(cmds[t] == entries@[t].0@);
                    }
                }
            }
        }
        let cap_prefix = chars_of("CAP_");
        proof {
            reveal_strlit("CAP_");
        }
        if word.is_some() && crate::text::starts_with(wc.as_slice(), cap_prefix.as_slice()) {
            let found = self.db.find_by_prefix("CAP_");
            push_symbol_completions(&mut items, &found);
            proof {
                caps = views_of(found@);
            }
        }
        assert(item_views(items@) =~= completion_candidates(db, named, sys, cmds, caps));
        let ranked_items = match &word {
            Some(w) => rank_completions(&items, Some(w.as_str())),
            None => rank_completions(&items, None),
        };
        assert(completion_sources(db, p, named, sys, cmds, caps));
        Some(ranked_items)
    }
}

} // verus!

verus! {

/// A place in a file.
#[derive(Debug, Clone)]
pub struct Location {
    pub file: String,
    pub range: Range,
}

pub struct LocationView {
    pub file: Seq<char>,
    pub range: Range,
}

impl View for Location {
    type V = LocationView;

    open spec fn view(&self) -> LocationView {
        LocationView { file: self.file@, range: self.range }
    }
}

pub open spec fn location_views(v: Seq<Location>) -> Seq<LocationView> {
    v.map_values(|l: Location| l@)
}

/// Where a symbol's name stands.
pub open spec fn name_location(s: SymbolView) -> LocationView {
    LocationView { file: s.file, range: s.selection_range }
}

/// Where a symbol's whole text stands.
pub open spec fn full_location(s: SymbolView) -> LocationView {
    LocationView { file: s.file, range: s.range }
}

/// The definitions of a word: the symbols of its (lower-cased) name.
pub open spec fn definitions(db: DbView, w: Seq<char>) -> Seq<SymbolView> {
    ids_to_symbols(db.symbols, list_or_empty(db.name_index, lowercase(w)))
}

/// The targets of go-to-definition for word `w`: its definitions; when it
/// has none and is at least two bytes long, the first five symbols `pref`
/// that a prefix search found.
pub open spec fn definition_targets(db: DbView, w: Seq<char>, pref: Seq<SymbolView>) -> Seq<LocationView> {
    let defs = definitions(db, w);
    if defs.len() > 0 {
        defs.map_values(|s: SymbolView| name_location(s))
    } else if utf8_len(w) >= 2 {
        (if pref.len() > 5 {
            pref.take(5)
        } else {
            pref
        }).map_values(|s: SymbolView| name_location(s))
    } else {
        seq![]
    }
}

/// The views of an optional list of locations.
pub open spec fn opt_locations(r: Option<Vec<Location>>) -> Option<Seq<LocationView>> {
    match r {
        Some(v) => Some(location_views(v@)),
        None => None,
    }
}

/// `r` answers go-to-definition for `w`: the targets, or nothing when there are none.
pub open spec fn definition_answer(db: DbView, w: Seq<char>, pref: Seq<SymbolView>, r: Option<Seq<LocationView>>) -> bool {
    let t = definition_targets(db, w, pref);
    match r {
        Some(v) => t.len() > 0 && v == t,
        None => t.len() == 0,
    }
}

/// `r` answers go-to-definition for the word under the cursor: nothing
/// without a word; else the targets for some order in which the prefix
/// search walks the name index.
pub open spec fn goto_answer(db: DbView, word: Option<Seq<char>>, r: Option<Seq<LocationView>>) -> bool {
    match word {
        None => r is None,
        Some(w) => exists|keys: Seq<Seq<char>>|
            #![trigger prefix_symbols(db, keys, lowercase(w))]
            (searches_prefix(db, w) ==> enumerates(keys, db.name_index)) && definition_answer(
                db,
                w,
                prefix_symbols(db, keys, lowercase(w)),
                r,
            ),
    }
}

/// The prefix search is made: the word has no definition and is at least two bytes long.
pub open spec fn searches_prefix(db: DbView, w: Seq<char>) -> bool {
    definitions(db, w).len() == 0 && utf8_len(w) >= 2
}

/// Go-to-definition on a word that has definitions answers with one
/// location per symbol that `find_by_name` gives for the word, in the same
/// order: the symbol's file and the range of its name.
pub proof fn lemma_goto_lists_every_definition(db: DbView, w: Seq<char>, r: Option<Seq<LocationView>>)
    requires
        goto_answer(db, Some(w), r),
        ids_to_symbols(db.symbols, list_or_empty(db.name_index, lowercase(w))).len() > 0,
    ensures
        ({
            let found = ids_to_symbols(db.symbols, list_or_empty(db.name_index, lowercase(w)));
            &&& r is Some
            &&& r->0.len() == found.len()
            &&& forall|i: int|
                0 <= i < found.len() ==> (#[trigger] r->0[i]).file == found[i].file && r->0[i].range
                    == found[i].selection_range
        }),
{
    let keys = choose|keys: Seq<Seq<char>>|
        #![trigger prefix_symbols(db, keys, lowercase(w))]
        (searches_prefix(db, w) ==> enumerates(keys, db.name_index)) && definition_answer(
            db,
            w,
            prefix_symbols(db, keys, lowercase(w)),
            r,
        );
    let t = definition_targets(db, w, prefix_symbols(db, keys, lowercase(w)));
    assert(t.len() > 0);
}

/// The locations of the stored symbols among `ids`.
pub open spec fn reference_locations(db: DbView, ids: Seq<SymbolId>) -> Seq<LocationView> {
    ids_to_symbols(db.symbols, ids).map_values(|s: SymbolView| full_location(s))
}

/// The references of the first definition of `w`, then the definition's
/// own name when `include_declaration` holds; none without a definition.
pub open spec fn references_of_word(db: DbView, w: Seq<char>, include_declaration: bool) -> Seq<LocationView> {
    let defs = definitions(db, w);
    if defs.len() == 0 {
        seq![]
    } else {
        let refs = reference_locations(db, list_or_empty(db.references, defs[0].id.0));
        if include_declaration {
            refs.push(name_location(defs[0]))
        } else {
            refs
        }
    }
}

fn push_locations(out: &mut Vec<Location>, syms: &Vec<Symbol>, n: usize, name_range: bool)
    requires
        n <= syms@.len(),
    ensures
        location_views(final(out)@) == location_views(old(out)@) + views_of(syms@).take(n as int).map_values(
            |s: SymbolView| if name_range {
                name_location(s)
            } else {
                full_location(s)
            },
        ),
{
    let ghost start = location_views(out@);
    let mut i: usize = 0;
    while i < n
        invariant
            i <= n <= syms@.len(),
            location_views(out@) == start + views_of(syms@).take(i as int).map_values(
                |s: SymbolView| if name_range {
                    name_location(s)
                } else {
                    full_location(s)
                },
            ),
        decreases n - i,
    {
        let ghost before = location_views(out@);
        let s = &syms[i];
        let range = if name_range {
            s.selection_range
        } else {
            s.range
        };
        out.push(Location { file: s.file.clone(), range });
        assert(views_of(syms@).take(i + 1) =~= views_of(syms@).take(i as int).push(syms@[i as int]@));
        assert(location_views(out@) =~= before.push(
            if name_range {
                name_location(syms@[i as int]@)
            } else {
                full_location(syms@[i as int]@)
            },
        ));
        i = i + 1;
    }
}

impl LspHandlers {
    /// Where the word under the cursor is defined.
    pub fn goto_definition(&self, content: Option<&str>, pos: Position) -> (r: Option<Vec<Location>>)
        requires
            cursor_ok(content, pos),
        ensures
            goto_answer(self.db@, word_in(opt_view(content), pos), opt_locations(r)),
    {
        let word = match content {
            Some(c) => word_at_position(c, pos),
            None => None,
        };
        let w = match word {
            Some(w) => w,
            None => return None,
        };
        let ghost db = self.db@;
        let defs = self.db.find_by_name(w.as_str());
        let mut results: Vec<Location> = Vec::new();
        push_locations(&mut results, &defs, defs.len(), true);
        assert(views_of(defs@).take(defs@.len() as int) =~= views_of(defs@));
        assert(location_views(results@) =~= definitions(db, w@).map_values(|s: SymbolView| name_location(s)));
        let ghost mut pref: Seq<SymbolView> = prefix_symbols(db, seq![], lowercase(w@));
        let ghost mut keys: Seq<Seq<char>> = seq![];
        let wc = chars_of(w.as_str());
        let wlen = utf8_len_of(wc.as_slice(), 0, wc.len());
        assert(wc@.subrange(0, wc@.len() as int) =~= wc@);
        if results.len() == 0 && wlen >= 2 {
            let found = self.db.find_by_prefix(w.as_str());
            let n = if found.len() > 5 {
                5
            } else {
                found.len()
            };
            let ghost before = location_views(results@);
            push_locations(&mut results, &found, n, true);
            proof {
                keys = choose|keys: Seq<Seq<char>>|
                    enumerates(keys, db.name_index) && views_of(found@) == prefix_symbols(db, keys, lowercase(w@));
                pref = views_of(found@);
                assert(before =~= Seq::<LocationView>::empty());
                assert(views_of(found@).take(n as int) =~= (if pref.len() > 5 {
                    pref.take(5)
                } else {
                    pref
                }));
            }
        }
        let ghost t = definition_targets(db, w@, pref);
        proof {
            if definitions(db, w@).len() > 0 {
                assert(location_views(results@) == t);
            } else if utf8_len(w@) >= 2 {
                assert(location_views(results@) == t);
            } else {
                assert(location_views(results@) =~= t);
            }
            assert(word_in(opt_view(content), pos) == Some(w@));
            assert(location_views(results@) == t);
        }
        let r = if results.len() == 0 {
            None
        } else {
            Some(results)
        };
        assert(pref == prefix_symbols(db, keys, lowercase(w@)));
        assert(definition_answer(self.db@, w@, prefix_symbols(db, keys, lowercase(w@)), opt_locations(r)));
        assert(searches_prefix(self.db@, w@) ==> enumerates(keys, db.name_index));
        assert(word_in(opt_view(content), pos) == Some(w@));
        let ghost ww = word_in(opt_view(content), pos)->0;
        assert(ww == w@);
        assert(prefix_symbols(db, keys, lowercase(ww)) == pref);
        r
    }

    /// The references of the symbol named by the word under the cursor.
    pub fn find_references(&self, content: Option<&str>, pos: Position, include_declaration: bool) -> (r: Option<
        Vec<Location>,
    >)
        requires
            cursor_ok(content, pos),
        ensures
            match word_in(opt_view(content), pos) {
                None => r is None,
                Some(w) => r matches Some(v) && location_views(v@) == references_of_word(
                    self.db@,
                    w,
                    include_declaration,
                ),
            },
    {
        let word = match content {
            Some(c) => word_at_position(c, pos),
            None => None,
        };
        let w = match word {
            Some(w) => w,
            None => return None,
        };
        let defs = self.db.find_by_name(w.as_str());
        if defs.len() == 0 {
            let v: Vec<Location> = Vec::new();
            assert(location_views(v@) =~= Seq::<LocationView>::empty());
            return Some(v);
        }
        let target = defs[0].id;
        let ids = self.db.references_for(&target);
        let mut locations: Vec<Location> = Vec::new();
        let ghost db = self.db@;
        let mut i: usize = 0;
        while i < ids.len()
            invariant
                i <= ids@.len(),
                db == self.db@,
                location_views(locations@) == reference_locations(db, ids@.take(i as int)),
            decreases ids@.len() - i,
        {
            let ghost before = location_views(locations@);
            assert(ids@.take(i + 1).drop_last() =~= ids@.take(i as int));
            if let Some(s) = self.db.lookup(&ids[i]) {
                locations.push(Location { file: s.file.clone(), range: s.range });
                assert(ids_to_symbols(db.symbols, ids@.take(i + 1)) =~= ids_to_symbols(db.symbols, ids@.take(i as int)).push(s@));
                assert(location_views(locations@) =~= before.push(full_location(s@)));
            }
            i = i + 1;
        }
        assert(ids@.take(ids@.len() as int) =~= ids@);
        if include_declaration {
            let ghost before = location_views(locations@);
            locations.push(Location { file: defs[0].file.clone(), range: defs[0].selection_range });
            assert(location_views(locations@) =~= before.push(name_location(defs@[0]@)));
        }
        Some(locations)
    }
}

} // verus!

verus! {

/// What `Path::file_name` gives for a path: the final component, empty
/// when there is none.
pub uninterp spec fn path_file_name(p: Seq<char>) -> Seq<char>;

/// `Path::file_name`, lossily converted and empty when absent. Its
/// documentation gives the final component; when the text after the last
/// `/` is a plain name (not empty, `.` or `..`, and without `\\` or `:`,
/// which some platforms read as separators or prefixes), that text is the
/// result.
#[verifier::external_body]
fn file_name_of(path: &str) -> (r: String)
    ensures
        r@ == path_file_name(path@),
        ({
            let last = after_last(path@, seq!['/']);
            last.len() > 0 && last != seq!['.'] && last != seq!['.', '.'] && !last.contains('\\')
                && !last.contains(':') ==> r@ == last
        }),
{
    std::path::Path::new(path).file_name().map(|n| n.to_string_lossy().into_owned()).unwrap_or_default()
}

/// One paragraph of a hover: code in a named language, or markdown text.
#[derive(Debug, Clone)]
pub enum MarkedText {
    Code { language: String, value: String },
    Text(String),
}

pub enum MarkedTextView {
    Code { language: Seq<char>, value: Seq<char> },
    Text(Seq<char>),
}

impl View for MarkedText {
    type V = MarkedTextView;

    open spec fn view(&self) -> MarkedTextView {
        match self {
            MarkedText::Code { language, value } => MarkedTextView::Code { language: language@, value: value@ },
            MarkedText::Text(t) => MarkedTextView::Text(t@),
        }
    }
}

/// The answer to a hover request.
pub struct Hover {
    pub contents: Vec<MarkedText>,
    pub range: Range,
}

pub open spec fn marked_views(v: Seq<MarkedText>) -> Seq<MarkedTextView> {
    v.map_values(|m: MarkedText| m@)
}

/// Text appended when `o` holds a value.
pub open spec fn opt_line(o: Option<Seq<char>>) -> Seq<MarkedTextView> {
    match o {
        Some(t) => seq![MarkedTextView::Text(t)],
        None => seq![],
    }
}

/// The first hover paragraph: the signature, else kind and name.
pub open spec fn hover_head(s: SymbolView) -> MarkedTextView {
    match s.signature {
        Some(sig) => MarkedTextView::Code { language: "rust"@, value: sig },
        None => MarkedTextView::Text("**"@ + kind_label(s.kind) + "** `"@ + s.name + "`"@),
    }
}

/// The NeoDOS paragraphs: kind, syscall number, capability mask in hexadecimal.
pub open spec fn hover_neodos(s: SymbolView) -> Seq<MarkedTextView> {
    match s.neodos_kind {
        Some(k) => seq![MarkedTextView::Text("**NeoDOS "@ + neodos_kind_label(k) + "**"@)] + opt_line(
            match s.syscall_number {
                Some(n) => Some("Syscall #"@ + decimal(n as nat)),
                None => None,
            },
        ) + opt_line(
            match s.capabilities {
                Some(c) => Some("Capabilities: 0x"@ + hex(c as nat)),
                None => None,
            },
        ),
        None => seq![],
    }
}

/// The visibility paragraph.
pub open spec fn hover_visibility(s: SymbolView) -> Seq<MarkedTextView> {
    opt_line(
        match s.visibility {
            Some(v) => Some("**Visibility:** "@ + v),
            None => None,
        },
    )
}

/// The last paragraph: `file:line:column`, counted from one.
pub open spec fn hover_place(s: SymbolView) -> MarkedTextView {
    MarkedTextView::Text(
        path_file_name(s.file) + ":"@ + decimal(s.range.start.line as nat + 1) + ":"@ + decimal(
            s.range.start.character as nat + 1,
        ),
    )
}

/// The hover paragraphs for a symbol: its signature (or kind and name);
/// for a NeoDOS symbol its kind, syscall number and capability mask; its
/// visibility; its documentation; and where it stands.
pub open spec fn hover_contents(s: SymbolView) -> Seq<MarkedTextView> {
    seq![hover_head(s)] + hover_neodos(s) + hover_visibility(s) + opt_line(s.documentation) + seq![hover_place(s)]
}

fn head_paragraph(sym: &Symbol) -> (r: MarkedText)
    ensures
        r@ == hover_head(sym@),
{
    match &sym.signature {
        Some(sig) => MarkedText::Code { language: String::from_str("rust"), value: sig.clone() },
        None => {
            let mut t = String::from_str("**");
            t.append(symbol_kind_label(sym.kind));
            t.append("** `");
            t.append(sym.name.as_str());
            t.append("`");
            MarkedText::Text(t)
        },
    }
}

fn neodos_paragraphs(sym: &Symbol) -> (r: Vec<MarkedText>)
    ensures
        marked_views(r@) == hover_neodos(sym@),
{
    let mut v: Vec<MarkedText> = Vec::new();
    if let Some(k) = sym.neodos_kind {
        let mut t = String::from_str("**NeoDOS ");
        t.append(k.label());
        t.append("**");
        v.push(MarkedText::Text(t));
        let ghost v1 = marked_views(v@);
        if let Some(n) = sym.syscall_number {
            let mut t2 = String::from_str("Syscall #");
            let d = u64_to_string(n);
            t2.append(d.as_str());
            v.push(MarkedText::Text(t2));
        }
        let ghost sn = opt_line(
            match sym@.syscall_number {
                Some(n) => Some("Syscall #"@ + decimal(n as nat)),
                None => None,
            },
        );
        assert(marked_views(v@) =~= v1 + sn);
        let ghost v2 = marked_views(v@);
        if let Some(c) = sym.capabilities {
            let hx = hex_chars(c);
            let mut t3 = String::from_str("Capabilities: 0x");
            let hs = string_from_chars(hx.as_slice());
            t3.append(hs.as_str());
            v.push(MarkedText::Text(t3));
        }
        let ghost cp = opt_line(
            match sym@.capabilities {
                Some(c) => Some("Capabilities: 0x"@ + hex(c as nat)),
                None => None,
            },
        );
        assert(marked_views(v@) =~= v2 + cp);
    } else {
        assert(marked_views(v@) =~= Seq::<MarkedTextView>::empty());
    }
    v
}

fn place_paragraph(sym: &Symbol) -> (r: MarkedText)
    ensures
        r@ == hover_place(sym@),
{
    let fname = file_name_of(sym.file.as_str());
    let line = decimal_plus_one(sym.range.start.line);
    let col = decimal_plus_one(sym.range.start.character);
    let mut place = fname;
    place.append(":");
    place.append(line.as_str());
    place.append(":");
    place.append(col.as_str());
    MarkedText::Text(place)
}

fn decimal_plus_one(n: u32) -> (r: String)
    ensures
        r@ == decimal(n as nat + 1),
{
    u64_to_string(n as u64 + 1)
}

impl LspHandlers {
    /// The description of the innermost symbol of file `path` at `pos`.
    pub fn hover(&self, path: &str, pos: Position) -> (r: Option<Hover>)
        ensures
            match innermost(at_position(ids_to_symbols(self.db@.symbols, list_or_empty(self.db@.file_symbols, path@)), pos)) {
                None => r is None,
                Some(s) => r matches Some(h) && marked_views(h.contents@) == hover_contents(s) && h.range == s.range,
            },
    {
        let sym = match self.db.find_innermost_at_position(path, pos) {
            Some(s) => s,
            None => return None,
        };
        let ghost s = sym@;
        let mut contents: Vec<MarkedText> = Vec::new();
        contents.push(head_paragraph(&sym));
        let mut nd = neodos_paragraphs(&sym);
        let ghost v1 = marked_views(contents@);
        let ghost ndv = marked_views(nd@);
        contents.append(&mut nd);
        assert(marked_views(contents@) =~= v1 + ndv);
        let ghost v2 = marked_views(contents@);
        if let Some(v) = &sym.visibility {
            let mut t = String::from_str("**Visibility:** ");
            t.append(v.as_str());
            contents.push(MarkedText::Text(t));
        }
        assert(marked_views(contents@) =~= v2 + hover_visibility(s));
        let ghost v3 = marked_views(contents@);
        if let Some(d) = &sym.documentation {
            contents.push(MarkedText::Text(d.clone()));
        }
        assert(marked_views(contents@) =~= v3 + opt_line(s.documentation));
        let ghost v4 = marked_views(contents@);
        contents.push(place_paragraph(&sym));
        assert(marked_views(contents@) =~= v4.push(hover_place(s)));
        assert(marked_views(contents@) =~= hover_contents(s));
        Some(Hover { contents, range: sym.range })
    }
}

} // verus!

verus! {

/// Replacement of the text in a range.
#[derive(Debug, Clone)]
pub struct TextEdit {
    pub range: Range,
    pub new_text: String,
}

/// The edits of a rename, grouped by file in the order the files first occur.
pub type FileEdits = Vec<(String, Vec<TextEdit>)>;

pub open spec fn edit_views(v: Seq<TextEdit>) -> Seq<(Range, Seq<char>)> {
    v.map_values(|e: TextEdit| (e.range, e.new_text@))
}

pub open spec fn file_edit_views(v: Seq<(String, Vec<TextEdit>)>) -> Seq<(Seq<char>, Seq<(Range, Seq<char>)>)> {
    v.map_values(|g: (String, Vec<TextEdit>)| (g.0@, edit_views(g.1@)))
}

/// The position of the group of file `f`, searching from the last group.
pub open spec fn group_of<E>(g: Seq<(Seq<char>, Seq<E>)>, f: Seq<char>) -> Option<int>
    decreases g.len(),
{
    if g.len() == 0 {
        None
    } else if g.last().0 == f {
        Some(g.len() - 1)
    } else {
        group_of(g.drop_last(), f)
    }
}

/// `e` added to the group of `f`, a new group being opened after the others.
pub open spec fn add_to_group<E>(g: Seq<(Seq<char>, Seq<E>)>, f: Seq<char>, e: E) -> Seq<(Seq<char>, Seq<E>)> {
    match group_of(g, f) {
        Some(k) => g.update(k, (f, g[k].1.push(e))),
        None => g.push((f, seq![e])),
    }
}

/// The edits `es` grouped by file, each group keeping the edits' order.
pub open spec fn group_by_file<E>(es: Seq<(Seq<char>, E)>) -> Seq<(Seq<char>, Seq<E>)>
    decreases es.len(),
{
    if es.len() == 0 {
        seq![]
    } else {
        add_to_group(group_by_file(es.drop_last()), es.last().0, es.last().1)
    }
}

/// Where a rename of `s` to `new_name` writes: its own name, then the names
/// of the stored symbols it refers to.
pub open spec fn rename_edits(db: DbView, s: SymbolView, new_name: Seq<char>) -> Seq<(Seq<char>, (Range, Seq<char>))> {
    seq![(s.file, (s.selection_range, new_name))] + ids_to_symbols(db.symbols, list_or_empty(db.references, s.id.0)).map_values(
        |t: SymbolView| (t.file, (t.selection_range, new_name)),
    )
}

pub proof fn lemma_group_of_bound<E>(g: Seq<(Seq<char>, Seq<E>)>, f: Seq<char>)
    ensures
        group_of(g, f) matches Some(k) ==> 0 <= k < g.len() && g[k].0 == f,
    decreases g.len(),
{
    if g.len() > 0 {
        lemma_group_of_bound(g.drop_last(), f);
    }
}

/// The stored symbols of a prefix of the ids are a prefix of those of all the ids.
pub proof fn lemma_ids_to_symbols_prefix(syms: Map<u64, SymbolView>, ids: Seq<SymbolId>, j: int)
    requires
        0 <= j <= ids.len(),
    ensures
        ids_to_symbols(syms, ids.take(j)).len() <= ids_to_symbols(syms, ids).len(),
        ids_to_symbols(syms, ids.take(j)) == ids_to_symbols(syms, ids).take(
            ids_to_symbols(syms, ids.take(j)).len() as int,
        ),
    decreases ids.len(),
{
    let whole = ids_to_symbols(syms, ids);
    if j == ids.len() {
        assert(ids.take(j) =~= ids);
        assert(whole.take(whole.len() as int) =~= whole);
    } else {
        lemma_ids_to_symbols_prefix(syms, ids.drop_last(), j);
        assert(ids.drop_last().take(j) =~= ids.take(j));
        let part = ids_to_symbols(syms, ids.take(j));
        assert(whole.take(part.len() as int) =~= ids_to_symbols(syms, ids.drop_last()).take(part.len() as int));
    }
}

fn find_group(groups: &Vec<(String, Vec<TextEdit>)>, file: &str) -> (r: Option<usize>)
    ensures
        match r {
            Some(k) => group_of(file_edit_views(groups@), file@) == Some(k as int),
            None => group_of(file_edit_views(groups@), file@) is None,
        },
{
    let fc = chars_of(file);
    let ghost g = file_edit_views(groups@);
    let mut k = groups.len();
    assert(g.take(k as int) =~= g);
    while k > 0
        invariant
            k <= groups@.len(),
            g == file_edit_views(groups@),
            fc@ == file@,
            group_of(g, file@) == group_of(g.take(k as int), file@),
        decreases k,
    {
        assert(g.take(k as int).drop_last() =~= g.take(k - 1));
        let here = chars_of(groups[k - 1].0.as_str());
        if chars_eq(here.as_slice(), fc.as_slice()) {
            return Some(k - 1);
        }
        k = k - 1;
    }
    None
}

fn add_edit(groups: &mut Vec<(String, Vec<TextEdit>)>, file: &String, range: Range, new_name: &str)
    ensures
        file_edit_views(final(groups)@) == add_to_group(file_edit_views(old(groups)@), file@, (range, new_name@)),
{
    let ghost g = file_edit_views(groups@);
    let e = TextEdit { range, new_text: String::from_str(new_name) };
    match find_group(groups, file.as_str()) {
        None => {
            let mut es: Vec<TextEdit> = Vec::new();
            es.push(e);
            assert(edit_views(es@) =~= seq![(range, new_name@)]);
            groups.push((file.clone(), es));
            assert(file_edit_views(groups@) =~= g.push((file@, seq![(range, new_name@)])));
        },
        Some(k) => {
            proof {
                lemma_group_of_bound(g, file@);
            }
            let (f0, mut es) = groups.remove(k);
            let ghost before = edit_views(es@);
            assert(before == g[k as int].1);
            es.push(e);
            assert(edit_views(es@) =~= before.push((range, new_name@)));
            groups.insert(k, (f0, es));
            assert(file_edit_views(groups@) =~= g.update(k as int, (file@, g[k as int].1.push((range, new_name@)))));
        },
    }
}

impl LspHandlers {
    /// The edits renaming the innermost symbol of `path` at `pos`, and the
    /// symbols it refers to, to `new_name`.
    pub fn rename(&self, path: &str, pos: Position, new_name: &str) -> (r: Option<FileEdits>)
        ensures
            match innermost(at_position(ids_to_symbols(self.db@.symbols, list_or_empty(self.db@.file_symbols, path@)), pos)) {
                None => r is None,
                Some(s) => r matches Some(v) && file_edit_views(v@) == group_by_file(rename_edits(self.db@, s, new_name@)),
            },
    {
        let sym = match self.db.find_innermost_at_position(path, pos) {
            Some(s) => s,
            None => return None,
        };
        let ghost db = self.db@;
        let ghost es = rename_edits(db, sym@, new_name@);
        let ids = self.db.references_for(&sym.id);
        let ghost refs = ids_to_symbols(db.symbols, ids@);
        let mut groups: Vec<(String, Vec<TextEdit>)> = Vec::new();
        assert(file_edit_views(groups@) =~= group_by_file(es.take(0)));
        add_edit(&mut groups, &sym.file, sym.selection_range, new_name);
        assert(es.take(1).drop_last() =~= es.take(0));
        let mut i: usize = 0;
        let ghost mut n: int = 1;
        assert(ids@.take(0) =~= Seq::<SymbolId>::empty());
        while i < ids.len()
            invariant
                i <= ids@.len(),
                db == self.db@,
                es == rename_edits(db, sym@, new_name@),
                refs == ids_to_symbols(db.symbols, ids@),
                ids@ == list_or_empty(db.references, sym@.id.0),
                n == 1 + ids_to_symbols(db.symbols, ids@.take(i as int)).len(),
                ids_to_symbols(db.symbols, ids@.take(i as int)) == refs.take(n - 1),
                n - 1 <= refs.len(),
                file_edit_views(groups@) == group_by_file(es.take(n)),
            decreases ids@.len() - i,
        {
            assert(ids@.take(i + 1).drop_last() =~= ids@.take(i as int));
            proof {
                lemma_ids_to_symbols_prefix(db.symbols, ids@, i + 1);
            }
            if let Some(t) = self.db.lookup(&ids[i]) {
                add_edit(&mut groups, &t.file, t.selection_range, new_name);
                proof {
                    assert(ids_to_symbols(db.symbols, ids@.take(i + 1)) == ids_to_symbols(
                        db.symbols,
                        ids@.take(i as int),
                    ).push(t@));
                    assert(ids_to_symbols(db.symbols, ids@.take(i + 1)).len() == n);
                    assert(refs.take(n) == ids_to_symbols(db.symbols, ids@.take(i + 1)));
                    assert(refs.take(n)[n - 1] == t@);
                    assert(refs[n - 1] == t@);
                    assert(es.len() == 1 + refs.len());
                    assert(es[n] == refs.map_values(
                        |u: SymbolView| (u.file, (u.selection_range, new_name@)),
                    )[n - 1]);
                    assert(es[n] == (t@.file, (t@.selection_range, new_name@)));
                    assert(es.take(n + 1).drop_last() =~= es.take(n));
                    n = n + 1;
                }
            }
            i = i + 1;
        }
        assert(ids@.take(ids@.len() as int) =~= ids@);
        assert(es.take(n) =~= es);
        Some(groups)
    }
}

} // verus!

verus! {

/// An entry of a document's outline, without its children: the outline is
/// given as a list in pre-order, each entry with its nesting depth.
#[derive(Debug, Clone)]
pub struct DocumentSymbol {
    pub name: String,
    pub detail: Option<String>,
    pub kind: SymbolKind,
    pub deprecated: bool,
    pub range: Range,
    pub selection_range: Range,
}

pub struct DocumentSymbolView {
    pub name: Seq<char>,
    pub detail: Option<Seq<char>>,
    pub kind: SymbolKind,
    pub deprecated: bool,
    pub range: Range,
    pub selection_range: Range,
}

impl View for DocumentSymbol {
    type V = DocumentSymbolView;

    open spec fn view(&self) -> DocumentSymbolView {
        DocumentSymbolView {
            name: self.name@,
            detail: opt_text(self.detail),
            kind: self.kind,
            deprecated: self.deprecated,
            range: self.range,
            selection_range: self.selection_range,
        }
    }
}

pub open spec fn outline_views(v: Seq<(usize, DocumentSymbol)>) -> Seq<(nat, DocumentSymbolView)> {
    v.map_values(|e: (usize, DocumentSymbol)| (e.0 as nat, e.1@))
}

/// How a symbol appears in the outline; without a detail, a NeoDOS symbol
/// shows its NeoDOS kind.
pub open spec fn outline_symbol(s: SymbolView) -> DocumentSymbolView {
    DocumentSymbolView {
        name: s.name,
        detail: match s.detail {
            Some(d) => Some(d),
            None => match s.neodos_kind {
                Some(k) => Some(neodos_kind_label(k)),
                None => None,
            },
        },
        kind: s.kind,
        deprecated: s.is_deprecated,
        range: s.range,
        selection_range: s.selection_range,
    }
}

/// The outline below and including `s` at `depth`, descending at most
/// `fuel` levels: `s`, then each symbol of `all` whose parent is `s`, in the
/// order of `all`, with its own outline.
pub open spec fn outline_of(all: Seq<SymbolView>, s: SymbolView, depth: nat, fuel: nat) -> Seq<(nat, DocumentSymbolView)>
    decreases fuel, 0nat, 0int,
{
    seq![(depth, outline_symbol(s))] + if fuel == 0 {
        seq![]
    } else {
        outline_children(all, s.id, depth + 1, (fuel - 1) as nat, all.len() as int)
    }
}

/// The outlines of the children of `parent` among the first `n` symbols.
pub open spec fn outline_children(
    all: Seq<SymbolView>,
    parent: SymbolId,
    depth: nat,
    fuel: nat,
    n: int,
) -> Seq<(nat, DocumentSymbolView)>
    decreases fuel, 1nat, n,
{
    if n <= 0 || n > all.len() {
        seq![]
    } else {
        outline_children(all, parent, depth, fuel, n - 1) + if all[n - 1].parent == Some(parent) {
            outline_of(all, all[n - 1], depth, fuel)
        } else {
            seq![]
        }
    }
}

/// The outlines of the top-level symbols among the first `n` symbols.
pub open spec fn outline_roots(all: Seq<SymbolView>, n: int) -> Seq<(nat, DocumentSymbolView)>
    decreases n,
{
    if n <= 0 || n > all.len() {
        seq![]
    } else {
        outline_roots(all, n - 1) + if all[n - 1].parent is None {
            outline_of(all, all[n - 1], 0, all.len())
        } else {
            seq![]
        }
    }
}

/// The outline of a document's symbols. Nesting follows the parent links;
/// it is cut below the depth of the number of symbols, which a file whose
/// parent links form no cycle never reaches.
pub open spec fn document_outline(all: Seq<SymbolView>) -> Seq<(nat, DocumentSymbolView)> {
    outline_roots(all, all.len() as int)
}

fn outline_entry(sym: &Symbol) -> (r: DocumentSymbol)
    ensures
        r@ == outline_symbol(sym@),
{
    let detail = match &sym.detail {
        Some(d) => Some(d.clone()),
        None => match sym.neodos_kind {
            Some(k) => Some(String::from_str(k.label())),
            None => None,
        },
    };
    DocumentSymbol {
        name: sym.name.clone(),
        detail,
        kind: sym.kind,
        deprecated: sym.is_deprecated,
        range: sym.range,
        selection_range: sym.selection_range,
    }
}

fn emit_outline(all: &Vec<Symbol>, idx: usize, depth: usize, fuel: usize, out: &mut Vec<(usize, DocumentSymbol)>)
    requires
        idx < all@.len(),
        depth + fuel <= all@.len(),
    ensures
        outline_views(final(out)@) == outline_views(old(out)@) + outline_of(
            views_of(all@),
            all@[idx as int]@,
            depth as nat,
            fuel as nat,
        ),
    decreases fuel, 0nat, 0int,
{
    let ghost start = outline_views(out@);
    out.push((depth, outline_entry(&all[idx])));
    assert(outline_views(out@) =~= start + seq![(depth as nat, outline_symbol(all@[idx as int]@))]);
    let n = all.len();
    if fuel > 0 {
        assert(depth + 1 <= n);
        emit_children(all, all[idx].id, depth + 1, fuel - 1, out);
        assert(views_of(all@).len() == all@.len());
        assert(outline_views(out@) =~= start + outline_of(views_of(all@), all@[idx as int]@, depth as nat, fuel as nat));
    } else {
        assert(outline_views(out@) =~= start + outline_of(views_of(all@), all@[idx as int]@, depth as nat, fuel as nat));
    }
}

fn emit_children(all: &Vec<Symbol>, parent: SymbolId, depth: usize, fuel: usize, out: &mut Vec<(usize, DocumentSymbol)>)
    requires
        depth + fuel <= all@.len(),
    ensures
        outline_views(final(out)@) == outline_views(old(out)@) + outline_children(
            views_of(all@),
            parent,
            depth as nat,
            fuel as nat,
            all@.len() as int,
        ),
    decreases fuel, 1nat, 0int,
{
    let ghost start = outline_views(out@);
    let ghost av = views_of(all@);
    let mut i: usize = 0;
    assert(outline_views(out@) =~= start + outline_children(av, parent, depth as nat, fuel as nat, 0));
    while i < all.len()
        invariant
            i <= all@.len(),
            av == views_of(all@),
            depth + fuel <= all@.len(),
            outline_views(out@) == start + outline_children(av, parent, depth as nat, fuel as nat, i as int),
        decreases all@.len() - i,
    {
        let ghost before = outline_views(out@);
        if all[i].parent == Some(parent) {
            emit_outline(all, i, depth, fuel, out);
        }
        assert(av[i as int] == all@[i as int]@);
        assert(outline_views(out@) =~= start + outline_children(av, parent, depth as nat, fuel as nat, i + 1));
        i = i + 1;
    }
}

impl LspHandlers {
    /// The outline of file `path`.
    pub fn document_symbols(&self, path: &str) -> (r: Vec<(usize, DocumentSymbol)>)
        ensures
            outline_views(r@) == document_outline(
                ids_to_symbols(self.db@.symbols, list_or_empty(self.db@.file_symbols, path@)),
            ),
    {
        let all = self.db.document_symbols(path);
        let ghost av = views_of(all@);
        let mut out: Vec<(usize, DocumentSymbol)> = Vec::new();
        let mut i: usize = 0;
        assert(outline_views(out@) =~= outline_roots(av, 0));
        while i < all.len()
            invariant
                i <= all@.len(),
                av == views_of(all@),
                outline_views(out@) == outline_roots(av, i as int),
            decreases all@.len() - i,
        {
            let ghost before = outline_views(out@);
            if all[i].parent.is_none() {
                emit_outline(&all, i, 0, all.len(), &mut out);
            }
            assert(av[i as int] == all@[i as int]@);
            assert(outline_views(out@) =~= outline_roots(av, i + 1));
            i = i + 1;
        }
        out
    }
}

} // verus!

verus! {

/// How serious a diagnostic is.
#[derive(Debug, Clone, Copy, PartialEq, Eq, Structural)]
pub enum DiagnosticSeverity {
    ERROR,
    WARNING,
    INFORMATION,
    HINT,
}

/// A problem found in a document.
#[derive(Debug, Clone)]
pub struct Diagnostic {
    pub range: Range,
    pub severity: DiagnosticSeverity,
    pub message: String,
    pub source: String,
}

pub struct DiagnosticView {
    pub range: Range,
    pub severity: DiagnosticSeverity,
    pub message: Seq<char>,
    pub source: Seq<char>,
}

impl View for Diagnostic {
    type V = DiagnosticView;

    open spec fn view(&self) -> DiagnosticView {
        DiagnosticView { range: self.range, severity: self.severity, message: self.message@, source: self.source@ }
    }
}

pub open spec fn diagnostic_views(v: Seq<Diagnostic>) -> Seq<DiagnosticView> {
    v.map_values(|d: Diagnostic| d@)
}

/// `n` in decimal, with a minus sign when negative.
pub open spec fn signed_decimal(n: int) -> Seq<char> {
    if n < 0 {
        "-"@ + decimal((-n) as nat)
    } else {
        decimal(n as nat)
    }
}

/// The index of the last line of `c` (zero without lines), as a 32-bit line number.
pub open spec fn last_line_of(c: Seq<char>) -> u32 {
    (if lines(c).len() == 0 {
        0
    } else {
        lines(c).len() - 1
    }) as u32
}

/// The error for `n` unclosed brackets of the kind `what`, at the start of the last line.
pub open spec fn unbalanced(c: Seq<char>, what: Seq<char>, n: int) -> DiagnosticView {
    let p = Position { line: last_line_of(c), character: 0 };
    DiagnosticView {
        range: Range { start: p, end: p },
        severity: DiagnosticSeverity::ERROR,
        message: "unbalanced "@ + what + ": "@ + signed_decimal(n) + " unclosed"@,
        source: "neodos-lsp"@,
    }
}

/// The diagnostics of a document: unbalanced braces, then unbalanced
/// parentheses, each counted as openings minus closings over the whole
/// text; none when the source is unknown.
pub open spec fn diagnostics_of(content: Option<Seq<char>>) -> Seq<DiagnosticView> {
    match content {
        None => seq![],
        Some(c) => {
            let braces = count_char(c, '{') - count_char(c, '}');
            let parens = count_char(c, '(') - count_char(c, ')');
            (if braces != 0 {
                seq![unbalanced(c, "braces"@, braces)]
            } else {
                seq![]
            }) + (if parens != 0 {
                seq![unbalanced(c, "parentheses"@, parens)]
            } else {
                seq![]
            })
        },
    }
}

/// A known source gets one error per kind of bracket whose openings and
/// closings differ in number, in either direction, and no other
/// diagnostic: for braces and for parentheses, the message names the kind
/// and the openings minus the closings. An unknown source gets none.
pub proof fn lemma_diagnostics_report_imbalance(c: Seq<char>)
    ensures
        diagnostics_of(None).len() == 0,
        ({
            let ds = diagnostics_of(Some(c));
            let ob = count_char(c, '{');
            let cb = count_char(c, '}');
            let op = count_char(c, '(');
            let cp = count_char(c, ')');
            &&& ds.len() == (if ob != cb {
                1int
            } else {
                0int
            }) + (if op != cp {
                1int
            } else {
                0int
            })
            &&& ob != cb ==> exists|k: int|
                0 <= k < ds.len() && (#[trigger] ds[k]).severity == DiagnosticSeverity::ERROR && ds[k].message
                    == "unbalanced braces: "@ + signed_decimal(ob - cb) + " unclosed"@
            &&& op != cp ==> exists|k: int|
                0 <= k < ds.len() && (#[trigger] ds[k]).severity == DiagnosticSeverity::ERROR && ds[k].message
                    == "unbalanced parentheses: "@ + signed_decimal(op - cp) + " unclosed"@
        }),
{
    let ds = diagnostics_of(Some(c));
    let ob = count_char(c, '{');
    let cb = count_char(c, '}');
    let op = count_char(c, '(');
    let cp = count_char(c, ')');
    reveal_strlit("unbalanced ");
    reveal_strlit(": ");
    reveal_strlit("braces");
    reveal_strlit("parentheses");
    reveal_strlit("unbalanced braces: ");
    reveal_strlit("unbalanced parentheses: ");
    assert("unbalanced "@ + "braces"@ + ": "@ =~= "unbalanced braces: "@);
    assert("unbalanced "@ + "parentheses"@ + ": "@ =~= "unbalanced parentheses: "@);
    if ob != cb {
        assert(ds[0] == unbalanced(c, "braces"@, ob - cb));
        assert(ds[0].message =~= "unbalanced braces: "@ + signed_decimal(ob - cb) + " unclosed"@);
    }
    if op != cp {
        let k = if ob != cb {
            1int
        } else {
            0int
        };
        assert(ds[k] == unbalanced(c, "parentheses"@, op - cp));
        assert(ds[k].message =~= "unbalanced parentheses: "@ + signed_decimal(op - cp) + " unclosed"@);
    }
}

fn unbalanced_diagnostic(last: u32, what: &str, opens: usize, closes: usize) -> (r: Diagnostic)
    ensures
        r@ == ({
            let p = Position { line: last, character: 0 };
            DiagnosticView {
                range: Range { start: p, end: p },
                severity: DiagnosticSeverity::ERROR,
                message: "unbalanced "@ + what@ + ": "@ + signed_decimal(opens - closes) + " unclosed"@,
                source: "neodos-lsp"@,
            }
        }),
{
    let mut m = String::from_str("unbalanced ");
    m.append(what);
    m.append(": ");
    if opens >= closes {
        let d = u64_to_string((opens - closes) as u64);
        m.append(d.as_str());
    } else {
        m.append("-");
        let d = u64_to_string((closes - opens) as u64);
        m.append(d.as_str());
    }
    m.append(" unclosed");
    assert(m@ =~= "unbalanced "@ + what@ + ": "@ + signed_decimal(opens - closes) + " unclosed"@);
    let p = Position { line: last, character: 0 };
    Diagnostic {
        range: Range { start: p, end: p },
        severity: DiagnosticSeverity::ERROR,
        message: m,
        source: String::from_str("neodos-lsp"),
    }
}

/// The index that `FileIndex` gets from a scan of `text` for `path`, ids starting at `first_id`.
pub open spec fn scanned_index(path: Seq<char>, text: Seq<char>, first_id: int) -> FileIndexView {
    let fin = scan(lines(text), path, first_id, lines(text).len() as int);
    FileIndexView { file: path, symbols: fin.symbols, references: seq![], neodos_items: fin.items }
}

/// The id counter after a scan of `text`.
pub open spec fn next_id_after(path: Seq<char>, text: Seq<char>, first_id: int) -> int {
    scan(lines(text), path, first_id, lines(text).len() as int).next_id
}

impl LspHandlers {
    /// The diagnostics of a document whose source is `content` (`None` when
    /// it can be read neither from the cache nor from disk).
    pub fn diagnostics(&self, content: Option<&str>) -> (r: Vec<Diagnostic>)
        ensures
            diagnostic_views(r@) == diagnostics_of(opt_view(content)),
    {
        let mut diags: Vec<Diagnostic> = Vec::new();
        let c = match content {
            Some(c) => c,
            None => {
                assert(diagnostic_views(diags@) =~= Seq::<DiagnosticView>::empty());
                return diags;
            },
        };
        let cs = chars_of(c);
        let ob = count_chars(cs.as_slice(), '{');
        let cb = count_chars(cs.as_slice(), '}');
        let op = count_chars(cs.as_slice(), '(');
        let cp = count_chars(cs.as_slice(), ')');
        let ls = crate::text::lines_of(cs.as_slice());
        let n = ls.len();
        let last_index: usize = if n == 0 {
            0
        } else {
            n - 1
        };
        let last = last_index as u32;
        assert(last == last_line_of(c@));
        if ob != cb {
            diags.push(unbalanced_diagnostic(last, "braces", ob, cb));
        }
        let ghost d1 = diagnostic_views(diags@);
        if op != cp {
            diags.push(unbalanced_diagnostic(last, "parentheses", op, cp));
        }
        assert(diagnostic_views(diags@) =~= diagnostics_of(opt_view(content)));
        diags
    }

    fn index_document(&mut self, path: String, version: i64, text: String, next_id: &mut u64)
        requires
            *old(next_id) + lines(text@).len() <= u64::MAX,
        ensures
            final(self).cache.cap() == old(self).cache.cap(),
            final(self).cache.entries() == cache_insert(old(self).cache.entries(), old(self).cache.cap(), path@, text@),
            final(self).db@ == spec_replace_file_index(old(self).db@, scanned_index(path@, text@, *old(next_id) as int)),
            *final(next_id) == next_id_after(path@, text@, *old(next_id) as int),
    {
        let parsed = Indexer::parse_file(path.as_str(), text.as_str(), next_id);
        let copy = ParsedFile {
            symbols: clone_symbols(&parsed.symbols),
            references: clone_references(&parsed.references),
            neodos_items: clone_items(&parsed.neodos_items),
        };
        let index = FileIndex {
            file: path.clone(),
            symbols: parsed.symbols,
            references: parsed.references,
            neodos_items: parsed.neodos_items,
        };
        assert(index@.references =~= Seq::<crate::database::Reference>::empty());
        assert(index@ == scanned_index(path@, text@, *old(next_id) as int));
        self.cache.insert(path, text, version, copy);
        self.db.replace_file_index(index);
    }

    /// A document was opened with source `text`: it is cached and indexed.
    /// Its symbols take their ids from `next_id` upwards.
    pub fn on_did_open(&mut self, path: String, version: i64, text: String, next_id: &mut u64)
        requires
            *old(next_id) + lines(text@).len() <= u64::MAX,
        ensures
            final(self).cache.cap() == old(self).cache.cap(),
            final(self).cache.entries() == cache_insert(old(self).cache.entries(), old(self).cache.cap(), path@, text@),
            final(self).db@ == spec_replace_file_index(old(self).db@, scanned_index(path@, text@, *old(next_id) as int)),
            *final(next_id) == next_id_after(path@, text@, *old(next_id) as int),
    {
        self.index_document(path, version, text, next_id);
    }

    /// A document changed; its full new text is the last of `changes`. The
    /// document is cached and indexed again; without changes nothing happens.
    pub fn on_did_change(&mut self, path: String, version: i64, changes: Vec<String>, next_id: &mut u64)
        requires
            changes@.len() > 0 ==> *old(next_id) + lines(changes@.last()@).len() <= u64::MAX,
        ensures
            final(self).cache.cap() == old(self).cache.cap(),
            changes@.len() == 0 ==> final(self).cache.entries() == old(self).cache.entries() && final(self).db@
                == old(self).db@ && *final(next_id) == *old(next_id),
            changes@.len() > 0 ==> final(self).cache.entries() == cache_insert(
                old(self).cache.entries(),
                old(self).cache.cap(),
                path@,
                changes@.last()@,
            ) && final(self).db@ == spec_replace_file_index(
                old(self).db@,
                scanned_index(path@, changes@.last()@, *old(next_id) as int),
            ) && *final(next_id) == next_id_after(path@, changes@.last()@, *old(next_id) as int),
    {
        let mut changes = changes;
        match changes.pop() {
            Some(text) => self.index_document(path, version, text, next_id),
            None => {},
        }
    }

    /// A document was closed: it leaves the cache.
    pub fn on_did_close(&mut self, path: &str)
        ensures
            final(self).cache.cap() == old(self).cache.cap(),
            final(self).cache.entries() == without_path(old(self).cache.entries(), path@),
            final(self).db@ == old(self).db@,
    {
        self.cache.remove(path);
    }
}

} // verus!

verus! {

/// The last item kept from a run has the label of the run's last item.
pub proof fn lemma_dedup_last(s: Seq<CompletionItemView>)
    requires
        s.len() > 0,
    ensures
        dedup_labels(s).len() > 0,
        dedup_labels(s).last().label == s.last().label,
    decreases s.len(),
{
    if s.len() > 1 {
        lemma_dedup_last(s.drop_last());
    }
}

/// Neighbouring items of a deduplicated list have different labels.
pub proof fn lemma_dedup_neighbours(s: Seq<CompletionItemView>)
    ensures
        forall|i: int| 0 < i < dedup_labels(s).len() ==> #[trigger] dedup_labels(s)[i].label != dedup_labels(s)[i - 1].label,
    decreases s.len(),
{
    if s.len() > 1 {
        lemma_dedup_neighbours(s.drop_last());
        lemma_dedup_last(s.drop_last());
        let d = dedup_labels(s.drop_last());
        if s.last().label != s[s.len() - 2].label {
            assert(s.drop_last().last() == s[s.len() - 2]);
            assert forall|i: int| 0 < i < d.push(s.last()).len() implies #[trigger] d.push(s.last())[i].label != d.push(
                s.last(),
            )[i - 1].label by {
                if i < d.len() {
                    assert(d.push(s.last())[i] == d[i]);
                    assert(d.push(s.last())[i - 1] == d[i - 1]);
                }
            }
        }
    }
}

/// The completions offered are at most fifty, and no two neighbours share a label.
pub proof fn lemma_ranked_shape(p: Option<Seq<char>>, s: Seq<CompletionItemView>)
    ensures
        ranked(p, s).len() <= 50,
        forall|i: int| 0 < i < ranked(p, s).len() ==> #[trigger] ranked(p, s)[i].label != ranked(p, s)[i - 1].label,
{
    let d = dedup_labels(sort_ranked(p, s));
    lemma_dedup_neighbours(sort_ranked(p, s));
    if d.len() > 50 {
        assert forall|i: int| 0 < i < d.take(50).len() implies #[trigger] d.take(50)[i].label != d.take(50)[i - 1].label by {
            assert(d.take(50)[i] == d[i]);
            assert(d.take(50)[i - 1] == d[i - 1]);
        }
    }
}

} // verus!

verus! {

/// Each item may stay before every later one.
pub open spec fn ranked_in_order(p: Option<Seq<char>>, s: Seq<CompletionItemView>) -> bool {
    forall|i: int, j: int| 0 <= i < j < s.len() ==> ranks_before_or_ties(p, #[trigger] s[i], #[trigger] s[j])
}

/// No text comes before itself.
pub proof fn lemma_text_lt_irreflexive(a: Seq<char>)
    ensures
        !text_lt(a, a),
    decreases a.len(),
{
    if a.len() > 0 {
        lemma_text_lt_irreflexive(a.drop_first());
    }
}

/// Of two texts, at most one comes first, and one does unless they are equal.
pub proof fn lemma_text_lt_total(a: Seq<char>, b: Seq<char>)
    ensures
        !(text_lt(a, b) && text_lt(b, a)),
        a != b ==> text_lt(a, b) || text_lt(b, a),
    decreases a.len(),
{
    if a.len() > 0 && b.len() > 0 && a[0] == b[0] {
        lemma_text_lt_total(a.drop_first(), b.drop_first());
        if a != b {
            assert(a.drop_first() != b.drop_first()) by {
                if a.drop_first() == b.drop_first() {
                    assert(a =~= seq![a[0]] + a.drop_first());
                    assert(b =~= seq![b[0]] + b.drop_first());
                }
            }
        }
    } else if a.len() == 0 && b.len() == 0 {
        assert(a =~= b);
    }
}

/// The order of texts is transitive.
pub proof fn lemma_text_lt_transitive(a: Seq<char>, b: Seq<char>, c: Seq<char>)
    requires
        text_lt(a, b),
        text_lt(b, c),
    ensures
        text_lt(a, c),
    decreases a.len(),
{
    if a.len() > 0 && b.len() > 0 && c.len() > 0 && a[0] == b[0] && b[0] == c[0] {
        lemma_text_lt_transitive(a.drop_first(), b.drop_first(), c.drop_first());
    }
}

/// Of two items, one may stay before the other.
pub proof fn lemma_ranks_total(p: Option<Seq<char>>, x: CompletionItemView, y: CompletionItemView)
    ensures
        ranks_before_or_ties(p, x, y) || ranks_before_or_ties(p, y, x),
{
    lemma_text_lt_total(x.label, y.label);
}

/// Staying before is transitive.
pub proof fn lemma_ranks_transitive(
    p: Option<Seq<char>>,
    x: CompletionItemView,
    y: CompletionItemView,
    z: CompletionItemView,
)
    requires
        ranks_before_or_ties(p, x, y),
        ranks_before_or_ties(p, y, z),
    ensures
        ranks_before_or_ties(p, x, z),
{
    if exact_match(p, x) == exact_match(p, y) && exact_match(p, y) == exact_match(p, z) {
        if text_lt(z.label, x.label) {
            lemma_text_lt_total(x.label, y.label);
            lemma_text_lt_total(y.label, z.label);
            if x.label != y.label && y.label != z.label {
                lemma_text_lt_transitive(x.label, y.label, z.label);
                lemma_text_lt_total(x.label, z.label);
            } else if x.label == y.label {
                lemma_text_lt_total(y.label, z.label);
            } else {
                lemma_text_lt_total(x.label, y.label);
            }
        }
    }
}

/// The items after inserting `x` are `x` and those of `s`.
pub proof fn lemma_insert_ranked_items(p: Option<Seq<char>>, s: Seq<CompletionItemView>, x: CompletionItemView)
    ensures
        insert_ranked(p, s, x).len() == s.len() + 1,
        forall|k: int|
            0 <= k < insert_ranked(p, s, x).len() ==> #[trigger] insert_ranked(p, s, x)[k] == x || s.contains(
                insert_ranked(p, s, x)[k],
            ),
    decreases s.len(),
{
    if s.len() > 0 && !ranks_before_or_ties(p, s.last(), x) {
        lemma_insert_ranked_items(p, s.drop_last(), x);
        let r = insert_ranked(p, s, x);
        let inner = insert_ranked(p, s.drop_last(), x);
        assert forall|k: int| 0 <= k < r.len() implies #[trigger] r[k] == x || s.contains(r[k]) by {
            if k < inner.len() {
                assert(r[k] == inner[k]);
                if inner[k] != x {
                    let t = choose|t: int| 0 <= t < s.drop_last().len() && s.drop_last()[t] == inner[k];
                    assert(s[t] == inner[k]);
                }
            } else {
                assert(s[s.len() - 1] == r[k]);
            }
        }
    } else if s.len() > 0 {
        let r = s.push(x);
        assert forall|k: int| 0 <= k < r.len() implies #[trigger] r[k] == x || s.contains(r[k]) by {
            if k < s.len() {
                assert(s[k] == r[k]);
            }
        }
    }
}

/// Inserting into an ordered list keeps it ordered.
pub proof fn lemma_insert_ranked_in_order(p: Option<Seq<char>>, s: Seq<CompletionItemView>, x: CompletionItemView)
    requires
        ranked_in_order(p, s),
    ensures
        ranked_in_order(p, insert_ranked(p, s, x)),
    decreases s.len(),
{
    if s.len() == 0 {
    } else if ranks_before_or_ties(p, s.last(), x) {
        let r = s.push(x);
        assert forall|i: int, j: int| 0 <= i < j < r.len() implies ranks_before_or_ties(p, #[trigger] r[i], #[trigger] r[j]) by {
            if j == s.len() {
                if i < s.len() - 1 {
                    lemma_ranks_transitive(p, s[i], s.last(), x);
                }
            }
        }
    } else {
        let d = s.drop_last();
        assert(ranked_in_order(p, d)) by {
            assert forall|i: int, j: int| 0 <= i < j < d.len() implies ranks_before_or_ties(p, #[trigger] d[i], #[trigger] d[j]) by {
                assert(d[i] == s[i] && d[j] == s[j]);
            }
        }
        lemma_insert_ranked_in_order(p, d, x);
        lemma_insert_ranked_items(p, d, x);
        lemma_ranks_total(p, s.last(), x);
        let inner = insert_ranked(p, d, x);
        let r = inner.push(s.last());
        assert forall|i: int, j: int| 0 <= i < j < r.len() implies ranks_before_or_ties(p, #[trigger] r[i], #[trigger] r[j]) by {
            if j == inner.len() {
                assert(r[i] == inner[i]);
                if inner[i] != x {
                    let t = choose|t: int| 0 <= t < d.len() && d[t] == inner[i];
                    assert(s[t] == d[t]);
                }
            } else {
                assert(r[i] == inner[i] && r[j] == inner[j]);
            }
        }
    }
}

/// The items of a sort are those of the list sorted.
pub proof fn lemma_sort_ranked_items(p: Option<Seq<char>>, s: Seq<CompletionItemView>)
    ensures
        sort_ranked(p, s).len() == s.len(),
        forall|k: int| 0 <= k < sort_ranked(p, s).len() ==> s.contains(#[trigger] sort_ranked(p, s)[k]),
    decreases s.len(),
{
    if s.len() > 0 {
        lemma_sort_ranked_items(p, s.drop_last());
        let inner = sort_ranked(p, s.drop_last());
        lemma_insert_ranked_items(p, inner, s.last());
        let r = sort_ranked(p, s);
        assert forall|k: int| 0 <= k < r.len() implies s.contains(#[trigger] r[k]) by {
            if r[k] == s.last() {
                assert(s[s.len() - 1] == r[k]);
            } else {
                let t = choose|t: int| 0 <= t < inner.len() && inner[t] == r[k];
                let u = choose|u: int| 0 <= u < s.drop_last().len() && s.drop_last()[u] == inner[t];
                assert(s[u] == r[k]);
            }
        }
    }
}

/// A sort is ordered.
pub proof fn lemma_sort_ranked_in_order(p: Option<Seq<char>>, s: Seq<CompletionItemView>)
    ensures
        ranked_in_order(p, sort_ranked(p, s)),
    decreases s.len(),
{
    if s.len() > 0 {
        lemma_sort_ranked_in_order(p, s.drop_last());
        lemma_insert_ranked_in_order(p, sort_ranked(p, s.drop_last()), s.last());
    }
}

/// Dropping repeated labels keeps items of the list, in order.
pub proof fn lemma_dedup_items(p: Option<Seq<char>>, s: Seq<CompletionItemView>)
    ensures
        forall|k: int| 0 <= k < dedup_labels(s).len() ==> s.contains(#[trigger] dedup_labels(s)[k]),
        ranked_in_order(p, s) ==> ranked_in_order(p, dedup_labels(s)),
    decreases s.len(),
{
    if s.len() > 1 {
        lemma_dedup_items(p, s.drop_last());
        let d = dedup_labels(s.drop_last());
        let r = dedup_labels(s);
        assert forall|k: int| 0 <= k < r.len() implies s.contains(#[trigger] r[k]) by {
            if k < d.len() {
                assert(r[k] == d[k]);
                let t = choose|t: int| 0 <= t < s.drop_last().len() && s.drop_last()[t] == d[k];
                assert(s[t] == r[k]);
            } else {
                assert(s[s.len() - 1] == r[k]);
            }
        }
        if ranked_in_order(p, s) {
            assert(ranked_in_order(p, s.drop_last())) by {
                assert forall|i: int, j: int| 0 <= i < j < s.drop_last().len() implies ranks_before_or_ties(
                    p,
                    #[trigger] s.drop_last()[i],
                    #[trigger] s.drop_last()[j],
                ) by {
                    assert(s.drop_last()[i] == s[i] && s.drop_last()[j] == s[j]);
                }
            }
            assert forall|i: int, j: int| 0 <= i < j < r.len() implies ranks_before_or_ties(p, #[trigger] r[i], #[trigger] r[j]) by {
                if j < d.len() {
                    assert(r[i] == d[i] && r[j] == d[j]);
                } else {
                    assert(r[i] == d[i]);
                    let t = choose|t: int| 0 <= t < s.drop_last().len() && s.drop_last()[t] == d[i];
                    assert(s[t] == d[i]);
                    assert(r[j] == s[s.len() - 1]);
                }
            }
        }
    }
}

/// The completions offered come in order (exact matches first, then by
/// label) and each of them is one of the candidates.
pub proof fn lemma_ranked_order(p: Option<Seq<char>>, s: Seq<CompletionItemView>)
    ensures
        ranked_in_order(p, ranked(p, s)),
        forall|k: int| 0 <= k < ranked(p, s).len() ==> s.contains(#[trigger] ranked(p, s)[k]),
{
    let sorted = sort_ranked(p, s);
    lemma_sort_ranked_in_order(p, s);
    lemma_sort_ranked_items(p, s);
    lemma_dedup_items(p, sorted);
    let d = dedup_labels(sorted);
    let r = ranked(p, s);
    assert forall|k: int| 0 <= k < r.len() implies s.contains(#[trigger] r[k]) by {
        assert(r[k] == d[k]);
        let t = choose|t: int| 0 <= t < sorted.len() && sorted[t] == d[k];
        assert(s.contains(sorted[t]));
    }
    assert forall|i: int, j: int| 0 <= i < j < r.len() implies ranks_before_or_ties(p, #[trigger] r[i], #[trigger] r[j]) by {
        assert(r[i] == d[i] && r[j] == d[j]);
    }
}

} // verus!

verus! {

/// Inserting adds exactly the item.
pub proof fn lemma_insert_ranked_multiset(p: Option<Seq<char>>, s: Seq<CompletionItemView>, x: CompletionItemView)
    ensures
        insert_ranked(p, s, x).to_multiset() =~= s.to_multiset().insert(x),
    decreases s.len(),
{
    broadcast use vstd::seq_lib::group_to_multiset_ensures;
    if s.len() == 0 {
        assert(seq![x] =~= Seq::<CompletionItemView>::empty().push(x));
    } else if !ranks_before_or_ties(p, s.last(), x) {
        let d = s.drop_last();
        lemma_insert_ranked_multiset(p, d, x);
        assert(s =~= d.push(s.last()));
        assert(insert_ranked(p, d, x).push(s.last()).to_multiset() =~= insert_ranked(p, d, x).to_multiset().insert(
            s.last(),
        ));
        assert(d.push(s.last()).to_multiset() =~= d.to_multiset().insert(s.last()));
    }
}

/// Sorting keeps exactly the items.
pub proof fn lemma_sort_ranked_multiset(p: Option<Seq<char>>, s: Seq<CompletionItemView>)
    ensures
        sort_ranked(p, s).to_multiset() =~= s.to_multiset(),
    decreases s.len(),
{
    broadcast use vstd::seq_lib::group_to_multiset_ensures;
    if s.len() > 0 {
        lemma_sort_ranked_multiset(p, s.drop_last());
        lemma_insert_ranked_multiset(p, sort_ranked(p, s.drop_last()), s.last());
        assert(s =~= s.drop_last().push(s.last()));
        assert(s.drop_last().push(s.last()).to_multiset() =~= s.drop_last().to_multiset().insert(s.last()));
    }
}

/// Every label of a list is kept when repeated labels are dropped.
pub proof fn lemma_dedup_keeps_labels(s: Seq<CompletionItemView>, i: int)
    requires
        0 <= i < s.len(),
    ensures
        exists|k: int| 0 <= k < dedup_labels(s).len() && #[trigger] dedup_labels(s)[k].label == s[i].label,
    decreases s.len(),
{
    if s.len() == 1 {
        assert(dedup_labels(s)[0].label == s[i].label);
    } else {
        let d = s.drop_last();
        let r = dedup_labels(s);
        if i < s.len() - 1 {
            lemma_dedup_keeps_labels(d, i);
            let k = choose|k: int| 0 <= k < dedup_labels(d).len() && #[trigger] dedup_labels(d)[k].label == d[i].label;
            assert(r[k] == dedup_labels(d)[k]);
        } else if s.last().label == s[s.len() - 2].label {
            lemma_dedup_keeps_labels(d, s.len() - 2);
            let k = choose|k: int| 0 <= k < dedup_labels(d).len() && #[trigger] dedup_labels(d)[k].label == d[s.len() - 2].label;
            assert(r[k] == dedup_labels(d)[k]);
        } else {
            assert(r[r.len() - 1] == s.last());
        }
    }
}

/// `x` comes strictly before `y`: an exact match before one that is not,
/// otherwise by label.
pub open spec fn ranks_before(p: Option<Seq<char>>, x: CompletionItemView, y: CompletionItemView) -> bool {
    (exact_match(p, x) && !exact_match(p, y)) || (exact_match(p, x) == exact_match(p, y) && text_lt(x.label, y.label))
}

/// The completions offered are in strict order, so no label comes twice.
pub proof fn lemma_ranked_strict(p: Option<Seq<char>>, s: Seq<CompletionItemView>)
    ensures
        forall|i: int, j: int|
            0 <= i < j < ranked(p, s).len() ==> ranks_before(p, #[trigger] ranked(p, s)[i], #[trigger] ranked(p, s)[j])
                && ranked(p, s)[i].label != ranked(p, s)[j].label,
{
    let r = ranked(p, s);
    lemma_ranked_order(p, s);
    lemma_ranked_shape(p, s);
    assert forall|i: int, j: int| 0 <= i < j < r.len() implies ranks_before(p, #[trigger] r[i], #[trigger] r[j])
        && r[i].label != r[j].label by {
        let a = r[i];
        let b = r[j];
        assert(ranks_before_or_ties(p, a, b));
        if a.label == b.label {
            let m = r[i + 1];
            assert(ranks_before_or_ties(p, a, m));
            if i + 1 < j {
                assert(ranks_before_or_ties(p, m, b));
            }
            lemma_text_lt_total(a.label, m.label);
            assert(m.label != r[i + 1 - 1].label);
            assert(false);
        }
        lemma_text_lt_total(a.label, b.label);
    }
}

/// No candidate's label is lost: unless more than fifty labels remain after
/// dropping repeats, each candidate's label is offered.
pub proof fn lemma_ranked_keeps_labels(p: Option<Seq<char>>, s: Seq<CompletionItemView>, i: int)
    requires
        0 <= i < s.len(),
        dedup_labels(sort_ranked(p, s)).len() <= 50,
    ensures
        exists|k: int| 0 <= k < ranked(p, s).len() && #[trigger] ranked(p, s)[k].label == s[i].label,
{
    broadcast use vstd::seq_lib::group_to_multiset_ensures;
    let sorted = sort_ranked(p, s);
    lemma_sort_ranked_multiset(p, s);
    assert(s.contains(s[i]));
    assert(s.to_multiset().count(s[i]) > 0);
    assert(sorted.contains(s[i]));
    let t = choose|t: int| 0 <= t < sorted.len() && sorted[t] == s[i];
    lemma_dedup_keeps_labels(sorted, t);
    let d = dedup_labels(sorted);
    let k = choose|k: int| 0 <= k < d.len() && #[trigger] d[k].label == sorted[t].label;
    assert(ranked(p, s) == d);
    assert(ranked(p, s)[k].label == s[i].label);
}

} // verus!
