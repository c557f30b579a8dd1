//! Decisions of the language server's message loop: which handler a method
//! goes to, how the header of a message is read, which workspace roots the
//! client names, and what a file event asks of the index.
use vstd::prelude::*;
use crate::config::{parse_usize, parse_usize_spec};
use crate::database::{Database, FileIndex, FileIndexView, spec_replace_file_index};
use crate::text::{
    all_digits, ascii_lowercase, ascii_text, decimal, lemma_decimal_digits, lemma_parse_decimal, trim_end, trim_start,
    chars_of, digits_value, has_prefix, is_digit, lowercase, string_from_chars, to_lowercase, trim,
    trim_chars, slice_to_vec_chars, starts_with,
};
use crate::workspace::FileEvent;
use crate::json::{json_accepts, json_error_text, json_has_member, json_member, json_str_member, json_string_member};
use crate::text::{debug_quoted, debug_text, string_from_utf8, utf8_error_text};
use vstd::utf8::{decode_utf8, valid_utf8};

verus! {

/// The handler a client message goes to.
#[derive(Debug, Clone, Copy, PartialEq, Eq, Structural)]
pub enum LspRoute {
    Exit,
    Initialize,
    Initialized,
    Shutdown,
    DidOpen,
    DidChange,
    DidSave,
    DidClose,
    DidChangeWatchedFiles,
    Completion,
    Definition,
    References,
    Hover,
    Rename,
    DocumentSymbol,
    Unhandled,
}

pub open spec fn spec_route(m: Seq<char>) -> LspRoute {
    if m == "exit"@ {
        LspRoute::Exit
    } else if m == "initialize"@ {
        LspRoute::Initialize
    } else if m == "initialized"@ {
        LspRoute::Initialized
    } else if m == "shutdown"@ {
        LspRoute::Shutdown
    } else if m == "textDocument/didOpen"@ {
        LspRoute::DidOpen
    } else if m == "textDocument/didChange"@ {
        LspRoute::DidChange
    } else if m == "textDocument/didSave"@ {
        LspRoute::DidSave
    } else if m == "textDocument/didClose"@ {
        LspRoute::DidClose
    } else if m == "workspace/didChangeWatchedFiles"@ {
        LspRoute::DidChangeWatchedFiles
    } else if m == "textDocument/completion"@ {
        LspRoute::Completion
    } else if m == "textDocument/definition"@ {
        LspRoute::Definition
    } else if m == "textDocument/references"@ {
        LspRoute::References
    } else if m == "textDocument/hover"@ {
        LspRoute::Hover
    } else if m == "textDocument/rename"@ {
        LspRoute::Rename
    } else if m == "textDocument/documentSymbol"@ {
        LspRoute::DocumentSymbol
    } else {
        LspRoute::Unhandled
    }
}

fn is(m: &Vec<char>, name: &str) -> (r: bool)
    ensures
        r == (m@ == name@),
{
    let n = chars_of(name);
    crate::indexer::chars_eq(m.as_slice(), n.as_slice())
}

/// The handler for `method`.
pub fn route(method: &str) -> (r: LspRoute)
    ensures
        r == spec_route(method@),
{
    let m = chars_of(method);
    if is(&m, "exit") {
        LspRoute::Exit
    } else if is(&m, "initialize") {
        LspRoute::Initialize
    } else if is(&m, "initialized") {
        LspRoute::Initialized
    } else if is(&m, "shutdown") {
        LspRoute::Shutdown
    } else if is(&m, "textDocument/didOpen") {
        LspRoute::DidOpen
    } else if is(&m, "textDocument/didChange") {
        LspRoute::DidChange
    } else if is(&m, "textDocument/didSave") {
        LspRoute::DidSave
    } else if is(&m, "textDocument/didClose") {
        LspRoute::DidClose
    } else if is(&m, "workspace/didChangeWatchedFiles") {
        LspRoute::DidChangeWatchedFiles
    } else if is(&m, "textDocument/completion") {
        LspRoute::Completion
    } else if is(&m, "textDocument/definition") {
        LspRoute::Definition
    } else if is(&m, "textDocument/references") {
        LspRoute::References
    } else if is(&m, "textDocument/hover") {
        LspRoute::Hover
    } else if is(&m, "textDocument/rename") {
        LspRoute::Rename
    } else if is(&m, "textDocument/documentSymbol") {
        LspRoute::DocumentSymbol
    } else {
        LspRoute::Unhandled
    }
}

/// The error code of a request for a method the server does not have.
pub const METHOD_NOT_FOUND: i64 = -32601;

/// The error answered to an unhandled method: only a request (a message
/// with an id) is answered, with code -32601.
pub fn unhandled_reply(method: &str, has_id: bool) -> (r: Option<(i64, String)>)
    ensures
        match r {
            Some(e) => has_id && e.0 == METHOD_NOT_FOUND && e.1@ == "method not found: "@ + method@,
            None => !has_id,
        },
{
    if has_id {
        let mut m = String::from_str("method not found: ");
        m.append(method);
        Some((METHOD_NOT_FOUND, m))
    } else {
        None
    }
}

/// Why a number could not be read, as `ParseIntError` tells.
#[derive(Debug, Clone, Copy, PartialEq, Eq, Structural)]
pub enum IntErrorKind {
    Empty,
    InvalidDigit,
    PosOverflow,
}

/// What `usize::from_str` reports for `s`: `None` when it reads a number.
pub open spec fn usize_error(s: Seq<char>) -> Option<IntErrorKind> {
    let body = if s.len() > 0 && s[0] == '+' {
        s.drop_first()
    } else {
        s
    };
    if s.len() == 0 {
        Some(IntErrorKind::Empty)
    } else if body.len() == 0 || !all_digits(body) {
        Some(IntErrorKind::InvalidDigit)
    } else if digits_value(body) > usize::MAX {
        Some(IntErrorKind::PosOverflow)
    } else {
        None
    }
}

/// The message `ParseIntError` displays for each kind.
pub open spec fn int_error_text(k: IntErrorKind) -> Seq<char> {
    match k {
        IntErrorKind::Empty => "cannot parse integer from empty string"@,
        IntErrorKind::InvalidDigit => "invalid digit found in string"@,
        IntErrorKind::PosOverflow => "number too large to fit in target type"@,
    }
}

fn all_digit_chars(s: &[char]) -> (r: bool)
    ensures
        r == all_digits(s@),
{
    let mut i: usize = 0;
    while i < s.len()
        invariant
            i <= s@.len(),
            forall|j: int| 0 <= j < i ==> is_digit(#[trigger] s@[j]),
        decreases s@.len() - i,
    {
        if !('0' <= s[i] && s[i] <= '9') {
            assert(!is_digit(s@[i as int]));
            return false;
        }
        i = i + 1;
    }
    true
}

fn usize_error_of(s: &[char]) -> (r: Option<IntErrorKind>)
    ensures
        r == usize_error(s@),
{
    if s.len() == 0 {
        return Some(IntErrorKind::Empty);
    }
    let start: usize = if s[0] == '+' {
        1
    } else {
        0
    };
    let body = slice_to_vec_chars(s, start, s.len());
    assert(body@ =~= (if s@.len() > 0 && s@[0] == '+' {
        s@.drop_first()
    } else {
        s@
    }));
    if body.len() == 0 || !all_digit_chars(body.as_slice()) {
        return Some(IntErrorKind::InvalidDigit);
    }
    let whole = string_from_chars(s);
    match parse_usize(whole.as_str()) {
        Some(_) => None,
        None => {
            assert(crate::text::parse_u64_spec(s@) is None || crate::text::parse_u64_spec(s@).unwrap() > usize::MAX);
            Some(IntErrorKind::PosOverflow)
        },
    }
}

/// A line of a message header.
#[derive(Debug, Clone)]
pub enum HeaderLine {
    /// The empty line that ends the header.
    Blank,
    /// A `Content-Length` field with its value.
    ContentLength(usize),
    /// A `Content-Length` field whose value is no number; the message says why.
    InvalidLength(String),
    /// Another field.
    Other,
}

/// What a header line says. Lines are trimmed; a field is recognised by
/// its lower-cased name; the value is trimmed and read as `usize`.
pub open spec fn header_line_kind(line: Seq<char>) -> (bool, Option<Result<usize, IntErrorKind>>) {
    let t = trim(line);
    let l = lowercase(t);
    let p = "content-length:"@;
    if t.len() == 0 {
        (true, None)
    } else if has_prefix(l, p) {
        let v = trim(l.subrange(p.len() as int, l.len() as int));
        match usize_error(v) {
            Some(e) => (false, Some(Err(e))),
            None => (false, Some(Ok(parse_usize_spec(v).unwrap()))),
        }
    } else {
        (false, None)
    }
}

/// The header line that announces a body of `n` bytes, as it is written.
pub open spec fn length_field_line(n: nat) -> Seq<char> {
    "Content-Length: "@ + decimal(n) + "\r\n"@
}

/// The text of the header line that announces `n` bytes, once trimmed.
proof fn lemma_trim_length_field(n: nat)
    ensures
        trim(length_field_line(n)) == "Content-Length: "@ + decimal(n),
        ascii_text("Content-Length: "@ + decimal(n)),
{
    reveal_strlit("Content-Length: ");
    reveal_strlit("\r\n");
    lemma_decimal_digits(n);
    let f = "Content-Length: "@ + decimal(n);
    let line = length_field_line(n);
    assert(line[0] == 'C');
    assert(trim_start(line) == line);
    assert(line.drop_last() =~= f + seq!['\r']);
    assert((f + seq!['\r']).drop_last() =~= f);
    assert(is_digit(decimal(n)[decimal(n).len() - 1]));
    assert(f.last() == decimal(n)[decimal(n).len() - 1]);
    assert(trim_end(f) == f);
    assert(trim_end(f + seq!['\r']) == f);
    assert(trim_end(line) == f);
    assert forall|i: int| 0 <= i < f.len() implies (#[trigger] f[i] as u32) < 0x80 by {
        if i >= 16 {
            assert(f[i] == decimal(n)[i - 16]);
            assert(is_digit(decimal(n)[i - 16]));
        }
    }
}

/// A header line that announces `n` bytes, with `n` a `usize`, is read as
/// that length (given that lower-casing its ASCII text lowers the letters
/// only, as `str::to_lowercase` does).
proof fn lemma_length_field_kind(n: nat)
    requires
        n <= usize::MAX,
        lowercase("Content-Length: "@ + decimal(n)) == ascii_lowercase("Content-Length: "@ + decimal(n)),
    ensures
        header_line_kind(length_field_line(n)) == (false, Some(Ok::<usize, IntErrorKind>(n as usize))),
{
    reveal_strlit("Content-Length: ");
    reveal_strlit("content-length:");
    lemma_trim_length_field(n);
    lemma_decimal_digits(n);
    let d = decimal(n);
    let f = "Content-Length: "@ + d;
    let l = ascii_lowercase(f);
    let p = "content-length:"@;
    assert(l.subrange(0, 15) =~= p);
    let rest = l.subrange(15, l.len() as int);
    assert forall|i: int| 0 <= i < d.len() implies #[trigger] rest[i + 1] == d[i] by {
        assert(is_digit(d[i]));
        assert(rest[i + 1] == crate::config::ascii_lower(f[i + 16]));
    }
    assert(rest.drop_first() =~= d);
    assert(rest[0] == ' ');
    assert(trim_start(rest) == trim_start(d));
    assert(is_digit(d[0]));
    assert(trim_start(d) == d);
    assert(is_digit(d[d.len() - 1]));
    assert(trim_end(d) == d);
    assert(trim(rest) == d);
    assert(d[0] != '+');
    assert(usize_error(d) is None);
    lemma_parse_decimal(n as u64);
    assert(parse_usize_spec(d) == Some(n as usize));
}

/// The blank line that ends a header is read as such.
proof fn lemma_blank_line_kind()
    ensures
        header_line_kind("\r\n"@).0,
{
    reveal_strlit("\r\n");
    let s = "\r\n"@;
    let s1 = s.drop_first();
    let s2 = s1.drop_first();
    assert(s2 =~= Seq::<char>::empty());
    assert(s[0] == '\r' && s1[0] == '\n');
    assert(trim_start(s2) == s2);
    assert(trim_start(s1) == trim_start(s2));
    assert(trim_start(s) == trim_start(s1));
    assert(trim(s).len() == 0);
}

/// Reads one header line.
pub fn classify_header(line: &str) -> (r: HeaderLine)
    ensures
        ({
            let k = header_line_kind(line@);
            match r {
                HeaderLine::Blank => k.0,
                HeaderLine::ContentLength(n) => !k.0 && k.1 == Some(Ok::<usize, IntErrorKind>(n)),
                HeaderLine::InvalidLength(m) => !k.0 && (k.1 matches Some(Err(e)) && m@ == "invalid Content-Length: "@
                    + int_error_text(e)),
                HeaderLine::Other => !k.0 && k.1 is None,
            }
        }),
        line@ == "\r\n"@ ==> r is Blank,
        forall|n: nat|
            #![trigger length_field_line(n)]
            n <= usize::MAX && line@ == length_field_line(n) ==> r == HeaderLine::ContentLength(n as usize),
{
    proof {
        if line@ == "\r\n"@ {
            lemma_blank_line_kind();
        }
        assert forall|n: nat|
            #![trigger length_field_line(n)]
            line@ == length_field_line(n) implies trim(line@) == "Content-Length: "@ + decimal(n) by {
            lemma_trim_length_field(n);
        }
    }
    let cs = chars_of(line);
    let t = trim_chars(cs.as_slice());
    if t.len() == 0 {
        return HeaderLine::Blank;
    }
    let ts = string_from_chars(t.as_slice());
    let lower = to_lowercase(ts.as_str());
    proof {
        assert forall|n: nat|
            #![trigger length_field_line(n)]
            n <= usize::MAX && line@ == length_field_line(n) implies header_line_kind(line@) == (
                false,
                Some(Ok::<usize, IntErrorKind>(n as usize)),
            ) by {
            lemma_trim_length_field(n);
            lemma_length_field_kind(n);
        }
    }
    let l = chars_of(lower.as_str());
    let p = chars_of("content-length:");
    proof {
        reveal_strlit("content-length:");
    }
    if !starts_with(l.as_slice(), p.as_slice()) {
        return HeaderLine::Other;
    }
    let rest = slice_to_vec_chars(l.as_slice(), p.len(), l.len());
    let v = trim_chars(rest.as_slice());
    match usize_error_of(v.as_slice()) {
        Some(e) => {
            let mut m = String::from_str("invalid Content-Length: ");
            let text = match e {
                IntErrorKind::Empty => "cannot parse integer from empty string",
                IntErrorKind::InvalidDigit => "invalid digit found in string",
                IntErrorKind::PosOverflow => "number too large to fit in target type",
            };
            m.append(text);
            HeaderLine::InvalidLength(m)
        },
        None => {
            let vs = string_from_chars(v.as_slice());
            match parse_usize(vs.as_str()) {
                Some(n) => HeaderLine::ContentLength(n),
                None => {
                    proof {
                        assert(crate::text::parse_u64_spec(v@) is None || crate::text::parse_u64_spec(v@).unwrap() > usize::MAX);
                    }
                    HeaderLine::Other
                },
            }
        },
    }
}

/// A message from the client: its id and parameters as sent, and its method.
pub struct JsonRpcMessage {
    pub id: Option<serde_json::Value>,
    pub method: String,
    pub params: Option<serde_json::Value>,
}

/// Why a message body is refused, if it is: it is not UTF-8, or not JSON,
/// or it has no `method` member that is a string.
pub open spec fn body_error(body: Seq<u8>) -> Option<Seq<char>> {
    if !valid_utf8(body) {
        Some("invalid UTF-8: "@ + utf8_error_text(body))
    } else {
        let t = decode_utf8(body);
        if !json_accepts(t) {
            Some("invalid JSON: "@ + json_error_text(t) + " ("@ + debug_quoted(t) + ")"@)
        } else if json_string_member(t, "method"@) is None {
            Some("missing method field"@)
        } else {
            None
        }
    }
}

/// Reads a message body: the error that refuses it, or the message with the
/// body's `method`, and its `id` and `params` members when it has them.
pub fn message_from_body(body: Vec<u8>) -> (r: Result<JsonRpcMessage, String>)
    ensures
        match r {
            Err(m) => body_error(body@) == Some(m@),
            Ok(msg) => {
                let t = decode_utf8(body@);
                &&& body_error(body@) is None
                &&& json_string_member(t, "method"@) == Some(msg.method@)
                &&& (msg.id is Some <==> json_has_member(t, "id"@))
                &&& (msg.params is Some <==> json_has_member(t, "params"@))
            },
        },
{
    let ghost bytes = body@;
    let text = match string_from_utf8(body) {
        Ok(t) => t,
        Err(e) => {
            let mut m = String::from_str("invalid UTF-8: ");
            m.append(e.as_str());
            return Err(m);
        },
    };
    let method = match json_str_member(text.as_str(), "method") {
        Err(e) => {
            let mut m = String::from_str("invalid JSON: ");
            m.append(e.as_str());
            m.append(" (");
            let d = debug_text(text.as_str());
            m.append(d.as_str());
            m.append(")");
            return Err(m);
        },
        Ok(None) => {
            return Err(String::from_str("missing method field"));
        },
        Ok(Some(found)) => found,
    };
    let id = json_member(text.as_str(), "id");
    let params = json_member(text.as_str(), "params");
    Ok(JsonRpcMessage { id, method, params })
}

/// The length of the body, once the header has ended.
pub fn body_length(content_length: Option<usize>) -> (r: Result<usize, String>)
    ensures
        match content_length {
            Some(n) => r == Ok::<usize, String>(n),
            None => r matches Err(m) && m@ == "missing Content-Length header"@,
        },
{
    match content_length {
        Some(n) => Ok(n),
        None => Err(String::from_str("missing Content-Length header")),
    }
}

/// The workspace roots named at initialisation, when they replace the
/// configured ones: the workspace folders (those that are file paths) when
/// the client sent folders and one of them is a path; otherwise, when it
/// sent no folders, the root it names, if that is a path.
pub fn choose_roots(folders: Option<Vec<String>>, root: Option<String>) -> (r: Option<Vec<String>>)
    ensures
        match folders {
            Some(f) => match r {
                Some(v) => f@.len() > 0 && v@ == f@,
                None => f@.len() == 0,
            },
            None => match root {
                Some(p) => r matches Some(v) && v@.len() == 1 && v@[0] == p,
                None => r is None,
            },
        },
{
    match folders {
        Some(f) => if f.len() > 0 {
            Some(f)
        } else {
            None
        },
        None => match root {
            Some(p) => {
                let mut v: Vec<String> = Vec::new();
                v.push(p);
                Some(v)
            },
            None => None,
        },
    }
}

/// What a file event asks of the index.
#[derive(Debug, Clone)]
pub enum IndexAction {
    /// Read the file again and replace its index.
    Reindex(String),
    /// Drop everything indexed for the file.
    Forget(String),
    /// Discover and index the whole workspace again.
    Rescan,
}

/// The index action for an event.
pub fn plan_event(event: FileEvent) -> (r: IndexAction)
    ensures
        match event {
            FileEvent::Created(p) => r matches IndexAction::Reindex(q) && q@ == p@,
            FileEvent::Modified(p) => r matches IndexAction::Reindex(q) && q@ == p@,
            FileEvent::Deleted(p) => r matches IndexAction::Forget(q) && q@ == p@,
            FileEvent::FullRescan => r matches IndexAction::Rescan,
        },
{
    match event {
        FileEvent::Created(p) => IndexAction::Reindex(p),
        FileEvent::Modified(p) => IndexAction::Reindex(p),
        FileEvent::Deleted(p) => IndexAction::Forget(p),
        FileEvent::FullRescan => IndexAction::Rescan,
    }
}

/// Drops what the database holds for `path`, by recording an empty index for it.
pub fn forget_file(db: &mut Database, path: String)
    ensures
        final(db)@ == spec_replace_file_index(
            old(db)@,
            FileIndexView { file: path@, symbols: seq![], references: seq![], neodos_items: seq![] },
        ),
        crate::database::indexes_consistent(old(db)@) ==> crate::database::indexes_consistent(final(db)@),
{
    let fi = FileIndex { file: path, symbols: Vec::new(), references: Vec::new(), neodos_items: Vec::new() };
    assert(fi@.symbols =~= Seq::<crate::database::SymbolView>::empty());
    assert(fi@.neodos_items =~= Seq::<crate::database::NeodosItemView>::empty());
    db.replace_file_index(fi);
}

/// A message as it is written: a `Content-Length` header with the body's
/// length in bytes, a blank line, then the body.
pub open spec fn framed(body: Seq<char>) -> Seq<char> {
    "Content-Length: "@ + crate::text::decimal(crate::text::utf8_len(body)) + "\r\n\r\n"@ + body
}

/// A framed message is read back line by line: it starts with the line that
/// announces the body's length in bytes, which holds no line break before
/// its own `\r\n` (so `classify_header` reads it as that length), then
/// comes the blank line that ends the header (read as `Blank`), then the
/// body itself.
pub proof fn lemma_framed_header(body: Seq<char>)
    ensures
        framed(body) == length_field_line(crate::text::utf8_len(body)) + "\r\n"@ + body,
        ({
            let line = length_field_line(crate::text::utf8_len(body));
            &&& line.len() >= 2
            &&& line.subrange(line.len() - 2, line.len() as int) == "\r\n"@
            &&& forall|i: int| 0 <= i < line.len() - 1 ==> #[trigger] line[i] != '\n'
        }),
{
    reveal_strlit("\r\n");
    reveal_strlit("\r\n\r\n");
    reveal_strlit("Content-Length: ");
    let n = crate::text::utf8_len(body);
    lemma_decimal_digits(n);
    let line = length_field_line(n);
    assert(framed(body) =~= line + "\r\n"@ + body);
    assert(line.subrange(line.len() - 2, line.len() as int) =~= "\r\n"@);
    assert forall|i: int| 0 <= i < line.len() - 1 implies #[trigger] line[i] != '\n' by {
        if 16 <= i < line.len() - 2 {
            assert(is_digit(decimal(n)[i - 16]));
        }
    }
}

/// Frames `body` for writing.
pub fn frame_message(body: &str) -> (r: String)
    requires
        crate::text::utf8_len(body@) <= usize::MAX,
    ensures
        r@ == framed(body@),
{
    let cs = chars_of(body);
    let n = crate::text::utf8_len_of(cs.as_slice(), 0, cs.len());
    assert(cs@.subrange(0, cs@.len() as int) =~= cs@);
    let len = n as usize;
    let mut r = String::from_str("Content-Length: ");
    let d = crate::text::u64_to_string(len as u64);
    r.append(d.as_str());
    r.append("\r\n\r\n");
    r.append(body);
    r
}

} // verus!
