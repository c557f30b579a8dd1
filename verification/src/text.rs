//! Character-level text helpers shared by the parsers and the source indexer.
use vstd::prelude::*;

verus! {

/// The decimal digit character for `d < 10`.
pub open spec fn digit_char(d: nat) -> char {
    (48 + d) as char
}

/// Decimal representation of `n`, most significant digit first, as `Display` prints it.
pub open spec fn decimal(n: nat) -> Seq<char>
    decreases n,
{
    if n < 10 {
        seq![digit_char(n)]
    } else {
        decimal(n / 10).push(digit_char(n % 10))
    }
}

/// Appends `c` to `s` (`String::push`).
#[verifier::external_body]
pub(crate) fn push_char(s: &mut String, c: char)
    ensures
        final(s)@ == old(s)@.push(c),
{
    s.push(c);
}

/// What `String::from_utf8_lossy` makes of `bytes`.
pub uninterp spec fn utf8_lossy(bytes: Seq<u8>) -> Seq<char>;

/// `String::from_utf8_lossy`, owned. Its documentation states that valid
/// UTF-8 is decoded unchanged; how invalid sequences are replaced by
/// U+FFFD is left to the name `utf8_lossy`.
#[verifier::external_body]
pub(crate) fn from_utf8_lossy(bytes: &[u8]) -> (r: String)
    ensures
        r@ == utf8_lossy(bytes@),
        vstd::utf8::valid_utf8(bytes@) ==> r@ == vstd::utf8::decode_utf8(bytes@),
{
    String::from_utf8_lossy(bytes).into_owned()
}

/// The message of the error `String::from_utf8` gives for `bytes`.
pub uninterp spec fn utf8_error_text(bytes: Seq<u8>) -> Seq<char>;

/// `String::from_utf8`. Its documentation gives `Ok` exactly for valid
/// UTF-8, decoded unchanged; the text of the error is left to the name
/// `utf8_error_text`.
#[verifier::external_body]
pub(crate) fn string_from_utf8(bytes: Vec<u8>) -> (r: Result<String, String>)
    ensures
        r is Ok <==> vstd::utf8::valid_utf8(bytes@),
        r matches Ok(s) ==> s@ == vstd::utf8::decode_utf8(bytes@),
        r matches Err(m) ==> m@ == utf8_error_text(bytes@),
{
    String::from_utf8(bytes).map_err(|e| e.to_string())
}

/// What `<str as Debug>::fmt` writes for `s`: the text quoted, with its
/// special characters escaped.
pub uninterp spec fn debug_quoted(s: Seq<char>) -> Seq<char>;

/// `<str as Debug>::fmt`, written into a new `String`; the escaping is left
/// to the name `debug_quoted`.
#[verifier::external_body]
pub(crate) fn debug_text(s: &str) -> (r: String)
    ensures
        r@ == debug_quoted(s@),
{
    format!("{s:?}")
}

/// Builds a `String` holding exactly the characters of `cs`.
pub fn string_from_chars(cs: &[char]) -> (r: String)
    ensures
        r@ == cs@,
{
    let mut r = String::new();
    let mut i: usize = 0;
    while i < cs.len()
        invariant
            i <= cs@.len(),
            r@ == cs@.subrange(0, i as int),
        decreases cs@.len() - i,
    {
        push_char(&mut r, cs[i]);
        i = i + 1;
        assert(r@ =~= cs@.subrange(0, i as int));
    }
    assert(cs@.subrange(0, cs@.len() as int) =~= cs@);
    r
}

/// The characters of `s`, in order.
pub fn chars_of(s: &str) -> (r: Vec<char>)
    ensures
        r@ == s@,
{
    let mut r: Vec<char> = Vec::new();
    for c in it: s.chars()
        invariant
            r@ == it.seq().subrange(0, it.index() as int),
            it.seq() == s@,
    {
        r.push(c);
    }
    r
}

/// Decimal digits of `n`.
pub fn decimal_chars(n: u64) -> (r: Vec<char>)
    ensures
        r@ == decimal(n as nat),
    decreases n,
{
    if n < 10 {
        let c = ((48 + n) as u8) as char;
        let mut v: Vec<char> = Vec::new();
        v.push(c);
        assert(v@ =~= seq![digit_char(n as nat)]);
        v
    } else {
        let mut v = decimal_chars(n / 10);
        let c = ((48 + n % 10) as u8) as char;
        v.push(c);
        v
    }
}

/// The lower-case hexadecimal digit for `d < 16`.
pub open spec fn hex_digit(d: nat) -> char {
    if d < 10 {
        (48 + d) as char
    } else {
        (87 + d) as char
    }
}

/// Lower-case hexadecimal representation of `n`, as `{:x}` prints it.
pub open spec fn hex(n: nat) -> Seq<char>
    decreases n,
{
    if n < 16 {
        seq![hex_digit(n)]
    } else {
        hex(n / 16).push(hex_digit(n % 16))
    }
}

pub fn hex_chars(n: u64) -> (r: Vec<char>)
    ensures
        r@ == hex(n as nat),
    decreases n,
{
    let d = n % 16;
    let c = if d < 10 {
        ((48 + d) as u8) as char
    } else {
        ((87 + d) as u8) as char
    };
    if n < 16 {
        let mut v: Vec<char> = Vec::new();
        v.push(c);
        assert(v@ =~= seq![hex_digit(n as nat)]);
        v
    } else {
        let mut v = hex_chars(n / 16);
        v.push(c);
        v
    }
}

/// `n` printed in decimal.
pub fn u64_to_string(n: u64) -> (r: String)
    ensures
        r@ == decimal(n as nat),
{
    let v = decimal_chars(n);
    string_from_chars(v.as_slice())
}

} // verus!

verus! {

/// Unicode `White_Space`, which `char::is_whitespace` and `str::trim` use.
pub open spec fn is_ws(c: char) -> bool {
    let u = c as u32;
    (9 <= u <= 13) || u == 32 || u == 0x85 || u == 0xA0 || u == 0x1680 || (0x2000 <= u <= 0x200A)
        || u == 0x2028 || u == 0x2029 || u == 0x202F || u == 0x205F || u == 0x3000
}

pub fn is_whitespace(c: char) -> (r: bool)
    ensures
        r == is_ws(c),
{
    let u = c as u32;
    (9 <= u && u <= 13) || u == 32 || u == 0x85 || u == 0xA0 || u == 0x1680 || (0x2000 <= u && u
        <= 0x200A) || u == 0x2028 || u == 0x2029 || u == 0x202F || u == 0x205F || u == 0x3000
}

/// `s` without its leading whitespace.
pub open spec fn trim_start(s: Seq<char>) -> Seq<char>
    decreases s.len(),
{
    if s.len() > 0 && is_ws(s[0]) {
        trim_start(s.drop_first())
    } else {
        s
    }
}

/// `s` without its trailing whitespace.
pub open spec fn trim_end(s: Seq<char>) -> Seq<char>
    decreases s.len(),
{
    if s.len() > 0 && is_ws(s.last()) {
        trim_end(s.drop_last())
    } else {
        s
    }
}

/// `str::trim`.
pub open spec fn trim(s: Seq<char>) -> Seq<char> {
    trim_end(trim_start(s))
}

/// Number of leading whitespace characters of `s[i..j]`.
pub fn leading_ws_len(s: &[char], i: usize, j: usize) -> (r: usize)
    requires
        i <= j <= s@.len(),
    ensures
        i <= r <= j,
        trim_start(s@.subrange(i as int, j as int)) == s@.subrange(r as int, j as int),
{
    let mut k = i;
    while k < j && is_whitespace(s[k])
        invariant
            i <= k <= j <= s@.len(),
            trim_start(s@.subrange(i as int, j as int)) == trim_start(s@.subrange(k as int, j as int)),
        decreases j - k,
    {
        assert(s@.subrange(k as int, j as int).drop_first() =~= s@.subrange(k + 1, j as int));
        k = k + 1;
    }
    k
}

/// Index one past the last non-whitespace character of `s[i..j]`.
pub fn trailing_ws_start(s: &[char], i: usize, j: usize) -> (r: usize)
    requires
        i <= j <= s@.len(),
    ensures
        i <= r <= j,
        trim_end(s@.subrange(i as int, j as int)) == s@.subrange(i as int, r as int),
{
    let mut k = j;
    while k > i && is_whitespace(s[k - 1])
        invariant
            i <= k <= j <= s@.len(),
            trim_end(s@.subrange(i as int, j as int)) == trim_end(s@.subrange(i as int, k as int)),
        decreases k - i,
    {
        assert(s@.subrange(i as int, k as int).drop_last() =~= s@.subrange(i as int, k - 1));
        k = k - 1;
    }
    k
}

/// Bounds `(a, b)` of `trim(s[i..j])` inside `s`.
pub fn trim_bounds(s: &[char], i: usize, j: usize) -> (r: (usize, usize))
    requires
        i <= j <= s@.len(),
    ensures
        i <= r.0 <= r.1 <= j,
        trim(s@.subrange(i as int, j as int)) == s@.subrange(r.0 as int, r.1 as int),
{
    let a = leading_ws_len(s, i, j);
    let b = trailing_ws_start(s, a, j);
    (a, b)
}

/// `str::trim` on a character vector.
pub fn trim_chars(s: &[char]) -> (r: Vec<char>)
    ensures
        r@ == trim(s@),
{
    let (a, b) = trim_bounds(s, 0, s.len());
    assert(s@.subrange(0, s@.len() as int) =~= s@);
    slice_to_vec_chars(s, a, b)
}

/// A copy of `s[a..b]`.
pub fn slice_to_vec_chars(s: &[char], a: usize, b: usize) -> (r: Vec<char>)
    requires
        a <= b <= s@.len(),
    ensures
        r@ == s@.subrange(a as int, b as int),
{
    let mut r: Vec<char> = Vec::new();
    let mut k = a;
    while k < b
        invariant
            a <= k <= b <= s@.len(),
            r@ == s@.subrange(a as int, k as int),
        decreases b - k,
    {
        r.push(s[k]);
        k = k + 1;
        assert(r@ =~= s@.subrange(a as int, k as int));
    }
    r
}

/// `s` starts with `p`.
pub open spec fn has_prefix(s: Seq<char>, p: Seq<char>) -> bool {
    p.len() <= s.len() && s.subrange(0, p.len() as int) == p
}

/// `s` ends with `p`.
pub open spec fn has_suffix(s: Seq<char>, p: Seq<char>) -> bool {
    p.len() <= s.len() && s.subrange(s.len() - p.len(), s.len() as int) == p
}

/// `p` occurs in `s` at `i`.
pub open spec fn occurs_at(s: Seq<char>, p: Seq<char>, i: int) -> bool {
    0 <= i && i + p.len() <= s.len() && s.subrange(i, i + p.len()) == p
}

/// First occurrence of `p` in `s` at or after `i`.
pub open spec fn find_from(s: Seq<char>, p: Seq<char>, i: int) -> Option<int>
    decreases s.len() + 1 - i,
{
    if i < 0 || i + p.len() > s.len() {
        None
    } else if occurs_at(s, p, i) {
        Some(i)
    } else {
        find_from(s, p, i + 1)
    }
}

/// `str::find`: first occurrence of `p` in `s`.
pub open spec fn find(s: Seq<char>, p: Seq<char>) -> Option<int> {
    find_from(s, p, 0)
}

/// `str::contains`.
pub open spec fn contains(s: Seq<char>, p: Seq<char>) -> bool {
    find(s, p) is Some
}

pub fn matches_at(s: &[char], p: &[char], i: usize) -> (r: bool)
    ensures
        r == occurs_at(s@, p@, i as int),
{
    if i > s.len() || p.len() > s.len() - i {
        return false;
    }
    let mut k: usize = 0;
    while k < p.len()
        invariant
            i + p.len() <= s.len(),
            k <= p@.len(),
            forall|q: int| 0 <= q < k ==> s@[i + q] == p@[q],
        decreases p@.len() - k,
    {
        if s[i + k] != p[k] {
            assert(s@.subrange(i as int, i + p@.len())[k as int] != p@[k as int]);
            return false;
        }
        k = k + 1;
    }
    assert(s@.subrange(i as int, i + p@.len()) =~= p@);
    true
}

pub fn starts_with(s: &[char], p: &[char]) -> (r: bool)
    ensures
        r == has_prefix(s@, p@),
{
    matches_at(s, p, 0)
}

pub fn ends_with(s: &[char], p: &[char]) -> (r: bool)
    ensures
        r == has_suffix(s@, p@),
{
    if p.len() > s.len() {
        false
    } else {
        matches_at(s, p, s.len() - p.len())
    }
}

/// `str::find` from index `i` on.
pub fn find_chars_from(s: &[char], p: &[char], i: usize) -> (r: Option<usize>)
    requires
        i <= s@.len(),
    ensures
        r == (match find_from(s@, p@, i as int) {
            Some(k) => Some(k as usize),
            None => None,
        }),
        r matches Some(k) ==> i <= k && k + p@.len() <= s@.len() && find_from(s@, p@, i as int)
            == Some(k as int),
        r is None <==> find_from(s@, p@, i as int) is None,
{
    let mut k = i;
    while k < s.len()
        invariant
            i <= k <= s@.len(),
            find_from(s@, p@, i as int) == find_from(s@, p@, k as int),
        decreases s@.len() - k,
    {
        if p.len() > s.len() - k {
            return None;
        }
        if matches_at(s, p, k) {
            return Some(k);
        }
        k = k + 1;
    }
    if matches_at(s, p, k) {
        Some(k)
    } else {
        if p.len() == 0 {
            assert(s@.subrange(k as int, k as int) =~= p@);
        }
        assert(find_from(s@, p@, k as int) is None);
        None
    }
}

pub fn find_chars(s: &[char], p: &[char]) -> (r: Option<usize>)
    ensures
        r == (match find(s@, p@) {
            Some(k) => Some(k as usize),
            None => None,
        }),
        r matches Some(k) ==> k + p@.len() <= s@.len() && find(s@, p@) == Some(k as int),
        r is None <==> find(s@, p@) is None,
{
    find_chars_from(s, p, 0)
}

pub fn contains_chars(s: &[char], p: &[char]) -> (r: bool)
    ensures
        r == contains(s@, p@),
{
    find_chars(s, p).is_some()
}

} // verus!

verus! {

pub proof fn lemma_find_from_bounds(s: Seq<char>, p: Seq<char>, i: int)
    requires
        0 <= i,
    ensures
        find_from(s, p, i) matches Some(k) ==> i <= k && occurs_at(s, p, k),
        find_from(s, p, i) is None ==> forall|k: int| i <= k ==> !occurs_at(s, p, k),
    decreases s.len() + 1 - i,
{
    if i < 0 || i + p.len() > s.len() {
    } else if occurs_at(s, p, i) {
    } else {
        lemma_find_from_bounds(s, p, i + 1);
    }
}

/// A line as `str::lines` yields it: without its `\n` and a `\r` just before it.
pub open spec fn strip_cr(l: Seq<char>) -> Seq<char> {
    if l.len() > 0 && l.last() == '\r' {
        l.drop_last()
    } else {
        l
    }
}

/// The lines of `s[i..]`, as `str::lines` splits them.
pub open spec fn lines_from(s: Seq<char>, i: int) -> Seq<Seq<char>>
    decreases s.len() - i,
{
    if i < 0 || i >= s.len() {
        seq![]
    } else {
        match find_from(s, seq!['\n'], i) {
            Some(k) => {
                proof {
                    lemma_find_from_bounds(s, seq!['\n'], i);
                }
                seq![strip_cr(s.subrange(i, k))] + lines_from(s, k + 1)
            },
            None => seq![s.subrange(i, s.len() as int)],
        }
    }
}

/// `str::lines`.
pub open spec fn lines(s: Seq<char>) -> Seq<Seq<char>> {
    lines_from(s, 0)
}

/// The lines of `s`, each as a character vector.
pub fn lines_of(s: &[char]) -> (r: Vec<Vec<char>>)
    ensures
        r@.len() == lines(s@).len(),
        forall|j: int| 0 <= j < r@.len() ==> #[trigger] r@[j]@ == lines(s@)[j],
{
    let mut r: Vec<Vec<char>> = Vec::new();
    let ghost mut acc: Seq<Seq<char>> = seq![];
    let nl: [char; 1] = ['\n'];
    assert(nl@ =~= seq!['\n']);
    let mut i: usize = 0;
    while i < s.len()
        invariant
            i <= s@.len(),
            nl@ == seq!['\n'],
            r@.len() == acc.len(),
            forall|j: int| 0 <= j < r@.len() ==> #[trigger] r@[j]@ == acc[j],
            acc + lines_from(s@, i as int) == lines(s@),
        decreases s@.len() - i,
    {
        match find_chars_from(s, &nl, i) {
            Some(k) => {
                proof {
                    lemma_find_from_bounds(s@, seq!['\n'], i as int);
                }
                let mut end = k;
                if end > i && s[end - 1] == '\r' {
                    end = end - 1;
                }
                let line = slice_to_vec_chars(s, i, end);
                proof {
                    let l = s@.subrange(i as int, k as int);
                    assert(strip_cr(l) =~= line@);
                    assert(lines_from(s@, i as int) == seq![strip_cr(l)] + lines_from(s@, k + 1));
                    assert(acc.push(line@) + lines_from(s@, k + 1) =~= acc + lines_from(
                        s@,
                        i as int,
                    ));
                    acc = acc.push(line@);
                }
                r.push(line);
                i = k + 1;
            },
            None => {
                let line = slice_to_vec_chars(s, i, s.len());
                proof {
                    assert(acc.push(line@) =~= acc + lines_from(s@, i as int));
                    acc = acc.push(line@);
                    assert(lines_from(s@, s@.len() as int) =~= seq![]);
                }
                r.push(line);
                i = s.len();
            },
        }
    }
    proof {
        assert(acc + lines_from(s@, i as int) =~= acc);
    }
    r
}

/// Number of occurrences of `c` in `s`.
pub open spec fn count_char(s: Seq<char>, c: char) -> nat
    decreases s.len(),
{
    if s.len() == 0 {
        0
    } else {
        count_char(s.drop_last(), c) + if s.last() == c {
            1nat
        } else {
            0nat
        }
    }
}

pub proof fn lemma_count_char_le(s: Seq<char>, c: char)
    ensures
        count_char(s, c) <= s.len(),
    decreases s.len(),
{
    if s.len() > 0 {
        lemma_count_char_le(s.drop_last(), c);
    }
}

/// Counts the occurrences of `c` in `s` (`str::matches(c).count()`).
pub fn count_chars(s: &[char], c: char) -> (r: usize)
    ensures
        r == count_char(s@, c),
{
    let mut n: usize = 0;
    let mut k: usize = 0;
    while k < s.len()
        invariant
            k <= s@.len(),
            n == count_char(s@.subrange(0, k as int), c),
        decreases s@.len() - k,
    {
        proof {
            assert(s@.subrange(0, k + 1).drop_last() =~= s@.subrange(0, k as int));
            lemma_count_char_le(s@.subrange(0, k as int), c);
        }
        if s[k] == c {
            n = n + 1;
        }
        k = k + 1;
    }
    assert(s@.subrange(0, s@.len() as int) =~= s@);
    n
}

/// Bytes that `c` takes in UTF-8.
pub open spec fn utf8_width(c: char) -> nat {
    let u = c as u32;
    if u < 0x80 {
        1
    } else if u < 0x800 {
        2
    } else if u < 0x10000 {
        3
    } else {
        4
    }
}

/// Length in bytes of the UTF-8 encoding of `s` (`str::len`).
pub open spec fn utf8_len(s: Seq<char>) -> nat
    decreases s.len(),
{
    if s.len() == 0 {
        0
    } else {
        utf8_len(s.drop_last()) + utf8_width(s.last())
    }
}

pub proof fn lemma_utf8_len_le(s: Seq<char>)
    ensures
        utf8_len(s) <= 4 * s.len(),
    decreases s.len(),
{
    if s.len() > 0 {
        lemma_utf8_len_le(s.drop_last());
    }
}

/// UTF-8 length in bytes of `s[a..b]`.
pub fn utf8_len_of(s: &[char], a: usize, b: usize) -> (r: u128)
    requires
        a <= b <= s@.len(),
    ensures
        r == utf8_len(s@.subrange(a as int, b as int)),
{
    let mut n: u128 = 0;
    let mut k: usize = a;
    while k < b
        invariant
            a <= k <= b <= s@.len(),
            n == utf8_len(s@.subrange(a as int, k as int)),
        decreases b - k,
    {
        proof {
            assert(s@.subrange(a as int, k + 1).drop_last() =~= s@.subrange(a as int, k as int));
            lemma_utf8_len_le(s@.subrange(a as int, k as int));
        }
        let u = s[k] as u32;
        let w: u128 = if u < 0x80 {
            1
        } else if u < 0x800 {
            2
        } else if u < 0x10000 {
            3
        } else {
            4
        };
        n = n + w;
        k = k + 1;
    }
    n
}

/// Numeric value of a run of decimal digits.
pub open spec fn digits_value(s: Seq<char>) -> nat
    decreases s.len(),
{
    if s.len() == 0 {
        0
    } else {
        digits_value(s.drop_last()) * 10 + ((s.last() as u32) - 48) as nat
    }
}

pub open spec fn is_digit(c: char) -> bool {
    '0' <= c && c <= '9'
}

pub open spec fn all_digits(s: Seq<char>) -> bool {
    forall|i: int| 0 <= i < s.len() ==> is_digit(#[trigger] s[i])
}

/// `u64::from_str`: an optional `+`, then one or more ASCII digits whose value fits.
pub open spec fn parse_u64_spec(s: Seq<char>) -> Option<u64> {
    let body = if s.len() > 0 && s[0] == '+' {
        s.drop_first()
    } else {
        s
    };
    if body.len() == 0 || !all_digits(body) || digits_value(body) > u64::MAX {
        None
    } else {
        Some(digits_value(body) as u64)
    }
}

pub proof fn lemma_digits_value_mono(s: Seq<char>, k: int)
    requires
        0 <= k <= s.len(),
        all_digits(s),
    ensures
        digits_value(s.subrange(0, k)) <= digits_value(s),
    decreases s.len() - k,
{
    if k < s.len() {
        lemma_digits_value_mono(s, k + 1);
        let t = s.subrange(0, k + 1);
        assert(t.drop_last() =~= s.subrange(0, k));
        assert(is_digit(s[k]));
    } else {
        assert(s.subrange(0, k) =~= s);
    }
}

/// `str::parse::<u64>()`, with the error collapsed to `None`.
pub fn parse_u64(s: &[char]) -> (r: Option<u64>)
    ensures
        r == parse_u64_spec(s@),
{
    let start: usize = if s.len() > 0 && s[0] == '+' {
        1
    } else {
        0
    };
    let ghost body = if s@.len() > 0 && s@[0] == '+' {
        s@.drop_first()
    } else {
        s@
    };
    assert(body =~= s@.subrange(start as int, s@.len() as int));
    if start == s.len() {
        assert(body.len() == 0);
        return None;
    }
    let mut k: usize = start;
    while k < s.len()
        invariant
            start <= k <= s@.len(),
            body == s@.subrange(start as int, s@.len() as int),
            body == (if s@.len() > 0 && s@[0] == '+' {
                s@.drop_first()
            } else {
                s@
            }),
            forall|q: int| start <= q < k ==> is_digit(#[trigger] s@[q]),
        decreases s@.len() - k,
    {
        if !(s[k] >= '0' && s[k] <= '9') {
            assert(body[k - start] == s@[k as int]);
            assert(!is_digit(body[k - start]));
            assert(!all_digits(body));
            return None;
        }
        k = k + 1;
    }
    assert(all_digits(body));
    let mut v: u64 = 0;
    let mut k: usize = start;
    while k < s.len()
        invariant
            start <= k <= s@.len(),
            body == s@.subrange(start as int, s@.len() as int),
            body == (if s@.len() > 0 && s@[0] == '+' {
                s@.drop_first()
            } else {
                s@
            }),
            all_digits(body),
            v == digits_value(body.subrange(0, k - start)),
        decreases s@.len() - k,
    {
        proof {
            assert(body.subrange(0, k + 1 - start).drop_last() =~= body.subrange(0, k - start));
            assert(is_digit(body[k - start]));
        }
        let d = ((s[k] as u32) - 48) as u64;
        assert(body[k - start] == s@[k as int]);
        assert(digits_value(body.subrange(0, k + 1 - start)) == v * 10 + d);
        match v.checked_mul(10) {
            None => {
                proof {
                    lemma_digits_value_mono(body, k + 1 - start);
                }
                return None;
            },
            Some(t) => match t.checked_add(d) {
                None => {
                    proof {
                        lemma_digits_value_mono(body, k + 1 - start);
                    }
                    return None;
                },
                Some(u) => {
                    v = u;
                },
            },
        }
        k = k + 1;
    }
    assert(body.subrange(0, body.len() as int) =~= body);
    Some(v)
}

/// What `str::to_lowercase` makes of `s` (full Unicode case mapping).
pub uninterp spec fn lowercase(s: Seq<char>) -> Seq<char>;

/// Every character of `s` is ASCII.
pub open spec fn ascii_text(s: Seq<char>) -> bool {
    forall|i: int| 0 <= i < s.len() ==> (#[trigger] s[i] as u32) < 0x80
}

/// `s` with the ASCII letters `A`-`Z` turned into `a`-`z`, all else kept.
pub open spec fn ascii_lowercase(s: Seq<char>) -> Seq<char> {
    s.map_values(|c: char| crate::config::ascii_lower(c))
}

/// `str::to_lowercase`. Its documentation gives the Unicode lowercase
/// mapping, under which `A`-`Z` become `a`-`z` and every other ASCII
/// character stays; for text beyond ASCII the case tables are left to the
/// name `lowercase`.
#[verifier::external_body]
pub(crate) fn to_lowercase(s: &str) -> (r: String)
    ensures
        r@ == lowercase(s@),
        ascii_text(s@) ==> r@ == ascii_lowercase(s@),
{
    s.to_lowercase()
}

} // verus!

verus! {

/// `str::trim_start_matches` with a text pattern: `p` removed from the
/// front as long as it is there (nothing is removed for an empty `p`).
pub open spec fn strip_all_prefix(s: Seq<char>, p: Seq<char>) -> Seq<char>
    decreases s.len(),
{
    if p.len() > 0 && has_prefix(s, p) {
        strip_all_prefix(s.subrange(p.len() as int, s.len() as int), p)
    } else {
        s
    }
}

/// `str::trim_end_matches` with a character.
pub open spec fn strip_all_suffix_char(s: Seq<char>, c: char) -> Seq<char>
    decreases s.len(),
{
    if s.len() > 0 && s.last() == c {
        strip_all_suffix_char(s.drop_last(), c)
    } else {
        s
    }
}

/// `str::trim_start_matches` with a character.
pub open spec fn strip_all_prefix_char(s: Seq<char>, c: char) -> Seq<char>
    decreases s.len(),
{
    if s.len() > 0 && s[0] == c {
        strip_all_prefix_char(s.drop_first(), c)
    } else {
        s
    }
}

/// `str::trim_matches` with a character.
pub open spec fn strip_both_char(s: Seq<char>, c: char) -> Seq<char> {
    strip_all_suffix_char(strip_all_prefix_char(s, c), c)
}

/// The part of `s` before the first occurrence of `p` (all of `s` without one):
/// `s.split(p).next()`.
pub open spec fn before(s: Seq<char>, p: Seq<char>) -> Seq<char> {
    match find(s, p) {
        Some(k) => s.subrange(0, k),
        None => s,
    }
}

/// The part of `s` behind the first occurrence of `p`: `s.split_once(p)`'s second half.
pub open spec fn after_first(s: Seq<char>, p: Seq<char>) -> Option<Seq<char>> {
    match find(s, p) {
        Some(k) => Some(s.subrange(k + p.len(), s.len() as int)),
        None => None,
    }
}

/// Last occurrence of `p` in `s[..j]` that starts at or after `i`... searched from the back.
pub open spec fn rfind_before(s: Seq<char>, p: Seq<char>, j: int) -> Option<int>
    decreases j + 1,
{
    if j < 0 {
        None
    } else if occurs_at(s, p, j) {
        Some(j)
    } else {
        rfind_before(s, p, j - 1)
    }
}

/// `s.split(p).last()` for a non-empty `p`: the part behind the last occurrence.
pub open spec fn after_last(s: Seq<char>, p: Seq<char>) -> Seq<char> {
    match rfind_before(s, p, s.len() - p.len()) {
        Some(k) => s.subrange(k + p.len(), s.len() as int),
        None => s,
    }
}

pub fn strip_all_prefix_chars(s: &[char], p: &[char]) -> (r: Vec<char>)
    ensures
        r@ == strip_all_prefix(s@, p@),
{
    let mut i: usize = 0;
    assert(s@.subrange(0, s@.len() as int) =~= s@);
    if p.len() > 0 {
        while i <= s.len() && matches_at(s, p, i)
            invariant
                p@.len() > 0,
                i <= s@.len(),
                strip_all_prefix(s@, p@) == strip_all_prefix(s@.subrange(i as int, s@.len() as int), p@),
            decreases s@.len() - i,
        {
            let ghost t = s@.subrange(i as int, s@.len() as int);
            assert(t.subrange(0, p@.len() as int) =~= s@.subrange(i as int, i + p@.len()));
            assert(t.subrange(p@.len() as int, t.len() as int) =~= s@.subrange(
                i + p@.len(),
                s@.len() as int,
            ));
            i = i + p.len();
        }
        let ghost t = s@.subrange(i as int, s@.len() as int);
        assert(has_prefix(t, p@) ==> t.subrange(0, p@.len() as int) =~= s@.subrange(
            i as int,
            i + p@.len(),
        ));
    }
    assert(s@.subrange(0, s@.len() as int) =~= s@);
    slice_to_vec_chars(s, i, s.len())
}

/// Bounds of `strip_all_suffix_char(s[a..b], c)`.
pub fn strip_suffix_char_end(s: &[char], a: usize, b: usize, c: char) -> (r: usize)
    requires
        a <= b <= s@.len(),
    ensures
        a <= r <= b,
        strip_all_suffix_char(s@.subrange(a as int, b as int), c) == s@.subrange(a as int, r as int),
{
    let mut k = b;
    while k > a && s[k - 1] == c
        invariant
            a <= k <= b <= s@.len(),
            strip_all_suffix_char(s@.subrange(a as int, b as int), c) == strip_all_suffix_char(
                s@.subrange(a as int, k as int),
                c,
            ),
        decreases k - a,
    {
        assert(s@.subrange(a as int, k as int).drop_last() =~= s@.subrange(a as int, k - 1));
        k = k - 1;
    }
    k
}

/// Bounds of `strip_all_prefix_char(s[a..b], c)`.
pub fn strip_prefix_char_start(s: &[char], a: usize, b: usize, c: char) -> (r: usize)
    requires
        a <= b <= s@.len(),
    ensures
        a <= r <= b,
        strip_all_prefix_char(s@.subrange(a as int, b as int), c) == s@.subrange(r as int, b as int),
{
    let mut k = a;
    while k < b && s[k] == c
        invariant
            a <= k <= b <= s@.len(),
            strip_all_prefix_char(s@.subrange(a as int, b as int), c) == strip_all_prefix_char(
                s@.subrange(k as int, b as int),
                c,
            ),
        decreases b - k,
    {
        assert(s@.subrange(k as int, b as int).drop_first() =~= s@.subrange(k + 1, b as int));
        k = k + 1;
    }
    k
}

pub fn strip_all_suffix_chars(s: &[char], c: char) -> (r: Vec<char>)
    ensures
        r@ == strip_all_suffix_char(s@, c),
{
    let e = strip_suffix_char_end(s, 0, s.len(), c);
    assert(s@.subrange(0, s@.len() as int) =~= s@);
    slice_to_vec_chars(s, 0, e)
}

pub fn strip_both_chars(s: &[char], c: char) -> (r: Vec<char>)
    ensures
        r@ == strip_both_char(s@, c),
{
    let a = strip_prefix_char_start(s, 0, s.len(), c);
    assert(s@.subrange(0, s@.len() as int) =~= s@);
    let b = strip_suffix_char_end(s, a, s.len(), c);
    slice_to_vec_chars(s, a, b)
}

/// `s.split(p).next()`, copied.
pub fn before_chars(s: &[char], p: &[char]) -> (r: Vec<char>)
    ensures
        r@ == before(s@, p@),
{
    proof {
        lemma_find_from_bounds(s@, p@, 0);
    }
    let fk = find_chars(s, p);
    match fk {
        Some(k) => {
            assert(find(s@, p@) == Some(k as int));
            slice_to_vec_chars(s, 0, k)
        },
        None => {
            assert(s@.subrange(0, s@.len() as int) =~= s@);
            slice_to_vec_chars(s, 0, s.len())
        },
    }
}

/// `s.split(p).last()` for a non-empty `p`, copied.
pub fn after_last_chars(s: &[char], p: &[char]) -> (r: Vec<char>)
    requires
        p@.len() > 0,
    ensures
        r@ == after_last(s@, p@),
{
    if p.len() > s.len() {
        assert(rfind_before(s@, p@, s@.len() - p@.len()) is None);
        assert(s@.subrange(0, s@.len() as int) =~= s@);
        return slice_to_vec_chars(s, 0, s.len());
    }
    let mut j: usize = s.len() - p.len();
    loop
        invariant
            j + p.len() <= s.len(),
            p@.len() > 0,
            after_last(s@, p@) == match rfind_before(s@, p@, j as int) {
                Some(k) => s@.subrange(k + p@.len(), s@.len() as int),
                None => s@,
            },
        decreases j,
    {
        if matches_at(s, p, j) {
            return slice_to_vec_chars(s, j + p.len(), s.len());
        }
        if j == 0 {
            assert(rfind_before(s@, p@, -1) is None);
            assert(s@.subrange(0, s@.len() as int) =~= s@);
            return slice_to_vec_chars(s, 0, s.len());
        }
        j = j - 1;
    }
}

/// Whether `c` is uppercase in Unicode (`char::is_uppercase`).
pub uninterp spec fn uppercase_char(c: char) -> bool;

/// `char::is_uppercase`: the Unicode `Uppercase` property, left to the
/// name `uppercase_char`; its documentation gives `A`..`Z` as uppercase and
/// `a`..`z` and the digits as not.
#[verifier::external_body]
pub(crate) fn is_uppercase(c: char) -> (r: bool)
    ensures
        r == uppercase_char(c),
        'A' <= c <= 'Z' ==> r,
        ('a' <= c <= 'z') || ('0' <= c <= '9') ==> !r,
{
    c.is_uppercase()
}

} // verus!

verus! {

pub proof fn lemma_utf8_len_concat(a: Seq<char>, b: Seq<char>)
    ensures
        utf8_len(a + b) == utf8_len(a) + utf8_len(b),
    decreases b.len(),
{
    if b.len() > 0 {
        lemma_utf8_len_concat(a, b.drop_last());
        assert((a + b).drop_last() =~= a + b.drop_last());
    } else {
        assert(a + b =~= a);
    }
}

/// Byte width of the indentation of `s` and byte length of `s`.
pub fn indent_and_len(s: &[char]) -> (r: (u128, u128))
    ensures
        r.1 == utf8_len(s@),
        r.0 == utf8_len(s@) - utf8_len(trim_start(s@)),
{
    let a = leading_ws_len(s, 0, s.len());
    let head = utf8_len_of(s, 0, a);
    let whole = utf8_len_of(s, 0, s.len());
    proof {
        assert(s@.subrange(0, s@.len() as int) =~= s@);
        assert(s@ =~= s@.subrange(0, a as int) + s@.subrange(a as int, s@.len() as int));
        lemma_utf8_len_concat(s@.subrange(0, a as int), s@.subrange(a as int, s@.len() as int));
    }
    (head, whole)
}

/// The texts one after the other.
pub open spec fn concat_all(ts: Seq<Seq<char>>) -> Seq<char>
    decreases ts.len(),
{
    if ts.len() == 0 {
        seq![]
    } else {
        concat_all(ts.drop_last()) + ts.last()
    }
}

/// The texts separated by `sep`, as `join` puts them.
pub open spec fn joined(ts: Seq<Seq<char>>, sep: Seq<char>) -> Seq<char>
    decreases ts.len(),
{
    if ts.len() == 0 {
        seq![]
    } else if ts.len() == 1 {
        ts[0]
    } else {
        joined(ts.drop_last(), sep) + sep + ts.last()
    }
}

/// `s` padded with spaces on the right to `width` characters, as `{:<width}` prints it.
pub open spec fn pad_right(s: Seq<char>, width: nat) -> Seq<char> {
    if s.len() >= width {
        s
    } else {
        s + Seq::new((width - s.len()) as nat, |i: int| ' ')
    }
}

/// Appends `s` padded with spaces to `width` characters.
pub fn push_padded(out: &mut String, s: &str, width: usize)
    ensures
        final(out)@ == old(out)@ + pad_right(s@, width as nat),
{
    out.append(s);
    let n = s.unicode_len();
    let ghost base = out@;
    if n < width {
        let mut k: usize = n;
        assert(base + Seq::new(0, |i: int| ' ') =~= base);
        while k < width
            invariant
                n <= k <= width,
                out@ == base + Seq::new((k - n) as nat, |i: int| ' '),
            decreases width - k,
        {
            let ghost before = out@;
            push_char(out, ' ');
            assert(base + Seq::new((k + 1 - n) as nat, |i: int| ' ') =~= before.push(' '));
            k = k + 1;
        }
        assert(out@ =~= old(out)@ + pad_right(s@, width as nat));
    }
}

/// Appending a text to the list appends it to the concatenation.
pub proof fn lemma_concat_all_push(ts: Seq<Seq<char>>, t: Seq<char>)
    ensures
        concat_all(ts.push(t)) == concat_all(ts) + t,
{
    assert(ts.push(t).drop_last() =~= ts);
}

/// Appending a text to the list appends the separator and the text to the join.
pub proof fn lemma_joined_push(ts: Seq<Seq<char>>, sep: Seq<char>, t: Seq<char>)
    ensures
        joined(ts.push(t), sep) == if ts.len() == 0 {
            t
        } else {
            joined(ts, sep) + sep + t
        },
{
    assert(ts.push(t).drop_last() =~= ts);
}

/// The decimal text of a number consists of digits and reads back as the number.
pub proof fn lemma_decimal_digits(n: nat)
    ensures
        decimal(n).len() > 0,
        all_digits(decimal(n)),
        digits_value(decimal(n)) == n,
    decreases n,
{
    let c = digit_char(n % 10);
    assert((c as u32) == 48 + n % 10);
    if n < 10 {
        assert(decimal(n) =~= seq![c]);
        assert(seq![c].drop_last() =~= Seq::<char>::empty());
        assert(digits_value(decimal(n)) == digits_value(Seq::<char>::empty()) * 10 + ((c as u32) - 48) as nat);
        assert(n % 10 == n);
    } else {
        lemma_decimal_digits(n / 10);
        let d = decimal(n);
        assert(d.drop_last() =~= decimal(n / 10));
        assert((n / 10) * 10 + n % 10 == n) by (nonlinear_arith);
        assert(d.last() == c);
        assert(digits_value(d) == digits_value(decimal(n / 10)) * 10 + ((c as u32) - 48) as nat);
        assert forall|i: int| 0 <= i < d.len() implies is_digit(#[trigger] d[i]) by {
            if i < d.len() - 1 {
                assert(d[i] == decimal(n / 10)[i]);
            }
        }
    }
}

/// Printing a number in decimal and reading it back gives the number.
pub proof fn lemma_parse_decimal(n: u64)
    ensures
        parse_u64_spec(decimal(n as nat)) == Some(n),
{
    lemma_decimal_digits(n as nat);
    let d = decimal(n as nat);
    assert(is_digit(d[0]));
}

} // verus!
