//! Byte and character helpers shared by the parsers of this crate.

use vstd::prelude::*;

verus! {

/// An ASCII hexadecimal digit, in either case.
pub open spec fn is_hex_byte(b: u8) -> bool {
    (48 <= b <= 57) || (65 <= b <= 70) || (97 <= b <= 102)
}

/// ASCII lower-casing of one byte; every other byte is kept.
pub open spec fn ascii_lower_byte(b: u8) -> u8 {
    if 65 <= b <= 90 { (b + 32) as u8 } else { b }
}

/// The character that an ASCII byte stands for.
pub open spec fn byte_char(b: u8) -> char {
    (b as u32) as char
}

/// `s` holds `pat` from position `i` on.
pub open spec fn bytes_at(s: Seq<u8>, i: int, pat: Seq<u8>) -> bool {
    0 <= i && i + pat.len() <= s.len() && s.subrange(i, i + pat.len()) == pat
}

pub fn is_hex_digit(b: u8) -> (r: bool)
    ensures
        r == is_hex_byte(b),
{
    (48 <= b && b <= 57) || (65 <= b && b <= 70) || (97 <= b && b <= 102)
}

pub fn to_ascii_lower(b: u8) -> (r: u8)
    ensures
        r == ascii_lower_byte(b),
{
    if 65 <= b && b <= 90 {
        b + 32
    } else {
        b
    }
}

/// Checks whether `s` holds `pat` from position `i` on.
pub fn match_bytes_at(s: &[u8], i: usize, pat: &[u8]) -> (r: bool)
    ensures
        r == bytes_at(s@, i as int, pat@),
{
    if i > s.len() || pat.len() > s.len() - i {
        return false;
    }
    let mut k: usize = 0;
    while k < pat.len()
        invariant
            i + pat.len() <= s.len(),
            k <= pat.len(),
            forall|j: int| 0 <= j < k ==> s@[i + j] == pat@[j],
        decreases pat.len() - k,
    {
        if s[i + k] != pat[k] {
            assert(s@.subrange(i as int, i + pat.len())[k as int] != pat@[k as int]);
            return false;
        }
        k = k + 1;
    }
    assert(s@.subrange(i as int, i + pat.len()) =~= pat@);
    true
}

/// Appends one character to a string.
#[verifier::external_body]
pub(crate) fn push_char(s: &mut String, c: char)
    ensures
        final(s)@ == old(s)@.push(c),
{
    s.push(c);
}

/// The character of an ASCII byte.
pub fn ascii_char(b: u8) -> (c: char)
    requires
        b < 128,
    ensures
        c == byte_char(b),
{
    b as char
}


/// The length of the UTF-8 encoding of a Unicode `White_Space` character at
/// position `i` of `s`, or 0 when none starts there.
pub open spec fn ws_len(s: Seq<u8>, i: int) -> int {
    if !(0 <= i < s.len()) {
        0
    } else {
        let b = s[i];
        if b == 9 || b == 10 || b == 11 || b == 12 || b == 13 || b == 32 {
            1
        } else if b == 0xC2 && i + 1 < s.len() && (s[i + 1] == 0x85 || s[i + 1] == 0xA0) {
            2
        } else if i + 2 < s.len() && ((b == 0xE1 && s[i + 1] == 0x9A && s[i + 2] == 0x80) || (b
            == 0xE2 && s[i + 1] == 0x80 && ((0x80 <= s[i + 2] <= 0x8A) || s[i + 2] == 0xA8
            || s[i + 2] == 0xA9 || s[i + 2] == 0xAF)) || (b == 0xE2 && s[i + 1] == 0x81 && s[i
            + 2] == 0x9F) || (b == 0xE3 && s[i + 1] == 0x80 && s[i + 2] == 0x80)) {
            3
        } else {
            0
        }
    }
}

/// The length of a whitespace character other than a newline at position
/// `i`, or 0.
pub open spec fn line_ws_len(s: Seq<u8>, i: int) -> int {
    if 0 <= i < s.len() && s[i] == 10 {
        0
    } else {
        ws_len(s, i)
    }
}

/// The end of the run of whitespace that starts at `p` and stays on its
/// line.
pub open spec fn line_ws_run_end(s: Seq<u8>, p: int) -> int
    decreases s.len() - p,
{
    if 0 <= p < s.len() && line_ws_len(s, p) > 0 {
        line_ws_run_end(s, p + line_ws_len(s, p))
    } else {
        p
    }
}

/// The number of hexadecimal digits that follow each other from `q` on.
pub open spec fn hex_run_len(s: Seq<u8>, q: int) -> int
    decreases s.len() - q,
{
    if 0 <= q < s.len() && is_hex_byte(s[q]) {
        1 + hex_run_len(s, q + 1)
    } else {
        0
    }
}

pub proof fn lemma_hex_run_nonneg(s: Seq<u8>, q: int)
    ensures
        0 <= hex_run_len(s, q) <= if q <= s.len() { s.len() - q } else { 0 },
    decreases s.len() - q,
{
    if 0 <= q < s.len() && is_hex_byte(s[q]) {
        lemma_hex_run_nonneg(s, q + 1);
    }
}

/// The lower-cased characters of the `n` ASCII bytes of `s` from `start` on.
pub open spec fn lower_chars(s: Seq<u8>, start: int, n: int) -> Seq<char> {
    Seq::new(n as nat, |k: int| byte_char(ascii_lower_byte(s[start + k])))
}

/// The length of the whitespace character at `i`, or 0.
pub fn ws_len_at(s: &[u8], i: usize) -> (r: usize)
    ensures
        r as int == ws_len(s@, i as int),
        r <= 3,
{
    if i >= s.len() {
        return 0;
    }
    let b = s[i];
    if b == 9 || b == 10 || b == 11 || b == 12 || b == 13 || b == 32 {
        return 1;
    }
    if b == 0xC2 && i + 1 < s.len() && (s[i + 1] == 0x85 || s[i + 1] == 0xA0) {
        return 2;
    }
    if s.len() - i > 2 {
        let b1 = s[i + 1];
        let b2 = s[i + 2];
        if (b == 0xE1 && b1 == 0x9A && b2 == 0x80) || (b == 0xE2 && b1 == 0x80 && ((0x80 <= b2
            && b2 <= 0x8A) || b2 == 0xA8 || b2 == 0xA9 || b2 == 0xAF)) || (b == 0xE2 && b1 == 0x81
            && b2 == 0x9F) || (b == 0xE3 && b1 == 0x80 && b2 == 0x80) {
            return 3;
        }
    }
    0
}

/// Skips the run of whitespace that starts at `p` and stays on its line.
pub fn skip_line_ws(s: &[u8], p: usize) -> (r: usize)
    requires
        p <= s.len(),
    ensures
        r as int == line_ws_run_end(s@, p as int),
        p <= r <= s.len(),
{
    let mut cur = p;
    while cur < s.len() && s[cur] != 10 && ws_len_at(s, cur) > 0
        invariant
            p <= cur <= s.len(),
            line_ws_run_end(s@, cur as int) == line_ws_run_end(s@, p as int),
        decreases s.len() - cur,
    {
        let n = ws_len_at(s, cur);
        cur = cur + n;
    }
    cur
}

/// Counts the hexadecimal digits from `q` on, stopping once `limit` is passed.
pub fn count_hex_run(s: &[u8], q: usize, limit: usize) -> (r: usize)
    requires
        q <= s.len(),
        limit < usize::MAX,
    ensures
        r <= limit + 1,
        r <= limit ==> r as int == hex_run_len(s@, q as int),
        r > limit ==> hex_run_len(s@, q as int) > limit,
{
    let mut n: usize = 0;
    while q + n < s.len() && n <= limit && is_hex_digit(s[q + n])
        invariant
            q + n <= s.len(),
            n <= limit + 1,
            hex_run_len(s@, q as int) == n + hex_run_len(s@, (q + n) as int),
        decreases s.len() - (q + n),
    {
        n = n + 1;
    }
    proof {
        lemma_hex_run_nonneg(s@, (q + n) as int);
    }
    n
}

/// The lower-cased string of the `n` hexadecimal digits of `s` from `start` on.
pub fn lower_hex_string(s: &[u8], start: usize, n: usize) -> (r: String)
    requires
        start + n <= s.len(),
        forall|k: int| start <= k < start + n ==> is_hex_byte(s@[k]),
    ensures
        r@ == lower_chars(s@, start as int, n as int),
{
    let mut out = String::new();
    let mut k: usize = 0;
    while k < n
        invariant
            k <= n,
            start + n <= s.len(),
            forall|j: int| start <= j < start + n ==> is_hex_byte(s@[j]),
            out@ == lower_chars(s@, start as int, k as int),
        decreases n - k,
    {
        let b = to_ascii_lower(s[start + k]);
        let c = ascii_char(b);
        push_char(&mut out, c);
        k = k + 1;
        assert(out@ =~= lower_chars(s@, start as int, k as int));
    }
    out
}

/// The Unicode `White_Space` property.
pub open spec fn is_white_space(c: char) -> bool {
    let u = c as u32;
    (9 <= u <= 13) || u == 32 || u == 0x85 || u == 0xA0 || u == 0x1680 || (0x2000 <= u
        <= 0x200A) || u == 0x2028 || u == 0x2029 || u == 0x202F || u == 0x205F || u == 0x3000
}

/// Whether a character has the Unicode `White_Space` property, as
/// `char::is_whitespace` decides.
pub fn char_is_whitespace(c: char) -> (r: bool)
    ensures
        r == is_white_space(c),
{
    let u = c as u32;
    (9 <= u && u <= 13) || u == 32 || u == 0x85 || u == 0xA0 || u == 0x1680 || (0x2000 <= u && u
        <= 0x200A) || u == 0x2028 || u == 0x2029 || u == 0x202F || u == 0x205F || u == 0x3000
}

/// An ASCII decimal digit.
pub open spec fn is_digit_char(c: char) -> bool {
    '0' <= c <= '9'
}

/// An ASCII hexadecimal digit character, in either case.
pub open spec fn is_hex_char(c: char) -> bool {
    ('0' <= c <= '9') || ('a' <= c <= 'f') || ('A' <= c <= 'F')
}

pub fn char_is_digit(c: char) -> (r: bool)
    ensures
        r == is_digit_char(c),
{
    '0' <= c && c <= '9'
}

pub fn char_is_hex(c: char) -> (r: bool)
    ensures
        r == is_hex_char(c),
{
    ('0' <= c && c <= '9') || ('a' <= c && c <= 'f') || ('A' <= c && c <= 'F')
}

/// The characters of a string slice.
pub fn chars_of(s: &str) -> (r: Vec<char>)
    ensures
        r@ == s@,
{
    let mut out: Vec<char> = Vec::new();
    for c in it: s.chars()
        invariant
            out@ == it.seq().take(it.index() as int),
    {
        out.push(c);
    }
    out
}

/// Lexicographic order of two texts from position `i` on, by code point,
/// a proper prefix coming first. On UTF-8 strings this is the byte order
/// that `str`'s `Ord` uses.
pub open spec fn text_lt_from(a: Seq<char>, b: Seq<char>, i: int) -> bool
    decreases a.len() - i,
{
    if i < 0 || i >= b.len() {
        false
    } else if i >= a.len() {
        true
    } else if a[i] != b[i] {
        a[i] < b[i]
    } else {
        text_lt_from(a, b, i + 1)
    }
}

/// `a` sorts strictly before `b`.
pub open spec fn text_lt(a: Seq<char>, b: Seq<char>) -> bool {
    text_lt_from(a, b, 0)
}

pub proof fn lemma_text_lt_from_trans(a: Seq<char>, b: Seq<char>, c: Seq<char>, i: int)
    requires
        text_lt_from(a, b, i),
        text_lt_from(b, c, i),
    ensures
        text_lt_from(a, c, i),
    decreases a.len() - i,
{
    if i < a.len() && a[i] == b[i] && b[i] == c[i] {
        lemma_text_lt_from_trans(a, b, c, i + 1);
    }
}

pub proof fn lemma_text_lt_from_asym(a: Seq<char>, b: Seq<char>, i: int)
    requires
        text_lt_from(a, b, i),
    ensures
        !text_lt_from(b, a, i),
    decreases a.len() - i,
{
    if i < a.len() && a[i] == b[i] {
        lemma_text_lt_from_asym(a, b, i + 1);
    }
}

pub proof fn lemma_text_lt_from_total(a: Seq<char>, b: Seq<char>, i: int)
    requires
        0 <= i <= a.len(),
        i <= b.len(),
        a.take(i) == b.take(i),
        a != b,
    ensures
        text_lt_from(a, b, i) || text_lt_from(b, a, i),
    decreases a.len() - i,
{
    if i == a.len() && i == b.len() {
        assert(a == a.take(i));
        assert(b == b.take(i));
    } else if i < a.len() && i < b.len() && a[i] == b[i] {
        assert(a.take(i + 1) == a.take(i).push(a[i]));
        assert(b.take(i + 1) == b.take(i).push(b[i]));
        lemma_text_lt_from_total(a, b, i + 1);
    }
}

/// The text order is a strict total order.
pub proof fn lemma_text_lt_order(a: Seq<char>, b: Seq<char>, c: Seq<char>)
    ensures
        text_lt(a, b) && text_lt(b, c) ==> text_lt(a, c),
        text_lt(a, b) ==> !text_lt(b, a),
        a != b ==> text_lt(a, b) || text_lt(b, a),
        !text_lt(a, a),
{
    if text_lt(a, b) && text_lt(b, c) {
        lemma_text_lt_from_trans(a, b, c, 0);
    }
    if text_lt(a, b) {
        lemma_text_lt_from_asym(a, b, 0);
    }
    if a != b {
        assert(a.take(0) == b.take(0));
        lemma_text_lt_from_total(a, b, 0);
    }
    if text_lt(a, a) {
        lemma_text_lt_from_asym(a, a, 0);
    }
}

/// Whether `a` sorts strictly before `b`, as `a < b` on `str` decides.
pub fn str_lt(a: &str, b: &str) -> (r: bool)
    ensures
        r == text_lt(a@, b@),
{
    let x = chars_of(a);
    let y = chars_of(b);
    let mut i: usize = 0;
    while i < x.len() && i < y.len() && x[i] == y[i]
        invariant
            i <= x.len(),
            i <= y.len(),
            x@ == a@,
            y@ == b@,
            text_lt_from(a@, b@, 0) == text_lt_from(a@, b@, i as int),
        decreases x.len() - i,
    {
        i = i + 1;
    }
    if i >= y.len() {
        false
    } else if i >= x.len() {
        true
    } else {
        x[i] < y[i]
    }
}

/// The decimal digits of a number, without sign or leading zeros.
pub open spec fn decimal(n: nat) -> Seq<char>
    decreases n,
{
    if n < 10 {
        seq![byte_char((48 + n) as u8)]
    } else {
        decimal(n / 10).push(byte_char((48 + n % 10) as u8))
    }
}

/// Appends the decimal digits of `n`.
pub fn push_decimal(out: &mut String, n: u64)
    ensures
        final(out)@ == old(out)@ + decimal(n as nat),
    decreases n,
{
    if n >= 10 {
        push_decimal(out, n / 10);
    }
    let d = (n % 10) as u8;
    push_char(out, ascii_char(48 + d));
    proof {
        if n >= 10 {
            assert(final(out)@ =~= old(out)@ + decimal(n as nat));
        } else {
            assert(final(out)@ =~= old(out)@ + decimal(n as nat));
        }
    }
}

/// The decimal text of a number, as `to_string` writes it.
pub fn decimal_string(n: u64) -> (r: String)
    ensures
        r@ == decimal(n as nat),
{
    let mut out = String::new();
    push_decimal(&mut out, n);
    assert(out@ =~= decimal(n as nat));
    out
}

/// Number of leading whitespace characters.
pub open spec fn lead_ws(s: Seq<char>) -> int
    decreases s.len(),
{
    if s.len() > 0 && is_white_space(s[0]) {
        1 + lead_ws(s.drop_first())
    } else {
        0
    }
}

/// Number of trailing whitespace characters.
pub open spec fn trail_ws(s: Seq<char>) -> int
    decreases s.len(),
{
    if s.len() > 0 && is_white_space(s.last()) {
        1 + trail_ws(s.drop_last())
    } else {
        0
    }
}

/// A text without its leading and trailing whitespace, as `str::trim` gives it.
pub open spec fn trim_chars(s: Seq<char>) -> Seq<char> {
    if lead_ws(s) >= s.len() {
        Seq::empty()
    } else {
        s.subrange(lead_ws(s), s.len() - trail_ws(s))
    }
}

/// A whitespace prefix of `i` characters is counted in full.
pub proof fn lemma_lead_ws(s: Seq<char>, i: int)
    requires
        0 <= i <= s.len(),
        forall|k: int| 0 <= k < i ==> is_white_space(#[trigger] s[k]),
    ensures
        lead_ws(s) == i + lead_ws(s.skip(i)),
    decreases i,
{
    if i > 0 {
        assert(s.skip(1) == s.drop_first());
        lemma_lead_ws(s.drop_first(), i - 1);
        assert(s.drop_first().skip(i - 1) == s.skip(i));
    } else {
        assert(s.skip(0) == s);
    }
}

proof fn lemma_trail_ws(s: Seq<char>, j: int)
    requires
        0 <= j <= s.len(),
        forall|k: int| j <= k < s.len() ==> is_white_space(#[trigger] s[k]),
    ensures
        trail_ws(s) == (s.len() - j) + trail_ws(s.take(j)),
    decreases s.len() - j,
{
    if j < s.len() {
        assert(s.take(s.len() - 1) == s.drop_last());
        lemma_trail_ws(s.drop_last(), j);
        assert(s.drop_last().take(j) == s.take(j));
    } else {
        assert(s.take(j) == s);
    }
}

proof fn lemma_ws_bounds(s: Seq<char>)
    ensures
        0 <= lead_ws(s) <= s.len(),
        0 <= trail_ws(s) <= s.len(),
    decreases s.len(),
{
    if s.len() > 0 {
        lemma_ws_bounds(s.drop_first());
        lemma_ws_bounds(s.drop_last());
    }
}

/// The characters of `s[from..to]` without leading and trailing whitespace.
pub fn trim_range(s: &Vec<char>, from: usize, to: usize) -> (r: String)
    requires
        from <= to <= s@.len(),
    ensures
        r@ == trim_chars(s@.subrange(from as int, to as int)),
{
    let ghost t = s@.subrange(from as int, to as int);
    let mut i: usize = from;
    while i < to && char_is_whitespace(s[i])
        invariant
            from <= i <= to <= s@.len(),
            t == s@.subrange(from as int, to as int),
            forall|k: int| 0 <= k < i - from ==> is_white_space(#[trigger] t[k]),
        decreases to - i,
    {
        i = i + 1;
    }
    proof {
        lemma_lead_ws(t, i - from);
        lemma_ws_bounds(t.skip(i - from));
    }
    let mut out = String::new();
    if i == to {
        assert(lead_ws(t) >= t.len());
        return out;
    }
    assert(lead_ws(t.skip(i - from)) == 0);
    let mut j: usize = to;
    while j > i && char_is_whitespace(s[j - 1])
        invariant
            from <= i < to,
            i <= j <= to <= s@.len(),
            t == s@.subrange(from as int, to as int),
            forall|k: int| j - from <= k < t.len() ==> is_white_space(#[trigger] t[k]),
        decreases j - i,
    {
        j = j - 1;
    }
    proof {
        lemma_trail_ws(t, j - from);
        assert(!is_white_space(t[i - from]));
        assert(j > i);
        assert(trail_ws(t.take(j - from)) == 0);
        lemma_ws_bounds(t);
    }
    let mut k: usize = i;
    while k < j
        invariant
            i <= k <= j <= to <= s@.len(),
            out@ == s@.subrange(i as int, k as int),
        decreases j - k,
    {
        push_char(&mut out, s[k]);
        k = k + 1;
        assert(out@ =~= s@.subrange(i as int, k as int));
    }
    assert(t.subrange(lead_ws(t), t.len() - trail_ws(t)) =~= s@.subrange(i as int, j as int));
    out
}

/// Whether the `regex` crate compiles a pattern.
pub uninterp spec fn regex_compiles(pattern: Seq<char>) -> bool;

/// Whether a compiled `regex::Regex` finds a match of the pattern in a text.
pub uninterp spec fn regex_matches(pattern: Seq<char>, text: Seq<char>) -> bool;

/// The pattern of a duration: `^\d+[hdw]$`.
pub open spec fn duration_pattern() -> Seq<char> {
    "^\\d+[hdw]$"@
}

/// The pattern of a duration with its two parts captured: `^(\d+)([hdw])$`.
pub open spec fn duration_capture_pattern() -> Seq<char> {
    "^(\\d+)([hdw])$"@
}

/// One or more ASCII digits followed by `h`, `d` or `w`.
pub open spec fn is_ascii_duration(s: Seq<char>) -> bool {
    &&& s.len() >= 2
    &&& forall|i: int| 0 <= i < s.len() - 1 ==> is_digit_char(#[trigger] s[i])
    &&& (s.last() == 'h' || s.last() == 'd' || s.last() == 'w')
}

/// Runs `regex::Regex::new(pattern)` and `is_match(text)`.
///
/// Claims that the result is `None` exactly when the pattern does not
/// compile and otherwise is the crate's answer; and, of the two duration
/// patterns only, that they compile (they are valid regex syntax) and that
/// on an ASCII text `\d` matches the ASCII digits, so the text matches
/// exactly when it is digits followed by `h`, `d` or `w`.
#[verifier::external_body]
pub(crate) fn regex_is_match(pattern: &str, text: &str) -> (r: Option<bool>)
    ensures
        r.is_some() == regex_compiles(pattern@),
        (pattern@ == duration_pattern() || pattern@ == duration_capture_pattern()) ==> r is Some,
        r matches Some(b) ==> b == regex_matches(pattern@, text@),
        r matches Some(b) ==> ((pattern@ == duration_pattern() || pattern@
            == duration_capture_pattern()) && vstd::utf8::is_ascii_chars(text@) ==> (b
            <==> is_ascii_duration(text@))),
{
    match regex::Regex::new(pattern) {
        Ok(re) => Some(re.is_match(text)),
        Err(_) => None,
    }
}

} // verus!
