//! Patch-IDs: the 20-byte identity of a change that `git patch-id --stable`
//! gives, used to match manual reverts with the commits they undo.

use vstd::prelude::*;
use vstd::string::StringSliceAdditionalSpecFns;
use vstd::utf8::{encode_utf8, is_ascii_chars_encode_utf8};
use crate::text::{
    ascii_char, ascii_lower_byte, byte_char, char_is_whitespace, chars_of, is_hex_byte, is_white_space, lead_ws,
    lemma_lead_ws, push_char,
};

verus! {

/// A computed patch-ID (20 bytes, same as git's SHA-1 output).
#[derive(Debug, Clone, PartialEq, Eq)]
pub struct PatchId(pub [u8; 20]);

/// Why a hexadecimal patch-ID could not be read.
#[derive(Debug, Clone, Copy, PartialEq, Eq, Structural)]
pub enum PatchIdError {
    /// The text is not 40 bytes long.
    WrongLength,
    /// A two-byte group is not valid UTF-8.
    InvalidUtf8,
    /// A two-byte group is not a number in base 16.
    InvalidDigit,
}

/// The value of an ASCII hexadecimal digit.
pub open spec fn hex_value(b: u8) -> int {
    if 48 <= b <= 57 {
        b - 48
    } else if 65 <= b <= 70 {
        b - 55
    } else {
        b - 87
    }
}

/// Two bytes form valid UTF-8: two ASCII bytes, or one two-byte character.
pub open spec fn pair_is_utf8(a: u8, b: u8) -> bool {
    (a < 128 && b < 128) || (0xC2 <= a <= 0xDF && 0x80 <= b <= 0xBF)
}

/// The byte that two hexadecimal digits write; no other pair is read.
pub open spec fn pair_value(a: u8, b: u8) -> Option<u8> {
    if is_hex_byte(a) && is_hex_byte(b) {
        Some((16 * hex_value(a) + hex_value(b)) as u8)
    } else {
        None
    }
}

/// The bytes that the first `k` two-byte groups of `s` stand for.
pub open spec fn decode_pairs(s: Seq<u8>, k: int) -> Result<Seq<u8>, PatchIdError>
    decreases k,
{
    if k <= 0 {
        Ok(seq![])
    } else {
        match decode_pairs(s, k - 1) {
            Err(e) => Err(e),
            Ok(v) => {
                let a = s[2 * (k - 1)];
                let b = s[2 * (k - 1) + 1];
                if !pair_is_utf8(a, b) {
                    Err(PatchIdError::InvalidUtf8)
                } else {
                    match pair_value(a, b) {
                        Some(x) => Ok(v.push(x)),
                        None => Err(PatchIdError::InvalidDigit),
                    }
                }
            },
        }
    }
}

/// The patch-ID bytes that a hexadecimal text stands for.
pub open spec fn patch_id_of_hex(s: Seq<u8>) -> Result<Seq<u8>, PatchIdError> {
    if s.len() != 40 {
        Err(PatchIdError::WrongLength)
    } else {
        decode_pairs(s, 20)
    }
}

/// The lower-case hexadecimal digit of a value below 16.
pub open spec fn hex_digit(v: int) -> char {
    if v < 10 {
        byte_char((48 + v) as u8)
    } else {
        byte_char((87 + v) as u8)
    }
}

/// Two lower-case hexadecimal digits per byte.
pub open spec fn hex_chars(bytes: Seq<u8>) -> Seq<char> {
    Seq::new(
        2 * bytes.len(),
        |i: int|
            if i % 2 == 0 {
                hex_digit((bytes[i / 2] / 16) as int)
            } else {
                hex_digit((bytes[i / 2] % 16) as int)
            },
    )
}

pub open spec fn patch_id_result(r: Result<PatchId, PatchIdError>) -> Result<Seq<u8>, PatchIdError> {
    match r {
        Ok(p) => Ok(p.0@),
        Err(e) => Err(e),
    }
}

fn hex_digit_value(b: u8) -> (r: u8)
    requires
        is_hex_byte(b),
    ensures
        r as int == hex_value(b),
        r < 16,
{
    if 48 <= b && b <= 57 {
        b - 48
    } else if 65 <= b && b <= 70 {
        b - 55
    } else {
        b - 87
    }
}

fn hex_digit_char(v: u8) -> (c: char)
    requires
        v < 16,
    ensures
        c == hex_digit(v as int),
{
    if v < 10 {
        ascii_char(48 + v)
    } else {
        ascii_char(87 + v)
    }
}

/// Lower-case hexadecimal text of a byte string, two digits per byte.
pub fn hex_string(bytes: &[u8]) -> (r: String)
    ensures
        r@ == hex_chars(bytes@),
{
    let mut out = String::new();
    let mut k: usize = 0;
    while k < bytes.len()
        invariant
            k <= bytes@.len(),
            out@ == hex_chars(bytes@).subrange(0, 2 * k),
        decreases bytes.len() - k,
    {
        let b = bytes[k];
        push_char(&mut out, hex_digit_char(b / 16));
        push_char(&mut out, hex_digit_char(b % 16));
        k = k + 1;
        assert(out@ =~= hex_chars(bytes@).subrange(0, 2 * k));
    }
    assert(hex_chars(bytes@).subrange(0, 2 * bytes@.len() as int) =~= hex_chars(bytes@));
    out
}

/// Once a group fails to decode, the whole text fails with the same error.
proof fn lemma_decode_error_stays(s: Seq<u8>, j: int, m: int)
    requires
        0 < j <= m,
        decode_pairs(s, j) is Err,
    ensures
        decode_pairs(s, m) == decode_pairs(s, j),
    decreases m - j,
{
    if m > j {
        lemma_decode_error_stays(s, j, m - 1);
    }
}

impl PatchId {
    /// Create from a hex string (40 chars).
    pub fn from_hex(hex: &str) -> (r: Result<PatchId, PatchIdError>)
        ensures
            patch_id_result(r) == patch_id_of_hex(hex.spec_bytes()),
    {
        let s = hex.as_bytes();
        if s.len() != 40 {
            return Err(PatchIdError::WrongLength);
        }
        let mut bytes = [0u8; 20];
        let mut k: usize = 0;
        assert(bytes@.subrange(0, 0) =~= seq![]);
        while k < 20
            invariant
                s@ == hex.spec_bytes(),
                s@.len() == 40,
                k <= 20,
                decode_pairs(s@, k as int) == Ok::<Seq<u8>, PatchIdError>(bytes@.subrange(0, k as int)),
            decreases 20 - k,
        {
            let a = s[2 * k];
            let b = s[2 * k + 1];
            let ok_utf8 = (a < 128 && b < 128) || (0xC2 <= a && a <= 0xDF && 0x80 <= b && b <= 0xBF);
            if !ok_utf8 {
                proof {
                    lemma_decode_error_stays(s@, k + 1, 20);
                }
                return Err(PatchIdError::InvalidUtf8);
            }
            let a_hex = (48 <= a && a <= 57) || (65 <= a && a <= 70) || (97 <= a && a <= 102);
            let b_hex = (48 <= b && b <= 57) || (65 <= b && b <= 70) || (97 <= b && b <= 102);
            let v: u8 = if a_hex && b_hex {
                16 * hex_digit_value(a) + hex_digit_value(b)
            } else {
                proof {
                    lemma_decode_error_stays(s@, k + 1, 20);
                }
                return Err(PatchIdError::InvalidDigit);
            };
            let ghost prev = bytes@;
            bytes[k] = v;
            assert(bytes@.subrange(0, k + 1) =~= prev.subrange(0, k as int).push(v));
            k = k + 1;
        }
        assert(bytes@.subrange(0, 20) =~= bytes@);
        Ok(PatchId(bytes))
    }

    /// Convert to hex string (40 chars).
    pub fn to_hex(&self) -> (r: String)
        ensures
            r@ == hex_chars(self.0@),
    {
        let mut out = String::new();
        let mut k: usize = 0;
        while k < 20
            invariant
                k <= 20,
                out@ == hex_chars(self.0@).subrange(0, 2 * k),
            decreases 20 - k,
        {
            let b = self.0[k];
            push_char(&mut out, hex_digit_char(b / 16));
            push_char(&mut out, hex_digit_char(b % 16));
            k = k + 1;
            assert(out@ =~= hex_chars(self.0@).subrange(0, 2 * k));
        }
        assert(hex_chars(self.0@).subrange(0, 40) =~= hex_chars(self.0@));
        out
    }

    /// Get raw bytes for DB storage.
    pub fn as_bytes(&self) -> (r: &[u8; 20])
        ensures
            r@ == self.0@,
    {
        &self.0
    }
}


/// Reading back the hexadecimal text of a patch-ID gives the same patch-ID:
/// `PatchId::from_hex(&p.to_hex())` is `Ok(p)` for every `p`.
pub proof fn lemma_hex_roundtrip(bytes: Seq<u8>)
    requires
        bytes.len() == 20,
    ensures
        patch_id_of_hex(encode_utf8(hex_chars(bytes))) == Ok::<Seq<u8>, PatchIdError>(bytes),
{
    let cs = hex_chars(bytes);
    assert forall|i: int| 0 <= i < cs.len() implies '\0' <= #[trigger] cs[i] <= '\u{7f}' by {
        let v = if i % 2 == 0 { bytes[i / 2] / 16 } else { bytes[i / 2] % 16 };
        assert(v < 16);
    }
    is_ascii_chars_encode_utf8(cs);
    let s = encode_utf8(cs);
    assert forall|i: int| 0 <= i < 40 implies #[trigger] s[i] == hex_byte_of(bytes, i) by {
        assert(cs[i] as u8 == s[i]);
    }
    lemma_decode_hex_prefix(bytes, s, 20);
    assert(bytes.subrange(0, 20) =~= bytes);
}

/// The lower-case form of a text of ASCII bytes, as characters.
pub open spec fn ascii_lower_text(s: Seq<u8>) -> Seq<char> {
    Seq::new(s.len(), |i: int| byte_char(ascii_lower_byte(s[i])))
}

proof fn lemma_decode_facts(s: Seq<u8>, k: int)
    requires
        0 <= k,
        2 * k <= s.len(),
    ensures
        decode_pairs(s, k) matches Ok(v) ==> v.len() == k && forall|j: int|
            0 <= j < k ==> is_hex_byte(#[trigger] s[2 * j]) && is_hex_byte(s[2 * j + 1]) && v[j]
                == 16 * hex_value(s[2 * j]) + hex_value(s[2 * j + 1]),
    decreases k,
{
    if k > 0 {
        lemma_decode_facts(s, k - 1);
        match decode_pairs(s, k) {
            Ok(v) => {
                let a = s[2 * (k - 1)];
                let b = s[2 * (k - 1) + 1];
                assert(is_hex_byte(a) && is_hex_byte(b));
                assert(0 <= hex_value(a) < 16 && 0 <= hex_value(b) < 16);
                assert(16 * hex_value(a) + hex_value(b) < 256);
            },
            Err(_) => {},
        }
    }
}

proof fn lemma_digit_lower(c: u8)
    requires
        is_hex_byte(c),
    ensures
        hex_digit(hex_value(c)) == byte_char(ascii_lower_byte(c)),
{
}

/// Writing back a patch-ID read from hexadecimal text gives the text in
/// lower case: `PatchId::from_hex(h)` then `to_hex` is `h` lower-cased.
pub proof fn lemma_hex_text_roundtrip(s: Seq<u8>)
    requires
        patch_id_of_hex(s) is Ok,
    ensures
        patch_id_of_hex(s) matches Ok(b) ==> hex_chars(b) == ascii_lower_text(s),
{
    lemma_decode_facts(s, 20);
    let b = patch_id_of_hex(s)->Ok_0;
    assert forall|i: int| 0 <= i < 40 implies #[trigger] hex_chars(b)[i] == ascii_lower_text(s)[i] by {
        let j = i / 2;
        assert(0 <= j < 20);
        let x = hex_value(s[2 * j]);
        let y = hex_value(s[2 * j + 1]);
        assert(is_hex_byte(s[2 * j]) && is_hex_byte(s[2 * j + 1]));
        assert(0 <= x < 16 && 0 <= y < 16);
        assert(b[j] == 16 * x + y);
        assert((16 * x + y) / 16 == x && (16 * x + y) % 16 == y) by (nonlinear_arith)
            requires
                0 <= x < 16,
                0 <= y < 16,
        ;
        lemma_digit_lower(s[2 * j]);
        lemma_digit_lower(s[2 * j + 1]);
        if i % 2 == 0 {
            assert(i == 2 * j);
        } else {
            assert(i == 2 * j + 1);
        }
    }
    assert(hex_chars(b) =~= ascii_lower_text(s));
}

/// The byte of the hexadecimal text of `bytes` at position `i`.
pub open spec fn hex_byte_of(bytes: Seq<u8>, i: int) -> u8 {
    let v = if i % 2 == 0 { bytes[i / 2] / 16 } else { bytes[i / 2] % 16 };
    if v < 10 { (48 + v) as u8 } else { (87 + v) as u8 }
}

proof fn lemma_decode_hex_prefix(bytes: Seq<u8>, s: Seq<u8>, k: int)
    requires
        bytes.len() == 20,
        s.len() == 40,
        0 <= k <= 20,
        forall|i: int| 0 <= i < 40 ==> #[trigger] s[i] == hex_byte_of(bytes, i),
    ensures
        decode_pairs(s, k) == Ok::<Seq<u8>, PatchIdError>(bytes.subrange(0, k)),
    decreases k,
{
    if k > 0 {
        lemma_decode_hex_prefix(bytes, s, k - 1);
        let b = bytes[k - 1];
        let a0 = s[2 * (k - 1)];
        let b0 = s[2 * (k - 1) + 1];
        assert(a0 == hex_byte_of(bytes, 2 * (k - 1)));
        assert(b0 == hex_byte_of(bytes, 2 * (k - 1) + 1));
        assert((2 * (k - 1)) / 2 == k - 1);
        assert((2 * (k - 1) + 1) / 2 == k - 1);
        assert((2 * (k - 1)) % 2 == 0);
        assert((2 * (k - 1) + 1) % 2 == 1);
        assert(hex_value(a0) == b / 16);
        assert(hex_value(b0) == b % 16);
        assert(16 * (b / 16) + b % 16 == b);
        assert(is_hex_byte(a0) && is_hex_byte(b0) && a0 < 128 && b0 < 128);
        assert(pair_value(a0, b0) == Some(b));
        assert(bytes.subrange(0, k) =~= bytes.subrange(0, k - 1).push(b));
    } else {
        assert(bytes.subrange(0, 0) =~= seq![]);
    }
}

// ---------------------------------------------------------------------------
// Asking git for a patch-ID
// ---------------------------------------------------------------------------

/// The object id of git's empty tree, the base of a root commit's diff.
pub open spec fn empty_tree_oid() -> Seq<char> {
    "4b825dc642cb6eb9a060e54bf8d69288fbee4904"@
}

/// The range whose diff gives a commit's patch-ID: from its first parent (or
/// the empty tree) to the commit, or the other way round for the reverse
/// patch-ID.
pub open spec fn diff_range_text(commit_sha: Seq<char>, parent: Option<Seq<char>>, reverse: bool) -> Seq<char> {
    let base = match parent {
        Some(p) => p,
        None => empty_tree_oid(),
    };
    if reverse {
        commit_sha + ".."@ + base
    } else {
        base + ".."@ + commit_sha
    }
}

/// The text of an optional string slice.
pub open spec fn str_view_opt(o: Option<&str>) -> Option<Seq<char>> {
    match o {
        Some(p) => Some(p@),
        None => None,
    }
}

/// The arguments of the `git diff` whose output `git patch-id --stable`
/// reads: `diff` and the range of `diff_range_text`.
pub fn patch_id_diff_args(commit_sha: &str, parent: Option<&str>, reverse: bool) -> (r: Vec<String>)
    ensures
        r@.len() == 2,
        r@[0]@ == "diff"@,
        r@[1]@ == diff_range_text(commit_sha@, str_view_opt(parent), reverse),
{
    let base = match parent {
        Some(p) => p.to_string(),
        None => "4b825dc642cb6eb9a060e54bf8d69288fbee4904".to_string(),
    };
    let mut range = String::new();
    if reverse {
        range.append(commit_sha);
        range.append("..");
        range.append(base.as_str());
    } else {
        range.append(base.as_str());
        range.append("..");
        range.append(commit_sha);
    }
    let mut out: Vec<String> = Vec::new();
    out.push("diff".to_string());
    out.push(range);
    out
}

/// Why the output of `git patch-id` gave no patch-ID.
#[derive(Debug, Clone, Copy, PartialEq, Eq, Structural)]
pub enum PatchIdOutputError {
    /// The output holds no word.
    Missing,
    /// The first word is not 40 bytes long; its length in bytes.
    WrongLength(usize),
    /// The first word is not a hexadecimal patch-ID.
    Invalid(PatchIdError),
}

/// Number of leading characters that are not whitespace.
pub open spec fn word_len(s: Seq<char>) -> int
    decreases s.len(),
{
    if s.len() > 0 && !is_white_space(s[0]) {
        1 + word_len(s.drop_first())
    } else {
        0
    }
}

/// The first whitespace-separated word of a text, as `split_whitespace`
/// yields it first.
pub open spec fn first_word(s: Seq<char>) -> Option<Seq<char>> {
    let a = lead_ws(s);
    if a >= s.len() {
        None
    } else {
        Some(s.subrange(a, a + word_len(s.skip(a))))
    }
}

/// What the output of `git patch-id --stable` (`<patch-id> <commit>`) gives:
/// its first word, which must be 40 bytes of hexadecimal text.
pub open spec fn patch_id_output_result(text: Seq<char>) -> Result<Seq<u8>, PatchIdOutputError> {
    match first_word(text) {
        None => Err(PatchIdOutputError::Missing),
        Some(w) => if encode_utf8(w).len() != 40 {
            Err(PatchIdOutputError::WrongLength(encode_utf8(w).len() as usize))
        } else {
            match patch_id_of_hex(encode_utf8(w)) {
                Ok(b) => Ok(b),
                Err(e) => Err(PatchIdOutputError::Invalid(e)),
            }
        },
    }
}

proof fn lemma_word_len(s: Seq<char>, j: int)
    requires
        0 <= j <= s.len(),
        forall|k: int| 0 <= k < j ==> !is_white_space(#[trigger] s[k]),
    ensures
        word_len(s) == j + word_len(s.skip(j)),
    decreases j,
{
    if j > 0 {
        lemma_word_len(s.drop_first(), j - 1);
        assert(s.drop_first().skip(j - 1) == s.skip(j));
    } else {
        assert(s.skip(0) == s);
    }
}

/// Read the patch-ID from the output of `git patch-id --stable`.
pub fn patch_id_from_output(text: &str) -> (r: Result<PatchId, PatchIdOutputError>)
    ensures
        match r {
            Ok(p) => patch_id_output_result(text@) == Ok::<Seq<u8>, PatchIdOutputError>(p.0@),
            Err(e) => patch_id_output_result(text@) == Err::<Seq<u8>, PatchIdOutputError>(e),
        },
{
    let cs = chars_of(text);
    let n = cs.len();
    let mut i: usize = 0;
    while i < n && char_is_whitespace(cs[i])
        invariant
            i <= n == cs@.len(),
            forall|k: int| 0 <= k < i ==> is_white_space(#[trigger] cs@[k]),
        decreases n - i,
    {
        i = i + 1;
    }
    proof {
        lemma_lead_ws(cs@, i as int);
    }
    if i == n {
        proof {
            assert(lead_ws(cs@) >= cs@.len());
        }
        return Err(PatchIdOutputError::Missing);
    }
    let mut j: usize = i;
    while j < n && !char_is_whitespace(cs[j])
        invariant
            i <= j <= n == cs@.len(),
            forall|k: int| 0 <= k < j - i ==> !is_white_space(#[trigger] cs@.skip(i as int)[k]),
        decreases n - j,
    {
        j = j + 1;
    }
    proof {
        let t = cs@.skip(i as int);
        assert(lead_ws(t) == 0);
        lemma_word_len(t, (j - i) as int);
        if j < n {
            assert(t.skip((j - i) as int)[0] == cs@[j as int]);
        }
        assert(word_len(t.skip((j - i) as int)) == 0);
        assert(lead_ws(cs@) == i);
    }
    let mut w = String::new();
    let mut k: usize = i;
    while k < j
        invariant
            i <= k <= j <= n == cs@.len(),
            w@ == cs@.subrange(i as int, k as int),
        decreases j - k,
    {
        push_char(&mut w, cs[k]);
        k = k + 1;
        assert(w@ =~= cs@.subrange(i as int, k as int));
    }
    assert(text@ == cs@);
    assert(first_word(text@) == Some(w@));
    let ws = w.as_str();
    assert(ws.spec_bytes() == encode_utf8(w@));
    let len = ws.as_bytes().len();
    if len != 40 {
        return Err(PatchIdOutputError::WrongLength(len));
    }
    assert(encode_utf8(w@).len() == 40);
    match PatchId::from_hex(ws) {
        Ok(p) => Ok(p),
        Err(e) => Err(PatchIdOutputError::Invalid(e)),
    }
}

} // verus!
