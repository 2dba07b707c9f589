//! File sets of commits: the varint blobs that store sorted file IDs, the
//! hash over those IDs, and the ignore patterns that decide which changed
//! files count.

use vstd::prelude::*;
use crate::config_file::SurfacesConfig;

verus! {

/// The varint (LEB128) bytes of a value: seven bits per byte, low bits
/// first, the high bit set on every byte but the last.
pub open spec fn varint_bytes(v: u64) -> Seq<u8>
    decreases v,
{
    if v < 128 {
        seq![v as u8]
    } else {
        seq![((v % 128) + 128) as u8] + varint_bytes(v / 128)
    }
}

proof fn lemma_varint_step(v: u64)
    requires
        v >= 128,
    ensures
        ((v as u8) | 0x80u8) == ((v % 128) + 128) as u8,
        v >> 7u64 == v / 128,
{
    assert(v >= 128 ==> ((v as u8) | 0x80u8) == ((v % 128) + 128) as u8) by (bit_vector);
    assert(v >> 7u64 == v / 128) by (bit_vector);
}

/// Encode a u64 as varint.
pub fn encode_varint(value: u64, out: &mut Vec<u8>)
    ensures
        final(out)@ == old(out)@ + varint_bytes(value),
{
    let ghost start = out@;
    let ghost orig = value;
    let mut value = value;
    while value >= 0x80
        invariant
            start + varint_bytes(orig) == out@ + varint_bytes(value),
        decreases value,
    {
        proof {
            lemma_varint_step(value);
        }
        let ghost before = out@;
        out.push((value as u8) | 0x80);
        assert(varint_bytes(value) =~= seq![((value % 128) + 128) as u8] + varint_bytes(value / 128));
        assert(before + varint_bytes(value) =~= out@ + varint_bytes(value / 128));
        value = value >> 7;
    }
    out.push(value as u8);
    assert(out@ =~= start + varint_bytes(orig));
}

/// The value that the first `k` bytes of a varint contribute.
pub open spec fn varint_acc(bytes: Seq<u8>, k: int) -> u64
    decreases k,
{
    if k <= 0 {
        0
    } else {
        varint_acc(bytes, k - 1) | ((((bytes[k - 1] & 0x7Fu8) as u64) << ((7 * (k - 1)) as u64)) as u64)
    }
}

/// How many bytes the decoder reads before it stops: up to the first byte
/// without the high bit, at most ten, at most all of them.
pub open spec fn varint_read(bytes: Seq<u8>, k: int) -> int
    decreases bytes.len() - k,
{
    if k >= bytes.len() || k >= 10 {
        if k >= bytes.len() { bytes.len() as int } else { k }
    } else if bytes[k] & 0x80u8 == 0 {
        k + 1
    } else {
        varint_read(bytes, k + 1)
    }
}

/// The decoder met a byte without the high bit within the first ten.
pub open spec fn varint_terminated(bytes: Seq<u8>, k: int) -> bool
    decreases bytes.len() - k,
{
    if k >= bytes.len() || k >= 10 {
        false
    } else if bytes[k] & 0x80u8 == 0 {
        true
    } else {
        varint_terminated(bytes, k + 1)
    }
}

/// What `decode_varint` gives: the value read, and the bytes consumed (all of
/// them when no terminating byte was met).
pub open spec fn varint_decoded(bytes: Seq<u8>) -> (u64, int) {
    let n = varint_read(bytes, 0);
    (varint_acc(bytes, n), if varint_terminated(bytes, 0) { n } else { bytes.len() as int })
}

/// Decode a varint from bytes, returning (value, bytes_read).
pub fn decode_varint(bytes: &[u8]) -> (r: (u64, usize))
    ensures
        r.0 == varint_decoded(bytes@).0,
        r.1 as int == varint_decoded(bytes@).1,
{
    let mut value: u64 = 0;
    let mut shift: u64 = 0;
    let mut i: usize = 0;
    while i < bytes.len()
        invariant
            i <= bytes@.len(),
            i <= 9,
            shift == 7 * i,
            value == varint_acc(bytes@, i as int),
            varint_read(bytes@, 0) == varint_read(bytes@, i as int),
            varint_terminated(bytes@, 0) == varint_terminated(bytes@, i as int),
        decreases bytes.len() - i,
    {
        let byte = bytes[i];
        value = value | (((byte & 0x7F) as u64) << shift);
        if byte & 0x80 == 0 {
            return (value, i + 1);
        }
        shift = shift + 7;
        if shift >= 64 {
            assert(varint_read(bytes@, i + 1) == 10);
            assert(!varint_terminated(bytes@, i + 1));
            assert(!varint_terminated(bytes@, i as int));
            return (value, bytes.len());
        }
        i = i + 1;
    }
    (value, bytes.len())
}

/// The varint blob of a list of file IDs: each ID, as an unsigned 64-bit
/// value, one after the other.
pub open spec fn ids_blob(ids: Seq<i64>) -> Seq<u8>
    decreases ids.len(),
{
    if ids.len() == 0 {
        seq![]
    } else {
        ids_blob(ids.drop_last()) + varint_bytes(ids.last() as u64)
    }
}

/// Encode file IDs as varint blob for storage.
pub fn encode_file_ids(file_ids: &[i64]) -> (blob: Vec<u8>)
    ensures
        blob@ == ids_blob(file_ids@),
{
    let mut blob: Vec<u8> = Vec::new();
    let mut k: usize = 0;
    while k < file_ids.len()
        invariant
            k <= file_ids@.len(),
            blob@ == ids_blob(file_ids@.subrange(0, k as int)),
        decreases file_ids.len() - k,
    {
        let id = file_ids[k];
        encode_varint(id as u64, &mut blob);
        assert(file_ids@.subrange(0, k + 1).drop_last() =~= file_ids@.subrange(0, k as int));
        k = k + 1;
    }
    assert(file_ids@.subrange(0, file_ids@.len() as int) =~= file_ids@);
    blob
}

/// The IDs that the blob holds from position `off` on: varints read one after
/// the other, each taken back as a signed 64-bit value.
pub open spec fn ids_of_blob_from(blob: Seq<u8>, off: int) -> Seq<i64>
    decreases blob.len() - off,
{
    if off < 0 || off >= blob.len() {
        seq![]
    } else {
        let d = varint_decoded(blob.subrange(off, blob.len() as int));
        if d.1 <= 0 || off + d.1 > blob.len() {
            seq![]
        } else {
            seq![d.0 as i64] + ids_of_blob_from(blob, off + d.1)
        }
    }
}

proof fn lemma_varint_read_bounds(bytes: Seq<u8>, k: int)
    requires
        0 <= k,
    ensures
        varint_read(bytes, k) <= bytes.len() || varint_read(bytes, k) == k,
        bytes.len() > k && k < 10 ==> k < varint_read(bytes, k) <= bytes.len(),
    decreases bytes.len() - k,
{
    if k >= bytes.len() || k >= 10 {
    } else if bytes[k] & 0x80u8 == 0 {
    } else {
        lemma_varint_read_bounds(bytes, k + 1);
    }
}

/// Decode varint blob to file IDs.
pub fn decode_file_ids(blob: &[u8]) -> (ids: Vec<i64>)
    ensures
        ids@ == ids_of_blob_from(blob@, 0),
{
    let mut ids: Vec<i64> = Vec::new();
    let mut offset: usize = 0;
    while offset < blob.len()
        invariant
            offset <= blob@.len(),
            ids_of_blob_from(blob@, 0) == ids@ + ids_of_blob_from(blob@, offset as int),
        decreases blob.len() - offset,
    {
        let (_, rest) = blob.split_at(offset);
        let (value, bytes_read) = decode_varint(rest);
        proof {
            lemma_varint_read_bounds(rest@, 0);
        }
        let ghost before = ids@;
        ids.push(value as i64);
        assert(ids_of_blob_from(blob@, offset as int) == seq![value as i64] + ids_of_blob_from(
            blob@,
            offset + bytes_read,
        ));
        assert(before + (seq![value as i64] + ids_of_blob_from(blob@, offset + bytes_read)) =~= ids@
            + ids_of_blob_from(blob@, offset + bytes_read));
        offset = offset + bytes_read;
    }
    assert(ids@ + seq![] =~= ids@);
    ids
}

// ---------------------------------------------------------------------------
// Varint round trip
// ---------------------------------------------------------------------------

/// 128 to the power `k`.
pub open spec fn p128(k: nat) -> nat
    decreases k,
{
    if k == 0 {
        1
    } else {
        128 * p128((k - 1) as nat)
    }
}

proof fn lemma_varint_len(v: u64, k: nat)
    requires
        v < p128(k),
        k >= 1,
    ensures
        1 <= varint_bytes(v).len() <= k,
    decreases v,
{
    if v >= 128 {
        assert(k >= 2) by {
            if k == 1 {
                assert(p128(1) == 128 * p128(0));
            }
        }
        assert((v / 128) < p128((k - 1) as nat)) by (nonlinear_arith)
            requires
                v < 128 * p128((k - 1) as nat),
        ;
        lemma_varint_len(v / 128, (k - 1) as nat);
    }
}

proof fn lemma_varint_len_u64(v: u64)
    ensures
        1 <= varint_bytes(v).len() <= 10,
{
    reveal_with_fuel(p128, 11);
    assert(p128(10) == 1180591620717411303424);
    lemma_varint_len(v, 10);
}

proof fn lemma_varint_shape(v: u64)
    ensures
        varint_bytes(v).len() >= 1,
        forall|j: int| 0 <= j < varint_bytes(v).len() - 1 ==> #[trigger] varint_bytes(v)[j] & 0x80u8 != 0,
        varint_bytes(v)[varint_bytes(v).len() - 1] & 0x80u8 == 0,
    decreases v,
{
    if v < 128 {
        assert(v < 128 ==> (v as u8) & 0x80u8 == 0) by (bit_vector);
    } else {
        lemma_varint_shape(v / 128);
        let g = ((v % 128) + 128) as u8;
        assert(v >= 128 ==> ((v % 128) + 128) as u8 & 0x80u8 != 0) by (bit_vector);
        let b = varint_bytes(v);
        let t = varint_bytes(v / 128);
        assert(b =~= seq![g] + t);
        assert forall|j: int| 0 <= j < b.len() - 1 implies #[trigger] b[j] & 0x80u8 != 0 by {
            if j > 0 {
                assert(b[j] == t[j - 1]);
            }
        }
        assert(b[b.len() - 1] == t[t.len() - 1]);
    }
}

proof fn lemma_read_shape(bytes: Seq<u8>, n: int, k: int)
    requires
        1 <= n <= 10,
        n <= bytes.len(),
        forall|j: int| 0 <= j < n - 1 ==> #[trigger] bytes[j] & 0x80u8 != 0,
        bytes[n - 1] & 0x80u8 == 0,
        0 <= k <= n - 1,
    ensures
        varint_read(bytes, k) == n,
        varint_terminated(bytes, k),
    decreases n - 1 - k,
{
    if k < n - 1 {
        lemma_read_shape(bytes, n, k + 1);
    }
}

proof fn lemma_shift_or(a: u64, g: u64, s: u64)
    requires
        s + 7 <= 63,
    ensures
        (a | (g << s)) << 7u64 == (a << 7u64) | (g << ((s + 7) as u64)),
{
    assert(s + 7 <= 63 ==> (a | (g << s)) << 7u64 == (a << 7u64) | (g << ((s + 7) as u64))) by (bit_vector);
}

proof fn lemma_acc_cons(b0: u8, tail: Seq<u8>, k: int)
    requires
        1 <= k <= 10,
        k - 1 <= tail.len(),
    ensures
        varint_acc(seq![b0] + tail, k) == (((b0 & 0x7Fu8) as u64) | (varint_acc(tail, k - 1) << 7u64)),
    decreases k,
{
    let bytes = seq![b0] + tail;
    let g0 = (b0 & 0x7Fu8) as u64;
    if k == 1 {
        assert(varint_acc(bytes, 0) == 0);
        assert(varint_acc(tail, 0) == 0);
        assert(bytes[0] == b0);
        assert((0u64 | (g0 << 0u64)) == g0) by (bit_vector);
        assert((g0 | (0u64 << 7u64)) == g0) by (bit_vector);
    } else {
        lemma_acc_cons(b0, tail, k - 1);
        let a = varint_acc(tail, k - 2);
        let g = ((bytes[k - 1] & 0x7Fu8) as u64);
        assert(bytes[k - 1] == tail[k - 2]);
        let s = (7 * (k - 2)) as u64;
        assert(((7 * (k - 1)) as u64) == ((s + 7) as u64));
        lemma_shift_or(a, g, s);
        let x = a << 7u64;
        let y = g << ((s + 7) as u64);
        assert((g0 | x) | y == g0 | (x | y)) by (bit_vector);
    }
}

proof fn lemma_varint_value(v: u64, rest: Seq<u8>)
    ensures
        varint_acc(varint_bytes(v) + rest, varint_bytes(v).len() as int) == v,
    decreases v,
{
    lemma_varint_len_u64(v);
    if v < 128 {
        let bytes = varint_bytes(v) + rest;
        assert(bytes[0] == v as u8);
        assert(varint_acc(bytes, 0) == 0);
        assert(v < 128 ==> (0u64 | ((((v as u8) & 0x7Fu8) as u64) << 0u64)) == v) by (bit_vector);
    } else {
        let g0 = ((v % 128) + 128) as u8;
        let t = varint_bytes(v / 128);
        lemma_varint_len_u64(v / 128);
        lemma_varint_value(v / 128, rest);
        assert(varint_bytes(v) + rest =~= seq![g0] + (t + rest));
        lemma_acc_cons(g0, t + rest, varint_bytes(v).len() as int);
        assert(v >= 128 ==> (((((v % 128) + 128) as u8 & 0x7Fu8) as u64) | ((v / 128) << 7u64)) == v)
            by (bit_vector);
    }
}

/// Decoding the varint of a value, whatever follows it, gives the value
/// back and consumes exactly its bytes.
pub proof fn lemma_varint_roundtrip(v: u64, rest: Seq<u8>)
    ensures
        varint_decoded(varint_bytes(v) + rest) == (v, varint_bytes(v).len() as int),
{
    let b = varint_bytes(v);
    let bytes = b + rest;
    lemma_varint_len_u64(v);
    lemma_varint_shape(v);
    assert forall|j: int| 0 <= j < b.len() - 1 implies #[trigger] bytes[j] & 0x80u8 != 0 by {
        assert(bytes[j] == b[j]);
    }
    assert(bytes[b.len() - 1] == b[b.len() - 1]);
    lemma_read_shape(bytes, b.len() as int, 0);
    lemma_varint_value(v, rest);
}

proof fn lemma_blob_front(ids: Seq<i64>)
    requires
        ids.len() > 0,
    ensures
        ids_blob(ids) == varint_bytes(ids[0] as u64) + ids_blob(ids.drop_first()),
    decreases ids.len(),
{
    if ids.len() == 1 {
        assert(ids.drop_last() =~= seq![]);
        assert(ids.drop_first() =~= seq![]);
        assert(ids_blob(ids.drop_last()) =~= Seq::<u8>::empty());
        assert(ids_blob(ids.drop_first()) =~= Seq::<u8>::empty());
        assert(ids.last() == ids[0]);
        assert(ids_blob(ids) =~= varint_bytes(ids[0] as u64) + ids_blob(ids.drop_first()));
    } else {
        lemma_blob_front(ids.drop_last());
        assert(ids.drop_last().drop_first() =~= ids.drop_first().drop_last());
        assert(ids.drop_first().last() == ids.last());
        assert(ids_blob(ids.drop_first()) == ids_blob(ids.drop_first().drop_last()) + varint_bytes(
            ids.drop_first().last() as u64,
        ));
        assert(ids_blob(ids) =~= varint_bytes(ids[0] as u64) + ids_blob(ids.drop_first()));
    }
}

proof fn lemma_ids_from(prefix: Seq<u8>, ids: Seq<i64>)
    ensures
        ids_of_blob_from(prefix + ids_blob(ids), prefix.len() as int) == ids,
    decreases ids.len(),
{
    let blob = prefix + ids_blob(ids);
    if ids.len() == 0 {
        assert(blob.len() == prefix.len());
    } else {
        lemma_blob_front(ids);
        let x = ids[0];
        let b = varint_bytes(x as u64);
        let tail = ids_blob(ids.drop_first());
        assert(blob.subrange(prefix.len() as int, blob.len() as int) =~= b + tail);
        lemma_varint_roundtrip(x as u64, tail);
        lemma_varint_len_u64(x as u64);
        assert(((x as u64) as i64) == x) by (bit_vector);
        lemma_ids_from(prefix + b, ids.drop_first());
        assert(prefix + b + tail =~= blob);
        assert(ids =~= seq![x] + ids.drop_first());
    }
}

/// Decoding the blob of a list of file IDs gives the list back:
/// `decode_file_ids(&encode_file_ids(ids)) == ids`.
pub proof fn lemma_file_ids_roundtrip(ids: Seq<i64>)
    ensures
        ids_of_blob_from(ids_blob(ids), 0) == ids,
{
    lemma_ids_from(seq![], ids);
    assert(seq![] + ids_blob(ids) =~= ids_blob(ids));
}

// ---------------------------------------------------------------------------
// File set hash
// ---------------------------------------------------------------------------

/// The hash that `blake3::hash` gives for a byte string.
pub uninterp spec fn blake3_digest(data: Seq<u8>) -> Seq<u8>;

/// Hashes bytes with `blake3::hash`; claims only that the 32 bytes are the
/// BLAKE3 digest of the input.
#[verifier::external_body]
pub(crate) fn blake3_hash(data: &[u8]) -> (r: [u8; 32])
    ensures
        r@ == blake3_digest(data@),
{
    *blake3::hash(data).as_bytes()
}

/// The eight little-endian bytes of a value.
pub open spec fn le_bytes(x: u64) -> Seq<u8> {
    Seq::new(8, |i: int| ((x >> ((8 * i) as u64)) & 0xFFu64) as u8)
}

/// The little-endian bytes of each ID, one after the other.
pub open spec fn ids_le_bytes(ids: Seq<i64>) -> Seq<u8>
    decreases ids.len(),
{
    if ids.len() == 0 {
        seq![]
    } else {
        ids_le_bytes(ids.drop_last()) + le_bytes(ids.last() as u64)
    }
}

/// Appends the little-endian bytes of a value.
fn push_le_bytes(out: &mut Vec<u8>, x: u64)
    ensures
        final(out)@ == old(out)@ + le_bytes(x),
{
    let ghost start = out@;
    let mut i: u64 = 0;
    while i < 8
        invariant
            i <= 8,
            out@ == start + le_bytes(x).subrange(0, i as int),
        decreases 8 - i,
    {
        out.push(((x >> (8 * i)) & 0xFF) as u8);
        i = i + 1;
        assert(out@ =~= start + le_bytes(x).subrange(0, i as int));
    }
    assert(le_bytes(x).subrange(0, 8) =~= le_bytes(x));
}

/// Compute blake3 hash of sorted file IDs: each ID as eight little-endian
/// bytes, in order.
pub fn compute_files_hash(file_ids: &[i64]) -> (r: [u8; 32])
    ensures
        r@ == blake3_digest(ids_le_bytes(file_ids@)),
{
    let mut data: Vec<u8> = Vec::new();
    let mut k: usize = 0;
    while k < file_ids.len()
        invariant
            k <= file_ids@.len(),
            data@ == ids_le_bytes(file_ids@.subrange(0, k as int)),
        decreases file_ids.len() - k,
    {
        push_le_bytes(&mut data, file_ids[k] as u64);
        assert(file_ids@.subrange(0, k + 1).drop_last() =~= file_ids@.subrange(0, k as int));
        k = k + 1;
    }
    assert(file_ids@.subrange(0, file_ids@.len() as int) =~= file_ids@);
    blake3_hash(data.as_slice())
}

/// The values are in non-decreasing order.
pub open spec fn is_sorted(s: Seq<i64>) -> bool {
    forall|i: int, j: int| 0 <= i < j < s.len() ==> s[i] <= s[j]
}

/// Sorts IDs in increasing order.
pub fn sort_ids(ids: &[i64]) -> (r: Vec<i64>)
    ensures
        is_sorted(r@),
        r@.to_multiset() == ids@.to_multiset(),
{
    broadcast use vstd::seq_lib::group_to_multiset_ensures;
    let mut out: Vec<i64> = Vec::new();
    let mut k: usize = 0;
    while k < ids.len()
        invariant
            k <= ids@.len(),
            is_sorted(out@),
            out@.to_multiset() == ids@.subrange(0, k as int).to_multiset(),
        decreases ids.len() - k,
    {
        let x = ids[k];
        let mut pos: usize = 0;
        while pos < out.len() && out[pos] <= x
            invariant
                pos <= out@.len(),
                is_sorted(out@),
                forall|j: int| 0 <= j < pos ==> out@[j] <= x,
            decreases out.len() - pos,
        {
            pos = pos + 1;
        }
        let ghost before = out@;
        out.insert(pos, x);
        assert(ids@.subrange(0, k + 1) =~= ids@.subrange(0, k as int).push(x));
        assert(out@ =~= before.insert(pos as int, x));
        proof {
            vstd::seq_lib::to_multiset_insert(before, pos as int, x);
            vstd::seq_lib::to_multiset_build(ids@.subrange(0, k as int), x);
        }
        assert forall|i: int, j: int| 0 <= i < j < out@.len() implies out@[i] <= out@[j] by {
            if j < pos {
            } else if j == pos {
            } else if i < pos {
                assert(before[i] <= x);
            } else if i == pos {
                assert(pos < before.len() ==> before[pos as int] > x);
                assert(before[pos as int] <= before[j - 1]);
            } else {
            }
        }
        k = k + 1;
    }
    assert(ids@.subrange(0, ids@.len() as int) =~= ids@);
    out
}

/// A computed file set for a commit.
#[derive(Debug, Clone)]
pub struct FileSet {
    /// Blake3 hash of sorted file IDs (32 bytes)
    pub files_hash: [u8; 32],
    /// Total files changed before filtering
    pub file_count_total: usize,
    /// Files after ignore pattern filtering
    pub file_count_included: usize,
    /// Sorted file IDs (varint encoded in blob)
    pub file_ids: Vec<i64>,
}

/// A file set does not depend on the order in which its IDs come: two
/// sorted lists of the same IDs are equal, so their hashes are equal too.
pub proof fn lemma_file_set_order_free(x: Seq<i64>, y: Seq<i64>)
    requires
        is_sorted(x),
        is_sorted(y),
        x.to_multiset() == y.to_multiset(),
    ensures
        x == y,
        blake3_digest(ids_le_bytes(x)) == blake3_digest(ids_le_bytes(y)),
{
    let leq = |a: i64, b: i64| a <= b;
    assert(vstd::relations::total_ordering(leq));
    assert(vstd::relations::sorted_by(x, leq)) by {
        assert forall|i: int, j: int| 0 <= i < j < x.len() implies #[trigger] leq(x[i], x[j]) by {}
    }
    assert(vstd::relations::sorted_by(y, leq)) by {
        assert forall|i: int, j: int| 0 <= i < j < y.len() implies #[trigger] leq(y[i], y[j]) by {}
    }
    vstd::seq_lib::lemma_sorted_unique(x, y, leq);
}

/// Builds the file set of a commit from the number of changed files and the
/// IDs of the files that were kept: the IDs are sorted and hashed.
pub fn build_file_set(file_count_total: usize, file_ids: &[i64]) -> (fs: FileSet)
    ensures
        is_sorted(fs.file_ids@),
        fs.file_ids@.to_multiset() == file_ids@.to_multiset(),
        fs.files_hash@ == blake3_digest(ids_le_bytes(fs.file_ids@)),
        fs.file_count_total == file_count_total,
        fs.file_count_included == file_ids@.len(),
{
    broadcast use vstd::seq_lib::group_to_multiset_ensures;
    let sorted = sort_ids(file_ids);
    proof {
        vstd::seq_lib::to_multiset_len(sorted@);
        vstd::seq_lib::to_multiset_len(file_ids@);
    }
    let files_hash = compute_files_hash(sorted.as_slice());
    let n = sorted.len();
    FileSet { files_hash, file_count_total, file_count_included: n, file_ids: sorted }
}

// ---------------------------------------------------------------------------
// Ignore patterns
// ---------------------------------------------------------------------------

#[verifier::external_type_specification]
#[verifier::external_body]
pub struct ExGlob(globset::Glob);

#[verifier::external_type_specification]
#[verifier::external_body]
pub struct ExGlobSet(globset::GlobSet);

#[verifier::external_type_specification]
#[verifier::external_body]
pub struct ExGlobSetBuilder(globset::GlobSetBuilder);

#[verifier::external_type_specification]
#[verifier::external_body]
pub struct ExGlobError(globset::Error);

/// Whether `globset::Glob::new` accepts a pattern.
pub uninterp spec fn glob_compiles(pattern: Seq<char>) -> bool;

/// The pattern text a `Glob` was built from (`Glob::glob`).
pub uninterp spec fn glob_text(g: globset::Glob) -> Seq<char>;

/// The patterns added to a `GlobSetBuilder`, in order.
pub uninterp spec fn builder_globs(b: globset::GlobSetBuilder) -> Seq<Seq<char>>;

/// The patterns a `GlobSet` was built from, in order.
pub uninterp spec fn globset_globs(s: globset::GlobSet) -> Seq<Seq<char>>;

/// Whether a glob pattern (with globset's default options) matches a path.
pub uninterp spec fn glob_matches(pattern: Seq<char>, path: Seq<char>) -> bool;

/// One of the patterns matches the path.
pub open spec fn any_glob_matches(patterns: Seq<Seq<char>>, path: Seq<char>) -> bool {
    exists|i: int| 0 <= i < patterns.len() && glob_matches(#[trigger] patterns[i], path)
}

/// Calls `globset::Glob::new`; claims that it succeeds exactly when the
/// pattern is one globset accepts, and that the glob keeps its pattern text.
#[verifier::external_body]
fn glob_new(pattern: &str) -> (r: Result<globset::Glob, globset::Error>)
    ensures
        r is Ok == glob_compiles(pattern@),
        r matches Ok(g) ==> glob_text(g) == pattern@,
{
    globset::Glob::new(pattern)
}

/// Calls `globset::GlobSetBuilder::new`; the builder starts with no patterns.
#[verifier::external_body]
fn globset_builder_new() -> (b: globset::GlobSetBuilder)
    ensures
        builder_globs(b) == Seq::<Seq<char>>::empty(),
{
    globset::GlobSetBuilder::new()
}

/// Calls `GlobSetBuilder::add`, which appends the glob to the builder's list.
#[verifier::external_body]
fn globset_builder_add(b: &mut globset::GlobSetBuilder, g: globset::Glob)
    ensures
        builder_globs(*final(b)) == builder_globs(*old(b)).push(glob_text(g)),
{
    b.add(g);
}

/// Whether globset builds a set from globs of these patterns (made by
/// `Glob::new`, with default options).
pub uninterp spec fn globset_builds(patterns: Seq<Seq<char>>) -> bool;

/// Calls `GlobSetBuilder::build`, which compiles the builder's globs
/// (`GlobSet::new`); claims that it succeeds exactly when globset builds a
/// set of those patterns, and that the set holds them.
#[verifier::external_body]
fn globset_builder_build(b: &globset::GlobSetBuilder) -> (r: Result<globset::GlobSet, globset::Error>)
    ensures
        r is Ok <==> globset_builds(builder_globs(*b)),
        r matches Ok(s) ==> globset_globs(s) == builder_globs(*b),
{
    b.build()
}

/// Calls `GlobSet::is_match`, which is true when any glob of the set matches.
#[verifier::external_body]
fn globset_is_match(s: &globset::GlobSet, path: &str) -> (r: bool)
    ensures
        r == any_glob_matches(globset_globs(*s), path@),
        forall|i: int| 0 <= i < globset_globs(*s).len() ==> (glob_matches(#[trigger] globset_globs(*s)[i], path@) ==> r),
{
    s.is_match(path)
}

/// Default ignore patterns applied unless overridden.
pub open spec fn default_ignore_patterns() -> Seq<Seq<char>> {
    seq![
        "**/node_modules/**"@,
        "**/vendor/**"@,
        "**/target/**"@,
        "**/dist/**"@,
        "**/build/**"@,
        "**/*.lock"@,
        "**/package-lock.json"@,
        "**/yarn.lock"@,
        "**/pnpm-lock.yaml"@,
        "**/*.min.js"@,
        "**/*.min.css"@,
        "**/*.generated.*"@,
        "**/*_generated.*"@,
        "**/.git/**"@,
    ]
}

/// The default ignore patterns.
pub fn default_patterns() -> (v: Vec<String>)
    ensures
        strings_view(v@) == default_ignore_patterns(),
{
    let mut v: Vec<String> = Vec::new();
    v.push("**/node_modules/**".to_string());
    v.push("**/vendor/**".to_string());
    v.push("**/target/**".to_string());
    v.push("**/dist/**".to_string());
    v.push("**/build/**".to_string());
    v.push("**/*.lock".to_string());
    v.push("**/package-lock.json".to_string());
    v.push("**/yarn.lock".to_string());
    v.push("**/pnpm-lock.yaml".to_string());
    v.push("**/*.min.js".to_string());
    v.push("**/*.min.css".to_string());
    v.push("**/*.generated.*".to_string());
    v.push("**/*_generated.*".to_string());
    v.push("**/.git/**".to_string());
    assert(strings_view(v@) =~= default_ignore_patterns());
    v
}

/// The characters of each string.
pub open spec fn strings_view(v: Seq<String>) -> Seq<Seq<char>> {
    v.map_values(|s: String| s@)
}

/// Why ignore patterns could not be built.
#[derive(Debug, Clone)]
pub enum IgnoreError {
    /// globset refused this pattern.
    InvalidPattern(String),
    /// globset could not build the set.
    BuildFailed,
}

/// Compiled ignore patterns for efficient matching.
#[derive(Debug)]
pub struct IgnorePatterns {
    globset: globset::GlobSet,
}

/// A path is ignored when one of the patterns matches it.
pub open spec fn ignored_by(patterns: Seq<Seq<char>>, path: Seq<char>) -> bool {
    any_glob_matches(patterns, path)
}

/// The patterns a surfaces configuration asks for: its own list when it has
/// one, else the defaults followed by the additional patterns.
pub open spec fn configured_patterns(c: SurfacesConfig) -> Seq<Seq<char>> {
    if c.ignore_patterns@.len() > 0 {
        strings_view(c.ignore_patterns@)
    } else {
        default_ignore_patterns() + strings_view(c.additional_ignore@)
    }
}

/// What building ignore patterns from a list may give.
pub open spec fn patterns_built(v: Seq<Seq<char>>, r: Result<IgnorePatterns, IgnoreError>) -> bool {
    &&& (exists|i: int| 0 <= i < v.len() && !glob_compiles(#[trigger] v[i])) ==> r is Err
    &&& r matches Err(IgnoreError::InvalidPattern(p)) ==> !glob_compiles(p@) && exists|i: int|
        0 <= i < v.len() && #[trigger] v[i] == p@
    &&& r matches Err(IgnoreError::BuildFailed) ==> !globset_builds(v) && forall|i: int|
        0 <= i < v.len() ==> glob_compiles(#[trigger] v[i])
    &&& r matches Ok(ip) ==> ip.patterns() == v && globset_builds(v) && forall|i: int|
        0 <= i < v.len() ==> glob_compiles(#[trigger] v[i])
    &&& (forall|i: int| 0 <= i < v.len() ==> glob_compiles(#[trigger] v[i])) ==> (r is Ok
        <==> globset_builds(v))
}

impl IgnorePatterns {
    /// The patterns of the set, in order.
    pub closed spec fn patterns(&self) -> Seq<Seq<char>> {
        globset_globs(self.globset)
    }

    /// Build from a list of pattern strings.
    pub fn from_patterns(patterns: &Vec<String>) -> (r: Result<IgnorePatterns, IgnoreError>)
        ensures
            patterns_built(strings_view(patterns@), r),
    {
        let ghost v = strings_view(patterns@);
        let mut builder = globset_builder_new();
        let mut k: usize = 0;
        while k < patterns.len()
            invariant
                v == strings_view(patterns@),
                k <= patterns@.len(),
                builder_globs(builder) == v.subrange(0, k as int),
                forall|i: int| 0 <= i < k ==> glob_compiles(#[trigger] v[i]),
            decreases patterns.len() - k,
        {
            let glob = match glob_new(patterns[k].as_str()) {
                Ok(g) => g,
                Err(_) => {
                    assert(!glob_compiles(v[k as int]));
                    return Err(IgnoreError::InvalidPattern(patterns[k].clone()));
                },
            };
            globset_builder_add(&mut builder, glob);
            assert(builder_globs(builder) =~= v.subrange(0, k + 1));
            k = k + 1;
        }
        assert(v.subrange(0, v.len() as int) =~= v);
        match globset_builder_build(&builder) {
            Ok(globset) => Ok(IgnorePatterns { globset }),
            Err(_) => Err(IgnoreError::BuildFailed),
        }
    }

    /// Build ignore patterns from defaults only.
    pub fn defaults() -> (r: Result<IgnorePatterns, IgnoreError>)
        ensures
            patterns_built(default_ignore_patterns(), r),
    {
        let v = default_patterns();
        IgnorePatterns::from_patterns(&v)
    }

    /// Build ignore patterns from config.
    ///
    /// If config has `ignore_patterns`, those replace defaults.
    /// If config has `additional_ignore`, those extend defaults.
    pub fn from_config(config: &SurfacesConfig) -> (r: Result<IgnorePatterns, IgnoreError>)
        ensures
            patterns_built(configured_patterns(*config), r),
    {
        let mut patterns: Vec<String> = Vec::new();
        if config.ignore_patterns.len() > 0 {
            let mut k: usize = 0;
            while k < config.ignore_patterns.len()
                invariant
                    k <= config.ignore_patterns@.len(),
                    strings_view(patterns@) == strings_view(config.ignore_patterns@).subrange(0, k as int),
                decreases config.ignore_patterns.len() - k,
            {
                let item = config.ignore_patterns[k].clone();
                assert(item@ == config.ignore_patterns@[k as int]@);
                let ghost before = patterns@;
                patterns.push(item);
                assert(strings_view(patterns@) =~= strings_view(before).push(item@));
                assert(strings_view(patterns@) =~= strings_view(config.ignore_patterns@).subrange(0, k + 1));
                k = k + 1;
            }
            assert(strings_view(config.ignore_patterns@).subrange(0, k as int) =~= strings_view(config.ignore_patterns@));
        } else {
            patterns = default_patterns();
            let ghost base = strings_view(patterns@);
            let mut k: usize = 0;
            while k < config.additional_ignore.len()
                invariant
                    k <= config.additional_ignore@.len(),
                    base == default_ignore_patterns(),
                    strings_view(patterns@) == base + strings_view(config.additional_ignore@).subrange(0, k as int),
                decreases config.additional_ignore.len() - k,
            {
                let item = config.additional_ignore[k].clone();
                assert(item@ == config.additional_ignore@[k as int]@);
                let ghost before = patterns@;
                patterns.push(item);
                assert(strings_view(patterns@) =~= strings_view(before).push(item@));
                assert(strings_view(patterns@) =~= base + strings_view(config.additional_ignore@).subrange(0, k + 1));
                k = k + 1;
            }
            assert(strings_view(config.additional_ignore@).subrange(0, k as int) =~= strings_view(config.additional_ignore@));
        }
        IgnorePatterns::from_patterns(&patterns)
    }

    /// Check if a path should be ignored.
    pub fn is_ignored(&self, path: &str) -> (r: bool)
        ensures
            r == ignored_by(self.patterns(), path@),
    {
        globset_is_match(&self.globset, path)
    }
}

/// The changed files that the ignore patterns keep, in order.
pub open spec fn kept_files(files: Seq<Seq<char>>, ignore: Option<Seq<Seq<char>>>) -> Seq<Seq<char>> {
    match ignore {
        Some(p) => files.filter(|f: Seq<char>| !ignored_by(p, f)),
        None => files,
    }
}

/// The changed files that count for a file set: those no ignore pattern
/// matches, in their order.
pub fn included_files(changed_files: &Vec<String>, ignore: Option<&IgnorePatterns>) -> (r: Vec<String>)
    ensures
        strings_view(r@) == kept_files(
            strings_view(changed_files@),
            match ignore {
                Some(ip) => Some(ip.patterns()),
                None => None,
            },
        ),
{
    let ghost files = strings_view(changed_files@);
    let mut out: Vec<String> = Vec::new();
    let mut k: usize = 0;
    while k < changed_files.len()
        invariant
            files == strings_view(changed_files@),
            k <= changed_files@.len(),
            strings_view(out@) == kept_files(
                files.subrange(0, k as int),
                match ignore {
                    Some(ip) => Some(ip.patterns()),
                    None => None,
                },
            ),
        decreases changed_files.len() - k,
    {
        let keep = match ignore {
            Some(ip) => !ip.is_ignored(changed_files[k].as_str()),
            None => true,
        };
        if keep {
            out.push(changed_files[k].clone());
        }
        proof {
            let pre = files.subrange(0, k as int);
            assert(files.subrange(0, k + 1) =~= pre.push(files[k as int]));
            match ignore {
                Some(ip) => {
                    let pred = |f: Seq<char>| !ignored_by(ip.patterns(), f);
                    pre.lemma_filter_push(files[k as int], pred);
                },
                None => {},
            }
        }
        assert(strings_view(out@) =~= kept_files(
            files.subrange(0, k + 1),
            match ignore {
                Some(ip) => Some(ip.patterns()),
                None => None,
            },
        ));
        k = k + 1;
    }
    assert(files.subrange(0, files.len() as int) =~= files);
    out
}

} // verus!
