//! Byte-level codec primitives: fixed-width integers, compact sizes and
//! length-prefixed byte strings, read from a byte slice at an offset.
//!
//! Every reader has a mathematical twin over `Seq<u8>` that says what is read
//! and where the next item starts, or how many bytes the field being read is
//! short of.

use vstd::prelude::*;
use vstd::slice::slice_subrange;

verus! {

/// What reading one item at an offset of a byte sequence yields.
pub enum Scan<V> {
    /// The item, and the offset of the first byte after it.
    Item { value: V, next: int },
    /// The bytes ran out: the field being read needs `missing` more of them.
    Short { missing: int },
}

/// An executable read agrees with its model: the same value and next offset,
/// or the same number of missing bytes.
pub open spec fn reads<T: View>(r: Result<(T, usize), u64>, m: Scan<T::V>) -> bool {
    match m {
        Scan::Item { value, next } => r matches Ok(got) && got.0@ == value && got.1 as int == next,
        Scan::Short { missing } => r matches Err(k) && k as int == missing,
    }
}

/// Fewer than `n` bytes are left from offset `at`.
pub open spec fn lacks(s: Seq<u8>, at: int, n: int) -> bool {
    at + n > s.len()
}

/// How many bytes a field of `n` bytes at offset `at` is short of.
pub open spec fn shortfall(s: Seq<u8>, at: int, n: int) -> int {
    at + n - s.len()
}

/// The little-endian value of the two bytes at `at`.
pub open spec fn le_u16_at(s: Seq<u8>, at: int) -> u16 {
    (s[at] as int + 0x100 * (s[at + 1] as int)) as u16
}

/// The big-endian value of the two bytes at `at`.
pub open spec fn be_u16_at(s: Seq<u8>, at: int) -> u16 {
    (0x100 * (s[at] as int) + s[at + 1] as int) as u16
}

/// The little-endian value of the four bytes at `at`.
pub open spec fn le_u32_at(s: Seq<u8>, at: int) -> u32 {
    (s[at] as int + 0x100 * (s[at + 1] as int) + 0x1_0000 * (s[at + 2] as int) + 0x100_0000 * (
    s[at + 3] as int)) as u32
}

/// The little-endian value of the eight bytes at `at`.
pub open spec fn le_u64_at(s: Seq<u8>, at: int) -> u64 {
    (le_u32_at(s, at) as int + 0x1_0000_0000 * (le_u32_at(s, at + 4) as int)) as u64
}

/// The two's-complement reading of a 32-bit pattern.
pub open spec fn as_signed_32(u: u32) -> i32 {
    if u < 0x8000_0000 {
        u as i32
    } else {
        (u as int - 0x1_0000_0000) as i32
    }
}

/// The two's-complement reading of a 64-bit pattern.
pub open spec fn as_signed_64(u: u64) -> i64 {
    if u < 0x8000_0000_0000_0000 {
        u as i64
    } else {
        (u as int - 0x1_0000_0000_0000_0000) as i64
    }
}

/// A little-endian `u16`: a field of two bytes.
pub open spec fn scan_u16_le(s: Seq<u8>, at: int) -> Scan<u16> {
    if lacks(s, at, 2) {
        Scan::Short { missing: shortfall(s, at, 2) }
    } else {
        Scan::Item { value: le_u16_at(s, at), next: at + 2 }
    }
}

/// A big-endian `u16`: a field of two bytes.
pub open spec fn scan_u16_be(s: Seq<u8>, at: int) -> Scan<u16> {
    if lacks(s, at, 2) {
        Scan::Short { missing: shortfall(s, at, 2) }
    } else {
        Scan::Item { value: be_u16_at(s, at), next: at + 2 }
    }
}

/// A little-endian `u32`: a field of four bytes.
pub open spec fn scan_u32_le(s: Seq<u8>, at: int) -> Scan<u32> {
    if lacks(s, at, 4) {
        Scan::Short { missing: shortfall(s, at, 4) }
    } else {
        Scan::Item { value: le_u32_at(s, at), next: at + 4 }
    }
}

/// A little-endian `u64`: a field of eight bytes.
pub open spec fn scan_u64_le(s: Seq<u8>, at: int) -> Scan<u64> {
    if lacks(s, at, 8) {
        Scan::Short { missing: shortfall(s, at, 8) }
    } else {
        Scan::Item { value: le_u64_at(s, at), next: at + 8 }
    }
}

/// A little-endian `i32`: a field of four bytes.
pub open spec fn scan_i32_le(s: Seq<u8>, at: int) -> Scan<i32> {
    if lacks(s, at, 4) {
        Scan::Short { missing: shortfall(s, at, 4) }
    } else {
        Scan::Item { value: as_signed_32(le_u32_at(s, at)), next: at + 4 }
    }
}

/// A little-endian `i64`: a field of eight bytes.
pub open spec fn scan_i64_le(s: Seq<u8>, at: int) -> Scan<i64> {
    if lacks(s, at, 8) {
        Scan::Short { missing: shortfall(s, at, 8) }
    } else {
        Scan::Item { value: as_signed_64(le_u64_at(s, at)), next: at + 8 }
    }
}

/// The next `n` bytes, as they stand.
pub open spec fn scan_bytes(s: Seq<u8>, at: int, n: int) -> Scan<Seq<u8>> {
    if lacks(s, at, n) {
        Scan::Short { missing: shortfall(s, at, n) }
    } else {
        Scan::Item { value: s.subrange(at, at + n), next: at + n }
    }
}

/// A compact size: one byte below `0xFD` stands for itself; the tags `0xFD`,
/// `0xFE` and `0xFF` announce a little-endian integer of 2, 4 and 8 bytes.
/// Any encoding is accepted, the shortest or not.
pub open spec fn compact_size_at(s: Seq<u8>, at: int) -> Scan<u64> {
    if lacks(s, at, 1) {
        Scan::Short { missing: shortfall(s, at, 1) }
    } else if s[at] < 0xfd {
        Scan::Item { value: s[at] as u64, next: at + 1 }
    } else if s[at] == 0xfd {
        match scan_u16_le(s, at + 1) {
            Scan::Item { value, next } => Scan::Item { value: value as u64, next },
            Scan::Short { missing } => Scan::Short { missing },
        }
    } else if s[at] == 0xfe {
        match scan_u32_le(s, at + 1) {
            Scan::Item { value, next } => Scan::Item { value: value as u64, next },
            Scan::Short { missing } => Scan::Short { missing },
        }
    } else {
        scan_u64_le(s, at + 1)
    }
}

/// A compact size followed by that many bytes.
pub open spec fn compact_bytes_at(s: Seq<u8>, at: int) -> Scan<Seq<u8>> {
    match compact_size_at(s, at) {
        Scan::Item { value, next } => scan_bytes(s, next, value as int),
        Scan::Short { missing } => Scan::Short { missing },
    }
}

/// `count` items in a row, each read where the one before it ended. The
/// first item that runs out of bytes decides what is missing.
pub open spec fn repeat_at<V>(
    item: spec_fn(Seq<u8>, int) -> Scan<V>,
    s: Seq<u8>,
    at: int,
    count: nat,
) -> Scan<Seq<V>>
    decreases count,
{
    if count == 0 {
        Scan::Item { value: Seq::empty(), next: at }
    } else {
        match repeat_at(item, s, at, (count - 1) as nat) {
            Scan::Short { missing } => Scan::Short { missing },
            Scan::Item { value, next } => match item(s, next) {
                Scan::Short { missing } => Scan::Short { missing },
                Scan::Item { value: last, next: end } => Scan::Item {
                    value: value.push(last),
                    next: end,
                },
            },
        }
    }
}

/// Once an item has run out of bytes, asking for more items changes nothing.
pub proof fn lemma_repeat_short_stays<V>(
    item: spec_fn(Seq<u8>, int) -> Scan<V>,
    s: Seq<u8>,
    at: int,
    k: nat,
    count: nat,
)
    requires
        k <= count,
        repeat_at(item, s, at, k) is Short,
    ensures
        repeat_at(item, s, at, count) == repeat_at(item, s, at, k),
    decreases count,
{
    if count > k {
        lemma_repeat_short_stays(item, s, at, k, (count - 1) as nat);
    }
}

/// The bytes of `s` in `lo..hi` stand in `t` as well, `d` places further on.
pub open spec fn shifted(s: Seq<u8>, t: Seq<u8>, lo: int, hi: int, d: int) -> bool {
    &&& 0 <= lo <= hi <= s.len()
    &&& 0 <= lo + d
    &&& hi + d <= t.len()
    &&& forall|j: int| lo <= j < hi ==> #[trigger] s[j] == t[j + d]
}

/// The same outcome, with the next offset `d` places further on.
pub open spec fn moved<V>(x: Scan<V>, d: int) -> Scan<V> {
    match x {
        Scan::Item { value, next } => Scan::Item { value, next: next + d },
        Scan::Short { missing } => Scan::Short { missing },
    }
}

/// Wherever `item` finds an item in `s`, the item ends inside `s`, at or
/// after the offset where it began.
pub open spec fn stays_inside<V>(item: spec_fn(Seq<u8>, int) -> Scan<V>, s: Seq<u8>) -> bool {
    forall|a: int|
        0 <= a <= s.len() && (#[trigger] item(s, a)) is Item ==> a <= item(s, a)->next <= s.len()
}

/// An item that `item` finds in `s` is found again in `t`, wherever the bytes
/// it spans stand there too.
pub open spec fn reads_locally<V>(
    item: spec_fn(Seq<u8>, int) -> Scan<V>,
    s: Seq<u8>,
    t: Seq<u8>,
    d: int,
) -> bool {
    forall|a: int|
        0 <= a <= s.len() && (#[trigger] item(s, a)) is Item && shifted(
            s,
            t,
            a,
            item(s, a)->next,
            d,
        ) ==> item(t, a + d) == moved(item(s, a), d)
}

/// A run of items ends inside the bytes it was read from.
pub proof fn lemma_repeat_inside<V>(
    item: spec_fn(Seq<u8>, int) -> Scan<V>,
    s: Seq<u8>,
    at: int,
    count: nat,
)
    requires
        stays_inside(item, s),
        0 <= at <= s.len(),
        repeat_at(item, s, at, count) is Item,
    ensures
        at <= repeat_at(item, s, at, count)->next <= s.len(),
        repeat_at(item, s, at, count)->value.len() == count,
    decreases count,
{
    if count > 0 {
        lemma_repeat_inside(item, s, at, (count - 1) as nat);
        let mid = repeat_at(item, s, at, (count - 1) as nat)->next;
        assert(item(s, mid) is Item);
    }
}

/// A run of items that is found in `s` is found again in `t`, wherever the
/// bytes it spans stand there too.
pub proof fn lemma_repeat_local<V>(
    item: spec_fn(Seq<u8>, int) -> Scan<V>,
    s: Seq<u8>,
    t: Seq<u8>,
    d: int,
    at: int,
    count: nat,
)
    requires
        stays_inside(item, s),
        reads_locally(item, s, t, d),
        0 <= at <= s.len(),
        repeat_at(item, s, at, count) is Item,
        shifted(s, t, at, repeat_at(item, s, at, count)->next, d),
    ensures
        repeat_at(item, t, at + d, count) == moved(repeat_at(item, s, at, count), d),
    decreases count,
{
    if count > 0 {
        let before = (count - 1) as nat;
        lemma_repeat_inside(item, s, at, before);
        let mid = repeat_at(item, s, at, before)->next;
        assert(item(s, mid) is Item);
        let end = item(s, mid)->next;
        assert(mid <= end <= s.len());
        assert(shifted(s, t, at, mid, d));
        lemma_repeat_local(item, s, t, d, at, before);
        assert(shifted(s, t, mid, end, d));
    }
}

/// A compact size that is found in `s` ends inside `s`, and is found again
/// in `t` if its bytes stand there too, `d` places further on.
pub proof fn lemma_compact_size_local(s: Seq<u8>, t: Seq<u8>, d: int, at: int)
    requires
        0 <= at <= s.len(),
        compact_size_at(s, at) is Item,
    ensures
        at <= compact_size_at(s, at)->next <= s.len(),
        shifted(s, t, at, compact_size_at(s, at)->next, d) ==> compact_size_at(t, at + d) == moved(
            compact_size_at(s, at),
            d,
        ),
{
}

/// A length-prefixed byte string that is found in `s` ends inside `s`, and
/// is found again in `t` if its bytes stand there too, `d` places further on.
pub proof fn lemma_compact_bytes_local(s: Seq<u8>, t: Seq<u8>, d: int, at: int)
    requires
        0 <= at <= s.len(),
        compact_bytes_at(s, at) is Item,
    ensures
        at <= compact_bytes_at(s, at)->next <= s.len(),
        shifted(s, t, at, compact_bytes_at(s, at)->next, d) ==> compact_bytes_at(t, at + d)
            == moved(compact_bytes_at(s, at), d),
{
    lemma_compact_size_local(s, t, d, at);
    let n = compact_size_at(s, at)->value as int;
    let a1 = compact_size_at(s, at)->next;
    if shifted(s, t, at, compact_bytes_at(s, at)->next, d) {
        assert(shifted(s, t, at, a1, d));
        assert(s.subrange(a1, a1 + n) =~= t.subrange(a1 + d, a1 + n + d));
    }
}

/// The views of the elements of a sequence, in order.
pub open spec fn views<T: View>(v: Seq<T>) -> Seq<T::V> {
    Seq::new(v.len(), |i: int| v[i]@)
}

/// The shortest compact-size encoding of `n`.
pub open spec fn compact_size_bytes(n: u64) -> Seq<u8> {
    if n < 0xfd {
        seq![n as u8]
    } else if n <= 0xffff {
        seq![0xfdu8, (n % 0x100) as u8, (n / 0x100) as u8]
    } else if n <= 0xffff_ffff {
        seq![
            0xfeu8,
            (n % 0x100) as u8,
            (n / 0x100 % 0x100) as u8,
            (n / 0x1_0000 % 0x100) as u8,
            (n / 0x100_0000) as u8,
        ]
    } else {
        seq![
            0xffu8,
            (n % 0x100) as u8,
            (n / 0x100 % 0x100) as u8,
            (n / 0x1_0000 % 0x100) as u8,
            (n / 0x100_0000 % 0x100) as u8,
            (n / 0x1_0000_0000 % 0x100) as u8,
            (n / 0x100_0000_0000 % 0x100) as u8,
            (n / 0x1_0000_0000_0000 % 0x100) as u8,
            (n / 0x100_0000_0000_0000) as u8,
        ]
    }
}

proof fn lemma_bytes_of_u16(n: u64)
    by (bit_vector)
    requires
        n <= 0xffff,
    ensures
        n % 0x100 + 0x100 * (n / 0x100) == n,
        n / 0x100 < 0x100,
{
}

proof fn lemma_bytes_of_u32(n: u64)
    by (bit_vector)
    requires
        n <= 0xffff_ffff,
    ensures
        n % 0x100 + 0x100 * (n / 0x100 % 0x100) + 0x1_0000 * (n / 0x1_0000 % 0x100) + 0x100_0000 * (
        n / 0x100_0000) == n,
        n / 0x100_0000 < 0x100,
{
}

proof fn lemma_bytes_of_u64(n: u64)
    by (bit_vector)
    ensures
        n % 0x100 + 0x100 * (n / 0x100 % 0x100) + 0x1_0000 * (n / 0x1_0000 % 0x100) + 0x100_0000 * (
        n / 0x100_0000 % 0x100) == n % 0x1_0000_0000,
        n / 0x1_0000_0000 % 0x100 + 0x100 * (n / 0x100_0000_0000 % 0x100) + 0x1_0000 * (n
            / 0x1_0000_0000_0000 % 0x100) + 0x100_0000 * (n / 0x100_0000_0000_0000) == n
            / 0x1_0000_0000,
        n % 0x1_0000_0000 + 0x1_0000_0000 * (n / 0x1_0000_0000) == n,
        n / 0x100_0000_0000_0000 < 0x100,
{
}

/// Decoding the shortest encoding of `n`, whatever follows it, gives `n` back
/// and stops right after the encoding.
pub proof fn lemma_compact_size_round_trip(n: u64, tail: Seq<u8>)
    ensures
        compact_size_at(compact_size_bytes(n) + tail, 0) == (Scan::Item {
            value: n,
            next: compact_size_bytes(n).len() as int,
        }),
{
    let e = compact_size_bytes(n);
    let s = e + tail;
    assert(forall|k: int| 0 <= k < e.len() ==> s[k] == e[k]);
    if n < 0xfd {
        assert(s[0] == n as u8);
    } else if n <= 0xffff {
        lemma_bytes_of_u16(n);
        assert(s[0] == 0xfd && s[1] == e[1] && s[2] == e[2]);
        assert(le_u16_at(s, 1) == n);
    } else if n <= 0xffff_ffff {
        lemma_bytes_of_u32(n);
        assert(s[0] == 0xfe && s[1] == e[1] && s[2] == e[2] && s[3] == e[3] && s[4] == e[4]);
        assert(le_u32_at(s, 1) == n);
    } else {
        lemma_bytes_of_u64(n);
        assert(s[0] == 0xff && s[1] == e[1] && s[2] == e[2] && s[3] == e[3] && s[4] == e[4]);
        assert(s[5] == e[5] && s[6] == e[6] && s[7] == e[7] && s[8] == e[8]);
        assert(le_u32_at(s, 1) == n % 0x1_0000_0000);
        assert(le_u32_at(s, 5) == n / 0x1_0000_0000);
        assert(le_u64_at(s, 1) == n);
    }
}

/// Reads a little-endian `u16`.
pub fn read_u16_le(data: &[u8], at: usize) -> (r: Result<(u16, usize), u64>)
    requires
        at <= data@.len(),
    ensures
        reads(r, scan_u16_le(data@, at as int)),
{
    let have = data.len() - at;
    if have < 2 {
        Err((2 - have) as u64)
    } else {
        let v: u16 = data[at] as u16 + 0x100 * (data[at + 1] as u16);
        Ok((v, at + 2))
    }
}

/// Reads a big-endian `u16`.
pub fn read_u16_be(data: &[u8], at: usize) -> (r: Result<(u16, usize), u64>)
    requires
        at <= data@.len(),
    ensures
        reads(r, scan_u16_be(data@, at as int)),
{
    let have = data.len() - at;
    if have < 2 {
        Err((2 - have) as u64)
    } else {
        let v: u16 = 0x100 * (data[at] as u16) + data[at + 1] as u16;
        Ok((v, at + 2))
    }
}

/// Reads a little-endian `u32`.
pub fn read_u32_le(data: &[u8], at: usize) -> (r: Result<(u32, usize), u64>)
    requires
        at <= data@.len(),
    ensures
        reads(r, scan_u32_le(data@, at as int)),
{
    let have = data.len() - at;
    if have < 4 {
        Err((4 - have) as u64)
    } else {
        let v: u32 = data[at] as u32 + 0x100 * (data[at + 1] as u32) + 0x1_0000 * (data[at
            + 2] as u32) + 0x100_0000 * (data[at + 3] as u32);
        Ok((v, at + 4))
    }
}

/// Reads a little-endian `u64`.
pub fn read_u64_le(data: &[u8], at: usize) -> (r: Result<(u64, usize), u64>)
    requires
        at <= data@.len(),
    ensures
        reads(r, scan_u64_le(data@, at as int)),
{
    let have = data.len() - at;
    if have < 8 {
        Err((8 - have) as u64)
    } else {
        let lo: u32 = data[at] as u32 + 0x100 * (data[at + 1] as u32) + 0x1_0000 * (data[at
            + 2] as u32) + 0x100_0000 * (data[at + 3] as u32);
        let hi: u32 = data[at + 4] as u32 + 0x100 * (data[at + 5] as u32) + 0x1_0000 * (data[at
            + 6] as u32) + 0x100_0000 * (data[at + 7] as u32);
        let v: u64 = lo as u64 + 0x1_0000_0000 * (hi as u64);
        Ok((v, at + 8))
    }
}

/// The signed reading of a 32-bit pattern.
pub fn signed_32(u: u32) -> (r: i32)
    ensures
        r == as_signed_32(u),
{
    if u < 0x8000_0000 {
        u as i32
    } else {
        (u - 0x8000_0000) as i32 + i32::MIN
    }
}

/// The signed reading of a 64-bit pattern.
pub fn signed_64(u: u64) -> (r: i64)
    ensures
        r == as_signed_64(u),
{
    if u < 0x8000_0000_0000_0000 {
        u as i64
    } else {
        (u - 0x8000_0000_0000_0000) as i64 + i64::MIN
    }
}

/// Reads a little-endian `i32`.
pub fn read_i32_le(data: &[u8], at: usize) -> (r: Result<(i32, usize), u64>)
    requires
        at <= data@.len(),
    ensures
        reads(r, scan_i32_le(data@, at as int)),
{
    match read_u32_le(data, at) {
        Ok((u, next)) => Ok((signed_32(u), next)),
        Err(k) => Err(k),
    }
}

/// Reads a little-endian `i64`.
pub fn read_i64_le(data: &[u8], at: usize) -> (r: Result<(i64, usize), u64>)
    requires
        at <= data@.len(),
    ensures
        reads(r, scan_i64_le(data@, at as int)),
{
    match read_u64_le(data, at) {
        Ok((u, next)) => Ok((signed_64(u), next)),
        Err(k) => Err(k),
    }
}

/// Borrows the next `n` bytes.
pub fn read_bytes<'a>(data: &'a [u8], at: usize, n: u64) -> (r: Result<(&'a [u8], usize), u64>)
    requires
        at <= data@.len(),
    ensures
        reads(r, scan_bytes(data@, at as int, n as int)),
{
    let have = (data.len() - at) as u64;
    if have < n {
        Err(n - have)
    } else {
        let end = at + n as usize;
        Ok((slice_subrange(data, at, end), end))
    }
}

/// Reads a compact size.
pub fn read_compact_size(data: &[u8], at: usize) -> (r: Result<(u64, usize), u64>)
    requires
        at <= data@.len(),
    ensures
        reads(r, compact_size_at(data@, at as int)),
{
    if data.len() - at < 1 {
        return Err(1);
    }
    let tag = data[at];
    if tag < 0xfd {
        Ok((tag as u64, at + 1))
    } else if tag == 0xfd {
        match read_u16_le(data, at + 1) {
            Ok((v, next)) => Ok((v as u64, next)),
            Err(k) => Err(k),
        }
    } else if tag == 0xfe {
        match read_u32_le(data, at + 1) {
            Ok((v, next)) => Ok((v as u64, next)),
            Err(k) => Err(k),
        }
    } else {
        read_u64_le(data, at + 1)
    }
}

/// Reads a compact size and borrows that many bytes after it.
pub fn read_compact_bytes<'a>(data: &'a [u8], at: usize) -> (r: Result<(&'a [u8], usize), u64>)
    requires
        at <= data@.len(),
    ensures
        reads(r, compact_bytes_at(data@, at as int)),
{
    match read_compact_size(data, at) {
        Ok((n, next)) => read_bytes(data, next, n),
        Err(k) => Err(k),
    }
}

/// Writes `n` as a compact size in its shortest form.
pub fn write_compact_size(n: u64) -> (out: Vec<u8>)
    ensures
        out@ == compact_size_bytes(n),
{
    let mut out: Vec<u8> = Vec::new();
    if n < 0xfd {
        out.push(n as u8);
    } else if n <= 0xffff {
        out.push(0xfd);
        out.push((n % 0x100) as u8);
        out.push((n / 0x100) as u8);
    } else if n <= 0xffff_ffff {
        out.push(0xfe);
        out.push((n % 0x100) as u8);
        out.push((n / 0x100 % 0x100) as u8);
        out.push((n / 0x1_0000 % 0x100) as u8);
        out.push((n / 0x100_0000) as u8);
    } else {
        out.push(0xff);
        out.push((n % 0x100) as u8);
        out.push((n / 0x100 % 0x100) as u8);
        out.push((n / 0x1_0000 % 0x100) as u8);
        out.push((n / 0x100_0000 % 0x100) as u8);
        out.push((n / 0x1_0000_0000 % 0x100) as u8);
        out.push((n / 0x100_0000_0000 % 0x100) as u8);
        out.push((n / 0x1_0000_0000_0000 % 0x100) as u8);
        out.push((n / 0x100_0000_0000_0000) as u8);
    }
    assert(out@ =~= compact_size_bytes(n));
    out
}

/// Copies 32 bytes into an array.
pub fn array_32(bytes: &[u8]) -> (r: [u8; 32])
    requires
        bytes@.len() == 32,
    ensures
        r@ == bytes@,
{
    let mut r = [0u8; 32];
    let mut i: usize = 0;
    while i < 32
        invariant
            i <= 32,
            bytes@.len() == 32,
            forall|k: int| 0 <= k < i ==> r@[k] == bytes@[k],
        decreases 32 - i,
    {
        r[i] = bytes[i];
        i += 1;
    }
    assert(r@ =~= bytes@);
    r
}

/// Copies 8 bytes into an array.
pub fn array_8(bytes: &[u8]) -> (r: [u8; 8])
    requires
        bytes@.len() == 8,
    ensures
        r@ == bytes@,
{
    let mut r = [0u8; 8];
    let mut i: usize = 0;
    while i < 8
        invariant
            i <= 8,
            bytes@.len() == 8,
            forall|k: int| 0 <= k < i ==> r@[k] == bytes@[k],
        decreases 8 - i,
    {
        r[i] = bytes[i];
        i += 1;
    }
    assert(r@ =~= bytes@);
    r
}

/// As `reads`, for a read that yields a vector of items.
pub open spec fn reads_all<T: View>(r: Result<(Vec<T>, usize), u64>, m: Scan<Seq<T::V>>) -> bool {
    match m {
        Scan::Item { value, next } => r matches Ok(got) && views(got.0@) == value && got.1 as int
            == next,
        Scan::Short { missing } => r matches Err(k) && k as int == missing,
    }
}

/// Whether two byte strings hold the same bytes.
pub fn bytes_equal(a: &[u8], b: &[u8]) -> (r: bool)
    ensures
        r == (a@ == b@),
{
    if a.len() != b.len() {
        return false;
    }
    let mut i: usize = 0;
    while i < a.len()
        invariant
            i <= a@.len(),
            a@.len() == b@.len(),
            forall|k: int| 0 <= k < i ==> a@[k] == b@[k],
        decreases a@.len() - i,
    {
        if a[i] != b[i] {
            return false;
        }
        i += 1;
    }
    assert(a@ =~= b@);
    true
}

} // verus!
