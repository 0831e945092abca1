//! What the pieces guarantee together: a serialized blob parses back into
//! the regions it was laid out from, every record put into a serializable
//! table is found again by a lookup on the blob, a state never inserted is
//! never found, an empty bucket serializes to a zero descriptor and always
//! misses, and a scan never reads outside its bucket's recorded window.

use vstd::prelude::*;
use crate::bits::{
    be3, be4, lemma_be3_roundtrip, lemma_be4_roundtrip, lemma_descriptor_fields,
    u32_of_be3, u32_of_be4, MASK19, MASK25, NBUCKETS,
};
use crate::blob::{
    bucket_bytes, bucket_bytes_upto, data_bytes_upto, descriptor, fits,
    lemma_bucket_bytes_len, lemma_data_bytes_len, lemma_max_key_below_empty_above,
    lemma_records_upto_monotonic, lemma_table_bytes_len, max_key, max_key_below, offset_of,
    records_upto, serializable, spec_blob, table_bytes_upto,
};
use crate::lookup::{find_code, rec_code, rec_state, scan_bucket};
use crate::table::{entry_ok, key_of, table_wf};

verus! {

/// The origin code of the first record of a bucket whose stored state
/// equals `m`; `None` when no record of the bucket matches.
pub open spec fn first_match(s: Seq<(u32, u32)>, m: u32) -> Option<u32>
    decreases s.len(),
{
    if s.len() == 0 {
        None
    } else if s[0].0 == m {
        Some(s[0].1)
    } else {
        first_match(s.drop_first(), m)
    }
}

/// A bucket holding a record with state `m` yields a hit for `m`.
pub proof fn lemma_first_match_present(s: Seq<(u32, u32)>, m: u32, i: int)
    requires
        0 <= i < s.len(),
        s[i].0 == m,
    ensures
        first_match(s, m) is Some,
    decreases s.len(),
{
    if s[0].0 != m {
        lemma_first_match_present(s.drop_first(), m, i - 1);
    }
}

/// A bucket holding no record with state `m` yields a miss for `m`.
pub proof fn lemma_first_match_absent(s: Seq<(u32, u32)>, m: u32)
    requires
        forall|i: int| 0 <= i < s.len() ==> (#[trigger] s[i]).0 != m,
    ensures
        first_match(s, m) == None::<u32>,
    decreases s.len(),
{
    if s.len() > 0 {
        lemma_first_match_absent(s.drop_first(), m);
    }
}

/// The highest present key lies within the range it was searched in.
pub proof fn lemma_max_key_below_range(b: Seq<Seq<(u32, u32)>>, n: int)
    requires
        n >= 1,
    ensures
        0 <= max_key_below(b, n) < n,
    decreases n,
{
    if n > 1 && b[n - 1].len() == 0 {
        lemma_max_key_below_range(b, n - 1);
    }
}

/// Byte `3k + j` of the lookup-table region is byte `j` of bucket `k`'s
/// descriptor.
pub proof fn lemma_table_bytes_index(b: Seq<Seq<(u32, u32)>>, n: int, k: int)
    requires
        0 <= k < n,
    ensures
        table_bytes_upto(b, n)[3 * k] == be3(descriptor(b, k))[0],
        table_bytes_upto(b, n)[3 * k + 1] == be3(descriptor(b, k))[1],
        table_bytes_upto(b, n)[3 * k + 2] == be3(descriptor(b, k))[2],
    decreases n,
{
    lemma_table_bytes_len(b, n - 1);
    if k < n - 1 {
        lemma_table_bytes_index(b, n - 1, k);
    }
}

/// Byte `offset_of(b, k) + t` of the data region is byte `t` of bucket
/// `k`'s wire form.
pub proof fn lemma_data_window(b: Seq<Seq<(u32, u32)>>, n: int, k: int, t: int)
    requires
        0 <= k < n,
        0 <= t < 8 * b[k].len(),
    ensures
        data_bytes_upto(b, n)[offset_of(b, k) + t] == bucket_bytes(b[k])[t],
    decreases n,
{
    lemma_data_bytes_len(b, n - 1);
    lemma_bucket_bytes_len(b[k], b[k].len() as int);
    lemma_records_upto_monotonic(b, 0, k);
    if k < n - 1 {
        lemma_records_upto_monotonic(b, k + 1, n - 1);
        lemma_data_window(b, n - 1, k, t);
    }
}

/// The eight bytes of record `i` within a bucket's wire form are the
/// big-endian bytes of its state value and its origin code.
pub proof fn lemma_bucket_bytes_index(s: Seq<(u32, u32)>, j: int, i: int)
    requires
        0 <= i < j <= s.len(),
    ensures
        forall|c: int|
            0 <= c < 4 ==> bucket_bytes_upto(s, j)[8 * i + c] == be4(s[i].0)[c]
                && bucket_bytes_upto(s, j)[8 * i + 4 + c] == be4(s[i].1)[c],
    decreases j,
{
    lemma_bucket_bytes_len(s, j - 1);
    if i < j - 1 {
        lemma_bucket_bytes_index(s, j - 1, i);
    }
}

/// A scan over a window whose records decode to the bucket `s` resolves
/// exactly as the first match within `s`.
pub proof fn lemma_scan_matches(data: Seq<u8>, off: int, s: Seq<(u32, u32)>, m: u32)
    requires
        forall|i: int|
            0 <= i < s.len() ==> rec_state(data, off + 8 * i) == (#[trigger] s[i]).0 && rec_code(
                data,
                off + 8 * i,
            ) == s[i].1,
    ensures
        scan_bucket(data, off, s.len() as int, m) == first_match(s, m),
    decreases s.len(),
{
    if s.len() > 0 {
        assert(rec_state(data, off + 8 * 0) == s[0].0 && rec_code(data, off + 8 * 0) == s[0].1);
        if s[0].0 != m {
            let s2 = s.drop_first();
            assert forall|i: int|
                0 <= i < s2.len() implies rec_state(data, off + 8 + 8 * i) == (#[trigger] s2[i]).0
                && rec_code(data, off + 8 + 8 * i) == s2[i].1 by {
                assert(s2[i] == s[i + 1]);
                assert(rec_state(data, off + 8 * (i + 1)) == s[i + 1].0);
                assert(rec_code(data, off + 8 * (i + 1)) == s[i + 1].1);
                assert(off + 8 * (i + 1) == off + 8 + 8 * i);
            }
            lemma_scan_matches(data, off + 8, s2, m);
        }
    }
}

/// Resolving the serialized form of a well-formed, serializable table at
/// any query returns exactly the first match within the query's bucket:
/// the direct-lookup table and the data region together represent the
/// State Table faithfully.
pub proof fn lemma_blob_resolves(b: Seq<Seq<(u32, u32)>>, item: u32)
    requires
        table_wf(b),
        serializable(b),
    ensures
        find_code(
            max_key(b) as u32,
            table_bytes_upto(b, max_key(b) + 1),
            data_bytes_upto(b, max_key(b) + 1),
            item,
        ) == first_match(b[key_of(item)], item & MASK25),
{
    let mk = max_key(b);
    let table = table_bytes_upto(b, mk + 1);
    let data = data_bytes_upto(b, mk + 1);
    let k = key_of(item);
    let m = item & MASK25;
    assert(item & 0x7_FFFF < 0x8_0000) by (bit_vector);
    lemma_max_key_below_range(b, NBUCKETS as int);
    lemma_table_bytes_len(b, mk + 1);
    lemma_data_bytes_len(b, mk + 1);
    if k > mk {
        lemma_max_key_below_empty_above(b, NBUCKETS as int, k);
        assert(b[k].len() == 0);
        assert(first_match(b[k], m) == None::<u32>);
        assert(item & MASK19 > mk as u32);
    } else {
        assert(table.len() == 3 * (mk + 1) >= 3 * (k + 1));
        lemma_table_bytes_index(b, mk + 1, k);
        let dsc = descriptor(b, k);
        assert(fits(b, k));
        if b[k].len() == 0 {
            assert(dsc == 0);
            lemma_be3_roundtrip(0);
            assert(u32_of_be4(0, 0, 0, 0) == 0) by (bit_vector);
            assert(0u32 >> 19 == 0 && 0u32 & 0x7_FFFF == 0) by (bit_vector);
            assert(scan_bucket(data, 0, 0, m) == None::<u32>);
            assert(first_match(b[k], m) == None::<u32>);
        } else {
            let blen = b[k].len() as u32;
            lemma_records_upto_monotonic(b, 0, k);
            assert(0 <= offset_of(b, k) < 0x8_0000);
            let boff = offset_of(b, k) as u32;
            lemma_descriptor_fields(blen, boff);
            lemma_be3_roundtrip(dsc);
            assert(dsc >> 19 == blen && dsc & MASK19 == boff);
            lemma_records_upto_monotonic(b, k + 1, mk + 1);
            assert(offset_of(b, k) + 8 * b[k].len() == 8 * records_upto(b, k + 1));
            assert(boff + 8 * blen <= data.len());
            assert forall|i: int|
                0 <= i < b[k].len() implies rec_state(data, boff + 8 * i) == (#[trigger] b[k][
                i]).0 && rec_code(data, boff + 8 * i) == b[k][i].1 by {
                lemma_bucket_bytes_index(b[k], b[k].len() as int, i);
                lemma_data_window(b, mk + 1, k, 8 * i);
                lemma_data_window(b, mk + 1, k, 8 * i + 1);
                lemma_data_window(b, mk + 1, k, 8 * i + 2);
                lemma_data_window(b, mk + 1, k, 8 * i + 3);
                lemma_data_window(b, mk + 1, k, 8 * i + 4);
                lemma_data_window(b, mk + 1, k, 8 * i + 5);
                lemma_data_window(b, mk + 1, k, 8 * i + 6);
                lemma_data_window(b, mk + 1, k, 8 * i + 7);
                lemma_be4_roundtrip(b[k][i].0);
                lemma_be4_roundtrip(b[k][i].1);
            }
            lemma_scan_matches(data, boff as int, b[k], m);
        }
    }
}

/// The serialized blob parses back into exactly the regions it was laid
/// out from: the header reads as the highest present key, and the two
/// subranges behind it are the lookup-table region and the data region.
#[verifier::rlimit(50)]
pub proof fn lemma_load_parses_blob(b: Seq<Seq<(u32, u32)>>)
    requires
        table_wf(b),
        serializable(b),
    ensures
        spec_blob(b).len() >= 4,
        u32_of_be4(spec_blob(b)[0], spec_blob(b)[1], spec_blob(b)[2], spec_blob(b)[3]) == max_key(
            b,
        ) as u32,
        4 + 3 * (max_key(b) + 1) <= spec_blob(b).len(),
        spec_blob(b).subrange(4, 4 + 3 * (max_key(b) + 1)) == table_bytes_upto(
            b,
            max_key(b) + 1,
        ),
        spec_blob(b).subrange(4 + 3 * (max_key(b) + 1), spec_blob(b).len() as int)
            == data_bytes_upto(b, max_key(b) + 1),
{
    let mk = max_key(b);
    let blob = spec_blob(b);
    lemma_max_key_below_range(b, NBUCKETS as int);
    lemma_table_bytes_len(b, mk + 1);
    lemma_data_bytes_len(b, mk + 1);
    lemma_records_upto_monotonic(b, 0, mk + 1);
    lemma_be4_roundtrip(mk as u32);
    assert(blob[0] == be4(mk as u32)[0] && blob[1] == be4(mk as u32)[1] && blob[2] == be4(mk
        as u32)[2] && blob[3] == be4(mk as u32)[3]);
    assert(blob.subrange(4, 4 + 3 * (mk + 1)) =~= table_bytes_upto(b, mk + 1));
    assert(blob.subrange(4 + 3 * (mk + 1), blob.len() as int) =~= data_bytes_upto(b, mk + 1));
}

/// End to end: a lookup loaded from the serialized blob — header parsed
/// as the key count, the two regions split off behind it, exactly as
/// loading does — resolves any query to the first match within the
/// query's bucket of the table the blob was written from.
pub proof fn lemma_loaded_lookup_resolves(
    b: Seq<Seq<(u32, u32)>>,
    nkey: u32,
    table: Seq<u8>,
    data: Seq<u8>,
    item: u32,
)
    requires
        table_wf(b),
        serializable(b),
        nkey == u32_of_be4(spec_blob(b)[0], spec_blob(b)[1], spec_blob(b)[2], spec_blob(b)[3]),
        table == spec_blob(b).subrange(4, 4 + 3 * (nkey as int + 1)),
        data == spec_blob(b).subrange(4 + 3 * (nkey as int + 1), spec_blob(b).len() as int),
    ensures
        find_code(nkey, table, data, item) == first_match(b[key_of(item)], item & MASK25),
{
    lemma_max_key_below_range(b, NBUCKETS as int);
    lemma_load_parses_blob(b);
    lemma_blob_resolves(b, item);
}

/// Round trip: every record present in a serializable State Table is
/// found again by querying the serialized blob with its state value — the
/// lookup is a hit, and what it returns is the origin code of the first
/// record of that state's bucket that stores the same state (records that
/// collide on the full masked state are resolved to the earliest insert).
pub proof fn lemma_round_trip(b: Seq<Seq<(u32, u32)>>, k: int, i: int)
    requires
        table_wf(b),
        serializable(b),
        0 <= k < b.len(),
        0 <= i < b[k].len(),
    ensures
        find_code(
            max_key(b) as u32,
            table_bytes_upto(b, max_key(b) + 1),
            data_bytes_upto(b, max_key(b) + 1),
            b[k][i].0,
        ) == first_match(b[k], b[k][i].0),
        first_match(b[k], b[k][i].0) is Some,
{
    assert(entry_ok(k, b[k][i]));
    let s = b[k][i].0;
    assert(s == s & MASK25 ==> s & MASK25 == s) by (bit_vector);
    lemma_blob_resolves(b, s);
    lemma_first_match_present(b[k], s, i);
}

/// Completeness of misses: a state value that no record of the table
/// stores (masked to its significant 25 bits) is never found — lookup on
/// the serialized blob returns a miss, never a spurious hit.
pub proof fn lemma_miss_complete(b: Seq<Seq<(u32, u32)>>, item: u32)
    requires
        table_wf(b),
        serializable(b),
        forall|k: int, i: int|
            0 <= k < b.len() && 0 <= i < b[k].len() ==> (#[trigger] b[k][i]).0 != item & MASK25,
    ensures
        find_code(
            max_key(b) as u32,
            table_bytes_upto(b, max_key(b) + 1),
            data_bytes_upto(b, max_key(b) + 1),
            item,
        ) == None::<u32>,
{
    lemma_blob_resolves(b, item);
    let k = key_of(item);
    assert(item & 0x7_FFFF < 0x8_0000) by (bit_vector);
    lemma_first_match_absent(b[k], item & MASK25);
}

/// An empty bucket serializes to an all-zero descriptor, and any query
/// that addresses it misses.
pub proof fn lemma_empty_bucket_misses(b: Seq<Seq<(u32, u32)>>, item: u32)
    requires
        table_wf(b),
        serializable(b),
        b[key_of(item)].len() == 0,
    ensures
        descriptor(b, key_of(item)) == 0,
        find_code(
            max_key(b) as u32,
            table_bytes_upto(b, max_key(b) + 1),
            data_bytes_upto(b, max_key(b) + 1),
            item,
        ) == None::<u32>,
{
    lemma_blob_resolves(b, item);
}

/// Bucket bound at the lookup level: a lookup's result depends only on
/// the loaded header, the lookup table, and the window of the data region
/// that the addressed descriptor bounds — two data regions of equal
/// length that agree on those 8·len bytes resolve every query of that
/// bucket identically, so no record beyond the recorded length is ever
/// consulted.
pub proof fn lemma_find_reads_window_only(
    nkey: u32,
    table: Seq<u8>,
    d1: Seq<u8>,
    d2: Seq<u8>,
    item: u32,
)
    requires
        d1.len() == d2.len(),
        ({
            let k = (item & MASK19) as int;
            3 * (k + 1) <= table.len() ==> {
                let d = u32_of_be3(table[3 * k], table[3 * k + 1], table[3 * k + 2]);
                let len = (d >> 19) as int;
                let off = (d & MASK19) as int;
                off + 8 * len <= d1.len() ==> d1.subrange(off, off + 8 * len) == d2.subrange(
                    off,
                    off + 8 * len,
                )
            }
        }),
    ensures
        find_code(nkey, table, d1, item) == find_code(nkey, table, d2, item),
{
    let k = (item & MASK19) as int;
    let m = item & MASK25;
    if item & MASK19 <= nkey && table.len() >= 3 * (k + 1) {
        let d = u32_of_be3(table[3 * k], table[3 * k + 1], table[3 * k + 2]);
        let len = (d >> 19) as int;
        let off = (d & MASK19) as int;
        if off + 8 * len <= d1.len() {
            lemma_scan_reads_window_only(d1, d2, off, len, m);
        }
    }
}

/// Bucket bound, scan level: a scan of `len` records at `off` resolves
/// identically over any two data regions that agree on those 8·len bytes.
pub proof fn lemma_scan_reads_window_only(
    d1: Seq<u8>,
    d2: Seq<u8>,
    off: int,
    len: int,
    m: u32,
)
    requires
        0 <= off,
        0 <= len,
        off + 8 * len <= d1.len(),
        off + 8 * len <= d2.len(),
        d1.subrange(off, off + 8 * len) == d2.subrange(off, off + 8 * len),
    ensures
        scan_bucket(d1, off, len, m) == scan_bucket(d2, off, len, m),
    decreases len,
{
    if len > 0 {
        let s1 = d1.subrange(off, off + 8 * len);
        let s2 = d2.subrange(off, off + 8 * len);
        assert(rec_state(d1, off) == rec_state(d2, off) && rec_code(d1, off) == rec_code(
            d2,
            off,
        )) by {
            assert(s1[0] == d1[off] && s1[1] == d1[off + 1] && s1[2] == d1[off + 2] && s1[3]
                == d1[off + 3] && s1[4] == d1[off + 4] && s1[5] == d1[off + 5] && s1[6] == d1[off
                + 6] && s1[7] == d1[off + 7]);
            assert(s2[0] == d2[off] && s2[1] == d2[off + 1] && s2[2] == d2[off + 2] && s2[3]
                == d2[off + 3] && s2[4] == d2[off + 4] && s2[5] == d2[off + 5] && s2[6] == d2[off
                + 6] && s2[7] == d2[off + 7]);
        }
        let t1 = d1.subrange(off + 8, off + 8 + 8 * (len - 1));
        let t2 = d2.subrange(off + 8, off + 8 + 8 * (len - 1));
        assert forall|c: int| 0 <= c < 8 * (len - 1) implies #[trigger] t1[c] == t2[c] by {
            assert(t1[c] == d1[off + 8 + c]);
            assert(t2[c] == d2[off + 8 + c]);
            assert(s1[8 + c] == d1[off + (8 + c)]);
            assert(s2[8 + c] == d2[off + (8 + c)]);
        }
        assert(t1 =~= t2);
        lemma_scan_reads_window_only(d1, d2, off + 8, len - 1, m);
    }
}

} // verus!
