//! The Index Serializer: lays a State Table out as a flat binary blob —
//! a 4-byte record-count header, a direct-lookup table of 3-byte bucket
//! descriptors for every key up to the highest present one, and a packed
//! data region of 8-byte records in bucket-key order.

use vstd::prelude::*;
use crate::bits::{be3, be4, NBUCKETS};
use crate::bytesio::{put_u24_be, put_u32_be};
use crate::table::{table_wf, StateTable};

verus! {

/// Number of records filed under keys below `n`.
pub open spec fn records_upto(b: Seq<Seq<(u32, u32)>>, n: int) -> int
    decreases n,
{
    if n <= 0 {
        0
    } else {
        records_upto(b, n - 1) + b[n - 1].len()
    }
}

/// Byte offset, from the start of the data region, of bucket `k`'s first
/// record.
pub open spec fn offset_of(b: Seq<Seq<(u32, u32)>>, k: int) -> int {
    8 * records_upto(b, k)
}

/// The descriptor of bucket `k`: record count in the top five bits of a
/// 24-bit value, data-region byte offset in the low 19 bits; all zero bits
/// for a bucket with no records.
pub open spec fn descriptor(b: Seq<Seq<(u32, u32)>>, k: int) -> u32 {
    if b[k].len() == 0 {
        0
    } else {
        ((b[k].len() as u32) << 19) | (offset_of(b, k) as u32)
    }
}

/// The lookup-table region covering keys below `n`: one 3-byte big-endian
/// descriptor per key, in ascending key order.
pub open spec fn table_bytes_upto(b: Seq<Seq<(u32, u32)>>, n: int) -> Seq<u8>
    decreases n,
{
    if n <= 0 {
        Seq::empty()
    } else {
        table_bytes_upto(b, n - 1) + be3(descriptor(b, n - 1))
    }
}

/// The wire form of a bucket's first `j` records: for each, 4 bytes of
/// big-endian state value then 4 bytes of big-endian origin code.
pub open spec fn bucket_bytes_upto(s: Seq<(u32, u32)>, j: int) -> Seq<u8>
    decreases j,
{
    if j <= 0 {
        Seq::empty()
    } else {
        bucket_bytes_upto(s, j - 1) + be4(s[j - 1].0) + be4(s[j - 1].1)
    }
}

/// The wire form of one whole bucket.
pub open spec fn bucket_bytes(s: Seq<(u32, u32)>) -> Seq<u8> {
    bucket_bytes_upto(s, s.len() as int)
}

/// The data region covering buckets with keys below `n`, back to back in
/// ascending key order.
pub open spec fn data_bytes_upto(b: Seq<Seq<(u32, u32)>>, n: int) -> Seq<u8>
    decreases n,
{
    if n <= 0 {
        Seq::empty()
    } else {
        data_bytes_upto(b, n - 1) + bucket_bytes(b[n - 1])
    }
}

/// The highest key below `n` whose bucket holds a record; 0 when none does.
pub open spec fn max_key_below(b: Seq<Seq<(u32, u32)>>, n: int) -> int
    decreases n,
{
    if n <= 1 {
        0
    } else if b[n - 1].len() > 0 {
        n - 1
    } else {
        max_key_below(b, n - 1)
    }
}

/// The highest present bucket key of the whole table; 0 when the table is
/// empty.
pub open spec fn max_key(b: Seq<Seq<(u32, u32)>>) -> int {
    max_key_below(b, NBUCKETS as int)
}

/// Every bucket fits its descriptor: at most 31 records, and, when the
/// bucket is non-empty, a data-region offset below 2^19.
pub open spec fn fits(b: Seq<Seq<(u32, u32)>>, k: int) -> bool {
    &&& b[k].len() <= 31
    &&& b[k].len() > 0 ==> offset_of(b, k) < 0x8_0000
}

/// The capacity invariant of the format: every bucket fits its descriptor.
pub open spec fn serializable(b: Seq<Seq<(u32, u32)>>) -> bool {
    forall|k: int| 0 <= k < b.len() ==> fits(b, k)
}

/// The whole Index Blob: header, lookup table for keys 0 through the
/// highest present key inclusive, then the data region.
pub open spec fn spec_blob(b: Seq<Seq<(u32, u32)>>) -> Seq<u8> {
    be4(max_key(b) as u32) + table_bytes_upto(b, max_key(b) + 1) + data_bytes_upto(
        b,
        max_key(b) + 1,
    )
}

/// The lookup-table region spans three bytes per covered key.
pub proof fn lemma_table_bytes_len(b: Seq<Seq<(u32, u32)>>, n: int)
    requires
        n >= 0,
    ensures
        table_bytes_upto(b, n).len() == 3 * n,
    decreases n,
{
    if n > 0 {
        lemma_table_bytes_len(b, n - 1);
    }
}

/// A bucket's wire form spans eight bytes per record.
pub proof fn lemma_bucket_bytes_len(s: Seq<(u32, u32)>, j: int)
    requires
        j >= 0,
    ensures
        bucket_bytes_upto(s, j).len() == 8 * j,
    decreases j,
{
    if j > 0 {
        lemma_bucket_bytes_len(s, j - 1);
    }
}

/// The data region spans eight bytes per record it covers.
pub proof fn lemma_data_bytes_len(b: Seq<Seq<(u32, u32)>>, n: int)
    requires
        n >= 0,
    ensures
        data_bytes_upto(b, n).len() == 8 * records_upto(b, n),
    decreases n,
{
    if n > 0 {
        lemma_data_bytes_len(b, n - 1);
        lemma_bucket_bytes_len(b[n - 1], b[n - 1].len() as int);
    }
}

/// Record counts accumulate monotonically in the key.
pub proof fn lemma_records_upto_monotonic(b: Seq<Seq<(u32, u32)>>, i: int, j: int)
    requires
        0 <= i <= j,
    ensures
        records_upto(b, i) <= records_upto(b, j),
    decreases j - i,
{
    if i < j {
        lemma_records_upto_monotonic(b, i, j - 1);
    }
}

/// With every bucket holding at most 31 records, the record count below
/// `n` is bounded by 31 per key.
pub proof fn lemma_records_upto_bound(b: Seq<Seq<(u32, u32)>>, n: int)
    requires
        n >= 0,
        forall|k: int| 0 <= k < n ==> #[trigger] b[k].len() <= 31,
    ensures
        records_upto(b, n) <= 31 * n,
    decreases n,
{
    if n > 0 {
        lemma_records_upto_bound(b, n - 1);
    }
}

/// No bucket above the highest present key holds a record.
pub proof fn lemma_max_key_below_empty_above(b: Seq<Seq<(u32, u32)>>, n: int, j: int)
    requires
        max_key_below(b, n) < j < n,
    ensures
        b[j].len() == 0,
    decreases n,
{
    if j < n - 1 {
        lemma_max_key_below_empty_above(b, n - 1, j);
    }
}

/// Writes the State Table as an Index Blob, or signals that some bucket
/// exceeds the descriptor's capacity (more than 31 records, or a data
/// offset that does not fit the 19-bit field).
pub fn serialize(t: &StateTable) -> (r: Option<Vec<u8>>)
    requires
        table_wf(t@),
    ensures
        (match r {
            Some(v) => serializable(t@) && v@ == spec_blob(t@),
            None => !serializable(t@),
        }),
{
    // First pass: check the capacity invariant and find the highest
    // present key.
    let mut total: usize = 0;
    let mut maxk: usize = 0;
    let mut k: usize = 0;
    while k < NBUCKETS
        invariant
            table_wf(t@),
            k <= NBUCKETS,
            total == records_upto(t@, k as int),
            total <= 31 * k,
            maxk == max_key_below(t@, k as int),
            maxk < NBUCKETS,
            forall|j: int| 0 <= j < k ==> fits(t@, j),
        decreases NBUCKETS - k,
    {
        let l = t.buckets[k].len();
        if l > 0 {
            if l > 31 {
                proof {
                    assert(!fits(t@, k as int));
                }
                return None;
            }
            if total >= 0x1_0000 {
                proof {
                    assert(offset_of(t@, k as int) >= 0x8_0000);
                    assert(!fits(t@, k as int));
                }
                return None;
            }
            maxk = k;
        }
        total = total + l;
        k = k + 1;
    }
    proof {
        assert(serializable(t@));
        assert forall|j: int| 0 <= j < NBUCKETS as int implies #[trigger] t@[j].len() <= 31 by {
            assert(fits(t@, j));
        }
        lemma_records_upto_bound(t@, NBUCKETS as int);
    }

    // Second pass: header, then one descriptor per key up to the highest
    // present key.
    let ghost b = t@;
    let mut out: Vec<u8> = Vec::new();
    put_u32_be(&mut out, maxk as u32);
    let mut off: usize = 0;
    let mut k2: usize = 0;
    while k2 <= maxk
        invariant
            table_wf(b),
            serializable(b),
            b == t@,
            maxk == max_key(b),
            maxk < NBUCKETS,
            k2 <= maxk + 1,
            off == offset_of(b, k2 as int),
            off <= 8 * records_upto(b, NBUCKETS as int),
            records_upto(b, NBUCKETS as int) <= 31 * NBUCKETS,
            out@ == be4(maxk as u32) + table_bytes_upto(b, k2 as int),
        decreases maxk + 1 - k2,
    {
        proof {
            lemma_table_bytes_len(b, k2 as int);
            lemma_records_upto_monotonic(b, k2 as int + 1, NBUCKETS as int);
        }
        let l = t.buckets[k2].len();
        if l == 0 {
            put_u24_be(&mut out, 0);
            proof {
                assert(out@ =~= be4(maxk as u32) + table_bytes_upto(b, k2 as int + 1));
            }
        } else {
            proof {
                assert(fits(b, k2 as int));
            }
            let d = ((l as u32) << 19u32) | (off as u32);
            proof {
                assert(d == descriptor(b, k2 as int));
            }
            put_u24_be(&mut out, d);
            proof {
                assert(out@ =~= be4(maxk as u32) + table_bytes_upto(b, k2 as int + 1));
            }
            off = off + 8 * l;
        }
        k2 = k2 + 1;
    }

    // Third pass: the data region, buckets back to back in key order.
    proof {
        lemma_table_bytes_len(b, maxk as int + 1);
        assert forall|j: int| 0 <= j < maxk as int + 1 implies #[trigger] b[j].len() <= 31 by {
            assert(fits(b, j));
        }
        lemma_records_upto_bound(b, maxk as int + 1);
    }
    let ghost header_table = be4(maxk as u32) + table_bytes_upto(b, maxk as int + 1);
    let mut k3: usize = 0;
    while k3 <= maxk
        invariant
            table_wf(b),
            serializable(b),
            b == t@,
            maxk == max_key(b),
            maxk < NBUCKETS,
            k3 <= maxk + 1,
            header_table == be4(maxk as u32) + table_bytes_upto(b, maxk as int + 1),
            header_table.len() == 4 + 3 * (maxk as int + 1),
            records_upto(b, maxk as int + 1) <= 31 * (maxk as int + 1),
            out@ == header_table + data_bytes_upto(b, k3 as int),
        decreases maxk + 1 - k3,
    {
        proof {
            assert(fits(b, k3 as int));
            lemma_records_upto_monotonic(b, k3 as int, maxk as int + 1);
        }
        let blen = t.buckets[k3].len();
        let mut j: usize = 0;
        while j < blen
            invariant
                table_wf(b),
                b == t@,
                maxk < NBUCKETS,
                k3 <= maxk,
                blen == b[k3 as int].len(),
                blen <= 31,
                j <= blen,
                header_table.len() == 4 + 3 * (maxk as int + 1),
                records_upto(b, maxk as int + 1) <= 31 * (maxk as int + 1),
                records_upto(b, k3 as int) + j <= records_upto(b, maxk as int + 1),
                out@ == header_table + data_bytes_upto(b, k3 as int) + bucket_bytes_upto(
                    b[k3 as int],
                    j as int,
                ),
            decreases blen - j,
        {
            proof {
                lemma_data_bytes_len(b, k3 as int);
                lemma_bucket_bytes_len(b[k3 as int], j as int);
            }
            let rec = t.buckets[k3][j];
            put_u32_be(&mut out, rec.0);
            put_u32_be(&mut out, rec.1);
            proof {
                assert(out@ =~= header_table + data_bytes_upto(b, k3 as int)
                    + bucket_bytes_upto(b[k3 as int], j as int + 1));
                assert(records_upto(b, k3 as int + 1) == records_upto(b, k3 as int) + b[k3
                    as int].len());
                lemma_records_upto_monotonic(b, k3 as int + 1, maxk as int + 1);
            }
            j = j + 1;
        }
        proof {
            assert(out@ =~= header_table + data_bytes_upto(b, k3 as int + 1));
            lemma_records_upto_monotonic(b, k3 as int + 1, maxk as int + 1);
        }
        k3 = k3 + 1;
    }
    proof {
        assert(out@ =~= spec_blob(b));
    }
    Some(out)
}

} // verus!
