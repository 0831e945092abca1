//! The Index Reader / Resolver: loads a serialized Index Blob, addresses
//! the descriptor of a queried state's bucket directly, and scans exactly
//! that bucket's records for an exact match.

use vstd::prelude::*;
use vstd::slice::{slice_subrange, slice_to_vec};
use crate::bits::{u32_of_be3, u32_of_be4, MASK17, MASK19, MASK25};
use crate::bytesio::{read_u24_be, read_u32_be};

verus! {

/// The state value stored by the record at byte `off` of the data region.
pub open spec fn rec_state(data: Seq<u8>, off: int) -> u32 {
    u32_of_be4(data[off], data[off + 1], data[off + 2], data[off + 3])
}

/// The origin code stored by the record at byte `off` of the data region.
pub open spec fn rec_code(data: Seq<u8>, off: int) -> u32 {
    u32_of_be4(data[off + 4], data[off + 5], data[off + 6], data[off + 7])
}

/// The origin code of the first record, among the `len` consecutive
/// records starting at byte `off` of the data region, whose stored state
/// equals `m`; `None` when no record in that window matches.
pub open spec fn scan_bucket(data: Seq<u8>, off: int, len: int, m: u32) -> Option<u32>
    decreases len,
{
    if len <= 0 {
        None
    } else if rec_state(data, off) == m {
        Some(rec_code(data, off))
    } else {
        scan_bucket(data, off + 8, len - 1, m)
    }
}

/// The origin code a lookup resolves `item` to, given the loaded blob's
/// header value and its two regions: the query's 19-bit bucket key selects
/// a 3-byte descriptor, whose top five bits bound the scan and whose low
/// 19 bits locate it. A key beyond the table, a descriptor slot beyond the
/// loaded table region, or a window beyond the loaded data region resolves
/// to a miss.
pub open spec fn find_code(nkey: u32, table: Seq<u8>, data: Seq<u8>, item: u32) -> Option<u32> {
    let k = (item & MASK19) as int;
    let m = item & MASK25;
    if item & MASK19 > nkey {
        None
    } else if table.len() < 3 * (k + 1) {
        None
    } else {
        let d = u32_of_be3(table[3 * k], table[3 * k + 1], table[3 * k + 2]);
        let len = (d >> 19) as int;
        let off = (d & MASK19) as int;
        if off + 8 * len > data.len() {
            None
        } else {
            scan_bucket(data, off, len, m)
        }
    }
}

/// A loaded Index Blob: the header's key count, the direct-lookup table
/// region and the data region.
pub struct Lookup {
    pub nkey: u32,
    pub table: Vec<u8>,
    pub data: Vec<u8>,
}

impl Lookup {
    /// Splits a serialized blob into header, lookup table and data region.
    /// Returns `None` when the blob is too short to hold the header and
    /// the descriptor slots the header announces.
    pub fn load(blob: &[u8]) -> (r: Option<Lookup>)
        ensures
            (match r {
                Some(l) => {
                    let n = u32_of_be4(blob@[0], blob@[1], blob@[2], blob@[3]);
                    let tend = 4 + 3 * (n as int + 1);
                    &&& blob@.len() >= 4
                    &&& tend <= blob@.len()
                    &&& l.nkey == n
                    &&& l.table@ == blob@.subrange(4, tend)
                    &&& l.data@ == blob@.subrange(tend, blob@.len() as int)
                },
                None => blob@.len() < 4 || 4 + 3 * (u32_of_be4(blob@[0], blob@[1], blob@[2],
                    blob@[3]) as int + 1) > blob@.len(),
            }),
    {
        if blob.len() < 4 {
            return None;
        }
        let n = read_u32_be(blob);
        let tend64: u64 = 4 + 3 * (n as u64 + 1);
        if tend64 > blob.len() as u64 {
            return None;
        }
        let tend = tend64 as usize;
        let table = slice_to_vec(slice_subrange(blob, 4, tend));
        let data = slice_to_vec(slice_subrange(blob, tend, blob.len()));
        Some(Lookup { nkey: n, table, data })
    }

    /// Resolves a state value to the (channel id, step index) that produced
    /// it, or `None` on a miss. The query is masked to its significant 25
    /// bits; its low 19 bits select the bucket whose records are scanned,
    /// and only that bucket's recorded window is ever read.
    pub fn find(&self, item: u32) -> (r: Option<(usize, u32)>)
        ensures
            (match find_code(self.nkey, self.table@, self.data@, item) {
                Some(c) => r == Some((((c >> 17) as usize), c & MASK17)),
                None => r == None::<(usize, u32)>,
            }),
    {
        let li: u32 = item & MASK19;
        let m: u32 = item & MASK25;
        if li > self.nkey {
            return None;
        }
        proof {
            assert(item & 0x7_FFFF < 0x8_0000) by (bit_vector);
        }
        let ki: usize = li as usize;
        if self.table.len() < 3 * ki + 3 {
            return None;
        }
        let d: u32 = read_u24_be(slice_subrange(self.table.as_slice(), 3 * ki, 3 * ki + 3));
        proof {
            let sub = self.table@.subrange(3 * ki as int, 3 * ki as int + 3);
            assert(sub[0] == self.table@[3 * ki as int] && sub[1] == self.table@[3 * ki as int + 1]
                && sub[2] == self.table@[3 * ki as int + 2]);
            assert(d == u32_of_be3(self.table@[3 * ki as int], self.table@[3 * ki as int + 1],
                self.table@[3 * ki as int + 2]));
        }
        let len: usize = (d >> 19u32) as usize;
        let off: usize = (d & MASK19) as usize;
        proof {
            crate::bits::lemma_u32_of_be3_bound(self.table@[3 * ki as int], self.table@[3 * ki
                as int + 1], self.table@[3 * ki as int + 2]);
            assert(d < 0x100_0000 ==> d >> 19u32 < 32 && (d & 0x7_FFFF) < 0x8_0000)
                by (bit_vector);
        }
        if off + 8 * len > self.data.len() {
            return None;
        }
        let ghost off0 = off as int;
        let ghost len0 = len as int;
        proof {
            assert(find_code(self.nkey, self.table@, self.data@, item) == scan_bucket(
                self.data@,
                off0,
                len0,
                m,
            ));
        }
        let mut i: usize = 0;
        while i < len
            invariant
                i <= len,
                len == len0,
                off == off0,
                len0 < 32,
                off0 < 0x8_0000,
                m == item & MASK25,
                off0 + 8 * len0 <= self.data@.len(),
                find_code(self.nkey, self.table@, self.data@, item) == scan_bucket(
                    self.data@,
                    off0,
                    len0,
                    m,
                ),
                scan_bucket(self.data@, off0, len0, m) == scan_bucket(
                    self.data@,
                    off0 + 8 * i,
                    len0 - i,
                    m,
                ),
            decreases len - i,
        {
            let p: usize = off + 8 * i;
            let k = read_u32_be(slice_subrange(self.data.as_slice(), p, p + 4));
            proof {
                let sub = self.data@.subrange(p as int, p as int + 4);
                assert(sub[0] == self.data@[p as int] && sub[1] == self.data@[p as int + 1]
                    && sub[2] == self.data@[p as int + 2] && sub[3] == self.data@[p as int + 3]);
                assert(k == rec_state(self.data@, p as int));
            }
            if k == m {
                let v = read_u32_be(slice_subrange(self.data.as_slice(), p + 4, p + 8));
                proof {
                    let sub = self.data@.subrange(p as int + 4, p as int + 8);
                    assert(sub[0] == self.data@[p as int + 4] && sub[1] == self.data@[p as int + 5]
                        && sub[2] == self.data@[p as int + 6] && sub[3] == self.data@[p as int
                        + 7]);
                    assert(v == rec_code(self.data@, p as int));
                    assert(scan_bucket(self.data@, off0 + 8 * i, len0 - i, m) == Some(v));
                }
                return Some((((v >> 17u32) as usize), v & MASK17));
            }
            i = i + 1;
        }
        None
    }
}

} // verus!
