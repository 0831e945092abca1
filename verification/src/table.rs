//! The in-memory State Table: the build-time mapping from every observed
//! 25-bit state value to the packed origins that produced it, grouped by a
//! 19-bit bucket key. One growable record list per possible key stands in
//! for the original's ordered map; the key-ordered walk the serializer
//! needs comes directly from the indexing.

use vstd::prelude::*;
use crate::bits::{MASK17, MASK19, MASK25, NBUCKETS, STEPS};
use crate::lfsr::{lfsr_gen, nth_state};

verus! {

/// The fixed ordered set of 32 tap polynomials, one per channel id.
pub open spec fn default_polys_spec() -> Seq<u32> {
    seq![
        0x0001_D258u32, 0x0001_7E04u32, 0x0001_FF6Bu32, 0x0001_3F67u32, 0x0001_B9EEu32,
        0x0001_98D1u32, 0x0001_78C7u32, 0x0001_8A55u32, 0x0001_5777u32, 0x0001_D911u32,
        0x0001_5769u32, 0x0001_991Fu32, 0x0001_2BD0u32, 0x0001_CF73u32, 0x0001_365Du32,
        0x0001_97F5u32, 0x0001_94A0u32, 0x0001_B279u32, 0x0001_3A34u32, 0x0001_AE41u32,
        0x0001_80D4u32, 0x0001_7891u32, 0x0001_2E64u32, 0x0001_7C72u32, 0x0001_9C6Du32,
        0x0001_3F32u32, 0x0001_AE14u32, 0x0001_4E76u32, 0x0001_3C97u32, 0x0001_30CBu32,
        0x0001_3750u32, 0x0001_CB8Du32,
    ]
}

/// Returns the fixed ordered list of the 32 tap polynomials.
pub fn default_polys() -> (v: Vec<u32>)
    ensures
        v@ == default_polys_spec(),
{
    let v: Vec<u32> = vec![
        0x0001_D258, 0x0001_7E04, 0x0001_FF6B, 0x0001_3F67, 0x0001_B9EE, 0x0001_98D1,
        0x0001_78C7, 0x0001_8A55, 0x0001_5777, 0x0001_D911, 0x0001_5769, 0x0001_991F,
        0x0001_2BD0, 0x0001_CF73, 0x0001_365D, 0x0001_97F5, 0x0001_94A0, 0x0001_B279,
        0x0001_3A34, 0x0001_AE41, 0x0001_80D4, 0x0001_7891, 0x0001_2E64, 0x0001_7C72,
        0x0001_9C6D, 0x0001_3F32, 0x0001_AE14, 0x0001_4E76, 0x0001_3C97, 0x0001_30CB,
        0x0001_3750, 0x0001_CB8D,
    ];
    proof {
        assert(v@ =~= default_polys_spec());
    }
    v
}

/// The packed origin code: channel id in the bits above 17, step index
/// (masked to its significant 17 bits) below.
pub open spec fn pack_origin(channel: u32, step: u32) -> u32 {
    (channel << 17) | (step & MASK17)
}

/// The bucket key of a state value: its low 19 bits.
pub open spec fn key_of(s: u32) -> int {
    (s & MASK19) as int
}

/// A record carries a state masked to its significant 25 bits and sits in
/// the bucket that its own key selects.
pub open spec fn entry_ok(k: int, e: (u32, u32)) -> bool {
    &&& e.0 == e.0 & MASK25
    &&& key_of(e.0) == k
}

/// Well-formedness of a table model: one bucket per possible key, every
/// record masked and filed under its own key.
pub open spec fn table_wf(b: Seq<Seq<(u32, u32)>>) -> bool {
    &&& b.len() == NBUCKETS as int
    &&& forall|k: int, i: int|
        0 <= k < b.len() && 0 <= i < b[k].len() ==> entry_ok(k, #[trigger] b[k][i])
}

/// The records of channel `ch` over `poly` that fall in bucket `k` within
/// the first `n` generator steps, in step order.
pub open spec fn chan_bucket(poly: u32, ch: u32, n: int, k: int) -> Seq<(u32, u32)>
    decreases n,
{
    if n <= 0 {
        Seq::empty()
    } else {
        let pre = chan_bucket(poly, ch, n - 1, k);
        let s = nth_state(poly, 1, (n - 1) as nat);
        if key_of(s) == k {
            pre.push((s & MASK25, pack_origin(ch, (n - 1) as u32)))
        } else {
            pre
        }
    }
}

/// Bucket `k` of the table built over the first `nch` polynomials, each
/// channel contributing its full 2^17-step run, channels in list order.
pub open spec fn built_bucket(polys: Seq<u32>, nch: int, k: int) -> Seq<(u32, u32)>
    decreases nch,
{
    if nch <= 0 {
        Seq::empty()
    } else {
        built_bucket(polys, nch - 1, k) + chan_bucket(
            polys[nch - 1],
            (nch - 1) as u32,
            STEPS as int,
            k,
        )
    }
}

/// The full build-time mapping, grouped by bucket key. Records accumulate
/// in insertion order and are never overwritten.
pub struct StateTable {
    pub buckets: Vec<Vec<(u32, u32)>>,
}

impl View for StateTable {
    type V = Seq<Seq<(u32, u32)>>;

    open spec fn view(&self) -> Seq<Seq<(u32, u32)>> {
        Seq::new(self.buckets@.len(), |k: int| self.buckets@[k]@)
    }
}

impl StateTable {
    /// Returns an empty table with one bucket per possible 19-bit key.
    pub fn new() -> (t: StateTable)
        ensures
            table_wf(t@),
            forall|k: int| 0 <= k < NBUCKETS as int ==> t@[k] == Seq::<(u32, u32)>::empty(),
    {
        let mut buckets: Vec<Vec<(u32, u32)>> = Vec::new();
        while buckets.len() < NBUCKETS
            invariant
                buckets@.len() <= NBUCKETS as int,
                forall|k: int|
                    0 <= k < buckets@.len() ==> #[trigger] buckets@[k]@ == Seq::<(
                        u32,
                        u32,
                    )>::empty(),
            decreases NBUCKETS as int - buckets@.len(),
        {
            buckets.push(Vec::new());
        }
        StateTable { buckets }
    }

    /// Number of records currently filed under bucket key `k`.
    pub fn bucket_len(&self, k: usize) -> (n: usize)
        requires
            k < self@.len(),
        ensures
            n == self@[k as int].len(),
    {
        self.buckets[k].len()
    }

    /// Appends one record: the state masked to 25 bits, paired with the
    /// packed origin, filed under the state's bucket key. Never overwrites.
    pub fn insert(&mut self, state: u32, channel: u32, step: u32)
        requires
            table_wf(old(self)@),
            channel < 32,
        ensures
            table_wf(final(self)@),
            final(self)@ == old(self)@.update(
                key_of(state),
                old(self)@[key_of(state)].push((state & MASK25, pack_origin(channel, step))),
            ),
    {
        proof {
            assert(state & 0x7_FFFF < 0x8_0000) by (bit_vector);
            assert((state & 0x1FF_FFFF) & 0x1FF_FFFF == state & 0x1FF_FFFF) by (bit_vector);
            assert((state & 0x1FF_FFFF) & 0x7_FFFF == state & 0x7_FFFF) by (bit_vector);
        }
        let k = (state & MASK19) as usize;
        let code = (channel << 17u32) | (step & MASK17);
        self.buckets[k].push((state & MASK25, code));
        proof {
            let key = key_of(state);
            let e = (state & MASK25, pack_origin(channel, step));
            assert(self@ =~~= old(self)@.update(key, old(self)@[key].push(e)));
            assert(entry_ok(key, e));
        }
    }

    /// Drives a fresh generator to completion for every polynomial in
    /// `polys` (channel ids assigned in list order) and files every emitted
    /// (step, state) pair.
    pub fn build(polys: &Vec<u32>) -> (t: StateTable)
        requires
            polys@.len() <= 32,
        ensures
            table_wf(t@),
            forall|k: int|
                0 <= k < NBUCKETS as int ==> t@[k] == built_bucket(
                    polys@,
                    polys@.len() as int,
                    k,
                ),
    {
        let mut t = StateTable::new();
        let mut ch: usize = 0;
        while ch < polys.len()
            invariant
                table_wf(t@),
                ch <= polys@.len() <= 32,
                forall|k: int|
                    0 <= k < NBUCKETS as int ==> t@[k] == built_bucket(polys@, ch as int, k),
            decreases polys@.len() - ch,
        {
            let poly = polys[ch];
            let mut g = lfsr_gen(poly);
            while g.step < STEPS
                invariant
                    g.wf(),
                    g.poly == poly,
                    table_wf(t@),
                    ch < polys@.len() <= 32,
                    poly == polys@[ch as int],
                    forall|k: int|
                        0 <= k < NBUCKETS as int ==> t@[k] == built_bucket(polys@, ch as int, k)
                            + chan_bucket(poly, ch as u32, g.step as int, k),
                decreases STEPS - g.step,
            {
                let ghost step0 = g.step;
                let ghost t0 = t@;
                let p = g.next().unwrap();
                t.insert(p.1, ch as u32, p.0);
                proof {
                    let st = nth_state(poly, 1, step0 as nat);
                    let key = key_of(st);
                    assert(st & 0x7_FFFF < 0x8_0000) by (bit_vector);
                    assert forall|k: int| 0 <= k < NBUCKETS as int implies t@[k] == built_bucket(
                        polys@,
                        ch as int,
                        k,
                    ) + chan_bucket(poly, ch as u32, g.step as int, k) by {
                        assert(chan_bucket(poly, ch as u32, step0 + 1, k) == if key_of(st) == k {
                            chan_bucket(poly, ch as u32, step0 as int, k).push(
                                (st & MASK25, pack_origin(ch as u32, step0)),
                            )
                        } else {
                            chan_bucket(poly, ch as u32, step0 as int, k)
                        });
                        if k == key {
                            assert(t@[k] == t0[k].push((st & MASK25, pack_origin(ch as u32, step0))));
                        } else {
                            assert(t@[k] == t0[k]);
                        }
                    }
                }
            }
            ch = ch + 1;
            proof {
                assert forall|k: int| 0 <= k < NBUCKETS as int implies t@[k] == built_bucket(
                    polys@,
                    ch as int,
                    k,
                ) by {
                    assert(built_bucket(polys@, ch as int, k) == built_bucket(polys@, ch - 1, k)
                        + chan_bucket(polys@[ch - 1], (ch - 1) as u32, STEPS as int, k));
                }
            }
        }
        t
    }
}

} // verus!
