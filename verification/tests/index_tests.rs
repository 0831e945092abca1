use lfsr_index::blob::serialize;
use lfsr_index::lfsr::lfsr_gen;
use lfsr_index::lookup::Lookup;
use lfsr_index::table::{default_polys, StateTable};

#[test]
fn generator_emits_fixed_prefix() {
    let mut g = lfsr_gen(0x0001_D258);
    assert_eq!(g.next(), Some((0, 1)));
    assert_eq!(g.next(), Some((1, 2)));
    assert_eq!(g.next(), Some((2, 4)));
    assert_eq!(g.next(), Some((3, 8)));
    assert_eq!(g.next(), Some((4, 0x11)));
}

#[test]
fn generator_deterministic_and_exhausts_after_2_pow_17() {
    let mut a = lfsr_gen(0x0001_7E04);
    let mut b = lfsr_gen(0x0001_7E04);
    let mut count: u64 = 0;
    loop {
        let pa = a.next();
        let pb = b.next();
        assert_eq!(pa, pb);
        match pa {
            Some(_) => count += 1,
            None => break,
        }
    }
    assert_eq!(count, 1 << 17);
    assert_eq!(a.next(), None);
    assert_eq!(b.next(), None);
}

#[test]
fn masking_twice_is_a_no_op() {
    for &x in &[0u32, 1, 0x1FF_FFFF, 0x200_0000, 0xFFFF_FFFF, 0x2BA6_CAD2] {
        let m25 = x & 0x1FF_FFFF;
        assert_eq!(m25 & 0x1FF_FFFF, m25);
        let m17 = x & 0x1_FFFF;
        assert_eq!(m17 & 0x1_FFFF, m17);
    }
}

#[test]
fn single_record_blob_bytes_are_exact() {
    let mut t = StateTable::new();
    t.insert(1, 3, 7);
    let blob = serialize(&t).unwrap();
    assert_eq!(
        blob,
        vec![
            0, 0, 0, 1, // header: highest present key
            0, 0, 0, // key 0: empty bucket descriptor
            0x08, 0x00, 0x00, // key 1: one record at data offset 0
            0, 0, 0, 1, // record state
            0x00, 0x06, 0x00, 0x07, // record origin: channel 3, step 7
        ]
    );
    let l = Lookup::load(&blob).unwrap();
    assert_eq!(l.find(1), Some((3, 7)));
}

#[test]
fn round_trip_over_several_buckets() {
    let mut t = StateTable::new();
    t.insert(0x0000_0005, 0, 12);
    t.insert(0x0008_0005, 1, 34); // same low 19 bits as above, distinct state
    t.insert(0x0123_4567, 7, 99);
    t.insert(0x01FF_FFFF, 31, 0x1_FFFF);
    t.insert(0xFFFF_FFFF, 2, 3); // masked down to 0x1FFFFFF on insert: collides
    let blob = serialize(&t).unwrap();
    let l = Lookup::load(&blob).unwrap();
    assert_eq!(l.find(0x0000_0005), Some((0, 12)));
    assert_eq!(l.find(0x0008_0005), Some((1, 34)));
    assert_eq!(l.find(0x0123_4567), Some((7, 99)));
    // first insert of a fully collided masked state wins, whichever way the
    // query spells the state above bit 25
    assert_eq!(l.find(0x01FF_FFFF), Some((31, 0x1_FFFF)));
    assert_eq!(l.find(0xFFFF_FFFF), Some((31, 0x1_FFFF)));
}

#[test]
fn misses_never_produce_a_spurious_match() {
    let mut t = StateTable::new();
    t.insert(0x0000_0005, 0, 12);
    t.insert(0x0123_4567, 7, 99);
    let blob = serialize(&t).unwrap();
    let l = Lookup::load(&blob).unwrap();
    // same bucket as an inserted state, different masked state
    assert_eq!(l.find(0x0008_0005 + (5 << 19)), None);
    assert_eq!(l.find(0x0010_0005), None);
    // key beyond the table bounds
    assert_eq!(l.find(0x01FF_FFFF), None);
}

#[test]
fn empty_bucket_has_zero_descriptor_and_misses() {
    let mut t = StateTable::new();
    t.insert(0, 0, 1);
    t.insert(2, 0, 2);
    let blob = serialize(&t).unwrap();
    // header says highest key 2; the slot of untouched key 1 is all zero
    assert_eq!(&blob[..4], &[0, 0, 0, 2]);
    assert_eq!(&blob[7..10], &[0, 0, 0]);
    let l = Lookup::load(&blob).unwrap();
    assert_eq!(l.find(1), None);
}

#[test]
fn full_bucket_of_31_distinct_states_resolves_each() {
    let mut t = StateTable::new();
    let key: u32 = 0x4_2042;
    for j in 0..31u32 {
        // distinct 25-bit states that share the low 19 bits
        t.insert(key | (j << 19), 4, 1000 + j);
    }
    let blob = serialize(&t).unwrap();
    let l = Lookup::load(&blob).unwrap();
    for j in 0..31u32 {
        assert_eq!(l.find(key | (j << 19)), Some((4, 1000 + j)));
    }
}

#[test]
fn serialize_rejects_a_bucket_beyond_31_records() {
    let mut t = StateTable::new();
    for j in 0..32u32 {
        t.insert(5, 0, j);
    }
    assert!(serialize(&t).is_none());
}

#[test]
fn serialize_rejects_a_data_offset_beyond_19_bits() {
    let mut t = StateTable::new();
    for i in 0..=65536u32 {
        t.insert(i, 0, 0);
    }
    assert!(serialize(&t).is_none());
}

#[test]
fn load_rejects_truncated_blobs() {
    assert!(Lookup::load(&[]).is_none());
    assert!(Lookup::load(&[0, 0, 0]).is_none());
    // header announces two descriptor slots but only one is present
    assert!(Lookup::load(&[0, 0, 0, 1, 0, 0, 0]).is_none());
    // header plus exactly one zero slot parses, and everything misses
    let l = Lookup::load(&[0, 0, 0, 0, 0, 0, 0]).unwrap();
    assert_eq!(l.find(0), None);
    assert_eq!(l.find(123), None);
}

#[test]
fn scenario_single_polynomial_channel_ten() {
    let polys = default_polys();
    assert_eq!(polys.len(), 32);
    let p = polys[0];
    assert_eq!(p, 0x0001_D258);

    let mut g = lfsr_gen(p);
    let mut t = StateTable::new();
    let mut last = (0u32, 0u32);
    for _ in 0..10_000 {
        let (step, state) = g.next().unwrap();
        t.insert(state, 10, step);
        last = (step, state);
    }
    // regression pin: the 10,000th emitted pair
    assert_eq!(last, (9999, 0x2BA6_CAD2));

    let blob = serialize(&t).unwrap();
    let l = Lookup::load(&blob).unwrap();
    assert_eq!(l.find(last.1 & 0x1FF_FFFF), Some((10, 9999)));
}

#[test]
fn build_matches_inserting_by_hand() {
    let polys = vec![0x0001_5769u32];
    let built = StateTable::build(&polys);

    let mut manual = StateTable::new();
    let mut g = lfsr_gen(polys[0]);
    while let Some((step, state)) = g.next() {
        manual.insert(state, 0, step);
    }

    let mut total_built: u64 = 0;
    let mut total_manual: u64 = 0;
    for k in 0..(1usize << 19) {
        let n = built.bucket_len(k);
        assert_eq!(n, manual.bucket_len(k));
        total_built += n as u64;
        total_manual += manual.bucket_len(k) as u64;
    }
    assert_eq!(total_built, 1 << 17);
    assert_eq!(total_manual, 1 << 17);
}
