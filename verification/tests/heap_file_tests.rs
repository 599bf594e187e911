use heapstore::heap_file::HeapFile;
use heapstore::ids::ValueId;
use heapstore::in_mem_pool::InMemPool;
use heapstore::vec_compare::compare_unordered_byte_vecs;
use rand::rngs::SmallRng;
use rand::Rng;
use rand::SeedableRng;

fn random_values(rng: &mut SmallRng, n: usize, min: usize, max: usize) -> Vec<Vec<u8>> {
    (0..n)
        .map(|_| {
            let size = rng.random_range(min..=max);
            (0..size).map(|_| rng.random::<u8>()).collect()
        })
        .collect()
}

fn collect_all(hf: &HeapFile, pool: &InMemPool) -> Vec<(Vec<u8>, ValueId)> {
    let mut out = Vec::new();
    let mut it = hf.iter();
    while let Some(pair) = it.next(pool) {
        out.push(pair);
    }
    out
}

#[test]
fn insert_then_scan_yields_the_inserted_multiset() {
    let mut pool = InMemPool::new();
    let hf = HeapFile::new(0, &mut pool).unwrap();
    let mut rng = SmallRng::seed_from_u64(271828);
    let expected = random_values(&mut rng, 1000, 50, 100);
    let ids = hf.add_vals(&mut pool, &expected).unwrap();
    assert_eq!(ids.len(), 1000);
    let result: Vec<Vec<u8>> = collect_all(&hf, &pool).into_iter().map(|(v, _)| v).collect();
    assert!(compare_unordered_byte_vecs(&expected, result));
}

#[test]
fn insert_then_delete_leaves_the_remainder() {
    let mut pool = InMemPool::new();
    let hf = HeapFile::new(1, &mut pool).unwrap();
    let mut rng = SmallRng::seed_from_u64(314159);
    let mut expected = random_values(&mut rng, 100, 50, 100);
    let mut ids = hf.add_vals(&mut pool, &expected).unwrap();
    for _ in 0..10 {
        let idx = rng.random_range(0..expected.len());
        let vid = ids.swap_remove(idx);
        expected.swap_remove(idx);
        hf.delete_val(&mut pool, vid.page_id, vid.slot_id).unwrap();
    }
    let result: Vec<Vec<u8>> = collect_all(&hf, &pool).into_iter().map(|(v, _)| v).collect();
    assert_eq!(result.len(), 90);
    assert!(compare_unordered_byte_vecs(&expected, result));
}

#[test]
fn update_in_place_keeps_the_address() {
    let mut pool = InMemPool::new();
    let hf = HeapFile::new(1, &mut pool).unwrap();
    let mut rng = SmallRng::seed_from_u64(161803);
    let mut expected = random_values(&mut rng, 100, 75, 75);
    let ids = hf.add_vals(&mut pool, &expected).unwrap();
    for k in 0..10 {
        let idx = k * 7;
        let new_bytes: Vec<u8> = (0..15).map(|_| rng.random::<u8>()).collect();
        let vid = ids[idx];
        let new_vid = hf
            .update_val(&mut pool, vid.page_id, vid.slot_id, &new_bytes)
            .unwrap();
        // a shrinking update fits where the old value stood
        assert_eq!(new_vid, vid);
        expected[idx] = new_bytes;
    }
    let result: Vec<Vec<u8>> = collect_all(&hf, &pool).into_iter().map(|(v, _)| v).collect();
    assert!(compare_unordered_byte_vecs(&expected, result));
}

#[test]
fn update_that_cannot_fit_relocates_the_value() {
    let mut pool = InMemPool::new();
    let hf = HeapFile::new(0, &mut pool).unwrap();
    // two large values fill the first data page near capacity
    let v0 = vec![1u8; 2000];
    let v1 = vec![2u8; 2000];
    let vid0 = hf.add_val(&mut pool, &v0).unwrap();
    let vid1 = hf.add_val(&mut pool, &v1).unwrap();
    assert_eq!(vid0.page_id, vid1.page_id);
    let big = vec![9u8; 3000];
    let new_vid = hf
        .update_val(&mut pool, vid0.page_id, vid0.slot_id, &big)
        .unwrap();
    // the value moved: new address, old address no longer in the scan
    assert_ne!((new_vid.page_id, new_vid.slot_id), (vid0.page_id, vid0.slot_id));
    assert_eq!(hf.get_val(&pool, new_vid.page_id, new_vid.slot_id).unwrap(), big);
    assert!(hf.get_val(&pool, vid0.page_id, vid0.slot_id).is_err());
    let addresses: Vec<ValueId> = collect_all(&hf, &pool).into_iter().map(|(_, vid)| vid).collect();
    assert!(!addresses.contains(&vid0));
    assert!(addresses.contains(&new_vid));
    assert!(addresses.contains(&vid1));
}

#[test]
fn scan_order_is_strictly_ascending() {
    let mut pool = InMemPool::new();
    let hf = HeapFile::new(0, &mut pool).unwrap();
    let mut rng = SmallRng::seed_from_u64(577215);
    let expected = random_values(&mut rng, 300, 50, 100);
    let _ = hf.add_vals(&mut pool, &expected).unwrap();
    let addresses: Vec<ValueId> = collect_all(&hf, &pool).into_iter().map(|(_, vid)| vid).collect();
    assert_eq!(addresses.len(), 300);
    for w in addresses.windows(2) {
        let a = (w[0].page_id, w[0].slot_id);
        let b = (w[1].page_id, w[1].slot_id);
        assert!(a < b, "scan out of order: {:?} before {:?}", a, b);
    }
}

#[test]
fn iter_from_skips_everything_below_the_start() {
    let mut pool = InMemPool::new();
    let hf = HeapFile::new(0, &mut pool).unwrap();
    let vals: Vec<Vec<u8>> = (0u8..40).map(|i| vec![i; 60]).collect();
    let ids = hf.add_vals(&mut pool, &vals).unwrap();
    let start = ids[25];
    let mut it = hf.iter_from(start.page_id, start.slot_id);
    let mut seen: Vec<ValueId> = Vec::new();
    while let Some((_, vid)) = it.next(&pool) {
        seen.push(vid);
    }
    let expected: Vec<ValueId> = ids[25..].to_vec();
    assert_eq!(seen, expected);
    // nothing below the start position appears
    for vid in &seen {
        assert!((vid.page_id, vid.slot_id) >= (start.page_id, start.slot_id));
    }
}

#[test]
fn iterator_of_empty_heap_file_finishes_at_once() {
    let mut pool = InMemPool::new();
    let hf = HeapFile::new(0, &mut pool).unwrap();
    let mut it = hf.iter();
    assert!(it.next(&pool).is_none());
    assert!(it.next(&pool).is_none());
}

#[test]
fn heap_file_errors() {
    let mut pool = InMemPool::new();
    let hf = HeapFile::new(0, &mut pool).unwrap();
    // a second heap file for the same container is refused
    assert!(HeapFile::new(0, &mut pool).is_err());
    // loading needs an existing container
    assert!(HeapFile::load(5, &pool).is_err());
    assert!(HeapFile::load(0, &pool).is_ok());
    // a value too large for an empty page is refused
    let too_big = vec![0u8; 4096];
    assert!(hf.add_val(&mut pool, &too_big).is_err());
    // reading or deleting a slot that never existed is an error
    let vid = hf.add_val(&mut pool, &[1, 2, 3]).unwrap();
    assert!(hf.get_val(&pool, vid.page_id, 99).is_err());
    assert!(hf.delete_val(&mut pool, vid.page_id, 99).is_err());
    assert!(hf.update_val(&mut pool, vid.page_id, 99, &[4]).is_err());
    // page 0 is the header page and holds no values
    assert_eq!(hf.num_pages(&pool), 2);
    assert!(hf.get_val(&pool, 0, 0).is_err());
}

#[test]
fn deleted_slot_is_reused_by_a_later_insert() {
    let mut pool = InMemPool::new();
    let hf = HeapFile::new(0, &mut pool).unwrap();
    let a = hf.add_val(&mut pool, &[1u8; 30]).unwrap();
    let b = hf.add_val(&mut pool, &[2u8; 30]).unwrap();
    hf.delete_val(&mut pool, a.page_id, a.slot_id).unwrap();
    let c = hf.add_val(&mut pool, &[3u8; 10]).unwrap();
    // the freed slot id on the same page is the lowest available again
    assert_eq!(c, a);
    assert_eq!(hf.get_val(&pool, b.page_id, b.slot_id).unwrap(), vec![2u8; 30]);
    assert_eq!(hf.get_val(&pool, c.page_id, c.slot_id).unwrap(), vec![3u8; 10]);
}

#[test]
fn value_ids_address_slots() {
    let vid = heapstore::ids::ValueId::new_slot(3, 7, 2);
    assert_eq!(vid.container_id, 3);
    assert_eq!(vid.page_id, 7);
    assert_eq!(vid.slot_id, 2);
}

#[test]
fn errors_carry_a_message() {
    let mut pool = InMemPool::new();
    let _ = HeapFile::new(0, &mut pool).unwrap();
    match HeapFile::new(0, &mut pool) {
        Ok(_) => panic!("duplicate container accepted"),
        Err(e) => assert!(!e.message().is_empty()),
    }
    match HeapFile::load(9, &pool) {
        Ok(_) => panic!("missing container loaded"),
        Err(e) => assert!(!e.message().is_empty()),
    }
}
