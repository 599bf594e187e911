use heapstore::heap_page::HeapPage;
use heapstore::heap_page::Page;

fn bytes_of(n: usize, fill: u8) -> Vec<u8> {
    vec![fill; n]
}

#[test]
fn insert_then_get_returns_inserted_bytes() {
    let mut p = Page::new(7);
    p.init_heap_page();
    let v = vec![1u8, 2, 3, 4, 5];
    let sid = p.add_value(&v).unwrap();
    assert_eq!(sid, 0);
    assert_eq!(p.get_value(sid).unwrap(), &v[..]);
    assert_eq!(p.get_page_id(), 7);
}

#[test]
fn lowest_slot_id_is_reused_after_delete() {
    let mut p = Page::new(0);
    p.init_heap_page();
    let s0 = p.add_value(&bytes_of(10, 1)).unwrap();
    let s1 = p.add_value(&bytes_of(10, 2)).unwrap();
    let s2 = p.add_value(&bytes_of(10, 3)).unwrap();
    assert_eq!((s0, s1, s2), (0, 1, 2));
    p.delete_value(s1).unwrap();
    assert!(p.get_value(s1).is_none());
    // the deleted id is the lowest free id, so the next insert takes it
    let s3 = p.add_value(&bytes_of(4, 9)).unwrap();
    assert_eq!(s3, s1);
    assert_eq!(p.get_value(s3).unwrap(), &bytes_of(4, 9)[..]);
    // untouched slots keep their bytes
    assert_eq!(p.get_value(s0).unwrap(), &bytes_of(10, 1)[..]);
    assert_eq!(p.get_value(s2).unwrap(), &bytes_of(10, 3)[..]);
}

#[test]
fn deleting_keeps_directory_length() {
    let mut p = Page::new(0);
    p.init_heap_page();
    let _ = p.add_value(&bytes_of(8, 1)).unwrap();
    let _ = p.add_value(&bytes_of(8, 2)).unwrap();
    let header_after_two = p.get_header_size();
    p.delete_value(0).unwrap();
    p.delete_value(1).unwrap();
    // the directory never shrinks while the page is live
    assert_eq!(p.get_header_size(), header_after_two);
    // but the body bytes came back
    assert_eq!(p.get_free_space(), 4096 - header_after_two);
}

#[test]
fn zero_length_values_are_addressable() {
    let mut p = Page::new(0);
    p.init_heap_page();
    let sid = p.add_value(&[]).unwrap();
    assert_eq!(p.get_value(sid).unwrap().len(), 0);
    p.delete_value(sid).unwrap();
    assert!(p.get_value(sid).is_none());
}

#[test]
fn free_space_accounts_header_and_bytes() {
    let mut p = Page::new(0);
    p.init_heap_page();
    assert_eq!(p.get_header_size(), 12);
    assert_eq!(p.get_free_space(), 4096 - 12);
    let _ = p.add_value(&bytes_of(100, 1)).unwrap();
    assert_eq!(p.get_header_size(), 16);
    assert_eq!(p.get_free_space(), 4096 - 16 - 100);
}

#[test]
fn page_never_exceeds_capacity() {
    let mut p = Page::new(0);
    p.init_heap_page();
    let mut stored = 0usize;
    loop {
        match p.add_value(&bytes_of(100, 7)) {
            Some(_) => {
                stored += 100;
                // invariant: live bytes + directory + fixed metadata fit
                assert!(stored + p.get_header_size() <= 4096);
            }
            None => break,
        }
    }
    // a full page reports less free space than one more value needs
    assert!(p.get_free_space() < 100 + 4);
    // 4096 - 12 bytes shared between 100-byte values and 4-byte entries
    assert_eq!(stored / 100, (4096 - 12) / 104);
}

#[test]
fn rejected_insert_leaves_page_unchanged() {
    let mut p = Page::new(0);
    p.init_heap_page();
    let sid = p.add_value(&bytes_of(4000, 1)).unwrap();
    let free = p.get_free_space();
    assert!(p.add_value(&bytes_of(4000, 2)).is_none());
    assert_eq!(p.get_free_space(), free);
    assert_eq!(p.get_value(sid).unwrap(), &bytes_of(4000, 1)[..]);
}

#[test]
fn update_in_place_keeps_other_slots() {
    let mut p = Page::new(0);
    p.init_heap_page();
    let s0 = p.add_value(&bytes_of(50, 1)).unwrap();
    let s1 = p.add_value(&bytes_of(50, 2)).unwrap();
    p.update_value(s0, &bytes_of(70, 9)).unwrap();
    assert_eq!(p.get_value(s0).unwrap(), &bytes_of(70, 9)[..]);
    assert_eq!(p.get_value(s1).unwrap(), &bytes_of(50, 2)[..]);
}

#[test]
fn update_that_does_not_fit_is_refused() {
    let mut p = Page::new(0);
    p.init_heap_page();
    let s0 = p.add_value(&bytes_of(2000, 1)).unwrap();
    let _s1 = p.add_value(&bytes_of(2000, 2)).unwrap();
    // 3000 bytes need more than the free space plus the old 2000
    assert!(p.update_value(s0, &bytes_of(3000, 9)).is_none());
    assert_eq!(p.get_value(s0).unwrap(), &bytes_of(2000, 1)[..]);
    // invalid and deleted slots are refused too
    assert!(p.update_value(99, &[1]).is_none());
    assert!(p.delete_value(99).is_none());
}

#[test]
fn page_iter_yields_live_slots_ascending() {
    let mut p = Page::new(0);
    p.init_heap_page();
    for i in 0..5u8 {
        p.add_value(&bytes_of(10, i)).unwrap();
    }
    p.delete_value(1).unwrap();
    p.delete_value(3).unwrap();
    let mut it = p.iter();
    let mut seen: Vec<(Vec<u8>, u16)> = Vec::new();
    while let Some(pair) = it.next(&p) {
        seen.push(pair);
    }
    let expected: Vec<(Vec<u8>, u16)> =
        vec![(bytes_of(10, 0), 0), (bytes_of(10, 2), 2), (bytes_of(10, 4), 4)];
    assert_eq!(seen, expected);
}

#[test]
fn serialized_page_round_trips_byte_for_byte() {
    let mut p = Page::new(42);
    p.init_heap_page();
    let v0 = bytes_of(100, 1);
    let v1 = bytes_of(0, 0);
    let v2 = bytes_of(333, 3);
    p.add_value(&v0).unwrap();
    p.add_value(&v1).unwrap();
    p.add_value(&v2).unwrap();
    p.delete_value(1).unwrap();
    let bytes = p.to_bytes();
    assert_eq!(bytes.len(), 4096);
    // the header carries the page id, little-endian
    assert_eq!(&bytes[0..4], &[42u8, 0, 0, 0]);
    // and the directory length
    assert_eq!(&bytes[4..6], &[3u8, 0]);
    let q = Page::from_bytes(&bytes).unwrap();
    assert_eq!(q.get_page_id(), 42);
    assert_eq!(q.get_value(0).unwrap(), &v0[..]);
    assert!(q.get_value(1).is_none());
    assert_eq!(q.get_value(2).unwrap(), &v2[..]);
    // re-serializing gives the same bytes, byte for byte
    let bytes2 = q.to_bytes();
    assert_eq!(bytes, bytes2);
}

#[test]
fn from_bytes_rejects_foreign_lengths() {
    assert!(Page::from_bytes(&[0u8; 100]).is_none());
    let empty = Page::new(0).to_bytes();
    assert!(Page::from_bytes(&empty).is_some());
}
