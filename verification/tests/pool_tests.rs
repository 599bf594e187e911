use heapstore::heap_page::HeapPage;
use heapstore::in_mem_pool::InMemPool;

#[test]
fn test_create_new_page() {
    let mut mp = InMemPool::new();
    let c_id = 0;

    for i in 0..20 {
        let pid = mp.create_new_page_for_write(c_id).unwrap();
        assert_eq!(pid, i);
    }

    for i in 0..20 {
        let frame = mp.get_page_for_read(c_id, i).unwrap();
        assert_eq!(frame.get_page_id(), i);
    }
}

#[test]
fn test_concurrent_create_new_page() {
    let mut mp = InMemPool::new();
    let c_id = 0;

    let p0 = mp.create_new_page_for_write(c_id).unwrap();
    let frame1 = mp.get_page_for_write(c_id, p0);
    frame1.add_value(&[1]).unwrap();
    let p1 = mp.create_new_page_for_write(c_id).unwrap();
    let frame2 = mp.get_page_for_write(c_id, p1);
    frame2.add_value(&[2]).unwrap();
    assert_eq!(p0, 0);
    assert_eq!(p1, 1);

    let frame1 = mp.get_page_for_read(c_id, 0).unwrap();
    assert_eq!(frame1.get_value(0).unwrap(), &[1u8][..]);
    let frame2 = mp.get_page_for_read(c_id, 1).unwrap();
    assert_eq!(frame2.get_value(0).unwrap(), &[2u8][..]);
}

#[test]
fn residency_follows_allocation() {
    let mut mp = InMemPool::new();
    mp.create_container(3, false).unwrap();
    assert_eq!(mp.get_max_page_id(3), Some(0));
    assert!(!mp.is_in_mem(3, 0));
    let pid = mp.create_new_page_for_write(3).unwrap();
    assert_eq!(pid, 0);
    assert!(mp.is_in_mem(3, 0));
    assert!(!mp.is_in_mem(3, 1));
    assert!(!mp.is_in_mem(4, 0));
    assert_eq!(mp.get_max_page_id(3), Some(1));
    assert_eq!(mp.get_max_page_id(4), None);
}

#[test]
fn missing_page_is_an_error() {
    let mut mp = InMemPool::new();
    mp.create_container(1, false).unwrap();
    assert!(matches!(
        mp.get_page_for_read(1, 0),
        Err(heapstore::error::MemPoolStatus::PageNotFound)
    ));
}

#[test]
fn batched_pages_have_contiguous_ids() {
    let mut mp = InMemPool::new();
    let ids = mp.create_new_pages_for_write(9, 5).unwrap();
    assert_eq!(ids, vec![0, 1, 2, 3, 4]);
    let more = mp.create_new_pages_for_write(9, 3).unwrap();
    assert_eq!(more, vec![5, 6, 7]);
    let mut in_mem = mp.get_page_ids_in_mem(9);
    in_mem.sort();
    assert_eq!(in_mem, vec![0, 1, 2, 3, 4, 5, 6, 7]);
}

#[test]
fn drop_container_forgets_only_that_container() {
    let mut mp = InMemPool::new();
    let _ = mp.create_new_pages_for_write(1, 2).unwrap();
    let _ = mp.create_new_pages_for_write(2, 2).unwrap();
    mp.drop_container(1).unwrap();
    assert_eq!(mp.get_max_page_id(1), None);
    assert!(!mp.is_in_mem(1, 0));
    assert_eq!(mp.get_max_page_id(2), Some(2));
    assert!(mp.is_in_mem(2, 1));
}

#[test]
fn reset_empties_the_pool() {
    let mut mp = InMemPool::new();
    let _ = mp.create_new_pages_for_write(1, 4).unwrap();
    mp.reset().unwrap();
    assert_eq!(mp.get_max_page_id(1), None);
    assert_eq!(mp.stats().bp_num_frames_in_mem, 0);
}

#[test]
fn flush_all_performs_zero_disk_writes_twice() {
    let mut mp = InMemPool::new();
    let _ = mp.create_new_pages_for_write(0, 3).unwrap();
    // an in-memory pool writes nothing on a flush, however often it runs
    assert_eq!(mp.stats().disk_write, 0);
    mp.flush_all().unwrap();
    assert_eq!(mp.stats().disk_write, 0);
    mp.flush_all().unwrap();
    assert_eq!(mp.stats().disk_write, 0);
}

#[test]
fn stats_count_frames_per_container() {
    let mut mp = InMemPool::new();
    let _ = mp.create_new_pages_for_write(1, 2).unwrap();
    let _ = mp.create_new_pages_for_write(5, 3).unwrap();
    let stats = mp.stats();
    assert_eq!(stats.bp_num_frames_in_mem, 5);
    assert_eq!(stats.disk_read, 0);
    assert_eq!(stats.disk_created, 0);
    let mut per = stats.bp_num_frames_per_container.clone();
    per.sort();
    assert_eq!(per, vec![(1, 2), (5, 3)]);
}
