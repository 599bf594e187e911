use heapstore::testutil::bench_page_insert;
use heapstore::testutil::bench_page_mixed;
use heapstore::testutil::BenchOp;
use heapstore::vec_compare::compare_unordered_byte_vecs;

#[test]
fn equal_ordered_collections_compare_equal() {
    let a = vec![vec![1u8, 2], vec![3u8], vec![]];
    let b = a.clone();
    assert!(compare_unordered_byte_vecs(&a, b));
}

#[test]
fn permuted_collections_compare_equal() {
    let a = vec![vec![1u8, 2], vec![3u8], vec![3u8], vec![9u8, 9]];
    let b = vec![vec![3u8], vec![9u8, 9], vec![1u8, 2], vec![3u8]];
    assert!(compare_unordered_byte_vecs(&a, b));
}

#[test]
fn multiplicity_matters() {
    let a = vec![vec![1u8], vec![1u8], vec![2u8]];
    let b = vec![vec![1u8], vec![2u8], vec![2u8]];
    assert!(!compare_unordered_byte_vecs(&a, b));
}

#[test]
fn length_mismatch_compares_unequal() {
    let a = vec![vec![1u8]];
    let b = vec![vec![1u8], vec![1u8]];
    assert!(!compare_unordered_byte_vecs(&a, b));
}

#[test]
fn missing_value_compares_unequal() {
    let a = vec![vec![1u8], vec![2u8]];
    let b = vec![vec![1u8], vec![3u8]];
    assert!(!compare_unordered_byte_vecs(&a, b));
}

#[test]
fn page_insert_bench_accepts_a_fitting_batch() {
    let vals: Vec<Vec<u8>> = (0..30u8).map(|i| vec![i; 100]).collect();
    bench_page_insert(&vals);
}

#[test]
fn page_mixed_bench_runs_a_workload() {
    let mut workload = Vec::new();
    for i in 0..20u8 {
        workload.push(BenchOp::Insert(vec![i; 50]));
    }
    workload.push(BenchOp::DeleteSlot(3));
    workload.push(BenchOp::UpdateSlot(4, vec![9u8; 60]));
    workload.push(BenchOp::ReadSlot(5));
    workload.push(BenchOp::Scan);
    workload.push(BenchOp::Insert(vec![7u8; 4000]));
    bench_page_mixed(&workload);
}
