use fossic::branches::BranchCache;

#[test]
fn cached_chain_is_found_again() {
    let mut c: BranchCache<Vec<u64>> = BranchCache::new();
    assert!(c.get("orders/1", "main").is_none());
    c.insert("orders/1".to_string(), "main".to_string(), vec![1, 2]);
    assert_eq!(c.get("orders/1", "main"), Some(&vec![1, 2]));
    assert!(c.get("orders/1", "b1").is_none());
    assert!(c.get("orders/2", "main").is_none());
}

#[test]
fn caching_again_replaces_the_value() {
    let mut c: BranchCache<u32> = BranchCache::new();
    c.insert("s".to_string(), "b".to_string(), 1);
    c.insert("s".to_string(), "b".to_string(), 2);
    assert_eq!(c.get("s", "b"), Some(&2));
}

#[test]
fn creating_a_branch_drops_only_that_streams_chains() {
    let mut c: BranchCache<u32> = BranchCache::new();
    c.insert("s".to_string(), "main".to_string(), 1);
    c.insert("s".to_string(), "b1".to_string(), 2);
    c.insert("t".to_string(), "main".to_string(), 3);
    c.insert("s2".to_string(), "main".to_string(), 4);
    c.invalidate_stream("s");
    assert!(c.get("s", "main").is_none());
    assert!(c.get("s", "b1").is_none());
    assert_eq!(c.get("t", "main"), Some(&3));
    assert_eq!(c.get("s2", "main"), Some(&4));
}
