use toy_edge_worker::pool::Pool;

#[test]
fn lru_evicts_oldest() {
    let mut pool: Pool<u32> = Pool::new(2);
    assert!(pool.insert("a".into(), 1).is_none());
    assert!(pool.insert("b".into(), 2).is_none());
    // Touching a makes b the oldest.
    assert_eq!(pool.get("a"), Some(&mut 1));
    let evicted = pool.insert("c".into(), 3);
    assert_eq!(evicted, Some(("b".into(), 2)));
    assert_eq!(pool.len(), 2);
    assert!(pool.get("a").is_some());
    assert!(pool.get("c").is_some());
}

#[test]
fn capacity_at_least_one() {
    let mut pool: Pool<u32> = Pool::new(0);
    assert!(pool.insert("a".into(), 1).is_none());
    let evicted = pool.insert("b".into(), 2);
    assert_eq!(evicted, Some(("a".into(), 1)));
}

#[test]
fn remove_returns_worker() {
    let mut pool: Pool<u32> = Pool::new(4);
    pool.insert("a".into(), 1);
    assert_eq!(pool.remove("a"), Some(1));
    assert!(pool.is_empty());
}

#[test]
fn reinserting_replaces_the_worker() {
    let mut pool: Pool<u32> = Pool::new(3);
    pool.insert("a".into(), 1);
    pool.insert("b".into(), 2);
    assert!(pool.insert("a".into(), 3).is_none());
    assert_eq!(pool.len(), 2);
    assert_eq!(pool.get("a"), Some(&mut 3));
    // A full pool has room for a worker that takes the place of another one.
    pool.insert("c".into(), 4);
    assert!(pool.insert("a".into(), 5).is_none());
    assert_eq!(pool.get("a"), Some(&mut 5));
    assert_eq!(pool.get("b"), Some(&mut 2));
    assert_eq!(pool.len(), 3);
}

#[test]
fn workers_can_be_changed_in_place() {
    let mut pool: Pool<u32> = Pool::new(2);
    pool.insert("a".into(), 1);
    *pool.get("a").unwrap() += 10;
    assert_eq!(pool.get("a"), Some(&mut 11));
    assert_eq!(pool.get("b"), None);
    assert_eq!(pool.remove("b"), None);
}

#[test]
fn replacing_exceeds_nothing() {
    let mut pool = Pool::<u32>::new(2);
    pool.insert("a".into(), 1);
    pool.insert("b".into(), 2);
    assert_eq!(pool.insert("b".into(), 3), None);
    assert_eq!(pool.len(), 2);
    assert_eq!(pool.get("a"), Some(&mut 1));
    assert_eq!(pool.get("b"), Some(&mut 3));
}

#[test]
fn leaver_is_known_beforehand() {
    let mut pool = Pool::new(2);
    assert_eq!(pool.would_evict("a"), None);
    pool.insert("a".to_string(), 1);
    pool.insert("b".to_string(), 2);
    assert_eq!(pool.would_evict("a"), None);
    assert_eq!(pool.would_evict("c"), Some("a"));
    assert_eq!(pool.insert("c".to_string(), 3), Some(("a".to_string(), 1)));
}
