use kvbench::hash::{fnv1a64, shard_index};
use kvbench::cmap::ConcurrentMap;
use kvbench::smap::ShardedMap;

#[test]
fn fnv1a64_known_vectors() {
    assert_eq!(fnv1a64(""), 14695981039346656037);
    assert_eq!(fnv1a64("a"), 12638187200555641996);
    assert_eq!(fnv1a64("abc"), 16654208175385433931);
    assert_eq!(fnv1a64("foobar"), 9625390261332436968);
}

#[test]
fn shard_index_is_deterministic_and_in_range() {
    let keys = ["abc", "hello", "", "x", "some/longer key with spaces"];
    for s in [1usize, 2, 3, 7, 128] {
        for k in keys {
            let i = shard_index(k, s);
            assert!(i < s);
            assert_eq!(i, shard_index(k, s));
        }
    }
    assert_eq!(shard_index("abc", 4), (16654208175385433931u64 % 4) as usize);
}

#[test]
fn set_then_get_returns_value() {
    let mut m = ShardedMap::new(4);
    m.set("abc".to_string(), "http://x".to_string());
    assert_eq!(m.get("abc").map(String::as_str), Some("http://x"));
    assert_eq!(m.get("missing"), None);
    assert_eq!(m.len(), 1);
}

#[test]
fn set_overwrites() {
    let mut m = ShardedMap::new(2);
    m.set("k".to_string(), "v1".to_string());
    m.set("k".to_string(), "v2".to_string());
    assert_eq!(m.get("k").map(String::as_str), Some("v2"));
    assert_eq!(m.len(), 1);
}

#[test]
fn bulk_load_last_write_wins() {
    let pairs = vec![
        ("abc".to_string(), "http://x".to_string()),
        ("abc".to_string(), "http://y".to_string()),
    ];
    let m = ShardedMap::bulk_load(&pairs, 1);
    assert_eq!(m.get("abc").map(String::as_str), Some("http://y"));
    assert_eq!(m.len(), 1);
}

#[test]
fn bulk_load_routes_across_shards() {
    let pairs = vec![
        ("a".to_string(), "1".to_string()),
        ("b".to_string(), "2".to_string()),
        ("c".to_string(), "3".to_string()),
        ("d".to_string(), "4".to_string()),
    ];
    let m = ShardedMap::bulk_load(&pairs, 8);
    assert_eq!(m.len(), 4);
    assert_eq!(m.get("a").map(String::as_str), Some("1"));
    assert_eq!(m.get("b").map(String::as_str), Some("2"));
    assert_eq!(m.get("c").map(String::as_str), Some("3"));
    assert_eq!(m.get("d").map(String::as_str), Some("4"));
}

#[test]
fn concurrent_map_get_and_set() {
    let mut m = ShardedMap::new(4);
    m.set("abc".to_string(), "http://x".to_string());
    let c = ConcurrentMap::new(m);
    assert_eq!(c.shard_count(), 4);
    assert_eq!(c.get("abc").as_deref(), Some("http://x"));
    assert_eq!(c.get("missing"), None);
    c.set("abc".to_string(), "http://y".to_string());
    c.set("other".to_string(), "http://z".to_string());
    assert_eq!(c.get("abc").as_deref(), Some("http://y"));
    assert_eq!(c.get("other").as_deref(), Some("http://z"));
}
