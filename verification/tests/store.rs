use kv_store::database::data_structure::Score;
use kv_store::database::db::Database;
use kv_store::clock::{nanoseconds, Clock};
use kv_store::table::Table;

const SECOND: u64 = 1_000_000_000;

fn bits(x: f64) -> Score {
    Score::from_bits(x.to_bits())
}

fn strings(items: &[&str]) -> Vec<String> {
    items.iter().map(|s| s.to_string()).collect()
}

#[test]
fn get_returns_the_value_set_last() {
    let mut db = Database::new();
    assert_eq!(db.get_at("k", 0), None);
    db.set_at("k".to_string(), "v1".to_string(), None, 1);
    assert_eq!(db.get_at("k", 2), Some("v1".to_string()));
    db.set_at("k".to_string(), "v2".to_string(), None, 3);
    db.set_at("other".to_string(), "x".to_string(), None, 4);
    db.lpush("k".to_string(), "list".to_string());
    db.sadd("k".to_string(), "member".to_string());
    db.zadd("k".to_string(), bits(1.0), "member".to_string());
    assert_eq!(db.get_at("k", 5), Some("v2".to_string()));
    assert_eq!(db.get_at("k", u64::MAX), Some("v2".to_string()));
    assert_eq!(db.get_at("other", 6), Some("x".to_string()));
}

#[test]
fn value_with_ttl_is_read_until_it_expires() {
    let mut db = Database::new();
    db.set_at("k".to_string(), "v".to_string(), Some(2), 10);
    assert!(!db.is_expired_at("k", 10));
    assert_eq!(db.get_at("k", 10 + SECOND), Some("v".to_string()));
    assert!(!db.is_expired_at("k", 10 + 2 * SECOND));
    assert_eq!(db.get_at("k", 10 + 2 * SECOND), Some("v".to_string()));
    assert!(db.is_expired_at("k", 11 + 2 * SECOND));
    assert_eq!(db.get_at("k", 11 + 2 * SECOND), None);
    assert!(!db.is_expired_at("k", 11 + 2 * SECOND));
    assert_eq!(db.get_at("k", 0), None);
}

#[test]
fn zero_ttl_is_gone_at_any_later_time() {
    let mut db = Database::new();
    db.set_at("k".to_string(), "v".to_string(), Some(0), 100);
    assert_eq!(db.get_at("k", 101), None);
    assert!(!db.is_expired_at("k", 101));
    assert!(!db.delete("k"));

    let mut db = Database::new();
    db.set_at("k".to_string(), "v".to_string(), Some(0), 100);
    assert_eq!(db.get_at("k", u64::MAX), None);
    assert_eq!(db.get_at("k", 100), None);
}

#[test]
fn set_without_ttl_keeps_the_earlier_expiry() {
    let mut db = Database::new();
    db.set_at("k".to_string(), "v2".to_string(), Some(5), 0);
    db.set_at("k".to_string(), "v1".to_string(), None, SECOND);
    assert_eq!(db.get_at("k", 5 * SECOND), Some("v1".to_string()));
    assert!(db.is_expired_at("k", 5 * SECOND + 1));
    assert_eq!(db.get_at("k", 5 * SECOND + 1), None);
    assert_eq!(db.get_at("k", 5 * SECOND + 2), None);
}

#[test]
fn set_with_ttl_replaces_the_earlier_expiry() {
    let mut db = Database::new();
    db.set_at("k".to_string(), "a".to_string(), Some(1), 0);
    db.set_at("k".to_string(), "b".to_string(), Some(10), 0);
    assert_eq!(db.get_at("k", 2 * SECOND), Some("b".to_string()));
    assert_eq!(db.get_at("k", 10 * SECOND + 1), None);
}

#[test]
fn largest_ttl_does_not_overflow() {
    let mut db = Database::new();
    db.set_at("k".to_string(), "v".to_string(), Some(u64::MAX), u64::MAX);
    assert!(!db.is_expired_at("k", u64::MAX));
    assert_eq!(db.get_at("k", u64::MAX), Some("v".to_string()));
}

#[test]
fn delete_tells_whether_there_was_a_value() {
    let mut db = Database::new();
    assert!(!db.delete("k"));
    db.set_at("k".to_string(), "v".to_string(), Some(1), 0);
    assert!(db.delete("k"));
    assert!(!db.delete("k"));
    assert_eq!(db.get_at("k", 0), None);
    db.set_at("k".to_string(), "w".to_string(), None, 0);
    assert_eq!(db.get_at("k", 5 * SECOND), Some("w".to_string()));
}

#[test]
fn lpush_lpop_rpop_scenario() {
    let mut db = Database::new();
    db.lpush("k".to_string(), "a".to_string());
    db.lpush("k".to_string(), "b".to_string());
    assert_eq!(db.lpop("k"), Some("b".to_string()));
    assert_eq!(db.rpop("k"), Some("a".to_string()));
    assert_eq!(db.lpop("k"), None);
    assert_eq!(db.rpop("k"), None);
    assert_eq!(db.lpop("absent"), None);
    assert_eq!(db.rpop("absent"), None);
}

#[test]
fn emptied_list_is_still_a_list() {
    let mut db = Database::new();
    assert_eq!(db.lrange(0, 1, "k"), None);
    db.rpush("k".to_string(), "a".to_string());
    assert_eq!(db.lpop("k"), Some("a".to_string()));
    assert_eq!(db.lrange(0, 1, "k"), Some(strings(&[])));
}

#[test]
fn lrange_counts_from_the_front() {
    let mut db = Database::new();
    db.rpush("k".to_string(), "b".to_string());
    db.lpush("k".to_string(), "a".to_string());
    db.rpush("k".to_string(), "c".to_string());
    assert_eq!(db.lrange(0, 1, "k"), Some(strings(&["a", "b"])));
    assert_eq!(db.lrange(1, 5, "k"), Some(strings(&["b", "c"])));
    assert_eq!(db.lrange(2, 1, "k"), Some(strings(&[])));
    assert_eq!(db.lrange(9, 9, "k"), Some(strings(&[])));
    assert_eq!(db.lrange(0, 0, "other"), None);
}

#[test]
fn sadd_sismember_srem_scenario() {
    let mut db = Database::new();
    assert!(db.sadd("k".to_string(), "x".to_string()));
    assert!(!db.sadd("k".to_string(), "x".to_string()));
    assert!(db.sismember("k", "x"));
    assert!(db.srem("k", "x"));
    assert!(!db.srem("k", "x"));
    assert!(!db.sismember("k", "x"));
    assert!(!db.sismember("absent", "x"));
    assert!(!db.srem("absent", "x"));
    assert_eq!(db.smembers("absent"), None);
    assert_eq!(db.smembers("k"), Some(strings(&[])));
}

#[test]
fn sadd_of_many_members_keeps_them_all() {
    let mut forward = Database::new();
    let mut backward = Database::new();
    for i in 0..50 {
        assert!(forward.sadd("k".to_string(), format!("m{}", i)));
        assert!(backward.sadd("k".to_string(), format!("m{}", 49 - i)));
    }
    let mut expected: Vec<String> = (0..50).map(|i| format!("m{}", i)).collect();
    expected.sort();
    let mut first = forward.smembers("k").unwrap();
    first.sort();
    let mut second = backward.smembers("k").unwrap();
    second.sort();
    assert_eq!(first, expected);
    assert_eq!(second, expected);
}

#[test]
fn zadd_zrange_scenario() {
    let mut db = Database::new();
    let key = "k".to_string();
    assert!(db.zadd("k".to_string(), bits(1.0), "a".to_string()));
    assert!(db.zadd("k".to_string(), bits(2.0), "b".to_string()));
    assert_eq!(db.zrange(&key, 0, 1), Some(strings(&["a", "b"])));
    assert!(db.zadd("k".to_string(), bits(1.0), "c".to_string()));
    assert_eq!(db.zrange(&key, 0, 2), Some(strings(&["a", "c", "b"])));
    assert_eq!(db.zrange(&key, 2, 0), Some(strings(&[])));
    assert_eq!(db.zrange(&"absent".to_string(), 0, 2), None);
}

#[test]
fn zadd_twice_scenario() {
    let mut db = Database::new();
    let key = "k".to_string();
    assert!(db.zadd("k".to_string(), bits(5.0), "m".to_string()));
    assert!(!db.zadd("k".to_string(), bits(5.0), "m".to_string()));
    assert_eq!(db.zscore("k", "m"), Some(bits(5.0)));
    assert!(db.zadd("k".to_string(), bits(7.5), "m".to_string()));
    assert_eq!(db.zscore("k", "m"), Some(bits(7.5)));
    assert_eq!(db.zrange(&key, 0, 10), Some(strings(&["m"])));
    assert!(db.zrem(&key, "m".to_string()));
    assert!(!db.zrem(&key, "m".to_string()));
    assert_eq!(db.zscore("k", "m"), None);
    assert_eq!(db.zscore("absent", "m"), None);
    assert!(!db.zrem(&"absent".to_string(), "m".to_string()));
    assert_eq!(db.zrange(&key, 0, 10), Some(strings(&[])));
}

#[test]
fn kinds_have_keys_of_their_own() {
    let mut db = Database::new();
    let key = "k".to_string();
    db.set_at("k".to_string(), "scalar".to_string(), None, 0);
    db.rpush("k".to_string(), "item".to_string());
    db.sadd("k".to_string(), "member".to_string());
    db.zadd("k".to_string(), bits(1.0), "ranked".to_string());
    assert!(db.delete("k"));
    assert_eq!(db.lrange(0, 0, "k"), Some(strings(&["item"])));
    assert_eq!(db.smembers("k"), Some(strings(&["member"])));
    assert_eq!(db.zrange(&key, 0, 0), Some(strings(&["ranked"])));
    assert_eq!(db.get_at("k", 0), None);
}

#[test]
fn table_keeps_one_value_for_each_key() {
    let mut table: Table<u32> = Table::new();
    assert!(!table.contains_key("a"));
    assert_eq!(table.insert("a".to_string(), 1), None);
    assert_eq!(table.insert("b".to_string(), 2), None);
    assert_eq!(table.insert("c".to_string(), 3), None);
    assert_eq!(table.insert("a".to_string(), 10), Some(1));
    assert_eq!(table.get("a"), Some(&10));
    assert_eq!(table.get("b"), Some(&2));
    assert_eq!(table.get("z"), None);
    assert_eq!(table.remove("a"), Some(10));
    assert_eq!(table.remove("a"), None);
    assert_eq!(table.get("b"), Some(&2));
    assert_eq!(table.get("c"), Some(&3));
    assert!(table.contains_key("c"));
}

#[test]
fn table_values_change_in_place() {
    let mut table: Table<u32> = Table::new();
    assert!(table.get_mut("a").is_none());
    *table.get_or_insert("a".to_string(), 5) += 1;
    assert_eq!(table.get("a"), Some(&6));
    *table.get_or_insert("a".to_string(), 100) += 1;
    assert_eq!(table.get("a"), Some(&7));
    if let Some(value) = table.get_mut("a") {
        *value = 9;
    }
    assert_eq!(table.get("a"), Some(&9));
    *table.get_or_insert("b".to_string(), 1) += 1;
    assert_eq!(table.get("b"), Some(&2));
    assert_eq!(table.get("a"), Some(&9));
}

#[test]
fn nanoseconds_counts_seconds_and_nanoseconds() {
    assert_eq!(nanoseconds(0, 0), 0);
    assert_eq!(nanoseconds(0, 999_999_999), 999_999_999);
    assert_eq!(nanoseconds(1, 0), 1_000_000_000);
    assert_eq!(nanoseconds(3, 5), 3_000_000_005);
    assert_eq!(nanoseconds(18_446_744_073, 709_551_615), u64::MAX);
    assert_eq!(nanoseconds(18_446_744_073, 709_551_614), u64::MAX - 1);
    assert_eq!(nanoseconds(18_446_744_073, 709_551_616), u64::MAX);
    assert_eq!(nanoseconds(18_446_744_074, 0), u64::MAX);
    assert_eq!(nanoseconds(u64::MAX, u32::MAX), u64::MAX);
}

#[test]
fn clock_goes_forward() {
    let clock = Clock::new();
    let first = clock.now();
    let mut later = clock.now();
    assert!(later >= first);
    let mut turns = 0u64;
    while later == first && turns < 1_000_000_000 {
        later = clock.now();
        turns += 1;
    }
    assert!(later > first);
    assert!(later < 3_600_000_000_000);
}

#[test]
fn store_reads_its_clock() {
    let mut db = Database::new();
    db.set("long".to_string(), "v".to_string(), Some(3600));
    db.set("plain".to_string(), "w".to_string(), None);
    db.set("short".to_string(), "x".to_string(), Some(0));
    assert!(!db.is_expired("long"));
    assert!(!db.is_expired("plain"));
    assert_eq!(db.get("long"), Some("v".to_string()));
    assert_eq!(db.get("plain"), Some("w".to_string()));
    let set_by = db.clock.now();
    while db.clock.now() == set_by {}
    assert!(db.is_expired("short"));
    assert_eq!(db.get("short"), None);
    assert!(!db.is_expired("short"));
    assert!(!db.delete("short"));
}
