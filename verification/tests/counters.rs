use caibot::errors::Error;
use caibot::migrate::Migrator;
use caibot::stats::{CounterCache, Stat};
use caibot::table::Table;

fn table(pairs: &[(&str, u64)]) -> Table<u64> {
    let mut t = Table::new();
    for (k, v) in pairs {
        t.put(String::from(*k), *v);
    }
    t
}

#[test]
fn log_on_fresh_store_creates_all_three_at_one() {
    let mut store = Stat::new();
    let mut cache = CounterCache::new_from_fetch(Ok(Stat::new())).unwrap();
    cache.log(&mut store, "hello", "user1");
    let s = cache.stats();
    assert_eq!(s.total, 1);
    assert_eq!(s.sentences.get("hello"), Some(&1));
    assert_eq!(s.users.get("user1"), Some(&1));
    assert_eq!(store.total, 1);
    assert_eq!(store.sentences.get("hello"), Some(&1));
    assert_eq!(store.users.get("user1"), Some(&1));
}

#[test]
fn log_advances_each_mirrored_count_by_one() {
    let mut store = Stat::new();
    let mut cache = CounterCache::new_from_fetch(Ok(Stat::new())).unwrap();
    cache.log(&mut store, "hello", "user1");
    let before = cache.stats().summary();
    cache.log(&mut store, "hello", "user2");
    let after = cache.stats().summary();
    assert_eq!(after.total, before.total + 1);
    assert_eq!(cache.stats().sentences.get("hello"), Some(&2));
    assert_eq!(cache.stats().users.get("user1"), Some(&1));
    assert_eq!(cache.stats().users.get("user2"), Some(&1));
}

#[test]
fn sync_replaces_the_whole_mirror() {
    let mut cache = CounterCache::new_from_fetch(Ok(Stat::new())).unwrap();
    let fetched = Stat { total: 7, sentences: table(&[("a", 3)]), users: table(&[("u", 4)]) };
    assert!(cache.sync(Ok(fetched)).is_ok());
    assert_eq!(cache.stats().total, 7);
    assert_eq!(cache.stats().sentences.get("a"), Some(&3));
    assert_eq!(cache.stats().users.get("u"), Some(&4));
}

#[test]
fn failed_sync_keeps_the_last_good_mirror() {
    let mut cache = CounterCache::new_from_fetch(
        Ok(Stat { total: 7, sentences: table(&[("a", 3)]), users: table(&[]) }),
    )
    .unwrap();
    let r = cache.sync(Err(Error::StoreUnavailable));
    assert!(matches!(r, Err(Error::StoreUnavailable)));
    assert_eq!(cache.stats().total, 7);
    assert_eq!(cache.stats().sentences.get("a"), Some(&3));
}

#[test]
fn failed_initial_load_fails_startup() {
    assert!(CounterCache::new_from_fetch(Err(Error::StoreUnavailable)).is_err());
}

#[test]
fn summary_sorts_truncates_and_substitutes() {
    let stat = Stat {
        total: 100,
        sentences: table(&[("a", 2), ("-1", 9), ("b", 5), ("c", 1), ("d", 7), ("e", 4)]),
        users: table(&[("u1", 6), ("u2", 9), ("u3", 1)]),
    };
    let s = stat.summary();
    assert_eq!(s.total, 100);
    assert_eq!(s.users, 3);
    assert_eq!(s.top_user_count, 9);
    assert_eq!(s.top_sentences.len(), 5);
    let expected = vec![
        (String::from("菜喘"), 9u64),
        (String::from("d"), 7),
        (String::from("b"), 5),
        (String::from("e"), 4),
        (String::from("a"), 2),
    ];
    assert_eq!(s.top_sentences, expected);
}

#[test]
fn summary_of_empty_counters() {
    let s = Stat::new().summary();
    assert_eq!(s.total, 0);
    assert_eq!(s.users, 0);
    assert_eq!(s.top_user_count, 0);
    assert!(s.top_sentences.is_empty());
}

#[test]
fn summary_with_fewer_than_five_items_lists_them_all() {
    let stat = Stat { total: 3, sentences: table(&[("x", 2), ("y", 3)]), users: table(&[]) };
    let s = stat.summary();
    assert_eq!(s.top_sentences, vec![(String::from("y"), 3u64), (String::from("x"), 2)]);
}

#[test]
fn bump_creates_then_increments() {
    let mut store = Stat::new();
    assert_eq!(store.bump_sentence("s"), 1);
    assert_eq!(store.bump_sentence("s"), 2);
    assert_eq!(store.bump_user("u"), 1);
    assert_eq!(store.bump_total(), 1);
    assert_eq!(store.bump_total(), 2);
}

#[test]
fn migrate_fills_a_fresh_store() {
    let m = Migrator::new(42, table(&[("s1", 40), ("s2", 2)]), table(&[("u1", 42)]));
    let mut store = Stat::new();
    m.migrate(&mut store);
    assert_eq!(store.total, 42);
    assert_eq!(store.sentences.get("s1"), Some(&40));
    assert_eq!(store.sentences.get("s2"), Some(&2));
    assert_eq!(store.users.get("u1"), Some(&42));
}

#[test]
fn table_length_and_max() {
    let t = table(&[("a", 3), ("b", 9), ("c", 1)]);
    assert_eq!(t.length(), 3);
    assert_eq!(t.max_value(), 9);
    assert_eq!(Table::<u64>::new().max_value(), 0);
    assert_eq!(t.get("missing"), None);
}
