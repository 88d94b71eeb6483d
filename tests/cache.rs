use std::cell::RefCell;
use writium::cache::Cache;

type Extra = &'static [&'static str];
type Gen = fn(&Extra, &str) -> Option<&'static str>;
type Dis = fn(&Extra, &str, &'static str);
type TestCache = Cache<&'static str, Extra, Gen, Dis>;

fn make_cache(fail: bool) -> TestCache {
    let gen: Gen = if fail {
        |_, _| None
    } else {
        |extra, id| Some(extra[id.parse::<usize>().unwrap()])
    };
    TestCache::new(3, gen, |_, _, _disposed| {}, &["cache0", "cache1", "cache2"])
}

#[test]
fn test_cache() {
    let mut cache = make_cache(false);
    let tmp = cache.get("0").unwrap();
    assert_eq!(*tmp, "cache0");
    let tmp = cache.get("1").unwrap();
    assert_eq!(*tmp, "cache1");
    let tmp = cache.get("2").unwrap();
    assert_eq!(*tmp, "cache2");
}

#[test]
fn test_cache_failure() {
    let mut cache = make_cache(true);
    assert_eq!(cache.get("0").is_none(), true);
    assert_eq!(cache.get("1").is_none(), true);
    assert_eq!(cache.get("2").is_none(), true);
}

#[test]
fn test_max_cache() {
    let mut cache = make_cache(false);
    assert_eq!(cache.len(), 0);
    cache.get("0");
    assert_eq!(cache.len(), 1);
    cache.get("1");
    assert_eq!(cache.len(), 2);
    cache.get("2");
    assert_eq!(cache.len(), 3);
    cache.get("0");
    assert_eq!(cache.len(), 3);
}

#[test]
fn test_max_cache_failure() {
    let mut cache = make_cache(true);
    assert_eq!(cache.len(), 0);
    cache.get("0");
    assert_eq!(cache.len(), 0);
    cache.get("1");
    assert_eq!(cache.len(), 0);
    cache.get("2");
    assert_eq!(cache.len(), 0);
}

/// A cache over `key -> "value<key>"` that logs every generation and disposal.
fn logging_cache<'a>(
    log: &'a RefCell<Vec<String>>,
) -> Cache<String, (), impl Fn(&(), &str) -> Option<String> + 'a, impl Fn(&(), &str, String) + 'a> {
    Cache::new(
        3,
        move |_: &(), id: &str| {
            log.borrow_mut().push(format!("generate {}", id));
            if id == "x" {
                None
            } else {
                Some(format!("value{}", id))
            }
        },
        move |_: &(), id: &str, v: String| {
            log.borrow_mut().push(format!("dispose {} {}", id, v));
        },
        (),
    )
}

#[test]
fn three_misses_fill_without_disposal() {
    let log = RefCell::new(Vec::new());
    let mut cache = logging_cache(&log);
    assert_eq!(cache.capacity(), 3);
    assert_eq!(cache.get("0").cloned(), Some("value0".to_string()));
    assert_eq!(cache.get("1").cloned(), Some("value1".to_string()));
    assert_eq!(cache.get("2").cloned(), Some("value2".to_string()));
    assert_eq!(cache.len(), 3);
    assert_eq!(*log.borrow(), vec!["generate 0", "generate 1", "generate 2"]);
}

#[test]
fn eviction_takes_least_recently_touched() {
    let log = RefCell::new(Vec::new());
    let mut cache = logging_cache(&log);
    cache.get("0");
    cache.get("1");
    cache.get("2");
    assert_eq!(cache.get("0").cloned(), Some("value0".to_string()));
    assert_eq!(cache.get("3").cloned(), Some("value3".to_string()));
    assert_eq!(cache.len(), 3);
    let disposals: Vec<String> = log.borrow().iter().filter(|l| l.starts_with("dispose")).cloned().collect();
    assert_eq!(disposals, vec!["dispose 1 value1"]);
    log.borrow_mut().clear();
    // "0", "2" and "3" are held: no generation for them.
    cache.get("0");
    cache.get("2");
    cache.get("3");
    assert!(log.borrow().is_empty());
    // "1" is gone: it is generated again, and "0" leaves.
    cache.get("1");
    assert_eq!(*log.borrow(), vec!["generate 1", "dispose 0 value0"]);
}

#[test]
fn failed_generation_stores_nothing() {
    let log = RefCell::new(Vec::new());
    let mut cache = logging_cache(&log);
    cache.get("0");
    cache.get("1");
    cache.get("2");
    assert_eq!(cache.get("x"), None);
    assert_eq!(cache.len(), 3);
    assert!(log.borrow().iter().all(|l| !l.starts_with("dispose")));
}

#[test]
fn repeated_hits_do_not_generate() {
    let log = RefCell::new(Vec::new());
    let mut cache = logging_cache(&log);
    cache.get("7");
    for _ in 0..5 {
        assert_eq!(cache.get("7").cloned(), Some("value7".to_string()));
        assert_eq!(cache.len(), 1);
    }
    assert_eq!(*log.borrow(), vec!["generate 7"]);
}

#[test]
fn insert_generated_none_is_a_no_op() {
    let log = RefCell::new(Vec::new());
    let mut cache = logging_cache(&log);
    assert_eq!(cache.insert_generated("a", None), None);
    assert_eq!(cache.len(), 0);
    assert_eq!(cache.insert_generated("a", Some("A".to_string())).cloned(), Some("A".to_string()));
    assert_eq!(cache.len(), 1);
    assert!(log.borrow().is_empty());
}
