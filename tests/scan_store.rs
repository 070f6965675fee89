use std::cell::RefCell;
use tikv_dump::inspect::raw_value_text;
use tikv_dump::scan::{key_equal, key_less, MemStore, ScanControl};

fn store_of(keys: &[&str]) -> MemStore {
    let mut s = MemStore::new();
    for k in keys {
        s.put(k.as_bytes().to_vec(), format!("v{}", k).into_bytes());
    }
    s
}

fn visited(store: &MemStore, lower: &str, upper: &[u8], limit: u64, stop_after: usize) -> (u64, Vec<String>) {
    let seen = RefCell::new(Vec::new());
    let n = store.scan(lower.as_bytes(), upper.to_vec(), limit, |k: &Vec<u8>, _v: &Vec<u8>| {
        seen.borrow_mut().push(String::from_utf8(k.clone()).unwrap());
        seen.borrow().len() < stop_after
    });
    (n, seen.into_inner())
}

#[test]
fn scan_stops_at_limit() {
    let s = store_of(&["a", "b", "c", "d"]);
    let (n, seen) = visited(&s, "a", b"z", 2, usize::MAX);
    assert_eq!(n, 2);
    assert_eq!(seen, vec!["a", "b"]);
}

#[test]
fn scan_limit_zero_visits_nothing() {
    let s = store_of(&["a", "b"]);
    let (n, seen) = visited(&s, "a", b"z", 0, usize::MAX);
    assert_eq!(n, 0);
    assert!(seen.is_empty());
    let c = ScanControl::new(vec![0xff], 0);
    assert!(c.is_done());
}

#[test]
fn scan_stops_when_visitor_says_so() {
    let s = store_of(&["a", "b", "c", "d", "e"]);
    let (n, seen) = visited(&s, "a", b"z", 100, 3);
    assert_eq!(n, 3);
    assert_eq!(seen, vec!["a", "b", "c"]);
}

#[test]
fn scan_respects_bounds() {
    let s = store_of(&["a", "b", "c", "d"]);
    let (n, seen) = visited(&s, "b", b"d", u64::MAX, usize::MAX);
    assert_eq!(n, 2);
    assert_eq!(seen, vec!["b", "c"]);
    let (n, seen) = visited(&s, "bb", &[0xff], u64::MAX, usize::MAX);
    assert_eq!(n, 2);
    assert_eq!(seen, vec!["c", "d"]);
    let (n, _) = visited(&s, "e", &[0xff], u64::MAX, usize::MAX);
    assert_eq!(n, 0);
}

#[test]
fn scan_control_steps() {
    let mut c = ScanControl::new(b"c".to_vec(), 5);
    assert!(!c.is_done());
    assert!(c.offer(b"a"));
    c.record(true);
    assert!(!c.is_done());
    assert!(!c.offer(b"c"));
    assert!(c.is_done());
    let mut c = ScanControl::new(b"z".to_vec(), 1);
    assert!(c.offer(b"a"));
    c.record(true);
    assert!(c.is_done());
    assert_eq!(c.count, 1);
}

#[test]
fn store_put_orders_and_replaces() {
    let mut s = store_of(&["c", "a", "b"]);
    s.put(b"a".to_vec(), b"new".to_vec());
    let keys: Vec<Vec<u8>> = s.entries.iter().map(|e| e.0.clone()).collect();
    assert_eq!(keys, vec![b"a".to_vec(), b"b".to_vec(), b"c".to_vec()]);
    assert_eq!(s.get(b"a"), Some(b"new".to_vec()));
    assert_eq!(s.get(b"b"), Some(b"vb".to_vec()));
    assert_eq!(s.get(b"z"), None);
}

#[test]
fn empty_store_lookup_renders_none() {
    let s = MemStore::new();
    let v = s.get(b"any");
    assert_eq!(v, None);
    assert_eq!(raw_value_text(v.as_deref()), "None");
}

#[test]
fn stored_value_renders_escaped() {
    let mut s = MemStore::new();
    s.put(b"x".to_vec(), vec![0x00, 0x01]);
    let v = s.get(b"x");
    assert_eq!(raw_value_text(v.as_deref()), "\\000\\001");
}

#[test]
fn byte_comparisons() {
    assert!(key_less(b"a", b"b"));
    assert!(key_less(b"a", b"ab"));
    assert!(!key_less(b"ab", b"a"));
    assert!(!key_less(b"", b""));
    assert!(key_less(b"", b"\x00"));
    assert!(key_equal(b"abc", b"abc"));
    assert!(!key_equal(b"abc", b"abd"));
}
