use unleash_proxy::metrics::{upload_batch, Metrics, MetricsBucket, MetricsStore};
use unleash_proxy::strmap::StrMap;

fn counts(items: &[(&str, &[(&str, u64)])]) -> StrMap<StrMap<u64>> {
    let mut toggles = StrMap::new();
    for (t, states) in items {
        let mut m = StrMap::new();
        for (s, c) in states.iter() {
            m.insert(s.to_string(), *c);
        }
        toggles.insert(t.to_string(), m);
    }
    toggles
}

fn report(app: &str, start: u64, stop: u64, items: &[(&str, &[(&str, u64)])]) -> Metrics<u64> {
    Metrics {
        app_name: app.to_string(),
        instance_id: "browser-1".to_string(),
        bucket: MetricsBucket { start, stop, toggles: counts(items) },
    }
}

fn count(m: &Metrics<u64>, toggle: &str, state: &str) -> Option<u64> {
    m.bucket.toggles.get(toggle).and_then(|s| s.get(state)).copied()
}

fn find<'a>(batch: &'a [Metrics<u64>], app: &str) -> &'a Metrics<u64> {
    batch.iter().find(|m| m.app_name == app).expect("app in batch")
}

#[test]
fn first_report_creates_entry() {
    let mut store = MetricsStore::new();
    store.merge_report(report("web", 10, 20, &[("a", &[("yes", 3), ("no", 1)])]));
    let batch = store.take_all();
    assert_eq!(batch.len(), 1);
    let m = &batch[0];
    assert_eq!(m.app_name, "web");
    assert_eq!(m.instance_id, "proxy");
    assert_eq!((m.bucket.start, m.bucket.stop), (10, 20));
    assert_eq!(count(m, "a", "yes"), Some(3));
    assert_eq!(count(m, "a", "no"), Some(1));
}

#[test]
fn reports_of_one_app_add_up() {
    let mut store = MetricsStore::new();
    store.merge_report(report("web", 10, 20, &[("a", &[("yes", 3)]), ("b", &[("no", 2)])]));
    store.merge_report(report("web", 30, 40, &[("a", &[("yes", 4), ("no", 5)]), ("c", &[])]));
    let batch = store.take_all();
    assert_eq!(batch.len(), 1);
    let m = &batch[0];
    // the entry keeps the window of the first report
    assert_eq!((m.bucket.start, m.bucket.stop), (10, 20));
    assert_eq!(count(m, "a", "yes"), Some(7));
    assert_eq!(count(m, "a", "no"), Some(5));
    assert_eq!(count(m, "b", "no"), Some(2));
    // a toggle reported with no states is not added
    assert!(m.bucket.toggles.get("c").is_none());
    assert_eq!(m.bucket.toggles.len(), 2);
}

#[test]
fn apps_are_kept_apart() {
    let mut store = MetricsStore::new();
    store.merge_report(report("web", 1, 2, &[("a", &[("yes", 1)])]));
    store.merge_report(report("ios", 1, 2, &[("a", &[("yes", 9)])]));
    let batch = store.take_all();
    assert_eq!(batch.len(), 2);
    assert_eq!(count(find(&batch, "web"), "a", "yes"), Some(1));
    assert_eq!(count(find(&batch, "ios"), "a", "yes"), Some(9));
}

#[test]
fn merge_order_does_not_change_counts() {
    let a = || report("web", 1, 2, &[("a", &[("yes", 1)]), ("b", &[("no", 4)])]);
    let b = || report("web", 3, 4, &[("a", &[("yes", 2), ("no", 7)])]);
    let mut s1 = MetricsStore::new();
    s1.merge_report(a());
    s1.merge_report(b());
    let mut s2 = MetricsStore::new();
    s2.merge_report(b());
    s2.merge_report(a());
    let b1 = s1.take_all();
    let b2 = s2.take_all();
    for (t, s) in [("a", "yes"), ("a", "no"), ("b", "no"), ("b", "yes")] {
        assert_eq!(count(&b1[0], t, s), count(&b2[0], t, s));
    }
    assert_eq!(count(&b1[0], "a", "yes"), Some(3));
}

#[test]
fn take_all_empties_the_store() {
    let mut store = MetricsStore::new();
    store.merge_report(report("web", 1, 2, &[("a", &[("yes", 1)])]));
    assert_eq!(store.take_all().len(), 1);
    assert_eq!(store.take_all().len(), 0);
    store.merge_report(report("web", 5, 6, &[("a", &[("yes", 1)])]));
    let batch = store.take_all();
    assert_eq!(count(&batch[0], "a", "yes"), Some(1));
    assert_eq!(batch[0].bucket.start, 5);
}

#[test]
fn overflowing_counts_are_detected() {
    let mut store = MetricsStore::new();
    let r = report("web", 1, 2, &[("a", &[("yes", u64::MAX)])]);
    assert!(store.can_merge(&r));
    store.merge_report(r);
    assert!(!store.can_merge(&report("web", 1, 2, &[("a", &[("yes", 1)])])));
    assert!(store.can_merge(&report("web", 1, 2, &[("a", &[("no", 1)])])));
    assert!(store.can_merge(&report("web", 1, 2, &[("a", &[("yes", 0)])])));
    assert!(store.can_merge(&report("ios", 1, 2, &[("a", &[("yes", 1)])])));
}

#[test]
fn upload_batch_stamps_window_and_endpoint() {
    let mut store = MetricsStore::new();
    store.merge_report(report("web", 1, 2, &[("a", &[("yes", 1)])]));
    store.merge_report(report("ios", 1, 2, &[("b", &[("no", 2)])]));
    let up = upload_batch("http://unleash:4242/api", store.take_all(), 100, 200);
    assert_eq!(up.endpoint, "http://unleash:4242/api/client/metrics");
    assert_eq!(up.metrics.len(), 2);
    for m in &up.metrics {
        assert_eq!((m.bucket.start, m.bucket.stop), (100, 200));
    }
    assert_eq!(count(find(&up.metrics, "ios"), "b", "no"), Some(2));
}
