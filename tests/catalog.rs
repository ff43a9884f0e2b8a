use flagcache::manager::{FeatureManager, FeaturePoll, ListPoll};
use flagcache::progress::{Claim, LoadProgress};
use flagcache::store::RecordStore;

fn loaded(m: &mut FeatureManager, name: &str, content: Option<&str>) -> Vec<u64> {
    assert_eq!(m.claim(name), Claim::Claimed);
    m.complete(name, content.map(|c| c.to_string()))
}

fn names(v: &[flagcache::store::FlagRecord]) -> Vec<String> {
    let mut n: Vec<String> = v.iter().map(|r| r.name.clone()).collect();
    n.sort();
    n
}

#[test]
fn directory_with_valid_malformed_and_missing_entries() {
    let mut m = FeatureManager::new();
    loaded(&mut m, "a.json", Some("{\"enabled\": true}"));
    loaded(&mut m, "b.json", Some("{\"enabled\": "));
    m.finish();
    match m.all_features(1) {
        ListPoll::Ready(v) => {
            assert_eq!(names(&v), vec!["a.json".to_string()]);
            assert_eq!(v[0].text, "{\"enabled\": true}");
        }
        ListPoll::Pending => panic!("catalog is complete"),
    }
    match m.get_feature("a.json", 2) {
        FeaturePoll::Ready(Some(r)) => assert_eq!(r.name, "a.json"),
        _ => panic!("a.json should be present"),
    }
    assert!(matches!(m.get_feature("b.json", 3), FeaturePoll::Ready(None)));
    assert!(matches!(m.get_feature("c.json", 4), FeaturePoll::Ready(None)));
}

#[test]
fn fifty_waiters_share_one_load() {
    let mut m = FeatureManager::new();
    for w in 0..50u64 {
        assert!(matches!(m.get_feature("a", w), FeaturePoll::Pending));
    }
    assert_eq!(m.claim("a"), Claim::Claimed);
    for _ in 0..50 {
        assert_eq!(m.claim("a"), Claim::AlreadyClaimed);
    }
    let mut woken = m.complete("a", Some("[1, 2]".to_string()));
    woken.sort();
    assert_eq!(woken, (0..50u64).collect::<Vec<u64>>());
    assert_eq!(m.claim("a"), Claim::AlreadyClaimed);
    for w in 0..50u64 {
        match m.get_feature("a", w) {
            FeaturePoll::Ready(Some(r)) => assert_eq!(r.text, "[1, 2]"),
            _ => panic!("a should resolve to its record"),
        }
    }
    assert!(m.finish().is_empty());
}

#[test]
fn unknown_name_is_never_present() {
    let mut m = FeatureManager::new();
    assert!(matches!(m.get_feature("ghost", 7), FeaturePoll::Pending));
    loaded(&mut m, "x", Some("1"));
    assert!(matches!(m.get_feature("ghost", 7), FeaturePoll::Pending));
    let woken = m.finish();
    assert_eq!(woken, vec![7]);
    assert!(matches!(m.get_feature("ghost", 7), FeaturePoll::Ready(None)));
}

#[test]
fn list_waits_for_completion() {
    let mut m = FeatureManager::new();
    assert!(matches!(m.all_features(1), ListPoll::Pending));
    loaded(&mut m, "one", Some("true"));
    assert!(matches!(m.all_features(2), ListPoll::Pending));
    loaded(&mut m, "two", Some("\"x\""));
    loaded(&mut m, "bad", Some("not json"));
    loaded(&mut m, "gone", None);
    assert!(!m.is_done_loading());
    let mut woken = m.finish();
    woken.sort();
    assert_eq!(woken, vec![1, 2]);
    assert!(m.is_done_loading());
    match m.all_features(3) {
        ListPoll::Ready(v) => assert_eq!(names(&v), vec!["one".to_string(), "two".to_string()]),
        ListPoll::Pending => panic!("catalog is complete"),
    }
}

#[test]
fn malformed_content_stays_absent() {
    let mut m = FeatureManager::new();
    assert!(matches!(m.get_feature("bad", 1), FeaturePoll::Pending));
    let woken = loaded(&mut m, "bad", Some("{,}"));
    assert_eq!(woken, vec![1]);
    assert!(matches!(m.get_feature("bad", 1), FeaturePoll::Ready(None)));
    assert_eq!(m.claim("bad"), Claim::AlreadyClaimed);
    m.finish();
    match m.all_features(2) {
        ListPoll::Ready(v) => assert!(v.is_empty()),
        ListPoll::Pending => panic!("catalog is complete"),
    }
}

#[test]
fn completed_catalog_reads_are_stable() {
    let mut m = FeatureManager::new();
    loaded(&mut m, "k", Some("{}"));
    m.finish();
    assert_eq!(m.claim("k"), Claim::Finished);
    assert_eq!(m.claim("new"), Claim::Finished);
    for w in 0..3u64 {
        match m.all_features(w) {
            ListPoll::Ready(v) => assert_eq!(names(&v), vec!["k".to_string()]),
            ListPoll::Pending => panic!("no suspension after completion"),
        }
        match m.get_feature("k", w) {
            FeaturePoll::Ready(Some(r)) => assert_eq!(r.text, "{}"),
            _ => panic!("no suspension after completion"),
        }
    }
}

#[test]
fn waiters_for_other_names_stay_registered() {
    let mut m = FeatureManager::new();
    assert!(matches!(m.get_feature("p", 1), FeaturePoll::Pending));
    assert!(matches!(m.get_feature("q", 2), FeaturePoll::Pending));
    assert!(matches!(m.get_feature("p", 3), FeaturePoll::Pending));
    let mut woken = loaded(&mut m, "p", Some("0"));
    woken.sort();
    assert_eq!(woken, vec![1, 3]);
    assert_eq!(m.finish(), vec![2]);
}

#[test]
fn empty_directory_completes_empty() {
    let mut m = FeatureManager::new();
    assert!(matches!(m.all_features(9), ListPoll::Pending));
    assert_eq!(m.finish(), vec![9]);
    match m.all_features(9) {
        ListPoll::Ready(v) => assert!(v.is_empty()),
        ListPoll::Pending => panic!("catalog is complete"),
    }
}

#[test]
fn tracker_claims_and_releases() {
    let mut p = LoadProgress::new();
    let a = "a".to_string();
    assert!(!p.is_done());
    assert_eq!(p.try_claim(&a), Claim::Claimed);
    assert_eq!(p.try_claim(&a), Claim::AlreadyClaimed);
    p.release(&a);
    assert_eq!(p.try_claim(&a), Claim::Claimed);
    p.release(&a);
    p.finish();
    assert!(p.is_done());
    assert_eq!(p.try_claim(&a), Claim::Finished);
}

#[test]
fn store_keeps_only_parsed_records() {
    let mut s = RecordStore::new();
    let a = "a".to_string();
    let b = "b".to_string();
    assert!(s.insert_parsed(&a, "{\"x\": 1}".to_string()));
    assert!(!s.insert_parsed(&b, "{\"x\": }".to_string()));
    assert_eq!(s.get(&a).map(|r| r.text), Some("{\"x\": 1}".to_string()));
    assert!(s.get(&b).is_none());
    assert_eq!(names(&s.snapshot()), vec!["a".to_string()]);
}
