use dott::cache::{new_cache, CACHE_TTL};
use dott::model::{Availability, DomainDates};

#[test]
fn a_result_is_kept_for_sixty_seconds() {
    assert_eq!(CACHE_TTL, 60_000_000_000);
    let mut cache = new_cache();
    assert!(cache.recall("go", "ai", 5).is_none());
    cache.insert("go", "ai", 5, &Availability::Protected);
    let (domain, status) = cache.recall("go", "ai", 5 + CACHE_TTL - 1).unwrap();
    assert_eq!(domain, "go.ai");
    assert_eq!(status.as_str(), "protected");
    assert!(cache.recall("go", "ai", 5 + CACHE_TTL).is_none());
    assert!(cache.recall("go", "ai", 0).is_some());
}

#[test]
fn results_do_not_mix() {
    let mut cache = new_cache();
    cache.insert("go", "ai", 0, &Availability::Available);
    assert!(cache.lookup("go", "io", 1).is_none());
    assert!(cache.lookup("goa", "i", 1).is_none());
    cache.insert("go", "io", 0, &Availability::Unknown);
    assert_eq!(cache.lookup("go", "ai", 1).unwrap().as_str(), "available");
    assert_eq!(cache.lookup("go", "io", 1).unwrap().as_str(), "unknown");
}

#[test]
fn the_last_result_counts() {
    let mut cache = new_cache();
    cache.insert("go", "ai", 0, &Availability::Available);
    let dates = DomainDates { registered: None, updated: None, expires: Some("2027-01-01".to_string()) };
    cache.insert("go", "ai", CACHE_TTL, &Availability::Taken(dates));
    match cache.lookup("go", "ai", CACHE_TTL + 1) {
        Some(Availability::Taken(d)) => assert_eq!(d.expires.as_deref(), Some("2027-01-01")),
        _ => panic!("expected the later result"),
    }
}
