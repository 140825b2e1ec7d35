use dott::merge::{conclude_check, merge_dates, merge_results, needs_whois};
use dott::model::{Availability, DomainDates};

fn dates_with_expiry(exp: &str) -> DomainDates {
    DomainDates { registered: None, updated: None, expires: Some(exp.to_string()) }
}

#[test]
fn dns_taken_overrides_all_unknown() {
    let out = merge_results(
        Availability::Unknown,
        Availability::Unknown,
        Availability::Taken(DomainDates::default()),
    );
    assert!(matches!(out, Availability::Taken(_)));
}

#[test]
fn dns_taken_keeps_whois_expiry() {
    let out = merge_results(
        Availability::Unknown,
        Availability::Taken(dates_with_expiry("2027-01-01")),
        Availability::Taken(DomainDates::default()),
    );
    match out {
        Availability::Taken(d) => assert_eq!(d.expires.as_deref(), Some("2027-01-01")),
        _ => panic!("expected Taken with WHOIS expiry preserved"),
    }
}

#[test]
fn rdap_wins_but_whois_fills_gaps() {
    let rdap = DomainDates {
        registered: Some("2020-01-01".into()),
        updated:    None,
        expires:    Some("2026-01-01".into()),
    };
    let whois = DomainDates {
        registered: Some("2019-05-05".into()),
        updated:    Some("2024-06-06".into()),
        expires:    Some("2027-12-31".into()),
    };
    let out = merge_results(
        Availability::Taken(rdap),
        Availability::Taken(whois),
        Availability::Unknown,
    );
    match out {
        Availability::Taken(d) => {
            assert_eq!(d.registered.as_deref(), Some("2020-01-01")); // RDAP wins
            assert_eq!(d.updated.as_deref(),    Some("2024-06-06")); // WHOIS fills gap
            assert_eq!(d.expires.as_deref(),    Some("2026-01-01")); // RDAP wins
        }
        _ => panic!("expected Taken"),
    }
}

#[test]
fn rdap_available_beats_everything() {
    let out = merge_results(
        Availability::Available,
        Availability::Taken(DomainDates::default()),
        Availability::Unknown,
    );
    assert!(matches!(out, Availability::Available));
}

#[test]
fn whois_fallback_when_rdap_unknown() {
    let out = merge_results(
        Availability::Unknown,
        Availability::Taken(dates_with_expiry("2027-01-01")),
        Availability::Unknown,
    );
    match out {
        Availability::Taken(d) => assert_eq!(d.expires.as_deref(), Some("2027-01-01")),
        _ => panic!("expected Taken from WHOIS fallback"),
    }
}

#[test]
fn all_unknown_stays_unknown() {
    let out = merge_results(Availability::Unknown, Availability::Unknown, Availability::Unknown);
    assert!(matches!(out, Availability::Unknown));
}

#[test]
fn name_servers_settle_it() {
    let taken = Availability::Taken(DomainDates::default());
    for rdap in [Availability::Available, Availability::Protected, Availability::Unknown] {
        let out = merge_results(rdap, Availability::Available, taken.clone());
        assert_eq!(out.as_str(), "taken");
    }
}

#[test]
fn rdap_protected_is_believed() {
    let out = merge_results(
        Availability::Protected,
        Availability::Taken(dates_with_expiry("2027-01-01")),
        Availability::Unknown,
    );
    assert_eq!(out.as_str(), "protected");
}

#[test]
fn whois_decides_where_rdap_is_silent() {
    let out = merge_results(Availability::Unknown, Availability::Available, Availability::Unknown);
    assert_eq!(out.as_str(), "available");
}

#[test]
fn dates_merge_in_order() {
    let one = merge_dates(dates_with_expiry("2027-01-01"), dates_with_expiry("2028-01-01"));
    assert_eq!(one.expires.as_deref(), Some("2027-01-01"));
    let none = merge_dates(DomainDates::default(), DomainDates::default());
    assert!(none.registered.is_none() && none.updated.is_none() && none.expires.is_none());
    let kept = merge_dates(DomainDates::default(), dates_with_expiry("2028-01-01"));
    assert_eq!(kept.expires.as_deref(), Some("2028-01-01"));
}

#[test]
fn whois_is_heard_only_where_rdap_is_silent() {
    assert!(needs_whois(&Availability::Unknown));
    assert!(!needs_whois(&Availability::Available));
    assert!(!needs_whois(&Availability::Protected));
    assert!(!needs_whois(&Availability::Taken(DomainDates::default())));
    let (domain, status) = conclude_check(
        "go",
        "ai",
        Availability::Taken(DomainDates::default()),
        Availability::Taken(dates_with_expiry("2027-01-01")),
        Availability::Unknown,
    );
    assert_eq!(domain, "go.ai");
    match status {
        Availability::Taken(d) => assert_eq!(d.expires, None),
        _ => panic!("expected Taken"),
    }
    let (domain, status) = conclude_check(
        "go",
        "gg",
        Availability::Unknown,
        Availability::Taken(dates_with_expiry("2027-01-01")),
        Availability::Unknown,
    );
    assert_eq!(domain, "go.gg");
    match status {
        Availability::Taken(d) => assert_eq!(d.expires.as_deref(), Some("2027-01-01")),
        _ => panic!("expected Taken"),
    }
}

#[test]
fn status_words() {
    assert_eq!(Availability::Available.as_str(), "available");
    assert_eq!(Availability::Protected.as_str(), "protected");
    assert_eq!(Availability::Taken(DomainDates::default()).as_str(), "taken");
    assert_eq!(Availability::Unknown.as_str(), "unknown");
}
