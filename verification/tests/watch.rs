use dott::config::domain_name;
use dott::model::{Availability, DomainDates, WatchEntry};
use dott::watch::{
    add_watched, plan_watch, remove_watched, unwatch, update_statuses, watch_target,
    watch_targets, WatchPlan,
};

fn entry(domain: &str, status: &str) -> WatchEntry {
    WatchEntry { domain: domain.to_string(), last_status: status.to_string() }
}

fn domains(list: &[WatchEntry]) -> Vec<&str> {
    list.iter().map(|e| e.domain.as_str()).collect()
}

fn result(status: Availability) -> (String, Availability) {
    ("x".to_string(), status)
}

#[test]
fn a_full_domain_is_wanted() {
    assert!(matches!(plan_watch(&vec![], "plain"), WatchPlan::Incomplete));
    assert!(matches!(plan_watch(&vec![], ""), WatchPlan::Incomplete));
}

#[test]
fn a_domain_is_planned_in_lowercase() {
    match plan_watch(&vec![], "Sub.GO.Ai") {
        WatchPlan::Check { domain, name, tld, first } => {
            assert_eq!(domain, "sub.go.ai");
            assert_eq!(name, "sub.go");
            assert_eq!(tld, "ai");
            assert!(first);
        }
        _ => panic!("expected a check"),
    }
    match plan_watch(&vec![entry("a.com", "taken")], "ÉTÉ.zip") {
        WatchPlan::Check { domain, name, tld, first } => {
            assert_eq!(domain, "été.zip");
            assert_eq!(name, "été");
            assert_eq!(tld, "zip");
            assert!(!first);
        }
        _ => panic!("expected a check"),
    }
}

#[test]
fn a_domain_is_watched_once() {
    let mut list = vec![];
    add_watched(&mut list, "go.ai", &Availability::Available);
    assert_eq!(list[0].domain, "go.ai");
    assert_eq!(list[0].last_status, "available");
    match plan_watch(&list, "GO.ai") {
        WatchPlan::Already(domain) => assert_eq!(domain, "go.ai"),
        _ => panic!("expected that it is watched"),
    }
}

#[test]
fn unwatching_takes_a_domain_off() {
    let mut list = vec![entry("a.com", "taken"), entry("b.com", "taken"), entry("a.com", "x")];
    let (domain, removed) = unwatch(&mut list, "A.COM");
    assert_eq!(domain, "a.com");
    assert!(removed);
    assert_eq!(domains(&list), ["b.com"]);
    let (domain, removed) = unwatch(&mut list, "C.com");
    assert_eq!(domain, "c.com");
    assert!(!removed);
    assert_eq!(domains(&list), ["b.com"]);
}

#[test]
fn unwatching_undoes_watching() {
    let mut list = vec![entry("b.com", "taken")];
    add_watched(&mut list, "a.com", &Availability::Unknown);
    assert!(remove_watched(&mut list, "a.com"));
    assert!(!remove_watched(&mut list, "a.com"));
    assert_eq!(domains(&list), ["b.com"]);
    assert_eq!(list[0].last_status, "taken");
}

#[test]
fn targets() {
    let pair = |name: &str, tld: &str| (name.to_string(), tld.to_string());
    assert_eq!(watch_target("go.ai"), pair("go", "ai"));
    assert_eq!(watch_target("a.b.co"), pair("a.b", "co"));
    assert_eq!(watch_target("go.zip"), pair("go", "zip"));
    assert_eq!(watch_target("plain"), pair("plain", "com"));
    assert_eq!(watch_target("go."), pair("go", ""));
    let list = vec![entry("go.ai", "taken"), entry("x.fm", "taken")];
    assert_eq!(watch_targets(&list), vec![pair("go", "ai"), pair("x", "fm")]);
}

#[test]
fn a_watched_domain_is_checked_itself() {
    let list = vec![entry("foo.de", "taken"), entry("a.b.example", "taken"), entry("x.io", "taken")];
    for (e, (name, tld)) in list.iter().zip(watch_targets(&list)) {
        assert_eq!(domain_name(&name, &tld), e.domain);
    }
    match plan_watch(&vec![], "FOO.de") {
        WatchPlan::Check { domain, name, tld, .. } => {
            assert_eq!(domain, "foo.de");
            assert_eq!(domain_name(&name, &tld), "foo.de");
        }
        _ => panic!("expected a check"),
    }
}

#[test]
fn news_of_freed_domains() {
    let mut list = vec![
        entry("a.com", "taken"),
        entry("b.com", "available"),
        entry("c.com", "available"),
        entry("d.com", "unknown"),
        entry("e.com", "odd"),
    ];
    let results = vec![
        result(Availability::Available),
        result(Availability::Available),
        result(Availability::Taken(DomainDates::default())),
        result(Availability::Protected),
    ];
    let (news, changed) = update_statuses(&mut list, &results);
    assert_eq!(news, ["a.com"]);
    assert!(changed);
    let statuses: Vec<&str> = list.iter().map(|e| e.last_status.as_str()).collect();
    assert_eq!(statuses, ["available", "available", "taken", "protected", "odd"]);
    assert_eq!(domains(&list), ["a.com", "b.com", "c.com", "d.com", "e.com"]);
    let (news, changed) = update_statuses(&mut list, &results);
    assert!(news.is_empty());
    assert!(!changed);
}
