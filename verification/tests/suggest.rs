use dott::suggest::{generate_suggestions, join_keywords, suggestion_checks, SUGGESTED_TLDS};

fn words(list: &[&str]) -> Vec<String> {
    list.iter().map(|s| s.to_string()).collect()
}

#[test]
fn variants_of_one_keyword() {
    assert_eq!(
        generate_suggestions(&words(&["zap"])),
        words(&[
            "zap", "getzap", "tryzap", "usezap", "gozap", "myzap", "thezap", "runzap", "heyzap",
            "zaphq", "zapapp", "zaplab", "zaphub", "zapbase",
        ])
    );
}

#[test]
fn more_keywords_change_nothing() {
    assert_eq!(
        generate_suggestions(&words(&["zap", "pop", "zap"])),
        generate_suggestions(&words(&["zap"]))
    );
}

#[test]
fn the_empty_keyword() {
    let list = generate_suggestions(&words(&[""]));
    assert_eq!(
        list,
        words(&[
            "", "get", "try", "use", "go", "my", "the", "run", "hey", "hq", "app", "lab", "hub",
            "base",
        ])
    );
}

#[test]
fn no_keywords_no_names() {
    assert_eq!(generate_suggestions(&[]), words(&[]));
}

#[test]
fn joined_keywords() {
    assert_eq!(join_keywords(&words(&["a", "b", "c"]), ", "), "a, b, c");
    assert_eq!(join_keywords(&words(&["a"]), "-"), "a");
    assert_eq!(join_keywords(&[], "-"), "");
    assert_eq!(join_keywords(&words(&["", ""]), "-"), "-");
}

#[test]
fn checks_name_by_name() {
    assert_eq!(SUGGESTED_TLDS, ["com", "io", "dev", "app", "co"]);
    let checks = suggestion_checks(&words(&["a", "b"]));
    let shown: Vec<String> = checks.iter().map(|(n, t)| format!("{}.{}", n, t)).collect();
    assert_eq!(
        shown,
        words(&[
            "a.com", "a.io", "a.dev", "a.app", "a.co", "b.com", "b.io", "b.dev", "b.app", "b.co",
        ])
    );
    assert!(suggestion_checks(&words(&[])).is_empty());
}
