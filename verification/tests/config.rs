use dott::config::{
    domain_name, find_tld, is_likely_premium, rdap_url, tld_of, tld_price, tld_rank, whois_server, ALL_TLDS,
};

#[test]
fn premium_heuristic_flags_short_names_in_premium_tlds() {
    assert!(is_likely_premium("go.ai"));
    assert!(is_likely_premium("x.io"));
    assert!(is_likely_premium("app.dev"));
    assert!(is_likely_premium("four.co"));
}

#[test]
fn premium_heuristic_ignores_long_names_and_other_tlds() {
    assert!(!is_likely_premium("mystartup.ai"));   // too long
    assert!(!is_likely_premium("go.com"));          // not a flagged TLD
    assert!(!is_likely_premium("go.xyz"));          // not a flagged TLD
    assert!(!is_likely_premium("noseparator"));     // no TLD
}

#[test]
fn premium_names_are_measured_in_bytes() {
    assert!(is_likely_premium("éé.io"));
    assert!(!is_likely_premium("ééa.io"));
    assert!(is_likely_premium(".cv"));
    assert!(!is_likely_premium("a.bcd.ai"));
    assert!(is_likely_premium("a.b.ai"));
}

#[test]
fn all_tlds_in_their_order() {
    assert_eq!(
        ALL_TLDS,
        [
            "com", "net", "org", "io", "dev", "app", "co", "ai", "me", "so", "gg", "cc", "cv",
            "xyz", "live", "computer", "sh", "fm", "fyi", "work",
        ]
    );
}

#[test]
fn ranks() {
    let ranked = [
        "com", "io", "dev", "ai", "app", "co", "net", "org", "me", "so", "gg", "cc", "xyz", "cv",
        "live", "computer", "sh", "fm", "fyi", "work",
    ];
    for (i, tld) in ranked.iter().enumerate() {
        assert_eq!(tld_rank(tld) as usize, i);
        assert_eq!(tld_rank(&format!("some.name.{}", tld)) as usize, i);
    }
    assert_eq!(tld_rank("example.zip"), 99);
    assert_eq!(tld_rank(""), 99);
    assert_eq!(tld_rank("com."), 99);
    assert_eq!(tld_rank("COM"), 99);
}

#[test]
fn no_two_searched_tlds_share_a_rank() {
    for a in ALL_TLDS {
        for b in ALL_TLDS {
            assert_eq!(tld_rank(a) == tld_rank(b), a == b);
        }
    }
}

#[test]
fn prices() {
    let prices = [
        ("com", "$11.08"), ("net", "$12.52"), ("org", "$10.74"), ("io", "$51.80"),
        ("dev", "$12.87"), ("app", "$14.93"), ("co", "$25.03"), ("ai", "$82.70"),
        ("me", "$17.27"), ("so", "€55.22"), ("gg", "$51.80"), ("cc", "$8.55"),
        ("xyz", "$12.98"), ("cv", "$8.03"), ("live", "$26.26"), ("computer", "$31.41"),
        ("sh", "$46.65"), ("fm", "$87.85"), ("fyi", "$5.66"), ("work", "$10.81"),
    ];
    for (tld, price) in prices {
        assert_eq!(tld_price(tld), Some(price));
    }
    assert_eq!(tld_price("zip"), None);
    assert_eq!(tld_price(""), None);
}

#[test]
fn rdap_addresses() {
    let addresses = [
        ("com", "https://rdap.verisign.com/com/v1/domain/a.com"),
        ("net", "https://rdap.verisign.com/net/v1/domain/a.net"),
        ("org", "https://rdap.publicinterestregistry.org/rdap/domain/a.org"),
        ("io", "https://rdap.identitydigital.services/rdap/domain/a.io"),
        ("dev", "https://pubapi.registry.google/rdap/domain/a.dev"),
        ("app", "https://pubapi.registry.google/rdap/domain/a.app"),
        ("co", "https://rdap.org/domain/a.co"),
        ("ai", "https://rdap.identitydigital.services/rdap/domain/a.ai"),
        ("me", "https://rdap.identitydigital.services/rdap/domain/a.me"),
        ("so", "https://rdap.org/domain/a.so"),
        ("cc", "https://tld-rdap.verisign.com/cc/v1/domain/a.cc"),
        ("cv", "https://rdap.nic.cv/domain/a.cv"),
        ("xyz", "https://rdap.centralnic.com/xyz/domain/a.xyz"),
        ("live", "https://rdap.identitydigital.services/rdap/domain/a.live"),
        ("computer", "https://rdap.identitydigital.services/rdap/domain/a.computer"),
        ("fm", "https://rdap.centralnic.com/fm/domain/a.fm"),
        ("fyi", "https://rdap.identitydigital.services/rdap/domain/a.fyi"),
        ("work", "https://rdap.identitydigital.services/rdap/domain/a.work"),
        ("zip", "https://rdap.org/domain/a.zip"),
    ];
    for (tld, address) in addresses {
        assert_eq!(rdap_url("a", tld), Some(address.to_string()));
    }
    assert_eq!(rdap_url("a", "sh"), None);
    assert_eq!(rdap_url("a", "gg"), None);
}

#[test]
fn whois_servers() {
    let servers = [
        ("com", "whois.verisign-grs.com"), ("net", "whois.verisign-grs.com"),
        ("org", "whois.pir.org"), ("io", "whois.nic.io"), ("co", "whois.registry.co"),
        ("ai", "whois.nic.ai"), ("me", "whois.nic.me"), ("so", "whois.nic.so"),
        ("cc", "whois.nic.cc"), ("xyz", "whois.nic.xyz"), ("gg", "whois.gg"),
        ("sh", "whois.nic.sh"), ("fm", "whois.nic.fm"),
    ];
    for (tld, server) in servers {
        assert_eq!(whois_server(tld), Some(server));
    }
    for tld in ["dev", "app", "cv", "live", "computer", "fyi", "work", "zip", ""] {
        assert_eq!(whois_server(tld), None);
    }
}

#[test]
fn every_searched_tld_has_a_source() {
    for tld in ALL_TLDS {
        assert!(rdap_url("a", tld).is_some() || whois_server(tld).is_some());
    }
}

#[test]
fn names_of_domains() {
    assert_eq!(domain_name("go", "ai"), "go.ai");
    assert_eq!(tld_of("go.ai"), "ai");
    assert_eq!(tld_of("a.b.co"), "co");
    assert_eq!(tld_of("plain"), "plain");
    assert_eq!(tld_of("ends."), "");
}

#[test]
fn known_tlds_are_found() {
    for tld in ALL_TLDS {
        assert_eq!(find_tld(tld), Some(tld));
    }
    assert_eq!(find_tld("Work"), None);
    assert_eq!(find_tld("zip"), None);
    assert_eq!(find_tld(""), None);
}
