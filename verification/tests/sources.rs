use dott::dns::{dns_url, dns_verdict, read_dns_reply};
use dott::model::Availability;
use dott::rdap::{
    continue_rdap, dates_from_events, read_rdap_reply, start_rdap, RdapEvent, RdapStep,
};
use dott::whois::{
    dates_from_lines, read_whois_reply, reply_kind, whois_question, ReplyKind, ReplyLine,
};

type Three = (Option<String>, Option<String>, Option<String>);

fn taken(a: Availability) -> Three {
    match a {
        Availability::Taken(d) => (d.registered, d.updated, d.expires),
        other => panic!("expected taken, not {}", other.as_str()),
    }
}

fn three(a: &str, b: &str, c: &str) -> Three {
    let some = |s: &str| if s.is_empty() { None } else { Some(s.to_string()) };
    (some(a), some(b), some(c))
}

fn asked(step: RdapStep) -> String {
    match step {
        RdapStep::Ask(address) => address,
        RdapStep::Done(a) => panic!("done with {}", a.as_str()),
    }
}

fn settled(step: RdapStep) -> &'static str {
    match step {
        RdapStep::Ask(address) => panic!("asks {}", address),
        RdapStep::Done(a) => a.as_str(),
    }
}

#[test]
fn rdap_reply_with_events() {
    let body = "{\"events\":[
        {\"eventAction\":\"registration\",\"eventDate\":\"1997-09-15T04:00:00Z\"},
        {\"eventAction\":\"registrar expiration\",\"eventDate\":\"2028-09-14T04:00:00Z\"},
        {\"eventAction\":\"expiration\",\"eventDate\":\"2030-01-01T04:00:00Z\"},
        {\"eventAction\":\"last changed\",\"eventDate\":\"2019-09-09T15:39:04Z\"},
        {\"eventAction\":\"registration\",\"eventDate\":\"2001-01-01\"}]}";
    assert_eq!(taken(read_rdap_reply(200, body)), three("1997-09-15", "2019-09-09", "2028-09-14"));
}

#[test]
fn rdap_reply_with_odd_events() {
    let body = "{\"events\":[7, null,
        {\"eventAction\":\"registration\",\"eventDate\":\"no date\"},
        {\"eventAction\":\"registration\",\"eventDate\":\"2001-01-01\"},
        {\"eventAction\":\"Expiration\",\"eventDate\":\"2030-01-01\"},
        {\"eventAction\":\"to expire\",\"eventDate\":\"on 2031-01-01\"}]}";
    assert_eq!(taken(read_rdap_reply(200, body)), three("", "", "2031-01-01"));
    let body = "{\"events\":[{\"eventAction\":\"expired\"},
        {\"eventAction\":\"expiration\",\"eventDate\":\"2030-01-01\"}]}";
    assert_eq!(taken(read_rdap_reply(200, body)), three("", "", ""));
}

#[test]
fn rdap_reply_without_events() {
    for body in ["", "<html>", "{}", "[]", "{\"events\":{}}", "{\"events\":[]}", "{\"events\":[]} x"] {
        assert_eq!(taken(read_rdap_reply(200, body)), three("", "", ""));
    }
}

#[test]
fn rdap_reply_for_free_and_blocked_names() {
    assert_eq!(read_rdap_reply(404, "{}").as_str(), "available");
    assert_eq!(read_rdap_reply(404, "").as_str(), "available");
    assert_eq!(read_rdap_reply(404, "name is Blocked").as_str(), "protected");
    assert_eq!(read_rdap_reply(404, "unblocked").as_str(), "protected");
    assert_eq!(read_rdap_reply(404, "BLOCKED").as_str(), "available");
    assert_eq!(read_rdap_reply(429, "").as_str(), "unknown");
    assert_eq!(read_rdap_reply(500, "Blocked").as_str(), "unknown");
    assert_eq!(read_rdap_reply(0, "").as_str(), "unknown");
}

#[test]
fn dates_of_events_in_order() {
    let event = |action: &str, date: &str| RdapEvent {
        action: Some(action.to_string()),
        date: Some(date.to_string()),
    };
    let list = vec![
        RdapEvent { action: None, date: Some("1990-01-01".to_string()) },
        event("last changed", "at 2020-02-02"),
        event("soon expiring", "2021-03-03"),
        RdapEvent { action: Some("registration".to_string()), date: None },
        event("registration", "1999-01-01"),
    ];
    let d = dates_from_events(&list);
    assert_eq!((d.registered, d.updated, d.expires), three("", "2020-02-02", "2021-03-03"));
}

#[test]
fn rdap_asks_twice_at_most() {
    let first = asked(start_rdap("go", "com"));
    assert_eq!(first, "https://rdap.verisign.com/com/v1/domain/go.com");
    let second = asked(continue_rdap("go", "com", &first, Availability::Unknown));
    assert_eq!(second, "https://rdap.org/domain/go.com");
    let last = continue_rdap("go", "com", &second, Availability::Unknown);
    assert_eq!(settled(last), "unknown");
}

#[test]
fn rdap_asks_once_where_that_is_the_fallback() {
    let first = asked(start_rdap("go", "co"));
    assert_eq!(first, "https://rdap.org/domain/go.co");
    assert_eq!(settled(continue_rdap("go", "co", &first, Availability::Unknown)), "unknown");
}

#[test]
fn rdap_answers_are_final() {
    assert_eq!(settled(continue_rdap("go", "com", "x", Availability::Available)), "available");
    assert_eq!(settled(continue_rdap("go", "com", "x", Availability::Protected)), "protected");
    assert_eq!(settled(start_rdap("go", "gg")), "unknown");
    assert_eq!(settled(start_rdap("go", "sh")), "unknown");
}

#[test]
fn dns_needs_code_and_records() {
    let reply = |s: &str| read_dns_reply(s.as_bytes());
    assert_eq!(taken(reply("{\"Status\":0,\"Answer\":[{\"type\":2}]}")), three("", "", ""));
    assert_eq!(reply("{\"Status\":0,\"Answer\":[]}").as_str(), "unknown");
    assert_eq!(reply("{\"Status\":0}").as_str(), "unknown");
    assert_eq!(reply("{\"Status\":3,\"Answer\":[1]}").as_str(), "unknown");
    assert_eq!(reply("{\"Status\":0.0,\"Answer\":[1]}").as_str(), "unknown");
    assert_eq!(reply("{\"Status\":\"0\",\"Answer\":[1]}").as_str(), "unknown");
    assert_eq!(reply("{\"Status\":0,\"Answer\":{\"a\":1}}").as_str(), "unknown");
    assert_eq!(reply("{\"Answer\":[1]}").as_str(), "unknown");
    assert_eq!(reply("").as_str(), "unknown");
    assert_eq!(read_dns_reply(&[0xff, 0xfe]).as_str(), "unknown");
}

#[test]
fn dns_verdicts() {
    assert_eq!(dns_verdict(Some(0), Some(2)).as_str(), "taken");
    assert_eq!(dns_verdict(Some(0), Some(0)).as_str(), "unknown");
    assert_eq!(dns_verdict(Some(2), Some(2)).as_str(), "unknown");
    assert_eq!(dns_verdict(None, Some(2)).as_str(), "unknown");
    assert_eq!(dns_verdict(Some(0), None).as_str(), "unknown");
}

#[test]
fn dns_address() {
    assert_eq!(
        dns_url("go", "fm"),
        "https://cloudflare-dns.com/dns-query?name=go.fm&type=NS"
    );
}

#[test]
fn whois_questions() {
    let q = whois_question("go", "com").unwrap();
    assert_eq!(q.address, "whois.verisign-grs.com:43");
    assert_eq!(q.query, "go.com\r\n");
    assert_eq!(q.connect_seconds, 4);
    assert!(!q.skip_banner);
    let q = whois_question("go", "co").unwrap();
    assert_eq!(q.address, "whois.registry.co:43");
    assert_eq!(q.query, "go.co\r\n");
    assert_eq!(q.connect_seconds, 8);
    assert!(q.skip_banner);
    assert!(whois_question("go", "dev").is_none());
}

#[test]
fn whois_reply_with_dates() {
    let reply = "Domain Name: GO.COM\r\n  Updated Date: 2024-01-02T03:04:05Z\r\n  Creation Date: 1998-07-01\r\n  Registry Expiry Date: 2027-06-30\r\n";
    assert_eq!(taken(read_whois_reply("com", reply)), three("1998-07-01", "2024-01-02", "2027-06-30"));
}

#[test]
fn whois_reply_with_other_words() {
    let reply = "domain: x\nregistered: 2001-02-03\nlast modified: 2002-03-04\npaid-till: 2030-05-06";
    assert_eq!(taken(read_whois_reply("io", reply)), three("2001-02-03", "2002-03-04", "2030-05-06"));
    let reply = "domain: x\nchanged: on 2002-03-04\nRenewal date: 2031-05-06\n";
    assert_eq!(taken(read_whois_reply("io", reply)), three("", "2002-03-04", "2031-05-06"));
}

#[test]
fn whois_reply_takes_the_first_line_of_a_word() {
    let reply = "Domain: x\nCreated\nCreated: 2001-02-03\nregistered: 2002-02-02\nExpires: never: 2030-01-01\n";
    assert_eq!(taken(read_whois_reply("io", reply)), three("2002-02-02", "", "2030-01-01"));
    let reply = "Domain: x\nCreated: soon\nCreated: 2001-02-03\n2030-01-01 expires: later";
    assert_eq!(taken(read_whois_reply("io", reply)), three("", "", ""));
}

#[test]
fn whois_reply_in_prose() {
    let reply = "Domain:\n     go.gg\n\nRelevant dates:\n     Registered on 26th February 2015 at 10:00\n     Expires: 2027-01-01\n";
    assert_eq!(taken(read_whois_reply("gg", reply)), three("2015-02-26", "", ""));
    assert_eq!(taken(read_whois_reply("gg", "domain: x")), three("", "", ""));
}

#[test]
fn a_reply_that_names_a_domain_is_taken() {
    let reply = "DOMAIN NAME: go.co\nThis service is available to everyone. No match, not found.";
    assert_eq!(read_whois_reply("co", reply).as_str(), "taken");
}

#[test]
fn whois_reply_for_free_names() {
    for reply in [
        "No match for x",
        "NOT FOUND",
        "No entries found.",
        "The object does not exist",
        "Domain not found.",
        "x is available",
    ] {
        assert_eq!(read_whois_reply("io", reply).as_str(), "available");
    }
    assert_eq!(read_whois_reply("io", "").as_str(), "unknown");
    assert_eq!(read_whois_reply("io", "limit exceeded").as_str(), "unknown");
}

#[test]
fn whois_reply_in_capitals_of_any_script() {
    // the Kelvin sign lowers to k, which no keyword has; the rest is plain
    assert_eq!(read_whois_reply("io", "\u{212a} NOT FOUND").as_str(), "available");
    assert_eq!(read_whois_reply("io", "ÉTÉ DOMAIN: X").as_str(), "taken");
}

#[test]
fn kinds_of_replies() {
    assert_eq!(reply_kind("domain: x"), ReplyKind::Taken);
    assert_eq!(reply_kind("domain name: x, available"), ReplyKind::Taken);
    assert_eq!(reply_kind("available"), ReplyKind::Available);
    assert_eq!(reply_kind("Domain: x"), ReplyKind::Unknown);
}

#[test]
fn dates_of_lines() {
    let line = |text: &str, lower: &str| ReplyLine {
        text: text.to_string(),
        lower: lower.to_string(),
    };
    let list = vec![
        line("A: 2001-01-01", "created"),
        line("B: 2002-01-01", "updated"),
        line("C: \t2003-01-01 ", "expires"),
    ];
    let d = dates_from_lines("com", &list);
    assert_eq!((d.registered, d.updated, d.expires), three("2001-01-01", "2002-01-01", "2003-01-01"));
    let d = dates_from_lines("gg", &list);
    assert_eq!((d.registered, d.updated, d.expires), three("", "", ""));
}
