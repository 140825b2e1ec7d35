//! One status out of what the three sources say of a domain.

use vstd::prelude::*;
use crate::config::{domain_name, domain_of};
use crate::dates::{
    countable, is_iso_date, law_date_found_again, law_iso_date_countable, law_prose_date,
};
use crate::dns::dns_status;
use crate::json::json_in_text;
use crate::model::{Availability, Dates, DomainDates, Status, either, first_known, no_dates};
use crate::rdap::{Event, date_of_action, date_of_expiry, events_in, rdap_status};
use crate::text::{first_of, trimmed, words_of};
use crate::whois::{Line, field_date, line_with, lines_in, whois_status};

verus! {

/// The dates of `a`, and those of `b` where `a` has none.
pub open spec fn merged_dates(a: Dates, b: Dates) -> Dates {
    Dates {
        registered: either(a.registered, b.registered),
        updated: either(a.updated, b.updated),
        expires: either(a.expires, b.expires),
    }
}

/// The dates that RDAP and WHOIS know of a domain.
pub open spec fn known_dates(rdap: Status, whois: Status) -> Dates {
    match (rdap, whois) {
        (Status::Taken(a), Status::Taken(b)) => merged_dates(a, b),
        (Status::Taken(a), _) => a,
        (_, Status::Taken(b)) => b,
        _ => no_dates(),
    }
}

/// What three sources say together. A domain with name servers is taken. Else
/// RDAP is believed before WHOIS, and WHOIS before DNS; where RDAP and WHOIS
/// agree that it is taken, WHOIS fills the gaps in the dates.
pub open spec fn merged_status(rdap: Status, whois: Status, dns: Status) -> Status {
    if dns is Taken {
        Status::Taken(known_dates(rdap, whois))
    } else if rdap is Taken && whois is Taken {
        Status::Taken(known_dates(rdap, whois))
    } else if !(rdap is Unknown) {
        rdap
    } else if !(whois is Unknown) {
        whois
    } else {
        dns
    }
}

/// The dates of `a`, and those of `b` where `a` has none.
pub fn merge_dates(a: DomainDates, b: DomainDates) -> (r: DomainDates)
    ensures
        r@ == merged_dates(a@, b@),
{
    DomainDates {
        registered: first_known(a.registered, b.registered),
        updated: first_known(a.updated, b.updated),
        expires: first_known(a.expires, b.expires),
    }
}

/// What three sources say together.
pub fn merge_results(rdap: Availability, whois: Availability, dns: Availability) -> (r: Availability)
    ensures
        r@ == merged_status(rdap@, whois@, dns@),
{
    if let Availability::Taken(_) = &dns {
        let dates = match (rdap, whois) {
            (Availability::Taken(a), Availability::Taken(b)) => merge_dates(a, b),
            (Availability::Taken(a), _) => a,
            (_, Availability::Taken(b)) => b,
            _ => DomainDates::default(),
        };
        return Availability::Taken(dates);
    }
    let rdap_or_whois = match (rdap, whois) {
        (Availability::Unknown, whois) => whois,
        (Availability::Taken(a), Availability::Taken(b)) => Availability::Taken(merge_dates(a, b)),
        (rdap, _) => rdap,
    };
    match rdap_or_whois {
        Availability::Unknown => dns,
        other => other,
    }
}

/// What the check of a domain comes to: WHOIS is heard only where RDAP knows
/// nothing.
pub open spec fn checked_status(rdap: Status, whois: Status, dns: Status) -> Status {
    if rdap is Unknown {
        merged_status(rdap, whois, dns)
    } else {
        merged_status(rdap, Status::Unknown, dns)
    }
}

/// Whether the WHOIS reply has to be waited for.
pub fn needs_whois(rdap: &Availability) -> (r: bool)
    ensures
        r == (rdap@ is Unknown),
{
    match rdap {
        Availability::Unknown => true,
        _ => false,
    }
}

/// The domain, and what the check of it comes to.
pub fn conclude_check(
    name: &str,
    tld: &str,
    rdap: Availability,
    whois: Availability,
    dns: Availability,
) -> (r: (String, Availability))
    ensures
        r.0@ == domain_of(name@, tld@),
        r.1@ == checked_status(rdap@, whois@, dns@),
{
    let domain = domain_name(name, tld);
    let heard = if needs_whois(&rdap) {
        whois
    } else {
        Availability::Unknown
    };
    (domain, merge_results(rdap, heard, dns))
}

/// Law: name servers settle that a domain is taken, whatever else is said.
pub proof fn law_name_servers_settle(rdap: Status, whois: Status, dns: Status)
    requires
        dns is Taken,
    ensures
        merged_status(rdap, whois, dns) is Taken,
        checked_status(rdap, whois, dns) is Taken,
{
}

/// Law: without name servers, RDAP is believed: the status is of its kind.
pub proof fn law_rdap_is_believed(rdap: Status, whois: Status, dns: Status)
    requires
        !(dns is Taken),
        !(rdap is Unknown),
    ensures
        rdap is Available ==> merged_status(rdap, whois, dns) is Available,
        rdap is Protected ==> merged_status(rdap, whois, dns) is Protected,
        rdap is Taken ==> merged_status(rdap, whois, dns) is Taken,
        checked_status(rdap, whois, dns) == rdap,
{
}

/// Law: where RDAP knows nothing, and there are no name servers, WHOIS decides.
pub proof fn law_whois_decides(whois: Status, dns: Status)
    requires
        !(dns is Taken),
        !(whois is Unknown),
    ensures
        merged_status(Status::Unknown, whois, dns) == whois,
        checked_status(Status::Unknown, whois, dns) == whois,
{
}

/// Law: the status stays unknown exactly where no source knows anything.
pub proof fn law_unknown(rdap: Status, whois: Status, dns: Status)
    ensures
        merged_status(rdap, whois, dns) is Unknown <==> rdap is Unknown && whois is Unknown
            && dns is Unknown,
        checked_status(rdap, whois, dns) is Unknown <==> rdap is Unknown && whois is Unknown
            && dns is Unknown,
{
}

/// Law: no date that RDAP gives for a taken domain is lost or replaced, and one
/// that only WHOIS gives is kept.
pub proof fn law_dates_are_kept(a: Dates, whois: Status, dns: Status)
    ensures
        ({
            let r = merged_status(Status::Taken(a), whois, dns);
            &&& r is Taken
            &&& a.registered is Some ==> r->Taken_0.registered == a.registered
            &&& a.updated is Some ==> r->Taken_0.updated == a.updated
            &&& a.expires is Some ==> r->Taken_0.expires == a.expires
            &&& whois matches Status::Taken(b) ==> {
                &&& a.registered is None ==> r->Taken_0.registered == b.registered
                &&& a.updated is None ==> r->Taken_0.updated == b.updated
                &&& a.expires is None ==> r->Taken_0.expires == b.expires
            }
        }),
{
}

/// Law: merging dates is associative, changes nothing when repeated, and
/// nothing when there is nothing to merge.
pub proof fn law_merged_dates(a: Dates, b: Dates, c: Dates)
    ensures
        merged_dates(merged_dates(a, b), c) == merged_dates(a, merged_dates(b, c)),
        merged_dates(a, a) == a,
        merged_dates(a, no_dates()) == a,
        merged_dates(no_dates(), a) == a,
{
}

/// A date that is missing or written as `YYYY-MM-DD`.
pub open spec fn missing_or_iso(d: Option<Seq<char>>) -> bool {
    d matches Some(t) ==> is_iso_date(t)
}

/// Every date of a status is written as `YYYY-MM-DD`.
pub open spec fn well_dated(s: Status) -> bool {
    s matches Status::Taken(d) ==> missing_or_iso(d.registered) && missing_or_iso(d.updated)
        && missing_or_iso(d.expires)
}

/// The dates of events are written as `YYYY-MM-DD`.
proof fn lemma_event_dates(events: Seq<Event>, action: Seq<char>)
    ensures
        missing_or_iso(date_of_action(events, action)),
        missing_or_iso(date_of_expiry(events)),
    decreases events.len(),
{
    if events.len() > 0 {
        if let Some(t) = events[0].date {
            law_date_found_again(t);
        }
        lemma_event_dates(events.drop_first(), action);
    }
}

/// The dates of fields are written as `YYYY-MM-DD`.
proof fn lemma_field_date(lines: Seq<Line>, keyword: Seq<char>)
    ensures
        missing_or_iso(field_date(lines, keyword)),
{
    if let Some(line) = line_with(lines, keyword) {
        law_date_found_again(
            trimmed(line.text.skip(first_of(line.text, ':') + 1)),
        );
    }
}

/// Law: every date that a source is read to give is written as `YYYY-MM-DD`.
pub proof fn law_sources_well_dated(
    code: u16,
    body: Seq<char>,
    tld: Seq<char>,
    reply: Seq<char>,
    answer: Seq<u8>,
)
    ensures
        well_dated(rdap_status(code, body)),
        well_dated(whois_status(tld, reply)),
        well_dated(dns_status(answer)),
{
    if let Some(tree) = json_in_text(body) {
        if let Some(events) = events_in(tree) {
            lemma_event_dates(events, "registration"@);
            lemma_event_dates(events, "last changed"@);
        }
    }
    let lines = lines_in(reply);
    lemma_field_date(lines, "creat"@);
    lemma_field_date(lines, "registered:"@);
    lemma_field_date(lines, "updat"@);
    lemma_field_date(lines, "last modified"@);
    lemma_field_date(lines, "changed:"@);
    lemma_field_date(lines, "expir"@);
    lemma_field_date(lines, "paid-till"@);
    lemma_field_date(lines, "renewal"@);
    if let Some(line) = line_with(lines, "registered on"@) {
        law_prose_date(words_of(line.lower));
    }
}

/// Law: merging keeps dates as they are written; so the days until an expiry
/// that comes out of a check can always be counted.
pub proof fn law_check_well_dated(rdap: Status, whois: Status, dns: Status)
    requires
        well_dated(rdap),
        well_dated(whois),
        well_dated(dns),
    ensures
        well_dated(merged_status(rdap, whois, dns)),
        well_dated(checked_status(rdap, whois, dns)),
        checked_status(rdap, whois, dns) matches Status::Taken(d) ==> (d.expires matches Some(t)
            ==> countable(t)),
{
    if let Status::Taken(d) = checked_status(rdap, whois, dns) {
        if let Some(t) = d.expires {
            law_iso_date_countable(t);
        }
    }
}

/// Law: name servers settle that a domain is taken, and every date of it that
/// RDAP or WHOIS gives is kept: that of RDAP, and where it gives none that of
/// WHOIS.
pub proof fn law_taken_with_name_servers(rdap: Status, whois: Status, dns: Status)
    requires
        dns is Taken,
    ensures
        merged_status(rdap, whois, dns) is Taken,
        !(rdap is Taken) && whois is Taken ==> merged_status(rdap, whois, dns) == whois,
        rdap is Taken && !(whois is Taken) ==> merged_status(rdap, whois, dns) == rdap,
        rdap is Unknown && whois is Taken ==> checked_status(rdap, whois, dns) == whois,
        rdap is Taken ==> checked_status(rdap, whois, dns) == rdap,
        !(rdap is Taken) && !(whois is Taken) ==> ({
            let d = merged_status(rdap, whois, dns)->Taken_0;
            d.registered is None && d.updated is None && d.expires is None
        }),
        !(rdap is Taken) && !(rdap is Unknown) ==> ({
            let d = checked_status(rdap, whois, dns)->Taken_0;
            d.registered is None && d.updated is None && d.expires is None
        }),
{
}

/// Law: where RDAP and WHOIS both say that a domain is taken, each date is that
/// of RDAP, and where RDAP has none that of WHOIS, whatever DNS says.
pub proof fn law_two_takings(a: Dates, b: Dates, dns: Status)
    ensures
        ({
            let r = merged_status(Status::Taken(a), Status::Taken(b), dns);
            &&& r is Taken
            &&& r->Taken_0.registered == if a.registered is Some {
                a.registered
            } else {
                b.registered
            }
            &&& r->Taken_0.updated == if a.updated is Some {
                a.updated
            } else {
                b.updated
            }
            &&& r->Taken_0.expires == if a.expires is Some {
                a.expires
            } else {
                b.expires
            }
        }),
{
}

/// Law: without name servers the first source that knows anything is believed,
/// in the order RDAP, WHOIS, DNS, and what it says is passed on as it is.
pub proof fn law_without_name_servers(rdap: Status, whois: Status, dns: Status)
    requires
        !(dns is Taken),
    ensures
        !(rdap is Unknown) && !(rdap is Taken && whois is Taken) ==> merged_status(rdap, whois, dns)
            == rdap,
        rdap is Unknown && !(whois is Unknown) ==> merged_status(rdap, whois, dns) == whois,
        rdap is Unknown && whois is Unknown ==> merged_status(rdap, whois, dns) == dns,
        !(rdap is Unknown) ==> checked_status(rdap, whois, dns) == rdap,
        rdap is Unknown ==> checked_status(rdap, whois, dns) == merged_status(rdap, whois, dns),
{
}

/// Law: of two lists of dates, each date is that of the first, and where it has
/// none that of the second.
pub proof fn law_each_date(a: Dates, b: Dates)
    ensures
        a.registered is Some ==> merged_dates(a, b).registered == a.registered,
        a.registered is None ==> merged_dates(a, b).registered == b.registered,
        a.updated is Some ==> merged_dates(a, b).updated == a.updated,
        a.updated is None ==> merged_dates(a, b).updated == b.updated,
        a.expires is Some ==> merged_dates(a, b).expires == a.expires,
        a.expires is None ==> merged_dates(a, b).expires == b.expires,
{
}

} // verus!
