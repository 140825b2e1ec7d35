//! DNS over HTTPS: a domain with name servers is registered.

use vstd::prelude::*;
use crate::config::{domain_name, domain_of};
use crate::json::{
    JsonTree, elements, elements_of, integer_in, integer_value, json_in_bytes, member, member_of,
    parse_bytes,
};
use crate::model::{Availability, DomainDates, Status, no_dates};

verus! {

/// The address that answers which name servers a domain has.
pub open spec fn dns_address(name: Seq<char>, tld: Seq<char>) -> Seq<char> {
    "https://cloudflare-dns.com/dns-query?name="@ + domain_of(name, tld) + "&type=NS"@
}

/// What a response code and a number of answer records say. The code 0 alone
/// does not show that a domain exists: there have to be records, too.
pub open spec fn dns_verdict_of(code: Option<i64>, records: Option<nat>) -> Status {
    if code == Some(0i64) && (records matches Some(n) && n > 0) {
        Status::Taken(no_dates())
    } else {
        Status::Unknown
    }
}

/// The number of elements of a JSON array.
pub open spec fn array_length(tree: JsonTree) -> Option<nat> {
    match elements_of(tree) {
        Some(items) => Some(items.len()),
        None => None,
    }
}

/// What the body of an answer says.
pub open spec fn dns_status(body: Seq<u8>) -> Status {
    match json_in_bytes(body) {
        Some(tree) => dns_verdict_of(
            integer_in(member_of(tree, "Status"@)),
            array_length(member_of(tree, "Answer"@)),
        ),
        None => Status::Unknown,
    }
}

/// The address that answers which name servers a domain has.
pub fn dns_url(name: &str, tld: &str) -> (r: String)
    ensures
        r@ == dns_address(name@, tld@),
{
    let mut out = "https://cloudflare-dns.com/dns-query?name=".to_owned();
    out.append(domain_name(name, tld).as_str());
    out.append("&type=NS");
    out
}

/// What a response code and a number of answer records say of a domain.
pub fn dns_verdict(code: Option<i64>, records: Option<usize>) -> (r: Availability)
    ensures
        r@ == dns_verdict_of(
            code,
            match records {
                Some(n) => Some(n as nat),
                None => None,
            },
        ),
{
    let zero = match code {
        Some(c) => c == 0,
        None => false,
    };
    let some = match records {
        Some(n) => n > 0,
        None => false,
    };
    if zero && some {
        Availability::Taken(DomainDates::default())
    } else {
        Availability::Unknown
    }
}

/// What the body of an answer says of a domain.
pub fn read_dns_reply(body: &[u8]) -> (r: Availability)
    ensures
        r@ == dns_status(body@),
{
    match parse_bytes(body) {
        Some(value) => {
            let records = match elements(member(&value, "Answer")) {
                Some(items) => Some(items.len()),
                None => None,
            };
            dns_verdict(integer_value(member(&value, "Status")), records)
        },
        None => Availability::Unknown,
    }
}

/// Law: DNS never says that a domain is available or protected, and knows no
/// dates.
pub proof fn law_dns_only_confirms(body: Seq<u8>)
    ensures
        dns_status(body) == Status::Unknown || dns_status(body) == Status::Taken(no_dates()),
{
}

/// Law: a reply says that a domain is taken exactly where its status is 0 and
/// its answer is an array with something in it. Whatever other members it has,
/// they say nothing.
pub proof fn law_answer_needed(body: Seq<u8>)
    ensures
        dns_status(body) is Taken <==> exists|tree: JsonTree|
            {
                &&& #[trigger] json_in_bytes(body) == Some(tree)
                &&& integer_in(member_of(tree, "Status"@)) == Some(0i64)
                &&& elements_of(member_of(tree, "Answer"@)) matches Some(items) && items.len() > 0
            },
        !(dns_status(body) is Taken) ==> dns_status(body) is Unknown,
        dns_status(body) matches Status::Taken(dates) ==> dates.registered is None && dates.updated
            is None && dates.expires is None,
{
}

/// Law: two replies with the same status and the same answer say the same.
pub proof fn law_nothing_else_counts(a: Seq<u8>, b: Seq<u8>, x: JsonTree, y: JsonTree)
    requires
        json_in_bytes(a) == Some(x),
        json_in_bytes(b) == Some(y),
        member_of(x, "Status"@) == member_of(y, "Status"@),
        member_of(x, "Answer"@) == member_of(y, "Answer"@),
    ensures
        dns_status(a) == dns_status(b),
{
}

/// Law: a number of records without the code 0 says nothing, nor the code 0
/// without records.
pub proof fn law_verdict(code: Option<i64>, records: Option<nat>)
    ensures
        dns_verdict_of(code, records) is Taken <==> code == Some(0i64) && records is Some
            && records->0 >= 1,
        !(dns_verdict_of(code, records) is Taken) ==> dns_verdict_of(code, records) is Unknown,
        dns_verdict_of(code, records) matches Status::Taken(dates) ==> dates.registered is None
            && dates.updated is None && dates.expires is None,
{
}

/// Law: the address asks for the name servers of the domain.
pub proof fn law_dns_address(name: Seq<char>, tld: Seq<char>)
    ensures
        exists|before: Seq<char>, after: Seq<char>|
            {
                &&& dns_address(name, tld) == #[trigger] (before + (name + seq!['.'] + tld) + after)
                &&& before == "https://cloudflare-dns.com/dns-query?name="@
                &&& after == "&type=NS"@
            },
{
    let before = "https://cloudflare-dns.com/dns-query?name="@;
    let after = "&type=NS"@;
    assert(dns_address(name, tld) == before + (name + seq!['.'] + tld) + after);
}

} // verus!
