//! The top-level domains that are searched, and what is known of each: its
//! place in a listing, its price, and the servers to ask.

use vstd::prelude::*;
use vstd::utf8::encode_utf8;
use crate::model::text_if_any;
use crate::text::{chars_of, last_of, lemma_last_of, rfind_char, same_text, text_of};

verus! {

/// The top-level domains that are searched.
pub const ALL_TLDS: [&'static str; 20] = [
    "com",
    "net",
    "org",
    "io",
    "dev",
    "app",
    "co",
    "ai",
    "me",
    "so",
    "gg",
    "cc",
    "cv",
    "xyz",
    "live",
    "computer",
    "sh",
    "fm",
    "fyi",
    "work",
];

/// `tld` is one of those that are searched.
pub open spec fn is_known_tld(tld: Seq<char>) -> bool {
    exists|i: int| 0 <= i < 20 && #[trigger] ALL_TLDS@[i]@ == tld
}

/// The text of a name that may be missing.
pub open spec fn name_if_any(t: Option<&'static str>) -> Option<Seq<char>> {
    match t {
        Some(s) => Some(s@),
        None => None,
    }
}

/// What comes after the last dot; all of it if there is none.
pub open spec fn after_last_dot(domain: Seq<char>) -> Seq<char> {
    domain.skip(last_of(domain, '.') + 1)
}

/// The place of a top-level domain in a listing; 99 for those not searched.
pub open spec fn rank_of(tld: Seq<char>) -> int {
    if tld == "com"@ {
        0
    } else if tld == "io"@ {
        1
    } else if tld == "dev"@ {
        2
    } else if tld == "ai"@ {
        3
    } else if tld == "app"@ {
        4
    } else if tld == "co"@ {
        5
    } else if tld == "net"@ {
        6
    } else if tld == "org"@ {
        7
    } else if tld == "me"@ {
        8
    } else if tld == "so"@ {
        9
    } else if tld == "gg"@ {
        10
    } else if tld == "cc"@ {
        11
    } else if tld == "xyz"@ {
        12
    } else if tld == "cv"@ {
        13
    } else if tld == "live"@ {
        14
    } else if tld == "computer"@ {
        15
    } else if tld == "sh"@ {
        16
    } else if tld == "fm"@ {
        17
    } else if tld == "fyi"@ {
        18
    } else if tld == "work"@ {
        19
    } else {
        99
    }
}

/// What a year of registration costs.
pub open spec fn price_of(tld: Seq<char>) -> Option<Seq<char>> {
    if tld == "com"@ {
        Some("$11.08"@)
    } else if tld == "net"@ {
        Some("$12.52"@)
    } else if tld == "org"@ {
        Some("$10.74"@)
    } else if tld == "io"@ {
        Some("$51.80"@)
    } else if tld == "dev"@ {
        Some("$12.87"@)
    } else if tld == "app"@ {
        Some("$14.93"@)
    } else if tld == "co"@ {
        Some("$25.03"@)
    } else if tld == "ai"@ {
        Some("$82.70"@)
    } else if tld == "me"@ {
        Some("$17.27"@)
    } else if tld == "so"@ {
        Some("€55.22"@)
    } else if tld == "gg"@ {
        Some("$51.80"@)
    } else if tld == "cc"@ {
        Some("$8.55"@)
    } else if tld == "cv"@ {
        Some("$8.03"@)
    } else if tld == "xyz"@ {
        Some("$12.98"@)
    } else if tld == "live"@ {
        Some("$26.26"@)
    } else if tld == "computer"@ {
        Some("$31.41"@)
    } else if tld == "sh"@ {
        Some("$46.65"@)
    } else if tld == "fm"@ {
        Some("$87.85"@)
    } else if tld == "fyi"@ {
        Some("$5.66"@)
    } else if tld == "work"@ {
        Some("$10.81"@)
    } else {
        None
    }
}

/// Where a registry answers RDAP queries; `rdap.org` for those that are not
/// known by name. None for `.sh` and `.gg`, which do not answer them.
pub open spec fn rdap_base(tld: Seq<char>) -> Option<Seq<char>> {
    if tld == "sh"@ || tld == "gg"@ {
        None
    } else if tld == "com"@ {
        Some("https://rdap.verisign.com/com/v1/domain/"@)
    } else if tld == "net"@ {
        Some("https://rdap.verisign.com/net/v1/domain/"@)
    } else if tld == "org"@ {
        Some("https://rdap.publicinterestregistry.org/rdap/domain/"@)
    } else if tld == "io"@ || tld == "ai"@ || tld == "me"@ || tld == "live"@
        || tld == "computer"@ || tld == "fyi"@ || tld == "work"@ {
        Some("https://rdap.identitydigital.services/rdap/domain/"@)
    } else if tld == "dev"@ || tld == "app"@ {
        Some("https://pubapi.registry.google/rdap/domain/"@)
    } else if tld == "cc"@ {
        Some("https://tld-rdap.verisign.com/cc/v1/domain/"@)
    } else if tld == "cv"@ {
        Some("https://rdap.nic.cv/domain/"@)
    } else if tld == "xyz"@ {
        Some("https://rdap.centralnic.com/xyz/domain/"@)
    } else if tld == "fm"@ {
        Some("https://rdap.centralnic.com/fm/domain/"@)
    } else {
        Some("https://rdap.org/domain/"@)
    }
}

/// A domain: a name, a dot and a top-level domain.
pub open spec fn domain_of(name: Seq<char>, tld: Seq<char>) -> Seq<char> {
    name + seq!['.'] + tld
}

/// The address that answers an RDAP query for a domain.
pub open spec fn rdap_address(name: Seq<char>, tld: Seq<char>) -> Option<Seq<char>> {
    match rdap_base(tld) {
        Some(base) => Some(base + domain_of(name, tld)),
        None => None,
    }
}

/// The WHOIS server of a registry, where one is known to work.
pub open spec fn whois_host(tld: Seq<char>) -> Option<Seq<char>> {
    if tld == "com"@ || tld == "net"@ {
        Some("whois.verisign-grs.com"@)
    } else if tld == "org"@ {
        Some("whois.pir.org"@)
    } else if tld == "io"@ {
        Some("whois.nic.io"@)
    } else if tld == "co"@ {
        Some("whois.registry.co"@)
    } else if tld == "ai"@ {
        Some("whois.nic.ai"@)
    } else if tld == "me"@ {
        Some("whois.nic.me"@)
    } else if tld == "so"@ {
        Some("whois.nic.so"@)
    } else if tld == "gg"@ {
        Some("whois.gg"@)
    } else if tld == "cc"@ {
        Some("whois.nic.cc"@)
    } else if tld == "xyz"@ {
        Some("whois.nic.xyz"@)
    } else if tld == "sh"@ {
        Some("whois.nic.sh"@)
    } else if tld == "fm"@ {
        Some("whois.nic.fm"@)
    } else {
        None
    }
}

/// A top-level domain in which short names are sold as premium.
pub open spec fn is_premium_tld(tld: Seq<char>) -> bool {
    tld == "ai"@ || tld == "io"@ || tld == "app"@ || tld == "dev"@ || tld == "co"@ || tld == "cv"@
}

/// A domain whose name takes at most four bytes in UTF-8, in a top-level domain
/// that sells such names as premium.
pub open spec fn likely_premium(domain: Seq<char>) -> bool {
    let i = last_of(domain, '.');
    i >= 0 && encode_utf8(domain.take(i)).len() <= 4 && is_premium_tld(domain.skip(i + 1))
}

/// The top-level domain of that name, if it is one that is searched.
pub fn find_tld(tld: &str) -> (r: Option<&'static str>)
    ensures
        r is Some <==> is_known_tld(tld@),
        r matches Some(t) ==> t@ == tld@,
{
    let mut i: usize = 0;
    while i < 20
        invariant
            i <= 20,
            forall|j: int| 0 <= j < i ==> #[trigger] ALL_TLDS@[j]@ != tld@,
        decreases 20 - i,
    {
        if same_text(ALL_TLDS[i], tld) {
            assert(ALL_TLDS@[i as int]@ == tld@);
            return Some(ALL_TLDS[i]);
        }
        i += 1;
    }
    None
}

/// What comes after the last dot of a domain; all of it if there is none.
pub fn tld_of(domain: &str) -> (r: String)
    ensures
        r@ == after_last_dot(domain@),
{
    let chars = chars_of(domain);
    let length = chars.len();
    let from: usize = match rfind_char(chars.as_slice(), '.') {
        Some(i) => i + 1,
        None => 0,
    };
    proof {
        lemma_last_of(domain@, '.');
        assert(domain@.skip(from as int) =~= domain@.subrange(from as int, domain@.len() as int));
    }
    text_of(chars.as_slice(), from, length)
}

/// The place of a domain in a listing, by its top-level domain.
pub fn tld_rank(domain: &str) -> (r: u8)
    ensures
        r == rank_of(after_last_dot(domain@)),
{
    let last = tld_of(domain);
    let tld = last.as_str();
    if same_text(tld, "com") {
        0
    } else if same_text(tld, "io") {
        1
    } else if same_text(tld, "dev") {
        2
    } else if same_text(tld, "ai") {
        3
    } else if same_text(tld, "app") {
        4
    } else if same_text(tld, "co") {
        5
    } else if same_text(tld, "net") {
        6
    } else if same_text(tld, "org") {
        7
    } else if same_text(tld, "me") {
        8
    } else if same_text(tld, "so") {
        9
    } else if same_text(tld, "gg") {
        10
    } else if same_text(tld, "cc") {
        11
    } else if same_text(tld, "xyz") {
        12
    } else if same_text(tld, "cv") {
        13
    } else if same_text(tld, "live") {
        14
    } else if same_text(tld, "computer") {
        15
    } else if same_text(tld, "sh") {
        16
    } else if same_text(tld, "fm") {
        17
    } else if same_text(tld, "fyi") {
        18
    } else if same_text(tld, "work") {
        19
    } else {
        99
    }
}

/// Whether a domain is likely to be sold as premium.
pub fn is_likely_premium(domain: &str) -> (r: bool)
    ensures
        r == likely_premium(domain@),
{
    let chars = chars_of(domain);
    let length = chars.len();
    match rfind_char(chars.as_slice(), '.') {
        None => false,
        Some(i) => {
            let name = text_of(chars.as_slice(), 0, i);
            let last = text_of(chars.as_slice(), i + 1, length);
            let tld = last.as_str();
            proof {
                assert(name@ =~= domain@.take(i as int));
                assert(last@ =~= domain@.skip(i + 1));
            }
            name.as_str().as_bytes().len() <= 4 && (same_text(tld, "ai") || same_text(tld, "io")
                || same_text(tld, "app") || same_text(tld, "dev") || same_text(tld, "co")
                || same_text(tld, "cv"))
        },
    }
}

/// What a year of registration costs.
pub fn tld_price(tld: &str) -> (r: Option<&'static str>)
    ensures
        name_if_any(r) == price_of(tld@),
{
    if same_text(tld, "com") {
        Some("$11.08")
    } else if same_text(tld, "net") {
        Some("$12.52")
    } else if same_text(tld, "org") {
        Some("$10.74")
    } else if same_text(tld, "io") {
        Some("$51.80")
    } else if same_text(tld, "dev") {
        Some("$12.87")
    } else if same_text(tld, "app") {
        Some("$14.93")
    } else if same_text(tld, "co") {
        Some("$25.03")
    } else if same_text(tld, "ai") {
        Some("$82.70")
    } else if same_text(tld, "me") {
        Some("$17.27")
    } else if same_text(tld, "so") {
        Some("€55.22")
    } else if same_text(tld, "gg") {
        Some("$51.80")
    } else if same_text(tld, "cc") {
        Some("$8.55")
    } else if same_text(tld, "cv") {
        Some("$8.03")
    } else if same_text(tld, "xyz") {
        Some("$12.98")
    } else if same_text(tld, "live") {
        Some("$26.26")
    } else if same_text(tld, "computer") {
        Some("$31.41")
    } else if same_text(tld, "sh") {
        Some("$46.65")
    } else if same_text(tld, "fm") {
        Some("$87.85")
    } else if same_text(tld, "fyi") {
        Some("$5.66")
    } else if same_text(tld, "work") {
        Some("$10.81")
    } else {
        None
    }
}

/// A name, a dot and a top-level domain.
pub fn domain_name(name: &str, tld: &str) -> (r: String)
    ensures
        r@ == domain_of(name@, tld@),
{
    let mut out = name.to_owned();
    out.push('.');
    out.append(tld);
    assert(out@ =~= domain_of(name@, tld@));
    out
}

/// Where a registry answers RDAP queries.
fn rdap_server(tld: &str) -> (r: Option<&'static str>)
    ensures
        name_if_any(r) == rdap_base(tld@),
{
    if same_text(tld, "sh") || same_text(tld, "gg") {
        None
    } else if same_text(tld, "com") {
        Some("https://rdap.verisign.com/com/v1/domain/")
    } else if same_text(tld, "net") {
        Some("https://rdap.verisign.com/net/v1/domain/")
    } else if same_text(tld, "org") {
        Some("https://rdap.publicinterestregistry.org/rdap/domain/")
    } else if same_text(tld, "io") || same_text(tld, "ai") || same_text(tld, "me")
        || same_text(tld, "live") || same_text(tld, "computer") || same_text(tld, "fyi")
        || same_text(tld, "work") {
        Some("https://rdap.identitydigital.services/rdap/domain/")
    } else if same_text(tld, "dev") || same_text(tld, "app") {
        Some("https://pubapi.registry.google/rdap/domain/")
    } else if same_text(tld, "cc") {
        Some("https://tld-rdap.verisign.com/cc/v1/domain/")
    } else if same_text(tld, "cv") {
        Some("https://rdap.nic.cv/domain/")
    } else if same_text(tld, "xyz") {
        Some("https://rdap.centralnic.com/xyz/domain/")
    } else if same_text(tld, "fm") {
        Some("https://rdap.centralnic.com/fm/domain/")
    } else {
        Some("https://rdap.org/domain/")
    }
}

/// The address that answers an RDAP query for a domain.
pub fn rdap_url(name: &str, tld: &str) -> (r: Option<String>)
    ensures
        text_if_any(r) == rdap_address(name@, tld@),
{
    match rdap_server(tld) {
        Some(base) => {
            let mut out = base.to_owned();
            out.append(domain_name(name, tld).as_str());
            Some(out)
        },
        None => None,
    }
}

/// The WHOIS server of a registry.
pub fn whois_server(tld: &str) -> (r: Option<&'static str>)
    ensures
        name_if_any(r) == whois_host(tld@),
{
    if same_text(tld, "com") || same_text(tld, "net") {
        Some("whois.verisign-grs.com")
    } else if same_text(tld, "org") {
        Some("whois.pir.org")
    } else if same_text(tld, "io") {
        Some("whois.nic.io")
    } else if same_text(tld, "co") {
        Some("whois.registry.co")
    } else if same_text(tld, "ai") {
        Some("whois.nic.ai")
    } else if same_text(tld, "me") {
        Some("whois.nic.me")
    } else if same_text(tld, "so") {
        Some("whois.nic.so")
    } else if same_text(tld, "gg") {
        Some("whois.gg")
    } else if same_text(tld, "cc") {
        Some("whois.nic.cc")
    } else if same_text(tld, "xyz") {
        Some("whois.nic.xyz")
    } else if same_text(tld, "sh") {
        Some("whois.nic.sh")
    } else if same_text(tld, "fm") {
        Some("whois.nic.fm")
    } else {
        None
    }
}

/// The known top-level domains, one by one.
proof fn lemma_known_tlds(tld: Seq<char>)
    ensures
        is_known_tld(tld) <==> {
            ||| tld == "com"@
            ||| tld == "net"@
            ||| tld == "org"@
            ||| tld == "io"@
            ||| tld == "dev"@
            ||| tld == "app"@
            ||| tld == "co"@
            ||| tld == "ai"@
            ||| tld == "me"@
            ||| tld == "so"@
            ||| tld == "gg"@
            ||| tld == "cc"@
            ||| tld == "cv"@
            ||| tld == "xyz"@
            ||| tld == "live"@
            ||| tld == "computer"@
            ||| tld == "sh"@
            ||| tld == "fm"@
            ||| tld == "fyi"@
            ||| tld == "work"@
        },
{
    let all = ALL_TLDS@;
    assert(all[0]@ == "com"@);
    assert(all[1]@ == "net"@);
    assert(all[2]@ == "org"@);
    assert(all[3]@ == "io"@);
    assert(all[4]@ == "dev"@);
    assert(all[5]@ == "app"@);
    assert(all[6]@ == "co"@);
    assert(all[7]@ == "ai"@);
    assert(all[8]@ == "me"@);
    assert(all[9]@ == "so"@);
    assert(all[10]@ == "gg"@);
    assert(all[11]@ == "cc"@);
    assert(all[12]@ == "cv"@);
    assert(all[13]@ == "xyz"@);
    assert(all[14]@ == "live"@);
    assert(all[15]@ == "computer"@);
    assert(all[16]@ == "sh"@);
    assert(all[17]@ == "fm"@);
    assert(all[18]@ == "fyi"@);
    assert(all[19]@ == "work"@);
    if is_known_tld(tld) {
        let i = choose|i: int| 0 <= i < 20 && #[trigger] ALL_TLDS@[i]@ == tld;
        assert(i == 0 || i == 1 || i == 2 || i == 3 || i == 4 || i == 5 || i == 6 || i == 7
            || i == 8 || i == 9 || i == 10 || i == 11 || i == 12 || i == 13 || i == 14
            || i == 15 || i == 16 || i == 17 || i == 18 || i == 19);
    }
}

/// The known top-level domains are twenty different texts.
proof fn lemma_tlds_differ()
    ensures
        rank_of("com"@) == 0,
        rank_of("io"@) == 1,
        rank_of("dev"@) == 2,
        rank_of("ai"@) == 3,
        rank_of("app"@) == 4,
        rank_of("co"@) == 5,
        rank_of("net"@) == 6,
        rank_of("org"@) == 7,
        rank_of("me"@) == 8,
        rank_of("so"@) == 9,
        rank_of("gg"@) == 10,
        rank_of("cc"@) == 11,
        rank_of("xyz"@) == 12,
        rank_of("cv"@) == 13,
        rank_of("live"@) == 14,
        rank_of("computer"@) == 15,
        rank_of("sh"@) == 16,
        rank_of("fm"@) == 17,
        rank_of("fyi"@) == 18,
        rank_of("work"@) == 19,
{
    reveal_strlit("com");
    assert("com"@.len() == 3 && "com"@[0] == 'c' && "com"@[1] == 'o');
    reveal_strlit("net");
    assert("net"@.len() == 3 && "net"@[0] == 'n' && "net"@[1] == 'e');
    reveal_strlit("org");
    assert("org"@.len() == 3 && "org"@[0] == 'o' && "org"@[1] == 'r');
    reveal_strlit("io");
    assert("io"@.len() == 2 && "io"@[0] == 'i' && "io"@[1] == 'o');
    reveal_strlit("dev");
    assert("dev"@.len() == 3 && "dev"@[0] == 'd' && "dev"@[1] == 'e');
    reveal_strlit("app");
    assert("app"@.len() == 3 && "app"@[0] == 'a' && "app"@[1] == 'p');
    reveal_strlit("co");
    assert("co"@.len() == 2 && "co"@[0] == 'c' && "co"@[1] == 'o');
    reveal_strlit("ai");
    assert("ai"@.len() == 2 && "ai"@[0] == 'a' && "ai"@[1] == 'i');
    reveal_strlit("me");
    assert("me"@.len() == 2 && "me"@[0] == 'm' && "me"@[1] == 'e');
    reveal_strlit("so");
    assert("so"@.len() == 2 && "so"@[0] == 's' && "so"@[1] == 'o');
    reveal_strlit("gg");
    assert("gg"@.len() == 2 && "gg"@[0] == 'g' && "gg"@[1] == 'g');
    reveal_strlit("cc");
    assert("cc"@.len() == 2 && "cc"@[0] == 'c' && "cc"@[1] == 'c');
    reveal_strlit("cv");
    assert("cv"@.len() == 2 && "cv"@[0] == 'c' && "cv"@[1] == 'v');
    reveal_strlit("xyz");
    assert("xyz"@.len() == 3 && "xyz"@[0] == 'x' && "xyz"@[1] == 'y');
    reveal_strlit("live");
    assert("live"@.len() == 4 && "live"@[0] == 'l' && "live"@[1] == 'i');
    reveal_strlit("computer");
    assert("computer"@.len() == 8 && "computer"@[0] == 'c' && "computer"@[1] == 'o');
    reveal_strlit("sh");
    assert("sh"@.len() == 2 && "sh"@[0] == 's' && "sh"@[1] == 'h');
    reveal_strlit("fm");
    assert("fm"@.len() == 2 && "fm"@[0] == 'f' && "fm"@[1] == 'm');
    reveal_strlit("fyi");
    assert("fyi"@.len() == 3 && "fyi"@[0] == 'f' && "fyi"@[1] == 'y');
    reveal_strlit("work");
    assert("work"@.len() == 4 && "work"@[0] == 'w' && "work"@[1] == 'o');
}

/// Law: the searched top-level domains take the places 0 to 19 of a listing,
/// each its own, and all others come after them.
pub proof fn law_ranks(a: Seq<char>, b: Seq<char>)
    ensures
        is_known_tld(a) <==> 0 <= rank_of(a) < 20,
        !is_known_tld(a) <==> rank_of(a) == 99,
        is_known_tld(a) && rank_of(a) == rank_of(b) ==> a == b,
{
    lemma_known_tlds(a);
    lemma_tlds_differ();
}

/// Law: the searched top-level domains are those with a price.
pub proof fn law_prices(tld: Seq<char>)
    ensures
        price_of(tld) is Some <==> is_known_tld(tld),
{
    lemma_known_tlds(tld);
}

/// Law: for every top-level domain there is a source to ask.
pub proof fn law_some_source(tld: Seq<char>)
    ensures
        rdap_base(tld) is Some || whois_host(tld) is Some,
{
}

/// Law: the address for a domain ends in the domain.
pub proof fn law_rdap_address(name: Seq<char>, tld: Seq<char>)
    ensures
        rdap_address(name, tld) matches Some(a) ==> domain_of(name, tld).is_suffix_of(a),
{
    if let Some(a) = rdap_address(name, tld) {
        let d = domain_of(name, tld);
        assert(d =~= a.subrange(a.len() - d.len(), a.len() as int));
    }
}

/// Law: what comes after the last dot of a domain is its top-level domain,
/// where that has no dot in it.
pub proof fn law_domain_tld(name: Seq<char>, tld: Seq<char>)
    requires
        !tld.contains('.'),
    ensures
        after_last_dot(domain_of(name, tld)) == tld,
        last_of(domain_of(name, tld), '.') == name.len(),
{
    let d = domain_of(name, tld);
    lemma_last_of(d, '.');
    assert(d[name.len() as int] == '.');
    assert forall|j: int| name.len() < j < d.len() implies d[j] != '.' by {
        assert(d[j] == tld[j - name.len() - 1]);
    }
    assert(d.skip(name.len() as int + 1) =~= tld);
}

/// Law: nothing is known of a top-level domain that is not searched: it comes
/// last, has no price and no server of its own, is not sold as premium, and the
/// address for any registry answers for it.
pub proof fn law_unknown_tld(name: Seq<char>, tld: Seq<char>)
    requires
        !is_known_tld(tld),
    ensures
        rank_of(tld) == 99,
        price_of(tld) is None,
        whois_host(tld) is None,
        !is_premium_tld(tld),
        rdap_address(name, tld) == Some("https://rdap.org/domain/"@ + (name + seq!['.'] + tld)),
{
    lemma_known_tlds(tld);
}

/// Law: a domain is likely premium exactly where it is a name of at most four
/// bytes in a top-level domain that sells such names.
pub proof fn law_premium(name: Seq<char>, tld: Seq<char>)
    requires
        !tld.contains('.'),
    ensures
        likely_premium(name + seq!['.'] + tld) <==> encode_utf8(name).len() <= 4 && (tld == "ai"@
            || tld == "io"@ || tld == "app"@ || tld == "dev"@ || tld == "co"@ || tld == "cv"@),
{
    law_domain_tld(name, tld);
    let d = domain_of(name, tld);
    assert(d.take(name.len() as int) =~= name);
    assert(d.skip(name.len() as int + 1) =~= tld);
}

/// Law: without a dot there is no domain, and nothing is premium; and what comes
/// after the last dot is then all.
pub proof fn law_no_dot(text: Seq<char>)
    requires
        !text.contains('.'),
    ensures
        !likely_premium(text),
        after_last_dot(text) == text,
{
    lemma_last_of(text, '.');
    let i = last_of(text, '.');
    if i >= 0 {
        assert(text.contains(text[i]));
    }
    assert(text.skip(0) =~= text);
}

/// Law: the same registry answers for every name: two addresses differ in the
/// name alone.
pub proof fn law_one_registry(a: Seq<char>, b: Seq<char>, tld: Seq<char>)
    ensures
        rdap_address(a, tld) is Some <==> rdap_address(b, tld) is Some,
        rdap_address(a, tld) is Some ==> exists|base: Seq<char>|
            {
                &&& rdap_address(a, tld) == Some(#[trigger] (base + (a + seq!['.'] + tld)))
                &&& rdap_address(b, tld) == Some(base + (b + seq!['.'] + tld))
            },
        rdap_address(a, tld) is None <==> tld == "sh"@ || tld == "gg"@,
{
    if let Some(base) = rdap_base(tld) {
        assert(rdap_address(a, tld) == Some(base + (a + seq!['.'] + tld)));
    }
}

/// Law: a top-level domain is known where it is one of the twenty.
pub proof fn law_known_tld(i: int)
    requires
        0 <= i < 20,
    ensures
        is_known_tld(ALL_TLDS@[i]@),
        ALL_TLDS@.len() == 20,
{
}

} // verus!
