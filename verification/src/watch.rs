//! The watchlist: which domains are on it, and what changes when they are
//! checked again.

use vstd::prelude::*;
use crate::config::{domain_of, law_domain_tld};
use crate::format::{mark_line, marked};
use crate::model::{Availability, Status, WatchEntry, Watched, law_status_words_differ, status_word};
use crate::paint::{Piece, Span, Style, piece, pieces, span};
use crate::text::{chars_of, last_of, lemma_last_of, rfind_char, same_text, text_of, texts};
use crate::unicode::{lowercase, to_lower};

verus! {

/// The entries of a list as texts.
pub open spec fn watched(entries: Seq<WatchEntry>) -> Seq<Watched> {
    Seq::new(entries.len(), |i: int| entries[i]@)
}

/// A domain is on the list.
pub open spec fn is_watched(list: Seq<Watched>, domain: Seq<char>) -> bool {
    exists|i: int| 0 <= i < list.len() && (#[trigger] list[i]).domain == domain
}

/// No domain is on the list twice.
pub open spec fn no_domain_twice(list: Seq<Watched>) -> bool {
    forall|i: int, j: int|
        0 <= i < j < list.len() ==> (#[trigger] list[i]).domain != (#[trigger] list[j]).domain
}

/// The name and the top-level domain that are checked for a watched domain: its
/// own. An entry without a dot stands for its name in `com`.
pub open spec fn target_of(domain: Seq<char>) -> (Seq<char>, Seq<char>) {
    let i = last_of(domain, '.');
    if i >= 0 {
        (domain.take(i), domain.skip(i + 1))
    } else {
        (domain, "com"@)
    }
}

/// The name and the top-level domain that are checked for a watched domain.
pub fn watch_target(domain: &str) -> (r: (String, String))
    ensures
        (r.0@, r.1@) == target_of(domain@),
{
    let chars = chars_of(domain);
    let length = chars.len();
    match rfind_char(chars.as_slice(), '.') {
        Some(i) => {
            let name = text_of(chars.as_slice(), 0, i);
            let tld = text_of(chars.as_slice(), i + 1, length);
            proof {
                assert(name@ =~= domain@.take(i as int));
                assert(tld@ =~= domain@.skip(i + 1));
            }
            (name, tld)
        },
        None => (domain.to_owned(), "com".to_owned()),
    }
}

/// What a request to watch a domain comes to.
pub enum WatchPlan {
    /// There is no dot in it, so it is no full domain.
    Incomplete,
    /// The domain is on the list already.
    Already(String),
    /// The domain is to be checked and put on the list.
    Check { domain: String, name: String, tld: String, first: bool },
}

/// What a request to watch a domain comes to, as texts.
pub enum Plan {
    Incomplete,
    Already(Seq<char>),
    Check { domain: Seq<char>, name: Seq<char>, tld: Seq<char>, first: bool },
}

impl View for WatchPlan {
    type V = Plan;

    open spec fn view(&self) -> Plan {
        match *self {
            WatchPlan::Incomplete => Plan::Incomplete,
            WatchPlan::Already(d) => Plan::Already(d@),
            WatchPlan::Check { domain, name, tld, first } => Plan::Check {
                domain: domain@,
                name: name@,
                tld: tld@,
                first,
            },
        }
    }
}

/// What a request to watch a domain in lowercase comes to.
pub open spec fn plan_of(list: Seq<Watched>, domain: Seq<char>) -> Plan {
    if is_watched(list, domain) {
        Plan::Already(domain)
    } else {
        Plan::Check {
            domain,
            name: target_of(domain).0,
            tld: target_of(domain).1,
            first: list.len() == 0,
        }
    }
}

/// What a request to watch a domain comes to.
pub open spec fn request_plan(list: Seq<Watched>, request: Seq<char>) -> Plan {
    if request.contains('.') {
        plan_of(list, lowercase(request))
    } else {
        Plan::Incomplete
    }
}

/// Whether a domain is on the list.
fn is_listed(entries: &Vec<WatchEntry>, domain: &str) -> (r: bool)
    ensures
        r == is_watched(watched(entries@), domain@),
{
    let ghost list = watched(entries@);
    let mut i: usize = 0;
    while i < entries.len()
        invariant
            list == watched(entries@),
            i <= entries@.len(),
            forall|j: int| 0 <= j < i ==> (#[trigger] list[j]).domain != domain@,
        decreases entries@.len() - i,
    {
        assert(list[i as int] == entries@[i as int]@);
        if same_text(entries[i].domain.as_str(), domain) {
            return true;
        }
        i += 1;
    }
    false
}

/// What a request to watch a domain in lowercase comes to.
pub fn plan_watch_lower(entries: &Vec<WatchEntry>, domain: String) -> (r: WatchPlan)
    ensures
        r@ == plan_of(watched(entries@), domain@),
{
    if is_listed(entries, domain.as_str()) {
        WatchPlan::Already(domain)
    } else {
        let (name, tld) = watch_target(domain.as_str());
        WatchPlan::Check { domain, name, tld, first: entries.len() == 0 }
    }
}

/// What a request to watch a domain comes to.
pub fn plan_watch(entries: &Vec<WatchEntry>, request: &str) -> (r: WatchPlan)
    ensures
        r@ == request_plan(watched(entries@), request@),
{
    let chars = chars_of(request);
    match rfind_char(chars.as_slice(), '.') {
        Some(i) => {
            proof {
                lemma_last_of(request@, '.');
                assert(request@[i as int] == '.');
            }
            plan_watch_lower(entries, to_lower(request))
        },
        None => {
            proof {
                lemma_last_of(request@, '.');
            }
            WatchPlan::Incomplete
        },
    }
}

/// Puts a domain at the end of the list, with the status that was found.
pub fn add_watched(entries: &mut Vec<WatchEntry>, domain: &str, status: &Availability)
    ensures
        watched(final(entries)@) == watched(old(entries)@).push(
            Watched { domain: domain@, last_status: status_word(status@) },
        ),
{
    entries.push(
        WatchEntry { domain: domain.to_owned(), last_status: status.as_str().to_owned() },
    );
    assert(watched(entries@) =~= watched(old(entries)@).push(
        Watched { domain: domain@, last_status: status_word(status@) },
    ));
}

/// The list without the entries for a domain.
pub open spec fn without_domain(list: Seq<Watched>, domain: Seq<char>) -> Seq<Watched>
    decreases list.len(),
{
    if list.len() == 0 {
        seq![]
    } else if list.last().domain == domain {
        without_domain(list.drop_last(), domain)
    } else {
        without_domain(list.drop_last(), domain).push(list.last())
    }
}

/// Leaving out a domain leaves a shorter list exactly where it is on the list.
proof fn lemma_without_domain(list: Seq<Watched>, domain: Seq<char>)
    ensures
        without_domain(list, domain).len() <= list.len(),
        !is_watched(without_domain(list, domain), domain),
        is_watched(list, domain) <==> without_domain(list, domain).len() < list.len(),
        !is_watched(list, domain) ==> without_domain(list, domain) == list,
    decreases list.len(),
{
    if list.len() > 0 {
        let rest = list.drop_last();
        lemma_without_domain(rest, domain);
        if is_watched(rest, domain) {
            let i = choose|i: int| 0 <= i < rest.len() && (#[trigger] rest[i]).domain == domain;
            assert(list[i].domain == domain);
        }
        if is_watched(list, domain) && list.last().domain != domain {
            let i = choose|i: int| 0 <= i < list.len() && (#[trigger] list[i]).domain == domain;
            assert(rest[i].domain == domain);
        }
        if list.last().domain == domain {
            assert(list[list.len() - 1].domain == domain);
        }
        if !is_watched(list, domain) {
            assert(without_domain(list, domain) =~= list);
        }
        let r = without_domain(list, domain);
        if is_watched(r, domain) && list.last().domain != domain {
            let i = choose|i: int| 0 <= i < r.len() && (#[trigger] r[i]).domain == domain;
            if i < r.len() - 1 {
                assert(without_domain(rest, domain)[i] == r[i]);
            }
        }
    }
}

/// Takes a domain in lowercase off the list; says whether it was on it.
pub fn remove_watched(entries: &mut Vec<WatchEntry>, domain: &str) -> (r: bool)
    ensures
        watched(final(entries)@) == without_domain(watched(old(entries)@), domain@),
        r == is_watched(watched(old(entries)@), domain@),
{
    let ghost list = watched(entries@);
    let mut kept: Vec<WatchEntry> = Vec::new();
    let mut i: usize = 0;
    assert(watched(kept@) =~= without_domain(list.take(0), domain@));
    while i < entries.len()
        invariant
            list == watched(entries@),
            i <= entries@.len(),
            watched(kept@) == without_domain(list.take(i as int), domain@),
        decreases entries@.len() - i,
    {
        proof {
            assert(list.take(i + 1).drop_last() =~= list.take(i as int));
            assert(list.take(i + 1).last() == entries@[i as int]@);
        }
        let ghost before = kept@;
        if !same_text(entries[i].domain.as_str(), domain) {
            kept.push(entries[i].clone());
            assert(watched(kept@) =~= watched(before).push(entries@[i as int]@));
        }
        i += 1;
    }
    assert(list.take(i as int) =~= list);
    let removed = kept.len() < entries.len();
    proof {
        lemma_without_domain(list, domain@);
        assert(watched(kept@).len() == kept@.len());
    }
    *entries = kept;
    removed
}

/// Takes a domain off the list; gives its lowercase form, and whether it was on
/// the list.
pub fn unwatch(entries: &mut Vec<WatchEntry>, request: &str) -> (r: (String, bool))
    ensures
        r.0@ == lowercase(request@),
        r.1 == is_watched(watched(old(entries)@), lowercase(request@)),
        watched(final(entries)@) == without_domain(watched(old(entries)@), lowercase(request@)),
{
    let domain = to_lower(request);
    let removed = remove_watched(entries, domain.as_str());
    (domain, removed)
}

/// The names and top-level domains to check for the entries of a list.
pub fn watch_targets(entries: &Vec<WatchEntry>) -> (r: Vec<(String, String)>)
    ensures
        r@.len() == entries@.len(),
        forall|i: int|
            0 <= i < entries@.len() ==> ((#[trigger] r@[i]).0@, r@[i].1@) == target_of(
                entries@[i].domain@,
            ),
{
    let mut out: Vec<(String, String)> = Vec::new();
    let mut i: usize = 0;
    while i < entries.len()
        invariant
            i == out@.len(),
            i <= entries@.len(),
            forall|j: int|
                0 <= j < i ==> ((#[trigger] out@[j]).0@, out@[j].1@) == target_of(
                    entries@[j].domain@,
                ),
        decreases entries@.len() - i,
    {
        out.push(watch_target(entries[i].domain.as_str()));
        i += 1;
    }
    out
}

/// The list with the statuses that were found now, as far as there are any.
pub open spec fn with_statuses(list: Seq<Watched>, found: Seq<Status>) -> Seq<Watched> {
    Seq::new(
        list.len(),
        |i: int|
            if i < found.len() {
                Watched { domain: list[i].domain, last_status: status_word(found[i]) }
            } else {
                list[i]
            },
    )
}

/// The status of entry `i` has changed.
pub open spec fn has_changed(list: Seq<Watched>, found: Seq<Status>, i: int) -> bool {
    0 <= i < list.len() && i < found.len() && list[i].last_status != status_word(found[i])
}

/// The domains before entry `n` that have become available.
pub open spec fn freed_before(list: Seq<Watched>, found: Seq<Status>, n: int) -> Seq<Seq<char>>
    decreases n,
{
    if n <= 0 {
        seq![]
    } else {
        let rest = freed_before(list, found, n - 1);
        if has_changed(list, found, n - 1) && found[n - 1] is Available {
            rest.push(list[n - 1].domain)
        } else {
            rest
        }
    }
}

/// The domains that have become available.
pub open spec fn freed(list: Seq<Watched>, found: Seq<Status>) -> Seq<Seq<char>> {
    freed_before(list, found, list.len() as int)
}

/// The statuses of a list of results.
pub open spec fn statuses(results: Seq<(String, Availability)>) -> Seq<Status> {
    Seq::new(results.len(), |i: int| results[i].1@)
}

/// Takes over the statuses that were found now. Gives the domains that have
/// become available, and whether anything has changed.
pub fn update_statuses(
    entries: &mut Vec<WatchEntry>,
    results: &Vec<(String, Availability)>,
) -> (r: (Vec<String>, bool))
    ensures
        watched(final(entries)@) == with_statuses(watched(old(entries)@), statuses(results@)),
        texts(r.0@) == freed(watched(old(entries)@), statuses(results@)),
        r.1 == exists|i: int| has_changed(watched(old(entries)@), statuses(results@), i),
{
    let ghost list = watched(entries@);
    let ghost found = statuses(results@);
    let mut out: Vec<WatchEntry> = Vec::new();
    let mut news: Vec<String> = Vec::new();
    let mut changed = false;
    let mut i: usize = 0;
    assert(texts(news@) =~= freed_before(list, found, 0));
    while i < entries.len()
        invariant
            list == watched(entries@),
            found == statuses(results@),
            i <= entries@.len(),
            i == out@.len(),
            forall|j: int| 0 <= j < i ==> (#[trigger] out@[j])@ == with_statuses(list, found)[j],
            texts(news@) == freed_before(list, found, i as int),
            changed == exists|j: int| j < i && has_changed(list, found, j),
        decreases entries@.len() - i,
    {
        let e = &entries[i];
        let ghost before = news@;
        assert(list[i as int] == e@);
        let mut status = e.last_status.clone();
        let ghost was = exists|j: int| j < i && has_changed(list, found, j);
        if i < results.len() {
            assert(found[i as int] == results@[i as int].1@);
            let word = results[i].1.as_str();
            if !same_text(word, e.last_status.as_str()) {
                assert(has_changed(list, found, i as int));
                proof {
                    law_status_words_differ(found[i as int], Status::Available);
                }
                if same_text(word, "available") {
                    news.push(e.domain.clone());
                    assert(texts(news@) =~= texts(before).push(e@.domain));
                }
                status = word.to_owned();
                changed = true;
            }
        }
        proof {
            if was {
                let j = choose|j: int| j < i && has_changed(list, found, j);
                assert(j < i + 1 && has_changed(list, found, j));
            }
            if exists|j: int| j < i + 1 && has_changed(list, found, j) {
                let j = choose|j: int| j < i + 1 && has_changed(list, found, j);
                if j < i {
                    assert(was);
                }
            }
        }
        out.push(WatchEntry { domain: e.domain.clone(), last_status: status });
        i += 1;
    }
    assert(watched(out@) =~= with_statuses(list, found));
    proof {
        if exists|j: int| has_changed(list, found, j) {
            let j = choose|j: int| has_changed(list, found, j);
            assert(j < i && has_changed(list, found, j));
        }
    }
    *entries = out;
    (news, changed)
}

/// The line for an entry of the list, its status in a colour of its own.
pub open spec fn entry_line(e: Watched) -> Seq<Piece> {
    let style = if e.last_status == "available"@ {
        Style::BrightGreen
    } else if e.last_status == "taken"@ {
        Style::Rgb(60, 60, 80)
    } else if e.last_status == "protected"@ {
        Style::BrightYellow
    } else {
        Style::Rgb(100, 100, 80)
    };
    marked("·"@, Style::Rgb(100, 100, 120), e.domain, Style::BrightWhite) + seq![
        piece("  "@, Style::Plain),
        piece(e.last_status, style),
    ]
}

/// The line for an entry of the list.
pub fn entry_spans(e: &WatchEntry) -> (r: Vec<Span>)
    ensures
        pieces(r@) == entry_line(e@),
{
    let status = e.last_status.as_str();
    let style = if same_text(status, "available") {
        Style::BrightGreen
    } else if same_text(status, "taken") {
        Style::Rgb(60, 60, 80)
    } else if same_text(status, "protected") {
        Style::BrightYellow
    } else {
        Style::Rgb(100, 100, 80)
    };
    let mut line = mark_line(
        "·",
        Style::Rgb(100, 100, 120),
        e.domain.as_str(),
        Style::BrightWhite,
    );
    let ghost start = line@;
    line.push(span("  ", Style::Plain));
    line.push(span(status, style));
    assert(pieces(line@) =~= pieces(start) + seq![
        piece("  "@, Style::Plain),
        piece(e@.last_status, style),
    ]);
    line
}

/// Law: what is checked for a watched domain is that domain itself, whatever its
/// top-level domain is.
pub proof fn law_watched_domain_is_checked(list: Seq<Watched>, domain: Seq<char>)
    requires
        domain.contains('.'),
    ensures
        domain_of(target_of(domain).0, target_of(domain).1) == domain,
        plan_of(list, domain) matches Plan::Check { name, tld, .. } ==> domain_of(name, tld)
            == domain,
{
    lemma_last_of(domain, '.');
    let i = last_of(domain, '.');
    assert(domain[i] == '.');
    assert(domain_of(domain.take(i), domain.skip(i + 1)) =~= domain);
}

/// Law: a domain that is put on the list as planned is on it once: no domain
/// is ever on the list twice.
pub proof fn law_watch_keeps_domains_apart(
    list: Seq<Watched>,
    domain: Seq<char>,
    status: Seq<char>,
)
    requires
        no_domain_twice(list),
        plan_of(list, domain) is Check,
    ensures
        no_domain_twice(list.push(Watched { domain, last_status: status })),
        is_watched(list.push(Watched { domain, last_status: status }), domain),
{
    let now = list.push(Watched { domain, last_status: status });
    assert(now[list.len() as int].domain == domain);
}

/// Law: a domain that was put on the list is not planned again.
pub proof fn law_watch_twice(list: Seq<Watched>, domain: Seq<char>, status: Seq<char>)
    ensures
        plan_of(list.push(Watched { domain, last_status: status }), domain) == Plan::Already(domain),
{
    let now = list.push(Watched { domain, last_status: status });
    assert(now[list.len() as int].domain == domain);
}

/// Law: taking a domain off the list undoes putting it there.
pub proof fn law_unwatch_undoes_watch(list: Seq<Watched>, domain: Seq<char>, status: Seq<char>)
    requires
        plan_of(list, domain) is Check,
    ensures
        without_domain(list.push(Watched { domain, last_status: status }), domain) == list,
{
    let now = list.push(Watched { domain, last_status: status });
    assert(now.drop_last() =~= list);
    lemma_without_domain(list, domain);
}

/// Law: a domain that was taken off the list is off it, and taking it off again
/// changes nothing.
pub proof fn law_unwatch(list: Seq<Watched>, domain: Seq<char>)
    ensures
        !is_watched(without_domain(list, domain), domain),
        without_domain(without_domain(list, domain), domain) == without_domain(list, domain),
{
    lemma_without_domain(list, domain);
    lemma_without_domain(without_domain(list, domain), domain);
}

/// Law: taking a domain off the list leaves the other entries as they were.
pub proof fn law_unwatch_keeps_others(list: Seq<Watched>, domain: Seq<char>, e: Watched)
    requires
        e.domain != domain,
    ensures
        without_domain(list, domain).contains(e) <==> list.contains(e),
    decreases list.len(),
{
    if list.len() > 0 {
        let rest = list.drop_last();
        law_unwatch_keeps_others(rest, domain, e);
        assert(list =~= rest.push(list.last()));
        let r = without_domain(rest, domain);
        if list.contains(e) {
            let i = choose|i: int| 0 <= i < list.len() && list[i] == e;
            if i < rest.len() {
                assert(rest[i] == e);
            }
        }
        if rest.contains(e) {
            let i = choose|i: int| 0 <= i < rest.len() && rest[i] == e;
            assert(list[i] == e);
        }
        let now = without_domain(list, domain);
        if list.last().domain != domain {
            if now.contains(e) {
                let i = choose|i: int| 0 <= i < now.len() && now[i] == e;
                if i < r.len() {
                    assert(r[i] == e);
                } else {
                    assert(list[list.len() - 1] == e);
                }
            }
            if r.contains(e) {
                let i = choose|i: int| 0 <= i < r.len() && r[i] == e;
                assert(now[i] == e);
            }
            if list.last() == e {
                assert(now[now.len() - 1] == e);
            }
        }
    }
}

/// Where nothing has changed, nothing has become available.
proof fn lemma_nothing_freed(list: Seq<Watched>, found: Seq<Status>, n: int)
    requires
        forall|i: int| !has_changed(list, found, i),
    ensures
        freed_before(list, found, n) == Seq::<Seq<char>>::empty(),
    decreases n,
{
    if n > 0 {
        lemma_nothing_freed(list, found, n - 1);
        assert(!has_changed(list, found, n - 1));
    }
}

/// Law: the same statuses found again are no news: nothing changes, and no
/// notice is sent twice.
pub proof fn law_no_news_twice(list: Seq<Watched>, found: Seq<Status>)
    ensures
        ({
            let now = with_statuses(list, found);
            &&& with_statuses(now, found) == now
            &&& freed(now, found) == Seq::<Seq<char>>::empty()
            &&& forall|i: int| !has_changed(now, found, i)
        }),
{
    let now = with_statuses(list, found);
    assert(with_statuses(now, found) =~= now);
    lemma_nothing_freed(now, found, now.len() as int);
}

/// Law: checking the list keeps its domains and their order.
pub proof fn law_domains_stay(list: Seq<Watched>, found: Seq<Status>, i: int)
    requires
        0 <= i < list.len(),
    ensures
        with_statuses(list, found).len() == list.len(),
        with_statuses(list, found)[i].domain == list[i].domain,
{
}

/// The news about the first entries.
proof fn lemma_news_before(list: Seq<Watched>, found: Seq<Status>, n: int, domain: Seq<char>)
    ensures
        freed_before(list, found, n).contains(domain) <==> exists|i: int|
            i < n && #[trigger] has_changed(list, found, i) && found[i] is Available
                && list[i].domain == domain,
    decreases n,
{
    if n > 0 {
        lemma_news_before(list, found, n - 1, domain);
        let rest = freed_before(list, found, n - 1);
        let all = freed_before(list, found, n);
        if rest.contains(domain) {
            let j = choose|j: int| 0 <= j < rest.len() && rest[j] == domain;
            assert(all[j] == domain);
        }
        if has_changed(list, found, n - 1) && found[n - 1] is Available {
            assert(all[rest.len() as int] == list[n - 1].domain);
            if all.contains(domain) && list[n - 1].domain != domain {
                let j = choose|j: int| 0 <= j < all.len() && all[j] == domain;
                assert(rest[j] == domain);
            }
        }
    }
}

/// Law: there is news of a domain exactly where an entry for it was not
/// available before and is now.
pub proof fn law_news(list: Seq<Watched>, found: Seq<Status>, domain: Seq<char>)
    ensures
        freed(list, found).contains(domain) <==> exists|i: int|
            0 <= i < list.len() && i < found.len() && (#[trigger] list[i]).domain == domain
                && list[i].last_status != "available"@ && found[i] is Available,
{
    lemma_news_before(list, found, list.len() as int, domain);
    if freed(list, found).contains(domain) {
        let i = choose|i: int|
            i < list.len() && #[trigger] has_changed(list, found, i) && found[i] is Available
                && list[i].domain == domain;
        assert(list[i].last_status != "available"@);
    }
    if exists|i: int|
        0 <= i < list.len() && i < found.len() && (#[trigger] list[i]).domain == domain
            && list[i].last_status != "available"@ && found[i] is Available {
        let i = choose|i: int|
            0 <= i < list.len() && i < found.len() && (#[trigger] list[i]).domain == domain
                && list[i].last_status != "available"@ && found[i] is Available;
        assert(has_changed(list, found, i));
    }
}

/// Law: a request is refused exactly where it has no dot. Else it is about its
/// lowercase form, which is checked unless it is on the list, and is the first
/// one exactly where the list is empty.
pub proof fn law_request(list: Seq<Watched>, request: Seq<char>)
    ensures
        request_plan(list, request) is Incomplete <==> !request.contains('.'),
        request.contains('.') && is_watched(list, lowercase(request)) ==> request_plan(
            list,
            request,
        ) == Plan::Already(lowercase(request)),
        request.contains('.') && !is_watched(list, lowercase(request)) ==> (request_plan(
            list,
            request,
        ) matches Plan::Check { domain, first, .. } && domain == lowercase(request) && (first
            <==> list.len() == 0)),
{
}

/// Law: a domain is watched exactly where some entry is for it.
pub proof fn law_is_watched(list: Seq<Watched>, e: Watched, domain: Seq<char>)
    ensures
        is_watched(list.push(e), domain) <==> is_watched(list, domain) || e.domain == domain,
        !is_watched(Seq::<Watched>::empty(), domain),
{
    let now = list.push(e);
    if is_watched(list, domain) {
        let i = choose|i: int| 0 <= i < list.len() && (#[trigger] list[i]).domain == domain;
        assert(now[i].domain == domain);
    }
    if e.domain == domain {
        assert(now[list.len() as int].domain == domain);
    }
    if is_watched(now, domain) && e.domain != domain {
        let i = choose|i: int| 0 <= i < now.len() && (#[trigger] now[i]).domain == domain;
        assert(list[i].domain == domain);
    }
}

/// Law: the top-level domain that is checked has no dot in it, so the name is
/// what comes before the last one.
pub proof fn law_target(name: Seq<char>, tld: Seq<char>)
    requires
        !tld.contains('.'),
    ensures
        target_of(name + seq!['.'] + tld) == (name, tld),
        target_of(tld) == (tld, "com"@),
{
    law_domain_tld(name, tld);
    let d = domain_of(name, tld);
    assert(d.take(name.len() as int) =~= name);
    assert(d.skip(name.len() as int + 1) =~= tld);
    lemma_last_of(tld, '.');
    if last_of(tld, '.') >= 0 {
        assert(tld.contains(tld[last_of(tld, '.')]));
    }
}

/// Law: a domain is taken off the parts of a list one by one: an entry for it
/// goes, any other stays in its place.
pub proof fn law_unwatch_part_by_part(
    a: Seq<Watched>,
    b: Seq<Watched>,
    e: Watched,
    domain: Seq<char>,
)
    ensures
        without_domain(a + b, domain) == without_domain(a, domain) + without_domain(b, domain),
        e.domain == domain ==> without_domain(seq![e], domain) == Seq::<Watched>::empty(),
        e.domain != domain ==> without_domain(seq![e], domain) == seq![e],
    decreases b.len(),
{
    reveal_with_fuel(without_domain, 2);
    assert(seq![e].drop_last() =~= Seq::<Watched>::empty());
    assert(without_domain(Seq::<Watched>::empty(), domain) =~= Seq::<Watched>::empty());
    if e.domain != domain {
        assert(without_domain(seq![e], domain) =~= seq![e]);
    }
    if b.len() == 0 {
        assert(a + b =~= a);
        assert(without_domain(a, domain) + without_domain(b, domain) =~= without_domain(a, domain));
    } else {
        law_unwatch_part_by_part(a, b.drop_last(), e, domain);
        assert((a + b).drop_last() =~= a + b.drop_last());
        assert(without_domain(a + b, domain) =~= without_domain(a, domain) + without_domain(
            b,
            domain,
        ));
    }
}

/// Law: after a check every entry that was checked has the word of what was
/// found, and any other is as before.
pub proof fn law_statuses_taken_over(list: Seq<Watched>, found: Seq<Status>, i: int)
    requires
        0 <= i < list.len(),
    ensures
        i < found.len() && found[i] is Available ==> with_statuses(list, found)[i].last_status
            == "available"@,
        i < found.len() && found[i] is Protected ==> with_statuses(list, found)[i].last_status
            == "protected"@,
        i < found.len() && found[i] is Taken ==> with_statuses(list, found)[i].last_status
            == "taken"@,
        i < found.len() && found[i] is Unknown ==> with_statuses(list, found)[i].last_status
            == "unknown"@,
        i >= found.len() ==> with_statuses(list, found)[i] == list[i],
{
}

/// Law: something has changed exactly where the list is another one afterwards.
pub proof fn law_changed(list: Seq<Watched>, found: Seq<Status>)
    ensures
        (exists|i: int| has_changed(list, found, i)) <==> with_statuses(list, found) != list,
{
    let now = with_statuses(list, found);
    if exists|i: int| has_changed(list, found, i) {
        let i = choose|i: int| has_changed(list, found, i);
        assert(now[i].last_status != list[i].last_status);
    } else {
        assert forall|i: int| 0 <= i < list.len() implies now[i] == list[i] by {
            assert(!has_changed(list, found, i));
        }
        assert(now =~= list);
    }
}

/// The news does not depend on what comes later.
proof fn lemma_news_of_first(
    a: Seq<Watched>,
    b: Seq<Watched>,
    x: Seq<Status>,
    y: Seq<Status>,
    n: int,
)
    requires
        a.len() == x.len(),
        n <= a.len(),
    ensures
        freed_before(a + b, x + y, n) == freed_before(a, x, n),
    decreases n,
{
    if n > 0 {
        lemma_news_of_first(a, b, x, y, n - 1);
        assert((a + b)[n - 1] == a[n - 1] && (x + y)[n - 1] == x[n - 1]);
    }
}

/// The news of a second list comes after that of the first.
proof fn lemma_news_of_both(
    a: Seq<Watched>,
    b: Seq<Watched>,
    x: Seq<Status>,
    y: Seq<Status>,
    n: int,
)
    requires
        a.len() == x.len(),
        0 <= n <= b.len(),
    ensures
        freed_before(a + b, x + y, a.len() + n) == freed(a, x) + freed_before(b, y, n),
    decreases n,
{
    if n == 0 {
        lemma_news_of_first(a, b, x, y, a.len() as int);
        assert(freed(a, x) + freed_before(b, y, 0) =~= freed(a, x));
    } else {
        lemma_news_of_both(a, b, x, y, n - 1);
        let k = a.len() + n - 1;
        assert((a + b)[k] == b[n - 1]);
        if n - 1 < y.len() {
            assert((x + y)[k] == y[n - 1]);
        }
        assert(has_changed(a + b, x + y, k) <==> has_changed(b, y, n - 1));
        assert(freed_before(a + b, x + y, k + 1) =~= freed(a, x) + freed_before(b, y, n));
    }
}

/// Law: the news of a list comes entry by entry, in their order, and an entry
/// gives news exactly where it was not available and is now.
pub proof fn law_news_entry_by_entry(
    a: Seq<Watched>,
    b: Seq<Watched>,
    x: Seq<Status>,
    y: Seq<Status>,
    e: Watched,
    s: Status,
)
    requires
        a.len() == x.len(),
    ensures
        freed(a + b, x + y) == freed(a, x) + freed(b, y),
        freed(seq![e], seq![s]) == if s is Available && e.last_status != "available"@ {
            seq![e.domain]
        } else {
            Seq::<Seq<char>>::empty()
        },
{
    lemma_news_of_both(a, b, x, y, b.len() as int);
    reveal_with_fuel(freed_before, 2);
    assert(seq![e][0] == e && seq![s][0] == s);
    if s is Available {
        assert(status_word(s) == "available"@);
        assert(has_changed(seq![e], seq![s], 0) <==> e.last_status != "available"@);
    }
    assert(freed(seq![e], seq![s]) =~= if s is Available && e.last_status != "available"@ {
        seq![e.domain]
    } else {
        Seq::<Seq<char>>::empty()
    });
}

/// Law: an entry is shown with its domain and its status, each kind of status in
/// a colour of its own.
pub proof fn law_entry_line(e: Watched)
    ensures
        entry_line(e).len() == 6,
        entry_line(e)[0] == piece("  "@, Style::Plain),
        entry_line(e)[1] == piece("·"@, Style::Rgb(100, 100, 120)),
        entry_line(e)[2] == piece("  "@, Style::Plain),
        entry_line(e)[3] == piece(e.domain, Style::BrightWhite),
        entry_line(e)[4] == piece("  "@, Style::Plain),
        entry_line(e)[5].text == e.last_status,
        entry_line(e)[5].style == Style::BrightGreen <==> e.last_status == "available"@,
        entry_line(e)[5].style == Style::BrightYellow <==> e.last_status == "protected"@,
        entry_line(e)[5].style == Style::Rgb(60, 60, 80) <==> e.last_status == "taken"@,
        entry_line(e)[5].style == Style::Rgb(100, 100, 80) <==> e.last_status != "available"@
            && e.last_status != "protected"@ && e.last_status != "taken"@,
{
    law_status_words_differ(Status::Available, Status::Protected);
    law_status_words_differ(Status::Available, Status::Unknown);
    reveal_strlit("available");
    reveal_strlit("protected");
    reveal_strlit("taken");
    assert("available"@.len() == 9 && "available"@[0] == 'a');
    assert("protected"@.len() == 9 && "protected"@[0] == 'p');
    assert("taken"@.len() == 5);
}

} // verus!
