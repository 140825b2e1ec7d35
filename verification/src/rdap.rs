//! RDAP: which addresses to ask for a domain, and what an answer says.

use vstd::prelude::*;
use crate::config::{domain_name, domain_of, rdap_address, rdap_url};
use crate::dates::{first_date, parse_date};
use crate::json::{
    JsonTree, elements, elements_of, json_in_text, json_list, json_of, member, member_of,
    parse_text, text_in, text_value,
};
use crate::model::{Availability, Dates, DomainDates, Status, no_dates, text_if_any};
use crate::text::{contains_text, occurs_in, same_text};

verus! {

/// An event in the life of a domain, as far as an answer tells.
pub struct RdapEvent {
    pub action: Option<String>,
    pub date: Option<String>,
}

/// An event in the life of a domain as texts.
pub struct Event {
    pub action: Option<Seq<char>>,
    pub date: Option<Seq<char>>,
}

impl View for RdapEvent {
    type V = Event;

    open spec fn view(&self) -> Event {
        Event { action: text_if_any(self.action), date: text_if_any(self.date) }
    }
}

/// The events of a list as texts.
pub open spec fn event_views(events: Seq<RdapEvent>) -> Seq<Event> {
    Seq::new(events.len(), |i: int| events[i]@)
}

/// The date in the text of an event.
pub open spec fn event_date(e: Event) -> Option<Seq<char>> {
    match e.date {
        Some(t) => first_date(t),
        None => None,
    }
}

/// The date of the first event that is called `action`.
pub open spec fn date_of_action(events: Seq<Event>, action: Seq<char>) -> Option<Seq<char>>
    decreases events.len(),
{
    if events.len() == 0 {
        None
    } else if events[0].action == Some(action) {
        event_date(events[0])
    } else {
        date_of_action(events.drop_first(), action)
    }
}

/// The event is about an expiry.
pub open spec fn is_expiry(e: Event) -> bool {
    e.action matches Some(a) && occurs_in("expir"@, a)
}

/// The date of the first event that is about an expiry.
pub open spec fn date_of_expiry(events: Seq<Event>) -> Option<Seq<char>>
    decreases events.len(),
{
    if events.len() == 0 {
        None
    } else if is_expiry(events[0]) {
        event_date(events[0])
    } else {
        date_of_expiry(events.drop_first())
    }
}

/// The dates that a list of events gives.
pub open spec fn dates_of_events(events: Seq<Event>) -> Dates {
    Dates {
        registered: date_of_action(events, "registration"@),
        updated: date_of_action(events, "last changed"@),
        expires: date_of_expiry(events),
    }
}

/// An event in a JSON answer.
pub open spec fn event_of(tree: JsonTree) -> Event {
    Event {
        action: text_in(member_of(tree, "eventAction"@)),
        date: text_in(member_of(tree, "eventDate"@)),
    }
}

/// The events in a JSON answer, if it has a list of them.
pub open spec fn events_in(tree: JsonTree) -> Option<Seq<Event>> {
    match elements_of(member_of(tree, "events"@)) {
        Some(items) => Some(Seq::new(items.len(), |i: int| event_of(items[i]))),
        None => None,
    }
}

/// The dates in the body of an answer.
pub open spec fn dates_in_body(body: Seq<char>) -> Dates {
    match json_in_text(body) {
        Some(tree) => match events_in(tree) {
            Some(events) => dates_of_events(events),
            None => no_dates(),
        },
        None => no_dates(),
    }
}

/// What an answer says: 200 that the domain is taken, 404 that it is not, or
/// that it is blocked.
pub open spec fn rdap_status(code: u16, body: Seq<char>) -> Status {
    if code == 200 {
        Status::Taken(dates_in_body(body))
    } else if code == 404 {
        if occurs_in("Blocked"@, body) || occurs_in("blocked"@, body) {
            Status::Protected
        } else {
            Status::Available
        }
    } else {
        Status::Unknown
    }
}

/// The date in the text of an event.
fn read_event_date(e: &RdapEvent) -> (r: Option<String>)
    ensures
        text_if_any(r) == event_date(e@),
{
    match &e.date {
        Some(t) => parse_date(t.as_str()),
        None => None,
    }
}

/// The date of the first event that is called `action`.
fn find_action(events: &Vec<RdapEvent>, action: &str) -> (r: Option<String>)
    ensures
        text_if_any(r) == date_of_action(event_views(events@), action@),
{
    let ghost all = event_views(events@);
    let mut i: usize = 0;
    assert(all.skip(0) =~= all);
    while i < events.len()
        invariant
            all == event_views(events@),
            i <= events@.len(),
            date_of_action(all, action@) == date_of_action(all.skip(i as int), action@),
        decreases events@.len() - i,
    {
        let e = &events[i];
        let ghost rest = all.skip(i as int);
        assert(rest[0] == e@);
        let found = match &e.action {
            Some(a) => same_text(a.as_str(), action),
            None => false,
        };
        if found {
            return read_event_date(e);
        }
        assert(rest.drop_first() =~= all.skip(i + 1));
        i += 1;
    }
    None
}

/// The date of the first event that is about an expiry.
fn find_expiry(events: &Vec<RdapEvent>) -> (r: Option<String>)
    ensures
        text_if_any(r) == date_of_expiry(event_views(events@)),
{
    let ghost all = event_views(events@);
    let mut i: usize = 0;
    assert(all.skip(0) =~= all);
    while i < events.len()
        invariant
            all == event_views(events@),
            i <= events@.len(),
            date_of_expiry(all) == date_of_expiry(all.skip(i as int)),
        decreases events@.len() - i,
    {
        let e = &events[i];
        let ghost rest = all.skip(i as int);
        assert(rest[0] == e@);
        let found = match &e.action {
            Some(a) => contains_text(a.as_str(), "expir"),
            None => false,
        };
        if found {
            return read_event_date(e);
        }
        assert(rest.drop_first() =~= all.skip(i + 1));
        i += 1;
    }
    None
}

/// The dates that a list of events gives.
pub fn dates_from_events(events: &Vec<RdapEvent>) -> (r: DomainDates)
    ensures
        r@ == dates_of_events(event_views(events@)),
{
    DomainDates {
        registered: find_action(events, "registration"),
        updated: find_action(events, "last changed"),
        expires: find_expiry(events),
    }
}

/// A text of a JSON value, copied.
fn copied_text(value: &serde_json::Value) -> (r: Option<String>)
    ensures
        text_if_any(r) == text_in(json_of(*value)),
{
    match text_value(value) {
        Some(t) => Some(t.to_owned()),
        None => None,
    }
}

/// The events in a JSON answer, if it has a list of them.
fn read_events(value: &serde_json::Value) -> (r: Option<Vec<RdapEvent>>)
    ensures
        r is Some <==> events_in(json_of(*value)) is Some,
        r matches Some(v) ==> events_in(json_of(*value)) == Some(event_views(v@)),
{
    match elements(member(value, "events")) {
        None => None,
        Some(items) => {
            let mut events: Vec<RdapEvent> = Vec::new();
            let mut i: usize = 0;
            while i < items.len()
                invariant
                    i == events@.len(),
                    i <= items@.len(),
                    forall|j: int|
                        0 <= j < i ==> (#[trigger] events@[j])@ == event_of(json_of(items@[j])),
                decreases items@.len() - i,
            {
                let e = RdapEvent {
                    action: copied_text(member(&items[i], "eventAction")),
                    date: copied_text(member(&items[i], "eventDate")),
                };
                events.push(e);
                i += 1;
            }
            proof {
                let trees = json_list(items@);
                assert(event_views(events@) =~= Seq::new(
                    trees.len(),
                    |j: int| event_of(trees[j]),
                ));
            }
            Some(events)
        },
    }
}

/// What an answer says of a domain.
pub fn read_rdap_reply(code: u16, body: &str) -> (r: Availability)
    ensures
        r@ == rdap_status(code, body@),
{
    if code == 200 {
        let events = match parse_text(body) {
            Some(value) => read_events(&value),
            None => None,
        };
        match events {
            Some(list) => Availability::Taken(dates_from_events(&list)),
            None => Availability::Taken(DomainDates::default()),
        }
    } else if code == 404 {
        if contains_text(body, "Blocked") || contains_text(body, "blocked") {
            Availability::Protected
        } else {
            Availability::Available
        }
    } else {
        Availability::Unknown
    }
}

/// The address that answers for any registry.
pub open spec fn fallback_address(name: Seq<char>, tld: Seq<char>) -> Seq<char> {
    "https://rdap.org/domain/"@ + domain_of(name, tld)
}

/// What to do next to learn of a domain by RDAP.
pub enum RdapStep {
    Ask(String),
    Done(Availability),
}

/// What to do next to learn of a domain by RDAP, as texts.
pub enum Step {
    Ask(Seq<char>),
    Done(Status),
}

impl View for RdapStep {
    type V = Step;

    open spec fn view(&self) -> Step {
        match *self {
            RdapStep::Ask(address) => Step::Ask(address@),
            RdapStep::Done(a) => Step::Done(a@),
        }
    }
}

/// First the registry is asked, if it answers RDAP at all.
pub open spec fn first_step(name: Seq<char>, tld: Seq<char>) -> Step {
    match rdap_address(name, tld) {
        Some(address) => Step::Ask(address),
        None => Step::Done(Status::Unknown),
    }
}

/// An answer that says nothing is asked for once more at the address that
/// answers for any registry, unless that was the one asked.
pub open spec fn step_after(
    name: Seq<char>,
    tld: Seq<char>,
    asked: Seq<char>,
    answer: Status,
) -> Step {
    if answer is Unknown && asked != fallback_address(name, tld) {
        Step::Ask(fallback_address(name, tld))
    } else {
        Step::Done(answer)
    }
}

/// The first address to ask.
pub fn start_rdap(name: &str, tld: &str) -> (r: RdapStep)
    ensures
        r@ == first_step(name@, tld@),
{
    match rdap_url(name, tld) {
        Some(address) => RdapStep::Ask(address),
        None => RdapStep::Done(Availability::Unknown),
    }
}

/// What to do after `asked` gave `answer`.
pub fn continue_rdap(name: &str, tld: &str, asked: &str, answer: Availability) -> (r: RdapStep)
    ensures
        r@ == step_after(name@, tld@, asked@, answer@),
{
    match answer {
        Availability::Unknown => {
            let mut address = "https://rdap.org/domain/".to_owned();
            address.append(domain_name(name, tld).as_str());
            if same_text(asked, address.as_str()) {
                RdapStep::Done(Availability::Unknown)
            } else {
                RdapStep::Ask(address)
            }
        },
        other => RdapStep::Done(other),
    }
}

/// Law: at most two addresses are asked; whatever the second answers is final.
pub proof fn law_two_questions(name: Seq<char>, tld: Seq<char>, a: Status, b: Status)
    ensures
        first_step(name, tld) matches Step::Ask(x) ==> (step_after(name, tld, x, a) matches Step::Ask(
            y,
        ) ==> a is Unknown && x != y && step_after(name, tld, y, b) == Step::Done(b)),
{
}

/// Law: an answer other than unknown is final.
pub proof fn law_answer_is_final(name: Seq<char>, tld: Seq<char>, asked: Seq<char>, a: Status)
    requires
        !(a is Unknown),
    ensures
        step_after(name, tld, asked, a) == Step::Done(a),
{
}

/// Event `i` is the first with the given action.
pub open spec fn is_first_action(events: Seq<Event>, action: Seq<char>, i: int) -> bool {
    &&& 0 <= i < events.len()
    &&& events[i].action == Some(action)
    &&& forall|j: int| 0 <= j < i ==> (#[trigger] events[j]).action != Some(action)
}

/// Event `i` is the first whose action speaks of an expiry.
pub open spec fn is_first_expiry(events: Seq<Event>, i: int) -> bool {
    &&& 0 <= i < events.len()
    &&& events[i].action matches Some(a) && occurs_in("expir"@, a)
    &&& forall|j: int|
        0 <= j < i ==> !((#[trigger] events[j]).action matches Some(a) && occurs_in("expir"@, a))
}

/// The date of an action is that of the first event with it.
proof fn lemma_action_date(events: Seq<Event>, action: Seq<char>, i: int)
    ensures
        is_first_action(events, action, i) ==> date_of_action(events, action) == event_date(
            events[i],
        ),
        (forall|j: int| 0 <= j < events.len() ==> (#[trigger] events[j]).action != Some(action))
            ==> date_of_action(events, action) is None,
    decreases events.len(),
{
    if events.len() > 0 {
        let rest = events.drop_first();
        lemma_action_date(rest, action, i - 1);
        if is_first_action(events, action, i) && i > 0 {
            assert(events[0].action != Some(action));
            assert(rest[i - 1] == events[i]);
            assert forall|j: int| 0 <= j < i - 1 implies (#[trigger] rest[j]).action != Some(
                action,
            ) by {
                assert(rest[j] == events[j + 1]);
            }
            assert(is_first_action(rest, action, i - 1));
        }
        if forall|j: int| 0 <= j < events.len() ==> (#[trigger] events[j]).action != Some(action) {
            assert(events[0].action != Some(action));
            assert forall|j: int| 0 <= j < rest.len() implies (#[trigger] rest[j]).action != Some(
                action,
            ) by {
                assert(rest[j] == events[j + 1]);
            }
        }
    }
}

/// The date of the expiry is that of the first event that speaks of one.
proof fn lemma_expiry_date(events: Seq<Event>, i: int)
    ensures
        is_first_expiry(events, i) ==> date_of_expiry(events) == event_date(events[i]),
        (forall|j: int|
            0 <= j < events.len() ==> !((#[trigger] events[j]).action matches Some(a) && occurs_in(
                "expir"@,
                a,
            ))) ==> date_of_expiry(events) is None,
    decreases events.len(),
{
    if events.len() > 0 {
        let rest = events.drop_first();
        lemma_expiry_date(rest, i - 1);
        if is_first_expiry(events, i) && i > 0 {
            assert(!is_expiry(events[0]));
            assert(rest[i - 1] == events[i]);
            assert forall|j: int| 0 <= j < i - 1 implies !((#[trigger] rest[j]).action matches Some(a)
                && occurs_in("expir"@, a)) by {
                assert(rest[j] == events[j + 1]);
            }
            assert(is_first_expiry(rest, i - 1));
        }
        if forall|j: int|
            0 <= j < events.len() ==> !((#[trigger] events[j]).action matches Some(a) && occurs_in(
                "expir"@,
                a,
            )) {
            assert(!is_expiry(events[0]));
            assert forall|j: int| 0 <= j < rest.len() implies !((#[trigger] rest[j]).action matches Some(
                a,
            ) && occurs_in("expir"@, a)) by {
                assert(rest[j] == events[j + 1]);
            }
        }
    }
}

/// Law: each date is decided by one event: the registration by the first one
/// called `registration`, the update by the first one called `last changed`, the
/// expiry by the first one whose action has `expir` in it. It is the first date
/// in the text of that event; and without such an event there is none.
pub proof fn law_event_decides(events: Seq<Event>, i: int)
    ensures
        is_first_action(events, "registration"@, i) ==> dates_of_events(events).registered
            == match events[i].date {
            Some(t) => first_date(t),
            None => None,
        },
        is_first_action(events, "last changed"@, i) ==> dates_of_events(events).updated
            == match events[i].date {
            Some(t) => first_date(t),
            None => None,
        },
        is_first_expiry(events, i) ==> dates_of_events(events).expires == match events[i].date {
            Some(t) => first_date(t),
            None => None,
        },
        (forall|j: int|
            0 <= j < events.len() ==> (#[trigger] events[j]).action != Some("registration"@))
            ==> dates_of_events(events).registered is None,
        (forall|j: int|
            0 <= j < events.len() ==> (#[trigger] events[j]).action != Some("last changed"@))
            ==> dates_of_events(events).updated is None,
        (forall|j: int|
            0 <= j < events.len() ==> !((#[trigger] events[j]).action matches Some(a) && occurs_in(
                "expir"@,
                a,
            ))) ==> dates_of_events(events).expires is None,
{
    lemma_action_date(events, "registration"@, i);
    lemma_action_date(events, "last changed"@, i);
    lemma_expiry_date(events, i);
}

/// An event with another action does not change the date of an action.
proof fn lemma_other_action(a: Seq<Event>, e: Event, b: Seq<Event>, action: Seq<char>)
    requires
        e.action != Some(action),
    ensures
        date_of_action(a + seq![e] + b, action) == date_of_action(a + b, action),
    decreases a.len(),
{
    let all = a + seq![e] + b;
    if a.len() == 0 {
        assert(all.drop_first() =~= b);
        assert(a + b =~= b);
        assert(all[0] == e);
    } else {
        lemma_other_action(a.drop_first(), e, b, action);
        assert(all.drop_first() =~= a.drop_first() + seq![e] + b);
        assert((a + b).drop_first() =~= a.drop_first() + b);
        assert(all[0] == a[0] && (a + b)[0] == a[0]);
    }
}

/// An event that does not speak of an expiry does not change its date.
proof fn lemma_no_expiry(a: Seq<Event>, e: Event, b: Seq<Event>)
    requires
        !is_expiry(e),
    ensures
        date_of_expiry(a + seq![e] + b) == date_of_expiry(a + b),
    decreases a.len(),
{
    let all = a + seq![e] + b;
    if a.len() == 0 {
        assert(all.drop_first() =~= b);
        assert(a + b =~= b);
        assert(all[0] == e);
    } else {
        lemma_no_expiry(a.drop_first(), e, b);
        assert(all.drop_first() =~= a.drop_first() + seq![e] + b);
        assert((a + b).drop_first() =~= a.drop_first() + b);
        assert(all[0] == a[0] && (a + b)[0] == a[0]);
    }
}

/// Law: an event with another action, wherever it stands, changes no date.
pub proof fn law_other_events(a: Seq<Event>, e: Event, b: Seq<Event>)
    ensures
        e.action != Some("registration"@) ==> dates_of_events(a + seq![e] + b).registered
            == dates_of_events(a + b).registered,
        e.action != Some("last changed"@) ==> dates_of_events(a + seq![e] + b).updated
            == dates_of_events(a + b).updated,
        !(e.action matches Some(t) && occurs_in("expir"@, t)) ==> dates_of_events(
            a + seq![e] + b,
        ).expires == dates_of_events(a + b).expires,
{
    if e.action != Some("registration"@) {
        lemma_other_action(a, e, b, "registration"@);
    }
    if e.action != Some("last changed"@) {
        lemma_other_action(a, e, b, "last changed"@);
    }
    if !is_expiry(e) {
        lemma_no_expiry(a, e, b);
    }
}

/// Law: what an answer says goes by its code: 200 that the domain is taken, 404
/// that it is free, or protected where the body speaks of a block, and any other
/// nothing.
pub proof fn law_code(code: u16, body: Seq<char>)
    ensures
        rdap_status(code, body) is Taken <==> code == 200,
        rdap_status(code, body) is Protected <==> code == 404 && (occurs_in("blocked"@, body)
            || occurs_in("Blocked"@, body)),
        rdap_status(code, body) is Available <==> code == 404 && !occurs_in("blocked"@, body)
            && !occurs_in("Blocked"@, body),
        rdap_status(code, body) is Unknown <==> code != 200 && code != 404,
{
}

/// Law: the dates of a taken domain are those of the events that its answer
/// lists, each with the action and the date that stand there; an answer without
/// such a list gives none.
pub proof fn law_answer_dates(body: Seq<char>)
    ensures
        rdap_status(200, body) matches Status::Taken(dates) && ({
            let items = match json_in_text(body) {
                Some(tree) => elements_of(member_of(tree, "events"@)),
                None => None,
            };
            match items {
                Some(items) => exists|events: Seq<Event>|
                    {
                        &&& dates == #[trigger] dates_of_events(events)
                        &&& events.len() == items.len()
                        &&& forall|i: int|
                            0 <= i < items.len() ==> (#[trigger] events[i]).action == text_in(
                                member_of(items[i], "eventAction"@),
                            ) && events[i].date == text_in(member_of(items[i], "eventDate"@))
                    },
                None => dates.registered is None && dates.updated is None && dates.expires is None,
            }
        }),
{
    if let Some(tree) = json_in_text(body) {
        if let Some(events) = events_in(tree) {
            assert(dates_in_body(body) == dates_of_events(events));
        }
    }
}

/// Law: the registry is asked first, and where it says nothing the address for
/// any registry is asked, for the same domain.
pub proof fn law_fallback(name: Seq<char>, tld: Seq<char>, asked: Seq<char>)
    ensures
        ({
            let any = "https://rdap.org/domain/"@ + (name + seq!['.'] + tld);
            &&& asked != any ==> step_after(name, tld, asked, Status::Unknown) == Step::Ask(any)
            &&& asked == any ==> step_after(name, tld, asked, Status::Unknown) == Step::Done(
                Status::Unknown,
            )
        }),
        rdap_address(name, tld) matches Some(address) ==> first_step(name, tld) == Step::Ask(address),
        rdap_address(name, tld) is None ==> first_step(name, tld) == Step::Done(Status::Unknown),
{
}

} // verus!
