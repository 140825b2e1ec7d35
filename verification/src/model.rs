//! What is known of a domain, and what the watchlist remembers of one.

use vstd::prelude::*;

verus! {

/// The characters of a text that may be missing.
pub open spec fn text_if_any(t: Option<String>) -> Option<Seq<char>> {
    match t {
        Some(s) => Some(s@),
        None => None,
    }
}

/// The first of two texts that is there.
pub open spec fn either(a: Option<Seq<char>>, b: Option<Seq<char>>) -> Option<Seq<char>> {
    if a is Some {
        a
    } else {
        b
    }
}

/// The first of two texts that is there.
pub fn first_known(a: Option<String>, b: Option<String>) -> (r: Option<String>)
    ensures
        text_if_any(r) == either(text_if_any(a), text_if_any(b)),
{
    match a {
        Some(s) => Some(s),
        None => b,
    }
}

/// A domain on the watchlist, and the status that was last seen of it.
#[derive(Debug)]
pub struct WatchEntry {
    pub domain: String,
    pub last_status: String,
}

/// A watchlist entry as texts.
pub struct Watched {
    pub domain: Seq<char>,
    pub last_status: Seq<char>,
}

impl View for WatchEntry {
    type V = Watched;

    open spec fn view(&self) -> Watched {
        Watched { domain: self.domain@, last_status: self.last_status@ }
    }
}

impl Clone for WatchEntry {
    fn clone(&self) -> (r: Self)
        ensures
            r == *self,
    {
        WatchEntry { domain: self.domain.clone(), last_status: self.last_status.clone() }
    }
}

/// The dates of a registration, as far as a source publishes them.
#[derive(Debug)]
pub struct DomainDates {
    pub registered: Option<String>,
    pub updated: Option<String>,
    pub expires: Option<String>,
}

/// The dates of a registration as texts.
pub struct Dates {
    pub registered: Option<Seq<char>>,
    pub updated: Option<Seq<char>>,
    pub expires: Option<Seq<char>>,
}

/// No date is known.
pub open spec fn no_dates() -> Dates {
    Dates { registered: None, updated: None, expires: None }
}

impl View for DomainDates {
    type V = Dates;

    open spec fn view(&self) -> Dates {
        Dates {
            registered: text_if_any(self.registered),
            updated: text_if_any(self.updated),
            expires: text_if_any(self.expires),
        }
    }
}

impl Clone for DomainDates {
    fn clone(&self) -> (r: Self)
        ensures
            r == *self,
    {
        DomainDates {
            registered: self.registered.clone(),
            updated: self.updated.clone(),
            expires: self.expires.clone(),
        }
    }
}

impl Default for DomainDates {
    fn default() -> (r: Self)
        ensures
            r@ == no_dates(),
    {
        DomainDates { registered: None, updated: None, expires: None }
    }
}

/// What is known of whether a domain can be registered.
#[derive(Debug)]
pub enum Availability {
    Available,
    Protected,
    Taken(DomainDates),
    Unknown,
}

/// What is known of whether a domain can be registered, with its dates as texts.
pub enum Status {
    Available,
    Protected,
    Taken(Dates),
    Unknown,
}

impl View for Availability {
    type V = Status;

    open spec fn view(&self) -> Status {
        match *self {
            Availability::Available => Status::Available,
            Availability::Protected => Status::Protected,
            Availability::Taken(d) => Status::Taken(d@),
            Availability::Unknown => Status::Unknown,
        }
    }
}

impl Clone for Availability {
    fn clone(&self) -> (r: Self)
        ensures
            r == *self,
    {
        match self {
            Availability::Available => Availability::Available,
            Availability::Protected => Availability::Protected,
            Availability::Taken(d) => Availability::Taken(d.clone()),
            Availability::Unknown => Availability::Unknown,
        }
    }
}

/// The word for a status.
pub open spec fn status_word(s: Status) -> Seq<char> {
    match s {
        Status::Available => "available"@,
        Status::Protected => "protected"@,
        Status::Taken(_) => "taken"@,
        Status::Unknown => "unknown"@,
    }
}

impl Availability {
    /// The word for this status.
    pub fn as_str(&self) -> (r: &'static str)
        ensures
            r@ == status_word(self@),
    {
        match self {
            Availability::Available => "available",
            Availability::Protected => "protected",
            Availability::Taken(_) => "taken",
            Availability::Unknown => "unknown",
        }
    }
}

/// The four words differ, so a word tells which kind of status it stands for.
pub proof fn law_status_words_differ(a: Status, b: Status)
    ensures
        status_word(a) == status_word(b) <==> {
            ||| a is Available && b is Available
            ||| a is Protected && b is Protected
            ||| a is Taken && b is Taken
            ||| a is Unknown && b is Unknown
        },
{
    reveal_strlit("available");
    reveal_strlit("protected");
    reveal_strlit("taken");
    reveal_strlit("unknown");
    assert("available"@[0] == 'a' && "protected"@[0] == 'p' && "taken"@[0] == 't' && "unknown"@[0]
        == 'u');
}

} // verus!
