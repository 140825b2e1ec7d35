//! WHOIS: how to ask a registry's server, and what its reply says.

use vstd::prelude::*;
use crate::config::{domain_name, domain_of, whois_host, whois_server};
use crate::dates::{
    date_in_words, first_date, first_prose_date, law_date_between_white, parse_date,
};
use crate::model::{Availability, Dates, DomainDates, Status, either, first_known, text_if_any};
use crate::text::{
    chars_of, contains_text, find_char, first_of, lemma_first_of, lemma_first_of_at,
    lines_of, occurs_in, same_text, split_lines,
    split_words, text_of, texts, trim_text, trimmed, words_of,
};
use crate::unicode::{lowercase, to_lower};

verus! {

/// How to put a question to a WHOIS server.
pub struct WhoisQuestion {
    /// The host and port to connect to.
    pub address: String,
    /// What to send.
    pub query: String,
    /// How many seconds to wait for the connection.
    pub connect_seconds: u64,
    /// The server speaks first, and what it says is not part of the reply.
    pub skip_banner: bool,
}

/// How to put a question to a WHOIS server, as texts.
pub struct Question {
    pub address: Seq<char>,
    pub query: Seq<char>,
    pub connect_seconds: int,
    pub skip_banner: bool,
}

impl View for WhoisQuestion {
    type V = Question;

    open spec fn view(&self) -> Question {
        Question {
            address: self.address@,
            query: self.query@,
            connect_seconds: self.connect_seconds as int,
            skip_banner: self.skip_banner,
        }
    }
}

/// The question for a domain, where its registry has a server. The one of
/// `.co` takes longer to accept a connection and sends a banner first.
pub open spec fn whois_question_of(name: Seq<char>, tld: Seq<char>) -> Option<Question> {
    match whois_host(tld) {
        Some(host) => Some(
            Question {
                address: host + ":43"@,
                query: domain_of(name, tld) + "\r\n"@,
                connect_seconds: if host == "whois.registry.co"@ {
                    8
                } else {
                    4
                },
                skip_banner: host == "whois.registry.co"@,
            },
        ),
        None => None,
    }
}

/// The question for a domain.
pub fn whois_question(name: &str, tld: &str) -> (r: Option<WhoisQuestion>)
    ensures
        r is Some <==> whois_question_of(name@, tld@) is Some,
        r matches Some(q) ==> whois_question_of(name@, tld@) == Some(q@),
{
    match whois_server(tld) {
        Some(host) => {
            let mut address = host.to_owned();
            address.append(":43");
            let mut query = domain_name(name, tld);
            query.append("\r\n");
            let slow = same_text(host, "whois.registry.co");
            let connect_seconds: u64 = if slow {
                8
            } else {
                4
            };
            Some(WhoisQuestion { address, query, connect_seconds, skip_banner: slow })
        },
        None => None,
    }
}

/// A line of a reply, and its lowercase form.
pub struct ReplyLine {
    pub text: String,
    pub lower: String,
}

/// A line of a reply and its lowercase form, as texts.
pub struct Line {
    pub text: Seq<char>,
    pub lower: Seq<char>,
}

impl View for ReplyLine {
    type V = Line;

    open spec fn view(&self) -> Line {
        Line { text: self.text@, lower: self.lower@ }
    }
}

/// The lines of a list as texts.
pub open spec fn line_views(lines: Seq<ReplyLine>) -> Seq<Line> {
    Seq::new(lines.len(), |i: int| lines[i]@)
}

/// The lines of a reply with their lowercase forms.
pub open spec fn lines_in(reply: Seq<char>) -> Seq<Line> {
    let all = lines_of(reply);
    Seq::new(all.len(), |i: int| Line { text: all[i], lower: lowercase(all[i]) })
}

/// The first line whose lowercase form has the keyword in it.
pub open spec fn line_with(lines: Seq<Line>, keyword: Seq<char>) -> Option<Line>
    decreases lines.len(),
{
    if lines.len() == 0 {
        None
    } else if occurs_in(keyword, lines[0].lower) {
        Some(lines[0])
    } else {
        line_with(lines.drop_first(), keyword)
    }
}

/// The date after the first colon of the first line that has the keyword in it.
pub open spec fn field_date(lines: Seq<Line>, keyword: Seq<char>) -> Option<Seq<char>> {
    match line_with(lines, keyword) {
        Some(line) => {
            let i = first_of(line.text, ':');
            if i < line.text.len() {
                first_date(trimmed(line.text.skip(i + 1)))
            } else {
                None
            }
        },
        None => None,
    }
}

/// The dates in the lines of a reply. The registry of `.gg` gives only the date
/// of registration, in prose.
pub open spec fn dates_in_lines(tld: Seq<char>, lines: Seq<Line>) -> Dates {
    if tld == "gg"@ {
        Dates {
            registered: match line_with(lines, "registered on"@) {
                Some(line) => first_prose_date(words_of(line.lower)),
                None => None,
            },
            updated: None,
            expires: None,
        }
    } else {
        Dates {
            registered: either(field_date(lines, "creat"@), field_date(lines, "registered:"@)),
            updated: either(
                field_date(lines, "updat"@),
                either(field_date(lines, "last modified"@), field_date(lines, "changed:"@)),
            ),
            expires: either(
                either(field_date(lines, "expir"@), field_date(lines, "paid-till"@)),
                field_date(lines, "renewal"@),
            ),
        }
    }
}

/// What kind of status a reply gives.
#[derive(Clone, Copy, Debug, PartialEq, Eq, Structural)]
pub enum ReplyKind {
    Taken,
    Available,
    Unknown,
}

/// What kind of status a reply in lowercase gives. That it names a domain
/// comes before everything else: the word "available" also stands in what
/// some servers add to every reply.
pub open spec fn kind_of_reply(lower: Seq<char>) -> ReplyKind {
    if occurs_in("domain name:"@, lower) || occurs_in("domain:"@, lower) {
        ReplyKind::Taken
    } else if occurs_in("no match"@, lower) || occurs_in("not found"@, lower) || occurs_in(
        "no entries found"@,
        lower,
    ) || occurs_in("object does not exist"@, lower) || occurs_in("domain not found"@, lower)
        || occurs_in("available"@, lower) {
        ReplyKind::Available
    } else {
        ReplyKind::Unknown
    }
}

/// What a reply says of a domain.
pub open spec fn whois_status(tld: Seq<char>, reply: Seq<char>) -> Status {
    match kind_of_reply(lowercase(reply)) {
        ReplyKind::Taken => Status::Taken(dates_in_lines(tld, lines_in(reply))),
        ReplyKind::Available => Status::Available,
        ReplyKind::Unknown => Status::Unknown,
    }
}

/// What kind of status a reply in lowercase gives.
pub fn reply_kind(lower: &str) -> (r: ReplyKind)
    ensures
        r == kind_of_reply(lower@),
{
    if contains_text(lower, "domain name:") || contains_text(lower, "domain:") {
        ReplyKind::Taken
    } else if contains_text(lower, "no match") || contains_text(lower, "not found")
        || contains_text(lower, "no entries found") || contains_text(lower, "object does not exist")
        || contains_text(lower, "domain not found") || contains_text(lower, "available") {
        ReplyKind::Available
    } else {
        ReplyKind::Unknown
    }
}

/// The position of the first line whose lowercase form has the keyword in it.
fn find_line(lines: &Vec<ReplyLine>, keyword: &str) -> (r: Option<usize>)
    ensures
        r is Some <==> line_with(line_views(lines@), keyword@) is Some,
        r matches Some(i) ==> i < lines@.len() && line_with(line_views(lines@), keyword@) == Some(
            lines@[i as int]@,
        ),
{
    let ghost all = line_views(lines@);
    let mut i: usize = 0;
    assert(all.skip(0) =~= all);
    while i < lines.len()
        invariant
            all == line_views(lines@),
            i <= lines@.len(),
            line_with(all, keyword@) == line_with(all.skip(i as int), keyword@),
        decreases lines@.len() - i,
    {
        let ghost rest = all.skip(i as int);
        assert(rest[0] == lines@[i as int]@);
        if contains_text(lines[i].lower.as_str(), keyword) {
            return Some(i);
        }
        assert(rest.drop_first() =~= all.skip(i + 1));
        i += 1;
    }
    None
}

/// The date after the first colon of the first line that has the keyword in it.
fn read_field(lines: &Vec<ReplyLine>, keyword: &str) -> (r: Option<String>)
    ensures
        text_if_any(r) == field_date(line_views(lines@), keyword@),
{
    match find_line(lines, keyword) {
        Some(n) => {
            let chars = chars_of(lines[n].text.as_str());
            let ghost text = lines@[n as int].text@;
            assert(text.skip(0) =~= text);
            let i = find_char(chars.as_slice(), 0, ':');
            if i == chars.len() {
                return None;
            }
            let value = text_of(chars.as_slice(), i + 1, chars.len());
            assert(value@ =~= text.skip(i + 1));
            parse_date(trim_text(value.as_str()).as_str())
        },
        None => None,
    }
}

/// The dates in the lines of a reply.
pub fn dates_from_lines(tld: &str, lines: &Vec<ReplyLine>) -> (r: DomainDates)
    ensures
        r@ == dates_in_lines(tld@, line_views(lines@)),
{
    if same_text(tld, "gg") {
        let registered = match find_line(lines, "registered on") {
            Some(i) => date_in_words(&split_words(lines[i].lower.as_str())),
            None => None,
        };
        DomainDates { registered, updated: None, expires: None }
    } else {
        DomainDates {
            registered: first_known(read_field(lines, "creat"), read_field(lines, "registered:")),
            updated: first_known(
                read_field(lines, "updat"),
                first_known(read_field(lines, "last modified"), read_field(lines, "changed:")),
            ),
            expires: first_known(
                first_known(read_field(lines, "expir"), read_field(lines, "paid-till")),
                read_field(lines, "renewal"),
            ),
        }
    }
}

/// The lines of a reply with their lowercase forms.
fn reply_lines(reply: &str) -> (r: Vec<ReplyLine>)
    ensures
        line_views(r@) == lines_in(reply@),
{
    let all = split_lines(reply);
    let mut lines: Vec<ReplyLine> = Vec::new();
    let mut i: usize = 0;
    while i < all.len()
        invariant
            i == lines@.len(),
            i <= all@.len(),
            forall|j: int|
                0 <= j < i ==> (#[trigger] lines@[j])@ == (Line {
                    text: all@[j]@,
                    lower: lowercase(all@[j]@),
                }),
        decreases all@.len() - i,
    {
        let line = ReplyLine { text: all[i].clone(), lower: to_lower(all[i].as_str()) };
        lines.push(line);
        i += 1;
    }
    proof {
        assert forall|j: int| 0 <= j < all@.len() implies lines_of(reply@)[j] == #[trigger] all@[j]@ by {
            assert(texts(all@)[j] == all@[j]@);
        }
        assert(lines_of(reply@).len() == all@.len());
        assert(line_views(lines@) =~= lines_in(reply@));
    }
    lines
}

/// What a reply says of a domain.
pub fn read_whois_reply(tld: &str, reply: &str) -> (r: Availability)
    ensures
        r@ == whois_status(tld@, reply@),
{
    match reply_kind(to_lower(reply).as_str()) {
        ReplyKind::Taken => Availability::Taken(dates_from_lines(tld, &reply_lines(reply))),
        ReplyKind::Available => Availability::Available,
        ReplyKind::Unknown => Availability::Unknown,
    }
}

/// Law: a reply that names a domain says that it is taken, whatever else it
/// says: also where the word "available" stands in it.
pub proof fn law_named_domain_is_taken(tld: Seq<char>, reply: Seq<char>)
    ensures
        whois_status(tld, reply) is Taken <==> occurs_in("domain name:"@, lowercase(reply))
            || occurs_in("domain:"@, lowercase(reply)),
        !(whois_status(tld, reply) is Protected),
{
}

/// Line `i` is the first whose lowercase form has the word in it.
pub open spec fn is_first_with(lines: Seq<Line>, word: Seq<char>, i: int) -> bool {
    &&& 0 <= i < lines.len()
    &&& occurs_in(word, lines[i].lower)
    &&& forall|j: int| 0 <= j < i ==> !occurs_in(word, (#[trigger] lines[j]).lower)
}

/// A line says a date: the first one after its first colon. A line without a
/// colon says none.
pub open spec fn says(line: Line, date: Option<Seq<char>>) -> bool {
    ||| !line.text.contains(':') && date is None
    ||| exists|before: Seq<char>, after: Seq<char>|
        {
            &&& line.text == #[trigger] (before + seq![':'] + after)
            &&& !before.contains(':')
            &&& date == first_date(after)
        }
}

/// What lines say under a word: what the first line with the word in it says,
/// and nothing where there is no such line.
pub open spec fn lines_say(lines: Seq<Line>, word: Seq<char>, date: Option<Seq<char>>) -> bool {
    ||| exists|i: int| #[trigger] is_first_with(lines, word, i) && says(lines[i], date)
    ||| date is None && forall|i: int|
        0 <= i < lines.len() ==> !occurs_in(word, (#[trigger] lines[i]).lower)
}

/// The first line with a word in it is the one that is found.
proof fn lemma_line_with(lines: Seq<Line>, word: Seq<char>, i: int)
    requires
        is_first_with(lines, word, i),
    ensures
        line_with(lines, word) == Some(lines[i]),
    decreases lines.len(),
{
    if i > 0 {
        let rest = lines.drop_first();
        assert(!occurs_in(word, lines[0].lower));
        assert(is_first_with(rest, word, i - 1)) by {
            assert forall|j: int| 0 <= j < i - 1 implies !occurs_in(
                word,
                (#[trigger] rest[j]).lower,
            ) by {
                assert(rest[j] == lines[j + 1]);
            }
        }
        lemma_line_with(rest, word, i - 1);
    }
}

/// Where no line has a word in it, none is found.
proof fn lemma_no_line_with(lines: Seq<Line>, word: Seq<char>)
    requires
        forall|i: int| 0 <= i < lines.len() ==> !occurs_in(word, (#[trigger] lines[i]).lower),
    ensures
        line_with(lines, word) is None,
    decreases lines.len(),
{
    if lines.len() > 0 {
        let rest = lines.drop_first();
        assert(!occurs_in(word, lines[0].lower));
        assert forall|j: int| 0 <= j < rest.len() implies !occurs_in(
            word,
            (#[trigger] rest[j]).lower,
        ) by {
            assert(rest[j] == lines[j + 1]);
        }
        lemma_no_line_with(rest, word);
    }
}

/// The date of a field is what the lines say under its word.
proof fn lemma_field_says(lines: Seq<Line>, word: Seq<char>, date: Option<Seq<char>>)
    requires
        lines_say(lines, word, date),
    ensures
        field_date(lines, word) == date,
{
    if exists|i: int| #[trigger] is_first_with(lines, word, i) && says(lines[i], date) {
        let i = choose|i: int| #[trigger] is_first_with(lines, word, i) && says(lines[i], date);
        lemma_line_with(lines, word, i);
        let text = lines[i].text;
        lemma_first_of(text, ':');
        if text.contains(':') {
            let (before, after) = choose|before: Seq<char>, after: Seq<char>|
                {
                    &&& text == #[trigger] (before + seq![':'] + after)
                    &&& !before.contains(':')
                    &&& date == first_date(after)
                };
            let n = before.len() as int;
            assert(text[n] == ':');
            assert forall|j: int| 0 <= j < n implies text[j] != ':' by {
                assert(before.contains(before[j]));
            }
            lemma_first_of_at(text, ':', n);
            assert(text.skip(n + 1) =~= after);
            law_date_between_white(after);
        } else {
            if first_of(text, ':') < text.len() {
                assert(text.contains(text[first_of(text, ':')]));
            }
            if exists|before: Seq<char>, after: Seq<char>|
                text == #[trigger] (before + seq![':'] + after) {
                let (before, after) = choose|before: Seq<char>, after: Seq<char>|
                    text == #[trigger] (before + seq![':'] + after);
                assert(text[before.len() as int] == ':');
            }
        }
    } else {
        lemma_no_line_with(lines, word);
    }
}

/// Law: outside `.gg`, the dates of a reply are what its lines say: the
/// registration under `creat`, else under `registered:`; the update under
/// `updat`, else under `last modified`, else under `changed:`; the expiry under
/// `expir`, else under `paid-till`, else under `renewal`. Of each word the first
/// line that has it decides alone.
pub proof fn law_dates_said(
    tld: Seq<char>,
    lines: Seq<Line>,
    registered: (Option<Seq<char>>, Option<Seq<char>>),
    updated: (Option<Seq<char>>, Option<Seq<char>>, Option<Seq<char>>),
    expires: (Option<Seq<char>>, Option<Seq<char>>, Option<Seq<char>>),
)
    requires
        tld != "gg"@,
        lines_say(lines, "creat"@, registered.0),
        lines_say(lines, "registered:"@, registered.1),
        lines_say(lines, "updat"@, updated.0),
        lines_say(lines, "last modified"@, updated.1),
        lines_say(lines, "changed:"@, updated.2),
        lines_say(lines, "expir"@, expires.0),
        lines_say(lines, "paid-till"@, expires.1),
        lines_say(lines, "renewal"@, expires.2),
    ensures
        dates_in_lines(tld, lines).registered == if registered.0 is Some {
            registered.0
        } else {
            registered.1
        },
        dates_in_lines(tld, lines).updated == if updated.0 is Some {
            updated.0
        } else if updated.1 is Some {
            updated.1
        } else {
            updated.2
        },
        dates_in_lines(tld, lines).expires == if expires.0 is Some {
            expires.0
        } else if expires.1 is Some {
            expires.1
        } else {
            expires.2
        },
{
    lemma_field_says(lines, "creat"@, registered.0);
    lemma_field_says(lines, "registered:"@, registered.1);
    lemma_field_says(lines, "updat"@, updated.0);
    lemma_field_says(lines, "last modified"@, updated.1);
    lemma_field_says(lines, "changed:"@, updated.2);
    lemma_field_says(lines, "expir"@, expires.0);
    lemma_field_says(lines, "paid-till"@, expires.1);
    lemma_field_says(lines, "renewal"@, expires.2);
}

/// Law: outside `.gg`, the first line with the word of a date in it that says a
/// date settles that date, whatever lines follow.
pub proof fn law_first_line_settles(
    tld: Seq<char>,
    lines: Seq<Line>,
    more: Seq<Line>,
    i: int,
    date: Seq<char>,
)
    requires
        tld != "gg"@,
        0 <= i < lines.len(),
        says(lines[i], Some(date)),
    ensures
        is_first_with(lines, "creat"@, i) ==> dates_in_lines(tld, lines + more).registered == Some(
            date,
        ),
        is_first_with(lines, "updat"@, i) ==> dates_in_lines(tld, lines + more).updated == Some(
            date,
        ),
        is_first_with(lines, "expir"@, i) ==> dates_in_lines(tld, lines + more).expires == Some(
            date,
        ),
{
    lemma_first_line_stays(lines, more, "creat"@, i, date);
    lemma_first_line_stays(lines, more, "updat"@, i, date);
    lemma_first_line_stays(lines, more, "expir"@, i, date);
}

/// What the first line with a word says is said with more lines, too.
proof fn lemma_first_line_stays(
    lines: Seq<Line>,
    more: Seq<Line>,
    word: Seq<char>,
    i: int,
    date: Seq<char>,
)
    requires
        0 <= i < lines.len(),
        says(lines[i], Some(date)),
    ensures
        is_first_with(lines, word, i) ==> field_date(lines + more, word) == Some(date),
{
    if is_first_with(lines, word, i) {
        let all = lines + more;
        assert(all[i] == lines[i]);
        assert forall|j: int| 0 <= j < i implies !occurs_in(word, (#[trigger] all[j]).lower) by {
            assert(all[j] == lines[j]);
        }
        assert(is_first_with(all, word, i));
        assert(lines_say(all, word, Some(date)));
        lemma_field_says(all, word, Some(date));
    }
}

/// Law: of a `.gg` domain only the registration is known: the date that the
/// first line with `registered on` in it writes in prose.
pub proof fn law_gg(lines: Seq<Line>, i: int)
    ensures
        dates_in_lines("gg"@, lines).updated is None,
        dates_in_lines("gg"@, lines).expires is None,
        is_first_with(lines, "registered on"@, i) ==> dates_in_lines("gg"@, lines).registered
            == first_prose_date(words_of(lines[i].lower)),
        (forall|j: int|
            0 <= j < lines.len() ==> !occurs_in("registered on"@, (#[trigger] lines[j]).lower))
            ==> dates_in_lines("gg"@, lines).registered is None,
{
    if is_first_with(lines, "registered on"@, i) {
        lemma_line_with(lines, "registered on"@, i);
    }
    if forall|j: int|
        0 <= j < lines.len() ==> !occurs_in("registered on"@, (#[trigger] lines[j]).lower) {
        lemma_no_line_with(lines, "registered on"@);
    }
}

/// Law: what a reply says goes by its lowercase form alone. One that names no
/// domain says that it is available exactly where it has one of the words for
/// that, and nothing else; and the dates of a taken one are those of its lines.
pub proof fn law_reply(tld: Seq<char>, reply: Seq<char>)
    ensures
        ({
            let lower = lowercase(reply);
            let named = occurs_in("domain:"@, lower) || occurs_in("domain name:"@, lower);
            let free = occurs_in("no match"@, lower) || occurs_in("not found"@, lower) || occurs_in(
                "no entries found"@,
                lower,
            ) || occurs_in("object does not exist"@, lower) || occurs_in(
                "domain not found"@,
                lower,
            ) || occurs_in("available"@, lower);
            &&& whois_status(tld, reply) is Available <==> !named && free
            &&& whois_status(tld, reply) is Unknown <==> !named && !free
            &&& whois_status(tld, reply) is Taken <==> named
        }),
        whois_status(tld, reply) matches Status::Taken(dates) ==> exists|lines: Seq<Line>|
            {
                &&& dates == #[trigger] dates_in_lines(tld, lines)
                &&& lines.len() == lines_of(reply).len()
                &&& forall|i: int|
                    0 <= i < lines.len() ==> (#[trigger] lines[i]).text == lines_of(reply)[i]
                        && lines[i].lower == lowercase(lines_of(reply)[i])
            },
{
    if let Status::Taken(dates) = whois_status(tld, reply) {
        let lines = lines_in(reply);
        assert(dates == dates_in_lines(tld, lines));
    }
}

/// Law: a server is asked for the domain on a line of its own, at the port of
/// WHOIS. One server is slow and speaks first, and no other.
pub proof fn law_question(name: Seq<char>, tld: Seq<char>)
    ensures
        whois_question_of(name, tld) is Some <==> whois_host(tld) is Some,
        whois_question_of(name, tld) matches Some(q) ==> {
            &&& q.query == name + seq!['.'] + tld + seq!['\r', '\n']
            &&& whois_host(tld) matches Some(host) && q.address == host + seq![':', '4', '3']
            &&& q.skip_banner <==> whois_host(tld) == Some("whois.registry.co"@)
            &&& q.skip_banner ==> q.connect_seconds == 8
            &&& !q.skip_banner ==> q.connect_seconds == 4
        },
{
    reveal_strlit(":43");
    reveal_strlit("\r\n");
    assert(":43"@ =~= seq![':', '4', '3']);
    assert("\r\n"@ =~= seq!['\r', '\n']);
}

/// Law: of what a reply in lowercase says, that it names a domain comes first,
/// and then the words for a free one; any other says nothing.
pub proof fn law_reply_kind(lower: Seq<char>)
    ensures
        ({
            let named = occurs_in("domain:"@, lower) || occurs_in("domain name:"@, lower);
            let free = occurs_in("no match"@, lower) || occurs_in("not found"@, lower) || occurs_in(
                "no entries found"@,
                lower,
            ) || occurs_in("object does not exist"@, lower) || occurs_in(
                "domain not found"@,
                lower,
            ) || occurs_in("available"@, lower);
            &&& kind_of_reply(lower) == ReplyKind::Taken <==> named
            &&& kind_of_reply(lower) == ReplyKind::Available <==> !named && free
            &&& kind_of_reply(lower) == ReplyKind::Unknown <==> !named && !free
        }),
{
}

} // verus!
