//! How the result for a domain is shown.

use vstd::prelude::*;
use crate::config::{after_last_dot, is_likely_premium, likely_premium, price_of, tld_of, tld_price};
use crate::calendar::{days_from_epoch, is_calendar_date};
use crate::dates::{
    clock_seconds, countable, day_count_by, day_count_defined, days_by_clock, law_days_counted,
    writes,
};
use crate::model::{Availability, Dates, Status};
use crate::paint::{
    Piece, Span, Style, law_plain_text_of_both, lemma_plain_of_four, piece, pieces, plain_text,
    render, shows_line, span,
};
use crate::text::{pad_right, padded};

verus! {

/// What is shown of an available domain after its name: the price, and a
/// warning where it is likely to be sold as premium.
pub open spec fn offer_pieces(domain: Seq<char>) -> Seq<Piece> {
    let price = match price_of(after_last_dot(domain)) {
        Some(p) => seq![piece("  "@ + p + "/yr."@, Style::Rgb(100, 210, 210))],
        None => seq![],
    };
    if likely_premium(domain) {
        price.push(piece("  ⚠ likely premium"@, Style::Rgb(220, 170, 60)))
    } else {
        price
    }
}

/// A date with a label before it, if there is a date.
pub open spec fn labelled(label: Seq<char>, date: Option<Seq<char>>) -> Seq<char> {
    match date {
        Some(d) => label + d,
        None => seq![],
    }
}

/// The colour of an expiry: one for less than 90 days, one for less than a
/// year, and one for more or where the days are not known.
pub open spec fn expiry_style(days: Option<int>) -> Style {
    match days {
        Some(n) => if n < 90 {
            Style::Rgb(220, 100, 60)
        } else if n < 365 {
            Style::Rgb(200, 170, 60)
        } else {
            Style::Rgb(110, 100, 150)
        },
        None => Style::Rgb(110, 100, 150),
    }
}

/// What is shown of a taken domain after its name: its dates.
pub open spec fn date_pieces(dates: Dates, days: Option<int>) -> Seq<Piece> {
    if dates.registered is None && dates.updated is None && dates.expires is None {
        seq![]
    } else {
        let known = piece(
            labelled("  reg "@, dates.registered) + labelled("  upd "@, dates.updated),
            Style::Rgb(110, 100, 150),
        );
        match dates.expires {
            Some(d) => seq![known, piece("  exp "@ + d, expiry_style(days))],
            None => seq![known],
        }
    }
}

/// A mark and a name at the start of a line.
pub open spec fn marked(mark: Seq<char>, mark_style: Style, name: Seq<char>, style: Style) -> Seq<
    Piece,
> {
    seq![
        piece("  "@, Style::Plain),
        piece(mark, mark_style),
        piece("  "@, Style::Plain),
        piece(name, style),
    ]
}

/// The line for a domain, its name taking `pad` characters at least. `days` is
/// how many days are left until the domain expires, where that is known.
pub open spec fn result_line(
    domain: Seq<char>,
    status: Status,
    pad: nat,
    days: Option<int>,
) -> Seq<Piece> {
    let name = padded(domain, pad);
    match status {
        Status::Available => marked("✓"@, Style::BrightGreenBold, name, Style::BrightWhiteBold)
            + offer_pieces(domain),
        Status::Protected => marked("★"@, Style::BrightYellowBold, name, Style::Rgb(60, 60, 80))
            + seq![
            piece("  "@, Style::Plain),
            piece("brand protected"@, Style::Rgb(80, 80, 100)),
        ],
        Status::Unknown => marked("?"@, Style::BrightYellow, name, Style::Rgb(100, 100, 80)),
        Status::Taken(dates) => marked("✗"@, Style::Rgb(70, 70, 90), name, Style::Rgb(60, 60, 80))
            + date_pieces(dates, days),
    }
}

/// When a domain expires, as far as that is known.
pub open spec fn expiry_of(status: Status) -> Option<Seq<char>> {
    match status {
        Status::Taken(dates) => dates.expires,
        _ => None,
    }
}

/// How many days are left until a domain expires, by what a clock reads.
pub open spec fn expiry_days(status: Status, clock: Option<u64>) -> Option<int> {
    match expiry_of(status) {
        Some(d) => day_count_by(d, clock),
        None => None,
    }
}

/// The expiry of a domain, if it has one, is a date to which days can be
/// counted.
pub open spec fn expiry_countable(status: Status) -> bool {
    expiry_of(status) matches Some(d) ==> countable(d)
}

/// Adding a span to a line adds its piece.
pub proof fn lemma_pieces_push(spans: Seq<Span>, s: Span)
    ensures
        pieces(spans.push(s)) == pieces(spans).push(s@),
{
    assert(pieces(spans.push(s)) =~= pieces(spans).push(s@));
}

/// A mark and a name at the start of a line.
pub fn mark_line(mark: &str, mark_style: Style, name: &str, style: Style) -> (r: Vec<Span>)
    ensures
        pieces(r@) == marked(mark@, mark_style, name@, style),
{
    let mut line: Vec<Span> = Vec::new();
    line.push(span("  ", Style::Plain));
    line.push(span(mark, mark_style));
    line.push(span("  ", Style::Plain));
    line.push(span(name, style));
    assert(pieces(line@) =~= marked(mark@, mark_style, name@, style));
    line
}

/// A label and a date after it.
fn with_label(label: &str, date: &str) -> (r: String)
    ensures
        r@ == label@ + date@,
{
    let mut out = label.to_owned();
    out.append(date);
    out
}

/// The line for a domain, `days` days before it expires where that is known.
pub fn result_spans(
    domain: &str,
    availability: &Availability,
    pad: usize,
    days: Option<i64>,
) -> (r: Vec<Span>)
    ensures
        pieces(r@) == result_line(
            domain@,
            availability@,
            pad as nat,
            match days {
                Some(n) => Some(n as int),
                None => None,
            },
        ),
{
    let name = pad_right(domain, pad);
    match availability {
        Availability::Available => {
            let mut line = mark_line(
                "✓",
                Style::BrightGreenBold,
                name.as_str(),
                Style::BrightWhiteBold,
            );
            let ghost start = pieces(line@);
            match tld_price(tld_of(domain).as_str()) {
                Some(p) => {
                    let mut price = with_label("  ", p);
                    price.append("/yr.");
                    let s = Span { text: price, style: Style::Rgb(100, 210, 210) };
                    proof {
                        lemma_pieces_push(line@, s);
                    }
                    line.push(s);
                },
                None => {},
            }
            if is_likely_premium(domain) {
                let s = span("  ⚠ likely premium", Style::Rgb(220, 170, 60));
                proof {
                    lemma_pieces_push(line@, s);
                }
                line.push(s);
            }
            assert(pieces(line@) =~= start + offer_pieces(domain@));
            line
        },
        Availability::Protected => {
            let mut line = mark_line(
                "★",
                Style::BrightYellowBold,
                name.as_str(),
                Style::Rgb(60, 60, 80),
            );
            let ghost start = line@;
            line.push(span("  ", Style::Plain));
            line.push(span("brand protected", Style::Rgb(80, 80, 100)));
            assert(pieces(line@) =~= pieces(start) + seq![
                piece("  "@, Style::Plain),
                piece("brand protected"@, Style::Rgb(80, 80, 100)),
            ]);
            line
        },
        Availability::Unknown => mark_line(
            "?",
            Style::BrightYellow,
            name.as_str(),
            Style::Rgb(100, 100, 80),
        ),
        Availability::Taken(dates) => {
            let mut line = mark_line(
                "✗",
                Style::Rgb(70, 70, 90),
                name.as_str(),
                Style::Rgb(60, 60, 80),
            );
            let ghost start = line@;
            if dates.registered.is_none() && dates.updated.is_none() && dates.expires.is_none() {
                assert(pieces(line@) =~= pieces(start) + seq![]);
                return line;
            }
            let mut info = String::new();
            match &dates.registered {
                Some(d) => info.append(with_label("  reg ", d.as_str()).as_str()),
                None => {},
            }
            match &dates.updated {
                Some(d) => info.append(with_label("  upd ", d.as_str()).as_str()),
                None => {},
            }
            assert(info@ =~= labelled("  reg "@, dates@.registered) + labelled(
                "  upd "@,
                dates@.updated,
            ));
            line.push(Span { text: info, style: Style::Rgb(110, 100, 150) });
            match &dates.expires {
                Some(d) => {
                    let style = match days {
                        Some(n) => if n < 90 {
                            Style::Rgb(220, 100, 60)
                        } else if n < 365 {
                            Style::Rgb(200, 170, 60)
                        } else {
                            Style::Rgb(110, 100, 150)
                        },
                        None => Style::Rgb(110, 100, 150),
                    };
                    line.push(Span { text: with_label("  exp ", d.as_str()), style });
                },
                None => {},
            }
            proof {
                let n = match days {
                    Some(n) => Some(n as int),
                    None => None,
                };
                assert(pieces(line@) =~= pieces(start) + date_pieces(dates@, n));
            }
            line
        },
    }
}

/// How many days are left until a domain expires, by what a clock reads.
pub fn days_to_expiry(availability: &Availability, clock: Option<u64>) -> (r: Option<i64>)
    requires
        expiry_of(availability@) matches Some(d) ==> (clock matches Some(seconds)
            ==> day_count_defined(d, seconds)),
    ensures
        r is Some <==> expiry_days(availability@, clock) is Some,
        r matches Some(n) ==> expiry_days(availability@, clock) == Some(n as int),
{
    match availability {
        Availability::Taken(dates) => match &dates.expires {
            Some(d) => days_by_clock(d.as_str(), clock),
            None => None,
        },
        _ => None,
    }
}

/// The line for a domain, as it is shown when a clock reads what is given.
pub fn format_result_at(
    domain: &str,
    availability: &Availability,
    pad: usize,
    clock: Option<u64>,
) -> (r: String)
    requires
        expiry_of(availability@) matches Some(d) ==> (clock matches Some(seconds)
            ==> day_count_defined(d, seconds)),
    ensures
        shows_line(
            result_line(domain@, availability@, pad as nat, expiry_days(availability@, clock)),
            r@,
        ),
{
    let days = days_to_expiry(availability, clock);
    let line = result_spans(domain, availability, pad, days);
    render(&line)
}

/// The line for a domain, as it is shown today: `format_result_at` what the
/// system clock reads.
pub fn format_result(domain: &str, availability: &Availability, pad: usize) -> (r: String)
    requires
        expiry_countable(availability@),
    ensures
        exists|clock: Option<u64>|
            shows_line(
                result_line(
                    domain@,
                    availability@,
                    pad as nat,
                    #[trigger] expiry_days(availability@, clock),
                ),
                r@,
            ),
{
    format_result_at(domain, availability, pad, clock_seconds())
}

/// The text of a mark and a name at the start of a line.
proof fn lemma_marked_text(mark: Seq<char>, m: Style, name: Seq<char>, s: Style)
    ensures
        plain_text(marked(mark, m, name, s)) == "  "@ + mark + "  "@ + name,
        marked(mark, m, name, s).len() == 4,
{
    lemma_plain_of_four(marked(mark, m, name, s));
}

/// The texts of one piece and of two.
proof fn lemma_short_texts(a: Piece, b: Piece)
    ensures
        plain_text(seq![]) == Seq::<char>::empty(),
        plain_text(seq![a]) == a.text,
        plain_text(seq![a, b]) == a.text + b.text,
{
    reveal_with_fuel(plain_text, 3);
    let one = seq![a];
    let two = seq![a, b];
    assert(one.drop_last() =~= seq![]);
    assert(two.drop_last() =~= one);
    assert(plain_text(one) =~= a.text);
}

/// Law: the line for an available domain shows its name, filled up, and after it
/// the price of its top-level domain, if it has one, and a warning exactly where
/// it is likely premium.
pub proof fn law_available_line(domain: Seq<char>, pad: nat, days: Option<int>)
    ensures
        plain_text(result_line(domain, Status::Available, pad, days)) == "  "@ + "✓"@ + "  "@
            + padded(domain, pad) + (match price_of(after_last_dot(domain)) {
            Some(p) => "  "@ + p + "/yr."@,
            None => seq![],
        }) + if likely_premium(domain) {
            "  ⚠ likely premium"@
        } else {
            seq![]
        },
{
    let start = marked(
        "✓"@,
        Style::BrightGreenBold,
        padded(domain, pad),
        Style::BrightWhiteBold,
    );
    let more = offer_pieces(domain);
    lemma_marked_text("✓"@, Style::BrightGreenBold, padded(domain, pad), Style::BrightWhiteBold);
    law_plain_text_of_both(start, more);
    let warning = piece("  ⚠ likely premium"@, Style::Rgb(220, 170, 60));
    let price = match price_of(after_last_dot(domain)) {
        Some(p) => "  "@ + p + "/yr."@,
        None => seq![],
    };
    let offer = piece(price, Style::Rgb(100, 210, 210));
    lemma_short_texts(offer, warning);
    lemma_short_texts(warning, offer);
    let text = "  "@ + "✓"@ + "  "@ + padded(domain, pad);
    if price_of(after_last_dot(domain)) is Some {
        if likely_premium(domain) {
            assert(more =~= seq![offer, warning]);
            assert(text + (price + warning.text) =~= text + price + warning.text);
        } else {
            assert(more =~= seq![offer]);
            assert(text + price =~= text + price + seq![]);
        }
    } else {
        if likely_premium(domain) {
            assert(more =~= seq![warning]);
            assert(text + warning.text =~= text + price + warning.text);
        } else {
            assert(more =~= seq![]);
            assert(text + seq![] =~= text + price + seq![]);
        }
    }
}

/// Law: the line for a taken domain shows its name, filled up, and after it the
/// dates that are known, each behind its label: the registration, the update and
/// the expiry.
pub proof fn law_taken_line(domain: Seq<char>, dates: Dates, pad: nat, days: Option<int>)
    ensures
        plain_text(result_line(domain, Status::Taken(dates), pad, days)) == "  "@ + "✗"@ + "  "@
            + padded(domain, pad) + (match dates.registered {
            Some(d) => "  reg "@ + d,
            None => seq![],
        }) + (match dates.updated {
            Some(d) => "  upd "@ + d,
            None => seq![],
        }) + match dates.expires {
            Some(d) => "  exp "@ + d,
            None => seq![],
        },
{
    let name = padded(domain, pad);
    let start = marked("✗"@, Style::Rgb(70, 70, 90), name, Style::Rgb(60, 60, 80));
    let more = date_pieces(dates, days);
    lemma_marked_text("✗"@, Style::Rgb(70, 70, 90), name, Style::Rgb(60, 60, 80));
    law_plain_text_of_both(start, more);
    let r = match dates.registered {
        Some(d) => "  reg "@ + d,
        None => seq![],
    };
    let u = match dates.updated {
        Some(d) => "  upd "@ + d,
        None => seq![],
    };
    let e = match dates.expires {
        Some(d) => "  exp "@ + d,
        None => seq![],
    };
    let text = "  "@ + "✗"@ + "  "@ + name;
    let known = piece(r + u, Style::Rgb(110, 100, 150));
    let expiry = piece(e, expiry_style(days));
    lemma_short_texts(known, expiry);
    if dates.registered is None && dates.updated is None && dates.expires is None {
        assert(more =~= seq![]);
        assert(text + seq![] =~= text + r + u + e);
    } else if dates.expires is Some {
        assert(more =~= seq![known, expiry]);
        assert(text + (r + u + e) =~= text + r + u + e);
    } else {
        assert(more =~= seq![known]);
        assert(text + (r + u) =~= text + r + u + e);
    }
}

/// Law: the lines for the other domains show the name, filled up, and of a
/// protected one that it is.
pub proof fn law_other_lines(domain: Seq<char>, pad: nat, days: Option<int>)
    ensures
        plain_text(result_line(domain, Status::Unknown, pad, days)) == "  "@ + "?"@ + "  "@
            + padded(domain, pad),
        plain_text(result_line(domain, Status::Protected, pad, days)) == "  "@ + "★"@ + "  "@
            + padded(domain, pad) + "  "@ + "brand protected"@,
{
    let name = padded(domain, pad);
    lemma_marked_text("?"@, Style::BrightYellow, name, Style::Rgb(100, 100, 80));
    lemma_marked_text("★"@, Style::BrightYellowBold, name, Style::Rgb(60, 60, 80));
    let a = piece("  "@, Style::Plain);
    let b = piece("brand protected"@, Style::Rgb(80, 80, 100));
    lemma_short_texts(a, b);
    law_plain_text_of_both(
        marked("★"@, Style::BrightYellowBold, name, Style::Rgb(60, 60, 80)),
        seq![a, b],
    );
    let text = "  "@ + "★"@ + "  "@ + name;
    assert(text + (a.text + b.text) =~= text + a.text + b.text);
}

/// Law: each status has a mark and a name in colours of its own.
pub proof fn law_result_styles(domain: Seq<char>, status: Status, pad: nat, days: Option<int>)
    ensures
        ({
            let line = result_line(domain, status, pad, days);
            let (mark, name) = match status {
                Status::Available => (Style::BrightGreenBold, Style::BrightWhiteBold),
                Status::Protected => (Style::BrightYellowBold, Style::Rgb(60, 60, 80)),
                Status::Unknown => (Style::BrightYellow, Style::Rgb(100, 100, 80)),
                Status::Taken(_) => (Style::Rgb(70, 70, 90), Style::Rgb(60, 60, 80)),
            };
            &&& line.len() >= 4
            &&& line[0].style == Style::Plain
            &&& line[1].style == mark
            &&& line[2].style == Style::Plain
            &&& line[3].style == name
            &&& line[3].text == padded(domain, pad)
            &&& status is Available && price_of(after_last_dot(domain)) is Some ==> line[4].style
                == Style::Rgb(100, 210, 210)
            &&& status is Available && likely_premium(domain) ==> line[line.len() - 1].style
                == Style::Rgb(220, 170, 60)
            &&& status is Protected ==> line[4].style == Style::Plain && line[5].style
                == Style::Rgb(80, 80, 100)
        }),
{
}

/// Law: the expiry has one colour below ninety days, one from there below a
/// year, and one from there on or where the days are not known.
pub proof fn law_expiry_colour(
    domain: Seq<char>,
    dates: Dates,
    pad: nat,
    days: Option<int>,
    d: Seq<char>,
)
    requires
        dates.expires == Some(d),
    ensures
        ({
            let line = result_line(domain, Status::Taken(dates), pad, days);
            let label = line[line.len() - 1];
            &&& line.len() == 6
            &&& label.text == "  exp "@ + d
            &&& days is Some && days->0 < 90 ==> label.style == Style::Rgb(220, 100, 60)
            &&& days is Some && 90 <= days->0 < 365 ==> label.style == Style::Rgb(200, 170, 60)
            &&& days is Some && days->0 >= 365 ==> label.style == Style::Rgb(110, 100, 150)
            &&& days is None ==> label.style == Style::Rgb(110, 100, 150)
            &&& line[4].style == Style::Rgb(110, 100, 150)
        }),
{
}

/// Law: the days that are left are those between today and the expiry of a taken
/// domain in the calendar; there are none for a domain without an expiry, nor
/// where the clock reads nothing.
pub proof fn law_days_left(
    status: Status,
    dates: Dates,
    d: Seq<char>,
    date: (int, int, int),
    seconds: u64,
    clock: Option<u64>,
)
    requires
        writes(d, date.0, date.1, date.2),
        is_calendar_date(date.0, date.1, date.2),
        seconds <= i64::MAX,
    ensures
        status == Status::Taken(dates) && dates.expires == Some(d) ==> expiry_days(
            status,
            Some(seconds),
        ) == Some(days_from_epoch(date.0, date.1, date.2) - seconds as int / 86400),
        status == Status::Taken(dates) && dates.expires is None ==> expiry_days(status, clock)
            is None,
        !(status is Taken) ==> expiry_days(status, clock) is None,
        expiry_days(status, None) is None,
{
    law_days_counted(d, date.0, date.1, date.2, seconds);
}

} // verus!
