//! The messages of the program, line by line.

use vstd::prelude::*;
use crate::format::{mark_line, marked};
use crate::model::{Availability, Status, WatchEntry, Watched, status_word};
use crate::paint::{Piece, Span, Style, lemma_plain_of_four, piece, pieces, plain_text, span};
use crate::search::{available_domains, available_of, law_listed, number_text, plain_lines};
use crate::suggest::{join_keywords, joined};
use crate::text::{decimal, pad_right, padded, texts};
use crate::update::{hint_for, is_brew_path, update_hint};
use crate::watch::{entry_line, entry_spans, watched};

verus! {

/// The lines of a message.
pub open spec fn rows(screen: Seq<Vec<Span>>) -> Seq<Seq<Piece>> {
    Seq::new(screen.len(), |i: int| pieces(screen[i]@))
}

/// A line with nothing on it.
pub open spec fn blank() -> Seq<Piece> {
    seq![]
}

/// A line with nothing on it.
fn blank_row() -> (r: Vec<Span>)
    ensures
        pieces(r@) == blank(),
{
    let line: Vec<Span> = Vec::new();
    assert(pieces(line@) =~= blank());
    line
}

/// A heading of the help.
pub open spec fn heading_line(title: Seq<char>) -> Seq<Piece> {
    seq![
        piece("  "@, Style::Plain),
        piece(title, Style::Rgb(80, 80, 100)),
    ]
}

/// A heading of the help.
fn heading_row(title: &str) -> (r: Vec<Span>)
    ensures
        pieces(r@) == heading_line(title@),
{
    let line = vec![
        span("  ", Style::Plain),
        span(title, Style::Rgb(80, 80, 100)),
    ];
    assert(pieces(line@) =~= heading_line(title@));
    line
}

/// A line of the help: what is typed, and what it does.
pub open spec fn help_line(typed: Seq<char>, does: Seq<char>) -> Seq<Piece> {
    seq![
        piece("    "@, Style::Plain),
        piece(padded(typed, 20), Style::BrightWhite),
        piece(does, Style::Rgb(110, 110, 140)),
    ]
}

/// A line of the help: what is typed, and what it does.
fn help_row(typed: &str, does: &str) -> (r: Vec<Span>)
    ensures
        pieces(r@) == help_line(typed@, does@),
{
    let line = vec![
        span("    ", Style::Plain),
        Span { text: pad_right(typed, 20), style: Style::BrightWhite },
        span(does, Style::Rgb(110, 110, 140)),
    ];
    assert(pieces(line@) =~= help_line(typed@, does@));
    line
}

/// What can be typed at the prompt.
pub open spec fn help_screen() -> Seq<Seq<Piece>> {
    seq![
        blank(),
        heading_line("search"@),
        help_line("name"@, "check name across all TLDs"@),
        help_line("name.tld"@, "check a single domain"@),
        help_line("name+"@, "suggest prefix/suffix variants"@),
        help_line("+"@, "suggest for last searched name"@),
        blank(),
        heading_line("watchlist"@),
        help_line("/watch <domain>"@, "get notified when a domain frees up"@),
        help_line("/unwatch <domain>"@, "stop watching"@),
        help_line("/list"@, "show watchlist"@),
        blank(),
        heading_line("other"@),
        help_line("/help"@, "show this help"@),
        help_line("exit, q"@, "quit (also esc)"@),
        blank(),
    ]
}

/// What can be typed at the prompt.
pub fn help_rows() -> (r: Vec<Vec<Span>>)
    ensures
        rows(r@) == help_screen(),
{
    let screen = vec![
        blank_row(),
        heading_row("search"),
        help_row("name", "check name across all TLDs"),
        help_row("name.tld", "check a single domain"),
        help_row("name+", "suggest prefix/suffix variants"),
        help_row("+", "suggest for last searched name"),
        blank_row(),
        heading_row("watchlist"),
        help_row("/watch <domain>", "get notified when a domain frees up"),
        help_row("/unwatch <domain>", "stop watching"),
        help_row("/list", "show watchlist"),
        blank_row(),
        heading_row("other"),
        help_row("/help", "show this help"),
        help_row("exit, q", "quit (also esc)"),
        blank_row(),
    ];
    assert(rows(screen@) =~= help_screen());
    screen
}

/// A line of the banner in a colour.
pub open spec fn art_line(text: Seq<char>, style: Style) -> Seq<Piece> {
    seq![
        piece(text, style),
    ]
}

/// A line of the banner in a colour.
fn art_row(text: &str, style: Style) -> (r: Vec<Span>)
    ensures
        pieces(r@) == art_line(text@, style),
{
    let line = vec![
        span(text, style),
    ];
    assert(pieces(line@) =~= art_line(text@, style));
    line
}

/// The last line of the letters, with the version.
pub open spec fn version_line(version: Seq<char>) -> Seq<Piece> {
    seq![piece("  |____/ \\___/ \\__|\\__|  v"@ + version, Style::Rgb(50, 215, 235))]
}

/// The last line of the letters, with the version.
fn version_row(version: &str) -> (r: Vec<Span>)
    ensures
        pieces(r@) == version_line(version@),
{
    let mut text = "  |____/ \\___/ \\__|\\__|  v".to_owned();
    text.append(version);
    let line = vec![Span { text, style: Style::Rgb(50, 215, 235) }];
    assert(pieces(line@) =~= version_line(version@));
    line
}

/// The banner of the prompt.
pub open spec fn banner_screen(version: Seq<char>) -> Seq<Seq<Piece>> {
    seq![
        blank(),
        art_line("   ____       _   _ "@, Style::Rgb(255, 155, 0)),
        art_line("  |  _ \\  ___| |_| |_"@, Style::Rgb(255, 60, 90)),
        art_line("  | | | |/ _ \\ __| __|"@, Style::Rgb(180, 50, 230)),
        art_line("  | |_| | (_) | |_| |_"@, Style::Rgb(80, 130, 255)),
        version_line(version),
        blank(),
        art_line("  private domain search.."@, Style::Rgb(80, 80, 110)),
        art_line("  type a name and hit enter. /help for commands."@, Style::Rgb(110, 105, 140)),
        blank(),
        blank(),
    ]
}

/// The banner of the prompt.
pub fn banner_rows(version: &str) -> (r: Vec<Vec<Span>>)
    ensures
        rows(r@) == banner_screen(version@),
{
    let screen = vec![
        blank_row(),
        art_row("   ____       _   _ ", Style::Rgb(255, 155, 0)),
        art_row("  |  _ \\  ___| |_| |_", Style::Rgb(255, 60, 90)),
        art_row("  | | | |/ _ \\ __| __|", Style::Rgb(180, 50, 230)),
        art_row("  | |_| | (_) | |_| |_", Style::Rgb(80, 130, 255)),
        version_row(version),
        blank_row(),
        art_row("  private domain search..", Style::Rgb(80, 80, 110)),
        art_row("  type a name and hit enter. /help for commands.", Style::Rgb(110, 105, 140)),
        blank_row(),
        blank_row(),
    ];
    assert(rows(screen@) =~= banner_screen(version@));
    screen
}

/// The title of the program.
pub open spec fn title_line() -> Seq<Piece> {
    seq![
        piece("  · d o t t ·"@, Style::BrightMagentaBold),
    ]
}

/// The title of the program.
fn title_row() -> (r: Vec<Span>)
    ensures
        pieces(r@) == title_line(),
{
    let line = vec![
        span("  · d o t t ·", Style::BrightMagentaBold),
    ];
    assert(pieces(line@) =~= title_line());
    line
}

/// The title of the program.
pub open spec fn title_screen() -> Seq<Seq<Piece>> {
    seq![
        blank(),
        title_line(),
        blank(),
    ]
}

/// The title of the program.
pub fn title_rows() -> (r: Vec<Vec<Span>>)
    ensures
        rows(r@) == title_screen(),
{
    let screen = vec![
        blank_row(),
        title_row(),
        blank_row(),
    ];
    assert(rows(screen@) =~= title_screen());
    screen
}

/// The prompt.
pub open spec fn prompt_line() -> Seq<Piece> {
    seq![
        piece("  "@, Style::Plain),
        piece("›"@, Style::BrightMagentaBold),
        piece(" "@, Style::Plain),
    ]
}

/// The prompt.
pub fn prompt_spans() -> (r: Vec<Span>)
    ensures
        pieces(r@) == prompt_line(),
{
    let line = vec![
        span("  ", Style::Plain),
        span("›", Style::BrightMagentaBold),
        span(" ", Style::Plain),
    ];
    assert(pieces(line@) =~= prompt_line());
    line
}

/// The farewell.
pub open spec fn bye_line() -> Seq<Piece> {
    seq![
        piece("  "@, Style::Plain),
        piece("bye 🐱"@, Style::Rgb(180, 140, 200)),
    ]
}

/// The farewell.
fn bye_row() -> (r: Vec<Span>)
    ensures
        pieces(r@) == bye_line(),
{
    let line = vec![
        span("  ", Style::Plain),
        span("bye 🐱", Style::Rgb(180, 140, 200)),
    ];
    assert(pieces(line@) =~= bye_line());
    line
}

/// The farewell.
pub open spec fn bye_screen() -> Seq<Seq<Piece>> {
    seq![
        blank(),
        bye_line(),
        blank(),
    ]
}

/// The farewell.
pub fn bye_rows() -> (r: Vec<Vec<Span>>)
    ensures
        rows(r@) == bye_screen(),
{
    let screen = vec![
        blank_row(),
        bye_row(),
        blank_row(),
    ];
    assert(rows(screen@) =~= bye_screen());
    screen
}

/// That a name is to be searched first.
pub open spec fn no_name_line() -> Seq<Piece> {
    seq![
        piece("  "@, Style::Plain),
        piece("search for a name first"@, Style::Rgb(100, 100, 120)),
    ]
}

/// That a name is to be searched first.
fn no_name_row() -> (r: Vec<Span>)
    ensures
        pieces(r@) == no_name_line(),
{
    let line = vec![
        span("  ", Style::Plain),
        span("search for a name first", Style::Rgb(100, 100, 120)),
    ];
    assert(pieces(line@) =~= no_name_line());
    line
}

/// That a name is to be searched first.
pub open spec fn no_name_screen() -> Seq<Seq<Piece>> {
    seq![
        no_name_line(),
        blank(),
    ]
}

/// That a name is to be searched first.
pub fn no_name_rows() -> (r: Vec<Vec<Span>>)
    ensures
        rows(r@) == no_name_screen(),
{
    let screen = vec![
        no_name_row(),
        blank_row(),
    ];
    assert(rows(screen@) =~= no_name_screen());
    screen
}

/// For which name suggestions are made.
pub open spec fn suggesting_line(name: Seq<char>) -> Seq<Piece> {
    seq![
        piece("  "@, Style::Plain),
        piece("suggesting for:"@, Style::Rgb(80, 80, 100)),
        piece(" "@, Style::Plain),
        piece(name, Style::BrightWhite),
    ]
}

/// For which name suggestions are made.
pub fn suggesting_spans(name: &str) -> (r: Vec<Span>)
    ensures
        pieces(r@) == suggesting_line(name@),
{
    let line = vec![
        span("  ", Style::Plain),
        span("suggesting for:", Style::Rgb(80, 80, 100)),
        span(" ", Style::Plain),
        span(name, Style::BrightWhite),
    ];
    assert(pieces(line@) =~= suggesting_line(name@));
    line
}

/// For which keywords names are made.
pub open spec fn generating_screen(keywords: Seq<Seq<char>>) -> Seq<Seq<Piece>> {
    seq![
        seq![
            piece("  "@, Style::Plain),
            piece("generating for:"@, Style::Rgb(80, 80, 100)),
            piece(" "@, Style::Plain),
            piece(joined(keywords, ", "@), Style::BrightWhite),
        ],
        blank(),
    ]
}

/// For which keywords names are made.
pub fn generating_rows(keywords: &[String]) -> (r: Vec<Vec<Span>>)
    ensures
        rows(r@) == generating_screen(texts(keywords@)),
{
    let line = vec![
        span("  ", Style::Plain),
        span("generating for:", Style::Rgb(80, 80, 100)),
        span(" ", Style::Plain),
        Span { text: join_keywords(keywords, ", "), style: Style::BrightWhite },
    ];
    assert(pieces(line@) =~= generating_screen(texts(keywords@))[0]);
    let screen = vec![line, blank_row()];
    assert(rows(screen@) =~= generating_screen(texts(keywords@)));
    screen
}

/// That no name is available, with a gap before it.
pub open spec fn nothing_line(gap: Seq<char>) -> Seq<Piece> {
    seq![
        piece("  "@, Style::Plain),
        piece("✗"@, Style::Rgb(80, 80, 100)),
        piece(gap, Style::Plain),
        piece("nothing available"@, Style::Plain),
    ]
}

/// That no name is available, with a gap before it.
fn nothing_row(gap: &str) -> (r: Vec<Span>)
    ensures
        pieces(r@) == nothing_line(gap@),
{
    let line = vec![
        span("  ", Style::Plain),
        span("✗", Style::Rgb(80, 80, 100)),
        span(gap, Style::Plain),
        span("nothing available", Style::Plain),
    ];
    assert(pieces(line@) =~= nothing_line(gap@));
    line
}

/// That no name is available, with a gap before it.
pub open spec fn nothing_screen(gap: Seq<char>) -> Seq<Seq<Piece>> {
    seq![
        nothing_line(gap),
        blank(),
    ]
}

/// That no name is available, with a gap before it.
pub fn nothing_rows(gap: &str) -> (r: Vec<Vec<Span>>)
    ensures
        rows(r@) == nothing_screen(gap@),
{
    let screen = vec![
        nothing_row(gap),
        blank_row(),
    ];
    assert(rows(screen@) =~= nothing_screen(gap@));
    screen
}

/// The lines for domains that are available.
pub open spec fn found_lines(domains: Seq<Seq<char>>) -> Seq<Seq<Piece>> {
    Seq::new(
        domains.len(),
        |i: int| marked("✓"@, Style::BrightGreenBold, domains[i], Style::BrightWhiteBold),
    )
}

/// How many domains are available.
pub open spec fn count_line(n: nat) -> Seq<Piece> {
    seq![
        piece("  "@, Style::Plain),
        piece(decimal(n), Style::BrightGreenBold),
        piece(" available"@, Style::Plain),
    ]
}

/// The domains that are available, and how many they are.
pub open spec fn found_screen(domains: Seq<Seq<char>>) -> Seq<Seq<Piece>> {
    found_lines(domains) + seq![blank(), count_line(domains.len()), blank()]
}

/// The domains that are available, and how many they are.
pub fn found_rows(domains: &Vec<String>) -> (r: Vec<Vec<Span>>)
    ensures
        rows(r@) == found_screen(texts(domains@)),
{
    let ghost all = texts(domains@);
    let mut screen: Vec<Vec<Span>> = Vec::new();
    let mut i: usize = 0;
    while i < domains.len()
        invariant
            i <= domains@.len(),
            all == texts(domains@),
            screen@.len() == i,
            forall|j: int| 0 <= j < i ==> pieces((#[trigger] screen@[j])@) == found_lines(all)[j],
        decreases domains@.len() - i,
    {
        screen.push(
            mark_line(
                "✓",
                Style::BrightGreenBold,
                domains[i].as_str(),
                Style::BrightWhiteBold,
            ),
        );
        i += 1;
    }
    let line = vec![
        span("  ", Style::Plain),
        Span { text: number_text(domains.len()), style: Style::BrightGreenBold },
        span(" available", Style::Plain),
    ];
    assert(pieces(line@) =~= count_line(all.len()));
    screen.push(blank_row());
    screen.push(line);
    screen.push(blank_row());
    assert(rows(screen@) =~= found_screen(all));
    screen
}

/// What is shown of the checks of suggestions.
pub enum SuggestionOutput {
    /// A plain line for each check.
    Plain(Vec<String>),
    /// That nothing is available.
    Nothing,
    /// The domains that are available.
    Found(Vec<String>),
}

/// What is shown of the checks of suggestions, as texts.
pub enum Shown {
    Plain(Seq<Seq<char>>),
    Nothing,
    Found(Seq<Seq<char>>),
}

impl View for SuggestionOutput {
    type V = Shown;

    open spec fn view(&self) -> Shown {
        match *self {
            SuggestionOutput::Plain(lines) => Shown::Plain(texts(lines@)),
            SuggestionOutput::Nothing => Shown::Nothing,
            SuggestionOutput::Found(domains) => Shown::Found(texts(domains@)),
        }
    }
}

/// What is shown of the checks of suggestions: plain lines exactly where they
/// are asked for, else the domains that are available, in the order of the
/// checks, or that there are none.
pub open spec fn shown_of(results: Seq<(String, Availability)>, plain: bool) -> Shown {
    if plain {
        Shown::Plain(
            Seq::new(
                results.len(),
                |i: int| results[i].0@ + seq![' '] + status_word(results[i].1@),
            ),
        )
    } else if available_of(results).len() == 0 {
        Shown::Nothing
    } else {
        Shown::Found(available_of(results))
    }
}

/// What is shown of the checks of suggestions, plainly or not.
pub fn suggestion_output(results: &Vec<(String, Availability)>, plain: bool) -> (r:
    SuggestionOutput)
    ensures
        r@ == shown_of(results@, plain),
{
    if plain {
        let lines = plain_lines(results);
        assert(texts(lines@) =~= Seq::new(
            results@.len(),
            |i: int| results@[i].0@ + seq![' '] + status_word(results@[i].1@),
        ));
        return SuggestionOutput::Plain(lines);
    }
    let domains = available_domains(results);
    assert(texts(domains@).len() == domains@.len());
    if domains.len() == 0 {
        SuggestionOutput::Nothing
    } else {
        SuggestionOutput::Found(domains)
    }
}

/// That there is a newer version, and how to get it.
pub open spec fn update_screen(version: Seq<char>, brew: bool) -> Seq<Seq<Piece>> {
    seq![
        seq![
            piece("  "@, Style::Plain),
            piece("update available →"@, Style::Rgb(100, 95, 130)),
            piece(" "@, Style::Plain),
            piece(hint_for(version, brew), Style::BrightWhite),
        ],
        blank(),
    ]
}

/// That there is a newer version, and how to get it for the program at a path.
pub fn update_rows(version: &str, path: &str) -> (r: Vec<Vec<Span>>)
    ensures
        rows(r@) == update_screen(version@, is_brew_path(path@)),
{
    let line = vec![
        span("  ", Style::Plain),
        span("update available →", Style::Rgb(100, 95, 130)),
        span(" ", Style::Plain),
        Span { text: update_hint(version, path), style: Style::BrightWhite },
    ];
    assert(pieces(line@) =~= update_screen(version@, is_brew_path(path@))[0]);
    let screen = vec![line, blank_row()];
    assert(rows(screen@) =~= update_screen(version@, is_brew_path(path@)));
    screen
}

/// The command that watches a name in `com`.
pub open spec fn watch_example(name: Seq<char>) -> Seq<char> {
    "dott --watch "@ + name + ".com"@
}

/// That a full domain is wanted.
pub open spec fn incomplete_screen(name: Seq<char>) -> Seq<Seq<Piece>> {
    seq![
        blank(),
        seq![
            piece("  "@, Style::Plain),
            piece("!"@, Style::BrightYellow),
            piece(" please specify a full domain, e.g. "@, Style::Plain),
            piece(watch_example(name), Style::BrightWhite),
        ],
        blank(),
    ]
}

/// That a full domain is wanted.
pub fn incomplete_rows(name: &str) -> (r: Vec<Vec<Span>>)
    ensures
        rows(r@) == incomplete_screen(name@),
{
    let mut example = "dott --watch ".to_owned();
    example.append(name);
    example.append(".com");
    let line = vec![
        span("  ", Style::Plain),
        span("!", Style::BrightYellow),
        span(" please specify a full domain, e.g. ", Style::Plain),
        Span { text: example, style: Style::BrightWhite },
    ];
    assert(pieces(line@) =~= incomplete_screen(name@)[1]);
    let screen = vec![blank_row(), line, blank_row()];
    assert(rows(screen@) =~= incomplete_screen(name@));
    screen
}

/// That a domain is on the watchlist already.
pub open spec fn already_line(domain: Seq<char>) -> Seq<Piece> {
    seq![
        piece("  "@, Style::Plain),
        piece("·"@, Style::Rgb(100, 100, 120)),
        piece(" "@, Style::Plain),
        piece(domain, Style::BrightWhite),
        piece(" is already being watched"@, Style::Plain),
    ]
}

/// That a domain is on the watchlist already.
fn already_row(domain: &str) -> (r: Vec<Span>)
    ensures
        pieces(r@) == already_line(domain@),
{
    let line = vec![
        span("  ", Style::Plain),
        span("·", Style::Rgb(100, 100, 120)),
        span(" ", Style::Plain),
        span(domain, Style::BrightWhite),
        span(" is already being watched", Style::Plain),
    ];
    assert(pieces(line@) =~= already_line(domain@));
    line
}

/// That a domain is on the watchlist already.
pub open spec fn already_screen(domain: Seq<char>) -> Seq<Seq<Piece>> {
    seq![
        blank(),
        already_line(domain),
        blank(),
    ]
}

/// That a domain is on the watchlist already.
pub fn already_rows(domain: &str) -> (r: Vec<Vec<Span>>)
    ensures
        rows(r@) == already_screen(domain@),
{
    let screen = vec![
        blank_row(),
        already_row(domain),
        blank_row(),
    ];
    assert(rows(screen@) =~= already_screen(domain@));
    screen
}

/// That a domain is not on the watchlist.
pub open spec fn not_watched_line(domain: Seq<char>) -> Seq<Piece> {
    seq![
        piece("  "@, Style::Plain),
        piece("·"@, Style::Rgb(100, 100, 120)),
        piece(" "@, Style::Plain),
        piece(domain, Style::Plain),
        piece(" not in watchlist"@, Style::Plain),
    ]
}

/// That a domain is not on the watchlist.
fn not_watched_row(domain: &str) -> (r: Vec<Span>)
    ensures
        pieces(r@) == not_watched_line(domain@),
{
    let line = vec![
        span("  ", Style::Plain),
        span("·", Style::Rgb(100, 100, 120)),
        span(" ", Style::Plain),
        span(domain, Style::Plain),
        span(" not in watchlist", Style::Plain),
    ];
    assert(pieces(line@) =~= not_watched_line(domain@));
    line
}

/// That a domain is not on the watchlist.
pub open spec fn not_watched_screen(domain: Seq<char>) -> Seq<Seq<Piece>> {
    seq![
        blank(),
        not_watched_line(domain),
        blank(),
    ]
}

/// That a domain is not on the watchlist.
pub fn not_watched_rows(domain: &str) -> (r: Vec<Vec<Span>>)
    ensures
        rows(r@) == not_watched_screen(domain@),
{
    let screen = vec![
        blank_row(),
        not_watched_row(domain),
        blank_row(),
    ];
    assert(rows(screen@) =~= not_watched_screen(domain@));
    screen
}

/// That a domain has left the watchlist.
pub open spec fn unwatched_line(domain: Seq<char>) -> Seq<Piece> {
    seq![
        piece("  "@, Style::Plain),
        piece("✓"@, Style::BrightGreenBold),
        piece(" stopped watching "@, Style::Plain),
        piece(domain, Style::BrightWhiteBold),
    ]
}

/// That a domain has left the watchlist.
fn unwatched_row(domain: &str) -> (r: Vec<Span>)
    ensures
        pieces(r@) == unwatched_line(domain@),
{
    let line = vec![
        span("  ", Style::Plain),
        span("✓", Style::BrightGreenBold),
        span(" stopped watching ", Style::Plain),
        span(domain, Style::BrightWhiteBold),
    ];
    assert(pieces(line@) =~= unwatched_line(domain@));
    line
}

/// That a domain has left the watchlist.
pub open spec fn unwatched_screen(domain: Seq<char>) -> Seq<Seq<Piece>> {
    seq![
        blank(),
        unwatched_line(domain),
        blank(),
    ]
}

/// That a domain has left the watchlist.
pub fn unwatched_rows(domain: &str) -> (r: Vec<Vec<Span>>)
    ensures
        rows(r@) == unwatched_screen(domain@),
{
    let screen = vec![
        blank_row(),
        unwatched_row(domain),
        blank_row(),
    ];
    assert(rows(screen@) =~= unwatched_screen(domain@));
    screen
}

/// That a domain is on the watchlist now.
pub open spec fn watching_line(domain: Seq<char>) -> Seq<Piece> {
    seq![
        piece("  "@, Style::Plain),
        piece("✓"@, Style::BrightGreenBold),
        piece(" watching "@, Style::Plain),
        piece(domain, Style::BrightWhiteBold),
    ]
}

/// That a domain is on the watchlist now.
fn watching_row(domain: &str) -> (r: Vec<Span>)
    ensures
        pieces(r@) == watching_line(domain@),
{
    let line = vec![
        span("  ", Style::Plain),
        span("✓", Style::BrightGreenBold),
        span(" watching ", Style::Plain),
        span(domain, Style::BrightWhiteBold),
    ];
    assert(pieces(line@) =~= watching_line(domain@));
    line
}

/// That the domain can be registered at once.
pub open spec fn available_now_line() -> Seq<Piece> {
    seq![
        piece("  "@, Style::Plain),
        piece("·"@, Style::BrightGreen),
        piece(" it's available right now — go register it!"@, Style::Plain),
    ]
}

/// That the domain can be registered at once.
fn available_now_row() -> (r: Vec<Span>)
    ensures
        pieces(r@) == available_now_line(),
{
    let line = vec![
        span("  ", Style::Plain),
        span("·", Style::BrightGreen),
        span(" it's available right now — go register it!", Style::Plain),
    ];
    assert(pieces(line@) =~= available_now_line());
    line
}

/// That there will be a notice.
pub open spec fn notice_later_line() -> Seq<Piece> {
    seq![
        piece("  "@, Style::Plain),
        piece("·"@, Style::Rgb(80, 80, 100)),
        piece(" "@, Style::Plain),
        piece("you'll get a notification when it becomes available"@, Style::Rgb(100, 100, 130)),
    ]
}

/// That there will be a notice.
fn notice_later_row() -> (r: Vec<Span>)
    ensures
        pieces(r@) == notice_later_line(),
{
    let line = vec![
        span("  ", Style::Plain),
        span("·", Style::Rgb(80, 80, 100)),
        span(" ", Style::Plain),
        span("you'll get a notification when it becomes available", Style::Rgb(100, 100, 130)),
    ];
    assert(pieces(line@) =~= notice_later_line());
    line
}

/// That a notice was sent to try it out.
pub open spec fn test_notice_line() -> Seq<Piece> {
    seq![
        piece("  "@, Style::Plain),
        piece("·"@, Style::Rgb(80, 80, 100)),
        piece(" "@, Style::Plain),
        piece("test notification sent — if you didn't see it, allow notifications for Script Editor in:"@, Style::Rgb(100, 100, 130)),
    ]
}

/// That a notice was sent to try it out.
fn test_notice_row() -> (r: Vec<Span>)
    ensures
        pieces(r@) == test_notice_line(),
{
    let line = vec![
        span("  ", Style::Plain),
        span("·", Style::Rgb(80, 80, 100)),
        span(" ", Style::Plain),
        span("test notification sent — if you didn't see it, allow notifications for Script Editor in:", Style::Rgb(100, 100, 130)),
    ];
    assert(pieces(line@) =~= test_notice_line());
    line
}

/// Where notices are allowed.
pub open spec fn settings_line() -> Seq<Piece> {
    seq![
        piece("  "@, Style::Plain),
        piece(" "@, Style::Plain),
        piece("  "@, Style::Plain),
        piece("System Settings → Notifications → Script Editor"@, Style::BrightWhite),
    ]
}

/// Where notices are allowed.
fn settings_row() -> (r: Vec<Span>)
    ensures
        pieces(r@) == settings_line(),
{
    let line = vec![
        span("  ", Style::Plain),
        span(" ", Style::Plain),
        span("  ", Style::Plain),
        span("System Settings → Notifications → Script Editor", Style::BrightWhite),
    ];
    assert(pieces(line@) =~= settings_line());
    line
}

/// What is said after a domain was put on the watchlist, before the first
/// notice is sent.
pub open spec fn watching_screen(domain: Seq<char>, available: bool) -> Seq<Seq<Piece>> {
    seq![
        blank(),
        watching_line(domain),
        if available {
            available_now_line()
        } else {
            notice_later_line()
        },
    ]
}

/// What is said after a domain was put on the watchlist, before the first
/// notice is sent.
pub fn watching_rows(domain: &str, available: bool) -> (r: Vec<Vec<Span>>)
    ensures
        rows(r@) == watching_screen(domain@, available),
{
    let line = if available {
        available_now_row()
    } else {
        notice_later_row()
    };
    let screen = vec![blank_row(), watching_row(domain), line];
    assert(rows(screen@) =~= watching_screen(domain@, available));
    screen
}

/// What is said after the first notice was sent.
pub open spec fn first_notice_screen() -> Seq<Seq<Piece>> {
    seq![
        test_notice_line(),
        settings_line(),
    ]
}

/// What is said after the first notice was sent.
pub fn first_notice_rows() -> (r: Vec<Vec<Span>>)
    ensures
        rows(r@) == first_notice_screen(),
{
    let screen = vec![
        test_notice_row(),
        settings_row(),
    ];
    assert(rows(screen@) =~= first_notice_screen());
    screen
}

/// That no domain is watched.
pub open spec fn none_watched_line() -> Seq<Piece> {
    seq![
        piece("  "@, Style::Plain),
        piece("·"@, Style::Rgb(100, 100, 120)),
        piece(" no domains being watched"@, Style::Plain),
    ]
}

/// That no domain is watched.
fn none_watched_row() -> (r: Vec<Span>)
    ensures
        pieces(r@) == none_watched_line(),
{
    let line = vec![
        span("  ", Style::Plain),
        span("·", Style::Rgb(100, 100, 120)),
        span(" no domains being watched", Style::Plain),
    ];
    assert(pieces(line@) =~= none_watched_line());
    line
}

/// How a domain is watched.
pub open spec fn how_to_watch_line() -> Seq<Piece> {
    seq![
        piece("  "@, Style::Plain),
        piece("·"@, Style::Rgb(80, 80, 100)),
        piece(" use "@, Style::Plain),
        piece("dott --watch <domain>"@, Style::BrightWhite),
        piece(" to start"@, Style::Plain),
    ]
}

/// How a domain is watched.
fn how_to_watch_row() -> (r: Vec<Span>)
    ensures
        pieces(r@) == how_to_watch_line(),
{
    let line = vec![
        span("  ", Style::Plain),
        span("·", Style::Rgb(80, 80, 100)),
        span(" use ", Style::Plain),
        span("dott --watch <domain>", Style::BrightWhite),
        span(" to start", Style::Plain),
    ];
    assert(pieces(line@) =~= how_to_watch_line());
    line
}

/// The heading of the watchlist.
pub open spec fn watch_heading_line() -> Seq<Piece> {
    seq![
        piece("  "@, Style::Plain),
        piece("watching:"@, Style::Rgb(80, 80, 100)),
    ]
}

/// The heading of the watchlist.
fn watch_heading_row() -> (r: Vec<Span>)
    ensures
        pieces(r@) == watch_heading_line(),
{
    let line = vec![
        span("  ", Style::Plain),
        span("watching:", Style::Rgb(80, 80, 100)),
    ];
    assert(pieces(line@) =~= watch_heading_line());
    line
}

/// The lines for the domains on the watchlist.
pub open spec fn entry_lines(list: Seq<Watched>) -> Seq<Seq<Piece>> {
    Seq::new(list.len(), |i: int| entry_line(list[i]))
}

/// The watchlist.
pub open spec fn watchlist_screen(list: Seq<Watched>) -> Seq<Seq<Piece>> {
    if list.len() == 0 {
        seq![blank(), none_watched_line(), how_to_watch_line(), blank()]
    } else {
        seq![blank(), watch_heading_line(), blank()] + entry_lines(list) + seq![blank()]
    }
}

/// The watchlist.
pub fn watchlist_rows(entries: &Vec<WatchEntry>) -> (r: Vec<Vec<Span>>)
    ensures
        rows(r@) == watchlist_screen(watched(entries@)),
{
    let ghost list = watched(entries@);
    if entries.len() == 0 {
        let screen = vec![blank_row(), none_watched_row(), how_to_watch_row(), blank_row()];
        assert(rows(screen@) =~= watchlist_screen(list));
        return screen;
    }
    let mut screen = vec![blank_row(), watch_heading_row(), blank_row()];
    let ghost top = seq![blank(), watch_heading_line(), blank()];
    assert(rows(screen@) =~= top + entry_lines(list).take(0));
    let mut i: usize = 0;
    while i < entries.len()
        invariant
            i <= entries@.len(),
            list == watched(entries@),
            rows(screen@) == top + entry_lines(list).take(i as int),
        decreases entries@.len() - i,
    {
        let line = entry_spans(&entries[i]);
        let ghost before = rows(screen@);
        screen.push(line);
        i += 1;
        assert(rows(screen@) =~= before.push(pieces(line@)));
        assert(entry_lines(list).take(i as int) =~= entry_lines(list).take(i - 1).push(
            entry_line(list[i - 1]),
        ));
        assert(rows(screen@) =~= top + entry_lines(list).take(i as int));
    }
    let ghost before = rows(screen@);
    screen.push(blank_row());
    assert(entry_lines(list).take(i as int) =~= entry_lines(list));
    assert(rows(screen@) =~= before.push(blank()));
    assert(rows(screen@) =~= watchlist_screen(list));
    screen
}

/// Law: plain lines are shown exactly where they are asked for, one for each
/// result. Else it is said that nothing is available exactly where no result is,
/// and where some are, those are shown.
pub proof fn law_shown(results: Seq<(String, Availability)>, plain: bool)
    ensures
        shown_of(results, plain) is Plain <==> plain,
        shown_of(results, plain) matches Shown::Plain(lines) ==> lines.len() == results.len()
            && forall|i: int|
            0 <= i < results.len() ==> #[trigger] lines[i] == results[i].0@ + seq![' ']
                + status_word(results[i].1@),
        shown_of(results, plain) is Nothing <==> !plain && forall|i: int|
            0 <= i < results.len() ==> !((#[trigger] results[i]).1@ is Available),
        shown_of(results, plain) matches Shown::Found(domains) ==> domains == available_of(results),
        shown_of(results, plain) matches Shown::Found(domains) ==> forall|d: Seq<char>|
            #[trigger] domains.contains(d) <==> exists|i: int|
                0 <= i < results.len() && (#[trigger] results[i]).0@ == d && results[i].1@
                    == Status::Available,
{
    let listed = available_of(results);
    assert forall|d: Seq<char>| #[trigger] listed.contains(d) <==> exists|i: int|
        0 <= i < results.len() && (#[trigger] results[i]).0@ == d && results[i].1@
            == Status::Available by {
        law_listed(results, d);
    }
    if listed.len() > 0 {
        assert(listed.contains(listed[0]));
        let i = choose|i: int|
            0 <= i < results.len() && (#[trigger] results[i]).0@ == listed[0] && results[i].1@
                == Status::Available;
        assert(results[i].1@ is Available);
    } else {
        assert forall|i: int| 0 <= i < results.len() implies !((#[trigger] results[i]).1@ is Available)
            by {
            if results[i].1@ is Available {
                law_listed(results, results[i].0@);
                assert(listed.contains(results[i].0@));
            }
        }
    }
}

/// Law: the domains that were found are shown one to a row, with their number
/// below.
pub proof fn law_found_rows(domains: Seq<Seq<char>>, i: int)
    ensures
        found_screen(domains).len() == domains.len() + 3,
        0 <= i < domains.len() ==> plain_text(found_screen(domains)[i]) == "  "@ + "✓"@ + "  "@
            + domains[i],
        found_screen(domains)[domains.len() as int + 1][1].text == decimal(domains.len()),
{
    if 0 <= i < domains.len() {
        lemma_plain_of_four(found_lines(domains)[i]);
    }
}

/// Law: the watchlist shows every entry in its order, or how to watch a domain
/// where there is none.
pub proof fn law_watchlist_rows(list: Seq<Watched>, i: int)
    ensures
        list.len() == 0 ==> watchlist_screen(list).len() == 4 && watchlist_screen(list)[1]
            == none_watched_line() && watchlist_screen(list)[2] == how_to_watch_line(),
        list.len() > 0 ==> watchlist_screen(list).len() == list.len() + 4,
        0 <= i < list.len() ==> watchlist_screen(list)[i + 3] == entry_line(list[i]),
{
}

/// Law: a message about a domain names it, and a watched domain is said to be
/// available exactly where it is.
pub proof fn law_messages(domain: Seq<char>, version: Seq<char>, available: bool, brew: bool)
    ensures
        already_screen(domain)[1][3].text == domain,
        not_watched_screen(domain)[1][3].text == domain,
        unwatched_screen(domain)[1][3].text == domain,
        watching_screen(domain, available)[1][3].text == domain,
        watching_screen(domain, available)[2] == if available {
            available_now_line()
        } else {
            notice_later_line()
        },
        incomplete_screen(domain)[1][3].text == "dott --watch "@ + domain + ".com"@,
        suggesting_line(domain)[3].text == domain,
        update_screen(version, brew)[0][3].text == hint_for(version, brew),
        banner_screen(version)[5][0].text == "  |____/ \\___/ \\__|\\__|  v"@ + version,
{
}

/// The styles of a line.
pub open spec fn styles(line: Seq<Piece>) -> Seq<Style> {
    Seq::new(line.len(), |i: int| line[i].style)
}

/// Law: whatever is written into a line, its colours stay the same.
pub proof fn law_styles(t: Seq<char>, style: Style, n: nat)
    ensures
        styles(heading_line(t)) == seq![Style::Plain, Style::Rgb(80, 80, 100)],
        styles(help_line(t, t)) == seq![
            Style::Plain,
            Style::BrightWhite,
            Style::Rgb(110, 110, 140),
        ],
        styles(art_line(t, style)) == seq![style],
        styles(version_line(t)) == seq![Style::Rgb(50, 215, 235)],
        styles(title_line()) == seq![Style::BrightMagentaBold],
        styles(prompt_line()) == seq![Style::Plain, Style::BrightMagentaBold, Style::Plain],
        styles(bye_line()) == seq![Style::Plain, Style::Rgb(180, 140, 200)],
        styles(no_name_line()) == seq![Style::Plain, Style::Rgb(100, 100, 120)],
        styles(suggesting_line(t)) == seq![
            Style::Plain,
            Style::Rgb(80, 80, 100),
            Style::Plain,
            Style::BrightWhite,
        ],
        styles(nothing_line(t)) == seq![
            Style::Plain,
            Style::Rgb(80, 80, 100),
            Style::Plain,
            Style::Plain,
        ],
        styles(count_line(n)) == seq![Style::Plain, Style::BrightGreenBold, Style::Plain],
        styles(already_line(t)) == seq![
            Style::Plain,
            Style::Rgb(100, 100, 120),
            Style::Plain,
            Style::BrightWhite,
            Style::Plain,
        ],
        styles(not_watched_line(t)) == seq![
            Style::Plain,
            Style::Rgb(100, 100, 120),
            Style::Plain,
            Style::Plain,
            Style::Plain,
        ],
        styles(unwatched_line(t)) == seq![
            Style::Plain,
            Style::BrightGreenBold,
            Style::Plain,
            Style::BrightWhiteBold,
        ],
        styles(watching_line(t)) == seq![
            Style::Plain,
            Style::BrightGreenBold,
            Style::Plain,
            Style::BrightWhiteBold,
        ],
        styles(available_now_line()) == seq![Style::Plain, Style::BrightGreen, Style::Plain],
        styles(notice_later_line()) == seq![
            Style::Plain,
            Style::Rgb(80, 80, 100),
            Style::Plain,
            Style::Rgb(100, 100, 130),
        ],
        styles(test_notice_line()) == seq![
            Style::Plain,
            Style::Rgb(80, 80, 100),
            Style::Plain,
            Style::Rgb(100, 100, 130),
        ],
        styles(settings_line()) == seq![
            Style::Plain,
            Style::Plain,
            Style::Plain,
            Style::BrightWhite,
        ],
        styles(none_watched_line()) == seq![Style::Plain, Style::Rgb(100, 100, 120), Style::Plain],
        styles(how_to_watch_line()) == seq![
            Style::Plain,
            Style::Rgb(80, 80, 100),
            Style::Plain,
            Style::BrightWhite,
            Style::Plain,
        ],
        styles(watch_heading_line()) == seq![Style::Plain, Style::Rgb(80, 80, 100)],
{
    assert(styles(heading_line(t)) =~= seq![Style::Plain, Style::Rgb(80, 80, 100)]);
    assert(styles(help_line(t, t)) =~= seq![
        Style::Plain,
        Style::BrightWhite,
        Style::Rgb(110, 110, 140),
    ]);
    assert(styles(art_line(t, style)) =~= seq![style]);
    assert(styles(version_line(t)) =~= seq![Style::Rgb(50, 215, 235)]);
    assert(styles(title_line()) =~= seq![Style::BrightMagentaBold]);
    assert(styles(prompt_line()) =~= seq![Style::Plain, Style::BrightMagentaBold, Style::Plain]);
    assert(styles(bye_line()) =~= seq![Style::Plain, Style::Rgb(180, 140, 200)]);
    assert(styles(no_name_line()) =~= seq![Style::Plain, Style::Rgb(100, 100, 120)]);
    assert(styles(suggesting_line(t)) =~= seq![
        Style::Plain,
        Style::Rgb(80, 80, 100),
        Style::Plain,
        Style::BrightWhite,
    ]);
    assert(styles(nothing_line(t)) =~= seq![
        Style::Plain,
        Style::Rgb(80, 80, 100),
        Style::Plain,
        Style::Plain,
    ]);
    assert(styles(count_line(n)) =~= seq![Style::Plain, Style::BrightGreenBold, Style::Plain]);
    assert(styles(already_line(t)) =~= seq![
        Style::Plain,
        Style::Rgb(100, 100, 120),
        Style::Plain,
        Style::BrightWhite,
        Style::Plain,
    ]);
    assert(styles(not_watched_line(t)) =~= seq![
        Style::Plain,
        Style::Rgb(100, 100, 120),
        Style::Plain,
        Style::Plain,
        Style::Plain,
    ]);
    assert(styles(unwatched_line(t)) =~= seq![
        Style::Plain,
        Style::BrightGreenBold,
        Style::Plain,
        Style::BrightWhiteBold,
    ]);
    assert(styles(watching_line(t)) =~= seq![
        Style::Plain,
        Style::BrightGreenBold,
        Style::Plain,
        Style::BrightWhiteBold,
    ]);
    assert(styles(available_now_line()) =~= seq![Style::Plain, Style::BrightGreen, Style::Plain]);
    assert(styles(notice_later_line()) =~= seq![
        Style::Plain,
        Style::Rgb(80, 80, 100),
        Style::Plain,
        Style::Rgb(100, 100, 130),
    ]);
    assert(styles(test_notice_line()) =~= seq![
        Style::Plain,
        Style::Rgb(80, 80, 100),
        Style::Plain,
        Style::Rgb(100, 100, 130),
    ]);
    assert(styles(settings_line()) =~= seq![
        Style::Plain,
        Style::Plain,
        Style::Plain,
        Style::BrightWhite,
    ]);
    assert(styles(none_watched_line()) =~= seq![
        Style::Plain,
        Style::Rgb(100, 100, 120),
        Style::Plain,
    ]);
    assert(styles(how_to_watch_line()) =~= seq![
        Style::Plain,
        Style::Rgb(80, 80, 100),
        Style::Plain,
        Style::BrightWhite,
        Style::Plain,
    ]);
    assert(styles(watch_heading_line()) =~= seq![Style::Plain, Style::Rgb(80, 80, 100)]);
}

} // verus!
