use dott::format::{days_to_expiry, format_result, format_result_at, result_spans};
use dott::model::{Availability, DomainDates, WatchEntry};
use dott::paint::{paint, render, Span, Style};
use dott::screens::{
    already_rows, banner_rows, bye_rows, first_notice_rows, found_rows, generating_rows, help_rows,
    incomplete_rows, no_name_rows, not_watched_rows, nothing_rows, prompt_spans, suggesting_spans,
    suggestion_output, title_rows, unwatched_rows, update_rows, watching_rows, watchlist_rows,
    SuggestionOutput,
};
use dott::search::{
    available_count, available_domains, column_width, finish_row, number_text, pending_spans, plain_line, plain_lines,
    rows_up, sort_by_rank, spin, summary_spans, FRAMES,
};

fn plain(spans: &Vec<Span>) -> String {
    colored::control::set_override(false);
    render(spans)
}

fn lines(rows: &Vec<Vec<Span>>) -> Vec<String> {
    rows.iter().map(plain).collect()
}

fn dates(a: Option<&str>, b: Option<&str>, c: Option<&str>) -> Availability {
    let some = |s: Option<&str>| s.map(|t| t.to_string());
    Availability::Taken(DomainDates { registered: some(a), updated: some(b), expires: some(c) })
}

fn shown(domain: &str, status: &Availability, pad: usize) -> String {
    colored::control::set_override(false);
    format_result(domain, status, pad)
}

#[test]
fn result_lines() {
    assert_eq!(shown("go.xyz", &Availability::Available, 8), "  ✓  go.xyz    $12.98/yr.");
    assert_eq!(shown("go.ai", &Availability::Available, 0), "  ✓  go.ai  $82.70/yr.  ⚠ likely premium");
    assert_eq!(shown("go.zip", &Availability::Available, 6), "  ✓  go.zip");
    assert_eq!(shown("go.ai", &Availability::Protected, 6), "  ★  go.ai   brand protected");
    assert_eq!(shown("go.ai", &Availability::Unknown, 7), "  ?  go.ai  ");
    assert_eq!(shown("go.ai", &dates(None, None, None), 7), "  ✗  go.ai  ");
    assert_eq!(
        shown("go.ai", &dates(Some("2001-01-01"), Some("2002-01-01"), Some("2099-01-01")), 5),
        "  ✗  go.ai  reg 2001-01-01  upd 2002-01-01  exp 2099-01-01"
    );
    assert_eq!(
        shown("go.ai", &dates(None, None, Some("2001-01-01")), 5),
        "  ✗  go.ai  exp 2001-01-01"
    );
}

#[test]
fn expiry_colours() {
    let style = |days: Option<i64>| {
        let line = result_spans("go.ai", &dates(None, None, Some("2001-01-01")), 5, days);
        assert_eq!(line.len(), 6);
        assert_eq!(line[4].text, "");
        assert_eq!(line[4].style, Style::Rgb(110, 100, 150));
        assert_eq!(line[5].text, "  exp 2001-01-01");
        line[5].style
    };
    assert_eq!(style(Some(-1)), Style::Rgb(220, 100, 60));
    assert_eq!(style(Some(89)), Style::Rgb(220, 100, 60));
    assert_eq!(style(Some(90)), Style::Rgb(200, 170, 60));
    assert_eq!(style(Some(364)), Style::Rgb(200, 170, 60));
    assert_eq!(style(Some(365)), Style::Rgb(110, 100, 150));
    assert_eq!(style(None), Style::Rgb(110, 100, 150));
}

#[test]
fn days_left_until_a_domain_expires() {
    let taken = dates(None, None, Some("1970-04-01"));
    assert_eq!(days_to_expiry(&taken, Some(0)), Some(90));
    assert_eq!(days_to_expiry(&taken, Some(86400)), Some(89));
    assert_eq!(days_to_expiry(&taken, None), None);
    assert_eq!(days_to_expiry(&dates(Some("1970-04-01"), None, None), Some(0)), None);
    assert_eq!(days_to_expiry(&dates(None, None, Some("later")), Some(0)), None);
    assert_eq!(days_to_expiry(&Availability::Available, Some(0)), None);
}

#[test]
fn styles_are_left_out_where_they_are_not_wanted() {
    colored::control::set_override(false);
    assert_eq!(paint("x", Style::Rgb(1, 2, 3)), "x");
    assert_eq!(paint("x", Style::BrightGreenBold), "x");
    assert_eq!(paint("x", Style::Plain), "x");
}

#[test]
fn rows_are_sorted_by_rank() {
    let sorted = sort_by_rank(&vec!["work", "net", "io", "com", "io"]);
    assert_eq!(sorted, ["com", "io", "io", "net", "work"]);
    assert!(sort_by_rank(&vec![]).is_empty());
    let all = sort_by_rank(&dott::command::all_tlds());
    assert_eq!(all[0], "com");
    assert_eq!(all[19], "work");
}

#[test]
fn columns_are_as_wide_as_the_widest_name() {
    assert_eq!(column_width("go", &vec!["com", "computer", "io"]), 11);
    assert_eq!(column_width("é", &vec!["io"]), 5);
    assert_eq!(column_width("go", &vec![]), 0);
}

#[test]
fn rows_that_wait() {
    assert_eq!(FRAMES.len(), 10);
    assert_eq!(plain(&pending_spans("go", "io", 7, 0)), "  ⠋  go.io  ");
    assert_eq!(plain(&pending_spans("go", "io", 0, 13)), "  ⠸  go.io");
    assert_eq!(rows_up(20, 0), 20);
    assert_eq!(rows_up(20, 19), 1);
    assert_eq!(rows_up(65537, 1), 0);
}

#[test]
fn finished_rows_are_left_alone() {
    let redraws = spin("go", &vec!["com", "io", "dev"], &vec![false, true, false], 6, 1);
    let shown: Vec<(u16, String)> = redraws.iter().map(|r| (r.up, plain(&r.line))).collect();
    assert_eq!(shown, [(3, "  ⠙  go.com".to_string()), (1, "  ⠙  go.dev".to_string())]);
    assert!(spin("go", &vec!["com"], &vec![true], 6, 1).is_empty());
}

#[test]
fn lines_by_what_a_clock_reads() {
    colored::control::set_override(false);
    let taken = dates(None, None, Some("1970-04-01"));
    assert_eq!(format_result_at("go.ai", &taken, 7, Some(0)), "  ✗  go.ai    exp 1970-04-01");
    assert_eq!(format_result_at("go.ai", &taken, 7, None), "  ✗  go.ai    exp 1970-04-01");
    assert_eq!(format_result_at("go.ai", &Availability::Unknown, 0, Some(9)), "  ?  go.ai");
}

#[test]
fn a_result_finishes_its_row() {
    let tlds = vec!["com", "io", "dev"];
    let mut done = vec![false, false, false];
    let taken = dates(None, None, Some("2001-01-01"));
    let row = finish_row("go", &tlds, &mut done, 1, &taken, 6, Some(89));
    assert_eq!(done, [false, true, false]);
    assert_eq!(row.up, 2);
    assert_eq!(plain(&row.line), "  ✗  go.io   exp 2001-01-01");
    assert_eq!(row.line[5].style, Style::Rgb(220, 100, 60));
    let left: Vec<u16> = spin("go", &tlds, &done, 6, 1).iter().map(|r| r.up).collect();
    assert_eq!(left, [3, 1]);
    let row = finish_row("go", &tlds, &mut done, 0, &Availability::Unknown, 6, None);
    assert_eq!(done, [true, true, false]);
    assert_eq!((row.up, plain(&row.line)), (3, "  ?  go.com".to_string()));
}

#[test]
fn output_of_suggestions() {
    let free = ("a.com".to_string(), Availability::Available);
    let other = ("b.com".to_string(), Availability::Unknown);
    match suggestion_output(&vec![other.clone(), free.clone()], true) {
        SuggestionOutput::Plain(lines) => assert_eq!(lines, ["b.com unknown", "a.com available"]),
        _ => panic!("expected plain lines"),
    }
    match suggestion_output(&vec![], true) {
        SuggestionOutput::Plain(lines) => assert!(lines.is_empty()),
        _ => panic!("expected plain lines"),
    }
    match suggestion_output(&vec![other.clone(), free], false) {
        SuggestionOutput::Found(domains) => assert_eq!(domains, ["a.com"]),
        _ => panic!("expected domains"),
    }
    assert!(matches!(suggestion_output(&vec![other], false), SuggestionOutput::Nothing));
    assert!(matches!(suggestion_output(&vec![], false), SuggestionOutput::Nothing));
}

#[test]
fn what_is_available() {
    let results = vec![
        ("a.com".to_string(), Availability::Available),
        ("b.com".to_string(), Availability::Unknown),
        ("c.com".to_string(), Availability::Available),
    ];
    assert_eq!(available_domains(&results), ["a.com", "c.com"]);
    assert_eq!(available_count(&results), 2);
    assert_eq!(available_count(&vec![]), 0);
    assert_eq!(plain_line("a.com", &Availability::Available), "a.com available");
    assert_eq!(plain_line("a.com", &dates(None, None, None)), "a.com taken");
    assert_eq!(plain_lines(&results), ["a.com available", "b.com unknown", "c.com available"]);
    assert!(plain_lines(&vec![]).is_empty());
    assert_eq!(number_text(0), "0");
    assert_eq!(number_text(1203), "1203");
    assert_eq!(
        plain(&summary_spans(2, 20)),
        "  2 available  ·  20 checked  ·  /help for commands"
    );
}

#[test]
fn help() {
    let help = lines(&help_rows());
    assert_eq!(
        help,
        [
            "",
            "  search",
            "    name                check name across all TLDs",
            "    name.tld            check a single domain",
            "    name+               suggest prefix/suffix variants",
            "    +                   suggest for last searched name",
            "",
            "  watchlist",
            "    /watch <domain>     get notified when a domain frees up",
            "    /unwatch <domain>   stop watching",
            "    /list               show watchlist",
            "",
            "  other",
            "    /help               show this help",
            "    exit, q             quit (also esc)",
            "",
        ]
    );
}

#[test]
fn banner() {
    assert_eq!(
        lines(&banner_rows("0.1.0")),
        [
            "",
            "   ____       _   _ ",
            "  |  _ \\  ___| |_| |_",
            "  | | | |/ _ \\ __| __|",
            "  | |_| | (_) | |_| |_",
            "  |____/ \\___/ \\__|\\__|  v0.1.0",
            "",
            "  private domain search..",
            "  type a name and hit enter. /help for commands.",
            "",
            "",
        ]
    );
    assert_eq!(lines(&title_rows()), ["", "  · d o t t ·", ""]);
    assert_eq!(plain(&prompt_spans()), "  › ");
    assert_eq!(lines(&bye_rows()), ["", "  bye 🐱", ""]);
}

#[test]
fn suggestion_messages() {
    assert_eq!(lines(&no_name_rows()), ["  search for a name first", ""]);
    assert_eq!(plain(&suggesting_spans("zap")), "  suggesting for: zap");
    assert_eq!(
        lines(&generating_rows(&["a".to_string(), "b".to_string()])),
        ["  generating for: a, b", ""]
    );
    assert_eq!(lines(&nothing_rows(" ")), ["  ✗ nothing available", ""]);
    assert_eq!(lines(&nothing_rows("  ")), ["  ✗  nothing available", ""]);
    assert_eq!(
        lines(&found_rows(&vec!["a.com".to_string(), "b.io".to_string()])),
        ["  ✓  a.com", "  ✓  b.io", "", "  2 available", ""]
    );
}

#[test]
fn update_messages() {
    assert_eq!(
        lines(&update_rows("0.2.0", "/opt/homebrew/bin/dott")),
        ["  update available → brew upgrade dott  (v0.2.0)", ""]
    );
}

#[test]
fn watch_messages() {
    assert_eq!(
        lines(&incomplete_rows("zap")),
        ["", "  ! please specify a full domain, e.g. dott --watch zap.com", ""]
    );
    assert_eq!(lines(&already_rows("a.com")), ["", "  · a.com is already being watched", ""]);
    assert_eq!(lines(&not_watched_rows("a.com")), ["", "  · a.com not in watchlist", ""]);
    assert_eq!(lines(&unwatched_rows("a.com")), ["", "  ✓ stopped watching a.com", ""]);
    assert_eq!(
        lines(&watching_rows("a.com", true)),
        ["", "  ✓ watching a.com", "  · it's available right now — go register it!"]
    );
    assert_eq!(
        lines(&watching_rows("a.com", false)),
        ["", "  ✓ watching a.com", "  · you'll get a notification when it becomes available"]
    );
    assert_eq!(
        lines(&first_notice_rows()),
        [
            "  · test notification sent — if you didn't see it, allow notifications for Script Editor in:",
            "     System Settings → Notifications → Script Editor",
        ]
    );
}

#[test]
fn watchlist_messages() {
    assert_eq!(
        lines(&watchlist_rows(&vec![])),
        ["", "  · no domains being watched", "  · use dott --watch <domain> to start", ""]
    );
    let entry = |d: &str, s: &str| WatchEntry { domain: d.to_string(), last_status: s.to_string() };
    let rows = watchlist_rows(&vec![
        entry("a.com", "available"),
        entry("b.com", "taken"),
        entry("c.com", "protected"),
        entry("d.com", "odd"),
    ]);
    assert_eq!(
        lines(&rows),
        [
            "",
            "  watching:",
            "",
            "  ·  a.com  available",
            "  ·  b.com  taken",
            "  ·  c.com  protected",
            "  ·  d.com  odd",
            "",
        ]
    );
    let styles: Vec<Style> = rows[3..7].iter().map(|r| r[5].style).collect();
    assert_eq!(
        styles,
        [
            Style::BrightGreen,
            Style::Rgb(60, 60, 80),
            Style::BrightYellow,
            Style::Rgb(100, 100, 80),
        ]
    );
}
