use dott::format::format_result_at;
use dott::model::{Availability, DomainDates};
use dott::paint::{paint, render, span, Style};

fn coloured(text: &str, style: Style) -> String {
    colored::control::set_override(true);
    paint(text, style)
}

#[test]
fn basic_colours() {
    assert_eq!(coloured("x", Style::Plain), "x");
    assert_eq!(coloured("x", Style::BrightGreen), "\u{1b}[92mx\u{1b}[0m");
    assert_eq!(coloured("x", Style::BrightGreenBold), "\u{1b}[1;92mx\u{1b}[0m");
    assert_eq!(coloured("x", Style::BrightWhite), "\u{1b}[97mx\u{1b}[0m");
    assert_eq!(coloured("x", Style::BrightWhiteBold), "\u{1b}[1;97mx\u{1b}[0m");
    assert_eq!(coloured("x", Style::BrightYellow), "\u{1b}[93mx\u{1b}[0m");
    assert_eq!(coloured("x", Style::BrightYellowBold), "\u{1b}[1;93mx\u{1b}[0m");
    assert_eq!(coloured("x", Style::BrightMagentaBold), "\u{1b}[1;95mx\u{1b}[0m");
}

#[test]
fn colours_of_red_green_and_blue() {
    let out = coloured("é x", Style::Rgb(100, 0, 255));
    let full = "\u{1b}[38;2;100;0;255mé x\u{1b}[0m";
    let basic = out.starts_with("\u{1b}[") && out.ends_with("mé x\u{1b}[0m");
    assert!(out == full || basic);
}

#[test]
fn a_colour_goes_on_after_a_reset() {
    assert_eq!(
        coloured("a\u{1b}[0mb", Style::BrightGreen),
        "\u{1b}[92ma\u{1b}[0m\u{1b}[92mb\u{1b}[0m"
    );
}

#[test]
fn an_empty_text_has_its_escapes() {
    assert_eq!(coloured("", Style::BrightWhite), "\u{1b}[97m\u{1b}[0m");
}

#[test]
fn lines_are_shown_span_by_span() {
    colored::control::set_override(true);
    let line = vec![
        span("  ", Style::Plain),
        span("✓", Style::BrightGreenBold),
        span(" ok", Style::Plain),
    ];
    assert_eq!(render(&line), "  \u{1b}[1;92m✓\u{1b}[0m ok");
}

#[test]
fn the_colour_of_an_expiry_goes_by_the_clock() {
    colored::control::set_override(true);
    let dates =
        DomainDates { registered: None, updated: None, expires: Some("1972-01-01".to_string()) };
    let status = Availability::Taken(dates);
    let shown = |clock: Option<u64>| format_result_at("go.ai", &status, 0, clock);
    let label = |r: u8, g: u8, b: u8| paint("  exp 1972-01-01", Style::Rgb(r, g, b));
    assert!(shown(Some(0)).ends_with(&label(110, 100, 150)));
    assert!(shown(Some(366 * 86400)).ends_with(&label(200, 170, 60)));
    assert!(shown(Some(641 * 86400)).ends_with(&label(220, 100, 60)));
    assert!(shown(None).ends_with(&label(110, 100, 150)));
}
