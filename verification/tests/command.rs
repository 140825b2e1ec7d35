use dott::cli::{choose_mode, Cli, Mode};
use dott::command::{
    all_tlds, read_command, read_piped_line, search_name, select_tlds, Command,
};
use dott::config::ALL_TLDS;
use dott::input::{press, Key, Reaction};

fn ask(line: &str, last: &mut Option<String>) -> String {
    match read_command(line, last) {
        Command::Nothing => "nothing".to_string(),
        Command::Quit => "quit".to_string(),
        Command::NoName => "no name".to_string(),
        Command::Suggest(name) => format!("suggest {}", name),
        Command::Watch(domain) => format!("watch {}", domain),
        Command::Unwatch(domain) => format!("unwatch {}", domain),
        Command::List => "list".to_string(),
        Command::Help => "help".to_string(),
        Command::Search { name, tlds } if tlds == ALL_TLDS => format!("search {}", name),
        Command::Search { name, tlds } => format!("search {} in {}", name, tlds.join(",")),
    }
}

fn empty() -> Cli {
    Cli {
        name: None,
        tlds: None,
        suggest: None,
        plain: false,
        watch: None,
        unwatch: None,
        watching: false,
        background_check: false,
    }
}

#[test]
fn lines_at_the_prompt() {
    let mut last = None;
    assert_eq!(ask("", &mut last), "nothing");
    assert_eq!(ask(" \t ", &mut last), "nothing");
    assert_eq!(ask("exit", &mut last), "quit");
    assert_eq!(ask(" quit ", &mut last), "quit");
    assert_eq!(ask("q", &mut last), "quit");
    assert_eq!(ask("Q", &mut last), "search Q");
    assert_eq!(ask("/list", &mut last), "list");
    assert_eq!(ask("/help", &mut last), "help");
    assert_eq!(ask("/watch  go.ai ", &mut last), "watch go.ai");
    assert_eq!(ask("/unwatch go.ai", &mut last), "unwatch go.ai");
    assert_eq!(ask("/watch", &mut last), "search /watch");
    assert_eq!(ask("/watching x", &mut last), "search /watching x");
    assert_eq!(ask("go.ai", &mut last), "search go in ai");
    assert_eq!(ask(" a.b.com ", &mut last), "search a.b in com");
    assert_eq!(ask("go.zip", &mut last), "search go");
    assert_eq!(ask("go.AI", &mut last), "search go");
    assert_eq!(ask("\u{a0}go\u{3000}", &mut last), "search go");
    assert_eq!(ask("/watch go+", &mut last), "suggest /watch go");
}

#[test]
fn plus_asks_for_variants() {
    let mut last = None;
    assert_eq!(ask("+", &mut last), "no name");
    assert_eq!(ask("go+", &mut last), "suggest go");
    assert_eq!(last, None);
    assert_eq!(ask("go.ai+", &mut last), "suggest go");
    assert_eq!(ask("++", &mut last), "suggest +");
    assert_eq!(ask("zap.com", &mut last), "search zap in com");
    assert_eq!(last.as_deref(), Some("zap"));
    assert_eq!(ask("/help", &mut last), "help");
    assert_eq!(ask(" + ", &mut last), "suggest zap");
    assert_eq!(last.as_deref(), Some("zap"));
    assert_eq!(ask("a.b.io", &mut last), "search a.b in io");
    assert_eq!(ask("+", &mut last), "suggest a");
}

#[test]
fn names_stop_at_the_first_dot() {
    assert_eq!(search_name("a.b.c"), "a");
    assert_eq!(search_name("abc"), "abc");
    assert_eq!(search_name(".x"), "");
    assert_eq!(search_name(&search_name("a.b")), search_name("a.b"));
}

#[test]
fn lists_of_tlds() {
    assert_eq!(all_tlds(), ALL_TLDS.to_vec());
    assert_eq!(select_tlds(None), ALL_TLDS.to_vec());
    assert_eq!(select_tlds(Some("io, com ,zip,io")), vec!["io", "com", "io"]);
    assert!(select_tlds(Some("")).is_empty());
    assert!(select_tlds(Some("IO,.com")).is_empty());
}

#[test]
fn lines_from_a_pipe() {
    let tlds = vec!["io", "dev"];
    let read = |line: &str| read_piped_line(line, &tlds);
    assert_eq!(read("  zap \r"), Some(("zap".to_string(), vec!["io", "dev"])));
    assert_eq!(read("zap.com"), Some(("zap".to_string(), vec!["com"])));
    assert_eq!(read("a.b.com"), Some(("a.b".to_string(), vec!["com"])));
    assert_eq!(read("zap.zip"), None);
    assert_eq!(read("zap."), None);
    assert_eq!(read("   "), None);
    assert_eq!(read(""), None);
}

#[test]
fn the_first_request_on_the_command_line_counts() {
    let text = |s: &str| Some(s.to_string());
    let all = Cli {
        name: text("a"),
        tlds: None,
        suggest: Some(vec!["k".to_string()]),
        plain: true,
        watch: text("w.com"),
        unwatch: text("u.com"),
        watching: true,
        background_check: true,
    };
    assert!(matches!(choose_mode(all, true), Mode::BackgroundCheck));
    let cli = Cli { watch: text("w.com"), unwatch: text("u.com"), watching: true, ..empty() };
    assert!(matches!(choose_mode(cli, true), Mode::Watch(d) if d == "w.com"));
    let cli = Cli { unwatch: text("u.com"), watching: true, name: text("n"), ..empty() };
    assert!(matches!(choose_mode(cli, false), Mode::Unwatch(d) if d == "u.com"));
    let cli = Cli { watching: true, name: text("n"), ..empty() };
    assert!(matches!(choose_mode(cli, false), Mode::List));
    let cli = Cli { suggest: Some(vec!["k".to_string()]), name: text("n"), plain: true, ..empty() };
    match choose_mode(cli, false) {
        Mode::Suggest { keywords, plain } => {
            assert_eq!(keywords, ["k"]);
            assert!(plain);
        }
        _ => panic!("expected suggestions"),
    }
    let cli = Cli { name: text("go.ai"), tlds: text("io,net"), ..empty() };
    match choose_mode(cli, false) {
        Mode::Search { name, tlds, plain } => {
            assert_eq!(name, "go");
            assert_eq!(tlds, ["io", "net"]);
            assert!(!plain);
        }
        _ => panic!("expected a search"),
    }
}

#[test]
fn the_prompt_is_for_a_terminal() {
    assert!(matches!(choose_mode(empty(), true), Mode::Interactive));
    match choose_mode(empty(), false) {
        Mode::Pipe(tlds) => assert_eq!(tlds, ALL_TLDS.to_vec()),
        _ => panic!("expected a pipe"),
    }
    let cli = Cli { tlds: Some("fm".to_string()), ..empty() };
    match choose_mode(cli, false) {
        Mode::Pipe(tlds) => assert_eq!(tlds, ["fm"]),
        _ => panic!("expected a pipe"),
    }
}

#[test]
fn keys_edit_the_line() {
    let mut line = String::new();
    assert!(matches!(press(&mut line, Key::Backspace), Reaction::Nothing));
    assert!(matches!(press(&mut line, Key::Character('c', false)), Reaction::Echo('c')));
    assert!(matches!(press(&mut line, Key::Character('é', true)), Reaction::Echo('é')));
    assert_eq!(line, "cé");
    assert!(matches!(press(&mut line, Key::Other), Reaction::Nothing));
    assert!(matches!(press(&mut line, Key::Backspace), Reaction::Erase));
    assert_eq!(line, "c");
    assert!(matches!(press(&mut line, Key::Enter), Reaction::Submit));
    assert!(matches!(press(&mut line, Key::Escape), Reaction::Cancel));
    assert!(matches!(press(&mut line, Key::Character('c', true)), Reaction::Cancel));
    assert!(matches!(press(&mut line, Key::Character('C', true)), Reaction::Echo('C')));
    assert_eq!(line, "cC");
}
