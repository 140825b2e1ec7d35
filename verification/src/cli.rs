//! What the command line asks for.

use vstd::prelude::*;
use crate::command::{before_dot, chosen_tlds, names_of, search_name, select_tlds};
use crate::model::text_if_any;
use crate::text::texts;

verus! {

/// The arguments of the command line.
pub struct Cli {
    pub name: Option<String>,
    pub tlds: Option<String>,
    pub suggest: Option<Vec<String>>,
    pub plain: bool,
    pub watch: Option<String>,
    pub unwatch: Option<String>,
    pub watching: bool,
    pub background_check: bool,
}

/// What the command line asks for.
pub enum Mode {
    BackgroundCheck,
    Watch(String),
    Unwatch(String),
    List,
    /// The names on the standard input; those without a top-level domain in the
    /// given ones.
    Pipe(Vec<&'static str>),
    /// Names made of keywords, shown plainly or not.
    Suggest { keywords: Vec<String>, plain: bool },
    /// A name in the given top-level domains, shown plainly or not.
    Search { name: String, tlds: Vec<&'static str>, plain: bool },
    Interactive,
}

/// What the command line asks for, as texts.
pub enum Task {
    BackgroundCheck,
    Watch(Seq<char>),
    Unwatch(Seq<char>),
    List,
    Pipe(Seq<Seq<char>>),
    Suggest { keywords: Seq<Seq<char>>, plain: bool },
    Search { name: Seq<char>, tlds: Seq<Seq<char>>, plain: bool },
    Interactive,
}

impl View for Mode {
    type V = Task;

    open spec fn view(&self) -> Task {
        match *self {
            Mode::BackgroundCheck => Task::BackgroundCheck,
            Mode::Watch(domain) => Task::Watch(domain@),
            Mode::Unwatch(domain) => Task::Unwatch(domain@),
            Mode::List => Task::List,
            Mode::Pipe(tlds) => Task::Pipe(names_of(tlds@)),
            Mode::Suggest { keywords, plain } => Task::Suggest {
                keywords: texts(keywords@),
                plain,
            },
            Mode::Search { name, tlds, plain } => Task::Search {
                name: name@,
                tlds: names_of(tlds@),
                plain,
            },
            Mode::Interactive => Task::Interactive,
        }
    }
}

/// What the arguments ask for: the first of these that they do. `terminal` says
/// whether the standard input is a terminal.
pub open spec fn task_of(cli: Cli, terminal: bool) -> Task {
    if cli.background_check {
        Task::BackgroundCheck
    } else if cli.watch is Some {
        Task::Watch(cli.watch->0@)
    } else if cli.unwatch is Some {
        Task::Unwatch(cli.unwatch->0@)
    } else if cli.watching {
        Task::List
    } else if cli.name is None && cli.suggest is None && !terminal {
        Task::Pipe(chosen_tlds(text_if_any(cli.tlds)))
    } else if cli.suggest is Some {
        Task::Suggest { keywords: texts(cli.suggest->0@), plain: cli.plain }
    } else if cli.name is Some {
        Task::Search {
            name: before_dot(cli.name->0@),
            tlds: chosen_tlds(text_if_any(cli.tlds)),
            plain: cli.plain,
        }
    } else {
        Task::Interactive
    }
}

/// The top-level domains that the arguments choose.
fn tlds_of(list: &Option<String>) -> (r: Vec<&'static str>)
    ensures
        names_of(r@) == chosen_tlds(text_if_any(*list)),
{
    match list {
        Some(text) => select_tlds(Some(text.as_str())),
        None => select_tlds(None),
    }
}

/// What the arguments ask for.
pub fn choose_mode(cli: Cli, terminal: bool) -> (r: Mode)
    ensures
        r@ == task_of(cli, terminal),
{
    if cli.background_check {
        return Mode::BackgroundCheck;
    }
    if let Some(domain) = cli.watch {
        return Mode::Watch(domain);
    }
    if let Some(domain) = cli.unwatch {
        return Mode::Unwatch(domain);
    }
    if cli.watching {
        return Mode::List;
    }
    match (cli.suggest, cli.name) {
        (Some(keywords), _) => Mode::Suggest { keywords, plain: cli.plain },
        (None, Some(text)) => Mode::Search {
            name: search_name(text.as_str()),
            tlds: tlds_of(&cli.tlds),
            plain: cli.plain,
        },
        (None, None) => if terminal {
            Mode::Interactive
        } else {
            Mode::Pipe(tlds_of(&cli.tlds))
        },
    }
}

/// Law: a background check is asked for by itself, and it is what is done
/// whatever else is asked for.
pub proof fn law_background_check(cli: Cli, terminal: bool)
    ensures
        task_of(cli, terminal) == Task::BackgroundCheck <==> cli.background_check,
{
}

/// Law: the prompt is shown only on a terminal, and only where nothing is asked
/// for.
pub proof fn law_interactive(cli: Cli, terminal: bool)
    ensures
        task_of(cli, terminal) == Task::Interactive <==> terminal && cli.name is None
            && cli.suggest is None && cli.watch is None && cli.unwatch is None && !cli.watching
            && !cli.background_check,
{
}

/// Law: each task is done only for the argument that asks for it, with what that
/// argument holds, and never where one that comes before it is given.
pub proof fn law_task(cli: Cli, terminal: bool)
    ensures
        match task_of(cli, terminal) {
            Task::BackgroundCheck => cli.background_check,
            Task::Watch(domain) => !cli.background_check && text_if_any(cli.watch) == Some(domain),
            Task::Unwatch(domain) => !cli.background_check && cli.watch is None && text_if_any(
                cli.unwatch,
            ) == Some(domain),
            Task::List => !cli.background_check && cli.watch is None && cli.unwatch is None
                && cli.watching,
            Task::Pipe(tlds) => !cli.background_check && cli.watch is None && cli.unwatch is None
                && !cli.watching && !terminal && cli.name is None && cli.suggest is None && tlds
                == chosen_tlds(text_if_any(cli.tlds)),
            Task::Suggest { keywords, plain } => !cli.background_check && cli.watch is None
                && cli.unwatch is None && !cli.watching && (cli.suggest matches Some(list)
                && keywords == texts(list@)) && plain == cli.plain,
            Task::Search { name, tlds, plain } => !cli.background_check && cli.watch is None
                && cli.unwatch is None && !cli.watching && cli.suggest is None && (cli.name matches Some(
                text,
            ) && name == before_dot(text@)) && tlds == chosen_tlds(text_if_any(cli.tlds)) && plain
                == cli.plain,
            Task::Interactive => !cli.background_check && cli.watch is None && cli.unwatch is None
                && !cli.watching && cli.suggest is None && cli.name is None && terminal,
        },
{
}

} // verus!
