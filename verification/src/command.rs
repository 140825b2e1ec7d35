//! What is asked for: a line at the prompt, a line from a pipe, a list of
//! top-level domains.

use vstd::prelude::*;
use crate::config::{ALL_TLDS, domain_of, find_tld, is_known_tld, law_domain_tld};
use crate::model::text_if_any;
use crate::text::{
    begins_with, chars_of, find_char, first_of, last_of, law_split_at_mark,
    law_split_without_mark, lemma_first_of, lemma_first_of_at, lemma_last_of, rfind_char,
    same_text, split_on, split_text, text_of, texts, trim_end, trim_start, trim_text, trimmed,
};

verus! {

/// Top-level domains as texts.
pub open spec fn names_of(tlds: Seq<&'static str>) -> Seq<Seq<char>> {
    Seq::new(tlds.len(), |i: int| tlds[i]@)
}

/// The known top-level domains of a list with commas, or all where there is none.
pub open spec fn chosen_tlds(list: Option<Seq<char>>) -> Seq<Seq<char>> {
    match list {
        Some(text) => split_on(text, ',').map_values(|part: Seq<char>| trimmed(part)).filter(
            |tld: Seq<char>| is_known_tld(tld),
        ),
        None => names_of(ALL_TLDS@),
    }
}

/// All top-level domains that are searched.
pub fn all_tlds() -> (r: Vec<&'static str>)
    ensures
        r@ == ALL_TLDS@,
{
    let mut out: Vec<&'static str> = Vec::new();
    let mut i: usize = 0;
    while i < 20
        invariant
            i <= 20,
            out@ == ALL_TLDS@.take(i as int),
        decreases 20 - i,
    {
        out.push(ALL_TLDS[i]);
        i += 1;
        assert(ALL_TLDS@.take(i as int) =~= ALL_TLDS@.take(i - 1).push(ALL_TLDS@[i - 1]));
    }
    assert(ALL_TLDS@.take(20) =~= ALL_TLDS@);
    out
}

/// The known top-level domains of a list with commas, in its order.
fn known_tlds(list: &str) -> (r: Vec<&'static str>)
    ensures
        names_of(r@) == chosen_tlds(Some(list@)),
{
    let parts = split_text(list, ',');
    let ghost all = split_on(list@, ',').map_values(|part: Seq<char>| trimmed(part));
    let ghost known = |tld: Seq<char>| is_known_tld(tld);
    let mut out: Vec<&'static str> = Vec::new();
    let mut i: usize = 0;
    proof {
        reveal(Seq::filter);
        assert(names_of(out@) =~= all.take(0).filter(known));
    }
    while i < parts.len()
        invariant
            i <= parts@.len(),
            texts(parts@) == split_on(list@, ','),
            all == split_on(list@, ',').map_values(|part: Seq<char>| trimmed(part)),
            known == (|tld: Seq<char>| is_known_tld(tld)),
            names_of(out@) == all.take(i as int).filter(known),
        decreases parts@.len() - i,
    {
        let part = trim_text(parts[i].as_str());
        proof {
            assert(texts(parts@)[i as int] == parts@[i as int]@);
            assert(all[i as int] == part@);
            assert(all.take(i + 1) =~= all.take(i as int).push(part@));
            all.take(i as int).lemma_filter_push(part@, known);
        }
        if let Some(tld) = find_tld(part.as_str()) {
            let ghost before = out@;
            out.push(tld);
            assert(names_of(out@) =~= names_of(before).push(tld@));
        }
        i += 1;
    }
    assert(texts(parts@).len() == parts@.len());
    assert(all.take(i as int) =~= all);
    out
}

/// The top-level domains that are searched where a list is given, or all.
pub fn select_tlds(list: Option<&str>) -> (r: Vec<&'static str>)
    ensures
        names_of(r@) == chosen_tlds(
            match list {
                Some(text) => Some(text@),
                None => None,
            },
        ),
{
    match list {
        Some(text) => known_tlds(text),
        None => all_tlds(),
    }
}

/// What stands before the first dot, or all where there is none.
pub open spec fn before_dot(text: Seq<char>) -> Seq<char> {
    text.take(first_of(text, '.'))
}

/// What stands before the first dot, or all where there is none.
pub fn search_name(text: &str) -> (r: String)
    ensures
        r@ == before_dot(text@),
{
    let chars = chars_of(text);
    assert(chars@.skip(0) =~= chars@);
    let dot = find_char(chars.as_slice(), 0, '.');
    text_of(chars.as_slice(), 0, dot)
}

/// The name and the top-level domain of a full domain: what stands before the
/// last dot and after it, where that top-level domain is known.
pub open spec fn full_domain(text: Seq<char>) -> Option<(Seq<char>, Seq<char>)> {
    let dot = last_of(text, '.');
    if dot >= 0 && is_known_tld(text.skip(dot + 1)) {
        Some((text.take(dot), text.skip(dot + 1)))
    } else {
        None
    }
}

/// A list of one top-level domain.
fn only(tld: &'static str) -> (r: Vec<&'static str>)
    ensures
        names_of(r@) == seq![tld@],
{
    let mut one: Vec<&'static str> = Vec::new();
    one.push(tld);
    assert(names_of(one@) =~= seq![tld@]);
    one
}

/// The name and the top-level domain of a full domain.
fn read_full_domain(text: &str) -> (r: Option<(String, &'static str)>)
    ensures
        match r {
            Some((name, tld)) => Some((name@, tld@)),
            None => None,
        } == full_domain(text@),
{
    let chars = chars_of(text);
    let length = chars.len();
    match rfind_char(chars.as_slice(), '.') {
        Some(dot) => {
            let name = text_of(chars.as_slice(), 0, dot);
            let ending = text_of(chars.as_slice(), dot + 1, length);
            proof {
                assert(name@ =~= text@.take(dot as int));
                assert(ending@ =~= text@.skip(dot + 1));
            }
            match find_tld(ending.as_str()) {
                Some(tld) => Some((name, tld)),
                None => None,
            }
        },
        None => None,
    }
}

/// What a line from a pipe asks for: a name and where to look for it. A line
/// that is blank, or whose top-level domain is not known, asks for nothing.
pub open spec fn piped_search(line: Seq<char>, tlds: Seq<Seq<char>>) -> Option<
    (Seq<char>, Seq<Seq<char>>),
> {
    let text = trimmed(line);
    if text.len() == 0 {
        None
    } else if !text.contains('.') {
        Some((text, tlds))
    } else {
        match full_domain(text) {
            Some((name, tld)) => Some((name, seq![tld])),
            None => None,
        }
    }
}

/// What a line from a pipe asks for, where names without a top-level domain are
/// searched in the given ones.
pub fn read_piped_line(line: &str, tlds: &Vec<&'static str>) -> (r: Option<
    (String, Vec<&'static str>),
>)
    ensures
        match r {
            Some(search) => Some((search.0@, names_of(search.1@))),
            None => None,
        } == piped_search(line@, names_of(tlds@)),
{
    let text = trim_text(line);
    let chars = chars_of(text.as_str());
    if chars.len() == 0 {
        return None;
    }
    proof {
        lemma_last_of(text@, '.');
    }
    if rfind_char(chars.as_slice(), '.').is_some() {
        assert(text@[last_of(text@, '.')] == '.');
        return match read_full_domain(text.as_str()) {
            Some((name, tld)) => Some((name, only(tld))),
            None => None,
        };
    }
    let mut copy: Vec<&'static str> = Vec::new();
    let mut i: usize = 0;
    while i < tlds.len()
        invariant
            i <= tlds@.len(),
            copy@ == tlds@.take(i as int),
        decreases tlds@.len() - i,
    {
        copy.push(tlds[i]);
        i += 1;
        assert(tlds@.take(i as int) =~= tlds@.take(i - 1).push(tlds@[i - 1]));
    }
    assert(tlds@.take(i as int) =~= tlds@);
    Some((text, copy))
}

/// What a line at the prompt asks for.
pub enum Command {
    /// The line is blank.
    Nothing,
    Quit,
    /// Suggestions for the last name, and no name was searched yet.
    NoName,
    Suggest(String),
    Watch(String),
    Unwatch(String),
    List,
    Help,
    /// A name in the given top-level domains.
    Search { name: String, tlds: Vec<&'static str> },
}

/// What a line at the prompt asks for, as texts.
pub enum Request {
    Nothing,
    Quit,
    NoName,
    Suggest(Seq<char>),
    Watch(Seq<char>),
    Unwatch(Seq<char>),
    List,
    Help,
    Search { name: Seq<char>, tlds: Seq<Seq<char>> },
}

impl View for Command {
    type V = Request;

    open spec fn view(&self) -> Request {
        match *self {
            Command::Nothing => Request::Nothing,
            Command::Quit => Request::Quit,
            Command::NoName => Request::NoName,
            Command::Suggest(name) => Request::Suggest(name@),
            Command::Watch(domain) => Request::Watch(domain@),
            Command::Unwatch(domain) => Request::Unwatch(domain@),
            Command::List => Request::List,
            Command::Help => Request::Help,
            Command::Search { name, tlds } => Request::Search {
                name: name@,
                tlds: names_of(tlds@),
            },
        }
    }
}

/// What a line ending in `+` asks for, by what stands before the `+`: variants
/// of that name, or of the last one where nothing stands there.
pub open spec fn suggestion_request(before: Seq<char>, last: Option<Seq<char>>) -> Request {
    if before.len() > 0 {
        Request::Suggest(before_dot(before))
    } else {
        match last {
            Some(name) => Request::Suggest(name),
            None => Request::NoName,
        }
    }
}

/// What a search at the prompt is for: a full domain alone, and any other name,
/// up to its first dot, in all top-level domains.
pub open spec fn search_request(text: Seq<char>) -> Request {
    match full_domain(text) {
        Some((name, tld)) => Request::Search { name, tlds: seq![tld] },
        None => Request::Search { name: before_dot(text), tlds: names_of(ALL_TLDS@) },
    }
}

/// What a line at the prompt asks for, where `last` is the name that was
/// searched last.
pub open spec fn request_of(line: Seq<char>, last: Option<Seq<char>>) -> Request {
    let text = trimmed(line);
    if text.len() == 0 {
        Request::Nothing
    } else if text == "exit"@ || text == "quit"@ || text == "q"@ {
        Request::Quit
    } else if text.last() == '+' {
        suggestion_request(text.drop_last(), last)
    } else if "/watch "@.is_prefix_of(text) {
        Request::Watch(trimmed(text.skip("/watch "@.len() as int)))
    } else if "/unwatch "@.is_prefix_of(text) {
        Request::Unwatch(trimmed(text.skip("/unwatch "@.len() as int)))
    } else if text == "/list"@ {
        Request::List
    } else if text == "/help"@ {
        Request::Help
    } else {
        search_request(text)
    }
}

/// The name that was searched last, after a request: a search changes it to what
/// stands before the first dot of its name, and nothing else does.
pub open spec fn last_after(last: Option<Seq<char>>, request: Request) -> Option<Seq<char>> {
    match request {
        Request::Search { name, .. } => Some(before_dot(name)),
        _ => last,
    }
}

/// What stands behind a prefix, with no white space around it.
fn after_prefix(chars: &[char], prefix: &str) -> (r: Option<String>)
    ensures
        text_if_any(r) == if prefix@.is_prefix_of(chars@) {
            Some(trimmed(chars@.skip(prefix@.len() as int)))
        } else {
            None
        },
{
    let start = chars_of(prefix);
    if begins_with(chars, start.as_slice()) {
        let rest = text_of(chars, start.len(), chars.len());
        assert(rest@ =~= chars@.skip(prefix@.len() as int));
        Some(trim_text(rest.as_str()))
    } else {
        None
    }
}

/// What a line ending in `+` asks for, by what stands before the `+`.
fn read_suggestion(before: &str, last: &Option<String>) -> (r: Command)
    ensures
        r@ == suggestion_request(before@, text_if_any(*last)),
{
    if before.unicode_len() > 0 {
        return Command::Suggest(search_name(before));
    }
    match last {
        Some(name) => Command::Suggest(name.clone()),
        None => Command::NoName,
    }
}

/// What a line at the prompt asks for.
fn read_request(line: &str, last: &Option<String>) -> (r: Command)
    ensures
        r@ == request_of(line@, text_if_any(*last)),
{
    let input = trim_text(line);
    let text = input.as_str();
    let chars = chars_of(text);
    let length = chars.len();
    if length == 0 {
        return Command::Nothing;
    }
    if same_text(text, "exit") || same_text(text, "quit") || same_text(text, "q") {
        return Command::Quit;
    }
    if chars[length - 1] == '+' {
        let before = text_of(chars.as_slice(), 0, length - 1);
        assert(before@ =~= text@.drop_last());
        return read_suggestion(before.as_str(), last);
    }
    if let Some(domain) = after_prefix(chars.as_slice(), "/watch ") {
        return Command::Watch(domain);
    }
    if let Some(domain) = after_prefix(chars.as_slice(), "/unwatch ") {
        return Command::Unwatch(domain);
    }
    if same_text(text, "/list") {
        return Command::List;
    }
    if same_text(text, "/help") {
        return Command::Help;
    }
    match read_full_domain(text) {
        Some((name, tld)) => Command::Search { name, tlds: only(tld) },
        None => Command::Search { name: search_name(text), tlds: all_tlds() },
    }
}

/// Reads a line at the prompt, and remembers the name that it searches.
pub fn read_command(line: &str, last: &mut Option<String>) -> (r: Command)
    ensures
        r@ == request_of(line@, text_if_any(*old(last))),
        text_if_any(*final(last)) == last_after(text_if_any(*old(last)), r@),
{
    let command = read_request(line, last);
    if let Command::Search { name, .. } = &command {
        *last = Some(search_name(name.as_str()));
    }
    command
}

/// Law: every top-level domain that is chosen is one that is searched.
pub proof fn law_chosen_tlds(list: Option<Seq<char>>, i: int)
    requires
        0 <= i < chosen_tlds(list).len(),
    ensures
        is_known_tld(chosen_tlds(list)[i]),
{
    match list {
        Some(text) => {
            let all = split_on(text, ',').map_values(|part: Seq<char>| trimmed(part));
            let known = |tld: Seq<char>| is_known_tld(tld);
            all.lemma_filter_pred(known, i);
        },
        None => {
            assert(ALL_TLDS@[i]@ == chosen_tlds(list)[i]);
        },
    }
}

/// Law: what is before the first dot has no dot in it, and a name without a dot
/// is kept as it is.
pub proof fn law_search_name(text: Seq<char>)
    ensures
        !before_dot(text).contains('.'),
        !text.contains('.') ==> before_dot(text) == text,
        before_dot(before_dot(text)) == before_dot(text),
{
    let name = before_dot(text);
    lemma_first_of(text, '.');
    lemma_first_of(name, '.');
    if !text.contains('.') {
        assert(name =~= text);
    }
    assert(before_dot(name) =~= name);
}

/// Law: a full domain in a known top-level domain is searched at the prompt by
/// itself: that domain and no other. Any other name is searched in all top-level
/// domains.
pub proof fn law_single_domain(line: Seq<char>, last: Option<Seq<char>>)
    requires
        request_of(line, last) is Search,
    ensures
        ({
            let text = trimmed(line);
            let search = request_of(line, last);
            match full_domain(text) {
                Some(_) => search->tlds.len() == 1 && domain_of(search->name, search->tlds[0])
                    == text,
                None => search->tlds == names_of(ALL_TLDS@) && !search->name.contains('.'),
            }
        }),
{
    let text = trimmed(line);
    lemma_last_of(text, '.');
    law_search_name(text);
    if full_domain(text) is Some {
        let dot = last_of(text, '.');
        assert(text[dot] == '.');
        assert(domain_of(text.take(dot), text.skip(dot + 1)) =~= text);
    }
}

/// Law: at the prompt, too, only known top-level domains are searched.
pub proof fn law_prompt_searches_known_tlds(line: Seq<char>, last: Option<Seq<char>>, i: int)
    requires
        request_of(line, last) is Search,
        0 <= i < request_of(line, last)->tlds.len(),
    ensures
        is_known_tld(request_of(line, last)->tlds[i]),
{
    if full_domain(trimmed(line)) is None {
        assert(ALL_TLDS@[i]@ == request_of(line, last)->tlds[i]);
    }
}

/// Law: a line from a pipe is only ever searched in top-level domains that are
/// known, where the default ones are.
pub proof fn law_piped_search(line: Seq<char>, tlds: Seq<Seq<char>>)
    requires
        forall|i: int| 0 <= i < tlds.len() ==> is_known_tld(#[trigger] tlds[i]),
    ensures
        piped_search(line, tlds) matches Some(search) ==> forall|i: int|
            0 <= i < search.1.len() ==> is_known_tld(#[trigger] search.1[i]),
{
}

/// Law: after a search, a bare `+` asks for variants of what stands before the
/// first dot of what was searched.
pub proof fn law_plus_after_search(line: Seq<char>, last: Option<Seq<char>>)
    requires
        request_of(line, last) is Search,
    ensures
        request_of("+"@, last_after(last, request_of(line, last))) == Request::Suggest(
            before_dot(trimmed(line)),
        ),
{
    reveal_strlit("+");
    lemma_plus();
    lemma_before_dots(trimmed(line));
}

/// What stands before the first dot of a full domain's name stands there in the
/// domain.
proof fn lemma_before_dots(text: Seq<char>)
    ensures
        search_request(text) matches Request::Search { name, .. } && before_dot(name)
            == before_dot(text),
{
    law_search_name(text);
    if let Some((name, _)) = full_domain(text) {
        let dot = last_of(text, '.');
        let i = first_of(text, '.');
        lemma_last_of(text, '.');
        lemma_first_of(text, '.');
        assert(text[dot] == '.');
        assert forall|j: int| 0 <= j < i implies name[j] != '.' by {
            assert(name[j] == text[j]);
        }
        assert(i < dot ==> name[i] == '.');
        lemma_first_of_at(name, '.', i);
        assert(before_dot(name) =~= before_dot(text));
    }
}

/// A bare `+` is no word of the prompt, and nothing stands before it.
proof fn lemma_plus()
    ensures
        trimmed("+"@) == "+"@,
        "+"@.len() == 1 && "+"@[0] == '+',
        "+"@ != "exit"@ && "+"@ != "quit"@ && "+"@ != "q"@,
{
    reveal_strlit("+");
    reveal_strlit("exit");
    reveal_strlit("quit");
    reveal_strlit("q");
    let plus = "+"@;
    assert("exit"@.len() == 4 && "quit"@.len() == 4);
    assert("q"@[0] == 'q');
    reveal_with_fuel(trim_start, 2);
    reveal_with_fuel(trim_end, 2);
}

/// Law: what stands before the first dot of a text is the name in it.
pub proof fn law_before_first_dot(a: Seq<char>, b: Seq<char>)
    requires
        !a.contains('.'),
    ensures
        before_dot(a + seq!['.'] + b) == a,
        before_dot(a) == a,
{
    let s = a + seq!['.'] + b;
    assert forall|j: int| 0 <= j < a.len() implies s[j] != '.' by {
        assert(a.contains(a[j]));
    }
    assert(s[a.len() as int] == '.');
    lemma_first_of_at(s, '.', a.len() as int);
    assert(s.take(a.len() as int) =~= a);
    law_search_name(a);
}

/// Law: a list of top-level domains is read part by part: a part that is known,
/// with or without white space around it, is chosen, and any other is passed
/// over. Without a list all are chosen.
pub proof fn law_list_of_tlds(a: Seq<char>, rest: Seq<char>, i: int)
    requires
        !a.contains(','),
    ensures
        chosen_tlds(Some(a + seq![','] + rest)) == chosen_tlds(Some(a)) + chosen_tlds(Some(rest)),
        is_known_tld(trimmed(a)) ==> chosen_tlds(Some(a)) == seq![trimmed(a)],
        !is_known_tld(trimmed(a)) ==> chosen_tlds(Some(a)) == Seq::<Seq<char>>::empty(),
        chosen_tlds(None).len() == 20,
        0 <= i < 20 ==> chosen_tlds(None)[i] == ALL_TLDS@[i]@,
{
    let known = |tld: Seq<char>| is_known_tld(tld);
    let trim = |part: Seq<char>| trimmed(part);
    law_split_at_mark(a, ',', rest);
    law_split_without_mark(a, ',');
    let one = seq![a].map_values(trim);
    let more = split_on(rest, ',').map_values(trim);
    assert((seq![a] + split_on(rest, ',')).map_values(trim) =~= one + more);
    Seq::filter_distributes_over_add(one, more, known);
    assert(one =~= Seq::<Seq<char>>::empty().push(trimmed(a)));
    Seq::<Seq<char>>::empty().lemma_filter_push(trimmed(a), known);
    assert(Seq::<Seq<char>>::empty().filter(known) =~= Seq::<Seq<char>>::empty()) by {
        reveal(Seq::filter);
    }
    assert(Seq::<Seq<char>>::empty().push(trimmed(a)) =~= seq![trimmed(a)]);
}

/// The last dot of a domain stands before its top-level domain.
proof fn lemma_full_domain(name: Seq<char>, tld: Seq<char>)
    requires
        !tld.contains('.'),
    ensures
        full_domain(name + seq!['.'] + tld) == if is_known_tld(tld) {
            Some((name, tld))
        } else {
            None
        },
        full_domain(tld) is None,
        (name + seq!['.'] + tld).contains('.'),
{
    law_domain_tld(name, tld);
    let d = domain_of(name, tld);
    assert(d.take(name.len() as int) =~= name);
    assert(d.skip(name.len() as int + 1) =~= tld);
    assert(d[name.len() as int] == '.');
    lemma_last_of(tld, '.');
    if last_of(tld, '.') >= 0 {
        assert(tld.contains(tld[last_of(tld, '.')]));
    }
}

/// Law: a blank line from a pipe asks for nothing; a name without a dot is
/// searched in the given top-level domains; and a domain is searched by itself
/// where its top-level domain is known, and not at all where it is not.
pub proof fn law_piped_line(
    line: Seq<char>,
    tlds: Seq<Seq<char>>,
    name: Seq<char>,
    tld: Seq<char>,
)
    requires
        !tld.contains('.'),
    ensures
        trimmed(line).len() == 0 ==> piped_search(line, tlds) is None,
        trimmed(line).len() > 0 && trimmed(line) == tld ==> piped_search(line, tlds) == Some(
            (tld, tlds),
        ),
        trimmed(line) == name + seq!['.'] + tld && is_known_tld(tld) ==> piped_search(line, tlds)
            == Some((name, seq![tld])),
        trimmed(line) == name + seq!['.'] + tld && !is_known_tld(tld) ==> piped_search(line, tlds)
            is None,
{
    lemma_full_domain(name, tld);
}

/// Law: what a line at the prompt asks for tells what the line is: each request
/// comes from lines of its own kind, with what they hold.
pub proof fn law_prompt(line: Seq<char>, last: Option<Seq<char>>)
    ensures
        ({
            let text = trimmed(line);
            match request_of(line, last) {
                Request::Nothing => text.len() == 0,
                Request::Quit => text == "exit"@ || text == "quit"@ || text == "q"@,
                Request::NoName => text == seq!['+'] && last is None,
                Request::Suggest(name) => text.len() > 0 && text.last() == '+' && if text.len() == 1 {
                    last == Some(name)
                } else {
                    name == before_dot(text.take(text.len() - 1))
                },
                Request::Watch(domain) => text.last() != '+' && exists|rest: Seq<char>|
                    text == #[trigger] ("/watch "@ + rest) && domain == trimmed(rest),
                Request::Unwatch(domain) => text.last() != '+' && exists|rest: Seq<char>|
                    text == #[trigger] ("/unwatch "@ + rest) && domain == trimmed(rest),
                Request::List => text == "/list"@,
                Request::Help => text == "/help"@,
                Request::Search { .. } => {
                    &&& text.len() > 0
                    &&& text.last() != '+'
                    &&& text != "exit"@ && text != "quit"@ && text != "q"@
                    &&& text != "/list"@ && text != "/help"@
                    &&& forall|rest: Seq<char>| text != #[trigger] ("/watch "@ + rest)
                    &&& forall|rest: Seq<char>| text != #[trigger] ("/unwatch "@ + rest)
                },
            }
        }),
{
    let text = trimmed(line);
    let watch = "/watch "@;
    let unwatch = "/unwatch "@;
    match request_of(line, last) {
        Request::NoName => {
            assert(text =~= seq!['+']);
        },
        Request::Suggest(name) => {
            assert(text.drop_last() =~= text.take(text.len() - 1));
        },
        Request::Watch(domain) => {
            assert(text =~= watch + text.skip(watch.len() as int));
        },
        Request::Unwatch(domain) => {
            assert(text =~= unwatch + text.skip(unwatch.len() as int));
        },
        Request::Search { .. } => {
            assert forall|rest: Seq<char>| text != #[trigger] (watch + rest) by {
                if text == watch + rest {
                    assert(watch =~= text.take(watch.len() as int));
                    assert(watch.is_prefix_of(text));
                }
            }
            assert forall|rest: Seq<char>| text != #[trigger] (unwatch + rest) by {
                if text == unwatch + rest {
                    assert(unwatch =~= text.take(unwatch.len() as int));
                    assert(unwatch.is_prefix_of(text));
                }
            }
        },
        _ => {},
    }
}

/// Law: a search at the prompt is for a domain by itself where its top-level
/// domain is known; any other text is searched, up to its first dot, in all
/// top-level domains.
pub proof fn law_prompt_search(
    line: Seq<char>,
    last: Option<Seq<char>>,
    name: Seq<char>,
    tld: Seq<char>,
)
    requires
        request_of(line, last) is Search,
        !tld.contains('.'),
    ensures
        trimmed(line) == name + seq!['.'] + tld && is_known_tld(tld) ==> request_of(line, last)
            == (Request::Search { name, tlds: seq![tld] }),
        trimmed(line) == name + seq!['.'] + tld && !is_known_tld(tld) ==> request_of(line, last)
            == (Request::Search {
            name: before_dot(trimmed(line)),
            tlds: Seq::new(20, |i: int| ALL_TLDS@[i]@),
        }),
        trimmed(line) == tld ==> request_of(line, last) == (Request::Search {
            name: tld,
            tlds: Seq::new(20, |i: int| ALL_TLDS@[i]@),
        }),
{
    lemma_full_domain(name, tld);
    law_search_name(tld);
    assert(names_of(ALL_TLDS@) =~= Seq::new(20, |i: int| ALL_TLDS@[i]@));
}

/// Law: a search is remembered by what stands before the first dot of its name,
/// and no other request changes what is remembered.
pub proof fn law_remembered(last: Option<Seq<char>>, request: Request)
    ensures
        request matches Request::Search { name, .. } ==> last_after(last, request) == Some(
            before_dot(name),
        ),
        !(request is Search) ==> last_after(last, request) == last,
{
}

} // verus!
