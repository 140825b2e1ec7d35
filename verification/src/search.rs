//! The listing of a search: the order of its rows, their width, what is drawn
//! while it runs, and its summary.

use vstd::prelude::*;
use vstd::utf8::encode_utf8;
use crate::config::{after_last_dot, domain_name, domain_of, rank_of, tld_rank};
use crate::format::{mark_line, marked, result_line, result_spans};
use crate::model::{Availability, Status, status_word};
use crate::paint::{Piece, Span, Style, lemma_plain_of_four, piece, pieces, plain_text, span};
use crate::text::{decimal, last_of, lemma_last_of, pad_right, padded, push_decimal, texts};

verus! {

/// The place of a top-level domain in a listing.
pub open spec fn place(tld: &'static str) -> int {
    rank_of(after_last_dot(tld@))
}

/// The elements of a list that have a given place.
pub open spec fn at_place(tlds: Seq<&'static str>, k: int) -> Seq<&'static str> {
    tlds.filter(|t: &'static str| place(t) == k)
}

/// No element comes before one of a lower place.
pub open spec fn in_order(tlds: Seq<&'static str>) -> bool {
    forall|i: int, j: int| 0 <= i < j < tlds.len() ==> place(tlds[i]) <= place(tlds[j])
}

/// `after` holds the elements of `before` ordered by place, and those of the
/// same place in the order in which they came.
pub open spec fn is_listing_of(before: Seq<&'static str>, after: Seq<&'static str>) -> bool {
    &&& in_order(after)
    &&& forall|k: int| #[trigger] at_place(after, k) == at_place(before, k)
}

/// A list without an element of place `k`.
proof fn lemma_none_at_place(s: Seq<&'static str>, k: int)
    requires
        forall|i: int| 0 <= i < s.len() ==> place(s[i]) != k,
    ensures
        at_place(s, k) == Seq::<&'static str>::empty(),
    decreases s.len(),
{
    reveal(Seq::filter);
    if s.len() > 0 {
        lemma_none_at_place(s.drop_last(), k);
    }
}

/// Where `x` goes in, each place keeps its order and `x` comes last of its own.
proof fn lemma_insert(s: Seq<&'static str>, p: int, x: &'static str, k: int)
    requires
        0 <= p <= s.len(),
        forall|i: int| p <= i < s.len() ==> place(s[i]) > place(x),
    ensures
        at_place(s.insert(p, x), k) == at_place(s.push(x), k),
{
    let f = |t: &'static str| place(t) == k;
    let a = s.take(p);
    let b = s.skip(p);
    assert(s.insert(p, x) =~= a.push(x) + b);
    assert(s =~= a + b);
    Seq::filter_distributes_over_add(a.push(x), b, f);
    Seq::filter_distributes_over_add(a, b, f);
    a.lemma_filter_push(x, f);
    s.lemma_filter_push(x, f);
    if place(x) == k {
        assert forall|i: int| 0 <= i < b.len() implies place(b[i]) != k by {
            assert(b[i] == s[p + i]);
        }
        lemma_none_at_place(b, k);
        assert(at_place(s.insert(p, x), k) =~= at_place(s.push(x), k));
    }
}

/// The top-level domains of a search in the order of a listing.
pub fn sort_by_rank(tlds: &Vec<&'static str>) -> (r: Vec<&'static str>)
    ensures
        r@.len() == tlds@.len(),
        is_listing_of(tlds@, r@),
{
    let mut out: Vec<&'static str> = Vec::new();
    let mut i: usize = 0;
    while i < tlds.len()
        invariant
            i <= tlds@.len(),
            out@.len() == i,
            in_order(out@),
            forall|k: int| #[trigger] at_place(out@, k) == at_place(tlds@.take(i as int), k),
        decreases tlds@.len() - i,
    {
        let x = tlds[i];
        let rank = tld_rank(x);
        let mut p: usize = out.len();
        while p > 0 && tld_rank(out[p - 1]) > rank
            invariant
                p <= out@.len(),
                rank == place(x),
                forall|j: int| p <= j < out@.len() ==> place(out@[j]) > place(x),
            decreases p,
        {
            p -= 1;
        }
        let ghost before = out@;
        out.insert(p, x);
        proof {
            let now = before.insert(p as int, x);
            assert(tlds@.take(i + 1) =~= tlds@.take(i as int).push(x));
            assert forall|k: int| #[trigger] at_place(out@, k) == at_place(
                tlds@.take(i + 1),
                k,
            ) by {
                let f = |t: &'static str| place(t) == k;
                lemma_insert(before, p as int, x, k);
                before.lemma_filter_push(x, f);
                tlds@.take(i as int).lemma_filter_push(x, f);
                assert(at_place(before, k) == at_place(tlds@.take(i as int), k));
            }
            assert forall|a: int, b: int| 0 <= a < b < now.len() implies place(now[a]) <= place(
                now[b],
            ) by {
                if p > 0 {
                    assert(place(before[p - 1]) <= place(x));
                    if a < p - 1 {
                        assert(place(before[a]) <= place(before[p - 1]));
                    }
                }
            }
        }
        i += 1;
    }
    assert(tlds@.take(i as int) =~= tlds@);
    out
}

/// An element of a list is among those of its place, and the other way round.
proof fn lemma_at_place_contains(s: Seq<&'static str>, x: &'static str)
    ensures
        at_place(s, place(x)).contains(x) <==> s.contains(x),
{
    let f = |t: &'static str| place(t) == place(x);
    let g = s.filter(f);
    if s.contains(x) {
        let i = choose|i: int| 0 <= i < s.len() && s[i] == x;
        assert(f(s[i]));
        s.lemma_filter_contains(f, i);
    }
    if g.contains(x) {
        s.lemma_filter_contains_rev(f, x);
    }
}

/// Law: there is only one listing of a search.
pub proof fn law_one_listing(
    before: Seq<&'static str>,
    a: Seq<&'static str>,
    b: Seq<&'static str>,
)
    requires
        is_listing_of(before, a),
        is_listing_of(before, b),
    ensures
        a == b,
{
    assert forall|k: int| #[trigger] at_place(a, k) == at_place(b, k) by {
        assert(at_place(a, k) == at_place(before, k));
        assert(at_place(b, k) == at_place(before, k));
    }
    lemma_same_places(a, b);
}

/// Two ordered lists with the same elements at each place are the same.
proof fn lemma_same_places(a: Seq<&'static str>, b: Seq<&'static str>)
    requires
        in_order(a),
        in_order(b),
        forall|k: int| #[trigger] at_place(a, k) == at_place(b, k),
    ensures
        a == b,
    decreases a.len(),
{
    if a.len() == 0 {
        if b.len() > 0 {
            lemma_at_place_contains(a, b[0]);
            lemma_at_place_contains(b, b[0]);
            assert(b.contains(b[0]));
            assert(at_place(a, place(b[0])) == at_place(b, place(b[0])));
        }
        assert(a =~= b);
    } else if b.len() == 0 {
        lemma_at_place_contains(a, a[0]);
        lemma_at_place_contains(b, a[0]);
        assert(a.contains(a[0]));
        assert(at_place(a, place(a[0])) == at_place(b, place(a[0])));
    } else {
        let x = a.last();
        let y = b.last();
        assert(a.contains(x) && b.contains(y));
        lemma_at_place_contains(a, x);
        lemma_at_place_contains(b, x);
        lemma_at_place_contains(a, y);
        lemma_at_place_contains(b, y);
        assert(at_place(a, place(x)) == at_place(b, place(x)));
        assert(at_place(a, place(y)) == at_place(b, place(y)));
        // each last element stands in the other list, so neither place is the higher
        let i = choose|i: int| 0 <= i < b.len() && b[i] == x;
        let j = choose|j: int| 0 <= j < a.len() && a[j] == y;
        assert(place(x) <= place(y));
        assert(place(y) <= place(x));
        let k = place(x);
        let f = |t: &'static str| place(t) == k;
        let a0 = a.drop_last();
        let b0 = b.drop_last();
        assert(a =~= a0.push(x));
        assert(b =~= b0.push(y));
        a0.lemma_filter_push(x, f);
        b0.lemma_filter_push(y, f);
        assert(at_place(a, k) == at_place(a0, k).push(x));
        assert(at_place(b, k) == at_place(b0, k).push(y));
        assert(at_place(a, k).last() == x);
        assert(at_place(b, k).last() == y);
        assert(x == y);
        assert forall|m: int| #[trigger] at_place(a0, m) == at_place(b0, m) by {
            let g = |t: &'static str| place(t) == m;
            a0.lemma_filter_push(x, g);
            b0.lemma_filter_push(y, g);
            assert(at_place(a, m) == at_place(b, m));
            if m == k {
                assert(at_place(a0, m) =~= at_place(a, m).drop_last());
                assert(at_place(b0, m) =~= at_place(b, m).drop_last());
            }
        }
        lemma_same_places(a0, b0);
    }
}

/// Law: a search that covers `.com` has it in the first row.
pub proof fn law_com_on_top(before: Seq<&'static str>, after: Seq<&'static str>, t: &'static str)
    requires
        is_listing_of(before, after),
        before.contains(t),
        t@ == "com"@,
    ensures
        after.len() > 0,
        after_last_dot(after[0]@) == "com"@,
{
    reveal_strlit("com");
    let c = "com"@;
    assert(place(t) == 0) by {
        lemma_last_of(c, '.');
        assert(c.len() == 3 && c[0] == 'c' && c[1] == 'o' && c[2] == 'm');
        let i = last_of(c, '.');
        assert(i == -1);
        assert(c.skip(0) =~= c);
    }
    lemma_at_place_contains(before, t);
    lemma_at_place_contains(after, t);
    assert(at_place(after, place(t)) == at_place(before, place(t)));
    assert(after.contains(t));
    let i = choose|i: int| 0 <= i < after.len() && after[i] == t;
    assert(place(after[0]) <= place(after[i]));
}

/// How many bytes a domain takes.
pub open spec fn domain_bytes(name: Seq<char>, tld: Seq<char>) -> int {
    (encode_utf8(name).len() + 1 + encode_utf8(tld).len()) as int
}

/// The greatest number of bytes that a domain of the search takes; 0 where
/// there is none.
pub open spec fn widest(name: Seq<char>, tlds: Seq<&'static str>) -> int
    decreases tlds.len(),
{
    if tlds.len() == 0 {
        0
    } else {
        let w = widest(name, tlds.drop_last());
        let b = domain_bytes(name, tlds.last()@);
        if b > w {
            b
        } else {
            w
        }
    }
}

/// Law: no domain of the search is wider than the column, and one fills it.
pub proof fn law_widest(name: Seq<char>, tlds: Seq<&'static str>)
    ensures
        forall|i: int| 0 <= i < tlds.len() ==> domain_bytes(name, #[trigger] tlds[i]@) <= widest(
            name,
            tlds,
        ),
        tlds.len() > 0 ==> exists|i: int|
            0 <= i < tlds.len() && domain_bytes(name, #[trigger] tlds[i]@) == widest(name, tlds),
    decreases tlds.len(),
{
    if tlds.len() > 0 {
        let rest = tlds.drop_last();
        law_widest(name, rest);
        assert forall|i: int| 0 <= i < tlds.len() implies domain_bytes(name, #[trigger] tlds[i]@)
            <= widest(name, tlds) by {
            if i < rest.len() {
                assert(rest[i] == tlds[i]);
            }
        }
        let last = tlds.len() - 1;
        if domain_bytes(name, tlds.last()@) > widest(name, rest) {
            assert(domain_bytes(name, tlds[last]@) == widest(name, tlds));
        } else {
            let i = choose|i: int|
                0 <= i < rest.len() && domain_bytes(name, #[trigger] rest[i]@) == widest(
                    name,
                    rest,
                );
            if rest.len() > 0 {
                assert(domain_bytes(name, tlds[i]@) == widest(name, tlds));
            }
        }
    }
}

/// The width of the column of domains.
pub fn column_width(name: &str, tlds: &Vec<&'static str>) -> (r: usize)
    requires
        forall|i: int|
            0 <= i < tlds@.len() ==> domain_bytes(name@, #[trigger] tlds@[i]@) <= usize::MAX,
    ensures
        r == widest(name@, tlds@),
{
    let mut width: usize = 0;
    let mut i: usize = 0;
    while i < tlds.len()
        invariant
            i <= tlds@.len(),
            width == widest(name@, tlds@.take(i as int)),
            forall|j: int|
                0 <= j < tlds@.len() ==> domain_bytes(name@, #[trigger] tlds@[j]@) <= usize::MAX,
        decreases tlds@.len() - i,
    {
        assert(domain_bytes(name@, tlds@[i as int]@) <= usize::MAX);
        let bytes = name.as_bytes().len() + 1 + tlds[i].as_bytes().len();
        if bytes > width {
            width = bytes;
        }
        assert(tlds@.take(i + 1).drop_last() =~= tlds@.take(i as int));
        i += 1;
    }
    assert(tlds@.take(i as int) =~= tlds@);
    width
}

/// The frames of the spinner.
pub const FRAMES: [&'static str; 10] = ["⠋", "⠙", "⠹", "⠸", "⠼", "⠴", "⠦", "⠧", "⠇", "⠏"];

/// The row of a domain that is still being checked, at some frame of its
/// spinner.
pub open spec fn pending_line(name: Seq<char>, tld: Seq<char>, pad: nat, frame: nat) -> Seq<Piece> {
    marked(
        FRAMES@[(frame % 10) as int]@,
        Style::Rgb(160, 120, 220),
        padded(domain_of(name, tld), pad),
        Style::Rgb(80, 80, 100),
    )
}

/// The row of a domain that is still being checked.
pub fn pending_spans(name: &str, tld: &str, pad: usize, frame: usize) -> (r: Vec<Span>)
    ensures
        pieces(r@) == pending_line(name@, tld@, pad as nat, frame as nat),
{
    let padded_domain = pad_right(domain_name(name, tld).as_str(), pad);
    mark_line(
        FRAMES[frame % 10],
        Style::Rgb(160, 120, 220),
        padded_domain.as_str(),
        Style::Rgb(80, 80, 100),
    )
}

/// How far above the cursor row `i` of `rows` is, modulo what a terminal
/// command can say.
pub fn rows_up(rows: usize, i: usize) -> (r: u16)
    requires
        i <= rows,
    ensures
        r == (rows - i) % 65536,
{
    ((rows - i) % 65536) as u16
}

/// A row to draw again, and how far above the cursor it is.
pub struct Redraw {
    pub up: u16,
    pub line: Vec<Span>,
}

/// The rows that are not done yet, counted from `from` on.
pub open spec fn rows_left(done: Seq<bool>, from: int) -> Seq<int>
    decreases done.len() - from,
{
    if from >= done.len() {
        seq![]
    } else if done[from] {
        rows_left(done, from + 1)
    } else {
        seq![from] + rows_left(done, from + 1)
    }
}

/// `redraws` draws the rows `left` of a search again.
pub open spec fn redraws_rows(
    redraws: Seq<Redraw>,
    left: Seq<int>,
    name: Seq<char>,
    tlds: Seq<&'static str>,
    pad: nat,
    frame: nat,
) -> bool {
    &&& redraws.len() == left.len()
    &&& forall|i: int| #![trigger redraws[i]]
        0 <= i < left.len() ==> {
            &&& redraws[i].up == (tlds.len() - left[i]) % 65536
            &&& pieces(redraws[i].line@) == pending_line(name, tlds[left[i]]@, pad, frame)
        }
}

/// One turn of the spinners: the rows that are not done yet are drawn again,
/// those that are done are left alone.
pub fn spin(
    name: &str,
    tlds: &Vec<&'static str>,
    done: &Vec<bool>,
    pad: usize,
    frame: usize,
) -> (r: Vec<Redraw>)
    requires
        done@.len() == tlds@.len(),
    ensures
        redraws_rows(r@, rows_left(done@, 0), name@, tlds@, pad as nat, frame as nat),
{
    let mut out: Vec<Redraw> = Vec::new();
    let ghost mut left: Seq<int> = seq![];
    let mut i: usize = 0;
    while i < tlds.len()
        invariant
            done@.len() == tlds@.len(),
            i <= tlds@.len(),
            rows_left(done@, 0) =~= left + rows_left(done@, i as int),
            redraws_rows(out@, left, name@, tlds@, pad as nat, frame as nat),
        decreases tlds@.len() - i,
    {
        if !done[i] {
            let row = Redraw {
                up: rows_up(tlds.len(), i),
                line: pending_spans(name, tlds[i], pad, frame),
            };
            out.push(row);
            proof {
                left = left.push(i as int);
            }
        }
        i += 1;
    }
    out
}

/// Takes a result that has come: its row is done from now on, and is drawn with
/// the line for the result, `days` days before the domain expires where that is
/// known.
pub fn finish_row(
    name: &str,
    tlds: &Vec<&'static str>,
    done: &mut Vec<bool>,
    i: usize,
    status: &Availability,
    pad: usize,
    days: Option<i64>,
) -> (r: Redraw)
    requires
        i < tlds@.len(),
        old(done)@.len() == tlds@.len(),
    ensures
        final(done)@ == old(done)@.update(i as int, true),
        r.up == (tlds@.len() - i) % 65536,
        pieces(r.line@) == result_line(
            domain_of(name@, tlds@[i as int]@),
            status@,
            pad as nat,
            match days {
                Some(n) => Some(n as int),
                None => None,
            },
        ),
{
    done.set(i, true);
    let domain = domain_name(name, tlds[i]);
    Redraw {
        up: rows_up(tlds.len(), i),
        line: result_spans(domain.as_str(), status, pad, days),
    }
}

/// Law: the rows that are drawn again are those that are not done: a row that is
/// done never is.
pub proof fn law_finished_rows(done: Seq<bool>, from: int, i: int)
    requires
        0 <= from,
    ensures
        rows_left(done, from).contains(i) <==> from <= i < done.len() && !done[i],
    decreases done.len() - from,
{
    if from < done.len() {
        law_finished_rows(done, from + 1, i);
        let rest = rows_left(done, from + 1);
        if !done[from] {
            let all = seq![from] + rest;
            assert(all[0] == from);
            if rest.contains(i) {
                let j = choose|j: int| 0 <= j < rest.len() && rest[j] == i;
                assert(all[j + 1] == i);
            }
            if all.contains(i) && i != from {
                let j = choose|j: int| 0 <= j < all.len() && all[j] == i;
                assert(rest[j - 1] == i);
            }
        }
    }
}

/// Law: a row that is finished is not drawn again, and the other rows are as
/// before.
pub proof fn law_finish_row(done: Seq<bool>, i: int, j: int)
    requires
        0 <= i < done.len(),
    ensures
        rows_left(done.update(i, true), 0).contains(j) <==> j != i && rows_left(done, 0).contains(j),
{
    law_finished_rows(done, 0, j);
    law_finished_rows(done.update(i, true), 0, j);
}

/// How many results say that a domain is available.
pub open spec fn available_among(results: Seq<(String, Availability)>) -> nat {
    available_of(results).len()
}

/// The domains that are available, in the order of the results.
pub open spec fn available_of(results: Seq<(String, Availability)>) -> Seq<Seq<char>>
    decreases results.len(),
{
    if results.len() == 0 {
        seq![]
    } else {
        let r = results.last();
        if r.1@ is Available {
            available_of(results.drop_last()).push(r.0@)
        } else {
            available_of(results.drop_last())
        }
    }
}

/// The domains that are available.
pub fn available_domains(results: &Vec<(String, Availability)>) -> (r: Vec<String>)
    ensures
        texts(r@) == available_of(results@),
{
    let mut out: Vec<String> = Vec::new();
    let mut i: usize = 0;
    assert(texts(out@) =~= available_of(results@.take(0)));
    while i < results.len()
        invariant
            i <= results@.len(),
            texts(out@) == available_of(results@.take(i as int)),
        decreases results@.len() - i,
    {
        assert(results@.take(i + 1).drop_last() =~= results@.take(i as int));
        let ghost before = out@;
        match &results[i].1 {
            Availability::Available => {
                out.push(results[i].0.clone());
                assert(texts(out@) =~= texts(before).push(results@[i as int].0@));
            },
            _ => {},
        }
        i += 1;
    }
    assert(results@.take(i as int) =~= results@);
    out
}

/// How many results say that a domain is available.
pub fn available_count(results: &Vec<(String, Availability)>) -> (r: usize)
    ensures
        r == available_among(results@),
{
    let list = available_domains(results);
    assert(texts(list@).len() == list@.len());
    list.len()
}

/// The line of a result for other programs to read: the domain and its status.
pub fn plain_line(domain: &str, availability: &Availability) -> (r: String)
    ensures
        r@ == domain@ + seq![' '] + status_word(availability@),
{
    let mut out = domain.to_owned();
    out.push(' ');
    out.append(availability.as_str());
    assert(out@ =~= domain@ + seq![' '] + status_word(availability@));
    out
}

/// The lines of results for other programs to read: one for each, in their order.
pub fn plain_lines(results: &Vec<(String, Availability)>) -> (r: Vec<String>)
    ensures
        r@.len() == results@.len(),
        forall|i: int|
            0 <= i < r@.len() ==> (#[trigger] r@[i])@ == results@[i].0@ + seq![' '] + status_word(
                results@[i].1@,
            ),
{
    let mut out: Vec<String> = Vec::new();
    let mut i: usize = 0;
    while i < results.len()
        invariant
            i == out@.len(),
            i <= results@.len(),
            forall|j: int|
                0 <= j < i ==> (#[trigger] out@[j])@ == results@[j].0@ + seq![' '] + status_word(
                    results@[j].1@,
                ),
        decreases results@.len() - i,
    {
        out.push(plain_line(results[i].0.as_str(), &results[i].1));
        i += 1;
    }
    out
}

/// The line at the end of a listing.
pub open spec fn summary_line(available: nat, checked: nat) -> Seq<Piece> {
    seq![
        piece("  "@, Style::Plain),
        piece(decimal(available), Style::BrightGreenBold),
        piece(" available  ·  "@, Style::Plain),
        piece(decimal(checked), Style::Rgb(80, 80, 100)),
        piece(" checked  ·  "@, Style::Plain),
        piece("/help"@, Style::Rgb(140, 130, 180)),
        piece(" "@, Style::Plain),
        piece("for commands"@, Style::Rgb(80, 80, 100)),
    ]
}

/// A number in decimal.
pub fn number_text(n: usize) -> (r: String)
    ensures
        r@ == decimal(n as nat),
{
    let mut out = String::new();
    push_decimal(&mut out, n as u64);
    assert(out@ =~= decimal(n as nat));
    out
}

/// The line at the end of a listing.
pub fn summary_spans(available: usize, checked: usize) -> (r: Vec<Span>)
    ensures
        pieces(r@) == summary_line(available as nat, checked as nat),
{
    let mut line: Vec<Span> = Vec::new();
    line.push(span("  ", Style::Plain));
    line.push(Span { text: number_text(available), style: Style::BrightGreenBold });
    line.push(span(" available  ·  ", Style::Plain));
    line.push(Span { text: number_text(checked), style: Style::Rgb(80, 80, 100) });
    line.push(span(" checked  ·  ", Style::Plain));
    line.push(span("/help", Style::Rgb(140, 130, 180)));
    line.push(span(" ", Style::Plain));
    line.push(span("for commands", Style::Rgb(80, 80, 100)));
    assert(pieces(line@) =~= summary_line(available as nat, checked as nat));
    line
}

/// Law: of one result only one that is available is listed; and the results of
/// two lists are listed one after the other. So nothing that is protected, taken
/// or unknown is ever listed or counted.
pub proof fn law_available(
    a: Seq<(String, Availability)>,
    b: Seq<(String, Availability)>,
    r: (String, Availability),
)
    ensures
        r.1@ is Available ==> available_of(seq![r]) == seq![r.0@],
        r.1@ is Protected || r.1@ is Taken || r.1@ is Unknown ==> available_of(seq![r])
            == Seq::<Seq<char>>::empty(),
        available_of(a + b) == available_of(a) + available_of(b),
        available_among(a + b) == available_among(a) + available_among(b),
        available_among(a) == available_of(a).len(),
    decreases b.len(),
{
    reveal_with_fuel(available_of, 2);
    assert(seq![r].drop_last() =~= Seq::<(String, Availability)>::empty());
    assert(available_of(Seq::<(String, Availability)>::empty()) =~= Seq::<Seq<char>>::empty());
    if r.1@ is Available {
        assert(available_of(seq![r]) =~= seq![r.0@]);
    }
    if b.len() == 0 {
        assert(a + b =~= a);
        assert(available_of(a) + available_of(b) =~= available_of(a));
    } else {
        law_available(a, b.drop_last(), r);
        assert((a + b).drop_last() =~= a + b.drop_last());
        assert(available_of(a + b) =~= available_of(a) + available_of(b));
    }
}

/// Law: a domain is listed exactly where some result for it is available.
pub proof fn law_listed(results: Seq<(String, Availability)>, domain: Seq<char>)
    ensures
        available_of(results).contains(domain) <==> exists|i: int|
            0 <= i < results.len() && (#[trigger] results[i]).0@ == domain && results[i].1@
                == Status::Available,
    decreases results.len(),
{
    if results.len() > 0 {
        let rest = results.drop_last();
        law_listed(rest, domain);
        let listed = available_of(rest);
        let all = available_of(results);
        let last = results.len() - 1;
        if listed.contains(domain) {
            let k = choose|k: int| 0 <= k < listed.len() && listed[k] == domain;
            assert(all[k] == domain);
            let i = choose|i: int|
                0 <= i < rest.len() && (#[trigger] rest[i]).0@ == domain && rest[i].1@
                    == Status::Available;
            assert(results[i].0@ == domain);
        }
        if all.contains(domain) && !listed.contains(domain) {
            let k = choose|k: int| 0 <= k < all.len() && all[k] == domain;
            if k < listed.len() {
                assert(listed[k] == domain);
            }
            assert(results[last].0@ == domain);
        }
        if exists|i: int|
            0 <= i < results.len() && (#[trigger] results[i]).0@ == domain && results[i].1@
                == Status::Available {
            let i = choose|i: int|
                0 <= i < results.len() && (#[trigger] results[i]).0@ == domain && results[i].1@
                    == Status::Available;
            if i < last {
                assert(rest[i].0@ == domain);
            } else {
                assert(all[all.len() - 1] == domain);
            }
        }
    }
}

/// An element is as often in a list as among those of its place.
proof fn lemma_count_at_place(s: Seq<&'static str>, t: &'static str)
    ensures
        at_place(s, place(t)).to_multiset().count(t) == s.to_multiset().count(t),
    decreases s.len(),
{
    broadcast use vstd::seq_lib::group_to_multiset_ensures;

    let f = |x: &'static str| place(x) == place(t);
    if s.len() == 0 {
        reveal(Seq::filter);
        assert(at_place(s, place(t)) =~= s);
    } else {
        let rest = s.drop_last();
        lemma_count_at_place(rest, t);
        rest.lemma_filter_push(s.last(), f);
        assert(s =~= rest.push(s.last()));
    }
}

/// Law: a listing holds what was asked for, each as often, and is ordered by the
/// rank of the top-level domains.
pub proof fn law_listing(before: Seq<&'static str>, after: Seq<&'static str>)
    requires
        is_listing_of(before, after),
    ensures
        before.to_multiset() == after.to_multiset(),
        forall|i: int, j: int|
            0 <= i < j < after.len() ==> rank_of(after_last_dot((#[trigger] after[i])@)) <= rank_of(
                after_last_dot((#[trigger] after[j])@),
            ),
{
    assert forall|t: &'static str| #[trigger]
        before.to_multiset().count(t) == after.to_multiset().count(t) by {
        lemma_count_at_place(before, t);
        lemma_count_at_place(after, t);
        assert(at_place(after, place(t)) == at_place(before, place(t)));
    }
    assert(before.to_multiset() =~= after.to_multiset());
    assert forall|i: int, j: int| 0 <= i < j < after.len() implies rank_of(
        after_last_dot((#[trigger] after[i])@),
    ) <= rank_of(after_last_dot((#[trigger] after[j])@)) by {
        assert(place(after[i]) <= place(after[j]));
    }
}

/// Law: a domain takes the bytes of its name, one for the dot, and those of its
/// top-level domain.
pub proof fn law_domain_bytes(name: Seq<char>, tld: Seq<char>)
    ensures
        domain_bytes(name, tld) == encode_utf8(name).len() + encode_utf8(tld).len() + 1,
        domain_bytes(name, tld) > encode_utf8(name).len(),
{
}

/// Law: a row that waits shows its domain filled up to the width, behind one of
/// ten frames, and every tenth turn the same one.
pub proof fn law_pending(name: Seq<char>, tld: Seq<char>, pad: nat, frame: nat)
    ensures
        pending_line(name, tld, pad, frame).len() == 4,
        pending_line(name, tld, pad, frame)[1].style == Style::Rgb(160, 120, 220),
        pending_line(name, tld, pad, frame)[3].style == Style::Rgb(80, 80, 100),
        pending_line(name, tld, pad, frame)[3].text == padded(name + seq!['.'] + tld, pad),
        pending_line(name, tld, pad, frame + 10) == pending_line(name, tld, pad, frame),
        plain_text(pending_line(name, tld, pad, frame)) == "  "@ + FRAMES@[(frame % 10) as int]@
            + "  "@ + padded(name + seq!['.'] + tld, pad),
{
    lemma_plain_of_four(pending_line(name, tld, pad, frame));
    assert((frame + 10) % 10 == frame % 10);
}

/// Law: the last line counts the domains that are available, and those that were
/// checked, and for the rest is always the same.
pub proof fn law_summary(a: nat, b: nat, c: nat, d: nat)
    ensures
        summary_line(a, b).len() == 8,
        summary_line(a, b)[1] == piece(decimal(a), Style::BrightGreenBold),
        summary_line(a, b)[3] == piece(decimal(b), Style::Rgb(80, 80, 100)),
        forall|i: int|
            0 <= i < 8 && i != 1 && i != 3 ==> #[trigger] summary_line(a, b)[i] == summary_line(
                c,
                d,
            )[i],
        summary_line(a, b)[5].style == Style::Rgb(140, 130, 180),
        summary_line(a, b)[7].style == Style::Rgb(80, 80, 100),
{
}

/// Law: top-level domains that are ordered by rank already stay as they are, also
/// those of the same rank.
pub proof fn law_ordered_stays(before: Seq<&'static str>, after: Seq<&'static str>)
    requires
        is_listing_of(before, after),
        forall|i: int, j: int|
            0 <= i < j < before.len() ==> rank_of(after_last_dot((#[trigger] before[i])@))
                <= rank_of(after_last_dot((#[trigger] before[j])@)),
    ensures
        after == before,
{
    assert forall|i: int, j: int| 0 <= i < j < before.len() implies place(before[i]) <= place(
        before[j],
    ) by {
        assert(rank_of(after_last_dot(before[i]@)) <= rank_of(after_last_dot(before[j]@)));
    }
    assert(is_listing_of(before, before));
    law_one_listing(before, before, after);
}

/// Law: the rows that wait are drawn where they stand, each with its own domain
/// and the same frame.
pub proof fn law_redrawn(
    redraws: Seq<Redraw>,
    left: Seq<int>,
    name: Seq<char>,
    tlds: Seq<&'static str>,
    pad: nat,
    frame: nat,
    i: int,
)
    requires
        redraws_rows(redraws, left, name, tlds, pad, frame),
        0 <= i < left.len(),
    ensures
        redraws.len() == left.len(),
        redraws[i].up == (tlds.len() - left[i]) % 65536,
        pieces(redraws[i].line@)[3].text == padded(name + seq!['.'] + tlds[left[i]]@, pad),
        pieces(redraws[i].line@)[1].text == FRAMES@[(frame % 10) as int]@,
{
    assert(redraws[i].up == (tlds.len() - left[i]) % 65536);
}

/// Law: the ten frames of the spinner.
pub proof fn law_frames(i: int)
    requires
        0 <= i < 10,
    ensures
        FRAMES@[i]@ == seq![
            "⠋"@,
            "⠙"@,
            "⠹"@,
            "⠸"@,
            "⠼"@,
            "⠴"@,
            "⠦"@,
            "⠧"@,
            "⠇"@,
            "⠏"@,
        ][i],
{
    assert(i == 0 || i == 1 || i == 2 || i == 3 || i == 4 || i == 5 || i == 6 || i == 7 || i == 8
        || i == 9);
}

} // verus!
