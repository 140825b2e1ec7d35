//! Dates in texts: finding one, reading one written in prose, and counting the
//! days until one.

use vstd::prelude::*;
use crate::calendar::{
    date_to_epoch_days, days_from_epoch, epoch_days, epoch_days_fits, fits, is_calendar_date,
    law_epoch_days, quotient,
};
use crate::model::text_if_any;
use crate::text::{
    all_digits, chars_of, digit_char, digits_value, find_char, first_of, i64_of, is_digit,
    lemma_first_of_at, parse_i64, parse_u32, same_text, split_words, text_of, texts, u32_of,
    unsigned_part, trim_end, trim_start, trimmed, words_of,
};
use crate::unicode::{is_letter, is_white, lowercase};

verus! {

/// `s` is written as `YYYY-MM-DD`.
pub open spec fn is_iso_date(s: Seq<char>) -> bool {
    &&& s.len() == 10
    &&& all_digits(s.subrange(0, 4))
    &&& s[4] == '-'
    &&& all_digits(s.subrange(5, 7))
    &&& s[7] == '-'
    &&& all_digits(s.subrange(8, 10))
}

/// The first `YYYY-MM-DD` in `s`.
pub open spec fn first_date(s: Seq<char>) -> Option<Seq<char>>
    decreases s.len(),
{
    if s.len() < 10 {
        None
    } else if is_iso_date(s.take(10)) {
        Some(s.take(10))
    } else {
        first_date(s.drop_first())
    }
}

/// Whether the characters from `from` up to `to` are decimal digits.
fn digits_between(s: &[char], from: usize, to: usize) -> (r: bool)
    requires
        from <= to <= s@.len(),
    ensures
        r == all_digits(s@.subrange(from as int, to as int)),
{
    let ghost part = s@.subrange(from as int, to as int);
    let mut i: usize = from;
    while i < to
        invariant
            from <= i <= to <= s@.len(),
            part == s@.subrange(from as int, to as int),
            forall|j: int| 0 <= j < i - from ==> is_digit(#[trigger] part[j]),
        decreases to - i,
    {
        assert(part[i - from] == s@[i as int]);
        if !(s[i] >= '0' && s[i] <= '9') {
            return false;
        }
        i += 1;
    }
    true
}

/// The first `YYYY-MM-DD` in a text.
pub fn parse_date(s: &str) -> (r: Option<String>)
    ensures
        text_if_any(r) == first_date(s@),
{
    let chars = chars_of(s);
    if chars.len() < 10 {
        return None;
    }
    let last = chars.len() - 10;
    let mut i: usize = 0;
    assert(chars@.skip(0) =~= s@);
    loop
        invariant
            chars@ == s@,
            i <= last,
            last + 10 == chars@.len(),
            first_date(s@) == first_date(s@.skip(i as int)),
        decreases last - i,
    {
        let ghost rest = s@.skip(i as int);
        let v = chars.as_slice();
        let found = digits_between(v, i, i + 4) && v[i + 4] == '-' && digits_between(v, i + 5, i + 7)
            && v[i + 7] == '-' && digits_between(v, i + 8, i + 10);
        proof {
            let w = rest.take(10);
            assert(w.subrange(0, 4) =~= s@.subrange(i as int, i + 4));
            assert(w.subrange(5, 7) =~= s@.subrange(i + 5, i + 7));
            assert(w.subrange(8, 10) =~= s@.subrange(i + 8, i + 10));
            assert(w =~= s@.subrange(i as int, i + 10));
            assert(rest.drop_first() =~= s@.skip(i + 1));
        }
        if found {
            return Some(text_of(v, i, i + 10));
        }
        if i == last {
            assert(first_date(rest.drop_first()) is None);
            return None;
        }
        i += 1;
    }
}

/// The number of the month with the given lowercase English name.
pub open spec fn month_number(name: Seq<char>) -> Option<int> {
    if name == "january"@ {
        Some(1int)
    } else if name == "february"@ {
        Some(2int)
    } else if name == "march"@ {
        Some(3int)
    } else if name == "april"@ {
        Some(4int)
    } else if name == "may"@ {
        Some(5int)
    } else if name == "june"@ {
        Some(6int)
    } else if name == "july"@ {
        Some(7int)
    } else if name == "august"@ {
        Some(8int)
    } else if name == "september"@ {
        Some(9int)
    } else if name == "october"@ {
        Some(10int)
    } else if name == "november"@ {
        Some(11int)
    } else if name == "december"@ {
        Some(12int)
    } else {
        None
    }
}

/// `s` without the letters at its end.
pub open spec fn without_suffix(s: Seq<char>) -> Seq<char>
    decreases s.len(),
{
    if s.len() > 0 && is_letter(s.last()) {
        without_suffix(s.drop_last())
    } else {
        s
    }
}

/// A number below a hundred, in two digits.
pub open spec fn two_digits(n: int) -> Seq<char> {
    seq![digit_char(n / 10), digit_char(n % 10)]
}

/// A date as `YYYY-MM-DD`.
pub open spec fn iso_date(year: int, month: int, day: int) -> Seq<char> {
    two_digits(year / 100) + two_digits(year % 100) + seq!['-'] + two_digits(month) + seq!['-']
        + two_digits(day)
}

/// The date that a day, a month name and a year write, where they are numbers
/// in range.
pub open spec fn prose_date(day: Seq<char>, month: Seq<char>, year: Seq<char>) -> Option<
    Seq<char>,
> {
    match (u32_of(day), month_number(month), u32_of(year)) {
        (Some(d), Some(m), Some(y)) => if 1 <= d <= 31 && 1900 <= y < 2100 {
            Some(iso_date(y as int, m, d as int))
        } else {
            None
        },
        _ => None,
    }
}

/// The first date that three words in a row write, the day with or without
/// letters after it.
pub open spec fn first_prose_date(words: Seq<Seq<char>>) -> Option<Seq<char>>
    decreases words.len(),
{
    if words.len() < 3 {
        None
    } else {
        match prose_date(without_suffix(words[0]), words[1], words[2]) {
            Some(d) => Some(d),
            None => first_prose_date(words.drop_first()),
        }
    }
}

/// The number of the month with the given lowercase English name.
fn month_of(name: &str) -> (r: Option<u32>)
    ensures
        r is Some <==> month_number(name@) is Some,
        r matches Some(m) ==> month_number(name@) == Some(m as int) && 1 <= m <= 12,
{
    if same_text(name, "january") {
        Some(1)
    } else if same_text(name, "february") {
        Some(2)
    } else if same_text(name, "march") {
        Some(3)
    } else if same_text(name, "april") {
        Some(4)
    } else if same_text(name, "may") {
        Some(5)
    } else if same_text(name, "june") {
        Some(6)
    } else if same_text(name, "july") {
        Some(7)
    } else if same_text(name, "august") {
        Some(8)
    } else if same_text(name, "september") {
        Some(9)
    } else if same_text(name, "october") {
        Some(10)
    } else if same_text(name, "november") {
        Some(11)
    } else if same_text(name, "december") {
        Some(12)
    } else {
        None
    }
}

/// A text without the letters at its end.
fn strip_suffix(s: &str) -> (r: String)
    ensures
        r@ == without_suffix(s@),
{
    let chars = chars_of(s);
    let mut n: usize = chars.len();
    assert(chars@.subrange(0, n as int) =~= s@);
    while n > 0 && chars[n - 1].is_alphabetic()
        invariant
            chars@ == s@,
            n <= chars@.len(),
            without_suffix(s@) == without_suffix(s@.subrange(0, n as int)),
        decreases n,
    {
        assert(s@.subrange(0, n as int).drop_last() =~= s@.subrange(0, n - 1));
        n -= 1;
    }
    text_of(chars.as_slice(), 0, n)
}

/// Appends a number below a hundred in two digits.
fn push_two_digits(out: &mut String, n: u32)
    requires
        n < 100,
    ensures
        final(out)@ == old(out)@ + two_digits(n as int),
{
    out.push((48u8 + (n / 10) as u8) as char);
    out.push((48u8 + (n % 10) as u8) as char);
    assert(out@ =~= old(out)@ + two_digits(n as int));
}

/// The date that a day, a month name and a year write, as `YYYY-MM-DD`.
pub fn read_prose_date(day: &str, month: &str, year: &str) -> (r: Option<String>)
    ensures
        text_if_any(r) == prose_date(day@, month@, year@),
{
    let d = match parse_u32(day) {
        Some(d) => d,
        None => return None,
    };
    if !(1 <= d && d <= 31) {
        return None;
    }
    let m = match month_of(month) {
        Some(m) => m,
        None => return None,
    };
    let y = match parse_u32(year) {
        Some(y) => y,
        None => return None,
    };
    if !(1900 <= y && y < 2100) {
        return None;
    }
    let mut out = String::new();
    push_two_digits(&mut out, y / 100);
    push_two_digits(&mut out, y % 100);
    out.push('-');
    push_two_digits(&mut out, m);
    out.push('-');
    push_two_digits(&mut out, d);
    assert(out@ =~= iso_date(y as int, m as int, d as int));
    Some(out)
}

/// The first date that three of the words in a row write, as `YYYY-MM-DD`.
pub fn date_in_words(words: &Vec<String>) -> (r: Option<String>)
    ensures
        text_if_any(r) == first_prose_date(texts(words@)),
{
    let ghost all = texts(words@);
    let mut i: usize = 0;
    assert(all.skip(0) =~= all);
    while words.len() - i >= 3
        invariant
            all == texts(words@),
            i <= words@.len(),
            first_prose_date(all) == first_prose_date(all.skip(i as int)),
        decreases words@.len() - i,
    {
        let ghost rest = all.skip(i as int);
        assert(rest[0] == words@[i as int]@);
        assert(rest[1] == words@[i + 1]@);
        assert(rest[2] == words@[i + 2]@);
        let day = strip_suffix(words[i].as_str());
        let date = read_prose_date(day.as_str(), words[i + 1].as_str(), words[i + 2].as_str());
        if date.is_some() {
            return date;
        }
        assert(rest.drop_first() =~= all.skip(i + 1));
        i += 1;
    }
    None
}

/// The first date written like `26th February 2015` in a text, as `YYYY-MM-DD`.
pub fn parse_prose_date(s: &str) -> (r: Option<String>)
    ensures
        text_if_any(r) == first_prose_date(words_of(lowercase(s@))),
{
    let lower = s.to_lowercase();
    date_in_words(&split_words(lower.as_str()))
}

/// `s` cut at the first two occurrences of `c`, as far as it has them.
pub open spec fn cut_in_three(s: Seq<char>, c: char) -> Seq<Seq<char>> {
    let i = first_of(s, c);
    let rest = s.skip(i + 1);
    let j = first_of(rest, c);
    if i >= s.len() {
        seq![s]
    } else if j >= rest.len() {
        seq![s.take(i), rest]
    } else {
        seq![s.take(i), rest.take(j), rest.skip(j + 1)]
    }
}

/// Every part writes a signed 64-bit number.
pub open spec fn all_numbers(parts: Seq<Seq<char>>) -> bool {
    forall|i: int| 0 <= i < parts.len() ==> i64_of(#[trigger] parts[i]) is Some
}

/// The days since 1 January 1970, of a number of seconds since then.
pub open spec fn day_of_seconds(seconds: u64) -> int {
    quotient((seconds as i64) as int, 86400)
}

/// The number of days from the day of `seconds` to the date that `s` writes,
/// if the parts of `s` between its first hyphens are numbers.
pub open spec fn day_count(s: Seq<char>, seconds: u64) -> Option<int> {
    let p = cut_in_three(s, '-');
    if all_numbers(p) {
        Some(
            epoch_days(i64_of(p[0])->0 as int, i64_of(p[1])->0 as int, i64_of(p[2])->0 as int)
                - day_of_seconds(seconds),
        )
    } else {
        None
    }
}

/// The days can be counted: where the parts of `s` are numbers there are three
/// of them, and the count stays within an `i64`.
pub open spec fn day_count_defined(s: Seq<char>, seconds: u64) -> bool {
    let p = cut_in_three(s, '-');
    all_numbers(p) ==> {
        &&& p.len() == 3
        &&& epoch_days_fits(
            i64_of(p[0])->0 as int,
            i64_of(p[1])->0 as int,
            i64_of(p[2])->0 as int,
        )
        &&& fits(day_count(s, seconds)->0)
    }
}

/// The days can be counted, whatever the clock says.
pub open spec fn countable(s: Seq<char>) -> bool {
    forall|seconds: u64| #[trigger] day_count_defined(s, seconds)
}

/// The number of days from the day of `seconds` to a date.
pub fn days_from(date_str: &str, seconds: u64) -> (r: Option<i64>)
    requires
        day_count_defined(date_str@, seconds),
    ensures
        r is Some <==> day_count(date_str@, seconds) is Some,
        r matches Some(n) ==> day_count(date_str@, seconds) == Some(n as int),
{
    let chars = chars_of(date_str);
    let v = chars.as_slice();
    let ghost p = cut_in_three(date_str@, '-');
    assert(date_str@.skip(0) =~= date_str@);
    let i = find_char(v, 0, '-');
    let first = text_of(v, 0, i);
    assert(first@ =~= p[0]);
    let y = match parse_i64(first.as_str()) {
        Some(y) => y,
        None => return None,
    };
    if i == v.len() {
        assert(all_numbers(p));
        return None;
    }
    let j = find_char(v, i + 1, '-');
    let second = text_of(v, i + 1, j);
    assert(second@ =~= p[1]);
    let m = match parse_i64(second.as_str()) {
        Some(m) => m,
        None => return None,
    };
    if j == v.len() {
        assert(all_numbers(p));
        return None;
    }
    let third = text_of(v, j + 1, v.len());
    assert(third@ =~= p[2]);
    let d = match parse_i64(third.as_str()) {
        Some(d) => d,
        None => return None,
    };
    assert(all_numbers(p));
    let target = date_to_epoch_days(y, m, d);
    let today: i64 = (seconds as i64) / 86400;
    Some(target - today)
}

/// The number of days to the date that `s` writes, by what a clock reads: none
/// where the clock reads nothing.
pub open spec fn day_count_by(s: Seq<char>, clock: Option<u64>) -> Option<int> {
    match clock {
        Some(seconds) => day_count(s, seconds),
        None => None,
    }
}

/// The number of days to a date, by what a clock reads.
pub fn days_by_clock(date_str: &str, clock: Option<u64>) -> (r: Option<i64>)
    requires
        clock matches Some(seconds) ==> day_count_defined(date_str@, seconds),
    ensures
        r is Some <==> day_count_by(date_str@, clock) is Some,
        r matches Some(n) ==> day_count_by(date_str@, clock) == Some(n as int),
{
    match clock {
        Some(seconds) => days_from(date_str, seconds),
        None => None,
    }
}

/// Reads the system clock (`SystemTime::now`), in whole seconds since
/// `UNIX_EPOCH`; `None` for a clock set before that. What it reads is up to
/// the machine, so nothing is promised of it.
#[verifier::external_body]
pub(crate) fn clock_seconds() -> (r: Option<u64>) {
    std::time::SystemTime::now().duration_since(std::time::UNIX_EPOCH).ok().map(|d| d.as_secs())
}

/// The number of days from today to a date: what `days_by_clock` gives for what
/// the system clock reads. None where the date is not made of numbers, and
/// where the clock is set before 1970.
pub fn days_until(date_str: &str) -> (r: Option<i64>)
    requires
        countable(date_str@),
    ensures
        !all_numbers(cut_in_three(date_str@, '-')) ==> r is None,
        exists|clock: Option<u64>|
            {
                &&& r is Some <==> (#[trigger] day_count_by(date_str@, clock)) is Some
                &&& r matches Some(n) ==> day_count_by(date_str@, clock) == Some(n as int)
            },
{
    let clock = clock_seconds();
    proof {
        if let Some(seconds) = clock {
            assert(day_count_defined(date_str@, seconds));
        }
    }
    days_by_clock(date_str, clock)
}

/// Law: what is found is a date, it stands in the text, and no date begins
/// before it; and where none is found, none stands in the text.
pub proof fn law_first_date(s: Seq<char>)
    ensures
        match first_date(s) {
            Some(d) => exists|i: int|
                {
                    &&& 0 <= i <= s.len() - 10
                    &&& d == #[trigger] s.subrange(i, i + 10)
                    &&& is_iso_date(d)
                    &&& forall|j: int|
                        0 <= j < i ==> !is_iso_date(#[trigger] s.subrange(j, j + 10))
                },
            None => forall|j: int|
                0 <= j <= s.len() - 10 ==> !is_iso_date(#[trigger] s.subrange(j, j + 10)),
        },
    decreases s.len(),
{
    if s.len() >= 10 {
        assert(s.take(10) =~= s.subrange(0, 0int + 10));
        if !is_iso_date(s.take(10)) {
            let t = s.drop_first();
            law_first_date(t);
            assert forall|j: int| 1 <= j <= s.len() - 10 implies #[trigger] s.subrange(j, j + 10)
                == t.subrange(j - 1, j - 1 + 10) by {
                assert(s.subrange(j, j + 10) =~= t.subrange(j - 1, j - 1 + 10));
            }
            match first_date(t) {
                Some(d) => {
                    let i = choose|i: int|
                        {
                            &&& 0 <= i <= t.len() - 10
                            &&& d == #[trigger] t.subrange(i, i + 10)
                            &&& is_iso_date(d)
                            &&& forall|j: int|
                                0 <= j < i ==> !is_iso_date(#[trigger] t.subrange(j, j + 10))
                        };
                    assert(d == s.subrange(i + 1, i + 1 + 10));
                    assert forall|j: int| 0 <= j < i + 1 implies !is_iso_date(
                        #[trigger] s.subrange(j, j + 10),
                    ) by {
                        if j > 0 {
                            assert(s.subrange(j, j + 10) == t.subrange(j - 1, j - 1 + 10));
                        }
                    }
                },
                None => {
                    assert forall|j: int| 0 <= j <= s.len() - 10 implies !is_iso_date(
                        #[trigger] s.subrange(j, j + 10),
                    ) by {
                        if j > 0 {
                            assert(s.subrange(j, j + 10) == t.subrange(j - 1, j - 1 + 10));
                        }
                    }
                },
            }
        } else {
            assert(s.take(10) == s.subrange(0, 0int + 10));
        }
    }
}

/// Law: a date that was found is found again, unchanged, in itself.
pub proof fn law_date_found_again(s: Seq<char>)
    ensures
        is_iso_date(s) ==> first_date(s) == Some(s),
        first_date(s) matches Some(d) ==> is_iso_date(d) && first_date(d) == Some(d),
{
    law_first_date(s);
    if is_iso_date(s) {
        assert(s.take(10) =~= s);
    }
    if let Some(d) = first_date(s) {
        assert(d.take(10) =~= d);
    }
}

/// Two digits are digits.
proof fn lemma_two_digits(n: int)
    requires
        0 <= n < 100,
    ensures
        two_digits(n).len() == 2,
        is_digit(two_digits(n)[0]),
        is_digit(two_digits(n)[1]),
        digits_value(two_digits(n)) == n,
{
    reveal_with_fuel(digits_value, 3);
    let t = two_digits(n);
    assert(t.drop_last() =~= seq![digit_char(n / 10)]);
    assert(t.drop_last().drop_last() =~= seq![]);
}

/// What `iso_date` writes is a date, and its parts are the numbers it was given.
proof fn lemma_iso_date(y: int, m: int, d: int)
    requires
        0 <= y < 10000,
        0 <= m < 100,
        0 <= d < 100,
    ensures
        is_iso_date(iso_date(y, m, d)),
        digits_value(iso_date(y, m, d).subrange(0, 4)) == y,
        digits_value(iso_date(y, m, d).subrange(5, 7)) == m,
        digits_value(iso_date(y, m, d).subrange(8, 10)) == d,
{
    lemma_two_digits(y / 100);
    lemma_two_digits(y % 100);
    lemma_two_digits(m);
    lemma_two_digits(d);
    let s = iso_date(y, m, d);
    assert(s.subrange(5, 7) =~= two_digits(m));
    assert(s.subrange(8, 10) =~= two_digits(d));
    let t = s.subrange(0, 4);
    assert(t =~= two_digits(y / 100) + two_digits(y % 100));
    reveal_with_fuel(digits_value, 3);
    assert(t.drop_last().drop_last() =~= two_digits(y / 100));
    assert(t.drop_last().last() == digit_char((y % 100) / 10));
    assert(t.last() == digit_char((y % 100) % 10));
    assert(digits_value(t) == 100 * (y / 100) + 10 * ((y % 100) / 10) + (y % 100) % 10);
}

/// Law: a date read from prose is written as `YYYY-MM-DD`, so it is found as
/// such.
pub proof fn law_prose_date(words: Seq<Seq<char>>)
    ensures
        first_prose_date(words) matches Some(d) ==> is_iso_date(d) && first_date(d) == Some(d),
    decreases words.len(),
{
    if words.len() >= 3 {
        match prose_date(without_suffix(words[0]), words[1], words[2]) {
            Some(t) => {
                let y = u32_of(words[2])->0 as int;
                let m = month_number(words[1])->0;
                let d = u32_of(without_suffix(words[0]))->0 as int;
                lemma_iso_date(y, m, d);
                law_date_found_again(t);
            },
            None => law_prose_date(words.drop_first()),
        }
    }
}

/// Four digits or fewer write a number below ten thousand, and no sign.
proof fn lemma_short_number(s: Seq<char>)
    requires
        0 < s.len() <= 4,
        all_digits(s),
    ensures
        0 <= digits_value(s) < 10000,
        i64_of(s) == Some(digits_value(s) as i64),
{
    reveal_with_fuel(digits_value, 5);
    assert(is_digit(s[0]));
    assert(is_digit(s[s.len() - 1]));
    if s.len() >= 2 {
        assert(is_digit(s[s.len() - 2]));
    }
    if s.len() >= 3 {
        assert(is_digit(s[s.len() - 3]));
    }
    if s.len() >= 4 {
        assert(is_digit(s[s.len() - 4]));
    }
}

/// The parts of a date between its hyphens.
proof fn lemma_cut_iso_date(s: Seq<char>)
    requires
        is_iso_date(s),
    ensures
        cut_in_three(s, '-') == seq![s.subrange(0, 4), s.subrange(5, 7), s.subrange(8, 10)],
{
    let a = s.subrange(0, 4);
    let b = s.subrange(5, 7);
    assert(is_digit(a[0]) && is_digit(a[1]) && is_digit(a[2]) && is_digit(a[3]));
    assert(is_digit(b[0]) && is_digit(b[1]));
    assert(first_of(s, '-') == 4) by {
        lemma_first_of_at(s, '-', 4);
    }
    let rest = s.skip(5);
    assert(first_of(rest, '-') == 2) by {
        assert(rest[0] == b[0] && rest[1] == b[1] && rest[2] == s[7]);
        lemma_first_of_at(rest, '-', 2);
    }
    assert(s.take(4) =~= a);
    assert(rest.take(2) =~= b);
    assert(rest.skip(3) =~= s.subrange(8, 10));
}

/// Law: the days until a date that was found can always be counted.
pub proof fn law_iso_date_countable(s: Seq<char>)
    requires
        is_iso_date(s),
    ensures
        countable(s),
        all_numbers(cut_in_three(s, '-')),
{
    lemma_cut_iso_date(s);
    lemma_short_number(s.subrange(0, 4));
    lemma_short_number(s.subrange(5, 7));
    lemma_short_number(s.subrange(8, 10));
    assert forall|seconds: u64| #[trigger] day_count_defined(s, seconds) by {
        assert(-106751991167301 <= day_of_seconds(seconds) <= 106751991167301);
    }
}

/// Law: the count for a written date is the difference of the two days in the
/// calendar.
pub proof fn law_day_count(y: int, m: int, d: int, seconds: u64)
    requires
        0 <= y < 10000,
        is_calendar_date(y, m, d),
    ensures
        day_count(iso_date(y, m, d), seconds) == Some(
            days_from_epoch(y, m, d) - day_of_seconds(seconds),
        ),
{
    let s = iso_date(y, m, d);
    lemma_iso_date(y, m, d);
    lemma_cut_iso_date(s);
    lemma_short_number(s.subrange(0, 4));
    lemma_short_number(s.subrange(5, 7));
    lemma_short_number(s.subrange(8, 10));
    law_epoch_days(y, m, d);
}

/// Ten characters from position `i` on write a date: four digits, a hyphen, two
/// digits, a hyphen, two digits.
pub open spec fn date_at(s: Seq<char>, i: int) -> bool {
    &&& 0 <= i
    &&& i + 10 <= s.len()
    &&& '0' <= s[i] <= '9'
    &&& '0' <= s[i + 1] <= '9'
    &&& '0' <= s[i + 2] <= '9'
    &&& '0' <= s[i + 3] <= '9'
    &&& s[i + 4] == '-'
    &&& '0' <= s[i + 5] <= '9'
    &&& '0' <= s[i + 6] <= '9'
    &&& s[i + 7] == '-'
    &&& '0' <= s[i + 8] <= '9'
    &&& '0' <= s[i + 9] <= '9'
}

/// A date that is written character by character is a date.
proof fn lemma_date_at(s: Seq<char>, i: int)
    requires
        0 <= i,
        i + 10 <= s.len(),
    ensures
        date_at(s, i) <==> is_iso_date(s.subrange(i, i + 10)),
{
    let t = s.subrange(i, i + 10);
    let a = t.subrange(0, 4);
    let b = t.subrange(5, 7);
    let c = t.subrange(8, 10);
    assert(a[0] == s[i] && a[1] == s[i + 1] && a[2] == s[i + 2] && a[3] == s[i + 3]);
    assert(b[0] == s[i + 5] && b[1] == s[i + 6]);
    assert(c[0] == s[i + 8] && c[1] == s[i + 9]);
    assert(t[4] == s[i + 4] && t[7] == s[i + 7]);
    if is_iso_date(t) {
        assert(is_digit(a[0]) && is_digit(a[1]) && is_digit(a[2]) && is_digit(a[3]));
        assert(is_digit(b[0]) && is_digit(b[1]) && is_digit(c[0]) && is_digit(c[1]));
    }
}

/// Law: the first place where a text writes a date is the one that is read, and
/// it is read as it stands there.
pub proof fn law_date_read(s: Seq<char>, i: int)
    requires
        date_at(s, i),
        forall|j: int| 0 <= j < i ==> !#[trigger] date_at(s, j),
    ensures
        first_date(s) == Some(s.subrange(i, i + 10)),
{
    law_first_date(s);
    lemma_date_at(s, i);
    match first_date(s) {
        Some(d) => {
            let k = choose|k: int|
                {
                    &&& 0 <= k <= s.len() - 10
                    &&& d == #[trigger] s.subrange(k, k + 10)
                    &&& is_iso_date(d)
                    &&& forall|j: int|
                        0 <= j < k ==> !is_iso_date(#[trigger] s.subrange(j, j + 10))
                };
            lemma_date_at(s, k);
            assert(date_at(s, k));
            if i < k {
                assert(!is_iso_date(s.subrange(i, i + 10)));
            }
        },
        None => {
            assert(!is_iso_date(s.subrange(i, i + 10)));
        },
    }
}

/// Law: where a text writes no date, none is read.
pub proof fn law_no_date_read(s: Seq<char>)
    requires
        forall|j: int| !#[trigger] date_at(s, j),
    ensures
        first_date(s) is None,
{
    law_first_date(s);
    if let Some(d) = first_date(s) {
        let k = choose|k: int|
            {
                &&& 0 <= k <= s.len() - 10
                &&& d == #[trigger] s.subrange(k, k + 10)
                &&& is_iso_date(d)
                &&& forall|j: int| 0 <= j < k ==> !is_iso_date(#[trigger] s.subrange(j, j + 10))
            };
        lemma_date_at(s, k);
        assert(date_at(s, k));
    }
}

/// White space before a text holds no date.
proof fn lemma_date_after_white(s: Seq<char>)
    ensures
        first_date(trim_start(s)) == first_date(s),
    decreases s.len(),
{
    if s.len() > 0 && is_white(s[0]) {
        lemma_date_after_white(s.drop_first());
        if s.len() >= 10 {
            let t = s.take(10);
            assert(t.subrange(0, 4)[0] == s[0]);
            if is_iso_date(t) {
                assert(is_digit(t.subrange(0, 4)[0]));
            }
        }
    }
}

/// White space at the end of a text is in no date.
proof fn lemma_date_before_white(s: Seq<char>)
    requires
        s.len() > 0,
        is_white(s.last()),
    ensures
        first_date(s.drop_last()) == first_date(s),
    decreases s.len(),
{
    if s.len() == 10 {
        assert(s.take(10) =~= s);
        if is_iso_date(s) {
            assert(is_digit(s.subrange(8, 10)[1]));
        }
        assert(first_date(s.drop_first()) is None);
    } else if s.len() > 10 {
        let t = s.drop_last();
        assert(t.take(10) =~= s.take(10));
        lemma_date_before_white(s.drop_first());
        assert(t.drop_first() =~= s.drop_first().drop_last());
    }
}

/// The text without the white space at its end has the same first date.
proof fn lemma_date_trim_end(s: Seq<char>)
    ensures
        first_date(trim_end(s)) == first_date(s),
    decreases s.len(),
{
    if s.len() > 0 && is_white(s.last()) {
        lemma_date_before_white(s);
        lemma_date_trim_end(s.drop_last());
    }
}

/// Law: the white space around a text changes nothing about the date in it.
pub proof fn law_date_between_white(s: Seq<char>)
    ensures
        first_date(trimmed(s)) == first_date(s),
{
    lemma_date_after_white(s);
    lemma_date_trim_end(trim_start(s));
}

/// The names of the months in their order.
pub open spec fn month_names() -> Seq<Seq<char>> {
    seq![
        "january"@,
        "february"@,
        "march"@,
        "april"@,
        "may"@,
        "june"@,
        "july"@,
        "august"@,
        "september"@,
        "october"@,
        "november"@,
        "december"@,
    ]
}

/// Three words from position `i` on write a date: `number` with letters after it
/// or none, the name of month `m`, and a year.
pub open spec fn prose_at(
    words: Seq<Seq<char>>,
    i: int,
    number: Seq<char>,
    letters: Seq<char>,
    m: int,
) -> bool {
    &&& 0 <= i
    &&& i + 3 <= words.len()
    &&& words[i] == number + letters
    &&& forall|k: int| 0 <= k < letters.len() ==> is_letter(#[trigger] letters[k])
    &&& 1 <= m <= 12
    &&& words[i + 1] == month_names()[m - 1]
    &&& u32_of(number) matches Some(d) && 1 <= d <= 31
    &&& u32_of(words[i + 2]) matches Some(y) && 1900 <= y <= 2099
}

/// `date` writes the day, the month and the year in two, two and four digits.
pub open spec fn writes(date: Seq<char>, y: int, m: int, d: int) -> bool {
    &&& date_at(date, 0)
    &&& date.len() == 10
    &&& digits_value(date.subrange(0, 4)) == y
    &&& digits_value(date.subrange(5, 7)) == m
    &&& digits_value(date.subrange(8, 10)) == d
}

/// The letters after a number are taken off, and no more.
proof fn lemma_without_suffix(number: Seq<char>, letters: Seq<char>)
    requires
        u32_of(number) is Some,
        forall|k: int| 0 <= k < letters.len() ==> is_letter(#[trigger] letters[k]),
    ensures
        without_suffix(number + letters) == number,
    decreases letters.len(),
{
    let w = number + letters;
    if letters.len() == 0 {
        assert(w =~= number);
        let d = unsigned_part(number);
        assert(is_digit(d[d.len() - 1]));
        assert(number.last() == d[d.len() - 1]);
    } else {
        assert(is_letter(letters[letters.len() - 1]));
        assert forall|k: int| 0 <= k < letters.drop_last().len() implies is_letter(
            #[trigger] letters.drop_last()[k],
        ) by {
            assert(letters.drop_last()[k] == letters[k]);
        }
        lemma_without_suffix(number, letters.drop_last());
        assert(w.drop_last() =~= number + letters.drop_last());
    }
}

/// What is left without the letters at its end, and those letters.
proof fn lemma_suffix(s: Seq<char>) -> (letters: Seq<char>)
    ensures
        s == without_suffix(s) + letters,
        forall|k: int| 0 <= k < letters.len() ==> is_letter(#[trigger] letters[k]),
    decreases s.len(),
{
    if s.len() > 0 && is_letter(s.last()) {
        let rest = lemma_suffix(s.drop_last());
        let letters = rest.push(s.last());
        let number = without_suffix(s);
        assert(s =~= s.drop_last().push(s.last()));
        assert((number + rest).push(s.last()) =~= number + letters);
        assert forall|k: int| 0 <= k < letters.len() implies is_letter(#[trigger] letters[k]) by {
            if k < rest.len() {
                assert(letters[k] == rest[k]);
            }
        }
        letters
    } else {
        let letters: Seq<char> = seq![];
        assert(s =~= without_suffix(s) + letters);
        letters
    }
}

/// The month with the `m`-th name is month `m`.
proof fn lemma_month_names(name: Seq<char>)
    ensures
        month_number(name) matches Some(m) ==> 1 <= m <= 12 && month_names()[m - 1] == name,
        forall|m: int| 1 <= m <= 12 && #[trigger] month_names()[m - 1] == name ==> month_number(name)
            == Some(m),
{
    reveal_strlit("january");
    reveal_strlit("february");
    reveal_strlit("march");
    reveal_strlit("april");
    reveal_strlit("may");
    reveal_strlit("june");
    reveal_strlit("july");
    reveal_strlit("august");
    reveal_strlit("september");
    reveal_strlit("october");
    reveal_strlit("november");
    reveal_strlit("december");
    assert("january"@.len() == 7 && "january"@[0] == 'j');
    assert("february"@.len() == 8 && "february"@[0] == 'f');
    assert("march"@.len() == 5 && "march"@[0] == 'm');
    assert("april"@.len() == 5 && "april"@[0] == 'a');
    assert("may"@.len() == 3 && "may"@[0] == 'm');
    assert("june"@.len() == 4 && "june"@[0] == 'j' && "june"@[2] == 'n');
    assert("july"@.len() == 4 && "july"@[0] == 'j' && "july"@[2] == 'l');
    assert("august"@.len() == 6 && "august"@[0] == 'a');
    assert("september"@.len() == 9 && "september"@[0] == 's');
    assert("october"@.len() == 7 && "october"@[0] == 'o');
    assert("november"@.len() == 8 && "november"@[0] == 'n');
    assert("december"@.len() == 8 && "december"@[0] == 'd');
    assert forall|m: int| 1 <= m <= 12 && #[trigger] month_names()[m - 1] == name implies
        month_number(name) == Some(m) by {
        assert(m == 1 || m == 2 || m == 3 || m == 4 || m == 5 || m == 6 || m == 7 || m == 8 || m
            == 9 || m == 10 || m == 11 || m == 12);
    }
}

/// Law: a date in prose is read from the first three words in a row that write
/// one, and what is read writes the same year, month and day.
pub proof fn law_prose_read(
    words: Seq<Seq<char>>,
    i: int,
    number: Seq<char>,
    letters: Seq<char>,
    m: int,
)
    requires
        prose_at(words, i, number, letters, m),
        forall|j: int, n: Seq<char>, l: Seq<char>, k: int|
            0 <= j < i ==> !#[trigger] prose_at(words, j, n, l, k),
    ensures
        first_prose_date(words) matches Some(date) && writes(
            date,
            u32_of(words[i + 2])->0 as int,
            m,
            u32_of(number)->0 as int,
        ),
    decreases words.len(),
{
    if i == 0 {
        lemma_without_suffix(number, letters);
        lemma_month_names(words[1]);
        assert(month_names()[m - 1] == words[1]);
        let y = u32_of(words[2])->0 as int;
        let d = u32_of(number)->0 as int;
        lemma_iso_date(y, m, d);
        let date = iso_date(y, m, d);
        lemma_date_at(date, 0);
        assert(date.subrange(0, 10) =~= date);
        assert(prose_date(without_suffix(words[0]), words[1], words[2]) == Some(date));
    } else {
        let rest = words.drop_first();
        let l = lemma_suffix(words[0]);
        let n = without_suffix(words[0]);
        lemma_month_names(words[1]);
        if prose_date(n, words[1], words[2]) is Some {
            let k = month_number(words[1])->0;
            assert(prose_at(words, 0, n, l, k));
        }
        assert(rest[i - 1] == words[i] && rest[i] == words[i + 1] && rest[i + 1] == words[i + 2]);
        assert(prose_at(rest, i - 1, number, letters, m));
        assert forall|j: int, n: Seq<char>, l: Seq<char>, k: int| 0 <= j < i - 1 implies
            !#[trigger] prose_at(rest, j, n, l, k) by {
            if prose_at(rest, j, n, l, k) {
                assert(prose_at(words, j + 1, n, l, k));
            }
        }
        law_prose_read(rest, i - 1, number, letters, m);
    }
}

/// Law: where no three words in a row write a date, none is read.
pub proof fn law_no_prose_read(words: Seq<Seq<char>>)
    requires
        forall|j: int, n: Seq<char>, l: Seq<char>, k: int| !#[trigger] prose_at(words, j, n, l, k),
    ensures
        first_prose_date(words) is None,
    decreases words.len(),
{
    if words.len() >= 3 {
        let rest = words.drop_first();
        let l = lemma_suffix(words[0]);
        let n = without_suffix(words[0]);
        lemma_month_names(words[1]);
        if prose_date(n, words[1], words[2]) is Some {
            let k = month_number(words[1])->0;
            assert(prose_at(words, 0, n, l, k));
        }
        assert forall|j: int, n: Seq<char>, l: Seq<char>, k: int| !#[trigger] prose_at(
            rest,
            j,
            n,
            l,
            k,
        ) by {
            if prose_at(rest, j, n, l, k) {
                assert(rest[j] == words[j + 1] && rest[j + 1] == words[j + 2] && rest[j + 2]
                    == words[j + 3]);
                assert(prose_at(words, j + 1, n, l, k));
            }
        }
        law_no_prose_read(rest);
    }
}

/// Law: the days to a date that a text writes are the days between the two in
/// the calendar, by what the clock reads; and a day is 86400 seconds.
pub proof fn law_days_counted(s: Seq<char>, y: int, m: int, d: int, seconds: u64)
    requires
        writes(s, y, m, d),
        is_calendar_date(y, m, d),
        seconds <= i64::MAX,
    ensures
        day_count_by(s, Some(seconds)) == Some(
            days_from_epoch(y, m, d) - seconds as int / 86400,
        ),
        day_count_by(s, None) is None,
{
    lemma_date_at(s, 0);
    assert(s.subrange(0, 10) =~= s);
    lemma_cut_iso_date(s);
    lemma_short_number(s.subrange(0, 4));
    lemma_short_number(s.subrange(5, 7));
    lemma_short_number(s.subrange(8, 10));
    law_epoch_days(y, m, d);
}

/// Law: the days to a text of three parts between hyphens go by the numbers that
/// its parts write, and where one of them is no number there are none.
pub proof fn law_days_by_parts(y: Seq<char>, m: Seq<char>, d: Seq<char>, seconds: u64)
    requires
        !y.contains('-'),
        !m.contains('-'),
    ensures
        i64_of(y) is Some && i64_of(m) is Some && i64_of(d) is Some ==> day_count(
            y + seq!['-'] + m + seq!['-'] + d,
            seconds,
        ) == Some(
            epoch_days(i64_of(y)->0 as int, i64_of(m)->0 as int, i64_of(d)->0 as int)
                - day_of_seconds(seconds),
        ),
        i64_of(y) is None || i64_of(m) is None || i64_of(d) is None ==> day_count(
            y + seq!['-'] + m + seq!['-'] + d,
            seconds,
        ) is None,
{
    let s = y + seq!['-'] + m + seq!['-'] + d;
    let rest = m + seq!['-'] + d;
    assert forall|j: int| 0 <= j < y.len() implies s[j] != '-' by {
        assert(y.contains(y[j]));
    }
    assert(s[y.len() as int] == '-');
    lemma_first_of_at(s, '-', y.len() as int);
    assert(s.skip(y.len() as int + 1) =~= rest);
    assert(s.take(y.len() as int) =~= y);
    assert forall|j: int| 0 <= j < m.len() implies rest[j] != '-' by {
        assert(m.contains(m[j]));
    }
    assert(rest[m.len() as int] == '-');
    lemma_first_of_at(rest, '-', m.len() as int);
    assert(rest.take(m.len() as int) =~= m);
    assert(rest.skip(m.len() as int + 1) =~= d);
    let p = cut_in_three(s, '-');
    assert(p =~= seq![y, m, d]);
    assert(p[0] == y && p[1] == m && p[2] == d);
}

/// Law: a text without a hyphen that is no number has no days, whatever the
/// clock reads.
pub proof fn law_no_days(s: Seq<char>, seconds: u64)
    requires
        !s.contains('-'),
        i64_of(s) is None,
    ensures
        day_count(s, seconds) is None,
{
    lemma_first_of_at(s, '-', s.len() as int);
    assert(cut_in_three(s, '-')[0] == s);
}

/// Law: a day from 1 to 31, the name of a month and a year from 1900 to 2099 write
/// a date, which is written with the same numbers; nothing else does.
pub proof fn law_prose_parts(day: Seq<char>, month: Seq<char>, year: Seq<char>, m: int)
    ensures
        u32_of(day) is Some && 1 <= u32_of(day)->0 <= 31 && 1 <= m <= 12 && month == month_names()[m
            - 1] && u32_of(year) is Some && 1900 <= u32_of(year)->0 <= 2099 ==> (prose_date(
            day,
            month,
            year,
        ) matches Some(date) && writes(date, u32_of(year)->0 as int, m, u32_of(day)->0 as int)),
        prose_date(day, month, year) is Some ==> u32_of(day) is Some && 1 <= u32_of(day)->0 <= 31
            && month_names().contains(month) && u32_of(year) is Some && 1900 <= u32_of(year)->0
            <= 2099,
{
    lemma_month_names(month);
    if prose_date(day, month, year) is Some {
        let k = month_number(month)->0;
        assert(month_names()[k - 1] == month);
    }
    if u32_of(day) is Some && 1 <= u32_of(day)->0 <= 31 && 1 <= m <= 12 && month == month_names()[m
        - 1] && u32_of(year) is Some && 1900 <= u32_of(year)->0 <= 2099 {
        let y = u32_of(year)->0 as int;
        let d = u32_of(day)->0 as int;
        assert(month_names()[m - 1] == month);
        lemma_iso_date(y, m, d);
        lemma_date_at(iso_date(y, m, d), 0);
        assert(iso_date(y, m, d).subrange(0, 10) =~= iso_date(y, m, d));
    }
}

} // verus!
