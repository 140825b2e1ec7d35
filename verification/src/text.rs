//! Texts as sequences of characters: searching, splitting, reading and writing
//! of numbers.

use vstd::prelude::*;
use crate::unicode::is_white;

verus! {

/// The characters of each text of a list.
pub open spec fn texts(list: Seq<String>) -> Seq<Seq<char>> {
    Seq::new(list.len(), |i: int| list[i]@)
}

/// `needle` stands in `hay` at position `i`.
pub open spec fn occurs_at(needle: Seq<char>, hay: Seq<char>, i: int) -> bool {
    &&& 0 <= i
    &&& i + needle.len() <= hay.len()
    &&& hay.subrange(i, i + needle.len()) == needle
}

/// `needle` stands somewhere in `hay`.
pub open spec fn occurs_in(needle: Seq<char>, hay: Seq<char>) -> bool {
    exists|i: int| occurs_at(needle, hay, i)
}

/// How many characters of `s` come before its first `c`; all of them if it has none.
pub open spec fn first_of(s: Seq<char>, c: char) -> int
    decreases s.len(),
{
    if s.len() == 0 || s[0] == c {
        0
    } else {
        1 + first_of(s.drop_first(), c)
    }
}

/// The position of the last `c` in `s`; -1 if it has none.
pub open spec fn last_of(s: Seq<char>, c: char) -> int
    decreases s.len(),
{
    if s.len() == 0 {
        -1
    } else if s.last() == c {
        s.len() - 1
    } else {
        last_of(s.drop_last(), c)
    }
}

/// The parts of `s` between the occurrences of `c`.
pub open spec fn split_on(s: Seq<char>, c: char) -> Seq<Seq<char>>
    decreases s.len(),
{
    let i = first_of(s, c);
    if 0 <= i < s.len() {
        seq![s.take(i)] + split_on(s.skip(i + 1), c)
    } else {
        seq![s]
    }
}

/// A line without the carriage return that may end it.
pub open spec fn without_return(line: Seq<char>) -> Seq<char> {
    if line.len() > 0 && line.last() == '\r' {
        line.drop_last()
    } else {
        line
    }
}

/// The lines of `s`: a line feed, or a carriage return and a line feed, ends
/// each of them but perhaps the last.
pub open spec fn lines_of(s: Seq<char>) -> Seq<Seq<char>>
    decreases s.len(),
{
    let i = first_of(s, '\n');
    if s.len() == 0 {
        seq![]
    } else if 0 <= i < s.len() {
        seq![without_return(s.take(i))] + lines_of(s.skip(i + 1))
    } else {
        seq![s]
    }
}

/// `s` without the white space at its start.
pub open spec fn trim_start(s: Seq<char>) -> Seq<char>
    decreases s.len(),
{
    if s.len() > 0 && is_white(s[0]) {
        trim_start(s.drop_first())
    } else {
        s
    }
}

/// `s` without the white space at its end.
pub open spec fn trim_end(s: Seq<char>) -> Seq<char>
    decreases s.len(),
{
    if s.len() > 0 && is_white(s.last()) {
        trim_end(s.drop_last())
    } else {
        s
    }
}

/// `s` without the white space at either end.
pub open spec fn trimmed(s: Seq<char>) -> Seq<char> {
    trim_end(trim_start(s))
}

/// How many characters of `s` come before its first white space.
pub open spec fn word_length(s: Seq<char>) -> int
    decreases s.len(),
{
    if s.len() == 0 || is_white(s[0]) {
        0
    } else {
        1 + word_length(s.drop_first())
    }
}

/// The runs of `s` that hold no white space, in order.
pub open spec fn words_of(s: Seq<char>) -> Seq<Seq<char>>
    decreases s.len(),
{
    let n = word_length(s);
    if s.len() == 0 {
        seq![]
    } else if 0 < n <= s.len() {
        seq![s.take(n)] + words_of(s.skip(n))
    } else {
        words_of(s.drop_first())
    }
}

/// Whether `c` is one of the ten decimal digits.
pub open spec fn is_digit(c: char) -> bool {
    '0' <= c <= '9'
}

/// Whether `s` holds decimal digits only.
pub open spec fn all_digits(s: Seq<char>) -> bool {
    forall|i: int| 0 <= i < s.len() ==> is_digit(#[trigger] s[i])
}

/// The number that a sequence of decimal digits writes.
pub open spec fn digits_value(s: Seq<char>) -> int
    decreases s.len(),
{
    if s.len() == 0 {
        0
    } else {
        10 * digits_value(s.drop_last()) + (s.last() as int - '0' as int)
    }
}

/// The digits of a number without its sign, where `s` is written so.
pub open spec fn unsigned_part(s: Seq<char>) -> Seq<char> {
    if s.len() > 0 && s[0] == '+' {
        s.drop_first()
    } else {
        s
    }
}

/// The number below 2^32 that `s` writes: digits, with or without a `+` before them.
pub open spec fn u32_of(s: Seq<char>) -> Option<u32> {
    let d = unsigned_part(s);
    if d.len() > 0 && all_digits(d) && digits_value(d) <= u32::MAX {
        Some(digits_value(d) as u32)
    } else {
        None
    }
}

/// The signed 64-bit number that `s` writes: digits, with or without a sign before them.
pub open spec fn i64_of(s: Seq<char>) -> Option<i64> {
    let negative = s.len() > 0 && s[0] == '-';
    let d = if negative {
        s.drop_first()
    } else {
        unsigned_part(s)
    };
    let v = if negative {
        -digits_value(d)
    } else {
        digits_value(d)
    };
    if d.len() > 0 && all_digits(d) && i64::MIN <= v <= i64::MAX {
        Some(v as i64)
    } else {
        None
    }
}

/// The decimal digit for a number below ten.
pub open spec fn digit_char(d: int) -> char {
    ('0' as u32 + d) as char
}

/// How a number is written in decimal.
pub open spec fn decimal(n: nat) -> Seq<char>
    decreases n,
{
    if n < 10 {
        seq![digit_char(n as int)]
    } else {
        decimal(n / 10).push(digit_char((n % 10) as int))
    }
}

/// `s` with spaces after it up to `width` characters.
pub open spec fn padded(s: Seq<char>, width: nat) -> Seq<char> {
    if s.len() < width {
        s + Seq::new((width - s.len()) as nat, |i: int| ' ')
    } else {
        s
    }
}

/// The characters of a text.
pub fn chars_of(s: &str) -> (r: Vec<char>)
    ensures
        r@ == s@,
{
    let mut v: Vec<char> = Vec::new();
    for c in it: s.chars()
        invariant
            v@ == it.seq().take(it.index()),
    {
        v.push(c);
    }
    v
}

/// The text made of the characters from `from` up to `to`.
pub fn text_of(chars: &[char], from: usize, to: usize) -> (r: String)
    requires
        from <= to <= chars@.len(),
    ensures
        r@ == chars@.subrange(from as int, to as int),
{
    let mut out = String::new();
    let mut i: usize = from;
    while i < to
        invariant
            from <= i <= to <= chars@.len(),
            out@ == chars@.subrange(from as int, i as int),
        decreases to - i,
    {
        out.push(chars[i]);
        i += 1;
        assert(chars@.subrange(from as int, i as int) =~= chars@.subrange(
            from as int,
            i - 1,
        ).push(chars@[i - 1]));
    }
    out
}

/// Whether two texts are the same.
pub fn same_text(a: &str, b: &str) -> (r: bool)
    ensures
        r == (a@ == b@),
{
    let x = chars_of(a);
    let y = chars_of(b);
    if x.len() != y.len() {
        return false;
    }
    let mut i: usize = 0;
    while i < x.len()
        invariant
            i <= x@.len() == y@.len(),
            x@ == a@,
            y@ == b@,
            forall|j: int| 0 <= j < i ==> x@[j] == y@[j],
        decreases x@.len() - i,
    {
        if x[i] != y[i] {
            return false;
        }
        i += 1;
    }
    assert(x@ =~= y@);
    true
}

/// The position of the first `c` is where `first_of` puts it.
pub proof fn lemma_first_of(s: Seq<char>, c: char)
    ensures
        0 <= first_of(s, c) <= s.len(),
        first_of(s, c) < s.len() ==> s[first_of(s, c)] == c,
        forall|j: int| 0 <= j < first_of(s, c) ==> s[j] != c,
    decreases s.len(),
{
    if s.len() > 0 && s[0] != c {
        lemma_first_of(s.drop_first(), c);
        assert forall|j: int| 0 <= j < first_of(s, c) implies s[j] != c by {
            if j > 0 {
                assert(s.drop_first()[j - 1] == s[j]);
            }
        }
    }
}

/// `first_of` is the only position that the first `c` can have.
pub proof fn lemma_first_of_at(s: Seq<char>, c: char, i: int)
    requires
        0 <= i <= s.len(),
        i < s.len() ==> s[i] == c,
        forall|j: int| 0 <= j < i ==> s[j] != c,
    ensures
        first_of(s, c) == i,
{
    lemma_first_of(s, c);
}

/// The position of the last `c` is where `last_of` puts it.
pub proof fn lemma_last_of(s: Seq<char>, c: char)
    ensures
        -1 <= last_of(s, c) < s.len(),
        last_of(s, c) >= 0 ==> s[last_of(s, c)] == c,
        forall|j: int| last_of(s, c) < j < s.len() ==> s[j] != c,
    decreases s.len(),
{
    if s.len() > 0 && s.last() != c {
        lemma_last_of(s.drop_last(), c);
        assert forall|j: int| last_of(s, c) < j < s.len() implies s[j] != c by {
            if j < s.len() - 1 {
                assert(s.drop_last()[j] == s[j]);
            }
        }
    }
}

/// The position of the first `c` at or after `from`, or the length.
pub fn find_char(s: &[char], from: usize, c: char) -> (r: usize)
    requires
        from <= s@.len(),
    ensures
        from <= r <= s@.len(),
        r == from + first_of(s@.skip(from as int), c),
{
    let mut i: usize = from;
    while i < s.len() && s[i] != c
        invariant
            from <= i <= s@.len(),
            forall|j: int| from <= j < i ==> s@[j] != c,
        decreases s@.len() - i,
    {
        i += 1;
    }
    proof {
        let t = s@.skip(from as int);
        assert forall|j: int| 0 <= j < i - from implies t[j] != c by {}
        lemma_first_of_at(t, c, i - from);
    }
    i
}

/// The position of the last `c`, if there is one.
pub fn rfind_char(s: &[char], c: char) -> (r: Option<usize>)
    ensures
        r is None <==> last_of(s@, c) < 0,
        r matches Some(i) ==> i == last_of(s@, c) && i < s@.len(),
{
    let mut i: usize = s.len();
    while i > 0
        invariant
            i <= s@.len(),
            forall|j: int| i <= j < s@.len() ==> s@[j] != c,
        decreases i,
    {
        i -= 1;
        if s[i] == c {
            proof {
                lemma_last_of(s@, c);
            }
            return Some(i);
        }
    }
    proof {
        lemma_last_of(s@, c);
    }
    None
}

/// Whether `needle` stands in `hay` at position `at`.
fn matches_at(hay: &[char], needle: &[char], at: usize) -> (r: bool)
    requires
        at + needle@.len() <= hay@.len(),
    ensures
        r == occurs_at(needle@, hay@, at as int),
{
    let mut j: usize = 0;
    let length = hay.len();
    while j < needle.len()
        invariant
            j <= needle@.len(),
            length == hay@.len(),
            at + needle@.len() <= length,
            forall|k: int| 0 <= k < j ==> hay@[at + k] == needle@[k],
        decreases needle@.len() - j,
    {
        if hay[at + j] != needle[j] {
            proof {
                assert(hay@.subrange(at as int, at + needle@.len())[j as int] != needle@[j as int]);
            }
            return false;
        }
        j += 1;
    }
    assert(hay@.subrange(at as int, at + needle@.len()) =~= needle@);
    true
}

/// Whether `needle` stands somewhere in `hay`.
pub fn contains_text(hay: &str, needle: &str) -> (r: bool)
    ensures
        r == occurs_in(needle@, hay@),
{
    let h = chars_of(hay);
    let n = chars_of(needle);
    if n.len() > h.len() {
        return false;
    }
    let mut i: usize = h.len() - n.len();
    loop
        invariant
            h@ == hay@,
            n@ == needle@,
            i + n@.len() <= h@.len(),
            forall|k: int| i < k ==> !occurs_at(n@, h@, k),
        decreases i,
    {
        if matches_at(h.as_slice(), n.as_slice(), i) {
            return true;
        }
        if i == 0 {
            return false;
        }
        i -= 1;
    }
}

/// Whether `s` begins with `prefix`.
pub fn begins_with(s: &[char], prefix: &[char]) -> (r: bool)
    ensures
        r == prefix@.is_prefix_of(s@),
{
    if prefix.len() > s.len() {
        return false;
    }
    matches_at(s, prefix, 0)
}

/// Adding a text to a list adds its characters to the list's characters.
proof fn lemma_texts_push(list: Seq<String>, t: String)
    ensures
        texts(list.push(t)) == texts(list).push(t@),
{
    assert(texts(list.push(t)) =~= texts(list).push(t@));
}

/// The parts of a text between the occurrences of `c`.
pub fn split_text(s: &str, c: char) -> (r: Vec<String>)
    ensures
        texts(r@) == split_on(s@, c),
{
    let chars = chars_of(s);
    let mut parts: Vec<String> = Vec::new();
    let mut start: usize = 0;
    assert(chars@.skip(0) =~= s@);
    assert(texts(parts@) =~= seq![]);
    loop
        invariant
            chars@ == s@,
            start <= chars@.len(),
            split_on(s@, c) =~= texts(parts@) + split_on(s@.skip(start as int), c),
        decreases chars@.len() - start,
    {
        let i = find_char(chars.as_slice(), start, c);
        let part = text_of(chars.as_slice(), start, i);
        let ghost rest = s@.skip(start as int);
        proof {
            lemma_texts_push(parts@, part);
            assert(rest.take(i - start) =~= part@);
        }
        parts.push(part);
        if i == chars.len() {
            assert(rest =~= part@);
            return parts;
        }
        proof {
            assert(rest.skip(i - start + 1) =~= s@.skip(i + 1));
        }
        start = i + 1;
    }
}

/// The lines of a text.
pub fn split_lines(s: &str) -> (r: Vec<String>)
    ensures
        texts(r@) == lines_of(s@),
{
    let chars = chars_of(s);
    let mut parts: Vec<String> = Vec::new();
    let mut start: usize = 0;
    assert(chars@.skip(0) =~= s@);
    assert(texts(parts@) =~= seq![]);
    while start < chars.len()
        invariant
            chars@ == s@,
            start <= chars@.len(),
            lines_of(s@) =~= texts(parts@) + lines_of(s@.skip(start as int)),
        decreases chars@.len() - start,
    {
        let i = find_char(chars.as_slice(), start, '\n');
        let ghost rest = s@.skip(start as int);
        if i == chars.len() {
            let part = text_of(chars.as_slice(), start, i);
            proof {
                lemma_texts_push(parts@, part);
                assert(rest =~= part@);
            }
            parts.push(part);
            return parts;
        }
        let end = if i > start && chars[i - 1] == '\r' {
            i - 1
        } else {
            i
        };
        let part = text_of(chars.as_slice(), start, end);
        proof {
            lemma_texts_push(parts@, part);
            assert(without_return(rest.take(i - start)) =~= part@);
        }
        parts.push(part);
        proof {
            assert(rest.skip(i - start + 1) =~= s@.skip(i + 1));
        }
        start = i + 1;
    }
    assert(s@.skip(start as int) =~= seq![]);
    parts
}

/// `word_length` is the only length that the first word can have.
proof fn lemma_word_length_at(s: Seq<char>, n: int)
    requires
        0 <= n <= s.len(),
        n < s.len() ==> is_white(s[n]),
        forall|j: int| 0 <= j < n ==> !is_white(#[trigger] s[j]),
    ensures
        word_length(s) == n,
    decreases s.len(),
{
    if n > 0 {
        let t = s.drop_first();
        assert(!is_white(s[0]));
        assert forall|j: int| 0 <= j < n - 1 implies !is_white(#[trigger] t[j]) by {
            assert(t[j] == s[j + 1]);
        }
        lemma_word_length_at(t, n - 1);
    }
}

/// The words of a text.
pub fn split_words(s: &str) -> (r: Vec<String>)
    ensures
        texts(r@) == words_of(s@),
{
    let chars = chars_of(s);
    let mut parts: Vec<String> = Vec::new();
    let mut start: usize = 0;
    assert(chars@.skip(0) =~= s@);
    assert(texts(parts@) =~= seq![]);
    while start < chars.len()
        invariant
            chars@ == s@,
            start <= chars@.len(),
            words_of(s@) =~= texts(parts@) + words_of(s@.skip(start as int)),
        decreases chars@.len() - start,
    {
        let ghost rest = s@.skip(start as int);
        if chars[start].is_whitespace() {
            proof {
                lemma_word_length_at(rest, 0);
                assert(rest.drop_first() =~= s@.skip(start + 1));
            }
            start += 1;
        } else {
            let mut end: usize = start + 1;
            while end < chars.len() && !chars[end].is_whitespace()
                invariant
                    start < end <= chars@.len(),
                    forall|j: int| start <= j < end ==> !is_white(#[trigger] chars@[j]),
                decreases chars@.len() - end,
            {
                end += 1;
            }
            let part = text_of(chars.as_slice(), start, end);
            proof {
                assert forall|j: int| 0 <= j < end - start implies !is_white(
                    #[trigger] rest[j],
                ) by {
                    assert(rest[j] == chars@[start + j]);
                }
                lemma_word_length_at(rest, end - start);
                lemma_texts_push(parts@, part);
                assert(rest.take(end - start) =~= part@);
                assert(rest.skip(end - start) =~= s@.skip(end as int));
            }
            parts.push(part);
            start = end;
        }
    }
    assert(s@.skip(start as int) =~= seq![]);
    parts
}

/// A text without the white space at either end.
pub fn trim_text(s: &str) -> (r: String)
    ensures
        r@ == trimmed(s@),
{
    let chars = chars_of(s);
    let mut a: usize = 0;
    assert(chars@.skip(0) =~= s@);
    while a < chars.len() && chars[a].is_whitespace()
        invariant
            chars@ == s@,
            a <= chars@.len(),
            trim_start(s@) == trim_start(s@.skip(a as int)),
        decreases chars@.len() - a,
    {
        assert(s@.skip(a as int).drop_first() =~= s@.skip(a + 1));
        a += 1;
    }
    let ghost t = s@.skip(a as int);
    assert(trim_start(s@) == t);
    let mut b: usize = chars.len();
    assert(s@.subrange(a as int, b as int) =~= t);
    while b > a && chars[b - 1].is_whitespace()
        invariant
            chars@ == s@,
            a <= b <= chars@.len(),
            t == s@.skip(a as int),
            trim_end(t) == trim_end(s@.subrange(a as int, b as int)),
        decreases b,
    {
        assert(s@.subrange(a as int, b as int).drop_last() =~= s@.subrange(a as int, b - 1));
        b -= 1;
    }
    text_of(chars.as_slice(), a, b)
}

/// Fewer digits never write a greater number.
proof fn lemma_digits_grow(s: Seq<char>, i: int)
    requires
        0 <= i <= s.len(),
        all_digits(s),
    ensures
        0 <= digits_value(s.take(i)) <= digits_value(s),
    decreases s.len(),
{
    if s.len() > 0 {
        let t = s.drop_last();
        assert(is_digit(s[s.len() - 1]));
        assert forall|j: int| 0 <= j < t.len() implies is_digit(#[trigger] t[j]) by {
            assert(t[j] == s[j]);
        }
        if i < s.len() {
            lemma_digits_grow(t, i);
            assert(t.take(i) =~= s.take(i));
        } else {
            lemma_digits_grow(t, t.len() as int);
            assert(t.take(t.len() as int) =~= t);
            assert(s.take(i) =~= s);
        }
    }
}

/// The number that the digits from `from` on write, if it is at most `limit`.
fn read_digits(s: &[char], from: usize, limit: u64) -> (r: Option<u64>)
    requires
        from <= s@.len(),
    ensures
        r is Some <==> from < s@.len() && all_digits(s@.skip(from as int)) && digits_value(
            s@.skip(from as int),
        ) <= limit,
        r matches Some(v) ==> v == digits_value(s@.skip(from as int)),
{
    let ghost d = s@.skip(from as int);
    if from == s.len() {
        return None;
    }
    let mut v: u128 = 0;
    let mut i: usize = from;
    while i < s.len()
        invariant
            from <= i <= s@.len(),
            d == s@.skip(from as int),
            forall|j: int| 0 <= j < i - from ==> is_digit(#[trigger] d[j]),
            v == digits_value(d.take(i - from)),
            v <= limit,
        decreases s@.len() - i,
    {
        let c = s[i];
        assert(d[i - from] == c);
        if !(c >= '0' && c <= '9') {
            return None;
        }
        v = v * 10 + (c as u128 - '0' as u128);
        i += 1;
        assert(d.take(i - from).drop_last() =~= d.take(i - from - 1));
        if v > limit as u128 {
            proof {
                if all_digits(d) {
                    lemma_digits_grow(d, i - from);
                }
            }
            return None;
        }
    }
    assert(d.take(i - from) =~= d);
    Some(v as u64)
}

/// The number below 2^32 that a text writes.
pub fn parse_u32(s: &str) -> (r: Option<u32>)
    ensures
        r == u32_of(s@),
{
    let chars = chars_of(s);
    let from: usize = if chars.len() > 0 && chars[0] == '+' {
        1
    } else {
        0
    };
    assert(chars@.skip(from as int) =~= unsigned_part(s@));
    match read_digits(chars.as_slice(), from, u32::MAX as u64) {
        Some(v) => Some(v as u32),
        None => None,
    }
}

/// The signed 64-bit number that a text writes.
pub fn parse_i64(s: &str) -> (r: Option<i64>)
    ensures
        r == i64_of(s@),
{
    let chars = chars_of(s);
    if chars.len() > 0 && chars[0] == '-' {
        assert(chars@.skip(1) =~= s@.drop_first());
        match read_digits(chars.as_slice(), 1, 0x8000_0000_0000_0000) {
            Some(v) => Some((-(v as i128)) as i64),
            None => None,
        }
    } else {
        let from: usize = if chars.len() > 0 && chars[0] == '+' {
            1
        } else {
            0
        };
        assert(chars@.skip(from as int) =~= unsigned_part(s@));
        match read_digits(chars.as_slice(), from, i64::MAX as u64) {
            Some(v) => Some(v as i64),
            None => None,
        }
    }
}

/// Appends a number in decimal.
pub fn push_decimal(out: &mut String, n: u64)
    ensures
        final(out)@ == old(out)@ + decimal(n as nat),
    decreases n,
{
    if n >= 10 {
        push_decimal(out, n / 10);
    }
    out.push((48u8 + (n % 10) as u8) as char);
    assert(out@ =~= old(out)@ + decimal(n as nat));
}

/// A text with spaces after it up to `width` characters.
pub fn pad_right(s: &str, width: usize) -> (r: String)
    ensures
        r@ == padded(s@, width as nat),
{
    let mut out = s.to_owned();
    let mut n: usize = chars_of(s).len();
    while n < width
        invariant
            n == out@.len(),
            s@.len() <= n,
            n <= width || n == s@.len(),
            out@ =~= s@ + Seq::new((n - s@.len()) as nat, |i: int| ' '),
        decreases width - n,
    {
        out.push(' ');
        n += 1;
    }
    out
}

/// Law: a text stands in another exactly where the other is that text with
/// something before it and something after it.
pub proof fn law_occurs(needle: Seq<char>, hay: Seq<char>)
    ensures
        occurs_in(needle, hay) <==> exists|a: Seq<char>, b: Seq<char>|
            hay == #[trigger] (a + needle + b),
{
    if occurs_in(needle, hay) {
        let i = choose|i: int| occurs_at(needle, hay, i);
        let a = hay.take(i);
        let b = hay.skip(i + needle.len());
        assert(hay.subrange(i, i + needle.len()) == needle);
        assert(hay =~= a + needle + b);
    }
    if exists|a: Seq<char>, b: Seq<char>| hay == #[trigger] (a + needle + b) {
        let (a, b) = choose|a: Seq<char>, b: Seq<char>| hay == #[trigger] (a + needle + b);
        let i = a.len() as int;
        assert(hay.subrange(i, i + needle.len()) =~= needle);
        assert(occurs_at(needle, hay, i));
    }
}

/// Law: a text without a mark is one part.
pub proof fn law_split_without_mark(s: Seq<char>, c: char)
    requires
        !s.contains(c),
    ensures
        split_on(s, c) == seq![s],
{
    lemma_first_of(s, c);
    if first_of(s, c) < s.len() {
        assert(s.contains(s[first_of(s, c)]));
    }
}

/// Law: what stands before the first mark is the first part, and the parts of
/// what stands after it follow.
pub proof fn law_split_at_mark(a: Seq<char>, c: char, rest: Seq<char>)
    requires
        !a.contains(c),
    ensures
        split_on(a + seq![c] + rest, c) == seq![a] + split_on(rest, c),
{
    let s = a + seq![c] + rest;
    lemma_first_mark(a, c, rest);
    assert(s.take(a.len() as int) =~= a);
    assert(s.skip(a.len() as int + 1) =~= rest);
}

/// The first mark stands behind what has none.
proof fn lemma_first_mark(a: Seq<char>, c: char, rest: Seq<char>)
    requires
        !a.contains(c),
    ensures
        first_of(a + seq![c] + rest, c) == a.len(),
{
    let s = a + seq![c] + rest;
    assert forall|j: int| 0 <= j < a.len() implies s[j] != c by {
        assert(a.contains(a[j]));
    }
    lemma_first_of_at(s, c, a.len() as int);
}

/// Law: a text without a line feed is one line as it is, and no line where it
/// is empty.
pub proof fn law_last_line(line: Seq<char>)
    requires
        !line.contains('\n'),
    ensures
        line.len() == 0 ==> lines_of(line) == Seq::<Seq<char>>::empty(),
        line.len() > 0 ==> lines_of(line) == seq![line],
{
    lemma_first_of(line, '\n');
    if first_of(line, '\n') < line.len() {
        assert(line.contains(line[first_of(line, '\n')]));
    }
}

/// Law: a line feed ends a line, and so does a carriage return with a line feed;
/// neither is part of it. The lines after it follow.
pub proof fn law_line_end(line: Seq<char>, rest: Seq<char>)
    requires
        !line.contains('\n'),
    ensures
        line.len() == 0 || line.last() != '\r' ==> lines_of(line + seq!['\n'] + rest) == seq![line]
            + lines_of(rest),
        lines_of(line + seq!['\r', '\n'] + rest) == seq![line] + lines_of(rest),
{
    let s = line + seq!['\n'] + rest;
    lemma_first_mark(line, '\n', rest);
    assert(s.take(line.len() as int) =~= line);
    assert(s.skip(line.len() as int + 1) =~= rest);
    let returned = line.push('\r');
    assert(!returned.contains('\n')) by {
        if returned.contains('\n') {
            let j = choose|j: int| 0 <= j < returned.len() && returned[j] == '\n';
            assert(line[j] == '\n');
        }
    }
    let t = line + seq!['\r', '\n'] + rest;
    assert(t =~= returned + seq!['\n'] + rest);
    lemma_first_mark(returned, '\n', rest);
    assert(t.take(returned.len() as int) =~= returned);
    assert(t.skip(returned.len() as int + 1) =~= rest);
    assert(returned.drop_last() =~= line);
}

/// White space at the end of a text stays there when that at its start is
/// taken off, unless the text is all white space.
proof fn lemma_trim_start_push(s: Seq<char>, c: char)
    requires
        is_white(c),
    ensures
        trim_start(s).len() > 0 ==> trim_start(s.push(c)) == trim_start(s).push(c),
        trim_start(s).len() == 0 ==> trim_start(s.push(c)).len() == 0,
    decreases s.len(),
{
    let t = s.push(c);
    reveal_with_fuel(trim_start, 2);
    if s.len() == 0 {
        assert(t.drop_first().len() == 0);
    } else if is_white(s[0]) {
        lemma_trim_start_push(s.drop_first(), c);
        assert(t.drop_first() =~= s.drop_first().push(c));
    }
}

/// Law: white space at either end of a text is taken off, and nothing else.
pub proof fn law_trimmed(s: Seq<char>, c: char)
    ensures
        is_white(c) ==> trimmed(seq![c] + s) == trimmed(s) && trimmed(s.push(c)) == trimmed(s),
        s.len() > 0 && !is_white(s[0]) && !is_white(s.last()) ==> trimmed(s) == s,
        s.len() == 0 ==> trimmed(s) == s,
{
    if is_white(c) {
        assert((seq![c] + s).drop_first() =~= s);
        lemma_trim_start_push(s, c);
        if trim_start(s).len() > 0 {
            assert(trim_start(s).push(c).drop_last() =~= trim_start(s));
        }
    }
}

/// Law: there are no words in an empty text; white space before a text changes
/// nothing; and what comes before white space, or before the end, is a word.
pub proof fn law_words(word: Seq<char>, rest: Seq<char>, c: char)
    requires
        forall|i: int| 0 <= i < word.len() ==> !is_white(#[trigger] word[i]),
    ensures
        words_of(seq![]) == Seq::<Seq<char>>::empty(),
        is_white(c) ==> words_of(seq![c] + rest) == words_of(rest),
        word.len() > 0 && (rest.len() == 0 || is_white(rest[0])) ==> words_of(word + rest)
            == seq![word] + words_of(rest),
{
    assert((seq![c] + rest).drop_first() =~= rest);
    if word.len() > 0 && (rest.len() == 0 || is_white(rest[0])) {
        let s = word + rest;
        assert forall|j: int| 0 <= j < word.len() implies !is_white(#[trigger] s[j]) by {
            assert(s[j] == word[j]);
        }
        lemma_word_length_at(s, word.len() as int);
        assert(s.take(word.len() as int) =~= word);
        assert(s.skip(word.len() as int) =~= rest);
    }
}

/// Law: a number is written in digits that read as that number, with no zero
/// before them.
pub proof fn law_decimal(n: nat)
    ensures
        all_digits(decimal(n)),
        digits_value(decimal(n)) == n,
        decimal(n).len() > 0,
        n > 0 ==> decimal(n)[0] != '0',
        n == 0 ==> decimal(n) == seq!['0'],
    decreases n,
{
    if n < 10 {
        reveal_with_fuel(digits_value, 2);
        assert(decimal(n).drop_last() =~= seq![]);
        assert(decimal(n)[0] == digit_char(n as int));
    } else {
        law_decimal(n / 10);
        assert(decimal(n).drop_last() =~= decimal(n / 10));
        assert(is_digit(digit_char((n % 10) as int)));
        assert(decimal(n)[0] == decimal(n / 10)[0]);
    }
}

/// Law: a digit after digits makes ten times the number, and the digit.
pub proof fn law_digits(s: Seq<char>, d: int)
    requires
        0 <= d < 10,
    ensures
        digits_value(seq![]) == 0,
        digits_value(s.push(digit_char(d))) == 10 * digits_value(s) + d,
        is_digit(digit_char(d)),
        digit_char(d) as int == '0' as int + d,
{
    assert(s.push(digit_char(d)).drop_last() =~= s);
}

/// Law: a number of 32 bits is written in digits, with or without a plus before
/// them, and nothing else is one.
pub proof fn law_u32(s: Seq<char>, d: Seq<char>)
    requires
        s == d || s == seq!['+'] + d,
    ensures
        d.len() > 0 && all_digits(d) ==> u32_of(s) == if digits_value(d) <= 0xffff_ffff {
            Some(digits_value(d) as u32)
        } else {
            None
        },
        u32_of(s) is Some ==> s.len() > 0 && (all_digits(s) || (s[0] == '+' && s.len() > 1
            && all_digits(s.drop_first()))),
{
    assert((seq!['+'] + d).drop_first() =~= d);
    if d.len() > 0 && all_digits(d) {
        assert(is_digit(d[0]));
    }
}

/// Law: a number of 64 bits is written in digits, with or without a sign before
/// them, and nothing else is one.
pub proof fn law_i64(s: Seq<char>, d: Seq<char>)
    ensures
        d.len() > 0 && all_digits(d) && digits_value(d) <= i64::MAX ==> {
            &&& i64_of(d) == Some(digits_value(d) as i64)
            &&& i64_of(seq!['+'] + d) == Some(digits_value(d) as i64)
            &&& i64_of(seq!['-'] + d) == Some((-digits_value(d)) as i64)
        },
        i64_of(s) is Some ==> s.len() > 0 && (all_digits(s) || ((s[0] == '+' || s[0] == '-')
            && s.len() > 1 && all_digits(s.drop_first()))),
        i64_of(s) matches Some(n) ==> n == digits_value(s) || n == digits_value(s.drop_first())
            || n == -digits_value(s.drop_first()),
{
    assert((seq!['+'] + d).drop_first() =~= d);
    assert((seq!['-'] + d).drop_first() =~= d);
    if d.len() > 0 && all_digits(d) {
        assert(is_digit(d[0]));
        lemma_digits_not_negative(d);
    }
}

/// Digits write no negative number.
proof fn lemma_digits_not_negative(d: Seq<char>)
    requires
        all_digits(d),
    ensures
        digits_value(d) >= 0,
    decreases d.len(),
{
    if d.len() > 0 {
        assert(is_digit(d[d.len() - 1]));
        assert forall|i: int| 0 <= i < d.drop_last().len() implies is_digit(
            #[trigger] d.drop_last()[i],
        ) by {
            assert(d.drop_last()[i] == d[i]);
        }
        lemma_digits_not_negative(d.drop_last());
    }
}

/// Law: a text is filled up with spaces after it to the width, and a longer one
/// is left as it is.
pub proof fn law_padded(s: Seq<char>, width: nat)
    ensures
        padded(s, width).len() == if s.len() < width {
            width
        } else {
            s.len()
        },
        s.is_prefix_of(padded(s, width)),
        forall|i: int| s.len() <= i < padded(s, width).len() ==> padded(s, width)[i] == ' ',
{
    assert(padded(s, width).take(s.len() as int) =~= s);
}

} // verus!
