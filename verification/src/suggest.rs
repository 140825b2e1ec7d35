//! Variants of a name, for when the name itself is taken.

use vstd::prelude::*;
use crate::text::{same_text, texts};

verus! {

/// The keyword and its variants: eight with a word before it, five with a word
/// after it.
pub open spec fn variants(keyword: Seq<char>) -> Seq<Seq<char>> {
    seq![
        keyword,
        "get"@ + keyword,
        "try"@ + keyword,
        "use"@ + keyword,
        "go"@ + keyword,
        "my"@ + keyword,
        "the"@ + keyword,
        "run"@ + keyword,
        "hey"@ + keyword,
        keyword + "hq"@,
        keyword + "app"@,
        keyword + "lab"@,
        keyword + "hub"@,
        keyword + "base"@,
    ]
}

/// The variants of all keywords, in their order.
pub open spec fn all_variants(keywords: Seq<Seq<char>>) -> Seq<Seq<char>>
    decreases keywords.len(),
{
    if keywords.len() == 0 {
        seq![]
    } else {
        all_variants(keywords.drop_last()) + variants(keywords.last())
    }
}

/// The keywords one after the other, with `between` between each two.
pub open spec fn joined(keywords: Seq<Seq<char>>, between: Seq<char>) -> Seq<char>
    decreases keywords.len(),
{
    if keywords.len() == 0 {
        seq![]
    } else if keywords.len() == 1 {
        keywords[0]
    } else {
        joined(keywords.drop_last(), between) + between + keywords.last()
    }
}

/// The variants of all keywords, and the keywords joined where there are
/// several.
pub open spec fn candidates(keywords: Seq<Seq<char>>) -> Seq<Seq<char>> {
    if keywords.len() >= 2 {
        all_variants(keywords) + seq![joined(keywords, ""@), joined(keywords, "-"@)]
    } else {
        all_variants(keywords)
    }
}

/// The names, each where it came first.
pub open spec fn without_repeats(names: Seq<Seq<char>>) -> Seq<Seq<char>>
    decreases names.len(),
{
    if names.len() == 0 {
        seq![]
    } else if names.drop_last().contains(names.last()) {
        without_repeats(names.drop_last())
    } else {
        without_repeats(names.drop_last()).push(names.last())
    }
}

/// The first fourteen candidates, without repeats.
pub open spec fn suggestions(keywords: Seq<Seq<char>>) -> Seq<Seq<char>> {
    let names = without_repeats(candidates(keywords));
    if names.len() > 14 {
        names.take(14)
    } else {
        names
    }
}

/// `a` and `b` one after the other.
fn joined_pair(a: &str, b: &str) -> (r: String)
    ensures
        r@ == a@ + b@,
{
    let mut out = a.to_owned();
    out.append(b);
    out
}

/// Appends the variants of a keyword.
fn push_variants(names: &mut Vec<String>, keyword: &str)
    ensures
        texts(final(names)@) == texts(old(names)@) + variants(keyword@),
{
    names.push(keyword.to_owned());
    names.push(joined_pair("get", keyword));
    names.push(joined_pair("try", keyword));
    names.push(joined_pair("use", keyword));
    names.push(joined_pair("go", keyword));
    names.push(joined_pair("my", keyword));
    names.push(joined_pair("the", keyword));
    names.push(joined_pair("run", keyword));
    names.push(joined_pair("hey", keyword));
    names.push(joined_pair(keyword, "hq"));
    names.push(joined_pair(keyword, "app"));
    names.push(joined_pair(keyword, "lab"));
    names.push(joined_pair(keyword, "hub"));
    names.push(joined_pair(keyword, "base"));
    assert(texts(names@) =~= texts(old(names)@) + variants(keyword@));
}

/// The keywords one after the other, with `between` between each two.
pub fn join_keywords(keywords: &[String], between: &str) -> (r: String)
    ensures
        r@ == joined(texts(keywords@), between@),
{
    let ghost all = texts(keywords@);
    let mut out = String::new();
    let mut i: usize = 0;
    assert(all.take(0) =~= seq![]);
    while i < keywords.len()
        invariant
            all == texts(keywords@),
            i <= keywords@.len(),
            out@ =~= joined(all.take(i as int), between@),
        decreases keywords@.len() - i,
    {
        if i > 0 {
            out.append(between);
        }
        out.append(keywords[i].as_str());
        assert(all.take(i + 1).drop_last() =~= all.take(i as int));
        i += 1;
    }
    assert(all.take(i as int) =~= all);
    out
}

/// Whether a text is on a list.
fn is_listed(list: &Vec<String>, name: &str) -> (r: bool)
    ensures
        r == texts(list@).contains(name@),
{
    let mut i: usize = 0;
    while i < list.len()
        invariant
            i <= list@.len(),
            forall|j: int| 0 <= j < i ==> texts(list@)[j] != name@,
        decreases list@.len() - i,
    {
        if same_text(list[i].as_str(), name) {
            assert(texts(list@)[i as int] == name@);
            return true;
        }
        i += 1;
    }
    false
}

/// Leaving out repeats leaves out no name.
proof fn lemma_without_repeats_contains(names: Seq<Seq<char>>, x: Seq<char>)
    ensures
        without_repeats(names).contains(x) <==> names.contains(x),
    decreases names.len(),
{
    if names.len() > 0 {
        let rest = names.drop_last();
        lemma_without_repeats_contains(rest, x);
        lemma_without_repeats_contains(rest, names.last());
        assert(names =~= rest.push(names.last()));
        vstd::seq_lib::lemma_seq_contains_after_push(rest, names.last(), x);
        let r = without_repeats(rest);
        vstd::seq_lib::lemma_seq_contains_after_push(r, names.last(), x);
        if names.contains(x) {
            let i = choose|i: int| 0 <= i < names.len() && names[i] == x;
            if i < rest.len() {
                assert(rest[i] == x);
            }
        }
        if rest.contains(x) {
            let i = choose|i: int| 0 <= i < rest.len() && rest[i] == x;
            assert(names[i] == x);
        }
        if without_repeats(names).contains(x) && !r.contains(x) {
            assert(x == names.last());
            assert(names[names.len() - 1] == x);
        }
    }
}

/// The names of a list, each where it came first.
fn drop_repeats(names: &Vec<String>) -> (r: Vec<String>)
    ensures
        texts(r@) == without_repeats(texts(names@)),
{
    let ghost all = texts(names@);
    let mut out: Vec<String> = Vec::new();
    let mut i: usize = 0;
    assert(texts(out@) =~= without_repeats(all.take(0)));
    while i < names.len()
        invariant
            all == texts(names@),
            i <= names@.len(),
            texts(out@) == without_repeats(all.take(i as int)),
        decreases names@.len() - i,
    {
        let listed = is_listed(&out, names[i].as_str());
        let ghost before = out@;
        proof {
            lemma_without_repeats_contains(all.take(i as int), names@[i as int]@);
            assert(all.take(i + 1).drop_last() =~= all.take(i as int));
            assert(all.take(i + 1).last() == names@[i as int]@);
        }
        if !listed {
            out.push(names[i].clone());
            assert(texts(out@) =~= texts(before).push(names@[i as int]@));
        }
        i += 1;
    }
    assert(all.take(i as int) =~= all);
    out
}

/// Names to try in place of the keywords: at most fourteen, no two the same.
pub fn generate_suggestions(keywords: &[String]) -> (r: Vec<String>)
    ensures
        texts(r@) == suggestions(texts(keywords@)),
{
    let ghost all = texts(keywords@);
    let mut names: Vec<String> = Vec::new();
    let mut i: usize = 0;
    assert(texts(names@) =~= all_variants(all.take(0)));
    while i < keywords.len()
        invariant
            all == texts(keywords@),
            i <= keywords@.len(),
            texts(names@) == all_variants(all.take(i as int)),
        decreases keywords@.len() - i,
    {
        push_variants(&mut names, keywords[i].as_str());
        assert(all.take(i + 1).drop_last() =~= all.take(i as int));
        i += 1;
    }
    assert(all.take(i as int) =~= all);
    if keywords.len() >= 2 {
        let ghost before = names@;
        names.push(join_keywords(keywords, ""));
        names.push(join_keywords(keywords, "-"));
        assert(texts(names@) =~= texts(before) + seq![joined(all, ""@), joined(all, "-"@)]);
    }
    let mut out = drop_repeats(&names);
    let ghost before = out@;
    if out.len() > 14 {
        out.truncate(14);
        assert(texts(out@) =~= texts(before).take(14));
    }
    out
}

/// Leaving out repeats leaves no repeats.
proof fn lemma_no_repeats(names: Seq<Seq<char>>)
    ensures
        without_repeats(names).no_duplicates(),
        without_repeats(names).len() <= names.len(),
    decreases names.len(),
{
    if names.len() > 0 {
        lemma_no_repeats(names.drop_last());
        lemma_without_repeats_contains(names.drop_last(), names.last());
    }
}

/// Law: at most fourteen names are suggested, no two the same, and each is one
/// of the candidates.
pub proof fn law_suggestions(keywords: Seq<Seq<char>>)
    ensures
        suggestions(keywords).len() <= 14,
        suggestions(keywords).no_duplicates(),
        forall|i: int|
            0 <= i < suggestions(keywords).len() ==> candidates(keywords).contains(
                #[trigger] suggestions(keywords)[i],
            ),
{
    let names = candidates(keywords);
    lemma_no_repeats(names);
    assert forall|i: int| 0 <= i < suggestions(keywords).len() implies names.contains(
        #[trigger] suggestions(keywords)[i],
    ) by {
        let x = suggestions(keywords)[i];
        assert(without_repeats(names)[i] == x);
        lemma_without_repeats_contains(names, x);
    }
}

/// How often `c` stands in `s`.
spec fn occurrences(s: Seq<char>, c: char) -> int
    decreases s.len(),
{
    if s.len() == 0 {
        0
    } else {
        occurrences(s.drop_last(), c) + if s.last() == c {
            1int
        } else {
            0int
        }
    }
}

/// The occurrences in two texts add up.
proof fn lemma_occurrences(a: Seq<char>, b: Seq<char>, c: char)
    ensures
        occurrences(a + b, c) == occurrences(a, c) + occurrences(b, c),
    decreases b.len(),
{
    if b.len() == 0 {
        assert(a + b =~= a);
    } else {
        lemma_occurrences(a, b.drop_last(), c);
        assert((a + b).drop_last() =~= a + b.drop_last());
    }
}

/// Texts that differ stay different before a keyword, and after one; and a word
/// before a keyword and a word after it make different names, where some letter
/// is not equally often in both.
proof fn lemma_names_differ(keyword: Seq<char>)
    ensures
        forall|p: Seq<char>, q: Seq<char>|
            p != q ==> #[trigger] (p + keyword) != #[trigger] (q + keyword),
        forall|p: Seq<char>, q: Seq<char>|
            p != q ==> #[trigger] (keyword + p) != #[trigger] (keyword + q),
        forall|p: Seq<char>, s: Seq<char>, c: char|
            #![trigger p + keyword, keyword + s, occurrences(p, c), occurrences(s, c)]
            occurrences(p, c) != occurrences(s, c) ==> p + keyword != keyword + s,
{
    assert forall|p: Seq<char>, q: Seq<char>| p != q implies #[trigger] (p + keyword)
        != #[trigger] (q + keyword) by {
        if p + keyword == q + keyword {
            assert((p + keyword).len() == (q + keyword).len());
            assert((p + keyword).take(p.len() as int) =~= p);
            assert((q + keyword).take(p.len() as int) =~= q);
        }
    }
    assert forall|p: Seq<char>, q: Seq<char>| p != q implies #[trigger] (keyword + p)
        != #[trigger] (keyword + q) by {
        assert((keyword + p).skip(keyword.len() as int) =~= p);
        assert((keyword + q).skip(keyword.len() as int) =~= q);
    }
    assert forall|p: Seq<char>, s: Seq<char>, c: char|
        #![trigger p + keyword, keyword + s, occurrences(p, c), occurrences(s, c)]
        occurrences(p, c) != occurrences(s, c) implies p + keyword != keyword + s by {
        lemma_occurrences(p, keyword, c);
        lemma_occurrences(keyword, s, c);
    }
}

/// The words before a keyword.
spec fn starts() -> Seq<Seq<char>> {
    seq!["get"@, "try"@, "use"@, "go"@, "my"@, "the"@, "run"@, "hey"@]
}

/// The words after a keyword.
spec fn ends() -> Seq<Seq<char>> {
    seq!["hq"@, "app"@, "lab"@, "hub"@, "base"@]
}

/// For each word before a keyword a letter that is in none of the words of its
/// length after it.
spec fn letters() -> Seq<char> {
    seq!['t', 't', 's', 'o', 'm', 't', 'n', 'y']
}

/// The words before and after a keyword, letter by letter.
proof fn lemma_words()
    ensures
        "get"@ == seq!['g', 'e', 't'],
        "try"@ == seq!['t', 'r', 'y'],
        "use"@ == seq!['u', 's', 'e'],
        "go"@ == seq!['g', 'o'],
        "my"@ == seq!['m', 'y'],
        "the"@ == seq!['t', 'h', 'e'],
        "run"@ == seq!['r', 'u', 'n'],
        "hey"@ == seq!['h', 'e', 'y'],
        "hq"@ == seq!['h', 'q'],
        "app"@ == seq!['a', 'p', 'p'],
        "lab"@ == seq!['l', 'a', 'b'],
        "hub"@ == seq!['h', 'u', 'b'],
        "base"@ == seq!['b', 'a', 's', 'e'],
{
    reveal_strlit("get");
    reveal_strlit("try");
    reveal_strlit("use");
    reveal_strlit("go");
    reveal_strlit("my");
    reveal_strlit("the");
    reveal_strlit("run");
    reveal_strlit("hey");
    reveal_strlit("hq");
    reveal_strlit("app");
    reveal_strlit("lab");
    reveal_strlit("hub");
    reveal_strlit("base");
    assert("get"@ =~= seq!['g', 'e', 't']);
    assert("try"@ =~= seq!['t', 'r', 'y']);
    assert("use"@ =~= seq!['u', 's', 'e']);
    assert("go"@ =~= seq!['g', 'o']);
    assert("my"@ =~= seq!['m', 'y']);
    assert("the"@ =~= seq!['t', 'h', 'e']);
    assert("run"@ =~= seq!['r', 'u', 'n']);
    assert("hey"@ =~= seq!['h', 'e', 'y']);
    assert("hq"@ =~= seq!['h', 'q']);
    assert("app"@ =~= seq!['a', 'p', 'p']);
    assert("lab"@ =~= seq!['l', 'a', 'b']);
    assert("hub"@ =~= seq!['h', 'u', 'b']);
    assert("base"@ =~= seq!['b', 'a', 's', 'e']);
}

/// No two words before a keyword are the same, and no two after it.
proof fn lemma_words_differ()
    ensures
        starts().no_duplicates(),
        ends().no_duplicates(),
{
    lemma_words();
    assert forall|i: int, j: int| 0 <= i < j < 8 implies starts()[i] != starts()[j] by {
        assert(starts()[i][0] != starts()[j][0] || starts()[i][1] != starts()[j][1]);
    }
    assert forall|i: int, j: int| 0 <= i < j < 5 implies ends()[i] != ends()[j] by {
        assert(ends()[i][0] != ends()[j][0] || ends()[i][1] != ends()[j][1]);
    }
}

/// A word before a keyword and one after it differ in length or in a letter.
proof fn lemma_letters(i: int, j: int)
    requires
        0 <= i < 8,
        0 <= j < 5,
    ensures
        starts()[i].len() > 0,
        ends()[j].len() > 0,
        starts()[i].len() == ends()[j].len() ==> occurrences(starts()[i], letters()[i])
            != occurrences(ends()[j], letters()[i]),
{
    lemma_words();
    reveal_with_fuel(occurrences, 5);
}

/// The variants of a keyword are fourteen different names.
proof fn lemma_variants_differ(keyword: Seq<char>)
    ensures
        variants(keyword).no_duplicates(),
{
    lemma_words_differ();
    lemma_names_differ(keyword);
    let v = variants(keyword);
    assert forall|i: int| 1 <= i < 9 implies #[trigger] v[i] == starts()[i - 1] + keyword by {}
    assert forall|j: int| 9 <= j < 14 implies #[trigger] v[j] == keyword + ends()[j - 9] by {}
    assert forall|i: int, j: int| 0 <= i < j < 14 implies v[i] != v[j] by {
        if i == 0 {
            lemma_letters(if j < 9 { j - 1 } else { 0 }, if j < 9 { 0 } else { j - 9 });
            assert(v[j].len() > keyword.len());
        } else if i < 9 && j >= 9 {
            lemma_letters(i - 1, j - 9);
            assert(v[i].len() - keyword.len() == starts()[i - 1].len());
            assert(v[j].len() - keyword.len() == ends()[j - 9].len());
        }
    }
}

/// Names without repeats at the start of a list stay at its start.
proof fn lemma_start_is_kept(names: Seq<Seq<char>>, n: int)
    requires
        0 <= n <= names.len(),
        names.take(n).no_duplicates(),
    ensures
        without_repeats(names).len() >= n,
        without_repeats(names).take(n) == names.take(n),
    decreases names.len(),
{
    if names.len() > 0 {
        let rest = names.drop_last();
        if n < names.len() {
            assert(rest.take(n) =~= names.take(n));
            lemma_start_is_kept(rest, n);
            assert(without_repeats(names).take(n) =~= without_repeats(rest).take(n));
        } else {
            assert(names.take(n) =~= names);
            assert(rest.take(n - 1) =~= rest);
            assert forall|i: int, j: int| 0 <= i < j < rest.len() implies rest[i] != rest[j] by {
                assert(names[i] == rest[i] && names[j] == rest[j]);
            }
            lemma_start_is_kept(rest, n - 1);
            assert(without_repeats(rest).take(n - 1) == rest);
            if rest.contains(names.last()) {
                let i = choose|i: int| 0 <= i < rest.len() && rest[i] == names.last();
                assert(names[i] == names[n - 1]);
            }
            lemma_no_repeats(rest);
            assert(without_repeats(rest) =~= rest);
            assert(without_repeats(names) =~= names);
            assert(without_repeats(names).take(n) =~= names);
        }
    } else {
        assert(without_repeats(names).take(n) =~= names.take(n));
    }
}

/// The variants of the first keyword come first.
proof fn lemma_first_variants(keywords: Seq<Seq<char>>)
    requires
        keywords.len() > 0,
    ensures
        all_variants(keywords).len() >= 14,
        all_variants(keywords).take(14) == variants(keywords[0]),
    decreases keywords.len(),
{
    let rest = keywords.drop_last();
    if rest.len() > 0 {
        lemma_first_variants(rest);
        assert(all_variants(keywords).take(14) =~= all_variants(rest).take(14));
    } else {
        assert(all_variants(rest) =~= seq![]);
        assert(all_variants(keywords) =~= variants(keywords[0]));
        assert(all_variants(keywords).take(14) =~= variants(keywords[0]));
    }
}

/// Law: what is suggested is the first keyword and its thirteen variants. They
/// are always different, so they fill the list, and the keywords after the
/// first add nothing.
pub proof fn law_first_keyword(keywords: Seq<Seq<char>>)
    requires
        keywords.len() > 0,
    ensures
        suggestions(keywords) == variants(keywords[0]),
{
    let names = candidates(keywords);
    lemma_first_variants(keywords);
    assert(names.take(14) =~= variants(keywords[0]));
    lemma_variants_differ(keywords[0]);
    lemma_start_is_kept(names, 14);
    let kept = without_repeats(names);
    if kept.len() == 14 {
        assert(kept.take(14) =~= kept);
    }
}

/// The top-level domains in which suggestions are checked.
pub const SUGGESTED_TLDS: [&'static str; 5] = ["com", "io", "dev", "app", "co"];

/// Every name with every one of those top-level domains, name by name.
pub open spec fn checks_of(names: Seq<Seq<char>>) -> Seq<(Seq<char>, Seq<char>)> {
    Seq::new(names.len() * 5, |i: int| (names[i / 5], SUGGESTED_TLDS@[i % 5]@))
}

/// What is to be checked for a list of suggestions.
pub fn suggestion_checks(names: &Vec<String>) -> (r: Vec<(String, &'static str)>)
    ensures
        r@.len() == checks_of(texts(names@)).len(),
        forall|i: int|
            0 <= i < r@.len() ==> ((#[trigger] r@[i]).0@, r@[i].1@) == checks_of(texts(names@))[i],
{
    let mut out: Vec<(String, &'static str)> = Vec::new();
    let mut n: usize = 0;
    while n < names.len()
        invariant
            n <= names@.len(),
            out@.len() == n * 5,
            forall|i: int|
                0 <= i < n * 5 ==> ((#[trigger] out@[i]).0@, out@[i].1@) == (
                    names@[i / 5]@,
                    SUGGESTED_TLDS@[i % 5]@,
                ),
        decreases names@.len() - n,
    {
        let mut t: usize = 0;
        while t < 5
            invariant
                t <= 5,
                n < names@.len(),
                out@.len() == n * 5 + t,
                forall|i: int|
                    0 <= i < n * 5 + t ==> ((#[trigger] out@[i]).0@, out@[i].1@) == (
                        names@[i / 5]@,
                        SUGGESTED_TLDS@[i % 5]@,
                    ),
            decreases 5 - t,
        {
            assert((n * 5 + t) / 5 == n && (n * 5 + t) % 5 == t);
            out.push((names[n].clone(), SUGGESTED_TLDS[t]));
            t += 1;
        }
        n += 1;
    }
    out
}

/// Law: the variants of a keyword are the keyword, the keyword behind each of
/// eight words, and the keyword before each of five.
pub proof fn law_variants(keyword: Seq<char>, i: int)
    ensures
        variants(keyword).len() == 14,
        variants(keyword)[0] == keyword,
        1 <= i <= 8 ==> variants(keyword)[i] == seq![
            "get"@,
            "try"@,
            "use"@,
            "go"@,
            "my"@,
            "the"@,
            "run"@,
            "hey"@,
        ][i - 1] + keyword,
        9 <= i <= 13 ==> variants(keyword)[i] == keyword + seq![
            "hq"@,
            "app"@,
            "lab"@,
            "hub"@,
            "base"@,
        ][i - 9],
{
}

/// Law: there is nothing to suggest exactly where there are no keywords.
pub proof fn law_no_keywords(keywords: Seq<Seq<char>>)
    ensures
        keywords.len() == 0 <==> suggestions(keywords).len() == 0,
{
    if keywords.len() > 0 {
        law_first_keyword(keywords);
    }
}

/// Law: keywords are joined by what stands between each two of them.
pub proof fn law_joined(keywords: Seq<Seq<char>>, between: Seq<char>, k: Seq<char>)
    ensures
        joined(seq![], between) == Seq::<char>::empty(),
        joined(seq![k], between) == k,
        keywords.len() > 0 ==> joined(keywords.push(k), between) == joined(keywords, between)
            + between + k,
{
    assert(keywords.push(k).drop_last() =~= keywords);
}

/// Law: every name is checked in five top-level domains, one name after the
/// other.
pub proof fn law_checks(a: Seq<Seq<char>>, b: Seq<Seq<char>>, name: Seq<char>)
    ensures
        checks_of(a + b) == checks_of(a) + checks_of(b),
        checks_of(seq![name]) == seq![
            (name, "com"@),
            (name, "io"@),
            (name, "dev"@),
            (name, "app"@),
            (name, "co"@),
        ],
{
    assert(SUGGESTED_TLDS@[0]@ == "com"@);
    assert(SUGGESTED_TLDS@[1]@ == "io"@);
    assert(SUGGESTED_TLDS@[2]@ == "dev"@);
    assert(SUGGESTED_TLDS@[3]@ == "app"@);
    assert(SUGGESTED_TLDS@[4]@ == "co"@);
    assert(checks_of(seq![name]) =~= seq![
        (name, "com"@),
        (name, "io"@),
        (name, "dev"@),
        (name, "app"@),
        (name, "co"@),
    ]);
    let all = checks_of(a + b);
    let n = a.len() * 5;
    assert forall|i: int| 0 <= i < all.len() implies all[i] == (checks_of(a) + checks_of(b))[i] by {
        if i < n {
            assert((a + b)[i / 5] == a[i / 5]);
        } else {
            assert((i - n) / 5 == i / 5 - a.len());
            assert((i - n) % 5 == i % 5);
            assert((a + b)[i / 5] == b[i / 5 - a.len()]);
        }
    }
    assert(all =~= checks_of(a) + checks_of(b));
}

} // verus!
