//! Whether there is a newer release, and how to get it.

use vstd::prelude::*;
use crate::json::{JsonTree, json_in_bytes, member, member_of, parse_bytes, text_in, text_value};
use crate::model::text_if_any;
use crate::text::{
    all_digits, chars_of, contains_text, decimal, first_of, is_digit, law_decimal, law_occurs,
    law_split_at_mark, law_split_without_mark, law_u32, lemma_first_of, occurs_in, parse_u32,
    split_on, split_text, text_of, texts, u32_of, unsigned_part,
};

verus! {

/// The first three numbers of a version, if its first three parts are numbers.
pub open spec fn version_of(s: Seq<char>) -> Option<(u32, u32, u32)> {
    let p = split_on(s, '.');
    if p.len() >= 3 && u32_of(p[0]) is Some && u32_of(p[1]) is Some && u32_of(p[2]) is Some {
        Some((u32_of(p[0])->0, u32_of(p[1])->0, u32_of(p[2])->0))
    } else {
        None
    }
}

/// `a` is a later version than `b`.
pub open spec fn is_later(a: (u32, u32, u32), b: (u32, u32, u32)) -> bool {
    a.0 > b.0 || (a.0 == b.0 && (a.1 > b.1 || (a.1 == b.1 && a.2 > b.2)))
}

/// `s` without the letters `v` at its start.
pub open spec fn without_v(s: Seq<char>) -> Seq<char>
    decreases s.len(),
{
    if s.len() > 0 && s[0] == 'v' {
        without_v(s.drop_first())
    } else {
        s
    }
}

/// The version of a release with the given tag, where it is later than the
/// current one.
pub open spec fn release_of(tag: Seq<char>, current: Seq<char>) -> Option<Seq<char>> {
    let latest = without_v(tag);
    match (version_of(latest), version_of(current)) {
        (Some(a), Some(b)) => if is_later(a, b) {
            Some(latest)
        } else {
            None
        },
        _ => None,
    }
}

/// The version of the release that an answer tells of, where it is later than
/// the current one.
pub open spec fn release_in(body: Seq<u8>, current: Seq<char>) -> Option<Seq<char>> {
    match json_in_bytes(body) {
        Some(tree) => match text_in(member_of(tree, "tag_name"@)) {
            Some(tag) => release_of(tag, current),
            None => None,
        },
        None => None,
    }
}

/// The first three numbers of a version.
pub fn parse_version(s: &str) -> (r: Option<(u32, u32, u32)>)
    ensures
        r == version_of(s@),
{
    let parts = split_text(s, '.');
    assert(parts@.len() == split_on(s@, '.').len());
    if parts.len() < 3 {
        return None;
    }
    assert(texts(parts@)[0] == parts@[0]@);
    assert(texts(parts@)[1] == parts@[1]@);
    assert(texts(parts@)[2] == parts@[2]@);
    match (
        parse_u32(parts[0].as_str()),
        parse_u32(parts[1].as_str()),
        parse_u32(parts[2].as_str()),
    ) {
        (Some(a), Some(b), Some(c)) => Some((a, b, c)),
        _ => None,
    }
}

/// The version of a release, where it is later than the current one.
pub fn newer_release(tag: &str, current: &str) -> (r: Option<String>)
    ensures
        text_if_any(r) == release_of(tag@, current@),
{
    let chars = chars_of(tag);
    let mut start: usize = 0;
    assert(chars@.skip(0) =~= tag@);
    while start < chars.len() && chars[start] == 'v'
        invariant
            chars@ == tag@,
            start <= chars@.len(),
            without_v(tag@) == without_v(tag@.skip(start as int)),
        decreases chars@.len() - start,
    {
        assert(tag@.skip(start as int).drop_first() =~= tag@.skip(start + 1));
        start += 1;
    }
    let latest = text_of(chars.as_slice(), start, chars.len());
    assert(latest@ =~= tag@.skip(start as int));
    match (parse_version(latest.as_str()), parse_version(current)) {
        (Some(a), Some(b)) => if a.0 > b.0 || (a.0 == b.0 && (a.1 > b.1 || (a.1 == b.1 && a.2
            > b.2))) {
            Some(latest)
        } else {
            None
        },
        _ => None,
    }
}

/// The version of the release that an answer tells of, where it is later than
/// the current one.
pub fn read_release_reply(body: &[u8], current: &str) -> (r: Option<String>)
    ensures
        text_if_any(r) == release_in(body@, current@),
{
    match parse_bytes(body) {
        Some(value) => match text_value(member(&value, "tag_name")) {
            Some(tag) => newer_release(tag, current),
            None => None,
        },
        None => None,
    }
}

/// The path of a program that Homebrew has installed.
pub open spec fn is_brew_path(path: Seq<char>) -> bool {
    occurs_in("/Cellar/"@, path) || occurs_in("/homebrew/"@, path) || occurs_in(
        "/linuxbrew/"@,
        path,
    )
}

/// Whether Homebrew has installed the program at a path.
pub fn installed_via_brew(path: &str) -> (r: bool)
    ensures
        r == is_brew_path(path@),
{
    contains_text(path, "/Cellar/") || contains_text(path, "/homebrew/") || contains_text(
        path,
        "/linuxbrew/",
    )
}

/// How to get a release, by Homebrew or from where releases are published.
pub open spec fn hint_for(version: Seq<char>, brew: bool) -> Seq<char> {
    if brew {
        "brew upgrade dott  (v"@ + version + ")"@
    } else {
        "github.com/yodatoshicom/dott/releases  (v"@ + version + ")"@
    }
}

/// How to get a release, for the program at a path.
pub fn update_hint(version: &str, path: &str) -> (r: String)
    ensures
        r@ == hint_for(version@, is_brew_path(path@)),
{
    let mut out = if installed_via_brew(path) {
        "brew upgrade dott  (v".to_owned()
    } else {
        "github.com/yodatoshicom/dott/releases  (v".to_owned()
    };
    out.append(version);
    out.append(")");
    out
}

/// Law: versions are ordered: of two different ones exactly one is later, and
/// none is later than itself.
pub proof fn law_versions(a: (u32, u32, u32), b: (u32, u32, u32), c: (u32, u32, u32))
    ensures
        !is_later(a, a),
        a != b ==> (is_later(a, b) <==> !is_later(b, a)),
        is_later(a, b) && is_later(b, c) ==> is_later(a, c),
{
}

/// Law: the current version is not offered, nor one that is not later; and the
/// `v` before a tag makes no difference.
pub proof fn law_offer(tag: Seq<char>, current: Seq<char>)
    ensures
        release_of(current, current) is None,
        release_of(tag, current) matches Some(r) ==> version_of(r) is Some && version_of(
            current,
        ) is Some && is_later(version_of(r)->0, version_of(current)->0),
        release_of(seq!['v'] + tag, current) == release_of(tag, current),
{
    assert((seq!['v'] + tag).drop_first() =~= tag);
    if current.len() > 0 && current[0] == 'v' {
        lemma_v_is_no_version(current);
    }
}

/// A text that starts with a letter `v` is no version.
proof fn lemma_v_is_no_version(s: Seq<char>)
    requires
        s.len() > 0,
        s[0] == 'v',
    ensures
        version_of(s) is None,
{
    let p = split_on(s, '.');
    let i = first_of(s, '.');
    lemma_first_of(s, '.');
    assert(p[0].len() > 0 && p[0][0] == 'v') by {
        assert(i > 0);
    }
    if u32_of(p[0]) is Some {
        assert(is_digit(unsigned_part(p[0])[0]));
    }
}

/// Law: the numbers of a version are its first three parts, whatever parts
/// follow.
pub proof fn law_version_read(a: u32, b: u32, c: u32, more: Seq<char>)
    requires
        more.len() == 0 || more[0] == '.',
    ensures
        version_of(
            decimal(a as nat) + seq!['.'] + decimal(b as nat) + seq!['.'] + decimal(c as nat) + more,
        ) == Some((a, b, c)),
{
    let x = decimal(a as nat);
    let y = decimal(b as nat);
    let z = decimal(c as nat);
    law_decimal(a as nat);
    law_decimal(b as nat);
    law_decimal(c as nat);
    lemma_digits_have_no_dot(x);
    lemma_digits_have_no_dot(y);
    lemma_digits_have_no_dot(z);
    let rest = y + seq!['.'] + z + more;
    let s = x + seq!['.'] + y + seq!['.'] + z + more;
    assert(s =~= x + seq!['.'] + rest);
    law_split_at_mark(x, '.', rest);
    assert(rest =~= y + seq!['.'] + (z + more));
    law_split_at_mark(y, '.', z + more);
    if more.len() == 0 {
        assert(z + more =~= z);
        law_split_without_mark(z, '.');
    } else {
        assert(z + more =~= z + seq!['.'] + more.drop_first());
        law_split_at_mark(z, '.', more.drop_first());
    }
    law_u32(x, x);
    law_u32(y, y);
    law_u32(z, z);
    let p = split_on(s, '.');
    assert(p[0] == x);
    assert(p[1] == y);
    assert(p[2] == z);
}

/// There is no dot among digits.
proof fn lemma_digits_have_no_dot(s: Seq<char>)
    requires
        all_digits(s),
    ensures
        !s.contains('.'),
{
    if s.contains('.') {
        let i = choose|i: int| 0 <= i < s.len() && s[i] == '.';
        assert(is_digit(s[i]));
    }
}

/// Law: what has fewer than three parts, or one of the first three that is no
/// number, is no version.
pub proof fn law_no_version(s: Seq<char>)
    ensures
        version_of(s) is None <==> split_on(s, '.').len() < 3 || u32_of(split_on(s, '.')[0]) is None
            || u32_of(split_on(s, '.')[1]) is None || u32_of(split_on(s, '.')[2]) is None,
{
}

/// Law: the first number of a version weighs more than the second, and that one
/// more than the third.
pub proof fn law_later(a: (u32, u32, u32), b: (u32, u32, u32))
    ensures
        is_later(a, b) <==> a.0 * 0x1_0000_0000_0000_0000 + a.1 * 0x1_0000_0000 + a.2 > b.0
            * 0x1_0000_0000_0000_0000 + b.1 * 0x1_0000_0000 + b.2,
{
}

/// Law: a release is offered exactly where its tag, without the letters `v`
/// before it, is a later version than the current one; and what is offered is
/// that version.
pub proof fn law_release(v: Seq<char>, version: Seq<char>, current: Seq<char>)
    requires
        forall|i: int| 0 <= i < v.len() ==> #[trigger] v[i] == 'v',
        version.len() == 0 || version[0] != 'v',
    ensures
        release_of(v + version, current) == if version_of(version) is Some && version_of(
            current,
        ) is Some && is_later(version_of(version)->0, version_of(current)->0) {
            Some(version)
        } else {
            None
        },
    decreases v.len(),
{
    let tag = v + version;
    if v.len() == 0 {
        assert(tag =~= version);
    } else {
        assert forall|i: int| 0 <= i < v.drop_first().len() implies #[trigger] v.drop_first()[i]
            == 'v' by {
            assert(v.drop_first()[i] == v[i + 1]);
        }
        law_release(v.drop_first(), version, current);
        assert(tag.drop_first() =~= v.drop_first() + version);
        assert(tag[0] == v[0]);
    }
}

/// Law: an answer whose tag is a version, with or without letters `v` before it,
/// offers that version exactly where it is later than the current one; an answer
/// without a tag offers nothing.
pub proof fn law_release_answer(
    body: Seq<u8>,
    tree: JsonTree,
    v: Seq<char>,
    version: Seq<char>,
    current: Seq<char>,
)
    requires
        forall|i: int| 0 <= i < v.len() ==> #[trigger] v[i] == 'v',
        version.len() == 0 || version[0] != 'v',
    ensures
        json_in_bytes(body) == Some(tree) && text_in(member_of(tree, "tag_name"@)) == Some(
            v + version,
        ) ==> release_in(body, current) == if version_of(version) is Some && version_of(
            current,
        ) is Some && is_later(version_of(version)->0, version_of(current)->0) {
            Some(version)
        } else {
            None
        },
        json_in_bytes(body) == Some(tree) && text_in(member_of(tree, "tag_name"@)) is None
            ==> release_in(body, current) is None,
        json_in_bytes(body) is None ==> release_in(body, current) is None,
{
    law_release(v, version, current);
}

/// Law: Homebrew has installed what lies under one of its directories.
pub proof fn law_brew(a: Seq<char>, b: Seq<char>, path: Seq<char>)
    ensures
        is_brew_path(a + "/Cellar/"@ + b),
        is_brew_path(a + "/homebrew/"@ + b),
        is_brew_path(a + "/linuxbrew/"@ + b),
        is_brew_path(path) ==> occurs_in("/Cellar/"@, path) || occurs_in("/homebrew/"@, path)
            || occurs_in("/linuxbrew/"@, path),
{
    law_occurs("/Cellar/"@, a + "/Cellar/"@ + b);
    law_occurs("/homebrew/"@, a + "/homebrew/"@ + b);
    law_occurs("/linuxbrew/"@, a + "/linuxbrew/"@ + b);
}

/// Law: the hint names the version, and Homebrew exactly where that installed the
/// program.
pub proof fn law_hint(version: Seq<char>)
    ensures
        hint_for(version, true) == "brew upgrade dott  (v"@ + version + seq![')'],
        hint_for(version, false) == "github.com/yodatoshicom/dott/releases  (v"@ + version
            + seq![')'],
{
    reveal_strlit(")");
    assert(")"@ =~= seq![')']);
}

} // verus!
