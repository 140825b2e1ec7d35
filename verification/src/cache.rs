//! What was learnt of domains a moment ago, so that searches that overlap do
//! not ask again.

use vstd::prelude::*;
use crate::config::{domain_name, domain_of};
use crate::model::{Availability, Status};
use crate::text::same_text;

verus! {

/// How long a result is kept: sixty seconds, in nanoseconds.
pub const CACHE_TTL: u128 = 60_000_000_000;

/// A result for a name and a top-level domain, and when it came, in nanoseconds
/// on some clock.
struct Entry {
    name: String,
    tld: String,
    time: u128,
    status: Availability,
}

/// The name and the top-level domain that a result is for.
pub type Key = (Seq<char>, Seq<char>);

impl Entry {
    spec fn key(self) -> Key {
        (self.name@, self.tld@)
    }
}

/// The results of the last searches.
pub struct Cache {
    entries: Vec<Entry>,
}

impl View for Cache {
    type V = Map<Key, (u128, Status)>;

    closed spec fn view(&self) -> Map<Key, (u128, Status)> {
        contents(self.entries@)
    }
}

/// The entries as a map.
spec fn contents(entries: Seq<Entry>) -> Map<Key, (u128, Status)>
    decreases entries.len(),
{
    if entries.len() == 0 {
        Map::empty()
    } else {
        let e = entries.last();
        contents(entries.drop_last()).insert(e.key(), (e.time, e.status@))
    }
}

/// No two entries are for the same domain.
spec fn distinct(entries: Seq<Entry>) -> bool {
    forall|i: int, j: int|
        0 <= i < j < entries.len() ==> (#[trigger] entries[i]).key() != (#[trigger] entries[j]).key()
}

/// What the map says of each entry, and of a key that no entry has.
proof fn lemma_contents(entries: Seq<Entry>, k: Key)
    requires
        distinct(entries),
    ensures
        forall|i: int|
            0 <= i < entries.len() && (#[trigger] entries[i]).key() == k ==> contents(
                entries,
            ).dom().contains(k) && contents(entries)[k] == (entries[i].time, entries[i].status@),
        (forall|i: int| 0 <= i < entries.len() ==> (#[trigger] entries[i]).key() != k)
            ==> !contents(entries).dom().contains(k),
    decreases entries.len(),
{
    if entries.len() > 0 {
        let rest = entries.drop_last();
        assert forall|i: int, j: int| 0 <= i < j < rest.len() implies (
        #[trigger] rest[i]).key() != (#[trigger] rest[j]).key() by {
            assert(rest[i] == entries[i] && rest[j] == entries[j]);
        }
        lemma_contents(rest, k);
        assert forall|i: int|
            0 <= i < entries.len() && (#[trigger] entries[i]).key() == k implies contents(
            entries,
        ).dom().contains(k) && contents(entries)[k] == (entries[i].time, entries[i].status@) by {
            if i < rest.len() {
                assert(rest[i] == entries[i]);
                assert(entries[i].key() != entries[entries.len() - 1].key());
            }
        }
        if forall|i: int| 0 <= i < entries.len() ==> (#[trigger] entries[i]).key() != k {
            assert forall|i: int| 0 <= i < rest.len() implies (#[trigger] rest[i]).key() != k by {
                assert(rest[i] == entries[i]);
            }
            assert(entries[entries.len() - 1].key() != k);
        }
    }
}

/// Replacing an entry by one for the same domain replaces what the map says of
/// that domain.
proof fn lemma_replace(entries: Seq<Entry>, n: int, e: Entry)
    requires
        distinct(entries),
        0 <= n < entries.len(),
        e.key() == entries[n].key(),
    ensures
        distinct(entries.update(n, e)),
        contents(entries.update(n, e)) == contents(entries).insert(e.key(), (e.time, e.status@)),
    decreases entries.len(),
{
    let now = entries.update(n, e);
    assert forall|i: int, j: int| 0 <= i < j < now.len() implies (#[trigger] now[i]).key() != (
    #[trigger] now[j]).key() by {
        assert(entries[i].key() != entries[j].key());
    }
    let rest = entries.drop_last();
    let last = entries.last();
    if n == entries.len() - 1 {
        assert(now.drop_last() =~= rest);
        assert(contents(now) =~= contents(entries).insert(e.key(), (e.time, e.status@)));
    } else {
        assert forall|i: int, j: int| 0 <= i < j < rest.len() implies (
        #[trigger] rest[i]).key() != (#[trigger] rest[j]).key() by {
            assert(rest[i] == entries[i] && rest[j] == entries[j]);
        }
        lemma_replace(rest, n, e);
        assert(now.drop_last() =~= rest.update(n, e));
        assert(entries[n].key() != entries[entries.len() - 1].key());
        assert(contents(now) =~= contents(entries).insert(e.key(), (e.time, e.status@)));
    }
}

/// The time that has passed since `then`; none where the clock went back.
pub open spec fn age(then: u128, now: u128) -> int {
    if now >= then {
        now - then
    } else {
        0
    }
}

/// What is remembered of a domain, if that is not too old.
pub open spec fn recalled(known: Map<Key, (u128, Status)>, k: Key, now: u128) -> Option<Status> {
    if known.dom().contains(k) && age(known[k].0, now) < CACHE_TTL {
        Some(known[k].1)
    } else {
        None
    }
}

impl Cache {
    #[verifier::type_invariant]
    spec fn well_formed(self) -> bool {
        distinct(self.entries@)
    }

    /// The position of the entry for a domain.
    fn position(&self, name: &str, tld: &str) -> (r: Option<usize>)
        ensures
            r matches Some(i) ==> i < self.entries@.len() && self.entries@[i as int].key() == (
                name@,
                tld@,
            ),
            r is None ==> forall|i: int|
                0 <= i < self.entries@.len() ==> (#[trigger] self.entries@[i]).key() != (
                    name@,
                    tld@,
                ),
    {
        let mut i: usize = 0;
        while i < self.entries.len()
            invariant
                i <= self.entries@.len(),
                forall|j: int|
                    0 <= j < i ==> (#[trigger] self.entries@[j]).key() != (name@, tld@),
            decreases self.entries@.len() - i,
        {
            let e = &self.entries[i];
            if same_text(e.name.as_str(), name) && same_text(e.tld.as_str(), tld) {
                return Some(i);
            }
            i += 1;
        }
        None
    }

    /// What is remembered of a domain, if that is not too old.
    pub fn lookup(&self, name: &str, tld: &str, now: u128) -> (r: Option<Availability>)
        ensures
            r is Some <==> recalled(self@, (name@, tld@), now) is Some,
            r matches Some(a) ==> recalled(self@, (name@, tld@), now) == Some(a@),
    {
        proof {
            use_type_invariant(self);
            lemma_contents(self.entries@, (name@, tld@));
        }
        match self.position(name, tld) {
            Some(i) => {
                let e = &self.entries[i];
                let passed: u128 = if now >= e.time {
                    now - e.time
                } else {
                    0
                };
                if passed < CACHE_TTL {
                    Some(e.status.clone())
                } else {
                    None
                }
            },
            None => None,
        }
    }

    /// The domain and what is remembered of it, if that is not too old.
    pub fn recall(&self, name: &str, tld: &str, now: u128) -> (r: Option<(String, Availability)>)
        ensures
            r is Some <==> recalled(self@, (name@, tld@), now) is Some,
            r matches Some((d, a)) ==> d@ == domain_of(name@, tld@) && recalled(
                self@,
                (name@, tld@),
                now,
            ) == Some(a@),
    {
        match self.lookup(name, tld, now) {
            Some(a) => Some((domain_name(name, tld), a)),
            None => None,
        }
    }

    /// Remembers what was learnt of a domain, in place of what was known of it.
    pub fn insert(&mut self, name: &str, tld: &str, now: u128, status: &Availability)
        ensures
            final(self)@ == old(self)@.insert((name@, tld@), (now, status@)),
    {
        proof {
            use_type_invariant(&*self);
        }
        let e = Entry {
            name: name.to_owned(),
            tld: tld.to_owned(),
            time: now,
            status: status.clone(),
        };
        match self.position(name, tld) {
            Some(i) => {
                proof {
                    lemma_replace(self.entries@, i as int, e);
                }
                let mut entries: Vec<Entry> = Vec::new();
                std::mem::swap(&mut entries, &mut self.entries);
                entries[i] = e;
                self.entries = entries;
            },
            None => {
                let mut entries: Vec<Entry> = Vec::new();
                std::mem::swap(&mut entries, &mut self.entries);
                entries.push(e);
                assert(entries@.drop_last() =~= old(self).entries@);
                self.entries = entries;
            },
        }
    }
}

/// A cache that remembers nothing.
pub fn new_cache() -> (r: Cache)
    ensures
        r@ == Map::<Key, (u128, Status)>::empty(),
{
    Cache { entries: Vec::new() }
}

/// Law: what was remembered last of a domain is recalled for sixty seconds,
/// and not after.
pub proof fn law_recall(
    known: Map<Key, (u128, Status)>,
    k: Key,
    then: u128,
    status: Status,
    now: u128,
)
    ensures
        recalled(known.insert(k, (then, status)), k, now) == if age(then, now) < CACHE_TTL {
            Some(status)
        } else {
            None
        },
{
}

/// Law: remembering one domain changes nothing for the others.
pub proof fn law_recall_other(
    known: Map<Key, (u128, Status)>,
    k: Key,
    other: Key,
    then: u128,
    status: Status,
    now: u128,
)
    requires
        k != other,
    ensures
        recalled(known.insert(k, (then, status)), other, now) == recalled(known, other, now),
{
}

/// Law: a result that came at `then` is recalled exactly at the times before
/// sixty seconds have passed, also where the clock reads less than then; and what
/// never came is not recalled.
pub proof fn law_sixty_seconds(
    known: Map<Key, (u128, Status)>,
    k: Key,
    then: u128,
    status: Status,
    now: u128,
)
    ensures
        now < then + 60_000_000_000 ==> recalled(known.insert(k, (then, status)), k, now) == Some(
            status,
        ),
        now >= then + 60_000_000_000 ==> recalled(known.insert(k, (then, status)), k, now) is None,
        !known.dom().contains(k) ==> recalled(known, k, now) is None,
{
}

} // verus!
