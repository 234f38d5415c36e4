//! The keys of messages that were passed over, least recently stored first.
use vstd::prelude::*;

use crate::bytes::{opt_view, same_text};

verus! {

/// How many keys of passed-over messages are kept.
pub const MAX_SKIPPED_KEYS: usize = 1000;

/// The keys of passed-over messages, by name, the oldest first.
#[derive(Debug)]
pub struct SkippedKeys {
    entries: Vec<(String, String)>,
}

impl View for SkippedKeys {
    type V = Seq<(Seq<char>, Seq<char>)>;

    closed spec fn view(&self) -> Seq<(Seq<char>, Seq<char>)> {
        pairs(self.entries@)
    }
}

/// The value stored under `name`.
pub open spec fn found(s: Seq<(Seq<char>, Seq<char>)>, name: Seq<char>) -> Option<Seq<char>>
    decreases s.len(),
{
    if s.len() == 0 {
        None
    } else if s.first().0 == name {
        Some(s.first().1)
    } else {
        found(s.drop_first(), name)
    }
}

/// What is left without the entries under `name`, in the same order.
pub open spec fn without(s: Seq<(Seq<char>, Seq<char>)>, name: Seq<char>) -> Seq<
    (Seq<char>, Seq<char>),
>
    decreases s.len(),
{
    if s.len() == 0 {
        s
    } else if s.last().0 == name {
        without(s.drop_last(), name)
    } else {
        without(s.drop_last(), name).push(s.last())
    }
}

/// The newest entries, as many as are kept.
pub open spec fn newest(s: Seq<(Seq<char>, Seq<char>)>) -> Seq<(Seq<char>, Seq<char>)> {
    if s.len() <= MAX_SKIPPED_KEYS {
        s
    } else {
        s.skip(s.len() - MAX_SKIPPED_KEYS)
    }
}

/// The entries after `value` was stored under `name`: it is the newest one, and the oldest ones
/// make room.
pub open spec fn stored(
    s: Seq<(Seq<char>, Seq<char>)>,
    name: Seq<char>,
    value: Seq<char>,
) -> Seq<(Seq<char>, Seq<char>)> {
    newest(without(s, name).push((name, value)))
}

/// The entries after a list of them was stored one after the other.
pub open spec fn stored_all(
    s: Seq<(Seq<char>, Seq<char>)>,
    list: Seq<(Seq<char>, Seq<char>)>,
) -> Seq<(Seq<char>, Seq<char>)>
    decreases list.len(),
{
    if list.len() == 0 {
        s
    } else {
        stored(stored_all(s, list.drop_last()), list.last().0, list.last().1)
    }
}

/// No name occurs twice.
pub open spec fn distinct(s: Seq<(Seq<char>, Seq<char>)>) -> bool {
    forall|i: int, j: int| 0 <= i < j < s.len() ==> (#[trigger] s[i]).0 != (#[trigger] s[j]).0
}

/// Names and values as texts.
pub open spec fn pairs(v: Seq<(String, String)>) -> Seq<(Seq<char>, Seq<char>)> {
    v.map_values(|e: (String, String)| (e.0@, e.1@))
}

fn entries_without(entries: &Vec<(String, String)>, name: &str) -> (r: Vec<(String, String)>)
    ensures
        pairs(r@) == without(pairs(entries@), name@),
{
    let ghost all = pairs(entries@);
    let mut left: Vec<(String, String)> = Vec::new();
    let mut i: usize = 0;
    assert(all.take(0) =~= Seq::empty());
    assert(pairs(left@) =~= without(all.take(0), name@));
    while i < entries.len()
        invariant
            i <= entries@.len(),
            all == pairs(entries@),
            pairs(left@) == without(all.take(i as int), name@),
        decreases entries.len() - i,
    {
        assert(all.take(i + 1).drop_last() =~= all.take(i as int));
        assert(all.take(i + 1).last() == all[i as int]);
        let ghost before = pairs(left@);
        if !same_text(entries[i].0.as_str(), name) {
            left.push((entries[i].0.clone(), entries[i].1.clone()));
            assert(pairs(left@) =~= before.push(all[i as int]));
        }
        i = i + 1;
    }
    assert(all.take(i as int) =~= all);
    left
}

fn entries_copy(entries: &Vec<(String, String)>) -> (r: Vec<(String, String)>)
    ensures
        pairs(r@) == pairs(entries@),
{
    let mut copy: Vec<(String, String)> = Vec::new();
    let mut i: usize = 0;
    while i < entries.len()
        invariant
            i <= entries@.len(),
            copy@.len() == i,
            forall|k: int| 0 <= k < i ==> #[trigger] pairs(copy@)[k] == pairs(entries@)[k],
        decreases entries.len() - i,
    {
        let ghost before = copy@;
        copy.push((entries[i].0.clone(), entries[i].1.clone()));
        assert forall|k: int| 0 <= k < i + 1 implies #[trigger] pairs(copy@)[k] == pairs(
            entries@,
        )[k] by {
            if k < i {
                assert(pairs(before)[k] == pairs(entries@)[k]);
            }
        }
        i = i + 1;
    }
    assert(pairs(copy@) =~= pairs(entries@));
    copy
}

impl Clone for SkippedKeys {
    fn clone(&self) -> (r: SkippedKeys)
        ensures
            r@ == self@,
    {
        proof {
            use_type_invariant(self);
        }
        let entries = entries_copy(&self.entries);
        assert(entries@.len() == pairs(entries@).len());
        SkippedKeys { entries }
    }
}

impl SkippedKeys {
    /// No name occurs twice, and there are no more entries than are kept.
    #[verifier::type_invariant]
    spec fn well_kept(self) -> bool {
        &&& distinct(pairs(self.entries@))
        &&& self.entries@.len() <= MAX_SKIPPED_KEYS
    }

    /// No keys.
    pub fn new() -> (r: SkippedKeys)
        ensures
            r@ == Seq::<(Seq<char>, Seq<char>)>::empty(),
    {
        let r = SkippedKeys { entries: Vec::new() };
        assert(r@ =~= Seq::empty());
        r
    }

    /// Stores a list of entries, the first of them as the oldest.
    pub fn from_entries(list: &Vec<(String, String)>) -> (r: SkippedKeys)
        ensures
            r@ == stored_all(Seq::empty(), pairs(list@)),
    {
        let ghost all = pairs(list@);
        let mut r = SkippedKeys::new();
        let mut i: usize = 0;
        assert(all.take(0) =~= Seq::empty());
        while i < list.len()
            invariant
                i <= list@.len(),
                all == pairs(list@),
                r@ == stored_all(Seq::empty(), all.take(i as int)),
            decreases list.len() - i,
        {
            r.insert(list[i].0.clone(), list[i].1.clone());
            assert(all.take(i + 1).drop_last() =~= all.take(i as int));
            assert(all.take(i + 1).last() == all[i as int]);
            i = i + 1;
        }
        assert(all.take(i as int) =~= all);
        r
    }

    /// All entries, the oldest first. `from_entries` gives the same keys back.
    pub fn into_entries(self) -> (r: Vec<(String, String)>)
        ensures
            pairs(r@) == self@,
            stored_all(Seq::empty(), pairs(r@)) == self@,
    {
        proof {
            use_type_invariant(&self);
            law_entries_round_trip(self@);
        }
        self.entries
    }

    /// The number of entries, never over the limit.
    pub fn len(&self) -> (r: usize)
        ensures
            r == self@.len(),
            r <= MAX_SKIPPED_KEYS,
    {
        proof {
            use_type_invariant(self);
        }
        self.entries.len()
    }

    /// Looks a key up. No name occurs twice.
    pub fn get(&self, name: &str) -> (r: Option<String>)
        ensures
            opt_view(r) == found(self@, name@),
            distinct(self@),
            self@.len() <= MAX_SKIPPED_KEYS,
    {
        proof {
            use_type_invariant(self);
        }
        let mut i: usize = 0;
        assert(self@.skip(0) =~= self@);
        while i < self.entries.len()
            invariant
                i <= self.entries@.len(),
                found(self@, name@) == found(self@.skip(i as int), name@),
                distinct(self@),
                self@.len() <= MAX_SKIPPED_KEYS,
            decreases self.entries.len() - i,
        {
            assert(self@.skip(i as int).first() == self@[i as int]);
            assert(self@.skip(i as int).drop_first() =~= self@.skip(i + 1));
            if same_text(self.entries[i].0.as_str(), name) {
                return Some(self.entries[i].1.clone());
            }
            i = i + 1;
        }
        None
    }

    /// Removes a key.
    pub fn remove(&mut self, name: &str)
        ensures
            final(self)@ == without(old(self)@, name@),
            found(final(self)@, name@) is None,
    {
        proof {
            use_type_invariant(&*self);
        }
        let left = entries_without(&self.entries, name);
        proof {
            lemma_without(pairs(self.entries@), name@);
            lemma_found_absent(pairs(left@), name@);
        }
        self.entries = left;
    }

    /// Stores a key as the newest one. Where there is no room, the oldest one goes.
    pub fn insert(&mut self, name: String, value: String)
        ensures
            final(self)@ == stored(old(self)@, name@, value@),
    {
        proof {
            use_type_invariant(&*self);
        }
        let mut left = entries_without(&self.entries, name.as_str());
        let ghost kept = pairs(left@);
        proof {
            lemma_without(pairs(self.entries@), name@);
            lemma_stored(pairs(self.entries@), name@, value@);
        }
        left.push((name, value));
        assert(pairs(left@) =~= kept.push((name@, value@)));
        if left.len() > MAX_SKIPPED_KEYS {
            left.remove(0);
            assert(pairs(left@) =~= kept.push((name@, value@)).skip(1));
        }
        self.entries = left;
    }
}

proof fn lemma_without_none(s: Seq<(Seq<char>, Seq<char>)>, name: Seq<char>)
    requires
        forall|i: int| 0 <= i < s.len() ==> (#[trigger] s[i]).0 != name,
    ensures
        without(s, name) == s,
    decreases s.len(),
{
    if s.len() > 0 {
        let rest = s.drop_last();
        assert forall|i: int| 0 <= i < rest.len() implies (#[trigger] rest[i]).0 != name by {
            assert(s[i].0 != name);
        }
        lemma_without_none(rest, name);
        assert(s[s.len() - 1].0 != name);
        assert(rest.push(s.last()) =~= s);
    }
}

proof fn lemma_stored_in_order(s: Seq<(Seq<char>, Seq<char>)>, count: nat)
    requires
        distinct(s),
        count <= s.len(),
        s.len() <= MAX_SKIPPED_KEYS,
    ensures
        stored_all(Seq::empty(), s.take(count as int)) == s.take(count as int),
    decreases count,
{
    let list = s.take(count as int);
    if count > 0 {
        let before = s.take(count - 1);
        lemma_stored_in_order(s, (count - 1) as nat);
        assert(list.drop_last() =~= before);
        assert forall|i: int| 0 <= i < before.len() implies (#[trigger] before[i]).0
            != list.last().0 by {
            assert(s[i].0 != s[count - 1].0);
        }
        lemma_without_none(before, list.last().0);
        assert(before.push(list.last()) =~= list);
        assert(list.last() == (list.last().0, list.last().1));
    } else {
        assert(list =~= Seq::empty());
    }
}

/// Storing the entries of a store, the oldest first, gives the same store.
pub proof fn law_entries_round_trip(s: Seq<(Seq<char>, Seq<char>)>)
    requires
        distinct(s),
        s.len() <= MAX_SKIPPED_KEYS,
    ensures
        stored_all(Seq::empty(), s) == s,
{
    lemma_stored_in_order(s, s.len());
    assert(s.take(s.len() as int) =~= s);
}

/// Storing keeps names distinct and the number of entries within the limit.
pub proof fn lemma_stored(s: Seq<(Seq<char>, Seq<char>)>, name: Seq<char>, value: Seq<char>)
    requires
        distinct(s),
    ensures
        distinct(stored(s, name, value)),
        stored(s, name, value).len() <= MAX_SKIPPED_KEYS,
        stored(s, name, value).len() > 0,
        stored(s, name, value).last() == (name, value),
{
    lemma_without(s, name);
    let all = without(s, name).push((name, value));
    assert(distinct(all));
    assert(distinct(newest(all)));
}

/// What `without` leaves: nothing under the name, and no name twice where none was.
pub proof fn lemma_without(s: Seq<(Seq<char>, Seq<char>)>, name: Seq<char>)
    ensures
        without(s, name).len() <= s.len(),
        forall|i: int|
            0 <= i < without(s, name).len() ==> (#[trigger] without(s, name)[i]).0 != name
                && s.contains(without(s, name)[i]),
        forall|i: int|
            0 <= i < s.len() && (#[trigger] s[i]).0 != name ==> without(s, name).contains(s[i]),
        distinct(s) ==> distinct(without(s, name)),
    decreases s.len(),
{
    if s.len() > 0 {
        let rest = s.drop_last();
        let w = without(rest, name);
        lemma_without(rest, name);
        assert forall|i: int| 0 <= i < without(s, name).len() implies (#[trigger] without(
            s,
            name,
        )[i]).0 != name && s.contains(without(s, name)[i]) by {
            if i < w.len() {
                assert(rest.contains(w[i]));
                let k = choose|k: int| 0 <= k < rest.len() && rest[k] == w[i];
                assert(s[k] == w[i]);
            } else {
                assert(s[s.len() - 1] == without(s, name)[i]);
            }
        }
        assert forall|i: int| 0 <= i < s.len() && (#[trigger] s[i]).0 != name implies without(
            s,
            name,
        ).contains(s[i]) by {
            if i < rest.len() {
                assert(rest[i] == s[i]);
                assert(w.contains(rest[i]));
                let k = choose|k: int| 0 <= k < w.len() && w[k] == rest[i];
                assert(without(s, name)[k] == s[i]);
            } else {
                assert(without(s, name)[w.len() as int] == s[i]);
            }
        }
        if distinct(s) {
            assert(distinct(rest)) by {
                assert forall|i: int, j: int| 0 <= i < j < rest.len() implies (
                #[trigger] rest[i]).0 != (#[trigger] rest[j]).0 by {
                    assert(s[i].0 != s[j].0);
                }
            }
            assert forall|i: int, j: int| 0 <= i < j < without(s, name).len() implies (
            #[trigger] without(s, name)[i]).0 != (#[trigger] without(s, name)[j]).0 by {
                if j == w.len() {
                    assert(rest.contains(w[i]));
                    let k = choose|k: int| 0 <= k < rest.len() && rest[k] == w[i];
                    assert(s[k].0 != s[s.len() - 1].0);
                }
            }
        }
    }
}

/// Nothing is found under a name that does not occur.
pub proof fn lemma_found_absent(s: Seq<(Seq<char>, Seq<char>)>, name: Seq<char>)
    requires
        forall|i: int| 0 <= i < s.len() ==> (#[trigger] s[i]).0 != name,
    ensures
        found(s, name) is None,
    decreases s.len(),
{
    if s.len() > 0 {
        let rest = s.drop_first();
        assert(s[0].0 != name);
        assert forall|i: int| 0 <= i < rest.len() implies (#[trigger] rest[i]).0 != name by {
            assert(s[i + 1].0 != name);
        }
        lemma_found_absent(rest, name);
    }
}

/// An entry is found where no name occurs twice.
pub proof fn lemma_found_present(s: Seq<(Seq<char>, Seq<char>)>, at: int)
    requires
        distinct(s),
        0 <= at < s.len(),
    ensures
        found(s, s[at].0) == Some(s[at].1),
    decreases s.len(),
{
    if at > 0 {
        let rest = s.drop_first();
        assert(s[0].0 != s[at].0);
        assert forall|i: int, j: int| 0 <= i < j < rest.len() implies (#[trigger] rest[i]).0 != (
        #[trigger] rest[j]).0 by {
            assert(s[i + 1].0 != s[j + 1].0);
        }
        assert(rest[at - 1] == s[at]);
        lemma_found_present(rest, at - 1);
    }
}

/// What is not found does not occur.
pub proof fn lemma_absent(s: Seq<(Seq<char>, Seq<char>)>, name: Seq<char>)
    requires
        found(s, name) is None,
    ensures
        forall|i: int| 0 <= i < s.len() ==> (#[trigger] s[i]).0 != name,
    decreases s.len(),
{
    if s.len() > 0 {
        let rest = s.drop_first();
        lemma_absent(rest, name);
        assert forall|i: int| 0 <= i < s.len() implies (#[trigger] s[i]).0 != name by {
            if i > 0 {
                assert(rest[i - 1].0 != name);
            }
        }
    }
}

/// A name that does not occur is not found after another one was removed either.
pub proof fn lemma_without_absent(
    s: Seq<(Seq<char>, Seq<char>)>,
    removed: Seq<char>,
    name: Seq<char>,
)
    requires
        found(s, name) is None,
    ensures
        found(without(s, removed), name) is None,
{
    let w = without(s, removed);
    lemma_without(s, removed);
    lemma_absent(s, name);
    assert forall|i: int| 0 <= i < w.len() implies (#[trigger] w[i]).0 != name by {
        assert(s.contains(w[i]));
        let k = choose|k: int| 0 <= k < s.len() && s[k] == w[i];
        assert(s[k].0 != name);
    }
    lemma_found_absent(w, name);
}

/// What is found under a name stands somewhere.
proof fn lemma_found_at(s: Seq<(Seq<char>, Seq<char>)>, name: Seq<char>) -> (at: int)
    requires
        found(s, name) is Some,
    ensures
        0 <= at < s.len(),
        s[at].0 == name,
{
    if forall|i: int| 0 <= i < s.len() ==> (#[trigger] s[i]).0 != name {
        lemma_found_absent(s, name);
    }
    choose|i: int| 0 <= i < s.len() && (#[trigger] s[i]).0 == name
}

/// Removing a name changes nothing under another one.
pub proof fn lemma_without_keeps(
    s: Seq<(Seq<char>, Seq<char>)>,
    removed: Seq<char>,
    name: Seq<char>,
)
    requires
        distinct(s),
        removed != name,
    ensures
        found(without(s, removed), name) == found(s, name),
{
    let w = without(s, removed);
    if found(s, name) is None {
        lemma_without_absent(s, removed, name);
    } else {
        let at = lemma_found_at(s, name);
        lemma_without(s, removed);
        lemma_found_present(s, at);
        assert(w.contains(s[at]));
        let k = choose|k: int| 0 <= k < w.len() && w[k] == s[at];
        lemma_found_present(w, k);
    }
}

/// Storing a key where there is room changes nothing under another name.
proof fn lemma_stored_keeps(
    s: Seq<(Seq<char>, Seq<char>)>,
    stored_name: Seq<char>,
    value: Seq<char>,
    name: Seq<char>,
)
    requires
        distinct(s),
        s.len() < MAX_SKIPPED_KEYS,
        stored_name != name,
    ensures
        found(stored(s, stored_name, value), name) == found(s, name),
        stored(s, stored_name, value).len() <= s.len() + 1,
{
    let w = without(s, stored_name);
    let all = stored(s, stored_name, value);
    lemma_without(s, stored_name);
    lemma_stored(s, stored_name, value);
    lemma_without_keeps(s, stored_name, name);
    assert(all == w.push((stored_name, value)));
    if found(w, name) is None {
        lemma_absent(w, name);
        assert forall|i: int| 0 <= i < all.len() implies (#[trigger] all[i]).0 != name by {
            if i < w.len() {
                assert(w[i].0 != name);
            }
        }
        lemma_found_absent(all, name);
    } else {
        let at = lemma_found_at(w, name);
        lemma_found_present(w, at);
        assert(all[at] == w[at]);
        lemma_found_present(all, at);
    }
}

/// A key that was stored is found, and where there is room no other one is lost or added.
pub proof fn law_stored_key_is_found(
    s: Seq<(Seq<char>, Seq<char>)>,
    name: Seq<char>,
    value: Seq<char>,
    other: Seq<char>,
)
    requires
        distinct(s),
        s.len() <= MAX_SKIPPED_KEYS,
    ensures
        found(stored(s, name, value), name) == Some(value),
        other != name && s.len() < 1000 ==> found(stored(s, name, value), other) == found(s, other),
        stored(s, name, value).len() <= 1000,
{
    lemma_stored(s, name, value);
    let all = stored(s, name, value);
    lemma_found_present(all, all.len() - 1);
    if other != name && s.len() < 1000 {
        lemma_stored_keeps(s, name, value, other);
    }
}

/// Where a thousand keys are stored and one more comes, the one that was stored first goes, and the
/// others stay in their order.
pub proof fn law_oldest_key_goes(
    s: Seq<(Seq<char>, Seq<char>)>,
    name: Seq<char>,
    value: Seq<char>,
)
    requires
        distinct(s),
        s.len() == 1000,
        found(s, name) is None,
    ensures
        stored(s, name, value) == s.skip(1).push((name, value)),
{
    lemma_absent(s, name);
    lemma_without_none(s, name);
    assert(stored(s, name, value) =~= s.skip(1).push((name, value)));
}

/// A key that was stored again is the newest one; the others stay in their order.
pub proof fn law_stored_again(
    s: Seq<(Seq<char>, Seq<char>)>,
    at: int,
    value: Seq<char>,
)
    requires
        distinct(s),
        s.len() <= MAX_SKIPPED_KEYS,
        0 <= at < s.len(),
    ensures
        stored(s, s[at].0, value) == s.remove(at).push((s[at].0, value)),
{
    lemma_without_at(s, at);
    assert(s.remove(at).push((s[at].0, value)).len() == s.len());
}

proof fn lemma_without_at(s: Seq<(Seq<char>, Seq<char>)>, at: int)
    requires
        distinct(s),
        0 <= at < s.len(),
    ensures
        without(s, s[at].0) == s.remove(at),
    decreases s.len(),
{
    let rest = s.drop_last();
    let name = s[at].0;
    assert forall|i: int, j: int| 0 <= i < j < rest.len() implies (#[trigger] rest[i]).0 != (
    #[trigger] rest[j]).0 by {
        assert(s[i].0 != s[j].0);
    }
    if at == s.len() - 1 {
        assert forall|i: int| 0 <= i < rest.len() implies (#[trigger] rest[i]).0 != name by {
            assert(s[i].0 != s[at].0);
        }
        lemma_without_none(rest, name);
        assert(s.remove(at) =~= rest);
    } else {
        assert(rest[at] == s[at]);
        lemma_without_at(rest, at);
        assert(s[s.len() - 1].0 != s[at].0);
        assert(s.remove(at) =~= rest.remove(at).push(s.last()));
    }
}

/// A key that was removed is gone, and no other one is: the rest stay in their order.
pub proof fn law_removed_key_is_gone(
    s: Seq<(Seq<char>, Seq<char>)>,
    name: Seq<char>,
    other: Seq<char>,
)
    requires
        distinct(s),
    ensures
        found(without(s, name), name) is None,
        other != name ==> found(without(s, name), other) == found(s, other),
        found(s, name) is None ==> without(s, name) == s,
        forall|at: int| 0 <= at < s.len() && (#[trigger] s[at]).0 == name ==> without(s, name)
            == s.remove(at),
{
    lemma_without(s, name);
    lemma_found_absent(without(s, name), name);
    if other != name {
        lemma_without_keeps(s, name, other);
    }
    if found(s, name) is None {
        lemma_absent(s, name);
        lemma_without_none(s, name);
    }
    assert forall|at: int| 0 <= at < s.len() && (#[trigger] s[at]).0 == name implies without(
        s,
        name,
    ) == s.remove(at) by {
        lemma_without_at(s, at);
    }
}

/// Storing a list where there is room changes nothing under another name.
pub proof fn lemma_stored_all_keeps(
    s: Seq<(Seq<char>, Seq<char>)>,
    list: Seq<(Seq<char>, Seq<char>)>,
    name: Seq<char>,
)
    requires
        distinct(s),
        s.len() + list.len() <= MAX_SKIPPED_KEYS,
        forall|i: int| 0 <= i < list.len() ==> (#[trigger] list[i]).0 != name,
    ensures
        found(stored_all(s, list), name) == found(s, name),
        stored_all(s, list).len() <= s.len() + list.len(),
    decreases list.len(),
{
    if list.len() > 0 {
        let before = list.drop_last();
        assert forall|i: int| 0 <= i < before.len() implies (#[trigger] before[i]).0 != name by {
            assert(list[i].0 != name);
        }
        assert(list[list.len() - 1].0 != name);
        lemma_stored_all_keeps(s, before, name);
        lemma_stored_all(s, before);
        lemma_stored_keeps(stored_all(s, before), list.last().0, list.last().1, name);
    }
}

/// Removing a name leaves the newest entries as they are, where none of them has it.
proof fn lemma_without_tail(s: Seq<(Seq<char>, Seq<char>)>, name: Seq<char>, count: nat)
    requires
        count <= s.len(),
        forall|i: int| s.len() - count <= i < s.len() ==> (#[trigger] s[i]).0 != name,
    ensures
        without(s, name).len() >= count,
        forall|j: int|
            1 <= j <= count ==> #[trigger] without(s, name)[without(s, name).len() - j]
                == s[s.len() - j],
    decreases count,
{
    if count > 0 {
        let rest = s.drop_last();
        assert forall|i: int| rest.len() - (count - 1) <= i < rest.len() implies (
        #[trigger] rest[i]).0 != name by {
            assert(s[i].0 != name);
        }
        assert(s[s.len() - 1].0 != name);
        lemma_without_tail(rest, name, (count - 1) as nat);
        let w = without(s, name);
        let wr = without(rest, name);
        assert(w == wr.push(s.last()));
        assert forall|j: int| 1 <= j <= count implies #[trigger] w[w.len() - j] == s[s.len()
            - j] by {
            if j > 1 {
                assert(wr[wr.len() - (j - 1)] == rest[rest.len() - (j - 1)]);
            }
        }
    }
}

/// Storing a list keeps names distinct and the number of entries within the limit.
pub proof fn lemma_stored_all(
    s: Seq<(Seq<char>, Seq<char>)>,
    list: Seq<(Seq<char>, Seq<char>)>,
)
    requires
        distinct(s),
        s.len() <= MAX_SKIPPED_KEYS,
    ensures
        distinct(stored_all(s, list)),
        stored_all(s, list).len() <= MAX_SKIPPED_KEYS,
    decreases list.len(),
{
    if list.len() > 0 {
        lemma_stored_all(s, list.drop_last());
        lemma_stored(stored_all(s, list.drop_last()), list.last().0, list.last().1);
    }
}

/// Storing one list after another is storing the two as one.
pub proof fn lemma_stored_all_append(
    s: Seq<(Seq<char>, Seq<char>)>,
    list: Seq<(Seq<char>, Seq<char>)>,
    more: Seq<(Seq<char>, Seq<char>)>,
)
    ensures
        stored_all(s, list + more) == stored_all(stored_all(s, list), more),
    decreases more.len(),
{
    if more.len() == 0 {
        assert(list + more =~= list);
    } else {
        lemma_stored_all_append(s, list, more.drop_last());
        assert((list + more).drop_last() =~= list + more.drop_last());
        assert((list + more).last() == more.last());
    }
}

/// After a list of different names was stored, its entries are the newest ones, as far as the
/// limit reaches.
proof fn lemma_stored_all_tail(
    s: Seq<(Seq<char>, Seq<char>)>,
    list: Seq<(Seq<char>, Seq<char>)>,
    count: nat,
)
    requires
        distinct(list),
        count <= list.len(),
        count <= MAX_SKIPPED_KEYS,
    ensures
        stored_all(s, list).len() >= count,
        forall|j: int|
            1 <= j <= count ==> #[trigger] stored_all(s, list)[stored_all(s, list).len() - j]
                == list[list.len() - j],
    decreases list.len(),
{
    if count > 0 {
        let before = list.drop_last();
        let name = list.last().0;
        let value = list.last().1;
        let old_all = stored_all(s, before);
        let left = (count - 1) as nat;
        assert(distinct(before)) by {
            assert forall|i: int, j: int| 0 <= i < j < before.len() implies (
            #[trigger] before[i]).0 != (#[trigger] before[j]).0 by {
                assert(list[i].0 != list[j].0);
            }
        }
        lemma_stored_all_tail(s, before, left);
        assert forall|i: int| old_all.len() - left <= i < old_all.len() implies (
        #[trigger] old_all[i]).0 != name by {
            let j = old_all.len() - i;
            assert(old_all[old_all.len() - j] == before[before.len() - j]);
            assert(before[before.len() - j] == list[before.len() - j]);
            assert(list[before.len() - j].0 != list[list.len() - 1].0);
        }
        lemma_without_tail(old_all, name, left);
        let w = without(old_all, name);
        let all = stored_all(s, list);
        assert(all == newest(w.push((name, value))));
        assert forall|j: int| 1 <= j <= count implies #[trigger] all[all.len() - j]
            == list[list.len() - j] by {
            let p = w.push((name, value));
            assert(all[all.len() - j] == p[p.len() - j]);
            if j > 1 {
                assert(w[w.len() - (j - 1)] == old_all[old_all.len() - (j - 1)]);
                assert(old_all[old_all.len() - (j - 1)] == before[before.len() - (j - 1)]);
            }
        }
    }
}

/// After a list of different names was stored, each of its last entries is found, as many as the
/// limit allows.
pub proof fn law_stored_found(
    s: Seq<(Seq<char>, Seq<char>)>,
    list: Seq<(Seq<char>, Seq<char>)>,
    at: int,
)
    requires
        distinct(s),
        s.len() <= MAX_SKIPPED_KEYS,
        distinct(list),
        0 <= at < list.len(),
        list.len() - at <= MAX_SKIPPED_KEYS,
    ensures
        found(stored_all(s, list), list[at].0) == Some(list[at].1),
{
    let all = stored_all(s, list);
    lemma_stored_all(s, list);
    lemma_stored_all_tail(s, list, (list.len() - at) as nat);
    let j = list.len() - at;
    assert(all[all.len() - j] == list[list.len() - j]);
    lemma_found_present(all, all.len() - j);
}

/// A name that neither occurs nor is stored is still not found.
pub proof fn lemma_stored_all_absent(
    s: Seq<(Seq<char>, Seq<char>)>,
    list: Seq<(Seq<char>, Seq<char>)>,
    name: Seq<char>,
)
    requires
        found(s, name) is None,
        forall|i: int| 0 <= i < list.len() ==> (#[trigger] list[i]).0 != name,
    ensures
        found(stored_all(s, list), name) is None,
    decreases list.len(),
{
    if list.len() > 0 {
        let before = list.drop_last();
        assert forall|i: int| 0 <= i < before.len() implies (#[trigger] before[i]).0 != name by {
            assert(list[i].0 != name);
        }
        lemma_stored_all_absent(s, before, name);
        let old_all = stored_all(s, before);
        let all = stored_all(s, list);
        lemma_absent(old_all, name);
        lemma_without(old_all, list.last().0);
        let p = without(old_all, list.last().0).push(list.last());
        assert(list[list.len() - 1].0 != name);
        assert forall|i: int| 0 <= i < p.len() implies (#[trigger] p[i]).0 != name by {
            if i < p.len() - 1 {
                assert(old_all.contains(without(old_all, list.last().0)[i]));
                let k = choose|k: int| 0 <= k < old_all.len() && old_all[k] == p[i];
                assert(old_all[k].0 != name);
            }
        }
        assert(list.last() == (list.last().0, list.last().1));
        assert forall|i: int| 0 <= i < all.len() implies (#[trigger] all[i]).0 != name by {
            if p.len() > MAX_SKIPPED_KEYS {
                assert(all[i] == p[i + (p.len() - MAX_SKIPPED_KEYS)]);
            } else {
                assert(all[i] == p[i]);
            }
        }
        lemma_found_absent(all, name);
    }
}

} // verus!
