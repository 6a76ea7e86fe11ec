//! Environment maps: names with values, ordered by name.

use crate::text;
use vstd::prelude::*;

verus! {

/// A list of names and values.
pub type Entries = Seq<(Seq<char>, Seq<char>)>;

/// The contents of a list of string pairs.
pub open spec fn pairs(entries: Seq<(String, String)>) -> Entries {
    entries.map_values(|entry: (String, String)| (entry.0@, entry.1@))
}

/// Names increase strictly along the list.
pub open spec fn is_map(entries: Entries) -> bool {
    forall|i: int, j: int|
        0 <= i < j < entries.len() ==> text::before(
            (#[trigger] entries[i]).0,
            (#[trigger] entries[j]).0,
        )
}

/// The first position at or after `from` whose name does not come before
/// `name`.
pub open spec fn slot(entries: Entries, name: Seq<char>, from: int) -> int
    decreases entries.len() - from,
{
    if from < 0 || from >= entries.len() {
        entries.len() as int
    } else if !text::before(entries[from].0, name) {
        from
    } else {
        slot(entries, name, from + 1)
    }
}

/// The value of a name, if it has one.
pub open spec fn value_of(entries: Entries, name: Seq<char>) -> Option<Seq<char>> {
    let at = slot(entries, name, 0);
    if at < entries.len() && entries[at].0 == name {
        Some(entries[at].1)
    } else {
        None
    }
}

/// The list with a name set to a value.
pub open spec fn with(entries: Entries, name: Seq<char>, value: Seq<char>) -> Entries {
    let at = slot(entries, name, 0);
    if at < entries.len() && entries[at].0 == name {
        entries.update(at, (name, value))
    } else {
        entries.insert(at, (name, value))
    }
}

proof fn lemma_slot(entries: Entries, name: Seq<char>, from: int)
    requires
        0 <= from <= entries.len(),
    ensures
        from <= slot(entries, name, from) <= entries.len(),
        forall|k: int|
            from <= k < slot(entries, name, from) ==> text::before((#[trigger] entries[k]).0, name),
        slot(entries, name, from) < entries.len() ==> !text::before(
            entries[slot(entries, name, from)].0,
            name,
        ),
    decreases entries.len() - from,
{
    if from < entries.len() && text::before(entries[from].0, name) {
        lemma_slot(entries, name, from + 1);
    }
}

/// A name has a value exactly when the list has it.
pub proof fn lemma_value(entries: Entries, i: int)
    requires
        is_map(entries),
        0 <= i < entries.len(),
    ensures
        value_of(entries, entries[i].0) == Some(entries[i].1),
{
    let name = entries[i].0;
    lemma_slot(entries, name, 0);
    let at = slot(entries, name, 0);
    text::lemma_before(name, name, name);
    if at < i {
        assert(text::before(entries[at].0, entries[i].0));
    } else if at > i {
        assert(text::before(entries[i].0, name));
    }
}

/// Setting a name keeps the names ordered and distinct.
pub proof fn setting_keeps_a_map(entries: Entries, name: Seq<char>, value: Seq<char>)
    requires
        is_map(entries),
    ensures
        is_map(with(entries, name, value)),
{
    lemma_slot(entries, name, 0);
    let at = slot(entries, name, 0);
    let result = with(entries, name, value);
    if !(at < entries.len() && entries[at].0 == name) {
        assert forall|i: int, j: int| 0 <= i < j < result.len() implies text::before(
            (#[trigger] result[i]).0,
            (#[trigger] result[j]).0,
        ) by {
            let oi = if i < at { i } else { i - 1 };
            let oj = if j < at { j } else { j - 1 };
            if i == at {
                assert(result[j] == entries[oj]);
                text::lemma_before(name, entries[at].0, entries[oj].0);
                if oj > at {
                    assert(text::before(entries[at].0, entries[oj].0));
                }
            } else if j == at {
                assert(result[i] == entries[oi]);
                assert(text::before(entries[oi].0, name));
            } else {
                assert(result[i] == entries[oi]);
                assert(result[j] == entries[oj]);
            }
        }
    }
}

/// After a name is set it has that value, and every other name has the value
/// it had.
pub proof fn setting_changes_one_name(
    entries: Entries,
    name: Seq<char>,
    value: Seq<char>,
    other: Seq<char>,
)
    requires
        is_map(entries),
    ensures
        value_of(with(entries, name, value), name) == Some(value),
        other != name ==> value_of(with(entries, name, value), other) == value_of(entries, other),
{
    let result = with(entries, name, value);
    setting_keeps_a_map(entries, name, value);
    lemma_slot(entries, name, 0);
    let at = slot(entries, name, 0);
    assert(result[at] == (name, value));
    lemma_value(result, at);
    if other != name {
        lemma_slot(entries, other, 0);
        lemma_slot(result, other, 0);
        let was = slot(entries, other, 0);
        let is = slot(result, other, 0);
        if was < entries.len() && entries[was].0 == other {
            let replaced = at < entries.len() && entries[at].0 == name;
            let now = if replaced || was < at { was } else { was + 1 };
            assert(result[now] == entries[was]);
            lemma_value(result, now);
        } else if is < result.len() && result[is].0 == other {
            let replaced = at < entries.len() && entries[at].0 == name;
            let old = if replaced || is < at { is } else { is - 1 };
            assert(entries[old] == result[is]);
            lemma_value(entries, old);
        }
    }
}

/// Names with values, ordered by name.
#[derive(Debug)]
pub struct EnvMap {
    entries: Vec<(String, String)>,
}

impl View for EnvMap {
    type V = Entries;

    closed spec fn view(&self) -> Entries {
        pairs(self.entries@)
    }
}

impl EnvMap {
    #[verifier::type_invariant]
    pub closed spec fn valid(&self) -> bool {
        is_map(pairs(self.entries@))
    }

    /// The map without names.
    pub fn new() -> (r: EnvMap)
        ensures
            r@ == Entries::empty(),
    {
        let entries: Vec<(String, String)> = Vec::new();
        assert(pairs(entries@) =~= Entries::empty());
        EnvMap { entries }
    }

    fn slot_of(&self, name: &str) -> (r: usize)
        ensures
            r == slot(self@, name@, 0),
            r <= self@.len(),
    {
        let ghost list = pairs(self.entries@);
        let mut i: usize = 0;
        while i < self.entries.len()
            invariant
                i <= self.entries@.len(),
                list == pairs(self.entries@),
                slot(list, name@, 0) == slot(list, name@, i as int),
            decreases self.entries@.len() - i,
        {
            assert(list[i as int].0 == self.entries@[i as int].0@);
            if !text::is_before(self.entries[i].0.as_str(), name) {
                return i;
            }
            i = i + 1;
        }
        i
    }

    /// Set a name to a value.
    pub fn set(&mut self, name: &str, value: &str)
        ensures
            final(self)@ == with(old(self)@, name@, value@),
            is_map(final(self)@),
    {
        proof {
            use_type_invariant(&*self);
            setting_keeps_a_map(self@, name@, value@);
        }
        let at = self.slot_of(name);
        let mut entries: Vec<(String, String)> = Vec::new();
        assert(pairs(entries@) =~= Entries::empty());
        std::mem::swap(&mut entries, &mut self.entries);
        let ghost list = pairs(entries@);
        let entry = (name.to_owned(), value.to_owned());
        if at < entries.len() && text::same_text(entries[at].0.as_str(), name) {
            proof {
                assert(list[at as int].0 == entries@[at as int].0@);
                assert(pairs(entries@.update(at as int, entry)) =~= list.update(
                    at as int,
                    (name@, value@),
                ));
            }
            entries[at] = entry;
        } else {
            proof {
                if at < entries@.len() {
                    assert(list[at as int].0 == entries@[at as int].0@);
                }
                assert(pairs(entries@.insert(at as int, entry)) =~= list.insert(
                    at as int,
                    (name@, value@),
                ));
            }
            entries.insert(at, entry);
        }
        self.entries = entries;
    }

    /// The value of a name.
    pub fn get(&self, name: &str) -> (r: Option<&str>)
        ensures
            match r {
                Some(value) => value_of(self@, name@) == Some(value@),
                None => value_of(self@, name@) is None,
            },
    {
        let at = self.slot_of(name);
        if at < self.entries.len() {
            assert(self@[at as int].0 == self.entries@[at as int].0@);
            if text::same_text(self.entries[at].0.as_str(), name) {
                return Some(self.entries[at].1.as_str());
            }
        }
        None
    }

    /// Names and values in order.
    pub fn entries(&self) -> (r: &Vec<(String, String)>)
        ensures
            pairs(r@) == self@,
            is_map(self@),
    {
        proof {
            use_type_invariant(self);
        }
        &self.entries
    }

    /// A copy of the map.
    pub fn copy(&self) -> (r: EnvMap)
        ensures
            r@ == self@,
    {
        proof {
            use_type_invariant(self);
        }
        let mut entries: Vec<(String, String)> = Vec::new();
        let ghost list = pairs(self.entries@);
        let mut i: usize = 0;
        assert(pairs(entries@) =~= list.take(0));
        while i < self.entries.len()
            invariant
                i <= self.entries@.len(),
                list == pairs(self.entries@),
                pairs(entries@) == list.take(i as int),
            decreases self.entries@.len() - i,
        {
            let entry = (self.entries[i].0.clone(), self.entries[i].1.clone());
            proof {
                assert(pairs(entries@.push(entry)) =~= pairs(entries@).push((entry.0@, entry.1@)));
                assert(list[i as int] == (entry.0@, entry.1@));
                assert(list.take(i + 1) =~= list.take(i as int).push(list[i as int]));
            }
            entries.push(entry);
            i = i + 1;
        }
        assert(list.take(list.len() as int) =~= list);
        EnvMap { entries }
    }
}

} // verus!
