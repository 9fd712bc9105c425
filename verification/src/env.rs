//! Environment variables: a map from names to values.

use vstd::prelude::*;

verus! {

/// A set of environment variables. Its view is the map from each name to its
/// value; the order in which the variables were set does not show in it.
#[derive(Debug)]
pub struct EnvVars {
    entries: Vec<(String, String)>,
}

/// Whether the entry at `i` carries `name`.
spec fn named(entries: Seq<(String, String)>, name: Seq<char>, i: int) -> bool {
    0 <= i < entries.len() && entries[i].0@ == name
}

/// The map that a list of entries with distinct names stands for.
spec fn map_of(entries: Seq<(String, String)>) -> Map<Seq<char>, Seq<char>> {
    Map::new(
        |name: Seq<char>| exists|i: int| named(entries, name, i),
        |name: Seq<char>| entries[choose|i: int| named(entries, name, i)].1@,
    )
}

/// No two entries carry the same name.
spec fn distinct(entries: Seq<(String, String)>) -> bool {
    forall|i: int, j: int| 0 <= i < j < entries.len() ==> entries[i].0@ != entries[j].0@
}

/// With distinct names, each entry is what the map holds for its name.
proof fn lemma_entry(entries: Seq<(String, String)>, i: int)
    requires
        distinct(entries),
        0 <= i < entries.len(),
    ensures
        map_of(entries).contains_key(entries[i].0@),
        map_of(entries)[entries[i].0@] == entries[i].1@,
{
    let name = entries[i].0@;
    assert(named(entries, name, i));
    let c = choose|c: int| named(entries, name, c);
    assert(c == i);
}

/// Giving the entry at `i` a new value sets its name to that value in the map.
proof fn lemma_replace(entries: Seq<(String, String)>, i: int, entry: (String, String))
    requires
        distinct(entries),
        0 <= i < entries.len(),
        entry.0@ == entries[i].0@,
    ensures
        distinct(entries.update(i, entry)),
        map_of(entries.update(i, entry)) == map_of(entries).insert(entry.0@, entry.1@),
{
    let after = entries.update(i, entry);
    assert forall|name: Seq<char>| #[trigger]
        map_of(after).contains_key(name) == map_of(entries).insert(
            entry.0@,
            entry.1@,
        ).contains_key(name) by {
        if map_of(after).contains_key(name) {
            let c = choose|c: int| named(after, name, c);
            assert(named(entries, name, c));
        }
        if map_of(entries).contains_key(name) {
            let c = choose|c: int| named(entries, name, c);
            assert(named(after, name, c));
        }
        if name == entry.0@ {
            assert(named(after, name, i));
        }
    }
    assert forall|name: Seq<char>| #[trigger] map_of(after).contains_key(name) implies map_of(
        after,
    )[name] == map_of(entries).insert(entry.0@, entry.1@)[name] by {
        let c = choose|c: int| named(after, name, c);
        lemma_entry(after, c);
        if c != i {
            lemma_entry(entries, c);
        }
    }
    assert(map_of(after) =~= map_of(entries).insert(entry.0@, entry.1@));
}

/// Adding an entry with a fresh name adds it to the map.
proof fn lemma_append(entries: Seq<(String, String)>, entry: (String, String))
    requires
        distinct(entries),
        !map_of(entries).contains_key(entry.0@),
    ensures
        distinct(entries.push(entry)),
        map_of(entries.push(entry)) == map_of(entries).insert(entry.0@, entry.1@),
{
    let after = entries.push(entry);
    let last = entries.len() as int;
    assert forall|i: int, j: int| 0 <= i < j < after.len() implies after[i].0@ != after[j].0@ by {
        if j == last {
            assert(named(entries, entries[i].0@, i));
        }
    }
    assert forall|name: Seq<char>| #[trigger]
        map_of(after).contains_key(name) == map_of(entries).insert(
            entry.0@,
            entry.1@,
        ).contains_key(name) by {
        if map_of(after).contains_key(name) {
            let c = choose|c: int| named(after, name, c);
            if c != last {
                assert(named(entries, name, c));
            }
        }
        if map_of(entries).contains_key(name) {
            let c = choose|c: int| named(entries, name, c);
            assert(named(after, name, c));
        }
        if name == entry.0@ {
            assert(named(after, name, last));
        }
    }
    assert forall|name: Seq<char>| #[trigger] map_of(after).contains_key(name) implies map_of(
        after,
    )[name] == map_of(entries).insert(entry.0@, entry.1@)[name] by {
        let c = choose|c: int| named(after, name, c);
        lemma_entry(after, c);
        if c != last {
            lemma_entry(entries, c);
        }
    }
    assert(map_of(after) =~= map_of(entries).insert(entry.0@, entry.1@));
}

/// What every `EnvVars` keeps of its entries.
spec fn consistent(entries: Seq<(String, String)>) -> bool {
    &&& distinct(entries)
    &&& map_of(entries).dom().finite()
    &&& map_of(entries).dom().len() == entries.len()
}

/// No entries stand for the empty map.
proof fn lemma_none()
    ensures
        consistent(Seq::<(String, String)>::empty()),
        map_of(Seq::<(String, String)>::empty()) == Map::<Seq<char>, Seq<char>>::empty(),
{
    let none = Seq::<(String, String)>::empty();
    assert forall|name: Seq<char>| !map_of(none).contains_key(name) by {
        if map_of(none).contains_key(name) {
            let c = choose|c: int| named(none, name, c);
            assert(named(none, name, c));
        }
    }
    assert(map_of(none) =~= Map::<Seq<char>, Seq<char>>::empty());
    assert(map_of(none).dom() =~= Set::empty());
}

impl View for EnvVars {
    type V = Map<Seq<char>, Seq<char>>;

    closed spec fn view(&self) -> Map<Seq<char>, Seq<char>> {
        map_of(self.entries@)
    }
}

impl EnvVars {
    #[verifier::type_invariant]
    spec fn well_formed(self) -> bool {
        consistent(self.entries@)
    }

    /// No variables.
    pub fn new() -> (env: EnvVars)
        ensures
            env@ == Map::<Seq<char>, Seq<char>>::empty(),
    {
        proof {
            lemma_none();
        }
        let entries: Vec<(String, String)> = Vec::new();
        assert(entries@ == Seq::<(String, String)>::empty());
        EnvVars { entries }
    }

    /// Where `name` stands among the entries.
    fn position(&self, name: &String) -> (at: Option<usize>)
        ensures
            match at {
                Some(i) => named(self.entries@, name@, i as int),
                None => !self@.contains_key(name@),
            },
    {
        let mut i: usize = 0;
        while i < self.entries.len()
            invariant
                i <= self.entries.len(),
                forall|j: int| 0 <= j < i ==> !named(self.entries@, name@, j),
            decreases self.entries.len() - i,
        {
            if self.entries[i].0 == *name {
                return Some(i);
            }
            i += 1;
        }
        None
    }

    /// Sets `name` to `value`, replacing the value it had.
    pub fn insert(&mut self, name: String, value: String)
        ensures
            final(self)@ == old(self)@.insert(name@, value@),
    {
        proof {
            use_type_invariant(&*self);
            lemma_none();
        }
        let at = self.position(&name);
        let mut entries: Vec<(String, String)> = Vec::new();
        assert(entries@ == Seq::<(String, String)>::empty());
        core::mem::swap(&mut self.entries, &mut entries);
        match at {
            Some(i) => {
                proof {
                    lemma_replace(entries@, i as int, (name, value));
                    lemma_entry(entries@, i as int);
                    assert(map_of(entries@).dom().insert(name@) == map_of(entries@).dom());
                }
                entries.set(i, (name, value));
            },
            None => {
                proof {
                    lemma_append(entries@, (name, value));
                }
                entries.push((name, value));
            },
        }
        core::mem::swap(&mut self.entries, &mut entries);
    }

    /// The value of `name`, if it is set.
    pub fn get(&self, name: &str) -> (value: Option<&String>)
        ensures
            match value {
                Some(v) => self@.contains_key(name@) && self@[name@] == v@,
                None => !self@.contains_key(name@),
            },
    {
        proof {
            use_type_invariant(self);
        }
        let key = name.to_owned();
        match self.position(&key) {
            Some(i) => {
                proof {
                    lemma_entry(self.entries@, i as int);
                }
                Some(&self.entries[i].1)
            },
            None => None,
        }
    }

    /// Whether `name` is set.
    pub fn contains_key(&self, name: &str) -> (found: bool)
        ensures
            found == self@.contains_key(name@),
    {
        self.get(name).is_some()
    }

    /// How many variables are set.
    pub fn len(&self) -> (n: usize)
        ensures
            self@.dom().finite(),
            n == self@.len(),
    {
        proof {
            use_type_invariant(self);
        }
        self.entries.len()
    }

    /// Whether no variable is set.
    pub fn is_empty(&self) -> (empty: bool)
        ensures
            empty == (self@ == Map::<Seq<char>, Seq<char>>::empty()),
    {
        proof {
            use_type_invariant(self);
            if self.entries@.len() > 0 {
                lemma_entry(self.entries@, 0);
            } else {
                assert(self@.dom() =~= Set::empty());
                assert(self@ =~= Map::<Seq<char>, Seq<char>>::empty());
            }
        }
        self.entries.len() == 0
    }
}

impl PartialEq for EnvVars {
    /// Two sets of variables are equal when they set the same names to the
    /// same values.
    fn eq(&self, other: &EnvVars) -> (same: bool) {
        proof {
            use_type_invariant(self);
            use_type_invariant(other);
        }
        let n = self.entries.len();
        if n != other.entries.len() {
            return false;
        }
        let mut i: usize = 0;
        while i < n
            invariant
                n == self.entries.len(),
                i <= n,
                consistent(self.entries@),
                consistent(other.entries@),
                forall|j: int|
                    0 <= j < i ==> other@.contains_key(#[trigger] self.entries@[j].0@) && other@[self.entries@[j].0@]
                        == self.entries@[j].1@,
            decreases n - i,
        {
            proof {
                lemma_entry(self.entries@, i as int);
            }
            match other.position(&self.entries[i].0) {
                Some(j) => {
                    proof {
                        lemma_entry(other.entries@, j as int);
                    }
                    if self.entries[i].1 != other.entries[j].1 {
                        return false;
                    }
                },
                None => {
                    return false;
                },
            }
            i += 1;
        }
        proof {
            assert forall|name: Seq<char>| self@.contains_key(name) implies other@.contains_key(
                name,
            ) && other@[name] == self@[name] by {
                let c = choose|c: int| named(self.entries@, name, c);
                lemma_entry(self.entries@, c);
            }
            assert(self@.dom().subset_of(other@.dom()));
            vstd::set_lib::lemma_subset_equality(self@.dom(), other@.dom());
            assert(self@ =~= other@);
        }
        true
    }
}

impl vstd::std_specs::cmp::PartialEqSpecImpl for EnvVars {
    open spec fn obeys_eq_spec() -> bool {
        true
    }

    open spec fn eq_spec(&self, other: &EnvVars) -> bool {
        self@ == other@
    }
}

} // verus!
