//! An insertion-ordered map from names to values.
//!
//! A `Table` keeps its entries in the order in which their names first came
//! in, and never holds a name twice. Its view is the sequence of its entries;
//! the functions on such sequences below say what each operation computes.

use vstd::prelude::*;

verus! {

/// The position of the first entry called `name`, or the length where there is none.
pub open spec fn position<V>(s: Seq<(Seq<char>, V)>, name: Seq<char>) -> int
    decreases s.len(),
{
    if s.len() == 0 {
        0
    } else if s[0].0 == name {
        0
    } else {
        1 + position(s.drop_first(), name)
    }
}

/// Some entry is called `name`.
pub open spec fn has_name<V>(s: Seq<(Seq<char>, V)>, name: Seq<char>) -> bool {
    exists|i: int| 0 <= i < s.len() && #[trigger] s[i].0 == name
}

/// No two entries share a name.
pub open spec fn distinct_names<V>(s: Seq<(Seq<char>, V)>) -> bool {
    forall|i: int, j: int| 0 <= i < j < s.len() ==> #[trigger] s[i].0 != #[trigger] s[j].0
}

/// The value of the first entry called `name`.
pub open spec fn value_of<V>(s: Seq<(Seq<char>, V)>, name: Seq<char>) -> V
    recommends
        has_name(s, name),
{
    s[position(s, name)].1
}

/// The value under `name`, if there is one.
pub open spec fn lookup<V>(s: Seq<(Seq<char>, V)>, name: Seq<char>) -> Option<V> {
    if has_name(s, name) {
        Some(value_of(s, name))
    } else {
        None
    }
}

/// `s` with `value` under `name`: in place where the name is known, at the end where it is new.
pub open spec fn put<V>(s: Seq<(Seq<char>, V)>, name: Seq<char>, value: V) -> Seq<(Seq<char>, V)> {
    if has_name(s, name) {
        s.update(position(s, name), (name, value))
    } else {
        s.push((name, value))
    }
}

/// `s` without the first entry called `name`.
pub open spec fn without<V>(s: Seq<(Seq<char>, V)>, name: Seq<char>) -> Seq<(Seq<char>, V)> {
    if has_name(s, name) {
        s.remove(position(s, name))
    } else {
        s
    }
}

/// The names of the entries, in order.
pub open spec fn names_of<V>(s: Seq<(Seq<char>, V)>) -> Seq<Seq<char>> {
    s.map_values(|e: (Seq<char>, V)| e.0)
}

/// `position` finds the first entry of that name, and only misses where there is none.
pub proof fn lemma_position<V>(s: Seq<(Seq<char>, V)>, name: Seq<char>)
    ensures
        0 <= position(s, name) <= s.len(),
        position(s, name) < s.len() <==> has_name(s, name),
        position(s, name) < s.len() ==> s[position(s, name)].0 == name,
        forall|j: int| 0 <= j < position(s, name) ==> (#[trigger] s[j]).0 != name,
    decreases s.len(),
{
    if s.len() == 0 {
    } else if s[0].0 == name {
    } else {
        let rest = s.drop_first();
        lemma_position(rest, name);
        let p = position(rest, name);
        assert forall|j: int| 0 <= j < p + 1 implies (#[trigger] s[j]).0 != name by {
            if j > 0 {
                assert(rest[j - 1] == s[j]);
            }
        }
        if p < rest.len() {
            assert(rest[p] == s[p + 1]);
        }
        if has_name(s, name) {
            let i = choose|i: int| 0 <= i < s.len() && #[trigger] s[i].0 == name;
            assert(rest[i - 1] == s[i]);
        }
    }
}

/// What `put` does under the name it was given, and to the names as a whole.
pub proof fn lemma_put<V>(s: Seq<(Seq<char>, V)>, name: Seq<char>, value: V)
    ensures
        has_name(put(s, name, value), name),
        value_of(put(s, name, value), name) == value,
        distinct_names(s) ==> distinct_names(put(s, name, value)),
        has_name(s, name) ==> names_of(put(s, name, value)) == names_of(s),
        !has_name(s, name) ==> names_of(put(s, name, value)) == names_of(s).push(name),
{
    let t = put(s, name, value);
    lemma_position(s, name);
    let p = position(s, name);
    if has_name(s, name) {
        assert(t[p].0 == name);
        assert(names_of(t) =~= names_of(s));
    } else {
        assert(t[s.len() as int].0 == name);
        assert(names_of(t) =~= names_of(s).push(name));
    }
    lemma_position(t, name);
    if distinct_names(s) {
        assert forall|i: int, j: int| 0 <= i < j < t.len() implies #[trigger] t[i].0
            != #[trigger] t[j].0 by {
            if j < s.len() {
                assert(s[i].0 != s[j].0);
            } else {
                assert(s[i].0 == t[i].0);
            }
        }
    }
}

/// `put` leaves every other name as it was.
pub proof fn lemma_put_other<V>(
    s: Seq<(Seq<char>, V)>,
    name: Seq<char>,
    value: V,
    other: Seq<char>,
)
    requires
        other != name,
    ensures
        has_name(put(s, name, value), other) == has_name(s, other),
        lookup(put(s, name, value), other) == lookup(s, other),
        has_name(s, other) ==> position(put(s, name, value), other) == position(s, other),
{
    let t = put(s, name, value);
    lemma_position(s, name);
    lemma_position(s, other);
    lemma_position(t, other);
    let ps = position(s, other);
    let pt = position(t, other);
    if ps < s.len() {
        assert(t[ps].0 == s[ps].0);
        assert(has_name(t, other));
        assert(s[pt].0 == t[pt].0);
    } else if pt < t.len() {
        if pt < s.len() {
            assert(s[pt].0 == t[pt].0);
            assert(has_name(s, other));
        }
    }
}

/// What `without` does under the name it was given, where names are distinct.
pub proof fn lemma_without<V>(s: Seq<(Seq<char>, V)>, name: Seq<char>)
    requires
        distinct_names(s),
    ensures
        distinct_names(without(s, name)),
        !has_name(without(s, name), name),
        has_name(s, name) ==> without(s, name).len() == s.len() - 1,
{
    let t = without(s, name);
    lemma_position(s, name);
    let p = position(s, name);
    if has_name(s, name) {
        assert forall|i: int, j: int| 0 <= i < j < t.len() implies #[trigger] t[i].0
            != #[trigger] t[j].0 by {
            let si = if i < p { i } else { i + 1 };
            let sj = if j < p { j } else { j + 1 };
            assert(t[i] == s[si]);
            assert(t[j] == s[sj]);
            assert(s[si].0 != s[sj].0);
        }
        if has_name(t, name) {
            let k = choose|k: int| 0 <= k < t.len() && #[trigger] t[k].0 == name;
            let sk = if k < p { k } else { k + 1 };
            assert(t[k] == s[sk]);
            if sk < p {
                assert(s[sk].0 != s[p].0);
            } else {
                assert(s[p].0 != s[sk].0);
            }
        }
    }
}

/// `without` leaves every other name as it was, where names are distinct.
pub proof fn lemma_without_other<V>(s: Seq<(Seq<char>, V)>, name: Seq<char>, other: Seq<char>)
    requires
        distinct_names(s),
        other != name,
    ensures
        has_name(without(s, name), other) == has_name(s, other),
        lookup(without(s, name), other) == lookup(s, other),
{
    let t = without(s, name);
    lemma_position(s, name);
    let p = position(s, name);
    if has_name(s, name) {
        lemma_position(s, other);
        lemma_position(t, other);
        let ps = position(s, other);
        let pt = position(t, other);
        if ps < s.len() {
            let k = if ps < p { ps } else { ps - 1 };
            assert(t[k] == s[ps]);
            assert(t[k].0 == other);
            let spt = if pt < p { pt } else { pt + 1 };
            assert(t[pt] == s[spt]);
            if spt < ps {
                assert(s[spt].0 != s[ps].0);
            } else if ps < spt {
                assert(s[ps].0 != s[spt].0);
            }
        } else if pt < t.len() {
            let spt = if pt < p { pt } else { pt + 1 };
            assert(t[pt] == s[spt]);
            assert(s[spt].0 == other);
        }
    }
}

/// A name is among the names exactly where an entry has it.
pub proof fn lemma_names_contain<V>(s: Seq<(Seq<char>, V)>, name: Seq<char>)
    ensures
        names_of(s).contains(name) <==> has_name(s, name),
{
    let names = names_of(s);
    if names.contains(name) {
        let k = choose|k: int| 0 <= k < names.len() && names[k] == name;
        assert(s[k].0 == name);
    }
    if has_name(s, name) {
        let k = choose|k: int| 0 <= k < s.len() && #[trigger] s[k].0 == name;
        assert(names[k] == name);
    }
}

/// Two sequences that carry the same names in the same order.
pub open spec fn same_names<V, W>(s: Seq<(Seq<char>, V)>, t: Seq<(Seq<char>, W)>) -> bool {
    &&& s.len() == t.len()
    &&& forall|i: int| 0 <= i < s.len() ==> (#[trigger] s[i]).0 == (#[trigger] t[i]).0
}

/// Sequences with the same names find each name at the same place.
pub proof fn lemma_same_names<V, W>(
    s: Seq<(Seq<char>, V)>,
    t: Seq<(Seq<char>, W)>,
    name: Seq<char>,
)
    requires
        same_names(s, t),
    ensures
        has_name(s, name) == has_name(t, name),
        position(s, name) == position(t, name),
        distinct_names(s) == distinct_names(t),
        names_of(s) == names_of(t),
{
    lemma_position(s, name);
    lemma_position(t, name);
    let ps = position(s, name);
    let pt = position(t, name);
    if ps < s.len() {
        assert(t[ps].0 == s[ps].0);
    }
    if pt < t.len() {
        assert(s[pt].0 == t[pt].0);
    }
    if distinct_names(s) {
        assert forall|i: int, j: int| 0 <= i < j < t.len() implies #[trigger] t[i].0
            != #[trigger] t[j].0 by {
            assert(s[i].0 != s[j].0);
        }
    }
    if distinct_names(t) {
        assert forall|i: int, j: int| 0 <= i < j < s.len() implies #[trigger] s[i].0
            != #[trigger] s[j].0 by {
            assert(t[i].0 != t[j].0);
        }
    }
    assert(names_of(s) =~= names_of(t));
}

/// Putting under one name into sequences with the same names keeps the names the same.
pub proof fn lemma_put_same_names<V, W>(
    s: Seq<(Seq<char>, V)>,
    t: Seq<(Seq<char>, W)>,
    name: Seq<char>,
    v: V,
    w: W,
)
    requires
        same_names(s, t),
    ensures
        same_names(put(s, name, v), put(t, name, w)),
{
    lemma_same_names(s, t, name);
    lemma_position(s, name);
}

/// Dropping one name from sequences with the same names keeps the names the same.
pub proof fn lemma_without_same_names<V, W>(
    s: Seq<(Seq<char>, V)>,
    t: Seq<(Seq<char>, W)>,
    name: Seq<char>,
)
    requires
        same_names(s, t),
    ensures
        same_names(without(s, name), without(t, name)),
{
    lemma_same_names(s, t, name);
    lemma_position(s, name);
}

/// An insertion-ordered map from names to values, with no name twice.
#[derive(Debug, PartialEq, Eq)]
pub struct Table<V> {
    entries: Vec<(String, V)>,
}

impl<V> Table<V> {
    /// The entries, in the order in which their names first came in.
    pub closed spec fn view(&self) -> Seq<(Seq<char>, V)> {
        self.entries@.map_values(|e: (String, V)| (e.0@, e.1))
    }

    /// No name stands twice.
    #[verifier::type_invariant]
    pub open spec fn inv(self) -> bool {
        distinct_names(self@)
    }

    /// A value in the table is structurally smaller than the table.
    pub broadcast proof fn lemma_value_decreases(self, i: int)
        requires
            0 <= i < self@.len(),
        ensures
            #[trigger] (decreases_to!(self => self@[i].1)),
    {
        assert(decreases_to!(self => self.entries));
        assert(decreases_to!(self.entries => self.entries[i]));
        assert(decreases_to!(self.entries[i] => self.entries[i].1));
    }

    /// The table without entries.
    pub fn new() -> (t: Self)
        ensures
            t@ == Seq::<(Seq<char>, V)>::empty(),
    {
        let t = Table { entries: Vec::new() };
        assert(t@ =~= Seq::<(Seq<char>, V)>::empty());
        t
    }

    /// How many entries there are.
    pub fn len(&self) -> (n: usize)
        ensures
            n == self@.len(),
    {
        self.entries.len()
    }

    /// The index of the entry called `name`.
    pub fn find(&self, name: &str) -> (r: Option<usize>)
        ensures
            r is Some <==> has_name(self@, name@),
            r matches Some(i) ==> i < self@.len() && i == position(self@, name@),
    {
        let key = String::from_str(name);
        let mut i: usize = 0;
        while i < self.entries.len()
            invariant
                i <= self.entries.len(),
                key@ == name@,
                forall|j: int| 0 <= j < i ==> (#[trigger] self@[j]).0 != name@,
            decreases self.entries.len() - i,
        {
            if self.entries[i].0 == key {
                proof {
                    assert(self@[i as int].0 == name@);
                    lemma_position(self@, name@);
                }
                return Some(i);
            }
            i += 1;
        }
        proof {
            lemma_position(self@, name@);
        }
        None
    }

    /// Whether an entry is called `name`.
    pub fn contains(&self, name: &str) -> (r: bool)
        ensures
            r == has_name(self@, name@),
    {
        self.find(name).is_some()
    }

    /// The value under `name`.
    pub fn get(&self, name: &str) -> (r: Option<&V>)
        ensures
            r is Some <==> has_name(self@, name@),
            r matches Some(v) ==> *v == value_of(self@, name@),
    {
        match self.find(name) {
            Some(i) => Some(&self.entries[i].1),
            None => None,
        }
    }

    /// The name of the entry at `i`.
    pub fn name_at(&self, i: usize) -> (r: &String)
        requires
            i < self@.len(),
        ensures
            r@ == self@[i as int].0,
    {
        &self.entries[i].0
    }

    /// The value of the entry at `i`.
    pub fn value_at(&self, i: usize) -> (r: &V)
        requires
            i < self@.len(),
        ensures
            *r == self@[i as int].1,
    {
        &self.entries[i].1
    }

    /// Puts `value` under `name`, replacing what was there.
    pub fn insert(&mut self, name: String, value: V)
        ensures
            final(self)@ == put(old(self)@, name@, value),
    {
        proof {
            use_type_invariant(&*self);
            lemma_put(self@, name@, value);
        }
        let found = self.find(name.as_str());
        let ghost before = self@;
        let mut entries: Vec<(String, V)> = Vec::new();
        std::mem::swap(&mut entries, &mut self.entries);
        match found {
            Some(i) => {
                entries.set(i, (name, value));
            },
            None => {
                entries.push((name, value));
            },
        }
        proof {
            assert(entries@.map_values(|e: (String, V)| (e.0@, e.1)) =~= put(
                before,
                name@,
                value,
            ));
        }
        self.entries = entries;
    }

    /// Drops the entry called `name`, and says whether there was one.
    pub fn remove(&mut self, name: &str) -> (r: bool)
        ensures
            r == has_name(old(self)@, name@),
            final(self)@ == without(old(self)@, name@),
    {
        proof {
            use_type_invariant(&*self);
            lemma_without(self@, name@);
        }
        let found = self.find(name);
        let ghost before = self@;
        match found {
            Some(i) => {
                let mut entries: Vec<(String, V)> = Vec::new();
                std::mem::swap(&mut entries, &mut self.entries);
                entries.remove(i);
                proof {
                    assert(entries@.map_values(|e: (String, V)| (e.0@, e.1)) =~= without(
                        before,
                        name@,
                    ));
                }
                self.entries = entries;
                true
            },
            None => false,
        }
    }
}

} // verus!
