use vstd::prelude::*;
use vstd::string::*;

verus! {

broadcast use vstd::string::group_string_axioms;

/// The value bound to `name`: that of its first binding, if any.
pub open spec fn lookup(entries: Seq<(Seq<char>, Seq<char>)>, name: Seq<char>) -> Option<Seq<char>>
    decreases entries.len(),
{
    if entries.len() == 0 {
        None
    } else if entries[0].0 == name {
        Some(entries[0].1)
    } else {
        lookup(entries.subrange(1, entries.len() as int), name)
    }
}

/// No name is bound twice.
pub open spec fn names_unique(entries: Seq<(Seq<char>, Seq<char>)>) -> bool {
    forall|i: int, j: int| 0 <= i < j < entries.len() ==> entries[i].0 != entries[j].0
}

/// An ordered map from names to text values, such as the values given for
/// a command's flags or a snapshot of the process environment. Each name
/// is bound at most once.
pub struct Bindings {
    entries: Vec<(String, String)>,
}

impl View for Bindings {
    type V = Seq<(Seq<char>, Seq<char>)>;

    closed spec fn view(&self) -> Seq<(Seq<char>, Seq<char>)> {
        Seq::new(self.entries@.len(), |i: int| (self.entries@[i].0@, self.entries@[i].1@))
    }
}

impl Bindings {
    #[verifier::type_invariant]
    closed spec fn unique(&self) -> bool {
        names_unique(self@)
    }

    /// No bindings.
    pub fn new() -> (b: Bindings)
        ensures
            b@ == Seq::<(Seq<char>, Seq<char>)>::empty(),
    {
        let b = Bindings { entries: Vec::new() };
        assert(b@ =~= Seq::<(Seq<char>, Seq<char>)>::empty());
        b
    }

    /// The bindings, in order.
    pub fn entries(&self) -> (e: &Vec<(String, String)>)
        ensures
            e@.len() == self@.len(),
            forall|i: int| 0 <= i < e@.len() ==> #[trigger] e@[i].0@ == self@[i].0 && e@[i].1@ == self@[i].1,
    {
        &self.entries
    }

    /// Index of the binding of `name`, if any.
    fn position(&self, name: &str) -> (r: Option<usize>)
        ensures
            match r {
                Some(i) => i < self@.len() && self@[i as int].0 == name@ && forall|k: int|
                    0 <= k < i ==> self@[k].0 != name@,
                None => forall|k: int| 0 <= k < self@.len() ==> self@[k].0 != name@,
            },
    {
        let key = String::from_str(name);
        let mut i: usize = 0;
        while i < self.entries.len()
            invariant
                i <= self.entries@.len(),
                key@ == name@,
                forall|k: int| 0 <= k < i ==> self@[k].0 != name@,
            decreases self.entries@.len() - i,
        {
            if self.entries[i].0 == key {
                return Some(i);
            }
            i = i + 1;
        }
        None
    }

    /// The value bound to `name`.
    pub fn get(&self, name: &str) -> (r: Option<String>)
        ensures
            match r {
                Some(v) => lookup(self@, name@) == Some(v@),
                None => lookup(self@, name@) is None,
            },
    {
        let p = self.position(name);
        proof {
            lemma_lookup_position(self@, name@);
        }
        match p {
            Some(i) => Some(self.entries[i].1.clone()),
            None => None,
        }
    }

    /// Binds `name` to `value`, replacing its value in place when the name is
    /// already bound and appending a binding otherwise.
    pub fn insert(&mut self, name: String, value: String)
        ensures
            lookup(final(self)@, name@) == Some(value@),
            forall|other: Seq<char>| other != name@ ==> lookup(final(self)@, other) == lookup(old(self)@, other),
            (exists|i: int| 0 <= i < old(self)@.len() && old(self)@[i].0 == name@) ==> final(self)@
                == old(self)@.update(
                choose|i: int| 0 <= i < old(self)@.len() && old(self)@[i].0 == name@,
                (name@, value@),
            ),
            (forall|i: int| 0 <= i < old(self)@.len() ==> old(self)@[i].0 != name@) ==> final(self)@
                == old(self)@.push((name@, value@)),
    {
        proof {
            use_type_invariant(&*self);
        }
        let ghost before = self@;
        let p = self.position(name.as_str());
        let ghost n = name@;
        let ghost v = value@;
        let mut entries: Vec<(String, String)> = Vec::new();
        std::mem::swap(&mut entries, &mut self.entries);
        assert(before =~= Seq::new(entries@.len(), |k: int| (entries@[k].0@, entries@[k].1@)));
        match p {
            Some(i) => {
                entries.set(i, (name, value));
                proof {
                    let after = Seq::new(entries@.len(), |k: int| (entries@[k].0@, entries@[k].1@));
                    assert(after =~= before.update(i as int, (n, v)));
                    assert(forall|k: int| 0 <= k < before.len() && before[k].0 == n ==> k == i);
                    assert(names_unique(after));
                    lemma_lookup_update(before, i as int, n, v);
                }
                self.entries = entries;
                assert(self@ =~= before.update(i as int, (n, v)));
            },
            None => {
                entries.push((name, value));
                proof {
                    let after = Seq::new(entries@.len(), |k: int| (entries@[k].0@, entries@[k].1@));
                    assert(after =~= before.push((n, v)));
                    assert(names_unique(after));
                    lemma_lookup_push(before, n, v);
                }
                self.entries = entries;
                assert(self@ =~= before.push((n, v)));
            },
        }
    }
}

/// `lookup` finds the first binding of a name.
pub proof fn lemma_lookup_position(entries: Seq<(Seq<char>, Seq<char>)>, name: Seq<char>)
    ensures
        forall|i: int|
            0 <= i < entries.len() && entries[i].0 == name && (forall|k: int|
                0 <= k < i ==> entries[k].0 != name) ==> lookup(entries, name) == Some(entries[i].1),
        (forall|k: int| 0 <= k < entries.len() ==> entries[k].0 != name) ==> lookup(entries, name) is None,
    decreases entries.len(),
{
    if entries.len() > 0 {
        let rest = entries.subrange(1, entries.len() as int);
        lemma_lookup_position(rest, name);
        assert forall|i: int|
            0 <= i < entries.len() && entries[i].0 == name && (forall|k: int|
                0 <= k < i ==> entries[k].0 != name) implies lookup(entries, name) == Some(entries[i].1) by {
            if i > 0 {
                assert(entries[0].0 != name);
                assert(rest[i - 1] == entries[i]);
                assert(forall|k: int| 0 <= k < i - 1 ==> rest[k] == entries[k + 1]);
            }
        }
        if forall|k: int| 0 <= k < entries.len() ==> entries[k].0 != name {
            assert(entries[0].0 != name);
            assert(forall|k: int| 0 <= k < rest.len() ==> rest[k] == entries[k + 1]);
        }
    }
}

/// One step of `lookup`.
proof fn lemma_lookup_unfold(entries: Seq<(Seq<char>, Seq<char>)>, name: Seq<char>)
    requires
        entries.len() > 0,
    ensures
        lookup(entries, name) == if entries[0].0 == name {
            Some(entries[0].1)
        } else {
            lookup(entries.subrange(1, entries.len() as int), name)
        },
{
}

/// Looking up after appending a new name.
proof fn lemma_lookup_push(entries: Seq<(Seq<char>, Seq<char>)>, name: Seq<char>, value: Seq<char>)
    requires
        forall|k: int| 0 <= k < entries.len() ==> entries[k].0 != name,
    ensures
        lookup(entries.push((name, value)), name) == Some(value),
        forall|other: Seq<char>| other != name ==> lookup(entries.push((name, value)), other) == lookup(entries, other),
    decreases entries.len(),
{
    let pushed = entries.push((name, value));
    if entries.len() == 0 {
        assert(pushed[0] == (name, value));
        assert(pushed.subrange(1, 1) =~= Seq::<(Seq<char>, Seq<char>)>::empty());
        assert forall|other: Seq<char>| other != name implies lookup(pushed, other) == lookup(entries, other) by {
            lemma_lookup_unfold(pushed, other);
        }
    } else {
        let rest = entries.subrange(1, entries.len() as int);
        assert(pushed.subrange(1, pushed.len() as int) =~= rest.push((name, value)));
        lemma_lookup_push(rest, name, value);
        assert forall|other: Seq<char>| other != name implies lookup(pushed, other) == lookup(entries, other) by {
            lemma_lookup_unfold(pushed, other);
            lemma_lookup_unfold(entries, other);
        }
        lemma_lookup_unfold(pushed, name);
    }
}

/// Looking up after rebinding the only binding of a name.
proof fn lemma_lookup_update(entries: Seq<(Seq<char>, Seq<char>)>, i: int, name: Seq<char>, value: Seq<char>)
    requires
        0 <= i < entries.len(),
        entries[i].0 == name,
        forall|k: int| 0 <= k < entries.len() && entries[k].0 == name ==> k == i,
    ensures
        lookup(entries.update(i, (name, value)), name) == Some(value),
        forall|other: Seq<char>| other != name ==> lookup(entries.update(i, (name, value)), other) == lookup(entries, other),
    decreases entries.len(),
{
    let updated = entries.update(i, (name, value));
    let rest = entries.subrange(1, entries.len() as int);
    if i == 0 {
        assert(updated.subrange(1, updated.len() as int) =~= rest);
    } else {
        assert(updated.subrange(1, updated.len() as int) =~= rest.update(i - 1, (name, value)));
        lemma_lookup_update(rest, i - 1, name, value);
    }
    assert forall|other: Seq<char>| other != name implies lookup(updated, other) == lookup(entries, other) by {
        lemma_lookup_unfold(updated, other);
        lemma_lookup_unfold(entries, other);
    }
    lemma_lookup_unfold(updated, name);
}

} // verus!
