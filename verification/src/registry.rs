//! A registry by name, as a connection keeps for its event handlers and a
//! dispatcher for its namespaces. A name has at most one entry; registering
//! a second one replaces the first.

use vstd::prelude::*;

verus! {

/// Values by name. For a connection's handlers `H` is whatever the
/// application calls when the event arrives; the registry stores it and
/// hands it out, and never looks inside.
pub struct Registry<H> {
    entries: Vec<(String, H)>,
}

/// The position of the entry for `name` among `entries`, if there is one.
pub open spec fn holds_at<H>(entries: Seq<(String, H)>, name: Seq<char>, i: int) -> bool {
    0 <= i < entries.len() && entries[i].0@ == name
}

impl<H> Registry<H> {
    #[verifier::type_invariant]
    spec fn distinct_names(self) -> bool {
        forall|i: int, j: int|
            0 <= i < j < self.entries@.len() ==> self.entries@[i].0@ != self.entries@[j].0@
    }

    /// The registered values, by name.
    pub closed spec fn handlers(&self) -> Map<Seq<char>, H> {
        Map::new(
            |name: Seq<char>| exists|i: int| holds_at(self.entries@, name, i),
            |name: Seq<char>| self.entries@[choose|i: int| holds_at(self.entries@, name, i)].1,
        )
    }

    /// An empty registry.
    pub fn new() -> (registry: Self)
        ensures
            registry.handlers() == Map::<Seq<char>, H>::empty(),
    {
        let registry = Registry { entries: Vec::new() };
        assert(registry.handlers() =~= Map::<Seq<char>, H>::empty());
        registry
    }

    /// How many names have a value.
    pub fn len(&self) -> (n: usize)
        ensures
            n == self.handlers().len(),
            self.handlers().dom().finite(),
    {
        proof {
            use_type_invariant(self);
            lemma_len(self.entries@);
        }
        self.entries.len()
    }

    fn position(&self, name: &String) -> (found: Option<usize>)
        ensures
            match found {
                Some(i) => holds_at(self.entries@, name@, i as int),
                None => forall|i: int| !holds_at(self.entries@, name@, i),
            },
    {
        let mut i: usize = 0;
        while i < self.entries.len()
            invariant
                i <= self.entries@.len(),
                forall|j: int| 0 <= j < i ==> !holds_at(self.entries@, name@, j),
            decreases self.entries@.len() - i,
        {
            if self.entries[i].0 == *name {
                return Some(i);
            }
            i += 1;
        }
        None
    }

    /// Registers `handler` for `event`. A handler that `event` had before
    /// is replaced; every other event keeps its own.
    pub fn insert(&mut self, event: String, handler: H)
        ensures
            final(self).handlers() == old(self).handlers().insert(event@, handler),
    {
        proof {
            use_type_invariant(&*self);
        }
        let ghost before = self.entries@;
        let found = self.position(&event);
        let mut entries: Vec<(String, H)> = Vec::new();
        std::mem::swap(&mut self.entries, &mut entries);
        match found {
            Some(i) => {
                entries.set(i, (event, handler));
                *self = Registry { entries };
                proof {
                    let after = self.entries@;
                    assert forall|name: Seq<char>, k: int|
                        holds_at(after, name, k) <==> holds_at(before, name, k) by {}
                    assert forall|name: Seq<char>| #[trigger]
                        self.handlers().dom().contains(name) <==> old(self).handlers().insert(
                            event@,
                            handler,
                        ).dom().contains(name) by {
                        if name == event@ {
                            assert(holds_at(after, name, i as int));
                        }
                    }
                    assert forall|name: Seq<char>| #[trigger]
                        self.handlers().dom().contains(name) implies self.handlers()[name]
                        == old(self).handlers().insert(event@, handler)[name] by {
                        let k = choose|k: int| holds_at(after, name, k);
                        let k0 = choose|k: int| holds_at(before, name, k);
                        assert(holds_at(before, name, k));
                        assert(holds_at(before, name, k0));
                        assert(k == k0);
                        if name == event@ {
                            assert(holds_at(before, name, i as int));
                            assert(k == i);
                        }
                    }
                    assert(self.handlers() =~= old(self).handlers().insert(event@, handler));
                }
            },
            None => {
                entries.push((event, handler));
                assert forall|i: int, j: int| 0 <= i < j < entries@.len() implies entries@[i].0@
                    != entries@[j].0@ by {
                    assert(!holds_at(before, event@, i));
                }
                *self = Registry { entries };
                proof {
                    let after = self.entries@;
                    let n = before.len() as int;
                    assert forall|name: Seq<char>, k: int|
                        holds_at(after, name, k) <==> (holds_at(before, name, k) || (k == n
                            && name == event@)) by {}
                    assert forall|name: Seq<char>| #[trigger]
                        self.handlers().dom().contains(name) <==> old(self).handlers().insert(
                            event@,
                            handler,
                        ).dom().contains(name) by {
                        if name == event@ {
                            assert(holds_at(after, name, n));
                        }
                    }
                    assert forall|name: Seq<char>| #[trigger]
                        self.handlers().dom().contains(name) implies self.handlers()[name]
                        == old(self).handlers().insert(event@, handler)[name] by {
                        let k = choose|k: int| holds_at(after, name, k);
                        if name == event@ {
                            assert(holds_at(after, name, n));
                            assert(k == n);
                        } else {
                            let k0 = choose|k: int| holds_at(before, name, k);
                            assert(holds_at(before, name, k));
                            assert(k == k0);
                        }
                    }
                    assert(self.handlers() =~= old(self).handlers().insert(event@, handler));
                }
            },
        }
    }

    /// Takes the entry of `event` out, if there is one. Every other name
    /// keeps its own.
    pub fn remove(&mut self, event: &String) -> (removed: Option<H>)
        ensures
            final(self).handlers() == old(self).handlers().remove(event@),
            match removed {
                Some(h) => old(self).handlers().contains_key(event@) && h == old(
                    self,
                ).handlers()[event@],
                None => !old(self).handlers().contains_key(event@),
            },
    {
        proof {
            use_type_invariant(&*self);
        }
        let ghost before = self.entries@;
        match self.position(event) {
            Some(i) => {
                let mut entries: Vec<(String, H)> = Vec::new();
                std::mem::swap(&mut self.entries, &mut entries);
                let (_, value) = entries.remove(i);
                *self = Registry { entries };
                proof {
                    let after = self.entries@;
                    let at = i as int;
                    assert forall|name: Seq<char>, k: int| holds_at(after, name, k) implies holds_at(
                        before,
                        name,
                        if k < at {
                            k
                        } else {
                            k + 1
                        },
                    ) by {}
                    assert forall|name: Seq<char>, k: int|
                        holds_at(before, name, k) && k != at implies holds_at(
                        after,
                        name,
                        if k < at {
                            k
                        } else {
                            k - 1
                        },
                    ) by {}
                    let k0 = choose|k: int| holds_at(before, event@, k);
                    assert(holds_at(before, event@, at));
                    assert(k0 == at);
                    assert forall|name: Seq<char>| #[trigger]
                        self.handlers().dom().contains(name) <==> old(self).handlers().remove(
                            event@,
                        ).dom().contains(name) by {
                        if self.handlers().dom().contains(name) {
                            let k = choose|k: int| holds_at(after, name, k);
                            let kb = if k < at {
                                k
                            } else {
                                k + 1
                            };
                            assert(holds_at(before, name, kb));
                            assert(name != event@);
                        }
                        if old(self).handlers().remove(event@).dom().contains(name) {
                            let k = choose|k: int| holds_at(before, name, k);
                            assert(k != at);
                            assert(holds_at(after, name, if k < at {
                                k
                            } else {
                                k - 1
                            }));
                        }
                    }
                    assert forall|name: Seq<char>| #[trigger]
                        self.handlers().dom().contains(name) implies self.handlers()[name]
                        == old(self).handlers().remove(event@)[name] by {
                        let k = choose|k: int| holds_at(after, name, k);
                        let kb = if k < at {
                            k
                        } else {
                            k + 1
                        };
                        assert(holds_at(before, name, kb));
                        let k1 = choose|k: int| holds_at(before, name, k);
                        assert(k1 == kb);
                    }
                    assert(self.handlers() =~= old(self).handlers().remove(event@));
                }
                Some(value)
            },
            None => {
                assert(self.handlers() =~= old(self).handlers().remove(event@));
                None
            },
        }
    }

    /// Whether `event` has an entry.
    pub fn contains(&self, event: &String) -> (found: bool)
        ensures
            found == self.handlers().contains_key(event@),
    {
        self.position(event).is_some()
    }

    /// The handler of `event`, if it has one.
    pub fn get(&self, event: &String) -> (handler: Option<&H>)
        ensures
            match handler {
                Some(h) => self.handlers().contains_key(event@) && *h == self.handlers()[event@],
                None => !self.handlers().contains_key(event@),
            },
    {
        proof {
            use_type_invariant(self);
        }
        match self.position(event) {
            Some(i) => {
                proof {
                    let k = choose|k: int| holds_at(self.entries@, event@, k);
                    assert(holds_at(self.entries@, event@, i as int));
                    assert(k == i);
                }
                Some(&self.entries[i].1)
            },
            None => None,
        }
    }
}

/// A registry whose names are distinct holds as many handlers as entries.
proof fn lemma_len<H>(entries: Seq<(String, H)>)
    requires
        forall|i: int, j: int| 0 <= i < j < entries.len() ==> entries[i].0@ != entries[j].0@,
    ensures
        Set::new(|name: Seq<char>| exists|i: int| holds_at(entries, name, i)).finite(),
        Set::new(|name: Seq<char>| exists|i: int| holds_at(entries, name, i)).len()
            == entries.len(),
    decreases entries.len(),
{
    let names = Set::new(|name: Seq<char>| exists|i: int| holds_at(entries, name, i));
    if entries.len() == 0 {
        assert(names =~= Set::<Seq<char>>::empty());
    } else {
        let front = entries.drop_last();
        let last = entries.last().0@;
        lemma_len(front);
        let front_names = Set::new(|name: Seq<char>| exists|i: int| holds_at(front, name, i));
        assert forall|name: Seq<char>| names.contains(name) <==> front_names.insert(
            last,
        ).contains(name) by {
            if names.contains(name) {
                let i = choose|i: int| holds_at(entries, name, i);
                if i < entries.len() - 1 {
                    assert(holds_at(front, name, i));
                }
            }
            if front_names.contains(name) {
                let i = choose|i: int| holds_at(front, name, i);
                assert(holds_at(entries, name, i));
            }
            if name == last {
                assert(holds_at(entries, name, entries.len() - 1));
            }
        }
        assert(names =~= front_names.insert(last));
        assert(!front_names.contains(last)) by {
            if front_names.contains(last) {
                let i = choose|i: int| holds_at(front, last, i);
                assert(entries[i].0@ != entries[entries.len() - 1].0@);
            }
        }
    }
}

} // verus!
