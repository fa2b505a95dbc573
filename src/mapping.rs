//! The key/value mapping that generation produces.
use vstd::prelude::*;

verus! {

/// A value of the mapping: a string leaf, or a value wrapped one level deeper.
/// Generation builds leaves alone.
#[derive(Debug)]
pub enum Item {
    Text(String),
    Nested(Box<Item>),
}

impl Item {
    /// The string that a value stands for: a leaf's text, or that of the
    /// value it wraps.
    pub open spec fn text(&self) -> Seq<char>
        decreases self,
    {
        match self {
            Item::Text(s) => s@,
            Item::Nested(inner) => inner.text(),
        }
    }

    pub fn to_string(&self) -> (r: String)
        ensures
            r@ == self.text(),
        decreases self,
    {
        match self {
            Item::Text(s) => s.clone(),
            Item::Nested(inner) => inner.to_string(),
        }
    }
}

/// Entries of a mapping in order: key and value.
pub type Entries = Seq<(Seq<char>, Seq<char>)>;

/// No key occurs twice.
pub open spec fn keys_unique(es: Entries) -> bool {
    forall|i: int, j: int| 0 <= i < j < es.len() ==> (#[trigger] es[i]).0 != (#[trigger] es[j]).0
}

/// Sets `k` to `v`: an entry with key `k` keeps its place and takes the new
/// value; otherwise the entry goes at the end.
pub open spec fn upsert(es: Entries, k: Seq<char>, v: Seq<char>) -> Entries
    decreases es.len(),
{
    if es.len() == 0 {
        seq![(k, v)]
    } else if es[0].0 == k {
        es.update(0, (k, v))
    } else {
        seq![es[0]] + upsert(es.drop_first(), k, v)
    }
}

/// The value of the first entry with key `k`.
pub open spec fn lookup(es: Entries, k: Seq<char>) -> Option<Seq<char>>
    decreases es.len(),
{
    if es.len() == 0 {
        None
    } else if es[0].0 == k {
        Some(es[0].1)
    } else {
        lookup(es.drop_first(), k)
    }
}

/// Keys with their values, in the order in which each key first came.
#[derive(Debug)]
pub struct Mapping {
    entries: Vec<(String, Item)>,
}

impl View for Mapping {
    type V = Entries;

    closed spec fn view(&self) -> Entries {
        self.entries@.map_values(|e: (String, Item)| (e.0@, e.1.text()))
    }
}

proof fn lemma_upsert_at(es: Entries, k: Seq<char>, v: Seq<char>, i: int)
    requires
        0 <= i < es.len(),
        es[i].0 == k,
        forall|j: int| 0 <= j < i ==> (#[trigger] es[j]).0 != k,
    ensures
        upsert(es, k, v) == es.update(i, (k, v)),
    decreases i,
{
    if i > 0 {
        let rest = es.drop_first();
        assert forall|j: int| 0 <= j < i - 1 implies (#[trigger] rest[j]).0 != k by {
            assert(rest[j] == es[j + 1]);
        }
        lemma_upsert_at(rest, k, v, i - 1);
        assert(upsert(es, k, v) =~= es.update(i, (k, v)));
    }
}

proof fn lemma_upsert_new(es: Entries, k: Seq<char>, v: Seq<char>)
    requires
        forall|j: int| 0 <= j < es.len() ==> (#[trigger] es[j]).0 != k,
    ensures
        upsert(es, k, v) == es.push((k, v)),
    decreases es.len(),
{
    if es.len() > 0 {
        let rest = es.drop_first();
        assert forall|j: int| 0 <= j < rest.len() implies (#[trigger] rest[j]).0 != k by {
            assert(rest[j] == es[j + 1]);
        }
        lemma_upsert_new(rest, k, v);
        assert(upsert(es, k, v) =~= es.push((k, v)));
    }
}

proof fn lemma_lookup_from(es: Entries, k: Seq<char>, i: int)
    requires
        0 <= i <= es.len(),
        forall|j: int| 0 <= j < i ==> (#[trigger] es[j]).0 != k,
    ensures
        lookup(es, k) == lookup(es.subrange(i, es.len() as int), k),
    decreases i,
{
    if i == 0 {
        assert(es.subrange(0, es.len() as int) =~= es);
    } else {
        let rest = es.drop_first();
        assert forall|j: int| 0 <= j < i - 1 implies (#[trigger] rest[j]).0 != k by {
            assert(rest[j] == es[j + 1]);
        }
        lemma_lookup_from(rest, k, i - 1);
        assert(rest.subrange(i - 1, rest.len() as int) =~= es.subrange(i, es.len() as int));
    }
}

/// Setting a key never duplicates it.
pub proof fn lemma_upsert_keeps_keys_unique(es: Entries, k: Seq<char>, v: Seq<char>)
    requires
        keys_unique(es),
    ensures
        keys_unique(upsert(es, k, v)),
    decreases es.len(),
{
    if es.len() > 0 && es[0].0 != k {
        let rest = es.drop_first();
        assert(keys_unique(rest)) by {
            assert forall|i: int, j: int| 0 <= i < j < rest.len() implies (#[trigger] rest[i]).0 != (#[trigger] rest[j]).0 by {
                assert(rest[i] == es[i + 1] && rest[j] == es[j + 1]);
            }
        }
        lemma_upsert_keeps_keys_unique(rest, k, v);
        lemma_upsert_keys(rest, k, v);
        let us = upsert(es, k, v);
        assert forall|i: int, j: int| 0 <= i < j < us.len() implies (#[trigger] us[i]).0 != (#[trigger] us[j]).0 by {
            if i == 0 {
                let r = upsert(rest, k, v);
                assert(us[j] == r[j - 1]);
                if r[j - 1].0 != k {
                    let m = choose|m: int| 0 <= m < rest.len() && rest[m].0 == r[j - 1].0;
                    assert(rest[m] == es[m + 1]);
                }
            } else {
                assert(us[i] == upsert(rest, k, v)[i - 1]);
                assert(us[j] == upsert(rest, k, v)[j - 1]);
            }
        }
    } else if es.len() > 0 {
        let us = upsert(es, k, v);
        assert forall|i: int, j: int| 0 <= i < j < us.len() implies (#[trigger] us[i]).0 != (#[trigger] us[j]).0 by {
            assert(es[i].0 != es[j].0);
        }
    }
}

/// Each key after setting `k` is `k` or was there before.
proof fn lemma_upsert_keys(es: Entries, k: Seq<char>, v: Seq<char>)
    ensures
        forall|i: int|
            0 <= i < upsert(es, k, v).len() ==> (#[trigger] upsert(es, k, v)[i]).0 == k || exists|m: int|
                0 <= m < es.len() && es[m].0 == upsert(es, k, v)[i].0,
    decreases es.len(),
{
    let us = upsert(es, k, v);
    if es.len() > 0 && es[0].0 != k {
        let rest = es.drop_first();
        lemma_upsert_keys(rest, k, v);
        assert forall|i: int| 0 <= i < us.len() implies (#[trigger] us[i]).0 == k || exists|m: int|
            0 <= m < es.len() && es[m].0 == us[i].0 by {
            if i == 0 {
                assert(es[0].0 == us[0].0);
            } else {
                assert(us[i] == upsert(rest, k, v)[i - 1]);
                if us[i].0 != k {
                    let m = choose|m: int| 0 <= m < rest.len() && rest[m].0 == us[i].0;
                    assert(rest[m] == es[m + 1]);
                }
            }
        }
    } else if es.len() > 0 {
        assert forall|i: int| 0 <= i < us.len() implies (#[trigger] us[i]).0 == k || exists|m: int|
            0 <= m < es.len() && es[m].0 == us[i].0 by {
            if i != 0 {
                assert(es[i].0 == us[i].0);
            }
        }
    }
}

/// After setting `k` to `v`, `k` looks up to `v` and every other key to
/// what it did before: the last write of a key wins.
pub proof fn lemma_lookup_upsert(es: Entries, k: Seq<char>, v: Seq<char>, other: Seq<char>)
    ensures
        lookup(upsert(es, k, v), k) == Some(v),
        other != k ==> lookup(upsert(es, k, v), other) == lookup(es, other),
    decreases es.len(),
{
    if es.len() > 0 && es[0].0 != k {
        lemma_lookup_upsert(es.drop_first(), k, v, other);
        assert((seq![es[0]] + upsert(es.drop_first(), k, v)).drop_first() =~= upsert(es.drop_first(), k, v));
    } else if es.len() > 0 {
        assert(upsert(es, k, v).drop_first() =~= es.drop_first());
    } else {
        assert(upsert(es, k, v).drop_first() =~= es);
    }
}

impl Mapping {
    pub fn new() -> (r: Mapping)
        ensures
            r@ == Seq::<(Seq<char>, Seq<char>)>::empty(),
            keys_unique(r@),
    {
        let r = Mapping { entries: Vec::new() };
        assert(r@ =~= Seq::<(Seq<char>, Seq<char>)>::empty());
        r
    }

    pub fn len(&self) -> (r: usize)
        ensures
            r == self@.len(),
    {
        self.entries.len()
    }

    /// Sets `key` to `value`, in place where `key` is already present and at
    /// the end otherwise.
    pub fn insert(&mut self, key: String, value: Item)
        ensures
            final(self)@ == upsert(old(self)@, key@, value.text()),
            keys_unique(old(self)@) ==> keys_unique(final(self)@),
    {
        let ghost es = self@;
        proof {
            if keys_unique(es) {
                lemma_upsert_keeps_keys_unique(es, key@, value.text());
            }
        }
        let mut i: usize = 0;
        while i < self.entries.len()
            invariant
                i <= self.entries.len(),
                self@ == es,
                es == old(self)@,
                keys_unique(es) ==> keys_unique(upsert(es, key@, value.text())),
                forall|j: int| 0 <= j < i ==> (#[trigger] es[j]).0 != key@,
            decreases self.entries.len() - i,
        {
            if self.entries[i].0 == key {
                proof {
                    lemma_upsert_at(es, key@, value.text(), i as int);
                if keys_unique(es) {
                    lemma_upsert_keeps_keys_unique(es, key@, value.text());
                }
                }
                let ghost k = key@;
                let ghost t = value.text();
                self.entries.set(i, (key, value));
                assert(self@ =~= es.update(i as int, (k, t)));
                return;
            }
            i = i + 1;
        }
        proof {
            lemma_upsert_new(es, key@, value.text());
        }
        let ghost k = key@;
        let ghost t = value.text();
        self.entries.push((key, value));
        assert(self@ =~= es.push((k, t)));
    }

    /// The value of `key`, if present.
    pub fn get(&self, key: &String) -> (r: Option<&Item>)
        ensures
            r is None ==> lookup(self@, key@) is None,
            r is Some ==> lookup(self@, key@) == Some(r->Some_0.text()),
    {
        let mut i: usize = 0;
        while i < self.entries.len()
            invariant
                i <= self.entries.len(),
                forall|j: int| 0 <= j < i ==> (#[trigger] self@[j]).0 != key@,
            decreases self.entries.len() - i,
        {
            if self.entries[i].0 == *key {
                proof {
                    lemma_lookup_from(self@, key@, i as int);
                }
                return Some(&self.entries[i].1);
            }
            i = i + 1;
        }
        proof {
            lemma_lookup_from(self@, key@, i as int);
        }
        None
    }

    /// The key of the entry at `i`.
    pub fn key_at(&self, i: usize) -> (r: &String)
        requires
            i < self@.len(),
        ensures
            r@ == self@[i as int].0,
    {
        &self.entries[i].0
    }

    /// The value of the entry at `i`.
    pub fn value_at(&self, i: usize) -> (r: &Item)
        requires
            i < self@.len(),
        ensures
            r.text() == self@[i as int].1,
    {
        &self.entries[i].1
    }
}

} // verus!
