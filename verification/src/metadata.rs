//! String-keyed metadata attached to memories, edges and entities.

use vstd::prelude::*;

verus! {

/// The mathematical model of a metadata map: an association list in
/// insertion order.
pub type MetaView = Seq<(Seq<char>, serde_json::Value)>;

/// Position of the first entry at or after `from` whose key is `key`.
pub open spec fn meta_find(m: MetaView, key: Seq<char>, from: int) -> Option<int>
    decreases m.len() - from,
{
    if from < 0 || from >= m.len() {
        None
    } else if m[from].0 == key {
        Some(from)
    } else {
        meta_find(m, key, from + 1)
    }
}

/// The value stored under `key`, if any.
pub open spec fn meta_get(m: MetaView, key: Seq<char>) -> Option<serde_json::Value> {
    match meta_find(m, key, 0) {
        Some(i) => Some(m[i].1),
        None => None,
    }
}

/// `m` with `key` bound to `value`: an existing binding is overwritten in
/// place, a new one is appended.
pub open spec fn meta_put(m: MetaView, key: Seq<char>, value: serde_json::Value) -> MetaView {
    match meta_find(m, key, 0) {
        Some(i) => m.update(i, (key, value)),
        None => m.push((key, value)),
    }
}

/// `base` after every binding of `patch` has been put into it, in order:
/// the last write of a key wins.
pub open spec fn meta_merge(base: MetaView, patch: MetaView) -> MetaView
    decreases patch.len(),
{
    if patch.len() == 0 {
        base
    } else {
        meta_merge(meta_put(base, patch[0].0, patch[0].1), patch.drop_first())
    }
}

/// No key occurs twice.
pub open spec fn meta_distinct(m: MetaView) -> bool {
    forall|i: int, j: int| 0 <= i < j < m.len() ==> (#[trigger] m[i]).0 != (#[trigger] m[j]).0
}

/// What `meta_find` finds is the first entry with the key, and it finds
/// nothing only if there is none.
pub proof fn lemma_meta_find(m: MetaView, key: Seq<char>, from: int)
    requires
        0 <= from <= m.len(),
    ensures
        match meta_find(m, key, from) {
            Some(i) => from <= i < m.len() && m[i].0 == key && forall|j: int|
                from <= j < i ==> (#[trigger] m[j]).0 != key,
            None => forall|j: int| from <= j < m.len() ==> (#[trigger] m[j]).0 != key,
        },
    decreases m.len() - from,
{
    if from < m.len() && m[from].0 != key {
        lemma_meta_find(m, key, from + 1);
    }
}

/// After a put the key reads back the value that was put, every other key
/// reads as before, and keys that were distinct stay distinct.
pub proof fn lemma_meta_put(m: MetaView, key: Seq<char>, value: serde_json::Value)
    ensures
        meta_distinct(m) ==> meta_distinct(meta_put(m, key, value)),
        meta_get(meta_put(m, key, value), key) == Some(value),
        forall|other: Seq<char>|
            other != key ==> #[trigger] meta_get(meta_put(m, key, value), other) == meta_get(
                m,
                other,
            ),
{
    let r = meta_put(m, key, value);
    lemma_meta_find(m, key, 0);
    lemma_meta_find(r, key, 0);
    let at: int = match meta_find(m, key, 0) {
        Some(i) => i,
        None => m.len() as int,
    };
    assert(r.len() > at && r[at] == (key, value));
    assert(forall|j: int| 0 <= j < r.len() && j != at ==> r[j] == m[j]);
    assert(meta_find(r, key, 0) == Some(at)) by {
        if let Some(k) = meta_find(r, key, 0) {
            if k < at {
                assert(m[k].0 != key);
            }
        }
    }
    assert forall|other: Seq<char>| other != key implies #[trigger] meta_get(r, other)
        == meta_get(m, other) by {
        lemma_meta_find(m, other, 0);
        lemma_meta_find(r, other, 0);
        match meta_find(m, other, 0) {
            Some(a) => {
                assert(r[a] == m[a]);
                if let Some(b) = meta_find(r, other, 0) {
                    if b < a {
                        assert(m[b].0 != other);
                    }
                }
            },
            None => {
                if let Some(b) = meta_find(r, other, 0) {
                    assert(m[b].0 != other);
                }
            },
        }
    }
}

/// One binding of a metadata map.
#[derive(Debug, Clone)]
pub struct MetaEntry {
    pub key: String,
    pub value: serde_json::Value,
}

/// A small map from string keys to JSON values, kept in insertion order.
#[derive(Debug, Clone)]
pub struct Metadata {
    entries: Vec<MetaEntry>,
}

impl View for Metadata {
    type V = MetaView;

    closed spec fn view(&self) -> MetaView {
        Seq::new(self.entries@.len(), |i: int| (self.entries@[i].key@, self.entries@[i].value))
    }
}

impl Metadata {
    /// The model, entry by entry.
    proof fn lemma_view(&self)
        ensures
            self@.len() == self.entries@.len(),
            forall|i: int|
                0 <= i < self.entries@.len() ==> #[trigger] self@[i] == (
                    self.entries@[i].key@,
                    self.entries@[i].value,
                ),
    {
    }

    /// Every key is bound once.
    pub open spec fn wf(&self) -> bool {
        meta_distinct(self@)
    }

    /// The empty map.
    pub fn new() -> (r: Metadata)
        ensures
            r@ == Seq::<(Seq<char>, serde_json::Value)>::empty(),
            r.wf(),
    {
        let r = Metadata { entries: Vec::new() };
        assert(r@ =~= Seq::<(Seq<char>, serde_json::Value)>::empty());
        r
    }

    /// Number of bindings.
    pub fn len(&self) -> (n: usize)
        ensures
            n == self@.len(),
    {
        self.entries.len()
    }

    /// Key of the `i`-th binding.
    pub fn key_at(&self, i: usize) -> (k: String)
        requires
            i < self@.len(),
        ensures
            k@ == self@[i as int].0,
    {
        self.entries[i].key.clone()
    }

    /// Value of the `i`-th binding.
    pub fn value_at(&self, i: usize) -> (v: serde_json::Value)
        requires
            i < self@.len(),
        ensures
            v == self@[i as int].1,
    {
        self.entries[i].value.clone()
    }

    /// Position of the binding of `key`.
    fn position(&self, key: &String) -> (r: Option<usize>)
        ensures
            match r {
                Some(i) => i < self@.len() && meta_find(self@, key@, 0) == Some(i as int),
                None => meta_find(self@, key@, 0).is_none(),
            },
    {
        proof {
            self.lemma_view();
            lemma_meta_find(self@, key@, 0);
        }
        let mut i: usize = 0;
        while i < self.entries.len()
            invariant
                i <= self.entries@.len(),
                self@.len() == self.entries@.len(),
                forall|j: int|
                    0 <= j < self.entries@.len() ==> #[trigger] self@[j] == (
                        self.entries@[j].key@,
                        self.entries@[j].value,
                    ),
                forall|j: int| 0 <= j < i ==> (#[trigger] self@[j]).0 != key@,
            decreases self.entries@.len() - i,
        {
            if self.entries[i].key == *key {
                proof {
                    assert(self@[i as int].0 == key@);
                    lemma_meta_find(self@, key@, 0);
                }
                return Some(i);
            }
            assert(self@[i as int].0 != key@);
            i += 1;
        }
        proof {
            lemma_meta_find(self@, key@, 0);
        }
        None
    }

    /// The value bound to `key`, if there is one.
    pub fn get(&self, key: &String) -> (r: Option<serde_json::Value>)
        ensures
            r == meta_get(self@, key@),
    {
        proof {
            self.lemma_view();
        }
        match self.position(key) {
            Some(i) => Some(self.entries[i].value.clone()),
            None => None,
        }
    }

    /// Binds `key` to `value`, overwriting an earlier binding of `key`.
    pub fn insert(&mut self, key: String, value: serde_json::Value)
        ensures
            final(self)@ == meta_put(old(self)@, key@, value),
            old(self).wf() ==> final(self).wf(),
    {
        proof {
            self.lemma_view();
            lemma_meta_put(self@, key@, value);
        }
        match self.position(&key) {
            Some(i) => {
                self.entries.set(i, MetaEntry { key, value });
            },
            None => {
                self.entries.push(MetaEntry { key, value });
            },
        }
        proof {
            self.lemma_view();
        }
        assert(self@ =~= meta_put(old(self)@, key@, value));
    }

    /// A copy of this map.
    pub fn duplicate(&self) -> (r: Metadata)
        ensures
            r@ == self@,
    {
        let mut entries: Vec<MetaEntry> = Vec::new();
        let mut i: usize = 0;
        while i < self.entries.len()
            invariant
                i <= self.entries@.len(),
                entries@.len() == i,
                forall|j: int|
                    0 <= j < i ==> (#[trigger] entries@[j]).key@ == self.entries@[j].key@
                        && entries@[j].value == self.entries@[j].value,
            decreases self.entries@.len() - i,
        {
            entries.push(
                MetaEntry { key: self.entries[i].key.clone(), value: self.entries[i].value.clone() },
            );
            i += 1;
        }
        let r = Metadata { entries };
        proof {
            self.lemma_view();
            r.lemma_view();
        }
        assert(r@ =~= self@);
        r
    }

    /// This map with every binding of `patch` written over it.
    pub fn merged_with(&self, patch: &Metadata) -> (r: Metadata)
        ensures
            r@ == meta_merge(self@, patch@),
            self.wf() ==> r.wf(),
    {
        let mut r = self.duplicate();
        proof {
            patch.lemma_view();
            assert(patch@.skip(0) =~= patch@);
        }
        let mut i: usize = 0;
        while i < patch.entries.len()
            invariant
                i <= patch.entries@.len(),
                self.wf() ==> r.wf(),
                patch@.len() == patch.entries@.len(),
                forall|j: int|
                    0 <= j < patch.entries@.len() ==> #[trigger] patch@[j] == (
                        patch.entries@[j].key@,
                        patch.entries@[j].value,
                    ),
                meta_merge(r@, patch@.skip(i as int)) == meta_merge(self@, patch@),
            decreases patch.entries@.len() - i,
        {
            let ghost before = r@;
            r.insert(patch.entries[i].key.clone(), patch.entries[i].value.clone());
            proof {
                let rest = patch@.skip(i as int);
                assert(rest[0] == patch@[i as int]);
                assert(rest.drop_first() =~= patch@.skip(i + 1));
            }
            i += 1;
        }
        assert(patch@.skip(i as int).len() == 0);
        r
    }
}

} // verus!
