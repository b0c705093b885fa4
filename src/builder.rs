use vstd::prelude::*;

use crate::data::{keys_unique, lemma_table_get_unique, table_get, Data, Lambda};

verus! {

/// The position of the entry holding `key`, or the number of entries when none does.
fn index_of(data: &Vec<(String, Data)>, key: &String) -> (r: usize)
    ensures
        r <= data.len(),
        forall|j: int| 0 <= j < r ==> data@[j].0@ != key@,
        r < data.len() ==> data@[r as int].0@ == key@,
{
    let mut i: usize = 0;
    while i < data.len()
        invariant
            i <= data.len(),
            forall|j: int| 0 <= j < i ==> data@[j].0@ != key@,
        decreases data.len() - i,
    {
        if data[i].0 == *key {
            return i;
        }
        i = i + 1;
    }
    i
}

/// Stores `value` under `key`, in place of any value already there.
pub(crate) fn put(data: &mut Vec<(String, Data)>, key: String, value: Data)
    requires
        keys_unique(old(data)@),
    ensures
        keys_unique(final(data)@),
        table_get(final(data)@, key@) == Some(value),
        forall|k: Seq<char>| k != key@ ==> table_get(final(data)@, k) == table_get(old(data)@, k),
        forall|a: int|
            0 <= a < final(data)@.len() ==> (#[trigger] final(data)@[a]).1 == value || exists|b: int|
                0 <= b < old(data)@.len() && final(data)@[a].1 == old(data)@[b].1,
{
    let ghost key_v = key@;
    let i = index_of(data, &key);
    let ghost mid = data@;
    if i < data.len() {
        data.remove(i);
        assert(keys_unique(data@)) by {
            assert forall|a: int, b: int| 0 <= a < b < data@.len() implies data@[a].0@
                != data@[b].0@ by {
                let a0 = if a < i { a } else { a + 1 };
                let b0 = if b < i { b } else { b + 1 };
                assert(data@[a] == mid[a0] && data@[b] == mid[b0]);
            }
        }
    }
    let ghost before = data@;
    assert forall|j: int| 0 <= j < before.len() implies before[j].0@ != key_v by {
        if i < mid.len() {
            let j0 = if j < i { j } else { j + 1 };
            assert(before[j] == mid[j0]);
        }
    }
    data.push((key, value));
    assert forall|a: int|
        0 <= a < data@.len() implies (#[trigger] data@[a]).1 == value || exists|b: int|
            0 <= b < old(data)@.len() && data@[a].1 == old(data)@[b].1 by {
        if a < before.len() {
            assert(data@[a] == before[a]);
            if i < mid.len() {
                let a0 = if a < i { a } else { a + 1 };
                assert(before[a] == mid[a0]);
            } else {
                assert(before[a] == mid[a]);
            }
        }
    }
    assert(keys_unique(data@)) by {
        assert forall|a: int, b: int| 0 <= a < b < data@.len() implies data@[a].0@
            != data@[b].0@ by {
            assert(data@[a] == before[a]);
            if b < before.len() {
                assert(data@[b] == before[b]);
            }
        }
    }
    proof {
        lemma_table_get_unique(data@, key_v);
        assert(data@[data@.len() - 1] == (key, value));
        assert forall|k: Seq<char>| k != key_v implies table_get(data@, k) == table_get(
            old(data)@,
            k,
        ) by {
            lemma_table_get_unique(data@, k);
            lemma_table_get_unique(old(data)@, k);
            lemma_table_get_unique(before, k);
            if exists|j: int| 0 <= j < old(data)@.len() && old(data)@[j].0@ == k {
                let j = choose|j: int| 0 <= j < old(data)@.len() && old(data)@[j].0@ == k;
                assert(old(data)@ == mid);
                if i < mid.len() {
                    assert(j != i);
                    let j1 = if j < i { j } else { j - 1 };
                    assert(before[j1] == mid[j]);
                    assert(data@[j1] == before[j1]);
                } else {
                    assert(data@[j] == mid[j]);
                }
            } else {
                assert forall|j: int| 0 <= j < data@.len() implies data@[j].0@ != k by {
                    if j < before.len() {
                        assert(data@[j] == before[j]);
                        if i < mid.len() {
                            let j0 = if j < i { j } else { j + 1 };
                            assert(before[j] == mid[j0]);
                        } else {
                            assert(before[j] == mid[j]);
                        }
                    }
                }
            }
        }
    }
}

/// A callback as a value.
fn fun_value<F: Lambda + 'static>(f: F) -> (r: Data)
    ensures
        r is Fun,
{
    Data::Fun(Box::new(f))
}

/// Builds a table value one entry at a time.
pub struct MapBuilder {
    data: Vec<(String, Data)>,
}

/// `r` holds what `old` holds, with `value` under `key`.
pub open spec fn stored(old: Seq<(String, Data)>, r: Seq<(String, Data)>, key: Seq<char>, value: Data) -> bool {
    &&& keys_unique(r)
    &&& table_get(r, key) == Some(value)
    &&& forall|k: Seq<char>| k != key ==> table_get(r, k) == table_get(old, k)
}

impl MapBuilder {
    /// The entries gathered so far.
    pub closed spec fn entries(&self) -> Seq<(String, Data)> {
        self.data@
    }

    #[verifier::type_invariant]
    closed spec fn wf(&self) -> bool {
        keys_unique(self.data@)
    }

    /// A builder with no entries.
    pub fn new() -> (r: MapBuilder)
        ensures
            r.entries().len() == 0,
    {
        MapBuilder { data: Vec::new() }
    }

    fn with(self, key: String, value: Data) -> (r: MapBuilder)
        ensures
            stored(self.entries(), r.entries(), key@, value),
    {
        proof {
            use_type_invariant(&self);
        }
        let MapBuilder { mut data } = self;
        put(&mut data, key, value);
        MapBuilder { data }
    }

    /// Adds a string under `key`.
    pub fn insert_str(self, key: String, value: String) -> (r: MapBuilder)
        ensures
            stored(self.entries(), r.entries(), key@, Data::Str(value)),
    {
        self.with(key, Data::Str(value))
    }

    /// Adds a boolean under `key`.
    pub fn insert_bool(self, key: String, value: bool) -> (r: MapBuilder)
        ensures
            stored(self.entries(), r.entries(), key@, Data::Bool(value)),
    {
        self.with(key, Data::Bool(value))
    }

    /// Adds under `key` the list that `f` builds from an empty `VecBuilder`.
    pub fn insert_vec<F: FnOnce(VecBuilder) -> VecBuilder>(self, key: String, f: F) -> (r: MapBuilder)
        requires
            forall|b: VecBuilder| f.requires((b,)),
        ensures
            exists|b0: VecBuilder, b: VecBuilder, v: Vec<Data>|
                b0.items().len() == 0 && f.ensures((b0,), b) && v@ == b.items() && stored(
                    self.entries(),
                    r.entries(),
                    key@,
                    Data::Vec(v),
                ),
    {
        let b0 = VecBuilder::new();
        let ghost g0 = b0;
        let b = f(b0);
        let v = b.build();
        self.with(key, v)
    }

    /// Adds under `key` the table that `f` builds from an empty `MapBuilder`.
    pub fn insert_map<F: FnOnce(MapBuilder) -> MapBuilder>(self, key: String, f: F) -> (r: MapBuilder)
        requires
            forall|b: MapBuilder| f.requires((b,)),
        ensures
            exists|b0: MapBuilder, b: MapBuilder, t: Vec<(String, Data)>|
                b0.entries().len() == 0 && f.ensures((b0,), b) && t@ == b.entries() && stored(
                    self.entries(),
                    r.entries(),
                    key@,
                    Data::Table(t),
                ),
    {
        let b0 = MapBuilder::new();
        let ghost g0 = b0;
        let b = f(b0);
        let t = b.build();
        self.with(key, t)
    }

    /// Adds any value under `key`.
    pub fn insert_data(self, key: String, value: Data) -> (r: MapBuilder)
        ensures
            stored(self.entries(), r.entries(), key@, value),
    {
        self.with(key, value)
    }

    /// Adds a callback under `key`.
    pub fn insert_fn<F: Lambda + 'static>(self, key: String, f: F) -> (r: MapBuilder)
        ensures
            keys_unique(r.entries()),
            table_get(r.entries(), key@) matches Some(Data::Fun(_)),
            forall|k: Seq<char>| k != key@ ==> table_get(r.entries(), k) == table_get(self.entries(), k),
    {
        self.with(key, fun_value(f))
    }

    /// The table built.
    pub fn build(self) -> (r: Data)
        ensures
            r matches Data::Table(t) && t@ == self.entries() && keys_unique(t@),
    {
        proof {
            use_type_invariant(&self);
        }
        Data::Table(self.data)
    }
}

/// Builds a list value one item at a time.
pub struct VecBuilder {
    data: Vec<Data>,
}

impl VecBuilder {
    /// The items gathered so far.
    pub closed spec fn items(&self) -> Seq<Data> {
        self.data@
    }

    /// A builder with no items.
    pub fn new() -> (r: VecBuilder)
        ensures
            r.items().len() == 0,
    {
        VecBuilder { data: Vec::new() }
    }

    fn with(self, value: Data) -> (r: VecBuilder)
        ensures
            r.items() == self.items().push(value),
    {
        let VecBuilder { mut data } = self;
        data.push(value);
        VecBuilder { data }
    }

    /// Adds a string.
    pub fn push_str(self, value: String) -> (r: VecBuilder)
        ensures
            r.items() == self.items().push(Data::Str(value)),
    {
        self.with(Data::Str(value))
    }

    /// Adds a boolean.
    pub fn push_bool(self, value: bool) -> (r: VecBuilder)
        ensures
            r.items() == self.items().push(Data::Bool(value)),
    {
        self.with(Data::Bool(value))
    }

    /// Adds the list that `f` builds from an empty `VecBuilder`.
    pub fn push_vec<F: FnOnce(VecBuilder) -> VecBuilder>(self, f: F) -> (r: VecBuilder)
        requires
            forall|b: VecBuilder| f.requires((b,)),
        ensures
            exists|b0: VecBuilder, b: VecBuilder, v: Vec<Data>|
                b0.items().len() == 0 && f.ensures((b0,), b) && v@ == b.items() && r.items()
                    == self.items().push(Data::Vec(v)),
    {
        let b0 = VecBuilder::new();
        let b = f(b0);
        let v = b.build();
        self.with(v)
    }

    /// Adds the table that `f` builds from an empty `MapBuilder`.
    pub fn push_map<F: FnOnce(MapBuilder) -> MapBuilder>(self, f: F) -> (r: VecBuilder)
        requires
            forall|b: MapBuilder| f.requires((b,)),
        ensures
            exists|b0: MapBuilder, b: MapBuilder, t: Vec<(String, Data)>|
                b0.entries().len() == 0 && f.ensures((b0,), b) && t@ == b.entries() && r.items()
                    == self.items().push(Data::Table(t)),
    {
        let b0 = MapBuilder::new();
        let b = f(b0);
        let t = b.build();
        self.with(t)
    }

    /// Adds any value.
    pub fn push_data(self, value: Data) -> (r: VecBuilder)
        ensures
            r.items() == self.items().push(value),
    {
        self.with(value)
    }

    /// Adds a callback.
    pub fn push_fn<F: Lambda + 'static>(self, f: F) -> (r: VecBuilder)
        ensures
            r.items().len() == self.items().len() + 1,
            r.items().drop_last() == self.items(),
            r.items().last() is Fun,
    {
        let ghost before = self.items();
        let b = self.with(fun_value(f));
        assert(b.items().drop_last() =~= before);
        b
    }

    /// The list built.
    pub fn build(self) -> (r: Data)
        ensures
            r matches Data::Vec(v) && v@ == self.items(),
    {
        Data::Vec(self.data)
    }
}

} // verus!
