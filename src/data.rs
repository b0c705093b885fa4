use vstd::prelude::*;

verus! {

/// A callback value: it receives text and answers text, and may keep state
/// between calls (a counter, say).
pub trait Lambda {
    fn call(&self, text: String) -> String;
}

/// The values a template is rendered against.
pub enum Data {
    Str(String),
    Bool(bool),
    Vec(Vec<Data>),
    /// Keyed entries; a key stands at most once (see `keys_unique`).
    Table(Vec<(String, Data)>),
    Fun(Box<dyn Lambda>),
}

/// The value stored under `key`: the first entry with that key.
pub open spec fn table_get(t: Seq<(String, Data)>, key: Seq<char>) -> Option<Data>
    decreases t.len(),
{
    if t.len() == 0 {
        None
    } else if t[0].0@ == key {
        Some(t[0].1)
    } else {
        table_get(t.drop_first(), key)
    }
}

/// No key stands twice among the entries.
pub open spec fn keys_unique(t: Seq<(String, Data)>) -> bool {
    forall|i: int, j: int| 0 <= i < j < t.len() ==> t[i].0@ != t[j].0@
}

/// A callback occurs somewhere in the value.
pub open spec fn has_fun(d: Data) -> bool
    decreases d,
{
    match d {
        Data::Fun(_) => true,
        Data::Vec(v) => exists|i: int| 0 <= i < v.len() && has_fun(#[trigger] v@[i]),
        Data::Table(t) => exists|i: int| 0 <= i < t.len() && has_fun(#[trigger] t@[i].1),
        _ => false,
    }
}

/// A list holds a callback when one of its items does.
pub proof fn lemma_item_fun(v: Vec<Data>, i: int)
    requires
        0 <= i < v.len(),
        has_fun(v@[i]),
    ensures
        has_fun(Data::Vec(v)),
{
    let d = Data::Vec(v);
    assert(d matches Data::Vec(w) && w == v);
}

/// With unique keys, the value under a key is the one of the entry holding it.
pub proof fn lemma_table_get_unique(t: Seq<(String, Data)>, key: Seq<char>)
    requires
        keys_unique(t),
    ensures
        forall|i: int| 0 <= i < t.len() && t[i].0@ == key ==> table_get(t, key) == Some(t[i].1),
        (forall|i: int| 0 <= i < t.len() ==> t[i].0@ != key) ==> table_get(t, key) is None,
    decreases t.len(),
{
    if t.len() > 0 {
        let rest = t.drop_first();
        assert(keys_unique(rest)) by {
            assert forall|i: int, j: int| 0 <= i < j < rest.len() implies rest[i].0@ != rest[j].0@ by {
                assert(rest[i] == t[i + 1] && rest[j] == t[j + 1]);
            }
        }
        lemma_table_get_unique(rest, key);
        assert forall|i: int| 0 <= i < t.len() && t[i].0@ == key implies table_get(t, key) == Some(
            t[i].1,
        ) by {
            if i > 0 {
                assert(rest[i - 1] == t[i]);
            }
        }
        if forall|i: int| 0 <= i < t.len() ==> t[i].0@ != key {
            assert forall|i: int| 0 <= i < rest.len() implies rest[i].0@ != key by {
                assert(rest[i] == t[i + 1]);
            }
        }
    }
}

/// A table holds a callback when one of its values does.
pub proof fn lemma_entry_fun(t: Vec<(String, Data)>, i: int)
    requires
        0 <= i < t.len(),
        has_fun(t@[i].1),
    ensures
        has_fun(Data::Table(t)),
{
    let d = Data::Table(t);
    assert(d matches Data::Table(w) && w == t);
}

/// Structural equality of values without callbacks: tables are equal when they
/// have as many entries, each key of the first holds an equal value in the
/// second, and each key of the second is in the first.
pub open spec fn data_eq(a: Data, b: Data) -> bool
    decreases a,
{
    match a {
        Data::Str(x) => b matches Data::Str(y) && x@ == y@,
        Data::Bool(x) => b matches Data::Bool(y) && x == y,
        Data::Vec(x) => b matches Data::Vec(y) && x.len() == y.len() && forall|i: int|
            0 <= i < x.len() ==> data_eq(#[trigger] x@[i], y@[i]),
        Data::Table(x) => b matches Data::Table(y) && x.len() == y.len() && (forall|i: int|
            0 <= i < x.len() ==> (table_get(y@, (#[trigger] x@[i]).0@) matches Some(w) && data_eq(
                x@[i].1,
                w,
            ))) && (forall|j: int| 0 <= j < y.len() ==> table_get(x@, (#[trigger] y@[j]).0@) is Some),
        Data::Fun(_) => false,
    }
}

/// The value under `key`, searched from the first entry.
fn get_entry<'c>(t: &'c Vec<(String, Data)>, key: &String) -> (r: Option<&'c Data>)
    ensures
        match r {
            Some(d) => table_get(t@, key@) == Some(*d),
            None => table_get(t@, key@) is None,
        },
{
    let mut i: usize = 0;
    assert(t@.subrange(0, t@.len() as int) =~= t@);
    while i < t.len()
        invariant
            i <= t.len(),
            table_get(t@, key@) == table_get(t@.subrange(i as int, t@.len() as int), key@),
        decreases t.len() - i,
    {
        assert(t@.subrange(i as int, t@.len() as int).drop_first() =~= t@.subrange(
            i + 1,
            t@.len() as int,
        ));
        if t[i].0 == *key {
            return Some(&t[i].1);
        }
        i = i + 1;
    }
    None
}

impl Data {
    /// Whether a callback occurs anywhere in the value.
    pub fn contains_fun(&self) -> (r: bool)
        ensures
            r == has_fun(*self),
        decreases self,
    {
        match self {
            Data::Fun(_) => true,
            Data::Vec(v) => {
                let mut i: usize = 0;
                while i < v.len()
                    invariant
                        i <= v.len(),
                        *self == Data::Vec(*v),
                        forall|j: int| 0 <= j < i ==> !has_fun(#[trigger] v@[j]),
                    decreases v.len() - i,
                {
                    proof {
                        assert(decreases_to!(*self => (*self)->Vec_0));
                        assert(decreases_to!(*v => v@));
                        assert(decreases_to!(v@ => v@[i as int]));
                    }
                    if v[i].contains_fun() {
                        proof {
                            lemma_item_fun(*v, i as int);
                            assert(*self == Data::Vec(*v));
                        }
                        return true;
                    }
                    i = i + 1;
                }
                false
            },
            Data::Table(t) => {
                let mut i: usize = 0;
                while i < t.len()
                    invariant
                        i <= t.len(),
                        *self == Data::Table(*t),
                        forall|j: int| 0 <= j < i ==> !has_fun(#[trigger] t@[j].1),
                    decreases t.len() - i,
                {
                    proof {
                        assert(decreases_to!(*self => (*self)->Table_0));
                        assert(decreases_to!(*t => t@));
                        assert(decreases_to!(t@ => t@[i as int]));
                        assert(decreases_to!(t@[i as int] => t@[i as int].1));
                    }
                    if t[i].1.contains_fun() {
                        proof {
                            lemma_entry_fun(*t, i as int);
                            assert(*self == Data::Table(*t));
                        }
                        return true;
                    }
                    i = i + 1;
                }
                false
            },
            _ => false,
        }
    }

    fn eq_plain(&self, other: &Data) -> (r: bool)
        ensures
            r == data_eq(*self, *other),
        decreases self,
    {
        match (self, other) {
            (Data::Str(x), Data::Str(y)) => *x == *y,
            (Data::Bool(x), Data::Bool(y)) => *x == *y,
            (Data::Vec(x), Data::Vec(y)) => {
                if x.len() != y.len() {
                    return false;
                }
                let mut i: usize = 0;
                while i < x.len()
                    invariant
                        i <= x.len() == y.len(),
                        *self == Data::Vec(*x),
                        *other == Data::Vec(*y),
                        forall|j: int| 0 <= j < i ==> data_eq(#[trigger] x@[j], y@[j]),
                    decreases x.len() - i,
                {
                    proof {
                        assert(decreases_to!(*self => (*self)->Vec_0));
                        assert(decreases_to!(*x => x@));
                        assert(decreases_to!(x@ => x@[i as int]));
                    }
                    if !x[i].eq_plain(&y[i]) {
                        return false;
                    }
                    i = i + 1;
                }
                true
            },
            (Data::Table(x), Data::Table(y)) => {
                if x.len() != y.len() {
                    return false;
                }
                let mut i: usize = 0;
                while i < x.len()
                    invariant
                        i <= x.len() == y.len(),
                        *self == Data::Table(*x),
                        *other == Data::Table(*y),
                        forall|j: int|
                            0 <= j < i ==> (table_get(y@, (#[trigger] x@[j]).0@) matches Some(w)
                                && data_eq(x@[j].1, w)),
                    decreases x.len() - i,
                {
                    proof {
                        assert(decreases_to!(*self => (*self)->Table_0));
                        assert(decreases_to!(*x => x@));
                        assert(decreases_to!(x@ => x@[i as int]));
                        assert(decreases_to!(x@[i as int] => x@[i as int].1));
                    }
                    match get_entry(y, &x[i].0) {
                        None => {
                            return false;
                        },
                        Some(w) => {
                            if !x[i].1.eq_plain(w) {
                                return false;
                            }
                        },
                    }
                    i = i + 1;
                }
                let mut j: usize = 0;
                while j < y.len()
                    invariant
                        j <= y.len(),
                        x.len() == y.len(),
                        *self == Data::Table(*x),
                        *other == Data::Table(*y),
                        forall|k: int|
                            0 <= k < x.len() ==> (table_get(y@, (#[trigger] x@[k]).0@) matches Some(w)
                                && data_eq(x@[k].1, w)),
                        forall|k: int| 0 <= k < j ==> table_get(x@, (#[trigger] y@[k]).0@) is Some,
                    decreases y.len() - j,
                {
                    if get_entry(x, &y[j].0).is_none() {
                        return false;
                    }
                    j = j + 1;
                }
                true
            },
            _ => false,
        }
    }

    /// Structural equality. Callbacks cannot be compared: when either value
    /// holds one, anywhere, the answer is `None`.
    pub fn try_eq(&self, other: &Data) -> (r: Option<bool>)
        ensures
            r is None <==> (has_fun(*self) || has_fun(*other)),
            r matches Some(b) ==> b == data_eq(*self, *other),
    {
        if self.contains_fun() || other.contains_fun() {
            None
        } else {
            Some(self.eq_plain(other))
        }
    }
}

} // verus!
