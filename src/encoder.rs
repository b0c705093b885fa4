use vstd::prelude::*;

use crate::builder::{put, stored};
use crate::data::{has_fun, keys_unique, Data};
use crate::error::Error;

verus! {

/// Builds a `Data` value from a stream of encoding events. Compound values
/// are opened on a stack, filled field by field, and closed into their parent.
pub struct Encoder {
    data: Vec<Data>,
}

/// Values without callbacks make a table without callbacks.
proof fn lemma_put_no_fun(t0: Seq<(String, Data)>, t1: Seq<(String, Data)>, v: Data)
    requires
        forall|j: int| 0 <= j < t0.len() ==> !has_fun(#[trigger] t0[j].1),
        !has_fun(v),
        forall|a: int|
            0 <= a < t1.len() ==> (#[trigger] t1[a]).1 == v || exists|b: int|
                0 <= b < t0.len() && t1[a].1 == t0[b].1,
    ensures
        forall|a: int| 0 <= a < t1.len() ==> !has_fun(#[trigger] t1[a].1),
{
    assert forall|a: int| 0 <= a < t1.len() implies !has_fun(#[trigger] t1[a].1) by {
        if t1[a].1 != v {
            let b = choose|b: int| 0 <= b < t0.len() && t1[a].1 == t0[b].1;
            assert(!has_fun(t0[b].1));
        }
    }
}

/// Every table on the stack has unique keys.
pub open spec fn tables_unique(s: Seq<Data>) -> bool {
    forall|i: int| 0 <= i < s.len() ==> (#[trigger] s[i] matches Data::Table(t) ==> keys_unique(t@))
}

impl Encoder {
    /// The values under construction, innermost last.
    pub closed spec fn stack(&self) -> Seq<Data> {
        self.data@
    }

    /// Every table under construction has unique keys.
    pub closed spec fn wf(&self) -> bool {
        tables_unique(self.data@) && forall|i: int| 0 <= i < self.data@.len() ==> !has_fun(
            #[trigger] self.data@[i],
        )
    }

    /// An encoder with nothing on its stack.
    pub fn new() -> (r: Encoder)
        ensures
            r.wf(),
            r.stack().len() == 0,
    {
        Encoder { data: Vec::new() }
    }

    fn push_value(&mut self, d: Data)
        requires
            old(self).wf(),
            d matches Data::Table(t) ==> keys_unique(t@),
            !has_fun(d),
        ensures
            final(self).wf(),
            final(self).stack() == old(self).stack().push(d),
    {
        self.data.push(d);
        assert forall|i: int| 0 <= i < self.data@.len() implies !has_fun(#[trigger] self.data@[i]) by {
            if i < old(self).data@.len() {
                assert(self.data@[i] == old(self).data@[i]);
            }
        }
        assert(tables_unique(self.data@)) by {
            assert forall|i: int| 0 <= i < self.data@.len() implies (#[trigger] self.data@[i] matches Data::Table(t) ==> keys_unique(t@)) by {
                if i < old(self).data@.len() {
                    assert(self.data@[i] == old(self).data@[i]);
                }
            }
        }
    }

    fn pop_value(&mut self) -> (r: Option<Data>)
        requires
            old(self).wf(),
        ensures
            final(self).wf(),
            old(self).stack().len() == 0 ==> r is None && final(self).stack() == old(self).stack(),
            old(self).stack().len() > 0 ==> r == Some(old(self).stack().last()) && final(self).stack()
                == old(self).stack().drop_last(),
            r matches Some(Data::Table(t)) ==> keys_unique(t@),
            r matches Some(d) ==> !has_fun(d),
    {
        let r = self.data.pop();
        assert forall|i: int| 0 <= i < self.data@.len() implies !has_fun(#[trigger] self.data@[i]) by {
            assert(self.data@[i] == old(self).data@[i]);
        }
        assert(tables_unique(self.data@)) by {
            assert forall|i: int| 0 <= i < self.data@.len() implies (#[trigger] self.data@[i] matches Data::Table(t) ==> keys_unique(t@)) by {
                assert(self.data@[i] == old(self).data@[i]);
            }
        }
        proof {
            if old(self).data@.len() > 0 {
                assert(old(self).data@.last() == old(self).data@[old(self).data@.len() - 1]);
            }
        }
        r
    }

    /// A string value.
    pub fn emit_str(&mut self, v: &str)
        requires
            old(self).wf(),
        ensures
            final(self).wf(),
            final(self).stack().len() == old(self).stack().len() + 1,
            final(self).stack().drop_last() == old(self).stack(),
            final(self).stack().last() matches Data::Str(s) && s@ == v@,
    {
        self.push_value(Data::Str(String::from_str(v)));
        assert(self.stack().drop_last() =~= old(self).stack());
    }

    /// A boolean value.
    pub fn emit_bool(&mut self, v: bool)
        requires
            old(self).wf(),
        ensures
            final(self).wf(),
            final(self).stack() == old(self).stack().push(Data::Bool(v)),
    {
        self.push_value(Data::Bool(v));
    }

    /// A character, as a one-character string.
    pub fn emit_char(&mut self, v: char)
        requires
            old(self).wf(),
        ensures
            final(self).wf(),
            final(self).stack().len() == old(self).stack().len() + 1,
            final(self).stack().drop_last() == old(self).stack(),
            final(self).stack().last() matches Data::Str(s) && s@ == seq![v],
    {
        let mut cs: Vec<char> = Vec::new();
        cs.push(v);
        assert(cs@ =~= seq![v]);
        self.push_value(Data::Str(crate::chars::string_of(&cs)));
        assert(self.stack().drop_last() =~= old(self).stack());
    }

    /// Opens a struct or a map: an empty table.
    pub fn emit_struct(&mut self)
        requires
            old(self).wf(),
        ensures
            final(self).wf(),
            final(self).stack().len() == old(self).stack().len() + 1,
            final(self).stack().drop_last() == old(self).stack(),
            final(self).stack().last() matches Data::Table(t) && t@.len() == 0,
    {
        self.push_value(Data::Table(Vec::new()));
        assert(self.stack().drop_last() =~= old(self).stack());
    }

    /// Opens a sequence or a tuple: an empty list.
    pub fn emit_seq(&mut self)
        requires
            old(self).wf(),
        ensures
            final(self).wf(),
            final(self).stack().len() == old(self).stack().len() + 1,
            final(self).stack().drop_last() == old(self).stack(),
            final(self).stack().last() matches Data::Vec(v) && v@.len() == 0,
    {
        self.push_value(Data::Vec(Vec::new()));
        assert(self.stack().drop_last() =~= old(self).stack());
    }

    /// Before a field's value is encoded: a table must be open.
    pub fn field_start(&self) -> (r: Result<(), Error>)
        requires
            self.wf(),
        ensures
            r is Ok <==> (self.stack().len() > 0 && self.stack().last() is Table),
            r is Err ==> r == Err::<(), Error>(Error::UnsupportedType),
    {
        if self.data.len() > 0 {
            if let Data::Table(_) = &self.data[self.data.len() - 1] {
                return Ok(());
            }
        }
        Err(Error::UnsupportedType)
    }

    /// After a field's value is encoded: it moves into the table below it, under `name`.
    pub fn field_end(&mut self, name: &str) -> (r: Result<(), Error>)
        requires
            old(self).wf(),
        ensures
            final(self).wf(),
            r is Ok <==> (old(self).stack().len() >= 2 && old(self).stack()[old(self).stack().len()
                - 2] is Table),
            r is Err ==> r == Err::<(), Error>(Error::UnsupportedType) && final(self).stack()
                == old(self).stack(),
            r is Ok ==> ({
                let n = old(self).stack().len();
                &&& final(self).stack().len() == n - 1
                &&& final(self).stack().drop_last() == old(self).stack().subrange(0, n - 2)
                &&& old(self).stack()[n - 2] matches Data::Table(t0) && final(self).stack().last() matches Data::Table(t1)
                    && stored(t0@, t1@, name@, old(self).stack()[n - 1])
            }),
    {
        let n = self.data.len();
        if n < 2 {
            return Err(Error::UnsupportedType);
        }
        match &self.data[n - 2] {
            Data::Table(_) => {},
            _ => {
                return Err(Error::UnsupportedType);
            },
        }
        let value = self.pop_value().unwrap();
        let parent = self.pop_value().unwrap();
        match parent {
            Data::Table(t) => {
                let mut t = t;
                let ghost t0 = t@;
                let ghost v0 = value;
                put(&mut t, String::from_str(name), value);
                proof {
                    lemma_put_no_fun(t0, t@, v0);
                }
                self.push_value(Data::Table(t));
                assert(self.stack().drop_last() =~= old(self).stack().subrange(0, n - 2));
                Ok(())
            },
            _ => Err(Error::UnsupportedType),
        }
    }

    /// Before an element's value is encoded: a list must be open.
    pub fn elt_start(&self) -> (r: Result<(), Error>)
        requires
            self.wf(),
        ensures
            r is Ok <==> (self.stack().len() > 0 && self.stack().last() is Vec),
            r is Err ==> r == Err::<(), Error>(Error::UnsupportedType),
    {
        if self.data.len() > 0 {
            if let Data::Vec(_) = &self.data[self.data.len() - 1] {
                return Ok(());
            }
        }
        Err(Error::UnsupportedType)
    }

    /// After an element's value is encoded: it moves to the end of the list below it.
    pub fn elt_end(&mut self) -> (r: Result<(), Error>)
        requires
            old(self).wf(),
        ensures
            final(self).wf(),
            r is Ok <==> (old(self).stack().len() >= 2 && old(self).stack()[old(self).stack().len()
                - 2] is Vec),
            r is Err ==> r == Err::<(), Error>(Error::UnsupportedType) && final(self).stack()
                == old(self).stack(),
            r is Ok ==> ({
                let n = old(self).stack().len();
                &&& final(self).stack().len() == n - 1
                &&& final(self).stack().drop_last() == old(self).stack().subrange(0, n - 2)
                &&& old(self).stack()[n - 2] matches Data::Vec(v0) && final(self).stack().last() matches Data::Vec(v1)
                    && v1@ == v0@.push(old(self).stack()[n - 1])
            }),
    {
        let n = self.data.len();
        if n < 2 {
            return Err(Error::UnsupportedType);
        }
        match &self.data[n - 2] {
            Data::Vec(_) => {},
            _ => {
                return Err(Error::UnsupportedType);
            },
        }
        let value = self.pop_value().unwrap();
        let parent = self.pop_value().unwrap();
        match parent {
            Data::Vec(v) => {
                let mut v = v;
                let ghost v0 = v@;
                let ghost d0 = value;
                v.push(value);
                proof {
                    assert forall|i: int| 0 <= i < v@.len() implies !has_fun(#[trigger] v@[i]) by {
                        if i < v0.len() {
                            assert(v@[i] == v0[i]);
                        }
                    }
                }
                self.push_value(Data::Vec(v));
                assert(self.stack().drop_last() =~= old(self).stack().subrange(0, n - 2));
                Ok(())
            },
            _ => Err(Error::UnsupportedType),
        }
    }

    /// After a map key is encoded: it must be a string.
    pub fn map_key_end(&self) -> (r: Result<(), Error>)
        requires
            self.wf(),
        ensures
            self.stack().len() == 0 ==> r == Err::<(), Error>(Error::MissingElements),
            self.stack().len() > 0 ==> (r is Ok <==> self.stack().last() is Str),
            self.stack().len() > 0 && r is Err ==> r == Err::<(), Error>(Error::KeyIsNotString),
    {
        if self.data.len() == 0 {
            return Err(Error::MissingElements);
        }
        match &self.data[self.data.len() - 1] {
            Data::Str(_) => Ok(()),
            _ => Err(Error::KeyIsNotString),
        }
    }

    /// After a map value is encoded: it moves into the table below its key, under that key.
    pub fn map_val_end(&mut self) -> (r: Result<(), Error>)
        requires
            old(self).wf(),
        ensures
            final(self).wf(),
            r is Ok <==> ({
                let n = old(self).stack().len();
                n >= 3 && old(self).stack()[n - 2] is Str && old(self).stack()[n - 3] is Table
            }),
            r is Err ==> final(self).stack() == old(self).stack(),
            old(self).stack().len() < 3 ==> r == Err::<(), Error>(Error::MissingElements),
            old(self).stack().len() >= 3 && !(old(self).stack()[old(self).stack().len() - 2] is Str)
                ==> r == Err::<(), Error>(Error::KeyIsNotString),
            old(self).stack().len() >= 3 && old(self).stack()[old(self).stack().len() - 2] is Str
                && !(old(self).stack()[old(self).stack().len() - 3] is Table) ==> r == Err::<(), Error>(
                Error::UnsupportedType,
            ),
            r is Ok ==> ({
                let n = old(self).stack().len();
                &&& final(self).stack().len() == n - 2
                &&& final(self).stack().drop_last() == old(self).stack().subrange(0, n - 3)
                &&& old(self).stack()[n - 3] matches Data::Table(t0) && final(self).stack().last() matches Data::Table(t1)
                    && old(self).stack()[n - 2] matches Data::Str(k)
                    && stored(t0@, t1@, k@, old(self).stack()[n - 1])
            }),
    {
        let n = self.data.len();
        if n < 3 {
            return Err(Error::MissingElements);
        }
        match &self.data[n - 2] {
            Data::Str(_) => {},
            _ => {
                return Err(Error::KeyIsNotString);
            },
        }
        match &self.data[n - 3] {
            Data::Table(_) => {},
            _ => {
                return Err(Error::UnsupportedType);
            },
        }
        let value = self.pop_value().unwrap();
        let key = self.pop_value().unwrap();
        let parent = self.pop_value().unwrap();
        match (key, parent) {
            (Data::Str(k), Data::Table(t)) => {
                let mut t = t;
                let ghost t0 = t@;
                let ghost v0 = value;
                put(&mut t, k, value);
                proof {
                    lemma_put_no_fun(t0, t@, v0);
                }
                self.push_value(Data::Table(t));
                assert(self.stack().drop_last() =~= old(self).stack().subrange(0, n - 3));
                Ok(())
            },
            _ => Err(Error::UnsupportedType),
        }
    }

    /// Before a map value is encoded: a string key must be on top, the map below it.
    pub fn map_val_start(&self) -> (r: Result<(), Error>)
        requires
            self.wf(),
        ensures
            r is Ok <==> (self.stack().len() >= 2 && self.stack().last() is Str
                && self.stack()[self.stack().len() - 2] is Table),
            (self.stack().len() == 0 || !(self.stack().last() is Str)) ==> r == Err::<(), Error>(
                Error::KeyIsNotString,
            ),
            self.stack().len() > 0 && self.stack().last() is Str && r is Err ==> r == Err::<(), Error>(
                Error::UnsupportedType,
            ),
    {
        let n = self.data.len();
        if n == 0 {
            return Err(Error::KeyIsNotString);
        }
        match &self.data[n - 1] {
            Data::Str(_) => {},
            _ => {
                return Err(Error::KeyIsNotString);
            },
        }
        if n < 2 {
            return Err(Error::UnsupportedType);
        }
        match &self.data[n - 2] {
            Data::Table(_) => Ok(()),
            _ => Err(Error::UnsupportedType),
        }
    }

    /// The one value encoded; it holds no callback.
    pub fn finish(self) -> (r: Result<Data, Error>)
        requires
            self.wf(),
        ensures
            r matches Ok(d) ==> !has_fun(d),
            self.stack().len() == 1 ==> r == Ok::<Data, Error>(self.stack()[0]),
            self.stack().len() != 1 ==> r == Err::<Data, Error>(Error::MissingElements),
    {
        let mut s = self;
        if s.data.len() != 1 {
            return Err(Error::MissingElements);
        }
        match s.pop_value() {
            Some(d) => Ok(d),
            None => Err(Error::MissingElements),
        }
    }
}

} // verus!
