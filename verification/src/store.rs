//! The store: keys and entries, behind a trait that a durable store implements too.
use vstd::prelude::*;

use crate::dup::{Dup, views};
use crate::error::Error;
use crate::model::{Entry, EntryView};
use crate::ordmap::{OrdMap, has_row, is_listing, listing};
use crate::text::text_less;

verus! {

/// What a store holds.
pub type State = Map<Seq<char>, EntryView>;

/// Keys with their entries, as a scan gives them.
pub type KeyValuePairs = Vec<(String, Entry)>;

pub open spec fn row_views(rows: Seq<(String, Entry)>) -> Seq<(Seq<char>, EntryView)> {
    Seq::new(rows.len(), |i: int| (rows[i].0@, rows[i].1@))
}

/// The part of the state whose keys begin with `prefix`.
pub open spec fn under(s: State, prefix: Seq<char>) -> State {
    Map::new(|k: Seq<char>| s.contains_key(k) && prefix.is_prefix_of(k), |k: Seq<char>| s[k])
}

/// The entries whose keys begin with `prefix`, in ascending order of the keys.
pub open spec fn scan(s: State, prefix: Seq<char>) -> Seq<(Seq<char>, EntryView)> {
    listing(under(s, prefix))
}

/// The state after the entries `rows` are put, one after another.
pub open spec fn put_all(s: State, rows: Seq<(Seq<char>, EntryView)>) -> State
    decreases rows.len(),
{
    if rows.len() == 0 {
        s
    } else {
        put_all(s, rows.drop_last()).insert(rows.last().0, rows.last().1)
    }
}

/// The state after the keys are deleted.
pub open spec fn delete_all(s: State, keys: Seq<Seq<char>>) -> State {
    s.remove_keys(Set::new(|k: Seq<char>| keys.contains(k)))
}

/// A store of entries. A store that is not reliable may answer any call with an error; such a call
/// changes nothing.
pub trait Store: Sized {
    /// What the store holds. A store says what this is; where it does not, nothing is known of it.
    open spec fn contents(&self) -> State {
        arbitrary()
    }

    /// Whether no call fails.
    open spec fn reliable(&self) -> bool {
        arbitrary()
    }

    fn get(&self, key: &str) -> (r: Result<Option<Entry>, Error>)
        ensures
            match r {
                Ok(Some(e)) => self.contents().contains_key(key@) && e@ == self.contents()[key@],
                Ok(None) => !self.contents().contains_key(key@),
                Err(_) => !self.reliable(),
            },
    ;

    fn put(&mut self, key: &str, value: &Entry) -> (r: Result<(), Error>)
        ensures
            final(self).reliable() == old(self).reliable(),
            match r {
                Ok(_) => final(self).contents() == old(self).contents().insert(key@, value@),
                Err(_) => !old(self).reliable() && final(self).contents() == old(self).contents(),
            },
    ;

    fn delete(&mut self, key: &str) -> (r: Result<(), Error>)
        ensures
            final(self).reliable() == old(self).reliable(),
            match r {
                Ok(_) => final(self).contents() == old(self).contents().remove(key@),
                Err(_) => !old(self).reliable() && final(self).contents() == old(self).contents(),
            },
    ;

    /// The entries whose keys begin with `prefix`, in the order of the keys.
    fn get_prefix(&self, prefix: &str) -> (r: Result<KeyValuePairs, Error>)
        ensures
            match r {
                Ok(rows) => is_listing(under(self.contents(), prefix@), row_views(rows@)),
                Err(_) => !self.reliable(),
            },
    ;

    /// Puts all pairs in one transaction.
    fn put_batch(&mut self, pairs: &Vec<(String, Entry)>) -> (r: Result<(), Error>)
        ensures
            final(self).reliable() == old(self).reliable(),
            match r {
                Ok(_) => final(self).contents() == put_all(old(self).contents(), row_views(pairs@)),
                Err(_) => !old(self).reliable() && final(self).contents() == old(self).contents(),
            },
    ;

    /// Deletes the keys and then puts the pairs, in one transaction.
    fn write_batch(&mut self, puts: &Vec<(String, Entry)>, deletes: &Vec<String>) -> (r: Result<
        (),
        Error,
    >)
        ensures
            final(self).reliable() == old(self).reliable(),
            match r {
                Ok(_) => final(self).contents() == put_all(
                    delete_all(old(self).contents(), views(deletes@)),
                    row_views(puts@),
                ),
                Err(_) => !old(self).reliable() && final(self).contents() == old(self).contents(),
            },
    ;

    /// Makes sure that what was written survives a crash.
    fn flush(&mut self) -> (r: Result<(), Error>)
        ensures
            final(self).reliable() == old(self).reliable(),
            final(self).contents() == old(self).contents(),
            r is Err ==> !old(self).reliable(),
    ;
}

/// A store in memory.
#[derive(Debug, PartialEq)]
pub struct InMemoryStore {
    inner: OrdMap<Entry>,
}

impl View for InMemoryStore {
    type V = State;

    closed spec fn view(&self) -> State {
        self.inner@
    }
}

impl InMemoryStore {
    pub fn new() -> (r: Self)
        ensures
            r@ == State::empty(),
            r.contents() == State::empty(),
            r.reliable(),
    {
        InMemoryStore { inner: OrdMap::new() }
    }
}

impl Default for InMemoryStore {
    fn default() -> (r: Self)
        ensures
            r@ == State::empty(),
            r.contents() == State::empty(),
            r.reliable(),
    {
        InMemoryStore::new()
    }
}

impl Store for InMemoryStore {
    open spec fn contents(&self) -> State {
        self@
    }

    open spec fn reliable(&self) -> bool {
        true
    }

    fn get(&self, key: &str) -> (r: Result<Option<Entry>, Error>) {
        match self.inner.get(key) {
            Some(e) => Ok(Some(e.dup())),
            None => Ok(None),
        }
    }

    fn put(&mut self, key: &str, value: &Entry) -> (r: Result<(), Error>) {
        self.inner.insert(key.to_owned(), value.dup());
        Ok(())
    }

    fn delete(&mut self, key: &str) -> (r: Result<(), Error>) {
        self.inner.remove(key);
        Ok(())
    }

    fn get_prefix(&self, prefix: &str) -> (r: Result<KeyValuePairs, Error>) {
        let (lo, hi) = self.inner.range(prefix);
        let ghost all = listing(self.inner@);
        let mut out: Vec<(String, Entry)> = Vec::new();
        let mut i: usize = lo;
        while i < hi
            invariant
                lo <= i <= hi <= all.len(),
                all == listing(self.inner@),
                row_views(out@) == all.subrange(lo as int, i as int),
            decreases hi - i,
        {
            let ghost before = row_views(out@);
            out.push((self.inner.key_at(i).clone(), self.inner.value_at(i).dup()));
            assert(row_views(out@) =~= before.push(all[i as int]));
            assert(all.subrange(lo as int, i + 1) =~= all.subrange(lo as int, i as int).push(
                all[i as int],
            ));
            i = i + 1;
        }
        proof {
            let m = under(self.contents(), prefix@);
            let rows = row_views(out@);
            assert forall|k: Seq<char>| #[trigger] m.contains_key(k) implies has_row(rows, k) by {
                assert(has_row(all, k));
                let j = choose|j: int| 0 <= j < all.len() && #[trigger] all[j].0 == k;
                assert(rows[j - lo].0 == k);
            }
            assert forall|j: int| 0 <= j < rows.len() implies m.contains_key((#[trigger] rows[j]).0)
                && m[rows[j].0] == rows[j].1 by {
                assert(rows[j] == all[j + lo]);
            }
            assert forall|a: int, b: int| 0 <= a < b < rows.len() implies text_less(
                #[trigger] rows[a].0,
                #[trigger] rows[b].0,
            ) by {
                assert(text_less(all[a + lo].0, all[b + lo].0));
            }
        }
        Ok(out)
    }

    fn put_batch(&mut self, pairs: &Vec<(String, Entry)>) -> (r: Result<(), Error>) {
        let ghost rows = row_views(pairs@);
        let ghost start = self.contents();
        let mut i: usize = 0;
        assert(rows.take(0) =~= Seq::empty());
        while i < pairs.len()
            invariant
                i <= pairs@.len(),
                rows == row_views(pairs@),
                self.contents() == put_all(start, rows.take(i as int)),
            decreases pairs@.len() - i,
        {
            assert(rows.take(i + 1).drop_last() =~= rows.take(i as int));
            self.inner.insert(pairs[i].0.clone(), pairs[i].1.dup());
            i = i + 1;
        }
        assert(rows.take(i as int) =~= rows);
        Ok(())
    }

    fn write_batch(&mut self, puts: &Vec<(String, Entry)>, deletes: &Vec<String>) -> (r: Result<
        (),
        Error,
    >) {
        let ghost keys = views(deletes@);
        let ghost start = self.contents();
        let mut i: usize = 0;
        assert(delete_all(start, keys.take(0)) =~= start);
        while i < deletes.len()
            invariant
                i <= deletes@.len(),
                keys == views(deletes@),
                self.contents() == delete_all(start, keys.take(i as int)),
            decreases deletes@.len() - i,
        {
            self.inner.remove(deletes[i].as_str());
            proof {
                let a = keys.take(i as int);
                let b = keys.take(i + 1);
                assert(b =~= a.push(keys[i as int]));
                assert forall|k: Seq<char>| b.contains(k) == (a.contains(k) || k == keys[i as int]) by {
                    if k == keys[i as int] {
                        assert(b[i as int] == k);
                    }
                    if a.contains(k) {
                        let j = a.index_of(k);
                        assert(b[j] == k);
                    }
                    if b.contains(k) && k != keys[i as int] {
                        let j = b.index_of(k);
                        assert(a[j] == k);
                    }
                }
                assert(delete_all(start, a).remove(keys[i as int]) =~= delete_all(start, b));
            }
            i = i + 1;
        }
        assert(keys.take(i as int) =~= keys);
        self.put_batch(puts)
    }

    fn flush(&mut self) -> (r: Result<(), Error>) {
        Ok(())
    }
}

} // verus!
