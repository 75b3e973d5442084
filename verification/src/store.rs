//! A flat byte-oriented key-value store.
//!
//! The ledger owns no state of its own: every operation takes a store
//! handle as an argument, which also lets a test substitute a fresh
//! in-memory instance.  The store is modelled as a map from byte keys
//! to byte values; a later write to a key replaces the earlier one.
use vstd::prelude::*;

verus! {

/// Compares two byte strings for equality.
fn bytes_eq(a: &[u8], b: &[u8]) -> (r: bool)
    ensures
        r <==> a@ == b@,
{
    if a.len() != b.len() {
        return false;
    }
    for i in 0..a.len()
        invariant
            a@.len() == b@.len(),
            forall|j: int| 0 <= j < i ==> a@[j] == b@[j],
    {
        if a[i] != b[i] {
            return false;
        }
    }
    assert(a@ =~= b@);
    true
}

/// The map described by the first `n` entries, later entries replacing
/// earlier ones.
pub closed spec fn map_of(es: Seq<(Vec<u8>, Vec<u8>)>) -> Map<Seq<u8>, Seq<u8>>
    decreases es.len(),
{
    if es.len() == 0 {
        Map::empty()
    } else {
        map_of(es.drop_last()).insert(es.last().0@, es.last().1@)
    }
}

/// An in-memory byte key-value store.  Writes are kept in order; the
/// value of a key is the one most recently set for it.
pub struct Store {
    entries: Vec<(Vec<u8>, Vec<u8>)>,
}

impl View for Store {
    type V = Map<Seq<u8>, Seq<u8>>;

    closed spec fn view(&self) -> Map<Seq<u8>, Seq<u8>> {
        map_of(self.entries@)
    }
}

impl Store {
    /// A store with nothing in it.
    pub fn new() -> (s: Store)
        ensures
            s@ == Map::<Seq<u8>, Seq<u8>>::empty(),
    {
        Store { entries: Vec::new() }
    }

    /// Stores `value` under `key`, replacing any earlier value.
    pub fn set(&mut self, key: &[u8], value: &[u8])
        ensures
            final(self)@ == old(self)@.insert(key@, value@),
    {
        let pair = (vstd::slice::slice_to_vec(key), vstd::slice::slice_to_vec(value));
        self.entries.push(pair);
        proof {
            assert(self.entries@.drop_last() =~= old(self).entries@);
        }
    }

    /// The value most recently stored under `key`, if any.
    pub fn get(&self, key: &[u8]) -> (r: Option<Vec<u8>>)
        ensures
            match r {
                Some(v) => self@.dom().contains(key@) && v@ == self@[key@],
                None => !self@.dom().contains(key@),
            },
    {
        let n = self.entries.len();
        proof {
            assert(self.entries@.take(n as int) =~= self.entries@);
        }
        self.get_from(key, n)
    }

    /// Looks `key` up among the first `n` entries, newest first.
    fn get_from(&self, key: &[u8], n: usize) -> (r: Option<Vec<u8>>)
        requires
            n <= self.entries@.len(),
        ensures
            ({
                let m = map_of(self.entries@.take(n as int));
                match r {
                    Some(v) => m.dom().contains(key@) && v@ == m[key@],
                    None => !m.dom().contains(key@),
                }
            }),
        decreases n,
    {
        if n == 0 {
            None
        } else {
            proof {
                assert(self.entries@.take(n as int).drop_last() =~= self.entries@.take(
                    n as int - 1,
                ));
                assert(self.entries@.take(n as int).last() == self.entries@[n - 1]);
            }
            let e = &self.entries[n - 1];
            if bytes_eq(e.0.as_slice(), key) {
                Some(vstd::slice::slice_to_vec(e.1.as_slice()))
            } else {
                self.get_from(key, n - 1)
            }
        }
    }
}

} // verus!
