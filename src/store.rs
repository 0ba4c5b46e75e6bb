use vstd::prelude::*;
use crate::error::SgmError;
use crate::text::copy_bytes;

verus! {

/// What a `put_if_absent` of `value` under `key` does to a store that held `before`:
/// it writes only where the key is free, and a taken key is a conflict that
/// changes nothing.
pub open spec fn put_outcome(
    before: Map<Seq<char>, Seq<u8>>,
    key: Seq<char>,
    value: Seq<u8>,
    after: Map<Seq<char>, Seq<u8>>,
    r: Result<(), SgmError>,
) -> bool {
    if before.contains_key(key) {
        r == Err::<(), SgmError>(SgmError::KeyConflict) && after == before
    } else {
        r is Ok && after == before.insert(key, value)
    }
}

/// A write-once key/value store held in memory: a key, once written, keeps its
/// value for good.
pub struct MemStore {
    entries: Vec<(String, Vec<u8>)>,
    contents: Ghost<Map<Seq<char>, Seq<u8>>>,
}

impl View for MemStore {
    type V = Map<Seq<char>, Seq<u8>>;

    closed spec fn view(&self) -> Map<Seq<char>, Seq<u8>> {
        self.contents@
    }
}

impl MemStore {
    /// The entries hold exactly the keys of the model, each with its value.
    pub closed spec fn wf(&self) -> bool {
        &&& forall|i: int|
            0 <= i < self.entries@.len() ==> {
                &&& self.contents@.contains_key(#[trigger] self.entries@[i].0@)
                &&& self.contents@[self.entries@[i].0@] == self.entries@[i].1@
            }
        &&& forall|k: Seq<char>|
            #[trigger] self.contents@.contains_key(k) ==> exists|i: int|
                0 <= i < self.entries@.len() && #[trigger] self.entries@[i].0@ == k
    }

    /// An empty store.
    pub fn new() -> (r: MemStore)
        ensures
            r.wf(),
            r@ == Map::<Seq<char>, Seq<u8>>::empty(),
    {
        MemStore { entries: Vec::new(), contents: Ghost(Map::empty()) }
    }

    fn find(&self, key: &String) -> (r: Option<usize>)
        requires
            self.wf(),
        ensures
            r matches Some(i) ==> i < self.entries@.len() && self.entries@[i as int].0@ == key@,
            r is None ==> !self@.contains_key(key@),
    {
        let mut i: usize = 0;
        while i < self.entries.len()
            invariant
                i <= self.entries@.len(),
                forall|j: int| 0 <= j < i ==> #[trigger] self.entries@[j].0@ != key@,
            decreases self.entries@.len() - i,
        {
            if self.entries[i].0 == *key {
                return Some(i);
            }
            i = i + 1;
        }
        None
    }

    /// The value under `key`, or `None` where the key was never written.
    pub fn get(&self, key: &str) -> (r: Option<Vec<u8>>)
        requires
            self.wf(),
        ensures
            r is Some <==> self@.contains_key(key@),
            r matches Some(v) ==> v@ == self@[key@],
    {
        let k = String::from_str(key);
        match self.find(&k) {
            Some(i) => Some(copy_bytes(self.entries[i].1.as_slice())),
            None => None,
        }
    }

    /// Writes `value` under `key` unless the key already holds a value, in which
    /// case it fails with `KeyConflict` and changes nothing.
    pub fn put_if_absent(&mut self, key: &str, value: &[u8]) -> (r: Result<(), SgmError>)
        requires
            old(self).wf(),
        ensures
            final(self).wf(),
            put_outcome(old(self)@, key@, value@, final(self)@, r),
    {
        let k = String::from_str(key);
        match self.find(&k) {
            Some(_) => Err(SgmError::KeyConflict),
            None => {
                let ghost before = self.contents@;
                self.entries.push((k, copy_bytes(value)));
                self.contents = Ghost(before.insert(key@, value@));
                assert(self.wf()) by {
                    assert forall|kk: Seq<char>| #[trigger] self.contents@.contains_key(kk) implies
                        exists|i: int| 0 <= i < self.entries@.len() && #[trigger] self.entries@[i].0@ == kk by {
                        if kk == key@ {
                            assert(self.entries@[self.entries@.len() - 1].0@ == kk);
                        } else {
                            assert(before.contains_key(kk));
                            let i = choose|i: int| 0 <= i < old(self).entries@.len() && #[trigger] old(self).entries@[i].0@ == kk;
                            assert(self.entries@[i] == old(self).entries@[i]);
                        }
                    }
                    assert forall|i: int| 0 <= i < self.entries@.len() implies {
                        &&& self.contents@.contains_key(#[trigger] self.entries@[i].0@)
                        &&& self.contents@[self.entries@[i].0@] == self.entries@[i].1@
                    } by {
                        if i < old(self).entries@.len() {
                            assert(self.entries@[i] == old(self).entries@[i]);
                            if self.entries@[i].0@ == key@ {
                                assert(before.contains_key(key@));
                            }
                        }
                    }
                }
                Ok(())
            }
        }
    }
}

/// Write-once is permanent: once a `put_if_absent` under a key has succeeded, a
/// second one under the same key, with any value, is a conflict and changes
/// nothing.
pub proof fn lemma_second_put_conflicts(
    s0: Map<Seq<char>, Seq<u8>>,
    s1: Map<Seq<char>, Seq<u8>>,
    s2: Map<Seq<char>, Seq<u8>>,
    key: Seq<char>,
    v: Seq<u8>,
    w: Seq<u8>,
    r1: Result<(), SgmError>,
    r2: Result<(), SgmError>,
)
    requires
        put_outcome(s0, key, v, s1, r1),
        r1 is Ok,
        put_outcome(s1, key, w, s2, r2),
    ensures
        r2 == Err::<(), SgmError>(SgmError::KeyConflict),
        s2 == s1,
        s1[key] == v,
{
    assert(!s0.contains_key(key));
    assert(s1.contains_key(key));
}

} // verus!
