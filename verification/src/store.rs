use vstd::prelude::*;
use crate::errors::ProxyError;

verus! {

/// Compare two byte strings for equality.
pub fn bytes_eq(a: &Vec<u8>, b: &Vec<u8>) -> (r: bool)
    ensures
        r == (a@ == b@),
{
    if a.len() != b.len() {
        proof {
            assert(a@.len() != b@.len());
        }
        return false;
    }
    let mut i: usize = 0;
    while i < a.len()
        invariant
            a@.len() == b@.len(),
            i <= a@.len(),
            forall|j: int| 0 <= j < i ==> a@[j] == b@[j],
        decreases a@.len() - i,
    {
        if a[i] != b[i] {
            return false;
        }
        i += 1;
    }
    proof {
        assert(a@ =~= b@);
    }
    true
}

/// Copy a byte string.
pub fn clone_bytes(v: &Vec<u8>) -> (r: Vec<u8>)
    ensures
        r@ == v@,
{
    let mut out: Vec<u8> = Vec::new();
    let mut i: usize = 0;
    while i < v.len()
        invariant
            i <= v@.len(),
            out@ == v@.subrange(0, i as int),
        decreases v@.len() - i,
    {
        out.push(v[i]);
        proof {
            assert(out@ =~= v@.subrange(0, i + 1));
        }
        i += 1;
    }
    proof {
        assert(out@ =~= v@);
    }
    out
}

/// One immutable row of the cache: the blob of little-endian 32-bit
/// numbers for one `(input, model, dimensions)` triple, addressed by the
/// triple's fingerprint. `model` and `dimensions` are stored redundantly,
/// for diagnostics.
#[derive(Debug)]
pub struct CacheEntry {
    pub model: String,
    pub dimensions: u64,
    pub hash: Vec<u8>,
    pub value: Vec<u8>,
}

impl CacheEntry {
    /// The key is a 32-byte digest and the blob holds exactly
    /// `dimensions` four-byte numbers.
    pub open spec fn wf(self) -> bool {
        &&& self.hash@.len() == 32
        &&& self.value@.len() == 4 * self.dimensions
    }
}

/// The volatile cache store: an append-only sequence of well-formed rows
/// with pairwise distinct hashes, read by exact hash match. It realizes
/// the same contract as the durable store the surrounding process may use
/// instead: `lookup` is a single-row exact-match read and `put` an insert
/// that fails on a duplicate key.
#[derive(Debug)]
pub struct CacheStore {
    pub entries: Vec<CacheEntry>,
}

impl CacheStore {
    pub open spec fn wf(self) -> bool {
        &&& forall|i: int| 0 <= i < self.entries@.len() ==> (#[trigger] self.entries@[i]).wf()
        &&& forall|i: int, j: int|
            0 <= i < j < self.entries@.len() ==> self.entries@[i].hash@ != self.entries@[j].hash@
    }

    /// Whether some row is keyed by `h`.
    pub open spec fn spec_contains(self, h: Seq<u8>) -> bool {
        exists|i: int| 0 <= i < self.entries@.len() && (#[trigger] self.entries@[i]).hash@ == h
    }

    /// The index of the row keyed by `h`, when one exists.
    pub open spec fn spec_index_of(self, h: Seq<u8>) -> int {
        choose|i: int| 0 <= i < self.entries@.len() && (#[trigger] self.entries@[i]).hash@ == h
    }

    /// The blob of the row keyed by `h`, when one exists.
    pub open spec fn spec_value_of(self, h: Seq<u8>) -> Seq<u8> {
        self.entries@[self.spec_index_of(h)].value@
    }

    pub fn new() -> (s: CacheStore)
        ensures
            s.wf(),
            s.entries@.len() == 0,
    {
        CacheStore { entries: Vec::new() }
    }

    proof fn lemma_unique_index(self, h: Seq<u8>, i: int)
        requires
            self.wf(),
            0 <= i < self.entries@.len(),
            self.entries@[i].hash@ == h,
        ensures
            self.spec_contains(h),
            self.spec_index_of(h) == i,
    {
        assert(self.spec_contains(h));
        let k = self.spec_index_of(h);
        if k < i {
            assert(self.entries@[k].hash@ != self.entries@[i].hash@);
        } else if k > i {
            assert(self.entries@[i].hash@ != self.entries@[k].hash@);
        }
    }

    /// Exact-match read of the blob keyed by `hash`; `None` when no row
    /// carries that key.
    pub fn lookup(&self, hash: &Vec<u8>) -> (r: Option<Vec<u8>>)
        requires
            self.wf(),
        ensures
            match r {
                Some(v) => self.spec_contains(hash@) && v@ == self.spec_value_of(hash@),
                None => !self.spec_contains(hash@),
            },
    {
        let mut i: usize = 0;
        while i < self.entries.len()
            invariant
                self.wf(),
                i <= self.entries@.len(),
                forall|j: int| 0 <= j < i ==> (#[trigger] self.entries@[j]).hash@ != hash@,
            decreases self.entries@.len() - i,
        {
            if bytes_eq(&self.entries[i].hash, hash) {
                let v = clone_bytes(&self.entries[i].value);
                proof {
                    self.lemma_unique_index(hash@, i as int);
                }
                return Some(v);
            }
            i += 1;
        }
        None
    }

    fn contains_hash(&self, hash: &Vec<u8>) -> (r: bool)
        ensures
            r == self.spec_contains(hash@),
    {
        let mut i: usize = 0;
        while i < self.entries.len()
            invariant
                i <= self.entries@.len(),
                forall|j: int| 0 <= j < i ==> (#[trigger] self.entries@[j]).hash@ != hash@,
            decreases self.entries@.len() - i,
        {
            if bytes_eq(&self.entries[i].hash, hash) {
                return true;
            }
            i += 1;
        }
        false
    }

    /// Unconditional insert of one row. A duplicate key is refused and
    /// leaves the store unchanged; nothing is ever updated or deleted.
    pub fn put(&mut self, model: String, dimensions: u64, hash: Vec<u8>, value: Vec<u8>) -> (r:
        Result<(), ProxyError>)
        requires
            old(self).wf(),
            hash@.len() == 32,
            value@.len() == 4 * dimensions,
        ensures
            final(self).wf(),
            match r {
                Ok(()) => {
                    &&& !old(self).spec_contains(hash@)
                    &&& final(self).entries@ == old(self).entries@.push(
                        (CacheEntry { model, dimensions, hash, value }),
                    )
                    &&& final(self).spec_contains(hash@)
                    &&& final(self).spec_value_of(hash@) == value@
                    &&& forall|h: Seq<u8>|
                        (#[trigger] final(self).spec_contains(h)) <==> (old(self).spec_contains(h)
                            || h == hash@)
                    &&& forall|h: Seq<u8>|
                        #[trigger] old(self).spec_contains(h) ==> final(self).spec_value_of(h)
                            == old(self).spec_value_of(h)
                },
                Err(e) => {
                    &&& e == ProxyError::CacheWriteFailure
                    &&& old(self).spec_contains(hash@)
                    &&& *final(self) == *old(self)
                },
            },
    {
        if self.contains_hash(&hash) {
            return Err(ProxyError::CacheWriteFailure);
        }
        let ghost pre = *self;
        let ghost entry_hash = hash@;
        let ghost entry_value = value@;
        self.entries.push(CacheEntry { model, dimensions, hash, value });
        proof {
            let n = pre.entries@.len() as int;
            assert(self.entries@[n].hash@ == entry_hash);
            assert forall|i: int, j: int|
                0 <= i < j < self.entries@.len() implies self.entries@[i].hash@
                != self.entries@[j].hash@ by {
                if j < n {
                    assert(pre.entries@[i].hash@ != pre.entries@[j].hash@);
                } else {
                    assert(self.entries@[i] == pre.entries@[i]);
                    assert(!pre.spec_contains(entry_hash));
                    assert(pre.entries@[i].hash@ != entry_hash);
                }
            }
            self.lemma_unique_index(entry_hash, n);
            assert(self.spec_value_of(entry_hash) == entry_value);
            assert forall|h: Seq<u8>| #[trigger]
                self.spec_contains(h) implies (pre.spec_contains(h) || h == entry_hash) by {
                let i = self.spec_index_of(h);
                assert(self.entries@[i].hash@ == h);
                if i < n {
                    assert(pre.entries@[i].hash@ == h);
                }
            }
            assert forall|h: Seq<u8>| pre.spec_contains(h) implies #[trigger]
                self.spec_contains(h) by {
                let i = pre.spec_index_of(h);
                assert(pre.entries@[i].hash@ == h);
                assert(self.entries@[i].hash@ == h);
            }
            assert forall|h: Seq<u8>| #[trigger]
                pre.spec_contains(h) implies self.spec_value_of(h) == pre.spec_value_of(h) by {
                let i = pre.spec_index_of(h);
                assert(pre.entries@[i].hash@ == h);
                pre.lemma_unique_index(h, i);
                assert(self.entries@[i].hash@ == h);
                self.lemma_unique_index(h, i);
            }
        }
        Ok(())
    }
}

/// Law: in a well-formed store every row's blob holds exactly
/// `4 × dimensions` bytes.
pub proof fn lemma_store_rows_sized(s: CacheStore)
    requires
        s.wf(),
    ensures
        forall|i: int|
            0 <= i < s.entries@.len() ==> (#[trigger] s.entries@[i]).value@.len() == 4
                * s.entries@[i].dimensions,
{
}

} // verus!
