//! The singleton-size cache used by the matrix engine.
//!
//! Buffers are keyed by a 256-bit content fingerprint; the cache maps each
//! fingerprint to the compressed length of the first buffer seen with it, so
//! byte-identical content anywhere in either input set is compressed once.
//! The cache is append-only, scoped to one matrix computation, and bounded by
//! the number of distinct contents in a single call.

use vstd::prelude::*;

verus! {

/// The 32-byte content fingerprint of `data`: a function of the bytes alone.
pub uninterp spec fn blake3_of(data: Seq<u8>) -> Seq<u8>;

/// Relies on blake3::hash: the 32-byte digest depends on the input bytes
/// alone, the same in every process.
#[verifier::external_body]
pub(crate) fn blake3_fingerprint(data: &[u8]) -> (r: [u8; 32])
    ensures
        r@ == blake3_of(data@),
{
    *blake3::hash(data).as_bytes()
}

/// The size recorded for `key`: the value of the first entry whose
/// fingerprint equals `key`, if any.
pub open spec fn assoc_find(entries: Seq<([u8; 32], usize)>, key: Seq<u8>) -> Option<usize>
    decreases entries.len(),
{
    if entries.len() == 0 {
        None
    } else if entries[0].0@ == key {
        Some(entries[0].1)
    } else {
        assoc_find(entries.drop_first(), key)
    }
}

/// Appending an entry leaves every present key as it was and adds the new
/// key only if it was absent.
pub proof fn lemma_assoc_find_push(
    entries: Seq<([u8; 32], usize)>,
    entry: ([u8; 32], usize),
    key: Seq<u8>,
)
    ensures
        assoc_find(entries.push(entry), key) == if assoc_find(entries, key) is Some {
            assoc_find(entries, key)
        } else if entry.0@ == key {
            Some(entry.1)
        } else {
            None::<usize>
        },
    decreases entries.len(),
{
    reveal_with_fuel(assoc_find, 3);
    if entries.len() == 0 {
        assert(entries.push(entry)[0] == entry);
        assert(entries.push(entry).drop_first() =~= Seq::<([u8; 32], usize)>::empty());
    } else {
        assert(entries.push(entry)[0] == entries[0]);
        assert(entries.push(entry).drop_first() =~= entries.drop_first().push(entry));
        lemma_assoc_find_push(entries.drop_first(), entry, key);
    }
}

fn keys_equal(a: &[u8; 32], b: &[u8; 32]) -> (r: bool)
    ensures
        r == (a@ == b@),
{
    let mut i: usize = 0;
    while i < 32
        invariant
            0 <= i <= 32,
            forall|j: int| 0 <= j < i ==> a@[j] == b@[j],
        decreases 32 - i,
    {
        if a[i] != b[i] {
            assert(a@[i as int] != b@[i as int]);
            return false;
        }
        i = i + 1;
    }
    assert(a@ =~= b@);
    true
}

/// An append-only mapping from content fingerprint to singleton compressed
/// length.  Lookups return the value of the first entry with the key, and
/// keys are never inserted twice, so the entry count equals the number of
/// distinct fingerprints recorded.
pub struct SizeCache {
    entries: Vec<([u8; 32], usize)>,
}

impl View for SizeCache {
    type V = Seq<([u8; 32], usize)>;

    closed spec fn view(&self) -> Seq<([u8; 32], usize)> {
        self.entries@
    }
}

impl SizeCache {
    /// An empty cache.
    pub fn new() -> (r: Self)
        ensures
            r@ == Seq::<([u8; 32], usize)>::empty(),
    {
        SizeCache { entries: Vec::new() }
    }

    /// How many distinct fingerprints have been recorded.
    pub fn len(&self) -> (r: usize)
        ensures
            r == self@.len(),
    {
        self.entries.len()
    }

    /// The size recorded for `key`, if any.
    pub fn get(&self, key: &[u8; 32]) -> (r: Option<usize>)
        ensures
            r == assoc_find(self@, key@),
    {
        let n = self.entries.len();
        let mut i: usize = 0;
        proof {
            assert(self.entries@.skip(0) =~= self.entries@);
        }
        while i < n
            invariant
                0 <= i <= n,
                n == self.entries@.len(),
                assoc_find(self@, key@) == assoc_find(self.entries@.skip(i as int), key@),
        decreases n - i,
        {
            let hit = keys_equal(&self.entries[i].0, key);
            proof {
                assert(self.entries@.skip(i as int)[0] == self.entries@[i as int]);
                assert(self.entries@.skip(i as int).drop_first() =~= self.entries@.skip(
                    i as int + 1,
                ));
            }
            if hit {
                return Some(self.entries[i].1);
            }
            i = i + 1;
        }
        proof {
            assert(self.entries@.skip(n as int) =~= Seq::<([u8; 32], usize)>::empty());
        }
        None
    }

    /// Record the size of a fingerprint not seen before.
    pub fn insert(&mut self, key: [u8; 32], size: usize)
        requires
            assoc_find(old(self)@, key@) is None,
        ensures
            final(self)@ == old(self)@.push((key, size)),
    {
        self.entries.push((key, size));
    }
}

} // verus!
