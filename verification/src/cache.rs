//! The remembered download sizes of model URLs.

use vstd::prelude::*;
use crate::table::StrTable;

verus! {

/// Sizes in bytes remembered per model URL.
pub struct SizeCache {
    pub sizes: StrTable<u64>,
}

impl SizeCache {
    /// A cache that remembers nothing.
    pub fn new() -> (c: Self)
        ensures
            c.sizes@ == Map::<Seq<char>, u64>::empty(),
    {
        SizeCache { sizes: StrTable::new() }
    }

    /// The size remembered for `url`, if any.
    pub fn get_size(&self, url: &str) -> (r: Option<u64>)
        ensures
            r == self.sizes@.get(url@),
    {
        match self.sizes.get(url) {
            Some(s) => Some(*s),
            None => None,
        }
    }

    /// Remembers `size` for `url`, replacing what was remembered before.
    pub fn record_size(&mut self, url: String, size: u64)
        ensures
            final(self).sizes@ == old(self).sizes@.insert(url@, size),
    {
        self.sizes.insert(url, size);
    }
}

/// What `record_size` stores is what `get_size` then answers for that URL,
/// and every other URL keeps the answer it had.
pub proof fn lemma_record_then_get(
    before: SizeCache,
    after: SizeCache,
    url: Seq<char>,
    size: u64,
    other: Seq<char>,
)
    requires
        after.sizes@ == before.sizes@.insert(url, size),
    ensures
        after.sizes@.get(url) == Some(size),
        other != url ==> after.sizes@.get(other) == before.sizes@.get(other),
{
}

} // verus!
