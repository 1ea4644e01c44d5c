//! Option bags of source readers and sink writers.

use vstd::prelude::*;
use crate::error::SpringError;
use crate::name::same_text;

verus! {

/// One option: a key and its value.
#[derive(Debug)]
pub struct OptionEntry {
    pub key: String,
    pub value: String,
}

/// Whether some entry has the key `key`.
pub open spec fn has_key(entries: Seq<OptionEntry>, key: Seq<char>) -> bool {
    exists|i: int| 0 <= i < entries.len() && (#[trigger] entries[i]).key@ == key
}

/// Whether `i` is the first position whose entry has the key `key`.
pub open spec fn first_with_key(entries: Seq<OptionEntry>, key: Seq<char>, i: int) -> bool {
    &&& 0 <= i < entries.len()
    &&& entries[i].key@ == key
    &&& forall|k: int| 0 <= k < i ==> (#[trigger] entries[k]).key@ != key
}

/// The options given in the `OPTIONS` clause of a statement, in the order
/// written.
#[derive(Debug)]
pub struct Options {
    pub entries: Vec<OptionEntry>,
}

impl Options {
    /// An empty bag.
    pub fn new() -> (res: Options)
        ensures
            res.entries@.len() == 0,
    {
        Options { entries: Vec::new() }
    }

    /// Adds an option after those present.
    pub fn add(&mut self, key: String, value: String)
        ensures
            final(self).entries@ == old(self).entries@.push(OptionEntry { key, value }),
    {
        self.entries.push(OptionEntry { key, value });
    }

    /// The value of the first option with the key `key`. Fails with
    /// `InvalidOption` exactly when no option has the key.
    pub fn get(&self, key: &str) -> (res: Result<&String, SpringError>)
        ensures
            res is Ok <==> has_key(self.entries@, key@),
            res matches Ok(v) ==> exists|i: int|
                first_with_key(self.entries@, key@, i) && *v == self.entries@[i].value,
            res matches Err(e) ==> e == SpringError::InvalidOption,
    {
        let mut i: usize = 0;
        while i < self.entries.len()
            invariant
                i <= self.entries.len(),
                forall|k: int| 0 <= k < i ==> (#[trigger] self.entries@[k]).key@ != key@,
            decreases self.entries.len() - i,
        {
            if same_text(self.entries[i].key.as_str(), key) {
                assert(first_with_key(self.entries@, key@, i as int));
                return Ok(&self.entries[i].value);
            }
            i = i + 1;
        }
        Err(SpringError::InvalidOption)
    }
}

} // verus!
