use vstd::prelude::*;
use std::collections::HashSet;

verus! {

/// Tells real words from made-up ones.
pub trait Dictionary {
    fn contains_word(&self, word: &str) -> bool;
}

/// A dictionary that knows exactly the words of a set.
pub struct HashSetDictionary(pub HashSet<String>);

impl Dictionary for HashSetDictionary {
    fn contains_word(&self, word: &str) -> bool {
        self.0.contains(word)
    }
}

} // verus!
