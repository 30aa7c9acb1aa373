//! Completions a user has defined under a name.

use vstd::prelude::*;
use crate::completion::Engine;

verus! {

/// An engine whose category is the name it was made with.
pub struct UserCompletion {
    pub name: String,
}

impl UserCompletion {
    /// An engine for the category `name`.
    pub fn new(name: &str) -> (r: UserCompletion)
        ensures
            r.name@ == name@,
    {
        UserCompletion { name: name.to_owned() }
    }
}

impl Engine for UserCompletion {
    /// Proposes one file, whatever the word.
    fn completions(&mut self, start: &str, line: &str) -> (r: Option<Vec<(String, String)>>)
        ensures
            *final(self) == *old(self),
            r matches Some(list) && list@.len() == 1 && list@[0].0@ == "test_file"@ && list@[0].1@
                == "test description"@,
    {
        let mut list: Vec<(String, String)> = Vec::new();
        list.push(("test_file".to_owned(), "test description".to_owned()));
        Some(list)
    }

    /// The name the engine was made with.
    fn category(&self) -> (r: String)
        ensures
            r@ == self.name@,
    {
        self.name.clone()
    }
}

} // verus!
