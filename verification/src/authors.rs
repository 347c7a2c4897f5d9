//! Author identities: maps wiki usernames to the name and email used for
//! commits.  A username without a mapping falls back to a synthesized
//! identity — the username itself with a placeholder email — because every
//! commit needs a non-empty email even when the true identity is unknown.

use vstd::prelude::*;
use vstd::string::StringSliceAdditionalSpecFns;
use crate::history::{copy_str, str_eq};

verus! {

/// One resolved author identity.
pub struct Author {
    pub name: String,
    pub email: String,
}

/// The author mapping, loaded once at startup from a tabular file.  Later
/// entries for a username shadow earlier ones, as reloading a map would.
pub struct AuthorData {
    pub authors: Vec<(String, Author)>,
}

/// The placeholder email of a synthesized identity.
pub open spec fn fallback_email() -> Seq<char> {
    "no-email@example.com"@
}

/// The first entry for `name`, which is the one most recently added.
pub open spec fn find_author(entries: Seq<(String, Author)>, name: Seq<char>) -> Option<Author>
    decreases entries.len(),
{
    if entries.len() == 0 {
        None
    } else if entries[0].0@ == name {
        Some(entries[0].1)
    } else {
        find_author(entries.drop_first(), name)
    }
}

impl Author {
    /// A copy with the same name and email.
    pub fn duplicate(&self) -> (r: Author)
        ensures
            r == *self,
    {
        Author { name: self.name.clone(), email: self.email.clone() }
    }
}

impl AuthorData {
    /// An empty mapping: every username falls back.
    pub fn new() -> (r: AuthorData)
        ensures
            r.authors@.len() == 0,
    {
        AuthorData { authors: Vec::new() }
    }

    /// Adds one mapping; it shadows any earlier entry for the same username.
    pub fn add_author(&mut self, username: String, author: Author)
        ensures
            find_author(final(self).authors@, username@) == Some(author),
            forall|n: Seq<char>|
                n != username@ ==> find_author(final(self).authors@, n) == find_author(
                    old(self).authors@,
                    n,
                ),
    {
        self.authors.insert(0, (username, author));
        proof {
            assert(self.authors@[0] == (username, author));
            assert(self.authors@.drop_first() =~= old(self).authors@);
        }
    }

    /// The identity used for a revision by `username`: the mapped identity,
    /// or the synthesized fallback when the map has none.
    pub fn resolve_author(&self, username: &str) -> (r: Author)
        ensures
            match find_author(self.authors@, username@) {
                Some(a) => r == a,
                None => r.name@ == username@ && r.email@ == fallback_email(),
            },
    {
        proof {
            assert(self.authors@.subrange(0, self.authors@.len() as int) =~= self.authors@);
        }
        let mut i: usize = 0;
        while i < self.authors.len()
            invariant
                i <= self.authors@.len(),
                find_author(self.authors@, username@) == find_author(
                    self.authors@.subrange(i as int, self.authors@.len() as int),
                    username@,
                ),
            decreases self.authors@.len() - i,
        {
            proof {
                let tail = self.authors@.subrange(i as int, self.authors@.len() as int);
                assert(tail[0] == self.authors@[i as int]);
                assert(tail.drop_first() =~= self.authors@.subrange(
                    i + 1,
                    self.authors@.len() as int,
                ));
            }
            if str_eq(self.authors[i].0.as_str(), username) {
                return self.authors[i].1.duplicate();
            }
            i = i + 1;
        }
        Author { name: copy_str(username), email: copy_str("no-email@example.com") }
    }

    /// Whether the map knows `username`.
    pub fn has_author(&self, username: &str) -> (r: bool)
        ensures
            r == (find_author(self.authors@, username@) is Some),
    {
        proof {
            assert(self.authors@.subrange(0, self.authors@.len() as int) =~= self.authors@);
        }
        let mut i: usize = 0;
        while i < self.authors.len()
            invariant
                i <= self.authors@.len(),
                find_author(self.authors@, username@) == find_author(
                    self.authors@.subrange(i as int, self.authors@.len() as int),
                    username@,
                ),
            decreases self.authors@.len() - i,
        {
            proof {
                let tail = self.authors@.subrange(i as int, self.authors@.len() as int);
                assert(tail[0] == self.authors@[i as int]);
                assert(tail.drop_first() =~= self.authors@.subrange(
                    i + 1,
                    self.authors@.len() as int,
                ));
            }
            if str_eq(self.authors[i].0.as_str(), username) {
                return true;
            }
            i = i + 1;
        }
        false
    }

    /// How many mappings the map holds.
    pub fn is_empty(&self) -> (r: bool)
        ensures
            r == (self.authors@.len() == 0),
    {
        self.authors.len() == 0
    }
}

} // verus!
