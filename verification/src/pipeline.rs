//! Decisions of the paginated producer stages.  The stages themselves run
//! over bounded queues outside the library; what is decided here is exactly
//! which items of each fetched batch flow downstream, when an optional
//! count ceiling cuts the stream short, and when fetching stops.

use vstd::prelude::*;
use crate::authors::Author;
use crate::history::CommitRec;
use crate::listing::{Page, ParsedRevision};

verus! {

/// How many of a batch of `n` items a ceiling lets through.
pub open spec fn take_count(remaining: Option<u32>, n: nat) -> nat {
    match remaining {
        None => n,
        Some(c) => if c as nat <= n {
            c as nat
        } else {
            n
        },
    }
}

/// The page stage: emits fetched pages until the listing reports no further
/// continuation or the optional page-count ceiling is reached.
pub struct PagePump {
    pub remaining: Option<u32>,
    pub finished: bool,
}

impl PagePump {
    pub fn new(page_count: Option<u32>) -> (r: PagePump)
        ensures
            r.remaining == page_count,
            !r.finished,
    {
        PagePump { remaining: page_count, finished: false }
    }

    /// Consumes one fetched batch: emits its first `take_count` pages, in
    /// order, and decides whether fetching goes on.  Fetching stops once the
    /// ceiling cuts a batch short, or when no continuation follows.
    pub fn step(&mut self, batch: &Vec<Page>, has_continuation: bool) -> (emit: Vec<Page>)
        requires
            !old(self).finished,
        ensures
            emit@.len() == take_count(old(self).remaining, batch@.len()),
            forall|k: int| 0 <= k < emit@.len() ==> emit@[k] == batch@[k],
            final(self).remaining == match old(self).remaining {
                None => None::<u32>,
                Some(c) => Some((c - take_count(old(self).remaining, batch@.len())) as u32),
            },
            final(self).finished == ({
                ||| match old(self).remaining {
                    None => false,
                    Some(c) => (c as nat) < batch@.len(),
                }
                ||| !has_continuation
            }),
    {
        let n = batch.len();
        let take: usize = match self.remaining {
            None => n,
            Some(c) => {
                if (c as usize) <= n {
                    c as usize
                } else {
                    n
                }
            },
        };
        let mut emit: Vec<Page> = Vec::new();
        let mut k: usize = 0;
        while k < take
            invariant
                k <= take,
                take <= batch@.len(),
                emit@.len() == k,
                forall|j: int| 0 <= j < k ==> emit@[j] == batch@[j],
            decreases take - k,
        {
            emit.push(duplicate_page(&batch[k]));
            k = k + 1;
        }
        let cut = match self.remaining {
            None => false,
            Some(c) => (c as usize) < n,
        };
        self.remaining = match self.remaining {
            None => None,
            Some(c) => Some(c - (take as u32)),
        };
        self.finished = cut || !has_continuation;
        emit
    }
}

/// The revision stage for one page: emits fetched revisions, oldest first,
/// until the listing reports no further continuation or the optional
/// per-page revision-count ceiling is reached.
pub struct RevisionPump {
    pub remaining: Option<u32>,
    pub finished: bool,
}

impl RevisionPump {
    pub fn new(revision_count: Option<u32>) -> (r: RevisionPump)
        ensures
            r.remaining == revision_count,
            !r.finished,
    {
        RevisionPump { remaining: revision_count, finished: false }
    }

    /// Consumes one fetched batch of parsed revisions; mirrors
    /// `PagePump::step`.
    pub fn step(&mut self, batch: &Vec<ParsedRevision>, has_continuation: bool) -> (emit: Vec<
        ParsedRevision,
    >)
        requires
            !old(self).finished,
        ensures
            emit@.len() == take_count(old(self).remaining, batch@.len()),
            forall|k: int| 0 <= k < emit@.len() ==> emit@[k] == batch@[k],
            final(self).remaining == match old(self).remaining {
                None => None::<u32>,
                Some(c) => Some((c - take_count(old(self).remaining, batch@.len())) as u32),
            },
            final(self).finished == ({
                ||| match old(self).remaining {
                    None => false,
                    Some(c) => (c as nat) < batch@.len(),
                }
                ||| !has_continuation
            }),
    {
        let n = batch.len();
        let take: usize = match self.remaining {
            None => n,
            Some(c) => {
                if (c as usize) <= n {
                    c as usize
                } else {
                    n
                }
            },
        };
        let mut emit: Vec<ParsedRevision> = Vec::new();
        let mut k: usize = 0;
        while k < take
            invariant
                k <= take,
                take <= batch@.len(),
                emit@.len() == k,
                forall|j: int| 0 <= j < k ==> emit@[j] == batch@[j],
            decreases take - k,
        {
            emit.push(duplicate_parsed_revision(&batch[k]));
            k = k + 1;
        }
        let cut = match self.remaining {
            None => false,
            Some(c) => (c as usize) < n,
        };
        self.remaining = match self.remaining {
            None => None,
            Some(c) => Some(c - (take as u32)),
        };
        self.finished = cut || !has_continuation;
        emit
    }
}

/// A copy of a fetched page.
pub fn duplicate_page(p: &Page) -> (r: Page)
    ensures
        r == *p,
{
    Page { pageid: p.pageid, title: p.title.clone() }
}

/// A copy of a parsed revision.
pub fn duplicate_parsed_revision(p: &ParsedRevision) -> (r: ParsedRevision)
    ensures
        r == *p,
{
    ParsedRevision {
        revid: p.revid,
        timestamp: p.timestamp,
        title: p.title.clone(),
        user: p.user.clone(),
        comment: p.comment.clone(),
        content: p.content.clone(),
    }
}

/// The document written for a revision: the page title as a heading above
/// the externally converted body.
pub open spec fn document_with_heading(title: Seq<char>, body: Seq<char>) -> Seq<char> {
    "# "@ + title + "\n\n"@ + body
}

/// Prefixes the page title as a heading to the converted body.
pub fn compose_document(title: &str, body: &str) -> (r: String)
    ensures
        r@ == document_with_heading(title@, body@),
{
    let mut out = String::new();
    out.append("# ");
    out.append(title);
    out.append("\n\n");
    out.append(body);
    out
}

/// The commit the commit stage creates for one converted revision: the
/// resolved author identity, the revision's own edit time, its comment as
/// the message, and the converted document as the content.
pub fn make_commit_record(rev: &ParsedRevision, author: &Author, content: String) -> (r: CommitRec)
    ensures
        r.author_name@ == author.name@,
        r.author_email@ == author.email@,
        r.time == rev.timestamp,
        r.message@ == rev.comment@,
        r.content@ == content@,
{
    CommitRec {
        author_name: author.name.clone(),
        author_email: author.email.clone(),
        time: rev.timestamp,
        message: rev.comment.clone(),
        content,
    }
}

} // verus!
