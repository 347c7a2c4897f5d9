//! Model of the synthesized history: every page owns a branch carrying one
//! commit per committed revision, and a shared trunk accumulates the folded
//! histories of all fully integrated pages.
//!
//! The model is the specification of what a run does to the repository:
//! `ensure_page_branch` creates or resumes a branch, `commit_revision` adds a
//! commit unless the content equals the branch tip's content (the empty-diff
//! skip), and `integrate` replays a branch onto the trunk, skipping commits
//! the trunk already carries (the resumed-replay skip).

use vstd::prelude::*;
use vstd::string::{StrSliceExecFns, StringExecFns, StringSliceAdditionalSpecFns};
use vstd::utf8::encode_utf8_decode_utf8;

verus! {

/// One commit: author identity, author timestamp (seconds), message, and the
/// content of the page file after this commit.
pub struct CommitRec {
    pub author_name: String,
    pub author_email: String,
    pub time: i64,
    pub message: String,
    pub content: String,
}

/// A page's branch: its name and its commits, oldest first.
pub struct PageBranch {
    pub name: String,
    pub commits: Vec<CommitRec>,
}

/// The modeled repository: the page branches and the shared trunk.  The
/// initial commit that every branch and the trunk grow from is left implicit.
pub struct RepoModel {
    pub branches: Vec<PageBranch>,
    pub trunk: Vec<CommitRec>,
}

/// Two commits carry the same identity, timestamp, message and content; a
/// replay treats such a commit as already applied.  A commit carries no
/// revision id: the replay recognizes an already-applied commit by its
/// patch, as the on-disk rebase does, so at most one commit per (page,
/// revision) pair survives by this equality together with the empty-diff
/// skip.
pub open spec fn same_commit(a: CommitRec, b: CommitRec) -> bool {
    a.author_name@ == b.author_name@ && a.author_email@ == b.author_email@ && a.time == b.time
        && a.message@ == b.message@ && a.content@ == b.content@
}

/// The commits of the first branch named `name`, if one exists.
pub open spec fn find_branch(entries: Seq<PageBranch>, name: Seq<char>) -> Option<Seq<CommitRec>>
    decreases entries.len(),
{
    if entries.len() == 0 {
        None
    } else if entries[0].name@ == name {
        Some(entries[0].commits@)
    } else {
        find_branch(entries.drop_first(), name)
    }
}

/// The resume point of a branch: the author time of its newest commit.
pub open spec fn resume_of(cs: Seq<CommitRec>) -> Option<i64> {
    if cs.len() == 0 {
        None
    } else {
        Some(cs.last().time)
    }
}

/// Whether a revision at time `t` is requested when resuming from `resume`:
/// only revisions strictly newer than the resume point are.
pub open spec fn newer_than(resume: Option<i64>, t: i64) -> bool {
    match resume {
        None => true,
        Some(r) => t > r,
    }
}

/// Whether committing `rec` onto `cs` is skipped: the branch tip already
/// holds byte-identical content (the empty-diff skip).
pub open spec fn skips_commit(cs: Seq<CommitRec>, rec: CommitRec) -> bool {
    cs.len() > 0 && cs.last().content@ == rec.content@
}

/// The branch after an attempt to commit `rec`.
pub open spec fn apply_commit(cs: Seq<CommitRec>, rec: CommitRec) -> Seq<CommitRec> {
    if skips_commit(cs, rec) {
        cs
    } else {
        cs.push(rec)
    }
}

/// One pipeline step for one fetched revision: revisions not newer than the
/// resume point are never requested, the rest are committed in order.
pub open spec fn sync_step(cs: Seq<CommitRec>, rec: CommitRec, resume: Option<i64>) -> Seq<
    CommitRec,
> {
    if newer_than(resume, rec.time) {
        apply_commit(cs, rec)
    } else {
        cs
    }
}

/// A whole revision stream folded onto a branch, oldest first, against a
/// fixed resume point.
pub open spec fn sync_all(cs: Seq<CommitRec>, revs: Seq<CommitRec>, resume: Option<i64>) -> Seq<
    CommitRec,
>
    decreases revs.len(),
{
    if revs.len() == 0 {
        cs
    } else {
        sync_all(sync_step(cs, revs[0], resume), revs.drop_first(), resume)
    }
}

/// Whether the trunk already carries a commit equal to `c`.
pub open spec fn contains_commit(t: Seq<CommitRec>, c: CommitRec) -> bool {
    exists|j: int| 0 <= j < t.len() && same_commit(t[j], c)
}

/// A branch replayed onto the trunk: each commit in order, appended unless
/// the trunk already carries it (reported "already applied" by the replay).
pub open spec fn replay(t: Seq<CommitRec>, cs: Seq<CommitRec>) -> Seq<CommitRec>
    decreases cs.len(),
{
    if cs.len() == 0 {
        t
    } else {
        replay(
            if contains_commit(t, cs[0]) {
                t
            } else {
                t.push(cs[0])
            },
            cs.drop_first(),
        )
    }
}

impl RepoModel {
    /// Branch names are unique, so a name denotes one branch.
    pub open spec fn wf(self) -> bool {
        forall|i: int, j: int|
            0 <= i < j < self.branches@.len() ==> self.branches@[i].name@ != self.branches@[j].name@
    }

    pub open spec fn branch(self, name: Seq<char>) -> Option<Seq<CommitRec>> {
        find_branch(self.branches@, name)
    }

    /// A fresh repository: no page branches, an empty trunk.
    pub fn new_repo() -> (m: RepoModel)
        ensures
            m.wf(),
            m.branches@.len() == 0,
            m.trunk@.len() == 0,
    {
        RepoModel { branches: Vec::new(), trunk: Vec::new() }
    }

    /// Index of the branch named `name`, tied to `find_branch`.
    fn branch_index(&self, name: &str) -> (r: Option<usize>)
        ensures
            match r {
                None => self.branch(name@) is None,
                Some(i) => i < self.branches@.len() && self.branches@[i as int].name@ == name@
                    && self.branch(name@) == Some(self.branches@[i as int].commits@),
            },
    {
        proof {
            assert(self.branches@.subrange(0, self.branches@.len() as int) =~= self.branches@);
        }
        let mut i: usize = 0;
        while i < self.branches.len()
            invariant
                i <= self.branches@.len(),
                find_branch(self.branches@, name@) == find_branch(
                    self.branches@.subrange(i as int, self.branches@.len() as int),
                    name@,
                ),
            decreases self.branches@.len() - i,
        {
            proof {
                let tail = self.branches@.subrange(i as int, self.branches@.len() as int);
                assert(tail[0] == self.branches@[i as int]);
                assert(tail.drop_first() =~= self.branches@.subrange(
                    i + 1,
                    self.branches@.len() as int,
                ));
            }
            if str_eq(self.branches[i].name.as_str(), name) {
                return Some(i);
            }
            i = i + 1;
        }
        None
    }

    /// Creates the page branch if it does not exist; otherwise reports the
    /// resume point: the author time of its newest commit.  Returns
    /// `(created, resume_point)`.
    pub fn ensure_page_branch(&mut self, name: &str) -> (r: (bool, Option<i64>))
        requires
            old(self).wf(),
        ensures
            final(self).wf(),
            final(self).trunk@ == old(self).trunk@,
            match old(self).branch(name@) {
                None => {
                    &&& r.0
                    &&& r.1 is None
                    &&& final(self).branches@ == old(self).branches@.push(final(self).branches@.last())
                    &&& final(self).branches@.last().name@ == name@
                    &&& final(self).branches@.last().commits@.len() == 0
                },
                Some(cs) => {
                    &&& !r.0
                    &&& r.1 == resume_of(cs)
                    &&& final(self).branches@ == old(self).branches@
                },
            },
            forall|n: Seq<char>| n != name@ ==> final(self).branch(n) == old(self).branch(n),
            final(self).branch(name@) is Some,
    {
        match self.branch_index(name) {
            Some(i) => {
                let cs_len = self.branches[i].commits.len();
                let resume = if cs_len == 0 {
                    None
                } else {
                    Some(self.branches[i].commits[cs_len - 1].time)
                };
                (false, resume)
            },
            None => {
                let fresh = PageBranch { name: copy_str(name), commits: Vec::new() };
                self.branches.push(fresh);
                proof {
                    lemma_find_branch_none(old(self).branches@, name@);
                    lemma_find_branch_push(old(self).branches@, self.branches@.last(), name@);
                    assert forall|n: Seq<char>| n != name@ implies final(self).branch(n) == old(self).branch(n) by {
                        lemma_find_branch_push(old(self).branches@, self.branches@.last(), n);
                    }
                }
                (true, None)
            },
        }
    }

    /// Commits `rec` onto the named branch unless the branch tip already
    /// holds the same content; reports whether a commit was created.
    pub fn commit_revision(&mut self, name: &str, rec: CommitRec) -> (r: bool)
        requires
            old(self).wf(),
            old(self).branch(name@) is Some,
        ensures
            final(self).wf(),
            final(self).trunk@ == old(self).trunk@,
            r == !skips_commit(old(self).branch(name@)->Some_0, rec),
            final(self).branch(name@) == Some(apply_commit(old(self).branch(name@)->Some_0, rec)),
            forall|n: Seq<char>| n != name@ ==> final(self).branch(n) == old(self).branch(n),
    {
        let i = match self.branch_index(name) {
            Some(i) => i,
            None => {
                // The branch exists by the precondition.
                proof {
                    assert(false);
                }
                0
            },
        };
        let mut entry = self.branches.remove(i);
        let cs_len = entry.commits.len();
        let skip = cs_len > 0 && str_eq(
            entry.commits[cs_len - 1].content.as_str(),
            rec.content.as_str(),
        );
        let committed = !skip;
        if !skip {
            entry.commits.push(rec);
        }
        self.branches.insert(i, entry);
        proof {
            assert(self.branches@ =~= old(self).branches@.update(
                i as int,
                self.branches@[i as int],
            ));
            lemma_find_branch_update(
                old(self).branches@,
                i as int,
                self.branches@[i as int],
                name@,
            );
            assert forall|n: Seq<char>| n != name@ implies final(self).branch(n) == old(self).branch(n) by {
                lemma_find_branch_update(
                    old(self).branches@,
                    i as int,
                    self.branches@[i as int],
                    n,
                );
            }
        }
        committed
    }


    /// One page through the whole pipeline: ensure its branch exists, commit
    /// every fetched revision strictly newer than the resume point, oldest
    /// first, then fold the branch into the trunk.  Returns whether the
    /// branch was created and the resume point the run started from.
    pub fn run_page(&mut self, branch_name: &str, revs: &Vec<CommitRec>) -> (r: (
        bool,
        Option<i64>,
    ))
        requires
            old(self).wf(),
        ensures
            final(self).wf(),
            ({
                let cs0 = match old(self).branch(branch_name@) {
                    None => Seq::<CommitRec>::empty(),
                    Some(cs) => cs,
                };
                let cs1 = sync_all(cs0, revs@, resume_of(cs0));
                &&& r.0 == (old(self).branch(branch_name@) is None)
                &&& r.1 == resume_of(cs0)
                &&& final(self).branch(branch_name@) == Some(cs1)
                &&& final(self).trunk@ == replay(old(self).trunk@, cs1)
            }),
            forall|n: Seq<char>| n != branch_name@ ==> final(self).branch(n) == old(self).branch(n),
    {
        let ghost cs0 = match old(self).branch(branch_name@) {
            None => Seq::<CommitRec>::empty(),
            Some(cs) => cs,
        };
        let (created, resume) = self.ensure_page_branch(branch_name);
        proof {
            assert(resume == resume_of(cs0));
            assert(self.branch(branch_name@) == Some(cs0)) by {
                if old(self).branch(branch_name@) is None {
                    lemma_find_branch_push(
                        old(self).branches@,
                        self.branches@.last(),
                        branch_name@,
                    );
                    assert(self.branch(branch_name@) == Some(self.branches@.last().commits@));
                    assert(self.branches@.last().commits@ =~= Seq::<CommitRec>::empty());
                }
            }
            assert(revs@.subrange(0, 0) =~= Seq::<CommitRec>::empty());
        }
        let mut k: usize = 0;
        while k < revs.len()
            invariant
                k <= revs@.len(),
                self.wf(),
                resume == resume_of(cs0),
                self.branch(branch_name@) == Some(
                    sync_all(cs0, revs@.subrange(0, k as int), resume),
                ),
                self.trunk@ == old(self).trunk@,
                forall|n: Seq<char>|
                    n != branch_name@ ==> self.branch(n) == old(self).branch(n),
            decreases revs@.len() - k,
        {
            proof {
                lemma_sync_all_snoc(cs0, revs@.subrange(0, k as int), revs@[k as int], resume);
                assert(revs@.subrange(0, k + 1) =~= revs@.subrange(0, k as int).push(
                    revs@[k as int],
                ));
            }
            let rec = duplicate_commit(&revs[k]);
            let newer = match resume {
                None => true,
                Some(t) => rec.time > t,
            };
            if newer {
                let _ = self.commit_revision(branch_name, rec);
            }
            k = k + 1;
        }
        proof {
            assert(revs@.subrange(0, revs@.len() as int) =~= revs@);
        }
        self.integrate(branch_name);
        (created, resume)
    }

    /// Folds the named branch into the trunk: replays every commit in order,
    /// skipping each one the trunk already carries.
    pub fn integrate(&mut self, name: &str)
        requires
            old(self).wf(),
            old(self).branch(name@) is Some,
        ensures
            final(self).wf(),
            final(self).branches@ == old(self).branches@,
            final(self).trunk@ == replay(old(self).trunk@, old(self).branch(name@)->Some_0),
    {
        let i = match self.branch_index(name) {
            Some(i) => i,
            None => {
                // The branch exists by the precondition.
                proof {
                    assert(false);
                }
                0
            },
        };
        let ghost cs = self.branches@[i as int].commits@;
        let n = self.branches[i].commits.len();
        let mut k: usize = 0;
        proof {
            assert(cs.subrange(0, 0) =~= Seq::<CommitRec>::empty());
        }
        while k < n
            invariant
                k <= n,
                n == cs.len(),
                old(self).wf(),
                self.branches@ == old(self).branches@,
                i < self.branches@.len(),
                cs == self.branches@[i as int].commits@,
                self.trunk@ == replay(old(self).trunk@, cs.subrange(0, k as int)),
            decreases n - k,
        {
            proof {
                lemma_replay_snoc(old(self).trunk@, cs.subrange(0, k as int), cs[k as int]);
                assert(cs.subrange(0, k + 1) =~= cs.subrange(0, k as int).push(cs[k as int]));
            }
            let present = contains_commit_exec(&self.trunk, &self.branches[i].commits[k]);
            if !present {
                let c = duplicate_commit(&self.branches[i].commits[k]);
                assert(c == cs[k as int]);
                self.trunk.push(c);
            }
            k = k + 1;
        }
        proof {
            assert(cs.subrange(0, n as int) =~= cs);
        }
    }
}

/// Whether the trunk already carries a commit equal to `*c`.
fn contains_commit_exec(t: &Vec<CommitRec>, c: &CommitRec) -> (r: bool)
    ensures
        r == contains_commit(t@, *c),
{
    let mut j: usize = 0;
    while j < t.len()
        invariant
            j <= t@.len(),
            forall|m: int| 0 <= m < j ==> !same_commit(t@[m], *c),
        decreases t@.len() - j,
    {
        if commits_match(&t[j], c) {
            return true;
        }
        j = j + 1;
    }
    false
}

/// Whether two commits carry the same identity, timestamp, message and
/// content.
fn commits_match(a: &CommitRec, b: &CommitRec) -> (r: bool)
    ensures
        r == same_commit(*a, *b),
{
    a.time == b.time && str_eq(a.author_name.as_str(), b.author_name.as_str()) && str_eq(
        a.author_email.as_str(),
        b.author_email.as_str(),
    ) && str_eq(a.message.as_str(), b.message.as_str()) && str_eq(
        a.content.as_str(),
        b.content.as_str(),
    )
}

/// A commit with the same fields.
pub fn duplicate_commit(c: &CommitRec) -> (r: CommitRec)
    ensures
        r == *c,
{
    CommitRec {
        author_name: c.author_name.clone(),
        author_email: c.author_email.clone(),
        time: c.time,
        message: c.message.clone(),
        content: c.content.clone(),
    }
}

/// Whether two string slices read the same: their UTF-8 bytes are compared,
/// and UTF-8 encoding round-trips, so byte equality is character equality.
pub fn str_eq(a: &str, b: &str) -> (r: bool)
    ensures
        r == (a@ == b@),
{
    let av = a.as_bytes_vec();
    let bv = b.as_bytes_vec();
    proof {
        encode_utf8_decode_utf8(a@);
        encode_utf8_decode_utf8(b@);
    }
    if av.len() != bv.len() {
        return false;
    }
    let mut i: usize = 0;
    while i < av.len()
        invariant
            i <= av@.len(),
            av@.len() == bv@.len(),
            av@ == a.spec_bytes(),
            bv@ == b.spec_bytes(),
            a@ == vstd::utf8::decode_utf8(a.spec_bytes()),
            b@ == vstd::utf8::decode_utf8(b.spec_bytes()),
            forall|j: int| 0 <= j < i ==> av@[j] == bv@[j],
        decreases av@.len() - i,
    {
        if av[i] != bv[i] {
            return false;
        }
        i = i + 1;
    }
    proof {
        assert(av@ =~= bv@);
    }
    true
}

/// An owned copy of a string slice.
pub fn copy_str(s: &str) -> (r: String)
    ensures
        r@ == s@,
{
    String::from_str(s)
}

/// When no branch has the name, every entry's name differs from it.
pub proof fn lemma_find_branch_none(entries: Seq<PageBranch>, name: Seq<char>)
    requires
        find_branch(entries, name) is None,
    ensures
        forall|i: int| 0 <= i < entries.len() ==> entries[i].name@ != name,
    decreases entries.len(),
{
    if entries.len() > 0 {
        lemma_find_branch_none(entries.drop_first(), name);
        assert forall|i: int| 0 <= i < entries.len() implies entries[i].name@ != name by {
            if i > 0 {
                assert(entries.drop_first()[i - 1] == entries[i]);
            }
        }
    }
}

pub proof fn lemma_find_branch_push(entries: Seq<PageBranch>, b: PageBranch, name: Seq<char>)
    ensures
        find_branch(entries.push(b), name) == if find_branch(entries, name) is Some {
            find_branch(entries, name)
        } else if b.name@ == name {
            Some(b.commits@)
        } else {
            None::<Seq<CommitRec>>
        },
    decreases entries.len(),
{
    if entries.len() == 0 {
        assert(entries.push(b)[0] == b);
        if b.name@ != name {
            assert(entries.push(b).drop_first() =~= Seq::<PageBranch>::empty());
            assert(find_branch(Seq::<PageBranch>::empty(), name) is None);
        }
    } else {
        assert(entries.push(b)[0] == entries[0]);
        assert(entries.push(b).drop_first() =~= entries.drop_first().push(b));
        lemma_find_branch_push(entries.drop_first(), b, name);
    }
}

pub proof fn lemma_find_branch_update(
    entries: Seq<PageBranch>,
    i: int,
    b: PageBranch,
    name: Seq<char>,
)
    requires
        0 <= i < entries.len(),
        b.name@ == entries[i].name@,
        forall|p: int, q: int| 0 <= p < q < entries.len() ==> entries[p].name@ != entries[q].name@,
    ensures
        find_branch(entries.update(i, b), name) == if entries[i].name@ == name {
            Some(b.commits@)
        } else {
            find_branch(entries, name)
        },
    decreases entries.len(),
{
    if i == 0 {
        assert(entries.update(i, b)[0] == b);
        if b.name@ != name {
            assert(entries.update(i, b).drop_first() =~= entries.drop_first());
        }
    } else {
        assert(entries.update(i, b)[0] == entries[0]);
        assert(entries.update(i, b).drop_first() =~= entries.drop_first().update(i - 1, b));
        if entries[0].name@ == name {
            if entries[i].name@ == name {
                assert(entries[0].name@ != entries[i].name@);
            }
        } else {
            assert(forall|p: int, q: int|
                0 <= p < q < entries.drop_first().len() ==> entries.drop_first()[p].name@
                    != entries.drop_first()[q].name@);
            lemma_find_branch_update(entries.drop_first(), i - 1, b, name);
        }
    }
}

pub proof fn lemma_replay_snoc(t: Seq<CommitRec>, cs: Seq<CommitRec>, c: CommitRec)
    ensures
        replay(t, cs.push(c)) == if contains_commit(replay(t, cs), c) {
            replay(t, cs)
        } else {
            replay(t, cs).push(c)
        },
    decreases cs.len(),
{
    if cs.len() == 0 {
        assert(cs.push(c)[0] == c);
        assert(cs.push(c).drop_first() =~= Seq::<CommitRec>::empty());
        assert(replay(t, Seq::<CommitRec>::empty()) == t);
        assert(replay(t.push(c), Seq::<CommitRec>::empty()) == t.push(c));
    } else {
        assert(cs.push(c)[0] == cs[0]);
        assert(cs.push(c).drop_first() =~= cs.drop_first().push(c));
        if contains_commit(t, cs[0]) {
            lemma_replay_snoc(t, cs.drop_first(), c);
        } else {
            lemma_replay_snoc(t.push(cs[0]), cs.drop_first(), c);
        }
    }
}


/// Revision streams arrive oldest first: timestamps never decrease.
pub open spec fn sorted_by_time(revs: Seq<CommitRec>) -> bool {
    forall|i: int, j: int| 0 <= i <= j < revs.len() ==> revs[i].time <= revs[j].time
}

/// Resume points ordered: `None` lies below everything.
pub open spec fn resume_le(a: Option<i64>, b: Option<i64>) -> bool {
    match a {
        None => true,
        Some(x) => match b {
            None => false,
            Some(y) => x <= y,
        },
    }
}

pub proof fn lemma_sync_all_snoc(
    cs: Seq<CommitRec>,
    revs: Seq<CommitRec>,
    r: CommitRec,
    resume: Option<i64>,
)
    ensures
        sync_all(cs, revs.push(r), resume) == sync_step(sync_all(cs, revs, resume), r, resume),
    decreases revs.len(),
{
    if revs.len() == 0 {
        assert(revs.push(r)[0] == r);
        assert(revs.push(r).drop_first() =~= Seq::<CommitRec>::empty());
        assert(sync_all(sync_step(cs, r, resume), Seq::<CommitRec>::empty(), resume)
            == sync_step(cs, r, resume));
        assert(sync_all(cs, revs, resume) == cs);
    } else {
        assert(revs.push(r)[0] == revs[0]);
        assert(revs.push(r).drop_first() =~= revs.drop_first().push(r));
        lemma_sync_all_snoc(sync_step(cs, revs[0], resume), revs.drop_first(), r, resume);
    }
}

/// The facts one run of the commit stage leaves behind: the resume point
/// never moves backwards, the branch either stands unchanged or ends in one
/// of the committed revisions, and every revision still newer than the new
/// resume point was seen and skipped as an empty diff against the final tip.
proof fn lemma_sync_props(cs: Seq<CommitRec>, revs: Seq<CommitRec>, t0: Option<i64>)
    requires
        sorted_by_time(revs),
        match t0 {
            None => true,
            Some(t) => cs.len() > 0 && t <= cs.last().time,
        },
        forall|j: int|
            0 <= j < revs.len() && newer_than(t0, revs[j].time) ==> (cs.len() == 0
                || revs[j].time >= cs.last().time),
    ensures
        ({
            let out = sync_all(cs, revs, t0);
            &&& resume_le(resume_of(cs), resume_of(out))
            &&& (out == cs || (out.len() > 0 && exists|j: int|
                0 <= j < revs.len() && newer_than(t0, revs[j].time) && out.last() == revs[j]))
            &&& forall|j: int|
                0 <= j < revs.len() && newer_than(resume_of(out), revs[j].time) ==> (out.len() > 0
                    && out.last().content@ == revs[j].content@)
        }),
    decreases revs.len(),
{
    if revs.len() == 0 {
    } else {
        let r = revs[0];
        let rest = revs.drop_first();
        let cs2 = sync_step(cs, r, t0);
        let out = sync_all(cs, revs, t0);
        assert(out == sync_all(cs2, rest, t0));
        assert(sorted_by_time(rest)) by {
            assert(forall|i: int| 0 <= i < rest.len() ==> rest[i] == revs[i + 1]);
        }
        assert(forall|i: int| 0 <= i < rest.len() ==> rest[i] == revs[i + 1]);
        lemma_sync_props(cs2, rest, t0);
        // The resume point never moves backwards across one step.
        assert(resume_le(resume_of(cs), resume_of(cs2)));
        assert(resume_le(resume_of(cs), resume_of(out)));
        // The branch is unchanged or ends in a committed revision.
        if out == cs2 {
            if cs2 != cs {
                assert(out.last() == r && newer_than(t0, r.time));
            }
        }
        // Every revision newer than the final resume point was skipped
        // against the final tip.
        assert forall|j: int|
            0 <= j < revs.len() && newer_than(resume_of(out), revs[j].time) implies (out.len() > 0
                && out.last().content@ == revs[j].content@) by {
            if out.len() == 0 {
                assert(cs2.len() == 0);
                assert(cs.len() == 0);
                assert(newer_than(t0, r.time));
                assert(false);
            }
            let t1 = out.last().time;
            assert(resume_of(out) == Some(t1));
            if j == 0 {
                if !newer_than(t0, r.time) {
                    let t = t0->Some_0;
                    assert(cs.len() > 0 && t <= cs.last().time);
                    assert(resume_le(resume_of(cs), resume_of(out)));
                    assert(r.time <= t <= cs.last().time <= t1);
                    assert(false);
                } else if !skips_commit(cs, r) {
                    assert(cs2 == cs.push(r));
                    assert(resume_of(cs2) == Some(r.time));
                    assert(resume_le(resume_of(cs2), resume_of(out)));
                    assert(r.time <= t1);
                    assert(false);
                } else {
                    assert(cs2 == cs);
                    if out != cs2 {
                        let j2 = choose|j2: int|
                            0 <= j2 < rest.len() && newer_than(t0, rest[j2].time) && out.last()
                                == rest[j2];
                        assert(rest[j2].time >= r.time);
                        assert(out.last().time == rest[j2].time);
                        assert(false);
                    }
                    assert(out == cs);
                    assert(out.last().content@ == r.content@);
                }
            } else {
                assert(revs[j] == rest[j - 1]);
            }
        }
    }
}

/// When every still-newer revision matches the tip's content, a second pass
/// over the stream changes nothing.
proof fn lemma_sync_all_noop(cs: Seq<CommitRec>, revs: Seq<CommitRec>, t1: Option<i64>)
    requires
        forall|j: int|
            0 <= j < revs.len() && newer_than(t1, revs[j].time) ==> (cs.len() > 0
                && cs.last().content@ == revs[j].content@),
    ensures
        sync_all(cs, revs, t1) == cs,
    decreases revs.len(),
{
    if revs.len() > 0 {
        assert(sync_step(cs, revs[0], t1) == cs);
        assert(forall|i: int|
            0 <= i < revs.drop_first().len() ==> revs.drop_first()[i] == revs[i + 1]);
        lemma_sync_all_noop(cs, revs.drop_first(), t1);
    }
}

/// Membership in a sequence extended by one commit.
proof fn lemma_contains_push(t: Seq<CommitRec>, x: CommitRec, c: CommitRec)
    ensures
        contains_commit(t.push(x), c) == (contains_commit(t, c) || same_commit(x, c)),
{
    if contains_commit(t, c) {
        let j = choose|j: int| 0 <= j < t.len() && same_commit(t[j], c);
        assert(t.push(x)[j] == t[j]);
    }
    if same_commit(x, c) {
        assert(t.push(x)[t.len() as int] == x);
    }
    if contains_commit(t.push(x), c) {
        let j = choose|j: int| 0 <= j < t.push(x).len() && same_commit(t.push(x)[j], c);
        if j < t.len() {
            assert(t.push(x)[j] == t[j]);
        } else {
            assert(t.push(x)[j] == x);
        }
    }
}

/// A replay keeps everything the trunk carried and ends up carrying every
/// replayed commit.
pub proof fn lemma_replay_contains(t: Seq<CommitRec>, cs: Seq<CommitRec>)
    ensures
        forall|c: CommitRec| contains_commit(t, c) ==> contains_commit(replay(t, cs), c),
        forall|i: int| 0 <= i < cs.len() ==> contains_commit(replay(t, cs), cs[i]),
    decreases cs.len(),
{
    if cs.len() > 0 {
        let t2 = if contains_commit(t, cs[0]) {
            t
        } else {
            t.push(cs[0])
        };
        assert(replay(t, cs) == replay(t2, cs.drop_first()));
        assert forall|c: CommitRec| contains_commit(t, c) implies contains_commit(t2, c) by {
            if !contains_commit(t, cs[0]) {
                lemma_contains_push(t, cs[0], c);
            }
        }
        assert(contains_commit(t2, cs[0])) by {
            if !contains_commit(t, cs[0]) {
                lemma_contains_push(t, cs[0], cs[0]);
            }
        }
        lemma_replay_contains(t2, cs.drop_first());
        assert(forall|i: int|
            0 <= i < cs.drop_first().len() ==> cs.drop_first()[i] == cs[i + 1]);
        assert forall|i: int| 0 <= i < cs.len() implies contains_commit(replay(t, cs), cs[i]) by {
            if i == 0 {
                assert(contains_commit(t2, cs[0]));
            } else {
                assert(cs.drop_first()[i - 1] == cs[i]);
                assert(contains_commit(replay(t2, cs.drop_first()), cs.drop_first()[i - 1]));
            }
        }
    }
}

/// Replaying commits the trunk already carries leaves the trunk unchanged:
/// every step takes the already-applied path.
pub proof fn lemma_replay_noop(t: Seq<CommitRec>, cs: Seq<CommitRec>)
    requires
        forall|i: int| 0 <= i < cs.len() ==> contains_commit(t, cs[i]),
    ensures
        replay(t, cs) == t,
    decreases cs.len(),
{
    if cs.len() > 0 {
        assert(contains_commit(t, cs[0]));
        assert(forall|i: int|
            0 <= i < cs.drop_first().len() ==> cs.drop_first()[i] == cs[i + 1]);
        lemma_replay_noop(t, cs.drop_first());
    }
}

/// Law: after integrating a page none of whose commits the trunk carries,
/// the trunk is exactly its previous commits followed by the page's commits,
/// in order.
pub proof fn lemma_trunk_monotone(trunk: Seq<CommitRec>, cs: Seq<CommitRec>)
    requires
        forall|i: int| 0 <= i < cs.len() ==> !contains_commit(trunk, cs[i]),
        forall|i: int, j: int| 0 <= i < j < cs.len() ==> !same_commit(cs[i], cs[j]),
    ensures
        replay(trunk, cs) == trunk + cs,
    decreases cs.len(),
{
    if cs.len() == 0 {
        assert(trunk + cs =~= trunk);
    } else {
        assert(!contains_commit(trunk, cs[0]));
        let t2 = trunk.push(cs[0]);
        assert(replay(trunk, cs) == replay(t2, cs.drop_first()));
        assert(forall|i: int|
            0 <= i < cs.drop_first().len() ==> cs.drop_first()[i] == cs[i + 1]);
        assert forall|i: int|
            0 <= i < cs.drop_first().len() implies !contains_commit(t2, cs.drop_first()[i]) by {
            lemma_contains_push(trunk, cs[0], cs.drop_first()[i]);
        }
        lemma_trunk_monotone(t2, cs.drop_first());
        assert(t2 + cs.drop_first() =~= trunk + cs);
    }
}

/// Whether `c` equals one of the commits in `cs`.
pub open spec fn is_one_of(cs: Seq<CommitRec>, c: CommitRec) -> bool {
    exists|i: int| 0 <= i < cs.len() && cs[i] == c
}

/// Law: a replay never invents commits: the trunk's previous commits stay in
/// place, and everything after them equals some commit of the replayed page.
pub proof fn lemma_replay_frame(t: Seq<CommitRec>, cs: Seq<CommitRec>)
    ensures
        replay(t, cs).len() >= t.len(),
        forall|k: int| 0 <= k < t.len() ==> replay(t, cs)[k] == t[k],
        forall|k: int|
            t.len() <= k < replay(t, cs).len() ==> is_one_of(cs, #[trigger] replay(t, cs)[k]),
    decreases cs.len(),
{
    if cs.len() > 0 {
        let t2 = if contains_commit(t, cs[0]) {
            t
        } else {
            t.push(cs[0])
        };
        assert(replay(t, cs) == replay(t2, cs.drop_first()));
        lemma_replay_frame(t2, cs.drop_first());
        assert(forall|i: int|
            0 <= i < cs.drop_first().len() ==> cs.drop_first()[i] == cs[i + 1]);
        assert forall|k: int| 0 <= k < t.len() implies replay(t, cs)[k] == t[k] by {
            assert(replay(t2, cs.drop_first())[k] == t2[k]);
            assert(t2[k] == t[k]);
        }
        assert forall|k: int|
            t.len() <= k < replay(t, cs).len() implies is_one_of(
            cs,
            #[trigger] replay(t, cs)[k],
        ) by {
            if k < t2.len() {
                assert(replay(t, cs)[k] == t2[k]);
                assert(t2[k] == cs[0]);
                assert(cs[0] == replay(t, cs)[k]);
            } else {
                assert(is_one_of(cs.drop_first(), replay(t2, cs.drop_first())[k]));
                let i = choose|i: int|
                    0 <= i < cs.drop_first().len() && cs.drop_first()[i] == replay(
                        t2,
                        cs.drop_first(),
                    )[k];
                assert(cs[i + 1] == replay(t, cs)[k]);
            }
        }
    }
}

/// Law: a run only ever adds commits for revisions strictly newer than the
/// resume point it started from, and keeps the old commits in place.
pub proof fn lemma_resume_only_newer(cs: Seq<CommitRec>, revs: Seq<CommitRec>, t0: Option<i64>)
    ensures
        sync_all(cs, revs, t0).len() >= cs.len(),
        forall|k: int| 0 <= k < cs.len() ==> sync_all(cs, revs, t0)[k] == cs[k],
        forall|k: int|
            cs.len() <= k < sync_all(cs, revs, t0).len() ==> is_one_of(
                revs,
                #[trigger] sync_all(cs, revs, t0)[k],
            ) && newer_than(t0, sync_all(cs, revs, t0)[k].time),
    decreases revs.len(),
{
    if revs.len() > 0 {
        let cs2 = sync_step(cs, revs[0], t0);
        assert(sync_all(cs, revs, t0) == sync_all(cs2, revs.drop_first(), t0));
        lemma_resume_only_newer(cs2, revs.drop_first(), t0);
        assert(forall|i: int|
            0 <= i < revs.drop_first().len() ==> revs.drop_first()[i] == revs[i + 1]);
        let out = sync_all(cs, revs, t0);
        assert forall|k: int| 0 <= k < cs.len() implies out[k] == cs[k] by {
            assert(out[k] == cs2[k]);
        }
        assert forall|k: int|
            cs.len() <= k < sync_all(cs, revs, t0).len() implies is_one_of(
            revs,
            #[trigger] sync_all(cs, revs, t0)[k],
        ) && newer_than(t0, sync_all(cs, revs, t0)[k].time) by {
            assert(sync_all(cs, revs, t0)[k] == sync_all(cs2, revs.drop_first(), t0)[k]);
            if k < cs2.len() {
                assert(out[k] == cs2[k]);
                assert(cs2[k] == revs[0] && newer_than(t0, revs[0].time));
                assert(revs[0] == sync_all(cs, revs, t0)[k]);
            } else {
                assert(is_one_of(revs.drop_first(), sync_all(cs2, revs.drop_first(), t0)[k]));
                let j = choose|j: int|
                    0 <= j < revs.drop_first().len() && revs.drop_first()[j] == sync_all(
                        cs2,
                        revs.drop_first(),
                        t0,
                    )[k];
                assert(revs[j + 1] == sync_all(cs, revs, t0)[k]);
                assert(newer_than(t0, revs.drop_first()[j].time));
            }
        }
    }
}

/// Law: running the whole per-page pipeline a second time against the same
/// revision stream creates nothing new.  The second run's resume point
/// filters out every revision up to the last committed one; the stragglers
/// it still requests are skipped as empty diffs against the unchanged tip;
/// and every replay step finds its commit already applied, so the trunk
/// stands still too.
pub proof fn lemma_run_idempotent(
    cs0: Seq<CommitRec>,
    trunk0: Seq<CommitRec>,
    revs: Seq<CommitRec>,
)
    requires
        sorted_by_time(revs),
    ensures
        ({
            let cs1 = sync_all(cs0, revs, resume_of(cs0));
            let trunk1 = replay(trunk0, cs1);
            &&& sync_all(cs1, revs, resume_of(cs1)) == cs1
            &&& replay(trunk1, cs1) == trunk1
        }),
{
    let t0 = resume_of(cs0);
    let cs1 = sync_all(cs0, revs, t0);
    let trunk1 = replay(trunk0, cs1);
    lemma_sync_props(cs0, revs, t0);
    lemma_sync_all_noop(cs1, revs, resume_of(cs1));
    lemma_replay_contains(trunk0, cs1);
    lemma_replay_noop(trunk1, cs1);
}


/// The repository as one abstract state: which commits each branch carries,
/// and the trunk.
#[verifier::ext_equal]
pub struct RepoState {
    pub branches: Map<Seq<char>, Seq<CommitRec>>,
    pub trunk: Seq<CommitRec>,
}

/// The abstract state a model repository is in.
pub open spec fn state_of(m: RepoModel) -> RepoState {
    RepoState {
        branches: Map::new(
            |n: Seq<char>| find_branch(m.branches@, n) is Some,
            |n: Seq<char>| find_branch(m.branches@, n)->Some_0,
        ),
        trunk: m.trunk@,
    }
}

/// One page through the whole pipeline, on the abstract state: ensure the
/// branch, commit what is newer than its resume point, fold it into the
/// trunk.
pub open spec fn run_one(st: RepoState, name: Seq<char>, revs: Seq<CommitRec>) -> RepoState {
    let cs0 = if st.branches.dom().contains(name) {
        st.branches[name]
    } else {
        Seq::empty()
    };
    let cs1 = sync_all(cs0, revs, resume_of(cs0));
    RepoState { branches: st.branches.insert(name, cs1), trunk: replay(st.trunk, cs1) }
}

/// A whole run: every page through the pipeline, in order.
pub open spec fn run_all(st: RepoState, pages: Seq<(Seq<char>, Seq<CommitRec>)>) -> RepoState
    decreases pages.len(),
{
    if pages.len() == 0 {
        st
    } else {
        run_all(run_one(st, pages[0].0, pages[0].1), pages.drop_first())
    }
}

/// A page is settled in a state: its branch absorbs its revision stream
/// without change, and the trunk already carries its every commit.  Running
/// a settled page changes nothing.
pub open spec fn settled(st: RepoState, name: Seq<char>, revs: Seq<CommitRec>) -> bool {
    &&& st.branches.dom().contains(name)
    &&& sync_all(st.branches[name], revs, resume_of(st.branches[name])) == st.branches[name]
    &&& forall|i: int|
        0 <= i < st.branches[name].len() ==> contains_commit(st.trunk, st.branches[name][i])
}

/// One run of a page settles that page.
proof fn lemma_run_one_settles(st: RepoState, name: Seq<char>, revs: Seq<CommitRec>)
    requires
        sorted_by_time(revs),
    ensures
        settled(run_one(st, name, revs), name, revs),
{
    let cs0 = if st.branches.dom().contains(name) {
        st.branches[name]
    } else {
        Seq::<CommitRec>::empty()
    };
    let cs1 = sync_all(cs0, revs, resume_of(cs0));
    lemma_sync_props(cs0, revs, resume_of(cs0));
    lemma_sync_all_noop(cs1, revs, resume_of(cs1));
    lemma_replay_contains(st.trunk, cs1);
}

/// Running one page keeps every other settled page settled: its branch is
/// untouched, and a replay never takes commits out of the trunk.
proof fn lemma_run_one_keeps_settled(
    st: RepoState,
    name: Seq<char>,
    revs: Seq<CommitRec>,
    other: Seq<char>,
    other_revs: Seq<CommitRec>,
)
    requires
        settled(st, other, other_revs),
        other != name,
    ensures
        settled(run_one(st, name, revs), other, other_revs),
{
    let cs0 = if st.branches.dom().contains(name) {
        st.branches[name]
    } else {
        Seq::<CommitRec>::empty()
    };
    let cs1 = sync_all(cs0, revs, resume_of(cs0));
    lemma_replay_contains(st.trunk, cs1);
}

/// Running a settled page changes nothing.
proof fn lemma_run_one_noop(st: RepoState, name: Seq<char>, revs: Seq<CommitRec>)
    requires
        settled(st, name, revs),
    ensures
        run_one(st, name, revs) == st,
{
    let cs0 = st.branches[name];
    lemma_replay_noop(st.trunk, cs0);
    assert(st.branches.insert(name, cs0) =~= st.branches);
    assert(run_one(st, name, revs) =~~= st);
}

/// After a whole run, every page of the run is settled.
proof fn lemma_run_all_settles(
    st: RepoState,
    pages: Seq<(Seq<char>, Seq<CommitRec>)>,
    k: int,
)
    requires
        forall|i: int| 0 <= i < pages.len() ==> sorted_by_time(#[trigger] pages[i].1),
        forall|i: int, j: int| 0 <= i < j < pages.len() ==> pages[i].0 != pages[j].0,
        0 <= k < pages.len(),
    ensures
        settled(run_all(st, pages), pages[k].0, pages[k].1),
    decreases pages.len(),
{
    let st2 = run_one(st, pages[0].0, pages[0].1);
    assert(run_all(st, pages) == run_all(st2, pages.drop_first()));
    assert(forall|i: int| 0 <= i < pages.drop_first().len() ==> pages.drop_first()[i] == pages[i + 1]);
    if k == 0 {
        lemma_run_one_settles(st, pages[0].0, pages[0].1);
        lemma_run_all_keeps_settled(st2, pages.drop_first(), pages[0].0, pages[0].1);
    } else {
        lemma_run_all_settles(st2, pages.drop_first(), k - 1);
    }
}

/// A whole run over pages with other names keeps a settled page settled.
proof fn lemma_run_all_keeps_settled(
    st: RepoState,
    pages: Seq<(Seq<char>, Seq<CommitRec>)>,
    name: Seq<char>,
    revs: Seq<CommitRec>,
)
    requires
        settled(st, name, revs),
        forall|i: int| 0 <= i < pages.len() ==> pages[i].0 != name,
    ensures
        settled(run_all(st, pages), name, revs),
    decreases pages.len(),
{
    if pages.len() > 0 {
        lemma_run_one_keeps_settled(st, pages[0].0, pages[0].1, name, revs);
        assert(forall|i: int|
            0 <= i < pages.drop_first().len() ==> pages.drop_first()[i] == pages[i + 1]);
        lemma_run_all_keeps_settled(
            run_one(st, pages[0].0, pages[0].1),
            pages.drop_first(),
            name,
            revs,
        );
    }
}

/// A run over pages all settled in the state changes nothing.
proof fn lemma_run_all_noop(st: RepoState, pages: Seq<(Seq<char>, Seq<CommitRec>)>)
    requires
        forall|k: int| 0 <= k < pages.len() ==> settled(st, pages[k].0, #[trigger] pages[k].1),
    ensures
        run_all(st, pages) == st,
    decreases pages.len(),
{
    if pages.len() > 0 {
        lemma_run_one_noop(st, pages[0].0, pages[0].1);
        assert(run_one(st, pages[0].0, pages[0].1) == st);
        assert(forall|i: int|
            0 <= i < pages.drop_first().len() ==> pages.drop_first()[i] == pages[i + 1]);
        lemma_run_all_noop(st, pages.drop_first());
    }
}

/// Law: running the full pipeline twice against the same source — the same
/// pages, each with the same oldest-first revision stream — leaves the
/// second run with nothing to do: no branch moves and the trunk stands
/// still.
pub proof fn lemma_pipeline_idempotent(st: RepoState, pages: Seq<(Seq<char>, Seq<CommitRec>)>)
    requires
        forall|i: int| 0 <= i < pages.len() ==> sorted_by_time(#[trigger] pages[i].1),
        forall|i: int, j: int| 0 <= i < j < pages.len() ==> pages[i].0 != pages[j].0,
    ensures
        run_all(run_all(st, pages), pages) == run_all(st, pages),
{
    let st1 = run_all(st, pages);
    assert forall|k: int| 0 <= k < pages.len() implies settled(st1, pages[k].0, #[trigger] pages[k].1) by {
        lemma_run_all_settles(st, pages, k);
    }
    lemma_run_all_noop(st1, pages);
}

/// `run_page` performs exactly one `run_one` step on the abstract state.
pub proof fn lemma_run_page_is_run_one(
    m0: RepoModel,
    m1: RepoModel,
    name: Seq<char>,
    revs: Seq<CommitRec>,
)
    requires
        ({
            let cs0 = match find_branch(m0.branches@, name) {
                None => Seq::<CommitRec>::empty(),
                Some(cs) => cs,
            };
            let cs1 = sync_all(cs0, revs, resume_of(cs0));
            &&& find_branch(m1.branches@, name) == Some(cs1)
            &&& m1.trunk@ == replay(m0.trunk@, cs1)
        }),
        forall|n: Seq<char>|
            n != name ==> find_branch(m1.branches@, n) == find_branch(m0.branches@, n),
    ensures
        state_of(m1) == run_one(state_of(m0), name, revs),
{
    assert(state_of(m1).branches =~= run_one(state_of(m0), name, revs).branches);
    assert(state_of(m1) =~~= run_one(state_of(m0), name, revs));
}

} // verus!
