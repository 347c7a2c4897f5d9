//! Shapes of the wiki's paginated listing endpoints, and the flattening of a
//! revision-listing result into parsed revisions.
//!
//! The page listing returns batches of pages with an optional continuation
//! token; the revision listing returns, per page, revisions whose content
//! sits in named slots.  Only the `main` slot carries page text: revisions
//! are flattened one parsed revision per `main` slot, in the order received.

use vstd::prelude::*;
use vstd::string::StringSliceAdditionalSpecFns;
use crate::history::str_eq;

verus! {

/// Continuation token of the page listing.
pub struct ApContinueToken {
    pub apcontinue: String,
}

/// One batch from the page listing.
pub struct ApApiResult {
    pub cont: Option<ApContinueToken>,
    pub query: ApQueryResult,
}

pub struct ApQueryResult {
    pub allpages: Vec<Page>,
}

/// One wiki page: its id and title.
pub struct Page {
    pub pageid: u64,
    pub title: String,
}

/// Continuation token of the revision listing.
pub struct RvContinueToken {
    pub rvcontinue: String,
}

/// One batch from the revision listing.
pub struct RvApiResult {
    pub cont: Option<RvContinueToken>,
    pub query: RvQueryResult,
}

/// Pages of a revision-listing answer, keyed by page id rendered as text.
pub struct RvQueryResult {
    pub pages: Vec<(String, RvPage)>,
}

pub struct RvPage {
    pub revisions: Vec<Revision>,
}

/// One historical edit as the listing reports it: timestamp still text,
/// content split into named slots.
pub struct Revision {
    pub revid: u64,
    pub timestamp: String,
    pub user: String,
    pub comment: String,
    pub slots: Vec<(String, RvSlot)>,
}

pub struct RvSlot {
    pub content: String,
}

/// One parsed revision: timestamp resolved to UTC seconds, content taken
/// from the `main` slot.
pub struct ParsedRevision {
    pub revid: u64,
    pub timestamp: i64,
    pub title: String,
    pub user: String,
    pub comment: String,
    pub content: String,
}

/// What time's RFC 3339 parser makes of a string: UTC seconds, or nothing
/// when the string is not a well-formed timestamp.  The result depends on
/// the characters alone.
pub uninterp spec fn rfc3339_seconds(s: Seq<char>) -> Option<i64>;

/// Relies on time's `PrimitiveDateTime::parse` with the RFC 3339 format,
/// and `unix_timestamp` of the parsed value taken as UTC.
#[verifier::external_body]
pub fn parse_rfc3339_seconds(s: &str) -> (r: Option<i64>)
    ensures
        r == rfc3339_seconds(s@),
{
    match time::PrimitiveDateTime::parse(s, &time::format_description::well_known::Rfc3339) {
        Ok(t) => Some(t.assume_utc().unix_timestamp()),
        Err(_) => None,
    }
}

/// The fields of a parsed revision, for specifications.
pub struct RevisionFields {
    pub revid: u64,
    pub time: i64,
    pub title: Seq<char>,
    pub user: Seq<char>,
    pub comment: Seq<char>,
    pub content: Seq<char>,
}

pub open spec fn fields_of(p: ParsedRevision) -> RevisionFields {
    RevisionFields {
        revid: p.revid,
        time: p.timestamp,
        title: p.title@,
        user: p.user@,
        comment: p.comment@,
        content: p.content@,
    }
}

/// What one revision's slots contribute: one parsed revision per `main`
/// slot.  `None` when the revision's timestamp does not parse but a `main`
/// slot needs it.
pub open spec fn slots_expected(rev: Revision, title: Seq<char>, slots: Seq<(String, RvSlot)>) -> Option<
    Seq<RevisionFields>,
>
    decreases slots.len(),
{
    if slots.len() == 0 {
        Some(Seq::empty())
    } else {
        let rest = slots_expected(rev, title, slots.drop_first());
        if slots[0].0@ == "main"@ {
            match rfc3339_seconds(rev.timestamp@) {
                None => None,
                Some(t) => match rest {
                    None => None,
                    Some(r) => Some(
                        seq![
                            RevisionFields {
                                revid: rev.revid,
                                time: t,
                                title: title,
                                user: rev.user@,
                                comment: rev.comment@,
                                content: slots[0].1.content@,
                            },
                        ] + r,
                    ),
                },
            }
        } else {
            rest
        }
    }
}

/// What a sequence of revisions contributes, in order.
pub open spec fn revs_expected(revs: Seq<Revision>, title: Seq<char>) -> Option<
    Seq<RevisionFields>,
>
    decreases revs.len(),
{
    if revs.len() == 0 {
        Some(Seq::empty())
    } else {
        match slots_expected(revs[0], title, revs[0].slots@) {
            None => None,
            Some(head) => match revs_expected(revs.drop_first(), title) {
                None => None,
                Some(rest) => Some(head + rest),
            },
        }
    }
}

/// What a whole revision-listing answer contributes, page entry by entry.
pub open spec fn pages_expected(pages: Seq<(String, RvPage)>, title: Seq<char>) -> Option<
    Seq<RevisionFields>,
>
    decreases pages.len(),
{
    if pages.len() == 0 {
        Some(Seq::empty())
    } else {
        match revs_expected(pages[0].1.revisions@, title) {
            None => None,
            Some(head) => match pages_expected(pages.drop_first(), title) {
                None => None,
                Some(rest) => Some(head + rest),
            },
        }
    }
}

/// Whether the revision carries a `main` slot, so that its timestamp is
/// needed.
pub open spec fn has_main_slot(slots: Seq<(String, RvSlot)>) -> bool {
    exists|i: int| 0 <= i < slots.len() && slots[i].0@ == "main"@
}

/// Whether flattening fails at this revision: a `main` slot needs the
/// timestamp, and the timestamp does not parse.
pub open spec fn revision_fails(rev: Revision) -> bool {
    has_main_slot(rev.slots@) && rfc3339_seconds(rev.timestamp@) is None
}

/// The id of the first revision, in order, that flattening fails at.
pub open spec fn first_failing_rev(revs: Seq<Revision>) -> Option<u64>
    decreases revs.len(),
{
    if revs.len() == 0 {
        None
    } else if revision_fails(revs[0]) {
        Some(revs[0].revid)
    } else {
        first_failing_rev(revs.drop_first())
    }
}

/// The id of the first revision, page entry by entry, that flattening fails
/// at.
pub open spec fn first_failing(pages: Seq<(String, RvPage)>) -> Option<u64>
    decreases pages.len(),
{
    if pages.len() == 0 {
        None
    } else {
        match first_failing_rev(pages[0].1.revisions@) {
            Some(id) => Some(id),
            None => first_failing(pages.drop_first()),
        }
    }
}

/// Flattens a revision-listing answer into parsed revisions, in the order
/// received, one per `main` slot; slots under any other name are ignored.
/// Fails with the id of the first revision whose timestamp does not parse
/// although a `main` slot needs it.
pub fn get_parsed_revisions(query: RvQueryResult, title: String) -> (r: Result<
    Vec<ParsedRevision>,
    u64,
>)
    ensures
        match r {
            Ok(v) => match pages_expected(query.pages@, title@) {
                Some(e) => v@.len() == e.len() && forall|k: int|
                    0 <= k < v@.len() ==> fields_of(v@[k]) == e[k],
                None => false,
            },
            Err(id) => pages_expected(query.pages@, title@) is None && first_failing(
                query.pages@,
            ) == Some(id),
        },
{
    let ghost pages_s = query.pages@;
    let mut out: Vec<ParsedRevision> = Vec::new();
    let mut p: usize = 0;
    proof {
        assert(pages_s.subrange(0, 0) =~= Seq::<(String, RvPage)>::empty());
        assert(pages_expected(pages_s.subrange(0, 0), title@) == Some(
            Seq::<RevisionFields>::empty(),
        ));
        assert(first_failing(pages_s.subrange(0, 0)) is None);
    }
    while p < query.pages.len()
        invariant
            p <= pages_s.len(),
            pages_s == query.pages@,
            first_failing(pages_s.subrange(0, p as int)) is None,
            ({
                match pages_expected(pages_s.subrange(0, p as int), title@) {
                    Some(e) => out@.len() == e.len() && forall|k: int|
                        0 <= k < out@.len() ==> fields_of(out@[k]) == e[k],
                    None => false,
                }
            }),
        decreases pages_s.len() - p,
    {
        proof {
            lemma_pages_expected_snoc(pages_s.subrange(0, p as int), pages_s[p as int], title@);
            lemma_first_failing_snoc(pages_s.subrange(0, p as int), pages_s[p as int]);
            assert(pages_s.subrange(0, p + 1) =~= pages_s.subrange(0, p as int).push(
                pages_s[p as int],
            ));
        }
        let page_revs_len = query.pages[p].1.revisions.len();
        let mut q: usize = 0;
        let ghost revs_s = query.pages@[p as int].1.revisions@;
        proof {
            assert(revs_s.subrange(0, 0) =~= Seq::<Revision>::empty());
            assert(first_failing_rev(revs_s.subrange(0, 0)) is None);
        }
        while q < page_revs_len
            invariant
                q <= revs_s.len(),
                p < pages_s.len(),
                page_revs_len == revs_s.len(),
                pages_s == query.pages@,
                revs_s == query.pages@[p as int].1.revisions@,
                first_failing(pages_s.subrange(0, p as int)) is None,
                first_failing_rev(revs_s.subrange(0, q as int)) is None,
                ({
                    let done = pages_expected(pages_s.subrange(0, p as int), title@);
                    let here = revs_expected(revs_s.subrange(0, q as int), title@);
                    match done {
                        Some(d) => match here {
                            Some(h) => out@.len() == d.len() + h.len() && (forall|k: int|
                                0 <= k < d.len() ==> fields_of(out@[k]) == d[k]) && (forall|k: int|
                                d.len() <= k < out@.len() ==> fields_of(out@[k]) == h[k - d.len()]),
                            None => false,
                        },
                        None => false,
                    }
                }),
            decreases revs_s.len() - q,
        {
            proof {
                lemma_revs_expected_snoc(revs_s.subrange(0, q as int), revs_s[q as int], title@);
                lemma_first_failing_rev_snoc(revs_s.subrange(0, q as int), revs_s[q as int]);
                assert(revs_s.subrange(0, q + 1) =~= revs_s.subrange(0, q as int).push(
                    revs_s[q as int],
                ));
            }
            let rev = &query.pages[p].1.revisions[q];
            let ghost slots_s = rev.slots@;
            let nslots = rev.slots.len();
            let mut s: usize = 0;
            proof {
                assert(slots_s.subrange(0, 0) =~= Seq::<(String, RvSlot)>::empty());
            }
            while s < nslots
                invariant
                    s <= slots_s.len(),
                    p < pages_s.len(),
                    q < revs_s.len(),
                    page_revs_len == revs_s.len(),
                    nslots == slots_s.len(),
                    pages_s == query.pages@,
                    revs_s == query.pages@[p as int].1.revisions@,
                    slots_s == revs_s[q as int].slots@,
                    first_failing(pages_s.subrange(0, p as int)) is None,
                    first_failing_rev(revs_s.subrange(0, q as int)) is None,
                    forall|j: int|
                        0 <= j < s ==> (slots_s[j].0@ == "main"@ ==> rfc3339_seconds(
                            revs_s[q as int].timestamp@,
                        ) is Some),
                    ({
                        let done = pages_expected(pages_s.subrange(0, p as int), title@);
                        let here = revs_expected(revs_s.subrange(0, q as int), title@);
                        let part = slots_expected(
                            revs_s[q as int],
                            title@,
                            slots_s.subrange(0, s as int),
                        );
                        match done {
                            Some(d) => match here {
                                Some(h) => match part {
                                    Some(w) => out@.len() == d.len() + h.len() + w.len() && (
                                    forall|k: int|
                                        0 <= k < d.len() ==> fields_of(out@[k]) == d[k]) && (
                                    forall|k: int|
                                        d.len() <= k < d.len() + h.len() ==> fields_of(out@[k])
                                            == h[k - d.len()]) && (forall|k: int|
                                        d.len() + h.len() <= k < out@.len() ==> fields_of(out@[k])
                                            == w[k - d.len() - h.len()]),
                                    None => false,
                                },
                                None => false,
                            },
                            None => false,
                        }
                    }),
                decreases slots_s.len() - s,
            {
                proof {
                    lemma_slots_expected_snoc(
                        revs_s[q as int],
                        title@,
                        slots_s.subrange(0, s as int),
                        slots_s[s as int],
                    );
                    assert(slots_s.subrange(0, s + 1) =~= slots_s.subrange(0, s as int).push(
                        slots_s[s as int],
                    ));
                }
                let slot_is_main = str_eq(query.pages[p].1.revisions[q].slots[s].0.as_str(), "main");
                if slot_is_main {
                    let rev2 = &query.pages[p].1.revisions[q];
                    match parse_rfc3339_seconds(rev2.timestamp.as_str()) {
                        None => {
                            proof {
                                assert(revision_fails(revs_s[q as int])) by {
                                    assert(slots_s[s as int].0@ == "main"@);
                                }
                                lemma_first_failing_rev_snoc(
                                    revs_s.subrange(0, q as int),
                                    revs_s[q as int],
                                );
                                assert(revs_s.subrange(0, q as int + 1) =~= revs_s.subrange(
                                    0,
                                    q as int,
                                ).push(revs_s[q as int]));
                                assert(first_failing_rev(revs_s.subrange(0, q as int + 1))
                                    == Some(revs_s[q as int].revid));
                                lemma_first_failing_rev_extend(revs_s, q as int + 1);
                                lemma_first_failing_snoc(
                                    pages_s.subrange(0, p as int),
                                    pages_s[p as int],
                                );
                                assert(pages_s.subrange(0, p as int + 1) =~= pages_s.subrange(
                                    0,
                                    p as int,
                                ).push(pages_s[p as int]));
                                lemma_first_failing_extend(pages_s, p as int + 1);
                                assert(first_failing(pages_s) == Some(revs_s[q as int].revid));
                                assert(slots_expected(
                                    revs_s[q as int],
                                    title@,
                                    slots_s.subrange(0, s as int + 1),
                                ) is None);
                                lemma_slots_expected_none_extend(
                                    revs_s[q as int],
                                    title@,
                                    slots_s,
                                    s as int + 1,
                                );
                                lemma_revs_expected_snoc(
                                    revs_s.subrange(0, q as int),
                                    revs_s[q as int],
                                    title@,
                                );
                                assert(revs_s.subrange(0, q as int + 1) =~= revs_s.subrange(
                                    0,
                                    q as int,
                                ).push(revs_s[q as int]));
                                lemma_revs_expected_none_extend(revs_s, title@, q as int + 1);
                                lemma_pages_expected_snoc(
                                    pages_s.subrange(0, p as int),
                                    pages_s[p as int],
                                    title@,
                                );
                                assert(pages_s.subrange(0, p as int + 1) =~= pages_s.subrange(
                                    0,
                                    p as int,
                                ).push(pages_s[p as int]));
                                lemma_pages_expected_none_extend(pages_s, title@, p as int + 1);
                            }
                            return Err(rev2.revid);
                        },
                        Some(t) => {
                            let parsed = ParsedRevision {
                                revid: rev2.revid,
                                timestamp: t,
                                title: clone_string(&title),
                                user: clone_string(&rev2.user),
                                comment: clone_string(&rev2.comment),
                                content: clone_string(&rev2.slots[s].1.content),
                            };
                            out.push(parsed);
                        },
                    }
                }
                s = s + 1;
            }
            proof {
                assert(slots_s.subrange(0, slots_s.len() as int) =~= slots_s);
                assert(!revision_fails(revs_s[q as int])) by {
                    if has_main_slot(revs_s[q as int].slots@) {
                        let j = choose|j: int|
                            0 <= j < slots_s.len() && slots_s[j].0@ == "main"@;
                        assert(rfc3339_seconds(revs_s[q as int].timestamp@) is Some);
                    }
                }
                assert(first_failing_rev(revs_s.subrange(0, q as int + 1)) is None);
            }
            q = q + 1;
        }
        proof {
            assert(revs_s.subrange(0, revs_s.len() as int) =~= revs_s);
            assert(first_failing(pages_s.subrange(0, p as int + 1)) is None);
        }
        p = p + 1;
    }
    proof {
        assert(pages_s.subrange(0, pages_s.len() as int) =~= pages_s);
    }
    Ok(out)
}

/// A copy of a string.
pub fn clone_string(s: &String) -> (r: String)
    ensures
        r@ == s@,
{
    s.clone()
}

pub proof fn lemma_slots_expected_snoc(
    rev: Revision,
    title: Seq<char>,
    slots: Seq<(String, RvSlot)>,
    x: (String, RvSlot),
)
    ensures
        slots_expected(rev, title, slots.push(x)) == ({
            let rest = slots_expected(rev, title, slots);
            if x.0@ == "main"@ {
                match rfc3339_seconds(rev.timestamp@) {
                    None => None,
                    Some(t) => match rest {
                        None => None::<Seq<RevisionFields>>,
                        Some(r) => Some(
                            r + seq![
                                RevisionFields {
                                    revid: rev.revid,
                                    time: t,
                                    title: title,
                                    user: rev.user@,
                                    comment: rev.comment@,
                                    content: x.1.content@,
                                },
                            ],
                        ),
                    },
                }
            } else {
                rest
            }
        }),
    decreases slots.len(),
{
    if slots.len() == 0 {
        assert(slots.push(x)[0] == x);
        assert(slots.push(x).drop_first() =~= Seq::<(String, RvSlot)>::empty());
        assert(slots_expected(rev, title, Seq::<(String, RvSlot)>::empty()) == Some(
            Seq::<RevisionFields>::empty(),
        ));
        if x.0@ == "main"@ {
            match rfc3339_seconds(rev.timestamp@) {
                None => {
                },
                Some(t) => {
                    let f = RevisionFields {
                        revid: rev.revid,
                        time: t,
                        title: title,
                        user: rev.user@,
                        comment: rev.comment@,
                        content: x.1.content@,
                    };
                    assert(seq![f] + Seq::<RevisionFields>::empty() =~= Seq::<
                        RevisionFields,
                    >::empty() + seq![f]);
                },
            }
        }
    } else {
        assert(slots.push(x)[0] == slots[0]);
        assert(slots.push(x).drop_first() =~= slots.drop_first().push(x));
        lemma_slots_expected_snoc(rev, title, slots.drop_first(), x);
        let rest0 = slots_expected(rev, title, slots.drop_first());
        if slots[0].0@ == "main"@ {
            match rfc3339_seconds(rev.timestamp@) {
                None => {
                },
                Some(t) => {
                    let f0 = RevisionFields {
                        revid: rev.revid,
                        time: t,
                        title: title,
                        user: rev.user@,
                        comment: rev.comment@,
                        content: slots[0].1.content@,
                    };
                    match rest0 {
                        None => {
                        },
                        Some(r0) => {
                            if x.0@ == "main"@ {
                                let fx = RevisionFields {
                                    revid: rev.revid,
                                    time: t,
                                    title: title,
                                    user: rev.user@,
                                    comment: rev.comment@,
                                    content: x.1.content@,
                                };
                                assert(seq![f0] + (r0 + seq![fx]) =~= (seq![f0] + r0) + seq![fx]);
                            }
                        },
                    }
                },
            }
        }
    }
}

pub proof fn lemma_revs_expected_snoc(revs: Seq<Revision>, x: Revision, title: Seq<char>)
    ensures
        revs_expected(revs.push(x), title) == ({
            match revs_expected(revs, title) {
                None => None::<Seq<RevisionFields>>,
                Some(done) => match slots_expected(x, title, x.slots@) {
                    None => None,
                    Some(head) => Some(done + head),
                },
            }
        }),
    decreases revs.len(),
{
    if revs.len() == 0 {
        assert(revs.push(x)[0] == x);
        assert(revs.push(x).drop_first() =~= Seq::<Revision>::empty());
        assert(revs_expected(Seq::<Revision>::empty(), title) == Some(
            Seq::<RevisionFields>::empty(),
        ));
        match slots_expected(x, title, x.slots@) {
            None => {
            },
            Some(head) => {
                assert(head + Seq::<RevisionFields>::empty() =~= Seq::<RevisionFields>::empty()
                    + head);
            },
        }
    } else {
        assert(revs.push(x)[0] == revs[0]);
        assert(revs.push(x).drop_first() =~= revs.drop_first().push(x));
        lemma_revs_expected_snoc(revs.drop_first(), x, title);
        match slots_expected(revs[0], title, revs[0].slots@) {
            None => {
            },
            Some(h0) => {
                match revs_expected(revs.drop_first(), title) {
                    None => {
                    },
                    Some(r0) => {
                        match slots_expected(x, title, x.slots@) {
                            None => {
                            },
                            Some(hx) => {
                                assert(h0 + (r0 + hx) =~= (h0 + r0) + hx);
                            },
                        }
                    },
                }
            },
        }
    }
}

pub proof fn lemma_pages_expected_snoc(
    pages: Seq<(String, RvPage)>,
    x: (String, RvPage),
    title: Seq<char>,
)
    ensures
        pages_expected(pages.push(x), title) == ({
            match pages_expected(pages, title) {
                None => None::<Seq<RevisionFields>>,
                Some(done) => match revs_expected(x.1.revisions@, title) {
                    None => None,
                    Some(head) => Some(done + head),
                },
            }
        }),
    decreases pages.len(),
{
    if pages.len() == 0 {
        assert(pages.push(x)[0] == x);
        assert(pages.push(x).drop_first() =~= Seq::<(String, RvPage)>::empty());
        assert(pages_expected(Seq::<(String, RvPage)>::empty(), title) == Some(
            Seq::<RevisionFields>::empty(),
        ));
        match revs_expected(x.1.revisions@, title) {
            None => {
            },
            Some(head) => {
                assert(head + Seq::<RevisionFields>::empty() =~= Seq::<RevisionFields>::empty()
                    + head);
            },
        }
    } else {
        assert(pages.push(x)[0] == pages[0]);
        assert(pages.push(x).drop_first() =~= pages.drop_first().push(x));
        lemma_pages_expected_snoc(pages.drop_first(), x, title);
        match revs_expected(pages[0].1.revisions@, title) {
            None => {
            },
            Some(h0) => {
                match pages_expected(pages.drop_first(), title) {
                    None => {
                    },
                    Some(r0) => {
                        match revs_expected(x.1.revisions@, title) {
                            None => {
                            },
                            Some(hx) => {
                                assert(h0 + (r0 + hx) =~= (h0 + r0) + hx);
                            },
                        }
                    },
                }
            },
        }
    }
}


/// A flattening that already failed on a prefix fails on the whole.
proof fn lemma_slots_expected_none_extend(
    rev: Revision,
    title: Seq<char>,
    slots: Seq<(String, RvSlot)>,
    i: int,
)
    requires
        0 <= i <= slots.len(),
        slots_expected(rev, title, slots.subrange(0, i)) is None,
    ensures
        slots_expected(rev, title, slots) is None,
    decreases slots.len() - i,
{
    if i == slots.len() {
        assert(slots.subrange(0, i) =~= slots);
    } else {
        lemma_slots_expected_snoc(rev, title, slots.subrange(0, i), slots[i]);
        assert(slots.subrange(0, i + 1) =~= slots.subrange(0, i).push(slots[i]));
        lemma_slots_expected_none_extend(rev, title, slots, i + 1);
    }
}

/// A flattening that already failed on a prefix fails on the whole.
proof fn lemma_revs_expected_none_extend(revs: Seq<Revision>, title: Seq<char>, i: int)
    requires
        0 <= i <= revs.len(),
        revs_expected(revs.subrange(0, i), title) is None,
    ensures
        revs_expected(revs, title) is None,
    decreases revs.len() - i,
{
    if i == revs.len() {
        assert(revs.subrange(0, i) =~= revs);
    } else {
        lemma_revs_expected_snoc(revs.subrange(0, i), revs[i], title);
        assert(revs.subrange(0, i + 1) =~= revs.subrange(0, i).push(revs[i]));
        lemma_revs_expected_none_extend(revs, title, i + 1);
    }
}

/// A flattening that already failed on a prefix fails on the whole.
proof fn lemma_pages_expected_none_extend(pages: Seq<(String, RvPage)>, title: Seq<char>, i: int)
    requires
        0 <= i <= pages.len(),
        pages_expected(pages.subrange(0, i), title) is None,
    ensures
        pages_expected(pages, title) is None,
    decreases pages.len() - i,
{
    if i == pages.len() {
        assert(pages.subrange(0, i) =~= pages);
    } else {
        lemma_pages_expected_snoc(pages.subrange(0, i), pages[i], title);
        assert(pages.subrange(0, i + 1) =~= pages.subrange(0, i).push(pages[i]));
        lemma_pages_expected_none_extend(pages, title, i + 1);
    }
}


pub proof fn lemma_first_failing_rev_snoc(revs: Seq<Revision>, x: Revision)
    ensures
        first_failing_rev(revs.push(x)) == if first_failing_rev(revs) is Some {
            first_failing_rev(revs)
        } else if revision_fails(x) {
            Some(x.revid)
        } else {
            None::<u64>
        },
    decreases revs.len(),
{
    if revs.len() == 0 {
        assert(revs.push(x)[0] == x);
        assert(revs.push(x).drop_first() =~= Seq::<Revision>::empty());
        assert(first_failing_rev(Seq::<Revision>::empty()) is None);
    } else {
        assert(revs.push(x)[0] == revs[0]);
        assert(revs.push(x).drop_first() =~= revs.drop_first().push(x));
        lemma_first_failing_rev_snoc(revs.drop_first(), x);
    }
}

pub proof fn lemma_first_failing_rev_extend(revs: Seq<Revision>, i: int)
    requires
        0 <= i <= revs.len(),
        first_failing_rev(revs.subrange(0, i)) is Some,
    ensures
        first_failing_rev(revs) == first_failing_rev(revs.subrange(0, i)),
    decreases revs.len() - i,
{
    if i == revs.len() {
        assert(revs.subrange(0, i) =~= revs);
    } else {
        lemma_first_failing_rev_snoc(revs.subrange(0, i), revs[i]);
        assert(revs.subrange(0, i + 1) =~= revs.subrange(0, i).push(revs[i]));
        lemma_first_failing_rev_extend(revs, i + 1);
    }
}

pub proof fn lemma_first_failing_snoc(pages: Seq<(String, RvPage)>, x: (String, RvPage))
    ensures
        first_failing(pages.push(x)) == if first_failing(pages) is Some {
            first_failing(pages)
        } else {
            first_failing_rev(x.1.revisions@)
        },
    decreases pages.len(),
{
    if pages.len() == 0 {
        assert(pages.push(x)[0] == x);
        assert(pages.push(x).drop_first() =~= Seq::<(String, RvPage)>::empty());
        assert(first_failing(Seq::<(String, RvPage)>::empty()) is None);
    } else {
        assert(pages.push(x)[0] == pages[0]);
        assert(pages.push(x).drop_first() =~= pages.drop_first().push(x));
        lemma_first_failing_snoc(pages.drop_first(), x);
    }
}

pub proof fn lemma_first_failing_extend(pages: Seq<(String, RvPage)>, i: int)
    requires
        0 <= i <= pages.len(),
        first_failing(pages.subrange(0, i)) is Some,
    ensures
        first_failing(pages) == first_failing(pages.subrange(0, i)),
    decreases pages.len() - i,
{
    if i == pages.len() {
        assert(pages.subrange(0, i) =~= pages);
    } else {
        lemma_first_failing_snoc(pages.subrange(0, i), pages[i]);
        assert(pages.subrange(0, i + 1) =~= pages.subrange(0, i).push(pages[i]));
        lemma_first_failing_extend(pages, i + 1);
    }
}

} // verus!
