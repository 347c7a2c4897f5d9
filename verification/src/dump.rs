//! Shapes of an offline wiki dump: pages, each with its revisions, as an
//! export file carries them, and the conversion of a dump revision into the
//! parsed form the pipeline commits.

use vstd::prelude::*;
use crate::listing::{rfc3339_seconds, parse_rfc3339_seconds, ParsedRevision};
use crate::history::copy_str;

verus! {

/// A whole dump: every exported page.
pub struct MediaWikiDump {
    pub pages: Vec<PageDump>,
}

/// One exported page with its full revision history, oldest first.
pub struct PageDump {
    pub title: String,
    pub revisions: Vec<RevisionDump>,
}

/// One exported revision: timestamp still text, the contributor nested.
pub struct RevisionDump {
    pub timestamp: String,
    pub contributor: ContributorDump,
    pub comment: String,
    pub text: String,
}

pub struct ContributorDump {
    pub username: String,
}

/// Turns one dump revision into a parsed revision for the pipeline, under
/// the page's title.  Dump files carry no revision ids; the id is left
/// zero.  Nothing comes back when the timestamp does not parse.
pub fn parse_dump_revision(title: &str, rev: &RevisionDump) -> (r: Option<ParsedRevision>)
    ensures
        match rfc3339_seconds(rev.timestamp@) {
            None => r is None,
            Some(t) => r matches Some(p) && p.revid == 0 && p.timestamp == t && p.title@ == title@
                && p.user@ == rev.contributor.username@ && p.comment@ == rev.comment@ && p.content@
                == rev.text@,
        },
{
    match parse_rfc3339_seconds(rev.timestamp.as_str()) {
        None => None,
        Some(t) => Some(
            ParsedRevision {
                revid: 0,
                timestamp: t,
                title: copy_str(title),
                user: rev.contributor.username.clone(),
                comment: rev.comment.clone(),
                content: rev.text.clone(),
            },
        ),
    }
}

} // verus!
