use wikigit::authors::{Author, AuthorData};
use wikigit::history::{CommitRec, RepoModel};
use wikigit::listing::{
    get_parsed_revisions, Page, ParsedRevision, Revision, RvPage, RvQueryResult, RvSlot,
};
use wikigit::dump::{ContributorDump, RevisionDump};
use wikigit::pipeline::{make_commit_record, PagePump, RevisionPump};

fn rec(time: i64, content: &str) -> CommitRec {
    CommitRec {
        author_name: "user".to_string(),
        author_email: "user@example.com".to_string(),
        time,
        message: "edit".to_string(),
        content: content.to_string(),
    }
}

#[test]
fn model_end_to_end_two_revisions() {
    let mut m = RepoModel::new_repo();
    let revs = vec![rec(100, "# Example\n\nHello"), rec(200, "# Example\n\nHello world")];
    let (created, resume) = m.run_page("Main%3AExample", &revs);
    assert!(created);
    assert!(resume.is_none());
    assert_eq!(m.branches.len(), 1);
    assert_eq!(m.branches[0].name, "Main%3AExample");
    assert_eq!(m.branches[0].commits.len(), 2);
    assert_eq!(m.branches[0].commits[1].content, "# Example\n\nHello world");
    assert_eq!(m.trunk.len(), 2);
    assert_eq!(m.trunk[0].content, "# Example\n\nHello");
    assert_eq!(m.trunk[1].content, "# Example\n\nHello world");
}

#[test]
fn model_second_run_creates_nothing() {
    let mut m = RepoModel::new_repo();
    let revs = vec![rec(100, "a"), rec(200, "b")];
    m.run_page("p", &revs);
    let (created, resume) = m.run_page("p", &revs);
    assert!(!created);
    assert_eq!(resume, Some(200));
    assert_eq!(m.branches[0].commits.len(), 2);
    assert_eq!(m.trunk.len(), 2);
}

#[test]
fn model_empty_diff_is_skipped() {
    let mut m = RepoModel::new_repo();
    m.ensure_page_branch("p");
    assert!(m.commit_revision("p", rec(100, "same")));
    assert!(!m.commit_revision("p", rec(200, "same")));
    assert!(m.commit_revision("p", rec(300, "other")));
    assert_eq!(m.branches[0].commits.len(), 2);
}

#[test]
fn model_resume_requests_only_newer() {
    let mut m = RepoModel::new_repo();
    m.run_page("p", &vec![rec(100, "a"), rec(200, "b")]);
    // A later run sees the stream again plus one genuinely new revision.
    let (_, resume) = m.run_page(
        "p",
        &vec![rec(100, "a"), rec(200, "b"), rec(300, "c")],
    );
    assert_eq!(resume, Some(200));
    assert_eq!(m.branches[0].commits.len(), 3);
    assert_eq!(m.branches[0].commits[2].time, 300);
}

#[test]
fn model_trunk_grows_by_whole_pages_in_order() {
    let mut m = RepoModel::new_repo();
    m.run_page("alpha", &vec![rec(100, "alpha first"), rec(200, "alpha second")]);
    m.run_page("beta", &vec![rec(50, "beta only")]);
    assert_eq!(m.trunk.len(), 3);
    assert_eq!(m.trunk[0].content, "alpha first");
    assert_eq!(m.trunk[1].content, "alpha second");
    assert_eq!(m.trunk[2].content, "beta only");
}

#[test]
fn model_ensure_branch_reports_resume_point() {
    let mut m = RepoModel::new_repo();
    let (created, resume) = m.ensure_page_branch("p");
    assert!(created);
    assert!(resume.is_none());
    m.commit_revision("p", rec(123, "x"));
    let (created2, resume2) = m.ensure_page_branch("p");
    assert!(!created2);
    assert_eq!(resume2, Some(123));
}

#[test]
fn test_resolve_author_mapped_and_fallback() {
    let mut data = AuthorData::new();
    data.add_author(
        "wikiuser".to_string(),
        Author { name: "Full Name".to_string(), email: "full@example.com".to_string() },
    );
    let mapped = data.resolve_author("wikiuser");
    assert_eq!(mapped.name, "Full Name");
    assert_eq!(mapped.email, "full@example.com");
    let fallback = data.resolve_author("stranger");
    assert_eq!(fallback.name, "stranger");
    assert_eq!(fallback.email, "no-email@example.com");
}

#[test]
fn test_add_author_shadows_earlier_entry() {
    let mut data = AuthorData::new();
    data.add_author(
        "u".to_string(),
        Author { name: "Old".to_string(), email: "old@example.com".to_string() },
    );
    data.add_author(
        "u".to_string(),
        Author { name: "New".to_string(), email: "new@example.com".to_string() },
    );
    assert_eq!(data.resolve_author("u").name, "New");
}

#[test]
fn test_page_pump_ceiling() {
    let mut pump = PagePump::new(Some(3));
    let batch = vec![
        Page { pageid: 1, title: "A".to_string() },
        Page { pageid: 2, title: "B".to_string() },
    ];
    let emitted = pump.step(&batch, true);
    assert_eq!(emitted.len(), 2);
    assert!(!pump.finished);
    let emitted2 = pump.step(&batch, true);
    assert_eq!(emitted2.len(), 1);
    assert_eq!(emitted2[0].pageid, 1);
    assert!(pump.finished);
}

#[test]
fn test_page_pump_stops_without_continuation() {
    let mut pump = PagePump::new(None);
    let batch = vec![Page { pageid: 7, title: "A".to_string() }];
    let emitted = pump.step(&batch, false);
    assert_eq!(emitted.len(), 1);
    assert!(pump.finished);
}

#[test]
fn test_revision_pump_ceiling() {
    let mut pump = RevisionPump::new(Some(1));
    let batch = vec![
        ParsedRevision {
            revid: 1,
            timestamp: 100,
            title: "T".to_string(),
            user: "u".to_string(),
            comment: "c".to_string(),
            content: "x".to_string(),
        },
        ParsedRevision {
            revid: 2,
            timestamp: 200,
            title: "T".to_string(),
            user: "u".to_string(),
            comment: "c".to_string(),
            content: "y".to_string(),
        },
    ];
    let emitted = pump.step(&batch, true);
    assert_eq!(emitted.len(), 1);
    assert_eq!(emitted[0].revid, 1);
    assert!(pump.finished);
}

#[test]
fn test_get_parsed_revisions_main_slot_only() {
    let query = RvQueryResult {
        pages: vec![(
            "24908".to_string(),
            RvPage {
                revisions: vec![Revision {
                    revid: 42,
                    timestamp: "2021-01-01T00:00:00Z".to_string(),
                    user: "u".to_string(),
                    comment: "c".to_string(),
                    slots: vec![
                        ("main".to_string(), RvSlot { content: "wikitext".to_string() }),
                        ("aux".to_string(), RvSlot { content: "ignored".to_string() }),
                    ],
                }],
            },
        )],
    };
    let parsed = get_parsed_revisions(query, "EXWM".to_string()).unwrap();
    assert_eq!(parsed.len(), 1);
    assert_eq!(parsed[0].revid, 42);
    assert_eq!(parsed[0].timestamp, 1609459200);
    assert_eq!(parsed[0].title, "EXWM");
    assert_eq!(parsed[0].user, "u");
    assert_eq!(parsed[0].comment, "c");
    assert_eq!(parsed[0].content, "wikitext");
}

#[test]
fn test_get_parsed_revisions_bad_timestamp() {
    let query = RvQueryResult {
        pages: vec![(
            "1".to_string(),
            RvPage {
                revisions: vec![Revision {
                    revid: 5,
                    timestamp: "not a time".to_string(),
                    user: "u".to_string(),
                    comment: "c".to_string(),
                    slots: vec![("main".to_string(), RvSlot { content: "x".to_string() })],
                }],
            },
        )],
    };
    assert!(matches!(get_parsed_revisions(query, "T".to_string()), Err(5)));
}

#[test]
fn test_parse_dump_revision() {
    let rev = RevisionDump {
        timestamp: "2023-08-02T15:00:07Z".to_string(),
        contributor: ContributorDump { username: "editor".to_string() },
        comment: "tidy".to_string(),
        text: "body".to_string(),
    };
    let parsed = wikigit::dump::parse_dump_revision("Title", &rev).unwrap();
    assert_eq!(parsed.timestamp, 1690988407);
    assert_eq!(parsed.user, "editor");
    assert_eq!(parsed.comment, "tidy");
    assert_eq!(parsed.content, "body");
    assert_eq!(parsed.title, "Title");
}

#[test]
fn test_make_commit_record() {
    let rev = ParsedRevision {
        revid: 1,
        timestamp: 777,
        title: "T".to_string(),
        user: "u".to_string(),
        comment: "why".to_string(),
        content: "raw".to_string(),
    };
    let author = Author { name: "N".to_string(), email: "e@example.com".to_string() };
    let c = make_commit_record(&rev, &author, "converted".to_string());
    assert_eq!(c.author_name, "N");
    assert_eq!(c.author_email, "e@example.com");
    assert_eq!(c.time, 777);
    assert_eq!(c.message, "why");
    assert_eq!(c.content, "converted");
}

#[test]
fn model_two_pages_second_run_unchanged() {
    let mut m = RepoModel::new_repo();
    m.run_page("one", &vec![rec(100, "one a"), rec(200, "one b")]);
    m.run_page("two", &vec![rec(150, "two a")]);
    m.run_page("one", &vec![rec(100, "one a"), rec(200, "one b")]);
    m.run_page("two", &vec![rec(150, "two a")]);
    assert_eq!(m.branches.len(), 2);
    assert_eq!(m.branches[0].commits.len(), 2);
    assert_eq!(m.branches[1].commits.len(), 1);
    assert_eq!(m.trunk.len(), 3);
}

#[test]
fn model_empty_revision_stream() {
    let mut m = RepoModel::new_repo();
    let (created, resume) = m.run_page("empty", &Vec::new());
    assert!(created);
    assert!(resume.is_none());
    assert_eq!(m.branches[0].commits.len(), 0);
    assert_eq!(m.trunk.len(), 0);
}

#[test]
fn test_page_pump_zero_ceiling() {
    let mut pump = PagePump::new(Some(0));
    let batch = vec![Page { pageid: 1, title: "A".to_string() }];
    let emitted = pump.step(&batch, true);
    assert_eq!(emitted.len(), 0);
    assert!(pump.finished);
}
