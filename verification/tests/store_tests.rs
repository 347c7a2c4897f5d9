use wikigit::codec::{get_branch_name, get_file_name};
use wikigit::pipeline::compose_document;
use wikigit::store::{
    create_commit_from_metadata, create_repo, ensure_page_branch, get_most_recent_commit,
    open_or_create_repo, rebase_branch, CommitOutcome, CommitSignature,
};

fn unique_dir(tag: &str) -> String {
    let nanos = std::time::SystemTime::now()
        .duration_since(std::time::UNIX_EPOCH)
        .unwrap()
        .as_nanos();
    format!("/tmp/wikigit_{}_{}", tag, nanos)
}

fn committer() -> CommitSignature {
    CommitSignature { name: "test".to_string(), email: "test@example.com".to_string(), time: 0 }
}

fn author(time: i64) -> CommitSignature {
    CommitSignature { name: "name".to_string(), email: "email@example.com".to_string(), time }
}

fn write_work_file(dir: &str, rel: &str, content: &str) {
    let rt = tokio::runtime::Runtime::new().unwrap();
    let path = format!("{}/{}", dir, rel);
    let parent = std::path::Path::new(&path).parent().unwrap().to_path_buf();
    let content = content.to_string();
    rt.block_on(async move {
        tokio::fs::create_dir_all(parent).await.unwrap();
        tokio::fs::write(path, content.as_bytes()).await.unwrap();
    });
}

#[test]
fn test_create_repo() {
    let dir = unique_dir("create");
    let created = create_repo(&dir, "test", "test@example.com").unwrap();
    assert_eq!(created.base_tip, created.initial_commit);
    assert_eq!(created.head_tip, created.initial_commit);
    let branch_names: Vec<String> = created
        .repo
        .branches(None)
        .unwrap()
        .map(|b| b.unwrap().0.name().unwrap().unwrap().to_string())
        .collect();
    assert_eq!(branch_names, vec!["base", "master"]);
}

#[test]
fn test_end_to_end_two_revisions() {
    let dir = unique_dir("e2e");
    let repo = open_or_create_repo(&dir, "CONVERT_WIKI", "no-email@example.com").unwrap();
    let branch = get_branch_name("Example", 0);
    let file_path = get_file_name("Example", 0);
    assert_eq!(file_path, "Main/Example.md");

    let status = ensure_page_branch(&repo, &branch).unwrap();
    assert!(status.created);
    assert!(status.resume_time.is_none());

    let doc1 = compose_document("Example", "Hello");
    write_work_file(&dir, &file_path, &doc1);
    let first = create_commit_from_metadata(&repo, &committer(), &author(100), &branch, &file_path, "first")
        .unwrap();
    assert!(matches!(first, CommitOutcome::Created { .. }));

    let doc2 = compose_document("Example", "Hello world");
    write_work_file(&dir, &file_path, &doc2);
    let second =
        create_commit_from_metadata(&repo, &committer(), &author(200), &branch, &file_path, "second")
            .unwrap();
    let second_id = match &second {
        CommitOutcome::Created { id, .. } => id.clone(),
        CommitOutcome::EmptyDiff { .. } => panic!("expected a new commit"),
    };

    let report = match rebase_branch(&repo, &branch, &committer(), "master") {
        Ok(report) => report,
        Err(_) => panic!("integration failed"),
    };
    assert_eq!(report.upstream_tip, report.branch_tip);

    // The page branch exists and carries exactly the two revision commits on
    // top of the shared initial commit.
    let tip = repo
        .find_branch(&branch, git2::BranchType::Local)
        .unwrap()
        .into_reference()
        .peel_to_commit()
        .unwrap();
    assert_eq!(tip.message().unwrap(), "second");
    assert_eq!(tip.id().to_string(), second_id);
    let parent = tip.parent(0).unwrap();
    assert_eq!(parent.message().unwrap(), "first");
    assert_eq!(parent.parent(0).unwrap().parent_count(), 0);

    // The file at the branch tip holds the converted latest content.
    let tree = tip.tree().unwrap();
    let entry = tree.get_path(std::path::Path::new("Main/Example.md")).unwrap();
    let blob = repo.find_blob(entry.id()).unwrap();
    assert_eq!(blob.content(), doc2.as_bytes());

    // Trunk was fast-forwarded to the whole page history.
    let master_tip = repo
        .find_branch("master", git2::BranchType::Local)
        .unwrap()
        .into_reference()
        .peel_to_commit()
        .unwrap();
    assert_eq!(master_tip.id(), tip.id());
}

#[test]
fn test_second_run_is_idempotent() {
    let dir = unique_dir("resume");
    let repo = open_or_create_repo(&dir, "CONVERT_WIKI", "no-email@example.com").unwrap();
    let branch = get_branch_name("Example", 0);
    let file_path = get_file_name("Example", 0);

    ensure_page_branch(&repo, &branch).unwrap();
    let doc = compose_document("Example", "Hello world");
    write_work_file(&dir, &file_path, &doc);
    create_commit_from_metadata(&repo, &committer(), &author(200), &branch, &file_path, "edit")
        .unwrap();
    assert!(rebase_branch(&repo, &branch, &committer(), "master").is_ok());
    let master_before = get_most_recent_commit(&repo, "master").unwrap();

    // A second run: the branch reports its resume point, re-submitting the
    // tip content is an empty diff, and the replay finds everything already
    // applied.
    let status = ensure_page_branch(&repo, &branch).unwrap();
    assert!(!status.created);
    assert_eq!(status.resume_time, Some(200));
    write_work_file(&dir, &file_path, &doc);
    let redo = create_commit_from_metadata(&repo, &committer(), &author(200), &branch, &file_path, "edit")
        .unwrap();
    assert!(matches!(redo, CommitOutcome::EmptyDiff { .. }));
    assert!(rebase_branch(&repo, &branch, &committer(), "master").is_ok());
    let master_after = get_most_recent_commit(&repo, "master").unwrap();
    assert_eq!(master_before, master_after);
}
