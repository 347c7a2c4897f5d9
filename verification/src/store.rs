//! The on-disk history store: the operational layer that performs on a real
//! git repository what the model in `history` specifies — each public
//! function names its model analogue.  Repository state lives on disk, so
//! no contract here can speak of the repository itself, and success cannot
//! be promised: what the contracts fix instead is every decision taken
//! between the calls (what counts as an empty diff, which replay failures
//! are expected on a resumed run, when a branch must be created), stated
//! over the ids each function reports.  After each mutation the affected
//! tips are read back and checked against the outcome, and a mismatch is an
//! error, never a success; the reported ids are the wrappers' own answers,
//! so the residual trust lives wholly in the wrappers' contracts.
//!
//! Commit ids and tree ids cross these wrappers as their hexadecimal text,
//! so the verified code can compare them.

use vstd::prelude::*;
use crate::authors::Author;
use crate::history::str_eq;
use crate::listing::ParsedRevision;

verus! {

#[verifier::external_type_specification]
#[verifier::external_body]
pub struct ExRepository(git2::Repository);

#[verifier::external_type_specification]
#[verifier::external_body]
pub struct ExGitError(git2::Error);

#[verifier::external_type_specification]
#[verifier::external_body]
pub struct ExRebase<'a>(git2::Rebase<'a>);

// Declared because `Rebase` iterates over values of it; no wrapper passes
// one through.
#[verifier::external_type_specification]
#[verifier::external_body]
pub struct ExRebaseOperation<'a>(git2::RebaseOperation<'a>);

/// A commit signature as plain values: who, with which email, at which UTC
/// second.
pub struct CommitSignature {
    pub name: String,
    pub email: String,
    pub time: i64,
}

/// The signature a revision is committed under: the resolved author's
/// identity with the revision's own wiki edit time, kept historically
/// faithful.
pub fn get_signature(revision: &ParsedRevision, author_info: &Author) -> (r: CommitSignature)
    ensures
        r.name@ == author_info.name@,
        r.email@ == author_info.email@,
        r.time == revision.timestamp,
{
    CommitSignature {
        name: author_info.name.clone(),
        email: author_info.email.clone(),
        time: revision.timestamp,
    }
}

/// Relies on git2's `Repository::init`: creates or reopens the repository at
/// `path`.
#[verifier::external_body]
fn repo_init(path: &str) -> (r: Result<git2::Repository, git2::Error>) {
    git2::Repository::init(path)
}

/// Relies on git2's `Repository::open`: opens the repository at `path` as it
/// stands, with no validation.
#[verifier::external_body]
fn repo_open(path: &str) -> (r: Result<git2::Repository, git2::Error>) {
    git2::Repository::open(path)
}

/// Relies on git2's `TreeBuilder::write` on an empty tree builder from
/// `Repository::treebuilder`: writes the empty tree and returns its id as
/// hex.
#[verifier::external_body]
fn write_empty_tree(repo: &git2::Repository) -> (r: Result<String, git2::Error>) {
    let tree_id = repo.treebuilder(None)?.write()?;
    Ok(tree_id.to_string())
}

/// Relies on git2's `Repository::commit`: creates a commit from the given
/// tree under the given reference, with the author's and committer's names,
/// emails and UTC-second timestamps, and returns its id as hex.
#[verifier::external_body]
fn commit_oid(
    repo: &git2::Repository,
    update_ref: &str,
    author: &CommitSignature,
    committer: &CommitSignature,
    message: &str,
    tree_hex: &str,
    parent_hex: Option<&String>,
) -> (r: Result<String, git2::Error>) {
    let author_sig = git2::Signature::new(&author.name, &author.email, &git2::Time::new(author.time, 0))?;
    let committer_sig = git2::Signature::new(&committer.name, &committer.email, &git2::Time::new(committer.time, 0))?;
    let tree = repo.find_tree(git2::Oid::from_str(tree_hex)?)?;
    let id = match parent_hex {
        None => repo.commit(Some(update_ref), &author_sig, &committer_sig, message, &tree, &[])?,
        Some(p) => {
            let parent = repo.find_commit(git2::Oid::from_str(p)?)?;
            repo.commit(Some(update_ref), &author_sig, &committer_sig, message, &tree, &[&parent])?
        },
    };
    Ok(id.to_string())
}

/// Relies on git2's `Repository::branch`: points a branch of that name at
/// the commit, creating or (when forced) moving it.
#[verifier::external_body]
fn branch_at(
    repo: &git2::Repository,
    name: &str,
    commit_hex: &str,
    force: bool,
) -> (r: Result<(), git2::Error>) {
    let commit = repo.find_commit(git2::Oid::from_str(commit_hex)?)?;
    repo.branch(name, &commit, force)?;
    Ok(())
}

/// Relies on git2's `Repository::revparse_single` and peeling the found
/// object to a commit: the id, as hex, of the commit a revision spec names.
#[verifier::external_body]
fn resolve_commit(repo: &git2::Repository, spec: &str) -> (r: Result<String, git2::Error>) {
    Ok(repo.revparse_single(spec)?.peel_to_commit()?.id().to_string())
}

/// Relies on git2's `Repository::find_branch` on local branches, peeling the
/// branch reference to its tip commit: the tip's id as hex, or the error —
/// in particular the not-found error when no such branch exists.
#[verifier::external_body]
fn lookup_branch_tip(repo: &git2::Repository, name: &str) -> (r: Result<String, git2::Error>) {
    let branch = repo.find_branch(name, git2::BranchType::Local)?;
    Ok(branch.into_reference().peel_to_commit()?.id().to_string())
}

/// Relies on git2's `Commit::author` and its time: the author timestamp, in
/// UTC seconds, of the commit with the given id.
#[verifier::external_body]
fn commit_time_seconds(repo: &git2::Repository, commit_hex: &str) -> (r: Result<
    i64,
    git2::Error,
>) {
    let commit = repo.find_commit(git2::Oid::from_str(commit_hex)?)?;
    let seconds = commit.author().when().seconds();
    Ok(seconds)
}

/// Relies on git2's `Commit::parent_id` and `Commit::parent_count`: the id,
/// as hex, of the commit's first parent, and how many parents it has.
#[verifier::external_body]
fn commit_parent(repo: &git2::Repository, commit_hex: &str) -> (r: Result<
    (String, usize),
    git2::Error,
>) {
    let commit = repo.find_commit(git2::Oid::from_str(commit_hex)?)?;
    let count = commit.parent_count();
    Ok((commit.parent_id(0)?.to_string(), count))
}

/// Relies on git2's `Commit::tree_id`: the id, as hex, of the tree of the
/// commit with the given id.
#[verifier::external_body]
fn commit_tree_id(repo: &git2::Repository, commit_hex: &str) -> (r: Result<String, git2::Error>) {
    let commit = repo.find_commit(git2::Oid::from_str(commit_hex)?)?;
    Ok(commit.tree_id().to_string())
}

/// Relies on git2's `Index::add_path` and `Index::write_tree`: stages the
/// file at the repository-relative path from the working tree and returns
/// the id, as hex, of the tree the index then describes.
#[verifier::external_body]
fn stage_path_and_tree(repo: &git2::Repository, rel_path: &str) -> (r: Result<
    String,
    git2::Error,
>) {
    let mut index = repo.index()?;
    index.add_path(std::path::Path::new(rel_path))?;
    Ok(index.write_tree()?.to_string())
}

/// Relies on git2's `Repository::set_head`: points HEAD at the given
/// reference name.
#[verifier::external_body]
fn set_head_ref(repo: &git2::Repository, refname: &str) -> (r: Result<(), git2::Error>) {
    repo.set_head(refname)
}

/// Relies on git2's `Repository::checkout_head` with a forced checkout that
/// removes untracked files and updates the index: resets the shared working
/// tree to HEAD so nothing leaks from one page or revision into the next.
#[verifier::external_body]
pub fn clean_files(repo: &git2::Repository) -> (r: Result<(), git2::Error>) {
    let mut checkout_builder = git2::build::CheckoutBuilder::new();
    checkout_builder.force();
    checkout_builder.remove_untracked(true);
    checkout_builder.update_index(true);
    repo.checkout_head(Some(&mut checkout_builder))
}

/// Relies on git2's `Repository::rebase` of HEAD onto the named local
/// branch, by way of `Repository::find_branch` and
/// `reference_to_annotated_commit`.
#[verifier::external_body]
fn rebase_open<'r>(repo: &'r git2::Repository, upstream_name: &str) -> (r: Result<
    git2::Rebase<'r>,
    git2::Error,
>) {
    let upstream = repo.reference_to_annotated_commit(
        &repo.find_branch(upstream_name, git2::BranchType::Local)?.into_reference(),
    )?;
    repo.rebase(None, Some(&upstream), None, None)
}

/// One step of a replay, with the patch itself left behind in the rebase
/// state.
pub enum RebaseStep {
    /// A patch is ready to be committed.
    Pending,
    /// No patches are left.
    Done,
    /// The step itself failed.
    Failed(git2::Error),
}

/// Relies on git2's `Rebase::next` (the iterator over rebase operations):
/// tells a pending operation, the end of the rebase, and a failed step
/// apart.
#[verifier::external_body]
fn rebase_next_step(rebase: &mut git2::Rebase<'_>) -> (r: RebaseStep) {
    match rebase.next() {
        None => RebaseStep::Done,
        Some(Ok(_)) => RebaseStep::Pending,
        Some(Err(e)) => RebaseStep::Failed(e),
    }
}

/// Relies on git2's `Rebase::commit` with the original author and message
/// kept: re-applies the current patch under a fresh committer stamp and
/// returns the new commit's id as hex.
#[verifier::external_body]
fn rebase_commit_step(
    rebase: &mut git2::Rebase<'_>,
    committer: &CommitSignature,
) -> (r: Result<String, git2::Error>) {
    let committer_sig = git2::Signature::new(&committer.name, &committer.email, &git2::Time::new(committer.time, 0))?;
    Ok(rebase.commit(None, &committer_sig, None)?.to_string())
}

/// Relies on git2's `Rebase::abort`: restores the repository to its
/// pre-rebase state.
#[verifier::external_body]
fn rebase_abort(rebase: &mut git2::Rebase<'_>) -> (r: Result<(), git2::Error>) {
    rebase.abort()
}

/// Relies on git2's `Rebase::finish`: completes the rebase.
#[verifier::external_body]
fn rebase_finish(rebase: &mut git2::Rebase<'_>) -> (r: Result<(), git2::Error>) {
    rebase.finish(None)
}

/// Relies on git2's `Error::from_str`: an error carrying this message.
#[verifier::external_body]
fn error_from_message(msg: &str) -> (r: git2::Error) {
    git2::Error::from_str(msg)
}

/// Relies on git2's `Error::code`: whether the error says the current patch
/// is already applied upstream.
#[verifier::external_body]
fn is_already_applied(e: &git2::Error) -> (r: bool) {
    e.code() == git2::ErrorCode::Applied
}

/// Relies on git2's `Error::code`: whether the error says the looked-up
/// thing does not exist.
#[verifier::external_body]
fn is_not_found(e: &git2::Error) -> (r: bool) {
    e.code() == git2::ErrorCode::NotFound
}

/// More steps than any rebase can hold: one per possible commit.
pub const REBASE_STEP_BUDGET: u64 = 0xFFFF_FFFF_FFFF_FFFF;

/// The outcome of one replay step.  Only a conflict is a genuine failure: an
/// already-applied patch is the expected mark of a resumed run.
pub enum ReplayOutcome {
    /// The patch was re-applied as the commit with this id.
    Applied(String),
    /// The patch is already present upstream; the step is a success.
    AlreadyApplied,
    /// The step failed for a real reason.
    Conflict(git2::Error),
}

/// Sorts one replay step's result into the outcome that decides the rebase:
/// `already_applied` tells whether a failure is the expected
/// already-applied report.
pub fn classify_replay(res: Result<String, git2::Error>, already_applied: bool) -> (r:
    ReplayOutcome)
    ensures
        match res {
            Ok(id) => r matches ReplayOutcome::Applied(i) && i@ == id@,
            Err(e) => {
                &&& (already_applied <==> r is AlreadyApplied)
                &&& (!already_applied ==> (r matches ReplayOutcome::Conflict(e2) && e2 == e))
            },
        },
{
    match res {
        Ok(id) => ReplayOutcome::Applied(id),
        Err(e) => {
            if already_applied {
                ReplayOutcome::AlreadyApplied
            } else {
                ReplayOutcome::Conflict(e)
            }
        },
    }
}

/// A freshly initialized repository, with what the initialization left
/// behind read back from it.
pub struct CreatedRepo {
    pub repo: git2::Repository,
    /// The empty initial commit's id.
    pub initial_commit: String,
    /// What `base` points at, read back after creation.
    pub base_tip: String,
    /// What the default branch (HEAD) points at, read back after creation.
    pub head_tip: String,
}

/// Initializes a repository at `path` with one empty initial commit on the
/// default branch and a `base` branch pointing at it, the common ancestor of
/// every page branch.  On success, `base` and the default branch both point
/// at the initial commit: the tips are read back and checked, and a
/// mismatch is an error, never a success.  The model analogue is
/// `RepoModel::new_repo`: no page branches, an empty trunk.
pub fn create_repo(path: &str, committer_name: &str, committer_email: &str) -> (r: Result<
    CreatedRepo,
    git2::Error,
>)
    ensures
        r matches Ok(c) ==> c.base_tip@ == c.initial_commit@ && c.head_tip@
            == c.initial_commit@,
{
    let repo = repo_init(path)?;
    let committer = CommitSignature {
        name: crate::history::copy_str(committer_name),
        email: crate::history::copy_str(committer_email),
        time: 0,
    };
    let tree_hex = write_empty_tree(&repo)?;
    let commit_hex = commit_oid(
        &repo,
        "HEAD",
        &committer,
        &committer,
        "Initial commit",
        tree_hex.as_str(),
        None,
    )?;
    branch_at(&repo, "base", commit_hex.as_str(), false)?;
    let base_tip = lookup_branch_tip(&repo, "base")?;
    let head_tip = resolve_commit(&repo, "HEAD")?;
    if !str_eq(base_tip.as_str(), commit_hex.as_str()) || !str_eq(
        head_tip.as_str(),
        commit_hex.as_str(),
    ) {
        return Err(error_from_message("initialized repository did not read back as expected"));
    }
    Ok(CreatedRepo { repo, initial_commit: commit_hex, base_tip, head_tip })
}

/// Opens the repository at `path` as it stands — with no validation, so
/// nothing is promised of it — or initializes a fresh one there when none
/// can be opened.
pub fn open_or_create_repo(
    path: &str,
    committer_name: &str,
    committer_email: &str,
) -> Result<git2::Repository, git2::Error> {
    match repo_open(path) {
        Ok(repo) => Ok(repo),
        Err(_) => match create_repo(path, committer_name, committer_email) {
            Ok(created) => Ok(created.repo),
            Err(e) => Err(e),
        },
    }
}

/// Creates `branch_name` at the commit `base_name` points to.  On success
/// the new branch's tip, read back, is that very commit: the pair reports
/// both ids, and a mismatch is an error, never a success.
pub fn create_branch(
    repo: &git2::Repository,
    base_name: &str,
    branch_name: &str,
) -> (r: Result<(String, String), git2::Error>)
    ensures
        r matches Ok(p) ==> p.1@ == p.0@,
{
    let base_commit = resolve_commit(repo, base_name)?;
    branch_at(repo, branch_name, base_commit.as_str(), false)?;
    let branch_tip = lookup_branch_tip(repo, branch_name)?;
    if !str_eq(branch_tip.as_str(), base_commit.as_str()) {
        return Err(error_from_message("created branch did not read back at its base"));
    }
    Ok((base_commit, branch_tip))
}

/// The id, as hex, of the newest commit on the named branch.  The answer is
/// whatever the branch lookup reports: it depends on the repository alone,
/// so nothing more can be promised of it here.
pub fn get_most_recent_commit(
    repo: &git2::Repository,
    branch_name: &str,
) -> Result<String, git2::Error> {
    lookup_branch_tip(repo, branch_name)
}

/// What `ensure_page_branch` found or made: whether the branch had to be
/// created, the resume point — the author time of the newest commit of a
/// branch that already existed, and nothing for a created one — and the
/// branch's tip commit id (for a created branch, the tip of `base`).
pub struct BranchStatus {
    pub created: bool,
    pub resume_time: Option<i64>,
    pub tip: String,
}

/// Creates the page branch from the tip of `base` when it does not exist
/// (the not-found answer of the branch lookup decides); otherwise reports
/// the resume point, read from the found tip.  Exactly the created branch
/// has no resume point.  The model analogue is
/// `RepoModel::ensure_page_branch`.
pub fn ensure_page_branch(repo: &git2::Repository, branch_name: &str) -> (r: Result<
    BranchStatus,
    git2::Error,
>)
    ensures
        r matches Ok(s) ==> (s.created <==> s.resume_time is None),
{
    match lookup_branch_tip(repo, branch_name) {
        Ok(tip) => {
            let t = commit_time_seconds(repo, tip.as_str())?;
            Ok(BranchStatus { created: false, resume_time: Some(t), tip })
        },
        Err(e) => {
            if is_not_found(&e) {
                let (_base_commit, branch_tip) = create_branch(repo, "base", branch_name)?;
                Ok(BranchStatus { created: true, resume_time: None, tip: branch_tip })
            } else {
                Err(e)
            }
        },
    }
}

/// What one commit attempt did, with every id read back from the
/// repository: the old tip (`parent`), the tree the staged file gave
/// (`staged_tree`), the old tip's tree (`parent_tree`), and the branch tip
/// after the attempt (`new_tip`).
pub enum CommitOutcome {
    /// A new commit `id`, sole child of `parent`, now the branch tip;
    /// `tip_parent` and `tip_parent_count` are the new tip's parentage, read
    /// back.
    Created {
        id: String,
        parent: String,
        staged_tree: String,
        parent_tree: String,
        new_tip: String,
        tip_parent: String,
        tip_parent_count: usize,
    },
    /// The staged tree equals the tip's tree: the empty diff, no commit,
    /// the branch tip unchanged.
    EmptyDiff { parent: String, staged_tree: String, parent_tree: String, new_tip: String },
}

/// A commit is created exactly when the staged tree differs from the tip's
/// tree; the branch tip afterwards is the new commit, whose sole parent is
/// the old tip — or, on the empty diff, still the old tip.
pub open spec fn commit_outcome_consistent(out: CommitOutcome) -> bool {
    match out {
        CommitOutcome::Created {
            id,
            parent,
            staged_tree,
            parent_tree,
            new_tip,
            tip_parent,
            tip_parent_count,
        } => staged_tree@ != parent_tree@ && new_tip@ == id@ && tip_parent@ == parent@
            && tip_parent_count == 1,
        CommitOutcome::EmptyDiff { parent, staged_tree, parent_tree, new_tip } => staged_tree@
            == parent_tree@ && new_tip@ == parent@,
    }
}

/// Commits the file at `file_path` (already written to the working tree)
/// onto `branch_name`: stages exactly that path and, when the staged tree
/// differs from the branch tip's tree, creates a child commit of the tip and
/// advances the branch; an unchanged tree is the empty diff and makes no
/// commit.  Either way the working tree is reset afterwards, because it is
/// shared across pages.  The branch tip is read back after the attempt and
/// checked against the outcome — a new commit must be the tip, an empty
/// diff must leave the old tip — and a mismatch is an error, never a
/// success.  The model analogue is `RepoModel::commit_revision`.
pub fn create_commit_from_metadata(
    repo: &git2::Repository,
    committer: &CommitSignature,
    author: &CommitSignature,
    branch_name: &str,
    file_path: &str,
    comment: &str,
) -> (r: Result<CommitOutcome, git2::Error>)
    ensures
        r matches Ok(out) ==> commit_outcome_consistent(out),
{
    let parent_hex = resolve_commit(repo, branch_name)?;
    let parent_tree = commit_tree_id(repo, parent_hex.as_str())?;
    let staged_tree = stage_path_and_tree(repo, file_path)?;
    if str_eq(staged_tree.as_str(), parent_tree.as_str()) {
        clean_files(repo)?;
        let new_tip = resolve_commit(repo, branch_name)?;
        if !str_eq(new_tip.as_str(), parent_hex.as_str()) {
            return Err(error_from_message("branch moved under an empty-diff commit attempt"));
        }
        return Ok(
            CommitOutcome::EmptyDiff { parent: parent_hex, staged_tree, parent_tree, new_tip },
        );
    }
    let mut refname = crate::history::copy_str("refs/heads/");
    refname.append(branch_name);
    let commit_hex = commit_oid(
        repo,
        refname.as_str(),
        author,
        committer,
        comment,
        staged_tree.as_str(),
        Some(&parent_hex),
    )?;
    clean_files(repo)?;
    let new_tip = resolve_commit(repo, branch_name)?;
    if !str_eq(new_tip.as_str(), commit_hex.as_str()) {
        return Err(error_from_message("new commit did not read back as the branch tip"));
    }
    let (tip_parent, tip_parent_count) = commit_parent(repo, new_tip.as_str())?;
    if !str_eq(tip_parent.as_str(), parent_hex.as_str()) || tip_parent_count != 1 {
        return Err(error_from_message("new commit did not read back as a child of the old tip"));
    }
    Ok(
        CommitOutcome::Created {
            id: commit_hex,
            parent: parent_hex,
            staged_tree,
            parent_tree,
            new_tip,
            tip_parent,
            tip_parent_count,
        },
    )
}

/// Why a replay failed.  Only `Conflict` stands for a genuinely failed
/// replay step — it carries that step's own error, and the rebase was
/// aborted, the upstream branch left unchanged.
pub enum RebaseError {
    /// A replay step failed for a real reason (never the expected
    /// already-applied report).
    Conflict(git2::Error),
    /// The rebase machinery failed around the steps: switching branches,
    /// opening, aborting, finishing, fast-forwarding, or a read-back that
    /// did not agree with the outcome.
    Setup(git2::Error),
    /// The replay did not end within one step per possible commit.
    StepBudgetExhausted,
}

/// What a completed replay reports: every step's outcome, in order — each
/// one applied or already applied, never a conflict — and the two branch
/// tips read back after the fast-forward, which agree.
pub struct ReplayReport {
    pub steps: Vec<ReplayOutcome>,
    pub branch_tip: String,
    pub upstream_tip: String,
}

/// Replays every commit unique to `branch_name` onto the tip of
/// `upstream_name`, in order, then fast-forwards the upstream branch to the
/// result.  A step whose patch is already present upstream is a success —
/// the expected mark of a resumed run; any other failed step aborts the
/// rebase, leaves the upstream branch unchanged, and is reported as a
/// `Conflict` carrying that step's error.  On success the report holds one
/// non-conflict outcome per step, and the upstream tip, read back, equals
/// the rebased branch's tip.  The model analogue is `RepoModel::integrate`.
pub fn rebase_branch(
    repo: &git2::Repository,
    branch_name: &str,
    committer: &CommitSignature,
    upstream_name: &str,
) -> (r: Result<ReplayReport, RebaseError>)
    ensures
        r matches Ok(rep) ==> {
            &&& forall|i: int| 0 <= i < rep.steps@.len() ==> !(rep.steps@[i] is Conflict)
            &&& rep.upstream_tip@ == rep.branch_tip@
        },
{
    let mut refname = crate::history::copy_str("refs/heads/");
    refname.append(branch_name);
    if let Err(e) = set_head_ref(repo, refname.as_str()) {
        return Err(RebaseError::Setup(e));
    }
    if let Err(e) = clean_files(repo) {
        return Err(RebaseError::Setup(e));
    }
    let mut rebase = match rebase_open(repo, upstream_name) {
        Ok(rb) => rb,
        Err(e) => {
            return Err(RebaseError::Setup(e));
        },
    };
    let mut log: Vec<ReplayOutcome> = Vec::new();
    let mut steps: u64 = 0;
    let mut running = true;
    while running && steps < REBASE_STEP_BUDGET
        invariant
            steps <= REBASE_STEP_BUDGET,
            forall|i: int| 0 <= i < log@.len() ==> !(log@[i] is Conflict),
        decreases REBASE_STEP_BUDGET - steps, if running {
            1int
        } else {
            0int
        },
    {
        match rebase_next_step(&mut rebase) {
            RebaseStep::Done => {
                running = false;
            },
            RebaseStep::Failed(e) => {
                if let Err(e2) = rebase_abort(&mut rebase) {
                    return Err(RebaseError::Setup(e2));
                }
                return Err(RebaseError::Conflict(e));
            },
            RebaseStep::Pending => {
                let res = rebase_commit_step(&mut rebase, committer);
                let applied = match &res {
                    Ok(_) => false,
                    Err(e) => is_already_applied(e),
                };
                match classify_replay(res, applied) {
                    ReplayOutcome::Conflict(e) => {
                        if let Err(e2) = rebase_abort(&mut rebase) {
                            return Err(RebaseError::Setup(e2));
                        }
                        return Err(RebaseError::Conflict(e));
                    },
                    outcome => {
                        log.push(outcome);
                    },
                }
                steps = steps + 1;
            },
        }
    }
    if running {
        if let Err(e2) = rebase_abort(&mut rebase) {
            return Err(RebaseError::Setup(e2));
        }
        return Err(RebaseError::StepBudgetExhausted);
    }
    if let Err(e) = rebase_finish(&mut rebase) {
        return Err(RebaseError::Setup(e));
    }
    let branch_tip = match resolve_commit(repo, branch_name) {
        Ok(tip) => tip,
        Err(e) => {
            return Err(RebaseError::Setup(e));
        },
    };
    if let Err(e) = branch_at(repo, upstream_name, branch_tip.as_str(), true) {
        return Err(RebaseError::Setup(e));
    }
    let upstream_tip = match lookup_branch_tip(repo, upstream_name) {
        Ok(tip) => tip,
        Err(e) => {
            return Err(RebaseError::Setup(e));
        },
    };
    if !str_eq(upstream_tip.as_str(), branch_tip.as_str()) {
        return Err(
            RebaseError::Setup(
                error_from_message("upstream did not read back at the rebased tip"),
            ),
        );
    }
    Ok(ReplayReport { steps: log, branch_tip, upstream_tip })
}

} // verus!
