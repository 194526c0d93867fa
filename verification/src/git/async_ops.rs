//! The git commands that run in the background: their arguments, the order of their steps,
//! and what their ends amount to.

use crate::git::RemoteOpResult;
use crate::text::{self, joined, push_dec, trimmed};
use vstd::prelude::*;
use vstd::string::*;

verus! {

/// A git command, and the name it goes by where something is said of it.
pub struct GitCommand {
    pub args: Vec<String>,
    pub op_name: String,
}

impl GitCommand {
    /// Whether the command has these arguments and this name.
    pub open spec fn is(self, args: Seq<Seq<char>>, op: Seq<char>) -> bool {
        text::views(self.args@) =~= args && self.op_name@ == op
    }

    fn new(first: &str, op: &str) -> (r: Self)
        ensures
            r.is(seq![first@], op@),
    {
        let mut args: Vec<String> = Vec::new();
        args.push(first.to_owned());
        assert(text::views(args@) =~= seq![first@]);
        GitCommand { args, op_name: op.to_owned() }
    }

    fn with(self, arg: &str) -> (r: Self)
        ensures
            r.is(text::views(self.args@).push(arg@), self.op_name@),
    {
        let mut args = self.args;
        let ghost before = args@;
        args.push(arg.to_owned());
        assert(text::views(args@) =~= text::views(before).push(arg@));
        GitCommand { args, op_name: self.op_name }
    }
}

/// How a command ended.
pub enum CommandOutcome {
    /// It ran: whether it succeeded, and what it wrote to its error output.
    Exited { success: bool, stderr: String },
    /// It could not be run.
    NotRun(String),
}

impl CommandOutcome {
    /// Whether the command ran and succeeded.
    pub open spec fn ok(self) -> bool {
        match self {
            CommandOutcome::Exited { success, stderr } => success,
            CommandOutcome::NotRun(e) => false,
        }
    }
}

/// What the end of a command amounts to, where `failed` is said if it could not be run.
pub open spec fn outcome_result(o: CommandOutcome, failed: Seq<char>) -> (bool, Seq<char>) {
    match o {
        CommandOutcome::Exited { success, stderr } => (success, stderr@),
        CommandOutcome::NotRun(e) => (false, failed + e@),
    }
}

/// A result by its views.
pub open spec fn result_view(r: RemoteOpResult) -> (bool, Seq<char>) {
    (r.success, r.error@)
}

fn conclude(o: CommandOutcome, failed: &str) -> (r: RemoteOpResult)
    ensures
        result_view(r) == outcome_result(o, failed@),
{
    match o {
        CommandOutcome::Exited { success, stderr } => RemoteOpResult { success, error: stderr },
        CommandOutcome::NotRun(e) => {
            let mut error = failed.to_owned();
            error.append(e.as_str());
            RemoteOpResult { success: false, error }
        },
    }
}

/// What the end of a git command amounts to.
pub fn run_git_async(op_name: &str, outcome: CommandOutcome) -> (r: RemoteOpResult)
    ensures
        result_view(r) == outcome_result(outcome, "Failed to run git "@ + op_name@ + ": "@),
{
    let mut failed = "Failed to run git ".to_owned();
    failed.append(op_name);
    failed.append(": ");
    conclude(outcome, failed.as_str())
}

/// `git fetch --prune`.
pub fn fetch_remote_async(remote: &str) -> (r: GitCommand)
    ensures
        r.is(seq!["fetch"@, "--prune"@, remote@], "fetch"@),
{
    GitCommand::new("fetch", "fetch")
        .with("--prune")
        .with(remote)
}

/// `git fetch --all --prune`.
pub fn fetch_all_async() -> (r: GitCommand)
    ensures
        r.is(seq!["fetch"@, "--all"@, "--prune"@], "fetch --all"@),
{
    GitCommand::new("fetch", "fetch --all")
        .with("--all")
        .with("--prune")
}

/// `git push`.
pub fn push_remote_async(remote: &str, branch: &str) -> (r: GitCommand)
    ensures
        r.is(seq!["push"@, remote@, branch@], "push"@),
{
    GitCommand::new("push", "push")
        .with(remote)
        .with(branch)
}

/// `git push --force-with-lease`.
pub fn push_force_async(remote: &str, branch: &str) -> (r: GitCommand)
    ensures
        r.is(seq!["push"@, "--force-with-lease"@, remote@, branch@], "push"@),
{
    GitCommand::new("push", "push")
        .with("--force-with-lease")
        .with(remote)
        .with(branch)
}

/// `git push` with a refspec (local:remote format).
pub fn push_refspec_async(remote: &str, refspec: &str) -> (r: GitCommand)
    ensures
        r.is(seq!["push"@, remote@, refspec@], "push"@),
{
    GitCommand::new("push", "push")
        .with(remote)
        .with(refspec)
}

/// `git push --force-with-lease` with a refspec.
pub fn push_force_refspec_async(remote: &str, refspec: &str) -> (r: GitCommand)
    ensures
        r.is(seq!["push"@, "--force-with-lease"@, remote@, refspec@], "push"@),
{
    GitCommand::new("push", "push")
        .with("--force-with-lease")
        .with(remote)
        .with(refspec)
}

/// `git push --tags <remote>`.
pub fn push_tags_only_async(remote: &str) -> (r: GitCommand)
    ensures
        r.is(seq!["push"@, "--tags"@, remote@], "push --tags"@),
{
    GitCommand::new("push", "push --tags")
        .with("--tags")
        .with(remote)
}

/// `git pull`.
pub fn pull_remote_async(remote: &str, branch: &str) -> (r: GitCommand)
    ensures
        r.is(seq!["pull"@, remote@, branch@], "pull"@),
{
    GitCommand::new("pull", "pull")
        .with(remote)
        .with(branch)
}

/// `git pull --rebase`.
pub fn pull_rebase_async(remote: &str, branch: &str) -> (r: GitCommand)
    ensures
        r.is(seq!["pull"@, "--rebase"@, remote@, branch@], "pull --rebase"@),
{
    GitCommand::new("pull", "pull --rebase")
        .with("--rebase")
        .with(remote)
        .with(branch)
}

/// Update a submodule.
pub fn update_submodule_async(name: &str) -> (r: GitCommand)
    ensures
        r.is(seq!["submodule"@, "update"@, "--init"@, "--recursive"@, "--"@, name@], "submodule update"@),
{
    GitCommand::new("submodule", "submodule update")
        .with("update")
        .with("--init")
        .with("--recursive")
        .with("--")
        .with(name)
}

/// Force-reset a submodule checkout to the recorded pin.
pub fn reset_submodule_async(name: &str) -> (r: GitCommand)
    ensures
        r.is(seq!["submodule"@, "update"@, "--init"@, "--recursive"@, "--force"@, "--"@, name@], "submodule reset"@),
{
    GitCommand::new("submodule", "submodule reset")
        .with("update")
        .with("--init")
        .with("--recursive")
        .with("--force")
        .with("--")
        .with(name)
}

/// Create a worktree for a branch.
pub fn create_worktree_async(path: &str, branch: &str) -> (r: GitCommand)
    ensures
        r.is(seq!["worktree"@, "add"@, path@, branch@], "worktree add"@),
{
    GitCommand::new("worktree", "worktree add")
        .with("add")
        .with(path)
        .with(branch)
}

/// Create a detached worktree at a commit.
pub fn create_worktree_detached_async(path: &str, commitish: &str) -> (r: GitCommand)
    ensures
        r.is(seq!["worktree"@, "add"@, "--detach"@, path@, commitish@], "worktree add"@),
{
    GitCommand::new("worktree", "worktree add")
        .with("add")
        .with("--detach")
        .with(path)
        .with(commitish)
}

/// Remove a clean worktree.
pub fn remove_worktree_async(target: &str) -> (r: GitCommand)
    ensures
        r.is(seq!["worktree"@, "remove"@, target@], "worktree remove"@),
{
    GitCommand::new("worktree", "worktree remove")
        .with("remove")
        .with(target)
}

/// Force-remove a dirty worktree.
pub fn remove_worktree_force_async(target: &str) -> (r: GitCommand)
    ensures
        r.is(seq!["worktree"@, "remove"@, "--force"@, target@], "worktree remove --force"@),
{
    GitCommand::new("worktree", "worktree remove --force")
        .with("remove")
        .with("--force")
        .with(target)
}

/// Merge a branch into the current branch.
pub fn merge_branch_async(branch_name: &str) -> (r: GitCommand)
    ensures
        r.is(seq!["merge"@, branch_name@], "merge"@),
{
    GitCommand::new("merge", "merge")
        .with(branch_name)
}

/// Merge with --no-ff (always create merge commit).
pub fn merge_noff_async(branch_name: &str, message: &str) -> (r: GitCommand)
    ensures
        r.is(seq!["merge"@, "--no-ff"@, "-m"@, message@, branch_name@], "merge --no-ff"@),
{
    GitCommand::new("merge", "merge --no-ff")
        .with("--no-ff")
        .with("-m")
        .with(message)
        .with(branch_name)
}

/// Merge with --ff-only (fail if not fast-forwardable).
pub fn merge_ffonly_async(branch_name: &str) -> (r: GitCommand)
    ensures
        r.is(seq!["merge"@, "--ff-only"@, branch_name@], "merge --ff-only"@),
{
    GitCommand::new("merge", "merge --ff-only")
        .with("--ff-only")
        .with(branch_name)
}

/// Merge with --squash (stage changes, don't auto-commit).
pub fn merge_squash_async(branch_name: &str) -> (r: GitCommand)
    ensures
        r.is(seq!["merge"@, "--squash"@, branch_name@], "merge --squash"@),
{
    GitCommand::new("merge", "merge --squash")
        .with("--squash")
        .with(branch_name)
}

/// Stash all changes.
pub fn stash_push_async() -> (r: GitCommand)
    ensures
        r.is(seq!["stash"@, "push"@], "stash push"@),
{
    GitCommand::new("stash", "stash push")
        .with("push")
}

/// Pop the most recent stash.
pub fn stash_pop_async() -> (r: GitCommand)
    ensures
        r.is(seq!["stash"@, "pop"@], "stash pop"@),
{
    GitCommand::new("stash", "stash pop")
        .with("pop")
}

/// Cherry-pick a commit.
pub fn cherry_pick_async(sha: &str) -> (r: GitCommand)
    ensures
        r.is(seq!["cherry-pick"@, sha@], "cherry-pick"@),
{
    GitCommand::new("cherry-pick", "cherry-pick")
        .with(sha)
}

/// Revert a commit.
pub fn revert_commit_async(sha: &str) -> (r: GitCommand)
    ensures
        r.is(seq!["revert"@, "--no-edit"@, sha@], "revert"@),
{
    GitCommand::new("revert", "revert")
        .with("--no-edit")
        .with(sha)
}

/// Push with any combination of `--force-with-lease`, `--set-upstream` and `--tags`.
pub fn push_with_options_async(
    remote: &str,
    branch: &str,
    force_with_lease: bool,
    set_upstream: bool,
    include_tags: bool,
) -> (r: GitCommand)
    ensures
        r.is(
            seq!["push"@] + flag(force_with_lease, "--force-with-lease"@) + flag(
                set_upstream,
                "--set-upstream"@,
            ) + flag(include_tags, "--tags"@) + seq![remote@, branch@],
            "push"@,
        ),
{
    let mut c = GitCommand::new("push", "push");
    if force_with_lease {
        c = c.with("--force-with-lease");
    }
    if set_upstream {
        c = c.with("--set-upstream");
    }
    if include_tags {
        c = c.with("--tags");
    }
    c.with(remote).with(branch)
}

/// `arg`, where it is wanted.
pub open spec fn flag(wanted: bool, arg: Seq<char>) -> Seq<Seq<char>> {
    if wanted {
        seq![arg]
    } else {
        Seq::empty()
    }
}

/// Rebase with options (--autostash, --rebase-merges).
pub fn rebase_with_options_async(branch: &str, autostash: bool, rebase_merges: bool) -> (r:
    GitCommand)
    ensures
        r.is(
            seq!["rebase"@] + flag(autostash, "--autostash"@) + flag(
                rebase_merges,
                "--rebase-merges"@,
            ) + seq![branch@],
            "rebase"@,
        ),
{
    let mut c = GitCommand::new("rebase", "rebase");
    if autostash {
        c = c.with("--autostash");
    }
    if rebase_merges {
        c = c.with("--rebase-merges");
    }
    c.with(branch)
}

/// The name of a stash.
pub open spec fn stash_name(index: usize) -> Seq<char> {
    "stash@{"@ + text::dec(index as nat) + "}"@
}

fn stash_ref(index: usize) -> (r: String)
    ensures
        r@ == stash_name(index),
{
    let mut s = "stash@{".to_owned();
    push_dec(&mut s, index as u64);
    s.append("}");
    s
}

/// Apply a stash entry (without removing it).
pub fn stash_apply_async(index: usize) -> (r: GitCommand)
    ensures
        r.is(seq!["stash"@, "apply"@, stash_name(index)], "stash apply"@),
{
    let name = stash_ref(index);
    GitCommand::new("stash", "stash apply").with("apply").with(name.as_str())
}

/// Drop a stash entry.
pub fn stash_drop_async(index: usize) -> (r: GitCommand)
    ensures
        r.is(seq!["stash"@, "drop"@, stash_name(index)], "stash drop"@),
{
    let name = stash_ref(index);
    GitCommand::new("stash", "stash drop").with("drop").with(name.as_str())
}

/// Pop a stash entry by index.
pub fn stash_pop_index_async(index: usize) -> (r: GitCommand)
    ensures
        r.is(seq!["stash"@, "pop"@, stash_name(index)], "stash pop"@),
{
    let name = stash_ref(index);
    GitCommand::new("stash", "stash pop").with("pop").with(name.as_str())
}

// ---------------------------------------------------------------------------
// Cloning
// ---------------------------------------------------------------------------

/// `git clone [--bare] <url> <dest>`.
pub fn clone_async(url: &str, dest: &str, bare: bool) -> (r: GitCommand)
    ensures
        r.is(seq!["clone"@] + flag(bare, "--bare"@) + seq![url@, dest@], "clone"@),
{
    let mut c = GitCommand::new("clone", "clone");
    if bare {
        c = c.with("--bare");
    }
    c.with(url).with(dest)
}

/// What the end of a clone amounts to: the destination, or what went wrong.
pub fn clone_result(dest: String, outcome: CommandOutcome) -> (r: Result<String, String>)
    ensures
        match r {
            Ok(d) => outcome.ok() && d == dest,
            Err(e) => !outcome.ok() && e@ == (match outcome {
                CommandOutcome::Exited { success, stderr } => text::trim(stderr@),
                CommandOutcome::NotRun(why) => "Failed to run git clone: "@ + why@,
            }),
        },
{
    match outcome {
        CommandOutcome::Exited { success, stderr } => if success {
            Ok(dest)
        } else {
            Err(trimmed(stderr.as_str()))
        },
        CommandOutcome::NotRun(why) => {
            let mut e = "Failed to run git clone: ".to_owned();
            e.append(why.as_str());
            Err(e)
        },
    }
}

// ---------------------------------------------------------------------------
// Deleting a branch on a remote
// ---------------------------------------------------------------------------

/// Delete a branch on the remote.
pub fn delete_remote_branch_async(remote: &str, branch: &str) -> (r: GitCommand)
    ensures
        r.is(seq!["push"@, remote@, "--delete"@, branch@], "delete remote branch"@),
{
    GitCommand::new("push", "delete remote branch").with(remote).with("--delete").with(branch)
}

/// What follows the deletion on the remote, and what it amounts to. Where it succeeded the
/// local ref that follows the branch is deleted too, whatever comes of that, so that the
/// deletion shows without waiting for a later fetch.
pub fn remote_branch_deleted(remote: &str, branch: &str, outcome: CommandOutcome) -> (r: (
    Option<GitCommand>,
    RemoteOpResult,
))
    ensures
        match r.0 {
            Some(c) => outcome.ok() && c.is(
                seq!["branch"@, "-dr"@, remote@ + "/"@ + branch@],
                "delete remote branch"@,
            ),
            None => !outcome.ok(),
        },
        result_view(r.1) == outcome_result(outcome, "Failed to run git delete remote branch: "@),
{
    let result = conclude(outcome, "Failed to run git delete remote branch: ");
    if result.success {
        let mut name = remote.to_owned();
        name.append("/");
        name.append(branch);
        let c = GitCommand::new("branch", "delete remote branch").with("-dr").with(name.as_str());
        (Some(c), result)
    } else {
        (None, result)
    }
}

// ---------------------------------------------------------------------------
// Removing a submodule
// ---------------------------------------------------------------------------

/// The first step of removing a submodule.
pub fn remove_submodule_async(name: &str) -> (r: GitCommand)
    ensures
        r.is(seq!["submodule"@, "deinit"@, "-f"@, name@], "submodule deinit"@),
{
    GitCommand::new("submodule", "submodule deinit").with("deinit").with("-f").with(name)
}

/// What follows the first step: the second, or the end where the first failed.
pub enum SubmoduleStep {
    Remove(GitCommand),
    Done(RemoteOpResult),
}

/// What follows the first step of removing a submodule.
pub fn submodule_deinited(name: &str, outcome: CommandOutcome) -> (r: SubmoduleStep)
    ensures
        match r {
            SubmoduleStep::Remove(c) => outcome.ok() && c.is(seq!["rm"@, "-f"@, name@], "rm"@),
            SubmoduleStep::Done(result) => !outcome.ok() && result_view(result) == outcome_result(
                outcome,
                "Failed to run git submodule deinit: "@,
            ),
        },
{
    let result = conclude(outcome, "Failed to run git submodule deinit: ");
    if result.success {
        SubmoduleStep::Remove(GitCommand::new("rm", "rm").with("-f").with(name))
    } else {
        SubmoduleStep::Done(result)
    }
}

/// What the second step of removing a submodule amounts to.
pub fn submodule_removed(outcome: CommandOutcome) -> (r: RemoteOpResult)
    ensures
        result_view(r) == outcome_result(outcome, "Failed to run git rm: "@),
{
    conclude(outcome, "Failed to run git rm: ")
}

// ---------------------------------------------------------------------------
// Creating a worktree
// ---------------------------------------------------------------------------

/// What is wanted of a new worktree.
pub struct WorktreeRequest {
    pub path: String,
    pub source: String,
    pub detached: bool,
    pub init_submodules: bool,
    pub checkout_lfs: bool,
}

/// A step of creating a worktree.
#[derive(Debug, Clone, Copy, PartialEq, Eq, Structural)]
pub enum WorktreeStep {
    Create,
    InitSubmodules,
    CheckoutLfs,
    Done,
}

/// A command, and whether it runs in the new worktree.
pub struct StepCommand {
    pub args: Vec<String>,
    pub in_worktree: bool,
}

/// The course of creating a worktree.
pub struct WorktreeCreation {
    request: WorktreeRequest,
    step: WorktreeStep,
    warnings: Vec<String>,
    failure: Option<String>,
}

/// The course by its views.
#[verifier::ext_equal]
pub struct CreationView {
    pub request: WorktreeRequest,
    pub step: WorktreeStep,
    pub warnings: Seq<Seq<char>>,
    pub failure: Option<Seq<char>>,
}

impl View for WorktreeCreation {
    type V = CreationView;

    closed spec fn view(&self) -> CreationView {
        CreationView {
            request: self.request,
            step: self.step,
            warnings: text::views(self.warnings@),
            failure: text::opt_view(self.failure),
        }
    }
}

/// The arguments of a step.
pub open spec fn step_args(request: WorktreeRequest, step: WorktreeStep) -> Seq<Seq<char>> {
    match step {
        WorktreeStep::Create => seq!["worktree"@, "add"@] + flag(
            request.detached,
            "--detach"@,
        ) + seq![request.path@, request.source@],
        WorktreeStep::InitSubmodules => seq!["submodule"@, "update"@, "--init"@, "--recursive"@],
        WorktreeStep::CheckoutLfs => seq!["lfs"@, "checkout"@],
        WorktreeStep::Done => Seq::empty(),
    }
}

/// The step that follows `step`: what is not wanted is passed over.
pub open spec fn next_step(request: WorktreeRequest, step: WorktreeStep) -> WorktreeStep {
    match step {
        WorktreeStep::Create => if request.init_submodules {
            WorktreeStep::InitSubmodules
        } else if request.checkout_lfs {
            WorktreeStep::CheckoutLfs
        } else {
            WorktreeStep::Done
        },
        WorktreeStep::InitSubmodules => if request.checkout_lfs {
            WorktreeStep::CheckoutLfs
        } else {
            WorktreeStep::Done
        },
        _ => WorktreeStep::Done,
    }
}

/// What a step that failed is warned of.
pub open spec fn step_warning(step: WorktreeStep, o: CommandOutcome) -> Seq<char> {
    match o {
        CommandOutcome::Exited { success, stderr } => if step == WorktreeStep::InitSubmodules {
            "submodule init failed:\n"@ + stderr@
        } else {
            "LFS checkout failed:\n"@ + stderr@
        },
        CommandOutcome::NotRun(e) => if step == WorktreeStep::InitSubmodules {
            "failed to run submodule update: "@ + e@
        } else {
            "failed to run git lfs checkout: "@ + e@
        },
    }
}

/// The course after a step ended. Only the first can fail it; the others leave a warning.
pub open spec fn creation_after(c: CreationView, o: CommandOutcome) -> CreationView {
    match c.step {
        WorktreeStep::Create => if o.ok() {
            CreationView { step: next_step(c.request, c.step), ..c }
        } else {
            CreationView {
                step: WorktreeStep::Done,
                failure: Some(outcome_result(o, "Failed to run git worktree add: "@).1),
                ..c
            }
        },
        WorktreeStep::Done => c,
        _ => CreationView {
            step: next_step(c.request, c.step),
            warnings: if o.ok() {
                c.warnings
            } else {
                c.warnings.push(step_warning(c.step, o))
            },
            ..c
        },
    }
}

/// What the course amounts to at its end.
pub open spec fn creation_result(c: CreationView) -> (bool, Seq<char>) {
    match c.failure {
        Some(e) => (false, e),
        None => if c.warnings.len() == 0 {
            (true, Seq::empty())
        } else {
            (false, "Worktree created, but "@ + text::join(c.warnings, "; "@))
        },
    }
}

impl WorktreeCreation {
    /// Create a worktree and run optional post-creation steps (submodule init, LFS checkout).
    pub fn start(request: WorktreeRequest) -> (r: Self)
        ensures
            r@ == (CreationView {
                request,
                step: WorktreeStep::Create,
                warnings: Seq::empty(),
                failure: None,
            }),
    {
        let r = WorktreeCreation {
            request,
            step: WorktreeStep::Create,
            warnings: Vec::new(),
            failure: None,
        };
        assert(text::views(r.warnings@) =~= Seq::empty());
        r
    }

    /// The command of the step that is next, `None` where the course has ended.
    pub fn next(&self) -> (r: Option<StepCommand>)
        ensures
            match r {
                Some(c) => {
                    &&& self@.step != WorktreeStep::Done
                    &&& text::views(c.args@) == step_args(self@.request, self@.step)
                    &&& c.in_worktree == (self@.step != WorktreeStep::Create)
                },
                None => self@.step == WorktreeStep::Done,
            },
    {
        let c = match self.step {
            WorktreeStep::Create => {
                let mut c = GitCommand::new("worktree", "worktree add").with("add");
                if self.request.detached {
                    c = c.with("--detach");
                }
                c.with(self.request.path.as_str()).with(self.request.source.as_str())
            },
            WorktreeStep::InitSubmodules => GitCommand::new("submodule", "submodule update").with(
                "update",
            ).with("--init").with("--recursive"),
            WorktreeStep::CheckoutLfs => GitCommand::new("lfs", "lfs checkout").with("checkout"),
            WorktreeStep::Done => {
                return None;
            },
        };
        assert(text::views(c.args@) =~= step_args(self@.request, self@.step));
        Some(StepCommand { args: c.args, in_worktree: self.step != WorktreeStep::Create })
    }

    /// Takes in how the step ended.
    pub fn tell(&mut self, outcome: CommandOutcome)
        ensures
            final(self)@ == creation_after(old(self)@, outcome),
    {
        let step = self.step;
        let ok = match &outcome {
            CommandOutcome::Exited { success, stderr } => *success,
            CommandOutcome::NotRun(e) => false,
        };
        match step {
            WorktreeStep::Create => {
                if ok {
                    self.step = if self.request.init_submodules {
                        WorktreeStep::InitSubmodules
                    } else if self.request.checkout_lfs {
                        WorktreeStep::CheckoutLfs
                    } else {
                        WorktreeStep::Done
                    };
                } else {
                    let result = conclude(outcome, "Failed to run git worktree add: ");
                    self.failure = Some(result.error);
                    self.step = WorktreeStep::Done;
                }
            },
            WorktreeStep::Done => {},
            _ => {
                if !ok {
                    let submodules = step == WorktreeStep::InitSubmodules;
                    let warning = match &outcome {
                        CommandOutcome::Exited { success, stderr } => {
                            let mut w = if submodules {
                                "submodule init failed:\n".to_owned()
                            } else {
                                "LFS checkout failed:\n".to_owned()
                            };
                            w.append(stderr.as_str());
                            w
                        },
                        CommandOutcome::NotRun(e) => {
                            let mut w = if submodules {
                                "failed to run submodule update: ".to_owned()
                            } else {
                                "failed to run git lfs checkout: ".to_owned()
                            };
                            w.append(e.as_str());
                            w
                        },
                    };
                    let ghost before = self.warnings@;
                    self.warnings.push(warning);
                    assert(text::views(self.warnings@) =~= text::views(before).push(warning@));
                }
                self.step = if step == WorktreeStep::InitSubmodules && self.request.checkout_lfs {
                    WorktreeStep::CheckoutLfs
                } else {
                    WorktreeStep::Done
                };
            },
        }
        assert(self@ =~= creation_after(old(self)@, outcome));
    }

    /// What the course amounts to.
    pub fn result(&self) -> (r: RemoteOpResult)
        ensures
            result_view(r) == creation_result(self@),
    {
        if let Some(e) = &self.failure {
            return RemoteOpResult { success: false, error: e.clone() };
        }
        assert(self.warnings.len() == text::views(self.warnings@).len());
        if self.warnings.len() == 0 {
            return RemoteOpResult { success: true, error: String::new() };
        }
        let mut error = "Worktree created, but ".to_owned();
        let list = joined(&self.warnings, "; ");
        error.append(list.as_str());
        RemoteOpResult { success: false, error }
    }
}

/// How many steps are left at most.
pub open spec fn steps_left(step: WorktreeStep) -> nat {
    match step {
        WorktreeStep::Create => 3,
        WorktreeStep::InitSubmodules => 2,
        WorktreeStep::CheckoutLfs => 1,
        WorktreeStep::Done => 0,
    }
}

/// Every end of a step brings the course closer to its end, and the whole is a success only
/// where no step failed it or left a warning.
pub proof fn creation_ends(c: CreationView, o: CommandOutcome)
    requires
        c.step != WorktreeStep::Done,
    ensures
        steps_left(creation_after(c, o).step) < steps_left(c.step),
        !o.ok() ==> !creation_result(creation_after(c, o)).0,
        creation_result(creation_after(c, o)).0 ==> creation_result(c).0,
{
}

/// A worktree is made in the steps that were asked for and no others: after it has been created
/// its submodules are initialised where that was asked for, then its large files are checked out
/// where that was asked for, and then it is done. Where creating it fails nothing more is tried.
pub proof fn a_creation_takes_the_steps_asked_for(c: CreationView, o: CommandOutcome)
    ensures
        c.step == WorktreeStep::Create && o.ok() && c.request.init_submodules ==> creation_after(
            c,
            o,
        ).step == WorktreeStep::InitSubmodules,
        c.step == WorktreeStep::Create && o.ok() && !c.request.init_submodules
            && c.request.checkout_lfs ==> creation_after(c, o).step == WorktreeStep::CheckoutLfs,
        c.step == WorktreeStep::InitSubmodules && c.request.checkout_lfs ==> creation_after(
            c,
            o,
        ).step == WorktreeStep::CheckoutLfs,
        !c.request.checkout_lfs && c.step == WorktreeStep::InitSubmodules ==> creation_after(
            c,
            o,
        ).step == WorktreeStep::Done,
        !c.request.checkout_lfs && !c.request.init_submodules ==> creation_after(c, o).step
            == WorktreeStep::Done || c.step == WorktreeStep::InitSubmodules,
        c.step == WorktreeStep::CheckoutLfs ==> creation_after(c, o).step == WorktreeStep::Done,
        c.step == WorktreeStep::Create && !o.ok() ==> creation_after(c, o).step
            == WorktreeStep::Done,
        creation_after(c, o).request == c.request,
{
}

/// A creation succeeds exactly where every step did: what git said of a failed creation is the
/// error, and what it said of a later step is told as a warning, after those told before, and
/// never undoes the worktree.
pub proof fn every_failed_step_is_told(c: CreationView, stderr: String)
    ensures
        ({
            let failed = CommandOutcome::Exited { success: false, stderr };
            let ok = CommandOutcome::Exited { success: true, stderr };
            let f = creation_after(c, failed);
            let s = creation_after(c, ok);
            &&& c.step == WorktreeStep::Create ==> f.failure == Some(stderr@) && creation_result(f)
                == (false, stderr@)
            &&& c.step == WorktreeStep::InitSubmodules ==> f.failure == c.failure && f.warnings
                == c.warnings.push("submodule init failed:\n"@ + stderr@)
            &&& c.step == WorktreeStep::CheckoutLfs ==> f.failure == c.failure && f.warnings
                == c.warnings.push("LFS checkout failed:\n"@ + stderr@)
            &&& s.failure == c.failure && s.warnings == c.warnings
        }),
        creation_result(c).0 <==> c.failure is None && c.warnings.len() == 0,
        c.failure is None && c.warnings.len() > 0 ==> creation_result(c).1
            == "Worktree created, but "@ + text::join(c.warnings, "; "@),
{
}

/// The commands of a creation are those for what was asked: the worktree is added at its path
/// from its source, on no branch exactly where that was asked for.
pub proof fn a_worktree_is_added_where_it_was_asked_for(request: WorktreeRequest)
    ensures
        ({
            let args = step_args(request, WorktreeStep::Create);
            &&& args[0] == "worktree"@ && args[1] == "add"@
            &&& args[args.len() - 2] == request.path@
            &&& args[args.len() - 1] == request.source@
            &&& request.detached ==> args.len() == 5 && args[2] == "--detach"@
            &&& !request.detached ==> args.len() == 4
        }),
{
}

/// What git said is kept: an operation that ran has its result and its errors, and one that could
/// not be run failed for the reason given. A stash goes by its number.
pub proof fn what_git_said_is_kept(success: bool, stderr: String, failed: Seq<char>, index: usize)
    ensures
        outcome_result(CommandOutcome::Exited { success, stderr }, failed) == (success, stderr@),
        outcome_result(CommandOutcome::NotRun(stderr), failed) == (false, failed + stderr@),
        stash_name(index) == "stash@{"@ + text::dec(index as nat) + "}"@,
{
}

} // verus!
