use whisper_git::git::async_ops::{
    cherry_pick_async, clone_async, clone_result, create_worktree_async,
    create_worktree_detached_async, delete_remote_branch_async, fetch_all_async,
    fetch_remote_async, merge_branch_async, merge_ffonly_async, merge_noff_async,
    merge_squash_async, pull_rebase_async, pull_remote_async, push_force_async,
    push_force_refspec_async, push_refspec_async, push_remote_async, push_tags_only_async,
    push_with_options_async, rebase_with_options_async, remote_branch_deleted,
    remove_submodule_async, remove_worktree_async, remove_worktree_force_async,
    reset_submodule_async, revert_commit_async, run_git_async, stash_apply_async,
    stash_drop_async, stash_pop_async, stash_pop_index_async, stash_push_async,
    submodule_deinited, submodule_removed, update_submodule_async, CommandOutcome, GitCommand,
    SubmoduleStep, WorktreeCreation, WorktreeRequest,
};
use whisper_git::git::diff::{
    compute_intra_line_highlights, diff_chars, parse_diff, DiffEvent, DiffFile, DiffHunk, DiffLine,
};
use whisper_git::git::errors::classify_git_error;
use whisper_git::git::hunk::{
    build_hunk_patch, discard_hunk, hunk_result, new_file_mode, stage_hunk, unstage_hunk, FileMeta,
    HunkAction,
};
use whisper_git::git::orphans::{
    commit_graph_with_orphans, FoundCommit, OrphanSearch, ReflogEntry,
};
use whisper_git::git::status::{
    append_staged_gitlinks, check_dirty, stage_file, staged_gitlinks, status, unstage_file,
    DeltaKind, FileStatus, FileStatusKind, IndexAction, IndexDelta, StatusEntry, StatusFlags,
    WorkingDirStatus,
};
use whisper_git::git::{CommitInfo, RepositoryState, SubmoduleInfo};
use whisper_git::git_async::{
    check_worktree_dirty, compute_diff_hunks, compute_status_result, plan_dirty_checks, DiffKey,
    DiffReads, DirtyCheck, DirtyCheckResult, DirtyReads, StatusReads, WorktreeSnapshot,
};
use whisper_git::oid::Oid;

fn id(n: u64) -> Oid {
    Oid { hi: n, mid: 0, lo: 0 }
}

fn line(origin: char, content: &str) -> DiffLine {
    DiffLine {
        origin,
        content: content.to_string(),
        old_lineno: None,
        new_lineno: None,
        highlight_ranges: Vec::new(),
        no_newline: false,
    }
}

fn hunk(header: &str, lines: Vec<DiffLine>) -> DiffHunk {
    DiffHunk { header: header.to_string(), lines }
}

#[test]
fn patches_carry_the_marker_of_a_missing_newline() {
    let mut last = line('+', "two!");
    last.no_newline = true;
    let mut gone = line('-', "two");
    gone.no_newline = true;
    let h = hunk("@@ -1,2 +1,2 @@", vec![line(' ', "one\n"), gone, last]);
    assert_eq!(
        build_hunk_patch("a.txt", &h, None),
        "--- a/a.txt\n+++ b/a.txt\n@@ -1,2 +1,2 @@\n one\n-two\n\\ No newline at end of file\n+two!\n\\ No newline at end of file\n"
    );
}

#[test]
fn a_new_file_keeps_its_mode() {
    let h = hunk("@@ -0,0 +1,2 @@\n", vec![line('+', "#!/bin/sh\n"), line('+', "echo hi\n")]);
    let meta = FileMeta { is_symlink: false, is_executable: true };
    let p = stage_hunk("run.sh", "@@ -0,0 +1,2 @@\n", &vec![h], false, Some(meta), true).unwrap();
    assert_eq!(p.args, vec!["apply", "--cached", "--unidiff-zero", "-"]);
    assert_eq!(
        p.patch,
        "diff --git a/run.sh b/run.sh\nnew file mode 100755\n--- /dev/null\n+++ b/run.sh\n@@ -0,0 +1,2 @@\n+#!/bin/sh\n+echo hi\n"
    );
    assert_eq!(new_file_mode(None), "100644");
    assert_eq!(
        new_file_mode(Some(FileMeta { is_symlink: true, is_executable: true })),
        "120000"
    );
}

#[test]
fn stale_headers_are_refused() {
    let hunks = vec![hunk("@@ -2 +2 @@", vec![line('-', "two\n"), line('+', "two!\n")])];
    let stale = "@@ -99,1 +99,1 @@ stale";
    for r in [
        stage_hunk("a.txt", stale, &hunks, true, None, true),
        unstage_hunk("a.txt", stale, &hunks, true, None, true),
        discard_hunk("a.txt", stale, &hunks, true, None, true),
    ] {
        match r {
            Err(e) => assert_eq!(e, "The file changed since this diff was shown — try again"),
            Ok(_) => panic!("a stale header must not apply"),
        }
    }
    match discard_hunk("a.txt", "@@ -2 +2 @@", &hunks, true, None, false) {
        Err(e) => assert_eq!(e, "No working directory"),
        Ok(_) => panic!("nothing to apply to"),
    }
}

#[test]
fn hunk_commands_and_their_failures() {
    let hunks = vec![hunk("@@ h", vec![line('+', "x\n")])];
    let args = |r: Result<whisper_git::git::hunk::HunkPatch, String>| r.unwrap().args.join(" ");
    assert_eq!(
        args(unstage_hunk("f", "@@ h", &hunks, true, None, true)),
        "apply --cached --reverse --unidiff-zero -"
    );
    assert_eq!(
        args(discard_hunk("f", "@@ h", &hunks, true, None, true)),
        "apply --reverse --unidiff-zero -"
    );
    assert!(hunk_result(HunkAction::Stage, true, "noise").is_ok());
    assert_eq!(
        hunk_result(HunkAction::Stage, false, "bad").unwrap_err(),
        "Failed to stage hunk: bad"
    );
    assert_eq!(
        hunk_result(HunkAction::Unstage, false, "bad").unwrap_err(),
        "Failed to unstage hunk: bad"
    );
    assert_eq!(
        hunk_result(HunkAction::Discard, false, "bad").unwrap_err(),
        "Failed to discard hunk: bad"
    );
}

#[test]
fn highlights_cover_what_differs_between_two_lines() {
    assert_eq!(diff_chars("abc\n", "abd\n"), (vec![(2, 3)], vec![(2, 3)]));
    assert_eq!(diff_chars("same\n", "same\n"), (vec![], vec![]));
    let files = compute_intra_line_highlights(vec![DiffFile::from_hunks(
        "f".to_string(),
        vec![hunk(
            "@@",
            vec![line(' ', "x\n"), line('-', "one\n"), line('+', "one!\n"), line('+', "two\n")],
        )],
    )]);
    assert_eq!((files[0].additions, files[0].deletions), (2, 1));
    let l = &files[0].hunks[0].lines;
    assert!(l[0].highlight_ranges.is_empty());
    assert!(l[1].highlight_ranges.is_empty());
    assert_eq!(l[2].highlight_ranges, vec![(3, 4)]);
    assert!(l[3].highlight_ranges.is_empty());
}

fn event(path: &str, origin: char, header: Option<&str>, content: &str) -> DiffEvent {
    DiffEvent {
        path: path.to_string(),
        origin,
        hunk_header: header.map(|h| h.to_string()),
        content: content.to_string(),
        old_lineno: None,
        new_lineno: None,
    }
}

#[test]
fn diffs_are_put_together_from_their_lines() {
    let files = parse_diff(&vec![
        event("a", 'F', None, "diff\n"),
        event("a", 'H', Some("@@ 1 @@\n"), "@@ 1 @@\n"),
        event("a", '-', Some("@@ 1 @@\n"), "old\n"),
        event("a", '+', Some("@@ 1 @@\n"), "new\n"),
        event("b", '+', Some("@@ 2 @@\n"), "only\n"),
    ]);
    let paths: Vec<&str> = files.iter().map(|f| f.path.as_str()).collect();
    assert_eq!(paths, vec!["a", "b"]);
    assert_eq!((files[0].additions, files[0].deletions), (1, 1));
    assert_eq!((files[1].additions, files[1].deletions), (1, 0));
    assert_eq!(files[0].hunks.len(), 1);
    assert_eq!(files[0].hunks[0].lines.len(), 2);
}

#[test]
fn complaints_of_git_are_explained() {
    for (stderr, text, rejected) in [
        ("fatal: could not read Username for x", "Push failed: Authentication required. Configure SSH keys or a credential helper.", false),
        ("git@x: Permission denied (publickey).", "Push failed: Permission denied. Check your SSH key or access token.", false),
        ("could not read Password", "Push failed: Password required. Set up a credential helper (git config credential.helper cache).", false),
        ("Host key verification failed.", "Push failed: SSH host key not trusted. Run ssh-keyscan to add the host.", false),
        ("ERROR: Repository not found.", "Push failed: Repository not found. Check the remote URL.", false),
        ("Could not resolve host", "Push failed: Cannot connect to remote. Check your network and remote URL.", false),
        ("fatal: Not possible to fast-forward, aborting.", "Push failed: Cannot fast-forward — the branches have diverged. Pull with merge or rebase instead.", false),
        ("CONFLICT (content): Merge conflict in f", "Push stopped: Merge conflicts need to be resolved. Check the staging area for conflicted files.", false),
        ("f: needs merge", "Push failed: Unresolved merge in progress. Resolve conflicts and commit, or abort the merge first.", false),
        ("error: You have unstaged changes.", "Push aborted: You have uncommitted changes. Commit or stash them first.", false),
        ("! [rejected] main -> main (non-fast-forward)", "Push rejected: Remote has new commits. Pull first, or use Force Push.", true),
        ("", "Push failed: unknown error", false),
        ("From x\nfatal: odd\nTo y\nmore", "Push failed: fatal: odd\nmore", false),
        ("error: Your local changes to the following files would be overwritten by merge:\n\ta.txt\n\tb.txt\nPlease commit", "Push aborted: Local changes to a.txt, b.txt would be overwritten. Commit or stash first.", false),
        ("error: Your local changes to the following files would be overwritten by merge:", "Push aborted: Local changes would be overwritten. Commit or stash your changes first.", false),
    ] {
        assert_eq!(classify_git_error("Push", stderr), (text.to_string(), rejected));
    }
}

fn text(c: &GitCommand) -> String {
    c.args.join(" ")
}

#[test]
fn commands_carry_their_options() {
    assert_eq!(text(&fetch_all_async()), "fetch --all --prune");
    assert_eq!(
        text(&push_with_options_async("o", "b", true, true, true)),
        "push --force-with-lease --set-upstream --tags o b"
    );
    assert_eq!(text(&push_with_options_async("o", "b", false, false, false)), "push o b");
    assert_eq!(
        text(&rebase_with_options_async("main", true, true)),
        "rebase --autostash --rebase-merges main"
    );
    assert_eq!(text(&stash_drop_async(3)), "stash drop stash@{3}");
    assert_eq!(text(&cherry_pick_async("abc")), "cherry-pick abc");
    assert_eq!(text(&merge_noff_async("f", "msg")), "merge --no-ff -m msg f");
    assert_eq!(text(&clone_async("u", "d", true)), "clone --bare u d");
    assert_eq!(text(&delete_remote_branch_async("o", "b")), "push o --delete b");
}

#[test]
fn commands_and_the_names_they_go_by() {
    for (command, args, name) in [
        (fetch_remote_async("o"), "fetch --prune o", "fetch"),
        (push_remote_async("o", "b"), "push o b", "push"),
        (push_force_async("o", "b"), "push --force-with-lease o b", "push"),
        (push_refspec_async("o", "a:b"), "push o a:b", "push"),
        (push_force_refspec_async("o", "a:b"), "push --force-with-lease o a:b", "push"),
        (push_tags_only_async("o"), "push --tags o", "push --tags"),
        (pull_remote_async("o", "b"), "pull o b", "pull"),
        (pull_rebase_async("o", "b"), "pull --rebase o b", "pull --rebase"),
        (
            update_submodule_async("s"),
            "submodule update --init --recursive -- s",
            "submodule update",
        ),
        (
            reset_submodule_async("s"),
            "submodule update --init --recursive --force -- s",
            "submodule reset",
        ),
        (remove_submodule_async("s"), "submodule deinit -f s", "submodule deinit"),
        (create_worktree_async("/w", "b"), "worktree add /w b", "worktree add"),
        (
            create_worktree_detached_async("/w", "c"),
            "worktree add --detach /w c",
            "worktree add",
        ),
        (remove_worktree_async("/w"), "worktree remove /w", "worktree remove"),
        (
            remove_worktree_force_async("/w"),
            "worktree remove --force /w",
            "worktree remove --force",
        ),
        (merge_branch_async("b"), "merge b", "merge"),
        (merge_ffonly_async("b"), "merge --ff-only b", "merge --ff-only"),
        (merge_squash_async("b"), "merge --squash b", "merge --squash"),
        (stash_push_async(), "stash push", "stash push"),
        (stash_pop_async(), "stash pop", "stash pop"),
        (stash_apply_async(10), "stash apply stash@{10}", "stash apply"),
        (stash_pop_index_async(0), "stash pop stash@{0}", "stash pop"),
        (revert_commit_async("abc"), "revert --no-edit abc", "revert"),
    ] {
        assert_eq!(text(&command), args);
        assert_eq!(command.op_name, name);
    }
    assert!(submodule_removed(exited(true, "")).success);
    let r = submodule_removed(CommandOutcome::NotRun("gone".to_string()));
    assert_eq!(r.error, "Failed to run git rm: gone");
}

fn exited(success: bool, stderr: &str) -> CommandOutcome {
    CommandOutcome::Exited { success, stderr: stderr.to_string() }
}

#[test]
fn outcomes_become_results() {
    let r = run_git_async("fetch", exited(true, "noise"));
    assert!(r.success);
    let r = run_git_async("fetch", exited(false, "bad"));
    assert!(!r.success);
    assert_eq!(r.error, "bad");
    let r = run_git_async("fetch", CommandOutcome::NotRun("gone".to_string()));
    assert_eq!(r.error, "Failed to run git fetch: gone");
    assert_eq!(clone_result("d".to_string(), exited(true, "")).unwrap(), "d");
    assert_eq!(clone_result("d".to_string(), exited(false, " no \n")).unwrap_err(), "no");
    let (next, r) = remote_branch_deleted("o", "b", exited(true, ""));
    assert!(r.success);
    assert_eq!(text(&next.unwrap()), "branch -dr o/b");
    let (next, r) = remote_branch_deleted("o", "b", exited(false, "x"));
    assert!(next.is_none() && !r.success);
    match submodule_deinited("lib", exited(true, "")) {
        SubmoduleStep::Remove(c) => assert_eq!(text(&c), "rm -f lib"),
        SubmoduleStep::Done(_) => panic!("the directory is removed next"),
    }
    match submodule_deinited("lib", exited(false, "x")) {
        SubmoduleStep::Done(r) => assert_eq!(r.error, "x"),
        SubmoduleStep::Remove(_) => panic!("nothing is removed after a failure"),
    }
}

fn request(init_submodules: bool, checkout_lfs: bool) -> WorktreeRequest {
    WorktreeRequest {
        path: "/w".to_string(),
        source: "main".to_string(),
        detached: true,
        init_submodules,
        checkout_lfs,
    }
}

#[test]
fn worktrees_are_created_step_by_step() {
    let mut w = WorktreeCreation::start(request(true, true));
    let c = w.next().unwrap();
    assert_eq!((c.args.join(" ").as_str(), c.in_worktree), ("worktree add --detach /w main", false));
    w.tell(exited(true, ""));
    let c = w.next().unwrap();
    assert_eq!(
        (c.args.join(" ").as_str(), c.in_worktree),
        ("submodule update --init --recursive", true)
    );
    w.tell(exited(false, "s"));
    let c = w.next().unwrap();
    assert_eq!((c.args.join(" ").as_str(), c.in_worktree), ("lfs checkout", true));
    w.tell(CommandOutcome::NotRun("l".to_string()));
    assert!(w.next().is_none());
    let r = w.result();
    assert!(!r.success);
    assert_eq!(
        r.error,
        "Worktree created, but submodule init failed:\ns; failed to run git lfs checkout: l"
    );
}

#[test]
fn a_worktree_that_fails_ends_at_once() {
    let mut w = WorktreeCreation::start(request(true, true));
    w.tell(exited(false, "exists"));
    assert!(w.next().is_none());
    let r = w.result();
    assert!(!r.success);
    assert_eq!(r.error, "exists");
    let mut w = WorktreeCreation::start(request(false, false));
    w.tell(exited(true, ""));
    assert!(w.next().is_none());
    assert!(w.result().success);
}

fn commit(n: u64, parents: &[u64], time: i64) -> CommitInfo {
    CommitInfo {
        id: id(n),
        short_id: id(n).short_id(),
        summary: String::new(),
        body_excerpt: None,
        body_full: None,
        author: String::new(),
        author_email: String::new(),
        time,
        parent_ids: parents.iter().map(|p| id(*p)).collect(),
        insertions: 0,
        deletions: 0,
        is_synthetic: false,
        synthetic_wt_name: None,
        is_orphaned: false,
        orphan_source: None,
    }
}

#[test]
fn orphans_are_found_with_their_parents() {
    let entry = |index: usize, new: u64, old: u64| ReflogEntry {
        refname: "HEAD".to_string(),
        index,
        message: "reset".to_string(),
        id_new: id(new),
        id_old: id(old),
    };
    // 1 is shown; 5 was left by a reset; its parent 4 is an orphan too, 3 is reachable.
    let mut search = OrphanSearch::start(vec![id(1)], &vec![entry(0, 1, 5), entry(1, 5, 0)]);
    let mut asked = Vec::new();
    while let Some(oid) = search.next() {
        asked.push(oid);
        let found = match oid.hi {
            5 => Some((commit(5, &[4], 50), false)),
            4 => Some((commit(4, &[3], 40), false)),
            3 => Some((commit(3, &[], 30), true)),
            _ => None,
        };
        search.tell(found.map(|(info, reachable)| FoundCommit { info, reachable }));
    }
    assert_eq!(asked, vec![id(5), id(4), id(3)]);
    let orphans = search.finish(100);
    assert_eq!(orphans.len(), 2);
    assert_eq!(orphans[0].id, id(5));
    assert_eq!(orphans[0].orphan_source.as_deref(), Some("HEAD@{0}: reset"));
    assert_eq!(
        orphans[1].orphan_source,
        Some(format!("parent of {}", id(5).short_id()))
    );
    assert!(orphans.iter().all(|c| c.is_orphaned));
    let all = commit_graph_with_orphans(vec![commit(1, &[], 45)], orphans);
    let times: Vec<i64> = all.iter().map(|c| c.time).collect();
    assert_eq!(times, vec![50, 45, 40]);
}

fn no_flags() -> StatusFlags {
    StatusFlags {
        index_new: false,
        index_modified: false,
        index_deleted: false,
        index_renamed: false,
        index_typechange: false,
        wt_new: false,
        wt_modified: false,
        wt_deleted: false,
        wt_renamed: false,
        wt_typechange: false,
        ignored: false,
        conflicted: false,
    }
}

fn entry(path: &str, flags: StatusFlags) -> StatusEntry {
    StatusEntry { path: Some(path.to_string()), flags }
}

fn delta(kind: DeltaKind, path: &str) -> IndexDelta {
    IndexDelta {
        kind,
        old_is_gitlink: false,
        new_is_gitlink: true,
        new_path: Some(path.to_string()),
        old_path: None,
    }
}

#[test]
fn files_are_filed_by_what_happened_to_them() {
    let s = status(
        false,
        &vec![
            entry("both", StatusFlags { index_new: true, wt_modified: true, ..no_flags() }),
            entry("new", StatusFlags { wt_new: true, ..no_flags() }),
            entry("gone", StatusFlags { wt_deleted: true, ..no_flags() }),
            entry("clash", StatusFlags { conflicted: true, ..no_flags() }),
            entry("skip", StatusFlags { ignored: true, ..no_flags() }),
        ],
        &vec![],
    );
    let names = |l: &Vec<FileStatus>| l.iter().map(|f| f.path.clone()).collect::<Vec<_>>();
    assert_eq!(names(&s.staged), vec!["both"]);
    assert_eq!(s.staged[0].status, FileStatusKind::New);
    assert_eq!(names(&s.unstaged), vec!["both", "gone"]);
    assert_eq!(s.unstaged[1].status, FileStatusKind::Deleted);
    assert_eq!(names(&s.untracked), vec!["new"]);
    assert_eq!(names(&s.conflicted), vec!["clash"]);
    assert_eq!(s.total_files(), 5);
    assert_eq!(status(true, &vec![entry("x", StatusFlags { wt_new: true, ..no_flags() })], &vec![]).total_files(), 0);
}

#[test]
fn staged_submodule_pointers_are_listed_once_in_order() {
    let mut s = status(
        false,
        &vec![entry("z", StatusFlags { index_new: true, ..no_flags() })],
        &vec![],
    );
    let links = staged_gitlinks(&vec![
        delta(DeltaKind::Other, "sub"),
        delta(DeltaKind::Conflicted, "clash"),
        IndexDelta { new_is_gitlink: false, ..delta(DeltaKind::Added, "plain") },
    ]);
    assert_eq!(links.len(), 1);
    append_staged_gitlinks(&mut s, links);
    let names: Vec<&str> = s.staged.iter().map(|f| f.path.as_str()).collect();
    assert_eq!(names, vec!["sub", "z"]);
}

#[test]
fn index_actions() {
    assert_eq!(stage_file(false, true), Ok(IndexAction::AddPath));
    assert_eq!(stage_file(false, false), Ok(IndexAction::RemovePath));
    assert!(stage_file(true, true).is_err());
    let new = StatusFlags { index_new: true, ..no_flags() };
    assert_eq!(unstage_file(false, Some(new)), Ok(IndexAction::RemovePath));
    assert_eq!(unstage_file(false, None), Ok(IndexAction::ResetToHead));
    assert_eq!(
        unstage_file(true, None).unwrap_err(),
        "Cannot perform this operation on a bare repository"
    );
    let entries = vec![
        entry("a", StatusFlags { wt_new: true, ..no_flags() }),
        entry("b", StatusFlags { ignored: true, ..no_flags() }),
    ];
    assert_eq!(check_dirty(Some(&entries)), (true, 1));
    assert_eq!(check_dirty(None), (false, 0));
}

fn status_with(untracked: usize, conflicted: usize) -> WorkingDirStatus {
    let files = |n: usize, kind: FileStatusKind| {
        (0..n)
            .map(|i| FileStatus { path: format!("f{i}"), status: kind })
            .collect::<Vec<_>>()
    };
    WorkingDirStatus {
        staged: vec![],
        unstaged: vec![],
        untracked: files(untracked, FileStatusKind::New),
        conflicted: files(conflicted, FileStatusKind::Conflicted),
    }
}

#[test]
fn a_bare_reference_leaves_the_worktree_its_status() {
    let result = compute_status_result(
        Some(StatusReads {
            status: Some(status_with(0, 0)),
            workdir: None,
            state: RepositoryState::Clean,
            merge_message: None,
        }),
        Some(StatusReads {
            status: Some(status_with(1, 0)),
            workdir: Some("/work".to_string()),
            state: RepositoryState::Clean,
            merge_message: None,
        }),
    );
    assert_eq!(result.main_path, None);
    assert_eq!(result.main_status.map(|s| s.total_files()), Some(0));
    assert_eq!(result.staging_path.as_deref(), Some("/work"));
    assert_eq!(result.staging_status.map(|s| s.untracked.len()), Some(1));
}

#[test]
fn a_merge_in_progress_is_told_with_its_message() {
    let result = compute_status_result(
        None,
        Some(StatusReads {
            status: Some(status_with(0, 1)),
            workdir: Some("/work".to_string()),
            state: RepositoryState::Merge,
            merge_message: Some("Merge branch 'feature'\n".to_string()),
        }),
    );
    assert_eq!(result.staging_repo_state, RepositoryState::Merge);
    assert!(result.staging_merge_msg.unwrap().contains("feature"));
    assert_eq!(result.staging_status.map(|s| s.conflicted.len()), Some(1));
    assert!(result.main_status.is_none());
}

#[test]
fn diffs_are_fetched_for_their_key() {
    let key = |staged: bool, epoch: u64| DiffKey {
        worktree: "/w".to_string(),
        file: "f".to_string(),
        commit: None,
        staged,
        epoch,
    };
    assert!(key(true, 1).same_target(&key(true, 2)));
    assert!(!key(true, 1).same_target(&key(false, 1)));
    let at = |worktree: &str| DiffKey { worktree: worktree.to_string(), ..key(true, 1) };
    assert!(at("/wt/").same_target(&at("/wt")));
    assert!(at("/wt//a/.").same_target(&at("/wt/a")));
    assert!(!at("/wt/a").same_target(&at("/wt/b")));
    assert!(!at("wt").same_target(&at("/wt")));
    assert!(!at("./wt").same_target(&at("wt")));
    assert!(!at("/wt/../wt").same_target(&at("/wt")));
    assert!(compute_diff_hunks(DiffReads::NotOpened).is_empty());
    let hunks = compute_diff_hunks(DiffReads::Working(Some(vec![hunk("@@", vec![])])));
    assert_eq!(hunks[0].header, "@@");
}

#[test]
fn dirty_checks_are_planned_for_what_is_there() {
    let sub = |name: &str| SubmoduleInfo {
        name: name.to_string(),
        path: format!("libs/{name}"),
        branch: String::new(),
        is_dirty: None,
        head_oid: None,
        index_oid: None,
        workdir_oid: None,
    };
    let plan = plan_dirty_checks(
        &vec![sub("a"), sub("b")],
        &vec![true, false],
        &vec!["/w1".to_string(), "/w2".to_string()],
        &vec![false, true],
        true,
    );
    assert_eq!(plan.len(), 2);
    assert!(matches!(&plan[0], DirtyCheck::Submodule(name, _) if name == "a"));
    assert!(matches!(&plan[1], DirtyCheck::Worktree(p) if p == "/w2"));
    assert_eq!(check_worktree_dirty(None), (0, (0, 0)));
    let reads = DirtyReads {
        statuses: Some(vec![entry("a", StatusFlags { wt_new: true, ..no_flags() })]),
        deltas: vec![],
        stats: (3, 4),
    };
    assert_eq!(check_worktree_dirty(Some(reads)), (1, (3, 4)));
    let r = DirtyCheckResult::Submodule { tab_id: 7, name: String::new(), is_dirty: true };
    assert_eq!(r.tab_id(), 7);
    let snap = WorktreeSnapshot::capture(None, Some(id(1)), None);
    assert_eq!(snap.head_oid, Some(id(1)));
    assert!(snap.submodules.is_empty());
}
