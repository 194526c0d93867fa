use whisper_git::app::lifecycle::{
    finish_open_repo_tab, open_repo_tab, poll_clone_dialog, poll_open_receiver, poll_repo_dialog,
    startup_tabs, CloneDialogAction, RepoDialogAction,
};
use whisper_git::app::messages::{ai_diff_read, show_remote_dialog};
use whisper_git::app::modal_events::{handle_overlay_events, MenuReport, OverlayOutcome};
use whisper_git::app::modal_state::{ActiveModal, Modals};
use whisper_git::app::polling::{poll_watcher_init, staging_context_path, WatcherSetup};
use whisper_git::app::reload::{reload_report, tell_reload, RepoStateSnapshot};
use whisper_git::app::remote_ops::ReceiverPoll;
use whisper_git::app::repo_state::{
    apply_repo_state_result, collect_real_ids, gather_repo_state, gather_status,
    repo_open_failed, worktrees_after_refresh, HandleFrom, MainReads, RepoReads, RepoStateResult,
    RepoView, StagingReads, WorktreeReads,
};
use whisper_git::app::settings::{open_token_dialog, tell_save, TokenConfig};
use whisper_git::app::toast::{ToastManager, ToastSeverity};
use whisper_git::git::status::{StatusEntry, StatusFlags};
use whisper_git::git::{BranchTip, CommitInfo, RepositoryState, WorkdirFacts, WorktreeInfo};
use whisper_git::git_async::{
    compute_repo_state, snapshot_at, HandleReads, RefreshReads, WorktreeHandle,
};
use whisper_git::oid::Oid;
use whisper_git::paths::same_path;
use whisper_git::text_map::TextMap;

fn id(n: u64) -> Oid {
    Oid { hi: n, mid: 0, lo: 0 }
}

fn commit(n: u64, stats: (usize, usize)) -> CommitInfo {
    CommitInfo {
        id: id(n),
        short_id: String::new(),
        summary: String::new(),
        body_excerpt: None,
        body_full: None,
        author: String::new(),
        author_email: String::new(),
        time: n as i64,
        parent_ids: vec![],
        insertions: stats.0,
        deletions: stats.1,
        is_synthetic: false,
        synthetic_wt_name: None,
        is_orphaned: false,
        orphan_source: None,
    }
}

fn branch(name: &str) -> BranchTip {
    BranchTip {
        name: name.to_string(),
        oid: id(2),
        is_remote: false,
        is_head: false,
        upstream: None,
    }
}

fn last(t: &ToastManager) -> (&str, ToastSeverity) {
    let x = t.toasts.last().unwrap();
    (x.text.as_str(), x.severity)
}

// What is read of a repository

fn reads() -> RepoReads {
    RepoReads {
        commits: Ok(vec![commit(2, (0, 0)), commit(1, (0, 0))]),
        branch_tips: Ok(vec![branch("main"), branch("other")]),
        tags: Err("no tags".to_string()),
        current_branch: Ok("main".to_string()),
        head_oid: Some(id(2)),
        worktrees: Ok(vec![]),
        worktree_facts: vec![],
        repo_head: Some(id(2)),
        workdir: Some(WorkdirFacts { dirty_count: 3, mtime: None, stats: (4, 5) }),
        remote_names: vec!["origin".to_string()],
        remote_urls: TextMap::new(),
        is_bare: false,
        submodules: Ok(vec![]),
        stashes: vec![],
        ahead_behind: TextMap::new(),
        ref_fingerprint: 7,
    }
}

fn staging() -> StagingReads {
    StagingReads {
        submodules: Err("none".to_string()),
        current_branch: Some("other".to_string()),
        head_oid: None,
        repo_state: RepositoryState::Clean,
        project_path: "/p/".to_string(),
    }
}

fn blank() -> RepoView {
    RepoView {
        commits: vec![],
        branch_tips: vec![],
        tags: vec![],
        current_branch: String::new(),
        head_oid: None,
        worktrees: vec![],
        remote_names: vec![],
        remote_urls: TextMap::new(),
        is_bare: false,
        submodules: vec![],
        stashes: vec![],
        ahead_behind: TextMap::new(),
        ref_fingerprint: 0,
        repo_path: String::new(),
        operation_state_label: None,
    }
}

#[test]
fn repositories_are_put_together_from_what_was_read() {
    let r = gather_repo_state(reads());
    assert_eq!(r.errors, vec!["Failed to load tags: no tags"]);
    assert!(r.tags.is_empty());
    assert_eq!(r.branch_tips.iter().map(|b| b.is_head).collect::<Vec<_>>(), vec![true, false]);
    assert_eq!(r.commits.len(), 3);
    let entry = r.commits.iter().find(|c| c.is_synthetic).unwrap();
    assert_eq!((entry.insertions, entry.deletions), (4, 5));
    assert_eq!(r.real_oids, vec![id(2), id(1)]);
    assert_eq!(collect_real_ids(&r.commits), vec![id(2), id(1)]);
    assert_eq!(r.ref_fingerprint, 7);
}

#[test]
fn a_refresh_keeps_statistics_and_marks_the_head_of_the_worktree() {
    let (mut view, mut t) = (blank(), ToastManager::new());
    view.commits = vec![commit(1, (8, 9)), commit(2, (0, 0))];
    let todo = apply_repo_state_result(gather_repo_state(reads()), staging(), &mut view, &mut t);
    assert_eq!(todo.unwrap(), vec![id(2), id(1)]);
    let one = view.commits.iter().find(|c| c.id == id(1)).unwrap();
    assert_eq!((one.insertions, one.deletions), (8, 9));
    assert_eq!(view.current_branch, "other");
    let heads: Vec<_> = view.branch_tips.iter().map(|b| b.is_head).collect();
    assert_eq!(heads, vec![false, true]);
    assert_eq!(view.head_oid, Some(id(2)));
    assert_eq!(view.repo_path, "/p");
    assert_eq!(view.operation_state_label, None);
    let told: Vec<_> = t.toasts.iter().map(|x| x.text.as_str()).collect();
    assert_eq!(told, vec!["Failed to load tags: no tags", "Failed to load submodules: none"]);
}

#[test]
fn a_failed_refresh_does_not_blank_the_graph() {
    let (mut view, mut t) = (blank(), ToastManager::new());
    view.commits = vec![commit(1, (8, 9))];
    view.current_branch = "main".to_string();
    assert!(apply_repo_state_result(repo_open_failed("gone"), staging(), &mut view, &mut t).is_none());
    assert_eq!(view.commits.len(), 1);
    assert_eq!(view.current_branch, "main");
    assert_eq!(t.toasts.len(), 1);
}

fn list(paths: &[&str]) -> Vec<String> {
    paths.iter().map(|p| p.to_string()).collect()
}

fn refresh_listing(paths: &[&str]) -> RepoStateResult {
    let mut result = gather_repo_state(reads());
    result.worktrees = paths
        .iter()
        .map(|p| WorktreeInfo {
            name: String::new(),
            path: p.to_string(),
            branch: String::new(),
            head_oid: None,
            is_dirty: None,
            dirty_file_count: None,
        })
        .collect();
    result
}

#[test]
fn listed_worktrees_stay_open_and_the_picked_one_is_staged_in() {
    let result = refresh_listing(&["/a", "/b", "/c", "/d"]);
    let after = worktrees_after_refresh(
        &result,
        &blank(),
        &list(&["/a/", "/old"]),
        &list(&["/a", "/b", "/b/", "/c"]),
        Some("/old".to_string()),
        Some("/b//".to_string()),
    );
    let kept: Vec<_> = after.handles.iter().map(|h| (h.path.as_str(), h.from)).collect();
    assert_eq!(
        kept,
        vec![
            ("/a/", HandleFrom::Cached(0)),
            ("/b", HandleFrom::Opened(1)),
            ("/c", HandleFrom::Opened(3)),
        ]
    );
    assert_eq!(after.selected.as_deref(), Some("/b//"));
    assert_eq!(after.staging, Some(1));
    let picked = |p: Option<&str>| {
        let (own, none) = (list(&["/a"]), list(&[]));
        let picked = p.map(|p| p.to_string());
        worktrees_after_refresh(&result, &blank(), &own, &none, Some("/a".to_string()), picked)
    };
    assert_eq!((picked(None).selected, picked(None).staging), (None, None));
    assert_eq!(picked(Some("/d")).staging, None);
    assert_eq!(picked(Some("/d")).selected.as_deref(), Some("/d"));
}

#[test]
fn a_refresh_that_is_passed_over_leaves_the_worktrees_as_they_are() {
    let mut view = blank();
    view.commits = vec![commit(1, (0, 0))];
    let after = worktrees_after_refresh(
        &repo_open_failed("gone"),
        &view,
        &list(&["/x", "/y"]),
        &list(&["/z"]),
        Some("/y/".to_string()),
        None,
    );
    let kept: Vec<_> = after.handles.iter().map(|h| (h.path.as_str(), h.from)).collect();
    assert_eq!(kept, vec![("/x", HandleFrom::Cached(0)), ("/y", HandleFrom::Cached(1))]);
    assert_eq!(after.selected.as_deref(), Some("/y/"));
    assert_eq!(after.staging, Some(1));
}

#[test]
fn paths_are_compared_as_the_standard_library_does() {
    let all = [
        "", "/", "//", ".", "./", "./.", "..", "a", "a/", "./a", "a/.", "/a", "/./a", "//a//", "/a/..",
        "a//b", "a/./b", "a/b", "a/../b", ".a", "a.", "/.", "a/b/./", "../a",
    ];
    for x in all {
        for y in all {
            let std = std::path::Path::new(x) == std::path::Path::new(y);
            assert_eq!(same_path(x, y), std, "{x:?} and {y:?}");
        }
    }
}

#[test]
fn a_full_refresh_takes_snapshots_of_what_could_be_opened() {
    let handle = |path: &str, branch: Option<&str>| WorktreeHandle {
        path: path.to_string(),
        reads: branch.map(|b| HandleReads {
            current_branch: Some(b.to_string()),
            head_oid: Some(id(2)),
            submodules: None,
        }),
    };
    let r = compute_repo_state(Ok(RefreshReads {
        commits: Ok(vec![commit(2, (0, 0)), commit(1, (0, 0))]),
        branch_tips: Err("x".to_string()),
        tags: Ok(vec![]),
        worktrees: Err("y".to_string()),
        handles: vec![
            handle("/main", Some("main")),
            handle("/gone", None),
            handle("/w", Some("topic")),
            handle("/main", Some("later")),
            handle("/main/", Some("again")),
            handle("/./w//", Some("other")),
        ],
        remote_names: vec!["origin".to_string()],
        remote_urls: TextMap::new(),
        is_bare: true,
        stashes: vec![],
        ahead_behind: TextMap::new(),
        ref_fingerprint: 3,
    }));
    assert_eq!(r.errors, vec!["Failed to load branches: x", "Failed to load worktrees: y"]);
    assert_eq!(r.real_oids, vec![id(2), id(1)]);
    assert_eq!(r.worktree_snapshots.len(), 2);
    assert_eq!(r.worktree_snapshots.get("/main").unwrap().current_branch, "main");
    assert!(r.worktree_snapshots.get("/w").unwrap().submodules.is_empty());
    assert_eq!(snapshot_at(&r.worktree_snapshots, "/main/").unwrap().current_branch, "main");
    assert_eq!(snapshot_at(&r.worktree_snapshots, "//w/.").unwrap().current_branch, "topic");
    assert!(snapshot_at(&r.worktree_snapshots, "/gone").is_none());
    assert!(snapshot_at(&r.worktree_snapshots, "main").is_none());
    assert!(r.is_bare && r.ref_fingerprint == 3 && r.branch_tips.is_empty());
    let r = compute_repo_state(Err("locked".to_string()));
    assert_eq!(r.errors, vec!["Failed to open repo: locked"]);
    assert!(r.commits.is_empty() && r.worktree_snapshots.is_empty());
}

fn changed(path: &str) -> StatusEntry {
    StatusEntry {
        path: Some(path.to_string()),
        flags: StatusFlags {
            index_new: false,
            index_modified: false,
            index_deleted: false,
            index_renamed: false,
            index_typechange: false,
            wt_new: false,
            wt_modified: true,
            wt_deleted: false,
            wt_renamed: false,
            wt_typechange: false,
            ignored: false,
            conflicted: false,
        },
    }
}

#[test]
fn statistics_are_taken_only_where_a_file_is_changed() {
    let main = |statuses: Option<Vec<StatusEntry>>| MainReads {
        statuses,
        head_oid: Some(id(1)),
        has_workdir: true,
        diff_stats: (1, 2),
        mtime: Some(5),
    };
    let r = gather_status(false, Some(main(Some(vec![changed("a")]))), None);
    assert_eq!(r.main_status.unwrap().unstaged.len(), 1);
    assert_eq!(r.main_diff_stats, Some((1, 2)));
    assert_eq!((r.head_oid, r.has_workdir, r.mtime), (Some(id(1)), true, Some(5)));
    assert!(r.staging_status.is_none());
    assert_eq!(r.staging_repo_state, RepositoryState::Clean);
    assert_eq!(gather_status(false, Some(main(Some(vec![]))), None).main_diff_stats, None);
    assert!(gather_status(false, Some(main(None)), None).main_status.is_none());
    let worktree = WorktreeReads {
        statuses: Some(vec![changed("b"), changed("c")]),
        state: RepositoryState::Rebase,
    };
    let r = gather_status(false, None, Some(worktree));
    assert!(r.main_status.is_none() && r.head_oid.is_none() && !r.has_workdir);
    assert_eq!(r.staging_status.unwrap().unstaged.len(), 2);
    assert_eq!(r.staging_repo_state, RepositoryState::Rebase);
    let r = gather_status(true, Some(main(Some(vec![changed("a")]))), None);
    assert_eq!(r.main_status.unwrap().total_files(), 0);
}

// Opening

#[test]
fn repositories_are_opened_one_at_a_time() {
    let (mut opening, mut t) = (false, ToastManager::new());
    assert!(open_repo_tab(&mut opening, &mut t));
    assert!(t.toasts.is_empty());
    assert!(!open_repo_tab(&mut opening, &mut t));
    assert_eq!(last(&t), ("A repo is already being opened", ToastSeverity::Info));
    assert!(poll_open_receiver(&mut opening, ReceiverPoll::Pending, &mut t).is_none());
    assert!(opening);
    let name = poll_open_receiver(&mut opening, ReceiverPoll::Ready(Ok("r".into())), &mut t);
    assert!(!opening);
    let mut tabs = startup_tabs(vec![Ok("a".into())]).unwrap();
    finish_open_repo_tab(&mut tabs, name.unwrap(), &mut t);
    assert_eq!((tabs.list.len(), tabs.active, tabs.list[1].id), (2, 1, 2));
    assert_eq!(last(&t), ("Opened r", ToastSeverity::Success));
    let mut opening = true;
    assert!(poll_open_receiver(&mut opening, ReceiverPoll::Ready(Err("no".into())), &mut t).is_none());
    assert_eq!(last(&t), ("Failed to open: no", ToastSeverity::Error));
    let mut opening = true;
    assert!(poll_open_receiver(&mut opening, ReceiverPoll::Disconnected, &mut t).is_none());
    assert_eq!(
        last(&t),
        ("Failed to open: background thread terminated", ToastSeverity::Error)
    );
}

#[test]
fn dialogs_say_what_to_open_and_to_clone() {
    let open = Some(RepoDialogAction::Open("/r".to_string()));
    assert_eq!(poll_repo_dialog(open).as_deref(), Some("/r"));
    assert!(poll_repo_dialog(Some(RepoDialogAction::Cancel)).is_none());
    let mut t = ToastManager::new();
    let clone = Some(CloneDialogAction::Clone("u".into(), "d".into(), false));
    assert_eq!(poll_clone_dialog(clone, false, &mut t).unwrap(), vec!["clone", "u", "d"]);
    assert_eq!(last(&t), ("Cloning into d...", ToastSeverity::Info));
    assert!(poll_clone_dialog(Some(CloneDialogAction::Cancel), false, &mut t).is_none());
    assert_eq!(t.toasts.len(), 1);
}

// Dialogs

#[test]
fn the_remote_dialog_starts_with_the_default_remote() {
    let mut m = Modals::new();
    let remotes = vec!["fork".to_string(), "origin".to_string()];
    let r = show_remote_dialog(
        &mut m,
        ActiveModal::Push,
        "main".to_string(),
        Some("fork".to_string()),
        remotes,
    );
    assert_eq!((r.branch.as_str(), r.remote.as_str(), r.remotes.len()), ("main", "fork", 2));
    assert_eq!(m.active, Some(ActiveModal::Push));
    assert!(m.dialogs.is_visible(ActiveModal::Push) && !m.dialogs.is_visible(ActiveModal::Pull));
    let r = show_remote_dialog(&mut m, ActiveModal::Pull, "main".to_string(), None, vec![]);
    assert_eq!(r.remote, "origin");
}

#[test]
fn toasts_and_menus_take_events_first() {
    let open = |s: Option<&str>| MenuReport::Open(s.map(|x| x.to_string()));
    assert!(matches!(handle_overlay_events(true, open(Some("a"))), OverlayOutcome::Consumed));
    assert!(matches!(
        handle_overlay_events(false, MenuReport::Closed),
        OverlayOutcome::NotConsumed
    ));
    assert!(matches!(handle_overlay_events(false, open(None)), OverlayOutcome::Consumed));
    assert!(matches!(
        handle_overlay_events(false, open(Some("a"))),
        OverlayOutcome::MenuAction(x) if x == "a"
    ));
}

#[test]
fn the_token_dialog_shows_where_tokens_are_set() {
    let mut m = Modals::new();
    let tokens = TokenConfig {
        github_token: Some(String::new()),
        gitlab_tokens: TextMap::from_pairs(vec![
            ("a.org".to_string(), "t".to_string()),
            ("b.org".to_string(), String::new()),
            ("c.org".to_string(), String::new()),
        ]),
    };
    let r = open_token_dialog(&tokens, false, &vec![false, true, false], &mut m);
    assert!(!r.github_has_token);
    let hosts: Vec<_> = r.gitlab_hosts.iter().map(|h| (h.0.as_str(), h.1)).collect();
    assert_eq!(hosts, vec![("a.org", true), ("b.org", true), ("c.org", false)]);
    assert_eq!(m.active, Some(ActiveModal::TokenManager));
    let mut t = ToastManager::new();
    tell_save(Ok(()), &mut t);
    assert!(t.toasts.is_empty());
    tell_save(Err("disk full".to_string()), &mut t);
    assert_eq!(last(&t), ("disk full", ToastSeverity::Error));
}

#[test]
fn staged_changes_are_handed_over_unless_there_are_none() {
    let mut t = ToastManager::new();
    assert_eq!(ai_diff_read(&mut t, Ok("+a\n".into()), "Writer").as_deref(), Some("+a\n"));
    assert_eq!(last(&t), ("Generating commit message via Writer...", ToastSeverity::Info));
    assert!(ai_diff_read(&mut t, Ok(" \n".into()), "Writer").is_none());
    assert_eq!(last(&t), ("Staged diff is empty", ToastSeverity::Info));
    assert!(ai_diff_read(&mut t, Err("x".into()), "Writer").is_none());
    assert_eq!(last(&t), ("Failed to read staged diff: x", ToastSeverity::Error));
}

// Watching and reloading

#[test]
fn the_watcher_is_used_once_it_is_there() {
    let mut t = ToastManager::new();
    assert_eq!(poll_watcher_init(ReceiverPoll::Pending, &mut t), WatcherSetup::Wait);
    assert_eq!(poll_watcher_init(ReceiverPoll::Ready(Ok(())), &mut t), WatcherSetup::Use);
    assert!(t.toasts.is_empty());
    let r = poll_watcher_init(ReceiverPoll::Ready(Err("limit".into())), &mut t);
    assert_eq!(r, WatcherSetup::Drop);
    assert_eq!(last(&t), ("Filesystem watcher failed: limit", ToastSeverity::Error));
    assert_eq!(poll_watcher_init(ReceiverPoll::Disconnected, &mut t), WatcherSetup::Drop);
    let at = |s: Option<(Option<&str>, &str)>| {
        let s = s.map(|(w, g)| (w.map(|x| x.to_string()), g.to_string()));
        staging_context_path(s, "/main".to_string())
    };
    assert_eq!(at(None), "/main");
    assert_eq!(at(Some((Some("/w"), "/g"))), "/w");
    assert_eq!(at(Some((None, "/g"))), "/g");
}

#[test]
fn reload_reports() {
    let snapshot = |commits: usize| RepoStateSnapshot {
        commits,
        head_oid: None,
        current_branch: "main".to_string(),
        branch_tips: 2,
        tags: 1,
        staged_count: 0,
        unstaged_count: 4,
        conflicted_count: 0,
    };
    let report = reload_report(
        12,
        &Some("r".to_string()),
        &vec!["commits: 1 -> 2".to_string()],
        &snapshot(1),
        &snapshot(2),
    );
    assert_eq!(
        report,
        "Reload report — unix 12\nRepo: r\nDeltas: 1\n\ncommits: 1 -> 2\n\n--- Before snapshot ---\n\
         Commits: 1 (non-synthetic)\nHEAD: None\nBranch: main\nBranch tips: 2\nTags: 1\n\
         Staged/Unstaged/Conflicted: 0/4/0\n\n--- After snapshot ---\nCommits: 2 (non-synthetic)\n\
         HEAD: None\nBranch: main\nBranch tips: 2\nTags: 1\nStaged/Unstaged/Conflicted: 0/4/0\n"
    );
    let mut t = ToastManager::new();
    tell_reload(&mut t, 0, "/f", Ok(()));
    assert_eq!(last(&t), ("Reload: no deltas — /f", ToastSeverity::Success));
    tell_reload(&mut t, 1, "/f", Ok(()));
    assert_eq!(last(&t), ("Reload: 1 delta — /f", ToastSeverity::Info));
    tell_reload(&mut t, 2, "/f", Ok(()));
    assert_eq!(last(&t), ("Reload: 2 deltas — /f", ToastSeverity::Info));
    tell_reload(&mut t, 2, "/f", Err("full".to_string()));
    assert_eq!(last(&t), ("Failed to write reload report: full", ToastSeverity::Error));
}
