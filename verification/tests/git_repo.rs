use std::collections::hash_map::DefaultHasher;
use std::hash::{Hash, Hasher};
use whisper_git::git::refs::{
    branch_ref, checkout_remote_branch, default_fetch_refspec, default_remote, delete_branch,
    discard_file, full_commit_info, has_lfs, head_commit_message, parse_gitmodules, stash_list,
    submodules_at_commit, uncommitted_change_count, DiscardAction, RemoteCheckout, TreePin,
};
use whisper_git::git::repo::{
    all_branches_ahead_behind, branch_tips, commit_graph, commit_position_in_walk, current_branch,
    diff_stats, ensure_not_bare, head_oid, is_effectively_bare, ref_fingerprint, repo_name,
    staged_diff_text, submodule_info, submodules, tag_info, tags, working_tree_diff_stats,
    worktree_info, worktrees, BranchDivergence, BranchFacts, FoundWorktree, HeadFacts, PatchLine,
    SubmoduleFacts, TagFacts, WorktreeHead,
};
use whisper_git::git::status::StatusFlags;
use whisper_git::git::{
    create_synthetic_entries, format_relative_time, insert_synthetics_sorted, newest_mtime_in_dir,
    repo_state_label, CommitInfo, CommitParts, DirEntryTimes, InnerTime, RepositoryState,
    WorkdirFacts, WorktreeFacts, WorktreeInfo,
};
use whisper_git::oid::Oid;

fn id(n: u64) -> Oid {
    Oid { hi: n, mid: 1, lo: 2 }
}

fn parts(n: u64, message: &str, time: i64) -> CommitParts {
    CommitParts {
        id: id(n),
        message: Some(message.to_string()),
        summary: Some(message.lines().next().unwrap_or("").to_string()),
        author_name: Some("Ada".to_string()),
        author_email: Some("ada@example.com".to_string()),
        time,
        parent_ids: vec![id(n + 1)],
    }
}

fn worktree(name: &str, head: Option<Oid>, count: usize) -> WorktreeInfo {
    WorktreeInfo {
        name: name.to_string(),
        path: format!("/work/{name}"),
        branch: "main".to_string(),
        head_oid: head,
        is_dirty: Some(count > 0),
        dirty_file_count: Some(count),
    }
}

#[test]
fn relative_times() {
    for (age, text) in [
        (-5, "just now"),
        (59, "just now"),
        (60, "1m"),
        (3599, "59m"),
        (3600, "1h"),
        (86400, "1d"),
        (604800, "1w"),
        (2592000, "1mo"),
        (31536000, "1y"),
        (10 * 31536000 + 5, "10y"),
    ] {
        assert_eq!(format_relative_time(1_000_000_000 - age, 1_000_000_000), text);
    }
}

#[test]
fn states_have_labels() {
    assert_eq!(repo_state_label(RepositoryState::Clean), None);
    assert_eq!(repo_state_label(RepositoryState::Merge), Some("MERGE IN PROGRESS"));
    assert_eq!(
        repo_state_label(RepositoryState::ApplyMailboxOrRebase),
        Some("APPLY MAILBOX/REBASE IN PROGRESS")
    );
}

#[test]
fn newest_modification_leaves_out_what_git_keeps() {
    let below = |name: &str, modified: Option<i64>| InnerTime {
        name: name.to_string(),
        is_dir: name == ".git",
        modified,
    };
    let entry = |name: &str, modified: Option<i64>, inner: Vec<InnerTime>| DirEntryTimes {
        name: name.to_string(),
        modified,
        inner,
    };
    assert_eq!(newest_mtime_in_dir(&vec![]), None);
    let git = entry(".git", Some(99), vec![below("index", Some(100))]);
    assert_eq!(newest_mtime_in_dir(&vec![git]), None);
    assert_eq!(
        newest_mtime_in_dir(&vec![
            entry("a", Some(5), vec![]),
            entry(".git", Some(99), vec![]),
            entry(
                "src",
                None,
                vec![
                    below("x", None),
                    below("y", Some(-3)),
                    below("z", Some(8)),
                    below(".git", Some(50)),
                ],
            ),
            entry("b", Some(7), vec![]),
        ]),
        Some(8)
    );
    let linked = InnerTime { name: ".git".to_string(), is_dir: false, modified: Some(50) };
    assert_eq!(newest_mtime_in_dir(&vec![entry("sub", Some(1), vec![linked])]), Some(50));
}

#[test]
fn commits_are_read_from_their_parts() {
    let c = CommitInfo::from_commit(parts(7, "Subject\n\nFirst line.\nSecond line.\n", 42));
    assert_eq!(c.summary, "Subject");
    assert_eq!(c.author, "Ada");
    assert_eq!(c.short_id, id(7).short_id());
    assert_eq!(c.body_excerpt.as_deref(), Some("First line."));
    assert!(c.body_full.unwrap().contains("Second line."));
    assert_eq!(c.time, 42);
    assert!(!c.is_synthetic && !c.is_orphaned);
    let c = CommitInfo::from_commit(parts(7, "Subject", 42));
    assert_eq!(c.body_excerpt, None);
}

#[test]
fn dirty_worktrees_get_entries_of_their_own() {
    let commits = vec![CommitInfo::from_commit(parts(1, "one", 100))];
    let worktrees = vec![worktree("a", Some(id(1)), 2), worktree("b", Some(id(1)), 1),
        worktree("clean", Some(id(1)), 0), worktree("unborn", None, 3)];
    let facts = vec![
        WorktreeFacts { mtime: Some(150), stats: Some((3, 4)) },
        WorktreeFacts { mtime: Some(50), stats: None },
        WorktreeFacts { mtime: None, stats: None },
        WorktreeFacts { mtime: None, stats: None },
    ];
    let made = create_synthetic_entries(Some(id(1)), None, &worktrees, &facts, &commits);
    assert_eq!(made.len(), 2);
    assert!(made.iter().all(|c| c.is_synthetic && c.parent_ids == vec![id(1)]));
    let a = made.iter().find(|c| c.synthetic_wt_name.as_deref() == Some("a")).unwrap();
    assert_eq!((a.time, a.insertions, a.deletions), (150, 3, 4));
    let b = made.iter().find(|c| c.synthetic_wt_name.as_deref() == Some("b")).unwrap();
    assert_eq!(b.time, 100);
    assert_ne!(a.id, b.id);
}

#[test]
fn entries_are_told_apart_by_the_hash_of_the_name() {
    let c = CommitInfo::synthetic_for_worktree(&worktree("wt", Some(id(1)), 2), 5, None).unwrap();
    let mut h = DefaultHasher::new();
    "wt".hash(&mut h);
    let bytes = c.id.to_bytes();
    assert!(bytes.windows(8).any(|w| w == h.finish().to_le_bytes()));
    assert!(CommitInfo::synthetic_for_worktree(&worktree("wt", None, 2), 5, None).is_none());
}

#[test]
fn the_only_working_directory_gets_one_entry() {
    let commits = vec![CommitInfo::from_commit(parts(1, "one", 100))];
    let workdir = WorkdirFacts { dirty_count: 1, mtime: Some(120), stats: (1, 0) };
    let made = create_synthetic_entries(Some(id(1)), Some(workdir), &vec![], &vec![], &commits);
    assert_eq!(made.len(), 1);
    assert_eq!(made[0].summary, "Uncommitted changes: 1 file");
    assert_eq!(made[0].time, 120);
    let c = CommitInfo::synthetic_for_working_dir(id(1), 3, 100, None);
    assert_eq!(c.summary, "Uncommitted changes: 3 files");
    assert_eq!(c.time, 100);
}

#[test]
fn synthetic_entries_go_where_their_time_is() {
    let mut commits = vec![
        CommitInfo::from_commit(parts(3, "c", 300)),
        CommitInfo::from_commit(parts(2, "b", 200)),
        CommitInfo::from_commit(parts(1, "a", 100)),
    ];
    let s = CommitInfo::synthetic_for_working_dir(id(2), 1, 250, None);
    insert_synthetics_sorted(&mut commits, vec![s]);
    let times: Vec<i64> = commits.iter().map(|c| c.time).collect();
    assert_eq!(times, vec![300, 250, 200, 100]);
}

#[test]
fn bareness() {
    assert!(is_effectively_bare(true, Some(true)));
    assert!(is_effectively_bare(false, None));
    assert!(is_effectively_bare(false, Some(false)));
    assert!(!is_effectively_bare(false, Some(true)));
    assert!(ensure_not_bare(false).is_ok());
    assert_eq!(
        ensure_not_bare(true).unwrap_err(),
        "Cannot perform this operation on a bare repository"
    );
    assert_eq!(uncommitted_change_count(true, Some(4)), 0);
    assert_eq!(uncommitted_change_count(false, Some(4)), 4);
    assert_eq!(uncommitted_change_count(false, None), 0);
}

#[test]
fn names_of_repositories_and_branches() {
    let some = |s: &str| Some(s.to_string());
    assert_eq!(repo_name(&vec![some(".bare"), some("x.git"), None, some("proj")]), "proj");
    assert_eq!(repo_name(&vec![some(".git")]), "unknown");
    assert_eq!(current_branch(&HeadFacts::OnBranch(some("main")), &vec![]), "main");
    assert_eq!(current_branch(&HeadFacts::OnBranch(None), &vec![]), "HEAD");
    assert_eq!(current_branch(&HeadFacts::Detached(Some(id(9))), &vec![]), id(9).short_id());
    assert_eq!(current_branch(&HeadFacts::Missing, &vec![None, some("dev")]), "dev");
    assert_eq!(current_branch(&HeadFacts::Missing, &vec![]), "HEAD");
    assert_eq!(head_oid(Some(id(1)), &vec![Some(id(2))]), Ok(id(1)));
    assert_eq!(head_oid(None, &vec![None, Some(id(2))]), Ok(id(2)));
    assert_eq!(head_oid(None, &vec![]).unwrap_err(), "No HEAD or branch tips found");
}

#[test]
fn branches_with_what_they_track() {
    let tips = branch_tips(
        Some(id(1)),
        &vec![
            BranchFacts {
                name: Some("main".to_string()),
                oid: Some(id(1)),
                is_remote: false,
                upstream: Some("origin/main".to_string()),
            },
            BranchFacts {
                name: Some("origin/main".to_string()),
                oid: Some(id(1)),
                is_remote: true,
                upstream: None,
            },
            BranchFacts { name: None, oid: Some(id(3)), is_remote: false, upstream: None },
            BranchFacts {
                name: Some("unborn".to_string()),
                oid: None,
                is_remote: false,
                upstream: None,
            },
        ],
    );
    assert_eq!(tips.len(), 3);
    assert_eq!(tips[0].name, "main");
    assert!(tips[0].is_head && !tips[0].is_remote);
    assert_eq!(tips[0].upstream.as_deref(), Some("origin/main"));
    assert!(tips[1].is_head && tips[1].is_remote);
    assert!(!tips[2].is_head && tips[2].name.is_empty());
    let map = all_branches_ahead_behind(&vec![
        BranchDivergence { name: Some("a".to_string()), counts: Some((2, 1)) },
        BranchDivergence { name: Some("b".to_string()), counts: None },
        BranchDivergence { name: Some("c".to_string()), counts: Some((0, 0)) },
    ]);
    assert_eq!(map.get("a"), Some(&(2, 1)));
    assert_eq!(map.get("b"), None);
    assert_eq!(map.get("c"), Some(&(0, 0)));
    assert_eq!(tag_info("refs/tags/v1", id(4)).name, "v1");
    let tag = |commit: Option<Oid>| TagFacts { name: "v2".to_string(), oid: id(5), commit };
    let list = tags(&vec![tag(None), tag(Some(id(6)))]);
    assert_eq!((list[0].oid, list[1].oid), (id(5), id(6)));
}

#[test]
fn submodules_and_worktrees_are_described() {
    let facts = || SubmoduleFacts {
        name: None,
        path: "lib".to_string(),
        branch: None,
        head_oid: None,
        index_oid: Some(id(1)),
        workdir_oid: None,
    };
    let s = submodule_info(facts());
    assert_eq!((s.name.as_str(), s.branch.as_str(), s.is_dirty), ("unknown", "unknown", None));
    assert_eq!(submodules(true, Some(vec![facts(), facts()])).unwrap().len(), 2);
    assert!(submodules(false, Some(vec![facts()])).unwrap().is_empty());
    assert_eq!(submodules(true, None).unwrap_err(), "Failed to get submodules");
    let found = |head: Option<WorktreeHead>| FoundWorktree {
        name: "w".to_string(),
        path: "/w".to_string(),
        head,
    };
    let w = worktree_info(found(Some(WorktreeHead { shorthand: None, target: Some(id(1)) })));
    assert_eq!((w.branch.as_str(), w.head_oid), ("detached", Some(id(1))));
    assert_eq!(worktree_info(found(None)).branch, "unknown");
    assert_eq!(worktrees(Some(vec![None, Some(found(None))])).unwrap().len(), 1);
    assert_eq!(worktrees(None).unwrap_err(), "Failed to get worktrees");
}

#[test]
fn walks_and_statistics() {
    let walk = vec![Some(id(1)), None, Some(id(2))];
    assert_eq!(commit_position_in_walk(&walk, id(2), 10), Some(2));
    assert_eq!(commit_position_in_walk(&walk, id(2), 2), None);
    assert_eq!(commit_position_in_walk(&walk, id(5), 10), None);
    assert_eq!(diff_stats(Some((1, 2)), Some((3, 4))), (4, 6));
    assert_eq!(diff_stats(None, Some((3, 4))), (3, 4));
    assert_eq!(working_tree_diff_stats(true, Some((1, 2)), None), (0, 0));
    assert_eq!(working_tree_diff_stats(false, Some((1, 2)), None), (1, 2));
    let walk = vec![Some(parts(1, "a", 1)), None, Some(parts(2, "b", 2))];
    let graph = commit_graph(walk, 2);
    assert_eq!(graph.len(), 1);
    assert_eq!(graph[0].id, id(1));
}

#[test]
fn staged_text_is_cut_and_marked() {
    let line = |origin: char, content: &str| PatchLine {
        origin,
        content: Some(content.to_string()),
    };
    let lines = vec![line('F', "diff --git\n"), line('+', "new\n"), line('-', "old\n")];
    assert_eq!(staged_diff_text(&lines, 100), "diff --git\n+new\n-old\n");
    assert_eq!(staged_diff_text(&lines, 12), "diff --git\n+\n... [diff truncated]");
}

#[test]
fn fingerprints_do_not_depend_on_the_order_of_branches() {
    let a = ref_fingerprint(Some(id(1)), vec![id(2), id(3)]);
    assert_eq!(a, ref_fingerprint(Some(id(1)), vec![id(3), id(2)]));
    assert_ne!(a, ref_fingerprint(Some(id(2)), vec![id(2), id(3)]));
    assert_ne!(a, ref_fingerprint(None, vec![id(2), id(3)]));
    let mut h = DefaultHasher::new();
    for i in [id(1), id(2), id(3)] {
        i.to_bytes().as_slice().hash(&mut h);
    }
    assert_eq!(a, h.finish());
}

#[test]
fn default_remote_prefers_upstream_then_origin() {
    let remotes = vec![Some("fork".to_string()), Some("origin".to_string())];
    assert_eq!(default_remote(Some("up/main"), true, &remotes).unwrap(), "up");
    assert_eq!(default_remote(None, true, &remotes).unwrap(), "origin");
    assert_eq!(default_remote(None, false, &remotes).unwrap(), "fork");
    assert_eq!(default_remote(None, false, &vec![]).unwrap_err(), "No remotes configured");
    assert_eq!(branch_ref("x"), "refs/heads/x");
    assert_eq!(default_fetch_refspec("up"), "+refs/heads/*:refs/remotes/up/*");
}

#[test]
fn branches_are_deleted_and_checked_out() {
    assert!(delete_branch("a", Some("b"), Some(false)).is_ok());
    for (current, found) in [(Some("a"), Some(false)), (Some("b"), Some(true))] {
        assert_eq!(
            delete_branch("a", current, found).unwrap_err(),
            "Cannot delete the currently checked-out branch"
        );
    }
    assert_eq!(delete_branch("a", None, None).unwrap_err(), "Branch 'a' not found");
    assert!(matches!(
        checkout_remote_branch("origin", "x", true),
        RemoteCheckout::ExistingBranch
    ));
    match checkout_remote_branch("origin", "x", false) {
        RemoteCheckout::TrackingBranch(name) => assert_eq!(name, "origin/x"),
        _ => panic!("a new branch tracks the remote one"),
    }
}

#[test]
fn lfs_is_found_in_attributes() {
    assert!(has_lfs(Some("*.bin filter=lfs"), None));
    assert!(has_lfs(Some("* text"), Some("*.bin filter=lfs")));
    assert!(!has_lfs(Some("* text"), Some("* text")));
    assert!(!has_lfs(None, None));
}

#[test]
fn stashes_are_read_line_by_line() {
    let list = stash_list("stash@{0}\0WIP on main\01700000000\nbroken\nstash@{2}\0x\0y\n");
    assert_eq!(list.len(), 2);
    assert_eq!((list[0].index, list[0].message.as_str(), list[0].time), (0, "WIP on main", 1700000000));
    assert_eq!((list[1].index, list[1].message.as_str(), list[1].time), (2, "x", 0));
}

#[test]
fn messages_are_split_at_the_first_line() {
    assert_eq!(
        head_commit_message(" Subject \n\nBody\n"),
        ("Subject".to_string(), "Body".to_string())
    );
    assert_eq!(head_commit_message("One"), ("One".to_string(), String::new()));
}

fn flags(wt_new: bool) -> StatusFlags {
    StatusFlags {
        index_new: false,
        index_modified: false,
        index_deleted: false,
        index_renamed: false,
        index_typechange: false,
        wt_new,
        wt_modified: !wt_new,
        wt_deleted: false,
        wt_renamed: false,
        wt_typechange: false,
        ignored: false,
        conflicted: false,
    }
}

#[test]
fn discarding_removes_new_files_and_restores_others() {
    assert_eq!(discard_file(Some(flags(true)), Some(true)), DiscardAction::RemoveDirectory);
    assert_eq!(discard_file(Some(flags(true)), Some(false)), DiscardAction::RemoveFile);
    assert_eq!(discard_file(Some(flags(true)), None), DiscardAction::Nothing);
    assert_eq!(discard_file(Some(flags(false)), Some(false)), DiscardAction::CheckoutIndex);
    assert_eq!(discard_file(None, None), DiscardAction::CheckoutIndex);
}

#[test]
fn full_information_fills_gaps() {
    let mut p = parts(1, "m", 9);
    p.author_name = None;
    p.author_email = None;
    let info = full_commit_info(p);
    assert_eq!(info.author_name, "Unknown");
    assert_eq!(info.author_email, "");
    assert_eq!(info.parent_short_ids, vec![id(2).short_id()]);
    assert_eq!(info.relative_author_time(9 + 120), "2m");
}

#[test]
fn modules_file_maps_paths_to_names() {
    let m = parse_gitmodules("[submodule \"nested-lib\"]\n\tpath = libs/nested\n\turl = ../nested-lib\n");
    assert_eq!(m.len(), 1);
    assert_eq!(m.get("libs/nested").unwrap(), "nested-lib");
    assert!(parse_gitmodules("").is_empty());
}

#[test]
fn nested_pins_are_named_and_changed_ones_come_first() {
    let pin = |root: &str, name: &str, n: u64| TreePin {
        root: root.to_string(),
        name: name.to_string(),
        oid: id(n),
    };
    let entries = submodules_at_commit(
        &vec![pin("", "aaa", 1), pin("libs/", "nested", 2)],
        &vec![pin("", "aaa", 1)],
        "[submodule \"nested-lib\"]\n\tpath = libs/nested\n",
    );
    assert_eq!(entries.len(), 2);
    assert_eq!(entries[0].name, "nested-lib");
    assert_eq!(entries[0].path, "libs/nested");
    assert!(entries[0].changed && entries[0].parent_oid.is_none());
    assert_eq!(entries[1].name, "aaa");
    assert!(!entries[1].changed);
    assert_eq!(entries[1].parent_oid, Some(id(1)));
}
