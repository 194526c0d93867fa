use whisper_git::ci::{CiCheckStatus, CiCommitRollup, CiCounts, CiProvider, CiState, ProviderCommitRollup};
use whisper_git::commit_details::{
    commit_details_pane, split_message, CommitDetail, DetailsPane, PinText,
};
use whisper_git::commit_graph::{CommitLayout, Paint};
use whisper_git::diff_view::{diff_view, DiffInput, DiffLineKind, DiffPane};
use whisper_git::git::diff::{DiffFile, DiffHunk, DiffLine};
use whisper_git::git::{BranchTip, CommitInfo, CommitSubmoduleEntry, FullCommitInfo, TagInfo};
use whisper_git::git_async::DiffKey;
use whisper_git::history::{
    author_avatar, author_color, author_initial, build_row, build_row_pills, ci_dot,
    diff_stats_chip, history_view, paint_tint, BranchKind, HistoryInput, HistoryPane, HistoryRow,
    Tint, WorktreeSummary, IDENTICON_COLOR_COUNT,
};
use whisper_git::oid::Oid;
use whisper_git::row_paths::{build_row_paths, row_kinds, Height, RowKind, RowPath};

fn id(n: u64) -> Oid {
    Oid { hi: n << 40, mid: 0, lo: 0 }
}

fn commit(n: u64, summary: &str, author: &str) -> CommitInfo {
    CommitInfo {
        id: id(n),
        short_id: id(n).short_id(),
        summary: summary.to_string(),
        body_excerpt: None,
        body_full: None,
        author: author.to_string(),
        author_email: String::new(),
        time: 1000,
        parent_ids: vec![],
        insertions: 0,
        deletions: 0,
        is_synthetic: false,
        synthetic_wt_name: None,
        is_orphaned: false,
        orphan_source: None,
    }
}

fn tip(name: &str, n: u64, is_remote: bool, is_head: bool) -> BranchTip {
    BranchTip { name: name.to_string(), oid: id(n), is_remote, is_head, upstream: None }
}

#[test]
fn authors_without_a_picture_get_a_letter() {
    assert_eq!(author_initial("ada"), "A");
    assert_eq!(author_initial("ß"), "SS");
    assert_eq!(author_initial(""), "?");
    assert!(author_color("ada") < IDENTICON_COLOR_COUNT);
    let a = author_avatar("ada", "k".to_string());
    assert_eq!((a.initial.as_str(), a.tooltip.as_str(), a.key.as_str()), ("A", "ada", "k"));
    assert_eq!(a.color, author_color("ada"));
}

#[test]
fn dots_tell_the_checks() {
    let check = |label: &str, state: CiState| CiCheckStatus {
        label: label.to_string(),
        state,
        url: None,
    };
    let r = ProviderCommitRollup {
        provider: CiProvider::GitHub,
        rollup: CiCommitRollup {
            counts: CiCounts { success: 1, failure: 0, pending: 1 },
            checks: vec![check("build", CiState::Success), check("lint", CiState::Pending)],
        },
    };
    let d = ci_dot(&r, "k".to_string());
    assert_eq!(d.tint, Tint::Warning);
    assert_eq!(d.tooltip, "GH: \u{2713} build, \u{22ef} lint");
    let r = ProviderCommitRollup {
        provider: CiProvider::GitLab,
        rollup: CiCommitRollup::default(),
    };
    assert_eq!(ci_dot(&r, String::new()).tooltip, "GL: no checks");
}

#[test]
fn chips_count_lines() {
    assert!(diff_stats_chip(0, 0, String::new()).is_none());
    let c = diff_stats_chip(1, 2, "k".to_string()).unwrap();
    assert_eq!((c.insertions.as_str(), c.deletions.as_str()), ("+1", "-2"));
    assert_eq!(c.tooltip, "1 insertion, 2 deletions");
    assert_eq!(paint_tint(Paint::Orphan), Tint::Muted);
}

#[test]
fn rows_carry_branches_tags_and_clean_worktrees() {
    let commits = vec![commit(1, "one", "Ada"), commit(2, "two", "Eve")];
    let pills = build_row_pills(
        &commits,
        &vec![tip("main", 1, false, true), tip("origin/main", 1, true, false), tip("dev", 2, false, false)],
        &vec![TagInfo { name: "v1".to_string(), oid: id(2) }],
        &vec![
            WorktreeSummary { name: "wt".to_string(), head_oid: Some(id(1)), dirty_files: 0 },
            WorktreeSummary { name: "dirty".to_string(), head_oid: Some(id(1)), dirty_files: 2 },
        ],
    );
    assert_eq!(pills.len(), 2);
    assert_eq!(pills[0].branches[0], ("main".to_string(), BranchKind::Head));
    assert!(pills[0].branches.contains(&("origin/main".to_string(), BranchKind::Remote)));
    assert_eq!(pills[0].clean_worktrees, vec!["wt"]);
    assert_eq!(pills[1].branches, vec![("dev".to_string(), BranchKind::Local)]);
    assert_eq!(pills[1].tags, vec!["v1"]);
    let layout = CommitLayout { lane: 2, color: Paint::Lane(2) };
    let mut c = commit(2, "", "Eve");
    c.insertions = 4;
    let row = build_row(&c, Some(&layout), &pills[1], None, false, true, 3, false, 1060, "abs");
    match row {
        HistoryRow::Commit(r) => {
            assert_eq!(r.lane, 2);
            assert_eq!(r.summary.text, "(no summary)");
            assert_eq!(r.time.text, "1m");
            assert_eq!(r.time.tooltip, "abs");
            assert_eq!(r.diff.unwrap().insertions, "+4");
            assert_eq!(r.pills[0].label, "PINNED");
            let labels: Vec<&str> = r.pills.iter().map(|p| p.label.as_str()).collect();
            assert_eq!(labels, vec!["PINNED", "dev", "\u{25c6} v1"]);
            assert!(r.striped && !r.selected);
        }
        HistoryRow::Synthetic(_) => panic!("a commit has a commit's row"),
    }
}

#[test]
fn changes_have_a_row_of_their_own() {
    let mut c = commit(9, "2 files", "");
    c.is_synthetic = true;
    c.synthetic_wt_name = Some("wt".to_string());
    let pills = build_row_pills(&vec![], &vec![], &vec![], &vec![]);
    assert!(pills.is_empty());
    let none = whisper_git::history::RowPills {
        branches: vec![],
        tags: vec![],
        clean_worktrees: vec![],
    };
    match build_row(&c, None, &none, None, false, false, 0, true, 1000, "") {
        HistoryRow::Synthetic(r) => {
            assert!(r.selected);
            assert!(r.summary.contains("2 files"));
        }
        HistoryRow::Commit(_) => panic!("changes are no commit"),
    }
}

fn input(commits: Vec<CommitInfo>, query: &str) -> HistoryInput {
    HistoryInput {
        commits,
        branch_tips: vec![],
        tags: vec![],
        worktrees: vec![],
        selected_commit: None,
        search_query: query.to_string(),
        search_open: !query.is_empty(),
        active_head: None,
        pinned_oid: None,
    }
}

#[test]
fn the_header_counts_matches() {
    match history_view(&input(vec![], "")) {
        HistoryPane::Empty(title, hint) => {
            assert_eq!(title, "No commits");
            assert_eq!(hint, "This repo has no reachable commits — make one and refresh.");
        }
        HistoryPane::List(..) => panic!("nothing to list"),
    }
    let list = || vec![commit(1, "Fix parser", "Ada"), commit(2, "Docs", "Eve")];
    match history_view(&input(list(), "")) {
        HistoryPane::List(header, search, rows) => {
            assert!(search.is_none());
            assert_eq!(header, "2 commits");
            assert!(rows.iter().all(|r| r.matches && !r.has_band));
        }
        HistoryPane::Empty(..) => panic!("there are commits"),
    }
    match history_view(&input(list(), "FIX")) {
        HistoryPane::List(header, search, rows) => {
            let search = search.unwrap();
            assert_eq!((search.key.as_str(), search.query.as_str()), ("history:search", "FIX"));
            assert_eq!(header, "1 match · 2 commits");
            assert!(rows[0].matches && !rows[1].matches);
        }
        HistoryPane::Empty(..) => panic!("there are commits"),
    }
    let mut chosen = input(list(), "");
    chosen.selected_commit = Some(id(2));
    match history_view(&chosen) {
        HistoryPane::List(header, _, rows) => {
            assert_eq!(header, format!("{} · Eve · Docs", id(2).short_id()));
            assert!(rows[1].selected && !rows[0].selected);
        }
        HistoryPane::Empty(..) => panic!("there are commits"),
    }
}

fn detail() -> CommitDetail {
    CommitDetail {
        info: FullCommitInfo {
            id: id(1),
            short_id: id(1).short_id(),
            full_message: "Subject\n\nBody\n".to_string(),
            author_name: "Ada".to_string(),
            author_email: "ada@example.com".to_string(),
            author_time: 1000,
            parent_short_ids: vec!["p1".to_string(), "p2".to_string()],
        },
        files: vec![DiffFile {
            path: "f.txt".to_string(),
            hunks: vec![],
            additions: 2,
            deletions: 1,
        }],
        submodule_entries: vec![
            CommitSubmoduleEntry {
                name: "lib".to_string(),
                path: "libs/lib".to_string(),
                pinned_oid: id(2),
                changed: true,
                parent_oid: None,
            },
            CommitSubmoduleEntry {
                name: "old".to_string(),
                path: "old".to_string(),
                pinned_oid: id(3),
                changed: false,
                parent_oid: Some(id(3)),
            },
        ],
    }
}

#[test]
fn details_show_message_files_and_submodules() {
    assert_eq!(split_message(" A \n\n b\nc \n"), ("A".to_string(), "b\nc".to_string()));
    assert_eq!(split_message(""), (String::new(), String::new()));
    assert_eq!(
        split_message("A\nstill A\n\nb\n\nc"),
        ("A".to_string(), "b\n\nc".to_string())
    );
    assert_eq!(split_message("A\nB"), ("A".to_string(), String::new()));
    match commit_details_pane(true, Some(&detail()), 1060) {
        DetailsPane::Details(d) => {
            assert_eq!(d.subject, "Subject");
            assert_eq!(d.body.as_deref(), Some("Body"));
            assert_eq!(d.parents, "Parents: p1, p2");
            assert_eq!(d.files.len(), 1);
            assert_eq!(d.files[0].key, "commit_file:f.txt");
            assert_eq!(d.files[0].stats, Some(("+2".to_string(), "-1".to_string())));
            let (title, rows) = d.submodules.unwrap();
            assert_eq!(title, "Submodules (1 changed)");
            assert!(matches!(&rows[0].pin, PinText::New(s) if s.ends_with(&id(2).short_id())));
            assert!(matches!(&rows[1].pin, PinText::Same(s) if *s == id(3).short_id()));
            assert_eq!(rows[0].key, "submodule:open:libs/lib");
        }
        DetailsPane::Placeholder(_) => panic!("a commit is selected"),
    }
    assert!(matches!(commit_details_pane(false, None, 0), DetailsPane::Placeholder(_)));
    assert!(matches!(commit_details_pane(true, None, 0), DetailsPane::Placeholder(_)));
}

fn key(commit: Option<Oid>, staged: bool, epoch: u64) -> DiffKey {
    DiffKey {
        worktree: "/w".to_string(),
        file: "f".to_string(),
        commit,
        staged,
        epoch,
    }
}

fn hunks() -> Vec<DiffHunk> {
    vec![DiffHunk {
        header: "@@".to_string(),
        lines: vec![DiffLine {
            origin: '+',
            content: "x".to_string(),
            old_lineno: None,
            new_lineno: Some(1),
            highlight_ranges: vec![(0, 1)],
            no_newline: false,
        }],
    }]
}

#[test]
fn only_changes_not_committed_can_be_staged() {
    let show = |k: DiffKey, wanted: DiffKey| {
        diff_view(&DiffInput {
            has_view: true,
            file_selected: true,
            desired: Some(wanted),
            cache: Some((k, hunks())),
        })
    };
    match show(key(None, false, 1), key(None, false, 2)) {
        DiffPane::Diff(d) => {
            assert_eq!((d.title.as_str(), d.badge.as_str()), ("f", "unstaged"));
            assert_eq!(d.hunks[0].lines[0].kind, DiffLineKind::Addition);
            assert_eq!(d.hunks[0].lines[0].highlights, vec![(0, 1)]);
            let keys: Vec<&str> = d.hunks[0].actions.iter().map(|a| a.key.as_str()).collect();
            assert_eq!(keys, vec!["stage_hunk:0:f", "discard_hunk:0:f"]);
        }
        DiffPane::Empty(_) => panic!("the same target was read before"),
    }
    match show(key(Some(id(1)), false, 1), key(Some(id(1)), false, 1)) {
        DiffPane::Diff(d) => {
            assert_eq!(d.badge, id(1).short_id());
            assert!(d.hunks[0].actions.is_empty());
        }
        DiffPane::Empty(_) => panic!("the diff is there"),
    }
    match show(key(None, true, 1), key(None, false, 1)) {
        DiffPane::Empty(s) => assert_eq!(s, "Loading diff…"),
        DiffPane::Diff(_) => panic!("another target was read"),
    }
    match diff_view(&DiffInput { has_view: false, file_selected: true, desired: None, cache: None }) {
        DiffPane::Empty(s) => assert_eq!(s, "No active worktree."),
        DiffPane::Diff(_) => panic!("there is no worktree"),
    }
}

#[test]
fn rows_of_the_picture() {
    let kinds = row_kinds();
    assert_eq!(kinds.len(), 14);
    assert_eq!(kinds[4], RowKind::Lane1IncomingNode);
    assert_eq!(
        build_row_paths(RowKind::Lane1IncomingNode),
        vec![
            RowPath::Curve(0, 1, Height::Middle),
            RowPath::Line(1, Height::Middle, Height::Bottom),
            RowPath::Node(1),
        ]
    );
    assert_eq!(build_row_paths(RowKind::Lane0Node).len(), 2);
}
