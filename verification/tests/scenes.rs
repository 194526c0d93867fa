use whisper_git::ci::{CiCounts, CiState};
use whisper_git::commit_details::CommitDetail;
use whisper_git::git::status::{FileStatus, FileStatusKind, WorkingDirStatus};
use whisper_git::git::{CommitInfo, FullCommitInfo};
use whisper_git::oid::Oid;
use whisper_git::scenes::{
    build_scenes, inject_synthetic_ci, inject_synthetic_submodules_active_view,
    inject_synthetic_submodules_commit_detail, OpenedRepo, Scene, SceneSetup, SceneTabs,
};
use whisper_git::text_map::TextMap;

fn id(n: u64) -> Oid {
    Oid { hi: n, mid: 0, lo: 0 }
}

fn commit(n: u64, is_synthetic: bool) -> CommitInfo {
    CommitInfo {
        id: id(n),
        short_id: String::new(),
        summary: String::new(),
        body_excerpt: None,
        body_full: None,
        author: String::new(),
        author_email: String::new(),
        time: 0,
        parent_ids: vec![],
        insertions: 0,
        deletions: 0,
        is_synthetic,
        synthetic_wt_name: None,
        is_orphaned: false,
        orphan_source: None,
    }
}

fn repo(commits: Vec<CommitInfo>, untracked: &[&str], staged: &[&str]) -> OpenedRepo {
    let files = |names: &[&str]| {
        names
            .iter()
            .map(|n| FileStatus { path: n.to_string(), status: FileStatusKind::New })
            .collect::<Vec<_>>()
    };
    OpenedRepo {
        commits,
        status: Some(WorkingDirStatus {
            staged: files(staged),
            unstaged: vec![],
            untracked: files(untracked),
            conflicted: vec![],
        }),
    }
}

fn named<'a>(scenes: &'a [Scene], name: &str) -> Option<&'a Scene> {
    scenes.iter().find(|s| s.name == name)
}

#[test]
fn without_a_repository_only_the_welcome_is_shown() {
    let s = build_scenes(&vec![]);
    assert_eq!(s.len(), 2);
    assert_eq!(s[0].name, "welcome_empty");
    assert!(matches!(&s[1].setup, SceneSetup::RecentRepos(v) if v.len() == 3));
}

#[test]
fn scenes_follow_what_the_repository_has() {
    let commits = vec![
        commit(100, true),
        commit(1, false),
        commit(2, false),
        commit(3, false),
        commit(4, false),
    ];
    let s = build_scenes(&vec![repo(commits, &["new.txt"], &["staged.txt"])]);
    assert_eq!(s.len(), 25);
    assert!(matches!(&named(&s, "diff_view_split").unwrap().setup,
        SceneSetup::DiffFile(p, true) if p == "new.txt"));
    assert!(matches!(&named(&s, "history_context_menu").unwrap().setup,
        SceneSetup::CommitMenu(c, (480, 200)) if *c == id(1)));
    assert!(matches!(&named(&s, "drilled_into_submodule").unwrap().setup,
        SceneSetup::Drilled(_, Some(c)) if *c == id(4)));
    assert!(named(&s, "sidebar_multi_tab").is_none());
}

#[test]
fn scenes_that_need_something_are_left_out() {
    let s = build_scenes(&vec![repo(vec![], &[], &[]), repo(vec![], &[], &[])]);
    assert!(named(&s, "diff_view").is_none());
    assert!(named(&s, "history_context_menu").is_none());
    assert!(matches!(&named(&s, "history_view").unwrap().setup, SceneSetup::SelectedCommit(None)));
    assert_eq!(named(&s, "sidebar_multi_tab").unwrap().tabs, SceneTabs::All);
}

#[test]
fn every_scene_has_a_name_of_its_own() {
    let commits = vec![commit(1, false)];
    let s = build_scenes(&vec![repo(commits, &["a"], &[]), repo(vec![], &[], &[])]);
    for (i, a) in s.iter().enumerate() {
        for b in &s[i + 1..] {
            assert_ne!(a.name, b.name);
        }
    }
}

#[test]
fn checks_show_every_state() {
    let commits: Vec<CommitInfo> = (1..=8).map(|n| commit(n, n == 1)).collect();
    let mut results = Vec::new();
    let mut per_commit = TextMap::new();
    inject_synthetic_ci(&vec![commit(1, true)], &mut results, &mut per_commit);
    assert!(results.is_empty() && per_commit.is_empty());
    inject_synthetic_ci(&commits, &mut results, &mut per_commit);
    assert_eq!(results.len(), 2);
    assert_eq!(results[0].per_commit_rollups.len(), 6);
    let head = results[0].per_commit_rollups.get(&id(2).to_hex()).unwrap();
    assert_eq!(head.counts, CiCounts { success: 1, failure: 1, pending: 1 });
    let states: Vec<CiState> = (3..=7)
        .map(|n| results[0].per_commit_rollups.get(&id(n).to_hex()).unwrap().checks[0].state)
        .collect();
    assert_eq!(
        states,
        vec![CiState::Pending, CiState::Failure, CiState::Success, CiState::Pending, CiState::Failure]
    );
    assert_eq!(per_commit.get(&id(2).to_hex()).unwrap().len(), 2);
    assert_eq!(per_commit.get(&id(3).to_hex()).unwrap().len(), 1);
}

#[test]
fn submodules_are_set_up_where_something_is_shown() {
    let mut none = None;
    inject_synthetic_submodules_active_view(&mut none);
    assert!(none.is_none());
    let mut some = Some(vec![]);
    inject_synthetic_submodules_active_view(&mut some);
    let list = some.unwrap();
    assert_eq!(list.len(), 4);
    assert_eq!(list[0].head_oid.unwrap().to_hex(), "a".repeat(40));
    assert_eq!(list[1].is_dirty, Some(true));
    assert_ne!(list[2].head_oid, list[2].index_oid);
    assert_ne!(list[3].index_oid, list[3].workdir_oid);
    let mut nothing = None;
    inject_synthetic_submodules_commit_detail(&mut nothing);
    assert!(nothing.is_none());
    let mut detail = Some(CommitDetail {
        info: FullCommitInfo {
            id: id(1),
            short_id: "s".to_string(),
            full_message: "First\r\nSecond\n".to_string(),
            author_name: "Ada".to_string(),
            author_email: String::new(),
            author_time: 7,
            parent_short_ids: vec![],
        },
        files: vec![],
        submodule_entries: vec![],
    });
    inject_synthetic_submodules_commit_detail(&mut detail);
    let d = detail.unwrap();
    assert_eq!(d.info.full_message, "First");
    assert_eq!(d.info.author_name, "Ada");
    assert_eq!(d.submodule_entries.len(), 3);
    assert_eq!(d.submodule_entries[1].parent_oid, None);
    assert_eq!(d.submodule_entries[2].pinned_oid.to_hex(), "3".repeat(40));
}
