use whisper_git::dialogs::{
    branch_modal, clone_modal, confirm_modal, error_modal, merge_modal, open_repo_modal,
    pull_modal, push_modal, rebase_modal, settings_modal, tag_modal, token_modal, worktree_modal,
    worktrees_modal, BadgeTone, BranchForm, ButtonStyle, CloneForm, MergeForm, MergeStrategy,
    ModalPanel, Part, PullForm, PushForm, RebaseForm, RecentRepo, SettingsForm, TagForm,
    TokenForm, WorktreeForm, MODAL_PUSH_KEY,
};
use whisper_git::git::WorktreeInfo;

/// The button with a key: its label, its style and whether it can be pressed.
fn button(m: &ModalPanel, key: &str) -> Option<(String, ButtonStyle, bool)> {
    m.parts.iter().find_map(|p| match p {
        Part::Button(l, k, s, e) if k == key => Some((l.clone(), *s, *e)),
        _ => None,
    })
}

fn said(m: &ModalPanel, text: &str) -> bool {
    m.parts.iter().any(|p| match p {
        Part::Heading(s) | Part::Paragraph(s) | Part::Caption(s) | Part::Label(s)
        | Part::Description(s) => s == text,
        _ => false,
    })
}

#[test]
fn strategies_have_values() {
    for s in [
        MergeStrategy::Default,
        MergeStrategy::NoFf,
        MergeStrategy::FfOnly,
        MergeStrategy::Squash,
    ] {
        assert_eq!(MergeStrategy::from_radio_value(s.as_radio_value()), Some(s));
    }
    assert_eq!(MergeStrategy::from_radio_value("other"), None);
}

#[test]
fn forms_start_empty_but_check_out_new_branches() {
    assert!(BranchForm::default().checkout);
    assert!(!CloneForm::default().bare);
    assert_eq!(MergeForm::default().strategy, MergeStrategy::Default);
    assert!(TokenForm::default().gitlab_inputs.is_empty());
}

#[test]
fn settings_highlight_the_row_size() {
    let form = |normal_rows: bool| SettingsForm {
        show_orphaned_commits: true,
        normal_rows,
        avatars_enabled: false,
        shortcut_bar_visible: true,
        diff_split: false,
    };
    let m = settings_modal(form(true));
    assert_eq!(m.dismiss_key, "modal:settings:dismiss");
    assert_eq!(button(&m, "settings:row_size:1.0").unwrap().1, ButtonStyle::Primary);
    assert_eq!(button(&m, "settings:row_size:1.5").unwrap().1, ButtonStyle::Subtle);
    let m = settings_modal(form(false));
    assert_eq!(button(&m, "settings:row_size:1.5").unwrap().1, ButtonStyle::Primary);
    assert!(m.parts.iter().any(|p| matches!(p, Part::Switch(l, k, true)
        if l == "Orphaned commits" && k == "settings:orphans")));
}

#[test]
fn questions_and_errors() {
    let m = confirm_modal("Delete branch", "Really?", "Delete", true);
    assert_eq!(m.title, "Delete branch");
    assert!(said(&m, "Really?"));
    assert_eq!(
        button(&m, "modal:confirm:ok"),
        Some(("Delete".to_string(), ButtonStyle::Destructive, true))
    );
    let m = confirm_modal("t", "b", "Go", false);
    assert_eq!(button(&m, "modal:confirm:ok").unwrap().1, ButtonStyle::Primary);
    let m = error_modal("Push failed", "why");
    assert!(matches!(m.parts[0], Part::Alert));
    assert!(said(&m, "why"));
}

#[test]
fn repositories_are_listed_with_their_place() {
    let m = open_repo_modal(&vec![]);
    assert_eq!(m.parts.len(), 3);
    let m = open_repo_modal(&vec![
        RecentRepo {
            path: "/a/b".to_string(),
            name: Some("b".to_string()),
            parent: Some("/a".to_string()),
        },
        RecentRepo { path: "/".to_string(), name: None, parent: None },
    ]);
    assert!(said(&m, "Recent"));
    match &m.parts[4] {
        Part::Item(t, d, k) => assert_eq!(
            (t.as_str(), d.as_str(), k.as_str()),
            ("b", "/a", "modal:open_repo:recent:0")
        ),
        p => panic!("{p:?}"),
    }
    match &m.parts[5] {
        Part::Item(t, d, k) => assert_eq!(
            (t.as_str(), d.as_str(), k.as_str()),
            ("/", "", "modal:open_repo:recent:1")
        ),
        p => panic!("{p:?}"),
    }
}

#[test]
fn a_clone_under_way_is_said_to_be() {
    let m = clone_modal(&CloneForm::default(), true);
    assert_eq!(
        button(&m, "clone:start"),
        Some(("Cloning\u{2026}".to_string(), ButtonStyle::Subtle, true))
    );
    let m = clone_modal(&CloneForm::default(), false);
    assert_eq!(
        button(&m, "clone:start"),
        Some(("Clone".to_string(), ButtonStyle::Primary, true))
    );
}

#[test]
fn branches_and_tags_tell_where() {
    let m = branch_modal(&BranchForm::default(), "abc1234");
    assert!(said(&m, "Will be created at abc1234."));
    let m = tag_modal(&TagForm { name: "v1".to_string() }, "abc1234");
    assert!(matches!(&m.parts[1], Part::Input(k, v) if k == "tag:name" && v == "v1"));
}

#[test]
fn buttons_wait_for_what_is_needed() {
    let mut pull = PullForm::default();
    let sources = vec!["origin/main".to_string()];
    assert!(!button(&pull_modal(&pull, &sources), "pull:execute").unwrap().2);
    pull.source = " ".to_string();
    assert!(button(&pull_modal(&pull, &sources), "pull:execute").unwrap().2);
    let mut push = PushForm::default();
    push.remote = "origin".to_string();
    push.branch = "  ".to_string();
    let m = push_modal(&push, &vec!["origin".to_string()]);
    assert_eq!(m.dismiss_key, format!("{MODAL_PUSH_KEY}:dismiss"));
    assert!(!button(&m, "push:execute").unwrap().2);
    push.branch = "main".to_string();
    assert!(button(&push_modal(&push, &vec![]), "push:execute").unwrap().2);
    let mut wt = WorktreeForm::default();
    wt.path = "/w".to_string();
    assert!(!button(&worktree_modal(&wt), "worktree:create").unwrap().2);
    wt.source = "main".to_string();
    assert!(button(&worktree_modal(&wt), "worktree:create").unwrap().2);
}

#[test]
fn a_message_can_be_written_only_for_a_merge_commit() {
    let mut form = MergeForm::default();
    assert!(!said(&merge_modal(&form, "dev"), "Merge commit message"));
    form.strategy = MergeStrategy::NoFf;
    let m = merge_modal(&form, "dev");
    assert!(said(&m, "Merge commit message"));
    assert!(said(&m, "Will merge dev into HEAD."));
    match &m.parts[1] {
        Part::Radio(k, v, options) => {
            assert_eq!((k.as_str(), v.as_str(), options.len()), ("merge:strategy", "no_ff", 4));
        }
        p => panic!("{p:?}"),
    }
    let m = rebase_modal(RebaseForm { autostash: true, rebase_merges: false }, "main");
    assert!(said(&m, "Will rebase HEAD onto main."));
}

#[test]
fn worktrees_tell_what_is_changed() {
    let wt = |name: &str, is_dirty: Option<bool>, count: Option<usize>| WorktreeInfo {
        name: name.to_string(),
        path: format!("/{name}"),
        branch: "main".to_string(),
        head_oid: None,
        is_dirty,
        dirty_file_count: count,
    };
    let m = worktrees_modal(
        &vec![wt("a", Some(true), Some(3)), wt("b", Some(false), Some(0)), wt("c", None, None)],
        &Some("/b/".to_string()),
    );
    let badges: Vec<(String, BadgeTone)> = m
        .parts
        .iter()
        .filter_map(|p| match p {
            Part::Badge(l, t) => Some((l.clone(), *t)),
            _ => None,
        })
        .collect();
    assert_eq!(
        badges,
        vec![
            ("3 dirty".to_string(), BadgeTone::Warning),
            ("clean".to_string(), BadgeTone::Muted),
            ("active".to_string(), BadgeTone::Muted),
        ]
    );
    assert_eq!(button(&m, "worktrees:remove:2").unwrap().1, ButtonStyle::Destructive);
    assert!(said(&worktrees_modal(&vec![], &None), "No linked worktrees."));
}

#[test]
fn tokens_can_be_set_replaced_and_cleared() {
    let mut form = TokenForm::default();
    let m = token_modal(&form, false, &vec![]);
    assert_eq!(button(&m, "token:github:edit").unwrap().0, "Set\u{2026}");
    assert!(button(&m, "token:github:clear").is_none());
    let m = token_modal(&form, true, &vec![]);
    assert_eq!(button(&m, "token:github:edit").unwrap().0, "Replace\u{2026}");
    assert!(button(&m, "token:github:clear").is_some());
    form.gitlab_inputs.insert("b.example".to_string(), "half".to_string());
    form.editing_github = true;
    let hosts = vec![("a.example".to_string(), true), ("b.example".to_string(), true)];
    let m = token_modal(&form, true, &hosts);
    assert!(button(&m, "token:github:clear").is_none());
    assert!(button(&m, "token:github:save").is_some());
    assert!(button(&m, "token:gitlab:clear:a.example").is_some());
    assert!(button(&m, "token:gitlab:clear:b.example").is_none());
    assert!(m.parts.iter().any(|p| matches!(p, Part::Input(k, v)
        if k == "token:gitlab:input:b.example" && v == "half")));
}
