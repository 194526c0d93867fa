use whisper_git::ai::{AiResponse, Assistant};
use whisper_git::app::ci_fetch::{
    choose_github_url, choose_gitlab_url, choose_token, collect_remote_urls, RemoteUrl,
};
use whisper_git::app::dividers::{
    handle_divider_drag, CursorShape, DividerDrag, PointerEvent, PressedAt,
};
use whisper_git::app::lifecycle::{
    handle_dropped_file, poll_clone_receiver, repos_to_open, start_clone, startup_tabs,
};
use whisper_git::app::messages::{
    ai_may_start, process_messages, receiver_after, AppMessage, StateReceiver,
};
use whisper_git::app::modal_events::{
    handle_modal_events, BranchNameDialogAction, ConfirmDialogAction, DialogReport, ModalEffect,
    SettingsDialogAction, TokenDialogAction,
};
use whisper_git::app::modal_state::{ActiveModal, Modals};
use whisper_git::app::polling::{
    check_came_in, context_path, poll_ai_commit, poll_watcher, FsChangeKind,
};
use whisper_git::app::reload::{reload_step, report_file_name, ReloadStep};
use whisper_git::app::remote_ops::{
    poll_remote_op, poll_remote_ops_for_tab, status_update, AsyncOpPoll, PendingOp, ReceiverPoll,
    RemoteOps, RemoteReplies, StatusUpdate, TIMEOUT_SECS,
};
use whisper_git::app::repo_state::{
    apply_dirty_check_result, apply_status_result, ensure_diff_stats, poll_diff_stats,
    repo_open_failed, DirtyTarget, StatusRefresh, StatusTarget,
};
use whisper_git::app::scheduling::{
    checks_due, has_focused_text_input, next_wake_deadline, refs_due, status_due, Busy, CiTimer,
    TextFocus, WakeFacts,
};
use whisper_git::app::settings::{
    apply_settings_changes, clear_migrated, handle_token_action, keychain_call, settings_shown,
    should_migrate, KeychainCall, TokenConfig,
};
use whisper_git::app::shortcuts::{
    handle_global_shortcuts, Key, Modifiers, ShortcutOutcome, TabFacts,
};
use whisper_git::app::sidebar::{handle_sidebar_action, SidebarAction, SidebarOutcome};
use whisper_git::app::tabs::{
    close_tab, next_tab, previous_tab, switch_tab, tab_with_id, take_tab_id, AfterClose,
};
use whisper_git::app::toast::{ToastManager, ToastSeverity};
use whisper_git::app::window::{
    draw_errors, frame_steps, handle_window_resized, resize_settled, screenshot_step, FrameStep,
};
use whisper_git::ci::{CiCommitRollup, CiCounts, CiProvider, CiState, CiStatus, ProviderCiResult};
use whisper_git::config::Config;
use whisper_git::git::status::{FileStatus, FileStatusKind, WorkingDirStatus};
use whisper_git::git::{
    BranchTip, CommitInfo, RemoteOpResult, RepositoryState, SubmoduleInfo, TagInfo, WorktreeInfo,
};
use whisper_git::git_async::DirtyCheckResult;
use whisper_git::oid::Oid;
use whisper_git::text_map::TextMap;

fn id(n: u64) -> Oid {
    Oid { hi: n, mid: 0, lo: 0 }
}

fn commit(n: u64, is_synthetic: bool) -> CommitInfo {
    CommitInfo {
        id: id(n),
        short_id: String::new(),
        summary: String::new(),
        body_excerpt: None,
        body_full: None,
        author: String::new(),
        author_email: String::new(),
        time: n as i64,
        parent_ids: vec![],
        insertions: 0,
        deletions: 0,
        is_synthetic,
        synthetic_wt_name: None,
        is_orphaned: false,
        orphan_source: None,
    }
}

fn last(t: &ToastManager) -> (&str, ToastSeverity) {
    let x = t.toasts.last().unwrap();
    (x.text.as_str(), x.severity)
}

// Dialogs

#[test]
fn an_interrupt_gives_way_to_what_it_interrupted() {
    let mut m = Modals::new();
    m.set_active_modal(ActiveModal::Settings);
    assert!(m.dialogs.settings);
    m.open_interrupt_modal(ActiveModal::Error);
    assert_eq!(m.active, Some(ActiveModal::Error));
    assert_eq!(m.interrupted, Some(ActiveModal::Settings));
    m.close_interrupt_modal();
    assert_eq!(m.active, Some(ActiveModal::Settings));
    m.close_active_modal();
    assert_eq!(m.active, None);
    assert!(!m.dialogs.settings);
}

#[test]
fn only_confirming_sends_the_message() {
    let ask = |action: Option<ConfirmDialogAction>, has_tab: bool| {
        let mut m = Modals::new();
        m.set_active_modal(ActiveModal::Confirm);
        let mut pending = Some(AppMessage::DeleteTag("v1".to_string()));
        let r = handle_modal_events(&mut m, &mut pending, DialogReport::Confirm(action), has_tab);
        (r.message.is_some(), pending.is_some(), m.active)
    };
    assert_eq!(ask(Some(ConfirmDialogAction::Confirm), true), (true, false, None));
    assert_eq!(ask(Some(ConfirmDialogAction::Confirm), false), (false, false, None));
    assert_eq!(ask(Some(ConfirmDialogAction::Cancel), true), (false, false, None));
    assert_eq!(ask(None, true), (false, true, Some(ActiveModal::Confirm)));
}

#[test]
fn names_are_for_branches_or_tags() {
    let name = |title: &str| {
        let mut m = Modals::new();
        m.set_active_modal(ActiveModal::BranchName);
        let report = DialogReport::BranchName(
            title.to_string(),
            Some(BranchNameDialogAction::Create("x".to_string(), id(1))),
        );
        handle_modal_events(&mut m, &mut None, report, true).message.unwrap()
    };
    assert!(matches!(name("Create Tag"), AppMessage::CreateTag(n, o) if n == "x" && o == id(1)));
    assert!(matches!(name("Create Branch"), AppMessage::CreateBranch(n, _) if n == "x"));
}

#[test]
fn settings_lead_to_tokens_and_back() {
    let mut m = Modals::new();
    m.set_active_modal(ActiveModal::Settings);
    let r = handle_modal_events(
        &mut m,
        &mut None,
        DialogReport::Settings(Some(SettingsDialogAction::ManageTokens)),
        true,
    );
    assert_eq!(r.effect, ModalEffect::FillTokenDialog);
    assert_eq!(m.active, Some(ActiveModal::TokenManager));
    let r = handle_modal_events(
        &mut m,
        &mut None,
        DialogReport::TokenManager(vec![
            TokenDialogAction::SetGitHubToken("t".to_string()),
            TokenDialogAction::Close,
        ]),
        true,
    );
    assert_eq!(r.tokens.len(), 1);
    assert_eq!(m.active, Some(ActiveModal::Settings));
    let r = handle_modal_events(
        &mut m,
        &mut None,
        DialogReport::Settings(Some(SettingsDialogAction::Close)),
        true,
    );
    assert_eq!(r.effect, ModalEffect::ApplySettings);
    assert_eq!(m.active, None);
}

// Messages

#[test]
fn messages_are_sorted_by_kind() {
    let plan = process_messages(vec![], true);
    assert!(plan.breadcrumb.is_none() && !plan.status_dirty);
    let all = || vec![AppMessage::StashPush, AppMessage::DeleteTag("t".to_string())];
    let plan = process_messages(all(), true);
    assert_eq!(plan.breadcrumb.as_deref(), Some("process_messages: 2 pending"));
    assert_eq!(plan.asides.len() + plan.navigation.len() + plan.normal.len(), 2);
    assert!(plan.status_dirty);
}

#[test]
fn the_last_navigation_counts_unless_a_refresh_is_asked_for() {
    let none = vec![];
    assert_eq!(receiver_after(&none, &none), StateReceiver::Kept);
    assert_eq!(receiver_after(&vec![false, false], &vec![false]), StateReceiver::Kept);
    let moves = vec![true, true, false];
    assert_eq!(receiver_after(&moves, &none), StateReceiver::Navigation(1));
    assert_eq!(receiver_after(&moves, &vec![false, false]), StateReceiver::Navigation(1));
    assert_eq!(receiver_after(&moves, &vec![true, false, true]), StateReceiver::Refresh);
    assert_eq!(receiver_after(&none, &vec![false, true]), StateReceiver::Refresh);
}

#[test]
fn generating_needs_something_staged() {
    let mut t = ToastManager::new();
    assert!(ai_may_start(&mut t, false, 1));
    assert!(!ai_may_start(&mut t, true, 1));
    assert!(!ai_may_start(&mut t, false, 0));
    assert!(t.has_active_toasts());
}

// Remote operations

fn op() -> Option<PendingOp> {
    Some(PendingOp { started: 0, label: "origin".to_string() })
}

#[test]
fn slowness_is_told_once() {
    let (mut receiver, mut flag, mut told) = (op(), true, false);
    let late = (TIMEOUT_SECS + 1) * 1000;
    let poll = |r: &mut Option<PendingOp>, f: &mut bool, t: &mut bool, reply, now| {
        poll_remote_op(r, f, t, reply, "Fetch", now, TIMEOUT_SECS)
    };
    assert!(matches!(
        poll(&mut receiver, &mut flag, &mut told, ReceiverPoll::Pending, 1000),
        AsyncOpPoll::Pending
    ));
    assert!(matches!(
        poll(&mut receiver, &mut flag, &mut told, ReceiverPoll::Pending, late),
        AsyncOpPoll::Timeout
    ));
    assert!(told);
    assert!(matches!(
        poll(&mut receiver, &mut flag, &mut told, ReceiverPoll::Pending, late),
        AsyncOpPoll::Pending
    ));
    let done = RemoteOpResult { success: true, error: String::new() };
    assert!(matches!(
        poll(&mut receiver, &mut flag, &mut told, ReceiverPoll::Ready(done), late),
        AsyncOpPoll::Success(_)
    ));
    assert!(receiver.is_none() && !flag && !told);
}

fn quiet() -> RemoteOps {
    RemoteOps {
        fetch: None,
        pull: None,
        push: None,
        generic: None,
        fetching: false,
        pulling: false,
        pushing: false,
        told_fetch: false,
        told_pull: false,
        told_push: false,
        told_generic: false,
        last_push_time: None,
        ci_results: vec![],
    }
}

fn silence() -> RemoteReplies {
    RemoteReplies {
        fetch: ReceiverPoll::Pending,
        pull: ReceiverPoll::Pending,
        push: ReceiverPoll::Pending,
        generic: ReceiverPoll::Pending,
        ci: vec![],
    }
}

fn result(provider: CiProvider, sha: &str) -> ProviderCiResult {
    ProviderCiResult {
        provider,
        status: CiStatus {
            state: CiState::Success,
            summary: String::new(),
            url: None,
            counts: None,
        },
        per_commit_rollups: TextMap::from_pairs(vec![(
            sha.to_string(),
            CiCommitRollup { counts: CiCounts::default(), checks: vec![] },
        )]),
    }
}

#[test]
fn answers_of_remotes_are_taken_over() {
    let (mut toasts, mut modals) = (ToastManager::new(), Modals::new());
    let mut ops = quiet();
    ops.push = op();
    ops.pushing = true;
    let mut replies = silence();
    replies.push = ReceiverPoll::Ready(RemoteOpResult { success: true, error: String::new() });
    let r = poll_remote_ops_for_tab(&mut ops, replies, &mut toasts, &mut modals, 5000);
    assert!(ops.push.is_none() && !ops.pushing);
    assert!(r.needs_repo_refresh);
    assert_eq!(ops.last_push_time, Some(5000));
    assert_eq!(last(&toasts).1, ToastSeverity::Success);
    ops.fetch = op();
    let mut replies = silence();
    replies.fetch = ReceiverPoll::Ready(RemoteOpResult {
        success: false,
        error: "Permission denied".to_string(),
    });
    let r = poll_remote_ops_for_tab(&mut ops, replies, &mut toasts, &mut modals, 6000);
    assert_eq!(r.errors.len(), 1);
    assert!(r.errors[0].summary.contains("Permission denied"));
    let mut replies = silence();
    replies.ci = vec![result(CiProvider::GitLab, "a"), result(CiProvider::GitHub, "a")];
    let r = poll_remote_ops_for_tab(&mut ops, replies, &mut toasts, &mut modals, 7000);
    assert_eq!(ops.ci_results[0].provider, CiProvider::GitHub);
    assert_eq!(r.rollups.unwrap().get("a").unwrap().len(), 2);
    assert_eq!(status_update(1, 1), StatusUpdate::MarkDirty);
    assert_eq!(status_update(1, 2), StatusUpdate::RefreshTab);
}

// Tabs

#[test]
fn tabs_are_closed_and_switched() {
    let mut tabs = vec!["a".to_string(), "b".to_string()];
    let (mut active, mut toasts) = (1, ToastManager::new());
    assert_eq!(close_tab(&mut tabs, &mut active, 9, 0, &mut toasts), AfterClose::Nothing);
    assert_eq!(close_tab(&mut tabs, &mut active, 0, 0, &mut toasts), AfterClose::RefreshStatus);
    assert_eq!(tabs, vec!["b"]);
    assert_eq!(last(&toasts), ("Closed a", ToastSeverity::Info));
    assert_eq!(close_tab(&mut tabs, &mut active, 0, 0, &mut toasts), AfterClose::ShowWelcome);
    let mut active = 0;
    assert!(switch_tab(3, &mut active, 2));
    assert!(!switch_tab(3, &mut active, 3));
    assert_eq!(active, 2);
    assert_eq!(next_tab(2, 3), 0);
    assert_eq!(previous_tab(0, 3), 2);
    assert_eq!(previous_tab(next_tab(1, 3), 3), 1);
    assert_eq!(tab_with_id(&vec![4, 7], 7), Some(1));
    assert_eq!(tab_with_id(&vec![4, 7], 5), None);
    let mut n = 3;
    assert_eq!((take_tab_id(&mut n), n), (3, 4));
}

// Shortcuts

fn modifiers(ctrl: bool, shift: bool) -> Modifiers {
    Modifiers {
        ctrl,
        shift,
        alt: false,
        only_ctrl: ctrl && !shift,
        ctrl_shift: ctrl && shift,
        any: ctrl || shift,
    }
}

fn facts(focus: bool) -> TabFacts {
    TabFacts {
        staging_text_focus: focus,
        sidebar_text_focus: false,
        has_worktree_selector: false,
        worktree_count: 0,
        current_branch: Some("main".to_string()),
    }
}

#[test]
fn shortcuts() {
    let mut m = Modals::new();
    let t = facts(false);
    let mut press = |key: Key, mods: Modifiers, count: usize, tab: Option<&TabFacts>| {
        handle_global_shortcuts(key, mods, 0, count, tab, &mut m)
    };
    let ctrl = modifiers(true, false);
    assert!(matches!(press(Key::W, ctrl, 1, Some(&t)), ShortcutOutcome::Consumed));
    assert!(matches!(press(Key::W, ctrl, 2, Some(&t)), ShortcutOutcome::CloseTab(0)));
    assert!(matches!(press(Key::Tab, ctrl, 3, Some(&t)), ShortcutOutcome::SwitchTab(1)));
    assert!(matches!(
        press(Key::Tab, modifiers(true, true), 3, Some(&t)),
        ShortcutOutcome::SwitchTab(2)
    ));
    assert!(matches!(
        press(Key::F5, modifiers(false, false), 0, None),
        ShortcutOutcome::DiagnosticReload
    ));
    assert!(matches!(
        press(Key::Other, modifiers(false, false), 1, Some(&facts(true))),
        ShortcutOutcome::NotConsumed
    ));
    assert!(matches!(press(Key::O, ctrl, 1, Some(&t)), ShortcutOutcome::OpenRepoDialog));
}

// Sidebar

#[test]
fn losing_something_is_asked_for() {
    let tips = vec![BranchTip {
        name: "main".to_string(),
        oid: id(5),
        is_remote: false,
        is_head: true,
        upstream: None,
    }];
    let tags = vec![TagInfo { name: "v1".to_string(), oid: id(6) }];
    let act = |action: SidebarAction| {
        let mut m = Modals::new();
        let mut pending = None;
        let r = handle_sidebar_action(action, &tips, &tags, &mut m, &mut pending);
        (r, pending.is_some(), m.active)
    };
    let (r, pending, active) = act(SidebarAction::Delete("dev".to_string()));
    assert!(matches!(r, SidebarOutcome::Ask(q) if q.body.contains("dev")));
    assert!(pending && active == Some(ActiveModal::Confirm));
    let (r, pending, _) = act(SidebarAction::Checkout("dev".to_string()));
    assert!(matches!(r, SidebarOutcome::Message(AppMessage::CheckoutBranch(b)) if b == "dev"));
    assert!(!pending);
    let (r, ..) = act(SidebarAction::JumpToRef("v1".to_string()));
    assert!(matches!(r, SidebarOutcome::Message(AppMessage::JumpToCommit(o)) if o == id(6)));
    let (r, ..) = act(SidebarAction::JumpToRef("none".to_string()));
    assert!(matches!(r, SidebarOutcome::Nothing));
}

// Polling

#[test]
fn commit_messages_arrive_or_time_out() {
    let mut t = ToastManager::new();
    let mut started = Some(0);
    assert!(poll_ai_commit(&mut started, ReceiverPoll::Pending, &mut t, 29_000).is_none());
    assert_eq!(started, Some(0));
    let answer = AiResponse { subject: "s".to_string(), body: String::new() };
    let r = poll_ai_commit(&mut started, ReceiverPoll::Ready(Ok(answer)), &mut t, 29_000);
    assert_eq!(r.unwrap().subject, "s");
    assert_eq!(started, None);
    let mut started = Some(0);
    poll_ai_commit(&mut started, ReceiverPoll::Pending, &mut t, 31_000);
    assert_eq!(started, None);
    assert_eq!(last(&t).1, ToastSeverity::Error);
}

#[test]
fn the_most_urgent_change_counts() {
    assert!(poll_watcher(&vec![], 0, 0).is_none());
    let r = poll_watcher(&vec![(FsChangeKind::WorkingTree, 0)], 0, 0).unwrap();
    assert!(r.recheck_worktrees && !r.reopen && !r.refresh_repo);
    assert_eq!(r.status, StatusUpdate::MarkDirty);
    let r = poll_watcher(
        &vec![(FsChangeKind::WorkingTree, 0), (FsChangeKind::WorktreeStructure, 2), (FsChangeKind::GitMetadata, 1)],
        1,
        0,
    )
    .unwrap();
    assert!(r.reopen && r.refresh_repo && !r.recheck_worktrees);
    assert_eq!(check_came_in(0), 0);
    assert_eq!(check_came_in(3), 2);
    assert_eq!(context_path(None, "/g".to_string()), "/g");
    assert_eq!(context_path(Some("/w".to_string()), "/g".to_string()), "/w");
}

// Repository state

fn no_files() -> WorkingDirStatus {
    WorkingDirStatus { staged: vec![], unstaged: vec![], untracked: vec![], conflicted: vec![] }
}

#[test]
fn a_clean_status_takes_the_entry_for_changes_away() {
    let refresh = |n: usize| {
        let mut s = no_files();
        for i in 0..n {
            s.untracked.push(FileStatus {
                path: format!("f{i}"),
                status: FileStatusKind::New,
            });
        }
        StatusRefresh {
            main_status: Some(s),
            staging_status: Some(no_files()),
            staging_repo_state: RepositoryState::Merge,
            main_diff_stats: Some((2, 1)),
            head_oid: Some(id(1)),
            has_workdir: true,
            mtime: None,
        }
    };
    let mut target = StatusTarget {
        staging_status: no_files(),
        repo_state_label: None,
        working_dir_status: None,
        commits: vec![commit(1, false)],
        worktree_count: 0,
    };
    apply_status_result(refresh(2), &mut target);
    assert_eq!(target.repo_state_label, Some("MERGE IN PROGRESS"));
    assert_eq!(target.commits.iter().filter(|c| c.is_synthetic).count(), 1);
    apply_status_result(refresh(0), &mut target);
    assert_eq!(target.commits.iter().filter(|c| c.is_synthetic).count(), 0);
}

#[test]
fn statistics_are_asked_for_and_filled_in() {
    let mut commits = vec![commit(9, true), commit(1, false), commit(2, false)];
    assert_eq!(ensure_diff_stats(&commits, true), None);
    assert_eq!(ensure_diff_stats(&commits, false), Some(vec![id(1), id(2)]));
    poll_diff_stats(&mut commits, &vec![(id(2), 3, 4), (id(77), 1, 1)]);
    assert_eq!((commits[2].insertions, commits[2].deletions), (3, 4));
    assert_eq!((commits[1].insertions, commits[1].deletions), (0, 0));
    let failed = repo_open_failed("gone");
    assert!(failed.commits.is_empty());
    assert_eq!(failed.errors.len(), 1);
}

#[test]
fn dirty_checks_change_only_what_they_are_of() {
    let sub = |name: &str| SubmoduleInfo {
        name: name.to_string(),
        path: name.to_string(),
        branch: String::new(),
        is_dirty: None,
        head_oid: None,
        index_oid: None,
        workdir_oid: None,
    };
    let mut target = DirtyTarget {
        submodules: vec![sub("a"), sub("b")],
        worktrees: vec![WorktreeInfo {
            name: "w".to_string(),
            path: "/w".to_string(),
            branch: "main".to_string(),
            head_oid: Some(id(1)),
            is_dirty: None,
            dirty_file_count: None,
        }],
        commits: vec![commit(1, false)],
    };
    let r = DirtyCheckResult::Submodule { tab_id: 1, name: "b".to_string(), is_dirty: true };
    apply_dirty_check_result(r, &vec![None], &mut target);
    assert_eq!(target.submodules[0].is_dirty, None);
    assert_eq!(target.submodules[1].is_dirty, Some(true));
    let dirty = |n: usize| DirtyCheckResult::Worktree {
        tab_id: 1,
        path: "/w".to_string(),
        dirty_file_count: n,
        diff_stats: (5, 6),
    };
    assert!(apply_dirty_check_result(dirty(2), &vec![None], &mut target));
    assert_eq!(target.worktrees[0].dirty_file_count, Some(2));
    assert_eq!(target.commits.len(), 2);
    assert!(!apply_dirty_check_result(dirty(2), &vec![None], &mut target));
    apply_dirty_check_result(dirty(0), &vec![None], &mut target);
    assert_eq!(target.commits.len(), 1);
}

// Scheduling

#[test]
fn the_next_wake_is_the_earliest() {
    let busy = |generic_op: bool, ai_commit: bool| Busy {
        fetching: false,
        pulling: false,
        pushing: false,
        generic_op,
        ai_commit,
    };
    let facts = |busy: Option<Busy>, asking: bool| WakeFacts {
        last_frame_time: 10_000,
        busy,
        has_toasts: false,
        has_text_focus: false,
        last_status_refresh: 9_000,
        last_ref_check: 9_500,
        resize_debounce: None,
        tabs: vec![CiTimer {
            asking,
            states: vec![CiState::Pending],
            last_push_time: None,
            last_ci_fetch: 0,
        }],
    };
    let quiet = |b: Option<Busy>| next_wake_deadline(&facts(b, true), 10_000);
    assert_eq!(quiet(None), Some(12_000));
    assert_eq!(quiet(Some(busy(false, false))), Some(12_000));
    assert_eq!(quiet(Some(busy(true, false))), Some(10_016));
    assert_eq!(quiet(Some(busy(false, true))), Some(10_016));
    assert_eq!(next_wake_deadline(&facts(None, false), 14_000), Some(12_000));
    let focus = TextFocus {
        has_tab: true,
        subject: false,
        body: false,
        sidebar: false,
        search: false,
        branch_name_dialog: false,
        remote_dialog: false,
        repo_dialog: false,
        token_dialog: false,
    };
    assert!(!has_focused_text_input(focus));
    assert!(has_focused_text_input(TextFocus { body: true, ..focus }));
    assert!(!has_focused_text_input(TextFocus { body: true, has_tab: false, ..focus }));
    assert!(has_focused_text_input(TextFocus { repo_dialog: true, ..focus }));
}

#[test]
fn what_is_due_is_due_when_its_time_has_come() {
    assert!(status_due(true, 5_000, 5_000) && !status_due(false, 5_000, 7_999));
    assert!(status_due(false, 5_000, 8_000) && !status_due(false, 5_000, 0));
    assert!(!refs_due(5_000, 9_999) && refs_due(5_000, 10_000));
    let timer = |asking: bool, states: Vec<CiState>| CiTimer {
        asking,
        states,
        last_push_time: None,
        last_ci_fetch: 1_000,
    };
    assert!(!checks_due(&timer(false, vec![]), 900_000));
    assert!(!checks_due(&timer(true, vec![CiState::Pending]), 900_000));
    assert!(!checks_due(&timer(false, vec![CiState::Pending]), 15_999));
    assert!(checks_due(&timer(false, vec![CiState::Pending]), 16_000));
    assert!(!checks_due(&timer(false, vec![CiState::Success]), 300_999));
    assert!(checks_due(&timer(false, vec![CiState::Success]), 301_000));
}

// Settings

#[test]
fn settings_are_taken_over() {
    let mut c = Config::initial(&Assistant {
        program: "writer".to_string(),
        name: "Writer".to_string(),
        guide: String::new(),
    });
    let mut choice = settings_shown(&c);
    choice.fast_scroll = true;
    choice.show_orphaned_commits = false;
    apply_settings_changes(choice, &mut c);
    assert!(c.fast_scroll && !c.show_orphaned_commits);
    assert_eq!(settings_shown(&c), choice);
}

#[test]
fn tokens_in_the_keychain_are_not_kept_elsewhere() {
    let mut tokens = TokenConfig { github_token: Some("old".to_string()), gitlab_tokens: TextMap::new() };
    let mut toasts = ToastManager::new();
    let set = || TokenDialogAction::SetGitHubToken("new".to_string());
    assert!(matches!(keychain_call(&set()), KeychainCall::SetGitHub(t) if t == "new"));
    assert!(matches!(
        keychain_call(&TokenDialogAction::SetGitHubToken(String::new())),
        KeychainCall::DeleteGitHub
    ));
    handle_token_action(set(), true, &mut tokens, &mut toasts);
    assert_eq!(tokens.github_token, None);
    handle_token_action(set(), false, &mut tokens, &mut toasts);
    assert_eq!(tokens.github_token.as_deref(), Some("new"));
    assert!(should_migrate(&tokens, true));
    assert!(!should_migrate(&tokens, false));
    clear_migrated(&mut tokens, 0);
    assert!(tokens.github_token.is_some());
    clear_migrated(&mut tokens, 1);
    assert!(tokens.github_token.is_none());
}

// Opening and cloning

#[test]
fn clones_are_started_and_finished() {
    let mut t = ToastManager::new();
    assert!(start_clone(true, "u".into(), "d".into(), false, &mut t).is_none());
    let args = start_clone(false, "u".into(), "d".into(), true, &mut t).unwrap();
    assert_eq!(args, vec!["clone", "--bare", "u", "d"]);
    let mut cloning = true;
    let r = poll_clone_receiver(&mut cloning, ReceiverPoll::Ready(Err(" no \n".into())), &mut t);
    assert!(r.is_none() && !cloning);
    assert_eq!(last(&t), ("Clone failed: no", ToastSeverity::Error));
    let mut cloning = true;
    let r = poll_clone_receiver(&mut cloning, ReceiverPoll::Ready(Ok("d".into())), &mut t);
    assert_eq!(r.as_deref(), Some("d"));
    assert_eq!(last(&t), ("Cloned into d", ToastSeverity::Success));
}

#[test]
fn tabs_are_opened_at_the_start() {
    assert_eq!(repos_to_open(vec![]), vec!["."]);
    assert_eq!(repos_to_open(vec!["a".to_string()]), vec!["a"]);
    let tabs = startup_tabs(vec![Err("x".into()), Ok("a".into()), Ok("b".into())]).unwrap();
    assert_eq!(tabs.list.len(), 2);
    assert_ne!(tabs.list[0].id, tabs.list[1].id);
    assert_eq!(
        startup_tabs(vec![Err("x".into())]).unwrap_err(),
        "No repositories could be opened"
    );
    let mut t = ToastManager::new();
    assert_eq!(handle_dropped_file("/p".into(), Some(None), &mut t).as_deref(), Some("/p"));
    assert!(handle_dropped_file("/p".into(), None, &mut t).is_none());
    assert_eq!(last(&t).0, "Not a git repository: /p");
}

// Checks

#[test]
fn origin_is_asked_first() {
    let remote = |name: &str, url: Option<&str>| RemoteUrl {
        name: name.to_string(),
        url: url.map(|u| u.to_string()),
    };
    let urls = collect_remote_urls(
        Some("o".to_string()),
        &vec![remote("fork", Some("f")), remote("origin", Some("o")), remote("bad", None)],
    );
    assert_eq!(urls, vec!["o", "f"]);
    let urls = vec!["https://gitlab.com/a/b".to_string(), "git@github.com:a/b.git".to_string()];
    assert_eq!(choose_github_url(&urls, true), Some(1));
    assert_eq!(choose_github_url(&urls, false), None);
    assert_eq!(choose_gitlab_url(&vec![None, Some("t".to_string())]), Some(1));
    assert_eq!(choose_token(None, Some("s".to_string())).as_deref(), Some("s"));
    assert_eq!(
        choose_token(Some("k".to_string()), Some("s".to_string())).as_deref(),
        Some("k")
    );
}

// Reloading and frames

#[test]
fn reloads_wait_for_their_reads() {
    assert_eq!(reload_step(true, true, true), ReloadStep::Wait);
    assert_eq!(reload_step(true, false, true), ReloadStep::Report);
    assert_eq!(reload_step(false, false, true), ReloadStep::Forget);
    assert_eq!(reload_step(true, false, false), ReloadStep::Wait);
    assert_eq!(report_file_name(12), "reload-12.txt");
}

#[test]
fn frames_take_results_over_before_they_draw() {
    let steps = frame_steps(false, true, false);
    assert_eq!(steps.first(), Some(&FrameStep::DiffStats));
    assert_eq!(steps.last(), Some(&FrameStep::Draw));
    assert!(!steps.contains(&FrameStep::FinishReload));
    assert!(frame_steps(false, true, true).contains(&FrameStep::FinishReload));
    assert_eq!(frame_steps(true, false, true), vec![FrameStep::Fonts]);
    let mut debounce = None;
    handle_window_resized(&mut debounce, 50);
    assert!(!resize_settled(&mut debounce, 149));
    assert!(resize_settled(&mut debounce, 150));
    assert_eq!(debounce, None);
    assert_eq!(draw_errors(2, false), 3);
    assert_eq!(draw_errors(2, true), 0);
    let s = screenshot_step(true, true, 3);
    assert!(s.inject && !s.capture && s.redraw);
    assert!(screenshot_step(true, true, 4).capture);
    assert!(screenshot_step(true, false, 3).capture);
    assert!(!screenshot_step(false, true, 3).inject);
}

#[test]
fn dividers_are_dragged_until_let_go() {
    let (mut drag, mut cursor) = (None, CursorShape::Normal);
    let at = PressedAt {
        below_shortcut_bar: true,
        near_sidebar_edge: false,
        near_graph_edge: true,
        near_staging_split: true,
    };
    let r = handle_divider_drag(&mut drag, &mut cursor, true, PointerEvent::Pressed(at));
    assert!(r.consumed);
    assert_eq!(drag, Some(DividerDrag::GraphRight));
    let r = handle_divider_drag(&mut drag, &mut cursor, true, PointerEvent::Moved);
    assert_eq!(r.moved, Some(DividerDrag::GraphRight));
    assert_eq!(r.cursor, Some(CursorShape::ColumnResize));
    let r = handle_divider_drag(&mut drag, &mut cursor, true, PointerEvent::Moved);
    assert_eq!(r.cursor, None);
    let r = handle_divider_drag(&mut drag, &mut cursor, true, PointerEvent::Released);
    assert!(r.consumed && drag.is_none());
    assert_eq!(cursor, CursorShape::Normal);
    let r = handle_divider_drag(&mut drag, &mut cursor, true, PointerEvent::Moved);
    assert!(!r.consumed);
}
