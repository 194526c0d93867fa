//! Taking over settings and access tokens.

use crate::app::modal_events::TokenDialogAction;
use crate::app::modal_state::{ActiveModal, Modals};
use crate::app::toast::{self, ToastManager, ToastSeverity};
use crate::config::Config;
use crate::text;
use crate::text_map::{self, TextMap};
use vstd::prelude::*;
use vstd::string::*;

verus! {

/// What was chosen in the settings, apart from measures.
#[derive(Debug, Clone, Copy, PartialEq, Eq, Structural)]
pub struct SettingsChoice {
    pub show_avatars: bool,
    pub fast_scroll: bool,
    pub abbreviate_worktree_names: bool,
    pub show_orphaned_commits: bool,
    pub ratchet_scroll: bool,
}

/// Take over what was chosen in the settings. Returns whether every tab has to be read again
/// because other commits are shown now.
pub fn apply_settings_changes(choice: SettingsChoice, config: &mut Config) -> (r: bool)
    ensures
        *final(config) == (Config {
            avatars_enabled: choice.show_avatars,
            fast_scroll: choice.fast_scroll,
            abbreviate_worktree_names: choice.abbreviate_worktree_names,
            show_orphaned_commits: choice.show_orphaned_commits,
            ratchet_scroll: choice.ratchet_scroll,
            ..*old(config)
        }),
        r == (old(config).show_orphaned_commits != choice.show_orphaned_commits),
{
    let orphans_changed = config.show_orphaned_commits != choice.show_orphaned_commits;
    config.avatars_enabled = choice.show_avatars;
    config.fast_scroll = choice.fast_scroll;
    config.abbreviate_worktree_names = choice.abbreviate_worktree_names;
    config.show_orphaned_commits = choice.show_orphaned_commits;
    config.ratchet_scroll = choice.ratchet_scroll;
    orphans_changed
}

/// What the settings show when they are opened: what was chosen last.
pub fn settings_shown(config: &Config) -> (r: SettingsChoice)
    ensures
        r == (SettingsChoice {
            show_avatars: config.avatars_enabled,
            fast_scroll: config.fast_scroll,
            abbreviate_worktree_names: config.abbreviate_worktree_names,
            show_orphaned_commits: config.show_orphaned_commits,
            ratchet_scroll: config.ratchet_scroll,
        }),
{
    SettingsChoice {
        show_avatars: config.avatars_enabled,
        fast_scroll: config.fast_scroll,
        abbreviate_worktree_names: config.abbreviate_worktree_names,
        show_orphaned_commits: config.show_orphaned_commits,
        ratchet_scroll: config.ratchet_scroll,
    }
}

/// Say so where the settings could not be saved.
pub fn tell_save(saved: Result<(), String>, toasts: &mut ToastManager)
    ensures
        final(toasts)@ == (match saved {
            Ok(_) => old(toasts)@,
            Err(e) => old(toasts)@.push(toast::error(e@)),
        }),
{
    if let Err(e) = saved {
        toasts.push(e, ToastSeverity::Error);
    }
}

/// The tokens that the settings hold where the keychain does not. The hosts are a registry:
/// a host whose token is in the keychain is there with an empty text.
pub struct TokenConfig {
    pub github_token: Option<String>,
    pub gitlab_tokens: TextMap<String>,
}

/// Whether a token is set in the settings.
pub open spec fn is_set(token: Option<Seq<char>>) -> bool {
    match token {
        Some(t) => t.len() > 0,
        None => false,
    }
}

/// What the token dialog shows: whether there is a token for GitHub, and for each host of
/// GitLab.
pub struct TokenOverview {
    pub github_has_token: bool,
    pub gitlab_hosts: Vec<(String, bool)>,
}

/// Fill in the token dialog. `github_in_keychain` and `gitlab_in_keychain` say which tokens
/// are in the keychain, the latter for each host in the order of the registry.
pub fn open_token_dialog(
    tokens: &TokenConfig,
    github_in_keychain: bool,
    gitlab_in_keychain: &Vec<bool>,
    modals: &mut Modals,
) -> (r: TokenOverview)
    requires
        gitlab_in_keychain.len() == tokens.gitlab_tokens.list().len(),
    ensures
        r.github_has_token == (github_in_keychain || is_set(text::opt_view(tokens.github_token))),
        r.gitlab_hosts@.len() == tokens.gitlab_tokens.list().len(),
        forall|i: int|
            0 <= i < r.gitlab_hosts@.len() ==> {
                let host = #[trigger] r.gitlab_hosts@[i];
                let known = tokens.gitlab_tokens.list()[i];
                host.0@ == known.0 && host.1 == (gitlab_in_keychain@[i] || known.1@.len() > 0)
            },
        *final(modals) == (Modals {
            active: Some(ActiveModal::TokenManager),
            dialogs: old(modals).dialogs.with(ActiveModal::TokenManager, true),
            ..*old(modals)
        }),
{
    let in_settings = match &tokens.github_token {
        Some(t) => !t.as_str().is_empty(),
        None => false,
    };
    let mut hosts: Vec<(String, bool)> = Vec::new();
    let n: usize = tokens.gitlab_tokens.len();
    let mut i: usize = 0;
    while i < n
        invariant
            i <= n,
            n == tokens.gitlab_tokens.list().len(),
            n == gitlab_in_keychain.len(),
            hosts.len() == i,
            forall|k: int|
                0 <= k < hosts@.len() ==> {
                    let host = #[trigger] hosts@[k];
                    let known = tokens.gitlab_tokens.list()[k];
                    host.0@ == known.0 && host.1 == (gitlab_in_keychain@[k] || known.1@.len() > 0)
                },
        decreases n - i,
    {
        let set = gitlab_in_keychain[i] || !tokens.gitlab_tokens.value(i).as_str().is_empty();
        hosts.push((tokens.gitlab_tokens.key(i).clone(), set));
        i = i + 1;
    }
    modals.dialogs.set(ActiveModal::TokenManager, true);
    modals.active = Some(ActiveModal::TokenManager);
    TokenOverview { github_has_token: github_in_keychain || in_settings, gitlab_hosts: hosts }
}

/// What the keychain is asked to do.
#[derive(Debug)]
pub enum KeychainCall {
    Nothing,
    DeleteGitHub,
    SetGitHub(String),
    SetGitLab(String, String),
    DeleteGitLab(String),
}

/// What the keychain is asked to do for an action in the token dialog. An empty token for
/// GitHub removes the one that is there.
pub fn keychain_call(action: &TokenDialogAction) -> (r: KeychainCall)
    ensures
        match *action {
            TokenDialogAction::Close => r is Nothing,
            TokenDialogAction::SetGitHubToken(token) => if token@.len() == 0 {
                r is DeleteGitHub
            } else {
                match r {
                    KeychainCall::SetGitHub(t) => t@ == token@,
                    _ => false,
                }
            },
            TokenDialogAction::SetGitLabToken(host, token) => match r {
                KeychainCall::SetGitLab(h, t) => h@ == host@ && t@ == token@,
                _ => false,
            },
            TokenDialogAction::RemoveGitLabToken(host) => match r {
                KeychainCall::DeleteGitLab(h) => h@ == host@,
                _ => false,
            },
        },
{
    match action {
        TokenDialogAction::Close => KeychainCall::Nothing,
        TokenDialogAction::SetGitHubToken(token) => if token.as_str().is_empty() {
            KeychainCall::DeleteGitHub
        } else {
            KeychainCall::SetGitHub(token.clone())
        },
        TokenDialogAction::SetGitLabToken(host, token) => KeychainCall::SetGitLab(
            host.clone(),
            token.clone(),
        ),
        TokenDialogAction::RemoveGitLabToken(host) => KeychainCall::DeleteGitLab(host.clone()),
    }
}

/// The tokens of GitLab by their views.
pub open spec fn token_list(m: TextMap<String>) -> Seq<(Seq<char>, Seq<char>)> {
    Seq::new(m.list().len(), |i: int| (m.list()[i].0, m.list()[i].1@))
}

/// Whether the settings hold what an action in the token dialog leaves there. `stored` says
/// whether the keychain took the token.
pub open spec fn tokens_after(
    before: TokenConfig,
    action: TokenDialogAction,
    stored: bool,
    after: TokenConfig,
) -> bool {
    match action {
        TokenDialogAction::Close => after == before,
        TokenDialogAction::SetGitHubToken(token) => {
            &&& after.gitlab_tokens == before.gitlab_tokens
            &&& text::opt_view(after.github_token) == (if token@.len() == 0 || stored {
                None
            } else {
                Some(token@)
            })
        },
        TokenDialogAction::SetGitLabToken(host, token) => {
            &&& after.github_token == before.github_token
            &&& token_list(after.gitlab_tokens) == text_map::put(
                token_list(before.gitlab_tokens),
                host@,
                if stored {
                    ""@
                } else {
                    token@
                },
            )
        },
        TokenDialogAction::RemoveGitLabToken(host) => {
            &&& after.github_token == before.github_token
            &&& token_list(after.gitlab_tokens) == text_map::taken_out(
                token_list(before.gitlab_tokens),
                host@,
            )
        },
    }
}

/// What is said of an action in the token dialog.
pub open spec fn token_text(action: TokenDialogAction, stored: bool) -> Seq<char> {
    match action {
        TokenDialogAction::Close => ""@,
        TokenDialogAction::SetGitHubToken(token) => if token@.len() == 0 {
            "GitHub token removed"@
        } else if stored {
            "GitHub token saved to keychain"@
        } else {
            "GitHub token saved to config (keychain unavailable)"@
        },
        TokenDialogAction::SetGitLabToken(host, _) => "GitLab token for "@ + host@ + if stored {
            " saved to keychain"@
        } else {
            " saved to config (keychain unavailable)"@
        },
        TokenDialogAction::RemoveGitLabToken(host) => "GitLab token for "@ + host@ + " removed"@,
    }
}

proof fn lemma_token_index(m: TextMap<String>, key: Seq<char>)
    ensures
        text_map::key_index(token_list(m), key) == text_map::key_index(m.list(), key),
{
    lemma_same_index(m.list(), token_list(m), key);
}

proof fn lemma_same_index<A, B>(a: Seq<(Seq<char>, A)>, b: Seq<(Seq<char>, B)>, key: Seq<char>)
    requires
        a.len() == b.len(),
        forall|i: int| 0 <= i < a.len() ==> (#[trigger] a[i]).0 == b[i].0,
    ensures
        text_map::key_index(a, key) == text_map::key_index(b, key),
    decreases a.len(),
{
    if a.len() > 0 && a[0].0 != key {
        assert forall|i: int| 0 <= i < a.skip(1).len() implies (#[trigger] a.skip(1)[i]).0
            == b.skip(1)[i].0 by {
            assert(a[i + 1].0 == b[i + 1].0);
        }
        lemma_same_index(a.skip(1), b.skip(1), key);
    }
}

fn put_token(m: &mut TextMap<String>, host: String, token: String)
    requires
        old(m).wf(),
    ensures
        final(m).wf(),
        token_list(*final(m)) == text_map::put(token_list(*old(m)), host@, token@),
{
    let ghost before = *m;
    proof {
        lemma_token_index(before, host@);
        text_map::lemma_key_index(before.list(), host@);
    }
    m.insert(host, token);
    assert(token_list(*m) =~= text_map::put(token_list(before), host@, token@));
}

fn drop_token(m: &mut TextMap<String>, host: &str)
    requires
        old(m).wf(),
    ensures
        final(m).wf(),
        token_list(*final(m)) == text_map::taken_out(token_list(*old(m)), host@),
{
    let ghost before = *m;
    proof {
        lemma_token_index(before, host@);
        text_map::lemma_key_index(before.list(), host@);
    }
    m.remove(host);
    assert(token_list(*m) =~= text_map::taken_out(token_list(before), host@));
}

/// Handle an action from the token dialog, once the keychain has done its part; `stored` says
/// whether it took the token.
pub fn handle_token_action(
    action: TokenDialogAction,
    stored: bool,
    tokens: &mut TokenConfig,
    toasts: &mut ToastManager,
)
    requires
        old(tokens).gitlab_tokens.wf(),
    ensures
        final(tokens).gitlab_tokens.wf(),
        tokens_after(*old(tokens), action, stored, *final(tokens)),
        final(toasts)@ == (if action is Close {
            old(toasts)@
        } else {
            old(toasts)@.push(toast::success(token_text(action, stored)))
        }),
{
    match action {
        TokenDialogAction::Close => {},
        TokenDialogAction::SetGitHubToken(token) => {
            if token.as_str().is_empty() {
                tokens.github_token = None;
                toasts.push("GitHub token removed".to_owned(), ToastSeverity::Success);
            } else if stored {
                tokens.github_token = None;
                toasts.push("GitHub token saved to keychain".to_owned(), ToastSeverity::Success);
            } else {
                tokens.github_token = Some(token);
                toasts.push(
                    "GitHub token saved to config (keychain unavailable)".to_owned(),
                    ToastSeverity::Success,
                );
            }
        },
        TokenDialogAction::SetGitLabToken(host, token) => {
            let mut s = "GitLab token for ".to_owned();
            s.append(host.as_str());
            s.append(
                if stored {
                    " saved to keychain"
                } else {
                    " saved to config (keychain unavailable)"
                },
            );
            put_token(
                &mut tokens.gitlab_tokens,
                host,
                if stored {
                    "".to_owned()
                } else {
                    token
                },
            );
            toasts.push(s, ToastSeverity::Success);
        },
        TokenDialogAction::RemoveGitLabToken(host) => {
            let mut s = "GitLab token for ".to_owned();
            s.append(host.as_str());
            s.append(" removed");
            drop_token(&mut tokens.gitlab_tokens, host.as_str());
            toasts.push(s, ToastSeverity::Success);
        },
    }
}

/// A token that the keychain took is not kept in the settings.
pub proof fn keychain_tokens_are_not_kept(
    before: TokenConfig,
    host: String,
    token: String,
    after: TokenConfig,
)
    requires
        before.gitlab_tokens.wf(),
        tokens_after(before, TokenDialogAction::SetGitLabToken(host, token), true, after),
    ensures
        ({
            let list = token_list(after.gitlab_tokens);
            let i = text_map::key_index(list, host@);
            i < list.len() && list[i] == (host@, ""@)
        }),
{
    let list = token_list(before.gitlab_tokens);
    assert(text_map::keys_of(list) =~= text_map::keys_of(before.gitlab_tokens.list()));
    text_map::put_is_found(list, host@, ""@);
}

/// Whether tokens are to be moved from the settings to the keychain.
pub fn should_migrate(tokens: &TokenConfig, keychain_available: bool) -> (r: bool)
    ensures
        r == (keychain_available && (tokens.github_token is Some
            || tokens.gitlab_tokens.list().len() > 0)),
{
    keychain_available && (tokens.github_token.is_some() || !tokens.gitlab_tokens.is_empty())
}

/// Clear the tokens in the settings after they were moved, but keep the hosts as a registry.
pub fn clear_migrated(tokens: &mut TokenConfig, migrated: usize)
    requires
        old(tokens).gitlab_tokens.wf(),
    ensures
        final(tokens).gitlab_tokens.wf(),
        if migrated > 0 {
            &&& final(tokens).github_token is None
            &&& token_list(final(tokens).gitlab_tokens) == Seq::new(
                old(tokens).gitlab_tokens.list().len(),
                |i: int| (old(tokens).gitlab_tokens.list()[i].0, ""@),
            )
        } else {
            *final(tokens) == *old(tokens)
        },
{
    if migrated == 0 {
        return;
    }
    tokens.github_token = None;
    let ghost before = tokens.gitlab_tokens.list();
    let n: usize = tokens.gitlab_tokens.len();
    let mut i: usize = 0;
    while i < n
        invariant
            i <= n,
            n == before.len(),
            before == old(tokens).gitlab_tokens.list(),
            old(tokens).gitlab_tokens.wf(),
            tokens.gitlab_tokens.wf(),
            tokens.github_token is None,
            tokens.gitlab_tokens.list().len() == n,
            forall|k: int|
                0 <= k < n ==> (#[trigger] tokens.gitlab_tokens.list()[k]).0 == before[k].0,
            forall|k: int| 0 <= k < i ==> (#[trigger] tokens.gitlab_tokens.list()[k]).1@ == ""@,
        decreases n - i,
    {
        let key = tokens.gitlab_tokens.key(i).clone();
        proof {
            let list = tokens.gitlab_tokens.list();
            text_map::lemma_key_index(list, key@);
            assert(text_map::keys_of(list)[i as int] == key@);
            assert(text_map::keys_of(list).contains(key@));
            let p = text_map::key_index(list, key@);
            assert(text_map::keys_of(list)[p] == key@);
            assert(p == i);
        }
        tokens.gitlab_tokens.insert(key, "".to_owned());
        i = i + 1;
    }
    assert(token_list(tokens.gitlab_tokens) =~= Seq::new(
        before.len(),
        |i: int| (before[i].0, ""@),
    ));
}

proof fn lemma_token_keys(m: TextMap<String>)
    requires
        m.wf(),
    ensures
        text_map::keys_of(token_list(m)).no_duplicates(),
{
    assert(text_map::keys_of(token_list(m)) =~= text_map::keys_of(m.list()));
}

/// A token that the keychain did not take is kept in the settings under its host, one that it
/// took is not, and the tokens of other hosts stay as they are; a token that is removed is gone.
pub proof fn tokens_are_kept_where_they_belong(
    before: TokenConfig,
    host: String,
    token: String,
    stored: bool,
    other: Seq<char>,
    set: TokenConfig,
    removed: TokenConfig,
)
    requires
        before.gitlab_tokens.wf(),
        other != host@,
        tokens_after(before, TokenDialogAction::SetGitLabToken(host, token), stored, set),
        tokens_after(before, TokenDialogAction::RemoveGitLabToken(host), stored, removed),
    ensures
        ({
            let a = token_list(before.gitlab_tokens);
            let b = token_list(set.gitlab_tokens);
            let c = token_list(removed.gitlab_tokens);
            let k = text_map::key_index(b, host@);
            let i = text_map::key_index(a, other);
            &&& k < b.len() && !stored ==> b[k] == (host@, token@)
            &&& k < b.len()
            &&& i < a.len() ==> text_map::key_index(b, other) == i && b[i] == a[i]
            &&& !text_map::keys_of(c).contains(host@)
            &&& text_map::keys_of(c).contains(other) <==> text_map::keys_of(a).contains(other)
        }),
        set.github_token == before.github_token,
        removed.github_token == before.github_token,
{
    let a = token_list(before.gitlab_tokens);
    let value = if stored {
        ""@
    } else {
        token@
    };
    lemma_token_keys(before.gitlab_tokens);
    text_map::put_is_found(a, host@, value);
    text_map::put_leaves_other_keys_alone(a, host@, value, other);
    text_map::taken_out_is_gone(a, host@);
    let c = text_map::taken_out(a, host@);
    assert(text_map::keys_of(c).contains(other) <==> (other != host@ && text_map::keys_of(
        a,
    ).contains(other)));
    assert(text_map::keys_of(c).contains(host@) <==> (host@ != host@ && text_map::keys_of(
        a,
    ).contains(host@)));
}

/// The token for GitHub is kept in the settings only where the keychain did not take it, and an
/// empty one is none.
pub proof fn an_empty_token_is_none(
    before: TokenConfig,
    token: String,
    stored: bool,
    after: TokenConfig,
)
    requires
        tokens_after(before, TokenDialogAction::SetGitHubToken(token), stored, after),
    ensures
        token@.len() > 0 && !stored ==> after.github_token is Some && after.github_token->0@
            == token@,
        token@.len() == 0 || stored ==> after.github_token is None,
        after.gitlab_tokens == before.gitlab_tokens,
{
}

/// What became of a token is told: where it was put, or that it was removed.
pub proof fn what_became_of_a_token_is_told(host: String, token: String)
    ensures
        token@.len() > 0 ==> token_text(TokenDialogAction::SetGitHubToken(token), true)
            == "GitHub token saved to keychain"@,
        token@.len() > 0 ==> token_text(TokenDialogAction::SetGitHubToken(token), false)
            == "GitHub token saved to config (keychain unavailable)"@,
        token@.len() == 0 ==> token_text(TokenDialogAction::SetGitHubToken(token), true)
            == "GitHub token removed"@,
        token_text(TokenDialogAction::SetGitLabToken(host, token), true) == "GitLab token for "@
            + host@ + " saved to keychain"@,
        token_text(TokenDialogAction::SetGitLabToken(host, token), false) == "GitLab token for "@
            + host@ + " saved to config (keychain unavailable)"@,
        token_text(TokenDialogAction::RemoveGitLabToken(host), true) == "GitLab token for "@ + host@
            + " removed"@,
        is_set(Some(token@)) <==> token@.len() > 0,
        !is_set(None),
{
}

} // verus!
