//! The user's settings, as far as they are not measures.

use crate::ai::Assistant;
use crate::order::{self, sort, Order};
use crate::text::{self, same, text_before};
use vstd::prelude::*;
use vstd::string::*;

verus! {

/// The user's settings.
#[derive(Debug)]
pub struct Config {
    pub avatars_enabled: bool,
    pub fast_scroll: bool,
    pub shortcut_bar_visible: bool,
    pub recent_repos: Vec<String>,
    pub abbreviate_worktree_names: bool,
    pub show_orphaned_commits: bool,
    pub ratchet_scroll: bool,
    pub ai_provider: String,
    /// Registered GitLab hosts (e.g. "gitlab.com", "gitlab.company.com").
    /// Just the host registry — the secrets themselves are kept in the keychain.
    pub gitlab_hosts: Vec<String>,
    /// `true` for side-by-side diff view; `false` for unified.
    pub diff_split: bool,
}

/// Maximum number of recent repos to remember
pub const MAX_RECENT_REPOS: usize = 10;

pub fn default_true() -> (r: bool)
    ensures
        r,
{
    true
}

/// The setting that stands for an assistant on the command line.
pub fn default_ai_provider(assistant: &Assistant) -> (r: String)
    ensures
        r@ == assistant.program@ + "-cli"@,
{
    let mut s = assistant.program.clone();
    s.append("-cli");
    s
}

impl Config {
    /// The settings before anything is chosen.
    pub fn initial(assistant: &Assistant) -> (r: Self)
        ensures
            r.avatars_enabled,
            !r.fast_scroll,
            r.shortcut_bar_visible,
            r.recent_repos@.len() == 0,
            r.abbreviate_worktree_names,
            r.show_orphaned_commits,
            r.ratchet_scroll,
            r.ai_provider@ == assistant.program@ + "-cli"@,
            r.gitlab_hosts@.len() == 0,
            !r.diff_split,
    {
        Config {
            avatars_enabled: true,
            fast_scroll: false,
            shortcut_bar_visible: true,
            recent_repos: Vec::new(),
            abbreviate_worktree_names: true,
            show_orphaned_commits: true,
            ratchet_scroll: true,
            ai_provider: default_ai_provider(assistant),
            gitlab_hosts: Vec::new(),
            diff_split: false,
        }
    }
}

/// Where saving the settings went wrong.
#[derive(Debug)]
pub enum SaveFailure {
    NoDirectory,
    NoPath,
    NotCreated(String),
    NotSerialized(String),
    NotWritten(String),
}

impl SaveFailure {
    /// What is said of a failure.
    pub open spec fn text(self) -> Seq<char> {
        match self {
            SaveFailure::NoDirectory => "Could not determine config directory"@,
            SaveFailure::NoPath => "Could not determine config path"@,
            SaveFailure::NotCreated(e) => "Failed to create config dir: "@ + e@,
            SaveFailure::NotSerialized(e) => "Failed to serialize config: "@ + e@,
            SaveFailure::NotWritten(e) => "Failed to save config: "@ + e@,
        }
    }

    /// What is said of a failure.
    pub fn message(&self) -> (r: String)
        ensures
            r@ == self.text(),
    {
        match self {
            SaveFailure::NoDirectory => "Could not determine config directory".to_owned(),
            SaveFailure::NoPath => "Could not determine config path".to_owned(),
            SaveFailure::NotCreated(e) => {
                let mut s = "Failed to create config dir: ".to_owned();
                s.append(e.as_str());
                s
            },
            SaveFailure::NotSerialized(e) => {
                let mut s = "Failed to serialize config: ".to_owned();
                s.append(e.as_str());
                s
            },
            SaveFailure::NotWritten(e) => {
                let mut s = "Failed to save config: ".to_owned();
                s.append(e.as_str());
                s
            },
        }
    }
}

/// Texts in their order.
pub struct ByText {}

impl Order<String> for ByText {
    open spec fn before(a: Seq<char>, b: Seq<char>) -> bool {
        text::before_text(a, b)
    }

    proof fn is_order(a: Seq<char>, b: Seq<char>, c: Seq<char>) {
        text::lemma_text_order(a, b, c);
    }

    fn is_before(a: &String, b: &String) -> (r: bool) {
        text_before(a.as_str(), b.as_str())
    }
}

/// The hosts with one more among them, in their order.
pub open spec fn with_host(hosts: Seq<Seq<char>>, host: Seq<char>) -> Seq<Seq<char>> {
    if hosts.contains(host) {
        hosts
    } else {
        order::sorted::<String, ByText>(hosts.push(host))
    }
}

/// Registering a host: it is known afterwards and no other host is lost or added. Hosts that
/// stood in their order without repeats still do.
pub proof fn hosts_stay_in_order_without_repeats(hosts: Seq<Seq<char>>, host: Seq<char>)
    ensures
        with_host(hosts, host).contains(host),
        forall|h: Seq<char>| #[trigger]
            with_host(hosts, host).contains(h) <==> hosts.contains(h) || h == host,
        order::in_order::<String, ByText>(hosts) ==> order::in_order::<String, ByText>(
            with_host(hosts, host),
        ),
        hosts.no_duplicates() ==> with_host(hosts, host).no_duplicates(),
{
    broadcast use vstd::seq_lib::group_to_multiset_ensures;

    if !hosts.contains(host) {
        let more = hosts.push(host);
        let out = with_host(hosts, host);
        order::sorting_keeps_values_and_orders_them::<String, ByText>(more);
        assert forall|h: Seq<char>| #[trigger] out.contains(h) <==> hosts.contains(h) || h
            == host by {
            assert(out.to_multiset().count(h) == more.to_multiset().count(h));
            if out.contains(h) {
                assert(more.contains(h));
                let i = choose|i: int| 0 <= i < more.len() && more[i] == h;
                if i < hosts.len() {
                    assert(hosts[i] == h);
                }
            }
            if hosts.contains(h) {
                let i = choose|i: int| 0 <= i < hosts.len() && hosts[i] == h;
                assert(more[i] == h);
            }
            if h == host {
                assert(more[hosts.len() as int] == h);
            }
        }
        if hosts.no_duplicates() {
            assert(more.no_duplicates());
            more.lemma_multiset_has_no_duplicates();
            assert forall|x: Seq<char>| out.to_multiset().contains(x) implies #[trigger] out.to_multiset().count(
                x,
            ) == 1 by {
                assert(more.to_multiset().contains(x));
            }
            out.lemma_multiset_has_no_duplicates_conv();
        }
    }
}

/// The paths without `path`.
pub open spec fn other_paths(paths: Seq<Seq<char>>, path: Seq<char>) -> Seq<Seq<char>>
    decreases paths.len(),
{
    if paths.len() == 0 {
        Seq::empty()
    } else if paths.last() == path {
        other_paths(paths.drop_last(), path)
    } else {
        other_paths(paths.drop_last(), path).push(paths.last())
    }
}

/// The paths with `path` before all others.
pub open spec fn moved_up(paths: Seq<Seq<char>>, path: Seq<char>) -> Seq<Seq<char>> {
    seq![path] + other_paths(paths, path)
}

/// The first of a list, as many as are remembered.
pub open spec fn remembered(paths: Seq<Seq<char>>) -> Seq<Seq<char>> {
    if paths.len() > MAX_RECENT_REPOS {
        paths.take(MAX_RECENT_REPOS as int)
    } else {
        paths
    }
}

proof fn lemma_other_paths(paths: Seq<Seq<char>>, path: Seq<char>)
    ensures
        forall|p: Seq<char>| #[trigger]
            other_paths(paths, path).contains(p) <==> paths.contains(p) && p != path,
        paths.no_duplicates() ==> other_paths(paths, path).no_duplicates(),
    decreases paths.len(),
{
    if paths.len() > 0 {
        let rest = paths.drop_last();
        lemma_other_paths(rest, path);
        let o = other_paths(rest, path);
        let all = other_paths(paths, path);
        assert forall|p: Seq<char>| #[trigger] all.contains(p) <==> paths.contains(p) && p
            != path by {
            if all.contains(p) {
                let i = choose|i: int| 0 <= i < all.len() && all[i] == p;
                if i < o.len() {
                    assert(o[i] == p);
                    assert(o.contains(p));
                    let k = choose|k: int| 0 <= k < rest.len() && rest[k] == p;
                    assert(paths[k] == p);
                } else {
                    assert(paths[paths.len() - 1] == p);
                }
            }
            if paths.contains(p) && p != path {
                let k = choose|k: int| 0 <= k < paths.len() && paths[k] == p;
                if k < rest.len() {
                    assert(rest[k] == p);
                    assert(rest.contains(p));
                    assert(o.contains(p));
                    let i = choose|i: int| 0 <= i < o.len() && o[i] == p;
                    assert(all[i] == p);
                } else {
                    assert(all[all.len() - 1] == p);
                }
            }
        }
        if paths.no_duplicates() {
            assert(rest.no_duplicates());
            assert(!rest.contains(paths.last())) by {
                if rest.contains(paths.last()) {
                    let k = choose|k: int| 0 <= k < rest.len() && rest[k] == paths.last();
                    assert(paths[k] == paths[paths.len() - 1]);
                }
            }
            assert forall|i: int, j: int| 0 <= i < j < all.len() implies all[i] != all[j] by {
                if j < o.len() {
                    assert(o[i] != o[j]);
                } else {
                    assert(o.contains(o[i]));
                }
            }
        }
    }
}

/// A repository that was opened comes first; no other is lost and none occurs twice. Of all
/// that are known no more than the limit are remembered, the most recent ones.
pub proof fn recent_repos_are_newest_first(paths: Seq<Seq<char>>, path: Seq<char>)
    ensures
        moved_up(paths, path)[0] == path,
        forall|p: Seq<char>| #[trigger]
            moved_up(paths, path).contains(p) <==> paths.contains(p) || p == path,
        paths.no_duplicates() ==> moved_up(paths, path).no_duplicates(),
        remembered(moved_up(paths, path)).len() <= MAX_RECENT_REPOS,
        remembered(moved_up(paths, path))[0] == path,
{
    lemma_other_paths(paths, path);
    let o = other_paths(paths, path);
    let m = moved_up(paths, path);
    assert forall|p: Seq<char>| #[trigger] m.contains(p) <==> paths.contains(p) || p == path by {
        if m.contains(p) {
            let i = choose|i: int| 0 <= i < m.len() && m[i] == p;
            if i > 0 {
                assert(o[i - 1] == p);
                assert(o.contains(p));
            }
        }
        if paths.contains(p) && p != path {
            assert(o.contains(p));
            let i = choose|i: int| 0 <= i < o.len() && o[i] == p;
            assert(m[i + 1] == p);
        }
        if p == path {
            assert(m[0] == p);
        }
    }
    if paths.no_duplicates() {
        assert forall|i: int, j: int| 0 <= i < j < m.len() implies m[i] != m[j] by {
            assert(m[j] == o[j - 1]);
            assert(o.contains(o[j - 1]));
            if i > 0 {
                assert(m[i] == o[i - 1]);
            }
        }
    }
}

impl Config {
    /// Register `host` (e.g. "gitlab.com") if not already known. Returns
    /// `true` when the registry changed so the caller can persist.
    /// Hosts are kept sorted to give the modal a stable display order.
    pub fn register_gitlab_host(&mut self, host: &str) -> (r: bool)
        ensures
            r == !text::views(old(self).gitlab_hosts@).contains(host@),
            text::views(final(self).gitlab_hosts@) == with_host(
                text::views(old(self).gitlab_hosts@),
                host@,
            ),
            *final(self) == (Config { gitlab_hosts: final(self).gitlab_hosts, ..*old(self) }),
    {
        let ghost v = text::views(self.gitlab_hosts@);
        let mut i: usize = 0;
        while i < self.gitlab_hosts.len()
            invariant
                i <= self.gitlab_hosts.len(),
                v == text::views(self.gitlab_hosts@),
                forall|k: int| 0 <= k < i ==> #[trigger] v[k] != host@,
                *self == *old(self),
            decreases self.gitlab_hosts.len() - i,
        {
            if same(self.gitlab_hosts[i].as_str(), host) {
                assert(v[i as int] == host@);
                return false;
            }
            i = i + 1;
        }
        let mut hosts: Vec<String> = Vec::new();
        std::mem::swap(&mut hosts, &mut self.gitlab_hosts);
        let one = host.to_owned();
        hosts.push(one);
        assert(text::views(hosts@) =~= v.push(host@));
        self.gitlab_hosts = sort::<String, ByText>(hosts);
        true
    }

    /// Put a repo path before all others in the list of recent repositories. The list is then
    /// to be compacted and handed to `refresh_recent_repos`.
    pub fn add_recent_repo(&mut self, path: &str)
        ensures
            text::views(final(self).recent_repos@) == moved_up(
                text::views(old(self).recent_repos@),
                path@,
            ),
            *final(self) == (Config { recent_repos: final(self).recent_repos, ..*old(self) }),
    {
        let mut taken: Vec<String> = Vec::new();
        std::mem::swap(&mut taken, &mut self.recent_repos);
        let ghost all = text::views(taken@);
        let mut list: Vec<String> = Vec::new();
        list.push(path.to_owned());
        assert(text::views(list@) =~= seq![path@] + other_paths(all.take(0), path@));
        let mut i: usize = 0;
        while i < taken.len()
            invariant
                i <= taken.len(),
                all == text::views(taken@),
                text::views(list@) == seq![path@] + other_paths(all.take(i as int), path@),
            decreases taken.len() - i,
        {
            proof {
                assert(all.take(i + 1).drop_last() =~= all.take(i as int));
                assert(all.take(i + 1).last() == taken@[i as int]@);
            }
            if !same(taken[i].as_str(), path) {
                let ghost before = list@;
                let p = taken[i].clone();
                list.push(p);
                assert(text::views(list@) =~= text::views(before).push(p@));
            }
            i = i + 1;
            assert(text::views(list@) =~= seq![path@] + other_paths(all.take(i as int), path@));
        }
        assert(all.take(all.len() as int) =~= all);
        self.recent_repos = list;
    }

    /// Remember the first of a compacted list of repositories. Returns whether the list is
    /// another one now, so that it has to be saved.
    pub fn refresh_recent_repos(&mut self, compacted: Vec<String>) -> (r: bool)
        ensures
            text::views(final(self).recent_repos@) == remembered(text::views(compacted@)),
            r == (remembered(text::views(compacted@)) != text::views(old(self).recent_repos@)),
            *final(self) == (Config { recent_repos: final(self).recent_repos, ..*old(self) }),
    {
        let ghost all = text::views(compacted@);
        let ghost known = text::views(self.recent_repos@);
        let mut list = compacted;
        if list.len() > MAX_RECENT_REPOS {
            list.truncate(MAX_RECENT_REPOS);
        }
        let ghost kept = text::views(list@);
        assert(kept =~= remembered(all));
        let mut changed = list.len() != self.recent_repos.len();
        let mut i: usize = 0;
        while i < list.len() && i < self.recent_repos.len()
            invariant
                i <= list.len(),
                i <= self.recent_repos.len(),
                kept == text::views(list@),
                known == text::views(self.recent_repos@),
                *self == *old(self),
                changed <==> (list.len() != self.recent_repos.len() || exists|k: int|
                    0 <= k < i && #[trigger] kept[k] != known[k]),
            decreases list.len() - i,
        {
            if !same(list[i].as_str(), self.recent_repos[i].as_str()) {
                assert(kept[i as int] != known[i as int]);
                changed = true;
            }
            i = i + 1;
        }
        proof {
            if !changed {
                assert(kept =~= known);
            }
        }
        self.recent_repos = list;
        changed
    }
}

/// Opening a repository puts it first and leaves the others in their order; of all that were
/// opened the newest ten are remembered, and where there are no more, all of them.
pub proof fn the_newest_ten_are_remembered(paths: Seq<Seq<char>>, path: Seq<char>)
    ensures
        moved_up(paths, path) == seq![path] + paths.filter(|p: Seq<char>| p != path),
        remembered(paths).is_prefix_of(paths),
        paths.len() <= 10 ==> remembered(paths) == paths,
        paths.len() > 10 ==> remembered(paths).len() == 10,
{
    lemma_other_paths_filtered(paths, path);
    assert(paths.take(paths.len() as int) =~= paths);
}

proof fn lemma_other_paths_filtered(paths: Seq<Seq<char>>, path: Seq<char>)
    ensures
        other_paths(paths, path) == paths.filter(|p: Seq<char>| p != path),
    decreases paths.len(),
{
    reveal(Seq::filter);
    if paths.len() > 0 {
        lemma_other_paths_filtered(paths.drop_last(), path);
    }
}

} // verus!
