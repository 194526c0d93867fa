//! What continuous integration says of commits, whichever provider reports it.

use crate::order::{self, sort, Order};
use crate::text;
use crate::text_map::{self, TextMap};
use vstd::prelude::*;

verus! {

#[derive(Debug, Clone, Copy, PartialEq, Eq, Structural)]
pub enum CiProvider {
    GitHub,
    GitLab,
}

impl CiProvider {
    /// The place of the provider among all providers.
    pub open spec fn rank(self) -> int {
        match self {
            CiProvider::GitHub => 0,
            CiProvider::GitLab => 1,
        }
    }

    /// Short provider label used in compact badges.
    pub fn short_label(&self) -> (r: &'static str)
        ensures
            r@ == (match *self {
                CiProvider::GitHub => "GH"@,
                CiProvider::GitLab => "GL"@,
            }),
    {
        match self {
            CiProvider::GitHub => "GH",
            CiProvider::GitLab => "GL",
        }
    }

    /// Stable sort key, so that providers always stand in one order.
    pub fn sort_key(&self) -> (r: u8)
        ensures
            r == self.rank(),
    {
        match self {
            CiProvider::GitHub => 0,
            CiProvider::GitLab => 1,
        }
    }
}

#[derive(Debug, Clone, Copy, PartialEq, Eq, Structural)]
pub enum CiState {
    Success,
    Failure,
    Pending,
    Absent,
}

impl Default for CiState {
    fn default() -> (r: Self)
        ensures
            r == CiState::Absent,
    {
        CiState::Absent
    }
}

/// How often `x` stands in `s`.
pub open spec fn tally(s: Seq<CiState>, x: CiState) -> nat
    decreases s.len(),
{
    if s.len() == 0 {
        0
    } else {
        tally(s.drop_last(), x) + if s.last() == x {
            1nat
        } else {
            0nat
        }
    }
}

#[derive(Debug, Clone, Copy, PartialEq, Eq, Structural)]
pub struct CiCounts {
    pub success: usize,
    pub failure: usize,
    pub pending: usize,
}

impl Default for CiCounts {
    fn default() -> (r: Self)
        ensures
            r == (CiCounts { success: 0, failure: 0, pending: 0 }),
    {
        CiCounts { success: 0, failure: 0, pending: 0 }
    }
}

impl CiCounts {
    /// Whether the counts are those of `states`.
    pub open spec fn counts(self, states: Seq<CiState>) -> bool {
        &&& self.success == tally(states, CiState::Success)
        &&& self.failure == tally(states, CiState::Failure)
        &&& self.pending == tally(states, CiState::Pending)
    }

    /// The state that the counts amount to: failure before pending before success.
    pub open spec fn overall(self) -> CiState {
        if self.failure > 0 {
            CiState::Failure
        } else if self.pending > 0 {
            CiState::Pending
        } else if self.success > 0 {
            CiState::Success
        } else {
            CiState::Absent
        }
    }

    pub fn total(&self) -> (r: usize)
        requires
            self.success + self.failure + self.pending <= usize::MAX,
        ensures
            r == self.success + self.failure + self.pending,
    {
        self.success + self.failure + self.pending
    }

    /// Counts how often each state occurs.
    pub fn from_states(states: &[CiState]) -> (r: Self)
        ensures
            r.counts(states@),
            r.success + r.failure + r.pending <= states.len(),
    {
        let mut counts = CiCounts { success: 0, failure: 0, pending: 0 };
        let mut i: usize = 0;
        while i < states.len()
            invariant
                i <= states.len(),
                counts.counts(states@.take(i as int)),
                counts.success + counts.failure + counts.pending <= i,
            decreases states.len() - i,
        {
            assert(states@.take(i + 1).drop_last() =~= states@.take(i as int));
            match states[i] {
                CiState::Success => {
                    counts.success = counts.success + 1;
                },
                CiState::Failure => {
                    counts.failure = counts.failure + 1;
                },
                CiState::Pending => {
                    counts.pending = counts.pending + 1;
                },
                CiState::Absent => {},
            }
            i = i + 1;
        }
        assert(states@.take(states@.len() as int) =~= states@);
        counts
    }

    pub fn overall_state(&self) -> (r: CiState)
        ensures
            r == self.overall(),
    {
        if self.failure > 0 {
            CiState::Failure
        } else if self.pending > 0 {
            CiState::Pending
        } else if self.success > 0 {
            CiState::Success
        } else {
            CiState::Absent
        }
    }
}

/// The overall state of some states is a failure where one of them is, else pending where
/// one is, else success where one is, and none only where no check has a state.
pub proof fn overall_state_is_the_most_urgent(counts: CiCounts, states: Seq<CiState>)
    requires
        counts.counts(states),
    ensures
        counts.overall() == CiState::Failure <==> states.contains(CiState::Failure),
        counts.overall() == CiState::Pending <==> states.contains(CiState::Pending)
            && !states.contains(CiState::Failure),
        counts.overall() == CiState::Success <==> states.contains(CiState::Success)
            && !states.contains(CiState::Failure) && !states.contains(CiState::Pending),
        counts.overall() == CiState::Absent <==> (forall|i: int|
            0 <= i < states.len() ==> states[i] == CiState::Absent),
{
    lemma_tally_positive(states, CiState::Failure);
    lemma_tally_positive(states, CiState::Pending);
    lemma_tally_positive(states, CiState::Success);
    if counts.overall() == CiState::Absent {
        assert forall|i: int| 0 <= i < states.len() implies states[i] == CiState::Absent by {
            if states[i] == CiState::Failure {
                assert(states.contains(CiState::Failure));
            } else if states[i] == CiState::Pending {
                assert(states.contains(CiState::Pending));
            } else if states[i] == CiState::Success {
                assert(states.contains(CiState::Success));
            }
        }
    }
}

proof fn lemma_tally_positive(s: Seq<CiState>, x: CiState)
    ensures
        tally(s, x) > 0 <==> s.contains(x),
    decreases s.len(),
{
    if s.len() > 0 {
        lemma_tally_positive(s.drop_last(), x);
        if s.contains(x) {
            let i = choose|i: int| 0 <= i < s.len() && s[i] == x;
            if i < s.len() - 1 {
                assert(s.drop_last()[i] == x);
            }
        }
        if s.drop_last().contains(x) {
            let i = choose|i: int| 0 <= i < s.drop_last().len() && s.drop_last()[i] == x;
            assert(s[i] == x);
        }
        if s.last() == x {
            assert(s[s.len() - 1] == x);
        }
    }
}

#[derive(Debug)]
pub struct CiCheckStatus {
    pub label: String,
    pub state: CiState,
    pub url: Option<String>,
}

/// A check by its views.
pub struct CheckView {
    pub label: Seq<char>,
    pub state: CiState,
    pub url: Option<Seq<char>>,
}

impl View for CiCheckStatus {
    type V = CheckView;

    open spec fn view(&self) -> CheckView {
        CheckView { label: self.label@, state: self.state, url: text::opt_view(self.url) }
    }
}

impl Clone for CiCheckStatus {
    fn clone(&self) -> (r: Self)
        ensures
            r@ == self@,
    {
        CiCheckStatus { label: self.label.clone(), state: self.state, url: self.url.clone() }
    }
}

#[derive(Debug)]
pub struct CiCommitRollup {
    pub counts: CiCounts,
    pub checks: Vec<CiCheckStatus>,
}

/// A rollup by its views.
#[verifier::ext_equal]
pub struct RollupView {
    pub counts: CiCounts,
    pub checks: Seq<CheckView>,
}

impl View for CiCommitRollup {
    type V = RollupView;

    open spec fn view(&self) -> RollupView {
        RollupView { counts: self.counts, checks: text::views(self.checks@) }
    }
}

impl Default for CiCommitRollup {
    fn default() -> (r: Self)
        ensures
            r.counts == (CiCounts { success: 0, failure: 0, pending: 0 }),
            r.checks@ == Seq::<CiCheckStatus>::empty(),
    {
        CiCommitRollup { counts: CiCounts { success: 0, failure: 0, pending: 0 }, checks: Vec::new() }
    }
}

impl Clone for CiCommitRollup {
    fn clone(&self) -> (r: Self)
        ensures
            r@ == self@,
    {
        let mut checks: Vec<CiCheckStatus> = Vec::new();
        let mut i: usize = 0;
        while i < self.checks.len()
            invariant
                i <= self.checks.len(),
                text::views(checks@) == text::views(self.checks@).take(i as int),
            decreases self.checks.len() - i,
        {
            let ghost before = checks@;
            let one = self.checks[i].clone();
            checks.push(one);
            assert(text::views(checks@) =~= text::views(before).push(one@));
            i = i + 1;
            assert(text::views(checks@) =~= text::views(self.checks@).take(i as int));
        }
        assert(text::views(checks@) =~= text::views(self.checks@));
        CiCommitRollup { counts: self.counts, checks }
    }
}

#[derive(Debug)]
pub struct CiStatus {
    pub state: CiState,
    /// Human-readable summary (e.g. "CI passed" or "2/3 checks passed")
    pub summary: String,
    /// URL to open in browser for details
    pub url: Option<String>,
    pub counts: Option<CiCounts>,
}

/// A status by its views.
pub struct StatusView {
    pub state: CiState,
    pub summary: Seq<char>,
    pub url: Option<Seq<char>>,
    pub counts: Option<CiCounts>,
}

impl View for CiStatus {
    type V = StatusView;

    open spec fn view(&self) -> StatusView {
        StatusView {
            state: self.state,
            summary: self.summary@,
            url: text::opt_view(self.url),
            counts: self.counts,
        }
    }
}

pub struct ProviderCiResult {
    pub provider: CiProvider,
    /// Branch-level summary (header bar indicator).
    pub status: CiStatus,
    /// Per-commit provider rollups for compact commit-row rendering.
    pub per_commit_rollups: TextMap<CiCommitRollup>,
}

/// A result stands for itself.
impl View for ProviderCiResult {
    type V = ProviderCiResult;

    open spec fn view(&self) -> ProviderCiResult {
        *self
    }
}

#[derive(Debug)]
pub struct ProviderCommitRollup {
    pub provider: CiProvider,
    pub rollup: CiCommitRollup,
}

/// A provider's rollup by its views.
#[verifier::ext_equal]
pub struct ProviderRollupView {
    pub provider: CiProvider,
    pub rollup: RollupView,
}

impl View for ProviderCommitRollup {
    type V = ProviderRollupView;

    open spec fn view(&self) -> ProviderRollupView {
        ProviderRollupView { provider: self.provider, rollup: self.rollup@ }
    }
}

/// The order of providers.
pub struct ByProvider;

impl Order<ProviderCommitRollup> for ByProvider {
    open spec fn before(a: ProviderRollupView, b: ProviderRollupView) -> bool {
        a.provider.rank() < b.provider.rank()
    }

    proof fn is_order(a: ProviderRollupView, b: ProviderRollupView, c: ProviderRollupView) {
    }

    fn is_before(a: &ProviderCommitRollup, b: &ProviderCommitRollup) -> (r: bool) {
        a.provider.sort_key() < b.provider.sort_key()
    }
}

/// The rollups for `sha`, one of each provider that has one, in the order of the providers.
pub open spec fn rollups_for(providers: Seq<ProviderCiResult>, sha: Seq<char>) -> Seq<
    ProviderRollupView,
>
    decreases providers.len(),
{
    if providers.len() == 0 {
        Seq::empty()
    } else {
        let p = providers.last();
        let rest = rollups_for(providers.drop_last(), sha);
        if p.per_commit_rollups.has(sha) {
            rest.push(
                ProviderRollupView {
                    provider: p.provider,
                    rollup: p.per_commit_rollups.at(sha)@,
                },
            )
        } else {
            rest
        }
    }
}

/// Whether some provider has a rollup for `sha`.
pub open spec fn sha_known(providers: Seq<ProviderCiResult>, sha: Seq<char>) -> bool {
    exists|i: int|
        0 <= i < providers.len() && (#[trigger] providers[i]).per_commit_rollups.has(sha)
}

pub struct CiFetchResult {
    pub providers: Vec<ProviderCiResult>,
}

impl CiFetchResult {
    fn rollups_of(&self, sha: &str) -> (r: Vec<ProviderCommitRollup>)
        ensures
            text::views(r@) == rollups_for(self.providers@, sha@),
    {
        let mut found: Vec<ProviderCommitRollup> = Vec::new();
        let mut i: usize = 0;
        assert(text::views(found@) =~= rollups_for(self.providers@.take(0), sha@));
        while i < self.providers.len()
            invariant
                i <= self.providers.len(),
                text::views(found@) == rollups_for(self.providers@.take(i as int), sha@),
            decreases self.providers.len() - i,
        {
            let ghost before = found@;
            assert(self.providers@.take(i + 1).drop_last() =~= self.providers@.take(i as int));
            let p = &self.providers[i];
            if let Some(rollup) = p.per_commit_rollups.get(sha) {
                let one = ProviderCommitRollup { provider: p.provider, rollup: rollup.clone() };
                found.push(one);
                assert(text::views(found@) =~= text::views(before).push(one@));
            }
            i = i + 1;
        }
        assert(self.providers@.take(self.providers@.len() as int) =~= self.providers@);
        found
    }

    /// Group per-commit rollups by SHA with provider attribution: for each commit that some
    /// provider knows, its rollups in the order of the providers.
    pub fn per_commit_provider_rollups(&self) -> (r: TextMap<Vec<ProviderCommitRollup>>)
        ensures
            r.wf(),
            forall|sha: Seq<char>| #[trigger] r.has(sha) <==> sha_known(self.providers@, sha),
            forall|sha: Seq<char>| #[trigger] r.has(sha) ==> text::views(r.at(sha)@) == order::sorted::<
                ProviderCommitRollup,
                ByProvider,
            >(rollups_for(self.providers@, sha)),
    {
        let mut r: TextMap<Vec<ProviderCommitRollup>> = TextMap::new();
        let mut i: usize = 0;
        while i < self.providers.len()
            invariant
                i <= self.providers.len(),
                r.wf(),
                forall|sha: Seq<char>| #[trigger]
                    r.has(sha) <==> sha_known(self.providers@.take(i as int), sha),
                forall|sha: Seq<char>| #[trigger] r.has(sha) ==> text::views(r.at(sha)@) == order::sorted::<
                    ProviderCommitRollup,
                    ByProvider,
                >(rollups_for(self.providers@, sha)),
            decreases self.providers.len() - i,
        {
            let m = &self.providers[i].per_commit_rollups;
            let ghost start = r;
            let mut j: usize = 0;
            while j < m.len()
                invariant
                    j <= m.list().len(),
                    r.wf(),
                    forall|sha: Seq<char>| #[trigger]
                        r.has(sha) <==> start.has(sha) || text_map::keys_of(m.list()).take(
                            j as int,
                        ).contains(sha),
                    forall|sha: Seq<char>| #[trigger] r.has(sha) ==> text::views(r.at(sha)@)
                        == order::sorted::<ProviderCommitRollup, ByProvider>(
                        rollups_for(self.providers@, sha),
                    ),
                decreases m.list().len() - j,
            {
                let sha = m.key(j);
                let ghost before = r;
                let ghost keys = text_map::keys_of(m.list());
                proof {
                    assert(keys.take(j + 1) =~= keys.take(j as int).push(sha@));
                    lemma_push_contains(keys.take(j as int), sha@);
                }
                if r.get(sha.as_str()).is_none() {
                    let group = sort::<ProviderCommitRollup, ByProvider>(
                        self.rollups_of(sha.as_str()),
                    );
                    proof {
                        text_map::put_is_found(r.list(), sha@, group);
                        lemma_other_keys_keep(r.list(), sha@, group);
                    }
                    r.insert(sha.clone(), group);
                    assert forall|s: Seq<char>| #[trigger] r.has(s) implies text::views(r.at(s)@)
                        == order::sorted::<ProviderCommitRollup, ByProvider>(
                        rollups_for(self.providers@, s),
                    ) by {
                        assert(text_map::keys_of(r.list()).contains(s));
                        if s != sha@ {
                            assert(before.has(s));
                            assert(text_map::put(before.list(), sha@, group)[text_map::key_index(r.list(), s)]
                                == before.list()[text_map::key_index(before.list(), s)]);
                        }
                    }
                }
                assert forall|s: Seq<char>| #[trigger]
                    r.has(s) <==> start.has(s) || keys.take(j + 1).contains(s) by {
                    assert(r.has(s) <==> before.has(s) || s == sha@) by {
                        assert(text_map::keys_of(r.list()).contains(s) <==> r.has(s));
                    }
                }
                j = j + 1;
            }
            proof {
                assert(text_map::keys_of(m.list()).take(m.list().len() as int) =~= text_map::keys_of(m.list()));
                let now = self.providers@.take(i + 1);
                let old_list = self.providers@.take(i as int);
                assert(now =~= old_list.push(self.providers@[i as int]));
                assert forall|sha: Seq<char>| #[trigger]
                    r.has(sha) <==> sha_known(now, sha) by {
                    if sha_known(old_list, sha) {
                        let k = choose|k: int|
                            0 <= k < old_list.len() && (
                            #[trigger] old_list[k]).per_commit_rollups.has(sha);
                        assert(now[k].per_commit_rollups.has(sha));
                    }
                    if m.has(sha) {
                        assert(now[i as int].per_commit_rollups.has(sha));
                    }
                    if sha_known(now, sha) {
                        let k = choose|k: int|
                            0 <= k < now.len() && (#[trigger] now[k]).per_commit_rollups.has(sha);
                        if k < i {
                            assert(old_list[k].per_commit_rollups.has(sha));
                        }
                    }
                }
            }
            i = i + 1;
        }
        assert(self.providers@.take(self.providers@.len() as int) =~= self.providers@);
        r
    }
}

proof fn lemma_push_contains<A>(s: Seq<A>, x: A)
    ensures
        forall|y: A| #[trigger] s.push(x).contains(y) <==> s.contains(y) || y == x,
{
    assert forall|y: A| #[trigger] s.push(x).contains(y) <==> s.contains(y) || y == x by {
        if s.contains(y) {
            let i = choose|i: int| 0 <= i < s.len() && s[i] == y;
            assert(s.push(x)[i] == y);
        }
        assert(s.push(x)[s.len() as int] == x);
        if s.push(x).contains(y) && y != x {
            let i = choose|i: int| 0 <= i < s.push(x).len() && s.push(x)[i] == y;
            assert(s[i] == y);
        }
    }
}

/// Putting a value at a key leaves what is found at the other keys.
pub proof fn lemma_other_keys_keep<V>(s: Seq<(Seq<char>, V)>, key: Seq<char>, value: V)
    requires
        text_map::keys_of(s).no_duplicates(),
    ensures
        forall|other: Seq<char>|
            other != key && text_map::keys_of(s).contains(other) ==> (#[trigger] text_map::put(s, key, value)[text_map::key_index(
                text_map::put(s, key, value),
                other,
            )]) == s[text_map::key_index(s, other)],
{
    let r = text_map::put(s, key, value);
    text_map::lemma_key_index(s, key);
    text_map::put_is_found(s, key, value);
    assert forall|other: Seq<char>| other != key && text_map::keys_of(s).contains(other) implies (
    #[trigger] r[text_map::key_index(r, other)]) == s[text_map::key_index(s, other)] by {
        text_map::lemma_key_index(s, other);
        text_map::lemma_key_index(r, other);
        let a = text_map::key_index(s, other);
        let b = text_map::key_index(r, other);
        assert(r[a] == s[a]);
        if a != b {
            assert(text_map::keys_of(r)[a] == text_map::keys_of(r)[b]);
        }
    }
}

/// The rollups of each commit stand in the order of the providers, and none is lost.
pub proof fn commit_rollups_are_in_provider_order(providers: Seq<ProviderCiResult>, sha: Seq<char>)
    ensures
        ({
            let all = rollups_for(providers, sha);
            let r = order::sorted::<ProviderCommitRollup, ByProvider>(all);
            &&& r.to_multiset() == all.to_multiset()
            &&& forall|i: int, j: int|
                0 <= i < j < r.len() ==> (#[trigger] r[i]).provider.rank() <= (
                #[trigger] r[j]).provider.rank()
        }),
{
    let all = rollups_for(providers, sha);
    order::sorting_keeps_values_and_orders_them::<ProviderCommitRollup, ByProvider>(all);
    let r = order::sorted::<ProviderCommitRollup, ByProvider>(all);
    assert forall|i: int, j: int| 0 <= i < j < r.len() implies (#[trigger] r[i]).provider.rank()
        <= (#[trigger] r[j]).provider.rank() by {
        assert(!ByProvider::before(r[j], r[i]));
    }
}

proof fn lemma_tally(s: Seq<CiState>, x: CiState)
    ensures
        tally(s, x) == s.to_multiset().count(x),
    decreases s.len(),
{
    broadcast use vstd::seq_lib::group_to_multiset_ensures;

    if s.len() > 0 {
        lemma_tally(s.drop_last(), x);
        assert(s =~= s.drop_last().push(s.last()));
    } else {
        assert(s =~= Seq::empty());
    }
}

/// The counts are how often each state is among the states, whatever their order.
pub proof fn counts_are_how_often_states_occur(c: CiCounts, states: Seq<CiState>)
    ensures
        c.counts(states) <==> c.success == states.to_multiset().count(CiState::Success) && c.failure
            == states.to_multiset().count(CiState::Failure) && c.pending
            == states.to_multiset().count(CiState::Pending),
{
    lemma_tally(states, CiState::Success);
    lemma_tally(states, CiState::Failure);
    lemma_tally(states, CiState::Pending);
}

/// Every provider that knows a commit gives it its rollup, and no other does.
pub proof fn every_provider_gives_its_rollup(providers: Seq<ProviderCiResult>, sha: Seq<char>)
    ensures
        rollups_for(providers, sha) == providers.filter_map(
            |p: ProviderCiResult|
                if !p.per_commit_rollups.has(sha) {
                    None
                } else {
                    Some(
                        ProviderRollupView {
                            provider: p.provider,
                            rollup: p.per_commit_rollups.at(sha)@,
                        },
                    )
                },
        ),
    decreases providers.len(),
{
    if providers.len() > 0 {
        every_provider_gives_its_rollup(providers.drop_last(), sha);
    }
}

} // verus!
