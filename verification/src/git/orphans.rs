//! Commits that no branch or tag reaches any more, found through the reflogs.
//!
//! The search never touches the repository itself. It says which commit it has to know of
//! next, and is told what the repository holds there.

use crate::git::{CommitInfo, CommitView};
use crate::oid::Oid;
use crate::order::{self, sort, Order};
use crate::text::{self, push_dec};
use vstd::prelude::*;
use vstd::string::*;

verus! {

/// One entry of a reflog.
pub struct ReflogEntry {
    pub refname: String,
    pub index: usize,
    pub message: String,
    pub id_new: Oid,
    pub id_old: Oid,
}

/// What the repository holds at an id.
pub struct FoundCommit {
    pub info: CommitInfo,
    /// Whether some branch or tag reaches the commit: its tip is the commit itself or one of the
    /// commit's descendants.
    pub reachable: bool,
}

/// How far the search follows the parents of a commit.
pub const MAX_DEPTH: u8 = 10;

/// A commit to be looked at: its id, and where it was met.
pub struct Candidate {
    pub oid: Oid,
    pub label: String,
}

pub struct CandidateView {
    pub oid: Oid,
    pub label: Seq<char>,
}

impl View for Candidate {
    type V = CandidateView;

    open spec fn view(&self) -> CandidateView {
        CandidateView { oid: self.oid, label: self.label@ }
    }
}

/// A parent to be looked at: its id, how many steps led to it, and the commit it is the
/// parent of.
pub struct ParentStep {
    pub oid: Oid,
    pub depth: u8,
    pub child: String,
}

pub struct StepView {
    pub oid: Oid,
    pub depth: u8,
    pub child: Seq<char>,
}

impl View for ParentStep {
    type V = StepView;

    open spec fn view(&self) -> StepView {
        StepView { oid: self.oid, depth: self.depth, child: self.child@ }
    }
}

/// A reflog entry as it is shown.
pub open spec fn entry_label(e: ReflogEntry) -> Seq<char> {
    e.refname@ + "@{"@ + text::dec(e.index as nat) + "}: "@ + e.message@
}

/// Whether one of `s` has the id `oid`.
pub open spec fn has_candidate(s: Seq<CandidateView>, oid: Oid) -> bool {
    exists|i: int| 0 <= i < s.len() && (#[trigger] s[i]).oid == oid
}

/// `s` with `oid` added, unless it is no id, is known already or stands in `s`.
pub open spec fn consider(
    s: Seq<CandidateView>,
    known: Seq<Oid>,
    oid: Oid,
    label: Seq<char>,
) -> Seq<CandidateView> {
    if oid == (Oid { hi: 0, mid: 0, lo: 0 }) || known.contains(oid) || has_candidate(s, oid) {
        s
    } else {
        s.push(CandidateView { oid, label })
    }
}

/// The commits that `entries` name and that are not known, each once, with the entry that
/// names it first.
pub open spec fn candidates_of(entries: Seq<ReflogEntry>, known: Seq<Oid>) -> Seq<CandidateView>
    decreases entries.len(),
{
    if entries.len() == 0 {
        Seq::empty()
    } else {
        let e = entries.last();
        let rest = candidates_of(entries.drop_last(), known);
        consider(
            consider(rest, known, e.id_new, entry_label(e)),
            known,
            e.id_old,
            entry_label(e),
        )
    }
}

/// Whether one of `commits` has the id `oid`.
pub open spec fn has_commit(commits: Seq<CommitView>, oid: Oid) -> bool {
    exists|i: int| 0 <= i < commits.len() && (#[trigger] commits[i]).id == oid
}

/// A commit marked as found through `source`.
pub open spec fn orphan_view(info: CommitView, source: Seq<char>) -> CommitView {
    CommitView { is_orphaned: true, orphan_source: Some(source), ..info }
}

/// The steps to the parents of a commit.
pub open spec fn steps_to_parents(parents: Seq<Oid>, depth: u8, child: Seq<char>) -> Seq<StepView> {
    Seq::new(parents.len(), |i: int| StepView { oid: parents[i], depth, child })
}

/// The steps to the parents of all of `orphans`.
pub open spec fn first_steps(orphans: Seq<CommitView>) -> Seq<StepView>
    decreases orphans.len(),
{
    if orphans.len() == 0 {
        Seq::empty()
    } else {
        let o = orphans.last();
        first_steps(orphans.drop_last()) + steps_to_parents(o.parent_ids, 1, o.short_id)
    }
}

/// Whether a step leads nowhere: too far, to no id, or to a commit that is known or found.
pub open spec fn idle_step(step: StepView, known: Seq<Oid>, orphans: Seq<CommitView>) -> bool {
    ||| step.depth > MAX_DEPTH
    ||| known.contains(step.oid)
    ||| has_commit(orphans, step.oid)
    ||| step.oid == (Oid { hi: 0, mid: 0, lo: 0 })
}

/// `queue` without the steps at its end that lead nowhere.
pub open spec fn without_idle(
    queue: Seq<StepView>,
    known: Seq<Oid>,
    orphans: Seq<CommitView>,
) -> Seq<StepView>
    decreases queue.len(),
{
    if queue.len() > 0 && idle_step(queue.last(), known, orphans) {
        without_idle(queue.drop_last(), known, orphans)
    } else {
        queue
    }
}

/// The state of a search.
pub struct OrphanSearch {
    known: Vec<Oid>,
    candidates: Vec<Candidate>,
    looked_at: usize,
    queue: Vec<ParentStep>,
    orphans: Vec<CommitInfo>,
}

/// The state of a search by its views.
#[verifier::ext_equal]
pub struct SearchView {
    pub known: Seq<Oid>,
    /// The candidates that are still to be looked at.
    pub candidates: Seq<CandidateView>,
    /// The steps that are still to be taken, the next one last.
    pub queue: Seq<StepView>,
    /// The commits found so far.
    pub orphans: Seq<CommitView>,
}

/// What a search has to know of next.
pub open spec fn next_id(s: SearchView) -> Option<Oid> {
    if s.candidates.len() > 0 {
        Some(s.candidates[0].oid)
    } else if s.queue.len() > 0 {
        Some(s.queue.last().oid)
    } else {
        None
    }
}

/// The search after its idle steps were dropped.
pub open spec fn settled(s: SearchView) -> SearchView {
    if s.candidates.len() > 0 {
        s
    } else {
        SearchView { queue: without_idle(s.queue, s.known, s.orphans), ..s }
    }
}

/// The search after it was told what stands at the id it asked for: a commit that is there
/// and not reachable is an orphan. When the last candidate has been looked at, the parents
/// of what was found are next; after that, those of each further orphan.
pub open spec fn told(s: SearchView, found: Option<(CommitView, bool)>) -> SearchView {
    if s.candidates.len() > 0 {
        let c = s.candidates[0];
        let orphans = match found {
            Some((info, reachable)) => if reachable {
                s.orphans
            } else {
                s.orphans.push(orphan_view(info, c.label))
            },
            None => s.orphans,
        };
        SearchView {
            known: s.known,
            candidates: s.candidates.skip(1),
            queue: if s.candidates.len() == 1 {
                first_steps(orphans)
            } else {
                s.queue
            },
            orphans,
        }
    } else {
        let step = s.queue.last();
        match found {
            Some((info, reachable)) => if reachable {
                SearchView { queue: s.queue.drop_last(), ..s }
            } else {
                SearchView {
                    queue: s.queue.drop_last() + steps_to_parents(
                        info.parent_ids,
                        (step.depth + 1) as u8,
                        info.short_id,
                    ),
                    orphans: s.orphans.push(orphan_view(info, "parent of "@ + step.child)),
                    ..s
                }
            },
            None => SearchView { queue: s.queue.drop_last(), ..s },
        }
    }
}

/// An answer by its views.
pub open spec fn answer_view(found: Option<FoundCommit>) -> Option<(CommitView, bool)> {
    match found {
        Some(f) => Some((f.info@, f.reachable)),
        None => None,
    }
}

/// Newest first.
pub struct NewestFirst;

impl Order<CommitInfo> for NewestFirst {
    open spec fn before(a: CommitView, b: CommitView) -> bool {
        a.time > b.time
    }

    proof fn is_order(a: CommitView, b: CommitView, c: CommitView) {
    }

    fn is_before(a: &CommitInfo, b: &CommitInfo) -> (r: bool) {
        a.time > b.time
    }
}

fn is_known(known: &Vec<Oid>, oid: Oid) -> (r: bool)
    ensures
        r == known@.contains(oid),
{
    let mut i: usize = 0;
    while i < known.len()
        invariant
            i <= known.len(),
            forall|j: int| 0 <= j < i ==> known@[j] != oid,
        decreases known.len() - i,
    {
        if known[i] == oid {
            assert(known@[i as int] == oid);
            return true;
        }
        i = i + 1;
    }
    false
}

fn is_candidate(s: &Vec<Candidate>, oid: Oid) -> (r: bool)
    ensures
        r == has_candidate(text::views(s@), oid),
{
    let mut i: usize = 0;
    while i < s.len()
        invariant
            i <= s.len(),
            forall|j: int| 0 <= j < i ==> (#[trigger] text::views(s@)[j]).oid != oid,
        decreases s.len() - i,
    {
        assert(text::views(s@)[i as int].oid == s@[i as int].oid);
        if s[i].oid == oid {
            return true;
        }
        i = i + 1;
    }
    false
}

fn is_found(s: &Vec<CommitInfo>, oid: Oid) -> (r: bool)
    ensures
        r == has_commit(text::views(s@), oid),
{
    let mut i: usize = 0;
    while i < s.len()
        invariant
            i <= s.len(),
            forall|j: int| 0 <= j < i ==> (#[trigger] text::views(s@)[j]).id != oid,
        decreases s.len() - i,
    {
        assert(text::views(s@)[i as int].id == s@[i as int].id);
        if s[i].id == oid {
            return true;
        }
        i = i + 1;
    }
    false
}

fn label_of(e: &ReflogEntry) -> (r: String)
    ensures
        r@ == entry_label(*e),
{
    let mut s = e.refname.clone();
    s.append("@{");
    push_dec(&mut s, e.index as u64);
    s.append("}: ");
    s.append(e.message.as_str());
    s
}

fn add_candidate(s: &mut Vec<Candidate>, known: &Vec<Oid>, oid: Oid, e: &ReflogEntry)
    ensures
        text::views(final(s)@) == consider(
            text::views(old(s)@),
            known@,
            oid,
            entry_label(*e),
        ),
{
    if oid == Oid::zero() || is_known(known, oid) || is_candidate(s, oid) {
        return;
    }
    let c = Candidate { oid, label: label_of(e) };
    let ghost before = s@;
    s.push(c);
    assert(text::views(s@) =~= text::views(before).push(c@));
}

fn push_steps(queue: &mut Vec<ParentStep>, parents: &Vec<Oid>, depth: u8, child: &String)
    ensures
        text::views(final(queue)@) == text::views(old(queue)@) + steps_to_parents(
            parents@,
            depth,
            child@,
        ),
{
    let mut i: usize = 0;
    let ghost start = text::views(queue@);
    let ghost all = steps_to_parents(parents@, depth, child@);
    assert(text::views(queue@) =~= start + all.take(0));
    while i < parents.len()
        invariant
            i <= parents.len(),
            all == steps_to_parents(parents@, depth, child@),
            text::views(queue@) == start + all.take(i as int),
        decreases parents.len() - i,
    {
        let ghost before = queue@;
        let step = ParentStep { oid: parents[i], depth, child: child.clone() };
        queue.push(step);
        assert(text::views(queue@) =~= text::views(before).push(step@));
        i = i + 1;
        assert(text::views(queue@) =~= start + all.take(i as int));
    }
    assert(all.take(all.len() as int) =~= all);
}

impl View for OrphanSearch {
    type V = SearchView;

    closed spec fn view(&self) -> SearchView {
        SearchView {
            known: self.known@,
            candidates: text::views(self.candidates@).skip(self.looked_at as int),
            queue: text::views(self.queue@),
            orphans: text::views(self.orphans@),
        }
    }
}

impl OrphanSearch {
    /// The place reached among the candidates lies among them.
    pub closed spec fn wf(self) -> bool {
        self.looked_at <= self.candidates.len()
    }

    /// A search for commits that `entries` name and that are not among `known`.
    pub fn start(known: Vec<Oid>, entries: &Vec<ReflogEntry>) -> (r: Self)
        ensures
            r.wf(),
            r@ == (SearchView {
                known: known@,
                candidates: candidates_of(entries@, known@),
                queue: Seq::empty(),
                orphans: Seq::empty(),
            }),
    {
        let mut candidates: Vec<Candidate> = Vec::new();
        let mut i: usize = 0;
        assert(text::views(candidates@) =~= candidates_of(entries@.take(0), known@));
        while i < entries.len()
            invariant
                i <= entries.len(),
                text::views(candidates@) == candidates_of(entries@.take(i as int), known@),
            decreases entries.len() - i,
        {
            let e = &entries[i];
            proof {
                assert(entries@.take(i + 1).drop_last() =~= entries@.take(i as int));
                assert(entries@.take(i + 1).last() == *e);
            }
            add_candidate(&mut candidates, &known, e.id_new, e);
            add_candidate(&mut candidates, &known, e.id_old, e);
            i = i + 1;
        }
        assert(entries@.take(entries@.len() as int) =~= entries@);
        let r = OrphanSearch {
            known,
            candidates,
            looked_at: 0,
            queue: Vec::new(),
            orphans: Vec::new(),
        };
        assert(r@ =~= (SearchView {
            known: known@,
            candidates: candidates_of(entries@, known@),
            queue: Seq::empty(),
            orphans: Seq::empty(),
        }));
        r
    }

    /// The id of the commit that the search has to know of next, `None` where it is done.
    pub fn next(&mut self) -> (r: Option<Oid>)
        requires
            old(self).wf(),
        ensures
            final(self).wf(),
            final(self)@ == settled(old(self)@),
            r == next_id(final(self)@),
    {
        if self.looked_at < self.candidates.len() {
            assert(self@.candidates[0] == self.candidates@[self.looked_at as int]@);
            return Some(self.candidates[self.looked_at].oid);
        }
        let ghost start = self@;
        while self.queue.len() > 0
            invariant
                self.wf(),
                start == old(self)@,
                self.looked_at >= self.candidates.len(),
                self@.known == start.known,
                self@.candidates == start.candidates,
                start.candidates.len() == 0,
                self@.orphans == start.orphans,
                without_idle(start.queue, start.known, start.orphans) == without_idle(
                    self@.queue,
                    start.known,
                    start.orphans,
                ),
            decreases self.queue.len(),
        {
            let n: usize = self.queue.len();
            let oid = self.queue[n - 1].oid;
            let depth: u8 = self.queue[n - 1].depth;
            assert(self@.queue.last() == self.queue@[n - 1]@);
            if depth > MAX_DEPTH || is_known(&self.known, oid) || is_found(&self.orphans, oid)
                || oid == Oid::zero() {
                let ghost before = self.queue@;
                let _ = self.queue.pop();
                assert(self@.queue =~= text::views(before).drop_last());
            } else {
                assert(self@ =~= settled(start));
                return Some(oid);
            }
        }
        assert(self@ =~= settled(start));
        None
    }

    /// Takes in what the repository holds at the id that was asked for.
    pub fn tell(&mut self, found: Option<FoundCommit>)
        requires
            old(self).wf(),
            next_id(old(self)@) is Some,
            old(self)@.candidates.len() == 0 ==> old(self)@.queue.last().depth <= MAX_DEPTH,
        ensures
            final(self).wf(),
            final(self)@ == told(old(self)@, answer_view(found)),
    {
        let ghost start = self@;
        let ghost answer = answer_view(found);
        if self.looked_at < self.candidates.len() {
            let at: usize = self.looked_at;
            let ghost old_orphans = self.orphans@;
            assert(start.candidates[0] == self.candidates@[at as int]@);
            if let Some(f) = found {
                if !f.reachable {
                    let mut info = f.info;
                    info.is_orphaned = true;
                    info.orphan_source = Some(self.candidates[at].label.clone());
                    self.orphans.push(info);
                    assert(text::views(self.orphans@) =~= text::views(old_orphans).push(info@));
                }
            }
            self.looked_at = at + 1;
            assert(self@.candidates =~= start.candidates.skip(1));
            if self.looked_at == self.candidates.len() {
                let mut queue: Vec<ParentStep> = Vec::new();
                let mut i: usize = 0;
                let ghost found_all = text::views(self.orphans@);
                assert(text::views(queue@) =~= first_steps(found_all.take(0)));
                while i < self.orphans.len()
                    invariant
                        i <= self.orphans.len(),
                        found_all == text::views(self.orphans@),
                        text::views(queue@) == first_steps(found_all.take(i as int)),
                    decreases self.orphans.len() - i,
                {
                    proof {
                        assert(found_all.take(i + 1).drop_last() =~= found_all.take(i as int));
                        assert(found_all.take(i + 1).last() == self.orphans@[i as int]@);
                    }
                    push_steps(
                        &mut queue,
                        &self.orphans[i].parent_ids,
                        1,
                        &self.orphans[i].short_id,
                    );
                    i = i + 1;
                }
                assert(found_all.take(found_all.len() as int) =~= found_all);
                self.queue = queue;
            }
            assert(self@ =~= told(start, answer));
            return;
        }
        let ghost before = self.queue@;
        let step = self.queue.pop().unwrap();
        assert(text::views(self.queue@) =~= text::views(before).drop_last());
        assert(start.queue.last() == step@);
        if let Some(f) = found {
            if !f.reachable {
                let ghost old_orphans = self.orphans@;
                let mut info = f.info;
                info.is_orphaned = true;
                let mut source = "parent of ".to_owned();
                source.append(step.child.as_str());
                info.orphan_source = Some(source);
                push_steps(&mut self.queue, &info.parent_ids, step.depth + 1, &info.short_id);
                self.orphans.push(info);
                assert(text::views(self.orphans@) =~= text::views(old_orphans).push(info@));
            }
        }
        assert(self@ =~= told(start, answer));
    }

    /// The commits that were found, newest first, at most `max_orphans` of them.
    pub fn finish(self, max_orphans: usize) -> (r: Vec<CommitInfo>)
        ensures
            text::views(r@) == ({
                let all = order::sorted::<CommitInfo, NewestFirst>(self@.orphans);
                if all.len() > max_orphans {
                    all.take(max_orphans as int)
                } else {
                    all
                }
            }),
    {
        let ghost found = text::views(self.orphans@);
        let mut r = sort::<CommitInfo, NewestFirst>(self.orphans);
        let ghost all = r@;
        if r.len() > max_orphans {
            r.truncate(max_orphans);
            assert(text::views(r@) =~= text::views(all).take(max_orphans as int));
        }
        r
    }
}

/// What holds of a search at every point: the commits found are all different, none is known
/// already or no commit at all, each is marked and says where it was found; and no step is
/// longer than one past the longest that is followed.
pub open spec fn sound(s: SearchView) -> bool {
    &&& forall|i: int, j: int|
        0 <= i < j < s.orphans.len() ==> (#[trigger] s.orphans[i]).id != (
        #[trigger] s.orphans[j]).id
    &&& forall|i: int|
        0 <= i < s.orphans.len() ==> {
            &&& !s.known.contains((#[trigger] s.orphans[i]).id)
            &&& s.orphans[i].id != (Oid { hi: 0, mid: 0, lo: 0 })
            &&& s.orphans[i].is_orphaned
            &&& s.orphans[i].orphan_source is Some
        }
    &&& forall|i: int, j: int|
        0 <= i < j < s.candidates.len() ==> (#[trigger] s.candidates[i]).oid != (
        #[trigger] s.candidates[j]).oid
    &&& forall|i: int|
        0 <= i < s.candidates.len() ==> {
            &&& !s.known.contains((#[trigger] s.candidates[i]).oid)
            &&& s.candidates[i].oid != (Oid { hi: 0, mid: 0, lo: 0 })
            &&& !has_commit(s.orphans, s.candidates[i].oid)
        }
    &&& forall|i: int| 0 <= i < s.queue.len() ==> (#[trigger] s.queue[i]).depth <= MAX_DEPTH + 1
}

/// Whether candidates are all different, none known already or no commit at all.
spec fn fresh(c: Seq<CandidateView>, known: Seq<Oid>) -> bool {
    &&& forall|i: int, j: int|
        0 <= i < j < c.len() ==> (#[trigger] c[i]).oid != (#[trigger] c[j]).oid
    &&& forall|i: int|
        0 <= i < c.len() ==> !known.contains((#[trigger] c[i]).oid) && c[i].oid != (Oid {
            hi: 0,
            mid: 0,
            lo: 0,
        })
}

proof fn lemma_consider(c: Seq<CandidateView>, known: Seq<Oid>, oid: Oid, label: Seq<char>)
    requires
        fresh(c, known),
    ensures
        fresh(consider(c, known, oid, label), known),
{
    let r = consider(c, known, oid, label);
    assert forall|i: int, j: int| 0 <= i < j < r.len() implies (#[trigger] r[i]).oid != (
    #[trigger] r[j]).oid by {
        if j == c.len() && has_candidate(c, oid) == false {
            assert(c[i].oid != oid);
        }
    }
}

proof fn lemma_candidates(entries: Seq<ReflogEntry>, known: Seq<Oid>)
    ensures
        fresh(candidates_of(entries, known), known),
    decreases entries.len(),
{
    if entries.len() > 0 {
        let e = entries.last();
        let rest = candidates_of(entries.drop_last(), known);
        lemma_candidates(entries.drop_last(), known);
        lemma_consider(rest, known, e.id_new, entry_label(e));
        lemma_consider(
            consider(rest, known, e.id_new, entry_label(e)),
            known,
            e.id_old,
            entry_label(e),
        );
    }
}

proof fn lemma_first_steps(orphans: Seq<CommitView>)
    ensures
        forall|i: int| 0 <= i < first_steps(orphans).len() ==> (
        #[trigger] first_steps(orphans)[i]).depth == 1,
    decreases orphans.len(),
{
    if orphans.len() > 0 {
        lemma_first_steps(orphans.drop_last());
        let a = first_steps(orphans.drop_last());
        let b = steps_to_parents(orphans.last().parent_ids, 1, orphans.last().short_id);
        assert forall|i: int| 0 <= i < first_steps(orphans).len() implies (
        #[trigger] first_steps(orphans)[i]).depth == 1 by {
            if i < a.len() {
                assert(first_steps(orphans)[i] == a[i]);
            } else {
                assert(first_steps(orphans)[i] == b[i - a.len()]);
            }
        }
    }
}

/// The search begins in a sound state.
pub proof fn search_starts_sound(entries: Seq<ReflogEntry>, known: Seq<Oid>)
    ensures
        sound(
            SearchView {
                known,
                candidates: candidates_of(entries, known),
                queue: Seq::empty(),
                orphans: Seq::empty(),
            },
        ),
{
    lemma_candidates(entries, known);
}

/// Dropping idle steps keeps the search sound, and the step that is then next, where there
/// is one, is not idle.
pub proof fn settling_keeps_sound(s: SearchView)
    requires
        sound(s),
    ensures
        sound(settled(s)),
        s.candidates.len() == 0 && settled(s).queue.len() > 0 ==> !idle_step(
            settled(s).queue.last(),
            s.known,
            s.orphans,
        ),
{
    if s.candidates.len() == 0 {
        lemma_without_idle(s.queue, s.known, s.orphans);
    }
}

proof fn lemma_without_idle(queue: Seq<StepView>, known: Seq<Oid>, orphans: Seq<CommitView>)
    ensures
        ({
            let r = without_idle(queue, known, orphans);
            &&& r.len() <= queue.len()
            &&& r == queue.take(r.len() as int)
            &&& r.len() > 0 ==> !idle_step(r.last(), known, orphans)
        }),
    decreases queue.len(),
{
    if queue.len() > 0 && idle_step(queue.last(), known, orphans) {
        lemma_without_idle(queue.drop_last(), known, orphans);
        let r = without_idle(queue, known, orphans);
        assert(queue.drop_last().take(r.len() as int) =~= queue.take(r.len() as int));
    } else {
        assert(queue.take(queue.len() as int) =~= queue);
    }
}

/// Telling a settled search what stands at the id it asked for keeps it sound.
pub proof fn telling_keeps_sound(s: SearchView, found: Option<(CommitView, bool)>)
    requires
        sound(s),
        next_id(s) is Some,
        s.candidates.len() == 0 ==> !idle_step(s.queue.last(), s.known, s.orphans),
        match found {
            Some((info, reachable)) => next_id(s) == Some(info.id),
            None => true,
        },
    ensures
        sound(told(s, found)),
{
    let t = told(s, found);
    lemma_first_steps(t.orphans);
    if s.candidates.len() > 0 {
        let c = s.candidates[0];
        assert(!has_commit(s.orphans, c.oid));
        assert forall|i: int| 0 <= i < t.candidates.len() implies {
            &&& !t.known.contains((#[trigger] t.candidates[i]).oid)
            &&& t.candidates[i].oid != (Oid { hi: 0, mid: 0, lo: 0 })
            &&& !has_commit(t.orphans, t.candidates[i].oid)
        } by {
            assert(t.candidates[i] == s.candidates[i + 1]);
            assert(s.candidates[0].oid != s.candidates[i + 1].oid);
            assert(!has_commit(s.orphans, s.candidates[i + 1].oid));
            if has_commit(t.orphans, t.candidates[i].oid) {
                let k = choose|k: int|
                    0 <= k < t.orphans.len() && (#[trigger] t.orphans[k]).id
                        == t.candidates[i].oid;
                if k < s.orphans.len() {
                    assert(s.orphans[k].id == t.candidates[i].oid);
                }
            }
        }
        assert forall|i: int, j: int| 0 <= i < j < t.candidates.len() implies (
        #[trigger] t.candidates[i]).oid != (#[trigger] t.candidates[j]).oid by {
            assert(t.candidates[i] == s.candidates[i + 1]);
            assert(t.candidates[j] == s.candidates[j + 1]);
        }
        assert forall|i: int, j: int| 0 <= i < j < t.orphans.len() implies (
        #[trigger] t.orphans[i]).id != (#[trigger] t.orphans[j]).id by {
            assert(t.orphans[i] == s.orphans[i]);
            if j < s.orphans.len() {
                assert(t.orphans[j] == s.orphans[j]);
            } else {
                assert(s.orphans[i].id != c.oid);
            }
        }
        assert forall|i: int| 0 <= i < t.orphans.len() implies {
            &&& !t.known.contains((#[trigger] t.orphans[i]).id)
            &&& t.orphans[i].id != (Oid { hi: 0, mid: 0, lo: 0 })
            &&& t.orphans[i].is_orphaned
            &&& t.orphans[i].orphan_source is Some
        } by {
            if i < s.orphans.len() {
                assert(t.orphans[i] == s.orphans[i]);
            }
        }
    } else {
        let step = s.queue.last();
        assert forall|i: int, j: int| 0 <= i < j < t.orphans.len() implies (
        #[trigger] t.orphans[i]).id != (#[trigger] t.orphans[j]).id by {
            assert(t.orphans[i] == s.orphans[i]);
            if j < s.orphans.len() {
                assert(t.orphans[j] == s.orphans[j]);
            } else {
                assert(s.orphans[i].id != step.oid);
            }
        }
        assert forall|i: int| 0 <= i < t.orphans.len() implies {
            &&& !t.known.contains((#[trigger] t.orphans[i]).id)
            &&& t.orphans[i].id != (Oid { hi: 0, mid: 0, lo: 0 })
            &&& t.orphans[i].is_orphaned
            &&& t.orphans[i].orphan_source is Some
        } by {
            if i < s.orphans.len() {
                assert(t.orphans[i] == s.orphans[i]);
            }
        }
    }
}

/// `commits` with `orphans` among them, newest first; where there are no orphans, `commits`
/// as they stand.
pub open spec fn graph_with_orphans(commits: Seq<CommitView>, orphans: Seq<CommitView>) -> Seq<
    CommitView,
> {
    if orphans.len() == 0 {
        commits
    } else {
        order::sorted::<CommitInfo, NewestFirst>(commits + orphans)
    }
}

/// Get commits for graph including orphaned commits from reflogs.
pub fn commit_graph_with_orphans(commits: Vec<CommitInfo>, orphans: Vec<CommitInfo>) -> (r: Vec<
    CommitInfo,
>)
    ensures
        text::views(r@) == graph_with_orphans(text::views(commits@), text::views(orphans@)),
{
    if orphans.len() == 0 {
        return commits;
    }
    let ghost a = commits@;
    let ghost b = orphans@;
    let mut all = commits;
    let mut more = orphans;
    all.append(&mut more);
    assert(text::views(all@) =~= text::views(a) + text::views(b));
    sort::<CommitInfo, NewestFirst>(all)
}

/// Whether one of `entries` names `oid`, and `label` is how that entry is shown.
pub open spec fn names(entries: Seq<ReflogEntry>, oid: Oid, label: Seq<char>) -> bool {
    exists|i: int|
        0 <= i < entries.len() && ((#[trigger] entries[i]).id_new == oid || entries[i].id_old
            == oid) && label == entries[i].refname@ + "@{"@ + text::dec(entries[i].index as nat)
            + "}: "@ + entries[i].message@
}

proof fn lemma_names_grow(entries: Seq<ReflogEntry>, oid: Oid, label: Seq<char>)
    requires
        entries.len() > 0,
        names(entries.drop_last(), oid, label),
    ensures
        names(entries, oid, label),
{
    let i = choose|i: int|
        0 <= i < entries.drop_last().len() && ((#[trigger] entries.drop_last()[i]).id_new == oid
            || entries.drop_last()[i].id_old == oid) && label
            == entries.drop_last()[i].refname@ + "@{"@ + text::dec(
            entries.drop_last()[i].index as nat,
        ) + "}: "@ + entries.drop_last()[i].message@;
    assert(entries[i] == entries.drop_last()[i]);
}

proof fn lemma_considered(c: Seq<CandidateView>, known: Seq<Oid>, oid: Oid, label: Seq<char>)
    ensures
        ({
            let r = consider(c, known, oid, label);
            &&& c.is_prefix_of(r)
            &&& forall|other: Oid| has_candidate(c, other) ==> #[trigger] has_candidate(r, other)
            &&& oid != (Oid { hi: 0, mid: 0, lo: 0 }) && !known.contains(oid) ==> has_candidate(
                r,
                oid,
            )
            &&& r != c ==> r == c.push(CandidateView { oid, label })
        }),
{
    let r = consider(c, known, oid, label);
    assert(c =~= r.take(c.len() as int));
    assert forall|other: Oid| has_candidate(c, other) implies #[trigger] has_candidate(
        r,
        other,
    ) by {
        let i = choose|i: int| 0 <= i < c.len() && (#[trigger] c[i]).oid == other;
        assert(r[i].oid == other);
    }
    if r.len() > c.len() {
        assert(r[c.len() as int].oid == oid);
    }
}

/// Every commit that a reflog names is looked at: each id in an entry, new or old, is among the
/// candidates, unless it is no id or belongs to a commit that is known. Nothing else is: each
/// candidate is named by an entry, and its label is that entry's name, place and message.
pub proof fn what_reflogs_name_is_looked_at(entries: Seq<ReflogEntry>, known: Seq<Oid>)
    ensures
        forall|i: int|
            0 <= i < entries.len() && !known.contains((#[trigger] entries[i]).id_new)
                && entries[i].id_new != (Oid { hi: 0, mid: 0, lo: 0 }) ==> exists|k: int|
                0 <= k < candidates_of(entries, known).len() && (#[trigger] candidates_of(
                    entries,
                    known,
                )[k]).oid == entries[i].id_new,
        forall|i: int|
            0 <= i < entries.len() && !known.contains((#[trigger] entries[i]).id_old)
                && entries[i].id_old != (Oid { hi: 0, mid: 0, lo: 0 }) ==> exists|k: int|
                0 <= k < candidates_of(entries, known).len() && (#[trigger] candidates_of(
                    entries,
                    known,
                )[k]).oid == entries[i].id_old,
        forall|k: int|
            0 <= k < candidates_of(entries, known).len() ==> names(
                entries,
                (#[trigger] candidates_of(entries, known)[k]).oid,
                candidates_of(entries, known)[k].label,
            ),
    decreases entries.len(),
{
    let all = candidates_of(entries, known);
    if entries.len() > 0 {
        let front = entries.drop_last();
        let e = entries.last();
        let rest = candidates_of(front, known);
        let mid = consider(rest, known, e.id_new, entry_label(e));
        what_reflogs_name_is_looked_at(front, known);
        lemma_considered(rest, known, e.id_new, entry_label(e));
        lemma_considered(mid, known, e.id_old, entry_label(e));
        assert(names(entries, e.id_new, entry_label(e))) by {
            assert(entries[entries.len() - 1] == e);
        }
        assert(names(entries, e.id_old, entry_label(e))) by {
            assert(entries[entries.len() - 1] == e);
        }
        assert forall|i: int|
            0 <= i < entries.len() && !known.contains((#[trigger] entries[i]).id_new)
                && entries[i].id_new != (Oid { hi: 0, mid: 0, lo: 0 }) implies has_candidate(
            all,
            entries[i].id_new,
        ) by {
            if i < front.len() {
                assert(front[i] == entries[i]);
                assert(has_candidate(rest, front[i].id_new));
            }
        }
        assert forall|i: int|
            0 <= i < entries.len() && !known.contains((#[trigger] entries[i]).id_old)
                && entries[i].id_old != (Oid { hi: 0, mid: 0, lo: 0 }) implies has_candidate(
            all,
            entries[i].id_old,
        ) by {
            if i < front.len() {
                assert(front[i] == entries[i]);
                assert(has_candidate(rest, front[i].id_old));
            }
        }
        assert forall|k: int| 0 <= k < all.len() implies names(
            entries,
            (#[trigger] all[k]).oid,
            all[k].label,
        ) by {
            if k < rest.len() {
                assert(all[k] == rest[k]);
                lemma_names_grow(entries, rest[k].oid, rest[k].label);
            }
        }
    }
}

/// A commit that is there and that nothing reaches any more is kept, with all that is known of
/// it, after those found before; one that is reached, or is not there, is not.
pub proof fn what_nothing_reaches_is_found(s: SearchView, info: CommitView)
    requires
        next_id(s) is Some,
    ensures
        ({
            let t = told(s, Some((info, false)));
            let o = t.orphans.last();
            &&& t.orphans.len() == s.orphans.len() + 1
            &&& s.orphans.is_prefix_of(t.orphans)
            &&& o.id == info.id && o.time == info.time && o.parent_ids == info.parent_ids
            &&& o.short_id == info.short_id && o.summary == info.summary
            &&& o.author == info.author && o.author_email == info.author_email
            &&& o.is_orphaned
            &&& s.candidates.len() > 0 ==> o.orphan_source == Some(s.candidates[0].label)
            &&& s.candidates.len() == 0 ==> o.orphan_source == Some(
                "parent of "@ + s.queue.last().child,
            )
        }),
        told(s, Some((info, true))).orphans == s.orphans,
        told(s, None).orphans == s.orphans,
{
    let t = told(s, Some((info, false)));
    assert(s.orphans =~= t.orphans.take(s.orphans.len() as int));
}

/// Each candidate is looked at once, in turn: the next id asked for is that of the first, and
/// when the answer has come the others are left.
pub proof fn candidates_are_looked_at_in_turn(s: SearchView, found: Option<(CommitView, bool)>)
    requires
        s.candidates.len() > 0,
    ensures
        settled(s) == s,
        next_id(s) == Some(s.candidates[0].oid),
        told(s, found).candidates.len() == s.candidates.len() - 1,
        forall|i: int|
            0 <= i < s.candidates.len() - 1 ==> #[trigger] told(s, found).candidates[i]
                == s.candidates[i + 1],
        told(s, found).known == s.known,
{
}

/// Whether a step to `oid`, `depth` steps from where the search began, is among `queue`.
pub open spec fn waits(queue: Seq<StepView>, oid: Oid, depth: int, child: Seq<char>) -> bool {
    exists|k: int|
        0 <= k < queue.len() && (#[trigger] queue[k]).oid == oid && queue[k].depth == depth
            && queue[k].child == child
}

proof fn lemma_first_steps_wait(orphans: Seq<CommitView>, i: int, j: int)
    requires
        0 <= i < orphans.len(),
        0 <= j < orphans[i].parent_ids.len(),
    ensures
        waits(first_steps(orphans), orphans[i].parent_ids[j], 1, orphans[i].short_id),
    decreases orphans.len(),
{
    let front = first_steps(orphans.drop_last());
    let back = steps_to_parents(orphans.last().parent_ids, 1, orphans.last().short_id);
    let all = first_steps(orphans);
    assert(all == front + back);
    if i < orphans.len() - 1 {
        assert(orphans.drop_last()[i] == orphans[i]);
        lemma_first_steps_wait(orphans.drop_last(), i, j);
        let k = choose|k: int|
            0 <= k < front.len() && (#[trigger] front[k]).oid == orphans[i].parent_ids[j]
                && front[k].depth == 1 && front[k].child == orphans[i].short_id;
        assert(all[k] == front[k]);
    } else {
        assert(back[j].oid == orphans[i].parent_ids[j]);
        assert(all[front.len() + j] == back[j]);
    }
}

/// The search goes on to the parents of what it has found: when the last candidate has been
/// looked at, to each parent of each commit found, and after that to each parent of a further
/// one, one step farther; steps that waited go on waiting.
pub proof fn parents_of_the_found_are_looked_at(s: SearchView, found: Option<(CommitView, bool)>)
    requires
        next_id(s) is Some,
        s.candidates.len() == 0 ==> s.queue.last().depth <= MAX_DEPTH,
    ensures
        s.candidates.len() == 1 ==> forall|i: int, j: int|
            0 <= i < told(s, found).orphans.len() && 0 <= j < told(
                s,
                found,
            ).orphans[i].parent_ids.len() ==> waits(
                told(s, found).queue,
                #[trigger] told(s, found).orphans[i].parent_ids[j],
                1,
                told(s, found).orphans[i].short_id,
            ),
        s.candidates.len() == 0 ==> match found {
            Some((info, false)) => forall|j: int|
                0 <= j < info.parent_ids.len() ==> waits(
                    told(s, found).queue,
                    #[trigger] info.parent_ids[j],
                    s.queue.last().depth + 1,
                    info.short_id,
                ),
            _ => true,
        },
        s.candidates.len() == 0 ==> s.queue.drop_last().is_prefix_of(told(s, found).queue),
{
    let t = told(s, found);
    if s.candidates.len() == 1 {
        assert forall|i: int, j: int|
            0 <= i < t.orphans.len() && 0 <= j < t.orphans[i].parent_ids.len() implies waits(
            t.queue,
            #[trigger] t.orphans[i].parent_ids[j],
            1,
            t.orphans[i].short_id,
        ) by {
            lemma_first_steps_wait(t.orphans, i, j);
        }
    }
    if s.candidates.len() == 0 {
        let front = s.queue.drop_last();
        assert(front =~= t.queue.take(front.len() as int));
        if let Some((info, reachable)) = found {
            if !reachable {
                assert forall|j: int| 0 <= j < info.parent_ids.len() implies waits(
                    t.queue,
                    #[trigger] info.parent_ids[j],
                    s.queue.last().depth + 1,
                    info.short_id,
                ) by {
                    assert(t.queue[front.len() + j].oid == info.parent_ids[j]);
                }
            }
        }
    }
}

/// A parent is passed over only where it is more than ten steps away, is no id, is known, or
/// was found already; what waits before such steps is not touched. The step that is next is
/// none of these, and when no step is left the search is over.
pub proof fn steps_are_passed_over_for_a_reason(s: SearchView)
    ensures
        settled(s).queue.is_prefix_of(s.queue),
        settled(s).orphans == s.orphans && settled(s).known == s.known && settled(s).candidates
            == s.candidates,
        forall|i: int|
            settled(s).queue.len() <= i < s.queue.len() ==> {
                ||| (#[trigger] s.queue[i]).depth > 10
                ||| s.queue[i].oid == (Oid { hi: 0, mid: 0, lo: 0 })
                ||| s.known.contains(s.queue[i].oid)
                ||| exists|k: int|
                    0 <= k < s.orphans.len() && (#[trigger] s.orphans[k]).id == s.queue[i].oid
            },
        s.candidates.len() == 0 && settled(s).queue.len() > 0 ==> {
            let next = settled(s).queue.last();
            &&& next_id(settled(s)) == Some(next.oid)
            &&& next.depth <= 10
            &&& next.oid != (Oid { hi: 0, mid: 0, lo: 0 })
            &&& !s.known.contains(next.oid)
            &&& forall|k: int|
                0 <= k < s.orphans.len() ==> (#[trigger] s.orphans[k]).id != next.oid
        },
        s.candidates.len() == 0 && settled(s).queue.len() == 0 ==> next_id(settled(s)) is None,
{
    if s.candidates.len() == 0 {
        lemma_without_idle(s.queue, s.known, s.orphans);
        lemma_passed_over(s.queue, s.known, s.orphans);
    }
    assert(s.queue.take(s.queue.len() as int) =~= s.queue);
}

proof fn lemma_passed_over(queue: Seq<StepView>, known: Seq<Oid>, orphans: Seq<CommitView>)
    ensures
        forall|i: int|
            without_idle(queue, known, orphans).len() <= i < queue.len() ==> idle_step(
                #[trigger] queue[i],
                known,
                orphans,
            ),
    decreases queue.len(),
{
    if queue.len() > 0 && idle_step(queue.last(), known, orphans) {
        lemma_passed_over(queue.drop_last(), known, orphans);
        assert forall|i: int|
            without_idle(queue, known, orphans).len() <= i < queue.len() implies idle_step(
            #[trigger] queue[i],
            known,
            orphans,
        ) by {
            if i < queue.len() - 1 {
                assert(queue[i] == queue.drop_last()[i]);
            }
        }
    }
}

/// The graph holds every commit and every orphan, and nothing else, with the newest first; without
/// orphans it is left as it is.
pub proof fn orphans_join_the_graph(commits: Seq<CommitView>, orphans: Seq<CommitView>)
    ensures
        graph_with_orphans(commits, orphans).to_multiset() == commits.to_multiset().add(
            orphans.to_multiset(),
        ),
        orphans.len() == 0 ==> graph_with_orphans(commits, orphans) == commits,
        orphans.len() > 0 ==> forall|i: int, j: int|
            0 <= i < j < graph_with_orphans(commits, orphans).len() ==> (
            #[trigger] graph_with_orphans(commits, orphans)[i]).time >= (
            #[trigger] graph_with_orphans(commits, orphans)[j]).time,
{
    let all = commits + orphans;
    let r = graph_with_orphans(commits, orphans);
    vstd::seq_lib::lemma_multiset_commutative(commits, orphans);
    if orphans.len() == 0 {
        assert(all =~= commits);
    } else {
        order::sorting_keeps_values_and_orders_them::<CommitInfo, NewestFirst>(all);
        assert forall|i: int, j: int| 0 <= i < j < r.len() implies (#[trigger] r[i]).time >= (
        #[trigger] r[j]).time by {
            assert(!NewestFirst::before(r[j], r[i]));
        }
    }
}

/// The orphans found stand with the newest first, so that those left out of a longer list are no
/// newer than those kept.
pub proof fn orphans_are_told_newest_first(orphans: Seq<CommitView>)
    ensures
        ({
            let all = order::sorted::<CommitInfo, NewestFirst>(orphans);
            &&& all.to_multiset() == orphans.to_multiset()
            &&& all.len() == orphans.len()
            &&& forall|i: int, j: int|
                0 <= i < j < all.len() ==> (#[trigger] all[i]).time >= (#[trigger] all[j]).time
        }),
{
    order::sorting_keeps_values_and_orders_them::<CommitInfo, NewestFirst>(orphans);
    let all = order::sorted::<CommitInfo, NewestFirst>(orphans);
    assert forall|i: int, j: int| 0 <= i < j < all.len() implies (#[trigger] all[i]).time >= (
    #[trigger] all[j]).time by {
        assert(!NewestFirst::before(all[j], all[i]));
    }
}

} // verus!
