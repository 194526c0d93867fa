//! Opening, closing and switching tabs.

use crate::app::toast::{self, ToastManager, ToastSeverity};
use vstd::prelude::*;
use vstd::string::*;

verus! {

/// What is done after a tab was closed.
#[derive(Debug, Clone, Copy, PartialEq, Eq, Structural)]
pub enum AfterClose {
    Nothing,
    /// No tab is left: the welcome view is shown, with the latest list of repositories.
    ShowWelcome,
    RefreshStatus,
}

/// Close a tab. `next_active` is the tab that the tab bar makes the active one then.
pub fn close_tab(
    tabs: &mut Vec<String>,
    active: &mut usize,
    index: usize,
    next_active: usize,
    toasts: &mut ToastManager,
) -> (r: AfterClose)
    ensures
        if index >= old(tabs).len() {
            &&& final(tabs)@ == old(tabs)@
            &&& *final(active) == *old(active)
            &&& final(toasts)@ == old(toasts)@
            &&& r == AfterClose::Nothing
        } else {
            &&& final(tabs)@ == old(tabs)@.remove(index as int)
            &&& *final(active) == next_active
            &&& final(toasts)@ == old(toasts)@.push(
                toast::info("Closed "@ + old(tabs)@[index as int]@),
            )
            &&& r == (if old(tabs).len() == 1 {
                AfterClose::ShowWelcome
            } else {
                AfterClose::RefreshStatus
            })
        },
{
    if index >= tabs.len() {
        return AfterClose::Nothing;
    }
    let name = tabs.remove(index);
    *active = next_active;
    let mut s = "Closed ".to_owned();
    s.append(name.as_str());
    toasts.push(s, ToastSeverity::Info);
    if tabs.len() == 0 {
        AfterClose::ShowWelcome
    } else {
        AfterClose::RefreshStatus
    }
}

/// Make a tab the active one. Returns whether its status is to be read.
pub fn switch_tab(count: usize, active: &mut usize, index: usize) -> (r: bool)
    ensures
        r == (index < count),
        *final(active) == (if index < count {
            index
        } else {
            *old(active)
        }),
{
    if index < count {
        *active = index;
        true
    } else {
        false
    }
}

/// The tab after `active`, the first after the last.
pub open spec fn tab_after(active: nat, count: nat) -> nat {
    (active + 1) % count
}

/// The tab before `active`, the last before the first.
pub open spec fn tab_before(active: nat, count: nat) -> nat {
    if active == 0 {
        (count - 1) as nat
    } else {
        (active - 1) as nat
    }
}

pub fn next_tab(active: usize, count: usize) -> (r: usize)
    requires
        count > 0,
        active < usize::MAX,
    ensures
        r == tab_after(active as nat, count as nat),
        r < count,
{
    (active + 1) % count
}

pub fn previous_tab(active: usize, count: usize) -> (r: usize)
    requires
        count > 0,
    ensures
        r == tab_before(active as nat, count as nat),
        active < count ==> r < count,
{
    if active == 0 {
        count - 1
    } else {
        active - 1
    }
}

/// Going on to the next tab and back, or back and on, leads to the same tab.
pub proof fn going_on_and_back_returns(active: nat, count: nat)
    requires
        active < count,
    ensures
        tab_after(active, count) < count,
        tab_before(active, count) < count,
        tab_before(tab_after(active, count), count) == active,
        tab_after(tab_before(active, count), count) == active,
{
    if active + 1 == count {
        vstd::arithmetic::div_mod::lemma_mod_self_0(count as int);
    } else {
        vstd::arithmetic::div_mod::lemma_small_mod(active + 1, count);
    }
    if active == 0 {
        vstd::arithmetic::div_mod::lemma_mod_self_0(count as int);
    } else {
        vstd::arithmetic::div_mod::lemma_small_mod(active, count);
    }
}

/// The index of the first tab with the id `id`, from `i` on, or the number of tabs.
pub open spec fn tab_from(ids: Seq<u64>, id: u64, i: int) -> int
    decreases ids.len() - i,
{
    if i >= ids.len() {
        ids.len() as int
    } else if ids[i] == id {
        i
    } else {
        tab_from(ids, id, i + 1)
    }
}

/// The tab that a background result belongs to, where it is still open.
pub fn tab_with_id(ids: &Vec<u64>, id: u64) -> (r: Option<usize>)
    ensures
        match r {
            Some(i) => i == tab_from(ids@, id, 0) && i < ids.len(),
            None => tab_from(ids@, id, 0) == ids.len(),
        },
{
    let mut i: usize = 0;
    while i < ids.len()
        invariant
            i <= ids.len(),
            tab_from(ids@, id, 0) == tab_from(ids@, id, i as int),
        decreases ids.len() - i,
    {
        if ids[i] == id {
            return Some(i);
        }
        i = i + 1;
    }
    None
}

/// The id of a new tab, and that of the next one. Ids are not used again.
pub fn take_tab_id(next_tab_id: &mut u64) -> (r: u64)
    ensures
        r == *old(next_tab_id),
        *final(next_tab_id) == (if *old(next_tab_id) < u64::MAX {
            (*old(next_tab_id) + 1) as u64
        } else {
            u64::MAX
        }),
{
    let id: u64 = *next_tab_id;
    *next_tab_id = id.saturating_add(1);
    id
}

/// Going on leads to the tab on the right, and from the last to the first; going back leads to
/// the tab on the left, and from the first to the last.
pub proof fn tabs_are_gone_through_in_order(active: nat, count: nat)
    requires
        active < count,
    ensures
        active + 1 < count ==> tab_after(active, count) == active + 1,
        active + 1 == count ==> tab_after(active, count) == 0,
        active > 0 ==> tab_before(active, count) == active - 1,
        active == 0 ==> tab_before(active, count) == count - 1,
{
    if active + 1 == count {
        vstd::arithmetic::div_mod::lemma_mod_self_0(count as int);
    } else {
        vstd::arithmetic::div_mod::lemma_small_mod(active + 1, count);
    }
}

/// A tab is found by its id at the first place where the id stands.
pub proof fn a_tab_is_found_by_its_id(ids: Seq<u64>, id: u64, from: int, i: int)
    requires
        0 <= from <= i <= ids.len(),
        forall|j: int| from <= j < i ==> (#[trigger] ids[j]) != id,
        i < ids.len() ==> ids[i] == id,
    ensures
        tab_from(ids, id, from) == i,
    decreases i - from,
{
    if from < i {
        a_tab_is_found_by_its_id(ids, id, from + 1, i);
    }
}

} // verus!
