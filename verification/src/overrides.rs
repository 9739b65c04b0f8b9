//! Changes of policy that were asked for and that the router may not show
//! yet.
//!
//! After a change the router can go on reporting the old policy for a
//! while. Until it reports what was asked for, the change is shown in
//! place of the router's answer.

use crate::menu::{PolicyRequest, PolicyRequestView};
use crate::model::{
    copy_opt_text, copy_policies, interface_views, opt_text, InterfaceInfo,
    InterfaceView,
};
use crate::pipeline::{ActiveState, ActiveStateView};
use crate::text::text_eq;
use vstd::prelude::*;

verus! {

/// The policy that was asked for, for one device.
#[derive(Clone, Debug)]
pub struct PolicyOverride {
    pub policy: Option<String>,
    pub deny: bool,
}

/// The mathematical value of a pending change with the address of its
/// device.
pub struct OverrideView {
    pub mac: Seq<char>,
    pub policy: Option<Seq<char>>,
    pub deny: bool,
}

/// The views of a list of pending changes, each under its address.
pub open spec fn override_views(list: Seq<(String, PolicyOverride)>) -> Seq<OverrideView> {
    Seq::new(
        list.len(),
        |i: int|
            OverrideView {
                mac: list[i].0@,
                policy: opt_text(list[i].1.policy),
                deny: list[i].1.deny,
            },
    )
}

/// The index of the first pending change at or after `from` for `mac`.
pub open spec fn override_at(list: Seq<OverrideView>, mac: Seq<char>, from: int) -> Option<int>
    decreases list.len() - from,
{
    if from < 0 || from >= list.len() {
        None
    } else if list[from].mac == mac {
        Some(from)
    } else {
        override_at(list, mac, from + 1)
    }
}

/// The pending changes without those for `mac`.
pub open spec fn without_mac(list: Seq<OverrideView>, mac: Seq<char>) -> Seq<OverrideView>
    decreases list.len(),
{
    if list.len() == 0 {
        Seq::empty()
    } else if list.last().mac == mac {
        without_mac(list.drop_last(), mac)
    } else {
        without_mac(list.drop_last(), mac).push(list.last())
    }
}

/// The pending changes after one for `mac` has been recorded: it stands
/// at the end, in place of any earlier one for `mac`.
pub open spec fn recorded(list: Seq<OverrideView>, change: OverrideView) -> Seq<OverrideView> {
    without_mac(list, change.mac).push(change)
}

/// The policy and block state that a request asks for; `None` for a
/// request that changes nothing.
pub open spec fn asked_for(request: PolicyRequestView) -> Option<(Option<Seq<char>>, bool)> {
    match request {
        PolicyRequestView::Default => Some((None, false)),
        PolicyRequestView::Blocked => Some((None, true)),
        PolicyRequestView::Assign(name) => Some((Some(name), false)),
        _ => None,
    }
}

/// The change to keep pending after `request` has been carried out.
pub fn override_for(request: &PolicyRequest) -> (out: Option<PolicyOverride>)
    ensures
        match out {
            Some(o) => asked_for(request@) == Some((opt_text(o.policy), o.deny)),
            None => asked_for(request@) is None,
        },
{
    match request {
        PolicyRequest::Default => Some(PolicyOverride { policy: None, deny: false }),
        PolicyRequest::Blocked => Some(PolicyOverride { policy: None, deny: true }),
        PolicyRequest::Assign(name) => Some(
            PolicyOverride { policy: Some(name.clone()), deny: false },
        ),
        _ => None,
    }
}

/// The index of the pending change for `mac`.
pub fn find_override(list: &Vec<(String, PolicyOverride)>, mac: &str) -> (slot: Option<usize>)
    ensures
        match slot {
            Some(i) => i < list@.len() && override_at(override_views(list@), mac@, 0) == Some(
                i as int,
            ),
            None => override_at(override_views(list@), mac@, 0) is None,
        },
{
    let ghost all = override_views(list@);
    let n: usize = list.len();
    let mut i: usize = 0;
    while i < n
        invariant
            n == list@.len(),
            i <= n,
            all == override_views(list@),
            override_at(all, mac@, 0) == override_at(all, mac@, i as int),
        decreases n - i,
    {
        if text_eq(list[i].0.as_str(), mac) {
            return Some(i);
        }
        i += 1;
    }
    None
}

/// Drops the pending changes for `mac`.
pub fn forget_override(list: &mut Vec<(String, PolicyOverride)>, mac: &str)
    ensures
        override_views(final(list)@) == without_mac(override_views(old(list)@), mac@),
{
    let ghost all = override_views(list@);
    let mut kept: Vec<(String, PolicyOverride)> = Vec::new();
    let n: usize = list.len();
    let mut i: usize = 0;
    assert(all.subrange(0, 0) =~= Seq::empty());
    assert(override_views(kept@) =~= Seq::empty());
    while i < n
        invariant
            n == list@.len(),
            i <= n,
            all == override_views(list@),
            override_views(kept@) == without_mac(all.subrange(0, i as int), mac@),
        decreases n - i,
    {
        assert(all.subrange(0, i + 1).drop_last() =~= all.subrange(0, i as int));
        let ghost before = override_views(kept@);
        if !text_eq(list[i].0.as_str(), mac) {
            let entry = (
                list[i].0.clone(),
                PolicyOverride { policy: copy_opt_text(&list[i].1.policy), deny: list[i].1.deny },
            );
            kept.push(entry);
            assert(override_views(kept@) =~= before.push(all[i as int]));
        }
        i += 1;
    }
    assert(all.subrange(0, n as int) =~= all);
    *list = kept;
}

/// Records a pending change for `mac`, in place of any earlier one.
pub fn record_override(list: &mut Vec<(String, PolicyOverride)>, mac: &str, change: PolicyOverride)
    ensures
        override_views(final(list)@) == recorded(
            override_views(old(list)@),
            OverrideView { mac: mac@, policy: opt_text(change.policy), deny: change.deny },
        ),
{
    forget_override(list, mac);
    let ghost before = override_views(list@);
    list.push((mac.to_owned(), change));
    assert(override_views(list@) =~= before.push(
        OverrideView { mac: mac@, policy: opt_text(change.policy), deny: change.deny },
    ));
}

/// The row as it is shown: with the pending change for its device in
/// place of the router's answer, where there is one.
pub open spec fn shown_row(row: InterfaceView, pending: Seq<OverrideView>) -> InterfaceView {
    match override_at(pending, row.mac, 0) {
        Some(k) => InterfaceView { policy: pending[k].policy, deny: pending[k].deny, ..row },
        None => row,
    }
}

/// Whether the router reports for `row` what the pending change asked
/// for.
pub open spec fn confirmed(row: InterfaceView, pending: Seq<OverrideView>) -> bool {
    match override_at(pending, row.mac, 0) {
        Some(k) => row.policy == pending[k].policy && row.deny == pending[k].deny,
        None => false,
    }
}

/// The pending changes after `row` has been looked at: a change that the
/// router confirms is dropped.
pub open spec fn pending_after(row: InterfaceView, pending: Seq<OverrideView>) -> Seq<
    OverrideView,
> {
    if confirmed(row, pending) {
        without_mac(pending, row.mac)
    } else {
        pending
    }
}

/// The changes still pending after the first `upto` rows have been looked
/// at in order.
pub open spec fn pending_at(rows: Seq<InterfaceView>, pending: Seq<OverrideView>, upto: int)
    -> Seq<OverrideView>
    decreases upto,
{
    if upto <= 0 || upto > rows.len() {
        pending
    } else {
        pending_after(rows[upto - 1], pending_at(rows, pending, upto - 1))
    }
}

/// The first `upto` rows as they are shown, each with the changes that
/// were pending when it was looked at.
pub open spec fn shown_rows(rows: Seq<InterfaceView>, pending: Seq<OverrideView>, upto: int)
    -> Seq<InterfaceView>
    decreases upto,
{
    if upto <= 0 || upto > rows.len() {
        Seq::empty()
    } else {
        shown_rows(rows, pending, upto - 1).push(
            shown_row(rows[upto - 1], pending_at(rows, pending, upto - 1)),
        )
    }
}

/// The state as it is shown. The rows are looked at in order; the active
/// interface is shown with the changes that are pending after that.
pub open spec fn shown_state(a: ActiveStateView, pending: Seq<OverrideView>) -> ActiveStateView {
    let left = pending_at(a.interfaces, pending, a.interfaces.len() as int);
    ActiveStateView {
        interfaces: shown_rows(a.interfaces, pending, a.interfaces.len() as int),
        active_iface: match a.active_iface {
            Some(i) => Some(shown_row(i, left)),
            None => None,
        },
        ..a
    }
}

/// The row as it is shown.
fn show_row(row: &InterfaceInfo, pending: &Vec<(String, PolicyOverride)>) -> (out: (
    InterfaceInfo,
    bool,
))
    ensures
        out.0@ == shown_row(row@, override_views(pending@)),
        out.1 == confirmed(row@, override_views(pending@)),
{
    match find_override(pending, row.mac.as_str()) {
        Some(k) => {
            let change = &pending[k].1;
            let same_policy = match (&row.policy, &change.policy) {
                (Some(a), Some(b)) => text_eq(a.as_str(), b.as_str()),
                (None, None) => true,
                _ => false,
            };
            let mut shown = row.duplicate();
            shown.policy = copy_opt_text(&change.policy);
            shown.deny = change.deny;
            (shown, same_policy && row.deny == change.deny)
        },
        None => (row.duplicate(), false),
    }
}

/// The state as it is shown, and the changes that stay pending.
///
/// A change that the router confirms is dropped from `pending`; any other
/// takes the place of the router's answer.
pub fn apply_overrides(state: &ActiveState, pending: &mut Vec<(String, PolicyOverride)>) -> (out:
    ActiveState)
    ensures
        out@ == shown_state(state@, override_views(old(pending)@)),
        override_views(final(pending)@) == pending_at(
            state@.interfaces,
            override_views(old(pending)@),
            state@.interfaces.len() as int,
        ),
{
    let ghost rows = interface_views(state.interfaces@);
    let ghost start = override_views(pending@);
    let mut interfaces: Vec<InterfaceInfo> = Vec::new();
    let n: usize = state.interfaces.len();
    let mut i: usize = 0;
    assert(interface_views(interfaces@) =~= Seq::empty());
    while i < n
        invariant
            n == state.interfaces@.len(),
            i <= n,
            rows == interface_views(state.interfaces@),
            interface_views(interfaces@) == shown_rows(rows, start, i as int),
            override_views(pending@) == pending_at(rows, start, i as int),
        decreases n - i,
    {
        let row = &state.interfaces[i];
        assert(rows[i as int] == row@);
        let ghost before = interface_views(interfaces@);
        let (shown, done) = show_row(row, pending);
        if done {
            forget_override(pending, row.mac.as_str());
        }
        interfaces.push(shown);
        assert(interface_views(interfaces@) =~= before.push(shown@));
        i += 1;
    }
    let active_iface = match &state.active_iface {
        Some(chosen) => {
            let (shown, _) = show_row(chosen, pending);
            Some(shown)
        },
        None => None,
    };
    ActiveState {
        router: state.router.duplicate(),
        interfaces,
        policies: copy_policies(&state.policies),
        active_iface,
        active_address: state.active_address.clone(),
    }
}

/// `override_at` finds the first pending change for `mac` at or after
/// `from`, and finds one whenever there is one.
pub proof fn lemma_override_at(list: Seq<OverrideView>, mac: Seq<char>, from: int)
    requires
        0 <= from,
    ensures
        match override_at(list, mac, from) {
            Some(i) => from <= i < list.len() && list[i].mac == mac && forall|k: int|
                from <= k < i ==> (#[trigger] list[k]).mac != mac,
            None => forall|k: int| from <= k < list.len() ==> (#[trigger] list[k]).mac != mac,
        },
    decreases list.len() - from,
{
    if from < list.len() && list[from].mac != mac {
        lemma_override_at(list, mac, from + 1);
    }
}

/// Dropping the changes for `mac` leaves none for `mac` and keeps the
/// others findable.
pub proof fn lemma_without_mac(list: Seq<OverrideView>, mac: Seq<char>)
    ensures
        without_mac(list, mac).len() <= list.len(),
        forall|k: int|
            0 <= k < without_mac(list, mac).len() ==> (#[trigger] without_mac(list, mac)[k]).mac
                != mac,
    decreases list.len(),
{
    if list.len() > 0 {
        lemma_without_mac(list.drop_last(), mac);
    }
}

/// A recorded change is the one that is found for its device, and the
/// only one for it.
pub proof fn lemma_recorded_is_found(list: Seq<OverrideView>, change: OverrideView)
    ensures
        override_at(recorded(list, change), change.mac, 0) == Some(
            recorded(list, change).len() - 1,
        ),
        recorded(list, change).last() == change,
{
    let kept = without_mac(list, change.mac);
    let all = recorded(list, change);
    lemma_without_mac(list, change.mac);
    lemma_override_at(all, change.mac, 0);
    assert forall|k: int| 0 <= k < kept.len() implies (#[trigger] all[k]).mac != change.mac by {
        assert(all[k] == kept[k]);
    }
    assert(all[kept.len() as int] == change);
}

} // verus!
