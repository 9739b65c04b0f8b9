//! The tray menu as plain data, and the identifiers of its items.
//!
//! An item that changes a device's policy carries what it does in its
//! identifier: `policy|<address>|default`, `policy|<address>|blocked` or
//! `policy|<address>|set|<policy>`, the address written without colons.

use crate::model::{
    policy_views, InterfaceInfo, InterfaceView, PolicyInfo, PolicyView,
};
use crate::pipeline::{ActiveState, ActiveStateView};
use crate::present::{
    decode_mac, encode_mac, label_of, policy_label, policy_short, short_of, with_colons,
    without_colons,
};
use crate::text::{chars_of, find, first_occurrence, lemma_search_from_least, occurs_at, starts_with, string_of, text_eq};
use vstd::prelude::*;
use vstd::slice::slice_subrange;
use vstd::string::StringExecFns;

verus! {

/// One line of a menu.
#[derive(Clone, Debug)]
pub enum MenuEntry {
    /// An item; one that is not enabled only shows its title.
    Item { id: String, title: String, enabled: bool },
    /// A line between groups of items.
    Separator,
}

/// The mathematical value of a [`MenuEntry`].
pub enum MenuEntryView {
    Item { id: Seq<char>, title: Seq<char>, enabled: bool },
    Separator,
}

impl View for MenuEntry {
    type V = MenuEntryView;

    open spec fn view(&self) -> MenuEntryView {
        match self {
            MenuEntry::Item { id, title, enabled } => MenuEntryView::Item {
                id: id@,
                title: title@,
                enabled: *enabled,
            },
            MenuEntry::Separator => MenuEntryView::Separator,
        }
    }
}

/// The views of a list of entries.
pub open spec fn entry_views(list: Seq<MenuEntry>) -> Seq<MenuEntryView> {
    Seq::new(list.len(), |i: int| list[i]@)
}

/// One line of the tray menu: an entry, or a submenu of entries.
#[derive(Clone, Debug)]
pub enum MenuNode {
    Entry(MenuEntry),
    Submenu { title: String, entries: Vec<MenuEntry> },
}

/// The mathematical value of a [`MenuNode`].
pub enum MenuNodeView {
    Entry(MenuEntryView),
    Submenu { title: Seq<char>, entries: Seq<MenuEntryView> },
}

impl View for MenuNode {
    type V = MenuNodeView;

    open spec fn view(&self) -> MenuNodeView {
        match self {
            MenuNode::Entry(e) => MenuNodeView::Entry(e@),
            MenuNode::Submenu { title, entries } => MenuNodeView::Submenu {
                title: title@,
                entries: entry_views(entries@),
            },
        }
    }
}

/// The views of a list of nodes.
pub open spec fn node_views(list: Seq<MenuNode>) -> Seq<MenuNodeView> {
    Seq::new(list.len(), |i: int| list[i]@)
}

/// An item that only shows `title`.
pub open spec fn info(id: Seq<char>, title: Seq<char>) -> MenuEntryView {
    MenuEntryView::Item { id, title, enabled: false }
}

/// An item that can be chosen.
pub open spec fn action(id: Seq<char>, title: Seq<char>) -> MenuEntryView {
    MenuEntryView::Item { id, title, enabled: true }
}

/// `label`, marked where it is the current one.
pub open spec fn marked(label: Seq<char>, current: Seq<char>) -> Seq<char> {
    if label == current {
        "• "@ + label
    } else {
        label
    }
}

/// The identifier of an item that changes the policy of a device.
pub open spec fn change_id(mac: Seq<char>, what: Seq<char>) -> Seq<char> {
    "policy|"@ + without_colons(mac) + "|"@ + what
}

/// The identifier of the item that assigns the policy `name` to a device.
pub open spec fn set_id(mac: Seq<char>, name: Seq<char>) -> Seq<char> {
    change_id(mac, "set|"@ + name)
}

/// The label under which a policy is offered: its description, or its
/// name where it has none.
pub open spec fn offered_label(p: PolicyView) -> Seq<char> {
    match p.description {
        Some(d) => d,
        None => p.name,
    }
}

/// The items that offer the first `upto` policies of `table` for `mac`.
pub open spec fn policy_items(
    table: Seq<PolicyView>,
    mac: Seq<char>,
    current: Seq<char>,
    upto: int,
) -> Seq<MenuEntryView>
    decreases upto,
{
    if upto <= 0 || upto > table.len() {
        Seq::empty()
    } else {
        policy_items(table, mac, current, upto - 1).push(
            action(set_id(mac, table[upto - 1].name), marked(offered_label(table[upto - 1]), current)),
        )
    }
}

/// What is shown of the state of an interface.
pub open spec fn state_title(online: bool) -> Seq<char> {
    if online {
        "State: Online"@
    } else {
        "State: Offline"@
    }
}

/// The lines that tell of an interface, without the heading.
pub open spec fn facts(iface: InterfaceView, prefix: Seq<char>) -> Seq<MenuEntryView> {
    seq![
        info(prefix + ":iface"@, "Interface: "@ + iface.name),
        info(prefix + ":ip"@, "IP: "@ + iface.ip),
        info(prefix + ":mac"@, "MAC: "@ + iface.mac),
        info(prefix + ":type"@, "Type: "@ + iface.iface_type),
        info(prefix + ":state"@, state_title(iface.online)),
        MenuEntryView::Separator,
    ]
}

/// The heading of the section of an interface, where it has one.
pub open spec fn heading(iface: InterfaceView, prefix: Seq<char>, with_header: bool) -> Seq<
    MenuEntryView,
> {
    if with_header {
        seq![info(prefix + ":header"@, iface.display_name)]
    } else {
        Seq::empty()
    }
}

/// The section of an interface: what is known of it, then the items that
/// change its policy, with a mark at the current one.
pub open spec fn section(
    iface: InterfaceView,
    table: Seq<PolicyView>,
    prefix: Seq<char>,
    with_header: bool,
) -> Seq<MenuEntryView> {
    let current = label_of(iface.policy, iface.deny, table);
    heading(iface, prefix, with_header) + facts(iface, prefix) + seq![
        action(change_id(iface.mac, "default"@), marked("Default"@, current)),
        action(change_id(iface.mac, "blocked"@), marked("Blocked"@, current)),
    ] + policy_items(table, iface.mac, current, table.len() as int)
}

/// `a` followed by `b`.
fn joined(a: &str, b: &str) -> (out: String)
    ensures
        out@ == a@ + b@,
{
    let mut out = String::from_str(a);
    out.append(b);
    out
}

/// An item that only shows `title`.
fn info_item(id: String, title: String) -> (out: MenuEntry)
    ensures
        out@ == info(id@, title@),
{
    MenuEntry::Item { id, title, enabled: false }
}

/// An item that can be chosen.
fn action_item(id: String, title: String) -> (out: MenuEntry)
    ensures
        out@ == action(id@, title@),
{
    MenuEntry::Item { id, title, enabled: true }
}

/// `label`, marked where it is the current one.
fn mark(label: &str, current: &str) -> (out: String)
    ensures
        out@ == marked(label@, current@),
{
    if text_eq(label, current) {
        joined("• ", label)
    } else {
        label.to_owned()
    }
}

/// The identifier of an item that changes the policy of a device.
fn change_item_id(mac: &str, what: &str) -> (out: String)
    ensures
        out@ == change_id(mac@, what@),
{
    let encoded = encode_mac(mac);
    let mut out = String::from_str("policy|");
    out.append(encoded.as_str());
    out.append("|");
    out.append(what);
    out
}

/// The section of an interface.
pub fn append_interface_section(
    iface: &InterfaceInfo,
    policies: &Vec<(String, PolicyInfo)>,
    prefix: &str,
    with_header: bool,
) -> (out: Vec<MenuEntry>)
    ensures
        entry_views(out@) == section(iface@, policy_views(policies@), prefix@, with_header),
{
    let ghost table = policy_views(policies@);
    let mut out: Vec<MenuEntry> = Vec::new();
    if with_header {
        out.push(info_item(joined(prefix, ":header"), iface.display_name.clone()));
    }
    assert(entry_views(out@) =~= heading(iface@, prefix@, with_header));
    out.push(info_item(joined(prefix, ":iface"), joined("Interface: ", iface.name.as_str())));
    out.push(info_item(joined(prefix, ":ip"), joined("IP: ", iface.ip.as_str())));
    out.push(info_item(joined(prefix, ":mac"), joined("MAC: ", iface.mac.as_str())));
    out.push(info_item(joined(prefix, ":type"), joined("Type: ", iface.iface_type.as_str())));
    let state = if iface.online {
        "State: Online"
    } else {
        "State: Offline"
    };
    out.push(info_item(joined(prefix, ":state"), state.to_owned()));
    out.push(MenuEntry::Separator);
    assert(entry_views(out@) =~= heading(iface@, prefix@, with_header) + facts(iface@, prefix@));
    let policy: Option<&str> = match &iface.policy {
        Some(p) => Some(p.as_str()),
        None => None,
    };
    let current = policy_label(policy, iface.deny, policies);
    out.push(
        action_item(
            change_item_id(iface.mac.as_str(), "default"),
            mark("Default", current.as_str()),
        ),
    );
    out.push(
        action_item(
            change_item_id(iface.mac.as_str(), "blocked"),
            mark("Blocked", current.as_str()),
        ),
    );
    let ghost fixed = entry_views(out@);
    assert(fixed =~= heading(iface@, prefix@, with_header) + facts(iface@, prefix@) + seq![
        action(change_id(iface@.mac, "default"@), marked("Default"@, current@)),
        action(change_id(iface@.mac, "blocked"@), marked("Blocked"@, current@)),
    ]);
    let n: usize = policies.len();
    let mut i: usize = 0;
    while i < n
        invariant
            n == policies@.len(),
            i <= n,
            table == policy_views(policies@),
            current@ == label_of(iface@.policy, iface@.deny, table),
            entry_views(out@) == fixed + policy_items(table, iface@.mac, current@, i as int),
        decreases n - i,
    {
        let name = policies[i].0.as_str();
        let label: &str = match &policies[i].1.description {
            Some(d) => d.as_str(),
            None => name,
        };
        let what = joined("set|", name);
        let item = action_item(
            change_item_id(iface.mac.as_str(), what.as_str()),
            mark(label, current.as_str()),
        );
        assert(label@ == offered_label(table[i as int]));
        assert(item@ == action(
            set_id(iface@.mac, table[i as int].name),
            marked(offered_label(table[i as int]), current@),
        ));
        let ghost before = entry_views(out@);
        out.push(item);
        assert(entry_views(out@) =~= before.push(item@));
        i += 1;
        assert(policy_items(table, iface@.mac, current@, i as int) == policy_items(
            table,
            iface@.mac,
            current@,
            i - 1,
        ).push(item@));
        assert(entry_views(out@) =~= fixed + policy_items(table, iface@.mac, current@, i as int));
    }
    out
}

/// Entries as lines of the tray menu.
pub open spec fn as_nodes(entries: Seq<MenuEntryView>) -> Seq<MenuNodeView> {
    Seq::new(entries.len(), |i: int| MenuNodeView::Entry(entries[i]))
}

/// The menu while no router is configured.
pub open spec fn no_routers_menu() -> Seq<MenuNodeView> {
    as_nodes(
        seq![
            info("info:no_routers"@, "No routers configured."@),
            MenuEntryView::Separator,
            action("add_router"@, "Add Router..."@),
            action("quit"@, "Quit"@),
        ],
    )
}

/// The menu while no configured router is reachable.
pub open spec fn no_active_menu() -> Seq<MenuNodeView> {
    as_nodes(
        seq![
            info("info:none"@, "No available routers in the current network."@),
            MenuEntryView::Separator,
            action("add_router"@, "Add Router..."@),
            action("settings"@, "Settings..."@),
            action("refresh"@, "Refresh"@),
            action("quit"@, "Quit"@),
        ],
    )
}

/// The prefix of the identifiers in the section of an interface.
pub open spec fn iface_prefix(mac: Seq<char>) -> Seq<char> {
    "iface"@ + without_colons(mac)
}

/// The section of the active interface at the top of the menu.
pub open spec fn top_section(a: ActiveStateView) -> Seq<MenuNodeView> {
    match a.active_iface {
        Some(i) => as_nodes(section(i, a.policies, iface_prefix(i.mac), true)).push(
            MenuNodeView::Entry(MenuEntryView::Separator),
        ),
        None => Seq::empty(),
    }
}

/// Whether `iface` is the active interface.
pub open spec fn is_active(a: ActiveStateView, iface: InterfaceView) -> bool {
    a.active_iface is Some && a.active_iface->0.mac == iface.mac
}

/// The submenus of the first `upto` interfaces, the active one left out.
pub open spec fn submenus(a: ActiveStateView, upto: int) -> Seq<MenuNodeView>
    decreases upto,
{
    if upto <= 0 || upto > a.interfaces.len() {
        Seq::empty()
    } else {
        let before = submenus(a, upto - 1);
        let i = a.interfaces[upto - 1];
        if is_active(a, i) {
            before
        } else {
            before.push(
                MenuNodeView::Submenu {
                    title: i.display_name,
                    entries: section(i, a.policies, iface_prefix(i.mac), false),
                },
            )
        }
    }
}

/// The end of the menu of an active router.
pub open spec fn closing(router_name: Seq<char>) -> Seq<MenuNodeView> {
    as_nodes(
        seq![
            MenuEntryView::Separator,
            info("router:name"@, "Router: "@ + router_name),
            MenuEntryView::Separator,
            action("settings"@, "Settings..."@),
            action("refresh"@, "Refresh"@),
            action("quit"@, "Quit"@),
        ],
    )
}

/// The menu of an active router: the section of the active interface, a
/// submenu for each other interface, and the closing lines.
pub open spec fn active_menu(a: ActiveStateView) -> Seq<MenuNodeView> {
    top_section(a) + submenus(a, a.interfaces.len() as int) + closing(a.router.name)
}

/// The view of a state that may be absent.
pub open spec fn opt_state(state: Option<&ActiveState>) -> Option<ActiveStateView> {
    match state {
        Some(a) => Some(a@),
        None => None,
    }
}

/// The tray menu.
pub open spec fn tray_menu(state: Option<ActiveStateView>, has_routers: bool) -> Seq<
    MenuNodeView,
> {
    if !has_routers {
        no_routers_menu()
    } else {
        match state {
            None => no_active_menu(),
            Some(a) => active_menu(a),
        }
    }
}

/// A line that only shows `title`.
fn info_node(id: &str, title: String) -> (out: MenuNode)
    ensures
        out@ == MenuNodeView::Entry(info(id@, title@)),
{
    MenuNode::Entry(info_item(id.to_owned(), title))
}

/// A line that can be chosen.
fn action_node(id: &str, title: &str) -> (out: MenuNode)
    ensures
        out@ == MenuNodeView::Entry(action(id@, title@)),
{
    MenuNode::Entry(action_item(id.to_owned(), title.to_owned()))
}

/// A line between groups.
fn separator_node() -> (out: MenuNode)
    ensures
        out@ == MenuNodeView::Entry(MenuEntryView::Separator),
{
    MenuNode::Entry(MenuEntry::Separator)
}

/// A copy of an entry.
fn copy_entry(e: &MenuEntry) -> (out: MenuEntry)
    ensures
        out@ == e@,
{
    match e {
        MenuEntry::Item { id, title, enabled } => MenuEntry::Item {
            id: id.clone(),
            title: title.clone(),
            enabled: *enabled,
        },
        MenuEntry::Separator => MenuEntry::Separator,
    }
}

/// Appends `entries` to `out` as lines of the tray menu.
fn append_as_nodes(out: &mut Vec<MenuNode>, entries: &Vec<MenuEntry>)
    ensures
        node_views(final(out)@) == node_views(old(out)@) + as_nodes(entry_views(entries@)),
{
    let ghost start = node_views(out@);
    let ghost all = as_nodes(entry_views(entries@));
    let n: usize = entries.len();
    let mut i: usize = 0;
    assert(node_views(out@) =~= start + all.subrange(0, 0));
    while i < n
        invariant
            n == entries@.len(),
            i <= n,
            all == as_nodes(entry_views(entries@)),
            node_views(out@) == start + all.subrange(0, i as int),
        decreases n - i,
    {
        let ghost before = node_views(out@);
        let node = MenuNode::Entry(copy_entry(&entries[i]));
        out.push(node);
        assert(node_views(out@) =~= before.push(node@));
        i += 1;
        assert(node_views(out@) =~= start + all.subrange(0, i as int));
    }
    assert(all.subrange(0, n as int) =~= all);
}

/// The tray menu: what is shown while no router is configured, while none
/// is reachable, and for the active router.
pub fn build_tray_menu(state: Option<&ActiveState>, has_routers: bool) -> (out: Vec<MenuNode>)
    ensures
        node_views(out@) == tray_menu(opt_state(state), has_routers),
{
    let mut out: Vec<MenuNode> = Vec::new();
    if !has_routers {
        out.push(info_node("info:no_routers", "No routers configured.".to_owned()));
        out.push(separator_node());
        out.push(action_node("add_router", "Add Router..."));
        out.push(action_node("quit", "Quit"));
        assert(node_views(out@) =~= no_routers_menu());
        return out;
    }
    let active = match state {
        Some(a) => a,
        None => {
            out.push(
                info_node("info:none", "No available routers in the current network.".to_owned()),
            );
            out.push(separator_node());
            out.push(action_node("add_router", "Add Router..."));
            out.push(action_node("settings", "Settings..."));
            out.push(action_node("refresh", "Refresh"));
            out.push(action_node("quit", "Quit"));
            assert(node_views(out@) =~= no_active_menu());
            return out;
        },
    };
    assert(node_views(out@) =~= Seq::empty());
    if let Some(iface) = &active.active_iface {
        let prefix = joined("iface", encode_mac(iface.mac.as_str()).as_str());
        let entries = append_interface_section(iface, &active.policies, prefix.as_str(), true);
        append_as_nodes(&mut out, &entries);
        let ghost before = node_views(out@);
        out.push(separator_node());
        assert(node_views(out@) =~= before.push(MenuNodeView::Entry(MenuEntryView::Separator)));
    }
    assert(node_views(out@) =~= top_section(active@));
    let n: usize = active.interfaces.len();
    let mut i: usize = 0;
    assert(node_views(out@) =~= top_section(active@) + submenus(active@, 0));
    while i < n
        invariant
            n == active.interfaces@.len(),
            i <= n,
            node_views(out@) == top_section(active@) + submenus(active@, i as int),
        decreases n - i,
    {
        let iface = &active.interfaces[i];
        let ghost before = node_views(out@);
        assert(active@.interfaces[i as int] == iface@);
        let skip = match &active.active_iface {
            Some(chosen) => text_eq(iface.mac.as_str(), chosen.mac.as_str()),
            None => false,
        };
        assert(skip == is_active(active@, iface@));
        if !skip {
            let prefix = joined("iface", encode_mac(iface.mac.as_str()).as_str());
            let entries = append_interface_section(iface, &active.policies, prefix.as_str(), false);
            let node = MenuNode::Submenu { title: iface.display_name.clone(), entries };
            out.push(node);
            assert(node_views(out@) =~= before.push(node@));
        }
        i += 1;
        assert(node_views(out@) =~= top_section(active@) + submenus(active@, i as int));
    }
    let ghost body = node_views(out@);
    out.push(separator_node());
    out.push(info_node("router:name", joined("Router: ", active.router.name.as_str())));
    out.push(separator_node());
    out.push(action_node("settings", "Settings..."));
    out.push(action_node("refresh", "Refresh"));
    out.push(action_node("quit", "Quit"));
    assert(node_views(out@) =~= body + closing(active@.router.name));
    out
}

/// What the tray shows when the pointer rests on it: the short label of
/// the active interface's policy after the program's name, or the name
/// alone.
pub open spec fn tooltip_of(state: Option<ActiveStateView>) -> Seq<char> {
    match state {
        Some(a) => match a.active_iface {
            Some(i) => "Keenetic Tray - "@ + short_of(label_of(i.policy, i.deny, a.policies)),
            None => "Keenetic Tray"@,
        },
        None => "Keenetic Tray"@,
    }
}

/// What the tray shows beside its icon: the short label of the active
/// interface's policy, or nothing.
pub open spec fn title_of(state: Option<ActiveStateView>) -> Seq<char> {
    match state {
        Some(a) => match a.active_iface {
            Some(i) => short_of(label_of(i.policy, i.deny, a.policies)),
            None => Seq::empty(),
        },
        None => Seq::empty(),
    }
}

/// The short label of the active interface's policy.
fn active_short(state: Option<&ActiveState>) -> (out: Option<String>)
    ensures
        match out {
            Some(s) => opt_state(state) is Some && opt_state(state)->0.active_iface is Some && s@
                == short_of(
                label_of(
                    opt_state(state)->0.active_iface->0.policy,
                    opt_state(state)->0.active_iface->0.deny,
                    opt_state(state)->0.policies,
                ),
            ),
            None => opt_state(state) is None || opt_state(state)->0.active_iface is None,
        },
{
    match state {
        Some(a) => match &a.active_iface {
            Some(i) => {
                let policy: Option<&str> = match &i.policy {
                    Some(p) => Some(p.as_str()),
                    None => None,
                };
                let label = policy_label(policy, i.deny, &a.policies);
                Some(policy_short(label.as_str()))
            },
            None => None,
        },
        None => None,
    }
}

/// What the tray shows when the pointer rests on it.
pub fn tray_tooltip(state: Option<&ActiveState>) -> (out: String)
    ensures
        out@ == tooltip_of(opt_state(state)),
{
    match active_short(state) {
        Some(short) => joined("Keenetic Tray - ", short.as_str()),
        None => "Keenetic Tray".to_owned(),
    }
}

/// What the tray shows beside its icon.
pub fn tray_title(state: Option<&ActiveState>) -> (out: String)
    ensures
        out@ == title_of(opt_state(state)),
{
    match active_short(state) {
        Some(short) => short,
        None => String::new(),
    }
}

/// The text that separates the parts of an identifier.
pub open spec fn bar() -> Seq<char> {
    seq!['|']
}

/// The part of `s` before its first bar, and what follows that bar where
/// there is one.
pub open spec fn split_bar(s: Seq<char>) -> (Seq<char>, Option<Seq<char>>) {
    match first_occurrence(s, bar()) {
        Some(p) => (s.subrange(0, p), Some(s.subrange(p + 1, s.len() as int))),
        None => (s, None),
    }
}

/// What an item asks to do with a device's policy.
#[derive(Clone, Debug)]
pub enum PolicyRequest {
    /// Give the device the default policy again.
    Default,
    /// Block the device.
    Blocked,
    /// Assign the named policy.
    Assign(String),
    /// Assign a policy, but none is named.
    SetWithoutName,
    /// Something that is not known.
    Other,
}

/// The mathematical value of a [`PolicyRequest`].
pub enum PolicyRequestView {
    Default,
    Blocked,
    Assign(Seq<char>),
    SetWithoutName,
    Other,
}

impl View for PolicyRequest {
    type V = PolicyRequestView;

    open spec fn view(&self) -> PolicyRequestView {
        match self {
            PolicyRequest::Default => PolicyRequestView::Default,
            PolicyRequest::Blocked => PolicyRequestView::Blocked,
            PolicyRequest::Assign(name) => PolicyRequestView::Assign(name@),
            PolicyRequest::SetWithoutName => PolicyRequestView::SetWithoutName,
            PolicyRequest::Other => PolicyRequestView::Other,
        }
    }
}

/// What choosing a menu item asks for.
#[derive(Clone, Debug)]
pub enum MenuAction {
    /// Leave the program.
    Quit,
    /// Show the settings window.
    OpenSettings,
    /// Run a cycle and show the menu anew.
    Refresh,
    /// Change the policy of the device `mac`.
    Policy { mac: String, request: PolicyRequest },
    /// Nothing.
    Ignore,
}

/// The mathematical value of a [`MenuAction`].
pub enum MenuActionView {
    Quit,
    OpenSettings,
    Refresh,
    Policy { mac: Seq<char>, request: PolicyRequestView },
    Ignore,
}

impl View for MenuAction {
    type V = MenuActionView;

    open spec fn view(&self) -> MenuActionView {
        match self {
            MenuAction::Quit => MenuActionView::Quit,
            MenuAction::OpenSettings => MenuActionView::OpenSettings,
            MenuAction::Refresh => MenuActionView::Refresh,
            MenuAction::Policy { mac, request } => MenuActionView::Policy {
                mac: mac@,
                request: request@,
            },
            MenuAction::Ignore => MenuActionView::Ignore,
        }
    }
}

/// What the parts after the address ask for: the first part names the
/// change, and for `set` the part after it names the policy.
pub open spec fn parsed_request(what: Seq<char>) -> PolicyRequestView {
    let (kind, rest) = split_bar(what);
    if kind == "default"@ {
        PolicyRequestView::Default
    } else if kind == "blocked"@ {
        PolicyRequestView::Blocked
    } else if kind == "set"@ {
        match rest {
            Some(r) => PolicyRequestView::Assign(split_bar(r).0),
            None => PolicyRequestView::SetWithoutName,
        }
    } else {
        PolicyRequestView::Other
    }
}

/// What the item with the identifier `id` asks for.
pub open spec fn parsed_id(id: Seq<char>) -> MenuActionView {
    if id == "quit"@ {
        MenuActionView::Quit
    } else if id == "settings"@ || id == "add_router"@ {
        MenuActionView::OpenSettings
    } else if id == "refresh"@ {
        MenuActionView::Refresh
    } else if "policy|"@.is_prefix_of(id) {
        let (address, rest) = split_bar(id.subrange(7, id.len() as int));
        match rest {
            Some(what) => MenuActionView::Policy {
                mac: with_colons(without_colons(address)),
                request: parsed_request(what),
            },
            None => MenuActionView::Ignore,
        }
    } else {
        MenuActionView::Ignore
    }
}

/// The part of `s` before its first bar, and what follows that bar.
fn split_at_bar<'a>(s: &'a [char]) -> (parts: (&'a [char], Option<&'a [char]>))
    ensures
        parts.0@ == split_bar(s@).0,
        match parts.1 {
            Some(rest) => split_bar(s@).1 == Some(rest@),
            None => split_bar(s@).1 is None,
        },
{
    let mut pat: Vec<char> = Vec::new();
    pat.push('|');
    assert(pat@ =~= bar());
    match find(s, pat.as_slice()) {
        Some(p) => {
            proof {
                lemma_search_from_least(s@, pat@, 0);
            }
            assert(occurs_at(s@, pat@, p as int));
            assert(pat@.len() == 1);
            assert(p as int + 1 <= s@.len());
            let n: usize = s.len();
            assert(p < n);
            (slice_subrange(s, 0, p), Some(slice_subrange(s, p + 1, n)))
        },
        None => (s, None),
    }
}

/// Whether `s` is the text `lit`.
fn is_text(s: &[char], lit: &str) -> (same: bool)
    ensures
        same == (s@ == lit@),
{
    let l = chars_of(lit);
    crate::text::same_text(s, l.as_slice())
}

/// What the parts after the address ask for.
fn parse_request(what: &[char]) -> (out: PolicyRequest)
    ensures
        out@ == parsed_request(what@),
{
    let (kind, rest) = split_at_bar(what);
    if is_text(kind, "default") {
        PolicyRequest::Default
    } else if is_text(kind, "blocked") {
        PolicyRequest::Blocked
    } else if is_text(kind, "set") {
        match rest {
            Some(r) => {
                let (name, _) = split_at_bar(r);
                PolicyRequest::Assign(string_of(name))
            },
            None => PolicyRequest::SetWithoutName,
        }
    } else {
        PolicyRequest::Other
    }
}

/// What the item with the identifier `id` asks for.
pub fn parse_menu_id(id: &str) -> (out: MenuAction)
    ensures
        out@ == parsed_id(id@),
{
    proof {
        reveal_strlit("policy|");
    }
    let chars = chars_of(id);
    let all = chars.as_slice();
    if is_text(all, "quit") {
        return MenuAction::Quit;
    }
    if is_text(all, "settings") || is_text(all, "add_router") {
        return MenuAction::OpenSettings;
    }
    if is_text(all, "refresh") {
        return MenuAction::Refresh;
    }
    let lead = chars_of("policy|");
    if !starts_with(all, lead.as_slice()) {
        return MenuAction::Ignore;
    }
    assert(lead@.len() == 7);
    let n: usize = all.len();
    let (address, rest) = split_at_bar(slice_subrange(all, 7, n));
    match rest {
        Some(what) => {
            let encoded = string_of(address);
            MenuAction::Policy { mac: decode_mac(encoded.as_str()), request: parse_request(what) }
        },
        None => MenuAction::Ignore,
    }
}

/// Text without a bar, then a bar, then more text splits at that bar.
pub proof fn lemma_split_bar_joined(head: Seq<char>, tail: Seq<char>)
    requires
        forall|i: int| 0 <= i < head.len() ==> #[trigger] head[i] != '|',
    ensures
        split_bar(head + bar() + tail) == (head, Some(tail)),
{
    let s = head + bar() + tail;
    let h = head.len() as int;
    lemma_search_from_least(s, bar(), 0);
    assert(s.subrange(h, h + 1) =~= bar());
    assert(occurs_at(s, bar(), h));
    assert forall|i: int| 0 <= i < h implies !occurs_at(s, bar(), i) by {
        if occurs_at(s, bar(), i) {
            assert(s.subrange(i, i + 1)[0] == head[i]);
            assert(bar()[0] == '|');
        }
    }
    assert(first_occurrence(s, bar()) == Some(h));
    assert(s.subrange(0, h) =~= head);
    assert(s.subrange(h + 1, s.len() as int) =~= tail);
}

/// Text without a bar does not split.
pub proof fn lemma_split_bar_whole(s: Seq<char>)
    requires
        forall|i: int| 0 <= i < s.len() ==> #[trigger] s[i] != '|',
    ensures
        split_bar(s) == (s, None::<Seq<char>>),
{
    lemma_search_from_least(s, bar(), 0);
    if first_occurrence(s, bar()) is Some {
        let p = first_occurrence(s, bar())->0;
        assert(s.subrange(p, p + 1)[0] == s[p]);
        assert(bar()[0] == '|');
    }
}

/// Dropping the colons keeps a text free of bars.
pub proof fn lemma_without_colons_keeps(s: Seq<char>)
    requires
        forall|i: int| 0 <= i < s.len() ==> #[trigger] s[i] != '|',
    ensures
        forall|i: int|
            0 <= i < without_colons(s).len() ==> #[trigger] without_colons(s)[i] != '|',
        forall|i: int|
            0 <= i < without_colons(s).len() ==> #[trigger] without_colons(s)[i] != ':',
        without_colons(without_colons(s)) == without_colons(s),
    decreases s.len(),
{
    if s.len() > 0 {
        let earlier = s.drop_last();
        assert forall|i: int| 0 <= i < earlier.len() implies #[trigger] earlier[i] != '|' by {
            assert(earlier[i] == s[i]);
        }
        lemma_without_colons_keeps(earlier);
        lemma_no_colons_fixed(without_colons(s));
    }
}

/// A text without colons stays as it is when the colons are dropped.
pub proof fn lemma_no_colons_fixed(s: Seq<char>)
    requires
        forall|i: int| 0 <= i < s.len() ==> #[trigger] s[i] != ':',
    ensures
        without_colons(s) == s,
    decreases s.len(),
{
    if s.len() > 0 {
        let earlier = s.drop_last();
        assert forall|i: int| 0 <= i < earlier.len() implies #[trigger] earlier[i] != ':' by {
            assert(earlier[i] == s[i]);
        }
        lemma_no_colons_fixed(earlier);
        assert(earlier.push(s.last()) =~= s);
    }
}

/// The items of the menu are read back as what they were made for: the
/// item that assigns the policy `name` to the device `mac` asks for just
/// that, and so do the items for the default policy and for blocking. The
/// address comes back with a colon between every two characters. This
/// holds where neither the address nor the name holds a bar.
pub proof fn lemma_menu_id_round_trip(mac: Seq<char>, name: Seq<char>)
    requires
        forall|i: int| 0 <= i < mac.len() ==> #[trigger] mac[i] != '|',
        forall|i: int| 0 <= i < name.len() ==> #[trigger] name[i] != '|',
    ensures
        parsed_id(set_id(mac, name)) == (MenuActionView::Policy {
            mac: with_colons(without_colons(mac)),
            request: PolicyRequestView::Assign(name),
        }),
        parsed_id(change_id(mac, "default"@)) == (MenuActionView::Policy {
            mac: with_colons(without_colons(mac)),
            request: PolicyRequestView::Default,
        }),
        parsed_id(change_id(mac, "blocked"@)) == (MenuActionView::Policy {
            mac: with_colons(without_colons(mac)),
            request: PolicyRequestView::Blocked,
        }),
{
    reveal_strlit("policy|");
    reveal_strlit("|");
    reveal_strlit("quit");
    reveal_strlit("settings");
    reveal_strlit("add_router");
    reveal_strlit("refresh");
    reveal_strlit("default");
    reveal_strlit("blocked");
    reveal_strlit("set");
    reveal_strlit("set|");
    let address = without_colons(mac);
    lemma_without_colons_keeps(mac);
    assert("|"@ =~= bar());
    lemma_id_parts(address, "set|"@ + name);
    lemma_id_parts(address, "default"@);
    lemma_id_parts(address, "blocked"@);
    assert("set|"@ + name =~= "set"@ + bar() + name);
    lemma_split_bar_joined("set"@, name);
    lemma_split_bar_whole(name);
    lemma_split_bar_whole("default"@);
    lemma_split_bar_whole("blocked"@);
    assert("blocked"@[0] == 'b');
    assert("default"@[0] == 'd');
    assert("blocked"@ != "default"@);
}

/// An identifier made of an address without bars and colons and of
/// `what` is read as a change of that address, with `what` as the rest.
proof fn lemma_id_parts(address: Seq<char>, what: Seq<char>)
    requires
        forall|i: int| 0 <= i < address.len() ==> #[trigger] address[i] != '|',
        forall|i: int| 0 <= i < address.len() ==> #[trigger] address[i] != ':',
    ensures
        parsed_id("policy|"@ + address + "|"@ + what) == (MenuActionView::Policy {
            mac: with_colons(address),
            request: parsed_request(what),
        }),
{
    reveal_strlit("policy|");
    reveal_strlit("|");
    reveal_strlit("quit");
    reveal_strlit("settings");
    reveal_strlit("add_router");
    reveal_strlit("refresh");
    let id = "policy|"@ + address + "|"@ + what;
    assert("|"@ =~= bar());
    assert(id.subrange(0, 7) =~= "policy|"@);
    assert(id[0] == 'p');
    assert(id[6] == '|');
    assert(id != "quit"@);
    assert(id != "settings"@) by {
        if id == "settings"@ {
            assert("settings"@[0] == 's');
        }
    }
    assert(id != "add_router"@) by {
        if id == "add_router"@ {
            assert("add_router"@[0] == 'a');
        }
    }
    assert(id != "refresh"@) by {
        if id == "refresh"@ {
            assert("refresh"@[0] == 'r');
        }
    }
    assert(id.subrange(7, id.len() as int) =~= address + bar() + what);
    lemma_split_bar_joined(address, what);
    lemma_no_colons_fixed(address);
}

} // verus!
