//! The records that the engine reads and produces.

use crate::json::{JsonValue, JsonView};
use vstd::prelude::*;

verus! {

/// The characters of an optional string.
pub open spec fn opt_text(o: Option<String>) -> Option<Seq<char>> {
    match o {
        Some(s) => Some(s@),
        None => None,
    }
}

/// The characters of each string of a list.
pub open spec fn texts(list: Seq<String>) -> Seq<Seq<char>> {
    Seq::new(list.len(), |i: int| list[i]@)
}

/// A copy of an optional string.
pub fn copy_opt_text(o: &Option<String>) -> (out: Option<String>)
    ensures
        opt_text(out) == opt_text(*o),
{
    match o {
        Some(s) => Some(s.clone()),
        None => None,
    }
}

/// A copy of a list of strings.
pub fn copy_texts(list: &Vec<String>) -> (out: Vec<String>)
    ensures
        texts(out@) == texts(list@),
{
    let mut out: Vec<String> = Vec::new();
    let n: usize = list.len();
    let mut i: usize = 0;
    while i < n
        invariant
            n == list@.len(),
            i <= n,
            out@.len() == i,
            forall|k: int| 0 <= k < i ==> (#[trigger] out@[k])@ == list@[k]@,
        decreases n - i,
    {
        out.push(list[i].clone());
        i += 1;
    }
    assert(texts(out@) =~= texts(list@));
    out
}

/// Why a call to a router failed.
#[derive(Debug)]
pub enum RouterError {
    /// The request did not reach the router or no reply came back.
    Request(String),
    /// The reply was not what the management interface is expected to send.
    InvalidResponse(String),
    /// The router rejected the credentials.
    AuthFailed,
}

/// The mathematical value of a [`RouterError`].
pub enum RouterErrorView {
    Request(Seq<char>),
    InvalidResponse(Seq<char>),
    AuthFailed,
}

impl View for RouterError {
    type V = RouterErrorView;

    open spec fn view(&self) -> RouterErrorView {
        match self {
            RouterError::Request(m) => RouterErrorView::Request(m@),
            RouterError::InvalidResponse(m) => RouterErrorView::InvalidResponse(m@),
            RouterError::AuthFailed => RouterErrorView::AuthFailed,
        }
    }
}

/// A configured router.
#[derive(Clone, Debug)]
pub struct RouterInfo {
    pub name: String,
    pub address: String,
    pub login: String,
    pub network_ip: Option<String>,
    pub keendns_urls: Option<Vec<String>>,
}

/// The mathematical value of a [`RouterInfo`].
pub struct RouterView {
    pub name: Seq<char>,
    pub address: Seq<char>,
    pub login: Seq<char>,
    pub network_ip: Option<Seq<char>>,
    pub keendns_urls: Option<Seq<Seq<char>>>,
}

impl View for RouterInfo {
    type V = RouterView;

    open spec fn view(&self) -> RouterView {
        RouterView {
            name: self.name@,
            address: self.address@,
            login: self.login@,
            network_ip: opt_text(self.network_ip),
            keendns_urls: match self.keendns_urls {
                Some(urls) => Some(texts(urls@)),
                None => None,
            },
        }
    }
}

impl RouterInfo {
    /// A copy of this record.
    pub fn duplicate(&self) -> (out: RouterInfo)
        ensures
            out@ == self@,
    {
        let keendns_urls = match &self.keendns_urls {
            Some(urls) => Some(copy_texts(urls)),
            None => None,
        };
        RouterInfo {
            name: self.name.clone(),
            address: self.address.clone(),
            login: self.login.clone(),
            network_ip: copy_opt_text(&self.network_ip),
            keendns_urls,
        }
    }
}

/// What the router says of one of its policies.
#[derive(Clone, Debug)]
pub struct PolicyInfo {
    pub description: Option<String>,
}

/// The mathematical value of a policy with its name.
pub struct PolicyView {
    pub name: Seq<char>,
    pub description: Option<Seq<char>>,
}

/// The views of a table of policies, each under its name.
pub open spec fn policy_views(list: Seq<(String, PolicyInfo)>) -> Seq<PolicyView> {
    Seq::new(
        list.len(),
        |i: int| PolicyView { name: list[i].0@, description: opt_text(list[i].1.description) },
    )
}

/// A copy of a table of policies.
pub fn copy_policies(list: &Vec<(String, PolicyInfo)>) -> (out: Vec<(String, PolicyInfo)>)
    ensures
        policy_views(out@) == policy_views(list@),
{
    let mut out: Vec<(String, PolicyInfo)> = Vec::new();
    let n: usize = list.len();
    let mut i: usize = 0;
    while i < n
        invariant
            n == list@.len(),
            i <= n,
            out@.len() == i,
            forall|k: int|
                0 <= k < i ==> (#[trigger] out@[k]).0@ == list@[k].0@ && opt_text(
                    out@[k].1.description,
                ) == opt_text(list@[k].1.description),
        decreases n - i,
    {
        let name = list[i].0.clone();
        let description = copy_opt_text(&list[i].1.description);
        out.push((name, PolicyInfo { description }));
        i += 1;
    }
    assert(policy_views(out@) =~= policy_views(list@));
    out
}

/// One device as the router knows it, after its rows have been merged.
#[derive(Debug)]
pub struct ClientInfo {
    pub name: Option<String>,
    pub ip: Option<String>,
    pub mac: String,
    pub policy: Option<String>,
    pub deny: bool,
    pub raw: JsonValue,
}

/// The mathematical value of a [`ClientInfo`].
pub struct ClientView {
    pub name: Option<Seq<char>>,
    pub ip: Option<Seq<char>>,
    pub mac: Seq<char>,
    pub policy: Option<Seq<char>>,
    pub deny: bool,
    pub raw: JsonView,
}

impl View for ClientInfo {
    type V = ClientView;

    open spec fn view(&self) -> ClientView {
        ClientView {
            name: opt_text(self.name),
            ip: opt_text(self.ip),
            mac: self.mac@,
            policy: opt_text(self.policy),
            deny: self.deny,
            raw: self.raw@,
        }
    }
}

impl ClientInfo {
    /// A copy of this record.
    pub fn duplicate(&self) -> (out: ClientInfo)
        ensures
            out@ == self@,
    {
        ClientInfo {
            name: copy_opt_text(&self.name),
            ip: copy_opt_text(&self.ip),
            mac: self.mac.clone(),
            policy: copy_opt_text(&self.policy),
            deny: self.deny,
            raw: self.raw.duplicate(),
        }
    }
}

/// The views of a list of client records.
pub open spec fn client_views(list: Seq<ClientInfo>) -> Seq<ClientView> {
    Seq::new(list.len(), |i: int| list[i]@)
}

/// A network interface of this machine, joined with what the router knows
/// of it.
#[derive(Clone, Debug)]
pub struct InterfaceInfo {
    pub name: String,
    pub display_name: String,
    pub mac: String,
    pub ip: String,
    pub iface_type: String,
    pub online: bool,
    pub policy: Option<String>,
    pub deny: bool,
}

/// The mathematical value of an [`InterfaceInfo`].
pub struct InterfaceView {
    pub name: Seq<char>,
    pub display_name: Seq<char>,
    pub mac: Seq<char>,
    pub ip: Seq<char>,
    pub iface_type: Seq<char>,
    pub online: bool,
    pub policy: Option<Seq<char>>,
    pub deny: bool,
}

impl View for InterfaceInfo {
    type V = InterfaceView;

    open spec fn view(&self) -> InterfaceView {
        InterfaceView {
            name: self.name@,
            display_name: self.display_name@,
            mac: self.mac@,
            ip: self.ip@,
            iface_type: self.iface_type@,
            online: self.online,
            policy: opt_text(self.policy),
            deny: self.deny,
        }
    }
}

impl InterfaceInfo {
    /// A copy of this record.
    pub fn duplicate(&self) -> (out: InterfaceInfo)
        ensures
            out@ == self@,
    {
        InterfaceInfo {
            name: self.name.clone(),
            display_name: self.display_name.clone(),
            mac: self.mac.clone(),
            ip: self.ip.clone(),
            iface_type: self.iface_type.clone(),
            online: self.online,
            policy: copy_opt_text(&self.policy),
            deny: self.deny,
        }
    }
}

/// The views of a list of interface records.
pub open spec fn interface_views(list: Seq<InterfaceInfo>) -> Seq<InterfaceView> {
    Seq::new(list.len(), |i: int| list[i]@)
}

} // verus!
