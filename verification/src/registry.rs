//! The list of configured routers: adding a router after it has been
//! tried, and removing one.

use crate::address::normalized_address;
use crate::api::{bridge_address, certificate_domains};
use crate::http::{opt_reply, HttpRequest, HttpRequestView, Reply, ReplyView};
use crate::model::{copy_opt_text, opt_text, texts, RouterInfo, RouterView};
use crate::pipeline::router_views;
use crate::session::{
    bridge_request, call_next, certificates_request, login_next, KeeneticRouter, Phase,
    SessionView, Step, StepView,
};
use crate::text::{chars_of, string_of, text_eq};
use vstd::prelude::*;
use vstd::slice::slice_subrange;

verus! {

/// `s` without its trailing slashes.
pub open spec fn trim_slashes(s: Seq<char>) -> Seq<char>
    decreases s.len(),
{
    if s.len() > 0 && s.last() == '/' {
        trim_slashes(s.drop_last())
    } else {
        s
    }
}

/// `address` without its trailing slashes.
pub fn strip_trailing_slashes(address: &str) -> (out: String)
    ensures
        out@ == trim_slashes(address@),
{
    let chars = chars_of(address);
    let mut end: usize = chars.len();
    assert(chars@.subrange(0, end as int) =~= chars@);
    while end > 0 && chars[end - 1] == '/'
        invariant
            end <= chars@.len(),
            trim_slashes(chars@) == trim_slashes(chars@.subrange(0, end as int)),
        decreases end,
    {
        assert(chars@.subrange(0, end as int).drop_last() =~= chars@.subrange(0, end - 1));
        end -= 1;
    }
    string_of(slice_subrange(chars.as_slice(), 0, end))
}

/// Whether a router of `routers` is called `name`.
pub open spec fn name_taken(routers: Seq<RouterView>, name: Seq<char>) -> bool {
    exists|i: int| 0 <= i < routers.len() && (#[trigger] routers[i]).name == name
}

/// Whether `name` cannot be given to a router: another router has it. A
/// router that is being edited may keep its own name.
pub open spec fn name_conflict(routers: Seq<RouterView>, name: Seq<char>, previous: Option<
    Seq<char>,
>) -> bool {
    match previous {
        Some(o) => o != name && name_taken(routers, name),
        None => name_taken(routers, name),
    }
}

/// Whether a router of `routers` is called `name`.
pub fn is_name_taken(routers: &[RouterInfo], name: &str) -> (taken: bool)
    ensures
        taken == name_taken(router_views(routers@), name@),
{
    let ghost all = router_views(routers@);
    let n: usize = routers.len();
    let mut i: usize = 0;
    while i < n
        invariant
            n == routers@.len(),
            i <= n,
            all == router_views(routers@),
            forall|k: int| 0 <= k < i ==> (#[trigger] all[k]).name != name@,
        decreases n - i,
    {
        if text_eq(routers[i].name.as_str(), name) {
            assert(all[i as int].name == name@);
            return true;
        }
        i += 1;
    }
    false
}

/// Whether `name` cannot be given to a router.
pub fn has_name_conflict(routers: &[RouterInfo], name: &str, previous: Option<&str>) -> (conflict:
    bool)
    ensures
        conflict == name_conflict(
            router_views(routers@),
            name@,
            crate::session::opt_str(previous),
        ),
{
    match previous {
        Some(o) => !text_eq(o, name) && is_name_taken(routers, name),
        None => is_name_taken(routers, name),
    }
}

/// Where the trial of a new router stands.
#[derive(Clone, Copy, Debug)]
pub enum RegisterStage {
    /// The router is logging in.
    Login(Phase),
    /// The address of its bridge is being read.
    Bridge(Phase),
    /// Its certificates are being listed.
    Certificates(Phase),
    /// The trial has ended.
    Finished,
}

/// The state of the trial of a new router.
#[derive(Clone)]
pub struct Registration {
    pub name: String,
    pub address: String,
    pub login: String,
    pub password: String,
    pub stage: RegisterStage,
    pub network_ip: Option<String>,
}

/// The mathematical value of a [`Registration`].
pub struct RegistrationView {
    pub name: Seq<char>,
    pub address: Seq<char>,
    pub login: Seq<char>,
    pub password: Seq<char>,
    pub stage: RegisterStage,
    pub network_ip: Option<Seq<char>>,
}

impl View for Registration {
    type V = RegistrationView;

    open spec fn view(&self) -> RegistrationView {
        RegistrationView {
            name: self.name@,
            address: self.address@,
            login: self.login@,
            password: self.password@,
            stage: self.stage,
            network_ip: opt_text(self.network_ip),
        }
    }
}

/// What the caller is to do next.
#[derive(Debug)]
pub enum RegisterCommand {
    /// Send this request.
    Send(HttpRequest),
    /// Stop: the router is to be added as given, or the trial failed for
    /// the reason given.
    Finish(Result<RouterInfo, String>),
}

/// The mathematical value of a [`RegisterCommand`].
pub enum RegisterCommandView {
    Send(HttpRequestView),
    Finish(Result<RouterView, Seq<char>>),
}

impl View for RegisterCommand {
    type V = RegisterCommandView;

    open spec fn view(&self) -> RegisterCommandView {
        match self {
            RegisterCommand::Send(q) => RegisterCommandView::Send(q@),
            RegisterCommand::Finish(Ok(r)) => RegisterCommandView::Finish(Ok(r@)),
            RegisterCommand::Finish(Err(m)) => RegisterCommandView::Finish(Err(m@)),
        }
    }
}

/// The session with which the new router is tried.
pub open spec fn trial_session(r: RegistrationView) -> SessionView {
    SessionView {
        base_url: normalized_address(r.address),
        username: r.login,
        password: r.password,
        name: r.name,
    }
}

/// The state `r` in another stage.
pub open spec fn in_stage(r: RegistrationView, stage: RegisterStage) -> RegistrationView {
    RegistrationView { stage, ..r }
}

/// The trial ends with `result`.
pub open spec fn conclude(r: RegistrationView, result: Result<RouterView, Seq<char>>) -> (
    RegistrationView,
    RegisterCommandView,
) {
    (in_stage(r, RegisterStage::Finished), RegisterCommandView::Finish(result))
}

/// The router as it is added to the list.
pub open spec fn registered(r: RegistrationView, keendns_urls: Option<Seq<Seq<char>>>)
    -> RouterView {
    RouterView {
        name: r.name,
        address: r.address,
        login: r.login,
        network_ip: r.network_ip,
        keendns_urls,
    }
}

/// The step of listing the certificates. The router is added whether or
/// not they can be listed.
pub open spec fn certificates_stage(r: RegistrationView, phase: Phase, reply: Option<ReplyView>)
    -> (RegistrationView, RegisterCommandView) {
    let s = trial_session(r);
    match call_next(s, certificates_request(s), phase, reply) {
        (next, StepView::Send(q)) => (
            in_stage(r, RegisterStage::Certificates(next)),
            RegisterCommandView::Send(q),
        ),
        (_, StepView::Done(Err(_))) => conclude(r, Ok(registered(r, None))),
        (_, StepView::Done(Ok(j))) => conclude(
            r,
            Ok(registered(r, Some(certificate_domains(j)))),
        ),
    }
}

/// The step of reading the address of the bridge. Where it cannot be
/// read the router has no known address on the network.
pub open spec fn bridge_stage(r: RegistrationView, phase: Phase, reply: Option<ReplyView>) -> (
    RegistrationView,
    RegisterCommandView,
) {
    let s = trial_session(r);
    match call_next(s, bridge_request(s), phase, reply) {
        (next, StepView::Send(q)) => (
            in_stage(r, RegisterStage::Bridge(next)),
            RegisterCommandView::Send(q),
        ),
        (_, StepView::Done(Err(_))) => certificates_stage(
            RegistrationView { network_ip: None, ..r },
            Phase::Start,
            None,
        ),
        (_, StepView::Done(Ok(j))) => certificates_stage(
            RegistrationView { network_ip: bridge_address(j), ..r },
            Phase::Start,
            None,
        ),
    }
}

/// The step of the login. A router that does not log in is not added.
pub open spec fn trial_login_stage(r: RegistrationView, phase: Phase, reply: Option<ReplyView>)
    -> (RegistrationView, RegisterCommandView) {
    let s = trial_session(r);
    match login_next(s, phase, reply) {
        (next, StepView::Send(q)) => (
            in_stage(r, RegisterStage::Login(next)),
            RegisterCommandView::Send(q),
        ),
        (_, StepView::Done(Err(_))) => conclude(r, Err("Authentication failed"@)),
        (_, StepView::Done(Ok(_))) => bridge_stage(r, Phase::Start, None),
    }
}

/// How the trial begins: a name that another router has ends it at once;
/// else the address loses its trailing slashes and the router logs in.
pub open spec fn register_start(
    routers: Seq<RouterView>,
    name: Seq<char>,
    address: Seq<char>,
    login: Seq<char>,
    password: Seq<char>,
    previous: Option<Seq<char>>,
) -> (RegistrationView, RegisterCommandView) {
    let r = RegistrationView {
        name,
        address: trim_slashes(address),
        login,
        password,
        stage: RegisterStage::Finished,
        network_ip: None,
    };
    if name_conflict(routers, name, previous) {
        conclude(r, Err("Router with this name already exists"@))
    } else {
        trial_login_stage(r, Phase::Start, None)
    }
}

/// The step of the trial in state `r` on `reply`.
pub open spec fn register_next(r: RegistrationView, reply: ReplyView) -> (
    RegistrationView,
    RegisterCommandView,
) {
    match r.stage {
        RegisterStage::Login(phase) => trial_login_stage(r, phase, Some(reply)),
        RegisterStage::Bridge(phase) => bridge_stage(r, phase, Some(reply)),
        RegisterStage::Certificates(phase) => certificates_stage(r, phase, Some(reply)),
        RegisterStage::Finished => conclude(r, Err("unexpected event"@)),
    }
}

/// The state `state` in another stage.
fn to_stage(state: Registration, stage: RegisterStage) -> (out: Registration)
    ensures
        out@ == in_stage(state@, stage),
{
    let Registration { name, address, login, password, stage: _, network_ip } = state;
    Registration { name, address, login, password, stage, network_ip }
}

/// The trial ends with an error.
fn refuse(state: Registration, message: &str) -> (out: (Registration, RegisterCommand))
    ensures
        out.0@ == conclude(state@, Err(message@)).0,
        out.1@ == conclude(state@, Err(message@)).1,
{
    (to_stage(state, RegisterStage::Finished), RegisterCommand::Finish(Err(message.to_owned())))
}

/// The trial ends with the router to add.
fn accept(state: Registration, keendns_urls: Option<Vec<String>>) -> (out: (
    Registration,
    RegisterCommand,
))
    ensures
        out.0@ == conclude(
            state@,
            Ok(
                registered(
                    state@,
                    match keendns_urls {
                        Some(u) => Some(texts(u@)),
                        None => None,
                    },
                ),
            ),
        ).0,
        out.1@ == conclude(
            state@,
            Ok(
                registered(
                    state@,
                    match keendns_urls {
                        Some(u) => Some(texts(u@)),
                        None => None,
                    },
                ),
            ),
        ).1,
{
    let info = RouterInfo {
        name: state.name.clone(),
        address: state.address.clone(),
        login: state.login.clone(),
        network_ip: copy_opt_text(&state.network_ip),
        keendns_urls,
    };
    (to_stage(state, RegisterStage::Finished), RegisterCommand::Finish(Ok(info)))
}

impl Registration {
    /// The session with which the new router is tried.
    fn session(&self) -> (out: KeeneticRouter)
        ensures
            out@ == trial_session(self@),
    {
        KeeneticRouter::new(
            self.address.as_str(),
            self.login.as_str(),
            self.password.as_str(),
            self.name.as_str(),
        )
    }

    /// Begins the trial of a new router, or of an edited one whose name
    /// was `previous_name`.
    pub fn start(
        routers: &[RouterInfo],
        name: &str,
        address: &str,
        login: &str,
        password: &str,
        previous_name: Option<&str>,
    ) -> (out: (Registration, RegisterCommand))
        ensures
            out.0@ == register_start(
                router_views(routers@),
                name@,
                address@,
                login@,
                password@,
                crate::session::opt_str(previous_name),
            ).0,
            out.1@ == register_start(
                router_views(routers@),
                name@,
                address@,
                login@,
                password@,
                crate::session::opt_str(previous_name),
            ).1,
    {
        let state = Registration {
            name: name.to_owned(),
            address: strip_trailing_slashes(address),
            login: login.to_owned(),
            password: password.to_owned(),
            stage: RegisterStage::Finished,
            network_ip: None,
        };
        if has_name_conflict(routers, name, previous_name) {
            refuse(state, "Router with this name already exists")
        } else {
            trial_login_step(state, Phase::Start, None)
        }
    }
}

/// The step of listing the certificates.
fn certificates_step(state: Registration, phase: Phase, reply: Option<&Reply>) -> (out: (
    Registration,
    RegisterCommand,
))
    ensures
        out.0@ == certificates_stage(state@, phase, opt_reply(reply)).0,
        out.1@ == certificates_stage(state@, phase, opt_reply(reply)).1,
{
    let s = state.session();
    let (next, step) = s.get_keendns_urls(phase, reply);
    match step {
        Step::Send(q) => (
            to_stage(state, RegisterStage::Certificates(next)),
            RegisterCommand::Send(q),
        ),
        Step::Done(Err(_)) => accept(state, None),
        Step::Done(Ok(domains)) => accept(state, Some(domains)),
    }
}

/// The step of reading the address of the bridge.
fn bridge_step(state: Registration, phase: Phase, reply: Option<&Reply>) -> (out: (
    Registration,
    RegisterCommand,
))
    ensures
        out.0@ == bridge_stage(state@, phase, opt_reply(reply)).0,
        out.1@ == bridge_stage(state@, phase, opt_reply(reply)).1,
{
    let s = state.session();
    let (next, step) = s.get_network_ip(phase, reply);
    match step {
        Step::Send(q) => (to_stage(state, RegisterStage::Bridge(next)), RegisterCommand::Send(q)),
        Step::Done(Err(_)) => {
            let Registration { name, address, login, password, stage, network_ip: _ } = state;
            certificates_step(
                Registration { name, address, login, password, stage, network_ip: None },
                Phase::Start,
                None,
            )
        },
        Step::Done(Ok(found)) => {
            let Registration { name, address, login, password, stage, network_ip: _ } = state;
            certificates_step(
                Registration { name, address, login, password, stage, network_ip: found },
                Phase::Start,
                None,
            )
        },
    }
}

/// The step of the login.
fn trial_login_step(state: Registration, phase: Phase, reply: Option<&Reply>) -> (out: (
    Registration,
    RegisterCommand,
))
    ensures
        out.0@ == trial_login_stage(state@, phase, opt_reply(reply)).0,
        out.1@ == trial_login_stage(state@, phase, opt_reply(reply)).1,
{
    let s = state.session();
    let (next, step) = s.login(phase, reply);
    match step {
        Step::Send(q) => (to_stage(state, RegisterStage::Login(next)), RegisterCommand::Send(q)),
        Step::Done(Err(_)) => refuse(state, "Authentication failed"),
        Step::Done(Ok(_)) => bridge_step(state, Phase::Start, None),
    }
}

/// One step of the trial of a new router: answers `reply` with the next
/// command.
///
/// The router has to log in. Then the address of its bridge and the
/// domains of its certificates are read; what cannot be read is left
/// unknown. The trial ends with the router to add to the list.
pub fn save_router(state: Registration, reply: Reply) -> (out: (Registration, RegisterCommand))
    ensures
        out.0@ == register_next(state@, reply@).0,
        out.1@ == register_next(state@, reply@).1,
{
    match state.stage {
        RegisterStage::Login(phase) => trial_login_step(state, phase, Some(&reply)),
        RegisterStage::Bridge(phase) => bridge_step(state, phase, Some(&reply)),
        RegisterStage::Certificates(phase) => certificates_step(state, phase, Some(&reply)),
        RegisterStage::Finished => refuse(state, "unexpected event"),
    }
}

/// The index of the first router at or after `from` that is called
/// `name`.
pub open spec fn router_slot(routers: Seq<RouterView>, name: Seq<char>, from: int) -> Option<int>
    decreases routers.len() - from,
{
    if from < 0 || from >= routers.len() {
        None
    } else if routers[from].name == name {
        Some(from)
    } else {
        router_slot(routers, name, from + 1)
    }
}

/// The list without the first router called `name`.
pub open spec fn without_first_named(routers: Seq<RouterView>, name: Seq<char>) -> Seq<
    RouterView,
> {
    match router_slot(routers, name, 0) {
        Some(i) => routers.remove(i),
        None => routers,
    }
}

/// The list without the routers called `name`.
pub open spec fn without_named(routers: Seq<RouterView>, name: Seq<char>) -> Seq<RouterView>
    decreases routers.len(),
{
    if routers.len() == 0 {
        Seq::empty()
    } else if routers.last().name == name {
        without_named(routers.drop_last(), name)
    } else {
        without_named(routers.drop_last(), name).push(routers.last())
    }
}

/// Takes the first router called `name` out of the list, as is done with
/// the earlier entry of a router that has been edited.
pub fn remove_router(routers: &mut Vec<RouterInfo>, name: &str)
    ensures
        router_views(final(routers)@) == without_first_named(router_views(old(routers)@), name@),
{
    let ghost all = router_views(routers@);
    let n: usize = routers.len();
    let mut i: usize = 0;
    while i < n
        invariant
            n == routers@.len(),
            i <= n,
            routers@ == old(routers)@,
            all == router_views(routers@),
            router_slot(all, name@, 0) == router_slot(all, name@, i as int),
        decreases n - i,
    {
        if text_eq(routers[i].name.as_str(), name) {
            routers.remove(i);
            assert(router_views(routers@) =~= all.remove(i as int));
            return ;
        }
        i += 1;
    }
}

/// Takes every router called `name` out of the list.
pub fn delete_router(routers: &mut Vec<RouterInfo>, name: &str)
    ensures
        router_views(final(routers)@) == without_named(router_views(old(routers)@), name@),
{
    let ghost all = router_views(routers@);
    let mut kept: Vec<RouterInfo> = Vec::new();
    let n: usize = routers.len();
    let mut i: usize = 0;
    assert(all.subrange(0, 0) =~= Seq::empty());
    assert(router_views(kept@) =~= Seq::empty());
    while i < n
        invariant
            n == routers@.len(),
            i <= n,
            all == router_views(routers@),
            router_views(kept@) == without_named(all.subrange(0, i as int), name@),
        decreases n - i,
    {
        assert(all.subrange(0, i + 1).drop_last() =~= all.subrange(0, i as int));
        let ghost before = router_views(kept@);
        if !text_eq(routers[i].name.as_str(), name) {
            let copy = routers[i].duplicate();
            kept.push(copy);
            assert(router_views(kept@) =~= before.push(all[i as int]));
        }
        i += 1;
    }
    assert(all.subrange(0, n as int) =~= all);
    *routers = kept;
}

/// After a router has been deleted no router has its name, and the other
/// routers are all still there.
pub proof fn lemma_deleted_is_gone(routers: Seq<RouterView>, name: Seq<char>)
    ensures
        !name_taken(without_named(routers, name), name),
        forall|i: int|
            0 <= i < routers.len() && (#[trigger] routers[i]).name != name ==> name_taken(
                without_named(routers, name),
                routers[i].name,
            ),
    decreases routers.len(),
{
    if routers.len() > 0 {
        let earlier = routers.drop_last();
        let kept = without_named(earlier, name);
        let after = without_named(routers, name);
        lemma_deleted_is_gone(earlier, name);
        if name_taken(after, name) {
            let k = choose|k: int| 0 <= k < after.len() && (#[trigger] after[k]).name == name;
            if k < kept.len() {
                assert(kept[k] == after[k]);
            }
        }
        assert forall|i: int| 0 <= i < routers.len() && (#[trigger] routers[i]).name
            != name implies name_taken(after, routers[i].name) by {
            if i < earlier.len() {
                assert(earlier[i] == routers[i]);
                let k = choose|k: int|
                    0 <= k < kept.len() && (#[trigger] kept[k]).name == earlier[i].name;
                assert(after[k] == kept[k]);
            } else {
                assert(after[after.len() - 1] == routers[i]);
            }
        }
    }
}

} // verus!
