//! Finding the router that is reachable on the current network and
//! collecting what it knows of this machine.
//!
//! One cycle runs as a sequence of steps. Each step answers an event with
//! a command: to look up a password, to send a request, to list the
//! network interfaces, or to stop with the outcome. Nothing is kept from
//! one cycle to the next.

use crate::address::{extract_host, host_of, normalized_address};
use crate::api::{clients_in, policies_in};
use crate::clients::is_online;
use crate::http::{header_from, is_success, HttpRequest, HttpRequestView, Reply, ReplyView};
use crate::interfaces::{
    active_interface, active_row, correlated, local_interfaces, local_networks, mac_text,
    v4_networks, LocalInterface,
};
use crate::json::JsonView;
use crate::model::{
    client_views, copy_policies, interface_views, opt_text, policy_views, ClientInfo, ClientView,
    InterfaceInfo, InterfaceView, PolicyInfo, PolicyView, RouterError, RouterErrorView, RouterInfo,
    RouterView,
};
use crate::net::{ip_in_networks, text_in_networks, Ipv4Net};
use crate::session::{
    call_next, clients_request, login_next, policies_request,
    KeeneticRouter, Phase, SessionView, Step, StepView,
};
use vstd::prelude::*;

verus! {

/// A configured router that may be reachable, with the address to try.
#[derive(Clone, Debug)]
pub struct Candidate {
    pub router: RouterInfo,
    pub address: String,
}

/// The mathematical value of a [`Candidate`].
pub struct CandidateView {
    pub router: RouterView,
    pub address: Seq<char>,
}

impl View for Candidate {
    type V = CandidateView;

    open spec fn view(&self) -> CandidateView {
        CandidateView { router: self.router@, address: self.address@ }
    }
}

/// The views of a list of routers.
pub open spec fn router_views(list: Seq<RouterInfo>) -> Seq<RouterView> {
    Seq::new(list.len(), |i: int| list[i]@)
}

/// The views of a list of candidates.
pub open spec fn candidate_views(list: Seq<Candidate>) -> Seq<CandidateView> {
    Seq::new(list.len(), |i: int| list[i]@)
}

/// The address under which `router` may be reached on `networks`: its last
/// known address on the network where that lies in one of them; else its
/// configured address where the host named in it does; else none.
pub open spec fn candidate_address(router: RouterView, networks: Seq<Ipv4Net>) -> Option<
    Seq<char>,
> {
    if router.network_ip is Some && text_in_networks(router.network_ip->0, networks) {
        router.network_ip
    } else {
        let host = host_of(router.address);
        if host.len() > 0 && text_in_networks(host, networks) {
            Some(router.address)
        } else {
            None
        }
    }
}

/// The candidates among `routers`, in the order configured.
pub open spec fn candidates_of(routers: Seq<RouterView>, networks: Seq<Ipv4Net>) -> Seq<
    CandidateView,
>
    decreases routers.len(),
{
    if routers.len() == 0 {
        Seq::empty()
    } else {
        let before = candidates_of(routers.drop_last(), networks);
        match candidate_address(routers.last(), networks) {
            Some(address) => before.push(CandidateView { router: routers.last(), address }),
            None => before,
        }
    }
}

/// The candidates keep the order in which the routers are configured:
/// every candidate is a configured router with the address to try, and of
/// two candidates the earlier stands for the router configured earlier.
pub proof fn lemma_candidates_ordered(routers: Seq<RouterView>, networks: Seq<Ipv4Net>)
    ensures
        candidates_of(routers, networks).len() <= routers.len(),
        forall|a: int|
            0 <= a < candidates_of(routers, networks).len() ==> exists|i: int|
                {
                    &&& 0 <= i < routers.len()
                    &&& (#[trigger] candidates_of(routers, networks)[a]).router == routers[i]
                    &&& candidate_address(routers[i], networks) == Some(
                        candidates_of(routers, networks)[a].address,
                    )
                },
        forall|a: int, b: int|
            0 <= a < b < candidates_of(routers, networks).len() ==> exists|i: int, j: int|
                {
                    &&& 0 <= i < j < routers.len()
                    &&& (#[trigger] candidates_of(routers, networks)[a]).router == routers[i]
                    &&& (#[trigger] candidates_of(routers, networks)[b]).router == routers[j]
                },
    decreases routers.len(),
{
    if routers.len() > 0 {
        let earlier = routers.drop_last();
        let before = candidates_of(earlier, networks);
        let after = candidates_of(routers, networks);
        let last = routers.len() - 1;
        lemma_candidates_ordered(earlier, networks);
        assert(routers[last] == routers.last());
        assert forall|a: int| 0 <= a < after.len() implies exists|i: int|
            {
                &&& 0 <= i < routers.len()
                &&& (#[trigger] after[a]).router == routers[i]
                &&& candidate_address(routers[i], networks) == Some(after[a].address)
            } by {
            if a < before.len() {
                assert(after[a] == before[a]);
                let i = choose|i: int|
                    {
                        &&& 0 <= i < earlier.len()
                        &&& (#[trigger] before[a]).router == earlier[i]
                        &&& candidate_address(earlier[i], networks) == Some(before[a].address)
                    };
                assert(earlier[i] == routers[i]);
            } else {
                assert(after[a].router == routers[last]);
            }
        }
        assert forall|a: int, b: int| 0 <= a < b < after.len() implies exists|i: int, j: int|
            {
                &&& 0 <= i < j < routers.len()
                &&& (#[trigger] after[a]).router == routers[i]
                &&& (#[trigger] after[b]).router == routers[j]
            } by {
            assert(after[a] == before[a]);
            if b < before.len() {
                assert(after[b] == before[b]);
                let (i, j) = choose|i: int, j: int|
                    {
                        &&& 0 <= i < j < earlier.len()
                        &&& (#[trigger] before[a]).router == earlier[i]
                        &&& (#[trigger] before[b]).router == earlier[j]
                    };
                assert(earlier[i] == routers[i]);
                assert(earlier[j] == routers[j]);
            } else {
                let i = choose|i: int|
                    {
                        &&& 0 <= i < earlier.len()
                        &&& (#[trigger] before[a]).router == earlier[i]
                        &&& candidate_address(earlier[i], networks) == Some(before[a].address)
                    };
                assert(earlier[i] == routers[i]);
                assert(after[b].router == routers[last]);
            }
        }
    }
}

/// The address under which `router` may be reached on `networks`.
pub fn reachable_address(router: &RouterInfo, networks: &[Ipv4Net]) -> (out: Option<String>)
    ensures
        opt_text(out) == candidate_address(router@, networks@),
{
    if let Some(ip) = &router.network_ip {
        if ip_in_networks(ip.as_str(), networks) {
            return Some(ip.clone());
        }
    }
    let host = extract_host(router.address.as_str());
    if host.as_str().unicode_len() != 0 && ip_in_networks(host.as_str(), networks) {
        Some(router.address.clone())
    } else {
        None
    }
}

/// The routers that may be reachable on `networks`, in the order
/// configured, each with the address to try.
pub fn router_candidates(routers: &[RouterInfo], networks: &[Ipv4Net]) -> (out: Vec<Candidate>)
    ensures
        candidate_views(out@) == candidates_of(router_views(routers@), networks@),
{
    let ghost all = router_views(routers@);
    let mut out: Vec<Candidate> = Vec::new();
    let n: usize = routers.len();
    let mut i: usize = 0;
    assert(all.subrange(0, 0) =~= Seq::empty());
    assert(candidate_views(out@) =~= Seq::empty());
    while i < n
        invariant
            n == routers@.len(),
            i <= n,
            all == router_views(routers@),
            candidate_views(out@) == candidates_of(all.subrange(0, i as int), networks@),
        decreases n - i,
    {
        assert(all.subrange(0, i + 1).drop_last() =~= all.subrange(0, i as int));
        let ghost before = candidate_views(out@);
        match reachable_address(&routers[i], networks) {
            Some(address) => {
                let c = Candidate { router: routers[i].duplicate(), address };
                out.push(c);
                assert(candidate_views(out@) =~= before.push(c@));
            },
            None => {},
        }
        i += 1;
    }
    assert(all.subrange(0, n as int) =~= all);
    out
}

/// What a cycle found of the active router.
#[derive(Clone, Debug)]
pub struct ActiveState {
    pub router: RouterInfo,
    pub interfaces: Vec<InterfaceInfo>,
    pub policies: Vec<(String, PolicyInfo)>,
    pub active_iface: Option<InterfaceInfo>,
    pub active_address: String,
}

/// The mathematical value of an [`ActiveState`].
pub struct ActiveStateView {
    pub router: RouterView,
    pub interfaces: Seq<InterfaceView>,
    pub policies: Seq<PolicyView>,
    pub active_iface: Option<InterfaceView>,
    pub active_address: Seq<char>,
}

impl View for ActiveState {
    type V = ActiveStateView;

    open spec fn view(&self) -> ActiveStateView {
        ActiveStateView {
            router: self.router@,
            interfaces: interface_views(self.interfaces@),
            policies: policy_views(self.policies@),
            active_iface: match self.active_iface {
                Some(i) => Some(i@),
                None => None,
            },
            active_address: self.active_address@,
        }
    }
}

/// How a cycle ended.
#[derive(Clone, Debug)]
pub enum Outcome {
    /// No router is configured.
    NoRouters,
    /// Routers are configured, but none is reachable and logs in.
    NoReachableRouter,
    /// A router is reachable and logged in.
    Active(ActiveState),
}

/// The mathematical value of an [`Outcome`].
pub enum OutcomeView {
    NoRouters,
    NoReachableRouter,
    Active(ActiveStateView),
}

impl View for Outcome {
    type V = OutcomeView;

    open spec fn view(&self) -> OutcomeView {
        match self {
            Outcome::NoRouters => OutcomeView::NoRouters,
            Outcome::NoReachableRouter => OutcomeView::NoReachableRouter,
            Outcome::Active(a) => OutcomeView::Active(a@),
        }
    }
}

/// Where a cycle stands.
#[derive(Clone, Copy, Debug)]
pub enum Stage {
    /// The password of the current candidate has been asked for.
    Password,
    /// The current candidate is logging in.
    Login(Phase),
    /// The policies of the active router are being fetched.
    Policies(Phase),
    /// The devices of the active router are being fetched.
    Clients(Phase),
    /// The network interfaces of this machine have been asked for.
    Interfaces,
    /// The cycle has ended.
    Finished,
}

/// The state of a cycle.
pub struct Pipeline {
    pub candidates: Vec<Candidate>,
    pub index: usize,
    pub stage: Stage,
    pub password: String,
    pub policies: Vec<(String, PolicyInfo)>,
    pub clients: Vec<ClientInfo>,
}

/// The mathematical value of a [`Pipeline`].
pub struct PipelineView {
    pub candidates: Seq<CandidateView>,
    pub index: int,
    pub stage: Stage,
    pub password: Seq<char>,
    pub policies: Seq<PolicyView>,
    pub clients: Seq<ClientView>,
}

impl View for Pipeline {
    type V = PipelineView;

    open spec fn view(&self) -> PipelineView {
        PipelineView {
            candidates: candidate_views(self.candidates@),
            index: self.index as int,
            stage: self.stage,
            password: self.password@,
            policies: policy_views(self.policies@),
            clients: client_views(self.clients@),
        }
    }
}

/// What happened since the last command.
pub enum Event {
    /// The password that was asked for, or `None` where none is stored.
    Password(Option<String>),
    /// How the exchange that was asked for ended.
    Reply(Reply),
    /// The network interfaces of this machine.
    Interfaces(Vec<LocalInterface>),
}

/// The mathematical value of an [`Event`].
pub enum EventView {
    Password(Option<Seq<char>>),
    Reply(ReplyView),
    Interfaces(Seq<LocalInterface>),
}

impl View for Event {
    type V = EventView;

    open spec fn view(&self) -> EventView {
        match self {
            Event::Password(p) => EventView::Password(opt_text(*p)),
            Event::Reply(r) => EventView::Reply(r@),
            Event::Interfaces(list) => EventView::Interfaces(list@),
        }
    }
}

/// What the caller is to do next.
#[derive(Debug)]
pub enum Command {
    /// Look up the password stored for the router of this name.
    AskPassword(String),
    /// Send this request.
    Send(HttpRequest),
    /// List the network interfaces of this machine.
    ListInterfaces,
    /// Stop: the cycle has ended.
    Finish(Result<Outcome, RouterError>),
}

/// The mathematical value of a [`Command`].
pub enum CommandView {
    AskPassword(Seq<char>),
    Send(HttpRequestView),
    ListInterfaces,
    Finish(Result<OutcomeView, RouterErrorView>),
}

impl View for Command {
    type V = CommandView;

    open spec fn view(&self) -> CommandView {
        match self {
            Command::AskPassword(name) => CommandView::AskPassword(name@),
            Command::Send(q) => CommandView::Send(q@),
            Command::ListInterfaces => CommandView::ListInterfaces,
            Command::Finish(Ok(o)) => CommandView::Finish(Ok(o@)),
            Command::Finish(Err(e)) => CommandView::Finish(Err(e@)),
        }
    }
}

/// The session with which a candidate is tried.
pub open spec fn session_of(c: CandidateView, password: Seq<char>) -> SessionView {
    SessionView {
        base_url: normalized_address(c.address),
        username: c.router.login,
        password,
        name: c.router.name,
    }
}

/// The state `p` in another stage.
pub open spec fn at_stage(p: PipelineView, stage: Stage) -> PipelineView {
    PipelineView { stage, ..p }
}

/// The cycle ends with `result`.
pub open spec fn finish(p: PipelineView, result: Result<OutcomeView, RouterErrorView>) -> (
    PipelineView,
    CommandView,
) {
    (at_stage(p, Stage::Finished), CommandView::Finish(result))
}

/// The cycle ends because an event came that the stage does not expect.
pub open spec fn unexpected(p: PipelineView) -> (PipelineView, CommandView) {
    finish(p, Err(RouterErrorView::InvalidResponse("unexpected event"@)))
}

/// The candidate `index` is tried: its password is asked for. Where no
/// candidate is left, the cycle ends without an active router.
pub open spec fn try_candidate(p: PipelineView, index: int) -> (PipelineView, CommandView) {
    if 0 <= index < p.candidates.len() {
        (
            PipelineView { index, stage: Stage::Password, ..p },
            CommandView::AskPassword(p.candidates[index].router.name),
        )
    } else {
        finish(p, Ok(OutcomeView::NoReachableRouter))
    }
}

/// The state in which a cycle begins, before any candidate is tried.
pub open spec fn initial(candidates: Seq<CandidateView>) -> PipelineView {
    PipelineView {
        candidates,
        index: 0,
        stage: Stage::Finished,
        password: Seq::empty(),
        policies: Seq::empty(),
        clients: Seq::empty(),
    }
}

/// How a cycle begins: without routers it ends at once; else the first
/// candidate on the networks of `ifaces` is tried.
pub open spec fn pipeline_start(routers: Seq<RouterView>, ifaces: Seq<LocalInterface>) -> (
    PipelineView,
    CommandView,
) {
    if routers.len() == 0 {
        finish(initial(Seq::empty()), Ok(OutcomeView::NoRouters))
    } else {
        try_candidate(initial(candidates_of(routers, v4_networks(ifaces))), 0)
    }
}

/// The step of the login of the current candidate. A candidate that does
/// not log in is passed over.
pub open spec fn login_stage(p: PipelineView, phase: Phase, reply: Option<ReplyView>) -> (
    PipelineView,
    CommandView,
) {
    let s = session_of(p.candidates[p.index], p.password);
    match login_next(s, phase, reply) {
        (next, StepView::Send(q)) => (at_stage(p, Stage::Login(next)), CommandView::Send(q)),
        (_, StepView::Done(Err(_))) => try_candidate(p, p.index + 1),
        (_, StepView::Done(Ok(_))) => policies_stage(p, Phase::Start, None),
    }
}

/// The step of fetching the policies. A failure ends the cycle.
pub open spec fn policies_stage(p: PipelineView, phase: Phase, reply: Option<ReplyView>) -> (
    PipelineView,
    CommandView,
) {
    let s = session_of(p.candidates[p.index], p.password);
    match call_next(s, policies_request(s), phase, reply) {
        (next, StepView::Send(q)) => (at_stage(p, Stage::Policies(next)), CommandView::Send(q)),
        (_, StepView::Done(Err(e))) => finish(p, Err(e)),
        (_, StepView::Done(Ok(j))) => clients_stage(
            PipelineView { policies: policies_in(j), ..p },
            Phase::Start,
            None,
        ),
    }
}

/// The step of fetching the devices. A failure ends the cycle.
pub open spec fn clients_stage(p: PipelineView, phase: Phase, reply: Option<ReplyView>) -> (
    PipelineView,
    CommandView,
) {
    let s = session_of(p.candidates[p.index], p.password);
    match call_next(s, clients_request(s), phase, reply) {
        (next, StepView::Send(q)) => (at_stage(p, Stage::Clients(next)), CommandView::Send(q)),
        (_, StepView::Done(Err(e))) => finish(p, Err(e)),
        (_, StepView::Done(Ok(j))) => (
            PipelineView { clients: clients_in(j), stage: Stage::Interfaces, ..p },
            CommandView::ListInterfaces,
        ),
    }
}

/// The last step: the interfaces are joined with the devices, and the
/// cycle ends with the active router.
pub open spec fn interfaces_stage(p: PipelineView, ifaces: Seq<LocalInterface>) -> (
    PipelineView,
    CommandView,
) {
    let rows = correlated(ifaces, p.clients);
    finish(
        p,
        Ok(
            OutcomeView::Active(
                ActiveStateView {
                    router: p.candidates[p.index].router,
                    interfaces: rows,
                    policies: p.policies,
                    active_iface: active_row(rows),
                    active_address: p.candidates[p.index].address,
                },
            ),
        ),
    )
}

/// The step of a cycle in state `p` on event `e`.
pub open spec fn pipeline_next(p: PipelineView, e: EventView) -> (PipelineView, CommandView) {
    if !(0 <= p.index < p.candidates.len()) {
        unexpected(p)
    } else {
        match (p.stage, e) {
            (Stage::Password, EventView::Password(None)) => try_candidate(p, p.index + 1),
            (Stage::Password, EventView::Password(Some(password))) => login_stage(
                PipelineView { password, ..p },
                Phase::Start,
                None,
            ),
            (Stage::Login(phase), EventView::Reply(r)) => login_stage(p, phase, Some(r)),
            (Stage::Policies(phase), EventView::Reply(r)) => policies_stage(p, phase, Some(r)),
            (Stage::Clients(phase), EventView::Reply(r)) => clients_stage(p, phase, Some(r)),
            (Stage::Interfaces, EventView::Interfaces(ifaces)) => interfaces_stage(p, ifaces),
            _ => unexpected(p),
        }
    }
}

/// What holds of every step of a cycle. The candidates stay as they are,
/// and the cycle never goes back to an earlier one. A request goes to the
/// candidate that is being tried and to no other router. A password is
/// asked for the candidate that is tried next, and the cycle moves on to
/// the next candidate only where no password is stored for the current
/// one or its login fails. Once a candidate has logged in, no other is
/// tried. An active router is the candidate that was being tried, with
/// the address that was tried.
pub proof fn lemma_pipeline_step(p: PipelineView, e: EventView)
    ensures
        pipeline_next(p, e).0.candidates == p.candidates,
        pipeline_next(p, e).0.index >= p.index,
        pipeline_next(p, e).1 matches CommandView::Send(q) ==> {
            &&& 0 <= p.index < p.candidates.len()
            &&& pipeline_next(p, e).0.index == p.index
            &&& normalized_address(p.candidates[p.index].address).is_prefix_of(q.url)
        },
        pipeline_next(p, e).1 matches CommandView::AskPassword(name) ==> {
            &&& p.index < pipeline_next(p, e).0.index < p.candidates.len()
            &&& pipeline_next(p, e).0.stage is Password
            &&& name == p.candidates[pipeline_next(p, e).0.index].router.name
        },
        pipeline_next(p, e).1 is AskPassword ==> {
            ||| p.stage is Password && e == EventView::Password(None)
            ||| p.stage is Login && e is Reply && login_next(
                session_of(p.candidates[p.index], p.password),
                p.stage->Login_0,
                Some(e->Reply_0),
            ).1 matches StepView::Done(Err(_))
        },
        p.stage is Policies || p.stage is Clients || p.stage is Interfaces ==> {
            &&& pipeline_next(p, e).0.index == p.index
            &&& !(pipeline_next(p, e).1 is AskPassword)
        },
        pipeline_next(p, e).1 is Finish ==> pipeline_next(p, e).0.stage is Finished,
        pipeline_next(p, e).1 matches CommandView::Finish(Ok(OutcomeView::Active(a))) ==> {
            &&& 0 <= p.index < p.candidates.len()
            &&& p.stage is Interfaces
            &&& a.router == p.candidates[p.index].router
            &&& a.active_address == p.candidates[p.index].address
            &&& a.policies == p.policies
            &&& a.active_iface == active_row(a.interfaces)
        },
{
    if 0 <= p.index < p.candidates.len() {
        let c = p.candidates[p.index];
        match (p.stage, e) {
            (Stage::Password, EventView::Password(Some(password))) => {
                let s = session_of(c, password);
                crate::session::lemma_endpoint_on_router(s, Seq::empty(), None);
            },
            (Stage::Login(phase), EventView::Reply(r)) => {
                let s = session_of(c, p.password);
                crate::session::lemma_endpoint_on_router(s, Seq::empty(), None);
                crate::session::lemma_login_outcomes(s, phase, Some(r));
            },
            (Stage::Policies(phase), EventView::Reply(r)) => {
                let s = session_of(c, p.password);
                crate::session::lemma_endpoint_on_router(s, "rci/show/rc/ip/policy"@, None);
                crate::session::lemma_call_stays_on_router(
                    s,
                    policies_request(s),
                    phase,
                    Some(r),
                );
            },
            (Stage::Clients(phase), EventView::Reply(r)) => {
                let s = session_of(c, p.password);
                crate::session::lemma_endpoint_on_router(s, "rci/show/ip/hotspot/host"@, None);
                crate::session::lemma_call_stays_on_router(s, clients_request(s), phase, Some(r));
            },
            _ => {},
        }
    }
}

/// Whether `reply` is a response with a success status.
pub open spec fn accepted(reply: ReplyView) -> bool {
    reply is Response && is_success(reply->Response_0.status)
}

/// Whether `reply` is a response with a success status and the JSON
/// document `body`.
pub open spec fn answers(reply: ReplyView, body: JsonView) -> bool {
    accepted(reply) && reply->Response_0.body == Some(body)
}

/// Whether `reply` asks for a login: status 401 with both tokens.
pub open spec fn challenges(reply: ReplyView) -> bool {
    &&& reply is Response
    &&& reply->Response_0.status == 401
    &&& header_from(reply->Response_0.headers, "X-NDM-Realm"@, 0) is Some
    &&& header_from(reply->Response_0.headers, "X-NDM-Challenge"@, 0) is Some
}

/// The state and the command that follow `before` on the event `e`: the
/// step of `pipeline_next` from the state in `before`. Proofs about
/// several steps in a row speak of it, so that each step is opened only
/// where it is looked at.
#[verifier::opaque]
pub open spec fn after(before: (PipelineView, CommandView), e: EventView) -> (
    PipelineView,
    CommandView,
) {
    pipeline_next(before.0, e)
}

/// A cycle with one router that is reachable begins by asking for that
/// router's password.
pub proof fn lemma_cycle_start(router: RouterView, machine: Seq<LocalInterface>)
    requires
        candidate_address(router, v4_networks(machine)) is Some,
    ensures
        pipeline_start(seq![router], machine).1 == CommandView::AskPassword(router.name),
        pipeline_start(seq![router], machine).0 == (PipelineView {
            stage: Stage::Password,
            ..initial(
                seq![
                    CandidateView {
                        router,
                        address: candidate_address(router, v4_networks(machine))->0,
                    },
                ],
            )
        }),
{
    let networks = v4_networks(machine);
    let routers = seq![router];
    assert(routers.drop_last() =~= Seq::<RouterView>::empty());
    assert(routers.last() == router);
    reveal_with_fuel(candidates_of, 2);
    assert(candidates_of(routers, networks) =~= seq![
        CandidateView { router, address: candidate_address(router, networks)->0 },
    ]);
}

/// The login of a candidate: once its password is there, the probe is
/// sent; a router that asks for a login gets the answer; and when the
/// router accepts it, the fetch of the policies begins. The candidate
/// stays the one that is tried.
pub proof fn lemma_cycle_login(
    asked: (PipelineView, CommandView),
    password: Seq<char>,
    challenge: ReplyView,
    login: ReplyView,
)
    requires
        0 <= asked.0.index < asked.0.candidates.len(),
        asked.0.stage is Password,
        challenges(challenge),
        accepted(login),
    ensures
        ({
            let probing = after(asked, EventView::Password(Some(password)));
            let answering = after(probing, EventView::Reply(challenge));
            let logged_in = after(answering, EventView::Reply(login));
            &&& probing.1 is Send
            &&& answering.1 is Send
            &&& logged_in.1 is Send
            &&& logged_in.0 == (PipelineView {
                password,
                stage: Stage::Policies(Phase::Probing),
                ..asked.0
            })
        }),
{
    reveal(after);
    let p = asked.0;
    let probing = after(asked, EventView::Password(Some(password)));
    assert(probing.0 == (PipelineView { password, stage: Stage::Login(Phase::Probing), ..p }));
    let answering = after(probing, EventView::Reply(challenge));
    assert(answering.0 == (PipelineView {
        password,
        stage: Stage::Login(Phase::Answering),
        ..p
    }));
}

/// The fetch of the policies and of the devices: each begins with a
/// probe, and where the session is still valid the request itself
/// follows. The policies that come back are kept, and the devices are
/// asked for next.
pub proof fn lemma_cycle_fetch(
    logged_in: (PipelineView, CommandView),
    valid: ReplyView,
    policies: ReplyView,
    policy_table: JsonView,
)
    requires
        0 <= logged_in.0.index < logged_in.0.candidates.len(),
        logged_in.0.stage == Stage::Policies(Phase::Probing),
        accepted(valid),
        answers(policies, policy_table),
    ensures
        ({
            let fetching = after(logged_in, EventView::Reply(valid));
            let fetched = after(fetching, EventView::Reply(policies));
            let listing = after(fetched, EventView::Reply(valid));
            &&& fetching.1 is Send
            &&& fetched.1 is Send
            &&& listing.1 is Send
            &&& listing.0 == (PipelineView {
                policies: policies_in(policy_table),
                stage: Stage::Clients(Phase::Requesting),
                ..logged_in.0
            })
        }),
{
    reveal(after);
    let p = logged_in.0;
    let fetching = after(logged_in, EventView::Reply(valid));
    assert(fetching.0 == (PipelineView { stage: Stage::Policies(Phase::Requesting), ..p }));
    let fetched = after(fetching, EventView::Reply(policies));
    assert(fetched.0 == (PipelineView {
        policies: policies_in(policy_table),
        stage: Stage::Clients(Phase::Probing),
        ..p
    }));
}

/// The end of a cycle: once the devices of the active router have come
/// back, the interfaces of the machine are asked for, and with them the
/// cycle ends with the active router, its policies, and the interfaces
/// joined with the devices.
pub proof fn lemma_cycle_end(
    listing: (PipelineView, CommandView),
    reply: ReplyView,
    body: JsonView,
    ifaces: Seq<LocalInterface>,
)
    requires
        0 <= listing.0.index < listing.0.candidates.len(),
        listing.0.stage == Stage::Clients(Phase::Requesting),
        answers(reply, body),
    ensures
        ({
            let p = listing.0;
            let listed = after(listing, EventView::Reply(reply));
            let ended = after(listed, EventView::Interfaces(ifaces));
            &&& listed.1 == CommandView::ListInterfaces
            &&& ended.1 == CommandView::Finish(
                Ok(
                    OutcomeView::Active(
                        ActiveStateView {
                            router: p.candidates[p.index].router,
                            interfaces: correlated(ifaces, clients_in(body)),
                            policies: p.policies,
                            active_iface: active_row(correlated(ifaces, clients_in(body))),
                            active_address: p.candidates[p.index].address,
                        },
                    ),
                ),
            )
        }),
{
    reveal(after);
}

/// A whole cycle with one router, end to end.
///
/// One router is configured and reachable. Its password is stored, it
/// asks for a login and accepts the answer, and its policies and devices
/// come back. The router lists one device twice, the later row saying
/// whether the device is blocked, and this machine has one interface with
/// that device's address. Then the cycle ends with that router as the
/// active one and with one row for the interface: with the interface's
/// address, blocked as the later row says, connected as the later row
/// alone says, and chosen as the active interface.
pub proof fn lemma_end_to_end(
    router: RouterView,
    machine: Seq<LocalInterface>,
    password: Seq<char>,
    challenge: ReplyView,
    login: ReplyView,
    valid: ReplyView,
    policies: ReplyView,
    devices: ReplyView,
    policy_table: JsonView,
    first: JsonView,
    second: JsonView,
    deny: bool,
    iface: LocalInterface,
)
    requires
        candidate_address(router, v4_networks(machine)) is Some,
        challenges(challenge),
        accepted(login),
        accepted(valid),
        answers(policies, policy_table),
        answers(devices, JsonView::Array(seq![first, second])),
        !iface.loopback,
        iface.mac is Some,
        first.text_member("mac"@) == Some(mac_text(iface.mac->0@)),
        second.text_member("mac"@) == Some(mac_text(iface.mac->0@)),
        second.bool_member("deny"@) == Some(deny),
    ensures
        ({
            let asked = pipeline_start(seq![router], machine);
            let probing = after(asked, EventView::Password(Some(password)));
            let answering = after(probing, EventView::Reply(challenge));
            let logged_in = after(answering, EventView::Reply(login));
            let fetching = after(logged_in, EventView::Reply(valid));
            let fetched = after(fetching, EventView::Reply(policies));
            let listing = after(fetched, EventView::Reply(valid));
            let listed = after(listing, EventView::Reply(devices));
            let ended = after(listed, EventView::Interfaces(seq![iface]));
            &&& asked.1 == CommandView::AskPassword(router.name)
            &&& probing.1 is Send
            &&& answering.1 is Send
            &&& logged_in.1 is Send
            &&& fetching.1 is Send
            &&& fetched.1 is Send
            &&& listing.1 is Send
            &&& listed.1 == CommandView::ListInterfaces
            &&& ended.1 is Finish
            &&& ended.1->Finish_0 is Ok
            &&& ended.1->Finish_0->Ok_0 is Active
            &&& ended.1->Finish_0->Ok_0->Active_0.router == router
            &&& ended.1->Finish_0->Ok_0->Active_0.policies == policies_in(policy_table)
            &&& ended.1->Finish_0->Ok_0->Active_0.interfaces.len() == 1
            &&& ended.1->Finish_0->Ok_0->Active_0.interfaces[0].mac == mac_text(iface.mac->0@)
            &&& ended.1->Finish_0->Ok_0->Active_0.interfaces[0].deny == deny
            &&& ended.1->Finish_0->Ok_0->Active_0.interfaces[0].online == is_online(second)
            &&& ended.1->Finish_0->Ok_0->Active_0.active_iface == Some(
                ended.1->Finish_0->Ok_0->Active_0.interfaces[0],
            )
        }),
{
    lemma_cycle_start(router, machine);
    let asked = pipeline_start(seq![router], machine);
    lemma_cycle_login(asked, password, challenge, login);
    let probing = after(asked, EventView::Password(Some(password)));
    let answering = after(probing, EventView::Reply(challenge));
    let logged_in = after(answering, EventView::Reply(login));
    lemma_cycle_fetch(logged_in, valid, policies, policy_table);
    let fetching = after(logged_in, EventView::Reply(valid));
    let fetched = after(fetching, EventView::Reply(policies));
    let listing = after(fetched, EventView::Reply(valid));
    lemma_cycle_end(listing, devices, JsonView::Array(seq![first, second]), seq![iface]);
    crate::interfaces::lemma_device_listed_twice(first, second, deny, iface);
}

/// The cycle ends with `result`.
fn finish_with(state: Pipeline, result: Result<Outcome, RouterError>) -> (out: (Pipeline, Command))
    ensures
        out.0@ == at_stage(state@, Stage::Finished),
        out.1 == Command::Finish(result),
{
    let Pipeline { candidates, index, stage: _, password, policies, clients } = state;
    (
        Pipeline { candidates, index, stage: Stage::Finished, password, policies, clients },
        Command::Finish(result),
    )
}

/// The cycle ends because an event came that the stage does not expect.
fn stop_unexpected(state: Pipeline) -> (out: (Pipeline, Command))
    ensures
        out.0@ == unexpected(state@).0,
        out.1@ == unexpected(state@).1,
{
    finish_with(state, Err(RouterError::InvalidResponse("unexpected event".to_owned())))
}

/// The candidate `index` is tried, or the cycle ends where none is left.
fn try_next(state: Pipeline, index: usize) -> (out: (Pipeline, Command))
    ensures
        out.0@ == try_candidate(state@, index as int).0,
        out.1@ == try_candidate(state@, index as int).1,
{
    if index < state.candidates.len() {
        let name = state.candidates[index].router.name.clone();
        let Pipeline { candidates, index: _, stage: _, password, policies, clients } = state;
        (
            Pipeline { candidates, index, stage: Stage::Password, password, policies, clients },
            Command::AskPassword(name),
        )
    } else {
        finish_with(state, Ok(Outcome::NoReachableRouter))
    }
}

/// The state `state` in another stage.
fn move_to(state: Pipeline, stage: Stage) -> (out: Pipeline)
    ensures
        out@ == at_stage(state@, stage),
{
    let Pipeline { candidates, index, stage: _, password, policies, clients } = state;
    Pipeline { candidates, index, stage, password, policies, clients }
}

impl Pipeline {
    /// The session with which the current candidate is tried.
    fn session(&self) -> (out: KeeneticRouter)
        requires
            self.index < self.candidates@.len(),
        ensures
            out@ == session_of(self@.candidates[self@.index], self@.password),
    {
        let c = &self.candidates[self.index];
        KeeneticRouter::new(
            c.address.as_str(),
            c.router.login.as_str(),
            self.password.as_str(),
            c.router.name.as_str(),
        )
    }

    /// Begins a cycle: the routers that may be reachable on the networks
    /// of `ifaces` become the candidates, and the first is tried.
    pub fn start(routers: &[RouterInfo], ifaces: &[LocalInterface]) -> (out: (Pipeline, Command))
        ensures
            out.0@ == pipeline_start(router_views(routers@), ifaces@).0,
            out.1@ == pipeline_start(router_views(routers@), ifaces@).1,
    {
        if routers.len() == 0 {
            let state = Pipeline {
                candidates: Vec::new(),
                index: 0,
                stage: Stage::Finished,
                password: String::new(),
                policies: Vec::new(),
                clients: Vec::new(),
            };
            assert(candidate_views(state.candidates@) =~= Seq::empty());
            assert(policy_views(state.policies@) =~= Seq::empty());
            assert(client_views(state.clients@) =~= Seq::empty());
            assert(state@ == initial(Seq::empty()));
            finish_with(state, Ok(Outcome::NoRouters))
        } else {
            let networks = local_networks(ifaces);
            let candidates = router_candidates(routers, networks.as_slice());
            let state = Pipeline {
                candidates,
                index: 0,
                stage: Stage::Finished,
                password: String::new(),
                policies: Vec::new(),
                clients: Vec::new(),
            };
            assert(policy_views(state.policies@) =~= Seq::empty());
            assert(client_views(state.clients@) =~= Seq::empty());
            assert(state@ == initial(
                candidates_of(router_views(routers@), v4_networks(ifaces@)),
            ));
            try_next(state, 0)
        }
    }
}

/// The step of fetching the devices.
fn clients_step(state: Pipeline, phase: Phase, reply: Option<&Reply>) -> (out: (Pipeline, Command))
    requires
        state.index < state.candidates@.len(),
    ensures
        out.0@ == clients_stage(state@, phase, crate::http::opt_reply(reply)).0,
        out.1@ == clients_stage(state@, phase, crate::http::opt_reply(reply)).1,
{
    let s = state.session();
    let (next, step) = s.get_online_clients(phase, reply);
    match step {
        Step::Send(q) => (move_to(state, Stage::Clients(next)), Command::Send(q)),
        Step::Done(Err(e)) => finish_with(state, Err(e)),
        Step::Done(Ok(found)) => {
            let Pipeline { candidates, index, stage: _, password, policies, clients: _ } = state;
            (
                Pipeline {
                    candidates,
                    index,
                    stage: Stage::Interfaces,
                    password,
                    policies,
                    clients: found,
                },
                Command::ListInterfaces,
            )
        },
    }
}

/// The step of fetching the policies.
fn policies_step(state: Pipeline, phase: Phase, reply: Option<&Reply>) -> (out: (
    Pipeline,
    Command,
))
    requires
        state.index < state.candidates@.len(),
    ensures
        out.0@ == policies_stage(state@, phase, crate::http::opt_reply(reply)).0,
        out.1@ == policies_stage(state@, phase, crate::http::opt_reply(reply)).1,
{
    let s = state.session();
    let (next, step) = s.get_policies(phase, reply);
    match step {
        Step::Send(q) => (move_to(state, Stage::Policies(next)), Command::Send(q)),
        Step::Done(Err(e)) => finish_with(state, Err(e)),
        Step::Done(Ok(found)) => {
            let Pipeline { candidates, index, stage, password, policies: _, clients } = state;
            clients_step(
                Pipeline { candidates, index, stage, password, policies: found, clients },
                Phase::Start,
                None,
            )
        },
    }
}

/// The step of the login of the current candidate.
fn login_step(state: Pipeline, phase: Phase, reply: Option<&Reply>) -> (out: (Pipeline, Command))
    requires
        state.index < state.candidates@.len(),
    ensures
        out.0@ == login_stage(state@, phase, crate::http::opt_reply(reply)).0,
        out.1@ == login_stage(state@, phase, crate::http::opt_reply(reply)).1,
{
    let s = state.session();
    let (next, step) = s.login(phase, reply);
    match step {
        Step::Send(q) => (move_to(state, Stage::Login(next)), Command::Send(q)),
        Step::Done(Err(_)) => {
            let n: usize = state.candidates.len();
            assert(state.index < n);
            let index = state.index + 1;
            try_next(state, index)
        },
        Step::Done(Ok(_)) => policies_step(state, Phase::Start, None),
    }
}

/// The last step: the interfaces are joined with the devices.
fn interfaces_step(state: Pipeline, ifaces: &Vec<LocalInterface>) -> (out: (Pipeline, Command))
    requires
        state.index < state.candidates@.len(),
    ensures
        out.0@ == interfaces_stage(state@, ifaces@).0,
        out.1@ == interfaces_stage(state@, ifaces@).1,
{
    let interfaces = local_interfaces(state.clients.as_slice(), ifaces.as_slice());
    let active_iface = active_interface(interfaces.as_slice());
    let c = &state.candidates[state.index];
    let found = ActiveState {
        router: c.router.duplicate(),
        interfaces,
        policies: copy_policies(&state.policies),
        active_iface,
        active_address: c.address.clone(),
    };
    finish_with(state, Ok(Outcome::Active(found)))
}

/// One step of a cycle: answers `event` with the next command.
///
/// The candidates are tried in order. One without a stored password, or
/// that does not log in, is passed over. The first that logs in is the
/// active router: its policies and devices are fetched, and a failure
/// there ends the cycle with the error. An event that the stage does not
/// expect ends the cycle with an error too.
pub fn build_active_state(state: Pipeline, event: Event) -> (out: (Pipeline, Command))
    ensures
        out.0@ == pipeline_next(state@, event@).0,
        out.1@ == pipeline_next(state@, event@).1,
{
    if state.index >= state.candidates.len() {
        return stop_unexpected(state);
    }
    match event {
        Event::Password(found) => match state.stage {
            Stage::Password => match found {
                None => {
                    let n: usize = state.candidates.len();
                    assert(state.index < n);
                    let index = state.index + 1;
                    try_next(state, index)
                },
                Some(password) => {
                    let Pipeline { candidates, index, stage, password: _, policies, clients } =
                        state;
                    login_step(
                        Pipeline { candidates, index, stage, password, policies, clients },
                        Phase::Start,
                        None,
                    )
                },
            },
            _ => stop_unexpected(state),
        },
        Event::Reply(r) => match state.stage {
            Stage::Login(phase) => login_step(state, phase, Some(&r)),
            Stage::Policies(phase) => policies_step(state, phase, Some(&r)),
            Stage::Clients(phase) => clients_step(state, phase, Some(&r)),
            _ => stop_unexpected(state),
        },
        Event::Interfaces(ifaces) => match state.stage {
            Stage::Interfaces => interfaces_step(state, &ifaces),
            _ => stop_unexpected(state),
        },
    }
}

} // verus!
