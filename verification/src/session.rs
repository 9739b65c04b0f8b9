//! A session with one router: the login handshake and the calls of the
//! management interface, as steps between the exchanges that the caller
//! carries out.
//!
//! Every call starts at [`Phase::Start`] without a reply. Each step either
//! asks for a request to be sent, and is then called again with the reply,
//! or ends the call with its result.

use crate::address::{normalize_address, normalized_address};
use crate::api::{
    bridge_address, bridge_address_of, build_block_payload, build_policy_payload, block_payload,
    certificate_domains, clients_in, clients_of, domains_of, member, policies_in, policies_of,
    policy_payload,
};
use crate::digest::{auth_response, digest_response};
use crate::http::{
    header_from, header_value, is_success, opt_json, opt_reply, status_is_success, HttpRequest,
    HttpRequestView, Method, Reply, ReplyView,
};
use crate::json::{lemma_object_view, member_views, JsonValue, JsonView};
use crate::model::{
    client_views, opt_text, policy_views, texts, ClientInfo, PolicyInfo, RouterError, RouterErrorView,
};
use crate::text::{decimal, decimal_text, string_of};
use vstd::prelude::*;
use vstd::string::StringExecFns;

verus! {

/// Where a call stands.
#[derive(Clone, Copy, Debug, PartialEq, Eq, Structural)]
pub enum Phase {
    /// Nothing has been sent yet.
    Start,
    /// The probe of the login has been sent.
    Probing,
    /// The answer to the router's challenge has been sent.
    Answering,
    /// The request of the call itself has been sent.
    Requesting,
    /// The call has ended.
    Finished,
}

/// What a step asks for: a request to be sent, or nothing more.
#[derive(Debug)]
pub enum Step<T> {
    Send(HttpRequest),
    Done(Result<T, RouterError>),
}

/// The mathematical value of a [`Step`].
pub enum StepView<V> {
    Send(HttpRequestView),
    Done(Result<V, RouterErrorView>),
}

/// The view of a step whose result is viewed through `f`.
pub open spec fn step_view<T, V>(step: Step<T>, f: spec_fn(T) -> V) -> StepView<V> {
    match step {
        Step::Send(q) => StepView::Send(q@),
        Step::Done(Ok(v)) => StepView::Done(Ok(f(v))),
        Step::Done(Err(e)) => StepView::Done(Err(e@)),
    }
}

/// The step `s` with its result mapped through `f`.
pub open spec fn map_step<A, B>(s: StepView<A>, f: spec_fn(A) -> B) -> StepView<B> {
    match s {
        StepView::Send(q) => StepView::Send(q),
        StepView::Done(Ok(v)) => StepView::Done(Ok(f(v))),
        StepView::Done(Err(e)) => StepView::Done(Err(e)),
    }
}

/// A session with one router: where it is reached and the credentials.
#[derive(Clone)]
pub struct KeeneticRouter {
    base_url: String,
    username: String,
    password: String,
    name: String,
}

/// The mathematical value of a [`KeeneticRouter`].
pub struct SessionView {
    pub base_url: Seq<char>,
    pub username: Seq<char>,
    pub password: Seq<char>,
    pub name: Seq<char>,
}

impl View for KeeneticRouter {
    type V = SessionView;

    closed spec fn view(&self) -> SessionView {
        SessionView {
            base_url: self.base_url@,
            username: self.username@,
            password: self.password@,
            name: self.name@,
        }
    }
}

/// The address of the login.
pub open spec fn auth_url(s: SessionView) -> Seq<char> {
    s.base_url + "/auth"@
}

/// The address of an endpoint of the management interface.
pub open spec fn endpoint_url(s: SessionView, endpoint: Seq<char>) -> Seq<char> {
    s.base_url + "/"@ + endpoint
}

/// The request of a call: a `Post` where it carries a body, else a `Get`.
pub open spec fn endpoint_request(s: SessionView, endpoint: Seq<char>, body: Option<JsonView>)
    -> HttpRequestView {
    HttpRequestView {
        method: if body is Some {
            Method::Post
        } else {
            Method::Get
        },
        url: endpoint_url(s, endpoint),
        body,
    }
}

/// The body of the answer to a challenge.
pub open spec fn auth_body(username: Seq<char>, answer: Seq<char>) -> JsonView {
    JsonView::Object(
        seq![
            member("login"@, JsonView::Text(username)),
            member("password"@, JsonView::Text(answer)),
        ],
    )
}

/// A step that ends the call with the error `e`.
pub open spec fn fail<V>(e: RouterErrorView) -> (Phase, StepView<V>) {
    (Phase::Finished, StepView::Done(Err(e)))
}

/// The step after the probe of the login.
///
/// Status 401 with both tokens leads to the answer; without one of them
/// the reply is not the expected dialect. A success means that the session
/// is still valid. Any other status is not the expected dialect either.
pub open spec fn probe_next(s: SessionView, reply: Option<ReplyView>) -> (Phase, StepView<()>) {
    match reply {
        None => fail(RouterErrorView::InvalidResponse("no reply"@)),
        Some(ReplyView::Failure(m)) => fail(RouterErrorView::Request(m)),
        Some(ReplyView::Response(r)) => if r.status == 401 {
            match header_from(r.headers, "X-NDM-Realm"@, 0) {
                None => fail(RouterErrorView::InvalidResponse("missing realm"@)),
                Some(realm) => match header_from(r.headers, "X-NDM-Challenge"@, 0) {
                    None => fail(RouterErrorView::InvalidResponse("missing challenge"@)),
                    Some(challenge) => (
                        Phase::Answering,
                        StepView::Send(
                            HttpRequestView {
                                method: Method::Post,
                                url: auth_url(s),
                                body: Some(
                                    auth_body(
                                        s.username,
                                        digest_response(s.username, realm, s.password, challenge),
                                    ),
                                ),
                            },
                        ),
                    ),
                },
            }
        } else if is_success(r.status) {
            (Phase::Finished, StepView::Done(Ok(())))
        } else {
            fail(
                RouterErrorView::InvalidResponse(
                    "unexpected auth status: "@ + decimal(r.status as nat),
                ),
            )
        },
    }
}

/// The step after the answer to the challenge: a success logs in, anything
/// else is a rejection.
pub open spec fn answer_next(reply: Option<ReplyView>) -> (Phase, StepView<()>) {
    match reply {
        None => fail(RouterErrorView::InvalidResponse("no reply"@)),
        Some(ReplyView::Failure(m)) => fail(RouterErrorView::Request(m)),
        Some(ReplyView::Response(r)) => if is_success(r.status) {
            (Phase::Finished, StepView::Done(Ok(())))
        } else {
            fail(RouterErrorView::AuthFailed)
        },
    }
}

/// The step of a login in `phase` on `reply`.
pub open spec fn login_next(s: SessionView, phase: Phase, reply: Option<ReplyView>) -> (
    Phase,
    StepView<()>,
) {
    match phase {
        Phase::Start => (
            Phase::Probing,
            StepView::Send(HttpRequestView { method: Method::Get, url: auth_url(s), body: None }),
        ),
        Phase::Probing => probe_next(s, reply),
        Phase::Answering => answer_next(reply),
        _ => fail(RouterErrorView::InvalidResponse("unexpected phase"@)),
    }
}

/// The step after the request of a call: its body where the status is a
/// success and the body is a JSON document.
pub open spec fn request_next(reply: Option<ReplyView>) -> (Phase, StepView<JsonView>) {
    match reply {
        None => fail(RouterErrorView::InvalidResponse("no reply"@)),
        Some(ReplyView::Failure(m)) => fail(RouterErrorView::Request(m)),
        Some(ReplyView::Response(r)) => if !is_success(r.status) {
            fail(RouterErrorView::InvalidResponse("status "@ + decimal(r.status as nat)))
        } else {
            match r.body {
                Some(j) => (Phase::Finished, StepView::Done(Ok(j))),
                None => fail(RouterErrorView::InvalidResponse("invalid JSON body"@)),
            }
        },
    }
}

/// The step of a call that sends `request` once it is logged in.
pub open spec fn call_next(
    s: SessionView,
    request: HttpRequestView,
    phase: Phase,
    reply: Option<ReplyView>,
) -> (Phase, StepView<JsonView>) {
    match phase {
        Phase::Requesting => request_next(reply),
        Phase::Finished => fail(RouterErrorView::InvalidResponse("unexpected phase"@)),
        _ => match login_next(s, phase, reply) {
            (p, StepView::Send(q)) => (p, StepView::Send(q)),
            (_, StepView::Done(Err(e))) => fail(e),
            (_, StepView::Done(Ok(_))) => (Phase::Requesting, StepView::Send(request)),
        },
    }
}

/// The request that lists the certificates.
pub open spec fn certificates_request(s: SessionView) -> HttpRequestView {
    endpoint_request(s, "rci/ip/http/ssl/acme/list/certificate"@, None)
}

/// The request that reads the address of the bridge.
pub open spec fn bridge_request(s: SessionView) -> HttpRequestView {
    endpoint_request(s, "rci/sc/interface/Bridge0/ip/address"@, None)
}

/// The request that lists the policies.
pub open spec fn policies_request(s: SessionView) -> HttpRequestView {
    endpoint_request(s, "rci/show/rc/ip/policy"@, None)
}

/// The request that lists the devices.
pub open spec fn clients_request(s: SessionView) -> HttpRequestView {
    endpoint_request(s, "rci/show/ip/hotspot/host"@, None)
}

/// The request that changes a device, with `body`.
pub open spec fn host_request(s: SessionView, body: JsonView) -> HttpRequestView {
    endpoint_request(s, "rci/ip/hotspot/host"@, Some(body))
}

/// The text of an optional string slice.
pub open spec fn opt_str(o: Option<&str>) -> Option<Seq<char>> {
    match o {
        Some(s) => Some(s@),
        None => None,
    }
}

/// Whether a response came back.
pub open spec fn answered(reply: Option<ReplyView>) -> bool {
    reply is Some && reply->0 is Response
}

/// The status of the response that came back.
pub open spec fn status_of(reply: Option<ReplyView>) -> u16 {
    reply->0->Response_0.status
}

/// The errors of a login tell their causes apart. A failure of the
/// transport is reported as such, with its reason. The credentials count
/// as rejected only where the router answered the challenge's answer
/// without success. The login succeeds only on a success status, of the
/// probe or of the answer.
pub proof fn lemma_login_outcomes(s: SessionView, phase: Phase, reply: Option<ReplyView>)
    ensures
        forall|m: Seq<char>|
            (phase == Phase::Probing || phase == Phase::Answering) && reply == Some(
                ReplyView::Failure(m),
            ) ==> login_next(s, phase, reply).1 == StepView::<()>::Done(
                Err(RouterErrorView::Request(m)),
            ),
        login_next(s, phase, reply).1 == StepView::<()>::Done(Err(RouterErrorView::AuthFailed))
            <==> phase == Phase::Answering && answered(reply) && !is_success(status_of(reply)),
        login_next(s, phase, reply).1 == StepView::<()>::Done(Ok(())) <==> (phase
            == Phase::Probing || phase == Phase::Answering) && answered(reply) && is_success(
            status_of(reply),
        ),
        login_next(s, phase, reply).1 is Send ==> login_next(s, phase, reply).1->Send_0.url
            == auth_url(s),
{
}

/// Every request of a call goes to the session's router: its address
/// begins with the session's base address.
pub proof fn lemma_call_stays_on_router(
    s: SessionView,
    request: HttpRequestView,
    phase: Phase,
    reply: Option<ReplyView>,
)
    requires
        s.base_url.is_prefix_of(request.url),
    ensures
        call_next(s, request, phase, reply).1 is Send ==> s.base_url.is_prefix_of(
            call_next(s, request, phase, reply).1->Send_0.url,
        ),
{
    assert(auth_url(s).subrange(0, s.base_url.len() as int) =~= s.base_url);
    lemma_login_outcomes(s, phase, reply);
}

/// The address of an endpoint begins with the session's base address.
pub proof fn lemma_endpoint_on_router(s: SessionView, endpoint: Seq<char>, body: Option<JsonView>)
    ensures
        s.base_url.is_prefix_of(endpoint_request(s, endpoint, body).url),
        s.base_url.is_prefix_of(auth_url(s)),
{
    assert(endpoint_url(s, endpoint).subrange(0, s.base_url.len() as int) =~= s.base_url);
    assert(auth_url(s).subrange(0, s.base_url.len() as int) =~= s.base_url);
}

/// A step that ends the call: the reply was not what the management
/// interface is expected to send.
fn invalid<T>(message: &str) -> (out: (Phase, Step<T>))
    ensures
        out.0 == Phase::Finished,
        out.1 matches Step::Done(Err(e)) && e@ == RouterErrorView::InvalidResponse(message@),
{
    (Phase::Finished, Step::Done(Err(RouterError::InvalidResponse(message.to_owned()))))
}

/// `prefix` followed by the decimal text of `status`.
fn with_status(prefix: &str, status: u16) -> (out: String)
    ensures
        out@ == prefix@ + decimal(status as nat),
{
    let digits = decimal_text(status as u32);
    let text = string_of(digits.as_slice());
    let mut out = String::from_str(prefix);
    out.append(text.as_str());
    out
}

impl KeeneticRouter {
    /// A session with the router at `address`, for the given credentials.
    /// The address is brought into its normal form.
    pub fn new(address: &str, username: &str, password: &str, name: &str) -> (out: Self)
        ensures
            out@ == (SessionView {
                base_url: normalized_address(address@),
                username: username@,
                password: password@,
                name: name@,
            }),
    {
        KeeneticRouter {
            base_url: normalize_address(address),
            username: username.to_owned(),
            password: password.to_owned(),
            name: name.to_owned(),
        }
    }

    /// The name under which the router is configured.
    pub fn name(&self) -> (out: &str)
        ensures
            out@ == self@.name,
    {
        self.name.as_str()
    }

    /// The address of the router in its normal form.
    pub fn base_url(&self) -> (out: &str)
        ensures
            out@ == self@.base_url,
    {
        self.base_url.as_str()
    }

    /// The address of the login.
    fn auth_address(&self) -> (out: String)
        ensures
            out@ == auth_url(self@),
    {
        let mut out = self.base_url.clone();
        out.append("/auth");
        out
    }

    /// The request of a call to `endpoint`.
    fn request(&self, endpoint: &str, body: Option<JsonValue>) -> (out: HttpRequest)
        ensures
            out@ == endpoint_request(self@, endpoint@, opt_json(body)),
    {
        let mut url = self.base_url.clone();
        url.append("/");
        url.append(endpoint);
        let method = if body.is_some() {
            Method::Post
        } else {
            Method::Get
        };
        HttpRequest { method, url, body }
    }

    /// The answer to a challenge, as the body of the request that sends it.
    fn answer(&self, realm: &str, challenge: &str) -> (out: JsonValue)
        ensures
            out@ == auth_body(
                self@.username,
                digest_response(self@.username, realm@, self@.password, challenge@),
            ),
    {
        let answer = auth_response(
            self.username.as_str(),
            realm,
            self.password.as_str(),
            challenge,
        );
        let mut members: Vec<(String, JsonValue)> = Vec::new();
        members.push(("login".to_owned(), JsonValue::Text(self.username.clone())));
        members.push(("password".to_owned(), JsonValue::Text(answer)));
        proof {
            lemma_object_view(members);
            assert(member_views(members@) =~= auth_body(
                self@.username,
                digest_response(self@.username, realm@, self@.password, challenge@),
            )->Object_0);
        }
        JsonValue::Object(members)
    }

    /// One step of the login handshake.
    ///
    /// The probe is a `Get` of the login address. On status 401 the answer
    /// to the challenge in the headers is posted. A success of either
    /// exchange logs the session in.
    pub fn login(&self, phase: Phase, reply: Option<&Reply>) -> (out: (Phase, Step<()>))
        ensures
            out.0 == login_next(self@, phase, opt_reply(reply)).0,
            step_view(out.1, |u: ()| u) == login_next(self@, phase, opt_reply(reply)).1,
    {
        match phase {
            Phase::Start => (
                Phase::Probing,
                Step::Send(HttpRequest { method: Method::Get, url: self.auth_address(), body: None }),
            ),
            Phase::Probing => match reply {
                None => invalid("no reply"),
                Some(Reply::Failure(m)) => (
                    Phase::Finished,
                    Step::Done(Err(RouterError::Request(m.clone()))),
                ),
                Some(Reply::Response(r)) => {
                    if r.status == 401 {
                        let realm = match header_value(&r.headers, "X-NDM-Realm") {
                            Some(v) => v,
                            None => { return invalid("missing realm"); },
                        };
                        let challenge = match header_value(&r.headers, "X-NDM-Challenge") {
                            Some(v) => v,
                            None => { return invalid("missing challenge"); },
                        };
                        let body = self.answer(realm.as_str(), challenge.as_str());
                        (
                            Phase::Answering,
                            Step::Send(
                                HttpRequest {
                                    method: Method::Post,
                                    url: self.auth_address(),
                                    body: Some(body),
                                },
                            ),
                        )
                    } else if status_is_success(r.status) {
                        (Phase::Finished, Step::Done(Ok(())))
                    } else {
                        let message = with_status("unexpected auth status: ", r.status);
                        (Phase::Finished, Step::Done(Err(RouterError::InvalidResponse(message))))
                    }
                },
            },
            Phase::Answering => match reply {
                None => invalid("no reply"),
                Some(Reply::Failure(m)) => (
                    Phase::Finished,
                    Step::Done(Err(RouterError::Request(m.clone()))),
                ),
                Some(Reply::Response(r)) => {
                    if status_is_success(r.status) {
                        (Phase::Finished, Step::Done(Ok(())))
                    } else {
                        (Phase::Finished, Step::Done(Err(RouterError::AuthFailed)))
                    }
                },
            },
            _ => invalid("unexpected phase"),
        }
    }

    /// One step of a call that sends `request` once the session is logged
    /// in, and ends with the JSON document that comes back.
    pub fn keen_request(&self, request: HttpRequest, phase: Phase, reply: Option<&Reply>) -> (out: (
        Phase,
        Step<JsonValue>,
    ))
        ensures
            out.0 == call_next(self@, request@, phase, opt_reply(reply)).0,
            step_view(out.1, |j: JsonValue| j@) == call_next(
                self@,
                request@,
                phase,
                opt_reply(reply),
            ).1,
    {
        match phase {
            Phase::Requesting => match reply {
                None => invalid("no reply"),
                Some(Reply::Failure(m)) => (
                    Phase::Finished,
                    Step::Done(Err(RouterError::Request(m.clone()))),
                ),
                Some(Reply::Response(r)) => {
                    if !status_is_success(r.status) {
                        let message = with_status("status ", r.status);
                        (Phase::Finished, Step::Done(Err(RouterError::InvalidResponse(message))))
                    } else {
                        match &r.body {
                            Some(j) => (Phase::Finished, Step::Done(Ok(j.duplicate()))),
                            None => invalid("invalid JSON body"),
                        }
                    }
                },
            },
            Phase::Finished => invalid("unexpected phase"),
            _ => {
                let (p, step) = self.login(phase, reply);
                match step {
                    Step::Send(q) => (p, Step::Send(q)),
                    Step::Done(Err(e)) => (Phase::Finished, Step::Done(Err(e))),
                    Step::Done(Ok(_)) => (Phase::Requesting, Step::Send(request)),
                }
            },
        }
    }
    /// One step of the call that lists the domains of the router's
    /// certificates.
    pub fn get_keendns_urls(&self, phase: Phase, reply: Option<&Reply>) -> (out: (
        Phase,
        Step<Vec<String>>,
    ))
        ensures
            out.0 == call_next(self@, certificates_request(self@), phase, opt_reply(reply)).0,
            step_view(out.1, |v: Vec<String>| texts(v@)) == map_step(
                call_next(self@, certificates_request(self@), phase, opt_reply(reply)).1,
                |j: JsonView| certificate_domains(j),
            ),
    {
        let request = self.request("rci/ip/http/ssl/acme/list/certificate", None);
        let (p, step) = self.keen_request(request, phase, reply);
        match step {
            Step::Send(q) => (p, Step::Send(q)),
            Step::Done(Err(e)) => (p, Step::Done(Err(e))),
            Step::Done(Ok(j)) => (p, Step::Done(Ok(domains_of(&j)))),
        }
    }

    /// One step of the call that reads the address of the router's bridge.
    pub fn get_network_ip(&self, phase: Phase, reply: Option<&Reply>) -> (out: (
        Phase,
        Step<Option<String>>,
    ))
        ensures
            out.0 == call_next(self@, bridge_request(self@), phase, opt_reply(reply)).0,
            step_view(out.1, |v: Option<String>| opt_text(v)) == map_step(
                call_next(self@, bridge_request(self@), phase, opt_reply(reply)).1,
                |j: JsonView| bridge_address(j),
            ),
    {
        let request = self.request("rci/sc/interface/Bridge0/ip/address", None);
        let (p, step) = self.keen_request(request, phase, reply);
        match step {
            Step::Send(q) => (p, Step::Send(q)),
            Step::Done(Err(e)) => (p, Step::Done(Err(e))),
            Step::Done(Ok(j)) => (p, Step::Done(Ok(bridge_address_of(&j)))),
        }
    }

    /// One step of the call that lists the router's policies, each under
    /// its name.
    pub fn get_policies(&self, phase: Phase, reply: Option<&Reply>) -> (out: (
        Phase,
        Step<Vec<(String, PolicyInfo)>>,
    ))
        ensures
            out.0 == call_next(self@, policies_request(self@), phase, opt_reply(reply)).0,
            step_view(out.1, |v: Vec<(String, PolicyInfo)>| policy_views(v@)) == map_step(
                call_next(self@, policies_request(self@), phase, opt_reply(reply)).1,
                |j: JsonView| policies_in(j),
            ),
    {
        let request = self.request("rci/show/rc/ip/policy", None);
        let (p, step) = self.keen_request(request, phase, reply);
        match step {
            Step::Send(q) => (p, Step::Send(q)),
            Step::Done(Err(e)) => (p, Step::Done(Err(e))),
            Step::Done(Ok(j)) => (p, Step::Done(Ok(policies_of(&j)))),
        }
    }

    /// One step of the call that lists the devices that the router knows,
    /// one record for each.
    pub fn get_online_clients(&self, phase: Phase, reply: Option<&Reply>) -> (out: (
        Phase,
        Step<Vec<ClientInfo>>,
    ))
        ensures
            out.0 == call_next(self@, clients_request(self@), phase, opt_reply(reply)).0,
            step_view(out.1, |v: Vec<ClientInfo>| client_views(v@)) == map_step(
                call_next(self@, clients_request(self@), phase, opt_reply(reply)).1,
                |j: JsonView| clients_in(j),
            ),
    {
        let request = self.request("rci/show/ip/hotspot/host", None);
        let (p, step) = self.keen_request(request, phase, reply);
        match step {
            Step::Send(q) => (p, Step::Send(q)),
            Step::Done(Err(e)) => (p, Step::Done(Err(e))),
            Step::Done(Ok(j)) => (p, Step::Done(Ok(clients_of(&j)))),
        }
    }

    /// One step of the call that assigns `policy` to the device `mac`, or
    /// gives it the default policy again where `policy` is `None`.
    pub fn apply_policy_to_client(
        &self,
        mac: &str,
        policy: Option<&str>,
        phase: Phase,
        reply: Option<&Reply>,
    ) -> (out: (Phase, Step<()>))
        ensures
            out.0 == call_next(
                self@,
                host_request(self@, policy_payload(mac@, opt_str(policy))),
                phase,
                opt_reply(reply),
            ).0,
            step_view(out.1, |u: ()| u) == map_step(
                call_next(
                    self@,
                    host_request(self@, policy_payload(mac@, opt_str(policy))),
                    phase,
                    opt_reply(reply),
                ).1,
                |j: JsonView| (),
            ),
    {
        let payload = build_policy_payload(mac, policy);
        let request = self.request("rci/ip/hotspot/host", Some(payload));
        let (p, step) = self.keen_request(request, phase, reply);
        match step {
            Step::Send(q) => (p, Step::Send(q)),
            Step::Done(Err(e)) => (p, Step::Done(Err(e))),
            Step::Done(Ok(_)) => (p, Step::Done(Ok(()))),
        }
    }

    /// One step of the call that gives the device `mac` the default policy
    /// again.
    pub fn apply_default_policy(&self, mac: &str, phase: Phase, reply: Option<&Reply>) -> (out: (
        Phase,
        Step<()>,
    ))
        ensures
            out.0 == call_next(
                self@,
                host_request(self@, policy_payload(mac@, None)),
                phase,
                opt_reply(reply),
            ).0,
            step_view(out.1, |u: ()| u) == map_step(
                call_next(
                    self@,
                    host_request(self@, policy_payload(mac@, None)),
                    phase,
                    opt_reply(reply),
                ).1,
                |j: JsonView| (),
            ),
    {
        self.apply_policy_to_client(mac, None, phase, reply)
    }

    /// One step of the call that blocks the device `mac`.
    pub fn set_client_block(&self, mac: &str, phase: Phase, reply: Option<&Reply>) -> (out: (
        Phase,
        Step<()>,
    ))
        ensures
            out.0 == call_next(
                self@,
                host_request(self@, block_payload(mac@)),
                phase,
                opt_reply(reply),
            ).0,
            step_view(out.1, |u: ()| u) == map_step(
                call_next(
                    self@,
                    host_request(self@, block_payload(mac@)),
                    phase,
                    opt_reply(reply),
                ).1,
                |j: JsonView| (),
            ),
    {
        let payload = build_block_payload(mac);
        let request = self.request("rci/ip/hotspot/host", Some(payload));
        let (p, step) = self.keen_request(request, phase, reply);
        match step {
            Step::Send(q) => (p, Step::Send(q)),
            Step::Done(Err(e)) => (p, Step::Done(Err(e))),
            Step::Done(Ok(_)) => (p, Step::Done(Ok(()))),
        }
    }
}

} // verus!
