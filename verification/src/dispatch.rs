//! Request dispatcher: matches an incoming request against the route
//! table, runs the global and route-specific middleware in order,
//! invokes the matched handler with its typed parameters, and either
//! produces a response directly or submits a blocking job to the
//! worker pool for the (unverified) runtime loop to execute.

use crate::container::Container;
use crate::forms::{clone_bytes, int_of, login_json, parse_login, parse_user_id, plain_str, wf_int};
use crate::middleware::{chain_spec, mw_step, run_chain, token_view, Middleware};
use crate::offload::{submit_step, WorkerPool};
use crate::token::{token_bytes, token_valid, TokenConfig};
use crate::{HttpError, Role};
use vstd::prelude::*;

verus! {

/// Request method of the routes this runtime serves.
#[derive(Clone, Copy, Debug, PartialEq, Eq, Structural)]
pub enum Method {
    GET,
    POST,
}

/// An incoming request, as handed over by the transport layer:
/// the path already split into segments, the raw query string, the
/// body bytes, the bearer token taken from the auth header, and
/// whether the body is gzip-encoded.
pub struct Request {
    pub method: Method,
    pub segs: Vec<Vec<u8>>,
    pub query: Vec<u8>,
    pub body: Vec<u8>,
    pub token: Option<Vec<u8>>,
    pub gzipped: bool,
}

/// What is written back to the client.
pub struct Response {
    pub status: u16,
    pub body: Vec<u8>,
}

/// The handlers this process registers at startup.
#[derive(Clone, Copy, Debug, PartialEq, Eq, Structural)]
pub enum HandlerId {
    Home,
    Login,
    CreateUser,
    GetUser,
}

/// One segment of a route pattern: a literal, or a captured parameter.
pub enum PatSeg {
    Lit(Vec<u8>),
    Param,
}

/// A registered route: method, path pattern, handler, and the
/// route-specific middleware run after the global ones.
pub struct Route {
    pub method: Method,
    pub pattern: Vec<PatSeg>,
    pub handler: HandlerId,
    pub mws: Vec<Middleware>,
}

/// The startup-time route table: global middleware, then routes.
pub struct RouteTable {
    pub global: Vec<Middleware>,
    pub routes: Vec<Route>,
}

/// A blocking unit of work a handler offloads to the worker pool.
pub enum Job {
    /// Persist the user the (already size- and role-checked) body
    /// describes.
    CreateUser(Vec<u8>),
    /// Look up a user by id.
    FindUser(i32),
}

/// What the dispatcher decides for a request: answer directly, or
/// offload a job and answer when its result is delivered.
pub enum Plan {
    Respond(Response),
    Submit(Job),
}

/// Spec-level mirror of `Job`.
pub enum JobSpec {
    CreateUser(Seq<u8>),
    FindUser(i32),
}

/// Spec-level mirror of `Plan`.
pub enum PlanSpec {
    Respond(u16, Seq<u8>),
    Submit(JobSpec),
}

pub open spec fn job_view(j: Job) -> JobSpec {
    match j {
        Job::CreateUser(b) => JobSpec::CreateUser(b@),
        Job::FindUser(id) => JobSpec::FindUser(id),
    }
}

pub open spec fn plan_view(p: Plan) -> PlanSpec {
    match p {
        Plan::Respond(resp) => PlanSpec::Respond(resp.status, resp.body@),
        Plan::Submit(j) => PlanSpec::Submit(job_view(j)),
    }
}

/// The path segments a request carries, as byte strings.
pub open spec fn segs_view(segs: Seq<Vec<u8>>) -> Seq<Seq<u8>> {
    Seq::new(segs.len(), |i: int| segs[i]@)
}

/// A pattern matches a path when the segment counts agree and every
/// literal agrees; parameter segments match anything.
pub open spec fn pat_matches(pat: Seq<PatSeg>, segs: Seq<Seq<u8>>) -> bool {
    &&& pat.len() == segs.len()
    &&& forall|i: int|
        0 <= i < pat.len() ==> match #[trigger] pat[i] {
            PatSeg::Lit(l) => l@ == segs[i],
            PatSeg::Param => true,
        }
}

/// The captured parameter segments, in pattern order.
pub open spec fn params_of(pat: Seq<PatSeg>, segs: Seq<Seq<u8>>) -> Seq<Seq<u8>>
    decreases pat.len(),
{
    if pat.len() == 0 {
        Seq::empty()
    } else {
        let rest = params_of(pat.drop_first(), segs.drop_first());
        match pat[0] {
            PatSeg::Param => seq![segs[0]] + rest,
            PatSeg::Lit(_) => rest,
        }
    }
}

pub open spec fn route_matches(route: Route, m: Method, segs: Seq<Seq<u8>>) -> bool {
    route.method == m && pat_matches(route.pattern@, segs)
}

/// The first route that matches, if any.
pub open spec fn route_index(routes: Seq<Route>, m: Method, segs: Seq<Seq<u8>>) -> Option<int>
    decreases routes.len(),
{
    if routes.len() == 0 {
        None
    } else if route_matches(routes[0], m, segs) {
        Some(0int)
    } else {
        match route_index(routes.drop_first(), m, segs) {
            Some(j) => Some(j + 1),
            None => None,
        }
    }
}

proof fn lemma_route_index_some(routes: Seq<Route>, m: Method, segs: Seq<Seq<u8>>, i: int)
    requires
        0 <= i < routes.len(),
        route_matches(routes[i], m, segs),
        forall|k: int| 0 <= k < i ==> !route_matches(routes[k], m, segs),
    ensures
        route_index(routes, m, segs) == Some(i),
    decreases routes.len(),
{
    if i == 0 {
    } else {
        assert(!route_matches(routes[0], m, segs));
        let rest = routes.drop_first();
        assert(rest[i - 1] == routes[i]);
        assert(forall|k: int| 0 <= k < i - 1 ==> rest[k] == routes[k + 1]);
        lemma_route_index_some(rest, m, segs, i - 1);
    }
}

proof fn lemma_route_index_none(routes: Seq<Route>, m: Method, segs: Seq<Seq<u8>>)
    requires
        forall|k: int| 0 <= k < routes.len() ==> !route_matches(routes[k], m, segs),
    ensures
        route_index(routes, m, segs) is None,
    decreases routes.len(),
{
    if routes.len() > 0 {
        let rest = routes.drop_first();
        assert(forall|k: int| 0 <= k < rest.len() ==> rest[k] == routes[k + 1]);
        lemma_route_index_none(rest, m, segs);
    }
}

/// Splitting a chain at any point changes nothing: the combined chain
/// rejects where either part rejects, and otherwise hands the second
/// part's final body out with the outputs of both, in order.
proof fn lemma_chain_append(
    a: Seq<Middleware>,
    b: Seq<Middleware>,
    secret: Seq<u8>,
    token: Option<Seq<u8>>,
    gzipped: bool,
    body: Seq<u8>,
    now: u64,
)
    ensures
        chain_spec(a + b, secret, token, gzipped, body, now) == (match chain_spec(
            a,
            secret,
            token,
            gzipped,
            body,
            now,
        ) {
            Err(e) => Err::<(Seq<u8>, Seq<Option<Seq<u8>>>), HttpError>(e),
            Ok(co) => match chain_spec(b, secret, token, gzipped, co.0, now) {
                Err(e) => Err::<(Seq<u8>, Seq<Option<Seq<u8>>>), HttpError>(e),
                Ok(co2) => Ok((co2.0, co.1 + co2.1)),
            },
        }),
    decreases a.len(),
{
    if a.len() == 0 {
        assert(a + b =~= b);
        match chain_spec(b, secret, token, gzipped, body, now) {
            Ok(co2) => {
                assert(Seq::<Option<Seq<u8>>>::empty() + co2.1 =~= co2.1);
            },
            Err(_) => {},
        }
    } else {
        assert((a + b).len() > 0);
        assert((a + b)[0] == a[0]);
        assert((a + b).drop_first() =~= a.drop_first() + b);
        match mw_step(a[0], secret, token, gzipped, body, now) {
            Err(_) => {},
            Ok(pr) => {
                lemma_chain_append(a.drop_first(), b, secret, token, gzipped, pr.0, now);
                match chain_spec(a.drop_first(), secret, token, gzipped, pr.0, now) {
                    Err(_) => {},
                    Ok(co) => {
                        match chain_spec(b, secret, token, gzipped, co.0, now) {
                            Err(_) => {},
                            Ok(co2) => {
                                assert(seq![pr.1] + (co.1 + co2.1) =~= (seq![pr.1] + co.1)
                                    + co2.1);
                            },
                        }
                    },
                }
            },
        }
    }
}

/// The body of the welcome page: `Welcome to darpi`.
pub open spec fn home_body() -> Seq<u8> {
    seq![87u8, 101, 108, 99, 111, 109, 101, 32, 116, 111, 32, 100, 97, 114, 112, 105]
}

/// The subject id the login handler issues tokens for.
pub open spec fn login_subject() -> Seq<u8> {
    seq![117u8, 105, 100]
}

/// Lifetime of issued tokens: thirty days, in seconds.
pub open spec fn login_ttl() -> u64 {
    2592000
}

/// The field a rejected login body is blamed on.
pub open spec fn body_field() -> Seq<u8> {
    seq![98u8, 111, 100, 121]
}

/// The field a rejected user id is blamed on.
pub open spec fn id_field() -> Seq<u8> {
    seq![105u8, 100]
}

/// What each handler decides, given the container configuration, the
/// captured path parameters and the body left by the middleware.
pub open spec fn handler_spec(
    h: HandlerId,
    cfg: TokenConfig,
    params: Seq<Seq<u8>>,
    body: Seq<u8>,
    now: u64,
) -> PlanSpec {
    match h {
        HandlerId::Home => PlanSpec::Respond(200, home_body()),
        HandlerId::Login => if exists|e: Seq<u8>, p: Seq<u8>|
            plain_str(e) && plain_str(p) && body == login_json(e, p) {
            PlanSpec::Respond(
                200,
                token_bytes(
                    cfg.secret@,
                    login_subject(),
                    Role::Admin,
                    (now + login_ttl()) as u64,
                ),
            )
        } else {
            PlanSpec::Respond(400, body_field())
        },
        HandlerId::CreateUser => PlanSpec::Submit(JobSpec::CreateUser(body)),
        HandlerId::GetUser => if params.len() >= 1 && wf_int(params[0]) && i32::MIN <= int_of(
            params[0],
        ) <= i32::MAX {
            PlanSpec::Submit(JobSpec::FindUser(int_of(params[0]) as i32))
        } else {
            PlanSpec::Respond(400, id_field())
        },
    }
}

/// What the dispatcher decides for a request: `NotFound` when no route
/// matches; the first middleware rejection's status when the chain
/// short-circuits; otherwise the matched handler's decision on the
/// chain's final body.
pub open spec fn dispatch_spec(rt: RouteTable, cfg: TokenConfig, req: Request, now: u64) -> PlanSpec {
    match route_index(rt.routes@, req.method, segs_view(req.segs@)) {
        None => PlanSpec::Respond(404, Seq::empty()),
        Some(i) => {
            let route = rt.routes@[i];
            match chain_spec(
                rt.global@ + route.mws@,
                cfg.secret@,
                token_view(req.token),
                req.gzipped,
                req.body@,
                now,
            ) {
                Err(e) => PlanSpec::Respond(e.status_spec(), Seq::empty()),
                Ok(co) => handler_spec(
                    route.handler,
                    cfg,
                    params_of(route.pattern@, segs_view(req.segs@)),
                    co.0,
                    now,
                ),
            }
        },
    }
}

fn route_matches_exec(route: &Route, m: Method, segs: &Vec<Vec<u8>>) -> (r: bool)
    ensures
        r == route_matches(*route, m, segs_view(segs@)),
{
    if route.method != m {
        return false;
    }
    if route.pattern.len() != segs.len() {
        return false;
    }
    let n = route.pattern.len();
    let mut i: usize = 0;
    while i < n
        invariant
            n == route.pattern@.len() == segs@.len(),
            i <= n,
            forall|k: int|
                0 <= k < i ==> match #[trigger] route.pattern@[k] {
                    PatSeg::Lit(l) => l@ == segs_view(segs@)[k],
                    PatSeg::Param => true,
                },
        decreases n - i,
    {
        match &route.pattern[i] {
            PatSeg::Lit(l) => {
                if !crate::forms::bytes_eq(l, &segs[i]) {
                    assert(!pat_matches(route.pattern@, segs_view(segs@))) by {
                        assert(segs_view(segs@)[i as int] == segs@[i as int]@);
                    }
                    return false;
                }
                assert(segs_view(segs@)[i as int] == segs@[i as int]@);
            },
            PatSeg::Param => {},
        }
        i += 1;
    }
    true
}

fn find_route(routes: &Vec<Route>, m: Method, segs: &Vec<Vec<u8>>) -> (r: Option<usize>)
    ensures
        r matches Some(i) ==> i < routes@.len() && route_matches(
            routes@[i as int],
            m,
            segs_view(segs@),
        ) && (forall|k: int| 0 <= k < i ==> !route_matches(routes@[k], m, segs_view(segs@))),
        r is None ==> forall|k: int|
            0 <= k < routes@.len() ==> !route_matches(routes@[k], m, segs_view(segs@)),
{
    let n = routes.len();
    let mut i: usize = 0;
    while i < n
        invariant
            n == routes@.len(),
            i <= n,
            forall|k: int| 0 <= k < i ==> !route_matches(routes@[k], m, segs_view(segs@)),
        decreases n - i,
    {
        if route_matches_exec(&routes[i], m, segs) {
            return Some(i);
        }
        i += 1;
    }
    None
}

fn extract_params(pat: &Vec<PatSeg>, segs: &Vec<Vec<u8>>) -> (ps: Vec<Vec<u8>>)
    requires
        pat_matches(pat@, segs_view(segs@)),
    ensures
        segs_view(ps@) == params_of(pat@, segs_view(segs@)),
{
    let ghost sv = segs_view(segs@);
    let ghost full = params_of(pat@, sv);
    let mut ps: Vec<Vec<u8>> = Vec::new();
    let mut i: usize = 0;
    assert(pat@.skip(0) =~= pat@);
    assert(sv.skip(0) =~= sv);
    assert(segs_view(ps@) =~= Seq::<Seq<u8>>::empty());
    while i < pat.len()
        invariant
            i <= pat@.len(),
            pat@.len() == segs@.len(),
            sv == segs_view(segs@),
            full == params_of(pat@, sv),
            full == segs_view(ps@) + params_of(pat@.skip(i as int), sv.skip(i as int)),
        decreases pat@.len() - i,
    {
        let ghost pre = segs_view(ps@);
        proof {
            assert(pat@.skip(i as int).len() > 0);
            assert(pat@.skip(i as int)[0] == pat@[i as int]);
            assert(sv.skip(i as int)[0] == sv[i as int]);
            assert(pat@.skip(i as int).drop_first() =~= pat@.skip(i as int + 1));
            assert(sv.skip(i as int).drop_first() =~= sv.skip(i as int + 1));
        }
        match &pat[i] {
            PatSeg::Param => {
                ps.push(clone_bytes(&segs[i]));
                proof {
                    assert(segs_view(ps@) =~= pre + seq![sv[i as int]]);
                    assert(pre + (seq![sv[i as int]] + params_of(
                        pat@.skip(i as int + 1),
                        sv.skip(i as int + 1),
                    )) =~= segs_view(ps@) + params_of(pat@.skip(i as int + 1), sv.skip(i as int + 1)));
                }
            },
            PatSeg::Lit(_) => {},
        }
        i += 1;
    }
    assert(pat@.skip(pat@.len() as int) =~= Seq::<PatSeg>::empty());
    assert(segs_view(ps@) + Seq::<Seq<u8>>::empty() =~= segs_view(ps@));
    ps
}

/// Decides a request: matches the route, runs global then
/// route-specific middleware, and lets the handler answer or submit a
/// job. The decision is exactly `dispatch_spec`.
pub fn dispatch(rt: &RouteTable, c: &Container, req: &Request, now: u64) -> (p: Plan)
    requires
        now + login_ttl() <= u64::MAX,
    ensures
        plan_view(p) == dispatch_spec(*rt, c.token_cfg, *req, now),
{
    let ghost sv = segs_view(req.segs@);
    let route_i: usize;
    match find_route(&rt.routes, req.method, &req.segs) {
        None => {
            proof {
                lemma_route_index_none(rt.routes@, req.method, sv);
            }
            let body: Vec<u8> = Vec::new();
            assert(body@ =~= Seq::<u8>::empty());
            return Plan::Respond(Response { status: 404, body });
        },
        Some(i) => {
            proof {
                lemma_route_index_some(rt.routes@, req.method, sv, i as int);
            }
            route_i = i;
        },
    }
    let route = &rt.routes[route_i];
    proof {
        lemma_chain_append(
            rt.global@,
            route.mws@,
            c.token_cfg.secret@,
            token_view(req.token),
            req.gzipped,
            req.body@,
            now,
        );
    }
    let body0 = clone_bytes(&req.body);
    let co1 = match run_chain(&rt.global, &c.token_cfg, &req.token, req.gzipped, body0, now) {
        Err(e) => {
            let body: Vec<u8> = Vec::new();
            assert(body@ =~= Seq::<u8>::empty());
            return Plan::Respond(Response { status: e.status(), body });
        },
        Ok(co) => co,
    };
    let co2 = match run_chain(&route.mws, &c.token_cfg, &req.token, req.gzipped, co1.body, now) {
        Err(e) => {
            let body: Vec<u8> = Vec::new();
            assert(body@ =~= Seq::<u8>::empty());
            return Plan::Respond(Response { status: e.status(), body });
        },
        Ok(co) => co,
    };
    match route.handler {
        HandlerId::Home => {
            let body: Vec<u8> = vec![
                87u8, 101, 108, 99, 111, 109, 101, 32, 116, 111, 32, 100, 97, 114, 112, 105,
            ];
            assert(body@ =~= home_body());
            Plan::Respond(Response { status: 200, body })
        },
        HandlerId::Login => {
            match parse_login(&co2.body) {
                Some(creds) => {
                    let subject: Vec<u8> = vec![117u8, 105, 100];
                    assert(subject@ =~= login_subject());
                    let tok = c.token_cfg.issue(&subject, Role::Admin, 2592000, now);
                    proof {
                        let e = creds.email@;
                        let p = creds.password@;
                        assert(plain_str(e) && plain_str(p) && co2.body@ == login_json(e, p));
                    }
                    Plan::Respond(Response { status: 200, body: tok.bytes })
                },
                None => {
                    let body: Vec<u8> = vec![98u8, 111, 100, 121];
                    assert(body@ =~= body_field());
                    Plan::Respond(Response { status: 400, body })
                },
            }
        },
        HandlerId::CreateUser => Plan::Submit(Job::CreateUser(co2.body)),
        HandlerId::GetUser => {
            let ps = extract_params(&route.pattern, &req.segs);
            if ps.len() < 1 {
                let body: Vec<u8> = vec![105u8, 100];
                assert(body@ =~= id_field());
                Plan::Respond(Response { status: 400, body })
            } else {
                assert(ps@[0]@ == params_of(route.pattern@, sv)[0]);
                match parse_user_id(&ps[0]) {
                    Some(u) => Plan::Submit(Job::FindUser(u.id)),
                    None => {
                        let body: Vec<u8> = vec![105u8, 100];
                        assert(body@ =~= id_field());
                        Plan::Respond(Response { status: 400, body })
                    },
                }
            }
        },
    }
}

/// How the runtime answers once an offloaded job's result arrives: the
/// job's own result passes through unchanged to the one waiting
/// request — a found value is a 200 with its bytes, an empty lookup is
/// a 200 with an empty body, and the job's own typed error maps to its
/// status.
pub fn resume(outcome: Result<Option<Vec<u8>>, HttpError>) -> (resp: Response)
    ensures
        outcome matches Ok(Some(b)) ==> resp.status == 200 && resp.body@ == b@,
        outcome matches Ok(None) ==> resp.status == 200 && resp.body@ == Seq::<u8>::empty(),
        outcome matches Err(e) ==> resp.status == e.status_spec() && resp.body@
            == Seq::<u8>::empty(),
{
    match outcome {
        Ok(Some(b)) => Response { status: 200, body: b },
        Ok(None) => {
            let body: Vec<u8> = Vec::new();
            assert(body@ =~= Seq::<u8>::empty());
            Response { status: 200, body }
        },
        Err(e) => {
            let body: Vec<u8> = Vec::new();
            assert(body@ =~= Seq::<u8>::empty());
            Response { status: e.status(), body }
        },
    }
}

/// One request step against the live pool: a direct decision is
/// answered at once; a job submission takes a ticket from the pool, or
/// is answered `InternalError` when the pool rejects the dispatch.
pub enum Step {
    Done(Response),
    Offload(u64, Job),
}

/// Runs one request: dispatches it and, where the handler offloads
/// work, submits the job. Dispatch failures of the pool surface as
/// `InternalError`; application outcomes are delivered later through
/// `resume`.
pub fn run_request(
    rt: &RouteTable,
    c: &Container,
    pool: &mut WorkerPool,
    req: &Request,
    now: u64,
) -> (s: Step)
    requires
        old(pool).wf(),
        now + login_ttl() <= u64::MAX,
    ensures
        final(pool).wf(),
        match dispatch_spec(*rt, c.token_cfg, *req, now) {
            PlanSpec::Respond(st, b) => (s matches Step::Done(resp) && resp.status == st
                && resp.body@ == b) && *final(pool) == *old(pool),
            PlanSpec::Submit(j) => if old(pool).can_accept() {
                s matches Step::Offload(t, job) && t == old(pool).next_ticket && job_view(job) == j
                    && submit_step(*old(pool), *final(pool), t)
            } else {
                (s matches Step::Done(resp) && resp.status == 500 && resp.body@ == Seq::<
                    u8,
                >::empty()) && *final(pool) == *old(pool)
            },
        },
{
    let plan = dispatch(rt, c, req, now);
    match plan {
        Plan::Respond(resp) => Step::Done(resp),
        Plan::Submit(job) => {
            match pool.submit() {
                Ok(t) => Step::Offload(t, job),
                Err(_) => {
                    let body: Vec<u8> = Vec::new();
                    assert(body@ =~= Seq::<u8>::empty());
                    Step::Done(Response { status: 500, body })
                },
            }
        },
    }
}

/// The bytes of `login`.
pub open spec fn login_seg() -> Seq<u8> {
    seq![108u8, 111, 103, 105, 110]
}

/// The bytes of `users`.
pub open spec fn users_seg() -> Seq<u8> {
    seq![117u8, 115, 101, 114, 115]
}

/// The bytes of `my string`: the output the tagging middleware of the
/// user-creation route publishes for the handler.
pub open spec fn emit_tag() -> Seq<u8> {
    seq![109u8, 121, 32, 115, 116, 114, 105, 110, 103]
}

/// The route table this process registers at startup: the welcome
/// page, login, user creation (size-limited and Admin-protected) and
/// user lookup by id, behind a global size limit and decompression.
pub open spec fn is_default_table(rt: RouteTable) -> bool {
    &&& rt.global@.len() == 2
    &&& rt.global@[0] == Middleware::SizeLimit(128u64)
    &&& rt.global@[1] == Middleware::Decompress
    &&& rt.routes@.len() == 4
    &&& rt.routes@[0].method == Method::GET
    &&& rt.routes@[0].pattern@.len() == 0
    &&& rt.routes@[0].handler == HandlerId::Home
    &&& rt.routes@[0].mws@.len() == 0
    &&& rt.routes@[1].method == Method::POST
    &&& rt.routes@[1].pattern@.len() == 1
    &&& (rt.routes@[1].pattern@[0] matches PatSeg::Lit(l) && l@ == login_seg())
    &&& rt.routes@[1].handler == HandlerId::Login
    &&& rt.routes@[1].mws@.len() == 0
    &&& rt.routes@[2].method == Method::POST
    &&& rt.routes@[2].pattern@.len() == 1
    &&& (rt.routes@[2].pattern@[0] matches PatSeg::Lit(l) && l@ == users_seg())
    &&& rt.routes@[2].handler == HandlerId::CreateUser
    &&& rt.routes@[2].mws@.len() == 3
    &&& (rt.routes@[2].mws@[0] matches Middleware::Emit(v) && v@ == emit_tag())
    &&& rt.routes@[2].mws@[1] == Middleware::SizeLimit(128u64)
    &&& rt.routes@[2].mws@[2] == Middleware::Authorize(Role::Admin)
    &&& rt.routes@[3].method == Method::GET
    &&& rt.routes@[3].pattern@.len() == 2
    &&& (rt.routes@[3].pattern@[0] matches PatSeg::Lit(l) && l@ == users_seg())
    &&& rt.routes@[3].pattern@[1] == PatSeg::Param
    &&& rt.routes@[3].handler == HandlerId::GetUser
    &&& rt.routes@[3].mws@.len() == 0
}

/// Builds the process route table.
pub fn default_table() -> (rt: RouteTable)
    ensures
        is_default_table(rt),
{
    let mut global: Vec<Middleware> = Vec::new();
    global.push(Middleware::SizeLimit(128));
    global.push(Middleware::Decompress);
    let home = Route {
        method: Method::GET,
        pattern: Vec::new(),
        handler: HandlerId::Home,
        mws: Vec::new(),
    };
    let login_lit: Vec<u8> = vec![108u8, 111, 103, 105, 110];
    assert(login_lit@ =~= login_seg());
    let mut login_pat: Vec<PatSeg> = Vec::new();
    login_pat.push(PatSeg::Lit(login_lit));
    let login_route = Route {
        method: Method::POST,
        pattern: login_pat,
        handler: HandlerId::Login,
        mws: Vec::new(),
    };
    let users_lit: Vec<u8> = vec![117u8, 115, 101, 114, 115];
    assert(users_lit@ =~= users_seg());
    let mut create_pat: Vec<PatSeg> = Vec::new();
    create_pat.push(PatSeg::Lit(users_lit));
    let tag: Vec<u8> = vec![109u8, 121, 32, 115, 116, 114, 105, 110, 103];
    assert(tag@ =~= emit_tag());
    let mut create_mws: Vec<Middleware> = Vec::new();
    create_mws.push(Middleware::Emit(tag));
    create_mws.push(Middleware::SizeLimit(128));
    create_mws.push(Middleware::Authorize(Role::Admin));
    let create_route = Route {
        method: Method::POST,
        pattern: create_pat,
        handler: HandlerId::CreateUser,
        mws: create_mws,
    };
    let users_lit2: Vec<u8> = vec![117u8, 115, 101, 114, 115];
    assert(users_lit2@ =~= users_seg());
    let mut get_pat: Vec<PatSeg> = Vec::new();
    get_pat.push(PatSeg::Lit(users_lit2));
    get_pat.push(PatSeg::Param);
    let get_route = Route {
        method: Method::GET,
        pattern: get_pat,
        handler: HandlerId::GetUser,
        mws: Vec::new(),
    };
    let mut routes: Vec<Route> = Vec::new();
    routes.push(home);
    routes.push(login_route);
    routes.push(create_route);
    routes.push(get_route);
    RouteTable { global, routes }
}

/// A request whose body exceeds the configured limit is rejected with
/// `PayloadTooLarge` by the first middleware of every matched route:
/// the decision is a direct 413 response, so the handler never runs
/// and no job is submitted — whatever token the request carries.
pub proof fn lemma_oversize_rejected(rt: RouteTable, cfg: TokenConfig, req: Request, now: u64)
    requires
        is_default_table(rt),
        req.body@.len() > 128,
        route_index(rt.routes@, req.method, segs_view(req.segs@)) is Some,
    ensures
        dispatch_spec(rt, cfg, req, now) == PlanSpec::Respond(413, Seq::<u8>::empty()),
{
    match route_index(rt.routes@, req.method, segs_view(req.segs@)) {
        Some(i) => {
            let combined = rt.global@ + rt.routes@[i].mws@;
            assert(combined.len() > 0);
            assert(combined[0] == rt.global@[0]);
            assert(mw_step(combined[0], cfg.secret@, token_view(req.token), req.gzipped, req.body@, now)
                == Err::<(Seq<u8>, Option<Seq<u8>>), HttpError>(HttpError::PayloadTooLarge));
        },
        None => {
            assert(false);
        },
    }
}

/// A request to the Admin-protected user-creation route without a
/// valid token is rejected with `Unauthorized` before the handler
/// runs: the decision is a direct 401 response and no job is
/// submitted, so user creation has no side effect.
pub proof fn lemma_unauthorized_rejected(rt: RouteTable, cfg: TokenConfig, req: Request, now: u64)
    requires
        is_default_table(rt),
        req.method == Method::POST,
        segs_view(req.segs@) == seq![users_seg()],
        req.body@.len() <= 128,
        !req.gzipped,
        match token_view(req.token) {
            None => true,
            Some(t) => !token_valid(cfg.secret@, t, now),
        },
    ensures
        dispatch_spec(rt, cfg, req, now) == PlanSpec::Respond(401, Seq::<u8>::empty()),
{
    let sv = segs_view(req.segs@);
    assert(sv.len() == 1 && sv[0] == users_seg());
    assert(!route_matches(rt.routes@[0], req.method, sv));
    assert(!route_matches(rt.routes@[1], req.method, sv)) by {
        if pat_matches(rt.routes@[1].pattern@, sv) {
            match rt.routes@[1].pattern@[0] {
                PatSeg::Lit(l) => {
                    assert(l@ == sv[0]);
                    assert(l@ == login_seg());
                    assert(login_seg()[0] == 108 && users_seg()[0] == 117);
                },
                PatSeg::Param => {
                    assert(false);
                },
            }
        }
    }
    assert(route_matches(rt.routes@[2], req.method, sv)) by {
        match rt.routes@[2].pattern@[0] {
            PatSeg::Lit(l) => {
                assert(l@ == users_seg());
            },
            PatSeg::Param => {
                assert(false);
            },
        }
    }
    assert(forall|k: int| 0 <= k < 2 ==> !route_matches(rt.routes@[k], req.method, sv));
    lemma_route_index_some(rt.routes@, req.method, sv, 2);
    let secret = cfg.secret@;
    let tok = token_view(req.token);
    let gz = req.gzipped;
    let b = req.body@;
    let m = rt.global@ + rt.routes@[2].mws@;
    assert(m.len() == 5);
    assert(m[0] == rt.global@[0]);
    assert(m[1] == rt.global@[1]);
    assert(m[2] == rt.routes@[2].mws@[0]);
    assert(m[3] == rt.routes@[2].mws@[1]);
    assert(m[4] == rt.routes@[2].mws@[2]);
    let m1 = m.drop_first();
    let m2 = m1.drop_first();
    let m3 = m2.drop_first();
    let m4 = m3.drop_first();
    assert(m1[0] == m[1] && m2[0] == m[2] && m3[0] == m[3] && m4[0] == m[4]);
    assert(m4.len() == 1);
    assert(mw_step(m[4], secret, tok, gz, b, now) == Err::<(Seq<u8>, Option<Seq<u8>>), HttpError>(
        HttpError::Unauthorized,
    )) by {
        match tok {
            None => {},
            Some(t) => {
                assert(!token_valid(secret, t, now));
            },
        }
    }
    assert(chain_spec(m4, secret, tok, gz, b, now) == Err::<
        (Seq<u8>, Seq<Option<Seq<u8>>>),
        HttpError,
    >(HttpError::Unauthorized));
    assert(mw_step(m[3], secret, tok, gz, b, now) == Ok::<(Seq<u8>, Option<Seq<u8>>), HttpError>(
        (b, None),
    ));
    assert(chain_spec(m3, secret, tok, gz, b, now) == Err::<
        (Seq<u8>, Seq<Option<Seq<u8>>>),
        HttpError,
    >(HttpError::Unauthorized));
    match rt.routes@[2].mws@[0] {
        Middleware::Emit(v) => {
            assert(mw_step(m[2], secret, tok, gz, b, now) == Ok::<
                (Seq<u8>, Option<Seq<u8>>),
                HttpError,
            >((b, Some(v@))));
        },
        Middleware::SizeLimit(_) => {
            assert(false);
        },
        Middleware::Decompress => {
            assert(false);
        },
        Middleware::Authorize(_) => {
            assert(false);
        },
    }
    assert(chain_spec(m2, secret, tok, gz, b, now) == Err::<
        (Seq<u8>, Seq<Option<Seq<u8>>>),
        HttpError,
    >(HttpError::Unauthorized));
    assert(mw_step(m[1], secret, tok, gz, b, now) == Ok::<(Seq<u8>, Option<Seq<u8>>), HttpError>(
        (b, None),
    ));
    assert(chain_spec(m1, secret, tok, gz, b, now) == Err::<
        (Seq<u8>, Seq<Option<Seq<u8>>>),
        HttpError,
    >(HttpError::Unauthorized));
    assert(mw_step(m[0], secret, tok, gz, b, now) == Ok::<(Seq<u8>, Option<Seq<u8>>), HttpError>(
        (b, None),
    ));
    assert(chain_spec(m, secret, tok, gz, b, now) == Err::<
        (Seq<u8>, Seq<Option<Seq<u8>>>),
        HttpError,
    >(HttpError::Unauthorized));
}

} // verus!
