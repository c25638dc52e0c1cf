use std::io::Write;

use darpi_runtime::container::{make_container, Container};
use darpi_runtime::dispatch::{
    default_table, dispatch, resume, run_request, Job, Method, Plan, Request, RouteTable, Step,
};
use darpi_runtime::forms::{parse_login, parse_name, parse_user_id};
use darpi_runtime::middleware::{run_chain, Middleware};
use darpi_runtime::offload::WorkerPool;
use darpi_runtime::token::Token;
use darpi_runtime::{HttpError, Role};

const NOW: u64 = 1_700_000_000;

fn req(method: Method, segs: &[&[u8]], body: &[u8]) -> Request {
    Request {
        method,
        segs: segs.iter().map(|s| s.to_vec()).collect(),
        query: Vec::new(),
        body: body.to_vec(),
        token: None,
        gzipped: false,
    }
}

fn setup() -> (RouteTable, Container) {
    (default_table(), make_container())
}

fn admin_token(c: &Container) -> Token {
    c.token_cfg.issue(&b"uid".to_vec(), Role::Admin, 3600, NOW)
}

fn expect_response(p: Plan) -> (u16, Vec<u8>) {
    match p {
        Plan::Respond(r) => (r.status, r.body),
        Plan::Submit(_) => panic!("expected a direct response, got a job submission"),
    }
}

#[test]
fn home_returns_welcome() {
    let (rt, c) = setup();
    let p = dispatch(&rt, &c, &req(Method::GET, &[], b""), NOW);
    let (status, body) = expect_response(p);
    assert_eq!(status, 200);
    assert_eq!(body, b"Welcome to darpi".to_vec());
}

#[test]
fn unknown_route_is_not_found() {
    let (rt, c) = setup();
    let p = dispatch(&rt, &c, &req(Method::GET, &[b"nope"], b""), NOW);
    assert_eq!(expect_response(p).0, 404);
    // a known path with the wrong method is not found either
    let p = dispatch(&rt, &c, &req(Method::GET, &[b"login"], b""), NOW);
    assert_eq!(expect_response(p).0, 404);
}

#[test]
fn login_returns_token_that_verifies() {
    let (rt, c) = setup();
    let body = br#"{"email":"a@b.com","password":"x"}"#;
    let p = dispatch(&rt, &c, &req(Method::POST, &[b"login"], body), NOW);
    let (status, token) = expect_response(p);
    assert_eq!(status, 200);
    assert!(!token.is_empty());
    let claims = c.token_cfg.verify(&token, NOW).expect("issued token must verify");
    assert_eq!(claims.sub, b"uid".to_vec());
    assert_eq!(claims.role, Role::Admin);
    assert_eq!(claims.exp, NOW + 2_592_000);
}

#[test]
fn login_rejects_malformed_body() {
    let (rt, c) = setup();
    for bad in [
        &b"nonsense"[..],
        &br#"{"email":"a@b.com"}"#[..],
        &br#"{"email":"a\"b","password":"x"}"#[..],
        &b""[..],
    ] {
        let p = dispatch(&rt, &c, &req(Method::POST, &[b"login"], bad), NOW);
        let (status, body) = expect_response(p);
        assert_eq!(status, 400);
        assert_eq!(body, b"body".to_vec(), "the rejected field is named");
    }
}

#[test]
fn oversize_body_is_payload_too_large() {
    // the 128-byte limit rejects before the handler, token or no token
    let (rt, c) = setup();
    let big = vec![b'x'; 129];
    let mut r = req(Method::POST, &[b"users"], &big);
    let p = dispatch(&rt, &c, &r, NOW);
    assert_eq!(expect_response(p).0, 413);
    r.token = Some(admin_token(&c).bytes);
    let p = dispatch(&rt, &c, &r, NOW);
    assert_eq!(expect_response(p).0, 413);
}

#[test]
fn boundary_body_passes_size_limit() {
    let (rt, c) = setup();
    let exact = vec![b'x'; 128];
    let mut r = req(Method::POST, &[b"users"], &exact);
    r.token = Some(admin_token(&c).bytes);
    match dispatch(&rt, &c, &r, NOW) {
        Plan::Submit(Job::CreateUser(b)) => assert_eq!(b, exact),
        _ => panic!("a 128-byte body must reach the handler"),
    }
}

#[test]
fn missing_or_invalid_token_is_unauthorized() {
    let (rt, c) = setup();
    let mut r = req(Method::POST, &[b"users"], b"{}");
    let p = dispatch(&rt, &c, &r, NOW);
    assert_eq!(expect_response(p).0, 401);
    r.token = Some(b"garbage".to_vec());
    let p = dispatch(&rt, &c, &r, NOW);
    assert_eq!(expect_response(p).0, 401);
    // an expired admin token is not valid either
    let old = c.token_cfg.issue(&b"uid".to_vec(), Role::Admin, 10, NOW - 100);
    r.token = Some(old.bytes);
    let p = dispatch(&rt, &c, &r, NOW);
    assert_eq!(expect_response(p).0, 401);
}

#[test]
fn insufficient_role_is_forbidden() {
    let (rt, c) = setup();
    let user_tok = c.token_cfg.issue(&b"uid".to_vec(), Role::User, 3600, NOW);
    let mut r = req(Method::POST, &[b"users"], b"{}");
    r.token = Some(user_tok.bytes);
    let p = dispatch(&rt, &c, &r, NOW);
    assert_eq!(expect_response(p).0, 403);
}

#[test]
fn create_user_submits_the_checked_body() {
    let (rt, c) = setup();
    let mut r = req(Method::POST, &[b"users"], br#"{"name":"ada"}"#);
    r.token = Some(admin_token(&c).bytes);
    match dispatch(&rt, &c, &r, NOW) {
        Plan::Submit(Job::CreateUser(b)) => assert_eq!(b, br#"{"name":"ada"}"#.to_vec()),
        _ => panic!("an authorized creation must offload a job"),
    }
}

#[test]
fn get_user_extracts_typed_id() {
    let (rt, c) = setup();
    match dispatch(&rt, &c, &req(Method::GET, &[b"users", b"1"], b""), NOW) {
        Plan::Submit(Job::FindUser(id)) => assert_eq!(id, 1),
        _ => panic!("a well-formed id must offload a lookup"),
    }
    match dispatch(&rt, &c, &req(Method::GET, &[b"users", b"-5"], b""), NOW) {
        Plan::Submit(Job::FindUser(id)) => assert_eq!(id, -5),
        _ => panic!("a negative id is still well-formed"),
    }
    match dispatch(&rt, &c, &req(Method::GET, &[b"users", b"2147483647"], b""), NOW) {
        Plan::Submit(Job::FindUser(id)) => assert_eq!(id, i32::MAX),
        _ => panic!("the largest id must parse"),
    }
}

#[test]
fn get_user_rejects_bad_ids() {
    let (rt, c) = setup();
    for bad in [&b"abc"[..], &b""[..], &b"2147483648"[..], &b"12x"[..], &b"-"[..]] {
        let p = dispatch(&rt, &c, &req(Method::GET, &[b"users", bad], b""), NOW);
        let (status, body) = expect_response(p);
        assert_eq!(status, 400, "id {:?} must be rejected", bad);
        assert_eq!(body, b"id".to_vec(), "the rejected field is named");
    }
}

#[test]
fn missing_user_is_empty_success_not_404() {
    // the lookup's empty result is a 200 with an empty body
    let resp = resume(Ok(None));
    assert_eq!(resp.status, 200);
    assert!(resp.body.is_empty());
}

#[test]
fn resume_passes_results_and_errors_through() {
    let resp = resume(Ok(Some(b"created".to_vec())));
    assert_eq!((resp.status, resp.body), (200, b"created".to_vec()));
    let resp = resume(Err(HttpError::InternalError));
    assert_eq!(resp.status, 500);
    assert!(resp.body.is_empty());
    let resp = resume(Err(HttpError::NotFound));
    assert_eq!(resp.status, 404);
}

fn gzip(data: &[u8]) -> Vec<u8> {
    let mut enc = flate2::write::GzEncoder::new(Vec::new(), flate2::Compression::default());
    enc.write_all(data).unwrap();
    enc.finish().unwrap()
}

#[test]
fn gzipped_login_body_is_decoded_before_the_handler() {
    let (rt, c) = setup();
    let mut r = req(
        Method::POST,
        &[b"login"],
        &gzip(br#"{"email":"a@b.com","password":"x"}"#),
    );
    r.gzipped = true;
    let (status, token) = expect_response(dispatch(&rt, &c, &r, NOW));
    assert_eq!(status, 200);
    assert!(c.token_cfg.verify(&token, NOW).is_ok());
}

#[test]
fn malformed_gzip_is_a_decode_error() {
    let (rt, c) = setup();
    let mut r = req(Method::POST, &[b"login"], b"this is not gzip");
    r.gzipped = true;
    assert_eq!(expect_response(dispatch(&rt, &c, &r, NOW)).0, 400);
}

#[test]
fn offloaded_jobs_resolve_once_with_their_own_result() {
    let (rt, c) = setup();
    let mut pool = WorkerPool::new(4);
    let mut r = req(Method::POST, &[b"users"], br#"{"name":"ada"}"#);
    r.token = Some(admin_token(&c).bytes);
    match run_request(&rt, &c, &mut pool, &r, NOW) {
        Step::Offload(ticket, Job::CreateUser(b)) => {
            assert_eq!(b, br#"{"name":"ada"}"#.to_vec());
            // the worker's result reaches exactly one waiter
            assert!(pool.deliver(ticket));
            assert!(!pool.deliver(ticket), "a result must not be delivered twice");
            let resp = resume(Ok(Some(b)));
            assert_eq!(resp.status, 200);
        },
        _ => panic!("an authorized creation must be offloaded"),
    }
}

#[test]
fn concurrent_jobs_keep_distinct_tickets_and_results() {
    let (rt, c) = setup();
    let mut pool = WorkerPool::new(4);
    let s1 = run_request(&rt, &c, &mut pool, &req(Method::GET, &[b"users", b"1"], b""), NOW);
    let s2 = run_request(&rt, &c, &mut pool, &req(Method::GET, &[b"users", b"2"], b""), NOW);
    match (s1, s2) {
        (Step::Offload(t1, Job::FindUser(id1)), Step::Offload(t2, Job::FindUser(id2))) => {
            assert_ne!(t1, t2, "in-flight jobs must not share a ticket");
            assert_eq!((id1, id2), (1, 2));
            // each waiter gets its own job's result
            let r1 = resume(Ok(Some(b"user-1".to_vec())));
            let r2 = resume(Ok(Some(b"user-2".to_vec())));
            assert_eq!(r1.body, b"user-1".to_vec());
            assert_eq!(r2.body, b"user-2".to_vec());
            assert!(pool.deliver(t1));
            assert!(pool.deliver(t2));
        },
        _ => panic!("both lookups must be offloaded"),
    }
}

#[test]
fn saturated_pool_fails_fast_with_internal_error() {
    let (rt, c) = setup();
    let mut pool = WorkerPool::new(0);
    match run_request(&rt, &c, &mut pool, &req(Method::GET, &[b"users", b"1"], b""), NOW) {
        Step::Done(resp) => {
            assert_eq!(resp.status, 500);
            assert!(resp.body.is_empty());
        },
        _ => panic!("a saturated pool must reject the dispatch"),
    }
}

#[test]
fn pool_respects_its_bound() {
    let mut pool = WorkerPool::new(2);
    let t1 = pool.submit().expect("capacity for the first job");
    let t2 = pool.submit().expect("capacity for the second job");
    assert!(pool.submit().is_err(), "the bound is respected");
    assert!(pool.deliver(t1));
    let t3 = pool.submit().expect("a freed slot accepts work again");
    assert_ne!(t2, t3);
}

#[test]
fn chain_outputs_are_keyed_by_position() {
    let c = make_container();
    let mws = vec![Middleware::Emit(b"tag".to_vec()), Middleware::SizeLimit(16)];
    let out =
        run_chain(&mws, &c.token_cfg, &None, false, b"body".to_vec(), NOW).expect("chain passes");
    assert_eq!(out.body, b"body".to_vec());
    assert_eq!(out.outputs, vec![Some(b"tag".to_vec()), None]);
}

#[test]
fn chain_rejection_short_circuits_in_list_order() {
    // the size limit rejects before the authorize stage is consulted
    let c = make_container();
    let mws = vec![Middleware::SizeLimit(2), Middleware::Authorize(Role::Admin)];
    match run_chain(&mws, &c.token_cfg, &None, false, b"long".to_vec(), NOW) {
        Err(e) => assert_eq!(e, darpi_runtime::HttpError::PayloadTooLarge),
        Ok(_) => panic!("the limit must reject first"),
    }
}

#[test]
fn parsers_accept_exactly_their_grammar() {
    let l = parse_login(&br#"{"email":"a@b.com","password":"x"}"#.to_vec())
        .expect("canonical body must parse");
    assert_eq!(l.email, b"a@b.com".to_vec());
    assert_eq!(l.password, b"x".to_vec());
    assert!(parse_login(&br#"{"email":"a","password":"x"} "#.to_vec()).is_none());
    let n = parse_name(&b"name=bob".to_vec()).expect("name query must parse");
    assert_eq!(n.name, b"bob".to_vec());
    assert!(parse_name(&b"nom=bob".to_vec()).is_none());
    assert_eq!(parse_user_id(&b"0042".to_vec()).expect("leading zeros are fine").id, 42);
    assert!(parse_user_id(&b"+1".to_vec()).is_none());
}
