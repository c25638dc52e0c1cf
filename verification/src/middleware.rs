//! Middleware chain executor: an ordered list of request-scoped
//! middleware, run strictly in list order, each of which passes
//! (optionally producing a typed output for later stages), transforms
//! the body, or rejects and short-circuits the chain.

use crate::forms::clone_bytes;
use crate::token::{role_of, token_valid, TokenConfig};
use crate::{HttpError, Role};
use vstd::prelude::*;

verus! {

/// What gzip decompression yields on `b`: the decoded bytes, or
/// nothing when the input is malformed. A pure function of the input,
/// computed by the `flate2` crate.
pub uninterp spec fn gunzip_of(b: Seq<u8>) -> Option<Seq<u8>>;

/// Relies on `flate2::read::GzDecoder`: decoding reads the whole
/// stream, depends on the compressed bytes alone, and reports an error
/// on malformed input.
#[verifier::external_body]
fn gunzip(b: &Vec<u8>) -> (r: Option<Vec<u8>>)
    ensures
        r is Some <==> gunzip_of(b@) is Some,
        r matches Some(v) ==> gunzip_of(b@) == Some(v@),
{
    let mut out: Vec<u8> = Vec::new();
    let mut dec = flate2::read::GzDecoder::new(b.as_slice());
    match std::io::Read::read_to_end(&mut dec, &mut out) {
        Ok(_) => Some(out),
        Err(_) => None,
    }
}

/// The token an option holds, as bytes.
pub open spec fn token_view(t: Option<Vec<u8>>) -> Option<Seq<u8>> {
    match t {
        Some(v) => Some(v@),
        None => None,
    }
}

/// One stage's output, as bytes.
pub open spec fn out_view(o: Option<Vec<u8>>) -> Option<Seq<u8>> {
    match o {
        Some(v) => Some(v@),
        None => None,
    }
}

/// All stage outputs, keyed by position.
pub open spec fn outs_view(os: Seq<Option<Vec<u8>>>) -> Seq<Option<Seq<u8>>> {
    Seq::new(os.len(), |i: int| out_view(os[i]))
}

/// One request-scoped middleware stage.
pub enum Middleware {
    /// Rejects with `PayloadTooLarge` when the body exceeds the limit.
    SizeLimit(u64),
    /// Decodes a compressed body before later stages see it; rejects
    /// with `DecodeError` on malformed input.
    Decompress,
    /// Requires a token that verifies and whose role satisfies the
    /// requirement; rejects with `Unauthorized` or `Forbidden`.
    Authorize(Role),
    /// Passes, publishing a typed output for later stages and the
    /// handler.
    Emit(Vec<u8>),
}

/// What one middleware does to a request: either the (possibly
/// replaced) body together with this stage's output, or a rejection.
pub open spec fn mw_step(
    mw: Middleware,
    secret: Seq<u8>,
    token: Option<Seq<u8>>,
    gzipped: bool,
    body: Seq<u8>,
    now: u64,
) -> Result<(Seq<u8>, Option<Seq<u8>>), HttpError> {
    match mw {
        Middleware::SizeLimit(limit) => if body.len() > limit {
            Err(HttpError::PayloadTooLarge)
        } else {
            Ok((body, None))
        },
        Middleware::Decompress => if !gzipped {
            Ok((body, None))
        } else {
            match gunzip_of(body) {
                Some(decoded) => Ok((decoded, None)),
                None => Err(HttpError::DecodeError),
            }
        },
        Middleware::Authorize(required) => match token {
            None => Err(HttpError::Unauthorized),
            Some(t) => if !token_valid(secret, t, now) {
                Err(HttpError::Unauthorized)
            } else if !role_of(t).satisfies_spec(required) {
                Err(HttpError::Forbidden)
            } else {
                Ok((body, None))
            },
        },
        Middleware::Emit(v) => Ok((body, Some(v@))),
    }
}

/// Runs the middleware in list order: the first rejection
/// short-circuits; otherwise the final body and the per-stage outputs,
/// keyed by position, come out.
pub open spec fn chain_spec(
    mws: Seq<Middleware>,
    secret: Seq<u8>,
    token: Option<Seq<u8>>,
    gzipped: bool,
    body: Seq<u8>,
    now: u64,
) -> Result<(Seq<u8>, Seq<Option<Seq<u8>>>), HttpError>
    decreases mws.len(),
{
    if mws.len() == 0 {
        Ok((body, Seq::empty()))
    } else {
        match mw_step(mws[0], secret, token, gzipped, body, now) {
            Err(e) => Err(e),
            Ok(pr) => match chain_spec(mws.drop_first(), secret, token, gzipped, pr.0, now) {
                Err(e) => Err(e),
                Ok(rest) => Ok((rest.0, seq![pr.1] + rest.1)),
            },
        }
    }
}

/// What a fully-run chain hands to the handler: the final body and
/// each stage's output, keyed by its position in the chain.
pub struct ChainOutcome {
    pub body: Vec<u8>,
    pub outputs: Vec<Option<Vec<u8>>>,
}

/// Executes the chain. The result is exactly `chain_spec` on the
/// request's token, encoding flag and body at time `now`.
pub fn run_chain(
    mws: &Vec<Middleware>,
    cfg: &TokenConfig,
    token: &Option<Vec<u8>>,
    gzipped: bool,
    body: Vec<u8>,
    now: u64,
) -> (r: Result<ChainOutcome, HttpError>)
    ensures
        r matches Ok(c) ==> chain_spec(mws@, cfg.secret@, token_view(*token), gzipped, body@, now)
            == Ok::<(Seq<u8>, Seq<Option<Seq<u8>>>), HttpError>((c.body@, outs_view(c.outputs@))),
        r matches Err(e) ==> chain_spec(mws@, cfg.secret@, token_view(*token), gzipped, body@, now)
            == Err::<(Seq<u8>, Seq<Option<Seq<u8>>>), HttpError>(e),
{
    let ghost tokv = token_view(*token);
    let ghost full = chain_spec(mws@, cfg.secret@, tokv, gzipped, body@, now);
    let mut cur = body;
    let mut outs: Vec<Option<Vec<u8>>> = Vec::new();
    let mut i: usize = 0;
    assert(mws@.skip(0) =~= mws@);
    assert(outs_view(outs@) =~= Seq::<Option<Seq<u8>>>::empty());
    while i < mws.len()
        invariant
            i <= mws@.len(),
            tokv == token_view(*token),
            full == chain_spec(mws@, cfg.secret@, tokv, gzipped, body@, now),
            full == (match chain_spec(mws@.skip(i as int), cfg.secret@, tokv, gzipped, cur@, now) {
                Ok(rest) => Ok::<(Seq<u8>, Seq<Option<Seq<u8>>>), HttpError>(
                    (rest.0, outs_view(outs@) + rest.1),
                ),
                Err(e) => Err::<(Seq<u8>, Seq<Option<Seq<u8>>>), HttpError>(e),
            }),
        decreases mws@.len() - i,
    {
        let ghost pre_outs = outs_view(outs@);
        let ghost pre_cur = cur@;
        proof {
            assert(mws@.skip(i as int).len() > 0);
            assert(mws@.skip(i as int)[0] == mws@[i as int]);
            assert(mws@.skip(i as int).drop_first() =~= mws@.skip(i as int + 1));
        }
        let step_out: Option<Vec<u8>>;
        match &mws[i] {
            Middleware::SizeLimit(limit) => {
                if cur.len() as u64 > *limit {
                    return Err(HttpError::PayloadTooLarge);
                }
                step_out = None;
            },
            Middleware::Decompress => {
                if gzipped {
                    match gunzip(&cur) {
                        Some(decoded) => {
                            cur = decoded;
                            step_out = None;
                        },
                        None => {
                            return Err(HttpError::DecodeError);
                        },
                    }
                } else {
                    step_out = None;
                }
            },
            Middleware::Authorize(required) => {
                match token {
                    None => {
                        return Err(HttpError::Unauthorized);
                    },
                    Some(t) => {
                        match cfg.verify(t, now) {
                            Ok(claims) => {
                                if !claims.role.satisfies(*required) {
                                    return Err(HttpError::Forbidden);
                                }
                                step_out = None;
                            },
                            Err(_) => {
                                return Err(HttpError::Unauthorized);
                            },
                        }
                    },
                }
            },
            Middleware::Emit(v) => {
                step_out = Some(clone_bytes(v));
            },
        }
        proof {
            assert(mw_step(mws@[i as int], cfg.secret@, tokv, gzipped, pre_cur, now) == Ok::<
                (Seq<u8>, Option<Seq<u8>>),
                HttpError,
            >((cur@, out_view(step_out))));
        }
        outs.push(step_out);
        proof {
            assert(outs_view(outs@) =~= pre_outs + seq![out_view(step_out)]);
            let rest_next = chain_spec(
                mws@.skip(i as int + 1),
                cfg.secret@,
                tokv,
                gzipped,
                cur@,
                now,
            );
            match rest_next {
                Ok(rn) => {
                    assert(pre_outs + (seq![out_view(step_out)] + rn.1) =~= outs_view(outs@)
                        + rn.1);
                },
                Err(_) => {},
            }
        }
        i += 1;
    }
    assert(mws@.skip(i as int) =~= Seq::<Middleware>::empty());
    assert(outs_view(outs@) + Seq::<Option<Seq<u8>>>::empty() =~= outs_view(outs@));
    Ok(ChainOutcome { body: cur, outputs: outs })
}

} // verus!
