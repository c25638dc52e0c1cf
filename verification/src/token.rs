//! Auth token service: issues signed tokens carrying a subject, a role
//! and an absolute expiry, and verifies presented tokens against the
//! configured secret and the current time.
//!
//! A token is an opaque byte string
//! `[sub_len][subject][role][expiry, 8 bytes big-endian][signature]`
//! whose signature is the HMAC-SHA-256 of everything before it under the
//! configured secret. Expiry is the only invalidation mechanism.

use crate::Role;
use vstd::prelude::*;

verus! {

/// The HMAC-SHA-256 of `msg` under `key`: a pure function of its two
/// arguments, left unspecified here and computed by the `hmac` crate.
pub uninterp spec fn hmac_of(key: Seq<u8>, msg: Seq<u8>) -> Seq<u8>;

/// Relies on `hmac::Hmac<sha2::Sha256>`: the MAC is a deterministic
/// function of key and message alone, its output is 32 bytes, and
/// `new_from_slice` accepts keys of any length (its body always
/// returns `Ok`).
#[verifier::external_body]
fn hmac_sha256(key: &Vec<u8>, msg: &Vec<u8>) -> (r: Vec<u8>)
    ensures
        r@ == hmac_of(key@, msg@),
        r@.len() == 32,
{
    let mut mac = <hmac::Hmac<sha2::Sha256> as hmac::KeyInit>::new_from_slice(key.as_slice())
        .expect("HMAC accepts keys of any length");
    hmac::Mac::update(&mut mac, msg.as_slice());
    hmac::Mac::finalize(mac).into_bytes().to_vec()
}

/// Signing algorithm chosen at startup. Only HMAC-SHA-256 is wired.
#[derive(Clone, Copy, Debug, PartialEq, Eq, Structural)]
pub enum Algorithm {
    HS256,
}

/// Why a presented token was rejected.
#[derive(Clone, Copy, Debug, PartialEq, Eq, Structural)]
pub enum AuthError {
    /// The token cannot be decoded at all.
    Malformed,
    /// The token was not signed with the configured secret.
    InvalidSignature,
    /// The current time is at or past the encoded expiry.
    Expired,
}

/// The statements a valid token makes about its bearer.
pub struct Claims {
    pub sub: Vec<u8>,
    pub role: Role,
    pub exp: u64,
}

/// An issued token: an opaque signed byte string.
pub struct Token {
    pub bytes: Vec<u8>,
}

impl View for Token {
    type V = Seq<u8>;

    open spec fn view(&self) -> Seq<u8> {
        self.bytes@
    }
}

/// Startup configuration of the token service: signing secret and
/// algorithm, immutable for the life of the process.
pub struct TokenConfig {
    pub secret: Vec<u8>,
    pub algorithm: Algorithm,
}

pub open spec fn role_byte(r: Role) -> u8 {
    match r {
        Role::User => 0u8,
        Role::Admin => 1u8,
    }
}

pub open spec fn is_role_byte(b: u8) -> bool {
    b == 0 || b == 1
}

pub open spec fn role_of_byte(b: u8) -> Role {
    if b == 1 {
        Role::Admin
    } else {
        Role::User
    }
}

/// Big-endian encoding of an expiry instant.
pub open spec fn exp_bytes(x: u64) -> Seq<u8> {
    seq![
        (x >> 56) as u8,
        (x >> 48) as u8,
        (x >> 40) as u8,
        (x >> 32) as u8,
        (x >> 24) as u8,
        (x >> 16) as u8,
        (x >> 8) as u8,
        x as u8,
    ]
}

/// The instant an 8-byte big-endian field encodes.
pub open spec fn be_val(b: Seq<u8>) -> u64
    recommends
        b.len() == 8,
{
    ((b[0] as u64) << 56) | ((b[1] as u64) << 48) | ((b[2] as u64) << 40) | ((b[3] as u64) << 32)
        | ((b[4] as u64) << 24) | ((b[5] as u64) << 16) | ((b[6] as u64) << 8) | (b[7] as u64)
}

pub proof fn lemma_exp_bytes_val(x: u64)
    ensures
        be_val(exp_bytes(x)) == x,
{
    let b = exp_bytes(x);
    assert(((((x >> 56) as u8) as u64) << 56 | (((x >> 48) as u8) as u64) << 48 | (((x
        >> 40) as u8) as u64) << 40 | (((x >> 32) as u8) as u64) << 32 | (((x >> 24) as u8) as u64)
        << 24 | (((x >> 16) as u8) as u64) << 16 | (((x >> 8) as u8) as u64) << 8 | ((
    x as u8) as u64)) == x) by (bit_vector);
}

/// The signed portion of a token for the given claims.
pub open spec fn payload_bytes(sub: Seq<u8>, role: Role, exp: u64) -> Seq<u8> {
    seq![sub.len() as u8] + sub + seq![role_byte(role)] + exp_bytes(exp)
}

/// The full token the service issues for the given claims.
pub open spec fn token_bytes(secret: Seq<u8>, sub: Seq<u8>, role: Role, exp: u64) -> Seq<u8> {
    payload_bytes(sub, role, exp) + hmac_of(secret, payload_bytes(sub, role, exp))
}

pub open spec fn sub_len_of(t: Seq<u8>) -> int
    recommends
        t.len() >= 1,
{
    t[0] as int
}

/// Whether a byte string has the shape of a token: a subject of the
/// declared length, a known role byte, and an expiry field.
pub open spec fn shaped(t: Seq<u8>) -> bool {
    &&& t.len() >= 1
    &&& t.len() >= sub_len_of(t) + 10
    &&& is_role_byte(t[1 + sub_len_of(t)])
}

pub open spec fn sub_of(t: Seq<u8>) -> Seq<u8> {
    t.subrange(1, 1 + sub_len_of(t))
}

pub open spec fn role_of(t: Seq<u8>) -> Role {
    role_of_byte(t[1 + sub_len_of(t)])
}

pub open spec fn exp_of(t: Seq<u8>) -> u64 {
    be_val(t.subrange(2 + sub_len_of(t), 10 + sub_len_of(t)))
}

pub open spec fn payload_of(t: Seq<u8>) -> Seq<u8> {
    t.subrange(0, 10 + sub_len_of(t))
}

pub open spec fn sig_of(t: Seq<u8>) -> Seq<u8> {
    t.subrange(10 + sub_len_of(t), t.len() as int)
}

pub open spec fn sig_valid(secret: Seq<u8>, t: Seq<u8>) -> bool {
    sig_of(t) == hmac_of(secret, payload_of(t))
}

/// Verification is a pure function of token, secret and current time:
/// the token is shaped, carries the configured secret's signature, and
/// has not yet expired.
pub open spec fn token_valid(secret: Seq<u8>, t: Seq<u8>, now: u64) -> bool {
    shaped(t) && sig_valid(secret, t) && now < exp_of(t)
}

fn push_all(dst: &mut Vec<u8>, src: &Vec<u8>)
    ensures
        final(dst)@ == old(dst)@ + src@,
{
    let mut i: usize = 0;
    while i < src.len()
        invariant
            i <= src.len(),
            dst@ == old(dst)@ + src@.take(i as int),
        decreases src.len() - i,
    {
        dst.push(src[i]);
        assert(dst@ =~= old(dst)@ + src@.take(i + 1));
        i += 1;
    }
    assert(dst@ =~= old(dst)@ + src@);
}

fn push_exp(dst: &mut Vec<u8>, x: u64)
    ensures
        final(dst)@ == old(dst)@ + exp_bytes(x),
{
    dst.push(#[verifier::truncate] ((x >> 56) as u8));
    dst.push(#[verifier::truncate] ((x >> 48) as u8));
    dst.push(#[verifier::truncate] ((x >> 40) as u8));
    dst.push(#[verifier::truncate] ((x >> 32) as u8));
    dst.push(#[verifier::truncate] ((x >> 24) as u8));
    dst.push(#[verifier::truncate] ((x >> 16) as u8));
    dst.push(#[verifier::truncate] ((x >> 8) as u8));
    dst.push(#[verifier::truncate] (x as u8));
    assert(dst@ =~= old(dst)@ + exp_bytes(x));
}

impl TokenConfig {
    /// Issues a signed token for `sub` with role `role`, expiring `ttl`
    /// time units after `now`. Deterministic given the configured
    /// secret.
    pub fn issue(&self, sub: &Vec<u8>, role: Role, ttl: u64, now: u64) -> (t: Token)
        requires
            sub@.len() <= 255,
            now + ttl <= u64::MAX,
        ensures
            t@ == token_bytes(self.secret@, sub@, role, (now + ttl) as u64),
    {
        let exp: u64 = now + ttl;
        let mut p: Vec<u8> = Vec::new();
        p.push(sub.len() as u8);
        push_all(&mut p, sub);
        p.push(
            match role {
                Role::User => 0u8,
                Role::Admin => 1u8,
            },
        );
        push_exp(&mut p, exp);
        assert(p@ =~= payload_bytes(sub@, role, exp));
        let mac = hmac_sha256(&self.secret, &p);
        let mut out = p;
        push_all(&mut out, &mac);
        assert(out@ =~= token_bytes(self.secret@, sub@, role, exp));
        Token { bytes: out }
    }

    /// Verifies a presented token at time `now`: `Malformed` if it does
    /// not decode, `InvalidSignature` if it was not signed with the
    /// configured secret, `Expired` once `now` reaches the encoded
    /// expiry, and otherwise the decoded claims.
    pub fn verify(&self, tok: &Vec<u8>, now: u64) -> (r: Result<Claims, AuthError>)
        ensures
            r is Ok <==> token_valid(self.secret@, tok@, now),
            r matches Ok(c) ==> c.sub@ == sub_of(tok@) && c.role == role_of(tok@) && c.exp
                == exp_of(tok@),
            r == Err::<Claims, AuthError>(AuthError::Malformed) <==> !shaped(tok@),
            r == Err::<Claims, AuthError>(AuthError::InvalidSignature) <==> shaped(tok@)
                && !sig_valid(self.secret@, tok@),
            r == Err::<Claims, AuthError>(AuthError::Expired) <==> shaped(tok@) && sig_valid(
                self.secret@,
                tok@,
            ) && now >= exp_of(tok@),
    {
        let t = tok;
        let n = t.len();
        if n < 1 {
            return Err(AuthError::Malformed);
        }
        let l = t[0] as usize;
        if n < l + 10 {
            return Err(AuthError::Malformed);
        }
        let rb = t[1 + l];
        if !(rb == 0 || rb == 1) {
            return Err(AuthError::Malformed);
        }
        let mut payload: Vec<u8> = Vec::new();
        let mut i: usize = 0;
        while i < l + 10
            invariant
                l <= 255,
                i <= l + 10,
                l + 10 <= t@.len(),
                t@ == tok@,
                payload@ == t@.take(i as int),
            decreases l + 10 - i,
        {
            payload.push(t[i]);
            assert(payload@ =~= t@.take(i + 1));
            i += 1;
        }
        assert(payload@ =~= payload_of(tok@));
        let mac = hmac_sha256(&self.secret, &payload);
        if n - (l + 10) != mac.len() {
            assert(sig_of(tok@).len() != hmac_of(self.secret@, payload_of(tok@)).len());
            return Err(AuthError::InvalidSignature);
        }
        let mut j: usize = 0;
        while j < mac.len()
            invariant
                j <= mac.len(),
                t@ == tok@,
                shaped(tok@),
                l == sub_len_of(tok@),
                n == t@.len(),
                n - (l + 10) == mac.len(),
                mac@ == hmac_of(self.secret@, payload_of(tok@)),
                forall|k: int| 0 <= k < j ==> t@[l + 10 + k] == mac@[k],
            decreases mac.len() - j,
        {
            if t[l + 10 + j] != mac[j] {
                assert(sig_of(tok@)[j as int] != hmac_of(self.secret@, payload_of(tok@))[j as int]);
                return Err(AuthError::InvalidSignature);
            }
            j += 1;
        }
        assert(sig_of(tok@) =~= hmac_of(self.secret@, payload_of(tok@)));
        let exp: u64 = ((t[2 + l] as u64) << 56) | ((t[3 + l] as u64) << 48) | ((t[4
            + l] as u64) << 40) | ((t[5 + l] as u64) << 32) | ((t[6 + l] as u64) << 24) | ((t[7
            + l] as u64) << 16) | ((t[8 + l] as u64) << 8) | (t[9 + l] as u64);
        assert(exp == exp_of(tok@)) by {
            let s = tok@.subrange(2 + l, 10 + l);
            assert(s[0] == tok@[2 + l]);
            assert(s[1] == tok@[3 + l]);
            assert(s[2] == tok@[4 + l]);
            assert(s[3] == tok@[5 + l]);
            assert(s[4] == tok@[6 + l]);
            assert(s[5] == tok@[7 + l]);
            assert(s[6] == tok@[8 + l]);
            assert(s[7] == tok@[9 + l]);
        }
        if now >= exp {
            return Err(AuthError::Expired);
        }
        let mut sub: Vec<u8> = Vec::new();
        let mut k: usize = 1;
        while k < 1 + l
            invariant
                l <= 255,
                1 <= k <= 1 + l,
                l + 10 <= t@.len(),
                t@ == tok@,
                sub@ == t@.subrange(1, k as int),
            decreases 1 + l - k,
        {
            sub.push(t[k]);
            assert(sub@ =~= t@.subrange(1, k + 1));
            k += 1;
        }
        assert(sub@ =~= sub_of(tok@));
        Ok(
            Claims {
                sub,
                role: if rb == 1 {
                    Role::Admin
                } else {
                    Role::User
                },
                exp,
            },
        )
    }
}

/// An issued token decodes to exactly the claims it was issued for, and
/// its signature checks out against the issuing secret.
pub proof fn lemma_token_parse(secret: Seq<u8>, sub: Seq<u8>, role: Role, exp: u64)
    requires
        sub.len() <= 255,
    ensures
        shaped(token_bytes(secret, sub, role, exp)),
        sub_of(token_bytes(secret, sub, role, exp)) == sub,
        role_of(token_bytes(secret, sub, role, exp)) == role,
        exp_of(token_bytes(secret, sub, role, exp)) == exp,
        payload_of(token_bytes(secret, sub, role, exp)) == payload_bytes(sub, role, exp),
        sig_valid(secret, token_bytes(secret, sub, role, exp)),
{
    let p = payload_bytes(sub, role, exp);
    let t = token_bytes(secret, sub, role, exp);
    let l = sub.len() as int;
    assert(t[0] == sub.len() as u8);
    assert(sub_len_of(t) == l);
    assert(t[1 + l] == role_byte(role));
    assert(role_of_byte(role_byte(role)) == role);
    assert(sub_of(t) =~= sub);
    assert(payload_of(t) =~= p);
    assert(sig_of(t) =~= hmac_of(secret, p));
    assert(t.subrange(2 + l, 10 + l) =~= exp_bytes(exp));
    lemma_exp_bytes_val(exp);
}

/// Expiry is the only invalidation mechanism: a token issued to expire
/// at `exp` is valid at time `now` exactly when `now < exp`, so it
/// verifies before its expiry and is rejected from the expiry on.
pub proof fn lemma_expiry_boundary(secret: Seq<u8>, sub: Seq<u8>, role: Role, exp: u64, now: u64)
    requires
        sub.len() <= 255,
    ensures
        token_valid(secret, token_bytes(secret, sub, role, exp), now) <==> now < exp,
{
    lemma_token_parse(secret, sub, role, exp);
}

/// Tokens issued for the same subject, role and ttl at two different
/// instants are distinct byte strings: their encoded expiries differ.
pub proof fn lemma_distinct_instants(
    secret: Seq<u8>,
    sub: Seq<u8>,
    role: Role,
    ttl: u64,
    now1: u64,
    now2: u64,
)
    requires
        sub.len() <= 255,
        now1 + ttl <= u64::MAX,
        now2 + ttl <= u64::MAX,
        now1 != now2,
    ensures
        token_bytes(secret, sub, role, (now1 + ttl) as u64) != token_bytes(
            secret,
            sub,
            role,
            (now2 + ttl) as u64,
        ),
{
    let e1 = (now1 + ttl) as u64;
    let e2 = (now2 + ttl) as u64;
    lemma_token_parse(secret, sub, role, e1);
    lemma_token_parse(secret, sub, role, e2);
    assert(e1 != e2);
}

} // verus!
