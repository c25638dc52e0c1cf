//! Typed extraction of request inputs: the JSON login body, the `name`
//! query parameter, and the integer user id taken from a path segment.
//!
//! The accepted login body is the flat two-field object
//! `{"email":"...","password":"..."}` with unescaped string values; the
//! contracts characterise exactly which byte strings are accepted and
//! what they decode to.

use vstd::prelude::*;

verus! {

// ---------------------------------------------------------------------
// shared byte-scanning helpers
// ---------------------------------------------------------------------
/// Compares `b[at .. at + pat.len()]` with `pat`.
fn match_at(b: &Vec<u8>, at: usize, pat: &Vec<u8>) -> (r: bool)
    requires
        at + pat@.len() <= b@.len(),
    ensures
        r <==> b@.subrange(at as int, at + pat@.len()) == pat@,
{
    let bn = b.len();
    let mut i: usize = 0;
    while i < pat.len()
        invariant
            bn == b@.len(),
            at + pat@.len() <= b@.len(),
            i <= pat@.len(),
            forall|k: int| 0 <= k < i ==> b@[at + k] == pat@[k],
        decreases pat@.len() - i,
    {
        if b[at + i] != pat[i] {
            assert(b@.subrange(at as int, at + pat@.len())[i as int] != pat@[i as int]);
            return false;
        }
        i += 1;
    }
    assert(b@.subrange(at as int, at + pat@.len()) =~= pat@);
    true
}

/// Finds the first quote or backslash at or after `from`.
fn find_special(b: &Vec<u8>, from: usize) -> (r: Option<usize>)
    requires
        from <= b@.len(),
    ensures
        r matches Some(j) ==> from <= j < b@.len() && (b@[j as int] == 34 || b@[j as int] == 92)
            && (forall|k: int| from <= k < j ==> b@[k] != 34 && b@[k] != 92),
        r is None ==> forall|k: int| from <= k < b@.len() ==> b@[k] != 34 && b@[k] != 92,
{
    let mut i: usize = from;
    while i < b.len()
        invariant
            from <= i <= b@.len(),
            forall|k: int| from <= k < i ==> b@[k] != 34 && b@[k] != 92,
        decreases b@.len() - i,
    {
        let c = b[i];
        if c == 34 || c == 92 {
            return Some(i);
        }
        i += 1;
    }
    None
}

/// Compares two byte vectors for equality.
pub(crate) fn bytes_eq(a: &Vec<u8>, b: &Vec<u8>) -> (r: bool)
    ensures
        r <==> a@ == b@,
{
    if a.len() != b.len() {
        return false;
    }
    if a.len() == 0 {
        assert(a@ =~= b@);
        return true;
    }
    let r = match_at(a, 0, b);
    proof {
        if a@.subrange(0, b@.len() as int) == b@ {
            assert(a@ =~= b@);
        } else {
            assert(a@.subrange(0, b@.len() as int) =~= a@);
        }
    }
    r
}

/// Copies a byte vector.
pub(crate) fn clone_bytes(b: &Vec<u8>) -> (v: Vec<u8>)
    ensures
        v@ == b@,
{
    let v = copy_range(b, 0, b.len());
    assert(v@ =~= b@);
    v
}

/// Copies `b[from .. to]` into a fresh vector.
pub(crate) fn copy_range(b: &Vec<u8>, from: usize, to: usize) -> (v: Vec<u8>)
    requires
        from <= to <= b@.len(),
    ensures
        v@ == b@.subrange(from as int, to as int),
{
    let mut v: Vec<u8> = Vec::new();
    let mut i: usize = from;
    while i < to
        invariant
            from <= i <= to <= b@.len(),
            v@ == b@.subrange(from as int, i as int),
        decreases to - i,
    {
        v.push(b[i]);
        assert(v@ =~= b@.subrange(from as int, i + 1));
        i += 1;
    }
    v
}

// ---------------------------------------------------------------------
// login body
// ---------------------------------------------------------------------
/// The bytes of `{"email":"`.
pub open spec fn login_prefix() -> Seq<u8> {
    seq![123u8, 34, 101, 109, 97, 105, 108, 34, 58, 34]
}

/// The bytes of `","password":"`.
pub open spec fn login_mid() -> Seq<u8> {
    seq![34u8, 44, 34, 112, 97, 115, 115, 119, 111, 114, 100, 34, 58, 34]
}

/// The bytes of `"}`.
pub open spec fn login_suffix() -> Seq<u8> {
    seq![34u8, 125]
}

/// An unescaped JSON string value: no quote, no backslash.
pub open spec fn plain_str(s: Seq<u8>) -> bool {
    forall|i: int| 0 <= i < s.len() ==> s[i] != 34 && s[i] != 92
}

/// The login body that encodes the given credentials.
pub open spec fn login_json(email: Seq<u8>, password: Seq<u8>) -> Seq<u8> {
    login_prefix() + email + login_mid() + password + login_suffix()
}

/// Credentials presented to the login handler.
pub struct Login {
    pub email: Vec<u8>,
    pub password: Vec<u8>,
}

/// Where every region of a well-formed login body sits.
proof fn lemma_login_json_shape(b: Seq<u8>, e: Seq<u8>, p: Seq<u8>)
    requires
        plain_str(e),
        plain_str(p),
        b == login_json(e, p),
    ensures
        b.len() == 26 + e.len() + p.len(),
        b.subrange(0, 10) == login_prefix(),
        b.subrange(10, 10 + e.len() as int) == e,
        forall|k: int| 10 <= k < 10 + e.len() ==> b[k] != 34 && b[k] != 92,
        b[10 + e.len() as int] == 34,
        b.subrange(10 + e.len() as int, 24 + e.len() as int) == login_mid(),
        b.subrange(24 + e.len() as int, 24 + e.len() + p.len() as int) == p,
        forall|k: int| 24 + e.len() <= k < 24 + e.len() + p.len() ==> b[k] != 34 && b[k] != 92,
        b[24 + e.len() + p.len() as int] == 34,
        b[25 + e.len() + p.len() as int] == 125,
{
    let el = e.len() as int;
    let pl = p.len() as int;
    assert(b.subrange(0, 10) =~= login_prefix());
    assert(b.subrange(10, 10 + el) =~= e);
    assert(b.subrange(10 + el, 24 + el) =~= login_mid());
    assert(b.subrange(24 + el, 24 + el + pl) =~= p);
    assert(b[10 + el] == login_mid()[0]);
    assert(b[24 + el + pl] == login_suffix()[0]);
    assert(b[25 + el + pl] == login_suffix()[1]);
    assert(forall|k: int| 10 <= k < 10 + el ==> b[k] == e[k - 10]);
    assert(forall|k: int|
        24 + el <= k < 24 + el + pl ==> b[k] == p[k - 24 - el]);
}

/// No well-formed login body matches `b`: the blanket rejection the
/// parser's `None` result promises.
pub open spec fn no_login(b: Seq<u8>) -> bool {
    forall|e: Seq<u8>, p: Seq<u8>| !(plain_str(e) && plain_str(p) && b == login_json(e, p))
}

/// Decodes a login body. Accepts exactly the byte strings
/// `login_json(e, p)` for unescaped `e` and `p`, and returns those
/// credentials; rejects everything else.
pub fn parse_login(b: &Vec<u8>) -> (r: Option<Login>)
    ensures
        r matches Some(l) ==> plain_str(l.email@) && plain_str(l.password@) && b@ == login_json(
            l.email@,
            l.password@,
        ),
        r is None ==> no_login(b@),
{
    let n = b.len();
    let pre: Vec<u8> = vec![123u8, 34, 101, 109, 97, 105, 108, 34, 58, 34];
    assert(pre@ =~= login_prefix());
    if n < 10 {
        proof {
            assert forall|e: Seq<u8>, p: Seq<u8>| !(plain_str(e) && plain_str(p) && b@
                == login_json(e, p)) by {
                if plain_str(e) && plain_str(p) && b@ == login_json(e, p) {
                    lemma_login_json_shape(b@, e, p);
                }
            }
        }
        return None;
    }
    if !match_at(b, 0, &pre) {
        proof {
            assert forall|e: Seq<u8>, p: Seq<u8>| !(plain_str(e) && plain_str(p) && b@
                == login_json(e, p)) by {
                if plain_str(e) && plain_str(p) && b@ == login_json(e, p) {
                    lemma_login_json_shape(b@, e, p);
                }
            }
        }
        return None;
    }
    let j1_opt = find_special(b, 10);
    let j1: usize;
    match j1_opt {
        None => {
            proof {
                assert forall|e: Seq<u8>, p: Seq<u8>| !(plain_str(e) && plain_str(p) && b@
                    == login_json(e, p)) by {
                    if plain_str(e) && plain_str(p) && b@ == login_json(e, p) {
                        lemma_login_json_shape(b@, e, p);
                        assert(b@[10 + e.len() as int] == 34);
                    }
                }
            }
            return None;
        },
        Some(j) => {
            j1 = j;
        },
    }
    if b[j1] != 34 {
        proof {
            assert forall|e: Seq<u8>, p: Seq<u8>| !(plain_str(e) && plain_str(p) && b@
                == login_json(e, p)) by {
                if plain_str(e) && plain_str(p) && b@ == login_json(e, p) {
                    lemma_login_json_shape(b@, e, p);
                    assert(j1 == 10 + e.len());
                }
            }
        }
        return None;
    }
    let mid: Vec<u8> = vec![34u8, 44, 34, 112, 97, 115, 115, 119, 111, 114, 100, 34, 58, 34];
    assert(mid@ =~= login_mid());
    if n - j1 < 14 {
        proof {
            assert forall|e: Seq<u8>, p: Seq<u8>| !(plain_str(e) && plain_str(p) && b@
                == login_json(e, p)) by {
                if plain_str(e) && plain_str(p) && b@ == login_json(e, p) {
                    lemma_login_json_shape(b@, e, p);
                    assert(j1 == 10 + e.len());
                }
            }
        }
        return None;
    }
    if !match_at(b, j1, &mid) {
        proof {
            assert forall|e: Seq<u8>, p: Seq<u8>| !(plain_str(e) && plain_str(p) && b@
                == login_json(e, p)) by {
                if plain_str(e) && plain_str(p) && b@ == login_json(e, p) {
                    lemma_login_json_shape(b@, e, p);
                    assert(j1 == 10 + e.len());
                }
            }
        }
        return None;
    }
    let j2_opt = find_special(b, j1 + 14);
    let j2: usize;
    match j2_opt {
        None => {
            proof {
                assert forall|e: Seq<u8>, p: Seq<u8>| !(plain_str(e) && plain_str(p) && b@
                    == login_json(e, p)) by {
                    if plain_str(e) && plain_str(p) && b@ == login_json(e, p) {
                        lemma_login_json_shape(b@, e, p);
                        assert(j1 == 10 + e.len());
                        assert(b@[24 + e.len() + p.len() as int] == 34);
                    }
                }
            }
            return None;
        },
        Some(j) => {
            j2 = j;
        },
    }
    if b[j2] != 34 {
        proof {
            assert forall|e: Seq<u8>, p: Seq<u8>| !(plain_str(e) && plain_str(p) && b@
                == login_json(e, p)) by {
                if plain_str(e) && plain_str(p) && b@ == login_json(e, p) {
                    lemma_login_json_shape(b@, e, p);
                    assert(j1 == 10 + e.len());
                    assert(j2 == 24 + e.len() + p.len());
                }
            }
        }
        return None;
    }
    if n - j2 != 2 {
        proof {
            assert forall|e: Seq<u8>, p: Seq<u8>| !(plain_str(e) && plain_str(p) && b@
                == login_json(e, p)) by {
                if plain_str(e) && plain_str(p) && b@ == login_json(e, p) {
                    lemma_login_json_shape(b@, e, p);
                    assert(j1 == 10 + e.len());
                    assert(j2 == 24 + e.len() + p.len());
                }
            }
        }
        return None;
    }
    if b[j2 + 1] != 125 {
        proof {
            assert forall|e: Seq<u8>, p: Seq<u8>| !(plain_str(e) && plain_str(p) && b@
                == login_json(e, p)) by {
                if plain_str(e) && plain_str(p) && b@ == login_json(e, p) {
                    lemma_login_json_shape(b@, e, p);
                    assert(j1 == 10 + e.len());
                    assert(j2 == 24 + e.len() + p.len());
                    assert(b@[25 + e.len() + p.len() as int] == 125);
                }
            }
        }
        return None;
    }
    let email = copy_range(b, 10, j1);
    let password = copy_range(b, j1 + 14, j2);
    proof {
        let el = j1 - 10;
        let bb = b@;
        assert(bb.len() == login_json(email@, password@).len());
        assert forall|i: int| 0 <= i < bb.len() implies bb[i] == login_json(email@, password@)[i] by {
            if i < 10 {
                assert(bb.subrange(0, 10)[i] == bb[i]);
            } else if i < j1 {
                assert(email@[i - 10] == bb[i]);
            } else if i < j1 + 14 {
                assert(bb.subrange(j1 as int, j1 + 14)[i - j1] == bb[i]);
            } else if i < j2 {
                assert(password@[i - (j1 + 14)] == bb[i]);
            }
        }
        assert(b@ =~= login_json(email@, password@));
    }
    Some(Login { email, password })
}

// ---------------------------------------------------------------------
// name query parameter
// ---------------------------------------------------------------------
/// The bytes of `name=`.
pub open spec fn name_key() -> Seq<u8> {
    seq![110u8, 97, 109, 101, 61]
}

/// The typed `name` query parameter.
pub struct Name {
    pub name: Vec<u8>,
}

/// Extracts the `name` query parameter: the query must be exactly
/// `name=` followed by the value.
pub fn parse_name(q: &Vec<u8>) -> (r: Option<Name>)
    ensures
        r matches Some(nm) ==> q@ == name_key() + nm.name@,
        r is None ==> forall|v: Seq<u8>| q@ != name_key() + v,
{
    let key: Vec<u8> = vec![110u8, 97, 109, 101, 61];
    assert(key@ =~= name_key());
    let n = q.len();
    if n < 5 {
        proof {
            assert forall|v: Seq<u8>| q@ != name_key() + v by {
                assert((name_key() + v).len() >= 5);
            }
        }
        return None;
    }
    if !match_at(q, 0, &key) {
        proof {
            assert forall|v: Seq<u8>| q@ != name_key() + v by {
                if q@ == name_key() + v {
                    assert(q@.subrange(0, 5) =~= name_key());
                }
            }
        }
        return None;
    }
    let value = copy_range(q, 5, n);
    proof {
        assert(q@ =~= name_key() + value@);
    }
    Some(Name { name: value })
}

// ---------------------------------------------------------------------
// integer user id from a path segment
// ---------------------------------------------------------------------
/// The typed user id taken from the request path.
pub struct UserID {
    pub id: i32,
}

pub open spec fn is_digit(b: u8) -> bool {
    48 <= b <= 57
}

pub open spec fn all_digits(s: Seq<u8>) -> bool {
    forall|i: int| 0 <= i < s.len() ==> is_digit(s[i])
}

/// The value of a digit string, most significant digit first.
pub open spec fn dec_val(s: Seq<u8>) -> int
    decreases s.len(),
{
    if s.len() == 0 {
        0
    } else {
        dec_val(s.drop_last()) * 10 + (s.last() - 48)
    }
}

/// A decimal integer literal: optional leading minus, then one or more
/// digits.
pub open spec fn wf_int(s: Seq<u8>) -> bool {
    if s.len() >= 1 && s[0] == 45 {
        s.len() >= 2 && all_digits(s.skip(1))
    } else {
        s.len() >= 1 && all_digits(s)
    }
}

/// The signed value a well-formed literal denotes.
pub open spec fn int_of(s: Seq<u8>) -> int
    recommends
        wf_int(s),
{
    if s.len() >= 1 && s[0] == 45 {
        -dec_val(s.skip(1))
    } else {
        dec_val(s)
    }
}

proof fn lemma_dec_val_bounds(s: Seq<u8>, j: int)
    requires
        all_digits(s),
        0 <= j <= s.len(),
    ensures
        dec_val(s) >= dec_val(s.take(j)) >= 0,
    decreases s.len(),
{
    if s.len() == 0 {
        assert(s.take(j) =~= s);
    } else if j == s.len() {
        assert(s.take(j) =~= s);
        lemma_dec_val_bounds(s.drop_last(), s.len() - 1);
    } else {
        let d = s.drop_last();
        assert(all_digits(d));
        lemma_dec_val_bounds(d, j);
        assert(d.take(j) =~= s.take(j));
        assert(is_digit(s.last()));
    }
}

/// Decodes an integer path segment into a user id. Accepts exactly the
/// well-formed decimal literals whose value fits in an `i32`.
#[verifier::loop_isolation(false)]
pub fn parse_user_id(seg: &Vec<u8>) -> (r: Option<UserID>)
    ensures
        r matches Some(u) ==> wf_int(seg@) && u.id == int_of(seg@),
        r is None ==> !wf_int(seg@) || int_of(seg@) < i32::MIN || int_of(seg@) > i32::MAX,
{
    let n = seg.len();
    let neg: bool;
    let start: usize;
    if n >= 1 && seg[0] == 45 {
        neg = true;
        start = 1;
    } else {
        neg = false;
        start = 0;
    }
    if n == start {
        return None;
    }
    let ghost region = if neg {
        seg@.skip(1)
    } else {
        seg@
    };
    assert(region =~= seg@.subrange(start as int, n as int));
    let mut acc: u64 = 0;
    let mut i: usize = start;
    while i < n
        invariant
            start <= i <= n,
            n == seg@.len(),
            region == seg@.subrange(start as int, n as int),
            acc == dec_val(seg@.subrange(start as int, i as int)),
            acc <= 0xFFFF_FFFF * 10 + 9,
            forall|k: int| start <= k < i ==> is_digit(seg@[k]),
        decreases n - i,
    {
        let d = seg[i];
        if d < 48 || d > 57 {
            assert(!all_digits(region)) by {
                assert(region[i - start] == seg@[i as int]);
            }
            return None;
        }
        if acc > 0xFFFF_FFFF {
            proof {
                if all_digits(region) {
                    lemma_dec_val_bounds(region, i - start);
                    assert(region.take(i - start) =~= seg@.subrange(start as int, i as int));
                    assert(dec_val(region) >= acc > 0xFFFF_FFFFu64);
                }
            }
            return None;
        }
        acc = acc * 10 + ((d - 48) as u64);
        proof {
            let pre = seg@.subrange(start as int, i as int);
            let cur = seg@.subrange(start as int, i + 1);
            assert(cur.drop_last() =~= pre);
            assert(cur.last() == seg@[i as int]);
        }
        i += 1;
    }
    assert(seg@.subrange(start as int, n as int) == region);
    assert(acc == dec_val(region));
    assert(all_digits(region));
    assert(wf_int(seg@));
    if neg {
        assert(int_of(seg@) == -dec_val(region));
        if acc > 2147483648 {
            return None;
        }
        if acc == 2147483648 {
            return Some(UserID { id: i32::MIN });
        }
        let v: i32 = acc as i32;
        Some(UserID { id: -v })
    } else {
        assert(int_of(seg@) == dec_val(region)) by {
            assert(region =~= seg@);
        }
        if acc > 2147483647 {
            return None;
        }
        Some(UserID { id: acc as i32 })
    }
}

} // verus!
