//! The token service: issues and verifies signed, time-boxed identity claims.
//!
//! A token is `header.payload.signature`: the fixed header and the canonical
//! claims text (see `claims_text`), each base64url-encoded without padding,
//! and the HMAC-SHA-256 tag of `header.payload` under a process-wide secret.
//! `spec_token` is that text. Issuing writes it; verification accepts exactly
//! it — any other string fails with `InvalidToken`. Verification deliberately
//! does not check expiry: signature validity and temporal validity are
//! distinct failures, and the expiry comparison belongs to the extraction
//! layer (see `auth`).
//!
//! The secret is configuration-sourced and handed in by the caller; this
//! library never reads the environment itself.

use vstd::prelude::*;
use crate::claims_text::{build_claims_json, json_of, parse_claims_json, spec_parse_claims,
    lemma_parse_of_json, lemma_parse_claims_sound};
use crate::errors::AuthError;
use crate::text::{chars_to_string, str_eq, str_to_chars};

verus! {

/// The signed payload carried by a token: subject id, display name, role
/// (or client-type) label, and the two timestamps, unix seconds.
/// Invariant of issuance: `exp` lies 15 minutes after `iat`.
#[derive(Debug)]
pub struct Claims {
    pub user_id: u32,
    pub username: String,
    pub flag: String,
    pub exp: i64,
    pub iat: i64,
}

impl Clone for Claims {
    /// Cloning keeps every field.
    fn clone(&self) -> (r: Self)
        ensures
            r == self,
    {
        Claims {
            user_id: self.user_id,
            username: self.username.clone(),
            flag: self.flag.clone(),
            exp: self.exp,
            iat: self.iat,
        }
    }
}

/// The claims as mathematical values.
pub struct ClaimsView {
    pub user_id: u32,
    pub username: Seq<char>,
    pub flag: Seq<char>,
    pub exp: i64,
    pub iat: i64,
}

impl View for Claims {
    type V = ClaimsView;

    open spec fn view(&self) -> ClaimsView {
        ClaimsView {
            user_id: self.user_id,
            username: self.username@,
            flag: self.flag@,
            exp: self.exp,
            iat: self.iat,
        }
    }
}

/// How long a token lives, in seconds: a fixed 15-minute window.
pub open spec fn spec_token_lifetime() -> int {
    900
}

/// The number of seconds an issued token stays valid.
pub fn token_lifetime_secs() -> (r: u64)
    ensures
        r == spec_token_lifetime(),
{
    900
}

impl Claims {
    /// Claims for `user_id` under the given name and role label, issued at
    /// `now`: `iat` is `now` and `exp` lies one lifetime later (saturating
    /// at the end of representable time).
    pub fn with_times(user_id: u32, username: String, flag: String, now: i64) -> (r: Self)
        ensures
            r.user_id == user_id,
            r.username == username,
            r.flag == flag,
            r.iat == now,
            r.exp == (if now <= i64::MAX - spec_token_lifetime() {
                now + spec_token_lifetime()
            } else {
                i64::MAX as int
            }),
    {
        let exp = if now <= i64::MAX - 900 {
            now + 900
        } else {
            i64::MAX
        };
        Claims { user_id, username, flag, exp, iat: now }
    }

    /// Claims issued at the current wall-clock time.
    pub fn new(user_id: u32, username: String, flag: String) -> (r: Self)
        ensures
            r.user_id == user_id,
            r.username == username,
            r.flag == flag,
            r.exp == (if r.iat <= i64::MAX - spec_token_lifetime() {
                r.iat + spec_token_lifetime()
            } else {
                i64::MAX as int
            }),
    {
        let now = current_timestamp();
        Self::with_times(user_id, username, flag, now)
    }
}

/// The current wall-clock time as unix seconds.
///
/// Relies on `chrono::Utc::now`: nothing is promised of the value.
#[verifier::external_body]
pub fn current_timestamp() -> i64 {
    chrono::Utc::now().timestamp()
}

// ---------------------------------------------------------------------------
// The two cryptographic collaborators, named
// ---------------------------------------------------------------------------

/// A character of the URL-safe base64 alphabet (which holds no `'.'`).
pub open spec fn is_b64url_char(c: char) -> bool {
    ||| 65 <= c as u32 <= 90
    ||| 97 <= c as u32 <= 122
    ||| 48 <= c as u32 <= 57
    ||| c == '-'
    ||| c == '_'
}

/// `s` restricted to the URL-safe base64 alphabet, position by position.
/// Applied to what the encoders below return it changes nothing; it makes
/// their alphabet a provable fact.
pub open spec fn b64url_norm(s: Seq<char>) -> Seq<char> {
    s.map(|_i: int, c: char| if is_b64url_char(c) {
        c
    } else {
        'A'
    })
}

/// What base64url-encoding (no padding) of the UTF-8 bytes of a text
/// returns: a function of the text alone.
pub uninterp spec fn b64url_raw(p: Seq<char>) -> Seq<char>;

/// The base64url text of `p`.
pub open spec fn b64url_of_str(p: Seq<char>) -> Seq<char> {
    b64url_norm(b64url_raw(p))
}

/// What the HMAC-SHA-256 tag of `msg` under `secret`, base64url-encoded,
/// is: a function of the two texts alone.
pub uninterp spec fn hs256_raw(msg: Seq<char>, secret: Seq<char>) -> Seq<char>;

/// The base64url text of the HMAC-SHA-256 tag of `msg` under `secret`.
pub open spec fn hs256_tag_of(msg: Seq<char>, secret: Seq<char>) -> Seq<char> {
    b64url_norm(hs256_raw(msg, secret))
}

/// Relies on base64's `URL_SAFE_NO_PAD` engine: the encoding of the UTF-8
/// bytes of `s`, a text over the URL-safe alphabet, a function of `s` alone.
#[verifier::external_body]
fn b64url_encode_str(s: &str) -> (r: String)
    ensures
        r@ == b64url_norm(b64url_raw(s@)),
{
    base64::Engine::encode(&base64::engine::general_purpose::URL_SAFE_NO_PAD, s.as_bytes())
}

/// Relies on base64's `URL_SAFE_NO_PAD` decode being exactly inverse to its
/// encode — it refuses padding and non-zero trailing bits, so it accepts
/// exactly the canonical encodings — and on `String::from_utf8`, which
/// inverts UTF-8 encoding on the texts this library passes through.
#[verifier::external_body]
fn b64url_decode_str(s: &str) -> (r: Option<String>)
    ensures
        r matches Some(v) ==> s@ == b64url_norm(b64url_raw(v@)),
        r is None ==> forall|p: Seq<char>| s@ != #[trigger] b64url_norm(b64url_raw(p)),
        r matches Some(v) ==> forall|p: Seq<char>|
            s@ == #[trigger] b64url_norm(b64url_raw(p)) ==> v@ == p,
{
    match base64::Engine::decode(&base64::engine::general_purpose::URL_SAFE_NO_PAD, s.as_bytes()) {
        Ok(b) => String::from_utf8(b).ok(),
        Err(_) => None,
    }
}

/// Relies on `jsonwebtoken::crypto::sign` with HS256: the HMAC-SHA-256 tag
/// of the message under the secret, base64url-encoded. A function of the two
/// arguments alone; for an HMAC key (any byte string) the signing path
/// cannot fail.
#[verifier::external_body]
fn hs256_sign_b64(msg: &str, secret: &str) -> (r: String)
    ensures
        r@ == b64url_norm(hs256_raw(msg@, secret@)),
{
    jsonwebtoken::crypto::sign(
        msg.as_bytes(),
        &jsonwebtoken::EncodingKey::from_secret(secret.as_bytes()),
        jsonwebtoken::Algorithm::HS256,
    ).expect("HMAC signing does not fail")
}

// ---------------------------------------------------------------------------
// The token text
// ---------------------------------------------------------------------------

/// The fixed token header.
pub open spec fn lit_token_header() -> Seq<char> {
    "{\"typ\":\"JWT\",\"alg\":\"HS256\"}"@
}

/// The canonical claims text of `c`.
pub open spec fn spec_claims_json(c: ClaimsView) -> Seq<char> {
    json_of(c.user_id, c.username, c.flag, c.exp, c.iat)
}

/// The signed part of a token for `c`: encoded header, dot, encoded payload.
pub open spec fn spec_message(c: ClaimsView) -> Seq<char> {
    b64url_of_str(lit_token_header()) + seq!['.'] + b64url_of_str(spec_claims_json(c))
}

/// The token text for `c` under `secret`.
pub open spec fn spec_token(c: ClaimsView, secret: Seq<char>) -> Seq<char> {
    spec_message(c) + seq!['.'] + hs256_tag_of(spec_message(c), secret)
}

/// Nothing the alphabet restriction returns holds a dot.
proof fn lemma_norm_dot_free(s: Seq<char>)
    ensures
        dot_free(b64url_norm(s)),
        b64url_norm(s).len() == s.len(),
{
    assert forall|k: int| 0 <= k < b64url_norm(s).len() implies b64url_norm(s)[k] != '.' by {
        assert(b64url_norm(s)[k] == (if is_b64url_char(s[k]) {
            s[k]
        } else {
            'A'
        }));
    }
}

/// No position of `s` holds a dot.
pub open spec fn dot_free(s: Seq<char>) -> bool {
    forall|k: int| 0 <= k < s.len() ==> s[k] != '.'
}

/// A text of the shape `a.b.c` with dot-free `a` and `b` determines where
/// its first two dots lie.
proof fn lemma_split_unique(s: Seq<char>, a: Seq<char>, b: Seq<char>, c: Seq<char>, d1: int, d2: int)
    requires
        s == a + seq!['.'] + b + seq!['.'] + c,
        dot_free(a),
        dot_free(b),
        0 <= d1 < d2 < s.len(),
        s[d1] == '.',
        s[d2] == '.',
        dot_free(s.subrange(0, d1)),
        dot_free(s.subrange(d1 + 1, d2)),
    ensures
        d1 == a.len(),
        d2 == a.len() + 1 + b.len(),
{
    let la = a.len() as int;
    let e2 = a.len() + 1 + b.len() as int;
    assert(s[la] == '.');
    assert(s[e2] == '.');
    if d1 < la {
        assert(s[d1] == a[d1]);
        assert(false);
    }
    if d1 > la {
        assert(s.subrange(0, d1)[la] == s[la]);
        assert(false);
    }
    if d2 < e2 {
        assert(s[d2] == b[d2 - la - 1]);
        assert(false);
    }
    if d2 > e2 {
        assert(s.subrange(d1 + 1, d2)[e2 - d1 - 1] == s[e2]);
        assert(false);
    }
}

/// The positions of the first two dots of `v`: everything before the first
/// and between the two is dot-free. `None` when `v` has fewer than two dots.
fn split_dots(v: &Vec<char>) -> (r: Option<(usize, usize)>)
    ensures
        match r {
            Some((d1, d2)) => {
                &&& d1 < d2 < v@.len()
                &&& v@[d1 as int] == '.'
                &&& v@[d2 as int] == '.'
                &&& dot_free(v@.subrange(0, d1 as int))
                &&& dot_free(v@.subrange(d1 + 1, d2 as int))
            },
            None => !(exists|k1: int, k2: int|
                0 <= k1 < k2 < v@.len() && v@[k1] == '.' && v@[k2] == '.'),
        },
{
    let n = v.len();
    let mut d1: usize = 0;
    while d1 < n && v[d1] != '.'
        invariant
            n == v@.len(),
            d1 <= n,
            forall|k: int| 0 <= k < d1 ==> v@[k] != '.',
        decreases n - d1,
    {
        d1 += 1;
    }
    if d1 >= n {
        proof {
            assert forall|k1: int, k2: int|
                0 <= k1 < k2 < v@.len() implies !(v@[k1] == '.' && v@[k2] == '.') by {
                assert(v@[k1] != '.');
            }
        }
        return None;
    }
    let mut d2: usize = d1 + 1;
    while d2 < n && v[d2] != '.'
        invariant
            n == v@.len(),
            d1 < d2 <= n,
            v@[d1 as int] == '.',
            forall|k: int| 0 <= k < d1 ==> v@[k] != '.',
            forall|k: int| d1 < k < d2 ==> v@[k] != '.',
        decreases n - d2,
    {
        d2 += 1;
    }
    if d2 >= n {
        proof {
            assert forall|k1: int, k2: int|
                0 <= k1 < k2 < v@.len() implies !(v@[k1] == '.' && v@[k2] == '.') by {
                if v@[k1] == '.' && v@[k2] == '.' {
                    assert(k1 == d1 as int);
                }
            }
        }
        return None;
    }
    proof {
        assert forall|k: int| 0 <= k < d1 implies v@.subrange(0, d1 as int)[k] != '.' by {
            assert(v@.subrange(0, d1 as int)[k] == v@[k]);
        }
        assert forall|k: int| 0 <= k < d2 - d1 - 1 implies #[trigger] v@.subrange(
            d1 + 1,
            d2 as int,
        )[k] != '.' by {
            assert(v@.subrange(d1 + 1, d2 as int)[k] == v@[d1 + 1 + k]);
        }
    }
    Some((d1, d2))
}

/// A copy of `v[a..b]`.
fn vec_range(v: &Vec<char>, a: usize, b: usize) -> (r: Vec<char>)
    requires
        a <= b <= v@.len(),
    ensures
        r@ == v@.subrange(a as int, b as int),
{
    let mut r: Vec<char> = Vec::new();
    let mut k = a;
    proof {
        assert(r@ =~= v@.subrange(a as int, a as int));
    }
    while k < b
        invariant
            a <= k <= b <= v@.len(),
            r@ == v@.subrange(a as int, k as int),
        decreases b - k,
    {
        r.push(v[k]);
        proof {
            assert(r@ =~= v@.subrange(a as int, k + 1 as int));
        }
        k += 1;
    }
    r
}

// ---------------------------------------------------------------------------
// Issuing and verifying
// ---------------------------------------------------------------------------

/// Writes the signed token for `claims` under `secret`.
pub fn generate_token(claims: &Claims, secret: &str) -> (r: String)
    ensures
        r@ == spec_token(claims@, secret@),
{
    let payload = build_claims_json(
        claims.user_id,
        claims.username.as_str(),
        claims.flag.as_str(),
        claims.exp,
        claims.iat,
    );
    let header_b64 = b64url_encode_str("{\"typ\":\"JWT\",\"alg\":\"HS256\"}");
    let payload_b64 = b64url_encode_str(payload.as_str());
    let mut msg = header_b64;
    msg.append(".");
    msg.append(payload_b64.as_str());
    proof {
        reveal_strlit(".");
        assert("."@ =~= seq!['.']);
        assert(msg@ =~= spec_message(claims@));
    }
    let tag = hs256_sign_b64(msg.as_str(), secret);
    let mut tok = msg;
    tok.append(".");
    tok.append(tag.as_str());
    proof {
        assert(tok@ =~= spec_token(claims@, secret@));
    }
    tok
}

/// A token whose signature part was changed in any one position — the rest
/// left as issued — is no issued token at all, for any claims: with
/// `verify_token`'s contract, it can only fail with `InvalidToken`.
pub proof fn lemma_tampered_signature_rejected(c: ClaimsView, secret: Seq<char>, t2: Seq<char>)
    requires
        t2.len() == spec_token(c, secret).len(),
        forall|k: int| 0 <= k < spec_message(c).len() + 1 ==> t2[k] == spec_token(c, secret)[k],
        exists|k: int|
            spec_message(c).len() + 1 <= k < t2.len() && t2[k] != spec_token(c, secret)[k],
    ensures
        forall|c2: ClaimsView| t2 != spec_token(c2, secret),
{
    let t = spec_token(c, secret);
    let a = b64url_of_str(lit_token_header());
    let b = b64url_of_str(spec_claims_json(c));
    let la = a.len() as int;
    let lb = b.len() as int;
    let lm = spec_message(c).len() as int;
    lemma_norm_dot_free(b64url_raw(spec_claims_json(c)));
    assert forall|c2: ClaimsView| t2 != spec_token(c2, secret) by {
        if t2 == spec_token(c2, secret) {
            let b2 = b64url_of_str(spec_claims_json(c2));
            let lb2 = b2.len() as int;
            let lm2 = spec_message(c2).len() as int;
            lemma_norm_dot_free(b64url_raw(spec_claims_json(c2)));
            assert(lm == la + 1 + lb);
            assert(lm2 == la + 1 + lb2);
            if lb2 < lb {
                let p = la + 1 + lb2;
                assert(t2[p] == '.');
                assert(t[p] == b[p - la - 1]);
                assert(false);
            } else if lb2 > lb {
                let q = lm;
                assert(t[q] == '.');
                assert(t2[q] == b2[q - la - 1]);
                assert(false);
            } else {
                assert(spec_message(c2) =~= spec_message(c)) by {
                    assert forall|k: int| 0 <= k < lm implies spec_message(c2)[k] == spec_message(
                        c,
                    )[k] by {
                        assert(spec_token(c2, secret)[k] == spec_message(c2)[k]);
                        assert(t[k] == spec_message(c)[k]);
                    }
                }
                assert(hs256_tag_of(spec_message(c2), secret) == hs256_tag_of(
                    spec_message(c),
                    secret,
                ));
                assert(t2 =~= t);
                let kd = choose|kd: int|
                    spec_message(c).len() + 1 <= kd < t2.len() && t2[kd] != spec_token(
                        c,
                        secret,
                    )[kd];
                assert(t2[kd] != t[kd]);
                assert(false);
            }
        }
    }
}

/// Checks a token's signature and format and reads its claims back.
/// Exactly the tokens this service issues are accepted: `Ok(c)` precisely on
/// `spec_token(c, secret)`, and anything else — a malformed text, a foreign
/// or tampered signature — fails with `InvalidToken`. Expiry is deliberately
/// not checked here.
pub fn verify_token(token: &str, secret: &str) -> (r: Result<Claims, AuthError>)
    ensures
        r matches Ok(c) ==> token@ == spec_token(c@, secret@),
        forall|c: ClaimsView|
            token@ == #[trigger] spec_token(c, secret@) ==> (r matches Ok(rc) && rc@ == c),
        r matches Err(e) ==> e == AuthError::InvalidToken,
{
    let v = str_to_chars(token);
    proof {
        reveal_strlit(".");
        assert("."@ =~= seq!['.']);
        assert forall|c: ClaimsView| token@ == #[trigger] spec_token(c, secret@) implies {
            &&& dot_free(b64url_of_str(lit_token_header()))
            &&& dot_free(b64url_of_str(spec_claims_json(c)))
            &&& dot_free(hs256_tag_of(spec_message(c), secret@))
        } by {
            lemma_norm_dot_free(b64url_raw(lit_token_header()));
            lemma_norm_dot_free(b64url_raw(spec_claims_json(c)));
            lemma_norm_dot_free(hs256_raw(spec_message(c), secret@));
        }
    }
    let (d1, d2) = match split_dots(&v) {
        Some(p) => p,
        None => {
            proof {
                assert forall|c: ClaimsView|
                    token@ == #[trigger] spec_token(c, secret@) implies false by {
                    let a = b64url_of_str(lit_token_header());
                    let b = b64url_of_str(spec_claims_json(c));
                    assert(v@[a.len() as int] == '.');
                    assert(v@[a.len() + 1 + b.len() as int] == '.');
                }
            }
            return Err(AuthError::InvalidToken);
        },
    };
    proof {
        assert forall|c: ClaimsView|
            token@ == #[trigger] spec_token(c, secret@) implies d1 == b64url_of_str(
            lit_token_header(),
        ).len() && d2 == d1 + 1 + b64url_of_str(spec_claims_json(c)).len() by {
            lemma_split_unique(
                v@,
                b64url_of_str(lit_token_header()),
                b64url_of_str(spec_claims_json(c)),
                hs256_tag_of(spec_message(c), secret@),
                d1 as int,
                d2 as int,
            );
        }
    }
    let n = v.len();
    proof {
        assert(d2 < n);
    }
    let hdr = chars_to_string(&vec_range(&v, 0, d1));
    let pay = chars_to_string(&vec_range(&v, d1 + 1, d2));
    let sig = chars_to_string(&vec_range(&v, d2 + 1, n));
    let msg = chars_to_string(&vec_range(&v, 0, d2));
    proof {
        assert(msg@ =~= hdr@ + seq!['.'] + pay@);
        assert(v@ =~= msg@ + seq!['.'] + sig@);
        assert forall|c: ClaimsView|
            token@ == #[trigger] spec_token(c, secret@) implies hdr@ == b64url_of_str(
            lit_token_header(),
        ) && pay@ == b64url_of_str(spec_claims_json(c)) && sig@ == hs256_tag_of(
            spec_message(c),
            secret@,
        ) && msg@ == spec_message(c) by {
            let a = b64url_of_str(lit_token_header());
            let b = b64url_of_str(spec_claims_json(c));
            let t = hs256_tag_of(spec_message(c), secret@);
            assert(hdr@ =~= a);
            assert(pay@ =~= b);
            assert(sig@ =~= t);
            assert(msg@ =~= spec_message(c));
        }
    }
    let expected_header = b64url_encode_str("{\"typ\":\"JWT\",\"alg\":\"HS256\"}");
    if !str_eq(hdr.as_str(), expected_header.as_str()) {
        return Err(AuthError::InvalidToken);
    }
    let tag = hs256_sign_b64(msg.as_str(), secret);
    if !str_eq(sig.as_str(), tag.as_str()) {
        return Err(AuthError::InvalidToken);
    }
    let ptext = match b64url_decode_str(pay.as_str()) {
        Some(t) => t,
        None => {
            return Err(AuthError::InvalidToken);
        },
    };
    let parsed = match parse_claims_json(ptext.as_str()) {
        Some(p) => p,
        None => {
            proof {
                assert forall|c: ClaimsView|
                    token@ == #[trigger] spec_token(c, secret@) implies false by {
                    assert(ptext@ == spec_claims_json(c));
                    lemma_parse_of_json(c.user_id, c.username, c.flag, c.exp, c.iat);
                }
            }
            return Err(AuthError::InvalidToken);
        },
    };
    let (user_id, username, flag, exp, iat) = parsed;
    let rc = Claims { user_id, username, flag, exp, iat };
    proof {
        // What parsed is the canonical text of `rc`, so the token is
        // exactly the one issued for `rc`.
        lemma_parse_claims_sound(ptext@);
        assert(spec_parse_claims(ptext@) is Some);
        assert(ptext@ == spec_claims_json(rc@));
        assert(token@ =~= spec_token(rc@, secret@));
        assert forall|c: ClaimsView|
            token@ == #[trigger] spec_token(c, secret@) implies rc@ == c by {
            assert(ptext@ == spec_claims_json(c));
            lemma_parse_of_json(c.user_id, c.username, c.flag, c.exp, c.iat);
        }
    }
    Ok(rc)
}

} // verus!
