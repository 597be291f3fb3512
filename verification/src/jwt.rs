use vstd::prelude::*;
use vstd::string::{StrSliceExecFns, StringSliceAdditionalSpecFns};
use vstd::utf8::encode_utf8;

use crate::base64url::{
    b64_encode, b64_decode, is_b64_char, base64url_encode, base64url_decode,
    lemma_b64_encode_alphabet, lemma_b64_round_trip,
};
use crate::claims::{
    Claims, ClaimsView, claims_json, parse_claims_json, build_claims_json, parse_claims,
    lemma_claims_parse_round_trip,
};
use crate::jsontext::{dec_digits, push_bytes, push_dec};
use crate::model::{Role, User, str_eq};
use crate::util::is_ascii_alphanumeric_char;

verus! {

// The token issuer: it signs a fixed-window access token over the canonical
// claims frame and verifies presented tokens statelessly. The token is the
// standard three-part form: base64url of the protected header, a dot,
// base64url of the claims, a dot, and the base64url Ed25519 signature of
// everything before the second dot. Framing and every check but the
// signature itself are verified code; the signature primitive is trusted.

/// How long an access token stays valid, in seconds after its issue time.
pub const ACCESS_TOKEN_TTL_SECS: u64 = 3600;

/// The single verification failure: a forged, malformed, premature or
/// expired token all present this same value, so a caller cannot tell them
/// apart.
#[derive(Clone, Copy, PartialEq, Eq, Structural, Debug)]
pub struct VerifyError;

/// Signing failed: the configured private key is unusable.
#[derive(Clone, Copy, PartialEq, Eq, Structural, Debug)]
pub struct SignError;

/// What `jsonwebtoken::crypto::sign` returns with `Algorithm::EdDSA` for a
/// given PKCS#8 private-key PEM and message: Ed25519 signing is
/// deterministic, so the signature is a function of the two, and whether the
/// PEM is usable is a function of the PEM alone.
pub uninterp spec fn eddsa_sig(priv_pem: Seq<u8>, msg: Seq<u8>) -> Option<Seq<u8>>;

/// Relies on jsonwebtoken::crypto::sign with Algorithm::EdDSA (Ed25519 via
/// ring): deterministic RFC 8032 signing of the message with the PKCS#8 key
/// read from the PEM, returned in base64url without padding; it fails
/// exactly when the PEM cannot be read as an Ed25519 private key.
#[verifier::external_body]
fn sign_eddsa(msg: &Vec<u8>, priv_pem: &Vec<u8>) -> (r: Option<Vec<u8>>)
    ensures
        r is Some <==> eddsa_sig(priv_pem@, msg@) is Some,
        r matches Some(v) ==> Some(v@) == eddsa_sig(priv_pem@, msg@),
        r matches Some(v) ==> forall|i: int| 0 <= i < v@.len() ==> is_b64_char(#[trigger] v@[i]),
{
    let key = match jsonwebtoken::EncodingKey::from_ed_pem(priv_pem) {
        Ok(k) => k,
        Err(_) => {
            return None;
        },
    };
    match jsonwebtoken::crypto::sign(msg, &key, jsonwebtoken::Algorithm::EdDSA) {
        Ok(sig) => Some(sig.into_bytes()),
        Err(_) => None,
    }
}

/// Relies on String::from_utf8: ASCII bytes are valid UTF-8 and decode to
/// the characters with the same values.
#[verifier::external_body]
fn ascii_to_string(bytes: Vec<u8>) -> (r: String)
    requires
        forall|i: int| 0 <= i < bytes@.len() ==> bytes@[i] < 128,
    ensures
        r@.len() == bytes@.len(),
        forall|i: int| 0 <= i < bytes@.len() ==> r@[i] == #[trigger] bytes@[i] as char,
{
    String::from_utf8(bytes).unwrap()
}

/// Relies on rand::Rng::sample_iter over the Alphanumeric distribution on
/// thread_rng: the result has exactly `length` characters, each one of
/// A-Z, a-z or 0-9; nothing more is assumed of a random value.
#[verifier::external_body]
pub fn generate_refresh_token(length: usize) -> (r: String)
    ensures
        r@.len() == length,
        forall|i: int| 0 <= i < r@.len() ==> is_ascii_alphanumeric_char(#[trigger] r@[i]),
{
    rand::Rng::sample_iter(rand::thread_rng(), &rand::distributions::Alphanumeric).take(
        length,
    ).map(char::from).collect()
}

/// The protected header `{"alg":"EdDSA","typ":"JWT"}` as UTF-8 bytes.
pub open spec fn header_json() -> Seq<u8> {
    seq![
        123u8,
        34u8,
        97u8,
        108u8,
        103u8,
        34u8,
        58u8,
        34u8,
        69u8,
        100u8,
        68u8,
        83u8,
        65u8,
        34u8,
        44u8,
        34u8,
        116u8,
        121u8,
        112u8,
        34u8,
        58u8,
        34u8,
        74u8,
        87u8,
        84u8,
        34u8,
        125u8,
    ]
}

/// The signed part of a token for a claims frame.
pub open spec fn signing_input(json: Seq<u8>) -> Seq<u8> {
    b64_encode(header_json()) + seq![46u8] + b64_encode(json)
}

/// The full token bytes for a claims frame under a private key.
pub open spec fn token_bytes(priv_pem: Seq<u8>, json: Seq<u8>) -> Seq<u8>
    recommends
        eddsa_sig(priv_pem, signing_input(json)) is Some,
{
    signing_input(json) + seq![46u8] + eddsa_sig(priv_pem, signing_input(json))->Some_0
}

/// The position of the first dot at or after `i`.
pub open spec fn first_dot_from(s: Seq<u8>, i: int) -> Option<int>
    decreases s.len() - i,
{
    if i < 0 || i >= s.len() {
        None
    } else if s[i] == 46 {
        Some(i)
    } else {
        first_dot_from(s, i + 1)
    }
}

pub proof fn lemma_first_dot_at(s: Seq<u8>, from: int, d: int)
    requires
        0 <= from <= d < s.len(),
        s[d] == 46,
        forall|j: int| from <= j < d ==> s[j] != 46,
    ensures
        first_dot_from(s, from) == Some(d),
    decreases d - from,
{
    if from < d {
        lemma_first_dot_at(s, from + 1, d);
    }
}

/// The claims a presented token carries, provided its shape, header,
/// signature, payload encoding and claims frame all check out.
pub open spec fn token_claims(priv_pem: Seq<u8>, t: Seq<u8>) -> Option<ClaimsView> {
    match first_dot_from(t, 0) {
        None => None,
        Some(d1) => match first_dot_from(t, d1 + 1) {
            None => None,
            Some(d2) => {
                let h = t.take(d1);
                let p = t.subrange(d1 + 1, d2);
                let sig = t.skip(d2 + 1);
                if h != b64_encode(header_json()) {
                    None
                } else {
                    match eddsa_sig(priv_pem, t.take(d2)) {
                        None => None,
                        Some(s2) => if s2 != sig {
                            None
                        } else {
                            match b64_decode(p) {
                                None => None,
                                Some(json) => parse_claims_json(json),
                            }
                        },
                    }
                }
            },
        },
    }
}

/// Stateless token verification: the claims must check out cryptographically
/// and carry the expected issuer and audience, and `now` must fall in the
/// token's validity window.
pub open spec fn verify_token_spec(
    priv_pem: Seq<u8>,
    iss: Seq<char>,
    aud: Seq<char>,
    t: Seq<u8>,
    now: u64,
) -> Option<ClaimsView> {
    match token_claims(priv_pem, t) {
        None => None,
        Some(cv) => if cv.iss == iss && cv.aud == aud && cv.nbf <= now && now < cv.exp {
            Some(cv)
        } else {
            None
        },
    }
}

/// ASCII bytes read as the characters with the same values.
pub open spec fn ascii_chars(bytes: Seq<u8>) -> Seq<char> {
    bytes.map(|i: int, b: u8| b as char)
}

/// The canonical decimal bytes of an account id: a minus sign for a
/// negative id, then the digits.
pub open spec fn id_bytes(id: int) -> Seq<u8> {
    if id >= 0 {
        dec_digits(id as nat)
    } else {
        seq![45u8] + dec_digits((-id) as nat)
    }
}

/// The canonical string of an account id.
pub open spec fn id_chars(id: int) -> Seq<char> {
    ascii_chars(id_bytes(id))
}

/// The claims issued for an account at time `now`.
pub open spec fn access_claims(
    iss: Seq<char>,
    aud: Seq<char>,
    user_id: int,
    username: Seq<char>,
    role: Role,
    now: u64,
) -> ClaimsView {
    ClaimsView {
        sub: id_chars(user_id),
        iss,
        aud,
        exp: (now + ACCESS_TOKEN_TTL_SECS) as u64,
        nbf: now,
        iat: now,
        username,
        role,
    }
}

/// Issues and verifies access tokens with process-wide key material handed
/// in once at construction: the Ed25519 private key in PKCS#8 PEM form, and
/// the issuer and audience names that every token carries.
pub struct TokenIssuer {
    private_pem: Vec<u8>,
    issuer: String,
    audience: String,
}

impl TokenIssuer {
    pub closed spec fn spec_pem(&self) -> Seq<u8> {
        self.private_pem@
    }

    pub closed spec fn spec_issuer(&self) -> Seq<char> {
        self.issuer@
    }

    pub closed spec fn spec_audience(&self) -> Seq<char> {
        self.audience@
    }

    pub fn new(private_pem: Vec<u8>, issuer: String, audience: String) -> (r: TokenIssuer)
        ensures
            r.spec_pem() == private_pem@,
            r.spec_issuer() == issuer@,
            r.spec_audience() == audience@,
    {
        TokenIssuer { private_pem, issuer, audience }
    }
}

/// The header bytes as a vector.
fn header_json_bytes() -> (r: Vec<u8>)
    ensures
        r@ == header_json(),
{
    let mut out: Vec<u8> = Vec::new();
    push_bytes(
        &mut out,
        &[
            123, 34, 97, 108, 103, 34, 58, 34, 69, 100, 68, 83, 65, 34, 44, 34, 116, 121, 112,
            34, 58, 34, 74, 87, 84, 34, 125,
        ],
    );
    proof {
        assert(out@ =~= header_json());
    }
    out
}

/// The canonical string of an account id.
fn id_string(id: i32) -> (r: String)
    ensures
        r@ == id_chars(id as int),
{
    let mut bytes: Vec<u8> = Vec::new();
    let n: u64 = if id < 0 {
        bytes.push(45);
        (-(id as i64)) as u64
    } else {
        id as u64
    };
    push_dec(&mut bytes, n);
    proof {
        crate::jsontext::lemma_dec_digits(n as nat);
        assert(forall|i: int|
            0 <= i < bytes@.len() ==> bytes@[i] < 128);
    }
    let r = ascii_to_string(bytes);
    proof {
        assert(bytes@ =~= id_bytes(id as int));
        assert(r@ =~= ascii_chars(bytes@));
    }
    r
}

/// Copies `s[a .. b]` into a fresh vector.
fn copy_range(s: &Vec<u8>, a: usize, b: usize) -> (r: Vec<u8>)
    requires
        a <= b <= s@.len(),
    ensures
        r@ == s@.subrange(a as int, b as int),
{
    let mut out: Vec<u8> = Vec::new();
    let mut k: usize = a;
    while k < b
        invariant
            a <= k <= b <= s@.len(),
            out@ == s@.subrange(a as int, k as int),
        decreases b - k,
    {
        out.push(s[k]);
        proof {
            assert(out@ =~= s@.subrange(a as int, k as int + 1));
        }
        k += 1;
    }
    out
}

/// Finds the first dot at or after `from`.
fn find_dot(s: &Vec<u8>, from: usize) -> (r: Option<usize>)
    requires
        from <= s@.len(),
    ensures
        match r {
            Some(d) => from <= d < s@.len() && s@[d as int] == 46 && first_dot_from(
                s@,
                from as int,
            ) == Some(d as int),
            None => first_dot_from(s@, from as int) is None,
        },
{
    let len = s.len();
    let mut i: usize = from;
    while i < len
        invariant
            from <= i <= len,
            len == s@.len(),
            first_dot_from(s@, from as int) == first_dot_from(s@, i as int),
            forall|j: int| from <= j < i ==> s@[j] != 46,
        decreases len - i,
    {
        if s[i] == 46 {
            return Some(i);
        }
        i += 1;
    }
    None
}

impl TokenIssuer {
    /// Builds the claims for `user` at time `now`, frames them canonically
    /// and signs the result: the token is exactly `token_bytes` of those
    /// claims under the configured key, read as a string.
    pub fn generate_access_token(&self, user: &User, now: u64) -> (r: Result<String, SignError>)
        requires
            now <= u64::MAX - ACCESS_TOKEN_TTL_SECS,
        ensures
            ({
                let cv = access_claims(
                    self.spec_issuer(),
                    self.spec_audience(),
                    user.id as int,
                    user.username@,
                    user.role,
                    now,
                );
                match r {
                    Ok(t) => eddsa_sig(self.spec_pem(), signing_input(claims_json(cv))) is Some
                        && encode_utf8(t@) == token_bytes(self.spec_pem(), claims_json(cv)),
                    Err(_) => eddsa_sig(self.spec_pem(), signing_input(claims_json(cv))) is None,
                }
            }),
    {
        let claims = Claims {
            sub: id_string(user.id),
            iss: self.issuer.clone(),
            aud: self.audience.clone(),
            exp: now + ACCESS_TOKEN_TTL_SECS,
            nbf: now,
            iat: now,
            username: user.username.clone(),
            role: user.role,
        };
        let ghost cv = access_claims(
            self.spec_issuer(),
            self.spec_audience(),
            user.id as int,
            user.username@,
            user.role,
            now,
        );
        proof {
            assert(claims@ == cv);
        }
        let json = build_claims_json(&claims);
        let header_b = header_json_bytes();
        let mut msg = base64url_encode(&header_b);
        msg.push(46);
        let mut payload_enc = base64url_encode(&json);
        msg.append(&mut payload_enc);
        proof {
            assert(msg@ =~= signing_input(claims_json(cv)));
        }
        let sig = match sign_eddsa(&msg, &self.private_pem) {
            Some(s) => s,
            None => {
                return Err(SignError);
            },
        };
        let ghost sigg = sig@;
        let mut tb = msg;
        tb.push(46);
        let mut sigv = sig;
        tb.append(&mut sigv);
        proof {
            assert(tb@ =~= token_bytes(self.spec_pem(), claims_json(cv)));
            lemma_b64_encode_alphabet(header_json());
            lemma_b64_encode_alphabet(claims_json(cv));
            let h = b64_encode(header_json());
            let p = b64_encode(claims_json(cv));
            assert forall|i: int| 0 <= i < tb@.len() implies tb@[i] < 128 by {
                if i < h.len() {
                    assert(tb@[i] == h[i]);
                    assert(is_b64_char(h[i]));
                } else if i == h.len() {
                    assert(tb@[i] == 46);
                } else if i < h.len() + 1 + p.len() {
                    assert(tb@[i] == p[i - h.len() - 1]);
                    assert(is_b64_char(p[i - h.len() - 1]));
                } else if i == h.len() + 1 + p.len() {
                    assert(tb@[i] == 46);
                } else {
                    assert(tb@[i] == sigg[i - (h.len() + 1 + p.len() + 1)]);
                    assert(is_b64_char(sigg[i - (h.len() + 1 + p.len() + 1)]));
                }
            }
        }
        let ghost tbg = tb@;
        let t = ascii_to_string(tb);
        proof {
            assert forall|i: int| 0 <= i < t@.len() implies '\0' <= #[trigger] t@[i]
                <= '\u{7f}' by {
                assert(t@[i] == tbg[i] as char);
                assert(tbg[i] < 128);
            }
            assert(vstd::utf8::is_ascii_chars(t@));
            vstd::utf8::is_ascii_chars_encode_utf8(t@);
            assert(encode_utf8(t@) =~= tbg);
        }
        Ok(t)
    }

    /// Statelessly verifies a presented token: shape, header, signature,
    /// payload encoding, claims frame, issuer, audience and validity window.
    /// Every failure is the one `VerifyError`.
    pub fn verify_access_token(&self, token: &str, now: u64) -> (r: Result<Claims, VerifyError>)
        ensures
            ({
                let v = verify_token_spec(
                    self.spec_pem(),
                    self.spec_issuer(),
                    self.spec_audience(),
                    token.spec_bytes(),
                    now,
                );
                match r {
                    Ok(c) => v == Some(c@),
                    Err(_) => v is None,
                }
            }),
    {
        let ghost t = token.spec_bytes();
        let bytes = token.as_bytes_vec();
        let d1 = match find_dot(&bytes, 0) {
            Some(d) => d,
            None => {
                return Err(VerifyError);
            },
        };
        let d2 = match find_dot(&bytes, d1 + 1) {
            Some(d) => d,
            None => {
                return Err(VerifyError);
            },
        };
        let h = copy_range(&bytes, 0, d1);
        let header_b = header_json_bytes();
        let header_enc = base64url_encode(&header_b);
        proof {
            assert(t.take(d1 as int) =~= h@);
        }
        if !crate::jsontext::bytes_eq(&header_enc, h.as_slice()) {
            return Err(VerifyError);
        }
        let msg = copy_range(&bytes, 0, d2);
        proof {
            assert(t.take(d2 as int) =~= msg@);
        }
        let sig2 = match sign_eddsa(&msg, &self.private_pem) {
            Some(s) => s,
            None => {
                return Err(VerifyError);
            },
        };
        let sigpart = copy_range(&bytes, d2 + 1, bytes.len());
        proof {
            assert(t.skip(d2 as int + 1) =~= sigpart@);
        }
        if !crate::jsontext::bytes_eq(&sig2, sigpart.as_slice()) {
            return Err(VerifyError);
        }
        let p = copy_range(&bytes, d1 + 1, d2);
        let json = match base64url_decode(&p) {
            Some(j) => j,
            None => {
                return Err(VerifyError);
            },
        };
        let claims = match parse_claims(&json) {
            Some(c) => c,
            None => {
                return Err(VerifyError);
            },
        };
        if !str_eq(claims.iss.as_str(), self.issuer.as_str()) {
            return Err(VerifyError);
        }
        if !str_eq(claims.aud.as_str(), self.audience.as_str()) {
            return Err(VerifyError);
        }
        if !(claims.nbf <= now && now < claims.exp) {
            return Err(VerifyError);
        }
        Ok(claims)
    }
}

/// Decomposing a freshly issued token recovers exactly the claims it was
/// issued with.
pub proof fn lemma_token_claims_of_issued(priv_pem: Seq<u8>, cv: ClaimsView)
    requires
        eddsa_sig(priv_pem, signing_input(claims_json(cv))) is Some,
    ensures
        token_claims(priv_pem, token_bytes(priv_pem, claims_json(cv))) == Some(cv),
{
    let json = claims_json(cv);
    let h = b64_encode(header_json());
    let p = b64_encode(json);
    let si = signing_input(json);
    let sig = eddsa_sig(priv_pem, si)->Some_0;
    let tb = token_bytes(priv_pem, json);
    lemma_b64_encode_alphabet(header_json());
    lemma_b64_encode_alphabet(json);
    let d1 = h.len() as int;
    let d2 = h.len() + 1 + p.len();
    assert(tb =~= h + seq![46u8] + p + seq![46u8] + sig);
    assert forall|j: int| 0 <= j < d1 implies tb[j] != 46 by {
        assert(tb[j] == h[j]);
        assert(is_b64_char(h[j]));
    }
    assert(tb[d1] == 46);
    lemma_first_dot_at(tb, 0, d1);
    assert forall|j: int| d1 + 1 <= j < d2 implies tb[j] != 46 by {
        assert(tb[j] == p[j - d1 - 1]);
        assert(is_b64_char(p[j - d1 - 1]));
    }
    assert(tb[d2 as int] == 46);
    lemma_first_dot_at(tb, d1 + 1, d2 as int);
    assert(tb.take(d1) =~= h);
    assert(tb.subrange(d1 + 1, d2 as int) =~= p);
    assert(tb.skip(d2 as int + 1) =~= sig);
    assert(tb.take(d2 as int) =~= si);
    lemma_b64_round_trip(json);
    lemma_claims_parse_round_trip(cv);
    assert(token_claims(priv_pem, tb) == Some(cv));
}

/// Issuing and then verifying round-trips: before expiry and with matching
/// issuer and audience, verification of an issued token returns exactly the
/// claims it was issued with, subject and role included.
pub proof fn lemma_token_round_trip(
    priv_pem: Seq<u8>,
    iss: Seq<char>,
    aud: Seq<char>,
    cv: ClaimsView,
    now: u64,
)
    requires
        eddsa_sig(priv_pem, signing_input(claims_json(cv))) is Some,
        cv.iss == iss,
        cv.aud == aud,
        cv.nbf <= now < cv.exp,
    ensures
        verify_token_spec(priv_pem, iss, aud, token_bytes(priv_pem, claims_json(cv)), now)
            == Some(cv),
{
    lemma_token_claims_of_issued(priv_pem, cv);
}

/// From its expiry second on, an issued token is refused; the refusal is
/// the same `VerifyError` value that a forged signature produces, so the
/// two cannot be told apart.
pub proof fn lemma_token_expired_rejected(
    priv_pem: Seq<u8>,
    iss: Seq<char>,
    aud: Seq<char>,
    cv: ClaimsView,
    now: u64,
)
    requires
        eddsa_sig(priv_pem, signing_input(claims_json(cv))) is Some,
        now >= cv.exp,
    ensures
        verify_token_spec(priv_pem, iss, aud, token_bytes(priv_pem, claims_json(cv)), now)
            is None,
{
    lemma_token_claims_of_issued(priv_pem, cv);
}

} // verus!
