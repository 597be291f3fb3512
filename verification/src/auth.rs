use vstd::prelude::*;
use vstd::string::{StrSliceExecFns, StringExecFns};
use vstd::utf8::encode_utf8;

use crate::claims::claims_json;
use crate::hashing::{argon2_hash, argon2_verify, Hasher};
use crate::jwt::{
    access_claims, eddsa_sig, generate_refresh_token, signing_input, token_bytes, TokenIssuer,
    ACCESS_TOKEN_TTL_SECS,
};
use crate::model::{str_eq, User};
use crate::problem::{FormErr, Problem};
use crate::util::{
    email_issue, email_violations, is_ascii_alphanumeric_char, password_issue,
    password_violations, username_issue, username_violations, validate_email, validate_password,
    validate_username, EmailError, PasswordError, UsernameError,
};

verus! {

// The request orchestration: registration and login, sequenced as pure
// steps around the persistence collaborator. The collaborator's calls stay
// outside: a caller hands their outcomes in as plain values, and every
// failure leaves as a `Problem`.

/// Input for the register flow.
#[derive(Debug)]
pub struct RegisterPayload {
    pub email: String,
    pub username: String,
    pub password: String,
}

/// Input for the login flow.
#[derive(Debug)]
pub struct LoginPayload {
    pub email: String,
    pub password: String,
}

/// Returned for a successful login: two distinct credentials under two
/// distinct names, both of which must reach the client.
#[derive(Debug)]
pub struct AuthPayload {
    pub refresh_token: String,
    pub access_token: String,
}

/// The fields of the account row to insert on registration; the password
/// travels only as its encoded hash.
#[derive(Debug)]
pub struct NewAccount {
    pub email: String,
    pub username: String,
    pub password_hash: String,
}

/// A refresh token to persist, keyed by the account id.
#[derive(Debug)]
pub struct RefreshRecord {
    pub user_id: i32,
    pub token: String,
}

/// How the persistence collaborator reports a failed account insert: a
/// uniqueness violation carries the violated constraint's logical name;
/// everything else is `Other`.
#[derive(Debug)]
pub enum InsertAccountError {
    Constraint(String),
    Other,
}

/// A successful login: the credentials for the client, and the refresh
/// record the caller must hand to the persistence collaborator.
#[derive(Debug)]
pub struct LoginSuccess {
    pub payload: AuthPayload,
    pub refresh_record: RefreshRecord,
}

pub open spec fn password_issues_match(issues: Seq<String>, errs: Seq<PasswordError>) -> bool {
    issues.len() == errs.len() && forall|i: int|
        0 <= i < errs.len() ==> #[trigger] issues[i]@ == password_issue(errs[i])
}

pub open spec fn username_issues_match(issues: Seq<String>, errs: Seq<UsernameError>) -> bool {
    issues.len() == errs.len() && forall|i: int|
        0 <= i < errs.len() ==> #[trigger] issues[i]@ == username_issue(errs[i])
}

pub open spec fn email_issues_match(issues: Seq<String>, errs: Seq<EmailError>) -> bool {
    issues.len() == errs.len() && forall|i: int|
        0 <= i < errs.len() ==> #[trigger] issues[i]@ == email_issue(errs[i])
}

/// The exact form-error list for a registration attempt: one entry per
/// field that produced violations, in the order email, username, password,
/// each carrying all of its field's issue names in rule order.
pub open spec fn register_form_matches(
    form: Seq<FormErr>,
    email: Seq<char>,
    username: Seq<char>,
    password: Seq<char>,
) -> bool {
    let ev = email_violations(email);
    let uv = username_violations(username);
    let pv = password_violations(password);
    let ce: int = if ev.len() > 0 {
        1
    } else {
        0
    };
    let cu: int = if uv.len() > 0 {
        1
    } else {
        0
    };
    let cp: int = if pv.len() > 0 {
        1
    } else {
        0
    };
    &&& form.len() == ce + cu + cp
    &&& (ev.len() > 0 ==> form[0].field@ == "email"@ && email_issues_match(form[0].issues@, ev))
    &&& (uv.len() > 0 ==> form[ce].field@ == "username"@ && username_issues_match(
        form[ce].issues@,
        uv,
    ))
    &&& (pv.len() > 0 ==> form[ce + cu].field@ == "password"@ && password_issues_match(
        form[ce + cu].issues@,
        pv,
    ))
}

fn email_issue_strings(errs: &Vec<EmailError>) -> (r: Vec<String>)
    ensures
        email_issues_match(r@, errs@),
{
    let mut out: Vec<String> = Vec::new();
    let mut i: usize = 0;
    while i < errs.len()
        invariant
            i <= errs@.len(),
            out@.len() == i,
            forall|j: int| 0 <= j < i ==> #[trigger] out@[j]@ == email_issue(errs@[j]),
        decreases errs@.len() - i,
    {
        out.push(String::from_str(errs[i].message()));
        i += 1;
    }
    out
}

fn username_issue_strings(errs: &Vec<UsernameError>) -> (r: Vec<String>)
    ensures
        username_issues_match(r@, errs@),
{
    let mut out: Vec<String> = Vec::new();
    let mut i: usize = 0;
    while i < errs.len()
        invariant
            i <= errs@.len(),
            out@.len() == i,
            forall|j: int| 0 <= j < i ==> #[trigger] out@[j]@ == username_issue(errs@[j]),
        decreases errs@.len() - i,
    {
        out.push(String::from_str(errs[i].message()));
        i += 1;
    }
    out
}

fn password_issue_strings(errs: &Vec<PasswordError>) -> (r: Vec<String>)
    ensures
        password_issues_match(r@, errs@),
{
    let mut out: Vec<String> = Vec::new();
    let mut i: usize = 0;
    while i < errs.len()
        invariant
            i <= errs@.len(),
            out@.len() == i,
            forall|j: int| 0 <= j < i ==> #[trigger] out@[j]@ == password_issue(errs@[j]),
        decreases errs@.len() - i,
    {
        out.push(String::from_str(errs[i].message()));
        i += 1;
    }
    out
}

/// The explicit mapping from the persistence schema's uniqueness-constraint
/// identifiers to the field each one guards.
pub fn constraint_field(name: &str) -> (r: Option<&'static str>)
    ensures
        name@ == "users_email_key"@ ==> (r matches Some(f) && f@ == "email"@),
        name@ == "users_username_key"@ ==> (r matches Some(f) && f@ == "username"@),
        name@ != "users_email_key"@ && name@ != "users_username_key"@ ==> r is None,
{
    proof {
        reveal_strlit("users_email_key");
        reveal_strlit("users_username_key");
        assert("users_email_key"@.len() == 15);
        assert("users_username_key"@.len() == 18);
        assert("users_email_key"@ != "users_username_key"@);
    }
    if str_eq(name, "users_email_key") {
        Some("email")
    } else if str_eq(name, "users_username_key") {
        Some("username")
    } else {
        None
    }
}

/// Sequences validation, hashing, persistence outcomes and token issuance
/// for the two flows, turning every failure into a `Problem`.
pub struct Auth {
    pub hasher: Hasher,
    pub issuer: TokenIssuer,
}

impl Auth {
    pub fn new(hasher: Hasher, issuer: TokenIssuer) -> (r: Auth)
        ensures
            r.hasher == hasher,
            r.issuer == issuer,
    {
        Auth { hasher, issuer }
    }

    /// Registration before persistence: validates all three fields, never
    /// short-circuiting, and hashes the password. Returns the row to
    /// insert, or the validation problem carrying every violated rule, or
    /// an internal problem if hashing failed — and hashing a valid
    /// password cannot fail under a usable pepper, so success is owed on
    /// every valid form.
    pub fn register(&self, payload: &RegisterPayload) -> (r: Result<NewAccount, Problem>)
        ensures
            email_violations(payload.email@).len() == 0 && username_violations(
                payload.username@,
            ).len() == 0 && password_violations(payload.password@).len() == 0
                && self.hasher.pepper_usable() ==> r is Ok,
            ({
                let ev = email_violations(payload.email@);
                let uv = username_violations(payload.username@);
                let pv = password_violations(payload.password@);
                match r {
                    Ok(na) => {
                        &&& ev.len() == 0 && uv.len() == 0 && pv.len() == 0
                        &&& na.email == payload.email
                        &&& na.username == payload.username
                        &&& exists|salt: Seq<u8>|
                            Some(na.password_hash@) == #[trigger] argon2_hash(
                                encode_utf8(payload.password@),
                                salt,
                                self.hasher.spec_pepper(),
                            )
                    },
                    Err(p) => if ev.len() > 0 || uv.len() > 0 || pv.len() > 0 {
                        p.is_validation(p.form@) && register_form_matches(
                            p.form@,
                            payload.email@,
                            payload.username@,
                            payload.password@,
                        )
                    } else {
                        p.is_internal()
                    },
                }
            }),
    {
        let mut form: Vec<FormErr> = Vec::new();
        if let Err(v) = validate_email(payload.email.as_str()) {
            form.push(FormErr { field: String::from_str("email"), issues: email_issue_strings(&v) });
        }
        if let Err(v) = validate_username(payload.username.as_str()) {
            form.push(
                FormErr { field: String::from_str("username"), issues: username_issue_strings(&v) },
            );
        }
        if let Err(v) = validate_password(payload.password.as_str()) {
            form.push(
                FormErr { field: String::from_str("password"), issues: password_issue_strings(&v) },
            );
        }
        if form.len() > 0 {
            proof {
                assert(register_form_matches(
                    form@,
                    payload.email@,
                    payload.username@,
                    payload.password@,
                ));
            }
            return Err(Problem::validation(form));
        }
        let pwd_bytes = payload.password.as_str().as_bytes_vec();
        proof {
            // A valid password has at most 100 characters, so its UTF-8
            // form stays far inside argon2's u32 length limit.
            crate::claims::lemma_encode_utf8_len(payload.password@);
            assert(payload.password@.len() <= 100);
            assert(pwd_bytes@.len() <= 400);
        }
        match self.hasher.hash_password(&pwd_bytes) {
            Ok(h) => Ok(
                NewAccount {
                    email: payload.email.clone(),
                    username: payload.username.clone(),
                    password_hash: h,
                },
            ),
            Err(_) => Err(Problem::internal()),
        }
    }

    /// Registration after persistence: a recognised uniqueness conflict
    /// names its field; any other failure is the generic registration
    /// failure; success acknowledges creation with status 201 and no token.
    pub fn register_outcome(insert: &Result<(), InsertAccountError>) -> (r: Result<u16, Problem>)
        ensures
            match insert {
                Ok(_) => r == Ok::<u16, Problem>(201),
                Err(e) => r matches Err(p) && match e {
                    InsertAccountError::Constraint(name) => if name@ == "users_email_key"@ {
                        p.is_conflict("email"@)
                    } else if name@ == "users_username_key"@ {
                        p.is_conflict("username"@)
                    } else {
                        p.is_registration_failed()
                    },
                    InsertAccountError::Other => p.is_registration_failed(),
                },
            },
    {
        match insert {
            Ok(_) => Ok(201),
            Err(InsertAccountError::Constraint(name)) => {
                match constraint_field(name.as_str()) {
                    Some(field) => Err(Problem::conflict(field)),
                    None => Err(Problem::registration_failed()),
                }
            },
            Err(InsertAccountError::Other) => Err(Problem::registration_failed()),
        }
    }

    /// Login around the account lookup: a missing account and a failed
    /// password check yield the one generic invalid-credentials problem,
    /// so the two cases cannot be told apart; a verified password with a
    /// usable signing key is owed success; an undecodable stored hash or a
    /// signing failure is an internal problem, never invalid credentials.
    /// On success the access token is exactly the issued token for this
    /// account at `now`, the refresh token is fresh random material, and
    /// the refresh record carries the same token keyed by the account.
    pub fn login(&self, payload: &LoginPayload, account: Option<&User>, now: u64) -> (r: Result<
        LoginSuccess,
        Problem,
    >)
        requires
            now <= u64::MAX - ACCESS_TOKEN_TTL_SECS,
        ensures
            account is None ==> (r matches Err(p) && p.is_invalid_credentials()),
            r matches Err(p) ==> p.is_invalid_credentials() || p.is_internal(),
            account matches Some(u) ==> ({
                let v = argon2_verify(
                    u.password@,
                    encode_utf8(payload.password@),
                    self.hasher.spec_pepper(),
                );
                let sig_ok = eddsa_sig(
                    self.issuer.spec_pem(),
                    signing_input(
                        claims_json(
                            access_claims(
                                self.issuer.spec_issuer(),
                                self.issuer.spec_audience(),
                                u.id as int,
                                u.username@,
                                u.role,
                                now,
                            ),
                        ),
                    ),
                ) is Some;
                &&& (v == Some(false) ==> (r matches Err(p) && p.is_invalid_credentials()))
                &&& (v is None ==> (r matches Err(p) && p.is_internal()))
                &&& (v == Some(true) && sig_ok ==> r is Ok)
                &&& (v == Some(true) && !sig_ok ==> (r matches Err(p) && p.is_internal()))
                &&& (r is Ok ==> v == Some(true))
            }),
            (account matches Some(u) && (exists|salt: Seq<u8>|
                Some(u.password@) == #[trigger] argon2_hash(
                    encode_utf8(payload.password@),
                    salt,
                    self.hasher.spec_pepper(),
                ))) ==> !(r matches Err(p) && p.is_invalid_credentials()),
            r matches Ok(ls) ==> account matches Some(u) && ({
                let cv = access_claims(
                    self.issuer.spec_issuer(),
                    self.issuer.spec_audience(),
                    u.id as int,
                    u.username@,
                    u.role,
                    now,
                );
                &&& encode_utf8(ls.payload.access_token@) == token_bytes(
                    self.issuer.spec_pem(),
                    claims_json(cv),
                )
                &&& eddsa_sig(self.issuer.spec_pem(), signing_input(claims_json(cv))) is Some
                &&& ls.payload.refresh_token@.len() == 32
                &&& forall|i: int|
                    0 <= i < 32 ==> is_ascii_alphanumeric_char(
                        #[trigger] ls.payload.refresh_token@[i],
                    )
                &&& ls.refresh_record.user_id == u.id
                &&& ls.refresh_record.token@ == ls.payload.refresh_token@
            }),
    {
        let u = match account {
            Some(u) => u,
            None => {
                return Err(Problem::invalid_credentials());
            },
        };
        let pwd_bytes = payload.password.as_str().as_bytes_vec();
        match self.hasher.verify_password(&u.password, &pwd_bytes) {
            Ok(true) => (),
            Ok(false) => {
                return Err(Problem::invalid_credentials());
            },
            Err(_) => {
                return Err(Problem::internal());
            },
        }
        let access_token = match self.issuer.generate_access_token(u, now) {
            Ok(t) => t,
            Err(_) => {
                return Err(Problem::internal());
            },
        };
        let refresh_token = generate_refresh_token(32);
        let record_token = refresh_token.clone();
        Ok(
            LoginSuccess {
                payload: AuthPayload { refresh_token, access_token },
                refresh_record: RefreshRecord { user_id: u.id, token: record_token },
            },
        )
    }

    /// Login, last step: interprets the outcome of persisting the refresh
    /// record; a storage failure surfaces as an internal problem.
    pub fn store_refresh_outcome(stored: bool) -> (r: Result<(), Problem>)
        ensures
            stored ==> r is Ok,
            !stored ==> (r matches Err(p) && p.is_internal()),
    {
        if stored {
            Ok(())
        } else {
            Err(Problem::internal())
        }
    }
}

} // verus!
