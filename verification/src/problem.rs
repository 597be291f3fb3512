use vstd::prelude::*;
use vstd::string::StringExecFns;

verus! {

/// One form field together with every rule it violated.
#[derive(Debug, PartialEq)]
pub struct FormErr {
    pub field: String,
    pub issues: Vec<String>,
}

/// The uniform error envelope returned for any failed request. The status is
/// an HTTP-style code carried out-of-band by the transport; `form` is empty
/// except on validation failures.
#[derive(Debug, PartialEq)]
pub struct Problem {
    pub status: u16,
    pub title: String,
    pub detail: String,
    pub form: Vec<FormErr>,
}

impl Problem {
    /// The single generic problem for a wrong email, a wrong password, or a
    /// missing account: one message and one status for all three, so a
    /// response cannot be used to enumerate accounts or probe passwords.
    pub open spec fn is_invalid_credentials(&self) -> bool {
        &&& self.status == 400
        &&& self.title@ == "Invalid email or password"@
        &&& self.detail@ == "The email or password used is invalid."@
        &&& self.form@.len() == 0
    }

    /// The problem for a uniqueness conflict on `field`.
    pub open spec fn is_conflict(&self, field: Seq<char>) -> bool {
        &&& self.status == 400
        &&& self.title@ == "Invalid "@ + field
        &&& self.detail@ == "The "@ + field + " already exists."@
        &&& self.form@.len() == 0
    }

    /// The problem for a registration that failed in persistence for any
    /// reason other than a recognised uniqueness conflict.
    pub open spec fn is_registration_failed(&self) -> bool {
        &&& self.status == 400
        &&& self.title@ == "Failed to register"@
        &&& self.detail@ == "Failed to register user."@
        &&& self.form@.len() == 0
    }

    /// The problem for any unexpected crypto or persistence failure; the
    /// detail is fixed safe text, never an internal error string.
    pub open spec fn is_internal(&self) -> bool {
        &&& self.status == 500
        &&& self.title@ == "Internal server error"@
        &&& self.detail@ == "Internal server error."@
        &&& self.form@.len() == 0
    }

    /// The problem for a registration form with invalid fields.
    pub open spec fn is_validation(&self, form: Seq<FormErr>) -> bool {
        &&& self.status == 400
        &&& self.title@ == "Invalid form"@
        &&& self.detail@ == "One or more fields are invalid."@
        &&& self.form@ == form
    }

    pub fn invalid_credentials() -> (r: Problem)
        ensures
            r.is_invalid_credentials(),
    {
        Problem {
            status: 400,
            title: String::from_str("Invalid email or password"),
            detail: String::from_str("The email or password used is invalid."),
            form: Vec::new(),
        }
    }

    pub fn conflict(field: &str) -> (r: Problem)
        ensures
            r.is_conflict(field@),
    {
        let mut title = String::from_str("Invalid ");
        title.append(field);
        let mut detail = String::from_str("The ");
        detail.append(field);
        detail.append(" already exists.");
        Problem { status: 400, title, detail, form: Vec::new() }
    }

    pub fn registration_failed() -> (r: Problem)
        ensures
            r.is_registration_failed(),
    {
        Problem {
            status: 400,
            title: String::from_str("Failed to register"),
            detail: String::from_str("Failed to register user."),
            form: Vec::new(),
        }
    }

    pub fn internal() -> (r: Problem)
        ensures
            r.is_internal(),
    {
        Problem {
            status: 500,
            title: String::from_str("Internal server error"),
            detail: String::from_str("Internal server error."),
            form: Vec::new(),
        }
    }

    pub fn validation(form: Vec<FormErr>) -> (r: Problem)
        ensures
            r.is_validation(form@),
    {
        Problem {
            status: 400,
            title: String::from_str("Invalid form"),
            detail: String::from_str("One or more fields are invalid."),
            form,
        }
    }
}

} // verus!
