//! Verified core of a credential-issuance service: field validation,
//! password hashing behind a process-wide pepper, issuance and stateless
//! verification of signed access tokens, and the uniform problem taxonomy
//! that the request orchestration surfaces to a transport.

pub mod auth;
pub mod base64url;
pub mod claims;
pub mod hashing;
pub mod jsontext;
pub mod jwt;
pub mod model;
pub mod problem;
pub mod util;
