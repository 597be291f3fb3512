use vstd::prelude::*;

verus! {

// Password hashing with a process-wide secret pepper handed in once at
// construction, and a fresh random salt for every hash. The salt and the
// cost parameters are embedded in the encoded hash string, so verification
// needs only the hash, the candidate password and the pepper.

pub const HASH_LENGTH: u32 = 32;

pub const MEM_COST_KIB: u32 = 4096;

pub const TIME_COST: u32 = 10;

pub const LANES: u32 = 4;

pub const SALT_LENGTH: usize = 16;

/// Hashing or verification failed for a reason other than a wrong password:
/// unusable parameters or a malformed stored hash. Distinct from a mismatch
/// and surfaced as an internal failure, never as invalid credentials.
#[derive(Clone, Copy, PartialEq, Eq, Structural, Debug)]
pub struct HashError;

/// What `argon2::hash_encoded` returns for a password, salt and secret
/// under this module's fixed configuration (Argon2id, version 0x13, 32-byte
/// hash, 4096 KiB of memory, 10 passes, 4 lanes, empty associated data):
/// the function is deterministic, and success depends only on the inputs.
pub uninterp spec fn argon2_hash(pwd: Seq<u8>, salt: Seq<u8>, pepper: Seq<u8>) -> Option<
    Seq<char>,
>;

/// What `argon2::verify_encoded_ext` returns for an encoded hash string, a
/// candidate password and a secret (with empty associated data): it reads
/// the salt and parameters back out of the hash string and recomputes, so
/// the result is a deterministic function of these three values alone;
/// `None` exactly when the stored string cannot be decoded and re-run.
pub uninterp spec fn argon2_verify(hash: Seq<char>, pwd: Seq<u8>, pepper: Seq<u8>) -> Option<
    bool,
>;

/// Relies on argon2::hash_encoded with the fixed configuration above and
/// the pepper as the keyed secret. Its input validation is fixed by the
/// source: with this configuration it rejects exactly a salt shorter than
/// 8 bytes, or a password, salt or secret longer than u32::MAX bytes.
#[verifier::external_body]
fn argon2_hash_encoded(pwd: &Vec<u8>, salt: &Vec<u8>, pepper: &Vec<u8>) -> (r: Option<String>)
    ensures
        r is Some <==> argon2_hash(pwd@, salt@, pepper@) is Some,
        r matches Some(h) ==> Some(h@) == argon2_hash(pwd@, salt@, pepper@),
        pwd@.len() <= u32::MAX && 8 <= salt@.len() <= u32::MAX && pepper@.len() <= u32::MAX
            ==> r is Some,
{
    let config = argon2::Config {
        ad: &[],
        hash_length: HASH_LENGTH,
        lanes: LANES,
        mem_cost: MEM_COST_KIB,
        secret: pepper.as_slice(),
        thread_mode: argon2::ThreadMode::Parallel,
        time_cost: TIME_COST,
        variant: argon2::Variant::Argon2id,
        version: argon2::Version::Version13,
    };
    argon2::hash_encoded(pwd.as_slice(), salt.as_slice(), &config).ok()
}

/// Relies on argon2::verify_encoded_ext with the pepper as the secret and
/// empty associated data: it decodes the parameters and salt embedded in
/// the hash string, recomputes the hash of the candidate password and
/// compares. The result is the deterministic `argon2_verify`; every string
/// that hash_encoded produced under this pepper decodes and re-runs for any
/// candidate password within argon2's length limit, and one produced for
/// the same password verifies as true.
#[verifier::external_body]
fn argon2_verify_encoded(hash: &String, pwd: &Vec<u8>, pepper: &Vec<u8>) -> (r: Option<bool>)
    ensures
        r == argon2_verify(hash@, pwd@, pepper@),
        (exists|salt: Seq<u8>|
            Some(hash@) == #[trigger] argon2_hash(pwd@, salt, pepper@)) ==> r == Some(true),
        pwd@.len() <= u32::MAX && (exists|pwd2: Seq<u8>, salt: Seq<u8>|
            Some(hash@) == #[trigger] argon2_hash(pwd2, salt, pepper@)) ==> r is Some,
{
    argon2::verify_encoded_ext(hash.as_str(), pwd.as_slice(), pepper.as_slice(), &[]).ok()
}

/// Relies on rand::RngCore::fill_bytes on thread_rng: the buffer has the
/// requested length; nothing is assumed of the values.
#[verifier::external_body]
fn random_bytes(n: usize) -> (r: Vec<u8>)
    ensures
        r@.len() == n,
{
    let mut buf = vec![0u8; n];
    rand::RngCore::fill_bytes(&mut rand::thread_rng(), &mut buf);
    buf
}

/// Hashes passwords on registration and verifies them on login, keyed with
/// a process-wide pepper that is injected once and never logged or stored.
pub struct Hasher {
    pepper: Vec<u8>,
}

impl Hasher {
    pub closed spec fn spec_pepper(&self) -> Seq<u8> {
        self.pepper@
    }

    /// The fixed configuration accepts any pepper that fits in argon2's
    /// u32-length secret field.
    pub open spec fn pepper_usable(&self) -> bool {
        self.spec_pepper().len() <= u32::MAX
    }

    pub fn new(pepper: Vec<u8>) -> (r: Hasher)
        ensures
            r.spec_pepper() == pepper@,
    {
        Hasher { pepper }
    }

    /// Hashes a password under a fresh random salt. For any password and
    /// pepper within argon2's length limits this succeeds, and the result
    /// is an encoded hash that `verify_password` accepts for the same
    /// password.
    pub fn hash_password(&self, password: &Vec<u8>) -> (r: Result<String, HashError>)
        ensures
            r matches Ok(h) ==> exists|salt: Seq<u8>|
                Some(h@) == #[trigger] argon2_hash(password@, salt, self.spec_pepper()),
            password@.len() <= u32::MAX && self.pepper_usable() ==> r is Ok,
    {
        let salt = random_bytes(SALT_LENGTH);
        match argon2_hash_encoded(password, &salt, &self.pepper) {
            Some(h) => {
                proof {
                    assert(Some(h@) == argon2_hash(password@, salt@, self.spec_pepper()));
                }
                Ok(h)
            },
            None => Err(HashError),
        }
    }

    /// Verifies a password against a stored encoded hash: exactly the
    /// deterministic result of argon2's recomputation, with an error — and
    /// never a silent mismatch — exactly when the stored hash cannot be
    /// decoded. Any hash that `hash_password` produced for the same
    /// password and pepper verifies as true.
    pub fn verify_password(&self, hash: &String, password: &Vec<u8>) -> (r: Result<
        bool,
        HashError,
    >)
        ensures
            match r {
                Ok(b) => argon2_verify(hash@, password@, self.spec_pepper()) == Some(b),
                Err(_) => argon2_verify(hash@, password@, self.spec_pepper()) is None,
            },
            (exists|salt: Seq<u8>|
                Some(hash@) == #[trigger] argon2_hash(password@, salt, self.spec_pepper()))
                ==> r == Ok::<bool, HashError>(true),
            password@.len() <= u32::MAX && (exists|pwd2: Seq<u8>, salt: Seq<u8>|
                Some(hash@) == #[trigger] argon2_hash(pwd2, salt, self.spec_pepper())) ==> r
                is Ok,
    {
        match argon2_verify_encoded(hash, password, &self.pepper) {
            Some(b) => Ok(b),
            None => Err(HashError),
        }
    }
}

} // verus!
