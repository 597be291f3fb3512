use vstd::prelude::*;

verus! {

/// The role claim carried on an account and inside access tokens.
#[derive(Clone, Copy, PartialEq, Eq, Structural, Debug)]
pub enum Role {
    ADMIN,
    USER,
}

/// Compares two string slices character by character.
pub fn str_eq(a: &str, b: &str) -> (r: bool)
    ensures
        r == (a@ == b@),
{
    let la = a.unicode_len();
    let lb = b.unicode_len();
    if la != lb {
        return false;
    }
    let mut i: usize = 0;
    while i < la
        invariant
            i <= la,
            la == a@.len(),
            la == b@.len(),
            forall|j: int| 0 <= j < i ==> a@[j] == b@[j],
        decreases la - i,
    {
        if a.get_char(i) != b.get_char(i) {
            return false;
        }
        i += 1;
    }
    proof {
        assert(a@ =~= b@);
    }
    true
}

impl Role {
    /// Parses the canonical name of a role.
    pub fn from_str(s: &str) -> (r: Result<Role, ()>)
        ensures
            s@ == "ADMIN"@ ==> r == Ok::<Role, ()>(Role::ADMIN),
            s@ == "USER"@ ==> r == Ok::<Role, ()>(Role::USER),
            s@ != "ADMIN"@ && s@ != "USER"@ ==> r == Err::<Role, ()>(()),
    {
        proof {
            reveal_strlit("ADMIN");
            reveal_strlit("USER");
            assert("ADMIN"@.len() == 5);
            assert("USER"@.len() == 4);
            assert("ADMIN"@ != "USER"@);
        }
        if str_eq(s, "ADMIN") {
            Ok(Role::ADMIN)
        } else if str_eq(s, "USER") {
            Ok(Role::USER)
        } else {
            Err(())
        }
    }

    /// The canonical name of a role.
    pub fn as_str(&self) -> (r: &'static str)
        ensures
            *self == Role::ADMIN ==> r@ == "ADMIN"@,
            *self == Role::USER ==> r@ == "USER"@,
    {
        match self {
            Role::ADMIN => "ADMIN",
            Role::USER => "USER",
        }
    }
}

/// An identity record as the persistence collaborator returns it. The core
/// never mutates one: it reads it after a lookup and supplies the fields of a
/// new row on registration. `password` holds the encoded password hash, never
/// a plaintext; the timestamps are seconds since the epoch.
#[derive(Debug, Clone)]
pub struct User {
    pub id: i32,
    pub email: String,
    pub username: String,
    pub password: String,
    pub role: Role,
    pub created_at: i64,
    pub updated_at: i64,
}

} // verus!
