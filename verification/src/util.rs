use vstd::prelude::*;

verus! {

// Field validation: each validator reports every violated rule for its field,
// never just the first one, so a caller can surface all problems in one round
// trip.

/// The rules a password can violate.
#[derive(Clone, Copy, PartialEq, Eq, Structural, Debug)]
pub enum PasswordError {
    TooShort,
    TooLong,
    NoUppercase,
    NoLowercase,
    NoNumbers,
    NoSpecialCharacters,
}

/// The rules a username can violate.
#[derive(Clone, Copy, PartialEq, Eq, Structural, Debug)]
pub enum UsernameError {
    TooShort,
    TooLong,
    NotAlphanumeric,
}

/// The rules an email address can violate.
#[derive(Clone, Copy, PartialEq, Eq, Structural, Debug)]
pub enum EmailError {
    TooShort,
    TooLong,
    InvalidFormat,
}

/// The issue name reported for a password rule.
pub open spec fn password_issue(e: PasswordError) -> Seq<char> {
    match e {
        PasswordError::TooShort => "TooShort"@,
        PasswordError::TooLong => "TooLong"@,
        PasswordError::NoUppercase => "NoUppercase"@,
        PasswordError::NoLowercase => "NoLowercase"@,
        PasswordError::NoNumbers => "NoNumbers"@,
        PasswordError::NoSpecialCharacters => "NoSpecialCharacters"@,
    }
}

/// The issue name reported for a username rule.
pub open spec fn username_issue(e: UsernameError) -> Seq<char> {
    match e {
        UsernameError::TooShort => "TooShort"@,
        UsernameError::TooLong => "TooLong"@,
        UsernameError::NotAlphanumeric => "NotAlphanumeric"@,
    }
}

/// The issue name reported for an email rule.
pub open spec fn email_issue(e: EmailError) -> Seq<char> {
    match e {
        EmailError::TooShort => "TooShort"@,
        EmailError::TooLong => "TooLong"@,
        EmailError::InvalidFormat => "InvalidFormat"@,
    }
}

impl PasswordError {
    /// The issue name shown in a form error.
    pub fn message(&self) -> (r: &'static str)
        ensures
            r@ == password_issue(*self),
    {
        match self {
            PasswordError::TooShort => "TooShort",
            PasswordError::TooLong => "TooLong",
            PasswordError::NoUppercase => "NoUppercase",
            PasswordError::NoLowercase => "NoLowercase",
            PasswordError::NoNumbers => "NoNumbers",
            PasswordError::NoSpecialCharacters => "NoSpecialCharacters",
        }
    }
}

impl UsernameError {
    /// The issue name shown in a form error.
    pub fn message(&self) -> (r: &'static str)
        ensures
            r@ == username_issue(*self),
    {
        match self {
            UsernameError::TooShort => "TooShort",
            UsernameError::TooLong => "TooLong",
            UsernameError::NotAlphanumeric => "NotAlphanumeric",
        }
    }
}

impl EmailError {
    /// The issue name shown in a form error.
    pub fn message(&self) -> (r: &'static str)
        ensures
            r@ == email_issue(*self),
    {
        match self {
            EmailError::TooShort => "TooShort",
            EmailError::TooLong => "TooLong",
            EmailError::InvalidFormat => "InvalidFormat",
        }
    }
}

pub open spec fn is_ascii_uppercase_char(c: char) -> bool {
    65 <= c as u32 <= 90
}

pub open spec fn is_ascii_lowercase_char(c: char) -> bool {
    97 <= c as u32 <= 122
}

pub open spec fn is_ascii_digit_char(c: char) -> bool {
    48 <= c as u32 <= 57
}

pub open spec fn is_ascii_alphanumeric_char(c: char) -> bool {
    is_ascii_uppercase_char(c) || is_ascii_lowercase_char(c) || is_ascii_digit_char(c)
}

pub open spec fn has_uppercase(s: Seq<char>) -> bool {
    exists|i: int| 0 <= i < s.len() && is_ascii_uppercase_char(s[i])
}

pub open spec fn has_lowercase(s: Seq<char>) -> bool {
    exists|i: int| 0 <= i < s.len() && is_ascii_lowercase_char(s[i])
}

pub open spec fn has_digit(s: Seq<char>) -> bool {
    exists|i: int| 0 <= i < s.len() && is_ascii_digit_char(s[i])
}

pub open spec fn has_special(s: Seq<char>) -> bool {
    exists|i: int| 0 <= i < s.len() && !is_ascii_alphanumeric_char(s[i])
}

/// Every password rule violated by `s`, in a fixed order. A password must be
/// 8 to 100 characters long and contain at least one ASCII uppercase letter,
/// one lowercase letter, one digit and one non-alphanumeric character.
pub open spec fn password_violations(s: Seq<char>) -> Seq<PasswordError> {
    (if s.len() < 8 {
        seq![PasswordError::TooShort]
    } else {
        Seq::<PasswordError>::empty()
    }) + (if s.len() > 100 {
        seq![PasswordError::TooLong]
    } else {
        Seq::<PasswordError>::empty()
    }) + (if !has_uppercase(s) {
        seq![PasswordError::NoUppercase]
    } else {
        Seq::<PasswordError>::empty()
    }) + (if !has_lowercase(s) {
        seq![PasswordError::NoLowercase]
    } else {
        Seq::<PasswordError>::empty()
    }) + (if !has_digit(s) {
        seq![PasswordError::NoNumbers]
    } else {
        Seq::<PasswordError>::empty()
    }) + (if !has_special(s) {
        seq![PasswordError::NoSpecialCharacters]
    } else {
        Seq::<PasswordError>::empty()
    })
}

/// Every username rule violated by `s`: a username must be 3 to 32 characters
/// long and ASCII alphanumeric throughout; a non-alphanumeric character fails
/// the field once, however often it occurs.
pub open spec fn username_violations(s: Seq<char>) -> Seq<UsernameError> {
    (if s.len() < 3 {
        seq![UsernameError::TooShort]
    } else {
        Seq::<UsernameError>::empty()
    }) + (if s.len() > 32 {
        seq![UsernameError::TooLong]
    } else {
        Seq::<UsernameError>::empty()
    }) + (if has_special(s) {
        seq![UsernameError::NotAlphanumeric]
    } else {
        Seq::<UsernameError>::empty()
    })
}

pub open spec fn is_email_local_char(c: char) -> bool {
    is_ascii_alphanumeric_char(c) || c == '.' || c == '_' || c == '%' || c == '+' || c == '-'
}

pub open spec fn is_email_domain_char(c: char) -> bool {
    is_ascii_alphanumeric_char(c) || c == '-'
}

pub open spec fn is_ascii_alpha_char(c: char) -> bool {
    is_ascii_uppercase_char(c) || is_ascii_lowercase_char(c)
}

/// `dot` is the position of the last dot of a well-shaped domain `d`:
/// dot-separated labels of alphanumeric characters and hyphens, no empty
/// label, ending in an alphabetic top-level label of at least two characters.
pub open spec fn domain_dot_ok(d: Seq<char>, dot: int) -> bool {
    &&& 1 <= dot < d.len()
    &&& d[dot] == '.'
    &&& d.len() - dot - 1 >= 2
    &&& (forall|j: int| dot < j < d.len() ==> is_ascii_alpha_char(#[trigger] d[j]))
    &&& (forall|j: int| 0 <= j < dot ==> (is_email_domain_char(#[trigger] d[j]) || d[j] == '.'))
    &&& d[0] != '.'
    &&& d[dot - 1] != '.'
    &&& (forall|j: int| 0 < j < dot ==> !(#[trigger] d[j] == '.' && d[j - 1] == '.'))
}

/// A conservative domain shape, witnessed by the position of its last dot.
pub open spec fn is_valid_domain(d: Seq<char>) -> bool {
    exists|dot: int| domain_dot_ok(d, dot)
}

/// `at` is the position of the `@` of a well-shaped address `s`: a non-empty
/// local part of alphanumeric characters and `. _ % + -`, one `@`, and a
/// valid domain.
pub open spec fn email_at_ok(s: Seq<char>, at: int) -> bool {
    &&& 0 < at < s.len()
    &&& s[at] == '@'
    &&& (forall|j: int| 0 <= j < at ==> is_email_local_char(#[trigger] s[j]))
    &&& is_valid_domain(s.skip(at + 1))
}

/// A conservative `local@domain.tld` shape.
pub open spec fn is_valid_email_format(s: Seq<char>) -> bool {
    exists|at: int| email_at_ok(s, at)
}

/// Every email rule violated by `s`: length must be 6 to 64 characters, and
/// the shape must match `is_valid_email_format`; both checks always run.
pub open spec fn email_violations(s: Seq<char>) -> Seq<EmailError> {
    (if s.len() < 6 {
        seq![EmailError::TooShort]
    } else {
        Seq::<EmailError>::empty()
    }) + (if s.len() > 64 {
        seq![EmailError::TooLong]
    } else {
        Seq::<EmailError>::empty()
    }) + (if !is_valid_email_format(s) {
        seq![EmailError::InvalidFormat]
    } else {
        Seq::<EmailError>::empty()
    })
}

/// For a password of acceptable length, the violation list has exactly one
/// entry per missing character class, so its length is the number of
/// missing classes, and each class appears exactly when it is missing.
pub proof fn lemma_password_missing_classes(s: Seq<char>)
    requires
        8 <= s.len() <= 100,
    ensures
        password_violations(s).len() == (if has_uppercase(s) {
            0int
        } else {
            1int
        }) + (if has_lowercase(s) {
            0int
        } else {
            1int
        }) + (if has_digit(s) {
            0int
        } else {
            1int
        }) + (if has_special(s) {
            0int
        } else {
            1int
        }),
        password_violations(s).contains(PasswordError::NoUppercase) <==> !has_uppercase(s),
        password_violations(s).contains(PasswordError::NoLowercase) <==> !has_lowercase(s),
        password_violations(s).contains(PasswordError::NoNumbers) <==> !has_digit(s),
        password_violations(s).contains(PasswordError::NoSpecialCharacters) <==> !has_special(s),
{
    let v = password_violations(s);
    assert forall|e: PasswordError| v.contains(e) implies (e == PasswordError::NoUppercase
        && !has_uppercase(s)) || (e == PasswordError::NoLowercase && !has_lowercase(s)) || (e
        == PasswordError::NoNumbers && !has_digit(s)) || (e
        == PasswordError::NoSpecialCharacters && !has_special(s)) by {
        let i = choose|i: int| 0 <= i < v.len() && v[i] == e;
        assert(v[i] == e);
    }
    if !has_uppercase(s) {
        assert(v.contains(PasswordError::NoUppercase)) by {
            let k: int = if s.len() < 8 {
                1
            } else {
                0
            };
            assert(v[k] == PasswordError::NoUppercase);
        }
    }
    if !has_lowercase(s) {
        let k: int = if has_uppercase(s) {
            0
        } else {
            1
        };
        assert(v[k] == PasswordError::NoLowercase);
        assert(v.contains(PasswordError::NoLowercase));
    }
    if !has_digit(s) {
        let k: int = (if has_uppercase(s) {
            0int
        } else {
            1int
        }) + (if has_lowercase(s) {
            0int
        } else {
            1int
        });
        assert(v[k] == PasswordError::NoNumbers);
        assert(v.contains(PasswordError::NoNumbers));
    }
    if !has_special(s) {
        let k: int = (if has_uppercase(s) {
            0int
        } else {
            1int
        }) + (if has_lowercase(s) {
            0int
        } else {
            1int
        }) + (if has_digit(s) {
            0int
        } else {
            1int
        });
        assert(v[k] == PasswordError::NoSpecialCharacters);
        assert(v.contains(PasswordError::NoSpecialCharacters));
    }
}

/// Checks a password against every rule and returns the full list of
/// violations, in the order of `password_violations`.
pub fn validate_password(password: &str) -> (r: Result<(), Vec<PasswordError>>)
    ensures
        match r {
            Ok(()) => password_violations(password@).len() == 0,
            Err(v) => v@ == password_violations(password@) && v@.len() > 0,
        },
{
    let len = password.unicode_len();
    let mut upper = false;
    let mut lower = false;
    let mut digit = false;
    let mut special = false;
    let mut i: usize = 0;
    while i < len
        invariant
            len == password@.len(),
            0 <= i <= len,
            upper <==> exists|j: int| 0 <= j < i && is_ascii_uppercase_char(password@[j]),
            lower <==> exists|j: int| 0 <= j < i && is_ascii_lowercase_char(password@[j]),
            digit <==> exists|j: int| 0 <= j < i && is_ascii_digit_char(password@[j]),
            special <==> exists|j: int| 0 <= j < i && !is_ascii_alphanumeric_char(password@[j]),
        decreases len - i,
    {
        let c = password.get_char(i) as u32;
        if 65 <= c && c <= 90 {
            upper = true;
        } else if 97 <= c && c <= 122 {
            lower = true;
        } else if 48 <= c && c <= 57 {
            digit = true;
        } else {
            special = true;
        }
        i += 1;
    }
    assert(upper == has_uppercase(password@));
    assert(lower == has_lowercase(password@));
    assert(digit == has_digit(password@));
    assert(special == has_special(password@));
    let mut v: Vec<PasswordError> = Vec::new();
    if len < 8 {
        v.push(PasswordError::TooShort);
    }
    if len > 100 {
        v.push(PasswordError::TooLong);
    }
    if !upper {
        v.push(PasswordError::NoUppercase);
    }
    if !lower {
        v.push(PasswordError::NoLowercase);
    }
    if !digit {
        v.push(PasswordError::NoNumbers);
    }
    if !special {
        v.push(PasswordError::NoSpecialCharacters);
    }
    assert(v@ =~= password_violations(password@));
    if v.len() == 0 {
        Ok(())
    } else {
        Err(v)
    }
}

/// Checks a username against every rule and returns the full list of
/// violations, in the order of `username_violations`.
pub fn validate_username(username: &str) -> (r: Result<(), Vec<UsernameError>>)
    ensures
        match r {
            Ok(()) => username_violations(username@).len() == 0,
            Err(v) => v@ == username_violations(username@) && v@.len() > 0,
        },
{
    let len = username.unicode_len();
    let mut special = false;
    let mut i: usize = 0;
    while i < len
        invariant
            len == username@.len(),
            0 <= i <= len,
            special <==> exists|j: int| 0 <= j < i && !is_ascii_alphanumeric_char(username@[j]),
        decreases len - i,
    {
        let c = username.get_char(i) as u32;
        if !(65 <= c && c <= 90 || 97 <= c && c <= 122 || 48 <= c && c <= 57) {
            special = true;
        }
        i += 1;
    }
    assert(special == has_special(username@));
    let mut v: Vec<UsernameError> = Vec::new();
    if len < 3 {
        v.push(UsernameError::TooShort);
    }
    if len > 32 {
        v.push(UsernameError::TooLong);
    }
    if special {
        v.push(UsernameError::NotAlphanumeric);
    }
    assert(v@ =~= username_violations(username@));
    if v.len() == 0 {
        Ok(())
    } else {
        Err(v)
    }
}

/// Returns the index of the first occurrence of `c` in `s`, if any.
fn find_char(s: &str, c: char) -> (r: Option<usize>)
    ensures
        match r {
            Some(i) => i < s@.len() && s@[i as int] == c && (forall|j: int|
                0 <= j < i ==> s@[j] != c),
            None => forall|j: int| 0 <= j < s@.len() ==> s@[j] != c,
        },
{
    let len = s.unicode_len();
    let mut i: usize = 0;
    while i < len
        invariant
            i <= len,
            len == s@.len(),
            forall|j: int| 0 <= j < i ==> s@[j] != c,
        decreases len - i,
    {
        if s.get_char(i) == c {
            return Some(i);
        }
        i += 1;
    }
    None
}

/// A well-shaped domain determines the position of its last dot, so two
/// witnesses cannot differ.
proof fn lemma_domain_dot_unique(d: Seq<char>, ld: int, dot2: int)
    requires
        0 <= ld < d.len(),
        d[ld] == '.',
        forall|j: int| ld < j < d.len() ==> d[j] != '.',
        domain_dot_ok(d, dot2),
    ensures
        dot2 == ld,
{
    if dot2 < ld {
        assert(is_ascii_alpha_char(d[ld]));
        assert(false);
    }
    if dot2 > ld {
        assert(d[dot2] != '.');
        assert(false);
    }
}

/// Checks `email[start ..]` against the domain shape of `domain_dot_ok`.
fn domain_ok(email: &str, start: usize, len: usize) -> (r: bool)
    requires
        start <= email@.len(),
        len == email@.len(),
    ensures
        r == is_valid_domain(email@.skip(start as int)),
{
    let ghost d = email@.skip(start as int);
    proof {
        assert(d.len() == len - start);
        assert(forall|j: int| 0 <= j < d.len() ==> d[j] == email@[start + j]);
    }
    let dl = len - start;
    let mut k: usize = 0;
    let mut last_dot: usize = 0;
    let mut have_dot = false;
    while k < dl
        invariant
            k <= dl,
            start + dl == len,
            len == email@.len(),
            d == email@.skip(start as int),
            d.len() == dl,
            forall|j: int| 0 <= j < d.len() ==> d[j] == email@[start + j],
            have_dot ==> last_dot < k && d[last_dot as int] == '.',
            have_dot ==> forall|j: int| last_dot < j < k ==> d[j] != '.',
            !have_dot ==> forall|j: int| 0 <= j < k ==> d[j] != '.',
            forall|j: int|
                0 <= j < k ==> (is_email_domain_char(#[trigger] d[j]) || d[j] == '.'),
        decreases dl - k,
    {
        let c = email.get_char(start + k);
        proof {
            assert(d[k as int] == email@[start + k]);
        }
        let cu = c as u32;
        if !(65 <= cu && cu <= 90 || 97 <= cu && cu <= 122 || 48 <= cu && cu <= 57 || c == '-'
            || c == '.') {
            proof {
                assert forall|dot2: int| !domain_dot_ok(d, dot2) by {
                    if domain_dot_ok(d, dot2) {
                        if k < dot2 {
                            assert(is_email_domain_char(d[k as int]) || d[k as int] == '.');
                        } else if k == dot2 {
                            assert(d[dot2] == '.');
                        } else {
                            assert(is_ascii_alpha_char(d[k as int]));
                        }
                        assert(false);
                    }
                }
            }
            return false;
        }
        if c == '.' {
            last_dot = k;
            have_dot = true;
        }
        k += 1;
    }
    if !have_dot {
        proof {
            assert forall|dot2: int| !domain_dot_ok(d, dot2) by {
                if domain_dot_ok(d, dot2) {
                    assert(d[dot2] == '.');
                    assert(false);
                }
            }
        }
        return false;
    }
    let ld = last_dot;
    proof {
        assert forall|dot2: int| domain_dot_ok(d, dot2) implies dot2 == ld as int by {
            lemma_domain_dot_unique(d, ld as int, dot2);
        }
    }
    if ld < 1 {
        return false;
    }
    if dl - ld - 1 < 2 {
        return false;
    }
    if email.get_char(start + ld - 1) == '.' {
        proof {
            assert(d[ld - 1] == '.');
        }
        return false;
    }
    if email.get_char(start) == '.' {
        proof {
            assert(d[0] == '.');
        }
        return false;
    }
    let mut j: usize = 1;
    while j < ld
        invariant
            1 <= j,
            j <= ld || ld == 0,
            ld < dl,
            dl == d.len(),
            start + dl == len,
            len == email@.len(),
            d == email@.skip(start as int),
            forall|j2: int| 0 <= j2 < d.len() ==> d[j2] == email@[start + j2],
            d[ld as int] == '.',
            forall|j2: int| ld < j2 < dl ==> d[j2] != '.',
            forall|j2: int| 0 < j2 < j ==> !(#[trigger] d[j2] == '.' && d[j2 - 1] == '.'),
        decreases ld - j,
    {
        if email.get_char(start + j) == '.' && email.get_char(start + j - 1) == '.' {
            proof {
                assert(d[j as int] == '.' && d[j as int - 1] == '.');
                assert forall|dot2: int| !domain_dot_ok(d, dot2) by {
                    if domain_dot_ok(d, dot2) {
                        lemma_domain_dot_unique(d, ld as int, dot2);
                        assert(!(d[j as int] == '.' && d[j as int - 1] == '.'));
                        assert(false);
                    }
                }
            }
            return false;
        }
        j += 1;
    }
    let mut t: usize = ld + 1;
    while t < dl
        invariant
            ld + 1 <= t <= dl,
            ld < dl,
            dl == d.len(),
            start + dl == len,
            len == email@.len(),
            d == email@.skip(start as int),
            forall|j2: int| 0 <= j2 < d.len() ==> d[j2] == email@[start + j2],
            d[ld as int] == '.',
            forall|j2: int| ld < j2 < dl ==> d[j2] != '.',
            forall|j2: int| ld < j2 < t ==> is_ascii_alpha_char(#[trigger] d[j2]),
        decreases dl - t,
    {
        let c = email.get_char(start + t) as u32;
        if !(65 <= c && c <= 90 || 97 <= c && c <= 122) {
            proof {
                assert(!is_ascii_alpha_char(d[t as int]));
                assert forall|dot2: int| !domain_dot_ok(d, dot2) by {
                    if domain_dot_ok(d, dot2) {
                        lemma_domain_dot_unique(d, ld as int, dot2);
                        assert(is_ascii_alpha_char(d[t as int]));
                        assert(false);
                    }
                }
            }
            return false;
        }
        t += 1;
    }
    proof {
        assert(domain_dot_ok(d, ld as int));
    }
    true
}

/// A well-shaped address determines the position of its `@`: it is the first
/// one, since the local part cannot contain `@`.
proof fn lemma_email_at_unique(s: Seq<char>, at: int, at2: int)
    requires
        0 <= at < s.len(),
        s[at] == '@',
        forall|j: int| 0 <= j < at ==> s[j] != '@',
        email_at_ok(s, at2),
    ensures
        at2 == at,
{
    if at2 < at {
        assert(s[at2] == '@');
        assert(false);
    }
    if at2 > at {
        assert(is_email_local_char(s[at]));
        assert(false);
    }
}

/// Checks the full `local@domain.tld` shape.
fn email_format_ok(email: &str) -> (r: bool)
    ensures
        r == is_valid_email_format(email@),
{
    let len = email.unicode_len();
    let at_opt = find_char(email, '@');
    match at_opt {
        None => {
            proof {
                assert forall|at2: int| !email_at_ok(email@, at2) by {
                    if email_at_ok(email@, at2) {
                        assert(email@[at2] == '@');
                        assert(false);
                    }
                }
            }
            false
        },
        Some(at) => {
            proof {
                assert forall|at2: int| email_at_ok(email@, at2) implies at2 == at as int by {
                    lemma_email_at_unique(email@, at as int, at2);
                }
            }
            if at == 0 {
                proof {
                    if is_valid_email_format(email@) {
                        let at2 = choose|at2: int| email_at_ok(email@, at2);
                        lemma_email_at_unique(email@, at as int, at2);
                        assert(false);
                    }
                }
                return false;
            }
            let mut i: usize = 0;
            while i < at
                invariant
                    i <= at,
                    at < email@.len(),
                    len == email@.len(),
                    email@[at as int] == '@',
                    forall|j: int| 0 <= j < at ==> email@[j] != '@',
                    forall|j: int| 0 <= j < i ==> is_email_local_char(#[trigger] email@[j]),
                decreases at - i,
            {
                let c = email.get_char(i);
                let cu = c as u32;
                if !(65 <= cu && cu <= 90 || 97 <= cu && cu <= 122 || 48 <= cu && cu <= 57
                    || c == '.' || c == '_' || c == '%' || c == '+' || c == '-') {
                    proof {
                        assert(!is_email_local_char(email@[i as int]));
                        assert forall|at2: int| !email_at_ok(email@, at2) by {
                            if email_at_ok(email@, at2) {
                                lemma_email_at_unique(email@, at as int, at2);
                                assert(is_email_local_char(email@[i as int]));
                                assert(false);
                            }
                        }
                    }
                    return false;
                }
                i += 1;
            }
            let dom = domain_ok(email, at + 1, len);
            proof {
                if dom {
                    assert(email_at_ok(email@, at as int));
                }
            }
            dom
        },
    }
}

/// Checks an email address against every rule and returns the full list of
/// violations, in the order of `email_violations`.
pub fn validate_email(email: &str) -> (r: Result<(), Vec<EmailError>>)
    ensures
        match r {
            Ok(()) => email_violations(email@).len() == 0,
            Err(v) => v@ == email_violations(email@) && v@.len() > 0,
        },
{
    let len = email.unicode_len();
    let format_ok = email_format_ok(email);
    let mut v: Vec<EmailError> = Vec::new();
    if len < 6 {
        v.push(EmailError::TooShort);
    }
    if len > 64 {
        v.push(EmailError::TooLong);
    }
    if !format_ok {
        v.push(EmailError::InvalidFormat);
    }
    assert(v@ =~= email_violations(email@));
    if v.len() == 0 {
        Ok(())
    } else {
        Err(v)
    }
}

} // verus!
