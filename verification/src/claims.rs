use vstd::prelude::*;
use vstd::utf8::{valid_utf8, decode_utf8, encode_utf8};
use vstd::string::StrSliceExecFns;

use crate::jsontext::{
    esc_bytes, unesc_prefix, dec_digits, parse_u64_prefix, push_bytes, push_escaped, push_dec,
    unescape_from, parse_u64_from, lemma_unesc_esc, lemma_parse_dec, strip_prefix,
    lemma_strip_prefix, lemma_esc_plain, expect_lit, bytes_eq,
};
use crate::model::Role;

verus! {

// The claims carried inside an access token and their canonical JSON frame:
// one object with the fields sub, iss, aud, exp, nbf, iat, username and role
// in exactly that order, strings escaped as in `esc_bytes`, numbers in
// canonical decimal. The strict parser accepts exactly the frames that the
// builder emits, which gives the token round trip its proof.

/// The claims signed inside an access token: subject (the account id),
/// issuer, audience, expiry, not-before and issued-at in seconds since the
/// epoch, plus the account's username and role.
#[derive(Debug, Clone)]
pub struct Claims {
    pub sub: String,
    pub iss: String,
    pub aud: String,
    pub exp: u64,
    pub nbf: u64,
    pub iat: u64,
    pub username: String,
    pub role: Role,
}

/// The mathematical value of a `Claims`.
pub ghost struct ClaimsView {
    pub sub: Seq<char>,
    pub iss: Seq<char>,
    pub aud: Seq<char>,
    pub exp: u64,
    pub nbf: u64,
    pub iat: u64,
    pub username: Seq<char>,
    pub role: Role,
}

impl View for Claims {
    type V = ClaimsView;

    open spec fn view(&self) -> ClaimsView {
        ClaimsView {
            sub: self.sub@,
            iss: self.iss@,
            aud: self.aud@,
            exp: self.exp,
            nbf: self.nbf,
            iat: self.iat,
            username: self.username@,
            role: self.role,
        }
    }
}

/// The canonical name of a role inside a token.
pub open spec fn role_bytes(r: Role) -> Seq<u8> {
    match r {
        Role::ADMIN => seq![65u8, 68u8, 77u8, 73u8, 78u8],  // ADMIN
        Role::USER => seq![85u8, 83u8, 69u8, 82u8],  // USER
    }
}

// The fixed fragments of the claims object, as UTF-8 bytes.
pub open spec fn p_sub() -> Seq<u8> {
    seq![123u8, 34u8, 115u8, 117u8, 98u8, 34u8, 58u8, 34u8]  // {"sub":"
}

pub open spec fn p_iss() -> Seq<u8> {
    seq![44u8, 34u8, 105u8, 115u8, 115u8, 34u8, 58u8, 34u8]  // ,"iss":"
}

pub open spec fn p_aud() -> Seq<u8> {
    seq![44u8, 34u8, 97u8, 117u8, 100u8, 34u8, 58u8, 34u8]  // ,"aud":"
}

pub open spec fn p_exp() -> Seq<u8> {
    seq![44u8, 34u8, 101u8, 120u8, 112u8, 34u8, 58u8]  // ,"exp":
}

pub open spec fn p_nbf() -> Seq<u8> {
    seq![44u8, 34u8, 110u8, 98u8, 102u8, 34u8, 58u8]  // ,"nbf":
}

pub open spec fn p_iat() -> Seq<u8> {
    seq![44u8, 34u8, 105u8, 97u8, 116u8, 34u8, 58u8]  // ,"iat":
}

pub open spec fn p_username() -> Seq<u8> {
    seq![
        44u8,
        34u8,
        117u8,
        115u8,
        101u8,
        114u8,
        110u8,
        97u8,
        109u8,
        101u8,
        34u8,
        58u8,
        34u8,
    ]  // ,"username":"
}

pub open spec fn p_role() -> Seq<u8> {
    seq![44u8, 34u8, 114u8, 111u8, 108u8, 101u8, 34u8, 58u8, 34u8]  // ,"role":"
}

pub open spec fn p_end() -> Seq<u8> {
    seq![125u8]  // }
}

pub open spec fn quote() -> Seq<u8> {
    seq![34u8]
}

/// The canonical JSON frame of a claims value.
pub open spec fn claims_json(c: ClaimsView) -> Seq<u8> {
    p_sub() + esc_bytes(encode_utf8(c.sub)) + quote() + p_iss() + esc_bytes(encode_utf8(c.iss))
        + quote() + p_aud() + esc_bytes(encode_utf8(c.aud)) + quote() + p_exp() + dec_digits(
        c.exp as nat,
    ) + p_nbf() + dec_digits(c.nbf as nat) + p_iat() + dec_digits(c.iat as nat) + p_username()
        + esc_bytes(encode_utf8(c.username)) + quote() + p_role() + role_bytes(c.role) + quote()
        + p_end()
}

/// Builds the canonical JSON frame of `c`.
pub fn build_claims_json(c: &Claims) -> (r: Vec<u8>)
    ensures
        r@ == claims_json(c@),
{
    let mut out: Vec<u8> = Vec::new();
    push_bytes(&mut out, &[123, 34, 115, 117, 98, 34, 58, 34]);
    proof {
        assert(out@ =~= p_sub());
    }
    let sub_bytes = c.sub.as_str().as_bytes_vec();
    push_escaped(&mut out, &sub_bytes);
    push_bytes(&mut out, &[34, 44, 34, 105, 115, 115, 34, 58, 34]);
    proof {
        assert(out@ =~= p_sub() + esc_bytes(encode_utf8(c.sub@)) + quote() + p_iss());
    }
    let iss_bytes = c.iss.as_str().as_bytes_vec();
    push_escaped(&mut out, &iss_bytes);
    push_bytes(&mut out, &[34, 44, 34, 97, 117, 100, 34, 58, 34]);
    proof {
        assert(out@ =~= p_sub() + esc_bytes(encode_utf8(c.sub@)) + quote() + p_iss() + esc_bytes(
            encode_utf8(c.iss@),
        ) + quote() + p_aud());
    }
    let aud_bytes = c.aud.as_str().as_bytes_vec();
    push_escaped(&mut out, &aud_bytes);
    push_bytes(&mut out, &[34, 44, 34, 101, 120, 112, 34, 58]);
    push_dec(&mut out, c.exp);
    push_bytes(&mut out, &[44, 34, 110, 98, 102, 34, 58]);
    push_dec(&mut out, c.nbf);
    push_bytes(&mut out, &[44, 34, 105, 97, 116, 34, 58]);
    push_dec(&mut out, c.iat);
    proof {
        assert(out@ =~= p_sub() + esc_bytes(encode_utf8(c.sub@)) + quote() + p_iss() + esc_bytes(
            encode_utf8(c.iss@),
        ) + quote() + p_aud() + esc_bytes(encode_utf8(c.aud@)) + quote() + p_exp() + dec_digits(
            c.exp as nat,
        ) + p_nbf() + dec_digits(c.nbf as nat) + p_iat() + dec_digits(c.iat as nat));
    }
    push_bytes(&mut out, &[44, 34, 117, 115, 101, 114, 110, 97, 109, 101, 34, 58, 34]);
    let username_bytes = c.username.as_str().as_bytes_vec();
    push_escaped(&mut out, &username_bytes);
    push_bytes(&mut out, &[34, 44, 34, 114, 111, 108, 101, 34, 58, 34]);
    match c.role {
        Role::ADMIN => push_bytes(&mut out, &[65, 68, 77, 73, 78]),
        Role::USER => push_bytes(&mut out, &[85, 83, 69, 82]),
    }
    push_bytes(&mut out, &[34, 125]);
    proof {
        assert(out@ =~= claims_json(c@));
    }
    out
}

/// Strict parsing of a canonical claims frame, in stages: the three string
/// fields, the three numbers, then username and role, then the final
/// checks. The fixed fragments must appear in their fixed order, strings
/// are unescaped, numbers canonical, the role one of its two names, every
/// string field valid UTF-8, and nothing may follow the closing brace.
pub open spec fn parse_claims_strings(s: Seq<u8>) -> Option<(Seq<u8>, Seq<u8>, Seq<u8>, Seq<u8>)> {
    match strip_prefix(s, p_sub()) {
        None => None,
        Some(s1) => match unesc_prefix(s1) {
            None => None,
            Some((sub_b, s2)) => match strip_prefix(s2, p_iss()) {
                None => None,
                Some(s3) => match unesc_prefix(s3) {
                    None => None,
                    Some((iss_b, s4)) => match strip_prefix(s4, p_aud()) {
                        None => None,
                        Some(s5) => match unesc_prefix(s5) {
                            None => None,
                            Some((aud_b, s6)) => Some((sub_b, iss_b, aud_b, s6)),
                        },
                    },
                },
            },
        },
    }
}

pub open spec fn parse_claims_numbers(s: Seq<u8>) -> Option<(u64, u64, u64, Seq<u8>)> {
    match strip_prefix(s, p_exp()) {
        None => None,
        Some(s7) => match parse_u64_prefix(s7) {
            None => None,
            Some((exp, s8)) => match strip_prefix(s8, p_nbf()) {
                None => None,
                Some(s9) => match parse_u64_prefix(s9) {
                    None => None,
                    Some((nbf, s10)) => match strip_prefix(s10, p_iat()) {
                        None => None,
                        Some(s11) => match parse_u64_prefix(s11) {
                            None => None,
                            Some((iat, s12)) => Some((exp, nbf, iat, s12)),
                        },
                    },
                },
            },
        },
    }
}

pub open spec fn parse_claims_user_role(s: Seq<u8>) -> Option<(Seq<u8>, Seq<u8>, Seq<u8>)> {
    match strip_prefix(s, p_username()) {
        None => None,
        Some(s13) => match unesc_prefix(s13) {
            None => None,
            Some((user_b, s14)) => match strip_prefix(s14, p_role()) {
                None => None,
                Some(s15) => match unesc_prefix(s15) {
                    None => None,
                    Some((role_b, s16)) => Some((user_b, role_b, s16)),
                },
            },
        },
    }
}

pub open spec fn parse_claims_json(s: Seq<u8>) -> Option<ClaimsView> {
    match parse_claims_strings(s) {
        None => None,
        Some((sub_b, iss_b, aud_b, s6)) => match parse_claims_numbers(s6) {
            None => None,
            Some((exp, nbf, iat, s12)) => match parse_claims_user_role(s12) {
                None => None,
                Some((user_b, role_b, s16)) => parse_claims_tail(
                    sub_b,
                    iss_b,
                    aud_b,
                    exp,
                    nbf,
                    iat,
                    user_b,
                    role_b,
                    s16,
                ),
            },
        },
    }
}

/// The final checks of claims parsing: the closing brace ends the input, the
/// string fields are UTF-8 and the role has one of its two names.
pub open spec fn parse_claims_tail(
    sub_b: Seq<u8>,
    iss_b: Seq<u8>,
    aud_b: Seq<u8>,
    exp: u64,
    nbf: u64,
    iat: u64,
    user_b: Seq<u8>,
    role_b: Seq<u8>,
    s16: Seq<u8>,
) -> Option<ClaimsView> {
    match strip_prefix(s16, p_end()) {
        None => None,
        Some(s17) => if s17.len() != 0 {
            None
        } else if !(valid_utf8(sub_b) && valid_utf8(iss_b) && valid_utf8(aud_b) && valid_utf8(
            user_b,
        )) {
            None
        } else if role_b == role_bytes(Role::ADMIN) {
            Some(
                ClaimsView {
                    sub: decode_utf8(sub_b),
                    iss: decode_utf8(iss_b),
                    aud: decode_utf8(aud_b),
                    exp,
                    nbf,
                    iat,
                    username: decode_utf8(user_b),
                    role: Role::ADMIN,
                },
            )
        } else if role_b == role_bytes(Role::USER) {
            Some(
                ClaimsView {
                    sub: decode_utf8(sub_b),
                    iss: decode_utf8(iss_b),
                    aud: decode_utf8(aud_b),
                    exp,
                    nbf,
                    iat,
                    username: decode_utf8(user_b),
                    role: Role::USER,
                },
            )
        } else {
            None
        },
    }
}

/// The frame from its expiry field on: numbers, then username and role,
/// grouped so that each fragment heads its own suffix.
spec fn frame_from_exp(c: ClaimsView) -> Seq<u8> {
    p_exp() + (dec_digits(c.exp as nat) + (p_nbf() + (dec_digits(c.nbf as nat) + (p_iat() + (
    dec_digits(c.iat as nat) + frame_from_username(c))))))
}

/// The frame from its username field on.
spec fn frame_from_username(c: ClaimsView) -> Seq<u8> {
    p_username() + (esc_bytes(encode_utf8(c.username)) + (quote() + (p_role() + (role_bytes(
        c.role,
    ) + (quote() + p_end())))))
}

/// Concatenation of byte strings associates.
proof fn lemma_seq_assoc(x: Seq<u8>, y: Seq<u8>, z: Seq<u8>)
    ensures
        (x + y) + z == x + (y + z),
{
    assert((x + y) + z =~= x + (y + z));
}

/// The canonical frame regrouped, one associativity step at a time, so that
/// each fixed fragment heads its own suffix: the shape the parsing proof
/// peels one stage at a time.
proof fn lemma_claims_frame_shape(c: ClaimsView)
    ensures
        claims_json(c) == p_sub() + (esc_bytes(encode_utf8(c.sub)) + (quote() + (p_iss() + (
        esc_bytes(encode_utf8(c.iss)) + (quote() + (p_aud() + (esc_bytes(encode_utf8(c.aud)) + (
        quote() + frame_from_exp(c))))))))),
{
    let e_s = esc_bytes(encode_utf8(c.sub));
    let q = quote();
    let e_i = esc_bytes(encode_utf8(c.iss));
    let e_a = esc_bytes(encode_utf8(c.aud));
    let d_e = dec_digits(c.exp as nat);
    let d_n = dec_digits(c.nbf as nat);
    let d_i = dec_digits(c.iat as nat);
    let e_u = esc_bytes(encode_utf8(c.username));
    let rb = role_bytes(c.role);
    let fl1 = p_sub();
    let fl2 = fl1 + e_s;
    let fl3 = fl2 + q;
    let fl4 = fl3 + p_iss();
    let fl5 = fl4 + e_i;
    let fl6 = fl5 + q;
    let fl7 = fl6 + p_aud();
    let fl8 = fl7 + e_a;
    let fl9 = fl8 + q;
    let fl10 = fl9 + p_exp();
    let fl11 = fl10 + d_e;
    let fl12 = fl11 + p_nbf();
    let fl13 = fl12 + d_n;
    let fl14 = fl13 + p_iat();
    let fl15 = fl14 + d_i;
    let fl16 = fl15 + p_username();
    let fl17 = fl16 + e_u;
    let fl18 = fl17 + q;
    let fl19 = fl18 + p_role();
    let fl20 = fl19 + rb;
    let fl21 = fl20 + q;
    let fl22 = fl21 + p_end();
    assert(claims_json(c) == fl22);
    let r22 = p_end();
    assert(claims_json(c) == fl21 + r22);
    lemma_seq_assoc(fl20, q, r22);
    let r21 = q + r22;
    assert(claims_json(c) == fl20 + r21);
    lemma_seq_assoc(fl19, rb, r21);
    let r20 = rb + r21;
    assert(claims_json(c) == fl19 + r20);
    lemma_seq_assoc(fl18, p_role(), r20);
    let r19 = p_role() + r20;
    assert(claims_json(c) == fl18 + r19);
    lemma_seq_assoc(fl17, q, r19);
    let r18 = q + r19;
    assert(claims_json(c) == fl17 + r18);
    lemma_seq_assoc(fl16, e_u, r18);
    let r17 = e_u + r18;
    assert(claims_json(c) == fl16 + r17);
    lemma_seq_assoc(fl15, p_username(), r17);
    let r16 = p_username() + r17;
    assert(claims_json(c) == fl15 + r16);
    lemma_seq_assoc(fl14, d_i, r16);
    let r15 = d_i + r16;
    assert(claims_json(c) == fl14 + r15);
    lemma_seq_assoc(fl13, p_iat(), r15);
    let r14 = p_iat() + r15;
    assert(claims_json(c) == fl13 + r14);
    lemma_seq_assoc(fl12, d_n, r14);
    let r13 = d_n + r14;
    assert(claims_json(c) == fl12 + r13);
    lemma_seq_assoc(fl11, p_nbf(), r13);
    let r12 = p_nbf() + r13;
    assert(claims_json(c) == fl11 + r12);
    lemma_seq_assoc(fl10, d_e, r12);
    let r11 = d_e + r12;
    assert(claims_json(c) == fl10 + r11);
    lemma_seq_assoc(fl9, p_exp(), r11);
    let r10 = p_exp() + r11;
    assert(claims_json(c) == fl9 + r10);
    lemma_seq_assoc(fl8, q, r10);
    let r9 = q + r10;
    assert(claims_json(c) == fl8 + r9);
    lemma_seq_assoc(fl7, e_a, r9);
    let r8 = e_a + r9;
    assert(claims_json(c) == fl7 + r8);
    lemma_seq_assoc(fl6, p_aud(), r8);
    let r7 = p_aud() + r8;
    assert(claims_json(c) == fl6 + r7);
    lemma_seq_assoc(fl5, q, r7);
    let r6 = q + r7;
    assert(claims_json(c) == fl5 + r6);
    lemma_seq_assoc(fl4, e_i, r6);
    let r5 = e_i + r6;
    assert(claims_json(c) == fl4 + r5);
    lemma_seq_assoc(fl3, p_iss(), r5);
    let r4 = p_iss() + r5;
    assert(claims_json(c) == fl3 + r4);
    lemma_seq_assoc(fl2, q, r4);
    let r3 = q + r4;
    assert(claims_json(c) == fl2 + r3);
    lemma_seq_assoc(fl1, e_s, r3);
    let r2 = e_s + r3;
    assert(claims_json(c) == fl1 + r2);
    assert(claims_json(c) == p_sub() + (e_s + (q + (p_iss() + (e_i + (q + (p_aud() + (e_a + (q + (p_exp() + (d_e + (p_nbf() + (d_n + (p_iat() + (d_i + (p_username() + (e_u + (q + (p_role() + (rb + (q + (p_end()))))))))))))))))))))));
}

/// Stage one of the round trip: the three string fields parse back out of
/// the canonical frame, leaving the numbers suffix.
#[verifier::rlimit(100)]
proof fn lemma_claims_strings_round_trip(c: ClaimsView)
    ensures
        parse_claims_strings(claims_json(c)) == Some(
            (encode_utf8(c.sub), encode_utf8(c.iss), encode_utf8(c.aud), frame_from_exp(c)),
        ),
{
    let w = claims_json(c);
    let sub_b = encode_utf8(c.sub);
    let iss_b = encode_utf8(c.iss);
    let aud_b = encode_utf8(c.aud);
    let t6 = frame_from_exp(c);
    let t5 = esc_bytes(aud_b) + (quote() + t6);
    let t4 = p_aud() + t5;
    let t3 = esc_bytes(iss_b) + (quote() + t4);
    let t2 = p_iss() + t3;
    let t1 = esc_bytes(sub_b) + (quote() + t2);
    lemma_claims_frame_shape(c);
    assert(w == p_sub() + t1);
    lemma_strip_prefix(p_sub(), t1);
    assert(strip_prefix(w, p_sub()) == Some(t1));
    assert(t1 =~= esc_bytes(sub_b) + seq![34u8] + t2);
    lemma_unesc_esc(sub_b, t2);
    assert(unesc_prefix(t1) == Some((sub_b, t2)));
    lemma_strip_prefix(p_iss(), t3);
    assert(strip_prefix(t2, p_iss()) == Some(t3));
    assert(t3 =~= esc_bytes(iss_b) + seq![34u8] + t4);
    lemma_unesc_esc(iss_b, t4);
    assert(unesc_prefix(t3) == Some((iss_b, t4)));
    lemma_strip_prefix(p_aud(), t5);
    assert(strip_prefix(t4, p_aud()) == Some(t5));
    assert(t5 =~= esc_bytes(aud_b) + seq![34u8] + t6);
    lemma_unesc_esc(aud_b, t6);
    assert(unesc_prefix(t5) == Some((aud_b, t6)));
    assert(parse_claims_strings(w) == Some((sub_b, iss_b, aud_b, t6)));
}

/// Stage two: the three numbers parse back, leaving the username suffix.
#[verifier::rlimit(100)]
proof fn lemma_claims_numbers_round_trip(c: ClaimsView)
    ensures
        parse_claims_numbers(frame_from_exp(c)) == Some(
            (c.exp, c.nbf, c.iat, frame_from_username(c)),
        ),
{
    let t12 = frame_from_username(c);
    let t11 = dec_digits(c.iat as nat) + t12;
    let t10 = p_iat() + t11;
    let t9 = dec_digits(c.nbf as nat) + t10;
    let t8 = p_nbf() + t9;
    let t7 = dec_digits(c.exp as nat) + t8;
    let t6 = frame_from_exp(c);
    assert(t6 == p_exp() + t7);
    lemma_strip_prefix(p_exp(), t7);
    assert(strip_prefix(t6, p_exp()) == Some(t7));
    assert(t8[0] == 44);
    lemma_parse_dec(c.exp, t8);
    assert(parse_u64_prefix(t7) == Some((c.exp, t8)));
    lemma_strip_prefix(p_nbf(), t9);
    assert(strip_prefix(t8, p_nbf()) == Some(t9));
    assert(t10[0] == 44);
    lemma_parse_dec(c.nbf, t10);
    assert(parse_u64_prefix(t9) == Some((c.nbf, t10)));
    lemma_strip_prefix(p_iat(), t11);
    assert(strip_prefix(t10, p_iat()) == Some(t11));
    assert(t12[0] == 44);
    lemma_parse_dec(c.iat, t12);
    assert(parse_u64_prefix(t11) == Some((c.iat, t12)));
    assert(parse_claims_numbers(t6) == Some((c.exp, c.nbf, c.iat, t12)));
}

/// Stage three: the username and the role name parse back, leaving just the
/// closing brace.
#[verifier::rlimit(100)]
proof fn lemma_claims_user_role_round_trip(c: ClaimsView)
    ensures
        parse_claims_user_role(frame_from_username(c)) == Some(
            (encode_utf8(c.username), role_bytes(c.role), p_end()),
        ),
{
    let user_b = encode_utf8(c.username);
    let role_b = role_bytes(c.role);
    let t16 = p_end();
    let t15 = role_b + (quote() + t16);
    let t14 = p_role() + t15;
    let t13 = esc_bytes(user_b) + (quote() + t14);
    let t12 = frame_from_username(c);
    assert(t12 == p_username() + t13);
    lemma_strip_prefix(p_username(), t13);
    assert(strip_prefix(t12, p_username()) == Some(t13));
    assert(t13 =~= esc_bytes(user_b) + seq![34u8] + t14);
    lemma_unesc_esc(user_b, t14);
    assert(unesc_prefix(t13) == Some((user_b, t14)));
    lemma_strip_prefix(p_role(), t15);
    assert(strip_prefix(t14, p_role()) == Some(t15));
    assert(forall|i: int| 0 <= i < role_b.len() ==> 32 <= #[trigger] role_b[i] && role_b[i] != 34
        && role_b[i] != 92);
    lemma_esc_plain(role_b);
    assert(t15 =~= esc_bytes(role_b) + seq![34u8] + t16);
    lemma_unesc_esc(role_b, t16);
    assert(unesc_prefix(t15) == Some((role_b, t16)));
    assert(parse_claims_user_role(t12) == Some((user_b, role_b, t16)));
}

/// The final checks of parsing accept exactly the values the builder wrote:
/// the closing brace ends the input, the encoded string fields are UTF-8
/// and decode back, and the role name names the role.
proof fn lemma_claims_tail_eval(c: ClaimsView)
    ensures
        parse_claims_tail(
            encode_utf8(c.sub),
            encode_utf8(c.iss),
            encode_utf8(c.aud),
            c.exp,
            c.nbf,
            c.iat,
            encode_utf8(c.username),
            role_bytes(c.role),
            p_end(),
        ) == Some(c),
{
    assert(p_end() + Seq::<u8>::empty() =~= p_end());
    lemma_strip_prefix(p_end(), Seq::<u8>::empty());
    assert(strip_prefix(p_end(), p_end()) == Some(Seq::<u8>::empty()));
    vstd::utf8::encode_utf8_valid_utf8(c.sub);
    vstd::utf8::encode_utf8_valid_utf8(c.iss);
    vstd::utf8::encode_utf8_valid_utf8(c.aud);
    vstd::utf8::encode_utf8_valid_utf8(c.username);
    vstd::utf8::encode_utf8_decode_utf8(c.sub);
    vstd::utf8::encode_utf8_decode_utf8(c.iss);
    vstd::utf8::encode_utf8_decode_utf8(c.aud);
    vstd::utf8::encode_utf8_decode_utf8(c.username);
    if c.role == Role::USER {
        assert(role_bytes(Role::USER).len() != role_bytes(Role::ADMIN).len());
    }
}

/// Parsing inverts building: the canonical frame of any claims value parses
/// back to exactly that value.
pub proof fn lemma_claims_parse_round_trip(c: ClaimsView)
    ensures
        parse_claims_json(claims_json(c)) == Some(c),
{
    lemma_claims_strings_round_trip(c);
    lemma_claims_numbers_round_trip(c);
    lemma_claims_user_role_round_trip(c);
    lemma_claims_tail_eval(c);
    assert(parse_claims_json(claims_json(c)) == Some(c));
}


/// UTF-8 encoding takes at most four bytes per character.
pub proof fn lemma_encode_utf8_len(chars: Seq<char>)
    ensures
        encode_utf8(chars).len() <= 4 * chars.len(),
    decreases chars.len(),
{
    if chars.len() > 0 {
        lemma_encode_utf8_len(chars.drop_first());
        assert(vstd::utf8::encode_scalar(chars[0] as u32).len() <= 4);
    }
}

/// Relies on String::from_utf8: it succeeds exactly on UTF-8 input and wraps
/// the bytes unchanged, so the result's characters re-encode to the input.
#[verifier::external_body]
fn utf8_to_string(bytes: Vec<u8>) -> (r: Option<String>)
    ensures
        r is Some <==> valid_utf8(bytes@),
        r matches Some(s2) ==> encode_utf8(s2@) == bytes@,
{
    String::from_utf8(bytes).ok()
}

/// Parses a canonical claims frame; accepts exactly what `build_claims_json`
/// emits.
#[verifier::rlimit(100)]
pub fn parse_claims(s: &Vec<u8>) -> (r: Option<Claims>)
    ensures
        match r {
            Some(c) => parse_claims_json(s@) == Some(c@),
            None => parse_claims_json(s@) is None,
        },
{
    proof {
        assert(s@.skip(0) =~= s@);
    }
    let l_sub = [123u8, 34, 115, 117, 98, 34, 58, 34];
    let l_iss = [44u8, 34, 105, 115, 115, 34, 58, 34];
    let l_aud = [44u8, 34, 97, 117, 100, 34, 58, 34];
    let l_exp = [44u8, 34, 101, 120, 112, 34, 58];
    let l_nbf = [44u8, 34, 110, 98, 102, 34, 58];
    let l_iat = [44u8, 34, 105, 97, 116, 34, 58];
    let l_user = [44u8, 34, 117, 115, 101, 114, 110, 97, 109, 101, 34, 58, 34];
    let l_role = [44u8, 34, 114, 111, 108, 101, 34, 58, 34];
    let l_end = [125u8];
    let l_admin = [65u8, 68, 77, 73, 78];
    let l_user_role = [85u8, 83, 69, 82];
    proof {
        assert(l_sub@ =~= p_sub());
        assert(l_iss@ =~= p_iss());
        assert(l_aud@ =~= p_aud());
        assert(l_exp@ =~= p_exp());
        assert(l_nbf@ =~= p_nbf());
        assert(l_iat@ =~= p_iat());
        assert(l_user@ =~= p_username());
        assert(l_role@ =~= p_role());
        assert(l_end@ =~= p_end());
        assert(l_admin@ =~= role_bytes(Role::ADMIN));
        assert(l_user_role@ =~= role_bytes(Role::USER));
    }
    let i1 = match expect_lit(s, 0, &l_sub) {
        Some(j) => j,
        None => {
            return None;
        },
    };
    let (sub_v, i2) = match unescape_from(s, i1) {
        Some(p) => p,
        None => {
            return None;
        },
    };
    let i3 = match expect_lit(s, i2, &l_iss) {
        Some(j) => j,
        None => {
            return None;
        },
    };
    let (iss_v, i4) = match unescape_from(s, i3) {
        Some(p) => p,
        None => {
            return None;
        },
    };
    let i5 = match expect_lit(s, i4, &l_aud) {
        Some(j) => j,
        None => {
            return None;
        },
    };
    let (aud_v, i6) = match unescape_from(s, i5) {
        Some(p) => p,
        None => {
            return None;
        },
    };
    let i7 = match expect_lit(s, i6, &l_exp) {
        Some(j) => j,
        None => {
            return None;
        },
    };
    let (exp, i8) = match parse_u64_from(s, i7) {
        Some(p) => p,
        None => {
            return None;
        },
    };
    let i9 = match expect_lit(s, i8, &l_nbf) {
        Some(j) => j,
        None => {
            return None;
        },
    };
    let (nbf, i10) = match parse_u64_from(s, i9) {
        Some(p) => p,
        None => {
            return None;
        },
    };
    let i11 = match expect_lit(s, i10, &l_iat) {
        Some(j) => j,
        None => {
            return None;
        },
    };
    let (iat, i12) = match parse_u64_from(s, i11) {
        Some(p) => p,
        None => {
            return None;
        },
    };
    let i13 = match expect_lit(s, i12, &l_user) {
        Some(j) => j,
        None => {
            return None;
        },
    };
    let (user_v, i14) = match unescape_from(s, i13) {
        Some(p) => p,
        None => {
            return None;
        },
    };
    let i15 = match expect_lit(s, i14, &l_role) {
        Some(j) => j,
        None => {
            return None;
        },
    };
    let (role_v, i16) = match unescape_from(s, i15) {
        Some(p) => p,
        None => {
            return None;
        },
    };
    let i17 = match expect_lit(s, i16, &l_end) {
        Some(j) => j,
        None => {
            return None;
        },
    };
    if i17 != s.len() {
        return None;
    }
    proof {
        assert(s@.skip(i17 as int).len() == 0);
    }
    let is_admin = bytes_eq(&role_v, &l_admin);
    let is_user = bytes_eq(&role_v, &l_user_role);
    if !is_admin && !is_user {
        return None;
    }
    let role = if is_admin {
        Role::ADMIN
    } else {
        Role::USER
    };
    let ghost sub_b = sub_v@;
    let ghost iss_b = iss_v@;
    let ghost aud_b = aud_v@;
    let ghost user_b = user_v@;
    let sub_s = match utf8_to_string(sub_v) {
        Some(x) => x,
        None => {
            return None;
        },
    };
    let iss_s = match utf8_to_string(iss_v) {
        Some(x) => x,
        None => {
            return None;
        },
    };
    let aud_s = match utf8_to_string(aud_v) {
        Some(x) => x,
        None => {
            return None;
        },
    };
    let user_s = match utf8_to_string(user_v) {
        Some(x) => x,
        None => {
            return None;
        },
    };
    let c = Claims {
        sub: sub_s,
        iss: iss_s,
        aud: aud_s,
        exp,
        nbf,
        iat,
        username: user_s,
        role,
    };
    proof {
        vstd::utf8::encode_utf8_decode_utf8(c.sub@);
        vstd::utf8::encode_utf8_decode_utf8(c.iss@);
        vstd::utf8::encode_utf8_decode_utf8(c.aud@);
        vstd::utf8::encode_utf8_decode_utf8(c.username@);
        assert(parse_claims_strings(s@) == Some((sub_b, iss_b, aud_b, s@.skip(i6 as int))));
        assert(parse_claims_numbers(s@.skip(i6 as int)) == Some(
            (exp, nbf, iat, s@.skip(i12 as int)),
        ));
        assert(parse_claims_user_role(s@.skip(i12 as int)) == Some(
            (user_b, role_v@, s@.skip(i16 as int)),
        ));
        assert(parse_claims_tail(sub_b, iss_b, aud_b, exp, nbf, iat, user_b, role_v@, s@.skip(
            i16 as int,
        )) == Some(c@));
        assert(parse_claims_json(s@) == Some(c@));
    }
    Some(c)
}

} // verus!
