use vstd::prelude::*;

verus! {

// base64url without padding, over bytes: three input bytes become four
// alphabet bytes; a two-byte tail becomes three and a one-byte tail two,
// with the unused low bits of the last alphabet byte required to be zero.

/// The base64url alphabet byte for a 6-bit value.
pub open spec fn b64_char_of(v: u8) -> u8 {
    if v < 26 {
        (v + 65) as u8  // 'A'..'Z'
    } else if v < 52 {
        (v + 71) as u8  // 'a'..'z'
    } else if v < 62 {
        (v - 4) as u8  // '0'..'9'
    } else if v == 62 {
        45u8  // '-'
    } else {
        95u8  // '_'
    }
}

pub open spec fn is_b64_char(c: u8) -> bool {
    ||| 65 <= c <= 90
    ||| 97 <= c <= 122
    ||| 48 <= c <= 57
    ||| c == 45
    ||| c == 95
}

/// The 6-bit value of a base64url alphabet byte.
pub open spec fn b64_val_of(c: u8) -> u8 {
    if 65 <= c <= 90 {
        (c - 65) as u8
    } else if 97 <= c <= 122 {
        (c - 71) as u8
    } else if 48 <= c <= 57 {
        (c + 4) as u8
    } else if c == 45 {
        62u8
    } else {
        63u8
    }
}

/// The four alphabet bytes encoding a full group of three bytes.
pub open spec fn enc3(a: u8, b: u8, c: u8) -> Seq<u8> {
    seq![
        b64_char_of(a >> 2),
        b64_char_of((a & 3) << 4 | b >> 4),
        b64_char_of((b & 15) << 2 | c >> 6),
        b64_char_of(c & 63),
    ]
}

pub open spec fn b64_encode(s: Seq<u8>) -> Seq<u8>
    decreases s.len(),
{
    if s.len() >= 3 {
        enc3(s[0], s[1], s[2]) + b64_encode(s.skip(3))
    } else if s.len() == 2 {
        seq![
            b64_char_of(s[0] >> 2),
            b64_char_of((s[0] & 3) << 4 | s[1] >> 4),
            b64_char_of((s[1] & 15) << 2),
        ]
    } else if s.len() == 1 {
        seq![b64_char_of(s[0] >> 2), b64_char_of((s[0] & 3) << 4)]
    } else {
        Seq::<u8>::empty()
    }
}

/// The three bytes encoded by a full group of four alphabet bytes.
pub open spec fn dec4(c0: u8, c1: u8, c2: u8, c3: u8) -> Seq<u8> {
    seq![
        b64_val_of(c0) << 2 | b64_val_of(c1) >> 4,
        (b64_val_of(c1) & 15) << 4 | b64_val_of(c2) >> 2,
        (b64_val_of(c2) & 3) << 6 | b64_val_of(c3),
    ]
}

/// Strict base64url decoding: rejects non-alphabet bytes, impossible lengths
/// and non-zero trailing bits, so exactly the outputs of `b64_encode` are
/// accepted.
pub open spec fn b64_decode(s: Seq<u8>) -> Option<Seq<u8>>
    decreases s.len(),
{
    if s.len() == 0 {
        Some(Seq::<u8>::empty())
    } else if s.len() == 1 {
        None
    } else if s.len() == 2 {
        if is_b64_char(s[0]) && is_b64_char(s[1]) && b64_val_of(s[1]) & 15 == 0 {
            Some(seq![b64_val_of(s[0]) << 2 | b64_val_of(s[1]) >> 4])
        } else {
            None
        }
    } else if s.len() == 3 {
        if is_b64_char(s[0]) && is_b64_char(s[1]) && is_b64_char(s[2]) && b64_val_of(s[2]) & 3
            == 0 {
            Some(
                seq![
                    b64_val_of(s[0]) << 2 | b64_val_of(s[1]) >> 4,
                    (b64_val_of(s[1]) & 15) << 4 | b64_val_of(s[2]) >> 2,
                ],
            )
        } else {
            None
        }
    } else {
        if is_b64_char(s[0]) && is_b64_char(s[1]) && is_b64_char(s[2]) && is_b64_char(s[3]) {
            match b64_decode(s.skip(4)) {
                Some(r) => Some(dec4(s[0], s[1], s[2], s[3]) + r),
                None => None,
            }
        } else {
            None
        }
    }
}

/// The alphabet map is injective: decoding a 6-bit value's alphabet byte
/// gives the value back.
pub proof fn lemma_b64_char_inverse(v: u8)
    requires
        v < 64,
    ensures
        is_b64_char(b64_char_of(v)),
        b64_val_of(b64_char_of(v)) == v,
{
}

/// Every byte of an encoding is an alphabet byte; in particular no encoding
/// contains a dot.
pub proof fn lemma_b64_encode_alphabet(s: Seq<u8>)
    ensures
        forall|i: int|
            0 <= i < b64_encode(s).len() ==> is_b64_char(#[trigger] b64_encode(s)[i]),
    decreases s.len(),
{
    if s.len() >= 3 {
        lemma_b64_encode_alphabet(s.skip(3));
        let a = s[0];
        let b = s[1];
        let c = s[2];
        assert(a >> 2 < 64 && (a & 3) << 4 | b >> 4 < 64 && (b & 15) << 2 | c >> 6 < 64 && c & 63
            < 64) by (bit_vector);
        lemma_b64_char_inverse(a >> 2);
        lemma_b64_char_inverse((a & 3) << 4 | b >> 4);
        lemma_b64_char_inverse((b & 15) << 2 | c >> 6);
        lemma_b64_char_inverse(c & 63);
        assert forall|i: int| 0 <= i < b64_encode(s).len() implies is_b64_char(
            #[trigger] b64_encode(s)[i],
        ) by {
            if i >= 4 {
                assert(b64_encode(s)[i] == b64_encode(s.skip(3))[i - 4]);
            }
        }
    } else if s.len() == 2 {
        let a = s[0];
        let b = s[1];
        assert(a >> 2 < 64 && (a & 3) << 4 | b >> 4 < 64 && (b & 15) << 2 < 64) by (bit_vector);
        lemma_b64_char_inverse(a >> 2);
        lemma_b64_char_inverse((a & 3) << 4 | b >> 4);
        lemma_b64_char_inverse((b & 15) << 2);
    } else if s.len() == 1 {
        let a = s[0];
        assert(a >> 2 < 64 && (a & 3) << 4 < 64) by (bit_vector);
        lemma_b64_char_inverse(a >> 2);
        lemma_b64_char_inverse((a & 3) << 4);
    }
}

/// Strict decoding inverts encoding.
pub proof fn lemma_b64_round_trip(bs: Seq<u8>)
    ensures
        b64_decode(b64_encode(bs)) == Some(bs),
    decreases bs.len(),
{
    let e = b64_encode(bs);
    if bs.len() == 0 {
        assert(bs =~= Seq::<u8>::empty());
    } else if bs.len() == 1 {
        let a = bs[0];
        assert(a >> 2 < 64 && (a & 3) << 4 < 64) by (bit_vector);
        lemma_b64_char_inverse(a >> 2);
        lemma_b64_char_inverse((a & 3) << 4);
        assert(((a & 3) << 4) & 15 == 0) by (bit_vector);
        assert((a >> 2) << 2 | ((a & 3) << 4) >> 4 == a) by (bit_vector);
        assert(b64_decode(e) matches Some(d) && d =~= bs);
    } else if bs.len() == 2 {
        let a = bs[0];
        let b = bs[1];
        assert(a >> 2 < 64 && (a & 3) << 4 | b >> 4 < 64 && (b & 15) << 2 < 64) by (bit_vector);
        lemma_b64_char_inverse(a >> 2);
        lemma_b64_char_inverse((a & 3) << 4 | b >> 4);
        lemma_b64_char_inverse((b & 15) << 2);
        assert(((b & 15) << 2) & 3 == 0) by (bit_vector);
        assert((a >> 2) << 2 | ((a & 3) << 4 | b >> 4) >> 4 == a) by (bit_vector);
        assert((((a & 3) << 4 | b >> 4) & 15) << 4 | ((b & 15) << 2) >> 2 == b) by (bit_vector);
        assert(b64_decode(e) matches Some(d) && d =~= bs);
    } else {
        let a = bs[0];
        let b = bs[1];
        let c = bs[2];
        let rest = b64_encode(bs.skip(3));
        lemma_b64_round_trip(bs.skip(3));
        assert(a >> 2 < 64 && (a & 3) << 4 | b >> 4 < 64 && (b & 15) << 2 | c >> 6 < 64 && c & 63
            < 64) by (bit_vector);
        lemma_b64_char_inverse(a >> 2);
        lemma_b64_char_inverse((a & 3) << 4 | b >> 4);
        lemma_b64_char_inverse((b & 15) << 2 | c >> 6);
        lemma_b64_char_inverse(c & 63);
        assert((a >> 2) << 2 | ((a & 3) << 4 | b >> 4) >> 4 == a) by (bit_vector);
        assert((((a & 3) << 4 | b >> 4) & 15) << 4 | ((b & 15) << 2 | c >> 6) >> 2
            == b) by (bit_vector);
        assert((((b & 15) << 2 | c >> 6) & 3) << 6 | (c & 63) == c) by (bit_vector);
        assert(e.len() == 4 + rest.len());
        assert(e.skip(4) =~= rest);
        assert(e[0] == b64_char_of(a >> 2) && e[1] == b64_char_of((a & 3) << 4 | b >> 4) && e[2]
            == b64_char_of((b & 15) << 2 | c >> 6) && e[3] == b64_char_of(c & 63));
        assert(dec4(e[0], e[1], e[2], e[3]) =~= seq![a, b, c]);
        assert(b64_decode(e) matches Some(d) && d =~= bs);
    }
}

/// Turns a 6-bit value into its alphabet byte.
fn b64_char(v: u8) -> (r: u8)
    requires
        v < 64,
    ensures
        r == b64_char_of(v),
{
    if v < 26 {
        v + 65
    } else if v < 52 {
        v + 71
    } else if v < 62 {
        v - 4
    } else if v == 62 {
        45
    } else {
        95
    }
}

/// Turns an alphabet byte back into its 6-bit value.
fn b64_val(c: u8) -> (r: Option<u8>)
    ensures
        match r {
            Some(v) => is_b64_char(c) && v == b64_val_of(c) && v < 64,
            None => !is_b64_char(c),
        },
{
    if 65 <= c && c <= 90 {
        Some(c - 65)
    } else if 97 <= c && c <= 122 {
        Some(c - 71)
    } else if 48 <= c && c <= 57 {
        Some(c + 4)
    } else if c == 45 {
        Some(62)
    } else if c == 95 {
        Some(63)
    } else {
        None
    }
}

/// Encodes bytes as base64url without padding.
pub fn base64url_encode(s: &Vec<u8>) -> (r: Vec<u8>)
    ensures
        r@ == b64_encode(s@),
{
    let len = s.len();
    let mut out: Vec<u8> = Vec::new();
    let mut i: usize = 0;
    proof {
        assert(s@.skip(0) =~= s@);
        assert(out@ + b64_encode(s@) =~= b64_encode(s@));
    }
    while len - i >= 3
        invariant
            i <= len,
            len == s@.len(),
            b64_encode(s@) == out@ + b64_encode(s@.skip(i as int)),
        decreases len - i,
    {
        let a = s[i];
        let b = s[i + 1];
        let c = s[i + 2];
        proof {
            assert(a >> 2 < 64 && (a & 3) << 4 | b >> 4 < 64 && (b & 15) << 2 | c >> 6 < 64 && c
                & 63 < 64) by (bit_vector);
            assert(s@.skip(i as int).skip(3) =~= s@.skip(i as int + 3));
            assert(s@.skip(i as int)[0] == a && s@.skip(i as int)[1] == b && s@.skip(i as int)[2]
                == c);
        }
        out.push(b64_char(a >> 2));
        out.push(b64_char((a & 3) << 4 | b >> 4));
        out.push(b64_char((b & 15) << 2 | c >> 6));
        out.push(b64_char(c & 63));
        proof {
            assert(b64_encode(s@) =~= out@ + b64_encode(s@.skip(i as int + 3)));
        }
        i += 3;
    }
    if len - i == 2 {
        let a = s[i];
        let b = s[i + 1];
        proof {
            assert(a >> 2 < 64 && (a & 3) << 4 | b >> 4 < 64 && (b & 15) << 2
                < 64) by (bit_vector);
            assert(s@.skip(i as int)[0] == a && s@.skip(i as int)[1] == b);
        }
        out.push(b64_char(a >> 2));
        out.push(b64_char((a & 3) << 4 | b >> 4));
        out.push(b64_char((b & 15) << 2));
        proof {
            assert(b64_encode(s@) =~= out@);
        }
    } else if len - i == 1 {
        let a = s[i];
        proof {
            assert(a >> 2 < 64 && (a & 3) << 4 < 64) by (bit_vector);
            assert(s@.skip(i as int)[0] == a);
        }
        out.push(b64_char(a >> 2));
        out.push(b64_char((a & 3) << 4));
        proof {
            assert(b64_encode(s@) =~= out@);
        }
    } else {
        proof {
            assert(s@.skip(i as int) =~= Seq::<u8>::empty());
            assert(b64_encode(s@) =~= out@);
        }
    }
    out
}

/// Decodes strict base64url without padding; returns `None` exactly when the
/// spec-level decoding rejects the input.
pub fn base64url_decode(s: &Vec<u8>) -> (r: Option<Vec<u8>>)
    ensures
        match r {
            Some(v) => b64_decode(s@) == Some(v@),
            None => b64_decode(s@) is None,
        },
{
    let len = s.len();
    let mut out: Vec<u8> = Vec::new();
    let mut i: usize = 0;
    proof {
        assert(s@.skip(0) =~= s@);
        if let Some(r2) = b64_decode(s@) {
            assert(out@ + r2 =~= r2);
        }
    }
    while len - i >= 4
        invariant
            i <= len,
            len == s@.len(),
            b64_decode(s@) == match b64_decode(s@.skip(i as int)) {
                Some(r2) => Some(out@ + r2),
                None => None::<Seq<u8>>,
            },
        decreases len - i,
    {
        let v0 = match b64_val(s[i]) {
            Some(v) => v,
            None => {
                return None;
            },
        };
        let v1 = match b64_val(s[i + 1]) {
            Some(v) => v,
            None => {
                return None;
            },
        };
        let v2 = match b64_val(s[i + 2]) {
            Some(v) => v,
            None => {
                return None;
            },
        };
        let v3 = match b64_val(s[i + 3]) {
            Some(v) => v,
            None => {
                return None;
            },
        };
        proof {
            assert(s@.skip(i as int).skip(4) =~= s@.skip(i as int + 4));
            assert(s@.skip(i as int)[0] == s@[i as int] && s@.skip(i as int)[1] == s@[i as int
                + 1] && s@.skip(i as int)[2] == s@[i as int + 2] && s@.skip(i as int)[3] == s@[
                i as int + 3]);
        }
        let ghost out0 = out@;
        out.push(v0 << 2 | v1 >> 4);
        out.push((v1 & 15) << 4 | v2 >> 2);
        out.push((v2 & 3) << 6 | v3);
        proof {
            let d = dec4(s@[i as int], s@[i as int + 1], s@[i as int + 2], s@[i as int + 3]);
            assert(out@ =~= out0 + d);
            if let Some(r3) = b64_decode(s@.skip(i as int + 4)) {
                assert(out0 + (d + r3) =~= out@ + r3);
            }
        }
        i += 4;
    }
    if len - i == 1 {
        return None;
    } else if len - i == 2 {
        let v0 = match b64_val(s[i]) {
            Some(v) => v,
            None => {
                return None;
            },
        };
        let v1 = match b64_val(s[i + 1]) {
            Some(v) => v,
            None => {
                return None;
            },
        };
        proof {
            assert(s@.skip(i as int)[0] == s@[i as int] && s@.skip(i as int)[1] == s@[i as int
                + 1]);
        }
        if v1 & 15 != 0 {
            return None;
        }
        let ghost out0 = out@;
        out.push(v0 << 2 | v1 >> 4);
        proof {
            assert(b64_decode(s@.skip(i as int)) matches Some(x) && out@ =~= out0 + x);
        }
    } else if len - i == 3 {
        let v0 = match b64_val(s[i]) {
            Some(v) => v,
            None => {
                return None;
            },
        };
        let v1 = match b64_val(s[i + 1]) {
            Some(v) => v,
            None => {
                return None;
            },
        };
        let v2 = match b64_val(s[i + 2]) {
            Some(v) => v,
            None => {
                return None;
            },
        };
        proof {
            assert(s@.skip(i as int)[0] == s@[i as int] && s@.skip(i as int)[1] == s@[i as int
                + 1] && s@.skip(i as int)[2] == s@[i as int + 2]);
        }
        if v2 & 3 != 0 {
            return None;
        }
        let ghost out0 = out@;
        out.push(v0 << 2 | v1 >> 4);
        out.push((v1 & 15) << 4 | v2 >> 2);
        proof {
            assert(b64_decode(s@.skip(i as int)) matches Some(x) && out@ =~= out0 + x);
        }
    } else {
        proof {
            assert(s@.skip(i as int) =~= Seq::<u8>::empty());
            assert(out@ + Seq::<u8>::empty() =~= out@);
        }
    }
    Some(out)
}

} // verus!
