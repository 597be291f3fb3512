use vstd::prelude::*;

verus! {

// JSON text fragments over UTF-8 bytes: string-body escaping, canonical
// decimal numbers, and the strict parsers that invert them. Only the escapes
// this module emits are accepted back, so parsing composed with printing is
// the identity, which the claims codec relies on.

/// The lowercase hex digit for a value below 16.
pub open spec fn hex_digit(v: u8) -> u8 {
    if v < 10 {
        (v + 48) as u8
    } else {
        (v + 87) as u8
    }
}

pub open spec fn is_lhex(c: u8) -> bool {
    48 <= c <= 57 || 97 <= c <= 102
}

pub open spec fn hex_val(c: u8) -> u8 {
    if 48 <= c <= 57 {
        (c - 48) as u8
    } else {
        (c - 87) as u8
    }
}

/// How one byte of a string is written inside a JSON string body: quotes and
/// backslashes get a two-byte escape, control bytes a `\u00xx` escape, and
/// every other byte stands for itself.
pub open spec fn esc_byte(b: u8) -> Seq<u8> {
    if b == 34 {
        seq![92u8, 34u8]
    } else if b == 92 {
        seq![92u8, 92u8]
    } else if b < 32 {
        seq![92u8, 117u8, 48u8, 48u8, hex_digit(b / 16), hex_digit(b % 16)]
    } else {
        seq![b]
    }
}

pub open spec fn esc_bytes(s: Seq<u8>) -> Seq<u8>
    decreases s.len(),
{
    if s.len() == 0 {
        Seq::<u8>::empty()
    } else {
        esc_byte(s[0]) + esc_bytes(s.skip(1))
    }
}

/// Parses a JSON string body up to and including its closing quote,
/// returning the unescaped content and what follows the quote. Only the
/// escapes of `esc_byte` are accepted, so the accepted bodies are exactly
/// the escaped ones.
pub open spec fn unesc_prefix(s: Seq<u8>) -> Option<(Seq<u8>, Seq<u8>)>
    decreases s.len(),
{
    if s.len() == 0 {
        None
    } else if s[0] == 34 {
        Some((Seq::<u8>::empty(), s.skip(1)))
    } else if s[0] == 92 {
        if s.len() >= 2 && (s[1] == 34 || s[1] == 92) {
            match unesc_prefix(s.skip(2)) {
                Some(p) => Some((seq![s[1]] + p.0, p.1)),
                None => None,
            }
        } else if s.len() >= 6 && s[1] == 117 && s[2] == 48 && s[3] == 48 && is_lhex(s[4])
            && is_lhex(s[5]) && hex_val(s[4]) * 16 + hex_val(s[5]) < 32 {
            match unesc_prefix(s.skip(6)) {
                Some(p) => Some((seq![(hex_val(s[4]) * 16 + hex_val(s[5])) as u8] + p.0, p.1)),
                None => None,
            }
        } else {
            None
        }
    } else if s[0] >= 32 {
        match unesc_prefix(s.skip(1)) {
            Some(p) => Some((seq![s[0]] + p.0, p.1)),
            None => None,
        }
    } else {
        None
    }
}

pub proof fn lemma_hex_inverse(v: u8)
    requires
        v < 16,
    ensures
        is_lhex(hex_digit(v)),
        hex_val(hex_digit(v)) == v,
{
}

/// Unescaping inverts escaping: the escaped string followed by a closing
/// quote and anything else parses back to the string and that remainder.
pub proof fn lemma_unesc_esc(s: Seq<u8>, rest: Seq<u8>)
    ensures
        unesc_prefix(esc_bytes(s) + seq![34u8] + rest) == Some((s, rest)),
    decreases s.len(),
{
    let whole = esc_bytes(s) + seq![34u8] + rest;
    if s.len() == 0 {
        assert(whole =~= seq![34u8] + rest);
        assert(whole[0] == 34);
        assert(whole.skip(1) =~= rest);
        assert(s =~= Seq::<u8>::empty());
    } else {
        let b = s[0];
        let tail = esc_bytes(s.skip(1)) + seq![34u8] + rest;
        lemma_unesc_esc(s.skip(1), rest);
        assert(whole =~= esc_byte(b) + tail);
        if b == 34 || b == 92 {
            assert(whole[0] == 92 && whole[1] == b);
            assert(whole.skip(2) =~= tail);
            assert(seq![b] + s.skip(1) =~= s);
        } else if b < 32 {
            assert(b / 16 < 16 && b % 16 < 16);
            lemma_hex_inverse(b / 16);
            lemma_hex_inverse(b % 16);
            assert(whole[0] == 92 && whole[1] == 117 && whole[2] == 48 && whole[3] == 48
                && whole[4] == hex_digit(b / 16) && whole[5] == hex_digit(b % 16));
            assert(hex_val(whole[4]) * 16 + hex_val(whole[5]) == b);
            assert(whole.skip(6) =~= tail);
            assert(seq![b] + s.skip(1) =~= s);
        } else {
            assert(whole[0] == b);
            assert(whole.skip(1) =~= tail);
            assert(seq![b] + s.skip(1) =~= s);
        }
    }
}

/// The canonical decimal digits of a number, most significant first, with no
/// leading zero except for the number zero itself.
pub open spec fn dec_digits(n: nat) -> Seq<u8>
    decreases n,
{
    if n < 10 {
        seq![(n + 48) as u8]
    } else {
        dec_digits(n / 10) + seq![(n % 10 + 48) as u8]
    }
}

pub open spec fn is_digit(c: u8) -> bool {
    48 <= c <= 57
}

/// The value of a digit string, read most significant first.
pub open spec fn digits_val(s: Seq<u8>) -> nat
    decreases s.len(),
{
    if s.len() == 0 {
        0
    } else {
        digits_val(s.drop_last()) * 10 + (s.last() - 48) as nat
    }
}

/// The number of leading decimal digits.
pub open spec fn digit_run_len(s: Seq<u8>) -> int
    decreases s.len(),
{
    if s.len() > 0 && is_digit(s[0]) {
        1 + digit_run_len(s.skip(1))
    } else {
        0
    }
}

/// Parses a canonical decimal `u64`: a non-empty digit run with no redundant
/// leading zero whose value fits in a `u64`, up to the first non-digit.
pub open spec fn parse_u64_prefix(s: Seq<u8>) -> Option<(u64, Seq<u8>)> {
    let k = digit_run_len(s);
    if k == 0 {
        None
    } else if s[0] == 48 && k != 1 {
        None
    } else if digits_val(s.take(k)) > u64::MAX {
        None
    } else {
        Some(((digits_val(s.take(k)) as u64), s.skip(k)))
    }
}

pub proof fn lemma_dec_digits(n: nat)
    ensures
        dec_digits(n).len() >= 1,
        forall|i: int| 0 <= i < dec_digits(n).len() ==> is_digit(#[trigger] dec_digits(n)[i]),
        (dec_digits(n)[0] == 48) == (n == 0),
        digits_val(dec_digits(n)) == n,
    decreases n,
{
    if n < 10 {
        assert(dec_digits(n) =~= seq![(n + 48) as u8]);
        assert(dec_digits(n).drop_last() =~= Seq::<u8>::empty());
        assert(dec_digits(n).last() == (n + 48) as u8);
        assert(((n + 48) as u8 - 48) as nat == n);
        assert(digits_val(dec_digits(n)) == digits_val(Seq::<u8>::empty()) * 10 + n);
    } else {
        lemma_dec_digits(n / 10);
        let d = dec_digits(n);
        let hi = dec_digits(n / 10);
        assert(d =~= hi + seq![(n % 10 + 48) as u8]);
        assert(d.drop_last() =~= hi);
        assert(d.last() == (n % 10 + 48) as u8);
        assert(d[0] == hi[0]);
        assert(n / 10 > 0);
        assert(((n % 10 + 48) as u8 - 48) as nat == n % 10);
        assert(digits_val(d) == digits_val(hi) * 10 + n % 10);
        assert(digits_val(d) == (n / 10) * 10 + n % 10);
        assert((n / 10) * 10 + n % 10 == n) by (nonlinear_arith);
    }
}

/// A digit run of known content has a known length.
pub proof fn lemma_digit_run(s: Seq<u8>, k: int)
    requires
        0 <= k <= s.len(),
        forall|m: int| 0 <= m < k ==> is_digit(#[trigger] s[m]),
        k == s.len() || !is_digit(s[k]),
    ensures
        digit_run_len(s) == k,
    decreases k,
{
    if k == 0 {
    } else {
        lemma_digit_run(s.skip(1), k - 1);
    }
}

/// Parsing inverts printing: the canonical digits of `n` followed by
/// anything that does not begin with a digit parse back to `n`.
pub proof fn lemma_parse_dec(n: u64, rest: Seq<u8>)
    requires
        rest.len() == 0 || !is_digit(rest[0]),
    ensures
        parse_u64_prefix(dec_digits(n as nat) + rest) == Some((n, rest)),
{
    let d = dec_digits(n as nat);
    let whole = d + rest;
    lemma_dec_digits(n as nat);
    assert forall|m: int| 0 <= m < d.len() implies is_digit(#[trigger] whole[m]) by {
        assert(whole[m] == d[m]);
    }
    if d.len() < whole.len() {
        assert(whole[d.len() as int] == rest[0]);
    }
    lemma_digit_run(whole, d.len() as int);
    assert(whole.take(d.len() as int) =~= d);
    assert(whole.skip(d.len() as int) =~= rest);
    assert(whole[0] == d[0]);
    if n >= 10 {
        assert(d[0] != 48);
    }
}

/// The remainder of `s` after a required literal prefix.
pub open spec fn strip_prefix(s: Seq<u8>, p: Seq<u8>) -> Option<Seq<u8>> {
    if s.len() >= p.len() && s.take(p.len() as int) == p {
        Some(s.skip(p.len() as int))
    } else {
        None
    }
}

pub proof fn lemma_strip_prefix(p: Seq<u8>, rest: Seq<u8>)
    ensures
        strip_prefix(p + rest, p) == Some(rest),
{
    assert((p + rest).take(p.len() as int) =~= p);
    assert((p + rest).skip(p.len() as int) =~= rest);
}

/// Every byte of a plain string body stands for itself when escaped.
pub proof fn lemma_esc_plain(s: Seq<u8>)
    requires
        forall|i: int| 0 <= i < s.len() ==> 32 <= #[trigger] s[i] && s[i] != 34 && s[i] != 92,
    ensures
        esc_bytes(s) =~= s,
    decreases s.len(),
{
    if s.len() == 0 {
    } else {
        lemma_esc_plain(s.skip(1));
        assert(esc_byte(s[0]) =~= seq![s[0]]);
        assert(seq![s[0]] + s.skip(1) =~= s);
    }
}

/// Compares a byte vector with a slice.
pub fn bytes_eq(a: &Vec<u8>, b: &[u8]) -> (r: bool)
    ensures
        r == (a@ == b@),
{
    let n = a.len();
    if n != b.len() {
        return false;
    }
    let mut k: usize = 0;
    while k < n
        invariant
            k <= n,
            n == a@.len(),
            n == b@.len(),
            forall|m: int| 0 <= m < k ==> a@[m] == b@[m],
        decreases n - k,
    {
        if a[k] != b[k] {
            return false;
        }
        k += 1;
    }
    proof {
        assert(a@ =~= b@);
    }
    true
}

/// Consumes a required literal starting at `i`, returning the index just
/// past it.
pub fn expect_lit(s: &Vec<u8>, i: usize, lit: &[u8]) -> (r: Option<usize>)
    requires
        i <= s@.len(),
    ensures
        match r {
            Some(j) => i <= j <= s@.len() && j == i + lit@.len() && strip_prefix(
                s@.skip(i as int),
                lit@,
            ) == Some(s@.skip(j as int)),
            None => strip_prefix(s@.skip(i as int), lit@) is None,
        },
{
    let ghost tail = s@.skip(i as int);
    let n = lit.len();
    if s.len() - i < n {
        return None;
    }
    let mut k: usize = 0;
    while k < n
        invariant
            k <= n,
            i + n <= s@.len(),
            i + n <= usize::MAX,
            n == lit@.len(),
            tail == s@.skip(i as int),
            forall|m: int| 0 <= m < k ==> tail[m] == lit@[m],
        decreases n - k,
    {
        if s[i + k] != lit[k] {
            proof {
                assert(tail[k as int] == s@[i + k]);
                if strip_prefix(tail, lit@) is Some {
                    assert(tail.take(n as int)[k as int] == tail[k as int]);
                }
            }
            return None;
        }
        proof {
            assert(tail[k as int] == s@[i + k]);
        }
        k += 1;
    }
    proof {
        assert(tail.take(n as int) =~= lit@);
        assert(tail.skip(n as int) =~= s@.skip(i + n));
    }
    Some(i + n)
}

/// Appends the bytes of a slice.
pub fn push_bytes(out: &mut Vec<u8>, bytes: &[u8])
    ensures
        final(out)@ == old(out)@ + bytes@,
{
    let n = bytes.len();
    let mut k: usize = 0;
    while k < n
        invariant
            k <= n,
            n == bytes@.len(),
            out@ == old(out)@ + bytes@.take(k as int),
        decreases n - k,
    {
        out.push(bytes[k]);
        proof {
            assert(old(out)@ + bytes@.take(k as int) + seq![bytes@[k as int]] =~= old(out)@
                + bytes@.take(k as int + 1));
        }
        k += 1;
    }
    proof {
        assert(bytes@.take(n as int) =~= bytes@);
    }
}

/// Appends the escaped form of a string body.
pub fn push_escaped(out: &mut Vec<u8>, s: &Vec<u8>)
    ensures
        final(out)@ == old(out)@ + esc_bytes(s@),
{
    let len = s.len();
    let mut i: usize = 0;
    proof {
        assert(s@.skip(0) =~= s@);
    }
    while i < len
        invariant
            i <= len,
            len == s@.len(),
            out@ + esc_bytes(s@.skip(i as int)) == old(out)@ + esc_bytes(s@),
        decreases len - i,
    {
        let b = s[i];
        let ghost out0 = out@;
        if b == 34 {
            out.push(92);
            out.push(34);
        } else if b == 92 {
            out.push(92);
            out.push(92);
        } else if b < 32 {
            out.push(92);
            out.push(117);
            out.push(48);
            out.push(48);
            let hi = b / 16;
            let lo = b % 16;
            out.push(if hi < 10 { hi + 48 } else { hi + 87 });
            out.push(if lo < 10 { lo + 48 } else { lo + 87 });
        } else {
            out.push(b);
        }
        proof {
            assert(out@ =~= out0 + esc_byte(s@[i as int]));
            assert(s@.skip(i as int)[0] == s@[i as int]);
            assert(s@.skip(i as int).skip(1) =~= s@.skip(i as int + 1));
            assert(esc_bytes(s@.skip(i as int)) == esc_byte(s@[i as int]) + esc_bytes(
                s@.skip(i as int + 1),
            ));
            assert(out0 + (esc_byte(s@[i as int]) + esc_bytes(s@.skip(i as int + 1))) =~= out@
                + esc_bytes(s@.skip(i as int + 1)));
        }
        i += 1;
    }
    proof {
        assert(s@.skip(len as int) =~= Seq::<u8>::empty());
        assert(out@ + Seq::<u8>::empty() =~= out@);
    }
}

/// Appends the canonical decimal digits of `n`.
pub fn push_dec(out: &mut Vec<u8>, n: u64)
    ensures
        final(out)@ == old(out)@ + dec_digits(n as nat),
    decreases n,
{
    if n < 10 {
        out.push((n as u8) + 48);
        proof {
            assert(old(out)@ + dec_digits(n as nat) =~= out@);
        }
    } else {
        push_dec(out, n / 10);
        out.push(((n % 10) as u8) + 48);
        proof {
            assert(old(out)@ + dec_digits(n as nat) =~= out@);
        }
    }
}

/// Parses a JSON string body starting at `i`, returning the unescaped
/// content and the index just past the closing quote.
pub fn unescape_from(s: &Vec<u8>, i: usize) -> (r: Option<(Vec<u8>, usize)>)
    requires
        i <= s@.len(),
    ensures
        match r {
            Some(p) => i < p.1 <= s@.len() && unesc_prefix(s@.skip(i as int)) == Some(
                (p.0@, s@.skip(p.1 as int)),
            ),
            None => unesc_prefix(s@.skip(i as int)) is None,
        },
    decreases s@.len() - i,
{
    let len = s.len();
    let ghost tail = s@.skip(i as int);
    if i >= len {
        return None;
    }
    let b = s[i];
    proof {
        assert(tail[0] == b);
    }
    if b == 34 {
        proof {
            assert(tail.skip(1) =~= s@.skip(i as int + 1));
        }
        return Some((Vec::new(), i + 1));
    }
    if b == 92 {
        if i + 1 < len && (s[i + 1] == 34 || s[i + 1] == 92) {
            let c = s[i + 1];
            proof {
                assert(tail.len() >= 2 && tail[1] == c);
                assert(tail.skip(2) =~= s@.skip(i as int + 2));
            }
            match unescape_from(s, i + 2) {
                Some((mut v, j)) => {
                    v.insert(0, c);
                    proof {
                        assert(v@ =~= seq![tail[1]] + v@.skip(1));
                    }
                    return Some((v, j));
                },
                None => {
                    return None;
                },
            }
        } else if len - i >= 6 && s[i + 1] == 117 && s[i + 2] == 48 && s[i + 3] == 48 {
            let h = s[i + 4];
            let l = s[i + 5];
            let hok = 48 <= h && h <= 57 || 97 <= h && h <= 102;
            let lok = 48 <= l && l <= 57 || 97 <= l && l <= 102;
            proof {
                assert(tail.len() >= 6 && tail[1] == 117 && tail[2] == 48 && tail[3] == 48
                    && tail[4] == h && tail[5] == l);
            }
            if !(hok && lok) {
                return None;
            }
            let hv = if h <= 57 {
                h - 48
            } else {
                h - 87
            };
            let lv = if l <= 57 {
                l - 48
            } else {
                l - 87
            };
            let val = hv * 16 + lv;
            if val >= 32 {
                return None;
            }
            proof {
                assert(tail.skip(6) =~= s@.skip(i as int + 6));
            }
            match unescape_from(s, i + 6) {
                Some((mut v, j)) => {
                    v.insert(0, val);
                    proof {
                        assert(v@ =~= seq![(hex_val(tail[4]) * 16 + hex_val(tail[5])) as u8]
                            + v@.skip(1));
                    }
                    return Some((v, j));
                },
                None => {
                    return None;
                },
            }
        } else {
            return None;
        }
    }
    if b < 32 {
        return None;
    }
    proof {
        assert(tail.skip(1) =~= s@.skip(i as int + 1));
    }
    match unescape_from(s, i + 1) {
        Some((mut v, j)) => {
            v.insert(0, b);
            proof {
                assert(v@ =~= seq![tail[0]] + v@.skip(1));
            }
            Some((v, j))
        },
        None => None,
    }
}

/// Parses a canonical decimal `u64` starting at `i`, returning the value and
/// the index of the first non-digit.
pub fn parse_u64_from(s: &Vec<u8>, i: usize) -> (r: Option<(u64, usize)>)
    requires
        i <= s@.len(),
    ensures
        match r {
            Some(p) => i < p.1 <= s@.len() && parse_u64_prefix(s@.skip(i as int)) == Some(
                (p.0, s@.skip(p.1 as int)),
            ),
            None => parse_u64_prefix(s@.skip(i as int)) is None,
        },
{
    let len = s.len();
    let ghost tail = s@.skip(i as int);
    let mut j: usize = i;
    while j < len && 48 <= s[j] && s[j] <= 57
        invariant
            i <= j <= len,
            len == s@.len(),
            tail == s@.skip(i as int),
            forall|m: int| 0 <= m < j - i ==> is_digit(#[trigger] tail[m]),
        decreases len - j,
    {
        proof {
            assert(tail[j - i] == s@[j as int]);
        }
        j += 1;
    }
    proof {
        if j < len {
            assert(tail[j - i] == s@[j as int]);
            assert(!is_digit(tail[j - i]));
        }
        lemma_digit_run(tail, j - i);
    }
    if j == i {
        return None;
    }
    if s[i] == 48 && j > i + 1 {
        proof {
            assert(tail[0] == 48);
        }
        return None;
    }
    // Accumulate the value; a run whose value exceeds u64::MAX is rejected.
    let ghost k = j - i;
    let mut acc: u128 = 0;
    let mut too_big = false;
    let mut m: usize = i;
    while m < j
        invariant
            i <= m <= j <= len,
            len == s@.len(),
            tail == s@.skip(i as int),
            forall|m2: int| 0 <= m2 < j - i ==> is_digit(#[trigger] tail[m2]),
            !too_big ==> acc == digits_val(tail.take(m - i)) && acc <= u64::MAX,
            too_big ==> digits_val(tail.take(m - i)) > u64::MAX,
        decreases j - m,
    {
        let d = s[m];
        proof {
            assert(tail[m - i] == s@[m as int]);
            assert(is_digit(tail[m - i]));
            assert(tail.take(m - i + 1).drop_last() =~= tail.take(m - i));
            assert(tail.take(m - i + 1).last() == tail[m - i]);
        }
        if too_big {
            proof {
                assert(digits_val(tail.take(m - i + 1)) == digits_val(tail.take(m - i)) * 10 + (
                tail[m - i] - 48) as nat);
            }
        } else {
            acc = acc * 10 + ((d - 48) as u128);
            if acc > 0xFFFF_FFFF_FFFF_FFFFu128 {
                too_big = true;
            }
        }
        m += 1;
    }
    if too_big {
        proof {
            assert(tail.take(k) =~= tail.take(j - i));
        }
        return None;
    }
    let val = acc as u64;
    proof {
        assert(tail.take(k) =~= tail.take(j - i));
        assert(tail.skip(j - i) =~= s@.skip(j as int));
    }
    Some((val, j))
}

} // verus!
