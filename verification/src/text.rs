//! Small text utilities the library's identifiers are built from:
//! decimal rendering of unsigned integers, lowercase hex encoding of
//! bytes, and digit-string parsing.

use vstd::prelude::*;
use vstd::string::*;

verus! {

/// The ASCII decimal digits of `n`, most significant first.
pub open spec fn dec_bytes_of(n: nat) -> Seq<u8>
    decreases n,
{
    if n < 10 {
        seq![(48 + n) as u8]
    } else {
        dec_bytes_of(n / 10) + seq![(48 + n % 10) as u8]
    }
}

/// The decimal digit characters of `n`, most significant first.
pub open spec fn dec_chars_of(n: nat) -> Seq<char> {
    dec_bytes_of(n).map_values(|b: u8| b as char)
}

/// Every byte of a decimal rendering is an ASCII digit.
pub proof fn lemma_dec_bytes_ascii(n: nat)
    ensures
        forall|i: int|
            0 <= i < dec_bytes_of(n).len() ==> 48 <= #[trigger] dec_bytes_of(n)[i] <= 57,
    decreases n,
{
    if n < 10 {
        assert(dec_bytes_of(n) =~= seq![(48 + n) as u8]);
    } else {
        lemma_dec_bytes_ascii(n / 10);
        assert forall|i: int|
            0 <= i < dec_bytes_of(n).len() implies 48 <= #[trigger] dec_bytes_of(n)[i] <= 57 by {
            if i < dec_bytes_of(n / 10).len() {
                assert(dec_bytes_of(n)[i] == dec_bytes_of(n / 10)[i]);
            } else {
                assert(dec_bytes_of(n)[i] == (48 + n % 10) as u8);
            }
        }
    }
}

/// Append every byte of `src` to `dst`.
pub fn push_all(dst: &mut Vec<u8>, src: &[u8])
    ensures
        final(dst)@ == old(dst)@ + src@,
{
    let n = src.len();
    for i in 0..n
        invariant
            n == src@.len(),
            dst@ == old(dst)@ + src@.subrange(0, i as int),
    {
        dst.push(src[i]);
        proof {
            assert(src@.subrange(0, i + 1) =~= src@.subrange(0, i as int) + seq![src@[i as int]]);
        }
    }
    proof {
        assert(src@.subrange(0, n as int) =~= src@);
    }
}

/// An exact copy of a byte vector.
pub fn clone_bytes(v: &Vec<u8>) -> (r: Vec<u8>)
    ensures
        r@ == v@,
{
    let mut r: Vec<u8> = Vec::new();
    push_all(&mut r, v.as_slice());
    proof {
        assert(r@ =~= v@);
    }
    r
}

/// Render `n` as ASCII decimal digits, most significant first.
pub fn u64_dec_bytes(n: u64) -> (r: Vec<u8>)
    ensures
        r@ == dec_bytes_of(n as nat),
{
    if n == 0 {
        let mut r: Vec<u8> = Vec::new();
        r.push(48);
        proof {
            assert(r@ =~= dec_bytes_of(0));
        }
        return r;
    }
    let mut rev: Vec<u8> = Vec::new();
    let mut m: u64 = n;
    while m > 0
        invariant
            m > 0 ==> dec_bytes_of(n as nat) =~= dec_bytes_of(m as nat) + rev@.reverse(),
            m == 0 ==> dec_bytes_of(n as nat) =~= rev@.reverse(),
        decreases m,
    {
        let d: u8 = (m % 10) as u8;
        rev.push(48 + d);
        proof {
            assert(rev@.reverse() =~= seq![(48 + (m as nat) % 10) as u8]
                + rev@.subrange(0, rev@.len() - 1).reverse());
        }
        m = m / 10;
    }
    let mut r: Vec<u8> = Vec::new();
    let k = rev.len();
    for i in 0..k
        invariant
            k == rev@.len(),
            r@ == rev@.reverse().subrange(0, i as int),
    {
        r.push(rev[k - 1 - i]);
        proof {
            assert(rev@.reverse()[i as int] == rev@[k - 1 - i]);
            assert(rev@.reverse().subrange(0, i + 1) =~= rev@.reverse().subrange(0, i as int)
                + seq![rev@.reverse()[i as int]]);
        }
    }
    proof {
        assert(rev@.reverse().subrange(0, k as int) =~= rev@.reverse());
    }
    r
}

/// The lowercase hex byte for a value below 16.
pub open spec fn hex_digit_byte(d: nat) -> u8 {
    if d < 10 {
        (48 + d) as u8
    } else {
        (87 + d) as u8
    }
}

/// The lowercase ASCII hex rendering of a byte sequence, two digits per
/// byte.
pub open spec fn hex_bytes_of(data: Seq<u8>) -> Seq<u8>
    decreases data.len(),
{
    if data.len() == 0 {
        seq![]
    } else {
        seq![
            hex_digit_byte((data.first() >> 4) as nat),
            hex_digit_byte((data.first() & 0x0f) as nat),
        ] + hex_bytes_of(data.drop_first())
    }
}

/// The lowercase hex rendering, as characters.
pub open spec fn hex_chars_of(data: Seq<u8>) -> Seq<char> {
    hex_bytes_of(data).map_values(|b: u8| b as char)
}

/// Every byte of a hex rendering is an ASCII digit or lowercase letter.
pub proof fn lemma_hex_bytes_ascii(data: Seq<u8>)
    ensures
        forall|i: int|
            0 <= i < hex_bytes_of(data).len() ==> 48 <= #[trigger] hex_bytes_of(data)[i] <= 102,
    decreases data.len(),
{
    if data.len() > 0 {
        lemma_hex_bytes_ascii(data.drop_first());
        let b = data.first();
        assert((b >> 4) < 16 && (b & 0x0f) < 16) by (bit_vector);
        assert forall|i: int|
            0 <= i < hex_bytes_of(data).len() implies 48 <= #[trigger] hex_bytes_of(data)[i]
            <= 102 by {
            if i >= 2 {
                assert(hex_bytes_of(data)[i] == hex_bytes_of(data.drop_first())[i - 2]);
            }
        }
    }
}

/// Encode bytes as lowercase hex, two digits per byte.
pub fn hex_lower_bytes(data: &Vec<u8>) -> (r: Vec<u8>)
    ensures
        r@ == hex_bytes_of(data@),
{
    let mut r: Vec<u8> = Vec::new();
    let n = data.len();
    proof {
        assert(data@.skip(0) =~= data@);
    }
    for i in 0..n
        invariant
            n == data@.len(),
            hex_bytes_of(data@) =~= r@ + hex_bytes_of(data@.skip(i as int)),
    {
        let b = data[i];
        assert((b >> 4) < 16 && (b & 0x0f) < 16) by (bit_vector);
        let hi: u8 = b >> 4;
        let lo: u8 = b & 0x0f;
        r.push(if hi < 10 { 48 + hi } else { 87 + hi });
        r.push(if lo < 10 { 48 + lo } else { 87 + lo });
        proof {
            assert(data@.skip(i as int).drop_first() =~= data@.skip(i + 1));
            assert(data@.skip(i as int).first() == data@[i as int]);
        }
    }
    proof {
        assert(data@.skip(n as int) =~= Seq::<u8>::empty());
    }
    r
}

/// Whether `c` is an ASCII decimal digit.
pub open spec fn is_dec_digit(c: char) -> bool {
    48 <= c as u32 <= 57
}

/// The numeric value of a digit string, most significant first.
pub open spec fn digits_value(s: Seq<char>) -> nat
    decreases s.len(),
{
    if s.len() == 0 {
        0
    } else {
        digits_value(s.drop_last()) * 10 + (s.last() as u32 - 48) as nat
    }
}

/// A longer digit string never has a smaller value.
pub proof fn lemma_digits_value_prefix(s: Seq<char>, i: int)
    requires
        0 <= i <= s.len(),
    ensures
        digits_value(s.subrange(0, i)) <= digits_value(s),
    decreases s.len() - i,
{
    if i < s.len() {
        lemma_digits_value_prefix(s.subrange(0, s.len() - 1), i);
        assert(s.subrange(0, s.len() - 1).subrange(0, i) =~= s.subrange(0, i));
        assert(digits_value(s) == digits_value(s.drop_last()) * 10 + (s.last() as u32
            - 48) as nat);
        assert(s.drop_last() =~= s.subrange(0, s.len() - 1));
    } else {
        assert(s.subrange(0, i) =~= s);
    }
}

/// The value of a bare digit string that fits in 16 bits; zero for an
/// empty string, a non-digit anywhere, or a value out of range.
pub open spec fn spec_parse_u16_digits(t: Seq<char>) -> u16 {
    if t.len() > 0 && (forall|i: int| 0 <= i < t.len() ==> is_dec_digit(#[trigger] t[i]))
        && digits_value(t) <= 65535 {
        digits_value(t) as u16
    } else {
        0
    }
}

/// How `str::parse::<u16>` with a fallback of zero reads a string: an
/// optional leading `+`, then at least one decimal digit, with a value
/// that fits in 16 bits; anything else is zero.
pub open spec fn spec_parse_u16_or_zero(s: Seq<char>) -> u16 {
    if s.len() > 0 && s[0] == '+' {
        spec_parse_u16_digits(s.drop_first())
    } else {
        spec_parse_u16_digits(s)
    }
}

/// Parse a 16-bit decimal number, with zero for anything unparsable.
pub fn parse_u16_or_zero(s: &str) -> (r: u16)
    ensures
        r == spec_parse_u16_or_zero(s@),
{
    let n = s.unicode_len();
    let start: usize = if n > 0 && s.get_char(0) == '+' {
        1
    } else {
        0
    };
    let ghost t = if s@.len() > 0 && s@[0] == '+' {
        s@.drop_first()
    } else {
        s@
    };
    proof {
        assert(t =~= s@.subrange(start as int, n as int));
    }
    if start == n {
        return 0;
    }
    let mut acc: u32 = 0;
    let mut i: usize = start;
    while i < n
        invariant
            start <= 1,
            start <= i <= n,
            n == s@.len(),
            start == 1 ==> s@.len() > 0 && s@[0] == '+',
            start == 0 ==> !(s@.len() > 0 && s@[0] == '+'),
            t == s@.subrange(start as int, n as int),
            forall|j: int| start <= j < i ==> is_dec_digit(#[trigger] s@[j]),
            acc == digits_value(s@.subrange(start as int, i as int)),
            acc <= 65535,
        decreases n - i,
    {
        let c = s.get_char(i);
        let u = c as u32;
        if u < 48 || u > 57 {
            proof {
                assert(t.len() == n - start);
                assert(0 <= i - start < t.len());
                assert(t[i - start] == s@[i as int]);
                assert(s@[i as int] as u32 == u);
                assert(!is_dec_digit(t[i - start]));
                assert(!(forall|j: int| 0 <= j < t.len() ==> is_dec_digit(#[trigger] t[j])));
                assert(spec_parse_u16_digits(t) == 0);
                if start == 1 {
                    assert(t =~= s@.drop_first());
                } else {
                    assert(t =~= s@);
                }
            }
            return 0;
        }
        acc = acc * 10 + (u - 48);
        proof {
            let pre = s@.subrange(start as int, i as int);
            let cur = s@.subrange(start as int, i + 1);
            assert(cur.drop_last() =~= pre);
            assert(cur.last() == s@[i as int]);
        }
        if acc > 65535 {
            proof {
                let cur = s@.subrange(start as int, i + 1);
                assert(cur =~= t.subrange(0, i + 1 - start));
                lemma_digits_value_prefix(t, i + 1 - start);
                assert(digits_value(t) > 65535);
                assert(spec_parse_u16_digits(t) == 0);
                if start == 1 {
                    assert(t =~= s@.drop_first());
                } else {
                    assert(t =~= s@);
                }
            }
            return 0;
        }
        i = i + 1;
    }
    proof {
        assert(s@.subrange(start as int, n as int) =~= t);
        assert(forall|j: int| 0 <= j < t.len() ==> is_dec_digit(#[trigger] t[j]));
        assert(spec_parse_u16_digits(t) == acc as u16);
        if start == 1 {
            assert(t =~= s@.drop_first());
        } else {
            assert(t =~= s@);
        }
    }
    acc as u16
}

/// Whether `p` is a prefix of `s`.
pub open spec fn is_prefix(p: Seq<char>, s: Seq<char>) -> bool {
    p.len() <= s.len() && s.subrange(0, p.len() as int) == p
}

/// Prefix test on strings.
pub fn str_starts_with(s: &str, prefix: &str) -> (r: bool)
    ensures
        r == is_prefix(prefix@, s@),
{
    let n = s.unicode_len();
    let m = prefix.unicode_len();
    if m > n {
        proof {
            assert(!is_prefix(prefix@, s@));
        }
        return false;
    }
    for i in 0..m
        invariant
            m <= n,
            n == s@.len(),
            m == prefix@.len(),
            forall|j: int| 0 <= j < i ==> s@[j] == prefix@[j],
    {
        if s.get_char(i) != prefix.get_char(i) {
            proof {
                assert(s@.subrange(0, prefix@.len() as int)[i as int] == s@[i as int]);
                assert(!is_prefix(prefix@, s@));
            }
            return false;
        }
    }
    proof {
        assert(s@.subrange(0, prefix@.len() as int) =~= prefix@);
    }
    true
}

/// Position of the last occurrence of `c` in `s`, if any.
pub fn rfind_char(s: &str, c: char) -> (r: Option<usize>)
    ensures
        match r {
            Some(i) => i < s@.len() && s@[i as int] == c && forall|j: int|
                i < j < s@.len() ==> s@[j] != c,
            None => forall|j: int| 0 <= j < s@.len() ==> s@[j] != c,
        },
{
    let n = s.unicode_len();
    let mut k: usize = n;
    while k > 0
        invariant
            k <= n,
            n == s@.len(),
            forall|j: int| k <= j < s@.len() ==> s@[j] != c,
        decreases k,
    {
        k = k - 1;
        if s.get_char(k) == c {
            return Some(k);
        }
    }
    None
}

/// Relies on `String::from_utf8`: ASCII bytes decode to exactly the
/// characters with those code points.
#[verifier::external_body]
pub fn ascii_to_string(bytes: Vec<u8>) -> (r: String)
    requires
        forall|i: int| 0 <= i < bytes@.len() ==> bytes@[i] < 128,
    ensures
        r@ == bytes@.map_values(|b: u8| b as char),
{
    String::from_utf8(bytes).unwrap_or_default()
}

} // verus!
