//! Byte-level building blocks of the wire grammar: the CRLF delimiter and
//! decimal numbers.
use vstd::prelude::*;

verus! {

/// Carriage return, the first byte of the delimiter.
pub const CR: u8 = 13;

/// Line feed, the second byte of the delimiter.
pub const LF: u8 = 10;

/// The byte `+`.
pub const PLUS: u8 = 43;

/// The byte `-`.
pub const MINUS: u8 = 45;

/// The byte `0`, from which the digits count up.
pub const DIGIT_ZERO: u8 = 48;

/// The byte `1`.
pub const DIGIT_ONE: u8 = 49;

/// The byte `9`, the last of the digits.
pub const DIGIT_NINE: u8 = 57;

/// The byte `a`.
pub const LETTER_A: u8 = 97;

/// The byte `f`.
pub const LETTER_F: u8 = 102;

/// The byte `i`.
pub const LETTER_I: u8 = 105;

/// The byte `n`.
pub const LETTER_N: u8 = 110;

/// The byte `t`.
pub const LETTER_T: u8 = 116;

/// Whether a CRLF pair starts at index `i` of `s`.
pub open spec fn crlf_at(s: Seq<u8>, i: int) -> bool {
    0 <= i && i + 1 < s.len() && s[i] == CR && s[i + 1] == LF
}

/// Index of the first CRLF pair of `s` that starts at `from` or later.
pub open spec fn first_crlf_from(s: Seq<u8>, from: int) -> Option<int>
    decreases s.len() - from,
{
    if from < 0 || from + 1 >= s.len() {
        None
    } else if crlf_at(s, from) {
        Some(from)
    } else {
        first_crlf_from(s, from + 1)
    }
}

/// Index of the first CRLF pair of `s`.
pub open spec fn first_crlf(s: Seq<u8>) -> Option<int> {
    first_crlf_from(s, 0)
}

/// What `first_crlf_from` returns, said without recursion.
pub proof fn lemma_first_crlf_from(s: Seq<u8>, from: int)
    requires
        0 <= from,
    ensures
        match first_crlf_from(s, from) {
            Some(i) => from <= i && crlf_at(s, i) && forall|j: int|
                from <= j < i ==> !crlf_at(s, j),
            None => forall|j: int| from <= j ==> !crlf_at(s, j),
        },
    decreases s.len() - from,
{
    if from + 1 >= s.len() {
    } else if crlf_at(s, from) {
    } else {
        lemma_first_crlf_from(s, from + 1);
    }
}

/// Finds the first CRLF pair of `buf`.
pub fn find_crlf(buf: &[u8]) -> (r: Option<usize>)
    ensures
        match r {
            Some(i) => first_crlf(buf@) == Some(i as int),
            None => first_crlf(buf@) is None,
        },
{
    let n: usize = buf.len();
    if n < 2 {
        return None;
    }
    let mut i: usize = 0;
    while i < n - 1
        invariant
            n == buf@.len(),
            n >= 2,
            i <= n - 1,
            first_crlf(buf@) == first_crlf_from(buf@, i as int),
        decreases n - i,
    {
        if buf[i] == CR && buf[i + 1] == LF {
            return Some(i);
        }
        i = i + 1;
    }
    None
}

/// Appends `src` to `out`.
pub fn append_bytes(out: &mut Vec<u8>, src: &[u8])
    ensures
        final(out)@ == old(out)@ + src@,
{
    out.extend_from_slice(src);
    assert(final(out)@ =~= old(out)@ + src@);
}

/// The tag, the payload and the delimiter of one line.
pub open spec fn line(tag: u8, payload: Seq<u8>) -> Seq<u8> {
    seq![tag] + payload + seq![CR, LF]
}

/// Whether `b` is one of the bytes `0` to `9`.
pub open spec fn is_digit(b: u8) -> bool {
    DIGIT_ZERO <= b <= DIGIT_NINE
}

/// Whether `s` holds decimal digits and nothing else.
pub open spec fn all_digits(s: Seq<u8>) -> bool {
    forall|i: int| 0 <= i < s.len() ==> is_digit(#[trigger] s[i])
}

/// The number that the digit string `s` denotes; leading zeros count for nothing.
pub open spec fn dec_value(s: Seq<u8>) -> nat
    decreases s.len(),
{
    if s.len() == 0 {
        0
    } else {
        dec_value(s.drop_last()) * 10 + (s.last() - DIGIT_ZERO) as nat
    }
}

/// The digits of `n`, most significant first, without leading zeros.
pub open spec fn dec_digits(n: nat) -> Seq<u8>
    decreases n,
{
    if n < 10 {
        seq![(DIGIT_ZERO + n) as u8]
    } else {
        dec_digits(n / 10).push((DIGIT_ZERO + n % 10) as u8)
    }
}

/// The number that `s` denotes, where `s` is a digit string of a number up to `limit`.
pub open spec fn decimal_in(s: Seq<u8>, limit: nat) -> Option<nat> {
    if s.len() > 0 && all_digits(s) && dec_value(s) <= limit {
        Some(dec_value(s))
    } else {
        None
    }
}

/// The digits of a number are digits, at least one of them, and denote that number.
pub proof fn lemma_dec_digits(n: nat)
    ensures
        dec_digits(n).len() >= 1,
        all_digits(dec_digits(n)),
        dec_value(dec_digits(n)) == n,
        n > 0 ==> dec_digits(n)[0] != DIGIT_ZERO,
        dec_digits(n).last() == (DIGIT_ZERO + n % 10) as u8,
    decreases n,
{
    if n < 10 {
        assert(dec_digits(n).drop_last() =~= Seq::<u8>::empty());
        assert(dec_value(dec_digits(n)) == dec_value(Seq::<u8>::empty()) * 10 + n);
    } else {
        lemma_dec_digits(n / 10);
        let d = dec_digits(n / 10);
        assert(dec_digits(n).drop_last() =~= d);
    }
}

/// A longer prefix of a digit string denotes no smaller a number.
pub proof fn lemma_dec_value_prefix(s: Seq<u8>, k: int)
    requires
        all_digits(s),
        0 <= k <= s.len(),
    ensures
        all_digits(s.take(k)),
        dec_value(s.take(k)) <= dec_value(s),
    decreases s.len() - k,
{
    if k == s.len() {
        assert(s.take(k) =~= s);
    } else {
        lemma_dec_value_prefix(s, k + 1);
        assert(s.take(k + 1).drop_last() =~= s.take(k));
        assert(is_digit(s.take(k + 1).last()));
    }
}

/// Appends the decimal digits of `n` to `out`.
pub fn push_decimal(out: &mut Vec<u8>, n: u64)
    ensures
        final(out)@ == old(out)@ + dec_digits(n as nat),
    decreases n,
{
    if n >= 10 {
        push_decimal(out, n / 10);
    }
    let digit: u8 = (n % 10) as u8;
    out.push(DIGIT_ZERO + digit);
    proof {
        if n >= 10 {
            assert(final(out)@ =~= old(out)@ + dec_digits(n as nat));
        } else {
            assert(final(out)@ =~= old(out)@ + dec_digits(n as nat));
        }
    }
}

/// Reads `buf` as a decimal number of at most `limit`.
pub fn parse_decimal(buf: &[u8], limit: u64) -> (r: Option<u64>)
    ensures
        match r {
            Some(v) => decimal_in(buf@, limit as nat) == Some(v as nat),
            None => decimal_in(buf@, limit as nat) is None,
        },
{
    let n: usize = buf.len();
    if n == 0 {
        return None;
    }
    let mut acc: u64 = 0;
    let mut i: usize = 0;
    while i < n
        invariant
            n == buf@.len(),
            i <= n,
            all_digits(buf@.take(i as int)),
            acc as nat == dec_value(buf@.take(i as int)),
            acc <= limit,
        decreases n - i,
    {
        let b: u8 = buf[i];
        if b < DIGIT_ZERO || b > DIGIT_NINE {
            assert(!is_digit(buf@[i as int]));
            return None;
        }
        let d: u64 = (b - DIGIT_ZERO) as u64;
        proof {
            assert(buf@.take(i + 1).drop_last() =~= buf@.take(i as int));
            assert(buf@.take(i + 1).last() == b);
            assert forall|j: int| 0 <= j < i + 1 implies is_digit(
                #[trigger] buf@.take(i + 1)[j],
            ) by {
                if j < i {
                    assert(buf@.take(i as int)[j] == buf@[j]);
                }
            }
            if all_digits(buf@) {
                lemma_dec_value_prefix(buf@, i + 1);
            }
        }
        if d > limit || acc > (limit - d) / 10 {
            return None;
        }
        acc = acc * 10 + d;
        i = i + 1;
    }
    assert(buf@.take(n as int) =~= buf@);
    Some(acc)
}

/// The sign character of a number.
pub open spec fn sign_byte(negative: bool) -> u8 {
    if negative {
        MINUS
    } else {
        PLUS
    }
}

/// Whether a payload begins with a minus sign, and what follows its sign.
pub open spec fn split_sign(p: Seq<u8>) -> (bool, Seq<u8>) {
    if p.len() > 0 && p[0] == MINUS {
        (true, p.skip(1))
    } else if p.len() > 0 && p[0] == PLUS {
        (false, p.skip(1))
    } else {
        (false, p)
    }
}

/// The payload that stands for `v`: its sign, then the digits of its magnitude.
pub open spec fn integer_text(v: i64) -> Seq<u8> {
    seq![sign_byte(v < 0)] + dec_digits(
        if v < 0 {
            (-v) as nat
        } else {
            v as nat
        },
    )
}

/// The integer that a payload stands for: an optional sign, then digits of a
/// number that fits 64 bits with its sign.
pub open spec fn parse_integer(p: Seq<u8>) -> Option<i64> {
    let (negative, body) = split_sign(p);
    if negative {
        match decimal_in(body, 0x8000_0000_0000_0000) {
            Some(m) => Some((-m) as i64),
            None => None,
        }
    } else {
        match decimal_in(body, 0x7fff_ffff_ffff_ffff) {
            Some(m) => Some(m as i64),
            None => None,
        }
    }
}

/// Reading the text of an integer gives the integer back; the text has no
/// carriage return in it.
pub proof fn lemma_integer_round_trip(v: i64)
    ensures
        parse_integer(integer_text(v)) == Some(v),
        forall|i: int| 0 <= i < integer_text(v).len() ==> integer_text(v)[i] != CR,
{
    let magnitude: nat = if v < 0 {
        (-v) as nat
    } else {
        v as nat
    };
    let text = integer_text(v);
    lemma_dec_digits(magnitude);
    assert(text.skip(1) =~= dec_digits(magnitude));
    assert(text[0] == sign_byte(v < 0));
    assert forall|i: int| 0 <= i < text.len() implies text[i] != CR by {
        if i > 0 {
            assert(text[i] == dec_digits(magnitude)[i - 1]);
            assert(is_digit(dec_digits(magnitude)[i - 1]));
        }
    }
}

/// Appends the payload that stands for `v` to `out`.
pub fn push_integer(out: &mut Vec<u8>, v: i64)
    ensures
        final(out)@ == old(out)@ + integer_text(v),
{
    let magnitude: u64 = if v < 0 {
        (0 - v as i128) as u64
    } else {
        v as u64
    };
    out.push(if v < 0 { MINUS } else { PLUS });
    push_decimal(out, magnitude);
    assert(final(out)@ =~= old(out)@ + integer_text(v));
}

/// Reads a payload as a signed integer.
pub fn parse_integer_text(payload: &[u8]) -> (r: Option<i64>)
    ensures
        r == parse_integer(payload@),
{
    let n: usize = payload.len();
    let negative: bool = n > 0 && payload[0] == MINUS;
    let start: usize = if n > 0 && (payload[0] == MINUS || payload[0] == PLUS) {
        1
    } else {
        0
    };
    let body: &[u8] = vstd::slice::slice_subrange(payload, start, n);
    assert(body@ =~= split_sign(payload@).1);
    assert(negative == split_sign(payload@).0);
    if negative {
        match parse_decimal(body, 0x8000_0000_0000_0000) {
            Some(m) => Some((0 - m as i128) as i64),
            None => None,
        }
    } else {
        match parse_decimal(body, 0x7fff_ffff_ffff_ffff) {
            Some(m) => Some(m as i64),
            None => None,
        }
    }
}

} // verus!
