//! Decimal numbers on the wire: their canonical text and how text is read back.
use vstd::prelude::*;
use crate::resp::frame::Double;
use crate::resp::wire::{
    all_digits, append_bytes, dec_digits, dec_value, is_digit, lemma_dec_digits,
    lemma_dec_value_prefix, parse_decimal, push_decimal, sign_byte, split_sign, CR, DIGIT_NINE,
    DIGIT_ZERO, LETTER_A, LETTER_F, LETTER_I, LETTER_N, MINUS, PLUS,
};

verus! {

/// The byte `.`.
pub const DOT: u8 = 46;

/// `n` times the byte `0`.
pub open spec fn zeros(n: nat) -> Seq<u8> {
    Seq::new(n, |i: int| DIGIT_ZERO)
}

/// The text `inf`.
pub open spec fn inf_text() -> Seq<u8> {
    seq![LETTER_I, LETTER_N, LETTER_F]
}

/// The text `nan`.
pub open spec fn nan_text() -> Seq<u8> {
    seq![LETTER_N, LETTER_A, LETTER_N]
}

/// `mantissa` times ten to the `exponent`, written out in full without an exponent.
pub open spec fn magnitude_text(mantissa: nat, exponent: int) -> Seq<u8> {
    let digits = dec_digits(mantissa);
    if exponent >= 0 {
        digits + zeros(exponent as nat)
    } else if digits.len() > -exponent {
        digits.take(digits.len() + exponent).push(DOT) + digits.skip(digits.len() + exponent)
    } else {
        seq![DIGIT_ZERO, DOT] + zeros((-exponent - digits.len()) as nat) + digits
    }
}

/// The payload that stands for `d` on the wire.
pub open spec fn double_text(d: Double) -> Seq<u8> {
    match d {
        Double::Nan => nan_text(),
        Double::Infinity { negative } => if negative {
            seq![MINUS] + inf_text()
        } else {
            inf_text()
        },
        Double::Finite { negative, mantissa, exponent } => seq![sign_byte(negative)]
            + magnitude_text(mantissa as nat, exponent as int),
    }
}

/// Index of the first `.` of `s` at `from` or later; the length of `s` where there is none.
pub open spec fn first_dot_from(s: Seq<u8>, from: int) -> int
    decreases s.len() - from,
{
    if from < 0 || from >= s.len() {
        s.len() as int
    } else if s[from] == DOT {
        from
    } else {
        first_dot_from(s, from + 1)
    }
}

/// `value` times ten to the `exponent` with the trailing zeros of `value`
/// moved into the exponent; zero has exponent zero.
pub open spec fn normalize(value: nat, exponent: int) -> (nat, int)
    decreases value,
{
    if value == 0 {
        (0, 0)
    } else if value % 10 == 0 {
        normalize(value / 10, exponent + 1)
    } else {
        (value, exponent)
    }
}

/// The part of `body` before its first `.`.
pub open spec fn integral_part(body: Seq<u8>) -> Seq<u8> {
    body.take(first_dot_from(body, 0))
}

/// The part of `body` behind its first `.`.
pub open spec fn fractional_part(body: Seq<u8>) -> Seq<u8> {
    if first_dot_from(body, 0) < body.len() {
        body.skip(first_dot_from(body, 0) + 1)
    } else {
        Seq::empty()
    }
}

/// Mantissa and exponent of an unsigned decimal: digits, and optionally a `.`
/// with digits behind it.
pub open spec fn parse_magnitude(body: Seq<u8>) -> Option<(nat, int)> {
    let integral = integral_part(body);
    let fractional = fractional_part(body);
    if integral.len() == 0 || !all_digits(integral) {
        None
    } else if first_dot_from(body, 0) < body.len() && fractional.len() == 0 {
        None
    } else if !all_digits(fractional) {
        None
    } else {
        Some(normalize(dec_value(integral + fractional), -fractional.len()))
    }
}

/// The number that a payload stands for. A payload that is no number, or whose
/// number does not fit, stands for `Nan`.
pub open spec fn parse_double(p: Seq<u8>) -> Double {
    let (negative, body) = split_sign(p);
    if body == inf_text() {
        Double::Infinity { negative }
    } else {
        match parse_magnitude(body) {
            Some((mantissa, exponent)) => if mantissa <= u64::MAX && i16::MIN <= exponent
                <= i16::MAX {
                Double::Finite { negative, mantissa: mantissa as u64, exponent: exponent as i16 }
            } else {
                Double::Nan
            },
            None => Double::Nan,
        }
    }
}

/// Trailing zeros of a digit string go into the exponent.
pub proof fn lemma_normalize_digits(digits: Seq<u8>, kept: int, exponent: int)
    requires
        all_digits(digits),
        0 <= kept <= digits.len(),
        forall|j: int| kept <= j < digits.len() ==> digits[j] == DIGIT_ZERO,
        kept > 0 ==> digits[kept - 1] != DIGIT_ZERO,
    ensures
        kept == 0 ==> normalize(dec_value(digits), exponent) == (0nat, 0int),
        kept > 0 ==> normalize(dec_value(digits), exponent) == (
            dec_value(digits.take(kept)),
            exponent + digits.len() - kept,
        ),
        kept > 0 ==> dec_value(digits.take(kept)) % 10 != 0,
    decreases digits.len() - kept,
{
    if digits.len() == kept {
        assert(digits.take(kept) =~= digits);
        if kept > 0 {
            assert(is_digit(digits.last()));
        }
    } else {
        let shorter = digits.drop_last();
        assert(all_digits(shorter)) by {
            assert forall|j: int| 0 <= j < shorter.len() implies is_digit(
                #[trigger] shorter[j],
            ) by {
                assert(shorter[j] == digits[j]);
            }
        }
        lemma_normalize_digits(shorter, kept, exponent + 1);
        assert(shorter.take(kept) =~= digits.take(kept));
        assert(digits.last() == DIGIT_ZERO);
        assert(dec_value(digits) == dec_value(shorter) * 10);
    }
}

/// A normalized pair is canonical.
pub proof fn lemma_normalize_canonical(value: nat, exponent: int)
    ensures
        canonical_pair(normalize(value, exponent).0, normalize(value, exponent).1),
    decreases value,
{
    if value != 0 && value % 10 == 0 {
        lemma_normalize_canonical(value / 10, exponent + 1);
    }
}

/// Whatever a payload says, it reads as a canonical number.
pub proof fn lemma_parse_double_canonical(payload: Seq<u8>)
    ensures
        parse_double(payload).is_canonical(),
{
    let body = split_sign(payload).1;
    match parse_magnitude(body) {
        Some((mantissa, exponent)) => {
            lemma_normalize_canonical(
                dec_value(integral_part(body) + fractional_part(body)),
                -fractional_part(body).len(),
            );
        },
        None => {},
    }
}

/// Zeros are digits and denote zero, also in front of other digits.
pub proof fn lemma_leading_zeros(count: nat, digits: Seq<u8>)
    requires
        all_digits(digits),
    ensures
        all_digits(zeros(count) + digits),
        dec_value(zeros(count) + digits) == dec_value(digits),
    decreases digits.len(), count,
{
    let whole = zeros(count) + digits;
    if digits.len() == 0 {
        assert(whole =~= zeros(count));
        if count > 0 {
            lemma_leading_zeros((count - 1) as nat, digits);
            assert(whole.drop_last() =~= zeros((count - 1) as nat) + digits);
        }
    } else {
        assert(all_digits(digits.drop_last())) by {
            assert forall|j: int| 0 <= j < digits.len() - 1 implies is_digit(
                #[trigger] digits.drop_last()[j],
            ) by {
                assert(digits.drop_last()[j] == digits[j]);
            }
        }
        lemma_leading_zeros(count, digits.drop_last());
        assert(whole.drop_last() =~= zeros(count) + digits.drop_last());
        assert(whole.last() == digits.last());
    }
    assert forall|j: int| 0 <= j < whole.len() implies is_digit(#[trigger] whole[j]) by {
        if j >= count {
            assert(whole[j] == digits[j - count]);
        }
    }
}

/// Where the first `.` of `s` is, given a stretch without one.
pub proof fn lemma_first_dot(s: Seq<u8>, from: int, at: int)
    requires
        0 <= from <= at <= s.len(),
        forall|j: int| from <= j < at ==> s[j] != DOT,
        at < s.len() ==> s[at] == DOT,
    ensures
        first_dot_from(s, from) == at,
    decreases at - from,
{
    if from < at {
        lemma_first_dot(s, from + 1, at);
    }
}

/// The text of a number has no carriage return in it, and is not empty.
pub proof fn lemma_double_text_plain(d: Double)
    ensures
        double_text(d).len() > 0,
        forall|i: int| 0 <= i < double_text(d).len() ==> double_text(d)[i] != CR,
{
    match d {
        Double::Finite { negative, mantissa, exponent } => {
            let digits = dec_digits(mantissa as nat);
            lemma_dec_digits(mantissa as nat);
            let body = magnitude_text(mantissa as nat, exponent as int);
            assert forall|i: int| 0 <= i < body.len() implies body[i] != CR by {
                if exponent >= 0 {
                    if i < digits.len() {
                        assert(is_digit(digits[i]));
                    }
                } else if digits.len() > -exponent {
                    let cut = digits.len() + exponent;
                    if i < cut {
                        assert(is_digit(digits[i]));
                    } else if i > cut {
                        assert(body[i] == digits[i - 1]);
                        assert(is_digit(digits[i - 1]));
                    }
                } else {
                    let pad = -exponent - digits.len();
                    if i >= 2 + pad {
                        assert(body[i] == digits[i - 2 - pad]);
                        assert(is_digit(digits[i - 2 - pad]));
                    }
                }
            }
            assert forall|i: int| 0 <= i < double_text(d).len() implies double_text(d)[i] != CR by {
                if i > 0 {
                    assert(double_text(d)[i] == body[i - 1]);
                }
            }
        },
        _ => {},
    }
}

/// Whether `mantissa` and `exponent` are the canonical pair for their number.
pub open spec fn canonical_pair(mantissa: nat, exponent: int) -> bool {
    if mantissa == 0 {
        exponent == 0
    } else {
        mantissa % 10 != 0
    }
}

/// Reading a magnitude written without a fraction gives its canonical pair back.
proof fn lemma_magnitude_whole(m: nat, e: int)
    requires
        canonical_pair(m, e),
        e >= 0,
    ensures
        parse_magnitude(magnitude_text(m, e)) == Some((m, e)),
{
    let digits = dec_digits(m);
    lemma_dec_digits(m);
    let body = magnitude_text(m, e);
    let n = digits.len() as int;
    assert forall|j: int| 0 <= j < body.len() implies is_digit(#[trigger] body[j]) by {
        if j < n {
            assert(body[j] == digits[j]);
            assert(is_digit(digits[j]));
        }
    }
    lemma_first_dot(body, 0, body.len() as int);
    assert(integral_part(body) =~= body);
    assert(fractional_part(body) =~= Seq::<u8>::empty());
    assert(integral_part(body) + fractional_part(body) =~= body);
    if m == 0 {
        assert(n == 1 && digits[0] == DIGIT_ZERO);
        assert(body =~= digits);
        lemma_normalize_digits(body, 0, 0);
    } else {
        assert(body[n - 1] == digits.last());
        lemma_normalize_digits(body, n, 0);
        assert(body.take(n) =~= digits);
    }
}

/// Reading a magnitude written with digits on both sides of the point gives
/// its canonical pair back.
proof fn lemma_magnitude_split(m: nat, e: int)
    requires
        canonical_pair(m, e),
        e < 0,
        dec_digits(m).len() > -e,
    ensures
        parse_magnitude(magnitude_text(m, e)) == Some((m, e)),
{
    let digits = dec_digits(m);
    lemma_dec_digits(m);
    let body = magnitude_text(m, e);
    let n = digits.len() as int;
    let cut = n + e;
    assert forall|j: int| 0 <= j < cut implies body[j] != DOT by {
        assert(body[j] == digits[j]);
        assert(is_digit(digits[j]));
    }
    assert(body[cut] == DOT);
    lemma_first_dot(body, 0, cut);
    assert(integral_part(body) =~= digits.take(cut));
    assert(fractional_part(body) =~= digits.skip(cut));
    assert(integral_part(body) + fractional_part(body) =~= digits);
    assert forall|j: int| 0 <= j < cut implies is_digit(#[trigger] integral_part(body)[j]) by {
        assert(is_digit(digits[j]));
    }
    assert forall|j: int| 0 <= j < n - cut implies is_digit(
        #[trigger] fractional_part(body)[j],
    ) by {
        assert(is_digit(digits[j + cut]));
    }
}

/// Reading a magnitude below one gives its canonical pair back.
proof fn lemma_magnitude_small(m: nat, e: int)
    requires
        canonical_pair(m, e),
        e < 0,
        dec_digits(m).len() <= -e,
    ensures
        parse_magnitude(magnitude_text(m, e)) == Some((m, e)),
{
    let digits = dec_digits(m);
    lemma_dec_digits(m);
    let body = magnitude_text(m, e);
    let pad = (-e - digits.len()) as nat;
    assert(body[0] == DIGIT_ZERO);
    assert(body[1] == DOT);
    lemma_first_dot(body, 0, 1);
    assert(integral_part(body) =~= seq![DIGIT_ZERO]);
    assert(is_digit(integral_part(body)[0]));
    assert(fractional_part(body) =~= zeros(pad) + digits);
    assert(integral_part(body) + fractional_part(body) =~= zeros(pad + 1) + digits);
    lemma_leading_zeros(pad, digits);
    lemma_leading_zeros(pad + 1, digits);
}

/// Reading the text of a canonical pair gives the pair back; the text starts with a digit.
pub proof fn lemma_magnitude_round_trip(m: nat, e: int)
    requires
        canonical_pair(m, e),
    ensures
        parse_magnitude(magnitude_text(m, e)) == Some((m, e)),
        magnitude_text(m, e).len() > 0,
        is_digit(magnitude_text(m, e)[0]),
{
    lemma_dec_digits(m);
    assert(is_digit(dec_digits(m)[0]));
    if e >= 0 {
        lemma_magnitude_whole(m, e);
    } else if dec_digits(m).len() > -e {
        lemma_magnitude_split(m, e);
    } else {
        lemma_magnitude_small(m, e);
    }
}

/// Reading the text of a canonical number gives the number back.
pub proof fn lemma_double_round_trip(d: Double)
    requires
        d.is_canonical(),
    ensures
        parse_double(double_text(d)) == d,
{
    let text = double_text(d);
    match d {
        Double::Nan => {
            assert(split_sign(text) == (false, text));
            assert(text != inf_text()) by {
                assert(text[0] == LETTER_N);
                assert(inf_text()[0] == LETTER_I);
            }
            lemma_first_dot(text, 0, 3);
            assert(integral_part(text) =~= text);
            assert(!is_digit(integral_part(text)[0]));
        },
        Double::Infinity { negative } => {
            if negative {
                assert(text.skip(1) =~= inf_text());
            } else {
                assert(text[0] == LETTER_I);
            }
        },
        Double::Finite { negative, mantissa, exponent } => {
            let body = magnitude_text(mantissa as nat, exponent as int);
            lemma_magnitude_round_trip(mantissa as nat, exponent as int);
            assert(text.skip(1) =~= body);
            assert(text[0] == sign_byte(negative));
            assert(split_sign(text) == (negative, body));
            assert(body != inf_text()) by {
                assert(inf_text()[0] == LETTER_I);
            }
        },
    }
}

/// Copies `src` to the end of `out` if it holds digits alone.
fn copy_digits(src: &[u8], out: &mut Vec<u8>) -> (r: bool)
    ensures
        r == all_digits(src@),
        r ==> final(out)@ == old(out)@ + src@,
{
    let n: usize = src.len();
    let mut i: usize = 0;
    while i < n
        invariant
            n == src@.len(),
            i <= n,
            all_digits(src@.take(i as int)),
            out@ == old(out)@ + src@.take(i as int),
        decreases n - i,
    {
        let b: u8 = src[i];
        if b < DIGIT_ZERO || b > DIGIT_NINE {
            assert(!is_digit(src@[i as int]));
            return false;
        }
        out.push(b);
        i = i + 1;
        assert(out@ =~= old(out)@ + src@.take(i as int));
        assert forall|j: int| 0 <= j < i implies is_digit(#[trigger] src@.take(i as int)[j]) by {
            if j < i - 1 {
                assert(src@.take(i - 1)[j] == src@[j]);
            }
        }
    }
    assert(src@.take(n as int) =~= src@);
    true
}

/// Reads an unsigned decimal into a mantissa without trailing zeros and an exponent.
fn parse_magnitude_text(body: &[u8]) -> (r: Option<(u64, i16)>)
    ensures
        match r {
            Some((m, e)) => parse_magnitude(body@) == Some((m as nat, e as int)),
            None => match parse_magnitude(body@) {
                Some((m, e)) => !(m <= u64::MAX && i16::MIN <= e <= i16::MAX),
                None => true,
            },
        },
{
    let n: usize = body.len();
    let mut dot: usize = 0;
    while dot < n && body[dot] != DOT
        invariant
            n == body@.len(),
            dot <= n,
            first_dot_from(body@, 0) == first_dot_from(body@, dot as int),
        decreases n - dot,
    {
        dot = dot + 1;
    }
    assert(first_dot_from(body@, 0) == dot);
    let has_dot: bool = dot < n;
    let integral: &[u8] = vstd::slice::slice_subrange(body, 0, dot);
    let fractional: &[u8] = if has_dot {
        vstd::slice::slice_subrange(body, dot + 1, n)
    } else {
        vstd::slice::slice_subrange(body, n, n)
    };
    assert(integral@ =~= integral_part(body@));
    assert(fractional@ =~= fractional_part(body@));
    let mut digits: Vec<u8> = Vec::new();
    if integral.len() == 0 {
        return None;
    }
    if !copy_digits(integral, &mut digits) {
        return None;
    }
    if has_dot && fractional.len() == 0 {
        return None;
    }
    if !copy_digits(fractional, &mut digits) {
        return None;
    }
    assert(digits@ =~= integral@ + fractional@);
    assert(all_digits(digits@));
    let total: usize = digits.len();
    let mut kept: usize = total;
    while kept > 0 && digits[kept - 1] == DIGIT_ZERO
        invariant
            total == digits@.len(),
            kept <= total,
            forall|j: int| kept <= j < total ==> digits@[j] == DIGIT_ZERO,
        decreases kept,
    {
        kept = kept - 1;
    }
    let shift: usize = fractional.len();
    proof {
        lemma_normalize_digits(digits@, kept as int, -(shift as int));
    }
    if kept == 0 {
        return Some((0, 0));
    }
    let significant: &[u8] = vstd::slice::slice_subrange(digits.as_slice(), 0, kept);
    let mantissa: u64 = match parse_decimal(significant, u64::MAX) {
        Some(m) => m,
        None => {
            proof {
                lemma_dec_value_prefix(digits@, kept as int);
                assert(digits@.subrange(0, kept as int) =~= digits@.take(kept as int));
            }
            return None;
        },
    };
    assert(digits@.subrange(0, kept as int) =~= digits@.take(kept as int));
    let stripped: usize = total - kept;
    if stripped >= shift {
        let up: usize = stripped - shift;
        if up > 32767 {
            return None;
        }
        Some((mantissa, up as i16))
    } else {
        let down: usize = shift - stripped;
        if down > 32768 {
            return None;
        }
        Some((mantissa, (0 - down as i32) as i16))
    }
}

/// Appends `n` zeros to `out`.
fn push_zeros(out: &mut Vec<u8>, n: usize)
    ensures
        final(out)@ == old(out)@ + zeros(n as nat),
{
    let mut i: usize = 0;
    while i < n
        invariant
            i <= n,
            out@ == old(out)@ + zeros(i as nat),
        decreases n - i,
    {
        out.push(DIGIT_ZERO);
        i = i + 1;
        assert(out@ =~= old(out)@ + zeros(i as nat));
    }
}

/// Appends `mantissa` times ten to the `exponent`, written out in full.
fn push_magnitude(out: &mut Vec<u8>, mantissa: u64, exponent: i16)
    ensures
        final(out)@ == old(out)@ + magnitude_text(mantissa as nat, exponent as int),
{
    let mut digits: Vec<u8> = Vec::new();
    push_decimal(&mut digits, mantissa);
    assert(digits@ =~= dec_digits(mantissa as nat));
    let n: usize = digits.len();
    if exponent >= 0 {
        append_bytes(out, digits.as_slice());
        push_zeros(out, exponent as usize);
        assert(final(out)@ =~= old(out)@ + magnitude_text(mantissa as nat, exponent as int));
    } else {
        let shift: usize = (0 - exponent as i32) as usize;
        if n > shift {
            append_bytes(out, vstd::slice::slice_subrange(digits.as_slice(), 0, n - shift));
            out.push(DOT);
            append_bytes(out, vstd::slice::slice_subrange(digits.as_slice(), n - shift, n));
            assert(final(out)@ =~= old(out)@ + magnitude_text(mantissa as nat, exponent as int));
        } else {
            out.push(DIGIT_ZERO);
            out.push(DOT);
            push_zeros(out, shift - n);
            append_bytes(out, digits.as_slice());
            assert(final(out)@ =~= old(out)@ + magnitude_text(mantissa as nat, exponent as int));
        }
    }
}

impl Double {
    /// Whether `self` is the one value that stands for its number: a mantissa
    /// without trailing zeros, and zero with exponent zero.
    pub open spec fn is_canonical(&self) -> bool {
        match *self {
            Double::Finite { negative, mantissa, exponent } => if mantissa == 0 {
                exponent == 0
            } else {
                mantissa % 10 != 0
            },
            _ => true,
        }
    }

    /// The canonical value for `mantissa` times ten to the `exponent`, with
    /// the sign given: the trailing zeros of the mantissa go into the exponent.
    /// There is none where the exponent then passes the top of its range.
    pub fn finite(negative: bool, mantissa: u64, exponent: i16) -> (r: Option<Double>)
        ensures
            match r {
                Some(d) => d.is_canonical() && d == (Double::Finite {
                    negative,
                    mantissa: normalize(mantissa as nat, exponent as int).0 as u64,
                    exponent: normalize(mantissa as nat, exponent as int).1 as i16,
                }) && normalize(mantissa as nat, exponent as int).0 <= u64::MAX && i16::MIN
                    <= normalize(mantissa as nat, exponent as int).1 <= i16::MAX,
                None => normalize(mantissa as nat, exponent as int).1 > i16::MAX,
            },
    {
        let mut m: u64 = mantissa;
        let mut e: i128 = exponent as i128;
        while m != 0 && m % 10 == 0
            invariant
                normalize(mantissa as nat, exponent as int) == normalize(m as nat, e as int),
                exponent <= e,
                e + m <= exponent + mantissa,
            decreases m,
        {
            m = m / 10;
            e = e + 1;
        }
        if m == 0 {
            Some(Double::Finite { negative, mantissa: 0, exponent: 0 })
        } else if e > 32767 {
            None
        } else {
            Some(Double::Finite { negative, mantissa: m, exponent: e as i16 })
        }
    }

    /// Reads a payload. What is no number, or does not fit, reads as `Nan`.
    pub fn parse_text(payload: &[u8]) -> (d: Double)
        ensures
            d == parse_double(payload@),
    {
        let n: usize = payload.len();
        let negative: bool = n > 0 && payload[0] == MINUS;
        let start: usize = if n > 0 && (payload[0] == MINUS || payload[0] == PLUS) {
            1
        } else {
            0
        };
        let body: &[u8] = vstd::slice::slice_subrange(payload, start, n);
        assert(body@ =~= split_sign(payload@).1);
        assert(negative == split_sign(payload@).0);
        if body.len() == 3 && body[0] == LETTER_I && body[1] == LETTER_N && body[2] == LETTER_F {
            assert(body@ =~= inf_text());
            return Double::Infinity { negative };
        }
        assert(body@ != inf_text()) by {
            if body@ == inf_text() {
                assert(inf_text().len() == 3);
                assert(inf_text()[0] == LETTER_I && inf_text()[1] == LETTER_N && inf_text()[2]
                    == LETTER_F);
            }
        }
        match parse_magnitude_text(body) {
            Some((mantissa, exponent)) => Double::Finite { negative, mantissa, exponent },
            None => Double::Nan,
        }
    }

    /// Appends the payload that stands for `self` to `out`.
    pub fn write_text(&self, out: &mut Vec<u8>)
        ensures
            final(out)@ == old(out)@ + double_text(*self),
    {
        match *self {
            Double::Nan => {
                out.push(LETTER_N);
                out.push(LETTER_A);
                out.push(LETTER_N);
                assert(final(out)@ =~= old(out)@ + double_text(*self));
            },
            Double::Infinity { negative } => {
                if negative {
                    out.push(MINUS);
                }
                out.push(LETTER_I);
                out.push(LETTER_N);
                out.push(LETTER_F);
                assert(final(out)@ =~= old(out)@ + double_text(*self));
            },
            Double::Finite { negative, mantissa, exponent } => {
                out.push(if negative { MINUS } else { PLUS });
                push_magnitude(out, mantissa, exponent);
                assert(final(out)@ =~= old(out)@ + double_text(*self));
            },
        }
    }
}

} // verus!
