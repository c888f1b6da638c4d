//! Fixed UTC offsets in hours, held at a resolution of a hundredth of an
//! hour, together with the decimal and scientific notations in which the
//! dataset may store them.

use vstd::prelude::*;
use vstd::arithmetic::power::{
    lemma_pow0,
    lemma_pow1,
    lemma_pow_adds,
    lemma_pow_increases,
    lemma_pow_positive,
    pow,
};
use vstd::string::StrSliceExecFns;

verus! {

/// A fixed UTC offset. Real-world offsets are multiples of a quarter of
/// an hour, so hundredths of an hour represent every one of them exactly.
#[derive(Clone, Copy, Debug, PartialEq, Eq, Structural)]
pub struct UtcOffset {
    /// Hundredths of an hour east of UTC; negative values lie west.
    pub centihours: i64,
}

/// Whether `c` is a decimal digit.
pub open spec fn is_digit(c: char) -> bool {
    48 <= c as u32 <= 57
}

/// The numeric value of the decimal digit `c`.
pub open spec fn digit_val(c: char) -> int {
    c as u32 - 48
}

/// Whether `s` consists of decimal digits only.
pub open spec fn all_digits(s: Seq<char>) -> bool {
    forall|i: int| 0 <= i < s.len() ==> is_digit(#[trigger] s[i])
}

/// The value of a string of decimal digits, most significant first.
pub open spec fn digits_val(s: Seq<char>) -> int
    decreases s.len(),
{
    if s.len() == 0 {
        0
    } else {
        digits_val(s.drop_last()) * 10 + digit_val(s.last())
    }
}

/// The index of the first `'.'` in `s`, or `s.len()` if there is none.
pub open spec fn dot_pos(s: Seq<char>) -> int
    decreases s.len(),
{
    if s.len() == 0 {
        0
    } else if s[0] == '.' {
        0
    } else {
        1 + dot_pos(s.drop_first())
    }
}

/// The index of the first exponent marker `'e'` or `'E'` in `s`, or
/// `s.len()` if there is none.
pub open spec fn exp_pos(s: Seq<char>) -> int
    decreases s.len(),
{
    if s.len() == 0 {
        0
    } else if s[0] == 'e' || s[0] == 'E' {
        0
    } else {
        1 + exp_pos(s.drop_first())
    }
}

/// `s` without its sign, if it carries one.
pub open spec fn body_of(s: Seq<char>) -> Seq<char> {
    if s.len() > 0 && (s[0] == '-' || s[0] == '+') {
        s.drop_first()
    } else {
        s
    }
}

/// Whether `s` denotes a negated value.
pub open spec fn is_negative(s: Seq<char>) -> bool {
    s.len() > 0 && s[0] == '-'
}

/// The part of `body` before any exponent marker.
pub open spec fn mantissa(body: Seq<char>) -> Seq<char> {
    body.take(exp_pos(body))
}

/// Whether `body` carries an exponent marker.
pub open spec fn has_exp(body: Seq<char>) -> bool {
    exp_pos(body) < body.len()
}

/// What follows the exponent marker, sign included.
pub open spec fn exp_str(body: Seq<char>) -> Seq<char> {
    body.skip(exp_pos(body) + 1)
}

/// The exponent's digits, its sign stripped.
pub open spec fn exp_digits(body: Seq<char>) -> Seq<char> {
    body_of(exp_str(body))
}

/// Whether the exponent is negated.
pub open spec fn exp_negative(body: Seq<char>) -> bool {
    is_negative(exp_str(body))
}

/// The mantissa's digits before the decimal point.
pub open spec fn int_part(body: Seq<char>) -> Seq<char> {
    mantissa(body).take(dot_pos(mantissa(body)))
}

/// The mantissa's digits after the decimal point, empty when there is
/// no point.
pub open spec fn frac_part(body: Seq<char>) -> Seq<char> {
    let m = mantissa(body);
    if dot_pos(m) < m.len() {
        m.skip(dot_pos(m) + 1)
    } else {
        Seq::empty()
    }
}

/// All the mantissa's digits, the decimal point dropped.
pub open spec fn mant_digits(body: Seq<char>) -> Seq<char> {
    int_part(body) + frac_part(body)
}

/// The signed value of the exponent, zero when there is none.
pub open spec fn exp_val(body: Seq<char>) -> int {
    if !has_exp(body) {
        0
    } else if exp_negative(body) {
        -digits_val(exp_digits(body))
    } else {
        digits_val(exp_digits(body))
    }
}

/// Ten to the `k`.
pub open spec fn pow10(k: nat) -> int {
    pow(10, k)
}

/// Where the hundredths place falls among the mantissa's digits: the
/// decimal point sits after the integer part, and the exponent and the
/// two hundredths places shift it right.
pub open spec fn centi_cut(body: Seq<char>) -> int {
    int_part(body).len() + 2 + exp_val(body)
}

/// The whole number spelled by the digit string `md` cut after position
/// `cut` — `None` when a digit beyond the cut is not zero, so that the
/// notation does not denote a whole number.
pub open spec fn cut_mag(md: Seq<char>, cut: int) -> Option<int> {
    if cut <= 0 {
        if digits_val(md) == 0 {
            Some(0int)
        } else {
            None
        }
    } else if cut >= md.len() {
        Some(digits_val(md) * pow10((cut - md.len()) as nat))
    } else if (forall|i: int| cut <= i < md.len() ==> (#[trigger] md[i]) as u32 == 48) {
        Some(digits_val(md.take(cut)))
    } else {
        None
    }
}

/// Whether the unsigned part of an offset string reads as a
/// floating-point notation: mantissa digits around an optional decimal
/// point, and, after an optional exponent marker, a possibly signed
/// nonempty run of exponent digits.
pub open spec fn body_well_formed(body: Seq<char>) -> bool {
    &&& mant_digits(body).len() > 0
    &&& all_digits(mant_digits(body))
    &&& (has_exp(body) ==> exp_digits(body).len() > 0 && all_digits(exp_digits(body)))
}

/// The offset, in hundredths of an hour, that the string `s` denotes:
/// `None` when `s` is not a decimal or scientific floating-point
/// notation, when its value is not a whole number of hundredths of an
/// hour, or when the magnitude does not fit the representation.
pub open spec fn spec_parse_offset(s: Seq<char>) -> Option<int> {
    let body = body_of(s);
    if body_well_formed(body) {
        match cut_mag(mant_digits(body), centi_cut(body)) {
            Option::Some(mag) => if mag <= i64::MAX {
                if is_negative(s) {
                    Some(-mag)
                } else {
                    Some(mag)
                }
            } else {
                None
            },
            Option::None => None,
        }
    } else {
        None
    }
}

proof fn lemma_dot_pos_at(s: Seq<char>, d: int)
    requires
        0 <= d <= s.len(),
        forall|k: int| 0 <= k < d ==> s[k] != '.',
        d < s.len() ==> s[d] == '.',
    ensures
        dot_pos(s) == d,
    decreases s.len(),
{
    if s.len() == 0 {
    } else if s[0] == '.' {
        assert(d == 0);
    } else {
        assert(d > 0);
        lemma_dot_pos_at(s.drop_first(), d - 1);
    }
}

proof fn lemma_exp_pos_at(s: Seq<char>, d: int)
    requires
        0 <= d <= s.len(),
        forall|k: int| 0 <= k < d ==> s[k] != 'e' && s[k] != 'E',
        d < s.len() ==> s[d] == 'e' || s[d] == 'E',
    ensures
        exp_pos(s) == d,
    decreases s.len(),
{
    if s.len() == 0 {
    } else if s[0] == 'e' || s[0] == 'E' {
        assert(d == 0);
    } else {
        assert(d > 0);
        lemma_exp_pos_at(s.drop_first(), d - 1);
    }
}

proof fn lemma_digits_val_nonneg(s: Seq<char>)
    requires
        all_digits(s),
    ensures
        digits_val(s) >= 0,
    decreases s.len(),
{
    if s.len() > 0 {
        assert(all_digits(s.drop_last()));
        lemma_digits_val_nonneg(s.drop_last());
    }
}

proof fn lemma_digits_val_prefix(s: Seq<char>, i: int)
    requires
        all_digits(s),
        0 <= i <= s.len(),
    ensures
        digits_val(s.take(i)) <= digits_val(s),
    decreases s.len(),
{
    if i == s.len() {
        assert(s.take(i) =~= s);
    } else {
        assert(all_digits(s.drop_last()));
        assert(s.take(i) =~= s.drop_last().take(i));
        lemma_digits_val_prefix(s.drop_last(), i);
        lemma_digits_val_nonneg(s.drop_last());
    }
}

proof fn lemma_digits_val_step(s: Seq<char>, i: int)
    requires
        0 <= i < s.len(),
    ensures
        digits_val(s.take(i + 1)) == digits_val(s.take(i)) * 10 + digit_val(s[i]),
{
    assert(s.take(i + 1).drop_last() =~= s.take(i));
    assert(s.take(i + 1).last() == s[i]);
}

proof fn lemma_digits_val_zero(s: Seq<char>)
    requires
        all_digits(s),
    ensures
        (digits_val(s) == 0) <==> (forall|i: int|
            0 <= i < s.len() ==> (#[trigger] s[i]) as u32 == 48),
    decreases s.len(),
{
    if s.len() > 0 {
        assert(all_digits(s.drop_last()));
        lemma_digits_val_zero(s.drop_last());
        lemma_digits_val_nonneg(s.drop_last());
        assert(forall|i: int| 0 <= i < s.len() - 1 ==> (#[trigger] s[i]) == s.drop_last()[i]);
        assert(s.last() == s[s.len() - 1]);
    }
}

proof fn lemma_pow10_big(k: nat)
    requires
        k >= 19,
    ensures
        pow10(k) > i64::MAX,
{
    assert(pow(10, 19) == 10_000_000_000_000_000_000) by {
        reveal_with_fuel(pow, 20);
    }
    lemma_pow_increases(10, 19, k);
}

/// Scan for the first decimal point between `from` and `to`.
fn scan_dot(s: &str, from: usize, to: usize) -> (dot: usize)
    requires
        from <= to <= s@.len(),
    ensures
        from <= dot <= to,
        dot < to ==> s@[dot as int] == '.',
        forall|k: int| from <= k < dot ==> s@[k] != '.',
{
    let mut i: usize = from;
    while i < to
        invariant
            from <= i <= to <= s@.len(),
            forall|k: int| from <= k < i ==> s@[k] != '.',
        decreases to - i,
    {
        if s.get_char(i) == '.' {
            return i;
        }
        i = i + 1;
    }
    to
}

/// Scan for the first exponent marker between `from` and `to`.
fn scan_exp(s: &str, from: usize, to: usize) -> (epos: usize)
    requires
        from <= to <= s@.len(),
    ensures
        from <= epos <= to,
        epos < to ==> s@[epos as int] == 'e' || s@[epos as int] == 'E',
        forall|k: int| from <= k < epos ==> s@[k] != 'e' && s@[k] != 'E',
{
    let mut i: usize = from;
    while i < to
        invariant
            from <= i <= to <= s@.len(),
            forall|k: int| from <= k < i ==> s@[k] != 'e' && s@[k] != 'E',
        decreases to - i,
    {
        let c = s.get_char(i);
        if c == 'e' || c == 'E' {
            return i;
        }
        i = i + 1;
    }
    to
}

/// Read the digits of `s` between `from` and `to` as a number,
/// saturating just above `cap` — enough to tell apart every exponent
/// that could matter. `None` when a character there is not a digit.
fn parse_sat_digits(s: &str, from: usize, to: usize, cap: u128) -> (r: Option<u128>)
    requires
        from <= to <= s@.len(),
        cap <= 0x2000_0000_0000_0000_0000,
    ensures
        r is Some <==> all_digits(s@.subrange(from as int, to as int)),
        r is Some ==> r->0 <= cap + 1,
        r is Some && digits_val(s@.subrange(from as int, to as int)) <= cap ==> r->0
            == digits_val(s@.subrange(from as int, to as int)),
        r is Some && digits_val(s@.subrange(from as int, to as int)) > cap ==> r->0 == cap + 1,
{
    let ghost d = s@.subrange(from as int, to as int);
    let mut acc: u128 = 0;
    let mut i: usize = from;
    while i < to
        invariant
            from <= i <= to <= s@.len(),
            d == s@.subrange(from as int, to as int),
            cap <= 0x2000_0000_0000_0000_0000,
            all_digits(d.take(i - from)),
            digits_val(d.take(i - from)) <= cap ==> acc == digits_val(d.take(i - from)),
            digits_val(d.take(i - from)) > cap ==> acc == cap + 1,
            acc <= cap + 1,
        decreases to - i,
    {
        let c = s.get_char(i);
        let u = c as u32;
        if u < 48 || u > 57 {
            proof {
                assert(d[i - from] == s@[i as int]);
                assert(!is_digit(d[i - from]));
            }
            return None;
        }
        proof {
            lemma_digits_val_step(d, i - from);
            assert(d.take(i - from + 1).take(i - from) =~= d.take(i - from));
            assert(d[i - from] == s@[i as int]);
            lemma_digits_val_nonneg(d.take(i - from));
        }
        if acc <= cap {
            let next: u128 = acc * 10 + ((u - 48) as u128);
            if next > cap {
                acc = cap + 1;
            } else {
                acc = next;
            }
        }
        i = i + 1;
    }
    proof {
        assert(d.take(to - from) =~= d);
    }
    Some(acc)
}

/// Whether every character of `v` is a digit and every digit is zero.
fn zero_digits(v: &Vec<char>) -> (r: Option<bool>)
    ensures
        r is Some <==> all_digits(v@),
        r is Some ==> (r->0 <==> digits_val(v@) == 0),
{
    let mut zero: bool = true;
    let mut q: usize = 0;
    while q < v.len()
        invariant
            0 <= q <= v@.len(),
            all_digits(v@.take(q as int)),
            zero <==> (forall|i: int| 0 <= i < q ==> (#[trigger] v@[i]) as u32 == 48),
        decreases v@.len() - q,
    {
        let u = v[q] as u32;
        if u < 48 || u > 57 {
            proof {
                assert(!is_digit(v@[q as int]));
            }
            return None;
        }
        if u != 48 {
            zero = false;
        }
        q = q + 1;
    }
    proof {
        assert(v@.take(v@.len() as int) =~= v@);
        lemma_digits_val_zero(v@);
    }
    Some(zero)
}

/// Read the digit characters of `v`, cut after position `cut`, as a
/// whole number. `None` when a character is not a digit, when a digit
/// beyond the cut is not zero, or when the number exceeds the offset
/// representation.
fn cut_centi(v: &Vec<char>, cut: i128) -> (r: Option<u128>)
    ensures
        r is Some <==> all_digits(v@) && cut_mag(v@, cut as int) is Some && cut_mag(
            v@,
            cut as int,
        )->0 <= i64::MAX,
        r is Some ==> r->0 as int == cut_mag(v@, cut as int)->0,
{
    let len: usize = v.len();
    let ghost ccl: int = if cut <= 0 {
        0int
    } else if cut as int >= v@.len() {
        v@.len() as int
    } else {
        cut as int
    };
    let mut acc: u128 = 0;
    let mut q: usize = 0;
    while q < len
        invariant
            0 <= q <= len,
            len == v@.len(),
            ccl == (if cut <= 0 {
                0int
            } else if cut as int >= v@.len() {
                v@.len() as int
            } else {
                cut as int
            }),
            all_digits(v@.take(q as int)),
            acc == digits_val(v@.take(if q as int <= ccl { q as int } else { ccl })),
            acc <= i64::MAX as u128,
            forall|i: int| ccl <= i < q ==> (#[trigger] v@[i]) as u32 == 48,
        decreases len - q,
    {
        let c = v[q];
        let u = c as u32;
        if u < 48 || u > 57 {
            proof {
                assert(!is_digit(v@[q as int]));
            }
            return None;
        }
        if (q as i128) < cut {
            proof {
                lemma_digits_val_step(v@, q as int);
                assert(v@.take(q as int + 1).take(q as int) =~= v@.take(q as int));
            }
            acc = acc * 10 + ((u - 48) as u128);
            if acc > (i64::MAX as u128) {
                proof {
                    if all_digits(v@) {
                        if cut as int >= v@.len() {
                            lemma_digits_val_prefix(v@, q as int + 1);
                            lemma_pow_positive(10, (cut as int - v@.len()) as nat);
                            assert(digits_val(v@) * pow10((cut as int - v@.len()) as nat)
                                >= digits_val(v@)) by (nonlinear_arith)
                                requires
                                    digits_val(v@) >= 0,
                                    pow10((cut as int - v@.len()) as nat) >= 1,
                            ;
                        } else {
                            assert(all_digits(v@.take(cut as int)));
                            assert(v@.take(cut as int).take(q as int + 1) =~= v@.take(
                                q as int + 1,
                            ));
                            lemma_digits_val_prefix(v@.take(cut as int), q as int + 1);
                        }
                    }
                }
                return None;
            }
        } else {
            if u != 48 {
                proof {
                    if all_digits(v@) && cut <= 0 {
                        lemma_digits_val_zero(v@);
                    }
                }
                return None;
            }
        }
        q = q + 1;
    }
    proof {
        assert(v@.take(len as int) =~= v@);
        assert(all_digits(v@));
    }
    if cut <= 0 {
        proof {
            lemma_digits_val_zero(v@);
        }
        return Some(acc);
    }
    if cut < (len as i128) {
        return Some(acc);
    }
    // the cut lies at or past the end: scale by the remaining places
    let ghost dv = digits_val(v@);
    proof {
        assert(ccl == len as int);
        assert(acc == dv);
        lemma_digits_val_nonneg(v@);
    }
    if acc == 0 {
        proof {
            assert(dv * pow10((cut as int - v@.len()) as nat) == 0) by (nonlinear_arith)
                requires
                    dv == 0,
            ;
        }
        return Some(0);
    }
    let total: u128 = (cut - (len as i128)) as u128;
    let mut j: u128 = 0;
    proof {
        lemma_pow0(10);
    }
    while j < total
        invariant
            0 <= j <= total,
            total == cut as int - v@.len(),
            cut as int >= v@.len(),
            len == v@.len(),
            dv == digits_val(v@),
            all_digits(v@),
            1 <= dv,
            acc as int == dv * pow10(j as nat),
            acc <= i64::MAX as u128,
        decreases total - j,
    {
        let next: u128 = acc * 10;
        proof {
            lemma_pow_adds(10, j as nat, 1);
            lemma_pow1(10);
            assert(next as int == dv * pow10((j + 1) as nat)) by (nonlinear_arith)
                requires
                    next as int == (dv * pow10(j as nat)) * 10,
                    pow10((j + 1) as nat) == pow10(j as nat) * 10,
            ;
        }
        if next > (i64::MAX as u128) {
            proof {
                lemma_pow_adds(10, (j + 1) as nat, (total - j - 1) as nat);
                lemma_pow_positive(10, (total - j - 1) as nat);
                lemma_pow_positive(10, (j + 1) as nat);
                assert(dv * pow10(total as nat) > i64::MAX) by (nonlinear_arith)
                    requires
                        dv * pow10((j + 1) as nat) > i64::MAX,
                        dv >= 1,
                        pow10(total as nat) == pow10((j + 1) as nat) * pow10(
                            (total - j - 1) as nat,
                        ),
                        pow10((total - j - 1) as nat) >= 1,
                        pow10((j + 1) as nat) >= 1,
                ;
            }
            return None;
        }
        acc = next;
        j = j + 1;
    }
    Some(acc)
}

/// Read a UTC offset from a floating-point notation: an optional sign,
/// mantissa digits around an optional decimal point, and an optional
/// exponent. Yields `None` exactly when the string is not of that
/// shape, when its value is not a whole number of hundredths of an
/// hour, or when the magnitude does not fit.
#[verifier::rlimit(80)]
pub fn parse_utc_offset(s: &str) -> (r: Option<UtcOffset>)
    ensures
        r is Some <==> spec_parse_offset(s@) is Some,
        r is Some ==> r->0.centihours as int == spec_parse_offset(s@)->0,
{
    let n: usize = s.unicode_len();
    let mut start: usize = 0;
    let mut neg: bool = false;
    if n > 0 {
        let c0 = s.get_char(0);
        if c0 == '-' {
            neg = true;
            start = 1;
        } else if c0 == '+' {
            start = 1;
        }
    }
    let ghost body = body_of(s@);
    proof {
        assert(body =~= s@.skip(start as int));
        assert(neg == is_negative(s@));
        assert(forall|k: int| 0 <= k < body.len() ==> body[k] == s@[start + k]);
    }

    let epos = scan_exp(s, start, n);
    proof {
        lemma_exp_pos_at(body, epos - start);
        assert(mantissa(body) =~= s@.subrange(start as int, epos as int));
    }
    let ghost mant = mantissa(body);
    let dot = scan_dot(s, start, epos);
    proof {
        assert(forall|k: int| 0 <= k < mant.len() ==> mant[k] == s@[start + k]);
        lemma_dot_pos_at(mant, dot - start);
        assert(int_part(body) =~= s@.subrange(start as int, dot as int));
        if dot < epos {
            assert(frac_part(body) =~= s@.subrange(dot + 1, epos as int));
        } else {
            assert(frac_part(body).len() == 0);
        }
    }

    // collect the mantissa's digit characters, the point dropped
    let mut digits: Vec<char> = Vec::new();
    let mut q: usize = start;
    while q < dot
        invariant
            start <= q <= dot <= s@.len(),
            digits@ =~= s@.subrange(start as int, q as int),
        decreases dot - q,
    {
        digits.push(s.get_char(q));
        q = q + 1;
    }
    if dot < epos {
        let mut q2: usize = dot + 1;
        while q2 < epos
            invariant
                dot + 1 <= q2 <= epos <= s@.len(),
                dot < s@.len(),
                start <= dot,
                digits@ =~= s@.subrange(start as int, dot as int) + s@.subrange(
                    dot + 1,
                    q2 as int,
                ),
            decreases epos - q2,
        {
            digits.push(s.get_char(q2));
            q2 = q2 + 1;
        }
    }
    proof {
        assert(digits@ =~= mant_digits(body));
    }

    if digits.len() == 0 {
        // no mantissa digits at all
        return None;
    }

    // the exponent, saturated just above anything that could matter
    let cap: u128 = (n as u128) + 20;
    let mut eneg: bool = false;
    let mut emag: u128 = 0;
    if epos < n {
        let mut es: usize = epos + 1;
        if es < n {
            let c = s.get_char(es);
            if c == '-' {
                eneg = true;
                es = es + 1;
            } else if c == '+' {
                es = es + 1;
            }
        }
        proof {
            assert(exp_str(body) =~= s@.subrange(epos + 1, n as int));
            assert(exp_digits(body) =~= s@.subrange(es as int, n as int));
            assert(eneg == exp_negative(body));
        }
        if es == n {
            // an exponent marker with no digits after it
            proof {
                assert(exp_digits(body).len() == 0);
            }
            return None;
        }
        emag = match parse_sat_digits(s, es, n, cap) {
            Some(v) => v,
            None => {
                return None;
            },
        };
    }

    if emag > cap {
        // the exponent is so large that only an all-zero mantissa fits
        let ghost md = mant_digits(body);
        proof {
            assert(digits_val(exp_digits(body)) > cap);
            assert(md.len() <= n);
            assert(int_part(body).len() <= n);
        }
        match zero_digits(&digits) {
            None => {
                return None;
            },
            Some(true) => {
                proof {
                    if !exp_negative(body) {
                        assert(centi_cut(body) >= md.len());
                        assert(digits_val(md) * pow10((centi_cut(body) - md.len()) as nat)
                            == 0) by (nonlinear_arith)
                            requires
                                digits_val(md) == 0,
                        ;
                    }
                    assert(cut_mag(md, centi_cut(body)) == Some(0int));
                }
                return Some(UtcOffset { centihours: 0 });
            },
            Some(false) => {
                proof {
                    lemma_digits_val_nonneg(md);
                    lemma_digits_val_zero(md);
                    if !exp_negative(body) {
                        let shift = (centi_cut(body) - md.len()) as nat;
                        assert(shift >= 19);
                        lemma_pow10_big(shift);
                        assert(digits_val(md) * pow10(shift) >= pow10(shift)) by (nonlinear_arith)
                            requires
                                digits_val(md) >= 1,
                                pow10(shift) >= 0,
                        ;
                    } else {
                        assert(centi_cut(body) <= 0);
                    }
                }
                return None;
            },
        }
    }

    let ev: i128 = if eneg {
        -(emag as i128)
    } else {
        emag as i128
    };
    let cut: i128 = ((dot - start) as i128) + 2 + ev;
    proof {
        assert(ev as int == exp_val(body));
        assert(cut as int == centi_cut(body));
    }
    let mag = match cut_centi(&digits, cut) {
        Some(m) => m,
        None => {
            return None;
        },
    };
    proof {
        assert(body_well_formed(body));
    }
    let magnitude: i64 = mag as i64;
    let centihours: i64 = if neg {
        -magnitude
    } else {
        magnitude
    };
    Some(UtcOffset { centihours })
}

} // verus!
