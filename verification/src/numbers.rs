//! Recognizers for the numeric and boolean literals that cell coercion
//! distinguishes: exact decimal integers in `i64` range, the decimal
//! floating-point grammar (including signed `inf`, `infinity` and `nan`),
//! and the two boolean spellings.

use vstd::prelude::*;

verus! {

pub open spec fn spec_is_digit(c: char) -> bool {
    '0' <= c && c <= '9'
}

pub open spec fn spec_digit_val(c: char) -> int {
    c as int - '0' as int
}

pub open spec fn spec_all_digits(s: Seq<char>) -> bool {
    forall|i: int| 0 <= i < s.len() ==> spec_is_digit(s[i])
}

/// Value of a sequence of decimal digits, most significant first.
pub open spec fn spec_digits_val(s: Seq<char>) -> int
    decreases s.len(),
{
    if s.len() == 0 {
        0
    } else {
        spec_digits_val(s.drop_last()) * 10 + spec_digit_val(s.last())
    }
}

/// The sequence with one leading `+` or `-` removed, if present.
pub open spec fn spec_strip_sign(s: Seq<char>) -> Seq<char> {
    if s.len() > 0 && (s[0] == '+' || s[0] == '-') {
        s.drop_first()
    } else {
        s
    }
}

pub open spec fn spec_is_negative(s: Seq<char>) -> bool {
    s.len() > 0 && s[0] == '-'
}

/// What `i64::from_str` returns: an optional sign, one or more digits,
/// and a value within `i64` range; anything else is `None`.
pub open spec fn spec_parse_i64(s: Seq<char>) -> Option<i64> {
    let body = spec_strip_sign(s);
    if body.len() > 0 && spec_all_digits(body) {
        let v = if spec_is_negative(s) {
            -spec_digits_val(body)
        } else {
            spec_digits_val(body)
        };
        if i64::MIN <= v <= i64::MAX {
            Some(v as i64)
        } else {
            None
        }
    } else {
        None
    }
}

proof fn lemma_digits_val_nonneg(s: Seq<char>)
    requires
        spec_all_digits(s),
    ensures
        spec_digits_val(s) >= 0,
    decreases s.len(),
{
    if s.len() > 0 {
        lemma_digits_val_nonneg(s.drop_last());
        assert(spec_digits_val(s.drop_last()) * 10 >= 0) by (nonlinear_arith)
            requires spec_digits_val(s.drop_last()) >= 0;
    }
}

proof fn lemma_digits_val_grows(s: Seq<char>, c: char)
    requires
        spec_all_digits(s),
        spec_is_digit(c),
    ensures
        spec_digits_val(s.push(c)) >= spec_digits_val(s) * 10,
        spec_digits_val(s.push(c)) == spec_digits_val(s) * 10 + spec_digit_val(c),
{
    assert(s.push(c).drop_last() =~= s);
    assert(s.push(c).last() == c);
}

/// Parses `chars` exactly as `i64::from_str` would.
#[verifier::loop_isolation(false)]
pub fn parse_i64_chars(chars: &Vec<char>) -> (r: Option<i64>)
    ensures
        r == spec_parse_i64(chars@),
{
    let n = chars.len();
    let mut i: usize = 0;
    let mut neg = false;
    if n > 0 && (chars[0] == '+' || chars[0] == '-') {
        neg = chars[0] == '-';
        i = 1;
    }
    if i >= n {
        // sign alone, or empty input
        return None;
    }
    let ghost body = spec_strip_sign(chars@);
    proof {
        assert(body =~= chars@.subrange(i as int, n as int));
    }
    // 2^63, the magnitude bound: values above it are out of range either way
    let limit: u64 = 9223372036854775808;
    let mut acc: u64 = 0;
    let mut too_big = false;
    let mut j: usize = i;
    while j < n
        invariant
            i <= j <= n,
            n == chars@.len(),
            limit == 9223372036854775808u64,
            body == chars@.subrange(i as int, n as int),
            spec_all_digits(chars@.subrange(i as int, j as int)),
            !too_big ==> acc == spec_digits_val(chars@.subrange(i as int, j as int)) && acc
                <= limit,
            too_big ==> spec_digits_val(chars@.subrange(i as int, j as int)) > limit,
        decreases n - j,
    {
        let c = chars[j];
        if !(c >= '0' && c <= '9') {
            proof {
                assert(!spec_is_digit(c));
                assert(body[j - i] == chars@[j as int]);
                assert(!spec_all_digits(body));
            }
            return None;
        }
        let d: u64 = (c as u32 - 48) as u64;
        let ghost prefix = chars@.subrange(i as int, j as int);
        let ghost prefix2 = chars@.subrange(i as int, j + 1 as int);
        proof {
            assert(prefix2 =~= prefix.push(c));
            lemma_digits_val_nonneg(prefix);
            lemma_digits_val_grows(prefix, c);
        }
        if too_big {
            proof {
                assert(spec_digits_val(prefix) * 10 > limit * 10) by (nonlinear_arith)
                    requires spec_digits_val(prefix) > limit, limit > 0;
            }
        } else if acc > (limit - d) / 10 {
            proof {
                assert(spec_digits_val(prefix) * 10 + spec_digit_val(c) > limit)
                    by (nonlinear_arith)
                    requires
                        spec_digits_val(prefix) == acc,
                        spec_digit_val(c) == d,
                        0 <= d <= 9,
                        acc > (limit - d) / 10,
                        limit == 9223372036854775808u64;
            }
            too_big = true;
        } else {
            proof {
                assert(acc * 10 + d <= limit) by (nonlinear_arith)
                    requires
                        0 <= d <= 9,
                        0 <= acc <= (limit - d) / 10,
                        limit == 9223372036854775808u64;
            }
            acc = acc * 10 + d;
        }
        j = j + 1;
    }
    proof {
        assert(chars@.subrange(i as int, n as int) =~= body);
        lemma_digits_val_nonneg(body);
    }
    if too_big {
        return None;
    }
    if neg {
        if acc == limit {
            Some(i64::MIN)
        } else {
            Some(-(acc as i64))
        }
    } else {
        if acc == limit {
            None
        } else {
            Some(acc as i64)
        }
    }
}

/// Case-insensitive match of one character against a lowercase letter.
pub open spec fn spec_ci(c: char, lo: char, up: char) -> bool {
    c == lo || c == up
}

/// True when `s` spells `inf`, `infinity` or `nan`, ignoring ASCII case.
pub open spec fn spec_is_inf_nan(s: Seq<char>) -> bool {
    (s.len() == 3 && spec_ci(s[0], 'i', 'I') && spec_ci(s[1], 'n', 'N') && spec_ci(
        s[2],
        'f',
        'F',
    )) || (s.len() == 8 && spec_ci(s[0], 'i', 'I') && spec_ci(s[1], 'n', 'N') && spec_ci(
        s[2],
        'f',
        'F',
    ) && spec_ci(s[3], 'i', 'I') && spec_ci(s[4], 'n', 'N') && spec_ci(s[5], 'i', 'I') && spec_ci(
        s[6],
        't',
        'T',
    ) && spec_ci(s[7], 'y', 'Y')) || (s.len() == 3 && spec_ci(s[0], 'n', 'N') && spec_ci(
        s[1],
        'a',
        'A',
    ) && spec_ci(s[2], 'n', 'N'))
}

pub open spec fn spec_is_e(c: char) -> bool {
    c == 'e' || c == 'E'
}

pub open spec fn spec_num_dots(s: Seq<char>) -> nat
    decreases s.len(),
{
    if s.len() == 0 {
        0
    } else {
        spec_num_dots(s.drop_last()) + if s.last() == '.' {
            1nat
        } else {
            0nat
        }
    }
}

pub open spec fn spec_num_digits(s: Seq<char>) -> nat
    decreases s.len(),
{
    if s.len() == 0 {
        0
    } else {
        spec_num_digits(s.drop_last()) + if spec_is_digit(s.last()) {
            1nat
        } else {
            0nat
        }
    }
}

/// Digits with at most one `.` among them and at least one digit.
pub open spec fn spec_is_mantissa(s: Seq<char>) -> bool {
    (forall|i: int| 0 <= i < s.len() ==> spec_is_digit(s[i]) || s[i] == '.') && spec_num_dots(s)
        <= 1 && spec_num_digits(s) >= 1
}

/// An optional sign followed by one or more digits.
pub open spec fn spec_is_exponent(s: Seq<char>) -> bool {
    spec_strip_sign(s).len() > 0 && spec_all_digits(spec_strip_sign(s))
}

/// Index of the first `e` or `E` in `s`, if any.
pub open spec fn spec_find_e(s: Seq<char>) -> Option<int>
    decreases s.len(),
{
    if s.len() == 0 {
        None
    } else if spec_is_e(s[0]) {
        Some(0)
    } else {
        match spec_find_e(s.drop_first()) {
            Some(i) => Some(i + 1),
            None => None,
        }
    }
}

/// A decimal number body: a mantissa, optionally followed by `e`/`E` and an
/// exponent.
pub open spec fn spec_is_number(s: Seq<char>) -> bool {
    match spec_find_e(s) {
        None => spec_is_mantissa(s),
        Some(i) => spec_is_mantissa(s.take(i)) && spec_is_exponent(
            s.subrange(i + 1, s.len() as int),
        ),
    }
}

/// The grammar `f64::from_str` accepts: an optional sign, then `inf`,
/// `infinity`, `nan` (any ASCII case) or a decimal number with an optional
/// exponent.
pub open spec fn spec_is_float_literal(s: Seq<char>) -> bool {
    spec_is_inf_nan(spec_strip_sign(s)) || spec_is_number(spec_strip_sign(s))
}

proof fn lemma_find_e_some(s: Seq<char>, p: int)
    requires
        0 <= p < s.len(),
        spec_is_e(s[p]),
        forall|j: int| 0 <= j < p ==> !spec_is_e(s[j]),
    ensures
        spec_find_e(s) == Some(p),
    decreases s.len(),
{
    if p > 0 {
        lemma_find_e_some(s.drop_first(), p - 1);
    }
}

proof fn lemma_find_e_none(s: Seq<char>)
    requires
        forall|j: int| 0 <= j < s.len() ==> !spec_is_e(s[j]),
    ensures
        spec_find_e(s) is None,
    decreases s.len(),
{
    if s.len() > 0 {
        lemma_find_e_none(s.drop_first());
    }
}

proof fn lemma_find_e_bounds(s: Seq<char>)
    ensures
        match spec_find_e(s) {
            Some(p) => 0 <= p < s.len() && spec_is_e(s[p]) && forall|j: int|
                0 <= j < p ==> !spec_is_e(s[j]),
            None => forall|j: int| 0 <= j < s.len() ==> !spec_is_e(s[j]),
        },
    decreases s.len(),
{
    if s.len() > 0 && !spec_is_e(s[0]) {
        lemma_find_e_bounds(s.drop_first());
        let t = s.drop_first();
        match spec_find_e(t) {
            Some(p) => {
                assert(s[p + 1] == t[p]);
                assert forall|j: int| 0 <= j < p + 1 implies !spec_is_e(s[j]) by {
                    if j > 0 {
                        assert(t[j - 1] == s[j]);
                    }
                }
            },
            None => {
                assert forall|j: int| 0 <= j < s.len() implies !spec_is_e(s[j]) by {
                    if j > 0 {
                        assert(t[j - 1] == s[j]);
                    }
                }
            },
        }
    }
}

/// Decides `spec_is_float_literal`, the shape test behind every
/// `parse::<f64>().is_ok()` of the original coercion chain.
#[verifier::loop_isolation(false)]
#[verifier::rlimit(100)]
pub fn is_float_literal_chars(chars: &Vec<char>) -> (r: bool)
    ensures
        r == spec_is_float_literal(chars@),
{
    let n = chars.len();
    let mut i: usize = 0;
    if n > 0 && (chars[0] == '+' || chars[0] == '-') {
        i = 1;
    }
    let ghost body = spec_strip_sign(chars@);
    proof {
        assert(body =~= chars@.subrange(i as int, n as int));
    }
    // inf / infinity / nan, ignoring ASCII case
    if n - i == 3 {
        let c0 = chars[i];
        let c1 = chars[i + 1];
        let c2 = chars[i + 2];
        if (c0 == 'i' || c0 == 'I') && (c1 == 'n' || c1 == 'N') && (c2 == 'f' || c2 == 'F') {
            return true;
        }
        if (c0 == 'n' || c0 == 'N') && (c1 == 'a' || c1 == 'A') && (c2 == 'n' || c2 == 'N') {
            return true;
        }
    }
    if n - i == 8 {
        let w = [
            ('i', 'I'),
            ('n', 'N'),
            ('f', 'F'),
            ('i', 'I'),
            ('n', 'N'),
            ('i', 'I'),
            ('t', 'T'),
            ('y', 'Y'),
        ];
        let mut all: bool = true;
        let mut k: usize = 0;
        while k < 8
            invariant
                k <= 8,
                all ==> forall|j: int| 0 <= j < k ==> spec_ci(body[j], w@[j].0, w@[j].1),
                !all ==> exists|j: int| 0 <= j < k && !spec_ci(body[j], w@[j].0, w@[j].1),
            decreases 8 - k,
        {
            let c = chars[i + k];
            if !(c == w[k].0 || c == w[k].1) {
                proof {
                    assert(body[k as int] == chars@[i + k]);
                }
                all = false;
                assert(!spec_ci(body[k as int], w@[k as int].0, w@[k as int].1));
            }
            k = k + 1;
        }
        if all {
            return true;
        }
    }
    // mantissa: digits with at most one dot, before any exponent marker
    let mut k: usize = i;
    let mut dots: usize = 0;
    let mut digs: usize = 0;
    while k < n && !(chars[k] == 'e' || chars[k] == 'E')
        invariant
            i <= k <= n,
            forall|j: int| i <= j < k ==> !spec_is_e(chars@[j]),
            forall|j: int|
                i <= j < k ==> spec_is_digit(chars@[j]) || chars@[j] == '.',
            dots <= k,
            digs <= k,
            dots == spec_num_dots(chars@.subrange(i as int, k as int)),
            digs == spec_num_digits(chars@.subrange(i as int, k as int)),
        decreases n - k,
    {
        let c = chars[k];
        let ghost pre = chars@.subrange(i as int, k as int);
        proof {
            assert(chars@.subrange(i as int, k + 1 as int) =~= pre.push(chars@[k as int]));
            assert((pre.push(chars@[k as int])).drop_last() =~= pre);
            assert((pre.push(chars@[k as int])).last() == chars@[k as int]);
        }
        if c == '.' {
            dots = dots + 1;
        } else if c >= '0' && c <= '9' {
            digs = digs + 1;
        } else {
            // neither digit, dot nor exponent marker: no number shape fits
            proof {
                lemma_find_e_bounds(body);
                if let Some(p) = spec_find_e(body) {
                    assert(body[p] == chars@[i + p]);
                    assert(p > k - i);
                    assert(body.take(p)[k - i] == chars@[k as int]);
                } else {
                    assert(body[k - i] == chars@[k as int]);
                }
            }
            return false;
        }
        k = k + 1;
    }
    let ghost mant = chars@.subrange(i as int, k as int);
    proof {
        if k == n {
            lemma_find_e_none(body);
            assert(mant =~= body);
        } else {
            lemma_find_e_some(body, k - i);
            assert(body.take(k - i) =~= mant);
        }
    }
    if !(dots <= 1 && digs >= 1) {
        return false;
    }
    if k == n {
        return true;
    }
    // exponent after the marker: optional sign, then one or more digits
    let ghost expo = chars@.subrange(k + 1 as int, n as int);
    proof {
        assert(body.subrange(k - i + 1, body.len() as int) =~= expo);
    }
    let mut m = k + 1;
    if m < n && (chars[m] == '+' || chars[m] == '-') {
        m = m + 1;
    }
    let ghost edigits = spec_strip_sign(expo);
    proof {
        assert(edigits =~= chars@.subrange(m as int, n as int));
    }
    if m >= n {
        return false;
    }
    let mut q = m;
    while q < n
        invariant
            m <= q <= n,
            forall|j: int| m <= j < q ==> spec_is_digit(chars@[j]),
        decreases n - q,
    {
        let c = chars[q];
        if !(c >= '0' && c <= '9') {
            proof {
                assert(edigits[q - m] == chars@[q as int]);
            }
            return false;
        }
        q = q + 1;
    }
    true
}

/// `true` and `false` are the only boolean spellings, exactly as
/// `bool::from_str` reads them.
pub open spec fn spec_parse_bool(s: Seq<char>) -> Option<bool> {
    if s == seq!['t', 'r', 'u', 'e'] {
        Some(true)
    } else if s == seq!['f', 'a', 'l', 's', 'e'] {
        Some(false)
    } else {
        None
    }
}

pub fn parse_bool_chars(chars: &Vec<char>) -> (r: Option<bool>)
    ensures
        r == spec_parse_bool(chars@),
{
    if chars.len() == 4 && chars[0] == 't' && chars[1] == 'r' && chars[2] == 'u' && chars[3]
        == 'e' {
        proof {
            assert(chars@ =~= seq!['t', 'r', 'u', 'e']);
        }
        Some(true)
    } else if chars.len() == 5 && chars[0] == 'f' && chars[1] == 'a' && chars[2] == 'l'
        && chars[3] == 's' && chars[4] == 'e' {
        proof {
            assert(chars@ =~= seq!['f', 'a', 'l', 's', 'e']);
        }
        Some(false)
    } else {
        proof {
            if chars@ == seq!['t', 'r', 'u', 'e'] {
                assert(chars@.len() == 4);
                assert(chars@[0] == 't' && chars@[1] == 'r' && chars@[2] == 'u' && chars@[3]
                    == 'e');
            }
            if chars@ == seq!['f', 'a', 'l', 's', 'e'] {
                assert(chars@.len() == 5);
                assert(chars@[0] == 'f' && chars@[1] == 'a' && chars@[2] == 'l' && chars@[3]
                    == 's' && chars@[4] == 'e');
            }
        }
        None
    }
}

} // verus!
