//! Presentation formatting of raw cell values: a numeric string is rescaled
//! by the largest applicable unit (thousand, million, billion, trillion) and
//! shown with two decimals; sentinels and non-numeric strings are passed
//! through. All arithmetic is exact, over the decimal digits themselves.
use vstd::prelude::*;

use crate::is_space_char;

verus! {

pub open spec fn is_digit_char(c: char) -> bool {
    c == '0' || c == '1' || c == '2' || c == '3' || c == '4' || c == '5' || c == '6' || c == '7'
        || c == '8' || c == '9'
}

pub open spec fn digit_val(c: char) -> int {
    if c == '0' {
        0
    } else if c == '1' {
        1
    } else if c == '2' {
        2
    } else if c == '3' {
        3
    } else if c == '4' {
        4
    } else if c == '5' {
        5
    } else if c == '6' {
        6
    } else if c == '7' {
        7
    } else if c == '8' {
        8
    } else {
        9
    }
}

pub open spec fn digit_char(d: int) -> char {
    if d == 0 {
        '0'
    } else if d == 1 {
        '1'
    } else if d == 2 {
        '2'
    } else if d == 3 {
        '3'
    } else if d == 4 {
        '4'
    } else if d == 5 {
        '5'
    } else if d == 6 {
        '6'
    } else if d == 7 {
        '7'
    } else if d == 8 {
        '8'
    } else {
        '9'
    }
}

pub open spec fn all_digits(s: Seq<char>) -> bool {
    forall|i: int| 0 <= i < s.len() ==> is_digit_char(#[trigger] s[i])
}

/// The integer a digit string denotes.
pub open spec fn digits_int(s: Seq<char>) -> int
    decreases s.len(),
{
    if s.len() == 0 {
        0
    } else {
        digits_int(s.drop_last()) * 10 + digit_val(s.last())
    }
}

/// A parsed decimal literal. `digits` are the mantissa digits in order and
/// the value denoted is `0.digits * 10^point`, negated when `neg` holds.
pub struct NumParts {
    pub neg: bool,
    pub digits: Seq<int>,
    pub point: int,
}

/// Splits an optional leading sign: `(negative, rest)`.
pub open spec fn split_sign(s: Seq<char>) -> (bool, Seq<char>) {
    if s.len() > 0 && (s[0] == '-' || s[0] == '+') {
        (s[0] == '-', s.drop_first())
    } else {
        (false, s)
    }
}

/// First index at or after `i` holding `e` or `E`.
pub open spec fn first_exp_idx(s: Seq<char>, i: int) -> Option<int>
    decreases s.len() - i,
{
    if i < 0 || i >= s.len() {
        None
    } else if s[i] == 'e' || s[i] == 'E' {
        Some(i)
    } else {
        first_exp_idx(s, i + 1)
    }
}

/// First index at or after `i` holding `.`.
pub open spec fn first_dot_idx(s: Seq<char>, i: int) -> Option<int>
    decreases s.len() - i,
{
    if i < 0 || i >= s.len() {
        None
    } else if s[i] == '.' {
        Some(i)
    } else {
        first_dot_idx(s, i + 1)
    }
}

/// Largest number of exponent digits accepted; a wilder exponent makes the
/// string non-numeric for this formatter (a machine limit: the scaled output
/// is materialized digit by digit).
pub const MAX_EXP_DIGITS: usize = 6;

/// Largest number of mantissa digits accepted, for the same reason.
pub const MAX_MANTISSA_DIGITS: usize = 100000;

/// The exponent part after `e`/`E`: optional sign, then one to six digits.
pub open spec fn parse_exp(s: Seq<char>) -> Option<int> {
    let (eneg, ed) = split_sign(s);
    if all_digits(ed) && 1 <= ed.len() <= MAX_EXP_DIGITS {
        Some(
            if eneg {
                -digits_int(ed)
            } else {
                digits_int(ed)
            },
        )
    } else {
        None
    }
}

/// Parses a decimal literal: optional sign, digits with an optional dot
/// (at least one digit in all), optional exponent part.
pub open spec fn spec_parse_num(s: Seq<char>) -> Option<NumParts> {
    let (neg, s1) = split_sign(s);
    let mant = if first_exp_idx(s1, 0) is Some {
        s1.take(first_exp_idx(s1, 0)->Some_0)
    } else {
        s1
    };
    let exp = if first_exp_idx(s1, 0) is Some {
        parse_exp(s1.skip(first_exp_idx(s1, 0)->Some_0 + 1))
    } else {
        Some(0)
    };
    let int_part = if first_dot_idx(mant, 0) is Some {
        mant.take(first_dot_idx(mant, 0)->Some_0)
    } else {
        mant
    };
    let frac_part = if first_dot_idx(mant, 0) is Some {
        mant.skip(first_dot_idx(mant, 0)->Some_0 + 1)
    } else {
        Seq::<char>::empty()
    };
    if all_digits(int_part) && all_digits(frac_part) && exp is Some && 1 <= int_part.len()
        + frac_part.len() <= MAX_MANTISSA_DIGITS {
        Some(
            NumParts {
                neg,
                digits: (int_part + frac_part).map_values(|c: char| digit_val(c)),
                point: int_part.len() + exp->Some_0,
            },
        )
    } else {
        None
    }
}

/// First index at or after `i` with a nonzero digit, or the length.
pub open spec fn first_nonzero(d: Seq<int>, i: int) -> int
    decreases d.len() - i,
{
    if 0 <= i < d.len() && d[i] == 0 {
        first_nonzero(d, i + 1)
    } else {
        i
    }
}

/// Adds one to a digit string, with carry (may grow by one digit).
pub open spec fn inc_digits(d: Seq<int>) -> Seq<int>
    decreases d.len(),
{
    if d.len() == 0 {
        seq![1]
    } else if d.last() == 9 {
        inc_digits(d.drop_last()).push(0)
    } else {
        d.update(d.len() - 1, d.last() + 1)
    }
}

/// The decimal exponent of the scaling unit for a value in `[10^(p-1), 10^p)`.
pub open spec fn unit_exp_of(p: int) -> int {
    if p >= 13 {
        12
    } else if p >= 10 {
        9
    } else if p >= 7 {
        6
    } else if p >= 4 {
        3
    } else {
        0
    }
}

pub open spec fn unit_suffix_of(p: int) -> Seq<char> {
    if p >= 13 {
        seq!['T']
    } else if p >= 10 {
        seq!['B']
    } else if p >= 7 {
        seq!['M']
    } else if p >= 4 {
        seq!['K']
    } else {
        Seq::<char>::empty()
    }
}

pub open spec fn digits_chars(d: Seq<int>) -> Seq<char> {
    d.map_values(|x: int| digit_char(x))
}

/// Renders a nonzero parsed number: scale by the unit, keep two decimals
/// (rounding half up on the first dropped digit), sign in front, unit letter
/// behind. `d` has a nonzero first digit and the value is `0.d * 10^p`.
pub open spec fn format_scaled(neg: bool, d: Seq<int>, p: int) -> Seq<char> {
    let p2 = p - unit_exp_of(p);
    let k = p2 + 2;
    let kept = if k <= 0 {
        Seq::<int>::empty()
    } else {
        Seq::new(k as nat, |i: int| if i < d.len() { d[i] } else { 0 })
    };
    let rounded = if 0 <= k < d.len() && d[k] >= 5 {
        inc_digits(kept)
    } else {
        kept
    };
    let padded = if rounded.len() < 3 {
        Seq::new((3 - rounded.len()) as nat, |i: int| 0) + rounded
    } else {
        rounded
    };
    let sign = if neg {
        seq!['-']
    } else {
        Seq::<char>::empty()
    };
    sign + digits_chars(padded.take(padded.len() - 2)) + seq!['.'] + digits_chars(
        padded.skip(padded.len() - 2),
    ) + unit_suffix_of(p)
}

/// Renders a parsed number the way the table formatter shows magnitudes.
pub open spec fn spec_format_num(n: NumParts) -> Seq<char> {
    let nz = first_nonzero(n.digits, 0);
    if nz == n.digits.len() {
        seq!['0', '.', '0', '0']
    } else {
        format_scaled(n.neg, n.digits.skip(nz), n.point - nz)
    }
}

/// Last index before `i` whose character is not whitespace, plus one (`0`
/// when the front of `s` is all whitespace).
pub open spec fn trim_end_idx(s: Seq<char>, i: int) -> int
    decreases i,
{
    if 0 < i <= s.len() && is_space_char(s[i - 1]) {
        trim_end_idx(s, i - 1)
    } else {
        i
    }
}

/// `s` with surrounding whitespace removed.
pub open spec fn spec_trim(s: Seq<char>) -> Seq<char> {
    let a = crate::scan::trim_start_idx(s, 0);
    let b = trim_end_idx(s, s.len() as int);
    if a <= b {
        s.subrange(a, b)
    } else {
        Seq::<char>::empty()
    }
}

/// `s` with every comma (thousands separator) removed.
pub open spec fn strip_commas(s: Seq<char>) -> Seq<char> {
    s.filter(|c: char| c != ',')
}

/// What `format_cell` returns: the cell is trimmed and de-comma'd; `--` and
/// the empty string mean "unavailable" and become `-`; a decimal literal is
/// rescaled and rounded; anything else passes through (cleaned).
pub open spec fn spec_format_cell(s: Seq<char>) -> Seq<char> {
    let cleaned = strip_commas(spec_trim(s));
    if cleaned.len() == 0 || cleaned == seq!['-', '-'] {
        seq!['-']
    } else if spec_parse_num(cleaned) is Some {
        spec_format_num(spec_parse_num(cleaned)->Some_0)
    } else {
        cleaned
    }
}

fn digit_of(c: char) -> (r: u8)
    requires
        is_digit_char(c),
    ensures
        r as int == digit_val(c),
        r <= 9,
{
    if c == '0' {
        0
    } else if c == '1' {
        1
    } else if c == '2' {
        2
    } else if c == '3' {
        3
    } else if c == '4' {
        4
    } else if c == '5' {
        5
    } else if c == '6' {
        6
    } else if c == '7' {
        7
    } else if c == '8' {
        8
    } else {
        9
    }
}

pub(crate) fn char_of_digit(d: u8) -> (r: char)
    requires
        d <= 9,
    ensures
        r == digit_char(d as int),
{
    if d == 0 {
        '0'
    } else if d == 1 {
        '1'
    } else if d == 2 {
        '2'
    } else if d == 3 {
        '3'
    } else if d == 4 {
        '4'
    } else if d == 5 {
        '5'
    } else if d == 6 {
        '6'
    } else if d == 7 {
        '7'
    } else if d == 8 {
        '8'
    } else {
        '9'
    }
}

/// `v` with surrounding whitespace removed.
fn trim_chars(v: &Vec<char>) -> (r: Vec<char>)
    ensures
        r@ == spec_trim(v@),
{
    let a = crate::scan::skip_spaces(v, 0);
    let mut b = v.len();
    while b > 0 && crate::char_is_space(v[b - 1])
        invariant
            b <= v@.len(),
            trim_end_idx(v@, v@.len() as int) == trim_end_idx(v@, b as int),
        decreases b,
    {
        b = b - 1;
    }
    if a <= b {
        crate::scan::subvec(v, a, b)
    } else {
        Vec::new()
    }
}

/// `v` without its commas.
fn strip_commas_chars(v: &Vec<char>) -> (r: Vec<char>)
    ensures
        r@ == strip_commas(v@),
{
    let mut out: Vec<char> = Vec::new();
    let mut i: usize = 0;
    proof {
        assert(v@.take(0) =~= Seq::<char>::empty());
        reveal(Seq::filter);
    }
    while i < v.len()
        invariant
            i <= v@.len(),
            out@ == v@.take(i as int).filter(|c: char| c != ','),
        decreases v@.len() - i,
    {
        let ghost pre = v@.take(i as int);
        let c = v[i];
        if c != ',' {
            out.push(c);
        }
        proof {
            assert(v@.take(i + 1).drop_last() =~= pre);
            assert(v@.take(i + 1).last() == c);
            reveal(Seq::filter);
        }
        i = i + 1;
    }
    proof {
        assert(v@.take(v@.len() as int) =~= v@);
    }
    out
}

pub open spec fn pow10_int(k: int) -> int
    decreases k,
{
    if k <= 0 {
        1
    } else {
        10 * pow10_int(k - 1)
    }
}


proof fn lemma_pow10_pos(k: int)
    ensures
        pow10_int(k) > 0,
    decreases
            if k > 0 {
                k
            } else {
                0
            },
{
    if k > 0 {
        lemma_pow10_pos(k - 1);
    }
}

proof fn lemma_pow10_mono(a: int, b: int)
    requires
        0 <= a <= b,
    ensures
        0 < pow10_int(a) <= pow10_int(b),
    decreases b,
{
    lemma_pow10_pos(a);
    if a < b {
        lemma_pow10_mono(a, b - 1);
    }
}

/// First position of `e`/`E` at or after `start`, or the length.
fn find_exp_end(v: &Vec<char>, start: usize) -> (r: usize)
    requires
        start <= v@.len(),
    ensures
        start <= r <= v@.len(),
        r < v@.len() ==> first_exp_idx(v@.skip(start as int), 0) == Some(r - start as int),
        r == v@.len() ==> first_exp_idx(v@.skip(start as int), 0) is None,
{
    let n = v.len();
    let mut i = start;
    while i < n && v[i] != 'e' && v[i] != 'E'
        invariant
            start <= i <= n == v@.len(),
            first_exp_idx(v@.skip(start as int), 0) == first_exp_idx(
                v@.skip(start as int),
                i - start,
            ),
        decreases n - i,
    {
        i = i + 1;
    }
    i
}

/// First position of `.` in `v[start..end]`, or `end`.
fn find_dot_end(v: &Vec<char>, start: usize, end: usize) -> (r: usize)
    requires
        start <= end <= v@.len(),
    ensures
        start <= r <= end,
        r < end ==> first_dot_idx(v@.subrange(start as int, end as int), 0) == Some(
            r - start as int,
        ),
        r == end ==> first_dot_idx(v@.subrange(start as int, end as int), 0) is None,
{
    let ghost mant = v@.subrange(start as int, end as int);
    let mut i = start;
    while i < end && v[i] != '.'
        invariant
            start <= i <= end <= v@.len(),
            mant == v@.subrange(start as int, end as int),
            first_dot_idx(mant, 0) == first_dot_idx(mant, i - start),
        decreases end - i,
    {
        i = i + 1;
    }
    i
}

/// Digit values read elementwise off a digit string.
pub open spec fn digits_match(d: Seq<u8>, p: Seq<char>) -> bool {
    d.len() == p.len() && forall|j: int|
        0 <= j < d.len() ==> (#[trigger] d[j]) as int == digit_val(p[j]) && d[j] <= 9
}

proof fn lemma_digits_map_eq(d: Seq<u8>, p: Seq<char>)
    requires
        digits_match(d, p),
    ensures
        d.map_values(|x: u8| x as int) == p.map_values(|c: char| digit_val(c)),
{
    assert(d.map_values(|x: u8| x as int) =~= p.map_values(|c: char| digit_val(c)));
}

/// Reads the digits `v[from..to]`; `None` as soon as one is not a digit.
fn collect_digits(v: &Vec<char>, from: usize, to: usize) -> (r: Option<Vec<u8>>)
    requires
        from <= to <= v@.len(),
    ensures
        match r {
            Some(d) => {
                let part = v@.subrange(from as int, to as int);
                &&& all_digits(part)
                &&& digits_match(d@, part)
            },
            None => !all_digits(v@.subrange(from as int, to as int)),
        },
{
    let ghost part = v@.subrange(from as int, to as int);
    let mut out: Vec<u8> = Vec::new();
    let mut i = from;
    while i < to
        invariant
            from <= i <= to <= v@.len(),
            part == v@.subrange(from as int, to as int),
            all_digits(part.take(i - from)),
            digits_match(out@, part.take(i - from)),
        decreases to - i,
    {
        let c = v[i];
        if !(c == '0' || c == '1' || c == '2' || c == '3' || c == '4' || c == '5' || c == '6' || c
            == '7' || c == '8' || c == '9') {
            proof {
                assert(!is_digit_char(part[i - from]));
            }
            return None;
        }
        out.push(digit_of(c));
        i = i + 1;
    }
    proof {
        assert(part.take(to - from) =~= part);
    }
    Some(out)
}

/// Reads the exponent part `v[from..]` (what follows `e`/`E`).
fn parse_exp_part(v: &Vec<char>, from: usize) -> (r: Option<i64>)
    requires
        from <= v@.len(),
    ensures
        match r {
            Some(e) => parse_exp(v@.skip(from as int)) == Some(e as int) && -1000000 < e
                < 1000000,
            None => parse_exp(v@.skip(from as int)) is None,
        },
{
    let ghost es = v@.skip(from as int);
    let n = v.len();
    let mut j = from;
    let mut eneg = false;
    if j < n && (v[j] == '-' || v[j] == '+') {
        eneg = v[j] == '-';
        j = j + 1;
    }
    let ghost ed = split_sign(es).1;
    proof {
        assert(ed =~= v@.subrange(j as int, n as int));
        assert(eneg == split_sign(es).0);
    }
    let count = n - j;
    if count == 0 || count > MAX_EXP_DIGITS {
        return None;
    }
    let digits = match collect_digits(v, j, n) {
        Some(d) => d,
        None => {
            return None;
        },
    };
    let mut acc: i64 = 0;
    let mut k: usize = 0;
    while k < count
        invariant
            count == digits@.len() == ed.len() <= MAX_EXP_DIGITS,
            k <= count,
            all_digits(ed),
            digits_match(digits@, ed),
            acc == digits_int(ed.take(k as int)),
            0 <= acc < pow10_int(k as int),
        decreases count - k,
    {
        let d = digits[k];
        proof {
            lemma_pow10_mono(k as int, (MAX_EXP_DIGITS - 1) as int);
            assert(pow10_int(0) == 1);
            assert(pow10_int(1) == 10);
            assert(pow10_int(2) == 100);
            assert(pow10_int(3) == 1000);
            assert(pow10_int(4) == 10000);
            assert(pow10_int(5) == 100000);
            assert(ed.take(k + 1).drop_last() =~= ed.take(k as int));
            assert(ed.take(k + 1).last() == ed[k as int]);
        }
        acc = acc * 10 + (d as i64);
        k = k + 1;
    }
    proof {
        assert(ed.take(count as int) =~= ed);
        lemma_pow10_mono(count as int, MAX_EXP_DIGITS as int);
        assert(pow10_int(0) == 1);
        assert(pow10_int(1) == 10);
        assert(pow10_int(2) == 100);
        assert(pow10_int(3) == 1000);
        assert(pow10_int(4) == 10000);
        assert(pow10_int(5) == 100000);
        assert(pow10_int(6) == 1000000);
    }
    if eneg {
        Some(-acc)
    } else {
        Some(acc)
    }
}

/// Parses `v` as a decimal literal: sign, mantissa digits, and the position
/// of the decimal point measured from the front of the digits.
#[verifier::rlimit(60)]
fn parse_number(v: &Vec<char>) -> (r: Option<(bool, Vec<u8>, i128)>)
    ensures
        match r {
            Some(t) => spec_parse_num(v@) == Some(
                NumParts {
                    neg: t.0,
                    digits: t.1@.map_values(|x: u8| x as int),
                    point: t.2 as int,
                },
            ) && all_le9(t.1@) && 1 <= t.1@.len() <= MAX_MANTISSA_DIGITS && -1000000 <= t.2
                <= 1000000 + t.1@.len(),
            None => spec_parse_num(v@) is None,
        },
{
    let n = v.len();
    let mut neg = false;
    let mut start: usize = 0;
    if n > 0 && (v[0] == '-' || v[0] == '+') {
        neg = v[0] == '-';
        start = 1;
    }
    let ghost s1 = split_sign(v@).1;
    proof {
        assert(s1 =~= v@.skip(start as int));
        assert(neg == split_sign(v@).0);
    }
    let mant_end = find_exp_end(v, start);
    let ghost mant = if first_exp_idx(s1, 0) is Some {
        s1.take(first_exp_idx(s1, 0)->Some_0)
    } else {
        s1
    };
    proof {
        assert(v@.skip(start as int) == s1);
        assert(mant =~= v@.subrange(start as int, mant_end as int));
    }
    let mut exp_val: i64 = 0;
    if mant_end < n {
        exp_val = match parse_exp_part(v, mant_end + 1) {
            Some(e) => e,
            None => {
                proof {
                    assert(v@.skip(mant_end + 1 as int) =~= s1.skip(
                        first_exp_idx(s1, 0)->Some_0 + 1,
                    ));
                }
                return None;
            },
        };
        proof {
            assert(v@.skip(mant_end + 1 as int) =~= s1.skip(first_exp_idx(s1, 0)->Some_0 + 1));
        }
    }
    let int_end = find_dot_end(v, start, mant_end);
    let ghost int_part = if first_dot_idx(mant, 0) is Some {
        mant.take(first_dot_idx(mant, 0)->Some_0)
    } else {
        mant
    };
    let ghost frac_part = if first_dot_idx(mant, 0) is Some {
        mant.skip(first_dot_idx(mant, 0)->Some_0 + 1)
    } else {
        Seq::<char>::empty()
    };
    let frac_begin = if int_end < mant_end {
        int_end + 1
    } else {
        mant_end
    };
    proof {
        assert(int_part =~= v@.subrange(start as int, int_end as int));
        assert(frac_part =~= v@.subrange(frac_begin as int, mant_end as int));
    }
    let int_digits = match collect_digits(v, start, int_end) {
        Some(d) => d,
        None => {
            return None;
        },
    };
    let mut digits = int_digits;
    let mut frac_digits = match collect_digits(v, frac_begin, mant_end) {
        Some(d) => d,
        None => {
            return None;
        },
    };
    let ghost pre = digits@;
    digits.append(&mut frac_digits);
    if digits.len() == 0 || digits.len() > MAX_MANTISSA_DIGITS {
        return None;
    }
    let int_len = int_end - start;
    let point: i128 = (int_len as i128) + (exp_val as i128);
    proof {
        assert(digits_match(digits@, int_part + frac_part));
        lemma_digits_map_eq(digits@, int_part + frac_part);
        assert(all_le9(digits@));
    }
    Some((neg, digits, point))
}



/// Digit bytes as mathematical digits.
pub open spec fn u8s_ints(s: Seq<u8>) -> Seq<int> {
    s.map_values(|x: u8| x as int)
}

pub open spec fn all_le9(s: Seq<u8>) -> bool {
    forall|i: int| 0 <= i < s.len() ==> #[trigger] s[i] <= 9
}

fn find_first_nonzero(digits: &Vec<u8>) -> (r: usize)
    ensures
        r == first_nonzero(u8s_ints(digits@), 0),
        r <= digits@.len(),
        r < digits@.len() ==> u8s_ints(digits@)[r as int] != 0,
{
    let n = digits.len();
    let mut i: usize = 0;
    while i < n && digits[i] == 0
        invariant
            i <= n == digits@.len(),
            first_nonzero(u8s_ints(digits@), 0) == first_nonzero(u8s_ints(digits@), i as int),
        decreases n - i,
    {
        proof {
            assert(u8s_ints(digits@)[i as int] == digits@[i as int] as int);
        }
        i = i + 1;
    }
    proof {
        if i < n {
            assert(u8s_ints(digits@)[i as int] == digits@[i as int] as int);
        }
    }
    i
}

/// Adds one to the digit string, propagating the carry leftwards.
#[verifier::loop_isolation(false)]
fn increment_digits(d0: Vec<u8>) -> (r: Vec<u8>)
    requires
        all_le9(d0@),
    ensures
        u8s_ints(r@) == inc_digits(u8s_ints(d0@)),
        all_le9(r@),
{
    let mut d = d0;
    let ghost orig = d@;
    proof {
        assert(u8s_ints(orig).take(orig.len() as int) =~= u8s_ints(orig));
        assert(inc_digits(u8s_ints(orig)) =~= inc_digits(
            u8s_ints(orig).take(orig.len() as int),
        ) + u8s_ints(d@).skip(orig.len() as int));
    }
    let mut j = d.len();
    loop
        invariant
            j <= d@.len() == orig.len(),
            all_le9(orig),
            all_le9(d@),
            forall|t: int| 0 <= t < j ==> d@[t] == orig[t],
            forall|t: int| j <= t < d@.len() ==> #[trigger] d@[t] == 0,
            forall|t: int| j <= t < orig.len() ==> #[trigger] orig[t] == 9,
            inc_digits(u8s_ints(orig)) == inc_digits(u8s_ints(orig).take(j as int)) + u8s_ints(
                d@,
            ).skip(j as int),
        decreases j,
    {
        if j == 0 {
            let mut out: Vec<u8> = Vec::new();
            out.push(1);
            let mut t: usize = 0;
            while t < d.len()
                invariant
                    t <= d@.len(),
                    out@ == seq![1u8] + d@.take(t as int),
                decreases d@.len() - t,
            {
                let x = d[t];
                out.push(x);
                proof {
                    assert(out@ =~= seq![1u8] + d@.take(t + 1));
                }
                t = t + 1;
            }
            proof {
                assert(d@.take(d@.len() as int) =~= d@);
                assert(u8s_ints(orig).take(0) =~= Seq::<int>::empty());
                assert(inc_digits(u8s_ints(orig).take(0)) =~= seq![1int]);
                assert(u8s_ints(d@).skip(0) =~= u8s_ints(d@));
                assert(u8s_ints(out@) =~= seq![1int] + u8s_ints(d@));
            }
            return out;
        }
        let x = d[j - 1];
        if x == 9 {
            let ghost dpre = d@;
            d.set(j - 1, 0);
            proof {
                let jo = j as int;
                assert(orig[jo - 1] == dpre[jo - 1] && dpre[jo - 1] == 9);
                assert(u8s_ints(orig).take(jo).last() == 9) by {
                    assert(u8s_ints(orig)[jo - 1] == orig[jo - 1] as int);
                }
                assert(u8s_ints(orig).take(jo).drop_last() =~= u8s_ints(orig).take(jo - 1));
                assert(inc_digits(u8s_ints(orig).take(jo)) == inc_digits(
                    u8s_ints(orig).take(jo - 1),
                ).push(0));
                assert(inc_digits(u8s_ints(orig).take(jo)) + u8s_ints(dpre).skip(jo)
                    =~= inc_digits(u8s_ints(orig).take(jo - 1)) + u8s_ints(d@).skip(jo - 1));
                assert(forall|t: int| jo - 1 <= t < d@.len() ==> #[trigger] d@[t] == 0);
                assert(forall|t: int| jo - 1 <= t < orig.len() ==> #[trigger] orig[t] == 9);
            }
            j = j - 1;
        } else {
            let ghost dpre = d@;
            d.set(j - 1, x + 1);
            proof {
                let jo = j as int;
                assert(u8s_ints(orig).take(jo).last() == x as int) by {
                    assert(u8s_ints(orig)[jo - 1] == orig[jo - 1] as int);
                }
                assert(inc_digits(u8s_ints(orig).take(jo)) =~= u8s_ints(orig).take(jo).update(
                    jo - 1,
                    x + 1 as int,
                ));
                assert(u8s_ints(d@) =~= inc_digits(u8s_ints(orig).take(jo)) + u8s_ints(
                    dpre,
                ).skip(jo));
            }
            return d;
        }
    }
}

/// Lays out sign, integer digits, dot, two decimals, and the unit letter.
fn render_digits(neg: bool, padded: &Vec<u8>, suffix: Option<char>) -> (r: Vec<char>)
    requires
        all_le9(padded@),
        padded@.len() >= 3,
    ensures
        r@ == (if neg {
            seq!['-']
        } else {
            Seq::<char>::empty()
        }) + digits_chars(u8s_ints(padded@).take(padded@.len() - 2)) + seq!['.'] + digits_chars(
            u8s_ints(padded@).skip(padded@.len() - 2),
        ) + (match suffix {
            Some(c) => seq![c],
            None => Seq::<char>::empty(),
        }),
{
    let ghost sd = u8s_ints(padded@);
    let l = padded.len();
    let mut out: Vec<char> = Vec::new();
    let ghost sign = if neg {
        seq!['-']
    } else {
        Seq::<char>::empty()
    };
    if neg {
        out.push('-');
    }
    proof {
        assert(out@ =~= sign + digits_chars(sd.take(0)));
    }
    let mut i: usize = 0;
    while i < l - 2
        invariant
            i <= l - 2,
            l == padded@.len() >= 3,
            sd == u8s_ints(padded@),
            all_le9(padded@),
            sign == (if neg {
                seq!['-']
            } else {
                Seq::<char>::empty()
            }),
            out@ == sign + digits_chars(sd.take(i as int)),
        decreases l - 2 - i,
    {
        let x = padded[i];
        out.push(char_of_digit(x));
        proof {
            assert(sd[i as int] == padded@[i as int] as int);
            assert(out@ =~= sign + digits_chars(sd.take(i + 1)));
        }
        i = i + 1;
    }
    out.push('.');
    let ghost head = sign + digits_chars(sd.take(l - 2 as int)) + seq!['.'];
    proof {
        assert(out@ =~= head + digits_chars(sd.skip(l - 2 as int).take(0)));
    }
    let mut q: usize = l - 2;
    while q < l
        invariant
            l - 2 <= q <= l,
            l == padded@.len() >= 3,
            sd == u8s_ints(padded@),
            all_le9(padded@),
            head == sign + digits_chars(sd.take(l - 2 as int)) + seq!['.'],
            sign == (if neg {
                seq!['-']
            } else {
                Seq::<char>::empty()
            }),
            out@ == head + digits_chars(sd.skip(l - 2 as int).take(q - (l - 2))),
        decreases l - q,
    {
        let x = padded[q];
        out.push(char_of_digit(x));
        proof {
            assert(sd[q as int] == padded@[q as int] as int);
            assert(sd.skip(l - 2 as int)[q - (l - 2)] == sd[q as int]);
            assert(out@ =~= head + digits_chars(sd.skip(l - 2 as int).take(q + 1 - (l - 2))));
        }
        q = q + 1;
    }
    proof {
        assert(sd.skip(l - 2 as int).take(l - (l - 2)) =~= sd.skip(l - 2 as int));
    }
    match suffix {
        Some(c) => {
            out.push(c);
        },
        None => {},
    }
    out
}

/// Renders a parsed number: unit scaling, two decimals, half-up rounding.
#[verifier::rlimit(60)]
fn format_number(neg: bool, digits: &Vec<u8>, point: i128) -> (r: Vec<char>)
    requires
        all_le9(digits@),
        1 <= digits@.len() <= MAX_MANTISSA_DIGITS,
        -1000000 <= point <= 1000000 + digits@.len(),
    ensures
        r@ == spec_format_num(NumParts { neg, digits: u8s_ints(digits@), point: point as int }),
{
    let ghost sd = u8s_ints(digits@);
    let n = digits.len();
    let nz = find_first_nonzero(digits);
    if nz == n {
        let mut out: Vec<char> = Vec::new();
        out.push('0');
        out.push('.');
        out.push('0');
        out.push('0');
        proof {
            assert(out@ =~= seq!['0', '.', '0', '0']);
        }
        return out;
    }
    let dl = n - nz;
    let ghost d = sd.skip(nz as int);
    let p: i128 = point - (nz as i128);
    let (ue, suffix): (i128, Option<char>) = if p >= 13 {
        (12, Some('T'))
    } else if p >= 10 {
        (9, Some('B'))
    } else if p >= 7 {
        (6, Some('M'))
    } else if p >= 4 {
        (3, Some('K'))
    } else {
        (0, None)
    };
    proof {
        assert(ue as int == unit_exp_of(p as int));
    }
    let k128: i128 = p - ue + 2;
    let ghost k = p as int - ue as int + 2;
    let ghost skept = if k <= 0 {
        Seq::<int>::empty()
    } else {
        Seq::new(k as nat, |i: int| if i < d.len() { d[i] } else { 0 })
    };
    let mut kept: Vec<u8> = Vec::new();
    if k128 > 0 {
        let kk = k128 as usize;
        let mut i: usize = 0;
        while i < kk
            invariant
                i <= kk == k,
                nz + dl == n == digits@.len(),
                nz < n,
                sd == u8s_ints(digits@),
                d == sd.skip(nz as int),
                all_le9(digits@),
                all_le9(kept@),
                kept@.len() == i,
                forall|t: int|
                    0 <= t < i ==> (#[trigger] kept@[t]) as int == (if t < d.len() {
                        d[t]
                    } else {
                        0int
                    }),
            decreases kk - i,
        {
            if i < dl {
                let x = digits[nz + i];
                kept.push(x);
                proof {
                    assert(d[i as int] == sd[nz + i] == digits@[nz + i] as int);
                }
            } else {
                kept.push(0);
            }
            i = i + 1;
        }
    }
    proof {
        assert forall|t: int| 0 <= t < skept.len() implies u8s_ints(kept@)[t] == skept[t] by {
            assert(u8s_ints(kept@)[t] == kept@[t] as int);
        }
        assert(u8s_ints(kept@) =~= skept);
    }
    let mut rounded = kept;
    if k128 >= 0 && k128 < (dl as i128) {
        let rd = digits[nz + (k128 as usize)];
        proof {
            assert(d[k] == sd[nz + k] == digits@[nz + k] as int);
        }
        if rd >= 5 {
            rounded = increment_digits(rounded);
        }
    }
    let ghost srounded = if 0 <= k < d.len() && d[k] >= 5 {
        inc_digits(skept)
    } else {
        skept
    };
    proof {
        assert(u8s_ints(rounded@) == srounded);
        assert(all_le9(rounded@));
    }
    let rl = rounded.len();
    let mut padded: Vec<u8> = Vec::new();
    if rl >= 3 {
        padded = rounded;
    } else {
        let mut z: usize = 0;
        while z < 3 - rl
            invariant
                z <= 3 - rl,
                rl < 3,
                padded@.len() == z,
                forall|t: int| 0 <= t < z ==> padded@[t] == 0,
            decreases 3 - rl - z,
        {
            padded.push(0);
            z = z + 1;
        }
        let mut t: usize = 0;
        while t < rl
            invariant
                t <= rl == rounded@.len(),
                rl < 3,
                all_le9(rounded@),
                padded@.len() == 3 - rl + t,
                forall|s2: int| 0 <= s2 < 3 - rl ==> padded@[s2] == 0,
                forall|s2: int| 0 <= s2 < t ==> padded@[3 - rl + s2] == rounded@[s2],
            decreases rl - t,
        {
            let x = rounded[t];
            padded.push(x);
            t = t + 1;
        }
    }
    let ghost spadded = if srounded.len() < 3 {
        Seq::new((3 - srounded.len()) as nat, |i: int| 0) + srounded
    } else {
        srounded
    };
    proof {
        assert forall|t: int| 0 <= t < padded@.len() implies #[trigger] padded@[t] <= 9 by {
            if rl < 3 && t >= 3 - rl {
                assert(padded@[t] == rounded@[t - (3 - rl)]);
            }
        }
        assert forall|t: int| 0 <= t < spadded.len() implies u8s_ints(padded@)[t] == spadded[t] by {
            assert(u8s_ints(padded@)[t] == padded@[t] as int);
            if rl < 3 && t >= 3 - rl {
                assert(padded@[t] == rounded@[t - (3 - rl)]);
                assert(u8s_ints(rounded@)[t - (3 - rl)] == rounded@[t - (3 - rl)] as int);
            }
        }
        assert(u8s_ints(padded@) =~= spadded);
        assert(padded@.len() >= 3);
    }
    let out = render_digits(neg, &padded, suffix);
    proof {
        assert((match suffix {
            Some(c) => seq![c],
            None => Seq::<char>::empty(),
        }) =~= unit_suffix_of(p as int));
        assert(u8s_ints(padded@).take(padded@.len() - 2) =~= spadded.take(spadded.len() - 2));
        assert(u8s_ints(padded@).skip(padded@.len() - 2) =~= spadded.skip(spadded.len() - 2));
        assert(first_nonzero(sd, 0) == nz && sd[nz as int] != 0);
        assert(out@ =~= format_scaled(neg, d, p as int));
    }
    out
}

/// `s` with surrounding whitespace removed.
pub fn trim_string(s: &str) -> (r: String)
    ensures
        r@ == spec_trim(s@),
{
    let chars = crate::text::str_to_chars(s);
    let t = trim_chars(&chars);
    crate::text::chars_to_string(&t)
}

/// Cleans and renders one raw table cell: trims, strips thousands commas,
/// maps the unavailable sentinels to `-`, rescales decimal values, passes
/// anything else through.
pub fn format_cell(s: &str) -> (r: String)
    ensures
        r@ == spec_format_cell(s@),
{
    let chars = crate::text::str_to_chars(s);
    let trimmed = trim_chars(&chars);
    let cleaned = strip_commas_chars(&trimmed);
    if cleaned.len() == 0 {
        proof {
            reveal_strlit("-");
        }
        return "-".to_owned();
    }
    if cleaned.len() == 2 {
        let dash0 = cleaned[0] == '-';
        let dash1 = cleaned[1] == '-';
        if dash0 && dash1 {
            proof {
                reveal_strlit("-");
                assert(cleaned@ =~= seq!['-', '-']);
            }
            return "-".to_owned();
        }
    }
    proof {
        assert(cleaned@ != seq!['-', '-']);
    }
    match parse_number(&cleaned) {
        Some((neg, digits, point)) => {
            let out = format_number(neg, &digits, point);
            crate::text::chars_to_string(&out)
        },
        None => crate::text::chars_to_string(&cleaned),
    }
}

} // verus!
