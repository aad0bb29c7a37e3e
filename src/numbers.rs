use vstd::prelude::*;

use crate::text::{chars_of, trim, trim_chars};

verus! {

pub open spec fn is_digit(c: char) -> bool {
    '0' <= c <= '9'
}

pub open spec fn digit_value(c: char) -> nat {
    ((c as u32) - ('0' as u32)) as nat
}

pub open spec fn all_digits(s: Seq<char>) -> bool {
    forall|i: int| 0 <= i < s.len() ==> is_digit(s[i])
}

/// The value of a string of decimal digits.
pub open spec fn digits_value(s: Seq<char>) -> nat
    decreases s.len(),
{
    if s.len() == 0 {
        0
    } else {
        digits_value(s.drop_last()) * 10 + digit_value(s.last())
    }
}

/// What Rust's unsigned integer parsing reads from `s`: an optional `+`
/// followed by at least one digit, and nothing else.
pub open spec fn unsigned_value(s: Seq<char>) -> Option<nat> {
    let body = if s.len() > 0 && s[0] == '+' {
        s.drop_first()
    } else {
        s
    };
    if body.len() > 0 && all_digits(body) {
        Some(digits_value(body))
    } else {
        None
    }
}

/// `s` read as an unsigned integer no greater than `max`.
pub open spec fn bounded_value(s: Seq<char>, max: nat) -> Option<nat> {
    match unsigned_value(s) {
        Some(v) => if v <= max {
            Some(v)
        } else {
            None
        },
        None => None,
    }
}

fn digit_of_char(c: char) -> (r: u64)
    requires
        is_digit(c),
    ensures
        r as nat == digit_value(c),
{
    ((c as u32) - ('0' as u32)) as u64
}

/// Reads `s` as an unsigned integer, `None` when it is not a numeral or its
/// value exceeds `max`.
pub fn parse_unsigned(s: &[char], max: u32) -> (r: Option<u32>)
    ensures
        match r {
            Some(v) => bounded_value(s@, max as nat) == Some(v as nat),
            None => bounded_value(s@, max as nat) is None,
        },
{
    let n = s.len();
    let start: usize = if n > 0 && s[0] == '+' {
        1
    } else {
        0
    };
    let ghost body = s@.subrange(start as int, n as int);
    proof {
        if start == 1 {
            assert(body =~= s@.drop_first());
        } else {
            assert(body =~= s@);
        }
    }
    if start == n {
        return None;
    }
    let cap: u64 = max as u64 + 1;
    let mut acc: u64 = 0;
    let mut i: usize = start;
    while i < n
        invariant
            start <= i <= n == s@.len(),
            body == s@.subrange(start as int, n as int),
            body == (if s@.len() > 0 && s@[0] == '+' { s@.drop_first() } else { s@ }),
            cap == max as u64 + 1,
            all_digits(s@.subrange(start as int, i as int)),
            acc as nat == (if digits_value(s@.subrange(start as int, i as int)) < cap {
                digits_value(s@.subrange(start as int, i as int))
            } else {
                cap as nat
            }),
        decreases n - i,
    {
        let c = s[i];
        if !('0' <= c && c <= '9') {
            proof {
                assert(body[i - start] == c);
            }
            return None;
        }
        let d = digit_of_char(c);
        let next = acc * 10 + d;
        acc = if next < cap {
            next
        } else {
            cap
        };
        proof {
            let pre = s@.subrange(start as int, i + 1);
            assert(pre.drop_last() =~= s@.subrange(start as int, i as int));
            assert(all_digits(pre));
        }
        i = i + 1;
    }
    assert(s@.subrange(start as int, n as int) =~= body);
    if acc < cap {
        Some(acc as u32)
    } else {
        None
    }
}

/// A decimal numeral: an optional minus sign, integer digits and fraction digits.
pub struct DecimalNumeral {
    pub negative: bool,
    pub int_digits: Vec<char>,
    pub frac_digits: Vec<char>,
}

pub ghost struct DecimalView {
    pub negative: bool,
    pub int_digits: Seq<char>,
    pub frac_digits: Seq<char>,
}

impl View for DecimalNumeral {
    type V = DecimalView;

    open spec fn view(&self) -> DecimalView {
        DecimalView {
            negative: self.negative,
            int_digits: self.int_digits@,
            frac_digits: self.frac_digits@,
        }
    }
}

/// The number of digits in `s` from index `i` on, up to the first non-digit.
pub open spec fn digits_from(s: Seq<char>, i: int) -> nat
    decreases s.len() - i,
{
    if 0 <= i < s.len() && is_digit(s[i]) {
        1 + digits_from(s, i + 1)
    } else {
        0
    }
}

/// The numeral that starts at index `i` of `s`: an optional single leading
/// `-`, digits, and an optional `.` followed by digits, with at least one
/// digit in all; `None` when no numeral starts there.
pub open spec fn numeral_at(s: Seq<char>, i: int) -> Option<DecimalView> {
    let negative = 0 <= i < s.len() && s[i] == '-';
    let a = if negative {
        i + 1
    } else {
        i
    };
    let b = a + digits_from(s, a);
    let point = 0 <= b < s.len() && s[b] == '.';
    let frac_len: int = if point {
        digits_from(s, b + 1) as int
    } else {
        0
    };
    if b - a + frac_len == 0 {
        None
    } else {
        Some(
            DecimalView {
                negative,
                int_digits: s.subrange(a, b),
                frac_digits: if point {
                    s.subrange(b + 1, b + 1 + frac_len)
                } else {
                    Seq::empty()
                },
            },
        )
    }
}

/// The first numeral of `s` at index `i` or later.
pub open spec fn first_numeral_from(s: Seq<char>, i: int) -> Option<DecimalView>
    decreases s.len() - i,
{
    if i < 0 || i >= s.len() {
        None
    } else {
        match numeral_at(s, i) {
            Some(d) => Some(d),
            None => first_numeral_from(s, i + 1),
        }
    }
}

/// The leading numeric run of `s`: its first numeral, read left to right.
pub open spec fn first_numeral(s: Seq<char>) -> Option<DecimalView> {
    first_numeral_from(s, 0)
}

/// The end of the run of digits of `s` that starts at index `i`.
fn digits_end(s: &[char], i: usize) -> (r: usize)
    requires
        i <= s@.len(),
    ensures
        r == i + digits_from(s@, i as int),
        r <= s@.len(),
        forall|k: int| i <= k < r ==> is_digit(s@[k]),
{
    let mut j: usize = i;
    while j < s.len() && '0' <= s[j] && s[j] <= '9'
        invariant
            i <= j <= s@.len(),
            digits_from(s@, i as int) == (j - i) + digits_from(s@, j as int),
            forall|k: int| i <= k < j ==> is_digit(s@[k]),
        decreases s@.len() - j,
    {
        j = j + 1;
    }
    j
}

/// The numeral that starts at index `i` of `s`.
pub fn numeral_at_index(s: &[char], i: usize) -> (r: Option<DecimalNumeral>)
    requires
        i <= s@.len(),
    ensures
        match r {
            Some(d) => {
                &&& numeral_at(s@, i as int) == Some(d@)
                &&& all_digits(d.int_digits@)
                &&& all_digits(d.frac_digits@)
            },
            None => numeral_at(s@, i as int) is None,
        },
{
    let negative = i < s.len() && s[i] == '-';
    let a = if negative {
        i + 1
    } else {
        i
    };
    let b = digits_end(s, a);
    let point = b < s.len() && s[b] == '.';
    let c = if point {
        digits_end(s, b + 1)
    } else {
        b
    };
    if b == a && (!point || c == b + 1) {
        return None;
    }
    let frac_digits = if point {
        vstd::slice::slice_to_vec(&s[b + 1..c])
    } else {
        Vec::new()
    };
    let d = DecimalNumeral { negative, int_digits: vstd::slice::slice_to_vec(&s[a..b]), frac_digits };
    assert(d.frac_digits@ =~= (if point {
        s@.subrange(b + 1, c as int)
    } else {
        Seq::<char>::empty()
    }));
    Some(d)
}

/// The first numeral of `s`, read left to right.
pub fn first_numeral_of(s: &[char]) -> (r: Option<DecimalNumeral>)
    ensures
        match r {
            Some(d) => {
                &&& first_numeral(s@) == Some(d@)
                &&& all_digits(d.int_digits@)
                &&& all_digits(d.frac_digits@)
            },
            None => first_numeral(s@) is None,
        },
{
    let mut i: usize = 0;
    while i < s.len()
        invariant
            i <= s@.len(),
            first_numeral(s@) == first_numeral_from(s@, i as int),
        decreases s@.len() - i,
    {
        match numeral_at_index(s, i) {
            Some(d) => {
                return Some(d);
            },
            None => {},
        }
        i = i + 1;
    }
    None
}

/// Index of the first occurrence of `c` in `s`.
pub fn find_char(s: &[char], c: char) -> (r: Option<usize>)
    ensures
        match r {
            Some(i) => i < s@.len() && s@[i as int] == c && forall|k: int| 0 <= k < i ==> s@[k] != c,
            None => forall|k: int| 0 <= k < s@.len() ==> s@[k] != c,
        },
{
    let mut i: usize = 0;
    while i < s.len()
        invariant
            i <= s@.len(),
            forall|k: int| 0 <= k < i ==> s@[k] != c,
        decreases s@.len() - i,
    {
        if s[i] == c {
            return Some(i);
        }
        i = i + 1;
    }
    None
}

/// A numerator/denominator pair; the denominator may be zero.
#[derive(Clone, Copy, Debug, PartialEq, Eq, Structural)]
pub struct Rational {
    pub numerator: u32,
    pub denominator: u32,
}

pub open spec fn u16_max() -> nat {
    65535
}

pub open spec fn u32_max() -> nat {
    4294967295
}

/// The first three fraction digits read as thousandths; missing digits count as zeros.
pub open spec fn thousandths(f: Seq<char>) -> nat {
    if f.len() >= 3 {
        digits_value(f.subrange(0, 3))
    } else if f.len() == 2 {
        digits_value(f) * 10
    } else if f.len() == 1 {
        digits_value(f) * 100
    } else {
        0
    }
}

/// The magnitude of `d` times 1000, rounded to the nearest integer with ties
/// away from zero: whole thousandths, plus one when the fourth fraction digit
/// is 5 or more.
pub open spec fn milli_round(d: DecimalView) -> nat {
    digits_value(d.int_digits) * 1000 + thousandths(d.frac_digits) + (if d.frac_digits.len() > 3
        && digit_value(d.frac_digits[3]) >= 5 {
        1nat
    } else {
        0nat
    })
}

/// `d` times 1000 rounded, as an unsigned 32-bit count: zero for a negative
/// numeral, saturated at the largest `u32`.
pub open spec fn milli_numerator(d: DecimalView) -> nat {
    if d.negative {
        0
    } else if milli_round(d) > u32_max() {
        u32_max()
    } else {
        milli_round(d)
    }
}

/// `d` truncated toward zero, as an unsigned 16-bit count: zero for a
/// negative numeral, saturated at the largest `u16`.
pub open spec fn truncated_u16(d: DecimalView) -> nat {
    if d.negative {
        0
    } else if digits_value(d.int_digits) > u16_max() {
        u16_max()
    } else {
        digits_value(d.int_digits)
    }
}

pub open spec fn is_first_index(s: Seq<char>, c: char, i: int) -> bool {
    &&& 0 <= i < s.len()
    &&& s[i] == c
    &&& forall|j: int| 0 <= j < i ==> s[j] != c
}

pub open spec fn contains_char(s: Seq<char>, c: char) -> bool {
    exists|i: int| 0 <= i < s.len() && s[i] == c
}

/// Index of the first `c` in `s` (meaningful when `contains_char(s, c)`).
pub open spec fn first_index(s: Seq<char>, c: char) -> int {
    choose|i: int| is_first_index(s, c, i)
}

/// The fraction rule: a plain unsigned integer over 1; else, when the text
/// holds a `/`, the integers on the two sides of the first one; else the
/// first numeric run read as a decimal, in thousandths over 1000.
pub open spec fn fraction_of(s: Seq<char>) -> Option<Rational> {
    let t = trim(s);
    match bounded_value(t, u32_max()) {
        Some(n) => Some(Rational { numerator: n as u32, denominator: 1 }),
        None => {
            let p = first_index(t, '/');
            let sides = if contains_char(t, '/') {
                match (
                    bounded_value(trim(t.subrange(0, p)), u32_max()),
                    bounded_value(trim(t.subrange(p + 1, t.len() as int)), u32_max()),
                ) {
                    (Some(a), Some(b)) => Some(Rational { numerator: a as u32, denominator: b as u32 }),
                    _ => None,
                }
            } else {
                None
            };
            match sides {
                Some(r) => Some(r),
                None => match first_numeral(t) {
                    Some(d) => Some(Rational { numerator: milli_numerator(d) as u32, denominator: 1000 }),
                    None => None,
                },
            }
        },
    }
}

/// An ISO-family value: an unsigned 16-bit integer, else the first numeric
/// run read as a decimal and truncated.
pub open spec fn iso_of(v: Seq<char>) -> Option<u16> {
    match bounded_value(v, u16_max()) {
        Some(n) => Some(n as u16),
        None => match first_numeral(v) {
            Some(d) => Some(truncated_u16(d) as u16),
            None => None,
        },
    }
}

pub proof fn lemma_first_index_unique(s: Seq<char>, c: char, i: int)
    requires
        is_first_index(s, c, i),
    ensures
        contains_char(s, c),
        first_index(s, c) == i,
{
    let k = first_index(s, c);
    assert(is_first_index(s, c, k));
    if k < i {
        assert(s[k] != c);
    } else if i < k {
        assert(s[i] != c);
    }
}

proof fn lemma_digits_value_small(f: Seq<char>)
    requires
        f.len() <= 3,
    ensures
        f.len() == 0 ==> digits_value(f) == 0,
        f.len() == 1 ==> digits_value(f) == digit_value(f[0]),
        f.len() == 2 ==> digits_value(f) == digit_value(f[0]) * 10 + digit_value(f[1]),
        f.len() == 3 ==> digits_value(f) == digit_value(f[0]) * 100 + digit_value(f[1]) * 10
            + digit_value(f[2]),
{
    if f.len() >= 1 {
        let a = f.drop_last();
        assert(digits_value(f) == digits_value(a) * 10 + digit_value(f.last()));
        if a.len() >= 1 {
            let b = a.drop_last();
            assert(digits_value(a) == digits_value(b) * 10 + digit_value(a.last()));
            if b.len() >= 1 {
                assert(digits_value(b) == digits_value(b.drop_last()) * 10 + digit_value(b.last()));
                assert(digits_value(b.drop_last()) == 0);
            } else {
                assert(digits_value(b) == 0);
            }
        } else {
            assert(digits_value(a) == 0);
        }
    }
}

/// The numerator that the fraction rule gives a decimal numeral.
pub fn milli_numerator_of(d: &DecimalNumeral) -> (r: u32)
    requires
        all_digits(d.int_digits@),
        all_digits(d.frac_digits@),
    ensures
        r as nat == milli_numerator(d@),
{
    if d.negative {
        return 0;
    }
    let cap: u64 = 4294968;
    let ints = &d.int_digits;
    let mut acc: u64 = 0;
    let mut i: usize = 0;
    while i < ints.len()
        invariant
            i <= ints@.len(),
            all_digits(ints@),
            cap == 4294968,
            acc as nat == (if digits_value(ints@.subrange(0, i as int)) < cap {
                digits_value(ints@.subrange(0, i as int))
            } else {
                cap as nat
            }),
        decreases ints@.len() - i,
    {
        let next = acc * 10 + digit_of_char(ints[i]);
        acc = if next < cap {
            next
        } else {
            cap
        };
        assert(ints@.subrange(0, i + 1).drop_last() =~= ints@.subrange(0, i as int));
        i = i + 1;
    }
    assert(ints@.subrange(0, ints@.len() as int) =~= ints@);
    let f = &d.frac_digits;
    let th: u64 = if f.len() >= 3 {
        digit_of_char(f[0]) * 100 + digit_of_char(f[1]) * 10 + digit_of_char(f[2])
    } else if f.len() == 2 {
        (digit_of_char(f[0]) * 10 + digit_of_char(f[1])) * 10
    } else if f.len() == 1 {
        digit_of_char(f[0]) * 100
    } else {
        0
    };
    proof {
        if f@.len() >= 3 {
            lemma_digits_value_small(f@.subrange(0, 3));
        } else {
            lemma_digits_value_small(f@);
        }
    }
    let bump: u64 = if f.len() > 3 && digit_of_char(f[3]) >= 5 {
        1
    } else {
        0
    };
    let total = acc * 1000 + th + bump;
    if total > 4294967295 {
        4294967295
    } else {
        total as u32
    }
}

/// The value that the ISO rule gives a decimal numeral.
pub fn truncated_u16_of(d: &DecimalNumeral) -> (r: u16)
    requires
        all_digits(d.int_digits@),
    ensures
        r as nat == truncated_u16(d@),
{
    if d.negative || d.int_digits.len() == 0 {
        return 0;
    }
    assert(d.int_digits@[0] != '+');
    match parse_unsigned(d.int_digits.as_slice(), 65535) {
        Some(v) => v as u16,
        None => 65535,
    }
}

/// Applies the fraction rule to the characters `s`.
pub fn fraction_from_chars(s: &[char]) -> (r: Option<Rational>)
    ensures
        r == fraction_of(s@),
{
    let t = trim_chars(s);
    let tlen = t.len();
    match parse_unsigned(t.as_slice(), u32::MAX) {
        Some(n) => {
            return Some(Rational { numerator: n, denominator: 1 });
        },
        None => {},
    }
    match find_char(t.as_slice(), '/') {
        Some(p) => {
            proof {
                lemma_first_index_unique(t@, '/', p as int);
            }
            assert(p < tlen);
            let a = trim_chars(&t[0..p]);
            let b = trim_chars(&t[p + 1..tlen]);
            match (parse_unsigned(a.as_slice(), u32::MAX), parse_unsigned(b.as_slice(), u32::MAX)) {
                (Some(x), Some(y)) => {
                    return Some(Rational { numerator: x, denominator: y });
                },
                _ => {},
            }
        },
        None => {
            assert(!contains_char(t@, '/'));
        },
    }
    match first_numeral_of(t.as_slice()) {
        Some(d) => Some(Rational { numerator: milli_numerator_of(&d), denominator: 1000 }),
        None => None,
    }
}

/// Parses a rational: `"1/125"` gives 1/125, `"8"` gives 8/1 and `"2.8"`
/// gives 2800/1000; text without a number gives `None`.
pub fn parse_fraction_to_rational(s: &str) -> (r: Option<Rational>)
    ensures
        r == fraction_of(s@),
{
    let cs = chars_of(s);
    fraction_from_chars(cs.as_slice())
}

/// Applies the ISO rule to the characters `v`.
pub fn iso_from_chars(v: &[char]) -> (r: Option<u16>)
    ensures
        r == iso_of(v@),
{
    match parse_unsigned(v, 65535) {
        Some(n) => Some(n as u16),
        None => {
            match first_numeral_of(v) {
                Some(d) => Some(truncated_u16_of(&d)),
                None => None,
            }
        },
    }
}

/// Reads the leading numeric run of `s` (an optional single leading `-`,
/// digits, an optional decimal point) as a decimal numeral.
pub fn extract_first_number(s: &str) -> (r: Option<DecimalNumeral>)
    ensures
        match r {
            Some(d) => first_numeral(s@) == Some(d@),
            None => first_numeral(s@) is None,
        },
{
    let cs = chars_of(s);
    first_numeral_of(cs.as_slice())
}

} // verus!
