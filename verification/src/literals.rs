//! Number literals as the standard library's `FromStr` reads them: decimal integers with
//! an optional sign, and the floating-point grammar of `f64::from_str` (only whether a
//! text parses; the value of a float is never computed here).
use crate::text::{decimal, digit_char, find_char, int_text, lemma_find_char, str_chars};
use vstd::prelude::*;

verus! {

/// An ASCII decimal digit.
pub open spec fn is_digit(c: char) -> bool {
    '0' <= c && c <= '9'
}

/// Every character is a digit.
pub open spec fn all_digits(s: Seq<char>) -> bool {
    forall|i: int| 0 <= i < s.len() ==> is_digit(#[trigger] s[i])
}

/// The value of a string of digits.
pub open spec fn digits_value(s: Seq<char>) -> int
    decreases s.len(),
{
    if s.len() == 0 {
        0
    } else {
        digits_value(s.drop_last()) * 10 + ((s.last() as int) - ('0' as int))
    }
}

/// The value of a decimal integer literal: an optional `+` or `-`, then one or more
/// digits, nothing else (no spaces). `None` for any other text.
pub open spec fn int_literal(s: Seq<char>) -> Option<int> {
    if s.len() > 0 && (s[0] == '+' || s[0] == '-') {
        let d = s.skip(1);
        if d.len() > 0 && all_digits(d) {
            Some(
                if s[0] == '-' {
                    -digits_value(d)
                } else {
                    digits_value(d)
                },
            )
        } else {
            None
        }
    } else if s.len() > 0 && all_digits(s) {
        Some(digits_value(s))
    } else {
        None
    }
}

/// What `str::parse::<i64>` gives: the literal's value when it fits.
pub open spec fn i64_literal(s: Seq<char>) -> Option<i64> {
    match int_literal(s) {
        Some(v) => if i64::MIN <= v <= i64::MAX {
            Some(v as i64)
        } else {
            None
        },
        None => None,
    }
}

/// What `str::parse::<i32>` gives: the literal's value when it fits.
pub open spec fn i32_literal(s: Seq<char>) -> Option<i32> {
    match int_literal(s) {
        Some(v) => if i32::MIN <= v <= i32::MAX {
            Some(v as i32)
        } else {
            None
        },
        None => None,
    }
}

proof fn lemma_digits_value_nonneg(s: Seq<char>)
    requires
        all_digits(s),
    ensures
        digits_value(s) >= 0,
    decreases s.len(),
{
    if s.len() > 0 {
        lemma_digits_value_nonneg(s.drop_last());
    }
}

proof fn lemma_digits_value_grows(s: Seq<char>, i: int, j: int)
    requires
        0 <= i <= j <= s.len(),
        all_digits(s.take(j)),
    ensures
        digits_value(s.take(i)) <= digits_value(s.take(j)),
    decreases j - i,
{
    if i < j {
        assert(s.take(j).drop_last() =~= s.take(j - 1));
        assert(all_digits(s.take(j - 1)));
        lemma_digits_value_nonneg(s.take(j - 1));
        lemma_digits_value_grows(s, i, j - 1);
    }
}

/// Parses the digits `s[from..]` as a non-negative value no greater than `limit`.
fn parse_digits(s: &[char], from: usize, limit: u128) -> (r: Option<u128>)
    requires
        from <= s@.len(),
        limit <= 0x1_0000_0000_0000_0000,
    ensures
        ({
            let d = s@.skip(from as int);
            match r {
                Some(v) => d.len() > 0 && all_digits(d) && v == digits_value(d) && v <= limit,
                None => !(d.len() > 0 && all_digits(d) && digits_value(d) <= limit),
            }
        }),
{
    let ghost d = s@.skip(from as int);
    if from == s.len() {
        return None;
    }
    let mut acc: u128 = 0;
    let mut i: usize = from;
    assert(d.take(0) =~= Seq::<char>::empty());
    while i < s.len()
        invariant
            from <= i <= s@.len(),
            d == s@.skip(from as int),
            limit <= 0x1_0000_0000_0000_0000,
            all_digits(d.take(i - from)),
            acc == digits_value(d.take(i - from)),
            acc <= limit,
        decreases s@.len() - i,
    {
        let c = s[i];
        if !('0' <= c && c <= '9') {
            proof {
                assert(d[i - from] == c);
            }
            return None;
        }
        let digit = ((c as u32) - ('0' as u32)) as u128;
        proof {
            assert(d.take(i - from + 1).drop_last() =~= d.take(i - from));
            assert(d.take(i - from + 1).last() == c);
            assert(all_digits(d.take(i - from + 1)));
        }
        if acc > limit / 10 || acc * 10 + digit > limit {
            proof {
                assert(digits_value(d.take(i - from + 1)) == acc * 10 + digit);
                if all_digits(d) {
                    lemma_digits_value_grows(d, i - from + 1, d.len() as int);
                    assert(d.take(d.len() as int) =~= d);
                }
            }
            return None;
        }
        acc = acc * 10 + digit;
        i += 1;
    }
    assert(d.take(i - from) =~= d);
    Some(acc)
}

proof fn lemma_decimal_digits(n: nat)
    ensures
        decimal(n).len() > 0,
        all_digits(decimal(n)),
        digits_value(decimal(n)) == n,
        decimal(n)[0] != '-' && decimal(n)[0] != '+',
    decreases n,
{
    if n < 10 {
        assert((digit_char(n as int) as int) == 48 + n);
        assert(decimal(n).drop_last() =~= Seq::<char>::empty());
        assert(digits_value(decimal(n).drop_last()) == 0);
        assert(decimal(n).last() == digit_char(n as int));
        assert(('0' as int) == 48);
        assert(digits_value(decimal(n)) == n);
    } else {
        lemma_decimal_digits(n / 10);
        let d = decimal(n / 10);
        let c = digit_char((n % 10) as int);
        assert((c as int) == 48 + n % 10);
        assert(decimal(n) == d.push(c));
        assert(decimal(n).drop_last() =~= d);
        assert forall|i: int| 0 <= i < decimal(n).len() implies is_digit(#[trigger] decimal(n)[i]) by {
            if i < d.len() {
                assert(decimal(n)[i] == d[i]);
            }
        }
        assert(decimal(n)[0] == d[0]);
        assert((n / 10) * 10 + n % 10 == n) by (nonlinear_arith);
        assert(digits_value(decimal(n)) == digits_value(d) * 10 + ((c as int) - ('0' as int)));
        assert(('0' as int) == 48);
        assert(digits_value(decimal(n)) == n);
    }
}

/// Reading back the decimal text of an integer gives the integer: `int_text` and
/// `int_literal` undo each other, so a number written by `i64_text` parses back with
/// `parse_i64` to the same value.
pub proof fn lemma_int_text_round_trip(n: int)
    ensures
        int_literal(int_text(n)) == Some(n),
{
    if n < 0 {
        lemma_decimal_digits((-n) as nat);
        let t = int_text(n);
        assert(t.skip(1) =~= decimal((-n) as nat));
        assert(t[0] == '-');
    } else {
        lemma_decimal_digits(n as nat);
    }
}

/// `str::parse::<i64>`.
pub fn parse_i64(s: &str) -> (r: Option<i64>)
    ensures
        r == i64_literal(s@),
{
    let c = str_chars(s);
    if c.len() > 0 && (c[0] == '+' || c[0] == '-') {
        let neg = c[0] == '-';
        let limit: u128 = if neg {
            0x8000_0000_0000_0000
        } else {
            0x7fff_ffff_ffff_ffff
        };
        match parse_digits(c.as_slice(), 1, limit) {
            Some(v) => {
                if neg {
                    if v == 0x8000_0000_0000_0000 {
                        Some(i64::MIN)
                    } else {
                        Some(-(v as i64))
                    }
                } else {
                    Some(v as i64)
                }
            },
            None => None,
        }
    } else {
        match parse_digits(c.as_slice(), 0, 0x7fff_ffff_ffff_ffff) {
            Some(v) => {
                assert(c@.skip(0) =~= c@);
                Some(v as i64)
            },
            None => {
                assert(c@.skip(0) =~= c@);
                None
            },
        }
    }
}

/// `str::parse::<i32>`.
pub fn parse_i32(s: &str) -> (r: Option<i32>)
    ensures
        r == i32_literal(s@),
{
    match parse_i64(s) {
        Some(v) => if i32::MIN as i64 <= v && v <= i32::MAX as i64 {
            Some(v as i32)
        } else {
            None
        },
        None => None,
    }
}

// ---------------------------------------------------------------------------
// Floating-point literals
// ---------------------------------------------------------------------------

/// `char::to_ascii_lowercase`.
pub open spec fn lower_char(c: char) -> char {
    if 'A' <= c && c <= 'Z' {
        ((c as u32) + 32) as char
    } else {
        c
    }
}

/// `str::to_ascii_lowercase`, character by character.
pub open spec fn ascii_lower(s: Seq<char>) -> Seq<char> {
    s.map_values(|c: char| lower_char(c))
}

/// `s` without one leading `+` or `-`.
pub open spec fn unsigned_part(s: Seq<char>) -> Seq<char> {
    if s.len() > 0 && (s[0] == '+' || s[0] == '-') {
        s.skip(1)
    } else {
        s
    }
}

/// Digits with at most one `.` and at least one digit.
pub open spec fn mantissa_ok(m: Seq<char>) -> bool {
    match find_char(m, '.') {
        None => m.len() > 0 && all_digits(m),
        Some(k) => all_digits(m.take(k)) && all_digits(m.skip(k + 1)) && (k > 0 || m.len() > k + 1),
    }
}

/// An optional sign and one or more digits.
pub open spec fn exponent_ok(x: Seq<char>) -> bool {
    let d = unsigned_part(x);
    d.len() > 0 && all_digits(d)
}

/// `Number ::= ( Digit+ | Digit+ '.' Digit* | Digit* '.' Digit+ ) Exp?`, with
/// `Exp ::= 'e' Sign? Digit+`, on lowercased text.
pub open spec fn number_ok(t: Seq<char>) -> bool {
    match find_char(t, 'e') {
        None => mantissa_ok(t),
        Some(k) => mantissa_ok(t.take(k)) && exponent_ok(t.skip(k + 1)),
    }
}

/// Whether `str::parse::<f64>` accepts `s`: once lowercased, an optional sign followed by
/// `inf`, `infinity`, `nan` or a number (no spaces anywhere).
pub open spec fn float_literal(s: Seq<char>) -> bool {
    let t = ascii_lower(unsigned_part(s));
    t == "inf"@ || t == "infinity"@ || t == "nan"@ || number_ok(t)
}

fn char_lower(c: char) -> (r: char)
    ensures
        r == lower_char(c),
{
    if 'A' <= c && c <= 'Z' {
        let u = (c as u32) + 32;
        let b = u as u8;
        b as char
    } else {
        c
    }
}

/// Whether `s[a..b]` is all digits.
fn digits_between(s: &[char], a: usize, b: usize) -> (r: bool)
    requires
        a <= b <= s@.len(),
    ensures
        r == all_digits(s@.subrange(a as int, b as int)),
{
    let mut i = a;
    while i < b
        invariant
            a <= i <= b <= s@.len(),
            all_digits(s@.subrange(a as int, i as int)),
        decreases b - i,
    {
        if !('0' <= s[i] && s[i] <= '9') {
            assert(s@.subrange(a as int, b as int)[i - a] == s[i as int]);
            return false;
        }
        assert forall|k: int| 0 <= k < i + 1 - a implies is_digit(
            #[trigger] s@.subrange(a as int, i + 1)[k],
        ) by {
            if k < i - a {
                assert(s@.subrange(a as int, i + 1)[k] == s@.subrange(a as int, i as int)[k]);
            }
        }
        i += 1;
    }
    true
}

/// The first index in `s[a..b]` (relative to `a`) of `c`.
fn find_between(s: &[char], a: usize, b: usize, c: char) -> (r: Option<usize>)
    requires
        a <= b <= s@.len(),
    ensures
        r matches Some(k) ==> find_char(s@.subrange(a as int, b as int), c) == Some(k as int) && a + k
            < b,
        r is None ==> find_char(s@.subrange(a as int, b as int), c) is None,
{
    proof {
        lemma_find_char(s@.subrange(a as int, b as int), c);
    }
    let mut i = a;
    while i < b
        invariant
            a <= i <= b <= s@.len(),
            forall|k: int| a <= k < i ==> s@[k] != c,
        decreases b - i,
    {
        if s[i] == c {
            proof {
                let t = s@.subrange(a as int, b as int);
                assert(t[i - a] == c);
                assert forall|k: int| 0 <= k < i - a implies #[trigger] t[k] != c by {
                    assert(t[k] == s@[a + k]);
                }
                lemma_find_char_unique(t, c, i - a);
            }
            return Some(i - a);
        }
        i += 1;
    }
    proof {
        let t = s@.subrange(a as int, b as int);
        if find_char(t, c) is Some {
            let k = find_char(t, c)->0;
            assert(t[k] == s@[a + k]);
        }
    }
    None
}

proof fn lemma_find_char_unique(t: Seq<char>, c: char, i: int)
    requires
        0 <= i < t.len(),
        t[i] == c,
        forall|k: int| 0 <= k < i ==> #[trigger] t[k] != c,
    ensures
        find_char(t, c) == Some(i),
{
    lemma_find_char(t, c);
    if find_char(t, c) is None {
        assert(t[i] != c);
    } else {
        let k = find_char(t, c)->0;
        if k < i {
            assert(t[k] != c);
        } else if k > i {
            assert(t[i] != c);
        }
    }
}

fn mantissa_check(s: &[char], a: usize, b: usize) -> (r: bool)
    requires
        a <= b <= s@.len(),
    ensures
        r == mantissa_ok(s@.subrange(a as int, b as int)),
{
    let ghost m = s@.subrange(a as int, b as int);
    match find_between(s, a, b, '.') {
        None => b > a && digits_between(s, a, b),
        Some(k) => {
            assert(m.take(k as int) =~= s@.subrange(a as int, a + k));
            assert(m.skip(k + 1) =~= s@.subrange(a + k + 1, b as int));
            digits_between(s, a, a + k) && digits_between(s, a + k + 1, b) && (k > 0 || b - a > k + 1)
        },
    }
}

fn exponent_check(s: &[char], a: usize, b: usize) -> (r: bool)
    requires
        a <= b <= s@.len(),
    ensures
        r == exponent_ok(s@.subrange(a as int, b as int)),
{
    let ghost x = s@.subrange(a as int, b as int);
    if a < b && (s[a] == '+' || s[a] == '-') {
        assert(x[0] == s@[a as int]);
        assert(x.skip(1) =~= s@.subrange(a + 1, b as int));
        b > a + 1 && digits_between(s, a + 1, b)
    } else {
        b > a && digits_between(s, a, b)
    }
}

fn lower_equals(s: &[char], a: usize, word: &str) -> (r: bool)
    requires
        a <= s@.len(),
    ensures
        r == (ascii_lower(s@.skip(a as int)) == word@),
{
    let w = str_chars(word);
    let n = s.len();
    if n - a != w.len() {
        assert(ascii_lower(s@.skip(a as int)).len() != word@.len());
        return false;
    }
    let mut i: usize = 0;
    while i < w.len()
        invariant
            a <= s@.len(),
            n == s@.len(),
            s@.len() - a == w@.len(),
            w@ == word@,
            i <= w@.len(),
            forall|k: int| 0 <= k < i ==> lower_char(#[trigger] s@[a + k]) == w@[k],
        decreases w@.len() - i,
    {
        if char_lower(s[a + i]) != w[i] {
            assert(ascii_lower(s@.skip(a as int))[i as int] == lower_char(s@[a + i]));
            return false;
        }
        i += 1;
    }
    assert(ascii_lower(s@.skip(a as int)) =~= word@) by {
        assert forall|k: int| 0 <= k < word@.len() implies #[trigger] ascii_lower(s@.skip(a as int))[k]
            == word@[k] by {
            assert(s@.skip(a as int)[k] == s@[a + k]);
        }
    }
    true
}

/// Whether `str::parse::<f64>` accepts `s`.
pub fn is_float_literal(s: &str) -> (r: bool)
    ensures
        r == float_literal(s@),
{
    let c = str_chars(s);
    let start: usize = if c.len() > 0 && (c[0] == '+' || c[0] == '-') {
        1
    } else {
        0
    };
    assert(unsigned_part(s@) =~= c@.skip(start as int));
    if lower_equals(c.as_slice(), start, "inf") || lower_equals(c.as_slice(), start, "infinity")
        || lower_equals(c.as_slice(), start, "nan") {
        return true;
    }
    let mut low: Vec<char> = Vec::new();
    let mut i = start;
    while i < c.len()
        invariant
            start <= i <= c@.len(),
            low@ == ascii_lower(c@.subrange(start as int, i as int)),
        decreases c@.len() - i,
    {
        low.push(char_lower(c[i]));
        assert(c@.subrange(start as int, i + 1) =~= c@.subrange(start as int, i as int).push(c@[i as int]));
        assert(low@ =~= ascii_lower(c@.subrange(start as int, i + 1)));
        i += 1;
    }
    assert(c@.subrange(start as int, c@.len() as int) =~= c@.skip(start as int));
    let n = low.len();
    let ghost t = low@;
    assert(t.subrange(0, n as int) =~= t);
    match find_between(low.as_slice(), 0, n, 'e') {
        None => mantissa_check(low.as_slice(), 0, n),
        Some(k) => {
            assert(t.take(k as int) =~= t.subrange(0, k as int));
            assert(t.skip(k + 1) =~= t.subrange(k + 1, n as int));
            mantissa_check(low.as_slice(), 0, k) && exponent_check(low.as_slice(), k + 1, n)
        },
    }
}

} // verus!
