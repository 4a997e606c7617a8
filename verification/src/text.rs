//! Character and token utilities shared by the whole crate: ASCII lowering,
//! decimal integer parsing and printing, and the token grammars that the
//! type-inference cascade recognises (null, integer, float, boolean).

use vstd::prelude::*;

verus! {

// ---------------------------------------------------------------------------
// ASCII lowering
// ---------------------------------------------------------------------------
/// Lower-case a single character, ASCII letters only.
pub open spec fn lower_char(c: char) -> char {
    if 'A' as u32 <= c as u32 && c as u32 <= 'Z' as u32 {
        (c as u32 + 32) as char
    } else {
        c
    }
}

/// Lower-case a sequence of characters, ASCII letters only.
pub open spec fn lower_seq(s: Seq<char>) -> Seq<char> {
    s.map_values(|c: char| lower_char(c))
}

/// Relies on String::push: appends exactly one character at the end.
#[verifier::external_body]
pub fn push_char(s: &mut String, c: char)
    ensures
        final(s)@ == old(s)@.push(c),
{
    s.push(c);
}

fn to_lower_char(c: char) -> (r: char)
    ensures
        r == lower_char(c),
{
    let u: u32 = c as u32;
    if 65 <= u && u <= 90 {
        ((u + 32) as u8) as char
    } else {
        c
    }
}

/// ASCII lower-casing of a whole string.
pub fn to_lower(s: &str) -> (r: String)
    ensures
        r@ == lower_seq(s@),
{
    let n: usize = s.unicode_len();
    let mut r: String = String::new();
    let mut i: usize = 0;
    while i < n
        invariant
            n == s@.len(),
            0 <= i <= n,
            r@ == lower_seq(s@).take(i as int),
        decreases n - i,
    {
        let c = s.get_char(i);
        push_char(&mut r, to_lower_char(c));
        proof {
            assert(lower_seq(s@).take(i + 1) =~= lower_seq(s@).take(i as int).push(
                lower_char(s@[i as int]),
            ));
        }
        i = i + 1;
    }
    proof {
        assert(lower_seq(s@).take(n as int) =~= lower_seq(s@));
    }
    r
}

/// Character-wise string equality.
pub fn str_eq(a: &str, b: &str) -> (r: bool)
    ensures
        r == (a@ == b@),
{
    let na: usize = a.unicode_len();
    let nb: usize = b.unicode_len();
    if na != nb {
        proof {
            assert(a@ != b@) by {
                assert(a@.len() != b@.len());
            }
        }
        return false;
    }
    let mut i: usize = 0;
    while i < na
        invariant
            na == a@.len(),
            na == b@.len(),
            0 <= i <= na,
            forall|j: int| 0 <= j < i ==> a@[j] == b@[j],
        decreases na - i,
    {
        if a.get_char(i) != b.get_char(i) {
            return false;
        }
        i = i + 1;
    }
    proof {
        assert(a@ =~= b@);
    }
    true
}

// ---------------------------------------------------------------------------
// The null token: the empty string, or "na" in any letter case
// ---------------------------------------------------------------------------
/// A raw cell that stands for a missing value.
pub open spec fn is_null_token(s: Seq<char>) -> bool {
    s.len() == 0 || lower_seq(s) == seq!['n', 'a']
}

/// Recognise a missing-value cell.
pub fn null_token(s: &str) -> (r: bool)
    ensures
        r == is_null_token(s@),
{
    if s.unicode_len() == 0 {
        return true;
    }
    let low = to_lower(s);
    let r = str_eq(low.as_str(), "na");
    proof {
        reveal_strlit("na");
        assert("na"@ =~= seq!['n', 'a']);
    }
    r
}

// ---------------------------------------------------------------------------
// Decimal digits
// ---------------------------------------------------------------------------
pub open spec fn is_digit(c: char) -> bool {
    '0' as u32 <= c as u32 && c as u32 <= '9' as u32
}

pub open spec fn digit_val(c: char) -> int {
    c as u32 - '0' as u32
}

pub open spec fn all_digits(s: Seq<char>) -> bool {
    forall|i: int| 0 <= i < s.len() ==> is_digit(#[trigger] s[i])
}

/// The number written by a sequence of decimal digits, most significant first.
pub open spec fn digits_value(s: Seq<char>) -> int
    decreases s.len(),
{
    if s.len() == 0 {
        0
    } else {
        digits_value(s.drop_last()) * 10 + digit_val(s.last())
    }
}

pub proof fn lemma_digits_value_nonneg(s: Seq<char>)
    requires
        all_digits(s),
    ensures
        digits_value(s) >= 0,
    decreases s.len(),
{
    if s.len() > 0 {
        assert(all_digits(s.drop_last()));
        lemma_digits_value_nonneg(s.drop_last());
    }
}

/// Appending digits never shrinks the written number.
pub proof fn lemma_digits_value_prefix(s: Seq<char>, k: int)
    requires
        all_digits(s),
        0 <= k <= s.len(),
    ensures
        digits_value(s) >= digits_value(s.take(k)),
    decreases s.len() - k,
{
    lemma_digits_value_nonneg(s.take(k));
    if k < s.len() {
        assert(s.take(k + 1).drop_last() =~= s.take(k));
        lemma_digits_value_prefix(s, k + 1);
    } else {
        assert(s.take(k) =~= s);
    }
}

pub open spec fn digit_char(d: int) -> char {
    ('0' as u32 + d) as char
}

/// The decimal writing of a non-negative number.
pub open spec fn spec_uint_str(n: nat) -> Seq<char>
    decreases n,
{
    if n < 10 {
        seq![digit_char(n as int)]
    } else {
        spec_uint_str(n / 10).push(digit_char((n % 10) as int))
    }
}

/// The decimal writing of an integer, with a leading minus sign if negative.
pub open spec fn spec_int_str(n: int) -> Seq<char> {
    if n < 0 {
        seq!['-'] + spec_uint_str((-n) as nat)
    } else {
        spec_uint_str(n as nat)
    }
}

pub fn u128_to_string(n: u128) -> (r: String)
    ensures
        r@ == spec_uint_str(n as nat),
    decreases n,
{
    if n < 10 {
        let mut r = String::new();
        push_char(&mut r, ((48 + n as u32) as u8) as char);
        proof {
            assert(r@ =~= spec_uint_str(n as nat));
        }
        r
    } else {
        let mut r = u128_to_string(n / 10);
        push_char(&mut r, ((48 + (n % 10) as u32) as u8) as char);
        r
    }
}

pub fn usize_to_string(n: usize) -> (r: String)
    ensures
        r@ == spec_uint_str(n as nat),
{
    u128_to_string(n as u128)
}

pub fn i128_to_string(n: i128) -> (r: String)
    requires
        n > i128::MIN,
    ensures
        r@ == spec_int_str(n as int),
{
    if n < 0 {
        let mut r = String::new();
        push_char(&mut r, '-');
        let tail = u128_to_string((-n) as u128);
        r.append(tail.as_str());
        proof {
            assert(r@ =~= spec_int_str(n as int));
        }
        r
    } else {
        u128_to_string(n as u128)
    }
}

pub fn i64_to_string(n: i64) -> (r: String)
    ensures
        r@ == spec_int_str(n as int),
{
    i128_to_string(n as i128)
}

// ---------------------------------------------------------------------------
// 64-bit signed integer tokens
// ---------------------------------------------------------------------------
/// The token with an optional leading sign removed.
pub open spec fn int_body(s: Seq<char>) -> Seq<char> {
    if s.len() > 0 && (s[0] == '+' || s[0] == '-') {
        s.drop_first()
    } else {
        s
    }
}

pub open spec fn int_negative(s: Seq<char>) -> bool {
    s.len() > 0 && s[0] == '-'
}

/// An optional sign followed by one or more decimal digits.
pub open spec fn is_int_syntax(s: Seq<char>) -> bool {
    int_body(s).len() > 0 && all_digits(int_body(s))
}

pub open spec fn int_value(s: Seq<char>) -> int {
    if int_negative(s) {
        -digits_value(int_body(s))
    } else {
        digits_value(int_body(s))
    }
}

/// A token that a 64-bit signed integer parse accepts: sign and digits,
/// written value within the i64 range.
pub open spec fn is_i64_token(s: Seq<char>) -> bool {
    is_int_syntax(s) && i64::MIN <= int_value(s) <= i64::MAX
}

/// Parse a decimal 64-bit signed integer, rejecting any other token and any
/// written value outside the i64 range.
pub fn parse_i64(s: &str) -> (r: Option<i64>)
    ensures
        r is Some <==> is_i64_token(s@),
        r matches Some(v) ==> v as int == int_value(s@),
{
    let n: usize = s.unicode_len();
    if n == 0 {
        return None;
    }
    let c0 = s.get_char(0);
    let neg = c0 == '-';
    let start: usize = if c0 == '-' || c0 == '+' {
        1
    } else {
        0
    };
    proof {
        assert(int_body(s@) =~= s@.subrange(start as int, n as int));
    }
    if start == n {
        return None;
    }
    let ghost body = s@.subrange(start as int, n as int);
    let mut acc: i64 = 0;
    let mut i: usize = start;
    while i < n
        invariant
            n == s@.len(),
            start <= i <= n,
            start < n,
            body == s@.subrange(start as int, n as int),
            body == int_body(s@),
            int_negative(s@) == neg,
            all_digits(body.take(i - start)),
            acc == -digits_value(body.take(i - start)),
            acc <= 0,
        decreases n - i,
    {
        let c = s.get_char(i);
        let u: u32 = c as u32;
        proof {
            assert(body[i - start] == s@[i as int]);
        }
        if u < 48 || u > 57 {
            proof {
                assert(!is_digit(body[i - start]));
            }
            return None;
        }
        let d: i64 = (u - 48) as i64;
        proof {
            assert(body.take(i - start + 1).drop_last() =~= body.take(i - start));
            assert(body.take(i - start + 1).last() == body[i - start]);
            assert(digits_value(body.take(i - start + 1)) == digits_value(body.take(i - start))
                * 10 + digit_val(body[i - start]));
            lemma_digits_value_nonneg(body.take(i - start));
        }
        let a = match acc.checked_mul(10) {
            Some(a) => a,
            None => {
                proof {
                    // The digits written so far already exceed the i64 range,
                    // and further digits only grow the written value.
                    assert(digits_value(body.take(i - start + 1)) > 9223372036854775808int);
                    if is_i64_token(s@) {
                        lemma_digits_value_prefix(body, i - start + 1);
                    }
                }
                return None;
            },
        };
        let b = match a.checked_sub(d) {
            Some(b) => b,
            None => {
                proof {
                    assert(digits_value(body.take(i - start + 1)) > 9223372036854775808int);
                    if is_i64_token(s@) {
                        lemma_digits_value_prefix(body, i - start + 1);
                    }
                }
                return None;
            },
        };
        acc = b;
        i = i + 1;
    }
    proof {
        assert(body.take(n - start) =~= body);
        assert(is_int_syntax(s@));
        lemma_digits_value_nonneg(body);
    }
    if neg {
        Some(acc)
    } else {
        if acc == i64::MIN {
            proof {
                assert(int_value(s@) == 9223372036854775808int);
            }
            None
        } else {
            Some(-acc)
        }
    }
}

// ---------------------------------------------------------------------------
// Float tokens: the grammar a 64-bit float parse accepts
// ---------------------------------------------------------------------------
/// First position at or after `i` holding `c1` or `c2`, or the length.
pub open spec fn find_from(s: Seq<char>, i: int, c1: char, c2: char) -> int
    decreases s.len() - i,
{
    if i < 0 || i >= s.len() {
        s.len() as int
    } else if s[i] == c1 || s[i] == c2 {
        i
    } else {
        find_from(s, i + 1, c1, c2)
    }
}

pub proof fn lemma_find_from(s: Seq<char>, i: int, c1: char, c2: char, k: int)
    requires
        0 <= i <= k <= s.len(),
        k == s.len() || s[k] == c1 || s[k] == c2,
        forall|j: int| i <= j < k ==> s[j] != c1 && s[j] != c2,
    ensures
        find_from(s, i, c1, c2) == k,
    decreases s.len() - i,
{
    if i < s.len() && i < k {
        lemma_find_from(s, i + 1, c1, c2, k);
    }
}

/// Digits with at most one decimal point and at least one character besides
/// the point: the mantissa shapes `123`, `123.`, `1.5` and `.5`.
pub open spec fn is_mantissa(m: Seq<char>) -> bool {
    let d = find_from(m, 0, '.', '.');
    if d == m.len() {
        m.len() > 0 && all_digits(m)
    } else {
        all_digits(m.take(d)) && all_digits(m.skip(d + 1)) && m.len() >= 2
    }
}

/// A mantissa, optionally followed by `e` or `E` and a signed exponent.
pub open spec fn is_number_body(b: Seq<char>) -> bool {
    let k = find_from(b, 0, 'e', 'E');
    if k == b.len() {
        is_mantissa(b)
    } else {
        is_mantissa(b.take(k)) && is_int_syntax(b.skip(k + 1))
    }
}

/// A token that a 64-bit float parse accepts: an optional sign followed by
/// `inf`, `infinity`, `nan` (in any letter case) or a decimal number with an
/// optional exponent.
pub open spec fn is_float_token(s: Seq<char>) -> bool {
    let b = int_body(s);
    lower_seq(b) == "inf"@ || lower_seq(b) == "infinity"@ || lower_seq(b) == "nan"@
        || is_number_body(b)
}

/// A token that parses to a float NaN.
pub open spec fn is_nan_token(s: Seq<char>) -> bool {
    lower_seq(int_body(s)) == "nan"@
}

/// A token that parses to an infinity.
pub open spec fn is_inf_token(s: Seq<char>) -> bool {
    lower_seq(int_body(s)) == "inf"@ || lower_seq(int_body(s)) == "infinity"@
}

fn all_digits_range(s: &str, from: usize, to: usize) -> (r: bool)
    requires
        from <= to <= s@.len(),
    ensures
        r == all_digits(s@.subrange(from as int, to as int)),
{
    let mut i: usize = from;
    while i < to
        invariant
            from <= i <= to <= s@.len(),
            forall|j: int| 0 <= j < i - from ==> is_digit(#[trigger] s@.subrange(
                from as int,
                to as int,
            )[j]),
        decreases to - i,
    {
        let u: u32 = s.get_char(i) as u32;
        if u < 48 || u > 57 {
            proof {
                assert(s@.subrange(from as int, to as int)[i - from] == s@[i as int]);
            }
            return false;
        }
        i = i + 1;
    }
    true
}

/// First `e` or `E` in the token, or its length.
pub fn find_exp_marker(s: &str) -> (r: usize)
    ensures
        r == find_from(s@, 0, 'e', 'E'),
        r <= s@.len(),
{
    find_char2(s, 'e', 'E')
}

/// First `.` before `upto`, or `upto`.
pub fn find_dot(s: &str, upto: usize) -> (r: usize)
    requires
        upto <= s@.len(),
    ensures
        r == find_from(s@.take(upto as int), 0, '.', '.'),
        r <= upto,
{
    let ghost m = s@.take(upto as int);
    let mut i: usize = 0;
    while i < upto
        invariant
            upto <= s@.len(),
            m == s@.take(upto as int),
            0 <= i <= upto,
            forall|j: int| 0 <= j < i ==> m[j] != '.',
        decreases upto - i,
    {
        let c = s.get_char(i);
        if c == '.' {
            proof {
                assert(m[i as int] == '.');
                lemma_find_from(m, 0, '.', '.', i as int);
            }
            return i;
        }
        i = i + 1;
    }
    proof {
        lemma_find_from(m, 0, '.', '.', upto as int);
    }
    upto
}

pub(crate) fn find_char2(s: &str, c1: char, c2: char) -> (r: usize)
    ensures
        r == find_from(s@, 0, c1, c2),
        r <= s@.len(),
{
    let n: usize = s.unicode_len();
    let mut i: usize = 0;
    while i < n
        invariant
            n == s@.len(),
            0 <= i <= n,
            forall|j: int| 0 <= j < i ==> s@[j] != c1 && s@[j] != c2,
        decreases n - i,
    {
        let c = s.get_char(i);
        if c == c1 || c == c2 {
            proof {
                lemma_find_from(s@, 0, c1, c2, i as int);
            }
            return i;
        }
        i = i + 1;
    }
    proof {
        lemma_find_from(s@, 0, c1, c2, n as int);
    }
    n
}

/// Recognise the sign-and-digits shape without the range restriction.
pub fn int_syntax(s: &str) -> (r: bool)
    ensures
        r == is_int_syntax(s@),
{
    let n: usize = s.unicode_len();
    if n == 0 {
        return false;
    }
    let c0 = s.get_char(0);
    let start: usize = if c0 == '-' || c0 == '+' {
        1
    } else {
        0
    };
    proof {
        assert(int_body(s@) =~= s@.subrange(start as int, n as int));
    }
    if start == n {
        return false;
    }
    all_digits_range(s, start, n)
}

fn mantissa_token(m: &str) -> (r: bool)
    ensures
        r == is_mantissa(m@),
{
    let len: usize = m.unicode_len();
    let d = find_char2(m, '.', '.');
    if d == len {
        if len == 0 {
            return false;
        }
        proof {
            assert(m@.subrange(0, len as int) =~= m@);
        }
        all_digits_range(m, 0, len)
    } else {
        if len < 2 {
            return false;
        }
        proof {
            assert(m@.take(d as int) =~= m@.subrange(0, d as int));
            assert(m@.skip(d + 1) =~= m@.subrange(d + 1, len as int));
        }
        let before = all_digits_range(m, 0, d);
        if !before {
            return false;
        }
        all_digits_range(m, d + 1, len)
    }
}

/// Recognise a float token.
pub fn float_token(s: &str) -> (r: bool)
    ensures
        r == is_float_token(s@),
{
    let n: usize = s.unicode_len();
    if n == 0 {
        proof {
            assert(int_body(s@) =~= Seq::<char>::empty());
            assert(lower_seq(int_body(s@)).len() == 0);
            reveal_strlit("inf");
            reveal_strlit("infinity");
            reveal_strlit("nan");
        }
        return false;
    }
    let c0 = s.get_char(0);
    let start: usize = if c0 == '-' || c0 == '+' {
        1
    } else {
        0
    };
    let body = s.substring_char(start, n);
    proof {
        assert(int_body(s@) =~= s@.subrange(start as int, n as int));
    }
    let low = to_lower(body);
    if str_eq(low.as_str(), "inf") || str_eq(low.as_str(), "infinity") || str_eq(
        low.as_str(),
        "nan",
    ) {
        return true;
    }
    let m: usize = body.unicode_len();
    let k = find_char2(body, 'e', 'E');
    if k == m {
        mantissa_token(body)
    } else {
        let mpart = body.substring_char(0, k);
        proof {
            assert(mpart@ =~= body@.take(k as int));
        }
        let mant = mantissa_token(mpart);
        if !mant {
            return false;
        }
        let exp = body.substring_char(k + 1, m);
        proof {
            assert(exp@ =~= body@.skip(k + 1));
        }
        int_syntax(exp)
    }
}

/// Recognise a NaN token.
pub fn nan_token(s: &str) -> (r: bool)
    ensures
        r == is_nan_token(s@),
{
    let n: usize = s.unicode_len();
    if n == 0 {
        proof {
            assert(int_body(s@) =~= Seq::<char>::empty());
            assert(lower_seq(Seq::<char>::empty()) =~= Seq::<char>::empty());
            reveal_strlit("nan");
        }
        return false;
    }
    let c0 = s.get_char(0);
    let start: usize = if c0 == '-' || c0 == '+' {
        1
    } else {
        0
    };
    let body = s.substring_char(start, n);
    proof {
        assert(int_body(s@) =~= s@.subrange(start as int, n as int));
    }
    let low = to_lower(body);
    str_eq(low.as_str(), "nan")
}

// ---------------------------------------------------------------------------
// Laws of the token grammars
// ---------------------------------------------------------------------------
pub proof fn lemma_uint_str_digits(n: nat)
    ensures
        all_digits(spec_uint_str(n)),
        spec_uint_str(n).len() >= 1,
        digits_value(spec_uint_str(n)) == n,
    decreases n,
{
    if n < 10 {
        assert(digit_char(n as int) as u32 == '0' as u32 + n);
        assert(digit_val(digit_char(n as int)) == n);
        assert(spec_uint_str(n) =~= seq![digit_char(n as int)]);
        assert(spec_uint_str(n).drop_last() =~= Seq::<char>::empty());
        assert(digits_value(spec_uint_str(n)) == digits_value(Seq::<char>::empty()) * 10
            + digit_val(digit_char(n as int)));
    } else {
        lemma_uint_str_digits(n / 10);
        assert(digit_char((n % 10) as int) as u32 == '0' as u32 + (n % 10));
        assert(digit_val(digit_char((n % 10) as int)) == n % 10);
        assert(spec_uint_str(n).drop_last() =~= spec_uint_str(n / 10));
        assert(spec_uint_str(n).last() == digit_char((n % 10) as int));
        assert(digits_value(spec_uint_str(n)) == (n / 10) * 10 + n % 10);
    }
}

/// Law: the decimal writing of any 64-bit value is an integer token, and
/// it reads back as the value it was written from.
pub proof fn lemma_int_str_round_trip(v: int)
    requires
        i64::MIN <= v <= i64::MAX,
    ensures
        is_i64_token(spec_int_str(v)),
        int_value(spec_int_str(v)) == v,
{
    if v < 0 {
        lemma_uint_str_digits((-v) as nat);
        let s = spec_int_str(v);
        assert(s[0] == '-');
        assert(int_body(s) =~= spec_uint_str((-v) as nat));
    } else {
        lemma_uint_str_digits(v as nat);
        let s = spec_int_str(v);
        assert(is_digit(s[0]));
        assert('-' as u32 == 45 && '+' as u32 == 43);
        assert(s[0] != '-' && s[0] != '+');
        assert(int_body(s) =~= s);
    }
}

/// Law: every 64-bit integer token is also a float token: the cascade's
/// integer stage accepts only what its float stage would also accept.
pub proof fn lemma_int_token_is_float_token(s: Seq<char>)
    requires
        is_int_syntax(s),
    ensures
        is_float_token(s),
{
    let b = int_body(s);
    assert('e' as u32 == 101 && 'E' as u32 == 69 && '.' as u32 == 46);
    assert forall|j: int| 0 <= j < b.len() implies b[j] != 'e' && b[j] != 'E' && b[j] != '.' by {
        assert(is_digit(b[j]));
    }
    lemma_find_from(b, 0, 'e', 'E', b.len() as int);
    lemma_find_from(b, 0, '.', '.', b.len() as int);
    assert(b.take(b.len() as int) =~= b);
    assert(is_mantissa(b));
    assert(is_number_body(b));
}

// ---------------------------------------------------------------------------
// Boolean tokens
// ---------------------------------------------------------------------------
/// The boolean a token stands for: `true`/`1`/`yes` and `false`/`0`/`no`,
/// in any letter case; anything else is no boolean.
pub open spec fn bool_token_value(s: Seq<char>) -> Option<bool> {
    let l = lower_seq(s);
    if l == "true"@ || l == "1"@ || l == "yes"@ {
        Some(true)
    } else if l == "false"@ || l == "0"@ || l == "no"@ {
        Some(false)
    } else {
        None
    }
}

/// Recognise a boolean token.
pub fn parse_bool_token(s: &str) -> (r: Option<bool>)
    ensures
        r == bool_token_value(s@),
{
    let low = to_lower(s);
    let l = low.as_str();
    if str_eq(l, "true") || str_eq(l, "1") || str_eq(l, "yes") {
        Some(true)
    } else if str_eq(l, "false") || str_eq(l, "0") || str_eq(l, "no") {
        Some(false)
    } else {
        None
    }
}

} // verus!
