//! Some validators used in the CLI
use vstd::prelude::*;
use vstd::string::*;

use crate::text::{chars_of, decimal, digit_char};

verus! {

/// A decimal digit.
pub open spec fn is_digit(c: char) -> bool {
    '0' <= c && c <= '9'
}

/// The value of a decimal digit.
pub open spec fn digit_value(c: char) -> nat {
    (c as nat - '0' as nat) as nat
}

/// The value of a string of decimal digits.
pub open spec fn digits_value(s: Seq<char>) -> nat
    decreases s.len(),
{
    if s.len() == 0 {
        0
    } else {
        digits_value(s.drop_last()) * 10 + digit_value(s.last())
    }
}

/// One or more decimal digits.
pub open spec fn is_digit_string(s: Seq<char>) -> bool {
    s.len() > 0 && forall|i: int| 0 <= i < s.len() ==> #[trigger] is_digit(s[i])
}

/// The value of a decimal digit's character is the digit.
proof fn lemma_digit_char_value(d: nat)
    requires
        d < 10,
    ensures
        is_digit(digit_char(d)),
        digit_value(digit_char(d)) == d,
{
}

/// The decimal notation of a number consists of digits that read back as the
/// number, and has no leading zero.
pub proof fn decimal_reads_back(n: nat)
    ensures
        is_digit_string(decimal(n)),
        digits_value(decimal(n)) == n,
        n > 0 ==> decimal(n)[0] != '0',
    decreases n,
{
    if n < 10 {
        lemma_digit_char_value(n);
        assert(decimal(n).drop_last() =~= Seq::<char>::empty());
        assert(digits_value(decimal(n)) == digits_value(Seq::<char>::empty()) * 10 + digit_value(
            decimal(n).last(),
        ));
    } else {
        let q = n / 10;
        let r = n % 10;
        decimal_reads_back(q);
        lemma_digit_char_value(r);
        let s = decimal(n);
        assert(s.drop_last() =~= decimal(q));
        assert(n == q * 10 + r) by (nonlinear_arith)
            requires
                q == n / 10,
                r == n % 10,
        ;
        assert(s[0] == decimal(q)[0]);
        assert(s.last() == digit_char(r));
        assert(digits_value(s) == digits_value(decimal(q)) * 10 + digit_value(s.last()));
        assert(digits_value(s) == q * 10 + r);
    }
}

/// The text is an `i32` as `str::parse` reads it: an optional `+` or `-`,
/// then decimal digits whose value fits the type.
pub open spec fn parses_as_i32(s: Seq<char>) -> bool {
    if s.len() > 0 && s[0] == '-' {
        is_digit_string(s.drop_first()) && digits_value(s.drop_first()) <= 0x8000_0000
    } else if s.len() > 0 && s[0] == '+' {
        is_digit_string(s.drop_first()) && digits_value(s.drop_first()) <= 0x7fff_ffff
    } else {
        is_digit_string(s) && digits_value(s) <= 0x7fff_ffff
    }
}

/// The text is a `usize` as `str::parse` reads it: an optional `+`, then
/// decimal digits whose value fits the type.
pub open spec fn parses_as_usize(s: Seq<char>) -> bool {
    if s.len() > 0 && s[0] == '+' {
        is_digit_string(s.drop_first()) && digits_value(s.drop_first()) <= usize::MAX
    } else {
        is_digit_string(s) && digits_value(s) <= usize::MAX
    }
}

/// The value of `digits[start..]` when it is a non-empty string of decimal
/// digits with a value of at most `limit`.
fn digits_within(digits: &[char], start: usize, limit: u128) -> (res: Option<u64>)
    requires
        start <= digits@.len(),
        limit <= u64::MAX,
    ensures
        res is Some == (is_digit_string(digits@.skip(start as int)) && digits_value(
            digits@.skip(start as int),
        ) <= limit),
        res matches Some(v) ==> v == digits_value(digits@.skip(start as int)),
{
    let ghost body = digits@.skip(start as int);
    if start == digits.len() {
        return None;
    }
    let mut value: u128 = 0;
    let mut i: usize = start;
    assert(digits@.subrange(start as int, start as int) =~= Seq::<char>::empty());
    while i < digits.len()
        invariant
            body == digits@.skip(start as int),
            start < digits@.len(),
            start <= i <= digits@.len(),
            limit <= u64::MAX,
            value <= limit,
            value == digits_value(digits@.subrange(start as int, i as int)),
            forall|k: int| start <= k < i ==> #[trigger] is_digit(digits@[k]),
        decreases digits@.len() - i,
    {
        let c = digits[i];
        if !('0' <= c && c <= '9') {
            assert(body[i - start] == c);
            assert(!is_digit(body[i - start]));
            assert(!is_digit_string(body));
            return None;
        }
        let d = (c as u32 - '0' as u32) as u128;
        let ghost prefix = digits@.subrange(start as int, i + 1);
        assert(prefix.drop_last() =~= digits@.subrange(start as int, i as int));
        assert(prefix.last() == c);
        value = value * 10 + d;
        if value > limit {
            proof {
                lemma_digits_value_grows(body, (i - start + 1) as int);
                assert(body.subrange(0, (i - start + 1) as int) =~= prefix);
            }
            return None;
        }
        i = i + 1;
    }
    assert(digits@.subrange(start as int, digits@.len() as int) =~= body);
    assert forall|k: int| 0 <= k < body.len() implies #[trigger] is_digit(body[k]) by {
        assert(body[k] == digits@[k + start]);
    }
    Some(value as u64)
}

/// The value of a digit string is at least the value of any of its prefixes.
proof fn lemma_digits_value_grows(s: Seq<char>, n: int)
    requires
        0 <= n <= s.len(),
    ensures
        digits_value(s.subrange(0, n)) <= digits_value(s),
    decreases s.len() - n,
{
    if n < s.len() {
        lemma_digits_value_grows(s, n + 1);
        assert(s.subrange(0, n + 1).drop_last() =~= s.subrange(0, n));
    } else {
        assert(s.subrange(0, n) =~= s);
    }
}

/// The message for a value that is rejected.
fn rejection(v: &String, reason: &str) -> (msg: String)
    ensures
        msg@ == "`"@ + v@ + reason@,
{
    let mut msg = String::from_str("`");
    msg.append(v.as_str());
    msg.append(reason);
    msg
}

/// The value of an `i32` text (see `parses_as_i32`).
pub open spec fn i32_value(s: Seq<char>) -> int {
    if s.len() > 0 && s[0] == '-' {
        -digits_value(s.drop_first())
    } else if s.len() > 0 && s[0] == '+' {
        digits_value(s.drop_first()) as int
    } else {
        digits_value(s) as int
    }
}

/// The value of a `usize` text (see `parses_as_usize`).
pub open spec fn usize_value(s: Seq<char>) -> int {
    if s.len() > 0 && s[0] == '+' {
        digits_value(s.drop_first()) as int
    } else {
        digits_value(s) as int
    }
}

/// The decimal notation of a number is read back as that number: as an
/// `i32` up to its maximum, negated after a `-` down to its minimum, and as a
/// `usize` up to its maximum.
pub proof fn integer_text_reads_back(n: nat)
    ensures
        n <= 0x7fff_ffff ==> parses_as_i32(decimal(n)) && i32_value(decimal(n)) == n,
        n <= 0x8000_0000 ==> parses_as_i32(seq!['-'] + decimal(n)) && i32_value(
            seq!['-'] + decimal(n),
        ) == -n,
        n <= usize::MAX ==> parses_as_usize(decimal(n)) && usize_value(decimal(n)) == n,
{
    decimal_reads_back(n);
    let d = decimal(n);
    assert(is_digit(d[0]));
    assert((seq!['-'] + d).drop_first() =~= d);
    assert((seq!['-'] + d)[0] == '-');
}

/// Read an `i32` the way `str::parse` does: `None` when the text is not one.
pub fn parse_i32(v: &str) -> (res: Option<i32>)
    ensures
        res is Some == parses_as_i32(v@),
        res matches Some(n) ==> n == i32_value(v@),
{
    let chars = chars_of(v);
    assert(chars@.skip(1) =~= chars@.drop_first());
    assert(chars@.skip(0) =~= chars@);
    if chars.len() > 0 && chars[0] == '-' {
        match digits_within(chars.as_slice(), 1, 0x8000_0000) {
            Some(d) => Some((0 - (d as i64)) as i32),
            None => None,
        }
    } else if chars.len() > 0 && chars[0] == '+' {
        match digits_within(chars.as_slice(), 1, 0x7fff_ffff) {
            Some(d) => Some(d as i32),
            None => None,
        }
    } else {
        match digits_within(chars.as_slice(), 0, 0x7fff_ffff) {
            Some(d) => Some(d as i32),
            None => None,
        }
    }
}

/// Read a `usize` the way `str::parse` does: `None` when the text is not one.
pub fn parse_usize(v: &str) -> (res: Option<usize>)
    ensures
        res is Some == parses_as_usize(v@),
        res matches Some(n) ==> n == usize_value(v@),
{
    let chars = chars_of(v);
    let limit: u128 = usize::MAX as u128;
    assert(chars@.skip(1) =~= chars@.drop_first());
    assert(chars@.skip(0) =~= chars@);
    let start: usize = if chars.len() > 0 && chars[0] == '+' {
        1
    } else {
        0
    };
    match digits_within(chars.as_slice(), start, limit) {
        Some(d) => Some(d as usize),
        None => None,
    }
}

/// Check if a string can be parsed as a valid integer
pub fn is_integer(v: String) -> (res: Result<(), String>)
    ensures
        match res {
            Ok(()) => parses_as_i32(v@),
            Err(msg) => !parses_as_i32(v@) && msg@ == "`"@ + v@ + "` is not an integer"@,
        },
{
    if parse_i32(v.as_str()).is_some() {
        Ok(())
    } else {
        Err(rejection(&v, "` is not an integer"))
    }
}

/// Check if a string can be parsed as a valid positive integer: a `usize`
/// above zero.
pub fn is_usize(v: String) -> (res: Result<(), String>)
    ensures
        match res {
            Ok(()) => parses_as_usize(v@) && usize_value(v@) > 0,
            Err(msg) => !(parses_as_usize(v@) && usize_value(v@) > 0) && msg@ == "`"@ + v@
                + "` is not an positive integer"@,
        },
{
    match parse_usize(v.as_str()) {
        Some(n) => if n > 0 {
            Ok(())
        } else {
            Err(rejection(&v, "` is not an positive integer"))
        },
        None => Err(rejection(&v, "` is not an positive integer")),
    }
}

/// ASCII lower case of a character.
pub open spec fn lower(c: char) -> char {
    if 'A' <= c && c <= 'Z' {
        ((c as u32) + 32) as char
    } else {
        c
    }
}

/// ASCII lower case of a text.
pub open spec fn lowercased(s: Seq<char>) -> Seq<char> {
    Seq::new(s.len(), |i: int| lower(s[i]))
}

/// The text without one leading `+` or `-`.
pub open spec fn without_sign(s: Seq<char>) -> Seq<char> {
    if s.len() > 0 && (s[0] == '+' || s[0] == '-') {
        s.drop_first()
    } else {
        s
    }
}

/// The number of decimal digits at the start of a text.
pub open spec fn leading_digits(s: Seq<char>) -> nat
    decreases s.len(),
{
    if s.len() > 0 && is_digit(s[0]) {
        1 + leading_digits(s.drop_first())
    } else {
        0
    }
}

/// An exponent: `e`, an optional sign, one or more digits.
pub open spec fn is_exponent(s: Seq<char>) -> bool {
    s.len() > 0 && s[0] == 'e' && is_digit_string(without_sign(s.drop_first()))
}

/// A decimal number: digits, optionally a point and more digits, with at
/// least one digit in all, then optionally an exponent.
pub open spec fn is_number(s: Seq<char>) -> bool {
    let a = leading_digits(s);
    let after = s.skip(a as int);
    if after.len() > 0 && after[0] == '.' {
        let f = leading_digits(after.drop_first());
        let rest = after.drop_first().skip(f as int);
        (a > 0 || f > 0) && (rest.len() == 0 || is_exponent(rest))
    } else {
        a > 0 && (after.len() == 0 || is_exponent(after))
    }
}

/// The text is a float as `str::parse` reads an `f32` or `f64`: an optional
/// sign, then (ignoring ASCII case) `inf`, `infinity`, `nan` or a decimal
/// number with an optional exponent; no surrounding whitespace.
pub open spec fn parses_as_float(s: Seq<char>) -> bool {
    let body = lowercased(without_sign(s));
    body == "inf"@ || body == "infinity"@ || body == "nan"@ || is_number(body)
}

/// A string of decimal digits, with or without a sign, is a float.
pub proof fn signed_integers_are_floats(ds: Seq<char>)
    requires
        is_digit_string(ds),
    ensures
        parses_as_float(ds),
        parses_as_float(seq!['-'] + ds),
        parses_as_float(seq!['+'] + ds),
{
    assert(lowercased(ds) =~= ds) by {
        assert forall|k: int| 0 <= k < ds.len() implies lower(ds[k]) == ds[k] by {
            lemma_lower_keeps(ds[k]);
        }
    }
    assert(is_digit(ds[0]));
    assert(without_sign(ds) == ds);
    assert((seq!['-'] + ds).drop_first() =~= ds);
    assert((seq!['+'] + ds).drop_first() =~= ds);
    assert(without_sign(seq!['-'] + ds) == ds);
    assert(without_sign(seq!['+'] + ds) == ds);
    lemma_leading_digits(ds, 0, ds.len() as int);
    assert(ds.skip(0) =~= ds);
    assert(ds.skip(ds.len() as int).len() == 0);
    assert(is_number(ds));
}

/// Whether `c`, in ASCII lower case, is the lower case letter `l`.
fn is_letter_ignoring_case(c: char, l: char) -> (res: bool)
    requires
        'a' <= l <= 'z',
    ensures
        res == (lower(c) == l),
{
    let u = l as u32 - 32;
    let cu = c as u32;
    proof {
        if 'A' <= c && c <= 'Z' {
            assert(lower(c) as u32 == cu + 32);
        } else {
            assert(lower(c) == c);
        }
    }
    c == l || cu == u
}

/// Whether `s[start..]` is, ignoring ASCII case, the lower case word `word`.
fn rest_is_word(s: &[char], start: usize, word: &str) -> (res: bool)
    requires
        start <= s@.len(),
        forall|k: int| 0 <= k < word@.len() ==> 'a' <= #[trigger] word@[k] <= 'z',
    ensures
        res == (lowercased(s@.skip(start as int)) == word@),
{
    let w = chars_of(word);
    let n = s.len();
    if n - start != w.len() {
        assert(lowercased(s@.skip(start as int)).len() != word@.len());
        return false;
    }
    let mut k: usize = 0;
    while k < w.len()
        invariant
            w@ == word@,
            n == s@.len(),
            start <= s@.len(),
            s@.len() - start == w@.len(),
            k <= w@.len(),
            forall|j: int| 0 <= j < word@.len() ==> 'a' <= #[trigger] word@[j] <= 'z',
            forall|j: int| 0 <= j < k ==> lower(s@[start + j]) == #[trigger] w@[j],
        decreases w@.len() - k,
    {
        assert(start + k < s@.len());
        if !is_letter_ignoring_case(s[start + k], w[k]) {
            assert(lowercased(s@.skip(start as int))[k as int] != word@[k as int]);
            return false;
        }
        k = k + 1;
    }
    assert(lowercased(s@.skip(start as int)) =~= word@);
    true
}

/// The first position at or after `start` that is not a digit.
fn skip_digits(s: &[char], start: usize) -> (end: usize)
    requires
        start <= s@.len(),
    ensures
        start <= end <= s@.len(),
        end - start == leading_digits(s@.skip(start as int)),
        forall|k: int| start <= k < end ==> #[trigger] is_digit(s@[k]),
        end == s@.len() || !is_digit(s@[end as int]),
{
    let mut end = start;
    while end < s.len() && '0' <= s[end] && s[end] <= '9'
        invariant
            start <= end <= s@.len(),
            forall|k: int| start <= k < end ==> #[trigger] is_digit(s@[k]),
        decreases s@.len() - end,
    {
        end = end + 1;
    }
    proof {
        lemma_leading_digits(s@, start as int, end as int);
    }
    end
}

/// Digits run from `i` up to `j`, where they end.
proof fn lemma_leading_digits(s: Seq<char>, i: int, j: int)
    requires
        0 <= i <= j <= s.len(),
        forall|k: int| i <= k < j ==> #[trigger] is_digit(s[k]),
        j == s.len() || !is_digit(s[j]),
    ensures
        leading_digits(s.skip(i)) == j - i,
    decreases j - i,
{
    if i < j {
        lemma_leading_digits(s, i + 1, j);
        assert(s.skip(i).drop_first() =~= s.skip(i + 1));
    } else if j < s.len() {
        assert(s.skip(i)[0] == s[j]);
    }
}

/// Whether `s[start..]` is an exponent, ignoring the case of its `e`.
fn rest_is_exponent(s: &[char], start: usize) -> (res: bool)
    requires
        start <= s@.len(),
    ensures
        res == is_exponent(lowercased(s@.skip(start as int))),
{
    let ghost rest = lowercased(s@.skip(start as int));
    if start == s.len() || !is_letter_ignoring_case(s[start], 'e') {
        return false;
    }
    let mut i = start + 1;
    if i < s.len() && (s[i] == '+' || s[i] == '-') {
        i = i + 1;
    }
    let end = skip_digits(s, i);
    proof {
        assert(rest[0] == lower(s@[start as int]));
        if start + 1 < s.len() {
            lemma_lower_keeps(s@[start + 1]);
            assert(rest.drop_first()[0] == lower(s@[start + 1]));
        }
        let digits = without_sign(rest.drop_first());
        assert(digits =~= lowercased(s@.skip(i as int)));
        if end == s.len() && end > i {
            assert forall|k: int| 0 <= k < digits.len() implies #[trigger] is_digit(digits[k]) by {
                assert(digits[k] == lower(s@[i + k]));
                lemma_lower_keeps(s@[i + k]);
            }
        } else if end == i {
            if i < s.len() {
                assert(digits[0] == lower(s@[i as int]));
                lemma_lower_keeps(s@[i as int]);
            }
        } else {
            assert(digits[end - i] == lower(s@[end as int]));
            lemma_lower_keeps(s@[end as int]);
            assert(!is_digit(digits[end - i]));
        }
    }
    end > i && end == s.len()
}

/// Check if a string can be parsed as a valid float
pub fn is_float(v: String) -> (res: Result<(), String>)
    ensures
        match res {
            Ok(()) => parses_as_float(v@),
            Err(msg) => !parses_as_float(v@) && msg@ == "`"@ + v@ + "` is not a float"@,
        },
{
    let s = chars_of(v.as_str());
    let ghost body = lowercased(without_sign(v@));
    let mut start: usize = 0;
    if s.len() > 0 && (s[0] == '+' || s[0] == '-') {
        start = 1;
    }
    assert(s@.skip(start as int) =~= without_sign(v@));
    proof {
        reveal_strlit("inf");
        reveal_strlit("infinity");
        reveal_strlit("nan");
    }
    let special = rest_is_word(s.as_slice(), start, "inf") || rest_is_word(
        s.as_slice(),
        start,
        "infinity",
    ) || rest_is_word(s.as_slice(), start, "nan");
    let ok = if special {
        true
    } else {
        let a_end = skip_digits(s.as_slice(), start);
        let a = a_end - start;
        proof {
            assert(leading_digits(body) == a) by {
                lemma_lowercase_digits(s@, start as int, a_end as int);
            }
            assert(body.skip(a as int) =~= lowercased(s@.skip(a_end as int)));
        }
        if a_end < s.len() && s[a_end] == '.' {
            let f_end = skip_digits(s.as_slice(), a_end + 1);
            proof {
                let after = body.skip(a as int);
                assert(after[0] == lower(s@[a_end as int]));
                assert(after.drop_first() =~= lowercased(s@.skip(a_end + 1)));
                lemma_lowercase_digits(s@, a_end + 1, f_end as int);
                assert(after.drop_first().skip((f_end - a_end - 1) as int) =~= lowercased(
                    s@.skip(f_end as int),
                ));
            }
            (a > 0 || f_end > a_end + 1) && (f_end == s.len() || rest_is_exponent(
                s.as_slice(),
                f_end,
            ))
        } else {
            proof {
                let after = body.skip(a as int);
                if a_end < s.len() {
                    assert(after[0] == lower(s@[a_end as int]));
                }
            }
            a > 0 && (a_end == s.len() || rest_is_exponent(s.as_slice(), a_end))
        }
    };
    if ok {
        Ok(())
    } else {
        Err(rejection(&v, "` is not a float"))
    }
}

/// Lower casing keeps digits, signs and points.
proof fn lemma_lower_keeps(c: char)
    ensures
        is_digit(c) ==> lower(c) == c,
        lower(c) == '.' <==> c == '.',
        is_digit(lower(c)) <==> is_digit(c),
        lower(c) == '+' <==> c == '+',
        lower(c) == '-' <==> c == '-',
{
}

/// Lower casing keeps a run of digits and the character that ends it.
proof fn lemma_lowercase_digits(s: Seq<char>, i: int, j: int)
    requires
        0 <= i <= j <= s.len(),
        forall|k: int| i <= k < j ==> #[trigger] is_digit(s[k]),
        j == s.len() || !is_digit(s[j]),
    ensures
        leading_digits(lowercased(s.skip(i))) == j - i,
{
    let l = lowercased(s);
    assert forall|k: int| i <= k < j implies #[trigger] is_digit(l[k]) by {
        lemma_lower_keeps(s[k]);
    }
    if j < s.len() {
        lemma_lower_keeps(s[j]);
        assert(!is_digit(l[j]));
    }
    lemma_leading_digits(l, i, j);
    assert(lowercased(s.skip(i)) =~= l.skip(i));
}

} // verus!
