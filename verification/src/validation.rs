use vstd::prelude::*;

verus! {

/// The characters `0` to `9`.
pub open spec fn is_ascii_digit(c: char) -> bool {
    '0' <= c && c <= '9'
}

/// The number that a sequence of decimal digits writes.
pub open spec fn decimal_value(s: Seq<char>) -> int
    decreases s.len(),
{
    if s.len() == 0 {
        0
    } else {
        decimal_value(s.drop_last()) * 10 + (s.last() as int - '0' as int)
    }
}

/// The digits of a number text: without its leading `+`, if any.
pub open spec fn unsigned_digits(s: Seq<char>) -> Seq<char> {
    if s.len() > 0 && s[0] == '+' {
        s.drop_first()
    } else {
        s
    }
}

/// What parsing a text as a `u64` gives: an optional `+` and at least one
/// decimal digit, with a value that fits; nothing else is a number.
pub open spec fn spec_parse_u64(s: Seq<char>) -> Option<u64> {
    let d = unsigned_digits(s);
    if d.len() > 0 && (forall|i: int| 0 <= i < d.len() ==> is_ascii_digit(#[trigger] d[i])) && decimal_value(d) <= u64::MAX {
        Some(decimal_value(d) as u64)
    } else {
        None
    }
}

proof fn lemma_decimal_monotonic(s: Seq<char>, k: int)
    requires
        0 <= k <= s.len(),
        forall|i: int| 0 <= i < s.len() ==> is_ascii_digit(#[trigger] s[i]),
    ensures
        decimal_value(s.take(k)) <= decimal_value(s),
        decimal_value(s) >= 0,
    decreases s.len(),
{
    if s.len() > 0 {
        let t = s.drop_last();
        assert forall|i: int| 0 <= i < t.len() implies is_ascii_digit(#[trigger] t[i]) by {
            assert(t[i] == s[i]);
        }
        if k < s.len() {
            lemma_decimal_monotonic(t, k);
            assert(s.take(k) =~= t.take(k));
        } else {
            lemma_decimal_monotonic(t, 0);
            assert(s.take(k) =~= s);
        }
        assert(is_ascii_digit(s.last()));
        assert(decimal_value(t) * 10 >= decimal_value(t)) by (nonlinear_arith)
            requires
                decimal_value(t) >= 0,
        ;
    }
}

/// Parses a text as a `u64` as Rust's `str::parse` does for unsigned
/// integers: an optional `+` and decimal digits, and the value must fit.
pub fn parse_u64(text: &str) -> (r: Option<u64>)
    ensures
        r == spec_parse_u64(text@),
{
    let n = text.unicode_len();
    let mut i: usize = 0;
    if n > 0 && text.get_char(0) == '+' {
        i = 1;
    }
    let ghost d = unsigned_digits(text@);
    let ghost start = i as int;
    assert(d =~= text@.skip(start));
    assert(d.len() == n - start);
    if i == n {
        return None;
    }
    let mut value: u64 = 0;
    while i < n
        invariant
            n == text@.len(),
            start <= i <= n,
            start < n,
            d == text@.skip(start),
            d == unsigned_digits(text@),
            d.len() == n - start,
            forall|k: int| 0 <= k < d.len() ==> #[trigger] d[k] == text@[k + start],
            forall|j: int| 0 <= j < i - start ==> is_ascii_digit(#[trigger] d[j]),
            value as int == decimal_value(d.take(i - start)),
        decreases n - i,
    {
        let c = text.get_char(i);
        assert(d[i - start] == c);
        if !('0' <= c && c <= '9') {
            proof {
                assert(!is_ascii_digit(d[i - start]));
                assert(!(forall|j: int| 0 <= j < d.len() ==> is_ascii_digit(#[trigger] d[j])));
            }
            return None;
        }
        let digit: u64 = (c as u32 - '0' as u32) as u64;
        proof {
            assert(d.take(i - start + 1).drop_last() =~= d.take(i - start));
            assert(d.take(i - start + 1).last() == c);
        }
        match value.checked_mul(10) {
            Some(m) => match m.checked_add(digit) {
                Some(v) => {
                    value = v;
                },
                None => {
                    proof {
                        assert(decimal_value(d.take(i - start + 1)) > u64::MAX);
                        lemma_digits_prefix_too_big(d, i - start + 1);
                    }
                    return None;
                },
            },
            None => {
                proof {
                    assert(decimal_value(d.take(i - start + 1)) > u64::MAX);
                    lemma_digits_prefix_too_big(d, i - start + 1);
                }
                return None;
            },
        }
        i = i + 1;
    }
    assert(d.take(n - start) =~= d);
    Some(value)
}

/// Where a prefix of digits is too big, so is the whole number, or the text
/// holds something else than digits.
proof fn lemma_digits_prefix_too_big(d: Seq<char>, k: int)
    requires
        0 < k <= d.len(),
        forall|j: int| 0 <= j < k ==> is_ascii_digit(#[trigger] d[j]),
        decimal_value(d.take(k)) > u64::MAX,
    ensures
        !(d.len() > 0 && (forall|i: int| 0 <= i < d.len() ==> is_ascii_digit(#[trigger] d[i])) && decimal_value(d) <= u64::MAX),
{
    if forall|i: int| 0 <= i < d.len() ==> is_ascii_digit(#[trigger] d[i]) {
        lemma_decimal_monotonic(d, k);
    }
}

/// Whether the text in a number box is refused: it is no number, or the
/// number lies outside `min..=max`.
pub fn number_box_error(value: &str, min: u64, max: u64) -> (r: bool)
    ensures
        r == match spec_parse_u64(value@) {
            Some(v) => !(min <= v && v <= max),
            None => true,
        },
{
    match parse_u64(value) {
        Some(v) => !(min <= v && v <= max),
        None => true,
    }
}

/// Whether `pattern` is a regular expression that `regex::Regex::new`
/// accepts (a valid pattern within the default size limit).
pub uninterp spec fn regex_compiles(pattern: Seq<char>) -> bool;

/// Whether the regular expression `pattern` matches somewhere in `text`.
pub uninterp spec fn regex_is_match(pattern: Seq<char>, text: Seq<char>) -> bool;

/// Compiles `pattern` with `regex::Regex::new` and, where it compiles,
/// tells whether it matches `text` (`Regex::is_match`).
/// Trusted: the regex crate documents that `Regex::new` returns an error
/// exactly for an invalid pattern or one over the default size limit, both
/// fixed by the pattern, and that `is_match` returns whether there is a
/// match anywhere in the haystack; the contract names both results and says
/// nothing more of them.
#[verifier::external_body]
fn regex_match(pattern: &str, text: &str) -> (r: Option<bool>)
    ensures
        r is Some == regex_compiles(pattern@),
        r matches Some(m) ==> m == regex_is_match(pattern@, text@),
{
    match regex::Regex::new(pattern) {
        Ok(re) => Some(re.is_match(text)),
        Err(_) => None,
    }
}

/// Whether the text in a text box is refused: the validation pattern does
/// not match it. `None` where the pattern is no valid regular expression.
pub fn textbox_error(validation_regex: &str, value: &str) -> (r: Option<bool>)
    ensures
        r is Some == regex_compiles(validation_regex@),
        r matches Some(e) ==> e == !regex_is_match(validation_regex@, value@),
{
    match regex_match(validation_regex, value) {
        Some(m) => Some(!m),
        None => None,
    }
}

} // verus!
