use vstd::prelude::*;

verus! {

/// True for the characters that a slug replaces by a hyphen.
pub open spec fn is_slug_separator(c: char) -> bool {
    c == '!' || c == '?' || c == ',' || c == '.' || c == ';' || c == ' '
}

/// ASCII lowercase of a character; every other character is kept.
pub open spec fn ascii_lower(c: char) -> char {
    if 'A' <= c && c <= 'Z' {
        ((c as u32) + 32) as char
    } else {
        c
    }
}

/// The character that `slugify` writes for `c`.
pub open spec fn slug_char(c: char) -> char {
    if is_slug_separator(c) {
        '-'
    } else {
        ascii_lower(c)
    }
}

/// The slug of a text: separators become hyphens, ASCII letters lowercase.
pub open spec fn spec_slugify(text: Seq<char>) -> Seq<char> {
    text.map_values(|c: char| slug_char(c))
}

/// Appends one character to a string (std's `String::push`).
/// Trusted: the documentation of `String::push` says that it appends the
/// given char to the end of the string, which is what the contract states.
#[verifier::external_body]
fn string_push(s: &mut String, c: char)
    ensures
        final(s)@ == old(s)@.push(c),
{
    s.push(c);
}

fn lower_ascii(c: char) -> (r: char)
    ensures
        r == ascii_lower(c),
{
    if 'A' <= c && c <= 'Z' {
        let code: u32 = c as u32;
        let lowered: u8 = (code + 32) as u8;
        assert(lowered as u32 == code + 32);
        lowered as char
    } else {
        c
    }
}

/// Turns a text into an identifier usable in the DOM: each of `! ? , . ;`
/// and the space becomes `-`, and ASCII capitals become lowercase.
pub fn slugify(text: &str) -> (res: String)
    ensures
        res@ == spec_slugify(text@),
{
    let n = text.unicode_len();
    let mut res = String::new();
    let mut i: usize = 0;
    while i < n
        invariant
            n == text@.len(),
            i <= n,
            res@ == spec_slugify(text@.take(i as int)),
        decreases n - i,
    {
        let c = text.get_char(i);
        let s = if c == '!' || c == '?' || c == ',' || c == '.' || c == ';' || c == ' ' {
            '-'
        } else {
            lower_ascii(c)
        };
        string_push(&mut res, s);
        assert(text@.take(i + 1) =~= text@.take(i as int).push(c));
        assert(spec_slugify(text@.take(i + 1)) =~= spec_slugify(text@.take(i as int)).push(s));
        i = i + 1;
    }
    assert(text@.take(n as int) =~= text@);
    res
}

/// Character-wise equality of two string slices.
pub fn str_eq(a: &str, b: &str) -> (r: bool)
    ensures
        r == (a@ == b@),
{
    let n = a.unicode_len();
    let m = b.unicode_len();
    if n != m {
        return false;
    }
    let mut i: usize = 0;
    while i < n
        invariant
            n == a@.len(),
            m == b@.len(),
            n == m,
            i <= n,
            forall|j: int| 0 <= j < i ==> a@[j] == b@[j],
        decreases n - i,
    {
        if a.get_char(i) != b.get_char(i) {
            return false;
        }
        i = i + 1;
    }
    assert(a@ =~= b@);
    true
}

} // verus!
