use vstd::prelude::*;

verus! {

/// Whether `char::is_lowercase` holds of `c` (the Unicode `Lowercase` property).
pub uninterp spec fn lowercase_char(c: char) -> bool;

/// Whether `char::is_uppercase` holds of `c` (the Unicode `Uppercase` property).
pub uninterp spec fn uppercase_char(c: char) -> bool;

/// Relies on `char::is_lowercase`, a function of the character alone.
#[verifier::external_body]
fn is_lowercase(c: char) -> (r: bool)
    ensures
        r == lowercase_char(c),
{
    c.is_lowercase()
}

/// Relies on `char::is_uppercase`, a function of the character alone.
#[verifier::external_body]
fn is_uppercase(c: char) -> (r: bool)
    ensures
        r == uppercase_char(c),
{
    c.is_uppercase()
}

/// Relies on `String::push`: the character is appended.
#[verifier::external_body]
fn push_char(s: &mut String, c: char)
    ensures
        final(s)@ == old(s)@.push(c),
{
    s.push(c)
}

/// `c` with `a`..`z` mapped to `A`..`Z`.
pub open spec fn ascii_upper(c: char) -> char {
    if 'a' <= c <= 'z' {
        choose|r: char| #[trigger] (r as u32) == c as u32 - 32
    } else {
        c
    }
}

/// `c` with `A`..`Z` mapped to `a`..`z`.
pub open spec fn ascii_lower(c: char) -> char {
    if 'A' <= c <= 'Z' {
        choose|r: char| #[trigger] (r as u32) == c as u32 + 32
    } else {
        c
    }
}

fn to_ascii_upper(c: char) -> (r: char)
    ensures
        r == ascii_upper(c),
{
    if 'a' <= c && c <= 'z' {
        let b: u8 = (c as u32 - 32) as u8;
        let r = b as char;
        assert(r as u32 == c as u32 - 32);
        r
    } else {
        c
    }
}

fn to_ascii_lower(c: char) -> (r: char)
    ensures
        r == ascii_lower(c),
{
    if 'A' <= c && c <= 'Z' {
        let b: u8 = (c as u32 + 32) as u8;
        let r = b as char;
        assert(r as u32 == c as u32 + 32);
        r
    } else {
        c
    }
}

/// Which characters of `s` are lower case.
pub open spec fn lower_flags(s: Seq<char>) -> Seq<bool> {
    Seq::new(s.len(), |i: int| lowercase_char(s[i]))
}

/// Which characters of `s` are upper case.
pub open spec fn upper_flags(s: Seq<char>) -> Seq<bool> {
    Seq::new(s.len(), |i: int| uppercase_char(s[i]))
}

/// The converted text of `s[..n]`, where `lower[i]` tells whether `s[i]` is lower case: its
/// first character upper-cased when it is lower case, and each later character upper-cased
/// when it is lower case and follows a `_`.
pub open spec fn camel_upto(s: Seq<char>, lower: Seq<bool>, n: int) -> Seq<char>
    decreases n,
{
    if n <= 0 || n > s.len() {
        Seq::empty()
    } else if n == 1 {
        seq![if lower[0] { ascii_upper(s[0]) } else { s[0] }]
    } else {
        let p = s[n - 2];
        let c = s[n - 1];
        camel_upto(s, lower, n - 1).push(if p == '_' && lower[n - 1] { ascii_upper(c) } else { c })
    }
}

/// The text of `s[..n]` in snake case, where `lower[i]` and `upper[i]` tell whether `s[i]` is
/// lower or upper case: its first character lower-cased unless it is lower case, and a `_`
/// before each upper-case character that follows a lower-case one, which is lower-cased.
pub open spec fn snake_upto(s: Seq<char>, lower: Seq<bool>, upper: Seq<bool>, n: int) -> Seq<char>
    decreases n,
{
    if n <= 0 || n > s.len() {
        Seq::empty()
    } else if n == 1 {
        seq![if lower[0] { s[0] } else { ascii_lower(s[0]) }]
    } else {
        let c = s[n - 1];
        if lower[n - 2] && upper[n - 1] {
            snake_upto(s, lower, upper, n - 1) + seq!['_', ascii_lower(c)]
        } else {
            snake_upto(s, lower, upper, n - 1).push(c)
        }
    }
}

fn case_flags(s: &str) -> (r: (Vec<bool>, Vec<bool>))
    ensures
        r.0@ == lower_flags(s@),
        r.1@ == upper_flags(s@),
{
    let n = s.unicode_len();
    let mut lower: Vec<bool> = Vec::new();
    let mut upper: Vec<bool> = Vec::new();
    let mut i: usize = 0;
    while i < n
        invariant
            n == s@.len(),
            i <= n,
            lower@ == lower_flags(s@).subrange(0, i as int),
            upper@ == upper_flags(s@).subrange(0, i as int),
        decreases n - i,
    {
        let c = s.get_char(i);
        lower.push(is_lowercase(c));
        upper.push(is_uppercase(c));
        i = i + 1;
        assert(lower@ =~= lower_flags(s@).subrange(0, i as int));
        assert(upper@ =~= upper_flags(s@).subrange(0, i as int));
    }
    assert(lower@ =~= lower_flags(s@));
    assert(upper@ =~= upper_flags(s@));
    (lower, upper)
}

/// `s` converted as [`camel_upto`] says, with `lower[i]` telling whether `s[i]` is lower case.
pub fn camel_case_with(s: &str, lower: &Vec<bool>) -> (r: String)
    requires
        lower@.len() == s@.len(),
    ensures
        r@ == camel_upto(s@, lower@, s@.len() as int),
{
    let n = s.unicode_len();
    let mut r = String::new();
    if n == 0 {
        return r;
    }
    let mut previous = s.get_char(0);
    if lower[0] {
        push_char(&mut r, to_ascii_upper(previous));
    } else {
        push_char(&mut r, previous);
    }
    assert(r@ =~= camel_upto(s@, lower@, 1));
    let mut i: usize = 1;
    while i < n
        invariant
            n == s@.len(),
            n == lower@.len(),
            1 <= i <= n,
            previous == s@[i - 1],
            r@ == camel_upto(s@, lower@, i as int),
        decreases n - i,
    {
        let current = s.get_char(i);
        if previous == '_' && lower[i] {
            push_char(&mut r, to_ascii_upper(current));
        } else {
            push_char(&mut r, current);
        }
        previous = current;
        i = i + 1;
    }
    r
}

/// `s` in snake case as [`snake_upto`] says, with `lower[i]` and `upper[i]` telling whether
/// `s[i]` is lower or upper case.
pub fn snake_case_with(s: &str, lower: &Vec<bool>, upper: &Vec<bool>) -> (r: String)
    requires
        lower@.len() == s@.len(),
        upper@.len() == s@.len(),
    ensures
        r@ == snake_upto(s@, lower@, upper@, s@.len() as int),
{
    let n = s.unicode_len();
    let mut r = String::new();
    if n == 0 {
        return r;
    }
    let first = s.get_char(0);
    if lower[0] {
        push_char(&mut r, first);
    } else {
        push_char(&mut r, to_ascii_lower(first));
    }
    assert(r@ =~= snake_upto(s@, lower@, upper@, 1));
    let mut i: usize = 1;
    while i < n
        invariant
            n == s@.len(),
            n == lower@.len(),
            n == upper@.len(),
            1 <= i <= n,
            r@ == snake_upto(s@, lower@, upper@, i as int),
        decreases n - i,
    {
        let current = s.get_char(i);
        if lower[i - 1] && upper[i] {
            push_char(&mut r, '_');
            push_char(&mut r, to_ascii_lower(current));
            assert(r@ =~= snake_upto(s@, lower@, upper@, i + 1));
        } else {
            push_char(&mut r, current);
        }
        i = i + 1;
    }
    r
}

/// `s` with its first character upper-cased when it is lower case, and each lower-case
/// character that follows a `_` upper-cased; the `_` are kept.
pub fn to_camel_case(s: &str) -> (r: String)
    ensures
        r@ == camel_upto(s@, lower_flags(s@), s@.len() as int),
{
    let (lower, _) = case_flags(s);
    camel_case_with(s, &lower)
}

/// `s` in snake case: its first character lower-cased, and a `_` inserted before each
/// upper-case character that follows a lower-case one, which is lower-cased.
pub fn to_snake_case(s: &str) -> (r: String)
    ensures
        r@ == snake_upto(s@, lower_flags(s@), upper_flags(s@), s@.len() as int),
{
    let (lower, upper) = case_flags(s);
    snake_case_with(s, &lower, &upper)
}

} // verus!
