//! Character and string helpers shared by the tokenizers.
use vstd::prelude::*;

verus! {

/// The Unicode White_Space property, which `char::is_whitespace` tests:
/// tab, line feed, vertical tab, form feed, carriage return, space, next
/// line, no-break space, ogham space mark, the spaces U+2000 to U+200A, line
/// and paragraph separators, narrow no-break space, medium mathematical
/// space and ideographic space.
pub open spec fn white_space(c: char) -> bool {
    let u = c as u32;
    (0x09 <= u && u <= 0x0D) || u == 0x20 || u == 0x85 || u == 0xA0 || u == 0x1680 || (0x2000 <= u
        && u <= 0x200A) || u == 0x2028 || u == 0x2029 || u == 0x202F || u == 0x205F || u == 0x3000
}

/// What `char::is_alphabetic` answers for a character.
pub uninterp spec fn alphabetic(c: char) -> bool;

/// What `char::is_alphanumeric` answers for a character.
pub uninterp spec fn alphanumeric(c: char) -> bool;

/// Relies on `String::push`: the character is appended at the end.
pub assume_specification[ std::string::String::push ](s: &mut std::string::String, ch: char)
    ensures
        final(s)@ == old(s)@.push(ch),
;

/// Relies on `str::chars`: the characters of the text, in order.
#[verifier::external_body]
pub(crate) fn chars_of(s: &str) -> (r: Vec<char>)
    ensures
        r@ == s@,
{
    s.chars().collect()
}

/// Whether a character is whitespace, as `char::is_whitespace` answers.
pub fn is_white_space(c: char) -> (r: bool)
    ensures
        r == white_space(c),
{
    let u = c as u32;
    (0x09 <= u && u <= 0x0D) || u == 0x20 || u == 0x85 || u == 0xA0 || u == 0x1680 || (0x2000 <= u
        && u <= 0x200A) || u == 0x2028 || u == 0x2029 || u == 0x202F || u == 0x205F || u == 0x3000
}

/// Relies on `char::is_alphabetic` (the Unicode Alphabetic property): of
/// the ASCII characters exactly the letters have it.
#[verifier::external_body]
pub(crate) fn is_alphabetic(c: char) -> (r: bool)
    ensures
        r == alphabetic(c),
        (c as u32) < 128 ==> (r <==> is_ascii_letter(c)),
{
    c.is_alphabetic()
}

/// Relies on `char::is_alphanumeric` (Alphabetic or Numeric): of the
/// ASCII characters exactly the letters and digits have it.
#[verifier::external_body]
pub(crate) fn is_alphanumeric(c: char) -> (r: bool)
    ensures
        r == alphanumeric(c),
        (c as u32) < 128 ==> (r <==> (is_ascii_letter(c) || is_ascii_digit(c))),
{
    c.is_alphanumeric()
}

pub open spec fn is_ascii_letter(c: char) -> bool {
    ('a' <= c && c <= 'z') || ('A' <= c && c <= 'Z')
}

pub open spec fn is_ascii_digit(c: char) -> bool {
    '0' <= c && c <= '9'
}

/// The characters `v[lo..hi]` as a string.
pub fn string_of(v: &Vec<char>, lo: usize, hi: usize) -> (r: String)
    requires
        lo <= hi <= v@.len(),
    ensures
        r@ == v@.subrange(lo as int, hi as int),
{
    let mut s = String::new();
    let mut i: usize = lo;
    while i < hi
        invariant
            lo <= i <= hi <= v@.len(),
            s@ == v@.subrange(lo as int, i as int),
        decreases hi - i,
    {
        s.push(v[i]);
        assert(v@.subrange(lo as int, i + 1) =~= v@.subrange(lo as int, i as int).push(v@[i as int]));
        i = i + 1;
    }
    s
}

/// Appends the characters of `t` to `s`.
pub fn push_text(s: &mut String, t: &str)
    ensures
        final(s)@ == old(s)@ + t@,
{
    let n = t.unicode_len();
    let mut i: usize = 0;
    while i < n
        invariant
            n == t@.len(),
            i <= n,
            s@ == old(s)@ + t@.subrange(0, i as int),
        decreases n - i,
    {
        let c = t.get_char(i);
        s.push(c);
        assert(t@.subrange(0, i + 1) =~= t@.subrange(0, i as int).push(c));
        assert(s@ =~= old(s)@ + t@.subrange(0, i + 1));
        i = i + 1;
    }
    assert(t@.subrange(0, n as int) =~= t@);
}

/// Whether two texts hold the same characters.
pub fn same_text(a: &str, b: &str) -> (r: bool)
    ensures
        r == (a@ == b@),
{
    let n = a.unicode_len();
    if n != b.unicode_len() {
        return false;
    }
    let mut i: usize = 0;
    while i < n
        invariant
            n == a@.len() == b@.len(),
            i <= n,
            forall|k: int| 0 <= k < i ==> a@[k] == b@[k],
        decreases n - i,
    {
        if a.get_char(i) != b.get_char(i) {
            return false;
        }
        i = i + 1;
    }
    assert(a@ =~= b@);
    true
}

} // verus!
