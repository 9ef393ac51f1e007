//! Character-level helpers shared by the parser and the answer checker.
use vstd::prelude::*;

verus! {

/// Whether `c` has the Unicode White_Space property, which is what
/// `char::is_whitespace` tests.
pub open spec fn is_white_space(c: char) -> bool {
    let u = c as u32;
    (0x9 <= u && u <= 0xD) || u == 0x20 || u == 0x85 || u == 0xA0 || u == 0x1680 || (0x2000 <= u
        && u <= 0x200A) || u == 0x2028 || u == 0x2029 || u == 0x202F || u == 0x205F || u == 0x3000
}

/// The text without its leading white space.
pub open spec fn trim_start_of(s: Seq<char>) -> Seq<char>
    decreases s.len(),
{
    if s.len() > 0 && is_white_space(s[0]) {
        trim_start_of(s.skip(1))
    } else {
        s
    }
}

/// The text without its trailing white space.
pub open spec fn trim_end_of(s: Seq<char>) -> Seq<char>
    decreases s.len(),
{
    if s.len() > 0 && is_white_space(s.last()) {
        trim_end_of(s.drop_last())
    } else {
        s
    }
}

/// The text without leading and trailing white space.
pub open spec fn trim_of(s: Seq<char>) -> Seq<char> {
    trim_end_of(trim_start_of(s))
}

/// Relies on `str::trim`, which removes the leading and trailing characters
/// for which `char::is_whitespace` holds.
#[verifier::external_body]
pub(crate) fn trim_str(s: &str) -> (r: &str)
    ensures
        r@ == trim_of(s@),
{
    s.trim()
}

/// Relies on `str::chars` collected into a `Vec`: the characters of `s`, in order.
#[verifier::external_body]
pub(crate) fn chars_of(s: &str) -> (r: Vec<char>)
    ensures
        r@ == s@,
{
    s.chars().collect()
}

/// Relies on `String: FromIterator<char>`: a string of exactly these characters.
#[verifier::external_body]
pub(crate) fn string_of(v: &[char]) -> (r: String)
    ensures
        r@ == v@,
{
    v.iter().collect()
}

pub open spec fn is_ascii_upper(c: char) -> bool {
    'A' <= c && c <= 'Z'
}

/// Two characters agree once ASCII upper-case letters are lowered.
pub open spec fn char_eq_ignore_ascii_case(a: char, b: char) -> bool {
    a == b || (is_ascii_upper(a) && a as u32 + 32 == b as u32) || (is_ascii_upper(b) && b as u32
        + 32 == a as u32)
}

/// Two texts agree once ASCII upper-case letters are lowered.
pub open spec fn eq_ignore_ascii_case(a: Seq<char>, b: Seq<char>) -> bool {
    a.len() == b.len() && forall|i: int|
        0 <= i < a.len() ==> #[trigger] char_eq_ignore_ascii_case(a[i], b[i])
}

/// Two texts are the same answer: equal after trimming, ignoring ASCII case.
pub open spec fn same_text(a: Seq<char>, b: Seq<char>) -> bool {
    eq_ignore_ascii_case(trim_of(a), trim_of(b))
}

fn char_matches(a: char, b: char) -> (r: bool)
    ensures
        r == char_eq_ignore_ascii_case(a, b),
{
    if a == b {
        return true;
    }
    let x = a as u32;
    let y = b as u32;
    if 'A' <= a && a <= 'Z' && x + 32 == y {
        return true;
    }
    'A' <= b && b <= 'Z' && y + 32 == x
}

/// Compares two character sequences, ignoring ASCII case.
pub fn chars_eq_ignore_ascii_case(a: &[char], b: &[char]) -> (r: bool)
    ensures
        r == eq_ignore_ascii_case(a@, b@),
{
    if a.len() != b.len() {
        return false;
    }
    let mut i: usize = 0;
    while i < a.len()
        invariant
            a.len() == b.len(),
            i <= a.len(),
            forall|j: int| 0 <= j < i ==> #[trigger] char_eq_ignore_ascii_case(a@[j], b@[j]),
        decreases a.len() - i,
    {
        if !char_matches(a[i], b[i]) {
            return false;
        }
        i += 1;
    }
    true
}

/// Whether two texts name the same answer: equal once surrounding white space
/// is trimmed, ignoring ASCII case.
pub fn same_answer_text(a: &str, b: &str) -> (r: bool)
    ensures
        r == same_text(a@, b@),
{
    let x = chars_of(trim_str(a));
    let y = chars_of(trim_str(b));
    chars_eq_ignore_ascii_case(x.as_slice(), y.as_slice())
}

} // verus!
