//! Text normalisation for names: letters are lowercased, surrounding white
//! space is dropped and every inner run of white space becomes one space.

use vstd::prelude::*;
use vstd::string::*;

verus! {

/// The lowercase form of a text as `str::to_lowercase` computes it.
pub uninterp spec fn lowercased(s: Seq<char>) -> Seq<char>;

/// `str::to_lowercase`: the lowercase equivalent of the text, by the
/// Unicode lowercase mapping. The result depends on the text alone.
#[verifier::external_body]
fn to_lower(s: &str) -> (r: String)
    ensures
        r@ == lowercased(s@),
{
    s.to_lowercase()
}

/// `String::push`: appends the character to the end of the string.
pub assume_specification[ String::push ](s: &mut String, c: char)
    ensures
        final(s)@ == old(s)@.push(c),
;

/// Whether the character is Unicode white space.
pub open spec fn is_space(c: char) -> bool {
    let u = c as u32;
    ||| 0x09 <= u <= 0x0D
    ||| u == 0x20
    ||| u == 0x85
    ||| u == 0xA0
    ||| u == 0x1680
    ||| 0x2000 <= u <= 0x200A
    ||| u == 0x2028
    ||| u == 0x2029
    ||| u == 0x202F
    ||| u == 0x205F
    ||| u == 0x3000
}

/// Whether the character is Unicode white space.
pub fn char_is_space(c: char) -> (r: bool)
    ensures
        r == is_space(c),
{
    let u: u32 = c as u32;
    (0x09 <= u && u <= 0x0D) || u == 0x20 || u == 0x85 || u == 0xA0 || u == 0x1680 || (0x2000 <= u
        && u <= 0x200A) || u == 0x2028 || u == 0x2029 || u == 0x202F || u == 0x205F || u == 0x3000
}

/// One step of squeezing: the text written so far and whether white space
/// is pending, after the character `c` has been read.
pub open spec fn squeeze_step(st: (Seq<char>, bool), c: char) -> (Seq<char>, bool) {
    if is_space(c) {
        (st.0, st.0.len() > 0)
    } else if st.1 {
        (st.0.push(' ').push(c), false)
    } else {
        (st.0.push(c), false)
    }
}

/// The state of squeezing after the first `n` characters of `s`.
pub open spec fn squeeze_upto(s: Seq<char>, n: int) -> (Seq<char>, bool)
    decreases n,
{
    if n <= 0 {
        (Seq::empty(), false)
    } else {
        squeeze_step(squeeze_upto(s, n - 1), s[n - 1])
    }
}

/// `s` without leading and trailing white space and with one space for
/// every inner run of white space.
pub open spec fn squeeze(s: Seq<char>) -> Seq<char> {
    squeeze_upto(s, s.len() as int).0
}

/// The normal form under which names are compared.
pub open spec fn normalized(name: Seq<char>) -> Seq<char> {
    squeeze(lowercased(name))
}

/// Squeezes the white space of a text.
pub fn squeeze_spaces(s: &str) -> (r: String)
    ensures
        r@ == squeeze(s@),
{
    let n = s.unicode_len();
    let mut out = String::new();
    let mut gap = false;
    let mut started = false;
    let mut i: usize = 0;
    while i < n
        invariant
            n == s@.len(),
            i <= n,
            (out@, gap) == squeeze_upto(s@, i as int),
            started == (out@.len() > 0),
        decreases n - i,
    {
        let c = s.get_char(i);
        if char_is_space(c) {
            gap = started;
        } else {
            started = true;
            if gap {
                out.push(' ');
            }
            out.push(c);
            gap = false;
        }
        i += 1;
    }
    out
}

/// The normal form of a name.
pub fn normalize_name(name: &str) -> (r: String)
    ensures
        r@ == normalized(name@),
{
    let lower = to_lower(name);
    squeeze_spaces(lower.as_str())
}

} // verus!
