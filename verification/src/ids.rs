//! Memory ids as text: an id is written as its decimal numeral, and only
//! that numeral reads back as the id.

use vstd::prelude::*;
use vstd::string::*;

verus! {

/// The character of a decimal digit.
pub open spec fn digit_char(d: int) -> char {
    ((48 + d) as u8) as char
}

/// Whether the character is a decimal digit.
pub open spec fn is_digit(c: char) -> bool {
    48 <= c as u32 <= 57
}

/// The value of a decimal digit.
pub open spec fn digit_value(c: char) -> int {
    (c as u32) as int - 48
}

/// The decimal numeral of `n`.
pub open spec fn decimal(n: nat) -> Seq<char>
    decreases n,
{
    if n < 10 {
        seq![digit_char(n as int)]
    } else {
        decimal(n / 10).push(digit_char((n % 10) as int))
    }
}

/// The number that a sequence of digits denotes.
pub open spec fn value_of(s: Seq<char>) -> nat
    decreases s.len(),
{
    if s.len() == 0 {
        0
    } else {
        (value_of(s.drop_last()) * 10 + digit_value(s.last())) as nat
    }
}

/// `s` is a numeral: digits only, at least one, and no leading zero unless
/// it is the numeral of zero.
pub open spec fn is_numeral(s: Seq<char>) -> bool {
    &&& s.len() > 0
    &&& forall|i: int| 0 <= i < s.len() ==> is_digit(#[trigger] s[i])
    &&& (s.len() > 1 ==> s[0] != '0')
}

/// What a text reads as: the id whose numeral it is, if it is one.
pub open spec fn parsed(s: Seq<char>) -> Option<u64> {
    if is_numeral(s) && value_of(s) <= u64::MAX {
        Some(value_of(s) as u64)
    } else {
        None
    }
}

/// The character of a digit is a digit with that value.
proof fn lemma_digit(d: int)
    requires
        0 <= d < 10,
    ensures
        is_digit(digit_char(d)),
        digit_value(digit_char(d)) == d,
        (digit_char(d) == '0') == (d == 0),
{
    assert(((48 + d) as u8) as int == 48 + d);
    assert((((48 + d) as u8) as char) as u32 == (48 + d) as u32);
    assert('0' as u32 == 48);
}

/// A digit is the character of its value.
proof fn lemma_digit_back(c: char)
    requires
        is_digit(c),
    ensures
        0 <= digit_value(c) < 10,
        digit_char(digit_value(c)) == c,
{
    let d = digit_value(c);
    assert(((48 + d) as u8) as int == c as u32);
    assert((((48 + d) as u8) as char) as u32 == c as u32);
}

/// The numeral of a number is a numeral and denotes that number.
pub proof fn lemma_decimal(n: nat)
    ensures
        is_numeral(decimal(n)),
        value_of(decimal(n)) == n,
        (decimal(n)[0] == '0') == (n == 0),
    decreases n,
{
    if n < 10 {
        lemma_digit(n as int);
        let s = decimal(n);
        assert(s.len() == 1);
        assert(s.drop_last() =~= Seq::<char>::empty());
        assert(value_of(s.drop_last()) == 0);
    } else {
        lemma_decimal(n / 10);
        lemma_digit((n % 10) as int);
        let head = decimal(n / 10);
        let s = decimal(n);
        assert(s.drop_last() =~= head);
        assert(s.last() == digit_char((n % 10) as int));
        assert(s[0] == head[0]);
        assert forall|i: int| 0 <= i < s.len() implies is_digit(#[trigger] s[i]) by {
            if i < head.len() {
                assert(s[i] == head[i]);
            }
        }
    }
}

/// A numeral is the numeral of the number it denotes.
pub proof fn lemma_numeral(s: Seq<char>)
    requires
        is_numeral(s),
    ensures
        decimal(value_of(s)) == s,
    decreases s.len(),
{
    let last = s.last();
    lemma_digit_back(last);
    let head = s.drop_last();
    if s.len() == 1 {
        assert(head =~= Seq::<char>::empty());
        assert(value_of(head) == 0);
        assert(value_of(s) == digit_value(last));
        assert(decimal(value_of(s)) =~= s);
    } else {
        assert(is_numeral(head)) by {
            assert forall|i: int| 0 <= i < head.len() implies is_digit(#[trigger] head[i]) by {
                assert(head[i] == s[i]);
            }
            assert(head[0] == s[0]);
        }
        lemma_numeral(head);
        let v = value_of(head);
        assert(v > 0) by {
            if v == 0 {
                lemma_decimal(0);
                assert(decimal(0)[0] == '0');
            }
        }
        let n = value_of(s);
        assert(n == v * 10 + digit_value(last));
        assert(n / 10 == v && n % 10 == digit_value(last));
        assert(n >= 10);
        assert(decimal(n) =~= s);
    }
}

/// A text reads as an id exactly when it is the numeral of that id.
pub proof fn law_id_text_roundtrip(s: Seq<char>, n: u64)
    ensures
        parsed(decimal(n as nat)) == Some(n),
        parsed(s) == Some(n) <==> s == decimal(n as nat),
{
    lemma_decimal(n as nat);
    if parsed(s) == Some(n) {
        lemma_numeral(s);
    }
}

/// The value of a numeral's prefix, as the value grows digit by digit.
proof fn lemma_value_push(s: Seq<char>, i: int)
    requires
        0 <= i < s.len(),
        is_digit(s[i]),
    ensures
        value_of(s.take(i + 1)) == value_of(s.take(i)) * 10 + digit_value(s[i]),
        value_of(s.take(i + 1)) >= value_of(s.take(i)),
{
    let t = s.take(i + 1);
    assert(t.drop_last() =~= s.take(i));
    assert(t.last() == s[i]);
    lemma_digit_back(s[i]);
}

/// Prefixes of a digit sequence denote no more than the whole.
proof fn lemma_value_grows(s: Seq<char>, i: int)
    requires
        0 <= i <= s.len(),
        forall|k: int| 0 <= k < s.len() ==> is_digit(#[trigger] s[k]),
    ensures
        value_of(s.take(i)) <= value_of(s),
    decreases s.len() - i,
{
    if i == s.len() {
        assert(s.take(i) =~= s);
    } else {
        lemma_value_push(s, i);
        lemma_value_grows(s, i + 1);
    }
}

/// Appends the decimal numeral of `n` to `s`.
fn push_decimal(s: &mut String, n: u64)
    ensures
        final(s)@ == old(s)@ + decimal(n as nat),
    decreases n,
{
    if n >= 10 {
        push_decimal(s, n / 10);
    }
    let d: u8 = (n % 10) as u8;
    let c: char = (48u8 + d) as char;
    assert(c == digit_char((n % 10) as int));
    s.push(c);
    proof {
        if n >= 10 {
            assert(s@ =~= old(s)@ + decimal((n / 10) as nat).push(c));
        } else {
            assert(s@ =~= old(s)@ + seq![c]);
        }
    }
}

/// The text of a memory id: its decimal numeral.
pub fn memory_id_text(id: u64) -> (s: String)
    ensures
        s@ == decimal(id as nat),
{
    let mut s = String::new();
    push_decimal(&mut s, id);
    assert(s@ =~= decimal(id as nat));
    s
}

/// Reads a memory id from its text; `None` for a text that is not the
/// numeral of an id.
pub fn parse_memory_id(s: &str) -> (r: Option<u64>)
    ensures
        r == parsed(s@),
{
    let n = s.unicode_len();
    if n == 0 {
        return None;
    }
    let mut acc: u64 = 0;
    let mut i: usize = 0;
    while i < n
        invariant
            n == s@.len(),
            n > 0,
            i <= n,
            forall|k: int| 0 <= k < i ==> is_digit(#[trigger] s@[k]),
            i > 1 ==> s@[0] != '0',
            acc == value_of(s@.take(i as int)),
        decreases n - i,
    {
        let c = s.get_char(i);
        let u: u32 = c as u32;
        if u < 48 || u > 57 {
            assert(!is_digit(s@[i as int]));
            return None;
        }
        if i == 1 && s.get_char(0) == '0' {
            return None;
        }
        let d: u64 = (u - 48) as u64;
        proof {
            lemma_value_push(s@, i as int);
        }
        if acc > (u64::MAX - d) / 10 {
            proof {
                // The value of this prefix is already too large, and the
                // whole text denotes no less, if it is a numeral at all.
                if is_numeral(s@) {
                    lemma_value_grows(s@, i + 1);
                }
            }
            return None;
        }
        acc = acc * 10 + d;
        i += 1;
    }
    proof {
        assert(s@.take(i as int) =~= s@);
        assert(s@[0] != '0' || n == 1);
    }
    Some(acc)
}

} // verus!
