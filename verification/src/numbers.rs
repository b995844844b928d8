//! Numbers in the fields of table source files: which characters of a
//! field count, and the number they write.

use vstd::prelude::*;

verus! {

// Whether a character is alphanumeric, as `char::is_alphanumeric` tells.
pub uninterp spec fn alphanumeric(c: char) -> bool;

/// Whether a character is white space: one of the code points with the
/// Unicode property `White_Space`.
pub open spec fn whitespace(c: char) -> bool {
    let u = c as u32;
    ||| 0x09 <= u <= 0x0D
    ||| u == 0x20
    ||| u == 0x85
    ||| u == 0xA0
    ||| u == 0x1680
    ||| 0x2000 <= u <= 0x200A
    ||| u == 0x2028
    ||| u == 0x2029
    ||| u == 0x202F
    ||| u == 0x205F
    ||| u == 0x3000
}

/// `char::is_alphanumeric` of std.
#[verifier::external_body]
pub(crate) fn is_alphanumeric(c: char) -> (r: bool)
    ensures
        r == alphanumeric(c),
{
    c.is_alphanumeric()
}

/// Whether a character is white space.
pub fn is_whitespace(c: char) -> (r: bool)
    ensures
        r == whitespace(c),
{
    let u = c as u32;
    (0x09 <= u && u <= 0x0D) || u == 0x20 || u == 0x85 || u == 0xA0 || u == 0x1680 || (0x2000 <= u
        && u <= 0x200A) || u == 0x2028 || u == 0x2029 || u == 0x202F || u == 0x205F || u == 0x3000
}

/// The characters of a numeric field that are kept: letters and digits,
/// and `-`, `.`, `+`, `_` and `/`.
pub open spec fn numeric_char(c: char) -> bool {
    alphanumeric(c) || c == '-' || c == '.' || c == '+' || c == 'e' || c == 'E' || c == '_' || c
        == '/'
}

/// The first `n` characters of a text without those that a filter drops.
pub open spec fn kept(text: Seq<char>, numeric: bool, n: int) -> Seq<char>
    decreases n,
{
    if n <= 0 {
        Seq::empty()
    } else {
        let before = kept(text, numeric, n - 1);
        let c = text[n - 1];
        if (numeric && numeric_char(c)) || (!numeric && alphanumeric(c)) {
            before.push(c)
        } else {
            before
        }
    }
}

/// A text without the characters that do not count: with `numeric` the
/// characters of a numeric field are kept, without it letters and digits
/// alone.
pub open spec fn cleaned(text: Seq<char>, numeric: bool) -> Seq<char> {
    kept(text, numeric, text.len() as int)
}

/// Whether a text is made of white space alone.
pub open spec fn blank(text: Seq<char>) -> bool {
    forall|i: int| 0 <= i < text.len() ==> whitespace(#[trigger] text[i])
}

/// The value of a decimal digit.
pub open spec fn digit_of(c: char) -> Option<int> {
    if '0' <= c && c <= '9' {
        Some(c as int - 48)
    } else {
        None
    }
}

/// Whether every character is a decimal digit.
pub open spec fn digits_only(s: Seq<char>) -> bool {
    forall|i: int| 0 <= i < s.len() ==> digit_of(#[trigger] s[i]) is Some
}

/// The number that decimal digits write.
pub open spec fn value_of_digits(s: Seq<char>) -> int
    decreases s.len(),
{
    if s.len() == 0 {
        0
    } else {
        10 * value_of_digits(s.drop_last()) + digit_of(s.last())->0
    }
}

/// The number that a text writes, read as `str::parse` reads an integer
/// between `min` and `max`: an optional sign, a minus sign only where the
/// range has negative numbers, then at least one decimal digit and nothing
/// else; `None` for any other text and for a number outside the range.
pub open spec fn parsed_int(s: Seq<char>, min: int, max: int) -> Option<int> {
    let signed = s.len() > 0 && (s[0] == '+' || (s[0] == '-' && min < 0));
    let digits = if signed {
        s.skip(1)
    } else {
        s
    };
    let value = if s.len() > 0 && s[0] == '-' {
        -value_of_digits(digits)
    } else {
        value_of_digits(digits)
    };
    if digits.len() == 0 || !digits_only(digits) || value < min || value > max {
        None
    } else {
        Some(value)
    }
}

proof fn lemma_value_grows(s: Seq<char>, i: int)
    requires
        digits_only(s),
        0 <= i <= s.len(),
    ensures
        0 <= value_of_digits(s.take(i)) <= value_of_digits(s),
    decreases s.len() - i,
{
    if i < s.len() {
        lemma_value_grows(s, i + 1);
        let longer = s.take(i + 1);
        assert(longer.drop_last() =~= s.take(i));
        assert(longer.last() == s[i]);
        lemma_value_not_negative(s.take(i));
    } else {
        assert(s.take(i) =~= s);
        lemma_value_not_negative(s);
    }
}

proof fn lemma_value_not_negative(s: Seq<char>)
    requires
        digits_only(s),
    ensures
        0 <= value_of_digits(s),
    decreases s.len(),
{
    if s.len() > 0 {
        assert(digits_only(s.drop_last())) by {
            assert forall|i: int| 0 <= i < s.drop_last().len() implies digit_of(
                #[trigger] s.drop_last()[i],
            ) is Some by {
                assert(s.drop_last()[i] == s[i]);
            }
        }
        lemma_value_not_negative(s.drop_last());
    }
}

/// Reads an integer between `min` and `max` from characters.
pub fn parse_int(chars: &Vec<char>, min: i64, max: i64) -> (r: Option<i64>)
    ensures
        match r {
            Some(v) => parsed_int(chars@, min as int, max as int) == Some(v as int),
            None => parsed_int(chars@, min as int, max as int) is None,
        },
{
    let n = chars.len();
    if n == 0 {
        return None;
    }
    let first = chars[0];
    let negative = first == '-';
    let start: usize = if first == '+' || (negative && min < 0) {
        1
    } else {
        0
    };
    let ghost digits = chars@.skip(start as int);
    assert(chars@.skip(0) =~= chars@);
    if start == n {
        return None;
    }
    // The magnitude, as far as it can lie within 64 bits.
    let mut acc: i128 = 0;
    let mut i: usize = start;
    assert(digits.take(0) =~= Seq::<char>::empty());
    while i < n
        invariant
            start <= i <= n,
            n == chars@.len(),
            digits == chars@.skip(start as int),
            chars@.skip(0) == chars@,
            acc == value_of_digits(digits.take(i - start)),
            0 <= acc <= 0x8000_0000_0000_0000,
            digits_only(digits.take(i - start)),
            negative == (chars@[0] == '-'),
            start == (if chars@[0] == '+' || (chars@[0] == '-' && min < 0) {
                1int
            } else {
                0int
            }),
        decreases n - i,
    {
        let c = chars[i];
        if !('0' <= c && c <= '9') {
            assert(digits[i - start] == c);
            return None;
        }
        proof {
            let longer = digits.take(i - start + 1);
            assert(longer.drop_last() =~= digits.take(i - start));
            assert(longer.last() == c);
        }
        acc = acc * 10 + (c as i128 - 48);
        assert(acc == value_of_digits(digits.take(i - start + 1)));
        assert(digits_only(digits.take(i - start + 1))) by {
            assert forall|k: int| 0 <= k < i - start + 1 implies digit_of(
                #[trigger] digits.take(i - start + 1)[k],
            ) is Some by {
                if k < i - start {
                    assert(digits.take(i - start)[k] == digits.take(i - start + 1)[k]);
                }
            }
        }
        if acc > 0x8000_0000_0000_0000 {
            proof {
                if digits_only(digits) {
                    lemma_value_grows(digits, i - start + 1);
                    assert(value_of_digits(digits) > 0x8000_0000_0000_0000);
                }
                assert(parsed_int(chars@, min as int, max as int) is None);
            }
            return None;
        }
        i += 1;
    }
    assert(digits.take(n - start) =~= digits);
    assert(digits[0] == chars@[start as int]);
    assert(digit_of(digits[0]) is Some);
    assert(digits_only(digits));
    assert(acc == value_of_digits(digits));
    assert(negative ==> start == 1);
    let value: i128 = if negative {
        -acc
    } else {
        acc
    };
    if value < min as i128 || value > max as i128 {
        None
    } else {
        Some(value as i64)
    }
}

/// The characters of a text that count.
pub fn clean(text: &str, numeric: bool) -> (r: Vec<char>)
    ensures
        r@ == cleaned(text@, numeric),
{
    let n = text.unicode_len();
    let mut out: Vec<char> = Vec::new();
    let mut i: usize = 0;
    while i < n
        invariant
            i <= n,
            n == text@.len(),
            out@ == kept(text@, numeric, i as int),
        decreases n - i,
    {
        let c = text.get_char(i);
        let keep = if numeric {
            is_alphanumeric(c) || c == '-' || c == '.' || c == '+' || c == 'e' || c == 'E' || c
                == '_' || c == '/'
        } else {
            is_alphanumeric(c)
        };
        if keep {
            out.push(c);
        }
        i += 1;
    }
    out
}

/// Whether a text is made of white space alone.
pub fn is_blank(text: &str) -> (r: bool)
    ensures
        r == blank(text@),
{
    let n = text.unicode_len();
    let mut i: usize = 0;
    while i < n
        invariant
            i <= n,
            n == text@.len(),
            forall|k: int| 0 <= k < i ==> whitespace(#[trigger] text@[k]),
        decreases n - i,
    {
        if !is_whitespace(text.get_char(i)) {
            return false;
        }
        i += 1;
    }
    true
}

} // verus!
