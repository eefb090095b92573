use vstd::prelude::*;
use vstd::string::*;
use vstd::arithmetic::div_mod::lemma_fundamental_div_mod;

verus! {

// ---------------------------------------------------------------------------
// Character classes
// ---------------------------------------------------------------------------

/// An ASCII decimal digit `0`..=`9`.
pub open spec fn is_digit_char(c: char) -> bool {
    48 <= (c as u32) <= 57
}

/// Numeric value of a decimal digit character.
pub open spec fn char_digit_value(c: char) -> nat {
    ((c as u32) - 48) as nat
}

/// An ASCII hexadecimal digit `0`..=`9`, `a`..=`f`, `A`..=`F`.
pub open spec fn is_hex_digit_char(c: char) -> bool {
    is_digit_char(c) || (97 <= (c as u32) <= 102) || (65 <= (c as u32) <= 70)
}

/// Numeric value of a hexadecimal digit character.
pub open spec fn char_hex_value(c: char) -> nat {
    if is_digit_char(c) {
        char_digit_value(c)
    } else if 97 <= (c as u32) <= 102 {
        ((c as u32) - 87) as nat
    } else {
        ((c as u32) - 55) as nat
    }
}

/// A non-empty run of decimal digits.
pub open spec fn is_digits(s: Seq<char>) -> bool {
    s.len() > 0 && forall|i: int| 0 <= i < s.len() ==> is_digit_char(#[trigger] s[i])
}

/// A non-empty run of hexadecimal digits.
pub open spec fn is_hex_digits(s: Seq<char>) -> bool {
    s.len() > 0 && forall|i: int| 0 <= i < s.len() ==> is_hex_digit_char(#[trigger] s[i])
}

/// The value of a digit string read in base 10, most significant digit first.
pub open spec fn dec_digits_value(s: Seq<char>) -> nat
    decreases s.len(),
{
    if s.len() == 0 {
        0
    } else {
        dec_digits_value(s.drop_last()) * 10 + char_digit_value(s.last())
    }
}

/// The value of a digit string read in base 16, most significant digit first.
pub open spec fn hex_digits_value(s: Seq<char>) -> nat
    decreases s.len(),
{
    if s.len() == 0 {
        0
    } else {
        hex_digits_value(s.drop_last()) * 16 + char_hex_value(s.last())
    }
}

// ---------------------------------------------------------------------------
// First occurrence of a character
// ---------------------------------------------------------------------------

pub open spec fn contains_char(s: Seq<char>, c: char) -> bool {
    exists|i: int| 0 <= i < s.len() && s[i] == c
}

/// `i` is the position of the first occurrence of `c` in `s`.
pub open spec fn is_first_index_of(s: Seq<char>, c: char, i: int) -> bool {
    &&& 0 <= i < s.len()
    &&& s[i] == c
    &&& forall|j: int| 0 <= j < i ==> s[j] != c
}

pub open spec fn first_index_of(s: Seq<char>, c: char) -> int {
    choose|i: int| is_first_index_of(s, c, i)
}

pub proof fn lemma_first_index_of(s: Seq<char>, c: char, i: int)
    requires
        is_first_index_of(s, c, i),
    ensures
        contains_char(s, c),
        first_index_of(s, c) == i,
{
    assert(contains_char(s, c)) by {
        assert(0 <= i < s.len() && s[i] == c);
    }
    let j = first_index_of(s, c);
    assert(is_first_index_of(s, c, j)) by {
        assert(is_first_index_of(s, c, i));
    }
    if j < i {
        assert(s[j] != c);
        assert(false);
    }
    if i < j {
        assert(s[i] != c);
        assert(false);
    }
}

/// Position of the first occurrence of `c` in `s`, if any.
pub fn find_char(s: &str, c: char) -> (r: Option<usize>)
    ensures
        match r {
            Some(i) => is_first_index_of(s@, c, i as int),
            None => !contains_char(s@, c),
        },
{
    let n = s.unicode_len();
    let mut i: usize = 0;
    while i < n
        invariant
            0 <= i <= n,
            n == s@.len(),
            forall|j: int| 0 <= j < i ==> s@[j] != c,
        decreases n - i,
    {
        if s.get_char(i) == c {
            return Some(i);
        }
        i += 1;
    }
    None
}

// ---------------------------------------------------------------------------
// Digit-string parsing
// ---------------------------------------------------------------------------

/// The value of a digit string never shrinks when more digits follow.
proof fn lemma_dec_prefix_value_le(s: Seq<char>, i: int)
    requires
        0 <= i <= s.len(),
    ensures
        dec_digits_value(s.take(i)) <= dec_digits_value(s),
    decreases s.len() - i,
{
    if i == s.len() {
        assert(s.take(i) =~= s);
    } else {
        assert(s.take(i + 1).drop_last() =~= s.take(i));
        assert(dec_digits_value(s.take(i + 1)) == dec_digits_value(s.take(i)) * 10
            + char_digit_value(s.take(i + 1).last()));
        lemma_dec_prefix_value_le(s, i + 1);
    }
}

proof fn lemma_hex_prefix_value_le(s: Seq<char>, i: int)
    requires
        0 <= i <= s.len(),
    ensures
        hex_digits_value(s.take(i)) <= hex_digits_value(s),
    decreases s.len() - i,
{
    if i == s.len() {
        assert(s.take(i) =~= s);
    } else {
        assert(s.take(i + 1).drop_last() =~= s.take(i));
        assert(hex_digits_value(s.take(i + 1)) == hex_digits_value(s.take(i)) * 16
            + char_hex_value(s.take(i + 1).last()));
        lemma_hex_prefix_value_le(s, i + 1);
    }
}

/// Numeric value of one decimal digit character.
pub fn digit_value(c: char) -> (v: u32)
    requires
        is_digit_char(c),
    ensures
        v == char_digit_value(c),
        v <= 9,
{
    proof {
        assert('0' as u32 == 48);
    }
    (c as u32) - ('0' as u32)
}

/// Parse a base-10 digit string into a `u64`.
/// Fails exactly when the text is not a non-empty digit run or the value
/// does not fit in 64 bits.
pub fn parse_dec_u64(s: &str) -> (r: Option<u64>)
    ensures
        match r {
            Some(v) => is_digits(s@) && v == dec_digits_value(s@),
            None => !is_digits(s@) || dec_digits_value(s@) > u64::MAX,
        },
{
    let n = s.unicode_len();
    if n == 0 {
        return None;
    }
    let mut acc: u64 = 0;
    let mut i: usize = 0;
    while i < n
        invariant
            0 <= i <= n,
            n == s@.len(),
            n > 0,
            forall|j: int| 0 <= j < i ==> is_digit_char(#[trigger] s@[j]),
            acc == dec_digits_value(s@.take(i as int)),
        decreases n - i,
    {
        let c = s.get_char(i);
        let cv = c as u32;
        if !(48 <= cv && cv <= 57) {
            return None;
        }
        let d = digit_value(c) as u64;
        proof {
            assert(s@.take(i + 1).drop_last() =~= s@.take(i as int));
            assert(s@.take(i + 1).last() == s@[i as int]);
        }
        acc = match acc.checked_mul(10) {
            Some(t) => match t.checked_add(d) {
                Some(t2) => t2,
                None => {
                    proof {
                        lemma_dec_prefix_value_le(s@, i + 1);
                    }
                    return None;
                },
            },
            None => {
                proof {
                    assert(dec_digits_value(s@.take(i + 1)) >= acc * 10);
                    lemma_dec_prefix_value_le(s@, i + 1);
                }
                return None;
            },
        };
        i += 1;
    }
    proof {
        assert(s@.take(n as int) =~= s@);
    }
    Some(acc)
}

/// Parse a base-16 digit string into a `u64`.
/// Fails exactly when the text is not a non-empty run of hexadecimal digits
/// or the value does not fit in 64 bits.
pub fn parse_hex_u64(s: &str) -> (r: Option<u64>)
    ensures
        match r {
            Some(v) => is_hex_digits(s@) && v == hex_digits_value(s@),
            None => !is_hex_digits(s@) || hex_digits_value(s@) > u64::MAX,
        },
{
    let n = s.unicode_len();
    if n == 0 {
        return None;
    }
    let mut acc: u64 = 0;
    let mut i: usize = 0;
    while i < n
        invariant
            0 <= i <= n,
            n == s@.len(),
            n > 0,
            forall|j: int| 0 <= j < i ==> is_hex_digit_char(#[trigger] s@[j]),
            acc == hex_digits_value(s@.take(i as int)),
        decreases n - i,
    {
        let c = s.get_char(i);
        let cv = c as u32;
        let d: u64;
        if 48 <= cv && cv <= 57 {
            d = (cv - 48) as u64;
        } else if 97 <= cv && cv <= 102 {
            d = (cv - 87) as u64;
        } else if 65 <= cv && cv <= 70 {
            d = (cv - 55) as u64;
        } else {
            return None;
        }
        proof {
            assert(s@.take(i + 1).drop_last() =~= s@.take(i as int));
            assert(s@.take(i + 1).last() == s@[i as int]);
        }
        acc = match acc.checked_mul(16) {
            Some(t) => match t.checked_add(d) {
                Some(t2) => t2,
                None => {
                    proof {
                        lemma_hex_prefix_value_le(s@, i + 1);
                    }
                    return None;
                },
            },
            None => {
                proof {
                    assert(hex_digits_value(s@.take(i + 1)) >= acc * 16);
                    lemma_hex_prefix_value_le(s@, i + 1);
                }
                return None;
            },
        };
        i += 1;
    }
    proof {
        assert(s@.take(n as int) =~= s@);
    }
    Some(acc)
}

// ---------------------------------------------------------------------------
// Digit-string rendering
// ---------------------------------------------------------------------------

/// One decimal digit as text.
pub fn digit_to_str(d: u64) -> (r: &'static str)
    requires
        d <= 9,
    ensures
        r@.len() == 1,
        is_digit_char(r@[0]),
        char_digit_value(r@[0]) == d,
{
    proof {
        reveal_strlit("0");
        reveal_strlit("1");
        reveal_strlit("2");
        reveal_strlit("3");
        reveal_strlit("4");
        reveal_strlit("5");
        reveal_strlit("6");
        reveal_strlit("7");
        reveal_strlit("8");
        reveal_strlit("9");
    }
    if d == 0 {
        "0"
    } else if d == 1 {
        "1"
    } else if d == 2 {
        "2"
    } else if d == 3 {
        "3"
    } else if d == 4 {
        "4"
    } else if d == 5 {
        "5"
    } else if d == 6 {
        "6"
    } else if d == 7 {
        "7"
    } else if d == 8 {
        "8"
    } else {
        "9"
    }
}

/// One hexadecimal digit as lowercase text.
pub fn hex_digit_to_str(d: u64) -> (r: &'static str)
    requires
        d <= 15,
    ensures
        r@.len() == 1,
        is_hex_digit_char(r@[0]),
        char_hex_value(r@[0]) == d,
{
    proof {
        reveal_strlit("a");
        reveal_strlit("b");
        reveal_strlit("c");
        reveal_strlit("d");
        reveal_strlit("e");
        reveal_strlit("f");
    }
    if d <= 9 {
        digit_to_str(d)
    } else if d == 10 {
        "a"
    } else if d == 11 {
        "b"
    } else if d == 12 {
        "c"
    } else if d == 13 {
        "d"
    } else if d == 14 {
        "e"
    } else {
        "f"
    }
}

/// Render `n` in base 10, most significant digit first.
pub fn u64_to_dec_string(n: u64) -> (r: String)
    ensures
        is_digits(r@),
        dec_digits_value(r@) == n,
    decreases n,
{
    if n <= 9 {
        let r = digit_to_str(n).to_owned();
        proof {
            assert(r@.drop_last() =~= Seq::<char>::empty());
            assert(dec_digits_value(Seq::<char>::empty()) == 0);
            assert(dec_digits_value(r@) == 0 * 10 + char_digit_value(r@.last()));
        }
        r
    } else {
        let mut s = u64_to_dec_string(n / 10);
        let d = digit_to_str(n % 10);
        let ghost pre = s@;
        s.append(d);
        proof {
            lemma_fundamental_div_mod(n as int, 10);
            assert(s@.drop_last() =~= pre);
            assert(s@.last() == d@[0]);
            assert(dec_digits_value(s@) == dec_digits_value(pre) * 10 + char_digit_value(d@[0]));
        }
        s
    }
}

/// Render `n` in base 16, lowercase, most significant digit first.
pub fn u64_to_hex_string(n: u64) -> (r: String)
    ensures
        is_hex_digits(r@),
        hex_digits_value(r@) == n,
    decreases n,
{
    if n <= 15 {
        let r = hex_digit_to_str(n).to_owned();
        proof {
            assert(r@.drop_last() =~= Seq::<char>::empty());
            assert(hex_digits_value(Seq::<char>::empty()) == 0);
            assert(hex_digits_value(r@) == 0 * 16 + char_hex_value(r@.last()));
        }
        r
    } else {
        let mut s = u64_to_hex_string(n / 16);
        let d = hex_digit_to_str(n % 16);
        let ghost pre = s@;
        s.append(d);
        proof {
            lemma_fundamental_div_mod(n as int, 16);
            assert(s@.drop_last() =~= pre);
            assert(s@.last() == d@[0]);
            assert(hex_digits_value(s@) == hex_digits_value(pre) * 16 + char_hex_value(d@[0]));
        }
        s
    }
}

} // verus!
