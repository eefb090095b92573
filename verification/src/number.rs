use vstd::prelude::*;
use vstd::string::*;
use vstd::arithmetic::power2::{pow2, lemma_pow2_strictly_increases};
use crate::text::{
    is_digit_char, is_digits, dec_digits_value,
    is_hex_digits, hex_digits_value,
    contains_char, is_first_index_of, first_index_of, lemma_first_index_of,
    find_char, parse_dec_u64, parse_hex_u64,
    u64_to_dec_string, u64_to_hex_string,
};

verus! {

// ---------------------------------------------------------------------------
// Mathematical models of the literals
// ---------------------------------------------------------------------------

/// Model of a decimal literal: the mantissa text exactly as written, and an
/// optional exponent with the case of its `e`/`E` marker.
pub ghost struct DecimalModel {
    pub mantissa: Seq<char>,
    pub exponent: Option<(int, bool)>,
}

/// Model of a hexadecimal literal: the mantissa value, an optional
/// non-negative exponent with the case of its `p`/`P` marker, and the case of
/// the `0x`/`0X` prefix.
pub ghost struct HexModel {
    pub mantissa: nat,
    pub exponent: Option<(nat, bool)>,
    pub is_x_uppercase: bool,
}

pub ghost enum NumberModel {
    Decimal(DecimalModel),
    Hex(HexModel),
}

// ---------------------------------------------------------------------------
// The literal grammar, at the specification level
// ---------------------------------------------------------------------------

/// `0x` or `0X` at the start of the text selects the hexadecimal grammar.
pub open spec fn is_hex_prefixed(s: Seq<char>) -> bool {
    s.len() >= 2 && s[0] == '0' && (s[1] == 'x' || s[1] == 'X')
}

/// A decimal mantissa: digits and at most one dot, with at least one digit.
pub open spec fn is_valid_mantissa(s: Seq<char>) -> bool {
    &&& forall|i: int| 0 <= i < s.len() ==> (is_digit_char(#[trigger] s[i]) || s[i] == '.')
    &&& exists|i: int| 0 <= i < s.len() && is_digit_char(s[i])
    &&& forall|i: int, j: int| 0 <= i < j < s.len() ==> !(s[i] == '.' && s[j] == '.')
}

/// Digits with an optional leading sign.
pub open spec fn is_signed_digits(s: Seq<char>) -> bool {
    if s.len() > 0 && (s[0] == '-' || s[0] == '+') {
        is_digits(s.skip(1))
    } else {
        is_digits(s)
    }
}

/// The signed value of an optionally signed digit string.
pub open spec fn signed_digits_value(s: Seq<char>) -> int {
    if s.len() > 0 && s[0] == '-' {
        -(dec_digits_value(s.skip(1)) as int)
    } else if s.len() > 0 && s[0] == '+' {
        dec_digits_value(s.skip(1)) as int
    } else {
        dec_digits_value(s) as int
    }
}

/// A decimal exponent: optionally signed digits whose value fits in `i64`.
pub open spec fn is_valid_decimal_exponent(s: Seq<char>) -> bool {
    &&& is_signed_digits(s)
    &&& i64::MIN <= signed_digits_value(s) <= i64::MAX
}

/// A hexadecimal mantissa: hex digits whose value fits in `u64`.
pub open spec fn is_valid_hex_mantissa(s: Seq<char>) -> bool {
    is_hex_digits(s) && hex_digits_value(s) <= u64::MAX
}

/// A hexadecimal exponent: plain digits (no sign) whose value fits in `u32`.
pub open spec fn is_valid_hex_exponent(s: Seq<char>) -> bool {
    is_digits(s) && dec_digits_value(s) <= u32::MAX
}

// ---------------------------------------------------------------------------
// Errors
// ---------------------------------------------------------------------------

#[derive(Debug, Clone, PartialEq, Eq)]
pub enum NumberParsingError {
    InvalidHexadecimalNumber,
    InvalidHexadecimalExponent,
    InvalidDecimalNumber,
    InvalidDecimalExponent,
}

impl NumberParsingError {
    /// A human-readable description of the error.
    pub fn message(&self) -> (r: &'static str)
        ensures
            self is InvalidHexadecimalNumber ==> r@ == "could not parse hexadecimal number"@,
            self is InvalidHexadecimalExponent ==> r@ == "could not parse hexadecimal exponent"@,
            self is InvalidDecimalNumber ==> r@ == "could not parse decimal number"@,
            self is InvalidDecimalExponent ==> r@ == "could not parse decimal exponent"@,
    {
        match self {
            NumberParsingError::InvalidHexadecimalNumber => "could not parse hexadecimal number",
            NumberParsingError::InvalidHexadecimalExponent => "could not parse hexadecimal exponent",
            NumberParsingError::InvalidDecimalNumber => "could not parse decimal number",
            NumberParsingError::InvalidDecimalExponent => "could not parse decimal exponent",
        }
    }
}

// ---------------------------------------------------------------------------
// The specification-level parser
// ---------------------------------------------------------------------------

/// Where the decimal exponent marker sits: the first `e`, else the first `E`.
pub open spec fn spec_decimal_marker(s: Seq<char>) -> Option<(int, bool)> {
    if contains_char(s, 'e') {
        Some((first_index_of(s, 'e'), false))
    } else if contains_char(s, 'E') {
        Some((first_index_of(s, 'E'), true))
    } else {
        None
    }
}

pub open spec fn spec_parse_decimal(s: Seq<char>) -> Result<DecimalModel, NumberParsingError> {
    match spec_decimal_marker(s) {
        Some((i, upper)) => {
            let mant = s.take(i);
            let ex = s.skip(i + 1);
            if !is_valid_mantissa(mant) {
                Err(NumberParsingError::InvalidDecimalNumber)
            } else if !is_valid_decimal_exponent(ex) {
                Err(NumberParsingError::InvalidDecimalExponent)
            } else {
                Ok(DecimalModel {
                    mantissa: mant,
                    exponent: Some((signed_digits_value(ex), upper)),
                })
            }
        },
        None => {
            if !is_valid_mantissa(s) {
                Err(NumberParsingError::InvalidDecimalNumber)
            } else {
                Ok(DecimalModel { mantissa: s, exponent: None })
            }
        },
    }
}

/// Where the hexadecimal exponent marker sits in the text after the prefix:
/// the first `p`, else the first `P`.
pub open spec fn spec_hex_marker(body: Seq<char>) -> Option<(int, bool)> {
    if contains_char(body, 'p') {
        Some((first_index_of(body, 'p'), false))
    } else if contains_char(body, 'P') {
        Some((first_index_of(body, 'P'), true))
    } else {
        None
    }
}

pub open spec fn spec_parse_hex(s: Seq<char>) -> Result<HexModel, NumberParsingError> {
    let xu = s[1] == 'X';
    let body = s.skip(2);
    match spec_hex_marker(body) {
        Some((i, upper)) => {
            let num = body.take(i);
            let ex = body.skip(i + 1);
            if !is_valid_hex_mantissa(num) {
                Err(NumberParsingError::InvalidHexadecimalNumber)
            } else if !is_valid_hex_exponent(ex) {
                Err(NumberParsingError::InvalidHexadecimalExponent)
            } else {
                Ok(HexModel {
                    mantissa: hex_digits_value(num),
                    exponent: Some((dec_digits_value(ex), upper)),
                    is_x_uppercase: xu,
                })
            }
        },
        None => {
            if !is_valid_hex_mantissa(body) {
                Err(NumberParsingError::InvalidHexadecimalNumber)
            } else {
                Ok(HexModel {
                    mantissa: hex_digits_value(body),
                    exponent: None,
                    is_x_uppercase: xu,
                })
            }
        },
    }
}

/// What parsing a literal text yields: the exact model of the literal, or the
/// error that the text maps to.
pub open spec fn spec_parse(s: Seq<char>) -> Result<NumberModel, NumberParsingError> {
    if is_hex_prefixed(s) {
        match spec_parse_hex(s) {
            Ok(h) => Ok(NumberModel::Hex(h)),
            Err(e) => Err(e),
        }
    } else {
        match spec_parse_decimal(s) {
            Ok(d) => Ok(NumberModel::Decimal(d)),
            Err(e) => Err(e),
        }
    }
}

/// A hexadecimal literal whose exponent part starts with a sign is rejected
/// as an invalid hexadecimal exponent, however well-formed the digits after
/// the sign may be: the hexadecimal grammar has no signed exponents.
pub proof fn lemma_hex_signed_exponent_rejected(s: Seq<char>, i: int, upper: bool)
    requires
        is_hex_prefixed(s),
        spec_hex_marker(s.skip(2)) == Some((i, upper)),
        is_valid_hex_mantissa(s.skip(2).take(i)),
        0 <= i,
        i + 1 < s.skip(2).len(),
        s.skip(2)[i + 1] == '-' || s.skip(2)[i + 1] == '+',
    ensures
        spec_parse(s) == Err::<NumberModel, NumberParsingError>(
            NumberParsingError::InvalidHexadecimalExponent,
        ),
{
    let ex = s.skip(2).skip(i + 1);
    assert(ex[0] == s.skip(2)[i + 1]);
    assert(!is_digit_char(ex[0]));
    assert(!is_digits(ex));
}

// ---------------------------------------------------------------------------
// Character-class facts used to place the markers
// ---------------------------------------------------------------------------

/// Mantissa characters are digits or a dot, so no marker letter is among them.
proof fn lemma_mantissa_chars(m: Seq<char>)
    requires
        is_valid_mantissa(m),
    ensures
        m.len() >= 1,
        forall|j: int| 0 <= j < m.len() ==> #[trigger] m[j] != 'e' && m[j] != 'E'
            && m[j] != 'x' && m[j] != 'X',
{
    assert(m.len() >= 1);
    assert forall|j: int| 0 <= j < m.len() implies #[trigger] m[j] != 'e' && m[j] != 'E'
        && m[j] != 'x' && m[j] != 'X' by {
        if is_digit_char(m[j]) {
            assert(48 <= m[j] as u32 <= 57);
        } else {
            assert(m[j] == '.');
        }
    }
}

/// Decimal digits are no marker, sign, or dot characters.
proof fn lemma_digit_chars(s: Seq<char>)
    requires
        is_digits(s),
    ensures
        forall|j: int| 0 <= j < s.len() ==> #[trigger] s[j] != 'e' && s[j] != 'E'
            && s[j] != 'p' && s[j] != 'P' && s[j] != '-' && s[j] != '+',
{
    assert forall|j: int| 0 <= j < s.len() implies #[trigger] s[j] != 'e' && s[j] != 'E'
        && s[j] != 'p' && s[j] != 'P' && s[j] != '-' && s[j] != '+' by {
        assert(is_digit_char(s[j]));
        assert(48 <= s[j] as u32 <= 57);
    }
}

/// Hexadecimal digits never contain an exponent marker.
proof fn lemma_hex_digit_chars(s: Seq<char>)
    requires
        is_hex_digits(s),
    ensures
        forall|j: int| 0 <= j < s.len() ==> #[trigger] s[j] != 'p' && s[j] != 'P',
{
    assert forall|j: int| 0 <= j < s.len() implies #[trigger] s[j] != 'p' && s[j] != 'P' by {
        assert(crate::text::is_hex_digit_char(s[j]));
    }
}

// ---------------------------------------------------------------------------
// Executable validators for the grammar pieces
// ---------------------------------------------------------------------------

/// Check the decimal mantissa grammar: digits and at most one dot, with at
/// least one digit.
#[verifier::loop_isolation(false)]
fn check_mantissa(s: &str) -> (b: bool)
    ensures
        b == is_valid_mantissa(s@),
{
    let n = s.unicode_len();
    let mut digit_seen = false;
    let mut dot_seen = false;
    let mut i: usize = 0;
    while i < n
        invariant
            0 <= i <= n,
            forall|k: int| 0 <= k < i ==> (is_digit_char(#[trigger] s@[k]) || s@[k] == '.'),
            digit_seen == (exists|k: int| 0 <= k < i && is_digit_char(#[trigger] s@[k])),
            dot_seen == (exists|k: int| 0 <= k < i && #[trigger] s@[k] == '.'),
            forall|k1: int, k2: int| 0 <= k1 < k2 < i ==> !(s@[k1] == '.' && s@[k2] == '.'),
        decreases n - i,
    {
        let c = s.get_char(i);
        let cv = c as u32;
        if 48 <= cv && cv <= 57 {
            digit_seen = true;
            proof {
                assert(is_digit_char(s@[i as int]));
            }
        } else if c == '.' {
            if dot_seen {
                proof {
                    let k = choose|k: int| 0 <= k < i && #[trigger] s@[k] == '.';
                    assert(s@[k] == '.' && s@[i as int] == '.');
                    assert(0 <= k < i as int);
                    assert((i as int) < s@.len());
                }
                return false;
            }
            dot_seen = true;
        } else {
            proof {
                assert(!(is_digit_char(s@[i as int]) || s@[i as int] == '.'));
            }
            return false;
        }
        i += 1;
    }
    digit_seen
}

/// Parse an optionally signed decimal exponent whose value fits in `i64`.
fn parse_signed_exponent(s: &str) -> (r: Option<i64>)
    ensures
        (match r {
            Some(v) => is_valid_decimal_exponent(s@) && v as int == signed_digits_value(s@),
            None => !is_valid_decimal_exponent(s@),
        }),
{
    let n = s.unicode_len();
    if n == 0 {
        return None;
    }
    let c0 = s.get_char(0);
    if c0 == '-' {
        let rest = s.substring_char(1, n);
        proof {
            assert(rest@ =~= s@.skip(1));
        }
        match parse_dec_u64(rest) {
            None => None,
            Some(mag) => {
                if mag <= 9223372036854775807u64 {
                    Some(-(mag as i64))
                } else if mag == 9223372036854775808u64 {
                    Some(i64::MIN)
                } else {
                    None
                }
            },
        }
    } else if c0 == '+' {
        let rest = s.substring_char(1, n);
        proof {
            assert(rest@ =~= s@.skip(1));
        }
        match parse_dec_u64(rest) {
            None => None,
            Some(mag) => {
                if mag <= 9223372036854775807u64 {
                    Some(mag as i64)
                } else {
                    None
                }
            },
        }
    } else {
        match parse_dec_u64(s) {
            None => None,
            Some(mag) => {
                if mag <= 9223372036854775807u64 {
                    Some(mag as i64)
                } else {
                    None
                }
            },
        }
    }
}

// ---------------------------------------------------------------------------
// Decimal literals
// ---------------------------------------------------------------------------

/// A decimal numeric literal. The mantissa is kept as the exact text between
/// the start of the literal and the exponent marker, so that every
/// source-visible detail survives a round trip.
#[derive(Debug, Clone, PartialEq, Eq)]
pub struct DecimalNumber {
    mantissa: String,
    exponent: Option<(i64, bool)>,
}

impl View for DecimalNumber {
    type V = DecimalModel;

    closed spec fn view(&self) -> DecimalModel {
        DecimalModel {
            mantissa: self.mantissa@,
            exponent: match self.exponent {
                Some((e, u)) => Some((e as int, u)),
                None => None,
            },
        }
    }
}

impl DecimalNumber {
    /// The mantissa text is a well-formed decimal mantissa.
    pub open spec fn wf(&self) -> bool {
        is_valid_mantissa(self@.mantissa)
    }

    pub fn new(mantissa: &str) -> (r: Self)
        requires
            is_valid_mantissa(mantissa@),
        ensures
            r@.mantissa == mantissa@,
            r@.exponent is None,
            r.wf(),
    {
        DecimalNumber { mantissa: mantissa.to_owned(), exponent: None }
    }

    pub fn with_exponent(self, exponent: i64, is_uppercase: bool) -> (r: Self)
        ensures
            r@.mantissa == self@.mantissa,
            r@.exponent == Some((exponent as int, is_uppercase)),
            r.wf() == self.wf(),
    {
        DecimalNumber { mantissa: self.mantissa, exponent: Some((exponent, is_uppercase)) }
    }

    /// Set the case of the exponent marker. A literal without an exponent has
    /// no marker, so this is a no-op on it.
    pub fn set_uppercase(&mut self, is_uppercase: bool)
        ensures
            final(self)@.mantissa == old(self)@.mantissa,
            final(self)@.exponent == match old(self)@.exponent {
                Some((e, _)) => Some((e, is_uppercase)),
                None => None::<(int, bool)>,
            },
            old(self)@.exponent is None ==> final(self)@ == old(self)@,
            final(self).wf() == old(self).wf(),
    {
        match self.exponent {
            Some((e, _)) => {
                self.exponent = Some((e, is_uppercase));
            },
            None => {},
        }
    }

    /// The mantissa text exactly as it appears in the literal.
    pub fn get_raw_mantissa(&self) -> (r: &str)
        ensures
            r@ == self@.mantissa,
    {
        self.mantissa.as_str()
    }

    pub fn is_uppercase(&self) -> (r: Option<bool>)
        ensures
            r == match self@.exponent {
                Some((_, u)) => Some(u),
                None => None::<bool>,
            },
    {
        match self.exponent {
            Some((_, u)) => Some(u),
            None => None,
        }
    }

    pub fn get_exponent(&self) -> (r: Option<i64>)
        ensures
            (match self@.exponent {
                Some((ev, _)) => r matches Some(e) && e as int == ev,
                None => r is None,
            }),
    {
        match self.exponent {
            Some((e, _)) => Some(e),
            None => None,
        }
    }

    /// Render the literal back to text. Parsing the result yields this very
    /// literal again: the round trip through text loses nothing.
    pub fn to_literal(&self) -> (r: String)
        requires
            self.wf(),
        ensures
            spec_parse(r@) == Ok::<NumberModel, NumberParsingError>(NumberModel::Decimal(self@)),
    {
        let ghost m = self@.mantissa;
        let mut out = self.mantissa.clone();
        proof {
            lemma_mantissa_chars(m);
            reveal_strlit("e");
            reveal_strlit("E");
            reveal_strlit("-");
        }
        match self.exponent {
            None => {
                proof {
                    assert(!contains_char(out@, 'e'));
                    assert(!contains_char(out@, 'E'));
                    assert(!is_hex_prefixed(out@));
                    assert(spec_decimal_marker(out@) is None);
                }
                out
            },
            Some((e, u)) => {
                let ghost ml = m.len() as int;
                if u {
                    out.append("E");
                } else {
                    out.append("e");
                }
                let ghost mid = out@;
                let ds: String;
                let mut neg = false;
                if e < 0 {
                    out.append("-");
                    neg = true;
                    let mag: u64 = if e == i64::MIN {
                        9223372036854775808u64
                    } else {
                        (-e) as u64
                    };
                    ds = u64_to_dec_string(mag);
                    out.append(ds.as_str());
                } else {
                    ds = u64_to_dec_string(e as u64);
                    out.append(ds.as_str());
                }
                proof {
                    lemma_digit_chars(ds@);
                    let sfx = out@.skip(ml + 1);
                    if neg {
                        assert(out@ =~= m + mid.skip(ml) + "-"@ + ds@);
                        assert(sfx =~= "-"@ + ds@);
                        assert(sfx[0] == '-');
                        assert(sfx.skip(1) =~= ds@);
                        assert(is_signed_digits(sfx));
                        assert(signed_digits_value(sfx) == e as int);
                    } else {
                        assert(out@ =~= m + mid.skip(ml) + ds@);
                        assert(sfx =~= ds@);
                        assert(sfx[0] != '-' && sfx[0] != '+');
                        assert(is_signed_digits(sfx));
                        assert(signed_digits_value(sfx) == e as int);
                    }
                    assert(is_valid_decimal_exponent(sfx));
                    if u {
                        assert(out@[ml] == 'E');
                        assert forall|j: int| 0 <= j < out@.len() implies out@[j] != 'e' by {
                            if j < ml {
                                assert(out@[j] == m[j]);
                            } else if j > ml {
                                assert(out@[j] == sfx[j - ml - 1]);
                            }
                        }
                        assert(!contains_char(out@, 'e'));
                        assert(is_first_index_of(out@, 'E', ml));
                        lemma_first_index_of(out@, 'E', ml);
                    } else {
                        assert(out@[ml] == 'e');
                        assert(is_first_index_of(out@, 'e', ml));
                        lemma_first_index_of(out@, 'e', ml);
                    }
                    assert(spec_decimal_marker(out@) == Some((ml, u)));
                    assert(out@.take(ml) =~= m);
                    assert(!is_hex_prefixed(out@)) by {
                        if out@.len() >= 2 {
                            if ml >= 2 {
                                assert(out@[1] == m[1]);
                            } else {
                                assert(out@[1] == mid.skip(ml)[0]);
                            }
                        }
                    }
                    assert(spec_parse(out@) == Ok::<NumberModel, NumberParsingError>(
                        NumberModel::Decimal(self@),
                    ));
                }
                out
            },
        }
    }
}

// ---------------------------------------------------------------------------
// Hexadecimal literals
// ---------------------------------------------------------------------------

/// A hexadecimal numeric literal: mantissa value, optional `p`/`P` exponent
/// (never negative: the grammar has no sign there) and the case of `0x`/`0X`.
#[derive(Debug, Clone, PartialEq, Eq)]
pub struct HexNumber {
    integer: u64,
    exponent: Option<(u32, bool)>,
    is_x_uppercase: bool,
}

impl View for HexNumber {
    type V = HexModel;

    closed spec fn view(&self) -> HexModel {
        HexModel {
            mantissa: self.integer as nat,
            exponent: match self.exponent {
                Some((e, u)) => Some((e as nat, u)),
                None => None,
            },
            is_x_uppercase: self.is_x_uppercase,
        }
    }
}

impl HexNumber {
    pub fn new(integer: u64, is_x_uppercase: bool) -> (r: Self)
        ensures
            r@.mantissa == integer as nat,
            r@.exponent is None,
            r@.is_x_uppercase == is_x_uppercase,
    {
        HexNumber { integer, exponent: None, is_x_uppercase }
    }

    pub fn with_exponent(self, exponent: u32, is_uppercase: bool) -> (r: Self)
        ensures
            r@.mantissa == self@.mantissa,
            r@.exponent == Some((exponent as nat, is_uppercase)),
            r@.is_x_uppercase == self@.is_x_uppercase,
    {
        HexNumber { integer: self.integer, exponent: Some((exponent, is_uppercase)), is_x_uppercase: self.is_x_uppercase }
    }

    /// Set the case of the `0x` marker and, when an exponent is present, of
    /// its `p` marker too. The `0x` marker always exists, so its case always
    /// changes; this is the deliberate asymmetry with decimal literals.
    pub fn set_uppercase(&mut self, is_uppercase: bool)
        ensures
            final(self)@.mantissa == old(self)@.mantissa,
            final(self)@.is_x_uppercase == is_uppercase,
            final(self)@.exponent == match old(self)@.exponent {
                Some((e, _)) => Some((e, is_uppercase)),
                None => None::<(nat, bool)>,
            },
    {
        match self.exponent {
            Some((e, _)) => {
                self.exponent = Some((e, is_uppercase));
            },
            None => {},
        }
        self.is_x_uppercase = is_uppercase;
    }

    pub fn is_x_uppercase(&self) -> (r: bool)
        ensures
            r == self@.is_x_uppercase,
    {
        self.is_x_uppercase
    }

    pub fn is_exponent_uppercase(&self) -> (r: Option<bool>)
        ensures
            r == match self@.exponent {
                Some((_, u)) => Some(u),
                None => None::<bool>,
            },
    {
        match self.exponent {
            Some((_, u)) => Some(u),
            None => None,
        }
    }

    pub fn get_raw_integer(&self) -> (r: u64)
        ensures
            r as nat == self@.mantissa,
    {
        self.integer
    }

    pub fn get_exponent(&self) -> (r: Option<u32>)
        ensures
            (match self@.exponent {
                Some((ev, _)) => r matches Some(e) && e as nat == ev,
                None => r is None,
            }),
    {
        match self.exponent {
            Some((e, _)) => Some(e),
            None => None,
        }
    }

    /// Render the literal back to text, with lowercase hexadecimal digits.
    /// Parsing the result yields this very literal again.
    pub fn to_literal(&self) -> (r: String)
        ensures
            spec_parse(r@) == Ok::<NumberModel, NumberParsingError>(NumberModel::Hex(self@)),
    {
        let mut out = if self.is_x_uppercase {
            String::from_str("0X")
        } else {
            String::from_str("0x")
        };
        proof {
            reveal_strlit("0x");
            reveal_strlit("0X");
            reveal_strlit("p");
            reveal_strlit("P");
        }
        let ghost pre = out@;
        let hs = u64_to_hex_string(self.integer);
        out.append(hs.as_str());
        proof {
            lemma_hex_digit_chars(hs@);
            assert(is_hex_prefixed(out@));
            assert((out@[1] == 'X') == self@.is_x_uppercase);
        }
        match self.exponent {
            None => {
                proof {
                    let body = out@.skip(2);
                    assert(body =~= hs@);
                    assert(!contains_char(body, 'p'));
                    assert(!contains_char(body, 'P'));
                    assert(spec_hex_marker(body) is None);
                    assert(spec_parse(out@) == Ok::<NumberModel, NumberParsingError>(
                        NumberModel::Hex(self@),
                    ));
                }
                out
            },
            Some((e, u)) => {
                let ghost hl = hs@.len() as int;
                if u {
                    out.append("P");
                } else {
                    out.append("p");
                }
                let ghost mid = out@;
                let ds = u64_to_dec_string(e as u64);
                out.append(ds.as_str());
                proof {
                    lemma_digit_chars(ds@);
                    let body = out@.skip(2);
                    assert(out@ =~= pre + hs@ + mid.skip(2 + hl) + ds@);
                    assert(body =~= hs@ + mid.skip(2 + hl) + ds@);
                    assert(body.take(hl) =~= hs@);
                    assert(body.skip(hl + 1) =~= ds@);
                    if u {
                        assert(body[hl] == 'P');
                        assert forall|j: int| 0 <= j < body.len() implies body[j] != 'p' by {
                            if j < hl {
                                assert(body[j] == hs@[j]);
                            } else if j > hl {
                                assert(body[j] == ds@[j - hl - 1]);
                            }
                        }
                        assert(!contains_char(body, 'p'));
                        assert(is_first_index_of(body, 'P', hl));
                        lemma_first_index_of(body, 'P', hl);
                    } else {
                        assert(body[hl] == 'p');
                        assert(is_first_index_of(body, 'p', hl));
                        lemma_first_index_of(body, 'p', hl);
                    }
                    assert(spec_hex_marker(body) == Some((hl, u)));
                    assert(is_valid_hex_mantissa(body.take(hl)));
                    assert(is_valid_hex_exponent(body.skip(hl + 1)));
                    assert(spec_parse(out@) == Ok::<NumberModel, NumberParsingError>(
                        NumberModel::Hex(self@),
                    ));
                }
                out
            },
        }
    }

    /// The numeric value of the literal as a mathematical integer:
    /// `mantissa * 2^exponent`, or the mantissa alone without an exponent.
    pub open spec fn spec_numeric_value(&self) -> nat {
        match self@.exponent {
            Some((e, _)) => self@.mantissa * pow2(e),
            None => self@.mantissa,
        }
    }

    /// The literal's value computed along the integer path: the mantissa is
    /// scaled by `2^exponent` in 64-bit integer arithmetic. Returns nothing
    /// exactly when the product does not fit in 64 bits; the caller chooses
    /// what to do about such an overflow.
    #[verifier::loop_isolation(false)]
    pub fn compute_integer_value(&self) -> (r: Option<u64>)
        ensures
            r matches Some(v) ==> v as nat == self.spec_numeric_value(),
            r is Some <==> self.spec_numeric_value() <= u64::MAX,
    {
        match self.exponent {
            None => Some(self.integer),
            Some((e, _)) => {
                if self.integer == 0 {
                    proof {
                        assert(self@.mantissa * pow2(e as nat) == 0) by (nonlinear_arith)
                            requires self@.mantissa == 0;
                    }
                    Some(0)
                } else if e >= 64 {
                    proof {
                        vstd::arithmetic::power2::lemma2_to64_rest();
                        if e > 64 {
                            lemma_pow2_strictly_increases(64, e as nat);
                        }
                        assert(pow2(e as nat) > u64::MAX);
                        assert(self@.mantissa * pow2(e as nat) >= pow2(e as nat)) by (nonlinear_arith)
                            requires self@.mantissa >= 1, pow2(e as nat) >= 0;
                    }
                    None
                } else {
                    let mut p: u64 = 1;
                    let mut j: u32 = 0;
                    proof {
                        vstd::arithmetic::power2::lemma2_to64();
                    }
                    while j < e
                        invariant
                            0 <= j <= e,
                            e < 64,
                            p as nat == pow2(j as nat),
                            self.integer >= 1,
                            self@.mantissa == self.integer as nat,
                        decreases e - j,
                    {
                        let next = match p.checked_mul(2) {
                            Some(t) => t,
                            None => {
                                proof {
                                    assert(pow2(j as nat + 1) == 2 * pow2(j as nat)) by {
                                        vstd::arithmetic::power2::lemma_pow2_unfold(j as nat + 1);
                                    };
                                    assert(pow2(j as nat + 1) > u64::MAX);
                                    if (j as nat + 1) < e as nat {
                                        lemma_pow2_strictly_increases(j as nat + 1, e as nat);
                                    }
                                    assert(pow2(e as nat) > u64::MAX);
                                    assert(self@.mantissa * pow2(e as nat) > u64::MAX) by (nonlinear_arith)
                                        requires self@.mantissa >= 1, pow2(e as nat) > u64::MAX;
                                }
                                return None;
                            },
                        };
                        p = next;
                        j += 1;
                        proof {
                            vstd::arithmetic::power2::lemma_pow2_unfold(j as nat);
                        }
                    }
                    match self.integer.checked_mul(p) {
                        Some(v) => Some(v),
                        None => {
                            proof {
                                assert(self@.mantissa * pow2(e as nat) > u64::MAX);
                            }
                            None
                        },
                    }
                }
            },
        }
    }
}

// ---------------------------------------------------------------------------
// The unified literal
// ---------------------------------------------------------------------------

/// A numeric literal: exactly one of decimal or hexadecimal.
#[derive(Debug, Clone, PartialEq, Eq)]
pub enum NumberExpression {
    Decimal(DecimalNumber),
    Hex(HexNumber),
}

impl View for NumberExpression {
    type V = NumberModel;

    closed spec fn view(&self) -> NumberModel {
        match self {
            NumberExpression::Decimal(d) => NumberModel::Decimal(d@),
            NumberExpression::Hex(h) => NumberModel::Hex(h@),
        }
    }
}

impl NumberExpression {
    pub open spec fn wf(&self) -> bool {
        match self {
            NumberExpression::Decimal(d) => d.wf(),
            NumberExpression::Hex(_) => true,
        }
    }

    /// Set the case of every exponent or base marker the literal has.
    pub fn set_uppercase(&mut self, is_uppercase: bool)
        ensures
            match (old(self)@, final(self)@) {
                (NumberModel::Decimal(o), NumberModel::Decimal(n)) => {
                    &&& n.mantissa == o.mantissa
                    &&& n.exponent == match o.exponent {
                        Some((e, _)) => Some((e, is_uppercase)),
                        None => None::<(int, bool)>,
                    }
                },
                (NumberModel::Hex(o), NumberModel::Hex(n)) => {
                    &&& n.mantissa == o.mantissa
                    &&& n.is_x_uppercase == is_uppercase
                    &&& n.exponent == match o.exponent {
                        Some((e, _)) => Some((e, is_uppercase)),
                        None => None::<(nat, bool)>,
                    }
                },
                _ => false,
            },
            final(self).wf() == old(self).wf(),
    {
        match self {
            NumberExpression::Decimal(number) => number.set_uppercase(is_uppercase),
            NumberExpression::Hex(number) => number.set_uppercase(is_uppercase),
        }
    }
}

impl NumberExpression {
    /// Render the literal back to text.
    /// Together with the contract of `from_str` this is the round trip: any
    /// parsed literal, re-rendered and parsed again, comes back unchanged.
    pub fn to_literal(&self) -> (r: String)
        requires
            self.wf(),
        ensures
            spec_parse(r@) == Ok::<NumberModel, NumberParsingError>(self@),
    {
        match self {
            NumberExpression::Decimal(d) => d.to_literal(),
            NumberExpression::Hex(h) => h.to_literal(),
        }
    }

    /// Parse a numeric literal. The result is exactly what the grammar gives
    /// for this text: the literal's model on success, and the error kind that
    /// the offending part maps to otherwise.
    pub fn from_str(text: &str) -> (r: Result<NumberExpression, NumberParsingError>)
        ensures
            (match r {
                Ok(n) => spec_parse(text@) == Ok::<NumberModel, NumberParsingError>(n@)
                    && n.wf(),
                Err(e) => spec_parse(text@) == Err::<NumberModel, NumberParsingError>(e),
            }),
    {
        let n = text.unicode_len();
        let mut is_hex = false;
        let mut xu = false;
        if n >= 2 {
            let c0 = text.get_char(0);
            let c1 = text.get_char(1);
            if c0 == '0' && (c1 == 'x' || c1 == 'X') {
                is_hex = true;
                xu = c1 == 'X';
            }
        }
        proof {
            assert(is_hex == is_hex_prefixed(text@));
        }
        if is_hex {
            let body = text.substring_char(2, n);
            proof {
                assert(body@ =~= text@.skip(2));
            }
            let blen = body.unicode_len();
            let marker: Option<(usize, bool)> = match find_char(body, 'p') {
                Some(i) => {
                    proof {
                        lemma_first_index_of(body@, 'p', i as int);
                    }
                    Some((i, false))
                },
                None => match find_char(body, 'P') {
                    Some(i) => {
                        proof {
                            lemma_first_index_of(body@, 'P', i as int);
                        }
                        Some((i, true))
                    },
                    None => None,
                },
            };
            proof {
                assert(spec_hex_marker(body@) == match marker {
                    Some((i, u)) => Some((i as int, u)),
                    None => None::<(int, bool)>,
                });
            }
            match marker {
                Some((i, upper)) => {
                    let num = body.substring_char(0, i);
                    let ex = body.substring_char(i + 1, blen);
                    proof {
                        assert(num@ =~= body@.take(i as int));
                        assert(ex@ =~= body@.skip(i as int + 1));
                    }
                    match parse_hex_u64(num) {
                        None => Err(NumberParsingError::InvalidHexadecimalNumber),
                        Some(m) => match parse_dec_u64(ex) {
                            None => Err(NumberParsingError::InvalidHexadecimalExponent),
                            Some(v) => {
                                if v > 0xFFFF_FFFFu64 {
                                    Err(NumberParsingError::InvalidHexadecimalExponent)
                                } else {
                                    Ok(NumberExpression::Hex(
                                        HexNumber::new(m, xu).with_exponent(v as u32, upper),
                                    ))
                                }
                            },
                        },
                    }
                },
                None => match parse_hex_u64(body) {
                    None => Err(NumberParsingError::InvalidHexadecimalNumber),
                    Some(m) => Ok(NumberExpression::Hex(HexNumber::new(m, xu))),
                },
            }
        } else {
            let marker: Option<(usize, bool)> = match find_char(text, 'e') {
                Some(i) => {
                    proof {
                        lemma_first_index_of(text@, 'e', i as int);
                    }
                    Some((i, false))
                },
                None => match find_char(text, 'E') {
                    Some(i) => {
                        proof {
                            lemma_first_index_of(text@, 'E', i as int);
                        }
                        Some((i, true))
                    },
                    None => None,
                },
            };
            proof {
                assert(spec_decimal_marker(text@) == match marker {
                    Some((i, u)) => Some((i as int, u)),
                    None => None::<(int, bool)>,
                });
            }
            match marker {
                Some((i, upper)) => {
                    let mant = text.substring_char(0, i);
                    let ex = text.substring_char(i + 1, n);
                    proof {
                        assert(mant@ =~= text@.take(i as int));
                        assert(ex@ =~= text@.skip(i as int + 1));
                    }
                    if !check_mantissa(mant) {
                        Err(NumberParsingError::InvalidDecimalNumber)
                    } else {
                        match parse_signed_exponent(ex) {
                            None => Err(NumberParsingError::InvalidDecimalExponent),
                            Some(v) => Ok(NumberExpression::Decimal(
                                DecimalNumber::new(mant).with_exponent(v, upper),
                            )),
                        }
                    }
                },
                None => {
                    if !check_mantissa(text) {
                        Err(NumberParsingError::InvalidDecimalNumber)
                    } else {
                        Ok(NumberExpression::Decimal(DecimalNumber::new(text)))
                    }
                },
            }
        }
    }
}

impl From<DecimalNumber> for NumberExpression {
    fn from(number: DecimalNumber) -> (r: Self) {
        NumberExpression::Decimal(number)
    }
}

impl vstd::std_specs::convert::FromSpecImpl<DecimalNumber> for NumberExpression {
    open spec fn obeys_from_spec() -> bool {
        true
    }

    open spec fn from_spec(number: DecimalNumber) -> Self {
        NumberExpression::Decimal(number)
    }
}

impl From<HexNumber> for NumberExpression {
    fn from(number: HexNumber) -> (r: Self) {
        NumberExpression::Hex(number)
    }
}

impl vstd::std_specs::convert::FromSpecImpl<HexNumber> for NumberExpression {
    open spec fn obeys_from_spec() -> bool {
        true
    }

    open spec fn from_spec(number: HexNumber) -> Self {
        NumberExpression::Hex(number)
    }
}

} // verus!
