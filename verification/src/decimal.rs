use vstd::prelude::*;
use vstd::std_specs::iter::IteratorSpec;
use vstd::string::StringExecFns;

use crate::error::Error;

verus! {

broadcast use vstd::string::next_postcondition;

/// Greatest magnitude, counted in ten-thousandths, that a `CheckedDecimal` may
/// hold: (2^96 - 1) * 10^4, the largest four-place value the amount parser can
/// produce.
pub const UNITS_MAX: i128 = 792281625142643375935439503350000;

/// Whether a count of ten-thousandths lies in the representable range.
pub open spec fn in_range(u: int) -> bool {
    -(UNITS_MAX as int) <= u <= UNITS_MAX as int
}

/// A fixed-point decimal with exactly four fractional digits, stored as a
/// count of ten-thousandths. Arithmetic is checked: it reports overflow or
/// underflow instead of wrapping, saturating or panicking.
#[derive(Clone, Copy, Debug)]
pub struct CheckedDecimal {
    units: i128,
}

impl PartialEq for CheckedDecimal {
    fn eq(&self, other: &CheckedDecimal) -> (r: bool) {
        self.units == other.units
    }
}

impl vstd::std_specs::cmp::PartialEqSpecImpl for CheckedDecimal {
    open spec fn obeys_eq_spec() -> bool {
        true
    }

    open spec fn eq_spec(&self, other: &CheckedDecimal) -> bool {
        self@ == other@
    }
}

impl View for CheckedDecimal {
    type V = int;

    closed spec fn view(&self) -> int {
        self.units as int
    }
}

/// The mantissa and scale that rust_decimal reads out of a piece of amount
/// text once it is rounded to four fractional places, or `None` when the text
/// is not a decimal number.
pub uninterp spec fn decimal_mantissa_scale(s: Seq<char>) -> Option<(i128, u32)>;

/// The value of a piece of amount text in ten-thousandths, or `None` when the
/// text is not a decimal number.
pub open spec fn parsed_units(s: Seq<char>) -> Option<int> {
    match decimal_mantissa_scale(s) {
        Some(p) => Some(p.0 * pow10((4 - p.1) as nat)),
        None => None,
    }
}

/// Ten to the `k`.
pub open spec fn pow10(k: nat) -> int
    decreases k,
{
    if k == 0 {
        1
    } else {
        10 * pow10((k - 1) as nat)
    }
}

/// Relies on rust_decimal: `Decimal::from_str_exact`, then `round_dp(4)`, read
/// back through `mantissa` and `scale`. The outcome depends on the text alone;
/// the mantissa magnitude stays below 2^96 and, after rounding to four places,
/// the scale is at most 4. A failure carries the parser's report as text.
#[verifier::external_body]
fn parse_mantissa_scale(chars: &Vec<char>) -> (r: Result<(i128, u32), String>)
    ensures
        r matches Ok(p) ==> decimal_mantissa_scale(chars@) == Some(p)
            && -79228162514264337593543950336 < p.0 < 79228162514264337593543950336 && p.1 <= 4,
        r is Err ==> decimal_mantissa_scale(chars@) is None,
{
    let text: String = chars.iter().collect();
    match rust_decimal::Decimal::from_str_exact(&text) {
        Ok(d) => {
            let rounded = d.round_dp(4);
            Ok((rounded.mantissa(), rounded.scale()))
        },
        Err(e) => Err(format!("{e}")),
    }
}

/// The characters of a piece of text, in order.
pub fn str_chars(s: &str) -> (v: Vec<char>)
    ensures
        v@ == s@,
{
    let mut it = s.chars();
    let mut v: Vec<char> = Vec::new();
    loop
        invariant_except_break
            v@ + it.remaining() == s@,
        ensures
            v@ == s@,
        decreases s@.len() - v@.len(),
    {
        match it.next() {
            Some(c) => {
                v.push(c);
            },
            None => {
                proof {
                    assert(v@ =~= s@);
                }
                break;
            },
        }
    }
    v
}

impl CheckedDecimal {
    /// Every value in circulation stays within the representable range.
    #[verifier::type_invariant]
    pub closed spec fn inv(self) -> bool {
        in_range(self.units as int)
    }

    /// The zero value.
    pub fn zero() -> (r: Self)
        ensures
            r@ == 0,
    {
        CheckedDecimal { units: 0 }
    }

    /// Reads amount text into a value rounded to four fractional digits, and
    /// reports malformed text as a parse error.
    pub fn parse(value: &str) -> (r: Result<Self, Error>)
        ensures
            r matches Ok(v) ==> parsed_units(value@) == Some(v@),
            r matches Err(e) ==> parsed_units(value@) is None && e matches Error::ParseDecimal(_),
    {
        let chars = str_chars(value);
        Self::parse_chars(&chars)
    }

    /// Reads amount text, given as its characters, into a value rounded to
    /// four fractional digits.
    pub fn parse_chars(chars: &Vec<char>) -> (r: Result<Self, Error>)
        ensures
            r matches Ok(v) ==> parsed_units(chars@) == Some(v@),
            r matches Err(e) ==> parsed_units(chars@) is None && e matches Error::ParseDecimal(_),
    {
        match parse_mantissa_scale(chars) {
            Ok((m, sc)) => {
                let factor: i128 = if sc == 0 {
                    10000
                } else if sc == 1 {
                    1000
                } else if sc == 2 {
                    100
                } else if sc == 3 {
                    10
                } else {
                    1
                };
                proof {
                    assert(pow10(0) == 1);
                    assert(pow10(1) == 10);
                    assert(pow10(2) == 100);
                    assert(pow10(3) == 1000);
                    assert(pow10(4) == 10000);
                    assert(factor == pow10((4 - sc) as nat));
                    assert(m * factor <= UNITS_MAX as int && -(UNITS_MAX as int) <= m * factor)
                        by (nonlinear_arith)
                        requires
                            -79228162514264337593543950336 < m < 79228162514264337593543950336,
                            1 <= factor <= 10000,
                            UNITS_MAX == 792281625142643375935439503350000,
                    ;
                }
                Ok(CheckedDecimal { units: m * factor })
            },
            Err(e) => Err(Error::ParseDecimal(e)),
        }
    }

    /// The value as text: an optional minus sign, the whole part, a point,
    /// and exactly four fractional digits.
    #[verifier::rlimit(100)]
    pub fn to_text(&self) -> (r: String)
        ensures
            r@ == spec_decimal_text(self@),
    {
        proof {
            use_type_invariant(self);
        }
        let neg = self.units < 0;
        let m: i128 = if neg {
            -self.units
        } else {
            self.units
        };
        let mut out = String::new();
        if neg {
            out.append("-");
        }
        proof {
            reveal_strlit("-");
            if neg {
                assert(out@ =~= seq!['-']);
            } else {
                assert(out@ =~= Seq::<char>::empty());
            }
        }
        let ghost sign = out@;
        push_digits(&mut out, m / 10000);
        let ghost whole = out@;
        proof {
            assert(whole == sign + spec_digits(m as int / 10000));
        }
        out.append(".");
        let ghost dotted = out@;
        proof {
            reveal_strlit(".");
            assert(dotted =~= whole + seq!['.']);
        }
        let f: i128 = m % 10000;
        let d3: u8 = (f / 1000) as u8;
        let d2: u8 = (f % 1000 / 100) as u8;
        let d1: u8 = (f % 100 / 10) as u8;
        let d0: u8 = (f % 10) as u8;
        out.append(digit_str(d3));
        out.append(digit_str(d2));
        out.append(digit_str(d1));
        out.append(digit_str(d0));
        proof {
            assert(out@ =~= dotted + seq![
                digit_char(d3 as int),
                digit_char(d2 as int),
                digit_char(d1 as int),
                digit_char(d0 as int),
            ]);
            assert(out@ =~= spec_decimal_text(self@));
        }
        out
    }

    /// Whether the value is below zero.
    pub fn is_sign_negative(self) -> (r: bool)
        ensures
            r == (self@ < 0),
    {
        self.units < 0
    }

    /// Whether this value is strictly below `other`.
    pub fn lt(&self, other: &CheckedDecimal) -> (r: bool)
        ensures
            r == (self@ < other@),
    {
        self.units < other.units
    }

    /// Adds `other`, or reports overflow when the sum leaves the range.
    pub fn checked_add(self, other: CheckedDecimal) -> (r: Result<Self, Error>)
        ensures
            in_range(self@ + other@) ==> (r matches Ok(v) && v@ == self@ + other@),
            !in_range(self@ + other@) ==> (r matches Err(e) && e == Error::DecimalOverflow),
    {
        proof {
            use_type_invariant(self);
            use_type_invariant(other);
        }
        let s = self.units + other.units;
        if -UNITS_MAX <= s && s <= UNITS_MAX {
            Ok(CheckedDecimal { units: s })
        } else {
            Err(Error::DecimalOverflow)
        }
    }

    /// Subtracts `other`, or reports underflow when the difference leaves the
    /// range.
    pub fn checked_sub(self, other: CheckedDecimal) -> (r: Result<Self, Error>)
        ensures
            in_range(self@ - other@) ==> (r matches Ok(v) && v@ == self@ - other@),
            !in_range(self@ - other@) ==> (r matches Err(e) && e == Error::DecimalUnderflow),
    {
        proof {
            use_type_invariant(self);
            use_type_invariant(other);
        }
        let s = self.units - other.units;
        if -UNITS_MAX <= s && s <= UNITS_MAX {
            Ok(CheckedDecimal { units: s })
        } else {
            Err(Error::DecimalUnderflow)
        }
    }
}


/// The character of a single digit.
pub open spec fn digit_char(d: int) -> char {
    ((48 + d) as u8) as char
}

/// The digits of a number, most significant first; zero is one digit.
pub open spec fn spec_digits(n: int) -> Seq<char>
    decreases n,
    when n >= 0
{
    if n <= 9 {
        seq![digit_char(n)]
    } else {
        spec_digits(n / 10) + seq![digit_char(n % 10)]
    }
}

/// The canonical text of a value counted in ten-thousandths: an optional
/// minus sign, the whole part, a point, and exactly four fractional digits.
pub open spec fn spec_decimal_text(u: int) -> Seq<char> {
    let m = if u < 0 {
        -u
    } else {
        u
    };
    let sign: Seq<char> = if u < 0 {
        seq!['-']
    } else {
        Seq::empty()
    };
    let f = m % 10000;
    sign + spec_digits(m / 10000) + seq!['.'] + seq![
        digit_char(f / 1000),
        digit_char(f % 1000 / 100),
        digit_char(f % 100 / 10),
        digit_char(f % 10),
    ]
}

/// The text of one digit.
fn digit_str(d: u8) -> (r: &'static str)
    requires
        d <= 9,
    ensures
        r@ == seq![digit_char(d as int)],
{
    proof {
        reveal_strlit("0");
        reveal_strlit("1");
        reveal_strlit("2");
        reveal_strlit("3");
        reveal_strlit("4");
        reveal_strlit("5");
        reveal_strlit("6");
        reveal_strlit("7");
        reveal_strlit("8");
        reveal_strlit("9");
    }
    match d {
        0 => "0",
        1 => "1",
        2 => "2",
        3 => "3",
        4 => "4",
        5 => "5",
        6 => "6",
        7 => "7",
        8 => "8",
        _ => "9",
    }
}

/// Appends the digits of `n` to `out`.
fn push_digits(out: &mut String, n: i128)
    requires
        n >= 0,
    ensures
        final(out)@ == old(out)@ + spec_digits(n as int),
    decreases n,
{
    if n <= 9 {
        out.append(digit_str(n as u8));
    } else {
        push_digits(out, n / 10);
        out.append(digit_str((n % 10) as u8));
        proof {
            assert(old(out)@ + spec_digits(n as int) =~= old(out)@ + spec_digits(n as int / 10)
                + seq![digit_char(n as int % 10)]);
        }
    }
}

} // verus!
