//! HCL numbers.
use vstd::prelude::*;

verus! {

/// Represents an HCL number: a non-negative integer, a negative integer, or a floating point
/// number kept as the decimal text it was written with.
#[derive(Debug, Clone, PartialEq, Eq)]
pub enum Number {
    /// An integer from zero to `u64::MAX`.
    PosInt(u64),
    /// A negative integer.
    NegInt(i64),
    /// A floating point number, as its decimal text (for example `1.5` or `-4.2e10`).
    Float(String),
}

/// The mathematical content of a [`Number`].
pub enum NumberV {
    /// A non-negative integer.
    PosInt(u64),
    /// A negative integer.
    NegInt(i64),
    /// A floating point number by its decimal text.
    Float(Seq<char>),
}

impl View for Number {
    type V = NumberV;

    open spec fn view(&self) -> NumberV {
        match self {
            Number::PosInt(n) => NumberV::PosInt(*n),
            Number::NegInt(n) => NumberV::NegInt(*n),
            Number::Float(s) => NumberV::Float(s@),
        }
    }
}

impl NumberV {
    /// A number is well formed when its negative integers are negative.
    pub open spec fn wf(self) -> bool {
        match self {
            NumberV::NegInt(n) => n < 0,
            _ => true,
        }
    }

    /// The integer value of an integer number.
    pub open spec fn int_value(self) -> Option<int> {
        match self {
            NumberV::PosInt(n) => Some(n as int),
            NumberV::NegInt(n) => Some(n as int),
            NumberV::Float(_) => None,
        }
    }

    /// The number with its sign flipped.
    pub open spec fn negate(self) -> NumberV {
        match self {
            NumberV::PosInt(n) => if n == 0 {
                NumberV::PosInt(0)
            } else if n <= 0x8000_0000_0000_0000 {
                NumberV::NegInt((-(n as int)) as i64)
            } else {
                NumberV::Float(seq!['-'] + decimal_digits(n as nat))
            },
            NumberV::NegInt(n) => if n <= 0 {
                NumberV::PosInt((-(n as int)) as u64)
            } else {
                NumberV::NegInt((-(n as int)) as i64)
            },
            NumberV::Float(t) => if t.len() > 0 && t[0] == '-' {
                NumberV::Float(t.drop_first())
            } else {
                NumberV::Float(seq!['-'] + t)
            },
        }
    }
}

/// The decimal digits of `n` (at least one digit).
pub open spec fn decimal_digits(n: nat) -> Seq<char>
    decreases n,
{
    if n < 10 {
        seq![(n + '0' as nat) as char]
    } else {
        decimal_digits(n / 10).push(((n % 10) + '0' as nat) as char)
    }
}

/// Appends the decimal digits of `n` to `out`.
pub fn push_decimal(out: &mut Vec<char>, n: u64)
    ensures
        final(out)@ == old(out)@ + decimal_digits(n as nat),
    decreases n,
{
    if n < 10 {
        let c = ((n as u8) + 48) as char;
        out.push(c);
        assert(seq![c] =~= decimal_digits(n as nat));
    } else {
        push_decimal(out, n / 10);
        let c = (((n % 10) as u8) + 48) as char;
        out.push(c);
        assert(decimal_digits(n as nat) == decimal_digits((n / 10) as nat).push(c));
        assert(old(out)@ + decimal_digits((n / 10) as nat) + seq![c] =~= old(out)@
            + decimal_digits(n as nat));
    }
}

impl Number {
    /// Creates a number from an unsigned integer.
    pub fn from_u64(n: u64) -> (r: Number)
        ensures
            r@ == NumberV::PosInt(n),
    {
        Number::PosInt(n)
    }

    /// Creates a number from a signed integer.
    pub fn from_i64(n: i64) -> (r: Number)
        ensures
            r@.wf(),
            r@.int_value() == Some(n as int),
    {
        if n < 0 {
            Number::NegInt(n)
        } else {
            Number::PosInt(n as u64)
        }
    }

    /// A copy of the number.
    pub fn duplicate(&self) -> (r: Number)
        ensures
            r@ == self@,
    {
        match self {
            Number::PosInt(n) => Number::PosInt(*n),
            Number::NegInt(n) => Number::NegInt(*n),
            Number::Float(t) => Number::Float(t.clone()),
        }
    }

    /// Returns `true` if the number is a floating point number.
    pub fn is_f64(&self) -> (r: bool)
        ensures
            r == (self@ is Float),
    {
        matches!(self, Number::Float(_))
    }

    /// Returns `true` if the number is an integer between `i64::MIN` and `i64::MAX`.
    pub fn is_i64(&self) -> (r: bool)
        ensures
            r == (self@.int_value() matches Some(v) && i64::MIN <= v <= i64::MAX),
    {
        match self {
            Number::PosInt(n) => *n <= i64::MAX as u64,
            Number::NegInt(_) => true,
            Number::Float(_) => false,
        }
    }

    /// Returns `true` if the number is an integer between zero and `u64::MAX`.
    pub fn is_u64(&self) -> (r: bool)
        ensures
            r == (self@ is PosInt),
            self@.wf() ==> r == (self@.int_value() matches Some(v) && 0 <= v <= u64::MAX),
    {
        matches!(self, Number::PosInt(_))
    }

    /// The number as an `i64`, if it is an integer in range.
    pub fn as_i64(&self) -> (r: Option<i64>)
        ensures
            r == (match self@.int_value() {
                Some(v) => if i64::MIN <= v <= i64::MAX {
                    Some(v as i64)
                } else {
                    None
                },
                None => None,
            }),
    {
        match self {
            Number::PosInt(n) => if *n <= i64::MAX as u64 {
                Some(*n as i64)
            } else {
                None
            },
            Number::NegInt(n) => Some(*n),
            Number::Float(_) => None,
        }
    }

    /// The number as a `u64`, if it is a non-negative integer.
    pub fn as_u64(&self) -> (r: Option<u64>)
        ensures
            r == (match self@ {
                NumberV::PosInt(n) => Some(n),
                _ => None,
            }),
            self@.wf() ==> r == (match self@.int_value() {
                Some(v) => if 0 <= v <= u64::MAX {
                    Some(v as u64)
                } else {
                    None
                },
                None => None,
            }),
    {
        match self {
            Number::PosInt(n) => Some(*n),
            _ => None,
        }
    }

    /// The number with its sign flipped.
    pub fn neg(self) -> (r: Number)
        ensures
            r@ == self@.negate(),
            r@.wf(),
    {
        match self {
            Number::PosInt(n) => if n == 0 {
                Number::PosInt(0)
            } else if n <= 0x8000_0000_0000_0000 {
                let m: i64 = if n == 0x8000_0000_0000_0000 {
                    i64::MIN
                } else {
                    -(n as i64)
                };
                Number::NegInt(m)
            } else {
                let mut t: Vec<char> = Vec::new();
                t.push('-');
                push_decimal(&mut t, n);
                Number::Float(crate::text::string_of(t.as_slice()))
            },
            Number::NegInt(n) => if n <= 0 {
                let m: u64 = if n == i64::MIN {
                    0x8000_0000_0000_0000
                } else {
                    (-n) as u64
                };
                Number::PosInt(m)
            } else {
                Number::NegInt(-n)
            },
            Number::Float(s) => {
                let v = crate::text::chars_of(s.as_str());
                let mut t: Vec<char> = Vec::new();
                if v.len() > 0 && v[0] == '-' {
                    let mut i: usize = 1;
                    while i < v.len()
                        invariant
                            1 <= i <= v@.len(),
                            t@ == v@.subrange(1, i as int),
                        decreases v@.len() - i,
                    {
                        t.push(v[i]);
                        assert(v@.subrange(1, i + 1) =~= v@.subrange(1, i as int).push(
                            v@[i as int],
                        ));
                        i += 1;
                    }
                    assert(t@ =~= v@.drop_first());
                } else {
                    t.push('-');
                    let mut i: usize = 0;
                    while i < v.len()
                        invariant
                            i <= v@.len(),
                            t@ == seq!['-'] + v@.take(i as int),
                        decreases v@.len() - i,
                    {
                        t.push(v[i]);
                        assert(seq!['-'] + v@.take(i + 1) =~= (seq!['-'] + v@.take(
                            i as int,
                        )).push(v@[i as int]));
                        i += 1;
                    }
                    assert(v@.take(v@.len() as int) =~= v@);
                }
                Number::Float(crate::text::string_of(t.as_slice()))
            },
        }
    }
}

} // verus!
