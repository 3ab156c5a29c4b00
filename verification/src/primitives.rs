//! Clock edges and the 24-bit integer types of hardware descriptions.

use vstd::prelude::*;

verus! {

/// A clock edge, or the logic level of a clock that is not changing.
#[derive(Debug, Clone, Copy, PartialEq, Eq, Structural)]
pub enum Edge {
    Rising,
    Falling,
    /// Gives the current logic level
    Level(bool),
}

/// The edges a clock goes through, in order: low, rising, high, falling.
pub open spec fn cycle_value(n: nat) -> Edge {
    if n % 4 == 0 {
        Edge::Level(false)
    } else if n % 4 == 1 {
        Edge::Rising
    } else if n % 4 == 2 {
        Edge::Level(true)
    } else {
        Edge::Falling
    }
}

impl Edge {
    pub open spec fn spec_is_high(self) -> bool {
        self == Edge::Rising || self == Edge::Level(true)
    }

    pub open spec fn spec_is_low(self) -> bool {
        self == Edge::Falling || self == Edge::Level(false)
    }

    pub fn rising(&self) -> (r: bool)
        ensures
            r == (*self == Edge::Rising),
    {
        *self == Edge::Rising
    }

    pub fn falling(&self) -> (r: bool)
        ensures
            r == (*self == Edge::Falling),
    {
        *self == Edge::Falling
    }

    pub fn high(&self) -> (r: bool)
        ensures
            r == self.spec_is_high(),
    {
        self.rising() || *self == Edge::Level(true)
    }

    pub fn low(&self) -> (r: bool)
        ensures
            r == self.spec_is_low(),
    {
        self.falling() || *self == Edge::Level(false)
    }

    /// One period of the clock, starting low; repeated, it is the clock.
    pub fn cycle() -> (r: Vec<Edge>)
        ensures
            r@.len() == 4,
            forall|i: int| 0 <= i < 4 ==> #[trigger] r@[i] == cycle_value(i as nat),
    {
        vec![Edge::Level(false), Edge::Rising, Edge::Level(true), Edge::Falling]
    }

    /// The `n`th edge of the clock, counting from 0.
    pub fn cycle_nth(n: usize) -> (r: Edge)
        ensures
            r == cycle_value(n as nat),
    {
        let k = n % 4;
        if k == 0 {
            Edge::Level(false)
        } else if k == 1 {
            Edge::Rising
        } else if k == 2 {
            Edge::Level(true)
        } else {
            Edge::Falling
        }
    }
}

/// Every edge is either high or low, never both.
pub proof fn lemma_high_xor_low(e: Edge)
    ensures
        e.spec_is_high() != e.spec_is_low(),
{
}

/// The clock repeats every four edges, and is high exactly in the middle two.
pub proof fn lemma_cycle_period(n: nat)
    ensures
        cycle_value(n + 4) == cycle_value(n),
        cycle_value(n).spec_is_high() == (n % 4 == 1 || n % 4 == 2),
{
    assert((n + 4) % 4 == n % 4) by (nonlinear_arith);
}

/// An unsigned integer of 24 bits, held in 32.
#[derive(Debug, Clone, Copy, PartialEq, Eq, Structural)]
#[allow(non_camel_case_types)]
pub struct u24(pub u32);

/// A signed integer of 24 bits, held in 32.
#[derive(Debug, Clone, Copy, PartialEq, Eq, Structural)]
#[allow(non_camel_case_types)]
pub struct i24(pub i32);

impl u24 {
    pub fn from_u32(v: u32) -> (r: u24)
        ensures
            r.0 == v,
    {
        u24(v)
    }

    /// The largest value of 24 bits.
    pub fn max_value() -> (r: u24)
        ensures
            r.0 == 16777215,
    {
        let top: u32 = 1u32 << 24u32;
        assert(top == 16777216) by (bit_vector)
            requires
                top == 1u32 << 24u32,
        ;
        u24(top - 1)
    }

    pub fn min_value() -> (r: u24)
        ensures
            r.0 == 0,
    {
        u24(0)
    }

    pub fn zero() -> (r: u24)
        ensures
            r.0 == 0,
    {
        u24(0)
    }

    pub fn one() -> (r: u24)
        ensures
            r.0 == 1,
    {
        u24(1)
    }

    pub fn is_zero(&self) -> (r: bool)
        ensures
            r == (self.0 == 0),
    {
        self.0 == 0
    }

    pub fn is_one(&self) -> (r: bool)
        ensures
            r == (self.0 == 1),
    {
        self.0 == 1
    }

    pub fn add(self, other: u24) -> (r: u24)
        requires
            self.0 + other.0 <= u32::MAX,
        ensures
            r.0 == self.0 + other.0,
    {
        u24(self.0 + other.0)
    }

    pub fn sub(self, other: u24) -> (r: u24)
        requires
            self.0 >= other.0,
        ensures
            r.0 == self.0 - other.0,
    {
        u24(self.0 - other.0)
    }

    pub fn mul(self, other: u24) -> (r: u24)
        requires
            self.0 * other.0 <= u32::MAX,
        ensures
            r.0 == self.0 * other.0,
    {
        u24(self.0 * other.0)
    }

    pub fn div(self, other: u24) -> (r: u24)
        requires
            other.0 != 0,
        ensures
            r.0 == self.0 / other.0,
    {
        u24(self.0 / other.0)
    }

    pub fn rem(self, other: u24) -> (r: u24)
        requires
            other.0 != 0,
        ensures
            r.0 == self.0 % other.0,
    {
        u24(self.0 % other.0)
    }

    pub fn bitand(self, other: u24) -> (r: u24)
        ensures
            r.0 == self.0 & other.0,
    {
        u24(self.0 & other.0)
    }

    pub fn bitor(self, other: u24) -> (r: u24)
        ensures
            r.0 == self.0 | other.0,
    {
        u24(self.0 | other.0)
    }

    pub fn bitxor(self, other: u24) -> (r: u24)
        ensures
            r.0 == self.0 ^ other.0,
    {
        u24(self.0 ^ other.0)
    }

    pub fn shl(self, other: u24) -> (r: u24)
        requires
            other.0 < 32,
        ensures
            r.0 == self.0 << other.0,
    {
        u24(self.0 << other.0)
    }

    pub fn shr(self, other: u24) -> (r: u24)
        requires
            other.0 < 32,
        ensures
            r.0 == self.0 >> other.0,
    {
        u24(self.0 >> other.0)
    }

    pub fn wrapping_add(&self, other: &u24) -> (r: u24)
        ensures
            r.0 == (self.0 + other.0) % 0x1_0000_0000,
    {
        u24(self.0.wrapping_add(other.0))
    }

    pub fn eq_u32(&self, other: u32) -> (r: bool)
        ensures
            r == (self.0 == other),
    {
        self.0 == other
    }

    pub fn into_u32(self) -> (r: u32)
        ensures
            r == self.0,
    {
        self.0
    }

    /// The value `text` denotes in base `radix`, parsed as a `u32`; `None`
    /// when it does not parse or does not fit.
    pub fn from_str_radix(text: &str, radix: u32) -> (r: Option<u24>)
        requires
            2 <= radix <= 36,
        ensures
            r == match parse_integer(text@, radix as nat, false) {
                Some(v) => if 0 <= v <= u32::MAX {
                    Some(u24(v as u32))
                } else {
                    None
                },
                None => None,
            },
    {
        match u32_from_str_radix(text, radix) {
            Some(v) => Some(u24(v)),
            None => None,
        }
    }
}

impl i24 {
    pub fn from_i32(v: i32) -> (r: i24)
        ensures
            r.0 == v,
    {
        i24(v)
    }

    /// The largest value of 24 bits.
    pub fn max_value() -> (r: i24)
        ensures
            r.0 == 8388607,
    {
        let top: i32 = 1i32 << 23i32;
        assert(top == 8388608) by (bit_vector)
            requires
                top == 1i32 << 23i32,
        ;
        i24(top - 1)
    }

    /// The smallest value of 24 bits.
    pub fn min_value() -> (r: i24)
        ensures
            r.0 == -8388608,
    {
        let top: i32 = 1i32 << 23i32;
        assert(top == 8388608) by (bit_vector)
            requires
                top == 1i32 << 23i32,
        ;
        i24(-top)
    }

    pub fn zero() -> (r: i24)
        ensures
            r.0 == 0,
    {
        i24(0)
    }

    pub fn one() -> (r: i24)
        ensures
            r.0 == 1,
    {
        i24(1)
    }

    pub fn is_zero(&self) -> (r: bool)
        ensures
            r == (self.0 == 0),
    {
        self.0 == 0
    }

    pub fn is_one(&self) -> (r: bool)
        ensures
            r == (self.0 == 1),
    {
        self.0 == 1
    }

    pub fn neg(self) -> (r: i24)
        requires
            self.0 != i32::MIN,
        ensures
            r.0 == -self.0,
    {
        i24(-self.0)
    }

    pub fn add(self, other: i24) -> (r: i24)
        requires
            i32::MIN <= self.0 + other.0 <= i32::MAX,
        ensures
            r.0 == self.0 + other.0,
    {
        i24(self.0 + other.0)
    }

    pub fn sub(self, other: i24) -> (r: i24)
        requires
            i32::MIN <= self.0 - other.0 <= i32::MAX,
        ensures
            r.0 == self.0 - other.0,
    {
        i24(self.0 - other.0)
    }

    pub fn mul(self, other: i24) -> (r: i24)
        requires
            i32::MIN <= self.0 * other.0 <= i32::MAX,
        ensures
            r.0 == self.0 * other.0,
    {
        i24(self.0 * other.0)
    }

    pub fn bitand(self, other: i24) -> (r: i24)
        ensures
            r.0 == self.0 & other.0,
    {
        i24(self.0 & other.0)
    }

    pub fn bitor(self, other: i24) -> (r: i24)
        ensures
            r.0 == self.0 | other.0,
    {
        i24(self.0 | other.0)
    }

    pub fn bitxor(self, other: i24) -> (r: i24)
        ensures
            r.0 == self.0 ^ other.0,
    {
        i24(self.0 ^ other.0)
    }

    pub fn wrapping_add(&self, other: &i24) -> (r: i24)
        ensures
            r.0 == if self.0 + other.0 > i32::MAX {
                self.0 + other.0 - 0x1_0000_0000
            } else if self.0 + other.0 < i32::MIN {
                self.0 + other.0 + 0x1_0000_0000
            } else {
                self.0 + other.0
            },
    {
        i24(self.0.wrapping_add(other.0))
    }

    pub fn eq_i32(&self, other: i32) -> (r: bool)
        ensures
            r == (self.0 == other),
    {
        self.0 == other
    }

    pub fn into_i32(self) -> (r: i32)
        ensures
            r == self.0,
    {
        self.0
    }

    /// The value `text` denotes in base `radix`, parsed as an `i32`; `None`
    /// when it does not parse or does not fit.
    pub fn from_str_radix(text: &str, radix: u32) -> (r: Option<i24>)
        requires
            2 <= radix <= 36,
        ensures
            r == match parse_integer(text@, radix as nat, true) {
                Some(v) => if i32::MIN <= v <= i32::MAX {
                    Some(i24(v as i32))
                } else {
                    None
                },
                None => None,
            },
    {
        match i32_from_str_radix(text, radix) {
            Some(v) => Some(i24(v)),
            None => None,
        }
    }
}

/// The value of digit `c` in base `radix`: `0`-`9`, then `a`-`z` or `A`-`Z`
/// for ten and up.
pub open spec fn radix_digit(c: char, radix: nat) -> Option<nat> {
    let v: int = if '0' <= c <= '9' {
        c as int - '0' as int
    } else if 'a' <= c <= 'z' {
        c as int - 'a' as int + 10
    } else if 'A' <= c <= 'Z' {
        c as int - 'A' as int + 10
    } else {
        radix as int
    };
    if 0 <= v < radix {
        Some(v as nat)
    } else {
        None
    }
}

/// The value of the digits `s` in base `radix`; `None` if one is not a digit.
pub open spec fn digits_value(s: Seq<char>, radix: nat) -> Option<nat>
    decreases s.len(),
{
    if s.len() == 0 {
        Some(0)
    } else {
        match (digits_value(s.drop_last(), radix), radix_digit(s.last(), radix)) {
            (Some(a), Some(d)) => Some(a * radix + d),
            _ => None,
        }
    }
}

/// The integer `s` denotes in base `radix`: an optional `+` (or, when
/// `signed`, `-`) and at least one digit, nothing else.
pub open spec fn parse_integer(s: Seq<char>, radix: nat, signed: bool) -> Option<int> {
    let negative = signed && s.len() > 0 && s[0] == '-';
    let body = if s.len() > 0 && (s[0] == '+' || negative) {
        s.drop_first()
    } else {
        s
    };
    if body.len() == 0 {
        None
    } else {
        match digits_value(body, radix) {
            Some(v) => Some(if negative { -(v as int) } else { v as int }),
            None => None,
        }
    }
}

/// `num_traits::Num::from_str_radix` for `u32`, which is std's
/// `u32::from_str_radix`: an optional `+` followed by digits of the radix
/// (`0`-`9`, then letters of either case), an error for anything else, an
/// empty text, or a value beyond `u32`. It panics for a radix outside
/// 2..=36, which the contract excludes. The error is mapped to `None`.
#[verifier::external_body]
fn u32_from_str_radix(text: &str, radix: u32) -> (r: Option<u32>)
    requires
        2 <= radix <= 36,
    ensures
        r == match parse_integer(text@, radix as nat, false) {
            Some(v) => if 0 <= v <= u32::MAX {
                Some(v as u32)
            } else {
                None
            },
            None => None,
        },
{
    match <u32 as num_traits::Num>::from_str_radix(text, radix) {
        Ok(v) => Some(v),
        Err(_) => None,
    }
}

/// `num_traits::Num::from_str_radix` for `i32`, which is std's
/// `i32::from_str_radix`: an optional `+` or `-` followed by digits of the
/// radix, an error for anything else, an empty text, or a value beyond
/// `i32`. It panics for a radix outside 2..=36, which the contract
/// excludes. The error is mapped to `None`.
#[verifier::external_body]
fn i32_from_str_radix(text: &str, radix: u32) -> (r: Option<i32>)
    requires
        2 <= radix <= 36,
    ensures
        r == match parse_integer(text@, radix as nat, true) {
            Some(v) => if i32::MIN <= v <= i32::MAX {
                Some(v as i32)
            } else {
                None
            },
            None => None,
        },
{
    match <i32 as num_traits::Num>::from_str_radix(text, radix) {
        Ok(v) => Some(v),
        Err(_) => None,
    }
}

} // verus!
