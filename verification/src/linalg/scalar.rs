//! The coefficients of vectors and matrices.

use crate::numerals::{integer_number, integer_value};
use crate::text::{fixed_point, signed_decimal, signed_power_of_ten};
use crate::text::{fixed_point_string, power_of_ten_string, signed_decimal_string};
use vstd::prelude::*;

verus! {

/// A type of coefficients. The operations are functions of their arguments;
/// no law of arithmetic is asked of them, so that rounding types qualify.
/// A type outside of verified code may leave out what the operations mean.
pub trait Scalar: Copy + Sized {
    closed spec fn zero_spec() -> Self {
        arbitrary()
    }

    closed spec fn one_spec() -> Self {
        arbitrary()
    }

    closed spec fn plus_spec(self, other: Self) -> Self {
        arbitrary()
    }

    closed spec fn minus_spec(self, other: Self) -> Self {
        arbitrary()
    }

    closed spec fn times_spec(self, other: Self) -> Self {
        arbitrary()
    }

    closed spec fn negated_spec(self) -> Self {
        arbitrary()
    }

    closed spec fn over_spec(self, other: Self) -> Self {
        arbitrary()
    }

    closed spec fn parsed_spec(text: Seq<char>) -> Option<Self> {
        arbitrary()
    }

    closed spec fn is_zero_spec(self) -> bool {
        arbitrary()
    }

    closed spec fn is_finite_spec(self) -> bool {
        arbitrary()
    }

    closed spec fn is_below_spec(self, other: Self) -> bool {
        arbitrary()
    }

    closed spec fn is_at_most_spec(self, other: Self) -> bool {
        arbitrary()
    }

    closed spec fn from_count_spec(n: nat) -> Self {
        arbitrary()
    }

    closed spec fn from_word_spec(word: u64) -> Self {
        arbitrary()
    }

    closed spec fn display_spec(self) -> Seq<char> {
        arbitrary()
    }

    closed spec fn infinity_spec() -> Self {
        arbitrary()
    }

    closed spec fn square_root_spec(self) -> Self {
        arbitrary()
    }

    closed spec fn hypot_spec(self, other: Self) -> Self {
        arbitrary()
    }

    closed spec fn logarithm_spec(self) -> Self {
        arbitrary()
    }

    closed spec fn fixed_spec(self, digits: nat) -> Seq<char> {
        arbitrary()
    }

    closed spec fn scientific_spec(self, digits: nat) -> Seq<char> {
        arbitrary()
    }

    fn zero() -> (r: Self)
        ensures
            r == Self::zero_spec(),
    ;

    fn one() -> (r: Self)
        ensures
            r == Self::one_spec(),
    ;

    fn plus(self, other: Self) -> (r: Self)
        ensures
            r == self.plus_spec(other),
    ;

    fn minus(self, other: Self) -> (r: Self)
        ensures
            r == self.minus_spec(other),
    ;

    fn times(self, other: Self) -> (r: Self)
        ensures
            r == self.times_spec(other),
    ;

    fn negated(self) -> (r: Self)
        ensures
            r == self.negated_spec(),
    ;

    fn over(self, other: Self) -> (r: Self)
        ensures
            r == self.over_spec(other),
    ;

    fn is_zero(self) -> (r: bool)
        ensures
            r == self.is_zero_spec(),
    ;

    /// Whether the coefficient is a number, neither infinite nor undefined.
    fn is_finite(self) -> (r: bool)
        ensures
            r == self.is_finite_spec(),
    ;

    /// Whether the coefficient is less than the other.
    fn is_below(self, other: Self) -> (r: bool)
        ensures
            r == self.is_below_spec(other),
    ;

    /// Whether the coefficient is less than the other or equal to it.
    fn is_at_most(self, other: Self) -> (r: bool)
        ensures
            r == self.is_at_most_spec(other),
    ;

    /// The coefficient nearest to a count.
    fn from_count(n: u64) -> (r: Self)
        ensures
            r == Self::from_count_spec(n as nat),
    ;

    /// The coefficient whose bits a word of a binary file holds.
    fn from_word(word: u64) -> (r: Self)
        ensures
            r == Self::from_word_spec(word),
    ;

    /// The upper end of the range of coefficients.
    fn infinity() -> (r: Self)
        ensures
            r == Self::infinity_spec(),
    ;

    fn square_root(self) -> (r: Self)
        ensures
            r == self.square_root_spec(),
    ;

    /// The length of the hypotenuse over two legs: the root of the sum of their squares.
    fn hypot(self, other: Self) -> (r: Self)
        ensures
            r == self.hypot_spec(other),
    ;

    fn logarithm(self) -> (r: Self)
        ensures
            r == self.logarithm_spec(),
    ;

    /// The coefficient as text.
    fn display(self) -> (text: String)
        ensures
            text@ == self.display_spec(),
    ;

    /// The coefficient as text with digits behind the point.
    fn fixed(self, digits: usize) -> (text: String)
        ensures
            text@ == self.fixed_spec(digits as nat),
    ;

    /// The coefficient that a text spells, if it does.
    fn parsed(text: &str) -> (value: Option<Self>)
        ensures
            value == Self::parsed_spec(text@),
    ;

    /// The coefficient as text with digits behind the point and a power of ten.
    fn scientific(self, digits: usize) -> (text: String)
        ensures
            text@ == self.scientific_spec(digits as nat),
    ;
}

/// Machine integers, with arithmetic modulo their range: the coefficients of
/// incidence matrices and of integer test systems.
impl Scalar for i64 {
    open spec fn zero_spec() -> Self {
        0
    }

    open spec fn one_spec() -> Self {
        1
    }

    open spec fn plus_spec(self, other: Self) -> Self {
        self.wrapping_add(other)
    }

    open spec fn minus_spec(self, other: Self) -> Self {
        self.wrapping_sub(other)
    }

    open spec fn times_spec(self, other: Self) -> Self {
        self.wrapping_mul(other)
    }

    open spec fn negated_spec(self) -> Self {
        0i64.wrapping_sub(self)
    }

    open spec fn over_spec(self, other: Self) -> Self {
        if other == 0 {
            0
        } else if other == -1 {
            0i64.wrapping_sub(self)
        } else {
            truncated_quotient(self as int, other as int) as i64
        }
    }

    open spec fn is_zero_spec(self) -> bool {
        self == 0
    }

    open spec fn is_finite_spec(self) -> bool {
        true
    }

    open spec fn is_below_spec(self, other: Self) -> bool {
        self < other
    }

    open spec fn is_at_most_spec(self, other: Self) -> bool {
        self <= other
    }

    open spec fn from_count_spec(n: nat) -> Self {
        if n <= i64::MAX {
            n as i64
        } else {
            i64::MAX
        }
    }

    open spec fn from_word_spec(word: u64) -> Self {
        if word <= i64::MAX {
            word as i64
        } else {
            (word - 0x1_0000_0000_0000_0000) as i64
        }
    }

    open spec fn infinity_spec() -> Self {
        i64::MAX
    }

    open spec fn hypot_spec(self, other: Self) -> Self {
        self.times_spec(self).plus_spec(other.times_spec(other)).square_root_spec()
    }

    open spec fn square_root_spec(self) -> Self {
        if self < 0 {
            0
        } else {
            integer_root(self as nat) as i64
        }
    }

    open spec fn logarithm_spec(self) -> Self {
        if self < 1 {
            0
        } else {
            binary_logarithm(self as nat) as i64
        }
    }

    open spec fn fixed_spec(self, digits: nat) -> Seq<char> {
        fixed_point(self as int, digits)
    }

    open spec fn scientific_spec(self, digits: nat) -> Seq<char> {
        signed_power_of_ten(self as int, digits)
    }

    open spec fn display_spec(self) -> Seq<char> {
        signed_decimal(self as int)
    }

    open spec fn parsed_spec(text: Seq<char>) -> Option<Self> {
        integer_value(text)
    }

    fn zero() -> (r: Self) {
        0
    }

    fn one() -> (r: Self) {
        1
    }

    fn plus(self, other: Self) -> (r: Self) {
        self.wrapping_add(other)
    }

    fn minus(self, other: Self) -> (r: Self) {
        self.wrapping_sub(other)
    }

    fn times(self, other: Self) -> (r: Self) {
        self.wrapping_mul(other)
    }

    fn negated(self) -> (r: Self) {
        0i64.wrapping_sub(self)
    }

    fn over(self, other: Self) -> (r: Self) {
        if other == 0 {
            0
        } else if other == -1 {
            0i64.wrapping_sub(self)
        } else {
            let n: i128 = if self < 0 {
                -(self as i128)
            } else {
                self as i128
            };
            let d: i128 = if other < 0 {
                -(other as i128)
            } else {
                other as i128
            };
            let q: i128 = n / d;
            proof {
                lemma_quotient_bound(n as int, d as int);
            }
            if (self < 0) != (other < 0) {
                (-q) as i64
            } else {
                q as i64
            }
        }
    }

    fn is_zero(self) -> (r: bool) {
        self == 0
    }

    fn is_finite(self) -> (r: bool) {
        true
    }

    fn is_below(self, other: Self) -> (r: bool) {
        self < other
    }

    fn is_at_most(self, other: Self) -> (r: bool) {
        self <= other
    }

    fn from_count(n: u64) -> (r: Self) {
        if n <= i64::MAX as u64 {
            n as i64
        } else {
            i64::MAX
        }
    }

    fn from_word(word: u64) -> (r: Self) {
        if word <= i64::MAX as u64 {
            word as i64
        } else {
            -((u64::MAX - word) as i64) - 1
        }
    }

    fn display(self) -> (text: String) {
        signed_decimal_string(self)
    }

    fn parsed(text: &str) -> (value: Option<Self>) {
        integer_number(text)
    }

    fn infinity() -> (r: Self) {
        i64::MAX
    }

    fn hypot(self, other: Self) -> (r: Self) {
        self.times(self).plus(other.times(other)).square_root()
    }

    fn square_root(self) -> (r: Self) {
        if self < 0 {
            0
        } else {
            integer_root_of(self)
        }
    }

    fn logarithm(self) -> (r: Self) {
        if self < 1 {
            0
        } else {
            binary_logarithm_of(self)
        }
    }

    fn fixed(self, digits: usize) -> (text: String) {
        fixed_point_string(self, digits)
    }

    fn scientific(self, digits: usize) -> (text: String) {
        power_of_ten_string(self, digits)
    }
}

/// The square root, rounded down.
pub open spec fn integer_root(n: nat) -> nat
    decreases n,
{
    if n == 0 {
        0
    } else {
        let r = 2 * integer_root(n / 4);
        if (r + 1) * (r + 1) <= n {
            r + 1
        } else {
            r
        }
    }
}

/// The logarithm to base two, rounded down.
pub open spec fn binary_logarithm(n: nat) -> nat
    decreases n,
{
    if n <= 1 {
        0
    } else {
        1 + binary_logarithm(n / 2)
    }
}

proof fn lemma_integer_root(n: nat)
    ensures
        integer_root(n) * integer_root(n) <= n,
    decreases n,
{
    if n > 0 {
        lemma_integer_root(n / 4);
        let q = integer_root(n / 4);
        let r = 2 * q;
        assert(r * r == 4 * (q * q)) by (nonlinear_arith)
            requires
                r == 2 * q,
        ;
        let x = integer_root(n);
        assert(x == r || x == r + 1 && (r + 1) * (r + 1) <= n);
        assert(x * x <= n) by (nonlinear_arith)
            requires
                x == r || x == r + 1 && (r + 1) * (r + 1) <= n,
                r * r <= n,
        ;
    } else {
        assert(0nat * 0nat == 0) by (nonlinear_arith);
    }
}

fn integer_root_of(n: i64) -> (r: i64)
    requires
        n >= 0,
    ensures
        r == integer_root(n as nat),
        0 <= r,
        r * r <= n,
    decreases n,
{
    if n == 0 {
        return 0;
    }
    let q: i64 = integer_root_of(n / 4);
    proof {
        lemma_integer_root(n as nat);
        assert(q < 0x8000_0000) by (nonlinear_arith)
            requires
                q >= 0,
                q * q <= n / 4,
                n <= 0x7fff_ffff_ffff_ffff,
        ;
        assert((2 * q) * (2 * q) == 4 * (q * q)) by (nonlinear_arith);
        assert((2 * q + 1) * (2 * q + 1) <= 0x1_0000_0001 * 0x1_0000_0001) by (nonlinear_arith)
            requires
                0 <= q < 0x8000_0000,
        ;
        assert(0 <= (2 * q + 1) * (2 * q + 1)) by (nonlinear_arith);
    }
    let r: i64 = 2 * q;
    let next: i128 = r as i128 + 1;
    proof {
        assert(next * next <= 0x1_0000_0001 * 0x1_0000_0001);
    }
    if next * next <= n as i128 {
        r + 1
    } else {
        r
    }
}

fn binary_logarithm_of(n: i64) -> (r: i64)
    requires
        n >= 0,
    ensures
        r == binary_logarithm(n as nat),
        0 <= r <= n,
    decreases n,
{
    if n <= 1 {
        0
    } else {
        1 + binary_logarithm_of(n / 2)
    }
}

/// The quotient of two integers, rounded towards zero.
pub open spec fn truncated_quotient(a: int, b: int) -> int {
    let n = if a < 0 {
        -a
    } else {
        a
    };
    let d = if b < 0 {
        -b
    } else {
        b
    };
    if (a < 0) != (b < 0) {
        -(n / d)
    } else {
        n / d
    }
}

proof fn lemma_quotient_bound(n: int, d: int)
    requires
        n >= 0,
        d >= 1,
    ensures
        0 <= n / d <= n,
        d >= 2 ==> n / d <= n / 2,
{
    vstd::arithmetic::div_mod::lemma_div_is_ordered_by_denominator(n, 1, d);
    if d >= 2 {
        vstd::arithmetic::div_mod::lemma_div_is_ordered_by_denominator(n, 2, d);
    }
    vstd::arithmetic::div_mod::lemma_div_pos_is_pos(n, d);
}

/// The sum of a list, taken from the left: zero for none, the entry itself for one.
pub open spec fn sum<T: Scalar>(values: Seq<T>) -> T
    decreases values.len(),
{
    if values.len() == 0 {
        T::zero_spec()
    } else if values.len() == 1 {
        values[0]
    } else {
        sum(values.drop_last()).plus_spec(values.last())
    }
}

} // verus!
