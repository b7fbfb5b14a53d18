//! Text built from literals and decimal numbers.

use vstd::prelude::*;
use vstd::string::*;

verus! {

/// `String::push` appends the given character.
pub assume_specification[ String::push ](text: &mut String, c: char)
    ensures
        final(text)@ == old(text)@.push(c),
;

/// The decimal digit `d`.
pub open spec fn digit(d: nat) -> char {
    (48 + d) as char
}

/// The decimal digits of `n`.
pub open spec fn decimal(n: nat) -> Seq<char>
    decreases n,
{
    if n < 10 {
        seq![digit(n)]
    } else {
        decimal(n / 10).push(digit(n % 10))
    }
}

/// The decimal digits of `n`, behind a minus sign if it is negative.
pub open spec fn signed_decimal(n: int) -> Seq<char> {
    if n < 0 {
        seq!['-'] + decimal((-n) as nat)
    } else {
        decimal(n as nat)
    }
}

fn digit_char(d: u128) -> (c: char)
    requires
        d < 10,
    ensures
        c == digit(d as nat),
{
    match d {
        0 => '0',
        1 => '1',
        2 => '2',
        3 => '3',
        4 => '4',
        5 => '5',
        6 => '6',
        7 => '7',
        8 => '8',
        _ => '9',
    }
}

/// Appends the decimal digits of a number beyond the range of sizes.
pub fn push_large(text: &mut String, n: u128)
    ensures
        final(text)@ == old(text)@ + decimal(n as nat),
    decreases n,
{
    let ghost before = text@;
    if n >= 10 {
        push_large(text, n / 10);
    }
    text.push(digit_char(n % 10));
    proof {
        assert(text@ =~= before + decimal(n as nat));
    }
}

/// Appends the decimal digits of `n`.
pub fn push_decimal(text: &mut String, n: usize)
    ensures
        final(text)@ == old(text)@ + decimal(n as nat),
{
    push_large(text, n as u128);
}

/// The decimal digits of `n`.
pub fn decimal_string(n: usize) -> (text: String)
    ensures
        text@ == decimal(n as nat),
{
    let mut text = String::new();
    push_decimal(&mut text, n);
    proof {
        assert(text@ =~= decimal(n as nat));
    }
    text
}

/// The decimal digits of `n`, behind a minus sign if it is negative.
pub fn signed_decimal_string(n: i64) -> (text: String)
    ensures
        text@ == signed_decimal(n as int),
{
    let mut text = String::new();
    if n < 0 {
        text.push('-');
        let m: i128 = -(n as i128);
        push_large(&mut text, m as u128);
        proof {
            assert(text@ =~= signed_decimal(n as int));
        }
    } else {
        push_large(&mut text, n as u128);
        proof {
            assert(text@ =~= signed_decimal(n as int));
        }
    }
    text
}

/// A literal as an owned text.
pub fn owned(literal: &str) -> (text: String)
    ensures
        text@ == literal@,
{
    literal.to_owned()
}

/// `n` times the digit zero.
pub open spec fn zeros(n: nat) -> Seq<char> {
    Seq::new(n, |i: int| '0')
}

/// A number with a point and `digits` zeros behind it.
pub open spec fn fixed_point(n: int, digits: nat) -> Seq<char> {
    signed_decimal(n).push('.') + zeros(digits)
}

/// A number with a point behind the first digit, at least `digits` digits behind the point,
/// and a power of ten.
pub open spec fn power_of_ten(n: nat, digits: nat) -> Seq<char> {
    let all = decimal(n);
    let rest = (all.len() - 1) as nat;
    seq![all[0], '.'] + all.skip(1) + zeros(
        if rest < digits {
            (digits - rest) as nat
        } else {
            0
        },
    ).push('e') + decimal(rest)
}

/// The same with a minus sign if the number is negative.
pub open spec fn signed_power_of_ten(n: int, digits: nat) -> Seq<char> {
    if n < 0 {
        seq!['-'] + power_of_ten((-n) as nat, digits)
    } else {
        power_of_ten(n as nat, digits)
    }
}

fn push_zeros(text: &mut String, n: usize)
    ensures
        final(text)@ == old(text)@ + zeros(n as nat),
{
    let ghost before = text@;
    let mut i: usize = 0;
    while i < n
        invariant
            i <= n,
            text@ =~= before + zeros(i as nat),
        decreases n - i,
    {
        text.push('0');
        i = i + 1;
    }
}

/// A number with a point and `digits` zeros behind it.
pub fn fixed_point_string(n: i64, digits: usize) -> (text: String)
    ensures
        text@ == fixed_point(n as int, digits as nat),
{
    let mut text = signed_decimal_string(n);
    text.push('.');
    push_zeros(&mut text, digits);
    text
}

proof fn lemma_decimal_nonempty(n: nat)
    ensures
        decimal(n).len() > 0,
    decreases n,
{
}

/// A number with a point behind the first digit and a power of ten.
pub fn power_of_ten_string(n: i64, digits: usize) -> (text: String)
    ensures
        text@ == signed_power_of_ten(n as int, digits as nat),
{
    let m: u64 = if n < 0 {
        (-(n as i128)) as u64
    } else {
        n as u64
    };
    let mut all = String::new();
    push_large(&mut all, m as u128);
    proof {
        assert(all@ =~= decimal(m as nat));
        lemma_decimal_nonempty(m as nat);
    }
    let len: usize = all.as_str().unicode_len();
    let rest: usize = len - 1;
    let mut text = String::new();
    if n < 0 {
        text.push('-');
    }
    let ghost sign = text@;
    text.push(all.as_str().get_char(0));
    text.push('.');
    text.append(all.as_str().substring_char(1, len));
    push_zeros(
        &mut text,
        if rest < digits {
            digits - rest
        } else {
            0
        },
    );
    text.push('e');
    push_decimal(&mut text, rest);
    proof {
        assert(all@.subrange(1, len as int) =~= decimal(m as nat).skip(1));
        assert(text@ =~= sign + power_of_ten(m as nat, digits as nat));
        assert(text@ =~= signed_power_of_ten(n as int, digits as nat));
    }
    text
}

/// Texts behind one another.
pub open spec fn flat<A>(parts: Seq<Seq<A>>) -> Seq<A>
    decreases parts.len(),
{
    if parts.len() == 0 {
        Seq::empty()
    } else {
        flat(parts.drop_last()) + parts.last()
    }
}

/// One more text behind the first `i`.
pub proof fn flat_step<A>(parts: Seq<Seq<A>>, i: int)
    requires
        0 <= i < parts.len(),
    ensures
        flat(parts.take(i + 1)) == flat(parts.take(i)) + parts[i],
{
    assert(parts.take(i + 1).drop_last() =~= parts.take(i));
}

/// No text and all texts.
pub proof fn flat_ends<A>(parts: Seq<Seq<A>>)
    ensures
        flat(parts.take(0)) == Seq::<A>::empty(),
        flat(parts.take(parts.len() as int)) == flat(parts),
{
    assert(parts.take(parts.len() as int) =~= parts);
}

/// The first complaint in a list of checks.
pub open spec fn first_fault(faults: Seq<Option<Seq<char>>>) -> Option<Seq<char>>
    decreases faults.len(),
{
    if faults.len() == 0 {
        None
    } else {
        match first_fault(faults.drop_last()) {
            Some(fault) => Some(fault),
            None => faults.last(),
        }
    }
}

/// One more check behind `i` checks without complaint.
pub proof fn first_fault_step(faults: Seq<Option<Seq<char>>>, i: int)
    requires
        0 <= i < faults.len(),
        first_fault(faults.take(i)) is None,
    ensures
        first_fault(faults.take(i + 1)) == faults[i],
        faults[i] is Some ==> first_fault(faults) == faults[i],
{
    assert(faults.take(i + 1).drop_last() =~= faults.take(i));
    if faults[i] is Some {
        lemma_fault_stays(faults, i + 1);
    }
}

proof fn lemma_fault_stays(faults: Seq<Option<Seq<char>>>, n: int)
    requires
        0 <= n <= faults.len(),
        first_fault(faults.take(n)) is Some,
    ensures
        first_fault(faults) == first_fault(faults.take(n)),
    decreases faults.len(),
{
    if n == faults.len() {
        assert(faults.take(n) =~= faults);
    } else {
        assert(faults.drop_last().take(n) =~= faults.take(n));
        lemma_fault_stays(faults.drop_last(), n);
    }
}

/// No check and all checks.
pub proof fn first_fault_ends(faults: Seq<Option<Seq<char>>>)
    ensures
        first_fault(faults.take(0)) is None,
        first_fault(faults.take(faults.len() as int)) == first_fault(faults),
{
    assert(faults.take(faults.len() as int) =~= faults);
}

} // verus!
