//! Numbers that texts spell.

use vstd::prelude::*;
use vstd::string::*;

verus! {

/// The characters of a text.
pub fn characters(text: &str) -> (chars: Vec<char>)
    ensures
        chars@ == text@,
{
    broadcast use vstd::string::axiom_spec_iter;

    let mut chars: Vec<char> = Vec::new();
    for c in it: text.chars()
        invariant
            it.seq() == text@,
            chars@ =~= text@.take(it.index() as int),
    {
        chars.push(c);
    }
    chars
}

/// The number that decimal digits spell; none without digits or with other characters.
pub open spec fn digits_value(digits: Seq<char>) -> Option<nat>
    decreases digits.len(),
{
    if digits.len() == 0 {
        None
    } else {
        let d = digits.last();
        let front = if digits.len() == 1 {
            Some(0nat)
        } else {
            digits_value(digits.drop_last())
        };
        if '0' <= d && d <= '9' && front is Some {
            Some(front->0 * 10 + (d as u32 - '0' as u32) as nat)
        } else {
            None
        }
    }
}

/// The digits of a number behind a plus sign, if there is one.
pub open spec fn without_plus(word: Seq<char>) -> Seq<char> {
    if word.len() > 0 && word[0] == '+' {
        word.drop_first()
    } else {
        word
    }
}

/// The number not above a bound that a word spells.
pub open spec fn unsigned_value(word: Seq<char>, bound: nat) -> Option<nat> {
    match digits_value(without_plus(word)) {
        Some(n) => if n <= bound {
            Some(n)
        } else {
            None
        },
        None => None,
    }
}

/// The number with a sign that a word spells, within the given bounds below and above zero.
pub open spec fn signed_value(word: Seq<char>, below: nat, above: nat) -> Option<int> {
    if word.len() > 0 && word[0] == '-' {
        match digits_value(word.drop_first()) {
            Some(n) => if n <= below {
                Some(-(n as int))
            } else {
                None
            },
            None => None,
        }
    } else {
        match unsigned_value(word, above) {
            Some(n) => Some(n as int),
            None => None,
        }
    }
}

proof fn lemma_digits_grow(digits: Seq<char>, k: int)
    requires
        1 <= k <= digits.len(),
        digits_value(digits) is Some,
    ensures
        digits_value(digits.take(k)) is Some,
        digits_value(digits.take(k))->0 <= digits_value(digits)->0,
    decreases digits.len(),
{
    if k == digits.len() {
        assert(digits.take(k) =~= digits);
    } else {
        lemma_digits_grow(digits.drop_last(), k);
        assert(digits.drop_last().take(k) =~= digits.take(k));
    }
}

fn digits_number(word: &[char], from: usize) -> (number: Option<u64>)
    requires
        from <= word@.len(),
    ensures
        match digits_value(word@.subrange(from as int, word@.len() as int)) {
            Some(n) => if n <= u64::MAX {
                number == Some(n as u64)
            } else {
                number is None
            },
            None => number is None,
        },
{
    let ghost digits = word@.subrange(from as int, word@.len() as int);
    if from == word.len() {
        return None;
    }
    let mut value: u64 = 0;
    let mut i: usize = from;
    while i < word.len()
        invariant
            from <= i <= word@.len(),
            from < word@.len(),
            digits == word@.subrange(from as int, word@.len() as int),
            i > from ==> digits_value(digits.take(i - from)) == Some(value as nat),
            i == from ==> value == 0,
        decreases word@.len() - i,
    {
        let c = word[i];
        let ghost k = i - from;
        proof {
            assert(digits.take(k + 1).drop_last() =~= digits.take(k));
            assert(digits.take(k + 1).last() == c);
        }
        if c < '0' || c > '9' {
            proof {
                if digits_value(digits) is Some {
                    lemma_digits_grow(digits, k + 1);
                }
            }
            return None;
        }
        let digit: u64 = c as u64 - '0' as u64;
        let ghost next = value * 10 + digit;
        proof {
            assert(digits_value(digits.take(k + 1)) == Some(next as nat));
            if digits_value(digits) is Some {
                lemma_digits_grow(digits, k + 1);
            }
        }
        match value.checked_mul(10) {
            None => return None,
            Some(tens) => match tens.checked_add(digit) {
                None => return None,
                Some(total) => {
                    value = total;
                },
            },
        }
        i = i + 1;
    }
    proof {
        assert(digits.take(i - from) =~= digits);
    }
    Some(value)
}

pub fn unsigned_number(word: &Vec<char>) -> (number: Option<u64>)
    ensures
        match unsigned_value(word@, u64::MAX as nat) {
            Some(n) => number == Some(n as u64),
            None => number is None,
        },
{
    if word.len() > 0 && word[0] == '+' {
        proof {
            assert(word@.subrange(1, word@.len() as int) =~= word@.drop_first());
        }
        digits_number(word.as_slice(), 1)
    } else {
        proof {
            assert(word@.subrange(0, word@.len() as int) =~= word@);
        }
        digits_number(word.as_slice(), 0)
    }
}

pub fn size_number(word: &Vec<char>) -> (number: Option<usize>)
    ensures
        match unsigned_value(word@, usize::MAX as nat) {
            Some(n) => number == Some(n as usize),
            None => number is None,
        },
{
    match unsigned_number(word) {
        None => None,
        Some(n) => if n <= usize::MAX as u64 {
            Some(n as usize)
        } else {
            None
        },
    }
}

pub fn signed_number(word: &Vec<char>, below: u64, above: u64) -> (number: Option<i64>)
    requires
        below <= 0x8000_0000_0000_0000,
        above <= 0x7fff_ffff_ffff_ffff,
    ensures
        match signed_value(word@, below as nat, above as nat) {
            Some(n) => number == Some(n as i64),
            None => number is None,
        },
{
    if word.len() > 0 && word[0] == '-' {
        proof {
            assert(word@.subrange(1, word@.len() as int) =~= word@.drop_first());
        }
        match digits_number(word.as_slice(), 1) {
            None => None,
            Some(n) => if n <= below {
                let m: i128 = n as i128;
                Some((0 - m) as i64)
            } else {
                None
            },
        }
    } else {
        match unsigned_number(word) {
            None => None,
            Some(n) => if n <= above {
                Some(n as i64)
            } else {
                None
            },
        }
    }
}

/// The machine integer that a text spells.
pub open spec fn integer_value(text: Seq<char>) -> Option<i64> {
    match signed_value(text, 0x8000_0000_0000_0000, 0x7fff_ffff_ffff_ffff) {
        Some(n) => Some(n as i64),
        None => None,
    }
}

pub fn integer_number(text: &str) -> (number: Option<i64>)
    ensures
        number == integer_value(text@),
{
    signed_number(&characters(text), 0x8000_0000_0000_0000, 0x7fff_ffff_ffff_ffff)
}

} // verus!
