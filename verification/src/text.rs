//! Numbers as text.

use vstd::prelude::*;

verus! {

/// The decimal digit `digit`.
pub open spec fn digit_text(digit: nat) -> Seq<char> {
    if digit == 0 {
        "0"@
    } else if digit == 1 {
        "1"@
    } else if digit == 2 {
        "2"@
    } else if digit == 3 {
        "3"@
    } else if digit == 4 {
        "4"@
    } else if digit == 5 {
        "5"@
    } else if digit == 6 {
        "6"@
    } else if digit == 7 {
        "7"@
    } else if digit == 8 {
        "8"@
    } else {
        "9"@
    }
}

/// `n` in decimal notation, without leading zeros.
pub open spec fn decimal_text(n: nat) -> Seq<char>
    decreases n,
{
    if n < 10 {
        digit_text(n)
    } else {
        decimal_text(n / 10) + digit_text(n % 10)
    }
}

/// The numbers of `items` in decimal notation, with `separator` between
/// neighbours.
pub open spec fn joined_text(items: Seq<usize>, separator: Seq<char>) -> Seq<char>
    decreases items.len(),
{
    if items.len() == 0 {
        Seq::empty()
    } else if items.len() == 1 {
        decimal_text(items[0] as nat)
    } else {
        joined_text(items.drop_last(), separator) + separator + decimal_text(items.last() as nat)
    }
}

fn digit(value: usize) -> (text: &'static str)
    requires
        value < 10,
    ensures
        text@ == digit_text(value as nat),
{
    if value == 0 {
        "0"
    } else if value == 1 {
        "1"
    } else if value == 2 {
        "2"
    } else if value == 3 {
        "3"
    } else if value == 4 {
        "4"
    } else if value == 5 {
        "5"
    } else if value == 6 {
        "6"
    } else if value == 7 {
        "7"
    } else if value == 8 {
        "8"
    } else {
        "9"
    }
}

/// `n` in decimal notation.
pub fn decimal(n: usize) -> (text: String)
    ensures
        text@ == decimal_text(n as nat),
    decreases n,
{
    if n < 10 {
        String::from_str(digit(n))
    } else {
        let mut text = decimal(n / 10);
        text.append(digit(n % 10));
        text
    }
}

/// The numbers of `items` in decimal notation, with `separator` between
/// neighbours.
pub fn joined(items: &[usize], separator: &str) -> (text: String)
    ensures
        text@ == joined_text(items@, separator@),
{
    let mut text = String::new();
    let mut i: usize = 0;
    proof {
        assert(items@.take(0) =~= Seq::<usize>::empty());
    }
    while i < items.len()
        invariant
            i <= items@.len(),
            text@ == joined_text(items@.take(i as int), separator@),
        decreases items@.len() - i,
    {
        proof {
            let next = items@.take(i + 1);
            assert(next.drop_last() =~= items@.take(i as int));
            assert(next.last() == items@[i as int]);
            if i == 0 {
                assert(text@ + decimal_text(items@[0] as nat) =~= decimal_text(
                    items@[0] as nat,
                ));
            }
        }
        if i > 0 {
            text.append(separator);
        }
        let number = decimal(items[i]);
        text.append(number.as_str());
        i = i + 1;
    }
    proof {
        assert(items@.take(items@.len() as int) =~= items@);
    }
    text
}

} // verus!
