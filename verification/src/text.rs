//! Building text: decimal numbers and bytes read as characters.

use vstd::prelude::*;

verus! {

/// `String::push` appends one character.
pub assume_specification[ String::push ](s: &mut String, c: char)
    ensures
        final(s)@ == old(s)@.push(c),
;

/// `String::pop` removes the last character and returns it, or returns
/// `None` and changes nothing when the string is empty.
pub assume_specification[ String::pop ](s: &mut String) -> (c: Option<char>)
    ensures
        old(s)@.len() > 0 ==> c == Some(old(s)@.last()) && final(s)@ == old(s)@.drop_last(),
        old(s)@.len() == 0 ==> c is None && final(s)@ == old(s)@,
;

/// `String::clear` leaves the string empty.
pub assume_specification[ String::clear ](s: &mut String)
    ensures
        final(s)@ == Seq::<char>::empty(),
;

/// The character for one decimal digit.
pub open spec fn digit_char(d: int) -> char {
    if d == 0 {
        '0'
    } else if d == 1 {
        '1'
    } else if d == 2 {
        '2'
    } else if d == 3 {
        '3'
    } else if d == 4 {
        '4'
    } else if d == 5 {
        '5'
    } else if d == 6 {
        '6'
    } else if d == 7 {
        '7'
    } else if d == 8 {
        '8'
    } else {
        '9'
    }
}

/// A natural number in decimal, without leading zeros.
pub open spec fn nat_text(n: nat) -> Seq<char>
    decreases n,
{
    if n < 10 {
        seq![digit_char(n as int)]
    } else {
        nat_text(n / 10).push(digit_char((n % 10) as int))
    }
}

/// An integer in decimal, with a minus sign in front when it is negative.
pub open spec fn int_text(n: int) -> Seq<char> {
    if n < 0 {
        seq!['-'] + nat_text((-n) as nat)
    } else {
        nat_text(n as nat)
    }
}

/// Each byte read as the character with that code point.
pub open spec fn chars_of(data: Seq<u8>) -> Seq<char> {
    data.map_values(|b: u8| b as char)
}

/// The character for the digit `d`.
fn digit(d: u64) -> (c: char)
    requires
        d < 10,
    ensures
        c == digit_char(d as int),
{
    if d == 0 {
        '0'
    } else if d == 1 {
        '1'
    } else if d == 2 {
        '2'
    } else if d == 3 {
        '3'
    } else if d == 4 {
        '4'
    } else if d == 5 {
        '5'
    } else if d == 6 {
        '6'
    } else if d == 7 {
        '7'
    } else if d == 8 {
        '8'
    } else {
        '9'
    }
}

/// The digits of `n` behind those of `rest`, where `low` holds the digits
/// of `n` below `rest`, least significant first.
spec fn joined(rest: nat, low: Seq<char>) -> Seq<char> {
    (if rest > 0 {
        nat_text(rest)
    } else {
        Seq::empty()
    }) + low.reverse()
}

/// Appends `n` in decimal to `out`.
pub fn push_decimal(out: &mut String, n: u64)
    ensures
        final(out)@ == old(out)@ + nat_text(n as nat),
{
    let mut low: Vec<char> = Vec::new();
    low.push(digit(n % 10));
    let mut rest: u64 = n / 10;
    assert(joined(rest as nat, low@) =~= nat_text(n as nat));
    while rest > 0
        invariant
            low@.len() > 0,
            joined(rest as nat, low@) == nat_text(n as nat),
        decreases rest,
    {
        let ghost before = low@;
        let ghost r = rest;
        low.push(digit(rest % 10));
        rest = rest / 10;
        assert(joined(rest as nat, low@) =~= joined(r as nat, before)) by {
            let d = digit_char((r % 10) as int);
            assert(nat_text(r as nat) =~= (if rest > 0 {
                nat_text(rest as nat)
            } else {
                Seq::empty()
            }) + seq![d]);
        }
    }
    let ghost text = low@.reverse();
    let mut i: usize = low.len();
    while i > 0
        invariant
            i <= low@.len(),
            text == low@.reverse(),
            out@ == old(out)@ + text.take(low@.len() - i),
        decreases i,
    {
        i -= 1;
        out.push(low[i]);
    }
}

/// The text whose characters are the bytes of `data`, each taken as a code
/// point.
pub fn latin1_text(data: &[u8]) -> (text: String)
    ensures
        text@ == chars_of(data@),
{
    let mut text = String::new();
    let n: usize = data.len();
    let mut i: usize = 0;
    while i < n
        invariant
            i <= n,
            n == data@.len(),
            text@ == chars_of(data@.take(i as int)),
        decreases n - i,
    {
        text.push(data[i] as char);
        i += 1;
    }
    text
}

} // verus!
