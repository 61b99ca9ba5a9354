//! Rendering of numbers as decimal and hexadecimal text.

use vstd::prelude::*;

verus! {

/// The character of a digit below sixteen; letters are upper case when `upper` holds.
pub open spec fn digit_char(d: int, upper: bool) -> char {
    if d == 0 { '0' } else if d == 1 { '1' } else if d == 2 { '2' } else if d == 3 { '3' }
    else if d == 4 { '4' } else if d == 5 { '5' } else if d == 6 { '6' } else if d == 7 { '7' }
    else if d == 8 { '8' } else if d == 9 { '9' }
    else if d == 10 { if upper { 'A' } else { 'a' } }
    else if d == 11 { if upper { 'B' } else { 'b' } }
    else if d == 12 { if upper { 'C' } else { 'c' } }
    else if d == 13 { if upper { 'D' } else { 'd' } }
    else if d == 14 { if upper { 'E' } else { 'e' } }
    else { if upper { 'F' } else { 'f' } }
}

/// Decimal text of a natural number, without leading zeros.
pub open spec fn decimal(n: nat) -> Seq<char>
    decreases n,
{
    if n < 10 {
        seq![digit_char(n as int, false)]
    } else {
        decimal(n / 10).push(digit_char((n % 10) as int, false))
    }
}

/// Two hexadecimal digits of a byte, high nibble first.
pub open spec fn hex_byte(b: u8, upper: bool) -> Seq<char> {
    seq![digit_char(b as int / 16, upper), digit_char(b as int % 16, upper)]
}

/// Hexadecimal text of a byte sequence, two digits per byte, in order.
pub open spec fn hex_bytes(b: Seq<u8>, upper: bool) -> Seq<char>
    decreases b.len(),
{
    if b.len() == 0 {
        Seq::empty()
    } else {
        hex_bytes(b.drop_last(), upper) + hex_byte(b.last(), upper)
    }
}

/// Appends one digit below sixteen.
pub fn push_digit(s: &mut String, d: u8, upper: bool)
    requires
        d < 16,
    ensures
        final(s)@ == old(s)@.push(digit_char(d as int, upper)),
{
    let t: &str = if d == 0 { "0" } else if d == 1 { "1" } else if d == 2 { "2" }
        else if d == 3 { "3" } else if d == 4 { "4" } else if d == 5 { "5" }
        else if d == 6 { "6" } else if d == 7 { "7" } else if d == 8 { "8" }
        else if d == 9 { "9" }
        else if d == 10 { if upper { "A" } else { "a" } }
        else if d == 11 { if upper { "B" } else { "b" } }
        else if d == 12 { if upper { "C" } else { "c" } }
        else if d == 13 { if upper { "D" } else { "d" } }
        else if d == 14 { if upper { "E" } else { "e" } }
        else { if upper { "F" } else { "f" } };
    proof {
        reveal_strlit("0"); reveal_strlit("1"); reveal_strlit("2"); reveal_strlit("3");
        reveal_strlit("4"); reveal_strlit("5"); reveal_strlit("6"); reveal_strlit("7");
        reveal_strlit("8"); reveal_strlit("9"); reveal_strlit("A"); reveal_strlit("a");
        reveal_strlit("B"); reveal_strlit("b"); reveal_strlit("C"); reveal_strlit("c");
        reveal_strlit("D"); reveal_strlit("d"); reveal_strlit("E"); reveal_strlit("e");
        reveal_strlit("F"); reveal_strlit("f");
    }
    s.append(t);
    assert(t@ == seq![digit_char(d as int, upper)]);
}

/// Appends the decimal text of `n`.
pub fn push_decimal(s: &mut String, n: u64)
    ensures
        final(s)@ == old(s)@ + decimal(n as nat),
    decreases n,
{
    if n >= 10 {
        push_decimal(s, n / 10);
    }
    push_digit(s, (n % 10) as u8, false);
    assert(final(s)@ =~= old(s)@ + decimal(n as nat));
}

/// Appends the two hexadecimal digits of a byte.
pub fn push_hex_byte(s: &mut String, b: u8, upper: bool)
    ensures
        final(s)@ == old(s)@ + hex_byte(b, upper),
{
    push_digit(s, b / 16, upper);
    push_digit(s, b % 16, upper);
    assert(final(s)@ =~= old(s)@ + hex_byte(b, upper));
}

/// Upper-case hexadecimal text of a byte sequence, two digits per byte.
pub fn hex_upper(b: &[u8]) -> (r: String)
    ensures
        r@ == hex_bytes(b@, true),
{
    let mut s = String::new();
    let mut i: usize = 0;
    while i < b.len()
        invariant
            i <= b@.len(),
            s@ == hex_bytes(b@.subrange(0, i as int), true),
        decreases b@.len() - i,
    {
        push_hex_byte(&mut s, b[i], true);
        proof {
            let p = b@.subrange(0, i as int + 1);
            assert(p.drop_last() =~= b@.subrange(0, i as int));
        }
        i = i + 1;
    }
    assert(b@.subrange(0, b@.len() as int) =~= b@);
    s
}

} // verus!
