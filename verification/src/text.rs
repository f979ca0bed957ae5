use vstd::prelude::*;

verus! {

/// The lower-case hexadecimal digit for `n` (`0 <= n < 16`).
pub open spec fn hex_digit(n: int) -> char {
    if n == 0 { '0' }
    else if n == 1 { '1' }
    else if n == 2 { '2' }
    else if n == 3 { '3' }
    else if n == 4 { '4' }
    else if n == 5 { '5' }
    else if n == 6 { '6' }
    else if n == 7 { '7' }
    else if n == 8 { '8' }
    else if n == 9 { '9' }
    else if n == 10 { 'a' }
    else if n == 11 { 'b' }
    else if n == 12 { 'c' }
    else if n == 13 { 'd' }
    else if n == 14 { 'e' }
    else { 'f' }
}

/// A byte as exactly two lower-case hexadecimal digits (`{:02x}`).
pub open spec fn hex2(b: u8) -> Seq<char> {
    seq![hex_digit(b as int / 16), hex_digit(b as int % 16)]
}

/// The decimal digits of `n`, most significant first, without leading zeros.
pub open spec fn decimal(n: nat) -> Seq<char>
    decreases n,
{
    if n < 10 {
        seq![hex_digit(n as int)]
    } else {
        decimal(n / 10) + seq![hex_digit((n % 10) as int)]
    }
}

/// A string of one hexadecimal digit.
pub fn hex_digit_str(n: u8) -> (s: &'static str)
    requires
        n < 16,
    ensures
        s@ == seq![hex_digit(n as int)],
{
    if n == 0 { proof { reveal_strlit("0"); } "0" }
    else if n == 1 { proof { reveal_strlit("1"); } "1" }
    else if n == 2 { proof { reveal_strlit("2"); } "2" }
    else if n == 3 { proof { reveal_strlit("3"); } "3" }
    else if n == 4 { proof { reveal_strlit("4"); } "4" }
    else if n == 5 { proof { reveal_strlit("5"); } "5" }
    else if n == 6 { proof { reveal_strlit("6"); } "6" }
    else if n == 7 { proof { reveal_strlit("7"); } "7" }
    else if n == 8 { proof { reveal_strlit("8"); } "8" }
    else if n == 9 { proof { reveal_strlit("9"); } "9" }
    else if n == 10 { proof { reveal_strlit("a"); } "a" }
    else if n == 11 { proof { reveal_strlit("b"); } "b" }
    else if n == 12 { proof { reveal_strlit("c"); } "c" }
    else if n == 13 { proof { reveal_strlit("d"); } "d" }
    else if n == 14 { proof { reveal_strlit("e"); } "e" }
    else { proof { reveal_strlit("f"); } "f" }
}

/// Appends the two lower-case hexadecimal digits of `b` to `s`.
pub fn push_hex2(s: &mut String, b: u8)
    ensures
        final(s)@ == old(s)@ + hex2(b),
{
    let hi = hex_digit_str(b / 16);
    let lo = hex_digit_str(b % 16);
    s.append(hi);
    s.append(lo);
}

/// `0x` followed by two lower-case hexadecimal digits (`{:#04x}` of a byte).
pub fn hex_byte_prefixed(b: u8) -> (s: String)
    ensures
        s@ == seq!['0', 'x'] + hex2(b),
{
    let mut s = String::new();
    proof { reveal_strlit("0x"); }
    s.append("0x");
    push_hex2(&mut s, b);
    s
}

/// Appends the decimal representation of `n` to `s`.
pub fn push_decimal(s: &mut String, n: u64)
    ensures
        final(s)@ == old(s)@ + decimal(n as nat),
    decreases n,
{
    if n < 10 {
        s.append(hex_digit_str(n as u8));
    } else {
        push_decimal(s, n / 10);
        s.append(hex_digit_str((n % 10) as u8));
    }
}

/// The decimal representation of `n` (`{}` of an unsigned integer).
pub fn decimal_string(n: u64) -> (s: String)
    ensures
        s@ == decimal(n as nat),
{
    let mut s = String::new();
    push_decimal(&mut s, n);
    s
}

/// Pushing onto a vector adds the pushed item's deep view at the end of the
/// vector's deep view.
pub proof fn lemma_push_deep_view<T: DeepView>(before: Vec<T>, after: Vec<T>, x: T)
    requires
        after@ == before@.push(x),
    ensures
        after.deep_view() == before.deep_view().push(x.deep_view()),
{
    assert(after.deep_view() =~= before.deep_view().push(x.deep_view()));
}

/// Different digits are written differently.
pub proof fn lemma_hex_digit_injective(n: int, m: int)
    requires
        0 <= n < 16,
        0 <= m < 16,
        hex_digit(n) == hex_digit(m),
    ensures
        n == m,
{
}

/// Different bytes are written as different pairs of digits.
pub proof fn lemma_hex2_injective(a: u8, b: u8)
    requires
        hex2(a) == hex2(b),
    ensures
        a == b,
{
    assert(hex2(a)[0] == hex2(b)[0]);
    assert(hex2(a)[1] == hex2(b)[1]);
    lemma_hex_digit_injective(a as int / 16, b as int / 16);
    lemma_hex_digit_injective(a as int % 16, b as int % 16);
}

} // verus!
