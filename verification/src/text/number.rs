//! Decimal numerals.
use vstd::prelude::*;
use vstd::string::*;

verus! {

broadcast use vstd::string::group_string_axioms;

/// The character of a digit.
pub open spec fn digit(d: int) -> char {
    ((d + 48) as u32) as char
}

/// The decimal numeral of `n`, without leading zeros.
pub open spec fn decimal(n: nat) -> Seq<char>
    decreases n,
{
    if n < 10 {
        seq![digit(n as int)]
    } else {
        decimal(n / 10).push(digit((n % 10) as int))
    }
}

/// A numeral is made of digits.
pub proof fn lemma_decimal_digits(n: nat)
    ensures
        decimal(n).len() > 0,
        forall|i: int|
            0 <= i < decimal(n).len() ==> '0' <= #[trigger] decimal(n)[i] && decimal(n)[i] <= '9',
    decreases n,
{
    if n >= 10 {
        lemma_decimal_digits(n / 10);
    }
}

/// `n` zeros.
pub open spec fn zeros(n: int) -> Seq<char> {
    if n <= 0 {
        Seq::empty()
    } else {
        Seq::new(n as nat, |i: int| '0')
    }
}

/// The decimal numeral of `n` filled with zeros on the left up to `width` characters.
pub open spec fn padded_decimal(n: nat, width: int) -> Seq<char> {
    zeros(width - decimal(n).len()) + decimal(n)
}

fn digit_char(d: u64) -> (c: char)
    requires
        d < 10,
    ensures
        c == digit(d as int),
{
    match d {
        0 => '0',
        1 => '1',
        2 => '2',
        3 => '3',
        4 => '4',
        5 => '5',
        6 => '6',
        7 => '7',
        8 => '8',
        _ => '9',
    }
}

/// The decimal numeral of `n`.
pub fn decimal_text(n: u64) -> (r: String)
    ensures
        r@ == decimal(n as nat),
    decreases n,
{
    if n < 10 {
        let mut s = String::new();
        s.push(digit_char(n));
        assert(s@ =~= decimal(n as nat));
        s
    } else {
        let mut s = decimal_text(n / 10);
        s.push(digit_char(n % 10));
        s
    }
}

/// The decimal numeral of `n` filled with zeros up to `width` characters.
pub fn padded_decimal_text(n: u64, width: usize) -> (r: String)
    ensures
        r@ == padded_decimal(n as nat, width as int),
{
    let d = decimal_text(n);
    let len: usize = d.as_str().unicode_len();
    let mut s = String::new();
    let mut k: usize = len;
    assert(s@ =~= zeros(k - len));
    while k < width
        invariant
            len <= k,
            k <= width || k == len,
            s@ == zeros(k - len),
        decreases width - k,
    {
        s.push('0');
        k += 1;
        assert(s@ =~= zeros(k - len));
    }
    assert(zeros(k - len) =~= zeros(width - len));
    s.append(d.as_str());
    s
}

/// The number that a numeral stands for.
pub open spec fn numeral_value(s: Seq<char>) -> nat
    decreases s.len(),
{
    if s.len() == 0 {
        0
    } else {
        numeral_value(s.drop_last()) * 10 + (s.last() as u32 - 48) as nat
    }
}

/// A numeral can be read back.
pub proof fn decimal_reads_back(n: nat)
    ensures
        numeral_value(decimal(n)) == n,
        decimal(n).len() > 0,
    decreases n,
{
    if n < 10 {
        assert(decimal(n).drop_last() =~= Seq::<char>::empty());
        assert(numeral_value(Seq::<char>::empty()) == 0);
        assert(decimal(n).last() == digit(n as int));
        assert(digit(n as int) as u32 == n + 48);
    } else {
        decimal_reads_back(n / 10);
        assert(decimal(n).drop_last() =~= decimal(n / 10));
        assert(decimal(n).last() == digit((n % 10) as int));
        assert(digit((n % 10) as int) as u32 == n % 10 + 48);
    }
}

proof fn lemma_zeros_add_nothing(k: int, s: Seq<char>)
    ensures
        numeral_value(zeros(k) + s) == numeral_value(s),
    decreases s.len(), k,
{
    if s.len() == 0 {
        if k > 0 {
            lemma_zeros_add_nothing(k - 1, s);
            assert((zeros(k) + s).drop_last() =~= zeros(k - 1) + s);
            assert((zeros(k) + s).last() == '0');
        } else {
            assert(zeros(k) + s =~= s);
        }
    } else {
        lemma_zeros_add_nothing(k, s.drop_last());
        assert((zeros(k) + s).drop_last() =~= zeros(k) + s.drop_last());
        assert((zeros(k) + s).last() == s.last());
    }
}

/// Different numbers have different padded numerals.
pub proof fn padded_decimals_differ(a: nat, b: nat, width: int)
    requires
        padded_decimal(a, width) == padded_decimal(b, width),
    ensures
        a == b,
{
    decimal_reads_back(a);
    decimal_reads_back(b);
    lemma_zeros_add_nothing(width - decimal(a).len(), decimal(a));
    lemma_zeros_add_nothing(width - decimal(b).len(), decimal(b));
}

}
