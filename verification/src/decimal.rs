//! Decimal notation of unsigned integers.

use vstd::prelude::*;

verus! {

/// The character of a decimal digit.
pub open spec fn digit_char(d: nat) -> char {
    (48 + d) as char
}

/// The decimal notation of `n`, without sign or leading zeros.
pub open spec fn decimal(n: nat) -> Seq<char>
    decreases n,
{
    if n < 10 {
        seq![digit_char(n)]
    } else {
        decimal(n / 10).push(digit_char(n % 10))
    }
}

fn digit_str(d: u8) -> (r: &'static str)
    requires
        d < 10,
    ensures
        r@ == seq![digit_char(d as nat)],
{
    proof {
        reveal_strlit("0");
        reveal_strlit("1");
        reveal_strlit("2");
        reveal_strlit("3");
        reveal_strlit("4");
        reveal_strlit("5");
        reveal_strlit("6");
        reveal_strlit("7");
        reveal_strlit("8");
        reveal_strlit("9");
    }
    match d {
        0 => "0",
        1 => "1",
        2 => "2",
        3 => "3",
        4 => "4",
        5 => "5",
        6 => "6",
        7 => "7",
        8 => "8",
        _ => "9",
    }
}

/// Decimal notation is never empty, and is one character long exactly
/// below 10.
pub proof fn lemma_decimal_len(n: nat)
    ensures
        decimal(n).len() >= 1,
        decimal(n).len() == 1 <==> n < 10,
    decreases n,
{
    if n >= 10 {
        lemma_decimal_len(n / 10);
    }
}

/// Different numbers have different decimal notations.
pub proof fn lemma_decimal_injective(a: nat, b: nat)
    requires
        decimal(a) == decimal(b),
    ensures
        a == b,
    decreases a,
{
    lemma_decimal_len(a);
    lemma_decimal_len(b);
    if a < 10 && b < 10 {
        assert(decimal(a)[0] == digit_char(a));
        assert(decimal(b)[0] == digit_char(b));
    } else if a >= 10 && b >= 10 {
        let da = decimal(a);
        assert(da.last() == digit_char(a % 10));
        assert(decimal(b).last() == digit_char(b % 10));
        assert(da.drop_last() =~= decimal(a / 10));
        assert(decimal(b).drop_last() =~= decimal(b / 10));
        lemma_decimal_injective(a / 10, b / 10);
    }
}

/// The digits of `n`, least significant first.
spec fn reversed_digits(n: nat) -> Seq<u8>
    decreases n,
{
    if n < 10 {
        seq![n as u8]
    } else {
        seq![(n % 10) as u8] + reversed_digits(n / 10)
    }
}

/// Appends the decimal notation of `n` to `s`.
pub fn push_decimal(s: &mut String, n: u64)
    ensures
        final(s)@ == old(s)@ + decimal(n as nat),
{
    let mut digits: Vec<u8> = Vec::new();
    let mut m: u64 = n;
    // digits@ are the low digits of n, least significant first; m holds the rest
    proof {
        assert(reversed_digits(n as nat) == digits@ + reversed_digits(m as nat));
    }
    while m >= 10
        invariant
            reversed_digits(n as nat) == digits@ + reversed_digits(m as nat),
        decreases m,
    {
        let d: u8 = (m % 10) as u8;
        proof {
            assert(reversed_digits(m as nat) == seq![d] + reversed_digits((m / 10) as nat));
            assert(digits@ + (seq![d] + reversed_digits((m / 10) as nat))
                == digits@.push(d) + reversed_digits((m / 10) as nat));
        }
        digits.push(d);
        m = m / 10;
    }
    let d: u8 = m as u8;
    proof {
        assert(reversed_digits(m as nat) == seq![d]);
    }
    digits.push(d);
    assert(digits@ == reversed_digits(n as nat));
    let ghost start = s@;
    let mut i: usize = digits.len();
    proof {
        lemma_decimal_from_reversed(n as nat);
    }
    while i > 0
        invariant
            i <= digits@.len(),
            digits@ == reversed_digits(n as nat),
            forall|k: int| 0 <= k < digits@.len() ==> digits@[k] < 10,
            s@ == start + digits_to_chars(digits@.subrange(i as int, digits@.len() as int).reverse()),
        decreases i,
    {
        i = i - 1;
        let ds = digit_str(digits[i]);
        s.append(ds);
        proof {
            let tail = digits@.subrange(i as int, digits@.len() as int);
            let tail1 = digits@.subrange(i + 1, digits@.len() as int);
            assert(tail == seq![digits@[i as int]] + tail1);
            assert(tail.reverse() == tail1.reverse().push(digits@[i as int])) by {
                assert(tail.reverse() =~= tail1.reverse().push(digits@[i as int]));
            }
            lemma_digits_to_chars_push(tail1.reverse(), digits@[i as int]);
        }
    }
    assert(digits@.subrange(0, digits@.len() as int) == digits@);
}

/// Characters of a sequence of digits, most significant first.
spec fn digits_to_chars(ds: Seq<u8>) -> Seq<char>
    decreases ds.len(),
{
    if ds.len() == 0 {
        Seq::empty()
    } else {
        digits_to_chars(ds.drop_last()).push(digit_char(ds.last() as nat))
    }
}

proof fn lemma_digits_to_chars_push(ds: Seq<u8>, d: u8)
    ensures
        digits_to_chars(ds.push(d)) == digits_to_chars(ds).push(digit_char(d as nat)),
{
    assert(ds.push(d).drop_last() =~= ds);
}

proof fn lemma_decimal_from_reversed(n: nat)
    ensures
        digits_to_chars(reversed_digits(n).reverse()) == decimal(n),
        forall|k: int| 0 <= k < reversed_digits(n).len() ==> reversed_digits(n)[k] < 10,
    decreases n,
{
    if n < 10 {
        assert(reversed_digits(n).reverse() =~= seq![n as u8]);
        assert(seq![n as u8].drop_last() =~= Seq::<u8>::empty());
        assert(seq![n as u8].last() as nat == n);
        assert(digits_to_chars(Seq::<u8>::empty()) == Seq::<char>::empty());
        assert(digits_to_chars(seq![n as u8]) == Seq::<char>::empty().push(digit_char(n)));
        assert(Seq::<char>::empty().push(digit_char(n)) =~= seq![digit_char(n)]);
    } else {
        lemma_decimal_from_reversed(n / 10);
        let r = reversed_digits(n);
        let d = (n % 10) as u8;
        assert(r == seq![d] + reversed_digits(n / 10));
        assert(r.reverse() =~= reversed_digits(n / 10).reverse().push(d));
        lemma_digits_to_chars_push(reversed_digits(n / 10).reverse(), d);
        assert(d as nat == n % 10);
        assert forall|k: int| 0 <= k < r.len() implies r[k] < 10 by {
            if k > 0 {
                assert(r[k] == reversed_digits(n / 10)[k - 1]);
            }
        }
    }
}

} // verus!
