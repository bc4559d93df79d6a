//! Decimal spelling of integers, as the emitted LLVM text writes them.
use vstd::prelude::*;

verus! {

/// The ASCII digit for `d` (meaningful for `0 <= d < 10`).
pub open spec fn digit_char(d: int) -> char {
    (d + 48) as char
}

/// The decimal digits of a natural number, most significant first, no leading zeros.
pub open spec fn dec_nat(n: nat) -> Seq<char>
    decreases n,
{
    if n < 10 {
        seq![digit_char(n as int)]
    } else {
        dec_nat(n / 10).push(digit_char((n % 10) as int))
    }
}

/// The decimal spelling of an integer: a `-` before the digits of a negative one.
pub open spec fn dec_int(i: int) -> Seq<char> {
    if i < 0 {
        seq!['-'] + dec_nat((-i) as nat)
    } else {
        dec_nat(i as nat)
    }
}

proof fn lemma_digit_char_injective(a: int, b: int)
    requires
        0 <= a < 10,
        0 <= b < 10,
        digit_char(a) == digit_char(b),
    ensures
        a == b,
{
    assert((digit_char(a) as int) == a + 48);
    assert((digit_char(b) as int) == b + 48);
}

proof fn lemma_dec_nat_len(n: nat)
    ensures
        dec_nat(n).len() >= 1,
        n >= 10 ==> dec_nat(n).len() >= 2,
    decreases n,
{
    if n >= 10 {
        lemma_dec_nat_len(n / 10);
    }
}

/// Different numbers have different decimal spellings.
pub proof fn lemma_dec_nat_injective(a: nat, b: nat)
    ensures
        dec_nat(a) == dec_nat(b) ==> a == b,
    decreases a,
{
    if dec_nat(a) == dec_nat(b) {
        lemma_dec_nat_len(a);
        lemma_dec_nat_len(b);
        if a < 10 && b < 10 {
            assert(dec_nat(a)[0] == dec_nat(b)[0]);
            lemma_digit_char_injective(a as int, b as int);
        } else if a >= 10 && b >= 10 {
            assert(dec_nat(a).drop_last() =~= dec_nat(a / 10));
            assert(dec_nat(b).drop_last() =~= dec_nat(b / 10));
            lemma_dec_nat_injective(a / 10, b / 10);
            assert(dec_nat(a).last() == dec_nat(b).last());
            lemma_digit_char_injective((a % 10) as int, (b % 10) as int);
        } else {
            assert(dec_nat(a).len() != dec_nat(b).len());
        }
    }
}

/// The one-character text of a decimal digit.
fn digit_str(d: u64) -> (r: &'static str)
    requires
        d < 10,
    ensures
        r@ == seq![digit_char(d as int)],
{
    proof {
        reveal_strlit("0");
        reveal_strlit("1");
        reveal_strlit("2");
        reveal_strlit("3");
        reveal_strlit("4");
        reveal_strlit("5");
        reveal_strlit("6");
        reveal_strlit("7");
        reveal_strlit("8");
        reveal_strlit("9");
    }
    let r = if d == 0 {
        "0"
    } else if d == 1 {
        "1"
    } else if d == 2 {
        "2"
    } else if d == 3 {
        "3"
    } else if d == 4 {
        "4"
    } else if d == 5 {
        "5"
    } else if d == 6 {
        "6"
    } else if d == 7 {
        "7"
    } else if d == 8 {
        "8"
    } else {
        "9"
    };
    assert(r@ =~= seq![digit_char(d as int)]);
    r
}

/// The decimal digits of `n`, no sign, no leading zeros (as `Display` writes
/// an unsigned integer).
pub(crate) fn u64_to_string(n: u64) -> (r: String)
    ensures
        r@ == dec_nat(n as nat),
    decreases n,
{
    if n < 10 {
        String::from_str(digit_str(n))
    } else {
        let mut s = u64_to_string(n / 10);
        s.append(digit_str(n % 10));
        assert(s@ =~= dec_nat((n / 10) as nat).push(digit_char((n % 10) as int)));
        s
    }
}

/// A `-` for a negative value, then the decimal digits of its magnitude (as
/// `Display` writes a signed integer; `i64::MIN` included).
pub(crate) fn i64_to_string(n: i64) -> (r: String)
    ensures
        r@ == dec_int(n as int),
{
    if n < 0 {
        let magnitude: u64 = (0i128 - n as i128) as u64;
        let mut s = String::from_str("-");
        proof {
            reveal_strlit("-");
        }
        s.append(u64_to_string(magnitude).as_str());
        assert(s@ =~= seq!['-'] + dec_nat((-(n as int)) as nat));
        s
    } else {
        u64_to_string(n as u64)
    }
}

} // verus!
