//! Building the strings that the library hands out: URLs and decimal numbers.
use vstd::prelude::*;
use vstd::string::StringExecFns;

verus! {

/// The character of a decimal digit.
pub open spec fn digit_char(d: nat) -> char {
    if d == 0 {
        '0'
    } else if d == 1 {
        '1'
    } else if d == 2 {
        '2'
    } else if d == 3 {
        '3'
    } else if d == 4 {
        '4'
    } else if d == 5 {
        '5'
    } else if d == 6 {
        '6'
    } else if d == 7 {
        '7'
    } else if d == 8 {
        '8'
    } else {
        '9'
    }
}

/// The decimal digits of `n`, most significant first, with no sign and no padding.
pub open spec fn decimal(n: nat) -> Seq<char>
    decreases n,
{
    if n < 10 {
        seq![digit_char(n)]
    } else {
        decimal(n / 10).push(digit_char(n % 10))
    }
}

/// The one-character text of a decimal digit.
fn digit_text(d: u128) -> (r: &'static str)
    requires
        d < 10,
    ensures
        r@ == seq![digit_char(d as nat)],
{
    proof {
        reveal_strlit("0");
        reveal_strlit("1");
        reveal_strlit("2");
        reveal_strlit("3");
        reveal_strlit("4");
        reveal_strlit("5");
        reveal_strlit("6");
        reveal_strlit("7");
        reveal_strlit("8");
        reveal_strlit("9");
    }
    let r = if d == 0 {
        "0"
    } else if d == 1 {
        "1"
    } else if d == 2 {
        "2"
    } else if d == 3 {
        "3"
    } else if d == 4 {
        "4"
    } else if d == 5 {
        "5"
    } else if d == 6 {
        "6"
    } else if d == 7 {
        "7"
    } else if d == 8 {
        "8"
    } else {
        "9"
    };
    proof {
        assert(r@ =~= seq![digit_char(d as nat)]);
    }
    r
}

/// `n` in decimal, with no sign and no padding.
pub fn u128_text(n: u128) -> (r: String)
    ensures
        r@ == decimal(n as nat),
    decreases n,
{
    if n < 10 {
        digit_text(n).to_owned()
    } else {
        let mut r = u128_text(n / 10);
        push_text(&mut r, digit_text(n % 10));
        proof {
            assert(r@ =~= decimal(n as nat));
        }
        r
    }
}

/// Appends `tail` to `s`.
pub fn push_text(s: &mut String, tail: &str)
    ensures
        final(s)@ == old(s)@ + tail@,
{
    s.append(tail);
}

/// `a` followed by `b`.
pub fn concat(a: &str, b: &str) -> (r: String)
    ensures
        r@ == a@ + b@,
{
    let mut r = a.to_owned();
    push_text(&mut r, b);
    r
}

/// `a`, then `b`, then `c`.
pub fn concat3(a: &str, b: &str, c: &str) -> (r: String)
    ensures
        r@ == a@ + b@ + c@,
{
    let mut r = a.to_owned();
    push_text(&mut r, b);
    push_text(&mut r, c);
    r
}

/// `v` in decimal, with a leading `-` where it is negative.
pub open spec fn signed_decimal(v: int) -> Seq<char> {
    if v < 0 {
        seq!['-'] + decimal((-v) as nat)
    } else {
        decimal(v as nat)
    }
}

/// `v` hundredths written with two decimals: `-20.00` for `-2000`.
pub open spec fn centi_decimal(v: int) -> Seq<char> {
    let a: nat = if v < 0 {
        (-v) as nat
    } else {
        v as nat
    };
    (if v < 0 {
        seq!['-']
    } else {
        Seq::empty()
    }) + decimal(a / 100) + seq!['.', digit_char((a % 100) / 10), digit_char(a % 10)]
}

pub fn signed_text(v: i128) -> (r: String)
    requires
        v > i128::MIN,
    ensures
        r@ == signed_decimal(v as int),
{
    if v < 0 {
        let digits = u128_text((-v) as u128);
        let r = concat("-", digits.as_str());
        proof {
            reveal_strlit("-");
            assert(r@ =~= signed_decimal(v as int));
        }
        r
    } else {
        u128_text(v as u128)
    }
}

pub fn centi_text(v: i128) -> (r: String)
    requires
        v > i128::MIN,
    ensures
        r@ == centi_decimal(v as int),
{
    let a: u128 = if v < 0 {
        (-v) as u128
    } else {
        v as u128
    };
    let whole = u128_text(a / 100);
    let tens = u128_text((a % 100) / 10);
    let ones = u128_text(a % 10);
    proof {
        assert(decimal(((a % 100) / 10) as nat) == seq![digit_char(((a % 100) / 10) as nat)]);
        assert(decimal((a % 10) as nat) == seq![digit_char((a % 10) as nat)]);
    }
    let mut r = if v < 0 {
        concat("-", whole.as_str())
    } else {
        whole
    };
    push_text(&mut r, ".");
    push_text(&mut r, tens.as_str());
    push_text(&mut r, ones.as_str());
    proof {
        reveal_strlit("-");
        reveal_strlit(".");
        assert(r@ =~= centi_decimal(v as int));
    }
    r
}

} // verus!
