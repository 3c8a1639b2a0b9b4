use vstd::prelude::*;
use vstd::string::StringExecFns;

verus! {

/// The decimal digit character for a value in `0 .. 10`.
pub open spec fn digit_char(d: int) -> char {
    if d == 0 {
        '0'
    } else if d == 1 {
        '1'
    } else if d == 2 {
        '2'
    } else if d == 3 {
        '3'
    } else if d == 4 {
        '4'
    } else if d == 5 {
        '5'
    } else if d == 6 {
        '6'
    } else if d == 7 {
        '7'
    } else if d == 8 {
        '8'
    } else {
        '9'
    }
}

/// The decimal digits of a nonnegative integer, most significant first.
pub open spec fn dec_digits(n: int) -> Seq<char>
    decreases n,
{
    if n < 10 {
        seq![digit_char(n)]
    } else {
        dec_digits(n / 10).push(digit_char(n % 10))
    }
}

/// The decimal rendering of a signed integer: a leading minus sign for a
/// negative value, the plain digits otherwise.
pub open spec fn signed_dec_digits(n: int) -> Seq<char> {
    if n < 0 {
        seq!['-'] + dec_digits(-n)
    } else {
        dec_digits(n)
    }
}

pub open spec fn is_dec_digit(c: char) -> bool {
    c == '0' || c == '1' || c == '2' || c == '3' || c == '4' || c == '5' || c == '6' || c == '7'
        || c == '8' || c == '9'
}

/// A text in canonical decimal form: the rendering of some machine-word
/// count, hence nonempty, digits only, and without leading zeros.
pub open spec fn is_decimal_rendering(s: Seq<char>) -> bool {
    exists|n: u128| s == dec_digits(n as int)
}

/// A nonnegative integer renders as at least one character, all of them digits.
pub proof fn lemma_dec_digits_wf(n: int)
    requires
        0 <= n,
    ensures
        dec_digits(n).len() >= 1,
        forall|i: int| 0 <= i < dec_digits(n).len() ==> is_dec_digit(#[trigger] dec_digits(n)[i]),
    decreases n,
{
    if n >= 10 {
        lemma_dec_digits_wf(n / 10);
    }
}

/// No digit character is a comma, so a decimal rendering never contains one.
pub proof fn lemma_dec_digits_no_comma(n: int)
    requires
        0 <= n,
    ensures
        forall|i: int| 0 <= i < dec_digits(n).len() ==> dec_digits(n)[i] != ',',
{
    lemma_dec_digits_wf(n);
}

/// A signed rendering holds no comma either: its sign is a minus, the rest
/// are digits.
pub proof fn lemma_signed_dec_no_comma(n: int)
    ensures
        forall|i: int|
            0 <= i < signed_dec_digits(n).len() ==> #[trigger] signed_dec_digits(n)[i] != ',',
{
    if n < 0 {
        lemma_dec_digits_no_comma(-n);
        assert forall|i: int|
            0 <= i < signed_dec_digits(n).len() implies #[trigger] signed_dec_digits(n)[i]
            != ',' by {
            if i > 0 {
                assert(signed_dec_digits(n)[i] == dec_digits(-n)[i - 1]);
            }
        }
    } else {
        lemma_dec_digits_no_comma(n);
    }
}

/// Two distinct nonnegative integers never share a decimal rendering.
pub proof fn lemma_dec_digits_injective(a: int, b: int)
    requires
        0 <= a,
        0 <= b,
        dec_digits(a) == dec_digits(b),
    ensures
        a == b,
    decreases a,
{
    lemma_dec_digits_wf(a / 10);
    lemma_dec_digits_wf(b / 10);
    if a < 10 && b < 10 {
        assert(dec_digits(a)[0] == digit_char(a));
        assert(dec_digits(b)[0] == digit_char(b));
    } else if a < 10 {
        assert(dec_digits(a).len() == 1);
        assert(dec_digits(b).len() == dec_digits(b / 10).len() + 1);
    } else if b < 10 {
        assert(dec_digits(b).len() == 1);
        assert(dec_digits(a).len() == dec_digits(a / 10).len() + 1);
    } else {
        assert(dec_digits(a).drop_last() =~= dec_digits(a / 10));
        assert(dec_digits(b).drop_last() =~= dec_digits(b / 10));
        assert(dec_digits(a).last() == digit_char(a % 10));
        assert(dec_digits(b).last() == digit_char(b % 10));
        assert(a % 10 == b % 10);
        lemma_dec_digits_injective(a / 10, b / 10);
    }
}

/// Two distinct integers never share a signed decimal rendering.
pub proof fn lemma_signed_dec_injective(a: int, b: int)
    requires
        signed_dec_digits(a) == signed_dec_digits(b),
    ensures
        a == b,
{
    lemma_dec_digits_wf(if a < 0 {
        -a
    } else {
        a
    });
    lemma_dec_digits_wf(if b < 0 {
        -b
    } else {
        b
    });
    if a < 0 && b < 0 {
        assert(dec_digits(-a) =~= signed_dec_digits(a).skip(1));
        assert(dec_digits(-b) =~= signed_dec_digits(b).skip(1));
        lemma_dec_digits_injective(-a, -b);
    } else if a < 0 {
        assert(signed_dec_digits(a)[0] == '-');
        assert(signed_dec_digits(b)[0] == dec_digits(b)[0]);
        assert(is_dec_digit(dec_digits(b)[0]));
    } else if b < 0 {
        assert(signed_dec_digits(b)[0] == '-');
        assert(signed_dec_digits(a)[0] == dec_digits(a)[0]);
        assert(is_dec_digit(dec_digits(a)[0]));
    } else {
        lemma_dec_digits_injective(a, b);
    }
}

fn digit_str(d: u128) -> (r: &'static str)
    requires
        d < 10,
    ensures
        r@ == seq![digit_char(d as int)],
{
    let r: &'static str = if d == 0 {
        "0"
    } else if d == 1 {
        "1"
    } else if d == 2 {
        "2"
    } else if d == 3 {
        "3"
    } else if d == 4 {
        "4"
    } else if d == 5 {
        "5"
    } else if d == 6 {
        "6"
    } else if d == 7 {
        "7"
    } else if d == 8 {
        "8"
    } else {
        "9"
    };
    proof {
        reveal_strlit("0");
        reveal_strlit("1");
        reveal_strlit("2");
        reveal_strlit("3");
        reveal_strlit("4");
        reveal_strlit("5");
        reveal_strlit("6");
        reveal_strlit("7");
        reveal_strlit("8");
        reveal_strlit("9");
        assert(r@ =~= seq![digit_char(d as int)]);
    }
    r
}

pub fn u128_to_decimal(n: u128) -> (r: String)
    ensures
        r@ == dec_digits(n as int),
    decreases n,
{
    if n < 10 {
        digit_str(n).to_owned()
    } else {
        let mut r = u128_to_decimal(n / 10);
        r.append(digit_str(n % 10));
        proof {
            assert(r@ =~= dec_digits(n as int));
        }
        r
    }
}

pub fn u64_to_decimal(n: u64) -> (r: String)
    ensures
        r@ == dec_digits(n as int),
{
    u128_to_decimal(n as u128)
}

pub fn i32_to_decimal(n: i32) -> (r: String)
    ensures
        r@ == signed_dec_digits(n as int),
{
    if n < 0 {
        let mag: i64 = -(n as i64);
        let digits = u128_to_decimal(mag as u128);
        let mut r = "-".to_owned();
        r.append(digits.as_str());
        proof {
            reveal_strlit("-");
            assert(r@ =~= signed_dec_digits(n as int));
        }
        r
    } else {
        let r = u128_to_decimal(n as u128);
        r
    }
}

} // verus!
