use vstd::prelude::*;
use vstd::string::*;

verus! {

/// The character of a decimal digit.
pub open spec fn digit_char(d: nat) -> char {
    if d == 0 {
        '0'
    } else if d == 1 {
        '1'
    } else if d == 2 {
        '2'
    } else if d == 3 {
        '3'
    } else if d == 4 {
        '4'
    } else if d == 5 {
        '5'
    } else if d == 6 {
        '6'
    } else if d == 7 {
        '7'
    } else if d == 8 {
        '8'
    } else {
        '9'
    }
}

/// Decimal digits of a natural number, most significant first, no leading zeros.
pub open spec fn decimal(n: nat) -> Seq<char>
    decreases n,
{
    if n < 10 {
        seq![digit_char(n)]
    } else {
        decimal(n / 10) + seq![digit_char(n % 10)]
    }
}

/// Decimal form of an integer, with a leading minus sign when negative.
pub open spec fn int_text(n: int) -> Seq<char> {
    if n < 0 {
        "-"@ + decimal((-n) as nat)
    } else {
        decimal(n as nat)
    }
}

/// `s` left-padded with zeros to at least `width` characters.
pub open spec fn zero_pad(s: Seq<char>, width: nat) -> Seq<char> {
    if s.len() >= width {
        s
    } else {
        Seq::new((width - s.len()) as nat, |i: int| '0') + s
    }
}

fn digit_str(d: u64) -> (r: &'static str)
    requires
        d < 10,
    ensures
        r@ == seq![digit_char(d as nat)],
{
    proof {
        reveal_strlit("0");
        reveal_strlit("1");
        reveal_strlit("2");
        reveal_strlit("3");
        reveal_strlit("4");
        reveal_strlit("5");
        reveal_strlit("6");
        reveal_strlit("7");
        reveal_strlit("8");
        reveal_strlit("9");
    }
    if d == 0 {
        "0"
    } else if d == 1 {
        "1"
    } else if d == 2 {
        "2"
    } else if d == 3 {
        "3"
    } else if d == 4 {
        "4"
    } else if d == 5 {
        "5"
    } else if d == 6 {
        "6"
    } else if d == 7 {
        "7"
    } else if d == 8 {
        "8"
    } else {
        "9"
    }
}

/// Decimal text of an unsigned integer.
pub fn decimal_u64(n: u64) -> (r: String)
    ensures
        r@ == decimal(n as nat),
{
    let mut rest: u64 = n;
    let mut acc = String::new();
    loop
        invariant_except_break
            decimal(n as nat) == decimal(rest as nat) + acc@,
        ensures
            decimal(n as nat) == acc@,
        decreases rest,
    {
        let d: u64 = rest % 10;
        let mut t = String::from_str(digit_str(d));
        t.append(acc.as_str());
        if rest < 10 {
            proof {
                assert(t@ == decimal(rest as nat) + acc@);
            }
            acc = t;
            break;
        }
        proof {
            assert(decimal(rest as nat) == decimal((rest / 10) as nat) + seq![digit_char((rest % 10) as nat)]);
            assert(decimal(n as nat) =~= decimal((rest / 10) as nat) + t@);
        }
        rest = rest / 10;
        acc = t;
    }
    acc
}

/// Decimal text of a signed integer.
pub fn decimal_i64(n: i64) -> (r: String)
    ensures
        r@ == int_text(n as int),
{
    if n < 0 {
        let m: u64 = (-(n as i128)) as u64;
        let digits = decimal_u64(m);
        let mut t = String::from_str("-");
        t.append(digits.as_str());
        t
    } else {
        decimal_u64(n as u64)
    }
}

/// Decimal text of `n`, left-padded with zeros to five characters.
pub fn decimal_u64_width5(n: u64) -> (r: String)
    ensures
        r@ == zero_pad(decimal(n as nat), 5),
{
    let digits = decimal_u64(n);
    let len = digits.as_str().unicode_len();
    let mut pad = String::new();
    let mut i: usize = len;
    while i < 5
        invariant
            len == digits@.len(),
            len <= i <= 5 || (len > 5 && i == len),
            pad@ == Seq::new((i - len) as nat, |j: int| '0'),
        decreases 5 - i,
    {
        proof {
            reveal_strlit("0");
        }
        pad.append("0");
        assert(pad@ =~= Seq::new((i + 1 - len) as nat, |j: int| '0'));
        i = i + 1;
    }
    pad.append(digits.as_str());
    proof {
        if len >= 5 {
            assert(pad@ =~= digits@);
        } else {
            assert(pad@ =~= Seq::new((5 - len) as nat, |j: int| '0') + digits@);
        }
    }
    pad
}

} // verus!
