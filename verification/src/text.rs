//! Text helpers: decimal rendering of integers and small string utilities.

use vstd::prelude::*;
use vstd::string::*;

verus! {

/// The character of a decimal digit `d` (0..=9).
pub open spec fn digit_char(d: int) -> char {
    if d == 0 {
        '0'
    } else if d == 1 {
        '1'
    } else if d == 2 {
        '2'
    } else if d == 3 {
        '3'
    } else if d == 4 {
        '4'
    } else if d == 5 {
        '5'
    } else if d == 6 {
        '6'
    } else if d == 7 {
        '7'
    } else if d == 8 {
        '8'
    } else {
        '9'
    }
}

/// Decimal digits of a natural number, most significant first, no leading zeros.
pub open spec fn nat_digits(n: nat) -> Seq<char>
    decreases n,
{
    if n < 10 {
        seq![digit_char(n as int)]
    } else {
        nat_digits(n / 10) + seq![digit_char((n % 10) as int)]
    }
}

/// Decimal text of an integer, with a leading `-` for negative values.
pub open spec fn decimal_text(v: int) -> Seq<char> {
    if v < 0 {
        seq!['-'] + nat_digits((-v) as nat)
    } else {
        nat_digits(v as nat)
    }
}

proof fn lemma_digits_shape(n: nat)
    ensures
        nat_digits(n).len() >= 1,
        n >= 10 ==> nat_digits(n).len() >= 2,
        forall|k: int| 0 <= k < nat_digits(n).len() ==> #[trigger] nat_digits(n)[k] != '-',
    decreases n,
{
    if n >= 10 {
        lemma_digits_shape(n / 10);
        let p = nat_digits(n / 10);
        assert forall|k: int| 0 <= k < nat_digits(n).len() implies #[trigger] nat_digits(n)[k] != '-' by {
            if k < p.len() {
                assert(nat_digits(n)[k] == p[k]);
            }
        }
    }
}

proof fn lemma_nat_digits_injective(a: nat, b: nat)
    requires
        nat_digits(a) == nat_digits(b),
    ensures
        a == b,
    decreases a,
{
    lemma_digits_shape(a);
    lemma_digits_shape(b);
    if a < 10 && b < 10 {
        assert(nat_digits(a)[0] == digit_char(a as int));
        assert(nat_digits(b)[0] == digit_char(b as int));
    } else if a >= 10 && b >= 10 {
        let pa = nat_digits(a / 10);
        let pb = nat_digits(b / 10);
        let la = nat_digits(a).len() - 1;
        assert(nat_digits(a)[la] == digit_char((a % 10) as int));
        assert(nat_digits(b)[la] == digit_char((b % 10) as int));
        assert(a % 10 == b % 10);
        assert(pa =~= nat_digits(a).drop_last());
        assert(pb =~= nat_digits(b).drop_last());
        lemma_nat_digits_injective(a / 10, b / 10);
    }
}

/// Different integers have different decimal texts.
pub proof fn lemma_decimal_text_injective(a: int, b: int)
    requires
        decimal_text(a) == decimal_text(b),
    ensures
        a == b,
{
    if a < 0 && b < 0 {
        assert(nat_digits((-a) as nat) =~= decimal_text(a).subrange(1, decimal_text(a).len() as int));
        assert(nat_digits((-b) as nat) =~= decimal_text(b).subrange(1, decimal_text(b).len() as int));
        lemma_nat_digits_injective((-a) as nat, (-b) as nat);
    } else if a >= 0 && b >= 0 {
        lemma_nat_digits_injective(a as nat, b as nat);
    } else if a < 0 {
        lemma_digits_shape(b as nat);
        assert(decimal_text(a)[0] == '-');
    } else {
        lemma_digits_shape(a as nat);
        assert(decimal_text(b)[0] == '-');
    }
}

fn digit_str(d: u8) -> (s: &'static str)
    requires
        d < 10,
    ensures
        s@ == seq![digit_char(d as int)],
{
    if d == 0 {
        proof { reveal_strlit("0"); }
        "0"
    } else if d == 1 {
        proof { reveal_strlit("1"); }
        "1"
    } else if d == 2 {
        proof { reveal_strlit("2"); }
        "2"
    } else if d == 3 {
        proof { reveal_strlit("3"); }
        "3"
    } else if d == 4 {
        proof { reveal_strlit("4"); }
        "4"
    } else if d == 5 {
        proof { reveal_strlit("5"); }
        "5"
    } else if d == 6 {
        proof { reveal_strlit("6"); }
        "6"
    } else if d == 7 {
        proof { reveal_strlit("7"); }
        "7"
    } else if d == 8 {
        proof { reveal_strlit("8"); }
        "8"
    } else {
        proof { reveal_strlit("9"); }
        "9"
    }
}

fn nat_text(n: u128) -> (s: String)
    ensures
        s@ == nat_digits(n as nat),
    decreases n,
{
    if n < 10 {
        String::from_str(digit_str(n as u8))
    } else {
        let mut s = nat_text(n / 10);
        s.append(digit_str((n % 10) as u8));
        s
    }
}

/// Decimal text of an integer, as `Display` writes it.
pub fn int_text(v: i128) -> (s: String)
    ensures
        s@ == decimal_text(v as int),
{
    if v < 0 {
        let mag: u128 = ((-(v + 1)) as u128) + 1;
        let mut s = String::from_str("-");
        proof { reveal_strlit("-"); }
        let digits = nat_text(mag);
        s.append(digits.as_str());
        s
    } else {
        nat_text(v as u128)
    }
}

/// `a` followed by `b`.
pub fn joined(a: &str, b: &str) -> (r: String)
    ensures
        r@ == a@ + b@,
{
    let mut r = String::from_str(a);
    r.append(b);
    r
}

} // verus!
