//! Plain-text rendering of node values and edge weights.

use vstd::prelude::*;
use vstd::string::StringExecFns;

verus! {

/// The decimal digit character for `d`.
pub open spec fn dec_digit(d: int) -> char {
    if d == 0 {
        '0'
    } else if d == 1 {
        '1'
    } else if d == 2 {
        '2'
    } else if d == 3 {
        '3'
    } else if d == 4 {
        '4'
    } else if d == 5 {
        '5'
    } else if d == 6 {
        '6'
    } else if d == 7 {
        '7'
    } else if d == 8 {
        '8'
    } else {
        '9'
    }
}

/// The decimal numeral of a non-negative `n`, most significant digit first.
pub open spec fn dec_spec(n: int) -> Seq<char>
    decreases n,
{
    if n < 10 {
        seq![dec_digit(n)]
    } else {
        dec_spec(n / 10) + seq![dec_digit(n % 10)]
    }
}

/// The decimal numeral of `n`: a minus sign before the numeral of the
/// magnitude when `n` is negative.
pub open spec fn dec_int_spec(n: int) -> Seq<char> {
    if n < 0 {
        seq!['-'] + dec_spec(-n)
    } else {
        dec_spec(n)
    }
}

/// A value with an exact plain-text form.
pub trait Render {
    /// The text the value renders to.
    spec fn render_spec(&self) -> Seq<char>;

    /// Renders the value.
    fn render(&self) -> (s: String)
        ensures
            s@ == self.render_spec(),
    ;
}

/// The digit characters of `ds`, whose first entry is the least significant
/// digit: the digits in writing order.
pub open spec fn digits_chars(ds: Seq<u64>) -> Seq<char> {
    Seq::new(ds.len(), |j: int| dec_digit(ds[ds.len() - 1 - j] as int))
}

/// One decimal digit as text.
fn digit_str(d: u64) -> (s: &'static str)
    requires
        d < 10,
    ensures
        s@ == seq![dec_digit(d as int)],
{
    proof {
        reveal_strlit("0");
        reveal_strlit("1");
        reveal_strlit("2");
        reveal_strlit("3");
        reveal_strlit("4");
        reveal_strlit("5");
        reveal_strlit("6");
        reveal_strlit("7");
        reveal_strlit("8");
        reveal_strlit("9");
    }
    let s: &'static str = if d == 0 {
        "0"
    } else if d == 1 {
        "1"
    } else if d == 2 {
        "2"
    } else if d == 3 {
        "3"
    } else if d == 4 {
        "4"
    } else if d == 5 {
        "5"
    } else if d == 6 {
        "6"
    } else if d == 7 {
        "7"
    } else if d == 8 {
        "8"
    } else {
        "9"
    };
    proof {
        assert(s@ =~= seq![dec_digit(d as int)]);
    }
    s
}

/// Renders `n` in decimal.
pub fn render_u64(n: u64) -> (s: String)
    ensures
        s@ == dec_spec(n as int),
{
    let mut digits: Vec<u64> = Vec::new();
    let mut m = n;
    digits.push(m % 10);
    proof {
        assert(digits_chars(digits@) =~= seq![dec_digit((n % 10) as int)]);
    }
    m = m / 10;
    while m > 0
        invariant
            digits@.len() >= 1,
            forall|j: int| 0 <= j < digits@.len() ==> (#[trigger] digits@[j]) < 10,
            dec_spec(n as int) == (if m > 0 {
                dec_spec(m as int) + digits_chars(digits@)
            } else {
                digits_chars(digits@)
            }),
        decreases m,
    {
        let ghost ds0 = digits@;
        let d = m % 10;
        digits.push(d);
        proof {
            assert(digits_chars(digits@) =~= seq![dec_digit(d as int)] + digits_chars(ds0));
        }
        m = m / 10;
        proof {
            if m > 0 {
                assert(dec_spec(n as int) =~= dec_spec(m as int) + digits_chars(digits@));
            } else {
                assert(dec_spec(n as int) =~= digits_chars(digits@));
            }
        }
    }
    let mut s = String::new();
    let dn = digits.len();
    let mut i = dn;
    proof {
        assert(s@ =~= digits_chars(digits@).take(0));
    }
    while i > 0
        invariant
            i <= dn,
            dn == digits@.len(),
            forall|j: int| 0 <= j < digits@.len() ==> (#[trigger] digits@[j]) < 10,
            dec_spec(n as int) == digits_chars(digits@),
            s@ == digits_chars(digits@).take(dn - i),
        decreases i,
    {
        i = i - 1;
        let piece = digit_str(digits[i]);
        s.append(piece);
        proof {
            assert(s@ =~= digits_chars(digits@).take(dn - i));
        }
    }
    proof {
        assert(digits_chars(digits@).take(dn as int) =~= digits_chars(digits@));
    }
    s
}

impl Render for usize {
    open spec fn render_spec(&self) -> Seq<char> {
        dec_spec(*self as int)
    }

    fn render(&self) -> (s: String) {
        render_u64(*self as u64)
    }
}

impl Render for i32 {
    open spec fn render_spec(&self) -> Seq<char> {
        dec_int_spec(*self as int)
    }

    fn render(&self) -> (s: String) {
        if *self < 0 {
            let wide: i64 = *self as i64;
            let magnitude: u64 = (-wide) as u64;
            let mut s = String::from_str("-");
            proof {
                reveal_strlit("-");
            }
            let numeral = render_u64(magnitude);
            s.append(numeral.as_str());
            proof {
                assert(s@ =~= dec_int_spec(*self as int));
            }
            s
        } else {
            render_u64(*self as u64)
        }
    }
}

impl<'a> Render for &'a str {
    open spec fn render_spec(&self) -> Seq<char> {
        self@
    }

    fn render(&self) -> (s: String) {
        String::from_str(self)
    }
}

} // verus!
