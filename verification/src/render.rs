//! Rendering of CPU indices as text: decimal numbers and comma-joined
//! lists, each pinned to an exact character-sequence specification.

use vstd::prelude::*;
use vstd::string::StringExecFns;

verus! {

/// The character for one decimal digit value.
pub open spec fn digit_char(d: int) -> char {
    if d == 0 {
        '0'
    } else if d == 1 {
        '1'
    } else if d == 2 {
        '2'
    } else if d == 3 {
        '3'
    } else if d == 4 {
        '4'
    } else if d == 5 {
        '5'
    } else if d == 6 {
        '6'
    } else if d == 7 {
        '7'
    } else if d == 8 {
        '8'
    } else {
        '9'
    }
}

/// The decimal rendering of a non-negative number, most significant digit
/// first, without leading zeroes (except for the number zero itself).
pub open spec fn dec_chars(n: int) -> Seq<char>
    decreases n,
{
    if n < 10 {
        seq![digit_char(n)]
    } else {
        dec_chars(n / 10).push(digit_char(n % 10))
    }
}

/// The comma-and-space-joined rendering of a sequence of numbers, in
/// sequence order.
pub open spec fn comma_joined(xs: Seq<usize>) -> Seq<char>
    decreases xs.len(),
{
    if xs.len() == 0 {
        Seq::<char>::empty()
    } else if xs.len() == 1 {
        dec_chars(xs[0] as int)
    } else {
        comma_joined(xs.drop_last()) + seq![',', ' '] + dec_chars(xs.last() as int)
    }
}

/// The string slice for one decimal digit.
fn digit_str(d: usize) -> (s: &'static str)
    requires
        d < 10,
    ensures
        s@ == seq![digit_char(d as int)],
{
    proof {
        reveal_strlit("0");
        reveal_strlit("1");
        reveal_strlit("2");
        reveal_strlit("3");
        reveal_strlit("4");
        reveal_strlit("5");
        reveal_strlit("6");
        reveal_strlit("7");
        reveal_strlit("8");
        reveal_strlit("9");
    }
    let s: &'static str = if d == 0 {
        "0"
    } else if d == 1 {
        "1"
    } else if d == 2 {
        "2"
    } else if d == 3 {
        "3"
    } else if d == 4 {
        "4"
    } else if d == 5 {
        "5"
    } else if d == 6 {
        "6"
    } else if d == 7 {
        "7"
    } else if d == 8 {
        "8"
    } else {
        "9"
    };
    proof {
        assert(s@ =~= seq![digit_char(d as int)]);
    }
    s
}

/// Renders a number in decimal.
pub fn usize_to_string(n: usize) -> (s: String)
    ensures
        s@ == dec_chars(n as int),
    decreases n,
{
    if n < 10 {
        digit_str(n).to_owned()
    } else {
        let mut s = usize_to_string(n / 10);
        s.append(digit_str(n % 10));
        proof {
            assert(s@ =~= dec_chars(n as int / 10).push(digit_char(n as int % 10)));
        }
        s
    }
}

/// Renders a list of numbers as a comma-and-space-joined decimal list.
pub fn comma_join(v: &Vec<usize>) -> (s: String)
    ensures
        s@ == comma_joined(v@),
{
    let mut s = String::new();
    let mut k: usize = 0;
    proof {
        assert(v@.take(0) =~= Seq::<usize>::empty());
    }
    while k < v.len()
        invariant
            k <= v@.len(),
            s@ == comma_joined(v@.take(k as int)),
        decreases v@.len() - k,
    {
        if k > 0 {
            s.append(", ");
        }
        let d = usize_to_string(v[k]);
        s.append(d.as_str());
        proof {
            reveal_strlit(", ");
            let t = v@.take(k as int + 1);
            assert(t.drop_last() =~= v@.take(k as int));
            assert(t.last() == v@[k as int]);
            if k == 0 {
                assert(s@ =~= comma_joined(t));
            } else {
                assert(", "@ =~= seq![',', ' ']);
                assert(s@ =~= comma_joined(t.drop_last()) + seq![',', ' '] + dec_chars(
                    t.last() as int));
            }
        }
        k = k + 1;
    }
    proof {
        assert(v@.take(v@.len() as int) =~= v@);
    }
    s
}

} // verus!
