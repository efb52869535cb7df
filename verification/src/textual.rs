//! Textual rendering: decimal form of an integer, and the delimiter-joined
//! rendering of a vector.

use vstd::prelude::*;
use vstd::string::StringExecFns;

verus! {

/// The decimal digit character of `d`.
pub open spec fn digit_char(d: int) -> char
    recommends
        0 <= d < 10,
{
    if d == 0 {
        '0'
    } else if d == 1 {
        '1'
    } else if d == 2 {
        '2'
    } else if d == 3 {
        '3'
    } else if d == 4 {
        '4'
    } else if d == 5 {
        '5'
    } else if d == 6 {
        '6'
    } else if d == 7 {
        '7'
    } else if d == 8 {
        '8'
    } else {
        '9'
    }
}

/// The decimal digits of `n`, most significant first; empty for zero.
pub open spec fn dec_digits(n: int) -> Seq<char>
    recommends
        n >= 0,
    decreases n,
{
    if n <= 0 {
        Seq::<char>::empty()
    } else {
        dec_digits(n / 10).push(digit_char(n % 10))
    }
}

/// The decimal rendering of `x`: a minus sign for a negative value, then
/// the digits without leading zeros; zero renders as a single digit.
pub open spec fn dec_str(x: int) -> Seq<char> {
    if x == 0 {
        seq!['0']
    } else if x < 0 {
        seq!['-'] + dec_digits(-x)
    } else {
        dec_digits(x)
    }
}

/// The renderings of the elements with `sep` between each consecutive
/// pair; empty input renders as the empty string.
pub open spec fn join_spec(s: Seq<i64>, sep: Seq<char>) -> Seq<char>
    decreases s.len(),
{
    if s.len() == 0 {
        Seq::<char>::empty()
    } else if s.len() == 1 {
        dec_str(s[0] as int)
    } else {
        join_spec(s.drop_last(), sep) + sep + dec_str(s.last() as int)
    }
}

/// The one-character string of a single decimal digit.
fn digit_str(d: u64) -> (r: &'static str)
    requires
        d < 10,
    ensures
        r@ == seq![digit_char(d as int)],
{
    proof {
        reveal_strlit("0");
        reveal_strlit("1");
        reveal_strlit("2");
        reveal_strlit("3");
        reveal_strlit("4");
        reveal_strlit("5");
        reveal_strlit("6");
        reveal_strlit("7");
        reveal_strlit("8");
        reveal_strlit("9");
    }
    match d {
        0 => "0",
        1 => "1",
        2 => "2",
        3 => "3",
        4 => "4",
        5 => "5",
        6 => "6",
        7 => "7",
        8 => "8",
        _ => "9",
    }
}

/// The decimal digits of an unsigned value; the empty string for zero.
fn dec_u64(n: u64) -> (r: String)
    ensures
        r@ == dec_digits(n as int),
    decreases n,
{
    if n == 0 {
        String::new()
    } else {
        let mut s = dec_u64(n / 10);
        let ds = digit_str(n % 10);
        s.append(ds);
        proof {
            assert(s@ =~= dec_digits(n as int / 10).push(digit_char(n as int % 10)));
        }
        s
    }
}

/// The decimal rendering of a signed value.
pub fn to_decimal(x: i64) -> (r: String)
    ensures
        r@ == dec_str(x as int),
{
    if x == 0 {
        let r = String::from_str("0");
        proof {
            reveal_strlit("0");
            assert(r@ =~= dec_str(0));
        }
        r
    } else if x > 0 {
        dec_u64(x as u64)
    } else {
        let m: u64 = if x == i64::MIN {
            9223372036854775808u64
        } else {
            (-x) as u64
        };
        proof {
            assert(m as int == -(x as int));
        }
        let mut s = String::from_str("-");
        let ds = dec_u64(m);
        s.append(ds.as_str());
        proof {
            reveal_strlit("-");
            assert(s@ =~= seq!['-'] + dec_digits(-(x as int)));
        }
        s
    }
}

/// Render every element in decimal and join the renderings with `sep`
/// between each consecutive pair.
pub fn join(v: &Vec<i64>, sep: &str) -> (r: String)
    ensures
        r@ == join_spec(v@, sep@),
{
    let mut r = String::new();
    let mut i: usize = 0;
    proof {
        assert(v@.take(0) =~= Seq::<i64>::empty());
    }
    while i < v.len()
        invariant
            i <= v@.len(),
            r@ == join_spec(v@.take(i as int), sep@),
        decreases v@.len() - i,
    {
        if i > 0 {
            r.append(sep);
        }
        let ds = to_decimal(v[i]);
        r.append(ds.as_str());
        proof {
            assert(v@.take(i as int + 1).drop_last() =~= v@.take(i as int));
            assert(v@.take(i as int + 1).last() == v@[i as int]);
            if i == 0 {
                assert(v@.take(1).len() == 1 && v@.take(1)[0] == v@[0]);
            }
            assert(r@ =~= join_spec(v@.take(i as int + 1), sep@));
        }
        i += 1;
    }
    proof {
        assert(v@.take(v@.len() as int) =~= v@);
    }
    r
}

} // verus!
