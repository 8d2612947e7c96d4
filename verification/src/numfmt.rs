//! Decimal formatting for process identifiers, proved digit by digit.

use vstd::prelude::*;

verus! {

/// The decimal digit character for one digit value.
pub open spec fn digit_char(d: int) -> char {
    seq!['0', '1', '2', '3', '4', '5', '6', '7', '8', '9'][d]
}

/// The decimal digits of a number, most significant first.
pub open spec fn spec_digits(n: nat) -> Seq<char>
    decreases n,
{
    if n < 10 {
        seq![digit_char(n as int)]
    } else {
        spec_digits(n / 10) + seq![digit_char((n % 10) as int)]
    }
}

fn digit_str(d: u32) -> (r: &'static str)
    requires
        d < 10,
    ensures
        r@ == seq![digit_char(d as int)],
{
    let table = "0123456789";
    proof {
        reveal_strlit("0123456789");
        assert(table@ =~= seq!['0', '1', '2', '3', '4', '5', '6', '7', '8', '9']);
    }
    let r = table.substring_char(d as usize, d as usize + 1);
    proof {
        assert(r@ =~= seq![digit_char(d as int)]);
    }
    r
}

/// The decimal rendering of a number.
pub fn format_u32(n: u32) -> (r: String)
    ensures
        r@ == spec_digits(n as nat),
    decreases n,
{
    if n < 10 {
        String::from_str(digit_str(n))
    } else {
        let mut prefix = format_u32(n / 10);
        let ghost before = prefix@;
        prefix.append(digit_str(n % 10));
        proof {
            assert(prefix@ == before + seq![digit_char((n % 10) as int)]);
        }
        prefix
    }
}

/// The decimal rendering of a non-negative process identifier.
pub fn format_pid(pid: i32) -> (r: String)
    requires
        pid >= 0,
    ensures
        r@ == spec_digits(pid as nat),
{
    format_u32(pid as u32)
}

} // verus!
