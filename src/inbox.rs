use vstd::prelude::*;

verus! {

/// The decimal digits of `n`, most significant first, with no leading zero.
pub open spec fn decimal_of(n: nat) -> Seq<char>
    decreases n,
{
    let digit = seq!['0', '1', '2', '3', '4', '5', '6', '7', '8', '9'][(n % 10) as int];
    if n < 10 {
        seq![digit]
    } else {
        decimal_of(n / 10).push(digit)
    }
}

/// The name of the result inbox for the run whose token is `n`.
pub open spec fn inbox_name_of(n: u64) -> Seq<char> {
    "control::"@ + decimal_of(n as nat)
}

/// The one-character string of the digit `d`.
fn digit_str(d: u64) -> (r: &'static str)
    requires
        d < 10,
    ensures
        r@ == seq![seq!['0', '1', '2', '3', '4', '5', '6', '7', '8', '9'][d as int]],
{
    proof {
        reveal_strlit("0");
        reveal_strlit("1");
        reveal_strlit("2");
        reveal_strlit("3");
        reveal_strlit("4");
        reveal_strlit("5");
        reveal_strlit("6");
        reveal_strlit("7");
        reveal_strlit("8");
        reveal_strlit("9");
    }
    match d {
        0 => "0",
        1 => "1",
        2 => "2",
        3 => "3",
        4 => "4",
        5 => "5",
        6 => "6",
        7 => "7",
        8 => "8",
        _ => "9",
    }
}

/// Appends the decimal digits of `n` to `out`.
fn write_decimal(n: u64, out: &mut String)
    ensures
        final(out)@ == old(out)@ + decimal_of(n as nat),
    decreases n,
{
    if n >= 10 {
        write_decimal(n / 10, out);
    }
    let d = digit_str(n % 10);
    out.append(d);
    proof {
        if n >= 10 {
            assert(old(out)@ + decimal_of(n as nat) =~= old(out)@ + decimal_of((n / 10) as nat) + d@);
        } else {
            assert(old(out)@ + decimal_of(n as nat) =~= old(out)@ + d@);
        }
    }
}

/// Relies on rand::random, which draws from the thread's generator; nothing is
/// known of the value drawn.
pub assume_specification<T>[ rand::random::<T> ]() -> (r: T)
    where
        rand::distributions::Standard: rand::distributions::Distribution<T>,
;

/// The result inbox of the run whose token is `n`.
pub fn control_queue_name(n: u64) -> (r: String)
    ensures
        r@ == inbox_name_of(n),
{
    let mut r = String::from_str("control::");
    write_decimal(n, &mut r);
    r
}

/// A fresh result inbox name for a new run, from a random token.
pub fn new_control_queue() -> (r: String)
    ensures
        exists|n: u64| r@ == inbox_name_of(n),
{
    let n: u64 = rand::random::<u64>();
    control_queue_name(n)
}

} // verus!
