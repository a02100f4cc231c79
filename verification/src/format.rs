//! Human-readable sizes.
use vstd::prelude::*;
use crate::text::{decimal, push_decimal, push_str};

verus! {

/// `1024` to the power `k`.
pub open spec fn pow1024(k: nat) -> nat
    decreases k,
{
    if k == 0 { 1 } else { 1024 * pow1024((k - 1) as nat) }
}

/// The unit a size of `n` bytes is shown in: the largest of bytes, KiB,
/// MiB, GiB and TiB that `n` reaches.
pub open spec fn size_unit(n: nat) -> nat {
    if n >= pow1024(4) { 4 }
    else if n >= pow1024(3) { 3 }
    else if n >= pow1024(2) { 2 }
    else if n >= pow1024(1) { 1 }
    else { 0 }
}

pub open spec fn unit_name(k: nat) -> Seq<char> {
    if k == 1 { "KB"@ }
    else if k == 2 { "MB"@ }
    else if k == 3 { "GB"@ }
    else if k == 4 { "TB"@ }
    else { "B"@ }
}

/// `n` bytes as shown to people: whole bytes below a kilobyte, else the
/// size in its unit with one decimal, rounded down (`1536` is `1.5 KB`).
pub open spec fn spec_human_size(n: nat) -> Seq<char> {
    let k = size_unit(n);
    if k == 0 {
        decimal(n) + " B"@
    } else {
        let tenths = (n * 10) / pow1024(k);
        decimal(tenths / 10) + "."@ + decimal(tenths % 10) + " "@ + unit_name(k)
    }
}

pub fn human_size(n: u64) -> (r: String)
    ensures
        r@ == spec_human_size(n as nat),
{
    assert(pow1024(1) == 1024 && pow1024(2) == 1048576 && pow1024(3) == 1073741824 && pow1024(4)
        == 1099511627776) by {
        reveal_with_fuel(pow1024, 5);
    }
    let mut r = String::new();
    if n < 1024 {
        push_decimal(&mut r, n);
        push_str(&mut r, " B");
        return r;
    }
    let (div, unit): (u64, &str) = if n >= 1099511627776 {
        (1099511627776, "TB")
    } else if n >= 1073741824 {
        (1073741824, "GB")
    } else if n >= 1048576 {
        (1048576, "MB")
    } else {
        (1024, "KB")
    };
    let ghost k = size_unit(n as nat);
    assert(div as nat == pow1024(k) && unit@ == unit_name(k));
    let tenths: u128 = (n as u128) * 10 / (div as u128);
    assert(tenths <= 10 * (n as int)) by (nonlinear_arith)
        requires
            tenths == (n as int) * 10 / (div as int),
            div >= 1024,
            n >= 1024,
    ;
    let whole: u64 = (tenths / 10) as u64;
    let frac: u64 = (tenths % 10) as u64;
    push_decimal(&mut r, whole);
    push_str(&mut r, ".");
    push_decimal(&mut r, frac);
    push_str(&mut r, " ");
    push_str(&mut r, unit);
    r
}

} // verus!
