//! Decimal rendering of numbers for reports.
use vstd::prelude::*;
use vstd::string::*;

verus! {

/// The character of a decimal digit.
pub open spec fn digit_char(d: nat) -> char {
    seq!['0', '1', '2', '3', '4', '5', '6', '7', '8', '9'][d as int]
}

/// The decimal digits of `n`, without leading zeros.
pub open spec fn decimal(n: nat) -> Seq<char>
    decreases n,
{
    if n < 10 {
        seq![digit_char(n)]
    } else {
        decimal(n / 10).push(digit_char(n % 10))
    }
}

/// `s` with zeros put in front until it has `width` characters.
pub open spec fn zero_padded(s: Seq<char>, width: nat) -> Seq<char> {
    if s.len() >= width {
        s
    } else {
        Seq::new((width - s.len()) as nat, |i: int| '0') + s
    }
}

/// `n / 10^places` with exactly `places` digits after the point.
pub open spec fn fixed_point(n: nat, places: nat, scale: nat) -> Seq<char> {
    decimal(n / scale) + seq!['.'] + zero_padded(decimal(n % scale), places)
}

/// Relies on `u64`'s `ToString`: the decimal digits, without leading zeros.
#[verifier::external_body]
pub(crate) fn u64_to_string(n: u64) -> (r: String)
    ensures
        r@ == decimal(n as nat),
{
    n.to_string()
}

/// Appends `s` to `out`, with zeros in front up to `width` characters.
pub(crate) fn push_padded(out: &mut String, s: &String, width: usize)
    ensures
        final(out)@ == old(out)@ + zero_padded(s@, width as nat),
{
    let len = s.unicode_len();
    if len < width {
        let mut k: usize = len;
        let ghost start = out@;
        while k < width
            invariant
                len <= k <= width,
                out@ == start + Seq::new((k - len) as nat, |i: int| '0'),
            decreases width - k,
        {
            proof {
                reveal_strlit("0");
            }
            out.append("0");
            assert(out@ =~= start + Seq::new((k + 1 - len) as nat, |i: int| '0'));
            k += 1;
        }
    }
    out.append(s.as_str());
    assert(final(out)@ =~= old(out)@ + zero_padded(s@, width as nat));
}

/// Appends `n / scale` with `places` digits after the point.
pub(crate) fn push_fixed_point(out: &mut String, n: u64, places: usize, scale: u64)
    requires
        scale > 0,
    ensures
        final(out)@ == old(out)@ + fixed_point(n as nat, places as nat, scale as nat),
{
    let whole = u64_to_string(n / scale);
    out.append(whole.as_str());
    proof {
        reveal_strlit(".");
    }
    out.append(".");
    let frac = u64_to_string(n % scale);
    push_padded(out, &frac, places);
    assert(final(out)@ =~= old(out)@ + fixed_point(n as nat, places as nat, scale as nat));
}

} // verus!
