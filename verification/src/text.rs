//! Text building blocks: decimal numerals, repetition, and appending to strings.
use vstd::prelude::*;
use vstd::string::*;

verus! {

/// The decimal digit `d` as text.
pub open spec fn digit(d: nat) -> Seq<char> {
    if d == 0 {
        "0"@
    } else if d == 1 {
        "1"@
    } else if d == 2 {
        "2"@
    } else if d == 3 {
        "3"@
    } else if d == 4 {
        "4"@
    } else if d == 5 {
        "5"@
    } else if d == 6 {
        "6"@
    } else if d == 7 {
        "7"@
    } else if d == 8 {
        "8"@
    } else {
        "9"@
    }
}

/// Decimal numeral of a natural number, without leading zeros.
pub open spec fn dec_nat(n: nat) -> Seq<char>
    decreases n,
{
    if n < 10 {
        digit(n)
    } else {
        dec_nat(n / 10) + digit(n % 10)
    }
}

/// Decimal numeral of an integer, with a leading `-` when negative.
pub open spec fn dec_int(n: int) -> Seq<char> {
    if n < 0 {
        "-"@ + dec_nat((-n) as nat)
    } else {
        dec_nat(n as nat)
    }
}

/// Text of a boolean.
pub open spec fn bool_text(b: bool) -> Seq<char> {
    if b {
        "true"@
    } else {
        "false"@
    }
}

/// `s` repeated `n` times.
pub open spec fn rep(s: Seq<char>, n: nat) -> Seq<char>
    decreases n,
{
    if n == 0 {
        Seq::empty()
    } else {
        rep(s, (n - 1) as nat) + s
    }
}

/// Indentation of `n` levels, two spaces each.
pub open spec fn indent_text(n: nat) -> Seq<char> {
    rep("  "@, n)
}

fn digit_str(d: u64) -> (r: &'static str)
    requires
        d < 10,
    ensures
        r@ == digit(d as nat),
{
    if d == 0 {
        "0"
    } else if d == 1 {
        "1"
    } else if d == 2 {
        "2"
    } else if d == 3 {
        "3"
    } else if d == 4 {
        "4"
    } else if d == 5 {
        "5"
    } else if d == 6 {
        "6"
    } else if d == 7 {
        "7"
    } else if d == 8 {
        "8"
    } else {
        "9"
    }
}

/// Appends the decimal numeral of `n`.
pub fn push_nat(out: &mut String, n: u64)
    ensures
        final(out)@ == old(out)@ + dec_nat(n as nat),
    decreases n,
{
    if n < 10 {
        out.append(digit_str(n));
    } else {
        push_nat(out, n / 10);
        out.append(digit_str(n % 10));
        assert(old(out)@ + dec_nat(n as nat) =~= old(out)@ + dec_nat((n / 10) as nat) + digit(
            (n % 10) as nat,
        ));
    }
}

/// Appends the decimal numeral of `n`.
pub fn push_usize(out: &mut String, n: usize)
    ensures
        final(out)@ == old(out)@ + dec_nat(n as nat),
{
    push_nat(out, n as u64);
}

/// Appends the decimal numeral of `n`, with a leading `-` when negative.
pub fn push_int(out: &mut String, n: i64)
    ensures
        final(out)@ == old(out)@ + dec_int(n as int),
{
    if n < 0 {
        out.append("-");
        let mag: u64 = ((-(n as i128)) as u64);
        push_nat(out, mag);
        assert(old(out)@ + dec_int(n as int) =~= old(out)@ + "-"@ + dec_nat(mag as nat));
    } else {
        push_nat(out, n as u64);
    }
}

/// Appends `true` or `false`.
pub fn push_bool(out: &mut String, b: bool)
    ensures
        final(out)@ == old(out)@ + bool_text(b),
{
    if b {
        out.append("true");
    } else {
        out.append("false");
    }
}

/// Appends `s` repeated `n` times.
pub fn push_rep(out: &mut String, s: &str, n: usize)
    ensures
        final(out)@ == old(out)@ + rep(s@, n as nat),
{
    let mut i: usize = 0;
    while i < n
        invariant
            0 <= i <= n,
            out@ == old(out)@ + rep(s@, i as nat),
        decreases n - i,
    {
        out.append(s);
        assert(old(out)@ + rep(s@, (i + 1) as nat) =~= old(out)@ + rep(s@, i as nat) + s@);
        i += 1;
    }
}

/// Appends `n` levels of indentation.
pub fn push_indent(out: &mut String, n: usize)
    ensures
        final(out)@ == old(out)@ + indent_text(n as nat),
{
    push_rep(out, "  ", n);
}

} // verus!
