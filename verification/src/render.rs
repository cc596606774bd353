//! A listing as the text that is shown to a guild: one line for each
//! crossover, naming the two channels by their mentions.

use vstd::prelude::*;

verus! {

/// One decimal digit as text.
pub open spec fn digit(d: nat) -> Seq<char> {
    if d == 0 {
        "0"@
    } else if d == 1 {
        "1"@
    } else if d == 2 {
        "2"@
    } else if d == 3 {
        "3"@
    } else if d == 4 {
        "4"@
    } else if d == 5 {
        "5"@
    } else if d == 6 {
        "6"@
    } else if d == 7 {
        "7"@
    } else if d == 8 {
        "8"@
    } else {
        "9"@
    }
}

/// The decimal digits of `n`, most significant first; none for zero.
pub open spec fn digits(n: nat) -> Seq<char>
    decreases n,
{
    if n == 0 {
        Seq::empty()
    } else {
        digits(n / 10) + digit(n % 10)
    }
}

/// `n` in decimal, as it is written: `0` for zero, no leading zeros
/// otherwise.
pub open spec fn decimal(n: nat) -> Seq<char> {
    if n == 0 {
        "0"@
    } else {
        digits(n)
    }
}

/// The line of one crossover.
pub open spec fn row_text(row: (u64, u64)) -> Seq<char> {
    "Source: <#"@ + decimal(row.0 as nat) + "> -> Target : <#"@ + decimal(row.1 as nat) + ">\n"@
}

/// The lines of `rows`, in their order.
pub open spec fn rows_text(rows: Seq<(u64, u64)>) -> Seq<char>
    decreases rows.len(),
{
    if rows.len() == 0 {
        Seq::empty()
    } else {
        rows_text(rows.drop_last()) + row_text(rows.last())
    }
}

/// `d` is a power of ten.
spec fn is_power_of_ten(d: nat) -> bool
    decreases d,
{
    d == 1 || (d >= 10 && d % 10 == 0 && is_power_of_ten(d / 10))
}

/// The text of the digit `d`.
fn digit_text(d: u64) -> (text: &'static str)
    requires
        d < 10,
    ensures
        text@ == digit(d as nat),
{
    if d == 0 {
        "0"
    } else if d == 1 {
        "1"
    } else if d == 2 {
        "2"
    } else if d == 3 {
        "3"
    } else if d == 4 {
        "4"
    } else if d == 5 {
        "5"
    } else if d == 6 {
        "6"
    } else if d == 7 {
        "7"
    } else if d == 8 {
        "8"
    } else {
        "9"
    }
}

/// Appends `n` in decimal to `out`.
pub fn push_decimal(out: &mut String, n: u64)
    ensures
        final(out)@ == old(out)@ + decimal(n as nat),
{
    if n == 0 {
        out.push_str("0");
        return ;
    }
    let ghost before = out@;
    let mut weight: u64 = 1;
    while n / weight >= 10
        invariant
            is_power_of_ten(weight as nat),
            1 <= weight <= n,
        decreases n - weight,
    {
        proof {
            assert(weight * 10 <= n) by (nonlinear_arith)
                requires
                    n / weight >= 10,
                    weight >= 1,
            ;
            assert((weight * 10) / 10 == weight);
        }
        weight = weight * 10;
    }
    proof {
        vstd::arithmetic::div_mod::lemma_div_denominator(n as int, weight as int, 10);
        assert((n as nat) / (weight as nat * 10) == 0);
        assert(before + digits(0) =~= before);
    }
    loop
        invariant
            before == old(out)@,
            is_power_of_ten(weight as nat),
            1 <= weight <= n,
            out@ == before + digits((n as nat) / (weight as nat * 10)),
        decreases weight,
    {
        let d: u64 = (n / weight) % 10;
        proof {
            let upper = (n as nat) / (weight as nat);
            vstd::arithmetic::div_mod::lemma_div_denominator(n as int, weight as int, 10);
            assert(upper / 10 == (n as nat) / (weight as nat * 10));
            assert(upper > 0) by (nonlinear_arith)
                requires
                    upper == (n as nat) / (weight as nat),
                    1 <= weight <= n,
            ;
            assert(digits(upper) == digits(upper / 10) + digit(upper % 10));
            assert(before + digits(upper) =~= before + digits(upper / 10) + digit(upper % 10));
        }
        out.push_str(digit_text(d));
        assert(out@ == before + digits((n as nat) / (weight as nat)));
        if weight == 1 {
            assert((n as nat) / 1 == n as nat);
            return ;
        }
        proof {
            let lower = (weight / 10) as nat;
            assert(lower * 10 == weight);
        }
        weight = weight / 10;
    }
}

/// The text of a listing: for each crossover one line, which names the
/// source and the target channel.
pub fn listing_text(rows: &[(u64, u64)]) -> (text: String)
    ensures
        text@ == rows_text(rows@),
{
    let mut text = String::new();
    let mut i: usize = 0;
    proof {
        assert(rows@.take(0) =~= Seq::<(u64, u64)>::empty());
    }
    while i < rows.len()
        invariant
            i <= rows@.len(),
            text@ == rows_text(rows@.take(i as int)),
        decreases rows@.len() - i,
    {
        let row = rows[i];
        let ghost so_far = text@;
        text.push_str("Source: <#");
        push_decimal(&mut text, row.0);
        text.push_str("> -> Target : <#");
        push_decimal(&mut text, row.1);
        text.push_str(">\n");
        proof {
            assert(rows@.take(i + 1).drop_last() =~= rows@.take(i as int));
            assert(rows@.take(i + 1).last() == row);
            assert(text@ =~= so_far + row_text(row));
        }
        i = i + 1;
    }
    proof {
        assert(rows@.take(rows@.len() as int) =~= rows@);
    }
    text
}

} // verus!
