//! The pieces of text a rendered line is made of: decimal numerals, padding
//! and bars.

use vstd::prelude::*;
use vstd::string::StringExecFns;

verus! {

/// The character that draws one unit of a bar.
pub open spec fn bar_char() -> char {
    '#'
}

/// The ten decimal digits in order.
pub open spec fn digit_chars() -> Seq<char> {
    seq!['0', '1', '2', '3', '4', '5', '6', '7', '8', '9']
}

/// The decimal numeral of `n`, most significant digit first, without leading
/// zeros.
pub open spec fn decimal(n: nat) -> Seq<char>
    decreases n,
{
    if n < 10 {
        seq![digit_chars()[n as int]]
    } else {
        decimal(n / 10).push(digit_chars()[(n % 10) as int])
    }
}

/// The number that a decimal numeral stands for.
pub open spec fn decimal_value(numeral: Seq<char>) -> nat
    decreases numeral.len(),
{
    if numeral.len() == 0 {
        0
    } else {
        10 * decimal_value(numeral.drop_last()) + digit_chars().index_of(numeral.last()) as nat
    }
}

/// `count` copies of `c`.
pub open spec fn repeated(c: char, count: nat) -> Seq<char> {
    Seq::new(count, |i: int| c)
}

/// `s` pushed to the right edge of a field of `width` characters by leading
/// spaces. Text wider than the field is left as it is.
pub open spec fn right_aligned(s: Seq<char>, width: nat) -> Seq<char> {
    if s.len() >= width {
        s
    } else {
        repeated(' ', (width - s.len()) as nat) + s
    }
}

/// Reading a numeral back gives the number it was written for.
pub proof fn lemma_decimal_round_trip(n: nat)
    ensures
        decimal_value(decimal(n)) == n,
    decreases n,
{
    let digits = digit_chars();
    let low = (n % 10) as int;
    assert(digits.index_of(digits[low]) == low) by {
        assert(digits.contains(digits[low]));
        let found = digits.index_of(digits[low]);
        assert(0 <= found < 10 && digits[found] == digits[low]);
    }
    if n < 10 {
        let numeral = seq![digits[n as int]];
        assert(numeral.drop_last() == Seq::<char>::empty());
        assert(decimal_value(numeral.drop_last()) == 0);
        assert(numeral.last() == digits[low]);
    } else {
        lemma_decimal_round_trip(n / 10);
        let numeral = decimal(n / 10).push(digits[low]);
        assert(numeral.drop_last() == decimal(n / 10));
        assert(numeral.last() == digits[low]);
    }
}

/// A numeral is made of digits only and, except for the numeral of zero,
/// does not start with a zero.
pub proof fn lemma_decimal_is_canonical(n: nat)
    ensures
        forall|i: int| 0 <= i < decimal(n).len() ==> digit_chars().contains(#[trigger] decimal(n)[i]),
        n > 0 ==> decimal(n)[0] != '0',
    decreases n,
{
    let digits = digit_chars();
    let low = (n % 10) as int;
    assert(digits.contains(digits[low]));
    if n >= 10 {
        lemma_decimal_is_canonical(n / 10);
        lemma_decimal_len(n / 10);
        let high = decimal(n / 10);
        assert forall|i: int| 0 <= i < decimal(n).len() implies digits.contains(
            #[trigger] decimal(n)[i],
        ) by {
            if i < high.len() {
                assert(decimal(n)[i] == high[i]);
            }
        }
        assert(decimal(n)[0] == high[0]);
    }
}

/// How many digits a numeral has, by the size of the number.
pub proof fn lemma_decimal_len(n: nat)
    ensures
        n < 10 ==> decimal(n).len() == 1,
        10 <= n < 100 ==> decimal(n).len() == 2,
        100 <= n < 1_000 ==> decimal(n).len() == 3,
        1_000 <= n < 10_000 ==> decimal(n).len() == 4,
        10_000 <= n < 100_000 ==> decimal(n).len() == 5,
        100_000 <= n < 1_000_000 ==> decimal(n).len() == 6,
        1_000_000 <= n < 10_000_000 ==> decimal(n).len() == 7,
        10_000_000 <= n < 100_000_000 ==> decimal(n).len() == 8,
        100_000_000 <= n < 1_000_000_000 ==> decimal(n).len() == 9,
        1_000_000_000 <= n < 10_000_000_000 ==> decimal(n).len() == 10,
    decreases n,
{
    if n >= 10 {
        lemma_decimal_len(n / 10);
    }
}

/// The one-character text of a decimal digit.
fn digit_text(d: u32) -> (text: &'static str)
    requires
        d < 10,
    ensures
        text@ == seq![digit_chars()[d as int]],
{
    proof {
        reveal_strlit("0");
        reveal_strlit("1");
        reveal_strlit("2");
        reveal_strlit("3");
        reveal_strlit("4");
        reveal_strlit("5");
        reveal_strlit("6");
        reveal_strlit("7");
        reveal_strlit("8");
        reveal_strlit("9");
    }
    let text = match d {
        0 => "0",
        1 => "1",
        2 => "2",
        3 => "3",
        4 => "4",
        5 => "5",
        6 => "6",
        7 => "7",
        8 => "8",
        _ => "9",
    };
    assert(text@ =~= seq![digit_chars()[d as int]]);
    text
}

/// The number of digits in the decimal numeral of `n`.
pub fn decimal_width(n: u32) -> (width: usize)
    ensures
        width == decimal(n as nat).len(),
{
    proof {
        lemma_decimal_len(n as nat);
    }
    if n < 10 {
        1
    } else if n < 100 {
        2
    } else if n < 1_000 {
        3
    } else if n < 10_000 {
        4
    } else if n < 100_000 {
        5
    } else if n < 1_000_000 {
        6
    } else if n < 10_000_000 {
        7
    } else if n < 100_000_000 {
        8
    } else if n < 1_000_000_000 {
        9
    } else {
        10
    }
}

/// Appends the decimal numeral of `n` to `out`.
pub fn push_decimal(out: &mut String, n: u32)
    ensures
        final(out)@ == old(out)@ + decimal(n as nat),
    decreases n,
{
    if n >= 10 {
        push_decimal(out, n / 10);
    }
    out.append(digit_text(n % 10));
    proof {
        if n >= 10 {
            assert(out@ =~= old(out)@ + decimal((n / 10) as nat).push(
                digit_chars()[(n % 10) as int],
            ));
        } else {
            assert(out@ =~= old(out)@ + seq![digit_chars()[n as int]]);
        }
    }
}

/// Appends `count` copies of the one-character text `unit` to `out`.
fn push_repeated(out: &mut String, unit: &str, count: usize)
    requires
        unit@.len() == 1,
    ensures
        final(out)@ == old(out)@ + repeated(unit@[0], count as nat),
{
    let mut done: usize = 0;
    while done < count
        invariant
            done <= count,
            unit@.len() == 1,
            out@ == old(out)@ + repeated(unit@[0], done as nat),
        decreases count - done,
    {
        out.append(unit);
        done += 1;
        assert(out@ =~= old(out)@ + repeated(unit@[0], done as nat));
    }
}

/// Appends a bar of `len` units to `out`.
pub fn push_bar(out: &mut String, len: usize)
    ensures
        final(out)@ == old(out)@ + repeated(bar_char(), len as nat),
{
    proof {
        reveal_strlit("#");
    }
    push_repeated(out, "#", len);
}

/// Appends the decimal numeral of `n` to `out`, right-aligned in a field of
/// `width` characters.
pub fn push_right_aligned_decimal(out: &mut String, n: u32, width: usize)
    ensures
        final(out)@ == old(out)@ + right_aligned(decimal(n as nat), width as nat),
{
    let digits = decimal_width(n);
    if digits < width {
        proof {
            reveal_strlit(" ");
        }
        push_repeated(out, " ", width - digits);
    }
    push_decimal(out, n);
    assert(out@ =~= old(out)@ + right_aligned(decimal(n as nat), width as nat));
}

} // verus!
