//! The lines that list a record.

use vstd::prelude::*;
use vstd::string::StringExecFns;
use crate::model::{counts_nonnegative, Pair};
use crate::order::rows_of;

verus! {

/// The character of the digit `d`.
pub open spec fn digit(d: int) -> char {
    if d == 0 {
        '0'
    } else if d == 1 {
        '1'
    } else if d == 2 {
        '2'
    } else if d == 3 {
        '3'
    } else if d == 4 {
        '4'
    } else if d == 5 {
        '5'
    } else if d == 6 {
        '6'
    } else if d == 7 {
        '7'
    } else if d == 8 {
        '8'
    } else {
        '9'
    }
}

/// The number `n` written in base ten, without leading zeros.
pub open spec fn decimal(n: nat) -> Seq<char>
    decreases n,
{
    if n < 10 {
        seq![digit(n as int)]
    } else {
        decimal(n / 10) + seq![digit((n % 10) as int)]
    }
}

/// The line for one entry: the sentence, and with `verbose` a space and the
/// count after it.
pub open spec fn line_of(p: Pair, verbose: bool) -> Seq<char> {
    if verbose {
        p.0 + seq![' '] + decimal(p.1 as nat)
    } else {
        p.0
    }
}

/// The lines for the entries of `s`, in their order.
pub open spec fn lines_of(s: Seq<Pair>, verbose: bool) -> Seq<Seq<char>> {
    s.map_values(|p: Pair| line_of(p, verbose))
}

/// The texts that `v` holds.
pub open spec fn texts_of(v: Seq<String>) -> Seq<Seq<char>> {
    v.map_values(|s: String| s@)
}

/// The digit `d` as a text of one character.
fn digit_str(d: i32) -> (text: &'static str)
    requires
        0 <= d < 10,
    ensures
        text@ == seq![digit(d as int)],
{
    proof {
        reveal_strlit("0");
        reveal_strlit("1");
        reveal_strlit("2");
        reveal_strlit("3");
        reveal_strlit("4");
        reveal_strlit("5");
        reveal_strlit("6");
        reveal_strlit("7");
        reveal_strlit("8");
        reveal_strlit("9");
    }
    let text = if d == 0 {
        "0"
    } else if d == 1 {
        "1"
    } else if d == 2 {
        "2"
    } else if d == 3 {
        "3"
    } else if d == 4 {
        "4"
    } else if d == 5 {
        "5"
    } else if d == 6 {
        "6"
    } else if d == 7 {
        "7"
    } else if d == 8 {
        "8"
    } else {
        "9"
    };
    assert(text@ =~= seq![digit(d as int)]);
    text
}

/// The count `n` in base ten.
pub fn decimal_string(n: i32) -> (text: String)
    requires
        n >= 0,
    ensures
        text@ == decimal(n as nat),
{
    let mut text = String::from_str(digit_str(n % 10));
    let mut rest: i32 = n / 10;
    while rest > 0
        invariant
            0 <= rest,
            decimal(n as nat) == if rest > 0 {
                decimal(rest as nat) + text@
            } else {
                text@
            },
        decreases rest,
    {
        let mut longer = String::from_str(digit_str(rest % 10));
        longer.append(text.as_str());
        proof {
            if rest >= 10 {
                assert(decimal(rest as nat) + text@ =~= decimal((rest / 10) as nat) + longer@);
            }
        }
        text = longer;
        rest = rest / 10;
    }
    text
}

/// One line for each row, in the order of the rows.
pub fn lines(rows: &Vec<(&String, &i32)>, verbose: bool) -> (out: Vec<String>)
    requires
        counts_nonnegative(rows_of(rows@)),
    ensures
        texts_of(out@) == lines_of(rows_of(rows@), verbose),
{
    proof {
        reveal_strlit(" ");
    }
    let mut out: Vec<String> = Vec::new();
    let mut i: usize = 0;
    while i < rows.len()
        invariant
            i <= rows@.len(),
            counts_nonnegative(rows_of(rows@)),
            " "@ == seq![' '],
            texts_of(out@) == lines_of(rows_of(rows@), verbose).take(i as int),
        decreases rows@.len() - i,
    {
        let ghost before = texts_of(out@);
        let row = rows[i];
        assert(rows_of(rows@)[i as int] == (row.0@, *row.1 as int));
        let mut line = row.0.clone();
        if verbose {
            line.append(" ");
            line.append(decimal_string(*row.1).as_str());
        }
        out.push(line);
        proof {
            assert(texts_of(out@) =~= before.push(line@));
            assert(texts_of(out@) =~= lines_of(rows_of(rows@), verbose).take(i + 1));
        }
        i += 1;
    }
    assert(lines_of(rows_of(rows@), verbose).take(i as int) =~= lines_of(rows_of(rows@), verbose));
    out
}

} // verus!
