//! Small display helpers: formatting a price held in the smallest currency
//! unit, and switching a style class on and off.

use vstd::prelude::*;

verus! {

/// Returns `Some(class)` when `cond` holds, `None` otherwise; used by display
/// layers to switch a style class on and off.
pub fn class_if(cond: bool, class: &str) -> (r: Option<&str>)
    ensures
        r == if cond {
            Option::Some(class)
        } else {
            Option::None::<&str>
        },
{
    if cond {
        Some(class)
    } else {
        None
    }
}

/// The character for a single decimal digit.
pub open spec fn digit_char(d: int) -> char
    recommends
        0 <= d < 10,
{
    ((48 + d) as u8) as char
}

/// The decimal digits of `n`, most significant first.
pub open spec fn dec_chars(n: nat) -> Seq<char>
    decreases n,
{
    if n < 10 {
        seq![digit_char(n as int)]
    } else {
        dec_chars(n / 10).push(digit_char((n % 10) as int))
    }
}

/// A price in the smallest currency unit, rendered as euros, a dot, exactly
/// two cent digits, and the currency sign.
pub open spec fn price_chars(price: u32) -> Seq<char> {
    dec_chars((price / 100) as nat) + seq![
        '.',
        digit_char(price as int % 100 / 10),
        digit_char(price as int % 10),
        '\u{20ac}',
    ]
}

/// Appends one decimal digit to `s`.
fn push_digit(s: &mut String, d: u32)
    requires
        d < 10,
    ensures
        final(s)@ == old(s)@.push(digit_char(d as int)),
{
    let ghost c = digit_char(d as int);
    match d {
        0 => {
            proof {
                reveal_strlit("0");
            }
            s.append("0");
        },
        1 => {
            proof {
                reveal_strlit("1");
            }
            s.append("1");
        },
        2 => {
            proof {
                reveal_strlit("2");
            }
            s.append("2");
        },
        3 => {
            proof {
                reveal_strlit("3");
            }
            s.append("3");
        },
        4 => {
            proof {
                reveal_strlit("4");
            }
            s.append("4");
        },
        5 => {
            proof {
                reveal_strlit("5");
            }
            s.append("5");
        },
        6 => {
            proof {
                reveal_strlit("6");
            }
            s.append("6");
        },
        7 => {
            proof {
                reveal_strlit("7");
            }
            s.append("7");
        },
        8 => {
            proof {
                reveal_strlit("8");
            }
            s.append("8");
        },
        _ => {
            proof {
                reveal_strlit("9");
            }
            s.append("9");
        },
    }
    proof {
        assert(final(s)@ =~= old(s)@.push(c));
    }
}

/// Appends the decimal digits of `n` to `s`, most significant first.
fn push_decimal(s: &mut String, n: u32)
    ensures
        final(s)@ == old(s)@ + dec_chars(n as nat),
    decreases n,
{
    if n < 10 {
        push_digit(s, n);
        proof {
            assert(final(s)@ =~= old(s)@ + dec_chars(n as nat));
        }
    } else {
        push_decimal(s, n / 10);
        push_digit(s, n % 10);
        proof {
            assert(final(s)@ =~= old(s)@ + dec_chars(n as nat));
        }
    }
}

/// Renders a price held in the smallest currency unit as euros and cents,
/// e.g. `2.00` euros for 200.
pub fn format_display_price(price: u32) -> (r: String)
    ensures
        r@ == price_chars(price),
{
    let mut s = String::new();
    push_decimal(&mut s, price / 100);
    proof {
        reveal_strlit(".");
    }
    s.append(".");
    push_digit(&mut s, price % 100 / 10);
    push_digit(&mut s, price % 10);
    proof {
        reveal_strlit("\u{20ac}");
    }
    s.append("\u{20ac}");
    proof {
        assert(s@ =~= price_chars(price));
    }
    s
}

} // verus!
