//! Terminal color escape sequences for truecolor foreground and background.
use vstd::prelude::*;

verus! {

/// The decimal digit character for `d` (meaningful for `d < 10`).
pub open spec fn digit_char(d: nat) -> char {
    seq!['0', '1', '2', '3', '4', '5', '6', '7', '8', '9'][d as int]
}

/// The decimal representation of `n`, without leading zeros.
pub open spec fn decimal(n: nat) -> Seq<char>
    decreases n,
{
    if n < 10 {
        seq![digit_char(n)]
    } else {
        decimal(n / 10) + seq![digit_char(n % 10)]
    }
}

/// The sequence that sets the foreground color to the truecolor value `(r, g, b)`.
pub open spec fn foreground(r: u8, g: u8, b: u8) -> Seq<char> {
    "\x1b[38;2;"@ + decimal(r as nat) + ";"@ + decimal(g as nat) + ";"@ + decimal(b as nat) + "m"@
}

/// The sequence that sets the background color to the truecolor value `(r, g, b)`.
pub open spec fn background(r: u8, g: u8, b: u8) -> Seq<char> {
    "\x1b[48;2;"@ + decimal(r as nat) + ";"@ + decimal(g as nat) + ";"@ + decimal(b as nat) + "m"@
}

/// The sequence that restores the terminal's default colors.
pub open spec fn reset() -> Seq<char> {
    "\x1b[0m"@
}

/// The foreground sequence for the color channels of an RGBA pixel.
pub open spec fn foreground_of(c: [u8; 4]) -> Seq<char> {
    foreground(c[0], c[1], c[2])
}

/// The background sequence for the color channels of an RGBA pixel.
pub open spec fn background_of(c: [u8; 4]) -> Seq<char> {
    background(c[0], c[1], c[2])
}

fn digit_str(d: u8) -> (r: &'static str)
    requires
        d < 10,
    ensures
        r@ == seq![digit_char(d as nat)],
{
    match d {
        0 => {
            proof { reveal_strlit("0"); }
            "0"
        },
        1 => {
            proof { reveal_strlit("1"); }
            "1"
        },
        2 => {
            proof { reveal_strlit("2"); }
            "2"
        },
        3 => {
            proof { reveal_strlit("3"); }
            "3"
        },
        4 => {
            proof { reveal_strlit("4"); }
            "4"
        },
        5 => {
            proof { reveal_strlit("5"); }
            "5"
        },
        6 => {
            proof { reveal_strlit("6"); }
            "6"
        },
        7 => {
            proof { reveal_strlit("7"); }
            "7"
        },
        8 => {
            proof { reveal_strlit("8"); }
            "8"
        },
        _ => {
            proof { reveal_strlit("9"); }
            "9"
        },
    }
}

/// Appends the decimal digits of `n` to `out`.
pub fn push_decimal(out: &mut String, n: u8)
    ensures
        final(out)@ == old(out)@ + decimal(n as nat),
{
    proof {
        reveal_with_fuel(decimal, 3);
    }
    let ghost start = out@;
    if n >= 100 {
        out.append(digit_str(n / 100));
    }
    if n >= 10 {
        out.append(digit_str((n / 10) % 10));
    }
    out.append(digit_str(n % 10));
    proof {
        let k = n as nat;
        if k >= 100 {
            assert(decimal(k / 10) == decimal(k / 100) + seq![digit_char((k / 10) % 10)]);
            assert(decimal(k / 100) == seq![digit_char(k / 100)]);
        } else if k >= 10 {
            assert(decimal(k / 10) == seq![digit_char(k / 10)]);
            assert((k / 10) % 10 == k / 10);
        }
    }
}

fn push_channels(out: &mut String, color: &[u8; 4])
    ensures
        final(out)@ == old(out)@ + decimal(color[0] as nat) + ";"@ + decimal(color[1] as nat)
            + ";"@ + decimal(color[2] as nat) + "m"@,
{
    let ghost start = out@;
    push_decimal(out, color[0]);
    out.append(";");
    push_decimal(out, color[1]);
    out.append(";");
    push_decimal(out, color[2]);
    out.append("m");
}

/// The escape sequence that sets the foreground to the pixel's color.
pub fn rgb_to_ansi(color: &[u8; 4]) -> (r: String)
    ensures
        r@ == foreground_of(*color),
{
    let mut out = String::from_str("\x1b[38;2;");
    push_channels(&mut out, color);
    out
}

/// The escape sequence that sets the background to the pixel's color.
pub fn rgb_to_bg_ansi(color: &[u8; 4]) -> (r: String)
    ensures
        r@ == background_of(*color),
{
    let mut out = String::from_str("\x1b[48;2;");
    push_channels(&mut out, color);
    out
}

} // verus!
