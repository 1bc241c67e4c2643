use vstd::prelude::*;
use vstd::string::*;

verus! {

/// The character of one decimal digit; `d` is below ten.
pub open spec fn digit_char(d: nat) -> char {
    if d == 0 {
        '0'
    } else if d == 1 {
        '1'
    } else if d == 2 {
        '2'
    } else if d == 3 {
        '3'
    } else if d == 4 {
        '4'
    } else if d == 5 {
        '5'
    } else if d == 6 {
        '6'
    } else if d == 7 {
        '7'
    } else if d == 8 {
        '8'
    } else {
        '9'
    }
}

/// The decimal numeral of `n`, most significant digit first, without
/// leading zeros (zero itself is the single digit `0`).
pub open spec fn decimal(n: nat) -> Seq<char>
    decreases n,
{
    if n < 10 {
        seq![digit_char(n)]
    } else {
        decimal(n / 10).push(digit_char(n % 10))
    }
}

/// A channel level brought into the range of an image file: below zero
/// becomes zero, above 255 becomes 255.
pub open spec fn clamp_level(level: int) -> nat {
    if level < 0 {
        0
    } else if level > 255 {
        255
    } else {
        level as nat
    }
}

/// Appends the character of the digit `d` to `out`.
fn push_digit(out: &mut String, d: usize)
    requires
        d < 10,
    ensures
        final(out)@ == old(out)@.push(digit_char(d as nat)),
{
    proof {
        reveal_strlit("0");
        reveal_strlit("1");
        reveal_strlit("2");
        reveal_strlit("3");
        reveal_strlit("4");
        reveal_strlit("5");
        reveal_strlit("6");
        reveal_strlit("7");
        reveal_strlit("8");
        reveal_strlit("9");
    }
    let glyph = if d == 0 {
        "0"
    } else if d == 1 {
        "1"
    } else if d == 2 {
        "2"
    } else if d == 3 {
        "3"
    } else if d == 4 {
        "4"
    } else if d == 5 {
        "5"
    } else if d == 6 {
        "6"
    } else if d == 7 {
        "7"
    } else if d == 8 {
        "8"
    } else {
        "9"
    };
    assert(glyph@ =~= seq![digit_char(d as nat)]);
    out.append(glyph);
    assert(out@ =~= old(out)@.push(digit_char(d as nat)));
}

/// Appends the decimal numeral of `n` to `out`.
pub fn push_decimal(out: &mut String, n: usize)
    ensures
        final(out)@ == old(out)@ + decimal(n as nat),
    decreases n,
{
    if n >= 10 {
        push_decimal(out, n / 10);
    }
    push_digit(out, n % 10);
    assert(out@ =~= old(out)@ + decimal(n as nat));
}

/// Something that can be written as one pixel of a plain-text image.
pub trait ToRGB {
    /// The three channel levels as they are written, each within `0..=255`.
    spec fn levels(&self) -> (nat, nat, nat);

    /// The pixel's text: its three levels in decimal, red first, with one
    /// space between them.
    fn to_rgb_string(&self) -> (text: String)
        ensures
            text@ == rgb_text(self.levels()),
    ;
}

/// Three levels in decimal with one space between them.
pub open spec fn rgb_text(levels: (nat, nat, nat)) -> Seq<char> {
    decimal(levels.0).push(' ') + decimal(levels.1).push(' ') + decimal(levels.2)
}

/// A colour on the output scale: each channel is a whole number of 255ths of
/// full intensity. Channels are unbounded; they are clamped when written.
#[derive(Clone, Copy, Debug, PartialEq, Eq, Structural)]
pub struct Color {
    pub red: i64,
    pub green: i64,
    pub blue: i64,
}

impl Color {
    pub fn new(red: i64, green: i64, blue: i64) -> (c: Self)
        ensures
            c == (Color { red, green, blue }),
    {
        Self { red, green, blue }
    }

    /// Full intensity in every channel.
    pub fn white() -> (c: Self)
        ensures
            c == (Color { red: 255, green: 255, blue: 255 }),
    {
        Self::new(255, 255, 255)
    }

    /// No intensity in any channel.
    pub fn black() -> (c: Self)
        ensures
            c == (Color { red: 0, green: 0, blue: 0 }),
    {
        Self::new(0, 0, 0)
    }
}

/// Clamps one channel level into `0..=255`.
pub fn clamp_channel(level: i64) -> (r: usize)
    ensures
        r == clamp_level(level as int),
{
    if level < 0 {
        0
    } else if level > 255 {
        255
    } else {
        level as usize
    }
}

impl ToRGB for Color {
    open spec fn levels(&self) -> (nat, nat, nat) {
        (
            clamp_level(self.red as int),
            clamp_level(self.green as int),
            clamp_level(self.blue as int),
        )
    }

    fn to_rgb_string(&self) -> (text: String) {
        let mut text = String::new();
        push_decimal(&mut text, clamp_channel(self.red));
        proof {
            reveal_strlit(" ");
        }
        text.append(" ");
        push_decimal(&mut text, clamp_channel(self.green));
        text.append(" ");
        push_decimal(&mut text, clamp_channel(self.blue));
        assert(text@ =~= rgb_text(self.levels()));
        text
    }
}

} // verus!
