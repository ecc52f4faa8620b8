use vstd::prelude::*;

verus! {

/// One decimal digit as a character; defined for 0 through 9.
pub open spec fn digit_char(n: int) -> char {
    crate::json::hex_digit(n)
}

/// The shortest decimal rendering of a byte, as terminal escape codes carry
/// channel values.
pub open spec fn dec_u8(n: u8) -> Seq<char> {
    if n < 10 {
        seq![digit_char(n as int)]
    } else if n < 100 {
        seq![digit_char(n as int / 10), digit_char(n as int % 10)]
    } else {
        seq![
            digit_char(n as int / 100),
            digit_char((n as int / 10) % 10),
            digit_char(n as int % 10),
        ]
    }
}

/// The escape that sets a 24-bit foreground color.
pub open spec fn ansi_rgb_prefix(r: u8, g: u8, b: u8) -> Seq<char> {
    seq!['\u{1b}', '[', '3', '8', ';', '2', ';'] + dec_u8(r) + seq![';'] + dec_u8(g) + seq![';']
        + dec_u8(b) + seq!['m']
}

/// The escape that sets one of the base foreground colors, named by its final
/// code digit.
pub open spec fn ansi_named_prefix(code: char) -> Seq<char> {
    seq!['\u{1b}', '[', '3', code, 'm']
}

/// The escape that clears all styling.
pub open spec fn ansi_reset() -> Seq<char> {
    seq!['\u{1b}', '[', '0', 'm']
}

/// Relies on yansi's `Paint` with an RGB foreground: it renders as the 24-bit
/// foreground escape, then the text, then the reset escape. Holds while
/// coloring stays enabled, the default this crate never changes.
#[verifier::external_body]
pub fn paint_rgb(text: &str, r: u8, g: u8, b: u8) -> (out: String)
    ensures
        out@ == ansi_rgb_prefix(r, g, b) + text@ + ansi_reset(),
{
    yansi::Paint::new(text).fg(yansi::Color::RGB(r, g, b)).to_string()
}

/// Relies on yansi's `Paint::red`: it renders as the red foreground escape,
/// then the text, then the reset escape. Holds while coloring stays enabled,
/// the default this crate never changes.
#[verifier::external_body]
pub fn paint_red(text: &str) -> (out: String)
    ensures
        out@ == ansi_named_prefix('1') + text@ + ansi_reset(),
{
    yansi::Paint::red(text).to_string()
}

/// Relies on yansi's `Paint::green`: it renders as the green foreground
/// escape, then the text, then the reset escape. Holds while coloring stays
/// enabled, the default this crate never changes.
#[verifier::external_body]
pub fn paint_green(text: &str) -> (out: String)
    ensures
        out@ == ansi_named_prefix('2') + text@ + ansi_reset(),
{
    yansi::Paint::green(text).to_string()
}

/// Relies on yansi's `Paint::yellow`: it renders as the yellow foreground
/// escape, then the text, then the reset escape. Holds while coloring stays
/// enabled, the default this crate never changes.
#[verifier::external_body]
pub fn paint_yellow(text: &str) -> (out: String)
    ensures
        out@ == ansi_named_prefix('3') + text@ + ansi_reset(),
{
    yansi::Paint::yellow(text).to_string()
}

/// Relies on yansi's `Paint::blue`: it renders as the blue foreground escape,
/// then the text, then the reset escape. Holds while coloring stays enabled,
/// the default this crate never changes.
#[verifier::external_body]
pub fn paint_blue(text: &str) -> (out: String)
    ensures
        out@ == ansi_named_prefix('4') + text@ + ansi_reset(),
{
    yansi::Paint::blue(text).to_string()
}

/// Relies on yansi's `Paint::cyan`: it renders as the cyan foreground escape,
/// then the text, then the reset escape. Holds while coloring stays enabled,
/// the default this crate never changes.
#[verifier::external_body]
pub fn paint_cyan(text: &str) -> (out: String)
    ensures
        out@ == ansi_named_prefix('6') + text@ + ansi_reset(),
{
    yansi::Paint::cyan(text).to_string()
}

} // verus!
