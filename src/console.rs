//! Named colors and styles for terminal text, picked by a short name.
use crate::decimal::{decimal, push_decimal};
use crate::format::{push_escape, push_reset, push_rgb, reset, rgb_code, sgr};
use crate::text::{chars_of, push_char, push_str};
use vstd::prelude::*;

verus! {

/// Whether `a` and `b` hold the same characters.
pub(crate) fn text_eq(a: &str, b: &str) -> (r: bool)
    ensures
        r == (a@ == b@),
{
    let x = chars_of(a);
    let y = chars_of(b);
    if x.len() != y.len() {
        return false;
    }
    let mut i: usize = 0;
    while i < x.len()
        invariant
            x@.len() == y@.len(),
            x@ == a@,
            y@ == b@,
            i <= x@.len(),
            forall|j: int| 0 <= j < i ==> x@[j] == y@[j],
        decreases x@.len() - i,
    {
        if x[i] != y[i] {
            assert(a@[i as int] != b@[i as int]);
            return false;
        }
        i += 1;
    }
    assert(x@ =~= y@);
    true
}

/// The foreground code for a color name: `r`/`red` 31, `g`/`green` 32,
/// `b`/`blue` 34, `c`/`cyan` 36, `m`/`magenta` 35, `y`/`yellow` 33, else 0.
pub open spec fn fg_code(name: Seq<char>) -> Seq<char> {
    if name == "r"@ || name == "red"@ {
        "31"@
    } else if name == "g"@ || name == "green"@ {
        "32"@
    } else if name == "b"@ || name == "blue"@ {
        "34"@
    } else if name == "c"@ || name == "cyan"@ {
        "36"@
    } else if name == "m"@ || name == "magenta"@ {
        "35"@
    } else if name == "y"@ || name == "yellow"@ {
        "33"@
    } else {
        "0"@
    }
}

/// The 256-color background index for a color name: `r`/`red` 196,
/// `g`/`green` 46, `b`/`blue` 21, `c`/`cyan` 51, `m`/`magenta` 201, `y`/`yellow` 3,
/// `w`/`white` 15, `black` 0, else 256.
pub open spec fn bg_code(name: Seq<char>) -> Seq<char> {
    if name == "r"@ || name == "red"@ {
        "196"@
    } else if name == "g"@ || name == "green"@ {
        "46"@
    } else if name == "b"@ || name == "blue"@ {
        "21"@
    } else if name == "c"@ || name == "cyan"@ {
        "51"@
    } else if name == "m"@ || name == "magenta"@ {
        "201"@
    } else if name == "y"@ || name == "yellow"@ {
        "3"@
    } else if name == "w"@ || name == "white"@ {
        "15"@
    } else if name == "black"@ {
        "0"@
    } else {
        "256"@
    }
}

/// The code for a style name: `bold` 1, `dim` 2, `italic` 3, `underline` 4,
/// `blink` 5, `reverse` 7, `hidden` 8, else 0.
pub open spec fn style_code(name: Seq<char>) -> Seq<char> {
    if name == "bold"@ {
        "1"@
    } else if name == "dim"@ {
        "2"@
    } else if name == "italic"@ {
        "3"@
    } else if name == "underline"@ {
        "4"@
    } else if name == "blink"@ {
        "5"@
    } else if name == "reverse"@ {
        "7"@
    } else if name == "hidden"@ {
        "8"@
    } else {
        "0"@
    }
}

/// `ESC [ code m`, then `text`, then the reset sequence.
fn wrap_code(code: &str, text: &str) -> (s: String)
    ensures
        s@ == sgr(code@) + text@ + reset(),
{
    let mut out = String::new();
    push_escape(&mut out);
    push_str(&mut out, code);
    push_char(&mut out, 'm');
    push_str(&mut out, text);
    push_reset(&mut out);
    assert(out@ =~= sgr(code@) + text@ + reset());
    out
}

/// `string` in the foreground color named `fg`.
pub fn set_fg(string: &str, fg: &str) -> (s: String)
    ensures
        s@ == sgr(fg_code(fg@)) + string@ + reset(),
{
    let code = if text_eq(fg, "r") || text_eq(fg, "red") {
        "31"
    } else if text_eq(fg, "g") || text_eq(fg, "green") {
        "32"
    } else if text_eq(fg, "b") || text_eq(fg, "blue") {
        "34"
    } else if text_eq(fg, "c") || text_eq(fg, "cyan") {
        "36"
    } else if text_eq(fg, "m") || text_eq(fg, "magenta") {
        "35"
    } else if text_eq(fg, "y") || text_eq(fg, "yellow") {
        "33"
    } else {
        "0"
    };
    wrap_code(code, string)
}

/// `string` on the 256-color background named `bg`.
pub fn set_bg(string: &str, bg: &str) -> (s: String)
    ensures
        s@ == sgr("48;5;"@ + bg_code(bg@)) + string@ + reset(),
{
    let code = if text_eq(bg, "r") || text_eq(bg, "red") {
        "196"
    } else if text_eq(bg, "g") || text_eq(bg, "green") {
        "46"
    } else if text_eq(bg, "b") || text_eq(bg, "blue") {
        "21"
    } else if text_eq(bg, "c") || text_eq(bg, "cyan") {
        "51"
    } else if text_eq(bg, "m") || text_eq(bg, "magenta") {
        "201"
    } else if text_eq(bg, "y") || text_eq(bg, "yellow") {
        "3"
    } else if text_eq(bg, "w") || text_eq(bg, "white") {
        "15"
    } else if text_eq(bg, "black") {
        "0"
    } else {
        "256"
    };
    let mut out = String::new();
    push_escape(&mut out);
    push_str(&mut out, "48;5;");
    push_str(&mut out, code);
    push_char(&mut out, 'm');
    push_str(&mut out, string);
    push_reset(&mut out);
    assert(out@ =~= sgr("48;5;"@ + bg_code(bg@)) + string@ + reset());
    out
}

/// `string` in the foreground color with components `r`, `g`, `b`.
pub fn set_fg_rgb(string: &str, r: u8, g: u8, b: u8) -> (s: String)
    ensures
        s@ == sgr(rgb_code(38, r, g, b)) + string@ + reset(),
{
    let mut out = String::new();
    push_rgb(&mut out, 38, r, g, b);
    push_str(&mut out, string);
    push_reset(&mut out);
    out
}

/// `string` on the background color with components `r`, `g`, `b`.
pub fn set_bg_rgb(string: &str, r: u8, g: u8, b: u8) -> (s: String)
    ensures
        s@ == sgr(rgb_code(48, r, g, b)) + string@ + reset(),
{
    let mut out = String::new();
    push_rgb(&mut out, 48, r, g, b);
    push_str(&mut out, string);
    push_reset(&mut out);
    out
}

/// `string` in the style named `style`.
pub fn set_style(string: &str, style: &str) -> (s: String)
    ensures
        s@ == sgr(style_code(style@)) + string@ + reset(),
{
    let code = if text_eq(style, "bold") {
        "1"
    } else if text_eq(style, "dim") {
        "2"
    } else if text_eq(style, "italic") {
        "3"
    } else if text_eq(style, "underline") {
        "4"
    } else if text_eq(style, "blink") {
        "5"
    } else if text_eq(style, "reverse") {
        "7"
    } else if text_eq(style, "hidden") {
        "8"
    } else {
        "0"
    };
    wrap_code(code, string)
}

/// `string` in color `color` of the 256-color palette.
pub fn set_fg_256(string: &str, color: u8) -> (s: String)
    ensures
        s@ == sgr("38;5;"@ + decimal(color as nat)) + string@ + reset(),
{
    let mut out = String::new();
    push_escape(&mut out);
    push_str(&mut out, "38;5;");
    push_decimal(&mut out, color as u64, 0);
    push_char(&mut out, 'm');
    push_str(&mut out, string);
    push_reset(&mut out);
    assert(out@ =~= sgr("38;5;"@ + decimal(color as nat)) + string@ + reset());
    out
}

} // verus!
