//! Colors and styles for terminal text as ANSI escape sequences, and the
//! removal of such sequences.
use crate::decimal::{decimal, push_decimal};
use crate::text::{chars_of, push_char, push_str};
use vstd::prelude::*;

verus! {

/// The escape sequence `ESC [ code m`.
pub open spec fn sgr(code: Seq<char>) -> Seq<char> {
    seq!['\x1b', '['] + code + seq!['m']
}

/// The sequence that resets all colors and styles.
pub open spec fn reset() -> Seq<char> {
    sgr(seq!['0'])
}

/// `a;r;g;b` for a 24-bit color, with `a` 38 for the foreground or 48 for the background.
pub open spec fn rgb_code(a: nat, r: u8, g: u8, b: u8) -> Seq<char> {
    decimal(a) + seq![';', '2', ';'] + decimal(r as nat) + seq![';'] + decimal(g as nat) + seq![';']
        + decimal(b as nat)
}

/// Appends `ESC [`.
pub(crate) fn push_escape(out: &mut String)
    ensures
        final(out)@ == old(out)@ + seq!['\x1b', '['],
{
    let ghost start = out@;
    push_char(out, '\x1b');
    push_char(out, '[');
    assert(out@ =~= start + seq!['\x1b', '[']);
}

/// Appends `ESC [ a;2;r;g;b m`.
pub(crate) fn push_rgb(out: &mut String, a: u64, r: u8, g: u8, b: u8)
    ensures
        final(out)@ == old(out)@ + sgr(rgb_code(a as nat, r, g, b)),
{
    let ghost start = out@;
    push_escape(out);
    push_decimal(out, a, 0);
    push_char(out, ';');
    push_char(out, '2');
    push_char(out, ';');
    push_decimal(out, r as u64, 0);
    push_char(out, ';');
    push_decimal(out, g as u64, 0);
    push_char(out, ';');
    push_decimal(out, b as u64, 0);
    push_char(out, 'm');
    assert(out@ =~= start + sgr(rgb_code(a as nat, r, g, b)));
}

/// Appends the reset sequence `ESC [ 0 m`.
pub(crate) fn push_reset(out: &mut String)
    ensures
        final(out)@ == old(out)@ + reset(),
{
    let ghost start = out@;
    push_escape(out);
    push_char(out, '0');
    push_char(out, 'm');
    assert(out@ =~= start + reset());
}

/// A 24-bit RGB color.
#[derive(Debug, Clone, Copy, PartialEq, Eq, Structural)]
pub struct Color {
    pub r: u8,
    pub g: u8,
    pub b: u8,
}

impl Color {
    /// The color with components `r`, `g` and `b`.
    pub fn new(r: u8, g: u8, b: u8) -> (c: Self)
        ensures
            c == (Color { r, g, b }),
    {
        Color { r, g, b }
    }

    /// The components as `(r, g, b)`.
    pub fn to_rgb(&self) -> (t: (u8, u8, u8))
        ensures
            t == (self.r, self.g, self.b),
    {
        (self.r, self.g, self.b)
    }

    /// The sequence that sets this color for the foreground.
    pub open spec fn fg_text(&self) -> Seq<char> {
        sgr(rgb_code(38, self.r, self.g, self.b))
    }

    /// The sequence that sets this color for the background.
    pub open spec fn bg_text(&self) -> Seq<char> {
        sgr(rgb_code(48, self.r, self.g, self.b))
    }

    /// `ESC [38;2;r;g;b m`, which sets this color for the foreground.
    pub fn as_fg(&self) -> (s: String)
        ensures
            s@ == self.fg_text(),
    {
        let mut out = String::new();
        push_rgb(&mut out, 38, self.r, self.g, self.b);
        assert(out@ =~= self.fg_text());
        out
    }

    /// `ESC [48;2;r;g;b m`, which sets this color for the background.
    pub fn as_bg(&self) -> (s: String)
        ensures
            s@ == self.bg_text(),
    {
        let mut out = String::new();
        push_rgb(&mut out, 48, self.r, self.g, self.b);
        assert(out@ =~= self.bg_text());
        out
    }
}

/// A text style.
#[derive(Debug, Clone, Copy, PartialEq, Eq, Structural)]
pub enum Style {
    Bold,
    Dim,
    Italic,
    Underline,
    Hidden,
}

impl Style {
    /// The digit of the style's SGR code.
    pub open spec fn digit(&self) -> char {
        match self {
            Style::Bold => '1',
            Style::Dim => '2',
            Style::Italic => '3',
            Style::Underline => '4',
            Style::Hidden => '8',
        }
    }

    /// `ESC [ n m` for the style's code `n`.
    pub fn code(&self) -> (s: String)
        ensures
            s@ == sgr(seq![self.digit()]),
    {
        let d = match self {
            Style::Bold => '1',
            Style::Dim => '2',
            Style::Italic => '3',
            Style::Underline => '4',
            Style::Hidden => '8',
        };
        let mut out = String::new();
        push_escape(&mut out);
        push_char(&mut out, d);
        push_char(&mut out, 'm');
        assert(out@ =~= sgr(seq![self.digit()]));
        out
    }
}

/// Wraps text in a color or a style, followed by the reset sequence.
pub trait Stylize {
    /// The characters of the text.
    spec fn chars(&self) -> Seq<char>;

    /// The text in the foreground `color`.
    fn color(&self, color: Color) -> (s: String)
        ensures
            s@ == color.fg_text() + self.chars() + reset(),
    ;

    /// The text on the background `color`.
    fn on_color(&self, color: Color) -> (s: String)
        ensures
            s@ == color.bg_text() + self.chars() + reset(),
    ;

    /// The text in `style`.
    fn style(&self, style: Style) -> (s: String)
        ensures
            s@ == sgr(seq![style.digit()]) + self.chars() + reset(),
    ;
}

/// `prefix`, then `text`, then the reset sequence.
fn wrap(prefix: String, text: &str) -> (s: String)
    ensures
        s@ == prefix@ + text@ + reset(),
{
    let mut out = prefix;
    push_str(&mut out, text);
    push_reset(&mut out);
    out
}

impl Stylize for str {
    open spec fn chars(&self) -> Seq<char> {
        self@
    }

    fn color(&self, color: Color) -> (s: String) {
        wrap(color.as_fg(), self)
    }

    fn on_color(&self, color: Color) -> (s: String) {
        wrap(color.as_bg(), self)
    }

    fn style(&self, style: Style) -> (s: String) {
        wrap(style.code(), self)
    }
}

impl Stylize for String {
    open spec fn chars(&self) -> Seq<char> {
        self@
    }

    fn color(&self, color: Color) -> (s: String) {
        wrap(color.as_fg(), self.as_str())
    }

    fn on_color(&self, color: Color) -> (s: String) {
        wrap(color.as_bg(), self.as_str())
    }

    fn style(&self, style: Style) -> (s: String) {
        wrap(style.code(), self.as_str())
    }
}

/// Where the scan of `strip_ansi_codes` stands: in plain text, just after an
/// escape character, or inside a `ESC [` sequence.
#[derive(Debug, Clone, Copy, PartialEq, Eq, Structural)]
pub enum AnsiState {
    Normal,
    Escape,
    Csi,
}

/// One step of the scan: the next state, and the character kept, if any.
pub open spec fn ansi_step(state: AnsiState, c: char) -> (AnsiState, Option<char>) {
    match state {
        AnsiState::Normal => if c == '\x1b' {
            (AnsiState::Escape, None)
        } else {
            (AnsiState::Normal, Some(c))
        },
        AnsiState::Escape => if c == '[' {
            (AnsiState::Csi, None)
        } else {
            (AnsiState::Normal, Some('\x1b'))
        },
        AnsiState::Csi => if c == 'm' {
            (AnsiState::Normal, None)
        } else if ('0' <= c && c <= '9') || c == ';' {
            (AnsiState::Csi, None)
        } else {
            (AnsiState::Normal, Some(c))
        },
    }
}

/// The characters that the scan keeps from `s`, starting in `state`.
pub open spec fn strip_spec(s: Seq<char>, state: AnsiState) -> Seq<char>
    decreases s.len(),
{
    if s.len() == 0 {
        Seq::empty()
    } else {
        let (next, kept) = ansi_step(state, s[0]);
        match kept {
            Some(k) => seq![k] + strip_spec(s.drop_first(), next),
            None => strip_spec(s.drop_first(), next),
        }
    }
}

/// Removes ANSI escape sequences: an escape character followed by `[`, digits
/// and `;` up to an `m` is dropped; a character that ends such a sequence early
/// is kept, and an escape character not followed by `[` is kept while the
/// character after it is dropped.
pub fn strip_ansi_codes(s: &str) -> (r: String)
    ensures
        r@ == strip_spec(s@, AnsiState::Normal),
{
    let chars = chars_of(s);
    let n = chars.len();
    let mut out = String::new();
    let mut state = AnsiState::Normal;
    let mut i: usize = 0;
    assert(chars@.skip(0) =~= chars@);
    assert(out@ + strip_spec(chars@.skip(0), state) =~= strip_spec(chars@, AnsiState::Normal));
    while i < n
        invariant
            n == chars@.len(),
            chars@ == s@,
            i <= n,
            out@ + strip_spec(chars@.skip(i as int), state) == strip_spec(
                chars@,
                AnsiState::Normal,
            ),
        decreases n - i,
    {
        let c = chars[i];
        let ghost before = out@;
        let ghost st = state;
        assert(chars@.skip(i as int).drop_first() =~= chars@.skip(i + 1));
        assert(chars@.skip(i as int)[0] == c);
        match state {
            AnsiState::Normal => {
                if c == '\x1b' {
                    state = AnsiState::Escape;
                } else {
                    push_char(&mut out, c);
                }
            },
            AnsiState::Escape => {
                if c == '[' {
                    state = AnsiState::Csi;
                } else {
                    state = AnsiState::Normal;
                    push_char(&mut out, '\x1b');
                }
            },
            AnsiState::Csi => {
                if c == 'm' {
                    state = AnsiState::Normal;
                } else if ('0' <= c && c <= '9') || c == ';' {
                } else {
                    state = AnsiState::Normal;
                    push_char(&mut out, c);
                }
            },
        }
        assert(out@ + strip_spec(chars@.skip(i + 1), state) =~= before + strip_spec(
            chars@.skip(i as int),
            st,
        ));
        i += 1;
    }
    assert(chars@.skip(n as int) =~= Seq::<char>::empty());
    assert(out@ =~= strip_spec(chars@, AnsiState::Normal));
    out
}

/// The number of characters left once ANSI escape sequences are removed.
pub fn visual_length(s: &str) -> (r: usize)
    ensures
        r == strip_spec(s@, AnsiState::Normal).len(),
{
    let stripped = strip_ansi_codes(s);
    chars_of(stripped.as_str()).len()
}

} // verus!
