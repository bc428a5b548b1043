//! Log levels and the default layout of a log record: a dimmed timestamp, the
//! level in its color, and the message, with continuation lines aligned under it.
use crate::decimal::{decimal, pad_with, push_decimal, zero_pad};
use crate::format::{push_escape, push_reset, reset, sgr, Color, Style, Stylize};
use crate::parse::{lines, split_lines};
use crate::text::{chars_of, push_char, push_chars, push_str};
use vstd::prelude::*;

verus! {

/// The level of a log record, from the most verbose to the most severe.
#[derive(Debug, Clone, Copy, PartialEq, Eq, Structural)]
pub enum Level {
    Trace,
    Debug,
    Info,
    Warn,
    Error,
}

impl Level {
    /// 5 for `Trace` down to 1 for `Error`.
    pub open spec fn rank(&self) -> nat {
        match self {
            Level::Trace => 5,
            Level::Debug => 4,
            Level::Info => 3,
            Level::Warn => 2,
            Level::Error => 1,
        }
    }

    pub open spec fn name_spec(&self) -> Seq<char> {
        match self {
            Level::Trace => "Trace"@,
            Level::Debug => "Debug"@,
            Level::Info => "Info"@,
            Level::Warn => "Warn"@,
            Level::Error => "Error"@,
        }
    }

    pub open spec fn color_spec(&self) -> Color {
        match self {
            Level::Trace => Color { r: 218, g: 0, b: 192 },
            Level::Debug => Color { r: 96, g: 216, b: 216 },
            Level::Info => Color { r: 24, g: 216, b: 16 },
            Level::Warn => Color { r: 232, g: 232, b: 64 },
            Level::Error => Color { r: 232, g: 72, b: 96 },
        }
    }

    /// The numeric value of the level.
    pub fn value(&self) -> (r: usize)
        ensures
            r == self.rank(),
    {
        match self {
            Level::Trace => 5,
            Level::Debug => 4,
            Level::Info => 3,
            Level::Warn => 2,
            Level::Error => 1,
        }
    }

    /// The name of the level, such as `Info`.
    pub fn name(&self) -> (r: &'static str)
        ensures
            r@ == self.name_spec(),
    {
        match self {
            Level::Trace => "Trace",
            Level::Debug => "Debug",
            Level::Info => "Info",
            Level::Warn => "Warn",
            Level::Error => "Error",
        }
    }

    /// The color that the level is shown in.
    pub fn color(&self) -> (r: Color)
        ensures
            r == self.color_spec(),
    {
        match self {
            Level::Trace => Color::new(218, 0, 192),
            Level::Debug => Color::new(96, 216, 216),
            Level::Info => Color::new(24, 216, 16),
            Level::Warn => Color::new(232, 232, 64),
            Level::Error => Color::new(232, 72, 96),
        }
    }
}

/// Whether a record of `level` is shown under the maximum level value `max`.
pub fn level_enabled(level: Level, max: usize) -> (r: bool)
    ensures
        r == (level.rank() <= max),
{
    level.value() <= max
}

/// The characters left when everything from an escape character up to the next
/// `m` is dropped, starting inside such a run when `in_escape` holds.
pub open spec fn strip_escapes_spec(s: Seq<char>, in_escape: bool) -> Seq<char>
    decreases s.len(),
{
    if s.len() == 0 {
        Seq::empty()
    } else {
        let c = s[0];
        if c == '\x1b' {
            strip_escapes_spec(s.drop_first(), true)
        } else if c == 'm' && in_escape {
            strip_escapes_spec(s.drop_first(), false)
        } else if !in_escape {
            seq![c] + strip_escapes_spec(s.drop_first(), false)
        } else {
            strip_escapes_spec(s.drop_first(), true)
        }
    }
}

/// Drops everything from each escape character up to the next `m`.
pub fn strip_ansi_escapes(src_str: &str) -> (r: String)
    ensures
        r@ == strip_escapes_spec(src_str@, false),
{
    let chars = chars_of(src_str);
    let n = chars.len();
    let mut out = String::new();
    let mut in_escape = false;
    let mut i: usize = 0;
    assert(chars@.skip(0) =~= chars@);
    assert(out@ + strip_escapes_spec(chars@.skip(0), in_escape) =~= strip_escapes_spec(chars@, false));
    while i < n
        invariant
            n == chars@.len(),
            chars@ == src_str@,
            i <= n,
            out@ + strip_escapes_spec(chars@.skip(i as int), in_escape) == strip_escapes_spec(
                chars@,
                false,
            ),
        decreases n - i,
    {
        let c = chars[i];
        let ghost before = out@;
        let ghost esc = in_escape;
        assert(chars@.skip(i as int).drop_first() =~= chars@.skip(i + 1));
        assert(chars@.skip(i as int)[0] == c);
        if c == '\x1b' {
            in_escape = true;
        } else if c == 'm' && in_escape {
            in_escape = false;
        } else if !in_escape {
            push_char(&mut out, c);
        }
        assert(out@ + strip_escapes_spec(chars@.skip(i + 1), in_escape) =~= before
            + strip_escapes_spec(chars@.skip(i as int), esc));
        i += 1;
    }
    assert(chars@.skip(n as int) =~= Seq::<char>::empty());
    assert(out@ =~= strip_escapes_spec(chars@, false));
    out
}

/// `text` bold, in the color of `level`.
pub open spec fn level_styled(level: Level, text: Seq<char>) -> Seq<char> {
    sgr(seq!['1']) + level.color_spec().fg_text() + text + reset() + reset()
}

/// `[HH:MM:SS.mmm]` for the time of day of `secs` seconds after 1970-01-01.
pub open spec fn clock_stamp(secs: nat, millis: nat) -> Seq<char> {
    seq!['['] + zero_pad(decimal((secs / 3600) % 24), 2) + seq![':'] + zero_pad(
        decimal((secs / 60) % 60),
        2,
    ) + seq![':'] + zero_pad(decimal(secs % 60), 2) + seq!['.'] + zero_pad(decimal(millis), 3)
        + seq![']']
}

/// The first line's prefix: the dimmed stamp, then the level right-aligned to five.
pub open spec fn log_prefix(level: Level, secs: nat, millis: nat) -> Seq<char> {
    sgr(seq!['2']) + clock_stamp(secs, millis) + reset() + seq![' '] + level_styled(
        level,
        pad_with(level.name_spec(), 5, ' '),
    ) + seq![' ']
}

/// The lines after the first, from `i` on: each on a new line, indented by
/// `indent` spaces and marked `│` or, for the last, `└`.
pub open spec fn continuation(level: Level, ls: Seq<Seq<char>>, i: int, indent: nat) -> Seq<char>
    decreases ls.len() - i,
{
    if i >= ls.len() || i < 1 {
        Seq::empty()
    } else {
        seq!['\n'] + Seq::new(indent, |_k: int| ' ') + level_styled(
            level,
            if i == ls.len() - 1 {
                "└ "@
            } else {
                "│ "@
            },
        ) + ls[i] + continuation(level, ls, i + 1, indent)
    }
}

/// The whole record for `message`, ended by the reset sequence.
pub open spec fn log_record(level: Level, secs: nat, millis: nat, message: Seq<char>) -> Seq<char> {
    let p = log_prefix(level, secs, millis);
    let ls = lines(message);
    let w = strip_escapes_spec(p, false).len();
    let indent: nat = if w >= 2 {
        (w - 2) as nat
    } else {
        0
    };
    if ls.len() == 0 {
        p + reset()
    } else {
        p + ls[0] + continuation(level, ls, 1, indent) + reset()
    }
}

/// Appends `text` bold, in the color of `level`.
fn push_level_styled(out: &mut String, level: Level, text: &str)
    ensures
        final(out)@ == old(out)@ + level_styled(level, text@),
{
    let s = text.color(level.color()).style(Style::Bold);
    assert(s@ =~= level_styled(level, text@));
    push_str(out, s.as_str());
}

/// The name of `level` right-aligned to five characters.
fn padded_name(level: Level) -> (r: String)
    ensures
        r@ == pad_with(level.name_spec(), 5, ' '),
{
    let mut padded = String::new();
    let name = level.name();
    let name_chars = chars_of(name);
    let mut k: usize = name_chars.len();
    proof {
        reveal_strlit("Trace");
        reveal_strlit("Debug");
        reveal_strlit("Info");
        reveal_strlit("Warn");
        reveal_strlit("Error");
    }
    while k < 5
        invariant
            name_chars@ == level.name_spec(),
            name_chars@.len() <= k <= 5,
            padded@ == Seq::new((k - name_chars@.len()) as nat, |_i: int| ' '),
        decreases 5 - k,
    {
        push_char(&mut padded, ' ');
        assert(padded@ =~= Seq::new((k + 1 - name_chars@.len()) as nat, |_i: int| ' '));
        k += 1;
    }
    push_str(&mut padded, name);
    assert(padded@ =~= pad_with(level.name_spec(), 5, ' '));
    padded
}

/// The first line's prefix of a record.
fn prefix_string(level: Level, secs: u64, millis: u32) -> (r: String)
    ensures
        r@ == log_prefix(level, secs as nat, millis as nat),
{
    let mut prefix = String::new();
    push_escape(&mut prefix);
    push_char(&mut prefix, '2');
    push_char(&mut prefix, 'm');
    push_char(&mut prefix, '[');
    push_decimal(&mut prefix, (secs / 3600) % 24, 2);
    push_char(&mut prefix, ':');
    push_decimal(&mut prefix, (secs / 60) % 60, 2);
    push_char(&mut prefix, ':');
    push_decimal(&mut prefix, secs % 60, 2);
    push_char(&mut prefix, '.');
    push_decimal(&mut prefix, millis as u64, 3);
    push_char(&mut prefix, ']');
    push_reset(&mut prefix);
    push_char(&mut prefix, ' ');
    let padded = padded_name(level);
    push_level_styled(&mut prefix, level, padded.as_str());
    push_char(&mut prefix, ' ');
    assert(prefix@ =~= log_prefix(level, secs as nat, millis as nat));
    prefix
}

/// Lays out a record of `level` for `message` at `secs` seconds and `millis`
/// milliseconds after 1970-01-01.
pub fn format_record(level: Level, secs: u64, millis: u32, message: &str) -> (r: String)
    ensures
        r@ == log_record(level, secs as nat, millis as nat, message@),
{
    let prefix = prefix_string(level, secs, millis);
    let visible = strip_ansi_escapes(prefix.as_str());
    let width = chars_of(visible.as_str()).len();
    let indent: usize = if width >= 2 { width - 2 } else { 0 };
    let ls = split_lines(message);
    let ghost all = lines(message@);
    let mut out = prefix;
    if ls.len() == 0 {
        push_reset(&mut out);
        return out;
    }
    push_chars(&mut out, &ls[0]);
    let ghost head = out@;
    let mut i: usize = 1;
    assert(head + continuation(level, all, 1, indent as nat) =~= out@ + continuation(
        level,
        all,
        i as int,
        indent as nat,
    ));
    while i < ls.len()
        invariant
            all == lines(message@),
            ls@.len() == all.len(),
            forall|j: int| 0 <= j < ls@.len() ==> #[trigger] ls@[j]@ == all[j],
            1 <= i <= ls@.len(),
            out@ + continuation(level, all, i as int, indent as nat) == head + continuation(
                level,
                all,
                1,
                indent as nat,
            ),
        decreases ls@.len() - i,
    {
        let ghost before = out@;
        push_char(&mut out, '\n');
        let mut s: usize = 0;
        while s < indent
            invariant
                s <= indent,
                out@ == before + seq!['\n'] + Seq::new(s as nat, |_k: int| ' '),
            decreases indent - s,
        {
            push_char(&mut out, ' ');
            assert(out@ =~= before + seq!['\n'] + Seq::new((s + 1) as nat, |_k: int| ' '));
            s += 1;
        }
        let mark = if i == ls.len() - 1 { "└ " } else { "│ " };
        push_level_styled(&mut out, level, mark);
        push_chars(&mut out, &ls[i]);
        assert(out@ + continuation(level, all, i + 1, indent as nat) =~= before + continuation(
            level,
            all,
            i as int,
            indent as nat,
        ));
        i += 1;
    }
    push_reset(&mut out);
    assert(out@ =~= log_record(level, secs as nat, millis as nat, message@));
    out
}

/// A layout for log records.
pub trait DlogStyle {
    /// The record for `message` of `level` at `secs` seconds and `millis`
    /// milliseconds after 1970-01-01.
    fn format_log(&self, level: &Level, secs: u64, millis: u32, message: &str) -> String;

    /// `msg` styled as the indicator of `level`.
    fn level_color(&self, level: &Level, msg: &str) -> String;
}

/// The layout of `format_record`.
pub struct DefaultDlogStyle;

impl DlogStyle for DefaultDlogStyle {
    fn format_log(&self, level: &Level, secs: u64, millis: u32, message: &str) -> (r: String)
        ensures
            r@ == log_record(*level, secs as nat, millis as nat, message@),
    {
        format_record(*level, secs, millis, message)
    }

    fn level_color(&self, level: &Level, msg: &str) -> String {
        msg.color(level.color()).style(Style::Bold)
    }
}

} // verus!
