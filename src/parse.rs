//! Splitting text into words and pieces, and reading decimal integers, as the
//! date-time parser needs them.
use crate::text::chars_of;
use vstd::prelude::*;

verus! {

/// Whether `c` is white space in the Unicode sense.
pub open spec fn is_ws(c: char) -> bool {
    ('\t' <= c && c <= '\r') || c == ' ' || c == '\u{85}' || c == '\u{a0}' || c == '\u{1680}' || (
    '\u{2000}' <= c && c <= '\u{200a}') || c == '\u{2028}' || c == '\u{2029}' || c == '\u{202f}'
        || c == '\u{205f}' || c == '\u{3000}'
}

/// The maximal runs of characters that are not white space, in order.
pub open spec fn words(s: Seq<char>) -> Seq<Seq<char>>
    decreases s.len(),
{
    if s.len() == 0 {
        Seq::empty()
    } else {
        let w = words(s.drop_last());
        let c = s.last();
        if is_ws(c) {
            w
        } else if s.len() >= 2 && !is_ws(s[s.len() - 2]) {
            w.update(w.len() - 1, w.last().push(c))
        } else {
            w.push(seq![c])
        }
    }
}

/// The pieces of `s` between occurrences of `sep`, empty ones included.
pub open spec fn pieces(s: Seq<char>, sep: char) -> Seq<Seq<char>>
    decreases s.len(),
{
    if s.len() == 0 {
        seq![Seq::empty()]
    } else {
        let p = pieces(s.drop_last(), sep);
        if s.last() == sep {
            p.push(Seq::empty())
        } else {
            p.update(p.len() - 1, p.last().push(s.last()))
        }
    }
}

/// Whether `c` is an ASCII digit.
pub open spec fn is_ascii_digit(c: char) -> bool {
    '0' <= c && c <= '9'
}

/// The value of a string of ASCII digits.
pub open spec fn dec_value(s: Seq<char>) -> nat
    decreases s.len(),
{
    if s.len() == 0 {
        0
    } else {
        dec_value(s.drop_last()) * 10 + (s.last() as nat - '0' as nat) as nat
    }
}

/// The value of `s` if it is one or more ASCII digits and the value is at most `bound`.
pub open spec fn bounded_digits(s: Seq<char>, bound: nat) -> Option<nat> {
    if s.len() > 0 && (forall|i: int| 0 <= i < s.len() ==> is_ascii_digit(#[trigger] s[i]))
        && dec_value(s) <= bound {
        Some(dec_value(s))
    } else {
        None
    }
}

/// `s` read as a `u8`: an optional `+`, then decimal digits.
pub open spec fn u8_of(s: Seq<char>) -> Option<u8> {
    let d = if s.len() > 0 && s[0] == '+' {
        s.drop_first()
    } else {
        s
    };
    match bounded_digits(d, 255) {
        Some(v) => Some(v as u8),
        None => None,
    }
}

/// `s` read as an `i32`: an optional `+` or `-`, then decimal digits.
pub open spec fn i32_of(s: Seq<char>) -> Option<i32> {
    if s.len() > 0 && s[0] == '-' {
        match bounded_digits(s.drop_first(), 0x8000_0000) {
            Some(v) => Some((-v) as i32),
            None => None,
        }
    } else {
        let d = if s.len() > 0 && s[0] == '+' {
            s.drop_first()
        } else {
            s
        };
        match bounded_digits(d, 0x7fff_ffff) {
            Some(v) => Some(v as i32),
            None => None,
        }
    }
}

/// Whether `c` is white space.
fn char_is_ws(c: char) -> (r: bool)
    ensures
        r == is_ws(c),
{
    ('\t' <= c && c <= '\r') || c == ' ' || c == '\u{85}' || c == '\u{a0}' || c == '\u{1680}' || (
    '\u{2000}' <= c && c <= '\u{200a}') || c == '\u{2028}' || c == '\u{2029}' || c == '\u{202f}'
        || c == '\u{205f}' || c == '\u{3000}'
}

/// The words of `s`.
pub fn split_words(s: &str) -> (r: Vec<Vec<char>>)
    ensures
        r@.len() == words(s@).len(),
        forall|i: int| 0 <= i < r@.len() ==> #[trigger] r@[i]@ == words(s@)[i],
{
    let cs = chars_of(s);
    let n = cs.len();
    let mut out: Vec<Vec<char>> = Vec::new();
    let mut i: usize = 0;
    assert(cs@.take(0) =~= Seq::<char>::empty());
    while i < n
        invariant
            n == cs@.len(),
            cs@ == s@,
            i <= n,
            out@.len() == words(cs@.take(i as int)).len(),
            forall|j: int| 0 <= j < out@.len() ==> #[trigger] out@[j]@ == words(cs@.take(i as int))[j],
            i > 0 && !is_ws(cs@[i - 1]) ==> out@.len() > 0,
        decreases n - i,
    {
        let c = cs[i];
        let ghost pre = cs@.take(i as int);
        let ghost next = cs@.take(i + 1);
        assert(next.drop_last() =~= pre);
        assert(next.last() == c);
        if char_is_ws(c) {
        } else if i > 0 && !char_is_ws(cs[i - 1]) {
            assert(next[next.len() - 2] == cs@[i - 1]);
            let last = out.len() - 1;
            let mut word = out.remove(last);
            word.push(c);
            out.push(word);
            assert forall|j: int| 0 <= j < out@.len() implies #[trigger] out@[j]@ == words(next)[j] by {
                if j < last {
                }
            }
        } else {
            let mut word: Vec<char> = Vec::new();
            word.push(c);
            assert(word@ =~= seq![c]);
            out.push(word);
            assert forall|j: int| 0 <= j < out@.len() implies #[trigger] out@[j]@ == words(next)[j] by {
                if j < out@.len() - 1 {
                }
            }
        }
        i += 1;
    }
    assert(cs@.take(n as int) =~= cs@);
    out
}

/// The pieces of `s` between occurrences of `sep`.
pub fn split_pieces(s: &Vec<char>, sep: char) -> (r: Vec<Vec<char>>)
    ensures
        r@.len() == pieces(s@, sep).len(),
        forall|i: int| 0 <= i < r@.len() ==> #[trigger] r@[i]@ == pieces(s@, sep)[i],
{
    let n = s.len();
    let mut out: Vec<Vec<char>> = Vec::new();
    out.push(Vec::new());
    let mut i: usize = 0;
    assert(s@.take(0) =~= Seq::<char>::empty());
    assert(out@[0]@ =~= Seq::<char>::empty());
    while i < n
        invariant
            n == s@.len(),
            i <= n,
            out@.len() >= 1,
            out@.len() == pieces(s@.take(i as int), sep).len(),
            forall|j: int| 0 <= j < out@.len() ==> #[trigger] out@[j]@ == pieces(s@.take(i as int), sep)[j],
        decreases n - i,
    {
        let c = s[i];
        let ghost pre = s@.take(i as int);
        let ghost next = s@.take(i + 1);
        assert(next.drop_last() =~= pre);
        assert(next.last() == c);
        if c == sep {
            out.push(Vec::new());
            assert forall|j: int| 0 <= j < out@.len() implies #[trigger] out@[j]@ == pieces(next, sep)[j] by {
                if j == out@.len() - 1 {
                    assert(out@[j]@ =~= Seq::<char>::empty());
                }
            }
        } else {
            let last = out.len() - 1;
            let mut piece = out.remove(last);
            piece.push(c);
            out.push(piece);
            assert forall|j: int| 0 <= j < out@.len() implies #[trigger] out@[j]@ == pieces(next, sep)[j] by {
                if j < last {
                }
            }
        }
        i += 1;
    }
    assert(s@.take(n as int) =~= s@);
    out
}

/// The value of `s[start..]` if it is one or more ASCII digits worth at most `bound`.
fn read_digits(s: &Vec<char>, start: usize, bound: u64) -> (r: Option<u64>)
    requires
        start <= s@.len(),
        bound <= 0x1_0000_0000,
    ensures
        match bounded_digits(s@.skip(start as int), bound as nat) {
            Some(v) => r == Some(v as u64),
            None => r is None,
        },
{
    let n = s.len();
    let ghost d = s@.skip(start as int);
    let mut value: u64 = 0;
    let mut all_digits = true;
    let mut i: usize = start;
    assert(d.take(0) =~= Seq::<char>::empty());
    while i < n
        invariant
            n == s@.len(),
            start <= i <= n,
            d == s@.skip(start as int),
            bound <= 0x1_0000_0000,
            all_digits == (forall|j: int| 0 <= j < i - start ==> is_ascii_digit(#[trigger] d[j])),
            all_digits ==> value as nat == if dec_value(d.take(i - start)) <= bound as nat + 1 {
                dec_value(d.take(i - start))
            } else {
                bound as nat + 1
            },
            value <= bound + 1,
        decreases n - i,
    {
        let c = s[i];
        let ghost k = i - start;
        assert(d.take(k + 1).drop_last() =~= d.take(k));
        assert(d[k] == c);
        if '0' <= c && c <= '9' {
            let digit = (c as u32 - '0' as u32) as u64;
            let ghost x = dec_value(d.take(k));
            let wide = value * 10 + digit;
            value = if wide > bound + 1 { bound + 1 } else { wide };
            proof {
                if all_digits {
                    assert(dec_value(d.take(k + 1)) == x * 10 + digit);
                    if x > bound + 1 {
                        assert(x * 10 + digit > bound + 1) by (nonlinear_arith)
                            requires
                                x > bound + 1,
                        ;
                    }
                }
            }
        } else {
            all_digits = false;
        }
        i += 1;
    }
    assert(d.take(n - start) =~= d);
    if n > start && all_digits && value <= bound {
        Some(value)
    } else {
        None
    }
}

/// `s` read as a `u8`: an optional `+`, then decimal digits.
pub fn parse_u8(s: &Vec<char>) -> (r: Option<u8>)
    ensures
        r == u8_of(s@),
{
    let start: usize = if s.len() > 0 && s[0] == '+' { 1 } else { 0 };
    assert(s@.skip(start as int) =~= if s@.len() > 0 && s@[0] == '+' { s@.drop_first() } else { s@ });
    match read_digits(s, start, 255) {
        Some(v) => Some(v as u8),
        None => None,
    }
}

/// `s` read as an `i32`: an optional `+` or `-`, then decimal digits.
pub fn parse_i32(s: &Vec<char>) -> (r: Option<i32>)
    ensures
        r == i32_of(s@),
{
    if s.len() > 0 && s[0] == '-' {
        assert(s@.skip(1) =~= s@.drop_first());
        match read_digits(s, 1, 0x8000_0000) {
            Some(v) => Some((0 - v as i64) as i32),
            None => None,
        }
    } else {
        let start: usize = if s.len() > 0 && s[0] == '+' { 1 } else { 0 };
        assert(s@.skip(start as int) =~= if s@.len() > 0 && s@[0] == '+' { s@.drop_first() } else { s@ });
        match read_digits(s, start, 0x7fff_ffff) {
            Some(v) => Some(v as i32),
            None => None,
        }
    }
}

/// Which characters a trim removes: white space, or one given character.
#[derive(Debug, Clone, Copy, PartialEq, Eq, Structural)]
pub enum TrimSet {
    Space,
    Only(char),
    Brackets,
}

pub open spec fn in_set(set: TrimSet, c: char) -> bool {
    match set {
        TrimSet::Space => is_ws(c),
        TrimSet::Only(x) => c == x,
        TrimSet::Brackets => c == '[' || c == ']',
    }
}

/// `s` without the characters of `set` at its start.
pub open spec fn trim_start(s: Seq<char>, set: TrimSet) -> Seq<char>
    decreases s.len(),
{
    if s.len() > 0 && in_set(set, s[0]) {
        trim_start(s.drop_first(), set)
    } else {
        s
    }
}

/// `s` without the characters of `set` at its end.
pub open spec fn trim_end(s: Seq<char>, set: TrimSet) -> Seq<char>
    decreases s.len(),
{
    if s.len() > 0 && in_set(set, s.last()) {
        trim_end(s.drop_last(), set)
    } else {
        s
    }
}

/// `s` without the characters of `set` at either end.
pub open spec fn trim(s: Seq<char>, set: TrimSet) -> Seq<char> {
    trim_end(trim_start(s, set), set)
}

/// `l` without one `\r` at its end.
pub open spec fn strip_cr(l: Seq<char>) -> Seq<char> {
    if l.len() > 0 && l.last() == '\r' {
        l.drop_last()
    } else {
        l
    }
}

/// The pieces of `s` between `\n`s, without an empty last one.
pub open spec fn line_pieces(s: Seq<char>) -> Seq<Seq<char>> {
    let p = pieces(s, '\n');
    if p.last().len() == 0 {
        p.drop_last()
    } else {
        p
    }
}

/// The lines of `s` as `str::lines` gives them: split at `\n`, no empty last
/// line, and one `\r` taken off the end of each.
pub open spec fn lines(s: Seq<char>) -> Seq<Seq<char>> {
    Seq::new(line_pieces(s).len(), |i: int| strip_cr(line_pieces(s)[i]))
}

fn char_in_set(set: TrimSet, c: char) -> (r: bool)
    ensures
        r == in_set(set, c),
{
    match set {
        TrimSet::Space => char_is_ws(c),
        TrimSet::Only(x) => c == x,
        TrimSet::Brackets => c == '[' || c == ']',
    }
}

/// The characters `s[from..to]`.
pub fn slice_chars(s: &Vec<char>, from: usize, to: usize) -> (r: Vec<char>)
    requires
        from <= to <= s@.len(),
    ensures
        r@ == s@.subrange(from as int, to as int),
{
    let mut out: Vec<char> = Vec::new();
    let mut i = from;
    while i < to
        invariant
            from <= i <= to,
            to <= s@.len(),
            out@ == s@.subrange(from as int, i as int),
        decreases to - i,
    {
        out.push(s[i]);
        assert(out@ =~= s@.subrange(from as int, i + 1));
        i += 1;
    }
    out
}

/// `s` without the characters of `set` at its start.
pub fn trim_front(s: &Vec<char>, set: TrimSet) -> (r: Vec<char>)
    ensures
        r@ == trim_start(s@, set),
{
    let n = s.len();
    let mut i: usize = 0;
    assert(s@.skip(0) =~= s@);
    while i < n && char_in_set(set, s[i])
        invariant
            i <= n,
            n == s@.len(),
            trim_start(s@.skip(i as int), set) == trim_start(s@, set),
        decreases n - i,
    {
        assert(s@.skip(i as int).drop_first() =~= s@.skip(i + 1));
        i += 1;
    }
    slice_chars(s, i, n)
}

/// `s` without the characters of `set` at its end.
pub fn trim_back(s: &Vec<char>, set: TrimSet) -> (r: Vec<char>)
    ensures
        r@ == trim_end(s@, set),
{
    let mut j: usize = s.len();
    assert(s@.take(j as int) =~= s@);
    while j > 0 && char_in_set(set, s[j - 1])
        invariant
            j <= s@.len(),
            trim_end(s@.take(j as int), set) == trim_end(s@, set),
        decreases j,
    {
        assert(s@.take(j as int).drop_last() =~= s@.take(j - 1));
        j -= 1;
    }
    let r = slice_chars(s, 0, j);
    assert(r@ =~= s@.take(j as int));
    r
}

/// `s` without the characters of `set` at either end.
pub fn trim_both(s: &Vec<char>, set: TrimSet) -> (r: Vec<char>)
    ensures
        r@ == trim(s@, set),
{
    let front = trim_front(s, set);
    trim_back(&front, set)
}

pub proof fn lemma_pieces_nonempty(s: Seq<char>, sep: char)
    ensures
        pieces(s, sep).len() >= 1,
    decreases s.len(),
{
    if s.len() > 0 {
        lemma_pieces_nonempty(s.drop_last(), sep);
    }
}

/// The first piece is the text before the first `sep`; with more pieces, a
/// `sep` follows it.
pub proof fn lemma_pieces_first(s: Seq<char>, sep: char)
    ensures
        pieces(s, sep)[0].len() <= s.len(),
        pieces(s, sep)[0] == s.take(pieces(s, sep)[0].len() as int),
        pieces(s, sep).len() == 1 ==> pieces(s, sep)[0] == s,
        pieces(s, sep).len() >= 2 ==> pieces(s, sep)[0].len() < s.len() && s[pieces(
            s,
            sep,
        )[0].len() as int] == sep,
    decreases s.len(),
{
    if s.len() == 0 {
        assert(s.take(0) =~= s);
    } else {
        let t = s.drop_last();
        lemma_pieces_first(t, sep);
        lemma_pieces_nonempty(t, sep);
        let p = pieces(t, sep);
        let l = p[0].len() as int;
        assert(s.take(l) =~= t.take(l));
        if p.len() == 1 {
            assert(t.take(l) =~= t);
            if s.last() != sep {
                assert(t.push(s.last()) =~= s);
            }
        } else {
            assert(s[l] == t[l]);
        }
    }
}

/// The lines of `s`.
pub fn split_lines(s: &str) -> (r: Vec<Vec<char>>)
    ensures
        r@.len() == lines(s@).len(),
        forall|i: int| 0 <= i < r@.len() ==> #[trigger] r@[i]@ == lines(s@)[i],
{
    let cs = chars_of(s);
    let p = split_pieces(&cs, '\n');
    proof {
        lemma_pieces_nonempty(s@, '\n');
    }
    let ghost q = line_pieces(s@);
    assert(q == line_pieces(s@));
    let mut count = p.len();
    if count > 0 && p[count - 1].len() == 0 {
        count = count - 1;
    }
    let mut out: Vec<Vec<char>> = Vec::new();
    let mut i: usize = 0;
    while i < count
        invariant
            count <= p@.len(),
            count == q.len(),
            q == line_pieces(s@),
            p@.len() == pieces(s@, '\n').len(),
            forall|k: int| 0 <= k < p@.len() ==> #[trigger] p@[k]@ == pieces(s@, '\n')[k],
            forall|k: int| 0 <= k < q.len() ==> #[trigger] q[k] == pieces(s@, '\n')[k],
            i <= count,
            out@.len() == i,
            forall|k: int| 0 <= k < i ==> #[trigger] out@[k]@ == lines(s@)[k],
        decreases count - i,
    {
        let line = &p[i];
        let m = line.len();
        assert(i < q.len());
        assert(q == line_pieces(s@));
        assert(lines(s@)[i as int] == strip_cr(line_pieces(s@)[i as int]));
        if m > 0 && line[m - 1] == '\r' {
            let cut = slice_chars(line, 0, m - 1);
            assert(cut@ =~= line@.drop_last());
            out.push(cut);
        } else {
            out.push(slice_chars(line, 0, m));
            assert(out@[i as int]@ =~= line@);
        }
        i += 1;
    }
    out
}

} // verus!
