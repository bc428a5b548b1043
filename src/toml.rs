//! Sections and `key = value` pairs read from the text of a TOML file such as
//! `Cargo.toml`, line by line.
use crate::console::text_eq;
use crate::parse::{
    lines, pieces, split_lines, split_pieces, trim, trim_both, trim_end, trim_start, trim_back,
    trim_front, TrimSet, slice_chars,
};
use crate::parse::lemma_pieces_first;
use crate::text::{chars_of, string_of};
use vstd::prelude::*;

verus! {

/// The index of the first name equal to `k`, or -1.
pub open spec fn find_name(names: Seq<Seq<char>>, k: Seq<char>) -> int
    decreases names.len(),
{
    if names.len() == 0 {
        -1
    } else if names[0] == k {
        0
    } else {
        let r = find_name(names.drop_first(), k);
        if r < 0 {
            -1
        } else {
            r + 1
        }
    }
}

pub proof fn lemma_find_name_range(names: Seq<Seq<char>>, k: Seq<char>)
    ensures
        find_name(names, k) == -1 || (0 <= find_name(names, k) < names.len() && names[find_name(
            names,
            k,
        )] == k),
    decreases names.len(),
{
    if names.len() > 0 && names[0] != k {
        lemma_find_name_range(names.drop_first(), k);
    }
}

pub type Entries = Seq<(Seq<char>, Seq<char>)>;

pub type Sections = Seq<(Seq<char>, Entries)>;

pub open spec fn entry_names(e: Entries) -> Seq<Seq<char>> {
    Seq::new(e.len(), |i: int| e[i].0)
}

pub open spec fn section_names(d: Sections) -> Seq<Seq<char>> {
    Seq::new(d.len(), |i: int| d[i].0)
}

/// `e` with `k` set to `v`: in place where `k` is present, else at the end.
pub open spec fn insert_entry(e: Entries, k: Seq<char>, v: Seq<char>) -> Entries {
    let i = find_name(entry_names(e), k);
    if i >= 0 {
        e.update(i, (k, v))
    } else {
        e.push((k, v))
    }
}

/// `d` with a section `name`, added empty at the end if missing.
pub open spec fn ensure_section(d: Sections, name: Seq<char>) -> Sections {
    if find_name(section_names(d), name) >= 0 {
        d
    } else {
        d.push((name, Seq::empty()))
    }
}

/// `d` with `k` set to `v` in section `name`, if that section is present.
pub open spec fn modify_section(d: Sections, name: Seq<char>, k: Seq<char>, v: Seq<char>) -> Sections {
    let i = find_name(section_names(d), name);
    if i >= 0 {
        d.update(i, (name, insert_entry(d[i].1, k, v)))
    } else {
        d
    }
}

/// The key and value of a `key = value` line: around the first `=`, white
/// space trimmed, and `"` trimmed off the value.
pub open spec fn key_value(line: Seq<char>) -> Option<(Seq<char>, Seq<char>)> {
    let p = pieces(line, '=');
    if p.len() >= 2 {
        Some(
            (
                trim(p[0], TrimSet::Space),
                trim(trim(line.skip(p[0].len() + 1int), TrimSet::Space), TrimSet::Only('"')),
            ),
        )
    } else {
        None
    }
}

/// A line without its comment, trimmed.
pub open spec fn content(raw: Seq<char>) -> Seq<char> {
    trim(pieces(raw, '#')[0], TrimSet::Space)
}

/// The name in a `[name]` line.
pub open spec fn header_name(line: Seq<char>) -> Seq<char> {
    trim_end(trim_start(line, TrimSet::Only('[')), TrimSet::Only(']'))
}

/// One line read into the state (current section, sections so far): a line
/// starting with `[` opens a section; a `key = value` line sets the key in the
/// current section if that section is present; any other line changes nothing.
pub open spec fn toml_step(st: (Seq<char>, Sections), raw: Seq<char>) -> (Seq<char>, Sections) {
    let line = content(raw);
    if line.len() > 0 && line[0] == '[' {
        (header_name(line), ensure_section(st.1, header_name(line)))
    } else {
        match key_value(line) {
            Some((k, v)) => (st.0, modify_section(st.1, st.0, k, v)),
            None => st,
        }
    }
}

pub open spec fn toml_fold(ls: Seq<Seq<char>>) -> (Seq<char>, Sections)
    decreases ls.len(),
{
    if ls.len() == 0 {
        (Seq::empty(), Seq::empty())
    } else {
        toml_step(toml_fold(ls.drop_last()), ls.last())
    }
}

/// The sections of a TOML text.
pub open spec fn toml_sections(text: Seq<char>) -> Sections {
    toml_fold(lines(text)).1
}

pub open spec fn entries_view(e: Seq<(String, String)>) -> Entries {
    Seq::new(e.len(), |i: int| (e[i].0@, e[i].1@))
}

pub open spec fn sections_view(d: Seq<(String, Vec<(String, String)>)>) -> Sections {
    Seq::new(d.len(), |i: int| (d[i].0@, entries_view(d[i].1@)))
}

/// The index of the first pair named `k`.
fn find_entry<X>(v: &Vec<(String, X)>, k: &str) -> (r: Option<usize>)
    ensures
        match r {
            Some(i) => i < v@.len() && find_name(Seq::new(v@.len(), |j: int| v@[j].0@), k@)
                == i as int,
            None => find_name(Seq::new(v@.len(), |j: int| v@[j].0@), k@) == -1,
        },
{
    let ghost names = Seq::new(v@.len(), |j: int| v@[j].0@);
    let n = v.len();
    let mut i: usize = 0;
    assert(names.skip(0) =~= names);
    proof {
        lemma_find_name_range(names, k@);
    }
    while i < n
        invariant
            n == v@.len(),
            names == Seq::new(v@.len(), |j: int| v@[j].0@),
            i <= n,
            find_name(names, k@) == if find_name(names.skip(i as int), k@) < 0 {
                -1
            } else {
                find_name(names.skip(i as int), k@) + i
            },
        decreases n - i,
    {
        assert(names.skip(i as int).drop_first() =~= names.skip(i + 1));
        proof {
            lemma_find_name_range(names.skip(i + 1), k@);
        }
        assert(names.skip(i as int)[0] == v@[i as int].0@);
        if text_eq(v[i].0.as_str(), k) {
            return Some(i);
        }
        i += 1;
    }
    assert(names.skip(n as int) =~= Seq::<Seq<char>>::empty());
    None
}

/// The key and value of a `key = value` line, or `None` without a `=`.
pub fn extract_key_value(line: &str) -> (r: Option<(String, String)>)
    ensures
        match key_value(line@) {
            Some((k, v)) => r matches Some((rk, rv)) && rk@ == k && rv@ == v,
            None => r is None,
        },
{
    let chars = chars_of(line);
    let p = split_pieces(&chars, '=');
    if p.len() >= 2 {
        proof {
            lemma_pieces_first(chars@, '=');
        }
        let key = trim_both(&p[0], TrimSet::Space);
        let rest = slice_chars(&chars, p[0].len() + 1, chars.len());
        assert(rest@ =~= line@.skip(p@[0]@.len() + 1int));
        let spaced = trim_both(&rest, TrimSet::Space);
        let value = trim_both(&spaced, TrimSet::Only('"'));
        Some((string_of(&key), string_of(&value)))
    } else {
        None
    }
}

/// Sets `k` to `v`: in place where `k` is present, else at the end.
fn set_entry(e: &mut Vec<(String, String)>, k: String, v: String)
    ensures
        entries_view(final(e)@) == insert_entry(entries_view(old(e)@), k@, v@),
{
    let ghost before = entries_view(e@);
    assert(entry_names(before) =~= Seq::new(e@.len(), |j: int| e@[j].0@));
    let ghost kv = k@;
    let ghost vv = v@;
    match find_entry(e, k.as_str()) {
        Some(i) => {
            e.set(i, (k, v));
            assert(entries_view(e@) =~= before.update(i as int, (kv, vv)));
        },
        None => {
            e.push((k, v));
            assert(entries_view(e@) =~= before.push((kv, vv)));
        },
    }
}

/// Adds section `name`, empty, unless it is present.
fn add_section(d: &mut Vec<(String, Vec<(String, String)>)>, name: String)
    ensures
        sections_view(final(d)@) == ensure_section(sections_view(old(d)@), name@),
{
    let ghost before = sections_view(d@);
    assert(section_names(before) =~= Seq::new(d@.len(), |j: int| d@[j].0@));
    let ghost nv = name@;
    match find_entry(d, name.as_str()) {
        Some(_) => {},
        None => {
            d.push((name, Vec::new()));
            assert(entries_view(d@[d@.len() - 1].1@) =~= Seq::<(Seq<char>, Seq<char>)>::empty());
            assert(sections_view(d@) =~= before.push((nv, Seq::empty())));
        },
    }
}

/// Sets `k` to `v` in section `name`, if that section is present.
fn set_in_section(d: &mut Vec<(String, Vec<(String, String)>)>, name: &String, k: String, v: String)
    ensures
        sections_view(final(d)@) == modify_section(sections_view(old(d)@), name@, k@, v@),
{
    let ghost before = sections_view(d@);
    assert(section_names(before) =~= Seq::new(d@.len(), |j: int| d@[j].0@));
    match find_entry(d, name.as_str()) {
        Some(i) => {
            let (section, mut entries) = d.remove(i);
            proof {
                lemma_find_name_range(section_names(before), name@);
            }
            set_entry(&mut entries, k, v);
            let ghost ev = entries_view(entries@);
            let ghost sv = section@;
            d.insert(i, (section, entries));
            assert(sv == name@);
            assert(sections_view(d@) =~= before.update(i as int, (sv, ev)));
        },
        None => {},
    }
}

/// Sets `k` to `v` in section `name`, adding the section first if missing.
pub(crate) fn set_in_section_or_add(
    d: &mut Vec<(String, Vec<(String, String)>)>,
    name: String,
    k: String,
    v: String,
)
    ensures
        sections_view(final(d)@) == modify_section(
            ensure_section(sections_view(old(d)@), name@),
            name@,
            k@,
            v@,
        ),
{
    let ghost nv = name@;
    let copy = string_of(&chars_of(name.as_str()));
    add_section(d, name);
    set_in_section(d, &copy, k, v);
}

/// Reads the sections of a TOML text: comments after `#` are dropped, a line
/// starting with `[` opens a section, and `key = value` lines fill the section
/// opened last; keys before any section are dropped.
pub fn toml_data(text: &str) -> (r: Vec<(String, Vec<(String, String)>)>)
    ensures
        sections_view(r@) == toml_sections(text@),
{
    let ls = split_lines(text);
    let ghost all = lines(text@);
    let mut data: Vec<(String, Vec<(String, String)>)> = Vec::new();
    let mut current = String::new();
    let mut i: usize = 0;
    assert(all.take(0) =~= Seq::<Seq<char>>::empty());
    assert(sections_view(data@) =~= Seq::<(Seq<char>, Entries)>::empty());
    while i < ls.len()
        invariant
            all == lines(text@),
            ls@.len() == all.len(),
            forall|j: int| 0 <= j < ls@.len() ==> #[trigger] ls@[j]@ == all[j],
            i <= ls@.len(),
            (current@, sections_view(data@)) == toml_fold(all.take(i as int)),
        decreases ls@.len() - i,
    {
        assert(all.take(i + 1).drop_last() =~= all.take(i as int));
        assert(all.take(i + 1).last() == all[i as int]);
        let raw = &ls[i];
        let parts = split_pieces(raw, '#');
        proof {
            crate::parse::lemma_pieces_nonempty(raw@, '#');
        }
        let line = trim_both(&parts[0], TrimSet::Space);
        if line.len() > 0 && line[0] == '[' {
            let opened = trim_front(&line, TrimSet::Only('['));
            let header = trim_back(&opened, TrimSet::Only(']'));
            let name = string_of(&header);
            current = string_of(&header);
            add_section(&mut data, name);
        } else {
            let text_line = string_of(&line);
            match extract_key_value(text_line.as_str()) {
                Some((k, v)) => {
                    set_in_section(&mut data, &current, k, v);
                },
                None => {},
            }
        }
        i += 1;
    }
    assert(all.take(ls@.len() as int) =~= all);
    data
}

/// A TOML file: where it was read from, and its sections in the order they
/// first appear, each with its keys in the order they were first set.
#[derive(Debug, Clone)]
pub struct TomlFile {
    pub path: String,
    pub data: Vec<(String, Vec<(String, String)>)>,
}

impl TomlFile {
    /// The file at `path` whose text is `contents`.
    pub fn new(path: &str, contents: &str) -> (r: Self)
        ensures
            r.path@ == path@,
            sections_view(r.data@) == toml_sections(contents@),
    {
        TomlFile { path: string_of(&chars_of(path)), data: toml_data(contents) }
    }

    /// The pairs of `section`, if the file has it.
    pub fn get_section_data(&self, section: &str) -> (r: Option<&Vec<(String, String)>>)
        ensures
            ({
                let d = sections_view(self.data@);
                let i = find_name(section_names(d), section@);
                match r {
                    Some(e) => i >= 0 && entries_view(e@) == d[i].1,
                    None => i == -1,
                }
            }),
    {
        let ghost d = sections_view(self.data@);
        assert(section_names(d) =~= Seq::new(self.data@.len(), |j: int| self.data@[j].0@));
        match find_entry(&self.data, section) {
            Some(i) => Some(&self.data[i].1),
            None => None,
        }
    }

    /// The value of `attribute` in `section`, if both are present.
    pub fn get_section_attribute(&self, section: &str, attribute: &str) -> (r: Option<&String>)
        ensures
            ({
                let d = sections_view(self.data@);
                let i = find_name(section_names(d), section@);
                let j = if i >= 0 {
                    find_name(entry_names(d[i].1), attribute@)
                } else {
                    -1
                };
                match r {
                    Some(v) => j >= 0 && v@ == d[i].1[j].1,
                    None => j == -1,
                }
            }),
    {
        match self.get_section_data(section) {
            Some(entries) => {
                let ghost e = entries_view(entries@);
                assert(entry_names(e) =~= Seq::new(entries@.len(), |j: int| entries@[j].0@));
                match find_entry(entries, attribute) {
                    Some(j) => Some(&entries[j].1),
                    None => None,
                }
            },
            None => None,
        }
    }
}

} // verus!
