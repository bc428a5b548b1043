//! Chosen keys of chosen sections of a `Cargo.toml` text, where a value may be
//! an array spread over several lines.
use crate::console::text_eq;
use crate::parse::{
    lemma_pieces_first, lemma_pieces_nonempty, lines, pieces, slice_chars, split_lines,
    split_pieces, trim, trim_both, TrimSet,
};
use crate::text::string_of;
use crate::toml::{
    ensure_section, modify_section, sections_view, Sections, set_in_section_or_add,
};
use vstd::prelude::*;

verus! {

/// The wanted sections, each with its wanted keys.
pub open spec fn selection_view(sel: &[(&str, &[&str])]) -> Seq<(Seq<char>, Seq<Seq<char>>)> {
    Seq::new(sel@.len(), |i: int| (sel@[i].0@, Seq::new(sel@[i].1@.len(), |j: int| sel@[i].1@[j]@)))
}

/// Whether `key` of section `sec` is wanted.
pub open spec fn selected(sel: Seq<(Seq<char>, Seq<Seq<char>>)>, sec: Seq<char>, key: Seq<char>) -> bool {
    exists|i: int, j: int| 0 <= i < sel.len() && 0 <= j < sel[i].1.len() && sel[i].0 == sec && sel[i].1[j] == key
}

/// `d` with `k` set to `v` in section `sec`, which is added first if missing.
pub open spec fn upsert(d: Sections, sec: Seq<char>, k: Seq<char>, v: Seq<char>) -> Sections {
    modify_section(ensure_section(d, sec), sec, k, v)
}

/// The state of the scan: current section, current key, the array value
/// gathered so far, and the sections read.
pub type AppState = (Seq<char>, Seq<char>, Seq<char>, Sections);

/// One line read into the state.
pub open spec fn app_step(st: AppState, raw: Seq<char>, sel: Seq<(Seq<char>, Seq<Seq<char>>)>) -> AppState {
    let t = trim(raw, TrimSet::Space);
    if t.len() == 0 || t[0] == '#' {
        st
    } else {
        let l = trim(pieces(t, '#')[0], TrimSet::Space);
        let p = pieces(l, '=');
        if l.len() > 0 && l[0] == '[' && l.last() == ']' {
            (trim(l, TrimSet::Brackets), st.1, st.2, st.3)
        } else if p.len() >= 2 {
            let key = trim(p[0], TrimSet::Space);
            if selected(sel, st.0, key) {
                let value = trim(trim(l.skip(p[0].len() + 1int), TrimSet::Space), TrimSet::Only('"'));
                if value.len() > 0 && value[0] == '[' && value.last() != ']' {
                    (st.0, key, value, st.3)
                } else {
                    (st.0, key, st.2, upsert(st.3, st.0, key, value))
                }
            } else {
                st
            }
        } else if l.len() > 0 && st.2.len() > 0 {
            let m = st.2 + l;
            if l.last() == ']' {
                (st.0, st.1, Seq::empty(), upsert(st.3, st.0, st.1, trim(m, TrimSet::Brackets)))
            } else {
                (st.0, st.1, m, st.3)
            }
        } else {
            st
        }
    }
}

pub open spec fn app_fold(ls: Seq<Seq<char>>, sel: Seq<(Seq<char>, Seq<Seq<char>>)>) -> AppState
    decreases ls.len(),
{
    if ls.len() == 0 {
        (Seq::empty(), Seq::empty(), Seq::empty(), Seq::empty())
    } else {
        app_step(app_fold(ls.drop_last(), sel), ls.last(), sel)
    }
}

/// Whether `key` of section `sec` is wanted.
fn is_selected(sel: &[(&str, &[&str])], sec: &str, key: &str) -> (r: bool)
    ensures
        r == selected(selection_view(sel), sec@, key@),
{
    let ghost v = selection_view(sel);
    let mut i: usize = 0;
    while i < sel.len()
        invariant
            v == selection_view(sel),
            i <= sel@.len(),
            forall|a: int, b: int| 0 <= a < i && 0 <= b < v[a].1.len() ==> !(v[a].0 == sec@ && v[a].1[b] == key@),
        decreases sel@.len() - i,
    {
        let (name, keys) = sel[i];
        if text_eq(name, sec) {
            let mut j: usize = 0;
            while j < keys.len()
                invariant
                    v == selection_view(sel),
                    i < sel@.len(),
                    keys@ == sel@[i as int].1@,
                    name@ == sec@,
                    v[i as int].0 == sec@,
                    j <= keys@.len(),
                    forall|b: int| 0 <= b < j ==> v[i as int].1[b] != key@,
                decreases keys@.len() - j,
            {
                if text_eq(keys[j], key) {
                    assert(v[i as int].1[j as int] == key@);
                    return true;
                }
                j += 1;
            }
        }
        i += 1;
    }
    false
}

/// Reads the wanted keys of the wanted sections from a `Cargo.toml` text.
/// Blank lines and comments are skipped; `[name]` opens a section; a wanted
/// `key = value` sets the key, its value trimmed of white space and `"`; a value
/// that opens an array with `[` and does not close it gathers the following
/// lines up to one ending in `]`, and is stored without its brackets.
pub fn extract_app_data_with_sections(data: &str, sections: &[(&str, &[&str])]) -> (r: Vec<
    (String, Vec<(String, String)>),
>)
    ensures
        sections_view(r@) == app_fold(lines(data@), selection_view(sections)).3,
{
    let ls = split_lines(data);
    let ghost all = lines(data@);
    let ghost sel = selection_view(sections);
    let mut out: Vec<(String, Vec<(String, String)>)> = Vec::new();
    let mut section: Vec<char> = Vec::new();
    let mut key: Vec<char> = Vec::new();
    let mut multi: Vec<char> = Vec::new();
    let mut i: usize = 0;
    assert(all.take(0) =~= Seq::<Seq<char>>::empty());
    assert(sections_view(out@) =~= Seq::<(Seq<char>, crate::toml::Entries)>::empty());
    while i < ls.len()
        invariant
            all == lines(data@),
            sel == selection_view(sections),
            ls@.len() == all.len(),
            forall|j: int| 0 <= j < ls@.len() ==> #[trigger] ls@[j]@ == all[j],
            i <= ls@.len(),
            (section@, key@, multi@, sections_view(out@)) == app_fold(all.take(i as int), sel),
        decreases ls@.len() - i,
    {
        assert(all.take(i + 1).drop_last() =~= all.take(i as int));
        assert(all.take(i + 1).last() == all[i as int]);
        let t = trim_both(&ls[i], TrimSet::Space);
        if t.len() == 0 || t[0] == '#' {
        } else {
            let parts = split_pieces(&t, '#');
            proof {
                lemma_pieces_nonempty(t@, '#');
            }
            let l = trim_both(&parts[0], TrimSet::Space);
            let p = split_pieces(&l, '=');
            if l.len() > 0 && l[0] == '[' && l[l.len() - 1] == ']' {
                section = trim_both(&l, TrimSet::Brackets);
            } else if p.len() >= 2 {
                proof {
                    lemma_pieces_first(l@, '=');
                }
                let k = trim_both(&p[0], TrimSet::Space);
                let sec_text = string_of(&section);
                let key_text = string_of(&k);
                if is_selected(sections, sec_text.as_str(), key_text.as_str()) {
                    let rest = slice_chars(&l, p[0].len() + 1, l.len());
                    assert(rest@ =~= l@.skip(p@[0]@.len() + 1int));
                    let spaced = trim_both(&rest, TrimSet::Space);
                    let value = trim_both(&spaced, TrimSet::Only('"'));
                    if value.len() > 0 && value[0] == '[' && value[value.len() - 1] != ']' {
                        key = k;
                        multi = value;
                    } else {
                        key = k;
                        set_in_section_or_add(&mut out, sec_text, key_text, string_of(&value));
                    }
                }
            } else if l.len() > 0 && multi.len() > 0 {
                let ghost before = multi@;
                let mut j: usize = 0;
                while j < l.len()
                    invariant
                        j <= l@.len(),
                        multi@ == before + l@.take(j as int),
                    decreases l@.len() - j,
                {
                    multi.push(l[j]);
                    assert(multi@ =~= before + l@.take(j + 1));
                    j += 1;
                }
                assert(l@.take(l@.len() as int) =~= l@);
                if l[l.len() - 1] == ']' {
                    let whole = trim_both(&multi, TrimSet::Brackets);
                    set_in_section_or_add(&mut out, string_of(&section), string_of(&key), string_of(&whole));
                    multi = Vec::new();
                    assert(multi@ =~= Seq::<char>::empty());
                }
            }
        }
        i += 1;
    }
    assert(all.take(ls@.len() as int) =~= all);
    out
}

} // verus!
