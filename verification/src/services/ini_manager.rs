//! Reading, editing and writing the Fallout 4 INI files.
use vstd::prelude::*;
use crate::models::IniConfig;
use crate::string_map::{StringMap, as_map, lookup, index_of, keys_of, lemma_as_map_insert, lemma_as_map_push, lemma_as_map_remove, lemma_as_map_empty, lemma_lookup_index};
use crate::text::{chars_of, eq_str, push_all, push_str, string_of, split_lines, trimmed, trimmed_end, slice_of, find_ch, lemma_find, views, trim, trim_end, lines, find_char, join, lowercase, lower_chars, eq_chars, strs};
use crate::sort::{permutes, sort_strings, sorted};

verus! {

/// Size and name of one INI file found on disk.
#[derive(Debug, Clone)]
pub struct IniFileInfo {
    pub name: String,
    pub size: u64,
}

/// A single section/key/value edit to apply to one INI file.
#[derive(Debug, Clone)]
pub struct IniChange {
    pub section: String,
    pub key: String,
    pub value: String,
}

/// Nested settings: section to (key to value).
pub type IniMap = Map<Seq<char>, Map<Seq<char>, Seq<char>>>;

/// The settings an `IniConfig` holds.
pub open spec fn ini_map(c: &IniConfig) -> IniMap {
    as_map(c.sections@).map_values(|inner: Seq<(Seq<char>, Seq<char>)>| as_map(inner))
}

/// The section map `m` holds under `section`, empty when there is none.
pub open spec fn section_of(m: IniMap, section: Seq<char>) -> Map<Seq<char>, Seq<char>> {
    if m.contains_key(section) {
        m[section]
    } else {
        Map::empty()
    }
}

/// `m` with `key` set to `value` in `section` (the section is created if needed).
pub open spec fn ini_set(m: IniMap, section: Seq<char>, key: Seq<char>, value: Seq<char>) -> IniMap {
    m.insert(section, section_of(m, section).insert(key, value))
}

/// `[name]` header: the trimmed line starts with `[` and ends with `]`.
pub open spec fn is_header(t: Seq<char>) -> bool {
    t.len() >= 2 && t[0] == '[' && t.last() == ']'
}

/// The name inside a header.
pub open spec fn header_name(t: Seq<char>) -> Seq<char> {
    t.subrange(1, t.len() - 1)
}

/// A value wrapped in double quotes loses them.
pub open spec fn unquote(v: Seq<char>) -> Seq<char> {
    if v.len() >= 2 && v[0] == '"' && v.last() == '"' {
        v.subrange(1, v.len() - 1)
    } else {
        v
    }
}

/// The value part of a `key=value` line is exactly one double quote, which
/// the parser cannot unquote.
pub open spec fn lone_quote_value(line: Seq<char>) -> bool {
    let t = trim(line);
    &&& !(t.len() == 0 || t[0] == ';')
    &&& !is_header(t)
    &&& find_char(t, '=') matches Some(eq) && trim(t.skip(eq + 1)) == seq!['"']
}

/// Content the parser accepts: no line whose value is a lone double quote.
pub open spec fn parsable(content: Seq<char>) -> bool {
    forall|i: int| 0 <= i < lines(content).len() ==> !lone_quote_value(#[trigger] lines(content)[i])
}

/// One line of INI content applied to the parser state (settings, current section).
pub open spec fn parse_line(m: IniMap, cur: Seq<char>, line: Seq<char>) -> (IniMap, Seq<char>) {
    let t = trim(line);
    if t.len() == 0 || t[0] == ';' {
        (m, cur)
    } else if is_header(t) {
        let name = header_name(t);
        (if m.contains_key(name) { m } else { m.insert(name, Map::empty()) }, name)
    } else {
        match find_char(t, '=') {
            Some(eq) => (ini_set(m, cur, trim(t.take(eq)), unquote(trim(t.skip(eq + 1)))), cur),
            None => (m, cur),
        }
    }
}

/// The parser state after the given lines.
pub open spec fn parse_lines(ls: Seq<Seq<char>>) -> (IniMap, Seq<char>)
    decreases ls.len(),
{
    if ls.len() == 0 {
        (Map::empty(), seq![])
    } else {
        let (m, cur) = parse_lines(ls.drop_last());
        parse_line(m, cur, ls.last())
    }
}

/// The settings parsed from INI content.
pub open spec fn parse_ini(content: Seq<char>) -> IniMap {
    parse_lines(lines(content)).0
}

/// One (section, key, value) setting.
pub type Setting = (Seq<char>, Seq<char>, Seq<char>);

/// `m` after applying the settings in order.
pub open spec fn apply_settings(m: IniMap, s: Seq<Setting>) -> IniMap
    decreases s.len(),
{
    if s.len() == 0 {
        m
    } else {
        let prev = apply_settings(m, s.drop_last());
        ini_set(prev, s.last().0, s.last().1, s.last().2)
    }
}

/// The settings of a named optimisation preset.
pub open spec fn preset_settings(p: Seq<char>) -> Option<Seq<Setting>> {
    if p == "Performance"@ {
        Some(
            seq![
                ("Display"@, "iMaxAnisotropy"@, "1"@),
                ("Display"@, "iMaximumAnimatedObjectCount"@, "4"@),
                ("Display"@, "iTexMipSkip"@, "3"@),
                ("Display"@, "bUseMap"@, "0"@),
                ("Audio"@, "iAudioMasterVolume"@, "80"@),
                ("Interface"@, "fMenuBGAlpha"@, "0.5"@),
            ],
        )
    } else if p == "Graphics"@ {
        Some(
            seq![
                ("Display"@, "iMaxAnisotropy"@, "8"@),
                ("Display"@, "iMaximumAnimatedObjectCount"@, "512"@),
                ("Display"@, "iTexMipSkip"@, "1"@),
                ("Display"@, "bUseMap"@, "1"@),
                ("Audio"@, "iAudioMasterVolume"@, "100"@),
                ("Interface"@, "fMenuBGAlpha"@, "0.8"@),
            ],
        )
    } else if p == "Ultra"@ {
        Some(
            seq![
                ("Display"@, "iMaxAnisotropy"@, "16"@),
                ("Display"@, "iMaximumAnimatedObjectCount"@, "512"@),
                ("Display"@, "iTexMipSkip"@, "0"@),
                ("Display"@, "bUseMap"@, "1"@),
                ("Display"@, "iShadowMapResolution"@, "4096"@),
                ("Audio"@, "iAudioMasterVolume"@, "100"@),
                ("Interface"@, "fMenuBGAlpha"@, "1.0"@),
            ],
        )
    } else {
        None
    }
}

/// The INI files the editor knows about.
pub open spec fn known_ini_file(name: Seq<char>) -> bool {
    name == "Fallout4.ini"@ || name == "Fallout4Prefs.ini"@ || name == "Fallout4Custom.ini"@
}

/// Reading a setting gives back what was last written to it, and writing a
/// setting leaves every other setting as it was.
pub proof fn law_get_after_set(
    m: IniMap,
    section: Seq<char>,
    key: Seq<char>,
    value: Seq<char>,
    s2: Seq<char>,
    k2: Seq<char>,
)
    ensures
        ini_set(m, section, key, value).contains_key(section),
        ini_set(m, section, key, value)[section].contains_key(key),
        ini_set(m, section, key, value)[section][key] == value,
        (s2 != section || k2 != key) ==> (section_of(ini_set(m, section, key, value), s2).contains_key(k2)
            == section_of(m, s2).contains_key(k2) && (section_of(m, s2).contains_key(k2)
            ==> section_of(ini_set(m, section, key, value), s2)[k2] == section_of(m, s2)[k2])),
{
}

// ───────────────────────── editing INI files in place ─────────────────────────

/// A change as (section, key, value).
pub open spec fn ini_change_views(cs: Seq<IniChange>) -> Seq<(Seq<char>, Seq<char>, Seq<char>)> {
    cs.map_values(|c: IniChange| (c.section@, c.key@, c.value@))
}

/// Change `i` is not applied yet and names section `cur` and key
/// `key_lower` (compared lower-cased).
pub open spec fn pending_match(
    cs: Seq<(Seq<char>, Seq<char>, Seq<char>)>,
    applied: Seq<bool>,
    cur: Seq<char>,
    key_lower: Seq<char>,
    i: int,
) -> bool {
    !applied[i] && lowercase(cs[i].0) == cur && lowercase(cs[i].1) == key_lower
}

/// The last of the first `n` changes that is pending for `key_lower` in `cur`.
pub open spec fn last_pending(
    cs: Seq<(Seq<char>, Seq<char>, Seq<char>)>,
    applied: Seq<bool>,
    cur: Seq<char>,
    key_lower: Seq<char>,
    n: int,
) -> Option<int>
    decreases n,
{
    if n <= 0 {
        None
    } else if pending_match(cs, applied, cur, key_lower, n - 1) {
        Some(n - 1)
    } else {
        last_pending(cs, applied, cur, key_lower, n - 1)
    }
}

/// The applied flags once every change pending for `key_lower` in `cur`
/// among the first `n` is applied.
pub open spec fn mark_pending(
    cs: Seq<(Seq<char>, Seq<char>, Seq<char>)>,
    applied: Seq<bool>,
    cur: Seq<char>,
    key_lower: Seq<char>,
    n: int,
) -> Seq<bool> {
    Seq::new(applied.len(), |q: int| applied[q] || (q < n && pending_match(cs, applied, cur, key_lower, q)))
}

/// Without a last pending change among the first `n`, none of them is pending.
proof fn lemma_no_pending(
    cs: Seq<(Seq<char>, Seq<char>, Seq<char>)>,
    applied: Seq<bool>,
    cur: Seq<char>,
    key_lower: Seq<char>,
    n: int,
)
    requires
        last_pending(cs, applied, cur, key_lower, n) is None,
    ensures
        forall|q: int| 0 <= q < n ==> !pending_match(cs, applied, cur, key_lower, q),
    decreases n,
{
    if n > 0 {
        lemma_no_pending(cs, applied, cur, key_lower, n - 1);
    }
}

/// First pass over one line: (lines out, applied flags, current section). A
/// key line takes the value of the last change pending for it, and every
/// change pending for it counts as applied.
pub open spec fn replace_line(
    cs: Seq<(Seq<char>, Seq<char>, Seq<char>)>,
    st: (Seq<Seq<char>>, Seq<bool>, Seq<char>),
    line: Seq<char>,
) -> (Seq<Seq<char>>, Seq<bool>, Seq<char>) {
    let t = trim(line);
    if is_header(t) {
        (st.0.push(line), st.1, lowercase(header_name(t)))
    } else {
        match find_char(line, '=') {
            Some(eq) => match last_pending(cs, st.1, st.2, lowercase(trim(line.take(eq))), cs.len() as int) {
                Some(i) => (
                    st.0.push(trim_end(line.take(eq)) + "="@ + cs[i].2),
                    mark_pending(cs, st.1, st.2, lowercase(trim(line.take(eq))), cs.len() as int),
                    st.2,
                ),
                None => (st.0.push(line), st.1, st.2),
            },
            None => (st.0.push(line), st.1, st.2),
        }
    }
}

pub open spec fn replace_lines(cs: Seq<(Seq<char>, Seq<char>, Seq<char>)>, ls: Seq<Seq<char>>) -> (
    Seq<Seq<char>>,
    Seq<bool>,
    Seq<char>,
)
    decreases ls.len(),
{
    if ls.len() == 0 {
        (seq![], Seq::new(cs.len(), |i: int| false), seq![])
    } else {
        replace_line(cs, replace_lines(cs, ls.drop_last()), ls.last())
    }
}

/// Scanning for the end of section `target` from line `i` on.
pub open spec fn section_end_from(ls: Seq<Seq<char>>, target: Seq<char>, i: int, inside: bool, last: Option<int>) -> Option<int>
    decreases ls.len() - i,
{
    if i < 0 || i >= ls.len() {
        last
    } else {
        let t = trim(ls[i]);
        if is_header(t) {
            if inside {
                last
            } else {
                let now = lowercase(header_name(t)) == target;
                section_end_from(ls, target, i + 1, now, if now { Some(i + 1) } else { last })
            }
        } else if inside && t.len() > 0 {
            section_end_from(ls, target, i + 1, true, Some(i + 1))
        } else {
            section_end_from(ls, target, i + 1, inside, last)
        }
    }
}

/// Index just past the last content line of section `section` (compared
/// lower-cased), or `None` when no header names it.
pub open spec fn section_end(ls: Seq<Seq<char>>, section: Seq<char>) -> Option<int> {
    section_end_from(ls, lowercase(section), 0, false, None)
}

/// Second pass: one change that no line took, added under its section (or a
/// new section at the end, after a blank line).
pub open spec fn append_change(ls: Seq<Seq<char>>, c: (Seq<char>, Seq<char>, Seq<char>)) -> Seq<Seq<char>> {
    match section_end(ls, c.0) {
        Some(end) => ls.insert(end, c.1 + "="@ + c.2),
        None => {
            let base = if ls.len() > 0 && trim(ls.last()).len() > 0 {
                ls.push(seq![])
            } else {
                ls
            };
            base.push("["@ + c.0 + "]"@).push(c.1 + "="@ + c.2)
        },
    }
}

pub open spec fn append_pending(
    ls: Seq<Seq<char>>,
    cs: Seq<(Seq<char>, Seq<char>, Seq<char>)>,
    applied: Seq<bool>,
    k: int,
) -> Seq<Seq<char>>
    decreases k,
{
    if k <= 0 {
        ls
    } else {
        let prev = append_pending(ls, cs, applied, k - 1);
        if applied[k - 1] {
            prev
        } else {
            append_change(prev, cs[k - 1])
        }
    }
}

/// The text of an INI file after a batch of changes: existing keys are
/// edited in place, the others added under their section.
pub open spec fn changed_text(content: Seq<char>, cs: Seq<(Seq<char>, Seq<char>, Seq<char>)>) -> Seq<char> {
    let st = replace_lines(cs, lines(content));
    let ls = append_pending(st.0, cs, st.1, cs.len() as int);
    let o = join(ls, "\n"@);
    if o.len() > 0 && o.last() == '\n' {
        o
    } else {
        o + "\n"@
    }
}

/// The text `serialize_ini` writes for sections `names` (in that order), the
/// keys of each in `keyss`.
pub open spec fn ini_text(m: IniMap, names: Seq<Seq<char>>, keyss: Seq<Seq<Seq<char>>>) -> Seq<char>
    decreases names.len(),
{
    if names.len() == 0 || keyss.len() != names.len() {
        seq![]
    } else {
        ini_text(m, names.drop_last(), keyss.drop_last()) + "["@ + names.last() + "]\n"@ + key_lines(
            m[names.last()],
            keyss.last(),
        ) + "\n"@
    }
}

pub open spec fn key_lines(inner: Map<Seq<char>, Seq<char>>, keys: Seq<Seq<char>>) -> Seq<char>
    decreases keys.len(),
{
    if keys.len() == 0 {
        seq![]
    } else {
        key_lines(inner, keys.drop_last()) + keys.last() + "="@ + inner[keys.last()] + "\n"@
    }
}

/// `ini` with every section of `other` merged in (`other`'s values win).
pub open spec fn merge_ini(ini: IniMap, other: IniMap) -> IniMap {
    Map::new(
        |s: Seq<char>| ini.contains_key(s) || other.contains_key(s),
        |s: Seq<char>| section_of(ini, s).union_prefer_right(section_of(other, s)),
    )
}

/// The settings a list of sections stands for.
pub open spec fn sections_map(s: Seq<(Seq<char>, Seq<(Seq<char>, Seq<char>)>)>) -> IniMap {
    as_map(s).map_values(|inner: Seq<(Seq<char>, Seq<char>)>| as_map(inner))
}

/// The settings of the INI files read in order (found, text): each file
/// found and read is merged over the ones before it.
pub open spec fn merged_files(fs: Seq<(bool, Option<String>)>) -> IniMap
    decreases fs.len(),
{
    if fs.len() == 0 {
        Map::empty()
    } else {
        let m = merged_files(fs.drop_last());
        match fs.last().1 {
            Some(c) => if fs.last().0 {
                merge_ini(m, parse_ini(c@))
            } else {
                m
            },
            None => m,
        }
    }
}

/// Of the INI files read, the last one found wins: a setting it holds is the
/// merged setting.
pub proof fn law_last_file_wins(fs: Seq<(bool, Option<String>)>, section: Seq<char>, key: Seq<char>)
    requires
        fs.len() > 0,
        fs.last().0,
        fs.last().1 is Some,
        parse_ini((fs.last().1->0)@).contains_key(section),
        parse_ini((fs.last().1->0)@)[section].contains_key(key),
    ensures
        merged_files(fs).contains_key(section),
        merged_files(fs)[section].contains_key(key),
        merged_files(fs)[section][key] == parse_ini((fs.last().1->0)@)[section][key],
{
}

pub struct IniManager;

impl IniManager {
    /// Checks that `filename` is one of the INI files the editor knows.
    pub fn guard_filename(filename: &str) -> (r: Result<(), String>)
        ensures
            r is Ok <==> known_ini_file(filename@),
            r matches Err(e) ==> e@ == "Unsupported INI file: "@ + filename@,
    {
        let f = chars_of(filename);
        if eq_str(&f, "Fallout4.ini") || eq_str(&f, "Fallout4Prefs.ini") || eq_str(&f, "Fallout4Custom.ini") {
            Ok(())
        } else {
            let mut msg = chars_of("Unsupported INI file: ");
            push_all(&mut msg, &f);
            Err(string_of(&msg))
        }
    }

    /// Sets `key` to `value` in `section` of the owned section map.
    pub(crate) fn set_in(sections: &mut StringMap<StringMap<String>>, section: String, key: String, value: String)
        ensures
            as_map(final(sections)@).map_values(|inner: Seq<(Seq<char>, Seq<char>)>| as_map(inner))
                == ini_set(
                as_map(old(sections)@).map_values(|inner: Seq<(Seq<char>, Seq<char>)>| as_map(inner)),
                section@,
                key@,
                value@,
            ),
    {
        let ghost m0 = as_map(sections@).map_values(|inner: Seq<(Seq<char>, Seq<char>)>| as_map(inner));
        let ghost s0 = sections@;
        let removed = sections.remove(section.as_str());
        let ghost s1 = sections@;
        proof {
            lemma_as_map_remove(s0, s1, section@);
        }
        let mut inner = match removed {
            Some(m) => m,
            None => StringMap::new(),
        };
        proof {
            lemma_as_map_empty::<Seq<char>>();
            assert(as_map(inner@) == section_of(m0, section@));
        }
        let ghost i0 = inner@;
        inner.insert(key, value);
        proof {
            lemma_as_map_insert(i0, inner@, key@, value@);
        }
        let ghost iv = inner@;
        sections.insert(section, inner);
        proof {
            lemma_as_map_insert(s1, sections@, section@, iv);
            let lhs = as_map(sections@).map_values(|inner: Seq<(Seq<char>, Seq<char>)>| as_map(inner));
            assert(lhs =~= ini_set(m0, section@, key@, value@));
        }
    }

    /// Merges the sections of `parsed` into `merged`; `parsed`'s values win.
    fn merge_into(merged: &mut StringMap<StringMap<String>>, parsed: &StringMap<StringMap<String>>)
        ensures
            sections_map(final(merged)@) == merge_ini(sections_map(old(merged)@), sections_map(parsed@)),
    {
        let ghost m0 = sections_map(merged@);
        let ghost p = parsed@;
        let n = parsed.len();
        let mut i: usize = 0;
        proof {
            lemma_as_map_empty::<Seq<(Seq<char>, Seq<char>)>>();
            assert(sections_map(p.take(0)) =~= Map::<Seq<char>, Map<Seq<char>, Seq<char>>>::empty());
            assert forall|t: Seq<char>| #[trigger] m0.contains_key(t) implies merge_ini(m0, sections_map(p.take(0)))[t]
                == m0[t] by {
                assert(section_of(m0, t).union_prefer_right(section_of(sections_map(p.take(0)), t)) =~= m0[t]);
            }
            assert(merge_ini(m0, sections_map(p.take(0))) =~= m0);
        }
        while i < n
            invariant
                i <= n == p.len(),
                p == parsed@,
                sections_map(merged@) == merge_ini(m0, sections_map(p.take(i as int))),
            decreases n - i,
        {
            let (s, inner) = parsed.entry_at(i);
            let ghost x = sections_map(p.take(i as int));
            let ghost b = merge_ini(m0, x);
            proof {
                assert(!as_map(p.take(i as int)).contains_key(s@)) by {
                    lemma_lookup_index(p.take(i as int), s@);
                    if lookup(p.take(i as int), s@) is Some {
                        let q = index_of(p.take(i as int), s@);
                        assert(p[q].0 == p[i as int].0);
                    }
                }
            }
            if !merged.contains_key(s.as_str()) {
                let ghost before = merged@;
                merged.insert(s.clone(), StringMap::new());
                proof {
                    lemma_as_map_insert(before, merged@, s@, Seq::<(Seq<char>, Seq<char>)>::empty());
                    lemma_as_map_empty::<Seq<char>>();
                    assert(!b.contains_key(s@));
                    assert(sections_map(merged@) =~= b.insert(s@, section_of(b, s@)));
                }
            } else {
                proof {
                    assert(b.contains_key(s@));
                    assert(sections_map(merged@) =~= b.insert(s@, section_of(b, s@)));
                }
            }
            let ghost iv = inner@;
            let m = inner.len();
            let mut j: usize = 0;
            proof {
                lemma_as_map_empty::<Seq<char>>();
                assert(section_of(b, s@).union_prefer_right(as_map(iv.take(0))) =~= section_of(b, s@));
            }
            while j < m
                invariant
                    j <= m == iv.len(),
                    i < n == p.len(),
                    iv == inner@,
                    s@ == p[i as int].0,
                    sections_map(merged@) == b.insert(s@, section_of(b, s@).union_prefer_right(as_map(iv.take(j as int)))),
                decreases m - j,
            {
                let (k, v) = inner.entry_at(j);
                let ghost before = sections_map(merged@);
                Self::set_in(merged, s.clone(), k.clone(), v.clone());
                proof {
                    assert(!as_map(iv.take(j as int)).contains_key(k@)) by {
                        lemma_lookup_index(iv.take(j as int), k@);
                        if lookup(iv.take(j as int), k@) is Some {
                            let q = index_of(iv.take(j as int), k@);
                            assert(iv[q].0 == iv[j as int].0);
                        }
                    }
                    assert(iv.take(j + 1) =~= iv.take(j as int).push(iv[j as int]));
                    lemma_as_map_push(iv.take(j as int), iv[j as int]);
                    let sj = section_of(b, s@).union_prefer_right(as_map(iv.take(j as int)));
                    assert(section_of(before, s@) == sj);
                    assert(sj.insert(k@, v@) =~= section_of(b, s@).union_prefer_right(as_map(iv.take(j + 1))));
                    assert(sections_map(merged@) =~= b.insert(
                        s@,
                        section_of(b, s@).union_prefer_right(as_map(iv.take(j + 1))),
                    ));
                }
                j += 1;
            }
            proof {
                assert(iv.take(m as int) =~= iv);
                assert(p.take(i + 1) =~= p.take(i as int).push(p[i as int]));
                lemma_as_map_push(p.take(i as int), p[i as int]);
                assert(sections_map(p.take(i + 1)) =~= x.insert(s@, as_map(iv)));
                let x2 = x.insert(s@, as_map(iv));
                assert(!x.contains_key(s@));
                assert(section_of(b, s@) =~= section_of(m0, s@)) by {
                    if m0.contains_key(s@) {
                        assert(section_of(m0, s@).union_prefer_right(section_of(x, s@)) =~= section_of(m0, s@));
                    }
                }
                assert forall|t: Seq<char>| #[trigger] merge_ini(m0, x2).contains_key(t) implies merge_ini(m0, x2)[t]
                    == b.insert(s@, section_of(b, s@).union_prefer_right(as_map(iv)))[t] by {
                    if t != s@ {
                        assert(section_of(x2, t) == section_of(x, t));
                    }
                }
                assert(merge_ini(m0, sections_map(p.take(i + 1))) =~= b.insert(
                    s@,
                    section_of(b, s@).union_prefer_right(as_map(iv)),
                ));
            }
            i += 1;
        }
        assert(p.take(n as int) =~= p);
    }

    /// The settings of the game's INI files, `Fallout4.ini`,
    /// `Fallout4Prefs.ini` and `Fallout4Custom.ini` in that order: `files`
    /// tells for each whether it was found and its text when it could be
    /// read. Later files win; none found is an error.
    pub fn read_ini(ini_folder: &str, files: &Vec<(bool, Option<String>)>) -> (r: Result<IniConfig, String>)
        requires
            forall|i: int|
                0 <= i < files@.len() ==> ((#[trigger] files@[i]).1 matches Some(c) ==> parsable(c@)),
        ensures
            match r {
                Ok(c) => (exists|i: int| 0 <= i < files@.len() && (#[trigger] files@[i]).0) && ini_map(&c) == merged_files(
                    files@,
                ),
                Err(e) => !(exists|i: int| 0 <= i < files@.len() && (#[trigger] files@[i]).0) && e@
                    == "No Fallout4 INI files found in "@ + ini_folder@,
            },
    {
        let mut merged: StringMap<StringMap<String>> = StringMap::new();
        let mut found_any = false;
        let mut i: usize = 0;
        proof {
            lemma_as_map_empty::<Seq<(Seq<char>, Seq<char>)>>();
            assert(sections_map(merged@) =~= merged_files(files@.take(0)));
        }
        while i < files.len()
            invariant
                i <= files@.len(),
                forall|q: int|
                    0 <= q < files@.len() ==> ((#[trigger] files@[q]).1 matches Some(c) ==> parsable(c@)),
                sections_map(merged@) == merged_files(files@.take(i as int)),
                found_any == exists|q: int| 0 <= q < i && (#[trigger] files@[q]).0,
            decreases files@.len() - i,
        {
            assert(files@.take(i + 1).drop_last() =~= files@.take(i as int));
            assert(files@.take(i + 1).last() == files@[i as int]);
            if files[i].0 {
                found_any = true;
                match &files[i].1 {
                    Some(content) => {
                        let parsed = Self::parse_ini_content(content.as_str());
                        Self::merge_into(&mut merged, &parsed.sections);
                    },
                    None => {},
                }
            }
            i += 1;
        }
        assert(files@.take(files@.len() as int) =~= files@);
        if !found_any {
            let mut m = chars_of("No Fallout4 INI files found in ");
            push_all(&mut m, &chars_of(ini_folder));
            return Err(string_of(&m));
        }
        Ok(IniConfig { sections: merged })
    }

    /// The known INI files found on disk, with their sizes (`sizes` holds
    /// the size of each of them, in the order of `INI_FILES`, when found).
    pub fn list_files(sizes: &Vec<Option<u64>>) -> (r: Vec<IniFileInfo>)
        requires
            sizes@.len() == 3,
        ensures
            r@.map_values(|f: IniFileInfo| (f.name@, f.size)) == seq![
                ("Fallout4.ini"@, sizes@[0]),
                ("Fallout4Prefs.ini"@, sizes@[1]),
                ("Fallout4Custom.ini"@, sizes@[2]),
            ].filter(|e: (Seq<char>, Option<u64>)| e.1 is Some).map_values(
                |e: (Seq<char>, Option<u64>)| (e.0, e.1->0),
            ),
    {
        let mut r: Vec<IniFileInfo> = Vec::new();
        let ghost all = seq![
            ("Fallout4.ini"@, sizes@[0]),
            ("Fallout4Prefs.ini"@, sizes@[1]),
            ("Fallout4Custom.ini"@, sizes@[2]),
        ];
        let mut names: Vec<&str> = Vec::new();
        names.push("Fallout4.ini");
        names.push("Fallout4Prefs.ini");
        names.push("Fallout4Custom.ini");
        let mut i: usize = 0;
        assert(all.take(0).filter(|e: (Seq<char>, Option<u64>)| e.1 is Some) =~= Seq::<(Seq<char>, Option<u64>)>::empty());
        while i < 3
            invariant
                i <= 3,
                sizes@.len() == 3,
                names@.len() == 3,
                names@[0]@ == "Fallout4.ini"@,
                names@[1]@ == "Fallout4Prefs.ini"@,
                names@[2]@ == "Fallout4Custom.ini"@,
                all == seq![
                    ("Fallout4.ini"@, sizes@[0]),
                    ("Fallout4Prefs.ini"@, sizes@[1]),
                    ("Fallout4Custom.ini"@, sizes@[2]),
                ],
                r@.map_values(|f: IniFileInfo| (f.name@, f.size)) == all.take(i as int).filter(
                    |e: (Seq<char>, Option<u64>)| e.1 is Some,
                ).map_values(|e: (Seq<char>, Option<u64>)| (e.0, e.1->0)),
            decreases 3 - i,
        {
            assert(all.take(i + 1) =~= all.take(i as int).push(all[i as int]));
            proof {
                all.take(i as int).lemma_filter_push(all[i as int], |e: (Seq<char>, Option<u64>)| e.1 is Some);
            }
            let ghost before = r@.map_values(|f: IniFileInfo| (f.name@, f.size));
            match sizes[i] {
                Some(size) => {
                    r.push(IniFileInfo { name: names[i].to_string(), size });
                    assert(r@.map_values(|f: IniFileInfo| (f.name@, f.size)) =~= before.push((all[i as int].0, size)));
                },
                None => {},
            }
            assert(r@.map_values(|f: IniFileInfo| (f.name@, f.size)) =~= all.take(i + 1).filter(
                |e: (Seq<char>, Option<u64>)| e.1 is Some,
            ).map_values(|e: (Seq<char>, Option<u64>)| (e.0, e.1->0)));
            i += 1;
        }
        assert(all.take(3) =~= all);
        r
    }

    /// Get a specific INI value.
    pub fn get_value(config: &IniConfig, section: &str, key: &str) -> (r: Option<String>)
        ensures
            match r {
                Some(v) => ini_map(config).contains_key(section@) && ini_map(config)[section@].contains_key(key@)
                    && v@ == ini_map(config)[section@][key@],
                None => !(ini_map(config).contains_key(section@) && ini_map(config)[section@].contains_key(key@)),
            },
    {
        match config.sections.get(section) {
            Some(inner) => {
                match inner.get(key) {
                    Some(v) => Some(v.clone()),
                    None => None,
                }
            },
            None => None,
        }
    }

    /// Set a specific INI value (creates the section if needed).
    pub fn set_value(config: &mut IniConfig, section: &str, key: &str, value: &str)
        ensures
            ini_map(final(config)) == ini_set(ini_map(old(config)), section@, key@, value@),
    {
        Self::set_in(&mut config.sections, section.to_owned(), key.to_owned(), value.to_owned());
    }

    /// Apply an optimisation preset: "Performance", "Graphics" or "Ultra".
    pub fn apply_preset(config: &mut IniConfig, preset: &str) -> (r: Result<(), String>)
        ensures
            r is Ok <==> preset_settings(preset@) is Some,
            r is Ok ==> ini_map(final(config)) == apply_settings(ini_map(old(config)), preset_settings(preset@)->0),
            r matches Err(e) ==> e@ == "Unknown preset: "@ + preset@ && ini_map(final(config)) == ini_map(old(config)),
    {
        let p = chars_of(preset);
        let settings: Vec<(&str, &str, &str)> = if eq_str(&p, "Performance") {
            vec![
                ("Display", "iMaxAnisotropy", "1"),
                ("Display", "iMaximumAnimatedObjectCount", "4"),
                ("Display", "iTexMipSkip", "3"),
                ("Display", "bUseMap", "0"),
                ("Audio", "iAudioMasterVolume", "80"),
                ("Interface", "fMenuBGAlpha", "0.5"),
            ]
        } else if eq_str(&p, "Graphics") {
            vec![
                ("Display", "iMaxAnisotropy", "8"),
                ("Display", "iMaximumAnimatedObjectCount", "512"),
                ("Display", "iTexMipSkip", "1"),
                ("Display", "bUseMap", "1"),
                ("Audio", "iAudioMasterVolume", "100"),
                ("Interface", "fMenuBGAlpha", "0.8"),
            ]
        } else if eq_str(&p, "Ultra") {
            vec![
                ("Display", "iMaxAnisotropy", "16"),
                ("Display", "iMaximumAnimatedObjectCount", "512"),
                ("Display", "iTexMipSkip", "0"),
                ("Display", "bUseMap", "1"),
                ("Display", "iShadowMapResolution", "4096"),
                ("Audio", "iAudioMasterVolume", "100"),
                ("Interface", "fMenuBGAlpha", "1.0"),
            ]
        } else {
            let mut msg = chars_of("Unknown preset: ");
            push_all(&mut msg, &p);
            return Err(string_of(&msg));
        };
        let ghost table = preset_settings(preset@)->0;
        assert(settings@.map_values(|t: (&str, &str, &str)| (t.0@, t.1@, t.2@)) =~= table);
        let ghost m0 = ini_map(config);
        let mut i: usize = 0;
        while i < settings.len()
            invariant
                i <= settings@.len() == table.len(),
                forall|j: int| 0 <= j < table.len() ==> #[trigger] table[j] == (settings@[j].0@, settings@[j].1@, settings@[j].2@),
                ini_map(config) == apply_settings(m0, table.take(i as int)),
            decreases settings@.len() - i,
        {
            let (s, k, v) = settings[i];
            Self::set_value(config, s, k, v);
            proof {
                assert(table.take(i + 1).drop_last() =~= table.take(i as int));
                assert(table.take(i + 1).last() == table[i as int]);
            }
            i += 1;
        }
        assert(table.take(table.len() as int) =~= table);
        Ok(())
    }

    /// Parse INI file content into sections and key/value pairs.
    pub fn parse_ini_content(content: &str) -> (c: IniConfig)
        requires
            parsable(content@),
        ensures
            ini_map(&c) == parse_ini(content@),
    {
        let chars = chars_of(content);
        let ls = split_lines(&chars);
        let mut config = IniConfig { sections: StringMap::new() };
        let mut current: Vec<char> = Vec::new();
        proof {
            lemma_as_map_empty::<Seq<(Seq<char>, Seq<char>)>>();
            assert(ini_map(&config) =~= Map::empty());
            assert(views(ls@).take(0) =~= Seq::<Seq<char>>::empty());
        }
        let mut i: usize = 0;
        while i < ls.len()
            invariant
                i <= ls@.len(),
                views(ls@) == lines(content@),
                parsable(content@),
                (ini_map(&config), current@) == parse_lines(views(ls@).take(i as int)),
            decreases ls@.len() - i,
        {
            let t = trimmed(&ls[i]);
            let ghost line = ls@[i as int]@;
            proof {
                assert(views(ls@)[i as int] == line);
                assert(views(ls@).take(i + 1).drop_last() =~= views(ls@).take(i as int));
                assert(views(ls@).take(i + 1).last() == line);
                assert(!lone_quote_value(lines(content@)[i as int]));
            }
            if t.len() == 0 || t[0] == ';' {
            } else if t.len() >= 2 && t[0] == '[' && t[t.len() - 1] == ']' {
                let name = slice_of(&t, 1, t.len() - 1);
                if !config.sections.contains_key(string_of(&name).as_str()) {
                    let ghost s0 = config.sections@;
                    config.sections.insert(string_of(&name), StringMap::new());
                    proof {
                        lemma_as_map_insert(s0, config.sections@, name@, Seq::empty());
                        lemma_as_map_empty::<Seq<char>>();
                        assert(ini_map(&config) =~= parse_line(parse_lines(views(ls@).take(i as int)).0, current@, line).0);
                    }
                }
                current = name;
            } else {
                match find_ch(&t, '=') {
                    Some(eq) => {
                        proof {
                            lemma_find(t@, seq!['=']);
                        }
                        let key = trimmed(&slice_of(&t, 0, eq));
                        let rest = slice_of(&t, eq + 1, t.len());
                        let mut value = trimmed(&rest);
                        proof {
                            assert(t@.take(eq as int) =~= t@.subrange(0, eq as int));
                            assert(t@.skip(eq + 1) =~= t@.subrange(eq + 1, t@.len() as int));
                        }
                        if value.len() >= 1 && value[0] == '"' && value[value.len() - 1] == '"' {
                            proof {
                                if value.len() < 2 {
                                    assert(value@ =~= seq!['"']);
                                    assert(t@ == trim(line));
                                    assert(lone_quote_value(line));
                                }
                            }
                            value = slice_of(&value, 1, value.len() - 1);
                        }
                        Self::set_in(&mut config.sections, string_of(&current), string_of(&key), string_of(&value));
                    },
                    None => {},
                }
            }
            i += 1;
        }
        assert(views(ls@).take(ls@.len() as int) =~= views(ls@));
        config
    }
}

impl IniManager {
    /// Whether `parse_ini_content` accepts `content`: no `key=value` line
    /// whose value is a lone double quote.
    pub fn is_parsable(content: &str) -> (b: bool)
        ensures
            b == parsable(content@),
    {
        let chars = chars_of(content);
        let ls = split_lines(&chars);
        let mut i: usize = 0;
        while i < ls.len()
            invariant
                i <= ls@.len(),
                views(ls@) == lines(content@),
                forall|j: int| 0 <= j < i ==> !lone_quote_value(#[trigger] lines(content@)[j]),
            decreases ls@.len() - i,
        {
            assert(views(ls@)[i as int] == ls@[i as int]@);
            if Self::lone_quote_line(&ls[i]) {
                return false;
            }
            i += 1;
        }
        true
    }

    /// Whether one line's value is a lone double quote.
    fn lone_quote_line(line: &Vec<char>) -> (b: bool)
        ensures
            b == lone_quote_value(line@),
    {
        let t = trimmed(line);
        if t.len() == 0 || t[0] == ';' {
            return false;
        }
        if t.len() >= 2 && t[0] == '[' && t[t.len() - 1] == ']' {
            return false;
        }
        match find_ch(&t, '=') {
            Some(eq) => {
                proof {
                    lemma_find(t@, seq!['=']);
                    assert(t@.skip(eq + 1) =~= t@.subrange(eq + 1, t@.len() as int));
                }
                let rest = slice_of(&t, eq + 1, t.len());
                let v = trimmed(&rest);
                proof {
                    if v.len() == 1 && v[0] == '"' {
                        assert(v@ =~= seq!['"']);
                    }
                }
                v.len() == 1 && v[0] == '"'
            },
            None => false,
        }
    }
}

impl IniManager {
    /// Index just past the last content line of `section`, where a new key
    /// would go; `None` when the section header isn't present.
    fn section_end_index(lines: &Vec<Vec<char>>, section: &str) -> (r: Option<usize>)
        ensures
            match r {
                Some(e) => section_end(views(lines@), section@) == Some(e as int) && e <= lines@.len(),
                None => section_end(views(lines@), section@) is None,
            },
    {
        let ghost ls = views(lines@);
        let sc = chars_of(section);
        let target = lower_chars(&sc);
        let mut inside = false;
        let mut last: Option<usize> = None;
        let mut i: usize = 0;
        while i < lines.len()
            invariant
                i <= lines@.len(),
                ls == views(lines@),
                target@ == lowercase(section@),
                last matches Some(e) ==> e <= i,
                section_end(ls, section@) == section_end_from(
                    ls,
                    target@,
                    i as int,
                    inside,
                    match last {
                        Some(e) => Some(e as int),
                        None => None,
                    },
                ),
            decreases lines@.len() - i,
        {
            assert(ls[i as int] == lines@[i as int]@);
            let t = trimmed(&lines[i]);
            if t.len() >= 2 && t[0] == '[' && t[t.len() - 1] == ']' {
                let inner = slice_of(&t, 1, t.len() - 1);
                let name = lower_chars(&inner);
                if inside {
                    return last;
                }
                inside = eq_chars(&name, &target);
                if inside {
                    last = Some(i + 1);
                }
            } else if inside && t.len() > 0 {
                last = Some(i + 1);
            }
            i += 1;
        }
        last
    }

    /// The new text of INI file `filename` after `changes`: keys found are
    /// edited in place (keeping what precedes `=`), the others added under
    /// their section, or in a new section at the end. `content` is the file's
    /// text (empty when it could not be read). Where several changes name
    /// the same key of a line, the last one's value is written.
    pub fn save_changes(filename: &str, content: &str, changes: &[IniChange]) -> (r: Result<String, String>)
        ensures
            match r {
                Ok(t) => known_ini_file(filename@) && t@ == changed_text(content@, ini_change_views(changes@)),
                Err(e) => !known_ini_file(filename@) && e@ == "Unsupported INI file: "@ + filename@,
            },
    {
        match Self::guard_filename(filename) {
            Ok(()) => {},
            Err(e) => return Err(e),
        }
        Ok(Self::edited_text(content, changes))
    }

    fn edited_text(content: &str, changes: &[IniChange]) -> (r: String)
        ensures
            r@ == changed_text(content@, ini_change_views(changes@)),
    {
        let ghost cs = ini_change_views(changes@);
        let c = chars_of(content);
        let raw = split_lines(&c);
        let ghost rv = views(raw@);
        // lower-cased sections and keys of the changes
        let mut low: Vec<(Vec<char>, Vec<char>)> = Vec::new();
        let mut k: usize = 0;
        while k < changes.len()
            invariant
                k <= changes@.len(),
                low@.len() == k,
                forall|j: int| 0 <= j < k ==> (#[trigger] low@[j]).0@ == lowercase(changes@[j].section@) && low@[j].1@
                    == lowercase(changes@[j].key@),
            decreases changes@.len() - k,
        {
            let s1 = chars_of(changes[k].section.as_str());
            let k1 = chars_of(changes[k].key.as_str());
            low.push((lower_chars(&s1), lower_chars(&k1)));
            k += 1;
        }
        let mut applied: Vec<bool> = Vec::new();
        let mut k2: usize = 0;
        while k2 < changes.len()
            invariant
                k2 <= changes@.len(),
                applied@ == Seq::new(k2 as nat, |i: int| false),
            decreases changes@.len() - k2,
        {
            applied.push(false);
            assert(applied@ =~= Seq::new((k2 + 1) as nat, |i: int| false));
            k2 += 1;
        }
        // pass 1
        let mut out: Vec<Vec<char>> = Vec::new();
        let mut current: Vec<char> = Vec::new();
        let mut i: usize = 0;
        assert(rv.take(0) =~= Seq::<Seq<char>>::empty());
        assert(views(out@) =~= Seq::<Seq<char>>::empty());
        assert(applied@ =~= Seq::new(cs.len(), |i: int| false));
        while i < raw.len()
            invariant
                i <= raw@.len(),
                rv == views(raw@),
                rv == lines(content@),
                cs == ini_change_views(changes@),
                low@.len() == changes@.len(),
                forall|j: int| 0 <= j < changes@.len() ==> (#[trigger] low@[j]).0@ == lowercase(changes@[j].section@)
                    && low@[j].1@ == lowercase(changes@[j].key@),
                applied@.len() == changes@.len(),
                replace_lines(cs, rv.take(i as int)) == (views(out@), applied@, current@),
            decreases raw@.len() - i,
        {
            assert(rv.take(i + 1).drop_last() =~= rv.take(i as int));
            assert(rv.take(i + 1).last() == raw@[i as int]@);
            let line = &raw[i];
            let t = trimmed(line);
            let ghost before = views(out@);
            if t.len() >= 2 && t[0] == '[' && t[t.len() - 1] == ']' {
                let inner = slice_of(&t, 1, t.len() - 1);
                current = lower_chars(&inner);
                let cp = slice_of(line, 0, line.len());
                assert(cp@ =~= line@);
                out.push(cp);
                assert(views(out@) =~= before.push(raw@[i as int]@));
            } else {
                match find_ch(line, '=') {
                    Some(eq) => {
                        proof {
                            lemma_find(line@, seq!['=']);
                        }
                        let head = slice_of(line, 0, eq);
                        assert(head@ =~= line@.take(eq as int));
                        let key_lower = lower_chars(&trimmed(&head));
                        // every change pending for this key; the last one's value is written
                        let ghost applied0 = applied@;
                        let mut j: usize = 0;
                        let mut hit: Option<usize> = None;
                        while j < changes.len()
                            invariant
                                j <= changes@.len(),
                                low@.len() == changes@.len(),
                                applied0.len() == changes@.len(),
                                cs == ini_change_views(changes@),
                                forall|q: int| 0 <= q < changes@.len() ==> (#[trigger] low@[q]).0@ == lowercase(
                                    changes@[q].section@,
                                ) && low@[q].1@ == lowercase(changes@[q].key@),
                                applied@ == mark_pending(cs, applied0, current@, key_lower@, j as int),
                                match hit {
                                    Some(h) => h < j && last_pending(cs, applied0, current@, key_lower@, j as int)
                                        == Some(h as int),
                                    None => last_pending(cs, applied0, current@, key_lower@, j as int) is None,
                                },
                            decreases changes@.len() - j,
                        {
                            if !applied[j] && eq_chars(&low[j].0, &current) && eq_chars(&low[j].1, &key_lower) {
                                hit = Some(j);
                                applied.set(j, true);
                            }
                            assert(applied@ =~= mark_pending(cs, applied0, current@, key_lower@, j + 1));
                            j += 1;
                        }
                        match hit {
                            Some(h) => {
                                let mut nl = trimmed_end(&head);
                                nl.push('=');
                                push_str(&mut nl, changes[h].value.as_str());
                                proof {
                                    reveal_strlit("=");
                                }
                                assert(nl@ =~= trim_end(line@.take(eq as int)) + "="@ + cs[h as int].2);
                                out.push(nl);
                                assert(views(out@) =~= before.push(trim_end(line@.take(eq as int)) + "="@ + cs[h as int].2));
                            },
                            None => {
                                proof {
                                    lemma_no_pending(cs, applied0, current@, key_lower@, changes@.len() as int);
                                }
                                assert(applied@ =~= applied0);
                                let cp = slice_of(line, 0, line.len());
                                assert(cp@ =~= line@);
                                out.push(cp);
                                assert(views(out@) =~= before.push(raw@[i as int]@));
                            },
                        }
                    },
                    None => {
                        let cp = slice_of(line, 0, line.len());
                        assert(cp@ =~= line@);
                        out.push(cp);
                        assert(views(out@) =~= before.push(raw@[i as int]@));
                    },
                }
            }
            i += 1;
        }
        assert(rv.take(raw@.len() as int) =~= rv);
        // pass 2
        let ghost applied1 = applied@;
        let ghost out1 = views(out@);
        let mut q: usize = 0;
        while q < changes.len()
            invariant
                q <= changes@.len(),
                applied@ == applied1,
                applied1.len() == changes@.len(),
                cs == ini_change_views(changes@),
                views(out@) == append_pending(out1, cs, applied1, q as int),
            decreases changes@.len() - q,
        {
            if !applied[q] {
                let ghost before = views(out@);
                let c = &changes[q];
                assert(cs[q as int] == (c.section@, c.key@, c.value@));
                let mut kv: Vec<char> = Vec::new();
                push_str(&mut kv, c.key.as_str());
                push_str(&mut kv, "=");
                push_str(&mut kv, c.value.as_str());
                match Self::section_end_index(&out, c.section.as_str()) {
                    Some(end) => {
                        out.insert(end, kv);
                        assert(views(out@) =~= before.insert(end as int, c.key@ + "="@ + c.value@));
                    },
                    None => {
                        if out.len() > 0 && trimmed(&out[out.len() - 1]).len() > 0 {
                            out.push(Vec::new());
                            assert(views(out@) =~= before.push(Seq::<char>::empty()));
                        }
                        let ghost base = views(out@);
                        let mut hdr: Vec<char> = Vec::new();
                        push_str(&mut hdr, "[");
                        push_str(&mut hdr, c.section.as_str());
                        push_str(&mut hdr, "]");
                        out.push(hdr);
                        out.push(kv);
                        assert(views(out@) =~= base.push("["@ + c.section@ + "]"@).push(c.key@ + "="@ + c.value@));
                    },
                }
            }
            q += 1;
        }
        // join and final newline
        let ghost ov = views(out@);
        let mut text: Vec<char> = Vec::new();
        let mut w: usize = 0;
        assert(join(ov.take(0), "\n"@) =~= Seq::<char>::empty());
        while w < out.len()
            invariant
                w <= out@.len(),
                ov == views(out@),
                text@ == join(ov.take(w as int), "\n"@),
            decreases out@.len() - w,
        {
            assert(ov.take(w + 1).drop_last() =~= ov.take(w as int));
            assert(ov.take(w + 1).last() == out@[w as int]@);
            if w > 0 {
                push_str(&mut text, "\n");
            } else {
                assert(ov.take(1)[0] == out@[0]@);
            }
            push_all(&mut text, &out[w]);
            w += 1;
        }
        assert(ov.take(out@.len() as int) =~= ov);
        proof {
            reveal_strlit("\n");
        }
        let ghost o = text@;
        if !(text.len() > 0 && text[text.len() - 1] == '\n') {
            text.push('\n');
            assert(text@ =~= o + "\n"@);
        }
        string_of(&text)
    }
}

/// The sections of a config (each with its key order) written in sorted
/// order, as `serialize_ini` lays them out.
pub open spec fn serialized_as(c: &IniConfig, names: Seq<Seq<char>>, keyss: Seq<Seq<Seq<char>>>) -> bool {
    &&& sorted(names)
    &&& permutes(names, keys_of(c.sections@))
    &&& keyss.len() == names.len()
    &&& forall|i: int|
        0 <= i < names.len() ==> sorted(#[trigger] keyss[i]) && permutes(
            keyss[i],
            keys_of(lookup(c.sections@, names[i])->0),
        )
}

impl IniManager {
    /// Serialize the config: sections and the keys within each in sorted order,
    /// a blank line after each section.
    pub fn serialize_ini(config: &IniConfig) -> (r: String)
        ensures
            exists|names: Seq<Seq<char>>, keyss: Seq<Seq<Seq<char>>>|
                serialized_as(config, names, keyss) && r@ == ini_text(ini_map(config), names, keyss),
    {
        let ghost m = ini_map(config);
        let raw_names = config.sections.keys();
        let names = sort_strings(&raw_names);
        let ghost ns = strs(names@);
        let ghost mut keyss: Seq<Seq<Seq<char>>> = seq![];
        let mut text: Vec<char> = Vec::new();
        let mut i: usize = 0;
        while i < names.len()
            invariant
                i <= names@.len(),
                ns == strs(names@),
                m == ini_map(config),
                sorted(ns),
                permutes(ns, keys_of(config.sections@)),
                keyss.len() == i,
                forall|j: int|
                    0 <= j < i ==> sorted(#[trigger] keyss[j]) && permutes(
                        keyss[j],
                        keys_of(lookup(config.sections@, ns[j])->0),
                    ),
                text@ == ini_text(m, ns.take(i as int), keyss),
            decreases names@.len() - i,
        {
            let name = &names[i];
            assert(ns[i as int] == name@);
            proof {
                assert(crate::sort::count(ns, name@) > 0) by {
                    assert(ns =~= ns.take(i as int) + (seq![name@] + ns.skip(i + 1)));
                    crate::sort::lemma_count_pos_at(ns, i as int);
                }
                crate::sort::lemma_count_pos(keys_of(config.sections@), name@);
                crate::string_map::lemma_lookup_index(config.sections@, name@);
                let j = choose|j: int| 0 <= j < keys_of(config.sections@).len() && keys_of(config.sections@)[j] == name@;
                assert(config.sections@[j].0 == name@);
            }
            let inner = config.sections.get(name.as_str()).unwrap();
            let ghost iv = inner@;
            let ghost text0 = text@;
            let raw_keys = inner.keys();
            let keys = sort_strings(&raw_keys);
            let ghost ks = strs(keys@);
            push_str(&mut text, "[");
            push_str(&mut text, name.as_str());
            push_str(&mut text, "]\n");
            let ghost head = text@;
            let mut k: usize = 0;
            assert(key_lines(m[name@], ks.take(0)) =~= Seq::<char>::empty());
            assert(head =~= head + key_lines(m[name@], ks.take(0)));
            while k < keys.len()
                invariant
                    k <= keys@.len(),
                    ks == strs(keys@),
                    m == ini_map(config),
                    lookup(config.sections@, name@) == Some(iv),
                    inner@ == iv,
                    permutes(ks, keys_of(iv)),
                    text@ == head + key_lines(m[name@], ks.take(k as int)),
                decreases keys@.len() - k,
            {
                let key = &keys[k];
                assert(ks[k as int] == key@);
                proof {
                    assert(crate::sort::count(ks, key@) > 0) by {
                        crate::sort::lemma_count_pos_at(ks, k as int);
                    }
                    crate::sort::lemma_count_pos(keys_of(iv), key@);
                    crate::string_map::lemma_lookup_index(iv, key@);
                    let j = choose|j: int| 0 <= j < keys_of(iv).len() && keys_of(iv)[j] == key@;
                    assert(iv[j].0 == key@);
                }
                let value = inner.get(key.as_str()).unwrap();
                push_str(&mut text, key.as_str());
                push_str(&mut text, "=");
                push_str(&mut text, value.as_str());
                push_str(&mut text, "\n");
                proof {
                    assert(ks.take(k + 1).drop_last() =~= ks.take(k as int));
                    assert(ks.take(k + 1).last() == key@);
                    assert(m[name@] == crate::string_map::as_map(iv));
                    assert(m[name@][key@] == value@);
                }
                assert(text@ =~= head + key_lines(m[name@], ks.take(k + 1)));
                k += 1;
            }
            assert(ks.take(keys@.len() as int) =~= ks);
            push_str(&mut text, "\n");
            proof {
                let old_k = keyss;
                keyss = keyss.push(ks);
                assert(ns.take(i + 1).drop_last() =~= ns.take(i as int));
                assert(ns.take(i + 1).last() == name@);
                assert(keyss.drop_last() =~= old_k);
                assert(text0 == ini_text(m, ns.take(i as int), old_k));
                assert(head =~= text0 + "["@ + name@ + "]\n"@);
            }
            assert(text@ =~= ini_text(m, ns.take(i + 1), keyss));
            i += 1;
        }
        assert(ns.take(names@.len() as int) =~= ns);
        assert(serialized_as(config, ns, keyss));
        string_of(&text)
    }
}

} // verus!
