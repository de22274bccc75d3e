//! Enabling installed plugins in Mod Organizer 2's `plugins.txt`.
use vstd::prelude::*;
use crate::services::enb_manager::extension;
use crate::sort::{permutes, sort_strings, sorted};
use crate::services::mod_detector::{lemma_strip_all_start_skip, strip_all_start};
use crate::text::{
    chars_of, eq_chars, eq_str, has_prefix, has_suffix, is_ws, join, lines, lower_chars, lowercase, push_all, push_str,
    slice_of, split_lines, string_of, strs, trim, trim_end, trim_start, trimmed, trimmed_end, views,
};

pub use crate::text::render;

verus! {

/// What the profile pattern of `ModOrganizer.ini`,
/// `(?i)^\s*selected_profile\s*=\s*(?:@ByteArray\(([^)]*)\)|([^\r\n#;]+))`,
/// captures in `content`: `None` without a match, else its two groups.
pub uninterp spec fn profile_captures(content: Seq<char>) -> Option<(Option<Seq<char>>, Option<Seq<char>>)>;

/// `regex::Regex::captures` of the profile pattern; the groups that took part
/// in the match are handed out as strings. The pattern is a valid constant,
/// so building it cannot fail.
#[verifier::external_body]
fn profile_regex_captures(content: &str) -> (r: Option<(Option<String>, Option<String>)>)
    ensures
        match r {
            Some((a, b)) => profile_captures(content@) == Some(
                (
                    match a {
                        Some(x) => Some(x@),
                        None => None::<Seq<char>>,
                    },
                    match b {
                        Some(x) => Some(x@),
                        None => None::<Seq<char>>,
                    },
                ),
            ),
            None => profile_captures(content@) is None,
        },
{
    let re = regex::Regex::new(r"(?i)^\s*selected_profile\s*=\s*(?:@ByteArray\(([^)]*)\)|([^\r\n#;]+))").unwrap();
    re.captures(content).map(
        |c| (c.get(1).map(|m| m.as_str().to_string()), c.get(2).map(|m| m.as_str().to_string())),
    )
}

/// The profile `ModOrganizer.ini` selects: the first group that took part in
/// the match, trimmed, when it is not empty.
pub open spec fn selected_profile(content: Seq<char>) -> Option<Seq<char>> {
    match profile_captures(content) {
        Some((a, b)) => {
            let g = match a {
                Some(x) => Some(x),
                None => b,
            };
            match g {
                Some(x) => if trim(x).len() > 0 {
                    Some(trim(x))
                } else {
                    None
                },
                None => None,
            }
        },
        None => None,
    }
}

/// One of the base game's master files (lower case).
pub open spec fn master_esm(p: Seq<char>) -> bool {
    p == "fallout4.esm"@ || p == "dlccoast.esm"@ || p == "dlcnukaworld.esm"@ || p == "dlcrobot.esm"@ || p
        == "dlcworkshop01.esm"@ || p == "dlcworkshop02.esm"@ || p == "dlcworkshop03.esm"@
}

/// The plugin a `plugins.txt` line names, lower-cased, without `*` marks.
pub open spec fn line_key(ln: Seq<char>) -> Seq<char> {
    lowercase(trim(strip_all_start(ln, '*')))
}

/// Position of the last non-empty line naming `name`.
pub open spec fn last_index(ls: Seq<Seq<char>>, name: Seq<char>) -> Option<int>
    decreases ls.len(),
{
    if ls.len() == 0 {
        None
    } else if ls.last().len() > 0 && line_key(ls.last()) == name {
        Some(ls.len() - 1)
    } else {
        last_index(ls.drop_last(), name)
    }
}

/// One past the last line naming a base-game master, 0 when there is none.
pub open spec fn master_anchor(ls: Seq<Seq<char>>) -> int
    decreases ls.len(),
{
    if ls.len() == 0 {
        0
    } else if ls.last().len() > 0 && master_esm(line_key(ls.last())) {
        ls.len() as int
    } else {
        master_anchor(ls.drop_last())
    }
}

/// Where new plugins go: after the masters, but before PRP and its patch.
pub open spec fn insert_point(ls: Seq<Seq<char>>) -> int {
    let a = master_anchor(ls);
    let b = match last_index(ls, "prp.esp"@) {
        Some(i) => if i < a {
            i
        } else {
            a
        },
        None => a,
    };
    match last_index(ls, "prp - patch.esp"@) {
        Some(i) => if i < b {
            i
        } else {
            b
        },
        None => b,
    }
}

/// One plugin enabled: the last line that names it gets its `*`; otherwise
/// a new `*name` line goes in at the insertion point, which then moves past
/// it.
pub open spec fn enable_step(st: (Seq<Seq<char>>, int, bool), name: Seq<char>) -> (Seq<Seq<char>>, int, bool) {
    match last_index(st.0, lowercase(name)) {
        Some(idx) => if has_prefix(st.0[idx], seq!['*']) {
            st
        } else {
            (st.0.update(idx, seq!['*'] + st.0[idx]), st.1, true)
        },
        None => (st.0.insert(st.1, seq!['*'] + name), st.1 + 1, true),
    }
}

/// The edit state (lines, insertion point, changed) after enabling `names`.
pub open spec fn enable_all(orig: Seq<Seq<char>>, names: Seq<Seq<char>>) -> (Seq<Seq<char>>, int, bool)
    decreases names.len(),
{
    if names.len() == 0 {
        (orig, insert_point(orig), false)
    } else {
        enable_step(enable_all(orig, names.drop_last()), names.last())
    }
}

/// Some line of `ls` names `name` (ignoring case) and is enabled.
pub open spec fn plugin_enabled(ls: Seq<Seq<char>>, name: Seq<char>) -> bool {
    exists|k: int| 0 <= k < ls.len() && has_prefix(#[trigger] ls[k], seq!['*']) && line_key(ls[k]) == lowercase(name)
}

/// A plugin file name as `plugins.txt` can hold it: no whitespace around
/// it and no leading `*`.
pub open spec fn plain_plugin_name(n: Seq<char>) -> bool {
    n.len() > 0 ==> !is_ws(n[0]) && !is_ws(n.last()) && n[0] != '*'
}

/// The lines of `plugins.txt`, each without trailing whitespace.
pub open spec fn plugin_lines(content: Seq<char>) -> Seq<Seq<char>> {
    lines(content).map_values(|l: Seq<char>| trim_end(l))
}

/// Whether enabling `names` changes `plugins.txt`, and the text afterwards.
pub open spec fn add_plugins(content: Seq<char>, names: Seq<Seq<char>>) -> (bool, Seq<char>) {
    let st = enable_all(plugin_lines(content), names);
    (st.2, render(st.0))
}

proof fn lemma_enable_all_bounds(orig: Seq<Seq<char>>, names: Seq<Seq<char>>)
    ensures
        enable_all(orig, names).0.len() >= orig.len(),
        0 <= enable_all(orig, names).1 <= enable_all(orig, names).0.len(),
    decreases names.len(),
{
    lemma_insert_point_bound(orig);
    if names.len() > 0 {
        lemma_enable_all_bounds(orig, names.drop_last());
        lemma_last_index_bound(enable_all(orig, names.drop_last()).0, lowercase(names.last()));
    }
}

proof fn lemma_last_index_bound(ls: Seq<Seq<char>>, name: Seq<char>)
    ensures
        last_index(ls, name) matches Some(i) ==> 0 <= i < ls.len() && ls[i].len() > 0 && line_key(ls[i]) == name,
    decreases ls.len(),
{
    if ls.len() > 0 {
        lemma_last_index_bound(ls.drop_last(), name);
        if let Some(i) = last_index(ls.drop_last(), name) {
            assert(ls.drop_last()[i] == ls[i]);
        }
    }
}

proof fn lemma_star_key(l: Seq<char>)
    ensures
        line_key(seq!['*'] + l) == line_key(l),
{
    assert((seq!['*'] + l).drop_first() =~= l);
}

proof fn lemma_plain_key(n: Seq<char>)
    requires
        plain_plugin_name(n),
    ensures
        line_key(seq!['*'] + n) == lowercase(n),
{
    lemma_star_key(n);
    if n.len() > 0 {
        assert(strip_all_start(n, '*') == n);
        assert(trim_start(n) == n);
        assert(trim_end(n) == n);
    } else {
        assert(strip_all_start(n, '*') == n);
        assert(trim_start(n) == n);
        assert(trim_end(n) == n);
    }
}

proof fn lemma_step_keeps(st: (Seq<Seq<char>>, int, bool), name: Seq<char>, m: Seq<char>)
    requires
        0 <= st.1 <= st.0.len(),
        plugin_enabled(st.0, m),
    ensures
        plugin_enabled(enable_step(st, name).0, m),
{
    let k = choose|k: int| 0 <= k < st.0.len() && has_prefix(#[trigger] st.0[k], seq!['*']) && line_key(st.0[k]) == lowercase(m);
    let ls = enable_step(st, name).0;
    lemma_last_index_bound(st.0, lowercase(name));
    match last_index(st.0, lowercase(name)) {
        Some(idx) => {
            if !has_prefix(st.0[idx], seq!['*']) {
                assert(k != idx);
                assert(ls[k] == st.0[k]);
            } else {
                assert(ls[k] == st.0[k]);
            }
        },
        None => {
            if k < st.1 {
                assert(ls[k] == st.0[k]);
            } else {
                assert(ls[k + 1] == st.0[k]);
            }
        },
    }
}

proof fn lemma_step_enables(st: (Seq<Seq<char>>, int, bool), name: Seq<char>)
    requires
        0 <= st.1 <= st.0.len(),
        plain_plugin_name(name),
    ensures
        plugin_enabled(enable_step(st, name).0, name),
{
    let ls = enable_step(st, name).0;
    lemma_last_index_bound(st.0, lowercase(name));
    match last_index(st.0, lowercase(name)) {
        Some(idx) => {
            if has_prefix(st.0[idx], seq!['*']) {
                assert(has_prefix(ls[idx], seq!['*']));
            } else {
                lemma_star_key(st.0[idx]);
                assert(ls[idx] == seq!['*'] + st.0[idx]);
                assert((seq!['*'] + st.0[idx]).take(1) =~= seq!['*']);
                assert(has_prefix(ls[idx], seq!['*']));
            }
        },
        None => {
            lemma_plain_key(name);
            assert(ls[st.1] == seq!['*'] + name);
            assert((seq!['*'] + name).take(1) =~= seq!['*']);
            assert(has_prefix(ls[st.1], seq!['*']));
        },
    }
}

/// After `plugins.txt` is edited to enable `names`, each of them is named
/// by an enabled line (ignoring case).
pub proof fn law_added_plugins_enabled(content: Seq<char>, names: Seq<Seq<char>>)
    requires
        forall|i: int| 0 <= i < names.len() ==> plain_plugin_name(#[trigger] names[i]),
    ensures
        forall|i: int| 0 <= i < names.len() ==> plugin_enabled(enable_all(plugin_lines(content), names).0, #[trigger] names[i]),
        add_plugins(content, names).1 == render(enable_all(plugin_lines(content), names).0),
    decreases names.len(),
{
    let orig = plugin_lines(content);
    if names.len() > 0 {
        let prev = names.drop_last();
        law_added_plugins_enabled(content, prev);
        lemma_enable_all_bounds(orig, prev);
        let st = enable_all(orig, prev);
        assert forall|i: int| 0 <= i < names.len() implies plugin_enabled(enable_all(orig, names).0, #[trigger] names[i]) by {
            if i == names.len() - 1 {
                lemma_step_enables(st, names.last());
            } else {
                assert(prev[i] == names[i]);
                lemma_step_keeps(st, names.last(), names[i]);
            }
        }
    }
}

/// Where each line of the file as read stands after enabling `names`.
spec fn line_trace(orig: Seq<Seq<char>>, names: Seq<Seq<char>>) -> Seq<int>
    decreases names.len(),
{
    if names.len() == 0 {
        Seq::new(orig.len(), |i: int| i)
    } else {
        let st = enable_all(orig, names.drop_last());
        let tr = line_trace(orig, names.drop_last());
        match last_index(st.0, lowercase(names.last())) {
            Some(_) => tr,
            None => tr.map_values(|p: int| if p >= st.1 { p + 1 } else { p }),
        }
    }
}

/// Line `i` of `orig` stands at `tr[i]` of `ls`, enabled or as it was, and
/// the lines keep their order.
pub open spec fn lines_kept_at(orig: Seq<Seq<char>>, ls: Seq<Seq<char>>, tr: Seq<int>) -> bool {
    &&& tr.len() == orig.len()
    &&& forall|i: int, j: int| 0 <= i < j < tr.len() ==> tr[i] < tr[j]
    &&& forall|i: int|
        0 <= i < tr.len() ==> 0 <= #[trigger] tr[i] < ls.len() && (ls[tr[i]] == orig[i] || ls[tr[i]] == seq!['*'] + orig[i])
}

proof fn lemma_line_trace(orig: Seq<Seq<char>>, names: Seq<Seq<char>>)
    ensures
        lines_kept_at(orig, enable_all(orig, names).0, line_trace(orig, names)),
    decreases names.len(),
{
    if names.len() > 0 {
        let pre = names.drop_last();
        lemma_line_trace(orig, pre);
        lemma_enable_all_bounds(orig, pre);
        let st = enable_all(orig, pre);
        let tr = line_trace(orig, pre);
        let name = names.last();
        let ls = enable_all(orig, names).0;
        lemma_last_index_bound(st.0, lowercase(name));
        match last_index(st.0, lowercase(name)) {
            Some(idx) => {
                if !has_prefix(st.0[idx], seq!['*']) {
                    assert forall|i: int| 0 <= i < tr.len() implies 0 <= #[trigger] tr[i] < ls.len() && (ls[tr[i]] == orig[i] || ls[tr[i]]
                        == seq!['*'] + orig[i]) by {
                        if tr[i] == idx {
                            if st.0[idx] == seq!['*'] + orig[i] {
                                assert((seq!['*'] + orig[i]).take(1) =~= seq!['*']);
                            }
                        }
                    }
                }
            },
            None => {
                let tr2 = line_trace(orig, names);
                assert(tr2 == tr.map_values(|p: int| if p >= st.1 { p + 1 } else { p }));
                assert forall|i: int| 0 <= i < tr2.len() implies 0 <= #[trigger] tr2[i] < ls.len() && (ls[tr2[i]] == orig[i]
                    || ls[tr2[i]] == seq!['*'] + orig[i]) by {
                    assert(0 <= tr[i] < st.0.len());
                    if tr[i] >= st.1 {
                        assert(ls[tr[i] + 1] == st.0[tr[i]]);
                    } else {
                        assert(ls[tr[i]] == st.0[tr[i]]);
                    }
                }
                assert forall|i: int, j: int| 0 <= i < j < tr2.len() implies tr2[i] < tr2[j] by {
                    assert(tr[i] < tr[j]);
                }
            },
        }
    }
}

/// Enabling plugins keeps every line of `plugins.txt` in its order, each
/// as it was or with a `*` put in front.
pub proof fn law_plugin_lines_kept(content: Seq<char>, names: Seq<Seq<char>>)
    ensures
        exists|tr: Seq<int>| lines_kept_at(plugin_lines(content), enable_all(plugin_lines(content), names).0, tr),
{
    lemma_line_trace(plugin_lines(content), names);
}

proof fn lemma_insert_point_bound(ls: Seq<Seq<char>>)
    ensures
        0 <= insert_point(ls) <= ls.len(),
{
    lemma_anchor_bound(ls);
    lemma_last_index_bound(ls, "prp.esp"@);
    lemma_last_index_bound(ls, "prp - patch.esp"@);
}

proof fn lemma_anchor_bound(ls: Seq<Seq<char>>)
    ensures
        0 <= master_anchor(ls) <= ls.len(),
    decreases ls.len(),
{
    if ls.len() > 0 {
        lemma_anchor_bound(ls.drop_last());
    }
}

proof fn lemma_prefix_char(l: Seq<char>, c: char)
    ensures
        has_prefix(l, seq![c]) <==> (l.len() > 0 && l[0] == c),
{
    if l.len() > 0 {
        if l[0] == c {
            assert(l.take(1) =~= seq![c]);
        }
        if has_prefix(l, seq![c]) {
            assert(l.take(1)[0] == l[0]);
        }
    }
}

proof fn lemma_suffix_char(l: Seq<char>, c: char)
    ensures
        has_suffix(l, seq![c]) <==> (l.len() > 0 && l.last() == c),
{
    if l.len() > 0 {
        if l.last() == c {
            assert(l.skip(l.len() - 1) =~= seq![c]);
        }
        if has_suffix(l, seq![c]) {
            assert(l.skip(l.len() - 1)[0] == l.last());
        }
    }
}

/// The lines joined by newlines, with one final newline.
pub(crate) fn render_lines(ls: &Vec<Vec<char>>) -> (out: Vec<char>)
    ensures
        out@ == render(views(ls@)),
{
    let mut out: Vec<char> = Vec::new();
    let ghost lv = views(ls@);
    let mut q: usize = 0;
    assert(join(lv.take(0), "\n"@) =~= Seq::<char>::empty());
    while q < ls.len()
        invariant
            q <= ls@.len(),
            lv == views(ls@),
            out@ == join(lv.take(q as int), "\n"@),
        decreases ls@.len() - q,
    {
        assert(lv.take(q + 1).drop_last() =~= lv.take(q as int));
        assert(lv.take(q + 1).last() == ls@[q as int]@);
        if q > 0 {
            push_str(&mut out, "\n");
        } else {
            assert(lv.take(1)[0] == ls@[0]@);
        }
        push_all(&mut out, &ls[q]);
        q += 1;
    }
    assert(lv.take(ls@.len() as int) =~= lv);
    proof {
        reveal_strlit("\n");
        assert("\n"@ =~= seq!['\n']);
        lemma_suffix_char(out@, '\n');
    }
    let ghost o = out@;
    if !(out.len() > 0 && out[out.len() - 1] == '\n') {
        out.push('\n');
        assert(out@ =~= o + "\n"@);
    }
    out
}

/// A plugin file: its extension is `esp`, `esm` or `esl` in any case.
pub open spec fn is_plugin_file(name: Seq<char>) -> bool {
    extension(name) matches Some(e) && (lowercase(e) == "esp"@ || lowercase(e) == "esm"@ || lowercase(e) == "esl"@)
}

/// What `std::path::Path::parent` gives for a path: `None` for a root or an
/// empty path, else the path without its last component.
pub uninterp spec fn path_parent(p: Seq<char>) -> Option<Seq<char>>;

/// `Path::parent` of `p`, the parent handed out as a string (a parent of a
/// path given as text is text).
#[verifier::external_body]
fn parent_of(p: &str) -> (r: Option<String>)
    ensures
        match r {
            Some(q) => path_parent(p@) == Some(q@),
            None => path_parent(p@) is None,
        },
{
    std::path::Path::new(p).parent().map(|q| q.to_string_lossy().to_string())
}

/// Where the modlist lives: the parent of the game folder when that folder
/// has a grandparent, else `Fallout 4 Modlist` in the home folder (`home`:
/// `None` when it cannot be determined).
pub open spec fn modlist_root(game_root: Option<Seq<char>>, home: Option<Seq<char>>) -> Result<Seq<char>, Seq<char>> {
    let from_game = match game_root {
        Some(g) => match path_parent(g) {
            Some(p) => if path_parent(p) is Some {
                Some(p)
            } else {
                None
            },
            None => None,
        },
        None => None,
    };
    match from_game {
        Some(p) => Ok(p),
        None => match home {
            Some(h) => Ok(crate::services::load_order_validator::join_path(h, "Fallout 4 Modlist"@)),
            None => Err("Could not determine home directory"@),
        },
    }
}

pub struct Mo2Integration;

impl Mo2Integration {
    /// Where the modlist lives, from the game folder or the home folder.
    pub fn find_modlist_root(game_root: Option<&str>, home: Option<&str>) -> (r: Result<String, String>)
        ensures
            crate::services::clf3::result_view(r) == modlist_root(
                match game_root {
                    Some(g) => Some(g@),
                    None => None,
                },
                match home {
                    Some(h) => Some(h@),
                    None => None,
                },
            ),
    {
        if let Some(g) = game_root {
            if let Some(p) = parent_of(g) {
                if parent_of(p.as_str()).is_some() {
                    return Ok(p);
                }
            }
        }
        match home {
            Some(h) => Ok(string_of(&crate::services::load_order_validator::join_path_exec(h, "Fallout 4 Modlist"))),
            None => Err("Could not determine home directory".to_string()),
        }
    }

    /// The plugin files among the names of a folder's files, sorted.
    pub fn collect_plugins(file_names: &Vec<String>) -> (r: Vec<String>)
        ensures
            sorted(strs(r@)),
            permutes(strs(r@), strs(file_names@).filter(|n: Seq<char>| is_plugin_file(n))),
    {
        let ghost names = strs(file_names@);
        let mut found: Vec<String> = Vec::new();
        let mut i: usize = 0;
        assert(names.take(0) =~= Seq::<Seq<char>>::empty());
        while i < file_names.len()
            invariant
                i <= file_names@.len(),
                names == strs(file_names@),
                strs(found@) == names.take(i as int).filter(|n: Seq<char>| is_plugin_file(n)),
            decreases file_names@.len() - i,
        {
            let c = chars_of(file_names[i].as_str());
            let keep = Self::plugin_file(&c);
            let ghost before = strs(found@);
            if keep {
                found.push(string_of(&c));
            }
            assert(names.take(i + 1).drop_last() =~= names.take(i as int));
            assert(names.take(i + 1).last() == c@);
            reveal(Seq::filter);
            assert(strs(found@) =~= names.take(i + 1).filter(|n: Seq<char>| is_plugin_file(n)));
            i += 1;
        }
        assert(names.take(file_names@.len() as int) =~= names);
        sort_strings(&found)
    }

    /// Whether a file name is a plugin's.
    fn plugin_file(c: &Vec<char>) -> (b: bool)
        ensures
            b == is_plugin_file(c@),
    {
        match crate::services::enb_manager::extension_of(c) {
            Some(e) => {
                let l = lower_chars(&e);
                eq_str(&l, "esp") || eq_str(&l, "esm") || eq_str(&l, "esl")
            },
            None => false,
        }
    }

    /// Whether a lower-cased plugin name is one of the base game's masters.
    pub fn is_master_esm(plugin_lower: String) -> (b: bool)
        ensures
            b == master_esm(plugin_lower@),
    {
        let p = chars_of(plugin_lower.as_str());
        eq_str(&p, "fallout4.esm") || eq_str(&p, "dlccoast.esm") || eq_str(&p, "dlcnukaworld.esm") || eq_str(
            &p,
            "dlcrobot.esm",
        ) || eq_str(&p, "dlcworkshop01.esm") || eq_str(&p, "dlcworkshop02.esm") || eq_str(&p, "dlcworkshop03.esm")
    }

    /// The active profile named in `ModOrganizer.ini` (`None`: no such file).
    pub fn get_active_profile(mo2_ini: Option<&str>) -> (r: Result<String, String>)
        ensures
            match mo2_ini {
                None => r matches Err(e) && e@ == "ModOrganizer.ini not found"@,
                Some(c) => match selected_profile(c@) {
                    Some(p) => r matches Ok(x) && x@ == p,
                    None => r matches Err(e) && e@ == "Could not determine active profile"@,
                },
            },
    {
        let content = match mo2_ini {
            Some(c) => c,
            None => return Err("ModOrganizer.ini not found".to_owned()),
        };
        match profile_regex_captures(content) {
            Some((a, b)) => {
                let g = match a {
                    Some(x) => Some(x),
                    None => b,
                };
                match g {
                    Some(x) => {
                        let xc = chars_of(x.as_str());
                        let t = trimmed(&xc);
                        if t.len() > 0 {
                            Ok(string_of(&t))
                        } else {
                            Err("Could not determine active profile".to_owned())
                        }
                    },
                    None => Err("Could not determine active profile".to_owned()),
                }
            },
            None => Err("Could not determine active profile".to_owned()),
        }
    }

    fn line_key_of(ln: &Vec<char>) -> (r: Vec<char>)
        ensures
            r@ == line_key(ln@),
    {
        let mut i: usize = 0;
        while i < ln.len() && ln[i] == '*'
            invariant
                i <= ln@.len(),
                forall|k: int| 0 <= k < i ==> #[trigger] ln@[k] == '*',
            decreases ln@.len() - i,
        {
            i += 1;
        }
        proof {
            lemma_strip_all_start_skip(ln@, '*', i as int);
            assert(ln@.skip(i as int) =~= ln@.subrange(i as int, ln@.len() as int));
        }
        let rest = slice_of(ln, i, ln.len());
        let t = trimmed(&rest);
        lower_chars(&t)
    }

    /// Position of the last non-empty line whose key is `name`.
    fn last_index_of(ls: &Vec<Vec<char>>, keys: &Vec<Vec<char>>, name: &Vec<char>) -> (r: Option<usize>)
        requires
            keys@.len() == ls@.len(),
            forall|i: int| 0 <= i < ls@.len() ==> #[trigger] keys@[i]@ == line_key(ls@[i]@),
        ensures
            match r {
                Some(i) => last_index(views(ls@), name@) == Some(i as int),
                None => last_index(views(ls@), name@) is None,
            },
    {
        let ghost v = views(ls@);
        let mut j: usize = ls.len();
        assert(v.take(ls@.len() as int) =~= v);
        while j > 0
            invariant
                j <= ls@.len(),
                v == views(ls@),
                keys@.len() == ls@.len(),
                forall|i: int| 0 <= i < ls@.len() ==> #[trigger] keys@[i]@ == line_key(ls@[i]@),
                last_index(v, name@) == last_index(v.take(j as int), name@),
            decreases j,
        {
            let ghost t = v.take(j as int);
            assert(t.last() == ls@[j - 1]@);
            assert(t.drop_last() =~= v.take(j - 1));
            if ls[j - 1].len() > 0 && eq_chars(&keys[j - 1], name) {
                return Some(j - 1);
            }
            j -= 1;
        }
        None
    }

    /// Enable the plugins `plugin_names` in the text of `plugins.txt`: a
    /// listed plugin gets its `*`, a new one is inserted after the base-game
    /// masters (before PRP). Returns whether anything changed and the new text.
    pub fn add_plugins_to_file(content: &str, plugin_names: &[String]) -> (r: (bool, String))
        ensures
            (r.0, r.1@) == add_plugins(content@, crate::text::strs(plugin_names@)),
    {
        let c = chars_of(content);
        let raw = split_lines(&c);
        let mut orig: Vec<Vec<char>> = Vec::new();
        let mut keys: Vec<Vec<char>> = Vec::new();
        let mut i: usize = 0;
        while i < raw.len()
            invariant
                i <= raw@.len(),
                views(raw@) == lines(content@),
                orig@.len() == i,
                keys@.len() == i,
                forall|k: int| 0 <= k < i ==> #[trigger] orig@[k]@ == trim_end(raw@[k]@),
                forall|k: int| 0 <= k < i ==> #[trigger] keys@[k]@ == line_key(orig@[k]@),
            decreases raw@.len() - i,
        {
            let t = trimmed_end(&raw[i]);
            let k = Self::line_key_of(&t);
            orig.push(t);
            keys.push(k);
            i += 1;
        }
        let ghost ov = views(orig@);
        assert(ov =~= plugin_lines(content@)) by {
            assert forall|k: int| 0 <= k < ov.len() implies ov[k] == plugin_lines(content@)[k] by {
                assert(views(raw@)[k] == raw@[k]@);
            }
        }
        // insertion point
        let mut anchor: usize = 0;
        let mut j: usize = 0;
        proof {
            assert(ov.take(0) =~= Seq::<Seq<char>>::empty());
        }
        while j < orig.len()
            invariant
                j <= orig@.len(),
                ov == views(orig@),
                keys@.len() == orig@.len(),
                forall|k: int| 0 <= k < orig@.len() ==> #[trigger] keys@[k]@ == line_key(orig@[k]@),
                anchor == master_anchor(ov.take(j as int)),
            decreases orig@.len() - j,
        {
            let ghost t = ov.take(j + 1);
            assert(t.last() == orig@[j as int]@);
            assert(t.drop_last() =~= ov.take(j as int));
            if orig[j].len() > 0 {
                let key = string_of(&keys[j]);
                if Self::is_master_esm(key) {
                    anchor = j + 1;
                }
            }
            j += 1;
        }
        assert(ov.take(orig@.len() as int) =~= ov);
        let mut insert_index = anchor;
        let prp = chars_of("prp.esp");
        let prp_patch = chars_of("prp - patch.esp");
        if let Some(idx) = Self::last_index_of(&orig, &keys, &prp) {
            if idx < insert_index {
                insert_index = idx;
            }
        }
        if let Some(idx) = Self::last_index_of(&orig, &keys, &prp_patch) {
            if idx < insert_index {
                insert_index = idx;
            }
        }
        assert(insert_index == insert_point(ov));
        // enable each plugin
        let ghost ns = crate::text::strs(plugin_names@);
        let mut lines_out: Vec<Vec<char>> = slice_copy(&orig);
        let mut cur_keys: Vec<Vec<char>> = slice_copy(&keys);
        assert(views(cur_keys@).len() == cur_keys@.len() && views(keys@).len() == keys@.len());
        assert(views(lines_out@).len() == lines_out@.len() && views(orig@).len() == orig@.len());
        assert forall|k: int| 0 <= k < lines_out@.len() implies #[trigger] cur_keys@[k]@ == line_key(lines_out@[k]@) by {
            assert(views(cur_keys@)[k] == views(keys@)[k]);
            assert(views(lines_out@)[k] == views(orig@)[k]);
        }
        let mut changed = false;
        let mut p: usize = 0;
        assert(ns.take(0) =~= Seq::<Seq<char>>::empty());
        while p < plugin_names.len()
            invariant
                p <= plugin_names@.len(),
                ns == crate::text::strs(plugin_names@),
                cur_keys@.len() == lines_out@.len(),
                forall|k: int| 0 <= k < lines_out@.len() ==> #[trigger] cur_keys@[k]@ == line_key(lines_out@[k]@),
                enable_all(ov, ns.take(p as int)) == (views(lines_out@), insert_index as int, changed),
            decreases plugin_names@.len() - p,
        {
            proof {
                assert(ns.take(p + 1).drop_last() =~= ns.take(p as int));
                assert(ns.take(p + 1).last() == plugin_names@[p as int]@);
                lemma_enable_all_bounds(ov, ns.take(p as int));
                lemma_last_index_bound(views(lines_out@), lowercase(plugin_names@[p as int]@));
            }
            let nc = chars_of(plugin_names[p].as_str());
            let nl = lower_chars(&nc);
            let ghost before = views(lines_out@);
            let ghost st = (before, insert_index as int, changed);
            let ghost name = plugin_names@[p as int]@;
            assert(enable_all(ov, ns.take(p + 1)) == enable_step(st, name));
            assert(nl@ == lowercase(name));
            match Self::last_index_of(&lines_out, &cur_keys, &nl) {
                Some(idx) => {
                    assert(last_index(before, lowercase(name)) == Some(idx as int));
                    assert(before[idx as int] == lines_out@[idx as int]@);
                    proof {
                        lemma_prefix_char(lines_out@[idx as int]@, '*');
                    }
                    if !(lines_out[idx].len() > 0 && lines_out[idx][0] == '*') {
                        let mut nline: Vec<char> = Vec::new();
                        nline.push('*');
                        push_all(&mut nline, &lines_out[idx]);
                        let ghost nv = nline@;
                        let nk = Self::line_key_of(&nline);
                        lines_out.set(idx, nline);
                        cur_keys.set(idx, nk);
                        assert(views(lines_out@) =~= before.update(idx as int, nv));
                        changed = true;
                        assert((views(lines_out@), insert_index as int, changed) == enable_step(st, name));
                    } else {
                        assert((views(lines_out@), insert_index as int, changed) == enable_step(st, name));
                    }
                },
                None => {
                    let mut nline: Vec<char> = Vec::new();
                    nline.push('*');
                    push_all(&mut nline, &nc);
                    let ghost nv = nline@;
                    let nk = Self::line_key_of(&nline);
                    assert(insert_index <= lines_out.len());
                    lines_out.insert(insert_index, nline);
                    cur_keys.insert(insert_index, nk);
                    let grown = lines_out.len();
                    assert(views(lines_out@) =~= before.insert(insert_index as int, nv));
                    assert(insert_index < grown);
                    insert_index = insert_index + 1;
                    changed = true;
                    assert((views(lines_out@), insert_index as int, changed) == enable_step(st, name));
                },
            }
            p += 1;
        }
        assert(ns.take(plugin_names@.len() as int) =~= ns);
        let out = render_lines(&lines_out);
        (changed, string_of(&out))
    }

    /// Enable installed plugins in MO2: nothing to do without plugins;
    /// otherwise `plugins_txt` is the text of the active profile's
    /// `plugins.txt` (or why it could not be found), edited as
    /// `add_plugins_to_file` does.
    pub fn enable_plugins_in_mo2(plugin_names: &[String], plugins_txt: Result<String, String>) -> (r: Result<
        (bool, String),
        String,
    >)
        ensures
            plugin_names@.len() == 0 ==> (r matches Ok(x) && !x.0),
            plugin_names@.len() > 0 ==> match plugins_txt {
                Err(e) => (r matches Err(e2) && e2@ == e@),
                Ok(c) => (r matches Ok(x) && (x.0, x.1@) == add_plugins(c@, crate::text::strs(plugin_names@))),
            },
    {
        if plugin_names.len() == 0 {
            return Ok((false, String::new()));
        }
        match plugins_txt {
            Err(e) => Err(e),
            Ok(c) => Ok(Self::add_plugins_to_file(c.as_str(), plugin_names)),
        }
    }
}

/// A copy of each line.
fn slice_copy(v: &Vec<Vec<char>>) -> (r: Vec<Vec<char>>)
    ensures
        views(r@) == views(v@),
{
    let mut r: Vec<Vec<char>> = Vec::new();
    let mut i: usize = 0;
    while i < v.len()
        invariant
            i <= v@.len(),
            views(r@) == views(v@).take(i as int),
        decreases v@.len() - i,
    {
        let ghost before = views(r@);
        let x = slice_of(&v[i], 0, v[i].len());
        assert(x@ =~= v@[i as int]@);
        r.push(x);
        assert(views(r@) =~= before.push(v@[i as int]@));
        assert(views(v@).take(i + 1) =~= views(v@).take(i as int).push(v@[i as int]@));
        i += 1;
    }
    assert(views(v@).take(v@.len() as int) =~= views(v@));
    r
}

} // verus!
