//! The mod list of the active Mod Organizer 2 profile, `modlist.txt`:
//! `+Name` is an enabled mod, `-Name` a disabled one, `*Name` a DLC or
//! Creation Club entry and `#` a comment. The bottom of the file has the
//! highest priority. Listing, enabling, reordering and adding mods are
//! computed here on the file's text; the caller reads and writes the file.
use vstd::prelude::*;
use crate::services::clf3::result_view;
use crate::services::load_order_validator::{join_path, join_path_exec, listed};
use crate::services::mo2_integration::render_lines;
use crate::services::path_discovery::GamePaths;
use crate::text::{
    is_ws, lemma_lines_render, lemma_lines_single, lemma_trim_drop_ws_last, lemma_trim_idempotent,
    lemma_trim_keeps_absent, lemma_trim_shape, read_back, render, single_lines, strip_cr,
    chars_of, ends_with_str, lemma_trim_space_trimmed, eq_str, has_prefix, has_suffix, lines, push_all, push_str, slice_of,
    split_lines, starts_with, string_of, strs, trim, trimmed, views, eq_ignore_ascii_case, eq_ignore_case_str,
};

verus! {

/// One mod of the list: its name, whether it is enabled, whether the user
/// added it through the launcher, and whether it is a separator row.
#[derive(Debug, Clone)]
pub struct ModEntry {
    pub name: String,
    pub enabled: bool,
    pub is_user: bool,
    pub is_separator: bool,
}

impl View for ModEntry {
    type V = (Seq<char>, bool, bool, bool);

    open spec fn view(&self) -> (Seq<char>, bool, bool, bool) {
        (self.name@, self.enabled, self.is_user, self.is_separator)
    }
}

/// The views of a sequence of entries.
pub open spec fn entry_views(v: Seq<ModEntry>) -> Seq<(Seq<char>, bool, bool, bool)> {
    v.map_values(|e: ModEntry| e@)
}

/// The name after the `+` or `-` of a mod line, trimmed; `None` for any other line.
pub open spec fn mod_line_name(line: Seq<char>) -> Option<Seq<char>> {
    let t = trim(line);
    if t.len() > 0 && (t[0] == '+' || t[0] == '-') {
        Some(trim(t.drop_first()))
    } else {
        None
    }
}

/// A mod line with a name: whether it is enabled (`+`) and the name.
pub open spec fn listed_mod(line: Seq<char>) -> Option<(bool, Seq<char>)> {
    match mod_line_name(line) {
        Some(n) => if n.len() > 0 {
            Some((trim(line)[0] == '+', n))
        } else {
            None
        },
        None => None,
    }
}

/// The entries of the mod lines of `ls`, in file order; `user` lists the
/// mods the user added.
pub open spec fn mod_entries(ls: Seq<Seq<char>>, user: Seq<Seq<char>>) -> Seq<(Seq<char>, bool, bool, bool)>
    decreases ls.len(),
{
    if ls.len() == 0 {
        seq![]
    } else {
        let prev = mod_entries(ls.drop_last(), user);
        match listed_mod(ls.last()) {
            Some((enabled, name)) => prev.push((name, enabled, user.contains(name), has_suffix(name, "_separator"@))),
            None => prev,
        }
    }
}

pub open spec fn not_found_msg(name: Seq<char>) -> Seq<char> {
    "Mod not found in modlist: "@ + name
}

pub open spec fn mo2_running_msg() -> Seq<char> {
    "Mod Organizer 2 is running. Close MO2 first — it rewrites the mod list when it exits, which would undo any changes made here."@
}

/// Some line of `ls` is a mod line for `name`.
pub open spec fn names_mod(ls: Seq<Seq<char>>, name: Seq<char>) -> bool {
    exists|i: int| 0 <= i < ls.len() && #[trigger] mod_line_name(ls[i]) == Some(name)
}

/// Every mod line for `name` rewritten as `+name` or `-name`.
pub open spec fn toggled(ls: Seq<Seq<char>>, name: Seq<char>, enabled: bool) -> Seq<Seq<char>> {
    ls.map_values(
        |l: Seq<char>|
            if mod_line_name(l) == Some(name) {
                seq![if enabled { '+' } else { '-' }] + name
            } else {
                l
            },
    )
}

/// The new text of `modlist.txt` with `name` enabled or disabled, or why not.
pub open spec fn toggle_result(content: Seq<char>, name: Seq<char>, enabled: bool) -> Result<Seq<char>, Seq<char>> {
    let ls = lines(content);
    if names_mod(ls, name) {
        Ok(render(toggled(ls, name, enabled)))
    } else {
        Err(not_found_msg(name))
    }
}

/// The first mod line for `name` at or after `i`.
pub open spec fn first_named_from(ls: Seq<Seq<char>>, name: Seq<char>, i: int) -> Option<int>
    decreases ls.len() - i,
{
    if i < 0 || i >= ls.len() {
        None
    } else if mod_line_name(ls[i]) == Some(name) {
        Some(i)
    } else {
        first_named_from(ls, name, i + 1)
    }
}

/// The last mod line before `j`.
pub open spec fn prev_mod_line(ls: Seq<Seq<char>>, j: int) -> Option<int>
    decreases j,
{
    if j <= 0 || j > ls.len() {
        None
    } else if mod_line_name(ls[j - 1]) is Some {
        Some(j - 1)
    } else {
        prev_mod_line(ls, j - 1)
    }
}

/// The first mod line at or after `j`.
pub open spec fn next_mod_line(ls: Seq<Seq<char>>, j: int) -> Option<int>
    decreases ls.len() - j,
{
    if j < 0 || j >= ls.len() {
        None
    } else if mod_line_name(ls[j]) is Some {
        Some(j)
    } else {
        next_mod_line(ls, j + 1)
    }
}

/// `ls` with the lines at `a` and `b` exchanged.
pub open spec fn swapped(ls: Seq<Seq<char>>, a: int, b: int) -> Seq<Seq<char>> {
    ls.update(a, ls[b]).update(b, ls[a])
}

/// Moving `name` one mod up (towards the top of the file) or down: why not,
/// or no change at the edge, or the new text.
pub open spec fn move_result(content: Seq<char>, name: Seq<char>, up: bool) -> Result<Option<Seq<char>>, Seq<char>> {
    let ls = lines(content);
    match first_named_from(ls, name, 0) {
        None => Err(not_found_msg(name)),
        Some(t) => {
            let n = if up {
                prev_mod_line(ls, t)
            } else {
                next_mod_line(ls, t + 1)
            };
            match n {
                None => Ok(None),
                Some(k) => Ok(Some(render(swapped(ls, t, k)))),
            }
        },
    }
}

proof fn lemma_prev_mod_line(ls: Seq<Seq<char>>, j: int)
    requires
        0 <= j <= ls.len(),
    ensures
        match prev_mod_line(ls, j) {
            Some(k) => 0 <= k < j && mod_line_name(ls[k]) is Some && forall|q: int|
                k < q < j ==> #[trigger] mod_line_name(ls[q]) is None,
            None => forall|q: int| 0 <= q < j ==> #[trigger] mod_line_name(ls[q]) is None,
        },
    decreases j,
{
    if j > 0 && mod_line_name(ls[j - 1]) is None {
        lemma_prev_mod_line(ls, j - 1);
    }
}

proof fn lemma_next_mod_line(ls: Seq<Seq<char>>, j: int)
    requires
        0 <= j <= ls.len(),
    ensures
        match next_mod_line(ls, j) {
            Some(k) => j <= k < ls.len() && mod_line_name(ls[k]) is Some && forall|q: int|
                j <= q < k ==> #[trigger] mod_line_name(ls[q]) is None,
            None => forall|q: int| j <= q < ls.len() ==> #[trigger] mod_line_name(ls[q]) is None,
        },
    decreases ls.len() - j,
{
    if j < ls.len() && mod_line_name(ls[j]) is None {
        lemma_next_mod_line(ls, j + 1);
    }
}

proof fn lemma_first_named(ls: Seq<Seq<char>>, name: Seq<char>, i: int)
    requires
        0 <= i <= ls.len(),
    ensures
        match first_named_from(ls, name, i) {
            Some(t) => i <= t < ls.len() && mod_line_name(ls[t]) == Some(name) && forall|q: int|
                i <= q < t ==> #[trigger] mod_line_name(ls[q]) != Some(name),
            None => forall|q: int| i <= q < ls.len() ==> #[trigger] mod_line_name(ls[q]) != Some(name),
        },
    decreases ls.len() - i,
{
    if i < ls.len() && mod_line_name(ls[i]) != Some(name) {
        lemma_first_named(ls, name, i + 1);
    }
}

/// Moving a mod exchanges its first line with the nearest mod line above it
/// (`up`) or below it, and nothing else: every other line, and so every
/// other mod, keeps its place. Without a mod line on that side nothing
/// changes; a mod the list does not name is an error.
pub proof fn law_move_swaps_with_nearest(content: Seq<char>, name: Seq<char>, up: bool)
    ensures
        move_result(content, name, up) is Err <==> forall|q: int|
            0 <= q < lines(content).len() ==> #[trigger] mod_line_name(lines(content)[q]) != Some(name),
        move_result(content, name, up) matches Ok(Some(text)) ==> exists|t: int, k: int|
            {
                &&& 0 <= t < lines(content).len()
                &&& 0 <= k < lines(content).len()
                &&& mod_line_name(lines(content)[t]) == Some(name)
                &&& forall|q: int| 0 <= q < t ==> #[trigger] mod_line_name(lines(content)[q]) != Some(name)
                &&& mod_line_name(lines(content)[k]) is Some
                &&& if up {
                    k < t && forall|q: int| k < q < t ==> #[trigger] mod_line_name(lines(content)[q]) is None
                } else {
                    t < k && forall|q: int| t < q < k ==> #[trigger] mod_line_name(lines(content)[q]) is None
                }
                &&& text == render(lines(content).update(t, lines(content)[k]).update(k, lines(content)[t]))
            },
        move_result(content, name, up) matches Ok(None) ==> exists|t: int|
            {
                &&& 0 <= t < lines(content).len()
                &&& mod_line_name(lines(content)[t]) == Some(name)
                &&& if up {
                    forall|q: int| 0 <= q < t ==> #[trigger] mod_line_name(lines(content)[q]) is None
                } else {
                    forall|q: int| t < q < lines(content).len() ==> #[trigger] mod_line_name(lines(content)[q]) is None
                }
            },
{
    let ls = lines(content);
    lemma_first_named(ls, name, 0);
    match first_named_from(ls, name, 0) {
        None => {},
        Some(t) => {
            assert(!(forall|q: int| 0 <= q < ls.len() ==> #[trigger] mod_line_name(ls[q]) != Some(name)));
            if up {
                lemma_prev_mod_line(ls, t);
                match prev_mod_line(ls, t) {
                    Some(k) => {
                        assert(forall|q: int| 0 <= q < t ==> #[trigger] mod_line_name(ls[q]) != Some(name));
                    },
                    None => {},
                }
            } else {
                lemma_next_mod_line(ls, t + 1);
            }
        },
    }
}

pub open spec fn moved_view(r: Result<Option<String>, String>) -> Result<Option<Seq<char>>, Seq<char>> {
    match r {
        Ok(Some(s)) => Ok(Some(s@)),
        Ok(None) => Ok(None),
        Err(e) => Err(e@),
    }
}

/// The tag that keeps a mod folder out of reinstalls of the base list.
pub open spec fn no_delete_tag() -> Seq<char> {
    seq!['[', 'N', 'o', 'D', 'e', 'l', 'e', 't', 'e', ']']
}

/// `s` without any leading repetitions of the tag.
pub open spec fn strip_no_delete(s: Seq<char>) -> Seq<char>
    decreases s.len(),
{
    if has_prefix(s, no_delete_tag()) {
        strip_no_delete(s.skip(10))
    } else {
        s
    }
}

/// The folder and list name a user mod is installed under.
pub open spec fn install_name_of(name: Seq<char>) -> Seq<char> {
    no_delete_tag() + seq![' '] + trim(strip_no_delete(name))
}

/// `s` without its leading `+` and `-` characters.
pub open spec fn strip_signs(s: Seq<char>) -> Seq<char>
    decreases s.len(),
{
    if s.len() > 0 && (s[0] == '+' || s[0] == '-') {
        strip_signs(s.drop_first())
    } else {
        s
    }
}

/// The number of blank lines at the end of `ls`.
pub open spec fn blank_tail(ls: Seq<Seq<char>>) -> nat
    decreases ls.len(),
{
    if ls.len() > 0 && trim(ls.last()).len() == 0 {
        blank_tail(ls.drop_last()) + 1
    } else {
        0
    }
}

/// Some line of `ls` names `name`, whatever its sign.
pub open spec fn lists_name(ls: Seq<Seq<char>>, name: Seq<char>) -> bool {
    exists|i: int| 0 <= i < ls.len() && #[trigger] trim(strip_signs(ls[i])) == name
}

/// `modlist.txt` with `+name` added before its trailing blank lines, or
/// `None` where a line already names it.
pub open spec fn appended(content: Seq<char>, name: Seq<char>) -> Option<Seq<char>> {
    let ls = lines(content);
    if lists_name(ls, name) {
        None
    } else {
        Some(render(ls.insert(ls.len() - blank_tail(ls), seq!['+'] + name)))
    }
}

pub proof fn lemma_blank_tail_bound(ls: Seq<Seq<char>>)
    ensures
        blank_tail(ls) <= ls.len(),
    decreases ls.len(),
{
    if ls.len() > 0 {
        lemma_blank_tail_bound(ls.drop_last());
    }
}


/// Installing under the tagged name is idempotent: a name that already
/// carries the `[NoDelete]` tag is installed under itself, never tagged twice.
pub proof fn law_install_name_idempotent(name: Seq<char>)
    ensures
        install_name_of(install_name_of(name)) == install_name_of(name),
{
    let t = trim(strip_no_delete(name));
    let once = install_name_of(name);
    assert(once.take(10) =~= no_delete_tag());
    assert(once.skip(10) =~= seq![' '] + t);
    assert(!has_prefix(seq![' '] + t, no_delete_tag())) by {
        assert((seq![' '] + t)[0] == ' ');
        if has_prefix(seq![' '] + t, no_delete_tag()) {
            assert((seq![' '] + t).take(10)[0] == no_delete_tag()[0]);
        }
    }
    assert(has_prefix(once, no_delete_tag()));
    assert(strip_no_delete(seq![' '] + t) == seq![' '] + t);
    assert(strip_no_delete(once) == strip_no_delete(once.skip(10)));
    assert(strip_no_delete(once) == seq![' '] + t);
    lemma_trim_space_trimmed(strip_no_delete(name));
}


// ───────────────────────── laws ─────────────────────────

/// An entry with its enabled state set when it is the mod `name`.
pub open spec fn with_state(name: Seq<char>, enabled: bool) -> spec_fn((Seq<char>, bool, bool, bool)) -> (
    Seq<char>,
    bool,
    bool,
    bool,
) {
    |x: (Seq<char>, bool, bool, bool)|
        if x.0 == name {
            (x.0, enabled, x.2, x.3)
        } else {
            x
        }
}

proof fn lemma_line_strip_cr(l: Seq<char>)
    ensures
        mod_line_name(strip_cr(l)) == mod_line_name(l),
        listed_mod(strip_cr(l)) == listed_mod(l),
{
    if l.len() > 0 && l.last() == '\r' {
        lemma_trim_drop_ws_last(l);
    }
}

proof fn lemma_entries_strip_cr(ls: Seq<Seq<char>>, user: Seq<Seq<char>>)
    ensures
        mod_entries(ls.map_values(|l: Seq<char>| strip_cr(l)), user) == mod_entries(ls, user),
    decreases ls.len(),
{
    if ls.len() > 0 {
        lemma_entries_strip_cr(ls.drop_last(), user);
        assert(ls.map_values(|l: Seq<char>| strip_cr(l)).drop_last() =~= ls.drop_last().map_values(
            |l: Seq<char>| strip_cr(l),
        ));
        lemma_line_strip_cr(ls.last());
    }
}

/// Reading back a rendered list finds the same mods.
proof fn lemma_entries_read_back(ls: Seq<Seq<char>>, user: Seq<Seq<char>>)
    ensures
        mod_entries(read_back(ls), user) == mod_entries(ls, user),
{
    if ls.len() == 0 {
        let e: Seq<Seq<char>> = seq![seq![]];
        assert(e.drop_last() =~= Seq::<Seq<char>>::empty());
        assert(mod_entries(e, user) == mod_entries(e.drop_last(), user));
    } else if ls.len() >= 2 && ls.last().len() == 0 {
        lemma_entries_strip_cr(ls.drop_last(), user);
    } else {
        lemma_entries_strip_cr(ls, user);
    }
}

proof fn lemma_name_trimmed(l: Seq<char>)
    requires
        mod_line_name(l) is Some,
    ensures
        trim(mod_line_name(l)->0) == mod_line_name(l)->0,
        mod_line_name(l)->0.len() == 0 || (!is_ws(mod_line_name(l)->0[0]) && !is_ws(mod_line_name(l)->0.last())),
{
    lemma_trim_idempotent(trim(l).drop_first());
    lemma_trim_shape(trim(l).drop_first());
}

proof fn lemma_toggled_line(l: Seq<char>, name: Seq<char>, enabled: bool)
    requires
        mod_line_name(l) == Some(name),
    ensures
        mod_line_name(seq![if enabled { '+' } else { '-' }] + name) == Some(name),
        listed_mod(seq![if enabled { '+' } else { '-' }] + name) == match listed_mod(l) {
            Some(x) => Some((enabled, x.1)),
            None => None::<(bool, Seq<char>)>,
        },
{
    let n = seq![if enabled { '+' } else { '-' }] + name;
    lemma_name_trimmed(l);
    assert(n[0] == if enabled { '+' } else { '-' });
    assert(trim_start_is(n));
    assert(n.drop_first() =~= name);
    if name.len() > 0 {
        assert(n.last() == name.last());
    }
    assert(crate::text::trim_end(n) == n);
    assert(trim(n) == n);
}

/// A text that does not start with whitespace is its own `trim_start`.
pub open spec fn trim_start_is(s: Seq<char>) -> bool {
    crate::text::trim_start(s) == s
}

proof fn lemma_entries_toggled(ls: Seq<Seq<char>>, name: Seq<char>, enabled: bool, user: Seq<Seq<char>>)
    ensures
        mod_entries(toggled(ls, name, enabled), user) == mod_entries(ls, user).map_values(with_state(name, enabled)),
    decreases ls.len(),
{
    if ls.len() > 0 {
        lemma_entries_toggled(ls.drop_last(), name, enabled, user);
        let tl = toggled(ls, name, enabled);
        assert(tl.drop_last() =~= toggled(ls.drop_last(), name, enabled));
        let prev = mod_entries(ls.drop_last(), user);
        let l = ls.last();
        if mod_line_name(l) == Some(name) {
            lemma_toggled_line(l, name, enabled);
            assert(tl.last() == seq![if enabled { '+' } else { '-' }] + name);
            match listed_mod(l) {
                Some(x) => {
                    let entry = (x.1, x.0, user.contains(x.1), has_suffix(x.1, "_separator"@));
                    assert(prev.push(entry).map_values(with_state(name, enabled)) =~= prev.map_values(
                        with_state(name, enabled),
                    ).push(with_state(name, enabled)(entry)));
                },
                None => {},
            }
        } else {
            assert(tl.last() == l);
            match listed_mod(l) {
                Some(x) => {
                    let entry = (x.1, x.0, user.contains(x.1), has_suffix(x.1, "_separator"@));
                    assert(x.1 != name);
                    assert(prev.push(entry).map_values(with_state(name, enabled)) =~= prev.map_values(
                        with_state(name, enabled),
                    ).push(entry));
                },
                None => {},
            }
        }
    }
}

proof fn lemma_toggled_single(ls: Seq<Seq<char>>, name: Seq<char>, enabled: bool)
    requires
        single_lines(ls),
    ensures
        single_lines(toggled(ls, name, enabled)),
{
    let tl = toggled(ls, name, enabled);
    assert forall|i: int| 0 <= i < tl.len() implies !(#[trigger] tl[i]).contains('\n') by {
        let l = ls[i];
        assert(!l.contains('\n'));
        if mod_line_name(l) == Some(name) {
            lemma_trim_keeps_absent(l, '\n');
            let t = trim(l);
            assert(!t.drop_first().contains('\n')) by {
                if t.drop_first().contains('\n') {
                    let j = choose|j: int| 0 <= j < t.drop_first().len() && t.drop_first()[j] == '\n';
                    assert(t[j + 1] == '\n');
                }
            }
            lemma_trim_keeps_absent(t.drop_first(), '\n');
            let n = seq![if enabled { '+' } else { '-' }] + name;
            assert(!n.contains('\n')) by {
                if n.contains('\n') {
                    let j = choose|j: int| 0 <= j < n.len() && n[j] == '\n';
                    assert(j > 0);
                    assert(name[j - 1] == '\n');
                }
            }
        }
    }
}

/// Reading the list after enabling or disabling a mod shows the mod in the
/// new state and every other entry as it was.
pub proof fn law_list_after_set_enabled(content: Seq<char>, name: Seq<char>, enabled: bool, user: Seq<Seq<char>>)
    requires
        toggle_result(content, name, enabled) is Ok,
    ensures
        match toggle_result(content, name, enabled) {
            Ok(text) => mod_entries(lines(text), user) == mod_entries(lines(content), user).map_values(
                with_state(name, enabled),
            ),
            Err(_) => true,
        },
{
    let ls = lines(content);
    lemma_lines_single(content);
    lemma_toggled_single(ls, name, enabled);
    lemma_lines_render(toggled(ls, name, enabled));
    lemma_entries_read_back(toggled(ls, name, enabled), user);
    lemma_entries_toggled(ls, name, enabled, user);
}

/// A mod added once is found on the next addition, which changes nothing,
/// for a name without surrounding whitespace, line breaks or a leading sign.
pub proof fn law_append_once(content: Seq<char>, name: Seq<char>)
    requires
        trim(name) == name,
        !name.contains('\n'),
        !(name.len() > 0 && (name[0] == '+' || name[0] == '-')),
    ensures
        match appended(content, name) {
            Some(text) => appended(text, name) is None,
            None => true,
        },
{
    let ls = lines(content);
    if !lists_name(ls, name) {
        lemma_blank_tail_bound(ls);
        let k = ls.len() - blank_tail(ls);
        let line = seq!['+'] + name;
        let ins = ls.insert(k, line);
        lemma_lines_single(content);
        assert(!line.contains('\n')) by {
            if line.contains('\n') {
                let j = choose|j: int| 0 <= j < line.len() && line[j] == '\n';
                assert(name[j - 1] == '\n');
            }
        }
        assert(single_lines(ins)) by {
            assert forall|i: int| 0 <= i < ins.len() implies !(#[trigger] ins[i]).contains('\n') by {
                if i < k {
                    assert(ins[i] == ls[i]);
                } else if i > k {
                    assert(ins[i] == ls[i - 1]);
                }
            }
        }
        lemma_lines_render(ins);
        let rb = read_back(ins);
        lemma_trim_shape(name);
        assert(strip_cr(line) == line) by {
            if name.len() > 0 {
                assert(line.last() == name.last());
            }
        }
        assert(rb.len() > k && rb[k] == line) by {
            assert(ins[k] == line);
            if ins.len() >= 2 && ins.last().len() == 0 {
                assert(k < ins.len() - 1);
            }
        }
        assert(line.drop_first() =~= name);
        assert(strip_signs(name) == name);
        assert(strip_signs(line) == name);
        assert(trim(strip_signs(rb[k])) == name);
        assert(lists_name(rb, name));
    }
}

// ───────────────────────── line helpers ─────────────────────────

/// The sign and name of a mod line.
fn mod_line(line: &Vec<char>) -> (r: Option<(bool, Vec<char>)>)
    ensures
        match r {
            Some((plus, n)) => mod_line_name(line@) == Some(n@) && plus == (trim(line@)[0] == '+'),
            None => mod_line_name(line@) is None,
        },
{
    let t = trimmed(line);
    if t.len() > 0 && (t[0] == '+' || t[0] == '-') {
        let rest = slice_of(&t, 1, t.len());
        assert(rest@ =~= t@.drop_first());
        Some((t[0] == '+', trimmed(&rest)))
    } else {
        None
    }
}

/// Whether `line` is a mod line for `name`.
fn names_line(line: &Vec<char>, name: &str) -> (b: bool)
    ensures
        b == (mod_line_name(line@) == Some(name@)),
{
    match mod_line(line) {
        Some((_, m)) => eq_str(&m, name),
        None => false,
    }
}

/// A copy of `v`.
fn copy_of(v: &Vec<char>) -> (r: Vec<char>)
    ensures
        r@ == v@,
{
    let r = slice_of(v, 0, v.len());
    assert(r@ =~= v@);
    r
}

/// A `.zip` archive: a file whose name has the extension `zip` in any ASCII case.
pub open spec fn is_zip_file(is_file: bool, name: Seq<char>) -> bool {
    is_file && (crate::services::enb_manager::extension(name) matches Some(e) && eq_ignore_ascii_case(e, "zip"@))
}

pub struct ModsManager;

impl ModsManager {
    /// Whether a source is a `.zip` archive (`is_file`, file name `name`).
    pub fn is_zip(is_file: bool, name: &str) -> (b: bool)
        ensures
            b == is_zip_file(is_file, name@),
    {
        if !is_file {
            return false;
        }
        match crate::services::enb_manager::extension_of(&chars_of(name)) {
            Some(e) => eq_ignore_case_str(&e, "zip"),
            None => false,
        }
    }

    /// The mods of `modlist.txt` (`content`) in file order; `user_mods` are
    /// the names the user added through the launcher.
    pub fn list(content: &str, user_mods: &[String]) -> (r: Vec<ModEntry>)
        ensures
            entry_views(r@) == mod_entries(lines(content@), strs(user_mods@)),
    {
        let cs = chars_of(content);
        let ls = split_lines(&cs);
        let ghost lv = views(ls@);
        let ghost user = strs(user_mods@);
        let mut r: Vec<ModEntry> = Vec::new();
        let mut i: usize = 0;
        assert(lv.take(0) =~= Seq::<Seq<char>>::empty());
        assert(entry_views(r@) =~= Seq::<(Seq<char>, bool, bool, bool)>::empty());
        while i < ls.len()
            invariant
                i <= ls@.len(),
                lv == views(ls@),
                lv == lines(content@),
                user == strs(user_mods@),
                entry_views(r@) == mod_entries(lv.take(i as int), user),
            decreases ls@.len() - i,
        {
            assert(lv.take(i + 1).drop_last() =~= lv.take(i as int));
            assert(lv.take(i + 1).last() == ls@[i as int]@);
            match mod_line(&ls[i]) {
                Some((plus, name)) => {
                    if name.len() > 0 {
                        let is_user = listed(user_mods, &name);
                        let is_separator = ends_with_str(&name, "_separator");
                        let ghost before = entry_views(r@);
                        let ghost nv = name@;
                        r.push(ModEntry { name: string_of(&name), enabled: plus, is_user, is_separator });
                        assert(entry_views(r@) =~= before.push((nv, plus, user.contains(nv), has_suffix(nv, "_separator"@))));
                    }
                },
                None => {},
            }
            i += 1;
        }
        assert(lv.take(ls@.len() as int) =~= lv);
        r
    }

    /// Refuses to edit the list while Mod Organizer 2 runs: it rewrites
    /// `modlist.txt` when it exits, which would undo the edit.
    pub fn ensure_mo2_closed(mo2_running: bool) -> (r: Result<(), String>)
        ensures
            mo2_running <==> r is Err,
            r matches Err(e) ==> e@ == mo2_running_msg(),
    {
        if mo2_running {
            Err("Mod Organizer 2 is running. Close MO2 first — it rewrites the mod list when it exits, which would undo any changes made here.".to_string())
        } else {
            Ok(())
        }
    }

    /// Where the active profile's `modlist.txt` lies, or why it is unknown.
    pub fn modlist_path(paths: &GamePaths) -> (r: Result<String, String>)
        ensures
            result_view(r) == match (paths.mo2_root, paths.mo2_profile) {
                (None, _) => Err("Mod Organizer 2 not detected"@),
                (Some(_), None) => Err("No active MO2 profile"@),
                (Some(root), Some(profile)) => Ok(
                    join_path(join_path(join_path(root@, "profiles"@), profile@), "modlist.txt"@),
                ),
            },
    {
        match &paths.mo2_root {
            None => Err("Mod Organizer 2 not detected".to_string()),
            Some(root) => match &paths.mo2_profile {
                None => Err("No active MO2 profile".to_string()),
                Some(profile) => {
                    let a = string_of(&join_path_exec(root.as_str(), "profiles"));
                    let b = string_of(&join_path_exec(a.as_str(), profile.as_str()));
                    Ok(string_of(&join_path_exec(b.as_str(), "modlist.txt")))
                },
            },
        }
    }

    /// Enables or disables `name` by rewriting the sign of its lines; the
    /// new text of `modlist.txt`, or why not.
    pub fn set_enabled(content: &str, name: &str, enabled: bool) -> (r: Result<String, String>)
        ensures
            result_view(r) == toggle_result(content@, name@, enabled),
    {
        let cs = chars_of(content);
        let ls = split_lines(&cs);
        let ghost lv = views(ls@);
        let nv = chars_of(name);
        let mut out: Vec<Vec<char>> = Vec::new();
        let mut found = false;
        let mut i: usize = 0;
        assert(lv.take(0) =~= Seq::<Seq<char>>::empty());
        assert(views(out@) =~= toggled(lv.take(0), name@, enabled));
        while i < ls.len()
            invariant
                i <= ls@.len(),
                lv == views(ls@),
                lv == lines(content@),
                nv@ == name@,
                views(out@) == toggled(lv.take(i as int), name@, enabled),
                found <==> exists|j: int| 0 <= j < i && #[trigger] mod_line_name(lv[j]) == Some(name@),
            decreases ls@.len() - i,
        {
            let ghost before = views(out@);
            let hit = match mod_line(&ls[i]) {
                Some((_, n)) => eq_str(&n, name),
                None => false,
            };
            if hit {
                let mut l: Vec<char> = Vec::new();
                l.push(if enabled { '+' } else { '-' });
                push_all(&mut l, &nv);
                out.push(l);
                found = true;
            } else {
                out.push(copy_of(&ls[i]));
            }
            assert(toggled(lv.take(i + 1), name@, enabled) =~= toggled(lv.take(i as int), name@, enabled).push(
                if mod_line_name(lv[i as int]) == Some(name@) {
                    seq![if enabled { '+' } else { '-' }] + name@
                } else {
                    lv[i as int]
                },
            ));
            assert(views(out@) =~= toggled(lv.take(i + 1), name@, enabled));
            i += 1;
        }
        assert(lv.take(ls@.len() as int) =~= lv);
        if !found {
            let mut msg: Vec<char> = Vec::new();
            push_str(&mut msg, "Mod not found in modlist: ");
            push_all(&mut msg, &nv);
            return Err(string_of(&msg));
        }
        Ok(string_of(&render_lines(&out)))
    }

    /// Moves `name` one mod line towards the top of the file (`up`) or the
    /// bottom, past comments and `*` lines; `None` at the edge, where nothing
    /// changes. The bottom of the file has the highest priority.
    pub fn move_mod(content: &str, name: &str, up: bool) -> (r: Result<Option<String>, String>)
        ensures
            moved_view(r) == move_result(content@, name@, up),
    {
        let cs = chars_of(content);
        let ls = split_lines(&cs);
        let ghost lv = views(ls@);
        let n = ls.len();
        let mut t: usize = 0;
        while t < n && !names_line(&ls[t], name)
            invariant
                t <= n == ls@.len(),
                lv == views(ls@),
                first_named_from(lv, name@, 0) == first_named_from(lv, name@, t as int),
            decreases n - t,
        {
            t += 1;
        }
        if t == n {
            let mut msg: Vec<char> = Vec::new();
            push_str(&mut msg, "Mod not found in modlist: ");
            push_str(&mut msg, name);
            return Err(string_of(&msg));
        }
        assert(first_named_from(lv, name@, 0) == Some(t as int));
        let neighbor: Option<usize> = if up {
            let mut j: usize = t;
            while j > 0 && mod_line(&ls[j - 1]).is_none()
                invariant
                    j <= t < n == ls@.len(),
                    lv == views(ls@),
                    prev_mod_line(lv, t as int) == prev_mod_line(lv, j as int),
                decreases j,
            {
                j -= 1;
            }
            if j == 0 {
                None
            } else {
                Some(j - 1)
            }
        } else {
            let mut j: usize = t + 1;
            while j < n && mod_line(&ls[j]).is_none()
                invariant
                    t < j <= n == ls@.len(),
                    lv == views(ls@),
                    next_mod_line(lv, t + 1) == next_mod_line(lv, j as int),
                decreases n - j,
            {
                j += 1;
            }
            if j == n {
                None
            } else {
                Some(j)
            }
        };
        match neighbor {
            None => Ok(None),
            Some(k) => {
                let ghost sw = swapped(lv, t as int, k as int);
                let mut out: Vec<Vec<char>> = Vec::new();
                let mut i: usize = 0;
                while i < n
                    invariant
                        i <= n == ls@.len(),
                        t < n,
                        k < n,
                        lv == views(ls@),
                        sw == swapped(lv, t as int, k as int),
                        views(out@) == sw.take(i as int),
                    decreases n - i,
                {
                    let src = if i == t {
                        k
                    } else if i == k {
                        t
                    } else {
                        i
                    };
                    let ghost before = views(out@);
                    out.push(copy_of(&ls[src]));
                    assert(sw[i as int] == lv[src as int]);
                    assert(views(out@) =~= before.push(lv[src as int]));
                    assert(views(out@) =~= sw.take(i + 1));
                    i += 1;
                }
                assert(sw.take(n as int) =~= sw);
                Ok(Some(string_of(&render_lines(&out))))
            },
        }
    }

    /// The name a user mod is installed under: `[NoDelete] ` before the name
    /// without any tag it already had.
    pub fn install_name(name: &str) -> (r: String)
        ensures
            r@ == install_name_of(name@),
    {
        let tag: Vec<char> = chars_of("[NoDelete]");
        proof {
            reveal_strlit("[NoDelete]");
            assert(tag@ =~= no_delete_tag());
        }
        let mut rest = chars_of(name);
        while starts_with(&rest, &tag)
            invariant
                tag@ == no_delete_tag(),
                strip_no_delete(name@) == strip_no_delete(rest@),
            decreases rest@.len(),
        {
            rest = slice_of(&rest, 10, rest.len());
        }
        let mut out = tag;
        out.push(' ');
        push_all(&mut out, &trimmed(&rest));
        string_of(&out)
    }

    /// `modlist.txt` with `+name` added before its trailing blank lines, at
    /// the highest priority; `None` where some line already names the mod.
    pub fn append_to_modlist(content: &str, name: &str) -> (r: Option<String>)
        ensures
            match r {
                Some(s) => appended(content@, name@) == Some(s@),
                None => appended(content@, name@) is None,
            },
    {
        let cs = chars_of(content);
        let mut ls = split_lines(&cs);
        let ghost lv = views(ls@);
        let n = ls.len();
        let mut i: usize = 0;
        while i < n
            invariant
                i <= n == ls@.len(),
                lv == views(ls@),
                lv == lines(content@),
                forall|j: int| 0 <= j < i ==> #[trigger] trim(strip_signs(lv[j])) != name@,
            decreases n - i,
        {
            let l = &ls[i];
            let mut s: usize = 0;
            assert(l@.skip(0) =~= l@);
            while s < l.len() && (l[s] == '+' || l[s] == '-')
                invariant
                    s <= l@.len(),
                    strip_signs(l@) == strip_signs(l@.skip(s as int)),
                decreases l@.len() - s,
            {
                assert(l@.skip(s as int).drop_first() =~= l@.skip(s + 1));
                s += 1;
            }
            let bare = trimmed(&slice_of(l, s, l.len()));
            assert(l@.subrange(s as int, l@.len() as int) =~= l@.skip(s as int));
            proof {
                if s < l.len() {
                    assert(l@.skip(s as int)[0] == l@[s as int]);
                }
                assert(strip_signs(l@.skip(s as int)) == l@.skip(s as int));
            }
            if eq_str(&bare, name) {
                assert(trim(strip_signs(lv[i as int])) == name@);
                assert(lists_name(lv, name@));
                return None;
            }
            i += 1;
        }
        let mut k: usize = n;
        proof {
            assert(lv.take(n as int) =~= lv);
        }
        while k > 0 && trimmed(&ls[k - 1]).len() == 0
            invariant
                k <= n == ls@.len(),
                lv == views(ls@),
                lv == lines(content@),
                !lists_name(lv, name@),
                blank_tail(lv) == blank_tail(lv.take(k as int)) + (n - k),
            decreases k,
        {
            assert(lv.take(k as int).drop_last() =~= lv.take(k - 1));
            k -= 1;
        }
        proof {
            if k > 0 {
                assert(lv.take(k as int).last() == lv[k - 1]);
            }
            assert(k == n - blank_tail(lv));
        }
        let mut line: Vec<char> = Vec::new();
        line.push('+');
        push_str(&mut line, name);
        let ghost lview = line@;
        ls.insert(k, line);
        assert(views(ls@) =~= lv.insert(k as int, seq!['+'] + name@));
        Some(string_of(&render_lines(&ls)))
    }

    /// The user-mod list with `name` added, and whether it was not there yet.
    pub fn with_user_mod(user: Vec<String>, name: &str) -> (r: (Vec<String>, bool))
        ensures
            r.1 == !strs(user@).contains(name@),
            strs(r.0@) == if r.1 {
                strs(user@).push(name@)
            } else {
                strs(user@)
            },
    {
        let nv = chars_of(name);
        if listed(&user, &nv) {
            (user, false)
        } else {
            let mut user = user;
            let ghost before = strs(user@);
            user.push(name.to_string());
            assert(strs(user@) =~= before.push(name@));
            (user, true)
        }
    }

    /// Where the mod of an extracted archive lies and its name: the only
    /// top-level entry when that is a folder, named after it; otherwise the
    /// extraction folder itself, named after the archive (or `Added Mod`).
    /// `top_level` holds each top-level entry's name and whether it is a folder.
    pub fn archive_mod_root(top_level: &Vec<(String, bool)>, zip_stem: Option<&str>) -> (r: (bool, String))
        ensures
            r.0 == (top_level@.len() == 1 && top_level@[0].1),
            r.0 ==> r.1@ == top_level@[0].0@,
            !r.0 ==> r.1@ == match zip_stem {
                Some(s) => s@,
                None => "Added Mod"@,
            },
    {
        if top_level.len() == 1 && top_level[0].1 {
            (true, string_of(&chars_of(top_level[0].0.as_str())))
        } else {
            match zip_stem {
                Some(s) => (false, s.to_string()),
                None => (false, "Added Mod".to_string()),
            }
        }
    }
}

} // verus!
