//! The plain mod listing of a mods folder: one mod per folder, sorted by
//! name. The caller lists the folder and supplies the time stamp.
use vstd::prelude::*;
use crate::models::Mod;
use crate::sort::{stable_order, stable_order_of};
use crate::text::{chars_of, has_prefix, push_all, push_str, starts_with_str, string_of, views};

verus! {

/// The names of the folders among `entries` (name, is a folder) that `keep`
/// accepts, in listing order.
pub open spec fn dir_names(entries: Seq<(String, bool)>, keep: spec_fn(Seq<char>) -> bool) -> Seq<Seq<char>>
    decreases entries.len(),
{
    if entries.len() == 0 {
        seq![]
    } else {
        let prev = dir_names(entries.drop_last(), keep);
        if entries.last().1 && keep(entries.last().0@) {
            prev.push(entries.last().0@)
        } else {
            prev
        }
    }
}

/// `n` unset flags.
pub open spec fn no_flags(n: nat) -> Seq<bool> {
    Seq::new(n, |k: int| false)
}

/// A folder that is not hidden (`.`) or private (`__`).
pub open spec fn plain_folder(name: Seq<char>) -> bool {
    !has_prefix(name, "__"@) && !has_prefix(name, "."@)
}

/// `m` is the listing of folder `folder`, found at position `order`.
pub open spec fn plain_record(m: Mod, folder: Seq<char>, order: int, stamp: Seq<char>) -> bool {
    &&& m.id@ == folder
    &&& m.name@ == folder
    &&& m.version@ == "1.0"@
    &&& m.author@ == "Unknown"@
    &&& m.description@ == "Mod: "@ + folder
    &&& m.enabled
    &&& m.load_order == order
    &&& m.dependencies@.len() == 0
    &&& m.conflicts@.len() == 0
    &&& m.last_updated@ == stamp
}

/// The folders of `entries` that `keep` accepts, with their names as characters.
pub(crate) fn collect_dirs(entries: &Vec<(String, bool)>, keep_plain: bool) -> (r: Vec<Vec<char>>)
    ensures
        keep_plain ==> views(r@) == dir_names(entries@, |n: Seq<char>| plain_folder(n)),
        !keep_plain ==> views(r@) == dir_names(
            entries@,
            |n: Seq<char>| !crate::services::mod_detector::special_folder(crate::text::lowercase(n)),
        ),
{
    let mut r: Vec<Vec<char>> = Vec::new();
    let mut i: usize = 0;
    assert(entries@.take(0) =~= Seq::<(String, bool)>::empty());
    while i < entries.len()
        invariant
            i <= entries@.len(),
            keep_plain ==> views(r@) == dir_names(entries@.take(i as int), |n: Seq<char>| plain_folder(n)),
            !keep_plain ==> views(r@) == dir_names(
                entries@.take(i as int),
                |n: Seq<char>| !crate::services::mod_detector::special_folder(crate::text::lowercase(n)),
            ),
        decreases entries@.len() - i,
    {
        assert(entries@.take(i + 1).drop_last() =~= entries@.take(i as int));
        assert(entries@.take(i + 1).last() == entries@[i as int]);
        let name = entries[i].0.as_str();
        let keep = if keep_plain {
            !starts_with_str(&chars_of(name), "__") && !starts_with_str(&chars_of(name), ".")
        } else {
            !crate::services::mod_detector::ModDetector::is_special_folder(name)
        };
        if entries[i].1 && keep {
            let ghost before = views(r@);
            r.push(chars_of(name));
            assert(views(r@) =~= before.push(entries@[i as int].0@));
        }
        i += 1;
    }
    assert(entries@.take(entries@.len() as int) =~= entries@);
    r
}

pub struct ModManager;

impl ModManager {
    /// The mods of a mods folder, from its listing `entries` (name, is a
    /// folder): one enabled mod per folder not starting with `__` or `.`,
    /// numbered in listing order, sorted by name (stable); `stamp` is the
    /// listing time.
    pub fn list_mods(entries: &Vec<(String, bool)>, stamp: &str) -> (r: Vec<Mod>)
        requires
            entries@.len() <= i32::MAX,
        ensures
            ({
                let folders = dir_names(entries@, |n: Seq<char>| plain_folder(n));
                &&& r@.len() == folders.len()
                &&& exists|p: Seq<usize>|
                    #[trigger] stable_order_of(no_flags(folders.len()), folders, p) && forall|j: int|
                        0 <= j < r@.len() ==> plain_record(#[trigger] r@[j], folders[p[j] as int], p[j] as int, stamp@)
            }),
    {
        let folders = collect_dirs(entries, true);
        let ghost fv = views(folders@);
        let n = folders.len();
        proof {
            lemma_dir_names_len(entries@, |n: Seq<char>| plain_folder(n));
        }
        let mut first: Vec<bool> = Vec::new();
        let mut k: usize = 0;
        while k < n
            invariant
                k <= n == folders@.len(),
                first@ == Seq::new(k as nat, |q: int| false),
            decreases n - k,
        {
            first.push(false);
            k += 1;
            assert(first@ =~= Seq::new(k as nat, |q: int| false));
        }
        let p = stable_order(&first, &folders);
        let mut r: Vec<Mod> = Vec::new();
        let mut j: usize = 0;
        while j < n
            invariant
                j <= n == folders@.len() == p@.len(),
                n <= i32::MAX,
                fv == views(folders@),
                forall|t: int| 0 <= t < p@.len() ==> p@[t] < n,
                r@.len() == j,
                forall|t: int| 0 <= t < j ==> plain_record(#[trigger] r@[t], fv[p@[t] as int], p@[t] as int, stamp@),
            decreases n - j,
        {
            let f = &folders[p[j]];
            let mut desc: Vec<char> = Vec::new();
            push_str(&mut desc, "Mod: ");
            push_all(&mut desc, f);
            r.push(
                Mod {
                    id: string_of(f),
                    name: string_of(f),
                    version: "1.0".to_string(),
                    author: "Unknown".to_string(),
                    description: string_of(&desc),
                    enabled: true,
                    load_order: p[j] as i32,
                    dependencies: Vec::new(),
                    conflicts: Vec::new(),
                    last_updated: stamp.to_string(),
                },
            );
            j += 1;
        }
        assert(first@ =~= Seq::new(fv.len(), |q: int| false));
        assert(stable_order_of(no_flags(fv.len()), fv, p@));
        r
    }

    /// Toggling is accepted without effect.
    pub fn toggle_mod(mod_id: &str, enabled: bool) -> (r: bool)
        ensures
            r,
    {
        true
    }

    /// No load order file is read.
    pub fn get_load_order_file(game_paths: &str) -> (r: Vec<String>)
        ensures
            r@.len() == 0,
    {
        Vec::new()
    }

    /// Dependencies are not checked: no issues.
    pub fn validate_dependencies(mod_id: &str, all_mods: &[Mod]) -> (r: (bool, Vec<String>))
        ensures
            r.0,
            r.1@.len() == 0,
    {
        let issues: Vec<String> = Vec::new();
        (issues.len() == 0, issues)
    }
}

pub proof fn lemma_dir_names_len(entries: Seq<(String, bool)>, keep: spec_fn(Seq<char>) -> bool)
    ensures
        dir_names(entries, keep).len() <= entries.len(),
    decreases entries.len(),
{
    if entries.len() > 0 {
        lemma_dir_names_len(entries.drop_last(), keep);
    }
}

} // verus!
