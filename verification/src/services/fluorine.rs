//! Finding and starting Fluorine Manager, the Linux port of Mod Organizer 2.
//! The caller probes the file system and starts the process; the order of the
//! places searched and the command line are decided here.
use vstd::prelude::*;
use crate::services::game_launcher::opt_view;
use crate::services::load_order_validator::{join_path, join_path_exec, listed};
use crate::text::{push_str, string_of, strs, chars_of};

verus! {

/// The name of the Fluorine Manager binary.
pub const FLUORINE_BIN_NAME: &'static str = "fluorine-manager";

/// A path or, for a folder, the binary inside it or inside one of its
/// subfolders (`child_dirs`, in listing order); `files` lists the paths that
/// are files.
pub open spec fn resolved_install(path: Seq<char>, exists: bool, files: Seq<Seq<char>>, child_dirs: Seq<Seq<char>>) -> Option<
    Seq<char>,
> {
    if !exists {
        None
    } else if files.contains(path) {
        Some(path)
    } else if files.contains(join_path(path, "fluorine-manager"@)) {
        Some(join_path(path, "fluorine-manager"@))
    } else {
        first_nested(path, files, child_dirs)
    }
}

/// The first subfolder of `path` holding the binary.
pub open spec fn first_nested(path: Seq<char>, files: Seq<Seq<char>>, child_dirs: Seq<Seq<char>>) -> Option<Seq<char>>
    decreases child_dirs.len(),
{
    if child_dirs.len() == 0 {
        None
    } else {
        let nested = join_path(join_path(path, child_dirs[0]), "fluorine-manager"@);
        if files.contains(nested) {
            Some(nested)
        } else {
            first_nested(path, files, child_dirs.drop_first())
        }
    }
}

/// The first folder of `PATH` holding the binary.
pub open spec fn on_path(dirs: Seq<Seq<char>>, files: Seq<Seq<char>>) -> Option<Seq<char>>
    decreases dirs.len(),
{
    if dirs.len() == 0 {
        None
    } else if files.contains(join_path(dirs[0], "fluorine-manager"@)) {
        Some(join_path(dirs[0], "fluorine-manager"@))
    } else {
        on_path(dirs.drop_first(), files)
    }
}

/// The first of the results that is found.
pub open spec fn first_found(hits: Seq<Option<Seq<char>>>) -> Option<Seq<char>>
    decreases hits.len(),
{
    if hits.len() == 0 {
        None
    } else if hits[0] is Some {
        hits[0]
    } else {
        first_found(hits.drop_first())
    }
}

pub open spec fn not_found_msg() -> Seq<char> {
    "fluorine-manager not found. Run the Linux bootstrap to install it, or set an override path."@
}

pub struct Fluorine;

impl Fluorine {
    /// The binary an install location holds: the path itself when it is a
    /// file, else the binary in it, else the binary in one of its subfolders.
    pub fn resolve_install(path: &str, exists: bool, files: &[String], child_dirs: &Vec<String>) -> (r: Option<String>)
        ensures
            opt_view(r) == resolved_install(path@, exists, strs(files@), strs(child_dirs@)),
    {
        if !exists {
            return None;
        }
        let pv = chars_of(path);
        if listed(files, &pv) {
            return Some(path.to_string());
        }
        let direct = join_path_exec(path, FLUORINE_BIN_NAME);
        if listed(files, &direct) {
            return Some(string_of(&direct));
        }
        let ghost cd = strs(child_dirs@);
        let mut i: usize = 0;
        assert(cd.skip(0) =~= cd);
        while i < child_dirs.len()
            invariant
                i <= child_dirs@.len(),
                cd == strs(child_dirs@),
                resolved_install(path@, exists, strs(files@), cd) == first_nested(path@, strs(files@), cd.skip(i as int)),
            decreases child_dirs@.len() - i,
        {
            assert(cd.skip(i as int)[0] == child_dirs@[i as int]@);
            assert(cd.skip(i as int).drop_first() =~= cd.skip(i + 1));
            let child = string_of(&join_path_exec(path, child_dirs[i].as_str()));
            let nested = join_path_exec(child.as_str(), FLUORINE_BIN_NAME);
            if listed(files, &nested) {
                return Some(string_of(&nested));
            }
            i += 1;
        }
        None
    }

    /// The binary in the first folder of `PATH` (`dirs`) that holds it.
    pub fn which(dirs: &Vec<String>, files: &[String]) -> (r: Option<String>)
        ensures
            opt_view(r) == on_path(strs(dirs@), strs(files@)),
    {
        let ghost dv = strs(dirs@);
        let mut i: usize = 0;
        assert(dv.skip(0) =~= dv);
        while i < dirs.len()
            invariant
                i <= dirs@.len(),
                dv == strs(dirs@),
                on_path(dv, strs(files@)) == on_path(dv.skip(i as int), strs(files@)),
            decreases dirs@.len() - i,
        {
            assert(dv.skip(i as int)[0] == dirs@[i as int]@);
            assert(dv.skip(i as int).drop_first() =~= dv.skip(i + 1));
            let full = join_path_exec(dirs[i].as_str(), FLUORINE_BIN_NAME);
            if listed(files, &full) {
                return Some(string_of(&full));
            }
            i += 1;
        }
        None
    }

    /// The install locations searched in the home folder, in order.
    pub fn home_locations(home: &str) -> (r: Vec<String>)
        ensures
            strs(r@) == seq![
                join_path(join_path(join_path(home@, ".local"@), "share"@), "fluorine-manager"@),
                join_path(join_path(home@, "Applications"@), "fluorine-manager"@),
            ],
    {
        let local = string_of(&join_path_exec(home, ".local"));
        let share = string_of(&join_path_exec(local.as_str(), "share"));
        let apps = string_of(&join_path_exec(home, "Applications"));
        let mut r: Vec<String> = Vec::new();
        r.push(string_of(&join_path_exec(share.as_str(), FLUORINE_BIN_NAME)));
        r.push(string_of(&join_path_exec(apps.as_str(), FLUORINE_BIN_NAME)));
        assert(strs(r@) =~= seq![
            join_path(join_path(join_path(home@, ".local"@), "share"@), "fluorine-manager"@),
            join_path(join_path(home@, "Applications"@), "fluorine-manager"@),
        ]);
        r
    }

    /// The binary to use: the one of the override location, else the one on
    /// `PATH`, else the first found in the home locations.
    pub fn find_binary(override_hit: Option<String>, path_hit: Option<String>, home_hits: Vec<Option<String>>) -> (r:
        Option<String>)
        ensures
            opt_view(r) == first_found(
                seq![opt_view(override_hit), opt_view(path_hit)] + home_hits@.map_values(|h: Option<String>| opt_view(h)),
            ),
    {
        let ghost hits = seq![opt_view(override_hit), opt_view(path_hit)] + home_hits@.map_values(
            |h: Option<String>| opt_view(h),
        );
        assert(hits.drop_first().drop_first() =~= home_hits@.map_values(|h: Option<String>| opt_view(h)));
        assert(hits[0] == opt_view(override_hit));
        assert(hits.drop_first()[0] == opt_view(path_hit));
        if override_hit.is_some() {
            return override_hit;
        }
        assert(first_found(hits) == first_found(hits.drop_first()));
        if path_hit.is_some() {
            return path_hit;
        }
        assert(first_found(hits.drop_first()) == first_found(hits.drop_first().drop_first()));
        let ghost rest = home_hits@.map_values(|h: Option<String>| opt_view(h));
        let mut hs = home_hits;
        let mut i: usize = 0;
        let n = hs.len();
        assert(rest.skip(0) =~= rest);
        while i < n
            invariant
                i <= n == hs@.len(),
                rest == hs@.map_values(|h: Option<String>| opt_view(h)),
                hits == seq![opt_view(override_hit), opt_view(path_hit)] + home_hits@.map_values(
                    |h: Option<String>| opt_view(h),
                ),
                first_found(hits) == first_found(rest.skip(i as int)),
            decreases n - i,
        {
            assert(rest.skip(i as int)[0] == opt_view(hs@[i as int]));
            assert(rest.skip(i as int).drop_first() =~= rest.skip(i + 1));
            if hs[i].is_some() {
                assert(first_found(rest.skip(i as int)) == rest.skip(i as int)[0]);
                let h = hs[i].clone();
                assert(opt_view(h) == opt_view(hs@[i as int]));
                return h;
            }
            i += 1;
        }
        None
    }

    /// The command that opens Fluorine on an instance folder: the binary and
    /// its arguments, or why it cannot start.
    pub fn open_instance(binary: Option<String>, install_dir: &str) -> (r: Result<(String, Vec<String>), String>)
        ensures
            match r {
                Ok((program, args)) => binary matches Some(b) && program@ == b@ && strs(args@) == seq![
                    "--instance"@,
                    install_dir@,
                ],
                Err(e) => binary is None && e@ == not_found_msg(),
            },
    {
        match binary {
            None => Err(
                "fluorine-manager not found. Run the Linux bootstrap to install it, or set an override path.".to_string(),
            ),
            Some(b) => {
                let mut args: Vec<String> = Vec::new();
                args.push("--instance".to_string());
                args.push(install_dir.to_string());
                assert(strs(args@) =~= seq!["--instance"@, install_dir@]);
                Ok((b, args))
            },
        }
    }
}

} // verus!
