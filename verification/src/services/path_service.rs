//! Default locations of the game and its files (the Steam Proton layout),
//! given the user's home folder and which candidate paths exist.
use vstd::prelude::*;
use crate::models::GamePaths;
use crate::services::load_order_validator::{join_path, join_path_exec};
use crate::text::{chars_of, string_of, strs};

verus! {

pub open spec fn steam_doc_path() -> Seq<char> {
    ".steam/steamapps/compatdata/287860/pfx/drive_c/Users/steamuser/My Documents/My Games/Fallout4"@
}

pub open spec fn flatpak_doc_path() -> Seq<char> {
    ".var/app/com.github.Proton-plus-gpl/data/Steam/steamapps/compatdata/287860/pfx/drive_c/Users/steamuser/My Documents/My Games/Fallout4"@
}

/// `path` is one of the paths known to exist.
pub open spec fn listed(existing: Seq<Seq<char>>, path: Seq<char>) -> bool {
    existing.contains(path)
}

/// A path field is set and exists.
pub open spec fn valid_path(existing: Seq<Seq<char>>, path: Seq<char>) -> bool {
    path.len() > 0 && listed(existing, path)
}

pub struct PathService;

impl PathService {
    /// The game's paths under `home`: the first Proton documents folder that
    /// exists is the game root; `None` without a home or such a folder.
    pub fn discover_game_paths(home: Option<&str>, existing: &[String]) -> (r: Option<GamePaths>)
        ensures
            match home {
                None => r is None,
                Some(h) => {
                    let a = join_path(h@, steam_doc_path());
                    let b = join_path(h@, flatpak_doc_path());
                    if !listed(strs(existing@), a) && !listed(strs(existing@), b) {
                        r is None
                    } else {
                        r matches Some(p) && p.game_root@ == (if listed(strs(existing@), a) { a } else { b })
                            && p.mods_folder@ == join_path(h@, "ModOrganizer2/mods"@) && p.ini_file@ == join_path(
                            h@,
                            ".config/Fallout4/Fallout4.ini"@,
                        ) && p.ini_prefs_file@ == join_path(h@, ".config/Fallout4/Fallout4Prefs.ini"@)
                            && p.plugins_file@ == join_path(h@, ".local/share/Fallout4/plugins.txt"@)
                            && p.load_order_file@ == join_path(h@, ".local/share/Fallout4/loadorder.txt"@)
                    }
                },
            },
    {
        let h = match home {
            Some(h) => h,
            None => return None,
        };
        let a = string_of(
            &join_path_exec(
                h,
                ".steam/steamapps/compatdata/287860/pfx/drive_c/Users/steamuser/My Documents/My Games/Fallout4",
            ),
        );
        let b = string_of(
            &join_path_exec(
                h,
                ".var/app/com.github.Proton-plus-gpl/data/Steam/steamapps/compatdata/287860/pfx/drive_c/Users/steamuser/My Documents/My Games/Fallout4",
            ),
        );
        let game_root = if Self::exists_in(existing, &a) {
            a
        } else if Self::exists_in(existing, &b) {
            b
        } else {
            return None;
        };
        Some(GamePaths {
            game_root,
            mods_folder: string_of(&join_path_exec(h, "ModOrganizer2/mods")),
            ini_file: string_of(&join_path_exec(h, ".config/Fallout4/Fallout4.ini")),
            ini_prefs_file: string_of(&join_path_exec(h, ".config/Fallout4/Fallout4Prefs.ini")),
            plugins_file: string_of(&join_path_exec(h, ".local/share/Fallout4/plugins.txt")),
            load_order_file: string_of(&join_path_exec(h, ".local/share/Fallout4/loadorder.txt")),
        })
    }

    fn exists_in(existing: &[String], p: &String) -> (b: bool)
        ensures
            b == listed(strs(existing@), p@),
    {
        let mut i: usize = 0;
        while i < existing.len()
            invariant
                i <= existing@.len(),
                forall|k: int| 0 <= k < i ==> strs(existing@)[k] != p@,
            decreases existing@.len() - i,
        {
            if existing[i] == *p {
                assert(strs(existing@)[i as int] == p@);
                return true;
            }
            i += 1;
        }
        false
    }

    /// The game folder, the mods folder and both INI files are set and exist.
    pub fn validate_paths(paths: &GamePaths, existing: &[String]) -> (b: bool)
        ensures
            b == (valid_path(strs(existing@), paths.game_root@) && valid_path(strs(existing@), paths.mods_folder@)
                && valid_path(strs(existing@), paths.ini_file@) && valid_path(
                strs(existing@),
                paths.ini_prefs_file@,
            )),
    {
        let g = !paths.game_root.as_str().is_empty() && Self::exists_in(existing, &paths.game_root);
        let m = !paths.mods_folder.as_str().is_empty() && Self::exists_in(existing, &paths.mods_folder);
        let i = !paths.ini_file.as_str().is_empty() && Self::exists_in(existing, &paths.ini_file);
        let p = !paths.ini_prefs_file.as_str().is_empty() && Self::exists_in(existing, &paths.ini_prefs_file);
        g && m && i && p
    }
}

} // verus!
