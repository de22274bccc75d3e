//! Data shared between the launcher's services.
use vstd::prelude::*;
use crate::string_map::StringMap;

verus! {

/// A mod as listed in the launcher.
#[derive(Debug, Clone)]
pub struct Mod {
    pub id: String,
    pub name: String,
    pub version: String,
    pub author: String,
    pub description: String,
    pub enabled: bool,
    pub load_order: i32,
    pub dependencies: Vec<String>,
    pub conflicts: Vec<String>,
    pub last_updated: String,
}

/// A Mod Organizer 2 profile.
pub struct GameProfile {
    pub name: String,
    pub is_active: bool,
    pub enabled_mods: Vec<String>,
    pub ini_overrides: StringMap<String>,
    pub mcm_preset: Option<String>,
    pub created_date: String,
    pub last_modified: String,
}

/// Parsed INI settings: section name to (key to value).
pub struct IniConfig {
    pub sections: StringMap<StringMap<String>>,
}

/// An available update of one mod.
#[derive(Debug, Clone)]
pub struct ModUpdate {
    pub mod_id: String,
    pub current_version: String,
    pub available_version: String,
    pub changelog: String,
}

/// A plugin load order with the metadata of each plugin.
pub struct LoadOrder {
    pub order: Vec<String>,
    pub mod_info: StringMap<ModInfo>,
}

/// Metadata of one plugin.
#[derive(Debug, Clone)]
pub struct ModInfo {
    pub name: String,
    pub version: String,
    pub has_esm: bool,
    pub master_files: Vec<String>,
}

/// The view of a `ModInfo`: its strings as characters.
pub struct ModInfoView {
    pub name: Seq<char>,
    pub version: Seq<char>,
    pub has_esm: bool,
    pub master_files: Seq<Seq<char>>,
}

impl View for ModInfo {
    type V = ModInfoView;

    open spec fn view(&self) -> ModInfoView {
        ModInfoView {
            name: self.name@,
            version: self.version@,
            has_esm: self.has_esm,
            master_files: self.master_files@.map_values(|m: String| m@),
        }
    }
}

/// An ENB or ReShade preset.
#[derive(Debug, Clone)]
pub struct Preset {
    pub name: String,
    pub preset_type: String,
    pub preview_image: Option<Vec<u8>>,
    pub installed: bool,
}

/// Where the game and its configuration files live.
#[derive(Debug, Clone)]
pub struct GamePaths {
    pub game_root: String,
    pub mods_folder: String,
    pub ini_file: String,
    pub ini_prefs_file: String,
    pub plugins_file: String,
    pub load_order_file: String,
}

/// Outcome of a user-facing operation.
#[derive(Debug, Clone)]
pub struct OperationResult {
    pub success: bool,
    pub message: String,
}

} // verus!
