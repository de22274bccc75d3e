pub mod ini_manager;
pub mod ini_format;
pub mod mod_detector;
pub mod update_manager;
pub mod fomod_service;
pub mod changelog;
pub mod load_order_validator;
pub mod youtube;
pub mod system_info;
pub mod system_tasks;
pub mod onboarding;
pub mod mcm_manager;
pub mod preset_manager;
pub mod mo2_integration;
pub mod clf3;
pub mod enb_manager;
pub mod fomod_installer;
pub mod profile_manager;
pub mod path_discovery;
pub mod path_service;
pub mod platform;
pub mod mods_manager;
pub mod mod_manager;
pub mod game_launcher;
pub mod fluorine;
pub mod linux_bootstrap;
pub mod anomaly_update;
pub mod system_monitor;
