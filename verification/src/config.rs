//! Settings of the engine that the library itself reads: bandwidth, storage,
//! VPN and general settings, with their defaults.
use vstd::prelude::*;
use crate::text::str_to_string;

verus! {

/// Bandwidth limits, in bytes per second (0 for no limit), and task counts.
#[derive(Debug, Clone)]
pub struct BandwidthConfig {
    pub global_download_limit: u64,
    pub global_upload_limit: u64,
    pub per_task_download_limit: u64,
    pub per_task_upload_limit: u64,
    pub max_concurrent_downloads: usize,
    pub max_active_tasks: usize,
}

impl Default for BandwidthConfig {
    /// No limit on any rate or count.
    fn default() -> (c: Self)
        ensures
            c.global_download_limit == 0,
            c.global_upload_limit == 0,
            c.per_task_download_limit == 0,
            c.per_task_upload_limit == 0,
            c.max_concurrent_downloads == 0,
            c.max_active_tasks == 0,
    {
        BandwidthConfig {
            global_download_limit: 0,
            global_upload_limit: 0,
            per_task_download_limit: 0,
            per_task_upload_limit: 0,
            max_concurrent_downloads: 0,
            max_active_tasks: 0,
        }
    }
}

/// Where and how downloads are stored.
#[derive(Debug, Clone)]
pub struct StorageConfig {
    pub download_dir: String,
    pub cache_size_mb: u32,
    pub preallocate: bool,
    /// One of "none", "prealloc", "falloc".
    pub allocation_mode: String,
    pub save_session_interval_secs: u64,
    pub read_ahead_kb: u32,
    pub write_buffer_kb: u32,
}

impl Default for StorageConfig {
    fn default() -> (c: Self)
        ensures
            c.download_dir@ == "."@,
            c.cache_size_mb == 16,
            c.preallocate,
            c.allocation_mode@ == "falloc"@,
            c.save_session_interval_secs == 10,
            c.read_ahead_kb == 128,
            c.write_buffer_kb == 4096,
    {
        StorageConfig {
            download_dir: str_to_string("."),
            cache_size_mb: 16,
            preallocate: true,
            allocation_mode: str_to_string("falloc"),
            save_session_interval_secs: 10,
            read_ahead_kb: 128,
            write_buffer_kb: 4096,
        }
    }
}

/// The VPN the engine may bring up, and how it watches it.
#[derive(Debug, Clone)]
pub struct VpnConfig {
    /// "openvpn" or "wireguard".
    pub vpn_type: Option<String>,
    pub profile_path: Option<String>,
    pub auto_connect: bool,
    pub check_interval_secs: u64,
    pub force_tunnel: bool,
}

impl Default for VpnConfig {
    fn default() -> (c: Self)
        ensures
            c.vpn_type is None,
            c.profile_path is None,
            !c.auto_connect,
            c.check_interval_secs == 5,
            c.force_tunnel,
    {
        VpnConfig {
            vpn_type: None,
            profile_path: None,
            auto_connect: false,
            check_interval_secs: 5,
            force_tunnel: true,
        }
    }
}

/// Colours of the user interfaces, as `#RRGGBB` strings.
#[derive(Debug, Clone)]
pub struct ThemeConfig {
    pub primary: String,
    pub accent: String,
    pub highlight: String,
    pub background: String,
    pub foreground: String,
    pub success: String,
    pub error: String,
    pub warning: String,
}

impl ThemeConfig {
    /// Blue, cyan and yellow on black.
    pub fn galactic() -> (t: Self)
        ensures
            t.primary@ == "#0000FF"@,
            t.accent@ == "#00FFFF"@,
            t.highlight@ == "#FFFF00"@,
            t.background@ == "#000000"@,
            t.foreground@ == "#FFFFFF"@,
            t.success@ == "#00FF00"@,
            t.error@ == "#FF0000"@,
            t.warning@ == "#FFFF00"@,
    {
        ThemeConfig {
            primary: str_to_string("#0000FF"),
            accent: str_to_string("#00FFFF"),
            highlight: str_to_string("#FFFF00"),
            background: str_to_string("#000000"),
            foreground: str_to_string("#FFFFFF"),
            success: str_to_string("#00FF00"),
            error: str_to_string("#FF0000"),
            warning: str_to_string("#FFFF00"),
        }
    }

    /// Greens on black.
    pub fn matrix() -> (t: Self)
        ensures
            t.primary@ == "#003B00"@,
            t.accent@ == "#00FF41"@,
            t.highlight@ == "#008F11"@,
            t.background@ == "#000000"@,
            t.foreground@ == "#00FF41"@,
            t.success@ == "#00FF41"@,
            t.error@ == "#FF0000"@,
            t.warning@ == "#008F11"@,
    {
        ThemeConfig {
            primary: str_to_string("#003B00"),
            accent: str_to_string("#00FF41"),
            highlight: str_to_string("#008F11"),
            background: str_to_string("#000000"),
            foreground: str_to_string("#00FF41"),
            success: str_to_string("#00FF41"),
            error: str_to_string("#FF0000"),
            warning: str_to_string("#008F11"),
        }
    }
}

impl Default for ThemeConfig {
    /// The galactic theme.
    fn default() -> (t: Self)
        ensures
            t.primary@ == "#0000FF"@,
            t.accent@ == "#00FFFF"@,
            t.highlight@ == "#FFFF00"@,
            t.background@ == "#000000"@,
            t.foreground@ == "#FFFFFF"@,
            t.success@ == "#00FF00"@,
            t.error@ == "#FF0000"@,
            t.warning@ == "#FFFF00"@,
    {
        ThemeConfig::galactic()
    }
}

/// Logging, integrity checking, polling and appearance.
#[derive(Debug, Clone)]
pub struct GeneralConfig {
    pub log_level: String,
    pub log_path: Option<String>,
    pub check_integrity: bool,
    pub event_poll_interval_ms: u64,
    pub daemon_mode: bool,
    pub theme: ThemeConfig,
}

impl Default for GeneralConfig {
    /// Level "info", integrity checks on, a poll every 500 ms, the galactic theme.
    fn default() -> (c: Self)
        ensures
            c.log_level@ == "info"@,
            c.log_path is None,
            c.check_integrity,
            c.event_poll_interval_ms == 500,
            !c.daemon_mode,
            c.theme.primary@ == "#0000FF"@,
            c.theme.accent@ == "#00FFFF"@,
            c.theme.highlight@ == "#FFFF00"@,
            c.theme.background@ == "#000000"@,
            c.theme.foreground@ == "#FFFFFF"@,
            c.theme.success@ == "#00FF00"@,
            c.theme.error@ == "#FF0000"@,
            c.theme.warning@ == "#FFFF00"@,
    {
        GeneralConfig {
            log_level: str_to_string("info"),
            log_path: None,
            check_integrity: true,
            event_poll_interval_ms: 500,
            daemon_mode: false,
            theme: ThemeConfig::galactic(),
        }
    }
}

} // verus!
