//! The launcher's own settings and the instance defaults they provide.

use vstd::prelude::*;

use crate::instance::{config_parts, InstanceConfig};
use crate::text::{clone_opt_string, clone_strings};

verus! {

/// Launcher settings.
pub struct MainConfig {
    pub accent_color: u32,
    pub download_concurrency: u32,
    pub mirror_url: Option<String>,
    /// Default instance window width.
    pub default_width: u32,
    /// Default instance window height.
    pub default_height: u32,
    pub default_jvm_args: Vec<String>,
    pub default_game_args: Vec<String>,
    pub default_launch_command_prefix: Vec<String>,
    pub default_launch_command_suffix: Vec<String>,
    /// Profile made current at start-up (none when unset).
    pub default_profile_id: Option<String>,
}

impl Default for MainConfig {
    /// Accent `#4a92cb`, 16 parallel downloads, no mirror, 800×600, no
    /// extra words and no default profile.
    fn default() -> (c: Self)
        ensures
            c.accent_color == 0x4a92cb,
            c.download_concurrency == 16,
            c.mirror_url is None,
            c.default_width == 800,
            c.default_height == 600,
            c.default_jvm_args@.len() == 0,
            c.default_game_args@.len() == 0,
            c.default_launch_command_prefix@.len() == 0,
            c.default_launch_command_suffix@.len() == 0,
            c.default_profile_id is None,
    {
        MainConfig {
            accent_color: 0x4a92cb,
            download_concurrency: 16,
            mirror_url: None,
            default_width: 800,
            default_height: 600,
            default_jvm_args: Vec::new(),
            default_game_args: Vec::new(),
            default_launch_command_prefix: Vec::new(),
            default_launch_command_suffix: Vec::new(),
            default_profile_id: None,
        }
    }
}

impl Clone for MainConfig {
    fn clone(&self) -> (r: Self)
        ensures
            r.accent_color == self.accent_color,
            r.download_concurrency == self.download_concurrency,
            r.mirror_url == self.mirror_url,
            r.default_width == self.default_width,
            r.default_height == self.default_height,
            r.default_jvm_args@ == self.default_jvm_args@,
            r.default_game_args@ == self.default_game_args@,
            r.default_launch_command_prefix@ == self.default_launch_command_prefix@,
            r.default_launch_command_suffix@ == self.default_launch_command_suffix@,
            r.default_profile_id == self.default_profile_id,
    {
        MainConfig {
            accent_color: self.accent_color,
            download_concurrency: self.download_concurrency,
            mirror_url: clone_opt_string(&self.mirror_url),
            default_width: self.default_width,
            default_height: self.default_height,
            default_jvm_args: clone_strings(&self.default_jvm_args),
            default_game_args: clone_strings(&self.default_game_args),
            default_launch_command_prefix: clone_strings(&self.default_launch_command_prefix),
            default_launch_command_suffix: clone_strings(&self.default_launch_command_suffix),
            default_profile_id: clone_opt_string(&self.default_profile_id),
        }
    }
}

impl MainConfig {
    /// The instance settings these launcher settings provide as defaults.
    pub fn instance_defaults(&self) -> (c: InstanceConfig)
        ensures
            config_parts(c) == (
                self.default_launch_command_prefix@,
                self.default_launch_command_suffix@,
                self.default_jvm_args@,
                self.default_game_args@,
                Some(self.default_width),
                Some(self.default_height),
            ),
    {
        InstanceConfig {
            launch_command_prefix: clone_strings(&self.default_launch_command_prefix),
            launch_command_suffix: clone_strings(&self.default_launch_command_suffix),
            jvm_args: clone_strings(&self.default_jvm_args),
            game_args: clone_strings(&self.default_game_args),
            width: Some(self.default_width),
            height: Some(self.default_height),
        }
    }

    /// The number of downloads run at once: the setting, at least one.
    pub fn concurrency(&self) -> (n: u32)
        ensures
            n == if self.download_concurrency == 0 {
                1
            } else {
                self.download_concurrency
            },
    {
        if self.download_concurrency == 0 {
            1
        } else {
            self.download_concurrency
        }
    }
}

} // verus!

verus! {

/// A partial change of the launcher settings: only the fields given
/// change.
pub struct MainConfigUpdate {
    pub accent_color: Option<u32>,
    pub download_concurrency: Option<u32>,
    pub mirror_url: Option<String>,
    pub default_width: Option<u32>,
    pub default_height: Option<u32>,
    pub default_jvm_args: Option<Vec<String>>,
    pub default_game_args: Option<Vec<String>>,
    pub default_launch_command_prefix: Option<Vec<String>>,
    pub default_launch_command_suffix: Option<Vec<String>>,
    pub default_profile_id: Option<String>,
}

impl Default for MainConfigUpdate {
    fn default() -> (u: Self)
        ensures
            u.accent_color is None && u.download_concurrency is None && u.mirror_url is None
                && u.default_width is None && u.default_height is None && u.default_jvm_args is None
                && u.default_game_args is None && u.default_launch_command_prefix is None
                && u.default_launch_command_suffix is None && u.default_profile_id is None,
    {
        MainConfigUpdate {
            accent_color: None,
            download_concurrency: None,
            mirror_url: None,
            default_width: None,
            default_height: None,
            default_jvm_args: None,
            default_game_args: None,
            default_launch_command_prefix: None,
            default_launch_command_suffix: None,
            default_profile_id: None,
        }
    }
}

/// An optional text setting as stored: trimmed, and none when blank.
pub open spec fn text_setting(s: Seq<char>) -> Option<Seq<char>> {
    if crate::text::trim(s).len() == 0 {
        None
    } else {
        Some(crate::text::trim(s))
    }
}

pub open spec fn opt_view(o: Option<String>) -> Option<Seq<char>> {
    match o {
        Some(s) => Some(s@),
        None => None,
    }
}

pub open spec fn at_least_one(v: u32) -> u32 {
    if v == 0 {
        1
    } else {
        v
    }
}

fn text_setting_exec(s: &str) -> (r: Option<String>)
    ensures
        opt_view(r) == text_setting(s@),
{
    let t = crate::text::trim_string(s);
    if crate::text::is_empty_str(t.as_str()) {
        None
    } else {
        Some(t)
    }
}

/// Applies a partial change: the concurrency and window size are at least
/// 1; the mirror and default profile are trimmed, a blank one clearing
/// the setting; the rest is taken as given.
pub fn apply_config_update(config: &mut MainConfig, update: MainConfigUpdate)
    ensures
        final(config).accent_color == (match update.accent_color {
            Some(c) => c,
            None => old(config).accent_color,
        }),
        final(config).download_concurrency == (match update.download_concurrency {
            Some(c) => at_least_one(c),
            None => old(config).download_concurrency,
        }),
        opt_view(final(config).mirror_url) == (match update.mirror_url {
            Some(m) => text_setting(m@),
            None => opt_view(old(config).mirror_url),
        }),
        final(config).default_width == (match update.default_width {
            Some(w) => at_least_one(w),
            None => old(config).default_width,
        }),
        final(config).default_height == (match update.default_height {
            Some(h) => at_least_one(h),
            None => old(config).default_height,
        }),
        final(config).default_jvm_args@ == (match update.default_jvm_args {
            Some(a) => a@,
            None => old(config).default_jvm_args@,
        }),
        final(config).default_game_args@ == (match update.default_game_args {
            Some(a) => a@,
            None => old(config).default_game_args@,
        }),
        final(config).default_launch_command_prefix@ == (match update.default_launch_command_prefix {
            Some(a) => a@,
            None => old(config).default_launch_command_prefix@,
        }),
        final(config).default_launch_command_suffix@ == (match update.default_launch_command_suffix {
            Some(a) => a@,
            None => old(config).default_launch_command_suffix@,
        }),
        opt_view(final(config).default_profile_id) == (match update.default_profile_id {
            Some(p) => text_setting(p@),
            None => opt_view(old(config).default_profile_id),
        }),
{
    let MainConfigUpdate {
        accent_color,
        download_concurrency,
        mirror_url,
        default_width,
        default_height,
        default_jvm_args,
        default_game_args,
        default_launch_command_prefix,
        default_launch_command_suffix,
        default_profile_id,
    } = update;
    if let Some(c) = accent_color {
        config.accent_color = c;
    }
    if let Some(c) = download_concurrency {
        config.download_concurrency = if c == 0 { 1 } else { c };
    }
    if let Some(m) = mirror_url {
        config.mirror_url = text_setting_exec(m.as_str());
    }
    if let Some(w) = default_width {
        config.default_width = if w == 0 { 1 } else { w };
    }
    if let Some(h) = default_height {
        config.default_height = if h == 0 { 1 } else { h };
    }
    if let Some(a) = default_jvm_args {
        config.default_jvm_args = a;
    }
    if let Some(a) = default_game_args {
        config.default_game_args = a;
    }
    if let Some(a) = default_launch_command_prefix {
        config.default_launch_command_prefix = a;
    }
    if let Some(a) = default_launch_command_suffix {
        config.default_launch_command_suffix = a;
    }
    if let Some(p) = default_profile_id {
        config.default_profile_id = text_setting_exec(p.as_str());
    }
}

/// The default profile id a request sets: trimmed, none when blank or
/// absent.
pub fn requested_profile_id(id: Option<&str>) -> (r: Option<String>)
    ensures
        opt_view(r) == (match id {
            Some(s) => text_setting(s@),
            None => None,
        }),
{
    match id {
        Some(s) => text_setting_exec(s),
        None => None,
    }
}

} // verus!
