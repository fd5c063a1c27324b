//! `amux setup opencode`: where the OpenCode plugin goes, and its legacy location.
use vstd::prelude::*;

use crate::cli::{no_home_error, setup_error, version_after_prefix, version_line};
use crate::error::AmuxError;
use crate::paths::{home_dir, join_path, path_join};
use crate::text::{opt_view, string_of};

verus! {

/// The version that the plugin source announces on its first line.
pub fn version_from_content(content: &str) -> (r: Option<&str>)
    ensures
        match r {
            Some(v) => version_line(content@, 0, "// amux-status "@) == Some(v@),
            None => version_line(content@, 0, "// amux-status "@) is None,
        },
{
    version_after_prefix(content, 0, "// amux-status ")
}

/// The configuration directory: `$XDG_CONFIG_HOME` when set, else `~/.config`.
pub open spec fn config_dir_of(xdg_config_home: Option<Seq<char>>, home: Option<Seq<char>>) -> Option<
    Seq<char>,
> {
    match xdg_config_home {
        Some(x) => Some(x),
        None => match home {
            Some(h) => Some(path_join(h, ".config"@)),
            None => None,
        },
    }
}

/// The configuration directory, from the value of `XDG_CONFIG_HOME` if it is set,
/// else below the home directory that the system reports.
pub fn config_dir(xdg_config_home: Option<&str>) -> (r: Result<String, AmuxError>)
    ensures
        exists|h: Option<Seq<char>>| match #[trigger] config_dir_of(opt_view(xdg_config_home), h) {
            Some(d) => r matches Ok(s) && s@ == d,
            None => r matches Err(e) && e@ == setup_error("could not determine home directory"@),
        },
{
    match xdg_config_home {
        Some(_) => config_dir_from(xdg_config_home, None),
        None => match home_dir() {
            Some(h) => config_dir_from(None, Some(h.as_str())),
            None => config_dir_from(None, None),
        },
    }
}

/// The configuration directory, from `XDG_CONFIG_HOME` and the home directory.
pub fn config_dir_from(xdg_config_home: Option<&str>, home: Option<&str>) -> (r: Result<String, AmuxError>)
    ensures
        match config_dir_of(opt_view(xdg_config_home), opt_view(home)) {
            Some(d) => r matches Ok(s) && s@ == d,
            None => r matches Err(e) && e@ == setup_error("could not determine home directory"@),
        },
{
    match xdg_config_home {
        Some(x) => Ok(string_of(x)),
        None => match home {
            Some(h) => Ok(join_path(h, ".config")),
            None => Err(no_home_error()),
        },
    }
}

/// `opencode/<dir>/amux-status.js` below the configuration directory.
pub open spec fn plugin_file_of(config: Seq<char>, dir: Seq<char>) -> Seq<char> {
    path_join(path_join(path_join(config, "opencode"@), dir), "amux-status.js"@)
}

/// The path of the plugin, which OpenCode loads from its `plugins` directory, in the
/// configuration directory that `config_dir` finds.
pub fn plugin_path(xdg_config_home: Option<&str>) -> (r: Result<String, AmuxError>)
    ensures
        exists|h: Option<Seq<char>>| match #[trigger] config_dir_of(opt_view(xdg_config_home), h) {
            Some(d) => r matches Ok(s) && s@ == plugin_file_of(d, "plugins"@),
            None => r matches Err(e) && e@ == setup_error("could not determine home directory"@),
        },
{
    let config = config_dir(xdg_config_home)?;
    let a = join_path(config.as_str(), "opencode");
    let b = join_path(a.as_str(), "plugins");
    Ok(join_path(b.as_str(), "amux-status.js"))
}

/// The path where older versions installed the plugin, which setup removes, in the
/// configuration directory that `config_dir` finds.
pub fn legacy_plugin_path(xdg_config_home: Option<&str>) -> (r: Result<String, AmuxError>)
    ensures
        exists|h: Option<Seq<char>>| match #[trigger] config_dir_of(opt_view(xdg_config_home), h) {
            Some(d) => r matches Ok(s) && s@ == plugin_file_of(d, "plugin"@),
            None => r matches Err(e) && e@ == setup_error("could not determine home directory"@),
        },
{
    let config = config_dir(xdg_config_home)?;
    let a = join_path(config.as_str(), "opencode");
    let b = join_path(a.as_str(), "plugin");
    Ok(join_path(b.as_str(), "amux-status.js"))
}

/// The path of the plugin in the configuration directory that `XDG_CONFIG_HOME` and
/// the home directory give.
pub fn plugin_path_from(xdg_config_home: Option<&str>, home: Option<&str>) -> (r: Result<String, AmuxError>)
    ensures
        match config_dir_of(opt_view(xdg_config_home), opt_view(home)) {
            Some(d) => r matches Ok(s) && s@ == plugin_file_of(d, "plugins"@),
            None => r matches Err(e) && e@ == setup_error("could not determine home directory"@),
        },
{
    let config = config_dir_from(xdg_config_home, home)?;
    let a = join_path(config.as_str(), "opencode");
    let b = join_path(a.as_str(), "plugins");
    Ok(join_path(b.as_str(), "amux-status.js"))
}

/// The legacy path of the plugin in the configuration directory that
/// `XDG_CONFIG_HOME` and the home directory give.
pub fn legacy_plugin_path_from(xdg_config_home: Option<&str>, home: Option<&str>) -> (r: Result<
    String,
    AmuxError,
>)
    ensures
        match config_dir_of(opt_view(xdg_config_home), opt_view(home)) {
            Some(d) => r matches Ok(s) && s@ == plugin_file_of(d, "plugin"@),
            None => r matches Err(e) && e@ == setup_error("could not determine home directory"@),
        },
{
    let config = config_dir_from(xdg_config_home, home)?;
    let a = join_path(config.as_str(), "opencode");
    let b = join_path(a.as_str(), "plugin");
    Ok(join_path(b.as_str(), "amux-status.js"))
}

} // verus!
