//! Where configuration and state live.

use vstd::prelude::*;

use crate::config::error::ConfigError;
use crate::path;
use crate::text;

verus! {

/// A variable's value, where it is set and not empty.
pub open spec fn usable(value: Option<&str>) -> Option<Seq<char>> {
    match value {
        Some(value) => if value@.len() > 0 {
            Some(value@)
        } else {
            None
        },
        None => None,
    }
}

/// The directory of the configuration, if the environment names one.
pub open spec fn config_home(config_home: Option<&str>, home: Option<&str>) -> Option<Seq<char>> {
    match (usable(config_home), usable(home)) {
        (Some(directory), _) => Some(path::joined(directory, "nobox"@)),
        (None, Some(directory)) => Some(path::joined(directory, ".config/nobox"@)),
        _ => None,
    }
}

/// Where the window-session state lives, given the directory of the configured file.
pub open spec fn state_home(
    state_file: Option<&str>,
    config_file: Option<&str>,
    config_parent: Option<Seq<char>>,
    state_home: Option<&str>,
    home: Option<&str>,
) -> Option<Seq<char>> {
    match (usable(state_file), usable(config_file), usable(state_home), usable(home)) {
        (Some(file), _, _, _) => Some(file),
        (None, Some(_), _, _) => match config_parent {
            Some(directory) => Some(path::joined(directory, "session.toml"@)),
            None => Some("session.toml"@),
        },
        (None, None, Some(directory), _) => Some(path::joined(directory, "nobox/session.toml"@)),
        (None, None, None, Some(directory)) => Some(
            path::joined(directory, ".local/state/nobox/session.toml"@),
        ),
        _ => None,
    }
}

/// Whether a variable is set and not empty.
fn is_usable(value: Option<&str>) -> (r: bool)
    ensures
        r == (usable(value) is Some),
{
    match value {
        Some(value) => !value.is_empty(),
        None => false,
    }
}

/// Returns the nobox configuration directory, given `XDG_CONFIG_HOME` and `HOME`.
///
/// # Errors
///
/// Returns an error when neither is usable.
pub fn config_dir(xdg_config_home: Option<&str>, home: Option<&str>) -> (path: Result<
    String,
    ConfigError,
>)
    ensures
        match path {
            Ok(path) => config_home(xdg_config_home, home) == Some(path@),
            Err(error) => config_home(xdg_config_home, home) is None && error is NoConfigHome,
        },
{
    match (xdg_config_home, home) {
        (Some(directory), _) if !directory.is_empty() => Ok(path::join(directory, "nobox")),
        (_, Some(directory)) if !directory.is_empty() => Ok(path::join(directory, ".config/nobox")),
        _ => Err(ConfigError::NoConfigHome),
    }
}

/// Returns the path nobox uses for its primary configuration file, given `NOBOX_CONFIG_FILE`,
/// `XDG_CONFIG_HOME` and `HOME`. The first overrides the others.
///
/// # Errors
///
/// Returns an error when none of them is usable.
pub fn config_path(
    config_file: Option<&str>,
    xdg_config_home: Option<&str>,
    home: Option<&str>,
) -> (path: Result<String, ConfigError>)
    ensures
        match path {
            Ok(path) => path@ == (match usable(config_file) {
                Some(file) => file,
                None => path::joined(config_home(xdg_config_home, home)->Some_0, "config.toml"@),
            }) && (usable(config_file) is Some || config_home(xdg_config_home, home) is Some),
            Err(error) => usable(config_file) is None && config_home(xdg_config_home, home) is None
                && error is NoConfigHome,
        },
{
    if let Some(file) = config_file {
        if !file.is_empty() {
            return Ok(file.to_owned());
        }
    }
    match config_dir(xdg_config_home, home) {
        Ok(directory) => Ok(path::join(directory.as_str(), "config.toml")),
        Err(error) => Err(error),
    }
}

/// Returns the path used for persistent window-session state, given `NOBOX_STATE_FILE`,
/// `NOBOX_CONFIG_FILE`, the directory of the latter, `XDG_STATE_HOME` and `HOME`.
///
/// # Errors
///
/// Returns an error when no variable is usable.
pub fn state_path_beside(
    state_file: Option<&str>,
    config_file: Option<&str>,
    config_parent: Option<&str>,
    xdg_state_home: Option<&str>,
    home: Option<&str>,
) -> (path: Result<String, ConfigError>)
    ensures
        ({
            let parent = match config_parent {
                Some(parent) => Some(parent@),
                None => None,
            };
            match path {
                Ok(path) => state_home(state_file, config_file, parent, xdg_state_home, home)
                    == Some(path@),
                Err(error) => state_home(
                    state_file,
                    config_file,
                    parent,
                    xdg_state_home,
                    home,
                ) is None && error is NoStateHome,
            }
        }),
{
    if let Some(file) = state_file {
        if !file.is_empty() {
            return Ok(file.to_owned());
        }
    }
    if is_usable(config_file) {
        return match config_parent {
            Some(directory) => Ok(path::join(directory, "session.toml")),
            None => Ok("session.toml".to_owned()),
        };
    }
    match (xdg_state_home, home) {
        (Some(directory), _) if !directory.is_empty() => Ok(path::join(directory, "nobox/session.toml")),
        (_, Some(directory)) if !directory.is_empty() => Ok(
            path::join(directory, ".local/state/nobox/session.toml"),
        ),
        _ => Err(ConfigError::NoStateHome),
    }
}

/// Returns the path used for persistent window-session state, given `NOBOX_STATE_FILE`,
/// `NOBOX_CONFIG_FILE`, `XDG_STATE_HOME` and `HOME`. An earlier one overrides the later ones.
///
/// # Errors
///
/// Returns an error when no variable is usable.
pub fn state_path(
    state_file: Option<&str>,
    config_file: Option<&str>,
    xdg_state_home: Option<&str>,
    home: Option<&str>,
) -> (path: Result<String, ConfigError>)
    ensures
        ({
            let parent = match config_file {
                Some(file) => path::parent_of(file@),
                None => None,
            };
            match path {
                Ok(path) => state_home(state_file, config_file, parent, xdg_state_home, home)
                    == Some(path@),
                Err(error) => state_home(
                    state_file,
                    config_file,
                    parent,
                    xdg_state_home,
                    home,
                ) is None && error is NoStateHome,
            }
        }),
{
    let directory = match config_file {
        Some(file) => path::parent(file),
        None => None,
    };
    match &directory {
        Some(directory) => state_path_beside(
            state_file,
            config_file,
            Some(directory.as_str()),
            xdg_state_home,
            home,
        ),
        None => state_path_beside(state_file, config_file, None, xdg_state_home, home),
    }
}

} // verus!
