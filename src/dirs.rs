//! The application's data, configuration and cache directories.
use vstd::prelude::*;

verus! {

/// Name under which the application's directories are created.
pub const APP_NAME: &'static str = "dailyai";

/// Why a directory could not be provided.
#[derive(PartialEq, Eq, Structural, Clone, Copy, Debug)]
pub enum DirError {
    /// No environment variable names a base directory.
    DirNotFound,
    /// Creating the directory failed.
    IoError,
}

/// A kind of per-user directory.
#[derive(PartialEq, Eq, Structural, Clone, Copy, Debug)]
pub enum DirType {
    Data,
    Config,
    Cache,
}

impl DirType {
    /// The XDG environment variable that overrides this directory's base.
    pub fn xdg_key(&self) -> (r: &'static str)
        ensures
            r@ == match self {
                DirType::Data => "XDG_DATA_HOME"@,
                DirType::Config => "XDG_CONFIG_HOME"@,
                DirType::Cache => "XDG_CACHE_HOME"@,
            },
    {
        match self {
            DirType::Data => "XDG_DATA_HOME",
            DirType::Config => "XDG_CONFIG_HOME",
            DirType::Cache => "XDG_CACHE_HOME",
        }
    }

    /// The base directory under the home directory when no XDG variable is set.
    pub fn rel_path(&self) -> (r: &'static str)
        ensures
            r@ == match self {
                DirType::Data => ".local/share"@,
                DirType::Config => ".config"@,
                DirType::Cache => ".cache"@,
            },
    {
        match self {
            DirType::Data => ".local/share",
            DirType::Config => ".config",
            DirType::Cache => ".cache",
        }
    }

    /// A human-readable hint of the default location, such as
    /// `~/.config/dailyai`.
    pub fn hint(&self) -> (r: &'static str)
        ensures
            r@ == match self {
                DirType::Data => "~/.local/share/dailyai"@,
                DirType::Config => "~/.config/dailyai"@,
                DirType::Cache => "~/.cache/dailyai"@,
            },
    {
        match self {
            DirType::Data => "~/.local/share/dailyai",
            DirType::Config => "~/.config/dailyai",
            DirType::Cache => "~/.cache/dailyai",
        }
    }
}

} // verus!
