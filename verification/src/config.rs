//! The configuration snapshot: the flags and paths the application reads
//! from its store. Loading and saving them is the caller's business; the
//! tracking loop consumes the two switches through the accessors here.

use vstd::prelude::*;

verus! {

/// The configuration snapshot. Every field is optional: an unset key is
/// simply absent.
pub struct Config {
    pub emulator_path: Option<String>,
    pub output_directory: Option<String>,
    pub clean_rom_path: Option<String>,
    pub enable_debug_logging: Option<bool>,
    pub enable_auto_tracking: Option<bool>,
    pub additional_args: Option<String>,
}

impl Config {
    /// A snapshot with nothing set.
    pub fn empty() -> (r: Self)
        ensures
            r.emulator_path is None,
            r.output_directory is None,
            r.clean_rom_path is None,
            r.enable_debug_logging is None,
            r.enable_auto_tracking is None,
            r.additional_args is None,
    {
        Config {
            emulator_path: None,
            output_directory: None,
            clean_rom_path: None,
            enable_debug_logging: None,
            enable_auto_tracking: None,
            additional_args: None,
        }
    }

    /// Whether the tracking subsystem is switched on: an absent key counts
    /// as off.
    pub fn tracking_enabled(&self) -> (r: bool)
        ensures
            r == (self.enable_auto_tracking == Some(true)),
    {
        match self.enable_auto_tracking {
            Some(v) => v,
            None => false,
        }
    }

    /// Whether verbose diagnostics are switched on: an absent key counts as
    /// off.
    pub fn debug_enabled(&self) -> (r: bool)
        ensures
            r == (self.enable_debug_logging == Some(true)),
    {
        match self.enable_debug_logging {
            Some(v) => v,
            None => false,
        }
    }
}

} // verus!
