//! Run configuration: the window size in seconds, an optional capture
//! interface, and an optional filter expression.

use vstd::prelude::*;

verus! {

/// Why a configuration was rejected before any observation was processed.
#[derive(Clone, Copy, Debug, PartialEq, Eq, Structural)]
pub enum ConfigError {
    /// The window size must be a positive number of seconds.
    ZeroWindow,
}

/// The resolved configuration of one run.
pub struct App {
    /// Length of the observed time window, in one-second slots.
    pub window: usize,
    /// Capture interface to use; the default interface when absent.
    pub interface: Option<String>,
    /// Filter expression handed to the packet source; empty means no filter.
    pub filter: String,
}

impl App {
    /// Accepts a configuration exactly when the window is positive.
    pub fn new(window: usize, interface: Option<String>, filter: String) -> (r: Result<
        App,
        ConfigError,
    >)
        ensures
            window > 0 <==> r is Ok,
            r is Ok ==> r->Ok_0.window == window && r->Ok_0.interface == interface
                && r->Ok_0.filter == filter,
            r is Err ==> r->Err_0 == ConfigError::ZeroWindow,
    {
        if window == 0 {
            Err(ConfigError::ZeroWindow)
        } else {
            Ok(App { window, interface, filter })
        }
    }
}

} // verus!
