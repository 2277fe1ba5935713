//! The daemon's command-line options.

use crate::config::{INSTALL_PREFIX, SERVER_CONF_PATH};
use vstd::prelude::*;

verus! {

/// Options of the daemon.
pub struct Opts {
    /// Path of the configuration file, when not the default one.
    pub config: Option<String>,
    /// Greatest number of handshakes at a time.
    pub num_connections: usize,
    /// Whether to ignore a listening socket handed over by the service manager.
    pub no_systemd: bool,
}

impl Opts {
    /// The configuration file to read: the one given, else the default one
    /// under the install prefix.
    pub fn get_config(&self) -> (r: String)
        ensures
            r@ == match self.config {
                Some(c) => c@,
                None => INSTALL_PREFIX@ + SERVER_CONF_PATH@,
            },
    {
        match &self.config {
            Some(c) => c.clone(),
            None => String::from_str(INSTALL_PREFIX).concat(SERVER_CONF_PATH),
        }
    }
}

} // verus!
