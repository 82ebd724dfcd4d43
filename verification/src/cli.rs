//! The command-line arguments and what they ask the console to do.

use vstd::prelude::*;
use crate::text::{chars_of, starts_with};
use crate::token::has_prefix_at;

verus! {

/// The arguments of one invocation of the console.
#[derive(Debug)]
pub struct Args {
    /// Console commands to execute in order, before exiting.
    pub command: Vec<String>,
    /// Script files whose commands are executed in order, before exiting.
    pub script: Vec<String>,
    /// Address of the server, as `host:port`.
    pub address: Option<String>,
    /// Comma-separated addresses of the replicas of one cluster.
    pub addresses: Option<String>,
    /// Comma-separated `public=private` address pairs.
    pub address_translation: Option<String>,
    /// Talk to the given address only, without redirection to replicas.
    pub replication_disabled: bool,
    /// Username for authentication.
    pub username: Option<String>,
    /// Password for authentication; asked for when absent.
    pub password: Option<String>,
    /// Connect without TLS encryption.
    pub tls_disabled: bool,
    /// Path to the TLS root CA file.
    pub tls_root_ca: Option<String>,
    /// Do not report errors to the developers.
    pub diagnostics_disabled: bool,
    /// Print the version and exit.
    pub version: bool,
}

/// What an invocation asks for.
#[derive(Clone, Copy, Debug, PartialEq, Eq, Structural)]
pub enum RunMode {
    /// Print the version and exit.
    PrintVersion,
    /// Execute the commands given on the command line, then exit.
    Commands,
    /// Execute the given scripts, then exit.
    Scripts,
    /// Read commands from the terminal.
    Interactive,
}

/// The ways in which the arguments of an invocation can be unusable.
#[derive(Clone, Copy, Debug, PartialEq, Eq, Structural)]
pub enum UsageError {
    MissingAddress,
    MissingUsername,
    TlsNeedsHttps,
    CommandsAndScripts,
}

/// The verdict on the arguments `args`. The version flag goes before all
/// else. A connection needs an address and a username, and TLS needs an
/// address that starts with `https:`. Commands and scripts exclude each other.
pub open spec fn run_mode_of(args: Args) -> Result<RunMode, UsageError> {
    if args.version {
        Ok(RunMode::PrintVersion)
    } else if args.address is None {
        Err(UsageError::MissingAddress)
    } else if args.username is None {
        Err(UsageError::MissingUsername)
    } else if !args.tls_disabled && !starts_with(args.address.unwrap()@, "https:"@) {
        Err(UsageError::TlsNeedsHttps)
    } else if args.command@.len() > 0 && args.script@.len() > 0 {
        Err(UsageError::CommandsAndScripts)
    } else if args.command@.len() > 0 {
        Ok(RunMode::Commands)
    } else if args.script@.len() > 0 {
        Ok(RunMode::Scripts)
    } else {
        Ok(RunMode::Interactive)
    }
}

impl Args {
    /// Decides what the invocation asks for, or why it cannot be served.
    pub fn run_mode(&self) -> (r: Result<RunMode, UsageError>)
        ensures
            r == run_mode_of(*self),
    {
        if self.version {
            return Ok(RunMode::PrintVersion);
        }
        let address = match &self.address {
            None => {
                return Err(UsageError::MissingAddress);
            },
            Some(address) => address,
        };
        if self.username.is_none() {
            return Err(UsageError::MissingUsername);
        }
        if !self.tls_disabled {
            let text = chars_of(address.as_str());
            let scheme = chars_of("https:");
            proof {
                assert(text@.skip(0) == text@);
            }
            if !has_prefix_at(text.as_slice(), 0, scheme.as_slice()) {
                return Err(UsageError::TlsNeedsHttps);
            }
        }
        if self.command.len() > 0 && self.script.len() > 0 {
            Err(UsageError::CommandsAndScripts)
        } else if self.command.len() > 0 {
            Ok(RunMode::Commands)
        } else if self.script.len() > 0 {
            Ok(RunMode::Scripts)
        } else {
            Ok(RunMode::Interactive)
        }
    }
}

} // verus!
