//! The errors the library reports, and their messages.

use vstd::prelude::*;
use crate::text::concat;

verus! {

/// Everything that can go wrong in the library's decisions.
#[derive(Debug)]
pub enum RdevError {
    /// no current server is configured
    NoServerSelected,
    /// a named server is not configured (the message points to `server ls`)
    UnknownServer(String),
    /// `server rm` of a name that is not configured
    NoSuchServer(String),
    /// `server add` of a name that is taken, without `--force`
    ServerExists(String),
    /// a workspace root that would cover too much of the remote disk
    InvalidRoot(String),
    /// a remote run without a command
    NoCommand,
    /// the project directory has no usable name
    NoProjectName,
    /// neither a config home nor a home directory is known
    NoConfigDir,
}

/// The message of each error, as the command line prints it.
pub open spec fn error_message(e: RdevError) -> Seq<char> {
    match e {
        RdevError::NoServerSelected => "no server selected; run: rdev server add <name> <host>"@,
        RdevError::UnknownServer(n) => "server \""@ + n@ + "\" not found; run: rdev server ls"@,
        RdevError::NoSuchServer(n) => "server \""@ + n@ + "\" not found"@,
        RdevError::ServerExists(n) => "server \""@ + n@ + "\" already exists; use --force to overwrite"@,
        RdevError::InvalidRoot(r) => "invalid root \""@ + r@ + "\": too broad"@,
        RdevError::NoCommand => "no command given"@,
        RdevError::NoProjectName => "cannot determine project name from current dir"@,
        RdevError::NoConfigDir => "cannot locate config dir"@,
    }
}

impl RdevError {
    /// The message of this error.
    pub fn message(&self) -> (r: String)
        ensures
            r@ == error_message(*self),
    {
        match self {
            RdevError::NoServerSelected => String::from_str("no server selected; run: rdev server add <name> <host>"),
            RdevError::UnknownServer(n) => {
                let mut r = concat("server \"", n.as_str());
                r.append("\" not found; run: rdev server ls");
                r
            },
            RdevError::NoSuchServer(n) => {
                let mut r = concat("server \"", n.as_str());
                r.append("\" not found");
                r
            },
            RdevError::ServerExists(n) => {
                let mut r = concat("server \"", n.as_str());
                r.append("\" already exists; use --force to overwrite");
                r
            },
            RdevError::InvalidRoot(root) => {
                let mut r = concat("invalid root \"", root.as_str());
                r.append("\": too broad");
                r
            },
            RdevError::NoCommand => String::from_str("no command given"),
            RdevError::NoProjectName => String::from_str("cannot determine project name from current dir"),
            RdevError::NoConfigDir => String::from_str("cannot locate config dir"),
        }
    }
}

} // verus!
