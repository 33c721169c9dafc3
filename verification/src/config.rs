//! Server configuration values: which service to run and the credentials
//! of Basic Authentication.
use vstd::prelude::*;

use crate::path::{split_chars, split_on, texts};
use crate::text::{chars_of, string_of};

verus! {

/// Credentials for Basic Authentication.
pub struct BasicAuth {
    pub username: String,
    pub password: String,
}

/// Why a value could not be read as configuration.
#[derive(Debug, PartialEq, Eq, Structural)]
pub enum ConfigError {
    /// The Basic Authentication value is not `username:password` with exactly
    /// one colon.
    MissingColonSeparator,
}

impl ConfigError {
    /// The message that describes the error.
    pub fn message(&self) -> (res: String)
        ensures
            res@ == "Expected a string with a colon to separe username and password for Basic Authentication."@,
    {
        String::from_str(
            "Expected a string with a colon to separe username and password for Basic Authentication.",
        )
    }
}

impl BasicAuth {
    /// Reads `username:password`. The value is split at every `:`; it must
    /// give exactly two pieces, the username and the password.
    pub fn from_str(s: &str) -> (res: Result<BasicAuth, ConfigError>)
        ensures
            split_on(s@, ':').len() == 2 <==> res is Ok,
            res matches Ok(auth) ==> auth.username@ == split_on(s@, ':')[0]
                && auth.password@ == split_on(s@, ':')[1],
            res matches Err(e) ==> e == ConfigError::MissingColonSeparator,
    {
        let chars = chars_of(s);
        let parts = split_chars(&chars, ':');
        if parts.len() != 2 {
            return Err(ConfigError::MissingColonSeparator);
        }
        assert(texts(parts@)[0] == parts@[0]@);
        assert(texts(parts@)[1] == parts@[1]@);
        Ok(BasicAuth { username: string_of(&parts[0]), password: string_of(&parts[1]) })
    }
}

/// The services the command line can name.
#[derive(Clone, Copy, Debug, PartialEq, Eq, Structural)]
pub enum ServiceKind {
    FileServer,
    FileExplorer,
}

/// The service that the server runs, with its root directory and optional
/// Basic Authentication.
pub enum Service {
    FileServer { root_directory: String, basic_auth: Option<BasicAuth> },
    FileExplorer { root_directory: String, basic_auth: Option<BasicAuth> },
}

impl Service {
    /// The service of the given kind, serving `./` without authentication.
    pub fn from_kind(kind: ServiceKind) -> (res: Service)
        ensures
            kind == ServiceKind::FileServer ==> (res matches Service::FileServer {
                root_directory,
                basic_auth,
            } && root_directory@ == "./"@ && basic_auth is None),
            kind == ServiceKind::FileExplorer ==> (res matches Service::FileExplorer {
                root_directory,
                basic_auth,
            } && root_directory@ == "./"@ && basic_auth is None),
    {
        match kind {
            ServiceKind::FileServer => Service::FileServer {
                root_directory: String::from_str("./"),
                basic_auth: None,
            },
            ServiceKind::FileExplorer => Service::FileExplorer {
                root_directory: String::from_str("./"),
                basic_auth: None,
            },
        }
    }
}

} // verus!
