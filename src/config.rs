//! Process configuration and its validation.

use vstd::prelude::*;

verus! {

/// Server configuration.
#[derive(Debug, Clone)]
pub struct Config {
    /// The directory holding the key files.
    pub keys_path: String,
    /// Address to bind the HTTP server to.
    pub address: String,
    /// Port to bind the HTTP server to.
    pub port: String,
    /// The policy directory; without one an empty policy is served.
    pub policy: Option<String>,
    /// Serve each identity with its own single-identity certificate.
    pub split_keys: bool,
}

/// What is found at a configured path.
#[derive(Debug, Clone, Copy, PartialEq, Eq, Structural)]
pub enum PathKind {
    Missing,
    NotADirectory,
    Directory,
}

/// Why a configuration is rejected; each names the offending path.
#[derive(Debug, Clone, PartialEq, Eq)]
pub enum ConfigError {
    KeysPathMissing(String),
    KeysPathNotADirectory(String),
    PolicyNotADirectory(String),
}

/// `a + p + b` as one string.
fn framed(a: &str, p: &String, b: &str) -> (r: String)
    ensures
        r@ == a@ + p@ + b@,
{
    let mut s = String::from_str(a);
    s.append(p.as_str());
    s.append(b);
    s
}

impl ConfigError {
    /// A human-readable description.
    pub fn message(&self) -> (r: String)
        ensures
            match self {
                ConfigError::KeysPathMissing(p) => r@ == "Keys path '"@ + p@ + "' does not exist."@,
                ConfigError::KeysPathNotADirectory(p) => r@ == "Keys path '"@ + p@
                    + "' is not a directory."@,
                ConfigError::PolicyNotADirectory(p) => r@ == "Policy directory '"@ + p@
                    + "' is not a directory."@,
            },
    {
        match self {
            ConfigError::KeysPathMissing(p) => framed("Keys path '", p, "' does not exist."),
            ConfigError::KeysPathNotADirectory(p) => framed("Keys path '", p, "' is not a directory."),
            ConfigError::PolicyNotADirectory(p) => framed(
                "Policy directory '",
                p,
                "' is not a directory.",
            ),
        }
    }
}

impl Config {
    /// Checks the configuration against what is on disk: the key path must be
    /// a directory, and so must the policy path when one is set. `keys_path`
    /// and `policy_path` tell what lies at `self.keys_path` and `self.policy`.
    pub fn validate(&self, keys_path: PathKind, policy_path: PathKind) -> (r: Result<(), ConfigError>)
        ensures
            keys_path is Missing ==> (r matches Err(ConfigError::KeysPathMissing(p)) && p@
                == self.keys_path@),
            keys_path is NotADirectory ==> (r matches Err(ConfigError::KeysPathNotADirectory(p))
                && p@ == self.keys_path@),
            keys_path is Directory ==> match self.policy {
                Some(dir) => if policy_path is Directory {
                    r is Ok
                } else {
                    r matches Err(ConfigError::PolicyNotADirectory(p)) && p@ == dir@
                },
                None => r is Ok,
            },
    {
        match keys_path {
            PathKind::Missing => {
                return Err(ConfigError::KeysPathMissing(self.keys_path.clone()));
            },
            PathKind::NotADirectory => {
                return Err(ConfigError::KeysPathNotADirectory(self.keys_path.clone()));
            },
            PathKind::Directory => {},
        }
        if let Some(dir) = &self.policy {
            if !(policy_path == PathKind::Directory) {
                return Err(ConfigError::PolicyNotADirectory(dir.clone()));
            }
        }
        Ok(())
    }
}

} // verus!
