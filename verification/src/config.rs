//! Server settings, and the defaults that stand in for those left unset.
use vstd::prelude::*;
use vstd::string::*;
use crate::text::{decimal, decimal_text};

verus! {

/// The `[server]` table of the configuration file. An empty text or a zero
/// number means that the setting is unset.
#[derive(Clone, Debug)]
pub struct ServerConfig {
    pub host: String,
    pub port: u16,
    pub save_interval: u64,
    pub save_path: String,
    pub save_dir: String,
}

/// The configuration file.
#[derive(Clone, Debug)]
pub struct Config {
    pub server: ServerConfig,
}

/// The address the server listens on when none is set.
pub open spec fn default_host() -> Seq<char> {
    "0.0.0.0"@
}

/// The port the server listens on when none is set.
pub open spec fn default_port() -> u16 {
    6080
}

/// The seconds between snapshots when none is set.
pub open spec fn default_save_interval() -> u64 {
    60
}

/// Where the snapshot is written when no path is set.
pub open spec fn default_save_path() -> Seq<char> {
    "./data/snapshot.bin"@
}

/// The directory made for the snapshot when none is set.
pub open spec fn default_save_dir() -> Seq<char> {
    "./data"@
}

/// The configuration file read when no path is given.
pub open spec fn default_config_path() -> Seq<char> {
    "/etc/bcc/conf.toml"@
}

/// `s` if it is not empty, `d` otherwise.
pub open spec fn or_default(s: Seq<char>, d: Seq<char>) -> Seq<char> {
    if s.len() == 0 {
        d
    } else {
        s
    }
}

/// `s` if it is not empty, else a copy of the literal `d`.
fn text_or(s: &String, d: &str) -> (r: String)
    ensures
        r@ == or_default(s@, d@),
{
    if s.as_str().is_empty() {
        d.to_owned()
    } else {
        s.clone()
    }
}

impl Config {
    /// The configuration used when the file cannot be read or parsed: every
    /// setting unset.
    pub fn blank() -> (c: Config)
        ensures
            c.server.host@.len() == 0,
            c.server.port == 0,
            c.server.save_interval == 0,
            c.server.save_path@.len() == 0,
            c.server.save_dir@.len() == 0,
    {
        Config {
            server: ServerConfig {
                host: String::new(),
                port: 0,
                save_interval: 0,
                save_path: String::new(),
                save_dir: String::new(),
            },
        }
    }

    /// The path of the configuration file: the given one, or the default.
    pub fn file_path(path: Option<String>) -> (p: String)
        ensures
            p@ == match path {
                Some(q) => q@,
                None => default_config_path(),
            },
    {
        match path {
            Some(val) => val,
            None => "/etc/bcc/conf.toml".to_owned(),
        }
    }
}

/// The configuration file the server reads when its path is not given in the
/// environment.
pub open spec fn server_config_path() -> Seq<char> {
    "./conf.toml"@
}

impl Config {
    /// The path of the server's configuration file: the one given in the
    /// environment, or `./conf.toml`.
    pub fn server_file_path(from_env: Option<String>) -> (p: String)
        ensures
            p@ == match from_env {
                Some(q) => q@,
                None => server_config_path(),
            },
    {
        match from_env {
            Some(val) => val,
            None => "./conf.toml".to_owned(),
        }
    }
}

impl ServerConfig {
    /// The host to listen on.
    pub fn listen_host(&self) -> (h: String)
        ensures
            h@ == or_default(self.host@, default_host()),
    {
        text_or(&self.host, "0.0.0.0")
    }

    /// The port to listen on.
    pub fn listen_port(&self) -> (p: u16)
        ensures
            p == if self.port == 0 {
                default_port()
            } else {
                self.port
            },
    {
        if self.port == 0 {
            6080
        } else {
            self.port
        }
    }

    /// The address to listen on: host, a colon, and the port in decimal.
    pub fn listen_address(&self) -> (a: String)
        ensures
            a@ == or_default(self.host@, default_host()) + ":"@ + decimal(
                (if self.port == 0 {
                    default_port()
                } else {
                    self.port
                }) as nat,
            ),
    {
        let host = self.listen_host();
        let port = decimal_text(self.listen_port() as u64);
        let with_colon = host.concat(":");
        with_colon.concat(port.as_str())
    }

    /// The seconds between snapshots.
    pub fn snapshot_interval(&self) -> (s: u64)
        ensures
            s == if self.save_interval == 0 {
                default_save_interval()
            } else {
                self.save_interval
            },
    {
        if self.save_interval != 0 {
            self.save_interval
        } else {
            60
        }
    }

    /// The file the snapshot is written to and read from.
    pub fn snapshot_path(&self) -> (p: String)
        ensures
            p@ == or_default(self.save_path@, default_save_path()),
    {
        text_or(&self.save_path, "./data/snapshot.bin")
    }

    /// The directory made before a snapshot is written.
    pub fn snapshot_dir(&self) -> (d: String)
        ensures
            d@ == or_default(self.save_dir@, default_save_dir()),
    {
        text_or(&self.save_dir, "./data")
    }
}

/// Every setting in effect is set: its text is not empty and its number is
/// not zero; a setting given in the file is the one in effect.
pub proof fn lemma_settings_in_effect(c: ServerConfig)
    ensures
        or_default(c.host@, default_host()).len() > 0,
        or_default(c.save_path@, default_save_path()).len() > 0,
        or_default(c.save_dir@, default_save_dir()).len() > 0,
        default_port() != 0,
        default_save_interval() != 0,
        c.host@.len() > 0 ==> or_default(c.host@, default_host()) == c.host@,
        c.save_path@.len() > 0 ==> or_default(c.save_path@, default_save_path()) == c.save_path@,
        c.save_dir@.len() > 0 ==> or_default(c.save_dir@, default_save_dir()) == c.save_dir@,
{
    reveal_strlit("0.0.0.0");
    reveal_strlit("./data/snapshot.bin");
    reveal_strlit("./data");
}

} // verus!
