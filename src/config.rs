//! Service settings and their defaults.
use vstd::prelude::*;

verus! {

/// The least severe log level that is written.
#[derive(Clone, Copy, Debug, PartialEq, Eq, Structural)]
pub enum LogLevel {
    Trace,
    Debug,
    Info,
    Warn,
    Error,
}

/// An IPv4 socket address to listen on.
#[derive(Clone, Copy, Debug, PartialEq, Eq)]
pub struct BindAddress {
    pub ip: [u8; 4],
    pub port: u16,
}

/// The settings of the service.
#[derive(Clone, Debug)]
pub struct Configuration {
    pub loglevel: LogLevel,
    pub bind_address: BindAddress,
    pub data_file: String,
    pub watch_for_changes: bool,
    pub allow_origin: String,
}

/// Logs from `Info` up.
pub fn default_loglevel() -> (r: LogLevel)
    ensures
        r == LogLevel::Info,
{
    LogLevel::Info
}

/// Listens on 127.0.0.1, port 5353.
pub fn default_bind_address() -> (r: BindAddress)
    ensures
        r.ip@ == seq![127u8, 0u8, 0u8, 1u8],
        r.port == 5353,
{
    let r = BindAddress { ip: [127, 0, 0, 1], port: 5353 };
    assert(r.ip@ =~= seq![127u8, 0u8, 0u8, 1u8]);
    r
}

/// The gazetteer is `./cities.txt`.
pub fn default_data_file() -> (r: String)
    ensures
        r@ == "./cities.txt"@,
{
    String::from_str("./cities.txt")
}

/// The data file is watched, and reloaded when its contents change.
pub fn default_watch_for_changes() -> (r: bool)
    ensures
        r,
{
    true
}

/// Any origin may query.
pub fn default_allow_origin() -> (r: String)
    ensures
        r@ == "*"@,
{
    String::from_str("*")
}

impl Default for Configuration {
    /// Every setting at its default.
    fn default() -> (r: Self)
        ensures
            r.loglevel == LogLevel::Info,
            r.bind_address.ip@ == seq![127u8, 0u8, 0u8, 1u8],
            r.bind_address.port == 5353,
            r.data_file@ == "./cities.txt"@,
            r.watch_for_changes,
            r.allow_origin@ == "*"@,
    {
        Configuration {
            loglevel: default_loglevel(),
            bind_address: default_bind_address(),
            data_file: default_data_file(),
            watch_for_changes: default_watch_for_changes(),
            allow_origin: default_allow_origin(),
        }
    }
}

} // verus!
